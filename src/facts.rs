//! Facts, subject-predicate-object triples, and a store of them.
use crate::error::CrawlError;
use crate::text::{chars_of, find_char, first_index, string_of};
use vstd::prelude::*;

verus! {

/// A fact as text: entity, attribute and value.
pub type FactView = (Seq<char>, Seq<char>, Seq<char>);

/// A triple read from a string such as `"weather is partially cloudy"`.
#[derive(Clone, Debug, PartialEq, Eq, Hash)]
pub struct Fact {
    pub entity: String,
    pub attribute: String,
    pub value: String,
}

impl View for Fact {
    type V = FactView;

    open spec fn view(&self) -> FactView {
        (self.entity@, self.attribute@, self.value@)
    }
}

/// The fact that `s` states: the text before the first space is the entity,
/// the text up to the next space the attribute, and the rest the value.
/// Without two spaces, `s` states none.
pub open spec fn fact_of(s: Seq<char>) -> Option<FactView> {
    let k = first_index(s, ' ');
    let tail = s.skip(k + 1);
    let j = first_index(tail, ' ');
    if k < s.len() && j < tail.len() {
        Some((s.take(k), tail.take(j), tail.skip(j + 1)))
    } else {
        None
    }
}

impl Fact {
    /// Splits `value` on its first two spaces.
    pub fn parse(value: &str) -> (r: Result<Fact, CrawlError>)
        ensures
            r is Ok <==> fact_of(value@) is Some,
            r matches Ok(f) ==> fact_of(value@) == Some(f@),
            r matches Err(e) ==> e.is_interpreter_error(),
    {
        let s = chars_of(value);
        let k = find_char(&s, ' ');
        if k < s.len() {
            let tail = string_of(&s, k + 1, s.len());
            let t = chars_of(tail.as_str());
            let j = find_char(&t, ' ');
            proof {
                assert(t@ =~= s@.skip(k + 1));
            }
            if j < t.len() {
                let entity = string_of(&s, 0, k);
                let attribute = string_of(&t, 0, j);
                let val = string_of(&t, j + 1, t.len());
                proof {
                    assert(entity@ =~= s@.take(k as int));
                    assert(attribute@ =~= t@.take(j as int));
                    assert(val@ =~= t@.skip(j + 1));
                }
                return Ok(Fact { entity, attribute, value: val });
            }
        }
        Err(CrawlError::InterpreterError { reason: String::from_str("couldn't convert to Fact") })
    }

    /// A copy of this fact.
    pub fn duplicate(&self) -> (r: Fact)
        ensures
            r@ == self@,
    {
        Fact {
            entity: self.entity.clone(),
            attribute: self.attribute.clone(),
            value: self.value.clone(),
        }
    }

    /// Whether two facts name the same triple.
    pub fn same(&self, other: &Fact) -> (r: bool)
        ensures
            r == (self@ == other@),
    {
        self.entity == other.entity && self.attribute == other.attribute && self.value
            == other.value
    }
}

impl TryFrom<String> for Fact {
    type Error = CrawlError;

    fn try_from(value: String) -> Result<Self, Self::Error> {
        Fact::parse(value.as_str())
    }
}

/// The conversion's contract is that of [`Fact::parse`].
impl vstd::std_specs::convert::TryFromSpecImpl<String> for Fact {
    open spec fn obeys_try_from_spec() -> bool {
        false
    }

    open spec fn try_from_spec(v: String) -> Result<Self, Self::Error> {
        arbitrary()
    }
}

/// A set of facts: membership only, with no order.
#[derive(Clone, Debug)]
pub struct FactDatabase {
    pub facts: Vec<Fact>,
}

impl View for FactDatabase {
    type V = Set<FactView>;

    open spec fn view(&self) -> Set<FactView> {
        Set::new(|f: FactView| exists|i: int| 0 <= i < self.facts@.len() && self.facts@[i]@ == f)
    }
}

impl Default for FactDatabase {
    fn default() -> (r: Self)
        ensures
            r@ == Set::<FactView>::empty(),
    {
        let r = FactDatabase { facts: Vec::new() };
        assert(r@ =~= Set::<FactView>::empty());
        r
    }
}

impl FactDatabase {
    /// A copy of this database.
    pub fn duplicate(&self) -> (r: Self)
        ensures
            r@ == self@,
    {
        let mut facts: Vec<Fact> = Vec::new();
        let mut i: usize = 0;
        while i < self.facts.len()
            invariant
                i <= self.facts@.len(),
                facts@.len() == i,
                forall|j: int| 0 <= j < i ==> (#[trigger] facts@[j])@ == self.facts@[j]@,
            decreases self.facts@.len() - i,
        {
            facts.push(self.facts[i].duplicate());
            i = i + 1;
        }
        let r = FactDatabase { facts };
        assert forall|f: FactView| #[trigger] r@.contains(f) == self@.contains(f) by {
            if self@.contains(f) {
                let j = choose|j: int| 0 <= j < self.facts@.len() && self.facts@[j]@ == f;
                assert(r.facts@[j]@ == f);
            }
        }
        assert(r@ =~= self@);
        r
    }

    /// A database holding the given facts.
    pub fn new(facts: Vec<Fact>) -> (r: Self)
        ensures
            r@ == Set::new(|f: FactView| exists|i: int| 0 <= i < facts@.len() && facts@[i]@ == f),
    {
        FactDatabase { facts }
    }

    /// Whether `fact` is held.
    pub fn check(&self, fact: &Fact) -> (r: bool)
        ensures
            r == self@.contains(fact@),
    {
        let mut i: usize = 0;
        while i < self.facts.len()
            invariant
                i <= self.facts@.len(),
                forall|j: int| 0 <= j < i ==> self.facts@[j]@ != fact@,
            decreases self.facts@.len() - i,
        {
            if self.facts[i].same(fact) {
                return true;
            }
            i = i + 1;
        }
        false
    }

    /// Adds `fact`; adding a fact already held changes nothing.
    pub fn set(&mut self, fact: Fact)
        ensures
            final(self)@ == old(self)@.insert(fact@),
    {
        if !self.check(&fact) {
            self.facts.push(fact);
            proof {
                assert forall|f: FactView| #[trigger] self@.contains(f) == old(self)@.insert(
                    fact@,
                ).contains(f) by {
                    if old(self)@.contains(f) {
                        let i = choose|i: int|
                            0 <= i < old(self).facts@.len() && old(self).facts@[i]@ == f;
                        assert(self.facts@[i] == old(self).facts@[i]);
                    }
                    if f == fact@ {
                        assert(self.facts@[old(self).facts@.len() as int]@ == f);
                    }
                }
                assert(self@ =~= old(self)@.insert(fact@));
            }
        } else {
            assert(old(self)@ =~= old(self)@.insert(fact@));
        }
    }

    /// Removes `fact`; removing a fact not held changes nothing.
    pub fn clear(&mut self, fact: &Fact)
        ensures
            final(self)@ == old(self)@.remove(fact@),
    {
        let mut kept: Vec<Fact> = Vec::new();
        let mut i: usize = 0;
        while i < self.facts.len()
            invariant
                i <= self.facts@.len(),
                forall|j: int| 0 <= j < kept@.len() ==> #[trigger] kept@[j]@ != fact@,
                forall|j: int|
                    0 <= j < kept@.len() ==> exists|m: int|
                        0 <= m < i && #[trigger] self.facts@[m]@ == #[trigger] kept@[j]@,
                forall|m: int|
                    0 <= m < i && #[trigger] self.facts@[m]@ != fact@ ==> exists|j: int|
                        0 <= j < kept@.len() && kept@[j]@ == self.facts@[m]@,
            decreases self.facts@.len() - i,
        {
            let ghost before = kept@;
            if !self.facts[i].same(fact) {
                let f = self.facts[i].duplicate();
                kept.push(f);
                proof {
                    assert(kept@[kept@.len() - 1]@ == self.facts@[i as int]@);
                }
            }
            proof {
                assert forall|m: int|
                    0 <= m < i + 1 && #[trigger] self.facts@[m]@ != fact@ implies exists|j: int|
                        0 <= j < kept@.len() && kept@[j]@ == self.facts@[m]@ by {
                    if m < i {
                        let j = choose|j: int|
                            0 <= j < before.len() && before[j]@ == self.facts@[m]@;
                        assert(kept@[j] == before[j]);
                    } else {
                        assert(kept@[kept@.len() - 1]@ == self.facts@[m]@);
                    }
                }
            }
            i = i + 1;
        }
        self.facts = kept;
        proof {
            assert(self@ =~= old(self)@.remove(fact@));
        }
    }
}

/// A fact that is set is held; a fact that is cleared is not held; setting a
/// fact a second time leaves the set of held facts as it was.
pub proof fn lemma_set_check_clear(db: Set<FactView>, f: FactView)
    ensures
        db.insert(f).contains(f),
        !db.remove(f).contains(f),
        !db.insert(f).remove(f).contains(f),
        db.insert(f).insert(f) == db.insert(f),
{
    assert(db.insert(f).insert(f) =~= db.insert(f));
}

} // verus!
