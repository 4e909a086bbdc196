//! Dice: single dice, pools of dice, and pool rolls with a fixed modifier.
use crate::error::CrawlError;
use crate::parser::{specifier_view, ModifiedRollSpecifier, SpecifierView};
use crate::scanner::{Token, TokenView};
use crate::text::{
    chars_of, decimal_i32, decimal_text, find_char, first_index, int_text, parse_decimal, push_decimal,
    push_int,
};
use rand::Rng;
use vstd::prelude::*;

verus! {

/// Relies on `rand::Rng::gen_range` over `rand::thread_rng()`: an inclusive
/// range that is not empty yields a value inside it.
#[verifier::external_body]
fn random_in_range(low: i32, high: i32) -> (r: i32)
    requires
        low <= high,
    ensures
        low <= r <= high,
{
    rand::thread_rng().gen_range(low..=high)
}

/// Sum of a sequence of integers.
pub open spec fn sum(s: Seq<int>) -> int
    decreases s.len(),
{
    if s.len() == 0 {
        0
    } else {
        sum(s.drop_last()) + s.last()
    }
}

/// The face shown by one die.
#[derive(Debug, Clone, Copy, PartialEq, Eq)]
pub struct DieRollResult(pub i32);

/// A die with the given number of sides.
#[derive(Clone, Copy, Debug, PartialEq, Eq, Hash)]
pub struct Die(pub i32);

/// Where dice faces come from: draws handed in ahead of time are used first,
/// in order; after them, faces are drawn at random.
///
/// A handed-in draw that does not fit the die being rolled is skipped and a
/// random face is drawn in its place.
#[derive(Debug, Clone)]
pub struct DiceSource {
    pub scripted: Vec<i32>,
    pub next: usize,
}

impl DiceSource {
    pub open spec fn well_formed(&self) -> bool {
        self.next <= self.scripted@.len()
    }

    /// The face that the next draw for a die of `sides` sides is bound to
    /// show, if the source holds one for it.
    pub open spec fn forced(&self, sides: i32) -> Option<i32> {
        if self.next < self.scripted@.len() && 1 <= self.scripted@[self.next as int] <= sides {
            Some(self.scripted@[self.next as int])
        } else {
            None
        }
    }

    /// The position after one draw.
    pub open spec fn advanced(&self) -> nat {
        if self.next < self.scripted@.len() {
            (self.next + 1) as nat
        } else {
            self.next as nat
        }
    }

    /// A source that draws every face at random.
    pub fn random() -> (r: Self)
        ensures
            r.well_formed(),
            r.scripted@.len() == 0,
    {
        DiceSource { scripted: Vec::new(), next: 0 }
    }

    /// A source that shows the given faces first, in order.
    pub fn scripted(draws: Vec<i32>) -> (r: Self)
        ensures
            r.well_formed(),
            r.scripted@ == draws@,
            r.next == 0,
    {
        DiceSource { scripted: draws, next: 0 }
    }

    /// One face of a die with `sides` sides.
    pub fn draw(&mut self, sides: i32) -> (r: i32)
        requires
            old(self).well_formed(),
            1 <= sides,
        ensures
            final(self).well_formed(),
            1 <= r <= sides,
            old(self).forced(sides) matches Some(v) ==> r == v,
            final(self).scripted@ == old(self).scripted@,
            final(self).next == old(self).advanced(),
    {
        if self.next < self.scripted.len() {
            let v = self.scripted[self.next];
            self.next = self.next + 1;
            if 1 <= v && v <= sides {
                return v;
            }
        }
        random_in_range(1, sides)
    }
}

impl Die {
    /// A face of this die, drawn at random.
    pub fn roll(&self) -> (r: DieRollResult)
        requires
            1 <= self.0,
        ensures
            1 <= r.0 <= self.0,
    {
        DieRollResult(random_in_range(1, self.0))
    }

    /// A face of this die, taken from `source`.
    pub fn roll_from(&self, source: &mut DiceSource) -> (r: DieRollResult)
        requires
            old(source).well_formed(),
            1 <= self.0,
        ensures
            final(source).well_formed(),
            1 <= r.0 <= self.0,
            old(source).forced(self.0) matches Some(v) ==> r.0 == v,
            final(source).scripted@ == old(source).scripted@,
            final(source).next == old(source).advanced(),
    {
        DieRollResult(source.draw(self.0))
    }
}


/// The sum of a prefix grows by the next element.
pub proof fn lemma_sum_take_step(s: Seq<int>, i: int)
    requires
        0 <= i < s.len(),
    ensures
        sum(s.take(i + 1)) == sum(s.take(i)) + s[i],
{
    assert(s.take(i + 1).drop_last() =~= s.take(i));
}

/// Sums are monotone in each element.
pub proof fn lemma_sum_le(a: Seq<int>, b: Seq<int>)
    requires
        a.len() == b.len(),
        forall|i: int| 0 <= i < a.len() ==> a[i] <= b[i],
    ensures
        sum(a) <= sum(b),
    decreases a.len(),
{
    if a.len() > 0 {
        lemma_sum_le(a.drop_last(), b.drop_last());
    }
}

/// A sum of elements that are all at least zero is at least zero.
pub proof fn lemma_sum_nonneg(s: Seq<int>)
    requires
        forall|i: int| 0 <= i < s.len() ==> s[i] >= 0,
    ensures
        sum(s) >= 0,
    decreases s.len(),
{
    if s.len() > 0 {
        lemma_sum_nonneg(s.drop_last());
    }
}

/// With no negative element, a prefix sums to no more than the whole.
pub proof fn lemma_sum_prefix_le(s: Seq<int>, i: int)
    requires
        forall|j: int| 0 <= j < s.len() ==> s[j] >= 0,
        0 <= i <= s.len(),
    ensures
        sum(s.take(i)) <= sum(s),
    decreases s.len() - i,
{
    if i < s.len() {
        lemma_sum_take_step(s, i);
        lemma_sum_prefix_le(s, i + 1);
    } else {
        assert(s.take(i) =~= s);
    }
}

/// What rolling a pool showed, one face per die, in the pool's order.
#[derive(Debug)]
pub struct DicePoolRollResult {
    pub results: Vec<DieRollResult>,
}

impl DicePoolRollResult {
    pub open spec fn faces(&self) -> Seq<int> {
        self.results@.map_values(|r: DieRollResult| r.0 as int)
    }
}

/// An ordered collection of dice.
#[derive(Debug, Clone)]
pub struct DicePool {
    pub dice: Vec<Die>,
}

impl DicePool {
    pub open spec fn sides(&self) -> Seq<int> {
        self.dice@.map_values(|d: Die| d.0 as int)
    }

    /// Every die has at least one side.
    pub open spec fn well_formed(&self) -> bool {
        forall|i: int| 0 <= i < self.dice@.len() ==> 1 <= #[trigger] self.dice@[i].0
    }

    /// `faces` could be what this pool shows: one face per die, each in its
    /// die's range.
    pub open spec fn can_show(&self, faces: Seq<int>) -> bool {
        &&& faces.len() == self.dice@.len()
        &&& forall|i: int| 0 <= i < faces.len() ==> 1 <= #[trigger] faces[i] <= self.dice@[i].0
    }

    pub fn new(dice: Vec<Die>) -> (r: Self)
        ensures
            r.dice@ == dice@,
    {
        DicePool { dice }
    }

    /// Rolls every die at random, in order.
    pub fn roll(&self) -> (r: DicePoolRollResult)
        requires
            self.well_formed(),
        ensures
            self.can_show(r.faces()),
    {
        let mut results: Vec<DieRollResult> = Vec::new();
        let mut i: usize = 0;
        while i < self.dice.len()
            invariant
                self.well_formed(),
                i <= self.dice@.len(),
                results@.len() == i,
                forall|j: int| 0 <= j < i ==> 1 <= #[trigger] results@[j].0 <= self.dice@[j].0,
            decreases self.dice@.len() - i,
        {
            results.push(self.dice[i].roll());
            i = i + 1;
        }
        DicePoolRollResult { results }
    }

    /// Rolls every die in order, each face taken from `source`.
    pub fn roll_from(&self, source: &mut DiceSource) -> (r: DicePoolRollResult)
        requires
            self.well_formed(),
            old(source).well_formed(),
        ensures
            final(source).well_formed(),
            final(source).scripted@ == old(source).scripted@,
            self.can_show(r.faces()),
    {
        let mut results: Vec<DieRollResult> = Vec::new();
        let mut i: usize = 0;
        while i < self.dice.len()
            invariant
                self.well_formed(),
                source.well_formed(),
                source.scripted@ == old(source).scripted@,
                i <= self.dice@.len(),
                results@.len() == i,
                forall|j: int| 0 <= j < i ==> 1 <= #[trigger] results@[j].0 <= self.dice@[j].0,
            decreases self.dice@.len() - i,
        {
            results.push(self.dice[i].roll_from(source));
            i = i + 1;
        }
        DicePoolRollResult { results }
    }
}

/// The outcome of a [`DiceRoll`]: the faces shown, the modifier, and their sum.
#[derive(Debug)]
pub struct DiceRollResult {
    pub pool_result: DicePoolRollResult,
    pub modifier: i32,
    pub total: i32,
}

/// A pool of dice and a fixed modifier added to what they show.
#[derive(Debug, Clone)]
pub struct DiceRoll {
    pub dice_pool: DicePool,
    pub modifier: i32,
}

impl DiceRoll {
    /// Every die has a side, and the largest total fits in an `i32`.
    pub open spec fn well_formed(&self) -> bool {
        &&& self.dice_pool.well_formed()
        &&& sum(self.dice_pool.sides()) <= i32::MAX
        &&& sum(self.dice_pool.sides()) + self.modifier <= i32::MAX
    }

    /// The total for the given faces.
    pub open spec fn total_for(&self, faces: Seq<int>) -> int {
        sum(faces) + self.modifier
    }

    pub fn new(dice_pool: DicePool, modifier: i32) -> (r: Self)
        ensures
            r.dice_pool.dice@ == dice_pool.dice@,
            r.modifier == modifier,
    {
        DiceRoll { dice_pool, modifier }
    }

    /// Adds the modifier to the faces that the pool showed.
    fn total(&self, pool_result: DicePoolRollResult) -> (r: DiceRollResult)
        requires
            self.well_formed(),
            self.dice_pool.can_show(pool_result.faces()),
        ensures
            r.pool_result.faces() == pool_result.faces(),
            r.modifier == self.modifier,
            r.total == self.total_for(pool_result.faces()),
    {
        let ghost faces = pool_result.faces();
        let ghost sides = self.dice_pool.sides();
        proof {
            lemma_sum_le(faces, sides);
            lemma_sum_nonneg(faces);
        }
        let mut acc: i32 = 0;
        let mut i: usize = 0;
        while i < pool_result.results.len()
            invariant
                faces == pool_result.faces(),
                self.dice_pool.can_show(faces),
                sum(faces) <= sum(sides) <= i32::MAX,
                sides == self.dice_pool.sides(),
                i <= faces.len(),
                acc == sum(faces.take(i as int)),
            decreases faces.len() - i,
        {
            proof {
                lemma_sum_take_step(faces, i as int);
                lemma_sum_prefix_le(faces, i as int + 1);
            }
            acc = acc + pool_result.results[i].0;
            i = i + 1;
        }
        proof {
            assert(faces.take(i as int) =~= faces);
        }
        DiceRollResult { pool_result, modifier: self.modifier, total: acc + self.modifier }
    }

    /// Rolls the pool at random and adds the modifier.
    pub fn roll(&self) -> (r: DiceRollResult)
        requires
            self.well_formed(),
        ensures
            self.dice_pool.can_show(r.pool_result.faces()),
            r.modifier == self.modifier,
            r.total == self.total_for(r.pool_result.faces()),
    {
        let pool_result = self.dice_pool.roll();
        self.total(pool_result)
    }

    /// Rolls the pool with faces taken from `source` and adds the modifier.
    pub fn roll_from(&self, source: &mut DiceSource) -> (r: DiceRollResult)
        requires
            self.well_formed(),
            old(source).well_formed(),
        ensures
            final(source).well_formed(),
            final(source).scripted@ == old(source).scripted@,
            self.dice_pool.can_show(r.pool_result.faces()),
            r.modifier == self.modifier,
            r.total == self.total_for(r.pool_result.faces()),
    {
        let pool_result = self.dice_pool.roll_from(source);
        self.total(pool_result)
    }

    /// The result of this roll had the pool shown `faces`.
    pub fn roll_with(&self, faces: &Vec<i32>) -> (r: DiceRollResult)
        requires
            self.well_formed(),
            self.dice_pool.can_show(faces@.map_values(|f: i32| f as int)),
        ensures
            r.pool_result.faces() == faces@.map_values(|f: i32| f as int),
            r.modifier == self.modifier,
            r.total == self.total_for(faces@.map_values(|f: i32| f as int)),
    {
        let mut results: Vec<DieRollResult> = Vec::new();
        let mut i: usize = 0;
        while i < faces.len()
            invariant
                i <= faces@.len(),
                results@.len() == i,
                forall|j: int| 0 <= j < i ==> #[trigger] results@[j].0 == faces@[j],
            decreases faces@.len() - i,
        {
            results.push(DieRollResult(faces[i]));
            i = i + 1;
        }
        let pool_result = DicePoolRollResult { results };
        assert(pool_result.faces() =~= faces@.map_values(|f: i32| f as int));
        self.total(pool_result)
    }
}

/// The number of dice and of sides that a specifier `NdM` names, with its
/// modifier: `N` and `M` are decimal numbers, `M` is at least one, and the
/// largest total fits in an `i32`.
pub open spec fn dice_of(sv: SpecifierView) -> Option<(int, int)> {
    match sv.0 {
        TokenView::RollSpecifier(text) => {
            let k = first_index(text, 'd');
            match (decimal_i32(text.take(k)), decimal_i32(text.skip(k + 1))) {
                (Some(n), Some(m)) => if k < text.len() && m >= 1 && n * m <= i32::MAX && n * m
                    + sv.1 <= i32::MAX {
                    Some((n as int, m as int))
                } else {
                    None
                },
                _ => None,
            }
        },
        _ => None,
    }
}

/// Dice that all have `m` sides sum to `m` for each die.
pub proof fn lemma_sum_constant(s: Seq<int>, m: int)
    requires
        forall|i: int| 0 <= i < s.len() ==> s[i] == m,
    ensures
        sum(s) == s.len() * m,
    decreases s.len(),
{
    if s.len() > 0 {
        lemma_sum_constant(s.drop_last(), m);
        assert(sum(s) == (s.len() - 1) * m + m);
        assert((s.len() - 1) * m + m == s.len() * m) by (nonlinear_arith);
    }
}

impl DiceRoll {
    /// The dice that `spec` names: `N` dice of `M` sides, and its modifier.
    pub fn from_specifier(spec: &ModifiedRollSpecifier) -> (r: Result<DiceRoll, CrawlError>)
        ensures
            r is Ok <==> dice_of(specifier_view(*spec)) is Some,
            r matches Ok(d) ==> {
                let (n, m) = dice_of(specifier_view(*spec))->Some_0;
                &&& d.well_formed()
                &&& d.modifier == spec.modifier
                &&& d.dice_pool.dice@.len() == n
                &&& forall|i: int| 0 <= i < n ==> d.dice_pool.dice@[i].0 == m
            },
            r matches Err(e) ==> e.is_parser_error(),
    {
        let text = match &spec.base_roll_specifier {
            Token::RollSpecifier(t) => t,
            _ => {
                return Err(CrawlError::ParserError { token: spec.base_roll_specifier.describe() });
            },
        };
        let cs = chars_of(text.as_str());
        let len = cs.len();
        let k = find_char(&cs, 'd');
        let counts = if k < len {
            (parse_decimal(&cs, 0, k), parse_decimal(&cs, k + 1, len))
        } else {
            (None, None)
        };
        proof {
            if k < len {
                assert(cs@.subrange(0, k as int) =~= cs@.take(k as int));
                assert(cs@.subrange(k + 1, len as int) =~= cs@.skip(k + 1));
            }
        }
        let (n, m) = match counts {
            (Some(n), Some(m)) => (n, m),
            _ => {
                return Err(CrawlError::ParserError { token: spec.base_roll_specifier.describe() });
            },
        };
        if m < 1 {
            return Err(CrawlError::ParserError { token: spec.base_roll_specifier.describe() });
        }
        assert(0 <= n * m <= (i32::MAX as int) * (i32::MAX as int)) by (nonlinear_arith)
            requires
                0 <= n <= i32::MAX,
                1 <= m <= i32::MAX,
        ;
        let largest: i64 = (n as i64) * (m as i64);
        if largest > i32::MAX as i64 || largest + spec.modifier as i64 > i32::MAX as i64 {
            return Err(CrawlError::ParserError { token: spec.base_roll_specifier.describe() });
        }
        let mut dice: Vec<Die> = Vec::new();
        let mut i: i32 = 0;
        while i < n
            invariant
                0 <= i <= n,
                dice@.len() == i,
                forall|j: int| 0 <= j < i ==> dice@[j].0 == m,
            decreases n - i,
        {
            dice.push(Die(m));
            i = i + 1;
        }
        let d = DiceRoll { dice_pool: DicePool { dice }, modifier: spec.modifier };
        proof {
            lemma_sum_constant(d.dice_pool.sides(), m as int);
        }
        Ok(d)
    }
}

/// The position of the first group of dice with `sides` sides, or the
/// number of groups.
pub open spec fn group_index(groups: Seq<(int, int)>, sides: int, i: int) -> int
    decreases groups.len() - i,
{
    if i < 0 || i >= groups.len() {
        groups.len() as int
    } else if groups[i].0 == sides {
        i
    } else {
        group_index(groups, sides, i + 1)
    }
}

/// The dice grouped by their number of sides, in order of first appearance:
/// each group is a number of sides and how many dice have it.
pub open spec fn groups_of(sides: Seq<int>) -> Seq<(int, int)>
    decreases sides.len(),
{
    if sides.len() == 0 {
        Seq::empty()
    } else {
        let g = groups_of(sides.drop_last());
        let j = group_index(g, sides.last(), 0);
        if j < g.len() {
            g.update(j, (sides.last(), g[j].1 + 1))
        } else {
            g.push((sides.last(), 1))
        }
    }
}

/// The groups written one after another, each as `NdM`.
pub open spec fn groups_text(groups: Seq<(int, int)>) -> Seq<char>
    decreases groups.len(),
{
    if groups.len() == 0 {
        Seq::empty()
    } else {
        groups_text(groups.drop_last()) + int_text(groups.last().1) + seq!['d'] + int_text(
            groups.last().0,
        )
    }
}

/// A modifier as text: ` + N`, ` - N`, or nothing when it is zero.
pub open spec fn modifier_text(m: int) -> Seq<char> {
    if m > 0 {
        " + "@ + int_text(m)
    } else if m < 0 {
        " - "@ + decimal_text((-m) as nat)
    } else {
        Seq::empty()
    }
}

proof fn lemma_group_index_range(groups: Seq<(int, int)>, sides: int, i: int)
    requires
        0 <= i <= groups.len(),
    ensures
        i <= group_index(groups, sides, i) <= groups.len(),
    decreases groups.len() - i,
{
    if i < groups.len() && groups[i].0 != sides {
        lemma_group_index_range(groups, sides, i + 1);
    }
}

proof fn lemma_groups_bounded(sides: Seq<int>)
    ensures
        groups_of(sides).len() <= sides.len(),
        forall|j: int| 0 <= j < groups_of(sides).len() ==> 1 <= #[trigger] groups_of(sides)[j].1 <= sides.len(),
    decreases sides.len(),
{
    if sides.len() > 0 {
        let prev = sides.drop_last();
        lemma_groups_bounded(prev);
        let g = groups_of(prev);
        let j = group_index(g, sides.last(), 0);
        lemma_group_index_range(g, sides.last(), 0);
        let h = groups_of(sides);
        if j < g.len() {
            assert(h == g.update(j, (sides.last(), g[j].1 + 1)));
            assert forall|m: int| 0 <= m < h.len() implies 1 <= #[trigger] h[m].1 <= sides.len() by {
                if m != j {
                    assert(h[m] == g[m]);
                }
            }
        } else {
            assert(h == g.push((sides.last(), 1)));
            assert forall|m: int| 0 <= m < h.len() implies 1 <= #[trigger] h[m].1 <= sides.len() by {
                if m < g.len() {
                    assert(h[m] == g[m]);
                }
            }
        }
    }
}

impl DicePool {
    /// The pool as text: for each number of sides, in order of first
    /// appearance, how many dice have it, as in `3d6`.
    pub fn describe(&self) -> (r: String)
        requires
            self.dice@.len() <= i32::MAX,
        ensures
            r@ == groups_text(groups_of(self.sides())),
    {
        let ghost sides = self.sides();
        let mut groups: Vec<(i32, i32)> = Vec::new();
        let mut i: usize = 0;
        while i < self.dice.len()
            invariant
                sides == self.sides(),
                self.dice@.len() <= i32::MAX,
                i <= self.dice@.len(),
                groups@.map_values(|g: (i32, i32)| (g.0 as int, g.1 as int)) == groups_of(sides.take(i as int)),
            decreases self.dice@.len() - i,
        {
            let ghost gv = groups_of(sides.take(i as int));
            proof {
                assert(sides.take(i + 1).drop_last() =~= sides.take(i as int));
                lemma_groups_bounded(sides.take(i as int));
            }
            let size = self.dice[i].0;
            let mut j: usize = 0;
            while j < groups.len() && groups[j].0 != size
                invariant
                    j <= groups@.len(),
                    gv == groups@.map_values(|g: (i32, i32)| (g.0 as int, g.1 as int)),
                    group_index(gv, size as int, 0) == group_index(gv, size as int, j as int),
                decreases groups@.len() - j,
            {
                j = j + 1;
            }
            if j < groups.len() {
                let (s, c) = groups[j];
                assert(gv[j as int].1 <= i);
                groups.set(j, (s, c + 1));
                assert(groups@.map_values(|g: (i32, i32)| (g.0 as int, g.1 as int)) =~= gv.update(
                    j as int,
                    (size as int, gv[j as int].1 + 1),
                ));
            } else {
                groups.push((size, 1));
                assert(groups@.map_values(|g: (i32, i32)| (g.0 as int, g.1 as int)) =~= gv.push(
                    (size as int, 1),
                ));
            }
            i = i + 1;
        }
        assert(sides.take(i as int) =~= sides);
        let ghost all = groups@.map_values(|g: (i32, i32)| (g.0 as int, g.1 as int));
        let mut out = String::new();
        let mut k: usize = 0;
        while k < groups.len()
            invariant
                all == groups@.map_values(|g: (i32, i32)| (g.0 as int, g.1 as int)),
                k <= groups@.len(),
                out@ == groups_text(all.take(k as int)),
            decreases groups@.len() - k,
        {
            push_int(&mut out, groups[k].1);
            out.append("d");
            push_int(&mut out, groups[k].0);
            proof {
                assert(all.take(k + 1).drop_last() =~= all.take(k as int));
                reveal_strlit("d");
                assert(out@ =~= groups_text(all.take(k + 1)));
            }
            k = k + 1;
        }
        assert(all.take(k as int) =~= all);
        out
    }
}

impl DiceRoll {
    /// The roll as text: the pool, then ` + N` or ` - N` for a modifier
    /// other than zero.
    pub fn describe(&self) -> (r: String)
        requires
            self.dice_pool.dice@.len() <= i32::MAX,
        ensures
            r@ == groups_text(groups_of(self.dice_pool.sides())) + modifier_text(self.modifier as int),
    {
        let mut out = self.dice_pool.describe();
        let ghost pool = out@;
        if self.modifier > 0 {
            out.append(" + ");
            push_int(&mut out, self.modifier);
            assert(out@ =~= pool + modifier_text(self.modifier as int));
        } else if self.modifier < 0 {
            out.append(" - ");
            let m: i64 = -(self.modifier as i64);
            push_decimal(&mut out, m as u64);
            assert(out@ =~= pool + modifier_text(self.modifier as int));
        } else {
            assert(out@ =~= pool + modifier_text(self.modifier as int));
        }
        out
    }
}

impl DieRollResult {
    /// The face as text.
    pub fn describe(&self) -> (r: String)
        ensures
            r@ == int_text(self.0 as int),
    {
        let mut out = String::new();
        push_int(&mut out, self.0);
        assert(out@ =~= int_text(self.0 as int));
        out
    }
}

impl DiceRollResult {
    /// The total as text.
    pub fn describe(&self) -> (r: String)
        ensures
            r@ == int_text(self.total as int),
    {
        let mut out = String::new();
        push_int(&mut out, self.total);
        assert(out@ =~= int_text(self.total as int));
        out
    }
}

/// A roll's total is the sum of the faces shown plus the modifier, and the
/// same faces always give the same total.
pub proof fn lemma_total_determined_by_faces(roll: DiceRoll, a: DiceRollResult, b: DiceRollResult)
    requires
        a.total == roll.total_for(a.pool_result.faces()),
        b.total == roll.total_for(b.pool_result.faces()),
        a.pool_result.faces() == b.pool_result.faces(),
    ensures
        a.total == b.total,
        a.total == sum(a.pool_result.faces()) + roll.modifier,
{
}

} // verus!
