//! Random tables: entries chosen by a roll total, with clamping at the ends.
use crate::dice::{DicePool, DiceRoll, Die};
use crate::error::CrawlError;
use crate::rolls::RollTarget;
use std::collections::HashMap;
use vstd::std_specs::iter::IteratorSpec;
use vstd::prelude::*;

verus! {

broadcast use vstd::std_specs::hash::group_hash_axioms;

/// Whether `target` answers to the total `t`.
pub open spec fn covers(target: RollTarget, t: int) -> bool {
    match target {
        RollTarget::Num(n) => t == n,
        RollTarget::NumRange(low, high) => low <= t <= high,
        RollTarget::OverOrEqual(n) => t == n,
    }
}

/// One row of a table: the totals it answers to and its text.
#[derive(Debug, PartialEq, Clone)]
pub struct TableEntry {
    pub roll_target: RollTarget,
    pub value: String,
}

impl View for TableEntry {
    type V = (RollTarget, Seq<char>);

    open spec fn view(&self) -> (RollTarget, Seq<char>) {
        (self.roll_target, self.value@)
    }
}

impl TableEntry {
    pub fn new(roll_target: RollTarget, value: String) -> (r: Self)
        ensures
            r.roll_target == roll_target,
            r.value@ == value@,
    {
        TableEntry { roll_target, value }
    }

    /// A copy of this entry.
    pub fn duplicate(&self) -> (r: Self)
        ensures
            r@ == self@,
    {
        TableEntry { roll_target: self.roll_target, value: self.value.clone() }
    }
}

/// The entry that a table roll resolved to.
#[derive(Debug, PartialEq)]
pub struct TableRollResult {
    pub entry: TableEntry,
}

impl TableRollResult {
    pub fn new(entry: TableEntry) -> (r: Self)
        ensures
            r.entry == entry,
    {
        Self { entry }
    }
}

/// The last of the first `n` entries that answers to `t`.
pub open spec fn last_cover(entries: Seq<TableEntry>, t: int, n: int) -> Option<int>
    decreases n,
{
    if n <= 0 {
        None
    } else if covers(entries[n - 1].roll_target, t) {
        Some(n - 1)
    } else {
        last_cover(entries, t, n - 1)
    }
}

/// The index built from the first `n` entries: each total that some entry
/// answers to maps to the last such entry.
pub open spec fn index_of_entries(entries: Seq<TableEntry>, n: int) -> Map<i32, usize> {
    Map::new(
        |t: i32| last_cover(entries, t as int, n) is Some,
        |t: i32| last_cover(entries, t as int, n)->Some_0 as usize,
    )
}

/// A table of entries with an index from totals to entries.
#[derive(Debug)]
pub struct Table {
    pub entries: Vec<TableEntry>,
    pub roll_targets: HashMap<i32, usize>,
    pub min_target: i32,
    pub max_target: i32,
    pub clamp_to_min: bool,
    pub clamp_to_max: bool,
}

impl Table {
    /// `min_target` and `max_target` are the least and the greatest total in
    /// the index, or both zero when the index is empty.
    pub open spec fn bounds_hold(&self) -> bool {
        let m = self.roll_targets@;
        if m.dom().len() == 0 {
            self.min_target == 0 && self.max_target == 0
        } else {
            &&& m.contains_key(self.min_target)
            &&& m.contains_key(self.max_target)
            &&& forall|k: i32| #[trigger] m.contains_key(k) ==> self.min_target <= k <= self.max_target
        }
    }

    pub open spec fn well_formed(&self) -> bool {
        &&& self.roll_targets@.dom().finite()
        &&& self.bounds_hold()
    }

    /// The index position of the entry that `total` resolves to: the entry
    /// that the index maps it to; failing that, the entry at the nearer end
    /// when the total lies beyond it and clamping on that side is on.
    pub open spec fn resolve(&self, total: int) -> Option<usize> {
        let m = self.roll_targets@;
        if total == total as i32 && m.contains_key(total as i32) {
            Some(m[total as i32])
        } else if m.dom().len() > 0 && total < self.min_target && self.clamp_to_min {
            Some(m[self.min_target])
        } else if m.dom().len() > 0 && total > self.max_target && self.clamp_to_max {
            Some(m[self.max_target])
        } else {
            None
        }
    }

    /// What a roll with the given total yields.
    pub open spec fn outcome(&self, total: int) -> Option<(RollTarget, Seq<char>)> {
        match self.resolve(total) {
            Some(i) => if i < self.entries@.len() {
                Some(self.entries@[i as int]@)
            } else {
                None
            },
            None => None,
        }
    }

    /// A table over `entries` and an index into them, with clamping on at
    /// both ends.
    pub fn new(entries: Vec<TableEntry>, roll_targets: HashMap<i32, usize>) -> (r: Self)
        ensures
            r.well_formed(),
            r.entries@ == entries@,
            r.roll_targets@ == roll_targets@,
            r.clamp_to_min,
            r.clamp_to_max,
    {
        let mut min_target: i32 = 0;
        let mut max_target: i32 = 0;
        let mut seen = false;
        let ghost m = roll_targets@;
        let ghost all = vstd::std_specs::hash::spec_keys_iter(&roll_targets).remaining().unref();
        for k in it: roll_targets.keys()
            invariant
                m == roll_targets@,
                it.seq().unref() == all,
                all.to_set() == m.dom(),
                all.len() == m.dom().len(),
                seen == (it.index() > 0),
                seen ==> all.to_set().contains(min_target),
                seen ==> all.to_set().contains(max_target),
                forall|j: int| 0 <= j < it.index() ==> min_target <= #[trigger] all[j] <= max_target,
                !seen ==> min_target == 0 && max_target == 0,
        {
            proof {
                assert(all[it.index()] == *k);
                assert(all.to_set().contains(*k));
            }
            if !seen || *k < min_target {
                min_target = *k;
            }
            if !seen || *k > max_target {
                max_target = *k;
            }
            seen = true;
        }
        let r = Table {
            entries,
            roll_targets,
            min_target,
            max_target,
            clamp_to_min: true,
            clamp_to_max: true,
        };
        proof {
            assert forall|k: i32| #[trigger] m.contains_key(k) implies min_target <= k
                <= max_target by {
                assert(all.to_set().contains(k));
                let j = choose|j: int| 0 <= j < all.len() && all[j] == k;
            }
            if !seen {
                assert(m.dom().len() == 0);
            }
        }
        r
    }
}

impl Table {
    /// `r` is what a roll with the given total yields: the entry it resolves
    /// to, or an interpreter error when it resolves to none.
    pub open spec fn yields(&self, r: Result<TableRollResult, CrawlError>, total: int) -> bool {
        match r {
            Ok(res) => self.outcome(total) == Some(res.entry@),
            Err(e) => self.outcome(total) is None && e.is_interpreter_error(),
        }
    }

    /// A table over `entries`; each total that an entry answers to leads to
    /// the last entry that answers to it.
    pub fn from_entries(entries: Vec<TableEntry>) -> (r: Self)
        ensures
            r.well_formed(),
            r.entries@ == entries@,
            r.roll_targets@ == index_of_entries(entries@, entries@.len() as int),
            r.clamp_to_min,
            r.clamp_to_max,
    {
        let mut roll_targets: HashMap<i32, usize> = HashMap::new();
        let mut idx: usize = 0;
        proof {
            assert(roll_targets@ =~= index_of_entries(entries@, 0));
        }
        while idx < entries.len()
            invariant
                idx <= entries@.len(),
                roll_targets@ == index_of_entries(entries@, idx as int),
            decreases entries@.len() - idx,
        {
            match entries[idx].roll_target {
                RollTarget::NumRange(low, high) => {
                    let mut t: i64 = low as i64;
                    while t <= high as i64
                        invariant
                            idx < entries@.len(),
                            entries@[idx as int].roll_target == RollTarget::NumRange(low, high),
                            low <= t,
                            t <= high + 1 || t == low,
                            roll_targets@ == Map::new(
                                |k: i32|
                                    last_cover(entries@, k as int, idx as int) is Some || (low <= k
                                        && k < t),
                                |k: i32|
                                    if low <= k && k < t {
                                        idx
                                    } else {
                                        last_cover(entries@, k as int, idx as int)->Some_0 as usize
                                    },
                            ),
                        decreases high - t + 1,
                    {
                        roll_targets.insert(t as i32, idx);
                        t = t + 1;
                        proof {
                            assert(roll_targets@ =~= Map::new(
                                |k: i32|
                                    last_cover(entries@, k as int, idx as int) is Some || (low <= k
                                        && k < t),
                                |k: i32|
                                    if low <= k && k < t {
                                        idx
                                    } else {
                                        last_cover(entries@, k as int, idx as int)->Some_0 as usize
                                    },
                            ));
                        }
                    }
                },
                RollTarget::Num(n) => {
                    roll_targets.insert(n, idx);
                },
                RollTarget::OverOrEqual(n) => {
                    roll_targets.insert(n, idx);
                },
            }
            proof {
                assert(roll_targets@ =~= index_of_entries(entries@, idx + 1));
            }
            idx = idx + 1;
        }
        proof {
            assert(index_of_entries(entries@, idx as int).dom().finite()) by {
                assert(roll_targets@.dom().finite());
            }
        }
        Table::new(entries, roll_targets)
    }

    /// The entry at position `i`, if there is one.
    fn entry_at(&self, i: usize) -> (r: Result<TableRollResult, CrawlError>)
        ensures
            r matches Ok(res) ==> i < self.entries@.len() && res.entry@ == self.entries@[i as int]@,
            r matches Err(e) ==> i >= self.entries@.len() && e.is_interpreter_error(),
    {
        if i < self.entries.len() {
            Ok(TableRollResult::new(self.entries[i].duplicate()))
        } else {
            Err(CrawlError::InterpreterError { reason: String::from_str("table index names no entry") })
        }
    }

    /// The entry that the index maps `target` to.
    fn get_value_for_target(&self, target: i32) -> (r: Result<TableRollResult, CrawlError>)
        requires
            self.roll_targets@.contains_key(target),
        ensures
            r matches Ok(res) ==> self.roll_targets@[target] < self.entries@.len() && res.entry@
                == self.entries@[self.roll_targets@[target] as int]@,
            r matches Err(e) ==> self.roll_targets@[target] >= self.entries@.len()
                && e.is_interpreter_error(),
    {
        match self.roll_targets.get(&target) {
            Some(i) => self.entry_at(*i),
            None => Err(CrawlError::InterpreterError { reason: String::from_str("target not a valid index for table") }),
        }
    }

    /// The entry that a roll with the given total resolves to.
    pub fn lookup(&self, total: i32) -> (r: Result<TableRollResult, CrawlError>)
        requires
            self.well_formed(),
        ensures
            self.yields(r, total as int),
    {
        match self.roll_targets.get(&total) {
            Some(i) => self.entry_at(*i),
            None => {
                if total < self.min_target && self.clamp_to_min && self.roll_targets.len() > 0 {
                    self.get_value_for_target(self.min_target)
                } else if total > self.max_target && self.clamp_to_max && self.roll_targets.len() > 0 {
                    self.get_value_for_target(self.max_target)
                } else {
                    Err(CrawlError::InterpreterError { reason: String::from_str("roll not a valid index for table") })
                }
            },
        }
    }

    /// Rolls `dice` at random and looks the total up.
    pub fn roll(&self, dice: &DiceRoll) -> (r: Result<TableRollResult, CrawlError>)
        requires
            self.well_formed(),
            dice.well_formed(),
        ensures
            exists|faces: Seq<int>|
                dice.dice_pool.can_show(faces) && self.yields(r, dice.total_for(faces)),
    {
        let roll_result = dice.roll();
        let r = self.lookup(roll_result.total);
        assert(dice.dice_pool.can_show(roll_result.pool_result.faces()));
        r
    }

    /// Rolls one die with as many sides as the greatest total in the index,
    /// and looks the face up. A table whose greatest total is below one
    /// cannot be rolled so.
    pub fn auto_roll(&self) -> (r: Result<TableRollResult, CrawlError>)
        requires
            self.well_formed(),
        ensures
            self.max_target < 1 ==> (r matches Err(e) && e.is_interpreter_error()),
            self.max_target >= 1 ==> exists|face: int| 1 <= face <= self.max_target && self.yields(r, face),
    {
        if self.max_target < 1 {
            return Err(CrawlError::InterpreterError { reason: String::from_str("table has no total a die can show") });
        }
        let dice = DiceRoll::new(DicePool::new(vec![Die(self.max_target)]), 0);
        proof {
            assert(dice.dice_pool.dice@ =~= seq![Die(self.max_target)]);
            assert(dice.dice_pool.sides() =~= seq![self.max_target as int]);
            assert(dice.dice_pool.sides().drop_last() =~= Seq::<int>::empty());
            reveal_with_fuel(crate::dice::sum, 2);
        }
        let r = self.roll(&dice);
        proof {
            let faces = choose|faces: Seq<int>|
                dice.dice_pool.can_show(faces) && self.yields(r, dice.total_for(faces));
            assert(faces.drop_last() =~= Seq::<int>::empty());
            reveal_with_fuel(crate::dice::sum, 2);
            assert(dice.total_for(faces) == faces[0]);
        }
        r
    }
}

/// A table built from an entry for 1 to 6 and an entry for 7 to 12, with
/// clamping on, resolves every total up to 6 (zero and below included) to
/// the first entry and every total from 7 up (13 and above included) to the
/// second.
pub proof fn lemma_two_band_table(t: Table, total: int)
    requires
        t.well_formed(),
        t.clamp_to_min,
        t.clamp_to_max,
        t.entries@.len() == 2,
        t.entries@[0].roll_target == RollTarget::NumRange(1, 6),
        t.entries@[1].roll_target == RollTarget::NumRange(7, 12),
        t.roll_targets@ == index_of_entries(t.entries@, 2),
    ensures
        total <= 6 ==> t.outcome(total) == Some(t.entries@[0]@),
        total >= 7 ==> t.outcome(total) == Some(t.entries@[1]@),
{
    let m = t.roll_targets@;
    reveal_with_fuel(last_cover, 3);
    assert(m.contains_key(1i32));
    assert(m.contains_key(12i32));
    assert(m.dom().len() > 0) by {
        assert(m.dom().contains(1i32));
        vstd::set_lib::lemma_len_subset(set![1i32], m.dom());
    }
    assert(t.min_target == 1) by {
        assert(last_cover(t.entries@, t.min_target as int, 2) is Some);
    }
    assert(t.max_target == 12) by {
        assert(last_cover(t.entries@, t.max_target as int, 2) is Some);
    }
    if total == total as i32 && m.contains_key(total as i32) {
        assert(1 <= total <= 12);
    }
}

impl From<Vec<TableEntry>> for Table {
    fn from(value: Vec<TableEntry>) -> Self {
        Table::from_entries(value)
    }
}

/// The conversion's contract is that of [`Table::from_entries`].
impl vstd::std_specs::convert::FromSpecImpl<Vec<TableEntry>> for Table {
    open spec fn obeys_from_spec() -> bool {
        false
    }

    open spec fn from_spec(v: Vec<TableEntry>) -> Self {
        arbitrary()
    }
}

} // verus!
