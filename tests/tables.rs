use crawl::dice::{DicePool, DiceRoll, Die};
use crawl::error::CrawlError;
use crawl::rolls::RollTarget;
use crawl::tables::{Table, TableEntry, TableRollResult};

fn entry(target: RollTarget, value: &str) -> TableEntry {
    TableEntry { roll_target: target, value: value.into() }
}

#[test]
fn range_target_table_from_vec() {
    let low_entry = entry(RollTarget::NumRange(1, 6), "1-6");
    let high_entry = entry(RollTarget::NumRange(7, 12), "7-12");
    let table = Table::from(vec![low_entry.clone(), high_entry.clone()]);

    let dice = DiceRoll::new(DicePool::new(vec![Die(1)]), 0);
    let result = table.roll(&dice).unwrap();
    assert_eq!(result, TableRollResult { entry: low_entry });

    let dice = DiceRoll::new(DicePool::new(vec![Die(1)]), 11);
    let result = table.roll(&dice).unwrap();
    assert_eq!(result, TableRollResult { entry: high_entry });
}

#[test]
fn num_target_table_from_vec() {
    let zero_entry = entry(RollTarget::Num(0), "zero");
    let one_entry = entry(RollTarget::Num(1), "one");
    let table = Table::from(vec![zero_entry.clone(), one_entry.clone()]);
    let dice = DiceRoll::new(DicePool::new(vec![Die(1)]), 0);
    let result = table.roll(&dice).unwrap();
    assert_eq!(result, TableRollResult { entry: one_entry });
}

#[test]
fn under_min_target() {
    let zero_entry = entry(RollTarget::Num(0), "zero");
    let one_entry = entry(RollTarget::Num(1), "one");
    let table = Table::from(vec![zero_entry.clone(), one_entry.clone()]);
    let dice = DiceRoll::new(DicePool::new(vec![Die(1)]), -100);
    let result = table.roll(&dice).unwrap();
    assert_eq!(result, TableRollResult { entry: zero_entry });
}

#[test]
fn over_max_target() {
    let zero_entry = entry(RollTarget::Num(0), "zero");
    let one_entry = entry(RollTarget::Num(1), "one");
    let table = Table::from(vec![zero_entry.clone(), one_entry.clone()]);
    let dice = DiceRoll::new(DicePool::new(vec![Die(1)]), 100);
    let result = table.roll(&dice).unwrap();
    assert_eq!(result, TableRollResult { entry: one_entry });
}

#[test]
fn two_band_table_clamps_and_resolves() {
    let a = entry(RollTarget::NumRange(1, 6), "A");
    let b = entry(RollTarget::NumRange(7, 12), "B");
    let table = Table::from(vec![a, b]);
    for (total, expected) in [(0, "A"), (-5, "A"), (4, "A"), (9, "B"), (13, "B"), (40, "B")] {
        assert_eq!(table.lookup(total).unwrap().entry.value, expected);
    }
    assert_eq!(table.min_target, 1);
    assert_eq!(table.max_target, 12);
}

#[test]
fn later_entries_win_on_overlap() {
    let table = Table::from(vec![
        entry(RollTarget::NumRange(1, 6), "first"),
        entry(RollTarget::Num(3), "second"),
    ]);
    assert_eq!(table.lookup(3).unwrap().entry.value, "second");
    assert_eq!(table.lookup(4).unwrap().entry.value, "first");
}

#[test]
fn gap_without_clamping_is_an_error() {
    let mut table = Table::from(vec![
        entry(RollTarget::Num(1), "one"),
        entry(RollTarget::Num(3), "three"),
    ]);
    assert!(matches!(table.lookup(2), Err(CrawlError::InterpreterError { .. })));
    table.clamp_to_max = false;
    assert!(matches!(table.lookup(9), Err(CrawlError::InterpreterError { .. })));
}

#[test]
fn empty_table_cannot_be_rolled() {
    let table = Table::from(Vec::new());
    assert!(matches!(table.lookup(1), Err(CrawlError::InterpreterError { .. })));
    assert!(matches!(table.auto_roll(), Err(CrawlError::InterpreterError { .. })));
}

#[test]
fn auto_roll_stays_within_the_table() {
    let table = Table::from(vec![
        entry(RollTarget::NumRange(1, 3), "low"),
        entry(RollTarget::OverOrEqual(4), "high"),
    ]);
    assert_eq!(table.max_target, 4);
    for _ in 0..50 {
        let value = table.auto_roll().unwrap().entry.value;
        assert!(value == "low" || value == "high");
    }
}

#[test]
fn roll_target_parsing() {
    assert_eq!(RollTarget::parse("4").unwrap(), RollTarget::Num(4));
    assert_eq!(RollTarget::parse("1-6").unwrap(), RollTarget::NumRange(1, 6));
    assert_eq!(RollTarget::parse("13+").unwrap(), RollTarget::OverOrEqual(13));
    assert_eq!(RollTarget::try_from("7-12").unwrap(), RollTarget::NumRange(7, 12));
    assert_eq!(RollTarget::try_from(String::from("2")).unwrap(), RollTarget::Num(2));
    assert!(matches!(RollTarget::parse("1-2-3"), Err(CrawlError::InterpreterError { .. })));
    assert!(matches!(RollTarget::parse("x"), Err(CrawlError::InterpreterError { .. })));
    assert!(matches!(RollTarget::parse(""), Err(CrawlError::InterpreterError { .. })));
    assert!(matches!(RollTarget::parse("99999999999"), Err(CrawlError::InterpreterError { .. })));
}
