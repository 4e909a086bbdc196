use crawl::dice::{DicePool, DiceRoll, DiceSource, Die};
use crawl::error::CrawlError;
use crawl::parser::ModifiedRollSpecifier;
use crawl::scanner::Token;

#[test]
fn die_rolls_stay_in_range() {
    for sides in [1, 2, 6, 20, 100] {
        for _ in 0..200 {
            let face = Die(sides).roll().0;
            assert!(1 <= face && face <= sides);
        }
    }
}

#[test]
fn roll_total_is_faces_plus_modifier() {
    let roll = DiceRoll::new(DicePool::new(vec![Die(6), Die(6), Die(4)]), -2);
    for _ in 0..100 {
        let r = roll.roll();
        let faces: i32 = r.pool_result.results.iter().map(|f| f.0).sum();
        assert_eq!(r.total, faces - 2);
        assert_eq!(r.modifier, -2);
    }
}

#[test]
fn fixed_faces_give_a_fixed_total() {
    let roll = DiceRoll::new(DicePool::new(vec![Die(6), Die(6)]), 3);
    assert_eq!(roll.roll_with(&vec![2, 5]).total, 10);
    assert_eq!(roll.roll_with(&vec![2, 5]).total, 10);
    assert_eq!(roll.roll_with(&vec![6, 6]).total, 15);
}

#[test]
fn scripted_source_is_used_in_order() {
    let mut source = DiceSource::scripted(vec![3, 9, 1]);
    assert_eq!(source.draw(6), 3);
    let second = source.draw(6);
    assert!(1 <= second && second <= 6);
    assert_eq!(source.draw(6), 1);
    let roll = DiceRoll::new(DicePool::new(vec![Die(6), Die(6)]), 0);
    let mut source = DiceSource::scripted(vec![4, 2]);
    assert_eq!(roll.roll_from(&mut source).total, 6);
}

#[test]
fn specifier_to_dice() {
    let spec = ModifiedRollSpecifier { base_roll_specifier: Token::RollSpecifier("3d8".into()), modifier: 2 };
    let roll = DiceRoll::from_specifier(&spec).unwrap();
    assert_eq!(roll.dice_pool.dice, vec![Die(8), Die(8), Die(8)]);
    assert_eq!(roll.modifier, 2);
    let zero = ModifiedRollSpecifier { base_roll_specifier: Token::RollSpecifier("0d8".into()), modifier: 2 };
    assert_eq!(DiceRoll::from_specifier(&zero).unwrap().roll().total, 2);
    for bad in ["1d0", "d6", "1d6d8", "99999d99999"] {
        let spec = ModifiedRollSpecifier { base_roll_specifier: Token::RollSpecifier(bad.into()), modifier: 0 };
        assert!(matches!(DiceRoll::from_specifier(&spec), Err(CrawlError::ParserError { .. })));
    }
    let not_spec = ModifiedRollSpecifier { base_roll_specifier: Token::Num(3), modifier: 0 };
    assert!(matches!(DiceRoll::from_specifier(&not_spec), Err(CrawlError::ParserError { .. })));
}

#[test]
fn pool_and_roll_as_text() {
    let pool = DicePool::new(vec![Die(6), Die(6), Die(6)]);
    assert_eq!(pool.describe(), "3d6");
    let mixed = DicePool::new(vec![Die(6), Die(4), Die(6)]);
    assert_eq!(mixed.describe(), "2d61d4");
    assert_eq!(DiceRoll::new(DicePool::new(vec![Die(20)]), 3).describe(), "1d20 + 3");
    assert_eq!(DiceRoll::new(DicePool::new(vec![Die(6), Die(6)]), -1).describe(), "2d6 - 1");
    assert_eq!(DiceRoll::new(DicePool::new(vec![Die(8)]), 0).describe(), "1d8");
    assert_eq!(DiceRoll::new(DicePool::new(vec![Die(8)]), i32::MIN).describe(), "1d8 - 2147483648");
    let roll = DiceRoll::new(DicePool::new(vec![Die(6), Die(6)]), -12);
    assert_eq!(roll.roll_with(&vec![1, 2]).describe(), "-9");
    assert_eq!(Die(6).roll().describe().len(), 1);
}
