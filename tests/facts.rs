use crawl::error::CrawlError;
use crawl::facts::{Fact, FactDatabase};

#[test]
fn from_string() {
    assert_eq!(
        Fact::try_from(String::from("weather is partially cloudy")).unwrap(),
        Fact {
            entity: "weather".into(),
            attribute: "is".into(),
            value: "partially cloudy".into(),
        },
    )
}

#[test]
fn fact_needs_two_spaces() {
    assert!(matches!(Fact::parse("weather"), Err(CrawlError::InterpreterError { .. })));
    assert!(matches!(Fact::parse("weather is"), Err(CrawlError::InterpreterError { .. })));
    let f = Fact::parse("weather is ").unwrap();
    assert_eq!(f.value, "");
}

#[test]
fn set_check_clear() {
    let mut db = FactDatabase::default();
    let f = Fact::parse("door is open").unwrap();
    assert!(!db.check(&f));
    db.set(f.clone());
    assert!(db.check(&f));
    db.set(f.clone());
    assert_eq!(db.facts.len(), 1);
    db.clear(&f);
    assert!(!db.check(&f));
    db.clear(&f);
    assert!(!db.check(&f));
}

#[test]
fn database_from_facts() {
    let f = Fact::parse("door is open").unwrap();
    let g = Fact::parse("door is shut").unwrap();
    let mut db = FactDatabase::new(vec![f.clone(), f.clone()]);
    assert!(db.check(&f));
    assert!(!db.check(&g));
    db.clear(&f);
    assert!(!db.check(&f));
}
