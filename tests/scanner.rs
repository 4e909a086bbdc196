use crawl::error::CrawlError;
use crawl::scanner::{Scanner, Token};

fn scan_ok(source: &str) -> Vec<Token> {
    let mut scanner = Scanner::new(source.chars().collect());
    scanner.tokens().into_iter().map(|t| t.unwrap()).collect()
}

#[test]
fn scan_if_then() {
    let toks = scan_ok("if \"Hi\" => 5");
    assert_eq!(
        toks,
        vec![Token::If, Token::Str("Hi".into()), Token::Arrow, Token::Num(5), Token::Eof]
    );
}

#[test]
fn scan_proc_decl() {
    let toks = scan_ok("procedure proc");
    assert_eq!(toks, vec![Token::Procedure, Token::Identifier("proc".into()), Token::Eof]);
}

#[test]
fn scan_proc_call() {
    let toks = scan_ok("proc");
    assert_eq!(toks, vec![Token::Identifier("proc".into()), Token::Eof]);
}

#[test]
fn scan_roll_range() {
    let toks = scan_ok("roll 2-10");
    assert_eq!(toks, vec![Token::Roll, Token::NumRange(2, 10), Token::Eof]);
}

#[test]
fn scan_expr() {
    let toks = scan_ok("roll 1-3 on 1d6 + 1 => set-fact \"party is lost\"");
    assert_eq!(
        toks,
        vec![
            Token::Roll,
            Token::NumRange(1, 3),
            Token::On,
            Token::RollSpecifier("1d6".into()),
            Token::Plus,
            Token::Num(1),
            Token::Arrow,
            Token::SetFact,
            Token::Str("party is lost".into()),
            Token::Eof,
        ]
    );
}

#[test]
fn scan_roll() {
    let toks = scan_ok("roll 99 on 3d100");
    assert_eq!(
        toks,
        vec![
            Token::Roll,
            Token::Num(99),
            Token::On,
            Token::RollSpecifier("3d100".into()),
            Token::Eof,
        ]
    );
}

#[test]
fn scan_concat() {
    let toks = scan_ok("set-fact \"weather is \" + roll on table \"weather\"");
    assert_eq!(
        toks,
        vec![
            Token::SetFact,
            Token::Str("weather is ".into()),
            Token::Plus,
            Token::Roll,
            Token::On,
            Token::Table,
            Token::Str("weather".into()),
            Token::Eof,
        ]
    );
}

#[test]
fn scan_matching_roll() {
    let toks = scan_ok(
        "roll 2d6
            \t2-4 => set-fact \"encounter is hostile\"
            \t5-8 => set-fact \"encounter is neutral\"
            end",
    );
    assert_eq!(
        toks,
        vec![
            Token::Roll,
            Token::RollSpecifier("2d6".into()),
            Token::Newline,
            Token::Indent,
            Token::NumRange(2, 4),
            Token::Arrow,
            Token::SetFact,
            Token::Str("encounter is hostile".into()),
            Token::Newline,
            Token::Indent,
            Token::NumRange(5, 8),
            Token::Arrow,
            Token::SetFact,
            Token::Str("encounter is neutral".into()),
            Token::Newline,
            Token::End,
            Token::Eof,
        ]
    );
}

#[test]
fn scan_proc_def() {
    let toks = scan_ok("procedure proc\n\troll on table \"table\"\nend");
    assert_eq!(
        toks,
        vec![
            Token::Procedure,
            Token::Identifier("proc".into()),
            Token::Newline,
            Token::Indent,
            Token::Roll,
            Token::On,
            Token::Table,
            Token::Str("table".into()),
            Token::Newline,
            Token::End,
            Token::Eof
        ]
    );
}

#[test]
fn tokens_valid_once() {
    let mut scanner = Scanner::new("roll 2-10".chars().collect());
    let toks: Vec<Token> = scanner.tokens().into_iter().map(|t| t.unwrap()).collect();
    assert_eq!(toks, vec![Token::Roll, Token::NumRange(2, 10), Token::Eof]);
    assert!(scanner.tokens().is_empty());
    assert!(scanner.tokens().is_empty());
}

#[test]
#[should_panic(expected = "expected '>' after '='")]
fn incomplete_arrow() {
    let mut scanner = Scanner::new("= 5".chars().collect());
    let _ = scanner.tokens().into_iter().map(|t| t.unwrap()).collect::<Vec<Token>>();
}

#[test]
#[should_panic(expected = "unterminated string")]
fn unterminated_string() {
    let mut scanner = Scanner::new("\"Unterminated string".chars().collect());
    let _ = scanner.tokens().into_iter().map(|t| t.unwrap()).collect::<Vec<Token>>();
}

#[test]
fn scan_empty_source_gives_nothing() {
    let mut scanner = Scanner::new(Vec::new());
    assert!(scanner.tokens().is_empty());
}

#[test]
fn scan_only_spaces_gives_eof() {
    assert_eq!(scan_ok("   "), vec![Token::Eof]);
}

#[test]
fn scan_fact_tests_and_load() {
    let toks = scan_ok("fact? persistent-fact? load % -");
    assert_eq!(
        toks,
        vec![
            Token::FactTest,
            Token::PersistentFactTest,
            Token::Load,
            Token::Percent,
            Token::Minus,
            Token::Eof
        ]
    );
}

#[test]
fn scan_non_ascii_letters_make_an_identifier() {
    assert_eq!(scan_ok("élan"), vec![Token::Identifier("élan".into()), Token::Eof]);
}

#[test]
fn scan_string_counts_lines() {
    let mut scanner = Scanner::new("\"a\nb\"\n=".chars().collect());
    let toks = scanner.tokens();
    assert_eq!(toks[0].as_ref().unwrap(), &Token::Str("a\nb".into()));
    assert_eq!(toks[1].as_ref().unwrap(), &Token::Newline);
    match &toks[2] {
        Err(CrawlError::ScannerError { position, line, lexeme, .. }) => {
            assert_eq!(*position, 7);
            assert_eq!(*line, 2);
            assert_eq!(lexeme, "=");
        }
        other => panic!("unexpected {:?}", other),
    }
}

#[test]
fn scan_dice_and_range_together_is_an_error() {
    let mut scanner = Scanner::new("1d6-2".chars().collect());
    let toks = scanner.tokens();
    match &toks[0] {
        Err(CrawlError::ScannerError { lexeme, reason, .. }) => {
            assert_eq!(lexeme, "1d6-2");
            assert!(reason.contains("dice roll and dice range"));
        }
        other => panic!("unexpected {:?}", other),
    }
}

#[test]
fn scan_d_without_digit_is_an_error() {
    let mut scanner = Scanner::new("3dx".chars().collect());
    let toks = scanner.tokens();
    match &toks[0] {
        Err(CrawlError::ScannerError { position, lexeme, reason, .. }) => {
            assert_eq!(*position, 1);
            assert_eq!(lexeme, "3");
            assert!(reason.contains("NUMBER 'd' NUMBER"));
        }
        other => panic!("unexpected {:?}", other),
    }
    assert_eq!(toks[1].as_ref().unwrap(), &Token::Identifier("dx".into()));
}

#[test]
fn scan_number_too_large_is_an_error() {
    let mut scanner = Scanner::new("99999999999".chars().collect());
    let toks = scanner.tokens();
    assert!(matches!(toks[0], Err(CrawlError::ScannerError { .. })));
    assert_eq!(toks[1].as_ref().unwrap(), &Token::Eof);
}

#[test]
fn scan_unexpected_character_goes_on() {
    let mut scanner = Scanner::new("@ end".chars().collect());
    let toks = scanner.tokens();
    match &toks[0] {
        Err(CrawlError::ScannerError { position, lexeme, .. }) => {
            assert_eq!(*position, 1);
            assert_eq!(lexeme, "@");
        }
        other => panic!("unexpected {:?}", other),
    }
    assert_eq!(toks[1].as_ref().unwrap(), &Token::End);
    assert_eq!(toks[2].as_ref().unwrap(), &Token::Eof);
}
