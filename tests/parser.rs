use crawl::parser::{
    Antecedent, CrawlStr, MatchingRollArm, ModifiedRollSpecifier, Parser, ProcedureDeclaration,
    Statement,
};
use crawl::scanner::{Scanner, Token};

#[test]
fn parse_procedure_call() {
    let toks = vec![Token::Identifier("proc-name".into()), Token::Newline, Token::Eof];
    let parsed: Vec<Statement> = Parser::new(toks).parse().into_iter().map(|t| t.unwrap()).collect();
    assert_eq!(parsed, vec![Statement::ProcedureCall("proc-name".into())]);
}

#[test]
fn parse_procedure_def() {
    let toks = vec![
        Token::Procedure,
        Token::Identifier("proc".into()),
        Token::Newline,
        Token::Indent,
        Token::Identifier("other-proc".into()),
        Token::Newline,
        Token::End,
        Token::Newline,
        Token::Eof,
    ];
    let parsed: Vec<Statement> = Parser::new(toks).parse().into_iter().map(|t| t.unwrap()).collect();
    assert_eq!(
        parsed,
        vec![Statement::Procedure {
            declaration: ProcedureDeclaration("proc".into()),
            body: vec![Box::new(Statement::ProcedureCall("other-proc".into()))]
        }]
    );
}

#[test]
fn parse_reminder() {
    let toks = vec![
        Token::Reminder,
        Token::Str("don't forget to eat".into()),
        Token::Newline,
        Token::Eof,
    ];
    let parsed = Parser::new(toks).parse();
    assert_eq!(
        parsed.into_iter().map(|a| a.unwrap()).collect::<Vec<Statement>>(),
        vec![Statement::Reminder("don't forget to eat".into())],
    )
}

#[test]
#[should_panic]
fn parse_statement_no_nl() {
    let toks = vec![
        Token::Reminder,
        Token::Str("statements end with a newline".into()),
        Token::Eof,
    ];
    let _: Vec<Statement> = Parser::new(toks).parse().into_iter().map(|a| a.unwrap()).collect();
}

#[test]
fn if_then() {
    let toks = vec![
        Token::If,
        Token::Roll,
        Token::Num(6),
        Token::On,
        Token::RollSpecifier("1d6".into()),
        Token::Plus,
        Token::Num(1),
        Token::Arrow,
        Token::SetFact,
        Token::Str("cool!".into()),
    ];
    let parsed = Parser::new(toks).if_then();
    assert_eq!(
        parsed.unwrap(),
        Statement::IfThen {
            antecedent: Antecedent::DiceRoll {
                target: Token::Num(6),
                roll_specifier: ModifiedRollSpecifier {
                    base_roll_specifier: Token::RollSpecifier("1d6".into()),
                    modifier: 1,
                },
            },
            consequent: Box::new(Statement::SetFact(CrawlStr::Str("cool!".into()))),
        }
    )
}

#[test]
fn matching_roll() {
    let toks = vec![
        Token::Roll,
        Token::RollSpecifier("2d20".into()),
        Token::Minus,
        Token::Num(2),
        Token::Newline,
        Token::Indent,
        Token::Num(2),
        Token::Arrow,
        Token::SetFact,
        Token::Str("you died".into()),
        Token::Newline,
        Token::Indent,
        Token::NumRange(3, 40),
        Token::Arrow,
        Token::SetFact,
        Token::Str("you're alright".into()),
        Token::Newline,
        Token::End,
    ];
    let parsed = Parser::new(toks).matching_roll();
    assert_eq!(
        parsed.unwrap(),
        Statement::MatchingRoll {
            roll_specifier: ModifiedRollSpecifier {
                base_roll_specifier: Token::RollSpecifier("2d20".into()),
                modifier: -2,
            },
            arms: vec![
                MatchingRollArm {
                    target: Token::Num(2),
                    consequent: Statement::SetFact(CrawlStr::Str("you died".into()))
                },
                MatchingRollArm {
                    target: Token::NumRange(3, 40),
                    consequent: Statement::SetFact(CrawlStr::Str("you're alright".into()))
                },
            ]
        }
    )
}

#[test]
fn set_fact() {
    let toks = vec![Token::SetFact, Token::Str("weather is nice".into())];
    let parsed = Parser::new(toks).set_fact();
    assert_eq!(parsed.unwrap(), Statement::SetFact(CrawlStr::Str("weather is nice".into())))
}

#[test]
fn set_pfact() {
    let toks = vec![Token::SetPersistentFact, Token::Str("weather is nice".into())];
    let parsed = Parser::new(toks).set_persistent_fact();
    assert_eq!(parsed.unwrap(), Statement::SetPersistentFact("weather is nice".into()))
}

#[test]
fn clear_fact() {
    let toks = vec![Token::ClearFact, Token::Str("weather is nice".into())];
    let parsed = Parser::new(toks).clear_fact();
    assert_eq!(parsed.unwrap(), Statement::ClearFact("weather is nice".into()))
}

#[test]
fn clear_pfact() {
    let toks = vec![Token::ClearPersistentFact, Token::Str("weather is nice".into())];
    let parsed = Parser::new(toks).clear_persistent_fact();
    assert_eq!(parsed.unwrap(), Statement::ClearPersistentFact("weather is nice".into()))
}

#[test]
fn parser_reminder() {
    let toks = vec![Token::Reminder, Token::Str("don't forget to eat".into())];
    let parsed = Parser::new(toks).reminder();
    assert_eq!(parsed.unwrap(), Statement::Reminder("don't forget to eat".into()))
}

#[test]
fn dice_roll() {
    let toks = vec![
        Token::Roll,
        Token::NumRange(1, 5),
        Token::On,
        Token::RollSpecifier("1d12".into()),
        Token::Plus,
        Token::Num(5),
    ];
    let parsed = Parser::new(toks).dice_roll();
    assert_eq!(
        parsed.unwrap(),
        Antecedent::DiceRoll {
            target: Token::NumRange(1, 5),
            roll_specifier: ModifiedRollSpecifier {
                base_roll_specifier: Token::RollSpecifier("1d12".into()),
                modifier: 5,
            }
        }
    )
}

#[test]
fn table_roll() {
    let toks = vec![Token::Roll, Token::On, Token::Table, Token::Str("table-t1".into())];
    let parsed = Parser::new(toks).table_roll();
    assert_eq!(parsed.unwrap(), Statement::TableRoll("table-t1".into()))
}

#[test]
fn scan_then_parse_if_roll_reminder() {
    let mut scanner = Scanner::new("if roll 1-3 on 1d6 => reminder \"hi\"\n".chars().collect());
    let toks: Vec<Token> = scanner.tokens().into_iter().map(|t| t.unwrap()).collect();
    let parsed = Parser::new(toks).parse();
    assert_eq!(parsed.len(), 1);
    assert_eq!(
        parsed.into_iter().next().unwrap().unwrap(),
        Statement::IfThen {
            antecedent: Antecedent::DiceRoll {
                target: Token::NumRange(1, 3),
                roll_specifier: ModifiedRollSpecifier {
                    base_roll_specifier: Token::RollSpecifier("1d6".into()),
                    modifier: 0,
                },
            },
            consequent: Box::new(Statement::Reminder("hi".into())),
        }
    );
}

#[test]
fn parse_error_resynchronises_at_next_line() {
    let toks = vec![
        Token::Arrow,
        Token::Reminder,
        Token::Newline,
        Token::Reminder,
        Token::Str("ok".into()),
        Token::Newline,
        Token::Eof,
    ];
    let parsed = Parser::new(toks).parse();
    assert_eq!(parsed.len(), 2);
    assert!(parsed[0].is_err());
    assert_eq!(parsed[1].as_ref().unwrap(), &Statement::Reminder("ok".into()));
}

#[test]
fn parse_statement_without_newline_is_an_error() {
    let toks = vec![Token::Reminder, Token::Str("no newline".into()), Token::Eof];
    let parsed = Parser::new(toks).parse();
    assert_eq!(parsed.len(), 1);
    assert!(matches!(parsed[0], Err(crawl::error::CrawlError::ParserError { .. })));
}

#[test]
fn parse_interpolated_string() {
    let toks = vec![
        Token::SetFact,
        Token::Str("number is {}".into()),
        Token::Percent,
        Token::Roll,
        Token::RollSpecifier("1d4".into()),
        Token::Newline,
        Token::Eof,
    ];
    let parsed = Parser::new(toks).parse();
    assert_eq!(
        parsed[0].as_ref().unwrap(),
        &Statement::SetFact(CrawlStr::InterpolatedStr {
            format_string: "number is {}".into(),
            expressions: vec![Statement::NontargetedRoll(ModifiedRollSpecifier {
                base_roll_specifier: Token::RollSpecifier("1d4".into()),
                modifier: 0,
            })],
        })
    );
}

#[test]
fn parse_fact_check_and_load_table() {
    let toks = vec![
        Token::Load,
        Token::Table,
        Token::Str("weather".into()),
        Token::Newline,
        Token::If,
        Token::FactTest,
        Token::Str("party is lost".into()),
        Token::Arrow,
        Token::Roll,
        Token::On,
        Token::Table,
        Token::Str("weather".into()),
        Token::Newline,
        Token::Eof,
    ];
    let parsed: Vec<Statement> = Parser::new(toks).parse().into_iter().map(|t| t.unwrap()).collect();
    assert_eq!(
        parsed,
        vec![
            Statement::LoadTable("weather".into()),
            Statement::IfThen {
                antecedent: Antecedent::CheckFact("party is lost".into()),
                consequent: Box::new(Statement::TableRoll("weather".into())),
            }
        ]
    );
}
