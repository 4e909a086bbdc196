use crawl::error::CrawlError;
use crawl::facts::Fact;
use crawl::interpreter::{Interpreter, StatementRecord, MAX_CALL_DEPTH};
use crawl::lang::Crawl;
use crawl::parser::{
    Antecedent, CrawlStr, MatchingRollArm, ModifiedRollSpecifier, ProcedureDeclaration, Statement,
};
use crawl::rolls::RollTarget;
use crawl::scanner::Token;
use crawl::tables::{Table, TableEntry};

fn spec(text: &str, modifier: i32) -> ModifiedRollSpecifier {
    ModifiedRollSpecifier { base_roll_specifier: Token::RollSpecifier(text.into()), modifier }
}

fn make_proc_body() -> Vec<Box<Statement>> {
    vec![
        Box::new(Statement::IfThen {
            antecedent: Antecedent::DiceRoll { target: Token::Num(1), roll_specifier: spec("1d1", 0) },
            consequent: Box::new(Statement::Reminder("you passed the check".into())),
        }),
        Box::new(Statement::Reminder("cool procedure".into())),
    ]
}

fn sample_table() -> Table {
    Table::from(vec![
        TableEntry { roll_target: RollTarget::NumRange(1, 6), value: "a quiet night".into() },
        TableEntry {
            roll_target: RollTarget::NumRange(7, 12),
            value: "total darkness and dread".into(),
        },
        TableEntry {
            roll_target: RollTarget::OverOrEqual(13),
            value: "fog seeps up through the dirt".into(),
        },
    ])
}

#[test]
fn interpret_reminder() {
    let ast = Statement::Reminder("players must eat rations daily".into());
    let value: Vec<StatementRecord> =
        Interpreter::new().interpret(vec![ast]).into_iter().map(|v| v.unwrap()).collect();
    assert_eq!(value, vec![StatementRecord::Reminder("players must eat rations daily".into())]);
}

#[test]
fn interpret_if_then_antecedent_true() {
    let ast = Statement::IfThen {
        antecedent: Antecedent::DiceRoll { target: Token::Num(1), roll_specifier: spec("1d1", 0) },
        consequent: Box::new(Statement::Reminder("you passed the check".into())),
    };
    let value: Vec<StatementRecord> =
        Interpreter::new().interpret(vec![ast]).into_iter().map(|v| v.unwrap()).collect();
    assert_eq!(
        value,
        vec![StatementRecord::IfThen {
            antecedent: true,
            consequent: Some(Box::new(StatementRecord::Reminder("you passed the check".into())))
        }]
    );
}

#[test]
fn interpret_if_then_antecedent_false() {
    let ast = Statement::IfThen {
        antecedent: Antecedent::DiceRoll { target: Token::Num(100), roll_specifier: spec("1d1", 0) },
        consequent: Box::new(Statement::Reminder("you passed the check".into())),
    };
    let value: Vec<StatementRecord> =
        Interpreter::new().interpret(vec![ast]).into_iter().map(|v| v.unwrap()).collect();
    assert_eq!(value, vec![StatementRecord::IfThen { antecedent: false, consequent: None }]);
}

#[test]
fn interpret_proc_def() {
    let ast = Statement::Procedure {
        declaration: ProcedureDeclaration("proc-name".into()),
        body: make_proc_body(),
    };
    let mut interp = Interpreter::new();
    let value: Vec<StatementRecord> =
        interp.interpret(vec![ast]).into_iter().map(|v| v.unwrap()).collect();
    assert_eq!(value, vec![StatementRecord::ProcedureDefinition("proc-name".into())]);
    assert!(interp.procedures.iter().any(|p| p.identifier == "proc-name"));
    let stored = interp.procedures.iter().find(|p| p.identifier == "proc-name").unwrap();
    assert_eq!(stored.body, make_proc_body().into_iter().map(|s| *s).collect::<Vec<Statement>>());
}

#[test]
fn interpret_proc_call() {
    let proc = Statement::Procedure {
        declaration: ProcedureDeclaration("proc-name".into()),
        body: make_proc_body(),
    };
    let call = Statement::ProcedureCall("proc-name".into());
    let values: Vec<StatementRecord> =
        Interpreter::new().interpret(vec![proc, call]).into_iter().map(|v| v.unwrap()).collect();
    assert_eq!(
        values,
        vec![
            StatementRecord::ProcedureDefinition("proc-name".into()),
            StatementRecord::ProcedureCall {
                identifier: "proc-name".into(),
                records: vec![
                    Box::new(StatementRecord::IfThen {
                        antecedent: true,
                        consequent: Some(Box::new(StatementRecord::Reminder(
                            "you passed the check".into()
                        ))),
                    }),
                    Box::new(StatementRecord::Reminder("cool procedure".into())),
                ],
            },
        ],
    )
}

#[test]
fn interpret_matching_roll() {
    let ast = Statement::MatchingRoll {
        roll_specifier: spec("1d1", 0),
        arms: vec![MatchingRollArm {
            target: Token::Num(1),
            consequent: Statement::Reminder("matched 1".into()),
        }],
    };
    let values: Vec<StatementRecord> =
        Interpreter::new().interpret(vec![ast]).into_iter().map(|v| v.unwrap()).collect();
    assert_eq!(
        values,
        vec![StatementRecord::MatchingRoll {
            matched_target: Some(Token::Num(1)),
            consequent: Some(Box::new(StatementRecord::Reminder("matched 1".into()))),
        }]
    )
}

#[test]
fn interpret_set_persistent_fact() {
    let ast = Statement::SetPersistentFact("weather is nice".into());
    let mut interp = Interpreter::new();
    let values: Vec<StatementRecord> =
        interp.interpret(vec![ast]).into_iter().map(|v| v.unwrap()).collect();
    assert_eq!(values, vec![StatementRecord::SetPersistentFact("weather is nice".into())]);
    assert!(interp
        .persistent_facts
        .check(&Fact::try_from(String::from("weather is nice")).unwrap()));
}

#[test]
fn interpret_load_table() {
    let ast = Statement::LoadTable("examples/table.csv".into());
    let mut interp = Interpreter::new();
    interp.provide_table("examples/table.csv".into(), sample_table());
    let values: Vec<StatementRecord> =
        interp.interpret(vec![ast]).into_iter().map(|v| v.unwrap()).collect();
    assert_eq!(values, vec![StatementRecord::LoadTable("examples/table.csv".into())]);
    assert!(interp.tables.iter().any(|t| t == "examples/table.csv"));
}

#[test]
fn interpret_table_roll() {
    let ast = vec![
        Statement::LoadTable("examples/table.csv".into()),
        Statement::TableRoll("examples/table.csv".into()),
    ];
    let mut interp = Interpreter::new();
    interp.provide_table("examples/table.csv".into(), sample_table());
    let _: Vec<StatementRecord> = interp.interpret(ast).into_iter().map(|v| v.unwrap()).collect();
}

#[test]
fn interpret_str_interpolation() {
    let ast = vec![Statement::SetFact(CrawlStr::InterpolatedStr {
        format_string: "number is {}".into(),
        expressions: vec![Statement::NontargetedRoll(spec("1d1", 0))],
    })];
    let mut interp = Interpreter::new();
    let values: Vec<StatementRecord> = interp.interpret(ast).into_iter().map(|v| v.unwrap()).collect();
    assert_eq!(values, vec![StatementRecord::SetFact("number is NontargetedRoll(1)".into())]);
}

#[test]
fn interpreter_reminder() {
    let ast = Statement::Reminder("players must eat rations daily".into());
    let value = Interpreter::new().evaluate_statement(&ast, MAX_CALL_DEPTH).unwrap();
    assert_eq!(value, StatementRecord::Reminder("players must eat rations daily".into()));
}

#[test]
fn procedure_call_leaves_local_facts_unchanged() {
    let define = Statement::Procedure {
        declaration: ProcedureDeclaration("p".into()),
        body: vec![Box::new(Statement::SetFact(CrawlStr::Str("x is y".into())))],
    };
    let call = Statement::ProcedureCall("p".into());
    let mut interp = Interpreter::new();
    let values = interp.interpret(vec![define, call]);
    assert!(values.iter().all(|v| v.is_ok()));
    assert!(!interp.local_facts.check(&Fact::try_from(String::from("x is y")).unwrap()));
}

#[test]
fn persistent_fact_set_in_procedure_is_kept() {
    let define = Statement::Procedure {
        declaration: ProcedureDeclaration("p".into()),
        body: vec![Box::new(Statement::SetPersistentFact("x is y".into()))],
    };
    let call = Statement::ProcedureCall("p".into());
    let mut interp = Interpreter::new();
    let _ = interp.interpret(vec![define, call]);
    assert!(interp.persistent_facts.check(&Fact::try_from(String::from("x is y")).unwrap()));
}

#[test]
fn matching_roll_runs_only_the_first_hit() {
    let ast = Statement::MatchingRoll {
        roll_specifier: spec("1d6", 0),
        arms: vec![
            MatchingRollArm {
                target: Token::Num(2),
                consequent: Statement::SetFact(CrawlStr::Str("hero is dead".into())),
            },
            MatchingRollArm {
                target: Token::NumRange(3, 40),
                consequent: Statement::SetFact(CrawlStr::Str("hero is alive".into())),
            },
        ],
    };
    let mut interp = Interpreter::with_draws(vec![2]);
    let values = interp.interpret(vec![ast]);
    assert_eq!(
        values[0].as_ref().unwrap(),
        &StatementRecord::MatchingRoll {
            matched_target: Some(Token::Num(2)),
            consequent: Some(Box::new(StatementRecord::SetFact("hero is dead".into()))),
        }
    );
    assert!(interp.local_facts.check(&Fact::try_from(String::from("hero is dead")).unwrap()));
    assert!(!interp.local_facts.check(&Fact::try_from(String::from("hero is alive")).unwrap()));
}

#[test]
fn matching_roll_with_no_hit() {
    let ast = Statement::MatchingRoll {
        roll_specifier: spec("1d6", 0),
        arms: vec![MatchingRollArm {
            target: Token::Num(6),
            consequent: Statement::Reminder("six".into()),
        }],
    };
    let mut interp = Interpreter::with_draws(vec![3]);
    let values = interp.interpret(vec![ast]);
    assert_eq!(
        values[0].as_ref().unwrap(),
        &StatementRecord::MatchingRoll { matched_target: None, consequent: None }
    );
}

#[test]
fn scripted_draws_fix_the_total() {
    let ast = Statement::NontargetedRoll(spec("2d6", 3));
    let mut interp = Interpreter::with_draws(vec![4, 5]);
    let values = interp.interpret(vec![ast]);
    assert_eq!(values[0].as_ref().unwrap(), &StatementRecord::NontargetedRoll(12));
}

#[test]
fn unknown_procedure_is_an_interpreter_error() {
    let mut interp = Interpreter::new();
    let values = interp.interpret(vec![
        Statement::ProcedureCall("nowhere".into()),
        Statement::Reminder("still runs".into()),
    ]);
    assert!(matches!(values[0], Err(CrawlError::InterpreterError { .. })));
    assert_eq!(values[1].as_ref().unwrap(), &StatementRecord::Reminder("still runs".into()));
}

#[test]
fn malformed_fact_is_an_interpreter_error() {
    let mut interp = Interpreter::new();
    let values = interp.interpret(vec![Statement::SetPersistentFact("weather".into())]);
    assert!(matches!(values[0], Err(CrawlError::InterpreterError { .. })));
}

#[test]
fn unknown_table_is_an_interpreter_error() {
    let mut interp = Interpreter::new();
    let values = interp.interpret(vec![
        Statement::LoadTable("missing".into()),
        Statement::TableRoll("missing".into()),
    ]);
    assert!(matches!(values[0], Err(CrawlError::InterpreterError { .. })));
    assert!(matches!(values[1], Err(CrawlError::InterpreterError { .. })));
}

#[test]
fn invalid_roll_target_is_an_interpreter_error() {
    let ast = Statement::IfThen {
        antecedent: Antecedent::DiceRoll { target: Token::End, roll_specifier: spec("1d1", 0) },
        consequent: Box::new(Statement::Reminder("never".into())),
    };
    let values = Interpreter::new().interpret(vec![ast]);
    assert!(matches!(values[0], Err(CrawlError::InterpreterError { .. })));
}

#[test]
fn bad_roll_specifier_is_a_parser_error() {
    let values = Interpreter::new().interpret(vec![Statement::NontargetedRoll(spec("2d0", 0))]);
    assert!(matches!(values[0], Err(CrawlError::ParserError { .. })));
}

#[test]
fn recursive_procedure_hits_the_depth_limit() {
    let define = Statement::Procedure {
        declaration: ProcedureDeclaration("again".into()),
        body: vec![Box::new(Statement::ProcedureCall("again".into()))],
    };
    let mut interp = Interpreter::new();
    let values = interp.interpret(vec![define, Statement::ProcedureCall("again".into())]);
    assert!(matches!(values[1], Err(CrawlError::InterpreterError { .. })));
}

#[test]
fn fact_check_sees_local_facts() {
    let mut interp = Interpreter::new();
    let values = interp.interpret(vec![
        Statement::SetFact(CrawlStr::Str("door is open".into())),
        Statement::IfThen {
            antecedent: Antecedent::CheckFact("door is open".into()),
            consequent: Box::new(Statement::ClearFact("door is open".into())),
        },
        Statement::IfThen {
            antecedent: Antecedent::CheckFact("door is open".into()),
            consequent: Box::new(Statement::Reminder("never".into())),
        },
    ]);
    assert_eq!(
        values[1].as_ref().unwrap(),
        &StatementRecord::IfThen {
            antecedent: true,
            consequent: Some(Box::new(StatementRecord::ClearFact("door is open".into()))),
        }
    );
    assert_eq!(
        values[2].as_ref().unwrap(),
        &StatementRecord::IfThen { antecedent: false, consequent: None }
    );
}

#[test]
fn table_roll_interpolation_and_scripted_face() {
    let mut interp = Interpreter::with_draws(vec![9]);
    interp.provide_table("weather".into(), sample_table());
    let values = interp.interpret(vec![
        Statement::LoadTable("weather".into()),
        Statement::SetFact(CrawlStr::InterpolatedStr {
            format_string: "sky is {}".into(),
            expressions: vec![Statement::TableRoll("weather".into())],
        }),
    ]);
    assert_eq!(
        values[1].as_ref().unwrap(),
        &StatementRecord::SetFact("sky is TableRoll(\"total darkness and dread\")".into())
    );
}

#[test]
fn pipeline_parses_source() {
    let crawl = Crawl::new();
    let statements = crawl.parse_source("reminder \"eat\"\nset-fact \"door is open\"\n").unwrap();
    assert_eq!(
        statements,
        vec![
            Statement::Reminder("eat".into()),
            Statement::SetFact(CrawlStr::Str("door is open".into())),
        ]
    );
    assert!(matches!(crawl.parse_source("= 5\n"), Err(CrawlError::ScannerError { .. })));
    assert!(matches!(crawl.parse_source("end\n"), Err(CrawlError::ParserError { .. })));
}

#[test]
fn table_paths_lists_loads_in_procedures_too() {
    let statements = vec![
        Statement::LoadTable("first".into()),
        Statement::Reminder("nothing to load".into()),
        Statement::Procedure {
            declaration: ProcedureDeclaration("p".into()),
            body: vec![Box::new(Statement::LoadTable("second".into()))],
        },
    ];
    assert_eq!(crawl::interpreter::table_paths(&statements), vec!["first".to_string(), "second".to_string()]);
}
