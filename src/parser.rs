//! The parser: tokens to statements, by recursive descent.
use crate::error::CrawlError;
use crate::scanner::{Token, TokenView};
use vstd::prelude::*;

verus! {

broadcast use vstd::std_specs::vec::group_vec_axioms;

/// A statement of the language.
#[derive(Debug, PartialEq)]
pub enum Statement {
    ClearFact(String),
    ClearPersistentFact(String),
    /// A roll whose total is the statement's value; it stands only inside an
    /// interpolated string.
    NontargetedRoll(ModifiedRollSpecifier),
    IfThen { antecedent: Antecedent, consequent: Box<Statement> },
    LoadTable(String),
    MatchingRoll { roll_specifier: ModifiedRollSpecifier, arms: Vec<MatchingRollArm> },
    Procedure { declaration: ProcedureDeclaration, body: Vec<Box<Statement>> },
    ProcedureCall(String),
    Reminder(String),
    SetFact(CrawlStr),
    SetPersistentFact(String),
    TableRoll(String),
}

/// The name of a procedure being defined.
#[derive(Clone, Debug, PartialEq)]
pub struct ProcedureDeclaration(pub String);

/// A string, literal or with an embedded expression whose value fills its
/// placeholder.
#[derive(Debug, PartialEq)]
pub enum CrawlStr {
    Str(String),
    InterpolatedStr { format_string: String, expressions: Vec<Statement> },
}

/// A roll specifier token (`NdM`) and a modifier added to the roll.
#[derive(Clone, Debug, PartialEq)]
pub struct ModifiedRollSpecifier {
    pub base_roll_specifier: Token,
    pub modifier: i32,
}

/// One arm of a matching roll: a target and what runs when the roll hits it.
#[derive(Debug, PartialEq)]
pub struct MatchingRollArm {
    pub target: Token,
    pub consequent: Statement,
}

/// The condition of an `if`.
#[derive(Clone, Debug, PartialEq)]
pub enum Antecedent {
    CheckFact(String),
    CheckPersistentFact(String),
    DiceRoll { target: Token, roll_specifier: ModifiedRollSpecifier },
}

/// A roll specifier as a token view and its modifier.
pub type SpecifierView = (TokenView, i32);

pub enum AntecedentView {
    CheckFact(Seq<char>),
    CheckPersistentFact(Seq<char>),
    DiceRoll(TokenView, SpecifierView),
}

pub enum CrawlStrView {
    Str(Seq<char>),
    Interpolated(Seq<char>, Seq<StatementView>),
}

/// A statement with its text as sequences of characters and its lists as
/// sequences.
pub enum StatementView {
    ClearFact(Seq<char>),
    ClearPersistentFact(Seq<char>),
    NontargetedRoll(SpecifierView),
    IfThen(AntecedentView, Box<StatementView>),
    LoadTable(Seq<char>),
    MatchingRoll(SpecifierView, Seq<(TokenView, StatementView)>),
    Procedure(Seq<char>, Seq<StatementView>),
    ProcedureCall(Seq<char>),
    Reminder(Seq<char>),
    SetFact(CrawlStrView),
    SetPersistentFact(Seq<char>),
    TableRoll(Seq<char>),
}

pub open spec fn specifier_view(s: ModifiedRollSpecifier) -> SpecifierView {
    (s.base_roll_specifier@, s.modifier)
}

pub open spec fn antecedent_view(a: Antecedent) -> AntecedentView {
    match a {
        Antecedent::CheckFact(s) => AntecedentView::CheckFact(s@),
        Antecedent::CheckPersistentFact(s) => AntecedentView::CheckPersistentFact(s@),
        Antecedent::DiceRoll { target, roll_specifier } => AntecedentView::DiceRoll(
            target@,
            specifier_view(roll_specifier),
        ),
    }
}

pub open spec fn crawl_str_view(c: CrawlStr) -> CrawlStrView
    decreases c,
{
    match c {
        CrawlStr::Str(s) => CrawlStrView::Str(s@),
        CrawlStr::InterpolatedStr { format_string, expressions } => CrawlStrView::Interpolated(
            format_string@,
            Seq::new(
                expressions@.len(),
                |i: int|
                    if 0 <= i < expressions@.len() {
                        statement_view(expressions@[i])
                    } else {
                        StatementView::Reminder(Seq::empty())
                    },
            ),
        ),
    }
}

pub open spec fn statement_view(s: Statement) -> StatementView
    decreases s,
{
    match s {
        Statement::ClearFact(f) => StatementView::ClearFact(f@),
        Statement::ClearPersistentFact(f) => StatementView::ClearPersistentFact(f@),
        Statement::NontargetedRoll(spec) => StatementView::NontargetedRoll(specifier_view(spec)),
        Statement::IfThen { antecedent, consequent } => StatementView::IfThen(
            antecedent_view(antecedent),
            Box::new(statement_view(*consequent)),
        ),
        Statement::LoadTable(p) => StatementView::LoadTable(p@),
        Statement::MatchingRoll { roll_specifier, arms } => StatementView::MatchingRoll(
            specifier_view(roll_specifier),
            Seq::new(
                arms@.len(),
                |i: int|
                    if 0 <= i < arms@.len() {
                        (arms@[i].target@, statement_view(arms@[i].consequent))
                    } else {
                        (TokenView::Eof, StatementView::Reminder(Seq::empty()))
                    },
            ),
        ),
        Statement::Procedure { declaration, body } => StatementView::Procedure(
            declaration.0@,
            Seq::new(
                body@.len(),
                |i: int|
                    if 0 <= i < body@.len() {
                        statement_view(*body@[i])
                    } else {
                        StatementView::Reminder(Seq::empty())
                    },
            ),
        ),
        Statement::ProcedureCall(n) => StatementView::ProcedureCall(n@),
        Statement::Reminder(r) => StatementView::Reminder(r@),
        Statement::SetFact(c) => StatementView::SetFact(crawl_str_view(c)),
        Statement::SetPersistentFact(f) => StatementView::SetPersistentFact(f@),
        Statement::TableRoll(t) => StatementView::TableRoll(t@),
    }
}

impl View for Statement {
    type V = StatementView;

    open spec fn view(&self) -> StatementView {
        statement_view(*self)
    }
}

/// The token at `p`, or `Eof` past the end.
pub open spec fn peek(t: Seq<TokenView>, p: int) -> TokenView {
    if 0 <= p < t.len() {
        t[p]
    } else {
        TokenView::Eof
    }
}

/// The position after `p`, which stays at the end once there.
pub open spec fn step(t: Seq<TokenView>, p: int) -> int {
    if 0 <= p < t.len() {
        p + 1
    } else {
        p
    }
}

/// What a parsing function yields from position `p`: a value or a failure,
/// and the position where it stopped.
pub type Parsed<T> = (Result<T, ()>, int);

/// The keyword `kw` and then a string.
pub open spec fn keyword_str(t: Seq<TokenView>, p: int, kw: TokenView) -> Parsed<Seq<char>> {
    if peek(t, p) != kw {
        (Err(()), p)
    } else {
        match peek(t, p + 1) {
            TokenView::Str(s) => (Ok(s), p + 2),
            _ => (Err(()), p + 1),
        }
    }
}

pub open spec fn clear_fact_spec(t: Seq<TokenView>, p: int) -> Parsed<StatementView> {
    let (r, q) = keyword_str(t, p, TokenView::ClearFact);
    (
        match r {
            Ok(s) => Ok(StatementView::ClearFact(s)),
            Err(_) => Err(()),
        },
        q,
    )
}

pub open spec fn clear_persistent_fact_spec(t: Seq<TokenView>, p: int) -> Parsed<StatementView> {
    let (r, q) = keyword_str(t, p, TokenView::ClearPersistentFact);
    (
        match r {
            Ok(s) => Ok(StatementView::ClearPersistentFact(s)),
            Err(_) => Err(()),
        },
        q,
    )
}

pub open spec fn set_persistent_fact_spec(t: Seq<TokenView>, p: int) -> Parsed<StatementView> {
    let (r, q) = keyword_str(t, p, TokenView::SetPersistentFact);
    (
        match r {
            Ok(s) => Ok(StatementView::SetPersistentFact(s)),
            Err(_) => Err(()),
        },
        q,
    )
}

pub open spec fn reminder_spec(t: Seq<TokenView>, p: int) -> Parsed<StatementView> {
    let (r, q) = keyword_str(t, p, TokenView::Reminder);
    (
        match r {
            Ok(s) => Ok(StatementView::Reminder(s)),
            Err(_) => Err(()),
        },
        q,
    )
}

/// `load table "name"`.
pub open spec fn load_table_spec(t: Seq<TokenView>, p: int) -> Parsed<StatementView> {
    if peek(t, p) != TokenView::Load {
        (Err(()), p)
    } else {
        let (r, q) = keyword_str(t, p + 1, TokenView::Table);
        (
            match r {
                Ok(s) => Ok(StatementView::LoadTable(s)),
                Err(_) => Err(()),
            },
            q,
        )
    }
}

pub open spec fn procedure_call_spec(t: Seq<TokenView>, p: int) -> Parsed<StatementView> {
    match peek(t, p) {
        TokenView::Identifier(n) => (Ok(StatementView::ProcedureCall(n)), p + 1),
        _ => (Err(()), p),
    }
}

/// `roll on table "name"`.
pub open spec fn table_roll_spec(t: Seq<TokenView>, p: int) -> Parsed<StatementView> {
    if peek(t, p) != TokenView::Roll {
        (Err(()), p)
    } else if peek(t, p + 1) != TokenView::On {
        (Err(()), p + 1)
    } else {
        let (r, q) = keyword_str(t, p + 2, TokenView::Table);
        (
            match r {
                Ok(s) => Ok(StatementView::TableRoll(s)),
                Err(_) => Err(()),
            },
            q,
        )
    }
}

/// A roll specifier, then optionally `+` or `-` and a number.
pub open spec fn modified_specifier_spec(t: Seq<TokenView>, p: int) -> Parsed<SpecifierView> {
    let base = peek(t, p);
    let q = p + 1;
    if !(base is RollSpecifier) {
        (Err(()), p)
    } else {
        match peek(t, q) {
            TokenView::Plus => match peek(t, q + 1) {
                TokenView::Num(n) => (Ok((base, n)), q + 2),
                _ => (Err(()), q + 1),
            },
            TokenView::Minus => match peek(t, q + 1) {
                TokenView::Num(n) => if n == i32::MIN {
                    (Err(()), q + 1)
                } else {
                    (Ok((base, (-n) as i32)), q + 2)
                },
                _ => (Err(()), q + 1),
            },
            _ => (Ok((base, 0i32)), q),
        }
    }
}

/// `roll` and a modified roll specifier.
pub open spec fn nontargeted_roll_spec(t: Seq<TokenView>, p: int) -> Parsed<StatementView> {
    if peek(t, p) != TokenView::Roll {
        (Err(()), p)
    } else {
        let (r, q) = modified_specifier_spec(t, p + 1);
        (
            match r {
                Ok(s) => Ok(StatementView::NontargetedRoll(s)),
                Err(_) => Err(()),
            },
            q,
        )
    }
}

/// A string; a `%` after it brings in a table roll or a dice roll whose value
/// fills the string's placeholder.
pub open spec fn str_spec(t: Seq<TokenView>, p: int) -> Parsed<CrawlStrView> {
    match peek(t, p) {
        TokenView::Str(s) => {
            let q = p + 1;
            if peek(t, q) is Percent {
                let r = q + 1;
                let (e, q2) = if peek(t, r + 1) is On {
                    table_roll_spec(t, r)
                } else if peek(t, r + 1) is RollSpecifier {
                    nontargeted_roll_spec(t, r)
                } else {
                    (Err(()), r)
                };
                match e {
                    Ok(x) => (Ok(CrawlStrView::Interpolated(s, seq![x])), q2),
                    Err(_) => (Err(()), q2),
                }
            } else {
                (Ok(CrawlStrView::Str(s)), q)
            }
        },
        _ => (Err(()), p),
    }
}

pub open spec fn set_fact_spec(t: Seq<TokenView>, p: int) -> Parsed<StatementView> {
    if peek(t, p) != TokenView::SetFact {
        (Err(()), p)
    } else {
        let (r, q) = str_spec(t, p + 1);
        (
            match r {
                Ok(c) => Ok(StatementView::SetFact(c)),
                Err(_) => Err(()),
            },
            q,
        )
    }
}

/// `roll TARGET on SPECIFIER`, the target a number or a range.
pub open spec fn dice_roll_spec(t: Seq<TokenView>, p: int) -> Parsed<AntecedentView> {
    let target = peek(t, p + 1);
    if peek(t, p) != TokenView::Roll {
        (Err(()), p)
    } else if !(target is Num || target is NumRange) {
        (Err(()), p + 1)
    } else if peek(t, p + 2) != TokenView::On {
        (Err(()), p + 2)
    } else {
        let (r, q) = modified_specifier_spec(t, p + 3);
        (
            match r {
                Ok(s) => Ok(AntecedentView::DiceRoll(target, s)),
                Err(_) => Err(()),
            },
            q,
        )
    }
}

pub open spec fn fact_check_spec(t: Seq<TokenView>, p: int) -> Parsed<AntecedentView> {
    let (r, q) = keyword_str(t, p, TokenView::FactTest);
    (
        match r {
            Ok(s) => Ok(AntecedentView::CheckFact(s)),
            Err(_) => Err(()),
        },
        q,
    )
}

pub open spec fn persistent_fact_check_spec(t: Seq<TokenView>, p: int) -> Parsed<AntecedentView> {
    let (r, q) = keyword_str(t, p, TokenView::PersistentFactTest);
    (
        match r {
            Ok(s) => Ok(AntecedentView::CheckPersistentFact(s)),
            Err(_) => Err(()),
        },
        q,
    )
}

pub open spec fn antecedent_spec(t: Seq<TokenView>, p: int) -> Parsed<AntecedentView> {
    match peek(t, p) {
        TokenView::Roll => dice_roll_spec(t, p),
        TokenView::FactTest => fact_check_spec(t, p),
        TokenView::PersistentFactTest => persistent_fact_check_spec(t, p),
        _ => (Err(()), p),
    }
}

/// What may follow `=>`.
pub open spec fn consequent_spec(t: Seq<TokenView>, p: int) -> Parsed<StatementView> {
    match peek(t, p) {
        TokenView::ClearFact => clear_fact_spec(t, p),
        TokenView::ClearPersistentFact => clear_persistent_fact_spec(t, p),
        TokenView::Identifier(_) => procedure_call_spec(t, p),
        TokenView::Reminder => reminder_spec(t, p),
        TokenView::Roll => table_roll_spec(t, p),
        TokenView::SetFact => set_fact_spec(t, p),
        TokenView::SetPersistentFact => set_persistent_fact_spec(t, p),
        _ => (Err(()), p),
    }
}

/// `if ANTECEDENT => CONSEQUENT`.
pub open spec fn if_then_spec(t: Seq<TokenView>, p: int) -> Parsed<StatementView> {
    if peek(t, p) != TokenView::If {
        (Err(()), p)
    } else {
        let (a, q) = antecedent_spec(t, p + 1);
        match a {
            Err(_) => (Err(()), q),
            Ok(av) => if peek(t, q) != TokenView::Arrow {
                (Err(()), q)
            } else {
                let (c, q2) = consequent_spec(t, q + 1);
                match c {
                    Ok(cv) => (Ok(StatementView::IfThen(av, Box::new(cv))), q2),
                    Err(_) => (Err(()), q2),
                }
            },
        }
    }
}

/// The position after a run of indents from `p`.
pub open spec fn skip_indents(t: Seq<TokenView>, p: int) -> int
    decreases t.len() - p,
{
    if 0 <= p < t.len() && t[p] is Indent {
        skip_indents(t, p + 1)
    } else {
        p
    }
}

/// The position after a run of line breaks from `p`.
pub open spec fn skip_newlines(t: Seq<TokenView>, p: int) -> int
    decreases t.len() - p,
{
    if 0 <= p < t.len() && t[p] is Newline {
        skip_newlines(t, p + 1)
    } else {
        p
    }
}

/// Where parsing takes up again after a failure at `p`: past the next line
/// break (and any that follow it), or at `Eof`.
pub open spec fn sync_from(t: Seq<TokenView>, p: int) -> int
    decreases t.len() - p,
{
    if 0 <= p < t.len() && !(t[p] is Newline) && !(t[p] is Eof) {
        sync_from(t, p + 1)
    } else {
        skip_newlines(t, p)
    }
}

/// One step through the arms of a matching roll.
pub enum ArmStep {
    /// `end` was reached.
    Done,
    /// One arm: its target and consequent.
    Arm(TokenView, StatementView),
    Fail,
}

/// The step through the arms that starts at `p`, and where it stopped. An
/// arm is indented, and ends with a line break.
pub open spec fn arm_spec(t: Seq<TokenView>, p: int) -> (ArmStep, int) {
    if p < 0 || p >= t.len() {
        (ArmStep::Fail, p)
    } else if t[p] is End {
        (ArmStep::Done, p + 1)
    } else if !(t[p] is Indent) {
        (ArmStep::Fail, p)
    } else {
        let p1 = skip_indents(t, p + 1);
        let target = peek(t, p1);
        if target is End {
            (ArmStep::Done, p1 + 1)
        } else if !(target is Num || target is NumRange) {
            (ArmStep::Fail, p1)
        } else if peek(t, p1 + 1) != TokenView::Arrow {
            (ArmStep::Fail, p1 + 1)
        } else {
            let (c, p2) = consequent_spec(t, p1 + 2);
            match c {
                Err(_) => (ArmStep::Fail, p2),
                Ok(cv) => if peek(t, p2) != TokenView::Newline {
                    (ArmStep::Fail, p2)
                } else {
                    (ArmStep::Arm(target, cv), p2 + 1)
                },
            }
        }
    }
}

/// The arms of a matching roll from `p` on, after the arms `acc`, up to and
/// including `end`.
pub open spec fn arms_spec(t: Seq<TokenView>, p: int, acc: Seq<(TokenView, StatementView)>) -> Parsed<
    Seq<(TokenView, StatementView)>,
>
    decreases t.len() - p,
{
    let (st, q) = arm_spec(t, p);
    match st {
        ArmStep::Done => (Ok(acc), q),
        ArmStep::Fail => (Err(()), q),
        ArmStep::Arm(target, cv) => if q <= p || q > t.len() {
            (Err(()), q)
        } else {
            arms_spec(t, q, acc.push((target, cv)))
        },
    }
}

/// `roll SPECIFIER`, a line break, the arms, and `end`.
pub open spec fn matching_roll_spec(t: Seq<TokenView>, p: int) -> Parsed<StatementView> {
    if peek(t, p) != TokenView::Roll {
        (Err(()), p)
    } else {
        let (s, q) = modified_specifier_spec(t, p + 1);
        match s {
            Err(_) => (Err(()), q),
            Ok(sv) => if peek(t, q) != TokenView::Newline {
                (Err(()), q)
            } else {
                let (a, q2) = arms_spec(t, q + 1, Seq::empty());
                match a {
                    Ok(av) => (Ok(StatementView::MatchingRoll(sv, av)), q2),
                    Err(_) => (Err(()), q2),
                }
            },
        }
    }
}

/// A statement, then its line break (and any that follow). On a failure,
/// parsing takes up again past the failing token and the next line break.
pub open spec fn statement_spec(t: Seq<TokenView>, p: int) -> Parsed<StatementView>
    decreases t.len() - p, 3int,
{
    let (r, q) = statement_body_spec(t, p);
    match r {
        Ok(s) => if peek(t, q) is Newline {
            (Ok(s), skip_newlines(t, q + 1))
        } else {
            (Err(()), sync_from(t, q))
        },
        Err(_) => (Err(()), sync_from(t, step(t, q))),
    }
}

/// A statement, chosen by its first token (and, after `roll`, the second).
pub open spec fn statement_body_spec(t: Seq<TokenView>, p: int) -> Parsed<StatementView>
    decreases t.len() - p, 2int,
{
    match peek(t, p) {
        TokenView::ClearFact => clear_fact_spec(t, p),
        TokenView::ClearPersistentFact => clear_persistent_fact_spec(t, p),
        TokenView::Identifier(_) => procedure_call_spec(t, p),
        TokenView::If => if_then_spec(t, p),
        TokenView::Load => load_table_spec(t, p),
        TokenView::Procedure => procedure_spec(t, p),
        TokenView::Reminder => reminder_spec(t, p),
        TokenView::Roll => match peek(t, p + 1) {
            TokenView::On => table_roll_spec(t, p),
            TokenView::RollSpecifier(_) => matching_roll_spec(t, p),
            _ => (Err(()), p),
        },
        TokenView::SetFact => set_fact_spec(t, p),
        TokenView::SetPersistentFact => set_persistent_fact_spec(t, p),
        _ => (Err(()), p),
    }
}

/// `procedure NAME`, a line break, indented statements, and `end`.
pub open spec fn procedure_spec(t: Seq<TokenView>, p: int) -> Parsed<StatementView>
    decreases t.len() - p, 1int,
{
    if peek(t, p) != TokenView::Procedure {
        (Err(()), p)
    } else {
        match peek(t, p + 1) {
            TokenView::Identifier(name) => if peek(t, p + 2) != TokenView::Newline {
                (Err(()), p + 2)
            } else {
                let (b, q) = body_spec(t, p + 3, Seq::empty());
                match b {
                    Ok(bv) => (Ok(StatementView::Procedure(name, bv)), q),
                    Err(_) => (Err(()), q),
                }
            },
            _ => (Err(()), p + 1),
        }
    }
}

/// The body of a procedure from `p` on, after the statements `acc`, up to
/// and including `end`.
pub open spec fn body_spec(t: Seq<TokenView>, p: int, acc: Seq<StatementView>) -> Parsed<
    Seq<StatementView>,
>
    decreases t.len() - p, 0int,
{
    if p < 0 || p >= t.len() {
        (Err(()), p)
    } else if t[p] is End {
        (Ok(acc), p + 1)
    } else if !(t[p] is Indent) {
        (Err(()), p)
    } else {
        let (r, q) = statement_spec(t, p + 1);
        match r {
            Err(_) => (Err(()), q),
            Ok(s) => if q <= p || q > t.len() {
                (Err(()), q)
            } else {
                body_spec(t, q, acc.push(s))
            },
        }
    }
}

/// The statements from `p` to `Eof`, one entry for each.
pub open spec fn parse_from(t: Seq<TokenView>, p: int) -> Seq<Result<StatementView, ()>>
    decreases t.len() - p,
{
    if 0 <= p < t.len() && !(t[p] is Eof) {
        let (r, q) = statement_spec(t, p);
        if q <= p || q > t.len() {
            seq![r]
        } else {
            seq![r] + parse_from(t, q)
        }
    } else {
        Seq::empty()
    }
}

/// What a parsing function returned, as a view, with where it stopped.
pub open spec fn outcome<T, V>(r: Result<T, CrawlError>, v: Option<V>, pos: usize) -> Parsed<V> {
    (
        match (r, v) {
            (Ok(_), Some(x)) => Ok(x),
            _ => Err(()),
        },
        pos as int,
    )
}

/// Every failure is a parser error.
pub open spec fn fails_as_parser<T>(r: Result<T, CrawlError>) -> bool {
    r matches Err(e) ==> e.is_parser_error()
}

pub open spec fn stmt_view_of(r: Result<Statement, CrawlError>) -> Option<StatementView> {
    match r {
        Ok(s) => Some(s@),
        Err(_) => None,
    }
}

pub open spec fn result_view(r: Result<Statement, CrawlError>) -> Result<StatementView, ()> {
    match r {
        Ok(s) => Ok(s@),
        Err(_) => Err(()),
    }
}

impl ModifiedRollSpecifier {
    /// A copy of this specifier.
    pub fn duplicate(&self) -> (r: Self)
        ensures
            r == *self,
    {
        ModifiedRollSpecifier { base_roll_specifier: self.base_roll_specifier.duplicate(), modifier: self.modifier }
    }
}

impl Antecedent {
    /// A copy of this antecedent.
    pub fn duplicate(&self) -> (r: Self)
        ensures
            r == *self,
    {
        match self {
            Antecedent::CheckFact(s) => Antecedent::CheckFact(s.clone()),
            Antecedent::CheckPersistentFact(s) => Antecedent::CheckPersistentFact(s.clone()),
            Antecedent::DiceRoll { target, roll_specifier } => Antecedent::DiceRoll {
                target: target.duplicate(),
                roll_specifier: roll_specifier.duplicate(),
            },
        }
    }
}

impl CrawlStr {
    /// A copy of this string, its expressions copied in depth.
    pub fn duplicate(&self) -> (r: Self)
        ensures
            crawl_str_view(r) == crawl_str_view(*self),
        decreases self,
    {
        match self {
            CrawlStr::Str(s) => CrawlStr::Str(s.clone()),
            CrawlStr::InterpolatedStr { format_string, expressions } => {
                let mut copies: Vec<Statement> = Vec::new();
                let mut i: usize = 0;
                proof {
                    assert forall|j: int| 0 <= j < expressions@.len() implies decreases_to!(*self => #[trigger] expressions@[j]) by {
                        assert(decreases_to!(*self => *expressions));
                        assert(decreases_to!(*expressions => expressions@));
                        assert(decreases_to!(expressions@ => expressions@[j]));
                    }
                }
                while i < expressions.len()
                    invariant
                        forall|j: int| 0 <= j < expressions@.len() ==> decreases_to!(*self => #[trigger] expressions@[j]),
                        i <= expressions@.len(),
                        copies@.len() == i,
                        forall|j: int| 0 <= j < i ==> (#[trigger] copies@[j])@ == expressions@[j]@,
                    decreases expressions@.len() - i,
                {
                    copies.push(expressions[i].duplicate());
                    i = i + 1;
                }
                let r = CrawlStr::InterpolatedStr { format_string: format_string.clone(), expressions: copies };
                proof {
                    assert(crawl_str_view(r)->Interpolated_1 =~= crawl_str_view(*self)->Interpolated_1);
                }
                r
            },
        }
    }
}

impl Statement {
    /// A copy of this statement, copied in depth.
    pub fn duplicate(&self) -> (r: Self)
        ensures
            r@ == self@,
        decreases self,
    {
        match self {
            Statement::ClearFact(s) => Statement::ClearFact(s.clone()),
            Statement::ClearPersistentFact(s) => Statement::ClearPersistentFact(s.clone()),
            Statement::NontargetedRoll(spec) => Statement::NontargetedRoll(spec.duplicate()),
            Statement::IfThen { antecedent, consequent } => Statement::IfThen {
                antecedent: antecedent.duplicate(),
                consequent: Box::new((**consequent).duplicate()),
            },
            Statement::LoadTable(s) => Statement::LoadTable(s.clone()),
            Statement::MatchingRoll { roll_specifier, arms } => {
                let mut copies: Vec<MatchingRollArm> = Vec::new();
                let mut i: usize = 0;
                proof {
                    assert forall|j: int| 0 <= j < arms@.len() implies decreases_to!(*self => (#[trigger] arms@[j]).consequent) by {
                        assert(decreases_to!(*self => *arms));
                        assert(decreases_to!(*arms => arms@));
                        assert(decreases_to!(arms@ => arms@[j]));
                    }
                }
                while i < arms.len()
                    invariant
                        forall|j: int| 0 <= j < arms@.len() ==> decreases_to!(*self => (#[trigger] arms@[j]).consequent),
                        i <= arms@.len(),
                        copies@.len() == i,
                        forall|j: int|
                            0 <= j < i ==> (#[trigger] copies@[j]).target == arms@[j].target
                                && copies@[j].consequent@ == arms@[j].consequent@,
                    decreases arms@.len() - i,
                {
                    let c = arms[i].consequent.duplicate();
                    copies.push(MatchingRollArm { target: arms[i].target.duplicate(), consequent: c });
                    i = i + 1;
                }
                let r = Statement::MatchingRoll { roll_specifier: roll_specifier.duplicate(), arms: copies };
                proof {
                    assert(r@->MatchingRoll_1 =~= self@->MatchingRoll_1);
                }
                r
            },
            Statement::Procedure { declaration, body } => {
                let mut copies: Vec<Box<Statement>> = Vec::new();
                let mut i: usize = 0;
                proof {
                    assert forall|j: int| 0 <= j < body@.len() implies decreases_to!(*self => *#[trigger] body@[j]) by {
                        assert(decreases_to!(*self => *body));
                        assert(decreases_to!(*body => body@));
                        assert(decreases_to!(body@ => body@[j]));
                    }
                }
                while i < body.len()
                    invariant
                        forall|j: int| 0 <= j < body@.len() ==> decreases_to!(*self => *#[trigger] body@[j]),
                        i <= body@.len(),
                        copies@.len() == i,
                        forall|j: int| 0 <= j < i ==> (*#[trigger] copies@[j])@ == (*body@[j])@,
                    decreases body@.len() - i,
                {
                    copies.push(Box::new(body[i].duplicate()));
                    i = i + 1;
                }
                let r = Statement::Procedure {
                    declaration: ProcedureDeclaration(declaration.0.clone()),
                    body: copies,
                };
                proof {
                    assert(r@->Procedure_1 =~= self@->Procedure_1);
                }
                r
            },
            Statement::ProcedureCall(s) => Statement::ProcedureCall(s.clone()),
            Statement::Reminder(s) => Statement::Reminder(s.clone()),
            Statement::SetFact(c) => Statement::SetFact(c.duplicate()),
            Statement::SetPersistentFact(s) => Statement::SetPersistentFact(s.clone()),
            Statement::TableRoll(s) => Statement::TableRoll(s.clone()),
        }
    }
}

/// The arms of a matching roll as views.
pub open spec fn arms_view(a: Seq<MatchingRollArm>) -> Seq<(TokenView, StatementView)> {
    Seq::new(a.len(), |i: int| (a[i].target@, a[i].consequent@))
}

/// The statements of a procedure body as views.
pub open spec fn body_view(b: Seq<Box<Statement>>) -> Seq<StatementView> {
    Seq::new(b.len(), |i: int| (*b[i])@)
}

/// A recursive-descent parser over a token list.
#[derive(Debug)]
pub struct Parser {
    pub tokens: Vec<Token>,
    /// The index of the token to be recognised.
    pub position: usize,
}

impl Parser {
    pub open spec fn toks(&self) -> Seq<TokenView> {
        self.tokens@.map_values(|t: Token| t@)
    }

    /// The parser's place is within the tokens, or just past them.
    pub open spec fn well_formed(&self) -> bool {
        self.position <= self.tokens@.len()
    }

    /// Moving from `old` to `self` kept the tokens and went forward.
    pub open spec fn moved_on(&self, old: &Parser) -> bool {
        &&& self.tokens@ == old.tokens@
        &&& self.well_formed()
        &&& old.position <= self.position
    }

    pub fn new(tokens: Vec<Token>) -> (r: Self)
        ensures
            r.well_formed(),
            r.tokens@ == tokens@,
            r.position == 0,
    {
        Parser { tokens, position: 0 }
    }

    fn peek(&self) -> (r: &Token)
        ensures
            r@ == peek(self.toks(), self.position as int),
    {
        if self.position < self.tokens.len() {
            &self.tokens[self.position]
        } else {
            &Token::Eof
        }
    }

    fn peek_next(&self) -> (r: &Token)
        ensures
            r@ == peek(self.toks(), self.position + 1),
    {
        if self.position < self.tokens.len() && self.position + 1 < self.tokens.len() {
            &self.tokens[self.position + 1]
        } else {
            &Token::Eof
        }
    }

    fn is_at_end(&self) -> (r: bool)
        ensures
            r == (peek(self.toks(), self.position as int) is Eof),
    {
        matches!(self.peek(), Token::Eof)
    }

    fn advance(&mut self)
        requires
            old(self).well_formed(),
        ensures
            final(self).tokens@ == old(self).tokens@,
            final(self).well_formed(),
            final(self).position == step(old(self).toks(), old(self).position as int),
    {
        if self.position < self.tokens.len() {
            self.position = self.position + 1;
        }
    }

    /// A parser error at the current token.
    fn error(&self) -> (r: CrawlError)
        ensures
            r.is_parser_error(),
    {
        CrawlError::ParserError { token: self.peek().describe() }
    }

    /// The text of the string token here, stepping past it.
    fn take_str(&mut self) -> (r: Result<String, CrawlError>)
        requires
            old(self).well_formed(),
        ensures
            final(self).moved_on(old(self)),
            fails_as_parser(r),
            r is Ok ==> final(self).position > old(self).position,
            match peek(old(self).toks(), old(self).position as int) {
                TokenView::Str(s) => r matches Ok(x) && x@ == s && final(self).position
                    == old(self).position + 1,
                _ => r is Err && final(self).position == old(self).position,
            },
    {
        match self.peek() {
            Token::Str(s) => {
                let text = s.clone();
                self.advance();
                Ok(text)
            },
            _ => Err(self.error()),
        }
    }

    pub fn clear_fact(&mut self) -> (r: Result<Statement, CrawlError>)
        requires
            old(self).well_formed(),
        ensures
            final(self).moved_on(old(self)),
            fails_as_parser(r),
            r is Ok ==> final(self).position > old(self).position,
            outcome(r, stmt_view_of(r), final(self).position) == clear_fact_spec(
                old(self).toks(),
                old(self).position as int,
            ),
    {
        if !matches!(self.peek(), Token::ClearFact) {
            return Err(self.error());
        }
        self.advance();
        match self.take_str() {
            Ok(s) => Ok(Statement::ClearFact(s)),
            Err(e) => Err(e),
        }
    }

    pub fn clear_persistent_fact(&mut self) -> (r: Result<Statement, CrawlError>)
        requires
            old(self).well_formed(),
        ensures
            final(self).moved_on(old(self)),
            fails_as_parser(r),
            r is Ok ==> final(self).position > old(self).position,
            outcome(r, stmt_view_of(r), final(self).position) == clear_persistent_fact_spec(
                old(self).toks(),
                old(self).position as int,
            ),
    {
        if !matches!(self.peek(), Token::ClearPersistentFact) {
            return Err(self.error());
        }
        self.advance();
        match self.take_str() {
            Ok(s) => Ok(Statement::ClearPersistentFact(s)),
            Err(e) => Err(e),
        }
    }

    pub fn set_persistent_fact(&mut self) -> (r: Result<Statement, CrawlError>)
        requires
            old(self).well_formed(),
        ensures
            final(self).moved_on(old(self)),
            fails_as_parser(r),
            r is Ok ==> final(self).position > old(self).position,
            outcome(r, stmt_view_of(r), final(self).position) == set_persistent_fact_spec(
                old(self).toks(),
                old(self).position as int,
            ),
    {
        if !matches!(self.peek(), Token::SetPersistentFact) {
            return Err(self.error());
        }
        self.advance();
        match self.take_str() {
            Ok(s) => Ok(Statement::SetPersistentFact(s)),
            Err(e) => Err(e),
        }
    }

    pub fn reminder(&mut self) -> (r: Result<Statement, CrawlError>)
        requires
            old(self).well_formed(),
        ensures
            final(self).moved_on(old(self)),
            fails_as_parser(r),
            r is Ok ==> final(self).position > old(self).position,
            outcome(r, stmt_view_of(r), final(self).position) == reminder_spec(
                old(self).toks(),
                old(self).position as int,
            ),
    {
        if !matches!(self.peek(), Token::Reminder) {
            return Err(self.error());
        }
        self.advance();
        match self.take_str() {
            Ok(s) => Ok(Statement::Reminder(s)),
            Err(e) => Err(e),
        }
    }

    pub fn load_table(&mut self) -> (r: Result<Statement, CrawlError>)
        requires
            old(self).well_formed(),
        ensures
            final(self).moved_on(old(self)),
            fails_as_parser(r),
            r is Ok ==> final(self).position > old(self).position,
            outcome(r, stmt_view_of(r), final(self).position) == load_table_spec(
                old(self).toks(),
                old(self).position as int,
            ),
    {
        if !matches!(self.peek(), Token::Load) {
            return Err(self.error());
        }
        self.advance();
        if !matches!(self.peek(), Token::Table) {
            return Err(self.error());
        }
        self.advance();
        match self.take_str() {
            Ok(s) => Ok(Statement::LoadTable(s)),
            Err(e) => Err(e),
        }
    }

    pub fn procedure_call(&mut self) -> (r: Result<Statement, CrawlError>)
        requires
            old(self).well_formed(),
        ensures
            final(self).moved_on(old(self)),
            fails_as_parser(r),
            r is Ok ==> final(self).position > old(self).position,
            outcome(r, stmt_view_of(r), final(self).position) == procedure_call_spec(
                old(self).toks(),
                old(self).position as int,
            ),
    {
        match self.peek() {
            Token::Identifier(name) => {
                let n = name.clone();
                self.advance();
                Ok(Statement::ProcedureCall(n))
            },
            _ => Err(self.error()),
        }
    }

    pub fn table_roll(&mut self) -> (r: Result<Statement, CrawlError>)
        requires
            old(self).well_formed(),
        ensures
            final(self).moved_on(old(self)),
            fails_as_parser(r),
            r is Ok ==> final(self).position > old(self).position,
            outcome(r, stmt_view_of(r), final(self).position) == table_roll_spec(
                old(self).toks(),
                old(self).position as int,
            ),
    {
        if !matches!(self.peek(), Token::Roll) {
            return Err(self.error());
        }
        self.advance();
        if !matches!(self.peek(), Token::On) {
            return Err(self.error());
        }
        self.advance();
        if !matches!(self.peek(), Token::Table) {
            return Err(self.error());
        }
        self.advance();
        match self.take_str() {
            Ok(s) => Ok(Statement::TableRoll(s)),
            Err(e) => Err(e),
        }
    }

    pub fn modified_specifier(&mut self) -> (r: Result<ModifiedRollSpecifier, CrawlError>)
        requires
            old(self).well_formed(),
        ensures
            final(self).moved_on(old(self)),
            fails_as_parser(r),
            r is Ok ==> final(self).position > old(self).position,
            outcome(
                r,
                match r {
                    Ok(m) => Some(specifier_view(m)),
                    Err(_) => None,
                },
                final(self).position,
            ) == modified_specifier_spec(old(self).toks(), old(self).position as int),
    {
        let base = match self.peek() {
            Token::RollSpecifier(_) => self.peek().duplicate(),
            _ => {
                return Err(self.error());
            },
        };
        self.advance();
        let modifier: i32 = match self.peek() {
            Token::Plus => {
                self.advance();
                match self.peek() {
                    Token::Num(n) => {
                        let m = *n;
                        self.advance();
                        m
                    },
                    _ => {
                        return Err(self.error());
                    },
                }
            },
            Token::Minus => {
                self.advance();
                match self.peek() {
                    Token::Num(n) => {
                        if *n == i32::MIN {
                            return Err(self.error());
                        }
                        let m = -*n;
                        self.advance();
                        m
                    },
                    _ => {
                        return Err(self.error());
                    },
                }
            },
            _ => 0,
        };
        Ok(ModifiedRollSpecifier { base_roll_specifier: base, modifier })
    }

    pub fn nontargeted_roll(&mut self) -> (r: Result<Statement, CrawlError>)
        requires
            old(self).well_formed(),
        ensures
            final(self).moved_on(old(self)),
            fails_as_parser(r),
            r is Ok ==> final(self).position > old(self).position,
            outcome(r, stmt_view_of(r), final(self).position) == nontargeted_roll_spec(
                old(self).toks(),
                old(self).position as int,
            ),
    {
        if !matches!(self.peek(), Token::Roll) {
            return Err(self.error());
        }
        self.advance();
        match self.modified_specifier() {
            Ok(spec) => Ok(Statement::NontargetedRoll(spec)),
            Err(e) => Err(e),
        }
    }

    /// A string, with an interpolated expression when `%` follows it.
    pub fn str(&mut self) -> (r: Result<CrawlStr, CrawlError>)
        requires
            old(self).well_formed(),
        ensures
            final(self).moved_on(old(self)),
            fails_as_parser(r),
            r is Ok ==> final(self).position > old(self).position,
            outcome(
                r,
                match r {
                    Ok(c) => Some(crawl_str_view(c)),
                    Err(_) => None,
                },
                final(self).position,
            ) == str_spec(old(self).toks(), old(self).position as int),
    {
        let s = match self.take_str() {
            Ok(s) => s,
            Err(e) => {
                return Err(e);
            },
        };
        if matches!(self.peek(), Token::Percent) {
            self.advance();
            let expr = if matches!(self.peek_next(), Token::On) {
                self.table_roll()
            } else if matches!(self.peek_next(), Token::RollSpecifier(_)) {
                self.nontargeted_roll()
            } else {
                Err(self.error())
            };
            match expr {
                Ok(x) => {
                    let ghost xv = x@;
                    let ghost xs = x;
                    let mut expressions: Vec<Statement> = Vec::new();
                    expressions.push(x);
                    assert(expressions@[0] == xs);
                    assert(expressions@.len() == 1);
                    let ghost fs = s@;
                    let r = CrawlStr::InterpolatedStr { format_string: s, expressions };
                    proof {
                        let v = crawl_str_view(r);
                        assert(v->Interpolated_1 =~= seq![xv]);
                        assert(v == CrawlStrView::Interpolated(fs, seq![xv]));
                    }
                    Ok(r)
                },
                Err(e) => Err(e),
            }
        } else {
            Ok(CrawlStr::Str(s))
        }
    }

    pub fn set_fact(&mut self) -> (r: Result<Statement, CrawlError>)
        requires
            old(self).well_formed(),
        ensures
            final(self).moved_on(old(self)),
            fails_as_parser(r),
            r is Ok ==> final(self).position > old(self).position,
            outcome(r, stmt_view_of(r), final(self).position) == set_fact_spec(
                old(self).toks(),
                old(self).position as int,
            ),
    {
        if !matches!(self.peek(), Token::SetFact) {
            return Err(self.error());
        }
        self.advance();
        match self.str() {
            Ok(c) => Ok(Statement::SetFact(c)),
            Err(e) => Err(e),
        }
    }

    fn skip_newlines(&mut self)
        requires
            old(self).well_formed(),
        ensures
            final(self).moved_on(old(self)),
            final(self).position == skip_newlines(old(self).toks(), old(self).position as int),
    {
        let ghost t = self.toks();
        let ghost p0 = self.position as int;
        while self.position < self.tokens.len() && matches!(self.tokens[self.position], Token::Newline)
            invariant
                self.tokens@ == old(self).tokens@,
                t == self.toks(),
                p0 == old(self).position,
                p0 <= self.position <= self.tokens@.len(),
                skip_newlines(t, p0) == skip_newlines(t, self.position as int),
            decreases self.tokens@.len() - self.position,
        {
            self.position = self.position + 1;
        }
    }

    /// Moves past the next line break (and any that follow), or to `Eof`.
    fn synchronize(&mut self)
        requires
            old(self).well_formed(),
        ensures
            final(self).moved_on(old(self)),
            final(self).position == sync_from(old(self).toks(), old(self).position as int),
    {
        let ghost t = self.toks();
        let ghost p0 = self.position as int;
        while self.position < self.tokens.len() && !matches!(self.tokens[self.position], Token::Newline)
            && !matches!(self.tokens[self.position], Token::Eof)
            invariant
                self.tokens@ == old(self).tokens@,
                t == self.toks(),
                p0 == old(self).position,
                p0 <= self.position <= self.tokens@.len(),
                sync_from(t, p0) == sync_from(t, self.position as int),
            decreases self.tokens@.len() - self.position,
        {
            self.position = self.position + 1;
        }
        self.skip_newlines();
    }

    pub fn matching_roll(&mut self) -> (r: Result<Statement, CrawlError>)
        requires
            old(self).well_formed(),
        ensures
            final(self).moved_on(old(self)),
            fails_as_parser(r),
            r is Ok ==> final(self).position > old(self).position,
            outcome(r, stmt_view_of(r), final(self).position) == matching_roll_spec(
                old(self).toks(),
                old(self).position as int,
            ),
    {
        let ghost t = self.toks();
        if !matches!(self.peek(), Token::Roll) {
            return Err(self.error());
        }
        self.advance();
        let roll_specifier = match self.modified_specifier() {
            Ok(m) => m,
            Err(e) => {
                return Err(e);
            },
        };
        if !matches!(self.peek(), Token::Newline) {
            return Err(self.error());
        }
        self.advance();
        let ghost start = self.position as int;
        let mut arms: Vec<MatchingRollArm> = Vec::new();
        assert(arms_view(arms@) =~= Seq::<(TokenView, StatementView)>::empty());
        loop
            invariant
                self.tokens@ == old(self).tokens@,
                t == self.toks(),
                t == old(self).toks(),
                self.well_formed(),
                old(self).position < start <= self.position,
                matching_roll_spec(t, old(self).position as int) == (match arms_spec(t, start, Seq::empty()).0 {
                    Ok(av) => Ok(StatementView::MatchingRoll(specifier_view(roll_specifier), av)),
                    Err(_) => Err(()),
                }, arms_spec(t, start, Seq::empty()).1),
                arms_spec(t, start, Seq::empty()) == arms_spec(t, self.position as int, arms_view(arms@)),
            decreases self.tokens@.len() - self.position,
        {
            let ghost before = arms@;
            match self.matching_roll_arm() {
                Ok(Some(arm)) => {
                    arms.push(arm);
                    proof {
                        assert(arms_view(arms@) =~= arms_view(before).push((arm.target@, arm.consequent@)));
                    }
                },
                Ok(None) => {
                    let r = Statement::MatchingRoll { roll_specifier, arms };
                    proof {
                        assert(r@->MatchingRoll_1 =~= arms_view(arms@));
                    }
                    return Ok(r);
                },
                Err(e) => {
                    return Err(e);
                },
            }
        }
    }

    /// One step through the arms of a matching roll: `None` at `end`.
    fn matching_roll_arm(&mut self) -> (r: Result<Option<MatchingRollArm>, CrawlError>)
        requires
            old(self).well_formed(),
        ensures
            final(self).moved_on(old(self)),
            fails_as_parser(r),
            final(self).position > old(self).position || r is Err,
            (
                match r {
                    Ok(None) => ArmStep::Done,
                    Ok(Some(arm)) => ArmStep::Arm(arm.target@, arm.consequent@),
                    Err(_) => ArmStep::Fail,
                },
                final(self).position as int,
            ) == arm_spec(old(self).toks(), old(self).position as int),
    {
        let ghost t = self.toks();
        if self.position >= self.tokens.len() {
            return Err(self.error());
        }
        if matches!(self.peek(), Token::End) {
            self.advance();
            return Ok(None);
        }
        if !matches!(self.peek(), Token::Indent) {
            return Err(self.error());
        }
        let ghost p = self.position as int;
        self.advance();
        while self.position < self.tokens.len() && matches!(self.tokens[self.position], Token::Indent)
            invariant
                self.tokens@ == old(self).tokens@,
                t == self.toks(),
                p < self.position <= self.tokens@.len(),
                skip_indents(t, p + 1) == skip_indents(t, self.position as int),
            decreases self.tokens@.len() - self.position,
        {
            self.position = self.position + 1;
        }
        if matches!(self.peek(), Token::End) {
            self.advance();
            return Ok(None);
        }
        let target = match self.peek() {
            Token::Num(_) | Token::NumRange(_, _) => self.peek().duplicate(),
            _ => {
                return Err(self.error());
            },
        };
        self.advance();
        if !matches!(self.peek(), Token::Arrow) {
            return Err(self.error());
        }
        self.advance();
        let consequent = match self.consequent() {
            Ok(c) => c,
            Err(e) => {
                return Err(e);
            },
        };
        if !matches!(self.peek(), Token::Newline) {
            return Err(self.error());
        }
        self.advance();
        Ok(Some(MatchingRollArm { target, consequent }))
    }

    /// One statement and its line break (and any that follow). After a
    /// failure, parsing takes up again past the failing token and the next
    /// line break.
    pub fn statement(&mut self) -> (r: Result<Statement, CrawlError>)
        requires
            old(self).well_formed(),
        ensures
            final(self).moved_on(old(self)),
            fails_as_parser(r),
            old(self).position < old(self).tokens@.len() ==> final(self).position > old(self).position,
            outcome(r, stmt_view_of(r), final(self).position) == statement_spec(
                old(self).toks(),
                old(self).position as int,
            ),
        decreases old(self).tokens@.len() - old(self).position, 3int,
    {
        let result = self.statement_body();
        match result {
            Ok(s) => {
                if matches!(self.peek(), Token::Newline) {
                    self.advance();
                    self.skip_newlines();
                    Ok(s)
                } else {
                    let e = self.error();
                    self.synchronize();
                    Err(e)
                }
            },
            Err(e) => {
                self.advance();
                self.synchronize();
                Err(e)
            },
        }
    }

    /// A statement, chosen by its first token (and, after `roll`, the
    /// second).
    fn statement_body(&mut self) -> (r: Result<Statement, CrawlError>)
        requires
            old(self).well_formed(),
        ensures
            final(self).moved_on(old(self)),
            fails_as_parser(r),
            r is Ok ==> final(self).position > old(self).position,
            outcome(r, stmt_view_of(r), final(self).position) == statement_body_spec(
                old(self).toks(),
                old(self).position as int,
            ),
        decreases old(self).tokens@.len() - old(self).position, 2int,
    {
        match self.peek() {
            Token::ClearFact => self.clear_fact(),
            Token::ClearPersistentFact => self.clear_persistent_fact(),
            Token::Identifier(_) => self.procedure_call(),
            Token::If => self.if_then(),
            Token::Load => self.load_table(),
            Token::Procedure => self.procedure(),
            Token::Reminder => self.reminder(),
            Token::Roll => match self.peek_next() {
                Token::On => self.table_roll(),
                Token::RollSpecifier(_) => self.matching_roll(),
                _ => Err(self.error()),
            },
            Token::SetFact => self.set_fact(),
            Token::SetPersistentFact => self.set_persistent_fact(),
            _ => Err(self.error()),
        }
    }

    /// `procedure NAME`, a line break, indented statements, and `end`.
    pub fn procedure(&mut self) -> (r: Result<Statement, CrawlError>)
        requires
            old(self).well_formed(),
        ensures
            final(self).moved_on(old(self)),
            fails_as_parser(r),
            r is Ok ==> final(self).position > old(self).position,
            outcome(r, stmt_view_of(r), final(self).position) == procedure_spec(
                old(self).toks(),
                old(self).position as int,
            ),
        decreases old(self).tokens@.len() - old(self).position, 1int,
    {
        let ghost t = self.toks();
        if !matches!(self.peek(), Token::Procedure) {
            return Err(self.error());
        }
        self.advance();
        let name = match self.peek() {
            Token::Identifier(n) => n.clone(),
            _ => {
                return Err(self.error());
            },
        };
        self.advance();
        if !matches!(self.peek(), Token::Newline) {
            return Err(self.error());
        }
        self.advance();
        let ghost start = self.position as int;
        let mut body: Vec<Box<Statement>> = Vec::new();
        assert(body_view(body@) =~= Seq::<StatementView>::empty());
        loop
            invariant
                self.tokens@ == old(self).tokens@,
                t == self.toks(),
                t == old(self).toks(),
                self.well_formed(),
                old(self).position < start <= self.position,
                procedure_spec(t, old(self).position as int) == (match body_spec(t, start, Seq::empty()).0 {
                    Ok(bv) => Ok(StatementView::Procedure(name@, bv)),
                    Err(_) => Err(()),
                }, body_spec(t, start, Seq::empty()).1),
                body_spec(t, start, Seq::empty()) == body_spec(t, self.position as int, body_view(body@)),
            decreases self.tokens@.len() - self.position,
        {
            if self.position >= self.tokens.len() {
                return Err(self.error());
            }
            if matches!(self.peek(), Token::End) {
                self.advance();
                let r = Statement::Procedure { declaration: ProcedureDeclaration(name), body };
                proof {
                    assert(r@->Procedure_1 =~= body_view(body@));
                }
                return Ok(r);
            }
            if !matches!(self.peek(), Token::Indent) {
                return Err(self.error());
            }
            self.advance();
            let ghost before = body@;
            match self.statement() {
                Ok(st) => {
                    body.push(Box::new(st));
                    proof {
                        assert(body_view(body@) =~= body_view(before).push(st@));
                    }
                },
                Err(e) => {
                    return Err(e);
                },
            }
        }
    }

    /// Every statement up to `Eof`, one entry for each: the statement, or
    /// the parser error that stopped it.
    pub fn parse(&mut self) -> (r: Vec<Result<Statement, CrawlError>>)
        requires
            old(self).well_formed(),
        ensures
            final(self).moved_on(old(self)),
            forall|i: int| 0 <= i < r@.len() ==> fails_as_parser(#[trigger] r@[i]),
            r@.map_values(|x: Result<Statement, CrawlError>| result_view(x)) == parse_from(
                old(self).toks(),
                old(self).position as int,
            ),
    {
        let ghost t = self.toks();
        let ghost p0 = self.position as int;
        let mut statements: Vec<Result<Statement, CrawlError>> = Vec::new();
        while !self.is_at_end()
            invariant
                self.tokens@ == old(self).tokens@,
                t == self.toks(),
                p0 == old(self).position,
                self.well_formed(),
                p0 <= self.position,
                forall|i: int| 0 <= i < statements@.len() ==> fails_as_parser(#[trigger] statements@[i]),
                statements@.map_values(|x: Result<Statement, CrawlError>| result_view(x)) + parse_from(
                    t,
                    self.position as int,
                ) == parse_from(t, p0),
            decreases self.tokens@.len() - self.position,
        {
            let ghost before = statements@;
            let ghost p = self.position as int;
            let r = self.statement();
            statements.push(r);
            proof {
                assert(statements@.map_values(|x: Result<Statement, CrawlError>| result_view(x)) =~= before.map_values(
                    |x: Result<Statement, CrawlError>| result_view(x),
                ).push(result_view(r)));
                assert(statements@.map_values(|x: Result<Statement, CrawlError>| result_view(x)) + parse_from(
                    t,
                    self.position as int,
                ) =~= parse_from(t, p0));
            }
        }
        proof {
            assert(statements@.map_values(|x: Result<Statement, CrawlError>| result_view(x)) + parse_from(
                t,
                self.position as int,
            ) =~= statements@.map_values(|x: Result<Statement, CrawlError>| result_view(x)));
        }
        statements
    }

    pub fn dice_roll(&mut self) -> (r: Result<Antecedent, CrawlError>)
        requires
            old(self).well_formed(),
        ensures
            final(self).moved_on(old(self)),
            fails_as_parser(r),
            r is Ok ==> final(self).position > old(self).position,
            outcome(
                r,
                match r {
                    Ok(a) => Some(antecedent_view(a)),
                    Err(_) => None,
                },
                final(self).position,
            ) == dice_roll_spec(old(self).toks(), old(self).position as int),
    {
        if !matches!(self.peek(), Token::Roll) {
            return Err(self.error());
        }
        self.advance();
        let target = match self.peek() {
            Token::Num(_) | Token::NumRange(_, _) => self.peek().duplicate(),
            _ => {
                return Err(self.error());
            },
        };
        self.advance();
        if !matches!(self.peek(), Token::On) {
            return Err(self.error());
        }
        self.advance();
        match self.modified_specifier() {
            Ok(roll_specifier) => Ok(Antecedent::DiceRoll { target, roll_specifier }),
            Err(e) => Err(e),
        }
    }

    pub fn fact_check(&mut self) -> (r: Result<Antecedent, CrawlError>)
        requires
            old(self).well_formed(),
        ensures
            final(self).moved_on(old(self)),
            fails_as_parser(r),
            r is Ok ==> final(self).position > old(self).position,
            outcome(
                r,
                match r {
                    Ok(a) => Some(antecedent_view(a)),
                    Err(_) => None,
                },
                final(self).position,
            ) == fact_check_spec(old(self).toks(), old(self).position as int),
    {
        if !matches!(self.peek(), Token::FactTest) {
            return Err(self.error());
        }
        self.advance();
        match self.take_str() {
            Ok(s) => Ok(Antecedent::CheckFact(s)),
            Err(e) => Err(e),
        }
    }

    pub fn persistent_fact_check(&mut self) -> (r: Result<Antecedent, CrawlError>)
        requires
            old(self).well_formed(),
        ensures
            final(self).moved_on(old(self)),
            fails_as_parser(r),
            r is Ok ==> final(self).position > old(self).position,
            outcome(
                r,
                match r {
                    Ok(a) => Some(antecedent_view(a)),
                    Err(_) => None,
                },
                final(self).position,
            ) == persistent_fact_check_spec(old(self).toks(), old(self).position as int),
    {
        if !matches!(self.peek(), Token::PersistentFactTest) {
            return Err(self.error());
        }
        self.advance();
        match self.take_str() {
            Ok(s) => Ok(Antecedent::CheckPersistentFact(s)),
            Err(e) => Err(e),
        }
    }

    pub fn antecedent(&mut self) -> (r: Result<Antecedent, CrawlError>)
        requires
            old(self).well_formed(),
        ensures
            final(self).moved_on(old(self)),
            fails_as_parser(r),
            r is Ok ==> final(self).position > old(self).position,
            outcome(
                r,
                match r {
                    Ok(a) => Some(antecedent_view(a)),
                    Err(_) => None,
                },
                final(self).position,
            ) == antecedent_spec(old(self).toks(), old(self).position as int),
    {
        match self.peek() {
            Token::Roll => self.dice_roll(),
            Token::FactTest => self.fact_check(),
            Token::PersistentFactTest => self.persistent_fact_check(),
            _ => Err(self.error()),
        }
    }

    pub fn consequent(&mut self) -> (r: Result<Statement, CrawlError>)
        requires
            old(self).well_formed(),
        ensures
            final(self).moved_on(old(self)),
            fails_as_parser(r),
            r is Ok ==> final(self).position > old(self).position,
            outcome(r, stmt_view_of(r), final(self).position) == consequent_spec(
                old(self).toks(),
                old(self).position as int,
            ),
    {
        match self.peek() {
            Token::ClearFact => self.clear_fact(),
            Token::ClearPersistentFact => self.clear_persistent_fact(),
            Token::Identifier(_) => self.procedure_call(),
            Token::Reminder => self.reminder(),
            Token::Roll => self.table_roll(),
            Token::SetFact => self.set_fact(),
            Token::SetPersistentFact => self.set_persistent_fact(),
            _ => Err(self.error()),
        }
    }

    pub fn if_then(&mut self) -> (r: Result<Statement, CrawlError>)
        requires
            old(self).well_formed(),
        ensures
            final(self).moved_on(old(self)),
            fails_as_parser(r),
            r is Ok ==> final(self).position > old(self).position,
            outcome(r, stmt_view_of(r), final(self).position) == if_then_spec(
                old(self).toks(),
                old(self).position as int,
            ),
    {
        if !matches!(self.peek(), Token::If) {
            return Err(self.error());
        }
        self.advance();
        let antecedent = match self.antecedent() {
            Ok(a) => a,
            Err(e) => {
                return Err(e);
            },
        };
        if !matches!(self.peek(), Token::Arrow) {
            return Err(self.error());
        }
        self.advance();
        match self.consequent() {
            Ok(c) => Ok(Statement::IfThen { antecedent, consequent: Box::new(c) }),
            Err(e) => Err(e),
        }
    }
}

} // verus!
