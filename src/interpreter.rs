//! The interpreter: statements to side effects and a trace of records.
use crate::dice::{dice_of, sum, DiceRoll, DiceSource};
use crate::error::CrawlError;
use crate::facts::{fact_of, Fact, FactDatabase, FactView};
use crate::parser::{
    antecedent_view, arms_view, body_view, crawl_str_view, specifier_view, Antecedent,
    AntecedentView, CrawlStr, CrawlStrView, MatchingRollArm, ModifiedRollSpecifier,
    ProcedureDeclaration, SpecifierView, Statement, StatementView,
};
use crate::scanner::{Token, TokenView};
use crate::tables::Table;
use crate::text::{chars_of, int_text, push_int, string_of};
use vstd::prelude::*;

verus! {

/// How deeply procedure calls may nest.
pub const MAX_CALL_DEPTH: usize = 64;

/// What evaluating a statement produced.
#[derive(Debug, PartialEq)]
pub enum StatementRecord {
    CheckFact(bool),
    CheckPersistentFact(bool),
    ClearFact(String),
    ClearPersistentFact(String),
    IfThen { antecedent: bool, consequent: Option<Box<StatementRecord>> },
    LoadTable(String),
    MatchingRoll { matched_target: Option<Token>, consequent: Option<Box<StatementRecord>> },
    NontargetedRoll(i32),
    ProcedureCall { identifier: String, records: Vec<Box<StatementRecord>> },
    ProcedureDefinition(String),
    Reminder(String),
    SetFact(String),
    SetPersistentFact(String),
    TableRoll(String),
}

/// A record with its text as sequences of characters.
pub enum RecordView {
    CheckFact(bool),
    CheckPersistentFact(bool),
    ClearFact(Seq<char>),
    ClearPersistentFact(Seq<char>),
    IfThen(bool, Option<Box<RecordView>>),
    LoadTable(Seq<char>),
    MatchingRoll(Option<TokenView>, Option<Box<RecordView>>),
    NontargetedRoll(i32),
    ProcedureCall(Seq<char>, Seq<RecordView>),
    ProcedureDefinition(Seq<char>),
    Reminder(Seq<char>),
    SetFact(Seq<char>),
    SetPersistentFact(Seq<char>),
    TableRoll(Seq<char>),
}

pub open spec fn record_view(r: StatementRecord) -> RecordView
    decreases r,
{
    match r {
        StatementRecord::CheckFact(b) => RecordView::CheckFact(b),
        StatementRecord::CheckPersistentFact(b) => RecordView::CheckPersistentFact(b),
        StatementRecord::ClearFact(s) => RecordView::ClearFact(s@),
        StatementRecord::ClearPersistentFact(s) => RecordView::ClearPersistentFact(s@),
        StatementRecord::IfThen { antecedent, consequent } => RecordView::IfThen(
            antecedent,
            match consequent {
                Some(c) => Some(Box::new(record_view(*c))),
                None => None,
            },
        ),
        StatementRecord::LoadTable(s) => RecordView::LoadTable(s@),
        StatementRecord::MatchingRoll { matched_target, consequent } => RecordView::MatchingRoll(
            match matched_target {
                Some(t) => Some(t@),
                None => None,
            },
            match consequent {
                Some(c) => Some(Box::new(record_view(*c))),
                None => None,
            },
        ),
        StatementRecord::NontargetedRoll(n) => RecordView::NontargetedRoll(n),
        StatementRecord::ProcedureCall { identifier, records } => RecordView::ProcedureCall(
            identifier@,
            Seq::new(
                records@.len(),
                |i: int|
                    if 0 <= i < records@.len() {
                        record_view(*records@[i])
                    } else {
                        RecordView::NontargetedRoll(0)
                    },
            ),
        ),
        StatementRecord::ProcedureDefinition(s) => RecordView::ProcedureDefinition(s@),
        StatementRecord::Reminder(s) => RecordView::Reminder(s@),
        StatementRecord::SetFact(s) => RecordView::SetFact(s@),
        StatementRecord::SetPersistentFact(s) => RecordView::SetPersistentFact(s@),
        StatementRecord::TableRoll(s) => RecordView::TableRoll(s@),
    }
}

impl View for StatementRecord {
    type V = RecordView;

    open spec fn view(&self) -> RecordView {
        record_view(*self)
    }
}

/// A named procedure and its body.
#[derive(Debug)]
pub struct CrawlProcedure {
    pub identifier: String,
    pub body: Vec<Statement>,
}

impl CrawlProcedure {
    pub fn new(identifier: String, body: Vec<Statement>) -> (r: Self)
        ensures
            r.identifier == identifier,
            r.body == body,
    {
        CrawlProcedure { identifier, body }
    }
}

/// The statements of a procedure body as views.
pub open spec fn stmts_view(b: Seq<Statement>) -> Seq<StatementView> {
    Seq::new(b.len(), |i: int| b[i]@)
}

/// What evaluation reads and changes: the procedures by name (the first
/// entry of a name counts), the names of the tables loaded, and the
/// persistent and the local facts.
pub struct EvalState {
    pub procedures: Seq<(Seq<char>, Seq<StatementView>)>,
    pub loaded: Set<Seq<char>>,
    pub persistent: Set<FactView>,
    pub local: Set<FactView>,
}

/// The position of the first procedure named `name` at or after `i`, or the
/// number of procedures.
pub open spec fn find_procedure(ps: Seq<(Seq<char>, Seq<StatementView>)>, name: Seq<char>, i: int) -> int
    decreases ps.len() - i,
{
    if i < 0 || i >= ps.len() {
        ps.len() as int
    } else if ps[i].0 == name {
        i
    } else {
        find_procedure(ps, name, i + 1)
    }
}

/// The procedures after defining `name` as `body`: an earlier definition is
/// replaced, else the new one is added.
pub open spec fn define(ps: Seq<(Seq<char>, Seq<StatementView>)>, name: Seq<char>, body: Seq<StatementView>) -> Seq<(Seq<char>, Seq<StatementView>)> {
    let k = find_procedure(ps, name, 0);
    if k < ps.len() {
        ps.update(k, (name, body))
    } else {
        ps.push((name, body))
    }
}

/// The body of the procedure named `name`, if there is one.
pub open spec fn procedure_body(ps: Seq<(Seq<char>, Seq<StatementView>)>, name: Seq<char>) -> Option<Seq<StatementView>> {
    let k = find_procedure(ps, name, 0);
    if k < ps.len() {
        Some(ps[k].1)
    } else {
        None
    }
}

/// The position of the first table provided under `name` at or after `i`,
/// or the number of tables provided.
pub open spec fn source_index(sources: Seq<(Seq<char>, Table)>, name: Seq<char>, i: int) -> int
    decreases sources.len() - i,
{
    if i < 0 || i >= sources.len() {
        sources.len() as int
    } else if sources[i].0 == name {
        i
    } else {
        source_index(sources, name, i + 1)
    }
}

/// The table provided under `name`: the first such entry counts.
pub open spec fn source_table(sources: Seq<(Seq<char>, Table)>, name: Seq<char>) -> Option<Table> {
    let k = source_index(sources, name, 0);
    if k < sources.len() {
        Some(sources[k].1)
    } else {
        None
    }
}

/// Whether a roll total hits a target: a number it equals or a range that
/// holds it. Other tokens are no target.
pub open spec fn hits(target: TokenView, total: int) -> Option<bool> {
    match target {
        TokenView::Num(n) => Some(total == n),
        TokenView::NumRange(low, high) => Some(low <= total <= high),
        _ => None,
    }
}

/// The total of the roll that `sv` names when its faces are the draws from
/// position `k` on, and the position after them.
pub open spec fn roll_total(sv: SpecifierView, draws: Seq<int>, k: int) -> Option<(int, int)> {
    match dice_of(sv) {
        Some((n, m)) => Some((sum(draws.subrange(k, k + n)) + sv.1, k + n)),
        None => None,
    }
}

/// Statements that may follow `=>`.
pub open spec fn is_consequent(s: StatementView) -> bool {
    match s {
        StatementView::ClearFact(_) | StatementView::ClearPersistentFact(_) | StatementView::ProcedureCall(
            _,
        ) | StatementView::SetFact(_) | StatementView::SetPersistentFact(_) | StatementView::Reminder(
            _,
        ) | StatementView::TableRoll(_) => true,
        _ => false,
    }
}

/// How a record reads when it fills a placeholder.
pub open spec fn record_text(r: RecordView) -> Option<Seq<char>> {
    match r {
        RecordView::NontargetedRoll(n) => Some("NontargetedRoll("@ + int_text(n as int) + ")"@),
        RecordView::TableRoll(v) => Some("TableRoll(\""@ + v + "\")"@),
        _ => None,
    }
}

/// The first position of `{}` in `s` at or after `i`, or `s.len()`.
pub open spec fn placeholder_from(s: Seq<char>, i: int) -> int
    decreases s.len() - i,
{
    if i < 0 || i + 1 >= s.len() {
        s.len() as int
    } else if s[i] == '{' && s[i + 1] == '}' {
        i
    } else {
        placeholder_from(s, i + 1)
    }
}

/// `s` with its first `{}` replaced by `v`; unchanged when it has none.
pub open spec fn fill_placeholder(s: Seq<char>, v: Seq<char>) -> Seq<char> {
    let k = placeholder_from(s, 0);
    if k < s.len() {
        s.take(k) + v + s.skip(k + 2)
    } else {
        s
    }
}

/// What evaluation returns: the state after it, the result, and the
/// position of the next draw.
pub type Evaluated<T> = (EvalState, Result<T, ()>, int);

/// Evaluating an antecedent.
pub open spec fn eval_antecedent(st: EvalState, a: AntecedentView, draws: Seq<int>, k: int) -> Evaluated<bool> {
    match a {
        AntecedentView::CheckFact(text) => match fact_of(text) {
            Some(f) => (st, Ok(st.local.contains(f)), k),
            None => (st, Err(()), k),
        },
        AntecedentView::CheckPersistentFact(text) => match fact_of(text) {
            Some(f) => (st, Ok(st.persistent.contains(f)), k),
            None => (st, Err(()), k),
        },
        AntecedentView::DiceRoll(target, sv) => match roll_total(sv, draws, k) {
            Some((total, k2)) => match hits(target, total) {
                Some(b) => (st, Ok(b), k2),
                None => (st, Err(()), k2),
            },
            None => (st, Err(()), k),
        },
    }
}

/// Evaluating one statement with `depth` further procedure calls allowed.
/// Dice faces are read from `draws`, starting at position `k`.
pub open spec fn eval_statement(
    sources: Seq<(Seq<char>, Table)>,
    st: EvalState,
    s: StatementView,
    draws: Seq<int>,
    k: int,
    depth: nat,
) -> Evaluated<RecordView>
    decreases depth, s, 0int,
{
    match s {
        StatementView::Reminder(text) => (st, Ok(RecordView::Reminder(text)), k),
        StatementView::SetFact(cs) => {
            let (st1, r, k1) = eval_str(sources, st, cs, draws, k, depth);
            match r {
                Ok(text) => match fact_of(text) {
                    Some(f) => (EvalState { local: st1.local.insert(f), ..st1 }, Ok(RecordView::SetFact(text)), k1),
                    None => (st1, Err(()), k1),
                },
                Err(_) => (st1, Err(()), k1),
            }
        },
        StatementView::SetPersistentFact(text) => match fact_of(text) {
            Some(f) => (EvalState { persistent: st.persistent.insert(f), ..st }, Ok(RecordView::SetPersistentFact(text)), k),
            None => (st, Err(()), k),
        },
        StatementView::ClearFact(text) => match fact_of(text) {
            Some(f) => (EvalState { local: st.local.remove(f), ..st }, Ok(RecordView::ClearFact(text)), k),
            None => (st, Err(()), k),
        },
        StatementView::ClearPersistentFact(text) => match fact_of(text) {
            Some(f) => (EvalState { persistent: st.persistent.remove(f), ..st }, Ok(RecordView::ClearPersistentFact(text)), k),
            None => (st, Err(()), k),
        },
        StatementView::IfThen(a, c) => {
            let (st1, r, k1) = eval_antecedent(st, a, draws, k);
            match r {
                Ok(true) => if is_consequent(*c) {
                    let (st2, rc, k2) = eval_statement(sources, st1, *c, draws, k1, depth);
                    match rc {
                        Ok(rec) => (st2, Ok(RecordView::IfThen(true, Some(Box::new(rec)))), k2),
                        Err(_) => (st2, Err(()), k2),
                    }
                } else {
                    (st1, Err(()), k1)
                },
                Ok(false) => (st1, Ok(RecordView::IfThen(false, None)), k1),
                Err(_) => (st1, Err(()), k1),
            }
        },
        StatementView::MatchingRoll(sv, arms) => match roll_total(sv, draws, k) {
            Some((total, k1)) => eval_arms(sources, st, arms, 0, total, draws, k1, depth),
            None => (st, Err(()), k),
        },
        StatementView::NontargetedRoll(sv) => match roll_total(sv, draws, k) {
            Some((total, k1)) => (st, Ok(RecordView::NontargetedRoll(total as i32)), k1),
            None => (st, Err(()), k),
        },
        StatementView::LoadTable(name) => match source_table(sources, name) {
            Some(_) => (EvalState { loaded: st.loaded.insert(name), ..st }, Ok(RecordView::LoadTable(name)), k),
            None => (st, Err(()), k),
        },
        StatementView::TableRoll(name) => match source_table(sources, name) {
            Some(t) => if st.loaded.contains(name) && t.max_target >= 1 {
                match t.outcome(draws[k]) {
                    Some(entry) => (st, Ok(RecordView::TableRoll(entry.1)), k + 1),
                    None => (st, Err(()), k + 1),
                }
            } else {
                (st, Err(()), k)
            },
            None => (st, Err(()), k),
        },
        StatementView::Procedure(name, body) => (
            EvalState { procedures: define(st.procedures, name, body), ..st },
            Ok(RecordView::ProcedureDefinition(name)),
            k,
        ),
        StatementView::ProcedureCall(name) => match procedure_body(st.procedures, name) {
            Some(body) => if depth == 0 {
                (st, Err(()), k)
            } else {
                let (st1, r, k1) = eval_body(sources, st, body, 0, Seq::empty(), draws, k, (depth - 1) as nat);
                (
                    EvalState { local: st.local, ..st1 },
                    match r {
                        Ok(recs) => Ok(RecordView::ProcedureCall(name, recs)),
                        Err(_) => Err(()),
                    },
                    k1,
                )
            },
            None => (st, Err(()), k),
        },
    }
}

/// Evaluating the arms of a matching roll from arm `i` on, for a roll total:
/// the first arm whose target the total hits runs its consequent.
pub open spec fn eval_arms(
    sources: Seq<(Seq<char>, Table)>,
    st: EvalState,
    arms: Seq<(TokenView, StatementView)>,
    i: int,
    total: int,
    draws: Seq<int>,
    k: int,
    depth: nat,
) -> Evaluated<RecordView>
    decreases depth, arms, arms.len() - i,
{
    if i < 0 || i >= arms.len() {
        (st, Ok(RecordView::MatchingRoll(None, None)), k)
    } else {
        match hits(arms[i].0, total) {
            None => (st, Err(()), k),
            Some(false) => eval_arms(sources, st, arms, i + 1, total, draws, k, depth),
            Some(true) => if is_consequent(arms[i].1) {
                let (st1, r, k1) = eval_statement(sources, st, arms[i].1, draws, k, depth);
                match r {
                    Ok(rec) => (st1, Ok(RecordView::MatchingRoll(Some(arms[i].0), Some(Box::new(rec)))), k1),
                    Err(_) => (st1, Err(()), k1),
                }
            } else {
                (st, Err(()), k)
            },
        }
    }
}

/// Evaluating a procedure body from statement `i` on, after the records
/// `acc`; the first failure ends it.
pub open spec fn eval_body(
    sources: Seq<(Seq<char>, Table)>,
    st: EvalState,
    body: Seq<StatementView>,
    i: int,
    acc: Seq<RecordView>,
    draws: Seq<int>,
    k: int,
    depth: nat,
) -> Evaluated<Seq<RecordView>>
    decreases depth, body, body.len() - i,
{
    if i < 0 || i >= body.len() {
        (st, Ok(acc), k)
    } else {
        let (st1, r, k1) = eval_statement(sources, st, body[i], draws, k, depth);
        match r {
            Ok(rec) => eval_body(sources, st1, body, i + 1, acc.push(rec), draws, k1, depth),
            Err(_) => (st1, Err(()), k1),
        }
    }
}

/// Evaluating a string: each embedded expression in turn fills the first
/// placeholder left.
pub open spec fn eval_str(
    sources: Seq<(Seq<char>, Table)>,
    st: EvalState,
    cs: CrawlStrView,
    draws: Seq<int>,
    k: int,
    depth: nat,
) -> Evaluated<Seq<char>>
    decreases depth, cs, 0int,
{
    match cs {
        CrawlStrView::Str(text) => (st, Ok(text), k),
        CrawlStrView::Interpolated(text, exprs) => eval_exprs(sources, st, exprs, 0, text, draws, k, depth),
    }
}

/// Filling placeholders of `text` with the expressions from `i` on.
pub open spec fn eval_exprs(
    sources: Seq<(Seq<char>, Table)>,
    st: EvalState,
    exprs: Seq<StatementView>,
    i: int,
    text: Seq<char>,
    draws: Seq<int>,
    k: int,
    depth: nat,
) -> Evaluated<Seq<char>>
    decreases depth, exprs, exprs.len() - i,
{
    if i < 0 || i >= exprs.len() {
        (st, Ok(text), k)
    } else {
        let (st1, r, k1) = eval_statement(sources, st, exprs[i], draws, k, depth);
        match r {
            Ok(rec) => match record_text(rec) {
                Some(v) => eval_exprs(sources, st1, exprs, i + 1, fill_placeholder(text, v), draws, k1, depth),
                None => (st1, Err(()), k1),
            },
            Err(_) => (st1, Err(()), k1),
        }
    }
}

/// The records of a procedure call as views.
pub open spec fn records_view(rs: Seq<Box<StatementRecord>>) -> Seq<RecordView> {
    Seq::new(rs.len(), |i: int| (*rs[i])@)
}

/// Evaluating top-level statements from `i` on, each at the full call depth;
/// a failure of one does not stop the next.
pub open spec fn eval_all(
    sources: Seq<(Seq<char>, Table)>,
    st: EvalState,
    stmts: Seq<StatementView>,
    i: int,
    acc: Seq<Result<RecordView, ()>>,
    draws: Seq<int>,
    k: int,
) -> (EvalState, Seq<Result<RecordView, ()>>, int)
    decreases stmts.len() - i,
{
    if i < 0 || i >= stmts.len() {
        (st, acc, k)
    } else {
        let (st1, r, k1) = eval_statement(sources, st, stmts[i], draws, k, MAX_CALL_DEPTH as nat);
        eval_all(sources, st1, stmts, i + 1, acc.push(r), draws, k1)
    }
}

/// The names that `load table` statements in `s` load, its procedure bodies
/// included, in order.
pub open spec fn load_paths(s: StatementView) -> Seq<Seq<char>>
    decreases s,
{
    match s {
        StatementView::LoadTable(name) => seq![name],
        StatementView::Procedure(_, body) => paths_of(body),
        _ => Seq::empty(),
    }
}

/// The names that `load table` statements in `ss` load, in order.
pub open spec fn paths_of(ss: Seq<StatementView>) -> Seq<Seq<char>>
    decreases ss,
{
    if ss.len() == 0 {
        Seq::empty()
    } else {
        paths_of(ss.drop_last()) + load_paths(ss.last())
    }
}

/// Appends the names that `load table` statements in `s` load.
fn collect_paths(s: &Statement, out: &mut Vec<String>)
    ensures
        final(out)@.map_values(|n: String| n@) == old(out)@.map_values(|n: String| n@) + load_paths(s@),
    decreases s,
{
    match s {
        Statement::LoadTable(name) => {
            let ghost before = out@;
            out.push(name.clone());
            assert(out@.map_values(|n: String| n@) =~= before.map_values(|n: String| n@) + load_paths(s@));
        },
        Statement::Procedure { body, .. } => {
            let ghost before = out@.map_values(|n: String| n@);
            let ghost bv = body_view(body@);
            proof {
                assert(s@->Procedure_1 =~= bv);
                assert forall|j: int| 0 <= j < body@.len() implies decreases_to!(*s => *#[trigger] body@[j]) by {
                    assert(decreases_to!(*s => *body));
                    assert(decreases_to!(*body => body@));
                    assert(decreases_to!(body@ => body@[j]));
                }
                assert(bv.take(0) =~= Seq::<StatementView>::empty());
                assert(before =~= before + paths_of(bv.take(0)));
            }
            let mut i: usize = 0;
            while i < body.len()
                invariant
                    bv == body_view(body@),
                    i <= body@.len(),
                    forall|j: int| 0 <= j < body@.len() ==> decreases_to!(*s => *#[trigger] body@[j]),
                    out@.map_values(|n: String| n@) == before + paths_of(bv.take(i as int)),
                decreases body@.len() - i,
            {
                collect_paths(&body[i], out);
                proof {
                    assert(bv.take(i + 1).drop_last() =~= bv.take(i as int));
                    assert(out@.map_values(|n: String| n@) =~= before + paths_of(bv.take(i + 1)));
                }
                i = i + 1;
            }
            assert(bv.take(i as int) =~= bv);
        },
        _ => {
            assert(out@.map_values(|n: String| n@) =~= out@.map_values(|n: String| n@) + load_paths(s@));
        },
    }
}

/// The names that the `load table` statements of a program load, procedure
/// bodies included, in order: the tables that a host should provide.
pub fn table_paths(statements: &Vec<Statement>) -> (r: Vec<String>)
    ensures
        r@.map_values(|n: String| n@) == paths_of(stmts_view(statements@)),
{
    let ghost sv = stmts_view(statements@);
    let mut out: Vec<String> = Vec::new();
    let mut i: usize = 0;
    assert(out@.map_values(|n: String| n@) =~= paths_of(sv.take(0)));
    while i < statements.len()
        invariant
            sv == stmts_view(statements@),
            i <= statements@.len(),
            out@.map_values(|n: String| n@) == paths_of(sv.take(i as int)),
        decreases statements@.len() - i,
    {
        collect_paths(&statements[i], &mut out);
        proof {
            assert(sv.take(i + 1).drop_last() =~= sv.take(i as int));
            assert(out@.map_values(|n: String| n@) =~= paths_of(sv.take(i + 1)));
        }
        i = i + 1;
    }
    assert(sv.take(i as int) =~= sv);
    out
}

/// A procedure call leaves the caller's local facts as they were, whatever
/// the procedure sets or clears and whether or not it fails.
pub proof fn lemma_procedure_call_keeps_local_facts(
    sources: Seq<(Seq<char>, Table)>,
    st: EvalState,
    name: Seq<char>,
    draws: Seq<int>,
    k: int,
    depth: nat,
)
    ensures
        eval_statement(sources, st, StatementView::ProcedureCall(name), draws, k, depth).0.local
            == st.local,
{
}

/// A matching roll rolls once and runs the first arm whose target the total
/// hits: when that is the first arm, the result is that arm's consequent,
/// and the arms after it play no part.
pub proof fn lemma_matching_roll_first_hit(
    sources: Seq<(Seq<char>, Table)>,
    st: EvalState,
    sv: SpecifierView,
    arms: Seq<(TokenView, StatementView)>,
    draws: Seq<int>,
    k: int,
    depth: nat,
)
    requires
        arms.len() >= 1,
        roll_total(sv, draws, k) is Some,
        hits(arms[0].0, roll_total(sv, draws, k)->Some_0.0) == Some(true),
        is_consequent(arms[0].1),
    ensures
        eval_statement(sources, st, StatementView::MatchingRoll(sv, arms), draws, k, depth)
            == eval_statement(sources, st, StatementView::MatchingRoll(sv, arms.take(1)), draws, k, depth),
        ({
            let k1 = roll_total(sv, draws, k)->Some_0.1;
            let (st1, r, k2) = eval_statement(sources, st, arms[0].1, draws, k1, depth);
            eval_statement(sources, st, StatementView::MatchingRoll(sv, arms), draws, k, depth) == (
                st1,
                match r {
                    Ok(rec) => Ok(RecordView::MatchingRoll(Some(arms[0].0), Some(Box::new(rec)))),
                    Err(_) => Err(()),
                },
                k2,
            )
        }),
{
    let (total, k1) = roll_total(sv, draws, k)->Some_0;
    assert(arms.take(1)[0] == arms[0]);
    assert(eval_arms(sources, st, arms, 0, total, draws, k1, depth) == eval_arms(
        sources,
        st,
        arms.take(1),
        0,
        total,
        draws,
        k1,
        depth,
    ));
}

/// `ext` begins with `log`.
pub open spec fn extends(ext: Seq<int>, log: Seq<int>) -> bool {
    &&& log.len() <= ext.len()
    &&& forall|i: int| 0 <= i < log.len() ==> ext[i] == log[i]
}

pub open spec fn record_result(r: Result<StatementRecord, CrawlError>) -> Result<RecordView, ()> {
    match r {
        Ok(rec) => Ok(rec@),
        Err(_) => Err(()),
    }
}

pub open spec fn plain_result<T>(r: Result<T, CrawlError>) -> Result<T, ()> {
    match r {
        Ok(x) => Ok(x),
        Err(_) => Err(()),
    }
}

pub open spec fn text_result(r: Result<String, CrawlError>) -> Result<Seq<char>, ()> {
    match r {
        Ok(s) => Ok(s@),
        Err(_) => Err(()),
    }
}

/// Runs statements: procedures and facts, loaded tables, and the dice.
///
/// Tables come in through [`Interpreter::provide_table`]: a `load table`
/// statement brings in the table provided under its name.
pub struct Interpreter {
    pub procedures: Vec<CrawlProcedure>,
    /// The names of the tables loaded.
    pub tables: Vec<String>,
    /// The tables that loading can bring in, by name.
    pub sources: Vec<(String, Table)>,
    pub persistent_facts: FactDatabase,
    pub local_facts: FactDatabase,
    pub dice: DiceSource,
    /// Every face drawn so far, in order.
    pub draws: Ghost<Seq<int>>,
}

impl Default for Interpreter {
    fn default() -> (r: Self)
        ensures
            r.well_formed(),
            r.sources@.len() == 0,
            r.draws@.len() == 0,
            r.state().procedures.len() == 0,
            r.state().loaded.is_empty(),
            r.state().persistent.is_empty(),
            r.state().local.is_empty(),
    {
        Self::new()
    }
}

impl Interpreter {
    pub open spec fn well_formed(&self) -> bool {
        &&& self.dice.well_formed()
        &&& forall|i: int| 0 <= i < self.sources@.len() ==> (#[trigger] self.sources@[i]).1.well_formed()
    }

    pub open spec fn state(&self) -> EvalState {
        EvalState {
            procedures: Seq::new(
                self.procedures@.len(),
                |i: int| (self.procedures@[i].identifier@, stmts_view(self.procedures@[i].body@)),
            ),
            loaded: Set::new(|n: Seq<char>| exists|i: int| 0 <= i < self.tables@.len() && self.tables@[i]@ == n),
            persistent: self.persistent_facts@,
            local: self.local_facts@,
        }
    }

    pub open spec fn sources_view(&self) -> Seq<(Seq<char>, Table)> {
        Seq::new(self.sources@.len(), |i: int| (self.sources@[i].0@, self.sources@[i].1))
    }

    /// Moving from `old` to `self` kept the tables provided and only added
    /// draws.
    pub open spec fn moved_on(&self, old: &Interpreter) -> bool {
        &&& self.well_formed()
        &&& self.sources == old.sources
        &&& self.dice.scripted@ == old.dice.scripted@
        &&& extends(self.draws@, old.draws@)
    }

    /// An interpreter with no procedures, tables or facts, whose dice fall
    /// at random.
    pub fn new() -> (r: Self)
        ensures
            r.well_formed(),
            r.sources@.len() == 0,
            r.draws@.len() == 0,
            r.state().procedures.len() == 0,
            r.state().loaded.is_empty(),
            r.state().persistent.is_empty(),
            r.state().local.is_empty(),
    {
        Self::with_draws(Vec::new())
    }

    /// An interpreter whose dice show the given faces first, in order (a
    /// face that does not fit its die is skipped for a random one).
    pub fn with_draws(draws: Vec<i32>) -> (r: Self)
        ensures
            r.well_formed(),
            r.dice.scripted@ == draws@,
            r.dice.next == 0,
            r.sources@.len() == 0,
            r.draws@.len() == 0,
            r.state().procedures.len() == 0,
            r.state().loaded.is_empty(),
            r.state().persistent.is_empty(),
            r.state().local.is_empty(),
    {
        let r = Interpreter {
            procedures: Vec::new(),
            tables: Vec::new(),
            sources: Vec::new(),
            persistent_facts: FactDatabase::default(),
            local_facts: FactDatabase::default(),
            dice: DiceSource::scripted(draws),
            draws: Ghost(Seq::empty()),
        };
        assert(r.state().loaded =~= Set::<Seq<char>>::empty());
        r
    }

    /// Makes `table` what loading `name` brings in, in place of any table
    /// provided under that name before.
    pub fn provide_table(&mut self, name: String, table: Table)
        requires
            old(self).well_formed(),
            table.well_formed(),
        ensures
            final(self).well_formed(),
            final(self).sources_view() == seq![(name@, table)] + old(self).sources_view(),
            final(self).state() == old(self).state(),
            final(self).draws == old(self).draws,
            final(self).dice == old(self).dice,
    {
        let ghost before = self.sources_view();
        let ghost name_view = name@;
        let ghost t = table;
        self.sources.insert(0, (name, table));
        assert(self.sources_view() =~= seq![(name_view, t)] + before);
    }

    /// Rolls `dice` with faces from the interpreter's dice, and notes them.
    fn roll(&mut self, dice: &DiceRoll) -> (r: i32)
        requires
            old(self).well_formed(),
            dice.well_formed(),
        ensures
            final(self).moved_on(old(self)),
            final(self).state() == old(self).state(),
            final(self).draws@.len() == old(self).draws@.len() + dice.dice_pool.dice@.len(),
            r == sum(final(self).draws@.subrange(old(self).draws@.len() as int, final(self).draws@.len() as int)) + dice.modifier,
    {
        let result = dice.roll_from(&mut self.dice);
        let ghost before = self.draws@;
        self.draws = Ghost(self.draws@ + result.pool_result.faces());
        assert(self.draws@.subrange(before.len() as int, self.draws@.len() as int) =~= result.pool_result.faces());
        result.total
    }

    /// The position of the first table provided under `name`.
    fn find_source(&self, name: &String) -> (r: usize)
        ensures
            r == source_index(self.sources_view(), name@, 0),
    {
        let mut i: usize = 0;
        while i < self.sources.len()
            invariant
                i <= self.sources@.len(),
                source_index(self.sources_view(), name@, 0) == source_index(self.sources_view(), name@, i as int),
            decreases self.sources@.len() - i,
        {
            if self.sources[i].0 == *name {
                return i;
            }
            i = i + 1;
        }
        i
    }

    /// The position of the first procedure named `name`.
    fn find_procedure_index(&self, name: &String) -> (r: usize)
        ensures
            r == find_procedure(self.state().procedures, name@, 0),
            r <= self.procedures@.len(),
    {
        let ghost ps = self.state().procedures;
        let mut k: usize = 0;
        while k < self.procedures.len()
            invariant
                k <= self.procedures@.len(),
                ps == self.state().procedures,
                find_procedure(ps, name@, 0) == find_procedure(ps, name@, k as int),
            decreases self.procedures@.len() - k,
        {
            if self.procedures[k].identifier == *name {
                assert(ps[k as int].0 == name@);
                return k;
            }
            k = k + 1;
        }
        k
    }

    /// Whether a table was loaded under `name`.
    fn is_loaded(&self, name: &String) -> (r: bool)
        ensures
            r == self.state().loaded.contains(name@),
    {
        let mut i: usize = 0;
        while i < self.tables.len()
            invariant
                i <= self.tables@.len(),
                forall|j: int| 0 <= j < i ==> self.tables@[j]@ != name@,
            decreases self.tables@.len() - i,
        {
            if self.tables[i] == *name {
                return true;
            }
            i = i + 1;
        }
        false
    }

    fn evaluate_antecedent(&mut self, antecedent: &Antecedent) -> (r: Result<bool, CrawlError>)
        requires
            old(self).well_formed(),
        ensures
            final(self).moved_on(old(self)),
            forall|ext: Seq<int>|
                #[trigger] extends(ext, final(self).draws@) ==> eval_antecedent(old(self).state(), antecedent_view(*antecedent), ext, old(self).draws@.len() as int) == (
                    final(self).state(),
                    plain_result(r),
                    final(self).draws@.len() as int,
                ),
    {
        match antecedent {
            Antecedent::CheckFact(text) => match Fact::parse(text.as_str()) {
                Ok(f) => Ok(self.local_facts.check(&f)),
                Err(e) => Err(e),
            },
            Antecedent::CheckPersistentFact(text) => match Fact::parse(text.as_str()) {
                Ok(f) => Ok(self.persistent_facts.check(&f)),
                Err(e) => Err(e),
            },
            Antecedent::DiceRoll { target, roll_specifier } => {
                let dice = match DiceRoll::from_specifier(roll_specifier) {
                    Ok(d) => d,
                    Err(e) => {
                        return Err(e);
                    },
                };
                let ghost k = self.draws@.len() as int;
                let total = self.roll(&dice);
                let r = Self::roll_result_matches_target(total, target);
                proof {
                    assert forall|ext: Seq<int>| #[trigger] extends(ext, self.draws@) implies ext.subrange(
                        k,
                        self.draws@.len() as int,
                    ) == self.draws@.subrange(k, self.draws@.len() as int) by {
                        assert(ext.subrange(k, self.draws@.len() as int) =~= self.draws@.subrange(
                            k,
                            self.draws@.len() as int,
                        ));
                    }
                }
                r
            },
        }
    }

    fn evaluate_set_persistent_fact(&mut self, fact: &String) -> (r: Result<StatementRecord, CrawlError>)
        requires
            old(self).well_formed(),
        ensures
            final(self).moved_on(old(self)),
            forall|ext: Seq<int>|
                #[trigger] extends(ext, final(self).draws@) ==> eval_statement(
                    old(self).sources_view(),
                    old(self).state(),
                    StatementView::SetPersistentFact(fact@),
                    ext,
                    old(self).draws@.len() as int,
                    0,
                ) == (
                    final(self).state(),
                    record_result(r),
                    final(self).draws@.len() as int,
                ),
    {
        match Fact::parse(fact.as_str()) {
            Ok(f) => {
                self.persistent_facts.set(f);
                Ok(StatementRecord::SetPersistentFact(fact.clone()))
            },
            Err(e) => Err(e),
        }
    }

    fn evaluate_clear_persistent_fact(&mut self, fact: &String) -> (r: Result<StatementRecord, CrawlError>)
        requires
            old(self).well_formed(),
        ensures
            final(self).moved_on(old(self)),
            forall|ext: Seq<int>|
                #[trigger] extends(ext, final(self).draws@) ==> eval_statement(
                    old(self).sources_view(),
                    old(self).state(),
                    StatementView::ClearPersistentFact(fact@),
                    ext,
                    old(self).draws@.len() as int,
                    0,
                ) == (
                    final(self).state(),
                    record_result(r),
                    final(self).draws@.len() as int,
                ),
    {
        match Fact::parse(fact.as_str()) {
            Ok(f) => {
                self.persistent_facts.clear(&f);
                Ok(StatementRecord::ClearPersistentFact(fact.clone()))
            },
            Err(e) => Err(e),
        }
    }

    fn evaluate_clear_fact(&mut self, fact: &String) -> (r: Result<StatementRecord, CrawlError>)
        requires
            old(self).well_formed(),
        ensures
            final(self).moved_on(old(self)),
            forall|ext: Seq<int>|
                #[trigger] extends(ext, final(self).draws@) ==> eval_statement(
                    old(self).sources_view(),
                    old(self).state(),
                    StatementView::ClearFact(fact@),
                    ext,
                    old(self).draws@.len() as int,
                    0,
                ) == (
                    final(self).state(),
                    record_result(r),
                    final(self).draws@.len() as int,
                ),
    {
        match Fact::parse(fact.as_str()) {
            Ok(f) => {
                self.local_facts.clear(&f);
                Ok(StatementRecord::ClearFact(fact.clone()))
            },
            Err(e) => Err(e),
        }
    }

    fn evaluate_reminder(&self, reminder: &String) -> (r: Result<StatementRecord, CrawlError>)
        ensures
            r matches Ok(rec) && rec@ == RecordView::Reminder(reminder@),
    {
        Ok(StatementRecord::Reminder(reminder.clone()))
    }

    fn evaluate_nontargeted_roll(&mut self, spec: &ModifiedRollSpecifier) -> (r: Result<StatementRecord, CrawlError>)
        requires
            old(self).well_formed(),
        ensures
            final(self).moved_on(old(self)),
            forall|ext: Seq<int>|
                #[trigger] extends(ext, final(self).draws@) ==> eval_statement(
                    old(self).sources_view(),
                    old(self).state(),
                    StatementView::NontargetedRoll(specifier_view(*spec)),
                    ext,
                    old(self).draws@.len() as int,
                    0,
                ) == (
                    final(self).state(),
                    record_result(r),
                    final(self).draws@.len() as int,
                ),
    {
        let dice = match DiceRoll::from_specifier(spec) {
            Ok(d) => d,
            Err(e) => {
                return Err(e);
            },
        };
        let ghost k = self.draws@.len() as int;
        let total = self.roll(&dice);
        proof {
            assert forall|ext: Seq<int>| #[trigger] extends(ext, self.draws@) implies ext.subrange(
                k,
                self.draws@.len() as int,
            ) == self.draws@.subrange(k, self.draws@.len() as int) by {
                assert(ext.subrange(k, self.draws@.len() as int) =~= self.draws@.subrange(
                    k,
                    self.draws@.len() as int,
                ));
            }
        }
        Ok(StatementRecord::NontargetedRoll(total))
    }

    fn evaluate_load_table(&mut self, table_name: &String) -> (r: Result<StatementRecord, CrawlError>)
        requires
            old(self).well_formed(),
        ensures
            final(self).moved_on(old(self)),
            forall|ext: Seq<int>|
                #[trigger] extends(ext, final(self).draws@) ==> eval_statement(
                    old(self).sources_view(),
                    old(self).state(),
                    StatementView::LoadTable(table_name@),
                    ext,
                    old(self).draws@.len() as int,
                    0,
                ) == (
                    final(self).state(),
                    record_result(r),
                    final(self).draws@.len() as int,
                ),
    {
        let i = self.find_source(table_name);
        if i >= self.sources.len() {
            return Err(CrawlError::InterpreterError { reason: String::from_str("Failed to load table") });
        }
        let ghost before = self.state();
        let ghost old_tables = self.tables@;
        self.tables.push(table_name.clone());
        proof {
            assert forall|n: Seq<char>| #[trigger] self.state().loaded.contains(n) == before.loaded.insert(
                table_name@,
            ).contains(n) by {
                if before.loaded.contains(n) {
                    let j = choose|j: int| 0 <= j < old_tables.len() && old_tables[j]@ == n;
                    assert(self.tables@[j] == old_tables[j]);
                }
                if n == table_name@ {
                    assert(self.tables@[old_tables.len() as int]@ == n);
                }
                if self.state().loaded.contains(n) {
                    let j = choose|j: int| 0 <= j < self.tables@.len() && self.tables@[j]@ == n;
                    if j < old_tables.len() {
                        assert(self.tables@[j] == old_tables[j]);
                    }
                }
            }
            assert(self.state().loaded =~= before.loaded.insert(table_name@));
        }
        Ok(StatementRecord::LoadTable(table_name.clone()))
    }

    fn evaluate_table_roll(&mut self, table_name: &String) -> (r: Result<StatementRecord, CrawlError>)
        requires
            old(self).well_formed(),
        ensures
            final(self).moved_on(old(self)),
            forall|ext: Seq<int>|
                #[trigger] extends(ext, final(self).draws@) ==> eval_statement(
                    old(self).sources_view(),
                    old(self).state(),
                    StatementView::TableRoll(table_name@),
                    ext,
                    old(self).draws@.len() as int,
                    0,
                ) == (
                    final(self).state(),
                    record_result(r),
                    final(self).draws@.len() as int,
                ),
    {
        let i = self.find_source(table_name);
        if i >= self.sources.len() {
            return Err(CrawlError::InterpreterError { reason: String::from_str("no table of that name") });
        }
        if !self.is_loaded(table_name) {
            return Err(CrawlError::InterpreterError { reason: String::from_str("table not loaded") });
        }
        let max = self.sources[i].1.max_target;
        if max < 1 {
            return Err(CrawlError::InterpreterError { reason: String::from_str("table has no total a die can show") });
        }
        assert(self.sources@[i as int].1.well_formed());
        let face = self.dice.draw(max);
        self.draws = Ghost(self.draws@.push(face as int));
        match self.sources[i].1.lookup(face) {
            Ok(res) => Ok(StatementRecord::TableRoll(res.entry.value)),
            Err(e) => Err(e),
        }
    }

    /// Evaluates one statement, with `depth` further procedure calls
    /// allowed. A failure leaves the effects made before it.
    pub fn evaluate_statement(&mut self, statement: &Statement, depth: usize) -> (r: Result<StatementRecord, CrawlError>)
        requires
            old(self).well_formed(),
        ensures
            final(self).moved_on(old(self)),
            forall|ext: Seq<int>|
                #[trigger] extends(ext, final(self).draws@) ==> eval_statement(
                    old(self).sources_view(),
                    old(self).state(),
                    statement@,
                    ext,
                    old(self).draws@.len() as int,
                    depth as nat,
                ) == (
                    final(self).state(),
                    record_result(r),
                    final(self).draws@.len() as int,
                ),
        decreases depth, statement, 1int,
    {
        let ghost src = self.sources_view();
        let ghost st = self.state();
        let ghost k = self.draws@.len() as int;
        let r = match statement {
            Statement::ClearFact(fact) => self.evaluate_clear_fact(fact),
            Statement::ClearPersistentFact(fact) => self.evaluate_clear_persistent_fact(fact),
            Statement::IfThen { antecedent, consequent } => self.evaluate_if_then(antecedent, consequent, depth),
            Statement::LoadTable(table_name) => self.evaluate_load_table(table_name),
            Statement::MatchingRoll { roll_specifier, arms } => {
                proof {
                    assert(statement@->MatchingRoll_1 =~= arms_view(arms@));
                }
                self.evaluate_matching_roll(roll_specifier, arms, depth)
            },
            Statement::Procedure { declaration, body } => {
                proof {
                    assert(statement@->Procedure_1 =~= body_view(body@));
                }
                self.evaluate_procedure_definition(declaration, body)
            },
            Statement::ProcedureCall(_) => {
                if depth == 0 {
                    Err(CrawlError::InterpreterError { reason: String::from_str("procedure calls nest too deeply") })
                } else {
                    self.evaluate_procedure_call(statement, depth)
                }
            },
            Statement::Reminder(reminder) => self.evaluate_reminder(reminder),
            Statement::SetFact(fact) => self.evaluate_set_fact(fact, depth),
            Statement::SetPersistentFact(fact) => self.evaluate_set_persistent_fact(fact),
            Statement::TableRoll(table_name) => self.evaluate_table_roll(table_name),
            Statement::NontargetedRoll(spec) => self.evaluate_nontargeted_roll(spec),
        };
        proof {
            assert forall|ext: Seq<int>| #[trigger] extends(ext, self.draws@) implies eval_statement(
                src,
                st,
                statement@,
                ext,
                k,
                depth as nat,
            ) == (self.state(), record_result(r), self.draws@.len() as int) by {
                match statement {
                    Statement::ProcedureCall(_) | Statement::IfThen { .. } | Statement::MatchingRoll {
                        ..
                    } | Statement::SetFact(_) => {},
                    _ => {
                        assert(eval_statement(src, st, statement@, ext, k, depth as nat) == eval_statement(
                            src,
                            st,
                            statement@,
                            ext,
                            k,
                            0,
                        ));
                    },
                }
            }
        }
        r
    }

    /// Calls the procedure that `call` names, with `depth - 1` further
    /// calls allowed inside it. The local facts are as before once it
    /// returns.
    fn evaluate_procedure_call(&mut self, call: &Statement, depth: usize) -> (r: Result<StatementRecord, CrawlError>)
        requires
            old(self).well_formed(),
            call is ProcedureCall,
            depth >= 1,
        ensures
            final(self).moved_on(old(self)),
            forall|ext: Seq<int>|
                #[trigger] extends(ext, final(self).draws@) ==> eval_statement(
                    old(self).sources_view(),
                    old(self).state(),
                    call@,
                    ext,
                    old(self).draws@.len() as int,
                    depth as nat,
                ) == (
                    final(self).state(),
                    record_result(r),
                    final(self).draws@.len() as int,
                ),
        decreases depth, call, 0int,
    {
        let name = match call {
            Statement::ProcedureCall(n) => n,
            _ => {
                return Err(CrawlError::InterpreterError { reason: String::from_str("not a procedure call") });
            },
        };
        let ghost st0 = self.state();
        let ghost k0 = self.draws@.len() as int;
        let idx = self.find_procedure_index(name);
        if idx >= self.procedures.len() {
            return Err(CrawlError::InterpreterError { reason: String::from_str("undefined procedure") });
        }
        let ghost bv = st0.procedures[idx as int].1;
        let mut body: Vec<Statement> = Vec::new();
        let mut j: usize = 0;
        while j < self.procedures[idx].body.len()
            invariant
                idx < self.procedures@.len(),
                st0 == self.state(),
                j <= self.procedures@[idx as int].body@.len(),
                body@.len() == j,
                forall|m: int| 0 <= m < j ==> (#[trigger] body@[m])@ == self.procedures@[idx as int].body@[m]@,
            decreases self.procedures@[idx as int].body@.len() - j,
        {
            body.push(self.procedures[idx].body[j].duplicate());
            j = j + 1;
        }
        assert(stmts_view(body@) =~= bv);
        let saved = self.local_facts.duplicate();
        let mut records: Vec<Box<StatementRecord>> = Vec::new();
        let mut i: usize = 0;
        assert(records_view(records@) =~= Seq::<RecordView>::empty());
        while i < body.len()
            invariant
                self.moved_on(old(self)),
                st0 == old(self).state(),
                k0 == old(self).draws@.len(),
                saved@ == st0.local,
                bv == stmts_view(body@),
                depth >= 1,
                call@ == StatementView::ProcedureCall(name@),
                procedure_body(st0.procedures, name@) == Some(bv),
                i <= body@.len(),
                records@.len() == i,
                forall|ext: Seq<int>|
                    #[trigger] extends(ext, self.draws@) ==> eval_body(
                        old(self).sources_view(),
                        st0,
                        bv,
                        0,
                        Seq::empty(),
                        ext,
                        k0,
                        (depth - 1) as nat,
                    ) == eval_body(
                        old(self).sources_view(),
                        self.state(),
                        bv,
                        i as int,
                        records_view(records@),
                        ext,
                        self.draws@.len() as int,
                        (depth - 1) as nat,
                    ),
            decreases body@.len() - i,
        {
            let ghost log = self.draws@;
            let ghost before = records@;
            match self.evaluate_statement(&body[i], depth - 1) {
                Ok(rec) => {
                    records.push(Box::new(rec));
                    proof {
                        assert(records_view(records@) =~= records_view(before).push(rec@));
                        assert forall|ext: Seq<int>| #[trigger] extends(ext, self.draws@) implies extends(ext, log) by {}
                    }
                },
                Err(e) => {
                    self.local_facts = saved;
                    proof {
                        assert forall|ext: Seq<int>| #[trigger] extends(ext, self.draws@) implies extends(ext, log) by {}
                    }
                    return Err(e);
                },
            }
            i = i + 1;
        }
        self.local_facts = saved;
        let r = StatementRecord::ProcedureCall { identifier: name.clone(), records };
        proof {
            assert(r@->ProcedureCall_1 =~= records_view(records@));
        }
        Ok(r)
    }

    /// Evaluates each statement in order, each at the full call depth. A
    /// failure is reported in its place and does not stop the next one.
    pub fn interpret(&mut self, statements: Vec<Statement>) -> (r: Vec<Result<StatementRecord, CrawlError>>)
        requires
            old(self).well_formed(),
        ensures
            final(self).moved_on(old(self)),
            forall|ext: Seq<int>|
                #[trigger] extends(ext, final(self).draws@) ==> eval_all(
                    old(self).sources_view(),
                    old(self).state(),
                    stmts_view(statements@),
                    0,
                    Seq::empty(),
                    ext,
                    old(self).draws@.len() as int,
                ) == (
                    final(self).state(),
                    r@.map_values(|x: Result<StatementRecord, CrawlError>| record_result(x)),
                    final(self).draws@.len() as int,
                ),
    {
        let ghost sv = stmts_view(statements@);
        let ghost st0 = self.state();
        let ghost k0 = self.draws@.len() as int;
        let mut records: Vec<Result<StatementRecord, CrawlError>> = Vec::new();
        let mut i: usize = 0;
        assert(records@.map_values(|x: Result<StatementRecord, CrawlError>| record_result(x)) =~= Seq::<
            Result<RecordView, ()>,
        >::empty());
        while i < statements.len()
            invariant
                self.moved_on(old(self)),
                st0 == old(self).state(),
                k0 == old(self).draws@.len(),
                sv == stmts_view(statements@),
                i <= statements@.len(),
                records@.len() == i,
                forall|ext: Seq<int>|
                    #[trigger] extends(ext, self.draws@) ==> eval_all(
                        old(self).sources_view(),
                        st0,
                        sv,
                        0,
                        Seq::empty(),
                        ext,
                        k0,
                    ) == eval_all(
                        old(self).sources_view(),
                        self.state(),
                        sv,
                        i as int,
                        records@.map_values(|x: Result<StatementRecord, CrawlError>| record_result(x)),
                        ext,
                        self.draws@.len() as int,
                    ),
            decreases statements@.len() - i,
        {
            let ghost log = self.draws@;
            let ghost before = records@;
            let r = self.evaluate_statement(&statements[i], MAX_CALL_DEPTH);
            records.push(r);
            proof {
                assert(records@.map_values(|x: Result<StatementRecord, CrawlError>| record_result(x)) =~= before.map_values(
                    |x: Result<StatementRecord, CrawlError>| record_result(x),
                ).push(record_result(r)));
                assert forall|ext: Seq<int>| #[trigger] extends(ext, self.draws@) implies extends(ext, log) by {}
            }
            i = i + 1;
        }
        records
    }

    /// The text that a record puts in a placeholder.
    fn render_record(rec: &StatementRecord) -> (r: Option<String>)
        ensures
            match (r, record_text(rec@)) {
                (Some(x), Some(v)) => x@ == v,
                (None, None) => true,
                _ => false,
            },
    {
        match rec {
            StatementRecord::NontargetedRoll(n) => {
                let mut out = String::from_str("NontargetedRoll(");
                push_int(&mut out, *n);
                out.append(")");
                Some(out)
            },
            StatementRecord::TableRoll(v) => {
                let mut out = String::from_str("TableRoll(\"");
                out.append(v.as_str());
                out.append("\")");
                Some(out)
            },
            _ => None,
        }
    }

    /// `text` with its first `{}` replaced by `value`.
    fn fill_placeholder_text(text: &String, value: &String) -> (r: String)
        ensures
            r@ == fill_placeholder(text@, value@),
    {
        let cs = chars_of(text.as_str());
        let n = cs.len();
        let mut i: usize = 0;
        while i < n && i + 1 < n && !(cs[i] == '{' && cs[i + 1] == '}')
            invariant
                n == cs@.len(),
                cs@ == text@,
                i <= n,
                placeholder_from(cs@, 0) == placeholder_from(cs@, i as int),
            decreases n - i,
        {
            i = i + 1;
        }
        if i < n && i + 1 < n {
            let mut out = string_of(&cs, 0, i);
            out.append(value.as_str());
            let rest = string_of(&cs, i + 2, n);
            out.append(rest.as_str());
            assert(cs@.subrange(0, i as int) =~= cs@.take(i as int));
            assert(cs@.subrange(i + 2, n as int) =~= cs@.skip(i + 2));
            out
        } else {
            text.clone()
        }
    }

    /// Evaluates a string, filling its placeholders.
    fn evaluate_str(&mut self, cs: &CrawlStr, depth: usize) -> (r: Result<String, CrawlError>)
        requires
            old(self).well_formed(),
        ensures
            final(self).moved_on(old(self)),
            forall|ext: Seq<int>|
                #[trigger] extends(ext, final(self).draws@) ==> eval_str(
                    old(self).sources_view(),
                    old(self).state(),
                    crawl_str_view(*cs),
                    ext,
                    old(self).draws@.len() as int,
                    depth as nat,
                ) == (
                    final(self).state(),
                    text_result(r),
                    final(self).draws@.len() as int,
                ),
        decreases depth, cs, 2int,
    {
        match cs {
            CrawlStr::Str(text) => Ok(text.clone()),
            CrawlStr::InterpolatedStr { format_string, expressions } => {
                let ghost exprs = crawl_str_view(*cs)->Interpolated_1;
                let ghost st0 = self.state();
                let ghost k0 = self.draws@.len() as int;
                proof {
                    assert(exprs =~= crate::interpreter::stmts_view(expressions@));
                    assert forall|j: int| 0 <= j < expressions@.len() implies decreases_to!(*cs => #[trigger] expressions@[j]) by {
                        assert(decreases_to!(*cs => *expressions));
                        assert(decreases_to!(*expressions => expressions@));
                        assert(decreases_to!(expressions@ => expressions@[j]));
                    }
                }
                let mut text = format_string.clone();
                let mut i: usize = 0;
                while i < expressions.len()
                    invariant
                        self.moved_on(old(self)),
                        st0 == old(self).state(),
                        k0 == old(self).draws@.len(),
                        exprs == stmts_view(expressions@),
                        crawl_str_view(*cs) == CrawlStrView::Interpolated(format_string@, exprs),
                        i <= expressions@.len(),
                        forall|j: int| 0 <= j < expressions@.len() ==> decreases_to!(*cs => #[trigger] expressions@[j]),
                        forall|ext: Seq<int>|
                            #[trigger] extends(ext, self.draws@) ==> eval_exprs(
                                old(self).sources_view(),
                                st0,
                                exprs,
                                0,
                                format_string@,
                                ext,
                                k0,
                                depth as nat,
                            ) == eval_exprs(
                                old(self).sources_view(),
                                self.state(),
                                exprs,
                                i as int,
                                text@,
                                ext,
                                self.draws@.len() as int,
                                depth as nat,
                            ),
                    decreases expressions@.len() - i,
                {
                    let ghost log = self.draws@;
                    let ghost sti = self.state();
                    let rec = match self.evaluate_statement(&expressions[i], depth) {
                        Ok(rec) => rec,
                        Err(e) => {
                            proof {
                                assert forall|ext: Seq<int>| #[trigger] extends(ext, self.draws@) implies extends(ext, log) by {}
                            }
                            return Err(e);
                        },
                    };
                    let rendered = match Self::render_record(&rec) {
                        Some(x) => x,
                        None => {
                            proof {
                                assert forall|ext: Seq<int>| #[trigger] extends(ext, self.draws@) implies extends(ext, log) by {}
                            }
                            return Err(CrawlError::InterpreterError { reason: String::from_str("value cannot fill a placeholder") });
                        },
                    };
                    text = Self::fill_placeholder_text(&text, &rendered);
                    proof {
                        assert forall|ext: Seq<int>| #[trigger] extends(ext, self.draws@) implies extends(ext, log) by {}
                    }
                    i = i + 1;
                }
                Ok(text)
            },
        }
    }

    fn evaluate_set_fact(&mut self, fact: &CrawlStr, depth: usize) -> (r: Result<StatementRecord, CrawlError>)
        requires
            old(self).well_formed(),
        ensures
            final(self).moved_on(old(self)),
            forall|ext: Seq<int>|
                #[trigger] extends(ext, final(self).draws@) ==> eval_statement(
                    old(self).sources_view(),
                    old(self).state(),
                    StatementView::SetFact(crawl_str_view(*fact)),
                    ext,
                    old(self).draws@.len() as int,
                    depth as nat,
                ) == (
                    final(self).state(),
                    record_result(r),
                    final(self).draws@.len() as int,
                ),
        decreases depth, fact, 3int,
    {
        let text = match self.evaluate_str(fact, depth) {
            Ok(t) => t,
            Err(e) => {
                return Err(e);
            },
        };
        match Fact::parse(text.as_str()) {
            Ok(f) => {
                self.local_facts.set(f);
                Ok(StatementRecord::SetFact(text))
            },
            Err(e) => Err(e),
        }
    }

    fn evaluate_if_then(&mut self, antecedent: &Antecedent, consequent: &Statement, depth: usize) -> (r: Result<StatementRecord, CrawlError>)
        requires
            old(self).well_formed(),
        ensures
            final(self).moved_on(old(self)),
            forall|ext: Seq<int>|
                #[trigger] extends(ext, final(self).draws@) ==> eval_statement(
                    old(self).sources_view(),
                    old(self).state(),
                    StatementView::IfThen(antecedent_view(*antecedent), Box::new(consequent@)),
                    ext,
                    old(self).draws@.len() as int,
                    depth as nat,
                ) == (
                    final(self).state(),
                    record_result(r),
                    final(self).draws@.len() as int,
                ),
        decreases depth, consequent, 2int,
    {
        let ghost log0 = self.draws@;
        let holds = match self.evaluate_antecedent(antecedent) {
            Ok(b) => b,
            Err(e) => {
                return Err(e);
            },
        };
        if !holds {
            return Ok(StatementRecord::IfThen { antecedent: false, consequent: None });
        }
        if !Self::is_consequent(consequent) {
            return Err(CrawlError::InterpreterError { reason: String::from_str("Invalid statement as consequent") });
        }
        let ghost log1 = self.draws@;
        let r = match self.evaluate_statement(consequent, depth) {
            Ok(rec) => Ok(StatementRecord::IfThen { antecedent: true, consequent: Some(Box::new(rec)) }),
            Err(e) => Err(e),
        };
        proof {
            assert forall|ext: Seq<int>| #[trigger] extends(ext, self.draws@) implies extends(ext, log1) by {}
        }
        r
    }

    /// Whether `s` may follow `=>`.
    fn is_consequent(s: &Statement) -> (r: bool)
        ensures
            r == is_consequent(s@),
    {
        match s {
            Statement::ClearFact(_) | Statement::ClearPersistentFact(_) | Statement::ProcedureCall(_)
            | Statement::SetFact(_) | Statement::SetPersistentFact(_) | Statement::Reminder(_)
            | Statement::TableRoll(_) => true,
            _ => false,
        }
    }

    fn evaluate_matching_roll(&mut self, spec: &ModifiedRollSpecifier, arms: &Vec<MatchingRollArm>, depth: usize) -> (r: Result<StatementRecord, CrawlError>)
        requires
            old(self).well_formed(),
        ensures
            final(self).moved_on(old(self)),
            forall|ext: Seq<int>|
                #[trigger] extends(ext, final(self).draws@) ==> eval_statement(
                    old(self).sources_view(),
                    old(self).state(),
                    StatementView::MatchingRoll(specifier_view(*spec), arms_view(arms@)),
                    ext,
                    old(self).draws@.len() as int,
                    depth as nat,
                ) == (
                    final(self).state(),
                    record_result(r),
                    final(self).draws@.len() as int,
                ),
        decreases depth, arms, 2int,
    {
        let dice = match DiceRoll::from_specifier(spec) {
            Ok(d) => d,
            Err(e) => {
                return Err(e);
            },
        };
        let ghost k0 = self.draws@.len() as int;
        let total = self.roll(&dice);
        let ghost k1 = self.draws@.len() as int;
        let ghost st0 = self.state();
        let ghost av = arms_view(arms@);
        proof {
            assert forall|ext: Seq<int>| #[trigger] extends(ext, self.draws@) implies ext.subrange(k0, k1)
                == self.draws@.subrange(k0, k1) by {
                assert(ext.subrange(k0, k1) =~= self.draws@.subrange(k0, k1));
            }
            assert forall|j: int| 0 <= j < arms@.len() implies decreases_to!(*arms => (#[trigger] arms@[j]).consequent) by {
                assert(decreases_to!(*arms => arms@));
                assert(decreases_to!(arms@ => arms@[j]));
            }
        }
        let mut i: usize = 0;
        while i < arms.len()
            invariant
                self.moved_on(old(self)),
                self.state() == st0,
                st0 == old(self).state(),
                k0 == old(self).draws@.len(),
                self.draws@.len() == k1,
                i <= arms@.len(),
                av == arms_view(arms@),
                forall|j: int| 0 <= j < arms@.len() ==> decreases_to!(*arms => (#[trigger] arms@[j]).consequent),
                forall|ext: Seq<int>|
                    #[trigger] extends(ext, self.draws@) ==> eval_statement(
                        old(self).sources_view(),
                        st0,
                        StatementView::MatchingRoll(specifier_view(*spec), av),
                        ext,
                        k0,
                        depth as nat,
                    ) == eval_arms(old(self).sources_view(), st0, av, i as int, total as int, ext, k1, depth as nat),
            decreases arms@.len() - i,
        {
            let hit = match Self::roll_result_matches_target(total, &arms[i].target) {
                Ok(b) => b,
                Err(e) => {
                    return Err(e);
                },
            };
            if hit {
                if !Self::is_consequent(&arms[i].consequent) {
                    return Err(CrawlError::InterpreterError { reason: String::from_str("Invalid statement as consequent") });
                }
                let ghost log1 = self.draws@;
                let target = arms[i].target.duplicate();
                let r = match self.evaluate_statement(&arms[i].consequent, depth) {
                    Ok(rec) => Ok(StatementRecord::MatchingRoll { matched_target: Some(target), consequent: Some(Box::new(rec)) }),
                    Err(e) => Err(e),
                };
                proof {
                    assert forall|ext: Seq<int>| #[trigger] extends(ext, self.draws@) implies extends(ext, log1) by {}
                }
                return r;
            }
            i = i + 1;
        }
        Ok(StatementRecord::MatchingRoll { matched_target: None, consequent: None })
    }

    fn evaluate_procedure_definition(&mut self, declaration: &ProcedureDeclaration, body: &Vec<Box<Statement>>) -> (r: Result<StatementRecord, CrawlError>)
        requires
            old(self).well_formed(),
        ensures
            final(self).moved_on(old(self)),
            forall|ext: Seq<int>|
                #[trigger] extends(ext, final(self).draws@) ==> eval_statement(
                    old(self).sources_view(),
                    old(self).state(),
                    StatementView::Procedure(declaration.0@, body_view(body@)),
                    ext,
                    old(self).draws@.len() as int,
                    0,
                ) == (
                    final(self).state(),
                    record_result(r),
                    final(self).draws@.len() as int,
                ),
    {
        let mut copies: Vec<Statement> = Vec::new();
        let mut i: usize = 0;
        while i < body.len()
            invariant
                i <= body@.len(),
                copies@.len() == i,
                forall|j: int| 0 <= j < i ==> (#[trigger] copies@[j])@ == (*body@[j])@,
            decreases body@.len() - i,
        {
            copies.push(body[i].duplicate());
            i = i + 1;
        }
        assert(stmts_view(copies@) =~= body_view(body@));
        let name = &declaration.0;
        let ghost before = self.state().procedures;
        let k = self.find_procedure_index(name);
        let ghost bv = stmts_view(copies@);
        let procedure = CrawlProcedure::new(name.clone(), copies);
        let ghost old_procs = self.procedures@;
        let ghost pv = procedure;
        if k < self.procedures.len() {
            self.procedures.set(k, procedure);
            assert(self.procedures@ == old_procs.update(k as int, pv));
        } else {
            self.procedures.push(procedure);
            assert(self.procedures@ == old_procs.push(pv));
        }
        proof {
            let after = self.state().procedures;
            let expected = define(before, name@, bv);
            assert(after.len() == expected.len());
            assert forall|j: int| 0 <= j < after.len() implies after[j] == expected[j] by {
                if j != k {
                    assert(self.procedures@[j] == old_procs[j]);
                }
            }
            assert(after =~= expected);
        }
        Ok(StatementRecord::ProcedureDefinition(name.clone()))
    }

    /// Whether `total` hits `target`, a number or a range.
    fn roll_result_matches_target(total: i32, target: &Token) -> (r: Result<bool, CrawlError>)
        ensures
            plain_result(r) == match hits(target@, total as int) {
                Some(b) => Ok::<bool, ()>(b),
                None => Err(()),
            },
    {
        match target {
            Token::Num(n) => Ok(total == *n),
            Token::NumRange(low, high) => Ok(*low <= total && total <= *high),
            _ => Err(CrawlError::InterpreterError { reason: String::from_str("invalid roll target") }),
        }
    }
}

} // verus!
