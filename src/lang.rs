//! The whole pipeline: source text to statements, ready to run.
use crate::error::CrawlError;
use crate::parser::{parse_from, result_view, Parser, Statement, StatementView};
use crate::scanner::{scan, scan_item, ScanItem, Scanner, Token, TokenView};
use crate::text::chars_of;
use vstd::prelude::*;

verus! {

/// The tokens of a scan with no lexical error.
pub open spec fn scanned_tokens(items: Seq<ScanItem>) -> Seq<TokenView> {
    items.map_values(|x: ScanItem| x->Ok_0)
}

/// The statements of a parse with no parser error.
pub open spec fn parsed_statements(items: Seq<Result<StatementView, ()>>) -> Seq<StatementView> {
    items.map_values(|x: Result<StatementView, ()>| x->Ok_0)
}

/// The language's pipeline, from text to statements.
pub struct Crawl;

impl Crawl {
    pub fn new() -> Self {
        Crawl
    }

    /// Scans and parses `source`: its statements, or the first lexical
    /// error, or else the first parser error.
    pub fn parse_source(&self, source: &str) -> (r: Result<Vec<Statement>, CrawlError>)
        ensures
            ({
                let items = scan(source@);
                let parsed = parse_from(scanned_tokens(items), 0);
                &&& r is Ok <==> (forall|i: int| 0 <= i < items.len() ==> items[i] is Ok) && (forall|
                    i: int,
                | 0 <= i < parsed.len() ==> parsed[i] is Ok)
                &&& r matches Ok(stmts) ==> stmts@.map_values(|s: Statement| s@) == parsed_statements(
                    parsed,
                )
                &&& r matches Err(e) ==> (e.is_scanner_error() || e.is_parser_error())
            }),
    {
        let chars = chars_of(source);
        let mut scanner = Scanner::new(chars);
        let scanned = scanner.tokens();
        let ghost items = scan(source@);
        proof {
            assert(items == scanned@.map_values(|x: Result<Token, CrawlError>| scan_item(x)));
        }
        let mut tokens: Vec<Token> = Vec::new();
        let mut i: usize = 0;
        while i < scanned.len()
            invariant
                items == scan(source@),
                items == scanned@.map_values(|x: Result<Token, CrawlError>| scan_item(x)),
                i <= scanned@.len(),
                tokens@.len() == i,
                forall|j: int| 0 <= j < i ==> items[j] is Ok,
                forall|j: int|
                    0 <= j < scanned@.len() ==> (#[trigger] scanned@[j] matches Err(e) ==> e.is_scanner_error()),
                forall|j: int| 0 <= j < i ==> (#[trigger] tokens@[j])@ == items[j]->Ok_0,
            decreases scanned@.len() - i,
        {
            match &scanned[i] {
                Ok(t) => {
                    tokens.push(t.duplicate());
                },
                Err(e) => {
                    assert(items[i as int] is Err);
                    return Err(e.duplicate());
                },
            }
            i = i + 1;
        }
        proof {
            assert(tokens@.map_values(|t: Token| t@) =~= scanned_tokens(items));
        }
        let mut parser = Parser::new(tokens);
        let results = parser.parse();
        let ghost parsed = parse_from(scanned_tokens(items), 0);
        let mut statements: Vec<Statement> = Vec::new();
        let mut results = results;
        let ghost all = results@;
        assert(all.map_values(|x: Result<Statement, CrawlError>| result_view(x)) == parsed);
        let mut j: usize = 0;
        let n = results.len();
        while j < n
            invariant
                items == scan(source@),
                parsed == parse_from(scanned_tokens(items), 0),
                all.map_values(|x: Result<Statement, CrawlError>| result_view(x)) == parsed,
                forall|m: int| 0 <= m < all.len() ==> crate::parser::fails_as_parser(#[trigger] all[m]),
                n == all.len(),
                results@.len() == n - j,
                forall|m: int| 0 <= m < results@.len() ==> #[trigger] results@[m] == all[m + j],
                j <= n,
                statements@.len() == j,
                forall|m: int| 0 <= m < j ==> parsed[m] is Ok,
                forall|m: int| 0 <= m < items.len() ==> items[m] is Ok,
                forall|m: int| 0 <= m < j ==> (#[trigger] statements@[m])@ == parsed[m]->Ok_0,
            decreases n - j,
        {
            let first = results.remove(0);
            assert(first == all[j as int]);
            match first {
                Ok(s) => {
                    statements.push(s);
                },
                Err(e) => {
                    assert(parsed[j as int] is Err);
                    assert(crate::parser::fails_as_parser(all[j as int]));
                    assert(e.is_parser_error());
                    return Err(e);
                },
            }
            j = j + 1;
        }
        proof {
            assert(statements@.map_values(|s: Statement| s@) =~= parsed_statements(parsed));
        }
        Ok(statements)
    }
}

} // verus!
