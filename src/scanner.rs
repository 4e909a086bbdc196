//! The scanner: source characters to tokens.
use crate::error::CrawlError;
use crate::text::{
    copy_range, decimal_i32, find_char, first_index, index_from, is_digit, parse_decimal, push_int,
    string_of, text_is,
};
use vstd::prelude::*;

verus! {

/// Whether `c` has the Unicode Alphabetic property.
pub uninterp spec fn alphabetic(c: char) -> bool;

/// Relies on `char::is_alphabetic`: whether `c` has the Unicode Alphabetic
/// property.
#[verifier::external_body]
fn is_alphabetic(c: char) -> (r: bool)
    ensures
        r == alphabetic(c),
{
    c.is_alphabetic()
}

/// A token of the language.
#[derive(Debug, Clone, PartialEq, Eq)]
pub enum Token {
    Arrow,
    ClearFact,
    ClearPersistentFact,
    End,
    Eof,
    FactTest,
    Identifier(String),
    If,
    Indent,
    Load,
    Minus,
    Newline,
    Num(i32),
    NumRange(i32, i32),
    On,
    Percent,
    PersistentFactTest,
    Plus,
    Procedure,
    Reminder,
    Roll,
    RollSpecifier(String),
    SetFact,
    SetPersistentFact,
    Str(String),
    SwapFact,
    SwapPersistentFact,
    Table,
}

/// A token with its text as a sequence of characters.
pub enum TokenView {
    Arrow,
    ClearFact,
    ClearPersistentFact,
    End,
    Eof,
    FactTest,
    Identifier(Seq<char>),
    If,
    Indent,
    Load,
    Minus,
    Newline,
    Num(i32),
    NumRange(i32, i32),
    On,
    Percent,
    PersistentFactTest,
    Plus,
    Procedure,
    Reminder,
    Roll,
    RollSpecifier(Seq<char>),
    SetFact,
    SetPersistentFact,
    Str(Seq<char>),
    SwapFact,
    SwapPersistentFact,
    Table,
}

impl View for Token {
    type V = TokenView;

    open spec fn view(&self) -> TokenView {
        match self {
            Token::Arrow => TokenView::Arrow,
            Token::ClearFact => TokenView::ClearFact,
            Token::ClearPersistentFact => TokenView::ClearPersistentFact,
            Token::End => TokenView::End,
            Token::Eof => TokenView::Eof,
            Token::FactTest => TokenView::FactTest,
            Token::Identifier(s) => TokenView::Identifier(s@),
            Token::If => TokenView::If,
            Token::Indent => TokenView::Indent,
            Token::Load => TokenView::Load,
            Token::Minus => TokenView::Minus,
            Token::Newline => TokenView::Newline,
            Token::Num(n) => TokenView::Num(*n),
            Token::NumRange(a, b) => TokenView::NumRange(*a, *b),
            Token::On => TokenView::On,
            Token::Percent => TokenView::Percent,
            Token::PersistentFactTest => TokenView::PersistentFactTest,
            Token::Plus => TokenView::Plus,
            Token::Procedure => TokenView::Procedure,
            Token::Reminder => TokenView::Reminder,
            Token::Roll => TokenView::Roll,
            Token::RollSpecifier(s) => TokenView::RollSpecifier(s@),
            Token::SetFact => TokenView::SetFact,
            Token::SetPersistentFact => TokenView::SetPersistentFact,
            Token::Str(s) => TokenView::Str(s@),
            Token::SwapFact => TokenView::SwapFact,
            Token::SwapPersistentFact => TokenView::SwapPersistentFact,
            Token::Table => TokenView::Table,
        }
    }
}

impl Token {
    /// A copy of this token.
    pub fn duplicate(&self) -> (r: Token)
        ensures
            r == *self,
    {
        match self {
            Token::Identifier(s) => Token::Identifier(s.clone()),
            Token::RollSpecifier(s) => Token::RollSpecifier(s.clone()),
            Token::Str(s) => Token::Str(s.clone()),
            Token::Arrow => Token::Arrow,
            Token::ClearFact => Token::ClearFact,
            Token::ClearPersistentFact => Token::ClearPersistentFact,
            Token::End => Token::End,
            Token::Eof => Token::Eof,
            Token::FactTest => Token::FactTest,
            Token::If => Token::If,
            Token::Indent => Token::Indent,
            Token::Load => Token::Load,
            Token::Minus => Token::Minus,
            Token::Newline => Token::Newline,
            Token::Num(n) => Token::Num(*n),
            Token::NumRange(a, b) => Token::NumRange(*a, *b),
            Token::On => Token::On,
            Token::Percent => Token::Percent,
            Token::PersistentFactTest => Token::PersistentFactTest,
            Token::Plus => Token::Plus,
            Token::Procedure => Token::Procedure,
            Token::Reminder => Token::Reminder,
            Token::Roll => Token::Roll,
            Token::SetFact => Token::SetFact,
            Token::SetPersistentFact => Token::SetPersistentFact,
            Token::SwapFact => Token::SwapFact,
            Token::SwapPersistentFact => Token::SwapPersistentFact,
            Token::Table => Token::Table,
        }
    }
}

impl Token {
    /// The token as text, for error messages.
    pub fn describe(&self) -> String {
        match self {
            Token::Identifier(s) => {
                let mut r = String::from_str("Identifier ");
                r.append(s.as_str());
                r
            },
            Token::RollSpecifier(s) => {
                let mut r = String::from_str("RollSpecifier ");
                r.append(s.as_str());
                r
            },
            Token::Str(s) => {
                let mut r = String::from_str("Str ");
                r.append(s.as_str());
                r
            },
            Token::Num(n) => {
                let mut r = String::from_str("Num ");
                push_int(&mut r, *n);
                r
            },
            Token::NumRange(a, b) => {
                let mut r = String::from_str("NumRange ");
                push_int(&mut r, *a);
                r.append("-");
                push_int(&mut r, *b);
                r
            },
            Token::Arrow => String::from_str("Arrow"),
            Token::ClearFact => String::from_str("ClearFact"),
            Token::ClearPersistentFact => String::from_str("ClearPersistentFact"),
            Token::End => String::from_str("End"),
            Token::Eof => String::from_str("Eof"),
            Token::FactTest => String::from_str("FactTest"),
            Token::If => String::from_str("If"),
            Token::Indent => String::from_str("Indent"),
            Token::Load => String::from_str("Load"),
            Token::Minus => String::from_str("Minus"),
            Token::Newline => String::from_str("Newline"),
            Token::On => String::from_str("On"),
            Token::Percent => String::from_str("Percent"),
            Token::PersistentFactTest => String::from_str("PersistentFactTest"),
            Token::Plus => String::from_str("Plus"),
            Token::Procedure => String::from_str("Procedure"),
            Token::Reminder => String::from_str("Reminder"),
            Token::Roll => String::from_str("Roll"),
            Token::SetFact => String::from_str("SetFact"),
            Token::SetPersistentFact => String::from_str("SetPersistentFact"),
            Token::SwapFact => String::from_str("SwapFact"),
            Token::SwapPersistentFact => String::from_str("SwapPersistentFact"),
            Token::Table => String::from_str("Table"),
        }
    }
}

/// Where a lexical failure stands: position (a character offset), line, and
/// the text of the lexeme.
pub type ScanFailure = (int, int, Seq<char>);

/// One entry of the scanner's output.
pub type ScanItem = Result<TokenView, ScanFailure>;

/// An entry of the scanner's output, as text.
pub open spec fn scan_item(r: Result<Token, CrawlError>) -> ScanItem {
    match r {
        Ok(t) => Ok(t@),
        Err(CrawlError::ScannerError { position, line, lexeme, .. }) => Err(
            (position as int, line as int, lexeme@),
        ),
        Err(_) => Err((-1, -1, Seq::empty())),
    }
}

/// The keyword that `lexeme` spells, if any.
pub open spec fn keyword(lexeme: Seq<char>) -> Option<TokenView> {
    if lexeme == "clear-fact"@ {
        Some(TokenView::ClearFact)
    } else if lexeme == "clear-persistent-fact"@ {
        Some(TokenView::ClearPersistentFact)
    } else if lexeme == "end"@ {
        Some(TokenView::End)
    } else if lexeme == "fact?"@ {
        Some(TokenView::FactTest)
    } else if lexeme == "if"@ {
        Some(TokenView::If)
    } else if lexeme == "load"@ {
        Some(TokenView::Load)
    } else if lexeme == "on"@ {
        Some(TokenView::On)
    } else if lexeme == "persistent-fact?"@ {
        Some(TokenView::PersistentFactTest)
    } else if lexeme == "procedure"@ {
        Some(TokenView::Procedure)
    } else if lexeme == "reminder"@ {
        Some(TokenView::Reminder)
    } else if lexeme == "roll"@ {
        Some(TokenView::Roll)
    } else if lexeme == "set-fact"@ {
        Some(TokenView::SetFact)
    } else if lexeme == "set-persistent-fact"@ {
        Some(TokenView::SetPersistentFact)
    } else if lexeme == "swap-fact"@ {
        Some(TokenView::SwapFact)
    } else if lexeme == "swap-persistent-fact"@ {
        Some(TokenView::SwapPersistentFact)
    } else if lexeme == "table"@ {
        Some(TokenView::Table)
    } else {
        None
    }
}

/// Whether a numeric lexeme goes on at `i`: a digit, a `-`, or a `d` that a
/// digit follows.
pub open spec fn continues_numeric(s: Seq<char>, i: int) -> bool {
    &&& 0 <= i < s.len()
    &&& is_digit(s[i]) || s[i] == '-' || (s[i] == 'd' && i + 1 < s.len() && is_digit(s[i + 1]))
}

/// Where the numeric lexeme that goes on at `i` ends.
pub open spec fn numeric_end(s: Seq<char>, i: int) -> int
    decreases s.len() - i,
{
    if continues_numeric(s, i) {
        numeric_end(s, i + 1)
    } else {
        i
    }
}

/// The numeric token that starts at `p`, and where scanning goes on.
///
/// The lexeme runs over digits, `-` and `d` (a `d` must be followed by a
/// digit). With a `d` it is a roll specifier; with a `-` a range of two
/// numbers; else a number. Holding both, or ending on a `d` with no digit
/// after it, is an error.
pub open spec fn numeric_token(s: Seq<char>, p: int, line: int) -> (ScanItem, int) {
    let e = numeric_end(s, p + 1);
    let lexeme = s.subrange(p, e);
    let k = first_index(lexeme, '-');
    let has_d = first_index(lexeme, 'd') < lexeme.len();
    let has_dash = k < lexeme.len();
    let failure = Err((e, line, lexeme));
    if e < s.len() && s[e] == 'd' {
        (failure, e)
    } else if has_d && has_dash {
        (failure, e)
    } else if has_d {
        (Ok(TokenView::RollSpecifier(lexeme)), e)
    } else if has_dash {
        match (decimal_i32(lexeme.take(k)), decimal_i32(lexeme.skip(k + 1))) {
            (Some(a), Some(b)) => (Ok(TokenView::NumRange(a, b)), e),
            _ => (failure, e),
        }
    } else {
        match decimal_i32(lexeme) {
            Some(n) => (Ok(TokenView::Num(n)), e),
            None => (failure, e),
        }
    }
}

/// The number of line breaks in `s`.
pub open spec fn newlines(s: Seq<char>) -> int
    decreases s.len(),
{
    if s.len() == 0 {
        0
    } else {
        newlines(s.drop_last()) + if s.last() == '\n' {
            1int
        } else {
            0int
        }
    }
}

/// The string token whose opening quote stands at `p`, where scanning goes
/// on, and the line there.
pub open spec fn string_token(s: Seq<char>, p: int, line: int) -> (ScanItem, int, int) {
    let q = index_from(s, '"', p + 1);
    let l = line + newlines(s.subrange(p + 1, q));
    if q >= s.len() {
        (Err((s.len() as int, l, s.subrange(p, s.len() as int))), s.len() as int, l)
    } else {
        (Ok(TokenView::Str(s.subrange(p + 1, q))), q + 1, l)
    }
}

/// Characters that go on a word: letters, `-`, and `?`.
pub open spec fn is_word_char(c: char) -> bool {
    alphabetic(c) || c == '-' || c == '?'
}

/// Where the word that goes on at `i` ends.
pub open spec fn word_end(s: Seq<char>, i: int) -> int
    decreases s.len() - i,
{
    if 0 <= i < s.len() && is_word_char(s[i]) {
        word_end(s, i + 1)
    } else {
        i
    }
}

/// The keyword or identifier that starts at `p`, and where scanning goes on.
pub open spec fn word_token(s: Seq<char>, p: int) -> (ScanItem, int) {
    let e = word_end(s, p + 1);
    let lexeme = s.subrange(p, e);
    match keyword(lexeme) {
        Some(t) => (Ok(t), e),
        None => (Ok(TokenView::Identifier(lexeme)), e),
    }
}

/// The next entry of the scanner's output from position `p` on `line`
/// (none when only spaces are left), where scanning goes on, and the line
/// there.
pub open spec fn next_item(s: Seq<char>, p: int, line: int) -> (Option<ScanItem>, int, int)
    decreases s.len() - p,
{
    if p < 0 || p >= s.len() {
        (None, p, line)
    } else {
        let c = s[p];
        if is_digit(c) {
            let (r, e) = numeric_token(s, p, line);
            (Some(r), e, line)
        } else if c == '"' {
            let (r, e, l) = string_token(s, p, line);
            (Some(r), e, l)
        } else if alphabetic(c) {
            let (r, e) = word_token(s, p);
            (Some(r), e, line)
        } else if c == ' ' {
            next_item(s, p + 1, line)
        } else if c == '\t' {
            (Some(Ok(TokenView::Indent)), p + 1, line)
        } else if c == '\n' {
            (Some(Ok(TokenView::Newline)), p + 1, line + 1)
        } else if c == '=' {
            if p + 1 < s.len() && s[p + 1] == '>' {
                (Some(Ok(TokenView::Arrow)), p + 2, line)
            } else {
                (Some(Err((p + 1, line, seq!['=']))), p + 1, line)
            }
        } else if c == '+' {
            (Some(Ok(TokenView::Plus)), p + 1, line)
        } else if c == '-' {
            (Some(Ok(TokenView::Minus)), p + 1, line)
        } else if c == '%' {
            (Some(Ok(TokenView::Percent)), p + 1, line)
        } else {
            (Some(Err((p + 1, line, seq![c]))), p + 1, line)
        }
    }
}

/// The scanner's output from position `p` on `line` to the end of `s`.
pub open spec fn scan_from(s: Seq<char>, p: int, line: int) -> Seq<ScanItem>
    decreases s.len() - p,
{
    if p < 0 || p >= s.len() {
        Seq::empty()
    } else {
        let (item, np, nl) = next_item(s, p, line);
        if np <= p || np > s.len() {
            Seq::empty()
        } else {
            match item {
                Some(x) => seq![x] + scan_from(s, np, nl),
                None => scan_from(s, np, nl),
            }
        }
    }
}

/// The scanner's output for the whole of `s`: every entry, then `Eof`; an
/// empty source gives nothing.
pub open spec fn scan(s: Seq<char>) -> Seq<ScanItem> {
    if s.len() == 0 {
        Seq::empty()
    } else {
        scan_from(s, 0, 0).push(Ok(TokenView::Eof))
    }
}

/// There are no more line breaks in a text than characters.
proof fn lemma_newlines_bound(s: Seq<char>)
    ensures
        0 <= newlines(s) <= s.len(),
    decreases s.len(),
{
    if s.len() > 0 {
        lemma_newlines_bound(s.drop_last());
    }
}

proof fn lemma_newlines_prefix_le(s: Seq<char>, i: int)
    requires
        0 <= i <= s.len(),
    ensures
        newlines(s.take(i)) <= newlines(s),
    decreases s.len() - i,
{
    if i < s.len() {
        assert(s.take(i + 1).drop_last() =~= s.take(i));
        lemma_newlines_prefix_le(s, i + 1);
    } else {
        assert(s.take(i) =~= s);
    }
}

proof fn lemma_newlines_step(s: Seq<char>, a: int, i: int)
    requires
        0 <= a <= i < s.len(),
    ensures
        newlines(s.subrange(a, i + 1)) == newlines(s.subrange(a, i)) + if s[i] == '\n' {
            1int
        } else {
            0int
        },
{
    assert(s.subrange(a, i + 1).drop_last() =~= s.subrange(a, i));
}

/// A single-use scanner over a source text.
#[derive(Debug)]
pub struct Scanner {
    pub source: Vec<char>,
    /// The character to be scanned.
    pub position: usize,
    pub line: usize,
    /// The start of the current lexeme.
    pub start: usize,
}

impl Scanner {
    pub open spec fn well_formed(&self) -> bool {
        &&& self.line <= self.position
        &&& self.start <= self.position
    }

    pub fn new(source: Vec<char>) -> (r: Self)
        ensures
            r.well_formed(),
            r.source@ == source@,
            r.position == 0,
            r.line == 0,
    {
        Scanner { source, position: 0, line: 0, start: 0 }
    }

    fn is_at_end(&self) -> (r: bool)
        ensures
            r == (self.position >= self.source@.len()),
    {
        self.position >= self.source.len()
    }

    /// The keyword token that `lexeme` spells, if any.
    fn token_for_keyword(lexeme: &Vec<char>) -> (r: Option<Token>)
        ensures
            r matches Some(t) ==> keyword(lexeme@) == Some(t@),
            r is None ==> keyword(lexeme@) is None,
    {
        if text_is(lexeme, "clear-fact") {
            Some(Token::ClearFact)
        } else if text_is(lexeme, "clear-persistent-fact") {
            Some(Token::ClearPersistentFact)
        } else if text_is(lexeme, "end") {
            Some(Token::End)
        } else if text_is(lexeme, "fact?") {
            Some(Token::FactTest)
        } else if text_is(lexeme, "if") {
            Some(Token::If)
        } else if text_is(lexeme, "load") {
            Some(Token::Load)
        } else if text_is(lexeme, "on") {
            Some(Token::On)
        } else if text_is(lexeme, "persistent-fact?") {
            Some(Token::PersistentFactTest)
        } else if text_is(lexeme, "procedure") {
            Some(Token::Procedure)
        } else if text_is(lexeme, "reminder") {
            Some(Token::Reminder)
        } else if text_is(lexeme, "roll") {
            Some(Token::Roll)
        } else if text_is(lexeme, "set-fact") {
            Some(Token::SetFact)
        } else if text_is(lexeme, "set-persistent-fact") {
            Some(Token::SetPersistentFact)
        } else if text_is(lexeme, "swap-fact") {
            Some(Token::SwapFact)
        } else if text_is(lexeme, "swap-persistent-fact") {
            Some(Token::SwapPersistentFact)
        } else if text_is(lexeme, "table") {
            Some(Token::Table)
        } else {
            None
        }
    }

    /// Scans a number, a range or a roll specifier whose first digit was
    /// just consumed.
    fn scan_numeric(&mut self) -> (r: Result<Token, CrawlError>)
        requires
            old(self).well_formed(),
            old(self).start + 1 == old(self).position <= old(self).source@.len(),
        ensures
            r matches Err(e) ==> e.is_scanner_error(),
            final(self).well_formed(),
            final(self).source@ == old(self).source@,
            final(self).line == old(self).line,
            final(self).start == old(self).start,
            old(self).position <= final(self).position <= final(self).source@.len(),
            (scan_item(r), final(self).position as int) == numeric_token(
                old(self).source@,
                old(self).start as int,
                old(self).line as int,
            ),
    {
        let ghost s = self.source@;
        let n = self.source.len();
        let p = self.start;
        let mut i = self.position;
        while i < n && (('0' <= self.source[i] && self.source[i] <= '9') || self.source[i] == '-'
            || (self.source[i] == 'd' && i + 1 < n && '0' <= self.source[i + 1]
            && self.source[i + 1] <= '9'))
            invariant
                s == self.source@,
                n == s.len(),
                p + 1 <= i <= n,
                numeric_end(s, p + 1) == numeric_end(s, i as int),
            decreases n - i,
        {
            i = i + 1;
        }
        self.position = i;
        if i < n && self.source[i] == 'd' {
            return Err(self.failure("roll specifier must be NUMBER 'd' NUMBER"));
        }
        let lexeme = copy_range(&self.source, p, i);
        let len = lexeme.len();
        let k = find_char(&lexeme, '-');
        let has_d = find_char(&lexeme, 'd') < len;
        let has_dash = k < len;
        if has_d && has_dash {
            return Err(self.failure("can't be a dice roll and dice range"));
        }
        if has_d {
            let text = string_of(&lexeme, 0, len);
            assert(lexeme@.subrange(0, len as int) =~= lexeme@);
            return Ok(Token::RollSpecifier(text));
        }
        if has_dash {
            let low = parse_decimal(&lexeme, 0, k);
            let high = parse_decimal(&lexeme, k + 1, len);
            assert(lexeme@.subrange(0, k as int) =~= lexeme@.take(k as int));
            assert(lexeme@.subrange(k + 1, len as int) =~= lexeme@.skip(k + 1));
            return match (low, high) {
                (Some(a), Some(b)) => Ok(Token::NumRange(a, b)),
                _ => Err(self.failure("range bounds must be numbers")),
            };
        }
        assert(lexeme@.subrange(0, len as int) =~= lexeme@);
        match parse_decimal(&lexeme, 0, len) {
            Some(v) => Ok(Token::Num(v)),
            None => Err(self.failure("number out of range")),
        }
    }

    /// Scans a string whose opening quote was just consumed.
    fn scan_str(&mut self) -> (r: Result<Token, CrawlError>)
        requires
            old(self).well_formed(),
            old(self).start + 1 == old(self).position <= old(self).source@.len(),
        ensures
            r matches Err(e) ==> e.is_scanner_error(),
            final(self).well_formed(),
            final(self).source@ == old(self).source@,
            final(self).start == old(self).start,
            old(self).position <= final(self).position <= final(self).source@.len(),
            (scan_item(r), final(self).position as int, final(self).line as int) == string_token(
                old(self).source@,
                old(self).start as int,
                old(self).line as int,
            ),
    {
        let ghost s = self.source@;
        let ghost line0 = self.line as int;
        let n = self.source.len();
        let p = self.start;
        let mut i = self.position;
        proof {
            assert(s.subrange(p + 1, i as int) =~= Seq::<char>::empty());
        }
        while i < n && self.source[i] != '"'
            invariant
                s == self.source@,
                n == s.len(),
                p + 1 <= i <= n,
                self.start == p,
                index_from(s, '"', p + 1) == index_from(s, '"', i as int),
                line0 == self.line,
                line0 + newlines(s.subrange(p + 1, i as int)) <= i,
                line0 <= p + 1,
            decreases n - i,
        {
            proof {
                lemma_newlines_step(s, p + 1, i as int);
                lemma_newlines_bound(s.subrange(p + 1, i as int));
            }
            i = i + 1;
        }
        let ghost l = line0 + newlines(s.subrange(p + 1, i as int));
        let mut line = self.line;
        let mut j = p + 1;
        while j < i
            invariant
                s == self.source@,
                p + 1 <= j <= i <= n,
                n == s.len(),
                line == line0 + newlines(s.subrange(p + 1, j as int)),
                line0 + newlines(s.subrange(p + 1, i as int)) <= i,
            decreases i - j,
        {
            proof {
                lemma_newlines_step(s, p + 1, j as int);
                lemma_newlines_bound(s.subrange(p + 1, i as int));
                lemma_newlines_prefix_le(s.subrange(p + 1, i as int), j - p);
                assert(s.subrange(p + 1, i as int).take(j - p) =~= s.subrange(p + 1, j + 1));
            }
            if self.source[j] == '\n' {
                line = line + 1;
            }
            j = j + 1;
        }
        self.line = line;
        if i >= n {
            self.position = n;
            return Err(self.failure("unterminated string, expected closing '\"'"));
        }
        let text = string_of(&self.source, p + 1, i);
        self.position = i + 1;
        Ok(Token::Str(text))
    }

    /// Scans a keyword or an identifier whose first letter was just consumed.
    fn scan_symbol(&mut self) -> (r: Result<Token, CrawlError>)
        requires
            old(self).well_formed(),
            old(self).start + 1 == old(self).position <= old(self).source@.len(),
        ensures
            r matches Err(e) ==> e.is_scanner_error(),
            final(self).well_formed(),
            final(self).source@ == old(self).source@,
            final(self).line == old(self).line,
            final(self).start == old(self).start,
            old(self).position <= final(self).position <= final(self).source@.len(),
            (scan_item(r), final(self).position as int) == word_token(
                old(self).source@,
                old(self).start as int,
            ),
    {
        let ghost s = self.source@;
        let n = self.source.len();
        let p = self.start;
        let mut i = self.position;
        while i < n && (is_alphabetic(self.source[i]) || self.source[i] == '-' || self.source[i]
            == '?')
            invariant
                s == self.source@,
                n == s.len(),
                p + 1 <= i <= n,
                word_end(s, p + 1) == word_end(s, i as int),
            decreases n - i,
        {
            i = i + 1;
        }
        self.position = i;
        let lexeme = copy_range(&self.source, p, i);
        match Self::token_for_keyword(&lexeme) {
            Some(t) => Ok(t),
            None => {
                let text = string_of(&lexeme, 0, lexeme.len());
                assert(lexeme@.subrange(0, lexeme@.len() as int) =~= lexeme@);
                Ok(Token::Identifier(text))
            },
        }
    }

    /// The next token or lexical error; none when only spaces are left.
    fn next_token(&mut self) -> (r: Option<Result<Token, CrawlError>>)
        requires
            old(self).well_formed(),
            old(self).position <= old(self).source@.len(),
        ensures
            r matches Some(Err(e)) ==> e.is_scanner_error(),
            final(self).well_formed(),
            final(self).source@ == old(self).source@,
            final(self).position <= final(self).source@.len(),
            old(self).position < old(self).source@.len() ==> final(self).position > old(self).position,
            (
                match r {
                    Some(x) => Some(scan_item(x)),
                    None => None,
                },
                final(self).position as int,
                final(self).line as int,
            ) == next_item(old(self).source@, old(self).position as int, old(self).line as int),
    {
        let ghost s = self.source@;
        let ghost p0 = self.position as int;
        let ghost l0 = self.line as int;
        let n = self.source.len();
        loop
            invariant
                s == self.source@,
                s == old(self).source@,
                p0 == old(self).position,
                l0 == old(self).line,
                n == s.len(),
                self.well_formed(),
                p0 <= self.position <= n,
                self.line == l0,
                next_item(s, p0, l0) == next_item(s, self.position as int, l0),
            decreases n - self.position,
        {
            if self.is_at_end() {
                return None;
            }
            self.start = self.position;
            let c = self.source[self.position];
            self.position = self.position + 1;
            if '0' <= c && c <= '9' {
                return Some(self.scan_numeric());
            }
            if c == '"' {
                return Some(self.scan_str());
            }
            if is_alphabetic(c) {
                return Some(self.scan_symbol());
            }
            if c == ' ' {
                continue;
            }
            if c == '\t' {
                return Some(Ok(Token::Indent));
            }
            if c == '\n' {
                self.line = self.line + 1;
                return Some(Ok(Token::Newline));
            }
            if c == '=' {
                if self.position < n && self.source[self.position] == '>' {
                    self.position = self.position + 1;
                    return Some(Ok(Token::Arrow));
                }
                let e = self.failure("expected '>' after '='");
                assert(s.subrange(self.start as int, self.position as int) =~= seq!['=']);
                return Some(Err(e));
            }
            if c == '+' {
                return Some(Ok(Token::Plus));
            }
            if c == '-' {
                return Some(Ok(Token::Minus));
            }
            if c == '%' {
                return Some(Ok(Token::Percent));
            }
            let e = self.failure("unexpected character");
            assert(s.subrange(self.start as int, self.position as int) =~= seq![c]);
            return Some(Err(e));
        }
    }

    /// Scans what is left of the source: each token or lexical error in
    /// order, then `Eof`. A scanner that has reached the end yields nothing.
    pub fn tokens(&mut self) -> (r: Vec<Result<Token, CrawlError>>)
        requires
            old(self).well_formed(),
        ensures
            forall|i: int| 0 <= i < r@.len() ==> (#[trigger] r@[i] matches Err(e) ==> e.is_scanner_error()),
            final(self).well_formed(),
            final(self).source@ == old(self).source@,
            final(self).position >= final(self).source@.len(),
            r@.map_values(|x: Result<Token, CrawlError>| scan_item(x)) == if old(self).position
                >= old(self).source@.len() {
                Seq::<ScanItem>::empty()
            } else {
                scan_from(old(self).source@, old(self).position as int, old(self).line as int).push(
                    Ok(TokenView::Eof),
                )
            },
    {
        let ghost s = self.source@;
        let ghost p0 = self.position as int;
        let ghost l0 = self.line as int;
        if self.is_at_end() {
            let r = Vec::new();
            assert(r@.map_values(|x: Result<Token, CrawlError>| scan_item(x)) =~= Seq::<ScanItem>::empty());
            return r;
        }
        let mut toks: Vec<Result<Token, CrawlError>> = Vec::new();
        while !self.is_at_end()
            invariant
                s == self.source@,
                s == old(self).source@,
                p0 == old(self).position,
                l0 == old(self).line,
                self.well_formed(),
                p0 < s.len(),
                forall|i: int| 0 <= i < toks@.len() ==> (#[trigger] toks@[i] matches Err(e) ==> e.is_scanner_error()),
                toks@.map_values(|x: Result<Token, CrawlError>| scan_item(x)) + scan_from(
                    s,
                    self.position as int,
                    self.line as int,
                ) == scan_from(s, p0, l0),
            decreases s.len() - self.position,
        {
            let ghost before = toks@;
            let ghost p = self.position as int;
            let ghost l = self.line as int;
            self.start = self.position;
            let item = self.next_token();
            match item {
                Some(t) => {
                    toks.push(t);
                    proof {
                        assert(toks@.map_values(|x: Result<Token, CrawlError>| scan_item(x)) =~= before.map_values(
                            |x: Result<Token, CrawlError>| scan_item(x),
                        ).push(scan_item(t)));
                    }
                },
                None => {},
            }
            proof {
                assert(scan_from(s, p, l) == match next_item(s, p, l).0 {
                    Some(x) => seq![x] + scan_from(s, self.position as int, self.line as int),
                    None => scan_from(s, self.position as int, self.line as int),
                });
                assert(toks@.map_values(|x: Result<Token, CrawlError>| scan_item(x)) + scan_from(
                    s,
                    self.position as int,
                    self.line as int,
                ) =~= scan_from(s, p0, l0));
            }
        }
        let ghost before = toks@;
        toks.push(Ok(Token::Eof));
        proof {
            assert(scan_from(s, self.position as int, self.line as int) == Seq::<ScanItem>::empty());
            assert(toks@.map_values(|x: Result<Token, CrawlError>| scan_item(x)) =~= before.map_values(
                |x: Result<Token, CrawlError>| scan_item(x),
            ).push(Ok(TokenView::Eof)));
            assert(before.map_values(|x: Result<Token, CrawlError>| scan_item(x)) =~= before.map_values(
                |x: Result<Token, CrawlError>| scan_item(x),
            ) + Seq::<ScanItem>::empty());
        }
        toks
    }

    fn failure(&self, reason: &str) -> (r: CrawlError)
        requires
            self.start <= self.position <= self.source@.len(),
        ensures
            r.is_scanner_error(),
            scan_item(Err(r)) == Err::<TokenView, ScanFailure>(
                (
                    self.position as int,
                    self.line as int,
                    self.source@.subrange(self.start as int, self.position as int),
                ),
            ),
    {
        CrawlError::ScannerError {
            position: self.position,
            line: self.line,
            lexeme: string_of(&self.source, self.start, self.position),
            reason: String::from_str(reason),
        }
    }
}

} // verus!
