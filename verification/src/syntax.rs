use crate::diagnostic::{Diagnostic, Location, Span};
use crate::project::ignore::is_backslash;
use crate::text::{chars_of, string_of};
use vstd::prelude::*;

verus! {

/// What a token is.
#[derive(Clone, Debug, PartialEq, Eq)]
pub enum TokenKind {
    Identifier(String),
    String(String),
    Integer(String),
    LeftBrace,
    RightBrace,
    LeftBracket,
    RightBracket,
    Comma,
    Symbol(char),
    Eof,
}

/// The ghost form of a token kind.
pub enum KindView {
    Identifier(Seq<char>),
    String(Seq<char>),
    Integer(Seq<char>),
    LeftBrace,
    RightBrace,
    LeftBracket,
    RightBracket,
    Comma,
    Symbol(char),
    Eof,
}

impl View for TokenKind {
    type V = KindView;

    open spec fn view(&self) -> KindView {
        match self {
            TokenKind::Identifier(s) => KindView::Identifier(s@),
            TokenKind::String(s) => KindView::String(s@),
            TokenKind::Integer(s) => KindView::Integer(s@),
            TokenKind::LeftBrace => KindView::LeftBrace,
            TokenKind::RightBrace => KindView::RightBrace,
            TokenKind::LeftBracket => KindView::LeftBracket,
            TokenKind::RightBracket => KindView::RightBracket,
            TokenKind::Comma => KindView::Comma,
            TokenKind::Symbol(c) => KindView::Symbol(*c),
            TokenKind::Eof => KindView::Eof,
        }
    }
}

/// A token and where it stands.
#[derive(Clone, Debug)]
pub struct Token {
    pub kind: TokenKind,
    pub span: Span,
}

pub struct TokenView {
    pub kind: KindView,
    pub span: Span,
}

impl View for Token {
    type V = TokenView;

    open spec fn view(&self) -> TokenView {
        TokenView { kind: self.kind@, span: self.span }
    }
}

pub open spec fn tokens_view(tokens: Seq<Token>) -> Seq<TokenView> {
    tokens.map_values(|t: Token| t@)
}

pub open spec fn is_newline(c: char) -> bool {
    c as u32 == 10
}

/// Blank characters between tokens: space, tab, carriage return, line feed.
pub open spec fn is_blank(c: char) -> bool {
    c == ' ' || c as u32 == 9 || c as u32 == 13 || is_newline(c)
}

pub open spec fn is_identifier_start(c: char) -> bool {
    ('a' <= c <= 'z') || ('A' <= c <= 'Z') || c == '_'
}

pub open spec fn is_identifier_char(c: char) -> bool {
    is_identifier_start(c) || ('0' <= c <= '9')
}

pub open spec fn is_digit(c: char) -> bool {
    '0' <= c <= '9'
}

/// The 1-based line of position `i`.
pub open spec fn line_of(chars: Seq<char>, i: int) -> int
    decreases i,
{
    if i <= 0 || i > chars.len() {
        1
    } else if is_newline(chars[i - 1]) {
        line_of(chars, i - 1) + 1
    } else {
        line_of(chars, i - 1)
    }
}

/// The 1-based column of position `i`: characters since the last line feed, plus one.
pub open spec fn column_of(chars: Seq<char>, i: int) -> int
    decreases i,
{
    if i <= 0 || i > chars.len() {
        1
    } else if is_newline(chars[i - 1]) {
        1
    } else {
        column_of(chars, i - 1) + 1
    }
}

/// The first position at or after `i` that is not blank.
pub open spec fn skip_blank(chars: Seq<char>, i: int) -> int
    decreases chars.len() - i,
{
    if 0 <= i < chars.len() && is_blank(chars[i]) {
        skip_blank(chars, i + 1)
    } else {
        i
    }
}

/// Where a run of characters satisfying `identifier` (or digits) that starts at `i` ends.
pub open spec fn word_end(chars: Seq<char>, i: int, digits: bool) -> int
    decreases chars.len() - i,
{
    if 0 <= i < chars.len() && (if digits {
        is_digit(chars[i])
    } else {
        is_identifier_char(chars[i])
    }) {
        word_end(chars, i + 1, digits)
    } else {
        i
    }
}

/// The character an escape `\x` stands for.
pub open spec fn unescape(c: char) -> char {
    if c == 'n' {
        10 as char
    } else if c == 't' {
        9 as char
    } else {
        c
    }
}

/// The contents of a quoted string whose body starts at `i`, and the position after its
/// closing quote; `None` when no quote closes it.
pub open spec fn string_body(chars: Seq<char>, i: int) -> Option<(Seq<char>, int)>
    decreases chars.len() - i,
{
    if i < 0 || i >= chars.len() {
        None
    } else if chars[i] == '"' {
        Some((Seq::empty(), i + 1))
    } else {
        let (c, next) = if is_backslash(chars[i]) && i + 1 < chars.len() {
            (unescape(chars[i + 1]), i + 2)
        } else {
            (chars[i], i + 1)
        };
        match string_body(chars, next) {
            Some((rest, end)) => Some((seq![c] + rest, end)),
            None => None,
        }
    }
}

/// The token that starts at `i` (which is not blank) and the position after it, or `None`
/// for a string that is never closed.
pub open spec fn token_at(chars: Seq<char>, i: int) -> Option<(KindView, int)> {
    let c = chars[i];
    if is_identifier_start(c) {
        let end = word_end(chars, i, false);
        Some((KindView::Identifier(chars.subrange(i, end)), end))
    } else if is_digit(c) {
        let end = word_end(chars, i, true);
        Some((KindView::Integer(chars.subrange(i, end)), end))
    } else if c == '"' {
        match string_body(chars, i + 1) {
            Some((body, end)) => Some((KindView::String(body), end)),
            None => None,
        }
    } else if c == '{' {
        Some((KindView::LeftBrace, i + 1))
    } else if c == '}' {
        Some((KindView::RightBrace, i + 1))
    } else if c == '[' {
        Some((KindView::LeftBracket, i + 1))
    } else if c == ']' {
        Some((KindView::RightBracket, i + 1))
    } else if c == ',' {
        Some((KindView::Comma, i + 1))
    } else {
        Some((KindView::Symbol(c), i + 1))
    }
}

pub open spec fn span_of(chars: Seq<char>, start: int, end: int) -> Span {
    Span {
        start: start as usize,
        end: end as usize,
        line: line_of(chars, start) as usize,
        column: column_of(chars, start) as usize,
    }
}

/// The tokens of `chars[i..]`, ending with `Eof`; or the position of a string that is never
/// closed.
pub open spec fn lex_from(chars: Seq<char>, i: int) -> Result<Seq<TokenView>, int>
    decreases chars.len() - i,
{
    let j = skip_blank(chars, i);
    if j < 0 || j >= chars.len() {
        Ok(seq![TokenView { kind: KindView::Eof, span: span_of(chars, chars.len() as int, chars.len() as int) }])
    } else {
        match token_at(chars, j) {
            None => Err(j),
            Some((kind, next)) => if j < next <= chars.len() && i <= j {
                match lex_from(chars, next) {
                    Ok(rest) => Ok(seq![TokenView { kind, span: span_of(chars, j, next) }] + rest),
                    Err(at) => Err(at),
                }
            } else {
                Err(j)
            },
        }
    }
}


pub proof fn lemma_position_bounds(chars: Seq<char>, i: int)
    requires
        0 <= i <= chars.len(),
    ensures
        1 <= line_of(chars, i) <= i + 1,
        1 <= column_of(chars, i) <= i + 1,
    decreases i,
{
    if i > 0 {
        lemma_position_bounds(chars, i - 1);
    }
}

/// The line and column of position `to`, from those of `from`.
fn advance(chars: &Vec<char>, from: usize, to: usize, line: usize, column: usize) -> (r: (usize, usize))
    requires
        from <= to <= chars.len() < usize::MAX,
        line == line_of(chars@, from as int),
        column == column_of(chars@, from as int),
    ensures
        r.0 == line_of(chars@, to as int),
        r.1 == column_of(chars@, to as int),
{
    let mut i = from;
    let mut l = line;
    let mut c = column;
    while i < to
        invariant
            from <= i <= to <= chars.len() < usize::MAX,
            l == line_of(chars@, i as int),
            c == column_of(chars@, i as int),
        decreases to - i,
    {
        proof {
            lemma_position_bounds(chars@, i as int);
        }
        if chars[i] as u32 == 10 {
            l = l + 1;
            c = 1;
        } else {
            c = c + 1;
        }
        i += 1;
    }
    (l, c)
}

fn word_char(c: char, digits: bool) -> (b: bool)
    ensures
        b == (if digits {
            is_digit(c)
        } else {
            is_identifier_char(c)
        }),
{
    if digits {
        '0' <= c && c <= '9'
    } else {
        ('a' <= c && c <= 'z') || ('A' <= c && c <= 'Z') || c == '_' || ('0' <= c && c <= '9')
    }
}

proof fn lemma_word_end(chars: Seq<char>, i: int, digits: bool)
    requires
        0 <= i <= chars.len(),
    ensures
        i <= word_end(chars, i, digits) <= chars.len(),
    decreases chars.len() - i,
{
    if i < chars.len() {
        lemma_word_end(chars, i + 1, digits);
    }
}

fn word_end_exec(chars: &Vec<char>, i: usize, digits: bool) -> (end: usize)
    requires
        i <= chars.len(),
    ensures
        end == word_end(chars@, i as int, digits),
        i <= end <= chars.len(),
{
    let mut j = i;
    while j < chars.len() && word_char(chars[j], digits)
        invariant
            i <= j <= chars.len(),
            word_end(chars@, i as int, digits) == word_end(chars@, j as int, digits),
        decreases chars.len() - j,
    {
        j += 1;
    }
    j
}

pub open spec fn prepend(b: Seq<char>, o: Option<(Seq<char>, int)>) -> Option<(Seq<char>, int)> {
    match o {
        Some((rest, end)) => Some((b + rest, end)),
        None => None,
    }
}

proof fn lemma_string_body_end(chars: Seq<char>, i: int)
    ensures
        string_body(chars, i) matches Some((_, end)) ==> i < end <= chars.len(),
    decreases chars.len() - i,
{
    if 0 <= i < chars.len() && chars[i] != '"' {
        let next = if is_backslash(chars[i]) && i + 1 < chars.len() { i + 2 } else { i + 1 };
        lemma_string_body_end(chars, next);
    }
}

/// Reads a quoted string whose body starts at `i`.
fn string_body_exec(chars: &Vec<char>, i: usize) -> (r: Option<(Vec<char>, usize)>)
    requires
        i <= chars.len(),
    ensures
        match string_body(chars@, i as int) {
            Some((body, end)) => r matches Some((b, e)) && b@ == body && e == end && i < end <= chars.len(),
            None => r is None,
        },
{
    proof {
        lemma_string_body_end(chars@, i as int);
    }
    let mut body: Vec<char> = Vec::new();
    let mut j = i;
    assert(string_body(chars@, i as int) == prepend(body@, string_body(chars@, j as int))) by {
        if let Some((rest, end)) = string_body(chars@, j as int) {
            assert(body@ + rest =~= rest);
        }
    }
    while j < chars.len()
        invariant
            i <= j <= chars.len(),
            string_body(chars@, i as int) == prepend(body@, string_body(chars@, j as int)),
        decreases chars.len() - j,
    {
        if chars[j] == '"' {
            return Some((body, j + 1));
        }
        let ghost before = body@;
        let ghost at = j;
        if chars[j] as u32 == 92 && j + 1 < chars.len() {
            let e = chars[j + 1];
            let c = if e == 'n' { 10u8 as char } else if e == 't' { 9u8 as char } else { e };
            body.push(c);
            j += 2;
        } else {
            body.push(chars[j]);
            j += 1;
        }
        proof {
            let c = body@.last();
            assert(string_body(chars@, at as int) == prepend(seq![c], string_body(chars@, j as int)));
            if let Some((rest, end)) = string_body(chars@, j as int) {
                assert(before + (seq![c] + rest) =~= body@ + rest);
            }
        }
    }
    None
}


fn skip_blank_exec(chars: &Vec<char>, i: usize) -> (j: usize)
    requires
        i <= chars.len(),
    ensures
        j == skip_blank(chars@, i as int),
        i <= j <= chars.len(),
{
    let mut j = i;
    while j < chars.len() && (chars[j] == ' ' || chars[j] as u32 == 9 || chars[j] as u32 == 13 || chars[j] as u32 == 10)
        invariant
            i <= j <= chars.len(),
            skip_blank(chars@, i as int) == skip_blank(chars@, j as int),
        decreases chars.len() - j,
    {
        j += 1;
    }
    j
}

/// The token at `i` (not blank) and the position after it.
fn token_at_exec(chars: &Vec<char>, i: usize) -> (r: Option<(TokenKind, usize)>)
    requires
        i < chars.len(),
    ensures
        match token_at(chars@, i as int) {
            Some((kind, next)) => r matches Some((k, n)) && k@ == kind && n == next && i < next <= chars.len(),
            None => r is None,
        },
{
    let c = chars[i];
    if ('a' <= c && c <= 'z') || ('A' <= c && c <= 'Z') || c == '_' {
        let end = word_end_exec(chars, i, false);
        proof {
            assert(word_end(chars@, i as int, false) == word_end(chars@, i + 1, false));
            lemma_word_end(chars@, i + 1, false);
        }
        Some((TokenKind::Identifier(crate::text::string_of_range(chars.as_slice(), i, end)), end))
    } else if '0' <= c && c <= '9' {
        let end = word_end_exec(chars, i, true);
        proof {
            assert(word_end(chars@, i as int, true) == word_end(chars@, i + 1, true));
            lemma_word_end(chars@, i + 1, true);
        }
        Some((TokenKind::Integer(crate::text::string_of_range(chars.as_slice(), i, end)), end))
    } else if c == '"' {
        match string_body_exec(chars, i + 1) {
            Some((body, end)) => Some((TokenKind::String(string_of(body.as_slice())), end)),
            None => None,
        }
    } else if c == '{' {
        Some((TokenKind::LeftBrace, i + 1))
    } else if c == '}' {
        Some((TokenKind::RightBrace, i + 1))
    } else if c == '[' {
        Some((TokenKind::LeftBracket, i + 1))
    } else if c == ']' {
        Some((TokenKind::RightBracket, i + 1))
    } else if c == ',' {
        Some((TokenKind::Comma, i + 1))
    } else {
        Some((TokenKind::Symbol(c), i + 1))
    }
}

/// The refusal for a string that opens at position `at` and is never closed.
pub open spec fn unterminated(file: Seq<char>, chars: Seq<char>, at: int, d: Diagnostic) -> bool {
    &&& d.location.file@ == file
    &&& d.location.line == line_of(chars, at)
    &&& d.location.column == column_of(chars, at)
    &&& d.code@ == "E_UNTERMINATED_STRING"@
    &&& d.message@ == "this string is never closed with a quote"@
}

/// The tokens of `source`, ending with `Eof`.
pub fn lex(file: &str, source: &str) -> (r: Result<Vec<Token>, Diagnostic>)
    requires
        source@.len() < usize::MAX,
    ensures
        match lex_from(source@, 0) {
            Ok(ts) => r matches Ok(v) && tokens_view(v@) == ts,
            Err(at) => r matches Err(d) && unterminated(file@, source@, at, d),
        },
{
    let chars = chars_of(source);
    let mut out: Vec<Token> = Vec::new();
    let mut i: usize = 0;
    let mut line: usize = 1;
    let mut column: usize = 1;
    loop
        invariant
            i <= chars.len() < usize::MAX,
            chars@ == source@,
            line == line_of(chars@, i as int),
            column == column_of(chars@, i as int),
            lex_from(chars@, 0) matches Ok(all) ==> (lex_from(chars@, i as int) matches Ok(rest) && all == tokens_view(out@) + rest),
            lex_from(chars@, 0) matches Err(at) ==> lex_from(chars@, i as int) == Err::<Seq<TokenView>, int>(at),
            lex_from(chars@, 0) is Ok ==> lex_from(chars@, i as int) is Ok,
        decreases chars.len() - i,
    {
        let ghost before = out@;
        let j = skip_blank_exec(&chars, i);
        let (l, c) = advance(&chars, i, j, line, column);
        proof {
            lemma_position_bounds(chars@, chars@.len() as int);
            lemma_position_bounds(chars@, j as int);
        }
        if j == chars.len() {
            let (el, ec) = (l, c);
            out.push(Token { kind: TokenKind::Eof, span: Span { start: j, end: j, line: el, column: ec } });
            proof {
                assert(tokens_view(out@) =~= tokens_view(before).push(out@.last()@));
            }
            return Ok(out);
        }
        match token_at_exec(&chars, j) {
            None => {
                let message = "this string is never closed with a quote".to_owned();
                return Err(Diagnostic {
                    location: Location { file: file.to_owned(), line: l, column: c },
                    code: "E_UNTERMINATED_STRING".to_owned(),
                    message,
                });
            },
            Some((kind, next)) => {
                out.push(Token { kind, span: Span { start: j, end: next, line: l, column: c } });
                proof {
                    assert(tokens_view(out@) =~= tokens_view(before).push(out@.last()@));
                }
                let (nl, nc) = advance(&chars, j, next, l, c);
                i = next;
                line = nl;
                column = nc;
            },
        }
    }
}

} // verus!
