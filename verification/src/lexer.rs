//! The lexer: converts source text into a token sequence.
//!
//! The spec-level scanner [`next_token_v`] defines, for every lexer state,
//! which token comes next and where the lexer stands afterwards; the exec
//! [`Lexer`] is proved to follow it exactly.  Lexing never fails: unrecognized
//! characters become `Unknown` tokens, and unterminated strings, templates and
//! block comments degrade silently (see the error-handling policy of the
//! parser, which rejects the resulting stream).

use vstd::prelude::*;

use crate::text::{push_char, string_is};
use crate::tokens::{tokens_view, KindV, Token, TokenKind, TokenV};

verus! {

/// Insignificant whitespace: space, carriage return, tab.  Newlines are
/// handled separately because they advance the line counter.
pub open spec fn is_space_char(c: char) -> bool {
    c == ' ' || c == '\r' || c == '\t'
}

/// An ASCII decimal digit.
pub open spec fn is_digit_char(c: char) -> bool {
    48 <= c as u32 && c as u32 <= 57
}

/// An ASCII letter.
pub open spec fn is_alpha_char(c: char) -> bool {
    (65 <= c as u32 && c as u32 <= 90) || (97 <= c as u32 && c as u32 <= 122)
}

/// The character class that may start an identifier.
pub open spec fn is_ident_start_char(c: char) -> bool {
    is_alpha_char(c) || c == '_' || c == '$'
}

/// The character class that may continue an identifier.
pub open spec fn is_ident_part_char(c: char) -> bool {
    is_alpha_char(c) || is_digit_char(c) || c == '_' || c == '$'
}

/// A quote character; either one closes a quoted string.
pub open spec fn is_quote_char(c: char) -> bool {
    c == '"' || c == '\''
}

/// What an escaped character denotes inside a quoted string or template:
/// `\n` and `\t` become control characters, everything else stands for
/// itself.
pub open spec fn unescape_char(c: char) -> char {
    if c == 'n' {
        '\n'
    } else if c == 't' {
        '\t'
    } else {
        c
    }
}

/// The position just past a block comment's interior: the first position at
/// or after `pos` where `*>` begins, or the end of input.
pub open spec fn comment_end(src: Seq<char>, pos: int) -> int
    decreases src.len() - pos,
{
    if pos < 0 || pos >= src.len() {
        pos
    } else if src[pos] == '*' && pos + 1 < src.len() && src[pos + 1] == '>' {
        pos
    } else {
        comment_end(src, pos + 1)
    }
}

/// `comment_end` stays within the input, and when it stops short of the end
/// it stands on a `*>` closing marker.
pub proof fn lemma_comment_end(src: Seq<char>, pos: int)
    requires
        0 <= pos <= src.len(),
    ensures
        pos <= comment_end(src, pos) <= src.len(),
        comment_end(src, pos) < src.len() ==> comment_end(src, pos) + 2 <= src.len(),
    decreases src.len() - pos,
{
    if 0 <= pos < src.len() && !(src[pos] == '*' && pos + 1 < src.len() && src[pos + 1] == '>') {
        lemma_comment_end(src, pos + 1);
    }
}

/// Skips insignificant whitespace and block comments, returning the new
/// position and column.  The line counter never moves here: even a newline
/// inside a block comment only advances the column bookkeeping.
pub open spec fn skip_ws(src: Seq<char>, pos: int, col: int) -> (int, int)
    decreases src.len() - pos,
{
    if 0 <= pos && pos < src.len() && is_space_char(src[pos]) {
        skip_ws(src, pos + 1, col + 1)
    } else if 0 <= pos && pos < src.len() && src[pos] == '<' && pos + 1 < src.len() && src[pos
        + 1] == '*' {
        let e = comment_end(src, pos + 2);
        proof {
            lemma_comment_end(src, pos + 2);
        }
        if e >= src.len() {
            // an unterminated block comment silently consumes the rest
            (src.len() as int, col + (src.len() - pos))
        } else {
            skip_ws(src, e + 2, col + (e + 2 - pos))
        }
    } else {
        (pos, col)
    }
}

/// `skip_ws` moves forward only, stays within the input, and advances the
/// column once per character passed over.
pub proof fn lemma_skip_ws(src: Seq<char>, pos: int, col: int)
    requires
        0 <= pos <= src.len(),
    ensures
        pos <= skip_ws(src, pos, col).0 <= src.len(),
        skip_ws(src, pos, col).1 - col == skip_ws(src, pos, col).0 - pos,
    decreases src.len() - pos,
{
    if 0 <= pos && pos < src.len() && is_space_char(src[pos]) {
        lemma_skip_ws(src, pos + 1, col + 1);
    } else if 0 <= pos && pos < src.len() && src[pos] == '<' && pos + 1 < src.len() && src[pos
        + 1] == '*' {
        let e = comment_end(src, pos + 2);
        lemma_comment_end(src, pos + 2);
        if e < src.len() {
            lemma_skip_ws(src, e + 2, col + (e + 2 - pos));
        }
    }
}

/// The end of a maximal run of identifier-continuation characters.
pub open spec fn ident_end(src: Seq<char>, pos: int) -> int
    decreases src.len() - pos,
{
    if 0 <= pos && pos < src.len() && is_ident_part_char(src[pos]) {
        ident_end(src, pos + 1)
    } else {
        pos
    }
}

/// `ident_end` stays within the input.
pub proof fn lemma_ident_end(src: Seq<char>, pos: int)
    requires
        0 <= pos <= src.len(),
    ensures
        pos <= ident_end(src, pos) <= src.len(),
    decreases src.len() - pos,
{
    if 0 <= pos && pos < src.len() && is_ident_part_char(src[pos]) {
        lemma_ident_end(src, pos + 1);
    }
}

/// The end of a maximal run of decimal digits.
pub open spec fn digits_end(src: Seq<char>, pos: int) -> int
    decreases src.len() - pos,
{
    if 0 <= pos && pos < src.len() && is_digit_char(src[pos]) {
        digits_end(src, pos + 1)
    } else {
        pos
    }
}

/// `digits_end` stays within the input.
pub proof fn lemma_digits_end(src: Seq<char>, pos: int)
    requires
        0 <= pos <= src.len(),
    ensures
        pos <= digits_end(src, pos) <= src.len(),
    decreases src.len() - pos,
{
    if 0 <= pos && pos < src.len() && is_digit_char(src[pos]) {
        lemma_digits_end(src, pos + 1);
    }
}

/// The end of a number literal whose first digit stands just before `pos`:
/// a digit run, optionally followed by a single `.` and a further digit run.
pub open spec fn number_end(src: Seq<char>, pos: int) -> int {
    let d = digits_end(src, pos);
    if d < src.len() && src[d] == '.' {
        digits_end(src, d + 1)
    } else {
        d
    }
}

/// `number_end` stays within the input.
pub proof fn lemma_number_end(src: Seq<char>, pos: int)
    requires
        0 <= pos <= src.len(),
    ensures
        pos <= number_end(src, pos) <= src.len(),
{
    lemma_digits_end(src, pos);
    let d = digits_end(src, pos);
    if d < src.len() && src[d] == '.' {
        lemma_digits_end(src, d + 1);
    }
}

/// Scans the body of a quoted string starting just after the opening quote,
/// resolving escapes.  Returns the accumulated text, the position and column
/// just past the closing quote, and whether a closing quote was found; an
/// unterminated string consumes the rest of the input.
pub open spec fn scan_string_body(src: Seq<char>, pos: int, col: int, acc: Seq<char>) -> (
    Seq<char>,
    int,
    int,
    bool,
)
    decreases src.len() - pos,
{
    if pos < 0 || pos >= src.len() {
        (acc, pos, col, false)
    } else if is_quote_char(src[pos]) {
        (acc, pos + 1, col + 1, true)
    } else if src[pos] == '\\' && pos + 1 < src.len() {
        scan_string_body(src, pos + 2, col + 2, acc.push(unescape_char(src[pos + 1])))
    } else {
        scan_string_body(src, pos + 1, col + 1, acc.push(src[pos]))
    }
}

/// `scan_string_body` moves forward within the input, advances the column
/// once per character, and reaches the end of input exactly when no closing
/// quote is found.
pub proof fn lemma_scan_string_body(src: Seq<char>, pos: int, col: int, acc: Seq<char>)
    requires
        0 <= pos <= src.len(),
    ensures
        pos <= scan_string_body(src, pos, col, acc).1 <= src.len(),
        scan_string_body(src, pos, col, acc).2 - col == scan_string_body(src, pos, col, acc).1
            - pos,
        !scan_string_body(src, pos, col, acc).3 ==> scan_string_body(src, pos, col, acc).1
            == src.len(),
    decreases src.len() - pos,
{
    if pos < 0 || pos >= src.len() {
    } else if is_quote_char(src[pos]) {
    } else if src[pos] == '\\' && pos + 1 < src.len() {
        lemma_scan_string_body(src, pos + 2, col + 2, acc.push(unescape_char(src[pos + 1])));
    } else {
        lemma_scan_string_body(src, pos + 1, col + 1, acc.push(src[pos]));
    }
}

/// Scans the body of a template string starting just after the opening
/// back-tick.  Interpolation placeholders are not parsed here; the raw text
/// is kept for the evaluator.
pub open spec fn scan_template_body(src: Seq<char>, pos: int, col: int, acc: Seq<char>) -> (
    Seq<char>,
    int,
    int,
    bool,
)
    decreases src.len() - pos,
{
    if pos < 0 || pos >= src.len() {
        (acc, pos, col, false)
    } else if src[pos] == '`' {
        (acc, pos + 1, col + 1, true)
    } else if src[pos] == '\\' && pos + 1 < src.len() {
        scan_template_body(src, pos + 2, col + 2, acc.push(unescape_char(src[pos + 1])))
    } else {
        scan_template_body(src, pos + 1, col + 1, acc.push(src[pos]))
    }
}

/// Counterpart of [`lemma_scan_string_body`] for templates.
pub proof fn lemma_scan_template_body(src: Seq<char>, pos: int, col: int, acc: Seq<char>)
    requires
        0 <= pos <= src.len(),
    ensures
        pos <= scan_template_body(src, pos, col, acc).1 <= src.len(),
        scan_template_body(src, pos, col, acc).2 - col == scan_template_body(src, pos, col, acc).1
            - pos,
        !scan_template_body(src, pos, col, acc).3 ==> scan_template_body(src, pos, col, acc).1
            == src.len(),
    decreases src.len() - pos,
{
    if pos < 0 || pos >= src.len() {
    } else if src[pos] == '`' {
    } else if src[pos] == '\\' && pos + 1 < src.len() {
        lemma_scan_template_body(src, pos + 2, col + 2, acc.push(unescape_char(src[pos + 1])));
    } else {
        lemma_scan_template_body(src, pos + 1, col + 1, acc.push(src[pos]));
    }
}

/// The fixed keyword table: reserved words, boolean and null/undefined
/// literals.  Lookup is exact and case-sensitive.
pub open spec fn keyword_kind(w: Seq<char>) -> Option<KindV> {
    if w == "init"@ {
        Some(KindV::Init)
    } else if w == "if"@ {
        Some(KindV::If)
    } else if w == "elif"@ {
        Some(KindV::Elif)
    } else if w == "else"@ {
        Some(KindV::Else)
    } else if w == "for"@ {
        Some(KindV::For)
    } else if w == "while"@ {
        Some(KindV::While)
    } else if w == "in"@ {
        Some(KindV::In)
    } else if w == "try"@ {
        Some(KindV::Try)
    } else if w == "catch"@ {
        Some(KindV::Catch)
    } else if w == "finally"@ {
        Some(KindV::Finally)
    } else if w == "throw"@ {
        Some(KindV::Throw)
    } else if w == "class"@ {
        Some(KindV::Class)
    } else if w == "extends"@ {
        Some(KindV::Extends)
    } else if w == "fixed"@ {
        Some(KindV::Fixed)
    } else if w == "return"@ {
        Some(KindV::Return)
    } else if w == "log"@ {
        Some(KindV::Log)
    } else if w == "get"@ {
        Some(KindV::Get)
    } else if w == "from"@ {
        Some(KindV::From)
    } else if w == "range"@ {
        Some(KindV::Range)
    } else if w == "secure"@ {
        Some(KindV::Secure)
    } else if w == "true"@ {
        Some(KindV::BooleanLiteral(true))
    } else if w == "false"@ {
        Some(KindV::BooleanLiteral(false))
    } else if w == "null"@ {
        Some(KindV::Null)
    } else if w == "undefined"@ {
        Some(KindV::Undefined)
    } else {
        None
    }
}

/// The spec-level state of a lexer.
pub ghost struct LexerV {
    pub source: Seq<char>,
    pub position: int,
    pub line: int,
    pub column: int,
}

/// What one spec-level scanning step produces: the token's kind and
/// position, and the lexer state afterwards.
pub ghost struct LexOut {
    pub kind: KindV,
    pub token_line: int,
    pub token_column: int,
    pub position: int,
    pub line: int,
    pub column: int,
}

/// The spec-level scanner: from a lexer state, the next token and the state
/// after it.  Newlines are consumed by recursing; every other case consumes
/// the characters of exactly one token.
pub open spec fn next_token_v(st: LexerV) -> LexOut
    decreases st.source.len() - st.position,
{
    let src = st.source;
    let sk = skip_ws(src, st.position, st.column);
    let p = sk.0;
    let c = sk.1;
    let line = st.line;
    proof {
        if 0 <= st.position <= src.len() {
            lemma_skip_ws(src, st.position, st.column);
        }
    }
    if p >= src.len() || p < 0 {
        LexOut { kind: KindV::EOF, token_line: line, token_column: c, position: p, line, column: c }
    } else {
        let ch = src[p];
        let p1 = p + 1;
        let c1 = c + 1;
        if ch == '(' {
            LexOut { kind: KindV::LeftParen, token_line: line, token_column: c, position: p1, line, column: c1 }
        } else if ch == ')' {
            LexOut { kind: KindV::RightParen, token_line: line, token_column: c, position: p1, line, column: c1 }
        } else if ch == '{' {
            LexOut { kind: KindV::LeftBrace, token_line: line, token_column: c, position: p1, line, column: c1 }
        } else if ch == '}' {
            LexOut { kind: KindV::RightBrace, token_line: line, token_column: c, position: p1, line, column: c1 }
        } else if ch == '[' {
            LexOut { kind: KindV::LeftBracket, token_line: line, token_column: c, position: p1, line, column: c1 }
        } else if ch == ']' {
            LexOut { kind: KindV::RightBracket, token_line: line, token_column: c, position: p1, line, column: c1 }
        } else if ch == ':' {
            LexOut { kind: KindV::Colon, token_line: line, token_column: c, position: p1, line, column: c1 }
        } else if ch == ';' {
            LexOut { kind: KindV::Semicolon, token_line: line, token_column: c, position: p1, line, column: c1 }
        } else if ch == ',' {
            LexOut { kind: KindV::Comma, token_line: line, token_column: c, position: p1, line, column: c1 }
        } else if ch == '.' {
            LexOut { kind: KindV::Dot, token_line: line, token_column: c, position: p1, line, column: c1 }
        } else if ch == '*' {
            LexOut { kind: KindV::Star, token_line: line, token_column: c, position: p1, line, column: c1 }
        } else if ch == '+' {
            LexOut { kind: KindV::Plus, token_line: line, token_column: c, position: p1, line, column: c1 }
        } else if ch == '-' {
            if p1 < src.len() && src[p1] == '>' {
                LexOut { kind: KindV::Arrow, token_line: line, token_column: c, position: p1 + 1, line, column: c1 + 1 }
            } else {
                LexOut { kind: KindV::Minus, token_line: line, token_column: c, position: p1, line, column: c1 }
            }
        } else if ch == '/' {
            LexOut { kind: KindV::Slash, token_line: line, token_column: c, position: p1, line, column: c1 }
        } else if ch == '%' {
            LexOut { kind: KindV::Percent, token_line: line, token_column: c, position: p1, line, column: c1 }
        } else if ch == '?' {
            LexOut { kind: KindV::Question, token_line: line, token_column: c, position: p1, line, column: c1 }
        } else if ch == '=' {
            if p1 < src.len() && src[p1] == '=' {
                LexOut { kind: KindV::DoubleEqual, token_line: line, token_column: c, position: p1 + 1, line, column: c1 + 1 }
            } else {
                LexOut { kind: KindV::Equal, token_line: line, token_column: c, position: p1, line, column: c1 }
            }
        } else if ch == '!' {
            // `!` and `!=` both lex to NotEqual: bare `!` has no token of
            // its own in this language
            if p1 < src.len() && src[p1] == '=' {
                LexOut { kind: KindV::NotEqual, token_line: line, token_column: c, position: p1 + 1, line, column: c1 + 1 }
            } else {
                LexOut { kind: KindV::NotEqual, token_line: line, token_column: c, position: p1, line, column: c1 }
            }
        } else if ch == '>' {
            if p1 < src.len() && src[p1] == '=' {
                LexOut { kind: KindV::GreaterEqual, token_line: line, token_column: c, position: p1 + 1, line, column: c1 + 1 }
            } else {
                LexOut { kind: KindV::Greater, token_line: line, token_column: c, position: p1, line, column: c1 }
            }
        } else if ch == '<' {
            if p1 < src.len() && src[p1] == '=' {
                LexOut { kind: KindV::LessEqual, token_line: line, token_column: c, position: p1 + 1, line, column: c1 + 1 }
            } else {
                LexOut { kind: KindV::Less, token_line: line, token_column: c, position: p1, line, column: c1 }
            }
        } else if is_quote_char(ch) {
            let r = scan_string_body(src, p1, c1, Seq::empty());
            if r.3 {
                LexOut { kind: KindV::StringLiteral(r.0), token_line: line, token_column: c, position: r.1, line, column: r.2 }
            } else {
                // unterminated string: an EOF token at the string's start
                LexOut { kind: KindV::EOF, token_line: line, token_column: c, position: r.1, line, column: r.2 }
            }
        } else if ch == '`' {
            let r = scan_template_body(src, p1, c1, Seq::empty());
            if r.3 {
                LexOut { kind: KindV::TemplateString(r.0), token_line: line, token_column: c, position: r.1, line, column: r.2 }
            } else {
                LexOut { kind: KindV::EOF, token_line: line, token_column: c, position: r.1, line, column: r.2 }
            }
        } else if is_digit_char(ch) {
            let e = number_end(src, p1);
            LexOut { kind: KindV::NumberLiteral(src.subrange(p, e)), token_line: line, token_column: c, position: e, line, column: c + (e - p) }
        } else if is_ident_start_char(ch) {
            let e = ident_end(src, p1);
            let w = src.subrange(p, e);
            let kind = match keyword_kind(w) {
                Some(k) => k,
                None => KindV::Identifier(w),
            };
            LexOut { kind, token_line: line, token_column: c, position: e, line, column: c + (e - p) }
        } else if ch == '\n' {
            next_token_v(LexerV { source: src, position: p1, line: line + 1, column: 1 })
        } else {
            LexOut { kind: KindV::Unknown(ch), token_line: line, token_column: c, position: p1, line, column: c1 }
        }
    }
}

/// The exec character class used for identifier starts.
pub fn is_identifier_start(c: char) -> (r: bool)
    ensures
        r == is_ident_start_char(c),
{
    let u = c as u32;
    (65 <= u && u <= 90) || (97 <= u && u <= 122) || c == '_' || c == '$'
}

/// The exec character class used for identifier continuations.
pub fn is_identifier_part(c: char) -> (r: bool)
    ensures
        r == is_ident_part_char(c),
{
    let u = c as u32;
    is_identifier_start(c) || (48 <= u && u <= 57)
}

/// The exec test for an ASCII decimal digit.
fn is_digit(c: char) -> (r: bool)
    ensures
        r == is_digit_char(c),
{
    let u = c as u32;
    48 <= u && u <= 57
}

/// The exec escape resolution shared by strings and templates.
fn unescape(c: char) -> (r: char)
    ensures
        r == unescape_char(c),
{
    if c == 'n' {
        '\n'
    } else if c == 't' {
        '\t'
    } else {
        c
    }
}

/// The exec keyword table lookup.
fn keyword_lookup(w: &String) -> (r: Option<TokenKind>)
    ensures
        match r {
            Some(k) => keyword_kind(w@) == Some(k@),
            None => keyword_kind(w@) is None,
        },
{
    if string_is(w, "init") {
        Some(TokenKind::Init)
    } else if string_is(w, "if") {
        Some(TokenKind::If)
    } else if string_is(w, "elif") {
        Some(TokenKind::Elif)
    } else if string_is(w, "else") {
        Some(TokenKind::Else)
    } else if string_is(w, "for") {
        Some(TokenKind::For)
    } else if string_is(w, "while") {
        Some(TokenKind::While)
    } else if string_is(w, "in") {
        Some(TokenKind::In)
    } else if string_is(w, "try") {
        Some(TokenKind::Try)
    } else if string_is(w, "catch") {
        Some(TokenKind::Catch)
    } else if string_is(w, "finally") {
        Some(TokenKind::Finally)
    } else if string_is(w, "throw") {
        Some(TokenKind::Throw)
    } else if string_is(w, "class") {
        Some(TokenKind::Class)
    } else if string_is(w, "extends") {
        Some(TokenKind::Extends)
    } else if string_is(w, "fixed") {
        Some(TokenKind::Fixed)
    } else if string_is(w, "return") {
        Some(TokenKind::Return)
    } else if string_is(w, "log") {
        Some(TokenKind::Log)
    } else if string_is(w, "get") {
        Some(TokenKind::Get)
    } else if string_is(w, "from") {
        Some(TokenKind::From)
    } else if string_is(w, "range") {
        Some(TokenKind::Range)
    } else if string_is(w, "secure") {
        Some(TokenKind::Secure)
    } else if string_is(w, "true") {
        Some(TokenKind::BooleanLiteral(true))
    } else if string_is(w, "false") {
        Some(TokenKind::BooleanLiteral(false))
    } else if string_is(w, "null") {
        Some(TokenKind::Null)
    } else if string_is(w, "undefined") {
        Some(TokenKind::Undefined)
    } else {
        None
    }
}

/// The lexer: the source as a character sequence, the current position, and
/// 1-based line/column bookkeeping for diagnostics.
pub struct Lexer {
    pub source: Vec<char>,
    pub position: usize,
    pub line: usize,
    pub column: usize,
}

impl View for Lexer {
    type V = LexerV;

    open spec fn view(&self) -> LexerV {
        LexerV {
            source: self.source@,
            position: self.position as int,
            line: self.line as int,
            column: self.column as int,
        }
    }
}

impl Lexer {
    /// Well-formedness: the position stays within the source, and the
    /// 1-based line/column counters never outrun the characters consumed.
    pub open spec fn wf(&self) -> bool {
        &&& self.source@.len() < usize::MAX
        &&& self.position <= self.source@.len()
        &&& 1 <= self.line as int <= self.position as int + 1
        &&& 1 <= self.column as int <= self.position as int + 1
    }

    /// Creates a lexer over the given source text, standing at its start.
    #[verifier::loop_isolation(false)]
    pub fn new(source: &str) -> (r: Lexer)
        requires
            source@.len() < usize::MAX,
        ensures
            r.wf(),
            r@ == (LexerV { source: source@, position: 0, line: 1, column: 1 }),
    {
        let chars = crate::text::chars_of(source);
        Lexer { source: chars, position: 0, line: 1, column: 1 }
    }

    /// Whether the whole input has been consumed.
    fn is_at_end(&self) -> (r: bool)
        ensures
            r == (self@.position >= self@.source.len()),
    {
        self.position >= self.source.len()
    }

    /// Consumes and returns the character at the current position.
    fn advance(&mut self) -> (c: char)
        requires
            old(self).wf(),
            old(self)@.position < old(self)@.source.len(),
        ensures
            final(self).wf(),
            c == old(self)@.source[old(self)@.position],
            final(self)@ == (LexerV {
                position: old(self)@.position + 1,
                column: old(self)@.column + 1,
                ..old(self)@
            }),
    {
        let ch = self.source[self.position];
        self.position = self.position + 1;
        self.column = self.column + 1;
        ch
    }

    /// The character at the current position, or `'\0'` at the end.
    fn peek(&self) -> (c: char)
        ensures
            c == (if self@.position >= self@.source.len() {
                '\0'
            } else {
                self@.source[self@.position]
            }),
    {
        if self.position >= self.source.len() {
            '\0'
        } else {
            self.source[self.position]
        }
    }

    /// The character `offset` places ahead, or `'\0'` past the end.
    fn peek_ahead(&self, offset: usize) -> (c: char)
        requires
            self@.position + offset <= usize::MAX,
        ensures
            c == (if self@.position + offset >= self@.source.len() {
                '\0'
            } else {
                self@.source[self@.position + offset]
            }),
    {
        if self.position + offset >= self.source.len() {
            '\0'
        } else {
            self.source[self.position + offset]
        }
    }

    /// Consumes the current character exactly when it equals `expected`.
    fn match_char(&mut self, expected: char) -> (r: bool)
        requires
            old(self).wf(),
        ensures
            final(self).wf(),
            r == (old(self)@.position < old(self)@.source.len() && old(self)@.source[old(
                self,
            )@.position] == expected),
            r ==> final(self)@ == (LexerV {
                position: old(self)@.position + 1,
                column: old(self)@.column + 1,
                ..old(self)@
            }),
            !r ==> final(self)@ == old(self)@,
    {
        if self.position >= self.source.len() || self.source[self.position] != expected {
            return false;
        }
        self.position = self.position + 1;
        self.column = self.column + 1;
        true
    }

    /// Builds a token carrying the given kind and source position.
    fn make_token(&self, kind: TokenKind, line: usize, column: usize) -> (r: Token)
        ensures
            r@.kind == kind@,
            r@.line == line as int,
            r@.column == column as int,
    {
        Token { kind, line, column }
    }

    /// Skips insignificant whitespace and block comments, as [`skip_ws`]
    /// describes.
    #[verifier::loop_isolation(false)]
    fn skip_whitespace_and_comments(&mut self)
        requires
            old(self).wf(),
        ensures
            final(self).wf(),
            final(self)@.source == old(self)@.source,
            final(self)@.line == old(self)@.line,
            final(self)@.position == skip_ws(old(self)@.source, old(self)@.position, old(self)@.column).0,
            final(self)@.column == skip_ws(old(self)@.source, old(self)@.position, old(self)@.column).1,
            final(self)@.position >= old(self)@.position,
    {
        let ghost src = old(self)@.source;
        let ghost pos0 = old(self)@.position;
        let ghost col0 = old(self)@.column;
        proof {
            lemma_skip_ws(src, pos0, col0);
        }
        loop
            invariant
                self.wf(),
                self@.source == src,
                self@.line == old(self)@.line,
                pos0 <= self@.position,
                self@.column - col0 == self@.position - pos0,
                skip_ws(src, pos0, col0) == skip_ws(src, self@.position, self@.column),
            decreases src.len() - self@.position,
        {
            if self.is_at_end() {
                break;
            }
            let c = self.source[self.position];
            let ghost p = self@.position;
            let ghost cc = self@.column;
            if c == ' ' || c == '\r' || c == '\t' {
                self.advance();
                proof {
                    assert(skip_ws(src, p, cc) == skip_ws(src, p + 1, cc + 1));
                }
            } else if c == '<' && self.peek_ahead(1) == '*' {
                self.advance();
                self.advance();
                proof {
                    lemma_comment_end(src, p + 2);
                }
                loop
                    invariant
                        self.wf(),
                        self@.source == src,
                        self@.line == old(self)@.line,
                        p + 2 <= self@.position,
                        self@.column - cc == self@.position - p,
                        comment_end(src, p + 2) == comment_end(src, self@.position),
                    decreases src.len() - self@.position,
                {
                    if self.is_at_end() {
                        break;
                    }
                    if self.peek() == '*' && self.peek_ahead(1) == '>' {
                        break;
                    }
                    let ghost q = self@.position;
                    self.advance();
                    proof {
                        assert(comment_end(src, q) == comment_end(src, q + 1));
                    }
                }
                proof {
                    assert(comment_end(src, p + 2) == self@.position);
                }
                if !self.is_at_end() {
                    self.advance();
                    self.advance();
                    proof {
                        assert(skip_ws(src, p, cc) == skip_ws(src, self@.position, self@.column));
                    }
                } else {
                    proof {
                        assert(skip_ws(src, p, cc) == (src.len() as int, cc + (src.len() - p)));
                        assert(skip_ws(src, self@.position, self@.column) == (
                            self@.position,
                            self@.column,
                        ));
                    }
                }
            } else {
                break;
            }
        }
        proof {
            assert(skip_ws(src, self@.position, self@.column) == (self@.position, self@.column));
        }
    }

    /// Scans the tail of an identifier whose first character was just
    /// consumed, and classifies the word against the keyword table.
    #[verifier::loop_isolation(false)]
    fn scan_identifier(&mut self, first: char, line: usize, column: usize) -> (r: Token)
        requires
            old(self).wf(),
            1 <= old(self)@.position,
            old(self)@.source[old(self)@.position - 1] == first,
        ensures
            final(self).wf(),
            final(self)@.source == old(self)@.source,
            final(self)@.line == old(self)@.line,
            final(self)@.position == ident_end(old(self)@.source, old(self)@.position),
            final(self)@.column == old(self)@.column + (final(self)@.position
                - old(self)@.position),
            r@.line == line as int,
            r@.column == column as int,
            r@.kind == (match keyword_kind(
                old(self)@.source.subrange(
                    old(self)@.position - 1,
                    ident_end(old(self)@.source, old(self)@.position),
                ),
            ) {
                Some(k) => k,
                None => KindV::Identifier(
                    old(self)@.source.subrange(
                        old(self)@.position - 1,
                        ident_end(old(self)@.source, old(self)@.position),
                    ),
                ),
            }),
    {
        let ghost src = old(self)@.source;
        let ghost pos0 = old(self)@.position;
        let mut ident = String::new();
        push_char(&mut ident, first);
        proof {
            lemma_ident_end(src, pos0);
            assert(ident@ =~= src.subrange(pos0 - 1, pos0));
        }
        loop
            invariant
                self.wf(),
                self@.source == src,
                self@.line == old(self)@.line,
                pos0 <= self@.position <= src.len(),
                self@.column - old(self)@.column == self@.position - pos0,
                ident@ == src.subrange(pos0 - 1, self@.position),
                ident_end(src, pos0) == ident_end(src, self@.position),
            decreases src.len() - self@.position,
        {
            if self.is_at_end() {
                break;
            }
            let c = self.source[self.position];
            if !is_identifier_part(c) {
                break;
            }
            let ghost q = self@.position;
            let ch = self.advance();
            push_char(&mut ident, ch);
            proof {
                assert(ident@ =~= src.subrange(pos0 - 1, q + 1));
                assert(ident_end(src, q) == ident_end(src, q + 1));
            }
        }
        let kind = match keyword_lookup(&ident) {
            Some(k) => k,
            None => TokenKind::Identifier(ident),
        };
        self.make_token(kind, line, column)
    }

    /// Scans the tail of a number literal whose first digit was just
    /// consumed: a digit run with one optional `.` and a further digit run.
    #[verifier::loop_isolation(false)]
    fn scan_number(&mut self, first: char, line: usize, column: usize) -> (r: Token)
        requires
            old(self).wf(),
            1 <= old(self)@.position,
            old(self)@.source[old(self)@.position - 1] == first,
        ensures
            final(self).wf(),
            final(self)@.source == old(self)@.source,
            final(self)@.line == old(self)@.line,
            final(self)@.position == number_end(old(self)@.source, old(self)@.position),
            final(self)@.column == old(self)@.column + (final(self)@.position
                - old(self)@.position),
            r@.line == line as int,
            r@.column == column as int,
            r@.kind == KindV::NumberLiteral(
                old(self)@.source.subrange(
                    old(self)@.position - 1,
                    number_end(old(self)@.source, old(self)@.position),
                ),
            ),
    {
        let ghost src = old(self)@.source;
        let ghost pos0 = old(self)@.position;
        let mut number = String::new();
        push_char(&mut number, first);
        proof {
            lemma_number_end(src, pos0);
            lemma_digits_end(src, pos0);
            assert(number@ =~= src.subrange(pos0 - 1, pos0));
        }
        loop
            invariant
                self.wf(),
                self@.source == src,
                self@.line == old(self)@.line,
                pos0 <= self@.position <= src.len(),
                self@.column - old(self)@.column == self@.position - pos0,
                number@ == src.subrange(pos0 - 1, self@.position),
                digits_end(src, pos0) == digits_end(src, self@.position),
            decreases src.len() - self@.position,
        {
            if self.is_at_end() {
                break;
            }
            let c = self.source[self.position];
            if !is_digit(c) {
                break;
            }
            let ghost q = self@.position;
            let ch = self.advance();
            push_char(&mut number, ch);
            proof {
                assert(number@ =~= src.subrange(pos0 - 1, q + 1));
                assert(digits_end(src, q) == digits_end(src, q + 1));
            }
        }
        let ghost d = digits_end(src, pos0);
        if !self.is_at_end() && self.source[self.position] == '.' {
            let ghost q = self@.position;
            let ch = self.advance();
            push_char(&mut number, ch);
            proof {
                assert(number@ =~= src.subrange(pos0 - 1, q + 1));
                lemma_digits_end(src, d + 1);
            }
            loop
                invariant
                    self.wf(),
                    self@.source == src,
                    self@.line == old(self)@.line,
                    d + 1 <= self@.position <= src.len(),
                    self@.column - old(self)@.column == self@.position - pos0,
                    number@ == src.subrange(pos0 - 1, self@.position),
                    digits_end(src, d + 1) == digits_end(src, self@.position),
                decreases src.len() - self@.position,
            {
                if self.is_at_end() {
                    break;
                }
                let c = self.source[self.position];
                if !is_digit(c) {
                    break;
                }
                let ghost q2 = self@.position;
                let ch2 = self.advance();
                push_char(&mut number, ch2);
                proof {
                    assert(number@ =~= src.subrange(pos0 - 1, q2 + 1));
                    assert(digits_end(src, q2) == digits_end(src, q2 + 1));
                }
            }
        }
        self.make_token(TokenKind::NumberLiteral(number), line, column)
    }

    /// Scans a quoted string whose opening quote was just consumed, as
    /// [`scan_string_body`] describes; an unterminated string degrades to an
    /// `EOF` token at the string's start position.
    #[verifier::loop_isolation(false)]
    fn scan_string(&mut self, line: usize, column: usize) -> (r: Token)
        requires
            old(self).wf(),
        ensures
            final(self).wf(),
            final(self)@.source == old(self)@.source,
            final(self)@.line == old(self)@.line,
            final(self)@.position == scan_string_body(
                old(self)@.source,
                old(self)@.position,
                old(self)@.column,
                Seq::empty(),
            ).1,
            final(self)@.column == scan_string_body(
                old(self)@.source,
                old(self)@.position,
                old(self)@.column,
                Seq::empty(),
            ).2,
            r@.line == line as int,
            r@.column == column as int,
            r@.kind == (if scan_string_body(
                old(self)@.source,
                old(self)@.position,
                old(self)@.column,
                Seq::empty(),
            ).3 {
                KindV::StringLiteral(
                    scan_string_body(
                        old(self)@.source,
                        old(self)@.position,
                        old(self)@.column,
                        Seq::empty(),
                    ).0,
                )
            } else {
                KindV::EOF
            }),
    {
        let ghost src = old(self)@.source;
        let ghost pos0 = old(self)@.position;
        let ghost col0 = old(self)@.column;
        let mut text = String::new();
        proof {
            lemma_scan_string_body(src, pos0, col0, Seq::empty());
        }
        loop
            invariant
                self.wf(),
                self@.source == src,
                self@.line == old(self)@.line,
                pos0 <= self@.position <= src.len(),
                scan_string_body(src, pos0, col0, Seq::empty()) == scan_string_body(
                    src,
                    self@.position,
                    self@.column,
                    text@,
                ),
            decreases src.len() - self@.position,
        {
            if self.is_at_end() {
                break;
            }
            let c = self.source[self.position];
            if c == '"' || c == '\'' {
                break;
            }
            let ghost q = self@.position;
            let ghost qc = self@.column;
            let ghost acc = text@;
            let ch = self.advance();
            if ch == '\\' && !self.is_at_end() {
                let next = self.advance();
                push_char(&mut text, unescape(next));
                proof {
                    assert(scan_string_body(src, q, qc, acc) == scan_string_body(
                        src,
                        q + 2,
                        qc + 2,
                        acc.push(unescape_char(src[q + 1])),
                    ));
                }
            } else {
                push_char(&mut text, ch);
                proof {
                    assert(scan_string_body(src, q, qc, acc) == scan_string_body(
                        src,
                        q + 1,
                        qc + 1,
                        acc.push(src[q]),
                    ));
                }
            }
        }
        if self.is_at_end() {
            return self.make_token(TokenKind::EOF, line, column);
        }
        self.advance();
        self.make_token(TokenKind::StringLiteral(text), line, column)
    }

    /// Scans a template string whose opening back-tick was just consumed, as
    /// [`scan_template_body`] describes; the raw text, placeholders
    /// included, is kept for the evaluator.
    #[verifier::loop_isolation(false)]
    fn scan_template_string(&mut self, line: usize, column: usize) -> (r: Token)
        requires
            old(self).wf(),
        ensures
            final(self).wf(),
            final(self)@.source == old(self)@.source,
            final(self)@.line == old(self)@.line,
            final(self)@.position == scan_template_body(
                old(self)@.source,
                old(self)@.position,
                old(self)@.column,
                Seq::empty(),
            ).1,
            final(self)@.column == scan_template_body(
                old(self)@.source,
                old(self)@.position,
                old(self)@.column,
                Seq::empty(),
            ).2,
            r@.line == line as int,
            r@.column == column as int,
            r@.kind == (if scan_template_body(
                old(self)@.source,
                old(self)@.position,
                old(self)@.column,
                Seq::empty(),
            ).3 {
                KindV::TemplateString(
                    scan_template_body(
                        old(self)@.source,
                        old(self)@.position,
                        old(self)@.column,
                        Seq::empty(),
                    ).0,
                )
            } else {
                KindV::EOF
            }),
    {
        let ghost src = old(self)@.source;
        let ghost pos0 = old(self)@.position;
        let ghost col0 = old(self)@.column;
        let mut content = String::new();
        proof {
            lemma_scan_template_body(src, pos0, col0, Seq::empty());
        }
        loop
            invariant
                self.wf(),
                self@.source == src,
                self@.line == old(self)@.line,
                pos0 <= self@.position <= src.len(),
                scan_template_body(src, pos0, col0, Seq::empty()) == scan_template_body(
                    src,
                    self@.position,
                    self@.column,
                    content@,
                ),
            decreases src.len() - self@.position,
        {
            if self.is_at_end() {
                break;
            }
            let c = self.source[self.position];
            if c == '`' {
                break;
            }
            let ghost q = self@.position;
            let ghost qc = self@.column;
            let ghost acc = content@;
            let ch = self.advance();
            if ch == '\\' && !self.is_at_end() {
                let next = self.advance();
                push_char(&mut content, unescape(next));
                proof {
                    assert(scan_template_body(src, q, qc, acc) == scan_template_body(
                        src,
                        q + 2,
                        qc + 2,
                        acc.push(unescape_char(src[q + 1])),
                    ));
                }
            } else {
                push_char(&mut content, ch);
                proof {
                    assert(scan_template_body(src, q, qc, acc) == scan_template_body(
                        src,
                        q + 1,
                        qc + 1,
                        acc.push(src[q]),
                    ));
                }
            }
        }
        if self.is_at_end() {
            return self.make_token(TokenKind::EOF, line, column);
        }
        self.advance();
        self.make_token(TokenKind::TemplateString(content), line, column)
    }

    /// Produces the next token, advancing the lexer exactly as the
    /// spec-level scanner [`next_token_v`] describes.  Exhausted input
    /// yields `EOF` on every call.
    pub fn next_token(&mut self) -> (r: Token)
        requires
            old(self).wf(),
        ensures
            final(self).wf(),
            final(self)@.source == old(self)@.source,
            final(self)@.position == next_token_v(old(self)@).position,
            final(self)@.line == next_token_v(old(self)@).line,
            final(self)@.column == next_token_v(old(self)@).column,
            r@.kind == next_token_v(old(self)@).kind,
            r@.line == next_token_v(old(self)@).token_line,
            r@.column == next_token_v(old(self)@).token_column,
        decreases self.source@.len() - self.position,
    {
        self.skip_whitespace_and_comments();
        let line = self.line;
        let column = self.column;
        if self.is_at_end() {
            return self.make_token(TokenKind::EOF, line, column);
        }
        let c = self.advance();
        match c {
            '(' => self.make_token(TokenKind::LeftParen, line, column),
            ')' => self.make_token(TokenKind::RightParen, line, column),
            '{' => self.make_token(TokenKind::LeftBrace, line, column),
            '}' => self.make_token(TokenKind::RightBrace, line, column),
            '[' => self.make_token(TokenKind::LeftBracket, line, column),
            ']' => self.make_token(TokenKind::RightBracket, line, column),
            ':' => self.make_token(TokenKind::Colon, line, column),
            ';' => self.make_token(TokenKind::Semicolon, line, column),
            ',' => self.make_token(TokenKind::Comma, line, column),
            '.' => self.make_token(TokenKind::Dot, line, column),
            '*' => self.make_token(TokenKind::Star, line, column),
            '+' => self.make_token(TokenKind::Plus, line, column),
            '-' => {
                if self.match_char('>') {
                    self.make_token(TokenKind::Arrow, line, column)
                } else {
                    self.make_token(TokenKind::Minus, line, column)
                }
            },
            '/' => self.make_token(TokenKind::Slash, line, column),
            '%' => self.make_token(TokenKind::Percent, line, column),
            '?' => self.make_token(TokenKind::Question, line, column),
            '=' => {
                if self.match_char('=') {
                    self.make_token(TokenKind::DoubleEqual, line, column)
                } else {
                    self.make_token(TokenKind::Equal, line, column)
                }
            },
            '!' => {
                // `!` and `!=` both produce NotEqual: bare `!` has no
                // dedicated token in this language
                if self.match_char('=') {
                    self.make_token(TokenKind::NotEqual, line, column)
                } else {
                    self.make_token(TokenKind::NotEqual, line, column)
                }
            },
            '>' => {
                if self.match_char('=') {
                    self.make_token(TokenKind::GreaterEqual, line, column)
                } else {
                    self.make_token(TokenKind::Greater, line, column)
                }
            },
            '<' => {
                if self.match_char('=') {
                    self.make_token(TokenKind::LessEqual, line, column)
                } else {
                    self.make_token(TokenKind::Less, line, column)
                }
            },
            '"' => self.scan_string(line, column),
            '\'' => self.scan_string(line, column),
            '`' => self.scan_template_string(line, column),
            '\n' => {
                self.line = self.line + 1;
                self.column = 1;
                self.next_token()
            },
            _ => {
                if is_digit(c) {
                    self.scan_number(c, line, column)
                } else if is_identifier_start(c) {
                    self.scan_identifier(c, line, column)
                } else {
                    self.make_token(TokenKind::Unknown(c), line, column)
                }
            },
        }
    }
}

/// `next_token_v` never moves backwards, stays within the input, consumes at
/// least one character for every token but `EOF`, and stands at the end of
/// input whenever it yields `EOF`.
pub proof fn lemma_next_token_progress(st: LexerV)
    requires
        0 <= st.position <= st.source.len(),
    ensures
        st.position <= next_token_v(st).position <= st.source.len(),
        !(next_token_v(st).kind is EOF) ==> next_token_v(st).position > st.position,
        next_token_v(st).kind is EOF ==> next_token_v(st).position == st.source.len(),
    decreases st.source.len() - st.position,
{
    let src = st.source;
    let sk = skip_ws(src, st.position, st.column);
    lemma_skip_ws(src, st.position, st.column);
    let p = sk.0;
    let c = sk.1;
    if p < src.len() {
        let ch = src[p];
        let p1 = p + 1;
        let c1 = c + 1;
        if is_quote_char(ch) {
            lemma_scan_string_body(src, p1, c1, Seq::empty());
        } else if ch == '`' {
            lemma_scan_template_body(src, p1, c1, Seq::empty());
        } else if is_digit_char(ch) {
            lemma_number_end(src, p1);
        } else if is_ident_start_char(ch) {
            lemma_ident_end(src, p1);
        } else if ch == '\n' {
            lemma_next_token_progress(LexerV { source: src, position: p1, line: st.line + 1, column: 1 });
        }
    }
}

/// Like [`lemma_next_token_progress`], but without any assumption on the
/// state: a scan that yields anything but `EOF` started inside the input.
pub proof fn lemma_next_token_in_range(st: LexerV)
    ensures
        !(next_token_v(st).kind is EOF) ==> 0 <= st.position && st.position
            < next_token_v(st).position <= st.source.len(),
{
    if 0 <= st.position <= st.source.len() {
        lemma_next_token_progress(st);
    }
}

/// Idempotence at the end of input: once the scanner yields `EOF`, every
/// further call yields `EOF` again and leaves the state unchanged.
pub proof fn lemma_eof_idempotent(st: LexerV)
    requires
        0 <= st.position <= st.source.len(),
        next_token_v(st).kind is EOF,
    ensures
        ({
            let o = next_token_v(st);
            let st2 = LexerV { source: st.source, position: o.position, line: o.line, column: o.column };
            &&& next_token_v(st2).kind is EOF
            &&& next_token_v(st2).position == o.position
            &&& next_token_v(st2).line == o.line
            &&& next_token_v(st2).column == o.column
        }),
{
    lemma_next_token_progress(st);
    let o = next_token_v(st);
    let st2 = LexerV { source: st.source, position: o.position, line: o.line, column: o.column };
    assert(skip_ws(st.source, st2.position, st2.column) == (st2.position, st2.column));
}

/// A block comment standing where whitespace is legal is skipped wholesale:
/// scanning at its `<*` is the same as scanning just past its `*>`, with
/// only the column bookkeeping moved over the comment's characters.
pub proof fn lemma_comment_skipped(st: LexerV, e: int)
    requires
        0 <= st.position,
        st.position + 1 < st.source.len(),
        st.source[st.position] == '<',
        st.source[st.position + 1] == '*',
        comment_end(st.source, st.position + 2) == e,
        e + 2 <= st.source.len(),
    ensures
        next_token_v(st) == next_token_v(
            LexerV {
                source: st.source,
                position: e + 2,
                line: st.line,
                column: st.column + (e + 2 - st.position),
            },
        ),
{
    assert(skip_ws(st.source, st.position, st.column) == skip_ws(
        st.source,
        e + 2,
        st.column + (e + 2 - st.position),
    ));
}

/// The token stream of a whole input: one token per scanning step, ending
/// with the single `EOF` token that every stream carries.
pub open spec fn tokenize_v(st: LexerV) -> Seq<TokenV>
    decreases st.source.len() - st.position + 1,
{
    let o = next_token_v(st);
    let t = TokenV { kind: o.kind, line: o.token_line, column: o.token_column };
    if o.kind is EOF {
        seq![t]
    } else {
        proof {
            lemma_next_token_in_range(st);
        }
        seq![t] + tokenize_v(
            LexerV { source: st.source, position: o.position, line: o.line, column: o.column },
        )
    }
}

/// Runs a fresh lexer over the whole source: the returned tokens are exactly
/// the spec-level token stream, ending in `EOF`.
#[verifier::loop_isolation(false)]
pub fn tokenize(source: &str) -> (r: Vec<Token>)
    requires
        source@.len() < usize::MAX,
    ensures
        tokens_view(r@) == tokenize_v(LexerV { source: source@, position: 0, line: 1, column: 1 }),
        r@.len() > 0,
        r@[r@.len() - 1].kind is EOF,
        forall|i: int| 0 <= i < r@.len() - 1 ==> !((#[trigger] r@[i]).kind is EOF),
{
    let ghost st0 = LexerV { source: source@, position: 0, line: 1, column: 1 };
    let mut lexer = Lexer::new(source);
    let mut tokens: Vec<Token> = Vec::new();
    loop
        invariant
            lexer.wf(),
            lexer@.source == source@,
            tokenize_v(st0) == tokens_view(tokens@) + tokenize_v(lexer@),
            forall|i: int| 0 <= i < tokens@.len() ==> !((#[trigger] tokens@[i]).kind@ is EOF),
        decreases lexer@.source.len() - lexer@.position + 1,
    {
        let ghost prev = lexer@;
        let t = lexer.next_token();
        let is_eof = matches!(t.kind, TokenKind::EOF);
        proof {
            lemma_next_token_in_range(prev);
            assert(tokens_view(tokens@.push(t)) =~= tokens_view(tokens@).push(t@));
        }
        tokens.push(t);
        if is_eof {
            proof {
                assert(tokenize_v(prev) =~= seq![t@]);
                assert(tokens_view(tokens@) =~= tokenize_v(st0));
            }
            break;
        }
        proof {
            assert(tokenize_v(prev) =~= seq![t@] + tokenize_v(lexer@));
            assert(tokens_view(tokens@) + tokenize_v(lexer@) =~= tokenize_v(st0));
        }
    }
    proof {
        assert(tokens@[tokens@.len() - 1]@.kind is EOF);
    }
    tokens
}

} // verus!
