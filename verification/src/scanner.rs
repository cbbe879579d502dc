//! Tokens and the scanner: a single forward pass over the source
//! characters that emits a token sequence ending in `Eof`.

use vstd::prelude::*;
use crate::errors::ErrorKind;
use crate::text::{str_eq, string_range, str_to_chars};

verus! {

/// The closed alphabet of token tags.  A `String` literal carries the
/// inner text without the quotes; a `Number` literal carries the
/// saturated value of its integer digits (fractional digits are
/// scanned per the grammar but numbers here are 64-bit integers).
#[derive(Debug, PartialEq)]
pub enum TokenType {
    LeftParen,
    RightParen,
    LeftBrace,
    RightBrace,
    Comma,
    Dot,
    Minus,
    Plus,
    Semicolon,
    Slash,
    Star,
    Bang,
    BangEqual,
    Equal,
    EqualEqual,
    Greater,
    GreaterEqual,
    Less,
    LessEqual,
    Identifier,
    String(String),
    Number(i64),
    And,
    Class,
    Else,
    False,
    Fun,
    For,
    If,
    Nil,
    Or,
    Print,
    Return,
    Super,
    This,
    True,
    Var,
    While,
    Eof,
}

/// Mathematical model of a token tag: text payloads become character
/// sequences.
#[verifier::ext_equal]
pub enum TokenTypeV {
    LeftParen,
    RightParen,
    LeftBrace,
    RightBrace,
    Comma,
    Dot,
    Minus,
    Plus,
    Semicolon,
    Slash,
    Star,
    Bang,
    BangEqual,
    Equal,
    EqualEqual,
    Greater,
    GreaterEqual,
    Less,
    LessEqual,
    Identifier,
    String(Seq<char>),
    Number(i64),
    And,
    Class,
    Else,
    False,
    Fun,
    For,
    If,
    Nil,
    Or,
    Print,
    Return,
    Super,
    This,
    True,
    Var,
    While,
    Eof,
}

pub open spec fn tt_view(t: TokenType) -> TokenTypeV {
    match t {
        TokenType::LeftParen => TokenTypeV::LeftParen,
        TokenType::RightParen => TokenTypeV::RightParen,
        TokenType::LeftBrace => TokenTypeV::LeftBrace,
        TokenType::RightBrace => TokenTypeV::RightBrace,
        TokenType::Comma => TokenTypeV::Comma,
        TokenType::Dot => TokenTypeV::Dot,
        TokenType::Minus => TokenTypeV::Minus,
        TokenType::Plus => TokenTypeV::Plus,
        TokenType::Semicolon => TokenTypeV::Semicolon,
        TokenType::Slash => TokenTypeV::Slash,
        TokenType::Star => TokenTypeV::Star,
        TokenType::Bang => TokenTypeV::Bang,
        TokenType::BangEqual => TokenTypeV::BangEqual,
        TokenType::Equal => TokenTypeV::Equal,
        TokenType::EqualEqual => TokenTypeV::EqualEqual,
        TokenType::Greater => TokenTypeV::Greater,
        TokenType::GreaterEqual => TokenTypeV::GreaterEqual,
        TokenType::Less => TokenTypeV::Less,
        TokenType::LessEqual => TokenTypeV::LessEqual,
        TokenType::Identifier => TokenTypeV::Identifier,
        TokenType::String(s) => TokenTypeV::String(s@),
        TokenType::Number(n) => TokenTypeV::Number(n),
        TokenType::And => TokenTypeV::And,
        TokenType::Class => TokenTypeV::Class,
        TokenType::Else => TokenTypeV::Else,
        TokenType::False => TokenTypeV::False,
        TokenType::Fun => TokenTypeV::Fun,
        TokenType::For => TokenTypeV::For,
        TokenType::If => TokenTypeV::If,
        TokenType::Nil => TokenTypeV::Nil,
        TokenType::Or => TokenTypeV::Or,
        TokenType::Print => TokenTypeV::Print,
        TokenType::Return => TokenTypeV::Return,
        TokenType::Super => TokenTypeV::Super,
        TokenType::This => TokenTypeV::This,
        TokenType::True => TokenTypeV::True,
        TokenType::Var => TokenTypeV::Var,
        TokenType::While => TokenTypeV::While,
        TokenType::Eof => TokenTypeV::Eof,
    }
}

/// A token: its tag, the exact source substring that produced it, and
/// the 1-based line it started on.
#[derive(Debug, PartialEq)]
pub struct Token {
    pub ty: TokenType,
    pub lexeme: String,
    pub line: usize,
}

/// Mathematical model of a token.
#[verifier::ext_equal]
pub struct TokenV {
    pub ty: TokenTypeV,
    pub lexeme: Seq<char>,
    pub line: nat,
}

pub open spec fn token_view(t: Token) -> TokenV {
    TokenV { ty: tt_view(t.ty), lexeme: t.lexeme@, line: t.line as nat }
}

impl View for Token {
    type V = TokenV;

    open spec fn view(&self) -> TokenV {
        token_view(*self)
    }
}

pub open spec fn tokens_view(ts: Seq<Token>) -> Seq<TokenV> {
    ts.map(|i: int, t: Token| token_view(t))
}

impl Token {
    pub fn new(ty: TokenType, lexeme: &str, line: usize) -> (t: Token)
        ensures
            t@ == (TokenV { ty: tt_view(ty), lexeme: lexeme@, line: line as nat }),
    {
        Token { ty, lexeme: lexeme.to_owned(), line }
    }
}

/// Structural equality of token tags, payloads included.
#[verifier::rlimit(60)]
pub fn tt_eq(a: &TokenType, b: &TokenType) -> (r: bool)
    ensures
        r == (tt_view(*a) == tt_view(*b)),
{
    match a {
        TokenType::LeftParen => matches!(b, TokenType::LeftParen),
        TokenType::RightParen => matches!(b, TokenType::RightParen),
        TokenType::LeftBrace => matches!(b, TokenType::LeftBrace),
        TokenType::RightBrace => matches!(b, TokenType::RightBrace),
        TokenType::Comma => matches!(b, TokenType::Comma),
        TokenType::Dot => matches!(b, TokenType::Dot),
        TokenType::Minus => matches!(b, TokenType::Minus),
        TokenType::Plus => matches!(b, TokenType::Plus),
        TokenType::Semicolon => matches!(b, TokenType::Semicolon),
        TokenType::Slash => matches!(b, TokenType::Slash),
        TokenType::Star => matches!(b, TokenType::Star),
        TokenType::Bang => matches!(b, TokenType::Bang),
        TokenType::BangEqual => matches!(b, TokenType::BangEqual),
        TokenType::Equal => matches!(b, TokenType::Equal),
        TokenType::EqualEqual => matches!(b, TokenType::EqualEqual),
        TokenType::Greater => matches!(b, TokenType::Greater),
        TokenType::GreaterEqual => matches!(b, TokenType::GreaterEqual),
        TokenType::Less => matches!(b, TokenType::Less),
        TokenType::LessEqual => matches!(b, TokenType::LessEqual),
        TokenType::Identifier => matches!(b, TokenType::Identifier),
        TokenType::String(x) => match b {
            TokenType::String(y) => *x == *y,
            _ => false,
        },
        TokenType::Number(x) => match b {
            TokenType::Number(y) => *x == *y,
            _ => false,
        },
        TokenType::And => matches!(b, TokenType::And),
        TokenType::Class => matches!(b, TokenType::Class),
        TokenType::Else => matches!(b, TokenType::Else),
        TokenType::False => matches!(b, TokenType::False),
        TokenType::Fun => matches!(b, TokenType::Fun),
        TokenType::For => matches!(b, TokenType::For),
        TokenType::If => matches!(b, TokenType::If),
        TokenType::Nil => matches!(b, TokenType::Nil),
        TokenType::Or => matches!(b, TokenType::Or),
        TokenType::Print => matches!(b, TokenType::Print),
        TokenType::Return => matches!(b, TokenType::Return),
        TokenType::Super => matches!(b, TokenType::Super),
        TokenType::This => matches!(b, TokenType::This),
        TokenType::True => matches!(b, TokenType::True),
        TokenType::Var => matches!(b, TokenType::Var),
        TokenType::While => matches!(b, TokenType::While),
        TokenType::Eof => matches!(b, TokenType::Eof),
    }
}

/// A copy of a token tag whose model is the same as the original's.
pub fn tt_dup(t: &TokenType) -> (r: TokenType)
    ensures
        tt_view(r) == tt_view(*t),
{
    match t {
        TokenType::LeftParen => TokenType::LeftParen,
        TokenType::RightParen => TokenType::RightParen,
        TokenType::LeftBrace => TokenType::LeftBrace,
        TokenType::RightBrace => TokenType::RightBrace,
        TokenType::Comma => TokenType::Comma,
        TokenType::Dot => TokenType::Dot,
        TokenType::Minus => TokenType::Minus,
        TokenType::Plus => TokenType::Plus,
        TokenType::Semicolon => TokenType::Semicolon,
        TokenType::Slash => TokenType::Slash,
        TokenType::Star => TokenType::Star,
        TokenType::Bang => TokenType::Bang,
        TokenType::BangEqual => TokenType::BangEqual,
        TokenType::Equal => TokenType::Equal,
        TokenType::EqualEqual => TokenType::EqualEqual,
        TokenType::Greater => TokenType::Greater,
        TokenType::GreaterEqual => TokenType::GreaterEqual,
        TokenType::Less => TokenType::Less,
        TokenType::LessEqual => TokenType::LessEqual,
        TokenType::Identifier => TokenType::Identifier,
        TokenType::String(s) => TokenType::String(s.clone()),
        TokenType::Number(n) => TokenType::Number(*n),
        TokenType::And => TokenType::And,
        TokenType::Class => TokenType::Class,
        TokenType::Else => TokenType::Else,
        TokenType::False => TokenType::False,
        TokenType::Fun => TokenType::Fun,
        TokenType::For => TokenType::For,
        TokenType::If => TokenType::If,
        TokenType::Nil => TokenType::Nil,
        TokenType::Or => TokenType::Or,
        TokenType::Print => TokenType::Print,
        TokenType::Return => TokenType::Return,
        TokenType::Super => TokenType::Super,
        TokenType::This => TokenType::This,
        TokenType::True => TokenType::True,
        TokenType::Var => TokenType::Var,
        TokenType::While => TokenType::While,
        TokenType::Eof => TokenType::Eof,
    }
}

/// A copy of a token whose model is the same as the original's.
pub fn token_dup(t: &Token) -> (r: Token)
    ensures
        r@ == t@,
{
    Token { ty: tt_dup(&t.ty), lexeme: t.lexeme.clone(), line: t.line }
}

/// Structural equality of tokens: tag, lexeme and line.
pub fn token_eq(a: &Token, b: &Token) -> (r: bool)
    ensures
        r == (a@ == b@),
{
    tt_eq(&a.ty, &b.ty) && a.lexeme == b.lexeme && a.line == b.line
}

// ---------------------------------------------------------------------
// The scanner's mathematical model: one step classifies the characters
// at the current position, a driver folds steps into the token
// sequence.

pub open spec fn is_digit_spec(c: char) -> bool {
    '0' <= c && c <= '9'
}

pub open spec fn is_alpha_spec(c: char) -> bool {
    ('a' <= c && c <= 'z') || ('A' <= c && c <= 'Z') || c == '_'
}

pub open spec fn is_alpha_numeric_spec(c: char) -> bool {
    is_digit_spec(c) || is_alpha_spec(c)
}

/// The keyword table: a reserved word's tag, or `Identifier`.
pub open spec fn keyword_of(s: Seq<char>) -> TokenTypeV {
    if s == "and"@ {
        TokenTypeV::And
    } else if s == "class"@ {
        TokenTypeV::Class
    } else if s == "else"@ {
        TokenTypeV::Else
    } else if s == "false"@ {
        TokenTypeV::False
    } else if s == "for"@ {
        TokenTypeV::For
    } else if s == "fun"@ {
        TokenTypeV::Fun
    } else if s == "if"@ {
        TokenTypeV::If
    } else if s == "nil"@ {
        TokenTypeV::Nil
    } else if s == "or"@ {
        TokenTypeV::Or
    } else if s == "print"@ {
        TokenTypeV::Print
    } else if s == "return"@ {
        TokenTypeV::Return
    } else if s == "super"@ {
        TokenTypeV::Super
    } else if s == "this"@ {
        TokenTypeV::This
    } else if s == "true"@ {
        TokenTypeV::True
    } else if s == "var"@ {
        TokenTypeV::Var
    } else if s == "while"@ {
        TokenTypeV::While
    } else {
        TokenTypeV::Identifier
    }
}

/// The index just past a `//` comment: the next newline or the end.
pub open spec fn line_comment_end(src: Seq<char>, j: int) -> int
    decreases src.len() - j,
{
    if 0 <= j < src.len() && src[j] != '\n' {
        line_comment_end(src, j + 1)
    } else {
        j
    }
}

/// The index of the closing quote, or the end if there is none.
pub open spec fn string_end(src: Seq<char>, j: int) -> int
    decreases src.len() - j,
{
    if 0 <= j < src.len() && src[j] != '"' {
        string_end(src, j + 1)
    } else {
        j
    }
}

/// The index just past a run of digits.
pub open spec fn digits_end(src: Seq<char>, j: int) -> int
    decreases src.len() - j,
{
    if 0 <= j < src.len() && is_digit_spec(src[j]) {
        digits_end(src, j + 1)
    } else {
        j
    }
}

/// The index just past a run of identifier characters.
pub open spec fn ident_end(src: Seq<char>, j: int) -> int
    decreases src.len() - j,
{
    if 0 <= j < src.len() && is_alpha_numeric_spec(src[j]) {
        ident_end(src, j + 1)
    } else {
        j
    }
}

pub open spec fn count_newlines(s: Seq<char>) -> nat
    decreases s.len(),
{
    if s.len() == 0 {
        0
    } else {
        count_newlines(s.drop_last()) + if s.last() == '\n' {
            1nat
        } else {
            0nat
        }
    }
}

pub open spec fn digit_val(c: char) -> nat {
    if c == '0' {
        0
    } else if c == '1' {
        1
    } else if c == '2' {
        2
    } else if c == '3' {
        3
    } else if c == '4' {
        4
    } else if c == '5' {
        5
    } else if c == '6' {
        6
    } else if c == '7' {
        7
    } else if c == '8' {
        8
    } else {
        9
    }
}

/// The value of a digit string.
pub open spec fn dec_val(s: Seq<char>) -> nat
    decreases s.len(),
{
    if s.len() == 0 {
        0
    } else {
        dec_val(s.drop_last()) * 10 + digit_val(s.last())
    }
}

/// Values beyond the numeric range saturate at the largest number.
pub open spec fn sat_i64(n: nat) -> i64 {
    if n > i64::MAX {
        i64::MAX
    } else {
        n as i64
    }
}

/// Where a number token that starts at `i` ends: digits, and a
/// fractional part only when a digit follows the dot.
pub open spec fn num_end(src: Seq<char>, i: int) -> int {
    let de = digits_end(src, i);
    if de < src.len() && src[de] == '.' && de + 1 < src.len() && is_digit_spec(src[de + 1]) {
        digits_end(src, de + 1)
    } else {
        de
    }
}

/// The numeric payload of a number token starting at `i`: the value of
/// its integer digits.  Fractional digits are scanned per the grammar
/// but the carried value is the integer part: the numeric type of this
/// interpreter is a 64-bit integer.
pub open spec fn num_value(src: Seq<char>, i: int) -> i64 {
    sat_i64(dec_val(src.subrange(i, digits_end(src, i))))
}

/// One scanner step at position `i`.
pub enum StepV {
    /// A token, the next position, and the next line number.
    Tok(TokenV, int, int),
    /// Nothing emitted (spaces, newlines, comments).
    Skip(int, int),
    /// A scan error: its line and message.
    Fail(int, Seq<char>),
}

pub open spec fn tok1(ty: TokenTypeV, src: Seq<char>, i: int, line: int) -> StepV {
    StepV::Tok(
        TokenV { ty, lexeme: src.subrange(i, i + 1), line: line as nat },
        i + 1,
        line,
    )
}

pub open spec fn tok2(
    two: TokenTypeV,
    one: TokenTypeV,
    src: Seq<char>,
    i: int,
    line: int,
) -> StepV {
    if i + 1 < src.len() && src[i + 1] == '=' {
        StepV::Tok(
            TokenV { ty: two, lexeme: src.subrange(i, i + 2), line: line as nat },
            i + 2,
            line,
        )
    } else {
        tok1(one, src, i, line)
    }
}

/// What the scanner does with the character at `i`.
pub open spec fn scan_step(src: Seq<char>, i: int, line: int) -> StepV {
    let c = src[i];
    if c == '(' {
        tok1(TokenTypeV::LeftParen, src, i, line)
    } else if c == ')' {
        tok1(TokenTypeV::RightParen, src, i, line)
    } else if c == '{' {
        tok1(TokenTypeV::LeftBrace, src, i, line)
    } else if c == '}' {
        tok1(TokenTypeV::RightBrace, src, i, line)
    } else if c == ',' {
        tok1(TokenTypeV::Comma, src, i, line)
    } else if c == '.' {
        tok1(TokenTypeV::Dot, src, i, line)
    } else if c == '-' {
        tok1(TokenTypeV::Minus, src, i, line)
    } else if c == '+' {
        tok1(TokenTypeV::Plus, src, i, line)
    } else if c == ';' {
        tok1(TokenTypeV::Semicolon, src, i, line)
    } else if c == '*' {
        tok1(TokenTypeV::Star, src, i, line)
    } else if c == '!' {
        tok2(TokenTypeV::BangEqual, TokenTypeV::Bang, src, i, line)
    } else if c == '=' {
        tok2(TokenTypeV::EqualEqual, TokenTypeV::Equal, src, i, line)
    } else if c == '<' {
        tok2(TokenTypeV::LessEqual, TokenTypeV::Less, src, i, line)
    } else if c == '>' {
        tok2(TokenTypeV::GreaterEqual, TokenTypeV::Greater, src, i, line)
    } else if c == '/' {
        if i + 1 < src.len() && src[i + 1] == '/' {
            StepV::Skip(line_comment_end(src, i + 2), line)
        } else {
            tok1(TokenTypeV::Slash, src, i, line)
        }
    } else if c == ' ' || c == '\t' || c == '\r' {
        StepV::Skip(i + 1, line)
    } else if c == '\n' {
        StepV::Skip(i + 1, line + 1)
    } else if c == '"' {
        let e = string_end(src, i + 1);
        let line2 = line + count_newlines(src.subrange(i + 1, e));
        if e >= src.len() {
            StepV::Fail(line2, "Unterminated string."@)
        } else {
            StepV::Tok(
                TokenV {
                    ty: TokenTypeV::String(src.subrange(i + 1, e)),
                    lexeme: src.subrange(i, e + 1),
                    line: line2 as nat,
                },
                e + 1,
                line2,
            )
        }
    } else if is_digit_spec(c) {
        let e = num_end(src, i);
        StepV::Tok(
            TokenV {
                ty: TokenTypeV::Number(num_value(src, i)),
                lexeme: src.subrange(i, e),
                line: line as nat,
            },
            e,
            line,
        )
    } else if is_alpha_spec(c) {
        let e = ident_end(src, i);
        StepV::Tok(
            TokenV {
                ty: keyword_of(src.subrange(i, e)),
                lexeme: src.subrange(i, e),
                line: line as nat,
            },
            e,
            line,
        )
    } else {
        StepV::Fail(line, "Unexpected character: "@ + seq![c])
    }
}

pub open spec fn eof_token(line: int) -> TokenV {
    TokenV { ty: TokenTypeV::Eof, lexeme: "Eof"@, line: line as nat }
}

/// The whole token sequence from position `i` on, or the first error.
pub open spec fn scan_spec(src: Seq<char>, i: int, line: int) -> Result<
    Seq<TokenV>,
    (int, Seq<char>),
>
    decreases src.len() - i,
{
    if i < 0 || i >= src.len() {
        Ok(seq![eof_token(line)])
    } else {
        match scan_step(src, i, line) {
            StepV::Tok(t, j, l2) => {
                let j2 = if j < i + 1 {
                    i + 1
                } else if j > src.len() {
                    src.len() as int
                } else {
                    j
                };
                match scan_spec(src, j2, l2) {
                    Ok(ts) => Ok(seq![t] + ts),
                    Err(e) => Err(e),
                }
            },
            StepV::Skip(j, l2) => {
                let j2 = if j < i + 1 {
                    i + 1
                } else if j > src.len() {
                    src.len() as int
                } else {
                    j
                };
                scan_spec(src, j2, l2)
            },
            StepV::Fail(l, m) => Err((l, m)),
        }
    }
}

/// Scanning ends with exactly one `Eof`: the last token and no other.
pub proof fn lemma_scan_spec_eof(src: Seq<char>, i: int, line: int)
    ensures
        match scan_spec(src, i, line) {
            Ok(ts) => {
                &&& ts.len() >= 1
                &&& ts.last().ty is Eof
                &&& forall|j: int| 0 <= j < ts.len() - 1 ==> !((#[trigger] ts[j]).ty is Eof)
            },
            Err(_) => true,
        },
    decreases src.len() - i,
{
    if 0 <= i < src.len() {
        match scan_step(src, i, line) {
            StepV::Tok(t, j, l2) => {
                let j2 = if j < i + 1 {
                    i + 1
                } else if j > src.len() {
                    src.len() as int
                } else {
                    j
                };
                lemma_scan_spec_eof(src, j2, l2);
                match scan_spec(src, j2, l2) {
                    Ok(ts) => {
                        assert(!(t.ty is Eof));
                        assert forall|k: int|
                            0 <= k < (seq![t] + ts).len() - 1 implies !((#[trigger] (seq![t]
                            + ts)[k]).ty is Eof) by {
                            if k > 0 {
                                assert((seq![t] + ts)[k] == ts[k - 1]);
                            }
                        }
                        assert((seq![t] + ts).last() == ts.last());
                    },
                    Err(_) => {},
                }
            },
            StepV::Skip(j, l2) => {
                let j2 = if j < i + 1 {
                    i + 1
                } else if j > src.len() {
                    src.len() as int
                } else {
                    j
                };
                lemma_scan_spec_eof(src, j2, l2);
            },
            StepV::Fail(_, _) => {},
        }
    }
}

// ---------------------------------------------------------------------
// The executable scanner.

pub fn is_digit(c: char) -> (r: bool)
    ensures
        r == is_digit_spec(c),
{
    '0' <= c && c <= '9'
}

pub fn is_alpha(c: char) -> (r: bool)
    ensures
        r == is_alpha_spec(c),
{
    'a' <= c && c <= 'z' || 'A' <= c && c <= 'Z' || c == '_'
}

pub fn is_alpha_numeric(c: char) -> (r: bool)
    ensures
        r == is_alpha_numeric_spec(c),
{
    is_digit(c) || is_alpha(c)
}

/// The tag a completed word names: a keyword's, or `Identifier`.
fn keyword_lookup(s: &String) -> (t: TokenType)
    ensures
        tt_view(t) == keyword_of(s@),
{
    if str_eq(s.as_str(), "and") {
        TokenType::And
    } else if str_eq(s.as_str(), "class") {
        TokenType::Class
    } else if str_eq(s.as_str(), "else") {
        TokenType::Else
    } else if str_eq(s.as_str(), "false") {
        TokenType::False
    } else if str_eq(s.as_str(), "for") {
        TokenType::For
    } else if str_eq(s.as_str(), "fun") {
        TokenType::Fun
    } else if str_eq(s.as_str(), "if") {
        TokenType::If
    } else if str_eq(s.as_str(), "nil") {
        TokenType::Nil
    } else if str_eq(s.as_str(), "or") {
        TokenType::Or
    } else if str_eq(s.as_str(), "print") {
        TokenType::Print
    } else if str_eq(s.as_str(), "return") {
        TokenType::Return
    } else if str_eq(s.as_str(), "super") {
        TokenType::Super
    } else if str_eq(s.as_str(), "this") {
        TokenType::This
    } else if str_eq(s.as_str(), "true") {
        TokenType::True
    } else if str_eq(s.as_str(), "var") {
        TokenType::Var
    } else if str_eq(s.as_str(), "while") {
        TokenType::While
    } else {
        TokenType::Identifier
    }
}

fn digit_of_char(c: char) -> (d: u64)
    requires
        is_digit_spec(c),
    ensures
        d == digit_val(c),
        d < 10,
{
    if c == '0' {
        0
    } else if c == '1' {
        1
    } else if c == '2' {
        2
    } else if c == '3' {
        3
    } else if c == '4' {
        4
    } else if c == '5' {
        5
    } else if c == '6' {
        6
    } else if c == '7' {
        7
    } else if c == '8' {
        8
    } else {
        9
    }
}

pub proof fn lemma_count_newlines_le(s: Seq<char>)
    ensures
        count_newlines(s) <= s.len(),
    decreases s.len(),
{
    if s.len() > 0 {
        lemma_count_newlines_le(s.drop_last());
    }
}

/// The saturated numeric value of the digit run `src[a..b]`.
#[verifier::loop_isolation(false)]
fn dec_value_sat(src: &Vec<char>, a: usize, b: usize) -> (r: i64)
    requires
        a <= b <= src@.len(),
        forall|k: int| a <= k < b ==> is_digit_spec(src@[k]),
    ensures
        r == sat_i64(dec_val(src@.subrange(a as int, b as int))),
{
    let mut acc: u64 = 0;
    let mut sat = false;
    let mut i: usize = a;
    proof {
        assert(src@.subrange(a as int, a as int) =~= Seq::<char>::empty());
    }
    while i < b
        invariant
            a <= i <= b <= src@.len(),
            forall|k: int| a <= k < b ==> is_digit_spec(src@[k]),
            !sat ==> acc as nat == dec_val(src@.subrange(a as int, i as int)) && acc
                <= i64::MAX as u64,
            sat ==> dec_val(src@.subrange(a as int, i as int)) > i64::MAX,
        decreases b - i,
    {
        let d = digit_of_char(src[i]);
        proof {
            assert(src@.subrange(a as int, i + 1).drop_last() =~= src@.subrange(
                a as int,
                i as int,
            ));
            assert(src@.subrange(a as int, i + 1).last() == src@[i as int]);
        }
        if sat {
            proof {
                let prev = dec_val(src@.subrange(a as int, i as int));
                assert(prev * 10 + digit_val(src@[i as int]) > i64::MAX) by (nonlinear_arith)
                    requires
                        prev > i64::MAX,
                        digit_val(src@[i as int]) >= 0,
                ;
            }
        } else {
            let wide: u128 = (acc as u128) * 10 + (d as u128);
            if wide > i64::MAX as u128 {
                sat = true;
            } else {
                acc = wide as u64;
            }
        }
        i = i + 1;
    }
    if sat {
        i64::MAX
    } else {
        acc as i64
    }
}

/// The scanner: a single forward pass over the source characters.
pub struct Scanner {
    pub src: Vec<char>,
    pub tokens: Vec<Token>,
    pub line: usize,
    pub start: usize,
    pub current: usize,
}

/// Folds already-emitted tokens onto the tokens still to come.
pub open spec fn scan_glue(acc: Seq<TokenV>, r: Result<Seq<TokenV>, (int, Seq<char>)>) -> Result<
    Seq<TokenV>,
    (int, Seq<char>),
> {
    match r {
        Ok(ts) => Ok(acc + ts),
        Err(e) => Err(e),
    }
}

impl Scanner {
    pub fn new(s: &str) -> (sc: Scanner)
        ensures
            sc.src@ == s@,
            sc.tokens@.len() == 0,
            sc.line == 1,
            sc.start == 0,
            sc.current == 0,
    {
        Scanner { src: str_to_chars(s), tokens: Vec::new(), line: 1, start: 0, current: 0 }
    }

    /// The token sequence of the source, ending with exactly one `Eof`,
    /// or the first scan error.
    #[verifier::loop_isolation(false)]
    pub fn scan_tokens(self) -> (r: Result<Vec<Token>, ErrorKind>)
        requires
            self.current == 0,
            self.line == 1,
            self.tokens@.len() == 0,
            self.src@.len() < usize::MAX,
        ensures
            match r {
                Ok(ts) => {
                    &&& scan_spec(self.src@, 0, 1) == Ok::<Seq<TokenV>, (int, Seq<char>)>(tokens_view(ts@))
                    &&& ts@.len() >= 1
                    &&& tt_view(ts@.last().ty) is Eof
                    &&& forall|j: int|
                        0 <= j < ts@.len() - 1 ==> !(tt_view((#[trigger] ts@[j]).ty) is Eof)
                },
                Err(e) => {
                    &&& e matches ErrorKind::ScanError(l, m) && scan_spec(self.src@, 0, 1) == Err::<
                        Seq<TokenV>,
                        (int, Seq<char>),
                    >(((l as int), m@))
                },
            },
    {
        let mut sc = self;
        let ghost src0 = sc.src@;
        proof {
            match scan_spec(src0, 0, 1) {
                Ok(ts) => {
                    assert(Seq::<TokenV>::empty() + ts =~= ts);
                },
                Err(_) => {},
            }
        }
        while sc.current < sc.src.len()
            invariant
                sc.src@ == src0,
                sc.current <= src0.len(),
                src0.len() < usize::MAX,
                sc.line as int <= 1 + sc.current,
                1 <= sc.line,
                scan_glue(
                    tokens_view(sc.tokens@),
                    scan_spec(src0, sc.current as int, sc.line as int),
                ) == scan_spec(src0, 0, 1),
            decreases src0.len() - sc.current,
        {
            sc.start = sc.current;
            let ghost acc0 = tokens_view(sc.tokens@);
            let ghost cur0 = sc.current as int;
            let ghost line0 = sc.line as int;
            let res = sc.scan_token();
            match res {
                Err(e) => {
                    return Err(e);
                },
                Ok(()) => {
                    proof {
                        match scan_step(src0, cur0, line0) {
                            StepV::Tok(t, j, l2) => {
                                assert(scan_spec(src0, cur0, line0) == match scan_spec(
                                    src0,
                                    sc.current as int,
                                    sc.line as int,
                                ) {
                                    Ok(ts) => Ok(seq![t] + ts),
                                    Err(e2) => Err(e2),
                                });
                                match scan_spec(src0, sc.current as int, sc.line as int) {
                                    Ok(rest) => {
                                        assert(acc0 + (seq![t] + rest) =~= acc0.push(t) + rest);
                                    },
                                    Err(_) => {},
                                }
                            },
                            StepV::Skip(j, l2) => {},
                            StepV::Fail(_, _) => {},
                        }
                    }
                },
            }
        }
        let line = sc.line;
        let ghost acc_end = tokens_view(sc.tokens@);
        let t = Token::new(TokenType::Eof, "Eof", line);
        sc.tokens.push(t);
        proof {
            assert(scan_spec(src0, sc.current as int, sc.line as int) == Ok::<
                Seq<TokenV>,
                (int, Seq<char>),
            >(seq![eof_token(line as int)]));
            assert(tokens_view(sc.tokens@) =~= acc_end.push(eof_token(line as int)));
            assert(acc_end + seq![eof_token(line as int)] =~= acc_end.push(eof_token(line as int)));
            assert(scan_spec(src0, 0, 1) == Ok::<Seq<TokenV>, (int, Seq<char>)>(
                tokens_view(sc.tokens@),
            ));
            lemma_scan_spec_eof(src0, 0, 1);
            assert(tokens_view(sc.tokens@).len() == sc.tokens@.len());
            assert forall|j: int|
                0 <= j < sc.tokens@.len() - 1 implies !(tt_view((#[trigger] sc.tokens@[j]).ty)
                is Eof) by {
                assert(tokens_view(sc.tokens@)[j] == token_view(sc.tokens@[j]));
            }
            assert(tokens_view(sc.tokens@).last() == token_view(sc.tokens@.last()));
        }
        Ok(sc.tokens)
    }

    /// Emits a token whose lexeme is the source span scanned so far.
    fn add_token(&mut self, ty: TokenType)
        requires
            old(self).start <= old(self).current <= old(self).src@.len(),
        ensures
            final(self).src@ == old(self).src@,
            final(self).start == old(self).start,
            final(self).current == old(self).current,
            final(self).line == old(self).line,
            tokens_view(final(self).tokens@) == tokens_view(old(self).tokens@).push(
                TokenV {
                    ty: tt_view(ty),
                    lexeme: old(self).src@.subrange(
                        old(self).start as int,
                        old(self).current as int,
                    ),
                    line: old(self).line as nat,
                },
            ),
    {
        let ghost tyv = tt_view(ty);
        let lex = string_range(&self.src, self.start, self.current);
        let line = self.line;
        self.tokens.push(Token { ty, lexeme: lex, line });
        proof {
            assert(tokens_view(self.tokens@) =~= tokens_view(old(self).tokens@).push(
                TokenV {
                    ty: tyv,
                    lexeme: old(self).src@.subrange(
                        old(self).start as int,
                        old(self).current as int,
                    ),
                    line: old(self).line as nat,
                },
            ));
        }
    }

    /// Consumes the next character when it is the expected one.
    fn match_next(&mut self, expected: char) -> (r: bool)
        requires
            old(self).current <= old(self).src@.len(),
        ensures
            final(self).src@ == old(self).src@,
            final(self).tokens@ == old(self).tokens@,
            final(self).start == old(self).start,
            final(self).line == old(self).line,
            if old(self).current < old(self).src@.len() && old(self).src@[old(self).current as int]
                == expected {
                r && final(self).current == old(self).current + 1
            } else {
                !r && final(self).current == old(self).current
            },
    {
        if self.current < self.src.len() && self.src[self.current] == expected {
            self.current = self.current + 1;
            true
        } else {
            false
        }
    }

    /// One scanner step: consumes one lexeme, emits at most one token.
    #[verifier::loop_isolation(false)]
    fn scan_token(&mut self) -> (r: Result<(), ErrorKind>)
        requires
            old(self).current < old(self).src@.len(),
            old(self).src@.len() < usize::MAX,
            old(self).start == old(self).current,
            old(self).line as int <= 1 + old(self).current,
            1 <= old(self).line,
        ensures
            final(self).src@ == old(self).src@,
            final(self).current <= final(self).src@.len(),
            final(self).current > old(self).current,
            final(self).line as int <= 1 + final(self).current,
            1 <= final(self).line,
            match scan_step(old(self).src@, old(self).current as int, old(self).line as int) {
                StepV::Tok(t, j, l2) => {
                    &&& r is Ok
                    &&& tokens_view(final(self).tokens@) == tokens_view(old(self).tokens@).push(t)
                    &&& final(self).current as int == j
                    &&& final(self).line as int == l2
                },
                StepV::Skip(j, l2) => {
                    &&& r is Ok
                    &&& final(self).tokens@ == old(self).tokens@
                    &&& final(self).current as int == j
                    &&& final(self).line as int == l2
                },
                StepV::Fail(l, m) => {
                    &&& r matches Err(e)
                    &&& e matches ErrorKind::ScanError(l2, m2) && l2 as int == l && m2@ == m
                },
            },
    {
        let ghost src = self.src@;
        let ghost i = self.current as int;
        let ghost line0 = self.line as int;
        let c = self.src[self.current];
        self.current = self.current + 1;
        match c {
            '(' => {
                self.add_token(TokenType::LeftParen);
                Ok(())
            },
            ')' => {
                self.add_token(TokenType::RightParen);
                Ok(())
            },
            '{' => {
                self.add_token(TokenType::LeftBrace);
                Ok(())
            },
            '}' => {
                self.add_token(TokenType::RightBrace);
                Ok(())
            },
            ',' => {
                self.add_token(TokenType::Comma);
                Ok(())
            },
            '.' => {
                self.add_token(TokenType::Dot);
                Ok(())
            },
            '-' => {
                self.add_token(TokenType::Minus);
                Ok(())
            },
            '+' => {
                self.add_token(TokenType::Plus);
                Ok(())
            },
            ';' => {
                self.add_token(TokenType::Semicolon);
                Ok(())
            },
            '*' => {
                self.add_token(TokenType::Star);
                Ok(())
            },
            '!' => {
                let t = if self.match_next('=') {
                    TokenType::BangEqual
                } else {
                    TokenType::Bang
                };
                self.add_token(t);
                Ok(())
            },
            '=' => {
                let t = if self.match_next('=') {
                    TokenType::EqualEqual
                } else {
                    TokenType::Equal
                };
                self.add_token(t);
                Ok(())
            },
            '<' => {
                let t = if self.match_next('=') {
                    TokenType::LessEqual
                } else {
                    TokenType::Less
                };
                self.add_token(t);
                Ok(())
            },
            '>' => {
                let t = if self.match_next('=') {
                    TokenType::GreaterEqual
                } else {
                    TokenType::Greater
                };
                self.add_token(t);
                Ok(())
            },
            '/' => {
                if self.match_next('/') {
                    while self.current < self.src.len() && self.src[self.current] != '\n'
                        invariant
                            self.src@ == src,
                            i + 2 <= self.current <= src.len(),
                            self.tokens@ == old(self).tokens@,
                            self.line == old(self).line,
                            self.start == old(self).start,
                            line_comment_end(src, i + 2) == line_comment_end(
                                src,
                                self.current as int,
                            ),
                        decreases src.len() - self.current,
                    {
                        self.current = self.current + 1;
                    }
                    Ok(())
                } else {
                    self.add_token(TokenType::Slash);
                    Ok(())
                }
            },
            ' ' | '\t' | '\r' => Ok(()),
            '\n' => {
                self.line = self.line + 1;
                Ok(())
            },
            '"' => self.string(),
            c if is_digit(c) => {
                self.number();
                Ok(())
            },
            c if is_alpha(c) => {
                self.identifier();
                Ok(())
            },
            _ => {
                let mut m = String::from_str("Unexpected character: ");
                crate::text::push_char(&mut m, c);
                proof {
                    assert(m@ =~= "Unexpected character: "@ + seq![c]);
                }
                Err(ErrorKind::ScanError(self.line, m))
            },
        }
    }

    /// A string literal: consume to the closing quote, tracking
    /// embedded newlines; the payload is the text between the quotes.
    #[verifier::loop_isolation(false)]
    fn string(&mut self) -> (r: Result<(), ErrorKind>)
        requires
            old(self).current >= 1,
            old(self).current <= old(self).src@.len(),
            old(self).src@.len() < usize::MAX,
            old(self).start == old(self).current - 1,
            old(self).src@[old(self).start as int] == '"',
            old(self).line as int <= 1 + old(self).start,
            1 <= old(self).line,
        ensures
            final(self).src@ == old(self).src@,
            final(self).current <= final(self).src@.len(),
            final(self).current > old(self).start,
            final(self).line as int <= 1 + final(self).current,
            1 <= final(self).line,
            match scan_step(old(self).src@, old(self).start as int, old(self).line as int) {
                StepV::Tok(t, j, l2) => {
                    &&& r is Ok
                    &&& tokens_view(final(self).tokens@) == tokens_view(old(self).tokens@).push(t)
                    &&& final(self).current as int == j
                    &&& final(self).line as int == l2
                },
                StepV::Skip(j, l2) => false,
                StepV::Fail(l, m) => {
                    &&& r matches Err(e)
                    &&& e matches ErrorKind::ScanError(l2, m2) && l2 as int == l && m2@ == m
                },
            },
    {
        let ghost src = self.src@;
        let ghost j0 = self.current as int;
        let ghost line0 = self.line as int;
        proof {
            assert(src.subrange(j0, j0) =~= Seq::<char>::empty());
        }
        while self.current < self.src.len() && self.src[self.current] != '"'
            invariant
                self.src@ == src,
                j0 <= self.current <= src.len(),
                self.tokens@ == old(self).tokens@,
                self.start == old(self).start,
                src.len() < usize::MAX,
                string_end(src, j0) == string_end(src, self.current as int),
                self.line as int == line0 + count_newlines(src.subrange(j0, self.current as int)),
                line0 <= self.line,
                self.line as int <= 1 + self.current,
            decreases src.len() - self.current,
        {
            proof {
                assert(src.subrange(j0, self.current + 1).drop_last() =~= src.subrange(
                    j0,
                    self.current as int,
                ));
                assert(src.subrange(j0, self.current + 1).last() == src[self.current as int]);
                lemma_count_newlines_le(src.subrange(j0, self.current + 1));
            }
            if self.src[self.current] == '\n' {
                self.line = self.line + 1;
            }
            self.current = self.current + 1;
        }
        proof {
            lemma_count_newlines_le(src.subrange(j0, self.current as int));
        }
        if self.current >= self.src.len() {
            return Err(ErrorKind::ScanError(self.line, String::from_str("Unterminated string.")));
        }
        let contents = string_range(&self.src, self.start + 1, self.current);
        self.current = self.current + 1;
        self.add_token(TokenType::String(contents));
        Ok(())
    }

    /// A number: digits, and fractional digits when a digit follows
    /// the dot.  The carried value is the saturated integer part.
    #[verifier::loop_isolation(false)]
    fn number(&mut self)
        requires
            old(self).current >= 1,
            old(self).current <= old(self).src@.len(),
            old(self).src@.len() < usize::MAX,
            old(self).start == old(self).current - 1,
            is_digit_spec(old(self).src@[old(self).start as int]),
            old(self).line as int <= 1 + old(self).start,
            1 <= old(self).line,
        ensures
            final(self).src@ == old(self).src@,
            final(self).current <= final(self).src@.len(),
            final(self).current > old(self).start,
            final(self).line as int <= 1 + final(self).current,
            1 <= final(self).line,
            match scan_step(old(self).src@, old(self).start as int, old(self).line as int) {
                StepV::Tok(t, j, l2) => {
                    &&& tokens_view(final(self).tokens@) == tokens_view(old(self).tokens@).push(t)
                    &&& final(self).current as int == j
                    &&& final(self).line as int == l2
                },
                _ => false,
            },
    {
        let ghost src = self.src@;
        let ghost i = self.start as int;
        while self.current < self.src.len() && is_digit(self.src[self.current])
            invariant
                self.src@ == src,
                i + 1 <= self.current <= src.len(),
                self.tokens@ == old(self).tokens@,
                self.line == old(self).line,
                self.start == old(self).start,
                digits_end(src, i) == digits_end(src, self.current as int),
                forall|k: int| i <= k < self.current ==> is_digit_spec(src[k]),
            decreases src.len() - self.current,
        {
            self.current = self.current + 1;
        }
        proof {
            assert(digits_end(src, self.current as int) == self.current as int);
        }
        let de = self.current;
        let value = dec_value_sat(&self.src, self.start, de);
        if self.current + 1 < self.src.len() && self.src[self.current] == '.' && is_digit(
            self.src[self.current + 1],
        ) {
            self.current = self.current + 1;
            while self.current < self.src.len() && is_digit(self.src[self.current])
                invariant
                    self.src@ == src,
                    de + 1 <= self.current <= src.len(),
                    self.tokens@ == old(self).tokens@,
                    self.line == old(self).line,
                    self.start == old(self).start,
                    digits_end(src, de + 1) == digits_end(src, self.current as int),
                decreases src.len() - self.current,
            {
                self.current = self.current + 1;
            }
        }
        self.add_token(TokenType::Number(value));
    }

    /// An identifier or keyword.
    #[verifier::loop_isolation(false)]
    fn identifier(&mut self)
        requires
            old(self).current >= 1,
            old(self).current <= old(self).src@.len(),
            old(self).src@.len() < usize::MAX,
            old(self).start == old(self).current - 1,
            is_alpha_spec(old(self).src@[old(self).start as int]),
            old(self).line as int <= 1 + old(self).start,
            1 <= old(self).line,
        ensures
            final(self).src@ == old(self).src@,
            final(self).current <= final(self).src@.len(),
            final(self).current > old(self).start,
            final(self).line as int <= 1 + final(self).current,
            1 <= final(self).line,
            match scan_step(old(self).src@, old(self).start as int, old(self).line as int) {
                StepV::Tok(t, j, l2) => {
                    &&& tokens_view(final(self).tokens@) == tokens_view(old(self).tokens@).push(t)
                    &&& final(self).current as int == j
                    &&& final(self).line as int == l2
                },
                _ => false,
            },
    {
        let ghost src = self.src@;
        let ghost i = self.start as int;
        while self.current < self.src.len() && is_alpha_numeric(self.src[self.current])
            invariant
                self.src@ == src,
                i + 1 <= self.current <= src.len(),
                self.tokens@ == old(self).tokens@,
                self.line == old(self).line,
                self.start == old(self).start,
                ident_end(src, i) == ident_end(src, self.current as int),
            decreases src.len() - self.current,
        {
            self.current = self.current + 1;
        }
        let text = string_range(&self.src, self.start, self.current);
        let ty = keyword_lookup(&text);
        self.add_token(ty);
    }
}

} // verus!
