//! Lexer for decoration annotations.
//!
//! The token grammar: single-character punctuation `, = ( ) [ ] { } :`,
//! string literals in double quotes (no escapes), numbers (digits, optionally
//! a `.` followed by digits), the booleans `true` and `false`, and
//! identifiers (ASCII letter or `_`, then ASCII letters, digits or `_`).
//! Spaces, tabs, carriage returns and newlines separate tokens. Alternatives
//! are tried in that order, so `trueish` lexes as `true` followed by `ish`.

use vstd::prelude::*;
use vstd::utf8::{encode_utf8, encode_scalar};
use crate::error::{WezzteError, ErrorView};
use crate::text::{
    chars_of, string_of_range, push_str, push_char, to_owned_string, starts_with, find_from,
    is_ascii_digit, is_ascii_alpha, starts_with_at,
};

verus! {

broadcast use vstd::utf8::char_is_scalar;

/// Token types that can appear in decoration annotations.
#[derive(Debug, Clone, Copy, PartialEq, Eq, Structural)]
pub enum TokenType {
    /// Comma separator
    Comma,
    /// Equals sign
    Equal,
    /// Left parenthesis
    LParen,
    /// Right parenthesis
    RParen,
    /// Left bracket (for lists)
    LBracket,
    /// Right bracket
    RBracket,
    /// Left brace (for objects/dicts)
    LBrace,
    /// Right brace
    RBrace,
    /// Colon (for dict key:value)
    Colon,
    /// String literal (without quotes)
    String,
    /// Numeric literal
    Number,
    /// Identifier
    Identifier,
    /// Boolean literal
    Boolean,
    /// End of input
    Eof,
}

/// The display name of a token type.
pub open spec fn token_type_name(t: TokenType) -> Seq<char> {
    match t {
        TokenType::Comma => "COMMA"@,
        TokenType::Equal => "EQUAL"@,
        TokenType::LParen => "LPAREN"@,
        TokenType::RParen => "RPAREN"@,
        TokenType::LBracket => "LBRACKET"@,
        TokenType::RBracket => "RBRACKET"@,
        TokenType::LBrace => "LBRACE"@,
        TokenType::RBrace => "RBRACE"@,
        TokenType::Colon => "COLON"@,
        TokenType::String => "STRING"@,
        TokenType::Number => "NUMBER"@,
        TokenType::Identifier => "IDENTIFIER"@,
        TokenType::Boolean => "BOOLEAN"@,
        TokenType::Eof => "EOF"@,
    }
}

impl TokenType {
    /// The display name of this token type.
    pub fn name(&self) -> (r: &'static str)
        ensures
            r@ == token_type_name(*self),
    {
        match self {
            TokenType::Comma => "COMMA",
            TokenType::Equal => "EQUAL",
            TokenType::LParen => "LPAREN",
            TokenType::RParen => "RPAREN",
            TokenType::LBracket => "LBRACKET",
            TokenType::RBracket => "RBRACKET",
            TokenType::LBrace => "LBRACE",
            TokenType::RBrace => "RBRACE",
            TokenType::Colon => "COLON",
            TokenType::String => "STRING",
            TokenType::Number => "NUMBER",
            TokenType::Identifier => "IDENTIFIER",
            TokenType::Boolean => "BOOLEAN",
            TokenType::Eof => "EOF",
        }
    }
}

/// A token with its type, value, and byte position in the source.
#[derive(Debug, Clone, PartialEq)]
pub struct Token {
    pub token_type: TokenType,
    pub value: String,
    pub position: usize,
}

/// Model of a token.
pub struct Tok {
    pub kind: TokenType,
    pub text: Seq<char>,
    pub pos: usize,
}

impl View for Token {
    type V = Tok;

    open spec fn view(&self) -> Tok {
        Tok { kind: self.token_type, text: self.value@, pos: self.position }
    }
}

/// The models of a sequence of tokens.
pub open spec fn toks_of(ts: Seq<Token>) -> Seq<Tok> {
    ts.map_values(|t: Token| t@)
}

pub proof fn lemma_toks_of(ts: Seq<Token>)
    ensures
        toks_of(ts).len() == ts.len(),
        forall|i: int| 0 <= i < ts.len() ==> #[trigger] toks_of(ts)[i] == ts[i]@,
{
}

impl Token {
    pub fn new(token_type: TokenType, value: String, position: usize) -> (t: Token)
        ensures
            t@ == (Tok { kind: token_type, text: value@, pos: position }),
    {
        Token { token_type, value, position }
    }
}

// ---------------------------------------------------------------------
// Token grammar
// ---------------------------------------------------------------------

/// Whitespace between tokens.
pub open spec fn is_lex_ws(c: char) -> bool {
    c == ' ' || c == '\t' || c == '\r' || c == '\n'
}

pub open spec fn is_ident_start(c: char) -> bool {
    is_ascii_alpha(c) || c == '_'
}

pub open spec fn is_ident_char(c: char) -> bool {
    is_ident_start(c) || is_ascii_digit(c)
}

/// Length of the run of ASCII digits starting at `i`.
pub open spec fn digit_run(s: Seq<char>, i: int) -> nat
    decreases s.len() - i,
{
    if 0 <= i < s.len() && is_ascii_digit(s[i]) {
        1 + digit_run(s, i + 1)
    } else {
        0
    }
}

/// Length of the run of identifier characters starting at `i`.
pub open spec fn ident_run(s: Seq<char>, i: int) -> nat
    decreases s.len() - i,
{
    if 0 <= i < s.len() && is_ident_char(s[i]) {
        1 + ident_run(s, i + 1)
    } else {
        0
    }
}

pub open spec fn single_char_token(c: char) -> Option<TokenType> {
    if c == ',' {
        Some(TokenType::Comma)
    } else if c == '=' {
        Some(TokenType::Equal)
    } else if c == '(' {
        Some(TokenType::LParen)
    } else if c == ')' {
        Some(TokenType::RParen)
    } else if c == '[' {
        Some(TokenType::LBracket)
    } else if c == ']' {
        Some(TokenType::RBracket)
    } else if c == '{' {
        Some(TokenType::LBrace)
    } else if c == '}' {
        Some(TokenType::RBrace)
    } else if c == ':' {
        Some(TokenType::Colon)
    } else {
        None
    }
}

/// The token that starts at index `i` of `s` (not whitespace): its type and
/// the index just past it; `None` when no token starts there.
pub open spec fn scan_token(s: Seq<char>, i: int) -> Option<(TokenType, int)> {
    let c = s[i];
    if single_char_token(c) is Some {
        Some((single_char_token(c)->0, i + 1))
    } else if c == '"' {
        match find_from(s, seq!['"'], i + 1) {
            Some(j) => Some((TokenType::String, j + 1)),
            None => None,
        }
    } else if is_ascii_digit(c) {
        let d = i + digit_run(s, i);
        if d + 1 < s.len() && s[d] == '.' && is_ascii_digit(s[d + 1]) {
            Some((TokenType::Number, d + 1 + digit_run(s, d + 1)))
        } else {
            Some((TokenType::Number, d))
        }
    } else if starts_with(s.skip(i), "true"@) {
        Some((TokenType::Boolean, i + 4))
    } else if starts_with(s.skip(i), "false"@) {
        Some((TokenType::Boolean, i + 5))
    } else if is_ident_start(c) {
        Some((TokenType::Identifier, i + ident_run(s, i)))
    } else {
        None
    }
}

/// The value of a token spanning `s[i..end]`: a string literal loses its quotes.
pub open spec fn token_text(s: Seq<char>, i: int, kind: TokenType, end: int) -> Seq<char> {
    if kind == TokenType::String {
        s.subrange(i + 1, end - 1)
    } else {
        s.subrange(i, end)
    }
}

/// Byte offset of character index `i` in the UTF-8 encoding of `s`.
pub open spec fn byte_pos(s: Seq<char>, i: int) -> nat {
    encode_utf8(s.take(i)).len()
}

/// The input is small enough for every byte offset to fit in `usize`.
pub open spec fn fits_positions(s: Seq<char>) -> bool {
    encode_utf8(s).len() <= usize::MAX
}

/// The message for a character no token starts with.
pub open spec fn unexpected_char_message(c: char) -> Seq<char> {
    "Unexpected character: '"@ + seq![c] + "'"@
}

/// Tokens of `s[i..]`, ending with `Eof`, or the message and byte position
/// of the first character that starts no token.
pub open spec fn lex_from(s: Seq<char>, i: int) -> Result<Seq<Tok>, (Seq<char>, usize)>
    decreases s.len() - i,
{
    if i < 0 || i >= s.len() {
        Ok(seq![Tok { kind: TokenType::Eof, text: Seq::empty(), pos: byte_pos(s, s.len() as int) as usize }])
    } else if is_lex_ws(s[i]) {
        lex_from(s, i + 1)
    } else {
        match scan_token(s, i) {
            Some((k, e)) => if i < e <= s.len() {
                match lex_from(s, e) {
                    Ok(rest) => Ok(
                        seq![Tok { kind: k, text: token_text(s, i, k, e), pos: byte_pos(s, i) as usize }]
                            + rest,
                    ),
                    Err(x) => Err(x),
                }
            } else {
                Err((Seq::empty(), 0))
            },
            None => Err((unexpected_char_message(s[i]), byte_pos(s, i) as usize)),
        }
    }
}

/// The tokens of `s`.
pub open spec fn lex(s: Seq<char>) -> Result<Seq<Tok>, (Seq<char>, usize)> {
    lex_from(s, 0)
}

pub open spec fn prepend_toks(
    acc: Seq<Tok>,
    r: Result<Seq<Tok>, (Seq<char>, usize)>,
) -> Result<Seq<Tok>, (Seq<char>, usize)> {
    match r {
        Ok(t) => Ok(acc + t),
        Err(e) => Err(e),
    }
}

// ---------------------------------------------------------------------
// Lemmas
// ---------------------------------------------------------------------

pub proof fn lemma_encode_concat(a: Seq<char>, b: Seq<char>)
    ensures
        encode_utf8(a + b) == encode_utf8(a) + encode_utf8(b),
    decreases a.len(),
{
    if a.len() == 0 {
        assert(a + b =~= b);
        assert(encode_utf8(a) =~= Seq::<u8>::empty());
        assert(encode_utf8(a) + encode_utf8(b) =~= encode_utf8(b));
    } else {
        assert((a + b).drop_first() =~= a.drop_first() + b);
        assert((a + b)[0] == a[0]);
        lemma_encode_concat(a.drop_first(), b);
        assert(encode_utf8(a + b) =~= encode_scalar(a[0] as u32) + encode_utf8(a.drop_first() + b));
    }
}

pub proof fn lemma_byte_pos_step(s: Seq<char>, i: int)
    requires
        0 <= i < s.len(),
    ensures
        byte_pos(s, i + 1) == byte_pos(s, i) + encode_scalar(s[i] as u32).len(),
{
    assert(s.take(i + 1) =~= s.take(i) + seq![s[i]]);
    lemma_encode_concat(s.take(i), seq![s[i]]);
    assert(seq![s[i]].drop_first() =~= Seq::<char>::empty());
    assert(encode_utf8(seq![s[i]]) =~= encode_scalar(s[i] as u32) + encode_utf8(Seq::<char>::empty()));
}

pub proof fn lemma_byte_pos_mono(s: Seq<char>, i: int, j: int)
    requires
        0 <= i <= j <= s.len(),
    ensures
        byte_pos(s, i) <= byte_pos(s, j) <= encode_utf8(s).len(),
{
    assert(s.take(j) =~= s.take(i) + s.subrange(i, j));
    lemma_encode_concat(s.take(i), s.subrange(i, j));
    assert(s =~= s.take(j) + s.skip(j));
    lemma_encode_concat(s.take(j), s.skip(j));
}

/// A piece of an input whose positions fit has positions that fit.
pub proof fn lemma_fits_subrange(s: Seq<char>, i: int, j: int)
    requires
        fits_positions(s),
        0 <= i <= j <= s.len(),
    ensures
        fits_positions(s.subrange(i, j)),
{
    assert(s =~= s.take(i) + (s.subrange(i, j) + s.skip(j)));
    lemma_encode_concat(s.take(i), s.subrange(i, j) + s.skip(j));
    lemma_encode_concat(s.subrange(i, j), s.skip(j));
}

/// Lexing always ends with an end-of-input token.
pub proof fn lemma_lex_ends_with_eof(s: Seq<char>, i: int)
    ensures
        lex_from(s, i) matches Ok(ts) ==> ts.len() > 0 && ts.last().kind == TokenType::Eof,
    decreases s.len() - i,
{
    if i < 0 || i >= s.len() {
    } else if is_lex_ws(s[i]) {
        lemma_lex_ends_with_eof(s, i + 1);
    } else {
        match scan_token(s, i) {
            Some((k, e)) => if i < e <= s.len() {
                lemma_lex_ends_with_eof(s, e);
            },
            None => {},
        }
    }
}

/// A later character index starts at a larger byte offset.
proof fn lemma_byte_pos_strict(s: Seq<char>, i: int, j: int)
    requires
        0 <= i < j <= s.len(),
    ensures
        byte_pos(s, i) < byte_pos(s, j),
{
    lemma_byte_pos_mono(s, i, j - 1);
    lemma_byte_pos_step(s, j - 1);
    assert(encode_scalar(s[j - 1] as u32).len() >= 1);
}

/// The end-of-input token of `s`.
pub open spec fn eof_tok(s: Seq<char>) -> Tok {
    Tok { kind: TokenType::Eof, text: Seq::empty(), pos: byte_pos(s, s.len() as int) as usize }
}

/// Token `t` is the token spanning characters `i..e` of `s`: it starts at
/// the byte offset of `i`, and its text is the input's text there (for a
/// string, without the quotes that open and close it).
pub open spec fn token_spans(s: Seq<char>, t: Tok, i: int, e: int) -> bool {
    &&& 0 <= i < e <= s.len()
    &&& t.kind != TokenType::Eof
    &&& t.pos == byte_pos(s, i)
    &&& t.text == token_text(s, i, t.kind, e)
    &&& t.kind == TokenType::String ==> i + 2 <= e && s[i] == '"' && s[e - 1] == '"'
}

/// Token `t` spans some characters of `s` at or after index `lo`.
pub open spec fn spans_from(s: Seq<char>, t: Tok, lo: int) -> bool {
    exists|i: int, e: int| lo <= i && #[trigger] token_spans(s, t, i, e)
}

/// The token stream of `s[i0..]` ends with the one end-of-input token, each
/// other token spans characters at or after `i0`, and positions strictly
/// increase.
proof fn lemma_lex_from_tokens(s: Seq<char>, i0: int)
    requires
        0 <= i0,
        fits_positions(s),
    ensures
        lex_from(s, i0) matches Ok(ts) ==> ts.len() > 0 && ts.last() == eof_tok(s),
        lex_from(s, i0) matches Ok(ts) ==> forall|j: int| 0 <= j < ts.len() - 1 ==> #[trigger] spans_from(s, ts[j], i0),
        lex_from(s, i0) matches Ok(ts) ==> forall|j: int, k: int| 0 <= j < k < ts.len() ==> ts[j].pos < ts[k].pos,
        lex_from(s, i0) matches Ok(ts) ==> forall|j: int|
            0 <= j < ts.len() && i0 <= s.len() ==> byte_pos(s, i0) <= ts[j].pos,
    decreases s.len() - i0,
{
    lemma_byte_pos_mono(s, s.len() as int, s.len() as int);
    assert(s.take(s.len() as int) =~= s);
    assert(byte_pos(s, s.len() as int) <= usize::MAX);
    if i0 >= s.len() {
        let ts = lex_from(s, i0)->Ok_0;
        assert(ts == seq![eof_tok(s)]);
        assert(ts.last() == eof_tok(s));
        assert(eof_tok(s).pos == byte_pos(s, s.len() as int));
    } else if is_lex_ws(s[i0]) {
        lemma_lex_from_tokens(s, i0 + 1);
        lemma_byte_pos_mono(s, i0, i0 + 1);
        assert(lex_from(s, i0) == lex_from(s, i0 + 1));
        if let Ok(ts) = lex_from(s, i0) {
            assert forall|j: int| 0 <= j < ts.len() - 1 implies #[trigger] spans_from(s, ts[j], i0) by {
                assert(spans_from(s, ts[j], i0 + 1));
                let (i, e) = choose|i: int, e: int| i0 + 1 <= i && #[trigger] token_spans(s, ts[j], i, e);
                assert(token_spans(s, ts[j], i, e));
            }
        }
    } else {
        lemma_scan_token_bounds(s, i0);
        match scan_token(s, i0) {
            Some((k, e)) => if i0 < e <= s.len() {
                lemma_lex_from_tokens(s, e);
                if let Ok(rest) = lex_from(s, e) {
                    let ts = lex_from(s, i0)->Ok_0;
                    let t0 = Tok { kind: k, text: token_text(s, i0, k, e), pos: byte_pos(s, i0) as usize };
                    assert(ts == seq![t0] + rest);
                    lemma_byte_pos_mono(s, i0, s.len() as int);
                    lemma_byte_pos_strict(s, i0, e);
                    lemma_byte_pos_mono(s, e, s.len() as int);
                    assert(t0.pos == byte_pos(s, i0));
                    assert(token_spans(s, t0, i0, e)) by {
                        if k == TokenType::String {
                            crate::text::lemma_find_from(s, seq!['"'], i0 + 1);
                            let j = find_from(s, seq!['"'], i0 + 1)->0;
                            assert(s.subrange(j, j + 1)[0] == s[j]);
                        }
                    }
                    assert forall|j: int| 0 <= j < ts.len() - 1 implies #[trigger] spans_from(s, ts[j], i0) by {
                        if j == 0 {
                            assert(ts[j] == t0);
                            assert(token_spans(s, ts[j], i0, e));
                        } else {
                            assert(ts[j] == rest[j - 1]);
                            assert(spans_from(s, rest[j - 1], e));
                            let (i, e2) = choose|i: int, e2: int| e <= i && #[trigger] token_spans(s, rest[j - 1], i, e2);
                            assert(token_spans(s, ts[j], i, e2));
                        }
                    }
                    assert forall|a: int, b: int| 0 <= a < b < ts.len() implies ts[a].pos < ts[b].pos by {
                        assert(ts[b] == rest[b - 1]);
                        if a > 0 {
                            assert(ts[a] == rest[a - 1]);
                        } else {
                            assert(byte_pos(s, e) <= rest[b - 1].pos);
                        }
                    }
                    assert forall|j: int| 0 <= j < ts.len() && i0 <= s.len() implies byte_pos(s, i0) <= ts[j].pos by {
                        if j > 0 {
                            assert(ts[j] == rest[j - 1]);
                        }
                    }
                }
            },
            None => {},
        }
    }
}

/// Lexing gives, on success, a token stream that ends with the one
/// end-of-input token (empty text, at the input's byte length); every other
/// token spans characters of the input, starts at their byte offset and
/// holds their text (a string without its quotes); and the positions
/// strictly increase.
pub proof fn law_lex_tokens(s: Seq<char>)
    requires
        fits_positions(s),
    ensures
        lex(s) matches Ok(ts) ==> ts.len() > 0 && ts.last() == eof_tok(s),
        lex(s) matches Ok(ts) ==> forall|j: int| 0 <= j < ts.len() - 1 ==> #[trigger] spans_from(s, ts[j], 0),
        lex(s) matches Ok(ts) ==> forall|j: int, k: int| 0 <= j < k < ts.len() ==> ts[j].pos < ts[k].pos,
{
    lemma_lex_from_tokens(s, 0);
    assert(lex(s) == lex_from(s, 0));
    if let Ok(ts) = lex(s) {
        assert(ts.len() > 0 && ts.last() == eof_tok(s));
        assert(forall|j: int, k: int| 0 <= j < k < ts.len() ==> ts[j].pos < ts[k].pos);
    }
}

proof fn lemma_digit_run_bound(s: Seq<char>, i: int)
    requires
        0 <= i <= s.len(),
    ensures
        i + digit_run(s, i) <= s.len(),
        forall|k: int| i <= k < i + digit_run(s, i) ==> is_ascii_digit(#[trigger] s[k]),
        i + digit_run(s, i) < s.len() ==> !is_ascii_digit(s[i + digit_run(s, i)]),
    decreases s.len() - i,
{
    if i < s.len() && is_ascii_digit(s[i]) {
        lemma_digit_run_bound(s, i + 1);
    }
}

proof fn lemma_ident_run_bound(s: Seq<char>, i: int)
    requires
        0 <= i <= s.len(),
    ensures
        i + ident_run(s, i) <= s.len(),
    decreases s.len() - i,
{
    if i < s.len() && is_ident_char(s[i]) {
        lemma_ident_run_bound(s, i + 1);
    }
}

/// A token always advances and ends within the input.
pub proof fn lemma_scan_token_bounds(s: Seq<char>, i: int)
    requires
        0 <= i < s.len(),
    ensures
        scan_token(s, i) matches Some((k, e)) ==> i < e <= s.len() && (k == TokenType::String
            ==> i + 2 <= e),
{
    let c = s[i];
    if single_char_token(c) is Some {
    } else if c == '"' {
        crate::text::lemma_find_from(s, seq!['"'], i + 1);
    } else if is_ascii_digit(c) {
        lemma_digit_run_bound(s, i);
        let d = i + digit_run(s, i);
        if d + 1 < s.len() && s[d] == '.' && is_ascii_digit(s[d + 1]) {
            lemma_digit_run_bound(s, d + 1);
        }
    } else if starts_with(s.skip(i), "true"@) {
        reveal_strlit("true");
    } else if starts_with(s.skip(i), "false"@) {
        reveal_strlit("false");
    } else if is_ident_start(c) {
        lemma_ident_run_bound(s, i);
        assert(ident_run(s, i) >= 1);
    }
}

// ---------------------------------------------------------------------
// Executable lexer
// ---------------------------------------------------------------------

/// Number of bytes in the UTF-8 encoding of `c`.
pub fn utf8_width(c: char) -> (r: usize)
    ensures
        r == encode_scalar(c as u32).len(),
{
    let u: u32 = c as u32;
    if u <= 0x7f {
        1
    } else if u <= 0x7ff {
        2
    } else if u <= 0xffff {
        3
    } else {
        4
    }
}

fn is_lex_whitespace(c: char) -> (r: bool)
    ensures
        r == is_lex_ws(c),
{
    c == ' ' || c == '\t' || c == '\r' || c == '\n'
}

fn single_char(c: char) -> (r: Option<TokenType>)
    ensures
        r == single_char_token(c),
{
    if c == ',' {
        Some(TokenType::Comma)
    } else if c == '=' {
        Some(TokenType::Equal)
    } else if c == '(' {
        Some(TokenType::LParen)
    } else if c == ')' {
        Some(TokenType::RParen)
    } else if c == '[' {
        Some(TokenType::LBracket)
    } else if c == ']' {
        Some(TokenType::RBracket)
    } else if c == '{' {
        Some(TokenType::LBrace)
    } else if c == '}' {
        Some(TokenType::RBrace)
    } else if c == ':' {
        Some(TokenType::Colon)
    } else {
        None
    }
}

fn digit_run_exec(v: &Vec<char>, i: usize) -> (r: usize)
    requires
        i <= v@.len(),
    ensures
        r == digit_run(v@, i as int),
        i + r <= v@.len(),
{
    let mut j = i;
    proof {
        lemma_digit_run_bound(v@, i as int);
    }
    while j < v.len() && '0' <= v[j] && v[j] <= '9'
        invariant
            i <= j <= v@.len(),
            digit_run(v@, i as int) == (j - i) + digit_run(v@, j as int),
        decreases v.len() - j,
    {
        j = j + 1;
    }
    j - i
}

fn ident_run_exec(v: &Vec<char>, i: usize) -> (r: usize)
    requires
        i <= v@.len(),
    ensures
        r == ident_run(v@, i as int),
        i + r <= v@.len(),
{
    let mut j = i;
    while j < v.len() && (('a' <= v[j] && v[j] <= 'z') || ('A' <= v[j] && v[j] <= 'Z') || v[j]
        == '_' || ('0' <= v[j] && v[j] <= '9'))
        invariant
            i <= j <= v@.len(),
            ident_run(v@, i as int) == (j - i) + ident_run(v@, j as int),
        decreases v.len() - j,
    {
        j = j + 1;
    }
    j - i
}

fn find_quote(v: &Vec<char>, i: usize) -> (r: Option<usize>)
    requires
        i <= v@.len(),
    ensures
        r matches Some(j) ==> find_from(v@, seq!['"'], i as int) == Some(j as int),
        r is None ==> find_from(v@, seq!['"'], i as int) is None,
{
    let mut j = i;
    while j < v.len()
        invariant
            i <= j <= v@.len(),
            find_from(v@, seq!['"'], i as int) == find_from(v@, seq!['"'], j as int),
        decreases v.len() - j,
    {
        if v[j] == '"' {
            assert(v@.subrange(j as int, j + 1) =~= seq!['"']);
            return Some(j);
        } else {
            assert(v@.subrange(j as int, j + 1)[0] != seq!['"'][0]);
        }
        j = j + 1;
    }
    None
}

fn scan_token_exec(v: &Vec<char>, i: usize) -> (r: Option<(TokenType, usize)>)
    requires
        i < v@.len(),
    ensures
        r matches Some((k, e)) ==> scan_token(v@, i as int) == Some((k, e as int)),
        r is None ==> scan_token(v@, i as int) is None,
{
    let n = v.len();
    let c = v[i];
    if let Some(k) = single_char(c) {
        return Some((k, i + 1));
    }
    if c == '"' {
        return match find_quote(v, i + 1) {
            Some(j) => {
                proof {
                    crate::text::lemma_find_from(v@, seq!['"'], i + 1);
                }
                Some((TokenType::String, j + 1))
            },
            None => None,
        };
    }
    if '0' <= c && c <= '9' {
        let d = i + digit_run_exec(v, i);
        if d < n && d + 1 < n && v[d] == '.' && '0' <= v[d + 1] && v[d + 1] <= '9' {
            let f = digit_run_exec(v, d + 1);
            return Some((TokenType::Number, d + 1 + f));
        } else {
            return Some((TokenType::Number, d));
        }
    }
    let t = chars_of("true");
    let f = chars_of("false");
    let is_true = starts_with_at(v, i, &t);
    proof {
        if t@.len() <= v@.skip(i as int).len() {
            assert(v@.skip(i as int).take(t@.len() as int) =~= v@.subrange(
                i as int,
                i + t@.len(),
            ));
        }
    }
    if is_true {
        proof {
            reveal_strlit("true");
        }
        return Some((TokenType::Boolean, i + 4));
    }
    let is_false = starts_with_at(v, i, &f);
    proof {
        if f@.len() <= v@.skip(i as int).len() {
            assert(v@.skip(i as int).take(f@.len() as int) =~= v@.subrange(
                i as int,
                i + f@.len(),
            ));
        }
    }
    if is_false {
        proof {
            reveal_strlit("false");
        }
        return Some((TokenType::Boolean, i + 5));
    }
    if ('a' <= c && c <= 'z') || ('A' <= c && c <= 'Z') || c == '_' {
        let n = ident_run_exec(v, i);
        return Some((TokenType::Identifier, i + n));
    }
    None
}

/// Lexer for tokenizing annotation text.
pub struct Lexer {
    input: String,
    position: usize,
}

impl Lexer {
    /// Create a new lexer for the given input.
    pub fn new(input: &str) -> (l: Lexer)
        ensures
            l.input() == input@,
    {
        Lexer { input: to_owned_string(input), position: 0 }
    }

    /// The text this lexer reads.
    pub closed spec fn input(&self) -> Seq<char> {
        self.input@
    }

    /// Tokenize the entire input: the tokens of the grammar in order, each
    /// with the byte offset where it starts, followed by an `Eof` token at
    /// the end of the input; or a parse error at the first character that
    /// starts no token.
    pub fn tokenize(&mut self) -> (r: Result<Vec<Token>, WezzteError>)
        requires
            fits_positions(old(self).input()),
        ensures
            final(self).input() == old(self).input(),
            match lex(old(self).input()) {
                Ok(ts) => r matches Ok(v) && toks_of(v@) == ts,
                Err((msg, pos)) => r matches Err(e) && e@ == (ErrorView::Parse {
                    message: msg,
                    position: pos,
                }),
            },
    {
        let v = chars_of(self.input.as_str());
        let n = v.len();
        let mut tokens: Vec<Token> = Vec::new();
        let mut i: usize = 0;
        let mut pos: usize = 0;
        assert(v@.take(0) =~= Seq::<char>::empty());
        assert(toks_of(tokens@) =~= Seq::<Tok>::empty());
        while i < n
            invariant
                n == v@.len(),
                v@ == self.input(),
                fits_positions(v@),
                i <= n,
                pos == byte_pos(v@, i as int),
                lex(v@) == prepend_toks(toks_of(tokens@), lex_from(v@, i as int)),
            decreases n - i,
        {
            proof {
                lemma_byte_pos_step(v@, i as int);
                lemma_byte_pos_mono(v@, i + 1, n as int);
            }
            let c = v[i];
            if is_lex_whitespace(c) {
                i = i + 1;
                pos = pos + 1;
            } else {
                match scan_token_exec(&v, i) {
                    Some((k, e)) => {
                        proof {
                            lemma_scan_token_bounds(v@, i as int);
                        }
                        let text = if k == TokenType::String {
                            string_of_range(&v, i + 1, e - 1)
                        } else {
                            string_of_range(&v, i, e)
                        };
                        let tok = Token::new(k, text, pos);
                        let ghost before = toks_of(tokens@);
                        tokens.push(tok);
                        assert(toks_of(tokens@) =~= before.push(tok@));
                        let mut j = i;
                        while j < e
                            invariant
                                i <= j <= e <= n,
                                n == v@.len(),
                                fits_positions(v@),
                                pos == byte_pos(v@, j as int),
                            decreases e - j,
                        {
                            proof {
                                lemma_byte_pos_step(v@, j as int);
                                lemma_byte_pos_mono(v@, j + 1, n as int);
                            }
                            pos = pos + utf8_width(v[j]);
                            j = j + 1;
                        }
                        proof {
                            let rest = lex_from(v@, e as int);
                            match rest {
                                Ok(t) => {
                                    assert(before + (seq![tok@] + t) =~= before.push(tok@) + t);
                                },
                                Err(_) => {},
                            }
                        }
                        i = e;
                    },
                    None => {
                        let mut msg = String::new();
                        push_str(&mut msg, "Unexpected character: '");
                        push_char(&mut msg, c);
                        push_str(&mut msg, "'");
                        assert(msg@ =~= unexpected_char_message(c));
                        return Err(WezzteError::parse(msg, pos));
                    },
                }
            }
        }
        let eof = Token::new(TokenType::Eof, String::new(), pos);
        let ghost before = toks_of(tokens@);
        tokens.push(eof);
        assert(toks_of(tokens@) =~= before.push(eof@));
        assert(v@.take(n as int) =~= v@);
        proof {
            assert(eof@ == (Tok { kind: TokenType::Eof, text: Seq::empty(), pos: byte_pos(v@, n as int) as usize }));
            assert(before + seq![eof@] =~= before.push(eof@));
        }
        Ok(tokens)
    }
}

} // verus!
