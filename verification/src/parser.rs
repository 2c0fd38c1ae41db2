//! Recursive descent parser for decoration annotations.
//!
//! Grammar (over tokens):
//!
//! ```text
//! annotation := IDENT [ "(" [ param { "," param } [ "," ] ] ")" ] { param [ "," ] } EOF
//! param      := IDENT "=" value
//! value      := NUMBER | STRING | BOOLEAN | IDENT | list | object
//! list       := "[" [ value { "," value } [ "," ] ] "]"
//! object     := "{" [ IDENT ":" value { "," IDENT ":" value } [ "," ] ] "}"
//! ```
//!
//! A later parameter with the same name replaces an earlier one. A trailing
//! `IDENT` that does not start a parameter ends the trailing parameters.

use vstd::prelude::*;
use crate::ast::{
    AnnotationView, PVal, PEntries, ParamMap, ParamValue, UiType, Annotation, entries_insert, ui_type_of,
    pval_of,
};
use crate::error::{WezzteError, ErrorView};
use crate::lexer::{
    Tok, Token, TokenType, Lexer, token_type_name, toks_of, lemma_toks_of, lex, fits_positions,
    lemma_fits_subrange, lemma_lex_ends_with_eof,
};
use crate::markers::{DECORATOR_PREFIX, TUNER_START, TUNER_END};
use crate::text::{
    push_str, str_eq, chars_of, vec_starts_with, vec_ends_with, vec_find, trim_bounds,
    string_of_range, split_bounds, split_char, starts_with, ends_with, find, trim,
    to_owned_string, lemma_find, lemma_split_char_nonempty,
};

verus! {

// ---------------------------------------------------------------------
// Grammar as spec functions
// ---------------------------------------------------------------------

/// The tokens end with an end-of-input token.
pub open spec fn toks_wf(ts: Seq<Tok>) -> bool {
    ts.len() > 0 && ts.last().kind == TokenType::Eof
}

/// The token at `p`, or the last token past the end.
pub open spec fn tok_at(ts: Seq<Tok>, p: int) -> Tok {
    if 0 <= p < ts.len() {
        ts[p]
    } else {
        ts.last()
    }
}

pub open spec fn parse_err(message: Seq<char>, t: Tok) -> ErrorView {
    ErrorView::Parse { message, position: t.pos }
}

pub open spec fn expected_message(want: TokenType, got: TokenType) -> Seq<char> {
    "Expected "@ + token_type_name(want) + ", got "@ + token_type_name(got)
}

/// Consuming a token of kind `want` at `p`: the next position, or the error.
pub open spec fn expect(ts: Seq<Tok>, p: int, want: TokenType) -> Result<int, ErrorView> {
    if 0 <= p < ts.len() && ts[p].kind == want {
        Ok(p + 1)
    } else {
        Err(parse_err(expected_message(want, tok_at(ts, p).kind), tok_at(ts, p)))
    }
}

pub open spec fn junk() -> ErrorView {
    ErrorView::Parse { message: Seq::empty(), position: 0 }
}

/// A value starting at `p`, and the position after it.
pub open spec fn parse_value_at(ts: Seq<Tok>, p: int) -> Result<(PVal, int), ErrorView>
    decreases ts.len() - p, 1int,
{
    if !(0 <= p < ts.len()) {
        Err(junk())
    } else {
        let t = ts[p];
        match t.kind {
            TokenType::Number => Ok((PVal::Num(t.text), p + 1)),
            TokenType::String => Ok((PVal::Str(t.text), p + 1)),
            TokenType::Boolean => Ok((PVal::Bool(t.text == "true"@), p + 1)),
            TokenType::Identifier => Ok((PVal::Str(t.text), p + 1)),
            TokenType::LBracket => parse_list_at(ts, p),
            TokenType::LBrace => parse_object_at(ts, p),
            _ => Err(parse_err("Expected value, got "@ + token_type_name(t.kind), t)),
        }
    }
}

/// A list starting at `p` (an opening bracket).
pub open spec fn parse_list_at(ts: Seq<Tok>, p: int) -> Result<(PVal, int), ErrorView>
    decreases ts.len() - p, 0int,
{
    match expect(ts, p, TokenType::LBracket) {
        Err(e) => Err(e),
        Ok(p1) => if tok_at(ts, p1).kind == TokenType::RBracket {
            match expect(ts, p1, TokenType::RBracket) {
                Ok(p2) => Ok((PVal::List(Seq::empty()), p2)),
                Err(e) => Err(e),
            }
        } else {
            match parse_value_at(ts, p1) {
                Err(e) => Err(e),
                Ok((v, p2)) => if p1 < p2 <= ts.len() {
                    list_rest_at(ts, p2, seq![v])
                } else {
                    Err(junk())
                },
            }
        },
    }
}

/// The rest of a list after the values `acc`, at `p`.
pub open spec fn list_rest_at(ts: Seq<Tok>, p: int, acc: Seq<PVal>) -> Result<(PVal, int), ErrorView>
    decreases ts.len() - p, 2int,
{
    if tok_at(ts, p).kind == TokenType::Comma {
        match expect(ts, p, TokenType::Comma) {
            Err(e) => Err(e),
            Ok(p1) => if tok_at(ts, p1).kind == TokenType::RBracket {
                match expect(ts, p1, TokenType::RBracket) {
                    Ok(p2) => Ok((PVal::List(acc), p2)),
                    Err(e) => Err(e),
                }
            } else {
                match parse_value_at(ts, p1) {
                    Err(e) => Err(e),
                    Ok((v, p2)) => if p1 < p2 <= ts.len() {
                        list_rest_at(ts, p2, acc.push(v))
                    } else {
                        Err(junk())
                    },
                }
            },
        }
    } else {
        match expect(ts, p, TokenType::RBracket) {
            Ok(p1) => Ok((PVal::List(acc), p1)),
            Err(e) => Err(e),
        }
    }
}

/// An object starting at `p` (an opening brace).
pub open spec fn parse_object_at(ts: Seq<Tok>, p: int) -> Result<(PVal, int), ErrorView>
    decreases ts.len() - p, 0int,
{
    match expect(ts, p, TokenType::LBrace) {
        Err(e) => Err(e),
        Ok(p1) => if tok_at(ts, p1).kind == TokenType::RBrace {
            match expect(ts, p1, TokenType::RBrace) {
                Ok(p2) => Ok((PVal::Obj(Seq::empty()), p2)),
                Err(e) => Err(e),
            }
        } else {
            match expect(ts, p1, TokenType::Identifier) {
                Err(e) => Err(e),
                Ok(p2) => match expect(ts, p2, TokenType::Colon) {
                    Err(e) => Err(e),
                    Ok(p3) => match parse_value_at(ts, p3) {
                        Err(e) => Err(e),
                        Ok((v, p4)) => if p3 < p4 <= ts.len() {
                            object_rest_at(
                                ts,
                                p4,
                                entries_insert(Seq::empty(), ts[p1].text, v),
                            )
                        } else {
                            Err(junk())
                        },
                    },
                },
            }
        },
    }
}

/// The rest of an object after the entries `acc`, at `p`.
pub open spec fn object_rest_at(ts: Seq<Tok>, p: int, acc: PEntries) -> Result<(PVal, int), ErrorView>
    decreases ts.len() - p, 2int,
{
    if tok_at(ts, p).kind == TokenType::Comma {
        match expect(ts, p, TokenType::Comma) {
            Err(e) => Err(e),
            Ok(p1) => if tok_at(ts, p1).kind == TokenType::RBrace {
                match expect(ts, p1, TokenType::RBrace) {
                    Ok(p2) => Ok((PVal::Obj(acc), p2)),
                    Err(e) => Err(e),
                }
            } else {
                match expect(ts, p1, TokenType::Identifier) {
                    Err(e) => Err(e),
                    Ok(p2) => match expect(ts, p2, TokenType::Colon) {
                        Err(e) => Err(e),
                        Ok(p3) => match parse_value_at(ts, p3) {
                            Err(e) => Err(e),
                            Ok((v, p4)) => if p3 < p4 <= ts.len() {
                                object_rest_at(ts, p4, entries_insert(acc, ts[p1].text, v))
                            } else {
                                Err(junk())
                            },
                        },
                    },
                }
            },
        }
    } else {
        match expect(ts, p, TokenType::RBrace) {
            Ok(p1) => Ok((PVal::Obj(acc), p1)),
            Err(e) => Err(e),
        }
    }
}

/// A parameter `name = value` at `p`: the name, the value and the position after it.
pub open spec fn parse_parameter_at(ts: Seq<Tok>, p: int) -> Result<
    (Seq<char>, PVal, int),
    ErrorView,
> {
    match expect(ts, p, TokenType::Identifier) {
        Err(e) => Err(e),
        Ok(p1) => match expect(ts, p1, TokenType::Equal) {
            Err(e) => Err(e),
            Ok(p2) => match parse_value_at(ts, p2) {
                Err(e) => Err(e),
                Ok((v, p3)) => Ok((ts[p].text, v, p3)),
            },
        },
    }
}

/// The parameters inside parentheses, starting just after the opening one;
/// the position returned is that of the closing parenthesis.
pub open spec fn parse_param_list_at(ts: Seq<Tok>, p: int) -> Result<(PEntries, int), ErrorView> {
    if tok_at(ts, p).kind == TokenType::RParen {
        Ok((Seq::empty(), p))
    } else {
        match parse_parameter_at(ts, p) {
            Err(e) => Err(e),
            Ok((k, v, p1)) => if p < p1 <= ts.len() {
                param_rest_at(ts, p1, entries_insert(Seq::empty(), k, v))
            } else {
                Err(junk())
            },
        }
    }
}

pub open spec fn param_rest_at(ts: Seq<Tok>, p: int, acc: PEntries) -> Result<(PEntries, int), ErrorView>
    decreases ts.len() - p,
{
    if tok_at(ts, p).kind == TokenType::Comma {
        match expect(ts, p, TokenType::Comma) {
            Err(e) => Err(e),
            Ok(p1) => if tok_at(ts, p1).kind == TokenType::RParen {
                Ok((acc, p1))
            } else {
                match parse_parameter_at(ts, p1) {
                    Err(e) => Err(e),
                    Ok((k, v, p2)) => if p1 < p2 <= ts.len() {
                        param_rest_at(ts, p2, entries_insert(acc, k, v))
                    } else {
                        Err(junk())
                    },
                }
            },
        }
    } else {
        Ok((acc, p))
    }
}

/// Parameters after the parentheses, each optionally followed by a comma;
/// they end at the first identifier that does not start a parameter, or at
/// any other token.
pub open spec fn trailing_at(ts: Seq<Tok>, p: int, acc: PEntries) -> Result<(PEntries, int), ErrorView>
    decreases ts.len() - p,
{
    if tok_at(ts, p).kind == TokenType::Identifier {
        match parse_parameter_at(ts, p) {
            Err(_) => Ok((acc, p)),
            Ok((k, v, p1)) => if p < p1 <= ts.len() {
                if tok_at(ts, p1).kind == TokenType::Comma {
                    match expect(ts, p1, TokenType::Comma) {
                        Ok(p2) => trailing_at(ts, p2, entries_insert(acc, k, v)),
                        Err(e) => Err(e),
                    }
                } else {
                    trailing_at(ts, p1, entries_insert(acc, k, v))
                }
            } else {
                Err(junk())
            },
        }
    } else {
        Ok((acc, p))
    }
}

/// The parenthesized parameters at `p`, if there are any.
pub open spec fn head_params_at(ts: Seq<Tok>, p: int) -> Result<(PEntries, int), ErrorView> {
    if tok_at(ts, p).kind == TokenType::LParen {
        match expect(ts, p, TokenType::LParen) {
            Err(e) => Err(e),
            Ok(p1) => match parse_param_list_at(ts, p1) {
                Err(e) => Err(e),
                Ok((ps, p2)) => match expect(ts, p2, TokenType::RParen) {
                    Err(e) => Err(e),
                    Ok(p3) => Ok((ps, p3)),
                },
            },
        }
    } else {
        Ok((Seq::empty(), p))
    }
}

/// A complete annotation starting at `p` (its parameters are not checked
/// against the widget kind; `Annotation::validate` does that).
pub open spec fn parse_annotation_at(ts: Seq<Tok>, p: int) -> Result<AnnotationView, ErrorView> {
    match expect(ts, p, TokenType::Identifier) {
        Err(e) => Err(e),
        Ok(p1) => match head_params_at(ts, p1) {
            Err(e) => Err(e),
            Ok((ps, p2)) => match trailing_at(ts, p2, ps) {
                Err(e) => Err(e),
                Ok((ps2, p3)) => if tok_at(ts, p3).kind != TokenType::Eof {
                    Err(
                        parse_err(
                            "Unexpected token: "@ + token_type_name(tok_at(ts, p3).kind),
                            tok_at(ts, p3),
                        ),
                    )
                } else {
                    Ok(AnnotationView { ui_type: ui_type_of(ts[p].text), params: ps2 })
                },
            },
        },
    }
}

// ---------------------------------------------------------------------
// Positions only move forward and stay before the end-of-input token
// ---------------------------------------------------------------------

pub proof fn lemma_expect(ts: Seq<Tok>, p: int, want: TokenType)
    requires
        toks_wf(ts),
        0 <= p < ts.len(),
        want != TokenType::Eof,
    ensures
        expect(ts, p, want) matches Ok(q) ==> q == p + 1 && q < ts.len(),
{
}

pub proof fn lemma_value_advances(ts: Seq<Tok>, p: int)
    requires
        toks_wf(ts),
        0 <= p < ts.len(),
    ensures
        parse_value_at(ts, p) matches Ok((_, q)) ==> p < q < ts.len(),
    decreases ts.len() - p, 1int,
{
    let t = ts[p];
    match t.kind {
        TokenType::LBracket => lemma_list_advances(ts, p),
        TokenType::LBrace => lemma_object_advances(ts, p),
        TokenType::Eof => {},
        _ => {
            assert(p != ts.len() - 1);
        },
    }
}

pub proof fn lemma_list_advances(ts: Seq<Tok>, p: int)
    requires
        toks_wf(ts),
        0 <= p < ts.len(),
    ensures
        parse_list_at(ts, p) matches Ok((_, q)) ==> p < q < ts.len(),
    decreases ts.len() - p, 0int,
{
    lemma_expect(ts, p, TokenType::LBracket);
    if let Ok(p1) = expect(ts, p, TokenType::LBracket) {
        lemma_expect(ts, p1, TokenType::RBracket);
        if tok_at(ts, p1).kind != TokenType::RBracket {
            lemma_value_advances(ts, p1);
            if let Ok((v, p2)) = parse_value_at(ts, p1) {
                lemma_list_rest_advances(ts, p2, seq![v]);
            }
        }
    }
}

pub proof fn lemma_list_rest_advances(ts: Seq<Tok>, p: int, acc: Seq<PVal>)
    requires
        toks_wf(ts),
        0 <= p < ts.len(),
    ensures
        list_rest_at(ts, p, acc) matches Ok((_, q)) ==> p < q < ts.len(),
    decreases ts.len() - p, 2int,
{
    lemma_expect(ts, p, TokenType::Comma);
    lemma_expect(ts, p, TokenType::RBracket);
    if tok_at(ts, p).kind == TokenType::Comma {
        if let Ok(p1) = expect(ts, p, TokenType::Comma) {
            lemma_expect(ts, p1, TokenType::RBracket);
            if tok_at(ts, p1).kind != TokenType::RBracket {
                lemma_value_advances(ts, p1);
                if let Ok((v, p2)) = parse_value_at(ts, p1) {
                    lemma_list_rest_advances(ts, p2, acc.push(v));
                }
            }
        }
    }
}

pub proof fn lemma_object_advances(ts: Seq<Tok>, p: int)
    requires
        toks_wf(ts),
        0 <= p < ts.len(),
    ensures
        parse_object_at(ts, p) matches Ok((_, q)) ==> p < q < ts.len(),
    decreases ts.len() - p, 0int,
{
    lemma_expect(ts, p, TokenType::LBrace);
    if let Ok(p1) = expect(ts, p, TokenType::LBrace) {
        lemma_expect(ts, p1, TokenType::RBrace);
        lemma_expect(ts, p1, TokenType::Identifier);
        if tok_at(ts, p1).kind != TokenType::RBrace {
            if let Ok(p2) = expect(ts, p1, TokenType::Identifier) {
                lemma_expect(ts, p2, TokenType::Colon);
                if let Ok(p3) = expect(ts, p2, TokenType::Colon) {
                    lemma_value_advances(ts, p3);
                    if let Ok((v, p4)) = parse_value_at(ts, p3) {
                        lemma_object_rest_advances(
                            ts,
                            p4,
                            entries_insert(Seq::empty(), ts[p1].text, v),
                        );
                    }
                }
            }
        }
    }
}

pub proof fn lemma_object_rest_advances(ts: Seq<Tok>, p: int, acc: PEntries)
    requires
        toks_wf(ts),
        0 <= p < ts.len(),
    ensures
        object_rest_at(ts, p, acc) matches Ok((_, q)) ==> p < q < ts.len(),
    decreases ts.len() - p, 2int,
{
    lemma_expect(ts, p, TokenType::Comma);
    lemma_expect(ts, p, TokenType::RBrace);
    if tok_at(ts, p).kind == TokenType::Comma {
        if let Ok(p1) = expect(ts, p, TokenType::Comma) {
            lemma_expect(ts, p1, TokenType::RBrace);
            lemma_expect(ts, p1, TokenType::Identifier);
            if tok_at(ts, p1).kind != TokenType::RBrace {
                if let Ok(p2) = expect(ts, p1, TokenType::Identifier) {
                    lemma_expect(ts, p2, TokenType::Colon);
                    if let Ok(p3) = expect(ts, p2, TokenType::Colon) {
                        lemma_value_advances(ts, p3);
                        if let Ok((v, p4)) = parse_value_at(ts, p3) {
                            lemma_object_rest_advances(
                                ts,
                                p4,
                                entries_insert(acc, ts[p1].text, v),
                            );
                        }
                    }
                }
            }
        }
    }
}

pub proof fn lemma_parameter_advances(ts: Seq<Tok>, p: int)
    requires
        toks_wf(ts),
        0 <= p < ts.len(),
    ensures
        parse_parameter_at(ts, p) matches Ok((_, _, q)) ==> p < q < ts.len(),
{
    lemma_expect(ts, p, TokenType::Identifier);
    if let Ok(p1) = expect(ts, p, TokenType::Identifier) {
        lemma_expect(ts, p1, TokenType::Equal);
        if let Ok(p2) = expect(ts, p1, TokenType::Equal) {
            lemma_value_advances(ts, p2);
        }
    }
}

// ---------------------------------------------------------------------
// Executable parser
// ---------------------------------------------------------------------

/// Recursive descent parser for decorator annotations.
pub struct Parser {
    tokens: Vec<Token>,
    position: usize,
}

impl Parser {
    /// Models of the tokens.
    pub closed spec fn toks(&self) -> Seq<Tok> {
        toks_of(self.tokens@)
    }

    /// Index of the current token.
    pub closed spec fn pos(&self) -> int {
        self.position as int
    }

    /// The tokens end with `Eof` and the current position is among them.
    pub open spec fn wf(&self) -> bool {
        toks_wf(self.toks()) && 0 <= self.pos() < self.toks().len()
    }

    /// Create a new parser with tokens.
    pub fn new(tokens: Vec<Token>) -> (p: Parser)
        ensures
            p.toks() == toks_of(tokens@),
            p.pos() == 0,
    {
        Parser { tokens, position: 0 }
    }

    /// Parse UI type identifier.
    fn parse_ui_type(&mut self) -> (r: Result<UiType, WezzteError>)
        requires
            old(self).wf(),
        ensures
            final(self).toks() == old(self).toks(),
            match expect(old(self).toks(), old(self).pos(), TokenType::Identifier) {
                Ok(q) => r matches Ok(u) && u@ == ui_type_of(old(self).toks()[old(self).pos()].text)
                    && final(self).pos() == q,
                Err(e) => r matches Err(x) && x@ == e && final(self).pos() == old(self).pos(),
            },
    {
        match self.consume_token(TokenType::Identifier) {
            Ok(i) => Ok(UiType::from(self.tokens[i].value.as_str())),
            Err(e) => Err(e),
        }
    }

    /// Get current token.
    fn current_token(&self) -> (r: &Token)
        requires
            self.wf(),
        ensures
            r@ == tok_at(self.toks(), self.pos()),
    {
        proof {
            lemma_toks_of(self.tokens@);
        }
        &self.tokens[self.position]
    }

    /// Check if current token matches type without consuming.
    fn peek_token_type(&self, expected: TokenType) -> (r: bool)
        requires
            self.wf(),
        ensures
            r == (tok_at(self.toks(), self.pos()).kind == expected),
    {
        self.current_token().token_type == expected
    }

    /// Consume a token of expected type; gives the index of the consumed token.
    fn consume_token(&mut self, expected: TokenType) -> (r: Result<usize, WezzteError>)
        requires
            old(self).wf(),
        ensures
            final(self).toks() == old(self).toks(),
            match expect(old(self).toks(), old(self).pos(), expected) {
                Ok(q) => r == Ok::<usize, WezzteError>(old(self).pos() as usize) && final(self).pos()
                    == q,
                Err(e) => r matches Err(x) && x@ == e && final(self).pos() == old(self).pos(),
            },
    {
        proof {
            lemma_toks_of(self.tokens@);
        }
        let token = self.current_token();
        if token.token_type != expected {
            let mut msg = String::new();
            push_str(&mut msg, "Expected ");
            push_str(&mut msg, expected.name());
            push_str(&mut msg, ", got ");
            push_str(&mut msg, token.token_type.name());
            assert(msg@ =~= expected_message(expected, token.token_type));
            return Err(WezzteError::parse(msg, token.position));
        }
        let i = self.position;
        let n = self.tokens.len();
        assert(i < n);
        self.position = self.position + 1;
        Ok(i)
    }

    /// The string value of the token at `i`.
    fn text_at(&self, i: usize) -> (r: String)
        requires
            i < self.toks().len(),
        ensures
            r@ == self.toks()[i as int].text,
    {
        proof {
            lemma_toks_of(self.tokens@);
        }
        self.tokens[i].value.clone()
    }

    /// Parse any value type (number, string, boolean, identifier, list, object).
    fn parse_value(&mut self) -> (r: Result<ParamValue, WezzteError>)
        requires
            old(self).wf(),
        ensures
            final(self).toks() == old(self).toks(),
            match parse_value_at(old(self).toks(), old(self).pos()) {
                Ok((v, q)) => r matches Ok(x) && x@ == v && final(self).pos() == q && final(self).wf(),
                Err(e) => r matches Err(x) && x@ == e,
            },
        decreases old(self).toks().len() - old(self).pos(), 1int,
    {
        proof {
            lemma_value_advances(self.toks(), self.pos());
            lemma_toks_of(self.tokens@);
        }
        let kind = self.current_token().token_type;
        let n = self.tokens.len();
        assert(self.position < n);
        match kind {
            TokenType::Number => {
                let i = self.position;
                self.position = self.position + 1;
                Ok(ParamValue::Number(self.text_at(i)))
            },
            TokenType::String => {
                let i = self.position;
                self.position = self.position + 1;
                Ok(ParamValue::String(self.text_at(i)))
            },
            TokenType::Boolean => {
                let i = self.position;
                self.position = self.position + 1;
                let b = str_eq(self.tokens[i].value.as_str(), "true");
                Ok(ParamValue::Boolean(b))
            },
            TokenType::Identifier => {
                let i = self.position;
                self.position = self.position + 1;
                Ok(ParamValue::String(self.text_at(i)))
            },
            TokenType::LBracket => self.parse_list(),
            TokenType::LBrace => self.parse_object(),
            _ => {
                let token = self.current_token();
                let mut msg = String::new();
                push_str(&mut msg, "Expected value, got ");
                push_str(&mut msg, token.token_type.name());
                assert(msg@ =~= "Expected value, got "@ + token_type_name(token.token_type));
                Err(WezzteError::parse(msg, token.position))
            },
        }
    }

    /// Parse a list: [value, value, ...]
    fn parse_list(&mut self) -> (r: Result<ParamValue, WezzteError>)
        requires
            old(self).wf(),
        ensures
            final(self).toks() == old(self).toks(),
            match parse_list_at(old(self).toks(), old(self).pos()) {
                Ok((v, q)) => r matches Ok(x) && x@ == v && final(self).pos() == q && final(self).wf(),
                Err(e) => r matches Err(x) && x@ == e,
            },
        decreases old(self).toks().len() - old(self).pos(), 0int,
    {
        let ghost ts = self.toks();
        let ghost p0 = self.pos();
        proof {
            lemma_list_advances(ts, p0);
            lemma_expect(ts, p0, TokenType::LBracket);
        }
        match self.consume_token(TokenType::LBracket) {
            Ok(_) => {},
            Err(e) => {
                return Err(e);
            },
        }
        let mut values: Vec<ParamValue> = Vec::new();
        proof {
            lemma_expect(ts, self.pos(), TokenType::RBracket);
        }
        if self.peek_token_type(TokenType::RBracket) {
            match self.consume_token(TokenType::RBracket) {
                Ok(_) => {},
                Err(e) => {
                    return Err(e);
                },
            }
            let r = ParamValue::List(values);
            assert(r@ == PVal::List(Seq::empty())) by {
                assert(pval_of(&r)->List_0 =~= Seq::<PVal>::empty());
            }
            return Ok(r);
        }
        let first = match self.parse_value() {
            Ok(v) => v,
            Err(e) => {
                return Err(e);
            },
        };
        proof {
            lemma_value_advances(ts, p0 + 1);
        }
        values.push(first);
        assert(values@.map_values(|x: ParamValue| x@) =~= seq![first@]);
        loop
            invariant
                self.wf(),
                self.toks() == ts,
                ts == old(self).toks(),
                p0 == old(self).pos(),
                toks_wf(ts),
                p0 < self.pos(),
                parse_list_at(ts, p0) == list_rest_at(
                    ts,
                    self.pos(),
                    values@.map_values(|x: ParamValue| x@),
                ),
            decreases ts.len() - self.pos(),
        {
            let ghost p = self.pos();
            let ghost acc = values@.map_values(|x: ParamValue| x@);
            proof {
                lemma_expect(ts, p, TokenType::Comma);
                lemma_expect(ts, p, TokenType::RBracket);
            }
            if !self.peek_token_type(TokenType::Comma) {
                match self.consume_token(TokenType::RBracket) {
                    Ok(_) => {},
                    Err(e) => {
                        return Err(e);
                    },
                }
                let r = ParamValue::List(values);
                assert(r@ == PVal::List(acc)) by {
                    assert(pval_of(&r)->List_0 =~= acc);
                }
                return Ok(r);
            }
            match self.consume_token(TokenType::Comma) {
                Ok(_) => {},
                Err(e) => {
                    return Err(e);
                },
            }
            proof {
                lemma_expect(ts, self.pos(), TokenType::RBracket);
            }
            if self.peek_token_type(TokenType::RBracket) {
                match self.consume_token(TokenType::RBracket) {
                    Ok(_) => {},
                    Err(e) => {
                        return Err(e);
                    },
                }
                let r = ParamValue::List(values);
                assert(r@ == PVal::List(acc)) by {
                    assert(pval_of(&r)->List_0 =~= acc);
                }
                return Ok(r);
            }
            let ghost p1 = self.pos();
            let v = match self.parse_value() {
                Ok(v) => v,
                Err(e) => {
                    return Err(e);
                },
            };
            proof {
                lemma_value_advances(ts, p1);
            }
            values.push(v);
            assert(values@.map_values(|x: ParamValue| x@) =~= acc.push(v@));
        }
    }

    /// Parse an object: {key: value, key: value, ...}
    fn parse_object(&mut self) -> (r: Result<ParamValue, WezzteError>)
        requires
            old(self).wf(),
        ensures
            final(self).toks() == old(self).toks(),
            match parse_object_at(old(self).toks(), old(self).pos()) {
                Ok((v, q)) => r matches Ok(x) && x@ == v && final(self).pos() == q && final(self).wf(),
                Err(e) => r matches Err(x) && x@ == e,
            },
        decreases old(self).toks().len() - old(self).pos(), 0int,
    {
        let ghost ts = self.toks();
        let ghost p0 = self.pos();
        proof {
            lemma_object_advances(ts, p0);
            lemma_expect(ts, p0, TokenType::LBrace);
        }
        match self.consume_token(TokenType::LBrace) {
            Ok(_) => {},
            Err(e) => {
                return Err(e);
            },
        }
        let mut object = ParamMap::new();
        proof {
            lemma_expect(ts, self.pos(), TokenType::RBrace);
            lemma_expect(ts, self.pos(), TokenType::Identifier);
        }
        if self.peek_token_type(TokenType::RBrace) {
            match self.consume_token(TokenType::RBrace) {
                Ok(_) => {},
                Err(e) => {
                    return Err(e);
                },
            }
            return Ok(ParamValue::Object(object));
        }
        let ki = match self.consume_token(TokenType::Identifier) {
            Ok(i) => i,
            Err(e) => {
                return Err(e);
            },
        };
        let key = self.text_at(ki);
        proof {
            lemma_expect(ts, self.pos(), TokenType::Colon);
        }
        match self.consume_token(TokenType::Colon) {
            Ok(_) => {},
            Err(e) => {
                return Err(e);
            },
        }
        let ghost p3 = self.pos();
        let value = match self.parse_value() {
            Ok(v) => v,
            Err(e) => {
                return Err(e);
            },
        };
        proof {
            lemma_value_advances(ts, p3);
        }
        object.insert(key, value);
        loop
            invariant
                self.wf(),
                self.toks() == ts,
                ts == old(self).toks(),
                p0 == old(self).pos(),
                toks_wf(ts),
                p0 < self.pos(),
                parse_object_at(ts, p0) == object_rest_at(ts, self.pos(), object@),
            decreases ts.len() - self.pos(),
        {
            let ghost p = self.pos();
            proof {
                lemma_expect(ts, p, TokenType::Comma);
                lemma_expect(ts, p, TokenType::RBrace);
            }
            if !self.peek_token_type(TokenType::Comma) {
                match self.consume_token(TokenType::RBrace) {
                    Ok(_) => {},
                    Err(e) => {
                        return Err(e);
                    },
                }
                return Ok(ParamValue::Object(object));
            }
            match self.consume_token(TokenType::Comma) {
                Ok(_) => {},
                Err(e) => {
                    return Err(e);
                },
            }
            proof {
                lemma_expect(ts, self.pos(), TokenType::RBrace);
                lemma_expect(ts, self.pos(), TokenType::Identifier);
            }
            if self.peek_token_type(TokenType::RBrace) {
                match self.consume_token(TokenType::RBrace) {
                    Ok(_) => {},
                    Err(e) => {
                        return Err(e);
                    },
                }
                return Ok(ParamValue::Object(object));
            }
            let ki = match self.consume_token(TokenType::Identifier) {
                Ok(i) => i,
                Err(e) => {
                    return Err(e);
                },
            };
            let key = self.text_at(ki);
            proof {
                lemma_expect(ts, self.pos(), TokenType::Colon);
            }
            match self.consume_token(TokenType::Colon) {
                Ok(_) => {},
                Err(e) => {
                    return Err(e);
                },
            }
            let ghost p3 = self.pos();
            let value = match self.parse_value() {
                Ok(v) => v,
                Err(e) => {
                    return Err(e);
                },
            };
            proof {
                lemma_value_advances(ts, p3);
            }
            object.insert(key, value);
        }
    }

    /// Parse a single parameter: identifier = value
    fn parse_parameter(&mut self) -> (r: Result<(String, ParamValue), WezzteError>)
        requires
            old(self).wf(),
        ensures
            final(self).toks() == old(self).toks(),
            match parse_parameter_at(old(self).toks(), old(self).pos()) {
                Ok((k, v, q)) => r matches Ok((x, y)) && x@ == k && y@ == v && final(self).pos()
                    == q && final(self).wf(),
                Err(e) => r matches Err(x) && x@ == e,
            },
    {
        let ghost ts = self.toks();
        proof {
            lemma_parameter_advances(ts, self.pos());
            lemma_expect(ts, self.pos(), TokenType::Identifier);
        }
        let ki = match self.consume_token(TokenType::Identifier) {
            Ok(i) => i,
            Err(e) => {
                return Err(e);
            },
        };
        let key = self.text_at(ki);
        proof {
            lemma_expect(ts, self.pos(), TokenType::Equal);
        }
        match self.consume_token(TokenType::Equal) {
            Ok(_) => {},
            Err(e) => {
                return Err(e);
            },
        }
        match self.parse_value() {
            Ok(v) => Ok((key, v)),
            Err(e) => Err(e),
        }
    }

    /// Try to parse a parameter, returning error if not valid.
    fn try_parse_parameter(&mut self) -> (r: Result<(String, ParamValue), WezzteError>)
        requires
            old(self).wf(),
        ensures
            final(self).toks() == old(self).toks(),
            match parse_parameter_at(old(self).toks(), old(self).pos()) {
                Ok((k, v, q)) => r matches Ok((x, y)) && x@ == k && y@ == v && final(self).pos()
                    == q && final(self).wf(),
                Err(e) => r matches Err(x) && x@ == e,
            },
    {
        self.parse_parameter()
    }

    /// Parse a comma-separated list of parameters.
    fn parse_param_list(&mut self) -> (r: Result<ParamMap, WezzteError>)
        requires
            old(self).wf(),
        ensures
            final(self).toks() == old(self).toks(),
            match parse_param_list_at(old(self).toks(), old(self).pos()) {
                Ok((ps, q)) => r matches Ok(m) && m@ == ps && final(self).pos() == q && final(self).wf(),
                Err(e) => r matches Err(x) && x@ == e,
            },
    {
        let ghost ts = self.toks();
        let mut params = ParamMap::new();
        if self.peek_token_type(TokenType::RParen) {
            return Ok(params);
        }
        proof {
            lemma_parameter_advances(ts, self.pos());
        }
        let (key, value) = match self.parse_parameter() {
            Ok(kv) => kv,
            Err(e) => {
                return Err(e);
            },
        };
        params.insert(key, value);
        loop
            invariant
                self.wf(),
                self.toks() == ts,
                ts == old(self).toks(),
                toks_wf(ts),
                parse_param_list_at(ts, old(self).pos()) == param_rest_at(
                    ts,
                    self.pos(),
                    params@,
                ),
            decreases ts.len() - self.pos(),
        {
            proof {
                lemma_expect(ts, self.pos(), TokenType::Comma);
            }
            if !self.peek_token_type(TokenType::Comma) {
                return Ok(params);
            }
            match self.consume_token(TokenType::Comma) {
                Ok(_) => {},
                Err(e) => {
                    return Err(e);
                },
            }
            if self.peek_token_type(TokenType::RParen) {
                return Ok(params);
            }
            proof {
                lemma_parameter_advances(ts, self.pos());
            }
            let (key, value) = match self.parse_parameter() {
                Ok(kv) => kv,
                Err(e) => {
                    return Err(e);
                },
            };
            params.insert(key, value);
        }
    }

    /// Parse a complete annotation from tokens, starting at the current token.
    pub fn parse_annotation(&mut self) -> (r: Result<Annotation, WezzteError>)
        requires
            old(self).wf(),
        ensures
            final(self).toks() == old(self).toks(),
            match parse_annotation_at(old(self).toks(), old(self).pos()) {
                Ok(a) => r matches Ok(x) && x@ == a,
                Err(e) => r matches Err(x) && x@ == e,
            },
    {
        let ghost ts = self.toks();
        let ghost p0 = self.pos();
        proof {
            lemma_expect(ts, p0, TokenType::Identifier);
        }
        let ui_type = match self.parse_ui_type() {
            Ok(u) => u,
            Err(e) => {
                return Err(e);
            },
        };
        let mut params = ParamMap::new();
        proof {
            lemma_expect(ts, self.pos(), TokenType::LParen);
        }
        if self.peek_token_type(TokenType::LParen) {
            match self.consume_token(TokenType::LParen) {
                Ok(_) => {},
                Err(e) => {
                    return Err(e);
                },
            }
            params = match self.parse_param_list() {
                Ok(m) => m,
                Err(e) => {
                    return Err(e);
                },
            };
            proof {
                lemma_expect(ts, self.pos(), TokenType::RParen);
            }
            match self.consume_token(TokenType::RParen) {
                Ok(_) => {},
                Err(e) => {
                    return Err(e);
                },
            }
        }
        let ghost p2 = self.pos();
        assert(head_params_at(ts, p0 + 1) == Ok::<(PEntries, int), ErrorView>((params@, p2)));
        // Parse trailing parameters (outside parentheses)
        loop
            invariant
                self.wf(),
                self.toks() == ts,
                ts == old(self).toks(),
                toks_wf(ts),
                trailing_at(ts, p2, head_params_at(ts, p0 + 1)->Ok_0.0) == trailing_at(
                    ts,
                    self.pos(),
                    params@,
                ),
            ensures
                self.wf(),
                self.toks() == ts,
                trailing_at(ts, p2, head_params_at(ts, p0 + 1)->Ok_0.0) == Ok::<(PEntries, int), ErrorView>((params@, self.pos())),
            decreases ts.len() - self.pos(),
        {
            if !self.peek_token_type(TokenType::Identifier) {
                break;
            }
            let saved_pos = self.position;
            proof {
                lemma_parameter_advances(ts, self.pos());
            }
            match self.try_parse_parameter() {
                Ok((key, value)) => {
                    params.insert(key, value);
                    proof {
                        lemma_expect(ts, self.pos(), TokenType::Comma);
                    }
                    if self.peek_token_type(TokenType::Comma) {
                        match self.consume_token(TokenType::Comma) {
                            Ok(_) => {},
                            Err(e) => {
                                return Err(e);
                            },
                        }
                    }
                },
                Err(_) => {
                    self.position = saved_pos;
                    break;
                },
            }
        }
        let token = self.current_token();
        if token.token_type != TokenType::Eof {
            let mut msg = String::new();
            push_str(&mut msg, "Unexpected token: ");
            push_str(&mut msg, token.token_type.name());
            assert(msg@ =~= "Unexpected token: "@ + token_type_name(token.token_type));
            return Err(WezzteError::parse(msg, token.position));
        }
        Ok(Annotation::new(ui_type, params))
    }
}


// ---------------------------------------------------------------------
// Decorator lines and configuration content
// ---------------------------------------------------------------------

/// Outcome of parsing one decorator line: it must start with the decorator
/// prefix; the rest, trimmed, must be non-empty, lex, and parse as an annotation.
pub open spec fn decorator_line_spec(line: Seq<char>) -> Result<AnnotationView, ErrorView> {
    if !starts_with(line, DECORATOR_PREFIX@) {
        Err(
            ErrorView::InvalidDecoration {
                message: "Decorator must start with '"@ + DECORATOR_PREFIX@ + "'"@,
            },
        )
    } else {
        let text = trim(line.skip(DECORATOR_PREFIX@.len() as int));
        if text.len() == 0 {
            Err(ErrorView::InvalidDecoration { message: "Empty decorator annotation"@ })
        } else {
            match lex(text) {
                Err((m, p)) => Err(ErrorView::Parse { message: m, position: p }),
                Ok(ts) => parse_annotation_at(ts, 0),
            }
        }
    }
}

/// Parse a single decorator line into an annotation.
pub fn parse_decorator_line(line: &str) -> (r: Result<Annotation, WezzteError>)
    requires
        fits_positions(line@),
    ensures
        match decorator_line_spec(line@) {
            Ok(a) => r matches Ok(x) && x@ == a,
            Err(e) => r matches Err(x) && x@ == e,
        },
{
    let v = chars_of(line);
    let prefix = chars_of(DECORATOR_PREFIX);
    if !vec_starts_with(&v, &prefix) {
        let mut msg = String::new();
        push_str(&mut msg, "Decorator must start with '");
        push_str(&mut msg, DECORATOR_PREFIX);
        push_str(&mut msg, "'");
        assert(msg@ =~= "Decorator must start with '"@ + DECORATOR_PREFIX@ + "'"@);
        return Err(WezzteError::invalid_decoration(msg));
    }
    let (a, b) = trim_bounds(&v, prefix.len(), v.len());
    assert(v@.subrange(prefix@.len() as int, v@.len() as int) =~= line@.skip(
        DECORATOR_PREFIX@.len() as int,
    ));
    if a == b {
        return Err(WezzteError::invalid_decoration(to_owned_string("Empty decorator annotation")));
    }
    let text = string_of_range(&v, a, b);
    proof {
        lemma_fits_subrange(line@, a as int, b as int);
    }
    let mut lexer = Lexer::new(text.as_str());
    let tokens = match lexer.tokenize() {
        Ok(t) => t,
        Err(e) => {
            return Err(e);
        },
    };
    proof {
        lemma_lex_ends_with_eof(text@, 0);
        lemma_toks_of(tokens@);
    }
    let mut parser = Parser::new(tokens);
    parser.parse_annotation()
}

/// Model of a configuration entry.
pub struct EntryView {
    pub key: Seq<char>,
    pub value: Seq<char>,
    pub annotation: AnnotationView,
    pub decorator: Seq<char>,
}

/// A parsed configuration entry with its decoration.
#[derive(Debug, PartialEq)]
pub struct ConfigEntry {
    /// Configuration key (e.g., "config.font_size")
    pub key: String,
    /// Current value as string
    pub value: String,
    /// Parsed annotation from the decorator
    pub annotation: Annotation,
    /// Original decorator line for reference
    pub decorator: String,
}

impl View for ConfigEntry {
    type V = EntryView;

    open spec fn view(&self) -> EntryView {
        EntryView {
            key: self.key@,
            value: self.value@,
            annotation: self.annotation@,
            decorator: self.decorator@,
        }
    }
}

impl ConfigEntry {
    pub fn new(key: String, value: String, annotation: Annotation, decorator: String) -> (r: ConfigEntry)
        ensures
            r.key == key,
            r.value == value,
            r.annotation == annotation,
            r.decorator == decorator,
    {
        ConfigEntry { key, value, annotation, decorator }
    }
}

/// The text between the tuner markers (after the first start marker, up to
/// the first end marker), or the error for missing or misplaced markers.
pub open spec fn tuner_block(c: Seq<char>) -> Result<Seq<char>, ErrorView> {
    match find(c, TUNER_START@) {
        None => Err(ErrorView::Config { message: "No tuner start marker found in configuration"@ }),
        Some(s) => match find(c, TUNER_END@) {
            None => Err(ErrorView::Config { message: "No tuner end marker found in configuration"@ }),
            Some(e) => if e <= s {
                Err(ErrorView::Config { message: "Invalid tuner marker positions"@ })
            } else {
                Ok(c.subrange(s + TUNER_START@.len(), e))
            },
        },
    }
}

/// The lines of a text as `str::lines` gives them, each trimmed.
pub open spec fn trimmed_lines(b: Seq<char>) -> Seq<Seq<char>> {
    let p = split_char(b, '\n');
    let pieces = if p.last().len() == 0 {
        p.drop_last()
    } else {
        p
    };
    pieces.map_values(|l: Seq<char>| trim(l))
}

/// First index at or after `j` whose line is not blank.
pub open spec fn skip_blank(ls: Seq<Seq<char>>, j: int) -> int
    decreases ls.len() - j,
{
    if 0 <= j < ls.len() && ls[j].len() == 0 {
        skip_blank(ls, j + 1)
    } else {
        j
    }
}

/// A table initialization line: `config.x = config.x or {}`.
pub open spec fn is_table_init(l: Seq<char>) -> bool {
    find(l, " = config."@) is Some && ends_with(l, " or {}"@)
}

/// First index at or after `j` that is not a table initialization line.
pub open spec fn skip_table_init(ls: Seq<Seq<char>>, j: int) -> int
    decreases ls.len() - j,
{
    if 0 <= j < ls.len() && is_table_init(ls[j]) {
        skip_table_init(ls, j + 1)
    } else {
        j
    }
}

/// The entry made of decorator line `i` and assignment line `k`, when the
/// assignment has ` = ` and the decorator parses.
pub open spec fn entry_at(ls: Seq<Seq<char>>, i: int, k: int) -> Option<EntryView> {
    match find(ls[k], " = "@) {
        None => None,
        Some(eq) => match decorator_line_spec(ls[i]) {
            Ok(a) => Some(
                EntryView {
                    key: trim(ls[k].take(eq)),
                    value: trim(ls[k].skip(eq + 3)),
                    annotation: a,
                    decorator: ls[i],
                },
            ),
            Err(_) => None,
        },
    }
}

/// The entries found in lines `i..` of the tuner block.
pub open spec fn entries_from(ls: Seq<Seq<char>>, i: int) -> Seq<EntryView>
    decreases ls.len() + 1 - i,
{
    if i < 0 || i >= ls.len() {
        Seq::empty()
    } else if starts_with(ls[i], DECORATOR_PREFIX@) {
        let k = skip_table_init(ls, skip_blank(ls, i + 1));
        if i < k <= ls.len() {
            let here = if k < ls.len() {
                match entry_at(ls, i, k) {
                    Some(e) => seq![e],
                    None => Seq::empty(),
                }
            } else {
                Seq::empty()
            };
            here + entries_from(ls, k + 1)
        } else {
            Seq::empty()
        }
    } else {
        entries_from(ls, i + 1)
    }
}

/// Outcome of parsing all annotations of a configuration.
pub open spec fn annotations_spec(c: Seq<char>) -> Result<Seq<EntryView>, ErrorView> {
    match tuner_block(c) {
        Err(e) => Err(e),
        Ok(b) => Ok(entries_from(trimmed_lines(b), 0)),
    }
}

proof fn lemma_skip_blank(ls: Seq<Seq<char>>, j: int)
    requires
        0 <= j <= ls.len(),
    ensures
        j <= skip_blank(ls, j) <= ls.len(),
    decreases ls.len() - j,
{
    if 0 <= j < ls.len() && ls[j].len() == 0 {
        lemma_skip_blank(ls, j + 1);
    }
}

proof fn lemma_skip_table_init(ls: Seq<Seq<char>>, j: int)
    requires
        0 <= j <= ls.len(),
    ensures
        j <= skip_table_init(ls, j) <= ls.len(),
    decreases ls.len() - j,
{
    if 0 <= j < ls.len() && is_table_init(ls[j]) {
        lemma_skip_table_init(ls, j + 1);
    }
}

/// Skipping blank lines from `m` stops at the first line that is not blank.
proof fn lemma_skip_blank_to(ls: Seq<Seq<char>>, m: int, j: int)
    requires
        0 <= m <= j < ls.len(),
        ls[j].len() > 0,
        forall|q: int| m <= q < j ==> (#[trigger] ls[q]).len() == 0,
    ensures
        skip_blank(ls, m) == j,
    decreases j - m,
{
    if m < j {
        lemma_skip_blank_to(ls, m + 1, j);
    }
}

/// A decorator line followed by blank lines and then an assignment
/// `key = value` (not a table initialization) gives, first among the
/// entries from that line, the entry with that key, that value and that
/// decorator's annotation: blank lines between a decorator and its
/// assignment do not separate them.
pub proof fn law_decorator_pairs_across_blank_lines(ls: Seq<Seq<char>>, i: int, j: int)
    requires
        0 <= i < j < ls.len(),
        starts_with(ls[i], DECORATOR_PREFIX@),
        decorator_line_spec(ls[i]) is Ok,
        forall|q: int| i < q < j ==> (#[trigger] ls[q]).len() == 0,
        find(ls[j], " = "@) is Some,
        !is_table_init(ls[j]),
    ensures
        entries_from(ls, i).len() > 0,
        ({
            let eq = find(ls[j], " = "@)->0;
            entries_from(ls, i)[0] == (EntryView {
                key: trim(ls[j].take(eq)),
                value: trim(ls[j].skip(eq + 3)),
                annotation: decorator_line_spec(ls[i])->Ok_0,
                decorator: ls[i],
            })
        }),
{
    reveal_strlit(" = ");
    crate::text::lemma_find(ls[j], " = "@);
    assert(ls[j].len() > 0);
    lemma_skip_blank_to(ls, i + 1, j);
    assert(skip_table_init(ls, j) == j);
    let e = entry_at(ls, i, j)->0;
    assert(entry_at(ls, i, j) is Some);
    assert(entries_from(ls, i) == seq![e] + entries_from(ls, j + 1));
}

/// The end marker cannot begin inside the start marker.
proof fn lemma_markers_disjoint(c: Seq<char>, s: int, e: int)
    requires
        crate::text::occurs_at(c, TUNER_START@, s),
        crate::text::occurs_at(c, TUNER_END@, e),
        s < e,
    ensures
        s + TUNER_START@.len() <= e,
{
    reveal_strlit("-- <<TUNER-START>>");
    reveal_strlit("-- <<TUNER-END>>");
    let st = TUNER_START@;
    let en = TUNER_END@;
    assert(st.len() == 18);
    assert(en.len() == 16);
    if e < s + 18 {
        let k = e - s;
        assert(c.subrange(s, s + 18)[k] == c[e]);
        assert(c.subrange(e, e + 16)[0] == c[e]);
        assert(c.subrange(s, s + 18)[k + 1] == c[e + 1]);
        assert(c.subrange(e, e + 16)[1] == c[e + 1]);
        assert(st[k] == en[0]);
        assert(st[k + 1] == en[1]);
    }
}

/// Bounds of the text between the markers in `v`.
fn tuner_block_bounds(v: &Vec<char>) -> (r: Result<(usize, usize), WezzteError>)
    ensures
        match tuner_block(v@) {
            Ok(b) => r matches Ok((lo, hi)) && lo <= hi <= v@.len() && v@.subrange(lo as int, hi as int) == b,
            Err(e) => r matches Err(x) && x@ == e,
        },
{
    let start_marker = chars_of(TUNER_START);
    let end_marker = chars_of(TUNER_END);
    let start_pos = match vec_find(v, &start_marker) {
        Some(p) => p,
        None => {
            return Err(WezzteError::config(to_owned_string("No tuner start marker found in configuration")));
        },
    };
    let end_pos = match vec_find(v, &end_marker) {
        Some(p) => p,
        None => {
            return Err(WezzteError::config(to_owned_string("No tuner end marker found in configuration")));
        },
    };
    if end_pos <= start_pos {
        return Err(WezzteError::config(to_owned_string("Invalid tuner marker positions")));
    }
    proof {
        lemma_find(v@, TUNER_START@);
        lemma_find(v@, TUNER_END@);
        lemma_markers_disjoint(v@, start_pos as int, end_pos as int);
    }
    Ok((start_pos + start_marker.len(), end_pos))
}

/// Parse all annotations from configuration content: every decorator line
/// of the tuner block, with the assignment that follows it (skipping blank
/// lines and table initializations), gives an entry; decorators that fail
/// to parse and assignments without ` = ` are skipped.
pub fn parse_annotations(content: &str) -> (r: Result<Vec<ConfigEntry>, WezzteError>)
    requires
        fits_positions(content@),
    ensures
        match annotations_spec(content@) {
            Ok(es) => r matches Ok(v) && v@.map_values(|x: ConfigEntry| x@) == es,
            Err(e) => r matches Err(x) && x@ == e,
        },
{
    let v = chars_of(content);
    let (lo, hi) = match tuner_block_bounds(&v) {
        Ok(b) => b,
        Err(e) => {
            return Err(e);
        },
    };
    let ghost block = v@.subrange(lo as int, hi as int);
    let pieces = split_bounds(&v, lo, hi, '\n');
    proof {
        lemma_split_char_nonempty(block, '\n');
    }
    let ghost sp = split_char(block, '\n');
    let mut count = pieces.len();
    let (last_lo, last_hi) = pieces[count - 1];
    if last_lo == last_hi {
        count = count - 1;
    }
    let ghost raw = if sp.last().len() == 0 {
        sp.drop_last()
    } else {
        sp
    };
    assert(raw.len() == count);
    // Trimmed bounds of every line
    let mut lines: Vec<(usize, usize)> = Vec::new();
    let mut t: usize = 0;
    while t < count
        invariant
            t <= count <= pieces@.len(),
            count == raw.len(),
            pieces@.len() == sp.len(),
            forall|k: int| 0 <= k < pieces@.len() ==> lo <= (#[trigger] pieces@[k]).0 <= pieces@[k].1 <= hi && v@.subrange(pieces@[k].0 as int, pieces@[k].1 as int) == sp[k],
            forall|k: int| 0 <= k < raw.len() ==> raw[k] == #[trigger] sp[k],
            hi <= v@.len(),
            lines@.len() == t,
            forall|k: int| 0 <= k < t ==> (#[trigger] lines@[k]).0 <= lines@[k].1 <= v@.len() && v@.subrange(lines@[k].0 as int, lines@[k].1 as int) == trim(raw[k]),
        decreases count - t,
    {
        let (pl, ph) = pieces[t];
        let b = trim_bounds(&v, pl, ph);
        lines.push(b);
        t = t + 1;
    }
    let ghost ls = trimmed_lines(block);
    assert(ls.len() == lines@.len());
    assert(forall|k: int| 0 <= k < lines@.len() ==> v@.subrange((#[trigger] lines@[k]).0 as int, lines@[k].1 as int) == ls[k]);
    let prefix = chars_of(DECORATOR_PREFIX);
    let sep = chars_of(" = ");
    let init_mid = chars_of(" = config.");
    let init_end = chars_of(" or {}");
    let mut entries: Vec<ConfigEntry> = Vec::new();
    let n = lines.len();
    let mut i: usize = 0;
    assert(entries@.map_values(|x: ConfigEntry| x@) =~= Seq::<EntryView>::empty());
    while i < n
        invariant
            n == lines@.len(),
            n == ls.len(),
            i <= n + 1,
            fits_positions(v@),
            v@ == content@,
            prefix@ == DECORATOR_PREFIX@,
            sep@ == " = "@,
            init_mid@ == " = config."@,
            init_end@ == " or {}"@,
            forall|k: int| 0 <= k < lines@.len() ==> (#[trigger] lines@[k]).0 <= lines@[k].1 <= v@.len() && v@.subrange(lines@[k].0 as int, lines@[k].1 as int) == ls[k],
            entries_from(ls, 0) == entries@.map_values(|x: ConfigEntry| x@) + entries_from(ls, i as int),
        decreases n + 1 - i,
    {
        let ghost i0 = i as int;
        let (dl, dh) = lines[i];
        let line = string_of_range(&v, dl, dh);
        let lv = chars_of(line.as_str());
        if !vec_starts_with(&lv, &prefix) {
            i = i + 1;
            continue;
        }
        let decorator_line = line;
        let mut j = i + 1;
        // Skip empty lines after decorator
        while j < n && lines[j].0 == lines[j].1
            invariant
                i0 + 1 <= j <= n,
                n == lines@.len(),
                n == ls.len(),
                forall|k: int| 0 <= k < lines@.len() ==> (#[trigger] lines@[k]).0 <= lines@[k].1 <= v@.len() && v@.subrange(lines@[k].0 as int, lines@[k].1 as int) == ls[k],
                skip_blank(ls, j as int) == skip_blank(ls, i0 + 1),
            decreases n - j,
        {
            j = j + 1;
        }
        assert(skip_blank(ls, j as int) == j);
        let ghost j0 = j as int;
        // Skip table initialization lines
        loop
            invariant
                j0 <= j <= n,
                n == lines@.len(),
                n == ls.len(),
                init_mid@ == " = config."@,
                init_end@ == " or {}"@,
                forall|k: int| 0 <= k < lines@.len() ==> (#[trigger] lines@[k]).0 <= lines@[k].1 <= v@.len() && v@.subrange(lines@[k].0 as int, lines@[k].1 as int) == ls[k],
                skip_table_init(ls, j as int) == skip_table_init(ls, j0),
            ensures
                j0 <= j <= n,
                skip_table_init(ls, j as int) == j,
                skip_table_init(ls, j0) == j,
            decreases n - j,
        {
            if j >= n {
                break;
            }
            let (cl, ch) = lines[j];
            let cv = string_of_range(&v, cl, ch);
            let cc = chars_of(cv.as_str());
            let has_mid = vec_find(&cc, &init_mid).is_some();
            if has_mid && vec_ends_with(&cc, &init_end) {
                j = j + 1;
            } else {
                break;
            }
        }
        let ghost k = j as int;
        proof {
            lemma_skip_blank(ls, i0 + 1);
            lemma_skip_table_init(ls, j0);
            assert(k == skip_table_init(ls, skip_blank(ls, i0 + 1)));
        }
        let ghost before = entries@.map_values(|x: ConfigEntry| x@);
        if j < n {
            let (al, ah) = lines[j];
            let av = string_of_range(&v, al, ah);
            let ac = chars_of(av.as_str());
            match vec_find(&ac, &sep) {
                Some(eq) => {
                    proof {
                        lemma_find(ac@, sep@);
                        reveal_strlit(" = ");
                        lemma_fits_subrange(v@, dl as int, dh as int);
                    }
                    match parse_decorator_line(decorator_line.as_str()) {
                        Ok(annotation) => {
                            let (kl, kh) = trim_bounds(&ac, 0, eq);
                            let (vl, vh) = trim_bounds(&ac, eq + 3, ac.len());
                            assert(ac@.subrange(0, eq as int) =~= ls[k].take(eq as int));
                            assert(ac@.subrange(eq + 3, ac@.len() as int) =~= ls[k].skip(eq + 3));
                            let key = string_of_range(&ac, kl, kh);
                            let value = string_of_range(&ac, vl, vh);
                            let entry = ConfigEntry::new(key, value, annotation, decorator_line);
                            entries.push(entry);
                            assert(entries@.map_values(|x: ConfigEntry| x@) =~= before.push(entry@));
                            assert(entry_at(ls, i0, k) == Some(entry@));
                        },
                        Err(_) => {},
                    }
                },
                None => {},
            }
        }
        proof {
            let here = if k < ls.len() {
                match entry_at(ls, i0, k) {
                    Some(e) => seq![e],
                    None => Seq::empty(),
                }
            } else {
                Seq::empty()
            };
            assert(entries_from(ls, i0) == here + entries_from(ls, k + 1));
            assert(entries@.map_values(|x: ConfigEntry| x@) == before + here);
            assert(before + (here + entries_from(ls, k + 1)) =~= (before + here) + entries_from(ls, k + 1));
        }
        i = if j < n {
            j + 1
        } else {
            n
        };
    }
    Ok(entries)
}

} // verus!
