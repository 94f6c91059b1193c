//! Recursive-descent parsing of the token stream into an abstract syntax
//! tree.
//!
//! Grammar (right-recursive; binary chains associate to the right and no
//! operator precedence is applied — a documented design decision, pinned by
//! the crate's tests):
//!
//! ```text
//! program    := statement*
//! statement  := IDENT '=' expression ';'
//! expression := '(' expression ')'
//!             | OPERATOR expression                // unary
//!             | value (OPERATOR expression)?       // binary, right-recursive
//! value      := FLOAT | INTEGER | IDENT
//! ```
//!
//! Errors accumulate: on a statement-level failure the parser records the
//! error and skips to just past the next semicolon before resuming, so one
//! malformed statement does not abort the pass.  An integer literal beyond
//! the 32-bit range is reported as a syntax error on its token.

use vstd::prelude::*;

use crate::ast::spec_binary_operator_of;
use crate::ast::spec_unary_operator_of;
use crate::ast::BinaryOperator;
use crate::ast::Expression;
use crate::ast::ExpressionView;
use crate::ast::Program;
use crate::ast::Statement;
use crate::ast::StatementView;
use crate::ast::UnaryOperator;
use crate::ast::Value;
use crate::ast::ValueView;
use crate::lexer::is_digit_char;
use crate::lexer::is_digit_char_exec;
use crate::numeric::decimal_to_bits;
use crate::numeric::decimal_to_bits_exec;
use crate::tokens::spec_tag_name;
use crate::tokens::tag_name;
use crate::tokens::Token;
use crate::tokens::TokenTag;
use crate::tokens::TokenView;

verus! {

/// The mathematical image of a syntax error.
pub enum ParserErrorView {
    UnexpectedEndOfInput,
    UnexpectedToken { expected: Seq<char>, found: TokenView },
}

/// A syntax error: the input ended where a token was required, or a token
/// was not what the grammar expected there (`expected` names the expected
/// token class or spelling set).
#[derive(Clone, Debug)]
pub enum ParserError {
    UnexpectedEndOfInput,
    UnexpectedToken { expected: String, found: Token },
}

impl View for ParserError {
    type V = ParserErrorView;

    open spec fn view(&self) -> ParserErrorView {
        match self {
            ParserError::UnexpectedEndOfInput => ParserErrorView::UnexpectedEndOfInput,
            ParserError::UnexpectedToken { expected, found } => ParserErrorView::UnexpectedToken {
                expected: expected@,
                found: found@,
            },
        }
    }
}

impl DeepView for ParserError {
    type V = ParserErrorView;

    open spec fn deep_view(&self) -> ParserErrorView {
        self.view()
    }
}

pub open spec fn spec_unexpected_token(expected: Seq<char>, found: TokenView) -> ParserErrorView {
    ParserErrorView::UnexpectedToken { expected, found }
}

impl ParserError {
    pub fn unexpected_token(expected: &str, found: &Token) -> (r: ParserError)
        ensures
            r@ == spec_unexpected_token(expected@, found@),
    {
        ParserError::UnexpectedToken { expected: expected.to_owned(), found: found.duplicate() }
    }
}

/// Whether the next unconsumed token exists and carries the given tag.
pub open spec fn spec_la1(toks: Seq<TokenView>, i: int, tag: TokenTag) -> bool {
    0 <= i < toks.len() && toks[i].tag == tag
}

/// Consuming match: take the next token; it is an error if the input is
/// exhausted or the token's tag differs — in the latter case the token is
/// consumed all the same.  Yields the outcome and the new cursor.
pub open spec fn spec_match_token(toks: Seq<TokenView>, i: int, tag: TokenTag) -> (Result<
    TokenView,
    ParserErrorView,
>, int) {
    if !(0 <= i < toks.len()) {
        (Err(ParserErrorView::UnexpectedEndOfInput), i)
    } else if toks[i].tag == tag {
        (Ok(toks[i]), i + 1)
    } else {
        (Err(spec_unexpected_token(spec_tag_name(tag), toks[i])), i + 1)
    }
}

/// Whether every character of `s` is a decimal digit.
pub open spec fn is_digit_seq(s: Seq<char>) -> bool {
    forall|k: int| 0 <= k < s.len() ==> #[trigger] is_digit_char(s[k])
}

/// The number written in decimal by a digit sequence.
pub open spec fn digit_seq_val(s: Seq<char>) -> int
    decreases s.len(),
{
    if s.len() == 0 {
        0
    } else {
        digit_seq_val(s.drop_last()) * 10 + (s.last() as u32 - 48)
    }
}

/// The value of the 32-bit integer literal written in `s`, or `None` where
/// `s` is empty, holds a non-digit, or exceeds `i32::MAX`.
pub open spec fn spec_parse_i32(s: Seq<char>) -> Option<i32> {
    if s.len() > 0 && is_digit_seq(s) && digit_seq_val(s) <= i32::MAX {
        Some(digit_seq_val(s) as i32)
    } else {
        None
    }
}

/// A digit sequence's value is nonnegative and grows (weakly) with every
/// digit appended, so any prefix's value bounds the whole from below.
pub proof fn lemma_digit_seq_val_prefix(s: Seq<char>, k: int)
    requires
        is_digit_seq(s),
        0 <= k <= s.len(),
    ensures
        0 <= digit_seq_val(s.take(k)) <= digit_seq_val(s),
    decreases s.len(),
{
    if s.len() == 0 {
        assert(s.take(k) =~= s);
    } else {
        assert(is_digit_seq(s.drop_last()));
        lemma_digit_seq_val_prefix(s.drop_last(), if k <= s.len() - 1 {
            k
        } else {
            s.len() - 1
        });
        assert(is_digit_char(s.last()));
        assert(s.last() as u32 - 48 >= 0);
        if k == s.len() {
            assert(s.take(k) =~= s);
            assert(s.drop_last().take(s.len() - 1) =~= s.drop_last());
            assert(digit_seq_val(s.drop_last()) >= 0);
        } else {
            assert(s.take(k) =~= s.drop_last().take(k));
            assert(digit_seq_val(s) == digit_seq_val(s.drop_last()) * 10 + (s.last() as u32 - 48));
            assert(s.drop_last().take(s.len() - 1) =~= s.drop_last());
            assert(digit_seq_val(s.drop_last()) >= 0);
            assert(digit_seq_val(s) >= digit_seq_val(s.drop_last()));
        }
    }
}

/// Parses a decimal digit string as an `i32`, per `spec_parse_i32`.
pub fn parse_i32(text: &str) -> (r: Option<i32>)
    ensures
        r == spec_parse_i32(text@),
{
    let ghost s = text@;
    let n = text.unicode_len();
    if n == 0 {
        return None;
    }
    let mut acc: u64 = 0;
    let mut j: usize = 0;
    while j < n
        invariant
            s == text@,
            n == s.len(),
            0 < n,
            j <= n,
            forall|k: int| 0 <= k < j ==> #[trigger] is_digit_char(s[k]),
            acc == digit_seq_val(s.take(j as int)),
            acc <= 0x7fffffff,
        decreases n - j,
    {
        let c = text.get_char(j);
        if !is_digit_char_exec(c) {
            assert(!is_digit_seq(s));
            return None;
        }
        let d = (c as u32) - 48;
        acc = acc * 10 + (d as u64);
        j = j + 1;
        proof {
            assert(s.take(j as int).drop_last() =~= s.take(j as int - 1));
            assert(s.take(j as int).last() == s[j as int - 1]);
        }
        if acc > 0x7fffffff {
            proof {
                if is_digit_seq(s) {
                    lemma_digit_seq_val_prefix(s, j as int);
                }
            }
            return None;
        }
    }
    proof {
        assert(s.take(n as int) =~= s);
        assert(is_digit_seq(s));
    }
    Some(acc as i32)
}

/// The parser: a cursor over the token stream with one-token lookahead.
pub struct MeansParser {
    tokens: Vec<Token>,
    pos: usize,
}

impl MeansParser {
    pub closed spec fn spec_tokens(self) -> Seq<TokenView> {
        self.tokens.deep_view()
    }

    pub closed spec fn spec_pos(self) -> int {
        self.pos as int
    }

    /// The cursor never passes the end of the token stream.
    pub open spec fn wf(self) -> bool {
        0 <= self.spec_pos() <= self.spec_tokens().len()
    }

    pub fn new(tokens: Vec<Token>) -> (r: MeansParser)
        ensures
            r.wf(),
            r.spec_tokens() == tokens.deep_view(),
            r.spec_pos() == 0,
    {
        MeansParser { tokens, pos: 0 }
    }

    /// Whether every token has been consumed.
    pub fn eof(&self) -> (r: bool)
        requires
            self.wf(),
        ensures
            r == (self.spec_pos() == self.spec_tokens().len()),
    {
        self.pos == self.tokens.len()
    }

    /// One-token lookahead: whether the next token carries the given tag.
    pub fn la1(&self, tag: TokenTag) -> (r: bool)
        requires
            self.wf(),
        ensures
            r == spec_la1(self.spec_tokens(), self.spec_pos(), tag),
    {
        if self.pos == self.tokens.len() {
            false
        } else {
            self.tokens[self.pos].tag == tag
        }
    }

    /// Consuming match, per `spec_match_token`.
    pub fn match_token(&mut self, tag: TokenTag) -> (r: Result<Token, ParserError>)
        requires
            old(self).wf(),
        ensures
            final(self).wf(),
            final(self).spec_tokens() == old(self).spec_tokens(),
            ({
                let (sr, si) = spec_match_token(old(self).spec_tokens(), old(self).spec_pos(), tag);
                &&& final(self).spec_pos() == si
                &&& match (r, sr) {
                    (Ok(t), Ok(st)) => t@ == st,
                    (Err(e), Err(se)) => e@ == se,
                    _ => false,
                }
            }),
    {
        if self.pos == self.tokens.len() {
            return Err(ParserError::UnexpectedEndOfInput);
        }
        let t = self.tokens[self.pos].duplicate();
        self.pos = self.pos + 1;
        if t.tag == tag {
            Ok(t)
        } else {
            let name = tag_name(tag);
            Err(ParserError::UnexpectedToken { expected: name, found: t })
        }
    }

    /// Takes the next token, if any, without requiring a tag.
    pub fn pop_token(&mut self) -> (r: Option<Token>)
        requires
            old(self).wf(),
        ensures
            final(self).wf(),
            final(self).spec_tokens() == old(self).spec_tokens(),
            ({
                let toks = old(self).spec_tokens();
                let i = old(self).spec_pos();
                if i < toks.len() {
                    &&& final(self).spec_pos() == i + 1
                    &&& r is Some && r->0@ == toks[i]
                } else {
                    &&& final(self).spec_pos() == i
                    &&& r is None
                }
            }),
    {
        if self.pos == self.tokens.len() {
            None
        } else {
            let t = self.tokens[self.pos].duplicate();
            self.pos = self.pos + 1;
            Some(t)
        }
    }
}


/// The outcome of the `value` rule at cursor `i`: a float literal's bits, an
/// integer literal's value, or a variable reference — consuming the token.
/// A literal token whose text does not parse is reported against that token.
/// Where no value-starting token is next, the offending token is named but
/// NOT consumed (the input may have ended instead), so that statement-level
/// recovery still stops at that token if it is the statement's semicolon.
pub open spec fn spec_value(toks: Seq<TokenView>, i: int) -> (Result<ValueView, ParserErrorView>, int) {
    if spec_la1(toks, i, TokenTag::Float) {
        match decimal_to_bits(toks[i].text) {
            Some(b) => (Ok(ValueView::Float(b)), i + 1),
            None => (Err(spec_unexpected_token(spec_tag_name(TokenTag::Number), toks[i])), i + 1),
        }
    } else if spec_la1(toks, i, TokenTag::Integer) {
        match spec_parse_i32(toks[i].text) {
            Some(v) => (Ok(ValueView::Integer(v)), i + 1),
            None => (Err(spec_unexpected_token(spec_tag_name(TokenTag::Number), toks[i])), i + 1),
        }
    } else if spec_la1(toks, i, TokenTag::Identifier) {
        (Ok(ValueView::Variable(toks[i].text)), i + 1)
    } else if 0 <= i < toks.len() {
        (Err(spec_unexpected_token(spec_tag_name(TokenTag::Number), toks[i])), i)
    } else {
        (Err(ParserErrorView::UnexpectedEndOfInput), i)
    }
}

/// The outcome of the `identifier` rule: a consuming match of an
/// `Identifier` token, yielding its text.
pub open spec fn spec_identifier(toks: Seq<TokenView>, i: int) -> (Result<Seq<char>, ParserErrorView>, int) {
    let (r, i1) = spec_match_token(toks, i, TokenTag::Identifier);
    match r {
        Ok(t) => (Ok(t.text), i1),
        Err(e) => (Err(e), i1),
    }
}

/// The outcome of the `expression` rule at cursor `i`.  A parenthesis opens
/// a nested expression; an operator in prefix position is unary; otherwise a
/// value, continued as a right-recursive binary operation if an operator
/// follows.
pub open spec fn spec_expression(toks: Seq<TokenView>, i: int) -> (Result<ExpressionView, ParserErrorView>, int)
    decreases toks.len() - i, 2int,
{
    if spec_la1(toks, i, TokenTag::OpenParen) {
        let (inner, i1) = spec_expression(toks, i + 1);
        match inner {
            Err(e) => (Err(e), i1),
            Ok(e) => {
                let (close, i2) = spec_match_token(toks, i1, TokenTag::CloseParen);
                match close {
                    Err(er) => (Err(er), i2),
                    Ok(_) => (Ok(e), i2),
                }
            },
        }
    } else if spec_la1(toks, i, TokenTag::Operator) {
        spec_unary_operator(toks, i)
    } else {
        let (v, i1) = spec_value(toks, i);
        match v {
            Err(e) => (Err(e), i1),
            Ok(val) => if spec_la1(toks, i1, TokenTag::Operator) {
                spec_binary_operator(toks, i1, ExpressionView::EVal(val))
            } else {
                (Ok(ExpressionView::EVal(val)), i1)
            },
        }
    }
}

/// The outcome of the unary-operator rule: an `Operator` token spelling a
/// unary operator, applied to the expression after it.
pub open spec fn spec_unary_operator(toks: Seq<TokenView>, i: int) -> (Result<ExpressionView, ParserErrorView>, int)
    decreases toks.len() - i, 1int,
{
    let (t, i1) = spec_match_token(toks, i, TokenTag::Operator);
    match t {
        Err(e) => (Err(e), i1),
        Ok(tok) => match spec_unary_operator_of(tok.text) {
            None => (Err(spec_unexpected_token("-"@, tok)), i1),
            Some(op) => {
                let (r, i2) = spec_expression(toks, i1);
                match r {
                    Err(e) => (Err(e), i2),
                    Ok(e) => (Ok(ExpressionView::UnaryOp { op, expr: Box::new(e) }), i2),
                }
            },
        },
    }
}

/// The outcome of the binary-operator rule: an `Operator` token spelling a
/// binary operator, combining `left` with the expression after it (right
/// recursion: chains associate to the right).
pub open spec fn spec_binary_operator(
    toks: Seq<TokenView>,
    i: int,
    left: ExpressionView,
) -> (Result<ExpressionView, ParserErrorView>, int)
    decreases toks.len() - i, 1int,
{
    let (t, i1) = spec_match_token(toks, i, TokenTag::Operator);
    match t {
        Err(e) => (Err(e), i1),
        Ok(tok) => match spec_binary_operator_of(tok.text) {
            None => (Err(spec_unexpected_token("+, -, *, / or %"@, tok)), i1),
            Some(op) => {
                let (r, i2) = spec_expression(toks, i1);
                match r {
                    Err(e) => (Err(e), i2),
                    Ok(right) => (
                        Ok(
                            ExpressionView::BinaryOp {
                                op,
                                left: Box::new(left),
                                right: Box::new(right),
                            },
                        ),
                        i2,
                    ),
                }
            },
        },
    }
}

/// The outcome of the `statement` rule: `IDENT '=' expression ';'`.
pub open spec fn spec_statement(toks: Seq<TokenView>, i: int) -> (Result<StatementView, ParserErrorView>, int) {
    let (id_r, i1) = spec_identifier(toks, i);
    match id_r {
        Err(e) => (Err(e), i1),
        Ok(id) => {
            let (as_r, i2) = spec_match_token(toks, i1, TokenTag::Assignment);
            match as_r {
                Err(e) => (Err(e), i2),
                Ok(_) => {
                    let (e_r, i3) = spec_expression(toks, i2);
                    match e_r {
                        Err(e) => (Err(e), i3),
                        Ok(expr) => {
                            let (semi_r, i4) = spec_match_token(toks, i3, TokenTag::SemiColon);
                            match semi_r {
                                Err(e) => (Err(e), i4),
                                Ok(_) => (Ok(StatementView { id, expr }), i4),
                            }
                        },
                    }
                },
            }
        },
    }
}

/// Panic-mode recovery: discard tokens up to and including the next token
/// with the given tag; reaching the end of the input first is itself an
/// error.
pub open spec fn spec_pop_until(toks: Seq<TokenView>, i: int, tag: TokenTag) -> (Option<ParserErrorView>, int)
    decreases toks.len() - i,
{
    if !(0 <= i < toks.len()) {
        (Some(ParserErrorView::UnexpectedEndOfInput), i)
    } else if toks[i].tag == tag {
        (None, i + 1)
    } else {
        spec_pop_until(toks, i + 1, tag)
    }
}

/// Positions never move backwards, never pass the end, and a value
/// consumes exactly one token when it succeeds.
pub proof fn lemma_value_bounds(toks: Seq<TokenView>, i: int)
    requires
        0 <= i <= toks.len(),
    ensures
        i <= spec_value(toks, i).1 <= toks.len(),
        spec_value(toks, i).0 is Ok ==> spec_value(toks, i).1 == i + 1,
        i < toks.len() ==> spec_value(toks, i).1 <= i + 1,
{
}

pub proof fn lemma_expression_bounds(toks: Seq<TokenView>, i: int)
    requires
        0 <= i <= toks.len(),
    ensures
        i <= spec_expression(toks, i).1 <= toks.len(),
    decreases toks.len() - i, 2int,
{
    if spec_la1(toks, i, TokenTag::OpenParen) {
        lemma_expression_bounds(toks, i + 1);
    } else if spec_la1(toks, i, TokenTag::Operator) {
        lemma_unary_operator_bounds(toks, i);
    } else {
        lemma_value_bounds(toks, i);
        let (v, i1) = spec_value(toks, i);
        if v is Ok && spec_la1(toks, i1, TokenTag::Operator) {
            lemma_binary_operator_bounds(toks, i1, ExpressionView::EVal(v->Ok_0));
        }
    }
}

pub proof fn lemma_unary_operator_bounds(toks: Seq<TokenView>, i: int)
    requires
        0 <= i <= toks.len(),
    ensures
        i <= spec_unary_operator(toks, i).1 <= toks.len(),
    decreases toks.len() - i, 1int,
{
    let (t, i1) = spec_match_token(toks, i, TokenTag::Operator);
    if t is Ok {
        lemma_expression_bounds(toks, i1);
    }
}

pub proof fn lemma_binary_operator_bounds(toks: Seq<TokenView>, i: int, left: ExpressionView)
    requires
        0 <= i <= toks.len(),
    ensures
        i <= spec_binary_operator(toks, i, left).1 <= toks.len(),
    decreases toks.len() - i, 1int,
{
    let (t, i1) = spec_match_token(toks, i, TokenTag::Operator);
    if t is Ok {
        lemma_expression_bounds(toks, i1);
    }
}

/// A statement never moves the cursor backwards or past the end, and always
/// consumes at least one token when one is available.
pub proof fn lemma_statement_bounds(toks: Seq<TokenView>, i: int)
    requires
        0 <= i <= toks.len(),
    ensures
        i <= spec_statement(toks, i).1 <= toks.len(),
        i < toks.len() ==> spec_statement(toks, i).1 >= i + 1,
{
    let (id_r, i1) = spec_identifier(toks, i);
    if id_r is Ok {
        let (as_r, i2) = spec_match_token(toks, i1, TokenTag::Assignment);
        if as_r is Ok {
            lemma_expression_bounds(toks, i2);
            let (e_r, i3) = spec_expression(toks, i2);
            if e_r is Ok {
                let (semi_r, i4) = spec_match_token(toks, i3, TokenTag::SemiColon);
            }
        }
    }
}

/// Recovery never moves the cursor backwards or past the end, and always
/// consumes at least one token when one is available.
pub proof fn lemma_pop_until_bounds(toks: Seq<TokenView>, i: int, tag: TokenTag)
    requires
        0 <= i <= toks.len(),
    ensures
        i <= spec_pop_until(toks, i, tag).1 <= toks.len(),
        i < toks.len() ==> spec_pop_until(toks, i, tag).1 >= i + 1,
    decreases toks.len() - i,
{
    if 0 <= i < toks.len() && toks[i].tag != tag {
        lemma_pop_until_bounds(toks, i + 1, tag);
    }
}

/// The outcome of a whole parsing pass from cursor `i`: the statements
/// parsed, the errors collected (with statement-boundary recovery after each
/// error), and the final cursor.
pub open spec fn spec_parse(toks: Seq<TokenView>, i: int) -> (Seq<StatementView>, Seq<ParserErrorView>, int)
    decreases toks.len() - i,
    via spec_parse_decreases
{
    if !(0 <= i < toks.len()) {
        (Seq::empty(), Seq::empty(), i)
    } else {
        let (st_r, i1) = spec_statement(toks, i);
        match st_r {
            Ok(st) => {
                let rest = spec_parse(toks, i1);
                (seq![st] + rest.0, rest.1, rest.2)
            },
            Err(e) => {
                let (rec_e, i2) = spec_pop_until(toks, i1, TokenTag::SemiColon);
                let rest = spec_parse(toks, i2);
                match rec_e {
                    None => (rest.0, seq![e] + rest.1, rest.2),
                    Some(e2) => (rest.0, seq![e, e2] + rest.1, rest.2),
                }
            },
        }
    }
}

#[via_fn]
proof fn spec_parse_decreases(toks: Seq<TokenView>, i: int) {
    if 0 <= i < toks.len() {
        lemma_statement_bounds(toks, i);
        let (st_r, i1) = spec_statement(toks, i);
        if st_r is Err {
            lemma_pop_until_bounds(toks, i1, TokenTag::SemiColon);
        }
    }
}

impl MeansParser {
    /// The `value` rule, per `spec_value`.
    pub fn value(&mut self) -> (r: Result<Value, ParserError>)
        requires
            old(self).wf(),
        ensures
            final(self).wf(),
            final(self).spec_tokens() == old(self).spec_tokens(),
            ({
                let (sr, si) = spec_value(old(self).spec_tokens(), old(self).spec_pos());
                &&& final(self).spec_pos() == si
                &&& match (r, sr) {
                    (Ok(v), Ok(sv)) => v.deep_view() == sv,
                    (Err(e), Err(se)) => e@ == se,
                    _ => false,
                }
            }),
    {
        if self.la1(TokenTag::Float) {
            let t = match self.match_token(TokenTag::Float) {
                Ok(t) => t,
                Err(e) => {
                    return Err(e);
                },
            };
            match decimal_to_bits_exec(t.text.as_str()) {
                Some(b) => Ok(Value::Float(b)),
                None => Err(ParserError::UnexpectedToken {
                    expected: tag_name(TokenTag::Number),
                    found: t,
                }),
            }
        } else if self.la1(TokenTag::Integer) {
            let t = match self.match_token(TokenTag::Integer) {
                Ok(t) => t,
                Err(e) => {
                    return Err(e);
                },
            };
            match parse_i32(t.text.as_str()) {
                Some(v) => Ok(Value::Integer(v)),
                None => Err(ParserError::UnexpectedToken {
                    expected: tag_name(TokenTag::Number),
                    found: t,
                }),
            }
        } else if self.la1(TokenTag::Identifier) {
            let t = match self.match_token(TokenTag::Identifier) {
                Ok(t) => t,
                Err(e) => {
                    return Err(e);
                },
            };
            Ok(Value::Variable(t.text))
        } else if self.pos < self.tokens.len() {
            let t = self.tokens[self.pos].duplicate();
            Err(ParserError::UnexpectedToken { expected: tag_name(TokenTag::Number), found: t })
        } else {
            Err(ParserError::UnexpectedEndOfInput)
        }
    }

    /// The `identifier` rule, per `spec_identifier`.
    pub fn identifier(&mut self) -> (r: Result<String, ParserError>)
        requires
            old(self).wf(),
        ensures
            final(self).wf(),
            final(self).spec_tokens() == old(self).spec_tokens(),
            ({
                let (sr, si) = spec_identifier(old(self).spec_tokens(), old(self).spec_pos());
                &&& final(self).spec_pos() == si
                &&& match (r, sr) {
                    (Ok(id), Ok(sid)) => id@ == sid,
                    (Err(e), Err(se)) => e@ == se,
                    _ => false,
                }
            }),
    {
        match self.match_token(TokenTag::Identifier) {
            Ok(t) => Ok(t.text),
            Err(e) => Err(e),
        }
    }

    /// The `expression` rule, per `spec_expression`.
    pub fn expression(&mut self) -> (r: Result<Expression, ParserError>)
        requires
            old(self).wf(),
        ensures
            final(self).wf(),
            final(self).spec_tokens() == old(self).spec_tokens(),
            ({
                let (sr, si) = spec_expression(old(self).spec_tokens(), old(self).spec_pos());
                &&& final(self).spec_pos() == si
                &&& match (r, sr) {
                    (Ok(e), Ok(se)) => e.deep_view() == se,
                    (Err(e), Err(se)) => e@ == se,
                    _ => false,
                }
            }),
        decreases old(self).spec_tokens().len() - old(self).spec_pos(), 2int,
    {
        if self.la1(TokenTag::OpenParen) {
            let open = match self.match_token(TokenTag::OpenParen) {
                Ok(t) => t,
                Err(e) => {
                    return Err(e);
                },
            };
            let expr = match self.expression() {
                Ok(e) => e,
                Err(e) => {
                    return Err(e);
                },
            };
            match self.match_token(TokenTag::CloseParen) {
                Ok(_) => Ok(expr),
                Err(e) => Err(e),
            }
        } else if self.la1(TokenTag::Operator) {
            self.unary_operator()
        } else {
            let val = match self.value() {
                Ok(v) => v,
                Err(e) => {
                    return Err(e);
                },
            };
            if self.la1(TokenTag::Operator) {
                self.binary_operator(Expression::EVal(val))
            } else {
                Ok(Expression::EVal(val))
            }
        }
    }

    /// The unary-operator rule, per `spec_unary_operator`.
    pub fn unary_operator(&mut self) -> (r: Result<Expression, ParserError>)
        requires
            old(self).wf(),
        ensures
            final(self).wf(),
            final(self).spec_tokens() == old(self).spec_tokens(),
            ({
                let (sr, si) = spec_unary_operator(old(self).spec_tokens(), old(self).spec_pos());
                &&& final(self).spec_pos() == si
                &&& match (r, sr) {
                    (Ok(e), Ok(se)) => e.deep_view() == se,
                    (Err(e), Err(se)) => e@ == se,
                    _ => false,
                }
            }),
        decreases old(self).spec_tokens().len() - old(self).spec_pos(), 1int,
    {
        let op_token = match self.match_token(TokenTag::Operator) {
            Ok(t) => t,
            Err(e) => {
                return Err(e);
            },
        };
        let op = match UnaryOperator::from_str(&op_token) {
            Ok(op) => op,
            Err(e) => {
                return Err(e);
            },
        };
        let expr = match self.expression() {
            Ok(e) => e,
            Err(e) => {
                return Err(e);
            },
        };
        Ok(Expression::UnaryOp { op, expr: Box::new(expr) })
    }

    /// The binary-operator rule, per `spec_binary_operator`.
    pub fn binary_operator(&mut self, left: Expression) -> (r: Result<Expression, ParserError>)
        requires
            old(self).wf(),
        ensures
            final(self).wf(),
            final(self).spec_tokens() == old(self).spec_tokens(),
            ({
                let (sr, si) = spec_binary_operator(
                    old(self).spec_tokens(),
                    old(self).spec_pos(),
                    left.deep_view(),
                );
                &&& final(self).spec_pos() == si
                &&& match (r, sr) {
                    (Ok(e), Ok(se)) => e.deep_view() == se,
                    (Err(e), Err(se)) => e@ == se,
                    _ => false,
                }
            }),
        decreases old(self).spec_tokens().len() - old(self).spec_pos(), 1int,
    {
        let op_token = match self.match_token(TokenTag::Operator) {
            Ok(t) => t,
            Err(e) => {
                return Err(e);
            },
        };
        let op = match BinaryOperator::from_str(&op_token) {
            Ok(op) => op,
            Err(e) => {
                return Err(e);
            },
        };
        let right = match self.expression() {
            Ok(e) => e,
            Err(e) => {
                return Err(e);
            },
        };
        Ok(Expression::BinaryOp { op, left: Box::new(left), right: Box::new(right) })
    }

    /// The `statement` rule, per `spec_statement`.
    pub fn statement(&mut self) -> (r: Result<Statement, ParserError>)
        requires
            old(self).wf(),
        ensures
            final(self).wf(),
            final(self).spec_tokens() == old(self).spec_tokens(),
            ({
                let (sr, si) = spec_statement(old(self).spec_tokens(), old(self).spec_pos());
                &&& final(self).spec_pos() == si
                &&& match (r, sr) {
                    (Ok(st), Ok(sst)) => st.deep_view() == sst,
                    (Err(e), Err(se)) => e@ == se,
                    _ => false,
                }
            }),
    {
        let id = match self.identifier() {
            Ok(id) => id,
            Err(e) => {
                return Err(e);
            },
        };
        match self.match_token(TokenTag::Assignment) {
            Ok(_) => (),
            Err(e) => {
                return Err(e);
            },
        };
        let expr = match self.expression() {
            Ok(e) => e,
            Err(e) => {
                return Err(e);
            },
        };
        match self.match_token(TokenTag::SemiColon) {
            Ok(_) => (),
            Err(e) => {
                return Err(e);
            },
        };
        Ok(Statement::Assignment { id, expr })
    }

    /// Panic-mode recovery, per `spec_pop_until`.
    pub fn pop_until(&mut self, tag: TokenTag) -> (r: Result<(), ParserError>)
        requires
            old(self).wf(),
        ensures
            final(self).wf(),
            final(self).spec_tokens() == old(self).spec_tokens(),
            ({
                let (se, si) = spec_pop_until(old(self).spec_tokens(), old(self).spec_pos(), tag);
                &&& final(self).spec_pos() == si
                &&& match (r, se) {
                    (Ok(_), None) => true,
                    (Err(e), Some(serr)) => e@ == serr,
                    _ => false,
                }
            }),
    {
        loop
            invariant
                self.wf(),
                self.spec_tokens() == old(self).spec_tokens(),
                spec_pop_until(self.spec_tokens(), self.spec_pos(), tag) == spec_pop_until(
                    old(self).spec_tokens(),
                    old(self).spec_pos(),
                    tag,
                ),
            decreases self.spec_tokens().len() - self.spec_pos(),
        {
            if self.pos == self.tokens.len() {
                return Err(ParserError::UnexpectedEndOfInput);
            }
            let found = self.la1(tag);
            self.pos = self.pos + 1;
            if found {
                return Ok(());
            }
        }
    }

    /// A whole parsing pass, per `spec_parse`: parses statements until the
    /// input is exhausted, recovering past the next semicolon after each
    /// error.  Succeeds with the program exactly when no error was
    /// collected; fails with all collected errors otherwise.
    pub fn parse(&mut self) -> (r: Result<Program, Vec<ParserError>>)
        requires
            old(self).wf(),
        ensures
            final(self).wf(),
            final(self).spec_tokens() == old(self).spec_tokens(),
            ({
                let (stmts, errs, fin) = spec_parse(old(self).spec_tokens(), old(self).spec_pos());
                &&& final(self).spec_pos() == fin
                &&& match r {
                    Ok(p) => errs.len() == 0 && p.deep_view() == stmts,
                    Err(es) => errs.len() > 0 && es.deep_view() == errs,
                }
            }),
    {
        let ghost toks = self.spec_tokens();
        let ghost pos0 = self.spec_pos();
        let ghost whole = spec_parse(toks, pos0);
        let mut statements: Vec<Statement> = Vec::new();
        let mut errors: Vec<ParserError> = Vec::new();
        proof {
            assert(statements.deep_view() =~= Seq::<StatementView>::empty());
            assert(errors.deep_view() =~= Seq::<ParserErrorView>::empty());
        }
        while !(self.pos == self.tokens.len())
            invariant
                self.wf(),
                self.spec_tokens() == toks,
                whole == spec_parse(toks, pos0),
                ({
                    let rest = spec_parse(toks, self.spec_pos());
                    &&& whole.0 == statements.deep_view() + rest.0
                    &&& whole.1 == errors.deep_view() + rest.1
                    &&& whole.2 == rest.2
                }),
            decreases self.spec_tokens().len() - self.spec_pos(),
        {
            let ghost cur = self.spec_pos();
            let ghost rest0 = spec_parse(toks, cur);
            proof {
                lemma_statement_bounds(toks, cur);
            }
            match self.statement() {
                Ok(stmt) => {
                    let ghost pre = statements.deep_view();
                    statements.push(stmt);
                    proof {
                        let (st_r, i1) = spec_statement(toks, cur);
                        assert(statements.deep_view() =~= pre.push(st_r->Ok_0));
                        let rest1 = spec_parse(toks, self.spec_pos());
                        assert(rest0.0 == seq![st_r->Ok_0] + rest1.0);
                        assert(whole.0 =~= statements.deep_view() + rest1.0);
                    }
                },
                Err(e) => {
                    let ghost pre = errors.deep_view();
                    let ghost e_v = e@;
                    errors.push(e);
                    proof {
                        assert(errors.deep_view() =~= pre.push(e_v));
                        lemma_pop_until_bounds(toks, self.spec_pos(), TokenTag::SemiColon);
                    }
                    match self.pop_until(TokenTag::SemiColon) {
                        Ok(_) => {
                            proof {
                                let rest1 = spec_parse(toks, self.spec_pos());
                                assert(rest0.1 == seq![e_v] + rest1.1);
                                assert(whole.1 =~= errors.deep_view() + rest1.1);
                            }
                        },
                        Err(e2) => {
                            let ghost pre2 = errors.deep_view();
                            let ghost e2_v = e2@;
                            errors.push(e2);
                            proof {
                                assert(errors.deep_view() =~= pre2.push(e2_v));
                                let rest1 = spec_parse(toks, self.spec_pos());
                                assert(rest0.1 == seq![e_v, e2_v] + rest1.1);
                                assert(whole.1 =~= errors.deep_view() + rest1.1);
                            }
                        },
                    }
                },
            }
        }
        proof {
            let rest = spec_parse(toks, self.spec_pos());
            assert(rest.0 =~= Seq::<StatementView>::empty());
            assert(rest.1 =~= Seq::<ParserErrorView>::empty());
            assert(whole.0 =~= statements.deep_view());
            assert(whole.1 =~= errors.deep_view());
        }
        if errors.len() > 0 {
            Err(errors)
        } else {
            Ok(Program { statements })
        }
    }
}


} // verus!
