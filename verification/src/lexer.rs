//! Pattern-driven lexical analysis.
//!
//! At each offset the lexer tries a fixed, ordered list of matchers and the
//! first that matches wins: whitespace (skipped), the single-character
//! punctuation tokens, the single-character operators, numeric literals (a
//! digit run with a mandatory fractional part is a `Float`, a bare digit run
//! an `Integer`), and identifiers (a letter followed by letters and digits).
//! A character no matcher recognises is reported as a diagnostic — returned
//! as data, never printed — and skipped, so lexing always runs to the end of
//! the input.

use vstd::prelude::*;
use crate::position::lemma_advance_bounds;
use crate::position::spec_advance;
use crate::position::PositionTracker;
use crate::tokens::Diagnostic;
use crate::tokens::DiagnosticView;
use crate::tokens::Token;
use crate::tokens::TokenTag;
use crate::tokens::TokenView;

verus! {

pub open spec fn is_space_char(c: char) -> bool {
    c == ' ' || c == '\t' || c == '\n' || c == '\u{000B}' || c == '\u{000C}' || c == '\r'
}

pub open spec fn is_digit_char(c: char) -> bool {
    '0' <= c && c <= '9'
}

pub open spec fn is_alpha_char(c: char) -> bool {
    ('a' <= c && c <= 'z') || ('A' <= c && c <= 'Z')
}

pub open spec fn is_alnum_char(c: char) -> bool {
    is_alpha_char(c) || is_digit_char(c)
}

pub open spec fn is_operator_char(c: char) -> bool {
    c == '+' || c == '-' || c == '*' || c == '/' || c == '%'
}

/// The tag of the single-character punctuation token `c` spells, if any.
pub open spec fn punct_tag(c: char) -> Option<TokenTag> {
    if c == '(' {
        Some(TokenTag::OpenParen)
    } else if c == ')' {
        Some(TokenTag::CloseParen)
    } else if c == '{' {
        Some(TokenTag::OpenBrace)
    } else if c == '}' {
        Some(TokenTag::CloseBrace)
    } else if c == '[' {
        Some(TokenTag::OpenBracket)
    } else if c == ']' {
        Some(TokenTag::CloseBracket)
    } else if c == ';' {
        Some(TokenTag::SemiColon)
    } else if c == '=' {
        Some(TokenTag::Assignment)
    } else if c == ',' {
        Some(TokenTag::Comma)
    } else {
        None
    }
}

pub fn is_space_char_exec(c: char) -> (r: bool)
    ensures
        r == is_space_char(c),
{
    c == ' ' || c == '\t' || c == '\n' || c == '\u{000B}' || c == '\u{000C}' || c == '\r'
}

pub fn is_digit_char_exec(c: char) -> (r: bool)
    ensures
        r == is_digit_char(c),
{
    '0' <= c && c <= '9'
}

pub fn is_alpha_char_exec(c: char) -> (r: bool)
    ensures
        r == is_alpha_char(c),
{
    ('a' <= c && c <= 'z') || ('A' <= c && c <= 'Z')
}

pub fn is_alnum_char_exec(c: char) -> (r: bool)
    ensures
        r == is_alnum_char(c),
{
    is_alpha_char_exec(c) || is_digit_char_exec(c)
}

pub fn is_operator_char_exec(c: char) -> (r: bool)
    ensures
        r == is_operator_char(c),
{
    c == '+' || c == '-' || c == '*' || c == '/' || c == '%'
}

pub fn punct_tag_exec(c: char) -> (r: Option<TokenTag>)
    ensures
        r == punct_tag(c),
{
    if c == '(' {
        Some(TokenTag::OpenParen)
    } else if c == ')' {
        Some(TokenTag::CloseParen)
    } else if c == '{' {
        Some(TokenTag::OpenBrace)
    } else if c == '}' {
        Some(TokenTag::CloseBrace)
    } else if c == '[' {
        Some(TokenTag::OpenBracket)
    } else if c == ']' {
        Some(TokenTag::CloseBracket)
    } else if c == ';' {
        Some(TokenTag::SemiColon)
    } else if c == '=' {
        Some(TokenTag::Assignment)
    } else if c == ',' {
        Some(TokenTag::Comma)
    } else {
        None
    }
}

/// The length of the maximal run of characters satisfying `pred` that starts
/// at offset `i` of `s`.
pub open spec fn run_len(s: Seq<char>, i: int, pred: spec_fn(char) -> bool) -> nat
    decreases s.len() - i,
{
    if i < 0 || i >= s.len() || !pred(s[i]) {
        0
    } else {
        1 + run_len(s, i + 1, pred)
    }
}

pub open spec fn space_pred() -> spec_fn(char) -> bool {
    |c: char| is_space_char(c)
}

pub open spec fn digit_pred() -> spec_fn(char) -> bool {
    |c: char| is_digit_char(c)
}

pub open spec fn alnum_pred() -> spec_fn(char) -> bool {
    |c: char| is_alnum_char(c)
}

/// A run starting within the sequence ends within it.
pub proof fn lemma_run_len_bound(s: Seq<char>, i: int, pred: spec_fn(char) -> bool)
    requires
        0 <= i <= s.len(),
    ensures
        i + run_len(s, i, pred) <= s.len(),
    decreases s.len() - i,
{
    if i < s.len() && pred(s[i]) {
        lemma_run_len_bound(s, i + 1, pred);
    }
}

/// Every character of a run satisfies the run's predicate, and the run is
/// maximal: the character right after it (if any) does not.
pub proof fn lemma_run_len_chars(s: Seq<char>, i: int, pred: spec_fn(char) -> bool)
    requires
        0 <= i <= s.len(),
    ensures
        forall|k: int| i <= k < i + run_len(s, i, pred) ==> pred(s[k]),
        i + run_len(s, i, pred) < s.len() ==> !pred(s[i + run_len(s, i, pred)]),
    decreases s.len() - i,
{
    if i < s.len() && pred(s[i]) {
        lemma_run_len_chars(s, i + 1, pred);
    }
}

/// How the lexer treats the text matched at an offset: skip it, emit a token
/// with the given tag, or report it (one character) as unrecognised.
#[derive(Clone, Copy, Debug, PartialEq, Eq, Structural)]
pub enum LexClass {
    Skip,
    Emit(TokenTag),
    NoMatch,
}

/// Which matcher wins at offset `i` of `s` (meaningful for 0 <= i < s.len()).
pub open spec fn lex_class(s: Seq<char>, i: int) -> LexClass {
    let c = s[i];
    if is_space_char(c) {
        LexClass::Skip
    } else if punct_tag(c) is Some {
        LexClass::Emit(punct_tag(c)->Some_0)
    } else if is_operator_char(c) {
        LexClass::Emit(TokenTag::Operator)
    } else if is_digit_char(c) {
        if float_follows(s, i) {
            LexClass::Emit(TokenTag::Float)
        } else {
            LexClass::Emit(TokenTag::Integer)
        }
    } else if is_alpha_char(c) {
        LexClass::Emit(TokenTag::Identifier)
    } else {
        LexClass::NoMatch
    }
}

/// Whether the digit run starting at `i` continues as a float literal: a
/// decimal point directly after the run, itself followed by a digit.
pub open spec fn float_follows(s: Seq<char>, i: int) -> bool {
    let d1 = run_len(s, i, digit_pred());
    &&& i + d1 < s.len()
    &&& s[i + d1] == '.'
    &&& i + d1 + 1 < s.len()
    &&& is_digit_char(s[i + d1 + 1])
}

/// The number of characters the winning matcher at offset `i` consumes
/// (meaningful for 0 <= i < s.len(); always at least 1 there).
pub open spec fn lex_token_len(s: Seq<char>, i: int) -> nat {
    let c = s[i];
    if is_space_char(c) {
        run_len(s, i, space_pred())
    } else if punct_tag(c) is Some {
        1
    } else if is_operator_char(c) {
        1
    } else if is_digit_char(c) {
        let d1 = run_len(s, i, digit_pred());
        if float_follows(s, i) {
            (d1 + 1 + run_len(s, i + d1 + 1, digit_pred())) as nat
        } else {
            d1
        }
    } else if is_alpha_char(c) {
        (1 + run_len(s, i + 1, alnum_pred())) as nat
    } else {
        1
    }
}

/// The winning match consumes at least one character and no more than the
/// rest of the input.
pub proof fn lemma_lex_token_len_bounds(s: Seq<char>, i: int)
    requires
        0 <= i < s.len(),
    ensures
        1 <= lex_token_len(s, i),
        i + lex_token_len(s, i) <= s.len(),
{
    let c = s[i];
    if is_space_char(c) {
        assert(run_len(s, i, space_pred()) >= 1);
        lemma_run_len_bound(s, i, space_pred());
    } else if is_digit_char(c) {
        let d1 = run_len(s, i, digit_pred());
        assert(d1 >= 1);
        lemma_run_len_bound(s, i, digit_pred());
        if float_follows(s, i) {
            lemma_run_len_bound(s, i + d1 + 1, digit_pred());
        }
    } else if is_alpha_char(c) && punct_tag(c) is None && !is_operator_char(c) {
        lemma_run_len_bound(s, i + 1, alnum_pred());
    }
}

/// Everything lexing an input yields: the emitted tokens and the
/// diagnostics, each in input order.
pub struct LexOutput {
    pub tokens: Seq<TokenView>,
    pub diags: Seq<DiagnosticView>,
}

/// Lexes `s` from offset `i` at position `(line, column)`: repeatedly take
/// the first matcher that matches, emit a token unless the matcher skips,
/// and report and skip one character where none matches.
pub open spec fn spec_lex(s: Seq<char>, i: int, line: int, column: int) -> LexOutput
    decreases s.len() - i,
    via spec_lex_decreases
{
    if i < 0 || i >= s.len() {
        LexOutput { tokens: Seq::empty(), diags: Seq::empty() }
    } else {
        let len = lex_token_len(s, i);
        let text = s.subrange(i, i + len);
        let pos2 = spec_advance(line, column, text);
        let rest = spec_lex(s, i + len, pos2.0, pos2.1);
        match lex_class(s, i) {
            LexClass::Skip => rest,
            LexClass::Emit(tag) => LexOutput {
                tokens: seq![TokenView { tag, text, line, column }] + rest.tokens,
                diags: rest.diags,
            },
            LexClass::NoMatch => LexOutput {
                tokens: rest.tokens,
                diags: seq![DiagnosticView { ch: s[i] as int, line, column }] + rest.diags,
            },
        }
    }
}

#[via_fn]
proof fn spec_lex_decreases(s: Seq<char>, i: int, line: int, column: int) {
    if 0 <= i < s.len() {
        lemma_lex_token_len_bounds(s, i);
    }
}

pub fn space_run_exec(input: &str, i: usize) -> (r: usize)
    requires
        i <= input@.len(),
    ensures
        r == run_len(input@, i as int, space_pred()),
        i + r <= input@.len(),
{
    let ghost s = input@;
    let n = input.unicode_len();
    let mut j: usize = i;
    while j < n && is_space_char_exec(input.get_char(j))
        invariant
            s == input@,
            n == s.len(),
            i <= j <= n,
            run_len(s, i as int, space_pred()) == (j - i) + run_len(s, j as int, space_pred()),
        decreases n - j,
    {
        j = j + 1;
    }
    proof {
        assert(run_len(s, j as int, space_pred()) == 0);
    }
    j - i
}

pub fn digit_run_exec(input: &str, i: usize) -> (r: usize)
    requires
        i <= input@.len(),
    ensures
        r == run_len(input@, i as int, digit_pred()),
        i + r <= input@.len(),
{
    let ghost s = input@;
    let n = input.unicode_len();
    let mut j: usize = i;
    while j < n && is_digit_char_exec(input.get_char(j))
        invariant
            s == input@,
            n == s.len(),
            i <= j <= n,
            run_len(s, i as int, digit_pred()) == (j - i) + run_len(s, j as int, digit_pred()),
        decreases n - j,
    {
        j = j + 1;
    }
    proof {
        assert(run_len(s, j as int, digit_pred()) == 0);
    }
    j - i
}

pub fn alnum_run_exec(input: &str, i: usize) -> (r: usize)
    requires
        i <= input@.len(),
    ensures
        r == run_len(input@, i as int, alnum_pred()),
        i + r <= input@.len(),
{
    let ghost s = input@;
    let n = input.unicode_len();
    let mut j: usize = i;
    while j < n && is_alnum_char_exec(input.get_char(j))
        invariant
            s == input@,
            n == s.len(),
            i <= j <= n,
            run_len(s, i as int, alnum_pred()) == (j - i) + run_len(s, j as int, alnum_pred()),
        decreases n - j,
    {
        j = j + 1;
    }
    proof {
        assert(run_len(s, j as int, alnum_pred()) == 0);
    }
    j - i
}

/// The winning matcher and its match length at offset `i`.
fn lex_step_exec(input: &str, i: usize) -> (r: (LexClass, usize))
    requires
        i < input@.len(),
    ensures
        r.0 == lex_class(input@, i as int),
        r.1 == lex_token_len(input@, i as int),
        1 <= r.1,
        i + r.1 <= input@.len(),
{
    proof {
        lemma_lex_token_len_bounds(input@, i as int);
    }
    let n = input.unicode_len();
    let c = input.get_char(i);
    if is_space_char_exec(c) {
        (LexClass::Skip, space_run_exec(input, i))
    } else {
        match punct_tag_exec(c) {
            Some(tag) => (LexClass::Emit(tag), 1),
            None => {
                if is_operator_char_exec(c) {
                    (LexClass::Emit(TokenTag::Operator), 1)
                } else if is_digit_char_exec(c) {
                    let d1 = digit_run_exec(input, i);
                    if i + d1 < n && input.get_char(i + d1) == '.' && i + d1 + 1 < n
                        && is_digit_char_exec(input.get_char(i + d1 + 1)) {
                        let d2 = digit_run_exec(input, i + d1 + 1);
                        (LexClass::Emit(TokenTag::Float), d1 + 1 + d2)
                    } else {
                        (LexClass::Emit(TokenTag::Integer), d1)
                    }
                } else if is_alpha_char_exec(c) {
                    let rest = alnum_run_exec(input, i + 1);
                    (LexClass::Emit(TokenTag::Identifier), 1 + rest)
                } else {
                    (LexClass::NoMatch, 1)
                }
            },
        }
    }
}

/// The lexer.  Its matcher list is fixed (a closed dispatch, not a table of
/// matcher objects), so the struct itself carries no state.
pub struct MeansLexer {}

impl MeansLexer {
    pub fn create() -> (r: MeansLexer) {
        MeansLexer {}
    }

    /// Lexes the whole input, per `spec_lex`, starting at line 1, column 1.
    /// Returns the tokens and the diagnostics, each in input order.
    pub fn tokenise(&self, input: &str) -> (r: (Vec<Token>, Vec<Diagnostic>))
        requires
            input@.len() < u64::MAX,
        ensures
            r.0.deep_view() == spec_lex(input@, 0, 1, 1).tokens,
            r.1.deep_view() == spec_lex(input@, 0, 1, 1).diags,
    {
        let ghost s = input@;
        let ghost whole = spec_lex(s, 0, 1, 1);
        let n = input.unicode_len();
        let mut i: usize = 0;
        let mut tracker = PositionTracker::new();
        let mut tokens: Vec<Token> = Vec::new();
        let mut diags: Vec<Diagnostic> = Vec::new();
        proof {
            assert(tokens.deep_view() =~= Seq::<TokenView>::empty());
            assert(diags.deep_view() =~= Seq::<DiagnosticView>::empty());
        }
        while i < n
            invariant
                s == input@,
                n == s.len(),
                n < u64::MAX,
                i <= n,
                tracker.line >= 1,
                tracker.character >= 1,
                tracker.line as int <= 1 + i,
                tracker.character as int <= 1 + i,
                whole == spec_lex(s, 0, 1, 1),
                whole.tokens == tokens.deep_view() + spec_lex(
                    s,
                    i as int,
                    tracker.line as int,
                    tracker.character as int,
                ).tokens,
                whole.diags == diags.deep_view() + spec_lex(
                    s,
                    i as int,
                    tracker.line as int,
                    tracker.character as int,
                ).diags,
            decreases n - i,
        {
            let ghost line0 = tracker.line as int;
            let ghost col0 = tracker.character as int;
            let ghost rest0 = spec_lex(s, i as int, line0, col0);
            let c = input.get_char(i);
            let (cls, len) = lex_step_exec(input, i);
            let text = input.substring_char(i, i + len);
            let ghost textv = s.subrange(i as int, i as int + len);
            let ghost pos2 = spec_advance(line0, col0, textv);
            let ghost rest1 = spec_lex(s, i as int + len, pos2.0, pos2.1);
            match cls {
                LexClass::Skip => {},
                LexClass::Emit(tag) => {
                    let ghost pre = tokens.deep_view();
                    tokens.push(
                        Token {
                            tag,
                            text: text.to_owned(),
                            line: tracker.line,
                            column: tracker.character,
                        },
                    );
                    proof {
                        assert(tokens.deep_view() =~= pre.push(
                            TokenView { tag, text: textv, line: line0, column: col0 },
                        ));
                    }
                },
                LexClass::NoMatch => {
                    let ghost pre = diags.deep_view();
                    diags.push(Diagnostic { ch: c, line: tracker.line, column: tracker.character });
                    proof {
                        assert(diags.deep_view() =~= pre.push(
                            DiagnosticView { ch: s[i as int] as int, line: line0, column: col0 },
                        ));
                    }
                },
            }
            proof {
                lemma_advance_bounds(line0, col0, textv);
            }
            tracker.consume(text);
            i = i + len;
            proof {
                assert(rest0.tokens == match lex_class(s, i as int - len) {
                    LexClass::Skip => rest1.tokens,
                    LexClass::Emit(tag) => seq![
                        TokenView { tag, text: textv, line: line0, column: col0 },
                    ] + rest1.tokens,
                    LexClass::NoMatch => rest1.tokens,
                });
                assert(rest0.diags == match lex_class(s, i as int - len) {
                    LexClass::Skip => rest1.diags,
                    LexClass::Emit(tag) => rest1.diags,
                    LexClass::NoMatch => seq![
                        DiagnosticView { ch: s[i as int - len] as int, line: line0, column: col0 },
                    ] + rest1.diags,
                });
                assert(whole.tokens == tokens.deep_view() + spec_lex(
                    s,
                    i as int,
                    tracker.line as int,
                    tracker.character as int,
                ).tokens);
                assert(whole.diags == diags.deep_view() + spec_lex(
                    s,
                    i as int,
                    tracker.line as int,
                    tracker.character as int,
                ).diags);
            }
        }
        proof {
            assert(spec_lex(s, n as int, tracker.line as int, tracker.character as int).tokens
                =~= Seq::<TokenView>::empty());
            assert(spec_lex(s, n as int, tracker.line as int, tracker.character as int).diags
                =~= Seq::<DiagnosticView>::empty());
            assert(tokens.deep_view() =~= whole.tokens);
            assert(diags.deep_view() =~= whole.diags);
        }
        (tokens, diags)
    }
}

/// The texts of a token sequence, concatenated in order.
pub open spec fn concat_texts(ts: Seq<TokenView>) -> Seq<char>
    decreases ts.len(),
{
    if ts.len() == 0 {
        Seq::empty()
    } else {
        ts[0].text + concat_texts(ts.drop_first())
    }
}

pub open spec fn non_space_pred() -> spec_fn(char) -> bool {
    |c: char| !is_space_char(c)
}

/// The input with every whitespace character removed.
pub open spec fn non_space(s: Seq<char>) -> Seq<char> {
    s.filter(non_space_pred())
}

/// Filtering keeps a sequence none of whose characters is whitespace.
proof fn lemma_filter_keeps_all(t: Seq<char>)
    requires
        forall|k: int| 0 <= k < t.len() ==> !is_space_char(t[k]),
    ensures
        non_space(t) == t,
    decreases t.len(),
{
    reveal(Seq::filter);
    if t.len() > 0 {
        lemma_filter_keeps_all(t.drop_last());
        assert(non_space(t) =~= t);
    } else {
        assert(non_space(t) =~= t);
    }
}

/// Filtering drops a sequence of whitespace characters entirely.
proof fn lemma_filter_drops_all(t: Seq<char>)
    requires
        forall|k: int| 0 <= k < t.len() ==> is_space_char(t[k]),
    ensures
        non_space(t) == Seq::<char>::empty(),
    decreases t.len(),
{
    reveal(Seq::filter);
    if t.len() > 0 {
        lemma_filter_drops_all(t.drop_last());
    }
    assert(non_space(t) =~= Seq::<char>::empty());
}

/// No character of a matched token's text is whitespace.
proof fn lemma_token_text_non_space(s: Seq<char>, i: int)
    requires
        0 <= i < s.len(),
        lex_class(s, i) is Emit,
    ensures
        forall|k: int|
            i <= k < i + lex_token_len(s, i) ==> !is_space_char(s[k]),
{
    let c = s[i];
    lemma_lex_token_len_bounds(s, i);
    if punct_tag(c) is Some || is_operator_char(c) {
        assert(lex_token_len(s, i) == 1);
    } else if is_digit_char(c) {
        let d1 = run_len(s, i, digit_pred());
        lemma_run_len_chars(s, i, digit_pred());
        if float_follows(s, i) {
            lemma_run_len_chars(s, i + d1 + 1, digit_pred());
            assert forall|k: int|
                i <= k < i + lex_token_len(s, i) implies !is_space_char(s[k]) by {
                if k < i + d1 {
                    assert(is_digit_char(s[k]));
                } else if k == i + d1 {
                    assert(s[k] == '.');
                } else {
                    assert(is_digit_char(s[k]));
                }
            }
        } else {
            assert forall|k: int|
                i <= k < i + lex_token_len(s, i) implies !is_space_char(s[k]) by {
                assert(is_digit_char(s[k]));
            }
        }
    } else if is_alpha_char(c) {
        lemma_run_len_chars(s, i + 1, alnum_pred());
        assert forall|k: int|
            i <= k < i + lex_token_len(s, i) implies !is_space_char(s[k]) by {
            if k == i {
                assert(is_alpha_char(s[k]));
            } else {
                assert(is_alnum_char(s[k]));
            }
        }
    }
}

/// Where every piece of the input from offset `i` on is recognised by some
/// matcher (no diagnostics), the emitted tokens' texts, concatenated in
/// order, reconstruct exactly that part of the input minus the skipped
/// whitespace.
pub proof fn lemma_tokens_reconstruct(s: Seq<char>, i: int, line: int, column: int)
    requires
        0 <= i <= s.len(),
        spec_lex(s, i, line, column).diags.len() == 0,
    ensures
        concat_texts(spec_lex(s, i, line, column).tokens) == non_space(s.skip(i)),
    decreases s.len() - i,
{
    if i >= s.len() {
        assert(s.skip(i) =~= Seq::<char>::empty());
        lemma_filter_drops_all(s.skip(i));
        assert(spec_lex(s, i, line, column).tokens == Seq::<TokenView>::empty());
        assert(concat_texts(spec_lex(s, i, line, column).tokens) == non_space(s.skip(i)));
    } else {
        lemma_lex_token_len_bounds(s, i);
        let len = lex_token_len(s, i);
        let text = s.subrange(i, i + len);
        let pos2 = spec_advance(line, column, text);
        let rest = spec_lex(s, i + len, pos2.0, pos2.1);
        assert(s.skip(i) =~= text + s.skip(i + len));
        Seq::filter_distributes_over_add(text, s.skip(i + len), non_space_pred());
        match lex_class(s, i) {
            LexClass::Skip => {
                lemma_run_len_chars(s, i, space_pred());
                assert(forall|k: int| 0 <= k < text.len() ==> is_space_char(text[k]));
                lemma_filter_drops_all(text);
                lemma_tokens_reconstruct(s, i + len, pos2.0, pos2.1);
                assert(spec_lex(s, i, line, column).tokens == rest.tokens);
                assert(non_space(s.skip(i)) == non_space(text) + non_space(s.skip(i + len)));
                assert(concat_texts(spec_lex(s, i, line, column).tokens) == non_space(s.skip(i)));
            },
            LexClass::Emit(tag) => {
                lemma_token_text_non_space(s, i);
                assert(forall|k: int| 0 <= k < text.len() ==> !is_space_char(text[k]));
                lemma_filter_keeps_all(text);
                lemma_tokens_reconstruct(s, i + len, pos2.0, pos2.1);
                let tok = TokenView { tag, text, line, column };
                let ts = seq![tok] + rest.tokens;
                assert(ts.drop_first() =~= rest.tokens);
                assert(ts[0] == tok);
                assert(concat_texts(ts) == text + concat_texts(rest.tokens));
                assert(spec_lex(s, i, line, column).tokens == ts);
                assert(non_space(s.skip(i)) == non_space(text) + non_space(s.skip(i + len)));
                assert(concat_texts(spec_lex(s, i, line, column).tokens) == non_space(s.skip(i)));
            },
            LexClass::NoMatch => {
                let d = DiagnosticView { ch: s[i] as int, line, column };
                let ds = seq![d] + rest.diags;
                assert(spec_lex(s, i, line, column) == LexOutput {
                    tokens: rest.tokens,
                    diags: ds,
                });
                assert(ds.len() == 1 + rest.diags.len());
            },
        }
    }
}

} // verus!
