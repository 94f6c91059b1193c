//! Classified, positioned fragments of source text.

use vstd::prelude::*;

verus! {

/// The classification of a token.  `WhiteSpace` is matched but skipped by
/// the lexer; `End` and `Number` never label an emitted token — `Number` is
/// the class the parser names when it expects any value-starting token.
#[derive(Clone, Copy, Debug, PartialEq, Eq, Structural)]
pub enum TokenTag {
    End,
    WhiteSpace,
    OpenParen,
    CloseParen,
    OpenBrace,
    CloseBrace,
    OpenBracket,
    CloseBracket,
    SemiColon,
    Comma,
    Assignment,
    Operator,
    Float,
    Integer,
    Number,
    Identifier,
}

/// The mathematical image of a token: its tag, text and 1-based position.
pub struct TokenView {
    pub tag: TokenTag,
    pub text: Seq<char>,
    pub line: int,
    pub column: int,
}

/// A token: a tagged fragment of the source text together with the line and
/// column (both 1-based) at which it starts.
#[derive(Clone, Debug)]
pub struct Token {
    pub tag: TokenTag,
    pub text: String,
    pub line: u64,
    pub column: u64,
}

impl Token {
    /// A copy whose view Verus can relate to the original (the derived
    /// `Clone` carries no such guarantee).
    pub fn duplicate(&self) -> (r: Token)
        ensures
            r@ == self@,
    {
        Token { tag: self.tag, text: self.text.clone(), line: self.line, column: self.column }
    }
}

impl View for Token {
    type V = TokenView;

    open spec fn view(&self) -> TokenView {
        TokenView {
            tag: self.tag,
            text: self.text@,
            line: self.line as int,
            column: self.column as int,
        }
    }
}

impl DeepView for Token {
    type V = TokenView;

    open spec fn deep_view(&self) -> TokenView {
        self.view()
    }
}

/// The mathematical image of a lexer diagnostic: the code point of the
/// unrecognised character, and the position at which it stood.
pub struct DiagnosticView {
    pub ch: int,
    pub line: int,
    pub column: int,
}

/// A lexer diagnostic: a character no matcher recognised, with the position
/// at which it stood.  The lexer skips it and carries on.
#[derive(Clone, Copy, Debug, PartialEq, Eq, Structural)]
pub struct Diagnostic {
    pub ch: char,
    pub line: u64,
    pub column: u64,
}

impl View for Diagnostic {
    type V = DiagnosticView;

    open spec fn view(&self) -> DiagnosticView {
        DiagnosticView { ch: self.ch as int, line: self.line as int, column: self.column as int }
    }
}

impl DeepView for Diagnostic {
    type V = DiagnosticView;

    open spec fn deep_view(&self) -> DiagnosticView {
        self.view()
    }
}

/// The name of a tag, as the parser writes it when naming what it expected.
pub open spec fn spec_tag_name(tag: TokenTag) -> Seq<char> {
    match tag {
        TokenTag::End => "End"@,
        TokenTag::WhiteSpace => "WhiteSpace"@,
        TokenTag::OpenParen => "OpenParen"@,
        TokenTag::CloseParen => "CloseParen"@,
        TokenTag::OpenBrace => "OpenBrace"@,
        TokenTag::CloseBrace => "CloseBrace"@,
        TokenTag::OpenBracket => "OpenBracket"@,
        TokenTag::CloseBracket => "CloseBracket"@,
        TokenTag::SemiColon => "SemiColon"@,
        TokenTag::Comma => "Comma"@,
        TokenTag::Assignment => "Assignment"@,
        TokenTag::Operator => "Operator"@,
        TokenTag::Float => "Float"@,
        TokenTag::Integer => "Integer"@,
        TokenTag::Number => "Number"@,
        TokenTag::Identifier => "Identifier"@,
    }
}

pub fn tag_name(tag: TokenTag) -> (r: String)
    ensures
        r@ == spec_tag_name(tag),
{
    match tag {
        TokenTag::End => "End".to_owned(),
        TokenTag::WhiteSpace => "WhiteSpace".to_owned(),
        TokenTag::OpenParen => "OpenParen".to_owned(),
        TokenTag::CloseParen => "CloseParen".to_owned(),
        TokenTag::CloseBrace => "CloseBrace".to_owned(),
        TokenTag::OpenBrace => "OpenBrace".to_owned(),
        TokenTag::OpenBracket => "OpenBracket".to_owned(),
        TokenTag::CloseBracket => "CloseBracket".to_owned(),
        TokenTag::SemiColon => "SemiColon".to_owned(),
        TokenTag::Comma => "Comma".to_owned(),
        TokenTag::Assignment => "Assignment".to_owned(),
        TokenTag::Operator => "Operator".to_owned(),
        TokenTag::Float => "Float".to_owned(),
        TokenTag::Integer => "Integer".to_owned(),
        TokenTag::Number => "Number".to_owned(),
        TokenTag::Identifier => "Identifier".to_owned(),
    }
}

} // verus!
