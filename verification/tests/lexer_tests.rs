use meanslang::lexer::MeansLexer;
use meanslang::tokens::TokenTag;

#[test]
fn tokenize_simple_assignment() {
    let lexer = MeansLexer::create();
    let (tokens, diags) = lexer.tokenise("x = 3;");
    assert_eq!(diags.len(), 0);
    assert_eq!(tokens.len(), 4);
    assert_eq!(tokens[0].tag, TokenTag::Identifier);
    assert_eq!(tokens[0].text, "x");
    assert_eq!((tokens[0].line, tokens[0].column), (1, 1));
    assert_eq!(tokens[1].tag, TokenTag::Assignment);
    assert_eq!(tokens[1].text, "=");
    assert_eq!((tokens[1].line, tokens[1].column), (1, 3));
    assert_eq!(tokens[2].tag, TokenTag::Integer);
    assert_eq!(tokens[2].text, "3");
    assert_eq!((tokens[2].line, tokens[2].column), (1, 5));
    assert_eq!(tokens[3].tag, TokenTag::SemiColon);
    assert_eq!(tokens[3].text, ";");
    assert_eq!((tokens[3].line, tokens[3].column), (1, 6));
}

#[test]
fn tokenize_reconstructs_non_whitespace() {
    let input = "foo = 3 + (4.5 * 2);\nbar = foo % 2;";
    let lexer = MeansLexer::create();
    let (tokens, diags) = lexer.tokenise(input);
    assert_eq!(diags.len(), 0);
    let mut reconstructed = String::new();
    for t in &tokens {
        reconstructed.push_str(&t.text);
    }
    let expected: String = input.chars().filter(|c| !c.is_whitespace()).collect();
    assert_eq!(reconstructed, expected);
}

#[test]
fn tokenize_float_and_integer() {
    let lexer = MeansLexer::create();
    let (tokens, diags) = lexer.tokenise("1.25 7 1.");
    assert_eq!(tokens.len(), 3);
    assert_eq!(tokens[0].tag, TokenTag::Float);
    assert_eq!(tokens[0].text, "1.25");
    assert_eq!(tokens[1].tag, TokenTag::Integer);
    assert_eq!(tokens[1].text, "7");
    // "1." has no digit after the dot: the digits lex as an integer and the
    // bare dot matches nothing.
    assert_eq!(tokens[2].tag, TokenTag::Integer);
    assert_eq!(tokens[2].text, "1");
    assert_eq!(diags.len(), 1);
    assert_eq!(diags[0].ch, '.');
}

#[test]
fn tokenize_reports_unrecognised() {
    let lexer = MeansLexer::create();
    let (tokens, diags) = lexer.tokenise("x = @3;");
    assert_eq!(diags.len(), 1);
    assert_eq!(diags[0].ch, '@');
    assert_eq!((diags[0].line, diags[0].column), (1, 5));
    let tags: Vec<TokenTag> = tokens.iter().map(|t| t.tag).collect();
    assert_eq!(
        tags,
        vec![TokenTag::Identifier, TokenTag::Assignment, TokenTag::Integer, TokenTag::SemiColon]
    );
}

#[test]
fn tokenize_tracks_lines() {
    let lexer = MeansLexer::create();
    let (tokens, diags) = lexer.tokenise("a\n  b");
    assert_eq!(diags.len(), 0);
    assert_eq!(tokens.len(), 2);
    assert_eq!((tokens[0].line, tokens[0].column), (1, 1));
    assert_eq!((tokens[1].line, tokens[1].column), (2, 3));
}

#[test]
fn tokenize_brackets_braces_operators() {
    let lexer = MeansLexer::create();
    let (tokens, diags) = lexer.tokenise("(){}[],;+-*/%");
    assert_eq!(diags.len(), 0);
    let tags: Vec<TokenTag> = tokens.iter().map(|t| t.tag).collect();
    assert_eq!(
        tags,
        vec![
            TokenTag::OpenParen,
            TokenTag::CloseParen,
            TokenTag::OpenBrace,
            TokenTag::CloseBrace,
            TokenTag::OpenBracket,
            TokenTag::CloseBracket,
            TokenTag::Comma,
            TokenTag::SemiColon,
            TokenTag::Operator,
            TokenTag::Operator,
            TokenTag::Operator,
            TokenTag::Operator,
            TokenTag::Operator,
        ]
    );
}

#[test]
fn tokenize_identifier_with_digits() {
    let lexer = MeansLexer::create();
    let (tokens, diags) = lexer.tokenise("ab3c 3ab");
    assert_eq!(diags.len(), 0);
    assert_eq!(tokens.len(), 3);
    assert_eq!(tokens[0].tag, TokenTag::Identifier);
    assert_eq!(tokens[0].text, "ab3c");
    // a digit starts a number, never an identifier
    assert_eq!(tokens[1].tag, TokenTag::Integer);
    assert_eq!(tokens[1].text, "3");
    assert_eq!(tokens[2].tag, TokenTag::Identifier);
    assert_eq!(tokens[2].text, "ab");
}
