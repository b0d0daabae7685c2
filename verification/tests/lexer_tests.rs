use xjtu_codegen::lexer::Lexer;
use xjtu_codegen::token::{Keyword, Token};

#[test]
fn test_get_token_empty_input() {
    let mut lexer = Lexer::new("");
    assert_eq!(lexer.get_token(), Ok(Token::EOF));
}

#[test]
fn test_get_token_keywords() {
    let mut lexer = Lexer::new("int");
    assert_eq!(lexer.get_token(), Ok(Token::Keywords(Keyword::Int)));

    let mut lexer = Lexer::new("if");
    assert_eq!(lexer.get_token(), Ok(Token::Keywords(Keyword::If)));

    let mut lexer = Lexer::new("else");
    assert_eq!(lexer.get_token(), Ok(Token::Keywords(Keyword::Else)));

    let mut lexer = Lexer::new("while");
    assert_eq!(lexer.get_token(), Ok(Token::Keywords(Keyword::While)));

    let mut lexer = Lexer::new("return");
    assert_eq!(lexer.get_token(), Ok(Token::Keywords(Keyword::Return)));
}

#[test]
fn test_get_token_ident() {
    let mut lexer = Lexer::new("xjtu_compiler_2025");
    assert_eq!(lexer.get_token(), Ok(Token::Ident(String::from("xjtu_compiler_2025"))));
}

#[test]
fn test_get_token_integer() {
    let mut lexer = Lexer::new("114514");
    assert_eq!(lexer.get_token(), Ok(Token::Int(String::from("114514"))));

    let mut lexer = Lexer::new("0");
    assert_eq!(lexer.get_token(), Ok(Token::Int(String::from("0"))));
}

#[test]
fn test_get_token_operator() {
    let mut lexer = Lexer::new("+");
    assert_eq!(lexer.get_token(), Ok(Token::Plus));

    let mut lexer = Lexer::new("-");
    assert_eq!(lexer.get_token(), Ok(Token::Minus));

    let mut lexer = Lexer::new("(");
    assert_eq!(lexer.get_token(), Ok(Token::LParam));

    let mut lexer = Lexer::new(")");
    assert_eq!(lexer.get_token(), Ok(Token::RParam));

    let mut lexer = Lexer::new("=");
    assert_eq!(lexer.get_token(), Ok(Token::Assign));

    let mut lexer = Lexer::new(">");
    assert_eq!(lexer.get_token(), Ok(Token::Gt));

    let mut lexer = Lexer::new("<");
    assert_eq!(lexer.get_token(), Ok(Token::Lt));

    let mut lexer = Lexer::new("==");
    assert_eq!(lexer.get_token(), Ok(Token::Equal));
}

#[test]
fn test_get_token_boundary() {
    let mut lexer = Lexer::new(";");
    assert_eq!(lexer.get_token(), Ok(Token::Semicolon));

    let mut lexer = Lexer::new(",");
    assert_eq!(lexer.get_token(), Ok(Token::Comma));
}

#[test]
fn test_get_token_invalid() {
    let mut lexer = Lexer::new("#");
    assert_eq!(lexer.get_token(), Err(Token::Invalid('#')));
}

#[test]
fn two_character_operators() {
    let mut lexer = Lexer::new(">=");
    assert_eq!(lexer.get_token(), Ok(Token::Ge));

    let mut lexer = Lexer::new("<=");
    assert_eq!(lexer.get_token(), Ok(Token::Le));

    let mut lexer = Lexer::new("!=");
    assert_eq!(lexer.get_token(), Ok(Token::Ne));

    let mut lexer = Lexer::new("*");
    assert_eq!(lexer.get_token(), Ok(Token::Times));

    let mut lexer = Lexer::new("{");
    assert_eq!(lexer.get_token(), Ok(Token::LBrace));

    let mut lexer = Lexer::new("}");
    assert_eq!(lexer.get_token(), Ok(Token::RBrace));
}

#[test]
fn bare_exclamation_mark_is_invalid() {
    let mut lexer = Lexer::new("!");
    assert_eq!(lexer.get_token(), Err(Token::Invalid('!')));
}

#[test]
fn whitespace_only_input_lexes_to_one_end_of_input() {
    let tokens = Lexer::new(" \t\r\n  ").to_tokens().unwrap();
    assert_eq!(tokens, vec![Token::EOF]);

    let tokens = Lexer::new("").to_tokens().unwrap();
    assert_eq!(tokens, vec![Token::EOF]);
}

#[test]
fn scanning_continues_past_invalid_characters() {
    let result = Lexer::new("x # 1 $ y").to_tokens();
    assert_eq!(result, Err(vec![Token::Invalid('#'), Token::Invalid('$')]));
}

#[test]
fn every_character_is_accounted_for() {
    // Each non-whitespace character of the input shows up in exactly one
    // token's lexeme; the widths add up to the input length minus the
    // two spaces.
    let input = "abc >=12 ;";
    let tokens = Lexer::new(input).to_tokens().unwrap();
    assert_eq!(
        tokens,
        vec![
            Token::Ident(String::from("abc")),
            Token::Ge,
            Token::Int(String::from("12")),
            Token::Semicolon,
            Token::EOF,
        ]
    );
    let widths = 3 + 2 + 2 + 1;
    assert_eq!(widths + 2, input.len());
}

#[test]
fn maximal_munch_and_keyword_boundaries() {
    let tokens = Lexer::new("intx int9 int").to_tokens().unwrap();
    assert_eq!(
        tokens,
        vec![
            Token::Ident(String::from("intx")),
            Token::Ident(String::from("int9")),
            Token::Keywords(Keyword::Int),
            Token::EOF,
        ]
    );
}

#[test]
fn lex_example_program() {
    let input = "int main ( ) { int x = 1 ; if ( x > 0 ) { int y = 2 ; } return 0 ; }";
    let tokens = Lexer::new(input).to_tokens().unwrap();
    assert_eq!(
        tokens,
        vec![
            Token::Keywords(Keyword::Int),
            Token::Ident(String::from("main")),
            Token::LParam,
            Token::RParam,
            Token::LBrace,
            Token::Keywords(Keyword::Int),
            Token::Ident(String::from("x")),
            Token::Assign,
            Token::Int(String::from("1")),
            Token::Semicolon,
            Token::Keywords(Keyword::If),
            Token::LParam,
            Token::Ident(String::from("x")),
            Token::Gt,
            Token::Int(String::from("0")),
            Token::RParam,
            Token::LBrace,
            Token::Keywords(Keyword::Int),
            Token::Ident(String::from("y")),
            Token::Assign,
            Token::Int(String::from("2")),
            Token::Semicolon,
            Token::RBrace,
            Token::Keywords(Keyword::Return),
            Token::Int(String::from("0")),
            Token::Semicolon,
            Token::RBrace,
            Token::EOF,
        ]
    );
}

#[test]
fn token_ids_are_fixed_and_distinct() {
    let tokens = vec![
        Token::EOF,
        Token::Keywords(Keyword::Int),
        Token::Keywords(Keyword::If),
        Token::Keywords(Keyword::Else),
        Token::Keywords(Keyword::While),
        Token::Keywords(Keyword::Return),
        Token::Ident(String::from("a")),
        Token::Int(String::from("1")),
        Token::Plus,
        Token::Minus,
        Token::Times,
        Token::LParam,
        Token::RParam,
        Token::LBrace,
        Token::RBrace,
        Token::Equal,
        Token::Gt,
        Token::Lt,
        Token::Semicolon,
        Token::Comma,
        Token::Assign,
        Token::Ge,
        Token::Le,
        Token::Ne,
        Token::Invalid('#'),
    ];
    let expected: Vec<i32> =
        vec![0, 1, 2, 3, 4, 5, 6, 7, 8, 9, 10, 11, 12, 13, 14, 15, 16, 17, 18, 19, 20, 21, 22, 23, -1];
    let ids: Vec<i32> = tokens.iter().map(|t| t.id()).collect();
    assert_eq!(ids, expected);
    // Injective per kind: all 25 kinds got 25 distinct identifiers.
    let mut sorted = ids.clone();
    sorted.sort();
    sorted.dedup();
    assert_eq!(sorted.len(), 25);
}

#[test]
fn token_content_is_lexeme_or_placeholder() {
    assert_eq!(Token::Ident(String::from("abc")).content(), "abc");
    assert_eq!(Token::Int(String::from("042")).content(), "042");
    assert_eq!(Token::Plus.content(), "-");
    assert_eq!(Token::Keywords(Keyword::While).content(), "-");
    assert_eq!(Token::EOF.content(), "-");
}

#[test]
fn keyword_recognition_is_case_sensitive() {
    assert!(Keyword::is_keyword("int"));
    assert!(Keyword::is_keyword("if"));
    assert!(Keyword::is_keyword("else"));
    assert!(Keyword::is_keyword("while"));
    assert!(Keyword::is_keyword("return"));
    assert!(!Keyword::is_keyword("Int"));
    assert!(!Keyword::is_keyword("for"));
    assert!(!Keyword::is_keyword(""));
}
