use alang::token::Token;

#[test]
fn debug_text_matches_the_derived_debug() {
    let tokens = vec![
        Token::Illegal,
        Token::Semicolon,
        Token::LSqareBracket,
        Token::ResType,
        Token::Ident("main".to_string()),
        Token::String("say \"hi\"\n\t\\".to_string()),
        Token::Int(-42),
        Token::Int(i64::MIN),
        Token::Int(0),
        Token::Bool(true),
        Token::Bool(false),
    ];
    for t in tokens {
        assert_eq!(t.to_debug_string(), format!("{:?}", t));
    }
}

#[test]
fn debug_text_examples() {
    assert_eq!(Token::Int(7).to_debug_string(), "Int(7)");
    assert_eq!(Token::Ident("x".to_string()).to_debug_string(), "Ident(\"x\")");
    assert_eq!(Token::FunctionDef.to_debug_string(), "FunctionDef");
    // a float is written as its literal, as `{:?}` of its value prints it
    assert_eq!(Token::Float("1.25".to_string()).to_debug_string(), "Float(1.25)");
    assert_eq!(format!("{:?}", 1.25f64), "1.25");
}
