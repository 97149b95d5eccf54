use alang::ast::{Expression, Import};
use alang::lexer::Lexer;
use alang::parser::Parser;
use alang::token::Token;

#[test]
fn integers_written_as_go_lex_back() {
    for n in [0i64, 5, -5, 10, 1234567890, i64::MAX, i64::MIN] {
        let mut text = String::new();
        Expression::Integer(n).fmtgo(&mut text);
        let mut l = Lexer::new(text.as_bytes());
        assert_eq!(l.unexpected_char(), None);
        assert_eq!(l.read(), Some(Token::Int(n)));
        assert_eq!(l.read(), None);
    }
}

#[test]
fn parsed_import_paths_print_back() {
    for path in ["fmt", "net/http", "a//b", "/x/", ""] {
        let toks = vec![Token::Use, Token::String(path.to_string()), Token::Semicolon];
        let mut p = Parser::from_tokens(toks);
        let imports: Vec<Import> = p.parse_imports().unwrap();
        let mut text = String::new();
        imports[0].fmtgo(&mut text);
        assert_eq!(text, format!("    \"{}\"", path));
    }
}

#[test]
fn parser_stream_is_the_lexer_reads() {
    let src = b"a := f(\"s\") 2.5 {x} -3; b;";
    let mut l = Lexer::new(src);
    let mut expected = Vec::new();
    loop {
        assert_eq!(l.unexpected_char(), None);
        match l.read() {
            Some(Token::Semicolon) => break,
            Some(t) => expected.push(t),
            None => panic!("early end"),
        }
    }
    let mut p = Parser::from_source(src);
    assert_eq!(p.statement_tokens().unwrap(), expected);
}

#[test]
fn end_of_input_is_reported_again() {
    let mut l = Lexer::new(b"x");
    assert_eq!(l.read(), Some(Token::Ident("x".to_string())));
    for _ in 0..3 {
        assert_eq!(l.unexpected_char(), None);
        assert_eq!(l.read(), None);
    }
}

#[test]
fn statements_never_parse() {
    for src in [&b""[..], &b"x"[..]] {
        let mut p = Parser::from_source(src);
        assert!(p.parse_statement().is_err());
    }
}

#[test]
fn only_whitespace_and_comments_read_nothing() {
    let mut l = Lexer::new(b"  \t// a comment\n// another");
    for _ in 0..3 {
        assert_eq!(l.unexpected_char(), None);
        assert_eq!(l.read(), None);
    }
}

#[test]
fn tokens_are_at_most_the_bytes() {
    let src = b"a;b;(c){d}12 3.5 \"s\"";
    let mut l = Lexer::new(src);
    let mut n = 0;
    loop {
        assert_eq!(l.unexpected_char(), None);
        match l.read() {
            Some(_) => n += 1,
            None => break,
        }
        assert!(n <= src.len());
    }
    assert_eq!(n, 13);
}

#[test]
fn next_and_read_agree_from_the_same_state() {
    let mut a = Lexer::new(b"fn main() {}");
    let mut b = Lexer::new(b"fn main() {}");
    let mut got = Vec::new();
    loop {
        assert_eq!(a.unexpected_char(), None);
        let x = a.next();
        let y = b.read();
        assert_eq!(x, y);
        match x {
            Some(t) => got.push(t),
            None => break,
        }
    }
    assert_eq!(
        got,
        vec![
            Token::FunctionDef,
            Token::Ident("main".to_string()),
            Token::LParen,
            Token::RParen,
            Token::LBrace,
            Token::RBrace
        ]
    );
}

#[test]
fn type_tokens_parse_back() {
    let toks = vec![
        Token::MapType,
        Token::LSqareBracket,
        Token::ArrayType,
        Token::LSqareBracket,
        Token::IntType,
        Token::RSqareBracket,
        Token::Comma,
        Token::ResType,
        Token::LSqareBracket,
        Token::StrType,
        Token::RSqareBracket,
        Token::RSqareBracket,
    ];
    let mut p = Parser::from_tokens(toks);
    match p.parse_type().unwrap() {
        alang::ast::StaticType::Mapping { keys, values } => {
            assert!(matches!(*keys, alang::ast::StaticType::Arr { .. }));
            assert!(matches!(*values, alang::ast::StaticType::Res { .. }));
        },
        other => panic!("{:?}", other),
    }
    assert_eq!(p.statement_tokens().unwrap_err(), alang::token::ParsingError("unexpected EOF".to_string()));
}
