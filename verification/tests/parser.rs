use alang::lexer::Tail;
use alang::ast::StaticType;
use alang::parser::Parser;
use alang::token::{ParsingError, Token};

fn ident(s: &str) -> Token {
    Token::Ident(s.to_string())
}

fn err(s: &str) -> ParsingError {
    ParsingError(s.to_string())
}

#[test]
fn test_name() {
    let src = b"f float := 3.14;";

    let mut p = Parser::from_source(src);

    let tokens = p.statement_tokens().unwrap();
    println!("{:?}", tokens);
    assert_eq!(
        tokens,
        vec![ident("f"), Token::FloatType, Token::Assign, Token::Float("3.14".to_string())]
    );
}

#[test]
fn statement_tokens_without_semicolon_is_an_eof_error() {
    let mut p = Parser::from_source(b"a b");
    assert_eq!(p.statement_tokens().unwrap_err(), err("unexpected EOF"));
}

#[test]
fn parse_identifier_reads_one_name() {
    let mut p = Parser::from_source(b"abc def");
    match p.parse_identifier().unwrap() {
        alang::ast::Expression::Identifier(s) => assert_eq!(s, "abc"),
        other => panic!("{:?}", other),
    }
    match p.parse_identifier().unwrap() {
        alang::ast::Expression::Identifier(s) => assert_eq!(s, "def"),
        other => panic!("{:?}", other),
    }
    assert_eq!(p.parse_identifier().unwrap_err(), err("unexpected EOF"));
}

#[test]
fn parse_identifier_rejects_other_tokens() {
    let mut p = Parser::from_source(b"fn");
    assert_eq!(p.parse_identifier().unwrap_err(), err("unexpected token: FunctionDef"));
}

#[test]
fn parse_statement_at_the_end() {
    let mut p = Parser::from_source(b"");
    assert_eq!(p.parse_statement().unwrap_err(), err("unexpected EOF"));
    let mut p = Parser::from_source(b"x");
    assert_eq!(p.parse_statement().unwrap_err(), err("unexpected EOF"));
}

fn show_type(t: &StaticType) -> String {
    match t {
        StaticType::Str => "str".to_string(),
        StaticType::Float => "float".to_string(),
        StaticType::Int => "int".to_string(),
        StaticType::Bool => "bool".to_string(),
        StaticType::Byte => "byte".to_string(),
        StaticType::Arr { inner } => format!("arr[{}]", show_type(inner)),
        StaticType::Mapping { keys, values } => {
            format!("map[{},{}]", show_type(keys), show_type(values))
        },
        StaticType::Opt { inner } => format!("opt[{}]", show_type(inner)),
        StaticType::Res { inner } => format!("res[{}]", show_type(inner)),
    }
}

#[test]
fn parse_simple_types() {
    let mut p = Parser::from_source(b"str float int bool");
    for e in ["str", "float", "int", "bool"] {
        assert_eq!(show_type(&p.parse_type().unwrap()), e);
    }
    assert_eq!(p.parse_type().unwrap_err(), err("unexpected EOF"));
}

#[test]
fn parse_nested_types() {
    let toks = vec![
        Token::MapType,
        Token::LSqareBracket,
        Token::StrType,
        Token::Comma,
        Token::ArrayType,
        Token::LSqareBracket,
        Token::OptType,
        Token::LSqareBracket,
        Token::ByteType,
        Token::RSqareBracket,
        Token::RSqareBracket,
        Token::RSqareBracket,
        Token::ResType,
        Token::LSqareBracket,
        Token::IntType,
        Token::RSqareBracket,
    ];
    let mut p = Parser::from_tokens(toks);
    assert_eq!(show_type(&p.parse_type().unwrap()), "map[str,arr[opt[byte]]]");
    assert_eq!(show_type(&p.parse_type().unwrap()), "res[int]");
}

#[test]
fn parse_type_errors() {
    let mut p = Parser::from_source(b"main");
    assert_eq!(p.parse_type().unwrap_err(), err("expected type"));
    let mut p = Parser::from_tokens(vec![Token::ArrayType, Token::IntType]);
    assert_eq!(p.parse_type().unwrap_err(), err("unexpected token: IntType"));
    let mut p =
        Parser::from_tokens(vec![Token::MapType, Token::LSqareBracket, Token::IntType, Token::IntType]);
    assert_eq!(p.parse_type().unwrap_err(), err("unexpected token: IntType"));
}

#[test]
fn parse_argument_name_then_type() {
    let mut p = Parser::from_source(b"count int");
    let a = p.parse_argument().unwrap();
    assert_eq!(a.identifier, "count");
    assert_eq!(show_type(&a.arg_type), "int");
}

#[test]
fn parse_signature_without_parameters() {
    let mut p = Parser::from_source(b"fn main() int");
    let s = p.parse_function_signature().unwrap();
    assert_eq!(s.name, "main");
    assert!(s.args.is_empty());
    assert_eq!(show_type(&s.ret_type), "int");
}

#[test]
fn parse_signature_with_parameters() {
    let toks = vec![
        Token::FunctionDef,
        ident("add"),
        Token::LParen,
        ident("a"),
        Token::IntType,
        Token::Comma,
        ident("b"),
        Token::FloatType,
        Token::RParen,
        Token::BoolType,
    ];
    let mut p = Parser::from_tokens(toks);
    let s = p.parse_function_signature().unwrap();
    assert_eq!(s.name, "add");
    assert_eq!(s.args.len(), 2);
    assert_eq!(s.args[0].identifier, "a");
    assert_eq!(show_type(&s.args[0].arg_type), "int");
    assert_eq!(s.args[1].identifier, "b");
    assert_eq!(show_type(&s.args[1].arg_type), "float");
    assert_eq!(show_type(&s.ret_type), "bool");
}

#[test]
fn parse_signature_errors() {
    let mut p = Parser::from_source(b"fn f(a int; int");
    assert_eq!(p.parse_function_signature().unwrap_err(), err("unexpected token: Semicolon"));
    let mut p = Parser::from_source(b"main() int");
    assert_eq!(p.parse_function_signature().unwrap_err(), err("unexpected token: Ident(\"main\")"));
    let mut p = Parser::from_source(b"fn f(a int");
    assert_eq!(p.parse_function_signature().unwrap_err(), err("unexpected EOF"));
}

#[test]
fn parse_function_with_empty_body() {
    let mut p = Parser::from_source(b"fn main() int {}");
    let f = p.parse_function().unwrap();
    assert_eq!(f.signature.name, "main");
    assert!(f.statements.is_empty());
}

#[test]
fn parse_function_with_unclosed_body() {
    let mut p = Parser::from_source(b"fn main() int {");
    assert_eq!(p.parse_function().unwrap_err(), err("unexpected EOF"));
}

#[test]
fn parse_functions_until_no_fn() {
    let mut p = Parser::from_source(b"fn a() int {} fn b() str {} ;");
    let fs = p.parse_functions().unwrap();
    assert_eq!(fs.len(), 2);
    assert_eq!(fs[0].signature.name, "a");
    assert_eq!(fs[1].signature.name, "b");
    // the semicolon is left in the stream
    assert_eq!(p.statement_tokens().unwrap(), vec![]);
}

#[test]
fn parse_imports_and_program() {
    let toks = vec![
        Token::Use,
        Token::String("fmt".to_string()),
        Token::Semicolon,
        Token::Use,
        Token::String("net/http".to_string()),
        Token::Semicolon,
        Token::FunctionDef,
        ident("main"),
        Token::LParen,
        Token::RParen,
        Token::IntType,
        Token::LBrace,
        Token::RBrace,
    ];
    let mut p = Parser::from_tokens(toks);
    let prog = p.parse_program().unwrap();
    assert_eq!(prog.imports.len(), 2);
    assert_eq!(prog.imports[0].0, vec!["fmt".to_string()]);
    assert_eq!(prog.imports[1].0, vec!["net".to_string(), "http".to_string()]);
    assert_eq!(prog.functions.len(), 1);
    assert_eq!(prog.functions[0].signature.name, "main");
}

#[test]
fn import_paths_split_at_every_slash() {
    let toks = vec![Token::Use, Token::String("/a//b/".to_string()), Token::Semicolon];
    let mut p = Parser::from_tokens(toks);
    let imports = p.parse_imports().unwrap();
    let parts: Vec<String> =
        vec!["".to_string(), "a".to_string(), "".to_string(), "b".to_string(), "".to_string()];
    assert_eq!(imports[0].0, parts);
}

#[test]
fn import_errors() {
    let mut p = Parser::from_tokens(vec![Token::Use, ident("fmt")]);
    assert_eq!(p.parse_imports().unwrap_err(), err("expected string"));
    let mut p = Parser::from_tokens(vec![Token::Use, Token::String("fmt".to_string())]);
    assert_eq!(p.parse_imports().unwrap_err(), err("unexpected EOF"));
}

#[test]
fn program_without_imports_or_functions() {
    let mut p = Parser::from_source(b"");
    let prog = p.parse_program().unwrap();
    assert!(prog.imports.is_empty());
    assert!(prog.functions.is_empty());
}

#[test]
fn parser_resumes_after_a_none() {
    // a lone sign lexes to nothing; the next read goes on with the next token
    let mut p = Parser::from_source(b"+ x");
    assert_eq!(p.parse_identifier().unwrap_err(), err("unexpected EOF"));
    assert!(p.parse_identifier().is_ok());
}

#[test]
fn statements_that_end_early() {
    let mut p = Parser::from_source(b"");
    match p.parse_statement() {
        Err(e) => assert_eq!(e, err("unexpected EOF")),
        Ok(s) => panic!("{:?}", s),
    }
}

#[test]
fn unexpected_float_message() {
    let mut p = Parser::from_source(b"1.5");
    assert_eq!(p.parse_identifier().unwrap_err(), err("unexpected token: Float(1.5)"));
}

#[test]
fn tail_tells_how_the_stream_ends() {
    assert!(matches!(Parser::from_source(b"fn main").tail(), Tail::Repeat(None)));
    assert!(matches!(Parser::from_source(b"a:").tail(), Tail::Repeat(Some(Token::Colon))));
    assert!(matches!(Parser::from_source(b"a , b").tail(), Tail::Unexpected(b',')));
}
