use alang::lexer::Lexer;
use alang::token::Token;

/// Reads every token up to the end of the input, checking first that the
/// lexer does not stop on a byte that opens no token.
fn read_checked(l: &mut Lexer) -> Option<Token> {
    assert_eq!(l.unexpected_char(), None);
    l.read()
}

#[test]
fn test_next_token_hello_world() {
    let input = r#"fn main() {
            println("Hello world");
        }
"#;
    let mut l = Lexer::new(input.as_bytes());
    let expected = [
        Token::FunctionDef,
        Token::Ident("main".to_string()),
        Token::LParen,
        Token::RParen,
        Token::LBrace,
        Token::Ident("println".to_string()),
        Token::LParen,
        Token::String("Hello world".to_string()),
        Token::RParen,
        Token::Semicolon,
        Token::RBrace,
    ];

    for e in expected {
        let t = read_checked(&mut l);
        assert_eq!(e, t.unwrap())
    }
}

/// A float token holds its literal; it stands for the `f64` that the text
/// parses to.
fn float_value(t: &Token) -> f64 {
    match t {
        Token::Float(s) => s.parse::<f64>().unwrap(),
        other => panic!("not a float: {:?}", other),
    }
}

#[test]
fn test_next_token_vars_comments() {
    let input = r#"fn main() {
            a := "string"; // type str
            println(a);

            b := 12; // type int
            println(b);

            c := 1.1; // type float
            println(c);

            d := true; // type bool
            println(d);

            // type hint
            e str := "abc";
            println(e);

            // compiler error vvv; g is of type int
            // g float := 12;
            // println(g);
        }
"#;
    let mut l = Lexer::new(input.as_bytes());
    let expected: Vec<Result<Token, f64>> = vec![
        Ok(Token::FunctionDef),
        Ok(Token::Ident("main".to_string())),
        Ok(Token::LParen),
        Ok(Token::RParen),
        Ok(Token::LBrace),
        Ok(Token::Ident("a".to_string())),
        Ok(Token::Assign),
        Ok(Token::String("string".to_string())),
        Ok(Token::Semicolon),
        Ok(Token::Ident("println".to_string())),
        Ok(Token::LParen),
        Ok(Token::Ident("a".to_string())),
        Ok(Token::RParen),
        Ok(Token::Semicolon),
        Ok(Token::Ident("b".to_string())),
        Ok(Token::Assign),
        Ok(Token::Int(12)),
        Ok(Token::Semicolon),
        Ok(Token::Ident("println".to_string())),
        Ok(Token::LParen),
        Ok(Token::Ident("b".to_string())),
        Ok(Token::RParen),
        Ok(Token::Semicolon),
        Ok(Token::Ident("c".to_string())),
        Ok(Token::Assign),
        Err(1.1),
        Ok(Token::Semicolon),
        Ok(Token::Ident("println".to_string())),
        Ok(Token::LParen),
        Ok(Token::Ident("c".to_string())),
        Ok(Token::RParen),
        Ok(Token::Semicolon),
        Ok(Token::Ident("d".to_string())),
        Ok(Token::Assign),
        Ok(Token::Bool(true)),
        Ok(Token::Semicolon),
        Ok(Token::Ident("println".to_string())),
        Ok(Token::LParen),
        Ok(Token::Ident("d".to_string())),
        Ok(Token::RParen),
        Ok(Token::Semicolon),
        Ok(Token::Ident("e".to_string())),
        Ok(Token::StrType),
        Ok(Token::Assign),
        Ok(Token::String("abc".to_string())),
        Ok(Token::Semicolon),
        Ok(Token::Ident("println".to_string())),
        Ok(Token::LParen),
        Ok(Token::Ident("e".to_string())),
        Ok(Token::RParen),
        Ok(Token::Semicolon),
        Ok(Token::RBrace),
    ];

    for e in expected {
        let t = read_checked(&mut l).unwrap();
        match e {
            Ok(e) => assert_eq!(e, t),
            Err(f) => assert_eq!(f, float_value(&t)),
        }
    }
}

fn all_tokens(src: &str) -> Vec<Option<Token>> {
    let mut l = Lexer::new(src.as_bytes());
    let mut out = Vec::new();
    for _ in 0..64 {
        if l.unexpected_char().is_some() {
            break;
        }
        let t = l.read();
        let end = t.is_none();
        out.push(t);
        if end {
            break;
        }
    }
    out
}

#[test]
fn keywords_and_words() {
    let mut l = Lexer::new(b"fn str float int bool true false fnx Main");
    let expected = [
        Token::FunctionDef,
        Token::StrType,
        Token::FloatType,
        Token::IntType,
        Token::BoolType,
        Token::Bool(true),
        Token::Bool(false),
        Token::Ident("fnx".to_string()),
        Token::Ident("Main".to_string()),
    ];
    for e in expected {
        assert_eq!(Some(e), read_checked(&mut l));
    }
    assert_eq!(None, read_checked(&mut l));
    assert_eq!(None, read_checked(&mut l));
}

#[test]
fn punctuation_and_assign() {
    let mut l = Lexer::new(b"; ( ) { } : :=");
    let expected = [
        Token::Semicolon,
        Token::LParen,
        Token::RParen,
        Token::LBrace,
        Token::RBrace,
        Token::Colon,
        Token::Assign,
    ];
    for e in expected {
        assert_eq!(Some(e), read_checked(&mut l));
    }
    assert_eq!(None, read_checked(&mut l));
}

#[test]
fn integer_literals() {
    let mut l = Lexer::new(b"0 -7 +42 007 9223372036854775807 -9223372036854775808");
    let expected = [0i64, -7, 42, 7, i64::MAX, i64::MIN];
    for e in expected {
        assert_eq!(Some(Token::Int(e)), read_checked(&mut l));
    }
}

#[test]
fn integer_out_of_range_gives_none_and_lexing_goes_on() {
    let mut l = Lexer::new(b"9223372036854775808 x");
    assert_eq!(None, read_checked(&mut l));
    assert_eq!(Some(Token::Ident("x".to_string())), read_checked(&mut l));
}

#[test]
fn lone_sign_gives_none() {
    let mut l = Lexer::new(b"- ;");
    assert_eq!(None, read_checked(&mut l));
    assert_eq!(Some(Token::Semicolon), read_checked(&mut l));
}

#[test]
fn float_literals() {
    let mut l = Lexer::new(b"1.5 .5 -2. +0.25");
    for e in [1.5f64, 0.5, -2.0, 0.25] {
        let t = read_checked(&mut l).unwrap();
        assert_eq!(e, float_value(&t));
    }
    assert_eq!(
        all_tokens("3.14"),
        vec![Some(Token::Float("3.14".to_string())), None]
    );
}

#[test]
fn malformed_floats_give_none() {
    let mut l = Lexer::new(b"1.2.3 . -. ;");
    assert_eq!(None, read_checked(&mut l));
    assert_eq!(None, read_checked(&mut l));
    assert_eq!(None, read_checked(&mut l));
    assert_eq!(Some(Token::Semicolon), read_checked(&mut l));
}

#[test]
fn unterminated_string_gives_none() {
    assert_eq!(all_tokens("x \"abc"), vec![Some(Token::Ident("x".to_string())), None]);
}

#[test]
fn string_with_invalid_utf8_is_decoded_lossily() {
    let mut l = Lexer::new(b"\"a\xffb\"");
    assert_eq!(Some(Token::String("a\u{fffd}b".to_string())), read_checked(&mut l));
}

#[test]
fn comments_and_whitespace_are_skipped() {
    assert_eq!(
        all_tokens("  // one\n\t// two\r\n x // three"),
        vec![Some(Token::Ident("x".to_string())), None]
    );
}

#[test]
fn colon_at_the_end_repeats() {
    let mut l = Lexer::new(b"a:");
    assert_eq!(Some(Token::Ident("a".to_string())), read_checked(&mut l));
    assert_eq!(Some(Token::Colon), read_checked(&mut l));
    assert_eq!(Some(Token::Colon), read_checked(&mut l));
    assert_eq!(Some(Token::Colon), read_checked(&mut l));
}

#[test]
fn slash_at_the_end_rereads_the_byte_before() {
    let mut l = Lexer::new(b"a/");
    assert_eq!(Some(Token::Ident("a".to_string())), read_checked(&mut l));
    assert_eq!(Some(Token::Ident("a".to_string())), read_checked(&mut l));
}

#[test]
fn unexpected_characters_are_reported() {
    let l = Lexer::new(b"  , x");
    assert_eq!(l.unexpected_char(), Some(b','));
    let l = Lexer::new(b"x /");
    let mut l2 = Lexer::new(b"x /");
    assert_eq!(l.unexpected_char(), None);
    assert_eq!(Some(Token::Ident("x".to_string())), read_checked(&mut l2));
    // the slash at the end sends the lexer back to the space before it
    assert_eq!(l2.unexpected_char(), Some(b' '));
}

#[test]
fn byte_level_reading() {
    let mut l = Lexer::new(b"ab\ncd");
    assert_eq!(l.read_byte(), Some(b'a'));
    l.unread_byte();
    l.unread_byte();
    assert_eq!(l.read_byte(), Some(b'a'));
    l.skip_line();
    assert_eq!(l.read_byte(), Some(b'c'));
    let mut l = Lexer::new(b" \t// c\n  z");
    l.skip_whitespace_and_comments();
    assert_eq!(l.read_byte(), Some(b'z'));
    assert_eq!(l.read_byte(), None);
}

#[test]
fn next_gives_the_same_as_read() {
    let mut a = Lexer::new(b"x := 1;");
    let mut b = Lexer::new(b"x := 1;");
    for _ in 0..6 {
        assert_eq!(a.unexpected_char(), None);
        assert_eq!(a.next(), b.read());
    }
}

#[test]
fn number_validity_agrees_with_std_parse() {
    let literals = [
        "0", "12", "-0", "+7", "-", "+", "007", "9223372036854775807", "9223372036854775808",
        "-9223372036854775808", "-9223372036854775809", "99999999999999999999999", "1.", ".5",
        "+.5", "-.5", ".", "-.", "+.", "1.2.3", "..", "1..", "00.00", "-1.25", "+3.0",
        "123456789012345678901234567890.5",
    ];
    for lit in literals {
        let mut l = Lexer::new(lit.as_bytes());
        assert_eq!(l.unexpected_char(), None);
        let t = l.read();
        if lit.contains('.') {
            match lit.parse::<f64>() {
                Ok(f) => {
                    assert_eq!(t, Some(Token::Float(lit.to_string())));
                    assert_eq!(f, float_value(&t.unwrap()));
                },
                Err(_) => assert_eq!(t, None, "{}", lit),
            }
        } else {
            match lit.parse::<i64>() {
                Ok(n) => assert_eq!(t, Some(Token::Int(n)), "{}", lit),
                Err(_) => assert_eq!(t, None, "{}", lit),
            }
        }
    }
}
