use vstd::prelude::*;
use vstd::string::StringExecFns;
use crate::text::{str_debug, debug_str, int_text, write_int};

verus! {

/// A lexical token.
///
/// The lexer of this crate makes the punctuation `; : := ( ) { }`, the
/// keywords `fn str float int bool true false`, identifiers, string
/// literals and number literals. The parser also reads `Equals`, `Comma`,
/// the square brackets, `Return`, `Use`, `ByteType`, `ArrayType`, `MapType`,
/// `StructType`, `OptType` and `ResType`, which no lexer here makes: a
/// parser built from a list of tokens gets them. No code makes `Illegal`.
///
/// A float literal is held as the text it was written with; its numeric value
/// is a floating-point number, which this library does not compute.
#[derive(Clone, Debug, PartialEq)]
pub enum Token {
    Illegal,
    Ident(String),
    Assign,
    Equals,
    // punctuation
    Semicolon,
    Colon,
    Comma,
    LParen,
    RParen,
    LBrace,
    RBrace,
    LSqareBracket,
    RSqareBracket,
    // keywords
    FunctionDef,
    Return,
    Use,
    // builtin type identifiers
    StrType,
    FloatType,
    IntType,
    BoolType,
    ByteType,
    ArrayType,
    MapType,
    StructType,
    OptType,
    ResType,
    // type val
    String(String),
    Int(i64),
    Float(String),
    Bool(bool),
}

/// A token with its text taken as characters.
pub enum TokenView {
    Illegal,
    Assign,
    Equals,
    Semicolon,
    Colon,
    Comma,
    LParen,
    RParen,
    LBrace,
    RBrace,
    LSqareBracket,
    RSqareBracket,
    FunctionDef,
    Return,
    Use,
    StrType,
    FloatType,
    IntType,
    BoolType,
    ByteType,
    ArrayType,
    MapType,
    StructType,
    OptType,
    ResType,
    Ident(Seq<char>),
    String(Seq<char>),
    Int(i64),
    Float(Seq<char>),
    Bool(bool),
}

impl View for Token {
    type V = TokenView;

    open spec fn view(&self) -> TokenView {
        match *self {
            Token::Illegal => TokenView::Illegal,
            Token::Assign => TokenView::Assign,
            Token::Equals => TokenView::Equals,
            Token::Semicolon => TokenView::Semicolon,
            Token::Colon => TokenView::Colon,
            Token::Comma => TokenView::Comma,
            Token::LParen => TokenView::LParen,
            Token::RParen => TokenView::RParen,
            Token::LBrace => TokenView::LBrace,
            Token::RBrace => TokenView::RBrace,
            Token::LSqareBracket => TokenView::LSqareBracket,
            Token::RSqareBracket => TokenView::RSqareBracket,
            Token::FunctionDef => TokenView::FunctionDef,
            Token::Return => TokenView::Return,
            Token::Use => TokenView::Use,
            Token::StrType => TokenView::StrType,
            Token::FloatType => TokenView::FloatType,
            Token::IntType => TokenView::IntType,
            Token::BoolType => TokenView::BoolType,
            Token::ByteType => TokenView::ByteType,
            Token::ArrayType => TokenView::ArrayType,
            Token::MapType => TokenView::MapType,
            Token::StructType => TokenView::StructType,
            Token::OptType => TokenView::OptType,
            Token::ResType => TokenView::ResType,
            Token::Ident(s) => TokenView::Ident(s@),
            Token::String(s) => TokenView::String(s@),
            Token::Int(n) => TokenView::Int(n),
            Token::Float(s) => TokenView::Float(s@),
            Token::Bool(b) => TokenView::Bool(b),
        }
    }
}

/// The text of a token in error messages: the name of its variant, then its
/// payload in parentheses, as `{:?}` prints it; a float is written as its
/// literal (its value, which `{:?}` of an `f64` would print, is a
/// floating-point number, which this library does not compute).
pub open spec fn debug_text(t: Token) -> Seq<char> {
    match t {
        Token::Illegal => "Illegal"@,
        Token::Assign => "Assign"@,
        Token::Equals => "Equals"@,
        Token::Semicolon => "Semicolon"@,
        Token::Colon => "Colon"@,
        Token::Comma => "Comma"@,
        Token::LParen => "LParen"@,
        Token::RParen => "RParen"@,
        Token::LBrace => "LBrace"@,
        Token::RBrace => "RBrace"@,
        Token::LSqareBracket => "LSqareBracket"@,
        Token::RSqareBracket => "RSqareBracket"@,
        Token::FunctionDef => "FunctionDef"@,
        Token::Return => "Return"@,
        Token::Use => "Use"@,
        Token::StrType => "StrType"@,
        Token::FloatType => "FloatType"@,
        Token::IntType => "IntType"@,
        Token::BoolType => "BoolType"@,
        Token::ByteType => "ByteType"@,
        Token::ArrayType => "ArrayType"@,
        Token::MapType => "MapType"@,
        Token::StructType => "StructType"@,
        Token::OptType => "OptType"@,
        Token::ResType => "ResType"@,
        Token::Ident(s) => "Ident("@ + str_debug(s@) + ")"@,
        Token::String(s) => "String("@ + str_debug(s@) + ")"@,
        Token::Float(s) => "Float("@ + s@ + ")"@,
        Token::Int(n) => "Int("@ + int_text(n as int) + ")"@,
        Token::Bool(b) => "Bool("@ + if b {
            "true"@
        } else {
            "false"@
        } + ")"@,
    }
}

impl Token {
    /// The text of the token in error messages (see `debug_text`).
    pub fn to_debug_string(&self) -> (r: String)
        ensures
            r@ == debug_text(*self),
    {
        match self {
            Token::Illegal => String::from_str("Illegal"),
            Token::Assign => String::from_str("Assign"),
            Token::Equals => String::from_str("Equals"),
            Token::Semicolon => String::from_str("Semicolon"),
            Token::Colon => String::from_str("Colon"),
            Token::Comma => String::from_str("Comma"),
            Token::LParen => String::from_str("LParen"),
            Token::RParen => String::from_str("RParen"),
            Token::LBrace => String::from_str("LBrace"),
            Token::RBrace => String::from_str("RBrace"),
            Token::LSqareBracket => String::from_str("LSqareBracket"),
            Token::RSqareBracket => String::from_str("RSqareBracket"),
            Token::FunctionDef => String::from_str("FunctionDef"),
            Token::Return => String::from_str("Return"),
            Token::Use => String::from_str("Use"),
            Token::StrType => String::from_str("StrType"),
            Token::FloatType => String::from_str("FloatType"),
            Token::IntType => String::from_str("IntType"),
            Token::BoolType => String::from_str("BoolType"),
            Token::ByteType => String::from_str("ByteType"),
            Token::ArrayType => String::from_str("ArrayType"),
            Token::MapType => String::from_str("MapType"),
            Token::StructType => String::from_str("StructType"),
            Token::OptType => String::from_str("OptType"),
            Token::ResType => String::from_str("ResType"),
            Token::Ident(s) => wrapped("Ident(", s),
            Token::String(s) => wrapped("String(", s),
            Token::Float(s) => {
                let mut r = String::from_str("Float(");
                r.append(s.as_str());
                r.append(")");
                r
            },
            Token::Int(n) => {
                let mut r = String::from_str("Int(");
                write_int(&mut r, *n);
                r.append(")");
                r
            },
            Token::Bool(b) => {
                let mut r = String::from_str("Bool(");
                r.append(if *b {
                    "true"
                } else {
                    "false"
                });
                r.append(")");
                r
            },
        }
    }
}

/// `head`, the quoted text of `s`, then a closing parenthesis.
fn wrapped(head: &str, s: &String) -> (r: String)
    ensures
        r@ == head@ + str_debug(s@) + ")"@,
{
    let mut r = String::from_str(head);
    let q = debug_str(s.as_str());
    r.append(q.as_str());
    r.append(")");
    r
}

/// An error met while parsing, with its message.
#[derive(Clone, Debug, PartialEq)]
pub struct ParsingError(pub String);

} // verus!
