use vstd::prelude::*;
use crate::token::{Token, ParsingError, debug_text};
use crate::lexer::Tail;
use crate::ast::{Expression, StaticType, Argument, Statement, SignatureView, FunctionView, ProgramView};

verus! {

/// What the parser finds at a place in its token stream.
pub enum Next {
    /// The lexer gives this value (`None` at the end of the input).
    Item(Option<Token>),
    /// The lexer panics on this byte, which opens no token.
    Halt(u8),
}

/// The outcome of a parse from some place in the token stream.
pub enum Parsed<T> {
    /// The parse returns this result (an error by its message), after
    /// consuming this many places of the stream.
    Done(Result<T, Seq<char>>, nat),
    /// The parse does not return: it panics (on a byte that opens no token,
    /// or in a part of the grammar that is not written yet) or runs forever.
    Stuck,
}

/// The message of the error for a missing token at the end of the input.
pub open spec fn eof_message() -> Seq<char> {
    "unexpected EOF"@
}

/// The message of the error for a token that does not fit.
pub open spec fn unexpected_message(t: Token) -> Seq<char> {
    "unexpected token: "@ + debug_text(t)
}

/// A token that holds no text.
pub open spec fn is_plain(t: Token) -> bool {
    !(t is Ident || t is String || t is Float)
}

/// The token stream of a parser: the values read ahead from the lexer, and
/// what comes after them.
pub struct Stream {
    pub items: Seq<Option<Token>>,
    pub tail: Tail,
}

impl Stream {
    /// What the stream holds at place `i`.
    pub open spec fn next_at(self, i: nat) -> Next {
        if i < self.items.len() {
            Next::Item(self.items[i as int])
        } else {
            match self.tail {
                Tail::Repeat(t) => Next::Item(t),
                Tail::Unexpected(b) => Next::Halt(b),
            }
        }
    }

    /// How far reading at place `i` moves: past the read-ahead values the
    /// stream stays where it is.
    pub open spec fn step(self, i: nat) -> nat {
        if i < self.items.len() {
            1
        } else {
            0
        }
    }

    /// How many read-ahead values are left from place `i`.
    pub open spec fn rem(self, i: nat) -> nat {
        if i < self.items.len() {
            (self.items.len() - i) as nat
        } else {
            0
        }
    }
}

/// Whether a parse that started at `start` and ended at `end` had the outcome
/// `o`, returning `r`.
pub open spec fn returned<T>(o: Parsed<T>, r: Result<T, Seq<char>>, start: nat, end: nat) -> bool {
    start <= end && o == Parsed::Done(r, (end - start) as nat)
}

/// A result with its error taken by its message.
pub open spec fn res_view<T>(r: Result<T, ParsingError>) -> Result<T, Seq<char>> {
    match r {
        Ok(v) => Ok(v),
        Err(e) => Err(e.0@),
    }
}

/// A result with its value and its error taken by their views.
pub open spec fn viewed<T: View>(r: Result<T, ParsingError>) -> Result<T::V, Seq<char>> {
    match r {
        Ok(v) => Ok(v@),
        Err(e) => Err(e.0@),
    }
}


/// The parts of an import path: the text between the slashes, as
/// `str::split("/")` gives them.
pub open spec fn split_path(s: Seq<char>) -> Seq<Seq<char>>
    decreases s.len(),
{
    if s.len() == 0 {
        seq![Seq::<char>::empty()]
    } else {
        let parts = split_path(s.drop_last());
        if s.last() == '/' {
            parts.push(Seq::<char>::empty())
        } else {
            parts.update(parts.len() - 1, parts.last().push(s.last()))
        }
    }
}

pub proof fn lemma_split_path_nonempty(s: Seq<char>)
    ensures
        split_path(s).len() >= 1,
    decreases s.len(),
{
    if s.len() > 0 {
        lemma_split_path_nonempty(s.drop_last());
    }
}

/// A sequence outcome after `done` was already produced over `n` places.
pub open spec fn prefixed<T>(inner: Parsed<Seq<T>>, done: Seq<T>, n: nat) -> Parsed<Seq<T>> {
    match inner {
        Parsed::Done(Ok(rest), m) => Parsed::Done(Ok(done + rest), n + m),
        Parsed::Done(Err(e), m) => Parsed::Done(Err(e), n + m),
        Parsed::Stuck => Parsed::Stuck,
    }
}

/// The type that a type keyword with one parameter builds around `inner`.
pub open spec fn wrap_type(t: Token, inner: StaticType) -> StaticType {
    match t {
        Token::ArrayType => StaticType::Arr { inner: Box::new(inner) },
        Token::OptType => StaticType::Opt { inner: Box::new(inner) },
        _ => StaticType::Res { inner: Box::new(inner) },
    }
}

/// The grammar, as what each parse returns from a place of the stream.
impl Stream {
    /// Reading a token that must equal `tok`.
    pub open spec fn expect(self, i: nat, tok: Token) -> Parsed<Token> {
        match self.next_at(i) {
            Next::Halt(_) => Parsed::Stuck,
            Next::Item(Some(t)) => Parsed::Done(
                if t == tok {
                    Ok(t)
                } else {
                    Err(unexpected_message(t))
                },
                self.step(i),
            ),
            Next::Item(None) => Parsed::Done(Err(eof_message()), self.step(i)),
        }
    }

    /// Reading an identifier, giving its name.
    pub open spec fn ident(self, i: nat) -> Parsed<String> {
        match self.next_at(i) {
            Next::Halt(_) => Parsed::Stuck,
            Next::Item(Some(Token::Ident(s))) => Parsed::Done(Ok(s), self.step(i)),
            Next::Item(Some(t)) => Parsed::Done(Err(unexpected_message(t)), self.step(i)),
            Next::Item(None) => Parsed::Done(Err(eof_message()), self.step(i)),
        }
    }

    /// Reading an identifier, as an expression.
    pub open spec fn identifier(self, i: nat) -> Parsed<Expression> {
        match self.ident(i) {
            Parsed::Done(Ok(s), a) => Parsed::Done(Ok(Expression::Identifier(s)), a),
            Parsed::Done(Err(e), a) => Parsed::Done(Err(e), a),
            Parsed::Stuck => Parsed::Stuck,
        }
    }

    /// The tokens up to the next semicolon, which is consumed.
    pub open spec fn statement_tokens(self, i: nat) -> Parsed<Seq<Token>>
        decreases self.rem(i),
    {
        match self.next_at(i) {
            Next::Halt(_) => Parsed::Stuck,
            Next::Item(None) => Parsed::Done(Err(eof_message()), self.step(i)),
            Next::Item(Some(Token::Semicolon)) => Parsed::Done(Ok(seq![]), self.step(i)),
            Next::Item(Some(t)) => if i < self.items.len() {
                match self.statement_tokens(i + 1) {
                    Parsed::Done(Ok(ts), n) => Parsed::Done(Ok(seq![t] + ts), 1 + n),
                    Parsed::Done(Err(e), n) => Parsed::Done(Err(e), 1 + n),
                    Parsed::Stuck => Parsed::Stuck,
                }
            } else {
                // the same token for ever, and never a semicolon
                Parsed::Stuck
            },
        }
    }

    /// A statement. Every statement that goes on past a leading identifier
    /// needs the expression parser, which is not written: such a parse
    /// does not return.
    pub open spec fn statement(self, i: nat) -> Parsed<Statement> {
        match self.next_at(i) {
            Next::Halt(_) => Parsed::Stuck,
            Next::Item(None) => Parsed::Done(Err(eof_message()), 0),
            Next::Item(Some(Token::Ident(_))) => {
                let j = i + self.step(i);
                match self.next_at(j) {
                    Next::Item(None) => Parsed::Done(Err(eof_message()), self.step(i)),
                    _ => Parsed::Stuck,
                }
            },
            Next::Item(Some(_)) => Parsed::Stuck,
        }
    }

    /// The imports at the start of a program, each one the parts of its path.
    pub open spec fn imports(self, i: nat) -> Parsed<Seq<Seq<Seq<char>>>>
        decreases self.rem(i),
    {
        match self.next_at(i) {
            Next::Halt(_) => Parsed::Stuck,
            Next::Item(Some(Token::Use)) => {
                let a = self.step(i);
                let j = i + a;
                match self.next_at(j) {
                    Next::Halt(_) => Parsed::Stuck,
                    Next::Item(Some(Token::String(s))) => {
                        let b = self.step(j);
                        let k = j + b;
                        match self.expect(k, Token::Semicolon) {
                            Parsed::Stuck => Parsed::Stuck,
                            Parsed::Done(Err(e), c) => Parsed::Done(Err(e), a + b + c),
                            Parsed::Done(Ok(_), c) => match self.imports(k + c) {
                                Parsed::Done(Ok(rest), d) => Parsed::Done(
                                    Ok(seq![split_path(s@)] + rest),
                                    a + b + c + d,
                                ),
                                Parsed::Done(Err(e), d) => Parsed::Done(Err(e), a + b + c + d),
                                Parsed::Stuck => Parsed::Stuck,
                            },
                        }
                    },
                    Next::Item(_) => Parsed::Done(Err("expected string"@), a + self.step(j)),
                }
            },
            Next::Item(_) => Parsed::Done(Ok(seq![]), 0),
        }
    }

    /// A type.
    #[verifier::opaque]
    pub open spec fn static_type(self, i: nat) -> Parsed<StaticType>
        decreases self.rem(i),
    {
        match self.next_at(i) {
            Next::Halt(_) => Parsed::Stuck,
            Next::Item(None) => Parsed::Done(Err(eof_message()), self.step(i)),
            Next::Item(Some(t)) => {
                let a = self.step(i);
                let j = i + a;
                match t {
                    Token::StrType => Parsed::Done(Ok(StaticType::Str), a),
                    Token::FloatType => Parsed::Done(Ok(StaticType::Float), a),
                    Token::IntType => Parsed::Done(Ok(StaticType::Int), a),
                    Token::BoolType => Parsed::Done(Ok(StaticType::Bool), a),
                    Token::ByteType => Parsed::Done(Ok(StaticType::Byte), a),
                    Token::ArrayType | Token::OptType | Token::ResType => match self.expect(
                        j,
                        Token::LSqareBracket,
                    ) {
                        Parsed::Stuck => Parsed::Stuck,
                        Parsed::Done(Err(e), b) => Parsed::Done(Err(e), a + b),
                        Parsed::Done(Ok(_), b) => match self.static_type(j + b) {
                            Parsed::Stuck => Parsed::Stuck,
                            Parsed::Done(Err(e), c) => Parsed::Done(Err(e), a + b + c),
                            Parsed::Done(Ok(inner), c) => match self.expect(
                                j + b + c,
                                Token::RSqareBracket,
                            ) {
                                Parsed::Stuck => Parsed::Stuck,
                                Parsed::Done(Err(e), d) => Parsed::Done(Err(e), a + b + c + d),
                                Parsed::Done(Ok(_), d) => Parsed::Done(
                                    Ok(wrap_type(t, inner)),
                                    a + b + c + d,
                                ),
                            },
                        },
                    },
                    Token::MapType => match self.expect(j, Token::LSqareBracket) {
                        Parsed::Stuck => Parsed::Stuck,
                        Parsed::Done(Err(e), b) => Parsed::Done(Err(e), a + b),
                        Parsed::Done(Ok(_), b) => match self.static_type(j + b) {
                            Parsed::Stuck => Parsed::Stuck,
                            Parsed::Done(Err(e), c) => Parsed::Done(Err(e), a + b + c),
                            Parsed::Done(Ok(k), c) => match self.expect(j + b + c, Token::Comma) {
                                Parsed::Stuck => Parsed::Stuck,
                                Parsed::Done(Err(e), d) => Parsed::Done(Err(e), a + b + c + d),
                                Parsed::Done(Ok(_), d) => match self.static_type(j + b + c + d) {
                                    Parsed::Stuck => Parsed::Stuck,
                                    Parsed::Done(Err(e), f) => Parsed::Done(
                                        Err(e),
                                        a + b + c + d + f,
                                    ),
                                    Parsed::Done(Ok(v), f) => match self.expect(
                                        j + b + c + d + f,
                                        Token::RSqareBracket,
                                    ) {
                                        Parsed::Stuck => Parsed::Stuck,
                                        Parsed::Done(Err(e), g) => Parsed::Done(
                                            Err(e),
                                            a + b + c + d + f + g,
                                        ),
                                        Parsed::Done(Ok(_), g) => Parsed::Done(
                                            Ok(
                                                StaticType::Mapping {
                                                    keys: Box::new(k),
                                                    values: Box::new(v),
                                                },
                                            ),
                                            a + b + c + d + f + g,
                                        ),
                                    },
                                },
                            },
                        },
                    },
                    // struct types are not written yet
                    Token::StructType => Parsed::Stuck,
                    _ => Parsed::Done(Err("expected type"@), a),
                }
            },
        }
    }

    /// A parameter: its name, then its type.
    pub open spec fn argument(self, i: nat) -> Parsed<Argument> {
        match self.ident(i) {
            Parsed::Stuck => Parsed::Stuck,
            Parsed::Done(Err(e), a) => Parsed::Done(Err(e), a),
            Parsed::Done(Ok(name), a) => match self.static_type(i + a) {
                Parsed::Stuck => Parsed::Stuck,
                Parsed::Done(Err(e), b) => Parsed::Done(Err(e), a + b),
                Parsed::Done(Ok(t), b) => Parsed::Done(
                    Ok(Argument { identifier: name, arg_type: t }),
                    a + b,
                ),
            },
        }
    }

    /// The parameters of a function after its opening parenthesis, up to and
    /// including the closing one, when there is at least one.
    pub open spec fn arg_list(self, i: nat) -> Parsed<Seq<Argument>>
        decreases self.rem(i),
    {
        match self.argument(i) {
            Parsed::Stuck => Parsed::Stuck,
            Parsed::Done(Err(e), a) => Parsed::Done(Err(e), a),
            Parsed::Done(Ok(arg), a) => {
                let k = i + a;
                let b = self.step(k);
                match self.next_at(k) {
                    Next::Halt(_) => Parsed::Stuck,
                    Next::Item(None) => Parsed::Done(Err(eof_message()), a + b),
                    Next::Item(Some(Token::Comma)) => match self.arg_list(k + b) {
                        Parsed::Done(Ok(rest), c) => Parsed::Done(Ok(seq![arg] + rest), a + b + c),
                        Parsed::Done(Err(e), c) => Parsed::Done(Err(e), a + b + c),
                        Parsed::Stuck => Parsed::Stuck,
                    },
                    Next::Item(Some(Token::RParen)) => Parsed::Done(Ok(seq![arg]), a + b),
                    Next::Item(Some(t)) => Parsed::Done(Err(unexpected_message(t)), a + b),
                }
            },
        }
    }

    /// A function signature: `fn`, the name, the parameters in parentheses,
    /// then the return type.
    #[verifier::opaque]
    pub open spec fn signature(self, i: nat) -> Parsed<SignatureView> {
        match self.expect(i, Token::FunctionDef) {
            Parsed::Stuck => Parsed::Stuck,
            Parsed::Done(Err(e), a) => Parsed::Done(Err(e), a),
            Parsed::Done(Ok(_), a) => match self.ident(i + a) {
                Parsed::Stuck => Parsed::Stuck,
                Parsed::Done(Err(e), b) => Parsed::Done(Err(e), a + b),
                Parsed::Done(Ok(name), b) => match self.expect(i + a + b, Token::LParen) {
                    Parsed::Stuck => Parsed::Stuck,
                    Parsed::Done(Err(e), c) => Parsed::Done(Err(e), a + b + c),
                    Parsed::Done(Ok(_), c) => {
                        let k = i + a + b + c;
                        let args: Parsed<Seq<Argument>> = match self.next_at(k) {
                            Next::Halt(_) => Parsed::Stuck,
                            Next::Item(Some(Token::RParen)) => Parsed::Done(Ok(seq![]), self.step(k)),
                            Next::Item(_) => self.arg_list(k),
                        };
                        match args {
                            Parsed::Stuck => Parsed::Stuck,
                            Parsed::Done(Err(e), d) => Parsed::Done(Err(e), a + b + c + d),
                            Parsed::Done(Ok(args), d) => match self.static_type(k + d) {
                                Parsed::Stuck => Parsed::Stuck,
                                Parsed::Done(Err(e), f) => Parsed::Done(Err(e), a + b + c + d + f),
                                Parsed::Done(Ok(t), f) => Parsed::Done(
                                    Ok(SignatureView { name, args, ret_type: t }),
                                    a + b + c + d + f,
                                ),
                            },
                        }
                    },
                },
            },
        }
    }

    /// A signature that parses consumes a read-ahead value.
    pub proof fn lemma_signature_progress(self, i: nat)
        ensures
            self.signature(i) matches Parsed::Done(Ok(_), a) ==> i < self.items.len() && a >= 1,
    {
        reveal(Stream::signature);
    }

    /// The statements of a function body up to and including its closing
    /// brace.
    pub open spec fn body(self, i: nat) -> Parsed<Seq<Statement>>
        decreases self.rem(i),
    {
        match self.next_at(i) {
            Next::Halt(_) => Parsed::Stuck,
            Next::Item(Some(Token::RBrace)) => Parsed::Done(Ok(seq![]), self.step(i)),
            Next::Item(_) => match self.statement(i) {
                Parsed::Stuck => Parsed::Stuck,
                Parsed::Done(Err(e), a) => Parsed::Done(Err(e), a),
                Parsed::Done(Ok(st), a) => match self.body(i + a) {
                    Parsed::Done(Ok(rest), b) => Parsed::Done(Ok(seq![st] + rest), a + b),
                    Parsed::Done(Err(e), b) => Parsed::Done(Err(e), a + b),
                    Parsed::Stuck => Parsed::Stuck,
                },
            },
        }
    }

    /// A function: its signature, then its body in braces.
    pub open spec fn function(self, i: nat) -> Parsed<FunctionView> {
        match self.signature(i) {
            Parsed::Stuck => Parsed::Stuck,
            Parsed::Done(Err(e), a) => Parsed::Done(Err(e), a),
            Parsed::Done(Ok(sig), a) => match self.expect(i + a, Token::LBrace) {
                Parsed::Stuck => Parsed::Stuck,
                Parsed::Done(Err(e), b) => Parsed::Done(Err(e), a + b),
                Parsed::Done(Ok(_), b) => match self.body(i + a + b) {
                    Parsed::Stuck => Parsed::Stuck,
                    Parsed::Done(Err(e), c) => Parsed::Done(Err(e), a + b + c),
                    Parsed::Done(Ok(sts), c) => Parsed::Done(
                        Ok(FunctionView { signature: sig, statements: sts }),
                        a + b + c,
                    ),
                },
            },
        }
    }

    /// The functions that follow, as long as the next token is `fn`.
    pub open spec fn functions(self, i: nat) -> Parsed<Seq<FunctionView>>
        decreases self.rem(i),
    {
        match self.next_at(i) {
            Next::Halt(_) => Parsed::Stuck,
            Next::Item(Some(Token::FunctionDef)) => match self.function(i) {
                Parsed::Stuck => Parsed::Stuck,
                Parsed::Done(Err(e), a) => Parsed::Done(Err(e), a),
                Parsed::Done(Ok(f), a) => {
                    proof {
                        self.lemma_signature_progress(i);
                    }
                    match self.functions(i + a) {
                        Parsed::Done(Ok(rest), b) => Parsed::Done(Ok(seq![f] + rest), a + b),
                        Parsed::Done(Err(e), b) => Parsed::Done(Err(e), a + b),
                        Parsed::Stuck => Parsed::Stuck,
                    }
                },
            },
            Next::Item(_) => Parsed::Done(Ok(seq![]), 0),
        }
    }

    /// A program: its imports, then its functions.
    pub open spec fn program(self, i: nat) -> Parsed<ProgramView> {
        match self.imports(i) {
            Parsed::Stuck => Parsed::Stuck,
            Parsed::Done(Err(e), a) => Parsed::Done(Err(e), a),
            Parsed::Done(Ok(imports), a) => match self.functions(i + a) {
                Parsed::Stuck => Parsed::Stuck,
                Parsed::Done(Err(e), b) => Parsed::Done(Err(e), a + b),
                Parsed::Done(Ok(functions), b) => Parsed::Done(
                    Ok(ProgramView { imports, functions }),
                    a + b,
                ),
            },
        }
    }
}

} // verus!
