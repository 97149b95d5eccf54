use vstd::prelude::*;
use vstd::pervasive::unreached;
use vstd::string::{StringExecFns, StrSliceExecFns};
use crate::token::{Token, ParsingError};
use crate::lexer::{Lexer, Tail, lexes_to};
use crate::ast::{
    Expression, Statement, StaticType, Argument, Import, FunctionSignature, Function, Program,
    FunctionView,
};
use crate::grammar::{
    Next, Parsed, Stream, eof_message, unexpected_message, is_plain, returned, res_view, viewed,
    prefixed, split_path,
};

verus! {

// ---------------------------------------------------------------------------
// Errors, tokens and import paths
// ---------------------------------------------------------------------------

fn eof_error() -> (e: ParsingError)
    ensures
        e.0@ == eof_message(),
{
    ParsingError(String::from_str("unexpected EOF"))
}

fn unexpected_error(t: &Token) -> (e: ParsingError)
    ensures
        e.0@ == unexpected_message(*t),
{
    let mut m = String::from_str("unexpected token: ");
    let text = t.to_debug_string();
    m.append(text.as_str());
    ParsingError(m)
}

fn message_error(s: &str) -> (e: ParsingError)
    ensures
        e.0@ == s@,
{
    ParsingError(String::from_str(s))
}

/// Whether two tokens are equal, the second one holding no text.
fn same_token(a: &Token, b: &Token) -> (r: bool)
    requires
        is_plain(*b),
    ensures
        r == (*a == *b),
{
    match (a, b) {
        (Token::Illegal, Token::Illegal) => true,
        (Token::Assign, Token::Assign) => true,
        (Token::Equals, Token::Equals) => true,
        (Token::Semicolon, Token::Semicolon) => true,
        (Token::Colon, Token::Colon) => true,
        (Token::Comma, Token::Comma) => true,
        (Token::LParen, Token::LParen) => true,
        (Token::RParen, Token::RParen) => true,
        (Token::LBrace, Token::LBrace) => true,
        (Token::RBrace, Token::RBrace) => true,
        (Token::LSqareBracket, Token::LSqareBracket) => true,
        (Token::RSqareBracket, Token::RSqareBracket) => true,
        (Token::FunctionDef, Token::FunctionDef) => true,
        (Token::Return, Token::Return) => true,
        (Token::Use, Token::Use) => true,
        (Token::StrType, Token::StrType) => true,
        (Token::FloatType, Token::FloatType) => true,
        (Token::IntType, Token::IntType) => true,
        (Token::BoolType, Token::BoolType) => true,
        (Token::ByteType, Token::ByteType) => true,
        (Token::ArrayType, Token::ArrayType) => true,
        (Token::MapType, Token::MapType) => true,
        (Token::StructType, Token::StructType) => true,
        (Token::OptType, Token::OptType) => true,
        (Token::ResType, Token::ResType) => true,
        (Token::Int(x), Token::Int(y)) => *x == *y,
        (Token::Bool(x), Token::Bool(y)) => *x == *y,
        _ => false,
    }
}

pub(crate) fn copy_token(t: &Token) -> (r: Token)
    ensures
        r == *t,
{
    match t {
        Token::Illegal => Token::Illegal,
        Token::Assign => Token::Assign,
        Token::Equals => Token::Equals,
        Token::Semicolon => Token::Semicolon,
        Token::Colon => Token::Colon,
        Token::Comma => Token::Comma,
        Token::LParen => Token::LParen,
        Token::RParen => Token::RParen,
        Token::LBrace => Token::LBrace,
        Token::RBrace => Token::RBrace,
        Token::LSqareBracket => Token::LSqareBracket,
        Token::RSqareBracket => Token::RSqareBracket,
        Token::FunctionDef => Token::FunctionDef,
        Token::Return => Token::Return,
        Token::Use => Token::Use,
        Token::StrType => Token::StrType,
        Token::FloatType => Token::FloatType,
        Token::IntType => Token::IntType,
        Token::BoolType => Token::BoolType,
        Token::ByteType => Token::ByteType,
        Token::ArrayType => Token::ArrayType,
        Token::MapType => Token::MapType,
        Token::StructType => Token::StructType,
        Token::OptType => Token::OptType,
        Token::ResType => Token::ResType,
        Token::Ident(s) => Token::Ident(s.clone()),
        Token::String(s) => Token::String(s.clone()),
        Token::Float(s) => Token::Float(s.clone()),
        Token::Int(n) => Token::Int(*n),
        Token::Bool(b) => Token::Bool(*b),
    }
}

/// An import result with each import taken as the parts of its path.
pub open spec fn imports_view(r: Result<Vec<Import>, ParsingError>) -> Result<
    Seq<Seq<Seq<char>>>,
    Seq<char>,
> {
    match r {
        Ok(v) => Ok(v@.map_values(|i: Import| i@)),
        Err(e) => Err(e.0@),
    }
}

/// A result of functions with each function taken by its view.
pub open spec fn functions_view(r: Result<Vec<Function>, ParsingError>) -> Result<
    Seq<FunctionView>,
    Seq<char>,
> {
    match r {
        Ok(v) => Ok(v@.map_values(|f: Function| f@)),
        Err(e) => Err(e.0@),
    }
}

/// Splits a path at its slashes.
fn split_at_slashes(s: &String) -> (r: Vec<String>)
    ensures
        r@.map_values(|x: String| x@) == split_path(s@),
{
    let text = s.as_str();
    let n = text.unicode_len();
    let mut parts: Vec<String> = Vec::new();
    let mut start: usize = 0;
    let mut i: usize = 0;
    assert(s@.subrange(0, 0) =~= Seq::<char>::empty());
    assert(parts@.map_values(|x: String| x@) + seq![s@.subrange(0, 0)] =~= split_path(
        s@.subrange(0, 0),
    ));
    while i < n
        invariant
            text@ == s@,
            n == s@.len(),
            start <= i <= n,
            parts@.map_values(|x: String| x@) + seq![s@.subrange(start as int, i as int)]
                == split_path(s@.subrange(0, i as int)),
        decreases n - i,
    {
        let c = text.get_char(i);
        let ghost prefix = s@.subrange(0, i + 1);
        assert(prefix.drop_last() =~= s@.subrange(0, i as int));
        assert(prefix.last() == c);
        if c == '/' {
            let piece = String::from_str(text.substring_char(start, i));
            let ghost before = parts@.map_values(|x: String| x@);
            parts.push(piece);
            assert(parts@.map_values(|x: String| x@) =~= before + seq![s@.subrange(start as int, i as int)]);
            start = i + 1;
            assert(s@.subrange(start as int, i + 1) =~= Seq::<char>::empty());
        } else {
            let ghost before = parts@.map_values(|x: String| x@);
            let ghost parts_before = split_path(s@.subrange(0, i as int));
            assert(s@.subrange(start as int, i + 1) =~= s@.subrange(start as int, i as int).push(c));
            assert(before + seq![s@.subrange(start as int, i + 1)] =~= parts_before.update(
                parts_before.len() - 1,
                parts_before.last().push(c),
            ));
        }
        i += 1;
    }
    let piece = String::from_str(text.substring_char(start, n));
    let ghost before = parts@.map_values(|x: String| x@);
    parts.push(piece);
    assert(parts@.map_values(|x: String| x@) =~= before + seq![s@.subrange(start as int, n as int)]);
    assert(s@.subrange(0, n as int) =~= s@);
    parts
}

// ---------------------------------------------------------------------------
// The parser
// ---------------------------------------------------------------------------

/// A recursive-descent parser over the tokens of a lexer.
///
/// The tokens are read ahead of the parse up to the point where the lexer
/// stops making progress; from there on the stream repeats what the lexer
/// would give on every further call.
pub struct Parser {
    items: Vec<Option<Token>>,
    tail: Tail,
    pos: usize,
}

impl Parser {
    #[verifier::type_invariant]
    spec fn inv(self) -> bool {
        self.pos <= self.items@.len()
    }

    /// The token stream.
    pub closed spec fn stream(self) -> Stream {
        Stream { items: self.items@, tail: self.tail }
    }

    /// The place of the next token in the stream.
    pub closed spec fn position(self) -> nat {
        self.pos as nat
    }

    pub fn new(l: Lexer) -> (p: Self)
        ensures
            lexes_to(l.bytes(), l.position(), p.stream().items, p.stream().tail),
            p.position() == 0,
    {
        let (items, tail) = l.drain();
        Parser { items, tail, pos: 0 }
    }

    pub fn from_source(src: &[u8]) -> (p: Self)
        ensures
            lexes_to(src@, 0, p.stream().items, p.stream().tail),
            p.position() == 0,
    {
        Self::new(Lexer::new(src))
    }

    /// A parser over the given tokens, followed by the end of the input.
    pub fn from_tokens(tokens: Vec<Token>) -> (p: Self)
        ensures
            p.stream().items == tokens@.map_values(|t: Token| Some(t)),
            p.stream().tail == Tail::Repeat(None),
            p.position() == 0,
    {
        let mut items: Vec<Option<Token>> = Vec::new();
        let rest = tokens;
        let ghost all = rest@;
        let mut i: usize = 0;
        let n = rest.len();
        while i < n
            invariant
                n == all.len(),
                i <= n,
                items@ == all.subrange(0, i as int).map_values(|t: Token| Some(t)),
                rest@ == all,
            decreases n - i,
        {
            let t = copy_token(&rest[i]);
            items.push(Some(t));
            i += 1;
            assert(items@ =~= all.subrange(0, i as int).map_values(|t: Token| Some(t)));
        }
        assert(all.subrange(0, n as int) =~= all);
        Parser { items, tail: Tail::Repeat(None), pos: 0 }
    }

    /// What the stream gives after the values read ahead: `Repeat(None)`
    /// when the input ends, `Repeat(Some(t))` when the lexer would give `t`
    /// for ever, and `Unexpected(b)` when it would panic on the byte `b`.
    /// Only in the last two cases can a parse fail to return on account of
    /// the lexer.
    pub fn tail(&self) -> (r: Tail)
        ensures
            r == self.stream().tail,
    {
        match &self.tail {
            Tail::Repeat(None) => Tail::Repeat(None),
            Tail::Repeat(Some(t)) => Tail::Repeat(Some(copy_token(t))),
            Tail::Unexpected(b) => Tail::Unexpected(*b),
        }
    }

    fn peek_token(&self) -> (r: Option<&Token>)
        requires
            self.stream().next_at(self.position()) is Item,
        ensures
            match r {
                Some(t) => self.stream().next_at(self.position()) == Next::Item(Some(*t)),
                None => self.stream().next_at(self.position()) == Next::Item(None),
            },
    {
        proof {
            use_type_invariant(self);
        }
        if self.pos < self.items.len() {
            self.items[self.pos].as_ref()
        } else {
            match &self.tail {
                Tail::Repeat(t) => t.as_ref(),
                Tail::Unexpected(_) => unreached(),
            }
        }
    }

    fn read_token(&mut self) -> (r: Option<Token>)
        requires
            old(self).stream().next_at(old(self).position()) is Item,
        ensures
            final(self).stream() == old(self).stream(),
            final(self).position() == old(self).position() + old(self).stream().step(old(self).position()),
            old(self).stream().next_at(old(self).position()) == Next::Item(r),
    {
        proof {
            use_type_invariant(&*self);
        }
        let r = match self.peek_token() {
            Some(t) => Some(copy_token(t)),
            None => None,
        };
        if self.pos < self.items.len() {
            self.pos += 1;
        }
        r
    }

    fn expect(&mut self, token: Token) -> (r: Result<Token, ParsingError>)
        requires
            is_plain(token),
            old(self).stream().expect(old(self).position(), token) is Done,
        ensures
            final(self).stream() == old(self).stream(),
            returned(
                old(self).stream().expect(old(self).position(), token),
                res_view(r),
                old(self).position(),
                final(self).position(),
            ),
    {
        match self.read_token() {
            Some(t) => if same_token(&t, &token) {
                Ok(t)
            } else {
                Err(unexpected_error(&t))
            },
            None => Err(eof_error()),
        }
    }

    /// Reads an identifier and gives its name.
    fn expect_ident(&mut self) -> (r: Result<String, ParsingError>)
        requires
            old(self).stream().ident(old(self).position()) is Done,
        ensures
            final(self).stream() == old(self).stream(),
            returned(
                old(self).stream().ident(old(self).position()),
                res_view(r),
                old(self).position(),
                final(self).position(),
            ),
    {
        match self.read_token() {
            Some(Token::Ident(s)) => Ok(s),
            Some(other) => Err(unexpected_error(&other)),
            None => Err(eof_error()),
        }
    }

    pub fn parse_identifier(&mut self) -> (r: Result<Expression, ParsingError>)
        requires
            old(self).stream().identifier(old(self).position()) is Done,
        ensures
            final(self).stream() == old(self).stream(),
            returned(
                old(self).stream().identifier(old(self).position()),
                res_view(r),
                old(self).position(),
                final(self).position(),
            ),
    {
        Ok(Expression::Identifier(self.expect_ident()?))
    }


    /// Reads the tokens up to the next semicolon, which it consumes.
    pub fn statement_tokens(&mut self) -> (r: Result<Vec<Token>, ParsingError>)
        requires
            old(self).stream().statement_tokens(old(self).position()) is Done,
        ensures
            final(self).stream() == old(self).stream(),
            returned(
                old(self).stream().statement_tokens(old(self).position()),
                viewed(r),
                old(self).position(),
                final(self).position(),
            ),
    {
        let ghost s = self.stream();
        let ghost start = self.position();
        let mut tokens: Vec<Token> = Vec::new();
        loop
            invariant
                s == old(self).stream(),
                start == old(self).position(),
                self.stream() == s,
                start <= self.position(),
                s.statement_tokens(self.position()) is Done,
                s.statement_tokens(start) == prefixed(
                    s.statement_tokens(self.position()),
                    tokens@,
                    (self.position() - start) as nat,
                ),
            decreases s.rem(self.position()),
        {
            let ghost i = self.position();
            let t = match self.read_token() {
                Some(t) => t,
                None => return Err(eof_error()),
            };
            if let Token::Semicolon = t {
                assert(tokens@ + seq![] =~= tokens@);
                return Ok(tokens);
            }
            let ghost before = tokens@;
            tokens.push(t);
            assert(tokens@ =~= before + seq![t]);
            assert forall|ts: Seq<Token>| #[trigger] (before + (seq![t] + ts)) =~= tokens@ + ts by {}
        }
    }

    /// Parses a statement.
    ///
    /// Every statement that goes on past a leading identifier needs the
    /// expression parser, which is not written yet; the contract leaves
    /// those inputs out.
    pub fn parse_statement(&mut self) -> (r: Result<Statement, ParsingError>)
        requires
            old(self).stream().statement(old(self).position()) is Done,
        ensures
            final(self).stream() == old(self).stream(),
            returned(
                old(self).stream().statement(old(self).position()),
                res_view(r),
                old(self).position(),
                final(self).position(),
            ),
    {
        match self.peek_token() {
            None => return Err(eof_error()),
            Some(Token::Ident(_)) => {},
            Some(_) => return unreached(),
        }
        let _identifier = self.expect_ident()?;
        match self.peek_token() {
            None => Err(eof_error()),
            Some(_) => unreached(),
        }
    }

    /// Parses the imports at the start of a program.
    pub fn parse_imports(&mut self) -> (r: Result<Vec<Import>, ParsingError>)
        requires
            old(self).stream().imports(old(self).position()) is Done,
        ensures
            final(self).stream() == old(self).stream(),
            returned(
                old(self).stream().imports(old(self).position()),
                imports_view(r),
                old(self).position(),
                final(self).position(),
            ),
    {
        let ghost s = self.stream();
        let ghost start = self.position();
        let mut imports: Vec<Import> = Vec::new();
        loop
            invariant
                s == old(self).stream(),
                start == old(self).position(),
                self.stream() == s,
                start <= self.position(),
                s.imports(self.position()) is Done,
                s.imports(start) == prefixed(
                    s.imports(self.position()),
                    imports@.map_values(|i: Import| i@),
                    (self.position() - start) as nat,
                ),
            decreases s.rem(self.position()),
        {
            match self.peek_token() {
                Some(Token::Use) => {},
                _ => {
                    assert(imports@.map_values(|i: Import| i@) + seq![] =~= imports@.map_values(
                        |i: Import| i@,
                    ));
                    return Ok(imports);
                },
            }
            let _ = self.read_token();
            match self.read_token() {
                Some(Token::String(s)) => {
                    let split = split_at_slashes(&s);
                    let ghost before = imports@.map_values(|i: Import| i@);
                    imports.push(Import(split));
                    assert(imports@.map_values(|i: Import| i@) =~= before + seq![split_path(s@)]);
                    assert forall|rest: Seq<Seq<Seq<char>>>|
                        #[trigger] (before + (seq![split_path(s@)] + rest)) =~= imports@.map_values(
                            |i: Import| i@,
                        ) + rest by {}
                },
                _ => return Err(message_error("expected string")),
            }
            match self.expect(Token::Semicolon) {
                Ok(_) => {},
                Err(e) => return Err(e),
            }
        }
    }

    /// Parses a type.
    #[verifier::spinoff_prover]
    #[verifier::rlimit(100)]
    pub fn parse_type(&mut self) -> (r: Result<StaticType, ParsingError>)
        requires
            old(self).stream().static_type(old(self).position()) is Done,
        ensures
            final(self).stream() == old(self).stream(),
            returned(
                old(self).stream().static_type(old(self).position()),
                res_view(r),
                old(self).position(),
                final(self).position(),
            ),
        decreases old(self).stream().rem(old(self).position()),
    {
        proof {
            reveal(Stream::static_type);
        }
        let t = match self.read_token() {
            Some(t) => t,
            None => return Err(eof_error()),
        };
        match t {
            Token::StrType => Ok(StaticType::Str),
            Token::FloatType => Ok(StaticType::Float),
            Token::IntType => Ok(StaticType::Int),
            Token::BoolType => Ok(StaticType::Bool),
            Token::ByteType => Ok(StaticType::Byte),
            Token::ArrayType | Token::OptType | Token::ResType => {
                // the parameter of the type, in square brackets
                self.expect(Token::LSqareBracket)?;
                let inner = self.parse_type()?;
                self.expect(Token::RSqareBracket)?;
                Ok(
                    match t {
                        Token::ArrayType => StaticType::Arr { inner: Box::new(inner) },
                        Token::OptType => StaticType::Opt { inner: Box::new(inner) },
                        _ => StaticType::Res { inner: Box::new(inner) },
                    },
                )
            },
            Token::MapType => {
                self.expect(Token::LSqareBracket)?;
                let k = self.parse_type()?;
                self.expect(Token::Comma)?;
                let v = self.parse_type()?;
                self.expect(Token::RSqareBracket)?;
                Ok(StaticType::Mapping { keys: Box::new(k), values: Box::new(v) })
            },
            // struct types are not written yet
            Token::StructType => unreached(),
            _ => Err(message_error("expected type")),
        }
    }

    /// Parses a parameter: its name, then its type.
    pub fn parse_argument(&mut self) -> (r: Result<Argument, ParsingError>)
        requires
            old(self).stream().argument(old(self).position()) is Done,
        ensures
            final(self).stream() == old(self).stream(),
            returned(
                old(self).stream().argument(old(self).position()),
                res_view(r),
                old(self).position(),
                final(self).position(),
            ),
    {
        let name = self.expect_ident()?;
        let tp = self.parse_type()?;
        Ok(Argument { identifier: name, arg_type: tp })
    }


    /// Parses the parameters after an opening parenthesis, up to and
    /// including the closing one, when there is at least one.
    fn parse_arg_list(&mut self) -> (r: Result<Vec<Argument>, ParsingError>)
        requires
            old(self).stream().arg_list(old(self).position()) is Done,
        ensures
            final(self).stream() == old(self).stream(),
            returned(
                old(self).stream().arg_list(old(self).position()),
                viewed(r),
                old(self).position(),
                final(self).position(),
            ),
    {
        let ghost s = self.stream();
        let ghost k = self.position();
        let mut args: Vec<Argument> = Vec::new();
        loop
            invariant
                s == old(self).stream(),
                k == old(self).position(),
                self.stream() == s,
                k <= self.position(),
                s.arg_list(self.position()) is Done,
                s.arg_list(k) == prefixed(s.arg_list(self.position()), args@, (self.position() - k) as nat),
            decreases s.rem(self.position()),
        {
            let arg_name = self.expect_ident()?;
            let arg_type = self.parse_type()?;
            let ghost before = args@;
            let arg = Argument { identifier: arg_name, arg_type };
            args.push(arg);
            assert(args@ =~= before + seq![arg]);
            match self.read_token() {
                None => return Err(eof_error()),
                Some(Token::Comma) => {
                    assert forall|rest: Seq<Argument>|
                        #[trigger] (before + (seq![arg] + rest)) =~= args@ + rest by {}
                },
                Some(Token::RParen) => {
                    assert(args@ + seq![] =~= args@);
                    return Ok(args);
                },
                Some(t) => return Err(unexpected_error(&t)),
            }
        }
    }

    /// Parses a function signature: `fn`, the name, the parameters in
    /// parentheses, then the return type.
    pub fn parse_function_signature(&mut self) -> (r: Result<FunctionSignature, ParsingError>)
        requires
            old(self).stream().signature(old(self).position()) is Done,
        ensures
            final(self).stream() == old(self).stream(),
            returned(
                old(self).stream().signature(old(self).position()),
                viewed(r),
                old(self).position(),
                final(self).position(),
            ),
    {
        proof {
            reveal(Stream::signature);
        }
        self.expect(Token::FunctionDef)?;
        let name = self.expect_ident()?;
        self.expect(Token::LParen)?;
        if let Some(Token::RParen) = self.peek_token() {
            let _ = self.read_token();
            return Ok(FunctionSignature { name, args: Vec::new(), ret_type: self.parse_type()? });
        }
        let args = self.parse_arg_list()?;
        Ok(FunctionSignature { name, args, ret_type: self.parse_type()? })
    }

    /// Parses the statements of a function body up to and including its
    /// closing brace.
    fn parse_body(&mut self) -> (r: Result<Vec<Statement>, ParsingError>)
        requires
            old(self).stream().body(old(self).position()) is Done,
        ensures
            final(self).stream() == old(self).stream(),
            returned(
                old(self).stream().body(old(self).position()),
                viewed(r),
                old(self).position(),
                final(self).position(),
            ),
    {
        let ghost s = self.stream();
        let ghost k = self.position();
        let mut statements: Vec<Statement> = Vec::new();
        loop
            invariant
                s == old(self).stream(),
                k == old(self).position(),
                self.stream() == s,
                k <= self.position(),
                s.body(self.position()) is Done,
                s.body(k) == prefixed(s.body(self.position()), statements@, (self.position() - k) as nat),
            decreases s.rem(self.position()),
        {
            if let Some(Token::RBrace) = self.peek_token() {
                let _ = self.read_token();
                assert(statements@ + seq![] =~= statements@);
                return Ok(statements);
            }
            let st = self.parse_statement()?;
            statements.push(st);
        }
    }

    /// Parses a function: its signature, then its body in braces.
    pub fn parse_function(&mut self) -> (r: Result<Function, ParsingError>)
        requires
            old(self).stream().function(old(self).position()) is Done,
        ensures
            final(self).stream() == old(self).stream(),
            returned(
                old(self).stream().function(old(self).position()),
                viewed(r),
                old(self).position(),
                final(self).position(),
            ),
    {
        let signature = self.parse_function_signature()?;
        self.expect(Token::LBrace)?;
        if let Some(Token::RBrace) = self.peek_token() {
            let _ = self.read_token();
            return Ok(Function { signature, statements: Vec::new() });
        }
        let statements = self.parse_body()?;
        Ok(Function { signature, statements })
    }

    /// Parses the functions that follow, as long as the next token is `fn`.
    pub fn parse_functions(&mut self) -> (r: Result<Vec<Function>, ParsingError>)
        requires
            old(self).stream().functions(old(self).position()) is Done,
        ensures
            final(self).stream() == old(self).stream(),
            returned(
                old(self).stream().functions(old(self).position()),
                functions_view(r),
                old(self).position(),
                final(self).position(),
            ),
    {
        let ghost s = self.stream();
        let ghost start = self.position();
        let mut functions: Vec<Function> = Vec::new();
        loop
            invariant
                s == old(self).stream(),
                start == old(self).position(),
                self.stream() == s,
                start <= self.position(),
                s.functions(self.position()) is Done,
                s.functions(start) == prefixed(
                    s.functions(self.position()),
                    functions@.map_values(|f: Function| f@),
                    (self.position() - start) as nat,
                ),
            decreases s.rem(self.position()),
        {
            match self.peek_token() {
                Some(Token::FunctionDef) => {},
                _ => {
                    assert(functions@.map_values(|f: Function| f@) + seq![] =~= functions@.map_values(
                        |f: Function| f@,
                    ));
                    return Ok(functions);
                },
            }
            let f = self.parse_function()?;
            let ghost fv = f@;
            let ghost before = functions@.map_values(|f: Function| f@);
            functions.push(f);
            assert(functions@.map_values(|f: Function| f@) =~= before + seq![fv]);
            assert forall|rest: Seq<FunctionView>|
                #[trigger] (before + (seq![fv] + rest)) =~= functions@.map_values(|f: Function| f@)
                    + rest by {}
        }
    }

    /// Parses a program: its imports, then its functions.
    pub fn parse_program(&mut self) -> (r: Result<Program, ParsingError>)
        requires
            old(self).stream().program(old(self).position()) is Done,
        ensures
            final(self).stream() == old(self).stream(),
            returned(
                old(self).stream().program(old(self).position()),
                viewed(r),
                old(self).position(),
                final(self).position(),
            ),
    {
        Ok(Program { imports: self.parse_imports()?, functions: self.parse_functions()? })
    }

}

} // verus!
