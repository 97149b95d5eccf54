use vstd::prelude::*;

verus! {

/// An operator of an expression.
#[derive(Debug)]
pub enum Operator {
    Plus,
}

/// An expression.
///
/// A float is held as its decimal text, the way it is printed; its numeric
/// value is a floating-point number, which this library does not compute.
#[derive(Debug)]
pub enum Expression {
    Identifier(String),
    IdentifierChain(Vec<String>),
    String(String),
    Float(String),
    Integer(i64),
    Bool(bool),
    Byte(u8),
    Prefix { op: Operator, exp: Box<Expression> },
    Infix { op: Operator, left: Box<Expression>, right: Box<Expression> },
    Call { caller: Box<Expression>, args: Vec<Expression> },
}

/// A statement of a function body.
#[derive(Debug)]
pub enum Statement {
    Assignment { identifier: String, expression: Expression },
    Reassignment { identifier: String, expression: Expression },
    Expression(Expression),
    Return(Expression),
}

/// A type written in the source.
#[derive(Debug)]
pub enum StaticType {
    Str,
    Float,
    Int,
    Bool,
    Byte,
    Arr { inner: Box<StaticType> },
    Mapping { keys: Box<StaticType>, values: Box<StaticType> },
    Opt { inner: Box<StaticType> },
    Res { inner: Box<StaticType> },
}

/// A parameter of a function: its name and its type.
#[derive(Debug)]
pub struct Argument {
    pub identifier: String,
    pub arg_type: StaticType,
}

#[derive(Debug)]
pub struct FunctionSignature {
    pub name: String,
    pub args: Vec<Argument>,
    pub ret_type: StaticType,
}

#[derive(Debug)]
pub struct Function {
    pub signature: FunctionSignature,
    pub statements: Vec<Statement>,
}

/// An import: the parts of its path.
#[derive(Debug)]
pub struct Import(pub Vec<String>);

#[derive(Debug)]
pub struct Program {
    pub imports: Vec<Import>,
    pub functions: Vec<Function>,
}

/// A function signature with its parameters as a sequence.
pub struct SignatureView {
    pub name: String,
    pub args: Seq<Argument>,
    pub ret_type: StaticType,
}

pub struct FunctionView {
    pub signature: SignatureView,
    pub statements: Seq<Statement>,
}

pub struct ProgramView {
    /// For each import, the text of each part of its path.
    pub imports: Seq<Seq<Seq<char>>>,
    pub functions: Seq<FunctionView>,
}

impl View for FunctionSignature {
    type V = SignatureView;

    open spec fn view(&self) -> SignatureView {
        SignatureView { name: self.name, args: self.args@, ret_type: self.ret_type }
    }
}

impl View for Function {
    type V = FunctionView;

    open spec fn view(&self) -> FunctionView {
        FunctionView { signature: self.signature@, statements: self.statements@ }
    }
}

impl View for Import {
    type V = Seq<Seq<char>>;

    open spec fn view(&self) -> Seq<Seq<char>> {
        self.0@.map_values(|s: String| s@)
    }
}

impl View for Program {
    type V = ProgramView;

    open spec fn view(&self) -> ProgramView {
        ProgramView {
            imports: self.imports@.map_values(|i: Import| i@),
            functions: self.functions@.map_values(|f: Function| f@),
        }
    }
}

} // verus!
