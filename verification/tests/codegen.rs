use alang::ast::{Expression, Import, Operator, Program, Statement};

fn go(e: &Expression) -> String {
    let mut s = String::new();
    e.fmtgo(&mut s);
    s
}

fn b(e: Expression) -> Box<Expression> {
    Box::new(e)
}

#[test]
fn simple_expressions() {
    assert_eq!(go(&Expression::Identifier("x".to_string())), "x");
    assert_eq!(go(&Expression::String("hi".to_string())), "\"hi\"");
    assert_eq!(go(&Expression::Float("1.5".to_string())), "1.5");
    assert_eq!(go(&Expression::Integer(42)), "42");
    assert_eq!(go(&Expression::Integer(-7)), "-7");
    assert_eq!(go(&Expression::Integer(0)), "0");
    assert_eq!(go(&Expression::Integer(i64::MIN)), "-9223372036854775808");
    assert_eq!(go(&Expression::Integer(i64::MAX)), "9223372036854775807");
    assert_eq!(go(&Expression::Bool(true)), "true");
    assert_eq!(go(&Expression::Bool(false)), "false");
    assert_eq!(go(&Expression::Byte(255)), "255");
}

#[test]
fn identifier_chain_is_joined_by_dots() {
    let e = Expression::IdentifierChain(vec!["fmt".to_string(), "Println".to_string()]);
    assert_eq!(go(&e), "fmt.Println");
    assert_eq!(go(&Expression::IdentifierChain(vec![])), "");
}

#[test]
fn operators_and_calls() {
    let sum = Expression::Infix {
        op: Operator::Plus,
        left: b(Expression::Integer(1)),
        right: b(Expression::Identifier("y".to_string())),
    };
    assert_eq!(go(&sum), "(1)+(y)");
    let pre = Expression::Prefix { op: Operator::Plus, exp: b(Expression::Integer(3)) };
    assert_eq!(go(&pre), "+(3)");
    let call = Expression::Call {
        caller: b(Expression::IdentifierChain(vec!["fmt".to_string(), "Println".to_string()])),
        args: vec![Expression::String("a".to_string()), sum, Expression::Bool(true)],
    };
    assert_eq!(go(&call), "fmt.Println(\"a\",(1)+(y),true)");
    let empty = Expression::Call { caller: b(Expression::Identifier("f".to_string())), args: vec![] };
    assert_eq!(go(&empty), "f()");
}

fn go_stmt(s: &Statement) -> String {
    let mut out = String::new();
    s.fmtgo(&mut out);
    out
}

#[test]
fn statements() {
    let a = Statement::Assignment {
        identifier: "a".to_string(),
        expression: Expression::Integer(1),
    };
    assert_eq!(go_stmt(&a), "a := 1;");
    let r = Statement::Reassignment {
        identifier: "a".to_string(),
        expression: Expression::Integer(2),
    };
    assert_eq!(go_stmt(&r), "a = 2;");
    assert_eq!(go_stmt(&Statement::Return(Expression::Bool(false))), "return false;");
    assert_eq!(go_stmt(&Statement::Expression(Expression::Identifier("x".to_string()))), "x;");
}

#[test]
fn imports_and_programs() {
    let mut s = String::new();
    Import(vec!["net".to_string(), "http".to_string()]).fmtgo(&mut s);
    assert_eq!(s, "    \"net/http\"");
    let p = Program {
        imports: vec![Import(vec!["fmt".to_string()]), Import(vec!["os".to_string()])],
        functions: vec![],
    };
    let mut s = String::new();
    p.fmtgo(&mut s);
    assert_eq!(s, "import (\n    \"fmt\"\n    \"os\"\n)\n");
    let mut s = String::new();
    Program { imports: vec![], functions: vec![] }.fmtgo(&mut s);
    assert_eq!(s, "import (\n)\n");
}

#[test]
fn writing_appends() {
    let mut s = "x = ".to_string();
    Expression::Integer(5).fmtgo(&mut s);
    assert_eq!(s, "x = 5");
    let mut s = String::new();
    Operator::Plus.fmtgo(&mut s);
    assert_eq!(s, "+");
}
