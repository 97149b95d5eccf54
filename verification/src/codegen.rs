use vstd::prelude::*;
use vstd::string::StringExecFns;
use crate::ast::{Expression, Import, Operator, Program, Statement};
use crate::text::{int_text, write_int};

verus! {

// ---------------------------------------------------------------------------
// The Go text of the syntax tree
// ---------------------------------------------------------------------------

/// The pieces put one after the other with `sep` between each two.
pub open spec fn join(parts: Seq<Seq<char>>, sep: Seq<char>) -> Seq<char>
    decreases parts.len(),
{
    if parts.len() == 0 {
        Seq::empty()
    } else if parts.len() == 1 {
        parts[0]
    } else {
        join(parts.drop_last(), sep) + sep + parts.last()
    }
}

pub open spec fn go_operator(op: Operator) -> Seq<char> {
    match op {
        Operator::Plus => "+"@,
    }
}

/// The Go text of an expression.
pub open spec fn go_expr(e: Expression) -> Seq<char>
    decreases e, 0nat,
{
    match e {
        Expression::Identifier(x) => x@,
        Expression::IdentifierChain(xs) => join(xs@.map_values(|s: String| s@), "."@),
        Expression::String(x) => "\""@ + x@ + "\""@,
        Expression::Float(x) => x@,
        Expression::Integer(n) => int_text(n as int),
        Expression::Bool(b) => if b {
            "true"@
        } else {
            "false"@
        },
        Expression::Byte(b) => int_text(b as int),
        Expression::Prefix { op, exp } => go_operator(op) + "("@ + go_expr(*exp) + ")"@,
        Expression::Infix { op, left, right } => "("@ + go_expr(*left) + ")"@
            + go_operator(op) + "("@ + go_expr(*right) + ")"@,
        Expression::Call { caller, args } => {
            proof {
                assert(decreases_to!(e => args));
            }
            go_expr(*caller) + "("@ + go_args(args@) + ")"@
        },
    }
}

/// The Go text of call arguments, separated by commas.
pub open spec fn go_args(args: Seq<Expression>) -> Seq<char>
    decreases args, 1nat,
{
    if args.len() == 0 {
        Seq::empty()
    } else if args.len() == 1 {
        go_expr(args[0])
    } else {
        go_args(args.drop_last()) + ","@ + go_expr(args.last())
    }
}

/// The Go text of a statement.
pub open spec fn go_statement(s: Statement) -> Seq<char> {
    match s {
        Statement::Assignment { identifier, expression } => identifier@ + " := "@ + go_expr(
            expression,
        ) + ";"@,
        Statement::Return(expression) => "return "@ + go_expr(expression) + ";"@,
        Statement::Reassignment { identifier, expression } => identifier@ + " = "@ + go_expr(
            expression,
        ) + ";"@,
        Statement::Expression(expression) => go_expr(expression) + ";"@,
    }
}

/// The Go text of an import: its path, in quotes, indented.
pub open spec fn go_import(parts: Seq<Seq<char>>) -> Seq<char> {
    "    \""@ + join(parts, "/"@) + "\""@
}

/// The Go text of the import lines.
pub open spec fn go_import_lines(imports: Seq<Seq<Seq<char>>>) -> Seq<char>
    decreases imports.len(),
{
    if imports.len() == 0 {
        Seq::empty()
    } else {
        go_import_lines(imports.drop_last()) + go_import(imports.last()) + "\n"@
    }
}

/// The Go text of a program without functions: its import block.
pub open spec fn go_program(imports: Seq<Seq<Seq<char>>>) -> Seq<char> {
    "import (\n"@ + go_import_lines(imports) + ")\n"@
}

// ---------------------------------------------------------------------------
// Writing the text
// ---------------------------------------------------------------------------

/// Writes the pieces with `sep` between each two.
fn write_joined(f: &mut String, parts: &Vec<String>, sep: &str)
    ensures
        final(f)@ == old(f)@ + join(parts@.map_values(|s: String| s@), sep@),
{
    let ghost all = parts@.map_values(|s: String| s@);
    let mut i: usize = 0;
    while i < parts.len()
        invariant
            i <= parts@.len(),
            all == parts@.map_values(|s: String| s@),
            f@ == old(f)@ + join(all.take(i as int), sep@),
        decreases parts@.len() - i,
    {
        assert(all.take(i + 1).drop_last() =~= all.take(i as int));
        if i > 0 {
            f.append(sep);
        }
        f.append(parts[i].as_str());
        proof {
            if i == 0 {
                assert(join(all.take(0), sep@) =~= Seq::<char>::empty());
            }
        }
        i += 1;
    }
    assert(all.take(parts@.len() as int) =~= all);
}

impl Operator {
    pub fn fmtgo(&self, f: &mut String)
        ensures
            final(f)@ == old(f)@ + go_operator(*self),
    {
        match self {
            Operator::Plus => f.append("+"),
        }
    }
}

impl Expression {
    /// Writes the Go text of the expression.
    pub fn fmtgo(&self, f: &mut String)
        ensures
            final(f)@ == old(f)@ + go_expr(*self),
        decreases self,
    {
        match self {
            Expression::Identifier(x) => f.append(x.as_str()),
            Expression::IdentifierChain(xs) => write_joined(f, xs, "."),
            Expression::String(x) => {
                f.append("\"");
                f.append(x.as_str());
                f.append("\"");
            },
            Expression::Float(x) => f.append(x.as_str()),
            Expression::Integer(x) => write_int(f, *x),
            Expression::Bool(x) => if *x {
                f.append("true")
            } else {
                f.append("false")
            },
            Expression::Byte(x) => write_int(f, *x as i64),
            Expression::Prefix { op, exp } => {
                op.fmtgo(f);
                f.append("(");
                exp.fmtgo(f);
                f.append(")");
            },
            Expression::Infix { op, left, right } => {
                f.append("(");
                left.fmtgo(f);
                f.append(")");
                op.fmtgo(f);
                f.append("(");
                right.fmtgo(f);
                f.append(")");
            },
            Expression::Call { caller, args } => {
                caller.fmtgo(f);
                f.append("(");
                let ghost start = f@;
                let mut i: usize = 0;
                assert forall|j: int| 0 <= j < args@.len() implies decreases_to!(*self => #[trigger] args@[j]) by {
                    assert(decreases_to!(*self => *args));
                    assert(decreases_to!(*args => args@));
                    assert(decreases_to!(args@ => args@[j]));
                }
                while i < args.len()
                    invariant
                        forall|j: int| 0 <= j < args@.len() ==> decreases_to!(*self => #[trigger] args@[j]),
                        i <= args@.len(),
                        f@ == start + go_args(args@.take(i as int)),
                    decreases args@.len() - i,
                {
                    assert(args@.take(i + 1).drop_last() =~= args@.take(i as int));
                    if i > 0 {
                        f.append(",");
                    }
                    args[i].fmtgo(f);
                    proof {
                        if i == 0 {
                            assert(args@.take(1) =~= seq![args@[0]]);
                        }
                    }
                    i += 1;
                }
                assert(args@.take(args@.len() as int) =~= args@);
                f.append(")");
            },
        }
    }
}

impl Statement {
    /// Writes the Go text of the statement.
    pub fn fmtgo(&self, f: &mut String)
        ensures
            final(f)@ == old(f)@ + go_statement(*self),
    {
        match self {
            Statement::Assignment { identifier, expression } => {
                f.append(identifier.as_str());
                f.append(" := ");
                expression.fmtgo(f);
                f.append(";");
            },
            Statement::Return(expression) => {
                f.append("return ");
                expression.fmtgo(f);
                f.append(";");
            },
            Statement::Reassignment { identifier, expression } => {
                f.append(identifier.as_str());
                f.append(" = ");
                expression.fmtgo(f);
                f.append(";");
            },
            Statement::Expression(expression) => {
                expression.fmtgo(f);
                f.append(";");
            },
        }
    }
}

impl Import {
    /// Writes the Go text of the import.
    pub fn fmtgo(&self, f: &mut String)
        ensures
            final(f)@ == old(f)@ + go_import(self@),
    {
        f.append("    \"");
        write_joined(f, &self.0, "/");
        f.append("\"");
    }
}

impl Program {
    /// Writes the Go text of the program.
    ///
    /// Writing a function is not written yet, so the program must have none.
    pub fn fmtgo(&self, f: &mut String)
        requires
            self.functions@.len() == 0,
        ensures
            final(f)@ == old(f)@ + go_program(self@.imports),
    {
        f.append("import (\n");
        let ghost start = f@;
        let ghost all = self@.imports;
        let mut i: usize = 0;
        while i < self.imports.len()
            invariant
                i <= self.imports@.len(),
                all == self@.imports,
                all.len() == self.imports@.len(),
                f@ == start + go_import_lines(all.take(i as int)),
            decreases self.imports@.len() - i,
        {
            assert(all.take(i + 1).drop_last() =~= all.take(i as int));
            assert(all[i as int] == self.imports@[i as int]@);
            self.imports[i].fmtgo(f);
            f.append("\n");
            i += 1;
        }
        assert(all.take(self.imports@.len() as int) =~= all);
        f.append(")\n");
    }
}

} // verus!
