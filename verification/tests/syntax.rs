use sunwave::args::parse;
use sunwave::ast::{Access, Expr, Statement};
use sunwave::context::SunwaveContext;
use sunwave::host::{Comparison, Host, ImportTarget, NumOp, SourceLoad};
use sunwave::parser::{parse_expr, parse_index, parse_math_file, parse_statements, trim_str, NodeKind, ParseNode};
use sunwave::text::{split_path, usize_text};
use sunwave::value::Value;

fn node(kind: NodeKind, text: &str, children: Vec<ParseNode>) -> ParseNode {
    ParseNode { kind, text: text.to_string(), number: 0, children }
}

fn leaf(kind: NodeKind, text: &str) -> ParseNode {
    node(kind, text, vec![])
}

fn number(x: f64) -> ParseNode {
    ParseNode { kind: NodeKind::Number, text: format!("{}", x), number: x.to_bits(), children: vec![] }
}

fn op(kind: NodeKind, text: &str) -> ParseNode {
    leaf(kind, text)
}

/// An expression node over the operand/operator list `items`.
fn expr(items: Vec<ParseNode>) -> ParseNode {
    node(NodeKind::Expr, "", items)
}

/// Writes an expression back with full parentheses.
fn show(e: &Expr) -> String {
    match e {
        Expr::Number(b) => format!("{}", f64::from_bits(*b)),
        Expr::Variable(n) => n.clone(),
        Expr::Binary { lhs, op, rhs } => format!("({} {} {})", show(lhs), op, show(rhs)),
        Expr::Call { callee, args } => {
            format!("{}({})", show(callee), args.iter().map(show).collect::<Vec<_>>().join(", "))
        },
        Expr::MemberAccess(base, path) => {
            let steps: Vec<String> = path
                .iter()
                .map(|a| match a {
                    Access::Name(n) => n.clone(),
                    Access::Index(i) => i.to_string(),
                })
                .collect();
            format!("{}.{}", show(base), steps.join("."))
        },
        other => format!("{:?}", other),
    }
}

#[test]
fn multiplication_binds_tighter_than_addition() {
    // 1 + 2 * 3
    let e = expr(vec![
        number(1.0),
        op(NodeKind::AddOp, "+"),
        number(2.0),
        op(NodeKind::MulOp, "*"),
        number(3.0),
    ]);
    assert_eq!(show(&parse_expr(&e).unwrap()), "(1 + (2 * 3))");
}

#[test]
fn subtraction_groups_to_the_left() {
    // 8 - 4 - 2
    let e = expr(vec![number(8.0), op(NodeKind::AddOp, "-"), number(4.0), op(NodeKind::AddOp, "-"), number(2.0)]);
    assert_eq!(show(&parse_expr(&e).unwrap()), "((8 - 4) - 2)");
}

#[test]
fn power_groups_to_the_right() {
    // 2 ^ 3 ^ 2
    let e = expr(vec![number(2.0), op(NodeKind::PowOp, "^"), number(3.0), op(NodeKind::PowOp, "^"), number(2.0)]);
    assert_eq!(show(&parse_expr(&e).unwrap()), "(2 ^ (3 ^ 2))");
}

#[test]
fn comparison_binds_loosest() {
    // a + 1 > b * 2 ^ c
    let e = expr(vec![
        leaf(NodeKind::Ident, "a"),
        op(NodeKind::AddOp, "+"),
        number(1.0),
        op(NodeKind::CompareOp, ">"),
        leaf(NodeKind::Ident, "b"),
        op(NodeKind::MulOp, "*"),
        number(2.0),
        op(NodeKind::PowOp, "^"),
        leaf(NodeKind::Ident, "c"),
    ]);
    assert_eq!(show(&parse_expr(&e).unwrap()), "((a + 1) > (b * (2 ^ c)))");
}

#[test]
fn operator_list_must_alternate() {
    let e = expr(vec![number(1.0), op(NodeKind::AddOp, "+")]);
    assert!(parse_expr(&e).is_none());
    let e2 = expr(vec![]);
    assert!(parse_expr(&e2).is_none());
}

#[test]
fn identifiers_are_trimmed() {
    let e = expr(vec![leaf(NodeKind::Ident, "  x \t")]);
    assert_eq!(show(&parse_expr(&e).unwrap()), "x");
}

#[test]
fn primary_with_member_and_call_suffixes() {
    // m.f(1, 2).0
    let atom = node(NodeKind::Atom, "", vec![leaf(NodeKind::Ident, "m")]);
    let dot_f = node(NodeKind::DotAccess, ".f", vec![leaf(NodeKind::Ident, "f")]);
    let args = node(
        NodeKind::CallArgs,
        "(1, 2)",
        vec![node(NodeKind::Other, "", vec![expr(vec![number(1.0)]), expr(vec![number(2.0)])])],
    );
    let dot_0 = node(NodeKind::DotAccess, ".0", vec![leaf(NodeKind::TupleIndex, "0")]);
    let primary = node(NodeKind::Primary, "", vec![atom, dot_f, args, dot_0]);
    let e = expr(vec![primary]);
    assert_eq!(show(&parse_expr(&e).unwrap()), "m.f(1, 2).0");
}

#[test]
fn consecutive_member_steps_share_one_access() {
    // a.b.c
    let primary = node(
        NodeKind::Primary,
        "",
        vec![
            leaf(NodeKind::Ident, "a"),
            node(NodeKind::DotAccess, "", vec![leaf(NodeKind::Ident, "b")]),
            node(NodeKind::DotAccess, "", vec![leaf(NodeKind::Ident, "c")]),
        ],
    );
    match parse_expr(&expr(vec![primary])).unwrap() {
        Expr::MemberAccess(base, path) => {
            assert!(matches!(*base, Expr::Variable(ref n) if n == "a"));
            assert_eq!(path.len(), 2);
        },
        other => panic!("unexpected {:?}", other),
    }
}

#[test]
fn lambda_with_arguments() {
    // |x, y| x
    let ids = node(NodeKind::IdList, "x, y", vec![leaf(NodeKind::Ident, "x"), leaf(NodeKind::Ident, "y")]);
    let lam = node(NodeKind::Lambda, "", vec![ids, expr(vec![leaf(NodeKind::Ident, "x")])]);
    let primary = node(NodeKind::Primary, "", vec![lam]);
    match parse_expr(&expr(vec![primary])).unwrap() {
        Expr::Lambda { args, .. } => assert_eq!(args, vec!["x".to_string(), "y".to_string()]),
        other => panic!("unexpected {:?}", other),
    }
}

#[test]
fn loop_without_body_is_rejected() {
    let lp = node(NodeKind::LoopExpr, "", vec![]);
    let primary = node(NodeKind::Primary, "", vec![lp]);
    assert!(parse_expr(&expr(vec![primary])).is_none());
}

#[test]
fn block_keeps_last_expression_as_value() {
    // { 1; 2 }  ->  statements [Expression(1, suppressed)], value 2
    let blk = node(NodeKind::Block, "", vec![expr(vec![number(1.0)]), expr(vec![number(2.0)])]);
    let primary = node(NodeKind::Primary, "", vec![blk]);
    match parse_expr(&expr(vec![primary])).unwrap() {
        Expr::Block { statements, ret } => {
            assert_eq!(statements.len(), 1);
            assert!(matches!(statements[0], Statement::Expression(_, true)));
            assert_eq!(show(&ret), "2");
        },
        other => panic!("unexpected {:?}", other),
    }
}

#[test]
fn empty_block_has_value_zero() {
    let blk = node(NodeKind::Block, "", vec![]);
    let primary = node(NodeKind::Primary, "", vec![blk]);
    match parse_expr(&expr(vec![primary])).unwrap() {
        Expr::Block { statements, ret } => {
            assert!(statements.is_empty());
            assert_eq!(show(&ret), "0");
        },
        other => panic!("unexpected {:?}", other),
    }
}

fn line(main: ParseNode, suppressed: bool) -> ParseNode {
    let mut children = vec![main];
    if suppressed {
        children.push(leaf(NodeKind::Suppress, ";"));
    }
    node(NodeKind::Line, "", children)
}

#[test]
fn statements_of_a_file() {
    // t.1 := 5;   import "std/math"   x
    let lvalue = node(
        NodeKind::Lvalue,
        "t.1",
        vec![leaf(NodeKind::Ident, "t"), node(NodeKind::DotAccess, ".1", vec![leaf(NodeKind::TupleIndex, "1")])],
    );
    let asg = node(NodeKind::Assignment, "", vec![lvalue, expr(vec![number(5.0)])]);
    let imp = node(NodeKind::Import, "", vec![node(NodeKind::Other, "\"std/math\"", vec![leaf(NodeKind::Other, "std/math")])]);
    let file = node(
        NodeKind::File,
        "",
        vec![line(asg, true), line(imp, false), line(expr(vec![leaf(NodeKind::Ident, "x")]), false), leaf(NodeKind::Eoi, "")],
    );
    let stmts = parse_math_file(&vec![file]).unwrap();
    assert_eq!(stmts.len(), 3);
    match &stmts[0] {
        Statement::Assignment(n, path, _, suppressed) => {
            assert_eq!(n, "t");
            assert!(matches!(path[0], Access::Index(1)));
            assert!(*suppressed);
        },
        other => panic!("unexpected {:?}", other),
    }
    assert!(matches!(&stmts[1], Statement::Import(p) if p == "std/math"));
    assert!(matches!(&stmts[2], Statement::Expression(_, false)));
}

#[test]
fn statements_stop_at_end_of_input() {
    let file = node(
        NodeKind::File,
        "",
        vec![leaf(NodeKind::Eoi, ""), line(expr(vec![number(1.0)]), false)],
    );
    assert_eq!(parse_statements(&file, 0).unwrap().len(), 0);
}

#[test]
fn module_statement_has_its_body() {
    let body_line = line(node(NodeKind::Export, "", vec![leaf(NodeKind::Ident, "v")]), true);
    let module = node(NodeKind::Module, "", vec![leaf(NodeKind::Ident, "m"), body_line]);
    let file = node(NodeKind::File, "", vec![line(module, false)]);
    let stmts = parse_math_file(&vec![file]).unwrap();
    match &stmts[0] {
        Statement::Module(n, body) => {
            assert_eq!(n, "m");
            assert!(matches!(&body[0], Statement::Export(v) if v == "v"));
        },
        other => panic!("unexpected {:?}", other),
    }
}

#[test]
fn malformed_trees_are_errors() {
    assert_eq!(parse_math_file(&vec![]).err(), Some("malformed syntax tree".to_string()));
    let file = node(NodeKind::File, "", vec![node(NodeKind::Line, "", vec![])]);
    assert!(parse_math_file(&vec![file]).is_err());
}

#[test]
fn tuple_index_text() {
    assert_eq!(parse_index("42"), Some(42));
    assert_eq!(parse_index("+7"), Some(7));
    assert_eq!(parse_index(""), None);
    assert_eq!(parse_index("+"), None);
    assert_eq!(parse_index("-1"), None);
    assert_eq!(parse_index("1a"), None);
    assert_eq!(parse_index("99999999999999999999999"), None);
}

#[test]
fn index_text_roundtrip() {
    for n in [0usize, 7, 10, 305, 123456789] {
        assert_eq!(parse_index(usize_text(n).as_str()), Some(n));
    }
}

#[test]
fn trimming() {
    assert_eq!(trim_str("  a b \n"), "a b");
    assert_eq!(trim_str("\u{3000}x"), "x");
    assert_eq!(trim_str("   "), "");
}

#[test]
fn import_path_parts() {
    assert_eq!(split_path("./std//math/"), vec!["std".to_string(), "math".to_string()]);
    assert_eq!(split_path("a/./b"), vec!["a".to_string(), "b".to_string()]);
    assert!(split_path("").is_empty());
}

#[test]
fn command_line_with_and_without_file() {
    let a = parse(vec!["sunwave".to_string(), "prog.sw".to_string()]).ok().unwrap();
    assert_eq!(a.input, Some("prog.sw".to_string()));
    let b = parse(vec!["sunwave".to_string()]).ok().unwrap();
    assert_eq!(b.input, None);
}

#[test]
fn command_line_help_and_errors() {
    let h = parse(vec!["sunwave".to_string(), "--help".to_string()]).err().unwrap();
    assert_eq!(h.exit_code, 0);
    assert!(!h.to_stderr);
    assert!(h.message.contains("A repl and interpreter for expressions and closures."));
    let e = parse(vec!["sunwave".to_string(), "a".to_string(), "b".to_string()]).err().unwrap();
    assert_eq!(e.exit_code, 2);
    assert!(e.to_stderr);
}

/// A host whose parser knows one program: `x := 4` (printed) and `x + 1`.
struct OneProgram;

impl Host for OneProgram {
    fn arith(&self, op: NumOp, a: u64, b: u64) -> u64 {
        let (x, y) = (f64::from_bits(a), f64::from_bits(b));
        match op {
            NumOp::Add => (x + y).to_bits(),
            NumOp::Sub => (x - y).to_bits(),
            NumOp::Mul => (x * y).to_bits(),
            NumOp::Div => (x / y).to_bits(),
            NumOp::Pow => x.powf(y).to_bits(),
        }
    }

    fn compare(&self, op: Comparison, a: u64, b: u64) -> bool {
        let (x, y) = (f64::from_bits(a), f64::from_bits(b));
        match op {
            Comparison::Eq => x == y,
            Comparison::Ne => x != y,
            Comparison::Gt => x > y,
            Comparison::Lt => x < y,
            Comparison::Ge => x >= y,
            Comparison::Le => x <= y,
        }
    }

    fn to_index(&self, a: u64) -> usize {
        f64::from_bits(a) as usize
    }

    fn from_count(&self, n: usize) -> u64 {
        (n as f64).to_bits()
    }

    fn number_text(&self, a: u64) -> String {
        format!("{}", f64::from_bits(a))
    }

    fn describe_expr(&self, e: &Expr) -> String {
        format!("{:?}", e)
    }

    fn describe_value(&self, v: &Value) -> String {
        format!("{:?}", v)
    }

    fn locate(&self, _raw_path: &str) -> ImportTarget {
        ImportTarget::Missing
    }

    fn load(&self, _path: &str) -> SourceLoad {
        SourceLoad::Unreadable
    }

    fn parse_source(&self, code: &str) -> Result<Vec<ParseNode>, String> {
        match code {
            "x := 4" => {
                let lvalue = node(NodeKind::Lvalue, "x", vec![leaf(NodeKind::Ident, "x")]);
                let asg = node(NodeKind::Assignment, "", vec![lvalue, expr(vec![number(4.0)])]);
                Ok(vec![node(NodeKind::File, code, vec![line(asg, false), leaf(NodeKind::Eoi, "")])])
            },
            "x + 1" => {
                let e = expr(vec![leaf(NodeKind::Ident, "x"), op(NodeKind::AddOp, "+"), number(1.0)]);
                Ok(vec![node(NodeKind::File, code, vec![line(e, false), leaf(NodeKind::Eoi, "")])])
            },
            "odd" => Ok(vec![]),
            _ => Err(format!("cannot parse {}", code)),
        }
    }
}

#[test]
fn session_keeps_bindings_between_runs() {
    let mut ctx = SunwaveContext::new();
    assert_eq!(ctx.execute(&OneProgram, "x := 4"), "Ok.");
    assert_eq!(ctx.take_output(), "x assigned to [x: 4]\n\n");
    assert_eq!(ctx.execute(&OneProgram, "x + 1"), "Ok.");
    assert_eq!(ctx.take_output(), "[Result: 5]\n\n");
}

#[test]
fn session_reports_errors() {
    let mut ctx = SunwaveContext::new();
    assert_eq!(ctx.execute(&OneProgram, "x + 1"), "Error: Undefined variable: x");
    assert_eq!(ctx.execute(&OneProgram, "???"), "Error: cannot parse ???");
    assert_eq!(ctx.execute(&OneProgram, "odd"), "Error: malformed syntax tree");
    assert!(ctx.run_sunwave(&OneProgram, "x := 4").is_ok());
}
