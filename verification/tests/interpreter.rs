use std::collections::HashMap;

use sunwave::ast::{Access, Expr, Statement};
use sunwave::environment::{Environment, State};
use sunwave::eval::{exec_statement, inject_at_path, process_import_file, run_program};
use sunwave::host::{Comparison, DirEntry, Host, ImportTarget, NumOp, SourceLoad};
use sunwave::parser::{NodeKind, ParseNode};
use sunwave::value::{Bindings, Value};

/// A host with binary64 arithmetic and an in-memory file system.
struct MemHost {
    /// import path -> what it names
    targets: HashMap<String, Target>,
    /// file path -> top-level nodes of its parse
    files: HashMap<String, Vec<ParseNode>>,
}

#[derive(Clone)]
enum Target {
    Dir(Vec<(String, String)>),
    SwFile,
    File(String),
}

impl MemHost {
    fn new() -> MemHost {
        MemHost { targets: HashMap::new(), files: HashMap::new() }
    }
}

impl Host for MemHost {
    fn arith(&self, op: NumOp, a: u64, b: u64) -> u64 {
        let (x, y) = (f64::from_bits(a), f64::from_bits(b));
        let r = match op {
            NumOp::Add => x + y,
            NumOp::Sub => x - y,
            NumOp::Mul => x * y,
            NumOp::Div => x / y,
            NumOp::Pow => x.powf(y),
        };
        r.to_bits()
    }

    fn compare(&self, op: Comparison, a: u64, b: u64) -> bool {
        let (x, y) = (f64::from_bits(a), f64::from_bits(b));
        match op {
            Comparison::Eq => x == y,
            Comparison::Ne => x != y,
            Comparison::Gt => x > y,
            Comparison::Lt => x < y,
            Comparison::Ge => x >= y,
            Comparison::Le => x <= y,
        }
    }

    fn to_index(&self, a: u64) -> usize {
        f64::from_bits(a) as usize
    }

    fn from_count(&self, n: usize) -> u64 {
        (n as f64).to_bits()
    }

    fn number_text(&self, a: u64) -> String {
        format!("{}", f64::from_bits(a))
    }

    fn describe_expr(&self, e: &Expr) -> String {
        format!("{:?}", e)
    }

    fn describe_value(&self, v: &Value) -> String {
        format!("{:?}", v)
    }

    fn locate(&self, raw_path: &str) -> ImportTarget {
        match self.targets.get(raw_path) {
            Some(Target::Dir(entries)) => ImportTarget::Directory(Some(
                entries
                    .iter()
                    .map(|(stem, path)| {
                        if stem.is_empty() {
                            DirEntry::Other
                        } else {
                            DirEntry::Source { stem: stem.clone(), path: path.clone() }
                        }
                    })
                    .collect(),
            )),
            Some(Target::SwFile) => ImportTarget::SwFile,
            Some(Target::File(stem)) => ImportTarget::File(stem.clone()),
            None => ImportTarget::Missing,
        }
    }

    fn load(&self, path: &str) -> SourceLoad {
        match self.files.get(path) {
            Some(nodes) => SourceLoad::Tree(nodes.iter().map(clone_node).collect()),
            None => SourceLoad::Unreadable,
        }
    }

    fn parse_source(&self, _code: &str) -> Result<Vec<ParseNode>, String> {
        Err("no parser here".to_string())
    }
}

fn clone_node(n: &ParseNode) -> ParseNode {
    ParseNode {
        kind: n.kind,
        text: n.text.clone(),
        number: n.number,
        children: n.children.iter().map(clone_node).collect(),
    }
}

fn num(x: f64) -> Expr {
    Expr::Number(x.to_bits())
}

fn var(n: &str) -> Expr {
    Expr::Variable(n.to_string())
}

fn bin(l: Expr, op: &str, r: Expr) -> Expr {
    Expr::Binary { lhs: Box::new(l), op: op.to_string(), rhs: Box::new(r) }
}

fn assign(n: &str, e: Expr, suppressed: bool) -> Statement {
    Statement::Assignment(n.to_string(), Vec::new(), e, suppressed)
}

fn show(e: Expr) -> Statement {
    Statement::Expression(e, false)
}

fn run(stmts: Vec<Statement>) -> (Result<Bindings, String>, String) {
    let host = MemHost::new();
    run_with(&host, stmts)
}

fn run_with(host: &MemHost, stmts: Vec<Statement>) -> (Result<Bindings, String>, String) {
    let mut st = State::new(1_000_000);
    let r = run_program(host, &mut st, &stmts, 0);
    (r, st.output)
}

fn run_err(stmts: Vec<Statement>) -> String {
    match run(stmts).0 {
        Err(e) => e,
        Ok(_) => panic!("expected an error"),
    }
}

#[test]
fn assignment_prints_its_value() {
    let (r, out) = run(vec![assign("x", num(4.0), false)]);
    assert!(r.is_ok());
    assert_eq!(out, "x assigned to [x: 4]\n\n");
}

#[test]
fn suppressed_assignment_prints_nothing() {
    let (r, out) = run(vec![assign("x", num(4.0), true)]);
    assert!(r.is_ok());
    assert_eq!(out, "");
}

#[test]
fn expression_prints_under_its_variable_name() {
    let (_, out) = run(vec![assign("x", num(4.0), true), show(var("x"))]);
    assert_eq!(out, "[x: 4]\n\n");
}

#[test]
fn raw_expression_prints_as_result() {
    let (_, out) = run(vec![show(bin(num(1.5), "+", num(2.0)))]);
    assert_eq!(out, "[Result: 3.5]\n\n");
}

#[test]
fn ternary_picks_the_branch() {
    let cond = Expr::Ternary {
        condition: Box::new(bin(var("x"), ">", num(0.0))),
        true_branch: Box::new(num(1.0)),
        false_branch: Box::new(num(2.0)),
    };
    let (_, out) = run(vec![assign("x", num(1.0), true), assign("y", cond, true), show(var("y"))]);
    assert_eq!(out, "[y: 1]\n\n");
}

#[test]
fn zero_is_false_in_a_condition() {
    let cond = Expr::Ternary {
        condition: Box::new(num(0.0)),
        true_branch: Box::new(num(1.0)),
        false_branch: Box::new(num(2.0)),
    };
    let (_, out) = run(vec![show(cond)]);
    assert_eq!(out, "[Result: 2]\n\n");
}

#[test]
fn module_exports_are_members() {
    let body = vec![assign("PI", num(3.1415926), true), Statement::Export("PI".to_string())];
    let access = Expr::MemberAccess(Box::new(var("constants")), vec![Access::Name("PI".to_string())]);
    let (r, out) = run(vec![Statement::Module("constants".to_string(), body), show(access)]);
    assert!(r.is_ok());
    assert_eq!(out, "[PI: 3.1415926]\n\n");
}

#[test]
fn loop_runs_until_no_recur() {
    // loop(i := 1) { i > 3 ? i : recur(i + 1) }
    let body = Expr::Ternary {
        condition: Box::new(bin(var("i"), ">", num(3.0))),
        true_branch: Box::new(var("i")),
        false_branch: Box::new(Expr::Recur(vec![bin(var("i"), "+", num(1.0))])),
    };
    let lp = Expr::Loop { bindings: vec![("i".to_string(), num(1.0))], body: Box::new(body) };
    let (_, out) = run(vec![assign("r", lp, false)]);
    assert_eq!(out, "r assigned to [r: 4]\n\n");
}

#[test]
fn recur_with_wrong_arity_fails() {
    let lp = Expr::Loop {
        bindings: vec![("i".to_string(), num(1.0))],
        body: Box::new(Expr::Recur(vec![num(1.0), num(2.0)])),
    };
    assert_eq!(run_err(vec![show(lp)]), "recur expected 1 args, got 2");
}

#[test]
fn lambda_call_squares() {
    let f = Expr::Lambda { args: vec!["x".to_string()], body: Box::new(bin(var("x"), "^", num(2.0))) };
    let call = Expr::Call { callee: Box::new(var("f")), args: vec![num(3.0)] };
    let (_, out) = run(vec![assign("f", f, true), assign("y", call, false)]);
    assert_eq!(out, "y assigned to [y: 9]\n\n");
}

#[test]
fn closure_sees_its_defining_scope() {
    // a := 10; add := |x| x + a; a := 20; add(1)  -> 21 (the scope is shared)
    let f = Expr::Lambda { args: vec!["x".to_string()], body: Box::new(bin(var("x"), "+", var("a"))) };
    let call = Expr::Call { callee: Box::new(var("add")), args: vec![num(1.0)] };
    let (_, out) = run(vec![
        assign("a", num(10.0), true),
        assign("add", f, true),
        assign("a", num(20.0), true),
        show(call),
    ]);
    assert_eq!(out, "[Result: 21]\n\n");
}

#[test]
fn lambda_value_prints_its_arguments() {
    let f = Expr::Lambda {
        args: vec!["x".to_string(), "y".to_string()],
        body: Box::new(var("x")),
    };
    let (_, out) = run(vec![assign("f", f, false)]);
    assert_eq!(out, "f assigned to [f: Lambda(x, y)]\n\n");
}

#[test]
fn calling_a_number_fails() {
    let call = Expr::Call { callee: Box::new(num(1.0)), args: vec![] };
    let e = run_err(vec![show(call)]);
    assert!(e.ends_with(" is not a function"));
}

#[test]
fn undefined_variable_is_an_error() {
    assert_eq!(run_err(vec![show(var("nope"))]), "Undefined variable: nope");
}

#[test]
fn keywords_true_false_none() {
    let (_, out) = run(vec![show(var("true")), show(var("none"))]);
    assert_eq!(out, "[true: true]\n\nNone\n");
}

#[test]
fn type_mismatch_is_an_error() {
    let e = bin(num(1.0), "+", Expr::String("a".to_string()));
    assert_eq!(run_err(vec![show(e)]), "Type mismatch in binary operation");
}

#[test]
fn strings_concatenate_and_compare() {
    let cat = bin(Expr::String("ab".to_string()), "+", Expr::String("cd".to_string()));
    let (_, out) = run(vec![assign("s", cat, false)]);
    assert_eq!(out, "s assigned to [s: abcd]\n\n");
    let bad = bin(Expr::String("a".to_string()), "*", Expr::String("b".to_string()));
    assert_eq!(run_err(vec![show(bad)]), "Cannot perform operation on strings");
}

#[test]
fn unknown_number_operator_is_an_error() {
    assert_eq!(run_err(vec![show(bin(num(1.0), "%", num(2.0)))]), "Unknown operator: %");
}

#[test]
fn boolean_or() {
    let (_, out) = run(vec![show(bin(var("false"), "|", var("true")))]);
    assert_eq!(out, "[Result: true]\n\n");
}

#[test]
fn none_compares_with_none() {
    let (_, out) = run(vec![show(bin(var("none"), ">=", var("none")))]);
    assert_eq!(out, "[Result: true]\n\n");
    assert_eq!(
        run_err(vec![show(bin(var("none"), "+", var("none")))]),
        "Cannot perform operation on two 'None' values."
    );
}

#[test]
fn tuples_print_and_grow() {
    let t = Expr::Tuple(vec![num(1.0), num(2.0)]);
    let grown = bin(t, "+", Expr::String("s".to_string()));
    let (_, out) = run(vec![show(grown)]);
    assert_eq!(out, "(1, 2, \"s\")\n");
    let t2 = Expr::Tuple(vec![num(1.0), num(2.0)]);
    assert_eq!(run_err(vec![show(bin(t2, "+", num(3.0)))]), "Cannot perform operation + on a tuple and number.");
}

#[test]
fn single_element_tuple_is_its_element() {
    let (_, out) = run(vec![show(Expr::Tuple(vec![num(7.0)]))]);
    assert_eq!(out, "[Result: 7]\n\n");
}

#[test]
fn tuple_minus_number_removes_that_element() {
    let t = Expr::Tuple(vec![num(1.0), num(2.0), num(3.0)]);
    let (_, out) = run(vec![show(bin(t, "-", num(1.0)))]);
    assert_eq!(out, "(1, 3)\n");
    let t2 = Expr::Tuple(vec![num(1.0), num(2.0)]);
    assert_eq!(run_err(vec![show(bin(t2, "-", num(5.0)))]), "Index 5 out of bounds");
}

#[test]
fn tuple_member_access_by_index_and_by_name() {
    let t = Expr::Tuple(vec![num(10.0), num(20.0), num(30.0)]);
    let by_index = Expr::MemberAccess(Box::new(var("t")), vec![Access::Index(1)]);
    let by_name = Expr::MemberAccess(Box::new(var("t")), vec![Access::Name("k".to_string())]);
    let (_, out) = run(vec![
        assign("t", t, true),
        assign("k", num(2.0), true),
        show(by_index),
        show(by_name),
    ]);
    assert_eq!(out, "[1: 20]\n\n[k: 30]\n\n");
}

#[test]
fn tuple_index_out_of_bounds_is_an_error() {
    let t = Expr::Tuple(vec![num(10.0), num(20.0)]);
    let acc = Expr::MemberAccess(Box::new(var("t")), vec![Access::Index(5)]);
    assert_eq!(run_err(vec![assign("t", t, true), show(acc)]), "Index 5 out of bounds");
}

#[test]
fn nested_assignment_updates_a_tuple_element() {
    let t = Expr::Tuple(vec![num(1.0), num(2.0)]);
    let set = Statement::Assignment("t".to_string(), vec![Access::Index(0)], num(9.0), true);
    let (_, out) = run(vec![assign("t", t, true), set, show(var("t"))]);
    assert_eq!(out, "(9, 2)\n");
}

#[test]
fn nested_assignment_to_missing_variable_fails() {
    let set = Statement::Assignment("t".to_string(), vec![Access::Index(0)], num(9.0), true);
    assert_eq!(run_err(vec![set]), "Variable t not found");
}

#[test]
fn nested_assignment_bad_path_fails() {
    let set = Statement::Assignment("x".to_string(), vec![Access::Index(0)], num(9.0), true);
    assert_eq!(run_err(vec![assign("x", num(1.0), true), set]), "Invalid path for assignment");
}

#[test]
fn length_of_tuple_string_and_lambda() {
    let t = Expr::Length(Box::new(Expr::Tuple(vec![num(1.0), num(2.0), num(3.0)])));
    let s = Expr::Length(Box::new(Expr::String("héllo".to_string())));
    let f = Expr::Length(Box::new(Expr::Lambda {
        args: vec!["a".to_string(), "b".to_string()],
        body: Box::new(var("a")),
    }));
    let (_, out) = run(vec![show(t), show(s), show(f)]);
    // the length of a string counts its UTF-8 bytes
    assert_eq!(out, "[Result: 3]\n\n[Result: 6]\n\n[Result: 2]\n\n");
    let bad = Expr::Length(Box::new(num(1.0)));
    assert!(run_err(vec![show(bad)])
        .starts_with("Length operator '#' only works on Tuples, Modules, and Lambdas, not "));
}

#[test]
fn truthiness_of_a_string_is_an_error() {
    let cond = Expr::Ternary {
        condition: Box::new(Expr::String("s".to_string())),
        true_branch: Box::new(num(1.0)),
        false_branch: Box::new(num(2.0)),
    };
    assert_eq!(run_err(vec![show(cond)]), "Cannot evaluate truthyness of a String");
}

#[test]
fn block_value_is_its_last_expression() {
    let blk = Expr::Block {
        statements: vec![assign("y", bin(var("x"), "*", var("x")), true)],
        ret: Box::new(var("y")),
    };
    let (_, out) = run(vec![assign("x", num(3.0), true), assign("z", blk, false)]);
    assert_eq!(out, "z assigned to [z: 9]\n\n");
}

#[test]
fn equivalence_reports_equal_and_not_equal() {
    let (_, out) = run(vec![
        assign("x", num(4.0), true),
        assign("y", num(4.0), true),
        Statement::Equivalence(var("x"), var("y"), false),
        Statement::Equivalence(var("x"), num(5.0), false),
    ]);
    assert_eq!(out, "[x: 4]\n is equal to [y: 4]\n\n[x: 4]\n is not equal to [Result: 5]\n\n");
}

#[test]
fn export_of_undefined_name_fails() {
    let body = vec![Statement::Export("ghost".to_string())];
    assert_eq!(
        run_err(vec![Statement::Module("m".to_string(), body)]),
        "Export Error: Cannot export undefined variable 'ghost'"
    );
}

#[test]
fn module_prints_as_a_tree_in_name_order() {
    let body = vec![
        assign("b", num(2.0), true),
        assign("a", num(1.0), true),
        Statement::Export("b".to_string()),
        Statement::Export("a".to_string()),
    ];
    let (_, out) = run(vec![Statement::Module("m".to_string(), body), show(var("m"))]);
    assert_eq!(out, "Module 'm'\n├─ [a: 1]\n└─ [b: 2]\n\n");
}

#[test]
fn step_limit_stops_endless_loops() {
    let lp = Expr::Loop { bindings: vec![], body: Box::new(Expr::Recur(vec![])) };
    let host = MemHost::new();
    let mut st = State::new(1000);
    let r = run_program(&host, &mut st, &vec![show(lp)], 0);
    assert_eq!(r.err(), Some("evaluation step limit reached".to_string()));
}

#[test]
fn exec_statement_collects_exports() {
    let host = MemHost::new();
    let mut st = State::new(100);
    let r = exec_statement(&host, &mut st, &assign("x", num(1.0), true), 0, Bindings::new());
    assert!(r.is_ok());
    let ex = exec_statement(&host, &mut st, &Statement::Export("x".to_string()), 0, r.unwrap()).unwrap();
    assert_eq!(ex.len(), 1);
    assert!(ex.get(&"x".to_string()).is_some());
}

#[test]
fn environment_lookup_follows_parents() {
    let mut st = State::new(10);
    st.bind(0, "a".to_string(), Value::Bool(true));
    let child = st.push_scope(Some(0));
    assert!(matches!(st.get(child, &"a".to_string()), Some(Value::Bool(true))));
    st.bind(child, "a".to_string(), Value::Bool(false));
    assert!(matches!(st.get(child, &"a".to_string()), Some(Value::Bool(false))));
    assert!(matches!(st.get(0, &"a".to_string()), Some(Value::Bool(true))));
    let fresh = Environment::new();
    assert!(fresh.get(&st.envs, &"a".to_string()).is_none());
}

#[test]
fn binding_one_name_leaves_others() {
    let mut st = State::new(10);
    st.bind(0, "a".to_string(), Value::Bool(true));
    st.bind(0, "b".to_string(), Value::Bool(false));
    assert!(matches!(st.get(0, &"a".to_string()), Some(Value::Bool(true))));
    assert!(matches!(st.get(0, &"b".to_string()), Some(Value::Bool(false))));
}

#[test]
fn inject_then_member_access() {
    let mut st = State::new(10);
    let mut ex = Bindings::new();
    ex.insert("k".to_string(), Value::Bool(true));
    inject_at_path(&mut st, 0, &vec!["std".to_string(), "math".to_string()], ex);
    let host = MemHost::new();
    let access = Expr::MemberAccess(
        Box::new(var("std")),
        vec![Access::Name("math".to_string()), Access::Name("k".to_string())],
    );
    let mut st2 = st;
    let r = run_program(&host, &mut st2, &vec![show(access)], 0);
    assert!(r.is_ok());
    assert_eq!(st2.output, "[k: true]\n\n");
}

fn line(main: ParseNode, suppressed: bool) -> ParseNode {
    let mut children = vec![main];
    if suppressed {
        children.push(node(NodeKind::Suppress, ";", vec![]));
    }
    node(NodeKind::Line, "", children)
}

fn node(kind: NodeKind, text: &str, children: Vec<ParseNode>) -> ParseNode {
    ParseNode { kind, text: text.to_string(), number: 0, children }
}

fn number_node(x: f64) -> ParseNode {
    ParseNode { kind: NodeKind::Number, text: format!("{}", x), number: x.to_bits(), children: vec![] }
}

/// `name := value; export name;` as a file.
fn export_file(name: &str, value: f64) -> Vec<ParseNode> {
    let lvalue = node(NodeKind::Lvalue, name, vec![node(NodeKind::Ident, name, vec![])]);
    let expr = node(NodeKind::Expr, "", vec![number_node(value)]);
    let asg = node(NodeKind::Assignment, "", vec![lvalue, expr]);
    let exp = node(NodeKind::Export, "", vec![node(NodeKind::Ident, name, vec![])]);
    let file = node(NodeKind::File, "", vec![line(asg, true), line(exp, true), node(NodeKind::Eoi, "", vec![])]);
    vec![file]
}

#[test]
fn import_of_sw_file_binds_a_module_at_its_path() {
    let mut host = MemHost::new();
    host.targets.insert("std/math".to_string(), Target::SwFile);
    host.files.insert("std/math.sw".to_string(), export_file("pi", 3.0));
    let access = Expr::MemberAccess(
        Box::new(var("std")),
        vec![Access::Name("math".to_string()), Access::Name("pi".to_string())],
    );
    let (r, out) = run_with(&host, vec![Statement::Import("std/math".to_string()), show(access)]);
    assert!(r.is_ok());
    assert_eq!(out, "[pi: 3]\n\n");
}

#[test]
fn import_of_directory_binds_each_source_file() {
    let mut host = MemHost::new();
    host.targets.insert(
        "./lib/".to_string(),
        Target::Dir(vec![
            ("a".to_string(), "lib/a.sw".to_string()),
            (String::new(), "lib/readme.txt".to_string()),
            ("b".to_string(), "lib/b.sw".to_string()),
        ]),
    );
    host.files.insert("lib/a.sw".to_string(), export_file("x", 1.0));
    host.files.insert("lib/b.sw".to_string(), export_file("y", 2.0));
    let a = Expr::MemberAccess(Box::new(var("lib")), vec![Access::Name("a".to_string()), Access::Name("x".to_string())]);
    let b = Expr::MemberAccess(Box::new(var("lib")), vec![Access::Name("b".to_string()), Access::Name("y".to_string())]);
    let (r, out) = run_with(&host, vec![Statement::Import("./lib/".to_string()), show(a), show(b)]);
    assert!(r.is_ok());
    assert_eq!(out, "[x: 1]\n\n[y: 2]\n\n");
}

#[test]
fn import_of_plain_file_uses_its_stem() {
    let mut host = MemHost::new();
    host.targets.insert("dir/util.sw".to_string(), Target::File("util".to_string()));
    host.files.insert("dir/util.sw".to_string(), export_file("z", 5.0));
    let z = Expr::MemberAccess(Box::new(var("dir")), vec![Access::Name("util".to_string()), Access::Name("z".to_string())]);
    let (r, out) = run_with(&host, vec![Statement::Import("dir/util.sw".to_string()), show(z)]);
    assert!(r.is_ok());
    assert_eq!(out, "[z: 5]\n\n");
}

#[test]
fn import_errors() {
    let mut host = MemHost::new();
    host.targets.insert("gone".to_string(), Target::SwFile);
    let (r, _) = run_with(&host, vec![Statement::Import("nowhere".to_string())]);
    assert_eq!(r.err(), Some("Could not find directory or file for: nowhere".to_string()));
    let (r, _) = run_with(&host, vec![Statement::Import("gone".to_string())]);
    assert_eq!(r.err(), Some("Could not find file: gone.sw".to_string()));
}

#[test]
fn malformed_import_file_is_an_ast_error() {
    let mut host = MemHost::new();
    host.files.insert("bad.sw".to_string(), vec![]);
    let mut st = State::new(100);
    let r = process_import_file(&host, &mut st, &"bad.sw".to_string());
    assert_eq!(r.err(), Some("AST Error in bad.sw: malformed syntax tree".to_string()));
}

#[test]
fn imported_file_runs_in_its_own_scope() {
    let mut host = MemHost::new();
    host.files.insert("m.sw".to_string(), export_file("q", 8.0));
    let mut st = State::new(100);
    let ex = process_import_file(&host, &mut st, &"m.sw".to_string()).unwrap();
    assert_eq!(ex.len(), 1);
    // the importing scope has no `q`
    assert!(st.get(0, &"q".to_string()).is_none());
}

#[test]
fn suppressed_expression_prints_nothing() {
    let (r, out) = run(vec![Statement::Expression(num(1.0), true)]);
    assert!(r.is_ok());
    assert_eq!(out, "");
}

#[test]
fn output_before_an_error_is_kept() {
    let host = MemHost::new();
    let mut st = State::new(1000);
    let r = run_program(&host, &mut st, &vec![assign("x", num(1.0), false), show(var("nope"))], 0);
    assert_eq!(r.err(), Some("Undefined variable: nope".to_string()));
    assert_eq!(st.output, "x assigned to [x: 1]\n\n");
}

#[test]
fn rebinding_a_name_keeps_one_entry() {
    let mut b = Bindings::new();
    b.insert("k".to_string(), Value::Bool(true));
    b.insert("k".to_string(), Value::Bool(false));
    assert_eq!(b.len(), 1);
    assert!(matches!(b.get(&"k".to_string()), Some(Value::Bool(false))));
    assert_eq!(b.find(&"zz".to_string()), None);
}

#[test]
fn reassignment_reads_the_new_value() {
    let (_, out) = run(vec![assign("x", num(1.0), true), assign("x", num(2.0), true), show(var("x"))]);
    assert_eq!(out, "[x: 2]\n\n");
}

#[test]
fn nested_assignment_reads_back_through_a_module() {
    let body = vec![assign("a", num(1.0), true), Statement::Export("a".to_string())];
    let set = Statement::Assignment("m".to_string(), vec![Access::Name("a".to_string())], num(5.0), true);
    let read = Expr::MemberAccess(Box::new(var("m")), vec![Access::Name("a".to_string())]);
    let (r, out) = run(vec![Statement::Module("m".to_string(), body), set, show(read)]);
    assert!(r.is_ok());
    assert_eq!(out, "[a: 5]\n\n");
}

#[test]
fn import_leaves_other_names_alone() {
    let mut host = MemHost::new();
    host.targets.insert("lib".to_string(), Target::SwFile);
    host.files.insert("lib.sw".to_string(), export_file("v", 1.0));
    let (r, out) = run_with(
        &host,
        vec![assign("keep", num(7.0), true), Statement::Import("lib".to_string()), show(var("keep"))],
    );
    assert!(r.is_ok());
    assert_eq!(out, "[keep: 7]\n\n");
}

#[test]
fn member_access_on_a_number_is_an_error() {
    let acc = Expr::MemberAccess(Box::new(var("x")), vec![Access::Name("foo".to_string())]);
    let e = run_err(vec![assign("x", num(1.0), true), show(acc)]);
    assert!(e.starts_with("Invalid member access sequence, "));
    assert!(e.ends_with(", Name(\"foo\")"));
}

#[test]
fn lambda_inside_a_tuple_prints_its_argument_list() {
    let f = Expr::Lambda { args: vec!["x".to_string()], body: Box::new(var("x")) };
    let t = Expr::Tuple(vec![var("f"), num(1.0)]);
    let (_, out) = run(vec![assign("f", f, true), show(t)]);
    assert_eq!(out, "(Lambda([\"x\"]), 1)\n");
}

#[test]
fn quiet_program_with_blocks_and_calls_prints_nothing() {
    // f := |x| { y := x * 2; y };  module m { z := f(3); export z; };  w := m.z;
    let body = Expr::Block {
        statements: vec![assign("y", bin(var("x"), "*", num(2.0)), true)],
        ret: Box::new(var("y")),
    };
    let f = Expr::Lambda { args: vec!["x".to_string()], body: Box::new(body) };
    let call = Expr::Call { callee: Box::new(var("f")), args: vec![num(3.0)] };
    let module = Statement::Module(
        "m".to_string(),
        vec![assign("z", call, true), Statement::Export("z".to_string())],
    );
    let read = Expr::MemberAccess(Box::new(var("m")), vec![Access::Name("z".to_string())]);
    let (r, out) = run(vec![assign("f", f, true), module, assign("w", read, true)]);
    assert!(r.is_ok());
    assert_eq!(out, "");
}

#[test]
fn calls_and_blocks_leave_outer_scopes_alone() {
    // x := 1; f := |x| { x := 5; x }; f(2); x  -> 1
    let body = Expr::Block { statements: vec![assign("x", num(5.0), true)], ret: Box::new(var("x")) };
    let f = Expr::Lambda { args: vec!["x".to_string()], body: Box::new(body) };
    let call = Expr::Call { callee: Box::new(var("f")), args: vec![num(2.0)] };
    let (_, out) = run(vec![assign("x", num(1.0), true), assign("f", f, true), show(call), show(var("x"))]);
    assert_eq!(out, "[Result: 5]\n\n[x: 1]\n\n");
}

#[test]
fn left_operand_failure_comes_first() {
    assert_eq!(run_err(vec![show(bin(var("a"), "+", var("b")))]), "Undefined variable: a");
}

#[test]
fn only_the_chosen_branch_is_evaluated() {
    let cond = Expr::Ternary {
        condition: Box::new(var("true")),
        true_branch: Box::new(num(1.0)),
        false_branch: Box::new(var("nope")),
    };
    let (r, out) = run(vec![show(cond)]);
    assert!(r.is_ok());
    assert_eq!(out, "[Result: 1]\n\n");
}

#[test]
fn extra_arguments_are_dropped_even_when_they_fail() {
    let f = Expr::Lambda { args: vec!["x".to_string()], body: Box::new(var("x")) };
    let call = Expr::Call { callee: Box::new(var("f")), args: vec![num(4.0), var("nope")] };
    let (r, out) = run(vec![assign("f", f, true), show(call)]);
    assert!(r.is_ok());
    assert_eq!(out, "[Result: 4]\n\n");
}

#[test]
fn missing_argument_leaves_parameter_unbound() {
    let f = Expr::Lambda { args: vec!["x".to_string(), "y".to_string()], body: Box::new(var("y")) };
    let call = Expr::Call { callee: Box::new(var("f")), args: vec![num(4.0)] };
    assert_eq!(run_err(vec![assign("f", f, true), show(call)]), "Undefined variable: y");
}

#[test]
fn loop_initial_values_do_not_see_each_other() {
    let lp = Expr::Loop {
        bindings: vec![("a".to_string(), num(1.0)), ("b".to_string(), var("a"))],
        body: Box::new(var("b")),
    };
    assert_eq!(run_err(vec![show(lp)]), "Undefined variable: a");
}

#[test]
fn exports_are_snapshots() {
    let body = vec![assign("a", num(1.0), true), Statement::Export("a".to_string()), assign("a", num(2.0), true)];
    let read = Expr::MemberAccess(Box::new(var("m")), vec![Access::Name("a".to_string())]);
    let (_, out) = run(vec![Statement::Module("m".to_string(), body), show(read)]);
    assert_eq!(out, "[a: 1]\n\n");
}

#[test]
fn equality_of_tuples_of_booleans_is_symmetric() {
    let t1 = Expr::Tuple(vec![var("true"), var("false")]);
    let t2 = Expr::Tuple(vec![var("true"), var("true")]);
    let (_, out) = run(vec![
        show(bin(Expr::Tuple(vec![var("true"), var("false")]), "==", Expr::Tuple(vec![var("true"), var("true")]))),
        show(bin(t2, "==", t1)),
        Statement::Equivalence(Expr::String("s".to_string()), Expr::String("s".to_string()), false),
    ]);
    // as values, strings are never equal
    assert_eq!(out, "[Result: false]\n\n[Result: false]\n\n[Result: s]\n is not equal to [Result: s]\n\n");
}

#[test]
fn import_through_a_non_module_changes_nothing() {
    let mut host = MemHost::new();
    host.targets.insert("std/math".to_string(), Target::SwFile);
    host.files.insert("std/math.sw".to_string(), export_file("pi", 3.0));
    let (r, out) = run_with(&host, vec![assign("std", num(1.0), true), Statement::Import("std/math".to_string()), show(var("std"))]);
    assert!(r.is_ok());
    assert_eq!(out, "[std: 1]\n\n");
}

#[test]
fn lookup_follows_a_parent_in_a_later_slot() {
    let mut st = State::new(10);
    let later = st.push_scope(None);
    st.bind(later, "x".to_string(), Value::Bool(true));
    st.envs[0].parent = Some(later);
    assert!(matches!(st.get(0, &"x".to_string()), Some(Value::Bool(true))));
    assert!(matches!(st.envs[0].get(&st.envs, &"x".to_string()), Some(Value::Bool(true))));
    // a chain that comes back to a scope ends without finding the name
    st.envs[later].parent = Some(0);
    assert!(st.get(0, &"y".to_string()).is_none());
}
