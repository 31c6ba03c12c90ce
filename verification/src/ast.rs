//! The syntax tree of a Sunwave program, and its mathematical model.
//!
//! A number literal is held as the bit pattern of the IEEE-754 binary64
//! value it denotes; all arithmetic on such numbers is done by the host
//! (see `host.rs`).
use vstd::prelude::*;

verus! {

/// One step of a member access or of an assignment target path:
/// `.name` or `.0`.
#[derive(Debug)]
pub enum Access {
    Name(String),
    Index(usize),
}

/// An expression.
#[derive(Debug)]
#[allow(inconsistent_fields)]
pub enum Expr {
    Number(u64),
    String(String),
    Variable(String),
    Tuple(Vec<Expr>),
    MemberAccess(Box<Expr>, Vec<Access>),
    Length(Box<Expr>),
    Block { statements: Vec<Statement>, ret: Box<Expr> },
    Binary { lhs: Box<Expr>, op: String, rhs: Box<Expr> },
    Call { callee: Box<Expr>, args: Vec<Expr> },
    Lambda { args: Vec<String>, body: Box<Expr> },
    Ternary { condition: Box<Expr>, true_branch: Box<Expr>, false_branch: Box<Expr> },
    Loop { bindings: Vec<(String, Expr)>, body: Box<Expr> },
    Recur(Vec<Expr>),
}

/// A statement; the `bool` flags say whether the line ended in `;`
/// (its result is then not printed).
#[derive(Debug)]
pub enum Statement {
    Assignment(String, Vec<Access>, Expr, bool),
    Export(String),
    Import(String),
    Module(String, Vec<Statement>),
    Equivalence(Expr, Expr, bool),
    Expression(Expr, bool),
}

/// Model of [`Access`].
pub enum SpecAccess {
    Name(Seq<char>),
    Index(usize),
}

/// Model of [`Expr`]: strings as character sequences, lists as `Seq`.
#[allow(inconsistent_fields)]
pub enum SpecExpr {
    Number(u64),
    Str(Seq<char>),
    Variable(Seq<char>),
    Tuple(Seq<SpecExpr>),
    MemberAccess(Box<SpecExpr>, Seq<SpecAccess>),
    Length(Box<SpecExpr>),
    Block { statements: Seq<SpecStatement>, ret: Box<SpecExpr> },
    Binary { lhs: Box<SpecExpr>, op: Seq<char>, rhs: Box<SpecExpr> },
    Call { callee: Box<SpecExpr>, args: Seq<SpecExpr> },
    Lambda { args: Seq<Seq<char>>, body: Box<SpecExpr> },
    Ternary { condition: Box<SpecExpr>, true_branch: Box<SpecExpr>, false_branch: Box<SpecExpr> },
    Loop { bindings: Seq<(Seq<char>, SpecExpr)>, body: Box<SpecExpr> },
    Recur(Seq<SpecExpr>),
}

/// Model of [`Statement`].
pub enum SpecStatement {
    Assignment(Seq<char>, Seq<SpecAccess>, SpecExpr, bool),
    Export(Seq<char>),
    Import(Seq<char>),
    Module(Seq<char>, Seq<SpecStatement>),
    Equivalence(SpecExpr, SpecExpr, bool),
    Expression(SpecExpr, bool),
}

impl Access {
    pub open spec fn model(&self) -> SpecAccess {
        match self {
            Access::Name(n) => SpecAccess::Name(n@),
            Access::Index(i) => SpecAccess::Index(*i),
        }
    }
}

pub open spec fn strings_model(v: Seq<String>) -> Seq<Seq<char>> {
    Seq::new(v.len(), |i: int| v[i]@)
}

pub open spec fn accesses_model(v: Seq<Access>) -> Seq<SpecAccess> {
    Seq::new(v.len(), |i: int| v[i].model())
}

impl Expr {
    pub open spec fn model(&self) -> SpecExpr
        decreases self,
    {
        match self {
            Expr::Number(n) => SpecExpr::Number(*n),
            Expr::String(s) => SpecExpr::Str(s@),
            Expr::Variable(s) => SpecExpr::Variable(s@),
            Expr::Tuple(v) => SpecExpr::Tuple(
                Seq::new(
                    v@.len(),
                    |i: int|
                        if 0 <= i < v@.len() {
                            proof {
                                broadcast use vstd::std_specs::vec::axiom_vec_index_decreases;

                                assert(decreases_to!(*v => v[i]));
                            }
                            v@[i].model()
                        } else {
                            SpecExpr::Number(0)
                        },
                ),
            ),
            Expr::MemberAccess(b, p) => SpecExpr::MemberAccess(
                Box::new(b.model()),
                accesses_model(p@),
            ),
            Expr::Length(b) => SpecExpr::Length(Box::new(b.model())),
            Expr::Block { statements, ret } => SpecExpr::Block {
                statements: Seq::new(
                    statements@.len(),
                    |i: int|
                        if 0 <= i < statements@.len() {
                            proof {
                                broadcast use vstd::std_specs::vec::axiom_vec_index_decreases;

                                assert(decreases_to!(*statements => statements[i]));
                            }
                            statements@[i].model()
                        } else {
                            SpecStatement::Export(Seq::empty())
                        },
                ),
                ret: Box::new(ret.model()),
            },
            Expr::Binary { lhs, op, rhs } => SpecExpr::Binary {
                lhs: Box::new(lhs.model()),
                op: op@,
                rhs: Box::new(rhs.model()),
            },
            Expr::Call { callee, args } => SpecExpr::Call {
                callee: Box::new(callee.model()),
                args: Seq::new(
                    args@.len(),
                    |i: int|
                        if 0 <= i < args@.len() {
                            proof {
                                broadcast use vstd::std_specs::vec::axiom_vec_index_decreases;

                                assert(decreases_to!(*args => args[i]));
                            }
                            args@[i].model()
                        } else {
                            SpecExpr::Number(0)
                        },
                ),
            },
            Expr::Lambda { args, body } => SpecExpr::Lambda {
                args: strings_model(args@),
                body: Box::new(body.model()),
            },
            Expr::Ternary { condition, true_branch, false_branch } => SpecExpr::Ternary {
                condition: Box::new(condition.model()),
                true_branch: Box::new(true_branch.model()),
                false_branch: Box::new(false_branch.model()),
            },
            Expr::Loop { bindings, body } => SpecExpr::Loop {
                bindings: Seq::new(
                    bindings@.len(),
                    |i: int|
                        if 0 <= i < bindings@.len() {
                            proof {
                                broadcast use vstd::std_specs::vec::axiom_vec_index_decreases;

                                assert(decreases_to!(*bindings => bindings[i]));
                            }
                            (bindings@[i].0@, bindings@[i].1.model())
                        } else {
                            (Seq::empty(), SpecExpr::Number(0))
                        },
                ),
                body: Box::new(body.model()),
            },
            Expr::Recur(v) => SpecExpr::Recur(
                Seq::new(
                    v@.len(),
                    |i: int|
                        if 0 <= i < v@.len() {
                            proof {
                                broadcast use vstd::std_specs::vec::axiom_vec_index_decreases;

                                assert(decreases_to!(*v => v[i]));
                            }
                            v@[i].model()
                        } else {
                            SpecExpr::Number(0)
                        },
                ),
            ),
        }
    }
}

impl Statement {
    pub open spec fn model(&self) -> SpecStatement
        decreases self,
    {
        match self {
            Statement::Assignment(n, p, e, s) => SpecStatement::Assignment(
                n@,
                accesses_model(p@),
                e.model(),
                *s,
            ),
            Statement::Export(n) => SpecStatement::Export(n@),
            Statement::Import(n) => SpecStatement::Import(n@),
            Statement::Module(n, body) => SpecStatement::Module(
                n@,
                Seq::new(
                    body@.len(),
                    |i: int|
                        if 0 <= i < body@.len() {
                            proof {
                                broadcast use vstd::std_specs::vec::axiom_vec_index_decreases;

                                assert(decreases_to!(*body => body[i]));
                            }
                            body@[i].model()
                        } else {
                            SpecStatement::Export(Seq::empty())
                        },
                ),
            ),
            Statement::Equivalence(l, r, s) => SpecStatement::Equivalence(l.model(), r.model(), *s),
            Statement::Expression(e, s) => SpecStatement::Expression(e.model(), *s),
        }
    }
}

pub open spec fn exprs_model(v: Seq<Expr>) -> Seq<SpecExpr> {
    Seq::new(v.len(), |i: int| v[i].model())
}

pub open spec fn statements_model(v: Seq<Statement>) -> Seq<SpecStatement> {
    Seq::new(v.len(), |i: int| v[i].model())
}

pub open spec fn loop_bindings_model(v: Seq<(String, Expr)>) -> Seq<(Seq<char>, SpecExpr)> {
    Seq::new(v.len(), |i: int| (v[i].0@, v[i].1.model()))
}

/// The model of a tuple or `recur` expression is built from the models of its items.
pub proof fn lemma_tuple_expr_model(v: Vec<Expr>)
    ensures
        Expr::Tuple(v).model() == SpecExpr::Tuple(exprs_model(v@)),
        Expr::Recur(v).model() == SpecExpr::Recur(exprs_model(v@)),
{
    if let SpecExpr::Tuple(x) = Expr::Tuple(v).model() {
        assert(x =~= exprs_model(v@));
    }
    if let SpecExpr::Recur(x) = Expr::Recur(v).model() {
        assert(x =~= exprs_model(v@));
    }
}

/// The model of a call is built from the models of its parts.
pub proof fn lemma_call_model(callee: Box<Expr>, args: Vec<Expr>)
    ensures
        (Expr::Call { callee, args }).model() == (SpecExpr::Call {
            callee: Box::new(callee.model()),
            args: exprs_model(args@),
        }),
{
    if let SpecExpr::Call { args: x, .. } = (Expr::Call { callee, args }).model() {
        assert(x =~= exprs_model(args@));
    }
}

/// The model of a block is built from the models of its parts.
pub proof fn lemma_block_model(statements: Vec<Statement>, ret: Box<Expr>)
    ensures
        (Expr::Block { statements, ret }).model() == (SpecExpr::Block {
            statements: statements_model(statements@),
            ret: Box::new(ret.model()),
        }),
{
    if let SpecExpr::Block { statements: x, .. } = (Expr::Block { statements, ret }).model() {
        assert(x =~= statements_model(statements@));
    }
}

/// The model of a loop is built from the models of its parts.
pub proof fn lemma_loop_model(bindings: Vec<(String, Expr)>, body: Box<Expr>)
    ensures
        (Expr::Loop { bindings, body }).model() == (SpecExpr::Loop {
            bindings: loop_bindings_model(bindings@),
            body: Box::new(body.model()),
        }),
{
    if let SpecExpr::Loop { bindings: x, .. } = (Expr::Loop { bindings, body }).model() {
        assert(x =~= loop_bindings_model(bindings@));
    }
}

/// The model of a module statement is built from the models of its parts.
pub proof fn lemma_module_model(name: String, statements: Vec<Statement>)
    ensures
        Statement::Module(name, statements).model() == SpecStatement::Module(
            name@,
            statements_model(statements@),
        ),
{
    if let SpecStatement::Module(_, x) = Statement::Module(name, statements).model() {
        assert(x =~= statements_model(statements@));
    }
}


/// A copy of a list of strings.
pub fn copy_strings(v: &Vec<String>) -> (r: Vec<String>)
    ensures
        strings_model(r@) == strings_model(v@),
{
    let mut out: Vec<String> = Vec::new();
    let mut i: usize = 0;
    while i < v.len()
        invariant
            i <= v.len(),
            out@.len() == i,
            forall|j: int| 0 <= j < i ==> #[trigger] out@[j]@ == v@[j]@,
        decreases v.len() - i,
    {
        out.push(v[i].clone());
        i = i + 1;
    }
    assert(strings_model(out@) =~= strings_model(v@));
    out
}

pub fn copy_access(a: &Access) -> (r: Access)
    ensures
        r.model() == a.model(),
{
    match a {
        Access::Name(n) => Access::Name(n.clone()),
        Access::Index(i) => Access::Index(*i),
    }
}

pub fn copy_accesses(v: &Vec<Access>) -> (r: Vec<Access>)
    ensures
        accesses_model(r@) == accesses_model(v@),
{
    let mut out: Vec<Access> = Vec::new();
    let mut i: usize = 0;
    while i < v.len()
        invariant
            i <= v.len(),
            out@.len() == i,
            forall|j: int| 0 <= j < i ==> #[trigger] out@[j].model() == v@[j].model(),
        decreases v.len() - i,
    {
        out.push(copy_access(&v[i]));
        i = i + 1;
    }
    assert(accesses_model(out@) =~= accesses_model(v@));
    out
}

/// A deep copy of a list of expressions.
pub fn copy_exprs(v: &Vec<Expr>) -> (r: Vec<Expr>)
    ensures
        exprs_model(r@) == exprs_model(v@),
    decreases v,
{
    let mut out: Vec<Expr> = Vec::new();
    let mut i: usize = 0;
    while i < v.len()
        invariant
            i <= v.len(),
            out@.len() == i,
            forall|j: int| 0 <= j < i ==> #[trigger] out@[j].model() == v@[j].model(),
        decreases v.len() - i,
    {
        proof {
            broadcast use vstd::std_specs::vec::axiom_vec_index_decreases;

            assert(decreases_to!(*v => v[i as int]));
        }
        out.push(copy_expr(&v[i]));
        i = i + 1;
    }
    assert(exprs_model(out@) =~= exprs_model(v@));
    out
}

/// A deep copy of a list of statements.
pub fn copy_statements(v: &Vec<Statement>) -> (r: Vec<Statement>)
    ensures
        statements_model(r@) == statements_model(v@),
    decreases v,
{
    let mut out: Vec<Statement> = Vec::new();
    let mut i: usize = 0;
    while i < v.len()
        invariant
            i <= v.len(),
            out@.len() == i,
            forall|j: int| 0 <= j < i ==> #[trigger] out@[j].model() == v@[j].model(),
        decreases v.len() - i,
    {
        proof {
            broadcast use vstd::std_specs::vec::axiom_vec_index_decreases;

            assert(decreases_to!(*v => v[i as int]));
        }
        out.push(copy_statement(&v[i]));
        i = i + 1;
    }
    assert(statements_model(out@) =~= statements_model(v@));
    out
}

fn copy_loop_bindings(v: &Vec<(String, Expr)>) -> (r: Vec<(String, Expr)>)
    ensures
        loop_bindings_model(r@) == loop_bindings_model(v@),
    decreases v,
{
    let mut out: Vec<(String, Expr)> = Vec::new();
    let mut i: usize = 0;
    while i < v.len()
        invariant
            i <= v.len(),
            out@.len() == i,
            forall|j: int|
                0 <= j < i ==> #[trigger] out@[j].0@ == v@[j].0@ && out@[j].1.model() == v@[j].1.model(),
        decreases v.len() - i,
    {
        proof {
            broadcast use vstd::std_specs::vec::axiom_vec_index_decreases;

            assert(decreases_to!(*v => v[i as int]));
            assert(decreases_to!(v[i as int] => v[i as int].1));
        }
        let e = copy_expr(&v[i].1);
        out.push((v[i].0.clone(), e));
        i = i + 1;
    }
    assert(loop_bindings_model(out@) =~= loop_bindings_model(v@));
    out
}

/// A deep copy of an expression.
pub fn copy_expr(e: &Expr) -> (r: Expr)
    ensures
        r.model() == e.model(),
    decreases e,
{
    match e {
        Expr::Number(n) => Expr::Number(*n),
        Expr::String(s) => Expr::String(s.clone()),
        Expr::Variable(s) => Expr::Variable(s.clone()),
        Expr::Tuple(v) => {
            let c = copy_exprs(v);
            proof {
                lemma_tuple_expr_model(c);
                lemma_tuple_expr_model(*v);
            }
            Expr::Tuple(c)
        },
        Expr::MemberAccess(b, p) => Expr::MemberAccess(Box::new(copy_expr(b)), copy_accesses(p)),
        Expr::Length(b) => Expr::Length(Box::new(copy_expr(b))),
        Expr::Block { statements, ret } => {
            let st = copy_statements(statements);
            let rt = Box::new(copy_expr(ret));
            proof {
                lemma_block_model(st, rt);
                lemma_block_model(*statements, *ret);
            }
            Expr::Block { statements: st, ret: rt }
        },
        Expr::Binary { lhs, op, rhs } => Expr::Binary {
            lhs: Box::new(copy_expr(lhs)),
            op: op.clone(),
            rhs: Box::new(copy_expr(rhs)),
        },
        Expr::Call { callee, args } => {
            let c = Box::new(copy_expr(callee));
            let a = copy_exprs(args);
            proof {
                lemma_call_model(c, a);
                lemma_call_model(*callee, *args);
            }
            Expr::Call { callee: c, args: a }
        },
        Expr::Lambda { args, body } => Expr::Lambda {
            args: copy_strings(args),
            body: Box::new(copy_expr(body)),
        },
        Expr::Ternary { condition, true_branch, false_branch } => Expr::Ternary {
            condition: Box::new(copy_expr(condition)),
            true_branch: Box::new(copy_expr(true_branch)),
            false_branch: Box::new(copy_expr(false_branch)),
        },
        Expr::Loop { bindings, body } => {
            let bs = copy_loop_bindings(bindings);
            let bd = Box::new(copy_expr(body));
            proof {
                lemma_loop_model(bs, bd);
                lemma_loop_model(*bindings, *body);
            }
            Expr::Loop { bindings: bs, body: bd }
        },
        Expr::Recur(v) => {
            let c = copy_exprs(v);
            proof {
                lemma_tuple_expr_model(c);
                lemma_tuple_expr_model(*v);
            }
            Expr::Recur(c)
        },
    }
}

/// A deep copy of a statement.
pub fn copy_statement(s: &Statement) -> (r: Statement)
    ensures
        r.model() == s.model(),
    decreases s,
{
    match s {
        Statement::Assignment(n, p, e, q) => Statement::Assignment(
            n.clone(),
            copy_accesses(p),
            copy_expr(e),
            *q,
        ),
        Statement::Export(n) => Statement::Export(n.clone()),
        Statement::Import(n) => Statement::Import(n.clone()),
        Statement::Module(n, body) => {
            let nn = n.clone();
            let b = copy_statements(body);
            proof {
                lemma_module_model(nn, b);
                lemma_module_model(*n, *body);
            }
            Statement::Module(nn, b)
        },
        Statement::Equivalence(l, rr, q) => Statement::Equivalence(copy_expr(l), copy_expr(rr), *q),
        Statement::Expression(e, q) => Statement::Expression(copy_expr(e), *q),
    }
}

} // verus!
