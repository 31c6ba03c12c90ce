//! From the parse tree of a source file to statements and expressions.
//!
//! The grammar's parser hands over a tree of [`ParseNode`]s: each node
//! has the kind of the rule it matched, the text it spans, and its
//! children. A number literal's node also carries the binary64 bit pattern
//! of the literal. The functions here turn such a tree into the syntax of
//! `ast.rs`; binary operators are grouped by precedence (comparison, then
//! `+ -`, then `* /`, then `^`; the first three left-associative, `^`
//! right-associative). A tree that does not have the shape the grammar
//! gives is rejected.
use vstd::prelude::*;
use vstd::string::*;
use crate::ast::{
    Access, Expr, SpecAccess, SpecExpr, SpecStatement, Statement, accesses_model, exprs_model,
    lemma_block_model, lemma_call_model, lemma_loop_model, lemma_module_model,
    lemma_tuple_expr_model, loop_bindings_model, statements_model, strings_model,
};
use crate::text::{dec_text, digit_char};

verus! {

broadcast use vstd::std_specs::vec::axiom_vec_index_decreases;

/// The grammar rule a node matched.
#[derive(Debug, Clone, Copy, PartialEq, Eq, Structural)]
pub enum NodeKind {
    File,
    Line,
    Suppress,
    Assignment,
    Lvalue,
    DotAccess,
    TupleIndex,
    Ident,
    Number,
    Export,
    Import,
    Module,
    Equivalence,
    Expr,
    Primary,
    Atom,
    Lambda,
    IdList,
    LoopExpr,
    RecurExpr,
    Block,
    Tuple,
    Length,
    CallArgs,
    Ternary,
    Comparison,
    Sum,
    Term,
    Factor,
    CompareOp,
    AddOp,
    MulOp,
    PowOp,
    Eoi,
    Other,
}

/// A node of the parse tree.
#[derive(Debug)]
pub struct ParseNode {
    pub kind: NodeKind,
    /// The source text the node spans.
    pub text: String,
    /// For a number literal, the bit pattern of its binary64 value.
    pub number: u64,
    pub children: Vec<ParseNode>,
}

// ---------------------------------------------------------------------
// Text
/// Whether `c` has the Unicode `White_Space` property.
pub open spec fn is_space(c: char) -> bool {
    ||| ('\u{9}' <= c && c <= '\u{d}')
    ||| c == ' '
    ||| c == '\u{85}'
    ||| c == '\u{a0}'
    ||| c == '\u{1680}'
    ||| ('\u{2000}' <= c && c <= '\u{200a}')
    ||| c == '\u{2028}'
    ||| c == '\u{2029}'
    ||| c == '\u{202f}'
    ||| c == '\u{205f}'
    ||| c == '\u{3000}'
}

pub open spec fn trim_start(s: Seq<char>) -> Seq<char>
    decreases s.len(),
{
    if s.len() > 0 && is_space(s[0]) {
        trim_start(s.drop_first())
    } else {
        s
    }
}

pub open spec fn trim_end(s: Seq<char>) -> Seq<char>
    decreases s.len(),
{
    if s.len() > 0 && is_space(s.last()) {
        trim_end(s.drop_last())
    } else {
        s
    }
}

/// `s` without leading and trailing white space.
pub open spec fn trim_text(s: Seq<char>) -> Seq<char> {
    trim_end(trim_start(s))
}

pub open spec fn is_digit(c: char) -> bool {
    '0' <= c && c <= '9'
}

pub open spec fn all_digits(s: Seq<char>) -> bool {
    forall|i: int| 0 <= i < s.len() ==> is_digit(#[trigger] s[i])
}

/// The number that the decimal digits `s` denote.
pub open spec fn dec_value(s: Seq<char>) -> nat
    decreases s.len(),
{
    if s.len() == 0 {
        0
    } else {
        dec_value(s.drop_last()) * 10 + ((s.last() as int) - ('0' as int)) as nat
    }
}

/// The `usize` that `s` denotes as a decimal numeral with an optional
/// leading `+`, as `str::parse::<usize>` reads it.
pub open spec fn parse_usize(s: Seq<char>) -> Option<usize> {
    let d = if s.len() > 0 && s[0] == '+' {
        s.drop_first()
    } else {
        s
    };
    if d.len() == 0 || !all_digits(d) || dec_value(d) > usize::MAX {
        None
    } else {
        Some(dec_value(d) as usize)
    }
}

/// The numeral of `n` is made of digits and denotes `n`.
proof fn lemma_dec_text_value(n: nat)
    ensures
        dec_text(n).len() > 0,
        all_digits(dec_text(n)),
        dec_value(dec_text(n)) == n,
    decreases n,
{
    if n < 10 {
        let t = dec_text(n);
        assert(t.drop_last() =~= Seq::<char>::empty());
        assert(t.last() == digit_char(n));
        assert((digit_char(n) as int) - ('0' as int) == n);
        assert(dec_value(t) == dec_value(t.drop_last()) * 10 + ((t.last() as int) - ('0' as int)) as nat);
    } else {
        lemma_dec_text_value(n / 10);
        let t = dec_text(n);
        assert(t.drop_last() =~= dec_text(n / 10));
        assert(t.last() == digit_char(n % 10));
        assert((digit_char(n % 10) as int) - ('0' as int) == n % 10);
        assert(dec_value(t) == dec_value(t.drop_last()) * 10 + ((t.last() as int) - ('0' as int)) as nat);
        assert forall|i: int| 0 <= i < t.len() implies is_digit(#[trigger] t[i]) by {
            if i < t.len() - 1 {
                assert(t[i] == dec_text(n / 10)[i]);
            }
        }
        assert((n / 10) * 10 + n % 10 == n);
    }
}

/// A tuple index written as the interpreter writes numbers (in decimal)
/// reads back as the same index.
pub proof fn law_index_text_roundtrip(n: usize)
    ensures
        parse_usize(dec_text(n as nat)) == Some(n),
{
    lemma_dec_text_value(n as nat);
    assert(is_digit(dec_text(n as nat)[0]));
}

// ---------------------------------------------------------------------
// Operator precedence
/// The binding strength of an operator node; 0 for other nodes.
pub open spec fn prec(k: NodeKind) -> int {
    match k {
        NodeKind::CompareOp => 1,
        NodeKind::AddOp => 2,
        NodeKind::MulOp => 3,
        NodeKind::PowOp => 4,
        _ => 0,
    }
}

/// The weakest operator among `items[j]`, `items[j + 2]`, ... before `hi`
/// (5 when there is none).
pub open spec fn min_prec(items: Seq<ParseNode>, j: int, hi: int) -> int
    decreases hi - j + 1,
{
    if j >= hi || j < 0 || j >= items.len() {
        5
    } else {
        let p = prec(items[j].kind);
        let q = min_prec(items, j + 2, hi);
        if p < q {
            p
        } else {
            q
        }
    }
}

/// The first of `items[j]`, `items[j + 2]`, ... before `hi` whose
/// operator has strength `p` (`hi` when there is none).
pub open spec fn first_with(items: Seq<ParseNode>, j: int, hi: int, p: int) -> int
    decreases hi - j + 1,
{
    if j >= hi || j < 0 || j >= items.len() {
        hi
    } else if prec(items[j].kind) == p {
        j
    } else {
        first_with(items, j + 2, hi, p)
    }
}

/// The last of `items[j]`, `items[j - 2]`, ... not before `lo` whose
/// operator has strength `p` (`lo - 1` when there is none).
pub open spec fn last_with(items: Seq<ParseNode>, lo: int, j: int, p: int) -> int
    decreases j - lo + 2,
{
    if j < lo || j < 0 || j >= items.len() {
        lo - 1
    } else if prec(items[j].kind) == p {
        j
    } else {
        last_with(items, lo, j - 2, p)
    }
}

/// The operator at which the operand/operator list `items[lo..hi]` is
/// split: the last of the weakest ones, or the first when the weakest is
/// the right-associative `^`.
pub open spec fn split_at(items: Seq<ParseNode>, lo: int, hi: int) -> int {
    let p = min_prec(items, lo + 1, hi);
    if p == 4 {
        first_with(items, lo + 1, hi, 4)
    } else {
        last_with(items, lo + 1, hi - 2, p)
    }
}

/// A ternary node `c ? t : f` parses to the ternary whose condition is the
/// expression of its first child, whose true branch is that of its second
/// and whose false branch is that of its third; it fails when it has fewer
/// than three children or when one of the three fails.
pub proof fn law_parse_ternary(n: ParseNode)
    requires
        n.kind == NodeKind::Ternary,
    ensures
        n.children@.len() < 3 ==> p_operand(n) is None,
        n.children@.len() >= 3 ==> (p_operand(n) is Some <==> (p_expr(n.children@[0]) is Some && p_expr(
            n.children@[1],
        ) is Some && p_expr(n.children@[2]) is Some)),
        n.children@.len() >= 3 && p_operand(n) is Some ==> p_operand(n) == Some(
            SpecExpr::Ternary {
                condition: Box::new(p_expr(n.children@[0])->Some_0),
                true_branch: Box::new(p_expr(n.children@[1])->Some_0),
                false_branch: Box::new(p_expr(n.children@[2])->Some_0),
            },
        ),
{
}

/// In `a op1 b op2 c`, the weaker operator is applied last; between
/// operators of equal strength the left one is applied first, except for
/// `^`, which groups to the right.
pub proof fn law_precedence(n: ParseNode)
    requires
        n.children@.len() == 5,
        prec(n.children@[0].kind) == 0,
        prec(n.children@[2].kind) == 0,
        prec(n.children@[4].kind) == 0,
        prec(n.children@[1].kind) > 0,
        prec(n.children@[3].kind) > 0,
        p_operand(n.children@[0]) is Some,
        p_operand(n.children@[2]) is Some,
        p_operand(n.children@[4]) is Some,
    ensures
        ({
            let c = n.children@;
            let (a, b, d) = (p_operand(c[0])->Some_0, p_operand(c[2])->Some_0, p_operand(c[4])->Some_0);
            let (p1, p3) = (prec(c[1].kind), prec(c[3].kind));
            p_expr(n) == if p1 < p3 || (p1 == 4 && p3 == 4) {
                Some(
                    SpecExpr::Binary {
                        lhs: Box::new(a),
                        op: c[1].text@,
                        rhs: Box::new(SpecExpr::Binary { lhs: Box::new(b), op: c[3].text@, rhs: Box::new(d) }),
                    },
                )
            } else {
                Some(
                    SpecExpr::Binary {
                        lhs: Box::new(SpecExpr::Binary { lhs: Box::new(a), op: c[1].text@, rhs: Box::new(b) }),
                        op: c[3].text@,
                        rhs: Box::new(d),
                    },
                )
            }
        }),
{
    let c = n.children@;
    let (p1, p3) = (prec(c[1].kind), prec(c[3].kind));
    assert(min_prec(c, 5, 5) == 5);
    assert(min_prec(c, 3, 5) == p3);
    assert(min_prec(c, 1, 5) == if p1 < p3 {
        p1
    } else {
        p3
    });
    assert(min_prec(c, 3, 5) == p3);
    if p3 == 4 {
        assert(first_with(c, 3, 5, 4) == 3);
    } else {
        assert(last_with(c, 3, 3, p3) == 3);
    }
    assert(split_at(c, 2, 5) == 3);
    assert(p_climb(n, 0, 1) == p_operand(c[0]));
    assert(p_climb(n, 2, 3) == p_operand(c[2]));
    assert(p_climb(n, 4, 5) == p_operand(c[4]));
    assert(p_climb(n, 2, 5) == Some(
        SpecExpr::Binary {
            lhs: Box::new(p_operand(c[2])->Some_0),
            op: c[3].text@,
            rhs: Box::new(p_operand(c[4])->Some_0),
        },
    ));
    if p1 < p3 || (p1 == 4 && p3 == 4) {
        if p1 == 4 {
            assert(first_with(c, 1, 5, 4) == 1);
        } else {
            assert(last_with(c, 1, 1, p1) == 1);
            assert(last_with(c, 1, 3, p1) == 1);
        }
        assert(split_at(c, 0, 5) == 1);
        assert(p_climb(n, 0, 5) == Some(
            SpecExpr::Binary {
                lhs: Box::new(p_operand(c[0])->Some_0),
                op: c[1].text@,
                rhs: Box::new(p_climb(n, 2, 5)->Some_0),
            },
        ));
    } else {
        assert(split_at(c, 0, 3) == 1) by {
            assert(min_prec(c, 3, 3) == 5);
            assert(min_prec(c, 1, 3) == p1);
            if p1 == 4 {
                assert(first_with(c, 1, 3, 4) == 1);
            } else {
                assert(last_with(c, 1, 1, p1) == 1);
            }
        }
        if p3 == 4 {
            assert(p1 == 4 || p1 > p3);
            assert(first_with(c, 3, 5, 4) == 3);
            assert(first_with(c, 1, 5, 4) == 3);
        } else {
            assert(last_with(c, 1, 3, p3) == 3);
        }
        assert(split_at(c, 0, 5) == 3);
        assert(p_climb(n, 0, 3) == Some(
            SpecExpr::Binary {
                lhs: Box::new(p_operand(c[0])->Some_0),
                op: c[1].text@,
                rhs: Box::new(p_operand(c[2])->Some_0),
            },
        ));
        assert(p_climb(n, 0, 5) == Some(
            SpecExpr::Binary {
                lhs: Box::new(p_climb(n, 0, 3)->Some_0),
                op: c[3].text@,
                rhs: Box::new(p_operand(c[4])->Some_0),
            },
        ));
    }
}

// ---------------------------------------------------------------------
// Tree to syntax
/// An access step `.name` or `.k` from a `dot_access` node.
pub open spec fn p_step(a: ParseNode) -> Option<SpecAccess> {
    if a.children@.len() == 0 {
        None
    } else {
        let inner = a.children@[0];
        if inner.kind == NodeKind::Ident {
            Some(SpecAccess::Name(inner.text@))
        } else if inner.kind == NodeKind::TupleIndex {
            match parse_usize(inner.text@) {
                Some(k) => Some(SpecAccess::Index(k)),
                None => None,
            }
        } else {
            None
        }
    }
}

/// The access steps `nodes[i..]`, appended to `acc`.
pub open spec fn p_steps(nodes: Seq<ParseNode>, i: int, acc: Seq<SpecAccess>) -> Option<Seq<SpecAccess>>
    decreases nodes.len() - i,
{
    if i < 0 || i >= nodes.len() {
        Some(acc)
    } else {
        match p_step(nodes[i]) {
            Some(s) => p_steps(nodes, i + 1, acc.push(s)),
            None => None,
        }
    }
}

/// The texts of the children of `n`.
pub open spec fn child_texts(n: ParseNode) -> Seq<Seq<char>> {
    Seq::new(n.children@.len(), |i: int| n.children@[i].text@)
}

/// The expression of a node whose children are an operand/operator list.
pub open spec fn p_expr(n: ParseNode) -> Option<SpecExpr>
    decreases n, n.children@.len() + 2,
{
    p_climb(n, 0, n.children@.len() as int)
}

/// The expression of the operand/operator list `n.children[lo..hi]`.
pub open spec fn p_climb(n: ParseNode, lo: int, hi: int) -> Option<SpecExpr>
    decreases n, hi - lo,
{
    let items = n.children@;
    if !(0 <= lo < hi <= items.len()) {
        None
    } else if hi - lo == 1 {
        proof {
            assert(decreases_to!(n.children => n.children[lo]));
        }
        p_operand(items[lo])
    } else {
        let k = split_at(items, lo, hi);
        if lo < k < hi - 1 && prec(items[k].kind) > 0 {
            match (p_climb(n, lo, k), p_climb(n, k + 1, hi)) {
                (Some(l), Some(r)) => Some(
                    SpecExpr::Binary { lhs: Box::new(l), op: items[k].text@, rhs: Box::new(r) },
                ),
                _ => None,
            }
        } else {
            None
        }
    }
}

/// The expressions of `n.children[i..]`, each an operand/operator list,
/// appended to `acc`.
pub open spec fn p_exprs(n: ParseNode, i: int, acc: Seq<SpecExpr>) -> Option<Seq<SpecExpr>>
    decreases n, n.children@.len() - i,
{
    if i < 0 || i >= n.children@.len() {
        Some(acc)
    } else {
        proof {
            assert(decreases_to!(n.children => n.children[i]));
        }
        match p_expr(n.children@[i]) {
            Some(e) => p_exprs(n, i + 1, acc.push(e)),
            None => None,
        }
    }
}

/// An operand of an operator list.
pub open spec fn p_operand(n: ParseNode) -> Option<SpecExpr>
    decreases n, n.children@.len() + 5,
{
    match n.kind {
        NodeKind::Number => Some(SpecExpr::Number(n.number)),
        NodeKind::Ident => Some(SpecExpr::Variable(trim_text(n.text@))),
        NodeKind::Primary => p_primary(n),
        NodeKind::Ternary => if n.children@.len() < 3 {
            None
        } else {
            proof {
                assert(decreases_to!(n.children => n.children[0]));
                assert(decreases_to!(n.children => n.children[1]));
                assert(decreases_to!(n.children => n.children[2]));
            }
            match (p_expr(n.children@[0]), p_expr(n.children@[1]), p_expr(n.children@[2])) {
                (Some(c), Some(t), Some(f)) => Some(
                    SpecExpr::Ternary {
                        condition: Box::new(c),
                        true_branch: Box::new(t),
                        false_branch: Box::new(f),
                    },
                ),
                _ => None,
            }
        },
        NodeKind::Expr | NodeKind::Comparison | NodeKind::Sum | NodeKind::Term | NodeKind::Factor => p_expr(n),
        _ => None,
    }
}

/// A `primary`: an atom followed by `.member` and call suffixes.
pub open spec fn p_primary(n: ParseNode) -> Option<SpecExpr>
    decreases n, n.children@.len() + 4,
{
    if n.children@.len() == 0 {
        None
    } else {
        proof {
            assert(decreases_to!(n.children => n.children[0]));
        }
        let first = n.children@[0];
        if first.kind == NodeKind::Atom {
            if first.children@.len() == 0 {
                None
            } else {
                proof {
                    assert(decreases_to!(first.children => first.children[0]));
                }
                match p_atom(first.children@[0]) {
                    Some(e) => p_suffixes(n, 1, e),
                    None => None,
                }
            }
        } else {
            match p_atom(first) {
                Some(e) => p_suffixes(n, 1, e),
                None => None,
            }
        }
    }
}

/// `cur` with the suffixes `n.children[i..]` applied.
pub open spec fn p_suffixes(n: ParseNode, i: int, cur: SpecExpr) -> Option<SpecExpr>
    decreases n, n.children@.len() - i,
{
    if i < 0 || i >= n.children@.len() {
        Some(cur)
    } else {
        proof {
            assert(decreases_to!(n.children => n.children[i]));
        }
        let s = n.children@[i];
        if s.kind == NodeKind::DotAccess {
            match p_step(s) {
                Some(step) => {
                    let next = match cur {
                        SpecExpr::MemberAccess(base, path) => SpecExpr::MemberAccess(base, path.push(step)),
                        _ => SpecExpr::MemberAccess(Box::new(cur), seq![step]),
                    };
                    p_suffixes(n, i + 1, next)
                },
                None => None,
            }
        } else if s.kind == NodeKind::CallArgs {
            let args = if s.children@.len() == 0 {
                Some(Seq::empty())
            } else {
                proof {
                    assert(decreases_to!(s.children => s.children[0]));
                }
                p_exprs(s.children@[0], 0, Seq::empty())
            };
            match args {
                Some(a) => p_suffixes(n, i + 1, SpecExpr::Call { callee: Box::new(cur), args: a }),
                None => None,
            }
        } else {
            None
        }
    }
}

/// An atom: a literal, a name, a parenthesised expression, a lambda, a
/// loop, a `recur`, a block, a tuple or a length.
pub open spec fn p_atom(a: ParseNode) -> Option<SpecExpr>
    decreases a, a.children@.len() + 3,
{
    match a.kind {
        NodeKind::Number => Some(SpecExpr::Number(a.number)),
        NodeKind::Ident => Some(SpecExpr::Variable(trim_text(a.text@))),
        NodeKind::Expr => p_expr(a),
        NodeKind::Lambda => if a.children@.len() == 0 {
            None
        } else {
            proof {
                assert(decreases_to!(a.children => a.children[0]));
            }
            let first = a.children@[0];
            if first.kind == NodeKind::IdList {
                if a.children@.len() < 2 {
                    None
                } else {
                    proof {
                        assert(decreases_to!(a.children => a.children[1]));
                    }
                    match p_expr(a.children@[1]) {
                        Some(b) => Some(SpecExpr::Lambda { args: child_texts(first), body: Box::new(b) }),
                        None => None,
                    }
                }
            } else {
                match p_expr(first) {
                    Some(b) => Some(SpecExpr::Lambda { args: Seq::empty(), body: Box::new(b) }),
                    None => None,
                }
            }
        },
        NodeKind::LoopExpr => p_loop(a, 0, Seq::empty(), None),
        NodeKind::RecurExpr => match p_exprs(a, 0, Seq::empty()) {
            Some(v) => Some(SpecExpr::Recur(v)),
            None => None,
        },
        NodeKind::Block => p_block(a, 0, Seq::empty(), None),
        NodeKind::Tuple => match p_exprs(a, 0, Seq::empty()) {
            Some(v) => Some(SpecExpr::Tuple(v)),
            None => None,
        },
        NodeKind::Length => match p_expr(a) {
            Some(e) => Some(SpecExpr::Length(Box::new(e))),
            None => None,
        },
        _ => None,
    }
}

/// The parts `a.children[i..]` of a `loop`: bindings `name := value` and
/// the body (the last expression among them).
pub open spec fn p_loop(
    a: ParseNode,
    i: int,
    bindings: Seq<(Seq<char>, SpecExpr)>,
    body: Option<SpecExpr>,
) -> Option<SpecExpr>
    decreases a, a.children@.len() - i,
{
    if i < 0 || i >= a.children@.len() {
        match body {
            Some(b) => Some(SpecExpr::Loop { bindings, body: Box::new(b) }),
            None => None,
        }
    } else {
        proof {
            assert(decreases_to!(a.children => a.children[i]));
        }
        let c = a.children@[i];
        if c.kind == NodeKind::Assignment {
            if c.children@.len() < 2 {
                None
            } else {
                proof {
                    assert(decreases_to!(c.children => c.children[1]));
                }
                match p_expr(c.children@[1]) {
                    Some(v) => p_loop(a, i + 1, bindings.push((trim_text(c.children@[0].text@), v)), body),
                    None => None,
                }
            }
        } else if c.kind == NodeKind::Expr {
            match p_expr(c) {
                Some(b) => p_loop(a, i + 1, bindings, Some(b)),
                None => None,
            }
        } else {
            p_loop(a, i + 1, bindings, body)
        }
    }
}

/// The target and value of an assignment node, as a statement.
pub open spec fn p_assignment(c: ParseNode, suppressed: bool) -> Option<SpecStatement>
    decreases c, 0int,
{
    if c.children@.len() < 2 {
        None
    } else {
        let lv = c.children@[0];
        if lv.children@.len() == 0 {
            None
        } else {
            proof {
                assert(decreases_to!(c.children => c.children[1]));
            }
            match (p_steps(lv.children@, 1, Seq::empty()), p_expr(c.children@[1])) {
                (Some(path), Some(e)) => Some(
                    SpecStatement::Assignment(lv.children@[0].text@, path, e, suppressed),
                ),
                _ => None,
            }
        }
    }
}

/// The parts `a.children[i..]` of a block: assignments (which print
/// nothing) and expressions, the last of which is the block's value and
/// the others statements that print nothing. A block without an
/// expression has the value 0.
pub open spec fn p_block(a: ParseNode, i: int, stmts: Seq<SpecStatement>, last: Option<SpecExpr>) -> Option<
    SpecExpr,
>
    decreases a, a.children@.len() - i,
{
    if i < 0 || i >= a.children@.len() {
        Some(
            SpecExpr::Block {
                statements: stmts,
                ret: Box::new(
                    match last {
                        Some(e) => e,
                        None => SpecExpr::Number(0),
                    },
                ),
            },
        )
    } else {
        proof {
            assert(decreases_to!(a.children => a.children[i]));
        }
        let c = a.children@[i];
        if c.kind == NodeKind::Export || c.kind == NodeKind::Import {
            p_block(a, i + 1, stmts, last)
        } else if c.kind == NodeKind::Assignment {
            match p_assignment(c, true) {
                Some(s) => p_block(a, i + 1, stmts.push(s), last),
                None => None,
            }
        } else if c.kind == NodeKind::Expr {
            match p_expr(c) {
                Some(e) => {
                    let stmts2 = match last {
                        Some(prev) => stmts.push(SpecStatement::Expression(prev, true)),
                        None => stmts,
                    };
                    p_block(a, i + 1, stmts2, Some(e))
                },
                None => None,
            }
        } else {
            None
        }
    }
}

/// One `line` of a file: `Some(None)` for the end of input (or a node
/// that is not a line), which ends the list of statements.
pub open spec fn p_statement(line: ParseNode) -> Option<Option<SpecStatement>>
    decreases line, 1int,
{
    if line.kind != NodeKind::Line {
        Some(None)
    } else if line.children@.len() == 0 {
        None
    } else {
        proof {
            assert(decreases_to!(line.children => line.children[0]));
        }
        let main = line.children@[0];
        let suppressed = line.children@.len() > 1 && line.children@[1].kind == NodeKind::Suppress;
        if main.kind == NodeKind::Assignment {
            match p_assignment(main, suppressed) {
                Some(s) => Some(Some(s)),
                None => None,
            }
        } else if main.kind == NodeKind::Export {
            if main.children@.len() == 0 {
                None
            } else {
                Some(Some(SpecStatement::Export(main.children@[0].text@)))
            }
        } else if main.kind == NodeKind::Import {
            if main.children@.len() == 0 || main.children@[0].children@.len() == 0 {
                None
            } else {
                Some(Some(SpecStatement::Import(main.children@[0].children@[0].text@)))
            }
        } else if main.kind == NodeKind::Module {
            if main.children@.len() == 0 {
                None
            } else {
                match p_statements(main, 1, Seq::empty()) {
                    Some(body) => Some(Some(SpecStatement::Module(main.children@[0].text@, body))),
                    None => None,
                }
            }
        } else if main.kind == NodeKind::Equivalence {
            if main.children@.len() < 2 {
                None
            } else {
                proof {
                    assert(decreases_to!(main.children => main.children[0]));
                    assert(decreases_to!(main.children => main.children[1]));
                }
                match (p_expr(main.children@[0]), p_expr(main.children@[1])) {
                    (Some(l), Some(r)) => Some(Some(SpecStatement::Equivalence(l, r, suppressed))),
                    _ => None,
                }
            }
        } else if main.kind == NodeKind::Expr {
            match p_expr(main) {
                Some(e) => Some(Some(SpecStatement::Expression(e, suppressed))),
                None => None,
            }
        } else {
            None
        }
    }
}

/// The statements of the lines `n.children[i..]`, appended to `acc`,
/// up to the end of input.
pub open spec fn p_statements(n: ParseNode, i: int, acc: Seq<SpecStatement>) -> Option<Seq<SpecStatement>>
    decreases n, n.children@.len() - i,
{
    if i < 0 || i >= n.children@.len() {
        Some(acc)
    } else {
        proof {
            assert(decreases_to!(n.children => n.children[i]));
        }
        match p_statement(n.children@[i]) {
            None => None,
            Some(None) => Some(acc),
            Some(Some(s)) => p_statements(n, i + 1, acc.push(s)),
        }
    }
}

/// A list of statements ends at the first node that is not a line (the
/// end of input): what follows it is not read.
pub proof fn law_statements_stop(n: ParseNode, i: int, acc: Seq<SpecStatement>)
    requires
        0 <= i < n.children@.len(),
        n.children@[i].kind != NodeKind::Line,
    ensures
        p_statements(n, i, acc) == Some(acc),
{
    assert(p_statement(n.children@[i]) == Some(None::<SpecStatement>));
}

/// The statements of a file, given the top-level nodes of its parse: the
/// lines below the first of them.
pub open spec fn p_file(pairs: Seq<ParseNode>) -> Option<Seq<SpecStatement>> {
    if pairs.len() == 0 {
        None
    } else {
        p_statements(pairs[0], 0, Seq::empty())
    }
}

// ---------------------------------------------------------------------
// Executable conversion
pub open spec fn opt_expr(r: Option<Expr>) -> Option<SpecExpr> {
    match r {
        Some(e) => Some(e.model()),
        None => None,
    }
}

pub open spec fn opt_exprs(r: Option<Vec<Expr>>) -> Option<Seq<SpecExpr>> {
    match r {
        Some(v) => Some(exprs_model(v@)),
        None => None,
    }
}

pub open spec fn opt_stmts(r: Option<Vec<Statement>>) -> Option<Seq<SpecStatement>> {
    match r {
        Some(v) => Some(statements_model(v@)),
        None => None,
    }
}

fn is_space_char(c: char) -> (r: bool)
    ensures
        r == is_space(c),
{
    ('\u{9}' <= c && c <= '\u{d}') || c == ' ' || c == '\u{85}' || c == '\u{a0}' || c == '\u{1680}'
        || ('\u{2000}' <= c && c <= '\u{200a}') || c == '\u{2028}' || c == '\u{2029}' || c
        == '\u{202f}' || c == '\u{205f}' || c == '\u{3000}'
}

/// `s` without leading and trailing white space, as `str::trim` gives it.
pub fn trim_str(s: &str) -> (r: String)
    ensures
        r@ == trim_text(s@),
{
    let n = s.unicode_len();
    let mut start: usize = 0;
    assert(s@.subrange(0, n as int) =~= s@);
    while start < n && is_space_char(s.get_char(start))
        invariant
            n == s@.len(),
            start <= n,
            trim_start(s@) == trim_start(s@.subrange(start as int, n as int)),
        decreases n - start,
    {
        assert(s@.subrange(start as int, n as int).drop_first() =~= s@.subrange(start + 1, n as int));
        start = start + 1;
    }
    assert(trim_start(s@) == s@.subrange(start as int, n as int)) by {
        if start == n {
            assert(s@.subrange(start as int, n as int) =~= Seq::<char>::empty());
        }
    }
    let mut end: usize = n;
    while end > start && is_space_char(s.get_char(end - 1))
        invariant
            n == s@.len(),
            start <= end <= n,
            trim_end(s@.subrange(start as int, n as int)) == trim_end(s@.subrange(start as int, end as int)),
        decreases end - start,
    {
        assert(s@.subrange(start as int, end as int).drop_last() =~= s@.subrange(start as int, end - 1));
        end = end - 1;
    }
    assert(trim_end(s@.subrange(start as int, end as int)) == s@.subrange(start as int, end as int)) by {
        if start == end {
            assert(s@.subrange(start as int, end as int) =~= Seq::<char>::empty());
        }
    }
    String::from_str(s.substring_char(start, end))
}

/// For decimal digits `d`, a longer prefix never denotes a smaller number.
proof fn lemma_dec_value_prefix(d: Seq<char>, j: int)
    requires
        0 <= j <= d.len(),
        all_digits(d),
    ensures
        dec_value(d.take(j)) <= dec_value(d),
    decreases d.len() - j,
{
    if j < d.len() {
        lemma_dec_value_prefix(d, j + 1);
        assert(d.take(j + 1).drop_last() =~= d.take(j));
        assert(is_digit(d[j]));
    } else {
        assert(d.take(j) =~= d);
    }
}

/// The `usize` that `s` denotes (see [`parse_usize`]).
pub fn parse_index(s: &str) -> (r: Option<usize>)
    ensures
        r == parse_usize(s@),
{
    let n = s.unicode_len();
    let mut i: usize = 0;
    if n > 0 && s.get_char(0) == '+' {
        i = 1;
    }
    let ghost d = s@.subrange(i as int, n as int);
    assert(d =~= (if s@.len() > 0 && s@[0] == '+' {
        s@.drop_first()
    } else {
        s@
    }));
    if i == n {
        return None;
    }
    let mut acc: usize = 0;
    let mut j: usize = i;
    assert(d.take(0) =~= Seq::<char>::empty());
    while j < n
        invariant
            i <= j <= n,
            n == s@.len(),
            d == s@.subrange(i as int, n as int),
            d == (if s@.len() > 0 && s@[0] == '+' {
                s@.drop_first()
            } else {
                s@
            }),
            all_digits(d.take(j - i)),
            acc == dec_value(d.take(j - i)),
        decreases n - j,
    {
        let c = s.get_char(j);
        assert(d[j - i] == c);
        if !('0' <= c && c <= '9') {
            assert(!all_digits(d));
            return None;
        }
        let digit: u32 = (c as u32) - ('0' as u32);
        let ghost k = j - i;
        assert(d.take(k + 1).drop_last() =~= d.take(k));
        assert(d.take(k + 1).last() == c);
        assert(all_digits(d.take(k + 1)));
        assert(dec_value(d.take(k + 1)) == dec_value(d.take(k)) * 10 + digit);
        match acc.checked_mul(10) {
            None => {
                proof {
                    if all_digits(d) {
                        lemma_dec_value_prefix(d, k + 1);
                    }
                }
                return None;
            },
            Some(a10) => match a10.checked_add(digit as usize) {
                None => {
                    proof {
                        if all_digits(d) {
                            lemma_dec_value_prefix(d, k + 1);
                        }
                    }
                    return None;
                },
                Some(a) => {
                    acc = a;
                },
            },
        }
        j = j + 1;
    }
    assert(d.take(n - i) =~= d);
    Some(acc)
}

fn prec_of(k: NodeKind) -> (r: u8)
    ensures
        r == prec(k),
{
    match k {
        NodeKind::CompareOp => 1,
        NodeKind::AddOp => 2,
        NodeKind::MulOp => 3,
        NodeKind::PowOp => 4,
        _ => 0,
    }
}

/// Where the operand/operator list `items[lo..hi]` is split (see
/// [`split_at`]).
fn split_point(items: &Vec<ParseNode>, lo: usize, hi: usize) -> (k: usize)
    requires
        lo + 2 <= hi <= items@.len(),
    ensures
        k == split_at(items@, lo as int, hi as int),
{
    let mut m: u8 = 5;
    let mut j: usize = lo + 1;
    while j < hi
        invariant
            lo + 1 <= j,
            hi <= items@.len(),
            m <= 5,
            min_prec(items@, lo + 1, hi as int) == (if m < min_prec(items@, j as int, hi as int) {
                m as int
            } else {
                min_prec(items@, j as int, hi as int)
            }),
        decreases hi - j,
    {
        let p = prec_of(items[j].kind);
        assert(min_prec(items@, j as int, hi as int) == (if (p as int) < min_prec(items@, j + 2, hi as int) {
            p as int
        } else {
            min_prec(items@, j + 2, hi as int)
        }));
        if p < m {
            m = p;
        }
        if j >= hi - 2 {
            assert(min_prec(items@, j + 2, hi as int) == 5);
            assert(min_prec(items@, hi as int, hi as int) == 5);
            j = hi;
        } else {
            j = j + 2;
        }
    }
    assert(min_prec(items@, j as int, hi as int) == 5);
    if m == 4 {
        let mut f: usize = lo + 1;
        while f < hi
            invariant
                lo + 1 <= f,
                hi <= items@.len(),
                split_at(items@, lo as int, hi as int) == first_with(items@, lo + 1, hi as int, 4),
                first_with(items@, lo + 1, hi as int, 4) == first_with(items@, f as int, hi as int, 4),
            decreases hi - f,
        {
            if prec_of(items[f].kind) == 4 {
                return f;
            }
            if f >= hi - 2 {
                assert(first_with(items@, f + 2, hi as int, 4) == hi);
                assert(first_with(items@, hi as int, hi as int, 4) == hi);
                f = hi;
            } else {
                f = f + 2;
            }
        }
        hi
    } else {
        let mut jp: usize = hi;
        while jp - lo >= 3
            invariant
                lo <= jp <= hi,
                split_at(items@, lo as int, hi as int) == last_with(items@, lo + 1, hi - 2, m as int),
                hi <= items@.len(),
                last_with(items@, lo + 1, hi - 2, m as int) == last_with(items@, lo + 1, jp - 2, m as int),
            decreases jp,
        {
            if prec_of(items[jp - 2].kind) == m {
                return jp - 2;
            }
            jp = jp - 2;
        }
        lo
    }
}

/// The access step of a `dot_access` node (see [`p_step`]).
fn parse_step(a: &ParseNode) -> (r: Option<Access>)
    ensures
        (match r {
            Some(x) => Some(x.model()),
            None => None,
        }) == p_step(*a),
{
    if a.children.len() == 0 {
        return None;
    }
    let inner = &a.children[0];
    if inner.kind == NodeKind::Ident {
        Some(Access::Name(inner.text.clone()))
    } else if inner.kind == NodeKind::TupleIndex {
        match parse_index(inner.text.as_str()) {
            Some(k) => Some(Access::Index(k)),
            None => None,
        }
    } else {
        None
    }
}

/// The access steps `nodes[i..]`, appended to `acc` (see [`p_steps`]).
fn parse_steps(nodes: &Vec<ParseNode>, i: usize, acc: Vec<Access>) -> (r: Option<Vec<Access>>)
    requires
        i <= nodes@.len(),
    ensures
        (match r {
            Some(v) => Some(accesses_model(v@)),
            None => None,
        }) == p_steps(nodes@, i as int, accesses_model(acc@)),
    decreases nodes@.len() - i,
{
    if i >= nodes.len() {
        return Some(acc);
    }
    match parse_step(&nodes[i]) {
        Some(s) => {
            let ghost am = accesses_model(acc@);
            let ghost sm = s.model();
            let mut acc2 = acc;
            acc2.push(s);
            assert(accesses_model(acc2@) =~= am.push(sm));
            parse_steps(nodes, i + 1, acc2)
        },
        None => None,
    }
}

/// The texts of the children of `n`.
fn child_text_list(n: &ParseNode) -> (r: Vec<String>)
    ensures
        strings_model(r@) == child_texts(*n),
{
    let mut out: Vec<String> = Vec::new();
    let mut i: usize = 0;
    while i < n.children.len()
        invariant
            i <= n.children@.len(),
            out@.len() == i,
            forall|j: int| 0 <= j < i ==> #[trigger] out@[j]@ == n.children@[j].text@,
        decreases n.children@.len() - i,
    {
        out.push(n.children[i].text.clone());
        i = i + 1;
    }
    assert(strings_model(out@) =~= child_texts(*n));
    out
}

/// The expression of a node whose children are an operand/operator list
/// (see [`p_expr`]).
pub fn parse_expr(n: &ParseNode) -> (r: Option<Expr>)
    ensures
        opt_expr(r) == p_expr(*n),
    decreases n, n.children@.len() + 2,
{
    parse_climb(n, 0, n.children.len())
}

fn parse_climb(n: &ParseNode, lo: usize, hi: usize) -> (r: Option<Expr>)
    ensures
        opt_expr(r) == p_climb(*n, lo as int, hi as int),
    decreases n, hi - lo,
{
    if !(lo < hi && hi <= n.children.len()) {
        return None;
    }
    if hi - lo == 1 {
        return parse_operand(&n.children[lo]);
    }
    let k = split_point(&n.children, lo, hi);
    if lo < k && k < hi - 1 && prec_of(n.children[k].kind) > 0 {
        let l = parse_climb(n, lo, k);
        let r = parse_climb(n, k + 1, hi);
        match (l, r) {
            (Some(l), Some(r)) => Some(
                Expr::Binary { lhs: Box::new(l), op: n.children[k].text.clone(), rhs: Box::new(r) },
            ),
            _ => None,
        }
    } else {
        None
    }
}

/// The expressions of `n.children[i..]`, appended to `acc` (see
/// [`p_exprs`]).
fn parse_exprs(n: &ParseNode, i: usize, acc: Vec<Expr>) -> (r: Option<Vec<Expr>>)
    requires
        i <= n.children@.len(),
    ensures
        opt_exprs(r) == p_exprs(*n, i as int, exprs_model(acc@)),
    decreases n, n.children@.len() - i,
{
    if i >= n.children.len() {
        return Some(acc);
    }
    match parse_expr(&n.children[i]) {
        Some(e) => {
            let ghost am = exprs_model(acc@);
            let ghost em = e.model();
            let mut acc2 = acc;
            acc2.push(e);
            assert(exprs_model(acc2@) =~= am.push(em));
            parse_exprs(n, i + 1, acc2)
        },
        None => None,
    }
}

/// An operand of an operator list (see [`p_operand`]).
fn parse_operand(n: &ParseNode) -> (r: Option<Expr>)
    ensures
        opt_expr(r) == p_operand(*n),
    decreases n, n.children@.len() + 5,
{
    match n.kind {
        NodeKind::Number => Some(Expr::Number(n.number)),
        NodeKind::Ident => Some(Expr::Variable(trim_str(n.text.as_str()))),
        NodeKind::Primary => parse_primary(n),
        NodeKind::Ternary => {
            if n.children.len() < 3 {
                return None;
            }
            let c = parse_expr(&n.children[0]);
            let t = parse_expr(&n.children[1]);
            let f = parse_expr(&n.children[2]);
            match (c, t, f) {
                (Some(c), Some(t), Some(f)) => Some(
                    Expr::Ternary { condition: Box::new(c), true_branch: Box::new(t), false_branch: Box::new(f) },
                ),
                _ => None,
            }
        },
        NodeKind::Expr | NodeKind::Comparison | NodeKind::Sum | NodeKind::Term | NodeKind::Factor => parse_expr(n),
        _ => None,
    }
}

/// A `primary` node (see [`p_primary`]).
fn parse_primary(n: &ParseNode) -> (r: Option<Expr>)
    ensures
        opt_expr(r) == p_primary(*n),
    decreases n, n.children@.len() + 4,
{
    if n.children.len() == 0 {
        return None;
    }
    let first = &n.children[0];
    let atom = if first.kind == NodeKind::Atom {
        if first.children.len() == 0 {
            return None;
        }
        parse_atom(&first.children[0])
    } else {
        parse_atom(first)
    };
    match atom {
        Some(e) => parse_suffixes(n, 1, e),
        None => None,
    }
}

/// `cur` with the suffixes `n.children[i..]` applied (see
/// [`p_suffixes`]).
fn parse_suffixes(n: &ParseNode, i: usize, cur: Expr) -> (r: Option<Expr>)
    ensures
        opt_expr(r) == p_suffixes(*n, i as int, cur.model()),
    decreases n, n.children@.len() - i,
{
    if i >= n.children.len() {
        return Some(cur);
    }
    let s = &n.children[i];
    if s.kind == NodeKind::DotAccess {
        match parse_step(s) {
            Some(step) => {
                let ghost sm = step.model();
                let ghost cm = cur.model();
                let next = match cur {
                    Expr::MemberAccess(base, path) => {
                        let ghost pm = accesses_model(path@);
                        let mut p = path;
                        p.push(step);
                        assert(accesses_model(p@) =~= pm.push(sm));
                        Expr::MemberAccess(base, p)
                    },
                    other => {
                        let mut p: Vec<Access> = Vec::new();
                        p.push(step);
                        assert(accesses_model(p@) =~= seq![sm]);
                        Expr::MemberAccess(Box::new(other), p)
                    },
                };
                parse_suffixes(n, i + 1, next)
            },
            None => None,
        }
    } else if s.kind == NodeKind::CallArgs {
        let args = if s.children.len() == 0 {
            let v: Vec<Expr> = Vec::new();
            assert(exprs_model(v@) =~= Seq::<SpecExpr>::empty());
            Some(v)
        } else {
            let v: Vec<Expr> = Vec::new();
            assert(exprs_model(v@) =~= Seq::<SpecExpr>::empty());
            parse_exprs(&s.children[0], 0, v)
        };
        match args {
            Some(a) => {
                let c = Box::new(cur);
                proof {
                    lemma_call_model(c, a);
                }
                parse_suffixes(n, i + 1, Expr::Call { callee: c, args: a })
            },
            None => None,
        }
    } else {
        None
    }
}

/// An atom (see [`p_atom`]).
fn parse_atom(a: &ParseNode) -> (r: Option<Expr>)
    ensures
        opt_expr(r) == p_atom(*a),
    decreases a, a.children@.len() + 3,
{
    match a.kind {
        NodeKind::Number => Some(Expr::Number(a.number)),
        NodeKind::Ident => Some(Expr::Variable(trim_str(a.text.as_str()))),
        NodeKind::Expr => parse_expr(a),
        NodeKind::Lambda => {
            if a.children.len() == 0 {
                return None;
            }
            let first = &a.children[0];
            if first.kind == NodeKind::IdList {
                if a.children.len() < 2 {
                    return None;
                }
                match parse_expr(&a.children[1]) {
                    Some(b) => Some(Expr::Lambda { args: child_text_list(first), body: Box::new(b) }),
                    None => None,
                }
            } else {
                match parse_expr(first) {
                    Some(b) => {
                        let args: Vec<String> = Vec::new();
                        assert(strings_model(args@) =~= Seq::<Seq<char>>::empty());
                        Some(Expr::Lambda { args, body: Box::new(b) })
                    },
                    None => None,
                }
            }
        },
        NodeKind::LoopExpr => {
            let bs: Vec<(String, Expr)> = Vec::new();
            assert(loop_bindings_model(bs@) =~= Seq::<(Seq<char>, SpecExpr)>::empty());
            parse_loop(a, 0, bs, None)
        },
        NodeKind::RecurExpr => {
            let v: Vec<Expr> = Vec::new();
            assert(exprs_model(v@) =~= Seq::<SpecExpr>::empty());
            match parse_exprs(a, 0, v) {
                Some(v) => {
                    proof {
                        lemma_tuple_expr_model(v);
                    }
                    Some(Expr::Recur(v))
                },
                None => None,
            }
        },
        NodeKind::Block => {
            let v: Vec<Statement> = Vec::new();
            assert(statements_model(v@) =~= Seq::<SpecStatement>::empty());
            parse_block(a, 0, v, None)
        },
        NodeKind::Tuple => {
            let v: Vec<Expr> = Vec::new();
            assert(exprs_model(v@) =~= Seq::<SpecExpr>::empty());
            match parse_exprs(a, 0, v) {
                Some(v) => {
                    proof {
                        lemma_tuple_expr_model(v);
                    }
                    Some(Expr::Tuple(v))
                },
                None => None,
            }
        },
        NodeKind::Length => match parse_expr(a) {
            Some(e) => Some(Expr::Length(Box::new(e))),
            None => None,
        },
        _ => None,
    }
}

/// The parts `a.children[i..]` of a loop (see [`p_loop`]).
fn parse_loop(a: &ParseNode, i: usize, bindings: Vec<(String, Expr)>, body: Option<Expr>) -> (r: Option<Expr>)
    requires
        i <= a.children@.len(),
    ensures
        opt_expr(r) == p_loop(*a, i as int, loop_bindings_model(bindings@), opt_expr(body)),
    decreases a, a.children@.len() - i,
{
    if i >= a.children.len() {
        return match body {
            Some(b) => {
                let bx = Box::new(b);
                proof {
                    lemma_loop_model(bindings, bx);
                }
                Some(Expr::Loop { bindings, body: bx })
            },
            None => None,
        };
    }
    let c = &a.children[i];
    if c.kind == NodeKind::Assignment {
        if c.children.len() < 2 {
            return None;
        }
        match parse_expr(&c.children[1]) {
            Some(v) => {
                let name = trim_str(c.children[0].text.as_str());
                let ghost bm = loop_bindings_model(bindings@);
                let ghost item = (name@, v.model());
                let mut bs = bindings;
                bs.push((name, v));
                assert(loop_bindings_model(bs@) =~= bm.push(item));
                parse_loop(a, i + 1, bs, body)
            },
            None => None,
        }
    } else if c.kind == NodeKind::Expr {
        match parse_expr(c) {
            Some(b) => parse_loop(a, i + 1, bindings, Some(b)),
            None => None,
        }
    } else {
        parse_loop(a, i + 1, bindings, body)
    }
}

/// An assignment node as a statement (see [`p_assignment`]).
fn parse_assignment(c: &ParseNode, suppressed: bool) -> (r: Option<Statement>)
    ensures
        (match r {
            Some(s) => Some(s.model()),
            None => None,
        }) == p_assignment(*c, suppressed),
    decreases c, 0int,
{
    if c.children.len() < 2 {
        return None;
    }
    let lv = &c.children[0];
    if lv.children.len() == 0 {
        return None;
    }
    let empty: Vec<Access> = Vec::new();
    assert(accesses_model(empty@) =~= Seq::<SpecAccess>::empty());
    let path = parse_steps(&lv.children, 1, empty);
    let e = parse_expr(&c.children[1]);
    match (path, e) {
        (Some(path), Some(e)) => Some(Statement::Assignment(lv.children[0].text.clone(), path, e, suppressed)),
        _ => None,
    }
}

/// The parts `a.children[i..]` of a block (see [`p_block`]).
fn parse_block(a: &ParseNode, i: usize, stmts: Vec<Statement>, last: Option<Expr>) -> (r: Option<Expr>)
    requires
        i <= a.children@.len(),
    ensures
        opt_expr(r) == p_block(*a, i as int, statements_model(stmts@), opt_expr(last)),
    decreases a, a.children@.len() - i,
{
    if i >= a.children.len() {
        let ret = match last {
            Some(e) => Box::new(e),
            None => Box::new(Expr::Number(0)),
        };
        proof {
            lemma_block_model(stmts, ret);
        }
        return Some(Expr::Block { statements: stmts, ret });
    }
    let c = &a.children[i];
    if c.kind == NodeKind::Export || c.kind == NodeKind::Import {
        parse_block(a, i + 1, stmts, last)
    } else if c.kind == NodeKind::Assignment {
        match parse_assignment(c, true) {
            Some(s) => {
                let ghost sm = statements_model(stmts@);
                let ghost xm = s.model();
                let mut v = stmts;
                v.push(s);
                assert(statements_model(v@) =~= sm.push(xm));
                parse_block(a, i + 1, v, last)
            },
            None => None,
        }
    } else if c.kind == NodeKind::Expr {
        match parse_expr(c) {
            Some(e) => {
                let ghost sm = statements_model(stmts@);
                let mut v = stmts;
                match last {
                    Some(prev) => {
                        let ghost xm = Statement::Expression(prev, true).model();
                        v.push(Statement::Expression(prev, true));
                        assert(statements_model(v@) =~= sm.push(xm));
                    },
                    None => {},
                }
                parse_block(a, i + 1, v, Some(e))
            },
            None => None,
        }
    } else {
        None
    }
}

/// One line of a file (see [`p_statement`]).
fn parse_statement(line: &ParseNode) -> (r: Option<Option<Statement>>)
    ensures
        (match r {
            Some(Some(s)) => Some(Some(s.model())),
            Some(None) => Some(None),
            None => None,
        }) == p_statement(*line),
    decreases line, 1int,
{
    if line.kind != NodeKind::Line {
        return Some(None);
    }
    if line.children.len() == 0 {
        return None;
    }
    let main = &line.children[0];
    let suppressed = line.children.len() > 1 && line.children[1].kind == NodeKind::Suppress;
    if main.kind == NodeKind::Assignment {
        match parse_assignment(main, suppressed) {
            Some(s) => Some(Some(s)),
            None => None,
        }
    } else if main.kind == NodeKind::Export {
        if main.children.len() == 0 {
            return None;
        }
        Some(Some(Statement::Export(main.children[0].text.clone())))
    } else if main.kind == NodeKind::Import {
        if main.children.len() == 0 || main.children[0].children.len() == 0 {
            return None;
        }
        Some(Some(Statement::Import(main.children[0].children[0].text.clone())))
    } else if main.kind == NodeKind::Module {
        if main.children.len() == 0 {
            return None;
        }
        match parse_statements(main, 1) {
            Some(body) => {
                let name = main.children[0].text.clone();
                proof {
                    lemma_module_model(name, body);
                }
                Some(Some(Statement::Module(name, body)))
            },
            None => None,
        }
    } else if main.kind == NodeKind::Equivalence {
        if main.children.len() < 2 {
            return None;
        }
        let l = parse_expr(&main.children[0]);
        let r = parse_expr(&main.children[1]);
        match (l, r) {
            (Some(l), Some(r)) => Some(Some(Statement::Equivalence(l, r, suppressed))),
            _ => None,
        }
    } else if main.kind == NodeKind::Expr {
        match parse_expr(main) {
            Some(e) => Some(Some(Statement::Expression(e, suppressed))),
            None => None,
        }
    } else {
        None
    }
}

/// The statements of the lines `n.children[first..]`, up to the end of
/// input (see [`p_statements`]).
pub fn parse_statements(n: &ParseNode, first: usize) -> (r: Option<Vec<Statement>>)
    requires
        first <= n.children@.len(),
    ensures
        opt_stmts(r) == p_statements(*n, first as int, Seq::empty()),
    decreases n, n.children@.len() - first + 1,
{
    let v: Vec<Statement> = Vec::new();
    assert(statements_model(v@) =~= Seq::<SpecStatement>::empty());
    parse_statements_from(n, first, v)
}

fn parse_statements_from(n: &ParseNode, i: usize, acc: Vec<Statement>) -> (r: Option<Vec<Statement>>)
    requires
        i <= n.children@.len(),
    ensures
        opt_stmts(r) == p_statements(*n, i as int, statements_model(acc@)),
    decreases n, n.children@.len() - i,
{
    if i >= n.children.len() {
        return Some(acc);
    }
    match parse_statement(&n.children[i]) {
        None => None,
        Some(None) => Some(acc),
        Some(Some(s)) => {
            let ghost am = statements_model(acc@);
            let ghost sm = s.model();
            let mut acc2 = acc;
            acc2.push(s);
            assert(statements_model(acc2@) =~= am.push(sm));
            parse_statements_from(n, i + 1, acc2)
        },
    }
}

/// The error for a parse tree without the grammar's shape.
pub open spec fn malformed() -> Seq<char> {
    "malformed syntax tree"@
}

/// The statements of a file, given the top-level nodes of its parse (see
/// [`p_file`]); a tree without the grammar's shape is an error.
pub fn parse_math_file(pairs: &Vec<ParseNode>) -> (r: Result<Vec<Statement>, String>)
    ensures
        r matches Ok(v) ==> p_file(pairs@) == Some(statements_model(v@)),
        r matches Err(m) ==> p_file(pairs@) is None && m@ == malformed(),
{
    if pairs.len() == 0 {
        return Err(String::from_str("malformed syntax tree"));
    }
    match parse_statements(&pairs[0], 0) {
        Some(v) => Ok(v),
        None => Err(String::from_str("malformed syntax tree")),
    }
}

} // verus!
