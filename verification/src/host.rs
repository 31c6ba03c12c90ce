//! What the interpreter asks of the program that runs it: binary64
//! arithmetic and number text, descriptions of values for error messages,
//! and the file system for `import`.
//!
//! The interpreter's contracts speak of the host's answers as a log: every
//! answer the host gives is appended to a [`HostLog`], and the semantics in
//! `semantics.rs` reads answers from that log in order.
use vstd::prelude::*;
use crate::ast::{Expr, SpecExpr};
use crate::parser::ParseNode;
use crate::value::{SpecValue, Value};

verus! {

/// The arithmetic operators on numbers.
#[derive(Debug, Clone, Copy, PartialEq, Eq)]
pub enum NumOp {
    Add,
    Sub,
    Mul,
    Div,
    Pow,
}

/// The comparison operators on numbers.
#[derive(Debug, Clone, Copy, PartialEq, Eq)]
pub enum Comparison {
    Eq,
    Ne,
    Gt,
    Lt,
    Ge,
    Le,
}

/// One entry of a directory named by an `import`.
pub enum DirEntry {
    /// The entry could not be read.
    Unreadable,
    /// Not a `.sw` file.
    Other,
    /// A `.sw` file: its name without extension, and its path.
    Source { stem: String, path: String },
}

/// What an `import` path names on disk.
pub enum ImportTarget {
    /// A directory, with its entries (`None` when it cannot be listed).
    Directory(Option<Vec<DirEntry>>),
    /// The path with `.sw` appended is an existing file.
    SwFile,
    /// The path itself is a file; the field is its name without extension.
    File(String),
    /// Nothing of that name.
    Missing,
}

/// The outcome of reading and parsing a source file.
pub enum SourceLoad {
    /// The file could not be read.
    Unreadable,
    /// The grammar rejected the text; the field is the parser's message.
    SyntaxError(String),
    /// The top-level nodes of the parse.
    Tree(Vec<ParseNode>),
}

/// The services the interpreter needs from the program that runs it.
pub trait Host {
    /// `a op b` on binary64 values.
    fn arith(&self, op: NumOp, a: u64, b: u64) -> u64;

    /// `a op b` on binary64 values.
    fn compare(&self, op: Comparison, a: u64, b: u64) -> bool;

    /// `a as usize`.
    fn to_index(&self, a: u64) -> usize;

    /// `n as f64`.
    fn from_count(&self, n: usize) -> u64;

    /// The decimal text of a number.
    fn number_text(&self, a: u64) -> String;

    /// A debugging description of an expression.
    fn describe_expr(&self, e: &Expr) -> String;

    /// A debugging description of a value.
    fn describe_value(&self, v: &Value) -> String;

    /// What the `import` path names.
    fn locate(&self, raw_path: &str) -> ImportTarget;

    /// Reads and parses the file at `path`.
    fn load(&self, path: &str) -> SourceLoad;

    /// Parses source text: the top-level nodes of the parse, or the
    /// parser's message.
    fn parse_source(&self, code: &str) -> Result<Vec<ParseNode>, String>;
}

/// Model of [`DirEntry`].
pub enum SpecDirEntry {
    Unreadable,
    Other,
    Source(Seq<char>, Seq<char>),
}

/// Model of [`ImportTarget`].
pub enum SpecImportTarget {
    Directory(Option<Seq<SpecDirEntry>>),
    SwFile,
    File(Seq<char>),
    Missing,
}

/// Model of [`SourceLoad`].
pub enum SpecSourceLoad {
    Unreadable,
    SyntaxError(Seq<char>),
    Tree(Seq<ParseNode>),
}

/// One answer of the host, with the question it answers.
pub enum Answer {
    /// `a op b` is the number.
    Arith(NumOp, u64, u64, u64),
    /// `a op b` holds or not.
    Compare(Comparison, u64, u64, bool),
    /// The number as an index.
    Index(u64, usize),
    /// The count as a number.
    Count(usize, u64),
    /// The text of the number.
    NumberText(u64, Seq<char>),
    /// The description of the expression.
    ExprText(SpecExpr, Seq<char>),
    /// The description of the value.
    ValueText(SpecValue, Seq<char>),
    /// What the import path names.
    Target(Seq<char>, SpecImportTarget),
    /// What loading the file gave.
    Load(Seq<char>, SpecSourceLoad),
    /// What parsing the source text gave.
    Parsed(Seq<char>, Result<Seq<ParseNode>, Seq<char>>),
}

impl DirEntry {
    pub open spec fn model(&self) -> SpecDirEntry {
        match self {
            DirEntry::Unreadable => SpecDirEntry::Unreadable,
            DirEntry::Other => SpecDirEntry::Other,
            DirEntry::Source { stem, path } => SpecDirEntry::Source(stem@, path@),
        }
    }
}

impl ImportTarget {
    pub open spec fn model(&self) -> SpecImportTarget {
        match self {
            ImportTarget::Directory(None) => SpecImportTarget::Directory(None),
            ImportTarget::Directory(Some(v)) => SpecImportTarget::Directory(Some(entries_model(v@))),
            ImportTarget::SwFile => SpecImportTarget::SwFile,
            ImportTarget::File(s) => SpecImportTarget::File(s@),
            ImportTarget::Missing => SpecImportTarget::Missing,
        }
    }
}

pub open spec fn entries_model(v: Seq<DirEntry>) -> Seq<SpecDirEntry> {
    Seq::new(v.len(), |i: int| v[i].model())
}

impl SourceLoad {
    pub open spec fn model(&self) -> SpecSourceLoad {
        match self {
            SourceLoad::Unreadable => SpecSourceLoad::Unreadable,
            SourceLoad::SyntaxError(s) => SpecSourceLoad::SyntaxError(s@),
            SourceLoad::Tree(v) => SpecSourceLoad::Tree(v@),
        }
    }
}

/// A stream of host answers; the `i`-th answer is `o(i)`.
pub type Oracle = spec_fn(nat) -> Answer;

/// `o` gives the answers of `log`, in order.
pub open spec fn agrees(o: Oracle, log: Seq<Answer>) -> bool {
    forall|i: int| #![trigger log[i]] 0 <= i < log.len() ==> o(i as nat) == log[i]
}

/// `l2` begins with `l1`.
pub open spec fn extends(l2: Seq<Answer>, l1: Seq<Answer>) -> bool {
    &&& l1.len() <= l2.len()
    &&& forall|i: int| #![trigger l1[i]] 0 <= i < l1.len() ==> l2[i] == l1[i]
}

// The answer at a position of the log, read as the answer to a given
// question: an answer to another question reads as a fixed default.
pub open spec fn ans_arith(a: Answer, op: NumOp, x: u64, y: u64) -> u64 {
    match a {
        Answer::Arith(op2, x2, y2, r) => if op2 == op && x2 == x && y2 == y {
            r
        } else {
            0
        },
        _ => 0,
    }
}

pub open spec fn ans_compare(a: Answer, op: Comparison, x: u64, y: u64) -> bool {
    match a {
        Answer::Compare(op2, x2, y2, r) => op2 == op && x2 == x && y2 == y && r,
        _ => false,
    }
}

pub open spec fn ans_index(a: Answer, x: u64) -> usize {
    match a {
        Answer::Index(x2, r) => if x2 == x {
            r
        } else {
            0
        },
        _ => 0,
    }
}

pub open spec fn ans_count(a: Answer, n: usize) -> u64 {
    match a {
        Answer::Count(n2, r) => if n2 == n {
            r
        } else {
            0
        },
        _ => 0,
    }
}

pub open spec fn ans_number_text(a: Answer, x: u64) -> Seq<char> {
    match a {
        Answer::NumberText(x2, t) => if x2 == x {
            t
        } else {
            Seq::empty()
        },
        _ => Seq::empty(),
    }
}

pub open spec fn ans_expr_text(a: Answer, e: SpecExpr) -> Seq<char> {
    match a {
        Answer::ExprText(e2, t) => if e2 == e {
            t
        } else {
            Seq::empty()
        },
        _ => Seq::empty(),
    }
}

pub open spec fn ans_value_text(a: Answer, v: SpecValue) -> Seq<char> {
    match a {
        Answer::ValueText(v2, t) => if v2 == v {
            t
        } else {
            Seq::empty()
        },
        _ => Seq::empty(),
    }
}

pub open spec fn ans_target(a: Answer, raw: Seq<char>) -> SpecImportTarget {
    match a {
        Answer::Target(raw2, t) => if raw2 == raw {
            t
        } else {
            SpecImportTarget::Missing
        },
        _ => SpecImportTarget::Missing,
    }
}

pub open spec fn ans_load(a: Answer, path: Seq<char>) -> SpecSourceLoad {
    match a {
        Answer::Load(path2, t) => if path2 == path {
            t
        } else {
            SpecSourceLoad::Unreadable
        },
        _ => SpecSourceLoad::Unreadable,
    }
}

pub open spec fn ans_parsed(a: Answer, code: Seq<char>) -> Result<Seq<ParseNode>, Seq<char>> {
    match a {
        Answer::Parsed(code2, t) => if code2 == code {
            t
        } else {
            Err(Seq::empty())
        },
        _ => Err(Seq::empty()),
    }
}

pub open spec fn parsed_model(r: Result<Vec<ParseNode>, String>) -> Result<Seq<ParseNode>, Seq<char>> {
    match r {
        Ok(v) => Ok(v@),
        Err(m) => Err(m@),
    }
}

/// The answers the host has given so far. Only the methods below add to
/// it, each with the answer the host gave to the question it was asked.
pub struct HostLog {
    answers: Ghost<Seq<Answer>>,
}

impl HostLog {
    /// The recorded answers, in order.
    pub closed spec fn answers(&self) -> Seq<Answer> {
        self.answers@
    }

    /// An empty log.
    pub fn new() -> (r: HostLog)
        ensures
            r.answers() == Seq::<Answer>::empty(),
    {
        HostLog { answers: Ghost(Seq::empty()) }
    }

    pub fn arith<H: Host>(&mut self, host: &H, op: NumOp, a: u64, b: u64) -> (r: u64)
        ensures
            final(self).answers() == old(self).answers().push(Answer::Arith(op, a, b, r)),
            extends(final(self).answers(), old(self).answers()),
            forall|o: Oracle| #![trigger agrees(o, final(self).answers())]
                agrees(o, final(self).answers()) ==> o(old(self).answers().len()) == Answer::Arith(op, a, b, r) && agrees(o, old(self).answers()),
    {
        let r = host.arith(op, a, b);
        proof {
            lemma_log_push(self.answers@, Answer::Arith(op, a, b, r));
        }
        self.answers = Ghost(self.answers@.push(Answer::Arith(op, a, b, r)));
        r
    }

    pub fn compare<H: Host>(&mut self, host: &H, op: Comparison, a: u64, b: u64) -> (r: bool)
        ensures
            final(self).answers() == old(self).answers().push(Answer::Compare(op, a, b, r)),
            extends(final(self).answers(), old(self).answers()),
            forall|o: Oracle| #![trigger agrees(o, final(self).answers())]
                agrees(o, final(self).answers()) ==> o(old(self).answers().len()) == Answer::Compare(op, a, b, r) && agrees(o, old(self).answers()),
    {
        let r = host.compare(op, a, b);
        proof {
            lemma_log_push(self.answers@, Answer::Compare(op, a, b, r));
        }
        self.answers = Ghost(self.answers@.push(Answer::Compare(op, a, b, r)));
        r
    }

    pub fn to_index<H: Host>(&mut self, host: &H, a: u64) -> (r: usize)
        ensures
            final(self).answers() == old(self).answers().push(Answer::Index(a, r)),
            extends(final(self).answers(), old(self).answers()),
            forall|o: Oracle| #![trigger agrees(o, final(self).answers())]
                agrees(o, final(self).answers()) ==> o(old(self).answers().len()) == Answer::Index(a, r) && agrees(o, old(self).answers()),
    {
        let r = host.to_index(a);
        proof {
            lemma_log_push(self.answers@, Answer::Index(a, r));
        }
        self.answers = Ghost(self.answers@.push(Answer::Index(a, r)));
        r
    }

    pub fn from_count<H: Host>(&mut self, host: &H, n: usize) -> (r: u64)
        ensures
            final(self).answers() == old(self).answers().push(Answer::Count(n, r)),
            extends(final(self).answers(), old(self).answers()),
            forall|o: Oracle| #![trigger agrees(o, final(self).answers())]
                agrees(o, final(self).answers()) ==> o(old(self).answers().len()) == Answer::Count(n, r) && agrees(o, old(self).answers()),
    {
        let r = host.from_count(n);
        proof {
            lemma_log_push(self.answers@, Answer::Count(n, r));
        }
        self.answers = Ghost(self.answers@.push(Answer::Count(n, r)));
        r
    }

    pub fn number_text<H: Host>(&mut self, host: &H, a: u64) -> (r: String)
        ensures
            final(self).answers() == old(self).answers().push(Answer::NumberText(a, r@)),
            extends(final(self).answers(), old(self).answers()),
            forall|o: Oracle| #![trigger agrees(o, final(self).answers())]
                agrees(o, final(self).answers()) ==> o(old(self).answers().len()) == Answer::NumberText(a, r@) && agrees(o, old(self).answers()),
    {
        let r = host.number_text(a);
        proof {
            lemma_log_push(self.answers@, Answer::NumberText(a, r@));
        }
        self.answers = Ghost(self.answers@.push(Answer::NumberText(a, r@)));
        r
    }

    pub fn describe_expr<H: Host>(&mut self, host: &H, e: &Expr) -> (r: String)
        ensures
            final(self).answers() == old(self).answers().push(Answer::ExprText(e.model(), r@)),
            extends(final(self).answers(), old(self).answers()),
            forall|o: Oracle| #![trigger agrees(o, final(self).answers())]
                agrees(o, final(self).answers()) ==> o(old(self).answers().len()) == Answer::ExprText(e.model(), r@) && agrees(o, old(self).answers()),
    {
        let r = host.describe_expr(e);
        proof {
            lemma_log_push(self.answers@, Answer::ExprText(e.model(), r@));
        }
        self.answers = Ghost(self.answers@.push(Answer::ExprText(e.model(), r@)));
        r
    }

    pub fn describe_value<H: Host>(&mut self, host: &H, v: &Value) -> (r: String)
        ensures
            final(self).answers() == old(self).answers().push(Answer::ValueText(v.model(), r@)),
            extends(final(self).answers(), old(self).answers()),
            forall|o: Oracle| #![trigger agrees(o, final(self).answers())]
                agrees(o, final(self).answers()) ==> o(old(self).answers().len()) == Answer::ValueText(v.model(), r@) && agrees(o, old(self).answers()),
    {
        let r = host.describe_value(v);
        proof {
            lemma_log_push(self.answers@, Answer::ValueText(v.model(), r@));
        }
        self.answers = Ghost(self.answers@.push(Answer::ValueText(v.model(), r@)));
        r
    }

    pub fn locate<H: Host>(&mut self, host: &H, raw_path: &str) -> (r: ImportTarget)
        ensures
            final(self).answers() == old(self).answers().push(Answer::Target(raw_path@, r.model())),
            extends(final(self).answers(), old(self).answers()),
            forall|o: Oracle| #![trigger agrees(o, final(self).answers())]
                agrees(o, final(self).answers()) ==> o(old(self).answers().len()) == Answer::Target(raw_path@, r.model()) && agrees(o, old(self).answers()),
    {
        let r = host.locate(raw_path);
        proof {
            lemma_log_push(self.answers@, Answer::Target(raw_path@, r.model()));
        }
        self.answers = Ghost(self.answers@.push(Answer::Target(raw_path@, r.model())));
        r
    }

    pub fn load<H: Host>(&mut self, host: &H, path: &str) -> (r: SourceLoad)
        ensures
            final(self).answers() == old(self).answers().push(Answer::Load(path@, r.model())),
            extends(final(self).answers(), old(self).answers()),
            forall|o: Oracle| #![trigger agrees(o, final(self).answers())]
                agrees(o, final(self).answers()) ==> o(old(self).answers().len()) == Answer::Load(path@, r.model()) && agrees(o, old(self).answers()),
    {
        let r = host.load(path);
        proof {
            lemma_log_push(self.answers@, Answer::Load(path@, r.model()));
        }
        self.answers = Ghost(self.answers@.push(Answer::Load(path@, r.model())));
        r
    }

    pub fn parse_source<H: Host>(&mut self, host: &H, code: &str) -> (r: Result<Vec<ParseNode>, String>)
        ensures
            final(self).answers() == old(self).answers().push(Answer::Parsed(code@, parsed_model(r))),
            extends(final(self).answers(), old(self).answers()),
            forall|o: Oracle| #![trigger agrees(o, final(self).answers())]
                agrees(o, final(self).answers()) ==> o(old(self).answers().len()) == Answer::Parsed(code@, parsed_model(r)) && agrees(o, old(self).answers()),
    {
        let r = host.parse_source(code);
        proof {
            lemma_log_push(self.answers@, Answer::Parsed(code@, parsed_model(r)));
        }
        self.answers = Ghost(self.answers@.push(Answer::Parsed(code@, parsed_model(r))));
        r
    }
}

/// Appending an answer extends a log, and an oracle that agrees with the
/// longer log gives that answer at that position.
pub proof fn lemma_log_push(l: Seq<Answer>, a: Answer)
    ensures
        extends(l.push(a), l),
        forall|o: Oracle| #![trigger agrees(o, l.push(a))]
            agrees(o, l.push(a)) ==> o(l.len()) == a && agrees(o, l),
{
    assert forall|o: Oracle| #![trigger agrees(o, l.push(a))] agrees(o, l.push(a)) implies o(l.len()) == a
        && agrees(o, l) by {
        assert(l.push(a)[l.len() as int] == a);
        assert forall|i: int| #![trigger l[i]] 0 <= i < l.len() implies o(i as nat) == l[i] by {
            assert(l.push(a)[i] == l[i]);
        }
    }
}

/// Every log extends itself.
pub broadcast proof fn lemma_extends_refl(l: Seq<Answer>)
    ensures
        #[trigger] extends(l, l),
{
}

/// Extension of logs is transitive.
pub proof fn lemma_extends_trans(l3: Seq<Answer>, l2: Seq<Answer>, l1: Seq<Answer>)
    requires
        extends(l3, l2),
        extends(l2, l1),
    ensures
        extends(l3, l1),
{
    assert forall|i: int| #![trigger l1[i]] 0 <= i < l1.len() implies l3[i] == l1[i] by {
        assert(l2[i] == l1[i]);
        assert(l3[i] == l2[i]);
    }
}


/// An oracle that agrees with a log agrees with every log it extends.
pub proof fn lemma_agrees_prefix(o: Oracle, l1: Seq<Answer>, l2: Seq<Answer>)
    requires
        agrees(o, l2),
        extends(l2, l1),
    ensures
        agrees(o, l1),
{
    assert forall|i: int| #![trigger l1[i]] 0 <= i < l1.len() implies o(i as nat) == l1[i] by {
        assert(l2[i] == l1[i]);
    }
}

} // verus!
