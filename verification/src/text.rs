//! Text helpers: decimal numerals, string order, quoting, and `/`-separated
//! paths.
use vstd::prelude::*;
use vstd::string::*;

verus! {

pub open spec fn digit_char(d: nat) -> char {
    if d == 0 {
        '0'
    } else if d == 1 {
        '1'
    } else if d == 2 {
        '2'
    } else if d == 3 {
        '3'
    } else if d == 4 {
        '4'
    } else if d == 5 {
        '5'
    } else if d == 6 {
        '6'
    } else if d == 7 {
        '7'
    } else if d == 8 {
        '8'
    } else {
        '9'
    }
}

/// The decimal numeral of `n`.
pub open spec fn dec_text(n: nat) -> Seq<char>
    decreases n,
{
    if n < 10 {
        seq![digit_char(n)]
    } else {
        dec_text(n / 10).push(digit_char(n % 10))
    }
}

fn digit_str(d: usize) -> (r: &'static str)
    requires
        d < 10,
    ensures
        r@ == seq![digit_char(d as nat)],
{
    if d == 0 {
        proof {
            reveal_strlit("0");
        }
        "0"
    } else if d == 1 {
        proof {
            reveal_strlit("1");
        }
        "1"
    } else if d == 2 {
        proof {
            reveal_strlit("2");
        }
        "2"
    } else if d == 3 {
        proof {
            reveal_strlit("3");
        }
        "3"
    } else if d == 4 {
        proof {
            reveal_strlit("4");
        }
        "4"
    } else if d == 5 {
        proof {
            reveal_strlit("5");
        }
        "5"
    } else if d == 6 {
        proof {
            reveal_strlit("6");
        }
        "6"
    } else if d == 7 {
        proof {
            reveal_strlit("7");
        }
        "7"
    } else if d == 8 {
        proof {
            reveal_strlit("8");
        }
        "8"
    } else {
        proof {
            reveal_strlit("9");
        }
        "9"
    }
}

/// The decimal numeral of `n`, as `format!("{}", n)` writes it.
pub fn usize_text(n: usize) -> (r: String)
    ensures
        r@ == dec_text(n as nat),
    decreases n,
{
    if n < 10 {
        String::from_str(digit_str(n))
    } else {
        let mut s = usize_text(n / 10);
        s.append(digit_str(n % 10));
        s
    }
}

/// `s` is the text `lit`.
pub fn str_is(s: &String, lit: &str) -> (r: bool)
    ensures
        r == (s@ == lit@),
{
    let t = String::from_str(lit);
    *s == t
}

/// Concatenation of `a` and `b`.
pub fn concat2(a: &str, b: &str) -> (r: String)
    ensures
        r@ == a@ + b@,
{
    let mut s = String::from_str(a);
    s.append(b);
    s
}

/// Concatenation of `a`, `b` and `c`.
pub fn concat3(a: &str, b: &str, c: &str) -> (r: String)
    ensures
        r@ == a@ + b@ + c@,
{
    let mut s = String::from_str(a);
    s.append(b);
    s.append(c);
    s
}

/// `a` comes strictly before `b` in the order of Unicode code points
/// (the order of `String`'s `Ord`).
pub open spec fn text_lt(a: Seq<char>, b: Seq<char>) -> bool
    decreases a.len(),
{
    if a.len() == 0 {
        b.len() > 0
    } else if b.len() == 0 {
        false
    } else if a[0] != b[0] {
        (a[0] as u32) < (b[0] as u32)
    } else {
        text_lt(a.drop_first(), b.drop_first())
    }
}

/// No text comes before itself.
pub proof fn lemma_text_lt_irrefl(a: Seq<char>)
    ensures
        !text_lt(a, a),
    decreases a.len(),
{
    if a.len() > 0 {
        lemma_text_lt_irrefl(a.drop_first());
    }
}

/// The order of texts is transitive.
pub proof fn lemma_text_lt_trans(a: Seq<char>, b: Seq<char>, c: Seq<char>)
    requires
        text_lt(a, b),
        text_lt(b, c),
    ensures
        text_lt(a, c),
    decreases a.len(),
{
    if a.len() > 0 && b.len() > 0 && c.len() > 0 && a[0] == b[0] && b[0] == c[0] {
        lemma_text_lt_trans(a.drop_first(), b.drop_first(), c.drop_first());
    }
}

/// Whether `a < b`.
pub fn string_lt(a: &String, b: &String) -> (r: bool)
    ensures
        r == text_lt(a@, b@),
{
    let sa = a.as_str();
    let sb = b.as_str();
    let na = sa.unicode_len();
    let nb = sb.unicode_len();
    let mut i: usize = 0;
    assert(a@.skip(0) =~= a@);
    assert(b@.skip(0) =~= b@);
    while i < na && i < nb
        invariant
            na == a@.len(),
            nb == b@.len(),
            sa@ == a@,
            sb@ == b@,
            i <= na,
            i <= nb,
            text_lt(a@, b@) == text_lt(a@.skip(i as int), b@.skip(i as int)),
        decreases na - i,
    {
        let ca = sa.get_char(i);
        let cb = sb.get_char(i);
        assert(a@.skip(i as int)[0] == ca);
        assert(b@.skip(i as int)[0] == cb);
        if ca != cb {
            return (ca as u32) < (cb as u32);
        }
        assert(a@.skip(i as int).drop_first() =~= a@.skip(i + 1));
        assert(b@.skip(i as int).drop_first() =~= b@.skip(i + 1));
        i = i + 1;
    }
    i < nb
}

/// How `{:?}` writes a string (quoted, with escapes).
pub uninterp spec fn debug_text(s: Seq<char>) -> Seq<char>;

/// The `Debug` rendering of a string, as std's `impl Debug for str` writes
/// it; the contract only names the result.
#[verifier::external_body]
pub(crate) fn debug_string(s: &String) -> (r: String)
    ensures
        r@ == debug_text(s@),
{
    format!("{:?}", s)
}

/// Joins `v` with `sep` between consecutive items.
pub open spec fn join_texts(v: Seq<Seq<char>>, sep: Seq<char>) -> Seq<char>
    decreases v.len(),
{
    if v.len() == 0 {
        Seq::empty()
    } else if v.len() == 1 {
        v[0]
    } else {
        join_texts(v.drop_last(), sep) + sep + v.last()
    }
}

/// How `{:?}` writes a list of strings: `["a", "b"]`.
pub open spec fn debug_list(v: Seq<Seq<char>>) -> Seq<char> {
    seq!['['] + join_texts(Seq::new(v.len(), |i: int| debug_text(v[i])), seq![',', ' ']) + seq![']']
}

pub fn join_strings(v: &Vec<String>, sep: &str) -> (r: String)
    ensures
        r@ == join_texts(Seq::new(v@.len(), |i: int| v@[i]@), sep@),
{
    let ghost items = Seq::new(v@.len(), |i: int| v@[i]@);
    let mut s = String::new();
    let mut i: usize = 0;
    while i < v.len()
        invariant
            i <= v@.len(),
            items == Seq::new(v@.len(), |i: int| v@[i]@),
            s@ == join_texts(items.take(i as int), sep@),
        decreases v@.len() - i,
    {
        if i > 0 {
            s.append(sep);
        }
        s.append(v[i].as_str());
        assert(items.take(i + 1).drop_last() =~= items.take(i as int));
        i = i + 1;
    }
    assert(items.take(i as int) =~= items);
    s
}

/// `{:?}` of a list of strings.
pub fn debug_strings(v: &Vec<String>) -> (r: String)
    ensures
        r@ == debug_list(v@.map_values(|s: String| s@)),
{
    let ghost items = Seq::new(v@.len(), |i: int| debug_text(v@[i]@));
    let mut s = String::new();
    let mut i: usize = 0;
    while i < v.len()
        invariant
            i <= v@.len(),
            items == Seq::new(v@.len(), |i: int| debug_text(v@[i]@)),
            s@ == join_texts(items.take(i as int), seq![',', ' ']),
        decreases v@.len() - i,
    {
        if i > 0 {
            proof {
                reveal_strlit(", ");
            }
            s.append(", ");
        }
        let d = debug_string(&v[i]);
        s.append(d.as_str());
        assert(items.take(i + 1).drop_last() =~= items.take(i as int));
        i = i + 1;
    }
    assert(items.take(i as int) =~= items);
    proof {
        reveal_strlit("[");
        reveal_strlit("]");
    }
    let mut r = String::from_str("[");
    r.append(s.as_str());
    r.append("]");
    let ghost vs = v@.map_values(|s: String| s@);
    assert(Seq::new(vs.len(), |i: int| debug_text(vs[i])) =~= items);
    r
}

// ---------------------------------------------------------------------
// Paths
/// `s` split at each `/` (as `str::split('/')` does; never empty).
pub open spec fn split_slash(s: Seq<char>) -> Seq<Seq<char>>
    decreases s.len(),
{
    if s.len() == 0 {
        seq![Seq::empty()]
    } else {
        let r = split_slash(s.drop_last());
        if s.last() == '/' {
            r.push(Seq::empty())
        } else {
            r.update(r.len() - 1, r.last().push(s.last()))
        }
    }
}

/// The parts that are neither empty nor `.`.
pub open spec fn keep_parts(v: Seq<Seq<char>>) -> Seq<Seq<char>>
    decreases v.len(),
{
    if v.len() == 0 {
        v
    } else {
        let r = keep_parts(v.drop_last());
        if v.last().len() > 0 && v.last() != seq!['.'] {
            r.push(v.last())
        } else {
            r
        }
    }
}

/// The components of an import path: its `/`-separated parts, without
/// empty parts and `.`.
pub open spec fn path_parts(s: Seq<char>) -> Seq<Seq<char>> {
    keep_parts(split_slash(s))
}

pub proof fn lemma_split_slash_len(s: Seq<char>)
    ensures
        split_slash(s).len() >= 1,
    decreases s.len(),
{
    if s.len() > 0 {
        lemma_split_slash_len(s.drop_last());
    }
}

/// `t` has no `/`.
pub open spec fn no_slash(t: Seq<char>) -> bool {
    forall|k: int| 0 <= k < t.len() ==> t[k] != '/'
}

proof fn lemma_split_no_slash(s: Seq<char>)
    ensures
        forall|i: int| 0 <= i < split_slash(s).len() ==> no_slash(#[trigger] split_slash(s)[i]),
    decreases s.len(),
{
    if s.len() > 0 {
        lemma_split_no_slash(s.drop_last());
        lemma_split_slash_len(s.drop_last());
        let r = split_slash(s.drop_last());
        if s.last() != '/' {
            let t = r.last().push(s.last());
            assert(no_slash(r[r.len() - 1]));
            assert(no_slash(t));
            assert forall|i: int| 0 <= i < split_slash(s).len() implies no_slash(#[trigger] split_slash(s)[i]) by {
                if i < r.len() - 1 {
                    assert(split_slash(s)[i] == r[i]);
                }
            }
        } else {
            assert forall|i: int| 0 <= i < split_slash(s).len() implies no_slash(#[trigger] split_slash(s)[i]) by {
                if i < r.len() {
                    assert(split_slash(s)[i] == r[i]);
                } else {
                    assert(split_slash(s)[i] =~= Seq::<char>::empty());
                }
            }
        }
    }
}

proof fn lemma_keep_parts(v: Seq<Seq<char>>)
    requires
        forall|j: int| 0 <= j < v.len() ==> no_slash(#[trigger] v[j]),
    ensures
        forall|i: int|
            0 <= i < keep_parts(v).len() ==> {
                let p = #[trigger] keep_parts(v)[i];
                p.len() > 0 && p != seq!['.'] && no_slash(p)
            },
    decreases v.len(),
{
    if v.len() > 0 {
        assert forall|j: int| 0 <= j < v.drop_last().len() implies no_slash(#[trigger] v.drop_last()[j]) by {
            assert(v.drop_last()[j] == v[j]);
        }
        lemma_keep_parts(v.drop_last());
        assert(no_slash(v[v.len() - 1]));
        let r = keep_parts(v.drop_last());
        if v.last().len() > 0 && v.last() != seq!['.'] {
            assert forall|i: int| 0 <= i < keep_parts(v).len() implies {
                let p = #[trigger] keep_parts(v)[i];
                p.len() > 0 && p != seq!['.'] && no_slash(p)
            } by {
                if i < r.len() {
                    assert(keep_parts(v)[i] == r[i]);
                }
            }
        }
    }
}

/// The components of an import path are never empty, never `.`, and
/// never contain `/`.
pub proof fn law_path_parts_clean(s: Seq<char>)
    ensures
        forall|i: int|
            0 <= i < path_parts(s).len() ==> {
                let p = #[trigger] path_parts(s)[i];
                p.len() > 0 && p != seq!['.'] && no_slash(p)
            },
{
    lemma_split_no_slash(s);
    lemma_keep_parts(split_slash(s));
}

pub open spec fn strings_view(v: Seq<String>) -> Seq<Seq<char>> {
    Seq::new(v.len(), |i: int| v[i]@)
}

/// The components of the import path `raw`.
pub fn split_path(raw: &str) -> (r: Vec<String>)
    ensures
        strings_view(r@) == path_parts(raw@),
{
    let n = raw.unicode_len();
    let mut parts: Vec<String> = Vec::new();
    let mut start: usize = 0;
    let mut i: usize = 0;
    let ghost mut done: Seq<Seq<char>> = Seq::empty();
    proof {
        reveal_strlit(".");
        assert(raw@.take(0) =~= Seq::<char>::empty());
        assert(raw@.subrange(0, 0) =~= Seq::<char>::empty());
    }
    while i < n
        invariant
            n == raw@.len(),
            start <= i <= n,
            split_slash(raw@.take(i as int)) == done.push(raw@.subrange(start as int, i as int)),
            strings_view(parts@) == keep_parts(done),
            "."@ == seq!['.'],
        decreases n - i,
    {
        let c = raw.get_char(i);
        assert(raw@.take(i + 1).drop_last() =~= raw@.take(i as int));
        assert(raw@.take(i + 1).last() == c);
        if c == '/' {
            let seg_str = raw.substring_char(start, i);
            let seg = String::from_str(seg_str);
            let keep = seg_str.unicode_len() > 0 && !str_is(&seg, ".");
            if keep {
                parts.push(seg);
            }
            proof {
                assert(done.push(raw@.subrange(start as int, i as int)).drop_last() =~= done);
                assert(strings_view(parts@) =~= keep_parts(done.push(raw@.subrange(start as int, i as int))));
                done = done.push(raw@.subrange(start as int, i as int));
                assert(raw@.subrange(i + 1, i + 1) =~= Seq::<char>::empty());
            }
            start = i + 1;
        } else {
            proof {
                assert(raw@.subrange(start as int, i + 1) =~= raw@.subrange(start as int, i as int).push(c));
                assert(done.push(raw@.subrange(start as int, i as int)).update(
                    done.len() as int,
                    raw@.subrange(start as int, i + 1),
                ) =~= done.push(raw@.subrange(start as int, i + 1)));
            }
        }
        i = i + 1;
    }
    let seg_str = raw.substring_char(start, n);
    let seg = String::from_str(seg_str);
    let keep = seg_str.unicode_len() > 0 && !str_is(&seg, ".");
    if keep {
        parts.push(seg);
    }
    proof {
        assert(raw@.take(n as int) =~= raw@);
        assert(done.push(raw@.subrange(start as int, n as int)).drop_last() =~= done);
        assert(strings_view(parts@) =~= keep_parts(done.push(raw@.subrange(start as int, n as int))));
    }
    parts
}

} // verus!
