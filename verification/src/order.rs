//! Sorted sequences without duplicates under a strict total order.
use vstd::prelude::*;
use crate::text::{seq_lt, lemma_seq_lt_irreflexive, lemma_seq_lt_transitive, lemma_seq_lt_total, chars_lt, chars_eq};
use crate::paths::views;
use crate::ranges::as_ints;

verus! {

/// `lt` is irreflexive, transitive and total.
pub open spec fn strict_total<A>(lt: spec_fn(A, A) -> bool) -> bool {
    &&& forall|a: A| !#[trigger] lt(a, a)
    &&& forall|a: A, b: A, c: A| #[trigger] lt(a, b) && #[trigger] lt(b, c) ==> lt(a, c)
    &&& forall|a: A, b: A| a != b ==> #[trigger] lt(a, b) || lt(b, a)
}

/// `s` is strictly increasing under `lt`.
pub open spec fn sorted_by<A>(s: Seq<A>, lt: spec_fn(A, A) -> bool) -> bool {
    forall|i: int, j: int| 0 <= i < j < s.len() ==> #[trigger] lt(s[i], s[j])
}

/// Code point lexicographic order on character sequences.
pub open spec fn chars_order() -> spec_fn(Seq<char>, Seq<char>) -> bool {
    |a: Seq<char>, b: Seq<char>| seq_lt(a, b)
}

/// Numeric order on integers.
pub open spec fn int_order() -> spec_fn(int, int) -> bool {
    |a: int, b: int| a < b
}

/// The code point order of character sequences is a strict total order.
pub proof fn lemma_chars_order_strict_total()
    ensures
        strict_total(chars_order()),
{
    let lt = chars_order();
    assert forall|a: Seq<char>| !#[trigger] lt(a, a) by {
        lemma_seq_lt_irreflexive(a);
    }
    assert forall|a: Seq<char>, b: Seq<char>, c: Seq<char>| #[trigger] lt(a, b) && #[trigger] lt(
        b,
        c,
    ) implies lt(a, c) by {
        lemma_seq_lt_transitive(a, b, c);
    }
    assert forall|a: Seq<char>, b: Seq<char>| a != b implies #[trigger] lt(a, b) || lt(b, a) by {
        lemma_seq_lt_total(a, b);
    }
}

/// The numeric order of integers is a strict total order.
pub proof fn lemma_int_order_strict_total()
    ensures
        strict_total(int_order()),
{
}

/// Inserting `x` at a position where everything before is smaller and everything after is
/// larger keeps a sorted sequence sorted.
pub proof fn lemma_insert_sorted<A>(s: Seq<A>, p: int, x: A, lt: spec_fn(A, A) -> bool)
    requires
        strict_total(lt),
        sorted_by(s, lt),
        0 <= p <= s.len(),
        forall|i: int| 0 <= i < p ==> #[trigger] lt(s[i], x),
        p < s.len() ==> lt(x, s[p]),
    ensures
        sorted_by(s.insert(p, x), lt),
{
    let t = s.insert(p, x);
    assert forall|i: int, j: int| 0 <= i < j < t.len() implies #[trigger] lt(t[i], t[j]) by {
        if j < p {
            assert(t[i] == s[i] && t[j] == s[j]);
        } else if j == p {
            assert(t[i] == s[i]);
        } else if i < p {
            assert(t[i] == s[i] && t[j] == s[j - 1]);
            assert(lt(s[i], x));
            assert(lt(x, s[p]));
            if j - 1 > p {
                assert(lt(s[p], s[j - 1]));
            }
        } else if i == p {
            assert(t[j] == s[j - 1]);
            if j - 1 > p {
                assert(lt(s[p], s[j - 1]));
            }
        } else {
            assert(t[i] == s[i - 1] && t[j] == s[j - 1]);
        }
    }
}

/// Two sorted sequences with the same elements are equal.
pub proof fn lemma_sorted_unique<A>(a: Seq<A>, b: Seq<A>, lt: spec_fn(A, A) -> bool)
    requires
        strict_total(lt),
        sorted_by(a, lt),
        sorted_by(b, lt),
        forall|x: A| a.contains(x) <==> b.contains(x),
    ensures
        a == b,
    decreases a.len(),
{
    if a.len() == 0 {
        if b.len() > 0 {
            assert(b.contains(b[0]));
        }
        assert(a =~= b);
    } else {
        assert(a.contains(a[0]));
        assert(b.len() > 0);
        assert(b.contains(b[0]));
        let i = choose|i: int| 0 <= i < a.len() && a[i] == b[0];
        let j = choose|j: int| 0 <= j < b.len() && b[j] == a[0];
        assert(a[0] == b[0]) by {
            if a[0] != b[0] {
                assert(i > 0 && j > 0);
                assert(lt(a[0], a[i]));
                assert(lt(b[0], b[j]));
            }
        }
        let a1 = a.drop_first();
        let b1 = b.drop_first();
        assert forall|x: A| a1.contains(x) <==> b1.contains(x) by {
            if a1.contains(x) {
                let k = choose|k: int| 0 <= k < a1.len() && a1[k] == x;
                assert(a[k + 1] == x);
                assert(lt(a[0], a[k + 1]));
                assert(b.contains(x));
                let m = choose|m: int| 0 <= m < b.len() && b[m] == x;
                assert(m != 0);
                assert(b1[m - 1] == x);
            }
            if b1.contains(x) {
                let k = choose|k: int| 0 <= k < b1.len() && b1[k] == x;
                assert(b[k + 1] == x);
                assert(lt(b[0], b[k + 1]));
                assert(a.contains(x));
                let m = choose|m: int| 0 <= m < a.len() && a[m] == x;
                assert(m != 0);
                assert(a1[m - 1] == x);
            }
        }
        assert forall|p: int, q: int| 0 <= p < q < a1.len() implies #[trigger] lt(a1[p], a1[q]) by {
            assert(lt(a[p + 1], a[q + 1]));
        }
        assert forall|p: int, q: int| 0 <= p < q < b1.len() implies #[trigger] lt(b1[p], b1[q]) by {
            assert(lt(b[p + 1], b[q + 1]));
        }
        lemma_sorted_unique(a1, b1, lt);
        assert(a =~= seq![a[0]] + a1);
        assert(b =~= seq![b[0]] + b1);
    }
}

/// After inserting `x`, a sequence holds its old elements and `x`, and nothing else.
pub proof fn lemma_insert_contains<A>(s: Seq<A>, p: int, x: A)
    requires
        0 <= p <= s.len(),
    ensures
        forall|y: A| #[trigger] s.insert(p, x).contains(y) <==> (s.contains(y) || y == x),
{
    let t = s.insert(p, x);
    assert forall|y: A| #[trigger] t.contains(y) <==> (s.contains(y) || y == x) by {
        if t.contains(y) {
            let k = choose|k: int| 0 <= k < t.len() && t[k] == y;
            if k < p {
                assert(s[k] == y);
            } else if k > p {
                assert(s[k - 1] == y);
            }
        }
        if s.contains(y) {
            let k = choose|k: int| 0 <= k < s.len() && s[k] == y;
            if k < p {
                assert(t[k] == y);
            } else {
                assert(t[k + 1] == y);
            }
        }
        if y == x {
            assert(t[p] == y);
        }
    }
}

/// Adds `x` to a sorted list of character sequences unless present.
pub fn insert_chars_sorted(files: &mut Vec<Vec<char>>, x: &[char])
    requires
        sorted_by(views(old(files)@), chars_order()),
    ensures
        sorted_by(views(final(files)@), chars_order()),
        forall|y: Seq<char>| #[trigger] views(final(files)@).contains(y) <==> (views(old(files)@).contains(y) || y == x@),
{
    proof {
        lemma_chars_order_strict_total();
    }
    let ghost lt = chars_order();
    let mut p: usize = 0;
    while p < files.len() && chars_lt(files[p].as_slice(), x)
        invariant
            p <= files.len(),
            files@ == old(files)@,
            lt == chars_order(),
            forall|i: int| 0 <= i < p ==> #[trigger] lt(views(files@)[i], x@),
        decreases files.len() - p,
    {
        assert(views(files@)[p as int] == files[p as int]@);
        p = p + 1;
    }
    if p < files.len() && chars_eq(files[p].as_slice(), x) {
        assert(views(files@)[p as int] == x@);
        return;
    }
    let ghost old_v = views(files@);
    if p < files.len() {
        assert(old_v[p as int] == files[p as int]@);
        assert(lt(x@, old_v[p as int]));
    }
    proof {
        lemma_insert_sorted(old_v, p as int, x@, lt);
        lemma_insert_contains(old_v, p as int, x@);
    }
    let xv = vstd::slice::slice_to_vec(x);
    let ghost f0 = files@;
    files.insert(p, xv);
    assert(views(files@) =~= old_v.insert(p as int, x@));
}

/// Adds `x` to a sorted list of numbers unless present.
pub fn insert_line_sorted(lines: &mut Vec<usize>, x: usize)
    requires
        sorted_by(as_ints(old(lines)@), int_order()),
    ensures
        sorted_by(as_ints(final(lines)@), int_order()),
        forall|y: int| #[trigger] as_ints(final(lines)@).contains(y) <==> (as_ints(old(lines)@).contains(y) || y == x),
{
    proof {
        lemma_int_order_strict_total();
    }
    let ghost lt = int_order();
    let mut p: usize = 0;
    while p < lines.len() && lines[p] < x
        invariant
            p <= lines.len(),
            lines@ == old(lines)@,
            lt == int_order(),
            forall|i: int| 0 <= i < p ==> #[trigger] lt(as_ints(lines@)[i], x as int),
        decreases lines.len() - p,
    {
        p = p + 1;
    }
    let ghost old_v = as_ints(lines@);
    if p < lines.len() && lines[p] == x {
        assert(old_v[p as int] == x);
        return;
    }
    if p < lines.len() {
        assert(lt(x as int, old_v[p as int]));
    }
    proof {
        lemma_insert_sorted(old_v, p as int, x as int, lt);
        lemma_insert_contains(old_v, p as int, x as int);
    }
    lines.insert(p, x);
    assert(as_ints(lines@) =~= old_v.insert(p as int, x as int));
}

} // verus!
