//! Context ranges: which source lines to show around the lines that instructions map to.
use vstd::prelude::*;

verus! {

/// First line of a context window of `ctx` lines before `line` (lines start at 1).
pub open spec fn window_start(line: int, ctx: int) -> int {
    if line - ctx < 1 {
        1
    } else {
        line - ctx
    }
}

/// Mapped line `k` starts a new range: its window, with `inter` lines of context, begins
/// more than one line after the previous mapped line's window ends.
pub open spec fn breaks_at(ls: Seq<int>, inter: int, k: int) -> bool {
    window_start(ls[k], inter) > ls[k - 1] + inter + 1
}

/// Ranges for the first `n` mapped lines, each ending `inter` lines after its last
/// mapped line. The first range starts `pre` lines before the first mapped line, later
/// ones `inter` lines before theirs.
pub open spec fn raw_ranges(ls: Seq<int>, pre: int, inter: int, n: int) -> Seq<(int, int)>
    decreases n,
{
    if n <= 0 {
        seq![]
    } else if n == 1 {
        seq![(window_start(ls[0], pre), ls[0] + inter)]
    } else {
        let p = raw_ranges(ls, pre, inter, n - 1);
        if breaks_at(ls, inter, n - 1) {
            p.push((window_start(ls[n - 1], inter), ls[n - 1] + inter))
        } else {
            p.update(p.len() - 1, (p.last().0, ls[n - 1] + inter))
        }
    }
}

/// The context ranges of the sorted mapped lines `ls`: consecutive mapped lines whose
/// windows touch or overlap share a range, and the last range ends `pre` lines after the
/// last mapped line.
pub open spec fn context_ranges(ls: Seq<int>, pre: int, inter: int) -> Seq<(int, int)> {
    let r = raw_ranges(ls, pre, inter, ls.len() as int);
    if r.len() == 0 {
        r
    } else {
        r.update(r.len() - 1, (r.last().0, ls.last() + pre))
    }
}

/// Strictly increasing.
pub open spec fn strictly_increasing(ls: Seq<int>) -> bool {
    forall|i: int, j: int| 0 <= i < j < ls.len() ==> ls[i] < ls[j]
}

/// The line numbers as integers.
pub open spec fn as_ints(ls: Seq<usize>) -> Seq<int> {
    ls.map_values(|l: usize| l as int)
}

/// Windows fit in `usize` with room for one more line.
pub open spec fn lines_fit(ls: Seq<int>, pre: int, inter: int) -> bool {
    forall|i: int| 0 <= i < ls.len() ==> #[trigger] ls[i] + pre + 1 <= usize::MAX && ls[i] + inter
        + 1 <= usize::MAX
}

proof fn lemma_raw_ranges_shape(ls: Seq<int>, pre: int, inter: int, n: int)
    requires
        1 <= n <= ls.len(),
    ensures
        raw_ranges(ls, pre, inter, n).len() >= 1,
        raw_ranges(ls, pre, inter, n).last().1 == ls[n - 1] + inter,
    decreases n,
{
    if n > 1 {
        lemma_raw_ranges_shape(ls, pre, inter, n - 1);
    }
}

/// Computes the context ranges (see `context_ranges`) of strictly increasing mapped lines.
pub fn compute_context_ranges(sorted_lines: &[usize], pre_post_context: usize, inter_context: usize) -> (r: Vec<(usize, usize)>)
    requires
        strictly_increasing(as_ints(sorted_lines@)),
        lines_fit(as_ints(sorted_lines@), pre_post_context as int, inter_context as int),
    ensures
        r.len() == context_ranges(as_ints(sorted_lines@), pre_post_context as int, inter_context as int).len(),
        forall|k: int|
            0 <= k < r.len() ==> (#[trigger] r[k]).0 == context_ranges(
                as_ints(sorted_lines@),
                pre_post_context as int,
                inter_context as int,
            )[k].0 && r[k].1 == context_ranges(
                as_ints(sorted_lines@),
                pre_post_context as int,
                inter_context as int,
            )[k].1,
{
    let ghost ls = as_ints(sorted_lines@);
    let ghost pre = pre_post_context as int;
    let ghost inter = inter_context as int;
    let n = sorted_lines.len();
    let mut ranges: Vec<(usize, usize)> = Vec::new();
    let mut i: usize = 0;
    while i < n
        invariant
            n == sorted_lines.len(),
            ls == as_ints(sorted_lines@),
            pre == pre_post_context as int,
            inter == inter_context as int,
            lines_fit(ls, pre, inter),
            i <= n,
            i == 0 || i == n || breaks_at(ls, inter, i as int),
            ranges.len() == raw_ranges(ls, pre, inter, i as int).len(),
            forall|k: int|
                0 <= k < ranges.len() ==> (#[trigger] ranges[k]).0 == raw_ranges(ls, pre, inter, i as int)[k].0
                    && ranges[k].1 == raw_ranges(ls, pre, inter, i as int)[k].1,
        decreases n - i,
    {
        let cur = sorted_lines[i];
        assert(ls[i as int] == cur);
        let ctx = if i == 0 {
            pre_post_context
        } else {
            inter_context
        };
        let s0 = cur.saturating_sub(ctx);
        let start = if s0 < 1 {
            1
        } else {
            s0
        };
        assert(start == window_start(cur as int, ctx as int));
        let mut end = cur + inter_context;
        let mut j = i + 1;
        let ghost before = raw_ranges(ls, pre, inter, i as int);
        assert(raw_ranges(ls, pre, inter, i as int + 1) == before.push((start as int, end as int)));
        while j < n
            invariant
                n == sorted_lines.len(),
                ls == as_ints(sorted_lines@),
                lines_fit(ls, pre, inter),
                inter == inter_context as int,
                i < j <= n,
                end == ls[j - 1] + inter,
                raw_ranges(ls, pre, inter, j as int) == before.push((start as int, end as int)),
            ensures
                j == n || breaks_at(ls, inter, j as int),
                end == ls[j - 1] + inter,
                raw_ranges(ls, pre, inter, j as int) == before.push((start as int, end as int)),
            decreases n - j,
        {
            let next = sorted_lines[j];
            assert(ls[j as int] == next);
            let t0 = next.saturating_sub(inter_context);
            let t = if t0 < 1 {
                1
            } else {
                t0
            };
            assert(t == window_start(next as int, inter));
            assert(ls[j - 1] + inter + 1 <= usize::MAX);
            if t <= end + 1 {
                end = next + inter_context;
                proof {
                    lemma_raw_ranges_shape(ls, pre, inter, j as int);
                    assert(raw_ranges(ls, pre, inter, j as int + 1) =~= before.push(
                        (start as int, end as int),
                    ));
                }
                j = j + 1;
            } else {
                break;
            }
        }
        ranges.push((start, end));
        i = j;
    }
    let ghost raw = raw_ranges(ls, pre, inter, n as int);
    if ranges.len() > 0 {
        let last = ranges.len() - 1;
        let s = ranges[last].0;
        let e = sorted_lines[n - 1] + pre_post_context;
        ranges.set(last, (s, e));
        proof {
            lemma_raw_ranges_shape(ls, pre, inter, n as int);
        }
    }
    ranges
}

/// Facts about the raw ranges of the first `n` mapped lines.
proof fn lemma_raw_ranges_facts(ls: Seq<int>, pre: int, inter: int, n: int)
    requires
        1 <= n <= ls.len(),
        strictly_increasing(ls),
        ls[0] >= 1,
        pre >= 0,
        inter >= 0,
    ensures
        ({
            let r = raw_ranges(ls, pre, inter, n);
            &&& r.len() >= 1
            &&& r.last().1 == ls[n - 1] + inter
            &&& r.last().0 <= ls[n - 1]
            &&& forall|q: int| 0 <= q < r.len() ==> 1 <= #[trigger] r[q].0 <= r[q].1
            &&& forall|q: int| 0 <= q < r.len() - 1 ==> #[trigger] r[q].1 + 1 < r[q + 1].0
            &&& forall|k: int|
                0 <= k < n ==> exists|q: int|
                    #![trigger r[q]] 0 <= q < r.len() && r[q].0 <= #[trigger] ls[k] <= r[q].1
        }),
    decreases n,
{
    if n > 1 {
        lemma_raw_ranges_facts(ls, pre, inter, n - 1);
        let p = raw_ranges(ls, pre, inter, n - 1);
        let r = raw_ranges(ls, pre, inter, n);
        assert(ls[n - 2] < ls[n - 1]);
        assert(ls[0] <= ls[n - 2]);
        if breaks_at(ls, inter, n - 1) {
            assert(r == p.push((window_start(ls[n - 1], inter), ls[n - 1] + inter)));
            assert forall|k: int| 0 <= k < n implies exists|q: int|
                #![trigger r[q]] 0 <= q < r.len() && r[q].0 <= #[trigger] ls[k] <= r[q].1 by {
                if k < n - 1 {
                    let q = choose|q: int| #![trigger p[q]] 0 <= q < p.len() && p[q].0 <= ls[k] <= p[q].1;
                    assert(r[q] == p[q]);
                } else {
                    assert(r[r.len() - 1].0 <= ls[k] <= r[r.len() - 1].1);
                }
            }
        } else {
            assert(r == p.update(p.len() - 1, (p.last().0, ls[n - 1] + inter)));
            assert forall|k: int| 0 <= k < n implies exists|q: int|
                #![trigger r[q]] 0 <= q < r.len() && r[q].0 <= #[trigger] ls[k] <= r[q].1 by {
                if k < n - 1 {
                    let q = choose|q: int| #![trigger p[q]] 0 <= q < p.len() && p[q].0 <= ls[k] <= p[q].1;
                    if q < p.len() - 1 {
                        assert(r[q] == p[q]);
                    } else {
                        assert(r[q].0 == p[q].0);
                        assert(ls[k] <= ls[n - 1]);
                    }
                } else {
                    assert(r[r.len() - 1].0 <= ls[k] <= r[r.len() - 1].1);
                }
            }
        }
    } else {
        let r = raw_ranges(ls, pre, inter, n);
        assert(r[0].0 <= ls[0] <= r[0].1);
    }
}

proof fn lemma_raw_ranges_separated(ls: Seq<int>, pre: int, inter: int, n: int)
    requires
        1 <= n <= ls.len(),
    ensures
        ({
            let r = raw_ranges(ls, pre, inter, n);
            &&& r.len() >= 1
            &&& r.last().1 == ls[n - 1] + inter
            &&& forall|q: int| 0 <= q < r.len() - 1 ==> #[trigger] r[q].1 + 1 < r[q + 1].0
        }),
    decreases n,
{
    if n > 1 {
        lemma_raw_ranges_separated(ls, pre, inter, n - 1);
    }
}

/// Consecutive context ranges are separated by at least one line that neither shows.
pub proof fn lemma_context_ranges_gaps(ls: Seq<int>, pre: int, inter: int)
    ensures
        forall|q: int|
            0 <= q < context_ranges(ls, pre, inter).len() - 1 ==> #[trigger] context_ranges(
                ls,
                pre,
                inter,
            )[q].1 + 1 < context_ranges(ls, pre, inter)[q + 1].0,
{
    if ls.len() >= 1 {
        let n = ls.len() as int;
        lemma_raw_ranges_separated(ls, pre, inter, n);
        let raw = raw_ranges(ls, pre, inter, n);
        let c = context_ranges(ls, pre, inter);
        assert forall|q: int| 0 <= q < c.len() - 1 implies #[trigger] c[q].1 + 1 < c[q + 1].0 by {
            assert(raw[q].1 + 1 < raw[q + 1].0);
        }
    }
}

proof fn lemma_raw_ranges_ends(ls: Seq<int>, pre: int, inter: int, n: int)
    requires
        0 <= n <= ls.len(),
    ensures
        forall|q: int|
            0 <= q < raw_ranges(ls, pre, inter, n).len() ==> exists|k: int|
                0 <= k < n && #[trigger] raw_ranges(ls, pre, inter, n)[q].1 == ls[k] + inter,
    decreases n,
{
    if n > 1 {
        lemma_raw_ranges_ends(ls, pre, inter, n - 1);
        lemma_raw_ranges_shape(ls, pre, inter, n - 1);
        let p = raw_ranges(ls, pre, inter, n - 1);
        let r = raw_ranges(ls, pre, inter, n);
        if breaks_at(ls, inter, n - 1) {
            assert(r == p.push((window_start(ls[n - 1], inter), ls[n - 1] + inter)));
        } else {
            assert(r == p.update(p.len() - 1, (p.last().0, ls[n - 1] + inter)));
        }
        assert forall|q: int| 0 <= q < r.len() implies exists|k: int|
            0 <= k < n && #[trigger] r[q].1 == ls[k] + inter by {
            if q < p.len() && r[q] == p[q] {
                let k = choose|k: int| 0 <= k < n - 1 && #[trigger] p[q].1 == ls[k] + inter;
                assert(r[q].1 == ls[k] + inter);
            } else {
                assert(r[q].1 == ls[n - 1] + inter);
            }
        }
    } else if n == 1 {
        let r = raw_ranges(ls, pre, inter, n);
        assert(r[0].1 == ls[0] + inter);
    }
}

/// The ends of the context ranges fit in `usize` with room for one more line.
pub proof fn lemma_context_ranges_fit(ls: Seq<int>, pre: int, inter: int)
    requires
        lines_fit(ls, pre, inter),
    ensures
        forall|q: int|
            0 <= q < context_ranges(ls, pre, inter).len() ==> #[trigger] context_ranges(ls, pre, inter)[q].1 + 1
                <= usize::MAX,
{
    let n = ls.len() as int;
    lemma_raw_ranges_ends(ls, pre, inter, n);
    let raw = raw_ranges(ls, pre, inter, n);
    let c = context_ranges(ls, pre, inter);
    assert forall|q: int| 0 <= q < c.len() implies #[trigger] c[q].1 + 1 <= usize::MAX by {
        if q < c.len() - 1 {
            assert(c[q] == raw[q]);
            let k = choose|k: int| 0 <= k < n && #[trigger] raw[q].1 == ls[k] + inter;
            assert(ls[k] + inter + 1 <= usize::MAX);
        } else {
            assert(ls[n - 1] + pre + 1 <= usize::MAX);
        }
    }
}

/// Every mapped line lies within one of its context ranges.
pub proof fn lemma_context_ranges_cover(ls: Seq<int>, pre: int, inter: int)
    requires
        ls.len() >= 1,
        strictly_increasing(ls),
        ls[0] >= 1,
        pre >= 0,
        inter >= 0,
    ensures
        forall|k: int|
            0 <= k < ls.len() ==> exists|q: int|
                #![trigger context_ranges(ls, pre, inter)[q]]
                0 <= q < context_ranges(ls, pre, inter).len() && context_ranges(ls, pre, inter)[q].0
                    <= #[trigger] ls[k] <= context_ranges(ls, pre, inter)[q].1,
{
    let n = ls.len() as int;
    lemma_raw_ranges_facts(ls, pre, inter, n);
    let raw = raw_ranges(ls, pre, inter, n);
    let c = context_ranges(ls, pre, inter);
    assert forall|k: int| 0 <= k < ls.len() implies exists|q: int|
        #![trigger c[q]] 0 <= q < c.len() && c[q].0 <= #[trigger] ls[k] <= c[q].1 by {
        let q = choose|q: int| #![trigger raw[q]] 0 <= q < raw.len() && raw[q].0 <= ls[k] <= raw[q].1;
        if q < raw.len() - 1 {
            assert(c[q] == raw[q]);
        } else {
            assert(c[q].0 == raw[q].0);
            if k < n - 1 {
                assert(ls[k] < ls[n - 1]);
            }
        }
    }
}

/// Context ranges are non-empty, start at line 1 or later, and are separated by at least
/// one line, so consecutive ranges never touch.
pub proof fn lemma_context_ranges_separated(ls: Seq<int>, pre: int, inter: int)
    requires
        ls.len() >= 1,
        strictly_increasing(ls),
        ls[0] >= 1,
        pre >= 0,
        inter >= 0,
    ensures
        context_ranges(ls, pre, inter).len() >= 1,
        forall|q: int|
            0 <= q < context_ranges(ls, pre, inter).len() ==> 1 <= #[trigger] context_ranges(
                ls,
                pre,
                inter,
            )[q].0 <= context_ranges(ls, pre, inter)[q].1,
        forall|q: int|
            0 <= q < context_ranges(ls, pre, inter).len() - 1 ==> #[trigger] context_ranges(
                ls,
                pre,
                inter,
            )[q].1 + 1 < context_ranges(ls, pre, inter)[q + 1].0,
{
    let n = ls.len() as int;
    lemma_raw_ranges_facts(ls, pre, inter, n);
    let raw = raw_ranges(ls, pre, inter, n);
    let c = context_ranges(ls, pre, inter);
    assert forall|q: int| 0 <= q < c.len() implies 1 <= #[trigger] c[q].0 <= c[q].1 by {
        assert(1 <= raw[q].0 <= raw[q].1);
    }
    assert forall|q: int| 0 <= q < c.len() - 1 implies #[trigger] c[q].1 + 1 < c[q + 1].0 by {
        assert(raw[q].1 + 1 < raw[q + 1].0);
    }
}

/// Two mapped lines far enough apart give two blocks: `pre` lines before the first and
/// after the last, `inter` lines after the first block's line and before the second's.
pub proof fn lemma_context_ranges_two_blocks(p: int, q: int, pre: int, inter: int)
    requires
        p > pre >= 0,
        q > inter >= 0,
        q - inter > p + inter + 1,
    ensures
        context_ranges(seq![p, q], pre, inter) == seq![(p - pre, p + inter), (q - inter, q + pre)],
{
    let ls = seq![p, q];
    assert(ls[0] == p && ls[1] == q);
    assert(breaks_at(ls, inter, 1));
    let r1 = raw_ranges(ls, pre, inter, 1);
    assert(r1 == seq![(p - pre, p + inter)]);
    let r2 = raw_ranges(ls, pre, inter, 2);
    assert(r2 == r1.push((q - inter, q + inter)));
    assert(context_ranges(ls, pre, inter) =~= seq![(p - pre, p + inter), (q - inter, q + pre)]);
}

} // verus!
