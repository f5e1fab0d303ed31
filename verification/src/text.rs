//! Character-level string helpers shared by the rest of the library.
//!
//! Strings are reasoned about through their views, `Seq<char>`.
use vstd::prelude::*;

verus! {

broadcast use vstd::string::group_string_axioms;

/// Appends one character to a `String` (`String::push`).
#[verifier::external_body]
pub(crate) fn string_push(s: &mut String, c: char)
    ensures
        final(s)@ == old(s)@.push(c),
{
    s.push(c);
}

/// The characters of `s`, in order.
pub fn chars_of(s: &str) -> (r: Vec<char>)
    ensures
        r@ == s@,
{
    let mut r: Vec<char> = Vec::new();
    for c in it: s.chars()
        invariant
            r@ == it.seq().take(it.index() as int),
            it.seq() == s@,
    {
        r.push(c);
    }
    r
}

/// A `String` holding exactly the characters of `cs`.
pub fn string_of(cs: &[char]) -> (r: String)
    ensures
        r@ == cs@,
{
    let mut r = String::new();
    let mut i: usize = 0;
    while i < cs.len()
        invariant
            i <= cs.len(),
            r@ == cs@.take(i as int),
        decreases cs.len() - i,
    {
        string_push(&mut r, cs[i]);
        assert(cs@.take(i as int + 1) == cs@.take(i as int).push(cs@[i as int]));
        i = i + 1;
    }
    assert(cs@.take(cs.len() as int) == cs@);
    r
}

/// A fresh copy of `s`.
pub fn copy_string(s: &String) -> (r: String)
    ensures
        r@ == s@,
        r == *s,
{
    s.clone()
}

/// A `String` with the characters of `s`.
pub fn owned(s: &str) -> (r: String)
    ensures
        r@ == s@,
{
    s.to_string()
}

/// Appends the characters of `v` to `s`.
pub fn push_chars(s: &mut String, v: &[char])
    ensures
        final(s)@ == old(s)@ + v@,
{
    let mut i: usize = 0;
    while i < v.len()
        invariant
            i <= v.len(),
            s@ == old(s)@ + v@.take(i as int),
        decreases v.len() - i,
    {
        string_push(s, v[i]);
        assert(v@.take(i as int + 1) == v@.take(i as int).push(v@[i as int]));
        i = i + 1;
    }
    assert(v@.take(v.len() as int) == v@);
}

/// Appends the characters of `t` to `s`.
pub fn push_str(s: &mut String, t: &str)
    ensures
        final(s)@ == old(s)@ + t@,
{
    let v = chars_of(t);
    push_chars(s, v.as_slice());
}

/// Strict lexicographic order on character sequences, by code point.
///
/// This is the order of `String`'s `Ord` (UTF-8 byte order agrees with code point order).
pub open spec fn seq_lt(a: Seq<char>, b: Seq<char>) -> bool
    decreases a.len(),
{
    if b.len() == 0 {
        false
    } else if a.len() == 0 {
        true
    } else if a[0] < b[0] {
        true
    } else if a[0] == b[0] {
        seq_lt(a.drop_first(), b.drop_first())
    } else {
        false
    }
}

/// No sequence is below itself.
pub proof fn lemma_seq_lt_irreflexive(a: Seq<char>)
    ensures
        !seq_lt(a, a),
    decreases a.len(),
{
    if a.len() > 0 {
        lemma_seq_lt_irreflexive(a.drop_first());
    }
}

/// The order is transitive.
pub proof fn lemma_seq_lt_transitive(a: Seq<char>, b: Seq<char>, c: Seq<char>)
    requires
        seq_lt(a, b),
        seq_lt(b, c),
    ensures
        seq_lt(a, c),
    decreases a.len(),
{
    if a.len() > 0 && b.len() > 0 && c.len() > 0 {
        if a[0] == b[0] && b[0] == c[0] {
            lemma_seq_lt_transitive(a.drop_first(), b.drop_first(), c.drop_first());
        }
    }
}

/// Any two different sequences are ordered one way or the other.
pub proof fn lemma_seq_lt_total(a: Seq<char>, b: Seq<char>)
    ensures
        seq_lt(a, b) || seq_lt(b, a) || a == b,
    decreases a.len(),
{
    if a.len() == 0 && b.len() == 0 {
        assert(a =~= b);
    } else if a.len() > 0 && b.len() > 0 {
        if a[0] == b[0] {
            lemma_seq_lt_total(a.drop_first(), b.drop_first());
            if a.drop_first() == b.drop_first() {
                assert(a =~= seq![a[0]] + a.drop_first());
                assert(b =~= seq![b[0]] + b.drop_first());
            }
        } else {
        }
    }
}

/// Decides `seq_lt(a@, b@)`.
pub fn chars_lt(a: &[char], b: &[char]) -> (r: bool)
    ensures
        r == seq_lt(a@, b@),
{
    let mut i: usize = 0;
    assert(a@.skip(0) == a@ && b@.skip(0) == b@);
    while i < a.len() && i < b.len() && a[i] == b[i]
        invariant
            i <= a.len(),
            i <= b.len(),
            seq_lt(a@, b@) == seq_lt(a@.skip(i as int), b@.skip(i as int)),
        decreases a.len() - i,
    {
        assert(a@.skip(i as int).drop_first() == a@.skip(i as int + 1));
        assert(b@.skip(i as int).drop_first() == b@.skip(i as int + 1));
        i = i + 1;
    }
    if i == b.len() {
        false
    } else if i == a.len() {
        true
    } else {
        assert(a@.skip(i as int)[0] == a@[i as int] && b@.skip(i as int)[0] == b@[i as int]);
        a[i] < b[i]
    }
}

/// Decides `a@ == b@`.
pub fn chars_eq(a: &[char], b: &[char]) -> (r: bool)
    ensures
        r == (a@ == b@),
{
    if a.len() != b.len() {
        return false;
    }
    let mut i: usize = 0;
    while i < a.len()
        invariant
            i <= a.len(),
            a.len() == b.len(),
            a@.take(i as int) == b@.take(i as int),
        decreases a.len() - i,
    {
        if a[i] != b[i] {
            assert(a@[i as int] != b@[i as int]);
            return false;
        }
        assert(a@.take(i as int + 1) == a@.take(i as int).push(a@[i as int]));
        assert(b@.take(i as int + 1) == b@.take(i as int).push(b@[i as int]));
        i = i + 1;
    }
    assert(a@ == a@.take(a.len() as int));
    assert(b@ == b@.take(b.len() as int));
    true
}

/// Decides `a@ == b@` for two strings.
pub fn str_eq(a: &str, b: &str) -> (r: bool)
    ensures
        r == (a@ == b@),
{
    let x = chars_of(a);
    let y = chars_of(b);
    chars_eq(x.as_slice(), y.as_slice())
}

/// Whether `p` is a prefix of `s`.
pub open spec fn is_prefix(p: Seq<char>, s: Seq<char>) -> bool {
    p.len() <= s.len() && s.take(p.len() as int) == p
}

/// Whether `p` occurs in `s` at position `i`.
pub open spec fn occurs_at(s: Seq<char>, p: Seq<char>, i: int) -> bool {
    0 <= i && i + p.len() <= s.len() && s.subrange(i, i + p.len()) == p
}

/// Decides `occurs_at(s@, p@, i)`.
pub fn chars_occur_at(s: &[char], p: &[char], i: usize) -> (r: bool)
    ensures
        r == occurs_at(s@, p@, i as int),
{
    if i > s.len() || p.len() > s.len() - i {
        return false;
    }
    let mut k: usize = 0;
    while k < p.len()
        invariant
            k <= p.len(),
            i + p.len() <= s.len(),
            s@.subrange(i as int, i + k) == p@.take(k as int),
        decreases p.len() - k,
    {
        if s[i + k] != p[k] {
            assert(s@.subrange(i as int, i + p.len())[k as int] != p@[k as int]);
            return false;
        }
        assert(s@.subrange(i as int, i + k + 1) == s@.subrange(i as int, i + k).push(s@[i + k]));
        assert(p@.take(k as int + 1) == p@.take(k as int).push(p@[k as int]));
        k = k + 1;
    }
    assert(p@.take(p.len() as int) == p@);
    true
}

/// Unicode `White_Space` (what `char::is_whitespace` decides).
pub open spec fn is_whitespace_char(c: char) -> bool {
    let u = c as u32;
    (0x09 <= u && u <= 0x0d) || u == 0x20 || u == 0x85 || u == 0xa0 || u == 0x1680 || (0x2000
        <= u && u <= 0x200a) || u == 0x2028 || u == 0x2029 || u == 0x202f || u == 0x205f || u
        == 0x3000
}

/// Decides `is_whitespace_char(c)`.
pub fn char_is_whitespace(c: char) -> (r: bool)
    ensures
        r == is_whitespace_char(c),
{
    let u = c as u32;
    (0x09 <= u && u <= 0x0d) || u == 0x20 || u == 0x85 || u == 0xa0 || u == 0x1680 || (0x2000
        <= u && u <= 0x200a) || u == 0x2028 || u == 0x2029 || u == 0x202f || u == 0x205f || u
        == 0x3000
}

/// Number of trailing whitespace characters of `s` (what `str::trim_end` removes).
pub open spec fn trailing_ws(s: Seq<char>) -> nat
    decreases s.len(),
{
    if s.len() > 0 && is_whitespace_char(s.last()) {
        1 + trailing_ws(s.drop_last())
    } else {
        0
    }
}

/// Number of leading whitespace characters of `s` (what `str::trim_start` removes).
pub open spec fn leading_ws(s: Seq<char>) -> nat
    decreases s.len(),
{
    if s.len() > 0 && is_whitespace_char(s[0]) {
        1 + leading_ws(s.drop_first())
    } else {
        0
    }
}

/// `s` without trailing whitespace.
pub open spec fn trim_end_spec(s: Seq<char>) -> Seq<char> {
    s.take(s.len() - trailing_ws(s))
}

/// `s` without leading and trailing whitespace.
pub open spec fn trim_spec(s: Seq<char>) -> Seq<char> {
    let t = trim_end_spec(s);
    t.skip(leading_ws(t) as int)
}

/// The trailing whitespace count is the length of the whitespace run at the end.
pub proof fn lemma_trailing_ws_bound(s: Seq<char>)
    ensures
        trailing_ws(s) <= s.len(),
        forall|k: int| s.len() - trailing_ws(s) <= k < s.len() ==> is_whitespace_char(#[trigger] s[k]),
        trailing_ws(s) < s.len() ==> !is_whitespace_char(s[s.len() - trailing_ws(s) - 1]),
    decreases s.len(),
{
    if s.len() > 0 && is_whitespace_char(s.last()) {
        lemma_trailing_ws_bound(s.drop_last());
        assert forall|k: int| s.len() - trailing_ws(s) <= k < s.len() implies is_whitespace_char(
            #[trigger] s[k],
        ) by {
            if k < s.len() - 1 {
                assert(s[k] == s.drop_last()[k]);
            }
        }
        if trailing_ws(s) < s.len() {
            assert(s[s.len() - trailing_ws(s) - 1] == s.drop_last()[s.drop_last().len()
                - trailing_ws(s.drop_last()) - 1]);
        }
    }
}

/// The leading whitespace count is at most the length.
pub proof fn lemma_leading_ws_bound(s: Seq<char>)
    ensures
        leading_ws(s) <= s.len(),
    decreases s.len(),
{
    if s.len() > 0 && is_whitespace_char(s[0]) {
        lemma_leading_ws_bound(s.drop_first());
    }
}

/// Number of trailing whitespace characters of `v`.
fn count_trailing_ws(v: &[char]) -> (n: usize)
    ensures
        n == trailing_ws(v@),
{
    let mut k: usize = v.len();
    assert(v@.take(v.len() as int) == v@);
    while k > 0 && char_is_whitespace(v[k - 1])
        invariant
            k <= v.len(),
            trailing_ws(v@) == (v.len() - k) + trailing_ws(v@.take(k as int)),
        decreases k,
    {
        assert(v@.take(k as int).drop_last() == v@.take(k as int - 1));
        k = k - 1;
    }
    assert(trailing_ws(v@.take(k as int)) == 0);
    assert(v@.take(v.len() as int) == v@);
    (v.len() - k) as usize
}

/// Number of leading whitespace characters of `v[..end]`.
fn count_leading_ws(v: &[char], end: usize) -> (n: usize)
    requires
        end <= v.len(),
    ensures
        n == leading_ws(v@.take(end as int)),
{
    let mut k: usize = 0;
    assert(v@.take(end as int).skip(0) == v@.take(end as int));
    while k < end && char_is_whitespace(v[k])
        invariant
            k <= end <= v.len(),
            leading_ws(v@.take(end as int)) == k + leading_ws(v@.take(end as int).skip(k as int)),
        decreases end - k,
    {
        assert(v@.take(end as int).skip(k as int).drop_first() == v@.take(end as int).skip(
            k as int + 1,
        ));
        k = k + 1;
    }
    if k < end {
        assert(v@.take(end as int).skip(k as int)[0] == v@[k as int]);
    } else {
        assert(v@.take(end as int).skip(k as int).len() == 0);
    }
    k
}

/// `s` without trailing whitespace (`str::trim_end`).
pub fn trim_end(s: &str) -> (r: String)
    ensures
        r@ == trim_end_spec(s@),
{
    let v = chars_of(s);
    let n = count_trailing_ws(v.as_slice());
    proof {
        lemma_trailing_ws_bound(v@);
    }
    let t = vstd::slice::slice_subrange(v.as_slice(), 0, v.len() - n);
    assert(t@ == v@.take(v.len() - n));
    string_of(t)
}

/// `s` without leading and trailing whitespace (`str::trim`).
pub fn trim(s: &str) -> (r: String)
    ensures
        r@ == trim_spec(s@),
{
    let v = chars_of(s);
    let n = count_trailing_ws(v.as_slice());
    proof {
        lemma_trailing_ws_bound(v@);
    }
    let end = v.len() - n;
    let m = count_leading_ws(v.as_slice(), end);
    proof {
        lemma_leading_ws_bound(v@.take(end as int));
    }
    let t = vstd::slice::slice_subrange(v.as_slice(), m, end);
    assert(t@ == v@.take(end as int).skip(m as int));
    string_of(t)
}

/// The strings as character sequences.
pub open spec fn string_views(v: Seq<String>) -> Seq<Seq<char>> {
    v.map_values(|s: String| s@)
}

/// `s` contains `p`.
pub open spec fn contains_seq(s: Seq<char>, p: Seq<char>) -> bool {
    exists|i: int| occurs_at(s, p, i)
}

/// `str::replace` with an empty pattern: `t` before every character and at the end.
pub open spec fn replace_empty_spec(s: Seq<char>, t: Seq<char>) -> Seq<char>
    decreases s.len(),
{
    if s.len() == 0 {
        t
    } else {
        t + seq![s[0]] + replace_empty_spec(s.drop_first(), t)
    }
}

/// `str::replace`: every non-overlapping occurrence of `p` in `s`, left to right, replaced
/// by `t`.
pub open spec fn replace_spec(s: Seq<char>, p: Seq<char>, t: Seq<char>) -> Seq<char>
    decreases s.len(),
{
    if p.len() == 0 {
        replace_empty_spec(s, t)
    } else if s.len() < p.len() {
        s
    } else if s.take(p.len() as int) == p {
        t + replace_spec(s.skip(p.len() as int), p, t)
    } else {
        seq![s[0]] + replace_spec(s.drop_first(), p, t)
    }
}

/// Decides `contains_seq(s@, p@)`.
pub fn chars_contain(s: &[char], p: &[char]) -> (r: bool)
    ensures
        r == contains_seq(s@, p@),
{
    let mut i: usize = 0;
    while i < s.len()
        invariant
            i <= s.len(),
            forall|k: int| 0 <= k < i ==> !occurs_at(s@, p@, k),
        decreases s.len() - i,
    {
        if chars_occur_at(s, p, i) {
            return true;
        }
        i = i + 1;
    }
    if chars_occur_at(s, p, i) {
        return true;
    }
    assert forall|k: int| !occurs_at(s@, p@, k) by {
        if k > s.len() {
            assert(!(k + p.len() <= s.len()));
        }
    }
    false
}

/// `s` with every occurrence of `p` replaced by `t` (`str::replace`).
pub fn replace_chars(s: &[char], p: &[char], t: &[char]) -> (r: Vec<char>)
    ensures
        r@ == replace_spec(s@, p@, t@),
{
    let mut out: Vec<char> = Vec::new();
    let mut i: usize = 0;
    assert(s@.skip(0) == s@);
    if p.len() == 0 {
        while i < s.len()
            invariant
                i <= s.len(),
                p@.len() == 0,
                out@ + replace_empty_spec(s@.skip(i as int), t@) == replace_spec(s@, p@, t@),
            decreases s.len() - i,
        {
            let ghost rest = s@.skip(i as int);
            assert(rest.drop_first() == s@.skip(i as int + 1));
            assert(rest[0] == s@[i as int]);
            let ghost o0 = out@;
            push_all_chars(&mut out, t);
            out.push(s[i]);
            assert(out@ == o0 + t@ + seq![s@[i as int]]);
            assert(o0 + replace_empty_spec(rest, t@) =~= out@ + replace_empty_spec(s@.skip(i as int + 1), t@));
            i = i + 1;
        }
        assert(s@.skip(i as int).len() == 0);
        let ghost o0 = out@;
        push_all_chars(&mut out, t);
        return out;
    }
    while i < s.len()
        invariant
            i <= s.len(),
            p@.len() > 0,
            out@ + replace_spec(s@.skip(i as int), p@, t@) == replace_spec(s@, p@, t@),
        decreases s.len() - i,
    {
        let ghost rest = s@.skip(i as int);
        let ghost o0 = out@;
        if chars_occur_at(s, p, i) {
            assert(rest.take(p.len() as int) == s@.subrange(i as int, i + p.len()));
            assert(rest.skip(p.len() as int) == s@.skip(i + p.len()));
            push_all_chars(&mut out, t);
            assert(o0 + replace_spec(rest, p@, t@) =~= out@ + replace_spec(s@.skip(i + p.len()), p@, t@));
            i = i + p.len();
        } else {
            proof {
                if rest.len() >= p@.len() {
                    assert(rest.take(p@.len() as int) == s@.subrange(i as int, i + p@.len()));
                }
                assert(rest.drop_first() == s@.skip(i as int + 1));
                if rest.len() < p@.len() {
                    assert(replace_spec(rest, p@, t@) == rest);
                    assert(rest =~= seq![s@[i as int]] + s@.skip(i as int + 1));
                    assert(replace_spec(s@.skip(i as int + 1), p@, t@) == s@.skip(i as int + 1));
                }
            }
            out.push(s[i]);
            assert(o0 + replace_spec(rest, p@, t@) =~= out@ + replace_spec(s@.skip(i as int + 1), p@, t@));
            i = i + 1;
        }
    }
    assert(s@.skip(i as int).len() == 0);
    assert(out@ + replace_spec(s@.skip(i as int), p@, t@) =~= out@);
    out
}

/// Appends `t` to `out`.
pub fn push_all_chars(out: &mut Vec<char>, t: &[char])
    ensures
        final(out)@ == old(out)@ + t@,
{
    let mut k: usize = 0;
    while k < t.len()
        invariant
            k <= t.len(),
            out@ == old(out)@ + t@.take(k as int),
        decreases t.len() - k,
    {
        out.push(t[k]);
        assert(t@.take(k as int + 1) == t@.take(k as int).push(t@[k as int]));
        k = k + 1;
    }
    assert(t@.take(t.len() as int) == t@);
}

/// The digit character for `d < 16`: `0-9`, then lowercase `a-f`.
pub open spec fn digit_char(d: int) -> char {
    if d < 10 {
        ((d + '0' as int) as u32) as char
    } else {
        ((d - 10 + 'a' as int) as u32) as char
    }
}

/// Every character of `d` is one of `0`..`9`, and there is at least one.
pub open spec fn is_decimal_digits(d: Seq<char>) -> bool {
    d.len() > 0 && forall|k: int| 0 <= k < d.len() ==> '0' <= #[trigger] d[k] && d[k] <= '9'
}

/// The number that the decimal digits `d` stand for (`0` is worth 0, ..., `9` 9).
pub open spec fn decimal_value(d: Seq<char>) -> int
    decreases d.len(),
{
    if d.len() == 0 {
        0
    } else {
        decimal_value(d.drop_last()) * 10 + (d.last() as int - '0' as int)
    }
}

/// Writing `n` in base 10 gives decimal digits whose value is `n`.
pub proof fn lemma_decimal_digits(n: nat)
    ensures
        is_decimal_digits(radix_digits(n, 10)),
        decimal_value(radix_digits(n, 10)) == n,
    decreases n,
{
    let d = radix_digits(n, 10);
    if n < 10 {
        assert(d == seq![digit_char(n as int)]);
        assert(d.drop_last() =~= Seq::<char>::empty());
        assert(digit_char(n as int) as int == n + '0' as int);
        assert(decimal_value(d.drop_last()) == 0);
        assert(decimal_value(d) == decimal_value(d.drop_last()) * 10 + (d.last() as int - '0' as int));
    } else {
        let q = n / 10;
        let m = n % 10;
        assert(q < n && m < 10 && q * 10 + m == n) by (nonlinear_arith)
            requires
                q == n / 10,
                m == n % 10,
                n >= 10,
        ;
        lemma_decimal_digits(q);
        assert(d == radix_digits(q, 10).push(digit_char(m as int)));
        assert(d.drop_last() =~= radix_digits(q, 10));
        assert(digit_char(m as int) as int == m + '0' as int);
        assert(d.last() == digit_char(m as int));
        assert(decimal_value(d) == decimal_value(d.drop_last()) * 10 + (d.last() as int - '0' as int));
        assert forall|k: int| 0 <= k < d.len() implies '0' <= #[trigger] d[k] && d[k] <= '9' by {
            if k < d.len() - 1 {
                assert(d[k] == radix_digits(q, 10)[k]);
            }
        }
    }
}

/// `v` written in base `base` (2 to 16), most significant digit first, without leading
/// zeros (`0` for zero).
pub open spec fn radix_digits(v: nat, base: nat) -> Seq<char>
    decreases v,
{
    if base < 2 || v < base {
        seq![digit_char(v as int)]
    } else {
        proof {
            assert(v / base < v) by (nonlinear_arith)
                requires
                    base >= 2,
                    v >= base,
            ;
        }
        radix_digits(v / base, base).push(digit_char((v % base) as int))
    }
}

fn digit_exec(d: u64) -> (r: char)
    requires
        d < 16,
    ensures
        r == digit_char(d as int),
{
    let digits = ['0', '1', '2', '3', '4', '5', '6', '7', '8', '9', 'a', 'b', 'c', 'd', 'e', 'f'];
    let c = digits[d as usize];
    assert(c == digit_char(d as int)) by {
        assert(('0' as u32) == 48 && ('a' as u32) == 97);
    }
    c
}

fn radix_exec(v: u64, base: u64) -> (r: Vec<char>)
    requires
        2 <= base <= 16,
    ensures
        r@ == radix_digits(v as nat, base as nat),
    decreases v,
{
    if v < base {
        vec![digit_exec(v)]
    } else {
        assert(v / base < v) by (nonlinear_arith)
            requires
                base >= 2,
                v >= base,
        ;
        let mut r = radix_exec(v / base, base);
        r.push(digit_exec(v % base));
        r
    }
}

/// `v` in lowercase hexadecimal (`format!("{:x}", v)`).
pub fn format_hex(v: u64) -> (r: String)
    ensures
        r@ == radix_digits(v as nat, 16),
{
    let d = radix_exec(v, 16);
    string_of(d.as_slice())
}

/// `v` in decimal (`format!("{}", v)`).
pub fn format_decimal(v: u64) -> (r: String)
    ensures
        r@ == radix_digits(v as nat, 10),
{
    let d = radix_exec(v, 10);
    string_of(d.as_slice())
}

/// `n` spaces.
pub open spec fn spaces(n: int) -> Seq<char> {
    Seq::new(if n > 0 {
        n as nat
    } else {
        0
    }, |i: int| ' ')
}

/// `s` padded with spaces on the right to at least `width` characters
/// (`format!("{:<width$}", s)`).
pub open spec fn pad_right(s: Seq<char>, width: int) -> Seq<char> {
    s + spaces(width - s.len())
}

/// Appends spaces to `s` until it has at least `width` characters.
pub fn pad_to(s: &mut String, width: usize)
    ensures
        final(s)@ == pad_right(old(s)@, width as int),
{
    let n = chars_of(s.as_str()).len();
    let mut k = n;
    while k < width
        invariant
            n == old(s)@.len(),
            n <= k <= width || (k == n && n >= width),
            s@ == old(s)@ + spaces(k - n),
        decreases width - k,
    {
        string_push(s, ' ');
        assert(spaces(k + 1 - n) =~= spaces(k - n).push(' '));
        k = k + 1;
    }
    assert(spaces(k - n) =~= spaces(width - n));
}

} // verus!
