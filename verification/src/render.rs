//! Plain-text rendering helpers: escape-code stripping, width-limited truncation and the
//! totals shown above a listing.
use vstd::prelude::*;
use crate::paths::{short_path, short_path_spec};
use crate::source_reader::SourceReader;
use crate::source_view::{SourceItemView, build_source_view, item_views, items_fit, source_view_spec};
use crate::text::{chars_of, copy_string, format_decimal, format_hex, owned, pad_right, pad_to, push_chars, push_str, radix_digits, string_of, string_push};
use crate::types::{Color, DisplayItem, SourceItem};
use crate::viewer::zero_pad;

verus! {

/// A character in `lo..=hi` (by code point).
pub open spec fn in_range(c: char, lo: u32, hi: u32) -> bool {
    lo <= (c as u32) && (c as u32) <= hi
}

/// The first index from `j` on whose character is not in `lo..=hi`.
pub open spec fn skip_range(s: Seq<char>, j: int, lo: u32, hi: u32) -> int
    decreases s.len() - j,
{
    if j < 0 || j >= s.len() || !in_range(s[j], lo, hi) {
        j
    } else {
        skip_range(s, j + 1, lo, hi)
    }
}

/// Where an escape sequence `ESC [ params* intermediates* final` that starts at `i` ends:
/// parameters are `0`..`?`, intermediates ` `..`/`, the final character `@`..`~`.
pub open spec fn escape_end(s: Seq<char>, i: int) -> Option<int> {
    if 0 <= i && i + 1 < s.len() && s[i] == '\x1B' && s[i + 1] == '[' {
        let j = skip_range(s, i + 2, 0x30, 0x3F);
        let k = skip_range(s, j, 0x20, 0x2F);
        if k < s.len() && in_range(s[k], 0x40, 0x7E) {
            Some(k + 1)
        } else {
            None
        }
    } else {
        None
    }
}

/// `s[i..]` with every escape sequence removed, scanning from the left.
pub open spec fn strip_from(s: Seq<char>, i: int) -> Seq<char>
    decreases s.len() - i,
{
    if i < 0 || i >= s.len() {
        seq![]
    } else {
        match escape_end(s, i) {
            Some(e) => if e > i {
                strip_from(s, e)
            } else {
                seq![]
            },
            None => seq![s[i]] + strip_from(s, i + 1),
        }
    }
}

proof fn lemma_skip_range_bounds(s: Seq<char>, j: int, lo: u32, hi: u32)
    requires
        0 <= j,
    ensures
        j <= skip_range(s, j, lo, hi),
        j <= s.len() ==> skip_range(s, j, lo, hi) <= s.len(),
    decreases s.len() - j,
{
    if j < s.len() && in_range(s[j], lo, hi) {
        lemma_skip_range_bounds(s, j + 1, lo, hi);
    }
}

fn skip_range_exec(s: &[char], j: usize, lo: u32, hi: u32) -> (r: usize)
    requires
        j <= s.len(),
    ensures
        r as int == skip_range(s@, j as int, lo, hi),
        j <= r <= s.len(),
{
    let mut k = j;
    while k < s.len() && lo <= (s[k] as u32) && (s[k] as u32) <= hi
        invariant
            j <= k <= s.len(),
            skip_range(s@, j as int, lo, hi) == skip_range(s@, k as int, lo, hi),
        decreases s.len() - k,
    {
        k = k + 1;
    }
    k
}

fn escape_end_exec(s: &[char], i: usize) -> (r: Option<usize>)
    requires
        i < s.len(),
    ensures
        match r {
            Some(e) => escape_end(s@, i as int) == Some(e as int) && i < e <= s.len(),
            None => escape_end(s@, i as int) is None,
        },
{
    if i + 1 < s.len() && s[i] == '\x1B' && s[i + 1] == '[' {
        let j = skip_range_exec(s, i + 2, 0x30, 0x3F);
        let k = skip_range_exec(s, j, 0x20, 0x2F);
        if k < s.len() && 0x40 <= (s[k] as u32) && (s[k] as u32) <= 0x7E {
            Some(k + 1)
        } else {
            None
        }
    } else {
        None
    }
}

/// Removes the terminal escape sequences `ESC [ ... final` from `s` (see `strip_from`).
pub fn strip_ansi(s: &str) -> (r: String)
    ensures
        r@ == strip_from(s@, 0),
{
    let v = chars_of(s);
    let mut out: Vec<char> = Vec::new();
    let mut i: usize = 0;
    while i < v.len()
        invariant
            i <= v.len(),
            v@ == s@,
            out@ + strip_from(v@, i as int) == strip_from(v@, 0),
        decreases v.len() - i,
    {
        match escape_end_exec(v.as_slice(), i) {
            Some(e) => {
                i = e;
            },
            None => {
                let ghost o0 = out@;
                out.push(v[i]);
                assert(o0 + strip_from(v@, i as int) =~= out@ + strip_from(v@, i as int + 1));
                i = i + 1;
            },
        }
    }
    assert(strip_from(v@, i as int) =~= Seq::<char>::empty());
    assert(out@ + strip_from(v@, i as int) =~= out@);
    string_of(out.as_slice())
}

/// The number of bytes of `c` in UTF-8.
pub open spec fn utf8_len(c: char) -> nat {
    if (c as u32) < 0x80 {
        1
    } else if (c as u32) < 0x800 {
        2
    } else if (c as u32) < 0x10000 {
        3
    } else {
        4
    }
}

/// The number of bytes of `s` in UTF-8.
pub open spec fn byte_len(s: Seq<char>) -> nat
    decreases s.len(),
{
    if s.len() == 0 {
        0
    } else {
        byte_len(s.drop_last()) + utf8_len(s.last())
    }
}

/// `s` without its spaces.
pub open spec fn without_spaces(s: Seq<char>) -> Seq<char>
    decreases s.len(),
{
    if s.len() == 0 {
        seq![]
    } else if s.last() == ' ' {
        without_spaces(s.drop_last())
    } else {
        without_spaces(s.drop_last()).push(s.last())
    }
}

/// The byte count shown for an instruction: half the UTF-8 length of its byte text without
/// spaces (two hexadecimal digits per byte).
pub open spec fn item_byte_count(item: DisplayItem) -> int {
    byte_len(without_spaces(item.instruction.bytes@)) as int / 2
}

/// The total byte count of the first `n` items.
pub open spec fn total_bytes(items: Seq<DisplayItem>, n: int) -> int
    decreases n,
{
    if n <= 0 {
        0
    } else {
        total_bytes(items, n - 1) + item_byte_count(items[n - 1])
    }
}

fn utf8_len_exec(c: char) -> (r: usize)
    ensures
        r == utf8_len(c),
{
    let v = c as u32;
    if v < 0x80 {
        1
    } else if v < 0x800 {
        2
    } else if v < 0x10000 {
        3
    } else {
        4
    }
}

proof fn lemma_byte_len_bound(s: Seq<char>)
    ensures
        byte_len(s) <= 4 * s.len(),
    decreases s.len(),
{
    if s.len() > 0 {
        lemma_byte_len_bound(s.drop_last());
    }
}

proof fn lemma_without_spaces_len(s: Seq<char>)
    ensures
        without_spaces(s).len() <= s.len(),
    decreases s.len(),
{
    if s.len() > 0 {
        lemma_without_spaces_len(s.drop_last());
    }
}

fn item_bytes_exec(bytes: &str) -> (r: usize)
    requires
        bytes@.len() <= usize::MAX / 4,
    ensures
        r == byte_len(without_spaces(bytes@)) / 2,
{
    let v = chars_of(bytes);
    let mut n: usize = 0;
    let mut i: usize = 0;
    while i < v.len()
        invariant
            i <= v.len(),
            v@ == bytes@,
            v@.len() <= usize::MAX / 4,
            n == byte_len(without_spaces(v@.take(i as int))),
            n <= 4 * i,
        decreases v.len() - i,
    {
        assert(v@.take(i as int + 1).drop_last() =~= v@.take(i as int));
        assert(v@.take(i as int + 1).last() == v[i as int]);
        proof {
            lemma_without_spaces_len(v@.take(i as int));
        }
        if v[i] != ' ' {
            let w = utf8_len_exec(v[i]);
            assert(without_spaces(v@.take(i as int + 1)) == without_spaces(v@.take(i as int)).push(v[i as int]));
            assert(without_spaces(v@.take(i as int + 1)).drop_last() =~= without_spaces(v@.take(i as int)));
            n = n + w;
        }
        i = i + 1;
    }
    assert(v@.take(v.len() as int) =~= v@);
    n / 2
}

/// The totals shown above a listing: the number of instructions and their total byte
/// count (see `item_byte_count`). `None` when the total does not fit in `usize`.
pub fn header_totals(items: &[DisplayItem]) -> (r: Option<(usize, usize)>)
    ensures
        match r {
            Some((n, b)) => n == items.len() && b == total_bytes(items@, items.len() as int),
            None => total_bytes(items@, items.len() as int) > usize::MAX || exists|i: int|
                0 <= i < items.len() && (#[trigger] items@[i]).instruction.bytes@.len() > usize::MAX / 4,
        },
{
    let mut total: usize = 0;
    let mut i: usize = 0;
    while i < items.len()
        invariant
            i <= items.len(),
            total == total_bytes(items@, i as int),
        decreases items.len() - i,
    {
        if items[i].instruction.bytes.as_str().unicode_len() > usize::MAX / 4 {
            return None;
        }
        let b = item_bytes_exec(items[i].instruction.bytes.as_str());
        match total.checked_add(b) {
            Some(t) => {
                total = t;
            },
            None => {
                proof {
                    lemma_total_bytes_grows(items@, i as int + 1, items.len() as int);
                }
                return None;
            },
        }
        i = i + 1;
    }
    Some((items.len(), total))
}

proof fn lemma_total_bytes_grows(items: Seq<DisplayItem>, m: int, n: int)
    requires
        0 <= m <= n,
    ensures
        total_bytes(items, m) <= total_bytes(items, n),
    decreases n - m,
{
    if m < n {
        lemma_total_bytes_grows(items, m, n - 1);
    }
}

/// The display width of `s` in terminal columns, as `unicode-width` computes it.
pub uninterp spec fn unicode_str_width(s: Seq<char>) -> usize;

/// The display width of `s` (`UnicodeWidthStr::width` of `unicode-width`).
///
/// The contract names the result: it equals `unicode_str_width` of the text; of the
/// width itself it states only that the empty text has width 0 (a sum over no characters).
#[verifier::external_body]
pub(crate) fn str_width(s: &str) -> (r: usize)
    ensures
        r == unicode_str_width(s@),
        s@.len() == 0 ==> r == 0,
{
    unicode_width::UnicodeWidthStr::width(s)
}

/// The first `k` characters of `s`, followed by `suffix`, fit in `max` columns.
pub open spec fn prefix_fits(s: Seq<char>, suffix: Seq<char>, max: int, k: int) -> bool {
    unicode_str_width(s.take(k) + suffix) <= max
}

/// The largest `k <= n` for which `prefix_fits(s, suffix, max, k)` holds, if any.
pub open spec fn last_fit(s: Seq<char>, suffix: Seq<char>, max: int, n: int) -> Option<int>
    decreases n + 1,
{
    if n < 0 {
        None
    } else if prefix_fits(s, suffix, max, n) {
        Some(n)
    } else {
        last_fit(s, suffix, max, n - 1)
    }
}

/// The width of one character, measured as a one-character string.
pub open spec fn char_width(c: char) -> usize {
    unicode_str_width(seq![c])
}

/// The characters of `s[i..]` kept while the running sum of character widths (from
/// `cur`) stays within `limit`; `…` in place of the first character that would pass it.
pub open spec fn keep_within(s: Seq<char>, limit: int, i: int, cur: int) -> Seq<char>
    decreases s.len() - i,
{
    if i < 0 || i >= s.len() {
        seq![]
    } else if cur + char_width(s[i]) > limit {
        seq!['…']
    } else {
        seq![s[i]] + keep_within(s, limit, i + 1, cur + char_width(s[i]))
    }
}

/// The cut made by adding up character widths: the leading characters whose widths add
/// up to at most `max_width - 1`, then `…`.
pub open spec fn char_width_cut(s: Seq<char>, max_width: int) -> Seq<char> {
    keep_within(s, if max_width >= 1 { max_width - 1 } else { 0 }, 0, 0)
}

/// The cut made by measuring whole prefixes: the longest leading part that fits together
/// with `…` after it, followed by `…`; where not even `…` fits, the longest leading part
/// that fits alone.
pub open spec fn prefix_width_cut(s: Seq<char>, max_width: int) -> Seq<char> {
    match last_fit(s, seq!['…'], max_width, s.len() as int) {
        Some(k) => s.take(k) + seq!['…'],
        None => match last_fit(s, seq![], max_width, s.len() as int) {
            Some(k) => s.take(k),
            None => seq![],
        },
    }
}

/// `s` cut to at most `max_width` columns: unchanged when it fits; otherwise the cut made
/// by adding up character widths, when the text it gives fits; otherwise (where the
/// width of a string is not the sum of its characters' widths, or at a width of 0) the
/// cut made by measuring whole prefixes.
pub open spec fn truncate_spec(s: Seq<char>, max_width: int) -> Seq<char> {
    if unicode_str_width(s) <= max_width {
        s
    } else if unicode_str_width(char_width_cut(s, max_width)) <= max_width {
        char_width_cut(s, max_width)
    } else {
        prefix_width_cut(s, max_width)
    }
}

/// The cut made by adding up character widths (see `char_width_cut`).
fn char_width_cut_exec(v: &Vec<char>, max_width: usize) -> (r: Vec<char>)
    ensures
        r@ == char_width_cut(v@, max_width as int),
{
    let limit = max_width.saturating_sub(1);
    let mut out: Vec<char> = Vec::new();
    let mut cur: usize = 0;
    let mut i: usize = 0;
    while i < v.len()
        invariant
            limit as int == (if max_width >= 1 { max_width - 1 } else { 0 }),
            i <= v.len(),
            cur <= limit,
            out@ + keep_within(v@, limit as int, i as int, cur as int) == keep_within(v@, limit as int, 0, 0),
        decreases v.len() - i,
    {
        let c = v[i];
        let arr = [c];
        assert(arr@ =~= seq![c]);
        let one = string_of(&arr);
        let cw = str_width(one.as_str());
        if cw > limit - cur {
            let ghost o0 = out@;
            out.push('…');
            assert(o0 + keep_within(v@, limit as int, i as int, cur as int) =~= out@);
            return out;
        }
        let ghost o0 = out@;
        out.push(c);
        assert(o0 + keep_within(v@, limit as int, i as int, cur as int) =~= out@ + keep_within(v@, limit as int, i as int + 1, (cur + cw) as int));
        cur = cur + cw;
        i = i + 1;
    }
    assert(out@ + keep_within(v@, limit as int, i as int, cur as int) =~= out@);
    out
}

proof fn lemma_last_fit(s: Seq<char>, suffix: Seq<char>, max: int, n: int)
    ensures
        last_fit(s, suffix, max, n) matches Some(k) ==> 0 <= k <= n && prefix_fits(s, suffix, max, k),
        forall|j: int| 0 <= j <= n && #[trigger] prefix_fits(s, suffix, max, j) ==> last_fit(s, suffix, max, n) is Some,
    decreases n + 1,
{
    if n >= 0 {
        lemma_last_fit(s, suffix, max, n - 1);
    }
}

/// `v[..k]` followed by `suffix`.
fn prefix_with(v: &Vec<char>, k: usize, suffix: &[char]) -> (r: Vec<char>)
    requires
        k <= v.len(),
    ensures
        r@ == v@.take(k as int) + suffix@,
{
    let mut out: Vec<char> = Vec::new();
    let mut i: usize = 0;
    while i < k
        invariant
            i <= k <= v.len(),
            out@ == v@.take(i as int),
        decreases k - i,
    {
        out.push(v[i]);
        assert(out@ =~= v@.take(i as int + 1));
        i = i + 1;
    }
    let mut j: usize = 0;
    while j < suffix.len()
        invariant
            j <= suffix.len(),
            out@ == v@.take(k as int) + suffix@.take(j as int),
        decreases suffix.len() - j,
    {
        out.push(suffix[j]);
        assert(out@ =~= v@.take(k as int) + suffix@.take(j as int + 1));
        j = j + 1;
    }
    assert(suffix@.take(suffix.len() as int) =~= suffix@);
    out
}

/// `last_fit(v, suffix, max, v.len())`, searched from the longest prefix down.
fn last_fit_exec(v: &Vec<char>, suffix: &[char], max: usize) -> (r: Option<usize>)
    ensures
        match r {
            Some(k) => last_fit(v@, suffix@, max as int, v.len() as int) == Some(k as int),
            None => last_fit(v@, suffix@, max as int, v.len() as int) is None,
        },
        suffix@.len() == 0 ==> r is Some,
{
    let mut k: usize = v.len();
    loop
        invariant
            k <= v.len(),
            last_fit(v@, suffix@, max as int, v.len() as int) == last_fit(v@, suffix@, max as int, k as int),
        decreases k,
    {
        let cand = prefix_with(v, k, suffix);
        let text = string_of(cand.as_slice());
        assert(k == 0 && suffix@.len() == 0 ==> text@.len() == 0);
        if str_width(text.as_str()) <= max {
            return Some(k);
        }
        if k == 0 {
            assert(last_fit(v@, suffix@, max as int, -1) is None);
            return None;
        }
        k = k - 1;
    }
}

/// Truncates `s` to at most `max_width` display columns, with `…` where it was cut
/// (see `truncate_spec`).
pub fn truncate_to_width(s: &str, max_width: usize) -> (r: String)
    ensures
        r@ == truncate_spec(s@, max_width as int),
        unicode_str_width(r@) <= max_width,
{
    if str_width(s) <= max_width {
        return owned(s);
    }
    let v = chars_of(s);
    let by_chars = string_of(char_width_cut_exec(&v, max_width).as_slice());
    if str_width(by_chars.as_str()) <= max_width {
        return by_chars;
    }
    let ellipsis = ['…'];
    assert(ellipsis@ =~= seq!['…']);
    proof {
        lemma_last_fit(v@, seq!['…'], max_width as int, v.len() as int);
        lemma_last_fit(v@, seq![], max_width as int, v.len() as int);
    }
    match last_fit_exec(&v, &ellipsis, max_width) {
        Some(k) => {
            let out = prefix_with(&v, k, &ellipsis);
            string_of(out.as_slice())
        },
        None => {
            let none: [char; 0] = [];
            assert(none@ =~= Seq::<char>::empty());
            match last_fit_exec(&v, &none, max_width) {
                Some(k) => {
                    let out = prefix_with(&v, k, &none);
                    assert(out@ =~= v@.take(k as int));
                    string_of(out.as_slice())
                },
                None => String::new(),
            }
        },
    }
}

/// The prefix of `s[i..]` that is `n` bytes long in UTF-8 (counting from `acc` bytes),
/// all of it when `n` reaches past the end, nothing when byte `n` falls inside a character.
pub open spec fn byte_prefix_from(s: Seq<char>, n: int, i: int, acc: int) -> Option<Seq<char>>
    decreases s.len() - i,
{
    if i < 0 || i >= s.len() || acc >= n {
        if acc == n || i >= s.len() {
            Some(seq![])
        } else {
            None
        }
    } else if acc + utf8_len(s[i]) > n {
        None
    } else {
        match byte_prefix_from(s, n, i + 1, acc + utf8_len(s[i])) {
            Some(t) => Some(seq![s[i]] + t),
            None => None,
        }
    }
}

/// What `String::truncate(n)` leaves of `s`: the first `n` bytes, all of `s` when it is
/// shorter; `None` where byte `n` falls inside a character (where `truncate` panics).
pub open spec fn byte_truncate(s: Seq<char>, n: int) -> Option<Seq<char>> {
    byte_prefix_from(s, n, 0, 0)
}

fn byte_truncate_exec(s: &[char], n: usize) -> (r: Option<Vec<char>>)
    ensures
        match r {
            Some(t) => byte_truncate(s@, n as int) == Some(t@),
            None => byte_truncate(s@, n as int) is None,
        },
{
    let mut out: Vec<char> = Vec::new();
    let mut acc: usize = 0;
    let mut i: usize = 0;
    while i < s.len() && acc < n
        invariant
            i <= s.len(),
            acc <= n,
            byte_truncate(s@, n as int) == (match byte_prefix_from(s@, n as int, i as int, acc as int) {
                Some(t) => Some(out@ + t),
                None => None,
            }),
        decreases s.len() - i,
    {
        let w = utf8_len_exec(s[i]);
        if w > n - acc {
            return None;
        }
        let ghost o0 = out@;
        out.push(s[i]);
        proof {
            match byte_prefix_from(s@, n as int, i as int + 1, (acc + w) as int) {
                Some(t) => {
                    assert(o0 + (seq![s@[i as int]] + t) =~= out@ + t);
                },
                None => {},
            }
        }
        acc = acc + w;
        i = i + 1;
    }
    if acc == n || i >= s.len() {
        assert(byte_prefix_from(s@, n as int, i as int, acc as int) == Some(Seq::<char>::empty()));
        assert(out@ + Seq::<char>::empty() =~= out@);
        Some(out)
    } else {
        None
    }
}

/// How a piece of text is styled when printed.
#[derive(Debug, Clone, Copy, PartialEq, Eq, Structural)]
pub enum SpanStyle {
    Plain,
    Dimmed,
    DimmedItalic,
    /// Cyan and dimmed, for instruction bytes.
    BytesDim,
    /// Gray, for context lines.
    Gray,
    Colored(Color),
    BoldColor(Color),
}

/// A piece of styled text.
pub struct Span {
    pub text: String,
    pub style: SpanStyle,
}

/// The views of styled pieces.
pub open spec fn span_views(v: Seq<Span>) -> Seq<(Seq<char>, SpanStyle)> {
    v.map_values(|s: Span| (s.text@, s.style))
}

/// The text of styled pieces, without styles.
pub open spec fn spans_text(v: Seq<(Seq<char>, SpanStyle)>) -> Seq<char>
    decreases v.len(),
{
    if v.len() == 0 {
        seq![]
    } else {
        spans_text(v.drop_last()) + v.last().0
    }
}

/// `n` right-aligned in 4 columns and followed by a colon.
pub open spec fn line_number_text(n: int) -> Seq<char> {
    let d = radix_digits(n as nat, 10);
    (if d.len() < 4 {
        Seq::new((4 - d.len()) as nat, |i: int| ' ')
    } else {
        seq![]
    }) + d + seq![':']
}

/// The styled pieces of a source panel item, its text cut to `width - 8` columns.
pub open spec fn source_spans(v: SourceItemView, width: int) -> Seq<(Seq<char>, SpanStyle)> {
    match v {
        SourceItemView::FileHeader(p) => seq![
            (seq!['-', '-', ' '], SpanStyle::Plain),
            (short_path_spec(p, 3), SpanStyle::DimmedItalic),
            (seq![' ', '-', '-'], SpanStyle::Plain),
        ],
        SourceItemView::Gap => seq![
            (seq![' ', ' ', ' ', ' ', ':'], SpanStyle::Dimmed),
            (seq![' ', '~'], SpanStyle::Plain),
        ],
        SourceItemView::Line(n, text, color, main) => {
            let t = truncate_spec(text, if width >= 8 { width - 8 } else { 0 });
            if main {
                let c = match color {
                    Some(c) => c,
                    None => Color::White,
                };
                seq![
                    (line_number_text(n), SpanStyle::BoldColor(c)),
                    (seq![' '], SpanStyle::Plain),
                    (seq!['▶'], SpanStyle::BoldColor(c)),
                    (seq![' '], SpanStyle::Plain),
                    (t, SpanStyle::Colored(c)),
                ]
            } else {
                seq![(line_number_text(n), SpanStyle::Dimmed), (seq![' ', ' ', ' '], SpanStyle::Plain), (t, SpanStyle::Gray)]
            }
        },
    }
}

/// The text of an instruction line before styling: address, bytes (when shown and
/// present, padded to 16 and followed by two spaces) and instruction.
pub open spec fn asm_plain(item: DisplayItem, show_bytes: bool) -> Seq<char> {
    seq![' ', ' ', ' ', ' '] + zero_pad(radix_digits(item.instruction.address as nat, 16), 8) + seq![' ', ' ']
        + asm_bytes_text(item, show_bytes) + item.instruction.mnemonic@
}

/// The bytes column of an instruction line.
pub open spec fn asm_bytes_text(item: DisplayItem, show_bytes: bool) -> Seq<char> {
    if show_bytes && item.instruction.bytes@.len() > 0 {
        pad_right(item.instruction.bytes@, 16) + seq![' ', ' ']
    } else {
        seq![]
    }
}

/// The styled pieces of an instruction line at most `width` columns wide. A line wider
/// than that is cut to its first `width - 1` bytes (without escape codes) and ends with
/// `…`; `None` where that cut falls inside a character.
pub open spec fn asm_spans(item: DisplayItem, show_bytes: bool, color: Color, width: int) -> Option<Seq<(Seq<char>, SpanStyle)>> {
    let plain = strip_from(asm_plain(item, show_bytes), 0);
    if unicode_str_width(plain) > width {
        match byte_truncate(plain, if width >= 1 { width - 1 } else { 0 }) {
            None => None,
            Some(t) => Some(seq![(t, SpanStyle::BoldColor(color)), (seq!['…'], SpanStyle::Plain), (seq![], SpanStyle::Colored(Color::White))]),
        }
    } else {
        Some(seq![
            (seq![' ', ' ', ' ', ' '] + zero_pad(radix_digits(item.instruction.address as nat, 16), 8) + seq![' ', ' '], SpanStyle::Plain),
            (asm_bytes_text(item, show_bytes), SpanStyle::BytesDim),
            (item.instruction.mnemonic@, SpanStyle::BoldColor(color)),
            (seq![], SpanStyle::Colored(Color::White)),
        ])
    }
}

pub(crate) fn push_span(out: &mut Vec<Span>, text: String, style: SpanStyle)
    ensures
        span_views(final(out)@) == span_views(old(out)@).push((text@, style)),
{
    let ghost o0 = out@;
    out.push(Span { text, style });
    assert(span_views(out@) =~= span_views(o0).push((text@, style)));
}

pub(crate) fn plain_text(spans: &Vec<Span>) -> (r: String)
    ensures
        r@ == spans_text(span_views(spans@)),
{
    let mut out = owned("");
    proof {
        reveal_strlit("");
    }
    let mut i: usize = 0;
    while i < spans.len()
        invariant
            i <= spans.len(),
            out@ == spans_text(span_views(spans@.take(i as int))),
        decreases spans.len() - i,
    {
        push_str(&mut out, spans[i].text.as_str());
        assert(span_views(spans@.take(i as int + 1)).drop_last() =~= span_views(spans@.take(i as int)));
        i = i + 1;
    }
    assert(spans@.take(spans.len() as int) =~= spans@);
    out
}

pub(crate) fn line_number_exec(n: usize) -> (r: String)
    ensures
        r@ == line_number_text(n as int),
{
    let d = chars_of(format_decimal(n as u64).as_str());
    let mut out: Vec<char> = Vec::new();
    let mut k = d.len();
    while k < 4
        invariant
            d.len() <= k,
            k <= 4 || k == d.len(),
            out@ == Seq::new((k - d.len()) as nat, |i: int| ' '),
        decreases 4 - k,
    {
        out.push(' ');
        assert(out@ =~= Seq::new((k + 1 - d.len()) as nat, |i: int| ' '));
        k = k + 1;
    }
    let ghost pad = out@;
    let mut j: usize = 0;
    while j < d.len()
        invariant
            j <= d.len(),
            out@ == pad + d@.take(j as int),
        decreases d.len() - j,
    {
        out.push(d[j]);
        assert(out@ =~= pad + d@.take(j as int + 1));
        j = j + 1;
    }
    out.push(':');
    assert(out@ =~= line_number_text(n as int)) by {
        assert(d@.take(d.len() as int) =~= d@);
        if d.len() >= 4 {
            assert(pad =~= Seq::<char>::empty());
        }
    }
    string_of(out.as_slice())
}

fn source_line(v: &SourceItem, width: usize) -> (r: Vec<Span>)
    ensures
        span_views(r@) == source_spans(v@, width as int),
{
    proof {
        reveal_strlit("-- ");
        reveal_strlit(" --");
        reveal_strlit("    :");
        reveal_strlit(" ~");
        reveal_strlit(" ");
        reveal_strlit("▶");
        reveal_strlit("   ");
    }
    let mut out: Vec<Span> = Vec::new();
    assert(span_views(out@) =~= Seq::<(Seq<char>, SpanStyle)>::empty());
    match v {
        SourceItem::FileHeader { path } => {
            push_span(&mut out, owned("-- "), SpanStyle::Plain);
            push_span(&mut out, short_path(path.as_str(), 3), SpanStyle::DimmedItalic);
            push_span(&mut out, owned(" --"), SpanStyle::Plain);
            assert(span_views(out@) =~~= source_spans(v@, width as int));
        },
        SourceItem::Gap => {
            push_span(&mut out, owned("    :"), SpanStyle::Dimmed);
            push_span(&mut out, owned(" ~"), SpanStyle::Plain);
            assert(span_views(out@) =~~= source_spans(v@, width as int));
        },
        SourceItem::Line { number, text, color, is_main } => {
            let t = truncate_to_width(text.as_str(), width.saturating_sub(8));
            let num = line_number_exec(*number);
            if *is_main {
                let c = match color {
                    Some(c) => *c,
                    None => Color::White,
                };
                push_span(&mut out, num, SpanStyle::BoldColor(c));
                push_span(&mut out, owned(" "), SpanStyle::Plain);
                push_span(&mut out, owned("▶"), SpanStyle::BoldColor(c));
                push_span(&mut out, owned(" "), SpanStyle::Plain);
                push_span(&mut out, t, SpanStyle::Colored(c));
                assert(span_views(out@) =~~= source_spans(v@, width as int));
            } else {
                push_span(&mut out, num, SpanStyle::Dimmed);
                push_span(&mut out, owned("   "), SpanStyle::Plain);
                push_span(&mut out, t, SpanStyle::Gray);
                assert(span_views(out@) =~~= source_spans(v@, width as int));
            }
        },
    }
    assert(span_views(out@) =~~= source_spans(v@, width as int));
    out
}

pub(crate) fn asm_line(item: &DisplayItem, show_bytes: bool, color: Color, width: usize) -> (r: Option<Vec<Span>>)
    ensures
        match r {
            Some(v) => asm_spans(*item, show_bytes, color, width as int) == Some(span_views(v@)),
            None => asm_spans(*item, show_bytes, color, width as int) is None,
        },
{
    proof {
        reveal_strlit("    ");
        reveal_strlit("  ");
        reveal_strlit("");
        reveal_strlit("…");
    }
    let digits = chars_of(format_hex(item.instruction.address).as_str());
    let mut address = owned("    ");
    assert(address@ =~= seq![' ', ' ', ' ', ' '] + Seq::new(0, |i: int| '0'));
    let mut k = digits.len();
    while k < 8
        invariant
            digits.len() <= k,
            k <= 8 || k == digits.len(),
            address@ == seq![' ', ' ', ' ', ' '] + Seq::new((k - digits.len()) as nat, |i: int| '0'),
        decreases 8 - k,
    {
        string_push(&mut address, '0');
        assert(address@ =~= seq![' ', ' ', ' ', ' '] + Seq::new((k + 1 - digits.len()) as nat, |i: int| '0'));
        k = k + 1;
    }
    let ghost pre = address@;
    push_chars(&mut address, digits.as_slice());
    push_str(&mut address, "  ");
    assert(address@ =~= seq![' ', ' ', ' ', ' '] + zero_pad(radix_digits(item.instruction.address as nat, 16), 8) + seq![' ', ' ']) by {
        if digits.len() >= 8 {
            assert(pre =~= seq![' ', ' ', ' ', ' ']);
        }
    }
    let bytes = if show_bytes && item.instruction.bytes.as_str().unicode_len() > 0 {
        let mut b = copy_string(&item.instruction.bytes);
        pad_to(&mut b, 16);
        push_str(&mut b, "  ");
        b
    } else {
        owned("")
    };
    assert(bytes@ == asm_bytes_text(*item, show_bytes));
    let mut plain = copy_string(&address);
    push_str(&mut plain, bytes.as_str());
    push_str(&mut plain, item.instruction.mnemonic.as_str());
    assert(plain@ == asm_plain(*item, show_bytes));
    let stripped = strip_ansi(plain.as_str());
    if str_width(stripped.as_str()) > width {
        let sv = chars_of(stripped.as_str());
        match byte_truncate_exec(sv.as_slice(), width.saturating_sub(1)) {
            None => None,
            Some(t) => {
                let mut out: Vec<Span> = Vec::new();
    assert(span_views(out@) =~= Seq::<(Seq<char>, SpanStyle)>::empty());
                push_span(&mut out, string_of(t.as_slice()), SpanStyle::BoldColor(color));
                push_span(&mut out, owned("…"), SpanStyle::Plain);
                push_span(&mut out, owned(""), SpanStyle::Colored(Color::White));
                assert(span_views(out@) =~~= asm_spans(*item, show_bytes, color, width as int)->0);
                Some(out)
            },
        }
    } else {
        let mut out: Vec<Span> = Vec::new();
    assert(span_views(out@) =~= Seq::<(Seq<char>, SpanStyle)>::empty());
        push_span(&mut out, address, SpanStyle::Plain);
        push_span(&mut out, bytes, SpanStyle::BytesDim);
        push_span(&mut out, copy_string(&item.instruction.mnemonic), SpanStyle::BoldColor(color));
        push_span(&mut out, owned(""), SpanStyle::Colored(Color::White));
        assert(span_views(out@) =~~= asm_spans(*item, show_bytes, color, width as int)->0);
        Some(out)
    }
}

/// The styled source panel lines.
pub open spec fn panel_spans(panel: Seq<SourceItemView>, width: int) -> Seq<Seq<(Seq<char>, SpanStyle)>> {
    panel.map_values(|v: SourceItemView| source_spans(v, width))
}

/// Every instruction line can be written.
pub open spec fn all_asm_lines(items: Seq<DisplayItem>, show_bytes: bool, width: int) -> bool {
    forall|i: int| 0 <= i < items.len() ==> (#[trigger] asm_spans(items[i], show_bytes, items[i].color, width)) is Some
}

/// The styled instruction lines.
pub open spec fn asm_lines_spec(items: Seq<DisplayItem>, show_bytes: bool, width: int) -> Seq<Seq<(Seq<char>, SpanStyle)>> {
    items.map_values(|it: DisplayItem| asm_spans(it, show_bytes, it.color, width)->0)
}

/// Row `i` of the side-by-side listing: the `i`-th source line (or nothing), padded with
/// spaces to `width` columns by its width without escape codes, and the `i`-th
/// instruction line (or nothing).
pub open spec fn side_row(
    src: Seq<Seq<(Seq<char>, SpanStyle)>>,
    ins: Seq<Seq<(Seq<char>, SpanStyle)>>,
    width: int,
    i: int,
) -> (Seq<(Seq<char>, SpanStyle)>, int, Seq<(Seq<char>, SpanStyle)>) {
    let s = if i < src.len() {
        src[i]
    } else {
        seq![]
    };
    let a = if i < ins.len() {
        ins[i]
    } else {
        seq![]
    };
    let w = unicode_str_width(strip_from(spans_text(s), 0));
    (s, if w < width { width - w } else { 0 }, a)
}

/// The view of a side-by-side row.
pub open spec fn side_row_view(r: SideRow) -> (Seq<(Seq<char>, SpanStyle)>, int, Seq<(Seq<char>, SpanStyle)>) {
    (span_views(r.source@), r.padding as int, span_views(r.instruction@))
}

/// A row of the side-by-side listing: the source text, the spaces that pad it to the
/// source column's width, and the instruction text.
pub struct SideRow {
    pub source: Vec<Span>,
    pub padding: usize,
    pub instruction: Vec<Span>,
}

/// Prints source and assembly in two columns: the source panel (with `context_lines` of
/// context around and between mapped lines) on the left, the instructions on the right.
pub struct SideBySideRenderer {
    pub show_bytes: bool,
    pub context_lines: usize,
    pub source_width: usize,
    pub asm_width: usize,
}

impl SideBySideRenderer {
    /// The rows of the listing (see `side_row`): as many as the longer of the source
    /// panel and the instructions. `None` when an instruction line cannot be cut (see
    /// `asm_spans`).
    pub fn render_rows(&self, items: &[DisplayItem], source_reader: &SourceReader) -> (r: Option<Vec<SideRow>>)
        requires
            items_fit(items@, self.context_lines as int, self.context_lines as int),
        ensures
            match r {
                None => !all_asm_lines(items@, self.show_bytes, self.asm_width as int),
                Some(rows) => {
                    let src = panel_spans(source_view_spec(items@, *source_reader, self.context_lines as int, self.context_lines as int), self.source_width as int);
                    let ins = asm_lines_spec(items@, self.show_bytes, self.asm_width as int);
                    &&& all_asm_lines(items@, self.show_bytes, self.asm_width as int)
                    &&& rows@.len() == (if src.len() > ins.len() { src.len() } else { ins.len() })
                    &&& forall|i: int| 0 <= i < rows@.len() ==> side_row_view(#[trigger] rows@[i]) == side_row(src, ins, self.source_width as int, i)
                },
            },
    {
        let mut ins: Vec<Vec<Span>> = Vec::new();
        let mut i: usize = 0;
        while i < items.len()
            invariant
                i <= items.len(),
                ins@.len() == i,
                forall|k: int| 0 <= k < i ==> (#[trigger] asm_spans(items@[k], self.show_bytes, items@[k].color, self.asm_width as int)) is Some,
                forall|k: int| 0 <= k < i ==> span_views(#[trigger] ins@[k]@) == asm_spans(items@[k], self.show_bytes, items@[k].color, self.asm_width as int)->0,
            decreases items.len() - i,
        {
            match asm_line(&items[i], self.show_bytes, items[i].color, self.asm_width) {
                Some(l) => {
                    ins.push(l);
                },
                None => {
                    return None;
                },
            }
            i = i + 1;
        }
        let panel = build_source_view(items, source_reader, self.context_lines, self.context_lines);
        let ghost pv = item_views(panel@);
        let mut src: Vec<Vec<Span>> = Vec::new();
        let mut j: usize = 0;
        while j < panel.len()
            invariant
                j <= panel.len(),
                pv == item_views(panel@),
                src@.len() == j,
                forall|k: int| 0 <= k < j ==> span_views(#[trigger] src@[k]@) == source_spans(pv[k], self.source_width as int),
            decreases panel.len() - j,
        {
            src.push(source_line(&panel[j], self.source_width));
            j = j + 1;
        }
        let ghost sv = panel_spans(pv, self.source_width as int);
        let ghost iv = asm_lines_spec(items@, self.show_bytes, self.asm_width as int);
        let n = if src.len() > ins.len() {
            src.len()
        } else {
            ins.len()
        };
        let mut rows: Vec<SideRow> = Vec::new();
        let mut k: usize = 0;
        while k < n
            invariant
                k <= n,
                n == (if src@.len() > ins@.len() { src@.len() } else { ins@.len() }),
                src@.len() == sv.len(),
                ins@.len() == iv.len(),
                forall|q: int| 0 <= q < src@.len() ==> span_views(#[trigger] src@[q]@) == sv[q],
                forall|q: int| 0 <= q < ins@.len() ==> span_views(#[trigger] ins@[q]@) == iv[q],
                rows@.len() == k,
                forall|q: int| 0 <= q < k ==> side_row_view(#[trigger] rows@[q]) == side_row(sv, iv, self.source_width as int, q),
            decreases n - k,
        {
            let s_part: Vec<Span> = if k < src.len() {
                copy_spans(&src[k])
            } else {
                Vec::new()
            };
            let a_part: Vec<Span> = if k < ins.len() {
                copy_spans(&ins[k])
            } else {
                Vec::new()
            };
            assert(k >= src@.len() ==> span_views(s_part@) =~= Seq::<(Seq<char>, SpanStyle)>::empty());
            assert(k >= ins@.len() ==> span_views(a_part@) =~= Seq::<(Seq<char>, SpanStyle)>::empty());
            let text = plain_text(&s_part);
            let stripped = strip_ansi(text.as_str());
            let w = str_width(stripped.as_str());
            let padding = self.source_width.saturating_sub(w);
            rows.push(SideRow { source: s_part, padding, instruction: a_part });
            k = k + 1;
        }
        proof {
            assert forall|q: int| 0 <= q < items.len() implies (#[trigger] asm_spans(items@[q], self.show_bytes, items@[q].color, self.asm_width as int)) is Some by {}
        }
        Some(rows)
    }
}

pub(crate) fn copy_spans(v: &Vec<Span>) -> (r: Vec<Span>)
    ensures
        span_views(r@) == span_views(v@),
{
    let mut out: Vec<Span> = Vec::new();
    assert(span_views(out@) =~= Seq::<(Seq<char>, SpanStyle)>::empty());
    let mut i: usize = 0;
    while i < v.len()
        invariant
            i <= v.len(),
            span_views(out@) == span_views(v@.take(i as int)),
        decreases v.len() - i,
    {
        push_span(&mut out, copy_string(&v[i].text), v[i].style);
        assert(span_views(out@) =~= span_views(v@.take(i as int + 1)));
        i = i + 1;
    }
    assert(v@.take(v.len() as int) =~= v@);
    out
}

} // verus!
