//! The state of the interactive viewer and how keys change it.
use vstd::prelude::*;
use crate::error::AnnotateError;
use crate::text::{chars_of, digit_char, radix_digits, string_of};

verus! {

/// A decimal digit.
pub open spec fn is_digit(c: char) -> bool {
    '0' <= c && c <= '9'
}

/// The value of a string of decimal digits.
pub open spec fn digits_value(ds: Seq<char>) -> int
    decreases ds.len(),
{
    if ds.len() == 0 {
        0
    } else {
        digits_value(ds.drop_last()) * 10 + (ds.last() as int - '0' as int)
    }
}

/// `s` without a leading `+`.
pub open spec fn unsigned_digits(s: Seq<char>) -> Seq<char> {
    if s.len() > 0 && s[0] == '+' {
        s.drop_first()
    } else {
        s
    }
}

/// Every character of `ds` is a decimal digit.
pub open spec fn all_digits(ds: Seq<char>) -> bool {
    forall|i: int| 0 <= i < ds.len() ==> is_digit(#[trigger] ds[i])
}

/// What parsing `s` as a `usize` gives: an optional `+` followed by one or more decimal
/// digits whose value fits.
pub open spec fn parse_usize_spec(s: Seq<char>) -> Option<usize> {
    let ds = unsigned_digits(s);
    if ds.len() > 0 && all_digits(ds) && digits_value(ds) <= usize::MAX {
        Some(digits_value(ds) as usize)
    } else {
        None
    }
}

proof fn lemma_digits_grow(ds: Seq<char>, k: int)
    requires
        0 <= k <= ds.len(),
        forall|i: int| 0 <= i < ds.len() ==> is_digit(#[trigger] ds[i]),
    ensures
        digits_value(ds.take(k)) <= digits_value(ds),
        0 <= digits_value(ds.take(k)),
    decreases ds.len() - k,
{
    if k < ds.len() {
        lemma_digits_grow(ds, k + 1);
        let a = ds.take(k + 1);
        assert(a.drop_last() =~= ds.take(k));
        assert(is_digit(a.last()));
        let v = digits_value(ds.take(k));
        assert(v * 10 >= v) by (nonlinear_arith)
            requires
                v >= 0,
        ;
    } else {
        assert(ds.take(k) =~= ds);
        lemma_digits_nonneg(ds);
    }
}

proof fn lemma_digits_nonneg(ds: Seq<char>)
    requires
        forall|i: int| 0 <= i < ds.len() ==> is_digit(#[trigger] ds[i]),
    ensures
        0 <= digits_value(ds),
    decreases ds.len(),
{
    if ds.len() > 0 {
        lemma_digits_nonneg(ds.drop_last());
        assert(is_digit(ds.last()));
        let v = digits_value(ds.drop_last());
        assert(v * 10 >= 0) by (nonlinear_arith)
            requires
                v >= 0,
        ;
    }
}

/// Parses a `usize` as the standard library does (see `parse_usize_spec`).
pub fn parse_usize(s: &[char]) -> (r: Option<usize>)
    ensures
        r == parse_usize_spec(s@),
{
    let start: usize = if s.len() > 0 && s[0] == '+' {
        1
    } else {
        0
    };
    let ghost ds = unsigned_digits(s@);
    assert(ds =~= s@.subrange(start as int, s@.len() as int));
    if start >= s.len() {
        return None;
    }
    let mut value: usize = 0;
    let mut i: usize = start;
    while i < s.len()
        invariant
            start <= i <= s.len(),
            start < s.len(),
            ds == s@.subrange(start as int, s@.len() as int),
            ds == unsigned_digits(s@),
            forall|k: int| 0 <= k < i - start ==> is_digit(#[trigger] ds[k]),
            value == digits_value(ds.take(i - start)),
        decreases s.len() - i,
    {
        let c = s[i];
        assert(ds[i - start] == c);
        if !('0' <= c && c <= '9') {
            assert(!is_digit(ds[i - start]));
            assert(parse_usize_spec(s@) is None);
            return None;
        }
        let d = (c as u32 - '0' as u32) as usize;
        assert(ds.take(i - start + 1).drop_last() =~= ds.take(i - start));
        assert(ds.take(i - start + 1).last() == c);
        let ghost v0 = value as int;
        match value.checked_mul(10) {
            Some(v10) => match v10.checked_add(d) {
                Some(v) => {
                    value = v;
                },
                None => {
                    proof {
                        if all_digits(ds) {
                            lemma_digits_grow(ds, i - start + 1);
                        }
                    }
                    return None;
                },
            },
            None => {
                proof {
                    if all_digits(ds) {
                        lemma_digits_grow(ds, i - start + 1);
                        assert(v0 * 10 + (c as int - '0' as int) > usize::MAX);
                    }
                }
                return None;
            },
        }
        i = i + 1;
    }
    assert(ds.take(s.len() - start) =~= ds);
    Some(value)
}

proof fn lemma_decimal_digits(n: nat)
    ensures
        all_digits(radix_digits(n, 10)),
        radix_digits(n, 10).len() > 0,
        digits_value(radix_digits(n, 10)) == n,
        !radix_digits(n, 10).contains(':'),
    decreases n,
{
    let s = radix_digits(n, 10);
    if n < 10 {
        let c = digit_char(n as int);
        assert(c as int == n + 48);
        assert(s == seq![c]);
        assert(s.drop_last() =~= Seq::<char>::empty());
        assert(s.last() == c);
        assert(('0' as int) == 48);
        assert(digits_value(s) == digits_value(s.drop_last()) * 10 + (c as int - '0' as int));
    } else {
        lemma_decimal_digits(n / 10);
        let p = radix_digits(n / 10, 10);
        let c = digit_char((n % 10) as int);
        assert(c as int == n % 10 + 48);
        assert(s == p.push(c));
        assert(s.drop_last() =~= p);
        assert forall|i: int| 0 <= i < s.len() implies is_digit(#[trigger] s[i]) by {
            if i < p.len() {
                assert(s[i] == p[i]);
            }
        }
        assert(n == (n / 10) * 10 + n % 10);
        assert(s.last() == c);
        assert(('0' as int) == 48);
        assert(digits_value(s) == digits_value(p) * 10 + (c as int - '0' as int));
        if s.contains(':') {
            let i = choose|i: int| 0 <= i < s.len() && s[i] == ':';
            if i < p.len() {
                assert(s[i] == p[i]);
            }
        }
    }
}

/// A number written in decimal parses back to itself, so `N` gives `(N, N)` and `N:M`
/// gives `(N, M)`.
pub proof fn lemma_context_round_trip(n: usize, m: usize)
    ensures
        context_spec(radix_digits(n as nat, 10)) == Some((n, n)),
        context_spec(radix_digits(n as nat, 10) + seq![':'] + radix_digits(m as nat, 10)) == Some((n, m)),
{
    lemma_decimal_digits(n as nat);
    lemma_decimal_digits(m as nat);
    let dn = radix_digits(n as nat, 10);
    let dm = radix_digits(m as nat, 10);
    assert(dn[0] != '+');
    assert(unsigned_digits(dn) == dn);
    let s = dn + seq![':'] + dm;
    assert(s[dn.len() as int] == ':');
    assert(!is_digit(s[dn.len() as int]));
    assert(s[0] == dn[0]);
    assert(unsigned_digits(s) == s);
    assert(parse_usize_spec(s) is None);
    s.index_of_first_ensures(':');
    assert(s.contains(':'));
    let k = s.index_of_first(':')->0;
    assert(k == dn.len()) by {
        if k < dn.len() {
            assert(s[k] == dn[k]);
            assert(dn.contains(':'));
        }
    }
    assert(s.take(k) =~= dn);
    assert(s.skip(k + 1) =~= dm);
    assert(dm[0] != '+');
    assert(unsigned_digits(dm) == dm);
}

/// What `parse_context` gives: `N` for both amounts, or `N:M` split at the first colon.
pub open spec fn context_spec(s: Seq<char>) -> Option<(usize, usize)> {
    match parse_usize_spec(s) {
        Some(n) => Some((n, n)),
        None => match s.index_of_first(':') {
            None => None,
            Some(k) => match (parse_usize_spec(s.take(k)), parse_usize_spec(s.skip(k + 1))) {
                (Some(n), Some(m)) => Some((n, m)),
                _ => None,
            },
        },
    }
}

/// Parses the context option: `N` gives `(N, N)`, `N:M` gives `(N, M)`.
///
/// Fails with `InvalidContextNumber` when a side of the first colon is not a number (the
/// left side is reported first), and with `InvalidContextFormat` when there is no colon.
pub fn parse_context(context_str: &str) -> (r: Result<(usize, usize), AnnotateError>)
    ensures
        match context_spec(context_str@) {
            Some(p) => r == Ok::<(usize, usize), AnnotateError>(p),
            None => r is Err,
        },
        r matches Err(e) ==> match context_str@.index_of_first(':') {
            None => e is InvalidContextFormat && e->InvalidContextFormat_text@ == context_str@,
            Some(k) => e is InvalidContextNumber && (if parse_usize_spec(context_str@.take(k)) is None {
                e->InvalidContextNumber_text@ == context_str@.take(k)
            } else {
                e->InvalidContextNumber_text@ == context_str@.skip(k + 1)
            }),
        },
{
    let s = chars_of(context_str);
    match parse_usize(s.as_slice()) {
        Some(n) => {
            return Ok((n, n));
        },
        None => {},
    }
    let mut k: usize = 0;
    while k < s.len() && s[k] != ':'
        invariant
            k <= s.len(),
            forall|j: int| 0 <= j < k ==> s@[j] != ':',
        decreases s.len() - k,
    {
        k = k + 1;
    }
    proof {
        s@.index_of_first_ensures(':');
    }
    if k == s.len() {
        assert(!s@.contains(':'));
        return Err(AnnotateError::InvalidContextFormat { text: string_of(s.as_slice()) });
    }
    assert(s@.index_of_first(':') == Some(k as int)) by {
        assert(s@[k as int] == ':');
        assert(s@.contains(':'));
        let j = s@.index_of_first(':')->0;
        assert(!(j < k));
        assert(!(j > k));
    }
    let left = vstd::slice::slice_subrange(s.as_slice(), 0, k);
    let right = vstd::slice::slice_subrange(s.as_slice(), k + 1, s.len());
    assert(left@ =~= s@.take(k as int));
    assert(right@ =~= s@.skip(k as int + 1));
    let n = match parse_usize(left) {
        Some(n) => n,
        None => {
            return Err(AnnotateError::InvalidContextNumber { text: string_of(left) });
        },
    };
    let m = match parse_usize(right) {
        Some(m) => m,
        None => {
            return Err(AnnotateError::InvalidContextNumber { text: string_of(right) });
        },
    };
    Ok((n, m))
}

/// The pane that scrolling keys act on.
#[derive(Debug, Clone, Copy, PartialEq, Eq, Structural)]
pub enum ActivePane {
    Source,
    Assembly,
}

/// What the keys change: the active pane, the scroll offsets, the width of the source pane
/// (in percent) and which overlays are shown.
#[derive(Debug, Clone, Copy, PartialEq, Eq, Structural)]
pub struct ViewState {
    pub active_pane: ActivePane,
    pub source_scroll: u16,
    pub asm_scroll: u16,
    pub left_pane_width: u16,
    pub show_help: bool,
    pub show_logger: bool,
}

/// The keys the viewer tells apart.
#[derive(Debug, Clone, Copy, PartialEq, Eq, Structural)]
pub enum KeyCode {
    Char(char),
    Esc,
    Tab,
    Left,
    Right,
    Up,
    Down,
    PageUp,
    PageDown,
    Other,
}

/// A key press with its modifiers.
#[derive(Debug, Clone, Copy, PartialEq, Eq, Structural)]
pub struct KeyInput {
    pub code: KeyCode,
    pub shift: bool,
    pub control: bool,
    /// Any modifier besides Shift and Control.
    pub other_modifiers: bool,
}

/// Whether the viewer goes on after a key.
#[derive(Debug, Clone, Copy, PartialEq, Eq, Structural)]
pub enum KeyOutcome {
    Continue,
    Quit,
}

/// Lines moved by a page key.
pub const PAGE_AMOUNT: u16 = 15;

/// Lines that stay visible when a pane is scrolled to its end.
pub const MIN_VISIBLE_LINES: u16 = 5;

/// `a + b`, or the largest `u16` when that overflows.
pub open spec fn sat_add_u16(a: u16, b: u16) -> u16 {
    if a + b > u16::MAX {
        u16::MAX
    } else {
        (a + b) as u16
    }
}

/// `a - b`, or 0 when that would be negative.
pub open spec fn sat_sub_u16(a: u16, b: u16) -> u16 {
    if a < b {
        0
    } else {
        (a - b) as u16
    }
}

/// The offset after scrolling down by `amount` through `len` lines: the line count is
/// taken modulo 2^16, and the offset stops where the last 5 lines are visible (at 0 when
/// there are no more than 5).
pub open spec fn scrolled_down(scroll: u16, amount: u16, len: nat) -> u16 {
    let h = (len % 65536) as int;
    if h > MIN_VISIBLE_LINES {
        let max_scroll = (h - MIN_VISIBLE_LINES) as u16;
        if sat_add_u16(scroll, amount) < max_scroll {
            sat_add_u16(scroll, amount)
        } else {
            max_scroll
        }
    } else {
        0
    }
}

/// Scrolls the active pane down through its `len` lines.
pub open spec fn scroll_down_spec(s: ViewState, amount: u16, source_len: nat, asm_len: nat) -> ViewState {
    match s.active_pane {
        ActivePane::Source => ViewState { source_scroll: scrolled_down(s.source_scroll, amount, source_len), ..s },
        ActivePane::Assembly => ViewState { asm_scroll: scrolled_down(s.asm_scroll, amount, asm_len), ..s },
    }
}

/// Scrolls the active pane up.
pub open spec fn scroll_up_spec(s: ViewState, amount: u16) -> ViewState {
    match s.active_pane {
        ActivePane::Source => ViewState { source_scroll: sat_sub_u16(s.source_scroll, amount), ..s },
        ActivePane::Assembly => ViewState { asm_scroll: sat_sub_u16(s.asm_scroll, amount), ..s },
    }
}

/// No modifier is held.
pub open spec fn no_modifiers(k: KeyInput) -> bool {
    !k.shift && !k.control && !k.other_modifiers
}

/// The key is one of the characters `a` or `b`.
pub open spec fn is_char(k: KeyInput, a: char, b: char) -> bool {
    k.code == KeyCode::Char(a) || k.code == KeyCode::Char(b)
}

/// What a key does. With the help shown, `?`, Esc and `q` close it and all else is
/// ignored. Otherwise: `?` shows the help; `q` quits; `g`/`G` toggle the log pane; Tab
/// switches panes; `h`/Left and `l`/Right without modifiers pick the source and assembly
/// panes; with Shift, `h`/`H`/Left and `l`/`L`/Right narrow and widen the source pane by
/// 5 within 10 to 90 percent; `j`/Down and `k`/Up scroll by a line; PageDown, PageUp,
/// Ctrl-D and Ctrl-U scroll by a page.
pub open spec fn key_step(s: ViewState, k: KeyInput, source_len: nat, asm_len: nat) -> (ViewState, KeyOutcome) {
    if s.show_help {
        if is_char(k, '?', 'q') || k.code == KeyCode::Esc {
            (ViewState { show_help: false, ..s }, KeyOutcome::Continue)
        } else {
            (s, KeyOutcome::Continue)
        }
    } else if k.code == KeyCode::Char('?') {
        (ViewState { show_help: true, ..s }, KeyOutcome::Continue)
    } else if k.code == KeyCode::Char('q') {
        (s, KeyOutcome::Quit)
    } else if is_char(k, 'g', 'G') {
        (ViewState { show_logger: !s.show_logger, ..s }, KeyOutcome::Continue)
    } else if k.code == KeyCode::Tab {
        (ViewState {
            active_pane: if s.active_pane == ActivePane::Source {
                ActivePane::Assembly
            } else {
                ActivePane::Source
            },
            ..s
        }, KeyOutcome::Continue)
    } else if (k.code == KeyCode::Char('h') || k.code == KeyCode::Left) && no_modifiers(k) {
        (ViewState { active_pane: ActivePane::Source, ..s }, KeyOutcome::Continue)
    } else if (k.code == KeyCode::Char('l') || k.code == KeyCode::Right) && no_modifiers(k) {
        (ViewState { active_pane: ActivePane::Assembly, ..s }, KeyOutcome::Continue)
    } else if (is_char(k, 'h', 'H') || k.code == KeyCode::Left) && k.shift {
        let w = sat_sub_u16(s.left_pane_width, 5);
        (ViewState { left_pane_width: if w < 10 { 10 } else { w }, ..s }, KeyOutcome::Continue)
    } else if (is_char(k, 'l', 'L') || k.code == KeyCode::Right) && k.shift {
        let w = sat_add_u16(s.left_pane_width, 5);
        (ViewState { left_pane_width: if w > 90 { 90 } else { w }, ..s }, KeyOutcome::Continue)
    } else if k.code == KeyCode::Char('j') || k.code == KeyCode::Down {
        (scroll_down_spec(s, 1, source_len, asm_len), KeyOutcome::Continue)
    } else if k.code == KeyCode::Char('k') || k.code == KeyCode::Up {
        (scroll_up_spec(s, 1), KeyOutcome::Continue)
    } else if k.code == KeyCode::PageDown || (k.code == KeyCode::Char('d') && k.control) {
        (scroll_down_spec(s, PAGE_AMOUNT, source_len, asm_len), KeyOutcome::Continue)
    } else if k.code == KeyCode::PageUp || (k.code == KeyCode::Char('u') && k.control) {
        (scroll_up_spec(s, PAGE_AMOUNT), KeyOutcome::Continue)
    } else {
        (s, KeyOutcome::Continue)
    }
}

/// The source pane's width stays within 10 to 90 percent whatever key is pressed.
pub proof fn lemma_width_stays_in_range(s: ViewState, k: KeyInput, source_len: nat, asm_len: nat)
    requires
        10 <= s.left_pane_width <= 90,
    ensures
        10 <= key_step(s, k, source_len, asm_len).0.left_pane_width <= 90,
{
}

/// With the help hidden, Ctrl+U does what PageUp does: the active pane scrolls up by a
/// page (15 lines), stopping at the top, and nothing else changes.
pub proof fn lemma_ctrl_u_pages_up(s: ViewState, ctrl_u: KeyInput, page_up: KeyInput, source_len: nat, asm_len: nat)
    requires
        !s.show_help,
        ctrl_u.code == KeyCode::Char('u'),
        ctrl_u.control,
        page_up.code == KeyCode::PageUp,
    ensures
        key_step(s, ctrl_u, source_len, asm_len) == key_step(s, page_up, source_len, asm_len),
        key_step(s, ctrl_u, source_len, asm_len).1 == KeyOutcome::Continue,
        s.active_pane == ActivePane::Source ==> key_step(s, ctrl_u, source_len, asm_len).0 == (ViewState {
            source_scroll: if s.source_scroll >= 15 { (s.source_scroll - 15) as u16 } else { 0 },
            ..s
        }),
        s.active_pane == ActivePane::Assembly ==> key_step(s, ctrl_u, source_len, asm_len).0 == (ViewState {
            asm_scroll: if s.asm_scroll >= 15 { (s.asm_scroll - 15) as u16 } else { 0 },
            ..s
        }),
{
}

/// With the help hidden, Ctrl+D does what PageDown does.
pub proof fn lemma_ctrl_d_pages_down(s: ViewState, ctrl_d: KeyInput, page_down: KeyInput, source_len: nat, asm_len: nat)
    requires
        !s.show_help,
        ctrl_d.code == KeyCode::Char('d'),
        ctrl_d.control,
        page_down.code == KeyCode::PageDown,
    ensures
        key_step(s, ctrl_d, source_len, asm_len) == key_step(s, page_down, source_len, asm_len),
        key_step(s, ctrl_d, source_len, asm_len).0 == scroll_down_spec(s, 15, source_len, asm_len),
{
}

/// The state after the keys of `keys`, pressed one after the other.
pub open spec fn after_keys(s: ViewState, keys: Seq<KeyInput>, source_len: nat, asm_len: nat) -> ViewState
    decreases keys.len(),
{
    if keys.len() == 0 {
        s
    } else {
        after_keys(key_step(s, keys[0], source_len, asm_len).0, keys.drop_first(), source_len, asm_len)
    }
}

/// Starting from a width that is a multiple of 5 within 10 to 90 percent (as the viewer's
/// 50 is), the source pane's width stays a multiple of 5 within 10 to 90 percent
/// whatever keys are pressed.
pub proof fn lemma_width_steps_of_five(s: ViewState, keys: Seq<KeyInput>, source_len: nat, asm_len: nat)
    requires
        10 <= s.left_pane_width <= 90,
        s.left_pane_width % 5 == 0,
    ensures
        10 <= after_keys(s, keys, source_len, asm_len).left_pane_width <= 90,
        after_keys(s, keys, source_len, asm_len).left_pane_width % 5 == 0,
    decreases keys.len(),
{
    if keys.len() > 0 {
        let next = key_step(s, keys[0], source_len, asm_len).0;
        assert(10 <= next.left_pane_width <= 90 && next.left_pane_width % 5 == 0);
        lemma_width_steps_of_five(next, keys.drop_first(), source_len, asm_len);
    }
}

/// Scrolling down never passes the point where the last 5 lines of the pane are visible,
/// and never moves up.
pub proof fn lemma_scroll_down_bounded(scroll: u16, amount: u16, len: nat)
    ensures
        scrolled_down(scroll, amount, len) <= (if len % 65536 > 5 { len % 65536 - 5 } else { 0 }),
        scroll <= (if len % 65536 > 5 { len % 65536 - 5 } else { 0 }) ==> scroll <= scrolled_down(scroll, amount, len),
{
}

/// While the help is shown no key quits, and only the help flag can change.
pub proof fn lemma_help_captures_keys(s: ViewState, k: KeyInput, source_len: nat, asm_len: nat)
    requires
        s.show_help,
    ensures
        key_step(s, k, source_len, asm_len).1 == KeyOutcome::Continue,
        key_step(s, k, source_len, asm_len).0 == (ViewState { show_help: key_step(s, k, source_len, asm_len).0.show_help, ..s }),
{
}

/// `?` opens the help and a second `?` closes it, leaving the rest of the state as it was.
pub proof fn lemma_help_toggle(s: ViewState, k: KeyInput, source_len: nat, asm_len: nat)
    requires
        !s.show_help,
        k.code == KeyCode::Char('?'),
    ensures
        key_step(s, k, source_len, asm_len).0.show_help,
        key_step(key_step(s, k, source_len, asm_len).0, k, source_len, asm_len).0 == s,
{
}

/// Tab pressed twice makes the same pane active again and changes nothing else.
pub proof fn lemma_tab_twice(s: ViewState, k: KeyInput, source_len: nat, asm_len: nat)
    requires
        !s.show_help,
        k.code == KeyCode::Tab,
    ensures
        key_step(key_step(s, k, source_len, asm_len).0, k, source_len, asm_len).0 == s,
        key_step(s, k, source_len, asm_len).0.active_pane != s.active_pane,
{
}

fn scrolled_down_exec(scroll: u16, amount: u16, len: usize) -> (r: u16)
    ensures
        r == scrolled_down(scroll, amount, len as nat),
{
    let h = (len % 65536) as u16;
    if h > MIN_VISIBLE_LINES {
        let max_scroll = h - MIN_VISIBLE_LINES;
        let t = scroll.saturating_add(amount);
        if t < max_scroll {
            t
        } else {
            max_scroll
        }
    } else {
        0
    }
}

/// The state the viewer starts in: the source pane active, nothing scrolled, the panes
/// split evenly, no overlay.
pub open spec fn initial_view() -> ViewState {
    ViewState {
        active_pane: ActivePane::Source,
        source_scroll: 0,
        asm_scroll: 0,
        left_pane_width: 50,
        show_help: false,
        show_logger: false,
    }
}

impl ViewState {
    /// The state the viewer starts in (see `initial_view`).
    pub fn initial() -> (r: ViewState)
        ensures
            r == initial_view(),
    {
        ViewState {
            active_pane: ActivePane::Source,
            source_scroll: 0,
            asm_scroll: 0,
            left_pane_width: 50,
            show_help: false,
            show_logger: false,
        }
    }

    /// Scrolls the active pane down by `amount`; the panes hold `source_len` and
    /// `asm_len` lines.
    pub fn scroll_down(&mut self, amount: u16, source_len: usize, asm_len: usize)
        ensures
            *final(self) == scroll_down_spec(*old(self), amount, source_len as nat, asm_len as nat),
    {
        match self.active_pane {
            ActivePane::Source => {
                self.source_scroll = scrolled_down_exec(self.source_scroll, amount, source_len);
            },
            ActivePane::Assembly => {
                self.asm_scroll = scrolled_down_exec(self.asm_scroll, amount, asm_len);
            },
        }
    }

    /// Scrolls the active pane up by `amount`.
    pub fn scroll_up(&mut self, amount: u16)
        ensures
            *final(self) == scroll_up_spec(*old(self), amount),
    {
        match self.active_pane {
            ActivePane::Source => {
                self.source_scroll = self.source_scroll.saturating_sub(amount);
            },
            ActivePane::Assembly => {
                self.asm_scroll = self.asm_scroll.saturating_sub(amount);
            },
        }
    }

    /// Applies a key (see `key_step`); the panes hold `source_len` and `asm_len` lines.
    pub fn handle_key(&mut self, key: KeyInput, source_len: usize, asm_len: usize) -> (r: KeyOutcome)
        ensures
            (*final(self), r) == key_step(*old(self), key, source_len as nat, asm_len as nat),
    {
        let code = key.code;
        let plain = !key.shift && !key.control && !key.other_modifiers;
        if self.show_help {
            if code == KeyCode::Char('?') || code == KeyCode::Char('q') || code == KeyCode::Esc {
                self.show_help = false;
            }
            return KeyOutcome::Continue;
        }
        if code == KeyCode::Char('?') {
            self.show_help = true;
        } else if code == KeyCode::Char('q') {
            return KeyOutcome::Quit;
        } else if code == KeyCode::Char('g') || code == KeyCode::Char('G') {
            self.show_logger = !self.show_logger;
        } else if code == KeyCode::Tab {
            self.active_pane = match self.active_pane {
                ActivePane::Source => ActivePane::Assembly,
                ActivePane::Assembly => ActivePane::Source,
            };
        } else if (code == KeyCode::Char('h') || code == KeyCode::Left) && plain {
            self.active_pane = ActivePane::Source;
        } else if (code == KeyCode::Char('l') || code == KeyCode::Right) && plain {
            self.active_pane = ActivePane::Assembly;
        } else if (code == KeyCode::Char('h') || code == KeyCode::Char('H') || code == KeyCode::Left) && key.shift {
            let w = self.left_pane_width.saturating_sub(5);
            self.left_pane_width = if w < 10 {
                10
            } else {
                w
            };
        } else if (code == KeyCode::Char('l') || code == KeyCode::Char('L') || code == KeyCode::Right) && key.shift {
            let w = self.left_pane_width.saturating_add(5);
            self.left_pane_width = if w > 90 {
                90
            } else {
                w
            };
        } else if code == KeyCode::Char('j') || code == KeyCode::Down {
            self.scroll_down(1, source_len, asm_len);
        } else if code == KeyCode::Char('k') || code == KeyCode::Up {
            self.scroll_up(1);
        } else if code == KeyCode::PageDown || (code == KeyCode::Char('d') && key.control) {
            self.scroll_down(PAGE_AMOUNT, source_len, asm_len);
        } else if code == KeyCode::PageUp || (code == KeyCode::Char('u') && key.control) {
            self.scroll_up(PAGE_AMOUNT);
        }
        KeyOutcome::Continue
    }
}

} // verus!
