//! The two other text listings of an annotated function: the unified one (source lines
//! above their instructions) and the split one (runs of instructions beside the source
//! line they come from), and the source column width that fits the source lines.
//!
//! Both read, for each item, the text of its source line and where a new source line or
//! file begins; these come alongside the items as `ItemSource` values.
use vstd::prelude::*;
use crate::paths::{short_path, short_path_spec};
use crate::render::{
    Span, SpanStyle, SideRow, all_asm_lines, asm_line, asm_spans, char_width, line_number_exec, line_number_text,
    plain_text, push_span, span_views, spans_text, str_width, strip_ansi, strip_from, unicode_str_width,
};
use crate::text::{chars_of, format_decimal, owned, push_str, radix_digits, str_eq, string_of};
use crate::elf::opt_str;
use crate::types::{Color, DisplayItem, SourceLocation, opt_loc_view};

verus! {

/// What the unified and split listings read of an item besides the item itself.
pub struct ItemSource {
    /// The text of the item's source line, when it was read.
    pub source_text: Option<String>,
    /// The item begins a new source line.
    pub is_new_line: bool,
    /// The item begins a new source file.
    pub is_new_file: bool,
}

/// The text of a source line, when there is one.
pub open spec fn text_of(x: ItemSource) -> Option<Seq<char>> {
    match x.source_text {
        Some(t) => Some(t@),
        None => None,
    }
}

/// The widest source line text among the first `n` items (0 when there is none).
pub open spec fn max_text_width(sources: Seq<ItemSource>, n: int) -> int
    decreases n,
{
    if n <= 0 {
        0
    } else {
        let m = max_text_width(sources, n - 1);
        match text_of(sources[n - 1]) {
            Some(t) => if unicode_str_width(t) > m {
                unicode_str_width(t) as int
            } else {
                m
            },
            None => m,
        }
    }
}

/// The source column width: wide enough for the widest source line and its 8 columns of
/// line number and marker, but leaving at least 50 columns for the instructions and 3 for
/// the separator, and never under 20.
pub open spec fn source_width_spec(sources: Seq<ItemSource>, term_width: int) -> int {
    let ideal = 8 + max_text_width(sources, sources.len() as int);
    let cap = if term_width >= 53 { term_width - 53 } else { 0 };
    let m = if ideal < cap { ideal } else { cap };
    if m > 20 { m } else { 20 }
}

/// Computes the source column width (see `source_width_spec`).
pub fn compute_source_width(sources: &[ItemSource], term_width: usize) -> (r: usize)
    ensures
        r == source_width_spec(sources@, term_width as int),
{
    let mut widest: usize = 0;
    let mut i: usize = 0;
    while i < sources.len()
        invariant
            i <= sources.len(),
            widest as int == max_text_width(sources@, i as int),
        decreases sources.len() - i,
    {
        match &sources[i].source_text {
            Some(t) => {
                let w = str_width(t.as_str());
                if w > widest {
                    widest = w;
                }
            },
            None => {},
        }
        i = i + 1;
    }
    let cap = term_width.saturating_sub(53);
    let m = if cap >= 8 && widest < cap - 8 {
        widest + 8
    } else {
        cap
    };
    if m > 20 {
        m
    } else {
        20
    }
}

/// A line of styled pieces, as views.
pub open spec fn line_views(v: Seq<Vec<Span>>) -> Seq<Seq<(Seq<char>, SpanStyle)>> {
    v.map_values(|l: Vec<Span>| span_views(l@))
}

/// The location line of the unified listing: `<file:line>`, the file shortened to its last
/// 3 components.
pub open spec fn location_line(src: (Seq<char>, usize)) -> Seq<(Seq<char>, SpanStyle)> {
    seq![
        (seq![' ', ' '], SpanStyle::Plain),
        (seq!['<'] + short_path_spec(src.0, 3) + seq![':'] + radix_digits(src.1 as nat, 10) + seq!['>'], SpanStyle::DimmedItalic),
    ]
}

/// The source text line of the unified listing, marked with `▶`.
pub open spec fn marked_text_line(t: Seq<char>, c: Color) -> Seq<(Seq<char>, SpanStyle)> {
    seq![
        (seq![' ', ' '], SpanStyle::Plain),
        (seq!['▶', ' '], SpanStyle::BoldColor(c)),
        (t, SpanStyle::Colored(c)),
        (seq![], SpanStyle::Colored(Color::White)),
    ]
}

/// The lines the unified listing gives for one item: where a new source line begins, the
/// location (also where a new file begins and the item has a source) and the source text
/// (when it was read); then the instruction, 120 columns at most.
pub open spec fn unified_item_lines(item: DisplayItem, x: ItemSource, show_bytes: bool) -> Seq<Seq<(Seq<char>, SpanStyle)>> {
    (if x.is_new_line && x.is_new_file && item.source is Some {
        seq![location_line(item.source->0@)]
    } else {
        seq![]
    }) + (if x.is_new_line && x.source_text is Some {
        seq![marked_text_line(x.source_text->0@, item.color)]
    } else {
        seq![]
    }) + seq![asm_spans(item, show_bytes, item.color, 120)->0]
}

/// The lines of the unified listing for the first `n` items.
pub open spec fn unified_lines(items: Seq<DisplayItem>, sources: Seq<ItemSource>, show_bytes: bool, n: int) -> Seq<Seq<(Seq<char>, SpanStyle)>>
    decreases n,
{
    if n <= 0 {
        seq![]
    } else {
        unified_lines(items, sources, show_bytes, n - 1) + unified_item_lines(items[n - 1], sources[n - 1], show_bytes)
    }
}

fn push_line(out: &mut Vec<Vec<Span>>, line: Vec<Span>)
    ensures
        line_views(final(out)@) == line_views(old(out)@).push(span_views(line@)),
{
    let ghost o0 = out@;
    out.push(line);
    assert(line_views(out@) =~= line_views(o0).push(span_views(line@)));
}

fn empty_spans() -> (r: Vec<Span>)
    ensures
        span_views(r@) == Seq::<(Seq<char>, SpanStyle)>::empty(),
{
    let out: Vec<Span> = Vec::new();
    assert(span_views(out@) =~= Seq::<(Seq<char>, SpanStyle)>::empty());
    out
}

/// Prints source lines above the instructions that come from them.
pub struct UnifiedRenderer {
    pub show_bytes: bool,
}

impl UnifiedRenderer {
    /// The lines of the listing (see `unified_lines`); `None` when an instruction line
    /// cannot be cut (see `asm_spans`).
    pub fn render_lines(&self, items: &[DisplayItem], sources: &[ItemSource]) -> (r: Option<Vec<Vec<Span>>>)
        requires
            items.len() == sources.len(),
        ensures
            match r {
                None => !all_asm_lines(items@, self.show_bytes, 120),
                Some(lines) => all_asm_lines(items@, self.show_bytes, 120)
                    && line_views(lines@) == unified_lines(items@, sources@, self.show_bytes, items.len() as int),
            },
    {
        let mut out: Vec<Vec<Span>> = Vec::new();
        assert(line_views(out@) =~= unified_lines(items@, sources@, self.show_bytes, 0));
        let mut i: usize = 0;
        while i < items.len()
            invariant
                i <= items.len(),
                items.len() == sources.len(),
                line_views(out@) == unified_lines(items@, sources@, self.show_bytes, i as int),
                forall|k: int| 0 <= k < i ==> (#[trigger] asm_spans(items@[k], self.show_bytes, items@[k].color, 120)) is Some,
            decreases items.len() - i,
        {
            proof {
                reveal_strlit("  ");
                reveal_strlit("<");
                reveal_strlit(":");
                reveal_strlit(">");
                reveal_strlit("▶ ");
                reveal_strlit("");
            }
            let item = &items[i];
            let x = &sources[i];
            let ghost before = line_views(out@);
            let ghost mid1 = before;
            if x.is_new_line && x.is_new_file {
                match &item.source {
                    Some(src) => {
                        let mut loc = owned("<");
                        push_str(&mut loc, short_path(src.file.as_str(), 3).as_str());
                        push_str(&mut loc, ":");
                        push_str(&mut loc, format_decimal(src.line as u64).as_str());
                        push_str(&mut loc, ">");
                        let mut line = empty_spans();
                        push_span(&mut line, owned("  "), SpanStyle::Plain);
                        push_span(&mut line, loc, SpanStyle::DimmedItalic);
                        assert(span_views(line@) =~~= location_line(src@));
                        push_line(&mut out, line);
                    },
                    None => {},
                }
            }
            let ghost mid2 = line_views(out@);
            if x.is_new_line {
                match &x.source_text {
                    Some(t) => {
                        let mut line = empty_spans();
                        push_span(&mut line, owned("  "), SpanStyle::Plain);
                        push_span(&mut line, owned("▶ "), SpanStyle::BoldColor(item.color));
                        push_span(&mut line, string_of(chars_of(t.as_str()).as_slice()), SpanStyle::Colored(item.color));
                        push_span(&mut line, owned(""), SpanStyle::Colored(Color::White));
                        assert(span_views(line@) =~~= marked_text_line(t@, item.color));
                        push_line(&mut out, line);
                    },
                    None => {},
                }
            }
            let ghost mid3 = line_views(out@);
            match asm_line(item, self.show_bytes, item.color, 120) {
                Some(l) => push_line(&mut out, l),
                None => return None,
            }
            proof {
                let parts = unified_item_lines(items@[i as int], sources@[i as int], self.show_bytes);
                assert(line_views(out@) =~= before + parts);
            }
            i = i + 1;
        }
        Some(out)
    }
}

/// The characters of `s[i..]` kept while the running sum of character widths (from
/// `cur`) stays within `limit`.
pub open spec fn keep_chars(s: Seq<char>, limit: int, i: int, cur: int) -> Seq<char>
    decreases s.len() - i,
{
    if i < 0 || i >= s.len() {
        seq![]
    } else if cur + char_width(s[i]) > limit {
        seq![]
    } else {
        seq![s[i]] + keep_chars(s, limit, i + 1, cur + char_width(s[i]))
    }
}

/// A source line text cut for the split listing: unchanged when it fits in `avail`
/// columns; otherwise the leading characters whose widths add up to at most `avail - 1`,
/// then `…`.
pub open spec fn split_cut(t: Seq<char>, avail: int) -> Seq<char> {
    if unicode_str_width(t) > avail {
        keep_chars(t, if avail >= 1 { avail - 1 } else { 0 }, 0, 0) + seq!['…']
    } else {
        t
    }
}

/// The source part of the row that begins a run on a new line: the line number, the
/// marker and the line's text (cut to what is left of `width` after the number, the
/// marker and two spaces), or `?` when the text was not read.
pub open spec fn split_source_part(line: usize, text: Option<Seq<char>>, c: Color, width: int) -> Seq<(Seq<char>, SpanStyle)> {
    let num = line_number_text(line as int);
    let prefix = unicode_str_width(num) + unicode_str_width(seq!['▶', ' ']) + 2;
    let avail = if width > prefix { width - prefix } else { 0 };
    seq![
        (num, SpanStyle::Dimmed),
        (seq![' '], SpanStyle::Plain),
        (seq!['▶', ' '], SpanStyle::BoldColor(c)),
        (seq![' '], SpanStyle::Plain),
        (match text {
            Some(t) => split_cut(t, avail),
            None => seq!['?'],
        }, SpanStyle::Colored(c)),
    ]
}

/// A line of the split listing: a file header (printed after an empty line) or a row of
/// source part, padding and instruction.
pub enum SplitLineView {
    Header(Seq<(Seq<char>, SpanStyle)>),
    Row(Seq<(Seq<char>, SpanStyle)>, int, Seq<(Seq<char>, SpanStyle)>),
}

/// A row with `part` padded to `width` columns by its width without escape codes.
pub open spec fn split_row(part: Seq<(Seq<char>, SpanStyle)>, width: int, instr: Seq<(Seq<char>, SpanStyle)>) -> SplitLineView {
    let w = unicode_str_width(strip_from(spans_text(part), 0));
    SplitLineView::Row(part, if w < width { width - w } else { 0 }, instr)
}

/// The file header of the split listing.
pub open spec fn split_header(file: Seq<char>) -> SplitLineView {
    SplitLineView::Header(seq![
        (seq!['-', '-', ' '], SpanStyle::Plain),
        (short_path_spec(file, 3), SpanStyle::DimmedItalic),
        (seq![' ', '-', '-'], SpanStyle::Plain),
    ])
}

/// The split listing from item `k` on. Items with the same source as the one before form
/// a run, shown in the run's first color. A run that begins a new file gets a header (and
/// the line seen last is forgotten); a run whose line differs from the line seen last
/// shows that line beside its first instruction; the other rows have no source part.
/// `file` and `line` are the file and line seen last, `color` the current run's color.
pub open spec fn split_from(
    items: Seq<DisplayItem>,
    sources: Seq<ItemSource>,
    show_bytes: bool,
    source_width: int,
    asm_width: int,
    k: int,
    file: Option<Seq<char>>,
    line: Option<usize>,
    color: Color,
) -> Seq<SplitLineView>
    decreases items.len() - k,
{
    if k < 0 || k >= items.len() {
        seq![]
    } else {
        let cur = opt_loc_view(items[k].source);
        if k == 0 || cur != opt_loc_view(items[k - 1].source) {
            let c = items[k].color;
            let loc = cur->0;
            let cur_file = loc.0;
            let cur_line = loc.1;
            let new_file = cur is Some && file != Some(cur_file);
            let head: Seq<SplitLineView> = if new_file { seq![split_header(cur_file)] } else { seq![] };
            let file2 = if new_file { Some(cur_file) } else { file };
            let line1 = if new_file { None } else { line };
            let shows = cur is Some && line1 != Some(cur_line);
            let part = if shows { split_source_part(cur_line, text_of(sources[k]), c, source_width) } else { seq![] };
            let line2 = if shows { Some(cur_line) } else { line1 };
            head + seq![split_row(part, source_width, asm_spans(items[k], show_bytes, c, asm_width)->0)]
                + split_from(items, sources, show_bytes, source_width, asm_width, k + 1, file2, line2, c)
        } else {
            seq![split_row(seq![], source_width, asm_spans(items[k], show_bytes, color, asm_width)->0)]
                + split_from(items, sources, show_bytes, source_width, asm_width, k + 1, file, line, color)
        }
    }
}

/// A line of the split listing.
pub enum SplitLine {
    /// A file header, printed after an empty line.
    Header(Vec<Span>),
    /// A row: source part, padding, instruction.
    Row(SideRow),
}

/// The view of a line of the split listing.
pub open spec fn split_line_view(l: SplitLine) -> SplitLineView {
    match l {
        SplitLine::Header(h) => SplitLineView::Header(span_views(h@)),
        SplitLine::Row(r) => SplitLineView::Row(span_views(r.source@), r.padding as int, span_views(r.instruction@)),
    }
}

/// The views of lines of the split listing.
pub open spec fn split_views(v: Seq<SplitLine>) -> Seq<SplitLineView> {
    v.map_values(|l: SplitLine| split_line_view(l))
}

fn push_split(out: &mut Vec<SplitLine>, l: SplitLine)
    ensures
        split_views(final(out)@) == split_views(old(out)@).push(split_line_view(l)),
{
    let ghost o0 = out@;
    let ghost v = split_line_view(l);
    out.push(l);
    assert(split_views(out@) =~= split_views(o0).push(v));
}

fn keep_chars_exec(t: &Vec<char>, limit: usize) -> (r: Vec<char>)
    ensures
        r@ == keep_chars(t@, limit as int, 0, 0),
{
    let mut out: Vec<char> = Vec::new();
    let mut cur: usize = 0;
    let mut i: usize = 0;
    while i < t.len()
        invariant
            i <= t.len(),
            cur <= limit,
            out@ + keep_chars(t@, limit as int, i as int, cur as int) == keep_chars(t@, limit as int, 0, 0),
        decreases t.len() - i,
    {
        let c = t[i];
        let arr = [c];
        assert(arr@ =~= seq![c]);
        let one = string_of(&arr);
        let cw = str_width(one.as_str());
        if cw > limit - cur {
            assert(out@ + keep_chars(t@, limit as int, i as int, cur as int) =~= out@);
            return out;
        }
        let ghost o0 = out@;
        out.push(c);
        assert(o0 + keep_chars(t@, limit as int, i as int, cur as int) =~= out@ + keep_chars(t@, limit as int, i as int + 1, (cur + cw) as int));
        cur = cur + cw;
        i = i + 1;
    }
    assert(out@ + keep_chars(t@, limit as int, i as int, cur as int) =~= out@);
    out
}

fn source_part_exec(line: usize, text: &Option<String>, c: Color, width: usize) -> (r: Vec<Span>)
    ensures
        span_views(r@) == split_source_part(line, opt_str(*text), c, width as int),
{
    proof {
        reveal_strlit("▶ ");
        reveal_strlit(" ");
        reveal_strlit("?");
        reveal_strlit("…");
    }
    let num = line_number_exec(line);
    let nw = str_width(num.as_str());
    let mw = str_width("▶ ");
    assert("▶ "@ =~= seq!['▶', ' ']);
    let avail: usize = if nw < width && mw < width - nw && 2 < width - nw - mw {
        width - nw - mw - 2
    } else {
        0
    };
    let ghost prefix = unicode_str_width(line_number_text(line as int)) + unicode_str_width(seq!['▶', ' ']) + 2;
    assert(avail as int == (if width > prefix { width - prefix } else { 0 }));
    let shown = match text {
        Some(t) => if str_width(t.as_str()) > avail {
            let kept = keep_chars_exec(&chars_of(t.as_str()), avail.saturating_sub(1));
            let mut s = string_of(kept.as_slice());
            push_str(&mut s, "…");
            assert(s@ =~= split_cut(t@, avail as int));
            s
        } else {
            string_of(chars_of(t.as_str()).as_slice())
        },
        None => owned("?"),
    };
    assert(shown@ == (match opt_str(*text) {
        Some(t) => split_cut(t, avail as int),
        None => seq!['?'],
    }));
    let mut out = empty_spans();
    push_span(&mut out, num, SpanStyle::Dimmed);
    push_span(&mut out, owned(" "), SpanStyle::Plain);
    push_span(&mut out, owned("▶ "), SpanStyle::BoldColor(c));
    push_span(&mut out, owned(" "), SpanStyle::Plain);
    push_span(&mut out, shown, SpanStyle::Colored(c));
    assert(span_views(out@) =~~= split_source_part(line, opt_str(*text), c, width as int));
    out
}

fn split_row_exec(part: Vec<Span>, width: usize, instr: Vec<Span>) -> (r: SplitLine)
    ensures
        split_line_view(r) == split_row(span_views(part@), width as int, span_views(instr@)),
{
    let text = plain_text(&part);
    let stripped = strip_ansi(text.as_str());
    let w = str_width(stripped.as_str());
    let padding = width.saturating_sub(w);
    SplitLine::Row(SideRow { source: part, padding, instruction: instr })
}

fn same_source(a: &Option<SourceLocation>, b: &Option<SourceLocation>) -> (r: bool)
    ensures
        r == (opt_loc_view(*a) == opt_loc_view(*b)),
{
    match (a, b) {
        (Some(x), Some(y)) => x.line == y.line && str_eq(x.file.as_str(), y.file.as_str()),
        (None, None) => true,
        _ => false,
    }
}

/// Prints runs of instructions beside the source line they come from.
pub struct SplitRenderer {
    pub show_bytes: bool,
    pub source_width: usize,
    pub asm_width: usize,
}

impl SplitRenderer {
    /// The listing's lines for item `k`, added to `out`, with the file and line seen last
    /// and the current run's color brought up to date (see `split_from`); `false`, and
    /// nothing promised of the rest, when its instruction line cannot be cut.
    fn split_step(
        &self,
        items: &[DisplayItem],
        sources: &[ItemSource],
        k: usize,
        out: &mut Vec<SplitLine>,
        file: &mut Option<String>,
        line: &mut Option<usize>,
        color: &mut Color,
    ) -> (ok: bool)
        requires
            k < items.len(),
            items.len() == sources.len(),
        ensures
            ok == (asm_spans(items@[k as int], self.show_bytes, items@[k as int].color, self.asm_width as int) is Some),
            ok ==> split_views(final(out)@) + split_from(
                items@, sources@, self.show_bytes, self.source_width as int, self.asm_width as int, k + 1,
                opt_str(*final(file)), *final(line), *final(color),
            ) == split_views(old(out)@) + split_from(
                items@, sources@, self.show_bytes, self.source_width as int, self.asm_width as int, k as int,
                opt_str(*old(file)), *old(line), *old(color),
            ),
    {
        proof {
            reveal_strlit("-- ");
            reveal_strlit(" --");
        }
        let ghost sb = self.show_bytes;
        let ghost sw = self.source_width as int;
        let ghost aw = self.asm_width as int;
        let ghost before = split_views(out@);
        let item = &items[k];
        if k == 0 || !same_source(&item.source, &items[k - 1].source) {
            let c = item.color;
            let mut part: Vec<Span> = empty_spans();
            match &item.source {
                Some(src) => {
                    let new_file = match file {
                        Some(f) => !str_eq(f.as_str(), src.file.as_str()),
                        None => true,
                    };
                    if new_file {
                        let mut h = empty_spans();
                        push_span(&mut h, owned("-- "), SpanStyle::Plain);
                        push_span(&mut h, short_path(src.file.as_str(), 3), SpanStyle::DimmedItalic);
                        push_span(&mut h, owned(" --"), SpanStyle::Plain);
                        assert(span_views(h@) =~~= seq![
                            (seq!['-', '-', ' '], SpanStyle::Plain),
                            (short_path_spec(src.file@, 3), SpanStyle::DimmedItalic),
                            (seq![' ', '-', '-'], SpanStyle::Plain),
                        ]);
                        push_split(out, SplitLine::Header(h));
                        *file = Some(string_of(chars_of(src.file.as_str()).as_slice()));
                        *line = None;
                    }
                    let shows = match *line {
                        Some(l) => l != src.line,
                        None => true,
                    };
                    if shows {
                        part = source_part_exec(src.line, &sources[k].source_text, c, self.source_width);
                        *line = Some(src.line);
                    }
                },
                None => {},
            }
            let instr = match asm_line(item, self.show_bytes, c, self.asm_width) {
                Some(a) => a,
                None => return false,
            };
            let ghost mid = split_views(out@);
            push_split(out, split_row_exec(part, self.source_width, instr));
            *color = c;
            proof {
                let tail = split_from(items@, sources@, sb, sw, aw, k + 1, opt_str(*file), *line, *color);
                assert(split_views(out@) + tail =~= before + (split_views(out@).subrange(before.len() as int, split_views(out@).len() as int) + tail));
            }
        } else {
            let instr = match asm_line(item, self.show_bytes, *color, self.asm_width) {
                Some(a) => a,
                None => return false,
            };
            push_split(out, split_row_exec(empty_spans(), self.source_width, instr));
            proof {
                let tail = split_from(items@, sources@, sb, sw, aw, k + 1, opt_str(*file), *line, *color);
                assert(split_views(out@) + tail =~= before + (seq![split_views(out@).last()] + tail));
            }
        }
        true
    }

    /// The lines of the listing (see `split_from`); `None` when an instruction line
    /// cannot be cut (see `asm_spans`).
    pub fn render_lines(&self, items: &[DisplayItem], sources: &[ItemSource]) -> (r: Option<Vec<SplitLine>>)
        requires
            items.len() == sources.len(),
        ensures
            match r {
                None => !all_asm_lines(items@, self.show_bytes, self.asm_width as int),
                Some(lines) => all_asm_lines(items@, self.show_bytes, self.asm_width as int)
                    && split_views(lines@) == split_from(
                        items@, sources@, self.show_bytes, self.source_width as int, self.asm_width as int, 0, None, None, Color::White,
                    ),
            },
    {
        let ghost whole = split_from(items@, sources@, self.show_bytes, self.source_width as int, self.asm_width as int, 0, None, None, Color::White);
        let mut out: Vec<SplitLine> = Vec::new();
        let mut file: Option<String> = None;
        let mut line: Option<usize> = None;
        let mut color = Color::White;
        let mut k: usize = 0;
        assert(split_views(out@) + whole =~= whole);
        while k < items.len()
            invariant
                k <= items.len(),
                items.len() == sources.len(),
                whole == split_from(items@, sources@, self.show_bytes, self.source_width as int, self.asm_width as int, 0, None, None, Color::White),
                split_views(out@) + split_from(
                    items@, sources@, self.show_bytes, self.source_width as int, self.asm_width as int, k as int, opt_str(file), line, color,
                ) == whole,
                forall|q: int| 0 <= q < k ==> (#[trigger] asm_spans(items@[q], self.show_bytes, items@[q].color, self.asm_width as int)) is Some,
            decreases items.len() - k,
        {
            if !self.split_step(items, sources, k, &mut out, &mut file, &mut line, &mut color) {
                return None;
            }
            k = k + 1;
        }
        assert(split_views(out@) + Seq::<SplitLineView>::empty() =~= split_views(out@));
        Some(out)
    }
}

} // verus!
