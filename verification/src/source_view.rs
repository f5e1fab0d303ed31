//! The source panel: which source lines to show, grouped by file, with context and gaps.
use vstd::prelude::*;
use crate::types::{Color, DisplayItem, SourceItem};
use crate::source_reader::SourceReader;
use crate::ranges::{context_ranges, compute_context_ranges, as_ints, lines_fit, strictly_increasing, lemma_context_ranges_gaps, lemma_context_ranges_fit};
use crate::order::{sorted_by, chars_order, int_order, lemma_chars_order_strict_total, lemma_int_order_strict_total, lemma_sorted_unique, insert_chars_sorted, insert_line_sorted};
use crate::paths::views;
use crate::text::{chars_of, chars_eq, copy_string, string_of};

verus! {

/// What a source panel item shows.
pub enum SourceItemView {
    FileHeader(Seq<char>),
    Line(int, Seq<char>, Option<Color>, bool),
    Gap,
}

impl View for SourceItem {
    type V = SourceItemView;

    open spec fn view(&self) -> SourceItemView {
        match self {
            SourceItem::FileHeader { path } => SourceItemView::FileHeader(path@),
            SourceItem::Line { number, text, color, is_main } => SourceItemView::Line(
                *number as int,
                text@,
                *color,
                *is_main,
            ),
            SourceItem::Gap => SourceItemView::Gap,
        }
    }
}

impl SourceItem {
    /// A copy of this item.
    pub fn duplicate(&self) -> (r: SourceItem)
        ensures
            r@ == self@,
    {
        match self {
            SourceItem::FileHeader { path } => SourceItem::FileHeader { path: copy_string(path) },
            SourceItem::Line { number, text, color, is_main } => SourceItem::Line {
                number: *number,
                text: copy_string(text),
                color: *color,
                is_main: *is_main,
            },
            SourceItem::Gap => SourceItem::Gap,
        }
    }
}

/// The views of a sequence of panel items.
pub open spec fn item_views(r: Seq<SourceItem>) -> Seq<SourceItemView> {
    r.map_values(|it: SourceItem| it@)
}

/// Item `i` maps to `line` of file `f`.
pub open spec fn maps_to(items: Seq<DisplayItem>, i: int, f: Seq<char>, line: int) -> bool {
    &&& items[i].source is Some
    &&& items[i].source->0.file@ == f
    &&& items[i].source->0.line == line
}

/// Some item maps to a line of file `f`.
pub open spec fn has_file(items: Seq<DisplayItem>, f: Seq<char>) -> bool {
    exists|i: int, l: int| 0 <= i < items.len() && #[trigger] maps_to(items, i, f, l)
}

/// Some item maps to `line` of `f`.
pub open spec fn is_mapped(items: Seq<DisplayItem>, f: Seq<char>, line: int) -> bool {
    exists|i: int| 0 <= i < items.len() && #[trigger] maps_to(items, i, f, line)
}

/// The files that items map to, in ascending order, each once.
pub open spec fn files_in_order(items: Seq<DisplayItem>) -> Seq<Seq<char>> {
    choose|fs: Seq<Seq<char>>|
        sorted_by(fs, chars_order()) && forall|f: Seq<char>| #[trigger] fs.contains(f) <==> has_file(items, f)
}

/// The lines of `f` that items map to, in ascending order, each once.
pub open spec fn lines_in_order(items: Seq<DisplayItem>, f: Seq<char>) -> Seq<int> {
    choose|ls: Seq<int>|
        sorted_by(ls, int_order()) && forall|l: int| #[trigger] ls.contains(l) <==> is_mapped(items, f, l)
}

/// `i` is the first item that maps to `line` of `f`.
pub open spec fn first_mapping(items: Seq<DisplayItem>, f: Seq<char>, line: int, i: int) -> bool {
    &&& 0 <= i < items.len()
    &&& maps_to(items, i, f, line)
    &&& forall|j: int| 0 <= j < i ==> !#[trigger] maps_to(items, j, f, line)
}

/// The color of the first item that maps to `line` of `f`.
pub open spec fn line_color(items: Seq<DisplayItem>, f: Seq<char>, line: int) -> Color {
    items[choose|i: int| first_mapping(items, f, line, i)].color
}

/// The panel line for `line` of `f`.
pub open spec fn line_view(items: Seq<DisplayItem>, reader: SourceReader, f: Seq<char>, line: int) -> SourceItemView {
    let main = is_mapped(items, f, line);
    SourceItemView::Line(
        line,
        reader.line_text(f, line),
        if main {
            Some(line_color(items, f, line))
        } else {
            None
        },
        main,
    )
}

/// The panel lines `a..=b` of `f`.
pub open spec fn range_lines(items: Seq<DisplayItem>, reader: SourceReader, f: Seq<char>, a: int, b: int) -> Seq<SourceItemView> {
    if b < a {
        seq![]
    } else {
        Seq::new((b - a + 1) as nat, |k: int| line_view(items, reader, f, a + k))
    }
}

/// The panel lines of the ranges `rs` of `f`, with a gap marker between ranges.
pub open spec fn ranges_view(items: Seq<DisplayItem>, reader: SourceReader, f: Seq<char>, rs: Seq<(int, int)>) -> Seq<SourceItemView>
    decreases rs.len(),
{
    if rs.len() == 0 {
        seq![]
    } else {
        ranges_view(items, reader, f, rs.drop_last()) + (if rs.len() > 1 {
            seq![SourceItemView::Gap]
        } else {
            seq![]
        }) + range_lines(items, reader, f, rs.last().0, rs.last().1)
    }
}

/// The panel block of file `f`: its header, then its context ranges.
pub open spec fn file_block(items: Seq<DisplayItem>, reader: SourceReader, f: Seq<char>, pre: int, inter: int) -> Seq<SourceItemView> {
    seq![SourceItemView::FileHeader(f)] + ranges_view(items, reader, f, context_ranges(lines_in_order(items, f), pre, inter))
}

/// The blocks of the files `fs`, in order.
pub open spec fn blocks(items: Seq<DisplayItem>, reader: SourceReader, fs: Seq<Seq<char>>, pre: int, inter: int) -> Seq<SourceItemView>
    decreases fs.len(),
{
    if fs.len() == 0 {
        seq![]
    } else {
        blocks(items, reader, fs.drop_last(), pre, inter) + file_block(items, reader, fs.last(), pre, inter)
    }
}

/// The whole source panel.
pub open spec fn source_view_spec(items: Seq<DisplayItem>, reader: SourceReader, pre: int, inter: int) -> Seq<SourceItemView> {
    blocks(items, reader, files_in_order(items), pre, inter)
}

/// Every mapped line, with either amount of context, fits in `usize` with room to spare.
pub open spec fn items_fit(items: Seq<DisplayItem>, pre: int, inter: int) -> bool {
    forall|i: int|
        0 <= i < items.len() && (#[trigger] items[i]).source is Some ==> items[i].source->0.line + pre + 1
            <= usize::MAX && items[i].source->0.line + inter + 1 <= usize::MAX
}

/// Whether every mapped line, with either amount of context, fits (see `items_fit`).
pub fn context_fits(display_items: &[DisplayItem], pre_post_context: usize, inter_context: usize) -> (r: bool)
    ensures
        r == items_fit(display_items@, pre_post_context as int, inter_context as int),
{
    let mut i: usize = 0;
    while i < display_items.len()
        invariant
            i <= display_items.len(),
            forall|k: int|
                0 <= k < i && (#[trigger] display_items@[k]).source is Some ==> display_items@[k].source->0.line
                    + pre_post_context + 1 <= usize::MAX && display_items@[k].source->0.line + inter_context + 1
                    <= usize::MAX,
        decreases display_items.len() - i,
    {
        match &display_items[i].source {
            Some(src) => {
                if src.line >= usize::MAX - pre_post_context || src.line >= usize::MAX - inter_context {
                    return false;
                }
            },
            None => {},
        }
        i = i + 1;
    }
    true
}

/// The sorted distinct files of the items.
fn collect_files(display_items: &[DisplayItem]) -> (r: Vec<Vec<char>>)
    ensures
        views(r@) == files_in_order(display_items@),
        sorted_by(views(r@), chars_order()),
        forall|f: Seq<char>| #[trigger] views(r@).contains(f) <==> has_file(display_items@, f),
{
    let ghost items = display_items@;
    let mut files: Vec<Vec<char>> = Vec::new();
    let mut i: usize = 0;
    while i < display_items.len()
        invariant
            items == display_items@,
            i <= items.len(),
            sorted_by(views(files@), chars_order()),
            forall|f: Seq<char>| #[trigger] views(files@).contains(f) <==> exists|j: int, l: int|
                0 <= j < i && #[trigger] maps_to(items, j, f, l),
        decreases items.len() - i,
    {
        match &display_items[i].source {
            Some(src) => {
                let fv = chars_of(src.file.as_str());
                insert_chars_sorted(&mut files, fv.as_slice());
                assert forall|f: Seq<char>| #[trigger] views(files@).contains(f) <==> exists|j: int, l: int|
                    0 <= j < i + 1 && #[trigger] maps_to(items, j, f, l) by {
                    if f == fv@ {
                        assert(maps_to(items, i as int, f, src.line as int));
                    }
                    if exists|j: int, l: int| 0 <= j < i + 1 && #[trigger] maps_to(items, j, f, l) {
                        let (j, l) = choose|j: int, l: int| 0 <= j < i + 1 && #[trigger] maps_to(items, j, f, l);
                        if j < i {
                            assert(exists|j: int, l: int| 0 <= j < i && #[trigger] maps_to(items, j, f, l));
                        }
                    }
                }
            },
            None => {
                assert forall|f: Seq<char>| #[trigger] views(files@).contains(f) <==> exists|j: int, l: int|
                    0 <= j < i + 1 && #[trigger] maps_to(items, j, f, l) by {
                    if exists|j: int, l: int| 0 <= j < i + 1 && #[trigger] maps_to(items, j, f, l) {
                        let (j, l) = choose|j: int, l: int| 0 <= j < i + 1 && #[trigger] maps_to(items, j, f, l);
                        assert(j < i);
                        assert(exists|j: int, l: int| 0 <= j < i && #[trigger] maps_to(items, j, f, l));
                    }
                }
            },
        }
        i = i + 1;
    }
    proof {
        let fs = views(files@);
        assert forall|f: Seq<char>| #[trigger] fs.contains(f) <==> has_file(items, f) by {}
        lemma_chars_order_strict_total();
        let chosen = files_in_order(items);
        lemma_sorted_unique(fs, chosen, chars_order());
    }
    files
}

/// The sorted distinct lines that items map to in file `f`.
fn collect_lines(display_items: &[DisplayItem], f: &[char]) -> (r: Vec<usize>)
    ensures
        as_ints(r@) == lines_in_order(display_items@, f@),
        sorted_by(as_ints(r@), int_order()),
        forall|l: int| #[trigger] as_ints(r@).contains(l) <==> is_mapped(display_items@, f@, l),
{
    let ghost items = display_items@;
    let mut lines: Vec<usize> = Vec::new();
    let mut i: usize = 0;
    while i < display_items.len()
        invariant
            items == display_items@,
            i <= items.len(),
            sorted_by(as_ints(lines@), int_order()),
            forall|l: int| #[trigger] as_ints(lines@).contains(l) <==> exists|j: int|
                0 <= j < i && #[trigger] maps_to(items, j, f@, l),
        decreases items.len() - i,
    {
        let mut hit = false;
        match &display_items[i].source {
            Some(src) => {
                let fv = chars_of(src.file.as_str());
                if chars_eq(fv.as_slice(), f) {
                    insert_line_sorted(&mut lines, src.line);
                    hit = true;
                    assert(maps_to(items, i as int, f@, src.line as int));
                }
            },
            None => {},
        }
        assert forall|l: int| #[trigger] as_ints(lines@).contains(l) <==> exists|j: int|
            0 <= j < i + 1 && #[trigger] maps_to(items, j, f@, l) by {
            if exists|j: int| 0 <= j < i + 1 && #[trigger] maps_to(items, j, f@, l) {
                let j = choose|j: int| 0 <= j < i + 1 && #[trigger] maps_to(items, j, f@, l);
                if j < i {
                    assert(exists|j: int| 0 <= j < i && #[trigger] maps_to(items, j, f@, l));
                }
            }
        }
        i = i + 1;
    }
    proof {
        let ls = as_ints(lines@);
        assert forall|l: int| #[trigger] ls.contains(l) <==> is_mapped(items, f@, l) by {}
        lemma_int_order_strict_total();
        let chosen = lines_in_order(items, f@);
        lemma_sorted_unique(ls, chosen, int_order());
    }
    lines
}

/// The color of the first item that maps to `line` of `f`, when one does.
fn first_color(display_items: &[DisplayItem], f: &[char], line: usize) -> (r: Option<Color>)
    ensures
        match r {
            Some(c) => is_mapped(display_items@, f@, line as int) && c == line_color(display_items@, f@, line as int),
            None => !is_mapped(display_items@, f@, line as int),
        },
{
    let ghost items = display_items@;
    let mut i: usize = 0;
    while i < display_items.len()
        invariant
            items == display_items@,
            i <= items.len(),
            forall|j: int| 0 <= j < i ==> !#[trigger] maps_to(items, j, f@, line as int),
        decreases items.len() - i,
    {
        match &display_items[i].source {
            Some(src) => {
                if src.line == line {
                    let fv = chars_of(src.file.as_str());
                    if chars_eq(fv.as_slice(), f) {
                        proof {
                            assert(maps_to(items, i as int, f@, line as int));
                            assert(first_mapping(items, f@, line as int, i as int));
                            let c = choose|k: int| first_mapping(items, f@, line as int, k);
                            assert(c == i) by {
                                if c < i {
                                } else if c > i {
                                    assert(!maps_to(items, i as int, f@, line as int));
                                }
                            }
                        }
                        return Some(display_items[i].color);
                    }
                }
            },
            None => {},
        }
        i = i + 1;
    }
    None
}

/// Whether `x` is one of `lines`.
fn contains_line(lines: &Vec<usize>, x: usize) -> (r: bool)
    ensures
        r == as_ints(lines@).contains(x as int),
{
    let mut i: usize = 0;
    while i < lines.len()
        invariant
            i <= lines.len(),
            forall|j: int| 0 <= j < i ==> lines[j] != x,
        decreases lines.len() - i,
    {
        if lines[i] == x {
            assert(as_ints(lines@)[i as int] == x);
            return true;
        }
        i = i + 1;
    }
    false
}

/// Builds the source-ordered list of items to display in the source panel.
///
/// For each source file referenced by `display_items` (in ascending order) this emits a
/// `FileHeader`, then the lines of its context ranges (see `context_ranges`), with a `Gap`
/// between ranges. Lines that instructions map to are marked main and carry the color of
/// the first such instruction.
pub fn build_source_view(
    display_items: &[DisplayItem],
    source_reader: &SourceReader,
    pre_post_context: usize,
    inter_context: usize,
) -> (r: Vec<SourceItem>)
    requires
        items_fit(display_items@, pre_post_context as int, inter_context as int),
    ensures
        item_views(r@) == source_view_spec(display_items@, *source_reader, pre_post_context as int, inter_context as int),
{
    let ghost items = display_items@;
    let ghost pre = pre_post_context as int;
    let ghost inter = inter_context as int;
    let files = collect_files(display_items);
    let ghost fs = views(files@);
    let mut result: Vec<SourceItem> = Vec::new();
    let mut fi: usize = 0;
    assert(fs.take(0) =~= Seq::<Seq<char>>::empty());
    while fi < files.len()
        invariant
            items == display_items@,
            pre == pre_post_context as int,
            inter == inter_context as int,
            items_fit(items, pre, inter),
            fs == views(files@),
            fs == files_in_order(items),
            fi <= files.len(),
            item_views(result@) == blocks(items, *source_reader, fs.take(fi as int), pre, inter),
        decreases files.len() - fi,
    {
        let f = &files[fi];
        assert(f@ == fs[fi as int]);
        let ghost before = item_views(result@);
        let path = string_of(f.as_slice());
        result.push(SourceItem::FileHeader { path: string_of(f.as_slice()) });
        let lines = collect_lines(display_items, f.as_slice());
        let ghost ls = as_ints(lines@);
        assert(strictly_increasing(ls)) by {
            assert forall|i: int, j: int| 0 <= i < j < ls.len() implies ls[i] < ls[j] by {
                assert(int_order()(ls[i], ls[j]));
            }
        }
        assert(lines_fit(ls, pre, inter)) by {
            assert forall|i: int| 0 <= i < ls.len() implies #[trigger] ls[i] + pre + 1 <= usize::MAX
                && ls[i] + inter + 1 <= usize::MAX by {
                assert(ls.contains(ls[i]));
                let j = choose|j: int| 0 <= j < items.len() && #[trigger] maps_to(items, j, f@, ls[i]);
                assert(items[j].source is Some);
            }
        }
        let ranges = compute_context_ranges(lines.as_slice(), pre_post_context, inter_context);
        let ghost rs = context_ranges(ls, pre, inter);
        proof {
            lemma_context_ranges_gaps(ls, pre, inter);
            lemma_context_ranges_fit(ls, pre, inter);
        }
        let ghost head = before + seq![SourceItemView::FileHeader(f@)];
        assert(item_views(result@) =~= head);
        let mut q: usize = 0;
        let mut last_end: Option<usize> = None;
        assert(rs.take(0) =~= Seq::<(int, int)>::empty());
        while q < ranges.len()
            invariant
                items == display_items@,
                f@ == fs[fi as int],
                ls == as_ints(lines@),
                ls == lines_in_order(items, f@),
                rs == context_ranges(ls, pre, inter),
                ranges.len() == rs.len(),
                forall|k: int| 0 <= k < ranges.len() ==> (#[trigger] ranges[k]).0 == rs[k].0 && ranges[k].1 == rs[k].1,
                forall|k: int| 0 <= k < rs.len() - 1 ==> #[trigger] rs[k].1 + 1 < rs[k + 1].0,
                lines_fit(ls, pre, inter),
                forall|k: int| 0 <= k < rs.len() ==> #[trigger] rs[k].1 + 1 <= usize::MAX,
                forall|l: int| #[trigger] ls.contains(l) <==> is_mapped(items, f@, l),
                path@ == f@,
                q <= ranges.len(),
                q == 0 ==> last_end is None,
                q > 0 ==> last_end == Some(ranges[q - 1].1),
                item_views(result@) == head + ranges_view(items, *source_reader, f@, rs.take(q as int)),
            decreases ranges.len() - q,
        {
            let (start, end) = ranges[q];
            assert(rs.take(q as int + 1).drop_last() =~= rs.take(q as int));
            assert(rs.take(q as int + 1).last() == rs[q as int]);
            match last_end {
                Some(prev_end) => {
                    assert(rs[q - 1].1 + 1 < rs[q as int].0);
                    if start > prev_end + 1 {
                        result.push(SourceItem::Gap);
                    }
                },
                None => {},
            }
            let ghost base = item_views(result@);
            assert(base == head + ranges_view(items, *source_reader, f@, rs.take(q as int)) + (if q > 0 {
                seq![SourceItemView::Gap]
            } else {
                seq![]
            })) by {
                if q > 0 {
                    assert(base =~= item_views(result@.drop_last()).push(SourceItemView::Gap));
                }
            }
            assert(end + 1 <= usize::MAX) by {
                assert(rs[q as int].1 + 1 <= usize::MAX);
            }
            let mut line_num = start;
            while line_num <= end
                invariant
                    items == display_items@,
                    ls == as_ints(lines@),
                    ls == lines_in_order(items, f@),
                    path@ == f@,
                    start <= line_num,
                    start <= end ==> line_num <= end + 1,
                    start > end ==> line_num == start,
                    forall|l: int| #[trigger] ls.contains(l) <==> is_mapped(items, f@, l),
                    end + 1 <= usize::MAX,
                    item_views(result@) == base + range_lines(items, *source_reader, f@, start as int, line_num as int - 1),
                decreases end + 1 - line_num,
            {
                let text = source_reader.line_or_empty(path.as_str(), line_num);
                let is_main = contains_line(&lines, line_num);
                let color = first_color(display_items, f.as_slice(), line_num);
                proof {
                    assert(is_main == is_mapped(items, f@, line_num as int)) by {
                        assert(ls.contains(line_num as int) <==> is_mapped(items, f@, line_num as int));
                    }
                }
                let ghost b0 = item_views(result@);
                result.push(SourceItem::Line {
                    number: line_num,
                    text,
                    color: if is_main {
                        color
                    } else {
                        None
                    },
                    is_main,
                });
                assert(item_views(result@) =~= b0.push(line_view(items, *source_reader, f@, line_num as int)));
                proof {
                    let lv = line_view(items, *source_reader, f@, line_num as int);
                    let a = range_lines(items, *source_reader, f@, start as int, line_num as int);
                    let b = range_lines(items, *source_reader, f@, start as int, line_num as int - 1);
                    if line_num == start {
                        assert(b =~= Seq::<SourceItemView>::empty());
                        assert(a.len() == 1);
                        assert(a[0] == lv);
                        assert(a =~= b.push(lv));
                    } else {
                        assert(a.len() == b.len() + 1);
                        assert forall|k: int| 0 <= k < a.len() implies a[k] == b.push(lv)[k] by {}
                        assert(a =~= b.push(lv));
                    }
                }
                line_num = line_num + 1;
            }
            assert(range_lines(items, *source_reader, f@, start as int, line_num as int - 1) == range_lines(items, *source_reader, f@, start as int, end as int));
            assert(rs[q as int] == (start as int, end as int));
            last_end = Some(end);
            q = q + 1;
        }
        assert(rs.take(ranges.len() as int) == rs);
        assert(fs.take(fi as int + 1).drop_last() =~= fs.take(fi as int));
        assert(fs.take(fi as int + 1).last() == f@);
        fi = fi + 1;
    }
    assert(fs.take(files.len() as int) == fs);
    result
}

} // verus!
