//! What the interactive viewer shows: the assembly rows, the source panel with its file
//! headers, and the view state that keys change.
use vstd::prelude::*;
use crate::annotate::AnnotationData;
use crate::cli::Cli;
use crate::error::AnnotateError;
use crate::paths::{short_path_by_width, short_path_by_width_spec};
use crate::source_view::{SourceItemView, build_source_view, item_views, items_fit, source_view_spec};
use crate::text::{string_push, chars_of, copy_string, format_hex, owned, pad_right, pad_to, push_chars, push_str, radix_digits, string_of};
use crate::tui_state::{KeyInput, KeyOutcome, ViewState, context_spec, initial_view, key_step, parse_context};
use crate::types::{Color, DisplayItem, SourceItem};

verus! {

/// A row of the assembly pane: the address column, the instruction bytes column (empty
/// when there are no bytes), the instruction text and its color.
pub struct AsmRow {
    pub address: String,
    pub bytes: String,
    pub mnemonic: String,
    pub color: Color,
}

/// `s` padded on the left with zeros to `width` characters.
pub open spec fn zero_pad(s: Seq<char>, width: int) -> Seq<char> {
    if s.len() >= width {
        s
    } else {
        Seq::new((width - s.len()) as nat, |i: int| '0') + s
    }
}

/// The columns of the assembly row of `item`: `    ADDRESS  ` with the address in at least
/// 8 hexadecimal digits; the bytes padded to 16 and followed by two spaces, or nothing;
/// the instruction text; the item's color.
pub open spec fn asm_row_spec(item: DisplayItem) -> (Seq<char>, Seq<char>, Seq<char>, Color) {
    (
        seq![' ', ' ', ' ', ' '] + zero_pad(radix_digits(item.instruction.address as nat, 16), 8) + seq![' ', ' '],
        if item.instruction.bytes@.len() == 0 {
            seq![]
        } else {
            pad_right(item.instruction.bytes@, 16) + seq![' ', ' ']
        },
        item.instruction.mnemonic@,
        item.color,
    )
}

/// The view of an assembly row.
pub open spec fn asm_row_view(r: AsmRow) -> (Seq<char>, Seq<char>, Seq<char>, Color) {
    (r.address@, r.bytes@, r.mnemonic@, r.color)
}

/// The views of assembly rows.
pub open spec fn asm_row_views(rows: Seq<AsmRow>) -> Seq<(Seq<char>, Seq<char>, Seq<char>, Color)> {
    rows.map_values(|r: AsmRow| asm_row_view(r))
}

/// The assembly rows of `items`.
pub open spec fn asm_rows_spec(items: Seq<DisplayItem>) -> Seq<(Seq<char>, Seq<char>, Seq<char>, Color)> {
    items.map_values(|i: DisplayItem| asm_row_spec(i))
}

fn asm_row(item: &DisplayItem) -> (r: AsmRow)
    ensures
        asm_row_view(r) == asm_row_spec(*item),
{
    let digits = chars_of(format_hex(item.instruction.address).as_str());
    let mut address = owned("    ");
    proof {
        reveal_strlit("    ");
        reveal_strlit("  ");
        reveal_strlit("0");
        reveal_strlit("");
        assert(address@ =~= seq![' ', ' ', ' ', ' '] + Seq::new(0, |i: int| '0'));
    }
    let mut k = digits.len();
    while k < 8
        invariant
            digits.len() <= k,
            k <= 8 || k == digits.len(),
            address@ == seq![' ', ' ', ' ', ' '] + Seq::new((k - digits.len()) as nat, |i: int| '0'),
        decreases 8 - k,
    {
        string_push(&mut address, '0');
        assert(address@ =~= seq![' ', ' ', ' ', ' '] + Seq::new((k + 1 - digits.len()) as nat, |i: int| '0'));
        k = k + 1;
    }
    let ghost pre = address@;
    push_chars(&mut address, digits.as_slice());
    push_str(&mut address, "  ");
    assert(address@ =~= seq![' ', ' ', ' ', ' '] + zero_pad(radix_digits(item.instruction.address as nat, 16), 8) + seq![' ', ' ']) by {
        if digits.len() >= 8 {
            assert(pre =~= seq![' ', ' ', ' ', ' ']);
        }
    }
    let bytes = if item.instruction.bytes.as_str().unicode_len() == 0 {
        owned("")
    } else {
        let mut b = copy_string(&item.instruction.bytes);
        pad_to(&mut b, 16);
        push_str(&mut b, "  ");
        b
    };
    proof {
        reveal_strlit("");
    }
    AsmRow { address, bytes, mnemonic: copy_string(&item.instruction.mnemonic), color: item.color }
}

/// A source panel split into its content lines and its file headers; a header is
/// (index in the content lines where it goes, path).
pub open spec fn split_panel(items: Seq<SourceItemView>) -> (Seq<SourceItemView>, Seq<(int, Seq<char>)>)
    decreases items.len(),
{
    if items.len() == 0 {
        (seq![], seq![])
    } else {
        let (l, h) = split_panel(items.drop_last());
        match items.last() {
            SourceItemView::FileHeader(p) => (l, h.push((l.len() as int, p))),
            _ => (l.push(items.last()), h),
        }
    }
}

/// The first `k` headers with the content lines before each.
pub open spec fn merge_upto(lines: Seq<SourceItemView>, hs: Seq<(int, Seq<char>)>, k: int) -> Seq<SourceItemView>
    decreases k,
{
    if k <= 0 {
        seq![]
    } else {
        let from = if k == 1 {
            0
        } else {
            hs[k - 2].0
        };
        merge_upto(lines, hs, k - 1) + lines.subrange(from, hs[k - 1].0) + seq![SourceItemView::FileHeader(hs[k - 1].1)]
    }
}

/// The content lines with the headers put back where they go.
pub open spec fn merge_panel(lines: Seq<SourceItemView>, hs: Seq<(int, Seq<char>)>) -> Seq<SourceItemView> {
    let from = if hs.len() == 0 {
        0
    } else {
        hs.last().0
    };
    merge_upto(lines, hs, hs.len() as int) + lines.skip(from)
}

/// Header positions never decrease and lie within the `n` content lines.
pub open spec fn headers_ok(hs: Seq<(int, Seq<char>)>, n: int) -> bool {
    &&& forall|i: int| 0 <= i < hs.len() ==> 0 <= #[trigger] hs[i].0 <= n
    &&& forall|i: int, j: int| 0 <= i < j < hs.len() ==> #[trigger] hs[i].0 <= #[trigger] hs[j].0
}

proof fn lemma_merge_upto_push(lines: Seq<SourceItemView>, x: SourceItemView, hs: Seq<(int, Seq<char>)>, k: int)
    requires
        0 <= k <= hs.len(),
        headers_ok(hs, lines.len() as int),
    ensures
        merge_upto(lines.push(x), hs, k) == merge_upto(lines, hs, k),
    decreases k,
{
    if k > 0 {
        lemma_merge_upto_push(lines, x, hs, k - 1);
        let from = if k == 1 {
            0
        } else {
            hs[k - 2].0
        };
        if k > 1 {
            assert(hs[k - 2].0 <= hs[k - 1].0);
        }
        assert(lines.push(x).subrange(from, hs[k - 1].0) =~= lines.subrange(from, hs[k - 1].0));
    }
}

/// Splitting a source panel and putting its headers back gives the panel again, and the
/// header positions are in order within the content lines.
pub proof fn lemma_split_merge(items: Seq<SourceItemView>)
    ensures
        headers_ok(split_panel(items).1, split_panel(items).0.len() as int),
        merge_panel(split_panel(items).0, split_panel(items).1) == items,
    decreases items.len(),
{
    if items.len() > 0 {
        lemma_split_merge(items.drop_last());
        let (l, h) = split_panel(items.drop_last());
        let n = h.len() as int;
        let from = if n == 0 {
            0
        } else {
            h.last().0
        };
        match items.last() {
            SourceItemView::FileHeader(p) => {
                let h2 = h.push((l.len() as int, p));
                assert(h2.drop_last() =~= h);
                assert(merge_upto(l, h2, n) == merge_upto(l, h, n)) by {
                    lemma_merge_upto_prefix(l, h, h2, n);
                }
                assert(l.skip(from) =~= l.subrange(from, l.len() as int));
                assert(l.skip(l.len() as int) =~= Seq::<SourceItemView>::empty());
                assert(merge_panel(l, h2) =~= merge_panel(l, h) + seq![SourceItemView::FileHeader(p)]);
                assert(items =~= items.drop_last() + seq![items.last()]);
            },
            _ => {
                let l2 = l.push(items.last());
                lemma_merge_upto_push(l, items.last(), h, n);
                assert(l2.skip(from) =~= l.skip(from).push(items.last()));
                assert(items =~= items.drop_last().push(items.last()));
            },
        }
    }
}

proof fn lemma_merge_upto_prefix(lines: Seq<SourceItemView>, h: Seq<(int, Seq<char>)>, h2: Seq<(int, Seq<char>)>, k: int)
    requires
        0 <= k <= h.len(),
        h.len() <= h2.len(),
        forall|i: int| 0 <= i < h.len() ==> #[trigger] h2[i] == h[i],
    ensures
        merge_upto(lines, h2, k) == merge_upto(lines, h, k),
    decreases k,
{
    if k > 0 {
        lemma_merge_upto_prefix(lines, h, h2, k - 1);
        if k > 1 {
            assert(h2[k - 2] == h[k - 2]);
        }
        assert(h2[k - 1] == h[k - 1]);
    }
}

/// No item of `lines` is a file header.
pub open spec fn no_headers(lines: Seq<SourceItemView>) -> bool {
    forall|i: int| 0 <= i < lines.len() ==> !(#[trigger] lines[i] is FileHeader)
}

proof fn lemma_split_no_headers(items: Seq<SourceItemView>)
    ensures
        no_headers(split_panel(items).0),
    decreases items.len(),
{
    if items.len() > 0 {
        lemma_split_no_headers(items.drop_last());
        let (l, h) = split_panel(items.drop_last());
        match items.last() {
            SourceItemView::FileHeader(p) => {},
            _ => {
                assert forall|i: int| 0 <= i < l.len() + 1 implies !(#[trigger] l.push(items.last())[i] is FileHeader) by {
                    if i < l.len() {
                        assert(l.push(items.last())[i] == l[i]);
                    }
                }
            },
        }
    }
}

/// The views of header entries.
pub open spec fn header_views(hs: Seq<(usize, String)>) -> Seq<(int, Seq<char>)> {
    hs.map_values(|h: (usize, String)| (h.0 as int, h.1@))
}

/// A row of the source pane as shown: a file header line, or a panel item.
pub enum PanelRow {
    Header(String),
    Content(SourceItem),
}

/// What a pane row shows.
pub enum PanelRowView {
    Header(Seq<char>),
    Content(SourceItemView),
}

/// The view of a pane row.
pub open spec fn panel_row_view(r: PanelRow) -> PanelRowView {
    match r {
        PanelRow::Header(t) => PanelRowView::Header(t@),
        PanelRow::Content(i) => PanelRowView::Content(i@),
    }
}

/// The header line of a file: `-- PATH --`, the path shortened to `budget` characters.
pub open spec fn header_text(path: Seq<char>, budget: int) -> Seq<char> {
    seq!['-', '-', ' '] + short_path_by_width_spec(path, budget) + seq![' ', '-', '-']
}

/// How a panel item is shown with a path budget of `budget`.
pub open spec fn shown_row(v: SourceItemView, budget: int) -> PanelRowView {
    match v {
        SourceItemView::FileHeader(p) => PanelRowView::Header(header_text(p, budget)),
        _ => PanelRowView::Content(v),
    }
}

/// The path budget of a source pane `width` columns wide: the borders and the dashes
/// around the path take 8.
pub open spec fn path_budget(width: u16) -> int {
    if width < 8 {
        0
    } else {
        width - 8
    }
}

/// The state of the interactive viewer.
pub struct AppState {
    cli_args: Cli,
    func_name: String,
    source_lines: Vec<SourceItem>,
    source_file_headers: Vec<(usize, String)>,
    asm_lines: Vec<AsmRow>,
    view: ViewState,
    display_name: String,
    pre_post_context: usize,
    inter_context: usize,
}

/// `new` is `old` updated with `data`: the view state, options, function and context
/// amounts kept, the name, source panel and instruction rows taken from `data`.
pub open spec fn updated_with(new: AppState, old: AppState, data: AnnotationData) -> bool {
    &&& new.contexts() == old.contexts()
    &&& new.view_state() == old.view_state()
    &&& new.options() == old.options()
    &&& new.function() == old.function()
    &&& new.name() == data.display_name@
    &&& new.panel() == source_view_spec(data.display_items@, data.source_reader, old.contexts().0 as int, old.contexts().1 as int)
    &&& new.asm_rows() == asm_rows_spec(data.display_items@)
    &&& new.source_len() == split_panel(new.panel()).0.len()
}

/// Nothing of what was shown before an update remains: two states with the same context
/// amounts, updated with the same data, show the same name, source panel and instruction
/// rows, whatever each showed before.
pub proof fn lemma_update_forgets_old(a_old: AppState, a_new: AppState, b_old: AppState, b_new: AppState, data: AnnotationData)
    requires
        updated_with(a_new, a_old, data),
        updated_with(b_new, b_old, data),
        a_old.contexts() == b_old.contexts(),
    ensures
        a_new.name() == b_new.name(),
        a_new.panel() == b_new.panel(),
        a_new.asm_rows() == b_new.asm_rows(),
        a_new.source_len() == b_new.source_len(),
{
}

impl AppState {
    #[verifier::type_invariant]
    spec fn well_formed(self) -> bool {
        &&& headers_ok(header_views(self.source_file_headers@), self.source_lines@.len() as int)
        &&& no_headers(item_views(self.source_lines@))
    }

    /// The source panel: the content lines with the file headers put back.
    pub closed spec fn panel(&self) -> Seq<SourceItemView> {
        merge_panel(item_views(self.source_lines@), header_views(self.source_file_headers@))
    }

    /// The number of content lines of the source pane (headers are not counted).
    pub closed spec fn source_len(&self) -> nat {
        self.source_lines@.len()
    }

    /// The assembly rows.
    pub closed spec fn asm_rows(&self) -> Seq<(Seq<char>, Seq<char>, Seq<char>, Color)> {
        asm_row_views(self.asm_lines@)
    }

    /// The view state.
    pub closed spec fn view_state(&self) -> ViewState {
        self.view
    }

    /// The amounts of context: around blocks and between lines.
    pub closed spec fn contexts(&self) -> (usize, usize) {
        (self.pre_post_context, self.inter_context)
    }

    /// The title name.
    pub closed spec fn name(&self) -> Seq<char> {
        self.display_name@
    }

    /// The options the viewer was started with.
    pub closed spec fn options(&self) -> Cli {
        self.cli_args
    }

    /// The symbol name of the annotated function.
    pub closed spec fn function(&self) -> Seq<char> {
        self.func_name@
    }

    /// Starts the viewer on `data`: the context option must parse (see `parse_context`);
    /// the view starts in its initial state.
    pub fn new(cli_args: &Cli, func_name: &str, data: AnnotationData) -> (r: Result<AppState, AnnotateError>)
        requires
            context_spec(cli_args.context@) matches Some(c) ==> items_fit(data.display_items@, c.0 as int, c.1 as int),
        ensures
            context_spec(cli_args.context@) is None <==> r is Err,
            r matches Ok(st) ==> {
                &&& Some(st.contexts()) == context_spec(cli_args.context@)
                &&& st.view_state() == initial_view()
                &&& st.name() == data.display_name@
                &&& st.function() == func_name@
                &&& st.options().context@ == cli_args.context@
                &&& st.options().elf@ == cli_args.elf@
                &&& st.options().remap@ == cli_args.remap@
                &&& st.options().no_demangle == cli_args.no_demangle
                &&& st.options().no_dwarf == cli_args.no_dwarf
                &&& st.panel() == source_view_spec(data.display_items@, data.source_reader, st.contexts().0 as int, st.contexts().1 as int)
                &&& st.asm_rows() == asm_rows_spec(data.display_items@)
                &&& st.source_len() == split_panel(st.panel()).0.len()
            },
    {
        let (pre_post_context, inter_context) = parse_context(cli_args.context.as_str())?;
        let mut state = AppState {
            cli_args: cli_args.duplicate(),
            func_name: owned(func_name),
            source_lines: Vec::new(),
            source_file_headers: Vec::new(),
            asm_lines: Vec::new(),
            view: ViewState::initial(),
            display_name: owned(""),
            pre_post_context,
            inter_context,
        };
        state.update_data(data);
        Ok(state)
    }

    /// Replaces what is shown with `data`, keeping the view state and the options.
    pub fn update_data(&mut self, data: AnnotationData)
        requires
            items_fit(data.display_items@, old(self).contexts().0 as int, old(self).contexts().1 as int),
        ensures
            updated_with(*final(self), *old(self), data),
            final(self).contexts() == old(self).contexts(),
            final(self).view_state() == old(self).view_state(),
            final(self).options() == old(self).options(),
            final(self).function() == old(self).function(),
            final(self).name() == data.display_name@,
            final(self).panel() == source_view_spec(data.display_items@, data.source_reader, old(self).contexts().0 as int, old(self).contexts().1 as int),
            final(self).asm_rows() == asm_rows_spec(data.display_items@),
            final(self).source_len() == split_panel(final(self).panel()).0.len(),
    {
        proof {
            use_type_invariant(&*self);
        }
        let items = &data.display_items;
        let mut asm_lines: Vec<AsmRow> = Vec::new();
        let mut i: usize = 0;
        while i < items.len()
            invariant
                i <= items.len(),
                asm_row_views(asm_lines@) == asm_rows_spec(items@.take(i as int)),
            decreases items.len() - i,
        {
            let row = asm_row(&items[i]);
            let ghost a0 = asm_lines@;
            let ghost rv = asm_row_view(row);
            asm_lines.push(row);
            assert(asm_row_views(asm_lines@) =~= asm_row_views(a0).push(rv));
            assert(items@.take(i as int + 1) =~= items@.take(i as int).push(items[i as int]));
            assert(asm_rows_spec(items@.take(i as int + 1)) =~= asm_rows_spec(items@.take(i as int)).push(asm_row_spec(items[i as int])));
            i = i + 1;
        }
        assert(items@.take(items.len() as int) =~= items@);
        let panel = build_source_view(items.as_slice(), &data.source_reader, self.pre_post_context, self.inter_context);
        let ghost pv = item_views(panel@);
        let mut lines: Vec<SourceItem> = Vec::new();
        let mut headers: Vec<(usize, String)> = Vec::new();
        let mut k: usize = 0;
        assert(pv.take(0) =~= Seq::<SourceItemView>::empty());
        while k < panel.len()
            invariant
                k <= panel.len(),
                pv == item_views(panel@),
                (item_views(lines@), header_views(headers@)) == split_panel(pv.take(k as int)),
            decreases panel.len() - k,
        {
            assert(pv.take(k as int + 1).drop_last() =~= pv.take(k as int));
            assert(pv.take(k as int + 1).last() == panel[k as int]@);
            match &panel[k] {
                SourceItem::FileHeader { path } => {
                    let ghost h0 = headers@;
                    headers.push((lines.len(), copy_string(path)));
                    assert(header_views(headers@) =~= header_views(h0).push((lines@.len() as int, path@)));
                },
                _ => {
                    let ghost l0 = lines@;
                    lines.push(panel[k].duplicate());
                    assert(item_views(lines@) =~= item_views(l0).push(panel[k as int]@));
                },
            }
            k = k + 1;
        }
        assert(pv.take(panel.len() as int) =~= pv);
        proof {
            lemma_split_merge(pv);
            lemma_split_no_headers(pv);
        }
        self.source_file_headers = Vec::new();
        self.source_lines = lines;
        self.source_file_headers = headers;
        self.asm_lines = asm_lines;
        self.display_name = data.display_name;
    }

    /// Applies the outcome of reloading the annotation: new data replaces what is shown
    /// (see `update_data`); after a failure everything stays as it was, and the error is
    /// handed back.
    pub fn apply_reload(&mut self, reloaded: Result<AnnotationData, AnnotateError>) -> (r: Option<AnnotateError>)
        requires
            reloaded matches Ok(d) ==> items_fit(d.display_items@, old(self).contexts().0 as int, old(self).contexts().1 as int),
        ensures
            match reloaded {
                Err(e) => r == Some(e) && *final(self) == *old(self),
                Ok(d) => {
                    &&& r is None
                    &&& final(self).contexts() == old(self).contexts()
                    &&& final(self).view_state() == old(self).view_state()
                    &&& final(self).options() == old(self).options()
                    &&& final(self).function() == old(self).function()
                    &&& final(self).name() == d.display_name@
                    &&& final(self).panel() == source_view_spec(d.display_items@, d.source_reader, old(self).contexts().0 as int, old(self).contexts().1 as int)
                    &&& final(self).asm_rows() == asm_rows_spec(d.display_items@)
                    &&& final(self).source_len() == split_panel(final(self).panel()).0.len()
                },
            },
    {
        match reloaded {
            Ok(d) => {
                self.update_data(d);
                None
            },
            Err(e) => Some(e),
        }
    }

    /// Applies a key to the view state (see `key_step`).
    pub fn handle_key(&mut self, key: KeyInput) -> (r: KeyOutcome)
        ensures
            (final(self).view_state(), r) == key_step(old(self).view_state(), key, old(self).source_len(), old(self).asm_rows().len()),
            final(self).panel() == old(self).panel(),
            final(self).asm_rows() == old(self).asm_rows(),
            final(self).contexts() == old(self).contexts(),
            final(self).name() == old(self).name(),
            final(self).options() == old(self).options(),
            final(self).function() == old(self).function(),
    {
        proof {
            use_type_invariant(&*self);
        }
        let mut v = self.view;
        let r = v.handle_key(key, self.source_lines.len(), self.asm_lines.len());
        self.view = v;
        r
    }

    /// The view state.
    pub fn view(&self) -> (r: ViewState)
        ensures
            r == self.view_state(),
    {
        self.view
    }

    /// The name shown in the title.
    pub fn display_name(&self) -> (r: &str)
        ensures
            r@ == self.name(),
    {
        self.display_name.as_str()
    }

    /// The options the viewer was started with.
    pub fn cli_args(&self) -> (r: &Cli)
        ensures
            *r == self.options(),
    {
        &self.cli_args
    }

    /// The symbol name of the annotated function.
    pub fn func_name(&self) -> (r: &str)
        ensures
            r@ == self.function(),
    {
        self.func_name.as_str()
    }

    /// The amounts of context.
    pub fn context_amounts(&self) -> (r: (usize, usize))
        ensures
            r == self.contexts(),
    {
        (self.pre_post_context, self.inter_context)
    }

    /// The assembly rows.
    pub fn asm_lines(&self) -> (r: &[AsmRow])
        ensures
            asm_row_views(r@) == self.asm_rows(),
    {
        self.asm_lines.as_slice()
    }

    /// The rows of the source pane, `width` columns wide: the panel with each file header
    /// shown as `-- PATH --` (see `header_text`).
    pub fn source_rows(&self, width: u16) -> (r: Vec<PanelRow>)
        ensures
            r@.len() == self.panel().len(),
            forall|i: int| 0 <= i < r@.len() ==> panel_row_view(#[trigger] r@[i]) == shown_row(self.panel()[i], path_budget(width)),
    {
        proof {
            use_type_invariant(self);
        }
        let budget = width.saturating_sub(8) as usize;
        let ghost lv = item_views(self.source_lines@);
        let ghost hv = header_views(self.source_file_headers@);
        let ghost b = path_budget(width);
        let mut rows: Vec<PanelRow> = Vec::new();
        let mut idx: usize = 0;
        let mut k: usize = 0;
        while k < self.source_file_headers.len()
            invariant
                lv == item_views(self.source_lines@),
                hv == header_views(self.source_file_headers@),
                headers_ok(hv, lv.len() as int),
                no_headers(lv),
                b == path_budget(width),
                budget == b,
                k <= hv.len(),
                idx == (if k == 0 { 0 } else { hv[k - 1].0 }),
                rows@.len() == merge_upto(lv, hv, k as int).len(),
                forall|i: int| 0 <= i < rows@.len() ==> panel_row_view(#[trigger] rows@[i]) == shown_row(merge_upto(lv, hv, k as int)[i], b),
            decreases hv.len() - k,
        {
            let at = self.source_file_headers[k].0;
            assert(hv[k as int].0 == at);
            if k > 0 {
                assert(hv[k - 1].0 <= hv[k as int].0);
            }
            let ghost base = rows@;
            let ghost from = idx as int;
            while idx < at
                invariant
                    lv == item_views(self.source_lines@),
                    from <= idx <= at,
                    at <= lv.len(),
                    rows@.len() == base.len() + (idx - from),
                    forall|i: int| 0 <= i < base.len() ==> #[trigger] rows@[i] == base[i],
                    forall|i: int| base.len() <= i < rows@.len() ==> panel_row_view(#[trigger] rows@[i]) == PanelRowView::Content(lv[from + (i - base.len())]),
                decreases at - idx,
            {
                assert(lv[idx as int] == self.source_lines[idx as int]@);
                rows.push(PanelRow::Content(self.source_lines[idx].duplicate()));
                idx = idx + 1;
            }
            let path = &self.source_file_headers[k].1;
            let mut text = owned("-- ");
            let short = short_path_by_width(path.as_str(), budget);
            push_str(&mut text, short.as_str());
            push_str(&mut text, " --");
            proof {
                reveal_strlit("-- ");
                reveal_strlit(" --");
                assert(text@ =~= header_text(path@, b));
            }
            rows.push(PanelRow::Header(text));
            proof {
                let m = merge_upto(lv, hv, k as int + 1);
                let prev = merge_upto(lv, hv, k as int);
                assert(m == prev + lv.subrange(from, at as int) + seq![SourceItemView::FileHeader(hv[k as int].1)]);
                assert(hv[k as int].1 == path@);
                assert forall|i: int| 0 <= i < rows@.len() implies panel_row_view(#[trigger] rows@[i]) == shown_row(m[i], b) by {
                    if i < base.len() {
                        assert(rows@[i] == base[i]);
                        assert(m[i] == prev[i]);
                    } else if i < rows@.len() - 1 {
                        assert(m[i] == lv[from + (i - base.len())]);
                        assert(!(lv[from + (i - base.len())] is FileHeader));
                    }
                }
            }
            k = k + 1;
        }
        let ghost base = rows@;
        let ghost from = idx as int;
        let ghost prev = merge_upto(lv, hv, hv.len() as int);
        assert(from == (if hv.len() == 0 { 0 } else { hv.last().0 }));
        while idx < self.source_lines.len()
            invariant
                lv == item_views(self.source_lines@),
                from <= idx <= lv.len(),
                rows@.len() == base.len() + (idx - from),
                forall|i: int| 0 <= i < base.len() ==> #[trigger] rows@[i] == base[i],
                forall|i: int| base.len() <= i < rows@.len() ==> panel_row_view(#[trigger] rows@[i]) == PanelRowView::Content(lv[from + (i - base.len())]),
            decreases lv.len() - idx,
        {
            assert(lv[idx as int] == self.source_lines[idx as int]@);
            rows.push(PanelRow::Content(self.source_lines[idx].duplicate()));
            idx = idx + 1;
        }
        proof {
            let m = merge_panel(lv, hv);
            assert(m == prev + lv.skip(from));
            assert forall|i: int| 0 <= i < rows@.len() implies panel_row_view(#[trigger] rows@[i]) == shown_row(m[i], b) by {
                if i < base.len() {
                    assert(rows@[i] == base[i]);
                    assert(m[i] == prev[i]);
                } else {
                    assert(m[i] == lv[from + (i - base.len())]);
                    assert(!(lv[from + (i - base.len())] is FileHeader));
                }
            }
        }
        rows
    }
}

} // verus!
