//! Common data types: instructions, source locations, display items and colors.
use vstd::prelude::*;
use std::collections::HashMap;
use crate::text::copy_string;

verus! {

broadcast use vstd::std_specs::hash::group_hash_axioms;

/// A single disassembled instruction.
#[derive(Debug, Clone, PartialEq, Eq)]
pub struct Instruction {
    /// The memory address of the instruction.
    pub address: u64,
    /// A string representation of the instruction's bytes.
    pub bytes: String,
    /// The mnemonic and operands of the instruction.
    pub mnemonic: String,
}

impl Instruction {
    /// A copy of this instruction.
    pub fn duplicate(&self) -> (r: Instruction)
        ensures
            r == *self,
    {
        Instruction {
            address: self.address,
            bytes: copy_string(&self.bytes),
            mnemonic: copy_string(&self.mnemonic),
        }
    }
}

/// A specific location in a source file.
#[derive(Debug, Clone, PartialEq, Eq, Hash)]
pub struct SourceLocation {
    /// The path to the source file.
    pub file: String,
    /// The 1-based line number in the file.
    pub line: usize,
}

impl View for SourceLocation {
    type V = (Seq<char>, usize);

    open spec fn view(&self) -> (Seq<char>, usize) {
        (self.file@, self.line)
    }
}

impl SourceLocation {
    /// A copy of this location.
    pub fn duplicate(&self) -> (r: SourceLocation)
        ensures
            r == *self,
    {
        SourceLocation { file: copy_string(&self.file), line: self.line }
    }

    /// Whether two locations name the same file and line.
    pub fn same_as(&self, other: &SourceLocation) -> (r: bool)
        ensures
            r == (self@ == other@),
    {
        self.line == other.line && self.file == other.file
    }
}

/// A copy of an optional location.
pub fn duplicate_location(s: &Option<SourceLocation>) -> (r: Option<SourceLocation>)
    ensures
        r == *s,
{
    match s {
        Some(l) => Some(l.duplicate()),
        None => None,
    }
}

/// The view of an optional location.
pub open spec fn opt_loc_view(s: Option<SourceLocation>) -> Option<(Seq<char>, usize)> {
    match s {
        Some(l) => Some(l@),
        None => None,
    }
}

/// Terminal colors (the palette of the `colored` crate).
#[derive(Debug, Clone, Copy, PartialEq, Eq, Structural)]
pub enum Color {
    Black,
    Red,
    Green,
    Yellow,
    Blue,
    Magenta,
    Cyan,
    White,
    BrightBlack,
    BrightRed,
    BrightGreen,
    BrightYellow,
    BrightBlue,
    BrightMagenta,
    BrightCyan,
    BrightWhite,
    TrueColor { r: u8, g: u8, b: u8 },
}

/// Number of colors in the UI palette.
pub const UI_PALETTE_LEN: usize = 20;

/// The UI palette: the Matplotlib tab20 colormap.
pub open spec fn palette_entry(i: int) -> Color {
    if i == 0 {
        Color::TrueColor { r: 31, g: 119, b: 180 }
    } else if i == 1 {
        Color::TrueColor { r: 174, g: 199, b: 232 }
    } else if i == 2 {
        Color::TrueColor { r: 255, g: 127, b: 14 }
    } else if i == 3 {
        Color::TrueColor { r: 255, g: 187, b: 120 }
    } else if i == 4 {
        Color::TrueColor { r: 44, g: 160, b: 44 }
    } else if i == 5 {
        Color::TrueColor { r: 152, g: 223, b: 138 }
    } else if i == 6 {
        Color::TrueColor { r: 214, g: 39, b: 40 }
    } else if i == 7 {
        Color::TrueColor { r: 255, g: 152, b: 150 }
    } else if i == 8 {
        Color::TrueColor { r: 148, g: 103, b: 189 }
    } else if i == 9 {
        Color::TrueColor { r: 197, g: 176, b: 213 }
    } else if i == 10 {
        Color::TrueColor { r: 140, g: 86, b: 75 }
    } else if i == 11 {
        Color::TrueColor { r: 196, g: 156, b: 148 }
    } else if i == 12 {
        Color::TrueColor { r: 227, g: 119, b: 194 }
    } else if i == 13 {
        Color::TrueColor { r: 247, g: 182, b: 210 }
    } else if i == 14 {
        Color::TrueColor { r: 127, g: 127, b: 127 }
    } else if i == 15 {
        Color::TrueColor { r: 199, g: 199, b: 199 }
    } else if i == 16 {
        Color::TrueColor { r: 188, g: 189, b: 34 }
    } else if i == 17 {
        Color::TrueColor { r: 219, g: 219, b: 141 }
    } else if i == 18 {
        Color::TrueColor { r: 23, g: 190, b: 207 }
    } else {
        Color::TrueColor { r: 158, g: 218, b: 229 }
    }
}

/// The `i`-th color of the UI palette.
pub fn ui_palette(i: usize) -> (c: Color)
    requires
        i < UI_PALETTE_LEN,
    ensures
        c == palette_entry(i as int),
{
    if i == 0 {
        Color::TrueColor { r: 31, g: 119, b: 180 }
    } else if i == 1 {
        Color::TrueColor { r: 174, g: 199, b: 232 }
    } else if i == 2 {
        Color::TrueColor { r: 255, g: 127, b: 14 }
    } else if i == 3 {
        Color::TrueColor { r: 255, g: 187, b: 120 }
    } else if i == 4 {
        Color::TrueColor { r: 44, g: 160, b: 44 }
    } else if i == 5 {
        Color::TrueColor { r: 152, g: 223, b: 138 }
    } else if i == 6 {
        Color::TrueColor { r: 214, g: 39, b: 40 }
    } else if i == 7 {
        Color::TrueColor { r: 255, g: 152, b: 150 }
    } else if i == 8 {
        Color::TrueColor { r: 148, g: 103, b: 189 }
    } else if i == 9 {
        Color::TrueColor { r: 197, g: 176, b: 213 }
    } else if i == 10 {
        Color::TrueColor { r: 140, g: 86, b: 75 }
    } else if i == 11 {
        Color::TrueColor { r: 196, g: 156, b: 148 }
    } else if i == 12 {
        Color::TrueColor { r: 227, g: 119, b: 194 }
    } else if i == 13 {
        Color::TrueColor { r: 247, g: 182, b: 210 }
    } else if i == 14 {
        Color::TrueColor { r: 127, g: 127, b: 127 }
    } else if i == 15 {
        Color::TrueColor { r: 199, g: 199, b: 199 }
    } else if i == 16 {
        Color::TrueColor { r: 188, g: 189, b: 34 }
    } else if i == 17 {
        Color::TrueColor { r: 219, g: 219, b: 141 }
    } else if i == 18 {
        Color::TrueColor { r: 23, g: 190, b: 207 }
    } else {
        Color::TrueColor { r: 158, g: 218, b: 229 }
    }
}

/// The palette's colors are pairwise distinct, and none of them is plain white.
pub proof fn lemma_palette_distinct(i: int, j: int)
    requires
        0 <= i < UI_PALETTE_LEN,
        0 <= j < UI_PALETTE_LEN,
        i != j,
    ensures
        palette_entry(i) != palette_entry(j),
        palette_entry(i) != Color::White,
{
}

/// An assembly instruction annotated with its optional source code location.
#[derive(Debug, Clone, PartialEq, Eq)]
pub struct AnnotatedInstruction {
    /// The core disassembled instruction.
    pub instruction: Instruction,
    /// The source location this instruction originated from, if known.
    pub source: Option<SourceLocation>,
}

/// The source location attributed to instruction `i`: the mapping of the nearest instruction
/// at or before `i` whose address has one, or none.
pub open spec fn inherited_source(
    insts: Seq<Instruction>,
    addr_to_src: Map<u64, SourceLocation>,
    i: int,
) -> Option<SourceLocation>
    decreases i + 1,
{
    if i < 0 {
        None
    } else if addr_to_src.contains_key(insts[i].address) {
        Some(addr_to_src[insts[i].address])
    } else {
        inherited_source(insts, addr_to_src, i - 1)
    }
}

impl AnnotatedInstruction {
    /// Pairs each instruction with a source location from `addr_to_src`.
    ///
    /// An instruction whose address has no entry inherits the location of the nearest
    /// preceding instruction that has one.
    pub fn from_many(
        instructions: &[Instruction],
        addr_to_src: &HashMap<u64, SourceLocation>,
    ) -> (r: Vec<AnnotatedInstruction>)
        ensures
            r.len() == instructions.len(),
            forall|i: int|
                0 <= i < r.len() ==> {
                    &&& (#[trigger] r[i]).instruction == instructions[i]
                    &&& r[i].source == inherited_source(instructions@, addr_to_src@, i)
                },
    {
        let mut result: Vec<AnnotatedInstruction> = Vec::new();
        let mut last_src: Option<SourceLocation> = None;
        let mut i: usize = 0;
        while i < instructions.len()
            invariant
                i <= instructions.len(),
                result.len() == i,
                last_src == inherited_source(instructions@, addr_to_src@, i - 1),
                forall|k: int|
                    0 <= k < i ==> {
                        &&& (#[trigger] result[k]).instruction == instructions[k]
                        &&& result[k].source == inherited_source(instructions@, addr_to_src@, k)
                    },
            decreases instructions.len() - i,
        {
            let inst = &instructions[i];
            match addr_to_src.get(&inst.address) {
                Some(src) => {
                    last_src = Some(src.duplicate());
                },
                None => {},
            }
            result.push(
                AnnotatedInstruction {
                    instruction: inst.duplicate(),
                    source: duplicate_location(&last_src),
                },
            );
            i = i + 1;
        }
        result
    }
}

/// An item in the source code view panel.
#[derive(Debug, Clone)]
pub enum SourceItem {
    /// A header line separating source files (e.g. `-- path/to/file.cpp --`).
    FileHeader { path: String },
    /// A line of source code.
    Line {
        number: usize,
        text: String,
        /// Color from the assembly palette when this line maps to assembly instructions;
        /// `None` for context-only lines.
        color: Option<Color>,
        /// `true` when this line is directly mapped to one or more instructions.
        is_main: bool,
    },
    /// A gap marker (`~`) between non-consecutive line groups within a file.
    Gap,
}

/// An instruction to display, with its source location and color.
#[derive(Debug, Clone, PartialEq, Eq)]
pub struct DisplayItem {
    /// The core disassembled instruction.
    pub instruction: Instruction,
    /// The source location, if any.
    pub source: Option<SourceLocation>,
    /// The color to use when displaying this item.
    pub color: Color,
}

/// Distinct source locations of `ais[..n]`, in order of first appearance.
pub open spec fn first_seen(ais: Seq<AnnotatedInstruction>, n: int) -> Seq<(Seq<char>, usize)>
    decreases n,
{
    if n <= 0 {
        seq![]
    } else {
        let p = first_seen(ais, n - 1);
        match ais[n - 1].source {
            Some(s) => if p.contains(s@) {
                p
            } else {
                p.push(s@)
            },
            None => p,
        }
    }
}

/// The color given to item `i`: white without a source; otherwise the palette color at the
/// rank of its location among the distinct locations in order of first appearance
/// (cycling through the palette).
pub open spec fn item_color(ais: Seq<AnnotatedInstruction>, i: int) -> Color {
    match ais[i].source {
        None => Color::White,
        Some(s) => palette_entry(first_seen(ais, i + 1).index_of(s@) % (UI_PALETTE_LEN as int)),
    }
}

/// Index of `loc` in `seen`, if present.
fn find_location(seen: &Vec<SourceLocation>, loc: &SourceLocation) -> (r: Option<usize>)
    ensures
        match r {
            Some(k) => k < seen.len() && seen[k as int]@ == loc@ && forall|j: int|
                0 <= j < k ==> (#[trigger] seen[j])@ != loc@,
            None => forall|j: int| 0 <= j < seen.len() ==> (#[trigger] seen[j])@ != loc@,
        },
{
    let mut k: usize = 0;
    while k < seen.len()
        invariant
            k <= seen.len(),
            forall|j: int| 0 <= j < k ==> (#[trigger] seen[j])@ != loc@,
        decreases seen.len() - k,
    {
        if seen[k].same_as(loc) {
            return Some(k);
        }
        k = k + 1;
    }
    None
}

proof fn lemma_first_seen_no_dups(ais: Seq<AnnotatedInstruction>, n: int)
    ensures
        first_seen(ais, n).no_duplicates(),
    decreases n,
{
    if n > 0 {
        lemma_first_seen_no_dups(ais, n - 1);
    }
}

proof fn lemma_first_seen_grows(ais: Seq<AnnotatedInstruction>, m: int, n: int)
    requires
        0 <= m <= n,
    ensures
        first_seen(ais, n).len() >= first_seen(ais, m).len(),
        forall|k: int|
            0 <= k < first_seen(ais, m).len() ==> first_seen(ais, n)[k] == #[trigger] first_seen(
                ais,
                m,
            )[k],
    decreases n - m,
{
    if m < n {
        lemma_first_seen_grows(ais, m, n - 1);
    }
}

/// Whether source `s@` occurs among the first `n` items.
proof fn lemma_first_seen_contains(ais: Seq<AnnotatedInstruction>, n: int, i: int)
    requires
        0 <= i < n,
        ais[i].source is Some,
    ensures
        first_seen(ais, n).contains(ais[i].source->0@),
    decreases n,
{
    let x = ais[i].source->0@;
    let p = first_seen(ais, n - 1);
    if i < n - 1 {
        lemma_first_seen_contains(ais, n - 1, i);
        lemma_first_seen_grows(ais, n - 1, n);
        let k = choose|k: int| 0 <= k < p.len() && p[k] == x;
        assert(first_seen(ais, n)[k] == p[k]);
    } else {
        if !p.contains(x) {
            assert(first_seen(ais, n) == p.push(x));
            assert(p.push(x)[p.len() as int] == x);
        }
    }
}

impl DisplayItem {
    /// Assigns colors to annotated instructions.
    ///
    /// Each distinct source location gets a palette color in order of first appearance;
    /// instructions without a source are white.
    pub fn from_annotated(annotated_instructions: &[AnnotatedInstruction]) -> (r: Result<
        Vec<DisplayItem>,
        crate::error::AnnotateError,
    >)
        ensures
            r is Ok,
            r matches Ok(items) ==> {
                &&& items.len() == annotated_instructions.len()
                &&& forall|i: int|
                    0 <= i < items.len() ==> {
                        &&& (#[trigger] items[i]).instruction
                            == annotated_instructions[i].instruction
                        &&& items[i].source == annotated_instructions[i].source
                        &&& items[i].color == item_color(annotated_instructions@, i)
                    }
            },
    {
        let ghost ais = annotated_instructions@;
        let mut display_items: Vec<DisplayItem> = Vec::new();
        let mut seen: Vec<SourceLocation> = Vec::new();
        let mut i: usize = 0;
        while i < annotated_instructions.len()
            invariant
                ais == annotated_instructions@,
                i <= ais.len(),
                display_items.len() == i,
                seen@.map_values(|l: SourceLocation| l@) == first_seen(ais, i as int),
                forall|k: int|
                    0 <= k < i ==> {
                        &&& (#[trigger] display_items[k]).instruction == ais[k].instruction
                        &&& display_items[k].source == ais[k].source
                        &&& display_items[k].color == item_color(ais, k)
                    },
            decreases ais.len() - i,
        {
            let ai = &annotated_instructions[i];
            let ghost prev = first_seen(ais, i as int);
            let mut color = Color::White;
            match &ai.source {
                Some(src) => {
                    let idx = match find_location(&seen, src) {
                        Some(k) => {
                            assert(prev[k as int] == src@);
                            assert(prev.contains(src@));
                            k
                        },
                        None => {
                            assert(!prev.contains(src@)) by {
                                if prev.contains(src@) {
                                    let j = prev.index_of(src@);
                                    assert(seen[j]@ == prev[j]);
                                }
                            }
                            seen.push(src.duplicate());
                            assert(seen@.map_values(|l: SourceLocation| l@) =~= prev.push(src@));
                            (seen.len() - 1) as usize
                        },
                    };
                    proof {
                        let cur = first_seen(ais, i + 1);
                        lemma_first_seen_no_dups(ais, i + 1);
                        assert(cur[idx as int] == src@);
                        cur.index_of_first_ensures(src@);
                        assert(cur.index_of(src@) == idx) by {
                            let j = cur.index_of(src@);
                            assert(cur[j] == src@);
                            assert(cur.no_duplicates());
                        }
                    }
                    color = ui_palette(idx % UI_PALETTE_LEN);
                },
                None => {},
            }
            display_items.push(
                DisplayItem {
                    instruction: ai.instruction.duplicate(),
                    source: duplicate_location(&ai.source),
                    color,
                },
            );
            i = i + 1;
        }
        Ok(display_items)
    }
}

/// Items sharing a source location share a color, and a source-less item is white.
pub proof fn lemma_same_source_same_color(ais: Seq<AnnotatedInstruction>, i: int, j: int)
    requires
        0 <= i < ais.len(),
        0 <= j < ais.len(),
        opt_loc_view(ais[i].source) == opt_loc_view(ais[j].source),
    ensures
        item_color(ais, i) == item_color(ais, j),
{
    match ais[i].source {
        None => {},
        Some(s) => {
            let t = ais[j].source->0;
            assert(t@ == s@);
            lemma_first_seen_contains(ais, i + 1, i);
            lemma_first_seen_contains(ais, j + 1, j);
            lemma_first_seen_no_dups(ais, i + 1);
            lemma_first_seen_no_dups(ais, j + 1);
            let a = first_seen(ais, i + 1);
            let b = first_seen(ais, j + 1);
            let (small, big) = if i <= j { (a, b) } else { (b, a) };
            if i <= j {
                lemma_first_seen_grows(ais, i + 1, j + 1);
            } else {
                lemma_first_seen_grows(ais, j + 1, i + 1);
            }
            let k = small.index_of(s@);
            assert(small[k] == s@);
            assert(big[k] == s@);
            let kb = big.index_of(s@);
            assert(big[kb] == s@);
            assert(kb == k);
        },
    }
}

} // verus!
