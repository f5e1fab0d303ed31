//! Reading lines of source files, with path remapping.
//!
//! File contents are handed to the reader by its owner (`add_source`); the reader decides
//! which file a location refers to after remapping and which line of it is meant.
use vstd::prelude::*;
use crate::error::AnnotateError;
use crate::paths::{strip_prefix, strip_prefix_spec, push_path, push_path_exec};
use crate::text::{chars_of, string_of, copy_string, trim_end, trim_end_spec, str_eq};

verus! {

/// The lines of a file as `BufRead::lines` splits them: at each `\n`, a `\r` before the
/// `\n` dropped, and no empty last line after a final `\n`.
pub open spec fn split_lines(s: Seq<u8>) -> Seq<Seq<u8>> {
    let (done, cur) = split_lines_acc(s);
    if cur.len() == 0 {
        done
    } else {
        done.push(cur)
    }
}

/// Complete lines of `s` and the unterminated rest.
pub open spec fn split_lines_acc(s: Seq<u8>) -> (Seq<Seq<u8>>, Seq<u8>)
    decreases s.len(),
{
    if s.len() == 0 {
        (seq![], seq![])
    } else {
        let (done, cur) = split_lines_acc(s.drop_last());
        if s.last() == 10 {
            (done.push(strip_cr(cur)), seq![])
        } else {
            (done, cur.push(s.last()))
        }
    }
}

/// `t` without one final `\r`.
pub open spec fn strip_cr(t: Seq<u8>) -> Seq<u8> {
    if t.len() > 0 && t.last() == 13 {
        t.drop_last()
    } else {
        t
    }
}

/// The text that `bytes` encode in UTF-8, when they are valid UTF-8.
pub open spec fn utf8_text(bytes: Seq<u8>) -> Option<Seq<char>> {
    if vstd::utf8::valid_utf8(bytes) {
        Some(vstd::utf8::decode_utf8(bytes))
    } else {
        None
    }
}

/// Decodes UTF-8 (`String::from_utf8`): the text when the bytes are valid UTF-8 (as vstd
/// defines it), nothing otherwise.
#[verifier::external_body]
fn string_from_utf8(bytes: &[u8]) -> (r: Option<String>)
    ensures
        match r {
            Some(t) => utf8_text(bytes@) == Some(t@),
            None => utf8_text(bytes@) is None,
        },
{
    String::from_utf8(bytes.to_vec()).ok()
}

/// The lines of a file as `BufRead::lines` yields them: each the text of a line, or
/// nothing for a line that is not valid UTF-8 (reading it fails).
pub open spec fn decoded_lines(contents: Seq<u8>) -> Seq<Option<Seq<char>>> {
    split_lines(contents).map_values(|l: Seq<u8>| utf8_text(l))
}

/// The views of decoded lines.
pub open spec fn lines_view(v: Seq<Option<String>>) -> Seq<Option<Seq<char>>> {
    v.map_values(|l: Option<String>| match l {
        Some(t) => Some(t@),
        None => None,
    })
}

/// Splits and decodes the lines of a file (see `decoded_lines`).
pub fn lines_of(contents: &[u8]) -> (r: Vec<Option<String>>)
    ensures
        lines_view(r@) == decoded_lines(contents@),
{
    let mut done: Vec<Option<String>> = Vec::new();
    let ghost mut done_raw: Seq<Seq<u8>> = seq![];
    let mut cur: Vec<u8> = Vec::new();
    let mut i: usize = 0;
    assert(contents@.take(0) =~= Seq::<u8>::empty());
    while i < contents.len()
        invariant
            i <= contents.len(),
            (done_raw, cur@) == split_lines_acc(contents@.take(i as int)),
            lines_view(done@) == done_raw.map_values(|l: Seq<u8>| utf8_text(l)),
        decreases contents.len() - i,
    {
        assert(contents@.take(i as int + 1).drop_last() == contents@.take(i as int));
        if contents[i] == 10 {
            let end = if cur.len() > 0 && cur[cur.len() - 1] == 13 {
                cur.len() - 1
            } else {
                cur.len()
            };
            let raw = vstd::slice::slice_subrange(cur.as_slice(), 0, end);
            assert(raw@ == strip_cr(cur@));
            let line = string_from_utf8(raw);
            let ghost d0 = done@;
            let ghost lv = match &line {
                Some(t) => Some(t@),
                None => None,
            };
            done.push(line);
            assert(lines_view(done@) =~= lines_view(d0).push(lv));
            proof {
                done_raw = done_raw.push(raw@);
            }
            assert(done_raw.map_values(|l: Seq<u8>| utf8_text(l)) =~= lines_view(d0).push(lv));
            cur = Vec::new();
        } else {
            cur.push(contents[i]);
        }
        i = i + 1;
    }
    assert(contents@.take(contents.len() as int) == contents@);
    if cur.len() > 0 {
        let ghost d0 = done@;
        let line = string_from_utf8(cur.as_slice());
        let ghost lv = match &line {
            Some(t) => Some(t@),
            None => None,
        };
        done.push(line);
        assert(lines_view(done@) =~= lines_view(d0).push(lv));
        assert(done_raw.push(cur@).map_values(|l: Seq<u8>| utf8_text(l)) =~= lines_view(d0).push(lv));
    }
    done
}

/// The contents of one source file, as loaded by the reader's owner.
#[derive(Debug)]
pub struct LoadedSource {
    /// The (remapped) path the contents were read from.
    pub path: String,
    /// The file's lines; `None` for a line that is not valid UTF-8.
    pub lines: Vec<Option<String>>,
}

/// Reads source files, allowing for path remappings.
///
/// This is useful when debug information contains paths that don't directly match the
/// local filesystem, for example, paths from a build server.
#[derive(Debug)]
pub struct SourceReader {
    remappings: Vec<(String, String)>,
    sources: Vec<LoadedSource>,
}

/// The prefix remappings, in order, as (old, new).
pub open spec fn remaps_view(r: Seq<(String, String)>) -> Seq<(Seq<char>, Seq<char>)> {
    r.map_values(|p: (String, String)| (p.0@, p.1@))
}

/// The loaded files, in order, as (path, lines).
pub open spec fn sources_view(s: Seq<LoadedSource>) -> Seq<(Seq<char>, Seq<Option<Seq<char>>>)> {
    s.map_values(|l: LoadedSource| (l.path@, lines_view(l.lines@)))
}

/// Applies the first remapping whose old prefix is a component-wise prefix of `path`,
/// joining the rest onto its new prefix; `path` itself when none applies.
pub open spec fn remap_spec(remaps: Seq<(Seq<char>, Seq<char>)>, path: Seq<char>) -> Seq<char>
    decreases remaps.len(),
{
    if remaps.len() == 0 {
        path
    } else {
        match strip_prefix_spec(path, remaps[0].0) {
            Some(rest) => push_path(remaps[0].1, rest),
            None => remap_spec(remaps.drop_first(), path),
        }
    }
}

/// The lines loaded for `path`: the first loaded file with that path, if any.
pub open spec fn lookup_spec(
    sources: Seq<(Seq<char>, Seq<Option<Seq<char>>>)>,
    path: Seq<char>,
) -> Option<Seq<Option<Seq<char>>>>
    decreases sources.len(),
{
    if sources.len() == 0 {
        None
    } else if sources[0].0 == path {
        Some(sources[0].1)
    } else {
        lookup_spec(sources.drop_first(), path)
    }
}

/// What `read_line` gives: nothing for line 0 or a file that is not loaded or has too few
/// lines; an error for a line that is not valid UTF-8; otherwise the line without trailing
/// whitespace.
pub open spec fn read_line_spec(
    remaps: Seq<(Seq<char>, Seq<char>)>,
    sources: Seq<(Seq<char>, Seq<Option<Seq<char>>>)>,
    file: Seq<char>,
    line_number: int,
) -> Result<Option<Seq<char>>, ()> {
    if line_number == 0 {
        Ok(None)
    } else {
        match lookup_spec(sources, remap_spec(remaps, file)) {
            None => Ok(None),
            Some(lines) => if line_number - 1 < lines.len() {
                match lines[line_number - 1] {
                    Some(t) => Ok(Some(trim_end_spec(t))),
                    None => Err(()),
                }
            } else {
                Ok(None)
            },
        }
    }
}

proof fn lemma_lookup_push(
    sources: Seq<(Seq<char>, Seq<Option<Seq<char>>>)>,
    x: (Seq<char>, Seq<Option<Seq<char>>>),
    path: Seq<char>,
)
    ensures
        lookup_spec(sources.push(x), path) == (if lookup_spec(sources, path) is Some {
            lookup_spec(sources, path)
        } else if x.0 == path {
            Some(x.1)
        } else {
            None
        }),
    decreases sources.len(),
{
    if sources.len() > 0 {
        assert(sources.push(x).drop_first() =~= sources.drop_first().push(x));
        assert(sources.push(x)[0] == sources[0]);
        lemma_lookup_push(sources.drop_first(), x, path);
    } else {
        assert(sources.push(x).drop_first() =~= Seq::<(Seq<char>, Seq<Option<Seq<char>>>)>::empty());
        assert(sources.push(x)[0] == x);
        assert(lookup_spec(Seq::<(Seq<char>, Seq<Option<Seq<char>>>)>::empty(), path) is None);
        assert(lookup_spec(sources, path) is None);
    }
}

/// A file loaded after the others reads back as it was loaded: line `n` (from 1) of a
/// file whose remapped path was not loaded before is the `n`-th line of its contents
/// without trailing whitespace, an error when that line is not valid UTF-8, and nothing
/// past the last line.
pub proof fn lemma_read_after_load(
    remaps: Seq<(Seq<char>, Seq<char>)>,
    sources: Seq<(Seq<char>, Seq<Option<Seq<char>>>)>,
    file: Seq<char>,
    contents: Seq<u8>,
    n: int,
)
    requires
        lookup_spec(sources, remap_spec(remaps, file)) is None,
        n >= 1,
    ensures
        ({
            let loaded = sources.push((remap_spec(remaps, file), decoded_lines(contents)));
            let lines = split_lines(contents);
            read_line_spec(remaps, loaded, file, n) == (if n <= lines.len() {
                match utf8_text(lines[n - 1]) {
                    Some(t) => Ok::<Option<Seq<char>>, ()>(Some(trim_end_spec(t))),
                    None => Err(()),
                }
            } else {
                Ok::<Option<Seq<char>>, ()>(None)
            })
        }),
{
    let x = (remap_spec(remaps, file), decoded_lines(contents));
    lemma_lookup_push(sources, x, remap_spec(remaps, file));
}

/// A reader with remappings reads a line of a file as a reader without any reads it from
/// the remapped path, given the same loaded files: the remapped path is the only one read.
pub proof fn lemma_read_through_remap(
    remaps: Seq<(Seq<char>, Seq<char>)>,
    sources: Seq<(Seq<char>, Seq<Option<Seq<char>>>)>,
    file: Seq<char>,
    n: int,
)
    ensures
        read_line_spec(remaps, sources, file, n) == read_line_spec(seq![], sources, remap_spec(remaps, file), n),
{
    assert(remap_spec(seq![], remap_spec(remaps, file)) == remap_spec(remaps, file));
}

/// A path that no remapping's old prefix matches is left as it is.
pub proof fn lemma_remap_unmatched(remaps: Seq<(Seq<char>, Seq<char>)>, path: Seq<char>)
    requires
        forall|k: int| 0 <= k < remaps.len() ==> strip_prefix_spec(path, #[trigger] remaps[k].0) is None,
    ensures
        remap_spec(remaps, path) == path,
    decreases remaps.len(),
{
    if remaps.len() > 0 {
        assert(strip_prefix_spec(path, remaps[0].0) is None);
        assert forall|k: int| 0 <= k < remaps.drop_first().len() implies strip_prefix_spec(path, #[trigger] remaps.drop_first()[k].0) is None by {
            assert(remaps.drop_first()[k] == remaps[k + 1]);
        }
        lemma_remap_unmatched(remaps.drop_first(), path);
    }
}

impl SourceReader {
    pub closed spec fn remaps(&self) -> Seq<(Seq<char>, Seq<char>)> {
        remaps_view(self.remappings@)
    }

    pub closed spec fn sources(&self) -> Seq<(Seq<char>, Seq<Option<Seq<char>>>)> {
        sources_view(self.sources@)
    }

    /// What `read_line` gives for `file` and `line_number`.
    pub open spec fn line_spec(&self, file: Seq<char>, line_number: int) -> Result<
        Option<Seq<char>>,
        (),
    > {
        read_line_spec(self.remaps(), self.sources(), file, line_number)
    }

    /// The text shown for a line: the line when it can be read, otherwise empty.
    pub open spec fn line_text(&self, file: Seq<char>, line_number: int) -> Seq<char> {
        match self.line_spec(file, line_number) {
            Ok(Some(t)) => t,
            _ => seq![],
        }
    }

    /// A reader without remappings or loaded files.
    pub fn empty() -> (r: SourceReader)
        ensures
            r.remaps().len() == 0,
            r.sources().len() == 0,
    {
        SourceReader { remappings: Vec::new(), sources: Vec::new() }
    }

    /// Creates a reader from a flat list alternating old and new path prefixes.
    ///
    /// Fails with `InvalidRemap` when the list does not consist of pairs.
    pub fn new(remaps: &[String]) -> (r: Result<SourceReader, AnnotateError>)
        ensures
            r is Err <==> remaps.len() % 2 == 1,
            r matches Err(e) ==> e == AnnotateError::InvalidRemap,
            r matches Ok(reader) ==> {
                &&& reader.sources().len() == 0
                &&& reader.remaps().len() == remaps.len() / 2
                &&& forall|k: int|
                    0 <= k < remaps.len() / 2 ==> #[trigger] reader.remaps()[k] == (
                        remaps[2 * k]@,
                        remaps[2 * k + 1]@,
                    )
            },
    {
        if remaps.len() % 2 != 0 {
            return Err(AnnotateError::InvalidRemap);
        }
        let mut remappings: Vec<(String, String)> = Vec::new();
        let pairs = remaps.len() / 2;
        let mut k: usize = 0;
        while k < pairs
            invariant
                pairs == remaps.len() / 2,
                k <= pairs,
                remappings.len() == k,
                forall|j: int|
                    0 <= j < k ==> #[trigger] remaps_view(remappings@)[j] == (
                        remaps[2 * j]@,
                        remaps[2 * j + 1]@,
                    ),
            decreases pairs - k,
        {
            let ghost r0 = remappings@;
            let entry = (copy_string(&remaps[2 * k]), copy_string(&remaps[2 * k + 1]));
            remappings.push(entry);
            assert(remaps_view(remappings@) =~= remaps_view(r0).push((entry.0@, entry.1@)));
            k = k + 1;
        }
        Ok(SourceReader { remappings, sources: Vec::new() })
    }

    /// Applies the configured remappings to `path`.
    pub fn apply_remaps(&self, path: &str) -> (r: String)
        ensures
            r@ == remap_spec(self.remaps(), path@),
    {
        let pv = chars_of(path);
        let mut i: usize = 0;
        assert(self.remaps().skip(0) == self.remaps());
        while i < self.remappings.len()
            invariant
                i <= self.remappings.len(),
                pv@ == path@,
                remap_spec(self.remaps(), path@) == remap_spec(self.remaps().skip(i as int), path@),
            decreases self.remappings.len() - i,
        {
            let old_prefix = chars_of(self.remappings[i].0.as_str());
            assert(self.remaps().skip(i as int)[0] == self.remaps()[i as int]);
            assert(self.remaps().skip(i as int).drop_first() == self.remaps().skip(i as int + 1));
            match strip_prefix(pv.as_slice(), old_prefix.as_slice()) {
                Some(rest) => {
                    let mut out = chars_of(self.remappings[i].1.as_str());
                    push_path_exec(&mut out, rest.as_slice());
                    return string_of(out.as_slice());
                },
                None => {},
            }
            i = i + 1;
        }
        string_of(pv.as_slice())
    }

    /// Records the contents of the file read from `path`.
    pub fn add_source(&mut self, path: &str, contents: &[u8])
        ensures
            final(self).remaps() == old(self).remaps(),
            final(self).sources() == old(self).sources().push((path@, decoded_lines(contents@))),
    {
        let lines = lines_of(contents);
        let entry = LoadedSource { path: path.to_string(), lines };
        let ghost s0 = self.sources@;
        self.sources.push(entry);
        assert(sources_view(self.sources@) =~= sources_view(s0).push(
            (entry.path@, lines_view(entry.lines@)),
        ));
    }

    fn lookup(&self, path: &str) -> (r: Option<&LoadedSource>)
        ensures
            match r {
                None => lookup_spec(self.sources(), path@) is None,
                Some(l) => lookup_spec(self.sources(), path@) == Some(lines_view(l.lines@)),
            },
    {
        let mut i: usize = 0;
        assert(self.sources().skip(0) == self.sources());
        while i < self.sources.len()
            invariant
                i <= self.sources.len(),
                lookup_spec(self.sources(), path@) == lookup_spec(
                    self.sources().skip(i as int),
                    path@,
                ),
            decreases self.sources.len() - i,
        {
            assert(self.sources().skip(i as int)[0] == self.sources()[i as int]);
            assert(self.sources().skip(i as int).drop_first() == self.sources().skip(
                i as int + 1,
            ));
            if str_eq(self.sources[i].path.as_str(), path) {
                return Some(&self.sources[i]);
            }
            i = i + 1;
        }
        None
    }

    /// Reads a 1-based line from a source file, after applying the path remappings.
    ///
    /// Gives `Ok(None)` for line 0, for a file that was not loaded and for a line past the
    /// end; an error when reading the file failed.
    pub fn read_line(&self, file_path: &str, line_number: usize) -> (r: Result<
        Option<String>,
        AnnotateError,
    >)
        ensures
            match r {
                Ok(Some(t)) => self.line_spec(file_path@, line_number as int) == Ok::<
                    Option<Seq<char>>,
                    (),
                >(Some(t@)),
                Ok(None) => self.line_spec(file_path@, line_number as int) == Ok::<
                    Option<Seq<char>>,
                    (),
                >(None),
                Err(_) => self.line_spec(file_path@, line_number as int) is Err,
            },
    {
        if line_number == 0 {
            return Ok(None);
        }
        let remapped = self.apply_remaps(file_path);
        match self.lookup(remapped.as_str()) {
            None => Ok(None),
            Some(src) => {
                if line_number - 1 < src.lines.len() {
                    assert(lines_view(src.lines@)[line_number - 1] == match src.lines@[line_number - 1] {
                        Some(t) => Some(t@),
                        None => None,
                    });
                    match &src.lines[line_number - 1] {
                        Some(t) => Ok(Some(trim_end(t.as_str()))),
                        None => Err(AnnotateError::SourceRead { path: copy_string(&remapped), line: line_number }),
                    }
                } else {
                    Ok(None)
                }
            },
        }
    }

    /// The text shown for a line: `read_line`'s line, or empty when there is none.
    pub fn line_or_empty(&self, file_path: &str, line_number: usize) -> (r: String)
        ensures
            r@ == self.line_text(file_path@, line_number as int),
    {
        match self.read_line(file_path, line_number) {
            Ok(Some(t)) => t,
            _ => String::new(),
        }
    }
}

impl Default for SourceReader {
    fn default() -> (r: SourceReader)
        ensures
            r.remaps().len() == 0,
            r.sources().len() == 0,
    {
        SourceReader::empty()
    }
}

} // verus!
