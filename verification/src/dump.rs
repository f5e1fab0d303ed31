//! Plain-text dump of an annotated function, without colors.
//!
//! The source location is written only when it changes, which keeps the text compact.
use vstd::prelude::*;
use crate::annotate::AnnotationData;
use crate::error::AnnotateError;
use crate::paths::{file_name, file_name_spec};
use crate::source_reader::SourceReader;
use crate::text::{decimal_value, is_decimal_digits, lemma_decimal_digits, copy_string, format_decimal, format_hex, owned, pad_right, pad_to, push_str, radix_digits, trim, trim_spec};
use crate::types::{DisplayItem, duplicate_location, opt_loc_view};

verus! {

/// The file name of the first item that has a source location, or `?`.
pub open spec fn file_hint(items: Seq<DisplayItem>, i: int) -> Seq<char>
    decreases items.len() - i,
{
    if i < 0 || i >= items.len() {
        seq!['?']
    } else {
        match items[i].source {
            Some(s) => match file_name_spec(s.file@) {
                Some(n) => n,
                None => seq!['?'],
            },
            None => file_hint(items, i + 1),
        }
    }
}

/// The first line of the dump: `; function: NAME [FILE]`.
pub open spec fn dump_header_spec(display_name: Seq<char>, items: Seq<DisplayItem>) -> Seq<char> {
    seq![';', ' ', 'f', 'u', 'n', 'c', 't', 'i', 'o', 'n', ':', ' '] + display_name + seq![' ', '[']
        + file_hint(items, 0) + seq![']']
}

/// The line for item `i`. When its source location differs from the previous item's (none
/// before the first), it shows the location `FILE:LINE` after the instruction padded to 40
/// characters, and the trimmed source line after a colon when that is not empty; reading
/// the line may fail. Otherwise only the address and the instruction.
pub open spec fn dump_line_spec(reader: SourceReader, items: Seq<DisplayItem>, i: int) -> Result<Seq<char>, ()> {
    let item = items[i];
    let head = radix_digits(item.instruction.address as nat, 16) + seq![' ', ' '];
    let prev = if i == 0 {
        None
    } else {
        opt_loc_view(items[i - 1].source)
    };
    if opt_loc_view(item.source) != prev && item.source is Some {
        let src = item.source->0;
        let name = match file_name_spec(src.file@) {
            Some(n) => n,
            None => src.file@,
        };
        let location = name + seq![':'] + radix_digits(src.line as nat, 10);
        match reader.line_spec(src.file@, src.line as int) {
            Err(_) => Err(()),
            Ok(t) => {
                let text = trim_spec(
                    match t {
                        Some(x) => x,
                        None => seq![],
                    },
                );
                let base = head + pad_right(item.instruction.mnemonic@, 40) + seq![';', ' '] + location;
                if text.len() == 0 {
                    Ok(base)
                } else {
                    Ok(base + seq![':', ' '] + text)
                }
            },
        }
    } else {
        Ok(head + item.instruction.mnemonic@)
    }
}

/// The location is written only when it changes: an item with the same source location as
/// the item before it, or with none, gets just its address and instruction.
pub proof fn lemma_dump_location_on_change(reader: SourceReader, items: Seq<DisplayItem>, i: int)
    requires
        0 <= i < items.len(),
        items[i].source is None || (i > 0 && opt_loc_view(items[i].source) == opt_loc_view(items[i - 1].source)),
    ensures
        dump_line_spec(reader, items, i) == Ok::<Seq<char>, ()>(
            radix_digits(items[i].instruction.address as nat, 16) + seq![' ', ' '] + items[i].instruction.mnemonic@,
        ),
{
}

/// What a dump line with a location holds before the line number: the address in hex, two
/// spaces, the instruction padded to 40, `; `, the file name and `:`.
pub open spec fn location_prefix(item: DisplayItem) -> Seq<char> {
    let src = item.source->0;
    let name = match file_name_spec(src.file@) {
        Some(n) => n,
        None => src.file@,
    };
    radix_digits(item.instruction.address as nat, 16) + seq![' ', ' '] + pad_right(item.instruction.mnemonic@, 40)
        + seq![';', ' '] + name + seq![':']
}

/// Where an item's source location differs from the previous item's (and its line can be
/// read), its dump line writes the location as the file name, `:` and the line number in
/// decimal: after the address, the instruction padded to 40 and `; `, the line ends with
/// `NAME:` followed by decimal digits whose value is the line number, and then either
/// nothing or `:` and the source text.
pub proof fn lemma_dump_location_is_decimal(reader: SourceReader, items: Seq<DisplayItem>, i: int)
    requires
        0 <= i < items.len(),
        items[i].source is Some,
        i == 0 || opt_loc_view(items[i].source) != opt_loc_view(items[i - 1].source),
        reader.line_spec(items[i].source->0.file@, items[i].source->0.line as int) is Ok,
    ensures
        dump_line_spec(reader, items, i) is Ok,
        exists|d: Seq<char>, post: Seq<char>|
            #![trigger location_prefix(items[i]).add(d).add(post)]
            dump_line_spec(reader, items, i) == Ok::<Seq<char>, ()>(location_prefix(items[i]).add(d).add(post))
            && is_decimal_digits(d) && decimal_value(d) == items[i].source->0.line
            && (post.len() == 0 || post[0] == ':'),
{
    let item = items[i];
    let src = item.source->0;
    let name = match file_name_spec(src.file@) {
        Some(n) => n,
        None => src.file@,
    };
    let head = radix_digits(item.instruction.address as nat, 16) + seq![' ', ' '];
    let prefix = location_prefix(item);
    let d = radix_digits(src.line as nat, 10);
    lemma_decimal_digits(src.line as nat);
    let t = reader.line_spec(src.file@, src.line as int)->Ok_0;
    let text = trim_spec(
        match t {
            Some(x) => x,
            None => seq![],
        },
    );
    let post: Seq<char> = if text.len() == 0 { seq![] } else { seq![':', ' '] + text };
    let base = head + pad_right(item.instruction.mnemonic@, 40) + seq![';', ' '] + (name + seq![':'] + d);
    assert(base =~= prefix.add(d));
    if text.len() == 0 {
        assert(prefix.add(d).add(post) =~= base);
    } else {
        assert(prefix.add(d).add(post) =~= base + seq![':', ' '] + text);
    }
    assert(dump_line_spec(reader, items, i) == Ok::<Seq<char>, ()>(prefix.add(d).add(post)));
}

/// The index of the first item whose line cannot be written, if any.
pub open spec fn first_failure(reader: SourceReader, items: Seq<DisplayItem>, i: int) -> Option<int>
    decreases items.len() - i,
{
    if i < 0 || i >= items.len() {
        None
    } else if dump_line_spec(reader, items, i) is Err {
        Some(i)
    } else {
        first_failure(reader, items, i + 1)
    }
}

fn header(data: &AnnotationData) -> (r: String)
    ensures
        r@ == dump_header_spec(data.display_name@, data.display_items@),
{
    let ghost items = data.display_items@;
    let mut hint = owned("?");
    proof {
        reveal_strlit("?");
    }
    let mut i: usize = 0;
    let mut done = false;
    while i < data.display_items.len() && !done
        invariant
            items == data.display_items@,
            i <= items.len(),
            !done ==> file_hint(items, 0) == file_hint(items, i as int) && hint@ == seq!['?'],
            done ==> hint@ == file_hint(items, 0),
        decreases items.len() - i,
    {
        match &data.display_items[i].source {
            Some(s) => {
                match file_name(s.file.as_str()) {
                    Some(n) => {
                        hint = n;
                    },
                    None => {},
                }
                done = true;
            },
            None => {},
        }
        i = i + 1;
    }
    let mut out = owned("; function: ");
    push_str(&mut out, data.display_name.as_str());
    push_str(&mut out, " [");
    push_str(&mut out, hint.as_str());
    push_str(&mut out, "]");
    proof {
        reveal_strlit("; function: ");
        reveal_strlit(" [");
        reveal_strlit("]");
        assert(seq![';', ' ', 'f', 'u', 'n', 'c', 't', 'i', 'o', 'n', ':', ' '] =~= "; function: "@);
    }
    out
}

fn item_line(reader: &SourceReader, items: &Vec<DisplayItem>, i: usize) -> (r: Result<String, AnnotateError>)
    requires
        i < items.len(),
    ensures
        match r {
            Ok(t) => dump_line_spec(*reader, items@, i as int) == Ok::<Seq<char>, ()>(t@),
            Err(_) => dump_line_spec(*reader, items@, i as int) is Err,
        },
{
    let item = &items[i];
    let mut head = format_hex(item.instruction.address);
    push_str(&mut head, "  ");
    proof {
        reveal_strlit("  ");
    }
    match &item.source {
        Some(src) => {
            let same = if i == 0 {
                false
            } else {
                match &items[i - 1].source {
                    Some(p) => src.same_as(p),
                    None => false,
                }
            };
            proof {
                let prev = if i == 0 { None } else { opt_loc_view(items@[i - 1].source) };
                assert(same == (opt_loc_view(item.source) == prev));
                reveal_strlit(":");
                reveal_strlit("");
                reveal_strlit("; ");
                reveal_strlit(": ");
            }
            if !same {
                let mut location = match file_name(src.file.as_str()) {
                    Some(n) => n,
                    None => copy_string(&src.file),
                };
                push_str(&mut location, ":");
                let line_digits = format_decimal(src.line as u64);
                push_str(&mut location, line_digits.as_str());
                let text = match reader.read_line(src.file.as_str(), src.line) {
                    Ok(Some(t)) => trim(t.as_str()),
                    Ok(None) => trim(""),
                    Err(e) => {
                        return Err(e);
                    },
                };
                assert(reader.line_spec(src.file@, src.line as int) matches Ok(t) && text@ == trim_spec(
                    match t {
                        Some(x) => x,
                        None => seq![],
                    },
                ));
                let mut out = copy_string(&head);
                let mut instr_text = copy_string(&item.instruction.mnemonic);
                pad_to(&mut instr_text, 40);
                push_str(&mut out, instr_text.as_str());
                push_str(&mut out, "; ");
                push_str(&mut out, location.as_str());
                let ghost name = match file_name_spec(src.file@) {
                    Some(n) => n,
                    None => src.file@,
                };
                assert(location@ == name + seq![':'] + radix_digits(src.line as nat, 10));
                assert(head@ == radix_digits(item.instruction.address as nat, 16) + seq![' ', ' ']);
                assert(out@ == head@ + pad_right(item.instruction.mnemonic@, 40) + seq![';', ' '] + location@);
                let ghost base = out@;
                if text.as_str().unicode_len() > 0 {
                    push_str(&mut out, ": ");
                    push_str(&mut out, text.as_str());
                    assert(out@ == base + seq![':', ' '] + text@);
                } else {
                    assert(text@.len() == 0);
                }
                assert(items@[i as int] == *item);
                assert(opt_loc_view(item.source) != (if i == 0 { None } else { opt_loc_view(items@[i - 1].source) }));
                assert(dump_line_spec(*reader, items@, i as int) == Ok::<Seq<char>, ()>(out@));
                return Ok(out);
            }
        },
        None => {},
    }
    let mut out = head;
    push_str(&mut out, item.instruction.mnemonic.as_str());
    assert(items@[i as int] == *item);
    assert(head@ == radix_digits(item.instruction.address as nat, 16) + seq![' ', ' ']);
    assert(out@ == radix_digits(item.instruction.address as nat, 16) + seq![' ', ' '] + item.instruction.mnemonic@);
    assert(!(opt_loc_view(item.source) != (if i == 0 { None } else { opt_loc_view(items@[i - 1].source) }) && item.source is Some));
    assert(dump_line_spec(*reader, items@, i as int) == Ok::<Seq<char>, ()>(out@));
    Ok(out)
}

/// The dump of an annotated function, line by line: the header, then one line per item
/// (see `dump_line_spec`). Writing stops at the first item whose source line cannot be
/// read; the lines before it are returned with that error.
pub fn dump_annotation(data: &AnnotationData) -> (r: (Vec<String>, Option<AnnotateError>))
    ensures
        r.0@.len() >= 1,
        r.0@[0]@ == dump_header_spec(data.display_name@, data.display_items@),
        match first_failure(data.source_reader, data.display_items@, 0) {
            None => r.1 is None && r.0@.len() == data.display_items@.len() + 1,
            Some(k) => r.1 is Some && r.0@.len() == k + 1,
        },
        forall|i: int| 0 <= i < r.0@.len() - 1 ==> dump_line_spec(data.source_reader, data.display_items@, i) == Ok::<Seq<char>, ()>(#[trigger] r.0@[i + 1]@),
{
    let ghost items = data.display_items@;
    let ghost reader = data.source_reader;
    let mut lines: Vec<String> = Vec::new();
    lines.push(header(data));
    let mut i: usize = 0;
    while i < data.display_items.len()
        invariant
            items == data.display_items@,
            reader == data.source_reader,
            i <= items.len(),
            lines@.len() == i + 1,
            lines@[0]@ == dump_header_spec(data.display_name@, items),
            first_failure(reader, items, 0) == first_failure(reader, items, i as int),
            forall|k: int| 0 <= k < i ==> dump_line_spec(reader, items, k) == Ok::<Seq<char>, ()>(#[trigger] lines@[k + 1]@),
        decreases items.len() - i,
    {
        match item_line(&data.source_reader, &data.display_items, i) {
            Ok(t) => {
                lines.push(t);
            },
            Err(e) => {
                return (lines, Some(e));
            },
        }
        i = i + 1;
    }
    (lines, None)
}

} // verus!
