//! How functions are listed: the picker's entries and the rows of a function table.
use vstd::prelude::*;
use crate::annotate::{display_name, display_name_spec};
use crate::demangle::{CppDemangleBackend, DemanglerBackend, itanium_demangled};
use crate::elf::{FunctionInfo, FunctionView, function_views};
use crate::error::AnnotateError;
use crate::text::{chars_eq, chars_of, copy_string, format_decimal, format_hex, owned, pad_right, pad_to, push_str, radix_digits, string_views};

verus! {

/// `v` in hexadecimal with a `0x` prefix.
pub open spec fn alt_hex(v: u64) -> Seq<char> {
    seq!['0', 'x'] + radix_digits(v as nat, 16)
}

/// The name a picker entry shows: the demangled name followed by the symbol in brackets
/// when demangling changes it, else the symbol.
pub open spec fn picker_name(name: Seq<char>) -> Seq<char> {
    match itanium_demangled(name) {
        Some(d) => if d != name {
            d + seq![' ', ' ', '['] + name + seq![']']
        } else {
            name
        },
        None => name,
    }
}

/// A picker entry: `NAME (SIZE) 0xADDR`.
pub open spec fn picker_text(f: FunctionView) -> Seq<char> {
    picker_name(f.name) + seq![' ', '('] + radix_digits(f.size as nat, 10) + seq![')', ' '] + alt_hex(f.addr)
}

fn alt_hex_exec(v: u64) -> (r: String)
    ensures
        r@ == alt_hex(v),
{
    let mut s = owned("0x");
    let h = format_hex(v);
    push_str(&mut s, h.as_str());
    proof {
        reveal_strlit("0x");
    }
    s
}

/// The text of the picker entry of `f` (see `picker_text`).
pub fn picker_entry(f: &FunctionInfo) -> (r: String)
    ensures
        r@ == picker_text(f@),
{
    let backend = CppDemangleBackend;
    let mut text = match backend.demangle(f.name.as_str()) {
        Ok(d) => {
            let dv = chars_of(d.as_str());
            let nv = chars_of(f.name.as_str());
            if !chars_eq(dv.as_slice(), nv.as_slice()) {
                let mut t = d;
                push_str(&mut t, "  [");
                push_str(&mut t, f.name.as_str());
                push_str(&mut t, "]");
                proof {
                    reveal_strlit("  [");
                    reveal_strlit("]");
                }
                t
            } else {
                copy_string(&f.name)
            }
        },
        Err(_) => copy_string(&f.name),
    };
    push_str(&mut text, " (");
    let size = format_decimal(f.size);
    push_str(&mut text, size.as_str());
    push_str(&mut text, ") ");
    let addr = alt_hex_exec(f.addr);
    push_str(&mut text, addr.as_str());
    proof {
        reveal_strlit(" (");
        reveal_strlit(") ");
    }
    text
}

/// The picker entries of `functions`, in order.
pub fn picker_entries(functions: &[FunctionInfo]) -> (r: Vec<String>)
    ensures
        r@.len() == functions@.len(),
        forall|i: int| 0 <= i < r@.len() ==> (#[trigger] r@[i])@ == picker_text(functions@[i]@),
{
    let mut out: Vec<String> = Vec::new();
    let mut i: usize = 0;
    while i < functions.len()
        invariant
            i <= functions.len(),
            out@.len() == i,
            forall|k: int| 0 <= k < i ==> (#[trigger] out@[k])@ == picker_text(functions@[k]@),
        decreases functions.len() - i,
    {
        out.push(picker_entry(&functions[i]));
        i = i + 1;
    }
    out
}

/// The function the user picked: entry `selected` of `functions`. Fails with
/// `NoFunctionSelected` when nothing was picked (or the index is past the list).
pub fn picked_function(functions: Vec<FunctionInfo>, selected: Option<usize>) -> (r: Result<FunctionInfo, AnnotateError>)
    ensures
        match selected {
            Some(i) => if i < functions.len() {
                r matches Ok(f) && f@ == functions@[i as int]@
            } else {
                r == Err::<FunctionInfo, AnnotateError>(AnnotateError::NoFunctionSelected)
            },
            None => r == Err::<FunctionInfo, AnnotateError>(AnnotateError::NoFunctionSelected),
        },
{
    match selected {
        Some(i) => {
            if i < functions.len() {
                let f = &functions[i];
                Ok(FunctionInfo { name: copy_string(&f.name), addr: f.addr, size: f.size })
            } else {
                Err(AnnotateError::NoFunctionSelected)
            }
        },
        None => Err(AnnotateError::NoFunctionSelected),
    }
}

/// A row of the function table: the address (`0x…`, padded to 12), the size (padded to
/// 10), the symbol (padded to 30) and the demangled name when it differs from the symbol,
/// each separated by a space.
pub open spec fn list_row_spec(f: FunctionView, no_demangle: bool) -> Seq<char> {
    let d = display_name_spec(no_demangle, f.name);
    pad_right(alt_hex(f.addr), 12) + seq![' '] + pad_right(radix_digits(f.size as nat, 10), 10) + seq![' ']
        + pad_right(f.name, 30) + seq![' '] + (if d == f.name {
        seq![]
    } else {
        d
    })
}

/// The table row of `f` (see `list_row_spec`).
pub fn list_row(f: &FunctionInfo, no_demangle: bool) -> (r: String)
    ensures
        r@ == list_row_spec(f@, no_demangle),
{
    let d = display_name(no_demangle, f.name.as_str());
    let mut row = alt_hex_exec(f.addr);
    pad_to(&mut row, 12);
    push_str(&mut row, " ");
    let mut size = format_decimal(f.size);
    pad_to(&mut size, 10);
    push_str(&mut row, size.as_str());
    push_str(&mut row, " ");
    let mut name = copy_string(&f.name);
    pad_to(&mut name, 30);
    push_str(&mut row, name.as_str());
    push_str(&mut row, " ");
    proof {
        reveal_strlit(" ");
    }
    let dv = chars_of(d.as_str());
    let nv = chars_of(f.name.as_str());
    if !chars_eq(dv.as_slice(), nv.as_slice()) {
        push_str(&mut row, d.as_str());
    } else {
        assert(row@ =~= row@ + Seq::<char>::empty());
    }
    row
}

} // verus!
