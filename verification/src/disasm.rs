//! Disassembly of a function's address range: locating the code, running the disassembler
//! and annotating branch targets with symbol names.
use vstd::prelude::*;
use capstone::arch::BuildsCapstone;
use crate::error::AnnotateError;
use crate::types::Instruction;
use crate::elf::{ElfImage, ElfView, SectionEntry, SectionView, section_views, ArmMode, determine_arm_mode, arm_mode_spec, get_symbol_at, symbol_at, goblin_elf, SHT_PROGBITS, SHF_EXECINSTR, EM_X86_64, EM_ARM, EM_AARCH64};
use crate::text::{digit_char, radix_digits, chars_of, string_of, trim, trim_spec, push_all_chars, push_str};

verus! {

/// The disassembler configuration for an ELF machine.
#[derive(Debug, Clone, Copy, PartialEq, Eq, Structural)]
pub enum CapstoneArch {
    X86_64,
    Arm(ArmMode),
    Arm64,
}

/// The disassembler configuration for the function at `start`: by `e_machine`, with the ARM
/// instruction set taken from the function's symbol.
pub open spec fn arch_spec(e: ElfView, start: u64) -> Option<CapstoneArch> {
    if e.machine == EM_X86_64 {
        Some(CapstoneArch::X86_64)
    } else if e.machine == EM_ARM {
        Some(CapstoneArch::Arm(arm_mode_spec(e, start)))
    } else if e.machine == EM_AARCH64 {
        Some(CapstoneArch::Arm64)
    } else {
        None
    }
}

/// Chooses the disassembler configuration; fails with `UnsupportedArchitecture` for other
/// machines.
pub fn select_arch(elf: &ElfImage, start: u64) -> (r: Result<CapstoneArch, AnnotateError>)
    ensures
        match arch_spec(elf@, start) {
            Some(a) => r == Ok::<CapstoneArch, AnnotateError>(a),
            None => r matches Err(e) && e is UnsupportedArchitecture,
        },
{
    if elf.machine == EM_X86_64 {
        Ok(CapstoneArch::X86_64)
    } else if elf.machine == EM_ARM {
        Ok(CapstoneArch::Arm(determine_arm_mode(elf, start)))
    } else if elf.machine == EM_AARCH64 {
        Ok(CapstoneArch::Arm64)
    } else {
        Err(AnnotateError::UnsupportedArchitecture { machine: elf.machine })
    }
}

#[verifier::external_type_specification]
#[verifier::external_body]
pub struct ExCapstone(capstone::Capstone);

#[verifier::external_type_specification]
#[verifier::external_body]
pub struct ExCapstoneError(capstone::Error);

/// A disassembler handle together with the configuration it was opened with.
pub struct Disassembler {
    arch: CapstoneArch,
    cs: capstone::Capstone,
}

impl Disassembler {
    pub closed spec fn arch(&self) -> CapstoneArch {
        self.arch
    }
}

/// Whether `capstone` opens a disassembler for `arch` with the builder `capstone_open` uses.
pub uninterp spec fn capstone_opens(arch: CapstoneArch) -> bool;

/// Opens a disassembler with the builder of `capstone` for `arch` (detail on): x86 without
/// a mode, ARM in the given mode, AArch64 in ARM mode.
///
/// Claims that the build succeeds exactly when `capstone_opens` holds for the
/// configuration, and what capstone's source shows: the x86 builder without a mode refuses
/// to build.
#[verifier::external_body]
fn capstone_open(arch: CapstoneArch) -> (r: Result<Disassembler, capstone::Error>)
    ensures
        r is Ok <==> capstone_opens(arch),
        arch is X86_64 ==> r is Err,
        r matches Ok(d) ==> d.arch() == arch,
{
    let cs = match arch {
        CapstoneArch::X86_64 => capstone::Capstone::new().x86().detail(true).build(),
        CapstoneArch::Arm(ArmMode::Arm) => capstone::Capstone::new().arm().mode(capstone::arch::arm::ArchMode::Arm).detail(true).build(),
        CapstoneArch::Arm(ArmMode::Thumb) => capstone::Capstone::new().arm().mode(capstone::arch::arm::ArchMode::Thumb).detail(true).build(),
        CapstoneArch::Arm64 => capstone::Capstone::new().arm64().mode(capstone::arch::arm64::ArchMode::Arm).detail(true).build(),
    }?;
    Ok(Disassembler { arch, cs })
}

/// One instruction as the disassembler gives it.
#[derive(Debug, Clone)]
pub struct RawInsn {
    pub address: u64,
    pub bytes: Vec<u8>,
    pub mnemonic: Option<String>,
    pub op_str: Option<String>,
}

/// What a disassembled instruction holds.
pub struct RawInsnView {
    pub address: u64,
    pub bytes: Seq<u8>,
    pub mnemonic: Option<Seq<char>>,
    pub op_str: Option<Seq<char>>,
}

impl View for RawInsn {
    type V = RawInsnView;

    open spec fn view(&self) -> RawInsnView {
        RawInsnView {
            address: self.address,
            bytes: self.bytes@,
            mnemonic: crate::elf::opt_str(self.mnemonic),
            op_str: crate::elf::opt_str(self.op_str),
        }
    }
}

/// The disassembled instructions as views.
pub open spec fn raw_views(v: Seq<RawInsn>) -> Seq<RawInsnView> {
    v.map_values(|i: RawInsn| i@)
}

/// What `capstone` makes of `code` placed at `addr`, with the given configuration: the
/// decoded instructions, or nothing when `disasm_all` fails.
pub uninterp spec fn capstone_result(arch: CapstoneArch, code: Seq<u8>, addr: u64) -> Option<Seq<RawInsnView>>;

/// `Capstone::disasm_all` of `code` at `addr`, each instruction converted to plain values.
///
/// Claims that the call succeeds exactly when `capstone_result` has a value for the handle's
/// configuration, the code and the address, and then gives that value.
#[verifier::external_body]
fn capstone_disasm(d: &Disassembler, code: &[u8], addr: u64) -> (r: Result<Vec<RawInsn>, capstone::Error>)
    ensures
        r is Ok <==> capstone_result(d.arch(), code@, addr) is Some,
        r matches Ok(v) ==> capstone_result(d.arch(), code@, addr) == Some(raw_views(v@)),
{
    let insns = d.cs.disasm_all(code, addr)?;
    Ok(insns.iter().map(|i| RawInsn {
        address: i.address(), bytes: i.bytes().to_vec(),
        mnemonic: i.mnemonic().map(String::from), op_str: i.op_str().map(String::from),
    }).collect())
}

/// Index of the first executable program section that holds `[start, end)` entirely, from
/// `i` on.
pub open spec fn containing_section(secs: Seq<SectionView>, start: u64, end: u64, i: int) -> Option<int>
    decreases secs.len() - i,
{
    if i < 0 || i >= secs.len() {
        None
    } else if secs[i].kind == SHT_PROGBITS && secs[i].flags & SHF_EXECINSTR != 0 && secs[i].addr <= start
        && end <= (if secs[i].addr + secs[i].size > u64::MAX {
        u64::MAX as int
    } else {
        secs[i].addr + secs[i].size
    }) {
        Some(i)
    } else {
        containing_section(secs, start, end, i + 1)
    }
}

/// Finds the executable section that holds `[start, end)` and gives its bytes and address.
///
/// Fails with `NoExecutableSection` when none holds the range, and with `SectionOutOfBounds`
/// when that section's bytes lie past the end of the file.
pub fn find_containing_section<'a>(elf: &ElfImage, buffer: &'a [u8], start: u64, end: u64) -> (r: Result<(&'a [u8], u64), AnnotateError>)
    ensures
        match containing_section(elf@.sections, start, end, 0) {
            None => r matches Err(e) && e is NoExecutableSection,
            Some(i) => {
                let s = elf@.sections[i];
                if s.offset + s.size > buffer@.len() {
                    r matches Err(e) && e is SectionOutOfBounds
                } else {
                    r matches Ok(p) && p.0@ == buffer@.subrange(s.offset as int, s.offset + s.size) && p.1 == s.addr
                }
            },
        },
{
    let ghost secs = elf@.sections;
    let mut i: usize = 0;
    while i < elf.sections.len()
        invariant
            i <= elf.sections.len(),
            secs == elf@.sections,
            containing_section(secs, start, end, 0) == containing_section(secs, start, end, i as int),
        decreases elf.sections.len() - i,
    {
        let section = &elf.sections[i];
        assert(secs[i as int] == section@);
        if section.kind == SHT_PROGBITS && section.flags & SHF_EXECINSTR != 0 {
            let section_end = section.addr.saturating_add(section.size);
            if section.addr <= start && end <= section_end {
                if section.offset > buffer.len() as u64 || section.size > buffer.len() as u64 - section.offset {
                    return Err(AnnotateError::SectionOutOfBounds { offset: section.offset });
                }
                let off = section.offset as usize;
                let size = section.size as usize;
                return Ok((vstd::slice::slice_subrange(buffer, off, off + size), section.addr));
            }
        }
        i = i + 1;
    }
    Err(AnnotateError::NoExecutableSection { start, end })
}

/// Takes the bytes of `[start, end)` out of a section that starts at `section_addr`.
///
/// Fails with `StartBeforeSection` when the range starts before the section, and with
/// `RangeExceedsSection` when it ends past the section's bytes.
pub fn extract_code_range<'a>(section_data: &'a [u8], section_addr: u64, start: u64, end: u64) -> (r: Result<&'a [u8], AnnotateError>)
    requires
        start < section_addr || start <= end,
    ensures
        start < section_addr ==> (r matches Err(e) && e is StartBeforeSection),
        start >= section_addr && end - section_addr > section_data@.len() ==> (r matches Err(e) && e is RangeExceedsSection),
        start >= section_addr && end - section_addr <= section_data@.len() ==> (r matches Ok(c) && c@ == section_data@.subrange(start - section_addr, end - section_addr)),
{
    if start < section_addr {
        return Err(AnnotateError::StartBeforeSection { start, section_addr });
    }
    let offset_in_section = start - section_addr;
    let length = end - start;
    if offset_in_section + length > section_data.len() as u64 {
        return Err(AnnotateError::RangeExceedsSection { start, end, data_len: section_data.len() });
    }
    let a = offset_in_section as usize;
    let b = (offset_in_section + length) as usize;
    Ok(vstd::slice::slice_subrange(section_data, a, b))
}

/// A hexadecimal digit `[0-9a-fA-F]`.
pub open spec fn is_hex_char(c: char) -> bool {
    ('0' <= c && c <= '9') || ('a' <= c && c <= 'f') || ('A' <= c && c <= 'F')
}

/// The value of a hexadecimal digit.
pub open spec fn hex_digit_value(c: char) -> int {
    if '0' <= c && c <= '9' {
        c as int - '0' as int
    } else if 'a' <= c && c <= 'f' {
        c as int - 'a' as int + 10
    } else {
        c as int - 'A' as int + 10
    }
}

/// The value of a string of hexadecimal digits.
pub open spec fn hex_value(ds: Seq<char>) -> int
    decreases ds.len(),
{
    if ds.len() == 0 {
        0
    } else {
        hex_value(ds.drop_last()) * 16 + hex_digit_value(ds.last())
    }
}

/// The end of the run of hexadecimal digits of `s` that starts at `j`.
pub open spec fn hex_end(s: Seq<char>, j: int) -> int
    decreases s.len() - j,
{
    if 0 <= j < s.len() && is_hex_char(s[j]) {
        hex_end(s, j + 1)
    } else {
        j
    }
}

/// `0x` followed by a hexadecimal digit starts at `q`.
pub open spec fn hex_literal_at(s: Seq<char>, q: int) -> bool {
    0 <= q && q + 2 < s.len() && s[q] == '0' && s[q + 1] == 'x' && is_hex_char(s[q + 2])
}

/// The address that an operand string names: the first `0x` literal (what
/// `#?(0x[0-9a-fA-F]+)` captures first), when its value fits in 64 bits.
pub open spec fn branch_target(op: Seq<char>) -> Option<u64> {
    if exists|q: int| hex_literal_at(op, q) {
        let q = choose|q: int| hex_literal_at(op, q) && forall|k: int| 0 <= k < q ==> !#[trigger] hex_literal_at(op, k);
        let v = hex_value(op.subrange(q + 2, hex_end(op, q + 2)));
        if v <= u64::MAX {
            Some(v as u64)
        } else {
            None
        }
    } else {
        None
    }
}

proof fn lemma_hex_end(s: Seq<char>, j: int)
    requires
        0 <= j <= s.len(),
    ensures
        j <= hex_end(s, j) <= s.len(),
    decreases s.len() - j,
{
    if j < s.len() && is_hex_char(s[j]) {
        lemma_hex_end(s, j + 1);
    }
}

proof fn lemma_hex_value_nonneg(ds: Seq<char>)
    requires
        forall|k: int| 0 <= k < ds.len() ==> is_hex_char(#[trigger] ds[k]),
    ensures
        hex_value(ds) >= 0,
    decreases ds.len(),
{
    if ds.len() > 0 {
        lemma_hex_value_nonneg(ds.drop_last());
    }
}

/// Writing `n` in base 16 (lower-case digits) gives hexadecimal digits whose value is `n`.
pub proof fn lemma_hex_digits(n: nat)
    ensures
        radix_digits(n, 16).len() > 0,
        forall|k: int| 0 <= k < radix_digits(n, 16).len() ==> is_hex_char(#[trigger] radix_digits(n, 16)[k]),
        hex_value(radix_digits(n, 16)) == n,
    decreases n,
{
    let d = radix_digits(n, 16);
    if n < 16 {
        assert(d == seq![digit_char(n as int)]);
        assert(d.drop_last() =~= Seq::<char>::empty());
        assert(hex_value(d.drop_last()) == 0);
        assert(hex_value(d) == hex_value(d.drop_last()) * 16 + hex_digit_value(d.last()));
    } else {
        let q = n / 16;
        let m = n % 16;
        assert(q < n && m < 16 && q * 16 + m == n) by (nonlinear_arith)
            requires
                q == n / 16,
                m == n % 16,
                n >= 16,
        ;
        lemma_hex_digits(q);
        assert(d == radix_digits(q, 16).push(digit_char(m as int)));
        assert(d.drop_last() =~= radix_digits(q, 16));
        assert(d.last() == digit_char(m as int));
        assert(hex_value(d) == hex_value(d.drop_last()) * 16 + hex_digit_value(d.last()));
        assert forall|k: int| 0 <= k < d.len() implies is_hex_char(#[trigger] d[k]) by {
            if k < d.len() - 1 {
                assert(d[k] == radix_digits(q, 16)[k]);
            }
        }
    }
}

proof fn lemma_hex_end_all(s: Seq<char>, j: int)
    requires
        0 <= j <= s.len(),
        forall|k: int| j <= k < s.len() ==> is_hex_char(#[trigger] s[k]),
    ensures
        hex_end(s, j) == s.len(),
    decreases s.len() - j,
{
    if j < s.len() {
        lemma_hex_end_all(s, j + 1);
    }
}

/// A branch operand `#0x` followed by the hexadecimal digits of `n` names the address `n`:
/// the digits are read in base 16, `a`..`f` worth 10 to 15.
pub proof fn lemma_branch_target_hex(n: u64)
    ensures
        branch_target(seq!['#', '0', 'x'] + radix_digits(n as nat, 16)) == Some(n),
{
    let h = radix_digits(n as nat, 16);
    let op = seq!['#', '0', 'x'] + h;
    lemma_hex_digits(n as nat);
    assert(is_hex_char(op[3]));
    assert(hex_literal_at(op, 1));
    assert(!hex_literal_at(op, 0));
    let q = choose|q: int| hex_literal_at(op, q) && forall|k: int| 0 <= k < q ==> !#[trigger] hex_literal_at(op, k);
    assert(q == 1) by {
        if q > 1 {
            assert(!hex_literal_at(op, 1));
        }
    }
    assert forall|k: int| 3 <= k < op.len() implies is_hex_char(#[trigger] op[k]) by {
        assert(op[k] == h[k - 3]);
    }
    lemma_hex_end_all(op, 3);
    assert(op.subrange(3, op.len() as int) =~= h);
}

/// `c` with `a`..`f` written in upper case.
pub open spec fn upper_hex(c: char) -> char {
    if 'a' <= c && c <= 'f' {
        ((c as u32) - 32) as char
    } else {
        c
    }
}

/// `h` with `a`..`f` written in upper case.
pub open spec fn upper_hex_digits(h: Seq<char>) -> Seq<char> {
    h.map_values(|c: char| upper_hex(c))
}

proof fn lemma_upper_hex_value(h: Seq<char>)
    requires
        forall|k: int| 0 <= k < h.len() ==> is_hex_char(#[trigger] h[k]),
    ensures
        hex_value(upper_hex_digits(h)) == hex_value(h),
        forall|k: int| 0 <= k < h.len() ==> is_hex_char(#[trigger] upper_hex_digits(h)[k]),
    decreases h.len(),
{
    let u = upper_hex_digits(h);
    if h.len() > 0 {
        lemma_upper_hex_value(h.drop_last());
        assert(u.drop_last() =~= upper_hex_digits(h.drop_last()));
        let c = h.last();
        assert(u.last() == upper_hex(c));
        assert(hex_digit_value(upper_hex(c)) == hex_digit_value(c));
    }
}

/// Upper-case hexadecimal digits are read as the lower-case ones: `#0x` followed by the
/// digits of `n` with `A`..`F` in place of `a`..`f` also names `n`.
pub proof fn lemma_branch_target_upper_hex(n: u64)
    ensures
        branch_target(seq!['#', '0', 'x'] + upper_hex_digits(radix_digits(n as nat, 16))) == Some(n),
{
    let h0 = radix_digits(n as nat, 16);
    lemma_hex_digits(n as nat);
    lemma_upper_hex_value(h0);
    let h = upper_hex_digits(h0);
    let op = seq!['#', '0', 'x'] + h;
    assert(is_hex_char(op[3]));
    assert(hex_literal_at(op, 1));
    assert(!hex_literal_at(op, 0));
    let q = choose|q: int| hex_literal_at(op, q) && forall|k: int| 0 <= k < q ==> !#[trigger] hex_literal_at(op, k);
    assert(q == 1) by {
        if q > 1 {
            assert(!hex_literal_at(op, 1));
        }
    }
    assert forall|k: int| 3 <= k < op.len() implies is_hex_char(#[trigger] op[k]) by {
        assert(op[k] == h[k - 3]);
    }
    lemma_hex_end_all(op, 3);
    assert(op.subrange(3, op.len() as int) =~= h);
}

fn hex_char(c: char) -> (r: bool)
    ensures
        r == is_hex_char(c),
{
    ('0' <= c && c <= '9') || ('a' <= c && c <= 'f') || ('A' <= c && c <= 'F')
}

/// The branch target named in an operand string (see `branch_target`).
pub fn parse_branch_target(op: &[char]) -> (r: Option<u64>)
    ensures
        r == branch_target(op@),
{
    let ghost s = op@;
    let mut q: usize = 0;
    while q < op.len()
        invariant
            s == op@,
            q <= op.len(),
            forall|k: int| 0 <= k < q ==> !#[trigger] hex_literal_at(s, k),
        decreases op.len() - q,
    {
        if op.len() - q > 2 && op[q] == '0' && op[q + 1] == 'x' && hex_char(op[q + 2]) {
            proof {
                assert(hex_literal_at(s, q as int));
                let c = choose|c: int| hex_literal_at(s, c) && forall|k: int| 0 <= k < c ==> !#[trigger] hex_literal_at(s, k);
                assert(c == q) by {
                    if c > q {
                        assert(!hex_literal_at(s, q as int));
                    }
                }
                lemma_hex_end(s, q + 2);
            }
            let mut e = q + 2;
            let mut v: u128 = 0;
            let mut overflow = false;
            assert(s.subrange(q + 2, q + 2) =~= Seq::<char>::empty());
            while e < op.len() && hex_char(op[e])
                invariant
                    s == op@,
                    q + 2 <= e <= op.len(),
                    hex_end(s, q + 2) == hex_end(s, e as int),
                    forall|k: int| q + 2 <= k < e ==> is_hex_char(#[trigger] s[k]),
                    !overflow ==> v == hex_value(s.subrange(q + 2, e as int)) && v <= u64::MAX,
                    overflow ==> hex_value(s.subrange(q + 2, e as int)) > u64::MAX,
                decreases op.len() - e,
            {
                let c = op[e];
                let d: u128 = if '0' <= c && c <= '9' {
                    (c as u32 - '0' as u32) as u128
                } else if 'a' <= c && c <= 'f' {
                    (c as u32 - 'a' as u32 + 10) as u128
                } else {
                    (c as u32 - 'A' as u32 + 10) as u128
                };
                let ghost sub = s.subrange(q + 2, e as int + 1);
                assert(sub.drop_last() == s.subrange(q + 2, e as int));
                assert(sub.last() == c);
                assert(d == hex_digit_value(c));
                proof {
                    lemma_hex_value_nonneg(s.subrange(q + 2, e as int));
                }
                if !overflow {
                    let nv = v * 16 + d;
                    if nv > u64::MAX as u128 {
                        overflow = true;
                    } else {
                        v = nv;
                    }
                } else {
                    assert(hex_value(sub) > u64::MAX) by (nonlinear_arith)
                        requires
                            hex_value(sub) == hex_value(s.subrange(q + 2, e as int)) * 16 + d,
                            hex_value(s.subrange(q + 2, e as int)) > u64::MAX,
                            d >= 0;
                }
                e = e + 1;
            }
            if overflow {
                return None;
            } else {
                return Some(v as u64);
            }
        }
        q = q + 1;
    }
    None
}

/// The lowercase hexadecimal digit for `n < 16`.
pub open spec fn hex_digit_char(n: int) -> char {
    if n < 10 {
        ((n + '0' as int) as u32) as char
    } else {
        ((n - 10 + 'a' as int) as u32) as char
    }
}

fn hex_digit_exec(n: u8) -> (r: char)
    requires
        n < 16,
    ensures
        r == hex_digit_char(n as int),
{
    let digits = ['0', '1', '2', '3', '4', '5', '6', '7', '8', '9', 'a', 'b', 'c', 'd', 'e', 'f'];
    assert(digits@ =~= seq!['0', '1', '2', '3', '4', '5', '6', '7', '8', '9', 'a', 'b', 'c', 'd', 'e', 'f']);
    let c = digits[n as usize];
    assert(c == hex_digit_char(n as int)) by {
        assert(('0' as u32) == 48 && ('a' as u32) == 97);
    }
    c
}

/// Bytes written as two lowercase hexadecimal digits each, separated by single spaces.
pub open spec fn bytes_hex(bs: Seq<u8>) -> Seq<char>
    decreases bs.len(),
{
    if bs.len() == 0 {
        seq![]
    } else if bs.len() == 1 {
        seq![hex_digit_char(bs[0] as int / 16), hex_digit_char(bs[0] as int % 16)]
    } else {
        bytes_hex(bs.drop_last()) + seq![' ', hex_digit_char(bs.last() as int / 16), hex_digit_char(bs.last() as int % 16)]
    }
}

/// Writes bytes as space-separated lowercase hexadecimal pairs.
pub fn format_bytes_hex(bs: &[u8]) -> (r: String)
    ensures
        r@ == bytes_hex(bs@),
{
    let mut out: Vec<char> = Vec::new();
    let mut i: usize = 0;
    assert(bs@.take(0) =~= Seq::<u8>::empty());
    while i < bs.len()
        invariant
            i <= bs.len(),
            out@ == bytes_hex(bs@.take(i as int)),
        decreases bs.len() - i,
    {
        let b = bs[i];
        assert(bs@.take(i as int + 1).drop_last() == bs@.take(i as int));
        assert(bs@.take(i as int + 1).last() == b);
        if i > 0 {
            out.push(' ');
        }
        out.push(hex_digit_exec(b / 16));
        out.push(hex_digit_exec(b % 16));
        proof {
            if i == 0 {
                assert(out@ =~= bytes_hex(bs@.take(1)));
            } else {
                assert(out@ =~= bytes_hex(bs@.take(i as int + 1)));
            }
        }
        i = i + 1;
    }
    assert(bs@.take(bs.len() as int) == bs@);
    string_of(out.as_slice())
}

/// Whether a mnemonic is a branch or call, whose operand may name a symbol.
pub open spec fn is_branch(m: Seq<char>) -> bool {
    (m.len() > 0 && m[0] == 'b') || m == seq!['c', 'a', 'l', 'l'] || m == seq!['j', 'm', 'p']
}

/// The text of an instruction: mnemonic and operands (trimmed), followed by `  ; <name>`
/// when it is a branch whose first `0x` operand literal lies in a known symbol.
pub open spec fn annotated_text(m: Seq<char>, op: Seq<char>, e: ElfView) -> Seq<char> {
    let full = trim_spec(m + seq![' '] + op);
    if is_branch(m) && branch_target(op) is Some && symbol_at(e, branch_target(op)->0) is Some {
        full + seq![' ', ' ', ';', ' ', '<'] + symbol_at(e, branch_target(op)->0)->0 + seq!['>']
    } else {
        full
    }
}

/// Formats an instruction's text and names its branch target (see `annotated_text`).
#[verifier::rlimit(40)]
pub fn annotate_instruction(mnemonic: &str, op_str: &str, elf: &ElfImage) -> (r: String)
    ensures
        r@ == annotated_text(mnemonic@, op_str@, elf@),
{
    let mut joined = mnemonic.to_string();
    push_str(&mut joined, " ");
    push_str(&mut joined, op_str);
    let mut full = trim(joined.as_str());
    let m = chars_of(mnemonic);
    let branch = (m.len() > 0 && m[0] == 'b') || crate::text::chars_eq(m.as_slice(), &['c', 'a', 'l', 'l']) || crate::text::chars_eq(m.as_slice(), &['j', 'm', 'p']);
    assert(['c', 'a', 'l', 'l']@ =~= seq!['c', 'a', 'l', 'l']);
    assert(['j', 'm', 'p']@ =~= seq!['j', 'm', 'p']);
    assert(" "@ =~= seq![' ']) by {
        reveal_strlit(" ");
    }
    if branch {
        let op = chars_of(op_str);
        match parse_branch_target(op.as_slice()) {
            Some(target) => {
                match get_symbol_at(elf, target) {
                    Ok(Some(symbol)) => {
                        let mut suffix: Vec<char> = vec![' ', ' ', ';', ' ', '<'];
                        let sc = chars_of(symbol.as_str());
                        push_all_chars(&mut suffix, sc.as_slice());
                        suffix.push('>');
                        let ghost f0 = full@;
                        crate::text::push_chars(&mut full, suffix.as_slice());
                        assert(full@ =~= f0 + seq![' ', ' ', ';', ' ', '<'] + symbol@ + seq!['>']);
                    },
                    _ => {},
                }
            },
            None => {},
        }
    }
    full
}

/// An instruction from the disassembler's output: its bytes in hexadecimal and its text
/// annotated with branch targets.
pub open spec fn instruction_of(raw: RawInsnView, e: ElfView) -> (u64, Seq<char>, Seq<char>) {
    (
        raw.address,
        bytes_hex(raw.bytes),
        annotated_text(
            match raw.mnemonic {
                Some(m) => m,
                None => seq![],
            },
            match raw.op_str {
                Some(o) => o,
                None => seq![],
            },
            e,
        ),
    )
}

/// The instructions as (address, bytes, text).
pub open spec fn instruction_views(v: Seq<Instruction>) -> Seq<(u64, Seq<char>, Seq<char>)> {
    v.map_values(|i: Instruction| (i.address, i.bytes@, i.mnemonic@))
}

/// Turns disassembler output into annotated instructions.
pub fn perform_disassembly(raw: &Vec<RawInsn>, elf: &ElfImage) -> (r: Vec<Instruction>)
    ensures
        r.len() == raw.len(),
        forall|i: int| 0 <= i < r.len() ==> #[trigger] instruction_views(r@)[i] == instruction_of(raw[i]@, elf@),
{
    let mut out: Vec<Instruction> = Vec::new();
    let mut i: usize = 0;
    while i < raw.len()
        invariant
            i <= raw.len(),
            out.len() == i,
            forall|k: int| 0 <= k < i ==> #[trigger] instruction_views(out@)[k] == instruction_of(raw[k]@, elf@),
        decreases raw.len() - i,
    {
        let insn = &raw[i];
        let empty = String::new();
        let m = match &insn.mnemonic {
            Some(m) => m,
            None => &empty,
        };
        let o = match &insn.op_str {
            Some(o) => o,
            None => &empty,
        };
        let inst = Instruction {
            address: insn.address,
            bytes: format_bytes_hex(insn.bytes.as_slice()),
            mnemonic: annotate_instruction(m.as_str(), o.as_str(), elf),
        };
        let ghost o0 = out@;
        out.push(inst);
        assert(instruction_views(out@) =~= instruction_views(o0).push((inst.address, inst.bytes@, inst.mnemonic@)));
        i = i + 1;
    }
    out
}

/// The bytes of `[start, end)` in the file: from the first executable section that holds
/// the range, when that section's bytes lie within the file and the range within them.
pub open spec fn function_code(e: ElfView, bytes: Seq<u8>, start: u64, end: u64) -> Option<Seq<u8>> {
    match containing_section(e.sections, start, end, 0) {
        None => None,
        Some(i) => {
            let s = e.sections[i];
            if s.offset + s.size > bytes.len() || start < s.addr || end - s.addr > s.size {
                None
            } else {
                Some(bytes.subrange(s.offset + (start - s.addr), s.offset + (end - s.addr)))
            }
        },
    }
}

/// Disassembly gets as far as cutting the code out of its section: the file parses, the
/// machine is supported, the disassembler opens, a section holds the range within the file
/// and the range starts in it.
pub open spec fn code_range_reached(bytes: Seq<u8>, start: u64, end: u64) -> bool {
    match goblin_elf(bytes) {
        None => false,
        Some(e) => match arch_spec(e, start) {
            None => false,
            Some(a) => capstone_opens(a) && match containing_section(e.sections, start, end, 0) {
                None => false,
                Some(i) => e.sections[i].offset + e.sections[i].size <= bytes.len() && start >= e.sections[i].addr,
            },
        },
    }
}

/// Disassembles the function range `[start, end)` of an ELF file.
///
/// In order: the bytes must parse as ELF (`ElfParse`); the machine must be supported
/// (`UnsupportedArchitecture`); the disassembler must open (`CapstoneInit`; never for
/// x86-64, whose builder has no mode); an executable section must hold the range
/// (`NoExecutableSection`, `SectionOutOfBounds`, `StartBeforeSection`,
/// `RangeExceedsSection`); the disassembler must decode the code (`Disassembly`); then
/// its listing is annotated. A range that ends before it starts is only accepted where one
/// of the earlier checks fails.
pub fn disassemble_range(elf_bytes: &[u8], start: u64, end: u64) -> (r: Result<Vec<Instruction>, AnnotateError>)
    requires
        start <= end || !code_range_reached(elf_bytes@, start, end),
    ensures
        goblin_elf(elf_bytes@) is None ==> (r matches Err(e) && e is ElfParse),
        goblin_elf(elf_bytes@) matches Some(e) && arch_spec(e, start) is None ==> (r matches Err(x) && x is UnsupportedArchitecture),
        goblin_elf(elf_bytes@) matches Some(e) && arch_spec(e, start) matches Some(a) && !capstone_opens(a) ==> (r matches Err(x) && x is CapstoneInit),
        goblin_elf(elf_bytes@) matches Some(e) && arch_spec(e, start) == Some(CapstoneArch::X86_64) ==> (r matches Err(x) && x is CapstoneInit),
        goblin_elf(elf_bytes@) matches Some(e) && arch_spec(e, start) matches Some(a) && capstone_opens(a) && function_code(e, elf_bytes@, start, end) is None ==> r is Err,
        goblin_elf(elf_bytes@) matches Some(e) ==> (arch_spec(e, start) matches Some(a) ==> (capstone_opens(a) ==> (function_code(e, elf_bytes@, start, end) matches Some(code) ==> {
            &&& (capstone_result(a, code, start) is None ==> (r matches Err(x) && x is Disassembly))
            &&& (capstone_result(a, code, start) is Some ==> r is Ok)
        }))),
        r matches Ok(insts) ==> goblin_elf(elf_bytes@) matches Some(e) && arch_spec(e, start) matches Some(a) && function_code(e, elf_bytes@, start, end) matches Some(code) && {
            let listing = capstone_result(a, code, start)->0;
            &&& capstone_opens(a)
            &&& capstone_result(a, code, start) is Some
            &&& insts.len() == listing.len()
            &&& forall|i: int| 0 <= i < insts.len() ==> #[trigger] instruction_views(insts@)[i] == instruction_of(listing[i], e)
        },
{
    let elf = ElfImage::parse(elf_bytes)?;
    let arch = select_arch(&elf, start)?;
    let cs = match capstone_open(arch) {
        Ok(d) => d,
        Err(_) => return Err(AnnotateError::CapstoneInit),
    };
    let (section_data, section_addr) = find_containing_section(&elf, elf_bytes, start, end)?;
    let code = extract_code_range(section_data, section_addr, start, end)?;
    proof {
        let i = containing_section(elf@.sections, start, end, 0)->0;
        let sec = elf@.sections[i];
        assert(code@ =~= elf_bytes@.subrange(sec.offset + (start - sec.addr), sec.offset + (end - sec.addr)));
        assert(function_code(elf@, elf_bytes@, start, end) == Some(code@));
    }
    let raw = match capstone_disasm(&cs, code, start) {
        Ok(v) => v,
        Err(_) => return Err(AnnotateError::Disassembly),
    };
    let insts = perform_disassembly(&raw, &elf);
    proof {
        let i = containing_section(elf@.sections, start, end, 0)->0;
        let sec = elf@.sections[i];
        assert(code@ =~= elf_bytes@.subrange(sec.offset + (start - sec.addr), sec.offset + (end - sec.addr)));
        let listing = capstone_result(arch, code@, start)->0;
        assert forall|i: int| 0 <= i < insts.len() implies #[trigger] instruction_views(insts@)[i] == instruction_of(listing[i], elf@) by {
            assert(raw[i]@ == raw_views(raw@)[i]);
        }
    }
    Ok(insts)
}

} // verus!
