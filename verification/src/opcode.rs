//! A self-contained scanner over a raw machine-code byte slice: it walks the
//! section stream in place, with little-endian composed operand indices and
//! signed 32-bit fields throughout. It complements the cursor-based parser
//! for quick structural passes that need no pool bookkeeping.
use vstd::prelude::*;

use crate::errors::DumpError;
use crate::instruction::{spec_arity, spec_instr_size, spec_mnemonic};
use crate::ksm_reader::le_bytes_val;
use crate::sections::code_end;

verus! {

/// A scanned instruction: the opcode and its zero, one or two operand
/// indices.
#[derive(Debug)]
pub enum Instr {
    NoOperand(u8),
    SingleOperand(u8, i32),
    DoubleOperand(u8, i32, i32),
}

/// The role of a scanned code section.
#[derive(PartialEq, Eq, Debug, Copy, Clone, Structural)]
pub enum SectionType {
    FUNCTION,
    INITIALIZATION,
    MAIN,
}

/// A scanned code section: its role, its instructions, and the summed size
/// of its instruction bytes.
#[derive(Debug)]
pub struct CodeSection {
    pub section_type: SectionType,
    pub instructions: Vec<Instr>,
    pub size: i32,
}

/// A scanned debug section: the declared range-address width and the
/// entries to the end of the buffer.
#[derive(Debug)]
pub struct DebugSection {
    pub range_size: i32,
    pub debug_entries: Vec<DebugEntry>,
}

/// One scanned debug entry: a line number and its address ranges.
#[derive(Debug)]
pub struct DebugEntry {
    pub line_number: i32,
    pub number_ranges: i32,
    pub ranges: Vec<(i32, i32)>,
}

/// The operand count of a scanned instruction.
pub open spec fn spec_op_count(instr: Instr) -> int {
    match instr {
        Instr::NoOperand(_) => 0,
        Instr::SingleOperand(_, _) => 1,
        Instr::DoubleOperand(_, _, _) => 2,
    }
}

/// The opcode of a scanned instruction.
pub open spec fn spec_op_opcode(instr: Instr) -> u8 {
    match instr {
        Instr::NoOperand(op) => op,
        Instr::SingleOperand(op, _) => op,
        Instr::DoubleOperand(op, _, _) => op,
    }
}

/// The signed 32-bit value this scanner composes from `w` little-endian
/// bytes: one byte is taken unsigned, two bytes sign extend, three bytes
/// zero extend, four bytes reinterpret as signed.
pub open spec fn spec_le_field(s: Seq<u8>, i: int, w: int) -> int {
    if w == 1 {
        s[i] as int
    } else if w == 2 {
        ((le_bytes_val(s, i, 2) as u16) as i16) as int
    } else if w == 3 {
        le_bytes_val(s, i, 3)
    } else {
        ((le_bytes_val(s, i, 4) as u32) as i32) as int
    }
}

/// The scanned instruction `instr` is exactly what decoding `s` at offset
/// `i` with index width `w` yields.
pub open spec fn op_instr_decodes_at(s: Seq<u8>, i: int, w: int, instr: Instr) -> bool {
    &&& 0 <= i < s.len()
    &&& spec_op_opcode(instr) == s[i]
    &&& Some(spec_op_count(instr) as u8) == spec_arity(spec_op_opcode(instr))
    &&& i + spec_instr_size(spec_op_count(instr), w) <= s.len()
    &&& (instr matches Instr::SingleOperand(_, v1) ==> v1 as int == spec_le_field(s, i + 1, w))
    &&& (instr matches Instr::DoubleOperand(_, v1, v2) ==> v1 as int == spec_le_field(s, i + 1, w)
        && v2 as int == spec_le_field(s, i + 1 + w, w))
}

/// Whether debug entries fill `s` from offset `i` exactly to the end of
/// the buffer, their range addresses `w` bytes wide (a width the reader
/// accepts only between one and four where ranges are present).
pub open spec fn sc_debug_fill(s: Seq<u8>, i: int, w: int) -> bool
    decreases s.len() - i,
{
    if i >= s.len() {
        i == s.len()
    } else if i + 3 > s.len() {
        false
    } else if s[i + 2] == 0 {
        sc_debug_fill(s, i + 3, w)
    } else {
        &&& 1 <= w <= 4
        &&& i + 3 + s[i + 2] * 2 * w <= s.len()
        &&& s[i + 2] * 2 * w >= 0
        &&& sc_debug_fill(s, i + 3 + s[i + 2] * 2 * w, w)
    }
}

/// The size in bytes of a scanned instruction: one opcode byte plus one
/// index of `index_bytes` bytes per operand.
pub fn size_of_instr(instr: &Instr, index_bytes: i32) -> (r: i32)
    requires
        0 <= index_bytes <= 4,
    ensures
        r == spec_instr_size(spec_op_count(*instr), index_bytes as int),
{
    let num_operands: i32 = match instr {
        Instr::NoOperand(_) => 0,
        Instr::SingleOperand(_, _) => 1,
        Instr::DoubleOperand(_, _, _) => 2,
    };
    proof {
        assert(num_operands * index_bytes <= 8) by (nonlinear_arith)
            requires
                0 <= num_operands <= 2,
                0 <= index_bytes <= 4,
        ;
        assert(num_operands * index_bytes >= 0) by (nonlinear_arith)
            requires
                0 <= num_operands,
                0 <= index_bytes,
        ;
    }
    num_operands * index_bytes + 1
}

/// The mnemonic of an opcode; `bogus` for one outside the table.
pub fn get_instr_mnemonic(opcode: u8) -> (r: String)
    ensures
        r@ == spec_mnemonic(opcode),
{
    let carrier = crate::instruction::Instr::new(opcode, 1, 0, Vec::new());
    String::from_str(carrier.get_mnemonic())
}

/// The operand count of an opcode, or a negative count for an opcode
/// outside the table.
fn get_num_operands(opcode: u8) -> (r: i32)
    ensures
        r == match spec_arity(opcode) {
            Some(n) => n as int,
            None => -1,
        },
{
    let n = crate::instruction::Instr::opcode_num_operands(opcode);
    if n == 255 {
        -1
    } else {
        n as i32
    }
}

/// Reads `data_size` little-endian bytes at the position into a signed
/// 32-bit field, advancing the position; `None` where the bytes run out or
/// the width is outside one to four.
fn read_bytes_as_i32(bytes: &[u8], pos: &mut usize, data_size: usize) -> (r: Option<i32>)
    requires
        *old(pos) <= bytes@.len(),
    ensures
        *final(pos) <= bytes@.len(),
        r is Some <==> (1 <= data_size <= 4 && *old(pos) + data_size <= bytes@.len()),
        r matches Some(v) ==> {
            &&& v as int == spec_le_field(bytes@, *old(pos) as int, data_size as int)
            &&& *final(pos) == *old(pos) + data_size
        },
{
    if data_size < 1 || data_size > 4 {
        return None;
    }
    if data_size > bytes.len() - *pos {
        return None;
    }
    let i = *pos;
    proof {
        reveal_with_fuel(le_bytes_val, 5);
    }
    let v: i32 = if data_size == 1 {
        bytes[i] as i32
    } else if data_size == 2 {
        let u: u16 = (bytes[i] as u16) + 0x100 * (bytes[i + 1] as u16);
        (u as i16) as i32
    } else if data_size == 3 {
        (bytes[i] as i32) + 0x100 * ((bytes[i + 1] as i32) + 0x100 * (bytes[i + 2] as i32))
    } else {
        let u: u32 = (bytes[i] as u32) + 0x100 * ((bytes[i + 1] as u32) + 0x100 * ((bytes[i
            + 2] as u32) + 0x100 * (bytes[i + 3] as u32)));
        u as i32
    };
    *pos = *pos + data_size;
    Some(v)
}

/// Scans one instruction at the position: the opcode byte, then its
/// operand indices; `None` where the opcode is unknown or the bytes run
/// out.
#[verifier::rlimit(30)]
fn read_instr(bytes: &[u8], pos: &mut usize, index_bytes: i32) -> (r: Option<Instr>)
    requires
        *old(pos) <= bytes@.len(),
        1 <= index_bytes <= 4,
    ensures
        *final(pos) <= bytes@.len(),
        r is Some <==> (*old(pos) < bytes@.len() && spec_arity(bytes@[*old(pos) as int]) is Some
            && *old(pos) + spec_instr_size(
            spec_arity(bytes@[*old(pos) as int]).unwrap() as int,
            index_bytes as int,
        ) <= bytes@.len()),
        r matches Some(instr) ==> {
            &&& op_instr_decodes_at(bytes@, *old(pos) as int, index_bytes as int, instr)
            &&& *final(pos) == *old(pos) + spec_instr_size(
                spec_op_count(instr),
                index_bytes as int,
            )
        },
{
    if *pos >= bytes.len() {
        return None;
    }
    let opcode = bytes[*pos];
    *pos = *pos + 1;
    let num_operands = get_num_operands(opcode);
    if num_operands == 0 {
        Some(Instr::NoOperand(opcode))
    } else if num_operands == 1 {
        let arg_index = match read_bytes_as_i32(bytes, pos, index_bytes as usize) {
            Some(v) => v,
            None => {
                proof {
                    assert(spec_instr_size(1int, index_bytes as int) == 1 + index_bytes);
                }
                return None;
            },
        };
        Some(Instr::SingleOperand(opcode, arg_index))
    } else if num_operands == 2 {
        let arg1_index = match read_bytes_as_i32(bytes, pos, index_bytes as usize) {
            Some(v) => v,
            None => {
                proof {
                    assert(spec_instr_size(2int, index_bytes as int) == 1 + 2 * index_bytes);
                }
                return None;
            },
        };
        let arg2_index = match read_bytes_as_i32(bytes, pos, index_bytes as usize) {
            Some(v) => v,
            None => {
                proof {
                    assert(spec_instr_size(2int, index_bytes as int) == 1 + 2 * index_bytes);
                }
                return None;
            },
        };
        Some(Instr::DoubleOperand(opcode, arg1_index, arg2_index))
    } else {
        None
    }
}

/// The summed sizes of the first `j` scanned instructions.
pub open spec fn op_instrs_size(instrs: Seq<Instr>, w: int, j: int) -> int
    decreases j,
{
    if j <= 0 {
        0
    } else {
        op_instrs_size(instrs, w, j - 1) + spec_instr_size(spec_op_count(instrs[j - 1]), w)
    }
}

proof fn lemma_op_instrs_size_push(instrs: Seq<Instr>, w: int, x: Instr, j: int)
    requires
        0 <= j <= instrs.len(),
    ensures
        op_instrs_size(instrs.push(x), w, j) == op_instrs_size(instrs, w, j),
    decreases j,
{
    if j > 0 {
        lemma_op_instrs_size_push(instrs, w, x, j - 1);
        assert(instrs.push(x)[j - 1] == instrs[j - 1]);
    }
}

/// Scans one code section body: instructions until the next `%` marker.
/// The reported size is the sum of the instruction sizes. On failure the
/// second part of the pair says what ran out.
fn read_code_section(bytes: &[u8], pos: &mut usize, index_bytes: i32, section_type: SectionType)
    -> (r: (Option<CodeSection>, String))
    requires
        *old(pos) <= bytes@.len(),
        1 <= index_bytes <= 4,
        bytes@.len() < 0x7fff0000,
    ensures
        *final(pos) <= bytes@.len(),
        r.0 is Some <==> code_end(bytes@, *old(pos) as int, index_bytes as int) is Some,
        r.0 matches Some(sec) ==> {
            &&& sec.section_type == section_type
            &&& sec.size as int == op_instrs_size(
                sec.instructions@,
                index_bytes as int,
                sec.instructions@.len() as int,
            )
            &&& sec.size >= 0
            &&& *final(pos) == *old(pos) + sec.size
            &&& *final(pos) < bytes@.len()
            &&& bytes@[*final(pos) as int] == 0x25
            &&& code_end(bytes@, *old(pos) as int, index_bytes as int) == Some(
                *old(pos) + sec.size,
            )
            &&& forall|j: int|
                0 <= j < sec.instructions@.len() ==> op_instr_decodes_at(
                    bytes@,
                    *old(pos) + op_instrs_size(sec.instructions@, index_bytes as int, j),
                    index_bytes as int,
                    #[trigger] sec.instructions@[j],
                )
        },
{
    let ghost s = bytes@;
    let mut section_size: i32 = 0;
    let mut instructions_list: Vec<Instr> = Vec::new();
    let ghost start = *pos as int;
    loop
        invariant
            *pos <= s.len(),
            s == bytes@,
            s.len() < 0x7fff0000,
            1 <= index_bytes <= 4,
            0 <= start <= *pos,
            start == *old(pos),
            code_end(s, start, index_bytes as int) == code_end(s, *pos as int, index_bytes as int),
            section_size as int == op_instrs_size(
                instructions_list@,
                index_bytes as int,
                instructions_list@.len() as int,
            ),
            section_size as int == *pos - start,
            forall|j: int|
                0 <= j < instructions_list@.len() ==> op_instr_decodes_at(
                    s,
                    start + op_instrs_size(instructions_list@, index_bytes as int, j),
                    index_bytes as int,
                    #[trigger] instructions_list@[j],
                ),
        ensures
            *pos < s.len(),
            s == bytes@,
            s[*pos as int] == 0x25,
            code_end(s, start, index_bytes as int) == Some(*pos as int),
            section_size as int == op_instrs_size(
                instructions_list@,
                index_bytes as int,
                instructions_list@.len() as int,
            ),
            section_size as int == *pos - start,
            forall|j: int|
                0 <= j < instructions_list@.len() ==> op_instr_decodes_at(
                    s,
                    start + op_instrs_size(instructions_list@, index_bytes as int, j),
                    index_bytes as int,
                    #[trigger] instructions_list@[j],
                ),
        decreases s.len() - *pos,
    {
        if *pos >= bytes.len() {
            proof {
                assert(code_end(s, *pos as int, index_bytes as int) is None);
            }
            return (None, String::from_str("Reached EOF before section ended."));
        }
        if bytes[*pos] == 0x25 {
            break ;
        }
        let ghost prev = instructions_list@;
        let ghost cur = *pos as int;
        let instr = match read_instr(bytes, pos, index_bytes) {
            Some(v) => v,
            None => {
                proof {
                    assert((spec_arity(s[cur]) matches Some(a) ==> spec_instr_size(
                        a as int,
                        index_bytes as int,
                    ) >= 1) && (spec_arity(s[cur]) matches Some(a) ==> cur + spec_instr_size(
                        a as int,
                        index_bytes as int,
                    ) > s.len())) by {
                        if spec_arity(s[cur]) is Some {
                            let a = spec_arity(s[cur]).unwrap();
                            assert(a as int * index_bytes >= 0) by (nonlinear_arith)
                                requires
                                    a >= 0,
                                    index_bytes >= 1,
                            ;
                        }
                    }
                    assert(code_end(s, cur, index_bytes as int) is None);
                }
                return (None, String::from_str("Reached EOF while reading instruction."));
            },
        };
        proof {
            assert(spec_instr_size(spec_op_count(instr), index_bytes as int) >= 1)
                by (nonlinear_arith)
                requires
                    spec_op_count(instr) >= 0,
                    index_bytes >= 1,
            ;
            assert(code_end(s, cur, index_bytes as int) == code_end(
                s,
                cur + spec_instr_size(spec_op_count(instr), index_bytes as int),
                index_bytes as int,
            ));
        }
        let sz = size_of_instr(&instr, index_bytes);
        section_size = section_size + sz;
        instructions_list.push(instr);
        proof {
            assert(forall|j: int| 0 <= j < prev.len() ==> instructions_list@[j] == #[trigger] prev[j]);
            assert forall|j: int| 0 <= j <= prev.len() implies op_instrs_size(
                instructions_list@,
                index_bytes as int,
                j,
            ) == op_instrs_size(prev, index_bytes as int, j) by {
                lemma_op_instrs_size_push(prev, index_bytes as int, instr, j);
            }
            assert(instructions_list@.last() == instr);
        }
    }
    (
        Some(CodeSection { section_type, instructions: instructions_list, size: section_size }),
        String::new(),
    )
}

/// The scanned debug entry `e` is exactly what decoding `s` at offset `i`
/// with range width `w` yields.
pub open spec fn sc_entry_decodes_at(s: Seq<u8>, i: int, w: int, e: DebugEntry) -> bool {
    &&& 0 <= i
    &&& i + 3 <= s.len()
    &&& e.line_number as int == spec_le_field(s, i, 2)
    &&& e.number_ranges as int == s[i + 2] as int
    &&& e.ranges@.len() == e.number_ranges
    &&& forall|k: int|
        0 <= k < e.ranges@.len() ==> {
            &&& (#[trigger] e.ranges@[k]).0 as int == spec_le_field(s, i + 3 + k * 2 * w, w)
            &&& e.ranges@[k].1 as int == spec_le_field(s, i + 3 + k * 2 * w + w, w)
        }
}

/// The encoded size of a scanned debug entry.
pub open spec fn sc_entry_size(e: DebugEntry, w: int) -> int {
    3 + e.number_ranges * 2 * w
}

/// The summed encoded sizes of a run of scanned debug entries.
pub open spec fn sc_entries_total(entries: Seq<DebugEntry>, w: int) -> int
    decreases entries.len(),
{
    if entries.len() == 0 {
        0
    } else {
        sc_entry_size(entries[0], w) + sc_entries_total(entries.drop_first(), w)
    }
}

/// The run of scanned debug entries is exactly what decoding `s` from
/// offset `i` yields, one after another.
pub open spec fn sc_entries_decode(s: Seq<u8>, i: int, w: int, entries: Seq<DebugEntry>) -> bool
    decreases entries.len(),
{
    if entries.len() == 0 {
        true
    } else {
        &&& sc_entry_decodes_at(s, i, w, entries[0])
        &&& sc_entries_decode(s, i + sc_entry_size(entries[0], w), w, entries.drop_first())
    }
}

proof fn lemma_sc_entries_total_push(entries: Seq<DebugEntry>, w: int, x: DebugEntry)
    ensures
        sc_entries_total(entries.push(x), w) == sc_entries_total(entries, w) + sc_entry_size(x, w),
    decreases entries.len(),
{
    let pushed = entries.push(x);
    assert(pushed.len() == entries.len() + 1);
    assert(sc_entries_total(pushed, w) == sc_entry_size(pushed[0], w) + sc_entries_total(
        pushed.drop_first(),
        w,
    ));
    if entries.len() == 0 {
        assert(pushed.drop_first() =~= Seq::<DebugEntry>::empty());
        assert(sc_entries_total(pushed.drop_first(), w) == 0);
        assert(pushed[0] == x);
    } else {
        assert(pushed.drop_first() =~= entries.drop_first().push(x));
        assert(pushed[0] == entries[0]);
        lemma_sc_entries_total_push(entries.drop_first(), w, x);
        assert(sc_entries_total(entries, w) == sc_entry_size(entries[0], w) + sc_entries_total(
            entries.drop_first(),
            w,
        ));
    }
}

proof fn lemma_sc_entries_decode_push(
    s: Seq<u8>,
    i: int,
    w: int,
    entries: Seq<DebugEntry>,
    x: DebugEntry,
)
    requires
        sc_entries_decode(s, i, w, entries),
        sc_entry_decodes_at(s, i + sc_entries_total(entries, w), w, x),
    ensures
        sc_entries_decode(s, i, w, entries.push(x)),
    decreases entries.len(),
{
    let pushed = entries.push(x);
    assert(pushed.len() == entries.len() + 1);
    if entries.len() == 0 {
        assert(pushed.drop_first() =~= Seq::<DebugEntry>::empty());
        assert(pushed[0] == x);
        assert(sc_entries_total(entries, w) == 0);
        assert(sc_entries_decode(s, i + sc_entry_size(x, w), w, pushed.drop_first()));
    } else {
        assert(pushed.drop_first() =~= entries.drop_first().push(x));
        assert(pushed[0] == entries[0]);
        assert(sc_entries_decode(s, i + sc_entry_size(entries[0], w), w, entries.drop_first()));
        assert(sc_entries_total(entries, w) == sc_entry_size(entries[0], w) + sc_entries_total(
            entries.drop_first(),
            w,
        ));
        lemma_sc_entries_decode_push(
            s,
            i + sc_entry_size(entries[0], w),
            w,
            entries.drop_first(),
            x,
        );
        assert(sc_entries_decode(s, i + sc_entry_size(pushed[0], w), w, pushed.drop_first()));
    }
}

/// Scans the debug section body: a one-byte range width, then entries of a
/// two-byte line number, a one-byte range count and that many address
/// pairs, to the end of the buffer.
fn read_debug_section(bytes: &[u8], pos: &mut usize) -> (r: Option<DebugSection>)
    requires
        *old(pos) <= bytes@.len(),
    ensures
        *final(pos) <= bytes@.len(),
        r is Some <==> (*old(pos) < bytes@.len() && sc_debug_fill(
            bytes@,
            *old(pos) + 1,
            bytes@[*old(pos) as int] as int,
        )),
        r matches Some(sec) ==> {
            &&& *final(pos) == bytes@.len()
            &&& sec.range_size == bytes@[*old(pos) as int]
            &&& sc_entries_decode(
                bytes@,
                *old(pos) + 1,
                bytes@[*old(pos) as int] as int,
                sec.debug_entries@,
            )
            &&& forall|j: int|
                0 <= j < sec.debug_entries@.len() ==> (
                #[trigger] sec.debug_entries@[j]).ranges@.len()
                    == sec.debug_entries@[j].number_ranges
        },
{
    let ghost s = bytes@;
    if *pos >= bytes.len() {
        return None;
    }
    let ghost start0 = *pos as int;
    let range_size = bytes[*pos] as i32;
    let ghost w = range_size as int;
    *pos = *pos + 1;
    let mut entry_list: Vec<DebugEntry> = Vec::new();
    while *pos < bytes.len()
        invariant
            *pos <= s.len(),
            s == bytes@,
            start0 == *old(pos),
            0 <= start0 < s.len(),
            w == s[start0] as int,
            w == range_size,
            sc_debug_fill(s, start0 + 1, w) == sc_debug_fill(s, *pos as int, w),
            sc_entries_decode(s, start0 + 1, w, entry_list@),
            *pos == start0 + 1 + sc_entries_total(entry_list@, w),
            forall|j: int|
                0 <= j < entry_list@.len() ==> (#[trigger] entry_list@[j]).ranges@.len()
                    == entry_list@[j].number_ranges,
        decreases s.len() - *pos,
    {
        let ghost entry_start = *pos as int;
        let mut ranges_list: Vec<(i32, i32)> = Vec::new();
        let line_number = match read_bytes_as_i32(bytes, pos, 2) {
            Some(num) => num,
            None => {
                proof {
                    assert(!sc_debug_fill(s, entry_start, w));
                }
                return None;
            },
        };
        if *pos >= bytes.len() {
            proof {
                assert(!sc_debug_fill(s, entry_start, w));
            }
            return None;
        }
        let number_ranges = bytes[*pos] as i32;
        *pos = *pos + 1;
        proof {
            assert(number_ranges == s[entry_start + 2]);
            assert(0int * 2 * w == 0) by (nonlinear_arith);
        }
        let mut k: i32 = 0;
        while k < number_ranges
            invariant
                *pos <= s.len(),
                s == bytes@,
                0 <= k <= number_ranges,
                number_ranges <= 255,
                0 <= entry_start,
                entry_start + 3 <= s.len(),
                number_ranges == s[entry_start + 2],
                0 <= w <= 255,
                k > 0 ==> 1 <= w <= 4,
                w == range_size,
                start0 == *old(pos),
                0 <= start0 < s.len(),
                w == s[start0] as int,
                sc_debug_fill(s, start0 + 1, w) == sc_debug_fill(s, entry_start, w),
                ranges_list@.len() == k,
                *pos == entry_start + 3 + k * 2 * w,
                forall|m: int|
                    0 <= m < k ==> {
                        &&& (#[trigger] ranges_list@[m]).0 as int == spec_le_field(
                            s,
                            entry_start + 3 + m * 2 * w,
                            w,
                        )
                        &&& ranges_list@[m].1 as int == spec_le_field(
                            s,
                            entry_start + 3 + m * 2 * w + w,
                            w,
                        )
                    },
                line_number as int == spec_le_field(s, entry_start, 2),
            decreases number_ranges - k,
        {
            let range_start = match read_bytes_as_i32(bytes, pos, range_size as usize) {
                Some(v) => v,
                None => {
                    proof {
                        if 1 <= w <= 4 {
                            lemma_sc_range_bound(number_ranges as int, k as int, w);
                        }
                        assert(!sc_debug_fill(s, entry_start, w));
                    }
                    return None;
                },
            };
            let range_end = match read_bytes_as_i32(bytes, pos, range_size as usize) {
                Some(v) => v,
                None => {
                    proof {
                        if 1 <= w <= 4 {
                            lemma_sc_range_bound(number_ranges as int, k as int, w);
                        }
                        assert(!sc_debug_fill(s, entry_start, w));
                    }
                    return None;
                },
            };
            ranges_list.push((range_start, range_end));
            proof {
                assert((k + 1) as int * 2 * w == k * 2 * w + 2 * w) by (nonlinear_arith);
            }
            k = k + 1;
        }
        proof {
            assert(k * 2 * w == number_ranges as int * 2 * w);
            if number_ranges > 0 {
                assert(number_ranges as int * 2 * w >= 0) by (nonlinear_arith)
                    requires
                        number_ranges >= 0,
                        w >= 1,
                ;
            }
            assert(sc_debug_fill(s, entry_start, w) == sc_debug_fill(s, *pos as int, w));
        }
        let entry = DebugEntry { line_number, number_ranges, ranges: ranges_list };
        proof {
            assert(sc_entry_decodes_at(s, entry_start, w, entry));
            lemma_sc_entries_decode_push(s, start0 + 1, w, entry_list@, entry);
            lemma_sc_entries_total_push(entry_list@, w, entry);
        }
        entry_list.push(entry);
    }
    Some(DebugSection { range_size, debug_entries: entry_list })
}

proof fn lemma_sc_range_bound(n: int, k: int, w: int)
    requires
        0 <= k < n,
        1 <= w,
    ensures
        k * 2 * w + 2 * w <= n * 2 * w,
        (k + 1) * 2 * w == k * 2 * w + 2 * w,
        k * 2 * w >= 0,
{
    assert((k + 1) * 2 * w == k * 2 * w + 2 * w) by (nonlinear_arith);
    assert((k + 1) * 2 * w <= n * 2 * w) by (nonlinear_arith)
        requires
            k + 1 <= n,
            w >= 1,
    ;
    assert(k * 2 * w >= 0) by (nonlinear_arith)
        requires
            k >= 0,
            w >= 1,
    ;
}

/// The marker letter of a scanned code section's type.
pub open spec fn sc_letter(t: SectionType) -> u8 {
    match t {
        SectionType::FUNCTION => 0x46,
        SectionType::INITIALIZATION => 0x49,
        SectionType::MAIN => 0x4d,
    }
}

/// The scanned code section `sec` decodes at body offset `p` of `s`: its
/// type letter stands just before the body, its instructions are byte-exact
/// at their chained offsets, and the scan from the body ends exactly after
/// them.
pub open spec fn sc_section_decodes_at(s: Seq<u8>, p: int, w: int, sec: CodeSection) -> bool {
    &&& 1 <= p <= s.len()
    &&& s[p - 1] == sc_letter(sec.section_type)
    &&& code_end(s, p, w) == Some(p + sec.size)
    &&& sec.size as int == op_instrs_size(sec.instructions@, w, sec.instructions@.len() as int)
    &&& forall|j: int|
        0 <= j < sec.instructions@.len() ==> op_instr_decodes_at(
            s,
            p + op_instrs_size(sec.instructions@, w, j),
            w,
            #[trigger] sec.instructions@[j],
        )
}

/// The scanned debug section decodes at offset `p` of `s`: its `D` letter
/// stands just before, then the range width byte and the entries.
pub open spec fn sc_debug_decodes_at(s: Seq<u8>, p: int, sec: DebugSection) -> bool {
    &&& 1 <= p < s.len()
    &&& s[p - 1] == 0x44
    &&& sec.range_size as int == s[p] as int
    &&& sc_entries_decode(s, p + 1, s[p] as int, sec.debug_entries@)
}

/// The whole section stream from offset `i` decodes to exactly the given
/// code sections — in file order, completely, each typed from its marker
/// letter — followed by exactly the given debug section filling the rest of
/// the buffer. A marker group directly followed by another `%` is an empty
/// group and yields no section.
pub open spec fn sc_stream_decode(
    s: Seq<u8>,
    i: int,
    w: int,
    secs: Seq<CodeSection>,
    dbg: DebugSection,
) -> bool
    decreases s.len() - i,
    via sc_stream_decode_decreases
{
    if i < 0 || i + 2 >= s.len() {
        false
    } else if s[i + 2] == 0x25 {
        sc_stream_decode(s, i + 2, w, secs, dbg)
    } else if s[i + 1] == 0x44 {
        &&& secs.len() == 0
        &&& sc_debug_decodes_at(s, i + 2, dbg)
    } else if s[i + 1] == 0x46 || s[i + 1] == 0x49 || s[i + 1] == 0x4d {
        &&& secs.len() > 0
        &&& sc_section_decodes_at(s, i + 2, w, secs[0])
        &&& code_end(s, i + 2, w) is Some
        &&& sc_stream_decode(s, code_end(s, i + 2, w).unwrap(), w, secs.drop_first(), dbg)
    } else {
        false
    }
}

#[via_fn]
proof fn sc_stream_decode_decreases(
    s: Seq<u8>,
    i: int,
    w: int,
    secs: Seq<CodeSection>,
    dbg: DebugSection,
) {
    if !(i < 0 || i + 2 >= s.len()) && s[i + 2] != 0x25 && s[i + 1] != 0x44 && (s[i + 1] == 0x46
        || s[i + 1] == 0x49 || s[i + 1] == 0x4d) {
        crate::sections::lemma_code_end_bounds(s, i + 2, w);
    }
}

/// Whether the scan of the section stream from offset `i` succeeds: marker
/// groups are consumed two bytes at a time, an empty group (one directly
/// followed by another `%`) is skipped, a code-section letter scans its
/// instructions up to the next marker, and a debug letter ends the stream
/// by filling the rest of the buffer.
pub open spec fn scanner_ok(s: Seq<u8>, i: int, w: int) -> bool
    decreases s.len() - i,
    via scanner_ok_decreases
{
    if i < 0 || i + 2 >= s.len() {
        false
    } else if s[i + 2] == 0x25 {
        scanner_ok(s, i + 2, w)
    } else if s[i + 1] == 0x44 {
        sc_debug_fill(s, i + 3, s[i + 2] as int)
    } else if s[i + 1] == 0x46 || s[i + 1] == 0x49 || s[i + 1] == 0x4d {
        &&& code_end(s, i + 2, w) is Some
        &&& scanner_ok(s, code_end(s, i + 2, w).unwrap(), w)
    } else {
        false
    }
}

#[via_fn]
proof fn scanner_ok_decreases(s: Seq<u8>, i: int, w: int) {
    if !(i < 0 || i + 2 >= s.len()) && s[i + 2] != 0x25 && s[i + 1] != 0x44 && (s[i + 1] == 0x46
        || s[i + 1] == 0x49 || s[i + 1] == 0x4d) {
        crate::sections::lemma_code_end_bounds(s, i + 2, w);
    }
}

/// Scans every section after the argument pool: code sections in marker
/// order, then the debug section to the end of the buffer. A `%X` marker
/// group immediately followed by another `%` is skipped as an empty group.
#[verifier::rlimit(60)]
pub fn read_all_sections(bytes: &[u8], pos: &mut usize, arg_index_bytes: i32) -> (r: Result<
    (Vec<CodeSection>, DebugSection),
    DumpError,
>)
    requires
        *old(pos) <= bytes@.len(),
        1 <= arg_index_bytes <= 4,
        bytes@.len() < 0x7fff0000,
    ensures
        *final(pos) <= bytes@.len(),
        r is Ok <==> scanner_ok(bytes@, *old(pos) as int, arg_index_bytes as int),
        r matches Ok(parts) ==> {
            &&& *final(pos) == bytes@.len()
            &&& forall|i: int|
                0 <= i < parts.0@.len() ==> (#[trigger] parts.0@[i]).size as int == op_instrs_size(
                    parts.0@[i].instructions@,
                    arg_index_bytes as int,
                    parts.0@[i].instructions@.len() as int,
                )
            &&& sc_stream_decode(
                bytes@,
                *old(pos) as int,
                arg_index_bytes as int,
                parts.0@,
                parts.1,
            )
        },
        r matches Err(e) ==> (e == DumpError::UnexpectedEndOfInput
            || e == DumpError::UnknownSectionMarker),
{
    let ghost s = bytes@;
    let ghost start0 = *pos as int;
    let w_ghost: Ghost<int> = Ghost(arg_index_bytes as int);
    let mut sections: Vec<CodeSection> = Vec::new();
    proof {
        assert forall|rest: Seq<CodeSection>, dbg: DebugSection| #[trigger] sc_stream_decode(
            s,
            start0,
            w_ghost@,
            sections@ + rest,
            dbg,
        ) == sc_stream_decode(s, start0, w_ghost@, rest, dbg) by {
            assert(sections@ + rest =~= rest);
        }
    }
    loop
        invariant
            w_ghost@ == arg_index_bytes as int,
            *pos <= s.len(),
            s == bytes@,
            s.len() < 0x7fff0000,
            1 <= arg_index_bytes <= 4,
            start0 == *old(pos),
            scanner_ok(s, start0, arg_index_bytes as int) == scanner_ok(
                s,
                *pos as int,
                arg_index_bytes as int,
            ),
            forall|i: int|
                0 <= i < sections@.len() ==> (#[trigger] sections@[i]).size as int
                    == op_instrs_size(
                    sections@[i].instructions@,
                    arg_index_bytes as int,
                    sections@[i].instructions@.len() as int,
                ),
            forall|rest: Seq<CodeSection>, dbg: DebugSection| #[trigger] sc_stream_decode(
                s,
                start0,
                w_ghost@,
                sections@ + rest,
                dbg,
            ) == sc_stream_decode(s, *pos as int, w_ghost@, rest, dbg),
        decreases s.len() - *pos,
    {
        let ghost entry_pos = *pos as int;
        // Consume the `%` and the section letter.
        if *pos + 2 > bytes.len() {
            proof {
                assert(!scanner_ok(s, entry_pos, arg_index_bytes as int));
            }
            return Err(DumpError::UnexpectedEndOfInput);
        }
        let next_char = bytes[*pos + 1];
        *pos = *pos + 2;
        if *pos >= bytes.len() {
            proof {
                assert(!scanner_ok(s, entry_pos, arg_index_bytes as int));
            }
            return Err(DumpError::UnexpectedEndOfInput);
        }
        let ghost p_before = *pos as int;
        let peeked_char = bytes[*pos];
        if peeked_char != 0x25 {
            if next_char == 0x44 {
                match read_debug_section(bytes, pos) {
                    Some(debug_section) => {
                        proof {
                            assert(scanner_ok(s, entry_pos, arg_index_bytes as int));
                            assert(s[p_before - 1] == 0x44);
                            assert(sc_debug_decodes_at(s, p_before, debug_section));
                            assert(sc_stream_decode(
                                s,
                                entry_pos,
                                w_ghost@,
                                Seq::<CodeSection>::empty(),
                                debug_section,
                            ));
                            assert(sections@ + Seq::<CodeSection>::empty() =~= sections@);
                            assert(sc_stream_decode(s, start0, w_ghost@, sections@, debug_section));
                        }
                        return Ok((sections, debug_section));
                    },
                    None => {
                        proof {
                            assert(!scanner_ok(s, entry_pos, arg_index_bytes as int));
                        }
                        return Err(DumpError::UnexpectedEndOfInput);
                    },
                }
            } else {
                let section_type = if next_char == 0x46 {
                    SectionType::FUNCTION
                } else if next_char == 0x49 {
                    SectionType::INITIALIZATION
                } else if next_char == 0x4d {
                    SectionType::MAIN
                } else {
                    proof {
                        assert(!scanner_ok(s, entry_pos, arg_index_bytes as int));
                    }
                    return Err(DumpError::UnknownSectionMarker);
                };
                let (parsed, _message) = read_code_section(
                    bytes,
                    pos,
                    arg_index_bytes,
                    section_type,
                );
                match parsed {
                    Some(code_section) => {
                        proof {
                            assert(*pos as int == p_before + code_section.size);
                            assert(*pos as int != p_before) by {
                                if *pos as int == p_before {
                                    assert(s[p_before] == 0x25);
                                }
                            }
                            assert(code_end(s, p_before, arg_index_bytes as int) == Some(
                                *pos as int,
                            ));
                            assert(scanner_ok(s, entry_pos, arg_index_bytes as int) == scanner_ok(
                                s,
                                *pos as int,
                                arg_index_bytes as int,
                            ));
                            assert(s[p_before - 1] == sc_letter(code_section.section_type));
                            assert(sc_section_decodes_at(
                                s,
                                p_before,
                                arg_index_bytes as int,
                                code_section,
                            ));
                        }
                        let ghost prev_sections = sections@;
                        sections.push(code_section);
                        proof {
                            assert(entry_pos < *pos <= s.len());
                            assert(sc_section_decodes_at(s, p_before, w_ghost@, code_section));
                            assert forall|rest: Seq<CodeSection>, dbg: DebugSection| #[trigger] sc_stream_decode(
                                s,
                                start0,
                                w_ghost@,
                                sections@ + rest,
                                dbg,
                            ) == sc_stream_decode(s, *pos as int, w_ghost@, rest, dbg) by {
                                let mid = seq![code_section] + rest;
                                assert(sections@ + rest =~= prev_sections + mid);
                                assert(sc_stream_decode(s, start0, w_ghost@, prev_sections + mid, dbg)
                                    == sc_stream_decode(s, entry_pos, w_ghost@, mid, dbg));
                                assert(mid[0] == code_section);
                                assert(mid.drop_first() =~= rest);
                                assert(code_end(s, p_before, w_ghost@) == Some(*pos as int));
                                assert(sc_stream_decode(s, entry_pos, w_ghost@, mid, dbg)
                                    == sc_stream_decode(s, *pos as int, w_ghost@, rest, dbg));
                            }
                        }
                    },
                    None => {
                        proof {
                            assert(!scanner_ok(s, entry_pos, arg_index_bytes as int));
                        }
                        return Err(DumpError::UnexpectedEndOfInput);
                    },
                }
            }
        } else {
            proof {
                assert(entry_pos < *pos <= s.len());
                assert forall|rest: Seq<CodeSection>, dbg: DebugSection| #[trigger] sc_stream_decode(
                    s,
                    start0,
                    w_ghost@,
                    sections@ + rest,
                    dbg,
                ) == sc_stream_decode(s, *pos as int, w_ghost@, rest, dbg) by {
                    assert(sc_stream_decode(s, entry_pos, w_ghost@, rest, dbg) == sc_stream_decode(
                        s,
                        *pos as int,
                        w_ghost@,
                        rest,
                        dbg,
                    ));
                }
            }
        }
    }
}

} // verus!
