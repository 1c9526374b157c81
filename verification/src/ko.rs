//! The relocatable object-file decoder: the versioned header, the section
//! header table, string tables, data sections (constant pools), symbol
//! tables, relocation entries and function sections, plus the
//! relocation-aware operand resolution used by the disassembly.
use vstd::prelude::*;

use crate::argument::{
    spec_decode_value, spec_is_variable, spec_repr, spec_value_len, value_wf, Value,
};
use crate::disasm::OperandText;
use crate::errors::DumpError;
use crate::instruction::{spec_instr_size, Instr};
use crate::ksm_reader::{le_bytes_val, KSMFileReader};

verus! {

/// The structural role of a section in the object format.
#[derive(PartialEq, Eq, Debug, Copy, Clone, Structural)]
pub enum SectionKind {
    Null,
    SymTab,
    StrTab,
    Func,
    Data,
    Debug,
    Reld,
}

/// The kind a section-kind tag byte denotes, `None` for an unknown tag.
pub open spec fn spec_section_kind(tag: u8) -> Option<SectionKind> {
    if tag == 0 {
        Some(SectionKind::Null)
    } else if tag == 1 {
        Some(SectionKind::SymTab)
    } else if tag == 2 {
        Some(SectionKind::StrTab)
    } else if tag == 3 {
        Some(SectionKind::Func)
    } else if tag == 4 {
        Some(SectionKind::Data)
    } else if tag == 5 {
        Some(SectionKind::Debug)
    } else if tag == 6 {
        Some(SectionKind::Reld)
    } else {
        None
    }
}

/// The display name of a section kind.
pub fn kind_as_str(kind: SectionKind) -> (r: &'static str)
    ensures
        r@ == spec_kind_str(kind),
{
    match kind {
        SectionKind::Null => "NULL",
        SectionKind::Reld => "RELD",
        SectionKind::Func => "FUNC",
        SectionKind::Data => "DATA",
        SectionKind::SymTab => "SYMTAB",
        SectionKind::StrTab => "STRTAB",
        SectionKind::Debug => "DEBUG",
    }
}

/// The display name of each section kind.
pub open spec fn spec_kind_str(kind: SectionKind) -> Seq<char> {
    match kind {
        SectionKind::Null => "NULL"@,
        SectionKind::Reld => "RELD"@,
        SectionKind::Func => "FUNC"@,
        SectionKind::Data => "DATA"@,
        SectionKind::SymTab => "SYMTAB"@,
        SectionKind::StrTab => "STRTAB"@,
        SectionKind::Debug => "DEBUG"@,
    }
}

/// The visibility of a symbol.
#[derive(PartialEq, Eq, Debug, Copy, Clone, Structural)]
pub enum SymBind {
    Local,
    Global,
    Extern,
}

/// The display name of a symbol binding.
pub fn bind_as_str(bind: SymBind) -> (r: &'static str)
    ensures
        bind == SymBind::Local ==> r@ == "LOCAL"@,
        bind == SymBind::Global ==> r@ == "GLOBAL"@,
        bind == SymBind::Extern ==> r@ == "EXTERN"@,
{
    match bind {
        SymBind::Local => "LOCAL",
        SymBind::Global => "GLOBAL",
        SymBind::Extern => "EXTERN",
    }
}

/// The type of a symbol.
#[derive(PartialEq, Eq, Debug, Copy, Clone, Structural)]
pub enum SymType {
    NoType,
    Object,
    Func,
    Section,
    File,
}

/// The display name of a symbol type.
pub fn sym_type_as_str(t: SymType) -> (r: &'static str)
    ensures
        t == SymType::NoType ==> r@ == "NOTYPE"@,
        t == SymType::Object ==> r@ == "OBJECT"@,
        t == SymType::Func ==> r@ == "FUNC"@,
        t == SymType::Section ==> r@ == "SECTION"@,
        t == SymType::File ==> r@ == "FILE"@,
{
    match t {
        SymType::NoType => "NOTYPE",
        SymType::Object => "OBJECT",
        SymType::Func => "FUNC",
        SymType::Section => "SECTION",
        SymType::File => "FILE",
    }
}

/// The operand arity of each opcode in the object format: the machine-code
/// table plus the two object-only opcodes.
pub open spec fn spec_ko_arity(opcode: u8) -> Option<u8> {
    if opcode == 0x63 {
        Some(0u8)
    } else if opcode == 0xfa {
        Some(1u8)
    } else {
        crate::instruction::spec_arity(opcode)
    }
}

/// The operand arity of an opcode in the object format, or `None` for an
/// unknown opcode.
pub fn ko_arity(opcode: u8) -> (r: Option<u8>)
    ensures
        r == spec_ko_arity(opcode),
{
    if opcode == 0x63 {
        Some(0)
    } else if opcode == 0xfa {
        Some(1)
    } else {
        let n = Instr::opcode_num_operands(opcode);
        if n == 255 {
            None
        } else {
            Some(n)
        }
    }
}

/// The mnemonic of an opcode in the object format.
pub fn ko_mnemonic(opcode: u8) -> (r: &'static str)
    ensures
        r@ == spec_ko_mnemonic(opcode),
{
    if opcode == 0x63 {
        "jmps"
    } else if opcode == 0xfa {
        "pushv"
    } else {
        let instr = Instr { opcode, operand_width: 4, num_operands: 0, operands: Vec::new() };
        instr.get_mnemonic()
    }
}

/// The mnemonic of each opcode in the object format.
pub open spec fn spec_ko_mnemonic(opcode: u8) -> Seq<char> {
    if opcode == 0x63 {
        "jmps"@
    } else if opcode == 0xfa {
        "pushv"@
    } else {
        crate::instruction::spec_mnemonic(opcode)
    }
}

proof fn lemma_ko_magic_bytes(s: Seq<u8>, i: int)
    requires
        0 <= i,
        i + 4 <= s.len(),
        le_bytes_val(s, i, 4) == 0x666f016b,
    ensures
        s[i] == 0x6b,
        s[i + 1] == 0x01,
        s[i + 2] == 0x6f,
        s[i + 3] == 0x66,
{
    reveal_with_fuel(le_bytes_val, 5);
}

/// The object file header: version, section-header count and the index of
/// the section-name string table.
#[derive(Debug)]
pub struct KOHeader {
    pub version: u8,
    pub num_headers: u16,
    pub shstrtab_idx: u16,
}

impl KOHeader {
    /// Parses the file header: the four magic bytes, a one-byte version that
    /// must be four, the section-header count and the name-table index, the
    /// integers little-endian.
    pub fn parse(reader: &mut KSMFileReader) -> (r: Result<KOHeader, DumpError>)
        requires
            old(reader).wf(),
        ensures
            final(reader).wf(),
            final(reader).same_source(old(reader)),
            r is Ok <==> (old(reader).current_index + 9 <= old(reader).contents@.len()
                && crate::fio::spec_is_ko(
                old(reader).contents@.skip(old(reader).current_index as int),
            ) && old(reader).contents@[old(reader).current_index + 4] == 4),
            r matches Ok(h) ==> {
                &&& h.version == 4
                &&& h.num_headers as int == le_bytes_val(
                    old(reader).contents@,
                    old(reader).current_index + 5,
                    2,
                )
                &&& h.shstrtab_idx as int == le_bytes_val(
                    old(reader).contents@,
                    old(reader).current_index + 7,
                    2,
                )
                &&& final(reader).current_index == old(reader).current_index + 9
            },
            r matches Err(e) ==> (e == DumpError::UnexpectedEndOfInput
                || e == DumpError::UnrecognizedFileType
                || e == DumpError::MalformedSectionStructure),
    {
        let ghost s = old(reader).contents@;
        let ghost i = old(reader).current_index as int;
        let magic = reader.read_uint32()?;
        proof {
            reveal_with_fuel(le_bytes_val, 5);
            assert(s.skip(i)[0] == s[i] && s.skip(i)[1] == s[i + 1] && s.skip(i)[2] == s[i + 2]
                && s.skip(i)[3] == s[i + 3]);
        }
        if magic != 0x666f016b {
            proof {
                if s.skip(i).len() >= 4 && s[i] == 0x6b && s[i + 1] == 0x01 && s[i + 2] == 0x6f && s[i
                    + 3] == 0x66 {
                    assert(le_bytes_val(s, i, 4) == 0x666f016b);
                }
            }
            return Err(DumpError::UnrecognizedFileType);
        }
        proof {
            lemma_ko_magic_bytes(s, i);
        }
        let version = reader.next()?;
        if version != 4 {
            return Err(DumpError::MalformedSectionStructure);
        }
        let num_headers = reader.read_uint16()?;
        let shstrtab_idx = reader.read_uint16()?;
        Ok(KOHeader { version, num_headers, shstrtab_idx })
    }
}

/// One entry of the section header table: the byte offset of the section's
/// name within the name table's stream, the section's kind, and its size.
#[derive(Debug)]
pub struct SectionHeader {
    pub name_idx: u32,
    pub section_kind: SectionKind,
    pub size: u32,
}

impl SectionHeader {
    /// Parses one section header: a four-byte name index, a one-byte kind
    /// tag, and a four-byte size, the integers little-endian.
    pub fn parse(reader: &mut KSMFileReader) -> (r: Result<SectionHeader, DumpError>)
        requires
            old(reader).wf(),
        ensures
            final(reader).wf(),
            final(reader).same_source(old(reader)),
            r is Ok <==> (old(reader).current_index + 9 <= old(reader).contents@.len()
                && spec_section_kind(
                old(reader).contents@[old(reader).current_index + 4],
            ) is Some),
            r matches Ok(h) ==> {
                &&& h.name_idx as int == le_bytes_val(
                    old(reader).contents@,
                    old(reader).current_index as int,
                    4,
                )
                &&& Some(h.section_kind) == spec_section_kind(
                    old(reader).contents@[old(reader).current_index + 4],
                )
                &&& h.size as int == le_bytes_val(
                    old(reader).contents@,
                    old(reader).current_index + 5,
                    4,
                )
                &&& final(reader).current_index == old(reader).current_index + 9
            },
            r matches Err(e) ==> (e == DumpError::UnexpectedEndOfInput
                || e == DumpError::UnknownSectionMarker),
    {
        let name_idx = reader.read_uint32()?;
        let kind_tag = reader.next()?;
        let section_kind = match kind_tag {
            0 => SectionKind::Null,
            1 => SectionKind::SymTab,
            2 => SectionKind::StrTab,
            3 => SectionKind::Func,
            4 => SectionKind::Data,
            5 => SectionKind::Debug,
            6 => SectionKind::Reld,
            _ => {
                return Err(DumpError::UnknownSectionMarker);
            },
        };
        let size = reader.read_uint32()?;
        Ok(SectionHeader { name_idx, section_kind, size })
    }
}

/// A symbol: its name (an index into the symbol string table), the data
/// entry it refers to, its size, binding, type and owning section.
#[derive(Debug)]
pub struct KOSymbol {
    pub name_idx: u32,
    pub value_idx: u32,
    pub size: u16,
    pub sym_bind: SymBind,
    pub sym_type: SymType,
    pub sh_idx: u16,
}

impl KOSymbol {
    /// Parses one fourteen-byte symbol record.
    pub fn parse(reader: &mut KSMFileReader) -> (r: Result<KOSymbol, DumpError>)
        requires
            old(reader).wf(),
        ensures
            final(reader).wf(),
            final(reader).same_source(old(reader)),
            r is Ok <==> (old(reader).current_index + 14 <= old(reader).contents@.len() && old(
                reader,
            ).contents@[old(reader).current_index + 10] <= 2 && old(reader).contents@[old(
                reader,
            ).current_index + 11] <= 4),
            r matches Ok(sym) ==> symbol_decodes_at(
                old(reader).contents@,
                old(reader).current_index as int,
                sym,
            ) && final(reader).current_index == old(reader).current_index + 14,
            r matches Err(e) ==> (e == DumpError::UnexpectedEndOfInput
                || e == DumpError::MalformedSectionStructure),
    {
        let name_idx = reader.read_uint32()?;
        let value_idx = reader.read_uint32()?;
        let size = reader.read_uint16()?;
        let bind_tag = reader.next()?;
        let sym_bind = match bind_tag {
            0 => SymBind::Local,
            1 => SymBind::Global,
            2 => SymBind::Extern,
            _ => {
                return Err(DumpError::MalformedSectionStructure);
            },
        };
        let type_tag = reader.next()?;
        let sym_type = match type_tag {
            0 => SymType::NoType,
            1 => SymType::Object,
            2 => SymType::Func,
            3 => SymType::Section,
            4 => SymType::File,
            _ => {
                return Err(DumpError::MalformedSectionStructure);
            },
        };
        let sh_idx = reader.read_uint16()?;
        Ok(KOSymbol { name_idx, value_idx, size, sym_bind, sym_type, sh_idx })
    }
}

/// One relocation entry: the function section and instruction it applies
/// to, which of the instruction's operands it redirects (one or two), and
/// the symbol that replaces the operand.
#[derive(Debug)]
pub struct ReldEntry {
    pub section_index: u16,
    pub instr_index: u32,
    pub operand_index: u8,
    pub symbol_index: u32,
}

impl ReldEntry {
    /// Parses one eleven-byte relocation entry.
    pub fn parse(reader: &mut KSMFileReader) -> (r: Result<ReldEntry, DumpError>)
        requires
            old(reader).wf(),
        ensures
            final(reader).wf(),
            final(reader).same_source(old(reader)),
            r is Ok <==> (old(reader).current_index + 11 <= old(reader).contents@.len() && (old(
                reader,
            ).contents@[old(reader).current_index + 6] == 1 || old(reader).contents@[old(
                reader,
            ).current_index + 6] == 2)),
            r matches Ok(entry) ==> {
                &&& reld_decodes_at(old(reader).contents@, old(reader).current_index as int, entry)
                &&& (entry.operand_index == 1 || entry.operand_index == 2)
                &&& final(reader).current_index == old(reader).current_index + 11
            },
            r matches Err(e) ==> (e == DumpError::UnexpectedEndOfInput
                || e == DumpError::MalformedSectionStructure),
    {
        let section_index = reader.read_uint16()?;
        let instr_index = reader.read_uint32()?;
        let operand_index = reader.next()?;
        if operand_index != 1 && operand_index != 2 {
            return Err(DumpError::MalformedSectionStructure);
        }
        let symbol_index = reader.read_uint32()?;
        Ok(ReldEntry { section_index, instr_index, operand_index, symbol_index })
    }
}

/// Parses one object-format instruction: the opcode byte, then as many
/// four-byte little-endian data indices as the opcode's arity dictates.
pub fn parse_ko_instr(reader: &mut KSMFileReader) -> (r: Result<Instr, DumpError>)
    requires
        old(reader).wf(),
    ensures
        final(reader).wf(),
        final(reader).same_source(old(reader)),
        r is Ok <==> (old(reader).current_index < old(reader).contents@.len() && spec_ko_arity(
            old(reader).contents@[old(reader).current_index as int],
        ) is Some && old(reader).current_index + spec_instr_size(
            spec_ko_arity(old(reader).contents@[old(reader).current_index as int]).unwrap() as int,
            4,
        ) <= old(reader).contents@.len()),
        r matches Ok(instr) ==> {
            &&& instr.wf()
            &&& instr.operand_width == 4
            &&& old(reader).current_index < old(reader).contents@.len()
            &&& instr.opcode == old(reader).contents@[old(reader).current_index as int]
            &&& Some(instr.num_operands) == spec_ko_arity(instr.opcode)
            &&& forall|k: int|
                0 <= k < instr.num_operands ==> (#[trigger] instr.operands@[k]) as int
                    == le_bytes_val(
                    old(reader).contents@,
                    old(reader).current_index + 1 + k * 4,
                    4,
                )
            &&& final(reader).current_index == old(reader).current_index + spec_instr_size(
                instr.num_operands as int,
                4,
            )
        },
        r matches Err(e) ==> (e == DumpError::UnexpectedEndOfInput || e matches
            DumpError::UnknownOpcode(_)),
{
    let ghost s = old(reader).contents@;
    let ghost i = old(reader).current_index as int;
    let opcode = reader.next()?;
    let num_operands = match ko_arity(opcode) {
        Some(n) => n,
        None => {
            return Err(DumpError::UnknownOpcode(opcode));
        },
    };
    let mut operands: Vec<u32> = Vec::new();
    let mut k: u8 = 0;
    while k < num_operands
        invariant
            reader.wf(),
            reader.same_source(old(reader)),
            s == reader.contents@,
            i == old(reader).current_index,
            0 <= i < s.len(),
            opcode == s[i],
            spec_ko_arity(opcode) == Some(num_operands),
            num_operands <= 2,
            k <= num_operands,
            reader.current_index == i + 1 + k * 4,
            operands@.len() == k,
            forall|m: int|
                0 <= m < k ==> (#[trigger] operands@[m]) as int == le_bytes_val(s, i + 1 + m * 4, 4),
        decreases num_operands - k,
    {
        let op = match reader.read_uint32() {
            Ok(v) => v,
            Err(e) => {
                proof {
                    assert(i + 1 + k * 4 + 4 > s.len());
                    assert((k + 1) as int * 4 == k * 4 + 4) by (nonlinear_arith);
                    assert((k + 1) * 4 <= num_operands * 4) by (nonlinear_arith)
                        requires
                            k + 1 <= num_operands,
                    ;
                }
                return Err(e);
            },
        };
        operands.push(op);
        k = k + 1;
    }
    proof {
        assert(k * 4 == num_operands * 4);
    }
    Ok(Instr::new(opcode, 4, num_operands, operands))
}

/// The position of the first zero byte in `s` within `[i, end)`, or `end`
/// where there is none.
pub open spec fn first_nul(s: Seq<u8>, i: int, end: int) -> int
    decreases end - i,
{
    if i < 0 || i >= end {
        end
    } else if s[i] == 0 {
        i
    } else {
        first_nul(s, i + 1, end)
    }
}

/// The first zero byte lies between the scan's start and `end`.
pub proof fn lemma_first_nul_bounds(s: Seq<u8>, i: int, end: int)
    requires
        0 <= i <= end,
    ensures
        i <= first_nul(s, i, end) <= end,
    decreases end - i,
{
    if i < end && s[i] != 0 {
        lemma_first_nul_bounds(s, i + 1, end);
    }
}

/// Where no zero byte stands before `j` and `s[j]` is zero, `j` is the
/// first zero byte.
pub proof fn lemma_first_nul_at(s: Seq<u8>, i: int, j: int, end: int)
    requires
        0 <= i <= j <= end,
        j < end ==> s[j] == 0,
        j == end || j < end,
        forall|m: int| i <= m < j ==> s[m] != 0,
    ensures
        j < end ==> first_nul(s, i, end) == j,
        j == end ==> first_nul(s, i, end) == end,
    decreases j - i,
{
    if i < j {
        assert(s[i] != 0);
        lemma_first_nul_at(s, i + 1, j, end);
    }
}

/// The strings a byte range denotes, split at zero bytes: each zero byte
/// terminates a string, and trailing bytes without a terminator form a
/// final string of their own.
pub open spec fn split_strings(s: Seq<u8>, i: int, end: int) -> Seq<Seq<char>>
    decreases end - i,
    via split_strings_decreases
{
    if i < 0 || i >= end {
        Seq::empty()
    } else {
        let j = first_nul(s, i, end);
        if j < end {
            seq![crate::text::chars_of(s.subrange(i, j))] + split_strings(s, j + 1, end)
        } else {
            seq![crate::text::chars_of(s.subrange(i, end))]
        }
    }
}

#[via_fn]
proof fn split_strings_decreases(s: Seq<u8>, i: int, end: int) {
    if !(i < 0 || i >= end) {
        lemma_first_nul_bounds(s, i, end);
    }
}

/// The views of a list of strings.
pub open spec fn string_views(strings: Seq<String>) -> Seq<Seq<char>> {
    strings.map_values(|t: String| t@)
}

/// A string table: its strings in file order (index zero conventionally the
/// empty string), and the header index of the section itself. A string is
/// looked up by its position in this list.
#[derive(Debug)]
pub struct StringTable {
    pub strings: Vec<String>,
    pub section_index: u16,
    pub size: u32,
}

impl StringTable {
    /// Parses a string table body of exactly `size` bytes: strings split at
    /// zero bytes, each byte read as the character with the same code.
    pub fn parse(reader: &mut KSMFileReader, size: u32, section_index: u16) -> (r: Result<
        StringTable,
        DumpError,
    >)
        requires
            old(reader).wf(),
        ensures
            final(reader).wf(),
            final(reader).same_source(old(reader)),
            r is Ok <==> old(reader).current_index + size <= old(reader).contents@.len(),
            r matches Ok(tab) ==> {
                &&& final(reader).current_index == old(reader).current_index + size
                &&& tab.section_index == section_index
                &&& tab.size == size
                &&& string_views(tab.strings@) == split_strings(
                    old(reader).contents@,
                    old(reader).current_index as int,
                    old(reader).current_index + size,
                )
            },
            r matches Err(e) ==> e == DumpError::UnexpectedEndOfInput,
    {
        let ghost s = old(reader).contents@;
        let ghost start = old(reader).current_index as int;
        let ghost end = start + size;
        if (size as usize) > reader.contents.len() - reader.get_current_index() {
            return Err(DumpError::UnexpectedEndOfInput);
        }
        let mut strings: Vec<String> = Vec::new();
        let mut current = String::new();
        let ghost mut token_start = start;
        let mut terminated = true;
        let mut read: u32 = 0;
        proof {
            assert(string_views(strings@) =~= Seq::<Seq<char>>::empty());
        }
        while read < size
            invariant
                reader.wf(),
                reader.same_source(old(reader)),
                s == reader.contents@,
                read <= size,
                reader.current_index == start + read,
                start + size <= s.len(),
                end == start + size,
                0 <= start <= token_start <= start + read,
                current@ == crate::text::chars_of(s.subrange(token_start, start + read)),
                forall|m: int| token_start <= m < start + read ==> s[m] != 0,
                terminated ==> token_start == start + read,
                !terminated ==> token_start < start + read,
                split_strings(s, start, end) == string_views(strings@) + split_strings(
                    s,
                    token_start,
                    end,
                ),
            decreases size - read,
        {
            let ghost cur = start + read;
            let c = reader.next()?;
            read = read + 1;
            if c == 0 {
                proof {
                    lemma_first_nul_at(s, token_start, cur, end);
                    assert(split_strings(s, token_start, end) == seq![
                        crate::text::chars_of(s.subrange(token_start, cur)),
                    ] + split_strings(s, cur + 1, end));
                    assert(string_views(strings@.push(current)) =~= string_views(strings@).push(
                        current@,
                    ));
                    assert(string_views(strings@) + split_strings(s, token_start, end)
                        =~= string_views(strings@.push(current)) + split_strings(s, cur + 1, end));
                }
                strings.push(current);
                current = String::new();
                proof {
                    token_start = cur + 1;
                }
                terminated = true;
                proof {
                    assert(current@ =~= crate::text::chars_of(
                        s.subrange(token_start, start + read),
                    ));
                }
            } else {
                crate::text::push_char(&mut current, c as char);
                terminated = false;
                proof {
                    assert(crate::text::chars_of(s.subrange(token_start, cur + 1))
                        =~= crate::text::chars_of(s.subrange(token_start, cur)).push(c as char));
                }
            }
        }
        if !terminated {
            proof {
                lemma_first_nul_at(s, token_start, end, end);
                assert(split_strings(s, token_start, end) =~= seq![
                    crate::text::chars_of(s.subrange(token_start, end)),
                ]);
                assert(string_views(strings@.push(current)) =~= string_views(strings@).push(
                    current@,
                ));
            }
            strings.push(current);
        }
        proof {
            if terminated {
                assert(split_strings(s, token_start, end) =~= Seq::<Seq<char>>::empty());
            }
            assert(string_views(strings@) =~= split_strings(s, start, end));
        }
        Ok(StringTable { strings, section_index, size })
    }

    /// The string at a position, or `None` past the end of the table.
    pub fn get(&self, index: usize) -> (r: Option<&String>)
        ensures
            r is Some <==> index < self.strings@.len(),
            r matches Some(t) ==> t == self.strings@[index as int],
    {
        if index < self.strings.len() {
            Some(&self.strings[index])
        } else {
            None
        }
    }
}

/// The sum of the encoded sizes of the first `j` constant values.
pub open spec fn values_size(vals: Seq<Value>, j: int) -> int
    decreases j,
{
    if j <= 0 {
        0
    } else {
        values_size(vals, j - 1) + spec_value_len(vals[j - 1]@)
    }
}

proof fn lemma_values_size_push(vals: Seq<Value>, x: Value, j: int)
    requires
        0 <= j <= vals.len(),
    ensures
        values_size(vals.push(x), j) == values_size(vals, j),
    decreases j,
{
    if j > 0 {
        lemma_values_size_push(vals, x, j - 1);
        assert(vals.push(x)[j - 1] == vals[j - 1]);
    }
}

/// A data section: the constant pool of an object file, indexed by
/// position.
#[derive(Debug)]
pub struct DataSection {
    pub data: Vec<Value>,
    pub section_index: u16,
    pub size: u32,
}

impl DataSection {
    /// Parses a data section body: constant values back to back filling
    /// exactly `size` bytes; a boundary mismatch is a malformed section.
    #[verifier::rlimit(60)]
    pub fn parse(reader: &mut KSMFileReader, size: u32, section_index: u16) -> (r: Result<
        DataSection,
        DumpError,
    >)
        requires
            old(reader).wf(),
            4 <= old(reader).current_index,
            old(reader).contents@.len() < 0xffff0000,
        ensures
            final(reader).wf(),
            final(reader).same_source(old(reader)),
            r is Ok <==> values_fill(
                old(reader).contents@,
                old(reader).current_index as int,
                old(reader).current_index + size,
            ),
            r matches Ok(sec) ==> {
                &&& final(reader).current_index == old(reader).current_index + size
                &&& sec.section_index == section_index
                &&& sec.size == size
                &&& values_size(sec.data@, sec.data@.len() as int) == size
                &&& forall|j: int|
                    0 <= j < sec.data@.len() ==> Some((#[trigger] sec.data@[j])@)
                        == spec_decode_value(
                        old(reader).contents@,
                        old(reader).current_index + values_size(sec.data@, j),
                    )
                &&& forall|j: int| 0 <= j < sec.data@.len() ==> value_wf((#[trigger] sec.data@[j])@)
            },
    {
        let ghost s = old(reader).contents@;
        let ghost start = old(reader).current_index as int;
        let mut data: Vec<Value> = Vec::new();
        let mut bytes_read: usize = 0;
        while bytes_read < size as usize
            invariant
                reader.wf(),
                reader.same_source(old(reader)),
                s == reader.contents@,
                s.len() < 0xffff0000,
                4 <= start,
                start == old(reader).current_index,
                bytes_read <= s.len(),
                reader.current_index == start + bytes_read,
                values_fill(s, start, start + size) == values_fill(
                    s,
                    reader.current_index as int,
                    start + size,
                ),
                bytes_read == values_size(data@, data@.len() as int),
                forall|j: int|
                    0 <= j < data@.len() ==> Some((#[trigger] data@[j])@) == spec_decode_value(
                        s,
                        start + values_size(data@, j),
                    ),
                forall|j: int| 0 <= j < data@.len() ==> value_wf((#[trigger] data@[j])@),
            decreases s.len() - reader.current_index,
        {
            let before = reader.get_current_index();
            let ghost prev = data@;
            let argument = match crate::argument::Argument::read(reader) {
                Ok(argument) => argument,
                Err(e) => {
                    proof {
                        if spec_decode_value(s, before as int) is Some {
                            crate::sections::lemma_value_len_positive(
                                spec_decode_value(s, before as int).unwrap(),
                            );
                        }
                        assert(!values_fill(s, before as int, start + size));
                    }
                    return Err(e);
                },
            };
            let after = reader.get_current_index();
            proof {
                crate::sections::lemma_value_len_positive(argument.value@);
                assert(values_fill(s, before as int, start + size) == values_fill(
                    s,
                    after as int,
                    start + size,
                ));
            }
            bytes_read = bytes_read + (after - before);
            data.push(argument.value);
            proof {
                assert(forall|j: int| 0 <= j < prev.len() ==> data@[j] == #[trigger] prev[j]);
                assert forall|j: int| 0 <= j <= prev.len() implies values_size(data@, j)
                    == values_size(prev, j) by {
                    lemma_values_size_push(prev, argument.value, j);
                }
            }
        }
        if bytes_read != size as usize {
            return Err(DumpError::MalformedSectionStructure);
        }
        Ok(DataSection { data, section_index, size })
    }

    /// The constant value at a position, or `None` past the end.
    pub fn get(&self, index: usize) -> (r: Option<&Value>)
        ensures
            r is Some <==> index < self.data@.len(),
            r matches Some(v) ==> v == self.data@[index as int],
    {
        if index < self.data.len() {
            Some(&self.data[index])
        } else {
            None
        }
    }
}

/// The symbol `sym` is exactly what decoding the fourteen-byte record at
/// offset `i` yields.
pub open spec fn symbol_decodes_at(s: Seq<u8>, i: int, sym: KOSymbol) -> bool {
    &&& 0 <= i
    &&& i + 14 <= s.len()
    &&& sym.name_idx as int == le_bytes_val(s, i, 4)
    &&& sym.value_idx as int == le_bytes_val(s, i + 4, 4)
    &&& sym.size as int == le_bytes_val(s, i + 8, 2)
    &&& Some(sym.sym_bind) == spec_sym_bind(s[i + 10])
    &&& Some(sym.sym_type) == spec_sym_type(s[i + 11])
    &&& sym.sh_idx as int == le_bytes_val(s, i + 12, 2)
}

/// The binding a tag byte denotes, `None` for an unknown tag.
pub open spec fn spec_sym_bind(tag: u8) -> Option<SymBind> {
    if tag == 0 {
        Some(SymBind::Local)
    } else if tag == 1 {
        Some(SymBind::Global)
    } else if tag == 2 {
        Some(SymBind::Extern)
    } else {
        None
    }
}

/// The symbol type a tag byte denotes, `None` for an unknown tag.
pub open spec fn spec_sym_type(tag: u8) -> Option<SymType> {
    if tag == 0 {
        Some(SymType::NoType)
    } else if tag == 1 {
        Some(SymType::Object)
    } else if tag == 2 {
        Some(SymType::Func)
    } else if tag == 3 {
        Some(SymType::Section)
    } else if tag == 4 {
        Some(SymType::File)
    } else {
        None
    }
}

/// The relocation entry `entry` is exactly what decoding the eleven-byte
/// record at offset `i` yields.
pub open spec fn reld_decodes_at(s: Seq<u8>, i: int, entry: ReldEntry) -> bool {
    &&& 0 <= i
    &&& i + 11 <= s.len()
    &&& entry.section_index as int == le_bytes_val(s, i, 2)
    &&& entry.instr_index as int == le_bytes_val(s, i + 2, 4)
    &&& entry.operand_index == s[i + 6]
    &&& entry.symbol_index as int == le_bytes_val(s, i + 7, 4)
}

/// The object-format instruction `instr` is exactly what decoding `s` at
/// offset `i` yields: the opcode byte and its four-byte little-endian
/// operand indices.
pub open spec fn ko_instr_decodes_at(s: Seq<u8>, i: int, instr: Instr) -> bool {
    &&& 0 <= i < s.len()
    &&& instr.opcode == s[i]
    &&& Some(instr.num_operands) == spec_ko_arity(instr.opcode)
    &&& instr.operand_width == 4
    &&& i + spec_instr_size(instr.num_operands as int, 4) <= s.len()
    &&& forall|k: int|
        0 <= k < instr.num_operands ==> (#[trigger] instr.operands@[k]) as int == le_bytes_val(
            s,
            i + 1 + k * 4,
            4,
        )
}

/// Whether `n` consecutive symbol records at offset `i` lie in bounds with
/// valid binding and type tags.
pub open spec fn symbols_fill(s: Seq<u8>, i: int, n: int) -> bool
    decreases n,
{
    if n <= 0 {
        true
    } else {
        &&& i >= 0
        &&& i + 14 <= s.len()
        &&& s[i + 10] <= 2
        &&& s[i + 11] <= 4
        &&& symbols_fill(s, i + 14, n - 1)
    }
}

/// Whether `n` consecutive relocation entries at offset `i` lie in bounds
/// with a valid operand position.
pub open spec fn relds_fill(s: Seq<u8>, i: int, n: int) -> bool
    decreases n,
{
    if n <= 0 {
        true
    } else {
        &&& i >= 0
        &&& i + 11 <= s.len()
        &&& (s[i + 6] == 1 || s[i + 6] == 2)
        &&& relds_fill(s, i + 11, n - 1)
    }
}

/// Whether object-format instructions fill `s` from `i` exactly up to
/// `end`: each opcode known, each operand in bounds, and the last
/// instruction ending at `end` itself.
pub open spec fn ko_instrs_fill(s: Seq<u8>, i: int, end: int) -> bool
    decreases end - i,
{
    if i >= end {
        i == end
    } else if i < 0 || i >= s.len() {
        false
    } else {
        match spec_ko_arity(s[i]) {
            Option::None => false,
            Option::Some(a) => if i + spec_instr_size(a as int, 4) <= s.len() && spec_instr_size(
                a as int,
                4,
            ) >= 1 && i + spec_instr_size(a as int, 4) <= end {
                ko_instrs_fill(s, i + spec_instr_size(a as int, 4), end)
            } else {
                false
            },
        }
    }
}

/// Whether constant values fill `s` from `i` exactly up to `end`.
pub open spec fn values_fill(s: Seq<u8>, i: int, end: int) -> bool
    decreases end - i,
{
    if i >= end {
        i == end
    } else {
        match spec_decode_value(s, i) {
            Option::None => false,
            Option::Some(v) => if spec_value_len(v) >= 1 && i + spec_value_len(v) <= end {
                values_fill(s, i + spec_value_len(v), end)
            } else {
                false
            },
        }
    }
}

proof fn lemma_arity_size_positive(s: Seq<u8>, i: int)
    ensures
        0 <= i < s.len() && spec_ko_arity(s[i]) is Some ==> spec_instr_size(
            spec_ko_arity(s[i]).unwrap() as int,
            4,
        ) >= 1,
{
    if 0 <= i < s.len() && spec_ko_arity(s[i]) is Some {
        let a = spec_ko_arity(s[i]).unwrap();
        assert(a as int * 4 >= 0) by (nonlinear_arith)
            requires
                a >= 0,
        ;
    }
}

/// A symbol table: its fourteen-byte records in file order.
#[derive(Debug)]
pub struct SymbolTable {
    pub symbols: Vec<KOSymbol>,
    pub section_index: u16,
    pub size: u32,
}

impl SymbolTable {
    /// Parses a symbol table body: `size` must be a whole number of
    /// fourteen-byte records.
    pub fn parse(reader: &mut KSMFileReader, size: u32, section_index: u16) -> (r: Result<
        SymbolTable,
        DumpError,
    >)
        requires
            old(reader).wf(),
        ensures
            final(reader).wf(),
            final(reader).same_source(old(reader)),
            r is Ok <==> (size % 14 == 0 && symbols_fill(
                old(reader).contents@,
                old(reader).current_index as int,
                size as int / 14,
            )),
            r matches Ok(tab) ==> {
                &&& final(reader).current_index == old(reader).current_index + size
                &&& tab.section_index == section_index
                &&& tab.size == size
                &&& tab.symbols@.len() == size as int / 14
                &&& forall|j: int|
                    0 <= j < tab.symbols@.len() ==> symbol_decodes_at(
                        old(reader).contents@,
                        old(reader).current_index + j * 14,
                        #[trigger] tab.symbols@[j],
                    )
            },
    {
        if size % 14 != 0 {
            return Err(DumpError::MalformedSectionStructure);
        }
        let ghost s = old(reader).contents@;
        let ghost start = old(reader).current_index as int;
        let n = size / 14;
        let mut symbols: Vec<KOSymbol> = Vec::new();
        let mut k: u32 = 0;
        while k < n
            invariant
                reader.wf(),
                reader.same_source(old(reader)),
                s == reader.contents@,
                start == old(reader).current_index,
                k <= n,
                n == size as int / 14,
                size == n * 14,
                reader.current_index == start + k * 14,
                symbols@.len() == k,
                forall|j: int|
                    0 <= j < symbols@.len() ==> symbol_decodes_at(
                        s,
                        start + j * 14,
                        #[trigger] symbols@[j],
                    ),
                symbols_fill(s, start, n as int) == symbols_fill(
                    s,
                    reader.current_index as int,
                    n - k,
                ),
            decreases n - k,
        {
            let ghost cur = reader.current_index as int;
            let symbol = match KOSymbol::parse(reader) {
                Ok(symbol) => symbol,
                Err(e) => {
                    proof {
                        assert(!symbols_fill(s, cur, n - k));
                    }
                    return Err(e);
                },
            };
            symbols.push(symbol);
            k = k + 1;
        }
        Ok(SymbolTable { symbols, section_index, size })
    }

    /// The symbol at a position, or `None` past the end.
    pub fn get(&self, index: usize) -> (r: Option<&KOSymbol>)
        ensures
            r is Some <==> index < self.symbols@.len(),
            r matches Some(sym) ==> sym == self.symbols@[index as int],
    {
        if index < self.symbols.len() {
            Some(&self.symbols[index])
        } else {
            None
        }
    }
}

/// A relocation data section: its eleven-byte entries in file order.
#[derive(Debug)]
pub struct ReldSection {
    pub entries: Vec<ReldEntry>,
    pub section_index: u16,
    pub size: u32,
}

impl ReldSection {
    /// Parses a relocation section body: `size` must be a whole number of
    /// eleven-byte entries.
    pub fn parse(reader: &mut KSMFileReader, size: u32, section_index: u16) -> (r: Result<
        ReldSection,
        DumpError,
    >)
        requires
            old(reader).wf(),
        ensures
            final(reader).wf(),
            final(reader).same_source(old(reader)),
            r is Ok <==> (size % 11 == 0 && relds_fill(
                old(reader).contents@,
                old(reader).current_index as int,
                size as int / 11,
            )),
            r matches Ok(sec) ==> {
                &&& final(reader).current_index == old(reader).current_index + size
                &&& sec.section_index == section_index
                &&& sec.size == size
                &&& sec.entries@.len() == size as int / 11
                &&& forall|j: int|
                    0 <= j < sec.entries@.len() ==> ((#[trigger] sec.entries@[j]).operand_index == 1
                        || sec.entries@[j].operand_index == 2)
                &&& forall|j: int|
                    0 <= j < sec.entries@.len() ==> reld_decodes_at(
                        old(reader).contents@,
                        old(reader).current_index + j * 11,
                        #[trigger] sec.entries@[j],
                    )
            },
    {
        if size % 11 != 0 {
            return Err(DumpError::MalformedSectionStructure);
        }
        let ghost s = old(reader).contents@;
        let ghost start = old(reader).current_index as int;
        let n = size / 11;
        let mut entries: Vec<ReldEntry> = Vec::new();
        let mut k: u32 = 0;
        while k < n
            invariant
                reader.wf(),
                reader.same_source(old(reader)),
                s == reader.contents@,
                start == old(reader).current_index,
                k <= n,
                n == size as int / 11,
                size == n * 11,
                reader.current_index == start + k * 11,
                entries@.len() == k,
                forall|j: int|
                    0 <= j < entries@.len() ==> reld_decodes_at(
                        s,
                        start + j * 11,
                        #[trigger] entries@[j],
                    ),
                relds_fill(s, start, n as int) == relds_fill(
                    s,
                    reader.current_index as int,
                    n - k,
                ),
                forall|j: int|
                    0 <= j < entries@.len() ==> ((#[trigger] entries@[j]).operand_index == 1
                        || entries@[j].operand_index == 2),
            decreases n - k,
        {
            let ghost cur = reader.current_index as int;
            let entry = match ReldEntry::parse(reader) {
                Ok(entry) => entry,
                Err(e) => {
                    proof {
                        assert(!relds_fill(s, cur, n - k));
                    }
                    return Err(e);
                },
            };
            entries.push(entry);
            k = k + 1;
        }
        Ok(ReldSection { entries, section_index, size })
    }
}

/// A function section: its decoded instructions, with fixed four-byte
/// operand indices into the data section.
#[derive(Debug)]
pub struct FuncSection {
    pub instructions: Vec<Instr>,
    pub section_index: u16,
    pub size: u32,
}

impl FuncSection {
    /// Parses a function section body: instructions back to back filling
    /// exactly `size` bytes; a boundary mismatch is a malformed section.
    /// The declared size thus equals the sum of the instruction sizes.
    pub fn parse(reader: &mut KSMFileReader, size: u32, section_index: u16) -> (r: Result<
        FuncSection,
        DumpError,
    >)
        requires
            old(reader).wf(),
            old(reader).contents@.len() < 0xffff0000,
        ensures
            final(reader).wf(),
            final(reader).same_source(old(reader)),
            r is Ok <==> ko_instrs_fill(
                old(reader).contents@,
                old(reader).current_index as int,
                old(reader).current_index + size,
            ),
            r matches Ok(sec) ==> {
                &&& final(reader).current_index == old(reader).current_index + size
                &&& sec.section_index == section_index
                &&& sec.size == size
                &&& crate::sections::instrs_size(
                    sec.instructions@,
                    sec.instructions@.len() as int,
                ) == size
                &&& forall|j: int|
                    0 <= j < sec.instructions@.len() ==> (#[trigger] sec.instructions@[j]).wf()
                        && sec.instructions@[j].operand_width == 4 && spec_ko_arity(
                        sec.instructions@[j].opcode,
                    ) == Some(sec.instructions@[j].num_operands)
                &&& forall|j: int|
                    0 <= j < sec.instructions@.len() ==> ko_instr_decodes_at(
                        old(reader).contents@,
                        old(reader).current_index + crate::sections::instrs_size(
                            sec.instructions@,
                            j,
                        ),
                        #[trigger] sec.instructions@[j],
                    )
            },
    {
        let ghost s = old(reader).contents@;
        let ghost start = old(reader).current_index as int;
        let mut instructions: Vec<Instr> = Vec::new();
        let mut read_bytes: usize = 0;
        while read_bytes < size as usize
            invariant
                reader.wf(),
                reader.same_source(old(reader)),
                s == reader.contents@,
                s.len() < 0xffff0000,
                0 <= start,
                start == old(reader).current_index,
                read_bytes <= s.len(),
                reader.current_index == start + read_bytes,
                ko_instrs_fill(s, start, start + size) == ko_instrs_fill(
                    s,
                    reader.current_index as int,
                    start + size,
                ),
                read_bytes == crate::sections::instrs_size(
                    instructions@,
                    instructions@.len() as int,
                ),
                forall|j: int|
                    0 <= j < instructions@.len() ==> (#[trigger] instructions@[j]).wf()
                        && instructions@[j].operand_width == 4 && spec_ko_arity(
                        instructions@[j].opcode,
                    ) == Some(instructions@[j].num_operands),
                forall|j: int|
                    0 <= j < instructions@.len() ==> ko_instr_decodes_at(
                        s,
                        start + crate::sections::instrs_size(instructions@, j),
                        #[trigger] instructions@[j],
                    ),
            decreases s.len() - reader.current_index,
        {
            let before = reader.get_current_index();
            let ghost prev = instructions@;
            let instr = match parse_ko_instr(reader) {
                Ok(instr) => instr,
                Err(e) => {
                    proof {
                        lemma_arity_size_positive(s, before as int);
                        assert(!ko_instrs_fill(s, before as int, start + size));
                    }
                    return Err(e);
                },
            };
            let after = reader.get_current_index();
            read_bytes = read_bytes + (after - before);
            instructions.push(instr);
            proof {
                lemma_arity_size_positive(s, before as int);
                assert(ko_instrs_fill(s, before as int, start + size) == ko_instrs_fill(
                    s,
                    after as int,
                    start + size,
                ));
                assert(forall|j: int|
                    0 <= j < prev.len() ==> instructions@[j] == #[trigger] prev[j]);
                assert forall|j: int| 0 <= j <= prev.len() implies crate::sections::instrs_size(
                    instructions@,
                    j,
                ) == crate::sections::instrs_size(prev, j) by {
                    crate::sections::lemma_instrs_size_push_pub(prev, instr, j);
                }
            }
        }
        if read_bytes != size as usize {
            proof {
                assert(!ko_instrs_fill(s, start, start + size)) by {
                    if ko_instrs_fill(s, start + read_bytes, start + size) {
                    }
                }
            }
            return Err(DumpError::MalformedSectionStructure);
        }
        Ok(FuncSection { instructions, section_index, size })
    }
}

/// The header record at offset `i` matches the given parsed header.
pub open spec fn header_decodes_at(s: Seq<u8>, i: int, h: SectionHeader) -> bool {
    &&& 0 <= i
    &&& i + 9 <= s.len()
    &&& h.name_idx as int == le_bytes_val(s, i, 4)
    &&& Some(h.section_kind) == spec_section_kind(s[i + 4])
    &&& h.size as int == le_bytes_val(s, i + 5, 4)
}

/// Whether `m` consecutive section headers at offset `i` lie in bounds and
/// carry kinds a parsed file accepts past the null entry: known, and
/// neither null nor debug.
pub open spec fn headers_tail_ok(s: Seq<u8>, i: int, m: int) -> bool
    decreases m,
{
    if m <= 0 {
        true
    } else {
        &&& 0 <= i
        &&& i + 9 <= s.len()
        &&& (match spec_section_kind(s[i + 4]) {
            Option::Some(k) => k != SectionKind::Null && k != SectionKind::Debug,
            Option::None => false,
        })
        &&& headers_tail_ok(s, i + 9, m - 1)
    }
}

/// Whether one section body of the given kind and size lies cleanly at
/// offset `i`.
pub open spec fn spec_body_ok(s: Seq<u8>, kind: SectionKind, i: int, size: int) -> bool {
    match kind {
        SectionKind::StrTab => i + size <= s.len(),
        SectionKind::SymTab => size % 14 == 0 && symbols_fill(s, i, size / 14),
        SectionKind::Data => values_fill(s, i, i + size),
        SectionKind::Func => ko_instrs_fill(s, i, i + size),
        SectionKind::Reld => size % 11 == 0 && relds_fill(s, i, size / 11),
        _ => false,
    }
}

/// Whether the section bodies from header index `idx` on lie cleanly one
/// after another starting at offset `pos`, with the name table's body (at
/// header index `shidx`) skipped: its body was already read.
pub open spec fn bodies_ok(s: Seq<u8>, hb: int, shidx: int, idx: int, n: int, pos: int) -> bool
    decreases n - idx,
{
    if idx >= n {
        true
    } else if idx == shidx {
        bodies_ok(s, hb, shidx, idx + 1, n, pos)
    } else {
        let at = hb + 9 * idx;
        match spec_section_kind(s[at + 4]) {
            Option::Some(kind) => {
                &&& spec_body_ok(s, kind, pos, le_bytes_val(s, at + 5, 4))
                &&& bodies_ok(s, hb, shidx, idx + 1, n, pos + le_bytes_val(s, at + 5, 4))
            },
            Option::None => false,
        }
    }
}

/// The whole object file decodes from offset `i`: the header, the section
/// header table led by the null entry, the name table's body, then every
/// other body in header order.
pub open spec fn spec_ko_file_ok(s: Seq<u8>, i: int) -> bool {
    let hb = i + 9;
    let num = le_bytes_val(s, i + 5, 2);
    let shidx = le_bytes_val(s, i + 7, 2);
    let bb = hb + 9 * num;
    &&& i + 9 <= s.len()
    &&& crate::fio::spec_is_ko(s.skip(i))
    &&& s[i + 4] == 4
    &&& num > 0
    &&& hb + 9 <= s.len()
    &&& spec_section_kind(s[hb + 4]) == Some(SectionKind::Null)
    &&& headers_tail_ok(s, hb + 9, num - 1)
    &&& shidx != 0
    &&& shidx < num
    &&& bb + le_bytes_val(s, hb + 9 * shidx + 5, 4) <= s.len()
    &&& bodies_ok(s, hb, shidx, 1, num, bb + le_bytes_val(s, hb + 9 * shidx + 5, 4))
}

proof fn lemma_bodies_ok_step_false(s: Seq<u8>, hb: int, shidx: int, idx: int, n: int, pos: int)
    requires
        idx != shidx,
        idx < n,
        !(match spec_section_kind(s[hb + 9 * idx + 4]) {
            Option::Some(kind) => spec_body_ok(s, kind, pos, le_bytes_val(s, hb + 9 * idx + 5, 4)),
            Option::None => false,
        }),
    ensures
        !bodies_ok(s, hb, shidx, idx, n, pos),
{
}

/// The byte offset where the body of the section at header index `idx`
/// begins: the first body (`base`) plus the declared sizes of the earlier
/// bodies, the name table's body (already read before `base`) excepted.
pub open spec fn body_pos(s: Seq<u8>, hb: int, shidx: int, idx: int, base: int) -> int
    decreases idx,
{
    if idx <= 1 {
        base
    } else {
        body_pos(s, hb, shidx, idx - 1, base) + if idx - 1 == shidx {
            0
        } else {
            le_bytes_val(s, hb + 9 * (idx - 1) + 5, 4)
        }
    }
}

/// The function section's instructions are exactly what decoding its body
/// at offset `p` yields, and nothing is missing: their sizes fill the
/// declared size.
pub open spec fn func_body_decodes(s: Seq<u8>, p: int, sec: FuncSection) -> bool {
    &&& crate::sections::instrs_size(sec.instructions@, sec.instructions@.len() as int)
        == sec.size
    &&& forall|j: int|
        0 <= j < sec.instructions@.len() ==> ko_instr_decodes_at(
            s,
            p + crate::sections::instrs_size(sec.instructions@, j),
            #[trigger] sec.instructions@[j],
        )
}

/// The symbol table's records are exactly what decoding its body at offset
/// `p` yields.
pub open spec fn symtab_body_decodes(s: Seq<u8>, p: int, tab: SymbolTable) -> bool {
    &&& tab.symbols@.len() == tab.size as int / 14
    &&& forall|j: int|
        0 <= j < tab.symbols@.len() ==> symbol_decodes_at(s, p + j * 14, #[trigger] tab.symbols@[j])
}

/// The relocation section's entries are exactly what decoding its body at
/// offset `p` yields.
pub open spec fn reld_body_decodes(s: Seq<u8>, p: int, sec: ReldSection) -> bool {
    &&& sec.entries@.len() == sec.size as int / 11
    &&& forall|j: int|
        0 <= j < sec.entries@.len() ==> reld_decodes_at(s, p + j * 11, #[trigger] sec.entries@[j])
}

/// The data section's values are exactly what decoding its body at offset
/// `p` yields, and nothing is missing: their sizes fill the declared size.
pub open spec fn data_body_decodes(s: Seq<u8>, p: int, sec: DataSection) -> bool {
    &&& values_size(sec.data@, sec.data@.len() as int) == sec.size
    &&& forall|j: int|
        0 <= j < sec.data@.len() ==> Some((#[trigger] sec.data@[j])@) == spec_decode_value(
            s,
            p + values_size(sec.data@, j),
        )
}

/// The string table's strings are exactly what splitting its body at offset
/// `p` yields.
pub open spec fn strtab_body_decodes(s: Seq<u8>, p: int, tab: StringTable) -> bool {
    string_views(tab.strings@) == split_strings(s, p, p + tab.size)
}

/// The function-section list holds exactly the function-kind headers among
/// indices `1..upto` (the name table's own index excepted), in header order.
pub open spec fn funcs_complete(
    headers: Seq<SectionHeader>,
    shidx: int,
    upto: int,
    v: Seq<FuncSection>,
) -> bool {
    &&& forall|a: int|
        0 <= a < v.len() ==> 1 <= (#[trigger] v[a]).section_index < upto && v[a].section_index
            != shidx && headers[v[a].section_index as int].section_kind == SectionKind::Func
    &&& forall|a: int, b: int|
        0 <= a < b < v.len() ==> (#[trigger] v[a]).section_index < (#[trigger] v[b]).section_index
    &&& forall|j: int|
        1 <= j < upto && j != shidx && (#[trigger] headers[j]).section_kind == SectionKind::Func
            ==> exists|a: int| 0 <= a < v.len() && (#[trigger] v[a]).section_index == j
}

/// The symbol-table list holds exactly the symbol-table headers among
/// indices `1..upto` (the name table's own index excepted), in header order.
pub open spec fn symtabs_complete(
    headers: Seq<SectionHeader>,
    shidx: int,
    upto: int,
    v: Seq<SymbolTable>,
) -> bool {
    &&& forall|a: int|
        0 <= a < v.len() ==> 1 <= (#[trigger] v[a]).section_index < upto && v[a].section_index
            != shidx && headers[v[a].section_index as int].section_kind == SectionKind::SymTab
    &&& forall|a: int, b: int|
        0 <= a < b < v.len() ==> (#[trigger] v[a]).section_index < (#[trigger] v[b]).section_index
    &&& forall|j: int|
        1 <= j < upto && j != shidx && (#[trigger] headers[j]).section_kind == SectionKind::SymTab
            ==> exists|a: int| 0 <= a < v.len() && (#[trigger] v[a]).section_index == j
}

/// The string-table list holds exactly the string-table headers among
/// indices `1..upto` other than the name table itself, in header order.
pub open spec fn strtabs_complete(
    headers: Seq<SectionHeader>,
    shidx: int,
    upto: int,
    v: Seq<StringTable>,
) -> bool {
    &&& forall|a: int|
        0 <= a < v.len() ==> 1 <= (#[trigger] v[a]).section_index < upto && v[a].section_index
            != shidx && headers[v[a].section_index as int].section_kind == SectionKind::StrTab
    &&& forall|a: int, b: int|
        0 <= a < b < v.len() ==> (#[trigger] v[a]).section_index < (#[trigger] v[b]).section_index
    &&& forall|j: int|
        1 <= j < upto && j != shidx && (#[trigger] headers[j]).section_kind == SectionKind::StrTab
            ==> exists|a: int| 0 <= a < v.len() && (#[trigger] v[a]).section_index == j
}

/// The data-section list holds exactly the data-kind headers among indices
/// `1..upto` (the name table's own index excepted), in header order.
pub open spec fn datas_complete(
    headers: Seq<SectionHeader>,
    shidx: int,
    upto: int,
    v: Seq<DataSection>,
) -> bool {
    &&& forall|a: int|
        0 <= a < v.len() ==> 1 <= (#[trigger] v[a]).section_index < upto && v[a].section_index
            != shidx && headers[v[a].section_index as int].section_kind == SectionKind::Data
    &&& forall|a: int, b: int|
        0 <= a < b < v.len() ==> (#[trigger] v[a]).section_index < (#[trigger] v[b]).section_index
    &&& forall|j: int|
        1 <= j < upto && j != shidx && (#[trigger] headers[j]).section_kind == SectionKind::Data
            ==> exists|a: int| 0 <= a < v.len() && (#[trigger] v[a]).section_index == j
}

/// The relocation-section list holds exactly the relocation-kind headers
/// among indices `1..upto` (the name table's own index excepted), in header
/// order.
pub open spec fn relds_complete(
    headers: Seq<SectionHeader>,
    shidx: int,
    upto: int,
    v: Seq<ReldSection>,
) -> bool {
    &&& forall|a: int|
        0 <= a < v.len() ==> 1 <= (#[trigger] v[a]).section_index < upto && v[a].section_index
            != shidx && headers[v[a].section_index as int].section_kind == SectionKind::Reld
    &&& forall|a: int, b: int|
        0 <= a < b < v.len() ==> (#[trigger] v[a]).section_index < (#[trigger] v[b]).section_index
    &&& forall|j: int|
        1 <= j < upto && j != shidx && (#[trigger] headers[j]).section_kind == SectionKind::Reld
            ==> exists|a: int| 0 <= a < v.len() && (#[trigger] v[a]).section_index == j
}

/// A fully parsed object file: the header, the section header table, the
/// section-name string table, and the sections grouped by kind.
#[derive(Debug)]
pub struct KOFile {
    pub header: KOHeader,
    pub shstrtab: StringTable,
    pub section_headers: Vec<SectionHeader>,
    pub str_tabs: Vec<StringTable>,
    pub sym_tabs: Vec<SymbolTable>,
    pub data_sections: Vec<DataSection>,
    pub func_sections: Vec<FuncSection>,
    pub reld_sections: Vec<ReldSection>,
}

impl KOFile {
    /// A sound parsed object file: function sections are sound with
    /// four-byte operands, and relocation entries name operand one or two.
    pub open spec fn wf(&self) -> bool {
        &&& forall|i: int, j: int|
            0 <= i < self.func_sections@.len() && 0 <= j
                < (#[trigger] self.func_sections@[i]).instructions@.len() ==> (
            #[trigger] self.func_sections@[i].instructions@[j]).wf()
                && self.func_sections@[i].instructions@[j].operand_width == 4
        &&& forall|i: int, j: int|
            0 <= i < self.reld_sections@.len() && 0 <= j
                < (#[trigger] self.reld_sections@[i]).entries@.len() ==> ((
            #[trigger] self.reld_sections@[i].entries@[j]).operand_index == 1
                || self.reld_sections@[i].entries@[j].operand_index == 2)
        &&& forall|i: int|
            0 <= i < self.func_sections@.len() ==> crate::sections::instrs_size(
                (#[trigger] self.func_sections@[i]).instructions@,
                self.func_sections@[i].instructions@.len() as int,
            ) == self.func_sections@[i].size
    }

    /// Parses a whole object file: the header, `num_headers` section
    /// headers (the first of which must be the null header), the name
    /// table's body first, then every other section body in header order.
    #[verifier::rlimit(100)]
    pub fn parse(reader: &mut KSMFileReader) -> (r: Result<KOFile, DumpError>)
        requires
            old(reader).wf(),
            old(reader).contents@.len() < 0xffff0000,
        ensures
            final(reader).wf(),
            r is Ok <==> spec_ko_file_ok(old(reader).contents@, old(reader).current_index as int),
            r matches Ok(file) ==> {
                &&& file.wf()
                &&& file.section_headers@.len() == file.header.num_headers
                &&& file.header.version == 4
                &&& forall|j: int|
                    0 <= j < file.section_headers@.len() ==> header_decodes_at(
                        old(reader).contents@,
                        old(reader).current_index + 9 + 9 * j,
                        #[trigger] file.section_headers@[j],
                    )
                &&& file.header.num_headers as int == le_bytes_val(
                    old(reader).contents@,
                    old(reader).current_index + 5,
                    2,
                )
                &&& file.header.shstrtab_idx as int == le_bytes_val(
                    old(reader).contents@,
                    old(reader).current_index + 7,
                    2,
                )
                &&& file.section_headers@.len() > 0 ==> file.section_headers@[0].section_kind
                    == SectionKind::Null
                &&& forall|i: int|
                    0 <= i < file.func_sections@.len()
                        ==> crate::sections::instrs_size(
                        (#[trigger] file.func_sections@[i]).instructions@,
                        file.func_sections@[i].instructions@.len() as int,
                    ) == file.func_sections@[i].size
                &&& ({
                    let s0 = old(reader).contents@;
                    let i0 = old(reader).current_index as int;
                    let hb0 = i0 + 9;
                    let shidx0 = le_bytes_val(s0, i0 + 7, 2);
                    let base0 = hb0 + 9 * le_bytes_val(s0, i0 + 5, 2) + le_bytes_val(
                        s0,
                        hb0 + 9 * shidx0 + 5,
                        4,
                    );
                    &&& forall|a: int|
                        0 <= a < file.func_sections@.len() ==> func_body_decodes(
                            s0,
                            body_pos(
                                s0,
                                hb0,
                                shidx0,
                                (#[trigger] file.func_sections@[a]).section_index as int,
                                base0,
                            ),
                            file.func_sections@[a],
                        )
                    &&& forall|a: int|
                        0 <= a < file.sym_tabs@.len() ==> symtab_body_decodes(
                            s0,
                            body_pos(
                                s0,
                                hb0,
                                shidx0,
                                (#[trigger] file.sym_tabs@[a]).section_index as int,
                                base0,
                            ),
                            file.sym_tabs@[a],
                        )
                    &&& forall|a: int|
                        0 <= a < file.reld_sections@.len() ==> reld_body_decodes(
                            s0,
                            body_pos(
                                s0,
                                hb0,
                                shidx0,
                                (#[trigger] file.reld_sections@[a]).section_index as int,
                                base0,
                            ),
                            file.reld_sections@[a],
                        )
                    &&& forall|a: int|
                        0 <= a < file.data_sections@.len() ==> data_body_decodes(
                            s0,
                            body_pos(
                                s0,
                                hb0,
                                shidx0,
                                (#[trigger] file.data_sections@[a]).section_index as int,
                                base0,
                            ),
                            file.data_sections@[a],
                        )
                    &&& forall|a: int|
                        0 <= a < file.str_tabs@.len() ==> strtab_body_decodes(
                            s0,
                            body_pos(
                                s0,
                                hb0,
                                shidx0,
                                (#[trigger] file.str_tabs@[a]).section_index as int,
                                base0,
                            ),
                            file.str_tabs@[a],
                        )
                    &&& strtab_body_decodes(
                        s0,
                        hb0 + 9 * le_bytes_val(s0, i0 + 5, 2),
                        file.shstrtab,
                    )
                })
                &&& funcs_complete(
                    file.section_headers@,
                    file.header.shstrtab_idx as int,
                    file.section_headers@.len() as int,
                    file.func_sections@,
                )
                &&& symtabs_complete(
                    file.section_headers@,
                    file.header.shstrtab_idx as int,
                    file.section_headers@.len() as int,
                    file.sym_tabs@,
                )
                &&& strtabs_complete(
                    file.section_headers@,
                    file.header.shstrtab_idx as int,
                    file.section_headers@.len() as int,
                    file.str_tabs@,
                )
                &&& datas_complete(
                    file.section_headers@,
                    file.header.shstrtab_idx as int,
                    file.section_headers@.len() as int,
                    file.data_sections@,
                )
                &&& relds_complete(
                    file.section_headers@,
                    file.header.shstrtab_idx as int,
                    file.section_headers@.len() as int,
                    file.reld_sections@,
                )
            },
    {
        let ghost s = old(reader).contents@;
        let ghost i0 = old(reader).current_index as int;
        let ghost hb = i0 + 9;
        let header = KOHeader::parse(reader)?;
        let ghost num = header.num_headers as int;
        let ghost shidx = header.shstrtab_idx as int;
        if header.num_headers == 0 {
            return Err(DumpError::MalformedSectionStructure);
        }
        let null_header = SectionHeader::parse(reader)?;
        if !(null_header.section_kind == SectionKind::Null) {
            return Err(DumpError::MalformedSectionStructure);
        }
        let mut section_headers: Vec<SectionHeader> = Vec::new();
        section_headers.push(null_header);
        let mut i: u16 = 1;
        while i < header.num_headers
            invariant
                reader.wf(),
                reader.contents == old(reader).contents,
                s == reader.contents@,
                i0 == old(reader).current_index,
                hb == i0 + 9,
                num == header.num_headers,
                num == le_bytes_val(s, i0 + 5, 2),
                1 <= i <= header.num_headers,
                reader.current_index == hb + 9 * i,
                reader.current_index >= 9,
                section_headers@.len() == i,
                section_headers@[0].section_kind == SectionKind::Null,
                headers_tail_ok(s, hb + 9, num - 1) == headers_tail_ok(
                    s,
                    reader.current_index as int,
                    num - i,
                ),
                forall|j: int|
                    0 <= j < section_headers@.len() ==> header_decodes_at(
                        s,
                        hb + 9 * j,
                        #[trigger] section_headers@[j],
                    ),
                forall|j: int|
                    1 <= j < section_headers@.len() ==> (
                    #[trigger] section_headers@[j]).section_kind != SectionKind::Null
                        && section_headers@[j].section_kind != SectionKind::Debug,
            decreases header.num_headers - i,
        {
            let ghost cur = reader.current_index as int;
            let h = match SectionHeader::parse(reader) {
                Ok(h) => h,
                Err(e) => {
                    proof {
                        assert(!headers_tail_ok(s, cur, num - i));
                    }
                    return Err(e);
                },
            };
            match h.section_kind {
                SectionKind::Debug => {
                    proof {
                        assert(!headers_tail_ok(s, cur, num - i));
                    }
                    return Err(DumpError::MalformedSectionStructure);
                },
                SectionKind::Null => {
                    proof {
                        assert(!headers_tail_ok(s, cur, num - i));
                    }
                    return Err(DumpError::MalformedSectionStructure);
                },
                _ => {},
            }
            section_headers.push(h);
            proof {
                assert(9 * ((i + 1) as int) == 9 * (i as int) + 9);
            }
            i = i + 1;
        }
        if header.shstrtab_idx == 0 {
            return Err(DumpError::MalformedSectionStructure);
        }
        if header.shstrtab_idx as usize >= section_headers.len() {
            return Err(DumpError::DanglingReference);
        }
        let ghost bb = hb + 9 * num;
        let shstrtab_size = section_headers[header.shstrtab_idx as usize].size;
        let shstrtab = StringTable::parse(reader, shstrtab_size, header.shstrtab_idx)?;
        let mut str_tabs: Vec<StringTable> = Vec::new();
        let mut sym_tabs: Vec<SymbolTable> = Vec::new();
        let mut data_sections: Vec<DataSection> = Vec::new();
        let mut func_sections: Vec<FuncSection> = Vec::new();
        let mut reld_sections: Vec<ReldSection> = Vec::new();
        let n = section_headers.len();
        let mut idx: usize = 1;
        let ghost scan_start = reader.current_index as int;
        while idx < n
            invariant
                reader.wf(),
                reader.contents == old(reader).contents,
                s == reader.contents@,
                s.len() < 0xffff0000,
                1 <= idx <= n,
                n == section_headers@.len(),
                n == num,
                i0 == old(reader).current_index,
                hb == i0 + 9,
                bb == hb + 9 * num,
                shidx == header.shstrtab_idx,
                num == le_bytes_val(s, i0 + 5, 2),
                shidx == le_bytes_val(s, i0 + 7, 2),
                scan_start == bb + le_bytes_val(s, hb + 9 * shidx + 5, 4),
                n <= u16::MAX + 1,
                reader.current_index >= 9,
                reader.current_index == body_pos(s, hb, shidx, idx as int, scan_start),
                forall|a: int|
                    0 <= a < func_sections@.len() ==> func_body_decodes(
                        s,
                        body_pos(
                            s,
                            hb,
                            shidx,
                            (#[trigger] func_sections@[a]).section_index as int,
                            scan_start,
                        ),
                        func_sections@[a],
                    ),
                forall|a: int|
                    0 <= a < sym_tabs@.len() ==> symtab_body_decodes(
                        s,
                        body_pos(
                            s,
                            hb,
                            shidx,
                            (#[trigger] sym_tabs@[a]).section_index as int,
                            scan_start,
                        ),
                        sym_tabs@[a],
                    ),
                forall|a: int|
                    0 <= a < reld_sections@.len() ==> reld_body_decodes(
                        s,
                        body_pos(
                            s,
                            hb,
                            shidx,
                            (#[trigger] reld_sections@[a]).section_index as int,
                            scan_start,
                        ),
                        reld_sections@[a],
                    ),
                forall|a: int|
                    0 <= a < data_sections@.len() ==> data_body_decodes(
                        s,
                        body_pos(
                            s,
                            hb,
                            shidx,
                            (#[trigger] data_sections@[a]).section_index as int,
                            scan_start,
                        ),
                        data_sections@[a],
                    ),
                forall|a: int|
                    0 <= a < str_tabs@.len() ==> strtab_body_decodes(
                        s,
                        body_pos(
                            s,
                            hb,
                            shidx,
                            (#[trigger] str_tabs@[a]).section_index as int,
                            scan_start,
                        ),
                        str_tabs@[a],
                    ),
                funcs_complete(section_headers@, shidx, idx as int, func_sections@),
                symtabs_complete(section_headers@, shidx, idx as int, sym_tabs@),
                strtabs_complete(section_headers@, shidx, idx as int, str_tabs@),
                datas_complete(section_headers@, shidx, idx as int, data_sections@),
                relds_complete(section_headers@, shidx, idx as int, reld_sections@),
                bodies_ok(s, hb, shidx, 1, num, scan_start) == bodies_ok(
                    s,
                    hb,
                    shidx,
                    idx as int,
                    num,
                    reader.current_index as int,
                ),
                forall|j: int|
                    0 <= j < section_headers@.len() ==> header_decodes_at(
                        s,
                        hb + 9 * j,
                        #[trigger] section_headers@[j],
                    ),
                forall|j: int|
                    1 <= j < section_headers@.len() ==> (
                    #[trigger] section_headers@[j]).section_kind != SectionKind::Null
                        && section_headers@[j].section_kind != SectionKind::Debug,
                forall|a: int, b: int|
                    0 <= a < func_sections@.len() && 0 <= b
                        < (#[trigger] func_sections@[a]).instructions@.len() ==> (
                    #[trigger] func_sections@[a].instructions@[b]).wf()
                        && func_sections@[a].instructions@[b].operand_width == 4,
                forall|a: int|
                    0 <= a < func_sections@.len() ==> crate::sections::instrs_size(
                        (#[trigger] func_sections@[a]).instructions@,
                        func_sections@[a].instructions@.len() as int,
                    ) == func_sections@[a].size,
                forall|a: int, b: int|
                    0 <= a < reld_sections@.len() && 0 <= b
                        < (#[trigger] reld_sections@[a]).entries@.len() ==> ((
                    #[trigger] reld_sections@[a].entries@[b]).operand_index == 1
                        || reld_sections@[a].entries@[b].operand_index == 2),
            decreases n - idx,
        {
            if idx == header.shstrtab_idx as usize {
                idx = idx + 1;
            } else {
                let ghost cur = reader.current_index as int;
                let ghost at = hb + 9 * idx;
                proof {
                    assert(header_decodes_at(s, at, section_headers@[idx as int]));
                }
                let h_kind = section_headers[idx].section_kind;
                let h_size = section_headers[idx].size;
                match h_kind {
                    SectionKind::StrTab => {
                        let tab = match StringTable::parse(reader, h_size, idx as u16) {
                            Ok(tab) => tab,
                            Err(e) => {
                                proof {
                                    lemma_bodies_ok_step_false(s, hb, shidx, idx as int, num, cur);
                                }
                                return Err(e);
                            },
                        };
                        let ghost prev_list = str_tabs@;
                        str_tabs.push(tab);
                        proof {
                            assert(forall|a: int|
                                0 <= a < prev_list.len() ==> str_tabs@[a] == #[trigger] prev_list[a]);
                            assert(str_tabs@.last().section_index == idx);
                            assert forall|j: int|
                                1 <= j < idx + 1 && j != shidx && (
                                #[trigger] section_headers@[j]).section_kind == SectionKind::StrTab implies exists|a: int|
                                0 <= a < str_tabs@.len() && (#[trigger] str_tabs@[a]).section_index == j by {
                                if j < idx {
                                    assert(exists|a: int|
                                        0 <= a < prev_list.len() && (
                                        #[trigger] prev_list[a]).section_index == j);
                                    let aw = choose|a: int|
                                        0 <= a < prev_list.len() && (
                                        #[trigger] prev_list[a]).section_index == j;
                                    assert((str_tabs@[aw]).section_index == j);
                                } else {
                                    assert((str_tabs@[str_tabs@.len() - 1]).section_index == j);
                                }
                            }
                        }
                    },
                    SectionKind::SymTab => {
                        let tab = match SymbolTable::parse(reader, h_size, idx as u16) {
                            Ok(tab) => tab,
                            Err(e) => {
                                proof {
                                    lemma_bodies_ok_step_false(s, hb, shidx, idx as int, num, cur);
                                }
                                return Err(e);
                            },
                        };
                        let ghost prev_list = sym_tabs@;
                        sym_tabs.push(tab);
                        proof {
                            assert(forall|a: int|
                                0 <= a < prev_list.len() ==> sym_tabs@[a] == #[trigger] prev_list[a]);
                            assert(sym_tabs@.last().section_index == idx);
                            assert forall|j: int|
                                1 <= j < idx + 1 && j != shidx && (
                                #[trigger] section_headers@[j]).section_kind == SectionKind::SymTab implies exists|a: int|
                                0 <= a < sym_tabs@.len() && (#[trigger] sym_tabs@[a]).section_index == j by {
                                if j < idx {
                                    assert(exists|a: int|
                                        0 <= a < prev_list.len() && (
                                        #[trigger] prev_list[a]).section_index == j);
                                    let aw = choose|a: int|
                                        0 <= a < prev_list.len() && (
                                        #[trigger] prev_list[a]).section_index == j;
                                    assert((sym_tabs@[aw]).section_index == j);
                                } else {
                                    assert((sym_tabs@[sym_tabs@.len() - 1]).section_index == j);
                                }
                            }
                        }
                    },
                    SectionKind::Data => {
                        let sec = match DataSection::parse(reader, h_size, idx as u16) {
                            Ok(sec) => sec,
                            Err(e) => {
                                proof {
                                    lemma_bodies_ok_step_false(s, hb, shidx, idx as int, num, cur);
                                }
                                return Err(e);
                            },
                        };
                        let ghost prev_list = data_sections@;
                        data_sections.push(sec);
                        proof {
                            assert(forall|a: int|
                                0 <= a < prev_list.len() ==> data_sections@[a] == #[trigger] prev_list[a]);
                            assert(data_sections@.last().section_index == idx);
                            assert forall|j: int|
                                1 <= j < idx + 1 && j != shidx && (
                                #[trigger] section_headers@[j]).section_kind == SectionKind::Data implies exists|a: int|
                                0 <= a < data_sections@.len() && (#[trigger] data_sections@[a]).section_index == j by {
                                if j < idx {
                                    assert(exists|a: int|
                                        0 <= a < prev_list.len() && (
                                        #[trigger] prev_list[a]).section_index == j);
                                    let aw = choose|a: int|
                                        0 <= a < prev_list.len() && (
                                        #[trigger] prev_list[a]).section_index == j;
                                    assert((data_sections@[aw]).section_index == j);
                                } else {
                                    assert((data_sections@[data_sections@.len() - 1]).section_index == j);
                                }
                            }
                        }
                    },
                    SectionKind::Func => {
                        let sec = match FuncSection::parse(reader, h_size, idx as u16) {
                            Ok(sec) => sec,
                            Err(e) => {
                                proof {
                                    lemma_bodies_ok_step_false(s, hb, shidx, idx as int, num, cur);
                                }
                                return Err(e);
                            },
                        };
                        let ghost prev_list = func_sections@;
                        func_sections.push(sec);
                        proof {
                            assert(forall|a: int|
                                0 <= a < prev_list.len() ==> func_sections@[a] == #[trigger] prev_list[a]);
                            assert(func_sections@.last().section_index == idx);
                            assert forall|j: int|
                                1 <= j < idx + 1 && j != shidx && (
                                #[trigger] section_headers@[j]).section_kind == SectionKind::Func implies exists|a: int|
                                0 <= a < func_sections@.len() && (#[trigger] func_sections@[a]).section_index == j by {
                                if j < idx {
                                    assert(exists|a: int|
                                        0 <= a < prev_list.len() && (
                                        #[trigger] prev_list[a]).section_index == j);
                                    let aw = choose|a: int|
                                        0 <= a < prev_list.len() && (
                                        #[trigger] prev_list[a]).section_index == j;
                                    assert((func_sections@[aw]).section_index == j);
                                } else {
                                    assert((func_sections@[func_sections@.len() - 1]).section_index == j);
                                }
                            }
                        }
                    },
                    SectionKind::Reld => {
                        let sec = match ReldSection::parse(reader, h_size, idx as u16) {
                            Ok(sec) => sec,
                            Err(e) => {
                                proof {
                                    lemma_bodies_ok_step_false(s, hb, shidx, idx as int, num, cur);
                                }
                                return Err(e);
                            },
                        };
                        let ghost prev_list = reld_sections@;
                        reld_sections.push(sec);
                        proof {
                            assert(forall|a: int|
                                0 <= a < prev_list.len() ==> reld_sections@[a] == #[trigger] prev_list[a]);
                            assert(reld_sections@.last().section_index == idx);
                            assert forall|j: int|
                                1 <= j < idx + 1 && j != shidx && (
                                #[trigger] section_headers@[j]).section_kind == SectionKind::Reld implies exists|a: int|
                                0 <= a < reld_sections@.len() && (#[trigger] reld_sections@[a]).section_index == j by {
                                if j < idx {
                                    assert(exists|a: int|
                                        0 <= a < prev_list.len() && (
                                        #[trigger] prev_list[a]).section_index == j);
                                    let aw = choose|a: int|
                                        0 <= a < prev_list.len() && (
                                        #[trigger] prev_list[a]).section_index == j;
                                    assert((reld_sections@[aw]).section_index == j);
                                } else {
                                    assert((reld_sections@[reld_sections@.len() - 1]).section_index == j);
                                }
                            }
                        }
                    },
                    _ => {
                        proof {
                            assert(false);
                        }
                        return Err(DumpError::MalformedSectionStructure);
                    },
                }
                idx = idx + 1;
            }
        }
        proof {
            assert(idx == n);
            assert(funcs_complete(section_headers@, shidx, idx as int, func_sections@));
            assert(symtabs_complete(section_headers@, shidx, idx as int, sym_tabs@));
            assert(strtabs_complete(section_headers@, shidx, idx as int, str_tabs@));
            assert(datas_complete(section_headers@, shidx, idx as int, data_sections@));
            assert(relds_complete(section_headers@, shidx, idx as int, reld_sections@));
            assert(section_headers@.len() == idx as int);
            assert(shidx == header.shstrtab_idx as int);
        }
        Ok(
            KOFile {
                header,
                shstrtab,
                section_headers,
                str_tabs,
                sym_tabs,
                data_sections,
                func_sections,
                reld_sections,
            },
        )
    }

    /// The name of the section at a header-table index: the name-table
    /// string at the header's name index.
    pub fn get_section_name_by_index(&self, index: u16) -> (r: Result<&String, DumpError>)
        ensures
            r is Ok <==> (index < self.section_headers@.len()
                && self.section_headers@[index as int].name_idx < self.shstrtab.strings@.len()),
            r matches Ok(name) ==> name == self.shstrtab.strings@[self.section_headers@[index as int].name_idx as int],
            r matches Err(e) ==> e == DumpError::DanglingReference,
    {
        if (index as usize) < self.section_headers.len() {
            let name_idx = self.section_headers[index as usize].name_idx as usize;
            if name_idx < self.shstrtab.strings.len() {
                Ok(&self.shstrtab.strings[name_idx])
            } else {
                Err(DumpError::DanglingReference)
            }
        } else {
            Err(DumpError::DanglingReference)
        }
    }

    /// The name of section `i`, as a character sequence, where both the
    /// header and its name resolve.
    pub open spec fn spec_section_name(&self, i: int) -> Option<Seq<char>> {
        if 0 <= i < self.section_headers@.len() && self.section_headers@[i].name_idx
            < self.shstrtab.strings@.len() {
            Some(self.shstrtab.strings@[self.section_headers@[i].name_idx as int]@)
        } else {
            None
        }
    }

    /// Finds the first function section whose name equals `name`.
    pub fn func_section_by_name(&self, name: &String) -> (r: Option<usize>)
        ensures
            r matches Some(ix) ==> ix < self.func_sections@.len() && self.spec_section_name(
                self.func_sections@[ix as int].section_index as int,
            ) == Some(name@) && forall|b: int|
                0 <= b < ix ==> self.spec_section_name(
                    (#[trigger] self.func_sections@[b]).section_index as int,
                ) != Some(name@),
            r is None ==> forall|a: int|
                0 <= a < self.func_sections@.len() ==> self.spec_section_name(
                    (#[trigger] self.func_sections@[a]).section_index as int,
                ) != Some(name@),
    {
        let n = self.func_sections.len();
        let mut a: usize = 0;
        while a < n
            invariant
                n == self.func_sections@.len(),
                a <= n,
                forall|b: int|
                    0 <= b < a ==> self.spec_section_name(
                        (#[trigger] self.func_sections@[b]).section_index as int,
                    ) != Some(name@),
            decreases n - a,
        {
            match self.get_section_name_by_index(self.func_sections[a].section_index) {
                Ok(section_name) => {
                    if section_name.eq(name) {
                        return Some(a);
                    }
                },
                Err(_) => {},
            }
            a = a + 1;
        }
        None
    }

    /// Finds the first string table whose name equals `name`.
    pub fn str_tab_by_name(&self, name: &String) -> (r: Option<usize>)
        ensures
            r matches Some(ix) ==> ix < self.str_tabs@.len() && self.spec_section_name(
                self.str_tabs@[ix as int].section_index as int,
            ) == Some(name@) && forall|b: int|
                0 <= b < ix ==> self.spec_section_name(
                    (#[trigger] self.str_tabs@[b]).section_index as int,
                ) != Some(name@),
            r is None ==> forall|a: int|
                0 <= a < self.str_tabs@.len() ==> self.spec_section_name(
                    (#[trigger] self.str_tabs@[a]).section_index as int,
                ) != Some(name@),
    {
        let n = self.str_tabs.len();
        let mut a: usize = 0;
        while a < n
            invariant
                n == self.str_tabs@.len(),
                a <= n,
                forall|b: int|
                    0 <= b < a ==> self.spec_section_name(
                        (#[trigger] self.str_tabs@[b]).section_index as int,
                    ) != Some(name@),
            decreases n - a,
        {
            match self.get_section_name_by_index(self.str_tabs[a].section_index) {
                Ok(section_name) => {
                    if section_name.eq(name) {
                        return Some(a);
                    }
                },
                Err(_) => {},
            }
            a = a + 1;
        }
        None
    }

    /// Finds the first symbol table whose name equals `name`.
    pub fn sym_tab_by_name(&self, name: &String) -> (r: Option<usize>)
        ensures
            r matches Some(ix) ==> ix < self.sym_tabs@.len() && self.spec_section_name(
                self.sym_tabs@[ix as int].section_index as int,
            ) == Some(name@) && forall|b: int|
                0 <= b < ix ==> self.spec_section_name(
                    (#[trigger] self.sym_tabs@[b]).section_index as int,
                ) != Some(name@),
            r is None ==> forall|a: int|
                0 <= a < self.sym_tabs@.len() ==> self.spec_section_name(
                    (#[trigger] self.sym_tabs@[a]).section_index as int,
                ) != Some(name@),
    {
        let n = self.sym_tabs.len();
        let mut a: usize = 0;
        while a < n
            invariant
                n == self.sym_tabs@.len(),
                a <= n,
                forall|b: int|
                    0 <= b < a ==> self.spec_section_name(
                        (#[trigger] self.sym_tabs@[b]).section_index as int,
                    ) != Some(name@),
            decreases n - a,
        {
            match self.get_section_name_by_index(self.sym_tabs[a].section_index) {
                Ok(section_name) => {
                    if section_name.eq(name) {
                        return Some(a);
                    }
                },
                Err(_) => {},
            }
            a = a + 1;
        }
        None
    }

    /// Finds the first data section whose name equals `name`.
    pub fn data_section_by_name(&self, name: &String) -> (r: Option<usize>)
        ensures
            r matches Some(ix) ==> ix < self.data_sections@.len() && self.spec_section_name(
                self.data_sections@[ix as int].section_index as int,
            ) == Some(name@) && forall|b: int|
                0 <= b < ix ==> self.spec_section_name(
                    (#[trigger] self.data_sections@[b]).section_index as int,
                ) != Some(name@),
            r is None ==> forall|a: int|
                0 <= a < self.data_sections@.len() ==> self.spec_section_name(
                    (#[trigger] self.data_sections@[a]).section_index as int,
                ) != Some(name@),
    {
        let n = self.data_sections.len();
        let mut a: usize = 0;
        while a < n
            invariant
                n == self.data_sections@.len(),
                a <= n,
                forall|b: int|
                    0 <= b < a ==> self.spec_section_name(
                        (#[trigger] self.data_sections@[b]).section_index as int,
                    ) != Some(name@),
            decreases n - a,
        {
            match self.get_section_name_by_index(self.data_sections[a].section_index) {
                Ok(section_name) => {
                    if section_name.eq(name) {
                        return Some(a);
                    }
                },
                Err(_) => {},
            }
            a = a + 1;
        }
        None
    }

    /// Finds the first relocation section whose name equals `name`.
    pub fn reld_section_by_name(&self, name: &String) -> (r: Option<usize>)
        ensures
            r matches Some(ix) ==> ix < self.reld_sections@.len() && self.spec_section_name(
                self.reld_sections@[ix as int].section_index as int,
            ) == Some(name@) && forall|b: int|
                0 <= b < ix ==> self.spec_section_name(
                    (#[trigger] self.reld_sections@[b]).section_index as int,
                ) != Some(name@),
            r is None ==> forall|a: int|
                0 <= a < self.reld_sections@.len() ==> self.spec_section_name(
                    (#[trigger] self.reld_sections@[a]).section_index as int,
                ) != Some(name@),
    {
        let n = self.reld_sections.len();
        let mut a: usize = 0;
        while a < n
            invariant
                n == self.reld_sections@.len(),
                a <= n,
                forall|b: int|
                    0 <= b < a ==> self.spec_section_name(
                        (#[trigger] self.reld_sections@[b]).section_index as int,
                    ) != Some(name@),
            decreases n - a,
        {
            match self.get_section_name_by_index(self.reld_sections[a].section_index) {
                Ok(section_name) => {
                    if section_name.eq(name) {
                        return Some(a);
                    }
                },
                Err(_) => {},
            }
            a = a + 1;
        }
        None
    }

    /// The comment text of the file: the string at position one of the
    /// first string table named `.comment`, where both exist.
    pub fn comment_text(&self) -> (r: Option<&String>)
        ensures
            r is Some <==> (spec_strtab_named(self, ".comment"@) matches Some(ix)
                && self.str_tabs@[ix].strings@.len() > 1),
            r matches Some(t) ==> (spec_strtab_named(self, ".comment"@) matches Some(ix) && t
                == self.str_tabs@[ix].strings@[1]),
    {
        let name = String::from_str(".comment");
        match self.str_tab_by_name(&name) {
            Some(ix) => {
                proof {
                    lemma_strtab_named_some(self, ".comment"@, ix as int);
                }
                self.str_tabs[ix].get(1)
            },
            None => {
                proof {
                    assert(spec_strtab_named(self, ".comment"@) is None);
                }
                None
            },
        }
    }

    /// The relocation state of the two operand positions of one instruction:
    /// whether a relocation entry of the `.reld` section redirects that
    /// position, and to which symbol. Where several entries name the same
    /// position, the last one in file order wins.
    #[verifier::rlimit(60)]
    pub fn get_relocated(&self, section_index: u16, instr_index: u32) -> (r: (
        (bool, u32),
        (bool, u32),
    ))
        ensures
            ({
                match self.reld_section_by_name_spec() {
                    Option::Some(entries) => {
                        &&& r.0.0 == find_reloc(entries, section_index, instr_index, 1) is Some
                        &&& (r.0.0 ==> Some(r.0.1) == find_reloc(
                            entries,
                            section_index,
                            instr_index,
                            1,
                        ))
                        &&& r.1.0 == find_reloc(entries, section_index, instr_index, 2) is Some
                        &&& (r.1.0 ==> Some(r.1.1) == find_reloc(
                            entries,
                            section_index,
                            instr_index,
                            2,
                        ))
                    },
                    Option::None => r == ((false, 0u32), (false, 0u32)),
                }
            }),
    {
        let name = String::from_str(".reld");
        let reld_ix = match self.reld_section_by_name(&name) {
            Some(ix) => ix,
            None => {
                proof {
                    lemma_reld_by_name_none(self);
                }
                return ((false, 0u32), (false, 0u32));
            },
        };
        proof {
            lemma_reld_by_name_some(self, reld_ix as int);
        }
        let entries = &self.reld_sections[reld_ix].entries;
        let ghost entries_seq = entries@;
        let mut first_reloc: (bool, u32) = (false, 0u32);
        let mut second_reloc: (bool, u32) = (false, 0u32);
        let n = entries.len();
        let mut k: usize = 0;
        while k < n
            invariant
                n == entries@.len(),
                entries_seq == entries@,
                k <= n,
                first_reloc.0 == find_reloc(
                    entries_seq.take(k as int),
                    section_index,
                    instr_index,
                    1,
                ) is Some,
                first_reloc.0 ==> Some(first_reloc.1) == find_reloc(
                    entries_seq.take(k as int),
                    section_index,
                    instr_index,
                    1,
                ),
                second_reloc.0 == find_reloc(
                    entries_seq.take(k as int),
                    section_index,
                    instr_index,
                    2,
                ) is Some,
                second_reloc.0 ==> Some(second_reloc.1) == find_reloc(
                    entries_seq.take(k as int),
                    section_index,
                    instr_index,
                    2,
                ),
            decreases n - k,
        {
            let entry = &entries[k];
            proof {
                assert(entries_seq.take((k + 1) as int).drop_last() =~= entries_seq.take(k as int));
                assert(entries_seq.take((k + 1) as int).last() == entries_seq[k as int]);
            }
            if entry.section_index == section_index && entry.instr_index == instr_index {
                if entry.operand_index == 1 {
                    first_reloc = (true, entry.symbol_index);
                } else if entry.operand_index == 2 {
                    second_reloc = (true, entry.symbol_index);
                }
            }
            k = k + 1;
        }
        proof {
            assert(entries_seq.take(n as int) =~= entries_seq);
        }
        (first_reloc, second_reloc)
    }

    /// The entries of the first `.reld` relocation section, where one
    /// exists.
    pub open spec fn reld_section_by_name_spec(&self) -> Option<Seq<ReldEntry>> {
        if exists|a: int|
            0 <= a < self.reld_sections@.len() && self.spec_section_name(
                (#[trigger] self.reld_sections@[a]).section_index as int,
            ) == Some(".reld"@) {
            let a = choose|a: int|
                0 <= a < self.reld_sections@.len() && self.spec_section_name(
                    (#[trigger] self.reld_sections@[a]).section_index as int,
                ) == Some(".reld"@) && forall|b: int|
                    0 <= b < a ==> self.spec_section_name(
                        (#[trigger] self.reld_sections@[b]).section_index as int,
                    ) != Some(".reld"@);
            Some(self.reld_sections@[a].entries@)
        } else {
            None
        }
    }
}

/// The position of the first string table named `name`, where one exists.
pub open spec fn spec_strtab_named(file: &KOFile, name: Seq<char>) -> Option<int> {
    if exists|a: int|
        0 <= a < file.str_tabs@.len() && file.spec_section_name(
            (#[trigger] file.str_tabs@[a]).section_index as int,
        ) == Some(name) {
        Some(
            choose|a: int|
                0 <= a < file.str_tabs@.len() && file.spec_section_name(
                    (#[trigger] file.str_tabs@[a]).section_index as int,
                ) == Some(name) && forall|b: int|
                    0 <= b < a ==> file.spec_section_name(
                        (#[trigger] file.str_tabs@[b]).section_index as int,
                    ) != Some(name),
        )
    } else {
        None
    }
}

/// The position of the first symbol table named `name`, where one exists.
pub open spec fn spec_symtab_named(file: &KOFile, name: Seq<char>) -> Option<int> {
    if exists|a: int|
        0 <= a < file.sym_tabs@.len() && file.spec_section_name(
            (#[trigger] file.sym_tabs@[a]).section_index as int,
        ) == Some(name) {
        Some(
            choose|a: int|
                0 <= a < file.sym_tabs@.len() && file.spec_section_name(
                    (#[trigger] file.sym_tabs@[a]).section_index as int,
                ) == Some(name) && forall|b: int|
                    0 <= b < a ==> file.spec_section_name(
                        (#[trigger] file.sym_tabs@[b]).section_index as int,
                    ) != Some(name),
        )
    } else {
        None
    }
}

/// The position of the first data section named `name`, where one exists.
pub open spec fn spec_data_named(file: &KOFile, name: Seq<char>) -> Option<int> {
    if exists|a: int|
        0 <= a < file.data_sections@.len() && file.spec_section_name(
            (#[trigger] file.data_sections@[a]).section_index as int,
        ) == Some(name) {
        Some(
            choose|a: int|
                0 <= a < file.data_sections@.len() && file.spec_section_name(
                    (#[trigger] file.data_sections@[a]).section_index as int,
                ) == Some(name) && forall|b: int|
                    0 <= b < a ==> file.spec_section_name(
                        (#[trigger] file.data_sections@[b]).section_index as int,
                    ) != Some(name),
        )
    } else {
        None
    }
}

/// A first match ties the choose-based lookup down to one position.
pub proof fn lemma_strtab_named_some(file: &KOFile, name: Seq<char>, ix: int)
    requires
        0 <= ix < file.str_tabs@.len(),
        file.spec_section_name(file.str_tabs@[ix].section_index as int) == Some(name),
        forall|b: int|
            0 <= b < ix ==> file.spec_section_name(
                (#[trigger] file.str_tabs@[b]).section_index as int,
            ) != Some(name),
    ensures
        spec_strtab_named(file, name) == Some(ix),
{
    assert(0 <= ix < file.str_tabs@.len() && file.spec_section_name(
        (file.str_tabs@[ix]).section_index as int,
    ) == Some(name) && forall|b: int|
        0 <= b < ix ==> file.spec_section_name(
            (#[trigger] file.str_tabs@[b]).section_index as int,
        ) != Some(name));
    let a = choose|a: int|
        0 <= a < file.str_tabs@.len() && file.spec_section_name(
            (#[trigger] file.str_tabs@[a]).section_index as int,
        ) == Some(name) && forall|b: int|
            0 <= b < a ==> file.spec_section_name(
                (#[trigger] file.str_tabs@[b]).section_index as int,
            ) != Some(name);
    if a < ix {
        assert(file.spec_section_name(file.str_tabs@[a].section_index as int) != Some(name));
    } else if a > ix {
        assert(file.spec_section_name(file.str_tabs@[ix].section_index as int) != Some(name));
    }
}

/// A first match ties the choose-based lookup down to one position.
pub proof fn lemma_symtab_named_some(file: &KOFile, name: Seq<char>, ix: int)
    requires
        0 <= ix < file.sym_tabs@.len(),
        file.spec_section_name(file.sym_tabs@[ix].section_index as int) == Some(name),
        forall|b: int|
            0 <= b < ix ==> file.spec_section_name(
                (#[trigger] file.sym_tabs@[b]).section_index as int,
            ) != Some(name),
    ensures
        spec_symtab_named(file, name) == Some(ix),
{
    assert(0 <= ix < file.sym_tabs@.len() && file.spec_section_name(
        (file.sym_tabs@[ix]).section_index as int,
    ) == Some(name) && forall|b: int|
        0 <= b < ix ==> file.spec_section_name(
            (#[trigger] file.sym_tabs@[b]).section_index as int,
        ) != Some(name));
    let a = choose|a: int|
        0 <= a < file.sym_tabs@.len() && file.spec_section_name(
            (#[trigger] file.sym_tabs@[a]).section_index as int,
        ) == Some(name) && forall|b: int|
            0 <= b < a ==> file.spec_section_name(
                (#[trigger] file.sym_tabs@[b]).section_index as int,
            ) != Some(name);
    if a < ix {
        assert(file.spec_section_name(file.sym_tabs@[a].section_index as int) != Some(name));
    } else if a > ix {
        assert(file.spec_section_name(file.sym_tabs@[ix].section_index as int) != Some(name));
    }
}

/// A first match ties the choose-based lookup down to one position.
pub proof fn lemma_data_named_some(file: &KOFile, name: Seq<char>, ix: int)
    requires
        0 <= ix < file.data_sections@.len(),
        file.spec_section_name(file.data_sections@[ix].section_index as int) == Some(name),
        forall|b: int|
            0 <= b < ix ==> file.spec_section_name(
                (#[trigger] file.data_sections@[b]).section_index as int,
            ) != Some(name),
    ensures
        spec_data_named(file, name) == Some(ix),
{
    assert(0 <= ix < file.data_sections@.len() && file.spec_section_name(
        (file.data_sections@[ix]).section_index as int,
    ) == Some(name) && forall|b: int|
        0 <= b < ix ==> file.spec_section_name(
            (#[trigger] file.data_sections@[b]).section_index as int,
        ) != Some(name));
    let a = choose|a: int|
        0 <= a < file.data_sections@.len() && file.spec_section_name(
            (#[trigger] file.data_sections@[a]).section_index as int,
        ) == Some(name) && forall|b: int|
            0 <= b < a ==> file.spec_section_name(
                (#[trigger] file.data_sections@[b]).section_index as int,
            ) != Some(name);
    if a < ix {
        assert(file.spec_section_name(file.data_sections@[a].section_index as int) != Some(name));
    } else if a > ix {
        assert(file.spec_section_name(file.data_sections@[ix].section_index as int) != Some(name));
    }
}

/// The symbol that the last relocation entry for the given section,
/// instruction and operand position names, or `None` where no entry names
/// that position.
pub open spec fn find_reloc(
    entries: Seq<ReldEntry>,
    section_index: u16,
    instr_index: u32,
    operand_position: u8,
) -> Option<u32>
    decreases entries.len(),
{
    if entries.len() == 0 {
        None
    } else {
        let last = entries.last();
        if last.section_index == section_index && last.instr_index == instr_index
            && last.operand_index == operand_position {
            Some(last.symbol_index)
        } else {
            find_reloc(entries.drop_last(), section_index, instr_index, operand_position)
        }
    }
}

proof fn lemma_reld_by_name_none(file: &KOFile)
    requires
        forall|a: int|
            0 <= a < file.reld_sections@.len() ==> file.spec_section_name(
                (#[trigger] file.reld_sections@[a]).section_index as int,
            ) != Some(".reld"@),
    ensures
        file.reld_section_by_name_spec() is None,
{
}

proof fn lemma_reld_by_name_some(file: &KOFile, ix: int)
    requires
        0 <= ix < file.reld_sections@.len(),
        file.spec_section_name(file.reld_sections@[ix].section_index as int) == Some(".reld"@),
        forall|b: int|
            0 <= b < ix ==> file.spec_section_name(
                (#[trigger] file.reld_sections@[b]).section_index as int,
            ) != Some(".reld"@),
    ensures
        file.reld_section_by_name_spec() == Some(file.reld_sections@[ix].entries@),
{
    assert(exists|a: int|
        0 <= a < file.reld_sections@.len() && file.spec_section_name(
            (#[trigger] file.reld_sections@[a]).section_index as int,
        ) == Some(".reld"@));
    let a = choose|a: int|
        0 <= a < file.reld_sections@.len() && file.spec_section_name(
            (#[trigger] file.reld_sections@[a]).section_index as int,
        ) == Some(".reld"@) && forall|b: int|
            0 <= b < a ==> file.spec_section_name(
                (#[trigger] file.reld_sections@[b]).section_index as int,
            ) != Some(".reld"@);
    assert(a == ix) by {
        lemma_first_reld_exists(file, ix);
        if a < ix {
            assert(file.spec_section_name(file.reld_sections@[a].section_index as int) != Some(
                ".reld"@,
            ));
        } else if a > ix {
            assert(file.spec_section_name(file.reld_sections@[ix].section_index as int) != Some(
                ".reld"@,
            ));
        }
    }
}

proof fn lemma_first_reld_exists(file: &KOFile, ix: int)
    requires
        0 <= ix < file.reld_sections@.len(),
        file.spec_section_name(file.reld_sections@[ix].section_index as int) == Some(".reld"@),
        forall|b: int|
            0 <= b < ix ==> file.spec_section_name(
                (#[trigger] file.reld_sections@[b]).section_index as int,
            ) != Some(".reld"@),
    ensures
        exists|a: int|
            0 <= a < file.reld_sections@.len() && file.spec_section_name(
                (#[trigger] file.reld_sections@[a]).section_index as int,
            ) == Some(".reld"@) && forall|b: int|
                0 <= b < a ==> file.spec_section_name(
                    (#[trigger] file.reld_sections@[b]).section_index as int,
                ) != Some(".reld"@),
{
    assert(0 <= ix < file.reld_sections@.len() && file.spec_section_name(
        (file.reld_sections@[ix]).section_index as int,
    ) == Some(".reld"@) && forall|b: int|
        0 <= b < ix ==> file.spec_section_name(
            (#[trigger] file.reld_sections@[b]).section_index as int,
        ) != Some(".reld"@));
}

/// The relocation state of operand position `k` (zero-based) of instruction
/// `i` of the function section at position `a`: the symbol index the last
/// matching `.reld` entry names, or `None`.
pub open spec fn spec_reloc_state(file: &KOFile, a: int, i: int, k: int) -> Option<u32> {
    match file.reld_section_by_name_spec() {
        Option::Some(entries) => find_reloc(
            entries,
            file.func_sections@[a].section_index,
            i as u32,
            (k + 1) as u8,
        ),
        Option::None => None,
    }
}

/// The display resolution of one operand succeeds: a relocated operand
/// finds its symbol, its name or data value; an unrelocated operand indexes
/// the `.data` pool.
pub open spec fn operand_resolves(file: &KOFile, a: int, i: int, k: int) -> bool {
    let operand = file.func_sections@[a].instructions@[i].operands@[k];
    match spec_reloc_state(file, a, i, k) {
        Option::Some(symix) => match (
            spec_symtab_named(file, ".symtab"@),
            spec_strtab_named(file, ".symstrtab"@),
        ) {
            (Option::Some(st), Option::Some(sst)) => {
                &&& symix < file.sym_tabs@[st].symbols@.len()
                &&& ({
                    let sym = file.sym_tabs@[st].symbols@[symix as int];
                    if sym.sym_type == SymType::Func || sym.sym_type == SymType::Section {
                        sym.name_idx < file.str_tabs@[sst].strings@.len()
                    } else if sym.sym_type == SymType::NoType || sym.sym_type == SymType::Object {
                        match spec_data_named(file, ".data"@) {
                            Option::Some(d) => sym.value_idx < file.data_sections@[d].data@.len(),
                            Option::None => false,
                        }
                    } else {
                        false
                    }
                })
            },
            _ => false,
        },
        Option::None => match spec_data_named(file, ".data"@) {
            Option::Some(d) => operand < file.data_sections@[d].data@.len(),
            Option::None => false,
        },
    }
}

/// The operand `res` is the display resolution of operand position `k` of
/// instruction `i` of the function section at position `a`: by symbol where
/// relocated, from the `.data` pool otherwise.
pub open spec fn operand_resolution_ok(
    file: &KOFile,
    a: int,
    i: int,
    k: int,
    res: ResolvedOperand,
) -> bool {
    let operand = file.func_sections@[a].instructions@[i].operands@[k];
    match spec_reloc_state(file, a, i, k) {
        Option::Some(symix) => match (
            spec_symtab_named(file, ".symtab"@),
            spec_strtab_named(file, ".symstrtab"@),
        ) {
            (Option::Some(st), Option::Some(sst)) => {
                let sym = file.sym_tabs@[st].symbols@[symix as int];
                if sym.sym_type == SymType::Func || sym.sym_type == SymType::Section {
                    res matches ResolvedOperand::Symbol { name, sym_type } && name@
                        == file.str_tabs@[sst].strings@[sym.name_idx as int]@ && sym_type
                        == sym.sym_type
                } else {
                    res matches ResolvedOperand::Constant(op)
                        && crate::disasm::operand_value_rendered(
                        match spec_data_named(file, ".data"@) {
                            Option::Some(d) => file.data_sections@[d].data@[sym.value_idx as int]@,
                            Option::None => crate::argument::SpecValue::Null,
                        },
                        op,
                    )
                }
            },
            _ => false,
        },
        Option::None => match spec_data_named(file, ".data"@) {
            Option::Some(d) => res matches ResolvedOperand::Constant(op)
                && crate::disasm::operand_value_rendered(
                file.data_sections@[d].data@[operand as int]@,
                op,
            ),
            Option::None => false,
        },
    }
}

/// One operand of a function section resolves, for the symbol search, to
/// text equal to `symbol`: the relocated symbol's name, or the exact text of
/// the string constant the operand indexes.
pub open spec fn operand_symbol_match(
    file: &KOFile,
    a: int,
    i: int,
    k: int,
    symbol: Seq<char>,
) -> bool {
    let operand = file.func_sections@[a].instructions@[i].operands@[k];
    match spec_reloc_state(file, a, i, k) {
        Option::Some(symix) => match (
            spec_symtab_named(file, ".symtab"@),
            spec_strtab_named(file, ".symstrtab"@),
        ) {
            (Option::Some(st), Option::Some(sst)) => {
                &&& symix < file.sym_tabs@[st].symbols@.len()
                &&& file.sym_tabs@[st].symbols@[symix as int].name_idx
                    < file.str_tabs@[sst].strings@.len()
                &&& ({
                    let sym = file.sym_tabs@[st].symbols@[symix as int];
                    file.str_tabs@[sst].strings@[sym.name_idx as int]@ == symbol
                })
            },
            _ => false,
        },
        Option::None => match spec_data_named(file, ".data"@) {
            Option::Some(d) => operand < file.data_sections@[d].data@.len() && (
            match file.data_sections@[d].data@[operand as int]@ {
                crate::argument::SpecValue::Str(t) => t == symbol,
                crate::argument::SpecValue::StrValue(t) => t == symbol,
                _ => false,
            }),
            Option::None => false,
        },
    }
}

/// The function section at position `a` matches the symbol: its own name
/// equals the symbol, or some instruction operand resolves to the symbol's
/// exact text.
pub open spec fn section_matches_symbol(file: &KOFile, a: int, symbol: Seq<char>) -> bool {
    ||| file.spec_section_name(file.func_sections@[a].section_index as int) == Some(symbol)
    ||| exists|i: int, k: int|
        0 <= i < file.func_sections@[a].instructions@.len() && 0 <= k
            < file.func_sections@[a].instructions@[i].operands@.len()
            && #[trigger] operand_symbol_match(file, a, i, k, symbol)
}

/// A display-resolved operand: a symbol reference by name, or an inline
/// constant from the data section.
#[derive(Debug)]
pub enum ResolvedOperand {
    Symbol { name: String, sym_type: SymType },
    Constant(OperandText),
}

/// Resolves one instruction operand for display. Where a relocation entry
/// redirects the operand (`reloc.0`), the symbol table decides and the
/// operand's own inline constant index is never consulted, even if a
/// same-shaped constant exists at that index: a function or section symbol
/// shows its name, a no-type or object symbol resolves through the data
/// section by the symbol's value index. A file symbol has no rendering rule
/// as an operand. Without a relocation, the operand indexes the data
/// section directly.
pub fn resolve_operand(
    reloc: (bool, u32),
    sym_tab: Option<&SymbolTable>,
    sym_str_tab: Option<&StringTable>,
    data_section: &DataSection,
    operand: u32,
) -> (r: Result<ResolvedOperand, DumpError>)
    ensures
        !reloc.0 ==> !(r matches Ok(res) && res is Symbol),
        reloc.0 ==> (match (sym_tab, sym_str_tab) {
            (Option::Some(st), Option::Some(sst)) => {
                if reloc.1 < st.symbols@.len() {
                    let sym = st.symbols@[reloc.1 as int];
                    if sym.sym_type == SymType::Func || sym.sym_type == SymType::Section {
                        if sym.name_idx < sst.strings@.len() {
                            r matches Ok(res) && (res matches ResolvedOperand::Symbol {
                                name,
                                sym_type,
                            } && name@ == sst.strings@[sym.name_idx as int]@ && sym_type
                                == sym.sym_type)
                        } else {
                            r == Err::<ResolvedOperand, DumpError>(DumpError::DanglingReference)
                        }
                    } else if sym.sym_type == SymType::NoType || sym.sym_type == SymType::Object {
                        if sym.value_idx < data_section.data@.len() {
                            r matches Ok(res) && (res matches ResolvedOperand::Constant(op)
                                && crate::disasm::operand_value_rendered(
                                data_section.data@[sym.value_idx as int]@,
                                op,
                            ))
                        } else {
                            r == Err::<ResolvedOperand, DumpError>(DumpError::DanglingReference)
                        }
                    } else {
                        r == Err::<ResolvedOperand, DumpError>(DumpError::UnsupportedSymbolKind)
                    }
                } else {
                    r == Err::<ResolvedOperand, DumpError>(DumpError::DanglingReference)
                }
            },
            _ => r == Err::<ResolvedOperand, DumpError>(DumpError::DanglingReference),
        }),
        !reloc.0 ==> (if operand < data_section.data@.len() {
            r matches Ok(res) && (res matches ResolvedOperand::Constant(op)
                && crate::disasm::operand_value_rendered(
                data_section.data@[operand as int]@,
                op,
            ))
        } else {
            r == Err::<ResolvedOperand, DumpError>(DumpError::DanglingReference)
        }),
{
    if reloc.0 {
        let st = match sym_tab {
            Some(st) => st,
            None => {
                return Err(DumpError::DanglingReference);
            },
        };
        let sst = match sym_str_tab {
            Some(sst) => sst,
            None => {
                return Err(DumpError::DanglingReference);
            },
        };
        let sym = match st.get(reloc.1 as usize) {
            Some(sym) => sym,
            None => {
                return Err(DumpError::DanglingReference);
            },
        };
        match sym.sym_type {
            SymType::Func | SymType::Section => {
                let name_ref = match sst.get(sym.name_idx as usize) {
                    Some(name) => name,
                    None => {
                        return Err(DumpError::DanglingReference);
                    },
                };
                let mut name = String::new();
                crate::text::push_string(&mut name, name_ref);
                Ok(ResolvedOperand::Symbol { name, sym_type: sym.sym_type })
            },
            SymType::NoType | SymType::Object => {
                match data_section.get(sym.value_idx as usize) {
                    Some(value) => Ok(ResolvedOperand::Constant(render_value(value))),
                    None => Err(DumpError::DanglingReference),
                }
            },
            _ => Err(DumpError::UnsupportedSymbolKind),
        }
    } else {
        match data_section.get(operand as usize) {
            Some(value) => Ok(ResolvedOperand::Constant(render_value(value))),
            None => Err(DumpError::DanglingReference),
        }
    }
}

/// Renders one constant value as operand text.
fn render_value(value: &Value) -> (r: OperandText)
    ensures
        crate::disasm::operand_value_rendered(value@, r),
{
    let argument = crate::argument::Argument::new(0, 0, crate::argument::clone_value(value));
    let value_copy = crate::argument::clone_value(value);
    OperandText {
        text: argument.get_repr(),
        is_variable: argument.is_variable(),
        value: value_copy,
    }
}

/// One disassembled row of a function section: the one-based position as an
/// eight-digit hexadecimal label, the raw bytes, the mnemonic, and the
/// display-resolved operands.
#[derive(Debug)]
pub struct KoDisasmLine {
    pub label: String,
    pub raw: String,
    pub mnemonic: String,
    pub operands: Vec<ResolvedOperand>,
}

impl KOFile {
    /// Disassembles one function section into structured rows, resolving
    /// each operand through the `.reld` relocation entries, the `.symtab`
    /// symbol table, the `.symstrtab` names and the `.data` pool. Succeeds
    /// exactly where the `.data` pool exists and every operand resolves.
    #[verifier::rlimit(60)]
    pub fn disassemble_func_section(&self, func_ix: usize) -> (r: Result<
        Vec<KoDisasmLine>,
        DumpError,
    >)
        requires
            func_ix < self.func_sections@.len(),
            self.wf(),
        ensures
            r is Ok <==> (spec_data_named(self, ".data"@) is Some && forall|i: int, k: int|
                0 <= i < self.func_sections@[func_ix as int].instructions@.len() && 0 <= k
                    < self.func_sections@[func_ix as int].instructions@[i].operands@.len()
                    ==> #[trigger] operand_resolves(self, func_ix as int, i, k)),
            r matches Ok(rows) ==> {
                &&& rows@.len() == self.func_sections@[func_ix as int].instructions@.len()
                &&& forall|i: int|
                    0 <= i < rows@.len() ==> (#[trigger] rows@[i]).mnemonic@ == spec_ko_mnemonic(
                        self.func_sections@[func_ix as int].instructions@[i].opcode,
                    )
                &&& forall|i: int|
                    0 <= i < rows@.len() ==> (#[trigger] rows@[i]).label@
                        == crate::text::hex_chars_w((i + 1) as nat, 8)
                &&& forall|i: int|
                    0 <= i < rows@.len() ==> (#[trigger] rows@[i]).operands@.len()
                        == self.func_sections@[func_ix as int].instructions@[i].operands@.len()
                &&& forall|i: int, k: int|
                    0 <= i < rows@.len() && 0 <= k < (#[trigger] rows@[i]).operands@.len()
                        ==> operand_resolution_ok(
                        self,
                        func_ix as int,
                        i,
                        k,
                        #[trigger] rows@[i].operands@[k],
                    )
            },
            r matches Err(e) ==> (e == DumpError::DanglingReference
                || e == DumpError::UnsupportedSymbolKind),
    {
        let data_name = String::from_str(".data");
        let data_ix = match self.data_section_by_name(&data_name) {
            Some(ix) => ix,
            None => {
                proof {
                    assert(spec_data_named(self, ".data"@) is None);
                }
                return Err(DumpError::DanglingReference);
            },
        };
        proof {
            lemma_data_named_some(self, ".data"@, data_ix as int);
        }
        let symtab_name = String::from_str(".symtab");
        let symtab_ix = self.sym_tab_by_name(&symtab_name);
        let symstr_name = String::from_str(".symstrtab");
        let symstr_ix = self.str_tab_by_name(&symstr_name);
        proof {
            match symtab_ix {
                Option::Some(ix) => lemma_symtab_named_some(self, ".symtab"@, ix as int),
                Option::None => assert(spec_symtab_named(self, ".symtab"@) is None),
            }
            match symstr_ix {
                Option::Some(ix) => lemma_strtab_named_some(self, ".symstrtab"@, ix as int),
                Option::None => assert(spec_strtab_named(self, ".symstrtab"@) is None),
            }
        }
        let ghost gsym: Option<int> = match symtab_ix {
            Option::Some(ix) => Some(ix as int),
            Option::None => None,
        };
        let ghost gstr: Option<int> = match symstr_ix {
            Option::Some(ix) => Some(ix as int),
            Option::None => None,
        };
        let section = &self.func_sections[func_ix];
        let section_index = section.section_index;
        let n = section.instructions.len();
        proof {
            crate::sections::lemma_instrs_size_mono_pub(
                section.instructions@,
                section.instructions@.len() as int,
                section.instructions@.len() as int,
            );
        }
        let mut rows: Vec<KoDisasmLine> = Vec::new();
        let ghost instrs = section.instructions@;
        let mut i: usize = 0;
        while i < n
            invariant
                self.wf(),
                func_ix < self.func_sections@.len(),
                section == &self.func_sections@[func_ix as int],
                data_ix < self.data_sections@.len(),
                spec_data_named(self, ".data"@) == Some(data_ix as int),
                spec_symtab_named(self, ".symtab"@) == gsym,
                spec_strtab_named(self, ".symstrtab"@) == gstr,
                symtab_ix matches Some(ix) ==> ix < self.sym_tabs@.len() && gsym == Some(ix as int),
                symtab_ix is None ==> gsym is None,
                symstr_ix matches Some(ix) ==> ix < self.str_tabs@.len() && gstr == Some(ix as int),
                symstr_ix is None ==> gstr is None,
                n == instrs.len(),
                instrs == section.instructions@,
                section_index == self.func_sections@[func_ix as int].section_index,
                i <= n,
                n <= u32::MAX,
                rows@.len() == i,
                forall|m: int|
                    0 <= m < i ==> (#[trigger] rows@[m]).mnemonic@ == spec_ko_mnemonic(
                        instrs[m].opcode,
                    ),
                forall|m: int|
                    0 <= m < i ==> (#[trigger] rows@[m]).label@ == crate::text::hex_chars_w(
                        (m + 1) as nat,
                        8,
                    ),
                forall|m: int|
                    0 <= m < i ==> (#[trigger] rows@[m]).operands@.len()
                        == instrs[m].operands@.len(),
                forall|m: int, b: int|
                    0 <= m < i && 0 <= b < (#[trigger] rows@[m]).operands@.len()
                        ==> operand_resolution_ok(
                        self,
                        func_ix as int,
                        m,
                        b,
                        #[trigger] rows@[m].operands@[b],
                    ),
                forall|m: int, b: int|
                    0 <= m < i && 0 <= b < instrs[m].operands@.len() ==> #[trigger] operand_resolves(
                        self,
                        func_ix as int,
                        m,
                        b,
                    ),
            decreases n - i,
        {
            let instruction = &section.instructions[i];
            let relocs = self.get_relocated(section_index, i as u32);
            let mut label = String::new();
            crate::text::push_hex(&mut label, (i + 1) as u64, 8);
            let raw = instruction.raw_str();
            let mut mnemonic = String::new();
            push_str_chars(&mut mnemonic, ko_mnemonic(instruction.get_opcode()));
            let mut operands: Vec<ResolvedOperand> = Vec::new();
            let num = instruction.operands.len();
            let mut k: usize = 0;
            while k < num
                invariant
                    self.wf(),
                    func_ix < self.func_sections@.len(),
                    section == &self.func_sections@[func_ix as int],
                    i < instrs.len(),
                    i <= u32::MAX,
                    instrs == section.instructions@,
                    instruction == &section.instructions@[i as int],
                    section_index == section.section_index,
                    data_ix < self.data_sections@.len(),
                    spec_data_named(self, ".data"@) == Some(data_ix as int),
                    spec_symtab_named(self, ".symtab"@) == gsym,
                    spec_strtab_named(self, ".symstrtab"@) == gstr,
                    symtab_ix matches Some(ix) ==> ix < self.sym_tabs@.len() && gsym == Some(
                        ix as int,
                    ),
                    symtab_ix is None ==> gsym is None,
                    symstr_ix matches Some(ix) ==> ix < self.str_tabs@.len() && gstr == Some(
                        ix as int,
                    ),
                    symstr_ix is None ==> gstr is None,
                    num == instruction.operands@.len(),
                    num <= 2,
                    k <= num,
                    operands@.len() == k,
                    relocs.0.0 == spec_reloc_state(self, func_ix as int, i as int, 0) is Some,
                    relocs.0.0 ==> Some(Some(relocs.0.1)) == Some(
                        spec_reloc_state(self, func_ix as int, i as int, 0),
                    ),
                    relocs.1.0 == spec_reloc_state(self, func_ix as int, i as int, 1) is Some,
                    relocs.1.0 ==> Some(Some(relocs.1.1)) == Some(
                        spec_reloc_state(self, func_ix as int, i as int, 1),
                    ),
                    forall|b: int|
                        0 <= b < k ==> operand_resolution_ok(
                            self,
                            func_ix as int,
                            i as int,
                            b,
                            #[trigger] operands@[b],
                        ),
                    forall|b: int|
                        0 <= b < k ==> #[trigger] operand_resolves(
                            self,
                            func_ix as int,
                            i as int,
                            b,
                        ),
                decreases num - k,
            {
                let reloc = if k == 0 {
                    relocs.0
                } else {
                    relocs.1
                };
                let sym_tab = match symtab_ix {
                    Some(ix) => Some(&self.sym_tabs[ix]),
                    None => None,
                };
                let sym_str_tab = match symstr_ix {
                    Some(ix) => Some(&self.str_tabs[ix]),
                    None => None,
                };
                let res = match resolve_operand(
                    reloc,
                    sym_tab,
                    sym_str_tab,
                    &self.data_sections[data_ix],
                    instruction.operands[k],
                ) {
                    Ok(res) => res,
                    Err(e) => {
                        proof {
                            assert(!operand_resolves(self, func_ix as int, i as int, k as int));
                        }
                        return Err(e);
                    },
                };
                proof {
                    assert(operand_resolves(self, func_ix as int, i as int, k as int));
                    assert(operand_resolution_ok(self, func_ix as int, i as int, k as int, res));
                }
                operands.push(res);
                k = k + 1;
            }
            rows.push(KoDisasmLine { label, raw, mnemonic, operands });
            i = i + 1;
        }
        Ok(rows)
    }
}

/// Appends a borrowed string slice.
fn push_str_chars(s: &mut String, t: &str)
    ensures
        final(s)@ == old(s)@ + t@,
{
    let n = t.unicode_len();
    let mut i: usize = 0;
    while i < n
        invariant
            i <= n == t@.len(),
            s@ == old(s)@ + t@.take(i as int),
        decreases n - i,
    {
        let c = t.get_char(i);
        crate::text::push_char(s, c);
        assert(old(s)@ + t@.take((i + 1) as int) =~= (old(s)@ + t@.take(i as int)).push(c));
        i = i + 1;
    }
    assert(s@ =~= old(s)@ + t@);
}

/// True iff one operand, resolved the same way the disassembly resolves it,
/// names `symbol_text` exactly: through the symbol table where a relocation
/// entry redirects the operand, through the data section's string constants
/// otherwise.
pub fn operand_matches_str(
    reloc: (bool, u32),
    sym_tab: Option<&SymbolTable>,
    sym_str_tab: Option<&StringTable>,
    data_section: &DataSection,
    operand: u32,
    symbol_text: &String,
) -> (r: Result<bool, DumpError>)
    ensures
        reloc.0 ==> (match (sym_tab, sym_str_tab) {
            (Option::Some(st), Option::Some(sst)) => {
                if reloc.1 < st.symbols@.len() {
                    let sym = st.symbols@[reloc.1 as int];
                    if sym.name_idx < sst.strings@.len() {
                        r matches Ok(b) && b == (sst.strings@[sym.name_idx as int]@
                            == symbol_text@)
                    } else {
                        r == Err::<bool, DumpError>(DumpError::DanglingReference)
                    }
                } else {
                    r == Err::<bool, DumpError>(DumpError::DanglingReference)
                }
            },
            _ => r == Err::<bool, DumpError>(DumpError::DanglingReference),
        }),
        !reloc.0 ==> (if operand < data_section.data@.len() {
            r matches Ok(b) && b == (match data_section.data@[operand as int]@ {
                crate::argument::SpecValue::Str(text) => text == symbol_text@,
                crate::argument::SpecValue::StrValue(text) => text == symbol_text@,
                _ => false,
            })
        } else {
            r == Err::<bool, DumpError>(DumpError::DanglingReference)
        }),
{
    if reloc.0 {
        let st = match sym_tab {
            Some(st) => st,
            None => {
                return Err(DumpError::DanglingReference);
            },
        };
        let sst = match sym_str_tab {
            Some(sst) => sst,
            None => {
                return Err(DumpError::DanglingReference);
            },
        };
        let sym = match st.get(reloc.1 as usize) {
            Some(sym) => sym,
            None => {
                return Err(DumpError::DanglingReference);
            },
        };
        let name = match sst.get(sym.name_idx as usize) {
            Some(name) => name,
            None => {
                return Err(DumpError::DanglingReference);
            },
        };
        Ok(name.eq(symbol_text))
    } else {
        match data_section.get(operand as usize) {
            Some(value) => match value {
                Value::String(text) => Ok(text.eq(symbol_text)),
                Value::StringValue(text) => Ok(text.eq(symbol_text)),
                _ => Ok(false),
            },
            None => Err(DumpError::DanglingReference),
        }
    }
}

impl KOFile {
    /// Finds the function section to disassemble for a symbol: the first
    /// whose own name equals the symbol, or whose instructions carry an
    /// operand that resolves to the symbol's exact text, through the symbol
    /// table where relocated and through the data section otherwise.
    pub fn func_section_by_symbol(&self, symbol_text: &String) -> (r: Result<
        Option<usize>,
        DumpError,
    >)
        requires
            self.wf(),
        ensures
            r matches Ok(found) ==> (match found {
                Option::Some(ix) => {
                    &&& ix < self.func_sections@.len()
                    &&& section_matches_symbol(self, ix as int, symbol_text@)
                    &&& forall|b: int|
                        0 <= b < ix ==> !section_matches_symbol(self, b, symbol_text@)
                },
                Option::None => forall|a: int|
                    0 <= a < self.func_sections@.len() ==> !section_matches_symbol(
                        self,
                        a,
                        symbol_text@,
                    ),
            }),
            r matches Err(e) ==> e == DumpError::DanglingReference,
    {
        let data_name = String::from_str(".data");
        let data_ix = match self.data_section_by_name(&data_name) {
            Some(ix) => ix,
            None => {
                return Err(DumpError::DanglingReference);
            },
        };
        proof {
            lemma_data_named_some(self, ".data"@, data_ix as int);
        }
        let symtab_name = String::from_str(".symtab");
        let symtab_ix = self.sym_tab_by_name(&symtab_name);
        let symstr_name = String::from_str(".symstrtab");
        let symstr_ix = self.str_tab_by_name(&symstr_name);
        proof {
            match symtab_ix {
                Option::Some(ix) => lemma_symtab_named_some(self, ".symtab"@, ix as int),
                Option::None => assert(spec_symtab_named(self, ".symtab"@) is None),
            }
            match symstr_ix {
                Option::Some(ix) => lemma_strtab_named_some(self, ".symstrtab"@, ix as int),
                Option::None => assert(spec_strtab_named(self, ".symstrtab"@) is None),
            }
        }
        let ghost gsym: Option<int> = match symtab_ix {
            Option::Some(ix) => Some(ix as int),
            Option::None => None,
        };
        let ghost gstr: Option<int> = match symstr_ix {
            Option::Some(ix) => Some(ix as int),
            Option::None => None,
        };

        let n = self.func_sections.len();
        let mut a: usize = 0;
        while a < n
            invariant
                self.wf(),
                n == self.func_sections@.len(),
                a <= n,
                data_ix < self.data_sections@.len(),
                spec_data_named(self, ".data"@) == Some(data_ix as int),
                spec_symtab_named(self, ".symtab"@) == gsym,
                spec_strtab_named(self, ".symstrtab"@) == gstr,
                symtab_ix matches Some(ix) ==> ix < self.sym_tabs@.len() && gsym == Some(ix as int),
                symtab_ix is None ==> gsym is None,
                symstr_ix matches Some(ix) ==> ix < self.str_tabs@.len() && gstr == Some(ix as int),
                symstr_ix is None ==> gstr is None,
                forall|b: int| 0 <= b < a ==> !section_matches_symbol(self, b, symbol_text@),
            decreases n - a,
        {
            let section = &self.func_sections[a];
            let mut name_matched = false;
            match self.get_section_name_by_index(section.section_index) {
                Ok(section_name) => {
                    if section_name.eq(symbol_text) {
                        name_matched = true;
                    }
                },
                Err(_) => {},
            }
            if name_matched {
                proof {
                    assert(section_matches_symbol(self, a as int, symbol_text@));
                }
                return Ok(Some(a));
            }
            proof {
                assert(self.spec_section_name(
                    self.func_sections@[a as int].section_index as int,
                ) != Some(symbol_text@));
            }
            let num_instrs = section.instructions.len();
            proof {
                crate::sections::lemma_instrs_size_mono_pub(
                    section.instructions@,
                    section.instructions@.len() as int,
                    section.instructions@.len() as int,
                );
            }
            let mut i: usize = 0;
            while i < num_instrs
                invariant
                    self.wf(),
                    a < n == self.func_sections@.len(),
                    section == &self.func_sections@[a as int],
                    num_instrs == section.instructions@.len(),
                    num_instrs <= u32::MAX,
                    i <= num_instrs,
                    data_ix < self.data_sections@.len(),
                    spec_data_named(self, ".data"@) == Some(data_ix as int),
                    spec_symtab_named(self, ".symtab"@) == gsym,
                    spec_strtab_named(self, ".symstrtab"@) == gstr,
                    symtab_ix matches Some(ix) ==> ix < self.sym_tabs@.len() && gsym == Some(
                        ix as int,
                    ),
                    symtab_ix is None ==> gsym is None,
                    symstr_ix matches Some(ix) ==> ix < self.str_tabs@.len() && gstr == Some(
                        ix as int,
                    ),
                    symstr_ix is None ==> gstr is None,
                    forall|m: int, b: int|
                        0 <= m < i && 0 <= b
                            < self.func_sections@[a as int].instructions@[m].operands@.len()
                            ==> !(#[trigger] operand_symbol_match(
                            self,
                            a as int,
                            m,
                            b,
                            symbol_text@,
                        )),
                    forall|b: int| 0 <= b < a ==> !section_matches_symbol(self, b, symbol_text@),
                decreases num_instrs - i,
            {
                let relocs = self.get_relocated(section.section_index, i as u32);
                let instruction = &section.instructions[i];
                let num_ops = instruction.operands.len();
                let mut k: usize = 0;
                while k < num_ops
                    invariant
                        self.wf(),
                        a < n == self.func_sections@.len(),
                        section == &self.func_sections@[a as int],
                        i < section.instructions@.len(),
                        i <= u32::MAX,
                        instruction == &section.instructions@[i as int],
                        num_ops == instruction.operands@.len(),
                        num_ops <= 2,
                        k <= num_ops,
                        data_ix < self.data_sections@.len(),
                        spec_data_named(self, ".data"@) == Some(data_ix as int),
                        spec_symtab_named(self, ".symtab"@) == gsym,
                        spec_strtab_named(self, ".symstrtab"@) == gstr,
                        symtab_ix matches Some(ix) ==> ix < self.sym_tabs@.len() && gsym == Some(
                            ix as int,
                        ),
                        symtab_ix is None ==> gsym is None,
                        symstr_ix matches Some(ix) ==> ix < self.str_tabs@.len() && gstr == Some(
                            ix as int,
                        ),
                        symstr_ix is None ==> gstr is None,
                        relocs.0.0 == spec_reloc_state(self, a as int, i as int, 0) is Some,
                        relocs.0.0 ==> Some(Some(relocs.0.1)) == Some(
                            spec_reloc_state(self, a as int, i as int, 0),
                        ),
                        relocs.1.0 == spec_reloc_state(self, a as int, i as int, 1) is Some,
                        relocs.1.0 ==> Some(Some(relocs.1.1)) == Some(
                            spec_reloc_state(self, a as int, i as int, 1),
                        ),
                        forall|b: int|
                            0 <= b < k ==> !operand_symbol_match(
                                self,
                                a as int,
                                i as int,
                                b,
                                symbol_text@,
                            ),
                        forall|b: int|
                            0 <= b < a ==> !section_matches_symbol(self, b, symbol_text@),
                    decreases num_ops - k,
                {
                    let reloc = if k == 0 {
                        relocs.0
                    } else {
                        relocs.1
                    };
                    let sym_tab = match symtab_ix {
                        Some(ix) => Some(&self.sym_tabs[ix]),
                        None => None,
                    };
                    let sym_str_tab = match symstr_ix {
                        Some(ix) => Some(&self.str_tabs[ix]),
                        None => None,
                    };
                    let matched = operand_matches_str(
                        reloc,
                        sym_tab,
                        sym_str_tab,
                        &self.data_sections[data_ix],
                        instruction.operands[k],
                        symbol_text,
                    )?;
                    if matched {
                        proof {
                            assert(operand_symbol_match(
                                self,
                                a as int,
                                i as int,
                                k as int,
                                symbol_text@,
                            ));
                            assert(section_matches_symbol(self, a as int, symbol_text@));
                        }
                        return Ok(Some(a));
                    }
                    proof {
                        assert(!operand_symbol_match(
                            self,
                            a as int,
                            i as int,
                            k as int,
                            symbol_text@,
                        ));
                    }
                    k = k + 1;
                }
                i = i + 1;
            }
            proof {
                assert(!section_matches_symbol(self, a as int, symbol_text@));
            }
            a = a + 1;
        }
        Ok(None)
    }
}

} // verus!



