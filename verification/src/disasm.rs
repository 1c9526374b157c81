//! The disassembly and debug-mapping engine: the six-state line-number
//! gutter classification, synthetic label bookkeeping, and the structured
//! rows a code section disassembles to.
use vstd::prelude::*;

use crate::argument::{spec_is_variable, spec_repr, Argument, Value};
use crate::errors::DumpError;
use crate::instruction::{spec_instr_size, spec_is_label_reset, spec_mnemonic, Instr};
use crate::sections::{find_covering, operands_resolve, pool_has, real_count, ArgumentSection, CodeSection, DebugSection, SectionType};
use crate::text::{aligned_dec_chars, push_char, push_dec_aligned, push_string};

verus! {

/// How one instruction stands to the debug range covering its address.
/// The order of the conditions below is a fixed priority: the first
/// condition that applies decides the state.
#[derive(PartialEq, Eq, Debug, Copy, Clone, Structural)]
pub enum GutterState {
    /// The range exactly spans this one instruction (prints the number).
    Spans,
    /// The instruction opens the range and the next instruction closes it
    /// (prints the number).
    OpensNextCloses,
    /// The instruction opens the range and more of it follows.
    Opens,
    /// The instruction's end exactly meets the range's end.
    Closes,
    /// The range's midpoint falls within this instruction's span (prints
    /// the number).
    Continues,
    /// The instruction lies strictly inside the range.
    Inside,
    /// The instruction lies outside the range's interesting positions.
    Outside,
}

/// The classification of an instruction against a covering debug range, by
/// the fixed priority: spans, opens-and-next-closes, opens, closes,
/// midpoint-continues, interior, outside.
pub open spec fn spec_gutter_state(
    addr: int,
    operand_length: int,
    range_start: int,
    range_end: int,
    next_size: Option<int>,
) -> GutterState {
    let middle = (range_end - range_start) / 2 + range_start;
    if addr == range_start && range_start + operand_length == range_end {
        GutterState::Spans
    } else if addr == range_start {
        match next_size {
            Option::Some(ns) => if addr + operand_length + ns == range_end {
                GutterState::OpensNextCloses
            } else {
                GutterState::Opens
            },
            Option::None => GutterState::Opens,
        }
    } else if addr + operand_length == range_end {
        GutterState::Closes
    } else if middle >= addr && middle <= addr + operand_length {
        GutterState::Continues
    } else if addr + operand_length < range_end && addr > range_start {
        GutterState::Inside
    } else {
        GutterState::Outside
    }
}

/// Whether a gutter state prints the source line number inline.
pub open spec fn spec_gutter_shows_number(state: GutterState) -> bool {
    state == GutterState::Spans || state == GutterState::OpensNextCloses || state
        == GutterState::Continues
}

/// Classifies one instruction against the debug range covering its address.
pub fn gutter_state(
    addr: u32,
    operand_length: u32,
    range_start: u32,
    range_end: u32,
    next_size: Option<u32>,
) -> (r: GutterState)
    requires
        range_start <= range_end,
    ensures
        r == spec_gutter_state(
            addr as int,
            operand_length as int,
            range_start as int,
            range_end as int,
            match next_size {
                Option::Some(n) => Some(n as int),
                Option::None => None,
            },
        ),
{
    if addr == range_start && range_start as u64 + operand_length as u64 == range_end as u64 {
        GutterState::Spans
    } else if addr == range_start {
        match next_size {
            Some(ns) => {
                if addr as u64 + operand_length as u64 + ns as u64 == range_end as u64 {
                    GutterState::OpensNextCloses
                } else {
                    GutterState::Opens
                }
            },
            None => GutterState::Opens,
        }
    } else if range_end >= operand_length && addr == range_end - operand_length {
        GutterState::Closes
    } else {
        let middle = (range_end - range_start) / 2 + range_start;
        let end_inside = (addr as u64 + operand_length as u64) < range_end as u64;
        if middle >= addr && middle as u64 <= addr as u64 + operand_length as u64 {
            GutterState::Continues
        } else if end_inside && addr > range_start {
            GutterState::Inside
        } else {
            GutterState::Outside
        }
    }
}

/// The priority of the gutter classification: an earlier-listed condition
/// decides the state no matter which later conditions also hold.
pub proof fn lemma_gutter_state_priority(
    addr: int,
    operand_length: int,
    range_start: int,
    range_end: int,
    next_size: Option<int>,
)
    ensures
        (addr == range_start && range_start + operand_length == range_end) ==> spec_gutter_state(
            addr,
            operand_length,
            range_start,
            range_end,
            next_size,
        ) == GutterState::Spans,
        (addr == range_start && range_start + operand_length != range_end && (next_size matches Some(
            ns,
        ) && addr + operand_length + ns == range_end)) ==> spec_gutter_state(
            addr,
            operand_length,
            range_start,
            range_end,
            next_size,
        ) == GutterState::OpensNextCloses,
        (addr == range_start && range_start + operand_length != range_end && (match next_size {
            Option::Some(ns) => addr + operand_length + ns != range_end,
            Option::None => true,
        })) ==> spec_gutter_state(addr, operand_length, range_start, range_end, next_size)
            == GutterState::Opens,
        (addr != range_start && addr + operand_length == range_end) ==> spec_gutter_state(
            addr,
            operand_length,
            range_start,
            range_end,
            next_size,
        ) == GutterState::Closes,
{
}

/// The box-drawing glyphs of each gutter state.
pub fn gutter_art(state: GutterState) -> (r: &'static str)
    ensures
        r@ == spec_gutter_art(state),
{
    match state {
        GutterState::Opens => " ╔═",
        GutterState::Inside => " ║ ",
        GutterState::Continues => "═╣ ",
        GutterState::Spans => "═══",
        GutterState::Closes => " ╚═",
        GutterState::OpensNextCloses => "═╦═",
        GutterState::Outside => "   ",
    }
}

/// The glyph text of each gutter state.
pub open spec fn spec_gutter_art(state: GutterState) -> Seq<char> {
    match state {
        GutterState::Opens => " ╔═"@,
        GutterState::Inside => " ║ "@,
        GutterState::Continues => "═╣ "@,
        GutterState::Spans => "═══"@,
        GutterState::Closes => " ╚═"@,
        GutterState::OpensNextCloses => "═╦═"@,
        GutterState::Outside => "   "@,
    }
}

/// The synthetic label of the real instruction with the given one-based
/// counter: an at sign and the counter in six digits.
pub open spec fn spec_auto_label(index: int) -> Seq<char> {
    seq!['@'] + aligned_dec_chars(index as nat, 6, '0')
}

/// Builds the synthetic label of a real instruction.
pub fn make_auto_label(index: u32) -> (r: String)
    ensures
        r@ == spec_auto_label(index as int),
{
    let mut out = String::new();
    push_char(&mut out, '@');
    push_dec_aligned(&mut out, index as u64, 6, '0');
    out
}

/// The text a label-reset instruction installs: after a leading `@` the
/// digits are zero padded on the left to six, and the result is cut to
/// seven characters.
pub open spec fn spec_normalized_label(text: Seq<char>) -> Seq<char> {
    let widened = if text.len() > 0 && text[0] == '@' {
        seq!['@'] + crate::text::fill_chars(
            if text.len() - 1 >= 6 {
                0nat
            } else {
                (6 - (text.len() - 1)) as nat
            },
            '0',
        ) + text.skip(1)
    } else {
        text
    };
    if widened.len() <= 7 {
        widened
    } else {
        widened.take(7)
    }
}

/// Normalizes the label text a label-reset instruction carries.
pub fn normalize_reset_label(text: &String) -> (r: String)
    ensures
        r@ == spec_normalized_label(text@),
{
    let n = text.as_str().unicode_len();
    let mut widened = String::new();
    if n > 0 && text.as_str().get_char(0) == '@' {
        push_char(&mut widened, '@');
        let zeros: usize = if n - 1 >= 6 {
            0
        } else {
            6 - (n - 1)
        };
        crate::text::push_fill(&mut widened, zeros, '0');
        let ghost zfill = crate::text::fill_chars(zeros as nat, '0');
        let mut m: usize = 1;
        while m < n
            invariant
                n == text@.len(),
                n > 0,
                1 <= m <= n,
                widened@ == seq!['@'] + zfill + text@.subrange(1, m as int),
            decreases n - m,
        {
            let c = text.as_str().get_char(m);
            push_char(&mut widened, c);
            assert(seq!['@'] + zfill + text@.subrange(1, (m + 1) as int) =~= (seq!['@'] + zfill
                + text@.subrange(1, m as int)).push(c));
            m = m + 1;
        }
        assert(text@.subrange(1, n as int) =~= text@.skip(1));
        assert(widened@ =~= seq!['@'] + zfill + text@.skip(1));
    } else {
        push_string(&mut widened, text);
    }
    let wn = widened.as_str().unicode_len();
    if wn <= 7 {
        widened
    } else {
        let mut out = String::new();
        let mut m: usize = 0;
        while m < 7
            invariant
                widened@.len() > 7,
                m <= 7,
                out@ == widened@.take(m as int),
            decreases 7 - m,
        {
            let c = widened.as_str().get_char(m);
            push_char(&mut out, c);
            assert(widened@.take((m + 1) as int) =~= widened@.take(m as int).push(c));
            m = m + 1;
        }
        out
    }
}

/// Every run of `n` real instructions with no label-reset instruction shows
/// the labels `@000001` up to the six-digit form of `n`, in order: with no
/// reset, the label entering the instruction at position `i` is the
/// synthetic label of counter `start + i`.
pub proof fn lemma_labels_without_resets(
    instrs: Seq<Instr>,
    args: Seq<Argument>,
    start: int,
    i: int,
)
    requires
        0 <= i <= instrs.len(),
        forall|j: int| 0 <= j < instrs.len() ==> !spec_is_label_reset((#[trigger] instrs[j]).opcode),
    ensures
        spec_label_before(instrs, args, start, i) == spec_auto_label(start + i),
    decreases i,
{
    if i > 0 {
        lemma_labels_without_resets(instrs, args, start, i - 1);
        lemma_real_count_no_resets(instrs, i);
    }
}

proof fn lemma_real_count_no_resets(instrs: Seq<Instr>, i: int)
    requires
        0 <= i <= instrs.len(),
        forall|j: int| 0 <= j < instrs.len() ==> !spec_is_label_reset((#[trigger] instrs[j]).opcode),
    ensures
        real_count(instrs, i) == i,
    decreases i,
{
    if i > 0 {
        lemma_real_count_no_resets(instrs, i - 1);
    }
}

/// The label text of the first pool entry at index `addr` that holds a plain
/// string, or `None` where the index resolves to no plain string.
pub open spec fn spec_pool_label_text(args: Seq<Argument>, addr: u32) -> Option<Seq<char>> {
    if exists|j: int|
        0 <= j < args.len() && (#[trigger] args[j]).address == addr && args[j].value@ is Str {
        let j = choose|j: int|
            0 <= j < args.len() && (#[trigger] args[j]).address == addr && args[j].value@ is Str;
        Some(args[j].value@->Str_0)
    } else {
        None
    }
}

/// The label in effect when the instruction at position `i` is rendered:
/// the synthetic label of the running real-instruction counter, or the
/// normalized text installed by an immediately preceding label-reset
/// instruction.
pub open spec fn spec_label_before(
    instrs: Seq<Instr>,
    args: Seq<Argument>,
    start: int,
    i: int,
) -> Seq<char>
    decreases i,
{
    if i <= 0 {
        spec_auto_label(start)
    } else {
        let prev = instrs[i - 1];
        if spec_is_label_reset(prev.opcode) {
            let prev_label = spec_label_before(instrs, args, start, i - 1);
            if prev.operands@.len() > 0 {
                match spec_pool_label_text(args, prev.operands@[0]) {
                    Option::Some(text) => spec_normalized_label(text),
                    Option::None => spec_normalized_label(prev_label),
                }
            } else {
                spec_normalized_label(prev_label)
            }
        } else {
            spec_auto_label(start + real_count(instrs, i))
        }
    }
}

/// The instruction-address offset of a section's first instruction past its
/// type marker: two, four or six bytes by section type.
pub open spec fn spec_header_overhead(t: SectionType) -> int {
    match t {
        SectionType::FUNCTION => 2,
        SectionType::INITIALIZATION => 4,
        SectionType::MAIN => 6,
    }
}

/// The operand `op` is the rendering of the pool entry at index `addr`: the
/// entry's canonical text (absent for float variants) and its
/// variable-reference flag.
pub open spec fn operand_rendered(
    args: Seq<Argument>,
    addr: u32,
    op: crate::disasm::OperandText,
) -> bool {
    exists|j: int|
        {
            &&& 0 <= j < args.len()
            &&& (#[trigger] args[j]).address == addr
            &&& operand_value_rendered(args[j].value@, op)
        }
}

/// The operand text `op` is the rendering of the constant value `v`: its
/// canonical text (absent for float variants) and its variable flag.
pub open spec fn operand_value_rendered(v: crate::argument::SpecValue, op: OperandText) -> bool {
    &&& op.value@ == v
    &&& op.is_variable == spec_is_variable(v)
    &&& (match op.text {
        Option::Some(t) => Some(t@) == spec_repr(v),
        Option::None => spec_repr(v) is None,
    })
}

/// One rendered operand: its canonical text (absent for the float variants,
/// whose formatting is a presentation concern), whether it is a variable
/// reference to be highlighted, and the constant value itself.
#[derive(Debug)]
pub struct OperandText {
    pub text: Option<String>,
    pub is_variable: bool,
    pub value: Value,
}

/// One disassembled instruction row: the optional line-number gutter (the
/// covering source line, its state and whether the number is printed), the
/// synthetic label (absent on label-reset rows), the raw byte text, the
/// mnemonic, and the rendered operands.
#[derive(Debug)]
pub struct DisasmLine {
    pub line_number: Option<u16>,
    pub state: GutterState,
    pub shows_number: bool,
    pub label: Option<String>,
    pub raw: String,
    pub mnemonic: String,
    pub operands: Vec<OperandText>,
}

/// The gutter of a disassembled row is the classification of its
/// instruction against the first debug range covering the instruction's
/// address, with that entry's line number; blank where no range covers it.
pub open spec fn row_gutter_ok(
    section: &CodeSection,
    debug_section: &DebugSection,
    global_offset: int,
    i: int,
    row: DisasmLine,
) -> bool {
    let instrs = section.instructions@;
    let addr = global_offset + spec_header_overhead(section.section_type)
        + crate::sections::instrs_size(instrs, i);
    let operand_length = spec_instr_size(
        instrs[i].num_operands as int,
        instrs[i].operand_width as int,
    ) - 1;
    let next_size = if i + 1 < instrs.len() {
        Some(
            spec_instr_size(
                instrs[i + 1].num_operands as int,
                instrs[i + 1].operand_width as int,
            ),
        )
    } else {
        None
    };
    match find_covering(debug_section.debug_entries@, addr as u32) {
        Option::Some((line, range)) => {
            &&& row.line_number == Some(line)
            &&& row.state == spec_gutter_state(
                addr,
                operand_length,
                range.0 as int,
                range.1 as int,
                next_size,
            )
        },
        Option::None => {
            &&& row.line_number is None
            &&& row.state == GutterState::Outside
        },
    }
}

/// Looks an operand up in the pool and renders it.
pub fn render_operand(argument_section: &ArgumentSection, addr: u32) -> (r: Result<
    OperandText,
    DumpError,
>)
    requires
        argument_section.addr_to_index@ == crate::sections::addr_map(
            argument_section.argument_list@,
        ),
    ensures
        r is Ok <==> pool_has(argument_section.argument_list@, addr),
        r matches Ok(op) ==> operand_rendered(argument_section.argument_list@, addr, op),
        r matches Err(e) ==> e == DumpError::DanglingReference,
{
    let ix = argument_section.get_index(addr)?;
    let argument = &argument_section.argument_list[ix];
    Ok(
        OperandText {
            text: argument.get_repr(),
            is_variable: argument.is_variable(),
            value: crate::argument::clone_value(argument.get_value()),
        },
    )
}

/// Disassembles one code section into structured rows: per instruction the
/// covering debug range's state, the synthetic or reset label, the raw
/// bytes, the mnemonic, and the rendered operands.
///
/// `global_offset` is the byte address of the section's start;
/// `global_instruction_index` the one-based counter of its first real
/// instruction. The instruction address starts past the section-type header
/// overhead (two, four or six bytes) and advances by each instruction's
/// encoded size.
pub fn disassemble_section(
    section: &CodeSection,
    argument_section: &ArgumentSection,
    debug_section: &DebugSection,
    global_offset: u32,
    global_instruction_index: u32,
) -> (r: Result<Vec<DisasmLine>, DumpError>)
    requires
        section.wf(),
        argument_section.wf(),
        global_offset + section.size <= u32::MAX,
        global_instruction_index + section.instructions@.len() <= u32::MAX,
        crate::sections::instrs_size(
            section.instructions@,
            section.instructions@.len() as int,
        ) + 6 <= section.size,
    ensures
        r is Ok <==> operands_resolve(section.instructions@, argument_section.argument_list@),
        r matches Ok(rows) ==> {
            &&& rows@.len() == section.instructions@.len()
            &&& forall|i: int|
                0 <= i < rows@.len() ==> (#[trigger] rows@[i]).mnemonic@ == spec_mnemonic(
                    section.instructions@[i].opcode,
                )
            &&& forall|i: int|
                0 <= i < rows@.len() ==> ((#[trigger] rows@[i]).label is Some
                    <==> !spec_is_label_reset(section.instructions@[i].opcode))
            &&& forall|i: int|
                0 <= i < rows@.len() ==> (match (#[trigger] rows@[i]).label {
                    Option::Some(l) => l@ == spec_label_before(
                        section.instructions@,
                        argument_section.argument_list@,
                        global_instruction_index as int,
                        i,
                    ),
                    Option::None => true,
                })
            &&& forall|i: int|
                0 <= i < rows@.len() ==> (#[trigger] rows@[i]).raw@
                    == crate::instruction::spec_raw_str(
                    section.instructions@[i].opcode,
                    section.instructions@[i].operand_width as nat,
                    section.instructions@[i].operands@,
                )
            &&& forall|i: int|
                0 <= i < rows@.len() ==> (#[trigger] rows@[i]).shows_number
                    == spec_gutter_shows_number(rows@[i].state)
            &&& forall|i: int|
                0 <= i < rows@.len() ==> (#[trigger] rows@[i]).operands@.len()
                    == section.instructions@[i].operands@.len()
            &&& forall|i: int, k: int|
                0 <= i < rows@.len() && 0 <= k < (#[trigger] rows@[i]).operands@.len()
                    ==> operand_rendered(
                    argument_section.argument_list@,
                    section.instructions@[i].operands@[k],
                    #[trigger] rows@[i].operands@[k],
                )
            &&& forall|i: int|
                0 <= i < rows@.len() ==> row_gutter_ok(
                    section,
                    debug_section,
                    global_offset as int,
                    i,
                    #[trigger] rows@[i],
                )
        },
        r matches Err(e) ==> e == DumpError::DanglingReference && !operands_resolve(
            section.instructions@,
            argument_section.argument_list@,
        ),
{
    let header_overhead: u32 = match section.get_type() {
        SectionType::FUNCTION => 2,
        SectionType::INITIALIZATION => 4,
        SectionType::MAIN => 6,
    };
    proof {
        crate::sections::lemma_instrs_size_mono_pub(
            section.instructions@,
            0,
            section.instructions@.len() as int,
        );
        crate::sections::lemma_pool_indices_strictly_increase(argument_section.argument_list@);
    }
    let mut addr: u32 = global_offset + header_overhead;
    let mut label = make_auto_label(global_instruction_index);
    let mut instruction_index = global_instruction_index;
    let mut rows: Vec<DisasmLine> = Vec::new();
    let n = section.instructions.len();
    let ghost instrs = section.instructions@;
    let ghost args = argument_section.argument_list@;
    let ghost start = global_instruction_index as int;
    let mut i: usize = 0;
    while i < n
        invariant
            section.wf(),
            argument_section.wf(),
            n == instrs.len(),
            instrs == section.instructions@,
            args == argument_section.argument_list@,
            start == global_instruction_index,
            i <= n,
            rows@.len() == i,
            global_offset + section.size <= u32::MAX,
            global_instruction_index + n <= u32::MAX,
            crate::sections::instrs_size(instrs, n as int) + 6 <= section.size,
            addr as int == global_offset + header_overhead + crate::sections::instrs_size(
                instrs,
                i as int,
            ),
            header_overhead <= 6,
            header_overhead == spec_header_overhead(section.section_type),
            instruction_index as int == start + real_count(instrs, i as int),
            label@ == spec_label_before(instrs, args, start, i as int),
            forall|m: int|
                0 <= m < i ==> (#[trigger] rows@[m]).mnemonic@ == spec_mnemonic(instrs[m].opcode),
            forall|m: int|
                0 <= m < i ==> ((#[trigger] rows@[m]).label is Some <==> !spec_is_label_reset(
                    instrs[m].opcode,
                )),
            forall|m: int|
                0 <= m < i ==> (match (#[trigger] rows@[m]).label {
                    Option::Some(l) => l@ == spec_label_before(instrs, args, start, m),
                    Option::None => true,
                }),
            forall|m: int|
                0 <= m < i ==> (#[trigger] rows@[m]).raw@ == crate::instruction::spec_raw_str(
                    instrs[m].opcode,
                    instrs[m].operand_width as nat,
                    instrs[m].operands@,
                ),
            forall|m: int|
                0 <= m < i ==> (#[trigger] rows@[m]).shows_number == spec_gutter_shows_number(
                    rows@[m].state,
                ),
            forall|m: int|
                0 <= m < i ==> (#[trigger] rows@[m]).operands@.len() == instrs[m].operands@.len(),
            forall|m: int, k: int|
                0 <= m < i && 0 <= k < (#[trigger] rows@[m]).operands@.len() ==> operand_rendered(
                    args,
                    instrs[m].operands@[k],
                    #[trigger] rows@[m].operands@[k],
                ),
            forall|m: int|
                0 <= m < i ==> row_gutter_ok(
                    section,
                    debug_section,
                    global_offset as int,
                    m,
                    #[trigger] rows@[m],
                ),
        decreases n - i,
    {
        proof {
            crate::sections::lemma_instrs_size_mono_pub(instrs, i as int + 1, n as int);
            crate::sections::lemma_real_count_bounds_pub(instrs, i as int + 1);
            crate::sections::lemma_real_count_mono_pub(instrs, i as int + 1, n as int);
        }
        let instruction = &section.instructions[i];
        let instr_size = instruction.size();
        let operand_length = (instr_size - 1) as u32;

        // Classify this instruction against the debug range covering its
        // address, if any.
        let found = debug_section.find(addr);
        let (line_number, state) = match found {
            Some((entry, range)) => {
                let next_size: Option<u32> = if i + 1 < n {
                    Some(section.instructions[i + 1].size() as u32)
                } else {
                    None
                };
                let st = gutter_state(addr, operand_length, range.0, range.1, next_size);
                (Some(entry.line_number), st)
            },
            None => (None, GutterState::Outside),
        };
        let shows_number = match state {
            GutterState::Spans => true,
            GutterState::OpensNextCloses => true,
            GutterState::Continues => true,
            _ => false,
        };

        // Render the operands from the pool.
        let mut operands: Vec<OperandText> = Vec::new();
        let mut k: usize = 0;
        let m = instruction.operands.len();
        while k < m
            invariant
                argument_section.wf(),
                i < n == instrs.len(),
                instrs == section.instructions@,
                instruction == &section.instructions@[i as int],
                m == instruction.operands@.len(),
                k <= m,
                operands@.len() == k,
                args == argument_section.argument_list@,
                forall|b: int|
                    0 <= b < k ==> operand_rendered(
                        args,
                        instruction.operands@[b],
                        #[trigger] operands@[b],
                    ),
            decreases m - k,
        {
            let op = match render_operand(argument_section, instruction.operands[k]) {
                Ok(op) => op,
                Err(e) => {
                    proof {
                        assert(!pool_has(args, instrs[i as int].operands@[k as int]));
                        assert(!operands_resolve(instrs, args));
                    }
                    return Err(e);
                },
            };
            operands.push(op);
            k = k + 1;
        }

        let is_reset = instruction.get_opcode() == 0xf0;
        let row_label: Option<String> = if is_reset {
            None
        } else {
            let mut copy = String::new();
            push_string(&mut copy, &label);
            Some(copy)
        };
        let raw = instruction.raw_str();
        let mnemonic_str = instruction.get_mnemonic();
        let mut mnemonic = String::new();
        push_string_str(&mut mnemonic, mnemonic_str);
        rows.push(
            DisasmLine { line_number, state, shows_number, label: row_label, raw, mnemonic, operands },
        );

        // Advance the label state: a label-reset installs the text of its
        // operand; a real instruction advances the counter.
        if is_reset {
            let mut new_label: Option<String> = None;
            if instruction.operands.len() > 0 {
                let op0 = instruction.operands[0];
                match argument_section.get_index(op0) {
                    Ok(ix) => {
                        proof {
                            lemma_unique_pool_position(args, op0, ix as int);
                        }
                        match argument_section.argument_list[ix].get_value() {
                            Value::String(text) => {
                                new_label = Some(normalize_reset_label(text));
                                proof {
                                    assert(exists|j: int|
                                        0 <= j < args.len() && (#[trigger] args[j]).address == op0
                                            && args[j].value@ is Str);
                                    let cj = choose|j: int|
                                        0 <= j < args.len() && (#[trigger] args[j]).address == op0
                                            && args[j].value@ is Str;
                                    assert(cj == ix);
                                }
                            },
                            _ => {
                                proof {
                                    assert(!exists|j: int|
                                        0 <= j < args.len() && (#[trigger] args[j]).address == op0
                                            && args[j].value@ is Str) by {
                                        if exists|j: int|
                                            0 <= j < args.len() && (#[trigger] args[j]).address
                                                == op0 && args[j].value@ is Str {
                                            let cj = choose|j: int|
                                                0 <= j < args.len() && (#[trigger] args[j]).address
                                                    == op0 && args[j].value@ is Str;
                                            assert(cj == ix);
                                        }
                                    }
                                }
                            },
                        }
                    },
                    Err(_) => {},
                }
            }
            label = match new_label {
                Some(l) => l,
                None => normalize_reset_label(&label),
            };
        } else {
            instruction_index = instruction_index + 1;
            label = make_auto_label(instruction_index);
        }
        addr = addr + operand_length + 1;
        i = i + 1;
    }
    proof {
        assert forall|i2: int, k2: int|
            0 <= i2 < instrs.len() && 0 <= k2 < (#[trigger] instrs[i2]).operands@.len() implies pool_has(
            args,
            #[trigger] instrs[i2].operands@[k2],
        ) by {
            assert(operand_rendered(args, instrs[i2].operands@[k2], rows@[i2].operands@[k2]));
        }
    }
    Ok(rows)
}

/// Appends a borrowed string slice.
fn push_string_str(s: &mut String, t: &str)
    ensures
        final(s)@ == old(s)@ + t@,
{
    let n = t.unicode_len();
    let mut i: usize = 0;
    while i < n
        invariant
            i <= n == t@.len(),
            s@ == old(s)@ + t@.take(i as int),
        decreases n - i,
    {
        let c = t.get_char(i);
        push_char(s, c);
        assert(old(s)@ + t@.take((i + 1) as int) =~= (old(s)@ + t@.take(i as int)).push(c));
        i = i + 1;
    }
    assert(s@ =~= old(s)@ + t@);
}

proof fn lemma_unique_pool_position(args: Seq<Argument>, addr: u32, ix: int)
    requires
        crate::sections::pool_chained(args),
        0 <= ix < args.len(),
        args[ix].address == addr,
    ensures
        forall|j: int| 0 <= j < args.len() && (#[trigger] args[j]).address == addr ==> j == ix,
{
    crate::sections::lemma_pool_indices_strictly_increase(args);
}

} // verus!
