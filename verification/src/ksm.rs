//! The machine-code file parser: the argument pool, the code sections, and
//! the debug section, in their fixed file order.
use vstd::prelude::*;

use crate::argument::{SpecValue, Value};
use crate::errors::DumpError;
use crate::ksm_reader::KSMFileReader;
use crate::sections::{args_end, code_sections_decode, debug_entries_decode, entries_total, pool_chained, secs_end, spec_sections_ok, ArgumentSection, CodeSection, DebugSection};
use crate::text::push_string;

verus! {

/// A fully parsed machine-code file.
#[derive(Debug)]
pub struct KSMFile {
    pub argument_section: ArgumentSection,
    pub code_sections: Vec<CodeSection>,
    pub debug_section: DebugSection,
}

/// The compiler-info text derived from the first pool entry: a sentinel for
/// an internal label or mangled name, the literal text of an ordinary
/// string, or an unknown-compiler message.
pub open spec fn spec_compiler_info(args: Seq<crate::argument::Argument>) -> Seq<char> {
    if args.len() == 0 {
        "Unknown compiler. Not enough data."@
    } else {
        match args[0].value@ {
            SpecValue::Str(text) => if (text.len() > 0 && text[0] == '@') || text.contains('`') {
                "Compiled using internal kOS compiler."@
            } else {
                text
            },
            _ => "Unknown compiler."@,
        }
    }
}

/// The info text derived from an optional first pool value.
pub open spec fn spec_info_text(value: Option<SpecValue>) -> Seq<char> {
    match value {
        Option::Some(v) => match v {
            SpecValue::Str(text) => if (text.len() > 0 && text[0] == '@') || text.contains('`') {
                "Compiled using official kOS compiler."@
            } else {
                text
            },
            _ => "Unknown compiler 2"@,
        },
        Option::None => "Unknown compiler"@,
    }
}

/// The info text for an optional constant value: a sentinel where the value
/// looks like an internal label or a mangled function name, its literal text
/// where it is an ordinary string, and an unknown-compiler message otherwise.
pub fn get_info(value: Option<&Value>) -> (r: String)
    ensures
        r@ == spec_info_text(
            match value {
                Option::Some(v) => Some(v@),
                Option::None => None,
            },
        ),
{
    match value {
        Some(v) => match v {
            Value::String(text) => {
                if crate::text::starts_with_char(text, '@') || crate::text::contains_char(
                    text,
                    '`',
                ) {
                    String::from_str("Compiled using official kOS compiler.")
                } else {
                    let mut out = String::new();
                    push_string(&mut out, text);
                    out
                }
            },
            _ => String::from_str("Unknown compiler 2"),
        },
        None => String::from_str("Unknown compiler"),
    }
}

impl KSMFile {
    /// Bundles the three parts of a parsed file.
    pub fn new(
        argument_section: ArgumentSection,
        code_sections: Vec<CodeSection>,
        debug_section: DebugSection,
    ) -> (r: KSMFile)
        ensures
            r.argument_section == argument_section,
            r.code_sections == code_sections,
            r.debug_section == debug_section,
    {
        KSMFile { argument_section, code_sections, debug_section }
    }

    /// A sound parsed file: a sound pool, sound code sections whose operand
    /// width is the pool's index width.
    pub open spec fn wf(&self) -> bool {
        &&& self.argument_section.wf()
        &&& forall|i: int|
            0 <= i < self.code_sections@.len() ==> (#[trigger] self.code_sections@[i]).wf()
        &&& forall|i: int, j: int|
            0 <= i < self.code_sections@.len() && 0 <= j
                < (#[trigger] self.code_sections@[i]).instructions@.len() ==> (
            #[trigger] self.code_sections@[i].instructions@[j]).wf()
                && self.code_sections@[i].instructions@[j].operand_width
                == self.argument_section.addr_bytes
    }

    /// Parses a whole machine-code file: the four magic bytes, the `%A`
    /// argument pool, code sections until the `%D` marker, then the debug
    /// section to the end of the buffer.
    pub fn read(reader: &mut KSMFileReader) -> (r: Result<KSMFile, DumpError>)
        requires
            old(reader).wf(),
            old(reader).current_index == 0,
            old(reader).contents@.len() < 0xffff0000,
        ensures
            final(reader).wf(),
            r is Ok <==> ({
                let s = old(reader).contents@;
                &&& s.len() > 6
                &&& s[4] == 0x25
                &&& s[5] == 0x41
                &&& 1 <= s[6] <= 4
                &&& args_end(s, 7) is Some
                &&& spec_sections_ok(s, args_end(s, 7).unwrap(), s[6] as int)
            }),
            r matches Ok(file) ==> ({
                let s = old(reader).contents@;
                let w = s[6] as int;
                let scan = args_end(s, 7).unwrap();
                let dbg = secs_end(s, scan, w, file.code_sections@);
                let args = file.argument_section.argument_list@;
                &&& file.wf()
                &&& final(reader).current_index == final(reader).contents@.len()
                &&& file.argument_section.addr_bytes == s[6]
                &&& pool_chained(args)
                &&& (args.len() > 0 ==> args[0].address == 3)
                &&& forall|j: int|
                    0 <= j < args.len() ==> Some((#[trigger] args[j]).value@)
                        == crate::argument::spec_decode_value(s, args[j].address + 4)
                &&& (args.len() > 0 ==> scan == args.last().address + 4 + crate::argument::spec_value_len(
                    args.last().value@,
                ))
                &&& (args.len() == 0 ==> scan == 7)
                &&& code_sections_decode(s, scan, w, file.code_sections@)
                &&& file.debug_section.range_size == s[dbg + 2]
                &&& debug_entries_decode(
                    s,
                    dbg + 3,
                    file.debug_section.range_size as int,
                    file.debug_section.debug_entries@,
                )
                &&& dbg + 3 + entries_total(
                    file.debug_section.debug_entries@,
                    file.debug_section.range_size as int,
                ) == s.len()
                &&& forall|i: int|
                    0 <= i < file.code_sections@.len() ==> (
                    #[trigger] file.code_sections@[i]).size as int == 6
                        + crate::sections::instrs_size(
                        file.code_sections@[i].instructions@,
                        file.code_sections@[i].instructions@.len() as int,
                    )
            }),
    {
        let ghost s = old(reader).contents@;
        reader.pop(4)?;
        let b0 = reader.next()?;
        if b0 != 0x25 {
            return Err(DumpError::UnknownSectionMarker);
        }
        let b1 = reader.next()?;
        if b1 != 0x41 {
            return Err(DumpError::UnknownSectionMarker);
        }
        let argument_section = ArgumentSection::read(reader)?;
        let ghost width = argument_section.addr_bytes;
        let ghost scan_start = reader.current_index as int;
        let mut code_sections: Vec<CodeSection> = Vec::new();
        proof {
            assert(code_sections@ =~= Seq::<CodeSection>::empty());
        }
        loop
            invariant
                code_sections_decode(s, scan_start, width as int, code_sections@),
                reader.current_index == secs_end(s, scan_start, width as int, code_sections@),
                reader.wf(),
                reader.contents == old(reader).contents,
                s == reader.contents@,
                s.len() < 0xffff0000,
                1 <= reader.arg_address_bytes <= 4,
                width == reader.arg_address_bytes,
                width == argument_section.addr_bytes,
                width == s[6],
                Some(scan_start) == args_end(s, 7),
                spec_sections_ok(s, scan_start, width as int) == spec_sections_ok(
                    s,
                    reader.current_index as int,
                    width as int,
                ),
                forall|i: int|
                    0 <= i < code_sections@.len() ==> (#[trigger] code_sections@[i]).wf(),
                forall|i: int|
                    0 <= i < code_sections@.len() ==> (#[trigger] code_sections@[i]).size as int
                        == 6 + crate::sections::instrs_size(
                        code_sections@[i].instructions@,
                        code_sections@[i].instructions@.len() as int,
                    ),
                forall|i: int, j: int|
                    0 <= i < code_sections@.len() && 0 <= j
                        < (#[trigger] code_sections@[i]).instructions@.len() ==> (
                    #[trigger] code_sections@[i].instructions@[j]).wf()
                        && code_sections@[i].instructions@[j].operand_width == width,
            ensures
                reader.wf(),
                reader.contents == old(reader).contents,
                1 <= reader.arg_address_bytes <= 4,
                width == reader.arg_address_bytes,
                reader.current_index + 2 <= s.len(),
                s[reader.current_index as int] == 0x25,
                s[reader.current_index + 1] == 0x44,
                code_sections_decode(s, scan_start, width as int, code_sections@),
                reader.current_index == secs_end(s, scan_start, width as int, code_sections@),
                spec_sections_ok(s, scan_start, width as int) == spec_sections_ok(
                    s,
                    reader.current_index as int,
                    width as int,
                ),
                forall|i: int|
                    0 <= i < code_sections@.len() ==> (#[trigger] code_sections@[i]).wf(),
                forall|i: int|
                    0 <= i < code_sections@.len() ==> (#[trigger] code_sections@[i]).size as int
                        == 6 + crate::sections::instrs_size(
                        code_sections@[i].instructions@,
                        code_sections@[i].instructions@.len() as int,
                    ),
                forall|i: int, j: int|
                    0 <= i < code_sections@.len() && 0 <= j
                        < (#[trigger] code_sections@[i]).instructions@.len() ==> (
                    #[trigger] code_sections@[i].instructions@[j]).wf()
                        && code_sections@[i].instructions@[j].operand_width == width,
            decreases s.len() - reader.current_index,
        {
            let ghost cur = reader.current_index as int;
            let peeked = match reader.peek_count(2) {
                Ok(peeked) => peeked,
                Err(e) => {
                    proof {
                        assert(!spec_sections_ok(s, cur, width as int));
                    }
                    return Err(e);
                },
            };
            if peeked[0] == 0x25 && peeked[1] == 0x44 {
                break ;
            }
            let ghost prev = code_sections@;
            let section = match CodeSection::read(reader) {
                Ok(section) => section,
                Err(e) => {
                    proof {
                        assert(!spec_sections_ok(s, cur, width as int));
                    }
                    return Err(e);
                },
            };
            proof {
                crate::sections::lemma_secs_decode_push(s, scan_start, width as int, prev, section);
                crate::sections::lemma_secs_end_push(s, scan_start, width as int, prev, section);
            }
            code_sections.push(section);
        }
        let debug_section = DebugSection::read(reader)?;
        Ok(KSMFile::new(argument_section, code_sections, debug_section))
    }

    /// The argument pool.
    pub fn get_argument_section(&self) -> (r: &ArgumentSection)
        ensures
            r == self.argument_section,
    {
        &self.argument_section
    }

    /// The debug section.
    pub fn get_debug_section(&self) -> (r: &DebugSection)
        ensures
            r == self.debug_section,
    {
        &self.debug_section
    }

    /// The code sections in file order.
    pub fn get_code_sections(&self) -> (r: &Vec<CodeSection>)
        ensures
            r == self.code_sections,
    {
        &self.code_sections
    }

    /// The compiler-info text derived from the first pool entry.
    pub fn get_compiler(&self) -> (r: String)
        ensures
            r@ == spec_compiler_info(self.argument_section.argument_list@),
    {
        if self.argument_section.argument_list.len() == 0 {
            return String::from_str("Unknown compiler. Not enough data.");
        }
        let arg = &self.argument_section.argument_list[0];
        match arg.get_value() {
            Value::String(text) => {
                if crate::text::starts_with_char(text, '@') || crate::text::contains_char(
                    text,
                    '`',
                ) {
                    String::from_str("Compiled using internal kOS compiler.")
                } else {
                    let mut out = String::new();
                    push_string(&mut out, text);
                    out
                }
            },
            _ => String::from_str("Unknown compiler."),
        }
    }
}

} // verus!
