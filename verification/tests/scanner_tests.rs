use kdump::errors::DumpError;
use kdump::opcode::{get_instr_mnemonic, read_all_sections, size_of_instr, Instr, SectionType};

#[test]
fn scans_sections_to_the_debug_section() {
    // The stream after the argument pool: empty function and initialization
    // marker groups, a main section with two instructions, then the debug
    // section with one entry.
    let mut bytes: Vec<u8> = Vec::new();
    bytes.extend_from_slice(b"%F%I%M");
    bytes.push(0x4f); // pop
    bytes.extend_from_slice(&[0x4e, 0x10]); // push, one-byte operand
    bytes.extend_from_slice(b"%D\x01");
    bytes.extend_from_slice(&[0x07, 0x00, 0x01, 0x06, 0x09]);
    let mut pos = 0usize;
    let (sections, debug) = read_all_sections(&bytes, &mut pos, 1).unwrap();
    assert_eq!(pos, bytes.len());
    assert_eq!(sections.len(), 1);
    assert_eq!(sections[0].section_type, SectionType::MAIN);
    assert_eq!(sections[0].size, 3);
    assert_eq!(sections[0].instructions.len(), 2);
    match sections[0].instructions[1] {
        Instr::SingleOperand(opcode, operand) => {
            assert_eq!(opcode, 0x4e);
            assert_eq!(operand, 0x10);
        }
        _ => panic!("expected a one-operand instruction"),
    }
    assert_eq!(debug.range_size, 1);
    assert_eq!(debug.debug_entries.len(), 1);
    // This scanner composes its two-byte fields little-endian.
    assert_eq!(debug.debug_entries[0].line_number, 7);
    assert_eq!(debug.debug_entries[0].ranges[0], (6, 9));
}

#[test]
fn scanner_rejects_a_truncated_stream() {
    let mut bytes: Vec<u8> = Vec::new();
    bytes.extend_from_slice(b"%F%I%M");
    bytes.extend_from_slice(&[0x4e, 0x10]);
    bytes.extend_from_slice(b"%D\x01");
    bytes.extend_from_slice(&[0x07, 0x00, 0x01, 0x06]); // range end missing
    let mut pos = 0usize;
    assert_eq!(
        read_all_sections(&bytes, &mut pos, 1).unwrap_err(),
        DumpError::UnexpectedEndOfInput
    );
}

#[test]
fn scanner_rejects_an_unknown_section_letter() {
    let mut pos = 0usize;
    assert_eq!(
        read_all_sections(b"%Qxx", &mut pos, 1).unwrap_err(),
        DumpError::UnknownSectionMarker
    );
}

#[test]
fn instruction_sizes_and_mnemonics() {
    assert_eq!(size_of_instr(&Instr::NoOperand(0x4f), 3), 1);
    assert_eq!(size_of_instr(&Instr::SingleOperand(0x4e, 1), 3), 4);
    assert_eq!(size_of_instr(&Instr::DoubleOperand(0x4c, 1, 2), 3), 7);
    assert_eq!(get_instr_mnemonic(0x4c), "call");
    assert_eq!(get_instr_mnemonic(0xf0), "lbrt");
    assert_eq!(get_instr_mnemonic(0x00), "bogus");
}
