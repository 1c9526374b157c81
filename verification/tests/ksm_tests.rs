use kdump::argument::Value;
use kdump::disasm::{disassemble_section, gutter_state, make_auto_label, normalize_reset_label,
                    GutterState};
use kdump::errors::DumpError;
use kdump::fio::{determine_file_type, FileType};
use kdump::instruction::Instr;
use kdump::ksm::KSMFile;
use kdump::ksm_reader::KSMFileReader;
use kdump::sections::SectionType;
use std::io::Write;

/// A minimal machine-code stream: the magic, a one-byte-index argument pool
/// holding `String("hello")`, a main section with one zero-operand opcode,
/// and an empty debug section.
fn minimal_ksm_bytes() -> Vec<u8> {
    let mut bytes: Vec<u8> = Vec::new();
    bytes.extend_from_slice(&[0x6b, 0x03, 0x58, 0x45]); // file magic
    bytes.extend_from_slice(b"%A\x01"); // argument pool, one-byte indices
    bytes.push(7); // String tag
    bytes.push(5);
    bytes.extend_from_slice(b"hello");
    bytes.extend_from_slice(b"%F%I%M"); // empty function + init, then main
    bytes.push(0x4f); // one zero-operand instruction (pop)
    bytes.extend_from_slice(b"%D\x01"); // empty debug section
    bytes
}

fn parse_raw(bytes: Vec<u8>) -> Result<KSMFile, DumpError> {
    let mut reader = KSMFileReader::from_bytes(bytes);
    KSMFile::read(&mut reader)
}

#[test]
fn minimal_file_parses_and_disassembles() {
    let file = parse_raw(minimal_ksm_bytes()).unwrap();
    assert_eq!(file.get_argument_section().get_argument_list().len(), 1);
    assert_eq!(file.get_code_sections().len(), 1);
    let section = &file.get_code_sections()[0];
    assert_eq!(section.get_type(), SectionType::MAIN);
    assert_eq!(section.get_instructions().len(), 1);
    assert_eq!(file.get_debug_section().get_debug_entries().len(), 0);

    let rows = disassemble_section(
        section,
        file.get_argument_section(),
        file.get_debug_section(),
        0,
        1,
    )
    .unwrap();
    assert_eq!(rows.len(), 1);
    assert_eq!(rows[0].mnemonic, "pop");
    assert_eq!(rows[0].operands.len(), 0);
    assert_eq!(rows[0].label.as_ref().unwrap(), "@000001");
}

#[test]
fn section_size_counts_instruction_and_marker_bytes() {
    let file = parse_raw(minimal_ksm_bytes()).unwrap();
    let section = &file.get_code_sections()[0];
    // One one-byte instruction plus the six marker bytes.
    assert_eq!(section.size(), 7);
    assert_eq!(section.number_real_instructions(), 1);
    assert_eq!(section.get_offset(0), 0);
}

#[test]
fn pool_indices_resolve_both_ways() {
    let mut bytes: Vec<u8> = Vec::new();
    bytes.extend_from_slice(&[0x6b, 0x03, 0x58, 0x45]);
    bytes.extend_from_slice(b"%A\x01");
    bytes.push(8); // ArgMarker at pool index 3
    bytes.push(3); // Int16(-1) at pool index 4
    bytes.extend_from_slice(&[0xff, 0xff]);
    bytes.extend_from_slice(b"%F%I%M");
    bytes.push(0x4f);
    bytes.extend_from_slice(b"%D\x01");
    let file = parse_raw(bytes).unwrap();
    let pool = file.get_argument_section();
    assert_eq!(pool.get_addr_bytes(), 1);
    assert_eq!(pool.get_argument_list().len(), 2);
    // Successive indices increase by exactly the encoded byte length.
    assert_eq!(pool.get_addr(0).unwrap(), 3);
    assert_eq!(pool.get_addr(1).unwrap(), 4);
    assert_eq!(pool.get_index(3).unwrap(), 0);
    assert_eq!(pool.get_index(4).unwrap(), 1);
    assert_eq!(pool.get_index(5).unwrap_err(), DumpError::DanglingReference);
    assert_eq!(pool.get_argument(4).get_repr().unwrap(), "-1");
}

#[test]
fn truncating_a_valid_file_is_end_of_input() {
    // Dropping the last byte must fail with the end-of-input error at every
    // truncation point, never parse to something else.
    let full = minimal_ksm_bytes();
    let mut bytes = full.clone();
    bytes.pop();
    assert_eq!(parse_raw(bytes).unwrap_err(), DumpError::UnexpectedEndOfInput);

    // A file with one debug entry, truncated inside that entry.
    let mut with_debug = full.clone();
    with_debug.extend_from_slice(&[0x00, 0x07, 0x01, 0x06, 0x09]); // line 7, one range
    let mut truncated = with_debug.clone();
    truncated.pop();
    assert!(parse_raw(with_debug).is_ok());
    assert_eq!(
        parse_raw(truncated).unwrap_err(),
        DumpError::UnexpectedEndOfInput
    );
}

#[test]
fn unknown_opcode_aborts_the_parse() {
    let mut bytes: Vec<u8> = Vec::new();
    bytes.extend_from_slice(&[0x6b, 0x03, 0x58, 0x45]);
    bytes.extend_from_slice(b"%A\x01");
    bytes.extend_from_slice(b"%F%I%M");
    bytes.push(0x01); // no such opcode
    bytes.extend_from_slice(b"%D\x01");
    assert_eq!(parse_raw(bytes).unwrap_err(), DumpError::UnknownOpcode(0x01));
}

#[test]
fn malformed_pool_width_is_rejected() {
    let mut bytes: Vec<u8> = Vec::new();
    bytes.extend_from_slice(&[0x6b, 0x03, 0x58, 0x45]);
    bytes.extend_from_slice(b"%A\x00"); // a zero-byte index width
    bytes.extend_from_slice(b"%F%I%M");
    bytes.push(0x4f);
    bytes.extend_from_slice(b"%D\x01");
    assert_eq!(
        parse_raw(bytes).unwrap_err(),
        DumpError::MalformedSectionStructure
    );
}

#[test]
fn gzipped_file_type_is_recognized() {
    let raw = minimal_ksm_bytes();
    let mut encoder =
        flate2::write::GzEncoder::new(Vec::new(), flate2::Compression::default());
    encoder.write_all(&raw).unwrap();
    let gzipped = encoder.finish().unwrap();

    assert_eq!(
        determine_file_type(&gzipped).unwrap(),
        FileType::KerbalMachineCode
    );
    // If decompression handed its input back unchanged, the bytes would
    // still start with the gzip magic, not the machine-code magic.
    assert_ne!(&gzipped[..4], &raw[..4]);

    let mut reader = KSMFileReader::new(gzipped).unwrap();
    let file = KSMFile::read(&mut reader).unwrap();
    assert_eq!(file.get_compiler(), "hello");
}

#[test]
fn truncated_gzip_stream_is_end_of_input() {
    let raw = minimal_ksm_bytes();
    let mut encoder =
        flate2::write::GzEncoder::new(Vec::new(), flate2::Compression::default());
    encoder.write_all(&raw).unwrap();
    let mut gzipped = encoder.finish().unwrap();
    gzipped.pop();
    assert_eq!(
        KSMFileReader::new(gzipped).unwrap_err(),
        DumpError::UnexpectedEndOfInput
    );
}

#[test]
fn sniffer_reads_only_the_decompressed_prefix() {
    // Only the first four decompressed bytes decide the type: a gzip stream
    // with a corrupt tail is still recognized as machine code.
    let raw = minimal_ksm_bytes();
    let mut encoder =
        flate2::write::GzEncoder::new(Vec::new(), flate2::Compression::default());
    encoder.write_all(&raw).unwrap();
    let mut gzipped = encoder.finish().unwrap();
    gzipped.pop();
    assert_eq!(
        determine_file_type(&gzipped).unwrap(),
        FileType::KerbalMachineCode
    );
}

#[test]
fn file_type_of_garbage_is_unknown() {
    let garbage = vec![1u8, 2, 3, 4, 5, 6, 7, 8];
    assert_eq!(determine_file_type(&garbage).unwrap(), FileType::Unknown);
    let tiny = vec![1u8, 2];
    assert_eq!(
        determine_file_type(&tiny).unwrap_err(),
        DumpError::UnexpectedEndOfInput
    );
}

#[test]
fn compiler_info_for_internal_labels() {
    let mut bytes: Vec<u8> = Vec::new();
    bytes.extend_from_slice(&[0x6b, 0x03, 0x58, 0x45]);
    bytes.extend_from_slice(b"%A\x01");
    bytes.push(7);
    bytes.push(5);
    bytes.extend_from_slice(b"@0001");
    bytes.extend_from_slice(b"%F%I%M");
    bytes.push(0x4f);
    bytes.extend_from_slice(b"%D\x01");
    let file = parse_raw(bytes).unwrap();
    assert_eq!(
        file.get_compiler(),
        "Compiled using internal kOS compiler."
    );
}

#[test]
fn auto_labels_run_in_order() {
    // Three real instructions, no label resets: labels run from @000001.
    let mut bytes: Vec<u8> = Vec::new();
    bytes.extend_from_slice(&[0x6b, 0x03, 0x58, 0x45]);
    bytes.extend_from_slice(b"%A\x01");
    bytes.extend_from_slice(b"%F%I%M");
    bytes.push(0x4f);
    bytes.push(0x50);
    bytes.push(0x51);
    bytes.extend_from_slice(b"%D\x01");
    let file = parse_raw(bytes).unwrap();
    let rows = disassemble_section(
        &file.get_code_sections()[0],
        file.get_argument_section(),
        file.get_debug_section(),
        0,
        1,
    )
    .unwrap();
    assert_eq!(rows.len(), 3);
    assert_eq!(rows[0].label.as_ref().unwrap(), "@000001");
    assert_eq!(rows[1].label.as_ref().unwrap(), "@000002");
    assert_eq!(rows[2].label.as_ref().unwrap(), "@000003");
    assert_eq!(rows[1].mnemonic, "dup");
    assert_eq!(rows[0].raw, "4f        ");
}

#[test]
fn label_reset_applies_to_the_following_instruction() {
    // A label-reset instruction naming "@13" renames the next row's label to
    // the normalized "@000013"; the reset row itself shows no label.
    let mut bytes: Vec<u8> = Vec::new();
    bytes.extend_from_slice(&[0x6b, 0x03, 0x58, 0x45]);
    bytes.extend_from_slice(b"%A\x01");
    bytes.push(7); // String "@13" at pool index 3
    bytes.push(3);
    bytes.extend_from_slice(b"@13");
    bytes.extend_from_slice(b"%F%I%M");
    bytes.extend_from_slice(&[0xf0, 0x03]); // label reset naming pool index 3
    bytes.push(0x4f);
    bytes.extend_from_slice(b"%D\x01");
    let file = parse_raw(bytes).unwrap();
    let rows = disassemble_section(
        &file.get_code_sections()[0],
        file.get_argument_section(),
        file.get_debug_section(),
        0,
        1,
    )
    .unwrap();
    assert_eq!(rows.len(), 2);
    assert!(rows[0].label.is_none());
    assert_eq!(rows[0].mnemonic, "lbrt");
    assert_eq!(rows[1].label.as_ref().unwrap(), "@000013");
}

#[test]
fn reset_label_normalization() {
    assert_eq!(normalize_reset_label(&String::from("@13")), "@000013");
    assert_eq!(normalize_reset_label(&String::from("@123456")), "@123456");
    assert_eq!(normalize_reset_label(&String::from("@0013")), "@000013");
    assert_eq!(normalize_reset_label(&String::from("@12345678")), "@123456");
    assert_eq!(normalize_reset_label(&String::from("main")), "main");
    assert_eq!(
        normalize_reset_label(&String::from("averylongname")),
        "averylo"
    );
    assert_eq!(make_auto_label(1), "@000001");
    assert_eq!(make_auto_label(654321), "@654321");
}

#[test]
fn gutter_states_follow_the_priority_order() {
    // A range that exactly spans one instruction.
    assert_eq!(gutter_state(10, 2, 10, 12, Some(3)), GutterState::Spans);
    // Opens, and the next instruction's end meets the range end.
    assert_eq!(
        gutter_state(10, 2, 10, 15, Some(3)),
        GutterState::OpensNextCloses
    );
    // Opens with more than one following instruction inside.
    assert_eq!(gutter_state(10, 2, 10, 20, Some(3)), GutterState::Opens);
    assert_eq!(gutter_state(10, 2, 10, 20, None), GutterState::Opens);
    // Ends exactly at the range end.
    assert_eq!(gutter_state(18, 2, 10, 20, Some(3)), GutterState::Closes);
    // The midpoint of [10, 20] is 15.
    assert_eq!(gutter_state(14, 2, 10, 20, Some(3)), GutterState::Continues);
    // Strictly interior, away from the midpoint.
    assert_eq!(gutter_state(11, 1, 10, 20, Some(3)), GutterState::Inside);
    // Before the range's start without opening it.
    assert_eq!(gutter_state(9, 0, 10, 20, Some(3)), GutterState::Outside);
}

#[test]
fn debug_entries_and_gutter_numbers() {
    // One instruction at address 6 covered by the range [6, 6]: the gutter
    // spans it and prints line number 7.
    let mut bytes: Vec<u8> = Vec::new();
    bytes.extend_from_slice(&[0x6b, 0x03, 0x58, 0x45]);
    bytes.extend_from_slice(b"%A\x01");
    bytes.extend_from_slice(b"%F%I%M");
    bytes.push(0x4f);
    bytes.extend_from_slice(b"%D\x01");
    bytes.extend_from_slice(&[0x00, 0x07, 0x01, 0x06, 0x06]);
    let file = parse_raw(bytes).unwrap();
    let debug = file.get_debug_section();
    assert_eq!(debug.get_max_line_number(), 7);
    assert_eq!(debug.get_debug_entries().len(), 1);
    assert_eq!(debug.get_debug_entries()[0].line_number, 7);
    assert_eq!(debug.get_debug_entries()[0].ranges[0], (6, 6));
    assert!(debug.find(6).is_some());
    assert!(debug.find(7).is_none());

    let rows = disassemble_section(
        &file.get_code_sections()[0],
        file.get_argument_section(),
        file.get_debug_section(),
        0,
        1,
    )
    .unwrap();
    assert_eq!(rows[0].state, GutterState::Spans);
    assert_eq!(rows[0].line_number, Some(7));
    assert!(rows[0].shows_number);
}

#[test]
fn instruction_reading_and_raw_text() {
    let mut reader = KSMFileReader::from_bytes(vec![0x4c, 0x00, 0x23, 0x01, 0x10]);
    reader.set_address_bytes(2);
    let instr = Instr::read(&mut reader).unwrap();
    assert_eq!(instr.get_opcode(), 0x4c);
    assert_eq!(instr.num_operands(), 2);
    // Two-byte pool indices compose big-endian.
    assert_eq!(instr.get_operands()[0], 0x0023);
    assert_eq!(instr.get_operands()[1], 0x0110);
    assert_eq!(instr.size(), 5);
    assert_eq!(instr.get_mnemonic(), "call");
    assert_eq!(instr.raw_str(), "4c 0023 0110    ");
    assert_eq!(Instr::opcode_num_operands(0x4e), 1);
    assert_eq!(Instr::opcode_num_operands(0x00), 255);
}

#[test]
fn section_search_by_contained_symbol() {
    let mut bytes: Vec<u8> = Vec::new();
    bytes.extend_from_slice(&[0x6b, 0x03, 0x58, 0x45]);
    bytes.extend_from_slice(b"%A\x01");
    bytes.push(7); // String "doSomething" at pool index 3
    bytes.push(11);
    bytes.extend_from_slice(b"doSomething");
    bytes.extend_from_slice(b"%F%I%M");
    bytes.extend_from_slice(&[0x4e, 0x03]); // push that string
    bytes.extend_from_slice(b"%D\x01");
    let file = parse_raw(bytes).unwrap();
    let section = &file.get_code_sections()[0];
    assert!(section
        .contains(&String::from("Some"), file.get_argument_section())
        .unwrap());
    assert!(!section
        .contains(&String::from("other"), file.get_argument_section())
        .unwrap());
}

#[test]
fn ascii_case_folding_compares_names() {
    assert!(kdump::text::eq_ignore_ascii_case(&String::from("MAIN"), "main"));
    assert!(kdump::text::eq_ignore_ascii_case(&String::from("Main"), "main"));
    assert!(kdump::text::eq_ignore_ascii_case(&String::from("main"), "main"));
    assert!(!kdump::text::eq_ignore_ascii_case(&String::from("maim"), "main"));
    assert!(!kdump::text::eq_ignore_ascii_case(&String::from("main_"), "main"));
    assert!(!kdump::text::eq_ignore_ascii_case(&String::from("mai"), "main"));
}
