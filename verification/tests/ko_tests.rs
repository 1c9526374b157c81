use kdump::errors::DumpError;
use kdump::ko::{KOFile, ResolvedOperand, SymType};
use kdump::ksm_reader::KSMFileReader;

use kerbalobjects::ko::sections::DataIdx;
use kerbalobjects::ko::symbols::{KOSymbol, OperandIndex, ReldEntry, SymBind as ExtBind,
                                 SymType as ExtType};
use kerbalobjects::ko::Instr as ExtInstr;
use kerbalobjects::ko::KOFile as ExtKOFile;
use kerbalobjects::{KOSValue, Opcode};

/// Builds an object file with a `.data` section holding `String("$x")` and a
/// function section whose single one-operand instruction points at data
/// index zero; optionally a relocation entry redirects that operand to a
/// symbol, whose type the caller picks.
fn build_ko(with_reloc: bool, sym_type: ExtType) -> Vec<u8> {
    let mut ko = ExtKOFile::new();
    let mut data_section = ko.new_data_section(".data");
    let mut start = ko.new_func_section("_start");
    let mut symtab = ko.new_symtab(".symtab");
    let mut symstrtab = ko.new_strtab(".symstrtab");

    let value_idx = data_section.add_checked(KOSValue::String("$x".into()));
    start.add(ExtInstr::OneOp(Opcode::Push, value_idx));

    let name_idx = symstrtab.add("five");
    let symbol = KOSymbol::new(
        name_idx,
        DataIdx::PLACEHOLDER,
        0,
        ExtBind::Global,
        sym_type,
        start.section_index(),
    );
    let sym_idx = symtab.add(symbol);

    if with_reloc {
        let mut reld = ko.new_reld_section(".reld");
        reld.add(ReldEntry::new(
            start.section_index(),
            0usize.into(),
            OperandIndex::One,
            sym_idx,
        ));
        ko.add_reld_section(reld);
    }

    ko.add_data_section(data_section);
    ko.add_func_section(start);
    ko.add_str_tab(symstrtab);
    ko.add_sym_tab(symtab);

    let ko = match ko.validate() {
        Ok(writable) => writable,
        Err(_) => panic!("test object file did not validate"),
    };
    let mut buffer: Vec<u8> = Vec::new();
    ko.write(&mut buffer);
    buffer
}

fn parse_ko(bytes: Vec<u8>) -> Result<KOFile, DumpError> {
    let mut reader = KSMFileReader::from_bytes(bytes);
    KOFile::parse(&mut reader)
}

#[test]
fn header_and_section_table_round_trip() {
    let file = parse_ko(build_ko(false, ExtType::Func)).unwrap();
    assert_eq!(file.header.version, 4);
    assert_eq!(file.header.shstrtab_idx, 1);
    assert_eq!(file.header.num_headers as usize, file.section_headers.len());
    assert_eq!(file.func_sections.len(), 1);
    assert_eq!(file.data_sections.len(), 1);
    assert_eq!(file.sym_tabs.len(), 1);
    // Two plain string tables: the symbol names, beside the name table.
    assert_eq!(file.str_tabs.len(), 1);
    let data_index = file.data_sections[0].section_index;
    assert_eq!(
        file.get_section_name_by_index(data_index).unwrap(),
        ".data"
    );
    let func_index = file.func_sections[0].section_index;
    assert_eq!(
        file.get_section_name_by_index(func_index).unwrap(),
        "_start"
    );
}

#[test]
fn unrelocated_operand_renders_the_variable_constant() {
    let file = parse_ko(build_ko(false, ExtType::Func)).unwrap();
    let rows = file.disassemble_func_section(0).unwrap();
    assert_eq!(rows.len(), 1);
    assert_eq!(rows[0].mnemonic, "push");
    assert_eq!(rows[0].label, "00000001");
    assert_eq!(rows[0].operands.len(), 1);
    match &rows[0].operands[0] {
        ResolvedOperand::Constant(op) => {
            assert!(op.is_variable);
            assert_eq!(op.text.as_ref().unwrap(), "$x");
        },
        ResolvedOperand::Symbol { .. } => panic!("operand must come from the data section"),
    }
}

#[test]
fn relocated_operand_renders_the_symbol_name() {
    // The same instruction, but with a relocation entry: the operand must
    // come from the symbol table, never from the inline constant pool.
    let file = parse_ko(build_ko(true, ExtType::Func)).unwrap();
    let func_index = file.func_sections[0].section_index;
    let relocs = file.get_relocated(func_index, 0);
    assert!(relocs.0 .0);
    assert!(!relocs.1 .0);

    let rows = file.disassemble_func_section(0).unwrap();
    match &rows[0].operands[0] {
        ResolvedOperand::Symbol { name, sym_type } => {
            assert_eq!(name, "five");
            assert_eq!(*sym_type, SymType::Func);
        },
        ResolvedOperand::Constant(_) => panic!("operand must come from the symbol table"),
    }
}

#[test]
fn notype_symbol_resolves_through_the_data_section() {
    // A relocation to a no-type symbol: the operand renders the constant
    // the symbol's value index names, still never the operand's own index.
    let mut ko = ExtKOFile::new();
    let mut data_section = ko.new_data_section(".data");
    let mut start = ko.new_func_section("_start");
    let mut symtab = ko.new_symtab(".symtab");
    let mut symstrtab = ko.new_strtab(".symstrtab");
    let value_idx = data_section.add_checked(KOSValue::String("$x".into()));
    let other_idx = data_section.add_checked(KOSValue::Int16(42));
    start.add(ExtInstr::OneOp(Opcode::Push, value_idx));
    let name_idx = symstrtab.add("forty_two");
    let symbol = KOSymbol::new(
        name_idx,
        other_idx,
        0,
        ExtBind::Global,
        ExtType::NoType,
        start.section_index(),
    );
    let sym_idx = symtab.add(symbol);
    let mut reld = ko.new_reld_section(".reld");
    reld.add(ReldEntry::new(
        start.section_index(),
        0usize.into(),
        OperandIndex::One,
        sym_idx,
    ));
    ko.add_reld_section(reld);
    ko.add_data_section(data_section);
    ko.add_func_section(start);
    ko.add_str_tab(symstrtab);
    ko.add_sym_tab(symtab);
    let ko = match ko.validate() {
        Ok(writable) => writable,
        Err(_) => panic!("test object file did not validate"),
    };
    let mut buffer: Vec<u8> = Vec::new();
    ko.write(&mut buffer);

    let file = parse_ko(buffer).unwrap();
    let rows = file.disassemble_func_section(0).unwrap();
    match &rows[0].operands[0] {
        ResolvedOperand::Constant(op) => {
            // The symbol's value, not the operand's own "$x" constant.
            assert_eq!(op.text.as_ref().unwrap(), "42");
            assert!(!op.is_variable);
        },
        ResolvedOperand::Symbol { .. } => panic!("a no-type symbol resolves to its data value"),
    }
}

#[test]
fn file_symbol_as_operand_is_unsupported() {
    let file = parse_ko(build_ko(true, ExtType::File)).unwrap();
    assert_eq!(
        file.disassemble_func_section(0).unwrap_err(),
        DumpError::UnsupportedSymbolKind
    );
}

#[test]
fn truncating_a_valid_object_file_is_end_of_input() {
    for with_reloc in vec![false, true] {
        let full = build_ko(with_reloc, ExtType::Func);
        assert!(parse_ko(full.clone()).is_ok());
        let mut truncated = full;
        truncated.pop();
        assert_eq!(
            parse_ko(truncated).unwrap_err(),
            DumpError::UnexpectedEndOfInput
        );
    }
}

#[test]
fn wrong_magic_is_unrecognized() {
    let garbage = vec![0u8; 32];
    assert_eq!(
        parse_ko(garbage).unwrap_err(),
        DumpError::UnrecognizedFileType
    );
}

#[test]
fn symbol_fields_survive_the_round_trip() {
    let file = parse_ko(build_ko(false, ExtType::Func)).unwrap();
    let table = &file.sym_tabs[0];
    assert_eq!(table.symbols.len(), 1);
    let symbol = &table.symbols[0];
    assert_eq!(symbol.sym_type, SymType::Func);
    let name = file.str_tabs[0].get(symbol.name_idx as usize).unwrap();
    assert_eq!(name, "five");
}

#[test]
fn function_sections_are_found_by_symbol() {
    // By the section's own name, by a relocated symbol's name, and by the
    // exact text of a string constant the instructions reference.
    let plain = parse_ko(build_ko(false, ExtType::Func)).unwrap();
    assert_eq!(
        plain
            .func_section_by_symbol(&String::from("_start"))
            .unwrap(),
        Some(0)
    );
    assert_eq!(
        plain.func_section_by_symbol(&String::from("$x")).unwrap(),
        Some(0)
    );
    assert_eq!(
        plain
            .func_section_by_symbol(&String::from("absent"))
            .unwrap(),
        None
    );

    let relocated = parse_ko(build_ko(true, ExtType::Func)).unwrap();
    assert_eq!(
        relocated
            .func_section_by_symbol(&String::from("five"))
            .unwrap(),
        Some(0)
    );
    // With the operand redirected to the symbol, the inline constant no
    // longer names the section.
    assert_eq!(
        relocated
            .func_section_by_symbol(&String::from("$x"))
            .unwrap(),
        None
    );
}

#[test]
fn comment_section_carries_the_info_text() {
    let mut ko = ExtKOFile::new();
    let mut data_section = ko.new_data_section(".data");
    let mut start = ko.new_func_section("_start");
    let idx = data_section.add_checked(KOSValue::ArgMarker);
    start.add(ExtInstr::OneOp(Opcode::Push, idx));
    let mut comment = ko.new_strtab(".comment");
    comment.add("Compiled by KASM");
    ko.add_data_section(data_section);
    ko.add_func_section(start);
    ko.add_str_tab(comment);
    let ko = match ko.validate() {
        Ok(writable) => writable,
        Err(_) => panic!("test object file did not validate"),
    };
    let mut buffer: Vec<u8> = Vec::new();
    ko.write(&mut buffer);

    let file = parse_ko(buffer).unwrap();
    assert_eq!(file.comment_text().unwrap(), "Compiled by KASM");
}
