//! Tests of the variable list built from a symbol table and debug information.
use std::collections::HashMap;
use dap_sampler::elf::dwarf::{DwarfMember, DwarfResult, DwarfTypeInfo, DwarfVarInfo};
use dap_sampler::elf::parser::{
    variable_by_path, variable_for_channel, ElfParser, SymbolClass, SymbolRecord,
};
use dap_sampler::elf::tree::{build_from_dwarf, build_from_symbols_only};
use dap_sampler::elf::{ElfSymbolRaw, ElfVariable};
use dap_sampler::pipeline::sample::ValueType;

fn sym(name: &str, address: u32, size: u32) -> ElfSymbolRaw {
    ElfSymbolRaw { name: name.to_string(), address, size }
}

fn var(name: &str, address: u32, type_offset: u64) -> DwarfVarInfo {
    DwarfVarInfo {
        name: name.to_string(),
        address,
        type_offset,
        source_file: Some("main.c".to_string()),
        source_line: 1,
    }
}

fn base(name: &str, byte_size: u32) -> DwarfTypeInfo {
    DwarfTypeInfo::Base { name: name.to_string(), byte_size }
}

fn sample_types() -> HashMap<u64, DwarfTypeInfo> {
    let mut types = HashMap::new();
    types.insert(1, base("unsigned int", 4));
    types.insert(2, DwarfTypeInfo::Struct {
        members: vec![
            DwarfMember { name: "x".to_string(), type_offset: 3, member_offset: 0 },
            DwarfMember { name: "y".to_string(), type_offset: 3, member_offset: 4 },
        ],
        byte_size: 8,
    });
    types.insert(3, base("float", 4));
    types.insert(4, DwarfTypeInfo::Alias { target_offset: 1 });
    types.insert(5, DwarfTypeInfo::Array { element_type_offset: 6, element_count: 3, byte_size: 6 });
    types.insert(6, base("short int", 2));
    types.insert(7, DwarfTypeInfo::Pointer { byte_size: 4 });
    types
}

fn paths(v: &[ElfVariable]) -> Vec<String> {
    v.iter().map(|x| x.path.clone()).collect()
}

#[test]
fn dwarf_variables_are_cross_checked_expanded_and_sorted() {
    let symbols = vec![
        sym("speed", 0x2000_0000, 4),
        sym("pos", 0x2000_0010, 8),
        sym("table", 0x2000_0020, 6),
        sym("zero_addr", 0, 4),
        sym("ptr", 0x2000_0030, 4),
        sym("alias", 0x2000_0040, 4),
    ];
    let dwarf = DwarfResult {
        variables: vec![
            var("speed", 0x2000_0000, 1),
            var("pos", 0x2000_0010, 2),
            var("table", 0x2000_0020, 5),
            var("not_in_symbols", 0x2000_0050, 1),
            var("zero_addr", 0, 1),
            var("ptr", 0x2000_0030, 7),
            var("alias", 0x2000_0040, 4),
        ],
        types: sample_types(),
        source_files: vec!["main.c".to_string()],
    };
    let v = build_from_dwarf(&symbols, &dwarf).unwrap();
    assert_eq!(
        paths(&v),
        vec!["alias", "pos.x", "pos.y", "ptr", "speed", "table[0]", "table[1]", "table[2]"]
    );
    assert_eq!(v[0].value_type, ValueType::Uint32);
    assert_eq!(v[1].address, 0x2000_0010);
    assert_eq!(v[2].address, 0x2000_0014);
    assert_eq!(v[1].value_type, ValueType::Float);
    assert_eq!(v[1].name, "x");
    assert_eq!(v[1].parent_path.as_deref(), Some("pos"));
    assert_eq!(v[3].value_type, ValueType::Uint32);
    assert_eq!(v[3].byte_size, 4);
    assert_eq!(v[5].address, 0x2000_0020);
    assert_eq!(v[6].address, 0x2000_0022);
    assert_eq!(v[7].address, 0x2000_0024);
    assert_eq!(v[7].value_type, ValueType::Int16);
    assert_eq!(v[7].parent_path, None);
    assert_eq!(v[4].source_file.as_deref(), Some("main.c"));
}

#[test]
fn dwarf_duplicates_keep_the_first() {
    let symbols = vec![sym("a", 0x100, 4)];
    let mut types = HashMap::new();
    types.insert(1, base("int", 4));
    types.insert(2, base("unsigned char", 1));
    let dwarf = DwarfResult {
        variables: vec![var("a", 0x100, 1), var("a", 0x100, 2), var("a", 0x104, 2)],
        types,
        source_files: vec![],
    };
    let v = build_from_dwarf(&symbols, &dwarf).unwrap();
    assert_eq!(v.len(), 2);
    assert_eq!(v[0].address, 0x100);
    assert_eq!(v[0].value_type, ValueType::Int32);
    assert_eq!(v[1].address, 0x104);
    assert_eq!(v[1].value_type, ValueType::Uint8);
}

#[test]
fn dwarf_unknown_type_is_uint32_of_four_bytes() {
    let symbols = vec![sym("m", 0x200, 4)];
    let dwarf = DwarfResult {
        variables: vec![var("m", 0x200, 99)],
        types: HashMap::new(),
        source_files: vec![],
    };
    let v = build_from_dwarf(&symbols, &dwarf).unwrap();
    assert_eq!(v.len(), 1);
    assert_eq!(v[0].byte_size, 4);
    assert_eq!(v[0].value_type, ValueType::Uint32);
}

#[test]
fn dwarf_array_stops_at_256_elements() {
    let symbols = vec![sym("big", 0x1000, 2000)];
    let mut types = HashMap::new();
    types.insert(1, base("char", 1));
    types.insert(2, DwarfTypeInfo::Array { element_type_offset: 1, element_count: 1000, byte_size: 1000 });
    let dwarf = DwarfResult { variables: vec![var("big", 0x1000, 2)], types, source_files: vec![] };
    let v = build_from_dwarf(&symbols, &dwarf).unwrap();
    assert_eq!(v.len(), 256);
    assert!(v.iter().any(|x| x.path == "big[255]" && x.address == 0x1000 + 255));
    assert!(!v.iter().any(|x| x.path == "big[256]"));
}

#[test]
fn symbols_only_types_by_size_and_sorts_by_name() {
    let symbols = vec![
        sym("zeta", 0x10, 4),
        sym("alpha", 0x20, 2),
        sym("mid", 0x30, 1),
        sym("dbl", 0x40, 8),
        sym("odd", 0x50, 3),
        sym("empty", 0x60, 0),
        sym("noaddr", 0, 4),
    ];
    let v = build_from_symbols_only(&symbols).unwrap();
    assert_eq!(paths(&v), vec!["alpha", "dbl", "mid", "odd", "zeta"]);
    assert_eq!(v[0].value_type, ValueType::Uint16);
    assert_eq!(v[1].value_type, ValueType::Float);
    assert_eq!(v[2].value_type, ValueType::Uint8);
    assert_eq!(v[3].value_type, ValueType::Uint32);
    assert_eq!(v[4].value_type, ValueType::Float);
    assert_eq!(v[4].name, "zeta");
    assert_eq!(v[4].parent_path, None);
}

#[test]
fn symbols_only_keeps_table_order_for_equal_names() {
    let symbols = vec![sym("x", 0x30, 4), sym("a", 0x10, 4), sym("x", 0x20, 4)];
    let v = build_from_symbols_only(&symbols).unwrap();
    assert_eq!(paths(&v), vec!["a", "x", "x"]);
    assert_eq!(v[1].address, 0x30);
    assert_eq!(v[2].address, 0x20);
}

#[test]
fn resolve_variables_without_debug_information_uses_symbols() {
    let symbols = vec![sym("b", 0x8, 4), sym("a", 0x4, 4)];
    let v = ElfParser::resolve_variables(&symbols, None).unwrap();
    assert_eq!(paths(&v), vec!["a", "b"]);
}

fn record(name: Option<&str>, kind: SymbolClass, undefined: bool, address: u64, size: u64) -> SymbolRecord {
    SymbolRecord {
        kind,
        is_undefined: undefined,
        name: name.map(|s| s.to_string()),
        address,
        size,
    }
}

#[test]
fn extract_symbols_keeps_defined_named_data() {
    let records = vec![
        record(Some("data"), SymbolClass::Data, false, 0x2000_0000, 4),
        record(Some("func"), SymbolClass::Text, false, 0x0800_0000, 4),
        record(Some("undef"), SymbolClass::Data, true, 0x2000_0004, 4),
        record(Some(""), SymbolClass::Data, false, 0x2000_0008, 4),
        record(None, SymbolClass::Data, false, 0x2000_000C, 4),
        record(Some("zero"), SymbolClass::Data, false, 0, 4),
        record(Some("high"), SymbolClass::Data, false, 0x1_0000_0000, 4),
        record(Some("wide"), SymbolClass::Data, false, 0x1_2000_0010, 0x1_0000_0002),
    ];
    let v = ElfParser::extract_symbols_object(&records);
    assert_eq!(v.len(), 2);
    assert_eq!(v[0].name, "data");
    assert_eq!(v[0].address, 0x2000_0000);
    assert_eq!(v[1].name, "wide");
    assert_eq!(v[1].address, 0x2000_0010);
    assert_eq!(v[1].size, 2);
}

#[test]
fn extract_symbols_drops_every_kind_but_data() {
    let records = vec![
        record(Some("u"), SymbolClass::Unknown, false, 0x2000_0000, 4),
        record(Some("s"), SymbolClass::Section, false, 0x2000_0004, 4),
        record(Some("f"), SymbolClass::File, false, 0x2000_0008, 4),
        record(Some("l"), SymbolClass::Label, false, 0x2000_000C, 4),
        record(Some("t"), SymbolClass::Tls, false, 0x2000_0010, 4),
        record(Some("d"), SymbolClass::Data, false, 0x2000_0014, 4),
    ];
    let v = ElfParser::extract_symbols_object(&records);
    assert_eq!(v.len(), 1);
    assert_eq!(v[0].name, "d");
}

#[test]
fn context_from_table_builds_sorted_variables() {
    let records = vec![
        record(Some("b_var"), SymbolClass::Data, false, 0x2000_0004, 4),
        record(Some("a_var"), SymbolClass::Data, false, 0x2000_0000, 2),
    ];
    let ctx = ElfParser::context_from_table("fw.elf".to_string(), false, Ok(records)).unwrap();
    assert_eq!(ctx.file_path, "fw.elf");
    assert_eq!(paths(&ctx.variables), vec!["a_var", "b_var"]);
    assert_eq!(ctx.variables[0].value_type, ValueType::Uint16);
}

#[test]
fn context_from_table_reports_the_parse_error() {
    let err = ElfParser::context_from_table("fw.elf".to_string(), true, Err("bad header".to_string()));
    assert_eq!(err.err().unwrap(), "ELF64 解析失败: bad header");
    let err = ElfParser::context_from_table("fw.elf".to_string(), false, Err("bad".to_string()));
    assert_eq!(err.err().unwrap(), "ELF32 解析失败: bad");
}

#[test]
fn load_image_refuses_short_input() {
    let r = ElfParser::load_image("x.elf".to_string(), &[0x7f, b'E', b'L', b'F']);
    assert_eq!(r.err().unwrap(), "文件过短，不是有效的 ELF 文件");
}

#[test]
fn load_image_reports_a_bad_header() {
    let data = [0x7f, b'E', b'L', b'F', 2, 0, 0, 0];
    let r = ElfParser::load_image("x.elf".to_string(), &data);
    assert!(r.err().unwrap().starts_with("ELF64 解析失败: "));
    let data = [0u8; 16];
    let r = ElfParser::load_image("x.elf".to_string(), &data);
    assert!(r.err().unwrap().starts_with("ELF32 解析失败: "));
}

/// A 32-bit little-endian ELF image with a symbol table: two data objects
/// (`counter`, 4 bytes; `gain`, 2 bytes), a function and an undefined symbol.
const SMALL_ELF32: [u8; 404] = [
    0x7f, 0x45, 0x4c, 0x46, 0x01, 0x01, 0x01, 0x00, 0x00, 0x00, 0x00, 0x00, 0x00, 0x00, 0x00, 0x00,
    0x02, 0x00, 0x28, 0x00, 0x01, 0x00, 0x00, 0x00, 0x00, 0x00, 0x00, 0x00, 0x00, 0x00, 0x00, 0x00,
    0xcc, 0x00, 0x00, 0x00, 0x00, 0x00, 0x00, 0x05, 0x34, 0x00, 0x20, 0x00, 0x00, 0x00, 0x28, 0x00,
    0x05, 0x00, 0x04, 0x00, 0x00, 0x00, 0x00, 0x00, 0x00, 0x00, 0x00, 0x00, 0x00, 0x00, 0x00, 0x00,
    0x00, 0x00, 0x00, 0x00, 0x00, 0x00, 0x00, 0x00, 0x00, 0x00, 0x00, 0x00, 0x00, 0x00, 0x00, 0x00,
    0x00, 0x00, 0x00, 0x00, 0x01, 0x00, 0x00, 0x00, 0x00, 0x00, 0x00, 0x20, 0x04, 0x00, 0x00, 0x00,
    0x11, 0x00, 0x01, 0x00, 0x12, 0x00, 0x00, 0x00, 0x04, 0x00, 0x00, 0x20, 0x02, 0x00, 0x00, 0x00,
    0x11, 0x00, 0x01, 0x00, 0x09, 0x00, 0x00, 0x00, 0x01, 0x00, 0x00, 0x08, 0x14, 0x00, 0x00, 0x00,
    0x12, 0x00, 0x01, 0x00, 0x0e, 0x00, 0x00, 0x00, 0x00, 0x00, 0x00, 0x00, 0x00, 0x00, 0x00, 0x00,
    0x11, 0x00, 0x00, 0x00, 0x00, 0x63, 0x6f, 0x75, 0x6e, 0x74, 0x65, 0x72, 0x00, 0x6d, 0x61, 0x69,
    0x6e, 0x00, 0x65, 0x78, 0x74, 0x00, 0x67, 0x61, 0x69, 0x6e, 0x00, 0x00, 0x2e, 0x64, 0x61, 0x74,
    0x61, 0x00, 0x2e, 0x73, 0x79, 0x6d, 0x74, 0x61, 0x62, 0x00, 0x2e, 0x73, 0x74, 0x72, 0x74, 0x61,
    0x62, 0x00, 0x2e, 0x73, 0x68, 0x73, 0x74, 0x72, 0x74, 0x61, 0x62, 0x00, 0x00, 0x00, 0x00, 0x00,
    0x00, 0x00, 0x00, 0x00, 0x00, 0x00, 0x00, 0x00, 0x00, 0x00, 0x00, 0x00, 0x00, 0x00, 0x00, 0x00,
    0x00, 0x00, 0x00, 0x00, 0x00, 0x00, 0x00, 0x00, 0x00, 0x00, 0x00, 0x00, 0x00, 0x00, 0x00, 0x00,
    0x00, 0x00, 0x00, 0x00, 0x01, 0x00, 0x00, 0x00, 0x01, 0x00, 0x00, 0x00, 0x03, 0x00, 0x00, 0x00,
    0x00, 0x00, 0x00, 0x20, 0x34, 0x00, 0x00, 0x00, 0x10, 0x00, 0x00, 0x00, 0x00, 0x00, 0x00, 0x00,
    0x00, 0x00, 0x00, 0x00, 0x04, 0x00, 0x00, 0x00, 0x00, 0x00, 0x00, 0x00, 0x07, 0x00, 0x00, 0x00,
    0x02, 0x00, 0x00, 0x00, 0x00, 0x00, 0x00, 0x00, 0x00, 0x00, 0x00, 0x00, 0x44, 0x00, 0x00, 0x00,
    0x50, 0x00, 0x00, 0x00, 0x03, 0x00, 0x00, 0x00, 0x01, 0x00, 0x00, 0x00, 0x04, 0x00, 0x00, 0x00,
    0x10, 0x00, 0x00, 0x00, 0x0f, 0x00, 0x00, 0x00, 0x03, 0x00, 0x00, 0x00, 0x00, 0x00, 0x00, 0x00,
    0x00, 0x00, 0x00, 0x00, 0x94, 0x00, 0x00, 0x00, 0x17, 0x00, 0x00, 0x00, 0x00, 0x00, 0x00, 0x00,
    0x00, 0x00, 0x00, 0x00, 0x01, 0x00, 0x00, 0x00, 0x00, 0x00, 0x00, 0x00, 0x17, 0x00, 0x00, 0x00,
    0x03, 0x00, 0x00, 0x00, 0x00, 0x00, 0x00, 0x00, 0x00, 0x00, 0x00, 0x00, 0xab, 0x00, 0x00, 0x00,
    0x21, 0x00, 0x00, 0x00, 0x00, 0x00, 0x00, 0x00, 0x00, 0x00, 0x00, 0x00, 0x01, 0x00, 0x00, 0x00,
    0x00, 0x00, 0x00, 0x00,
];

#[test]
fn load_image_reads_the_symbol_table() {
    let ctx = ElfParser::load_image("small.elf".to_string(), &SMALL_ELF32).unwrap();
    assert_eq!(ctx.file_path, "small.elf");
    assert_eq!(paths(&ctx.variables), vec!["counter", "gain"]);
    assert_eq!(ctx.variables[0].address, 0x2000_0000);
    assert_eq!(ctx.variables[0].value_type, ValueType::Float);
    assert_eq!(ctx.variables[1].address, 0x2000_0004);
    assert_eq!(ctx.variables[1].value_type, ValueType::Uint16);
}

#[test]
fn dwarf_self_containing_structure_stops_at_four_dots() {
    let symbols = vec![sym("v", 0x100, 8)];
    let mut types = HashMap::new();
    types.insert(1, base("int", 4));
    types.insert(2, DwarfTypeInfo::Struct {
        members: vec![
            DwarfMember { name: "x".to_string(), type_offset: 1, member_offset: 0 },
            DwarfMember { name: "m".to_string(), type_offset: 2, member_offset: 4 },
        ],
        byte_size: 8,
    });
    let dwarf = DwarfResult { variables: vec![var("v", 0x100, 2)], types, source_files: vec![] };
    let v = build_from_dwarf(&symbols, &dwarf).unwrap();
    assert_eq!(paths(&v), vec!["v.m.m.m.m.x", "v.m.m.m.x", "v.m.m.x", "v.m.x", "v.x"]);
    assert_eq!(v[0].address, 0x110);
}

#[test]
fn channel_variable_found_by_path_or_name() {
    let symbols = vec![sym("b", 0x8, 4), sym("a", 0x4, 4)];
    let vars = build_from_symbols_only(&symbols).unwrap();
    assert_eq!(variable_for_channel(&vars, "b"), Some(1));
    assert_eq!(variable_for_channel(&vars, "c"), None);
    assert_eq!(variable_by_path(&vars, "a"), Some(0));
    let mut nested = vars.clone();
    nested[0].path = "s.a".to_string();
    assert_eq!(variable_for_channel(&nested, "a"), Some(0));
    assert_eq!(variable_by_path(&nested, "a"), None);
}
