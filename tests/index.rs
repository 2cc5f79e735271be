use object_trustfall_adapter::adapter::{first_missing_section, Adapter, DebugSection};
use object_trustfall_adapter::dwarf::debug_rows;
use object_trustfall_adapter::graph::{
    BasicBlock, check_edge, check_property_names, check_starting_edge, known_type, PropertyValue, ResolveError, Vertex,
};
use object_trustfall_adapter::instruction::{index_instructions, split_operands};
use object_trustfall_adapter::line_table::{LineEntry, LineTable};
use object_trustfall_adapter::location::{join_path, LineRow, SourceLocation};

// xor eax,eax (2 bytes) then mov rbp,rsp (3 bytes)
const CODE: [u8; 5] = [0x31, 0xc0, 0x48, 0x89, 0xe5];

fn row(address: u64, line: u64, column: u64, dir: Option<&str>, name: Option<&str>) -> LineRow {
    LineRow {
        address,
        is_stmt: true,
        line,
        column,
        directory: dir.map(|d| d.to_string()),
        file_name: name.map(|n| n.to_string()),
    }
}

fn string_of(v: &PropertyValue) -> String {
    match v {
        PropertyValue::String(s) => s.clone(),
        other => panic!("not a string: {:?}", other),
    }
}

fn uint_of(v: &PropertyValue) -> u64 {
    match v {
        PropertyValue::Uint64(n) => *n,
        other => panic!("not an integer: {:?}", other),
    }
}

fn read(adapter: &Adapter, vertex: &Vertex, ty: &str, prop: &str) -> PropertyValue {
    assert_eq!(adapter.property_error(&Some(vertex.clone()), ty, prop), None);
    adapter.property_value(&Some(vertex.clone()), ty, prop)
}

#[test]
fn get_location_finds_the_one_recorded_location() {
    let rows = vec![row(0x1000, 5, 1, None, Some("a.c"))];
    let adapter = Adapter::build(&rows, &[], 0);
    let found = adapter
        .resolve_starting_vertices("getLocation", None, Some(0x1000));
    assert_eq!(found.len(), 1);
    let v = &found[0];
    assert_eq!(string_of(&read(&adapter, v, "SourceLocation", "file")), "a.c");
    assert_eq!(uint_of(&read(&adapter, v, "SourceLocation", "line")), 5);
    assert_eq!(uint_of(&read(&adapter, v, "SourceLocation", "column")), 1);
    let none = adapter
        .resolve_starting_vertices("getLocation", None, Some(0x2000));
    assert!(none.is_empty());
}

#[test]
fn five_bytes_decode_into_two_instructions() {
    let text = index_instructions(&CODE, 0x1000);
    assert_eq!(text.len(), 2);
    assert_eq!(text[0].length, 2);
    assert_eq!(text[1].length, 3);
    assert_eq!(text[0].address, 0x1000);
    assert_eq!(text[1].address, 0x1002);
    assert_eq!(text[0].name, "Xor");
    assert_eq!(text[1].name, "Mov");
    assert_eq!(text[0].operands, vec!["eax".to_string(), "eax".to_string()]);
    assert_eq!(text[1].operands, vec!["rbp".to_string(), "rsp".to_string()]);

    let adapter = Adapter::build(&vec![], &CODE, 0x1000);
    let first = adapter.find_instruction(0x1001).expect("inside the first instruction");
    assert_eq!(first.address, 0x1000);
    assert_eq!(first.length, 2);
    assert!(adapter.find_instruction(0x1005).is_none());
    assert!(adapter.find_instruction(0x0fff).is_none());
}

#[test]
fn missing_debug_info_leaves_instruction_queries_working() {
    assert_eq!(first_missing_section(false, true, true, true), Some(DebugSection::Info));
    let adapter = Adapter::from_sections(&Err(DebugSection::Info), Some((&CODE[..], 0x400)));
    assert!(adapter.debug_info().entries().is_empty());
    let found = adapter.find_instruction(0x402).unwrap();
    assert_eq!(found.address, 0x402);
    let v = adapter
        .resolve_starting_vertices("getInstruction", None, Some(0x403));
    assert_eq!(v.len(), 1);
    assert_eq!(uint_of(&read(&adapter, &v[0], "DecodedInstruction", "address")), 0x402);
}

#[test]
fn missing_sections_are_reported_in_order() {
    assert_eq!(first_missing_section(true, true, true, true), None);
    assert_eq!(first_missing_section(true, false, false, true), Some(DebugSection::Abbrev));
    assert_eq!(first_missing_section(true, true, false, false), Some(DebugSection::Str));
    assert_eq!(first_missing_section(true, true, true, false), Some(DebugSection::Line));
    assert_eq!(DebugSection::Line.name(), ".debug_line");
    assert_eq!(DebugSection::Info.name(), ".debug_info");
}

#[test]
fn left_edge_is_column_one_and_address_zero_is_dropped() {
    let mut table = LineTable::new();
    table.record_row(&row(0x10, 3, 0, Some("/src"), Some("m.c")));
    table.record_row(&row(0, 4, 2, None, Some("m.c")));
    let mut not_stmt = row(0x20, 4, 2, None, Some("m.c"));
    not_stmt.is_stmt = false;
    table.record_row(&not_stmt);
    table.record_row(&row(0x30, 0, 2, None, Some("m.c")));
    let entries = table.entries();
    assert_eq!(entries.len(), 1);
    assert_eq!(entries[0].address, 0x10);
    assert_eq!(entries[0].locations[0].column, 1);
    assert_eq!(entries[0].locations[0].line, 3);
    assert_eq!(entries[0].locations[0].file, "/src/m.c");
}

#[test]
fn duplicates_are_kept_and_addresses_sorted() {
    let rows = vec![
        row(0x30, 1, 1, None, Some("b.c")),
        row(0x10, 2, 1, None, Some("a.c")),
        row(0x30, 1, 1, None, Some("b.c")),
        row(0x20, 3, 7, None, Some("a.c")),
    ];
    let adapter = Adapter::build(&rows, &[], 0);
    let entries = adapter.debug_info().entries();
    let addresses: Vec<u64> = entries.iter().map(|e| e.address).collect();
    assert_eq!(addresses, vec![0x10, 0x20, 0x30]);
    assert_eq!(entries[2].locations.len(), 2);
    assert_eq!(entries[1].locations[0].column, 7);
}

#[test]
fn loading_twice_gives_the_same_index() {
    let rows = vec![row(0x1000, 5, 1, Some("d"), Some("a.c")), row(0x1002, 6, 3, Some("d"), Some("a.c"))];
    let a = Adapter::build(&rows, &CODE, 0x1000);
    let b = Adapter::build(&rows, &CODE, 0x1000);
    assert_eq!(a.text_section(), b.text_section());
    assert_eq!(format!("{:?}", a), format!("{:?}", b));
}

#[test]
fn decoded_addresses_increase_without_overlap() {
    let code: Vec<u8> = vec![
        0x55, 0x48, 0x89, 0xe5, 0x31, 0xc0, 0x5d, 0xc3, 0x0f, 0x0b, 0xff,
    ];
    let text = index_instructions(&code, 0x2000);
    let total: usize = text.iter().map(|i| i.length).sum();
    assert_eq!(total, code.len());
    for w in text.windows(2) {
        assert!(w[0].address < w[1].address);
        assert!(w[0].address + w[0].length as u64 <= w[1].address);
    }
}

#[test]
fn every_byte_of_an_instruction_finds_it() {
    let code: Vec<u8> = vec![0x55, 0x48, 0x89, 0xe5, 0x31, 0xc0, 0x5d, 0xc3];
    let adapter = Adapter::build(&vec![], &code, 0x3000);
    for ins in adapter.text_section() {
        for a in ins.address..ins.address + ins.length as u64 {
            let found = adapter.find_instruction(a).unwrap();
            assert_eq!(found, ins);
        }
    }
}

#[test]
fn property_resolution_keeps_order_and_nulls() {
    let rows = vec![row(0x1000, 5, 1, None, Some("a.c"))];
    let adapter = Adapter::build(&rows, &CODE, 0x1000);
    let contexts = vec![
        (10, Some(Vertex::DecodedInstruction(1))),
        (20, None),
        (30, Some(Vertex::DecodedInstruction(0))),
    ];
    let out = adapter
        .resolve_property(contexts, "DecodedInstruction", "length");
    assert_eq!(out.len(), 3);
    assert_eq!(out[0], (10, PropertyValue::Uint64(3)));
    assert_eq!(out[1], (20, PropertyValue::Null));
    assert_eq!(out[2], (30, PropertyValue::Uint64(2)));
}

#[test]
fn typename_and_coercion() {
    let adapter = Adapter::build(&vec![row(0x1000, 5, 1, None, Some("a.c"))], &CODE, 0x1000);
    let out = adapter
        .resolve_property(
            vec![(1, Some(Vertex::SourceLocation(0, 0))), (2, None)],
            "SourceLocation",
            "__typename",
        );
    assert_eq!(out[0].1, PropertyValue::String("SourceLocation".to_string()));
    assert_eq!(out[1].1, PropertyValue::Null);
    let c = adapter
        .resolve_coercion(
            vec![
                ('a', Some(Vertex::SourceLocation(0, 0))),
                ('b', Some(Vertex::DecodedInstruction(0))),
                ('c', None),
            ],
            "DecodedInstruction",
        );
    assert_eq!(c, vec![('a', false), ('b', true), ('c', false)]);
    assert!(!known_type("Nope"));
    assert!(known_type("Function"));
}

#[test]
fn operands_and_name_properties() {
    let adapter = Adapter::build(&vec![], &CODE, 0x1000);
    let v = Vertex::DecodedInstruction(1);
    assert_eq!(string_of(&read(&adapter, &v, "DecodedInstruction", "name")), "Mov");
    assert_eq!(
        read(&adapter, &v, "DecodedInstruction", "operands"),
        PropertyValue::List(vec!["rbp".to_string(), "rsp".to_string()])
    );
}

#[test]
fn file_queries() {
    let rows = vec![
        row(0x1000, 5, 1, None, Some("a.c")),
        row(0x1002, 6, 1, None, Some("b.c")),
        row(0x1003, 7, 1, None, Some("a.c")),
        row(0x1002, 8, 2, None, Some("a.c")),
        row(0x9000, 9, 1, None, Some("a.c")),
    ];
    let adapter = Adapter::build(&rows, &CODE, 0x1000);
    let locs = adapter.get_file_locations("a.c");
    let lines: Vec<u64> = locs.iter().map(|l| l.line).collect();
    assert_eq!(lines, vec![5, 8, 7, 9]);
    let instrs = adapter.get_file_instructions("a.c");
    let addrs: Vec<u64> = instrs.iter().map(|i| i.address).collect();
    assert_eq!(addrs, vec![0x1000, 0x1002, 0x1002]);
    let b = adapter.get_file_instructions("b.c");
    assert_eq!(b.len(), 1);
    let v = adapter
        .resolve_starting_vertices("getFileLocations", Some("b.c"), None);
    assert_eq!(v.len(), 1);
    assert_eq!(uint_of(&read(&adapter, &v[0], "SourceLocation", "line")), 6);
    let all = adapter.resolve_starting_vertices("debug_info", None, None);
    assert_eq!(all.len(), 5);
    let text = adapter.resolve_starting_vertices("text_section", None, None);
    assert_eq!(text.len(), 2);
    let fi = adapter
        .resolve_starting_vertices("getFileInstructions", Some("a.c"), None);
    assert_eq!(fi.len(), 3);
}

#[test]
fn resolution_errors() {
    let adapter = Adapter::build(&vec![row(0x1000, 5, 1, None, Some("a.c"))], &CODE, 0x1000);
    assert_eq!(check_starting_edge("nope", true, true), Some(ResolveError::UnknownEntryPoint));
    assert_eq!(check_starting_edge("getLocation", true, false), Some(ResolveError::MissingParameter));
    assert_eq!(check_starting_edge("getFileLocations", false, true), Some(ResolveError::MissingParameter));
    assert_eq!(check_starting_edge("getLocation", false, true), None);
    assert_eq!(check_property_names("Widget", "x"), Some(ResolveError::UnknownType));
    assert_eq!(check_property_names("DecodedInstruction", "colour"), Some(ResolveError::UnknownProperty));
    assert_eq!(check_property_names("BasicBlock", "base_address"), None);
    assert_eq!(check_property_names("BasicBlock", "size"), Some(ResolveError::UnknownProperty));
    assert_eq!(check_property_names("Function", "stack_size"), None);
    let block = Vertex::BasicBlock(BasicBlock { base_address: 0x10, instructions: vec![], children: vec![] });
    assert_eq!(
        adapter.property_error(&Some(block.clone()), "BasicBlock", "base_address"),
        Some(ResolveError::UnsupportedVertexKind)
    );
    assert_eq!(
        adapter.property_error(&Some(block), "Function", "address"),
        Some(ResolveError::VertexKindMismatch)
    );
    let slots = adapter.resolve_property(vec![(1u8, None), (2u8, None)], "Function", "name");
    assert_eq!(slots, vec![(1, PropertyValue::Null), (2, PropertyValue::Null)]);
    assert_eq!(check_property_names("Function", "__typename"), None);
    let instr = Some(Vertex::DecodedInstruction(0));
    assert_eq!(
        adapter.property_error(&instr, "SourceLocation", "line"),
        Some(ResolveError::VertexKindMismatch)
    );
    assert_eq!(
        adapter.property_error(&Some(Vertex::DecodedInstruction(7)), "DecodedInstruction", "address"),
        Some(ResolveError::StaleVertex)
    );
    assert_eq!(adapter.property_error(&None, "DecodedInstruction", "address"), None);
    assert_eq!(check_edge("BasicBlock", "children"), ResolveError::UnsupportedEdge);
    assert_eq!(check_edge("Function", "basic_blocks"), ResolveError::UnsupportedEdge);
    assert_eq!(check_edge("DecodedInstruction", "next"), ResolveError::UnknownEdge);
    assert_eq!(check_edge("BasicBlock", "parent"), ResolveError::UnknownEdge);
    assert_eq!(check_edge("Widget", "x"), ResolveError::UnknownType);
    let one = vec![(0u8, instr)];
    assert_eq!(
        adapter.resolve_neighbors(one, "BasicBlock", "instructions").unwrap_err(),
        ResolveError::UnsupportedEdge
    );
}

#[test]
fn paths_and_operand_lists() {
    assert_eq!(join_path("/usr/src", "a.c"), "/usr/src/a.c");
    assert_eq!(join_path("/usr/src/", "a.c"), "/usr/src/a.c");
    assert_eq!(join_path("", "a.c"), "a.c");
    assert_eq!(join_path("/usr/src", "/abs/a.c"), "/abs/a.c");
    let only_dir = row(0x10, 1, 1, Some("dir"), None);
    let mut t = LineTable::new();
    t.record_row(&only_dir);
    assert_eq!(t.entries()[0].locations[0].file, "dir");
    assert_eq!(split_operands("rax,[rbx+8]"), vec!["rax".to_string(), "[rbx+8]".to_string()]);
    assert!(split_operands("").is_empty());
    assert_eq!(split_operands("a,,b"), vec!["a".to_string(), String::new(), "b".to_string()]);
}

#[test]
fn instruction_without_operands_lists_none() {
    let text = index_instructions(&[0xc3], 0x10);
    assert_eq!(text.len(), 1);
    assert_eq!(text[0].name, "Ret");
    assert!(text[0].operands.is_empty());
    assert!(index_instructions(&[], 0x10).is_empty());
}

#[test]
fn debug_rows_names_the_missing_section() {
    let empty: &[u8] = &[];
    assert_eq!(debug_rows(None, Some(empty), Some(empty), Some(empty), true).unwrap_err(), DebugSection::Info);
    assert_eq!(debug_rows(Some(empty), Some(empty), None, None, true).unwrap_err(), DebugSection::Str);
    let (rows, unreadable) = debug_rows(Some(empty), Some(empty), Some(empty), Some(empty), true).unwrap();
    assert!(rows.is_empty());
    assert!(unreadable.is_empty());
}

#[test]
fn from_parts_checks_well_formedness() {
    let built = Adapter::build(&vec![row(0x1000, 5, 1, None, Some("a.c"))], &CODE, 0x1000);
    let entries: Vec<LineEntry> = built
        .debug_info()
        .entries()
        .iter()
        .map(|e| LineEntry { address: e.address, locations: e.locations.clone() })
        .collect();
    let again = Adapter::from_parts(entries, built.text_section().clone()).unwrap();
    assert_eq!(format!("{:?}", again), format!("{:?}", built));

    let mut overlapping = built.text_section().clone();
    overlapping[1].address = 0x1001;
    assert!(Adapter::from_parts(vec![], overlapping).is_none());
    let mut empty_length = built.text_section().clone();
    empty_length[0].length = 0;
    assert!(Adapter::from_parts(vec![], empty_length).is_none());
    let unsorted = vec![
        LineEntry { address: 2, locations: vec![SourceLocation { file: "a".into(), line: 1, column: 1 }] },
        LineEntry { address: 1, locations: vec![SourceLocation { file: "a".into(), line: 1, column: 1 }] },
    ];
    assert!(Adapter::from_parts(unsorted, vec![]).is_none());
    assert!(Adapter::from_parts(vec![LineEntry { address: 1, locations: vec![] }], vec![]).is_none());
}
