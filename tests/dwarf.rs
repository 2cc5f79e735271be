use gimli::write::{Address, DwarfUnit, EndianVec, LineProgram, LineString, Sections};
use gimli::{Encoding, Format, LineEncoding, LittleEndian};
use object_trustfall_adapter::adapter::Adapter;
use object_trustfall_adapter::dwarf::debug_rows;

struct Written {
    info: Vec<u8>,
    abbrev: Vec<u8>,
    strings: Vec<u8>,
    line: Vec<u8>,
}

fn write_dwarf() -> Written {
    let encoding = Encoding {
        format: Format::Dwarf32,
        version: 4,
        address_size: 8,
    };
    let mut program = LineProgram::new(
        encoding,
        LineEncoding::default(),
        LineString::String(b"/work".to_vec()),
        LineString::String(b"main.c".to_vec()),
        None,
    );
    let dir = program.add_directory(LineString::String(b"/usr/src".to_vec()));
    let file = program.add_file(LineString::String(b"a.c".to_vec()), dir, None);
    program.begin_sequence(Some(Address::Constant(0x1000)));
    program.row().file = file;
    program.row().line = 5;
    program.row().column = 0;
    program.generate_row();
    program.row().address_offset = 2;
    program.row().line = 6;
    program.row().column = 3;
    program.generate_row();
    program.row().address_offset = 3;
    program.row().line = 7;
    program.row().is_statement = false;
    program.generate_row();
    program.end_sequence(5);

    let mut dwarf = DwarfUnit::new(encoding);
    dwarf.unit.line_program = program;
    let mut sections = Sections::new(EndianVec::new(LittleEndian));
    dwarf.write(&mut sections).unwrap();
    Written {
        info: sections.debug_info.0.slice().to_vec(),
        abbrev: sections.debug_abbrev.0.slice().to_vec(),
        strings: sections.debug_str.0.slice().to_vec(),
        line: sections.debug_line.0.slice().to_vec(),
    }
}

#[test]
fn line_rows_come_from_written_dwarf() {
    let w = write_dwarf();
    let (rows, unreadable) = debug_rows(
        Some(&w.info[..]),
        Some(&w.abbrev[..]),
        Some(&w.strings[..]),
        Some(&w.line[..]),
        true,
    )
    .unwrap();
    assert!(unreadable.is_empty());
    let stmt: Vec<(u64, u64, u64)> = rows
        .iter()
        .filter(|r| r.is_stmt && r.line != 0)
        .map(|r| (r.address, r.line, r.column))
        .collect();
    assert_eq!(stmt[0], (0x1000, 5, 0));
    assert_eq!(stmt[1], (0x1002, 6, 3));
    assert!(rows.iter().any(|r| !r.is_stmt && r.line == 7));
    assert_eq!(rows[0].directory.as_deref(), Some("/usr/src"));
    assert_eq!(rows[0].file_name.as_deref(), Some("a.c"));

    let code = [0x31u8, 0xc0, 0x48, 0x89, 0xe5];
    let adapter = Adapter::from_sections(&Ok(rows), Some((&code[..], 0x1000)));
    let locs = adapter.get_file_locations("/usr/src/a.c");
    let found: Vec<(u64, u64)> = locs.iter().map(|l| (l.line, l.column)).collect();
    assert_eq!(found, vec![(5, 1), (6, 3)]);
    assert_eq!(adapter.get_file_instructions("/usr/src/a.c").len(), 2);
}

#[test]
fn unreadable_line_program_is_reported() {
    let w = write_dwarf();
    let truncated = &w.line[..4];
    let (rows, unreadable) = debug_rows(
        Some(&w.info[..]),
        Some(&w.abbrev[..]),
        Some(&w.strings[..]),
        Some(truncated),
        true,
    )
    .unwrap();
    assert!(rows.is_empty());
    assert_eq!(unreadable, vec![0]);
}
