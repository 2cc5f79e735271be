//! The debug-info indexer: finds each compilation unit's line-number program
//! in a binary's DWARF sections and collects the rows of its sequences.

use crate::adapter::{first_missing_section, missing_section, DebugSection};
use crate::location::{opt_view, LineRow};
use gimli::{
    AttributeValue, ColumnType, DebugAbbrev, DebugInfo, DebugLine, DebugLineOffset, DebugStr, EndianSlice,
    Reader, RunTimeEndian, DW_AT_stmt_list,
};
use std::num::NonZeroU64;
use vstd::prelude::*;

verus! {

/// One row as the state machine of a line-number program leaves it: address,
/// statement flag, line (0 when unknown), column (0 for the left edge) and
/// file index.
pub type RawRow = (u64, bool, u64, u64, u64);

/// A file entry of a line-program header: its directory and its name, where
/// each can be read.
pub type FileParts = (Option<String>, Option<String>);

/// For each compilation unit of `.debug_info`, in order and up to the first
/// unit header that cannot be read, the offset of its line-number program
/// and its address size, or nothing where the unit has no usable
/// abbreviations, no readable root entry or no statement-list attribute.
pub uninterp spec fn dwarf_unit_line_refs(info: Seq<u8>, abbrev: Seq<u8>, little_endian: bool) -> Seq<
    Option<(u64, u8)>,
>;

/// The rows of each sequence of the line-number program at `offset`, each
/// sequence up to its end or to its first decode error; nothing where the
/// program's header or its sequences cannot be read.
pub uninterp spec fn dwarf_sequence_rows(line: Seq<u8>, offset: u64, address_size: u8, little_endian: bool) -> Option<
    Seq<Seq<RawRow>>,
>;

/// For each file index from 0 to the number of file names of the program's
/// header, the entry that index names, with its directory and name as text;
/// nothing where the header cannot be read.
pub uninterp spec fn dwarf_file_table(
    line: Seq<u8>,
    strings: Seq<u8>,
    offset: u64,
    address_size: u8,
    little_endian: bool,
) -> Option<Seq<Option<(Option<Seq<char>>, Option<Seq<char>>)>>>;

pub open spec fn parts_view(p: FileParts) -> (Option<Seq<char>>, Option<Seq<char>>) {
    (opt_view(p.0), opt_view(p.1))
}

pub open spec fn table_view(t: Option<Vec<Option<FileParts>>>) -> Option<Seq<Option<(Option<Seq<char>>, Option<Seq<char>>)>>> {
    match t {
        Some(v) => Some(
            v@.map_values(
                |e: Option<FileParts>|
                    match e {
                        Some(p) => Some(parts_view(p)),
                        None => None,
                    },
            ),
        ),
        None => None,
    }
}

pub open spec fn sequences_view(s: Option<Vec<Vec<RawRow>>>) -> Option<Seq<Seq<RawRow>>> {
    match s {
        Some(v) => Some(v@.map_values(|q: Vec<RawRow>| q@)),
        None => None,
    }
}

/// Relies on gimli's `DebugInfo::units`, `UnitHeader::abbreviations`,
/// `EntriesCursor::next_dfs` and `DebuggingInformationEntry::attr_value`.
#[verifier::external_body]
fn unit_line_refs(info: &[u8], abbrev: &[u8], little_endian: bool) -> (r: Vec<Option<(u64, u8)>>)
    ensures
        r@ == dwarf_unit_line_refs(info@, abbrev@, little_endian),
{
    let e = if little_endian { RunTimeEndian::Little } else { RunTimeEndian::Big };
    let abbrev = DebugAbbrev::new(abbrev, e);
    let (mut units, mut out) = (DebugInfo::new(info, e).units(), Vec::new());
    while let Ok(Some(u)) = units.next() {
        out.push(u.abbreviations(&abbrev).ok().and_then(|a| match u.entries(&a).next_dfs() {
            Ok(Some((_, root))) => match root.attr_value(DW_AT_stmt_list) {
                Ok(Some(AttributeValue::DebugLineRef(o))) => Some((o.0 as u64, u.address_size())),
                _ => None,
            },
            _ => None,
        }));
    }
    out
}

/// Relies on gimli's `DebugLine::program`, `IncompleteLineProgram::sequences`
/// and `LineRows::next_row`.
#[verifier::external_body]
fn sequence_rows(line: &[u8], offset: u64, address_size: u8, little_endian: bool) -> (r: Option<Vec<Vec<RawRow>>>)
    ensures
        sequences_view(r) == dwarf_sequence_rows(line@, offset, address_size, little_endian),
{
    let e = if little_endian { RunTimeEndian::Little } else { RunTimeEndian::Big };
    let p = DebugLine::new(line, e).program(DebugLineOffset(offset as usize), address_size, None, None);
    let (p, seqs) = p.ok()?.sequences().ok()?;
    Some(seqs.iter().map(|s| {
        let mut m = p.resume_from(s);
        std::iter::from_fn(|| m.next_row().ok().flatten().map(|(_, r)| (r.address(), r.is_stmt(),
            r.line().map_or(0, NonZeroU64::get),
            match r.column() { ColumnType::LeftEdge => 0, ColumnType::Column(c) => c.get() },
            r.file_index()))).collect()
    }).collect())
}

/// Relies on gimli's `LineProgramHeader::file`, `FileEntry::directory`,
/// `FileEntry::path_name` and `AttributeValue::string_value`.
#[verifier::external_body]
fn file_table(line: &[u8], strings: &[u8], offset: u64, address_size: u8, little_endian: bool) -> (r: Option<
    Vec<Option<FileParts>>,
>)
    ensures
        table_view(r) == dwarf_file_table(line@, strings@, offset, address_size, little_endian),
{
    let e = if little_endian { RunTimeEndian::Little } else { RunTimeEndian::Big };
    let strs = DebugStr::new(strings, e);
    let p = DebugLine::new(line, e).program(DebugLineOffset(offset as usize), address_size, None, None).ok()?;
    let h = p.header();
    let text = |v: AttributeValue<EndianSlice<RunTimeEndian>>| v.string_value(&strs).and_then(|r| r.to_string().ok().map(|x| x.to_string()));
    Some((0..=h.file_names().len() as u64).map(|i| h.file(i).map(|f| (f.directory(h).and_then(text), text(f.path_name())))).collect())
}

/// A row's values, with its file's directory and name as text.
pub type RowModel = (u64, bool, u64, u64, Option<Seq<char>>, Option<Seq<char>>);

pub open spec fn row_model(r: LineRow) -> RowModel {
    (r.address, r.is_stmt, r.line, r.column, opt_view(r.directory), opt_view(r.file_name))
}

pub open spec fn rows_model(v: Seq<LineRow>) -> Seq<RowModel> {
    v.map_values(|r: LineRow| row_model(r))
}

/// The directory and name of file `index` in a file table; neither where the
/// table has no such entry.
pub open spec fn file_of(files: Option<Seq<Option<(Option<Seq<char>>, Option<Seq<char>>)>>>, index: u64) -> (
    Option<Seq<char>>,
    Option<Seq<char>>,
) {
    match files {
        Some(t) => if index < t.len() {
            match t[index as int] {
                Some(p) => p,
                None => (None, None),
            }
        } else {
            (None, None)
        },
        None => (None, None),
    }
}

pub open spec fn raw_model(r: RawRow, files: Option<Seq<Option<(Option<Seq<char>>, Option<Seq<char>>)>>>) -> RowModel {
    (r.0, r.1, r.2, r.3, file_of(files, r.4).0, file_of(files, r.4).1)
}

/// The rows of the sequences, one sequence after the other.
pub open spec fn program_models(
    seqs: Seq<Seq<RawRow>>,
    files: Option<Seq<Option<(Option<Seq<char>>, Option<Seq<char>>)>>>,
) -> Seq<RowModel>
    decreases seqs.len(),
{
    if seqs.len() == 0 {
        Seq::empty()
    } else {
        program_models(seqs.drop_last(), files) + seqs.last().map_values(|r: RawRow| raw_model(r, files))
    }
}

/// The rows of one unit's line-number program; none where the unit has no
/// program or its program cannot be read.
pub open spec fn unit_models(line: Seq<u8>, strings: Seq<u8>, little_endian: bool, unit: Option<(u64, u8)>) -> Seq<
    RowModel,
> {
    match unit {
        Some((offset, size)) => match dwarf_sequence_rows(line, offset, size, little_endian) {
            Some(seqs) => program_models(seqs, dwarf_file_table(line, strings, offset, size, little_endian)),
            None => Seq::empty(),
        },
        None => Seq::empty(),
    }
}

/// The rows of all units, one unit after the other.
pub open spec fn units_models(units: Seq<Option<(u64, u8)>>, line: Seq<u8>, strings: Seq<u8>, little_endian: bool) -> Seq<
    RowModel,
>
    decreases units.len(),
{
    if units.len() == 0 {
        Seq::empty()
    } else {
        units_models(units.drop_last(), line, strings, little_endian) + unit_models(
            line,
            strings,
            little_endian,
            units.last(),
        )
    }
}

/// Whether the unit has a line-number program that cannot be read.
pub open spec fn unit_unreadable(line: Seq<u8>, little_endian: bool, unit: Option<(u64, u8)>) -> bool {
    match unit {
        Some((offset, size)) => dwarf_sequence_rows(line, offset, size, little_endian) is None,
        None => false,
    }
}

/// The offsets, unit by unit, of the line-number programs that cannot be
/// read.
pub open spec fn unreadable_offsets(units: Seq<Option<(u64, u8)>>, line: Seq<u8>, little_endian: bool) -> Seq<u64>
    decreases units.len(),
{
    if units.len() == 0 {
        Seq::empty()
    } else {
        let prev = unreadable_offsets(units.drop_last(), line, little_endian);
        if unit_unreadable(line, little_endian, units.last()) {
            prev.push(units.last().unwrap().0)
        } else {
            prev
        }
    }
}

/// The offsets of the line-number programs of a binary with these sections
/// that cannot be read.
pub open spec fn debug_unreadable(info: Seq<u8>, abbrev: Seq<u8>, line: Seq<u8>, little_endian: bool) -> Seq<u64> {
    unreadable_offsets(dwarf_unit_line_refs(info, abbrev, little_endian), line, little_endian)
}

/// The rows of every line-number program of a binary with these sections.
pub open spec fn debug_models(info: Seq<u8>, abbrev: Seq<u8>, strings: Seq<u8>, line: Seq<u8>, little_endian: bool) -> Seq<
    RowModel,
> {
    units_models(dwarf_unit_line_refs(info, abbrev, little_endian), line, strings, little_endian)
}

fn copy_text(s: &Option<String>) -> (r: Option<String>)
    ensures
        opt_view(r) == opt_view(*s),
{
    match s {
        Some(x) => Some(x.clone()),
        None => None,
    }
}

/// The directory and name of file `index`.
fn file_parts(files: &Option<Vec<Option<FileParts>>>, index: u64) -> (r: FileParts)
    ensures
        parts_view(r) == file_of(table_view(*files), index),
{
    match files {
        Some(t) => {
            if index < t.len() as u64 {
                match &t[index as usize] {
                    Some(p) => (copy_text(&p.0), copy_text(&p.1)),
                    None => (None, None),
                }
            } else {
                (None, None)
            }
        },
        None => (None, None),
    }
}

/// Appends the rows of one sequence.
fn push_sequence(seq: &Vec<RawRow>, files: &Option<Vec<Option<FileParts>>>, out: &mut Vec<LineRow>)
    ensures
        rows_model(final(out)@) == rows_model(old(out)@) + seq@.map_values(|r: RawRow| raw_model(r, table_view(*files))),
{
    let ghost start = rows_model(out@);
    let ghost f = table_view(*files);
    let mut k: usize = 0;
    while k < seq.len()
        invariant
            f == table_view(*files),
            0 <= k <= seq@.len(),
            rows_model(out@) == start + seq@.take(k as int).map_values(|r: RawRow| raw_model(r, f)),
        decreases seq.len() - k,
    {
        let (address, is_stmt, line, column, index) = seq[k];
        let parts = file_parts(files, index);
        let (directory, file_name) = parts;
        assert(seq@[k as int] == (address, is_stmt, line, column, index));
        let ghost prev = out@;
        let row = LineRow { address, is_stmt, line, column, directory, file_name };
        assert(row_model(row) == raw_model(seq@[k as int], f));
        out.push(row);
        assert(rows_model(out@) =~= rows_model(prev).push(raw_model(seq@[k as int], f)));
        assert(seq@.take(k + 1).map_values(|r: RawRow| raw_model(r, f)) =~= seq@.take(k as int).map_values(
            |r: RawRow| raw_model(r, f),
        ).push(raw_model(seq@[k as int], f)));
        k += 1;
    }
    assert(seq@.take(k as int) =~= seq@);
}

/// Appends the rows of one unit's line-number program; tells whether the
/// unit has a program that cannot be read.
fn push_unit(line: &[u8], strings: &[u8], little_endian: bool, unit: Option<(u64, u8)>, out: &mut Vec<LineRow>) -> (r:
    bool)
    ensures
        rows_model(final(out)@) == rows_model(old(out)@) + unit_models(line@, strings@, little_endian, unit),
        r == unit_unreadable(line@, little_endian, unit),
{
    if let Some((offset, size)) = unit {
        let seqs = sequence_rows(line, offset, size, little_endian);
        if let Some(seqs) = seqs {
            let files = file_table(line, strings, offset, size, little_endian);
            let ghost f = table_view(files);
            let ghost all = seqs@.map_values(|q: Vec<RawRow>| q@);
            let ghost start = rows_model(out@);
            let mut s: usize = 0;
            while s < seqs.len()
                invariant
                    all == seqs@.map_values(|q: Vec<RawRow>| q@),
                    f == table_view(files),
                    0 <= s <= seqs@.len(),
                    rows_model(out@) == start + program_models(all.take(s as int), f),
                decreases seqs.len() - s,
            {
                push_sequence(&seqs[s], &files, out);
                assert(all.take(s + 1).drop_last() =~= all.take(s as int));
                assert(all.take(s + 1).last() == seqs@[s as int]@);
                assert(rows_model(out@) =~= start + program_models(all.take(s + 1), f));
                s += 1;
            }
            assert(all.take(s as int) =~= all);
            false
        } else {
            assert(rows_model(out@) =~= rows_model(out@) + Seq::<RowModel>::empty());
            true
        }
    } else {
        assert(rows_model(out@) =~= rows_model(out@) + Seq::<RowModel>::empty());
        false
    }
}

/// The rows of every line-number program in a binary's debug sections, with
/// the offsets of the programs that cannot be read, or the first of the four
/// sections that the binary lacks. A unit without a usable line-program
/// reference, or whose program cannot be read, gives no rows; a sequence
/// gives its rows up to its first decode error.
pub fn debug_rows(
    info: Option<&[u8]>,
    abbrev: Option<&[u8]>,
    strings: Option<&[u8]>,
    line: Option<&[u8]>,
    little_endian: bool,
) -> (r: Result<(Vec<LineRow>, Vec<u64>), DebugSection>)
    ensures
        match (info, abbrev, strings, line) {
            (Some(i), Some(a), Some(s), Some(l)) => r matches Ok((v, bad)) && rows_model(v@) == debug_models(
                i@,
                a@,
                s@,
                l@,
                little_endian,
            ) && bad@ == debug_unreadable(i@, a@, l@, little_endian),
            _ => r == Err::<(Vec<LineRow>, Vec<u64>), DebugSection>(
                missing_section(info is Some, abbrev is Some, strings is Some, line is Some).unwrap(),
            ),
        },
{
    if let Some(missing) = first_missing_section(info.is_some(), abbrev.is_some(), strings.is_some(), line.is_some()) {
        return Err(missing);
    }
    let info = info.unwrap();
    let abbrev = abbrev.unwrap();
    let strings = strings.unwrap();
    let line = line.unwrap();
    let units = unit_line_refs(info, abbrev, little_endian);
    let mut out: Vec<LineRow> = Vec::new();
    let mut bad: Vec<u64> = Vec::new();
    let mut u: usize = 0;
    assert(rows_model(out@) =~= Seq::<RowModel>::empty());
    while u < units.len()
        invariant
            units@ == dwarf_unit_line_refs(info@, abbrev@, little_endian),
            0 <= u <= units@.len(),
            rows_model(out@) == units_models(units@.take(u as int), line@, strings@, little_endian),
            bad@ == unreadable_offsets(units@.take(u as int), line@, little_endian),
        decreases units.len() - u,
    {
        let unit = units[u];
        let unreadable = push_unit(line, strings, little_endian, unit, &mut out);
        assert(units@.take(u + 1).drop_last() =~= units@.take(u as int));
        assert(units@.take(u + 1).last() == unit);
        if unreadable {
            bad.push(unit.unwrap().0);
        }
        u += 1;
    }
    assert(units@.take(u as int) =~= units@);
    Ok((out, bad))
}

} // verus!
