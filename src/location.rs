//! Source locations and the rows of a DWARF line-number program.

use vstd::prelude::*;

verus! {

/// A position in a source file.
#[derive(Clone, Debug, PartialEq, Eq)]
pub struct SourceLocation {
    pub file: String,
    pub line: u64,
    pub column: u64,
}

/// The mathematical value of a `SourceLocation`.
pub ghost struct LocationModel {
    pub file: Seq<char>,
    pub line: u64,
    pub column: u64,
}

impl View for SourceLocation {
    type V = LocationModel;

    open spec fn view(&self) -> LocationModel {
        LocationModel { file: self.file@, line: self.line, column: self.column }
    }
}

/// `dir` followed by `name`, the way a path buffer appends a relative
/// component: an absolute `name` replaces `dir`, and a separator is put
/// between the two unless `dir` is empty or already ends in one.
pub open spec fn joined(dir: Seq<char>, name: Seq<char>) -> Seq<char> {
    if name.len() > 0 && name[0] == '/' {
        name
    } else if dir.len() == 0 {
        name
    } else if dir.last() == '/' {
        dir + name
    } else {
        dir + seq!['/'] + name
    }
}

/// The path of a file entry made of whichever parts are present.
pub open spec fn path_of(dir: Option<Seq<char>>, name: Option<Seq<char>>) -> Seq<char> {
    match (dir, name) {
        (Some(d), Some(n)) => joined(d, n),
        (Some(d), None) => d,
        (None, Some(n)) => n,
        (None, None) => Seq::empty(),
    }
}

pub open spec fn opt_view(s: Option<String>) -> Option<Seq<char>> {
    match s {
        Some(x) => Some(x@),
        None => None,
    }
}

/// Joins a directory and a file name into one path.
pub fn join_path(dir: &str, name: &str) -> (r: String)
    ensures
        r@ == joined(dir@, name@),
{
    let n = name.unicode_len();
    if n > 0 && name.get_char(0) == '/' {
        return String::from_str(name);
    }
    let d = dir.unicode_len();
    if d == 0 {
        String::from_str(name)
    } else if dir.get_char(d - 1) == '/' {
        String::from_str(dir).concat(name)
    } else {
        proof {
            reveal_strlit("/");
        }
        let r = String::from_str(dir).concat("/").concat(name);
        assert(r@ =~= dir@ + seq!['/'] + name@);
        r
    }
}

/// The path of a line-table file entry from its optional directory and name.
pub fn file_path(dir: &Option<String>, name: &Option<String>) -> (r: String)
    ensures
        r@ == path_of(opt_view(*dir), opt_view(*name)),
{
    match (dir, name) {
        (Some(d), Some(n)) => join_path(d.as_str(), n.as_str()),
        (Some(d), None) => d.clone(),
        (None, Some(n)) => n.clone(),
        (None, None) => String::new(),
    }
}

/// One row of a line-number program's state machine, with the registers as
/// the encoding holds them: a `line` of 0 means that no line is known, a
/// `column` of 0 means the left edge of the line.
#[derive(Clone, Debug)]
pub struct LineRow {
    pub address: u64,
    pub is_stmt: bool,
    pub line: u64,
    pub column: u64,
    pub directory: Option<String>,
    pub file_name: Option<String>,
}

/// Whether a row marks a statement boundary with a known line at a real
/// (non-zero) address.
pub open spec fn row_is_reported(row: LineRow) -> bool {
    row.is_stmt && row.line != 0 && row.address > 0
}

/// The location that a reported row stands for; the left edge is column 1.
pub open spec fn row_location(row: LineRow) -> LocationModel {
    LocationModel {
        file: path_of(opt_view(row.directory), opt_view(row.file_name)),
        line: row.line,
        column: if row.column == 0 { 1 } else { row.column },
    }
}

/// The location of a row, as a value.
pub fn location_of_row(row: &LineRow) -> (r: SourceLocation)
    ensures
        r@ == row_location(*row),
{
    let file = file_path(&row.directory, &row.file_name);
    let column: u64 = if row.column == 0 { 1 } else { row.column };
    SourceLocation { file, line: row.line, column }
}

} // verus!
