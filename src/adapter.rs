//! The binary index: the locations and the instructions of one loaded binary,
//! and the lookups between them.

use crate::instruction::{
    covers, decode_section, index_instructions, instructions_view, instructions_wf, DecodedInstruction,
    InstructionModel,
};
use crate::line_table::{after_rows, entries_view, entries_wf, locations_view, table_map, LineEntry, LineTable};
use crate::location::{LineRow, LocationModel, SourceLocation};
use vstd::prelude::*;

verus! {

/// The index of the first instruction of `t` whose bytes hold `a`.
pub open spec fn covering_index(t: Seq<InstructionModel>, a: u64) -> Option<int>
    decreases t.len(),
{
    if t.len() == 0 {
        None
    } else {
        match covering_index(t.drop_last(), a) {
            Some(k) => Some(k),
            None => if covers(t.last(), a) {
                Some(t.len() - 1)
            } else {
                None
            },
        }
    }
}

/// The positions `(e, index)` of those of `locs`, the locations of entry `e`,
/// that are in file `f`.
pub open spec fn positions_in(e: int, locs: Seq<LocationModel>, f: Seq<char>) -> Seq<(int, int)>
    decreases locs.len(),
{
    if locs.len() == 0 {
        Seq::empty()
    } else {
        let prev = positions_in(e, locs.drop_last(), f);
        if locs.last().file == f {
            prev.push((e, locs.len() - 1))
        } else {
            prev
        }
    }
}

/// The positions of every location in file `f`, by address and then in the
/// order they were recorded.
pub open spec fn file_positions(t: Seq<(u64, Seq<LocationModel>)>, f: Seq<char>) -> Seq<(int, int)>
    decreases t.len(),
{
    if t.len() == 0 {
        Seq::empty()
    } else {
        file_positions(t.drop_last(), f) + positions_in(t.len() - 1, t.last().1, f)
    }
}

/// Whether some location in `locs` is in file `f`.
pub open spec fn mentions(locs: Seq<LocationModel>, f: Seq<char>) -> bool {
    exists|j: int| 0 <= j < locs.len() && (#[trigger] locs[j]).file == f
}

/// For each address, in increasing order, that has a location in file `f`,
/// the instruction that covers it, where one does.
pub open spec fn file_instruction_indices(
    t: Seq<(u64, Seq<LocationModel>)>,
    text: Seq<InstructionModel>,
    f: Seq<char>,
) -> Seq<int>
    decreases t.len(),
{
    if t.len() == 0 {
        Seq::empty()
    } else {
        let prev = file_instruction_indices(t.drop_last(), text, f);
        if mentions(t.last().1, f) {
            match covering_index(text, t.last().0) {
                Some(k) => prev.push(k),
                None => prev,
            }
        } else {
            prev
        }
    }
}

proof fn lemma_covering_prefix(t: Seq<InstructionModel>, n: int, a: u64)
    requires
        0 <= n <= t.len(),
        covering_index(t.take(n), a) is Some,
    ensures
        covering_index(t, a) == covering_index(t.take(n), a),
    decreases t.len(),
{
    if n < t.len() {
        assert(t.drop_last().take(n) =~= t.take(n));
        lemma_covering_prefix(t.drop_last(), n, a);
    } else {
        assert(t.take(n) =~= t);
    }
}

proof fn lemma_covering_none(t: Seq<InstructionModel>, a: u64)
    requires
        forall|j: int| 0 <= j < t.len() ==> !covers(#[trigger] t[j], a),
    ensures
        covering_index(t, a) is None,
    decreases t.len(),
{
    if t.len() > 0 {
        assert forall|j: int| 0 <= j < t.drop_last().len() implies !covers(#[trigger] t.drop_last()[j], a) by {
            assert(t.drop_last()[j] == t[j]);
        }
        lemma_covering_none(t.drop_last(), a);
        assert(!covers(t[t.len() - 1], a));
    }
}

proof fn lemma_ends_before(t: Seq<InstructionModel>, j: int, k: int)
    requires
        instructions_wf(t),
        0 <= j < k < t.len(),
    ensures
        t[j].address + t[j].length <= t[k].address,
    decreases k - j,
{
    if j + 1 < k {
        lemma_ends_before(t, j, k - 1);
        assert(t[k - 1].address + t[k - 1].length <= t[k].address);
        assert(t[k - 1].length >= 1);
    } else {
        assert(t[j].address + t[j].length <= t[j + 1].address);
    }
}

/// In a well-formed instruction sequence, looking up any address inside an
/// instruction's bytes finds that very instruction.
pub proof fn lemma_instruction_at_round_trip(t: Seq<InstructionModel>, k: int, a: u64)
    requires
        instructions_wf(t),
        0 <= k < t.len(),
        covers(t[k], a),
    ensures
        covering_index(t, a) == Some(k),
{
    let pre = t.take(k);
    assert forall|j: int| 0 <= j < pre.len() implies !covers(#[trigger] pre[j], a) by {
        assert(pre[j] == t[j]);
        lemma_ends_before(t, j, k);
    }
    lemma_covering_none(pre, a);
    assert(t.take(k + 1).drop_last() =~= pre);
    assert(t.take(k + 1).last() == t[k]);
    lemma_covering_prefix(t, k + 1, a);
}

proof fn lemma_positions_in_bound(e: int, locs: Seq<LocationModel>, f: Seq<char>)
    ensures
        forall|k: int|
            0 <= k < positions_in(e, locs, f).len() ==> (#[trigger] positions_in(e, locs, f)[k]).0 == e && 0
                <= positions_in(e, locs, f)[k].1 < locs.len() && locs[positions_in(e, locs, f)[k].1].file == f,
    decreases locs.len(),
{
    if locs.len() > 0 {
        lemma_positions_in_bound(e, locs.drop_last(), f);
        let prev = positions_in(e, locs.drop_last(), f);
        assert forall|k: int| 0 <= k < positions_in(e, locs, f).len() implies (#[trigger] positions_in(
            e,
            locs,
            f,
        )[k]).0 == e && 0 <= positions_in(e, locs, f)[k].1 < locs.len() && locs[positions_in(
            e,
            locs,
            f,
        )[k].1].file == f by {
            if k < prev.len() {
                assert(positions_in(e, locs, f)[k] == prev[k]);
                assert(locs[prev[k].1] == locs.drop_last()[prev[k].1]);
            }
        }
    }
}

proof fn lemma_file_positions_bound(t: Seq<(u64, Seq<LocationModel>)>, f: Seq<char>)
    ensures
        forall|k: int|
            0 <= k < file_positions(t, f).len() ==> 0 <= (#[trigger] file_positions(t, f)[k]).0 < t.len() && 0
                <= file_positions(t, f)[k].1 < t[file_positions(t, f)[k].0].1.len(),
    decreases t.len(),
{
    if t.len() > 0 {
        lemma_file_positions_bound(t.drop_last(), f);
        lemma_positions_in_bound(t.len() - 1, t.last().1, f);
        let prev = file_positions(t.drop_last(), f);
        let last = positions_in(t.len() - 1, t.last().1, f);
        assert forall|k: int| 0 <= k < file_positions(t, f).len() implies 0 <= (#[trigger] file_positions(
            t,
            f,
        )[k]).0 < t.len() && 0 <= file_positions(t, f)[k].1 < t[file_positions(t, f)[k].0].1.len() by {
            if k < prev.len() {
                assert(file_positions(t, f)[k] == prev[k]);
                assert(t[prev[k].0] == t.drop_last()[prev[k].0]);
            } else {
                assert(file_positions(t, f)[k] == last[k - prev.len()]);
            }
        }
    }
}

pub open spec fn pairs_view(v: Seq<(usize, usize)>) -> Seq<(int, int)> {
    v.map_values(|p: (usize, usize)| (p.0 as int, p.1 as int))
}

pub open spec fn indices_view(v: Seq<usize>) -> Seq<int> {
    v.map_values(|k: usize| k as int)
}

/// Every location in file `f`, by address and then in the order recorded.
pub open spec fn file_locations(t: Seq<(u64, Seq<LocationModel>)>, f: Seq<char>) -> Seq<LocationModel> {
    file_positions(t, f).map_values(|p: (int, int)| t[p.0].1[p.1])
}

/// The index of one loaded binary: where each address comes from in the
/// source, and the instructions of its code section.
#[derive(Debug)]
pub struct Adapter {
    debug_info: LineTable,
    text_section: Vec<DecodedInstruction>,
}

impl Adapter {
    /// The recorded locations, as entries in increasing order of address.
    pub closed spec fn lines(&self) -> Seq<(u64, Seq<LocationModel>)> {
        self.debug_info@
    }

    /// The instructions, in the order they were decoded.
    pub closed spec fn text(&self) -> Seq<InstructionModel> {
        instructions_view(self.text_section@)
    }

    pub open spec fn wf(&self) -> bool {
        entries_wf(self.lines()) && instructions_wf(self.text())
    }

    #[verifier::type_invariant]
    closed spec fn inv(&self) -> bool {
        self.debug_info.wf() && instructions_wf(instructions_view(self.text_section@))
    }

    /// The multimap from addresses to locations.
    pub open spec fn spec_debug_map(&self) -> Map<u64, Seq<LocationModel>> {
        table_map(self.lines())
    }

    /// An index of nothing.
    pub fn new() -> (r: Adapter)
        ensures
            r.wf(),
            r.lines().len() == 0,
            r.text().len() == 0,
    {
        let r = Adapter { debug_info: LineTable::new(), text_section: Vec::new() };
        assert(r.text() =~= Seq::<InstructionModel>::empty());
        r
    }

    /// Indexes a binary from the rows of its line-number programs and the
    /// bytes of its code section, which starts at address `base`.
    pub fn build(rows: &Vec<LineRow>, code: &[u8], base: u64) -> (r: Adapter)
        requires
            base + code@.len() <= u64::MAX + 1,
        ensures
            r.wf(),
            r.spec_debug_map() == after_rows(Map::empty(), rows@),
            r.text() == decode_section(code@, base),
            code@.len() > 0 ==> r.text().len() > 0,
            r.text().len() > 0 ==> r.text().last().address + r.text().last().length == base + code@.len(),
    {
        let mut debug_info = LineTable::new();
        debug_info.record_rows(rows);
        let text_section = index_instructions(code, base);
        assert(instructions_wf(decode_section(code@, base))) by {
            crate::instruction::lemma_decoded_in_order(code@, base);
        }
        Adapter { debug_info, text_section }
    }

    /// Indexes a binary from what its sections gave: the rows of its
    /// line-number programs, or the debug section it lacks, in which case no
    /// locations are recorded; and its code section with the address it
    /// starts at, if it has one.
    pub fn from_sections(debug_rows: &Result<Vec<LineRow>, DebugSection>, text: Option<(&[u8], u64)>) -> (r: Adapter)
        requires
            text matches Some((code, base)) ==> base + code@.len() <= u64::MAX + 1,
        ensures
            r.wf(),
            r.spec_debug_map() == match debug_rows {
                Ok(rows) => after_rows(Map::empty(), rows@),
                Err(_) => Map::<u64, Seq<LocationModel>>::empty(),
            },
            r.text() == match text {
                Some((code, base)) => decode_section(code@, base),
                None => Seq::<InstructionModel>::empty(),
            },
            text matches Some((code, base)) ==> (code@.len() > 0 ==> r.text().len() > 0) && (r.text().len() > 0
                ==> r.text().last().address + r.text().last().length == base + code@.len()),
    {
        let mut debug_info = LineTable::new();
        if let Ok(rows) = debug_rows {
            debug_info.record_rows(rows);
        }
        let text_section = match text {
            Some((code, base)) => {
                assert(instructions_wf(decode_section(code@, base))) by {
                    crate::instruction::lemma_decoded_in_order(code@, base);
                }
                index_instructions(code, base)
            },
            None => {
                let v: Vec<DecodedInstruction> = Vec::new();
                assert(instructions_view(v@) =~= Seq::<InstructionModel>::empty());
                v
            },
        };
        Adapter { debug_info, text_section }
    }

    /// An index of the given entries and instructions, if they are well
    /// formed: entry addresses strictly increasing, each entry holding a
    /// location, and instructions of at least one byte that do not overlap.
    pub fn from_parts(entries: Vec<LineEntry>, text_section: Vec<DecodedInstruction>) -> (r: Option<Adapter>)
        ensures
            r is Some <==> entries_wf(entries_view(entries@)) && instructions_wf(instructions_view(text_section@)),
            r matches Some(a) ==> a.lines() == entries_view(entries@) && a.text() == instructions_view(text_section@),
    {
        let ghost t = instructions_view(text_section@);
        let mut k: usize = 0;
        while k < text_section.len()
            invariant
                t == instructions_view(text_section@),
                0 <= k <= t.len(),
                forall|j: int| 0 <= j < k ==> (#[trigger] t[j]).length >= 1,
                forall|j: int| 0 <= j < k - 1 ==> #[trigger] t[j].address + t[j].length <= t[j + 1].address,
            decreases text_section.len() - k,
        {
            let ins = &text_section[k];
            assert(t[k as int] == ins@);
            if ins.length == 0 {
                return None;
            }
            if k > 0 {
                let prev = &text_section[k - 1];
                assert(t[k - 1] == prev@);
                if prev.address > ins.address || ins.address - prev.address < prev.length as u64 {
                    assert(t[k - 1].address + t[k - 1].length > t[k as int].address);
                    assert(!(t[(k - 1) as int].address + t[(k - 1) as int].length <= t[(k - 1) + 1].address));
                    return None;
                }
            }
            k += 1;
        }
        match LineTable::from_entries(entries) {
            Some(debug_info) => Some(Adapter { debug_info, text_section }),
            None => None,
        }
    }

    /// The recorded locations.
    pub fn debug_info(&self) -> (r: &LineTable)
        ensures
            r@ == self.lines(),
            r.wf(),
    {
        proof {
            use_type_invariant(self);
        }
        &self.debug_info
    }

    /// The decoded instructions.
    pub fn text_section(&self) -> (r: &Vec<DecodedInstruction>)
        ensures
            instructions_view(r@) == self.text(),
            instructions_wf(self.text()),
    {
        proof {
            use_type_invariant(self);
        }
        &self.text_section
    }

    /// The index of the instruction whose bytes hold `address`.
    pub fn instruction_index(&self, address: u64) -> (r: Option<usize>)
        ensures
            r matches Some(k) ==> k < self.text().len(),
            r matches Some(k) ==> covering_index(self.text(), address) == Some(k as int),
            r is None ==> covering_index(self.text(), address) is None,
    {
        let ghost t = self.text();
        let mut i: usize = 0;
        while i < self.text_section.len()
            invariant
                t == self.text(),
                t.len() == self.text_section@.len(),
                0 <= i <= t.len(),
                covering_index(t.take(i as int), address) is None,
            decreases self.text_section.len() - i,
        {
            let ins = &self.text_section[i];
            assert(t[i as int] == ins@);
            assert(t.take(i + 1).drop_last() =~= t.take(i as int));
            if ins.address <= address && address - ins.address < ins.length as u64 {
                proof {
                    lemma_covering_prefix(t, i + 1, address);
                }
                return Some(i);
            }
            i += 1;
        }
        assert(t.take(i as int) =~= t);
        None
    }

    /// The instruction whose bytes hold `address`, if any.
    pub fn find_instruction(&self, address: u64) -> (r: Option<&DecodedInstruction>)
        ensures
            r matches Some(ins) ==> covering_index(self.text(), address) matches Some(k) && ins@ == self.text()[k],
            r is None ==> covering_index(self.text(), address) is None,
    {
        match self.instruction_index(address) {
            Some(k) => Some(&self.text_section[k]),
            None => None,
        }
    }

    /// The positions `(entry, index)` of every location in file `path`.
    pub fn file_location_positions(&self, path: &str) -> (r: Vec<(usize, usize)>)
        ensures
            pairs_view(r@) == file_positions(self.lines(), path@),
    {
        proof {
            use_type_invariant(self);
        }
        let ghost t = self.lines();
        let f = String::from_str(path);
        let entries = self.debug_info.entries();
        let mut out: Vec<(usize, usize)> = Vec::new();
        let mut i: usize = 0;
        while i < entries.len()
            invariant
                t == self.lines(),
                entries@.map_values(|e: LineEntry| e@) == t,
                f@ == path@,
                0 <= i <= t.len(),
                pairs_view(out@) == file_positions(t.take(i as int), f@),
            decreases entries.len() - i,
        {
            let entry = &entries[i];
            assert(t[i as int] == entry@);
            let ghost before = out@;
            let ghost locs = t[i as int].1;
            let mut j: usize = 0;
            while j < entry.locations.len()
                invariant
                    t == self.lines(),
                    entries@.map_values(|e: LineEntry| e@) == t,
                    f@ == path@,
                    0 <= i < t.len(),
                    locs == t[i as int].1,
                    locs == locations_view(entry.locations@),
                    0 <= j <= locs.len(),
                    pairs_view(out@) == pairs_view(before) + positions_in(i as int, locs.take(j as int), f@),
                decreases entry.locations.len() - j,
            {
                assert(locs.take(j + 1).drop_last() =~= locs.take(j as int));
                assert(locs[j as int] == entry.locations@[j as int]@);
                if entry.locations[j].file == f {
                    let ghost prev = out@;
                    out.push((i, j));
                    assert(locs.take(j + 1).last() == locs[j as int]);
                    assert(pairs_view(out@) =~= pairs_view(prev).push((i as int, j as int)));
                    assert(pairs_view(out@) =~= pairs_view(before) + positions_in(i as int, locs.take(j + 1), f@));
                } else {
                    assert(pairs_view(out@) =~= pairs_view(before) + positions_in(i as int, locs.take(j + 1), f@));
                }
                j += 1;
            }
            assert(locs.take(j as int) =~= locs);
            assert(t.take(i + 1).drop_last() =~= t.take(i as int));
            assert(t.take(i + 1).last() == t[i as int]);
            i += 1;
        }
        assert(t.take(i as int) =~= t);
        out
    }

    /// Every recorded location in file `path`, by address and then in the
    /// order recorded.
    pub fn get_file_locations(&self, path: &str) -> (r: Vec<&SourceLocation>)
        ensures
            r@.map_values(|l: &SourceLocation| (*l)@) == file_locations(self.lines(), path@),
    {
        proof {
            use_type_invariant(self);
        }
        let ghost t = self.lines();
        let positions = self.file_location_positions(path);
        proof {
            lemma_file_positions_bound(t, path@);
        }
        let entries = self.debug_info.entries();
        let mut out: Vec<&SourceLocation> = Vec::new();
        let mut k: usize = 0;
        while k < positions.len()
            invariant
                t == self.lines(),
                entries@.map_values(|e: LineEntry| e@) == t,
                pairs_view(positions@) == file_positions(t, path@),
                forall|m: int|
                    0 <= m < file_positions(t, path@).len() ==> 0 <= (#[trigger] file_positions(t, path@)[m]).0
                        < t.len() && 0 <= file_positions(t, path@)[m].1 < t[file_positions(t, path@)[m].0].1.len(),
                0 <= k <= positions@.len(),
                out@.map_values(|l: &SourceLocation| (*l)@) == file_locations(t, path@).take(k as int),
            decreases positions.len() - k,
        {
            let (e, j) = positions[k];
            assert(pairs_view(positions@)[k as int] == (e as int, j as int));
            assert(entries@[e as int]@ == t[e as int]);
            let loc = &entries[e].locations[j];
            assert(loc@ == t[e as int].1[j as int]);
            assert(file_locations(t, path@)[k as int] == t[e as int].1[j as int]);
            let ghost prev = out@;
            out.push(loc);
            assert(out@.map_values(|l: &SourceLocation| (*l)@) =~= prev.map_values(|l: &SourceLocation| (*l)@).push(loc@));
            assert(out@.map_values(|l: &SourceLocation| (*l)@) =~= file_locations(t, path@).take(k + 1));
            k += 1;
        }
        assert(file_locations(t, path@).take(k as int) =~= file_locations(t, path@));
        out
    }

    /// The indices of the instructions that cover an address with a location
    /// in file `path`, one for each such address, in increasing order of
    /// address.
    pub fn file_instruction_indices(&self, path: &str) -> (r: Vec<usize>)
        ensures
            indices_view(r@) == file_instruction_indices(self.lines(), self.text(), path@),
            forall|m: int| 0 <= m < r@.len() ==> (#[trigger] r@[m]) < self.text().len(),
    {
        proof {
            use_type_invariant(self);
        }
        let ghost t = self.lines();
        let f = String::from_str(path);
        let entries = self.debug_info.entries();
        let mut out: Vec<usize> = Vec::new();
        let mut i: usize = 0;
        while i < entries.len()
            invariant
                t == self.lines(),
                entries@.map_values(|e: LineEntry| e@) == t,
                f@ == path@,
                0 <= i <= t.len(),
                indices_view(out@) == file_instruction_indices(t.take(i as int), self.text(), f@),
                forall|m: int| 0 <= m < out@.len() ==> (#[trigger] out@[m]) < self.text().len(),
            decreases entries.len() - i,
        {
            let entry = &entries[i];
            assert(t[i as int] == entry@);
            let ghost locs = t[i as int].1;
            let mut found = false;
            let mut j: usize = 0;
            while j < entry.locations.len()
                invariant
                    locs == locations_view(entry.locations@),
                    f@ == path@,
                    0 <= j <= locs.len(),
                    found == exists|m: int| 0 <= m < j && (#[trigger] locs[m]).file == f@,
                decreases entry.locations.len() - j,
            {
                assert(locs[j as int] == entry.locations@[j as int]@);
                if entry.locations[j].file == f {
                    found = true;
                }
                j += 1;
            }
            assert(found == mentions(locs, f@));
            assert(t.take(i + 1).drop_last() =~= t.take(i as int));
            assert(t.take(i + 1).last() == t[i as int]);
            if found {
                match self.instruction_index(entry.address) {
                    Some(k) => {
                        out.push(k);
                        assert(indices_view(out@) =~= file_instruction_indices(t.take(i + 1), self.text(), f@));
                    },
                    None => {},
                }
            }
            i += 1;
        }
        assert(t.take(i as int) =~= t);
        out
    }

    /// Each instruction that covers an address with a location in file
    /// `path`, one for each such address, in increasing order of address.
    pub fn get_file_instructions(&self, path: &str) -> (r: Vec<&DecodedInstruction>)
        ensures
            r@.map_values(|i: &DecodedInstruction| (*i)@) == file_instruction_indices(
                self.lines(),
                self.text(),
                path@,
            ).map_values(|k: int| self.text()[k]),
    {
        proof {
            use_type_invariant(self);
        }
        let indices = self.file_instruction_indices(path);
        let ghost want = file_instruction_indices(self.lines(), self.text(), path@).map_values(
            |k: int| self.text()[k],
        );
        let mut out: Vec<&DecodedInstruction> = Vec::new();
        let mut m: usize = 0;
        while m < indices.len()
            invariant
                indices_view(indices@) == file_instruction_indices(self.lines(), self.text(), path@),
                forall|n: int| 0 <= n < indices@.len() ==> (#[trigger] indices@[n]) < self.text().len(),
                self.text().len() == self.text_section@.len(),
                want == file_instruction_indices(self.lines(), self.text(), path@).map_values(
                    |k: int| self.text()[k],
                ),
                0 <= m <= indices@.len(),
                out@.map_values(|i: &DecodedInstruction| (*i)@) == want.take(m as int),
            decreases indices.len() - m,
        {
            let k = indices[m];
            assert(indices_view(indices@)[m as int] == k as int);
            let ins = &self.text_section[k];
            assert(ins@ == self.text()[k as int]);
            assert(want[m as int] == self.text()[k as int]);
            let ghost prev = out@;
            out.push(ins);
            assert(out@.map_values(|i: &DecodedInstruction| (*i)@) =~= prev.map_values(|i: &DecodedInstruction| (*i)@).push(ins@));
            assert(out@.map_values(|i: &DecodedInstruction| (*i)@) =~= want.take(m + 1));
            m += 1;
        }
        assert(want.take(m as int) =~= want);
        out
    }
}

/// Indexing is a function of what it is given: two indexes built from the
/// same rows and from the same code bytes at the same base hold the same
/// entries, in the same order, and the same instructions, so anything
/// written out from them is identical.
pub proof fn lemma_build_deterministic(
    a1: &Adapter,
    a2: &Adapter,
    rows: Seq<LineRow>,
    code: Seq<u8>,
    base: u64,
)
    requires
        a1.wf(),
        a2.wf(),
        a1.spec_debug_map() == after_rows(Map::empty(), rows),
        a1.text() == decode_section(code, base),
        a2.spec_debug_map() == after_rows(Map::empty(), rows),
        a2.text() == decode_section(code, base),
    ensures
        a1.lines() == a2.lines(),
        a1.text() == a2.text(),
{
    crate::line_table::lemma_map_determines_entries(a1.lines(), a2.lines());
}

/// A debug section that locating source positions needs.
#[derive(Clone, Copy, Debug, PartialEq, Eq, Structural)]
pub enum DebugSection {
    Info,
    Abbrev,
    Str,
    Line,
}

impl DebugSection {
    pub open spec fn spec_name(self) -> Seq<char> {
        match self {
            DebugSection::Info => ".debug_info"@,
            DebugSection::Abbrev => ".debug_abbrev"@,
            DebugSection::Str => ".debug_str"@,
            DebugSection::Line => ".debug_line"@,
        }
    }

    /// The name of the section in an object file.
    pub fn name(&self) -> (r: &'static str)
        ensures
            r@ == self.spec_name(),
    {
        match self {
            DebugSection::Info => ".debug_info",
            DebugSection::Abbrev => ".debug_abbrev",
            DebugSection::Str => ".debug_str",
            DebugSection::Line => ".debug_line",
        }
    }
}

/// The first of the four debug sections, in the order info, abbreviations,
/// strings, line programs, that the object file lacks; none when all four
/// are there.
pub open spec fn missing_section(info: bool, abbrev: bool, strings: bool, line: bool) -> Option<DebugSection> {
    if !info {
        Some(DebugSection::Info)
    } else if !abbrev {
        Some(DebugSection::Abbrev)
    } else if !strings {
        Some(DebugSection::Str)
    } else if !line {
        Some(DebugSection::Line)
    } else {
        None
    }
}

/// The first of the four debug sections that the object file lacks.
pub fn first_missing_section(info: bool, abbrev: bool, strings: bool, line: bool) -> (r: Option<DebugSection>)
    ensures
        r == missing_section(info, abbrev, strings, line),
{
    if !info {
        Some(DebugSection::Info)
    } else if !abbrev {
        Some(DebugSection::Abbrev)
    } else if !strings {
        Some(DebugSection::Str)
    } else if !line {
        Some(DebugSection::Line)
    } else {
        None
    }
}

} // verus!
