//! The address-to-location multimap that the line-number programs of a
//! binary fill.

use crate::location::{location_of_row, row_is_reported, row_location, LineRow, LocationModel, SourceLocation};
use vstd::prelude::*;

verus! {

/// The locations recorded at one address, in the order they were recorded.
#[derive(Debug)]
pub struct LineEntry {
    pub address: u64,
    pub locations: Vec<SourceLocation>,
}

pub open spec fn locations_view(v: Seq<SourceLocation>) -> Seq<LocationModel> {
    v.map_values(|l: SourceLocation| l@)
}

impl View for LineEntry {
    type V = (u64, Seq<LocationModel>);

    open spec fn view(&self) -> (u64, Seq<LocationModel>) {
        (self.address, locations_view(self.locations@))
    }
}

/// Entries with strictly increasing addresses, each holding at least one
/// location.
pub open spec fn entries_wf(t: Seq<(u64, Seq<LocationModel>)>) -> bool {
    &&& forall|i: int, j: int| 0 <= i < j < t.len() ==> t[i].0 < t[j].0
    &&& forall|i: int| 0 <= i < t.len() ==> (#[trigger] t[i]).1.len() > 0
}

pub open spec fn has_address(t: Seq<(u64, Seq<LocationModel>)>, a: u64) -> bool {
    exists|i: int| 0 <= i < t.len() && (#[trigger] t[i]).0 == a
}

/// The locations recorded at `a`; empty where none are.
pub open spec fn locations_at(t: Seq<(u64, Seq<LocationModel>)>, a: u64) -> Seq<LocationModel> {
    if has_address(t, a) {
        t[choose|i: int| 0 <= i < t.len() && (#[trigger] t[i]).0 == a].1
    } else {
        Seq::empty()
    }
}

/// The multimap that the entries stand for.
pub open spec fn table_map(t: Seq<(u64, Seq<LocationModel>)>) -> Map<u64, Seq<LocationModel>> {
    Map::new(|a: u64| has_address(t, a), |a: u64| locations_at(t, a))
}

/// What a multimap holds at `a`; empty where it holds nothing.
pub open spec fn lookup(m: Map<u64, Seq<LocationModel>>, a: u64) -> Seq<LocationModel> {
    if m.contains_key(a) {
        m[a]
    } else {
        Seq::empty()
    }
}

/// The multimap after `l` is recorded at `a`: appended to what is there.
pub open spec fn with_location(m: Map<u64, Seq<LocationModel>>, a: u64, l: LocationModel) -> Map<
    u64,
    Seq<LocationModel>,
> {
    m.insert(a, lookup(m, a).push(l))
}

/// The multimap after the rows are interpreted in order, starting from `m`.
pub open spec fn after_rows(m: Map<u64, Seq<LocationModel>>, rows: Seq<LineRow>) -> Map<
    u64,
    Seq<LocationModel>,
>
    decreases rows.len(),
{
    if rows.len() == 0 {
        m
    } else {
        after_row(after_rows(m, rows.drop_last()), rows.last())
    }
}

/// The multimap after one row is interpreted.
pub open spec fn after_row(m: Map<u64, Seq<LocationModel>>, row: LineRow) -> Map<u64, Seq<LocationModel>> {
    if row_is_reported(row) {
        with_location(m, row.address, row_location(row))
    } else {
        m
    }
}

pub proof fn lemma_entry_lookup(t: Seq<(u64, Seq<LocationModel>)>, k: int)
    requires
        entries_wf(t),
        0 <= k < t.len(),
    ensures
        has_address(t, t[k].0),
        locations_at(t, t[k].0) == t[k].1,
        table_map(t).contains_key(t[k].0),
        table_map(t)[t[k].0] == t[k].1,
{
    assert(has_address(t, t[k].0));
    let j = choose|i: int| 0 <= i < t.len() && (#[trigger] t[i]).0 == t[k].0;
    assert(j == k);
}

spec fn agree_at(m1: Map<u64, Seq<LocationModel>>, m2: Map<u64, Seq<LocationModel>>, a: u64) -> bool {
    m1.contains_key(a) == m2.contains_key(a) && (m1.contains_key(a) ==> m1[a] == m2[a])
}

proof fn lemma_maps_agree(m1: Map<u64, Seq<LocationModel>>, m2: Map<u64, Seq<LocationModel>>)
    requires
        forall|a: u64| #[trigger] agree_at(m1, m2, a),
    ensures
        m1 == m2,
{
    assert forall|a: u64| #[trigger] m1.dom().contains(a) == m2.dom().contains(a) by {
        assert(agree_at(m1, m2, a));
    }
    assert(m1.dom() =~= m2.dom());
    assert forall|a: u64| #[trigger] m1.dom().contains(a) implies m1[a] == m2[a] by {
        assert(agree_at(m1, m2, a));
    }
    assert(m1 =~= m2);
}

proof fn lemma_drop_last_map(t: Seq<(u64, Seq<LocationModel>)>, a: u64)
    requires
        entries_wf(t),
        t.len() > 0,
        a != t.last().0,
    ensures
        table_map(t.drop_last()).contains_key(a) == table_map(t).contains_key(a),
        table_map(t).contains_key(a) ==> table_map(t.drop_last())[a] == table_map(t)[a],
{
    let d = t.drop_last();
    assert(entries_wf(d));
    if has_address(t, a) {
        let k = choose|k: int| 0 <= k < t.len() && (#[trigger] t[k]).0 == a;
        assert(k < t.len() - 1);
        assert(d[k] == t[k]);
        lemma_entry_lookup(t, k);
        lemma_entry_lookup(d, k);
    }
    if has_address(d, a) {
        let k = choose|k: int| 0 <= k < d.len() && (#[trigger] d[k]).0 == a;
        assert(t[k] == d[k]);
    }
}

/// Well-formed entries are determined by the multimap they stand for.
pub proof fn lemma_map_determines_entries(t1: Seq<(u64, Seq<LocationModel>)>, t2: Seq<(u64, Seq<LocationModel>)>)
    requires
        entries_wf(t1),
        entries_wf(t2),
        table_map(t1) == table_map(t2),
    ensures
        t1 == t2,
    decreases t1.len() + t2.len(),
{
    if t1.len() == 0 || t2.len() == 0 {
        if t1.len() > 0 {
            lemma_entry_lookup(t1, 0);
        }
        if t2.len() > 0 {
            lemma_entry_lookup(t2, 0);
        }
        assert(t1 =~= t2);
    } else {
        let n1 = t1.len() - 1;
        let n2 = t2.len() - 1;
        let m1 = t1[n1].0;
        let m2 = t2[n2].0;
        lemma_entry_lookup(t1, n1);
        lemma_entry_lookup(t2, n2);
        let k2 = choose|k: int| 0 <= k < t2.len() && (#[trigger] t2[k]).0 == m1;
        let k1 = choose|k: int| 0 <= k < t1.len() && (#[trigger] t1[k]).0 == m2;
        assert(m1 <= m2) by {
            if k2 < n2 {
                assert(t2[k2].0 < t2[n2].0);
            }
        }
        assert(m2 <= m1) by {
            if k1 < n1 {
                assert(t1[k1].0 < t1[n1].0);
            }
        }
        assert(t1.last() == t2.last());
        let d1 = t1.drop_last();
        let d2 = t2.drop_last();
        assert(entries_wf(d1));
        assert(entries_wf(d2));
        assert forall|a: u64| agree_at(table_map(d1), table_map(d2), a) by {
            if a == m1 {
                if has_address(d1, a) {
                    let k = choose|k: int| 0 <= k < d1.len() && (#[trigger] d1[k]).0 == a;
                    assert(t1[k].0 < t1[n1].0);
                }
                if has_address(d2, a) {
                    let k = choose|k: int| 0 <= k < d2.len() && (#[trigger] d2[k]).0 == a;
                    assert(t2[k].0 < t2[n2].0);
                }
            } else {
                lemma_drop_last_map(t1, a);
                lemma_drop_last_map(t2, a);
            }
        }
        lemma_maps_agree(table_map(d1), table_map(d2));
        lemma_map_determines_entries(d1, d2);
        assert(t1 =~= d1.push(t1.last()));
        assert(t2 =~= d2.push(t2.last()));
    }
}

pub open spec fn entries_view(v: Seq<LineEntry>) -> Seq<(u64, Seq<LocationModel>)> {
    v.map_values(|e: LineEntry| e@)
}

/// The address-to-location multimap of one binary.
#[derive(Debug)]
pub struct LineTable {
    entries: Vec<LineEntry>,
}

impl View for LineTable {
    type V = Seq<(u64, Seq<LocationModel>)>;

    closed spec fn view(&self) -> Seq<(u64, Seq<LocationModel>)> {
        entries_view(self.entries@)
    }
}

impl LineTable {
    pub open spec fn wf(&self) -> bool {
        entries_wf(self@)
    }

    #[verifier::type_invariant]
    closed spec fn inv(&self) -> bool {
        entries_wf(entries_view(self.entries@))
    }

    /// The multimap from addresses to the locations recorded there.
    pub open spec fn spec_map(&self) -> Map<u64, Seq<LocationModel>> {
        table_map(self@)
    }

    /// A table with nothing recorded.
    pub fn new() -> (r: LineTable)
        ensures
            r.wf(),
            r@ == Seq::<(u64, Seq<LocationModel>)>::empty(),
            r.spec_map() == Map::<u64, Seq<LocationModel>>::empty(),
    {
        let r = LineTable { entries: Vec::new() };
        assert(r@ =~= Seq::<(u64, Seq<LocationModel>)>::empty());
        assert(r.spec_map() =~= Map::<u64, Seq<LocationModel>>::empty());
        r
    }

    /// A table of the given entries, if their addresses strictly increase
    /// and each holds at least one location.
    pub fn from_entries(entries: Vec<LineEntry>) -> (r: Option<LineTable>)
        ensures
            r is Some <==> entries_wf(entries_view(entries@)),
            r matches Some(t) ==> t@ == entries_view(entries@),
    {
        let ghost t = entries_view(entries@);
        let mut i: usize = 0;
        while i < entries.len()
            invariant
                t == entries_view(entries@),
                0 <= i <= t.len(),
                forall|j: int| 0 <= j < i ==> (#[trigger] t[j]).1.len() > 0,
                forall|j: int, k: int| 0 <= j < k < i ==> t[j].0 < t[k].0,
            decreases entries.len() - i,
        {
            assert(t[i as int] == entries@[i as int]@);
            if entries[i].locations.len() == 0 {
                return None;
            }
            if i > 0 {
                assert(t[i - 1] == entries@[i - 1]@);
                if entries[i - 1].address >= entries[i].address {
                    return None;
                }
            }
            assert forall|j: int, k: int| 0 <= j < k < i + 1 implies t[j].0 < t[k].0 by {
                if k == i && j < i - 1 {
                    assert(t[j].0 < t[i - 1].0);
                }
            }
            i += 1;
        }
        Some(LineTable { entries })
    }

    /// The entries, in increasing order of address.
    pub fn entries(&self) -> (r: &Vec<LineEntry>)
        ensures
            r@.map_values(|e: LineEntry| e@) == self@,
            self.wf(),
    {
        proof {
            use_type_invariant(self);
        }
        &self.entries
    }

    /// Appends `loc` to the locations recorded at `address`.
    #[verifier::rlimit(30)]
    pub fn record(&mut self, address: u64, loc: SourceLocation)
        ensures
            final(self).wf(),
            final(self).spec_map() == with_location(old(self).spec_map(), address, loc@),
    {
        proof {
            use_type_invariant(&*self);
        }
        let mut entries: Vec<LineEntry> = Vec::new();
        std::mem::swap(&mut entries, &mut self.entries);
        let ghost t0 = entries_view(entries@);
        let mut i: usize = 0;
        while i < entries.len() && entries[i].address < address
            invariant
                entries_view(entries@) == t0,
                entries_wf(t0),
                0 <= i <= t0.len(),
                forall|j: int| 0 <= j < i ==> t0[j].0 < address,
            decreases entries.len() - i,
        {
            i += 1;
        }
        let ghost l = loc@;
        if i < entries.len() && entries[i].address == address {
            let mut e = entries.remove(i);
            e.locations.push(loc);
            entries.insert(i, e);
            let ghost t1 = entries_view(entries@);
            assert(locations_view(e.locations@) =~= t0[i as int].1.push(l));
            assert(t1 =~= t0.update(i as int, (address, t0[i as int].1.push(l))));
            assert(entries_wf(t1));
            proof {
                lemma_entry_lookup(t0, i as int);
            }
            assert forall|a: u64| agree_at(table_map(t1), with_location(table_map(t0), address, l), a) by {
                if a == address {
                    lemma_entry_lookup(t1, i as int);
                } else if has_address(t1, a) {
                    let k = choose|k: int| 0 <= k < t1.len() && (#[trigger] t1[k]).0 == a;
                    lemma_entry_lookup(t1, k);
                    lemma_entry_lookup(t0, k);
                } else {
                    if has_address(t0, a) {
                        let k = choose|k: int| 0 <= k < t0.len() && (#[trigger] t0[k]).0 == a;
                        assert(t1[k].0 == a);
                    }
                }
            }
            proof {
                lemma_maps_agree(table_map(t1), with_location(table_map(t0), address, l));
            }
        } else {
            let mut v: Vec<SourceLocation> = Vec::new();
            v.push(loc);
            let e = LineEntry { address, locations: v };
            entries.insert(i, e);
            let ghost t1 = entries_view(entries@);
            assert(locations_view(v@) =~= seq![l]);
            assert(t1 =~= t0.insert(i as int, (address, seq![l])));
            assert forall|a: int, b: int| 0 <= a < b < t1.len() implies t1[a].0 < t1[b].0 by {
                if b < i {
                } else if b == i {
                } else if a < i {
                } else if a == i {
                    assert(t1[b] == t0[b - 1]);
                } else {
                    assert(t1[a] == t0[a - 1]);
                }
            }
            assert(entries_wf(t1));
            assert(!has_address(t0, address)) by {
                if has_address(t0, address) {
                    let k = choose|k: int| 0 <= k < t0.len() && (#[trigger] t0[k]).0 == address;
                    if k < i {
                    } else {
                        assert(t0[i as int].0 <= t0[k].0);
                    }
                }
            }
            assert forall|a: u64| agree_at(table_map(t1), with_location(table_map(t0), address, l), a) by {
                if a == address {
                    lemma_entry_lookup(t1, i as int);
                } else if has_address(t1, a) {
                    let k = choose|k: int| 0 <= k < t1.len() && (#[trigger] t1[k]).0 == a;
                    lemma_entry_lookup(t1, k);
                    if k < i {
                        lemma_entry_lookup(t0, k);
                    } else {
                        lemma_entry_lookup(t0, k - 1);
                    }
                } else {
                    if has_address(t0, a) {
                        let k = choose|k: int| 0 <= k < t0.len() && (#[trigger] t0[k]).0 == a;
                        if k < i {
                            assert(t1[k].0 == a);
                        } else {
                            assert(t1[k + 1].0 == a);
                        }
                    }
                }
            }
            proof {
                lemma_maps_agree(table_map(t1), with_location(table_map(t0), address, l));
            }
        }
        self.entries = entries;
    }

    /// Interprets one row of a line-number program: a statement boundary
    /// with a known line at a non-zero address is recorded, any other row
    /// is passed over.
    pub fn record_row(&mut self, row: &LineRow)
        ensures
            final(self).wf(),
            final(self).spec_map() == after_row(old(self).spec_map(), *row),
    {
        proof {
            use_type_invariant(&*self);
        }
        if row.is_stmt && row.line != 0 && row.address > 0 {
            let loc = location_of_row(row);
            self.record(row.address, loc);
        }
    }

    /// Interprets the rows in order.
    pub fn record_rows(&mut self, rows: &Vec<LineRow>)
        ensures
            final(self).wf(),
            final(self).spec_map() == after_rows(old(self).spec_map(), rows@),
    {
        proof {
            use_type_invariant(&*self);
        }
        let ghost m0 = self.spec_map();
        let mut i: usize = 0;
        while i < rows.len()
            invariant
                self.wf(),
                0 <= i <= rows@.len(),
                self.spec_map() == after_rows(m0, rows@.take(i as int)),
            decreases rows.len() - i,
        {
            let ghost before = rows@.take(i as int);
            self.record_row(&rows[i]);
            assert(rows@.take(i + 1).drop_last() =~= before);
            i += 1;
        }
        assert(rows@.take(rows@.len() as int) =~= rows@);
    }

    /// The index of the entry at `address`, if there is one.
    pub fn find_entry(&self, address: u64) -> (r: Option<usize>)
        ensures
            r is None <==> !has_address(self@, address),
            r matches Some(i) ==> i < self@.len() && self@[i as int].0 == address,
    {
        proof {
            use_type_invariant(self);
        }
        let mut i: usize = 0;
        while i < self.entries.len()
            invariant
                0 <= i <= self@.len(),
                self@.len() == self.entries@.len(),
                forall|j: int| 0 <= j < i ==> self@[j].0 != address,
            decreases self.entries.len() - i,
        {
            assert(self@[i as int].0 == self.entries@[i as int].address);
            if self.entries[i].address == address {
                return Some(i);
            }
            i += 1;
        }
        None
    }
}

/// At address `a`, `m2` holds what `m1` holds followed by locations that
/// each sit at a non-zero address, on a line of at least 1 and in a column
/// of at least 1.
pub open spec fn grows_validly_at(m1: Map<u64, Seq<LocationModel>>, m2: Map<u64, Seq<LocationModel>>, a: u64) -> bool {
    &&& lookup(m1, a).len() <= lookup(m2, a).len()
    &&& lookup(m2, a).subrange(0, lookup(m1, a).len() as int) == lookup(m1, a)
    &&& valid_from(lookup(m2, a), lookup(m1, a).len() as int, a)
}

/// The locations of `s` from position `from` on sit at a non-zero address
/// `a`, on a line of at least 1 and in a column of at least 1.
pub open spec fn valid_from(s: Seq<LocationModel>, start: int, a: u64) -> bool {
    &&& start < s.len() ==> a > 0
    &&& forall|i: int| start <= i < s.len() ==> (#[trigger] s[i]).line >= 1 && s[i].column >= 1
}

proof fn lemma_valid_at(s: Seq<LocationModel>, start: int, a: u64, i: int)
    requires
        valid_from(s, start, a),
        start <= i < s.len(),
    ensures
        a > 0 && s[i].line >= 1 && s[i].column >= 1,
{
}

proof fn lemma_grows_trans(m1: Map<u64, Seq<LocationModel>>, m2: Map<u64, Seq<LocationModel>>, m3: Map<u64, Seq<LocationModel>>, a: u64)
    requires
        grows_validly_at(m1, m2, a),
        grows_validly_at(m2, m3, a),
    ensures
        grows_validly_at(m1, m3, a),
{
    let s1 = lookup(m1, a);
    let s2 = lookup(m2, a);
    let s3 = lookup(m3, a);
    assert(s3.subrange(0, s1.len() as int) =~= s2.subrange(0, s1.len() as int));
    assert(valid_from(s2, s1.len() as int, a));
    assert(valid_from(s3, s2.len() as int, a));
    assert forall|i: int| s1.len() <= i < s3.len() implies a > 0 && (#[trigger] s3[i]).line >= 1 && s3[i].column >= 1 by {
        if i < s2.len() {
            assert(s2 == s3.subrange(0, s2.len() as int));
            assert(s3.subrange(0, s2.len() as int)[i] == s3[i]);
            assert(s2[i] == s3[i]);
            lemma_valid_at(s2, s1.len() as int, a, i);
        } else {
            lemma_valid_at(s3, s2.len() as int, a, i);
        }
    }
}

proof fn lemma_grows_refl(m: Map<u64, Seq<LocationModel>>, a: u64)
    ensures
        grows_validly_at(m, m, a),
{
    assert(lookup(m, a).subrange(0, lookup(m, a).len() as int) =~= lookup(m, a));
}

proof fn lemma_row_grows(m: Map<u64, Seq<LocationModel>>, row: LineRow, a: u64)
    ensures
        grows_validly_at(m, after_row(m, row), a),
{
    if row_is_reported(row) && a == row.address {
        let s1 = lookup(m, a);
        let s2 = lookup(after_row(m, row), a);
        assert(s2 == s1.push(row_location(row)));
        assert(s2.subrange(0, s1.len() as int) =~= s1);
    } else {
        assert(lookup(after_row(m, row), a) == lookup(m, a));
        lemma_grows_refl(m, a);
    }
}

/// Interpreting rows, whatever the table held before, only appends: at
/// each address the earlier locations stay in place, and every location
/// added sits at a non-zero address, on a line of at least 1 and in a column
/// of at least 1, the left edge never being reported as column 0.
pub proof fn lemma_appended_locations_valid(m: Map<u64, Seq<LocationModel>>, rows: Seq<LineRow>, a: u64)
    ensures
        grows_validly_at(m, after_rows(m, rows), a),
    decreases rows.len(),
{
    if rows.len() == 0 {
        lemma_grows_refl(m, a);
    } else {
        lemma_appended_locations_valid(m, rows.drop_last(), a);
        let prev = after_rows(m, rows.drop_last());
        lemma_row_grows(prev, rows.last(), a);
        lemma_grows_trans(m, prev, after_rows(m, rows), a);
    }
}

} // verus!
