//! Per-process table of library mappings: converts absolute virtual memory
//! addresses (AVMAs) into library-relative addresses.

use vstd::prelude::*;

verus! {

/// A half-open address range `[start_avma, end_avma)` occupied by one mapping,
/// together with the relative address that corresponds to `start_avma` and a
/// caller-chosen value identifying the library.
pub struct Mapping<T> {
    pub start_avma: u64,
    pub end_avma: u64,
    pub relative_address_at_start: u32,
    pub value: T,
}

/// The range is non-empty and every address inside it maps to a relative
/// address that fits in a `u32`.
pub open spec fn mapping_wf<T>(m: Mapping<T>) -> bool {
    &&& m.start_avma < m.end_avma
    &&& m.relative_address_at_start + (m.end_avma - m.start_avma) <= 0x1_0000_0000
}

/// Entries are strictly sorted by start address.
pub open spec fn sorted_by_start<T>(s: Seq<Mapping<T>>) -> bool {
    forall|i: int, j: int|
        0 <= i < j < s.len() ==> s[i].start_avma < s[j].start_avma
}

/// Entry `i` ends before entry `j` begins, for all `i < j`: the ranges are
/// pairwise disjoint.
pub open spec fn non_overlapping<T>(s: Seq<Mapping<T>>) -> bool {
    forall|i: int, j: int|
        0 <= i < j < s.len() ==> s[i].end_avma <= s[j].start_avma
}

/// `avma` lies inside the mapping's half-open range.
pub open spec fn covers<T>(m: Mapping<T>, avma: u64) -> bool {
    m.start_avma <= avma < m.end_avma
}

/// The relative address that `avma` has inside mapping `m`.
pub open spec fn relative_address_in<T>(m: Mapping<T>, avma: u64) -> int {
    m.relative_address_at_start + (avma - m.start_avma)
}

/// The position at which an entry starting at `start` belongs in the sorted
/// table: the number of entries with a strictly smaller start address.
pub open spec fn insert_pos<T>(s: Seq<Mapping<T>>, start: u64) -> int
    decreases s.len(),
{
    if s.len() == 0 {
        0
    } else if s[0].start_avma < start {
        1 + insert_pos(s.skip(1), start)
    } else {
        0
    }
}

/// The table after `add_mapping`: an existing entry with the same start is
/// replaced (last write wins); otherwise the new entry is inserted at its
/// sorted position.
pub open spec fn add_spec<T>(s: Seq<Mapping<T>>, m: Mapping<T>) -> Seq<Mapping<T>> {
    let i = insert_pos(s, m.start_avma);
    if i < s.len() && s[i].start_avma == m.start_avma {
        s.update(i, m)
    } else {
        s.subrange(0, i).push(m) + s.subrange(i, s.len() as int)
    }
}

/// The table after `remove_mapping`: the entry starting at `start` is dropped
/// if present.
pub open spec fn remove_spec<T>(s: Seq<Mapping<T>>, start: u64) -> Seq<Mapping<T>> {
    let i = insert_pos(s, start);
    if i < s.len() && s[i].start_avma == start {
        s.remove(i)
    } else {
        s
    }
}

/// The predecessor rule that drives `convert_address`: take the entry with the
/// largest start address that is at most `avma`; if `avma` lies before its
/// end, that entry answers the query. Returns the entry's index.
pub open spec fn convert_spec<T>(s: Seq<Mapping<T>>, avma: u64) -> Option<int>
    decreases s.len(),
{
    if s.len() == 0 {
        None
    } else if s.last().start_avma <= avma {
        if avma < s.last().end_avma {
            Some(s.len() - 1)
        } else {
            None
        }
    } else {
        convert_spec(s.drop_last(), avma)
    }
}

/// Per-process table of library mappings, kept sorted by start address.
pub struct LibMappings<T> {
    sorted_lib_ranges: Vec<Mapping<T>>,
}

impl<T> View for LibMappings<T> {
    type V = Seq<Mapping<T>>;

    closed spec fn view(&self) -> Seq<Mapping<T>> {
        self.sorted_lib_ranges@
    }
}

impl<T> Default for LibMappings<T> {
    /// An empty table.
    fn default() -> (r: Self)
        ensures
            r@ =~= Seq::<Mapping<T>>::empty(),
            r.wf(),
    {
        LibMappings::new()
    }
}

impl<T> LibMappings<T> {
    /// The table invariant: entries strictly sorted by start, each well formed.
    pub open spec fn wf(&self) -> bool {
        &&& sorted_by_start(self@)
        &&& forall|i: int| 0 <= i < self@.len() ==> mapping_wf(#[trigger] self@[i])
    }

    /// Creates an empty table.
    pub fn new() -> (r: Self)
        ensures
            r@ =~= Seq::<Mapping<T>>::empty(),
            r.wf(),
    {
        LibMappings { sorted_lib_ranges: Vec::new() }
    }

    /// Index of the first entry whose start address is at least `start`;
    /// `self@.len()` if every entry starts below `start`.
    fn lower_bound(&self, start: u64) -> (r: usize)
        requires
            sorted_by_start(self@),
        ensures
            r == insert_pos(self@, start),
            r <= self@.len(),
            forall|j: int| 0 <= j < r ==> self@[j].start_avma < start,
            forall|j: int| r <= j < self@.len() ==> start <= #[trigger] self@[j].start_avma,
    {
        proof {
            lemma_insert_pos_properties(self@, start);
        }
        let mut lo: usize = 0;
        let mut hi: usize = self.sorted_lib_ranges.len();
        while lo < hi
            invariant
                lo <= hi <= self@.len(),
                sorted_by_start(self@),
                forall|j: int| 0 <= j < lo ==> self@[j].start_avma < start,
                forall|j: int| hi <= j < self@.len() ==> start <= #[trigger] self@[j].start_avma,
            decreases hi - lo,
        {
            let mid: usize = lo + (hi - lo) / 2;
            if self.sorted_lib_ranges[mid].start_avma < start {
                lo = mid + 1;
            } else {
                hi = mid;
            }
        }
        proof {
            lemma_insert_pos_unique(self@, start, lo as int);
        }
        lo
    }

    /// Add a mapping. `start_avma..end_avma` is the occupied address range;
    /// `relative_address_at_start` is the relative address corresponding to
    /// `start_avma`. An existing mapping with the same start address is
    /// replaced: last write wins. Disjointness against other entries is the
    /// caller's responsibility.
    pub fn add_mapping(
        &mut self,
        start_avma: u64,
        end_avma: u64,
        relative_address_at_start: u32,
        value: T,
    )
        requires
            old(self).wf(),
            start_avma < end_avma,
            relative_address_at_start + (end_avma - start_avma) <= 0x1_0000_0000,
        ensures
            final(self).wf(),
            final(self)@ =~= add_spec(
                old(self)@,
                Mapping { start_avma, end_avma, relative_address_at_start, value },
            ),
    {
        let ghost m = Mapping::<T> { start_avma, end_avma, relative_address_at_start, value };
        let ghost s0 = self@;
        let i = self.lower_bound(start_avma);
        let replace = i < self.sorted_lib_ranges.len()
            && self.sorted_lib_ranges[i].start_avma == start_avma;
        if replace {
            self.sorted_lib_ranges.remove(i);
        }
        self.sorted_lib_ranges.insert(
            i,
            Mapping { start_avma, end_avma, relative_address_at_start, value },
        );
        proof {
            if replace {
                assert(self@ =~= s0.update(i as int, m));
            } else {
                assert(self@ =~= s0.subrange(0, i as int).push(m)
                    + s0.subrange(i as int, s0.len() as int));
            }
        }
    }

    /// Remove the mapping that starts at `start_avma`, if any.
    pub fn remove_mapping(&mut self, start_avma: u64)
        requires
            old(self).wf(),
        ensures
            final(self).wf(),
            final(self)@ =~= remove_spec(old(self)@, start_avma),
    {
        let i = self.lower_bound(start_avma);
        if i < self.sorted_lib_ranges.len()
            && self.sorted_lib_ranges[i].start_avma == start_avma {
            self.sorted_lib_ranges.remove(i);
        }
    }

    /// The entry answering for `avma` under the predecessor rule, if any.
    fn lookup(&self, avma: u64) -> (r: Option<usize>)
        requires
            sorted_by_start(self@),
        ensures
            match r {
                Some(i) => i < self@.len() && convert_spec(self@, avma) == Some(i as int),
                None => convert_spec(self@, avma).is_none(),
            },
    {
        let n = self.sorted_lib_ranges.len();
        let i = self.lower_bound(avma);
        proof {
            lemma_convert_spec_via_pred(self@, avma);
        }
        if i == 0 {
            // Every entry starts above `avma` (or the table is empty).
            if n > 0 && self.sorted_lib_ranges[0].start_avma == avma {
                // `lower_bound` stops at an exact match; entry 0 is it.
                if avma < self.sorted_lib_ranges[0].end_avma {
                    return Some(0);
                }
            }
            return None;
        }
        if i < n && self.sorted_lib_ranges[i].start_avma == avma {
            if avma < self.sorted_lib_ranges[i].end_avma {
                return Some(i);
            }
            return None;
        }
        let p = i - 1;
        if avma < self.sorted_lib_ranges[p].end_avma {
            Some(p)
        } else {
            None
        }
    }

    /// Converts an absolute address (AVMA) into a relative address and the
    /// mapping's associated value, under the predecessor rule.
    pub fn convert_address(&self, avma: u64) -> (r: Option<(u32, &T)>)
        requires
            self.wf(),
        ensures
            match r {
                Some((rel, v)) => {
                    &&& convert_spec(self@, avma) is Some
                    &&& {
                        let i = convert_spec(self@, avma)->Some_0;
                        &&& covers(self@[i], avma)
                        &&& rel == relative_address_in(self@[i], avma)
                        &&& *v == self@[i].value
                    }
                },
                None => convert_spec(self@, avma).is_none(),
            },
    {
        proof {
            lemma_convert_spec_covers(self@, avma);
        }
        match self.lookup(avma) {
            Some(i) => {
                let range = &self.sorted_lib_ranges[i];
                let offset_from_mapping_start = (avma - range.start_avma) as u32;
                let relative_address = range.relative_address_at_start + offset_from_mapping_start;
                Some((relative_address, &range.value))
            },
            None => None,
        }
    }
}

/// `insert_pos` is a bound between the entries below `start` and those at or
/// above it.
proof fn lemma_insert_pos_properties<T>(s: Seq<Mapping<T>>, start: u64)
    requires
        sorted_by_start(s),
    ensures
        0 <= insert_pos(s, start) <= s.len(),
        forall|j: int| 0 <= j < insert_pos(s, start) ==> s[j].start_avma < start,
        forall|j: int|
            insert_pos(s, start) <= j < s.len() ==> start <= #[trigger] s[j].start_avma,
    decreases s.len(),
{
    if s.len() != 0 {
        if s[0].start_avma < start {
            lemma_insert_pos_properties(s.skip(1), start);
            assert forall|j: int|
                insert_pos(s, start) <= j < s.len() implies start <= #[trigger] s[j].start_avma by {
                assert(s[j] == s.skip(1)[j - 1]);
            }
            assert forall|j: int| 0 <= j < insert_pos(s, start) implies s[j].start_avma < start by {
                if j > 0 {
                    assert(s[j] == s.skip(1)[j - 1]);
                }
            }
        } else {
            assert forall|j: int| 0 <= j < s.len() implies start <= #[trigger] s[j].start_avma by {
                if j > 0 {
                    assert(s[0].start_avma < s[j].start_avma);
                }
            }
        }
    }
}

/// Any bound with the two properties of `lemma_insert_pos_properties` equals
/// `insert_pos`.
proof fn lemma_insert_pos_unique<T>(s: Seq<Mapping<T>>, start: u64, k: int)
    requires
        sorted_by_start(s),
        0 <= k <= s.len(),
        forall|j: int| 0 <= j < k ==> s[j].start_avma < start,
        forall|j: int| k <= j < s.len() ==> start <= #[trigger] s[j].start_avma,
    ensures
        k == insert_pos(s, start),
{
    lemma_insert_pos_properties(s, start);
    let i = insert_pos(s, start);
    if i < k {
        assert(s[i].start_avma < start);
        assert(start <= s[i].start_avma);
    }
    if k < i {
        assert(s[k].start_avma < start);
        assert(start <= s[k].start_avma);
    }
}

/// Characterizes `convert_spec` through `insert_pos`: the predecessor of
/// `avma` is the entry just below the insertion point of `avma + 1`.
proof fn lemma_convert_spec_via_pred<T>(s: Seq<Mapping<T>>, avma: u64)
    requires
        sorted_by_start(s),
    ensures
        match convert_spec(s, avma) {
            Some(i) => {
                &&& 0 <= i < s.len()
                &&& s[i].start_avma <= avma < s[i].end_avma
                &&& forall|j: int| i < j < s.len() ==> avma < #[trigger] s[j].start_avma
            },
            None => forall|i: int|
                #![trigger s[i]]
                0 <= i < s.len() && s[i].start_avma <= avma
                    && (forall|j: int| i < j < s.len() ==> avma < #[trigger] s[j].start_avma)
                    ==> avma >= s[i].end_avma,
        },
    decreases s.len(),
{
    if s.len() != 0 {
        if s.last().start_avma <= avma {
            let last = s.len() - 1;
            if avma < s.last().end_avma {
            } else {
                assert forall|i: int|
                    #![trigger s[i]]
                    0 <= i < s.len() && s[i].start_avma <= avma
                        && (forall|j: int| i < j < s.len() ==> avma < #[trigger] s[j].start_avma)
                        implies avma >= s[i].end_avma by {
                    if i < last {
                        assert(avma < s[last].start_avma);
                    }
                }
            }
        } else {
            lemma_convert_spec_via_pred(s.drop_last(), avma);
            let s0 = s.drop_last();
            match convert_spec(s0, avma) {
                Some(i) => {
                    assert(s[i] == s0[i]);
                    assert forall|j: int| i < j < s.len() implies avma
                        < #[trigger] s[j].start_avma by {
                        if j < s.len() - 1 {
                            assert(s0[j] == s[j]);
                        } else {
                            assert(s[j] == s.last());
                        }
                    }
                },
                None => {
                    assert forall|i: int|
                        #![trigger s[i]]
                        0 <= i < s.len() && s[i].start_avma <= avma
                            && (forall|j: int| i < j < s.len() ==> avma < #[trigger] s[j].start_avma)
                            implies avma >= s[i].end_avma by {
                        if i < s0.len() {
                            assert(s0[i] == s[i]);
                            assert forall|j: int| i < j < s0.len() implies avma
                                < #[trigger] s0[j].start_avma by {
                                assert(s0[j] == s[j]);
                            }
                        }
                    }
                },
            }
        }
    }
}

/// A successful `convert_spec` names an entry that covers the address.
proof fn lemma_convert_spec_covers<T>(s: Seq<Mapping<T>>, avma: u64)
    ensures
        match convert_spec(s, avma) {
            Some(i) => 0 <= i < s.len() && covers(s[i], avma),
            None => true,
        },
    decreases s.len(),
{
    if s.len() != 0 && s.last().start_avma > avma {
        lemma_convert_spec_covers(s.drop_last(), avma);
        if convert_spec(s.drop_last(), avma) is Some {
            let i = convert_spec(s.drop_last(), avma)->Some_0;
            assert(s.drop_last()[i] == s[i]);
        }
    }
}

/// In a sorted, pairwise-disjoint table, at most one entry covers any
/// address: the entry answering a conversion is unique.
pub proof fn lemma_covering_entry_unique<T>(s: Seq<Mapping<T>>, avma: u64, i: int, j: int)
    requires
        sorted_by_start(s),
        non_overlapping(s),
        0 <= i < s.len(),
        0 <= j < s.len(),
        covers(s[i], avma),
        covers(s[j], avma),
    ensures
        i == j,
{
    if i < j {
        assert(s[i].end_avma <= s[j].start_avma);
    }
    if j < i {
        assert(s[j].end_avma <= s[i].start_avma);
    }
}

/// A successful conversion is answered by an entry that covers the queried
/// address, with the relative address offset from that entry's start; in a
/// disjoint table that entry is unique.
pub proof fn lemma_convert_covering_unique<T>(s: Seq<Mapping<T>>, avma: u64)
    requires
        sorted_by_start(s),
        non_overlapping(s),
        convert_spec(s, avma) is Some,
    ensures
        ({
            let i = convert_spec(s, avma)->Some_0;
            &&& 0 <= i < s.len()
            &&& covers(s[i], avma)
            &&& forall|j: int| 0 <= j < s.len() && j != i ==> !covers(#[trigger] s[j], avma)
        }),
{
    lemma_convert_spec_covers(s, avma);
    let i = convert_spec(s, avma)->Some_0;
    assert forall|j: int| 0 <= j < s.len() && j != i implies !covers(#[trigger] s[j], avma) by {
        if covers(s[j], avma) {
            lemma_covering_entry_unique(s, avma, i, j);
        }
    }
}

/// Adding a mapping and converting its start address yields that mapping's
/// relative address and value: the freshly added entry wins, also when it
/// replaced an entry with the same start.
pub proof fn lemma_add_then_convert_start<T>(s: Seq<Mapping<T>>, m: Mapping<T>)
    requires
        sorted_by_start(s),
        forall|i: int| 0 <= i < s.len() ==> mapping_wf(#[trigger] s[i]),
        mapping_wf(m),
    ensures
        ({
            let s1 = add_spec(s, m);
            let r = convert_spec(s1, m.start_avma);
            &&& r is Some
            &&& s1[r->Some_0] == m
            &&& relative_address_in(s1[r->Some_0], m.start_avma) == m.relative_address_at_start
        }),
{
    lemma_insert_pos_properties(s, m.start_avma);
    let i = insert_pos(s, m.start_avma);
    let s1 = add_spec(s, m);
    assert(s1[i] == m);
    lemma_add_preserves_sorted(s, m);
    lemma_convert_spec_via_pred(s1, m.start_avma);
    lemma_convert_spec_covers(s1, m.start_avma);
    assert forall|j: int| i < j < s1.len() implies m.start_avma
        < #[trigger] s1[j].start_avma by {
        if i < s.len() && s[i].start_avma == m.start_avma {
            assert(s1[j] == s[j]);
        } else {
            assert(s1[j] == s[j - 1]);
        }
    }
    match convert_spec(s1, m.start_avma) {
        Some(k) => {
            // `k` and `i` are both predecessors of `m.start_avma` in `s1`.
            if k < i {
                assert(m.start_avma < s1[i].start_avma);
            }
            if i < k {
                assert(m.start_avma < s1[k].start_avma);
            }
        },
        None => {
            assert(s1[i].start_avma <= m.start_avma < s1[i].end_avma);
        },
    }
}

/// `add_spec` keeps the table sorted and well formed.
pub proof fn lemma_add_preserves_sorted<T>(s: Seq<Mapping<T>>, m: Mapping<T>)
    requires
        sorted_by_start(s),
        forall|i: int| 0 <= i < s.len() ==> mapping_wf(#[trigger] s[i]),
        mapping_wf(m),
    ensures
        sorted_by_start(add_spec(s, m)),
        forall|i: int| 0 <= i < add_spec(s, m).len() ==> mapping_wf(#[trigger] add_spec(s, m)[i]),
{
    lemma_insert_pos_properties(s, m.start_avma);
    let i = insert_pos(s, m.start_avma);
    let s1 = add_spec(s, m);
    if i < s.len() && s[i].start_avma == m.start_avma {
        assert forall|p: int, q: int| 0 <= p < q < s1.len() implies s1[p].start_avma
            < s1[q].start_avma by {
            if p != i && q != i {
                assert(s1[p] == s[p] && s1[q] == s[q]);
            } else if p == i {
                assert(s1[q] == s[q]);
            } else {
                assert(s1[p] == s[p]);
            }
        }
        assert forall|k: int| 0 <= k < s1.len() implies mapping_wf(#[trigger] s1[k]) by {
            if k != i {
                assert(s1[k] == s[k]);
            }
        }
    } else {
        assert forall|p: int, q: int| 0 <= p < q < s1.len() implies s1[p].start_avma
            < s1[q].start_avma by {
            assert(p < i ==> s1[p] == s[p]);
            assert(p > i ==> s1[p] == s[p - 1]);
            assert(q < i ==> s1[q] == s[q]);
            assert(q > i ==> s1[q] == s[q - 1]);
            if q == i {
                assert(s1[q] == m);
            }
            if p == i {
                assert(s1[p] == m);
                assert(m.start_avma <= s[q - 1].start_avma);
                assert(s[q - 1].start_avma != m.start_avma);
            }
        }
        assert forall|k: int| 0 <= k < s1.len() implies mapping_wf(#[trigger] s1[k]) by {
            if k < i {
                assert(s1[k] == s[k]);
            } else if k > i {
                assert(s1[k] == s[k - 1]);
            }
        }
    }
}

/// If no entry covers `avma`, conversion returns nothing. In particular a
/// query at an entry's `end_avma` is not answered by that entry: the end is
/// exclusive.
pub proof fn lemma_convert_none_when_uncovered<T>(s: Seq<Mapping<T>>, avma: u64)
    requires
        sorted_by_start(s),
        forall|i: int| 0 <= i < s.len() ==> !covers(#[trigger] s[i], avma),
    ensures
        convert_spec(s, avma).is_none(),
{
    lemma_convert_spec_covers(s, avma);
    if convert_spec(s, avma) is Some {
        let i = convert_spec(s, avma)->Some_0;
        assert(!covers(s[i], avma));
    }
}

/// A query at the exclusive end of an entry is never answered by that entry.
pub proof fn lemma_end_exclusive<T>(s: Seq<Mapping<T>>, k: int)
    requires
        sorted_by_start(s),
        0 <= k < s.len(),
        convert_spec(s, s[k].end_avma) is Some,
    ensures
        convert_spec(s, s[k].end_avma)->Some_0 != k,
{
    lemma_convert_spec_covers(s, s[k].end_avma);
}

/// A query below the smallest start address returns nothing.
pub proof fn lemma_below_first_is_none<T>(s: Seq<Mapping<T>>, avma: u64)
    requires
        sorted_by_start(s),
        forall|i: int| 0 <= i < s.len() ==> avma < #[trigger] s[i].start_avma,
    ensures
        convert_spec(s, avma).is_none(),
{
    lemma_convert_spec_covers(s, avma);
    if convert_spec(s, avma) is Some {
        let i = convert_spec(s, avma)->Some_0;
        assert(covers(s[i], avma));
    }
}

} // verus!
