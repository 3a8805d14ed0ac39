//! Indexed symbol map: an immutable, address-sorted table of symbols with
//! optional debug frames, answering relative-address lookups. All strings a
//! lookup hands out as handles are interned in the map's own interner, tagged
//! with the map's generation.

use crate::debug_id::DebugId;
use crate::interner::{
    resolve_spec, FunctionNameHandle, SourceFilePathHandle, SymbolMapGeneration,
    SymbolMapStringHandle, SymbolMapStringInterner,
};
use crate::shared::{
    mapped_path_spec, AddressInfo, ExternalFileAddressInFileRef, ExternalFileAddressRef,
    ExternalFileRef, FilePath, FrameDebugInfo, FramesLookupResult, InlineStackFrame, SymbolInfo,
    FileLocation,
};
use vstd::prelude::*;

verus! {

/// Where the debug frames of one symbol come from.
#[derive(Debug)]
pub enum FramesSource {
    /// No debug info for this symbol.
    Unavailable,
    /// Inline stack, ordered innermost-inlined first, outermost last.
    /// Must be non-empty.
    Inline(Vec<InlineStackFrame>),
    /// The debug info lives in an external object file named by an OSO
    /// record; lookups return a reference instead of frames.
    External { file_name: String, name_in_archive: Option<String>, symbol_name: Vec<u8> },
}

/// One symbol: relative address, optional size, demangled name, and the
/// source of its debug frames.
#[derive(Debug)]
pub struct SymbolRecord {
    pub address: u32,
    pub size: Option<u32>,
    pub name: String,
    pub frames: FramesSource,
}

/// Records strictly sorted by address.
pub open spec fn sym_sorted(rs: Seq<SymbolRecord>) -> bool {
    forall|i: int, j: int| 0 <= i < j < rs.len() ==> rs[i].address < rs[j].address
}

/// The queried address falls inside the record: at or past its address and,
/// when the record declares a size, before its end. A record without a size
/// is open-ended.
pub open spec fn sym_within(rec: SymbolRecord, address: u32) -> bool {
    &&& rec.address <= address
    &&& match rec.size {
        Some(sz) => address < rec.address + sz,
        None => true,
    }
}

/// The lookup rule: the record with the largest address at most the query
/// answers, unless its declared size excludes the query.
pub open spec fn lookup_sym_spec(rs: Seq<SymbolRecord>, address: u32) -> Option<int>
    decreases rs.len(),
{
    if rs.len() == 0 {
        None
    } else if rs.last().address <= address {
        if sym_within(rs.last(), address) {
            Some(rs.len() - 1)
        } else {
            None
        }
    } else {
        lookup_sym_spec(rs.drop_last(), address)
    }
}

/// Untyped form of a function-name handle.
pub open spec fn fn_handle_untyped(h: FunctionNameHandle) -> SymbolMapStringHandle {
    SymbolMapStringHandle { generation: h.generation, index: h.index }
}

/// Untyped form of a source-file-path handle.
pub open spec fn path_handle_untyped(h: SourceFilePathHandle) -> SymbolMapStringHandle {
    SymbolMapStringHandle { generation: h.generation, index: h.index }
}

/// The handle frame `fh` stands for the string frame `rf` under the given
/// interner state: same line number, and each handle resolves to the
/// corresponding string (the file path in its mapped form).
pub open spec fn frame_resolves(
    generation: SymbolMapGeneration,
    borrowed: Seq<Seq<char>>,
    owned: Seq<Seq<char>>,
    fh: FrameDebugInfo,
    rf: InlineStackFrame,
) -> bool {
    &&& fh.line_number == rf.line_number
    &&& match (fh.function, rf.function) {
        (Some(h), Some(name)) => resolve_spec(generation, borrowed, owned, fn_handle_untyped(h))
            == Some(name@),
        (None, None) => true,
        _ => false,
    }
    &&& match (fh.file_path, rf.file_path) {
        (Some(h), Some(p)) => resolve_spec(generation, borrowed, owned, path_handle_untyped(h))
            == Some(mapped_path_spec(p)),
        (None, None) => true,
        _ => false,
    }
}

/// Frame-by-frame correspondence of a handle stack with a string stack.
pub open spec fn frames_resolve(
    generation: SymbolMapGeneration,
    borrowed: Seq<Seq<char>>,
    owned: Seq<Seq<char>>,
    fhs: Seq<FrameDebugInfo>,
    rfs: Seq<InlineStackFrame>,
) -> bool {
    &&& fhs.len() == rfs.len()
    &&& forall|i: int| 0 <= i < fhs.len() ==> frame_resolves(
        generation,
        borrowed,
        owned,
        #[trigger] fhs[i],
        rfs[i],
    )
}

/// Number of intern calls that building handle frames for `rec` makes.
pub open spec fn record_intern_cost(rec: SymbolRecord) -> int {
    match rec.frames {
        FramesSource::Inline(v) => 2 * v@.len() as int,
        _ => 0,
    }
}

/// Total intern calls for the records from position `j` on.
pub open spec fn intern_budget_from(rs: Seq<SymbolRecord>, j: int) -> int
    decreases rs.len() - j,
{
    if j < 0 || j >= rs.len() {
        0
    } else {
        record_intern_cost(rs[j]) + intern_budget_from(rs, j + 1)
    }
}

proof fn lemma_intern_budget_nonneg(rs: Seq<SymbolRecord>, j: int)
    ensures
        intern_budget_from(rs, j) >= 0,
    decreases rs.len() - j,
{
    if 0 <= j < rs.len() {
        lemma_intern_budget_nonneg(rs, j + 1);
    }
}

/// A prefix of a prefix is a prefix.
proof fn lemma_prefix_trans<A>(a: Seq<A>, b: Seq<A>, c: Seq<A>)
    requires
        a.len() <= b.len() <= c.len(),
        a =~= b.subrange(0, a.len() as int),
        b =~= c.subrange(0, b.len() as int),
    ensures
        a =~= c.subrange(0, a.len() as int),
{
    assert forall|i: int| 0 <= i < a.len() implies a[i] == c.subrange(0, a.len() as int)[i] by {
        assert(a[i] == b[i]);
        assert(b[i] == c[i]);
    }
}

/// A resolving frame keeps resolving when the interner pools grow at the
/// end.
proof fn lemma_frame_resolves_stable(
    generation: SymbolMapGeneration,
    borrowed: Seq<Seq<char>>,
    owned: Seq<Seq<char>>,
    grown_borrowed: Seq<Seq<char>>,
    grown_owned: Seq<Seq<char>>,
    fh: FrameDebugInfo,
    rf: InlineStackFrame,
)
    requires
        frame_resolves(generation, borrowed, owned, fh, rf),
        borrowed =~= grown_borrowed.subrange(0, borrowed.len() as int),
        owned =~= grown_owned.subrange(0, owned.len() as int),
        borrowed.len() <= grown_borrowed.len(),
        owned.len() <= grown_owned.len(),
    ensures
        frame_resolves(generation, grown_borrowed, grown_owned, fh, rf),
{
    match (fh.function, rf.function) {
        (Some(h), Some(name)) => {
            crate::interner::lemma_resolve_stable_under_growth(
                generation,
                borrowed,
                owned,
                grown_borrowed,
                grown_owned,
                fn_handle_untyped(h),
            );
        },
        _ => {},
    }
    match (fh.file_path, rf.file_path) {
        (Some(h), Some(p)) => {
            crate::interner::lemma_resolve_stable_under_growth(
                generation,
                borrowed,
                owned,
                grown_borrowed,
                grown_owned,
                path_handle_untyped(h),
            );
        },
        _ => {},
    }
}

/// Interns one string frame, producing its handle frame.
fn intern_one_frame(
    it: &mut SymbolMapStringInterner,
    rf: &InlineStackFrame,
) -> (fh: FrameDebugInfo)
    requires
        old(it).room(),
        old(it).borrowed().len() + 2 < 0x4000_0000,
        old(it).owned().len() + 2 < 0x4000_0000,
    ensures
        final(it).generation() == old(it).generation(),
        old(it).borrowed() =~= final(it).borrowed().subrange(
            0,
            old(it).borrowed().len() as int,
        ),
        old(it).owned() =~= final(it).owned().subrange(0, old(it).owned().len() as int),
        old(it).borrowed().len() <= final(it).borrowed().len() <= old(it).borrowed().len() + 1,
        old(it).owned().len() <= final(it).owned().len() <= old(it).owned().len() + 1,
        frame_resolves(
            final(it).generation(),
            final(it).borrowed(),
            final(it).owned(),
            fh,
            *rf,
        ),
{
    let ghost b0 = it.borrowed();
    let ghost o0 = it.owned();
    let function = match &rf.function {
        Some(name) => {
            let h = it.intern_owned(name.as_str());
            Some(FunctionNameHandle { generation: h.generation, index: h.index })
        },
        None => None,
    };
    let ghost b1 = it.borrowed();
    let ghost o1 = it.owned();
    let file_path = match &rf.file_path {
        Some(p) => {
            let mapped = p.mapped_path();
            let h = it.intern(mapped.as_str());
            Some(SourceFilePathHandle { generation: h.generation, index: h.index })
        },
        None => None,
    };
    proof {
        assert(b1 =~= it.borrowed().subrange(0, b1.len() as int));
        assert(o1 =~= it.owned().subrange(0, o1.len() as int));
        match (function, &rf.function) {
            (Some(h), Some(name)) => {
                crate::interner::lemma_resolve_stable_under_growth(
                    it.generation(),
                    b1,
                    o1,
                    it.borrowed(),
                    it.owned(),
                    fn_handle_untyped(h),
                );
            },
            _ => {},
        }
        lemma_prefix_trans(b0, b1, it.borrowed());
        lemma_prefix_trans(o0, o1, it.owned());
    }
    FrameDebugInfo { function, file_path, line_number: rf.line_number }
}

/// Interns a whole inline stack, producing the parallel handle stack.
fn intern_frames(
    it: &mut SymbolMapStringInterner,
    rfs: &Vec<InlineStackFrame>,
) -> (fhs: Vec<FrameDebugInfo>)
    requires
        old(it).borrowed().len() + 2 * rfs@.len() + 2 < 0x4000_0000,
        old(it).owned().len() + 2 * rfs@.len() + 2 < 0x4000_0000,
    ensures
        final(it).generation() == old(it).generation(),
        old(it).borrowed() =~= final(it).borrowed().subrange(
            0,
            old(it).borrowed().len() as int,
        ),
        old(it).owned() =~= final(it).owned().subrange(0, old(it).owned().len() as int),
        old(it).borrowed().len() <= final(it).borrowed().len() <= old(it).borrowed().len() + 2
            * rfs@.len(),
        old(it).owned().len() <= final(it).owned().len() <= old(it).owned().len() + 2
            * rfs@.len(),
        frames_resolve(
            final(it).generation(),
            final(it).borrowed(),
            final(it).owned(),
            fhs@,
            rfs@,
        ),
{
    let ghost b0 = it.borrowed();
    let ghost o0 = it.owned();
    let mut fhs: Vec<FrameDebugInfo> = Vec::new();
    let n = rfs.len();
    let mut k: usize = 0;
    while k < n
        invariant
            k <= n == rfs@.len(),
            fhs@.len() == k,
            it.generation() == old(it).generation(),
            b0 =~= it.borrowed().subrange(0, b0.len() as int),
            o0 =~= it.owned().subrange(0, o0.len() as int),
            b0.len() <= it.borrowed().len() <= b0.len() + 2 * k,
            o0.len() <= it.owned().len() <= o0.len() + 2 * k,
            b0.len() + 2 * rfs@.len() + 2 < 0x4000_0000,
            o0.len() + 2 * rfs@.len() + 2 < 0x4000_0000,
            forall|m: int| 0 <= m < k ==> frame_resolves(
                it.generation(),
                it.borrowed(),
                it.owned(),
                #[trigger] fhs@[m],
                rfs@[m],
            ),
        decreases n - k,
    {
        let ghost bp = it.borrowed();
        let ghost op = it.owned();
        let fh = intern_one_frame(it, &rfs[k]);
        proof {
            assert forall|m: int| 0 <= m < k implies frame_resolves(
                it.generation(),
                it.borrowed(),
                it.owned(),
                #[trigger] fhs@[m],
                rfs@[m],
            ) by {
                lemma_frame_resolves_stable(
                    it.generation(),
                    bp,
                    op,
                    it.borrowed(),
                    it.owned(),
                    fhs@[m],
                    rfs@[m],
                );
            }
            lemma_prefix_trans(b0, bp, it.borrowed());
            lemma_prefix_trans(o0, op, it.owned());
        }
        fhs.push(fh);
        k += 1;
    }
    fhs
}

/// Immutable, indexed symbol map for one binary.
#[derive(Debug)]
pub struct SymbolMap {
    debug_file_location: FileLocation,
    debug_id: DebugId,
    records: Vec<SymbolRecord>,
    frame_handles: Vec<Option<Vec<FrameDebugInfo>>>,
    interner: SymbolMapStringInterner,
}

impl SymbolMap {
    /// The symbol records, sorted by address.
    pub closed spec fn records(&self) -> Seq<SymbolRecord> {
        self.records@
    }

    /// The generation tagging this map's handles.
    pub closed spec fn generation(&self) -> SymbolMapGeneration {
        self.interner.generation()
    }

    /// The interner's borrowed pool.
    pub closed spec fn borrowed(&self) -> Seq<Seq<char>> {
        self.interner.borrowed()
    }

    /// The interner's owned pool.
    pub closed spec fn owned(&self) -> Seq<Seq<char>> {
        self.interner.owned()
    }

    /// The id this map was parsed from.
    pub closed spec fn debug_id_spec(&self) -> DebugId {
        self.debug_id
    }

    /// Map invariant: sorted records, non-empty inline stacks, and a handle
    /// stack for exactly the records with inline frames, resolving to their
    /// strings.
    pub closed spec fn wf(&self) -> bool {
        &&& sym_sorted(self.records@)
        &&& self.frame_handles@.len() == self.records@.len()
        &&& forall|j: int| 0 <= j < self.records@.len() ==> match #[trigger] self.records@[j].frames {
            FramesSource::Inline(rf) => {
                &&& rf@.len() >= 1
                &&& self.frame_handles@[j] is Some
                &&& frames_resolve(
                    self.generation(),
                    self.borrowed(),
                    self.owned(),
                    self.frame_handles@[j]->Some_0@,
                    rf@,
                )
            },
            _ => self.frame_handles@[j] is None,
        }
    }

    /// Builds a symbol map from sorted records, interning every string the
    /// inline frames mention.
    pub fn new(
        debug_file_location: FileLocation,
        debug_id: DebugId,
        generation: SymbolMapGeneration,
        records: Vec<SymbolRecord>,
    ) -> (r: SymbolMap)
        requires
            sym_sorted(records@),
            forall|j: int| 0 <= j < records@.len() ==> match #[trigger] records@[j].frames {
                FramesSource::Inline(rf) => rf@.len() >= 1,
                _ => true,
            },
            intern_budget_from(records@, 0) + 2 < 0x4000_0000,
        ensures
            r.wf(),
            r.records() == records@,
            r.debug_id_spec() == debug_id,
            r.generation() == generation,
    {
        let mut interner = SymbolMapStringInterner::new(generation);
        let mut frame_handles: Vec<Option<Vec<FrameDebugInfo>>> = Vec::new();
        let n = records.len();
        let mut j: usize = 0;
        while j < n
            invariant
                j <= n == records@.len(),
                frame_handles@.len() == j,
                interner.generation() == generation,
                interner.borrowed().len() <= intern_budget_from(records@, 0)
                    - intern_budget_from(records@, j as int),
                interner.owned().len() <= intern_budget_from(records@, 0) - intern_budget_from(
                    records@,
                    j as int,
                ),
                intern_budget_from(records@, 0) + 2 < 0x4000_0000,
                forall|j2: int| 0 <= j2 < records@.len() ==> match #[trigger] records@[j2].frames {
                    FramesSource::Inline(rf) => rf@.len() >= 1,
                    _ => true,
                },
                forall|m: int| 0 <= m < j ==> match #[trigger] records@[m].frames {
                    FramesSource::Inline(rf) => {
                        &&& frame_handles@[m] is Some
                        &&& frames_resolve(
                            generation,
                            interner.borrowed(),
                            interner.owned(),
                            frame_handles@[m]->Some_0@,
                            rf@,
                        )
                    },
                    _ => frame_handles@[m] is None,
                },
            decreases n - j,
    {
        proof {
            lemma_intern_budget_nonneg(records@, j as int + 1);
            lemma_intern_budget_nonneg(records@, j as int);
        }
        let ghost bp = interner.borrowed();
        let ghost op = interner.owned();
        let entry = match &records[j].frames {
            FramesSource::Inline(rfs) => {
                let fhs = intern_frames(&mut interner, rfs);
                Some(fhs)
            },
            _ => None,
        };
        proof {
            assert forall|m: int| 0 <= m < j implies match #[trigger] records@[m].frames {
                FramesSource::Inline(rf) => {
                    &&& frame_handles@[m] is Some
                    &&& frames_resolve(
                        generation,
                        interner.borrowed(),
                        interner.owned(),
                        frame_handles@[m]->Some_0@,
                        rf@,
                    )
                },
                _ => frame_handles@[m] is None,
            } by {
                match records@[m].frames {
                    FramesSource::Inline(rf) => {
                        let fhs0 = frame_handles@[m]->Some_0@;
                        assert forall|i: int| 0 <= i < fhs0.len() implies frame_resolves(
                            generation,
                            interner.borrowed(),
                            interner.owned(),
                            #[trigger] fhs0[i],
                            rf@[i],
                        ) by {
                            lemma_frame_resolves_stable(
                                generation,
                                bp,
                                op,
                                interner.borrowed(),
                                interner.owned(),
                                fhs0[i],
                                rf@[i],
                            );
                        }
                    },
                    _ => {},
                }
            }
        }
        frame_handles.push(entry);
        j += 1;
    }
        SymbolMap { debug_file_location, debug_id, records, frame_handles, interner }
    }

    /// The location the map's debug file was loaded from.
    pub fn debug_file_location(&self) -> &FileLocation {
        &self.debug_file_location
    }

    /// The id of the binary this map describes.
    pub fn debug_id(&self) -> (r: DebugId)
        ensures
            r == self.debug_id_spec(),
    {
        self.debug_id
    }

    /// Number of symbols in the map.
    pub fn symbol_count(&self) -> (r: usize)
        ensures
            r == self.records().len(),
    {
        self.records.len()
    }

    /// The map's records are strictly sorted by address: the order behind
    /// the lookup rule, available to users of the closed invariant.
    pub proof fn lemma_records_sorted(&self)
        requires
            self.wf(),
        ensures
            sym_sorted(self.records()),
    {
    }

    /// All `(address, name)` pairs, in strictly increasing address order.
    pub fn iter_symbols(&self) -> (r: Vec<(u32, String)>)
        requires
            self.wf(),
        ensures
            r@.len() == self.records().len(),
            forall|i: int| 0 <= i < r@.len() ==> (#[trigger] r@[i]).0 == self.records()[i].address
                && r@[i].1@ == self.records()[i].name@,
            forall|i: int, j: int| 0 <= i < j < r@.len() ==> r@[i].0 < r@[j].0,
    {
        let mut out: Vec<(u32, String)> = Vec::new();
        let n = self.records.len();
        let mut i: usize = 0;
        while i < n
            invariant
                i <= n == self.records@.len(),
                out@.len() == i,
                forall|k: int| 0 <= k < i ==> (#[trigger] out@[k]).0 == self.records@[k].address
                    && out@[k].1@ == self.records@[k].name@,
            decreases n - i,
        {
            let rec = &self.records[i];
            out.push((rec.address, rec.name.clone()));
            i += 1;
        }
        out
    }

    /// Index of the first record whose address exceeds `address`.
    fn upper_bound(&self, address: u32) -> (r: usize)
        requires
            sym_sorted(self.records@),
        ensures
            r <= self.records@.len(),
            forall|j: int| 0 <= j < r ==> (#[trigger] self.records@[j]).address <= address,
            forall|j: int| r <= j < self.records@.len() ==> (#[trigger] self.records@[j]).address
                > address,
    {
        let mut lo: usize = 0;
        let mut hi: usize = self.records.len();
        while lo < hi
            invariant
                lo <= hi <= self.records@.len(),
                sym_sorted(self.records@),
                forall|j: int| 0 <= j < lo ==> (#[trigger] self.records@[j]).address <= address,
                forall|j: int| hi <= j < self.records@.len() ==> (
                #[trigger] self.records@[j]).address > address,
            decreases hi - lo,
        {
            let mid: usize = lo + (hi - lo) / 2;
            if self.records[mid].address <= address {
                proof {
                    assert forall|j: int| 0 <= j < mid + 1 implies (
                    #[trigger] self.records@[j]).address <= address by {
                        if j < mid {
                            assert(self.records@[j].address < self.records@[mid as int].address);
                        }
                    }
                }
                lo = mid + 1;
            } else {
                proof {
                    assert forall|j: int| mid <= j < self.records@.len() implies (
                    #[trigger] self.records@[j]).address > address by {
                        if j > mid {
                            assert(self.records@[mid as int].address < self.records@[j].address);
                        }
                    }
                }
                hi = mid;
            }
        }
        lo
    }

    /// Looks up the symbol covering a relative address. The symbol with the
    /// largest address at most the query answers; a declared size excludes
    /// addresses past the symbol's end. The frames are handle stacks interned
    /// in this map, an external reference carrying the offset from the
    /// symbol's start, or unavailable.
    pub fn lookup(&self, address: u32) -> (r: Option<AddressInfo>)
        requires
            self.wf(),
        ensures
            match r {
                Some(info) => {
                    &&& lookup_sym_spec(self.records(), address) is Some
                    &&& {
                        let i = lookup_sym_spec(self.records(), address)->Some_0;
                        let rec = self.records()[i];
                        &&& info.symbol.address == rec.address
                        &&& info.symbol.size == rec.size
                        &&& info.symbol.name@ == rec.name@
                        &&& sym_within(rec, address)
                        &&& match rec.frames {
                            FramesSource::Inline(rf) => info.frames matches
                                FramesLookupResult::Available(fhs) && frames_resolve(
                                self.generation(),
                                self.borrowed(),
                                self.owned(),
                                fhs@,
                                rf@,
                            ),
                            FramesSource::External { file_name, name_in_archive, symbol_name } => {
                                &&& info.frames matches FramesLookupResult::External(ext)
                                &&& {
                                    let ext = info.frames->External_0;
                                    &&& ext.file_ref.file_name@ == file_name@
                                    &&& ext.address_in_file.symbol_name@ == symbol_name@
                                    &&& match (ext.address_in_file.name_in_archive, name_in_archive) {
                                        (Some(a), Some(b)) => a@ == b@,
                                        (None, None) => true,
                                        _ => false,
                                    }
                                    &&& ext.address_in_file.offset_from_symbol == address
                                        - rec.address
                                }
                            },
                            FramesSource::Unavailable => info.frames is Unavailable,
                        }
                    }
                },
                None => lookup_sym_spec(self.records(), address).is_none(),
            },
    {
        proof {
            lemma_lookup_sym_spec_pred(self.records@, address);
        }
        let ub = self.upper_bound(address);
        if ub == 0 {
            return None;
        }
        let i = ub - 1;
        let rec = &self.records[i];
        if let Some(sz) = rec.size {
            if address - rec.address >= sz {
                return None;
            }
        }
        let symbol = SymbolInfo { address: rec.address, size: rec.size, name: rec.name.clone() };
        let frames = match &rec.frames {
            FramesSource::Inline(_) => {
                let fhs = match &self.frame_handles[i] {
                    Some(fhs) => copy_frames(fhs),
                    None => vstd::pervasive::unreached(),
                };
                FramesLookupResult::Available(fhs)
            },
            FramesSource::External { file_name, name_in_archive, symbol_name } => {
                let arch = match name_in_archive {
                    Some(a) => Some(a.clone()),
                    None => None,
                };
                FramesLookupResult::External(
                    ExternalFileAddressRef {
                        file_ref: ExternalFileRef { file_name: file_name.clone() },
                        address_in_file: ExternalFileAddressInFileRef {
                            name_in_archive: arch,
                            symbol_name: copy_byte_string(symbol_name),
                            offset_from_symbol: address - rec.address,
                        },
                    },
                )
            },
            FramesSource::Unavailable => FramesLookupResult::Unavailable,
        };
        Some(AddressInfo { symbol, frames })
    }

    /// Resolves a function-name handle issued by this map's lookups; a
    /// handle from another map is refused.
    pub fn resolve_function_name(&self, handle: FunctionNameHandle) -> (r: Option<String>)
        ensures
            match r {
                Some(s) => resolve_spec(
                    self.generation(),
                    self.borrowed(),
                    self.owned(),
                    fn_handle_untyped(handle),
                ) == Some(s@),
                None => resolve_spec(
                    self.generation(),
                    self.borrowed(),
                    self.owned(),
                    fn_handle_untyped(handle),
                ).is_none(),
            },
            handle.generation != self.generation() ==> r.is_none(),
    {
        self.interner.resolve(
            SymbolMapStringHandle { generation: handle.generation, index: handle.index },
        )
    }

    /// Resolves a source-file-path handle issued by this map's lookups; a
    /// handle from another map is refused.
    pub fn resolve_source_file_path(&self, handle: SourceFilePathHandle) -> (r: Option<String>)
        ensures
            match r {
                Some(s) => resolve_spec(
                    self.generation(),
                    self.borrowed(),
                    self.owned(),
                    path_handle_untyped(handle),
                ) == Some(s@),
                None => resolve_spec(
                    self.generation(),
                    self.borrowed(),
                    self.owned(),
                    path_handle_untyped(handle),
                ).is_none(),
            },
            handle.generation != self.generation() ==> r.is_none(),
    {
        self.interner.resolve(
            SymbolMapStringHandle { generation: handle.generation, index: handle.index },
        )
    }
}

/// Copies a handle-frame stack (the frames are plain copyable values).
fn copy_frames(v: &Vec<FrameDebugInfo>) -> (r: Vec<FrameDebugInfo>)
    ensures
        r@ =~= v@,
{
    let mut out: Vec<FrameDebugInfo> = Vec::new();
    let n = v.len();
    let mut i: usize = 0;
    while i < n
        invariant
            i <= n == v@.len(),
            out@ =~= v@.subrange(0, i as int),
        decreases n - i,
    {
        out.push(v[i]);
        i += 1;
    }
    out
}

/// Copies a byte string.
pub fn copy_byte_string(v: &Vec<u8>) -> (r: Vec<u8>)
    ensures
        r@ =~= v@,
{
    let mut out: Vec<u8> = Vec::new();
    let n = v.len();
    let mut i: usize = 0;
    while i < n
        invariant
            i <= n == v@.len(),
            out@ =~= v@.subrange(0, i as int),
        decreases n - i,
    {
        out.push(v[i]);
        i += 1;
    }
    out
}

/// Characterizes the lookup rule: a hit is the predecessor record and covers
/// the query; a miss means the predecessor, if any, excludes it.
proof fn lemma_lookup_sym_spec_pred(rs: Seq<SymbolRecord>, address: u32)
    requires
        sym_sorted(rs),
    ensures
        match lookup_sym_spec(rs, address) {
            Some(i) => {
                &&& 0 <= i < rs.len()
                &&& sym_within(rs[i], address)
                &&& forall|j: int| i < j < rs.len() ==> address < (#[trigger] rs[j]).address
            },
            None => forall|i: int|
                #![trigger rs[i]]
                0 <= i < rs.len() && rs[i].address <= address
                    && (forall|j: int| i < j < rs.len() ==> address < (#[trigger] rs[j]).address)
                    ==> !sym_within(rs[i], address),
        },
    decreases rs.len(),
{
    if rs.len() != 0 {
        let last = rs.len() - 1;
        if rs.last().address <= address {
            if sym_within(rs.last(), address) {
            } else {
                assert forall|i: int|
                    #![trigger rs[i]]
                    0 <= i < rs.len() && rs[i].address <= address
                        && (forall|j: int| i < j < rs.len() ==> address < (
                        #[trigger] rs[j]).address)
                        implies !sym_within(rs[i], address) by {
                    if i < last {
                        assert(address < rs[last].address);
                    }
                }
            }
        } else {
            lemma_lookup_sym_spec_pred(rs.drop_last(), address);
            let s0 = rs.drop_last();
            match lookup_sym_spec(s0, address) {
                Some(i) => {
                    assert(rs[i] == s0[i]);
                    assert forall|j: int| i < j < rs.len() implies address < (
                    #[trigger] rs[j]).address by {
                        if j < last {
                            assert(s0[j] == rs[j]);
                        } else {
                            assert(rs[j] == rs.last());
                        }
                    }
                },
                None => {
                    assert forall|i: int|
                        #![trigger rs[i]]
                        0 <= i < rs.len() && rs[i].address <= address
                            && (forall|j: int| i < j < rs.len() ==> address < (
                            #[trigger] rs[j]).address)
                            implies !sym_within(rs[i], address) by {
                        if i < s0.len() {
                            assert(s0[i] == rs[i]);
                            assert forall|j: int| i < j < s0.len() implies address < (
                            #[trigger] s0[j]).address by {
                                assert(s0[j] == rs[j]);
                            }
                        }
                    }
                },
            }
        }
    }
}

/// A hit of the lookup rule always covers the queried address; with a
/// declared size this bounds the query inside the symbol.
pub proof fn lemma_lookup_within(rs: Seq<SymbolRecord>, address: u32)
    ensures
        match lookup_sym_spec(rs, address) {
            Some(i) => 0 <= i < rs.len() && sym_within(rs[i], address),
            None => true,
        },
    decreases rs.len(),
{
    if rs.len() != 0 && rs.last().address > address {
        lemma_lookup_within(rs.drop_last(), address);
        if lookup_sym_spec(rs.drop_last(), address) is Some {
            let i = lookup_sym_spec(rs.drop_last(), address)->Some_0;
            assert(rs.drop_last()[i] == rs[i]);
        }
    }
}

} // verus!
