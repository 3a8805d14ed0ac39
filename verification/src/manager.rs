//! The symbol manager: walks host-supplied candidate paths, classifies files
//! by their magic bytes, parses the formats this build supports, and keeps a
//! single-slot cache of the most recently used external debug file.

use crate::breakpad::{is_breakpad_file, parse_breakpad_sym};
use crate::debug_id::{CodeId, DebugId};
use crate::error::{Error, FileKind};
use crate::interner::SymbolMapGeneration;
use crate::shared::{
    CandidatePathInfo, ExternalFileAddressInFileRef, ExternalFileAddressRef, ExternalFileRef,
    FileLocation, FilePath, InlineStackFrame,
};
use crate::symbol_map::SymbolMap;
use vstd::prelude::*;
use vstd::string::StringSliceAdditionalSpecFns;

verus! {

/// The host side of the pipeline: produces candidate paths for an
/// identified binary and opens files. Implemented by the embedder; nothing
/// is assumed of its answers.
pub trait FileAndPathHelper {
    /// Candidate paths that may hold symbol data for the debug identity.
    fn get_candidate_paths_for_debug_file(&self, debug_name: &str, debug_id: DebugId) -> Result<
        Vec<CandidatePathInfo>,
        String,
    >;

    /// Candidate paths that may hold the binary itself.
    fn get_candidate_paths_for_binary(
        &self,
        debug_name: Option<&str>,
        debug_id: Option<DebugId>,
        name: Option<&str>,
        code_id: Option<&CodeId>,
    ) -> Result<Vec<CandidatePathInfo>, String>;

    /// Opens a file and returns its full contents.
    fn open_file(&self, location: &FileLocation) -> Result<Vec<u8>, String>;
}

/// The magic-byte rule used to classify a file.
pub open spec fn classify_spec(b: Seq<u8>) -> FileKind {
    if b.len() >= 5 && b[0] == 0x7f && b[1] == 69 && b[2] == 76 && b[3] == 70 {
        if b[4] == 1 {
            FileKind::Elf32
        } else if b[4] == 2 {
            FileKind::Elf64
        } else {
            FileKind::Unknown
        }
    } else if b.len() >= 4 && b[0] == 0xfe && b[1] == 0xed && b[2] == 0xfa && b[3] == 0xce {
        FileKind::MachO32
    } else if b.len() >= 4 && b[0] == 0xfe && b[1] == 0xed && b[2] == 0xfa && b[3] == 0xcf {
        FileKind::MachO64
    } else if b.len() >= 4 && b[0] == 0xce && b[1] == 0xfa && b[2] == 0xed && b[3] == 0xfe {
        FileKind::MachO32
    } else if b.len() >= 4 && b[0] == 0xcf && b[1] == 0xfa && b[2] == 0xed && b[3] == 0xfe {
        FileKind::MachO64
    } else if b.len() >= 4 && b[0] == 0xca && b[1] == 0xfe && b[2] == 0xba && b[3] == 0xbe {
        FileKind::MachOFat32
    } else if b.len() >= 4 && b[0] == 0xca && b[1] == 0xfe && b[2] == 0xba && b[3] == 0xbf {
        FileKind::MachOFat64
    } else if b.len() >= 2 && b[0] == 77 && b[1] == 90 {
        FileKind::Pe32
    } else if b.len() >= 8 && b[0] == 77 && b[1] == 105 && b[2] == 99 && b[3] == 114 && b[4]
        == 111 && b[5] == 115 && b[6] == 111 && b[7] == 102 {
        FileKind::Pdb
    } else if crate::breakpad::is_breakpad_bytes(b) {
        FileKind::BreakpadSym
    } else if b.len() >= 8 && b[0] == 33 && b[1] == 60 && b[2] == 97 && b[3] == 114 && b[4] == 99
        && b[5] == 104 && b[6] == 62 && b[7] == 10 {
        FileKind::Archive
    } else if b.len() >= 4 && b[0] == 0 && b[1] == 97 && b[2] == 115 && b[3] == 109 {
        FileKind::Wasm
    } else {
        FileKind::Unknown
    }
}

/// Classifies a file by its magic bytes: ELF by class byte, Mach-O thin and
/// fat in either byte order, PE by the `MZ` stub, PDB by the MSF header,
/// breakpad text by its `MODULE` line, plus archives and wasm.
pub fn classify_file_kind(data: &[u8]) -> (r: FileKind)
    ensures
        r == classify_spec(data@),
{
    let n = data.len();
    if n >= 5 && data[0] == 0x7f && data[1] == 69 && data[2] == 76 && data[3] == 70 {
        if data[4] == 1 {
            FileKind::Elf32
        } else if data[4] == 2 {
            FileKind::Elf64
        } else {
            FileKind::Unknown
        }
    } else if n >= 4 && data[0] == 0xfe && data[1] == 0xed && data[2] == 0xfa && data[3] == 0xce {
        FileKind::MachO32
    } else if n >= 4 && data[0] == 0xfe && data[1] == 0xed && data[2] == 0xfa && data[3] == 0xcf {
        FileKind::MachO64
    } else if n >= 4 && data[0] == 0xce && data[1] == 0xfa && data[2] == 0xed && data[3] == 0xfe {
        FileKind::MachO32
    } else if n >= 4 && data[0] == 0xcf && data[1] == 0xfa && data[2] == 0xed && data[3] == 0xfe {
        FileKind::MachO64
    } else if n >= 4 && data[0] == 0xca && data[1] == 0xfe && data[2] == 0xba && data[3] == 0xbe {
        FileKind::MachOFat32
    } else if n >= 4 && data[0] == 0xca && data[1] == 0xfe && data[2] == 0xba && data[3] == 0xbf {
        FileKind::MachOFat64
    } else if n >= 2 && data[0] == 77 && data[1] == 90 {
        FileKind::Pe32
    } else if n >= 8 && data[0] == 77 && data[1] == 105 && data[2] == 99 && data[3] == 114
        && data[4] == 111 && data[5] == 115 && data[6] == 111 && data[7] == 102 {
        FileKind::Pdb
    } else if is_breakpad_file(data) {
        FileKind::BreakpadSym
    } else if n >= 8 && data[0] == 33 && data[1] == 60 && data[2] == 97 && data[3] == 114
        && data[4] == 99 && data[5] == 104 && data[6] == 62 && data[7] == 10 {
        FileKind::Archive
    } else if n >= 4 && data[0] == 0 && data[1] == 97 && data[2] == 115 && data[3] == 109 {
        FileKind::Wasm
    } else {
        FileKind::Unknown
    }
}

/// The file data of a binary, with what identity could be read from it.
#[derive(Debug)]
pub struct BinaryImage {
    pub name: Option<String>,
    pub debug_id: Option<DebugId>,
    pub file_kind: FileKind,
    pub data: Vec<u8>,
}

/// A parsed external debug file, addressed by symbol name and offset.
pub struct ExternalFileSymbolMap {
    file_name: String,
    symbol_map: SymbolMap,
}

impl ExternalFileSymbolMap {
    /// The name this file was loaded under.
    pub closed spec fn file_name_spec(&self) -> Seq<char> {
        self.file_name@
    }

    /// The symbol records the file parsed into.
    pub closed spec fn records_spec(&self) -> Seq<crate::symbol_map::SymbolRecord> {
        self.symbol_map.records()
    }

    /// The wrapped symbol map.
    pub closed spec fn map_spec(&self) -> SymbolMap {
        self.symbol_map
    }

    /// The wrapped map's handle generation.
    pub open spec fn map_generation(&self) -> crate::interner::SymbolMapGeneration {
        self.map_spec().generation()
    }

    /// The wrapped map's borrowed string pool.
    pub open spec fn map_borrowed(&self) -> Seq<Seq<char>> {
        self.map_spec().borrowed()
    }

    /// The wrapped map's owned string pool.
    pub open spec fn map_owned(&self) -> Seq<Seq<char>> {
        self.map_spec().owned()
    }

    /// The map is internally consistent.
    pub closed spec fn wf(&self) -> bool {
        self.symbol_map.wf()
    }

    /// Whether this is the file the reference names.
    pub fn is_same_file(&self, file_ref: &ExternalFileRef) -> (r: bool)
        ensures
            r == (self.file_name_spec() == file_ref.file_name@),
    {
        self.file_name.eq(&file_ref.file_name)
    }

    /// Looks up an address given as a symbol name plus offset: a hit is a
    /// record whose name spells the queried symbol-name bytes. When the
    /// record carries debug frames they are resolved and returned; else a
    /// single frame names the symbol.
    pub fn lookup(&self, address: &ExternalFileAddressInFileRef) -> (r: Option<
        Vec<InlineStackFrame>,
    >)
        requires
            self.wf(),
        ensures
            external_lookup_ok(*self, *address, r),
    {
        let syms = self.symbol_map.iter_symbols();
        let n = syms.len();
        let mut i: usize = 0;
        while i < n
            invariant
                i <= n == syms@.len() == self.records_spec().len(),
                self.wf(),
                forall|k: int| 0 <= k < n ==> (#[trigger] syms@[k]).0
                    == self.records_spec()[k].address && syms@[k].1@
                    == self.records_spec()[k].name@,
                forall|k: int| 0 <= k < i ==> vstd::utf8::encode_utf8(
                    (#[trigger] self.records_spec()[k]).name@,
                ) != address.symbol_name@,
            decreases n - i,
        {
            if bytes_eq_str(&address.symbol_name, syms[i].1.as_str()) {
                // Resolve the record's own debug frames when it has them
                // and its symbol answers a lookup at its start address.
                match self.symbol_map.lookup(syms[i].0) {
                    Some(info) => {
                        match info.frames {
                            crate::shared::FramesLookupResult::Available(fhs) => {
                                proof {
                                    crate::symbol_map::lemma_lookup_within(
                                        self.symbol_map.records(),
                                        syms@[i as int].0,
                                    );
                                }
                                let resolved = self.resolve_frames(&fhs);
                                proof {
                                    self.symbol_map.lemma_records_sorted();
                                    lemma_sorted_hit_at_own_address(
                                        self.records_spec(),
                                        i as int,
                                    );
                                    let rec = self.records_spec()[i as int];
                                    let rf = rec.frames->Inline_0;
                                    assert(crate::symbol_map::frames_resolve(
                                        self.map_generation(),
                                        self.map_borrowed(),
                                        self.map_owned(),
                                        fhs@,
                                        rf@,
                                    ));
                                    assert(external_frames_of_record(*self, rec, resolved@));
                                }
                                return Some(resolved);
                            },
                            _ => {},
                        }
                    },
                    None => {},
                }
                let mut frames: Vec<InlineStackFrame> = Vec::new();
                frames.push(
                    InlineStackFrame {
                        function: Some(syms[i].1.clone()),
                        file_path: None,
                        line_number: None,
                    },
                );
                return Some(frames);
            }
            i += 1;
        }
        None
    }

    /// Resolves a stack of handle frames against this file's map, yielding
    /// the strings the handles were interned for.
    fn resolve_frames(&self, fhs: &Vec<crate::shared::FrameDebugInfo>) -> (r: Vec<
        InlineStackFrame,
    >)
        ensures
            r@.len() == fhs@.len(),
            forall|m: int|
                0 <= m < r@.len() ==> resolved_frame_ok(
                self.symbol_map,
                fhs@[m],
                #[trigger] r@[m],
            ),
    {
        let mut out: Vec<InlineStackFrame> = Vec::new();
        let n = fhs.len();
        let mut m: usize = 0;
        while m < n
            invariant
                m <= n == fhs@.len(),
                out@.len() == m,
                forall|q: int|
                    0 <= q < m ==> resolved_frame_ok(
                    self.symbol_map,
                    fhs@[q],
                    #[trigger] out@[q],
                ),
            decreases n - m,
        {
            let fh = &fhs[m];
            let function: Option<String> = match &fh.function {
                Some(h) => self.symbol_map.resolve_function_name(*h),
                None => None,
            };
            let file_path: Option<FilePath> = match &fh.file_path {
                Some(h) => match self.symbol_map.resolve_source_file_path(*h) {
                    Some(p) => Some(FilePath::NonLocal(p)),
                    None => None,
                },
                None => None,
            };
            out.push(InlineStackFrame { function, file_path, line_number: fh.line_number });
            m += 1;
        }
        out
    }
}

/// A resolved frame carries the strings the handle frame's handles resolve
/// to in the map, and the same line number.
pub open spec fn resolved_frame_ok(
    sm: SymbolMap,
    fh: crate::shared::FrameDebugInfo,
    rf: InlineStackFrame,
) -> bool {
    &&& rf.line_number == fh.line_number
    &&& match (fh.function, rf.function) {
        (Some(h), Some(s)) => crate::interner::resolve_spec(
            sm.generation(),
            sm.borrowed(),
            sm.owned(),
            crate::symbol_map::fn_handle_untyped(h),
        ) == Some(s@),
        (Some(h), None) => crate::interner::resolve_spec(
            sm.generation(),
            sm.borrowed(),
            sm.owned(),
            crate::symbol_map::fn_handle_untyped(h),
        ) is None,
        (None, None) => true,
        _ => false,
    }
    &&& match (fh.file_path, rf.file_path) {
        (Some(h), Some(FilePath::NonLocal(s))) => crate::interner::resolve_spec(
            sm.generation(),
            sm.borrowed(),
            sm.owned(),
            crate::symbol_map::path_handle_untyped(h),
        ) == Some(s@),
        (Some(h), None) => crate::interner::resolve_spec(
            sm.generation(),
            sm.borrowed(),
            sm.owned(),
            crate::symbol_map::path_handle_untyped(h),
        ) is None,
        (None, None) => true,
        _ => false,
    }
}

/// In a strictly sorted table a lookup at a record's own start address
/// answers, if at all, with that record.
proof fn lemma_sorted_hit_at_own_address(rs: Seq<crate::symbol_map::SymbolRecord>, i: int)
    requires
        crate::symbol_map::sym_sorted(rs),
        0 <= i < rs.len(),
    ensures
        match crate::symbol_map::lookup_sym_spec(rs, rs[i].address) {
            Some(h) => h == i,
            None => true,
        },
    decreases rs.len(),
{
    let address = rs[i].address;
    if rs.last().address <= address {
        if i < rs.len() - 1 {
            assert(rs[i].address < rs[rs.len() - 1].address);
        }
    } else {
        assert(i < rs.len() - 1);
        assert(rs.drop_last()[i] == rs[i]);
        assert forall|p: int, q: int|
            0 <= p < q < rs.drop_last().len() implies rs.drop_last()[p].address < rs.drop_last(
        )[q].address by {
            assert(rs.drop_last()[p] == rs[p] && rs.drop_last()[q] == rs[q]);
        }
        lemma_sorted_hit_at_own_address(rs.drop_last(), i);
    }
}

/// A cache miss either loads the named file — which then answers the query
/// and fills the slot — or fails to load it, answering nothing and leaving
/// the slot as it was.
pub open spec fn lookup_external_miss<'h, H: FileAndPathHelper>(
    pre: SymbolManager<'h, H>,
    post: SymbolManager<'h, H>,
    address: ExternalFileAddressRef,
    r: Option<Vec<InlineStackFrame>>,
) -> bool {
    ||| (post.cached_file() matches Some(g) && g.file_name_spec()
        == address.file_ref.file_name@ && external_lookup_ok(g, address.address_in_file, r))
    ||| (post.cached_file() == pre.cached_file() && r is None)
}

/// What an external-file lookup returns: for a record whose name spells the
/// queried symbol-name bytes, either its own debug frames with every handle
/// resolved to its string, or a single frame naming the symbol; nothing
/// when no record's name matches.
pub open spec fn external_lookup_ok(
    f: ExternalFileSymbolMap,
    address: ExternalFileAddressInFileRef,
    r: Option<Vec<InlineStackFrame>>,
) -> bool {
    match r {
        Some(frames) => exists|i: int|
            0 <= i < f.records_spec().len() && vstd::utf8::encode_utf8(
                (#[trigger] f.records_spec()[i]).name@,
            ) == address.symbol_name@ && external_frames_of_record(
                f,
                f.records_spec()[i],
                frames@,
            ),
        None => forall|i: int|
            0 <= i < f.records_spec().len() ==> vstd::utf8::encode_utf8(
                (#[trigger] f.records_spec()[i]).name@,
            ) != address.symbol_name@,
    }
}

/// The frames returned for one matched record: the record's own inline
/// stack, with the map's handles resolved to the strings they were interned
/// for, or the single symbol-name frame when the record carries no frames.
pub open spec fn external_frames_of_record(
    f: ExternalFileSymbolMap,
    rec: crate::symbol_map::SymbolRecord,
    frames: Seq<InlineStackFrame>,
) -> bool {
    ||| (match rec.frames {
        crate::symbol_map::FramesSource::Inline(rf) => {
            &&& frames.len() == rf@.len()
            &&& exists|fhs: Seq<crate::shared::FrameDebugInfo>|
                #![trigger crate::symbol_map::frames_resolve(
                    f.map_generation(),
                    f.map_borrowed(),
                    f.map_owned(),
                    fhs,
                    rf@,
                )]
                crate::symbol_map::frames_resolve(
                    f.map_generation(),
                    f.map_borrowed(),
                    f.map_owned(),
                    fhs,
                    rf@,
                ) && forall|m: int|
                    0 <= m < frames.len() ==> resolved_frame_ok(
                        f.map_spec(),
                        fhs[m],
                        #[trigger] frames[m],
                    )
        },
        _ => false,
    })
    ||| (frames.len() == 1 && frames[0].file_path is None && frames[0].line_number is None && (
    frames[0].function matches Some(name) && name@ == rec.name@))
}

/// Whether a byte string spells the same bytes as a string.
fn bytes_eq_str(b: &Vec<u8>, s: &str) -> (r: bool)
    ensures
        r == (b@ == s.spec_bytes()),
{
    let sb = s.as_bytes();
    if b.len() != sb.len() {
        proof {
            assert(b@.len() != s.spec_bytes().len());
        }
        return false;
    }
    let n = b.len();
    let mut i: usize = 0;
    while i < n
        invariant
            i <= n == b@.len() == sb@.len(),
            sb@ == s.spec_bytes(),
            forall|k: int| 0 <= k < i ==> b@[k] == sb@[k],
        decreases n - i,
    {
        if b[i] != sb[i] {
            return false;
        }
        i += 1;
    }
    proof {
        assert(b@ =~= sb@);
    }
    true
}

/// Coordinates symbol-map loading: candidate-path walk, format dispatch,
/// and a single-slot cache for the most recent external debug file.
pub struct SymbolManager<'h, H: FileAndPathHelper> {
    helper: &'h H,
    cached_external_file: Option<ExternalFileSymbolMap>,
    next_generation: u64,
}

impl<'h, H: FileAndPathHelper> SymbolManager<'h, H> {
    /// The single-slot external-file cache.
    pub closed spec fn cached_file(&self) -> Option<ExternalFileSymbolMap> {
        self.cached_external_file
    }

    /// The cached external file, if any, is internally consistent.
    pub closed spec fn wf(&self) -> bool {
        match self.cached_external_file {
            Some(f) => f.wf(),
            None => true,
        }
    }

    /// Creates a manager around the host helper, with an empty cache.
    pub fn with_helper(helper: &'h H) -> (r: Self)
        ensures
            r.wf(),
    {
        SymbolManager { helper, cached_external_file: None, next_generation: 0 }
    }

    /// The host helper.
    pub fn helper(&self) -> &'h H {
        self.helper
    }

    /// A fresh generation tag for a new symbol map.
    fn fresh_generation(&mut self) -> (r: SymbolMapGeneration)
        ensures
            final(self).wf() == old(self).wf(),
            final(self).cached_file() == old(self).cached_file(),
    {
        let g = self.next_generation;
        if self.next_generation < u64::MAX {
            self.next_generation = self.next_generation + 1;
        }
        SymbolMapGeneration(g)
    }

    /// Opens and parses one candidate file: the file is classified by its
    /// magic bytes, and of the classified kinds only breakpad text carries
    /// symbol data this build can read. A produced map holds exactly the
    /// table its file bytes spell.
    fn load_symbol_map_from_path(&mut self, file_location: &FileLocation) -> (r: Result<
        SymbolMap,
        Error,
    >)
        ensures
            final(self).wf() == old(self).wf(),
            final(self).cached_file() == old(self).cached_file(),
            match r {
                Ok(sm) => sm.wf() && exists|data: Seq<u8>|
                    crate::breakpad::breakpad_table_of(
                        data,
                        sm.debug_id_spec(),
                        #[trigger] sm.records(),
                    ),
                Err(e) => e is HelperErrorDuringOpenFile || e is InvalidInputError
                    || e is ObjectParseError,
            },
    {
        let data = match self.helper.open_file(file_location) {
            Ok(data) => data,
            Err(e) => {
                return Err(
                    Error::HelperErrorDuringOpenFile(file_location.to_string_lossy(), e),
                );
            },
        };
        let kind = classify_file_kind(data.as_slice());
        match kind {
            FileKind::BreakpadSym => {
                let (id, records) = match parse_breakpad_sym(data.as_slice()) {
                    Ok(parsed) => parsed,
                    Err(e) => {
                        return Err(e);
                    },
                };
                let generation = self.fresh_generation();
                let sm = SymbolMap::new(file_location.clone(), id, generation, records);
                proof {
                    assert(crate::breakpad::breakpad_table_of(
                        data@,
                        sm.debug_id_spec(),
                        sm.records(),
                    ));
                }
                Ok(sm)
            },
            FileKind::Unknown => {
                Err(
                    Error::InvalidInputError(
                        "The file does not have a known symbol format",
                    ),
                )
            },
            _ => {
                Err(
                    Error::InvalidInputError(
                        "The file format is recognized but carries no symbol text",
                    ),
                )
            },
        }
    }

    /// Obtains a symbol map for the debug identity: walks the host's
    /// candidate paths in order and returns the first parsed map whose id
    /// matches. A mismatching or failing candidate is remembered and the
    /// walk continues; when the list is exhausted the last observed error
    /// is returned, or `NoCandidatePathForBinary` when none was offered. A
    /// returned map always carries the requested id.
    pub fn load_symbol_map(&mut self, debug_name: &str, debug_id: DebugId) -> (r: Result<
        SymbolMap,
        Error,
    >)
        ensures
            final(self).wf() == old(self).wf(),
            match r {
                Ok(sm) => sm.wf() && sm.debug_id_spec() == debug_id && exists|data: Seq<u8>|
                    crate::breakpad::breakpad_table_of(data, debug_id, #[trigger] sm.records()),
                Err(e) => e matches Error::UnmatchedDebugId(found, requested) ==> requested
                    == debug_id && found != debug_id,
            },
    {
        let candidates = match self.helper.get_candidate_paths_for_debug_file(
            debug_name,
            debug_id,
        ) {
            Ok(candidates) => candidates,
            Err(e) => {
                return Err(
                    Error::HelperErrorDuringGetCandidatePathsForDebugFile(
                        debug_name.to_owned(),
                        debug_id,
                        e,
                    ),
                );
            },
        };
        let mut last_err: Option<Error> = None;
        let n = candidates.len();
        let mut i: usize = 0;
        while i < n
            invariant
                i <= n == candidates@.len(),
                self.wf() == old(self).wf(),
                match last_err {
                    Some(e) => e matches Error::UnmatchedDebugId(found, requested) ==> requested
                        == debug_id && found != debug_id,
                    None => true,
                },
            decreases n - i,
        {
            let attempt = match &candidates[i] {
                CandidatePathInfo::SingleFile(file_location) => {
                    self.load_symbol_map_from_path(file_location)
                },
                CandidatePathInfo::InDyldCache { dyld_cache_path, dylib_path } => {
                    Err(
                        Error::InvalidInputError(
                            "Dyld shared caches carry no symbol text",
                        ),
                    )
                },
            };
            match attempt {
                Ok(symbol_map) => {
                    let found = symbol_map.debug_id();
                    if found == debug_id {
                        return Ok(symbol_map);
                    }
                    last_err = Some(Error::UnmatchedDebugId(found, debug_id));
                },
                Err(e) => {
                    last_err = Some(e);
                },
            }
            i += 1;
        }
        match last_err {
            Some(e) => Err(e),
            None => Err(
                Error::NoCandidatePathForBinary(Some(debug_name.to_owned()), Some(debug_id)),
            ),
        }
    }

    /// Returns the file data of the binary for the given identity. At least
    /// one of the debug identity or the code identity must be complete;
    /// fat archives need a debug id to pick an architecture.
    pub fn load_binary(
        &mut self,
        debug_name: Option<&str>,
        debug_id: Option<DebugId>,
        name: Option<&str>,
        code_id: Option<&CodeId>,
    ) -> (r: Result<BinaryImage, Error>)
        ensures
            final(self).wf() == old(self).wf(),
            ({
                let enough = (debug_name is Some && debug_id is Some) || (name is Some
                    && code_id is Some);
                &&& !enough ==> (r matches Err(e) && e is NotEnoughInformationToIdentifyBinary)
                &&& enough ==> !(r matches Err(e) && e is NotEnoughInformationToIdentifyBinary)
            }),
            match r {
                Ok(image) => {
                    &&& image.file_kind == classify_spec(image.data@)
                    &&& (image.file_kind is Elf32 || image.file_kind is Elf64
                        || image.file_kind is MachO32 || image.file_kind is MachO64
                        || image.file_kind is Pe32 || image.file_kind is Pe64
                        || image.file_kind is BreakpadSym)
                    &&& match (name, image.name) {
                        (Some(s), Some(img_name)) => img_name@ == s@,
                        (None, None) => true,
                        _ => false,
                    }
                    &&& match (debug_id, image.debug_id) {
                        (Some(requested), Some(found)) => found == requested,
                        _ => true,
                    }
                    &&& image.file_kind is BreakpadSym ==> image.debug_id is Some
                },
                Err(_) => true,
            },
    {
        let enough = (debug_name.is_some() && debug_id.is_some()) || (name.is_some()
            && code_id.is_some());
        if !enough {
            return Err(Error::NotEnoughInformationToIdentifyBinary);
        }
        let candidates = match self.helper.get_candidate_paths_for_binary(
            debug_name,
            debug_id,
            name,
            code_id,
        ) {
            Ok(candidates) => candidates,
            Err(e) => {
                return Err(Error::HelperErrorDuringGetCandidatePathsForBinary(e));
            },
        };
        let mut last_err: Option<Error> = None;
        let n = candidates.len();
        let mut i: usize = 0;
        while i < n
            invariant
                i <= n == candidates@.len(),
                self.wf() == old(self).wf(),
                (debug_name is Some && debug_id is Some) || (name is Some && code_id is Some),
                match last_err {
                    Some(e) => !(e is NotEnoughInformationToIdentifyBinary),
                    None => true,
                },
            decreases n - i,
        {
            match &candidates[i] {
                CandidatePathInfo::SingleFile(file_location) => {
                    match self.helper.open_file(file_location) {
                        Ok(data) => {
                            let kind = classify_file_kind(data.as_slice());
                            match kind {
                                FileKind::BreakpadSym => {
                                    // The one format whose build id this
                                    // build can read: verify it when one
                                    // was requested.
                                    match parse_breakpad_sym(data.as_slice()) {
                                        Ok((found, _)) => {
                                            let id_ok = match debug_id {
                                                Some(requested) => found == requested,
                                                None => true,
                                            };
                                            if id_ok {
                                                let image_name = match name {
                                                    Some(s) => Some(s.to_owned()),
                                                    None => None,
                                                };
                                                return Ok(
                                                    BinaryImage {
                                                        name: image_name,
                                                        debug_id: Some(found),
                                                        file_kind: kind,
                                                        data,
                                                    },
                                                );
                                            }
                                            last_err = Some(
                                                Error::UnmatchedDebugIdOptional(found, debug_id),
                                            );
                                        },
                                        Err(e) => {
                                            last_err = Some(e);
                                        },
                                    }
                                },
                                FileKind::Elf32
                                | FileKind::Elf64
                                | FileKind::MachO32
                                | FileKind::MachO64
                                | FileKind::Pe32
                                | FileKind::Pe64 => {
                                    // These formats carry ids this build
                                    // cannot read; the id stays unknown and
                                    // is not verified (the relaxation the
                                    // design notes record).
                                    let image_name = match name {
                                        Some(s) => Some(s.to_owned()),
                                        None => None,
                                    };
                                    return Ok(
                                        BinaryImage {
                                            name: image_name,
                                            debug_id: None,
                                            file_kind: kind,
                                            data,
                                        },
                                    );
                                },
                                FileKind::MachOFat32 | FileKind::MachOFat64 => {
                                    if debug_id.is_none() {
                                        last_err = Some(Error::NoDisambiguatorForFatArchive);
                                    } else {
                                        last_err = Some(Error::NoMatchingArchInFat);
                                    }
                                },
                                _ => {
                                    last_err = Some(
                                        Error::InvalidInputError("Unrecognized file"),
                                    );
                                },
                            }
                        },
                        Err(e) => {
                            last_err = Some(
                                Error::HelperErrorDuringOpenFile(
                                    file_location.to_string_lossy(),
                                    e,
                                ),
                            );
                        },
                    }
                },
                CandidatePathInfo::InDyldCache { dyld_cache_path, dylib_path } => {
                    last_err = Some(
                        Error::InvalidInputError("Dyld shared caches are not readable here"),
                    );
                },
            }
            i += 1;
        }
        match last_err {
            Some(e) => Err(e),
            None => {
                let err_name = match debug_name {
                    Some(s) => Some(s.to_owned()),
                    None => None,
                };
                Err(Error::NoCandidatePathForBinary(err_name, debug_id))
            },
        }
    }

    /// Loads the external debug file named by an OSO reference.
    pub fn load_external_file(&mut self, external_file_ref: &ExternalFileRef) -> (r: Result<
        ExternalFileSymbolMap,
        Error,
    >)
        ensures
            final(self).wf() == old(self).wf(),
            final(self).cached_file() == old(self).cached_file(),
            match r {
                Ok(f) => f.wf() && f.file_name_spec() == external_file_ref.file_name@ && exists|
                    data: Seq<u8>,
                    id: DebugId,
                |
                    crate::breakpad::breakpad_table_of(data, id, #[trigger] f.records_spec()),
                Err(_) => true,
            },
    {
        let location = FileLocation::Path(external_file_ref.file_name.clone());
        let symbol_map = match self.load_symbol_map_from_path(&location) {
            Ok(sm) => sm,
            Err(e) => {
                return Err(e);
            },
        };
        let f = ExternalFileSymbolMap {
            file_name: external_file_ref.file_name.clone(),
            symbol_map,
        };
        proof {
            let data = choose|data: Seq<u8>|
                crate::breakpad::breakpad_table_of(
                    data,
                    f.symbol_map.debug_id_spec(),
                    #[trigger] f.symbol_map.records(),
                );
            assert(crate::breakpad::breakpad_table_of(
                data,
                f.symbol_map.debug_id_spec(),
                f.records_spec(),
            ));
        }
        Ok(f)
    }

    /// Resolves a lookup that reported external debug info. When the cached
    /// file is the one the reference names, the cache answers and stays;
    /// otherwise the file is loaded, answers, and replaces the slot (last
    /// writer wins), or the slot stays on a failed load.
    pub fn lookup_external(&mut self, address: &ExternalFileAddressRef) -> (r: Option<
        Vec<InlineStackFrame>,
    >)
        requires
            old(self).wf(),
        ensures
            final(self).wf(),
            match old(self).cached_file() {
                Some(f) => if f.file_name_spec() == address.file_ref.file_name@ {
                    &&& final(self).cached_file() == old(self).cached_file()
                    &&& external_lookup_ok(f, address.address_in_file, r)
                } else {
                    lookup_external_miss(*old(self), *final(self), *address, r)
                },
                None => lookup_external_miss(*old(self), *final(self), *address, r),
            },
    {
        match &self.cached_external_file {
            Some(external_file) => {
                if external_file.is_same_file(&address.file_ref) {
                    return external_file.lookup(&address.address_in_file);
                }
            },
            None => {},
        }
        let external_file = match self.load_external_file(&address.file_ref) {
            Ok(f) => f,
            Err(_) => {
                return None;
            },
        };
        let lookup_result = external_file.lookup(&address.address_in_file);
        self.cached_external_file = Some(external_file);
        lookup_result
    }
}

} // verus!
