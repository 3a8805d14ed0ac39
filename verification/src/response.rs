//! Batched symbolication requests and the JSON response built from them.
//! Stack results keep the request's order and indices; a frame's own
//! `function`/`file`/`line` describe the outermost (physical) function, and
//! `inlines` lists the inlined call sites innermost-first.

use crate::error::{kind_name_spec, message_spec, Error};
use crate::interner::resolve_spec;
use crate::json::{jview, jview_members, jview_seq, GJson, Json};
use crate::shared::FrameDebugInfo;
use crate::symbol_map::{fn_handle_untyped, path_handle_untyped, SymbolMap};
use crate::shared::SymbolInfo;
use crate::interner::FunctionNameHandle;
use crate::textfmt::hex_str_bytes;
use vstd::prelude::*;
use vstd::string::StrSliceExecFns;
use vstd::utf8::encode_utf8;

verus! {

broadcast use vstd::std_specs::vec::group_vec_axioms;

/// One library of a request's memory map.
pub struct Lib {
    pub debug_name: String,
    pub breakpad_id: String,
}

/// One frame of a request stack: which module, and the relative address.
#[derive(Clone, Copy, Debug)]
pub struct RequestFrame {
    pub module_index: u32,
    pub address: u32,
}

/// One job: a memory map and the stacks to symbolicate against it.
pub struct Job {
    pub memory_map: Vec<Lib>,
    pub stacks: Vec<Vec<RequestFrame>>,
}

/// A symbolication request: a list of jobs.
pub struct Request {
    pub jobs: Vec<Job>,
}

/// The lookup result stored for one address.
pub struct AddressResult {
    pub symbol: SymbolInfo,
    /// The outer function name from debug info, if available; may be more
    /// accurate than the symbol name.
    pub function_name: Option<FunctionNameHandle>,
    pub inline_frames: Option<Vec<FrameDebugInfo>>,
}

impl AddressResult {
    /// A bare result: the symbol, with no debug info yet.
    pub fn new(symbol: SymbolInfo) -> (r: AddressResult)
        ensures
            r.symbol == symbol,
            r.function_name is None,
            r.inline_frames is None,
    {
        AddressResult { symbol, function_name: None, inline_frames: None }
    }

    /// Stores debug frames: the outer function name is taken from the last
    /// (outermost) frame, and the whole innermost-first list is kept.
    pub fn set_debug_info(&mut self, frames: Vec<FrameDebugInfo>)
        ensures
            final(self).symbol == old(self).symbol,
            final(self).function_name == if frames@.len() > 0 {
                frames@.last().function
            } else {
                None::<FunctionNameHandle>
            },
            final(self).inline_frames == Some(frames),
    {
        if frames.len() > 0 {
            self.function_name = frames[frames.len() - 1].function;
        } else {
            self.function_name = None;
        }
        self.inline_frames = Some(frames);
    }
}

/// Addresses that were queried against one symbol map, each with its result
/// (`None`: queried, no symbol covers it).
pub type AddressResults = Vec<(u32, Option<AddressResult>)>;

/// The loaded data for one library: its lookup results and the symbol map
/// whose handles they carry.
pub struct LibSymbols {
    pub address_results: AddressResults,
    pub symbol_map: SymbolMap,
}

impl LibSymbols {
    /// Every stored result's symbol starts at or before its queried address.
    pub open spec fn wf(&self) -> bool {
        forall|i: int| 0 <= i < self.address_results@.len() ==> match (
        #[trigger] self.address_results@[i]).1 {
            Some(ar) => ar.symbol.address <= self.address_results@[i].0,
            None => true,
        }
    }
}

/// First stored result for `address`.
pub open spec fn find_result(
    rs: Seq<(u32, Option<AddressResult>)>,
    address: u32,
) -> Option<Option<AddressResult>>
    decreases rs.len(),
{
    if rs.len() == 0 {
        None
    } else if rs[0].0 == address {
        Some(rs[0].1)
    } else {
        find_result(rs.skip(1), address)
    }
}

/// First entry loaded for `lib`, compared by name and breakpad id.
pub open spec fn find_lib(
    per_lib: Seq<(Lib, Result<LibSymbols, Error>)>,
    name: Seq<char>,
    id: Seq<char>,
) -> Option<int>
    decreases per_lib.len(),
{
    if per_lib.len() == 0 {
        None
    } else if per_lib[0].0.debug_name@ == name && per_lib[0].0.breakpad_id@ == id {
        Some(0int)
    } else {
        match find_lib(per_lib.skip(1), name, id) {
            Some(i) => Some(i + 1),
            None => None,
        }
    }
}

/// The bytes a frame's `function` field must hold: the resolved outer
/// function name when debug info provides one, else the symbol name.
pub open spec fn function_field_bytes(ar: AddressResult, sm: SymbolMap) -> Seq<u8> {
    match ar.function_name {
        Some(h) => match resolve_spec(
            sm.generation(),
            sm.borrowed(),
            sm.owned(),
            fn_handle_untyped(h),
        ) {
            Some(cs) => encode_utf8(cs),
            None => encode_utf8(ar.symbol.name@),
        },
        None => encode_utf8(ar.symbol.name@),
    }
}

/// Resolution of an optional file-path handle against a map.
pub open spec fn resolved_path(h: crate::interner::SourceFilePathHandle, sm: SymbolMap) -> Option<
    Seq<char>,
> {
    resolve_spec(sm.generation(), sm.borrowed(), sm.owned(), path_handle_untyped(h))
}

/// Resolution of a function-name handle against a map.
pub open spec fn resolved_function(h: FunctionNameHandle, sm: SymbolMap) -> Option<Seq<char>> {
    resolve_spec(sm.generation(), sm.borrowed(), sm.owned(), fn_handle_untyped(h))
}

/// The members of one entry of `inlines`: `function`, `file` and `line` are
/// present exactly when the inline frame provides them (a `line` of zero
/// counts as absent).
pub open spec fn inline_members_spec(fh: FrameDebugInfo, sm: SymbolMap) -> Seq<(Seq<u8>, GJson)> {
    (match fh.function {
        Some(h) => match resolved_function(h, sm) {
            Some(cs) => seq![(encode_utf8("function"@), GJson::Str(encode_utf8(cs)))],
            None => Seq::empty(),
        },
        None => Seq::empty(),
    }) + (match fh.file_path {
        Some(h) => match resolved_path(h, sm) {
            Some(cs) => seq![(encode_utf8("file"@), GJson::Str(encode_utf8(cs)))],
            None => Seq::empty(),
        },
        None => Seq::empty(),
    }) + (match fh.line_number {
        Some(l) => if l != 0 {
            seq![(encode_utf8("line"@), GJson::UInt(l as u64))]
        } else {
            Seq::empty()
        },
        None => Seq::empty(),
    })
}

/// The `inlines` array: one object per inlined call site, in the given
/// (innermost-first) order.
pub open spec fn inline_objs_spec(fhs: Seq<FrameDebugInfo>, sm: SymbolMap) -> Seq<GJson> {
    Seq::new(fhs.len(), |m: int| GJson::Obj(inline_members_spec(fhs[m], sm)))
}

/// The debug-info members of a frame whose address was answered by `ar`:
/// `function` and `function_offset` always, `function_size` when the symbol
/// declares a size; then, when an inline stack is present, `file` and `line`
/// from its last (outermost) frame, and `inlines` listing the remaining
/// innermost-first frames.
pub open spec fn hit_members_spec(frame: RequestFrame, ar: AddressResult, sm: SymbolMap) -> Seq<
    (Seq<u8>, GJson),
> {
    seq![
        (encode_utf8("function"@), GJson::Str(function_field_bytes(ar, sm))),
        (
            encode_utf8("function_offset"@),
            GJson::Str(hex_str_bytes(frame.address - ar.symbol.address)),
        ),
    ] + (match ar.symbol.size {
        Some(sz) => seq![(encode_utf8("function_size"@), GJson::Str(hex_str_bytes(sz as int)))],
        None => Seq::empty(),
    }) + (match ar.inline_frames {
        Some(fhs) => if fhs@.len() >= 1 {
            (match fhs@.last().file_path {
                Some(h) => match resolved_path(h, sm) {
                    Some(cs) => seq![(encode_utf8("file"@), GJson::Str(encode_utf8(cs)))],
                    None => Seq::empty(),
                },
                None => Seq::empty(),
            }) + (match fhs@.last().line_number {
                Some(l) => if l != 0 {
                    seq![(encode_utf8("line"@), GJson::UInt(l as u64))]
                } else {
                    Seq::empty()
                },
                None => Seq::empty(),
            }) + (if fhs@.len() >= 2 {
                seq![
                    (
                        encode_utf8("inlines"@),
                        GJson::Arr(
                            inline_objs_spec(fhs@.subrange(0, fhs@.len() - 1), sm),
                        ),
                    ),
                ]
            } else {
                Seq::<(Seq<u8>, GJson)>::empty()
            })
        } else {
            Seq::empty()
        },
        None => Seq::empty(),
    })
}

/// The loaded symbols answering a frame, if its module was queried and its
/// load succeeded.
pub open spec fn md_of(
    frame: RequestFrame,
    memory_map: Seq<Lib>,
    per_lib: Seq<(Lib, Result<LibSymbols, Error>)>,
) -> Option<LibSymbols> {
    if frame.module_index < memory_map.len() {
        let lib = memory_map[frame.module_index as int];
        match find_lib(per_lib, lib.debug_name@, lib.breakpad_id@) {
            Some(i) => match per_lib[i].1 {
                Ok(ls) => Some(ls),
                Err(_) => None,
            },
            None => None,
        }
    } else {
        None
    }
}

/// All members of one response frame, in output order: `frame` (the index in
/// its stack), `module_offset`, `module`, then the debug-info members when
/// the lookup answered.
pub open spec fn frame_members_spec(
    index: int,
    frame: RequestFrame,
    memory_map: Seq<Lib>,
    md: Option<LibSymbols>,
) -> Seq<(Seq<u8>, GJson)> {
    seq![
        (encode_utf8("frame"@), GJson::UInt(index as u64)),
        (encode_utf8("module_offset"@), GJson::Str(hex_str_bytes(frame.address as int))),
    ] + (if frame.module_index < memory_map.len() {
        seq![
            (
                encode_utf8("module"@),
                GJson::Str(encode_utf8(memory_map[frame.module_index as int].debug_name@)),
            ),
        ]
    } else {
        Seq::<(Seq<u8>, GJson)>::empty()
    }) + (match md {
        Some(ls) => match find_result(ls.address_results@, frame.address) {
            Some(Some(ar)) => hit_members_spec(frame, ar, ls.symbol_map),
            _ => Seq::empty(),
        },
        None => Seq::empty(),
    })
}

/// One stack of the response: its frames in request order, numbered from
/// zero.
pub open spec fn stack_objs_spec(
    stack: Seq<RequestFrame>,
    memory_map: Seq<Lib>,
    per_lib: Seq<(Lib, Result<LibSymbols, Error>)>,
) -> Seq<GJson> {
    Seq::new(
        stack.len(),
        |k: int| GJson::Obj(
            frame_members_spec(k, stack[k], memory_map, md_of(stack[k], memory_map, per_lib)),
        ),
    )
}

/// All stacks of one job, in request order.
pub open spec fn stacks_spec(
    stacks: Seq<Vec<RequestFrame>>,
    memory_map: Seq<Lib>,
    per_lib: Seq<(Lib, Result<LibSymbols, Error>)>,
) -> Seq<GJson> {
    Seq::new(
        stacks.len(),
        |j: int| GJson::Arr(stack_objs_spec(stacks[j]@, memory_map, per_lib)),
    )
}

/// The `"{debug_name}/{breakpad_id}"` key of a module.
pub open spec fn module_key_bytes(lib: Lib) -> Seq<u8> {
    encode_utf8(lib.debug_name@) + seq![47u8] + encode_utf8(lib.breakpad_id@)
}

/// The `found_modules` members: one per memory-map entry that was queried,
/// `true` exactly when its symbols loaded.
pub open spec fn found_modules_spec(
    memory_map: Seq<Lib>,
    per_lib: Seq<(Lib, Result<LibSymbols, Error>)>,
) -> Seq<(Seq<u8>, GJson)>
    decreases memory_map.len(),
{
    if memory_map.len() == 0 {
        Seq::empty()
    } else {
        (match find_lib(per_lib, memory_map[0].debug_name@, memory_map[0].breakpad_id@) {
            Some(i) => seq![
                (module_key_bytes(memory_map[0]), GJson::Bool(per_lib[i].1 is Ok)),
            ],
            None => Seq::<(Seq<u8>, GJson)>::empty(),
        }) + found_modules_spec(memory_map.skip(1), per_lib)
    }
}

/// The JSON entry for one load error: its stable kind name and its message.
pub open spec fn error_entry_spec(e: Error) -> GJson {
    GJson::Arr(
        seq![
            GJson::Obj(
                seq![
                    (encode_utf8("name"@), GJson::Str(encode_utf8(kind_name_spec(e)))),
                    (encode_utf8("message"@), GJson::Str(message_spec(e))),
                ],
            ),
        ],
    )
}

/// The `module_errors` members: one per memory-map entry whose load failed.
pub open spec fn module_errors_spec(
    memory_map: Seq<Lib>,
    per_lib: Seq<(Lib, Result<LibSymbols, Error>)>,
) -> Seq<(Seq<u8>, GJson)>
    decreases memory_map.len(),
{
    if memory_map.len() == 0 {
        Seq::empty()
    } else {
        (match find_lib(per_lib, memory_map[0].debug_name@, memory_map[0].breakpad_id@) {
            Some(i) => match per_lib[i].1 {
                Err(e) => seq![(module_key_bytes(memory_map[0]), error_entry_spec(e))],
                Ok(_) => Seq::<(Seq<u8>, GJson)>::empty(),
            },
            None => Seq::<(Seq<u8>, GJson)>::empty(),
        }) + module_errors_spec(memory_map.skip(1), per_lib)
    }
}

/// The members of one job's response: its stacks, the found-modules map,
/// and, only when some module failed to load, the module-errors map.
pub open spec fn job_members_spec(
    job: Job,
    per_lib: Seq<(Lib, Result<LibSymbols, Error>)>,
) -> Seq<(Seq<u8>, GJson)> {
    seq![
        (
            encode_utf8("stacks"@),
            GJson::Arr(stacks_spec(job.stacks@, job.memory_map@, per_lib)),
        ),
        (
            encode_utf8("found_modules"@),
            GJson::Obj(found_modules_spec(job.memory_map@, per_lib)),
        ),
    ] + (if module_errors_spec(job.memory_map@, per_lib).len() > 0 {
        seq![
            (
                encode_utf8("module_errors"@),
                GJson::Obj(module_errors_spec(job.memory_map@, per_lib)),
            ),
        ]
    } else {
        Seq::<(Seq<u8>, GJson)>::empty()
    })
}

/// The whole response: a `results` array with one entry per job, in request
/// order.
pub open spec fn response_spec(
    jobs: Seq<Job>,
    per_lib: Seq<(Lib, Result<LibSymbols, Error>)>,
) -> GJson {
    GJson::Obj(
        seq![
            (
                encode_utf8("results"@),
                GJson::Arr(
                    Seq::new(jobs.len(), |i: int| GJson::Obj(job_members_spec(jobs[i], per_lib))),
                ),
            ),
        ],
    )
}


proof fn lemma_jview_members_push(ms: Seq<(Vec<u8>, Json)>, k: Vec<u8>, v: Json)
    ensures
        jview_members(ms.push((k, v))) =~= jview_members(ms).push((k@, jview(v))),
    decreases ms.len(),
{
    let mx = ms.push((k, v));
    if ms.len() == 0 {
        assert(mx[0] == (k, v));
        assert(mx.skip(1) =~= Seq::<(Vec<u8>, Json)>::empty());
        assert(jview_members(mx) =~= seq![(mx[0].0@, jview(mx[0].1))] + jview_members(mx.skip(1)));
        assert(jview_members(Seq::<(Vec<u8>, Json)>::empty()) =~= Seq::<(Seq<u8>, GJson)>::empty());
    } else {
        assert(mx[0] == ms[0]);
        assert(mx.skip(1) =~= ms.skip(1).push((k, v)));
        lemma_jview_members_push(ms.skip(1), k, v);
        assert(jview_members(mx) =~= seq![(mx[0].0@, jview(mx[0].1))] + jview_members(
            ms.skip(1).push((k, v)),
        ));
        assert(jview_members(ms) =~= seq![(ms[0].0@, jview(ms[0].1))] + jview_members(ms.skip(1)));
    }
}

proof fn lemma_jview_seq_push(items: Seq<Json>, x: Json)
    ensures
        jview_seq(items.push(x)) =~= jview_seq(items).push(jview(x)),
    decreases items.len(),
{
    let ix = items.push(x);
    if items.len() == 0 {
        assert(ix[0] == x);
        assert(ix.skip(1) =~= Seq::<Json>::empty());
        assert(jview_seq(ix) =~= seq![jview(ix[0])] + jview_seq(ix.skip(1)));
        assert(jview_seq(Seq::<Json>::empty()) =~= Seq::<GJson>::empty());
    } else {
        assert(ix[0] == items[0]);
        assert(ix.skip(1) =~= items.skip(1).push(x));
        lemma_jview_seq_push(items.skip(1), x);
        assert(jview_seq(ix) =~= seq![jview(ix[0])] + jview_seq(items.skip(1).push(x)));
        assert(jview_seq(items) =~= seq![jview(items[0])] + jview_seq(items.skip(1)));
    }
}

/// First-match characterization of `find_result`.
proof fn lemma_find_result_props(rs: Seq<(u32, Option<AddressResult>)>, address: u32)
    ensures
        match find_result(rs, address) {
            Some(v) => exists|i: int|
                0 <= i < rs.len() && (#[trigger] rs[i]).0 == address && rs[i].1 == v && forall|
                    k: int,
                |
                    0 <= k < i ==> (#[trigger] rs[k]).0 != address,
            None => forall|k: int| 0 <= k < rs.len() ==> (#[trigger] rs[k]).0 != address,
        },
    decreases rs.len(),
{
    if rs.len() > 0 && rs[0].0 != address {
        lemma_find_result_props(rs.skip(1), address);
        match find_result(rs.skip(1), address) {
            Some(v) => {
                let i = choose|i: int|
                    0 <= i < rs.skip(1).len() && (#[trigger] rs.skip(1)[i]).0 == address && rs.skip(
                        1,
                    )[i].1 == v && forall|k: int|
                        0 <= k < i ==> (#[trigger] rs.skip(1)[k]).0 != address;
                assert(rs[i + 1] == rs.skip(1)[i]);
                assert forall|k: int| 0 <= k < i + 1 implies (#[trigger] rs[k]).0 != address by {
                    if k > 0 {
                        assert(rs.skip(1)[k - 1] == rs[k]);
                    }
                }
            },
            None => {
                assert forall|k: int| 0 <= k < rs.len() implies (#[trigger] rs[k]).0
                    != address by {
                    if k > 0 {
                        assert(rs.skip(1)[k - 1] == rs[k]);
                    }
                }
            },
        }
    }
}

/// A first match pins `find_result` down.
proof fn lemma_find_result_at(rs: Seq<(u32, Option<AddressResult>)>, address: u32, i: int)
    requires
        0 <= i < rs.len(),
        rs[i].0 == address,
        forall|k: int| 0 <= k < i ==> (#[trigger] rs[k]).0 != address,
    ensures
        find_result(rs, address) == Some(rs[i].1),
    decreases i,
{
    if i > 0 {
        assert(rs[0].0 != address);
        assert(rs.skip(1)[i - 1] == rs[i]);
        assert forall|k: int| 0 <= k < i - 1 implies (#[trigger] rs.skip(1)[k]).0 != address by {
            assert(rs.skip(1)[k] == rs[k + 1]);
        }
        lemma_find_result_at(rs.skip(1), address, i - 1);
    }
}

/// Index of the first stored result for `address`.
fn find_result_exec(rs: &Vec<(u32, Option<AddressResult>)>, address: u32) -> (r: Option<usize>)
    ensures
        match r {
            Some(i) => i < rs@.len() && rs@[i as int].0 == address && find_result(rs@, address)
                == Some(rs@[i as int].1),
            None => find_result(rs@, address) is None,
        },
{
    let n = rs.len();
    let mut i: usize = 0;
    while i < n
        invariant
            i <= n == rs@.len(),
            forall|k: int| 0 <= k < i ==> (#[trigger] rs@[k]).0 != address,
        decreases n - i,
    {
        if rs[i].0 == address {
            proof {
                lemma_find_result_at(rs@, address, i as int);
            }
            return Some(i);
        }
        i += 1;
    }
    proof {
        lemma_find_result_props(rs@, address);
        if find_result(rs@, address) is Some {
            let w = choose|w: int|
                0 <= w < rs@.len() && (#[trigger] rs@[w]).0 == address && rs@[w].1 == find_result(
                    rs@,
                    address,
                )->Some_0 && forall|k: int| 0 <= k < w ==> (#[trigger] rs@[k]).0 != address;
            assert(rs@[w].0 != address);
        }
    }
    None
}

/// A first match pins `find_lib` down.
proof fn lemma_find_lib_at(
    per_lib: Seq<(Lib, Result<LibSymbols, Error>)>,
    name: Seq<char>,
    id: Seq<char>,
    i: int,
)
    requires
        0 <= i < per_lib.len(),
        per_lib[i].0.debug_name@ == name,
        per_lib[i].0.breakpad_id@ == id,
        forall|k: int|
            0 <= k < i ==> !((#[trigger] per_lib[k]).0.debug_name@ == name
                && per_lib[k].0.breakpad_id@ == id),
    ensures
        find_lib(per_lib, name, id) == Some(i),
    decreases i,
{
    if i > 0 {
        assert(per_lib.skip(1)[i - 1] == per_lib[i]);
        assert forall|k: int|
            0 <= k < i - 1 implies !((#[trigger] per_lib.skip(1)[k]).0.debug_name@ == name
                && per_lib.skip(1)[k].0.breakpad_id@ == id) by {
            assert(per_lib.skip(1)[k] == per_lib[k + 1]);
        }
        lemma_find_lib_at(per_lib.skip(1), name, id, i - 1);
    }
}

/// No match anywhere means `find_lib` finds nothing.
proof fn lemma_find_lib_absent(
    per_lib: Seq<(Lib, Result<LibSymbols, Error>)>,
    name: Seq<char>,
    id: Seq<char>,
)
    requires
        forall|k: int|
            0 <= k < per_lib.len() ==> !((#[trigger] per_lib[k]).0.debug_name@ == name
                && per_lib[k].0.breakpad_id@ == id),
    ensures
        find_lib(per_lib, name, id) is None,
    decreases per_lib.len(),
{
    if per_lib.len() > 0 {
        assert forall|k: int|
            0 <= k < per_lib.skip(1).len() implies !((
            #[trigger] per_lib.skip(1)[k]).0.debug_name@ == name && per_lib.skip(
                1,
            )[k].0.breakpad_id@ == id) by {
            assert(per_lib.skip(1)[k] == per_lib[k + 1]);
        }
        lemma_find_lib_absent(per_lib.skip(1), name, id);
    }
}

/// Index of the first loaded entry for the library.
fn find_lib_exec(
    per_lib: &Vec<(Lib, Result<LibSymbols, Error>)>,
    name: &String,
    id: &String,
) -> (r: Option<usize>)
    ensures
        match r {
            Some(i) => i < per_lib@.len() && find_lib(per_lib@, name@, id@) == Some(i as int),
            None => find_lib(per_lib@, name@, id@) is None,
        },
{
    let n = per_lib.len();
    let mut i: usize = 0;
    while i < n
        invariant
            i <= n == per_lib@.len(),
            forall|k: int|
                0 <= k < i ==> !((#[trigger] per_lib@[k]).0.debug_name@ == name@
                    && per_lib@[k].0.breakpad_id@ == id@),
        decreases n - i,
    {
        if per_lib[i].0.debug_name.eq(name) && per_lib[i].0.breakpad_id.eq(id) {
            proof {
                lemma_find_lib_at(per_lib@, name@, id@, i as int);
            }
            return Some(i);
        }
        i += 1;
    }
    proof {
        lemma_find_lib_absent(per_lib@, name@, id@);
    }
    None
}

/// Builds one entry of `inlines`.
fn inline_frame_json(fh: &FrameDebugInfo, sm: &SymbolMap) -> (r: Json)
    ensures
        jview(r) == GJson::Obj(inline_members_spec(*fh, *sm)),
{
    let mut ms: Vec<(Vec<u8>, Json)> = Vec::new();
    let ghost seg0 = jview_members(ms@);
    proof {
        assert(seg0 =~= Seq::<(Seq<u8>, GJson)>::empty());
    }
    match &fh.function {
        Some(h) => {
            match sm.resolve_function_name(*h) {
                Some(name) => {
                    let ghost ms0 = ms@;
                    ms.push(("function".as_bytes_vec(), Json::Str(name.as_str().as_bytes_vec())));
                    proof {
                        lemma_jview_members_push(
                            ms0,
                            ms@.last().0,
                            ms@.last().1,
                        );
                    }
                },
                None => {},
            }
        },
        None => {},
    }
    let ghost seg_f = jview_members(ms@);
    match &fh.file_path {
        Some(h) => {
            match sm.resolve_source_file_path(*h) {
                Some(path) => {
                    let ghost ms0 = ms@;
                    ms.push(("file".as_bytes_vec(), Json::Str(path.as_str().as_bytes_vec())));
                    proof {
                        lemma_jview_members_push(ms0, ms@.last().0, ms@.last().1);
                    }
                },
                None => {},
            }
        },
        None => {},
    }
    let ghost seg_file = jview_members(ms@);
    match fh.line_number {
        Some(l) => {
            if l != 0 {
                let ghost ms0 = ms@;
                ms.push(("line".as_bytes_vec(), Json::UInt(l as u64)));
                proof {
                    lemma_jview_members_push(ms0, ms@.last().0, ms@.last().1);
                }
            }
        },
        None => {},
    }
    proof {
        assert(jview_members(ms@) =~= inline_members_spec(*fh, *sm));
    }
    Json::Obj(ms)
}


/// Builds one response frame object.
#[verifier::rlimit(60)]
fn response_frame_json(
    index: u64,
    frame: &RequestFrame,
    memory_map: &Vec<Lib>,
    md: Option<&LibSymbols>,
) -> (r: Json)
    requires
        match md {
            Some(ls) => ls.wf(),
            None => true,
        },
    ensures
        jview(r) == GJson::Obj(
            frame_members_spec(
                index as int,
                *frame,
                memory_map@,
                match md {
                    Some(ls) => Some(*ls),
                    None => None,
                },
            ),
        ),
{
    let ghost mdg: Option<LibSymbols> = match md {
        Some(ls) => Some(*ls),
        None => None,
    };
    let mut ms: Vec<(Vec<u8>, Json)> = Vec::new();
    let ghost msa = ms@;
    ms.push(("frame".as_bytes_vec(), Json::UInt(index)));
    proof {
        lemma_jview_members_push(msa, ms@.last().0, ms@.last().1);
    }
    let ghost msb = ms@;
    ms.push(("module_offset".as_bytes_vec(), Json::Str(crate::textfmt::hex_str(frame.address as u64))));
    proof {
        lemma_jview_members_push(msb, ms@.last().0, ms@.last().1);
    }
    let ghost head2 = jview_members(ms@);
    proof {
        assert(head2 =~= seq![
            (encode_utf8("frame"@), GJson::UInt((index as int) as u64)),
            (encode_utf8("module_offset"@), GJson::Str(hex_str_bytes(frame.address as int))),
        ]);
    }
    if (frame.module_index as usize) < memory_map.len() {
        let ghost msc = ms@;
        ms.push(
            (
                "module".as_bytes_vec(),
                Json::Str(
                    memory_map[frame.module_index as usize].debug_name.as_str().as_bytes_vec(),
                ),
            ),
        );
        proof {
            lemma_jview_members_push(msc, ms@.last().0, ms@.last().1);
        }
    }
    let ghost base = jview_members(ms@);
    proof {
        assert(base =~= head2 + (if frame.module_index < memory_map@.len() {
            seq![
                (
                    encode_utf8("module"@),
                    GJson::Str(encode_utf8(memory_map@[frame.module_index as int].debug_name@)),
                ),
            ]
        } else {
            Seq::<(Seq<u8>, GJson)>::empty()
        }));
    }
    match md {
        Some(ls) => {
            match find_result_exec(&ls.address_results, frame.address) {
                Some(ri) => {
                    match &ls.address_results[ri].1 {
                        Some(ar) => {
                            let ghost sm = ls.symbol_map;
                            let fname: Vec<u8> = match &ar.function_name {
                                Some(h) => match ls.symbol_map.resolve_function_name(*h) {
                                    Some(s) => s.as_str().as_bytes_vec(),
                                    None => ar.symbol.name.as_str().as_bytes_vec(),
                                },
                                None => ar.symbol.name.as_str().as_bytes_vec(),
                            };
                            proof {
                                assert(fname@ == function_field_bytes(*ar, sm));
                            }
                            let ghost msd = ms@;
                            ms.push(("function".as_bytes_vec(), Json::Str(fname)));
                            proof {
                                lemma_jview_members_push(msd, ms@.last().0, ms@.last().1);
                            }
                            let ghost mse = ms@;
                            ms.push(
                                (
                                    "function_offset".as_bytes_vec(),
                                    Json::Str(
                                        crate::textfmt::hex_str(
                                            (frame.address - ar.symbol.address) as u64,
                                        ),
                                    ),
                                ),
                            );
                            proof {
                                lemma_jview_members_push(mse, ms@.last().0, ms@.last().1);
                            }
                            match ar.symbol.size {
                                Some(sz) => {
                                    let ghost msf = ms@;
                                    ms.push(
                                        (
                                            "function_size".as_bytes_vec(),
                                            Json::Str(crate::textfmt::hex_str(sz as u64)),
                                        ),
                                    );
                                    proof {
                                        lemma_jview_members_push(msf, ms@.last().0, ms@.last().1);
                                    }
                                },
                                None => {},
                            }
                            let ghost with_sizes = jview_members(ms@);
                            match &ar.inline_frames {
                                Some(fhs) => {
                                    if fhs.len() >= 1 {
                                        let outer = &fhs[fhs.len() - 1];
                                        match &outer.file_path {
                                            Some(h) => {
                                                match ls.symbol_map.resolve_source_file_path(*h) {
                                                    Some(p) => {
                                                        let ghost msg1 = ms@;
                                                        ms.push(
                                                            (
                                                                "file".as_bytes_vec(),
                                                                Json::Str(
                                                                    p.as_str().as_bytes_vec(),
                                                                ),
                                                            ),
                                                        );
                                                        proof {
                                                            lemma_jview_members_push(
                                                                msg1,
                                                                ms@.last().0,
                                                                ms@.last().1,
                                                            );
                                                        }
                                                    },
                                                    None => {},
                                                }
                                            },
                                            None => {},
                                        }
                                        match outer.line_number {
                                            Some(l) => {
                                                if l != 0 {
                                                    let ghost msg2 = ms@;
                                                    ms.push(
                                                        (
                                                            "line".as_bytes_vec(),
                                                            Json::UInt(l as u64),
                                                        ),
                                                    );
                                                    proof {
                                                        lemma_jview_members_push(
                                                            msg2,
                                                            ms@.last().0,
                                                            ms@.last().1,
                                                        );
                                                    }
                                                }
                                            },
                                            None => {},
                                        }
                                        if fhs.len() >= 2 {
                                            let m_end = fhs.len() - 1;
                                            let mut items: Vec<Json> = Vec::new();
                                            let mut m: usize = 0;
                                            while m < m_end
                                                invariant
                                                    m <= m_end == fhs@.len() - 1,
                                                    fhs@.len() >= 2,
                                                    jview_seq(items@) =~= inline_objs_spec(
                                                        fhs@.subrange(0, m as int),
                                                        sm,
                                                    ),
                                                    sm == ls.symbol_map,
                                                decreases m_end - m,
                                            {
                                                let ghost items0 = items@;
                                                let obj = inline_frame_json(
                                                    &fhs[m],
                                                    &ls.symbol_map,
                                                );
                                                items.push(obj);
                                                proof {
                                                    lemma_jview_seq_push(items0, items@.last());
                                                    assert(inline_objs_spec(
                                                        fhs@.subrange(0, m as int + 1),
                                                        sm,
                                                    ) =~= inline_objs_spec(
                                                        fhs@.subrange(0, m as int),
                                                        sm,
                                                    ).push(
                                                        GJson::Obj(
                                                            inline_members_spec(fhs@[m as int], sm),
                                                        ),
                                                    ));
                                                }
                                                m += 1;
                                            }
                                            proof {
                                                assert(fhs@.subrange(0, m_end as int)
                                                    =~= fhs@.subrange(0, fhs@.len() - 1));
                                            }
                                            let ghost msg3 = ms@;
                                            ms.push(("inlines".as_bytes_vec(), Json::Arr(items)));
                                            proof {
                                                lemma_jview_members_push(
                                                    msg3,
                                                    ms@.last().0,
                                                    ms@.last().1,
                                                );
                                            }
                                        }
                                    }
                                },
                                None => {},
                            }
                            proof {
                                assert(jview_members(ms@) =~= base + hit_members_spec(
                                    *frame,
                                    *ar,
                                    sm,
                                ));
                            }
                        },
                        None => {},
                    }
                },
                None => {},
            }
        },
        None => {},
    }
    proof {
        assert(jview_members(ms@) =~= frame_members_spec(
            index as int,
            *frame,
            memory_map@,
            mdg,
        ));
    }
    Json::Obj(ms)
}


/// Appending a library extends the found-modules members by that library's
/// entry, when it was queried.
proof fn lemma_found_modules_push(
    mm: Seq<Lib>,
    x: Lib,
    per_lib: Seq<(Lib, Result<LibSymbols, Error>)>,
)
    ensures
        found_modules_spec(mm.push(x), per_lib) =~= found_modules_spec(mm, per_lib) + (
        match find_lib(per_lib, x.debug_name@, x.breakpad_id@) {
            Some(i) => seq![(module_key_bytes(x), GJson::Bool(per_lib[i].1 is Ok))],
            None => Seq::<(Seq<u8>, GJson)>::empty(),
        }),
    decreases mm.len(),
{
    if mm.len() == 0 {
        assert(mm.push(x)[0] == x);
        assert(mm.push(x).skip(1) =~= Seq::<Lib>::empty());
        assert(found_modules_spec(Seq::<Lib>::empty(), per_lib)
            =~= Seq::<(Seq<u8>, GJson)>::empty());
    } else {
        assert(mm.push(x)[0] == mm[0]);
        assert(mm.push(x).skip(1) =~= mm.skip(1).push(x));
        lemma_found_modules_push(mm.skip(1), x, per_lib);
    }
}

/// Appending a library extends the module-errors members by that library's
/// entry, when its load failed.
proof fn lemma_module_errors_push(
    mm: Seq<Lib>,
    x: Lib,
    per_lib: Seq<(Lib, Result<LibSymbols, Error>)>,
)
    ensures
        module_errors_spec(mm.push(x), per_lib) =~= module_errors_spec(mm, per_lib) + (
        match find_lib(per_lib, x.debug_name@, x.breakpad_id@) {
            Some(i) => match per_lib[i].1 {
                Err(e) => seq![(module_key_bytes(x), error_entry_spec(e))],
                Ok(_) => Seq::<(Seq<u8>, GJson)>::empty(),
            },
            None => Seq::<(Seq<u8>, GJson)>::empty(),
        }),
    decreases mm.len(),
{
    if mm.len() == 0 {
        assert(mm.push(x)[0] == x);
        assert(mm.push(x).skip(1) =~= Seq::<Lib>::empty());
        assert(module_errors_spec(Seq::<Lib>::empty(), per_lib)
            =~= Seq::<(Seq<u8>, GJson)>::empty());
    } else {
        assert(mm.push(x)[0] == mm[0]);
        assert(mm.push(x).skip(1) =~= mm.skip(1).push(x));
        lemma_module_errors_push(mm.skip(1), x, per_lib);
    }
}

/// Every successfully loaded library's results are well formed.
pub open spec fn per_lib_wf(per_lib: Seq<(Lib, Result<LibSymbols, Error>)>) -> bool {
    forall|i: int| 0 <= i < per_lib.len() ==> match (#[trigger] per_lib[i]).1 {
        Ok(ls) => ls.wf(),
        Err(_) => true,
    }
}

/// Builds one response stack: the frames in request order, numbered from
/// zero.
fn response_stack_json(
    stack: &Vec<RequestFrame>,
    memory_map: &Vec<Lib>,
    per_lib: &Vec<(Lib, Result<LibSymbols, Error>)>,
) -> (r: Json)
    requires
        per_lib_wf(per_lib@),
        stack@.len() <= 0xffff_ffff,
    ensures
        jview(r) == GJson::Arr(stack_objs_spec(stack@, memory_map@, per_lib@)),
{
    let n = stack.len();
    let mut frames: Vec<Json> = Vec::new();
    let mut k: usize = 0;
    while k < n
        invariant
            k <= n == stack@.len() <= 0xffff_ffff,
            per_lib_wf(per_lib@),
            jview_seq(frames@) =~= Seq::new(
                k as nat,
                |q: int| GJson::Obj(
                    frame_members_spec(
                        q,
                        stack@[q],
                        memory_map@,
                        md_of(stack@[q], memory_map@, per_lib@),
                    ),
                ),
            ),
        decreases n - k,
    {
        let frame = &stack[k];
        let md: Option<&LibSymbols> = if (frame.module_index as usize) < memory_map.len() {
            let lib = &memory_map[frame.module_index as usize];
            match find_lib_exec(per_lib, &lib.debug_name, &lib.breakpad_id) {
                Some(i) => match &per_lib[i].1 {
                    Ok(ls) => Some(ls),
                    Err(_) => None,
                },
                None => None,
            }
        } else {
            None
        };
        proof {
            assert(match md {
                Some(ls) => Some(*ls),
                None => None::<LibSymbols>,
            } == md_of(stack@[k as int], memory_map@, per_lib@));
        }
        let ghost frames0 = frames@;
        let obj = response_frame_json(k as u64, frame, memory_map, md);
        frames.push(obj);
        proof {
            lemma_jview_seq_push(frames0, frames@.last());
            assert(jview_seq(frames@) =~= Seq::new(
                k as nat + 1,
                |q: int| GJson::Obj(
                    frame_members_spec(
                        q,
                        stack@[q],
                        memory_map@,
                        md_of(stack@[q], memory_map@, per_lib@),
                    ),
                ),
            ));
        }
        k += 1;
    }
    proof {
        assert(jview_seq(frames@) =~= stack_objs_spec(stack@, memory_map@, per_lib@));
    }
    Json::Arr(frames)
}

/// Builds one job's response object.
fn job_response_json(job: &Job, per_lib: &Vec<(Lib, Result<LibSymbols, Error>)>) -> (r: Json)
    requires
        per_lib_wf(per_lib@),
        forall|j: int| 0 <= j < job.stacks@.len() ==> (#[trigger] job.stacks@[j])@.len()
            <= 0xffff_ffff,
    ensures
        jview(r) == GJson::Obj(job_members_spec(*job, per_lib@)),
{
    let n = job.stacks.len();
    let mut stacks: Vec<Json> = Vec::new();
    let mut j: usize = 0;
    while j < n
        invariant
            j <= n == job.stacks@.len(),
            per_lib_wf(per_lib@),
            forall|q: int| 0 <= q < job.stacks@.len() ==> (#[trigger] job.stacks@[q])@.len()
                <= 0xffff_ffff,
            jview_seq(stacks@) =~= Seq::new(
                j as nat,
                |q: int| GJson::Arr(stack_objs_spec(job.stacks@[q]@, job.memory_map@, per_lib@)),
            ),
        decreases n - j,
    {
        let ghost stacks0 = stacks@;
        let sj = response_stack_json(&job.stacks[j], &job.memory_map, per_lib);
        stacks.push(sj);
        proof {
            lemma_jview_seq_push(stacks0, stacks@.last());
            assert(jview_seq(stacks@) =~= Seq::new(
                j as nat + 1,
                |q: int| GJson::Arr(stack_objs_spec(job.stacks@[q]@, job.memory_map@, per_lib@)),
            ));
        }
        j += 1;
    }
    proof {
        assert(jview_seq(stacks@) =~= stacks_spec(job.stacks@, job.memory_map@, per_lib@));
    }
    let mut found: Vec<(Vec<u8>, Json)> = Vec::new();
    let mut errors: Vec<(Vec<u8>, Json)> = Vec::new();
    let mm = job.memory_map.len();
    let mut p: usize = 0;
    while p < mm
        invariant
            p <= mm == job.memory_map@.len(),
            per_lib_wf(per_lib@),
            jview_members(found@) =~= found_modules_spec(
                job.memory_map@.subrange(0, p as int),
                per_lib@,
            ),
            jview_members(errors@) =~= module_errors_spec(
                job.memory_map@.subrange(0, p as int),
                per_lib@,
            ),
        decreases mm - p,
    {
        let lib = &job.memory_map[p];
        proof {
            lemma_found_modules_push(job.memory_map@.subrange(0, p as int), *lib, per_lib@);
            lemma_module_errors_push(job.memory_map@.subrange(0, p as int), *lib, per_lib@);
            assert(job.memory_map@.subrange(0, p as int + 1) =~= job.memory_map@.subrange(
                0,
                p as int,
            ).push(*lib));
        }
        match find_lib_exec(per_lib, &lib.debug_name, &lib.breakpad_id) {
            Some(i) => {
                let mut key = lib.debug_name.as_str().as_bytes_vec();
                key.push(47);
                let mut idb = lib.breakpad_id.as_str().as_bytes_vec();
                key.append(&mut idb);
                proof {
                    assert(key@ == module_key_bytes(*lib));
                }
                match &per_lib[i].1 {
                    Ok(_) => {
                        let ghost found0 = found@;
                        found.push((key, Json::Bool(true)));
                        proof {
                            lemma_jview_members_push(found0, found@.last().0, found@.last().1);
                        }
                    },
                    Err(e) => {
                        let ghost found0 = found@;
                        let mut key2: Vec<u8> = Vec::new();
                        let mut kc = crate::symbol_map::copy_byte_string(&key);
                        key2.append(&mut kc);
                        found.push((key, Json::Bool(false)));
                        proof {
                            lemma_jview_members_push(found0, found@.last().0, found@.last().1);
                        }
                        let mut entry_ms: Vec<(Vec<u8>, Json)> = Vec::new();
                        let ghost e0 = entry_ms@;
                        let kind = e.enum_as_string();
                        entry_ms.push(("name".as_bytes_vec(), Json::Str(kind.as_bytes_vec())));
                        proof {
                            lemma_jview_members_push(e0, entry_ms@.last().0, entry_ms@.last().1);
                        }
                        let ghost e1 = entry_ms@;
                        entry_ms.push(("message".as_bytes_vec(), Json::Str(e.message_bytes())));
                        proof {
                            lemma_jview_members_push(e1, entry_ms@.last().0, entry_ms@.last().1);
                        }
                        proof {
                            assert(e0 =~= Seq::<(Vec<u8>, Json)>::empty());
                            assert(jview_members(e0) =~= Seq::<(Seq<u8>, GJson)>::empty());
                            assert(jview_members(entry_ms@) =~= seq![
                                (
                                    encode_utf8("name"@),
                                    GJson::Str(encode_utf8(kind_name_spec(*e))),
                                ),
                                (encode_utf8("message"@), GJson::Str(message_spec(*e))),
                            ]);
                        }
                        let mut entry_items: Vec<Json> = Vec::new();
                        entry_items.push(Json::Obj(entry_ms));
                        let ghost errors0 = errors@;
                        errors.push((key2, Json::Arr(entry_items)));
                        proof {
                            assert(jview_seq(entry_items@) =~= seq![jview(entry_items@[0])]
                                + jview_seq(entry_items@.skip(1)));
                            assert(entry_items@.skip(1) =~= Seq::<Json>::empty());
                            assert(jview_seq(entry_items@.skip(1)) =~= Seq::<GJson>::empty());
                            lemma_jview_members_push(errors0, errors@.last().0, errors@.last().1);
                            assert(jview(errors@.last().1) == error_entry_spec(*e));
                        }
                    },
                }
            },
            None => {},
        }
        p += 1;
    }
    proof {
        assert(job.memory_map@.subrange(0, mm as int) =~= job.memory_map@);
    }
    let mut ms: Vec<(Vec<u8>, Json)> = Vec::new();
    let ghost ms0 = ms@;
    ms.push(("stacks".as_bytes_vec(), Json::Arr(stacks)));
    proof {
        lemma_jview_members_push(ms0, ms@.last().0, ms@.last().1);
    }
    let ghost ms1 = ms@;
    ms.push(("found_modules".as_bytes_vec(), Json::Obj(found)));
    proof {
        lemma_jview_members_push(ms1, ms@.last().0, ms@.last().1);
    }
    if errors.len() > 0 {
        let ghost ms2 = ms@;
        ms.push(("module_errors".as_bytes_vec(), Json::Obj(errors)));
        proof {
            lemma_jview_members_push(ms2, ms@.last().0, ms@.last().1);
        }
    } else {
        proof {
            assert(module_errors_spec(job.memory_map@, per_lib@).len() == 0);
        }
    }
    proof {
        assert(jview_members(ms@) =~= job_members_spec(*job, per_lib@));
    }
    Json::Obj(ms)
}

/// Builds the whole response object for a request, given the per-library
/// load outcomes.
pub fn build_response_json(
    request: &Request,
    per_lib: &Vec<(Lib, Result<LibSymbols, Error>)>,
) -> (r: Json)
    requires
        per_lib_wf(per_lib@),
        forall|i: int, j: int|
            0 <= i < request.jobs@.len() && 0 <= j < (#[trigger] request.jobs@[i]).stacks@.len()
                ==> (#[trigger] request.jobs@[i].stacks@[j])@.len() <= 0xffff_ffff,
    ensures
        jview(r) == response_spec(request.jobs@, per_lib@),
{
    let n = request.jobs.len();
    let mut results: Vec<Json> = Vec::new();
    let mut i: usize = 0;
    while i < n
        invariant
            i <= n == request.jobs@.len(),
            per_lib_wf(per_lib@),
            forall|q: int, j: int|
                0 <= q < request.jobs@.len() && 0 <= j < (
                #[trigger] request.jobs@[q]).stacks@.len() ==> (
                #[trigger] request.jobs@[q].stacks@[j])@.len() <= 0xffff_ffff,
            jview_seq(results@) =~= Seq::new(
                i as nat,
                |q: int| GJson::Obj(job_members_spec(request.jobs@[q], per_lib@)),
            ),
        decreases n - i,
    {
        let ghost results0 = results@;
        let jr = job_response_json(&request.jobs[i], per_lib);
        results.push(jr);
        proof {
            lemma_jview_seq_push(results0, results@.last());
            assert(jview_seq(results@) =~= Seq::new(
                i as nat + 1,
                |q: int| GJson::Obj(job_members_spec(request.jobs@[q], per_lib@)),
            ));
        }
        i += 1;
    }
    let mut ms: Vec<(Vec<u8>, Json)> = Vec::new();
    let ghost ms0 = ms@;
    ms.push(("results".as_bytes_vec(), Json::Arr(results)));
    proof {
        lemma_jview_members_push(ms0, ms@.last().0, ms@.last().1);
        assert(jview_members(ms@) =~= response_spec(request.jobs@, per_lib@)->Obj_0);
    }
    Json::Obj(ms)
}

/// Serializes the response for a request. Parsing the returned bytes as
/// JSON reproduces exactly the response structure: the serialized response
/// round-trips.
pub fn serialize_response(
    request: &Request,
    per_lib: &Vec<(Lib, Result<LibSymbols, Error>)>,
) -> (r: Vec<u8>)
    requires
        per_lib_wf(per_lib@),
        forall|i: int, j: int|
            0 <= i < request.jobs@.len() && 0 <= j < (#[trigger] request.jobs@[i]).stacks@.len()
                ==> (#[trigger] request.jobs@[i].stacks@[j])@.len() <= 0xffff_ffff,
    ensures
        crate::json::parse_value(r@, 0) == Some(
            (response_spec(request.jobs@, per_lib@), r@.len() as int),
        ),
{
    let tree = build_response_json(request, per_lib);
    let out = crate::json::to_bytes(&tree);
    proof {
        crate::json::lemma_json_round_trip(tree);
    }
    out
}


/// Shape of the response: one result per job, stacks in request order and
/// of the request's lengths, and each frame object numbered by its position
/// in its stack.
pub proof fn lemma_response_stack_shape(
    jobs: Seq<Job>,
    per_lib: Seq<(Lib, Result<LibSymbols, Error>)>,
    i: int,
    j: int,
)
    requires
        0 <= i < jobs.len(),
        0 <= j < jobs[i].stacks@.len(),
    ensures
        ({
            let r = response_spec(jobs, per_lib);
            &&& r matches GJson::Obj(rm)
            &&& r->Obj_0.len() == 1
            &&& r->Obj_0[0].0 == encode_utf8("results"@)
            &&& r->Obj_0[0].1 matches GJson::Arr(results)
            &&& r->Obj_0[0].1->Arr_0.len() == jobs.len()
            &&& {
                let job_obj = r->Obj_0[0].1->Arr_0[i];
                &&& job_obj matches GJson::Obj(jm)
                &&& job_obj->Obj_0[0].0 == encode_utf8("stacks"@)
                &&& job_obj->Obj_0[0].1 matches GJson::Arr(ss)
                &&& job_obj->Obj_0[0].1->Arr_0.len() == jobs[i].stacks@.len()
                &&& {
                    let stack_arr = job_obj->Obj_0[0].1->Arr_0[j];
                    &&& stack_arr matches GJson::Arr(fs)
                    &&& stack_arr->Arr_0.len() == jobs[i].stacks@[j]@.len()
                    &&& forall|k: int|
                        0 <= k < stack_arr->Arr_0.len() ==> ((#[trigger] stack_arr->Arr_0[k])
                            matches GJson::Obj(fm) && stack_arr->Arr_0[k]->Obj_0[0] == (
                            encode_utf8("frame"@),
                            GJson::UInt(k as u64),
                        ))
                }
            }
        }),
{
    let r = response_spec(jobs, per_lib);
    let results = r->Obj_0[0].1->Arr_0;
    assert(results[i] == GJson::Obj(job_members_spec(jobs[i], per_lib)));
    let ss = results[i]->Obj_0[0].1->Arr_0;
    assert(ss == stacks_spec(jobs[i].stacks@, jobs[i].memory_map@, per_lib));
    assert(ss[j] == GJson::Arr(
        stack_objs_spec(jobs[i].stacks@[j]@, jobs[i].memory_map@, per_lib),
    ));
    let fs = ss[j]->Arr_0;
    assert forall|k: int| 0 <= k < fs.len() implies ((#[trigger] fs[k]) matches GJson::Obj(fm)
        && fs[k]->Obj_0[0] == (encode_utf8("frame"@), GJson::UInt(k as u64))) by {
        let stack = jobs[i].stacks@[j]@;
        assert(fs[k] == GJson::Obj(
            frame_members_spec(
                k,
                stack[k],
                jobs[i].memory_map@,
                md_of(stack[k], jobs[i].memory_map@, per_lib),
            ),
        ));
    }
}

/// Inline-frame ordering: when an answered frame carries an inline stack of
/// two or more frames, the frame-level `function` field reflects the
/// outermost (last) frame's name with the symbol name as fallback, the
/// frame-level `file` and `line` come from that outermost frame, and
/// `inlines` is the last member, listing exactly the remaining frames in
/// the same innermost-first order.
pub proof fn lemma_inline_frame_ordering(frame: RequestFrame, ar: AddressResult, sm: SymbolMap)
    requires
        ar.inline_frames matches Some(fhs) && fhs@.len() >= 2,
        ar.function_name == ar.inline_frames->Some_0@.last().function,
    ensures
        ({
            let fhs = ar.inline_frames->Some_0@;
            let outer = fhs.last();
            let prefix = fhs.subrange(0, fhs.len() - 1);
            let hm = hit_members_spec(frame, ar, sm);
            &&& hm[0] == (encode_utf8("function"@), GJson::Str(function_field_bytes(ar, sm)))
            &&& function_field_bytes(ar, sm) == (match outer.function {
                Some(h) => match resolved_function(h, sm) {
                    Some(cs) => encode_utf8(cs),
                    None => encode_utf8(ar.symbol.name@),
                },
                None => encode_utf8(ar.symbol.name@),
            })
            &&& hm.last() == (
                encode_utf8("inlines"@),
                GJson::Arr(inline_objs_spec(prefix, sm)),
            )
            &&& inline_objs_spec(prefix, sm).len() == fhs.len() - 1
            &&& forall|m: int|
                0 <= m < fhs.len() - 1 ==> inline_objs_spec(prefix, sm)[m] == GJson::Obj(
                    inline_members_spec(#[trigger] fhs[m], sm),
                )
        }),
{
    let fhs = ar.inline_frames->Some_0@;
    let prefix = fhs.subrange(0, fhs.len() - 1);
    assert forall|m: int| 0 <= m < fhs.len() - 1 implies inline_objs_spec(prefix, sm)[m]
        == GJson::Obj(inline_members_spec(#[trigger] fhs[m], sm)) by {
        assert(prefix[m] == fhs[m]);
    }
}


/// The frame coordinates `(i, j, k)` name a frame of the request.
pub open spec fn valid_frame(jobs: Seq<Job>, i: int, j: int, k: int) -> bool {
    &&& 0 <= i < jobs.len()
    &&& 0 <= j < jobs[i].stacks@.len()
    &&& 0 <= k < jobs[i].stacks@[j]@.len()
}

/// The frame at the given coordinates.
pub open spec fn frame_at(jobs: Seq<Job>, i: int, j: int, k: int) -> RequestFrame
    recommends
        valid_frame(jobs, i, j, k),
{
    jobs[i].stacks@[j]@[k]
}

/// The frame's module index names the library with these strings in its
/// job's memory map.
pub open spec fn frame_names_lib(
    job: Job,
    frame: RequestFrame,
    name: Seq<char>,
    id: Seq<char>,
) -> bool {
    &&& frame.module_index < job.memory_map@.len()
    &&& job.memory_map@[frame.module_index as int].debug_name@ == name
    &&& job.memory_map@[frame.module_index as int].breakpad_id@ == id
}

/// Some frame of the request names this library and carries this address.
pub open spec fn address_from_frame(
    jobs: Seq<Job>,
    name: Seq<char>,
    id: Seq<char>,
    address: u32,
) -> bool {
    exists|i: int, j: int, k: int|
        #![trigger frame_at(jobs, i, j, k)]
        valid_frame(jobs, i, j, k) && frame_names_lib(jobs[i], frame_at(jobs, i, j, k), name, id)
            && frame_at(jobs, i, j, k).address == address
}

/// Some frame of the request names this library.
pub open spec fn lib_from_frame(jobs: Seq<Job>, name: Seq<char>, id: Seq<char>) -> bool {
    exists|i: int, j: int, k: int|
        #![trigger frame_at(jobs, i, j, k)]
        valid_frame(jobs, i, j, k) && frame_names_lib(jobs[i], frame_at(jobs, i, j, k), name, id)
}

/// A stored lookup outcome is right for its address: a miss of the lookup
/// rule stores nothing, a hit stores the covering record's symbol, with the
/// record's inline frames (resolving in the map, the outermost frame's
/// function remembered) when it has them and no debug info otherwise.
pub open spec fn address_result_ok(sm: SymbolMap, address: u32, out: Option<AddressResult>) -> bool {
    match crate::symbol_map::lookup_sym_spec(sm.records(), address) {
        None => out is None,
        Some(i) => out matches Some(ar) && ({
            let rec = sm.records()[i];
            &&& ar.symbol.address == rec.address
            &&& ar.symbol.size == rec.size
            &&& ar.symbol.name@ == rec.name@
            &&& match rec.frames {
                crate::symbol_map::FramesSource::Inline(rf) => ar.inline_frames matches Some(fhs)
                    && crate::symbol_map::frames_resolve(
                    sm.generation(),
                    sm.borrowed(),
                    sm.owned(),
                    fhs@,
                    rf@,
                ) && ar.function_name == (if fhs@.len() > 0 {
                    fhs@.last().function
                } else {
                    None::<FunctionNameHandle>
                }),
                _ => ar.inline_frames is None && ar.function_name is None,
            }
        }),
    }
}

/// Appending an entry leaves earlier addresses' results in place and
/// answers a fresh address with the new entry.
proof fn lemma_find_result_push(
    rs: Seq<(u32, Option<AddressResult>)>,
    x: (u32, Option<AddressResult>),
    address: u32,
)
    ensures
        find_result(rs.push(x), address) == if find_result(rs, address) is Some {
            find_result(rs, address)
        } else if x.0 == address {
            Some(x.1)
        } else {
            None::<Option<AddressResult>>
        },
    decreases rs.len(),
{
    let rx = rs.push(x);
    if rs.len() == 0 {
        assert(rx[0] == x);
        assert(rx.skip(1) =~= Seq::<(u32, Option<AddressResult>)>::empty());
        assert(find_result(Seq::<(u32, Option<AddressResult>)>::empty(), address) is None);
        if x.0 != address {
            assert(find_result(rx, address) == find_result(rx.skip(1), address));
        }
    } else {
        assert(rx[0] == rs[0]);
        assert(rx.skip(1) =~= rs.skip(1).push(x));
        lemma_find_result_push(rs.skip(1), x, address);
        if rs[0].0 != address {
            assert(find_result(rx, address) == find_result(rs.skip(1).push(x), address));
            assert(find_result(rs, address) == find_result(rs.skip(1), address));
        }
    }
}

/// Appending an entry leaves earlier libraries' positions in place and
/// answers a fresh library with the new entry.
proof fn lemma_find_lib_push(
    per_lib: Seq<(Lib, Result<LibSymbols, Error>)>,
    x: (Lib, Result<LibSymbols, Error>),
    name: Seq<char>,
    id: Seq<char>,
)
    ensures
        find_lib(per_lib.push(x), name, id) == if find_lib(per_lib, name, id) is Some {
            find_lib(per_lib, name, id)
        } else if x.0.debug_name@ == name && x.0.breakpad_id@ == id {
            Some(per_lib.len() as int)
        } else {
            None::<int>
        },
    decreases per_lib.len(),
{
    let px = per_lib.push(x);
    if per_lib.len() == 0 {
        assert(px[0] == x);
        assert(px.skip(1) =~= Seq::<(Lib, Result<LibSymbols, Error>)>::empty());
        assert(find_lib(Seq::<(Lib, Result<LibSymbols, Error>)>::empty(), name, id) is None);
        if !(x.0.debug_name@ == name && x.0.breakpad_id@ == id) {
            assert(find_lib(px, name, id) == (match find_lib(px.skip(1), name, id) {
                Some(q) => Some(q + 1),
                None => None::<int>,
            }));
        }
    } else {
        assert(px[0] == per_lib[0]);
        assert(px.skip(1) =~= per_lib.skip(1).push(x));
        lemma_find_lib_push(per_lib.skip(1), x, name, id);
        if !(per_lib[0].0.debug_name@ == name && per_lib[0].0.breakpad_id@ == id) {
            assert(find_lib(px, name, id) == (match find_lib(per_lib.skip(1).push(x), name, id) {
                Some(q) => Some(q + 1),
                None => None::<int>,
            }));
            assert(find_lib(per_lib, name, id) == (match find_lib(per_lib.skip(1), name, id) {
                Some(q) => Some(q + 1),
                None => None::<int>,
            }));
        }
    }
}

/// A found library has matching strings at the found position.
proof fn lemma_find_lib_hit(
    per_lib: Seq<(Lib, Result<LibSymbols, Error>)>,
    name: Seq<char>,
    id: Seq<char>,
)
    requires
        find_lib(per_lib, name, id) is Some,
    ensures
        ({
            let p = find_lib(per_lib, name, id)->Some_0;
            &&& 0 <= p < per_lib.len()
            &&& per_lib[p].0.debug_name@ == name
            &&& per_lib[p].0.breakpad_id@ == id
        }),
    decreases per_lib.len(),
{
    if per_lib.len() > 0 && !(per_lib[0].0.debug_name@ == name && per_lib[0].0.breakpad_id@
        == id) {
        lemma_find_lib_hit(per_lib.skip(1), name, id);
        let p = find_lib(per_lib.skip(1), name, id)->Some_0;
        assert(per_lib[p + 1] == per_lib.skip(1)[p]);
    }
}

/// A missing library matches no entry.
proof fn lemma_find_lib_none(
    per_lib: Seq<(Lib, Result<LibSymbols, Error>)>,
    name: Seq<char>,
    id: Seq<char>,
)
    requires
        find_lib(per_lib, name, id) is None,
    ensures
        forall|p: int|
            0 <= p < per_lib.len() ==> !((#[trigger] per_lib[p]).0.debug_name@ == name
                && per_lib[p].0.breakpad_id@ == id),
    decreases per_lib.len(),
{
    if per_lib.len() > 0 {
        lemma_find_lib_none(per_lib.skip(1), name, id);
        assert forall|p: int|
            0 <= p < per_lib.len() implies !((#[trigger] per_lib[p]).0.debug_name@ == name
                && per_lib[p].0.breakpad_id@ == id) by {
            if p > 0 {
                assert(per_lib.skip(1)[p - 1] == per_lib[p]);
            }
        }
    }
}

/// A stored result's address found matches the predicate of some stored
/// entry.
proof fn lemma_find_result_hit(rs: Seq<(u32, Option<AddressResult>)>, address: u32)
    requires
        find_result(rs, address) is Some,
    ensures
        exists|q: int|
            0 <= q < rs.len() && (#[trigger] rs[q]).0 == address && rs[q].1 == find_result(
                rs,
                address,
            )->Some_0,
    decreases rs.len(),
{
    if rs.len() > 0 && rs[0].0 != address {
        lemma_find_result_hit(rs.skip(1), address);
        let q = choose|q: int|
            0 <= q < rs.skip(1).len() && (#[trigger] rs.skip(1)[q]).0 == address && rs.skip(
                1,
            )[q].1 == find_result(rs.skip(1), address)->Some_0;
        assert(rs[q + 1] == rs.skip(1)[q]);
    }
}

/// The per-library outcomes a request needs: one entry per distinct library
/// that some frame references, in first-appearance order. A successful
/// entry holds the library's symbol map — parsed from breakpad bytes whose
/// id is the one the entry's key spells — and a correct lookup outcome for
/// exactly the addresses of the frames naming the library.
pub fn gather_per_lib<H: crate::manager::FileAndPathHelper>(
    manager: &mut crate::manager::SymbolManager<'_, H>,
    request: &Request,
) -> (r: Vec<(Lib, Result<LibSymbols, Error>)>)
    requires
        old(manager).wf(),
    ensures
        final(manager).wf(),
        per_lib_wf(r@),
        forall|p1: int, p2: int|
            0 <= p1 < p2 < r@.len() ==> !((#[trigger] r@[p1]).0.debug_name@ == (
            #[trigger] r@[p2]).0.debug_name@ && r@[p1].0.breakpad_id@ == r@[p2].0.breakpad_id@),
        forall|i: int, j: int, k: int|
            valid_frame(request.jobs@, i, j, k) && frame_at(request.jobs@, i, j, k).module_index
                < request.jobs@[i].memory_map@.len() ==> find_lib(
                r@,
                request.jobs@[i].memory_map@[frame_at(
                    request.jobs@,
                    i,
                    j,
                    k,
                ).module_index as int].debug_name@,
                request.jobs@[i].memory_map@[frame_at(
                    request.jobs@,
                    i,
                    j,
                    k,
                ).module_index as int].breakpad_id@,
            ) is Some,
        forall|p: int|
            0 <= p < r@.len() ==> lib_from_frame(
                request.jobs@,
                (#[trigger] r@[p]).0.debug_name@,
                r@[p].0.breakpad_id@,
            ),
        forall|p: int|
            0 <= p < r@.len() ==> per_lib_entry_ok(request.jobs@, #[trigger] r@[p]),
{
    let ghost jobs = request.jobs@;
    let mut per_lib: Vec<(Lib, Result<LibSymbols, Error>)> = Vec::new();
    let nj = request.jobs.len();
    let mut i: usize = 0;
    while i < nj
        invariant
            i <= nj == jobs.len(),
            jobs == request.jobs@,
            per_lib_wf(per_lib@),
            manager.wf(),
            forall|p1: int, p2: int|
                0 <= p1 < p2 < per_lib@.len() ==> !((#[trigger] per_lib@[p1]).0.debug_name@ == (
                #[trigger] per_lib@[p2]).0.debug_name@ && per_lib@[p1].0.breakpad_id@
                    == per_lib@[p2].0.breakpad_id@),
            forall|i2: int, j2: int, k2: int|
                valid_frame(jobs, i2, j2, k2) && i2 < i && frame_at(jobs, i2, j2, k2).module_index
                    < jobs[i2].memory_map@.len() ==> find_lib(
                    per_lib@,
                    jobs[i2].memory_map@[frame_at(jobs, i2, j2, k2).module_index as int].debug_name@,
                    jobs[i2].memory_map@[frame_at(
                        jobs,
                        i2,
                        j2,
                        k2,
                    ).module_index as int].breakpad_id@,
                ) is Some,
            forall|p: int|
                0 <= p < per_lib@.len() ==> lib_from_frame(
                jobs,
                (#[trigger] per_lib@[p]).0.debug_name@,
                per_lib@[p].0.breakpad_id@,
            ),
            forall|p: int|
                0 <= p < per_lib@.len() ==> per_lib_entry_ok(jobs, #[trigger] per_lib@[p]),
        decreases nj - i,
    {
        let job = &request.jobs[i];
        let ns = job.stacks.len();
        let mut j: usize = 0;
        while j < ns
            invariant
                i < nj == jobs.len(),
                j <= ns == jobs[i as int].stacks@.len(),
                jobs == request.jobs@,
                job == &request.jobs@[i as int],
                per_lib_wf(per_lib@),
                manager.wf(),
                forall|p1: int, p2: int|
                    0 <= p1 < p2 < per_lib@.len() ==> !((#[trigger] per_lib@[p1]).0.debug_name@
                        == (#[trigger] per_lib@[p2]).0.debug_name@ && per_lib@[p1].0.breakpad_id@
                        == per_lib@[p2].0.breakpad_id@),
                forall|i2: int, j2: int, k2: int|
                    valid_frame(jobs, i2, j2, k2) && (i2 < i || (i2 == i && j2 < j)) && frame_at(
                        jobs,
                        i2,
                        j2,
                        k2,
                    ).module_index < jobs[i2].memory_map@.len() ==> find_lib(
                        per_lib@,
                        jobs[i2].memory_map@[frame_at(
                            jobs,
                            i2,
                            j2,
                            k2,
                        ).module_index as int].debug_name@,
                        jobs[i2].memory_map@[frame_at(
                            jobs,
                            i2,
                            j2,
                            k2,
                        ).module_index as int].breakpad_id@,
                    ) is Some,
                forall|p: int|
                    0 <= p < per_lib@.len() ==> lib_from_frame(
                jobs,
                (#[trigger] per_lib@[p]).0.debug_name@,
                per_lib@[p].0.breakpad_id@,
            ),
                forall|p: int|
                    0 <= p < per_lib@.len() ==> per_lib_entry_ok(jobs, #[trigger] per_lib@[p]),
            decreases ns - j,
        {
            let stack = &job.stacks[j];
            let nf = stack.len();
            let mut k: usize = 0;
            while k < nf
                invariant
                    i < nj == jobs.len(),
                    j < ns == jobs[i as int].stacks@.len(),
                    k <= nf == jobs[i as int].stacks@[j as int]@.len(),
                    jobs == request.jobs@,
                    job == &request.jobs@[i as int],
                    stack == &request.jobs@[i as int].stacks@[j as int],
                    per_lib_wf(per_lib@),
                    manager.wf(),
                    forall|p1: int, p2: int|
                        0 <= p1 < p2 < per_lib@.len() ==> !((
                        #[trigger] per_lib@[p1]).0.debug_name@ == (
                        #[trigger] per_lib@[p2]).0.debug_name@ && per_lib@[p1].0.breakpad_id@
                            == per_lib@[p2].0.breakpad_id@),
                    forall|i2: int, j2: int, k2: int|
                        valid_frame(jobs, i2, j2, k2) && (i2 < i || (i2 == i && j2 < j) || (i2
                            == i && j2 == j && k2 < k)) && frame_at(
                            jobs,
                            i2,
                            j2,
                            k2,
                        ).module_index < jobs[i2].memory_map@.len() ==> find_lib(
                            per_lib@,
                            jobs[i2].memory_map@[frame_at(
                                jobs,
                                i2,
                                j2,
                                k2,
                            ).module_index as int].debug_name@,
                            jobs[i2].memory_map@[frame_at(
                                jobs,
                                i2,
                                j2,
                                k2,
                            ).module_index as int].breakpad_id@,
                        ) is Some,
                    forall|p: int|
                        0 <= p < per_lib@.len() ==> lib_from_frame(
                jobs,
                (#[trigger] per_lib@[p]).0.debug_name@,
                per_lib@[p].0.breakpad_id@,
            ),
                    forall|p: int|
                        0 <= p < per_lib@.len() ==> per_lib_entry_ok(
                            jobs,
                            #[trigger] per_lib@[p],
                        ),
                decreases nf - k,
            {
                let frame = &stack[k];
                let mi = frame.module_index as usize;
                if mi < job.memory_map.len() {
                    let lib = &job.memory_map[mi];
                    let ghost pl0 = per_lib@;
                    if find_lib_exec(&per_lib, &lib.debug_name, &lib.breakpad_id).is_none() {
                        let outcome: Result<LibSymbols, Error> = match crate::debug_id::DebugId
                            ::from_breakpad(lib.breakpad_id.as_str()) {
                            Some(debug_id) => {
                                match manager.load_symbol_map(lib.debug_name.as_str(), debug_id) {
                                    Ok(symbol_map) => {
                                        let address_results = lookup_job_addresses(
                                            &symbol_map,
                                            request,
                                            &lib.debug_name,
                                            &lib.breakpad_id,
                                        );
                                        Ok(LibSymbols { address_results, symbol_map })
                                    },
                                    Err(e) => Err(e),
                                }
                            },
                            None => Err(
                                Error::InvalidInputError(
                                    "The breakpad id is not 33 to 40 hex digits",
                                ),
                            ),
                        };
                        let entry = (
                            Lib {
                                debug_name: lib.debug_name.clone(),
                                breakpad_id: lib.breakpad_id.clone(),
                            },
                            outcome,
                        );
                        proof {
                            assert(per_lib_entry_ok(jobs, entry));
                            lemma_find_lib_none(pl0, lib.debug_name@, lib.breakpad_id@);
                        }
                        per_lib.push(entry);
                        proof {
                            assert forall|n2: Seq<char>, i2: Seq<char>|
                                #[trigger] find_lib(pl0, n2, i2) is Some implies find_lib(
                                per_lib@,
                                n2,
                                i2,
                            ) == find_lib(pl0, n2, i2) by {
                                lemma_find_lib_push(pl0, per_lib@.last(), n2, i2);
                            }
                            lemma_find_lib_push(
                                pl0,
                                per_lib@.last(),
                                lib.debug_name@,
                                lib.breakpad_id@,
                            );
                            assert(valid_frame(jobs, i as int, j as int, k as int)
                                && frame_names_lib(
                                jobs[i as int],
                                frame_at(jobs, i as int, j as int, k as int),
                                per_lib@.last().0.debug_name@,
                                per_lib@.last().0.breakpad_id@,
                            ));
                        }
                    }
                }
                k += 1;
            }
            j += 1;
        }
        i += 1;
    }
    per_lib
}

/// What one per-library entry promises: a successful load carries a
/// well-formed symbol map whose id is the one the entry's breakpad-id
/// string spells, with a correct lookup outcome stored for exactly the
/// frames that name the library.
pub open spec fn per_lib_entry_ok(jobs: Seq<Job>, entry: (Lib, Result<LibSymbols, Error>)) -> bool {
    match entry.1 {
        Ok(ls) => {
            &&& ls.wf()
            &&& crate::debug_id::valid_breakpad_bytes(
                vstd::utf8::encode_utf8(entry.0.breakpad_id@),
            )
            &&& ls.symbol_map.debug_id_spec() == crate::debug_id::debug_id_of_bytes(
                vstd::utf8::encode_utf8(entry.0.breakpad_id@),
            )
            &&& forall|q: int|
                0 <= q < ls.address_results@.len() ==> address_result_ok(
                    ls.symbol_map,
                    (#[trigger] ls.address_results@[q]).0,
                    ls.address_results@[q].1,
                )
            &&& forall|q: int|
                0 <= q < ls.address_results@.len() ==> address_from_frame(
                    jobs,
                    entry.0.debug_name@,
                    entry.0.breakpad_id@,
                    (#[trigger] ls.address_results@[q]).0,
                )
            &&& forall|i: int, j: int, k: int|
                valid_frame(jobs, i, j, k) && frame_names_lib(
                    jobs[i],
                    #[trigger] frame_at(jobs, i, j, k),
                    entry.0.debug_name@,
                    entry.0.breakpad_id@,
                ) ==> (find_result(ls.address_results@, frame_at(jobs, i, j, k).address) matches
                    Some(out) && address_result_ok(
                    ls.symbol_map,
                    frame_at(jobs, i, j, k).address,
                    out,
                ))
        },
        Err(_) => true,
    }
}

/// Looks up every request frame that names the given library against its
/// symbol map: a correct outcome is stored for exactly those frames'
/// addresses, one entry per distinct address.
fn lookup_job_addresses(
    symbol_map: &SymbolMap,
    request: &Request,
    debug_name: &String,
    breakpad_id: &String,
) -> (r: AddressResults)
    requires
        symbol_map.wf(),
    ensures
        forall|q: int| 0 <= q < r@.len() ==> match (#[trigger] r@[q]).1 {
            Some(ar) => ar.symbol.address <= r@[q].0,
            None => true,
        },
        forall|q: int|
            0 <= q < r@.len() ==> address_result_ok(*symbol_map, (#[trigger] r@[q]).0, r@[q].1),
        forall|q: int|
            0 <= q < r@.len() ==> address_from_frame(
                request.jobs@,
                debug_name@,
                breakpad_id@,
                (#[trigger] r@[q]).0,
            ),
        forall|i: int, j: int, k: int|
            valid_frame(request.jobs@, i, j, k) && frame_names_lib(
                request.jobs@[i],
                #[trigger] frame_at(request.jobs@, i, j, k),
                debug_name@,
                breakpad_id@,
            ) ==> (find_result(r@, frame_at(request.jobs@, i, j, k).address) matches Some(out)
                && address_result_ok(
                *symbol_map,
                frame_at(request.jobs@, i, j, k).address,
                out,
            )),
{
    let ghost jobs = request.jobs@;
    let mut results: AddressResults = Vec::new();
    let nj = request.jobs.len();
    let mut i: usize = 0;
    while i < nj
        invariant
            i <= nj == jobs.len(),
            jobs == request.jobs@,
            symbol_map.wf(),
            forall|q: int| 0 <= q < results@.len() ==> match (#[trigger] results@[q]).1 {
                Some(ar) => ar.symbol.address <= results@[q].0,
                None => true,
            },
            forall|q: int|
                0 <= q < results@.len() ==> address_result_ok(
                    *symbol_map,
                    (#[trigger] results@[q]).0,
                    results@[q].1,
                ),
            forall|q: int|
                0 <= q < results@.len() ==> address_from_frame(
                jobs,
                debug_name@,
                breakpad_id@,
                (#[trigger] results@[q]).0,
            ),
            forall|i2: int, j2: int, k2: int|
                valid_frame(jobs, i2, j2, k2) && i2 < i && frame_names_lib(
                    jobs[i2],
                    #[trigger] frame_at(jobs, i2, j2, k2),
                    debug_name@,
                    breakpad_id@,
                ) ==> (find_result(results@, frame_at(jobs, i2, j2, k2).address) matches Some(out)
                    && address_result_ok(
                    *symbol_map,
                    frame_at(jobs, i2, j2, k2).address,
                    out,
                )),
        decreases nj - i,
    {
        let job = &request.jobs[i];
        let ns = job.stacks.len();
        let mut j: usize = 0;
        while j < ns
            invariant
                i < nj == jobs.len(),
                j <= ns == jobs[i as int].stacks@.len(),
                jobs == request.jobs@,
                job == &request.jobs@[i as int],
                symbol_map.wf(),
                forall|q: int| 0 <= q < results@.len() ==> match (#[trigger] results@[q]).1 {
                    Some(ar) => ar.symbol.address <= results@[q].0,
                    None => true,
                },
                forall|q: int|
                    0 <= q < results@.len() ==> address_result_ok(
                        *symbol_map,
                        (#[trigger] results@[q]).0,
                        results@[q].1,
                    ),
                forall|q: int|
                    0 <= q < results@.len() ==> address_from_frame(
                jobs,
                debug_name@,
                breakpad_id@,
                (#[trigger] results@[q]).0,
            ),
                forall|i2: int, j2: int, k2: int|
                    valid_frame(jobs, i2, j2, k2) && (i2 < i || (i2 == i && j2 < j))
                        && frame_names_lib(
                        jobs[i2],
                        #[trigger] frame_at(jobs, i2, j2, k2),
                        debug_name@,
                        breakpad_id@,
                    ) ==> (find_result(results@, frame_at(jobs, i2, j2, k2).address) matches Some(
                        out,
                    ) && address_result_ok(
                        *symbol_map,
                        frame_at(jobs, i2, j2, k2).address,
                        out,
                    )),
            decreases ns - j,
        {
            let stack = &job.stacks[j];
            let nf = stack.len();
            let mut k: usize = 0;
            while k < nf
                invariant
                    i < nj == jobs.len(),
                    j < ns == jobs[i as int].stacks@.len(),
                    k <= nf == jobs[i as int].stacks@[j as int]@.len(),
                    jobs == request.jobs@,
                    job == &request.jobs@[i as int],
                    stack == &request.jobs@[i as int].stacks@[j as int],
                    symbol_map.wf(),
                    forall|q: int| 0 <= q < results@.len() ==> match (
                    #[trigger] results@[q]).1 {
                        Some(ar) => ar.symbol.address <= results@[q].0,
                        None => true,
                    },
                    forall|q: int|
                        0 <= q < results@.len() ==> address_result_ok(
                            *symbol_map,
                            (#[trigger] results@[q]).0,
                            results@[q].1,
                        ),
                    forall|q: int|
                        0 <= q < results@.len() ==> address_from_frame(
                jobs,
                debug_name@,
                breakpad_id@,
                (#[trigger] results@[q]).0,
            ),
                    forall|i2: int, j2: int, k2: int|
                        valid_frame(jobs, i2, j2, k2) && (i2 < i || (i2 == i && j2 < j) || (i2
                            == i && j2 == j && k2 < k)) && frame_names_lib(
                            jobs[i2],
                            #[trigger] frame_at(jobs, i2, j2, k2),
                            debug_name@,
                            breakpad_id@,
                        ) ==> (find_result(results@, frame_at(jobs, i2, j2, k2).address) matches
                            Some(out) && address_result_ok(
                            *symbol_map,
                            frame_at(jobs, i2, j2, k2).address,
                            out,
                        )),
                decreases nf - k,
            {
                let frame = &stack[k];
                let mi = frame.module_index as usize;
                if mi < job.memory_map.len() && job.memory_map[mi].debug_name.eq(debug_name)
                    && job.memory_map[mi].breakpad_id.eq(breakpad_id) {
                    let ghost rs0 = results@;
                    if find_result_exec(&results, frame.address).is_none() {
                        let out: Option<AddressResult> = match symbol_map.lookup(frame.address) {
                            Some(info) => {
                                let mut ar = AddressResult::new(info.symbol);
                                match info.frames {
                                    crate::shared::FramesLookupResult::Available(fhs) => {
                                        ar.set_debug_info(fhs);
                                    },
                                    _ => {},
                                }
                                proof {
                                    crate::symbol_map::lemma_lookup_within(
                                        symbol_map.records(),
                                        frame.address,
                                    );
                                }
                                Some(ar)
                            },
                            None => None,
                        };
                        proof {
                            assert(address_result_ok(*symbol_map, frame.address, out));
                        }
                        results.push((frame.address, out));
                        proof {
                            assert forall|a2: u32| #[trigger] find_result(rs0, a2) is Some implies
                                find_result(results@, a2) == find_result(rs0, a2) by {
                                lemma_find_result_push(rs0, results@.last(), a2);
                            }
                            lemma_find_result_push(rs0, results@.last(), frame.address);
                            assert(valid_frame(jobs, i as int, j as int, k as int)
                                && frame_names_lib(
                                jobs[i as int],
                                frame_at(jobs, i as int, j as int, k as int),
                                debug_name@,
                                breakpad_id@,
                            ) && frame_at(jobs, i as int, j as int, k as int).address
                                == results@.last().0);
                        }
                    }
                }
                k += 1;
            }
            j += 1;
        }
        i += 1;
    }
    results
}

/// Answers a whole request: loads what it names, looks everything up, and
/// returns the serialized response. The bytes parse back, in full, to the
/// response structure for some well-formed per-library outcome sequence.
pub fn query<H: crate::manager::FileAndPathHelper>(
    manager: &mut crate::manager::SymbolManager<'_, H>,
    request: &Request,
) -> (r: Vec<u8>)
    requires
        old(manager).wf(),
        forall|i: int, j: int|
            0 <= i < request.jobs@.len() && 0 <= j < (#[trigger] request.jobs@[i]).stacks@.len()
                ==> (#[trigger] request.jobs@[i].stacks@[j])@.len() <= 0xffff_ffff,
    ensures
        final(manager).wf(),
        exists|pl: Seq<(Lib, Result<LibSymbols, Error>)>|
            #![trigger response_spec(request.jobs@, pl)]
            per_lib_wf(pl) && crate::json::parse_value(r@, 0) == Some(
                (response_spec(request.jobs@, pl), r@.len() as int),
            ),
{
    let per_lib = gather_per_lib(manager, request);
    let out = serialize_response(request, &per_lib);
    proof {
        assert(per_lib_wf(per_lib@) && crate::json::parse_value(out@, 0) == Some(
            (response_spec(request.jobs@, per_lib@), out@.len() as int),
        ));
    }
    out
}

} // verus!
