//! Shared data model: file locations and paths, symbol and address
//! information, inline stack frames, and references to external debug files.

use crate::interner::{FunctionNameHandle, SourceFilePathHandle};
use vstd::prelude::*;
use vstd::string::StringSliceAdditionalSpecFns;

verus! {

/// Where a symbol-bearing artifact may be found: a single file, or a dylib
/// inside a dyld shared cache.
pub enum CandidatePathInfo {
    SingleFile(FileLocation),
    InDyldCache { dyld_cache_path: String, dylib_path: String },
}

/// A file that the host can open: a local path, or a host-opaque string such
/// as a download token. Only local files may refer to local source files.
#[derive(Clone, Debug)]
pub enum FileLocation {
    Path(String),
    Custom(String),
}

/// Base directory against which relative source paths inside a symbol file
/// are resolved. Files from custom locations get no local source access.
#[derive(Clone, Debug)]
pub enum BasePath {
    NoLocalSourceFileAccess,
    CanReferToLocalFiles(String),
}

/// Index of the last path separator in `b`, if any.
pub open spec fn last_separator(b: Seq<u8>) -> Option<int>
    decreases b.len(),
{
    if b.len() == 0 {
        None
    } else if b.last() == 47 {
        Some(b.len() - 1)
    } else {
        last_separator(b.drop_last())
    }
}

/// The path with its trailing separators removed.
pub open spec fn strip_trailing_seps(b: Seq<u8>) -> Seq<u8>
    decreases b.len(),
{
    if b.len() > 0 && b.last() == 47 {
        strip_trailing_seps(b.drop_last())
    } else {
        b
    }
}

/// The parent directory of a path, following the rule of `parent` with the
/// path itself as fallback: trailing separators are ignored, the final
/// component is dropped, a path reduced to the root keeps a single
/// separator, a bare file name has an empty parent, and a path that is
/// nothing but separators (or empty) stays as it is.
pub open spec fn parent_bytes(b: Seq<u8>) -> Seq<u8> {
    let t = strip_trailing_seps(b);
    if t.len() == 0 {
        b
    } else {
        match last_separator(t) {
            None => Seq::empty(),
            Some(i) => {
                let u = strip_trailing_seps(t.subrange(0, i));
                if u.len() == 0 {
                    seq![47u8]
                } else {
                    u
                }
            },
        }
    }
}

impl FileLocation {
    /// The location as one printable string.
    pub fn to_string_lossy(&self) -> (r: String)
        ensures
            match self {
                FileLocation::Path(p) => r@ == p@,
                FileLocation::Custom(c) => r@ == c@,
            },
    {
        match self {
            FileLocation::Path(p) => p.clone(),
            FileLocation::Custom(c) => c.clone(),
        }
    }

    /// The base path for source references found in this file: the parent
    /// directory for a local path (the path itself when it has no parent),
    /// no local access for a custom location.
    pub fn to_base_path(&self) -> (r: BasePath)
        ensures
            match self {
                FileLocation::Path(p) => r matches BasePath::CanReferToLocalFiles(d)
                    && vstd::utf8::encode_utf8(d@) =~= parent_bytes(vstd::utf8::encode_utf8(p@)),
                FileLocation::Custom(_) => r is NoLocalSourceFileAccess,
            },
    {
        match self {
            FileLocation::Path(p) => {
                let s = p.as_str();
                let bytes = s.as_bytes();
                let ghost bv = s.spec_bytes();
                let n = bytes.len();
                // Ignore trailing separators.
                let mut t_end: usize = n;
                while t_end > 0 && bytes[t_end - 1] == 47
                    invariant
                        t_end <= n == bv.len() == bytes@.len(),
                        bytes@ == bv,
                        forall|k: int| t_end <= k < n ==> bv[k] == 47,
                    decreases t_end,
                {
                    t_end = t_end - 1;
                }
                let ghost t = bv.subrange(0, t_end as int);
                proof {
                    lemma_strip_at(bv, t_end as int);
                }
                if t_end == 0 {
                    // Nothing but separators (or empty): no parent, keep
                    // the path itself.
                    return BasePath::CanReferToLocalFiles(p.clone());
                }
                // Find the separator before the final component.
                let mut i: usize = t_end;
                let mut sep: usize = 0;
                let mut has_sep = false;
                while !has_sep && i > 0
                    invariant
                        i <= t_end <= n == bv.len() == bytes@.len(),
                        bytes@ == bv,
                        t == bv.subrange(0, t_end as int),
                        !has_sep ==> forall|k: int| i <= k < t_end ==> bv[k] != 47,
                        has_sep ==> sep < t_end && bv[sep as int] == 47 && forall|k: int|
                            sep < k < t_end ==> bv[k] != 47,
                    decreases i,
                {
                    i = i - 1;
                    if bytes[i] == 47 {
                        has_sep = true;
                        sep = i;
                    }
                }
                if !has_sep {
                    // A bare file name: empty parent.
                    proof {
                        lemma_last_separator_absent(t);
                        assert(forall|k: int| 0 <= k < t.len() ==> t[k] == bv[k]);
                    }
                    return BasePath::CanReferToLocalFiles(String::new());
                }
                proof {
                    assert(forall|k: int| 0 <= k < t.len() ==> t[k] == bv[k]);
                    lemma_last_separator_at(t, sep as int);
                }
                // Drop the separator run before the final component too.
                let mut u_end: usize = sep;
                while u_end > 0 && bytes[u_end - 1] == 47
                    invariant
                        u_end <= sep,
                        bytes@ == bv,
                        sep < t_end <= n == bv.len(),
                        forall|k: int| u_end <= k < sep ==> bv[k] == 47,
                    decreases u_end,
                {
                    u_end = u_end - 1;
                }
                proof {
                    lemma_strip_at(bv.subrange(0, sep as int), u_end as int);
                    assert(t.subrange(0, sep as int) =~= bv.subrange(0, sep as int));
                }
                if u_end == 0 {
                    // The final component sits right at the root.
                    let root: &str = "/";
                    let d = root.to_owned();
                    proof {
                        reveal_strlit("/");
                        assert(root@ =~= seq!['/']);
                        lemma_encode_single_sep(d@);
                    }
                    return BasePath::CanReferToLocalFiles(d);
                }
                proof {
                    vstd::utf8::encode_utf8_valid_utf8(s@);
                    assert(bv[u_end as int] == 47);
                    vstd::utf8::is_char_boundary_iff_not_is_continuation_byte(bv, u_end as int);
                }
                let (dir, _rest) = s.split_at(u_end);
                proof {
                    assert(dir.spec_bytes() =~= bv.subrange(0, u_end as int));
                }
                BasePath::CanReferToLocalFiles(dir.to_owned())
            },
            FileLocation::Custom(_) => BasePath::NoLocalSourceFileAccess,
        }
    }
}

/// A cut below which no trailing separator remains and at or above which
/// everything is one pins `strip_trailing_seps` down.
proof fn lemma_strip_at(b: Seq<u8>, m: int)
    requires
        0 <= m <= b.len(),
        forall|k: int| m <= k < b.len() ==> b[k] == 47,
        m > 0 ==> b[m - 1] != 47,
    ensures
        strip_trailing_seps(b) =~= b.subrange(0, m),
    decreases b.len(),
{
    if b.len() > m {
        assert(b.last() == 47);
        lemma_strip_at(b.drop_last(), m);
        assert(b.drop_last().subrange(0, m) =~= b.subrange(0, m));
    } else {
        if m > 0 {
            assert(b.last() != 47);
        }
        assert(b.subrange(0, m) =~= b);
    }
}

/// A path with no separator at all has none to find.
proof fn lemma_last_separator_absent(b: Seq<u8>)
    requires
        forall|k: int| 0 <= k < b.len() ==> b[k] != 47,
    ensures
        last_separator(b) is None,
{
    lemma_last_separator_props(b);
    if last_separator(b) is Some {
        let i = last_separator(b)->Some_0;
        assert(b[i] != 47);
    }
}

/// A one-character separator string encodes to the single separator byte.
proof fn lemma_encode_single_sep(cs: Seq<char>)
    requires
        cs =~= seq!['/'],
    ensures
        vstd::utf8::encode_utf8(cs) =~= seq![47u8],
{
    broadcast use vstd::utf8::is_ascii_chars_encode_utf8;

    assert(vstd::utf8::is_ascii_chars(cs)) by {
        assert(cs[0] == '/');
    }
    assert(vstd::utf8::encode_utf8(cs) =~= Seq::new(cs.len(), |i: int| cs[i] as u8));
    assert(('/' as u8) == 47);
}

/// If a position holds a separator and nothing later does, it is the last
/// separator; if no position holds one, there is none.
proof fn lemma_last_separator_props(b: Seq<u8>)
    ensures
        match last_separator(b) {
            Some(i) => 0 <= i < b.len() && b[i] == 47 && forall|k: int|
                i < k < b.len() ==> b[k] != 47,
            None => forall|k: int| 0 <= k < b.len() ==> b[k] != 47,
        },
    decreases b.len(),
{
    if b.len() > 0 && b.last() != 47 {
        lemma_last_separator_props(b.drop_last());
        match last_separator(b.drop_last()) {
            Some(i) => {
                assert(b.drop_last()[i] == b[i]);
                assert forall|k: int| i < k < b.len() implies b[k] != 47 by {
                    if k < b.len() - 1 {
                        assert(b.drop_last()[k] == b[k]);
                    }
                }
            },
            None => {
                assert forall|k: int| 0 <= k < b.len() implies b[k] != 47 by {
                    if k < b.len() - 1 {
                        assert(b.drop_last()[k] == b[k]);
                    }
                }
            },
        }
    }
}

/// A separator with none after it pins `last_separator` down.
proof fn lemma_last_separator_at(b: Seq<u8>, i: int)
    requires
        0 <= i < b.len(),
        b[i] == 47,
        forall|k: int| i < k < b.len() ==> b[k] != 47,
    ensures
        last_separator(b) == Some(i),
{
    lemma_last_separator_props(b);
    match last_separator(b) {
        Some(j) => {
            if j < i {
                assert(b[i] != 47);
            }
            if i < j {
                assert(b[j] != 47);
            }
        },
        None => {
            assert(b[i] != 47);
        },
    }
}

/// A source file path reported by debug info: a local path, a local path
/// with a preferred mapped form, or a non-local (possibly mapped) path.
#[derive(Clone, Debug)]
pub enum FilePath {
    Local(String),
    LocalMapped { local: String, mapped: String },
    NonLocal(String),
}

/// The mapped (API-visible) form of a file path.
pub open spec fn mapped_path_spec(p: FilePath) -> Seq<char> {
    match p {
        FilePath::Local(local) => local@,
        FilePath::LocalMapped { local, mapped } => mapped@,
        FilePath::NonLocal(s) => s@,
    }
}

/// The local form of a file path, when the file may exist on this machine.
pub open spec fn local_path_spec(p: FilePath) -> Option<Seq<char>> {
    match p {
        FilePath::Local(local) => Some(local@),
        FilePath::LocalMapped { local, mapped } => Some(local@),
        FilePath::NonLocal(s) => None,
    }
}

impl FilePath {
    /// The path in its mapped form, preferred by the symbolication API.
    pub fn mapped_path(&self) -> (r: String)
        ensures
            r@ == mapped_path_spec(*self),
    {
        match self {
            FilePath::Local(local) => local.clone(),
            FilePath::LocalMapped { mapped, .. } => mapped.clone(),
            FilePath::NonLocal(s) => s.clone(),
        }
    }

    /// Consumes the path, returning its mapped form.
    pub fn into_mapped_path(self) -> (r: String)
        ensures
            r@ == mapped_path_spec(self),
    {
        match self {
            FilePath::Local(local) => local,
            FilePath::LocalMapped { mapped, .. } => mapped,
            FilePath::NonLocal(s) => s,
        }
    }

    /// The local form of the path, when there is one.
    pub fn local_path(&self) -> (r: Option<&String>)
        ensures
            match r {
                Some(p) => local_path_spec(*self) == Some(p@),
                None => local_path_spec(*self).is_none(),
            },
    {
        match self {
            FilePath::Local(local) => Some(local),
            FilePath::LocalMapped { local, .. } => Some(local),
            FilePath::NonLocal(_) => None,
        }
    }

    /// Consumes the path, returning its local form when there is one.
    pub fn into_local_path(self) -> (r: Option<String>)
        ensures
            match r {
                Some(p) => local_path_spec(self) == Some(p@),
                None => local_path_spec(self).is_none(),
            },
    {
        match self {
            FilePath::Local(local) => Some(local),
            FilePath::LocalMapped { local, .. } => Some(local),
            FilePath::NonLocal(_) => None,
        }
    }
}

/// The symbol for a function: relative address, optional size (possibly
/// approximated from the next symbol), and demangled name.
#[derive(Clone, Debug)]
pub struct SymbolInfo {
    pub address: u32,
    pub size: Option<u32>,
    pub name: String,
}

/// One frame of an inlined call chain, with plain string fields.
#[derive(Clone, Debug)]
pub struct InlineStackFrame {
    pub function: Option<String>,
    pub file_path: Option<FilePath>,
    pub line_number: Option<u32>,
}

/// Debug info for one address: non-empty frame list ordered from the
/// innermost inlined call to the outermost physical function.
#[derive(Clone, Debug)]
pub struct AddressDebugInfo {
    pub frames: Vec<InlineStackFrame>,
}

/// One frame of an inlined call chain, with interned handles.
#[derive(Clone, Copy, Debug)]
pub struct FrameDebugInfo {
    pub function: Option<FunctionNameHandle>,
    pub file_path: Option<SourceFilePathHandle>,
    pub line_number: Option<u32>,
}

/// Reference to an external debug file named by an OSO record.
#[derive(Clone, Debug)]
pub struct ExternalFileRef {
    pub file_name: String,
}

/// Address inside an external debug file: a symbol name (raw bytes, as they
/// appear in the object file), an optional archive member, and an offset.
#[derive(Clone, Debug)]
pub struct ExternalFileAddressInFileRef {
    pub name_in_archive: Option<String>,
    pub symbol_name: Vec<u8>,
    pub offset_from_symbol: u32,
}

/// Full reference to an address in an external debug file.
#[derive(Clone, Debug)]
pub struct ExternalFileAddressRef {
    pub file_ref: ExternalFileRef,
    pub address_in_file: ExternalFileAddressInFileRef,
}

/// How the debug frames for a looked-up address are available.
pub enum FramesLookupResult {
    Available(Vec<FrameDebugInfo>),
    External(ExternalFileAddressRef),
    Unavailable,
}

/// The lookup result for an address: the containing symbol and the state of
/// its debug frames.
pub struct AddressInfo {
    pub symbol: SymbolInfo,
    pub frames: FramesLookupResult,
}

/// The base address from which relative addresses are counted, given what
/// the binary's headers show: the `__TEXT` segment address for Mach-O, the
/// `.text` section address for kernel ELF images, and the image base
/// otherwise (zero for ordinary ELF, the image base for PE).
pub fn relative_address_base(
    text_segment_vmaddr: Option<u64>,
    text_section_address: Option<u64>,
    image_base: u64,
) -> (r: u64)
    ensures
        r == relative_address_base_spec(text_segment_vmaddr, text_section_address, image_base),
{
    if let Some(vmaddr) = text_segment_vmaddr {
        return vmaddr;
    }
    if let Some(addr) = text_section_address {
        if addr >= 0xffff_ffff_8000_0000 {
            return addr;
        }
    }
    image_base
}

/// The base-address rule: Mach-O `__TEXT` wins, then a high `.text` section
/// (a kernel image), then the image base.
pub open spec fn relative_address_base_spec(
    text_segment_vmaddr: Option<u64>,
    text_section_address: Option<u64>,
    image_base: u64,
) -> u64 {
    match text_segment_vmaddr {
        Some(vmaddr) => vmaddr,
        None => match text_section_address {
            Some(addr) => if addr >= 0xffff_ffff_8000_0000 {
                addr
            } else {
                image_base
            },
            None => image_base,
        },
    }
}

} // verus!
