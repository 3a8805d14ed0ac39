//! Symbolication primitives: per-process address mapping tables, symbol maps
//! with string interning, candidate-path symbol loading, and batched
//! symbolication responses.

pub mod breakpad;
pub mod debug_id;
pub mod error;
pub mod file_contents;
pub mod interner;
pub mod json;
pub mod launch_protocol;
pub mod lib_mappings;

pub mod manager;
pub mod response;
pub mod shared;
pub mod symbol_map;
pub mod textfmt;

pub use crate::debug_id::DebugId;
pub use crate::error::{Error, FileKind};
pub use crate::file_contents::{FileContents, FileContentsWrapper, FileReadStats, RangeReadRef};
pub use crate::interner::{SymbolMapStringHandle, SymbolMapStringInterner};
pub use crate::lib_mappings::LibMappings;
pub use crate::manager::{BinaryImage, ExternalFileSymbolMap, FileAndPathHelper, SymbolManager};
pub use crate::response::{AddressResult, Job, Lib, LibSymbols, Request, RequestFrame};
pub use crate::symbol_map::{FramesSource, SymbolMap, SymbolRecord};
pub use crate::shared::{
    AddressDebugInfo, AddressInfo, BasePath, CandidatePathInfo, ExternalFileAddressInFileRef,
    ExternalFileAddressRef, ExternalFileRef, FileLocation, FilePath, FrameDebugInfo,
    FramesLookupResult, InlineStackFrame, SymbolInfo,
};
