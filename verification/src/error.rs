//! Error kinds of the symbolication pipeline. Each kind has a stable,
//! machine-readable name (used in response `module_errors` entries) distinct
//! from its human-readable message.

use crate::debug_id::{breakpad_bytes_spec, DebugId};
use vstd::prelude::*;
use vstd::string::StringSliceAdditionalSpecFns;
use vstd::utf8::encode_utf8;

verus! {

/// Binary container format detected from magic bytes.
#[derive(Clone, Copy, PartialEq, Eq, Structural, Debug)]
pub enum FileKind {
    Elf32,
    Elf64,
    MachO32,
    MachO64,
    MachOFat32,
    MachOFat64,
    Pe32,
    Pe64,
    Pdb,
    BreakpadSym,
    Archive,
    Coff,
    Wasm,
    Unknown,
}

/// Why a symbol map or binary could not be produced.
#[derive(Debug)]
pub enum Error {
    /// The host failed to produce candidate paths for a debug file.
    HelperErrorDuringGetCandidatePathsForDebugFile(String, DebugId, String),
    /// The host failed to produce candidate paths for a binary.
    HelperErrorDuringGetCandidatePathsForBinary(String),
    /// The host failed to open a file; carries the location and the host's
    /// message.
    HelperErrorDuringOpenFile(String, String),
    /// The file was recognized but malformed.
    ObjectParseError(FileKind, String),
    /// The file is in no supported format.
    InvalidInputError(&'static str),
    /// Correct format, wrong build: `(found, requested)`.
    UnmatchedDebugId(DebugId, DebugId),
    /// Correct format, wrong build, where the request may omit the id.
    UnmatchedDebugIdOptional(DebugId, Option<DebugId>),
    /// No candidate path was offered, or every one was rejected.
    NoCandidatePathForBinary(Option<String>, Option<DebugId>),
    /// A fat archive holds no architecture with the requested id.
    NoMatchingArchInFat,
    /// A fat archive needs a debug id to pick an architecture.
    NoDisambiguatorForFatArchive,
    /// Neither a debug identity nor a code identity was given.
    NotEnoughInformationToIdentifyBinary,
}

/// The stable kind name of an error.
pub open spec fn kind_name_spec(e: Error) -> Seq<char> {
    match e {
        Error::HelperErrorDuringGetCandidatePathsForDebugFile(
            _,
            _,
            _,
        ) => "HelperErrorDuringGetCandidatePathsForDebugFile"@,
        Error::HelperErrorDuringGetCandidatePathsForBinary(
            _,
        ) => "HelperErrorDuringGetCandidatePathsForBinary"@,
        Error::HelperErrorDuringOpenFile(_, _) => "HelperErrorDuringOpenFile"@,
        Error::ObjectParseError(_, _) => "ObjectParseError"@,
        Error::InvalidInputError(_) => "InvalidInputError"@,
        Error::UnmatchedDebugId(_, _) => "UnmatchedDebugId"@,
        Error::UnmatchedDebugIdOptional(_, _) => "UnmatchedDebugIdOptional"@,
        Error::NoCandidatePathForBinary(_, _) => "NoCandidatePathForBinary"@,
        Error::NoMatchingArchInFat => "NoMatchingArchInFat"@,
        Error::NoDisambiguatorForFatArchive => "NoDisambiguatorForFatArchive"@,
        Error::NotEnoughInformationToIdentifyBinary => "NotEnoughInformationToIdentifyBinary"@,
    }
}

/// The human-readable message, as UTF-8 bytes.
pub open spec fn message_spec(e: Error) -> Seq<u8> {
    match e {
        Error::HelperErrorDuringGetCandidatePathsForDebugFile(name, _, inner) => encode_utf8(
            "Helper error during get_candidate_paths_for_debug_file for "@,
        ) + encode_utf8(name@) + encode_utf8(": "@) + encode_utf8(inner@),
        Error::HelperErrorDuringGetCandidatePathsForBinary(inner) => encode_utf8(
            "Helper error during get_candidate_paths_for_binary: "@,
        ) + encode_utf8(inner@),
        Error::HelperErrorDuringOpenFile(location, inner) => encode_utf8(
            "Helper error during open_file for "@,
        ) + encode_utf8(location@) + encode_utf8(": "@) + encode_utf8(inner@),
        Error::ObjectParseError(_, inner) => encode_utf8("Error parsing file: "@) + encode_utf8(
            inner@,
        ),
        Error::InvalidInputError(inner) => encode_utf8("Invalid input: "@) + encode_utf8(inner@),
        Error::UnmatchedDebugId(found, requested) => encode_utf8(
            "Unmatched debug ID: expected "@,
        ) + breakpad_bytes_spec(requested) + encode_utf8(", got "@) + breakpad_bytes_spec(found),
        Error::UnmatchedDebugIdOptional(found, _) => encode_utf8(
            "Unmatched debug ID: got "@,
        ) + breakpad_bytes_spec(found),
        Error::NoCandidatePathForBinary(_, _) => encode_utf8(
            "No candidate path for binary"@,
        ),
        Error::NoMatchingArchInFat => encode_utf8(
            "No matching architecture in fat archive"@,
        ),
        Error::NoDisambiguatorForFatArchive => encode_utf8(
            "Fat archive without debug ID to disambiguate"@,
        ),
        Error::NotEnoughInformationToIdentifyBinary => encode_utf8(
            "Not enough information to identify binary"@,
        ),
    }
}

impl Error {
    /// The stable kind name.
    pub fn enum_as_string(&self) -> (r: &'static str)
        ensures
            r@ == kind_name_spec(*self),
    {
        match self {
            Error::HelperErrorDuringGetCandidatePathsForDebugFile(
                _,
                _,
                _,
            ) => "HelperErrorDuringGetCandidatePathsForDebugFile",
            Error::HelperErrorDuringGetCandidatePathsForBinary(
                _,
            ) => "HelperErrorDuringGetCandidatePathsForBinary",
            Error::HelperErrorDuringOpenFile(_, _) => "HelperErrorDuringOpenFile",
            Error::ObjectParseError(_, _) => "ObjectParseError",
            Error::InvalidInputError(_) => "InvalidInputError",
            Error::UnmatchedDebugId(_, _) => "UnmatchedDebugId",
            Error::UnmatchedDebugIdOptional(_, _) => "UnmatchedDebugIdOptional",
            Error::NoCandidatePathForBinary(_, _) => "NoCandidatePathForBinary",
            Error::NoMatchingArchInFat => "NoMatchingArchInFat",
            Error::NoDisambiguatorForFatArchive => "NoDisambiguatorForFatArchive",
            Error::NotEnoughInformationToIdentifyBinary => "NotEnoughInformationToIdentifyBinary",
        }
    }

    /// The human-readable message, as UTF-8 bytes.
    pub fn message_bytes(&self) -> (r: Vec<u8>)
        ensures
            r@ =~= message_spec(*self),
    {
        let mut out: Vec<u8> = Vec::new();
        match self {
            Error::HelperErrorDuringGetCandidatePathsForDebugFile(name, _, inner) => {
                append_str(&mut out, "Helper error during get_candidate_paths_for_debug_file for ");
                append_str(&mut out, name.as_str());
                append_str(&mut out, ": ");
                append_str(&mut out, inner.as_str());
            },
            Error::HelperErrorDuringGetCandidatePathsForBinary(inner) => {
                append_str(&mut out, "Helper error during get_candidate_paths_for_binary: ");
                append_str(&mut out, inner.as_str());
            },
            Error::HelperErrorDuringOpenFile(location, inner) => {
                append_str(&mut out, "Helper error during open_file for ");
                append_str(&mut out, location.as_str());
                append_str(&mut out, ": ");
                append_str(&mut out, inner.as_str());
            },
            Error::ObjectParseError(_, inner) => {
                append_str(&mut out, "Error parsing file: ");
                append_str(&mut out, inner.as_str());
            },
            Error::InvalidInputError(inner) => {
                append_str(&mut out, "Invalid input: ");
                append_str(&mut out, inner);
            },
            Error::UnmatchedDebugId(found, requested) => {
                append_str(&mut out, "Unmatched debug ID: expected ");
                let mut req = requested.breakpad_bytes();
                out.append(&mut req);
                append_str(&mut out, ", got ");
                let mut fnd = found.breakpad_bytes();
                out.append(&mut fnd);
            },
            Error::UnmatchedDebugIdOptional(found, _) => {
                append_str(&mut out, "Unmatched debug ID: got ");
                let mut fnd = found.breakpad_bytes();
                out.append(&mut fnd);
            },
            Error::NoCandidatePathForBinary(_, _) => {
                append_str(&mut out, "No candidate path for binary");
            },
            Error::NoMatchingArchInFat => {
                append_str(&mut out, "No matching architecture in fat archive");
            },
            Error::NoDisambiguatorForFatArchive => {
                append_str(&mut out, "Fat archive without debug ID to disambiguate");
            },
            Error::NotEnoughInformationToIdentifyBinary => {
                append_str(&mut out, "Not enough information to identify binary");
            },
        }
        out
    }
}

/// Appends the UTF-8 bytes of a string.
pub fn append_str(out: &mut Vec<u8>, s: &str)
    ensures
        final(out)@ =~= old(out)@ + encode_utf8(s@),
{
    let mut bytes = s.as_bytes_vec();
    out.append(&mut bytes);
}

} // verus!
