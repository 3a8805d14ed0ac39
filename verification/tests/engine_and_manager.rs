use samply_symbols::debug_id::DebugId;
use samply_symbols::manager::{classify_file_kind, FileAndPathHelper, SymbolManager};
use samply_symbols::response::{gather_per_lib, query, serialize_response, Job, Lib, Request, RequestFrame};
use samply_symbols::shared::{CandidatePathInfo, ExternalFileAddressInFileRef, ExternalFileAddressRef, ExternalFileRef, FileLocation};
use samply_symbols::{Error, FileKind};
use samply_symbols::interner::SymbolMapGeneration;
use samply_symbols::response::{AddressResult, LibSymbols};
use samply_symbols::shared::{FilePath, FramesLookupResult, InlineStackFrame};
use samply_symbols::symbol_map::{FramesSource, SymbolRecord};
use samply_symbols::SymbolMap;

const LIB_ID: &str = "AA152DEB2D9B76084C4C44205044422E1";
const OTHER_ID: &str = "BB152DEB2D9B76084C4C44205044422E1";
const THIRD_ID: &str = "CC152DEB2D9B76084C4C44205044422E1";

struct MapHelper {
    files: Vec<(String, Vec<u8>)>,
}

impl FileAndPathHelper for MapHelper {
    fn get_candidate_paths_for_debug_file(
        &self,
        debug_name: &str,
        _debug_id: DebugId,
    ) -> Result<Vec<CandidatePathInfo>, String> {
        let mut paths = Vec::new();
        for (name, _) in &self.files {
            if name.ends_with(debug_name) || debug_name.is_empty() {
                paths.push(CandidatePathInfo::SingleFile(FileLocation::Path(name.clone())));
            }
        }
        Ok(paths)
    }

    fn get_candidate_paths_for_binary(
        &self,
        _debug_name: Option<&str>,
        _debug_id: Option<DebugId>,
        _name: Option<&str>,
        _code_id: Option<&samply_symbols::debug_id::CodeId>,
    ) -> Result<Vec<CandidatePathInfo>, String> {
        Ok(self
            .files
            .iter()
            .map(|(name, _)| CandidatePathInfo::SingleFile(FileLocation::Path(name.clone())))
            .collect())
    }

    fn open_file(&self, location: &FileLocation) -> Result<Vec<u8>, String> {
        let wanted = location.to_string_lossy();
        for (name, data) in &self.files {
            if *name == wanted {
                return Ok(data.clone());
            }
        }
        Err("no such file".to_string())
    }
}

fn breakpad_file(id: &str) -> Vec<u8> {
    let text = format!(
        "MODULE Linux x86_64 {} libx.so\nFUNC 1200 80 0 foo\nPUBLIC 2000 0 bar\n",
        id
    );
    text.into_bytes()
}

#[test]
fn load_symbol_map_matching_id() {
    let helper = MapHelper { files: vec![("/sym/libx.so".to_string(), breakpad_file(LIB_ID))] };
    let mut manager = SymbolManager::with_helper(&helper);
    let id = DebugId::from_breakpad(LIB_ID).unwrap();
    let map = manager.load_symbol_map("libx.so", id).unwrap();
    assert_eq!(map.debug_id(), id);
    let hit = map.lookup(0x1234).unwrap();
    assert_eq!(hit.symbol.name, "foo".to_string());
    assert_eq!(hit.symbol.address, 0x1200);
    assert_eq!(hit.symbol.size, Some(0x80));
}

#[test]
fn load_symbol_map_every_candidate_mismatched() {
    let helper = MapHelper {
        files: vec![
            ("/sym/a/libx.so".to_string(), breakpad_file(OTHER_ID)),
            ("/sym/b/libx.so".to_string(), breakpad_file(THIRD_ID)),
        ],
    };
    let mut manager = SymbolManager::with_helper(&helper);
    let requested = DebugId::from_breakpad(LIB_ID).unwrap();
    let err = manager.load_symbol_map("libx.so", requested).unwrap_err();
    assert_eq!(err.enum_as_string(), "UnmatchedDebugId");
    match err {
        Error::UnmatchedDebugId(found, wanted) => {
            assert_eq!(found, DebugId::from_breakpad(THIRD_ID).unwrap());
            assert_eq!(wanted, requested);
        }
        _ => panic!("expected UnmatchedDebugId"),
    }
}

#[test]
fn load_symbol_map_no_candidates() {
    let helper = MapHelper { files: Vec::new() };
    let mut manager = SymbolManager::with_helper(&helper);
    let id = DebugId::from_breakpad(LIB_ID).unwrap();
    let err = manager.load_symbol_map("libx.so", id).unwrap_err();
    assert_eq!(err.enum_as_string(), "NoCandidatePathForBinary");
}

#[test]
fn load_binary_requires_an_identity() {
    let helper = MapHelper { files: Vec::new() };
    let mut manager = SymbolManager::with_helper(&helper);
    let err = manager.load_binary(Some("libx.so"), None, None, None).unwrap_err();
    assert_eq!(err.enum_as_string(), "NotEnoughInformationToIdentifyBinary");
}

#[test]
fn error_message_names_both_ids() {
    let found = DebugId::from_breakpad(OTHER_ID).unwrap();
    let requested = DebugId::from_breakpad(LIB_ID).unwrap();
    let message = String::from_utf8(Error::UnmatchedDebugId(found, requested).message_bytes()).unwrap();
    assert!(message.contains(LIB_ID));
    assert!(message.contains(OTHER_ID));
}

#[test]
fn classification_by_magic_bytes() {
    assert_eq!(classify_file_kind(&[0x7f, 69, 76, 70, 2, 0]), FileKind::Elf64);
    assert_eq!(classify_file_kind(&[0x7f, 69, 76, 70, 1, 0]), FileKind::Elf32);
    assert_eq!(classify_file_kind(&[0xfe, 0xed, 0xfa, 0xcf]), FileKind::MachO64);
    assert_eq!(classify_file_kind(&[0xca, 0xfe, 0xba, 0xbe]), FileKind::MachOFat32);
    assert_eq!(classify_file_kind(b"MZ\x90\x00"), FileKind::Pe32);
    assert_eq!(classify_file_kind(b"MODULE Linux x86_64 AA0 x"), FileKind::BreakpadSym);
    assert_eq!(classify_file_kind(b"Microsoft C/C++ MSF 7.00"), FileKind::Pdb);
    assert_eq!(classify_file_kind(b"!<arch>\n"), FileKind::Archive);
    assert_eq!(classify_file_kind(b"\x00asm\x01"), FileKind::Wasm);
    assert_eq!(classify_file_kind(b"xy"), FileKind::Unknown);
}

fn single_job_request(id: &str) -> Request {
    Request {
        jobs: vec![Job {
            memory_map: vec![Lib {
                debug_name: "libx.so".to_string(),
                breakpad_id: id.to_string(),
            }],
            stacks: vec![vec![RequestFrame { module_index: 0, address: 0x1234 }]],
        }],
    }
}

#[test]
fn response_shape_with_symbols() {
    let helper = MapHelper { files: vec![("/sym/libx.so".to_string(), breakpad_file(LIB_ID))] };
    let mut manager = SymbolManager::with_helper(&helper);
    let request = single_job_request(LIB_ID);
    let bytes = query(&mut manager, &request);
    let v: serde_json::Value = serde_json::from_slice(&bytes).unwrap();
    let frame = &v["results"][0]["stacks"][0][0];
    assert_eq!(frame["frame"].as_u64().unwrap(), 0);
    assert_eq!(frame["module_offset"].as_str().unwrap(), "0x1234");
    assert_eq!(frame["module"].as_str().unwrap(), "libx.so");
    assert_eq!(frame["function"].as_str().unwrap(), "foo");
    assert_eq!(frame["function_offset"].as_str().unwrap(), "0x34");
    assert_eq!(frame["function_size"].as_str().unwrap(), "0x80");
    let key = format!("libx.so/{}", LIB_ID);
    assert_eq!(v["results"][0]["found_modules"][&key].as_bool().unwrap(), true);
    assert!(v["results"][0].get("module_errors").is_none());
}

#[test]
fn response_shape_unresolved_module() {
    let helper = MapHelper { files: Vec::new() };
    let mut manager = SymbolManager::with_helper(&helper);
    let request = single_job_request(LIB_ID);
    let bytes = query(&mut manager, &request);
    let v: serde_json::Value = serde_json::from_slice(&bytes).unwrap();
    let frame = &v["results"][0]["stacks"][0][0];
    assert_eq!(frame["frame"].as_u64().unwrap(), 0);
    assert_eq!(frame["module_offset"].as_str().unwrap(), "0x1234");
    assert_eq!(frame["module"].as_str().unwrap(), "libx.so");
    assert!(frame.get("function").is_none());
    let key = format!("libx.so/{}", LIB_ID);
    assert_eq!(v["results"][0]["found_modules"][&key].as_bool().unwrap(), false);
    let errors = &v["results"][0]["module_errors"][&key];
    assert_eq!(errors[0]["name"].as_str().unwrap(), "NoCandidatePathForBinary");
    assert!(errors[0]["message"].as_str().is_some());
}

#[test]
fn response_preserves_stack_lengths_and_indices() {
    let helper = MapHelper { files: Vec::new() };
    let mut manager = SymbolManager::with_helper(&helper);
    let request = Request {
        jobs: vec![Job {
            memory_map: vec![Lib {
                debug_name: "libx.so".to_string(),
                breakpad_id: LIB_ID.to_string(),
            }],
            stacks: vec![
                vec![
                    RequestFrame { module_index: 0, address: 0x10 },
                    RequestFrame { module_index: 0, address: 0x20 },
                    RequestFrame { module_index: 0, address: 0x30 },
                ],
                vec![RequestFrame { module_index: 0, address: 0x40 }],
            ],
        }],
    };
    let per_lib = gather_per_lib(&mut manager, &request);
    let bytes = serialize_response(&request, &per_lib);
    let v: serde_json::Value = serde_json::from_slice(&bytes).unwrap();
    let stacks = v["results"][0]["stacks"].as_array().unwrap();
    assert_eq!(stacks.len(), 2);
    assert_eq!(stacks[0].as_array().unwrap().len(), 3);
    assert_eq!(stacks[1].as_array().unwrap().len(), 1);
    for (j, stack) in stacks.iter().enumerate() {
        for (k, frame) in stack.as_array().unwrap().iter().enumerate() {
            assert_eq!(frame["frame"].as_u64().unwrap(), k as u64, "stack {}", j);
        }
    }
}

#[test]
fn external_lookup_through_cache() {
    let ext_file = {
        let text = format!(
            "MODULE Linux x86_64 {} ext.o\nFUNC 300 40 0 _baz\n",
            OTHER_ID
        );
        text.into_bytes()
    };
    let helper = MapHelper { files: vec![("/obj/ext.o".to_string(), ext_file)] };
    let mut manager = SymbolManager::with_helper(&helper);
    let address = ExternalFileAddressRef {
        file_ref: ExternalFileRef { file_name: "/obj/ext.o".to_string() },
        address_in_file: ExternalFileAddressInFileRef {
            name_in_archive: None,
            symbol_name: b"_baz".to_vec(),
            offset_from_symbol: 0x10,
        },
    };
    let frames = manager.lookup_external(&address).unwrap();
    assert_eq!(frames.len(), 1);
    assert_eq!(frames[0].function, Some("_baz".to_string()));
    // A second lookup is answered from the cache.
    let frames2 = manager.lookup_external(&address).unwrap();
    assert_eq!(frames2.len(), 1);
    // A lookup for an unknown symbol in the same file misses.
    let missing = ExternalFileAddressRef {
        file_ref: ExternalFileRef { file_name: "/obj/ext.o".to_string() },
        address_in_file: ExternalFileAddressInFileRef {
            name_in_archive: None,
            symbol_name: b"_missing".to_vec(),
            offset_from_symbol: 0,
        },
    };
    assert!(manager.lookup_external(&missing).is_none());
}

#[test]
fn response_inline_frames_ordered_innermost_first() {
    let records = vec![SymbolRecord {
        address: 0x1200,
        size: Some(0x80),
        name: "outer_sym".to_string(),
        frames: FramesSource::Inline(vec![
            InlineStackFrame {
                function: Some("innermost".to_string()),
                file_path: Some(FilePath::NonLocal("inner.rs".to_string())),
                line_number: Some(3),
            },
            InlineStackFrame {
                function: Some("middle".to_string()),
                file_path: Some(FilePath::NonLocal("middle.rs".to_string())),
                line_number: Some(7),
            },
            InlineStackFrame {
                function: Some("outer_fn".to_string()),
                file_path: Some(FilePath::NonLocal("outer.rs".to_string())),
                line_number: Some(40),
            },
        ]),
    }];
    let symbol_map = SymbolMap::new(
        FileLocation::Custom("sym:inline".to_string()),
        DebugId::from_breakpad(LIB_ID).unwrap(),
        SymbolMapGeneration(11),
        records,
    );
    let hit = symbol_map.lookup(0x1234).unwrap();
    let mut ar = AddressResult::new(hit.symbol);
    match hit.frames {
        FramesLookupResult::Available(frames) => ar.set_debug_info(frames),
        _ => panic!("expected inline frames"),
    }
    let per_lib = vec![(
        Lib { debug_name: "libx.so".to_string(), breakpad_id: LIB_ID.to_string() },
        Ok(LibSymbols { address_results: vec![(0x1234, Some(ar))], symbol_map }),
    )];
    let request = single_job_request(LIB_ID);
    let bytes = serialize_response(&request, &per_lib);
    let v: serde_json::Value = serde_json::from_slice(&bytes).unwrap();
    let frame = &v["results"][0]["stacks"][0][0];
    assert_eq!(frame["function"].as_str().unwrap(), "outer_fn");
    assert_eq!(frame["file"].as_str().unwrap(), "outer.rs");
    assert_eq!(frame["line"].as_u64().unwrap(), 40);
    let inlines = frame["inlines"].as_array().unwrap();
    assert_eq!(inlines.len(), 2);
    assert_eq!(inlines[0]["function"].as_str().unwrap(), "innermost");
    assert_eq!(inlines[0]["file"].as_str().unwrap(), "inner.rs");
    assert_eq!(inlines[0]["line"].as_u64().unwrap(), 3);
    assert_eq!(inlines[1]["function"].as_str().unwrap(), "middle");
    assert_eq!(inlines[1]["line"].as_u64().unwrap(), 7);
}

struct FailingHelper;

impl FileAndPathHelper for FailingHelper {
    fn get_candidate_paths_for_debug_file(
        &self,
        _debug_name: &str,
        _debug_id: DebugId,
    ) -> Result<Vec<CandidatePathInfo>, String> {
        Err("helper broke".to_string())
    }

    fn get_candidate_paths_for_binary(
        &self,
        _debug_name: Option<&str>,
        _debug_id: Option<DebugId>,
        _name: Option<&str>,
        _code_id: Option<&samply_symbols::debug_id::CodeId>,
    ) -> Result<Vec<CandidatePathInfo>, String> {
        Err("helper broke".to_string())
    }

    fn open_file(&self, _location: &FileLocation) -> Result<Vec<u8>, String> {
        Err("no file system".to_string())
    }
}

#[test]
fn helper_failures_are_reported() {
    let mut manager = SymbolManager::with_helper(&FailingHelper);
    let id = DebugId::from_breakpad(LIB_ID).unwrap();
    let err = match manager.load_symbol_map("libx.so", id) {
        Err(e) => e,
        Ok(_) => panic!("expected an error"),
    };
    assert_eq!(err.enum_as_string(), "HelperErrorDuringGetCandidatePathsForDebugFile");
    let message = String::from_utf8(err.message_bytes()).unwrap();
    assert!(message.contains("helper broke"));
    let err2 = match manager.load_binary(Some("libx.so"), Some(id), None, None) {
        Err(e) => e,
        Ok(_) => panic!("expected an error"),
    };
    assert_eq!(err2.enum_as_string(), "HelperErrorDuringGetCandidatePathsForBinary");
}

#[test]
fn open_failure_is_reported_per_candidate() {
    struct PathsButNoFiles;
    impl FileAndPathHelper for PathsButNoFiles {
        fn get_candidate_paths_for_debug_file(
            &self,
            _debug_name: &str,
            _debug_id: DebugId,
        ) -> Result<Vec<CandidatePathInfo>, String> {
            Ok(vec![CandidatePathInfo::SingleFile(FileLocation::Path("/nope".to_string()))])
        }

        fn get_candidate_paths_for_binary(
            &self,
            _debug_name: Option<&str>,
            _debug_id: Option<DebugId>,
            _name: Option<&str>,
            _code_id: Option<&samply_symbols::debug_id::CodeId>,
        ) -> Result<Vec<CandidatePathInfo>, String> {
            Ok(Vec::new())
        }

        fn open_file(&self, _location: &FileLocation) -> Result<Vec<u8>, String> {
            Err("unreadable".to_string())
        }
    }
    let mut manager = SymbolManager::with_helper(&PathsButNoFiles);
    let id = DebugId::from_breakpad(LIB_ID).unwrap();
    let err = match manager.load_symbol_map("libx.so", id) {
        Err(e) => e,
        Ok(_) => panic!("expected an error"),
    };
    assert_eq!(err.enum_as_string(), "HelperErrorDuringOpenFile");
}

#[test]
fn unsupported_and_malformed_files_are_rejected() {
    let mut files = Vec::new();
    files.push(("/sym/elf/libx.so".to_string(), vec![0x7f, 69, 76, 70, 2, 0, 0, 0]));
    let helper = MapHelper { files };
    let mut manager = SymbolManager::with_helper(&helper);
    let id = DebugId::from_breakpad(LIB_ID).unwrap();
    let err = match manager.load_symbol_map("libx.so", id) {
        Err(e) => e,
        Ok(_) => panic!("expected an error"),
    };
    assert_eq!(err.enum_as_string(), "InvalidInputError");

    let helper2 = MapHelper {
        files: vec![("/sym/libx.so".to_string(), b"MODULE Linux x86_64 nothex libx.so
".to_vec())],
    };
    let mut manager2 = SymbolManager::with_helper(&helper2);
    let err2 = match manager2.load_symbol_map("libx.so", id) {
        Err(e) => e,
        Ok(_) => panic!("expected an error"),
    };
    assert_eq!(err2.enum_as_string(), "ObjectParseError");
}

#[test]
fn fat_archives_need_a_disambiguator() {
    let fat = vec![0xca, 0xfe, 0xba, 0xbe, 0, 0, 0, 1];
    let helper = MapHelper { files: vec![("/bin/libx.so".to_string(), fat)] };
    let mut manager = SymbolManager::with_helper(&helper);
    let id = DebugId::from_breakpad(LIB_ID).unwrap();
    let err = match manager.load_binary(Some("libx.so"), None, Some("libx.so"), Some(&samply_symbols::debug_id::CodeId("ab12".to_string()))) {
        Err(e) => e,
        Ok(_) => panic!("expected an error"),
    };
    assert_eq!(err.enum_as_string(), "NoDisambiguatorForFatArchive");
    let err2 = match manager.load_binary(Some("libx.so"), Some(id), None, None) {
        Err(e) => e,
        Ok(_) => panic!("expected an error"),
    };
    assert_eq!(err2.enum_as_string(), "NoMatchingArchInFat");
}

#[test]
fn load_binary_verifies_breakpad_ids() {
    let helper = MapHelper { files: vec![("/bin/libx.so".to_string(), breakpad_file(LIB_ID))] };
    let mut manager = SymbolManager::with_helper(&helper);
    let id = DebugId::from_breakpad(LIB_ID).unwrap();
    let image = manager.load_binary(Some("libx.so"), Some(id), Some("libx.so"), None).unwrap();
    assert_eq!(image.file_kind, FileKind::BreakpadSym);
    assert_eq!(image.debug_id, Some(id));
    assert_eq!(image.name, Some("libx.so".to_string()));

    let other = DebugId::from_breakpad(OTHER_ID).unwrap();
    let err = match manager.load_binary(Some("libx.so"), Some(other), None, None) {
        Err(e) => e,
        Ok(_) => panic!("expected a mismatch"),
    };
    assert_eq!(err.enum_as_string(), "UnmatchedDebugIdOptional");
    match err {
        Error::UnmatchedDebugIdOptional(found, requested) => {
            assert_eq!(found, id);
            assert_eq!(requested, Some(other));
        }
        _ => panic!("expected UnmatchedDebugIdOptional"),
    }
}

#[test]
fn every_error_kind_has_a_name_and_message() {
    let id = DebugId::from_breakpad(LIB_ID).unwrap();
    let samples = vec![
        Error::HelperErrorDuringGetCandidatePathsForDebugFile("x".to_string(), id, "y".to_string()),
        Error::HelperErrorDuringGetCandidatePathsForBinary("y".to_string()),
        Error::HelperErrorDuringOpenFile("/p".to_string(), "y".to_string()),
        Error::ObjectParseError(FileKind::BreakpadSym, "bad".to_string()),
        Error::InvalidInputError("nope"),
        Error::UnmatchedDebugId(id, id),
        Error::UnmatchedDebugIdOptional(id, None),
        Error::NoCandidatePathForBinary(None, None),
        Error::NoMatchingArchInFat,
        Error::NoDisambiguatorForFatArchive,
        Error::NotEnoughInformationToIdentifyBinary,
    ];
    for e in &samples {
        assert!(!e.enum_as_string().is_empty());
        assert!(!e.message_bytes().is_empty());
    }
}

#[test]
fn breakpad_line_records_supply_file_and_line() {
    let text = format!(
        "MODULE Linux x86_64 {} libx.so\nFILE 0 /src/foo.c\nFUNC 1200 80 0 foo\n1200 10 42 0\n1210 10 43 0\nPUBLIC 2000 0 bar\n",
        LIB_ID
    );
    let helper = MapHelper { files: vec![("/sym/libx.so".to_string(), text.into_bytes())] };
    let mut manager = SymbolManager::with_helper(&helper);
    let request = single_job_request(LIB_ID);
    let bytes = query(&mut manager, &request);
    let v: serde_json::Value = serde_json::from_slice(&bytes).unwrap();
    let frame = &v["results"][0]["stacks"][0][0];
    assert_eq!(frame["function"].as_str().unwrap(), "foo");
    assert_eq!(frame["file"].as_str().unwrap(), "/src/foo.c");
    // The first line record of the function supplies the line.
    assert_eq!(frame["line"].as_u64().unwrap(), 42);
    assert!(frame.get("inlines").is_none());
}

#[test]
fn breakpad_line_record_without_file_entry() {
    let text = format!(
        "MODULE Linux x86_64 {} libx.so\nFUNC 1200 80 0 foo\n1200 10 42 7\n",
        LIB_ID
    );
    let helper = MapHelper { files: vec![("/sym/libx.so".to_string(), text.into_bytes())] };
    let mut manager = SymbolManager::with_helper(&helper);
    let request = single_job_request(LIB_ID);
    let bytes = query(&mut manager, &request);
    let v: serde_json::Value = serde_json::from_slice(&bytes).unwrap();
    let frame = &v["results"][0]["stacks"][0][0];
    assert_eq!(frame["function"].as_str().unwrap(), "foo");
    assert!(frame.get("file").is_none());
    assert_eq!(frame["line"].as_u64().unwrap(), 42);
}

#[test]
fn external_lookup_returns_file_and_line() {
    let ext_file = {
        let text = format!(
            "MODULE Linux x86_64 {} ext.o\nFILE 0 /src/baz.c\nFUNC 300 40 0 _baz\n300 8 17 0\n",
            OTHER_ID
        );
        text.into_bytes()
    };
    let helper = MapHelper { files: vec![("/obj/ext.o".to_string(), ext_file)] };
    let mut manager = SymbolManager::with_helper(&helper);
    let address = ExternalFileAddressRef {
        file_ref: ExternalFileRef { file_name: "/obj/ext.o".to_string() },
        address_in_file: ExternalFileAddressInFileRef {
            name_in_archive: None,
            symbol_name: b"_baz".to_vec(),
            offset_from_symbol: 0x10,
        },
    };
    let frames = manager.lookup_external(&address).unwrap();
    assert_eq!(frames.len(), 1);
    assert_eq!(frames[0].function, Some("_baz".to_string()));
    assert_eq!(frames[0].line_number, Some(17));
    match &frames[0].file_path {
        Some(FilePath::NonLocal(p)) => assert_eq!(p, &"/src/baz.c".to_string()),
        other => panic!("expected a non-local file path, got {:?}", other),
    }
}

#[test]
fn breakpad_public_size_is_approximated() {
    let text = format!(
        "MODULE Linux x86_64 {} libx.so\nPUBLIC 1000 0 first\nFUNC 1800 10 0 second\nPUBLIC 2000 0 last\n",
        LIB_ID
    );
    let helper = MapHelper { files: vec![("/sym/libx.so".to_string(), text.into_bytes())] };
    let mut manager = SymbolManager::with_helper(&helper);
    let id = DebugId::from_breakpad(LIB_ID).unwrap();
    let map = manager.load_symbol_map("libx.so", id).unwrap();
    let first = map.lookup(0x1400).unwrap();
    assert_eq!(first.symbol.name, "first".to_string());
    assert_eq!(first.symbol.size, Some(0x800));
    assert!(map.lookup(0x1810).is_none());
    let last = map.lookup(0x9999).unwrap();
    assert_eq!(last.symbol.name, "last".to_string());
    assert_eq!(last.symbol.size, None);
}
