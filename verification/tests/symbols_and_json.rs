use samply_symbols::debug_id::DebugId;
use samply_symbols::interner::SymbolMapGeneration;
use samply_symbols::json::{to_bytes, Json};
use samply_symbols::shared::{FileLocation, FilePath, FramesLookupResult, InlineStackFrame};
use samply_symbols::symbol_map::{FramesSource, SymbolRecord};
use samply_symbols::textfmt::hex_str;
use samply_symbols::response::AddressResult;
use samply_symbols::SymbolMap;

fn test_map() -> SymbolMap {
    let records = vec![
        SymbolRecord {
            address: 0x100,
            size: Some(0x40),
            name: "foo".to_string(),
            frames: FramesSource::Unavailable,
        },
        SymbolRecord {
            address: 0x200,
            size: None,
            name: "bar".to_string(),
            frames: FramesSource::Unavailable,
        },
    ];
    SymbolMap::new(
        FileLocation::Path("/tmp/libtest.so".to_string()),
        DebugId::from_parts(1, 2, 0),
        SymbolMapGeneration(1),
        records,
    )
}

#[test]
fn symbol_lookup_follows_sizes() {
    let m = test_map();
    let hit = m.lookup(0x120).unwrap();
    assert_eq!(hit.symbol.name, "foo".to_string());
    assert_eq!(hit.symbol.address, 0x100);
    assert_eq!(hit.symbol.size, Some(0x40));
    assert!(m.lookup(0x140).is_none());
    let open_ended = m.lookup(0x1000).unwrap();
    assert_eq!(open_ended.symbol.name, "bar".to_string());
    assert!(m.lookup(0x50).is_none());
}

#[test]
fn symbol_lookup_within_declared_size() {
    let m = test_map();
    let hit = m.lookup(0x13f).unwrap();
    let sz = hit.symbol.size.unwrap();
    assert!(hit.symbol.address <= 0x13f);
    assert!(0x13f < hit.symbol.address + sz);
}

#[test]
fn symbol_map_metadata() {
    let m = test_map();
    assert_eq!(m.symbol_count(), 2);
    assert_eq!(m.debug_id(), DebugId::from_parts(1, 2, 0));
    let syms = m.iter_symbols();
    assert_eq!(syms.len(), 2);
    assert_eq!(syms[0].0, 0x100);
    assert_eq!(syms[0].1, "foo".to_string());
    assert_eq!(syms[1].0, 0x200);
}

#[test]
fn symbol_lookup_external_reference_carries_offset() {
    let records = vec![SymbolRecord {
        address: 0x300,
        size: Some(0x100),
        name: "baz".to_string(),
        frames: FramesSource::External {
            file_name: "/tmp/ext.o".to_string(),
            name_in_archive: None,
            symbol_name: b"_baz".to_vec(),
        },
    }];
    let m = SymbolMap::new(
        FileLocation::Path("/tmp/libext.so".to_string()),
        DebugId::from_parts(0, 0, 0),
        SymbolMapGeneration(2),
        records,
    );
    let hit = m.lookup(0x320).unwrap();
    match hit.frames {
        FramesLookupResult::External(ext) => {
            assert_eq!(ext.file_ref.file_name, "/tmp/ext.o".to_string());
            assert_eq!(ext.address_in_file.symbol_name, b"_baz".to_vec());
            assert_eq!(ext.address_in_file.offset_from_symbol, 0x20);
        }
        _ => panic!("expected an external reference"),
    }
}

#[test]
fn symbol_lookup_resolves_inline_frames() {
    let records = vec![SymbolRecord {
        address: 0x400,
        size: Some(0x10),
        name: "outer".to_string(),
        frames: FramesSource::Inline(vec![
            InlineStackFrame {
                function: Some("inner_inlined".to_string()),
                file_path: Some(FilePath::NonLocal("src/inner.rs".to_string())),
                line_number: Some(12),
            },
            InlineStackFrame {
                function: Some("outer".to_string()),
                file_path: Some(FilePath::NonLocal("src/outer.rs".to_string())),
                line_number: Some(99),
            },
        ]),
    }];
    let m = SymbolMap::new(
        FileLocation::Custom("sym:libinline".to_string()),
        DebugId::from_parts(0, 0, 0),
        SymbolMapGeneration(3),
        records,
    );
    let hit = m.lookup(0x405).unwrap();
    match hit.frames {
        FramesLookupResult::Available(frames) => {
            assert_eq!(frames.len(), 2);
            let inner = m.resolve_function_name(frames[0].function.unwrap()).unwrap();
            assert_eq!(inner, "inner_inlined".to_string());
            let outer = m.resolve_function_name(frames[1].function.unwrap()).unwrap();
            assert_eq!(outer, "outer".to_string());
            let file = m.resolve_source_file_path(frames[0].file_path.unwrap()).unwrap();
            assert_eq!(file, "src/inner.rs".to_string());
            assert_eq!(frames[0].line_number, Some(12));
            assert_eq!(frames[1].line_number, Some(99));
        }
        _ => panic!("expected inline frames"),
    }
}

#[test]
fn hex_formatting_exact() {
    assert_eq!(hex_str(0x1234), b"0x1234".to_vec());
    assert_eq!(hex_str(0), b"0x0".to_vec());
    assert_eq!(hex_str(0xdeadbeef), b"0xdeadbeef".to_vec());
}

#[test]
fn debug_id_breakpad_round_trip() {
    let id = DebugId::from_parts(0x0123456789abcdef, 0xfedcba9876543210, 0xa);
    let bytes = id.breakpad_bytes();
    assert_eq!(
        String::from_utf8(bytes.clone()).unwrap(),
        "0123456789ABCDEFFEDCBA9876543210A".to_string()
    );
    let parsed = DebugId::from_breakpad_bytes(&bytes).unwrap();
    assert_eq!(parsed, id);
}

#[test]
fn debug_id_rejects_malformed() {
    assert!(DebugId::from_breakpad("tooshort").is_none());
    assert!(DebugId::from_breakpad("ZZ23456789ABCDEFFEDCBA9876543210A").is_none());
    assert!(DebugId::from_breakpad("").is_none());
}

#[test]
fn json_emission_exact_bytes() {
    let tree = Json::Obj(vec![
        (b"ok".to_vec(), Json::Bool(true)),
        (b"n".to_vec(), Json::UInt(42)),
        (
            b"items".to_vec(),
            Json::Arr(vec![Json::Str(b"a\"b\\c".to_vec()), Json::UInt(0)]),
        ),
    ]);
    let bytes = to_bytes(&tree);
    assert_eq!(
        String::from_utf8(bytes).unwrap(),
        "{\"ok\":true,\"n\":42,\"items\":[\"a\\\"b\\\\c\",0]}".to_string()
    );
}

#[test]
fn json_escapes_control_bytes() {
    let tree = Json::Str(vec![0x1f, 65]);
    let bytes = to_bytes(&tree);
    assert_eq!(String::from_utf8(bytes).unwrap(), "\"\\u001fA\"".to_string());
}

#[test]
fn address_result_keeps_outer_function_name() {
    let records = vec![SymbolRecord {
        address: 0x400,
        size: Some(0x10),
        name: "outer".to_string(),
        frames: FramesSource::Inline(vec![
            InlineStackFrame {
                function: Some("inner_inlined".to_string()),
                file_path: None,
                line_number: Some(12),
            },
            InlineStackFrame {
                function: Some("outer_exact".to_string()),
                file_path: None,
                line_number: Some(99),
            },
        ]),
    }];
    let m = SymbolMap::new(
        FileLocation::Custom("sym:libinline2".to_string()),
        DebugId::from_parts(0, 0, 0),
        SymbolMapGeneration(4),
        records,
    );
    let hit = m.lookup(0x400).unwrap();
    let mut ar = AddressResult::new(hit.symbol);
    assert!(ar.function_name.is_none());
    assert!(ar.inline_frames.is_none());
    match hit.frames {
        FramesLookupResult::Available(frames) => {
            ar.set_debug_info(frames);
        }
        _ => panic!("expected inline frames"),
    }
    let outer = m.resolve_function_name(ar.function_name.unwrap()).unwrap();
    assert_eq!(outer, "outer_exact".to_string());
    assert_eq!(ar.inline_frames.as_ref().unwrap().len(), 2);
}

#[test]
fn json_reparses_with_independent_parser() {
    let tree = Json::Obj(vec![
        (b"name".to_vec(), Json::Str(b"foo".to_vec())),
        (b"line".to_vec(), Json::UInt(7)),
        (b"inner".to_vec(), Json::Obj(vec![(b"flag".to_vec(), Json::Bool(false))])),
    ]);
    let bytes = to_bytes(&tree);
    let parsed: serde_json::Value = serde_json::from_slice(&bytes).unwrap();
    assert_eq!(parsed["name"].as_str().unwrap(), "foo");
    assert_eq!(parsed["line"].as_u64().unwrap(), 7);
    assert_eq!(parsed["inner"]["flag"].as_bool().unwrap(), false);
}
