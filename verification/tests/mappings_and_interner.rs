use samply_symbols::interner::{SymbolMapGeneration, SymbolMapStringHandle};
use samply_symbols::interner::{FunctionNameHandle, SourceFilePathHandle, SymbolNameHandle};
use samply_symbols::{LibMappings, SymbolMapStringInterner};

#[test]
fn mapping_table_basic_conversions() {
    let mut m: LibMappings<u32> = LibMappings::new();
    m.add_mapping(0x1000, 0x2000, 0, 1);
    m.add_mapping(0x2000, 0x3000, 0, 2);
    assert_eq!(m.convert_address(0x1500), Some((0x500, &1)));
    assert_eq!(m.convert_address(0x2000), Some((0, &2)));
    assert_eq!(m.convert_address(0x1fff), Some((0xfff, &1)));
    assert_eq!(m.convert_address(0x3000), None);
}

#[test]
fn mapping_table_exact_start_overlap_last_write_wins() {
    let mut m: LibMappings<u32> = LibMappings::new();
    m.add_mapping(0x1000, 0x2000, 0, 1);
    m.add_mapping(0x1000, 0x4000, 0, 2);
    assert_eq!(m.convert_address(0x1500), Some((0x500, &2)));
}

#[test]
fn mapping_table_below_first_is_none() {
    let mut m: LibMappings<u32> = LibMappings::new();
    m.add_mapping(0x1000, 0x2000, 0, 7);
    assert_eq!(m.convert_address(0xfff), None);
    assert_eq!(m.convert_address(0), None);
}

#[test]
fn mapping_table_end_is_exclusive() {
    let mut m: LibMappings<u32> = LibMappings::new();
    m.add_mapping(0x1000, 0x2000, 0x10, 7);
    assert_eq!(m.convert_address(0x1000), Some((0x10, &7)));
    assert_eq!(m.convert_address(0x2000), None);
}

#[test]
fn mapping_table_add_then_convert_start() {
    let mut m: LibMappings<&'static str> = LibMappings::new();
    m.add_mapping(0x4000, 0x5000, 0x20, "a");
    m.add_mapping(0x4000, 0x6000, 0x40, "b");
    assert_eq!(m.convert_address(0x4000), Some((0x40, &"b")));
}

#[test]
fn mapping_table_remove() {
    let mut m: LibMappings<u32> = LibMappings::new();
    m.add_mapping(0x1000, 0x2000, 0, 1);
    m.add_mapping(0x2000, 0x3000, 0, 2);
    m.remove_mapping(0x1000);
    assert_eq!(m.convert_address(0x1500), None);
    assert_eq!(m.convert_address(0x2500), Some((0x500, &2)));
}

#[test]
fn interner_round_trip_and_dedup() {
    let mut it = SymbolMapStringInterner::new(SymbolMapGeneration(1));
    let h1 = it.intern("alpha");
    let h2 = it.intern_owned("beta");
    let h3 = it.intern("alpha");
    assert_eq!(h1, h3);
    assert_ne!(h1, h2);
    assert_eq!(it.resolve(h1).unwrap(), "alpha".to_string());
    assert_eq!(it.resolve(h2).unwrap(), "beta".to_string());
}

#[test]
fn interner_pools_share_strings() {
    let mut it = SymbolMapStringInterner::new(SymbolMapGeneration(1));
    let h1 = it.intern_owned("gamma");
    let h2 = it.intern("gamma");
    assert_eq!(h1, h2);
    assert_eq!(h1.index % 2, 1);
}

#[test]
fn interner_refuses_foreign_generation() {
    let mut it1 = SymbolMapStringInterner::new(SymbolMapGeneration(1));
    let it2 = SymbolMapStringInterner::new(SymbolMapGeneration(2));
    let h = it1.intern("alpha");
    assert!(it2.resolve(h).is_none());
    assert!(it1.resolve(h).is_some());
}

#[test]
fn interner_handle_index_out_of_range_is_none() {
    let it = SymbolMapStringInterner::new(SymbolMapGeneration(3));
    let h = SymbolMapStringHandle { generation: SymbolMapGeneration(3), index: 4 };
    assert!(it.resolve(h).is_none());
}

#[test]
fn handle_conversions_keep_generation_and_index() {
    let h = SymbolMapStringHandle { generation: SymbolMapGeneration(9), index: 42 };
    let f: FunctionNameHandle = h.into();
    let p: SourceFilePathHandle = h.into();
    let s: SymbolNameHandle = h.into();
    assert_eq!(f.generation, SymbolMapGeneration(9));
    assert_eq!(f.index, 42);
    let back: SymbolMapStringHandle = f.into();
    assert_eq!(back, h);
    let back2: SymbolMapStringHandle = p.into();
    assert_eq!(back2, h);
    let back3: SymbolMapStringHandle = s.into();
    assert_eq!(back3, h);
}
