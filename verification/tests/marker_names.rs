use wasm_split_analyzer::marker::{decode_marker_name, encode_marker_name, Direction, SplitMarker};

#[test]
fn decode_well_formed_import_name() {
    let m = decode_marker_name("__wasm_split_00mymod00_import_abc123_Foo").unwrap();
    assert_eq!(m.module_name, "mymod");
    assert!(matches!(m.direction, Direction::Import));
    assert_eq!(m.hash, "abc123");
    assert_eq!(m.component_name, "Foo");
}

#[test]
fn decode_well_formed_export_name() {
    let m = decode_marker_name("__wasm_split_00add_body_element00_export_abef5ee3ebe66ff17677c56ee392b4c2_SomeRoute2")
        .unwrap();
    assert_eq!(m.module_name, "add_body_element");
    assert!(matches!(m.direction, Direction::Export));
    assert_eq!(m.hash, "abef5ee3ebe66ff17677c56ee392b4c2");
    assert_eq!(m.component_name, "SomeRoute2");
}

#[test]
fn component_name_may_contain_separators() {
    let m = decode_marker_name("__wasm_split_00m00_import_h_Some_Route_2").unwrap();
    assert_eq!(m.hash, "h");
    assert_eq!(m.component_name, "Some_Route_2");
}

#[test]
fn decode_then_encode_is_identity() {
    let names = [
        "__wasm_split_00mymod00_import_abc123_Foo",
        "__wasm_split_00mymod00_export_abc123_Foo",
        "__wasm_split_00add_body_element00_import_abef5ee3ebe66ff17677c56ee392b4c2_SomeRoute2",
        "__wasm_split_00m00_import__Foo",
    ];
    for name in names {
        let m = decode_marker_name(name).unwrap();
        assert_eq!(encode_marker_name(&m), name);
    }
}

#[test]
fn encode_builds_the_expected_name() {
    let m = SplitMarker {
        module_name: String::from("mymod"),
        direction: Direction::Export,
        hash: String::from("abc123"),
        component_name: String::from("Foo"),
    };
    assert_eq!(encode_marker_name(&m), "__wasm_split_00mymod00_export_abc123_Foo");
}

#[test]
fn export_name_swaps_only_the_direction_tag() {
    let m = decode_marker_name("__wasm_split_00mymod00_import_abc123_Foo").unwrap();
    let sibling = SplitMarker {
        module_name: m.module_name.clone(),
        direction: Direction::Export,
        hash: m.hash.clone(),
        component_name: m.component_name.clone(),
    };
    let import_name = encode_marker_name(&m);
    let export_name = encode_marker_name(&sibling);
    assert_eq!(import_name.replace("_import_", "_export_"), export_name);
}

#[test]
fn decode_rejects_names_off_the_grammar() {
    // No opening escape token after the prefix.
    assert!(decode_marker_name("__wasm_split_bogus").is_none());
    // No closing escape token.
    assert!(decode_marker_name("__wasm_split_00mymod_import_h_Foo").is_none());
    // Unknown direction tag.
    assert!(decode_marker_name("__wasm_split_00mymod00_between_h_Foo").is_none());
    // No separator after the hash.
    assert!(decode_marker_name("__wasm_split_00mymod00_import_hash").is_none());
    // Not a marker name at all.
    assert!(decode_marker_name("memcpy").is_none());
}
