use wasm_split_analyzer::errors::{AnalysisError, StructuralIssue};
use wasm_split_analyzer::helpers::{
    accumulate_active_segments, accumulate_indirect_fns, accumulate_split_points, Demangler,
};
use wasm_split_analyzer::model::{
    CustomSection, ElementContent, ElementSegment, ExportItem, FunctionInfo, ImportItem, LocalBody,
    ModuleInfo,
};
use wasm_split_analyzer::relocations::{
    accumulate_relocations, accumulate_relocations_from_section, check_relocation_range, ByteRange,
};
use wasm_split_analyzer::model::InstrKind;

fn unnamed_functions(n: usize) -> Vec<FunctionInfo> {
    let mut v = Vec::new();
    for _ in 0..n {
        v.push(FunctionInfo { name: None, local: None });
    }
    v
}

fn empty_module() -> ModuleInfo {
    ModuleInfo {
        imports: Vec::new(),
        exports: Vec::new(),
        functions: Vec::new(),
        customs: Vec::new(),
        elements: Vec::new(),
    }
}

#[test]
fn split_point_from_matched_pair() {
    let mut m = empty_module();
    m.functions = unnamed_functions(2);
    m.imports.push(ImportItem {
        name: String::from("__wasm_split_00mymod00_import_abc123_Foo"),
        func: Some(0),
    });
    m.exports.push(ExportItem {
        name: String::from("__wasm_split_00mymod00_export_abc123_Foo"),
        func: Some(1),
    });
    let points = accumulate_split_points(&m).unwrap();
    assert_eq!(points.len(), 1);
    let sp = &points[0];
    assert_eq!(sp.module_name, "mymod");
    assert_eq!(sp.component_name, "Foo");
    assert_eq!(sp.import, 0);
    assert_eq!(sp.export, 1);
    assert_eq!(sp.import_name, "__wasm_split_00mymod00_import_abc123_Foo");
    assert_eq!(sp.export_name, "__wasm_split_00mymod00_export_abc123_Foo");
}

#[test]
fn split_points_keep_import_order_and_skip_plain_imports() {
    let mut m = empty_module();
    m.functions = unnamed_functions(4);
    m.imports.push(ImportItem { name: String::from("env.memcpy"), func: Some(0) });
    m.imports.push(ImportItem {
        name: String::from("__wasm_split_00a00_import_h1_X"),
        func: Some(1),
    });
    // A marker-prefixed import that is not a function import is ignored.
    m.imports.push(ImportItem {
        name: String::from("__wasm_split_00a00_import_h2_Y"),
        func: None,
    });
    m.imports.push(ImportItem {
        name: String::from("__wasm_split_00b00_import_h3_Z"),
        func: Some(2),
    });
    m.exports.push(ExportItem { name: String::from("__wasm_split_00b00_export_h3_Z"), func: Some(3) });
    m.exports.push(ExportItem { name: String::from("__wasm_split_00a00_export_h1_X"), func: Some(3) });
    let points = accumulate_split_points(&m).unwrap();
    assert_eq!(points.len(), 2);
    assert_eq!(points[0].module_name, "a");
    assert_eq!(points[0].component_name, "X");
    assert_eq!(points[1].module_name, "b");
    assert_eq!(points[1].component_name, "Z");
}

#[test]
fn malformed_marker_name_is_fatal() {
    let mut m = empty_module();
    m.functions = unnamed_functions(1);
    m.imports.push(ImportItem { name: String::from("__wasm_split_garbled"), func: Some(0) });
    match accumulate_split_points(&m) {
        Err(AnalysisError::MalformedSplitMarkerName { name }) => {
            assert_eq!(name, "__wasm_split_garbled");
        },
        other => panic!("expected MalformedSplitMarkerName, got {:?}", other),
    }
}

#[test]
fn export_directed_import_name_is_malformed() {
    let mut m = empty_module();
    m.functions = unnamed_functions(1);
    m.imports.push(ImportItem {
        name: String::from("__wasm_split_00a00_export_h_X"),
        func: Some(0),
    });
    assert!(matches!(
        accumulate_split_points(&m),
        Err(AnalysisError::MalformedSplitMarkerName { .. })
    ));
}

#[test]
fn missing_sibling_export_lists_candidates() {
    let mut m = empty_module();
    m.functions = unnamed_functions(1);
    m.imports.push(ImportItem {
        name: String::from("__wasm_split_00a00_import_h_X"),
        func: Some(0),
    });
    m.exports.push(ExportItem { name: String::from("plain"), func: Some(0) });
    m.exports.push(ExportItem {
        name: String::from("__wasm_split_00other00_export_h_Y"),
        func: Some(0),
    });
    match accumulate_split_points(&m) {
        Err(AnalysisError::UnresolvedSplitPair { export_name, candidates }) => {
            assert_eq!(export_name, "__wasm_split_00a00_export_h_X");
            assert_eq!(candidates, vec![String::from("__wasm_split_00other00_export_h_Y")]);
        },
        other => panic!("expected UnresolvedSplitPair, got {:?}", other),
    }
}

fn local(instrs: Vec<InstrKind>) -> FunctionInfo {
    FunctionInfo {
        name: None,
        local: Some(LocalBody { instrs, range_start: 0, range_end: 1 }),
    }
}

#[test]
fn load_then_indirect_call_is_standard() {
    let mut m = empty_module();
    m.functions.push(local(vec![InstrKind::Load, InstrKind::CallIndirect]));
    let (weird, standard) = accumulate_indirect_fns(&m);
    assert_eq!(standard, vec![0]);
    assert!(weird.is_empty());
}

#[test]
fn other_shapes_before_indirect_call_are_anomalous() {
    let mut m = empty_module();
    m.functions.push(local(vec![InstrKind::Other, InstrKind::CallIndirect]));
    // An indirect call with no predecessor at all is anomalous too.
    m.functions.push(local(vec![InstrKind::CallIndirect]));
    let (weird, standard) = accumulate_indirect_fns(&m);
    assert!(standard.is_empty());
    assert_eq!(weird, vec![0, 1]);
}

#[test]
fn mixed_call_shapes_put_one_function_in_both_sets() {
    let mut m = empty_module();
    // Imported function: never scanned.
    m.functions.push(FunctionInfo { name: None, local: None });
    m.functions.push(local(vec![
        InstrKind::Load,
        InstrKind::CallIndirect,
        InstrKind::Other,
        InstrKind::CallIndirect,
        InstrKind::Load,
        InstrKind::CallIndirect,
    ]));
    let (weird, standard) = accumulate_indirect_fns(&m);
    assert_eq!(standard, vec![1, 1]);
    assert_eq!(weird, vec![1]);
}

#[test]
fn active_table_in_slot_order() {
    let mut m = empty_module();
    m.functions = unnamed_functions(8);
    m.functions[3].name = Some(String::from("a"));
    m.functions[7].name = Some(String::from("b"));
    m.elements.push(ElementSegment {
        active: true,
        content: ElementContent::Functions(vec![3, 7, 1]),
    });
    let table = accumulate_active_segments(&m).unwrap();
    assert_eq!(
        table,
        vec![(3, String::from("a")), (7, String::from("b")), (1, String::new())]
    );
}

#[test]
fn active_table_structural_violations() {
    let m = empty_module();
    assert!(matches!(
        accumulate_active_segments(&m),
        Err(AnalysisError::StructuralAssumptionViolation {
            issue: StructuralIssue::ElementSegmentCount(0)
        })
    ));

    let mut two = empty_module();
    two.elements.push(ElementSegment { active: true, content: ElementContent::Functions(vec![]) });
    two.elements.push(ElementSegment { active: true, content: ElementContent::Functions(vec![]) });
    assert!(matches!(
        accumulate_active_segments(&two),
        Err(AnalysisError::StructuralAssumptionViolation {
            issue: StructuralIssue::ElementSegmentCount(2)
        })
    ));

    let mut passive = empty_module();
    passive.elements.push(ElementSegment {
        active: false,
        content: ElementContent::Functions(vec![]),
    });
    assert!(matches!(
        accumulate_active_segments(&passive),
        Err(AnalysisError::StructuralAssumptionViolation {
            issue: StructuralIssue::SegmentNotActive
        })
    ));

    let mut exprs = empty_module();
    exprs.elements.push(ElementSegment { active: true, content: ElementContent::Other });
    assert!(matches!(
        accumulate_active_segments(&exprs),
        Err(AnalysisError::StructuralAssumptionViolation {
            issue: StructuralIssue::ItemsNotFunctions
        })
    ));
}

/// A `reloc.*` section body: target section index 3, then the entry count,
/// then (type, offset, index) triples; type 0 carries no addend.
fn reloc_section_bytes(offsets: &[u8]) -> Vec<u8> {
    let mut bytes = vec![3u8, offsets.len() as u8];
    for (i, off) in offsets.iter().enumerate() {
        bytes.push(0u8);
        bytes.push(*off);
        bytes.push(i as u8);
    }
    bytes
}

fn local_with_range(start: usize, end: usize) -> FunctionInfo {
    FunctionInfo {
        name: None,
        local: Some(LocalBody { instrs: Vec::new(), range_start: start, range_end: end }),
    }
}

#[test]
fn relocations_bucketed_by_function_range() {
    let mut m = empty_module();
    m.functions.push(local_with_range(0, 6));
    m.functions.push(FunctionInfo { name: None, local: None });
    m.functions.push(local_with_range(6, 12));
    m.customs.push(CustomSection {
        name: String::from("reloc.CODE"),
        data: reloc_section_bytes(&[2, 5, 10]),
    });
    let rm = accumulate_relocations(&m).unwrap();

    assert_eq!(rm.code_relocs.len(), 3);
    assert_eq!(rm.code_relocs.get(&5).unwrap().offset, 5);
    assert_eq!(rm.code_relocs.get(&5).unwrap().symbol_index, 1);
    assert_eq!(rm.code_relocs.get(&5).unwrap().reloc_kind, 0);
    assert_eq!(rm.code_relocs.get(&5).unwrap().addend, 0);
    assert!(rm.data_relocs.is_empty());

    let f0 = rm.functions.get(&0).unwrap();
    assert_eq!(f0.func_id, 0);
    assert_eq!(f0.original_range, ByteRange { start: 0, end: 6 });
    let offsets0: Vec<u32> = f0.relocations.iter().map(|e| e.offset).collect();
    assert_eq!(offsets0, vec![2, 5]);
    assert!(f0.relocation_map.contains_key(&2));

    let f2 = rm.functions.get(&2).unwrap();
    let offsets2: Vec<u32> = f2.relocations.iter().map(|e| e.offset).collect();
    assert_eq!(offsets2, vec![10]);

    // Partition completeness on this snapshot: the buckets union back to
    // exactly the decoded code relocations.
    let mut together: Vec<u32> = Vec::new();
    together.extend(offsets0);
    together.extend(offsets2);
    assert_eq!(together, vec![2, 5, 10]);
}

#[test]
fn absent_data_section_yields_empty_map() {
    let mut m = empty_module();
    m.customs.push(CustomSection {
        name: String::from("reloc.CODE"),
        data: reloc_section_bytes(&[]),
    });
    let rm = accumulate_relocations(&m).unwrap();
    assert!(rm.data_relocs.is_empty());

    let direct = accumulate_relocations_from_section(&m, "reloc.DATA").unwrap();
    assert!(direct.is_empty());
}

#[test]
fn malformed_section_is_a_decode_error() {
    let mut m = empty_module();
    // Relocation type 99 does not exist.
    m.customs.push(CustomSection {
        name: String::from("reloc.CODE"),
        data: vec![3, 1, 99],
    });
    match accumulate_relocations(&m) {
        Err(AnalysisError::RelocationSectionDecodeError { section }) => {
            assert_eq!(section, "reloc.CODE");
        },
        other => panic!("expected RelocationSectionDecodeError, got {:?}", other),
    }
}

#[test]
fn offset_outside_every_range_is_a_mismatch() {
    let mut m = empty_module();
    // The entry at offset 5 lies in the gap before this function's range.
    m.functions.push(local_with_range(10, 20));
    m.customs.push(CustomSection {
        name: String::from("reloc.CODE"),
        data: reloc_section_bytes(&[5]),
    });
    match accumulate_relocations(&m) {
        Err(AnalysisError::RelocationRangeMismatch { offset, func }) => {
            assert_eq!(offset, 5);
            assert_eq!(func, 0);
        },
        other => panic!("expected RelocationRangeMismatch, got {:?}", other),
    }
}

#[test]
fn assignment_against_foreign_range_is_a_mismatch() {
    assert!(check_relocation_range(490, ByteRange { start: 480, end: 500 }, 7).is_ok());
    match check_relocation_range(512, ByteRange { start: 480, end: 500 }, 7) {
        Err(AnalysisError::RelocationRangeMismatch { offset, func }) => {
            assert_eq!(offset, 512);
            assert_eq!(func, 7);
        },
        other => panic!("expected RelocationRangeMismatch, got {:?}", other),
    }
}

#[test]
fn all_four_passes_are_idempotent() {
    let mut m = empty_module();
    m.functions = unnamed_functions(2);
    m.functions.push(local(vec![InstrKind::Load, InstrKind::CallIndirect, InstrKind::CallIndirect]));
    m.functions.push(local_with_range(0, 32));
    m.imports.push(ImportItem {
        name: String::from("__wasm_split_00mymod00_import_abc123_Foo"),
        func: Some(0),
    });
    m.exports.push(ExportItem {
        name: String::from("__wasm_split_00mymod00_export_abc123_Foo"),
        func: Some(1),
    });
    m.customs.push(CustomSection {
        name: String::from("reloc.CODE"),
        data: reloc_section_bytes(&[4, 9]),
    });
    m.elements.push(ElementSegment {
        active: true,
        content: ElementContent::Functions(vec![2, 3]),
    });

    assert_eq!(accumulate_split_points(&m), accumulate_split_points(&m));
    assert_eq!(accumulate_indirect_fns(&m), accumulate_indirect_fns(&m));
    assert_eq!(accumulate_active_segments(&m), accumulate_active_segments(&m));
    assert_eq!(accumulate_relocations(&m), accumulate_relocations(&m));
}

#[test]
fn demangle_renders_mangled_symbols() {
    let mangled = String::from("_ZN3foo3barE");
    assert_eq!(mangled.demangle(), "foo::bar");
    let plain = String::from("not_a_mangled_symbol");
    assert_eq!(plain.demangle(), "not_a_mangled_symbol");
}
