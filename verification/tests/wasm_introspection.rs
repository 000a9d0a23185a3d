use soroban_debugger::error::DebuggerError;
use soroban_debugger::utils::wasm::{
    function_names_of, get_module_info, parse_functions, summarize, EventRead, ExportKind,
    ExportRead, ModuleInfo, SectionCount, SectionSpan,
};

fn sample_module() -> Vec<u8> {
    let mut bytes = vec![0x00, 0x61, 0x73, 0x6d, 0x01, 0x00, 0x00, 0x00];
    // types: () -> ()
    bytes.extend_from_slice(&[0x01, 0x04, 0x01, 0x60, 0x00, 0x00]);
    // functions: two of type 0
    bytes.extend_from_slice(&[0x03, 0x03, 0x02, 0x00, 0x00]);
    // memory: one, at least one page
    bytes.extend_from_slice(&[0x05, 0x03, 0x01, 0x00, 0x01]);
    // exports: "run" -> function 0, "memory" -> memory 0, "stop" -> function 1
    bytes.extend_from_slice(&[
        0x07, 0x17, 0x03, 0x03, b'r', b'u', b'n', 0x00, 0x00, 0x06, b'm', b'e', b'm', b'o', b'r',
        b'y', 0x02, 0x00, 0x04, b's', b't', b'o', b'p', 0x00, 0x01,
    ]);
    // code: two empty bodies
    bytes.extend_from_slice(&[0x0a, 0x07, 0x02, 0x02, 0x00, 0x0b, 0x02, 0x00, 0x0b]);
    bytes
}

#[test]
fn empty_module_has_no_exports() {
    let wasm = [0x00, 0x61, 0x73, 0x6d, 0x01, 0x00, 0x00, 0x00];
    assert_eq!(parse_functions(&wasm), Ok(Vec::new()));
    let info = get_module_info(&wasm).unwrap();
    assert_eq!(info, ModuleInfo { type_count: 0, function_count: 0, export_count: 0 });
    assert_eq!(info, ModuleInfo::default());
}

#[test]
fn parse_functions_lists_function_exports_in_order() {
    assert_eq!(
        parse_functions(&sample_module()),
        Ok(vec!["run".to_string(), "stop".to_string()])
    );
}

#[test]
fn get_module_info_counts_sections() {
    assert_eq!(
        get_module_info(&sample_module()),
        Ok(ModuleInfo { type_count: 1, function_count: 2, export_count: 3 })
    );
}

#[test]
fn bad_magic_is_malformed() {
    let wasm = [0x01, 0x61, 0x73, 0x6d, 0x01, 0x00, 0x00, 0x00];
    assert!(matches!(parse_functions(&wasm), Err(DebuggerError::MalformedModule { .. })));
    assert!(matches!(get_module_info(&wasm), Err(DebuggerError::MalformedModule { .. })));
}

#[test]
fn truncated_module_is_malformed() {
    let mut wasm = sample_module();
    wasm.truncate(wasm.len() - 3);
    assert!(matches!(parse_functions(&wasm), Err(DebuggerError::MalformedModule { .. })));
    assert!(matches!(get_module_info(&wasm), Err(DebuggerError::MalformedModule { .. })));
}

#[test]
fn malformed_export_entry_fails_parse_functions_only() {
    let mut wasm = vec![0x00, 0x61, 0x73, 0x6d, 0x01, 0x00, 0x00, 0x00];
    // An export section that announces two entries and holds one, of a
    // kind that does not exist.
    wasm.extend_from_slice(&[0x07, 0x05, 0x02, 0x01, b'f', 0x09, 0x00]);
    assert!(matches!(parse_functions(&wasm), Err(DebuggerError::MalformedModule { .. })));
    // The counts are read without decoding the entries.
    assert_eq!(
        get_module_info(&wasm),
        Ok(ModuleInfo { type_count: 0, function_count: 0, export_count: 2 })
    );
}

#[test]
fn function_names_of_stops_at_the_first_fault() {
    let entries = vec![
        ExportRead::Entry { name: "a".to_string(), kind: ExportKind::Func, index: 0 },
        ExportRead::Entry { name: "m".to_string(), kind: ExportKind::Memory, index: 0 },
        ExportRead::Entry { name: "b".to_string(), kind: ExportKind::Func, index: 1 },
    ];
    assert_eq!(function_names_of(&entries), Ok(vec!["a".to_string(), "b".to_string()]));
    let mut broken = entries.clone();
    broken.insert(1, ExportRead::Malformed { message: "bad".to_string(), offset: 7 });
    broken.push(ExportRead::Malformed { message: "later".to_string(), offset: 9 });
    assert_eq!(
        function_names_of(&broken),
        Err(DebuggerError::MalformedModule { message: "bad".to_string(), offset: 7 })
    );
    assert_eq!(function_names_of(&Vec::new()), Ok(Vec::new()));
}

fn section(id: u8, count: SectionCount) -> EventRead {
    EventRead::Section { span: SectionSpan { id, start: 0, end: 0 }, count }
}

#[test]
fn summarize_keeps_the_last_count_of_each_kind() {
    let items = vec![
        EventRead::Other,
        section(1, SectionCount::Types(3)),
        section(3, SectionCount::Functions(5)),
        section(7, SectionCount::Exports(2)),
        section(1, SectionCount::Types(4)),
        section(2, SectionCount::Uncounted),
        EventRead::Other,
    ];
    assert_eq!(
        summarize(&items),
        Ok(ModuleInfo { type_count: 4, function_count: 5, export_count: 2 })
    );
    let mut broken = items.clone();
    broken.push(EventRead::Malformed { message: "eof".to_string(), offset: 12 });
    broken.push(section(1, SectionCount::Types(9)));
    assert_eq!(
        summarize(&broken),
        Err(DebuggerError::MalformedModule { message: "eof".to_string(), offset: 12 })
    );
}

#[test]
fn summarize_goes_by_what_the_parser_handed_out_not_by_the_identifier() {
    // Sections with the identifiers of the type, function and export
    // sections that the parser did not hand out as such.
    let items = vec![
        section(1, SectionCount::Uncounted),
        section(3, SectionCount::Uncounted),
        section(7, SectionCount::Uncounted),
    ];
    assert_eq!(summarize(&items), Ok(ModuleInfo::default()));
    let items = vec![
        section(7, SectionCount::Types(1)),
        section(1, SectionCount::Exports(2)),
        section(0, SectionCount::Functions(3)),
    ];
    assert_eq!(
        summarize(&items),
        Ok(ModuleInfo { type_count: 1, function_count: 3, export_count: 2 })
    );
}

#[test]
fn sections_of_a_component_are_not_counted() {
    // A component with one component type, an empty instance type. Its
    // section has the identifier that the export section has in a module.
    let component = [0x00, 0x61, 0x73, 0x6d, 0x0d, 0x00, 0x01, 0x00, 0x07, 0x03, 0x01, 0x42, 0x00];
    assert_eq!(get_module_info(&component), Ok(ModuleInfo::default()));
    assert_eq!(parse_functions(&component), Ok(Vec::new()));
}
