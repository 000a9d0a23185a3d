use soroban_debugger::error::DebuggerError;
use soroban_debugger::runtime::{HookPolicy, HookScope, HookTarget, Instrumenter};
use soroban_debugger::utils::wasm::{get_module_info, parse_functions};

const HEADER: [u8; 8] = [0x00, 0x61, 0x73, 0x6d, 0x01, 0x00, 0x00, 0x00];

fn section(id: u8, content: &[u8]) -> Vec<u8> {
    assert!(content.len() < 128);
    let mut bytes = vec![id, content.len() as u8];
    bytes.extend_from_slice(content);
    bytes
}

fn module(sections: &[Vec<u8>]) -> Vec<u8> {
    let mut bytes = HEADER.to_vec();
    for s in sections {
        bytes.extend_from_slice(s);
    }
    bytes
}

/// One function `f` of type `() -> ()`, exported, with an empty body.
fn tiny_module() -> Vec<u8> {
    module(&[
        section(1, &[0x01, 0x60, 0x00, 0x00]),
        section(3, &[0x01, 0x00]),
        section(7, &[0x01, 0x01, b'f', 0x00, 0x00]),
        section(10, &[0x01, 0x02, 0x00, 0x0b]),
    ])
}

/// An import `env.log`, a function `increment(i32) -> i32` that calls the
/// import and a helper, the helper, a table that lists the helper, a start
/// function, and a name section.
fn larger_module() -> Vec<u8> {
    module(&[
        // types: 0 = () -> (), 1 = (i32) -> i32
        section(1, &[0x02, 0x60, 0x00, 0x00, 0x60, 0x01, 0x7f, 0x01, 0x7f]),
        // imports: env.log : type 0
        section(2, &[0x01, 0x03, b'e', b'n', b'v', 0x03, b'l', b'o', b'g', 0x00, 0x00]),
        // functions: 1 = increment : type 1, 2 = helper : type 0
        section(3, &[0x02, 0x01, 0x00]),
        // table: one table of funcref, at least one entry
        section(4, &[0x01, 0x70, 0x00, 0x01]),
        // exports: "increment" -> function 1
        section(
            7,
            &[0x01, 0x09, b'i', b'n', b'c', b'r', b'e', b'm', b'e', b'n', b't', 0x00, 0x01],
        ),
        // start: function 2
        section(8, &[0x02]),
        // elements: table 0 at offset 0 lists function 2
        section(9, &[0x01, 0x00, 0x41, 0x00, 0x0b, 0x01, 0x02]),
        // code
        section(
            10,
            &[
                0x02,
                // increment: call log; call helper; local.get 0; i32.const 1; i32.add
                0x0b, 0x00, 0x10, 0x00, 0x10, 0x02, 0x20, 0x00, 0x41, 0x01, 0x6a, 0x0b,
                // helper: nothing
                0x02, 0x00, 0x0b,
            ],
        ),
        // custom section "name" with an empty module name subsection
        section(0, &[0x04, b'n', b'a', b'm', b'e', 0x00, 0x01, 0x00]),
    ])
}

fn is_valid(bytes: &[u8]) -> bool {
    wasmparser::Validator::new().validate_all(bytes).is_ok()
}

fn imports_of(bytes: &[u8]) -> Vec<(String, String)> {
    let mut imports = Vec::new();
    for payload in wasmparser::Parser::new(0).parse_all(bytes) {
        if let wasmparser::Payload::ImportSection(reader) = payload.unwrap() {
            for import in reader.into_imports() {
                let import = import.unwrap();
                imports.push((import.module.to_string(), import.name.to_string()));
            }
        }
    }
    imports
}

fn count_calls_to(bytes: &[u8], target: u32) -> usize {
    let mut calls = 0;
    for payload in wasmparser::Parser::new(0).parse_all(bytes) {
        if let wasmparser::Payload::CodeSectionEntry(body) = payload.unwrap() {
            for op in body.get_operators_reader().unwrap() {
                if let wasmparser::Operator::Call { function_index } = op.unwrap() {
                    if function_index == target {
                        calls += 1;
                    }
                }
            }
        }
    }
    calls
}

#[test]
fn test_inputs_are_valid_modules() {
    assert!(is_valid(&tiny_module()));
    assert!(is_valid(&larger_module()));
}

#[test]
fn instruments_tiny_module_byte_for_byte() {
    let out = Instrumenter::new().instrument(&tiny_module()).unwrap();
    let expected = module(&[
        section(1, &[0x02, 0x60, 0x00, 0x00, 0x60, 0x03, 0x7f, 0x7f, 0x7f, 0x00]),
        section(
            2,
            &[
                0x01, 0x08, b'd', b'e', b'b', b'u', b'g', b'g', b'e', b'r', 0x04, b'h', b'o',
                b'o', b'k', 0x00, 0x01,
            ],
        ),
        section(3, &[0x02, 0x00, 0x00]),
        section(7, &[0x01, 0x01, b'f', 0x00, 0x01]),
        section(
            10,
            &[
                0x02, 0x14, 0x00, 0x41, 0x00, 0x41, 0x00, 0x41, 0x00, 0x10, 0x00, 0x10, 0x02,
                0x41, 0x00, 0x41, 0x01, 0x41, 0x00, 0x10, 0x00, 0x0b, 0x02, 0x00, 0x0b,
            ],
        ),
    ]);
    assert_eq!(out, expected);
    assert!(is_valid(&out));
}

#[test]
fn instrumented_module_is_valid_and_keeps_its_exports() {
    let input = larger_module();
    let out = Instrumenter::new().instrument(&input).unwrap();
    assert!(is_valid(&out));
    assert_eq!(parse_functions(&out), Ok(vec!["increment".to_string()]));
    assert_eq!(parse_functions(&input), Ok(vec!["increment".to_string()]));
    let before = get_module_info(&input).unwrap();
    let after = get_module_info(&out).unwrap();
    assert_eq!(before.type_count, 2);
    assert_eq!(after.type_count, 3);
    assert_eq!(before.function_count, 2);
    assert_eq!(after.function_count, 3);
    assert_eq!(after.export_count, 1);
    assert_eq!(
        imports_of(&out),
        vec![
            ("env".to_string(), "log".to_string()),
            ("debugger".to_string(), "hook".to_string()),
        ]
    );
}

#[test]
fn each_hooked_function_calls_the_hook_once_at_entry_and_once_at_exit() {
    let input = larger_module();
    // Exported functions only: `increment` gets one wrapper, two hook calls.
    let exported = Instrumenter::new().instrument(&input).unwrap();
    assert_eq!(count_calls_to(&exported, 1), 2);
    // Every defined function: two wrappers, four hook calls.
    let policy = HookPolicy {
        module: "debugger".to_string(),
        name: "hook".to_string(),
        scope: HookScope::All,
        blocks: false,
    };
    let all = Instrumenter::with_policy(policy).instrument(&input).unwrap();
    assert!(is_valid(&all));
    assert_eq!(count_calls_to(&all, 1), 4);
    assert_eq!(get_module_info(&all).unwrap().function_count, 4);
}

#[test]
fn calls_are_renumbered_past_the_hook() {
    let out = Instrumenter::new().instrument(&larger_module()).unwrap();
    // `env.log` keeps index 0; the helper moves from 2 to 3; the moved
    // body of `increment` is function 4 and is called by its wrapper.
    assert_eq!(count_calls_to(&out, 0), 1);
    assert_eq!(count_calls_to(&out, 3), 1);
    assert_eq!(count_calls_to(&out, 4), 1);
    assert_eq!(count_calls_to(&out, 2), 0);
}

#[test]
fn name_section_is_dropped() {
    let out = Instrumenter::new().instrument(&larger_module()).unwrap();
    for payload in wasmparser::Parser::new(0).parse_all(&out) {
        if let wasmparser::Payload::CustomSection(reader) = payload.unwrap() {
            assert_ne!(reader.name(), "name");
        }
    }
}

#[test]
fn input_is_not_mutated() {
    let input = larger_module();
    let copy = input.clone();
    let _ = Instrumenter::new().instrument(&input);
    assert_eq!(input, copy);
}

#[test]
fn instrumenting_twice_is_rejected() {
    let once = Instrumenter::new().instrument(&larger_module()).unwrap();
    let twice = Instrumenter::new().instrument(&once);
    assert_eq!(
        twice,
        Err(DebuggerError::UnsupportedConstruct {
            reason: "the module already imports the hook".to_string()
        })
    );
    assert!(Instrumenter::new().rejects(&once));
    assert!(!Instrumenter::new().rejects(&larger_module()));
    assert!(!Instrumenter::new().rejects(&[0x00, 0x61]));
    // With another hook name the module is instrumented once more.
    let policy = HookPolicy {
        module: "debugger".to_string(),
        name: "other".to_string(),
        scope: HookScope::Exported,
        blocks: false,
    };
    let again = Instrumenter::with_policy(policy).instrument(&once).unwrap();
    assert!(is_valid(&again));
}

#[test]
fn malformed_module_is_rejected() {
    let r = Instrumenter::new().instrument(&[0x00, 0x61, 0x73, 0x6d, 0x02, 0x00, 0x00, 0x00]);
    assert!(matches!(r, Err(DebuggerError::MalformedModule { .. })));
    let r = Instrumenter::new().instrument(&[]);
    assert!(matches!(r, Err(DebuggerError::MalformedModule { .. })));
    // A body that leaves a value on the stack of a function without result.
    let invalid = module(&[
        section(1, &[0x01, 0x60, 0x00, 0x00]),
        section(3, &[0x01, 0x00]),
        section(10, &[0x01, 0x04, 0x00, 0x41, 0x00, 0x0b]),
    ]);
    let r = Instrumenter::new().instrument(&invalid);
    assert!(matches!(r, Err(DebuggerError::MalformedModule { .. })));
}

#[test]
fn module_without_functions_is_unsupported() {
    let r = Instrumenter::new().instrument(&HEADER);
    assert_eq!(
        r,
        Err(DebuggerError::UnsupportedConstruct {
            reason: "the module has no function table to hook".to_string()
        })
    );
}

#[test]
fn module_with_reference_types_is_unsupported() {
    // A table of externref needs the reference types, which are not admitted.
    let input = module(&[
        section(1, &[0x01, 0x60, 0x00, 0x00]),
        section(3, &[0x01, 0x00]),
        section(4, &[0x01, 0x6f, 0x00, 0x01]),
        section(10, &[0x01, 0x02, 0x00, 0x0b]),
    ]);
    let r = Instrumenter::new().instrument(&input);
    assert!(matches!(r, Err(DebuggerError::UnsupportedConstruct { .. })));
}

#[test]
fn default_instrumenter_uses_the_standard_policy() {
    let instrumenter = Instrumenter::default();
    assert_eq!(instrumenter.policy(), &HookPolicy::standard());
    assert_eq!(instrumenter.policy().module, "debugger");
    assert_eq!(instrumenter.policy().name, "hook");
    assert_eq!(instrumenter.policy().scope, HookScope::Exported);
    assert!(!instrumenter.policy().blocks);
}

/// Three functions: `a`, exported, calls `b`; nothing calls `c`.
fn call_chain_module() -> Vec<u8> {
    module(&[
        section(1, &[0x01, 0x60, 0x00, 0x00]),
        section(3, &[0x03, 0x00, 0x00, 0x00]),
        section(7, &[0x01, 0x01, b'a', 0x00, 0x00]),
        section(10, &[0x03, 0x04, 0x00, 0x10, 0x01, 0x0b, 0x02, 0x00, 0x0b, 0x02, 0x00, 0x0b]),
    ])
}

fn instrument_with(scope: HookScope, input: &[u8]) -> Vec<u8> {
    let policy = HookPolicy {
        module: "debugger".to_string(),
        name: "hook".to_string(),
        scope,
        blocks: false,
    };
    Instrumenter::with_policy(policy).instrument(input).unwrap()
}

#[test]
fn reachable_scope_hooks_what_the_exports_call() {
    let input = call_chain_module();
    assert!(is_valid(&input));
    let exported = instrument_with(HookScope::Exported, &input);
    let reachable = instrument_with(HookScope::Reachable, &input);
    let all = instrument_with(HookScope::All, &input);
    for out in [&exported, &reachable, &all] {
        assert!(is_valid(out));
        assert_eq!(parse_functions(out), Ok(vec!["a".to_string()]));
    }
    // The hook is function 0; each hooked function calls it twice.
    assert_eq!(count_calls_to(&exported, 0), 2);
    assert_eq!(count_calls_to(&reachable, 0), 4);
    assert_eq!(count_calls_to(&all, 0), 6);
    assert_eq!(get_module_info(&exported).unwrap().function_count, 4);
    assert_eq!(get_module_info(&reachable).unwrap().function_count, 5);
    assert_eq!(get_module_info(&all).unwrap().function_count, 6);
}

#[test]
fn reachable_scope_counts_functions_in_tables_as_reached() {
    // In the larger module the helper is listed in an element segment and
    // called by `increment`: both are hooked.
    let out = instrument_with(HookScope::Reachable, &larger_module());
    assert!(is_valid(&out));
    assert_eq!(count_calls_to(&out, 1), 4);
}

#[test]
fn hook_targets_name_the_hooked_functions() {
    let input = larger_module();
    assert_eq!(
        Instrumenter::new().hook_targets(&input),
        Ok(vec![HookTarget { id: 1, name: "increment".to_string() }])
    );
    let policy = HookPolicy {
        module: "debugger".to_string(),
        name: "hook".to_string(),
        scope: HookScope::All,
        blocks: false,
    };
    assert_eq!(
        Instrumenter::with_policy(policy).hook_targets(&input),
        Ok(vec![
            HookTarget { id: 1, name: "increment".to_string() },
            HookTarget { id: 2, name: "func2".to_string() },
        ])
    );
    assert!(matches!(
        Instrumenter::new().hook_targets(&[0x00]),
        Err(DebuggerError::MalformedModule { .. })
    ));
    assert!(matches!(
        Instrumenter::new().hook_targets(&HEADER),
        Err(DebuggerError::UnsupportedConstruct { .. })
    ));
}

#[test]
fn tables_and_the_start_function_follow_the_renumbering() {
    let out = Instrumenter::new().instrument(&larger_module()).unwrap();
    let mut listed = Vec::new();
    let mut start = None;
    let mut exported = Vec::new();
    for payload in wasmparser::Parser::new(0).parse_all(&out) {
        match payload.unwrap() {
            wasmparser::Payload::ElementSection(reader) => {
                for element in reader {
                    if let wasmparser::ElementItems::Functions(functions) = element.unwrap().items {
                        for function in functions {
                            listed.push(function.unwrap());
                        }
                    }
                }
            }
            wasmparser::Payload::StartSection { func, .. } => start = Some(func),
            wasmparser::Payload::ExportSection(reader) => {
                for export in reader {
                    let export = export.unwrap();
                    exported.push((export.name.to_string(), export.index));
                }
            }
            _ => {}
        }
    }
    // The helper was function 2 and is function 3 behind the hook; the
    // export of `increment` goes to its wrapper, function 2.
    assert_eq!(listed, vec![3]);
    assert_eq!(start, Some(3));
    assert_eq!(exported, vec![("increment".to_string(), 2)]);
}
