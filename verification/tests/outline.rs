use soroban_debugger::runtime::instrumentation::instrument_outline;
use soroban_debugger::runtime::leb::{read_u32, write_i32_nat, write_u32, write_u64};
use soroban_debugger::runtime::outline::{read_outline, ExportItem, Item, Obstacle, Piece};
use soroban_debugger::runtime::plan::{make_plan, HookPolicy, HookScope};
use soroban_debugger::runtime::reach::reach;
use soroban_debugger::runtime::reader::{ImportKind, ImportRead};
use soroban_debugger::debugger::engine::BackendEvent;
use soroban_debugger::runtime::targets::{event_of_hook, list_targets, HookTarget};
use soroban_debugger::trace::step::StepPayload;

fn leb(value: u32) -> Vec<u8> {
    let mut out = vec![0xaa];
    write_u32(&mut out, value);
    out.remove(0);
    out
}

fn sleb(value: u32) -> Vec<u8> {
    let mut out = Vec::new();
    write_i32_nat(&mut out, value);
    out
}

#[test]
fn unsigned_numbers_are_encoded_seven_bits_at_a_time() {
    assert_eq!(leb(0), vec![0x00]);
    assert_eq!(leb(1), vec![0x01]);
    assert_eq!(leb(127), vec![0x7f]);
    assert_eq!(leb(128), vec![0x80, 0x01]);
    assert_eq!(leb(624485), vec![0xe5, 0x8e, 0x26]);
    assert_eq!(leb(u32::MAX), vec![0xff, 0xff, 0xff, 0xff, 0x0f]);
    let mut out = Vec::new();
    write_u64(&mut out, 1 << 32);
    assert_eq!(out, vec![0x80, 0x80, 0x80, 0x80, 0x10]);
}

#[test]
fn signed_numbers_keep_the_sign_bit_clear() {
    assert_eq!(sleb(0), vec![0x00]);
    assert_eq!(sleb(63), vec![0x3f]);
    assert_eq!(sleb(64), vec![0xc0, 0x00]);
    assert_eq!(sleb(127), vec![0xff, 0x00]);
    assert_eq!(sleb(128), vec![0x80, 0x01]);
    assert_eq!(sleb(0x7fff_ffff), vec![0xff, 0xff, 0xff, 0xff, 0x07]);
}

#[test]
fn numbers_are_decoded_where_they_stand() {
    assert_eq!(read_u32(&[0x00], 0), Some((0, 1)));
    assert_eq!(read_u32(&[0x09, 0xe5, 0x8e, 0x26, 0x01], 1), Some((624485, 4)));
    assert_eq!(read_u32(&[0xff, 0xff, 0xff, 0xff, 0x0f], 0), Some((u32::MAX, 5)));
    // A longer encoding of a small number is read as well.
    assert_eq!(read_u32(&[0x80, 0x00], 0), Some((0, 2)));
    assert_eq!(read_u32(&[0x81, 0x80, 0x80, 0x80, 0x00], 0), Some((1, 5)));
    // The bytes end, the number has more than 32 bits, or more than five bytes.
    assert_eq!(read_u32(&[0x80], 0), None);
    assert_eq!(read_u32(&[], 0), None);
    assert_eq!(read_u32(&[0x01], 1), None);
    assert_eq!(read_u32(&[0xff, 0xff, 0xff, 0xff, 0x1f], 0), None);
    assert_eq!(read_u32(&[0x80, 0x80, 0x80, 0x80, 0x80, 0x00], 0), None);
    for value in [0u32, 1, 127, 128, 300, 16383, 16384, 1 << 31, u32::MAX] {
        let bytes = leb(value);
        assert_eq!(read_u32(&bytes, 0), Some((value, bytes.len())));
    }
}

const HEADER: [u8; 8] = [0x00, 0x61, 0x73, 0x6d, 0x01, 0x00, 0x00, 0x00];

fn with_sections(sections: &[&[u8]]) -> Vec<u8> {
    let mut bytes = HEADER.to_vec();
    for s in sections {
        bytes.extend_from_slice(s);
    }
    bytes
}

#[test]
fn outline_sets_function_indices_apart() {
    let wasm = with_sections(&[
        &[0x01, 0x04, 0x01, 0x60, 0x00, 0x00],
        &[0x02, 0x07, 0x01, 0x01, b'm', 0x01, b'n', 0x00, 0x00],
        &[0x03, 0x02, 0x01, 0x00],
        &[0x04, 0x04, 0x01, 0x70, 0x00, 0x01],
        &[0x07, 0x05, 0x01, 0x01, b'f', 0x00, 0x01],
        &[0x08, 0x01, 0x01],
        &[0x09, 0x07, 0x01, 0x00, 0x41, 0x00, 0x0b, 0x01, 0x01],
        &[0x0a, 0x07, 0x01, 0x05, 0x00, 0x10, 0x00, 0x01, 0x0b],
        &[0x00, 0x05, 0x04, b'n', b'a', b'm', b'e'],
        &[0x00, 0x03, 0x02, b'h', b'i'],
    ]);
    assert_eq!(
        read_outline(&wasm),
        Ok(vec![
            Item::Nothing,
            Item::Types { count: 1, entries: vec![0x60, 0x00, 0x00], params: vec![0] },
            Item::Imports {
                count: 1,
                entries: vec![0x01, b'm', 0x01, b'n', 0x00, 0x00],
                imports: vec![ImportRead {
                    module: "m".to_string(),
                    name: "n".to_string(),
                    kind: ImportKind::Func,
                }],
            },
            Item::Functions { types: vec![0] },
            Item::Plain { id: 4, content: vec![0x01, 0x70, 0x00, 0x01] },
            Item::Exports { exports: vec![ExportItem { name: "f".to_string(), kind: 0, index: 1 }] },
            Item::Start { function: 1 },
            Item::Elements {
                pieces: vec![
                    Piece::Raw(vec![0x01, 0x00, 0x41, 0x00, 0x0b, 0x01]),
                    Piece::Function(1),
                    Piece::Raw(vec![]),
                ],
            },
            Item::CodeStart,
            Item::Body {
                pieces: vec![
                    Piece::Raw(vec![0x00, 0x10]),
                    Piece::Function(0),
                    Piece::Raw(vec![0x01, 0x0b]),
                ],
            },
            Item::Nothing,
            Item::Plain { id: 0, content: vec![0x02, b'h', b'i'] },
            Item::Nothing,
        ])
    );
}

#[test]
fn outline_names_what_it_cannot_read() {
    // A function section that announces two functions and holds one.
    let wasm = with_sections(&[&[0x03, 0x02, 0x02, 0x00]]);
    assert_eq!(read_outline(&wasm), Err(Obstacle::Encoding));
    // A start section with a byte behind its index: the parser gives up.
    let wasm = with_sections(&[&[0x08, 0x02, 0x00, 0x00]]);
    assert_eq!(read_outline(&wasm), Err(Obstacle::Malformed));
    assert_eq!(read_outline(&[0x00, 0x61]), Err(Obstacle::Malformed));
    assert_eq!(Obstacle::Malformed.message(), "the module could not be parsed");
    // An element segment that lists expressions.
    let wasm = with_sections(&[&[0x09, 0x09, 0x01, 0x04, 0x41, 0x00, 0x0b, 0x01, 0xd2, 0x00, 0x0b]]);
    assert_eq!(read_outline(&wasm), Err(Obstacle::ElementForm));
    // An export of a kind that does not exist.
    let wasm = with_sections(&[&[0x07, 0x04, 0x01, 0x01, b'f', 0x09]]);
    assert_eq!(read_outline(&wasm), Err(Obstacle::ExportForm));
    // An import that ends before its kind.
    let wasm = with_sections(&[&[0x02, 0x05, 0x01, 0x01, b'm', 0x01, b'n']]);
    assert_eq!(read_outline(&wasm), Err(Obstacle::ImportForm));
    // A type that is an array, not a function.
    let wasm = with_sections(&[&[0x01, 0x04, 0x01, 0x5e, 0x7f, 0x00]]);
    assert_eq!(read_outline(&wasm), Err(Obstacle::TypeForm));
    assert_eq!(Obstacle::TypeForm.message(), "a type is no plain function type");
    assert_eq!(Obstacle::Layout.message(), "a section or function index lies outside the module");
}

fn policy(scope: HookScope) -> HookPolicy {
    HookPolicy { module: "debugger".to_string(), name: "hook".to_string(), scope, blocks: false }
}

fn body(pieces: Vec<Piece>) -> Item {
    Item::Body { pieces }
}

fn plain_outline() -> Vec<Item> {
    vec![
        Item::Types { count: 1, entries: vec![0x60, 0x00, 0x00], params: vec![0] },
        Item::Functions { types: vec![0, 0] },
        Item::CodeStart,
        body(vec![Piece::Raw(vec![0x00, 0x10]), Piece::Function(1), Piece::Raw(vec![0x0b])]),
        body(vec![Piece::Raw(vec![0x00, 0x0b])]),
    ]
}

#[test]
fn plan_counts_and_flags() {
    let mut items = plain_outline();
    items.insert(
        1,
        Item::Imports {
            count: 2,
            entries: vec![],
            imports: vec![
                ImportRead { module: "a".to_string(), name: "b".to_string(), kind: ImportKind::Func },
                ImportRead { module: "a".to_string(), name: "m".to_string(), kind: ImportKind::Memory },
            ],
        },
    );
    items.push(Item::Exports {
        exports: vec![
            ExportItem { name: "x".to_string(), kind: 0, index: 2 },
            ExportItem { name: "y".to_string(), kind: 2, index: 1 },
        ],
    });
    let plan = make_plan(&items, &policy(HookScope::Exported)).ok().unwrap();
    assert_eq!(plan.hook_type, 1);
    assert_eq!(plan.hook_index, 1);
    assert!(plan.has_imports);
    assert_eq!(plan.types, vec![0, 0]);
    assert_eq!(plan.params, vec![0]);
    // Function 2 is the second function that the module defines.
    assert_eq!(plan.hooked, vec![false, true]);
    assert_eq!(plan.module, b"debugger".to_vec());
    assert_eq!(plan.name, b"hook".to_vec());
    let plan = make_plan(&items, &policy(HookScope::All)).ok().unwrap();
    assert_eq!(plan.hooked, vec![true, true]);
}

#[test]
fn reach_follows_calls_from_the_roots() {
    // Five functions behind one import: 1 calls 2, 2 calls 3 and the
    // import, 4 calls 1, 5 calls itself. Function 1 is exported.
    let call = |f: u32| body(vec![Piece::Raw(vec![0x00, 0x10]), Piece::Function(f), Piece::Raw(vec![0x0b])]);
    let items = vec![
        Item::Exports { exports: vec![ExportItem { name: "a".to_string(), kind: 0, index: 1 }] },
        call(2),
        body(vec![
            Piece::Raw(vec![0x00, 0x10]),
            Piece::Function(3),
            Piece::Raw(vec![0x10]),
            Piece::Function(0),
            Piece::Raw(vec![0x0b]),
        ]),
        body(vec![Piece::Raw(vec![0x00, 0x0b])]),
        call(1),
        call(5),
    ];
    let positions = vec![1, 2, 3, 4, 5];
    assert_eq!(reach(&items, &positions, 1, 5), vec![true, true, true, false, false]);
    // With function 5 listed in an element segment it is a root as well.
    let mut listed = items.clone();
    listed.push(Item::Elements { pieces: vec![Piece::Raw(vec![0x01]), Piece::Function(5)] });
    assert_eq!(reach(&listed, &positions, 1, 5), vec![true, true, true, false, true]);
    // Without roots nothing is reached.
    assert_eq!(reach(&items[1..].to_vec(), &vec![0, 1, 2, 3, 4], 1, 5), vec![false; 5]);
}

#[test]
fn outline_without_functions_is_not_instrumented() {
    let p = policy(HookScope::Exported);
    assert_eq!(instrument_outline(&Vec::new(), &p), Err(Obstacle::NoFunctions));
    // No type section.
    assert_eq!(instrument_outline(&plain_outline()[1..].to_vec(), &p), Err(Obstacle::NoFunctions));
    // No function section.
    let mut items = plain_outline();
    items.remove(1);
    assert_eq!(instrument_outline(&items, &p), Err(Obstacle::NoFunctions));
    // Fewer bodies than functions.
    let mut items = plain_outline();
    items.pop();
    assert_eq!(instrument_outline(&items, &p), Err(Obstacle::NoFunctions));
    // No function defined.
    let items = vec![
        Item::Types { count: 0, entries: vec![], params: vec![] },
        Item::Functions { types: vec![] },
    ];
    assert_eq!(instrument_outline(&items, &p), Err(Obstacle::NoFunctions));
}

#[test]
fn outline_at_odds_with_itself_is_not_instrumented() {
    let p = policy(HookScope::Exported);
    // The type section announces two types and holds one.
    let mut items = plain_outline();
    items[0] = Item::Types { count: 2, entries: vec![0x60, 0x00, 0x00], params: vec![0] };
    assert_eq!(instrument_outline(&items, &p), Err(Obstacle::Encoding));
    // A function of a type that does not exist.
    let mut items = plain_outline();
    items[1] = Item::Functions { types: vec![0, 1] };
    assert_eq!(instrument_outline(&items, &p), Err(Obstacle::Layout));
    // An import section that is full.
    let mut items = plain_outline();
    items.insert(1, Item::Imports { count: u32::MAX, entries: vec![], imports: vec![] });
    assert_eq!(instrument_outline(&items, &p), Err(Obstacle::TooLarge));
    assert_eq!(
        Obstacle::TooLarge.message(),
        "the instrumented module would exceed the limits of the format"
    );
}

#[test]
fn outline_with_the_hook_is_not_instrumented() {
    let mut items = plain_outline();
    items.insert(
        1,
        Item::Imports {
            count: 1,
            entries: vec![],
            imports: vec![ImportRead {
                module: "debugger".to_string(),
                name: "hook".to_string(),
                kind: ImportKind::Func,
            }],
        },
    );
    assert_eq!(
        instrument_outline(&items, &policy(HookScope::All)),
        Err(Obstacle::AlreadyInstrumented)
    );
    // A memory imported under the same names is no hook.
    items[1] = Item::Imports {
        count: 1,
        entries: vec![
            0x08, b'd', b'e', b'b', b'u', b'g', b'g', b'e', b'r', 0x04, b'h', b'o', b'o', b'k',
            0x02, 0x00, 0x01,
        ],
        imports: vec![ImportRead {
            module: "debugger".to_string(),
            name: "hook".to_string(),
            kind: ImportKind::Memory,
        }],
    };
    assert!(instrument_outline(&items, &policy(HookScope::All)).is_ok());
}

#[test]
fn instrumented_outline_byte_for_byte() {
    // Two functions of type () -> (): the first calls the second. With
    // every function hooked, the wrappers are functions 1 and 2, the moved
    // bodies functions 3 and 4, and the hook is function 0.
    let out = instrument_outline(&plain_outline(), &policy(HookScope::All)).unwrap();
    let mut expected = HEADER.to_vec();
    expected.extend_from_slice(&[
        0x01, 0x0a, 0x02, 0x60, 0x00, 0x00, 0x60, 0x03, 0x7f, 0x7f, 0x7f, 0x00,
    ]);
    expected.extend_from_slice(&[0x02, 0x11, 0x01, 0x08]);
    expected.extend_from_slice(b"debugger");
    expected.push(0x04);
    expected.extend_from_slice(b"hook");
    expected.extend_from_slice(&[0x00, 0x01]);
    expected.extend_from_slice(&[0x03, 0x05, 0x04, 0x00, 0x00, 0x00, 0x00]);
    expected.extend_from_slice(&[0x0a, 0x33, 0x04]);
    // wrapper of function 0: hook(0, 0, 0); call 3; hook(0, 1, 0)
    expected.extend_from_slice(&[
        0x14, 0x00, 0x41, 0x00, 0x41, 0x00, 0x41, 0x00, 0x10, 0x00, 0x10, 0x03, 0x41, 0x00, 0x41,
        0x01, 0x41, 0x00, 0x10, 0x00, 0x0b,
    ]);
    // wrapper of function 1: hook(1, 0, 0); call 4; hook(1, 1, 0)
    expected.extend_from_slice(&[
        0x14, 0x00, 0x41, 0x01, 0x41, 0x00, 0x41, 0x00, 0x10, 0x00, 0x10, 0x04, 0x41, 0x01, 0x41,
        0x01, 0x41, 0x00, 0x10, 0x00, 0x0b,
    ]);
    // moved bodies: `call 1` becomes `call 2`, the wrapper of the callee
    expected.extend_from_slice(&[0x04, 0x00, 0x10, 0x02, 0x0b]);
    expected.extend_from_slice(&[0x02, 0x00, 0x0b]);
    assert_eq!(out, expected);
    assert!(wasmparser::Validator::new().validate_all(&out).is_ok());
}

#[test]
fn block_pieces_call_the_hook_where_the_policy_asks() {
    let items = vec![
        Item::Types { count: 1, entries: vec![0x60, 0x00, 0x00], params: vec![0] },
        Item::Functions { types: vec![0] },
        Item::CodeStart,
        body(vec![
            Piece::Raw(vec![0x00, 0x02, 0x40]),
            Piece::Block(3),
            Piece::Raw(vec![0x0b, 0x0b]),
        ]),
    ];
    let mut with_blocks = policy(HookScope::All);
    with_blocks.blocks = true;
    let out = instrument_outline(&items, &with_blocks).unwrap();
    assert!(wasmparser::Validator::new().validate_all(&out).is_ok());
    // The moved body: block; hook(0, 2, 3); end; end.
    let moved = [0x00, 0x02, 0x40, 0x41, 0x00, 0x41, 0x02, 0x41, 0x03, 0x10, 0x00, 0x0b, 0x0b];
    assert!(out.ends_with(&moved));
    let out = instrument_outline(&items, &policy(HookScope::All)).unwrap();
    assert!(out.ends_with(&[0x05, 0x00, 0x02, 0x40, 0x0b, 0x0b]));
}

#[test]
fn targets_are_named_by_their_first_export() {
    let mut items = plain_outline();
    items.push(Item::Exports {
        exports: vec![
            ExportItem { name: "memory".to_string(), kind: 2, index: 1 },
            ExportItem { name: "second".to_string(), kind: 0, index: 1 },
            ExportItem { name: "alias".to_string(), kind: 0, index: 1 },
        ],
    });
    assert_eq!(
        list_targets(&items, &policy(HookScope::Exported)),
        Ok(vec![HookTarget { id: 1, name: "second".to_string() }])
    );
    assert_eq!(
        list_targets(&items, &policy(HookScope::All)),
        Ok(vec![
            HookTarget { id: 0, name: "func0".to_string() },
            HookTarget { id: 1, name: "second".to_string() },
        ])
    );
    assert_eq!(list_targets(&Vec::new(), &policy(HookScope::All)), Err(Obstacle::NoFunctions));
}

#[test]
fn hook_calls_are_told_as_events() {
    let targets = vec![
        HookTarget { id: 1, name: "increment".to_string() },
        HookTarget { id: 4, name: "func4".to_string() },
    ];
    assert_eq!(
        event_of_hook(&targets, 1, 0, 0),
        Some(BackendEvent::Observed(StepPayload::FunctionEntry {
            function: "increment".to_string()
        }))
    );
    assert_eq!(
        event_of_hook(&targets, 4, 1, 0),
        Some(BackendEvent::Observed(StepPayload::FunctionExit {
            function: "func4".to_string(),
            value: None,
            budget: None,
        }))
    );
    assert_eq!(
        event_of_hook(&targets, 1, 2, 17),
        Some(BackendEvent::Block { function: "increment".to_string(), offset: 17 })
    );
    assert_eq!(event_of_hook(&targets, 2, 0, 0), None);
    assert_eq!(event_of_hook(&targets, 1, 3, 0), None);
    assert_eq!(event_of_hook(&Vec::new(), 1, 0, 0), None);
}

#[test]
fn only_imported_functions_take_a_function_index() {
    assert!(ImportKind::Func.imports_function());
    assert!(ImportKind::FuncExact.imports_function());
    assert!(!ImportKind::Table.imports_function());
    assert!(!ImportKind::Memory.imports_function());
    assert!(!ImportKind::Global.imports_function());
    assert!(!ImportKind::Tag.imports_function());
    let import = |name: &str, kind: ImportKind| ImportRead {
        module: "env".to_string(),
        name: name.to_string(),
        kind,
    };
    let mut items = plain_outline();
    items.insert(
        1,
        Item::Imports {
            count: 6,
            entries: vec![],
            imports: vec![
                import("t", ImportKind::Table),
                import("f", ImportKind::Func),
                import("m", ImportKind::Memory),
                import("g", ImportKind::Global),
                import("e", ImportKind::FuncExact),
                import("x", ImportKind::Tag),
            ],
        },
    );
    let plan = make_plan(&items, &policy(HookScope::All)).ok().unwrap();
    // The hook gets the index behind the two imported functions.
    assert_eq!(plan.hook_index, 2);
    // A table under the names of the hook is no hook; either kind of
    // function is.
    let hook = |kind: ImportKind| {
        let mut items = plain_outline();
        items.insert(
            1,
            Item::Imports {
                count: 1,
                entries: vec![],
                imports: vec![ImportRead {
                    module: "debugger".to_string(),
                    name: "hook".to_string(),
                    kind,
                }],
            },
        );
        make_plan(&items, &policy(HookScope::All)).err()
    };
    assert_eq!(hook(ImportKind::Table), None);
    assert_eq!(hook(ImportKind::Global), None);
    assert_eq!(hook(ImportKind::Tag), None);
    assert_eq!(hook(ImportKind::Func), Some(Obstacle::AlreadyInstrumented));
    assert_eq!(hook(ImportKind::FuncExact), Some(Obstacle::AlreadyInstrumented));
}
