//! The module instrumenter: rewrites a module so that the execution
//! backend calls back into the debugger at the entry and the exit of the
//! hooked functions.
//!
//! The hook is a function that the instrumented module imports. It takes
//! three 32-bit integers: the index that the function has in the input
//! module; the kind of the hook, 0 at the entry, 1 at the exit and 2 at
//! the start of a block; and, for a block, its offset in the body of the
//! function, zero otherwise. A hooked function keeps its place in the
//! module, but its body becomes a wrapper: it calls the hook, passes its
//! arguments on to the body that the function had, which is moved to the
//! end of the module, calls the hook again, and returns what that body
//! returned. Every call of the function therefore passes one entry hook
//! and, if it returns, one exit hook, wherever the moved body returns
//! from. Where the policy asks for it, the moved body calls the hook at
//! the start of each of its blocks as well; such a call leaves the
//! operands of the block as they are. The new import shifts the indices
//! of the functions that the module defines by one; every function index
//! in the module is rewritten accordingly.

use crate::error::{DebuggerError, ErrorView};
use crate::runtime::leb::{sleb_nat, uleb, write_i32_nat, write_u32, write_u64};
use crate::runtime::outline::{
    bodies_of, body_positions, count_bodies, export_views, item_views, outline_of, piece_views,
    read_outline, ExportItem, ExportView, Item, ItemView, Obstacle, Piece, PieceView,
};
use crate::runtime::plan::{
    has_hook, make_plan, plan_of, section_position, standard_policy, utf8_bytes, HookPolicy,
    Plan, PlanView, PolicyView,
};
use crate::runtime::reader::{feature_fault, validate, validate_features, validation_fault};
use crate::runtime::targets::{hook_targets, list_targets, target_views, HookTarget, TargetView};
use vstd::prelude::*;
use vstd::string::*;

verus! {

/// The first eight bytes of a module: the magic number and version 1.
pub open spec fn module_header() -> Seq<u8> {
    seq![0x00u8, 0x61u8, 0x73u8, 0x6du8, 0x01u8, 0x00u8, 0x00u8, 0x00u8]
}

/// The type of the hook: a function of three 32-bit integers without
/// result.
pub open spec fn hook_type() -> Seq<u8> {
    seq![0x60u8, 0x03u8, 0x7fu8, 0x7fu8, 0x7fu8, 0x00u8]
}

/// The kind that the hook is passed at the entry of a function.
pub const HOOK_ENTRY: u8 = 0;

/// The kind that the hook is passed at the exit of a function.
pub const HOOK_EXIT: u8 = 1;

/// The kind that the hook is passed at the start of a block.
pub const HOOK_BLOCK: u8 = 2;

/// The index that function `f` of the input module has in the
/// instrumented module: the imported functions keep theirs, the others
/// move up by one to make room for the hook.
pub open spec fn renumbered(f: u32, hook_index: u32) -> nat {
    if f < hook_index {
        f as nat
    } else {
        (f + 1) as nat
    }
}

/// A section: its identifier, the size of its content, and the content.
pub open spec fn frame(id: u8, content: Seq<u8>) -> Seq<u8> {
    seq![id] + uleb(content.len()) + content
}

/// Bytes behind their length.
pub open spec fn sized(bytes: Seq<u8>) -> Seq<u8> {
    uleb(bytes.len()) + bytes
}

/// The instructions that call the hook for function `id` with `kind` and
/// `offset`.
pub open spec fn hook_call(hook_index: u32, id: nat, kind: u8, offset: nat) -> Seq<u8> {
    seq![0x41u8] + sleb_nat(id) + seq![0x41u8, kind] + seq![0x41u8] + sleb_nat(offset)
        + seq![0x10u8] + uleb(hook_index as nat)
}

/// The bytes of `pieces`, with every function index renumbered. Where
/// `blocks` names a function, the hook is called for it at the start of
/// each block; else the start of a block takes no bytes.
pub open spec fn pieces_bytes(pieces: Seq<PieceView>, hook_index: u32, blocks: Option<u32>) -> Seq<
    u8,
>
    decreases pieces.len(),
{
    if pieces.len() == 0 {
        Seq::empty()
    } else {
        pieces_bytes(pieces.drop_last(), hook_index, blocks) + match pieces.last() {
            PieceView::Raw(bytes) => bytes,
            PieceView::Function(f) => uleb(renumbered(f, hook_index)),
            PieceView::Block(offset) => match blocks {
                Some(id) => hook_call(hook_index, id as nat, HOOK_BLOCK, offset as nat),
                None => Seq::empty(),
            },
        }
    }
}

/// The content of the type section: one more type, the old entries, and
/// the type of the hook.
pub open spec fn types_content(count: u32, entries: Seq<u8>) -> Seq<u8> {
    uleb((count + 1) as nat) + entries + hook_type()
}

/// The content of the import section: one more import, the old entries,
/// and the import of the hook.
pub open spec fn imports_content(count: u32, entries: Seq<u8>, plan: PlanView) -> Seq<u8> {
    uleb((count + 1) as nat) + entries + sized(plan.module) + sized(plan.name) + seq![0x00u8]
        + uleb(plan.hook_type as nat)
}

/// The number of hooked functions among the first `k` that the module
/// defines.
pub open spec fn hooked_before(hooked: Seq<bool>, k: int) -> nat
    decreases k,
{
    if k <= 0 {
        0
    } else {
        hooked_before(hooked, k - 1) + if hooked[k - 1] {
            1nat
        } else {
            0nat
        }
    }
}

/// The index, in the instrumented module, of the moved body of the
/// hooked function number `k`: behind all functions of the input module.
pub open spec fn moved_index(plan: PlanView, k: int) -> nat {
    (plan.hook_index + 1 + plan.types.len() + hooked_before(plan.hooked, k)) as nat
}

/// The encodings of the first `k` of `indices`.
pub open spec fn indices_bytes(indices: Seq<u32>, k: int) -> Seq<u8>
    decreases k,
{
    if k <= 0 {
        Seq::empty()
    } else {
        indices_bytes(indices, k - 1) + uleb(indices[k - 1] as nat)
    }
}

/// The type indices of the moved bodies of the hooked functions among the
/// first `k`.
pub open spec fn moved_types(plan: PlanView, k: int) -> Seq<u8>
    decreases k,
{
    if k <= 0 {
        Seq::empty()
    } else {
        moved_types(plan, k - 1) + if plan.hooked[k - 1] {
            uleb(plan.types[k - 1] as nat)
        } else {
            Seq::empty()
        }
    }
}

/// The content of the function section: the functions of the input,
/// then one function more for each hooked function, of the same type.
pub open spec fn functions_content(plan: PlanView) -> Seq<u8> {
    let n = plan.types.len() as int;
    uleb((n + hooked_before(plan.hooked, n)) as nat) + indices_bytes(plan.types, n) + moved_types(
        plan,
        n,
    )
}

/// The instructions that load the first `n` parameters, in order.
pub open spec fn param_loads(n: nat) -> Seq<u8>
    decreases n,
{
    if n == 0 {
        Seq::empty()
    } else {
        param_loads((n - 1) as nat) + seq![0x20u8] + uleb((n - 1) as nat)
    }
}

/// The body of the wrapper of the hooked function number `k`: no locals;
/// the entry hook; the call of the moved body with the parameters; the
/// exit hook; the end.
pub open spec fn wrapper_bytes(plan: PlanView, k: int) -> Seq<u8> {
    let id = (plan.hook_index + k) as nat;
    seq![0x00u8] + hook_call(plan.hook_index, id, HOOK_ENTRY, 0) + param_loads(
        plan.params[plan.types[k] as int] as nat,
    ) + seq![0x10u8] + uleb(moved_index(plan, k)) + hook_call(plan.hook_index, id, HOOK_EXIT, 0)
        + seq![0x0bu8]
}

/// The body that function number `k` has in the instrumented module: the
/// wrapper if it is hooked, else its own body with the indices renumbered.
pub open spec fn new_body(plan: PlanView, bodies: Seq<Seq<PieceView>>, k: int) -> Seq<u8> {
    if plan.hooked[k] {
        wrapper_bytes(plan, k)
    } else {
        pieces_bytes(bodies[k], plan.hook_index, None)
    }
}

/// The moved body of the hooked function number `k`: its own body with the
/// indices renumbered and, where the plan asks for it, with a call of the
/// hook at the start of each block.
pub open spec fn moved_body(plan: PlanView, bodies: Seq<Seq<PieceView>>, k: int) -> Seq<u8> {
    pieces_bytes(
        bodies[k],
        plan.hook_index,
        if plan.blocks {
            Some((plan.hook_index + k) as u32)
        } else {
            None
        },
    )
}

/// The bodies of the first `k` functions in the instrumented module, each
/// behind its size; `None` where a body is larger than the format holds.
pub open spec fn front_bodies(plan: PlanView, bodies: Seq<Seq<PieceView>>, k: int) -> Option<
    Seq<u8>,
>
    decreases k,
{
    if k <= 0 {
        Some(Seq::empty())
    } else {
        match front_bodies(plan, bodies, k - 1) {
            Some(bytes) if new_body(plan, bodies, k - 1).len() <= u32::MAX => Some(
                bytes + sized(new_body(plan, bodies, k - 1)),
            ),
            _ => None,
        }
    }
}

/// The moved bodies of the hooked functions among the first `k`, each
/// behind its size; `None` where a body is larger than the format holds.
pub open spec fn moved_bodies(plan: PlanView, bodies: Seq<Seq<PieceView>>, k: int) -> Option<
    Seq<u8>,
>
    decreases k,
{
    if k <= 0 {
        Some(Seq::empty())
    } else {
        match moved_bodies(plan, bodies, k - 1) {
            Some(bytes) => if !plan.hooked[k - 1] {
                Some(bytes)
            } else if moved_body(plan, bodies, k - 1).len() <= u32::MAX {
                Some(bytes + sized(moved_body(plan, bodies, k - 1)))
            } else {
                None
            },
            None => None,
        }
    }
}

/// The content of the code section: the count, the bodies of the functions
/// of the input, and the moved bodies of the hooked functions.
pub open spec fn code_content(plan: PlanView, bodies: Seq<Seq<PieceView>>) -> Option<Seq<u8>> {
    let n = plan.types.len() as int;
    match (front_bodies(plan, bodies, n), moved_bodies(plan, bodies, n)) {
        (Some(front), Some(moved)) => Some(
            uleb((n + hooked_before(plan.hooked, n)) as nat) + front + moved,
        ),
        _ => None,
    }
}

/// One export: its name, its kind, and its index, renumbered if it is a
/// function.
pub open spec fn export_bytes(export: ExportView, hook_index: u32) -> Seq<u8> {
    sized(vstd::utf8::encode_utf8(export.name)) + seq![export.kind] + uleb(
        if export.kind == 0 {
            renumbered(export.index, hook_index)
        } else {
            export.index as nat
        },
    )
}

/// The first `k` of `exports`.
pub open spec fn exports_bytes(exports: Seq<ExportView>, hook_index: u32, k: int) -> Seq<u8>
    decreases k,
{
    if k <= 0 {
        Seq::empty()
    } else {
        exports_bytes(exports, hook_index, k - 1) + export_bytes(exports[k - 1], hook_index)
    }
}

/// Whether every name of `exports` is as long as the format holds, or
/// shorter.
pub open spec fn names_fit(exports: Seq<ExportView>) -> bool {
    forall|k: int|
        0 <= k < exports.len() ==> vstd::utf8::encode_utf8((#[trigger] exports[k]).name).len()
            <= u32::MAX
}

/// The content that `item` has in the instrumented module, with the
/// identifier of its section; `None` for an item that has no section of
/// its own, and for a section with a body or a name that is too large.
pub open spec fn new_content(item: ItemView, plan: PlanView, bodies: Seq<Seq<PieceView>>) -> Option<
    (u8, Seq<u8>),
> {
    match item {
        ItemView::Types { count, entries, .. } => Some((1u8, types_content(count, entries))),
        ItemView::Imports { count, entries, .. } => Some(
            (2u8, imports_content(count, entries, plan)),
        ),
        ItemView::Functions { .. } => Some((3u8, functions_content(plan))),
        ItemView::Exports { exports } => if names_fit(exports) {
            Some(
                (
                    7u8,
                    uleb(exports.len()) + exports_bytes(
                        exports,
                        plan.hook_index,
                        exports.len() as int,
                    ),
                ),
            )
        } else {
            None
        },
        ItemView::Start { function } => Some((8u8, uleb(renumbered(function, plan.hook_index)))),
        ItemView::Elements { pieces } => Some((9u8, pieces_bytes(pieces, plan.hook_index, None))),
        ItemView::CodeStart => match code_content(plan, bodies) {
            Some(content) => Some((10u8, content)),
            None => None,
        },
        ItemView::Plain { id, content } => Some((id, content)),
        ItemView::Body { .. } => None,
        ItemView::Nothing => None,
    }
}

/// Whether `item` has a section of its own in the instrumented module.
pub open spec fn has_section(item: ItemView) -> bool {
    !(item is Body) && !(item is Nothing)
}

/// What `item` contributes to the instrumented module: its section, and
/// behind the type section a new import section if the module has none.
/// `None` where a section is larger than the format holds.
pub open spec fn emitted(item: ItemView, plan: PlanView, bodies: Seq<Seq<PieceView>>) -> Option<
    Seq<u8>,
> {
    if !has_section(item) {
        Some(Seq::empty())
    } else {
        match new_content(item, plan, bodies) {
            Some((id, content)) if content.len() <= u32::MAX => if item is Types
                && !plan.has_imports {
                let imports = imports_content(0, Seq::empty(), plan);
                if imports.len() <= u32::MAX {
                    Some(frame(id, content) + frame(2u8, imports))
                } else {
                    None
                }
            } else {
                Some(frame(id, content))
            },
            _ => None,
        }
    }
}

/// The header and what the first `n` items contribute.
pub open spec fn emitted_upto(items: Seq<ItemView>, plan: PlanView, n: int) -> Option<Seq<u8>>
    decreases n,
{
    if n <= 0 {
        Some(module_header())
    } else {
        match (emitted_upto(items, plan, n - 1), emitted(items[n - 1], plan, bodies_of(items))) {
            (Some(bytes), Some(more)) => Some(bytes + more),
            _ => None,
        }
    }
}

/// The instrumented module for the outline `items` under `policy`, or the
/// obstacle: that of the plan, or `TooLarge` where a section or body of
/// the instrumented module is larger than the format holds.
pub open spec fn instrumented(items: Seq<ItemView>, policy: PolicyView) -> Result<Seq<u8>, Obstacle> {
    match plan_of(items, policy) {
        Err(obstacle) => Err(obstacle),
        Ok(plan) => match emitted_upto(items, plan, items.len() as int) {
            Some(bytes) => Ok(bytes),
            None => Err(Obstacle::TooLarge),
        },
    }
}

/// What `Instrumenter::instrument` returns for the module `wasm`:
/// - `MalformedModule` where the module fails validation;
/// - `UnsupportedConstruct` where the module is valid but uses a feature
///   of the format that the instrumenter does not admit, with the
///   objection of the validator as the reason;
/// - `UnsupportedConstruct` where the outline or the instrumentation meets
///   an obstacle, with the obstacle in words;
/// - `UnsupportedConstruct` where the instrumented module fails
///   validation, with the objection of the validator as the reason;
/// - else the instrumented module.
pub open spec fn instrument_result(wasm: Seq<u8>, policy: PolicyView) -> Result<Seq<u8>, ErrorView> {
    match (validation_fault(wasm), feature_fault(wasm)) {
        (Some(fault), _) => Err(
            ErrorView::MalformedModule { message: fault.message, offset: fault.offset },
        ),
        (None, Some(fault)) => Err(ErrorView::UnsupportedConstruct { reason: fault.message }),
        (None, None) => match outline_of(wasm) {
            Err(obstacle) => Err(ErrorView::UnsupportedConstruct { reason: obstacle.text() }),
            Ok(items) => match instrumented(items, policy) {
                Err(obstacle) => Err(ErrorView::UnsupportedConstruct { reason: obstacle.text() }),
                Ok(bytes) => match validation_fault(bytes) {
                    Some(fault) => Err(ErrorView::UnsupportedConstruct { reason: fault.message }),
                    None => if shows_hook(bytes, policy) {
                        Ok(bytes)
                    } else {
                        Err(
                            ErrorView::UnsupportedConstruct {
                                reason: Obstacle::HookNotShown.text(),
                            },
                        )
                    },
                },
            },
        },
    }
}

/// Whether `Instrumenter::instrument` owes the instrumented module for
/// `wasm` under `policy`. It does where all of this holds:
/// - the validator finds no fault in `wasm`, neither with its default
///   features nor with the features that the instrumenter admits;
/// - the outline of `wasm` can be read: every place that names a function
///   is told apart from the bytes around it;
/// - there is a plan: the module defines a function, does not import the
///   hook yet, and its counts leave room for the hook and the wrappers;
/// - no section of the instrumented module is larger than the format
///   holds;
/// - the validator finds no fault in the instrumented module, and the
///   module shows the hook among its imports.
///
/// The last two are tested on the bytes that were written: the validator
/// and the parser are not part of this library, and nothing is proved of
/// what they say of a module.
pub open spec fn success_owed(wasm: Seq<u8>, policy: PolicyView) -> bool {
    validation_fault(wasm) is None && feature_fault(wasm) is None && (outline_of(wasm) matches Ok(
        items,
    ) && (plan_of(items, policy) matches Ok(plan) && (emitted_upto(
        items,
        plan,
        items.len() as int,
    ) matches Some(bytes) && validation_fault(bytes) is None && shows_hook(bytes, policy))))
}

/// When `Instrumenter::instrument` succeeds and when it fails: it returns
/// the instrumented module exactly where success is owed; it fails with
/// `MalformedModule` exactly where the validator finds a fault in the
/// input, and with `UnsupportedConstruct` on every other input.
pub proof fn lemma_success_owed(wasm: Seq<u8>, policy: PolicyView)
    ensures
        success_owed(wasm, policy) <==> instrument_result(wasm, policy) is Ok,
        success_owed(wasm, policy) ==> instrument_result(wasm, policy) == Ok::<
            Seq<u8>,
            ErrorView,
        >(
            emitted_upto(
                outline_of(wasm)->Ok_0,
                plan_of(outline_of(wasm)->Ok_0, policy)->Ok_0,
                outline_of(wasm)->Ok_0.len() as int,
            )->Some_0,
        ),
        validation_fault(wasm) is Some <==> (instrument_result(wasm, policy) matches Err(e)
            && e is MalformedModule),
        !success_owed(wasm, policy) && validation_fault(wasm) is None ==> (instrument_result(
            wasm,
            policy,
        ) matches Err(e) && e is UnsupportedConstruct),
{
}

/// Whether `bytes` begins with the header of a module.
pub open spec fn begins_with_header(bytes: Seq<u8>) -> bool {
    bytes.len() >= 8 && bytes.subrange(0, 8) == module_header()
}

/// What is emitted begins with the header of a module.
proof fn lemma_emitted_begins(items: Seq<ItemView>, plan: PlanView, n: int)
    ensures
        emitted_upto(items, plan, n) matches Some(bytes) ==> begins_with_header(bytes),
    decreases n,
{
    if n <= 0 {
        assert(module_header().subrange(0, 8) =~= module_header());
    } else {
        lemma_emitted_begins(items, plan, n - 1);
        match (emitted_upto(items, plan, n - 1), emitted(items[n - 1], plan, bodies_of(items))) {
            (Some(bytes), Some(more)) => {
                assert((bytes + more).subrange(0, 8) =~= bytes.subrange(0, 8));
            },
            _ => {},
        }
    }
}

/// Instrumentation preserves the format: where success is owed,
/// `Instrumenter::instrument` returns a module that is not empty (it
/// begins with the header of a module), in which the validator finds no
/// fault, and which shows the hook among its imports.
pub proof fn lemma_format_preserved(wasm: Seq<u8>, policy: PolicyView)
    requires
        success_owed(wasm, policy),
    ensures
        instrument_result(wasm, policy) matches Ok(bytes) && bytes.len() > 0
            && begins_with_header(bytes) && validation_fault(bytes) is None && shows_hook(
            bytes,
            policy,
        ),
{
    let items = outline_of(wasm)->Ok_0;
    lemma_emitted_begins(items, plan_of(items, policy)->Ok_0, items.len() as int);
}

/// Every module that `Instrumenter::instrument` returns begins with the
/// header of a module.
pub proof fn lemma_instrumented_begins_with_header(wasm: Seq<u8>, policy: PolicyView)
    ensures
        instrument_result(wasm, policy) matches Ok(bytes) ==> begins_with_header(bytes),
{
    if instrument_result(wasm, policy) is Ok {
        lemma_success_owed(wasm, policy);
        lemma_format_preserved(wasm, policy);
    }
}

/// Whether the module `wasm`, read as the instrumenter reads a module,
/// shows the hook of `policy` among its imports, so that the instrumenter
/// does not instrument it.
pub open spec fn shows_hook(wasm: Seq<u8>, policy: PolicyView) -> bool {
    outline_of(wasm) matches Ok(items) && plan_of(items, policy) == Err::<PlanView, Obstacle>(
        Obstacle::AlreadyInstrumented,
    )
}

/// Every module that `Instrumenter::instrument` returns is valid: the
/// validator of the format finds no fault in it.
pub proof fn lemma_instrumented_is_valid(wasm: Seq<u8>, policy: PolicyView)
    ensures
        instrument_result(wasm, policy) matches Ok(bytes) ==> validation_fault(bytes) is None,
{
}

/// No module is instrumented twice: what `Instrumenter::instrument`
/// returns for a module, it rejects as its input under the same policy,
/// with `UnsupportedConstruct`.
pub proof fn lemma_never_instrumented_twice(wasm: Seq<u8>, policy: PolicyView)
    ensures
        instrument_result(wasm, policy) matches Ok(bytes) ==> instrument_result(bytes, policy)
            matches Err(e) && e is UnsupportedConstruct,
{
}

/// A module that imports the hook already is not instrumented once more:
/// where the first import section of the outline holds the hook, the
/// instrumentation fails, with `AlreadyInstrumented` unless the outline
/// lacks functions or is at odds with itself.
pub proof fn lemma_instrumented_once(items: Seq<ItemView>, policy: PolicyView)
    requires
        section_position(items, 2, 0) < items.len(),
        has_hook(items[section_position(items, 2, 0)]->Imports_imports, policy),
    ensures
        instrumented(items, policy) matches Err(obstacle) && (obstacle is AlreadyInstrumented
            || obstacle is NoFunctions || obstacle is Encoding || obstacle is Layout),
{
}

/// A hooked function calls the hook once on entry and once on exit, and
/// its own body once in between: its body in the instrumented module is
/// the entry hook, the call of the moved body with all parameters, and the
/// exit hook. A function that is not hooked keeps its body, with the
/// function indices renumbered and without any call of the hook.
pub proof fn lemma_hooks_per_function(plan: PlanView, bodies: Seq<Seq<PieceView>>, k: int)
    requires
        0 <= k < plan.types.len(),
    ensures
        plan.hooked[k] ==> new_body(plan, bodies, k) == seq![0x00u8] + hook_call(
            plan.hook_index,
            (plan.hook_index + k) as nat,
            HOOK_ENTRY,
            0,
        ) + (param_loads(plan.params[plan.types[k] as int] as nat) + seq![0x10u8] + uleb(
            moved_index(plan, k),
        )) + hook_call(plan.hook_index, (plan.hook_index + k) as nat, HOOK_EXIT, 0)
            + seq![0x0bu8],
        !plan.hooked[k] ==> new_body(plan, bodies, k) == pieces_bytes(
            bodies[k],
            plan.hook_index,
            None,
        ),
{
    if plan.hooked[k] {
        assert(new_body(plan, bodies, k) =~= seq![0x00u8] + hook_call(
            plan.hook_index,
            (plan.hook_index + k) as nat,
            HOOK_ENTRY,
            0,
        ) + (param_loads(plan.params[plan.types[k] as int] as nat) + seq![0x10u8] + uleb(
            moved_index(plan, k),
        )) + hook_call(plan.hook_index, (plan.hook_index + k) as nat, HOOK_EXIT, 0)
            + seq![0x0bu8]);
    }
}

/// What `Instrumenter::hook_targets` returns for the module `wasm`: the
/// faults of validation and of the outline as `instrument_result` tells
/// them, else the hooked functions or the obstacle that the plan meets.
pub open spec fn targets_result(wasm: Seq<u8>, policy: PolicyView) -> Result<
    Seq<TargetView>,
    ErrorView,
> {
    match (validation_fault(wasm), feature_fault(wasm)) {
        (Some(fault), _) => Err(
            ErrorView::MalformedModule { message: fault.message, offset: fault.offset },
        ),
        (None, Some(fault)) => Err(ErrorView::UnsupportedConstruct { reason: fault.message }),
        (None, None) => match outline_of(wasm) {
            Err(obstacle) => Err(ErrorView::UnsupportedConstruct { reason: obstacle.text() }),
            Ok(items) => match hook_targets(items, policy) {
                Err(obstacle) => Err(ErrorView::UnsupportedConstruct { reason: obstacle.text() }),
                Ok(targets) => Ok(targets),
            },
        },
    }
}

/// Appends `bytes`.
fn append(out: &mut Vec<u8>, bytes: &Vec<u8>)
    ensures
        final(out)@ == old(out)@ + bytes@,
{
    let mut i: usize = 0;
    while i < bytes.len()
        invariant
            i <= bytes.len(),
            out@ == old(out)@ + bytes@.take(i as int),
        decreases bytes.len() - i,
    {
        out.push(bytes[i]);
        assert(out@ =~= old(out)@ + bytes@.take(i + 1));
        i += 1;
    }
    assert(bytes@.take(i as int) == bytes@);
}

/// Appends `bytes` behind their length, if the length fits.
fn append_sized(out: &mut Vec<u8>, bytes: &Vec<u8>) -> (ok: bool)
    ensures
        ok == (bytes@.len() <= u32::MAX),
        ok ==> final(out)@ == old(out)@ + sized(bytes@),
        !ok ==> final(out)@ == old(out)@,
{
    if bytes.len() > u32::MAX as usize {
        return false;
    }
    write_u64(out, bytes.len() as u64);
    append(out, bytes);
    assert(out@ =~= old(out)@ + sized(bytes@));
    true
}

/// Appends a section, if its content fits.
fn append_frame(out: &mut Vec<u8>, id: u8, content: &Vec<u8>) -> (ok: bool)
    ensures
        ok == (content@.len() <= u32::MAX),
        ok ==> final(out)@ == old(out)@ + frame(id, content@),
        !ok ==> final(out)@ == old(out)@,
{
    if content.len() > u32::MAX as usize {
        return false;
    }
    out.push(id);
    write_u64(out, content.len() as u64);
    append(out, content);
    assert(out@ =~= old(out)@ + frame(id, content@));
    true
}

/// Writes the call of the hook.
fn write_hook_call(out: &mut Vec<u8>, hook_index: u32, id: u32, kind: u8, offset: u32)
    ensures
        final(out)@ == old(out)@ + hook_call(hook_index, id as nat, kind, offset as nat),
{
    out.push(0x41);
    write_i32_nat(out, id);
    out.push(0x41);
    out.push(kind);
    out.push(0x41);
    write_i32_nat(out, offset);
    out.push(0x10);
    write_u32(out, hook_index);
    assert(out@ =~= old(out)@ + hook_call(hook_index, id as nat, kind, offset as nat));
}

/// Writes pieces with every function index renumbered, and with a call of
/// the hook at the start of each block where `blocks` names a function.
fn write_pieces(out: &mut Vec<u8>, pieces: &Vec<Piece>, hook_index: u32, blocks: Option<u32>)
    ensures
        final(out)@ == old(out)@ + pieces_bytes(piece_views(pieces@), hook_index, blocks),
{
    let ghost views = piece_views(pieces@);
    let mut i: usize = 0;
    assert(out@ =~= old(out)@ + pieces_bytes(views.take(0), hook_index, blocks));
    while i < pieces.len()
        invariant
            i <= pieces.len(),
            views == piece_views(pieces@),
            out@ == old(out)@ + pieces_bytes(views.take(i as int), hook_index, blocks),
        decreases pieces.len() - i,
    {
        let ghost before = out@;
        proof {
            assert(views.take(i + 1).drop_last() == views.take(i as int));
            assert(views.take(i + 1).last() == pieces@[i as int]@);
        }
        match &pieces[i] {
            Piece::Raw(bytes) => {
                append(out, bytes);
            },
            Piece::Function(f) => {
                let index: u64 = if *f < hook_index {
                    *f as u64
                } else {
                    *f as u64 + 1
                };
                write_u64(out, index);
            },
            Piece::Block(offset) => {
                if let Some(id) = blocks {
                    write_hook_call(out, hook_index, id, HOOK_BLOCK, *offset);
                }
            },
        }
        assert(out@ =~= old(out)@ + pieces_bytes(views.take(i + 1), hook_index, blocks));
        i += 1;
    }
    assert(views.take(i as int) == views);
}

/// Writes the content of the type section.
fn write_types(out: &mut Vec<u8>, count: u32, entries: &Vec<u8>)
    ensures
        final(out)@ == old(out)@ + types_content(count, entries@),
{
    write_u64(out, count as u64 + 1);
    append(out, entries);
    out.push(0x60);
    out.push(0x03);
    out.push(0x7f);
    out.push(0x7f);
    out.push(0x7f);
    out.push(0x00);
    assert(out@ =~= old(out)@ + types_content(count, entries@));
}

/// Writes the content of the import section.
fn write_imports(out: &mut Vec<u8>, count: u32, entries: &Vec<u8>, plan: &Plan)
    requires
        plan@.well_formed(),
    ensures
        final(out)@ == old(out)@ + imports_content(count, entries@, plan@),
{
    write_u64(out, count as u64 + 1);
    append(out, entries);
    let module = append_sized(out, &plan.module);
    let name = append_sized(out, &plan.name);
    out.push(0x00);
    write_u32(out, plan.hook_type);
    assert(out@ =~= old(out)@ + imports_content(count, entries@, plan@));
}

/// The number of hooked functions among the first `k`.
proof fn lemma_hooked_before_bound(hooked: Seq<bool>, k: int)
    requires
        0 <= k,
    ensures
        hooked_before(hooked, k) <= k,
    decreases k,
{
    if k > 0 {
        lemma_hooked_before_bound(hooked, k - 1);
    }
}

/// Counts the hooked functions.
fn count_hooked(plan: &Plan) -> (n: u64)
    requires
        plan@.well_formed(),
    ensures
        n == hooked_before(plan@.hooked, plan@.types.len() as int),
        n <= plan@.types.len(),
{
    let mut n: u64 = 0;
    let mut k: usize = 0;
    while k < plan.hooked.len()
        invariant
            k <= plan.hooked.len(),
            plan@.well_formed(),
            n == hooked_before(plan@.hooked, k as int),
            n <= k,
        decreases plan.hooked.len() - k,
    {
        if plan.hooked[k] {
            n += 1;
        }
        k += 1;
    }
    n
}

/// Writes the content of the function section.
fn write_functions(out: &mut Vec<u8>, plan: &Plan)
    requires
        plan@.well_formed(),
    ensures
        final(out)@ == old(out)@ + functions_content(plan@),
{
    let n = plan.types.len();
    let hooked = count_hooked(plan);
    write_u64(out, n as u64 + hooked);
    let ghost start = out@;
    let mut k: usize = 0;
    assert(out@ =~= start + indices_bytes(plan@.types, 0));
    while k < n
        invariant
            k <= n,
            n == plan@.types.len(),
            out@ == start + indices_bytes(plan@.types, k as int),
        decreases n - k,
    {
        write_u32(out, plan.types[k]);
        assert(out@ =~= start + indices_bytes(plan@.types, k + 1));
        k += 1;
    }
    let ghost middle = out@;
    let mut k: usize = 0;
    assert(out@ =~= middle + moved_types(plan@, 0));
    while k < n
        invariant
            k <= n,
            n == plan@.types.len(),
            plan@.well_formed(),
            out@ == middle + moved_types(plan@, k as int),
        decreases n - k,
    {
        if plan.hooked[k] {
            write_u32(out, plan.types[k]);
        }
        assert(out@ =~= middle + moved_types(plan@, k + 1));
        k += 1;
    }
    assert(out@ =~= old(out)@ + functions_content(plan@));
}

/// The wrapper of the hooked function number `k`, which is the `rank`-th
/// hooked function.
fn make_wrapper(plan: &Plan, k: usize, rank: u64) -> (body: Vec<u8>)
    requires
        plan@.well_formed(),
        k < plan@.types.len(),
        rank == hooked_before(plan@.hooked, k as int),
    ensures
        body@ == wrapper_bytes(plan@, k as int),
{
    proof {
        lemma_hooked_before_bound(plan@.hooked, k as int);
    }
    let id: u32 = plan.hook_index + k as u32;
    let params = plan.params[plan.types[k] as usize];
    let mut body: Vec<u8> = Vec::new();
    body.push(0x00);
    write_hook_call(&mut body, plan.hook_index, id, HOOK_ENTRY, 0);
    let ghost start = body@;
    let mut p: u32 = 0;
    assert(body@ =~= start + param_loads(0));
    while p < params
        invariant
            p <= params,
            body@ == start + param_loads(p as nat),
        decreases params - p,
    {
        body.push(0x20);
        write_u32(&mut body, p);
        assert(body@ =~= start + param_loads((p + 1) as nat));
        p += 1;
    }
    body.push(0x10);
    write_u64(&mut body, plan.hook_index as u64 + 1 + plan.types.len() as u64 + rank);
    write_hook_call(&mut body, plan.hook_index, id, HOOK_EXIT, 0);
    body.push(0x0b);
    assert(body@ =~= wrapper_bytes(plan@, k as int));
    body
}

/// The bytes of the body at `position`.
fn body_bytes(
    items: &Vec<Item>,
    position: usize,
    hook_index: u32,
    blocks: Option<u32>,
    Ghost(pieces): Ghost<Seq<PieceView>>,
) -> (bytes: Vec<u8>)
    requires
        position < items@.len(),
        items@[position as int]@ == (ItemView::Body { pieces }),
    ensures
        bytes@ == pieces_bytes(pieces, hook_index, blocks),
{
    let mut bytes: Vec<u8> = Vec::new();
    if let Item::Body { pieces } = &items[position] {
        write_pieces(&mut bytes, pieces, hook_index, blocks);
    }
    assert(bytes@ =~= pieces_bytes(pieces, hook_index, blocks));
    bytes
}

/// Where the first bodies do not fit, neither do all.
proof fn lemma_front_bodies_none(plan: PlanView, bodies: Seq<Seq<PieceView>>, k: int, n: int)
    requires
        0 <= k <= n,
        front_bodies(plan, bodies, k) is None,
    ensures
        front_bodies(plan, bodies, n) is None,
    decreases n - k,
{
    if k < n {
        lemma_front_bodies_none(plan, bodies, k, n - 1);
    }
}

/// Where the first moved bodies do not fit, neither do all.
proof fn lemma_moved_bodies_none(plan: PlanView, bodies: Seq<Seq<PieceView>>, k: int, n: int)
    requires
        0 <= k <= n,
        moved_bodies(plan, bodies, k) is None,
    ensures
        moved_bodies(plan, bodies, n) is None,
    decreases n - k,
{
    if k < n {
        lemma_moved_bodies_none(plan, bodies, k, n - 1);
    }
}

/// The content of the code section.
fn make_code(items: &Vec<Item>, plan: &Plan) -> (r: Option<Vec<u8>>)
    requires
        plan@.well_formed(),
        count_bodies(item_views(items@)) == plan@.types.len(),
    ensures
        match r {
            Some(content) => code_content(plan@, bodies_of(item_views(items@))) == Some(content@),
            None => code_content(plan@, bodies_of(item_views(items@))) is None,
        },
{
    let ghost bodies = bodies_of(item_views(items@));
    let positions = body_positions(items);
    let n = plan.types.len();
    let hooked = count_hooked(plan);
    let mut content: Vec<u8> = Vec::new();
    write_u64(&mut content, n as u64 + hooked);
    let ghost start = content@;
    let mut rank: u64 = 0;
    let mut k: usize = 0;
    assert(content@ =~= start + Seq::<u8>::empty());
    while k < n
        invariant
            k <= n,
            n == plan@.types.len(),
            n == positions@.len(),
            plan@.well_formed(),
            bodies == bodies_of(item_views(items@)),
            forall|q: int|
                0 <= q < positions@.len() ==> (#[trigger] positions@[q]) < items@.len() && items@[positions@[q] as int]@
                    == (ItemView::Body { pieces: bodies[q] }),
            rank == hooked_before(plan@.hooked, k as int),
            rank <= k,
            front_bodies(plan@, bodies, k as int) matches Some(front) && content@ == start + front,
        decreases n - k,
    {
        let ghost front = front_bodies(plan@, bodies, k as int)->Some_0;
        let body = if plan.hooked[k] {
            make_wrapper(plan, k, rank)
        } else {
            body_bytes(items, positions[k], plan.hook_index, None, Ghost(bodies[k as int]))
        };
        assert(body@ == new_body(plan@, bodies, k as int));
        if !append_sized(&mut content, &body) {
            proof {
                assert(front_bodies(plan@, bodies, k + 1) is None);
                lemma_front_bodies_none(plan@, bodies, k + 1, n as int);
            }
            return None;
        }
        assert(content@ =~= start + (front + sized(body@)));
        if plan.hooked[k] {
            rank += 1;
        }
        k += 1;
    }
    let ghost front = front_bodies(plan@, bodies, n as int)->Some_0;
    let ghost middle = content@;
    let mut k: usize = 0;
    assert(content@ =~= middle + Seq::<u8>::empty());
    while k < n
        invariant
            k <= n,
            n == plan@.types.len(),
            n == positions@.len(),
            plan@.well_formed(),
            bodies == bodies_of(item_views(items@)),
            forall|q: int|
                0 <= q < positions@.len() ==> (#[trigger] positions@[q]) < items@.len() && items@[positions@[q] as int]@
                    == (ItemView::Body { pieces: bodies[q] }),
            moved_bodies(plan@, bodies, k as int) matches Some(moved) && content@ == middle + moved,
        decreases n - k,
    {
        let ghost moved = moved_bodies(plan@, bodies, k as int)->Some_0;
        if plan.hooked[k] {
            let blocks = if plan.blocks {
                Some(plan.hook_index + k as u32)
            } else {
                None
            };
            let body = body_bytes(
                items,
                positions[k],
                plan.hook_index,
                blocks,
                Ghost(bodies[k as int]),
            );
            assert(body@ == moved_body(plan@, bodies, k as int));
            if !append_sized(&mut content, &body) {
                proof {
                    assert(moved_bodies(plan@, bodies, k + 1) is None);
                    lemma_moved_bodies_none(plan@, bodies, k + 1, n as int);
                }
                return None;
            }
            assert(content@ =~= middle + (moved + sized(body@)));
        }
        k += 1;
    }
    proof {
        let moved = moved_bodies(plan@, bodies, n as int)->Some_0;
        assert(content@ =~= uleb((n + hooked_before(plan@.hooked, n as int)) as nat) + front + moved);
    }
    Some(content)
}

/// Writes the content of the export section.
fn write_exports(out: &mut Vec<u8>, exports: &Vec<ExportItem>, hook_index: u32) -> (ok: bool)
    ensures
        ok ==> final(out)@ == old(out)@ + uleb(exports@.len() as nat) + exports_bytes(
            export_views(exports@),
            hook_index,
            exports@.len() as int,
        ),
        ok == names_fit(export_views(exports@)),
{
    let ghost views = export_views(exports@);
    write_u64(out, exports.len() as u64);
    let ghost start = out@;
    let mut k: usize = 0;
    assert(out@ =~= start + exports_bytes(views, hook_index, 0));
    while k < exports.len()
        invariant
            k <= exports.len(),
            views == export_views(exports@),
            start == old(out)@ + uleb(exports@.len() as nat),
            out@ == start + exports_bytes(views, hook_index, k as int),
            forall|q: int|
                0 <= q < k ==> vstd::utf8::encode_utf8((#[trigger] views[q]).name).len()
                    <= u32::MAX,
        decreases exports.len() - k,
    {
        assert(views[k as int] == exports@[k as int]@);
        let ghost before = out@;
        let name = utf8_bytes(&exports[k].name);
        if !append_sized(out, &name) {
            return false;
        }
        out.push(exports[k].kind);
        let index: u64 = if exports[k].kind == 0 && exports[k].index >= hook_index {
            exports[k].index as u64 + 1
        } else {
            exports[k].index as u64
        };
        write_u64(out, index);
        assert(out@ =~= before + export_bytes(views[k as int], hook_index));
        assert(out@ =~= start + exports_bytes(views, hook_index, k + 1));
        k += 1;
    }
    true
}

/// Emits what one item contributes to the instrumented module.
fn emit_item(out: &mut Vec<u8>, items: &Vec<Item>, position: usize, plan: &Plan) -> (ok: bool)
    requires
        plan@.well_formed(),
        count_bodies(item_views(items@)) == plan@.types.len(),
        position < items@.len(),
    ensures
        match emitted(items@[position as int]@, plan@, bodies_of(item_views(items@))) {
            Some(more) => ok && final(out)@ == old(out)@ + more,
            None => !ok,
        },
{
    let ghost bodies = bodies_of(item_views(items@));
    let mut content: Vec<u8> = Vec::new();
    let id: u8 = match &items[position] {
        Item::Types { count, entries, .. } => {
            write_types(&mut content, *count, entries);
            1
        },
        Item::Imports { count, entries, .. } => {
            write_imports(&mut content, *count, entries, plan);
            2
        },
        Item::Functions { .. } => {
            write_functions(&mut content, plan);
            3
        },
        Item::Exports { exports } => {
            if !write_exports(&mut content, exports, plan.hook_index) {
                return false;
            }
            7
        },
        Item::Start { function } => {
            let index: u64 = if *function < plan.hook_index {
                *function as u64
            } else {
                *function as u64 + 1
            };
            write_u64(&mut content, index);
            8
        },
        Item::Elements { pieces } => {
            write_pieces(&mut content, pieces, plan.hook_index, None);
            9
        },
        Item::CodeStart => {
            match make_code(items, plan) {
                Some(code) => {
                    content = code;
                },
                None => {
                    return false;
                },
            }
            10
        },
        Item::Plain { id, content: plain } => {
            append(&mut content, plain);
            *id
        },
        Item::Body { .. } => {
            assert(out@ =~= old(out)@ + Seq::<u8>::empty());
            return true;
        },
        Item::Nothing => {
            assert(out@ =~= old(out)@ + Seq::<u8>::empty());
            return true;
        },
    };
    assert(new_content(items@[position as int]@, plan@, bodies) == Some((id, content@)));
    if !append_frame(out, id, &content) {
        return false;
    }
    if id == 1 && !plan.has_imports {
        if let Item::Types { .. } = &items[position] {
            let mut imports: Vec<u8> = Vec::new();
            let empty: Vec<u8> = Vec::new();
            write_imports(&mut imports, 0, &empty, plan);
            let ghost before = out@;
            if !append_frame(out, 2, &imports) {
                return false;
            }
            assert(out@ =~= old(out)@ + (frame(id, content@) + frame(2u8, imports@)));
        }
    }
    true
}

/// Where the first items do not fit, neither do all.
proof fn lemma_emitted_none(items: Seq<ItemView>, plan: PlanView, k: int, n: int)
    requires
        0 <= k <= n,
        emitted_upto(items, plan, k) is None,
    ensures
        emitted_upto(items, plan, n) is None,
    decreases n - k,
{
    if k < n {
        lemma_emitted_none(items, plan, k, n - 1);
    }
}

/// Instruments the module with the outline `items`.
pub fn instrument_outline(items: &Vec<Item>, policy: &HookPolicy) -> (r: Result<Vec<u8>, Obstacle>)
    ensures
        match r {
            Ok(bytes) => instrumented(item_views(items@), policy@) == Ok::<Seq<u8>, Obstacle>(
                bytes@,
            ),
            Err(obstacle) => instrumented(item_views(items@), policy@) == Err::<
                Seq<u8>,
                Obstacle,
            >(obstacle),
        },
{
    let ghost views = item_views(items@);
    let plan = match make_plan(items, policy) {
        Ok(plan) => plan,
        Err(obstacle) => {
            return Err(obstacle);
        },
    };
    let mut out: Vec<u8> = Vec::new();
    out.push(0x00);
    out.push(0x61);
    out.push(0x73);
    out.push(0x6d);
    out.push(0x01);
    out.push(0x00);
    out.push(0x00);
    out.push(0x00);
    assert(out@ =~= module_header());
    let mut i: usize = 0;
    while i < items.len()
        invariant
            i <= items.len(),
            views == item_views(items@),
            plan@.well_formed(),
            count_bodies(views) == plan@.types.len(),
            plan_of(views, policy@) == Ok::<PlanView, Obstacle>(plan@),
            emitted_upto(views, plan@, i as int) == Some(out@),
        decreases items.len() - i,
    {
        assert(views[i as int] == items@[i as int]@);
        if !emit_item(&mut out, items, i, &plan) {
            proof {
                assert(emitted_upto(views, plan@, i + 1) is None);
                lemma_emitted_none(views, plan@, i + 1, items@.len() as int);
            }
            return Err(Obstacle::TooLarge);
        }
        i += 1;
    }
    Ok(out)
}

/// Rewrites modules so that the hooked functions call back into the
/// debugger.
pub struct Instrumenter {
    policy: HookPolicy,
}

impl Instrumenter {
    /// The policy of the instrumenter.
    pub closed spec fn spec_policy(&self) -> PolicyView {
        self.policy@
    }

    /// An instrumenter with the standard policy.
    pub fn new() -> (instrumenter: Self)
        ensures
            instrumenter.spec_policy() == standard_policy(),
    {
        Instrumenter { policy: HookPolicy::standard() }
    }

    /// An instrumenter with the policy `policy`.
    pub fn with_policy(policy: HookPolicy) -> (instrumenter: Self)
        ensures
            instrumenter.spec_policy() == policy@,
    {
        Instrumenter { policy }
    }

    /// The policy of the instrumenter.
    pub fn policy(&self) -> (policy: &HookPolicy)
        ensures
            policy@ == self.spec_policy(),
    {
        &self.policy
    }

    /// Lists the functions that `instrument` hooks in a module, each with
    /// the identifier that its hooks pass and with its name. Fails as
    /// `instrument` does, but for the limits of the format, which only the
    /// instrumented module can exceed.
    pub fn hook_targets(&self, wasm: &[u8]) -> (r: Result<Vec<HookTarget>, DebuggerError>)
        ensures
            match r {
                Ok(targets) => targets_result(wasm@, self.spec_policy()) == Ok::<
                    Seq<TargetView>,
                    ErrorView,
                >(target_views(targets@)),
                Err(e) => targets_result(wasm@, self.spec_policy()) == Err::<
                    Seq<TargetView>,
                    ErrorView,
                >(e@),
            },
    {
        match validate(wasm) {
            Some(fault) => {
                return Err(
                    DebuggerError::MalformedModule { message: fault.message, offset: fault.offset },
                );
            },
            None => {},
        }
        match validate_features(wasm) {
            Some(fault) => {
                return Err(DebuggerError::UnsupportedConstruct { reason: fault.message });
            },
            None => {},
        }
        let items = match read_outline(wasm) {
            Ok(items) => items,
            Err(obstacle) => {
                return Err(DebuggerError::UnsupportedConstruct { reason: obstacle.message() });
            },
        };
        match list_targets(&items, &self.policy) {
            Ok(targets) => Ok(targets),
            Err(obstacle) => Err(
                DebuggerError::UnsupportedConstruct { reason: obstacle.message() },
            ),
        }
    }

    /// Instruments a module with debugging hooks.
    ///
    /// Fails with `MalformedModule` where `wasm` is no valid module, and
    /// with `UnsupportedConstruct` where it is one that the instrumenter
    /// does not rewrite: a module without functions, one that imports the
    /// hook already, one that uses a feature of the format that the
    /// instrumenter does not admit. The instrumented module is validated
    /// and read again before it is handed out: it is a valid module, and
    /// one that `instrument` rejects as instrumented already. The input is
    /// left as it is.
    ///
    /// # Limits
    ///
    /// The instrumenter admits the features of `WasmFeatures::LIME1` and
    /// no others. A function may be named only where the instrumenter
    /// rewrites its index: in an export, as the start function, in an
    /// element segment that lists function indices, and in the immediate
    /// of a call. Later features name functions elsewhere (in the
    /// initial value of a global or a table, in an element segment of
    /// expressions), and a module that uses one is rejected rather than
    /// rewritten in part. `success_owed` states on which inputs the
    /// instrumented module is returned, and `lemma_success_owed` that it
    /// is returned on these and no others.
    pub fn instrument(&self, wasm: &[u8]) -> (r: Result<Vec<u8>, DebuggerError>)
        ensures
            match r {
                Ok(bytes) => instrument_result(wasm@, self.spec_policy()) == Ok::<
                    Seq<u8>,
                    ErrorView,
                >(bytes@) && begins_with_header(bytes@) && validation_fault(bytes@) is None
                    && shows_hook(bytes@, self.spec_policy()),
                Err(e) => instrument_result(wasm@, self.spec_policy()) == Err::<
                    Seq<u8>,
                    ErrorView,
                >(e@),
            },
    {
        proof {
            lemma_instrumented_begins_with_header(wasm@, self.spec_policy());
        }
        match validate(wasm) {
            Some(fault) => {
                return Err(
                    DebuggerError::MalformedModule { message: fault.message, offset: fault.offset },
                );
            },
            None => {},
        }
        match validate_features(wasm) {
            Some(fault) => {
                return Err(DebuggerError::UnsupportedConstruct { reason: fault.message });
            },
            None => {},
        }
        let items = match read_outline(wasm) {
            Ok(items) => items,
            Err(obstacle) => {
                return Err(DebuggerError::UnsupportedConstruct { reason: obstacle.message() });
            },
        };
        match instrument_outline(&items, &self.policy) {
            Ok(bytes) => match validate(bytes.as_slice()) {
                Some(fault) => Err(DebuggerError::UnsupportedConstruct { reason: fault.message }),
                None => {
                    if self.rejects(bytes.as_slice()) {
                        Ok(bytes)
                    } else {
                        Err(
                            DebuggerError::UnsupportedConstruct {
                                reason: Obstacle::HookNotShown.message(),
                            },
                        )
                    }
                },
            },
            Err(obstacle) => Err(
                DebuggerError::UnsupportedConstruct { reason: obstacle.message() },
            ),
        }
    }

    /// Whether the module shows the hook among its imports, so that
    /// `instrument` rejects it as instrumented already.
    pub fn rejects(&self, wasm: &[u8]) -> (shown: bool)
        ensures
            shown == shows_hook(wasm@, self.spec_policy()),
    {
        match read_outline(wasm) {
            Err(_) => false,
            Ok(items) => match make_plan(&items, &self.policy) {
                Err(Obstacle::AlreadyInstrumented) => true,
                _ => false,
            },
        }
    }
}

impl Default for Instrumenter {
    fn default() -> (instrumenter: Self)
        ensures
            instrumenter.spec_policy() == standard_policy(),
    {
        Self::new()
    }
}

} // verus!
