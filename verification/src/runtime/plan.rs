//! The plan of an instrumentation: what the instrumenter has to know of
//! the whole module before it rewrites any section.

use crate::runtime::outline::{body_positions, count_bodies, item_views, Item, ItemView, Obstacle};
use crate::runtime::reach::{exported, is_exported, reach, reachable};
use crate::runtime::reader::{import_views, ImportRead, ImportView};
use crate::text::str_eq;
use vstd::prelude::*;
use vstd::string::*;

verus! {

/// Which functions get hooks.
#[derive(Debug, Clone, Copy, PartialEq, Eq, Structural)]
pub enum HookScope {
    /// The exported functions.
    Exported,
    /// The exported functions and every function that can be reached from
    /// them: the scope for stepping. A function that an element segment
    /// lists counts as reached, since a call through a table may go to it.
    Reachable,
    /// Every function that the module defines.
    All,
}

/// Where the hook comes from and which functions call it.
#[derive(Debug, Clone, PartialEq, Eq)]
pub struct HookPolicy {
    /// The module from which the hook function is imported.
    pub module: String,
    /// The name under which the hook function is imported.
    pub name: String,
    /// Which functions get hooks.
    pub scope: HookScope,
    /// Whether a hooked function calls the hook at the start of each of its
    /// blocks as well.
    pub blocks: bool,
}

/// A policy as a plain value.
pub struct PolicyView {
    pub module: Seq<char>,
    pub name: Seq<char>,
    pub scope: HookScope,
    pub blocks: bool,
}

impl View for HookPolicy {
    type V = PolicyView;

    open spec fn view(&self) -> PolicyView {
        PolicyView {
            module: self.module@,
            name: self.name@,
            scope: self.scope,
            blocks: self.blocks,
        }
    }
}

/// The standard policy: the hook is imported as `debugger.hook`, and the
/// exported functions call it at their entry and exit.
pub open spec fn standard_policy() -> PolicyView {
    PolicyView { module: "debugger"@, name: "hook"@, scope: HookScope::Exported, blocks: false }
}

impl HookPolicy {
    /// The standard policy: the hook is imported as `debugger.hook`, and
    /// the exported functions call it at their entry and exit.
    pub fn standard() -> (policy: Self)
        ensures
            policy@ == standard_policy(),
    {
        HookPolicy {
            module: String::from_str("debugger"),
            name: String::from_str("hook"),
            scope: HookScope::Exported,
            blocks: false,
        }
    }
}

/// What the instrumenter knows of the whole module.
pub struct Plan {
    /// The index of the type of the hook: the number of types so far.
    pub hook_type: u32,
    /// The index of the hook: the number of imported functions so far.
    pub hook_index: u32,
    /// Whether the module has an import section.
    pub has_imports: bool,
    /// The type index of each function that the module defines.
    pub types: Vec<u32>,
    /// The number of parameters of each type.
    pub params: Vec<u32>,
    /// For each function that the module defines, whether it gets hooks.
    pub hooked: Vec<bool>,
    /// Whether a hooked function calls the hook at the start of each of its
    /// blocks as well.
    pub blocks: bool,
    /// The module of the hook, as the bytes of its UTF-8 encoding.
    pub module: Vec<u8>,
    /// The name of the hook, as the bytes of its UTF-8 encoding.
    pub name: Vec<u8>,
}

/// A plan as a plain value.
pub struct PlanView {
    pub hook_type: u32,
    pub hook_index: u32,
    pub has_imports: bool,
    pub types: Seq<u32>,
    pub params: Seq<u32>,
    pub hooked: Seq<bool>,
    pub blocks: bool,
    pub module: Seq<u8>,
    pub name: Seq<u8>,
}

impl View for Plan {
    type V = PlanView;

    open spec fn view(&self) -> PlanView {
        PlanView {
            hook_type: self.hook_type,
            hook_index: self.hook_index,
            has_imports: self.has_imports,
            types: self.types@,
            params: self.params@,
            hooked: self.hooked@,
            blocks: self.blocks,
            module: self.module@,
            name: self.name@,
        }
    }
}

impl PlanView {
    /// What holds of every plan: each function has a flag and a type that
    /// exists, and the counts and indices of the instrumented module stay
    /// in their ranges.
    pub open spec fn well_formed(self) -> bool {
        &&& self.hooked.len() == self.types.len()
        &&& types_in_range(self.types, self.params.len() as int)
        &&& self.hook_index + 1 + 2 * self.types.len() <= MAX_FUNCTIONS
        &&& self.hook_type < u32::MAX
        &&& self.module.len() <= u32::MAX
        &&& self.name.len() <= u32::MAX
    }
}

/// The largest number of functions that an instrumented module may have:
/// function indices are passed to the hook as signed 32-bit constants.
pub const MAX_FUNCTIONS: u64 = 0x7fff_ffff;

/// The first position from `from` at which `items` holds a type section
/// (`tag` 1), an import section (2) or a function section (3), or the
/// length of `items` where there is none.
pub open spec fn section_position(items: Seq<ItemView>, tag: int, from: int) -> int
    decreases items.len() - from,
{
    if from < 0 || from >= items.len() {
        items.len() as int
    } else if has_tag(items[from], tag) {
        from
    } else {
        section_position(items, tag, from + 1)
    }
}

/// Whether `item` is the section with the tag `tag`.
pub open spec fn has_tag(item: ItemView, tag: int) -> bool {
    (tag == 1 && item is Types) || (tag == 2 && item is Imports) || (tag == 3
        && item is Functions)
}

/// The number of functions among `imports`.
pub open spec fn count_functions(imports: Seq<ImportView>) -> nat
    decreases imports.len(),
{
    if imports.len() == 0 {
        0
    } else {
        count_functions(imports.drop_last()) + if imports.last().kind.is_function() {
            1nat
        } else {
            0nat
        }
    }
}

/// Whether `imports` holds a function imported under the names of the
/// hook.
pub open spec fn has_hook(imports: Seq<ImportView>, policy: PolicyView) -> bool {
    exists|i: int|
        0 <= i < imports.len() && is_hook(#[trigger] imports[i], policy)
}

/// Whether `import` is a function imported under the names of the hook.
pub open spec fn is_hook(import: ImportView, policy: PolicyView) -> bool {
    import.kind.is_function() && import.module == policy.module && import.name == policy.name
}

/// Whether every type index of `types` names one of `count` types.
pub open spec fn types_in_range(types: Seq<u32>, count: int) -> bool {
    forall|k: int| 0 <= k < types.len() ==> #[trigger] types[k] < count
}

/// Whether the function number `k` of the `defined` functions that the
/// module defines behind its `imported` functions is in `scope`.
pub open spec fn in_scope(items: Seq<ItemView>, scope: HookScope, imported: int, defined: int, k: int) -> bool {
    match scope {
        HookScope::All => true,
        HookScope::Exported => is_exported(items, imported + k),
        HookScope::Reachable => reachable(items, imported, defined, imported + k),
    }
}

/// The plan for the module with the outline `items` under `policy`, or
/// the obstacle:
/// - `NoFunctions` where the type or function section is missing, no
///   function is defined, or the bodies are not as many as the functions;
/// - `Encoding` where the type section does not hold as many types as it
///   announces, `Layout` where a function has a type that does not exist;
/// - `AlreadyInstrumented` where the hook is imported already;
/// - `TooLarge` where a count or a function index would leave its range,
///   or a name of the hook is longer than the format holds.
pub open spec fn plan_of(items: Seq<ItemView>, policy: PolicyView) -> Result<PlanView, Obstacle> {
    let t = section_position(items, 1, 0);
    let i = section_position(items, 2, 0);
    let f = section_position(items, 3, 0);
    if t >= items.len() || f >= items.len() {
        Err(Obstacle::NoFunctions)
    } else {
        let count = items[t]->Types_count;
        let params = items[t]->Types_params;
        let types = items[f]->Functions_types;
        let imports = if i < items.len() {
            items[i]->Imports_imports
        } else {
            Seq::empty()
        };
        let import_count = if i < items.len() {
            items[i]->Imports_count
        } else {
            0u32
        };
        if types.len() == 0 || count_bodies(items) != types.len() {
            Err(Obstacle::NoFunctions)
        } else if params.len() != count {
            Err(Obstacle::Encoding)
        } else if !types_in_range(types, count as int) {
            Err(Obstacle::Layout)
        } else if has_hook(imports, policy) {
            Err(Obstacle::AlreadyInstrumented)
        } else if count == u32::MAX || import_count == u32::MAX || count_functions(imports) + 1
            + 2 * types.len() > MAX_FUNCTIONS || vstd::utf8::encode_utf8(policy.module).len()
            > u32::MAX || vstd::utf8::encode_utf8(policy.name).len() > u32::MAX {
            Err(Obstacle::TooLarge)
        } else {
            Ok(
                PlanView {
                    hook_type: count,
                    hook_index: count_functions(imports) as u32,
                    has_imports: i < items.len(),
                    types,
                    params,
                    hooked: Seq::new(
                        types.len(),
                        |k: int|
                            in_scope(
                                items,
                                policy.scope,
                                count_functions(imports) as int,
                                types.len() as int,
                                k,
                            ),
                    ),
                    blocks: policy.blocks,
                    module: vstd::utf8::encode_utf8(policy.module),
                    name: vstd::utf8::encode_utf8(policy.name),
                },
            )
        }
    }
}

/// Finds the first section with the tag `tag`.
fn find_section(items: &Vec<Item>, tag: u8) -> (at: usize)
    requires
        1 <= tag <= 3,
    ensures
        at == section_position(item_views(items@), tag as int, 0),
        at <= items.len(),
        at < items.len() ==> has_tag(items@[at as int]@, tag as int),
{
    let ghost views = item_views(items@);
    let mut i: usize = 0;
    while i < items.len()
        invariant
            i <= items.len(),
            views == item_views(items@),
            1 <= tag <= 3,
            section_position(views, tag as int, 0) == section_position(views, tag as int, i as int),
        decreases items.len() - i,
    {
        assert(views[i as int] == items@[i as int]@);
        let found = match &items[i] {
            Item::Types { .. } => tag == 1,
            Item::Imports { .. } => tag == 2,
            Item::Functions { .. } => tag == 3,
            _ => false,
        };
        if found {
            return i;
        }
        i += 1;
    }
    i
}

/// Counts the imported functions and looks for the hook among them.
fn survey_imports(imports: &Vec<ImportRead>, policy: &HookPolicy) -> (r: (usize, bool))
    ensures
        r.0 == count_functions(import_views(imports@)),
        r.1 == has_hook(import_views(imports@), policy@),
{
    let ghost views = import_views(imports@);
    let mut functions: usize = 0;
    let mut hook = false;
    let mut i: usize = 0;
    while i < imports.len()
        invariant
            i <= imports.len(),
            views == import_views(imports@),
            functions == count_functions(views.take(i as int)),
            functions <= i,
            hook == has_hook(views.take(i as int), policy@),
        decreases imports.len() - i,
    {
        let ghost head = views.take(i as int);
        let ghost next = views.take(i + 1);
        proof {
            assert(next.drop_last() == head);
            assert(next.last() == imports@[i as int]@);
        }
        let import = &imports[i];
        let mut this = false;
        if import.kind.imports_function() {
            functions += 1;
            if str_eq(import.module.as_str(), policy.module.as_str()) && str_eq(
                import.name.as_str(),
                policy.name.as_str(),
            ) {
                this = true;
            }
        }
        proof {
            assert(this == is_hook(next[i as int], policy@));
            if has_hook(head, policy@) {
                let w = choose|w: int| 0 <= w < head.len() && is_hook(#[trigger] head[w], policy@);
                assert(is_hook(next[w], policy@));
            }
            if has_hook(next, policy@) && !this {
                let w = choose|w: int| 0 <= w < next.len() && is_hook(#[trigger] next[w], policy@);
                assert(is_hook(head[w], policy@));
            }
        }
        if this {
            hook = true;
        }
        i += 1;
    }
    proof {
        assert(views.take(i as int) == views);
    }
    (functions, hook)
}

/// Whether every type index of `types` names one of `count` types.
fn check_types(types: &Vec<u32>, count: u32) -> (ok: bool)
    ensures
        ok == types_in_range(types@, count as int),
{
    let mut k: usize = 0;
    while k < types.len()
        invariant
            k <= types.len(),
            forall|q: int| 0 <= q < k ==> #[trigger] types@[q] < count,
        decreases types.len() - k,
    {
        if types[k] >= count {
            return false;
        }
        k += 1;
    }
    true
}

/// A copy of the numbers.
fn copy_numbers(numbers: &Vec<u32>) -> (copy: Vec<u32>)
    ensures
        copy@ == numbers@,
{
    let mut copy: Vec<u32> = Vec::new();
    let mut i: usize = 0;
    while i < numbers.len()
        invariant
            i <= numbers.len(),
            copy@ == numbers@.take(i as int),
        decreases numbers.len() - i,
    {
        copy.push(numbers[i]);
        assert(copy@ =~= numbers@.take(i + 1));
        i += 1;
    }
    assert(numbers@.take(i as int) == numbers@);
    copy
}

/// The bytes of the UTF-8 encoding of `text`.
pub fn utf8_bytes(text: &String) -> (bytes: Vec<u8>)
    ensures
        bytes@ == vstd::utf8::encode_utf8(text@),
{
    let slice = text.as_str().as_bytes();
    let mut bytes: Vec<u8> = Vec::new();
    let mut i: usize = 0;
    while i < slice.len()
        invariant
            i <= slice.len(),
            bytes@ == slice@.take(i as int),
        decreases slice.len() - i,
    {
        bytes.push(slice[i]);
        assert(bytes@ =~= slice@.take(i + 1));
        i += 1;
    }
    assert(slice@.take(i as int) == slice@);
    bytes
}

/// Makes the plan for the module with the outline `items`.
pub fn make_plan(items: &Vec<Item>, policy: &HookPolicy) -> (r: Result<Plan, Obstacle>)
    ensures
        match r {
            Ok(plan) => plan_of(item_views(items@), policy@) == Ok::<PlanView, Obstacle>(plan@)
                && plan@.well_formed() && count_bodies(item_views(items@)) == plan@.types.len(),
            Err(obstacle) => plan_of(item_views(items@), policy@) == Err::<PlanView, Obstacle>(
                obstacle,
            ),
        },
{
    let ghost views = item_views(items@);
    let t = find_section(items, 1);
    let i = find_section(items, 2);
    let f = find_section(items, 3);
    if t >= items.len() || f >= items.len() {
        return Err(Obstacle::NoFunctions);
    }
    proof {
        assert(views[t as int] == items@[t as int]@);
        assert(views[f as int] == items@[f as int]@);
        if i < items.len() {
            assert(views[i as int] == items@[i as int]@);
        }
    }
    let (count, params) = match &items[t] {
        Item::Types { count, params, .. } => (*count, params),
        _ => {
            return Err(Obstacle::NoFunctions);
        },
    };
    let types = match &items[f] {
        Item::Functions { types } => types,
        _ => {
            return Err(Obstacle::NoFunctions);
        },
    };
    let positions = body_positions(items);
    if types.len() == 0 || positions.len() != types.len() {
        return Err(Obstacle::NoFunctions);
    }
    if params.len() as u64 != count as u64 {
        return Err(Obstacle::Encoding);
    }
    if !check_types(types, count) {
        return Err(Obstacle::Layout);
    }
    let (functions, hook, import_count) = if i < items.len() {
        match &items[i] {
            Item::Imports { count, imports, .. } => {
                let (functions, hook) = survey_imports(imports, policy);
                (functions, hook, *count)
            },
            _ => (0, false, 0),
        }
    } else {
        proof {
            assert(count_functions(Seq::<ImportView>::empty()) == 0);
        }
        (0, false, 0)
    };
    if hook {
        return Err(Obstacle::AlreadyInstrumented);
    }
    if count == u32::MAX || import_count == u32::MAX {
        return Err(Obstacle::TooLarge);
    }
    if functions as u64 > MAX_FUNCTIONS || types.len() as u64 > MAX_FUNCTIONS {
        return Err(Obstacle::TooLarge);
    }
    if functions as u64 + 1 + 2 * (types.len() as u64) > MAX_FUNCTIONS {
        return Err(Obstacle::TooLarge);
    }
    let module = utf8_bytes(&policy.module);
    let name = utf8_bytes(&policy.name);
    if module.len() > u32::MAX as usize || name.len() > u32::MAX as usize {
        return Err(Obstacle::TooLarge);
    }
    let hooked = match policy.scope {
        HookScope::Reachable => reach(items, &positions, functions as u64, types.len()),
        _ => {
            let all = match policy.scope {
                HookScope::All => true,
                _ => false,
            };
            let mut hooked: Vec<bool> = Vec::new();
            let mut k: usize = 0;
            while k < types.len()
                invariant
                    k <= types.len(),
                    views == item_views(items@),
                    types.len() <= MAX_FUNCTIONS,
                    functions <= MAX_FUNCTIONS,
                    all == (policy@.scope is All),
                    !all ==> policy@.scope is Exported,
                    hooked@.len() == k,
                    forall|q: int|
                        0 <= q < k ==> hooked@[q] == (all || is_exported(views, functions + q)),
                decreases types.len() - k,
            {
                let flag = all || exported(items, functions as u64 + k as u64);
                hooked.push(flag);
                k += 1;
            }
            hooked
        },
    };
    let plan = Plan {
        hook_type: count,
        hook_index: functions as u32,
        has_imports: i < items.len(),
        types: copy_numbers(types),
        params: copy_numbers(params),
        hooked,
        blocks: policy.blocks,
        module,
        name,
    };
    proof {
        let expected = plan_of(views, policy@)->Ok_0;
        assert(plan@.hooked =~= expected.hooked);
    }
    Ok(plan)
}

} // verus!
