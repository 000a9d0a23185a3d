//! The hooked functions of a module by name: what a driver needs to tell
//! which function a call of the hook reports.

use crate::runtime::outline::{export_views, item_views, ExportItem, ExportView, Item, ItemView, Obstacle};
use crate::runtime::plan::{make_plan, plan_of, HookPolicy, Plan, PlanView, PolicyView};
use crate::debugger::engine::{BackendEvent, EventView};
use crate::runtime::instrumentation::{HOOK_BLOCK, HOOK_ENTRY, HOOK_EXIT};
use crate::text::{decimal, decimal_digits};
use crate::trace::step::{PayloadView, StepPayload};
use vstd::prelude::*;
use vstd::string::*;

verus! {

/// A hooked function: the identifier that its hooks pass, and its name.
#[derive(Debug, Clone, PartialEq, Eq)]
pub struct HookTarget {
    /// The index that the function has in the input module.
    pub id: u32,
    /// The name under which the module exports the function, or `func`
    /// and its index where it exports it under none.
    pub name: String,
}

/// A hooked function as a plain value.
pub struct TargetView {
    pub id: u32,
    pub name: Seq<char>,
}

impl View for HookTarget {
    type V = TargetView;

    open spec fn view(&self) -> TargetView {
        TargetView { id: self.id, name: self.name@ }
    }
}

/// The hooked functions as plain values.
pub open spec fn target_views(targets: Seq<HookTarget>) -> Seq<TargetView> {
    Seq::new(targets.len(), |i: int| targets[i]@)
}

/// The name of the first of `exports` from position `from` that exports
/// the function `f`.
pub open spec fn export_name_from(exports: Seq<ExportView>, f: int, from: int) -> Option<Seq<char>>
    decreases exports.len() - from,
{
    if from < 0 || from >= exports.len() {
        None
    } else if exports[from].kind == 0 && exports[from].index == f {
        Some(exports[from].name)
    } else {
        export_name_from(exports, f, from + 1)
    }
}

/// The name under which the first export section of `items` from position
/// `from` that exports the function `f` does so.
pub open spec fn exported_name_from(items: Seq<ItemView>, f: int, from: int) -> Option<Seq<char>>
    decreases items.len() - from,
{
    if from < 0 || from >= items.len() {
        None
    } else {
        match items[from] {
            ItemView::Exports { exports } => match export_name_from(exports, f, 0) {
                Some(name) => Some(name),
                None => exported_name_from(items, f, from + 1),
            },
            _ => exported_name_from(items, f, from + 1),
        }
    }
}

/// The name of the function `f`: that of its first export, or `func` and
/// its index where the module does not export it.
pub open spec fn target_name(items: Seq<ItemView>, f: u32) -> Seq<char> {
    match exported_name_from(items, f as int, 0) {
        Some(name) => name,
        None => "func"@ + decimal_digits(f as nat),
    }
}

/// The hooked functions among the first `k` that the module defines, in
/// the order of their indices.
pub open spec fn targets_upto(items: Seq<ItemView>, plan: PlanView, k: int) -> Seq<TargetView>
    decreases k,
{
    if k <= 0 {
        Seq::empty()
    } else if plan.hooked[k - 1] {
        targets_upto(items, plan, k - 1).push(
            TargetView {
                id: (plan.hook_index + k - 1) as u32,
                name: target_name(items, (plan.hook_index + k - 1) as u32),
            },
        )
    } else {
        targets_upto(items, plan, k - 1)
    }
}

/// The hooked functions of the module with the outline `items` under
/// `policy`, or the obstacle that the plan meets.
pub open spec fn hook_targets(items: Seq<ItemView>, policy: PolicyView) -> Result<
    Seq<TargetView>,
    Obstacle,
> {
    match plan_of(items, policy) {
        Err(obstacle) => Err(obstacle),
        Ok(plan) => Ok(targets_upto(items, plan, plan.types.len() as int)),
    }
}

/// The name of the first export of the function `f`.
fn exported_name(items: &Vec<Item>, f: u32) -> (name: Option<String>)
    ensures
        match name {
            Some(n) => exported_name_from(item_views(items@), f as int, 0) == Some(n@),
            None => exported_name_from(item_views(items@), f as int, 0) is None,
        },
{
    let ghost views = item_views(items@);
    let mut i: usize = 0;
    while i < items.len()
        invariant
            i <= items.len(),
            views == item_views(items@),
            exported_name_from(views, f as int, 0) == exported_name_from(views, f as int, i as int),
        decreases items.len() - i,
    {
        assert(views[i as int] == items@[i as int]@);
        if let Item::Exports { exports } = &items[i] {
            let ghost list = export_views(exports@);
            let mut j: usize = 0;
            while j < exports.len()
                invariant
                    j <= exports.len(),
                    i < items.len(),
                    views == item_views(items@),
                    views[i as int] == (ItemView::Exports { exports: list }),
                    list == export_views(exports@),
                    exported_name_from(views, f as int, 0) == exported_name_from(
                        views,
                        f as int,
                        i as int,
                    ),
                    export_name_from(list, f as int, 0) == export_name_from(
                        list,
                        f as int,
                        j as int,
                    ),
                decreases exports.len() - j,
            {
                assert(list[j as int] == exports@[j as int]@);
                if exports[j].kind == 0 && exports[j].index == f {
                    assert(export_name_from(list, f as int, j as int) == Some(list[j as int].name));
                    return Some(exports[j].name.clone());
                }
                j += 1;
            }
            assert(export_name_from(list, f as int, j as int) is None);
        }
        assert(exported_name_from(views, f as int, i as int) == exported_name_from(
            views,
            f as int,
            i + 1,
        ));
        i += 1;
    }
    None
}

/// Lists the hooked functions of the module with the outline `items`.
pub fn list_targets(items: &Vec<Item>, policy: &HookPolicy) -> (r: Result<Vec<HookTarget>, Obstacle>)
    ensures
        match r {
            Ok(targets) => hook_targets(item_views(items@), policy@) == Ok::<
                Seq<TargetView>,
                Obstacle,
            >(target_views(targets@)),
            Err(obstacle) => hook_targets(item_views(items@), policy@) == Err::<
                Seq<TargetView>,
                Obstacle,
            >(obstacle),
        },
{
    let ghost views = item_views(items@);
    let plan = match make_plan(items, policy) {
        Ok(plan) => plan,
        Err(obstacle) => {
            return Err(obstacle);
        },
    };
    let mut targets: Vec<HookTarget> = Vec::new();
    let mut k: usize = 0;
    assert(target_views(targets@) =~= targets_upto(views, plan@, 0));
    while k < plan.hooked.len()
        invariant
            k <= plan.hooked.len(),
            views == item_views(items@),
            plan@.well_formed(),
            target_views(targets@) == targets_upto(views, plan@, k as int),
        decreases plan.hooked.len() - k,
    {
        if plan.hooked[k] {
            let id: u32 = plan.hook_index + k as u32;
            let name = match exported_name(items, id) {
                Some(name) => name,
                None => {
                    let mut name = String::from_str("func");
                    name.append(decimal(id as u64).as_str());
                    name
                },
            };
            let ghost before = target_views(targets@);
            let target = HookTarget { id, name };
            let ghost view = target@;
            targets.push(target);
            assert(target_views(targets@) =~= before.push(view));
        }
        k += 1;
    }
    Ok(targets)
}

/// The name of the first of `targets` from position `from` with the
/// identifier `id`.
pub open spec fn name_of(targets: Seq<TargetView>, id: u32, from: int) -> Option<Seq<char>>
    decreases targets.len() - from,
{
    if from < 0 || from >= targets.len() {
        None
    } else if targets[from].id == id {
        Some(targets[from].name)
    } else {
        name_of(targets, id, from + 1)
    }
}

/// The event that a call of the hook reports: the entry of the function
/// with the identifier `id` for kind 0, its exit for kind 1, the start of
/// its block at `offset` for kind 2. `None` for a function that is none of
/// `targets`, and for any other kind.
pub open spec fn hook_event(targets: Seq<TargetView>, id: u32, kind: u8, offset: u32) -> Option<
    EventView,
> {
    match name_of(targets, id, 0) {
        None => None,
        Some(function) => if kind == HOOK_ENTRY {
            Some(EventView::Observed(PayloadView::FunctionEntry { function }))
        } else if kind == HOOK_EXIT {
            Some(
                EventView::Observed(
                    PayloadView::FunctionExit { function, value: None, budget: None },
                ),
            )
        } else if kind == HOOK_BLOCK {
            Some(EventView::Block { function, offset: offset as u64 })
        } else {
            None
        },
    }
}

/// Tells the event that a call of the hook reports to the session.
pub fn event_of_hook(targets: &Vec<HookTarget>, id: u32, kind: u8, offset: u32) -> (event: Option<
    BackendEvent,
>)
    ensures
        match event {
            Some(e) => hook_event(target_views(targets@), id, kind, offset) == Some(e@),
            None => hook_event(target_views(targets@), id, kind, offset) is None,
        },
{
    let ghost views = target_views(targets@);
    let mut i: usize = 0;
    while i < targets.len()
        invariant
            i <= targets.len(),
            views == target_views(targets@),
            name_of(views, id, 0) == name_of(views, id, i as int),
        decreases targets.len() - i,
    {
        assert(views[i as int] == targets@[i as int]@);
        if targets[i].id == id {
            let function = targets[i].name.clone();
            if kind == HOOK_ENTRY {
                return Some(BackendEvent::Observed(StepPayload::FunctionEntry { function }));
            } else if kind == HOOK_EXIT {
                return Some(
                    BackendEvent::Observed(
                        StepPayload::FunctionExit { function, value: None, budget: None },
                    ),
                );
            } else if kind == HOOK_BLOCK {
                return Some(BackendEvent::Block { function, offset: offset as u64 });
            } else {
                return None;
            }
        }
        i += 1;
    }
    None
}

} // verus!
