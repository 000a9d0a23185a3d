//! Which functions of a module can be reached from its exports.
//!
//! A function is a root if the module exports it or lists it in an element
//! segment: a call through a table may go to any function that a table
//! holds. A function is reached if it is a root or a reached function
//! calls it.

use crate::runtime::outline::{
    bodies_of, export_views, item_views, piece_views, Item, ItemView, Piece, PieceView,
};
use vstd::prelude::*;

verus! {

/// Whether export number `j` of item number `i` exports the function `f`.
pub open spec fn exports_function(items: Seq<ItemView>, i: int, j: int, f: int) -> bool {
    0 <= i < items.len() && items[i] is Exports && 0 <= j < items[i]->Exports_exports.len()
        && items[i]->Exports_exports[j].kind == 0 && items[i]->Exports_exports[j].index == f
}

/// Whether `items` export the function `f`.
pub open spec fn is_exported(items: Seq<ItemView>, f: int) -> bool {
    exists|i: int, j: int| exports_function(items, i, j, f)
}

/// Whether piece number `j` of item number `i`, an element section, is the
/// function `f`.
pub open spec fn lists_function(items: Seq<ItemView>, i: int, j: int, f: int) -> bool {
    0 <= i < items.len() && items[i] is Elements && 0 <= j < items[i]->Elements_pieces.len()
        && items[i]->Elements_pieces[j] == PieceView::Function(f as u32) && 0 <= f <= u32::MAX
}

/// Whether an element segment of `items` lists the function `f`.
pub open spec fn is_listed(items: Seq<ItemView>, f: int) -> bool {
    exists|i: int, j: int| lists_function(items, i, j, f)
}

/// Whether `f` is a root: exported, or listed in an element segment.
pub open spec fn is_root(items: Seq<ItemView>, f: int) -> bool {
    is_exported(items, f) || is_listed(items, f)
}

/// Whether piece number `p` of body number `g` is the function `f`.
pub open spec fn calls_at(bodies: Seq<Seq<PieceView>>, g: int, p: int, f: int) -> bool {
    0 <= g < bodies.len() && 0 <= p < bodies[g].len() && bodies[g][p] == PieceView::Function(
        f as u32,
    ) && 0 <= f <= u32::MAX
}

/// Whether the body of the function number `g` names the function `f`.
pub open spec fn calls(bodies: Seq<Seq<PieceView>>, g: int, f: int) -> bool {
    exists|p: int| calls_at(bodies, g, p, f)
}

/// Marks the function `h` as the caller through which a function is
/// reached.
pub open spec fn via(h: int) -> bool {
    true
}

/// Whether `f` is reached from a root over at most `steps` calls between
/// the `defined` functions that the module defines behind its `imported`
/// functions.
pub open spec fn reachable_within(
    items: Seq<ItemView>,
    imported: int,
    defined: int,
    f: int,
    steps: nat,
) -> bool
    decreases steps,
{
    if steps == 0 {
        is_root(items, f)
    } else {
        reachable_within(items, imported, defined, f, (steps - 1) as nat) || exists|h: int|
            #[trigger] via(h) && imported <= h < imported + defined && reachable_within(
                items,
                imported,
                defined,
                h,
                (steps - 1) as nat,
            ) && calls(bodies_of(items), h - imported, f)
    }
}

/// Whether `f` is reached from a root.
pub open spec fn reachable(items: Seq<ItemView>, imported: int, defined: int, f: int) -> bool {
    exists|steps: nat| reachable_within(items, imported, defined, f, steps)
}

/// The number of functions without a mark.
pub open spec fn unmarked(marks: Seq<bool>) -> nat
    decreases marks.len(),
{
    if marks.len() == 0 {
        0
    } else {
        unmarked(marks.drop_last()) + if marks.last() {
            0nat
        } else {
            1nat
        }
    }
}

/// A new mark leaves one function less without a mark.
proof fn lemma_mark(marks: Seq<bool>, k: int)
    requires
        0 <= k < marks.len(),
        !marks[k],
    ensures
        unmarked(marks.update(k, true)) + 1 == unmarked(marks),
    decreases marks.len(),
{
    let after = marks.update(k, true);
    if k == marks.len() - 1 {
        assert(after.drop_last() == marks.drop_last());
    } else {
        lemma_mark(marks.drop_last(), k);
        assert(after.drop_last() == marks.drop_last().update(k, true));
    }
}

/// Whether the items export the function `f`.
pub fn exported(items: &Vec<Item>, f: u64) -> (found: bool)
    ensures
        found == is_exported(item_views(items@), f as int),
{
    let ghost views = item_views(items@);
    let mut i: usize = 0;
    while i < items.len()
        invariant
            i <= items.len(),
            views == item_views(items@),
            forall|a: int, b: int| 0 <= a < i ==> !exports_function(views, a, b, f as int),
        decreases items.len() - i,
    {
        assert(views[i as int] == items@[i as int]@);
        if let Item::Exports { exports } = &items[i] {
            let mut j: usize = 0;
            while j < exports.len()
                invariant
                    j <= exports.len(),
                    i < items.len(),
                    views == item_views(items@),
                    views[i as int] == (ItemView::Exports { exports: export_views(exports@) }),
                    forall|b: int| 0 <= b < j ==> !exports_function(views, i as int, b, f as int),
                decreases exports.len() - j,
            {
                assert(export_views(exports@)[j as int] == exports@[j as int]@);
                if exports[j].kind == 0 && exports[j].index as u64 == f {
                    assert(exports_function(views, i as int, j as int, f as int));
                    return true;
                }
                j += 1;
            }
        }
        i += 1;
    }
    false
}

/// Whether an element segment of the items lists the function `f`.
pub fn listed(items: &Vec<Item>, f: u64) -> (found: bool)
    ensures
        found == is_listed(item_views(items@), f as int),
{
    let ghost views = item_views(items@);
    let mut i: usize = 0;
    while i < items.len()
        invariant
            i <= items.len(),
            views == item_views(items@),
            forall|a: int, b: int| 0 <= a < i ==> !lists_function(views, a, b, f as int),
        decreases items.len() - i,
    {
        assert(views[i as int] == items@[i as int]@);
        if let Item::Elements { pieces } = &items[i] {
            let mut j: usize = 0;
            while j < pieces.len()
                invariant
                    j <= pieces.len(),
                    i < items.len(),
                    views == item_views(items@),
                    views[i as int] == (ItemView::Elements { pieces: piece_views(pieces@) }),
                    forall|b: int| 0 <= b < j ==> !lists_function(views, i as int, b, f as int),
                decreases pieces.len() - j,
            {
                assert(piece_views(pieces@)[j as int] == pieces@[j as int]@);
                if let Piece::Function(t) = &pieces[j] {
                    if *t as u64 == f {
                        assert(lists_function(views, i as int, j as int, f as int));
                        return true;
                    }
                }
                j += 1;
            }
        }
        i += 1;
    }
    false
}

/// Whether every function that the body of `g` names among the defined
/// functions has a mark.
spec fn closed_at(bodies: Seq<Seq<PieceView>>, marks: Seq<bool>, imported: int, g: int) -> bool {
    forall|k: int| 0 <= k < marks.len() && calls(bodies, g, imported + k) ==> #[trigger] marks[k]
}

/// Whether one of the first `p` pieces of body number `g` is the function
/// `f`.
spec fn calls_before(bodies: Seq<Seq<PieceView>>, g: int, p: int, f: int) -> bool {
    exists|q: int| 0 <= q < p && calls_at(bodies, g, q, f)
}

/// Whether `g` waits in the work list.
spec fn waits(work: Seq<usize>, g: int) -> bool {
    exists|w: int| 0 <= w < work.len() && #[trigger] work[w] == g
}

/// What holds of the marks while the search runs: every marked function
/// is reached; every root has a mark; and every marked function either
/// waits in the work list or has all its callees marked.
spec fn searching(
    items: Seq<ItemView>,
    imported: int,
    marks: Seq<bool>,
    work: Seq<usize>,
) -> bool {
    let defined = marks.len() as int;
    &&& forall|k: int|
        0 <= k < defined && #[trigger] marks[k] ==> reachable(items, imported, defined, imported + k)
    &&& forall|k: int| 0 <= k < defined && is_root(items, imported + k) ==> #[trigger] marks[k]
    &&& forall|w: int| 0 <= w < work.len() ==> (#[trigger] work[w]) < defined && marks[work[w] as int]
    &&& forall|g: int|
        0 <= g < defined && #[trigger] marks[g] ==> waits(work, g) || closed_at(
            bodies_of(items),
            marks,
            imported,
            g,
        )
}

/// A function that a reached function calls is reached.
proof fn lemma_reach_step(items: Seq<ItemView>, imported: int, defined: int, g: int, f: int)
    requires
        0 <= g < defined,
        reachable(items, imported, defined, imported + g),
        calls(bodies_of(items), g, f),
    ensures
        reachable(items, imported, defined, f),
{
    let h = imported + g;
    let steps = choose|steps: nat| reachable_within(items, imported, defined, h, steps);
    let more: nat = steps + 1;
    assert((more - 1) as nat == steps);
    assert(via(h) && imported <= h < imported + defined && reachable_within(
        items,
        imported,
        defined,
        h,
        (more - 1) as nat,
    ) && calls(bodies_of(items), h - imported, f));
    assert(reachable_within(items, imported, defined, f, more));
}

/// Once no function waits, every function that is reached has a mark.
proof fn lemma_search_complete(
    items: Seq<ItemView>,
    imported: int,
    marks: Seq<bool>,
    k: int,
    steps: nat,
)
    requires
        searching(items, imported, marks, Seq::empty()),
        0 <= k < marks.len(),
        reachable_within(items, imported, marks.len() as int, imported + k, steps),
    ensures
        marks[k],
    decreases steps,
{
    let defined = marks.len() as int;
    let f = imported + k;
    assert(reachable_within(items, imported, defined, f, steps));
    if steps > 0 {
        if reachable_within(items, imported, defined, f, (steps - 1) as nat) {
            lemma_search_complete(items, imported, marks, k, (steps - 1) as nat);
        } else {
            let h = choose|h: int|
                #[trigger] via(h) && imported <= h < imported + defined && reachable_within(
                    items,
                    imported,
                    defined,
                    h,
                    (steps - 1) as nat,
                ) && calls(bodies_of(items), h - imported, f);
            let g = h - imported;
            assert(imported + g == h);
            lemma_search_complete(items, imported, marks, g, (steps - 1) as nat);
            assert(marks[g]);
            assert(!waits(Seq::<usize>::empty(), g));
            assert(closed_at(bodies_of(items), marks, imported, g));
            assert(calls(bodies_of(items), g, imported + k));
        }
    }
}

/// Marks the functions that are reached from the roots.
///
/// `positions` holds the position of each function body among the items;
/// `imported` is the number of imported functions, `defined` that of the
/// functions that the module defines.
pub fn reach(items: &Vec<Item>, positions: &Vec<usize>, imported: u64, defined: usize) -> (marks:
    Vec<bool>)
    requires
        positions@.len() == bodies_of(item_views(items@)).len(),
        forall|k: int|
            0 <= k < positions@.len() ==> (#[trigger] positions@[k]) < items@.len() && items@[positions@[k] as int]@
                == (ItemView::Body { pieces: bodies_of(item_views(items@))[k] }),
        defined == positions@.len(),
        imported + defined <= u32::MAX,
    ensures
        marks@.len() == defined,
        forall|k: int|
            0 <= k < defined ==> marks@[k] == reachable(
                item_views(items@),
                imported as int,
                defined as int,
                imported + k,
            ),
{
    let ghost views = item_views(items@);
    let ghost bodies = bodies_of(views);
    let mut marks: Vec<bool> = Vec::new();
    let mut work: Vec<usize> = Vec::new();
    let mut k: usize = 0;
    while k < defined
        invariant
            k <= defined,
            views == item_views(items@),
            imported + defined <= u32::MAX,
            marks@.len() == k,
            forall|q: int| 0 <= q < k ==> marks@[q] == is_root(views, imported + q),
            forall|w: int| 0 <= w < work@.len() ==> (#[trigger] work@[w]) < k && marks@[work@[w] as int],
            forall|q: int| 0 <= q < k && marks@[q] ==> waits(work@, q),
        decreases defined - k,
    {
        let f = imported + k as u64;
        let root = exported(items, f) || listed(items, f);
        let ghost old_work = work@;
        if root {
            work.push(k);
            assert(work@[work@.len() - 1] == k);
        }
        marks.push(root);
        proof {
            assert forall|q: int| 0 <= q < k + 1 && marks@[q] implies waits(work@, q) by {
                if q < k {
                    let w = choose|w: int| 0 <= w < old_work.len() && #[trigger] old_work[w] == q;
                    assert(work@[w] == q);
                } else {
                    assert(work@[work@.len() - 1] == q);
                }
            }
        }
        k += 1;
    }
    proof {
        assert forall|q: int| 0 <= q < defined && #[trigger] marks@[q] implies reachable(
            views,
            imported as int,
            defined as int,
            imported + q,
        ) by {
            assert(reachable_within(views, imported as int, defined as int, imported + q, 0));
        }
    }
    while work.len() > 0
        invariant
            views == item_views(items@),
            bodies == bodies_of(views),
            positions@.len() == bodies.len(),
            forall|q: int|
                0 <= q < positions@.len() ==> (#[trigger] positions@[q]) < items@.len() && items@[positions@[q] as int]@
                    == (ItemView::Body { pieces: bodies[q] }),
            defined == positions@.len(),
            imported + defined <= u32::MAX,
            marks@.len() == defined,
            searching(views, imported as int, marks@, work@),
        decreases 2 * unmarked(marks@) + work@.len(),
    {
        let ghost before_work = work@;
        let ghost before_marks = marks@;
        let g = work.pop().unwrap();
        let ghost rest = work@;
        assert(work@.push(g) =~= before_work);
        if let Item::Body { pieces } = &items[positions[g]] {
            let ghost body = piece_views(pieces@);
            assert(body == bodies[g as int]);
            let mut p: usize = 0;
            while p < pieces.len()
                invariant
                    p <= pieces.len(),
                    g < defined,
                    views == item_views(items@),
                    bodies == bodies_of(views),
                    body == piece_views(pieces@),
                    body == bodies[g as int],
                    (g as int) < bodies.len(),
                    imported + defined <= u32::MAX,
                    marks@.len() == defined,
                    marks@[g as int],
                    searching(views, imported as int, marks@, work@.push(g)),
                    forall|k: int|
                        0 <= k < defined && calls_before(bodies, g as int, p as int, imported + k)
                            ==> #[trigger] marks@[k],
                    2 * unmarked(marks@) + work@.len() < 2 * unmarked(before_marks) + before_work.len(),
                decreases pieces.len() - p,
            {
                assert(body[p as int] == pieces@[p as int]@);
                if let Piece::Function(t) = &pieces[p] {
                    let f = *t as u64;
                    if f >= imported && f - imported < defined as u64 {
                        let k = (f - imported) as usize;
                        if !marks[k] {
                            let ghost old_marks = marks@;
                            let ghost old_work = work@;
                            proof {
                                lemma_mark(old_marks, k as int);
                                assert(calls_at(bodies, g as int, p as int, imported + k));
                                assert(calls(bodies, g as int, imported + k));
                                lemma_reach_step(
                                    views,
                                    imported as int,
                                    defined as int,
                                    g as int,
                                    imported + k,
                                );
                            }
                            marks.set(k, true);
                            work.push(k);
                            proof {
                                let new_marks = marks@;
                                let waiting = work@.push(g);
                                let old_waiting = old_work.push(g);
                                assert forall|w: int| 0 <= w < waiting.len() implies (#[trigger] waiting[w])
                                    < defined && new_marks[waiting[w] as int] by {
                                    if w < old_work.len() {
                                        assert(old_waiting[w] == waiting[w]);
                                    }
                                }
                                assert forall|x: int|
                                    0 <= x < defined && #[trigger] new_marks[x] implies waits(
                                    waiting,
                                    x,
                                ) || closed_at(bodies, new_marks, imported as int, x) by {
                                    if x == k {
                                        assert(waiting[old_work.len() as int] == k);
                                    } else {
                                        assert(old_marks[x]);
                                        if waits(old_waiting, x) {
                                            let w = choose|w: int|
                                                0 <= w < old_waiting.len() && #[trigger] old_waiting[w]
                                                    == x;
                                            if w < old_work.len() {
                                                assert(waiting[w] == x);
                                            } else {
                                                assert(waiting[waiting.len() - 1] == x);
                                            }
                                        } else {
                                            assert(closed_at(bodies, old_marks, imported as int, x));
                                            assert forall|y: int|
                                                0 <= y < new_marks.len() && calls(
                                                    bodies,
                                                    x,
                                                    imported + y,
                                                ) implies #[trigger] new_marks[y] by {
                                                if y != k {
                                                    assert(old_marks[y]);
                                                }
                                            }
                                        }
                                    }
                                }
                                assert forall|x: int|
                                    0 <= x < defined && #[trigger] new_marks[x] implies reachable(
                                    views,
                                    imported as int,
                                    defined as int,
                                    imported + x,
                                ) by {
                                    if x != k {
                                        assert(old_marks[x]);
                                    }
                                }
                                assert forall|x: int|
                                    0 <= x < defined && is_root(
                                        views,
                                        imported + x,
                                    ) implies #[trigger] new_marks[x] by {
                                    if x != k {
                                        assert(old_marks[x]);
                                    }
                                }
                                assert forall|x: int|
                                    0 <= x < defined && calls_before(
                                        bodies,
                                        g as int,
                                        p as int,
                                        imported + x,
                                    ) implies #[trigger] new_marks[x] by {
                                    if x != k {
                                        assert(old_marks[x]);
                                    }
                                }
                            }
                        }
                    }
                }
                proof {
                    assert forall|x: int|
                        0 <= x < defined && calls_before(
                            bodies,
                            g as int,
                            p + 1,
                            imported + x,
                        ) implies #[trigger] marks@[x] by {
                        let fx = imported + x;
                        let gi = g as int;
                        let q = choose|q: int| 0 <= q < p + 1 && #[trigger] calls_at(bodies, gi, q, fx);
                        if q < p {
                            assert(calls_before(bodies, g as int, p as int, imported + x));
                        } else {
                            assert(body[p as int] == PieceView::Function((imported + x) as u32));
                        }
                    }
                }
                p += 1;
            }
            proof {
                // All callees of `g` are marked: `g` need not wait any more.
                assert forall|k: int|
                    0 <= k < marks@.len() && calls(bodies, g as int, imported + k) implies #[trigger] marks@[k] by {
                    let fk = imported + k;
                    let gi = g as int;
                    let q = choose|q: int| #[trigger] calls_at(bodies, gi, q, fk);
                    assert(calls_before(bodies, g as int, p as int, imported + k));
                }
                assert(closed_at(bodies, marks@, imported as int, g as int));
                let waiting = work@.push(g);
                assert forall|x: int| 0 <= x < defined && #[trigger] marks@[x] implies waits(
                    work@,
                    x,
                ) || closed_at(bodies, marks@, imported as int, x) by {
                    if x != g && waits(waiting, x) {
                        let w = choose|w: int| 0 <= w < waiting.len() && #[trigger] waiting[w] == x;
                        assert(work@[w] == x);
                    }
                }
                assert forall|w: int| 0 <= w < work@.len() implies (#[trigger] work@[w]) < defined
                    && marks@[work@[w] as int] by {
                    assert(waiting[w] == work@[w]);
                }
            }
        }
    }
    proof {
        assert(work@ =~= Seq::<usize>::empty());
        assert forall|k: int| 0 <= k < defined implies marks@[k] == reachable(
            views,
            imported as int,
            defined as int,
            imported + k,
        ) by {
            let f = imported + k;
            if reachable(views, imported as int, defined as int, f) {
                let steps = choose|steps: nat|
                    reachable_within(views, imported as int, defined as int, f, steps);
                lemma_search_complete(views, imported as int, marks@, k, steps);
            }
        }
    }
    marks
}

} // verus!
