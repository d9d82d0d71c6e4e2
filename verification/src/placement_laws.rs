//! What a new pane, a closed one, and another one of a stack change on the screen.

use crate::arrangement_laws::{
    cut_alike, lemma_apart, lemma_elsewhere, lemma_in_either, lemma_on_the_way, part, same_but_at,
};
use crate::automatic_laws::{across, begins, extent, lemma_half};
use crate::geometry::{
    candidate, first_entry, fits_screen, halves, is_neighbor, nearest, placed,
};
use crate::layout::{
    is_first, law_has_is_membership, lemma_position, lone, position, Direction, FocusDirection,
    PaneId, Rect, Tree, MIN_PANE_SIZE,
};
use crate::layout_laws::{
    law_closing_removes_one_pane, lemma_closing_keeps_the_order, lemma_front,
};
use crate::ratio::{Ratio, HALF_UNITS};
use vstd::prelude::*;

verus! {

proof fn lemma_visible_is_held(t: Tree, id: PaneId)
    ensures
        t.visible().contains(id) ==> t.ids().contains(id),
    decreases t,
{
    match t {
        Tree::Split { first, second, .. } => {
            lemma_visible_is_held(*first, id);
            lemma_visible_is_held(*second, id);
            lemma_in_either(first.visible(), second.visible(), id);
            lemma_in_either(first.ids(), second.ids(), id);
        },
        Tree::Stack { panes, active, .. } => {
            if t.visible().contains(id) {
                assert(panes[active as int] == id);
            }
        },
    }
}

/// The stack of `target` replaced: what was placed before and after it stays, and it is the
/// only one that changes.
proof fn lemma_stack_replaced(
    t: Tree,
    target: PaneId,
    f: spec_fn(Tree) -> Tree,
    area: Rect,
    gap: u16,
) -> (r: (int, Rect, Tree))
    requires
        t.has(target),
        t.wf(),
    ensures
        ({
            let (k, place, s) = r;
            let p = placed(t, area, gap);
            let now = placed(t.with_stack(target, f), area, gap);
            let inner = placed(f(s), place, gap);
            &&& t.stack_of(target) == Some(s)
            &&& s is Stack && s.wf() && s.has(target)
            &&& 0 <= k < p.len()
            &&& s->active < s->panes.len()
            &&& p[k] == (s->panes[s->active as int], place)
            &&& now == p.take(k) + inner + p.skip(k + 1)
            &&& fits_screen(area) && gap == 0 ==> fits_screen(place)
            &&& t.ids().no_duplicates() && t.visible().contains(target) ==> p[k].0 == target
        }),
    decreases t,
{
    let p = placed(t, area, gap);
    match t {
        Tree::Split { direction, ratio, first, second } => {
            let (a, b) = halves(area, direction, ratio, gap);
            let x = placed(*first, a, gap);
            let y = placed(*second, b, gap);
            lemma_in_either(first.visible(), second.visible(), target);
            if t.ids().no_duplicates() {
                lemma_apart(first.ids(), second.ids(), target);
            }
            law_has_is_membership(*first, target);
            law_has_is_membership(*second, target);
            lemma_visible_is_held(*first, target);
            lemma_visible_is_held(*second, target);
            if first.has(target) {
                let (k, place, s) = lemma_stack_replaced(*first, target, f, a, gap);
                let inner = placed(f(s), place, gap);
                let now = placed(t.with_stack(target, f), area, gap);
                assert(now =~= p.take(k) + inner + p.skip(k + 1)) by {
                    assert(now == (x.take(k) + inner + x.skip(k + 1)) + y);
                    assert(p.take(k) =~= x.take(k));
                    assert(p.skip(k + 1) =~= x.skip(k + 1) + y);
                }
                (k, place, s)
            } else {
                let (j, place, s) = lemma_stack_replaced(*second, target, f, b, gap);
                let k = x.len() + j;
                let inner = placed(f(s), place, gap);
                let now = placed(t.with_stack(target, f), area, gap);
                assert(now =~= p.take(k) + inner + p.skip(k + 1)) by {
                    assert(now == x + (y.take(j) + inner + y.skip(j + 1)));
                    assert(p.take(k) =~= x + y.take(j));
                    assert(p.skip(k + 1) =~= y.skip(j + 1));
                }
                (k, place, s)
            }
        },
        Tree::Stack { panes, active, .. } => {
            let inner = placed(f(t), area, gap);
            let now = placed(t.with_stack(target, f), area, gap);
            assert(panes.len() > 0) by {
                let i = choose|i: int| 0 <= i < panes.len() && panes[i] == target;
            }
            assert(p =~= seq![p[0]]);
            assert(now =~= p.take(0) + inner + p.skip(1));
            if t.visible().contains(target) {
                assert(t.visible()[0] == target);
            }
            (0, area, t)
        },
    }
}

/// A split cuts the place of the target's stack in two, side by side in the direction and,
/// up to rounding, in equal parts. What was seen there stays in the first one, the new pane
/// gets the second one, and no other pane moves.
pub proof fn law_a_split_halves_the_place(
    t: Tree,
    target: PaneId,
    new: PaneId,
    direction: Direction,
    area: Rect,
    gap: u16,
) -> (k: int)
    requires
        t.has(target),
        t.wf(),
    ensures
        ({
            let p = placed(t, area, gap);
            let now = placed(t.split_at(target, new, direction), area, gap);
            &&& 0 <= k < p.len()
            &&& now.len() == p.len() + 1
            &&& now.take(k) == p.take(k)
            &&& now.skip(k + 2) == p.skip(k + 1)
            &&& now[k].0 == p[k].0 && now[k + 1].0 == new
            &&& now[k].1.x == p[k].1.x && now[k].1.y == p[k].1.y
            &&& extent(now[k].1, across(direction)) == extent(p[k].1, across(direction))
            &&& extent(now[k + 1].1, across(direction)) == extent(p[k].1, across(direction))
            &&& begins(now[k + 1].1, across(direction)) == begins(p[k].1, across(direction))
            &&& extent(p[k].1, direction) >= gap ==> extent(now[k].1, direction) + gap + extent(
                now[k + 1].1,
                direction,
            ) == extent(p[k].1, direction)
            &&& extent(p[k].1, direction) >= gap + 2 * MIN_PANE_SIZE ==> -1 <= extent(
                now[k].1,
                direction,
            ) - extent(now[k + 1].1, direction) <= 1
            &&& fits_screen(area) && gap == 0 ==> begins(now[k + 1].1, direction) == begins(
                now[k].1,
                direction,
            ) + extent(now[k].1, direction)
            &&& t.ids().no_duplicates() && t.visible().contains(target) ==> p[k].0 == target
        }),
{
    let half = Ratio { units: HALF_UNITS };
    let f = |s: Tree|
        Tree::Split { direction, ratio: half, first: Box::new(s), second: Box::new(lone(new)) };
    let (k, place, s) = lemma_stack_replaced(t, target, f, area, gap);
    let p = placed(t, area, gap);
    let now = placed(t.split_at(target, new, direction), area, gap);
    assert(now == placed(t.with_stack(target, f), area, gap));
    let (a, b) = halves(place, direction, half, gap);
    let inner = placed(f(s), place, gap);
    assert(placed(lone(new), b, gap) =~= seq![(new, b)]);
    assert(placed(s, a, gap) =~= seq![(p[k].0, a)]);
    assert(inner == placed(s, a, gap) + placed(lone(new), b, gap));
    assert(inner =~= seq![(p[k].0, a), (new, b)]);
    assert(now[k] == inner[0] && now[k + 1] == inner[1]);
    assert(now.take(k) =~= p.take(k));
    assert(now.skip(k + 2) =~= p.skip(k + 1));
    if extent(place, direction) >= gap + 2 * MIN_PANE_SIZE {
        lemma_half((extent(place, direction) - gap) as u16);
    }
    k
}

/// A pane that is added to a stack takes the place of what was seen of it, and nothing else
/// on the screen changes.
pub proof fn law_a_stacked_pane_covers_its_stack(
    t: Tree,
    target: PaneId,
    new: PaneId,
    area: Rect,
    gap: u16,
) -> (k: int)
    requires
        t.has(target),
        t.wf(),
    ensures
        ({
            let p = placed(t, area, gap);
            &&& 0 <= k < p.len()
            &&& placed(t.stacked(target, new), area, gap) == p.update(k, (new, p[k].1))
            &&& t.ids().no_duplicates() && t.visible().contains(target) ==> p[k].0 == target
        }),
{
    let f = |s: Tree| s.pushed(new);
    let (k, place, s) = lemma_stack_replaced(t, target, f, area, gap);
    let p = placed(t, area, gap);
    assert(t.stacked(target, new) == t.with_stack(target, f));
    assert(placed(s.pushed(new), place, gap) =~= seq![(new, place)]);
    assert(placed(t.stacked(target, new), area, gap) =~= p.update(k, (new, p[k].1)));
    k
}

/// Turning a stack shows the pane that follows the given one in it, or the one before it,
/// around the end; what it shows has the place of the stack, and nothing else on the screen
/// changes.
pub proof fn law_turning_shows_the_next_of_the_stack(
    t: Tree,
    id: PaneId,
    forward: bool,
    area: Rect,
    gap: u16,
    panes: Seq<PaneId>,
    at: int,
) -> (k: int)
    requires
        t.has(id),
        t.wf(),
        t.stack_of(id) matches Some(Tree::Stack { panes: own, .. }) && own == panes,
        panes.no_duplicates(),
        0 <= at < panes.len(),
        panes[at] == id,
        panes.len() > 1,
    ensures
        ({
            let to = panes[if forward {
                if at + 1 < panes.len() {
                    at + 1
                } else {
                    0
                }
            } else {
                if at > 0 {
                    at - 1
                } else {
                    panes.len() - 1
                }
            }];
            let p = placed(t, area, gap);
            &&& 0 <= k < p.len()
            &&& panes.contains(p[k].0)
            &&& t.turned_to(id, forward) == Some(to)
            &&& placed(t.turned(id, forward), area, gap) == p.update(k, (to, p[k].1))
        }),
{
    let f = |s: Tree|
        if s.height() <= 1 {
            s
        } else {
            s.showing(
                if forward {
                    s.after(id)
                } else {
                    s.before(id)
                },
            )
        };
    let (k, place, s) = lemma_stack_replaced(t, id, f, area, gap);
    let p = placed(t, area, gap);
    lemma_position(panes, id);
    assert(is_first(panes, id, at)) by {
        assert forall|j: int| 0 <= j < at implies panes[j] != id by {
            assert(panes[j] != panes[at]);
        }
    }
    if at + 1 < panes.len() {
        vstd::arithmetic::div_mod::lemma_small_mod((at + 1) as nat, panes.len());
    } else {
        vstd::arithmetic::div_mod::lemma_mod_self_0(panes.len() as int);
    }
    let to = t.turned_to(id, forward)->0;
    assert(t.turned(id, forward) == t.with_stack(id, f));
    assert(placed(f(s), place, gap) =~= seq![(to, place)]);
    assert(panes.contains(panes[s->active as int]));
    assert(placed(t.turned(id, forward), area, gap) =~= p.update(k, (to, p[k].1)));
    k
}

// ---------------------------------------------------------------------------
// Closing
// ---------------------------------------------------------------------------

/// In a stack of several panes, what is seen stays seen when another pane is closed. Where
/// it is itself closed, the next pane is seen, and the one before it where there is no next.
/// That pane gets the focus.
pub proof fn law_closing_in_a_stack_shows_the_next(t: Tree, at: int)
    requires
        t is Stack,
        t->panes.no_duplicates(),
        t->active < t->panes.len(),
        t->panes.len() > 1,
        0 <= at < t->panes.len(),
    ensures
        ({
            let panes = t->panes;
            let seen = if at != t->active {
                panes[t->active as int]
            } else if at + 1 < panes.len() {
                panes[at + 1]
            } else {
                panes[at - 1]
            };
            &&& t.closed(panes[at]).visible() == seq![seen]
            &&& t.focus_after_close(panes[at]) == Some(seen)
            &&& t.closed(panes[at]).ids() == panes.remove(at)
        }),
{
    let panes = t->panes;
    let id = panes[at];
    lemma_position(panes, id);
    assert(panes.contains(id));
    assert(is_first(panes, id, at)) by {
        assert forall|j: int| 0 <= j < at implies panes[j] != id by {
            assert(panes[j] != panes[at]);
        }
    }
    let left = t.closed(id);
    assert(left->panes == panes.remove(at));
}

/// The names of the panes that stay go with them when one of a stack is closed.
pub proof fn law_closing_in_a_stack_keeps_the_names(t: Tree, at: int, other: int)
    requires
        t is Stack,
        t->panes.no_duplicates(),
        t->names.len() == t->panes.len(),
        t->custom_names.len() == t->panes.len(),
        0 <= at < t->panes.len(),
        0 <= other < t->panes.len(),
        at != other,
    ensures
        ({
            let id = t->panes[other];
            let left = t.closed(t->panes[at]);
            &&& left.name_of(id) == t.name_of(id)
            &&& left.custom_name_of(id) == t.custom_name_of(id)
        }),
{
    let panes = t->panes;
    let id = panes[other];
    let gone = panes[at];
    lemma_place(panes, at);
    lemma_place(panes, other);
    let rest = panes.remove(at);
    let k = if other < at {
        other
    } else {
        other - 1
    };
    assert(rest.no_duplicates()) by {
        assert forall|i: int, j: int|
            0 <= i < rest.len() && 0 <= j < rest.len() && i != j implies rest[i] != rest[j] by {
            let a = if i < at {
                i
            } else {
                i + 1
            };
            let b = if j < at {
                j
            } else {
                j + 1
            };
            assert(panes[a] != panes[b]);
        }
    }
    assert(rest[k] == id);
    lemma_place(rest, k);
    let left = t.closed(gone);
    assert(left->panes == rest);
}

proof fn lemma_place(s: Seq<PaneId>, i: int)
    requires
        s.no_duplicates(),
        0 <= i < s.len(),
    ensures
        position(s, s[i]) == Some(i),
        s.contains(s[i]),
{
    lemma_position(s, s[i]);
    assert(is_first(s, s[i], i)) by {
        assert forall|j: int| 0 <= j < i implies s[j] != s[i] by {}
    }
}

/// Closing a pane changes the arrangement at one place. Where its stack has other panes, the
/// stack stays where it is with those. Where it was alone, the other half of the split around
/// it takes the place of the whole split, and the focus goes there. Every split outside of
/// that place stays as it is.
pub proof fn law_a_closed_pane_leaves_its_place_to_its_neighbour(t: Tree, id: PaneId) -> (path: Seq<
    bool,
>)
    requires
        t.wf(),
        t.no_empty_stack(),
        t.has(id),
        t.ids().no_duplicates(),
        t.ids().len() > 1,
    ensures
        ({
            let now = t.closed(id);
            &&& match part(t, path) {
                Some(Tree::Stack { panes, .. }) => {
                    &&& panes.len() > 1 && panes.contains(id)
                    &&& part(now, path) matches Some(Tree::Stack { panes: left, .. })
                        && left.len() == panes.len() - 1 && !left.contains(id) && (
                    t.focus_after_close(id) matches Some(f) && left.contains(f))
                },
                Some(Tree::Split { first, second, .. }) => {
                    ||| first.ids() == seq![id] && part(now, path) == Some(*second) && (
                    t.focus_after_close(id) matches Some(f) && second.visible().contains(f))
                    ||| second.ids() == seq![id] && part(now, path) == Some(*first) && (
                    t.focus_after_close(id) matches Some(f) && first.visible().contains(f))
                },
                None => false,
            }
            &&& forall|q: Seq<bool>|
                #[trigger] q.is_prefix_of(path) && q.len() < path.len() ==> cut_alike(
                    part(t, q),
                    part(now, q),
                )
            &&& forall|q: Seq<bool>|
                !q.is_prefix_of(path) && !path.is_prefix_of(q) ==> #[trigger] part(now, q) == part(
                    t,
                    q,
                )
        }),
{
    let path = lemma_closed_at(t, id);
    let now = t.closed(id);
    assert forall|q: Seq<bool>|
        #[trigger] q.is_prefix_of(path) && q.len() < path.len() implies cut_alike(
        part(t, q),
        part(now, q),
    ) by {
        lemma_on_the_way(t, now, path, q);
    }
    assert forall|q: Seq<bool>|
        !q.is_prefix_of(path) && !path.is_prefix_of(q) implies #[trigger] part(now, q) == part(
        t,
        q,
    ) by {
        lemma_elsewhere(t, now, path, q);
    }
    path
}

proof fn lemma_closed_at(t: Tree, id: PaneId) -> (path: Seq<bool>)
    requires
        t.wf(),
        t.no_empty_stack(),
        t.has(id),
        t.ids().no_duplicates(),
        t.ids().len() > 1,
    ensures
        ({
            let now = t.closed(id);
            &&& same_but_at(t, now, path)
            &&& match part(t, path) {
                Some(Tree::Stack { panes, .. }) => {
                    &&& panes.len() > 1 && panes.contains(id)
                    &&& part(now, path) matches Some(Tree::Stack { panes: left, .. })
                        && left.len() == panes.len() - 1 && !left.contains(id) && (
                    t.focus_after_close(id) matches Some(f) && left.contains(f))
                },
                Some(Tree::Split { first, second, .. }) => {
                    ||| first.ids() == seq![id] && part(now, path) == Some(*second) && (
                    t.focus_after_close(id) matches Some(f) && second.visible().contains(f))
                    ||| second.ids() == seq![id] && part(now, path) == Some(*first) && (
                    t.focus_after_close(id) matches Some(f) && first.visible().contains(f))
                },
                None => false,
            }
        }),
    decreases t,
{
    let now = t.closed(id);
    lemma_closing_keeps_the_order(t, id);
    match t {
        Tree::Stack { panes, .. } => {
            let pos = position(panes, id)->0;
            lemma_position(panes, id);
            let left = panes.remove(pos);
            assert(now->panes == left);
            assert(!left.contains(id)) by {
                if left.contains(id) {
                    let k = choose|k: int| 0 <= k < left.len() && left[k] == id;
                    let j = if k < pos {
                        k
                    } else {
                        k + 1
                    };
                    assert(panes[j] == panes[pos]);
                }
            }
            let f = t.focus_after_close(id)->0;
            lemma_visible_is_held(now, f);
            Seq::empty()
        },
        Tree::Split { direction, ratio, first, second } => {
            lemma_apart(first.ids(), second.ids(), id);
            law_has_is_membership(*first, id);
            law_has_is_membership(*second, id);
            lemma_front(*first);
            lemma_front(*second);
            let in_first = first.has(id);
            let half = if in_first {
                *first
            } else {
                *second
            };
            lemma_closing_keeps_the_order(half, id);
            if half.focus_after_close(id) is Some {
                let rest = lemma_closed_at(half, id);
                let path = seq![!in_first] + rest;
                assert(path.skip(1) =~= rest);
                path
            } else {
                assert(half.ids().len() == 1);
                assert(half.ids() =~= seq![id]);
                Seq::empty()
            }
        },
    }
}

// ---------------------------------------------------------------------------
// Neighbours
// ---------------------------------------------------------------------------

/// The neighbour in a direction is another visible pane whose centre lies strictly that way,
/// and no pane that way has a centre nearer by. Where there is such a pane, one is found.
pub proof fn law_a_neighbour_is_the_nearest_that_way(
    t: Tree,
    area: Rect,
    gap: u16,
    id: PaneId,
    direction: FocusDirection,
    r: Option<PaneId>,
    i: int,
)
    requires
        is_neighbor(placed(t, area, gap), id, direction, r),
        t.ids().no_duplicates(),
        0 <= i < placed(t, area, gap).len(),
        placed(t, area, gap)[i].0 == id,
    ensures
        ({
            let p = placed(t, area, gap);
            let from = p[i].1;
            let dx = |b: Rect| (2 * b.x + b.width) - (2 * from.x + from.width);
            let dy = |b: Rect| (2 * b.y + b.height) - (2 * from.y + from.height);
            let that_way = |b: Rect|
                match direction {
                    FocusDirection::Left => dx(b) < 0,
                    FocusDirection::Right => dx(b) > 0,
                    FocusDirection::Up => dy(b) < 0,
                    FocusDirection::Down => dy(b) > 0,
                };
            match r {
                Some(found) => exists|j: int|
                    #![trigger p[j]]
                    {
                        &&& 0 <= j < p.len() && p[j].0 == found && found != id
                        &&& that_way(p[j].1)
                        &&& forall|k: int|
                            #![trigger p[k]]
                            0 <= k < p.len() && that_way(p[k].1) ==> dx(p[j].1) * dx(p[j].1) + dy(
                                p[j].1,
                            ) * dy(p[j].1) <= dx(p[k].1) * dx(p[k].1) + dy(p[k].1) * dy(p[k].1)
                    },
                None => forall|k: int|
                    #![trigger p[k]]
                    0 <= k < p.len() ==> !that_way(p[k].1),
            }
        }),
{
    let p = placed(t, area, gap);
    let from = p[i].1;
    crate::geometry::law_rects_list_the_visible_panes(t, area, gap);
    lemma_visible_once(t);
    assert(first_entry(p, id, i)) by {
        assert forall|j: int| 0 <= j < i implies (#[trigger] p[j]).0 != id by {
            assert(t.visible()[j] != t.visible()[i]);
        }
    }
    assert forall|k: int| 0 <= k < p.len() && k != i implies (#[trigger] p[k]).0 != id by {
        assert(t.visible()[k] != t.visible()[i]);
    }
    match r {
        Some(found) => {
            let (c, j) = choose|c: int, j: int| #[trigger]
                first_entry(p, id, c) && #[trigger] nearest(p, p[c].1, id, direction, j) && p[j].0
                    == found;
            assert(c == i);
            assert(candidate(p, from, id, direction, j));
            assert forall|k: int|
                #![trigger p[k]]
                0 <= k < p.len() && crate::geometry::lies_towards(
                    from,
                    p[k].1,
                    direction,
                ) implies crate::geometry::distance(from, p[j].1) <= crate::geometry::distance(
                from,
                p[k].1,
            ) by {
                assert(candidate(p, from, id, direction, k));
            }
            assert(p[j].0 == found);
        },
        None => {
            assert forall|k: int| #![trigger p[k]] 0 <= k < p.len() implies !(
            crate::geometry::lies_towards(from, p[k].1, direction)) by {
                assert(!candidate(p, p[i].1, id, direction, k));
            }
        },
    }
}

proof fn lemma_visible_once(t: Tree)
    requires
        t.ids().no_duplicates(),
    ensures
        t.visible().no_duplicates(),
    decreases t,
{
    match t {
        Tree::Split { first, second, .. } => {
            lemma_apart(first.ids(), second.ids(), 0);
            lemma_visible_once(*first);
            lemma_visible_once(*second);
            let a = first.visible();
            let b = second.visible();
            let all = a + b;
            assert forall|i: int, j: int|
                0 <= i < all.len() && 0 <= j < all.len() && i != j implies all[i] != all[j] by {
                if i < a.len() && j >= a.len() {
                    assert(a.contains(a[i]) && b.contains(b[j - a.len()]));
                    lemma_visible_is_held(*first, a[i]);
                    lemma_visible_is_held(*second, b[j - a.len()]);
                    lemma_apart(first.ids(), second.ids(), a[i]);
                } else if j < a.len() && i >= a.len() {
                    assert(a.contains(a[j]) && b.contains(b[i - a.len()]));
                    lemma_visible_is_held(*first, a[j]);
                    lemma_visible_is_held(*second, b[i - a.len()]);
                    lemma_apart(first.ids(), second.ids(), a[j]);
                }
            }
        },
        Tree::Stack { .. } => {},
    }
}

proof fn lemma_part_within(t: Tree, id: PaneId, path: Seq<bool>)
    requires
        part(t, path) matches Some(p) && p.has(id),
    ensures
        t.has(id),
        part(t, path)->0.ids().len() <= t.ids().len(),
    decreases path.len(),
{
    if path.len() > 0 {
        match t {
            Tree::Split { first, second, .. } => {
                if path[0] {
                    lemma_part_within(*second, id, path.skip(1));
                } else {
                    lemma_part_within(*first, id, path.skip(1));
                }
            },
            Tree::Stack { .. } => {},
        }
    }
}

/// When a pane is closed, the focus stays as near as it can: in every part of the arrangement
/// around the pane that has another pane in it.
pub proof fn law_the_focus_stays_near_the_closed_pane(t: Tree, id: PaneId, path: Seq<bool>)
    requires
        t.wf(),
        t.no_empty_stack(),
        t.ids().no_duplicates(),
        part(t, path) matches Some(p) && p.has(id) && p.ids().len() > 1,
    ensures
        t.focus_after_close(id) is Some,
        part(t, path)->0.has(t.focus_after_close(id)->0),
    decreases path.len(),
{
    lemma_part_within(t, id, path);
    law_closing_removes_one_pane(t, id);
    if path.len() == 0 {
        let f = t.focus_after_close(id)->0;
        law_has_is_membership(t.closed(id), f);
        law_has_is_membership(t, f);
        lemma_position(t.ids(), id);
        let at = position(t.ids(), id)->0;
        let left = t.closed(id).ids();
        let j = choose|j: int| 0 <= j < left.len() && left[j] == f;
        if j < at {
            assert(t.ids()[j] == f);
        } else {
            assert(t.ids()[j + 1] == f);
        }
    } else {
        match t {
            Tree::Split { first, second, .. } => {
                let rest = path.skip(1);
                let a = first.ids();
                let b = second.ids();
                assert(t.ids() == a + b);
                assert(a.no_duplicates()) by {
                    assert forall|i: int, j: int| 0 <= i < j < a.len() implies a[i] != a[j] by {
                        assert(t.ids()[i] != t.ids()[j]);
                    }
                }
                assert(b.no_duplicates()) by {
                    assert forall|i: int, j: int| 0 <= i < j < b.len() implies b[i] != b[j] by {
                        assert(t.ids()[a.len() + i] != t.ids()[a.len() + j]);
                    }
                }
                if path[0] {
                    lemma_part_within(*second, id, rest);
                    law_has_is_membership(*first, id);
                    law_has_is_membership(*second, id);
                    if first.has(id) {
                        let i = choose|i: int| 0 <= i < a.len() && a[i] == id;
                        let j = choose|j: int| 0 <= j < b.len() && b[j] == id;
                        assert(t.ids()[i] != t.ids()[a.len() + j]);
                    }
                    law_the_focus_stays_near_the_closed_pane(*second, id, rest);
                } else {
                    lemma_part_within(*first, id, rest);
                    law_the_focus_stays_near_the_closed_pane(*first, id, rest);
                }
            },
            Tree::Stack { .. } => {},
        }
    }
}

} // verus!
