//! What holds of the layout tree whatever is done to it.

use crate::layout::{
    get_or, is_first, lemma_position, lone, position, put_padded, Direction, PaneId, Tree,
};
use crate::layout_modes::{
    bsp_from, every_other, grid_columns, line_from, master_at, master_tree, rows_from, stepped,
    LayoutAlgorithm, LayoutMode,
};
use crate::ratio::{nudged, MAX_RATIO_UNITS, MIN_RATIO_UNITS};
use vstd::multiset::Multiset;
use vstd::prelude::*;
use vstd::seq_lib::lemma_multiset_commutative;

verus! {

broadcast use vstd::seq_lib::group_to_multiset_ensures;

/// What happens to the panes of one stack happens to the panes of the tree.
proof fn lemma_stack_change(
    t: Tree,
    id: PaneId,
    f: spec_fn(Tree) -> Tree,
    extra: Multiset<PaneId>,
)
    requires
        t.has(id),
        forall|s: Tree|
            s is Stack && s.has(id) ==> (#[trigger] f(s)).ids().to_multiset()
                == s.ids().to_multiset().add(extra),
    ensures
        t.with_stack(id, f).ids().to_multiset() == t.ids().to_multiset().add(extra),
    decreases t,
{
    match t {
        Tree::Split { first, second, .. } => {
            lemma_multiset_commutative(first.ids(), second.ids());
            if first.has(id) {
                lemma_stack_change(*first, id, f, extra);
                let changed = first.with_stack(id, f);
                lemma_multiset_commutative(changed.ids(), second.ids());
                assert(changed.ids().to_multiset().add(second.ids().to_multiset())
                    =~= first.ids().to_multiset().add(second.ids().to_multiset()).add(extra));
            } else {
                lemma_stack_change(*second, id, f, extra);
                let changed = second.with_stack(id, f);
                lemma_multiset_commutative(first.ids(), changed.ids());
                assert(first.ids().to_multiset().add(changed.ids().to_multiset())
                    =~= first.ids().to_multiset().add(second.ids().to_multiset()).add(extra));
            }
        },
        Tree::Stack { .. } => {},
    }
}

proof fn lemma_one(id: PaneId)
    ensures
        seq![id].to_multiset() == Multiset::<PaneId>::singleton(id),
        lone(id).ids() == seq![id],
        lone(id).wf(),
        lone(id).no_empty_stack(),
{
    let none = Seq::<PaneId>::empty();
    assert(none.push(id) =~= seq![id]);
    assert(none.to_multiset() =~= Multiset::empty());
    assert(none.to_multiset().insert(id) =~= Multiset::singleton(id));
}

/// Splitting a pane's stack adds the new pane and keeps every other one.
pub proof fn law_split_adds_one_pane(
    t: Tree,
    target: PaneId,
    new: PaneId,
    direction: Direction,
)
    requires
        t.has(target),
    ensures
        t.split_at(target, new, direction).ids().to_multiset() == t.ids().to_multiset().insert(new),
{
    let f = |s: Tree|
        Tree::Split {
            direction,
            ratio: crate::ratio::Ratio { units: crate::ratio::HALF_UNITS },
            first: Box::new(s),
            second: Box::new(lone(new)),
        };
    let extra = Multiset::singleton(new);
    assert forall|s: Tree| s is Stack && s.has(target) implies (#[trigger] f(s)).ids().to_multiset()
        == s.ids().to_multiset().add(extra) by {
        lemma_one(new);
        lemma_multiset_commutative(s.ids(), lone(new).ids());
    }
    lemma_stack_change(t, target, f, extra);
    assert(t.ids().to_multiset().add(extra) =~= t.ids().to_multiset().insert(new));
    assert(t.split_at(target, new, direction) == t.with_stack(target, f));
}

/// Adding a pane to a stack adds that pane and keeps every other one.
pub proof fn law_stacking_adds_one_pane(t: Tree, target: PaneId, new: PaneId)
    requires
        t.has(target),
    ensures
        t.stacked(target, new).ids().to_multiset() == t.ids().to_multiset().insert(new),
{
    let f = |s: Tree| s.pushed(new);
    let extra = Multiset::singleton(new);
    assert forall|s: Tree| s is Stack && s.has(target) implies (#[trigger] f(s)).ids().to_multiset()
        == s.ids().to_multiset().add(extra) by {
        assert(s.ids().to_multiset().insert(new) =~= s.ids().to_multiset().add(extra));
    }
    lemma_stack_change(t, target, f, extra);
    assert(t.ids().to_multiset().add(extra) =~= t.ids().to_multiset().insert(new));
    assert(t.stacked(target, new) == t.with_stack(target, f));
}

/// A tree that a stack was changed in stays well-formed if the stack does.
proof fn lemma_stack_change_wf(t: Tree, id: PaneId, f: spec_fn(Tree) -> Tree)
    requires
        t.wf(),
        forall|s: Tree| s is Stack && s.has(id) && s.wf() ==> (#[trigger] f(s)).wf(),
    ensures
        t.with_stack(id, f).wf(),
    decreases t,
{
    match t {
        Tree::Split { first, second, .. } => {
            if first.has(id) {
                lemma_stack_change_wf(*first, id, f);
            } else {
                lemma_stack_change_wf(*second, id, f);
            }
        },
        Tree::Stack { .. } => {},
    }
}

/// Splitting, stacking and turning a stack leave the visible index of every stack
/// in range.
pub proof fn law_operations_keep_the_tree_well_formed(
    t: Tree,
    id: PaneId,
    new: PaneId,
    direction: Direction,
    forward: bool,
)
    requires
        t.wf(),
    ensures
        t.split_at(id, new, direction).wf(),
        t.stacked(id, new).wf(),
        t.turned(id, forward).wf(),
        t.activated(id).wf(),
{
    let split = |s: Tree|
        Tree::Split {
            direction,
            ratio: crate::ratio::Ratio { units: crate::ratio::HALF_UNITS },
            first: Box::new(s),
            second: Box::new(lone(new)),
        };
    lemma_one(new);
    lemma_stack_change_wf(t, id, split);
    assert(t.split_at(id, new, direction) == t.with_stack(id, split));
    let push = |s: Tree| s.pushed(new);
    lemma_stack_change_wf(t, id, push);
    assert(t.stacked(id, new) == t.with_stack(id, push));
    let turn = |s: Tree|
        if s.height() <= 1 {
            s
        } else {
            s.showing(if forward {
                s.after(id)
            } else {
                s.before(id)
            })
        };
    assert forall|s: Tree| s is Stack && s.has(id) && s.wf() implies (#[trigger] turn(s)).wf() by {
        lemma_position(s->panes, id);
    }
    lemma_stack_change_wf(t, id, turn);
    assert(t.turned(id, forward) == t.with_stack(id, turn));
    lemma_activated(t, id);
}

proof fn lemma_activated(t: Tree, id: PaneId)
    ensures
        t.wf() ==> t.activated(id).wf(),
        t.activated(id).ids() == t.ids(),
    decreases t,
{
    match t {
        Tree::Split { first, second, .. } => {
            lemma_activated(*first, id);
            lemma_activated(*second, id);
        },
        Tree::Stack { panes, .. } => {
            lemma_position(panes, id);
        },
    }
}

/// A pane that was activated is among the visible ones.
pub proof fn law_an_activated_pane_is_visible(t: Tree, id: PaneId)
    requires
        t.has(id),
    ensures
        t.activated(id).visible().contains(id),
        t.activated(id).ids() == t.ids(),
    decreases t,
{
    lemma_activated(t, id);
    match t {
        Tree::Split { first, second, .. } => {
            let a = first.activated(id).visible();
            let b = second.activated(id).visible();
            if first.has(id) {
                law_an_activated_pane_is_visible(*first, id);
                let i = choose|i: int| 0 <= i < a.len() && a[i] == id;
                assert((a + b)[i] == id);
            } else {
                law_an_activated_pane_is_visible(*second, id);
                let i = choose|i: int| 0 <= i < b.len() && b[i] == id;
                assert((a + b)[a.len() + i] == id);
            }
        },
        Tree::Stack { panes, .. } => {
            lemma_position(panes, id);
            let pos = position(panes, id)->0;
            assert(t.activated(id).visible()[0] == id);
        },
    }
}

/// A tree without empty stacks shows something.
pub(crate) proof fn lemma_front(t: Tree)
    requires
        t.wf(),
        t.no_empty_stack(),
    ensures
        t.front() is Some,
        t.has(t.front()->0),
        t.visible().contains(t.front()->0),
        t.ids().len() > 0,
    decreases t,
{
    match t {
        Tree::Split { first, second, .. } => {
            lemma_front(*first);
            lemma_front(*second);
            lemma_in_sum(first.visible(), second.visible(), t.front()->0);
        },
        Tree::Stack { panes, active, .. } => {
            assert(panes[active as int] == t.front()->0);
            assert(t.visible()[0] == t.front()->0);
        },
    }
}

proof fn lemma_has_count(t: Tree, id: PaneId)
    ensures
        t.has(id) ==> t.ids().to_multiset().count(id) > 0,
{
    crate::layout::law_has_is_membership(t, id);
    t.ids().to_multiset_ensures();
}

proof fn lemma_position_in_sum(a: Seq<PaneId>, b: Seq<PaneId>, id: PaneId)
    ensures
        a.contains(id) ==> position(a + b, id) == position(a, id),
        !a.contains(id) && b.contains(id) ==> position(a + b, id) is Some && position(a + b, id)->0
            == a.len() + position(b, id)->0,
{
    lemma_position(a, id);
    lemma_position(b, id);
    lemma_position(a + b, id);
    if a.contains(id) {
        let i = position(a, id)->0;
        assert((a + b)[i] == id);
        assert(is_first(a + b, id, i));
    } else if b.contains(id) {
        let i = position(b, id)->0;
        assert((a + b)[a.len() + i] == id);
        assert forall|j: int| 0 <= j < a.len() + i implies (a + b)[j] != id by {
            if j < a.len() {
                assert((a + b)[j] == a[j]);
            } else {
                assert((a + b)[j] == b[j - a.len()]);
            }
        }
        assert(is_first(a + b, id, a.len() + i));
    }
}

/// What closing does to the order of the panes and to what is visible.
pub(crate) proof fn lemma_closing_keeps_the_order(t: Tree, id: PaneId)
    requires
        t.wf(),
        t.no_empty_stack(),
        t.has(id),
    ensures
        position(t.ids(), id) is Some,
        0 <= position(t.ids(), id)->0 < t.ids().len(),
        t.closed(id).ids() == t.ids().remove(position(t.ids(), id)->0),
        t.focus_after_close(id) is Some == (t.ids().len() > 1),
        t.focus_after_close(id) matches Some(p) ==> t.closed(id).visible().contains(p),
    decreases t,
{
    crate::layout::law_has_is_membership(t, id);
    lemma_position(t.ids(), id);
    match t {
        Tree::Stack { panes, .. } => {
            let pos = position(panes, id)->0;
            let rest = t.closed(id);
            assert(rest->panes == panes.remove(pos));
            if panes.len() > 1 {
                assert(rest.visible()[0] == t.focus_after_close(id)->0);
            }
        },
        Tree::Split { first, second, .. } => {
            let a = first.ids();
            let b = second.ids();
            lemma_front(*first);
            lemma_front(*second);
            lemma_position_in_sum(a, b, id);
            crate::layout::law_has_is_membership(*first, id);
            crate::layout::law_has_is_membership(*second, id);
            let rest = t.closed(id);
            if first.has(id) {
                lemma_closing_keeps_the_order(*first, id);
                let i = position(a, id)->0;
                assert((a + b).remove(i) =~= a.remove(i) + b);
                if first.focus_after_close(id) is Some {
                    lemma_in_sum(
                        first.closed(id).visible(),
                        second.visible(),
                        t.focus_after_close(id)->0,
                    );
                } else {
                    assert(a.remove(i) + b =~= b);
                }
            } else {
                lemma_closing_keeps_the_order(*second, id);
                let i = position(b, id)->0;
                assert((a + b).remove(a.len() + i) =~= a + b.remove(i));
                if second.focus_after_close(id) is Some {
                    lemma_in_sum(
                        first.visible(),
                        second.closed(id).visible(),
                        t.focus_after_close(id)->0,
                    );
                } else {
                    assert(a + b.remove(i) =~= a);
                }
            }
        },
    }
}

proof fn lemma_in_sum(a: Seq<PaneId>, b: Seq<PaneId>, id: PaneId)
    requires
        a.contains(id) || b.contains(id),
    ensures
        (a + b).contains(id),
{
    if a.contains(id) {
        let i = choose|i: int| 0 <= i < a.len() && a[i] == id;
        assert((a + b)[i] == id);
    } else {
        let i = choose|i: int| 0 <= i < b.len() && b[i] == id;
        assert((a + b)[a.len() + i] == id);
    }
}

/// Closing a pane removes that pane and no other, and the others keep their order. The
/// focus goes to a pane that is visible, and only a tree of that one pane is left with
/// nothing to show.
pub proof fn law_closing_removes_one_pane(t: Tree, id: PaneId)
    requires
        t.wf(),
        t.no_empty_stack(),
        t.has(id),
    ensures
        t.closed(id).wf(),
        t.focus_after_close(id) is Some == (t.ids().len() > 1),
        t.focus_after_close(id) matches Some(p) ==> t.closed(id).no_empty_stack() && t.closed(
            id,
        ).has(p) && t.closed(id).visible().contains(p),
        t.closed(id).ids().to_multiset() == t.ids().to_multiset().remove(id),
        position(t.ids(), id) is Some,
        t.closed(id).ids() == t.ids().remove(position(t.ids(), id)->0),
    decreases t,
{
    lemma_closing_keeps_the_order(t, id);
    match t {
        Tree::Stack { panes, names, custom_names, active } => {
            lemma_position(panes, id);
            let pos = position(panes, id)->0;
            let rest = t.closed(id);
            assert(rest->panes == panes.remove(pos));
            if panes.len() > 1 {
                assert(rest->panes[rest->active as int] == t.focus_after_close(id)->0);
            }
        },
        Tree::Split { direction, ratio, first, second } => {
            lemma_front(*first);
            lemma_front(*second);
            lemma_multiset_commutative(first.ids(), second.ids());
            if first.has(id) {
                law_closing_removes_one_pane(*first, id);
                lemma_has_count(*first, id);
                let rest = first.closed(id);
                if first.focus_after_close(id) is Some {
                    lemma_multiset_commutative(rest.ids(), second.ids());
                } else {
                    assert(first.ids().len() == 1);
                    first.ids().to_multiset_ensures();
                    assert(rest.ids().to_multiset().len() == 0);
                    assert(rest.ids().to_multiset() =~= Multiset::empty());
                }
                assert(rest.ids().to_multiset().add(second.ids().to_multiset())
                    =~= t.ids().to_multiset().remove(id));
                assert(t.closed(id).ids().to_multiset() =~= t.ids().to_multiset().remove(id));
            } else {
                law_closing_removes_one_pane(*second, id);
                lemma_has_count(*second, id);
                let rest = second.closed(id);
                if second.focus_after_close(id) is Some {
                    lemma_multiset_commutative(first.ids(), rest.ids());
                } else {
                    assert(second.ids().len() == 1);
                    second.ids().to_multiset_ensures();
                    assert(rest.ids().to_multiset().len() == 0);
                    assert(rest.ids().to_multiset() =~= Multiset::empty());
                }
                assert(first.ids().to_multiset().add(rest.ids().to_multiset())
                    =~= t.ids().to_multiset().remove(id));
                assert(t.closed(id).ids().to_multiset() =~= t.ids().to_multiset().remove(id));
            }
        },
    }
}

/// Closing undoes a split: closing the pane that a split added gives the tree that was
/// split, and the focus returns to the visible pane of the stack that was split.
pub proof fn law_closing_undoes_a_split(
    t: Tree,
    target: PaneId,
    new: PaneId,
    direction: Direction,
)
    requires
        t.wf(),
        t.no_empty_stack(),
        t.has(target),
        !t.has(new),
    ensures
        t.split_at(target, new, direction).has(new),
        t.split_at(target, new, direction).closed(new) == t,
        t.split_at(target, new, direction).focus_after_close(new) == t.stack_of(target)->0.front(),
        t.stack_of(target)->0.front() is Some,
    decreases t,
{
    let f = |s: Tree|
        Tree::Split {
            direction,
            ratio: crate::ratio::Ratio { units: crate::ratio::HALF_UNITS },
            first: Box::new(s),
            second: Box::new(lone(new)),
        };
    assert(t.split_at(target, new, direction) == t.with_stack(target, f));
    match t {
        Tree::Split { first, second, .. } => {
            if first.has(target) {
                law_closing_undoes_a_split(*first, target, new, direction);
                assert(first.split_at(target, new, direction) == first.with_stack(target, f));
            } else {
                law_closing_undoes_a_split(*second, target, new, direction);
                assert(second.split_at(target, new, direction) == second.with_stack(target, f));
            }
        },
        Tree::Stack { .. } => {
            let one = lone(new);
            lemma_front(t);
            assert(one->panes[0] == new);
            lemma_position(one->panes, new);
            assert(one.without_at(0)->panes =~= Seq::<PaneId>::empty());
            assert(one.focus_after_close(new) is None);
        },
    }
}

/// A display name that was set is the one that is read back, and the names of
/// other panes stay as they were.
pub proof fn law_a_name_set_is_the_name_read(t: Tree, id: PaneId, other: PaneId, name: Seq<char>)
    ensures
        t.has(id) ==> t.named(id, name).name_of(id) == Some(name),
        other != id ==> t.named(id, name).name_of(other) == t.name_of(other),
        t.named(id, name).custom_name_of(other) == t.custom_name_of(other),
        t.named(id, name).has(other) == t.has(other),
    decreases t,
{
    match t {
        Tree::Split { first, second, .. } => {
            law_a_name_set_is_the_name_read(*first, id, other, name);
            law_a_name_set_is_the_name_read(*second, id, other, name);
            law_a_name_set_is_the_name_read(*first, id, id, name);
            law_a_name_set_is_the_name_read(*second, id, id, name);
        },
        Tree::Stack { panes, names, .. } => {
            lemma_position(panes, id);
            lemma_position(panes, other);
            if panes.contains(id) {
                let pos = position(panes, id)->0;
                let after = put_padded(names, pos, Seq::empty(), name);
                assert(get_or(after, pos, Seq::empty()) == name);
                if other != id && panes.contains(other) {
                    let at = position(panes, other)->0;
                    assert(at != pos);
                    assert(get_or(after, at, Seq::empty()) == get_or(names, at, Seq::empty()));
                }
            }
        },
    }
}

/// A name of the user's own that was set is the one that is read back, and the
/// names of other panes stay as they were.
pub proof fn law_a_custom_name_set_is_the_name_read(
    t: Tree,
    id: PaneId,
    other: PaneId,
    name: Seq<char>,
)
    ensures
        t.has(id) ==> t.custom_named(id, name).custom_name_of(id) == Some(Some(name)),
        other != id ==> t.custom_named(id, name).custom_name_of(other) == t.custom_name_of(other),
        t.custom_named(id, name).name_of(other) == t.name_of(other),
        t.custom_named(id, name).has(other) == t.has(other),
    decreases t,
{
    match t {
        Tree::Split { first, second, .. } => {
            law_a_custom_name_set_is_the_name_read(*first, id, other, name);
            law_a_custom_name_set_is_the_name_read(*second, id, other, name);
            law_a_custom_name_set_is_the_name_read(*first, id, id, name);
            law_a_custom_name_set_is_the_name_read(*second, id, id, name);
        },
        Tree::Stack { panes, custom_names, .. } => {
            lemma_position(panes, id);
            lemma_position(panes, other);
            if panes.contains(id) {
                let pos = position(panes, id)->0;
                let after = put_padded(custom_names, pos, None, Some(name));
                assert(get_or(after, pos, None) == Some(name));
                if other != id && panes.contains(other) {
                    let at = position(panes, other)->0;
                    assert(at != pos);
                    assert(get_or(after, at, None) == get_or(custom_names, at, None));
                }
            }
        },
    }
}

/// Turning a stack on and back again returns to the pane that it was turned from.
pub proof fn law_turning_back_undoes_turning(t: Tree, id: PaneId, forward: bool)
    requires
        t.has(id),
        t.ids().no_duplicates(),
    ensures
        t.turned_to(id, forward) is Some,
        t.turned(id, forward).turned_to(t.turned_to(id, forward)->0, !forward) == Some(id),
        t.turned(id, forward).ids() == t.ids(),
        forall|x: PaneId| #[trigger] t.turned(id, forward).has(x) == t.has(x),
        t.has(t.turned_to(id, forward)->0),
    decreases t,
{
    let next = t.turned_to(id, forward)->0;
    match t {
        Tree::Split { first, second, .. } => {
            let a = first.ids();
            let b = second.ids();
            assert(a.no_duplicates()) by {
                assert forall|i: int, j: int| 0 <= i < a.len() && 0 <= j < a.len() && i
                    != j implies a[i] != a[j] by {
                    assert((a + b)[i] == a[i] && (a + b)[j] == a[j]);
                }
            }
            assert(b.no_duplicates()) by {
                assert forall|i: int, j: int| 0 <= i < b.len() && 0 <= j < b.len() && i
                    != j implies b[i] != b[j] by {
                    assert((a + b)[a.len() + i] == b[i] && (a + b)[a.len() + j] == b[j]);
                }
            }
            assert forall|x: PaneId| #[trigger] t.turned(id, forward).has(x) == t.has(x) by {
                if first.has(id) {
                    law_turning_back_undoes_turning(*first, id, forward);
                    assert(first.turned(id, forward).has(x) == first.has(x));
                } else {
                    law_turning_back_undoes_turning(*second, id, forward);
                    assert(second.turned(id, forward).has(x) == second.has(x));
                }
            }
            if first.has(id) {
                law_turning_back_undoes_turning(*first, id, forward);
            } else {
                law_turning_back_undoes_turning(*second, id, forward);
                crate::layout::law_has_is_membership(*first, next);
                crate::layout::law_has_is_membership(*second, next);
                if first.has(next) {
                    let i = choose|i: int| 0 <= i < a.len() && a[i] == next;
                    let j = choose|j: int| 0 <= j < b.len() && b[j] == next;
                    assert((a + b)[i] == (a + b)[a.len() + j]);
                }
            }
        },
        Tree::Stack { panes, .. } => {
            lemma_position(panes, id);
            lemma_position(panes, next);
            let pos = position(panes, id)->0;
            if panes.len() > 1 {
                let to = if forward {
                    t.after(id)
                } else {
                    t.before(id)
                };
                assert(panes[to] == next);
                assert(is_first(panes, next, to));
                let back = t.turned(id, forward);
                assert(back->panes == panes);
                if forward {
                    if pos + 1 == panes.len() {
                        assert((pos + 1) % (panes.len() as int) == 0) by (nonlinear_arith)
                            requires
                                pos + 1 == panes.len(),
                                pos >= 0,
                        ;
                    } else {
                        vstd::arithmetic::div_mod::lemma_small_mod(
                            (pos + 1) as nat,
                            panes.len(),
                        );
                    }
                    assert(back.before(next) == pos);
                } else {
                    if pos == 0 {
                        assert((to + 1) % (panes.len() as int) == 0) by (nonlinear_arith)
                            requires
                                to + 1 == panes.len(),
                                to >= 0,
                        ;
                    } else {
                        vstd::arithmetic::div_mod::lemma_small_mod((to + 1) as nat, panes.len());
                    }
                    assert(back.after(next) == pos);
                }
            }
        },
    }
}

/// Resizing moves no pane, and it leaves every ratio that it touches in range.
pub proof fn law_resizing_moves_no_pane(t: Tree, id: PaneId, direction: Direction, delta: int)
    ensures
        t.resized(id, direction, delta) matches Some(r) ==> r.ids() == t.ids() && r.visible()
            == t.visible() && t.has(id),
    decreases t,
{
    match t {
        Tree::Split { first, second, .. } => {
            law_resizing_moves_no_pane(*first, id, direction, delta);
            law_resizing_moves_no_pane(*second, id, direction, delta);
        },
        Tree::Stack { .. } => {},
    }
}

/// A split that a resize has touched keeps at least a tenth for either side.
pub proof fn law_a_nudged_ratio_stays_in_range(from: crate::ratio::Ratio, by: int)
    ensures
        MIN_RATIO_UNITS <= nudged(from, by).units <= MAX_RATIO_UNITS,
{
}

// ---------------------------------------------------------------------------
// Automatic layouts
// ---------------------------------------------------------------------------

proof fn lemma_bsp(panes: Seq<PaneId>, i: int)
    requires
        0 <= i < panes.len(),
    ensures
        bsp_from(panes, i).ids() == panes.skip(i),
        bsp_from(panes, i).wf(),
        bsp_from(panes, i).no_empty_stack(),
    decreases panes.len() - i,
{
    lemma_one(panes[i]);
    if i + 1 < panes.len() {
        lemma_bsp(panes, i + 1);
        assert(lone(panes[i]).ids() + panes.skip(i + 1) =~= panes.skip(i));
    } else {
        assert(lone(panes[i]).ids() =~= panes.skip(i));
    }
}

proof fn lemma_line(panes: Seq<PaneId>, i: int, direction: Direction)
    requires
        0 <= i < panes.len(),
    ensures
        line_from(panes, i, direction).ids() == panes.skip(i),
        line_from(panes, i, direction).wf(),
        line_from(panes, i, direction).no_empty_stack(),
    decreases panes.len() - i,
{
    lemma_one(panes[i]);
    if i + 1 < panes.len() {
        lemma_line(panes, i + 1, direction);
        assert(lone(panes[i]).ids() + panes.skip(i + 1) =~= panes.skip(i));
    } else {
        assert(lone(panes[i]).ids() =~= panes.skip(i));
    }
}

proof fn lemma_rows(panes: Seq<PaneId>, columns: nat, start: int)
    requires
        0 <= start < panes.len(),
    ensures
        rows_from(panes, columns, start).ids() == panes.skip(start),
        rows_from(panes, columns, start).wf(),
        rows_from(panes, columns, start).no_empty_stack(),
    decreases panes.len() - start,
{
    if columns == 0 || start + columns >= panes.len() {
        let row = panes.subrange(start, panes.len() as int);
        lemma_line(row, 0, Direction::Vertical);
        assert(row.skip(0) =~= panes.skip(start));
    } else {
        let row = panes.subrange(start, start + columns);
        lemma_line(row, 0, Direction::Vertical);
        lemma_rows(panes, columns, start + columns);
        assert(row.skip(0) + panes.skip(start + columns) =~= panes.skip(start));
    }
}

proof fn lemma_every_other(s: Seq<PaneId>)
    ensures
        every_other(s, 0).to_multiset().add(every_other(s, 1).to_multiset()) == s.to_multiset(),
    decreases s.len(),
{
    if s.len() == 0 {
        assert(every_other(s, 0) =~= s);
        assert(every_other(s, 1) =~= s);
        assert(s.to_multiset() =~= Multiset::empty());
        assert(every_other(s, 0).to_multiset().add(every_other(s, 1).to_multiset())
            =~= s.to_multiset());
    } else {
        let head = s.drop_last();
        lemma_every_other(head);
        assert(head.push(s.last()) =~= s);
        if s.len() % 2 == 1 {
            assert(every_other(s, 0) =~= every_other(head, 0).push(s.last()));
            assert(every_other(s, 1) =~= every_other(head, 1));
        } else {
            assert(every_other(s, 1) =~= every_other(head, 1).push(s.last()));
            assert(every_other(s, 0) =~= every_other(head, 0));
        }
        assert(every_other(s, 0).to_multiset().add(every_other(s, 1).to_multiset())
            =~= s.to_multiset());
    }
}

proof fn lemma_master(panes: Seq<PaneId>, idx: usize, share: crate::ratio::Ratio)
    requires
        panes.len() >= 2,
    ensures
        master_tree(panes, idx, share).ids().to_multiset() == panes.to_multiset(),
        master_tree(panes, idx, share).wf(),
        master_tree(panes, idx, share).no_empty_stack(),
{
    let at = master_at(idx, panes.len());
    let others = panes.remove(at);
    let t = master_tree(panes, idx, share);
    lemma_one(panes[at]);
    panes.to_multiset_ensures();
    assert(others.to_multiset() =~= panes.to_multiset().remove(panes[at]));
    assert(panes.to_multiset().count(panes[at]) > 0) by {
        assert(panes.contains(panes[at]));
    }
    if others.len() == 1 {
        lemma_one(others[0]);
        assert(others =~= seq![others[0]]);
        lemma_multiset_commutative(lone(panes[at]).ids(), lone(others[0]).ids());
        assert(t.ids().to_multiset() =~= panes.to_multiset());
    } else {
        let left = every_other(others, 0);
        let right = every_other(others, 1);
        lemma_every_other(others);
        lemma_line(left, 0, Direction::Horizontal);
        lemma_line(right, 0, Direction::Horizontal);
        assert(left.skip(0) =~= left);
        assert(right.skip(0) =~= right);
        let inner = *t->second;
        lemma_multiset_commutative(lone(panes[at]).ids(), right);
        assert(inner.ids() == lone(panes[at]).ids() + right);
        lemma_multiset_commutative(left, inner.ids());
        assert(t.ids() == left + inner.ids());
        assert(inner.wf() && inner.no_empty_stack());
        let sides = left.to_multiset().add(right.to_multiset());
        assert(sides == others.to_multiset());
        let whole = left.to_multiset().add(
            Multiset::singleton(panes[at]).add(right.to_multiset()),
        );
        assert(whole =~= sides.insert(panes[at]));
        assert(sides.insert(panes[at]) =~= panes.to_multiset());
    }
}

/// An automatic layout shows exactly the panes that it was given, each one as often
/// as it was given, and leaves no stack empty.
pub proof fn law_a_built_tree_holds_exactly_its_panes(
    mode: LayoutMode,
    panes: Seq<PaneId>,
    active: PaneId,
)
    requires
        panes.len() > 0,
    ensures
        mode.tree(panes, active).ids().to_multiset() == panes.to_multiset(),
        mode.tree(panes, active).wf(),
        mode.tree(panes, active).no_empty_stack(),
{
    match mode {
        LayoutMode::Bsp(_) => {
            lemma_bsp(panes, 0);
            assert(panes.skip(0) =~= panes);
        },
        LayoutMode::Custom(_) => {
            lemma_bsp(panes, 0);
            assert(panes.skip(0) =~= panes);
        },
        LayoutMode::Grid(_) => {
            lemma_rows(panes, grid_columns(panes.len()), 0);
            assert(panes.skip(0) =~= panes);
        },
        LayoutMode::Monocle(_) => {
            lemma_position(panes, active);
        },
        LayoutMode::Master(m) => {
            if panes.len() == 1 {
                assert(panes =~= seq![panes[0]]);
            } else {
                lemma_master(panes, m.master_idx, m.master_ratio);
            }
        },
    }
}

/// Every automatic layout but the master one keeps the panes in their order.
pub proof fn law_a_built_tree_keeps_the_order(
    mode: LayoutMode,
    panes: Seq<PaneId>,
    active: PaneId,
)
    requires
        panes.len() > 0,
        !(mode is Master),
    ensures
        mode.tree(panes, active).ids() == panes,
{
    match mode {
        LayoutMode::Bsp(_) => {
            lemma_bsp(panes, 0);
        },
        LayoutMode::Custom(_) => {
            lemma_bsp(panes, 0);
        },
        LayoutMode::Grid(_) => {
            lemma_rows(panes, grid_columns(panes.len()), 0);
        },
        _ => {},
    }
    assert(panes.skip(0) =~= panes);
}

/// Stepping through the layouts comes round: after four steps from Bsp the mode is
/// Bsp again, or the user's own arrangement where there is one to return to.
pub proof fn law_stepping_comes_round(current: LayoutMode, saved: bool)
    requires
        current is Bsp,
    ensures
        ({
            let back = stepped(stepped(stepped(stepped(current, saved), saved), saved), saved);
            if saved {
                back is Custom && stepped(back, saved) is Bsp
            } else {
                back is Bsp
            }
        }),
{
}

} // verus!
