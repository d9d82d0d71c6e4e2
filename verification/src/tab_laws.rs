//! What holds of a tab whatever is done to it.

use crate::compositor::names_fit;
use crate::edits::TabChange;
use crate::layout::{law_has_is_membership, lemma_position, lone, Direction, PaneId, Tree};
use crate::layout_laws::{
    law_a_built_tree_holds_exactly_its_panes, law_an_activated_pane_is_visible,
    law_closing_removes_one_pane, law_operations_keep_the_tree_well_formed,
    law_resizing_moves_no_pane, law_split_adds_one_pane, law_stacking_adds_one_pane,
    law_turning_back_undoes_turning,
};
use crate::layout_modes::{
    bsp_from, every_other, grid_columns, line_from, master_at, master_tree, rows_from,
    LayoutMode,
};
use crate::tab::{restorable, sound_tree, without, PanePlacement, TabView};
use vstd::multiset::Multiset;
use vstd::prelude::*;

verus! {

broadcast use vstd::seq_lib::group_to_multiset_ensures;

// ---------------------------------------------------------------------------
// Names
// ---------------------------------------------------------------------------

/// A tree that a stack was changed in keeps no more names than panes, and no stack
/// empty, if the changed stack does.
proof fn lemma_stack_change_fits(t: Tree, id: PaneId, f: spec_fn(Tree) -> Tree)
    requires
        names_fit(t),
        t.no_empty_stack(),
        forall|s: Tree|
            s is Stack && s.has(id) && names_fit(s) && s.no_empty_stack() ==> names_fit(
                #[trigger] f(s),
            ) && f(s).no_empty_stack(),
    ensures
        names_fit(t.with_stack(id, f)),
        t.with_stack(id, f).no_empty_stack(),
    decreases t,
{
    match t {
        Tree::Split { first, second, .. } => {
            if first.has(id) {
                lemma_stack_change_fits(*first, id, f);
            } else {
                lemma_stack_change_fits(*second, id, f);
            }
        },
        Tree::Stack { .. } => {},
    }
}

proof fn lemma_splitting_fits(t: Tree, id: PaneId, new: PaneId, direction: Direction)
    requires
        names_fit(t),
        t.no_empty_stack(),
    ensures
        names_fit(t.split_at(id, new, direction)),
        t.split_at(id, new, direction).no_empty_stack(),
        names_fit(t.stacked(id, new)),
        t.stacked(id, new).no_empty_stack(),
{
    let split = |s: Tree|
        Tree::Split {
            direction,
            ratio: crate::ratio::Ratio { units: crate::ratio::HALF_UNITS },
            first: Box::new(s),
            second: Box::new(lone(new)),
        };
    assert(names_fit(lone(new)) && lone(new).no_empty_stack());
    lemma_stack_change_fits(t, id, split);
    assert(t.split_at(id, new, direction) == t.with_stack(id, split));
    let push = |s: Tree| s.pushed(new);
    lemma_stack_change_fits(t, id, push);
    assert(t.stacked(id, new) == t.with_stack(id, push));
}

proof fn lemma_turning_fits(t: Tree, id: PaneId, forward: bool)
    requires
        names_fit(t),
        t.no_empty_stack(),
    ensures
        names_fit(t.turned(id, forward)),
        t.turned(id, forward).no_empty_stack(),
{
    let turn = |s: Tree|
        if s.height() <= 1 {
            s
        } else {
            s.showing(if forward {
                s.after(id)
            } else {
                s.before(id)
            })
        };
    lemma_stack_change_fits(t, id, turn);
    assert(t.turned(id, forward) == t.with_stack(id, turn));
}

proof fn lemma_activating_fits(t: Tree, id: PaneId)
    requires
        names_fit(t),
        t.no_empty_stack(),
    ensures
        names_fit(t.activated(id)),
        t.activated(id).no_empty_stack(),
    decreases t,
{
    match t {
        Tree::Split { first, second, .. } => {
            lemma_activating_fits(*first, id);
            lemma_activating_fits(*second, id);
        },
        Tree::Stack { .. } => {},
    }
}

proof fn lemma_closing_fits(t: Tree, id: PaneId)
    requires
        names_fit(t),
    ensures
        names_fit(t.closed(id)),
    decreases t,
{
    match t {
        Tree::Split { first, second, .. } => {
            lemma_closing_fits(*first, id);
            lemma_closing_fits(*second, id);
        },
        Tree::Stack { panes, .. } => {
            lemma_position(panes, id);
        },
    }
}

proof fn lemma_resizing_fits(t: Tree, id: PaneId, direction: Direction, delta: int)
    requires
        names_fit(t),
        t.wf(),
        t.no_empty_stack(),
    ensures
        t.resized(id, direction, delta) matches Some(r) ==> names_fit(r) && r.wf()
            && r.no_empty_stack(),
    decreases t,
{
    match t {
        Tree::Split { first, second, .. } => {
            lemma_resizing_fits(*first, id, direction, delta);
            lemma_resizing_fits(*second, id, direction, delta);
        },
        Tree::Stack { .. } => {},
    }
}

/// Naming a pane changes nothing but names.
pub proof fn lemma_naming_fits(t: Tree, id: PaneId, name: Seq<char>)
    requires
        names_fit(t),
        t.wf(),
        t.no_empty_stack(),
    ensures
        names_fit(t.named(id, name)),
        t.named(id, name).wf(),
        t.named(id, name).no_empty_stack(),
        t.named(id, name).ids() == t.ids(),
        names_fit(t.custom_named(id, name)),
        t.custom_named(id, name).wf(),
        t.custom_named(id, name).no_empty_stack(),
        t.custom_named(id, name).ids() == t.ids(),
    decreases t,
{
    match t {
        Tree::Split { first, second, .. } => {
            lemma_naming_fits(*first, id, name);
            lemma_naming_fits(*second, id, name);
        },
        Tree::Stack { panes, .. } => {
            lemma_position(panes, id);
        },
    }
}

proof fn lemma_bsp_fits(panes: Seq<PaneId>, i: int)
    requires
        0 <= i < panes.len(),
    ensures
        names_fit(bsp_from(panes, i)),
    decreases panes.len() - i,
{
    if i + 1 < panes.len() {
        lemma_bsp_fits(panes, i + 1);
        assert(names_fit(lone(panes[i])));
    }
}

proof fn lemma_line_fits(panes: Seq<PaneId>, i: int, direction: Direction)
    requires
        0 <= i < panes.len(),
    ensures
        names_fit(line_from(panes, i, direction)),
    decreases panes.len() - i,
{
    if i + 1 < panes.len() {
        lemma_line_fits(panes, i + 1, direction);
        assert(names_fit(lone(panes[i])));
    }
}

proof fn lemma_rows_fit(panes: Seq<PaneId>, columns: nat, start: int)
    requires
        0 <= start < panes.len(),
    ensures
        names_fit(rows_from(panes, columns, start)),
    decreases panes.len() - start,
{
    if columns == 0 || start + columns >= panes.len() {
        lemma_line_fits(panes.subrange(start, panes.len() as int), 0, Direction::Vertical);
    } else {
        lemma_line_fits(panes.subrange(start, start + columns), 0, Direction::Vertical);
        lemma_rows_fit(panes, columns, start + columns);
    }
}

proof fn lemma_built_fits(mode: LayoutMode, panes: Seq<PaneId>, active: PaneId)
    requires
        panes.len() > 0,
    ensures
        names_fit(mode.tree(panes, active)),
{
    match mode {
        LayoutMode::Bsp(_) => lemma_bsp_fits(panes, 0),
        LayoutMode::Custom(_) => lemma_bsp_fits(panes, 0),
        LayoutMode::Grid(_) => lemma_rows_fit(panes, grid_columns(panes.len()), 0),
        LayoutMode::Monocle(_) => {},
        LayoutMode::Master(m) => {
            if panes.len() > 1 {
                let at = master_at(m.master_idx, panes.len());
                let others = panes.remove(at);
                let t = master_tree(panes, m.master_idx, m.master_ratio);
                assert(names_fit(lone(panes[at])));
                if others.len() == 1 {
                    assert(names_fit(lone(others[0])));
                } else {
                    lemma_line_fits(every_other(others, 0), 0, Direction::Horizontal);
                    lemma_line_fits(every_other(others, 1), 0, Direction::Horizontal);
                    assert(names_fit(*t->second));
                }
            } else {
                assert(names_fit(lone(panes[0])));
            }
        },
    }
}

// ---------------------------------------------------------------------------
// The list of panes
// ---------------------------------------------------------------------------

proof fn lemma_without(s: Seq<PaneId>, id: PaneId)
    ensures
        forall|x: PaneId| #[trigger] without(s, id).contains(x) == (s.contains(x) && x != id),
        s.no_duplicates() ==> without(s, id).no_duplicates(),
        s.no_duplicates() ==> without(s, id).to_multiset() == s.to_multiset().remove(id),
    decreases s.len(),
{
    if s.len() > 0 {
        let head = s.drop_last();
        let rest = without(head, id);
        lemma_without(head, id);
        assert(head.push(s.last()) =~= s);
        assert forall|x: PaneId| #[trigger] without(s, id).contains(x) == (s.contains(x) && x
            != id) by {
            assert(s.contains(x) == (head.contains(x) || x == s.last())) by {
                if head.contains(x) {
                    let i = choose|i: int| 0 <= i < head.len() && head[i] == x;
                    assert(s[i] == x);
                }
                if x == s.last() {
                    assert(s[s.len() - 1] == x);
                }
            }
            assert(rest.push(s.last()).contains(x) == (rest.contains(x) || x == s.last())) by {
                if rest.contains(x) {
                    let i = choose|i: int| 0 <= i < rest.len() && rest[i] == x;
                    assert(rest.push(s.last())[i] == x);
                }
                if x == s.last() {
                    assert(rest.push(s.last())[rest.len() as int] == x);
                }
            }
        }
        if s.no_duplicates() {
            assert(head.no_duplicates());
            assert(!head.contains(s.last()));
            assert(!rest.contains(s.last()));
            head.to_multiset_ensures();
            rest.to_multiset_ensures();
            s.to_multiset_ensures();
            assert(s.to_multiset() =~= head.to_multiset().insert(s.last()));
            if s.last() == id {
                assert(head.to_multiset().count(id) == 0);
                assert(without(s, id).to_multiset() =~= s.to_multiset().remove(id));
            } else {
                assert(rest.push(s.last()).to_multiset() =~= rest.to_multiset().insert(s.last()));
                assert(without(s, id).to_multiset() =~= s.to_multiset().remove(id));
            }
        }
    } else {
        assert(s.to_multiset() =~= Multiset::empty());
        assert(without(s, id).to_multiset() =~= s.to_multiset().remove(id));
    }
}

proof fn lemma_counted(s: Seq<PaneId>, x: PaneId)
    ensures
        s.contains(x) == (s.to_multiset().count(x) > 0),
{
    s.to_multiset_ensures();
}

proof fn lemma_same_members(t: TabView)
    requires
        t.wf(),
    ensures
        forall|x: PaneId| #[trigger] t.layout.has(x) == t.order.contains(x),
        t.layout.ids().len() == t.order.len(),
{
    assert forall|x: PaneId| #[trigger] t.layout.has(x) == t.order.contains(x) by {
        law_has_is_membership(t.layout, x);
        lemma_counted(t.layout.ids(), x);
        lemma_counted(t.order, x);
    }
    t.layout.ids().to_multiset_ensures();
    t.order.to_multiset_ensures();
}

// ---------------------------------------------------------------------------
// The invariant
// ---------------------------------------------------------------------------

/// A fresh tab is in order.
pub proof fn law_a_fresh_tab_is_in_order(name: Seq<char>, mode: LayoutMode, pane: PaneId)
    requires
        mode.valid(),
    ensures
        TabView::fresh(name, mode, pane).wf(),
{
    let order = seq![pane];
    assert(order.contains(pane)) by {
        assert(order[0] == pane);
    }
    law_a_built_tree_holds_exactly_its_panes(mode, order, pane);
    lemma_built_fits(mode, order, pane);
}

/// Moving the focus to one of the tab's panes keeps the tab in order; so does zooming.
pub proof fn law_focus_and_zoom_keep_the_tab_in_order(t: TabView, pane: PaneId)
    requires
        t.wf(),
    ensures
        t.order.contains(pane) ==> t.focus(pane).wf(),
        t.zoom_toggled().wf(),
{
}

/// A new pane leaves the tab in order, wherever it is placed: the arrangement holds
/// the new pane and all others, each one once.
pub proof fn law_placing_a_pane_keeps_the_tab_in_order(
    t: TabView,
    placement: PanePlacement,
    new: PaneId,
)
    requires
        t.wf(),
        !t.order.contains(new),
    ensures
        t.placed(placement, new).wf(),
        t.placed(placement, new).order == t.order.push(new),
{
    let order = t.order.push(new);
    lemma_same_members(t);
    assert(order.no_duplicates()) by {
        assert forall|i: int, j: int| 0 <= i < order.len() && 0 <= j < order.len() && i
            != j implies order[i] != order[j] by {
            if i < t.order.len() {
                assert(t.order.contains(t.order[i]));
            }
            if j < t.order.len() {
                assert(t.order.contains(t.order[j]));
            }
        }
    }
    assert(order.contains(new)) by {
        assert(order[t.order.len() as int] == new);
    }
    assert(order.to_multiset() == t.order.to_multiset().insert(new)) by {
        t.order.to_multiset_ensures();
    }
    law_split_adds_one_pane(t.layout, t.focused, new, Direction::Vertical);
    law_split_adds_one_pane(t.layout, t.focused, new, Direction::Horizontal);
    law_stacking_adds_one_pane(t.layout, t.focused, new);
    law_operations_keep_the_tree_well_formed(
        t.layout,
        t.focused,
        new,
        Direction::Vertical,
        true,
    );
    law_operations_keep_the_tree_well_formed(
        t.layout,
        t.focused,
        new,
        Direction::Horizontal,
        true,
    );
    lemma_splitting_fits(t.layout, t.focused, new, Direction::Vertical);
    lemma_splitting_fits(t.layout, t.focused, new, Direction::Horizontal);
    law_a_built_tree_holds_exactly_its_panes(t.mode, order, new);
    lemma_built_fits(t.mode, order, new);
}

/// Closing a pane that is not the last leaves the tab in order. It is the last one
/// exactly if nothing is left to focus.
pub proof fn law_closing_a_pane_keeps_the_tab_in_order(t: TabView, pane: PaneId)
    requires
        t.wf(),
        t.order.contains(pane),
    ensures
        (t.next_focus(pane) is Some) == (t.order.len() > 1),
        t.next_focus(pane) is Some ==> t.closed(pane).wf(),
        !t.closed(pane).order.contains(pane),
        forall|x: PaneId|
            x != pane ==> (#[trigger] t.closed(pane).order.contains(x)) == t.order.contains(x),
{
    lemma_same_members(t);
    lemma_without(t.order, pane);
    assert(t.layout.has(pane));
    law_closing_removes_one_pane(t.layout, pane);
    lemma_closing_fits(t.layout, pane);
    let rest = without(t.order, pane);
    match t.next_focus(pane) {
        Some(f) => {
            law_has_is_membership(t.layout.closed(pane), f);
            lemma_counted(t.layout.closed(pane).ids(), f);
            lemma_counted(rest, f);
            law_a_built_tree_holds_exactly_its_panes(t.mode, rest, f);
            lemma_built_fits(t.mode, rest, f);
        },
        None => {},
    }
}

/// Resizing, turning a stack, naming a pane and showing one of a stack keep the tab in
/// order, and no pane comes or goes.
pub proof fn law_rearranging_keeps_the_tab_in_order(
    t: TabView,
    direction: Direction,
    delta: int,
    forward: bool,
    pane: PaneId,
    name: Seq<char>,
)
    requires
        t.wf(),
    ensures
        t.resized(direction, delta).wf(),
        t.turned(forward).wf(),
        t.renamed(pane, name).wf(),
        t.order.contains(pane) ==> t.activated(pane).wf(),
        t.resized(direction, delta).order == t.order,
        t.turned(forward).order == t.order,
        t.renamed(pane, name).order == t.order,
        t.activated(pane).order == t.order,
{
    lemma_same_members(t);
    law_resizing_moves_no_pane(t.layout, t.focused, direction, delta);
    lemma_resizing_fits(t.layout, t.focused, direction, delta);
    assert(t.layout.ids().no_duplicates()) by {
        t.order.lemma_multiset_has_no_duplicates();
        t.layout.ids().lemma_multiset_has_no_duplicates_conv();
    }
    law_turning_back_undoes_turning(t.layout, t.focused, forward);
    law_operations_keep_the_tree_well_formed(t.layout, t.focused, 0, direction, forward);
    lemma_turning_fits(t.layout, t.focused, forward);
    assert(t.order.contains(t.layout.turned_to(t.focused, forward)->0)) by {
        assert(t.layout.has(t.layout.turned_to(t.focused, forward)->0));
    }
    lemma_naming_fits(t.layout, pane, name);
    lemma_naming_fits(t.layout.custom_named(pane, name), pane, name);
    law_operations_keep_the_tree_well_formed(t.layout, pane, 0, direction, forward);
    lemma_activating_fits(t.layout, pane);
    if t.order.contains(pane) {
        assert(t.layout.has(pane));
        law_an_activated_pane_is_visible(t.layout, pane);
    }
}

proof fn lemma_front_is_held(t: Tree)
    requires
        t.wf(),
        t.no_empty_stack(),
    ensures
        t.front() matches Some(f) && t.has(f),
    decreases t,
{
    match t {
        Tree::Split { first, second, .. } => {
            lemma_front_is_held(*first);
        },
        Tree::Stack { panes, active, .. } => {
            assert(panes.contains(panes[active as int]));
        },
    }
}

/// Stepping through the layouts and promoting a master keep the tab in order, and no
/// pane comes or goes.
pub proof fn law_changing_the_layout_keeps_the_tab_in_order(t: TabView)
    requires
        t.wf(),
    ensures
        t.next_layout().wf(),
        t.mastered().wf(),
        t.next_layout().order == t.order,
        t.mastered().order == t.order,
        t.next_layout().zoomed is None,
        t.mastered().zoomed is None,
{
    assert(t.order.len() > 0);
    let next = t.next_layout();
    law_a_built_tree_holds_exactly_its_panes(next.mode, t.order, t.focused);
    lemma_built_fits(next.mode, t.order, t.focused);
    let led = t.mastered();
    lemma_position(t.order, t.focused);
    law_a_built_tree_holds_exactly_its_panes(led.mode, t.order, t.focused);
    lemma_built_fits(led.mode, t.order, t.focused);
    if next.mode is Custom {
        let saved = t.remembered().saved->0;
        lemma_front_is_held(saved);
        law_has_is_membership(saved, saved.front()->0);
        lemma_counted(saved.ids(), saved.front()->0);
        lemma_counted(t.order, saved.front()->0);
    }
}

// ---------------------------------------------------------------------------
// What every change keeps
// ---------------------------------------------------------------------------

proof fn lemma_built_is_sound(mode: LayoutMode, panes: Seq<PaneId>, active: PaneId)
    ensures
        sound_tree(mode.tree(panes, active)),
{
    if panes.len() > 0 {
        law_a_built_tree_holds_exactly_its_panes(mode, panes, active);
        lemma_built_fits(mode, panes, active);
    } else {
        assert(mode.tree(panes, active) == lone(active));
    }
}

/// A tab that can be drawn and worked on can be so after every change, whatever pane
/// the change names, even one that is not there.
pub proof fn law_a_changed_tab_stays_sound(t: TabView, c: TabChange)
    requires
        t.sound(),
        c matches TabChange::Arrange(n) ==> sound_tree(n@),
        c matches TabChange::Show(n, _) ==> sound_tree(n@),
    ensures
        t.changed(c).sound(),
{
    match c {
        TabChange::Place(how, p) => {
            let order = t.order.push(p);
            lemma_built_is_sound(t.mode, order, p);
            lemma_splitting_fits(t.layout, t.focused, p, Direction::Vertical);
            lemma_splitting_fits(t.layout, t.focused, p, Direction::Horizontal);
            law_operations_keep_the_tree_well_formed(
                t.layout,
                t.focused,
                p,
                Direction::Vertical,
                true,
            );
            law_operations_keep_the_tree_well_formed(
                t.layout,
                t.focused,
                p,
                Direction::Horizontal,
                true,
            );
        },
        TabChange::Resize(direction, delta) => {
            lemma_resizing_fits(t.layout, t.focused, direction, delta as int);
        },
        TabChange::NextLayout => {
            lemma_built_is_sound(t.next_layout().mode, t.order, t.focused);
        },
        TabChange::SetMaster => {
            lemma_built_is_sound(t.mastered().mode, t.order, t.focused);
        },
        TabChange::Turn(forward) => {
            lemma_turning_fits(t.layout, t.focused, forward);
            law_operations_keep_the_tree_well_formed(
                t.layout,
                t.focused,
                0,
                Direction::Vertical,
                forward,
            );
        },
        TabChange::NamePane(p, name) => {
            lemma_naming_fits(t.layout, p, name@);
            lemma_naming_fits(t.layout.custom_named(p, name@), p, name@);
        },
        _ => {},
    }
}

/// A tab that can be drawn and worked on can be so after a pane of a stack was shown.
pub proof fn law_an_activated_tab_stays_sound(t: TabView, pane: PaneId)
    requires
        t.sound(),
    ensures
        t.activated(pane).sound(),
{
    lemma_activating_fits(t.layout, pane);
    law_operations_keep_the_tree_well_formed(t.layout, pane, 0, Direction::Vertical, true);
}

proof fn lemma_focus_after_close(t: Tree, id: PaneId)
    ensures
        t.focus_after_close(id) is Some ==> t.has(id),
{
    match t {
        Tree::Stack { panes, .. } => {
            lemma_position(panes, id);
        },
        Tree::Split { .. } => {},
    }
}

/// A tab that can be drawn and worked on can be so after a pane of it was closed, if
/// it has another.
pub proof fn law_a_tab_without_a_pane_stays_sound(t: TabView, pane: PaneId)
    requires
        t.sound(),
        t.next_focus(pane) is Some,
    ensures
        t.closed(pane).sound(),
{
    lemma_focus_after_close(t.layout, pane);
    law_closing_removes_one_pane(t.layout, pane);
    lemma_closing_fits(t.layout, pane);
    lemma_built_is_sound(t.mode, without(t.order, pane), t.next_focus(pane)->0);
}

// ---------------------------------------------------------------------------
// Promises about arrangements
// ---------------------------------------------------------------------------

/// What is placed by hand is never rebuilt away: the arrangement is the user's own
/// from then on, and a new pane ends a zoom.
pub proof fn law_a_manual_placement_is_kept(t: TabView, placement: PanePlacement, new: PaneId)
    ensures
        placement != PanePlacement::Auto ==> t.placed(placement, new).mode is Custom,
        t.placed(placement, new).zoomed is None,
        t.placed(placement, new).focused == new,
{
}

/// Stepping once round the layouts brings an arrangement of the user's own back.
pub proof fn law_a_custom_arrangement_survives_the_cycle(t: TabView)
    requires
        t.wf(),
        t.mode is Custom,
    ensures
        ({
            let back =
                t.next_layout().next_layout().next_layout().next_layout().next_layout();
            back.layout == t.layout && back.mode is Custom && back.order == t.order
        }),
{
    let a = t.next_layout();
    let b = a.next_layout();
    let c = b.next_layout();
    let d = c.next_layout();
    assert(a.saved == Some(t.layout));
    assert(b.saved == Some(t.layout));
    assert(c.saved == Some(t.layout));
    assert(d.saved == Some(t.layout) && d.mode is Grid);
    assert(restorable(d.saved, d.order));
}

/// Zooming and zooming again changes nothing, and a zoom can always be released.
pub proof fn law_a_zoom_can_be_undone(t: TabView)
    ensures
        t.zoomed is Some ==> t.zoom_changes() && t.zoom_toggled().zoomed is None,
        t.zoomed is None && t.zoom_changes() ==> t.zoom_toggled().zoom_toggled() == t,
        !t.zoom_changes() ==> t.zoom_toggled() == t,
{
}

/// A zoomed tab shows the zoomed pane and nothing else; any other shows its whole
/// arrangement.
pub proof fn law_a_zoom_shows_one_pane(t: TabView)
    requires
        t.wf(),
    ensures
        t.zoomed matches Some(z) ==> t.shown().visible() == seq![z] && t.shown().ids() == seq![z],
        t.zoomed is None ==> t.shown() == t.layout,
        names_fit(t.shown()),
        t.shown().wf(),
{
    if t.zoomed is Some {
        assert(t.shown().visible() =~= seq![t.zoomed->0]);
    }
}

} // verus!
