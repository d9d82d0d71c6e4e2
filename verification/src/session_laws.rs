//! What working on tabs and panes does to a session, seen from outside: which tab is shown,
//! which pane has the focus, and what stays as it was.

use crate::automatic_laws::{
    across, extent, halved, law_a_master_with_one_other_is_on_the_left,
    law_the_grid_is_near_to_a_square, law_the_master_layout_has_three_columns,
};
use crate::config::TabActivity;
use crate::edits::TabChange;
use crate::geometry::{fits_screen, placed};
use crate::layout::{lemma_position, Direction, PaneId, Rect};
use crate::layout_laws::{
    law_a_custom_name_set_is_the_name_read, law_a_name_set_is_the_name_read, lemma_front,
};
use crate::layout_modes::LayoutMode;
use crate::placement_laws::{
    law_a_split_halves_the_place, law_a_stacked_pane_covers_its_stack,
};
use crate::pointer::ClickEffect;
use crate::session::{clicked, lemma_tab_with, tab_with, CloseAction, SessionView};
use crate::tab::{without, PanePlacement, TabView};
use crate::tab_laws::law_closing_a_pane_keeps_the_tab_in_order;
use vstd::prelude::*;

verus! {

// ---------------------------------------------------------------------------
// Tabs
// ---------------------------------------------------------------------------

/// Removing a tab takes away that tab alone. Another tab than the shown one leaves the same
/// tab shown; the shown one gives way to the tab that followed it, and to the one before it
/// only where none followed.
pub proof fn law_removing_a_tab_shows_its_successor(s: SessionView, i: int)
    requires
        s.active < s.tabs.len() <= usize::MAX,
        0 <= i < s.tabs.len(),
        s.tabs.len() > 1,
    ensures
        s.without_tab(i).tabs == s.tabs.take(i) + s.tabs.skip(i + 1),
        s.without_tab(i).current() == Some(
            s.tabs[if i != s.active {
                s.active as int
            } else if i + 1 < s.tabs.len() {
                i + 1
            } else {
                i - 1
            }],
        ),
        i < s.active ==> s.without_tab(i).active == s.active - 1,
        i >= s.active && i + 1 < s.tabs.len() ==> s.without_tab(i).active == s.active,
{
    assert(s.without_tab(i).tabs =~= s.tabs.take(i) + s.tabs.skip(i + 1));
}

/// Nothing but the tabs changes when one is removed.
pub proof fn law_removing_a_tab_keeps_the_rest(s: SessionView, i: int)
    ensures
        s.without_tab(i).name == s.name,
        s.without_tab(i).folder == s.folder,
        s.without_tab(i).style == s.style,
        s.without_tab(i).popup == s.popup,
        s.without_tab(i).popup_visible == s.popup_visible,
        s.without_tab(i).popup_size == s.popup_size,
        s.without_tab(i).renaming == s.renaming,
{
}

/// The only pane of the shown tab takes its tab with it: the tab that followed is shown, or
/// else the one before. The only pane of the only tab takes the session with it.
pub proof fn law_the_last_pane_takes_its_tab_along(s: SessionView, pane: PaneId)
    requires
        s.wf(),
        s.tabs.len() <= usize::MAX,
        s.popup != Some(pane),
        s.tabs[s.active as int].order == seq![pane],
    ensures
        s.tabs.len() > 1 ==> {
            let (after, action) = s.closing(pane);
            &&& action == CloseAction::Broadcast
            &&& after.tabs == s.tabs.take(s.active as int) + s.tabs.skip(s.active + 1)
            &&& after.current() == Some(
                s.tabs[if s.active + 1 < s.tabs.len() {
                    s.active + 1
                } else {
                    s.active - 1
                }],
            )
        },
        s.tabs.len() == 1 ==> s.closing(pane).1 == CloseAction::SessionRemoved,
{
    let t = s.tabs[s.active as int];
    assert(t.wf());
    assert(t.order[0] == pane);
    law_closing_a_pane_keeps_the_tab_in_order(t, pane);
    if s.tabs.len() > 1 {
        law_removing_a_tab_shows_its_successor(s, s.active as int);
    }
}

/// Closing one of several panes keeps their tab shown. The other panes stay in their order,
/// one of them has the focus, and no other tab changes.
pub proof fn law_closing_one_of_several_panes_keeps_the_tab(s: SessionView, pane: PaneId)
    requires
        s.wf(),
        s.popup != Some(pane),
        s.tabs[s.active as int].order.contains(pane),
        s.tabs[s.active as int].order.len() > 1,
    ensures
        ({
            let (after, action) = s.closing(pane);
            let t = s.tabs[s.active as int];
            &&& action == CloseAction::Broadcast
            &&& after.active == s.active
            &&& after.tabs.len() == s.tabs.len()
            &&& forall|k: int|
                0 <= k < s.tabs.len() && k != s.active ==> #[trigger] after.tabs[k] == s.tabs[k]
            &&& after.current() matches Some(left) && {
                &&& left.name == t.name
                &&& left.order == t.order.filter(|p: PaneId| p != pane)
                &&& left.focused != pane
                &&& t.order.contains(left.focused)
                &&& left.layout.has(left.focused)
                &&& !left.layout.has(pane)
            }
        }),
{
    let t = s.tabs[s.active as int];
    assert(t.wf());
    law_closing_a_pane_keeps_the_tab_in_order(t, pane);
    let left = t.closed(pane);
    assert(left.wf());
    lemma_without_is_filter(t.order, pane);
    assert(left.order.contains(left.focused));
    lemma_in_layout(left, left.focused);
    lemma_in_layout(left, pane);
}

proof fn lemma_in_layout(t: TabView, p: PaneId)
    requires
        t.wf(),
    ensures
        t.layout.has(p) == t.order.contains(p),
{
    crate::layout::law_has_is_membership(t.layout, p);
    t.layout.ids().to_multiset_ensures();
    t.order.to_multiset_ensures();
    assert(t.layout.ids().contains(p) <==> t.layout.ids().to_multiset().count(p) > 0);
    assert(t.order.contains(p) <==> t.order.to_multiset().count(p) > 0);
}

proof fn lemma_without_is_filter(s: Seq<PaneId>, pane: PaneId)
    ensures
        without(s, pane) == s.filter(|p: PaneId| p != pane),
    decreases s.len(),
{
    reveal(Seq::filter);
    if s.len() > 0 {
        lemma_without_is_filter(s.drop_last(), pane);
    }
}

/// A pane that the shown tab does not have is not closed, and closing the popup leaves every
/// tab alone.
pub proof fn law_closing_elsewhere_changes_no_tab(s: SessionView, pane: PaneId)
    requires
        s.active < s.tabs.len(),
    ensures
        s.popup != Some(pane) && !s.tabs[s.active as int].order.contains(pane) ==> s.closing(
            pane,
        ) == (s, CloseAction::NoBroadcast),
        s.popup == Some(pane) ==> {
            let (after, action) = s.closing(pane);
            &&& action == CloseAction::Broadcast
            &&& after.tabs == s.tabs && after.active == s.active
            &&& after.popup is None && !after.popup_visible
        },
{
}

/// A pane of a tab in the background is closed where it is: the shown tab stays shown, and
/// no tab but its own changes. Where it was the only pane of its tab, the tab goes.
pub proof fn law_closing_in_background_shows_the_same_tab(s: SessionView, pane: PaneId, i: int)
    requires
        s.wf(),
        0 <= i < s.tabs.len(),
        i != s.active,
        s.tabs[i].order.contains(pane),
    ensures
        s.closing_in_background(pane) matches Some(after) && {
            &&& after.current() == s.current()
            &&& s.tabs[i].order.len() == 1 ==> after.tabs == s.tabs.take(i) + s.tabs.skip(i + 1)
            &&& s.tabs[i].order.len() > 1 ==> {
                &&& after.active == s.active
                &&& after.tabs.len() == s.tabs.len()
                &&& after.tabs[i].order == s.tabs[i].order.filter(|p: PaneId| p != pane)
                &&& forall|k: int|
                    0 <= k < s.tabs.len() && k != i ==> #[trigger] after.tabs[k] == s.tabs[k]
            }
        },
{
    lemma_tab_with(s.tabs, pane, 0);
    let j = tab_with(s.tabs, pane, 0)->0;
    if j < i {
        assert(!(s.tabs[j].order.contains(pane) && s.tabs[i].order.contains(pane)));
    }
    if i < j {
        assert(!(s.tabs[i].order.contains(pane) && s.tabs[j].order.contains(pane)));
    }
    let t = s.tabs[i];
    assert(t.wf());
    law_closing_a_pane_keeps_the_tab_in_order(t, pane);
    lemma_without_is_filter(t.order, pane);
    let after = s.closing_in_background(pane)->0;
    if t.order.len() == 1 {
        assert(after.tabs =~= s.tabs.take(i) + s.tabs.skip(i + 1));
    }
}

/// Going to a tab shows that tab with everything in it, and its mark is gone. The other tabs
/// stay as they are.
pub proof fn law_the_tab_that_was_asked_for_is_shown(s: SessionView, i: int)
    requires
        0 <= i < s.tabs.len() <= usize::MAX,
    ensures
        s.showing(i).active == i,
        s.showing(i).tabs.len() == s.tabs.len(),
        forall|k: int|
            0 <= k < s.tabs.len() && k != i ==> #[trigger] s.showing(i).tabs[k] == s.tabs[k],
        s.showing(i).current() matches Some(t) && {
            &&& t.activity == TabActivity::Quiet
            &&& t.name == s.tabs[i].name
            &&& t.layout == s.tabs[i].layout
            &&& t.order == s.tabs[i].order
            &&& t.focused == s.tabs[i].focused
            &&& t.zoomed == s.tabs[i].zoomed
            &&& t.mode == s.tabs[i].mode
            &&& t.saved == s.tabs[i].saved
        },
        s.showing(i).popup == s.popup,
        s.showing(i).popup_visible == s.popup_visible,
{
}

/// A new tab comes last and is shown; the others stay as they are.
pub proof fn law_a_new_tab_is_shown(s: SessionView, t: TabView)
    requires
        s.tabs.len() < usize::MAX,
    ensures
        s.with_new_tab(t).current() == Some(t),
        s.with_new_tab(t).tabs.len() == s.tabs.len() + 1,
        forall|k: int|
            0 <= k < s.tabs.len() ==> #[trigger] s.with_new_tab(t).tabs[k] == s.tabs[k],
        s.with_new_tab(t).popup == s.popup,
        s.with_new_tab(t).popup_visible == s.popup_visible,
{
}

/// The shown tab moves to the place with the number, or to the end where the number is
/// beyond it. It stays shown, and the others stay in their order.
pub proof fn law_a_tab_moves_to_its_number(s: SessionView, number: usize)
    requires
        s.active < s.tabs.len() <= usize::MAX,
    ensures
        ({
            let after = s.tab_moved(number);
            let at = after.active as int;
            &&& after.tabs.len() == s.tabs.len()
            &&& after.current() == s.current()
            &&& after.tabs.remove(at) == s.tabs.remove(s.active as int)
            &&& 1 <= number <= s.tabs.len() ==> at == number - 1
            &&& number == 0 ==> at == 0
            &&& number > s.tabs.len() ==> at == s.tabs.len() - 1
        }),
{
    let after = s.tab_moved(number);
    assert(after.tabs.remove(after.active as int) =~= s.tabs.remove(s.active as int));
}

/// A shifted tab moves by as many places as it is shifted, no further than either end, and
/// the others stay in their order.
pub proof fn law_a_tab_is_shifted_by_the_distance(s: SessionView, i: int, delta: int)
    requires
        s.active < s.tabs.len() <= usize::MAX,
        0 <= i < s.tabs.len(),
    ensures
        ({
            let to = if i + delta < 0 {
                0
            } else if i + delta >= s.tabs.len() {
                s.tabs.len() - 1
            } else {
                i + delta
            };
            let after = s.tab_shifted(i, delta);
            &&& after.tabs.len() == s.tabs.len()
            &&& after.tabs[to] == s.tabs[i]
            &&& after.tabs.remove(to) == s.tabs.remove(i)
        }),
{
    let to = crate::edits::shifted(i, delta, s.tabs.len() as int);
    assert(s.tab_shifted(i, delta).tabs.remove(to) =~= s.tabs.remove(i));
}

/// A pane is found in the first tab that has it.
pub proof fn law_a_pane_is_found_in_its_tab(tabs: Seq<TabView>, pane: PaneId)
    ensures
        match tab_with(tabs, pane, 0) {
            Some(i) => {
                &&& 0 <= i < tabs.len()
                &&& tabs[i].order.contains(pane)
                &&& forall|j: int| 0 <= j < i ==> !(#[trigger] tabs[j].order.contains(pane))
            },
            None => forall|j: int|
                0 <= j < tabs.len() ==> !(#[trigger] tabs[j].order.contains(pane)),
        },
{
    lemma_tab_with(tabs, pane, 0);
    lemma_none_before(tabs, pane, 0);
}

proof fn lemma_none_before(tabs: Seq<TabView>, pane: PaneId, i: int)
    requires
        0 <= i,
    ensures
        tab_with(tabs, pane, i) matches Some(j) ==> forall|k: int|
            i <= k < j ==> !(#[trigger] tabs[k].order.contains(pane)),
    decreases tabs.len() - i,
{
    if i < tabs.len() && !tabs[i].order.contains(pane) {
        lemma_none_before(tabs, pane, i + 1);
    }
}

// ---------------------------------------------------------------------------
// The popup
// ---------------------------------------------------------------------------

/// Toggling shows a popup that is hidden or new and hides one that is up. Only a new one
/// takes the fresh pane, and nothing else changes.
pub proof fn law_toggling_shows_or_hides_the_popup(s: SessionView, fresh: PaneId)
    ensures
        ({
            let after = s.popup_toggled(fresh);
            &&& after.popup == (match s.popup {
                Some(p) => Some(p),
                None => Some(fresh),
            })
            &&& s.popup is None ==> after.popup_visible
            &&& s.popup is Some ==> after.popup_visible == !s.popup_visible
            &&& after.tabs == s.tabs && after.active == s.active
            &&& after.name == s.name && after.folder == s.folder
            &&& after.popup_size == s.popup_size
        }),
{
}

/// Input goes to the popup while it is up, and to the focused pane of the shown tab
/// otherwise.
pub proof fn law_input_goes_to_what_is_in_front(s: SessionView)
    requires
        s.active < s.tabs.len(),
    ensures
        s.popup_visible && s.popup is Some ==> s.target() == s.popup,
        !s.popup_visible || s.popup is None ==> s.target() == Some(
            s.tabs[s.active as int].focused,
        ),
{
}

// ---------------------------------------------------------------------------
// Clicks
// ---------------------------------------------------------------------------

/// A click on a tab shows it, one on a pane gives it the focus, and one on a label of a
/// stack brings its pane to the front and gives it the focus. What is drawn again is what
/// changed.
pub proof fn law_a_click_reaches_its_target(s: SessionView, effect: ClickEffect)
    requires
        s.wf(),
        s.tabs.len() <= usize::MAX,
    ensures
        ({
            let (after, drawn) = clicked(s, effect);
            let t = s.tabs[s.active as int];
            match effect {
                ClickEffect::Nothing => after == s && !drawn,
                ClickEffect::GotoTab(i) => {
                    &&& drawn
                    &&& i < s.tabs.len() ==> after.active == i && after.tabs.len() == s.tabs.len()
                        && after.tabs[i as int].order == s.tabs[i as int].order && after.tabs[i
                        as int].activity == TabActivity::Quiet
                    &&& i >= s.tabs.len() ==> after == s
                },
                ClickEffect::Focus(p) => {
                    &&& after.active == s.active
                    &&& after.current() matches Some(now) && now.focused == p && now.layout
                        == t.layout && now.order == t.order && now.zoomed == (if t.zoomed is Some {
                        Some(p)
                    } else {
                        None
                    })
                    &&& drawn == (t.focused != p)
                    &&& !drawn ==> after == s
                },
                ClickEffect::Activate(p) => {
                    &&& drawn
                    &&& after.active == s.active
                    &&& after.current() matches Some(now) && now.focused == p && now.order
                        == t.order && (t.order.contains(p) ==> now.layout.visible().contains(p))
                },
            }
        }),
{
    let t = s.tabs[s.active as int];
    assert(t.wf());
    match effect {
        ClickEffect::Activate(p) => {
            lemma_in_layout(t, p);
            if t.order.contains(p) {
                crate::layout_laws::law_an_activated_pane_is_visible(t.layout, p);
            }
        },
        _ => {},
    }
}

// ---------------------------------------------------------------------------
// Panes of a tab
// ---------------------------------------------------------------------------

/// A pane that is placed by hand beside or below the focused one halves its place on the
/// screen, to the right or at the bottom. One that is put on its stack takes its place. The
/// new pane comes last in the order and has the focus.
pub proof fn law_a_new_pane_is_placed_by_the_focused_one(
    t: TabView,
    how: PanePlacement,
    new: PaneId,
    area: Rect,
) -> (k: int)
    requires
        t.wf(),
        fits_screen(area),
        how != PanePlacement::Auto || t.mode is Custom,
        t.layout.ids().no_duplicates(),
        t.layout.visible().contains(t.focused),
    ensures
        ({
            let after = t.placed(how, new);
            let p = placed(t.layout, area, 0);
            let now = placed(after.layout, area, 0);
            &&& after.order == t.order.push(new)
            &&& after.focused == new
            &&& after.name == t.name && after.activity == t.activity && after.saved == t.saved
            &&& 0 <= k < p.len() && p[k].0 == t.focused
            &&& if how == PanePlacement::Stack {
                now == p.update(k, (new, p[k].1))
            } else {
                let d = if how == PanePlacement::SplitHorizontal {
                    Direction::Horizontal
                } else {
                    Direction::Vertical
                };
                &&& now.len() == p.len() + 1
                &&& now.take(k) == p.take(k) && now.skip(k + 2) == p.skip(k + 1)
                &&& now[k].0 == t.focused && now[k + 1].0 == new
                &&& now[k].1.x == p[k].1.x && now[k].1.y == p[k].1.y
                &&& halved(now[k].1, now[k + 1].1, d)
                &&& extent(now[k].1, d) + extent(now[k + 1].1, d) == extent(p[k].1, d)
                &&& extent(now[k].1, across(d)) == extent(p[k].1, across(d))
                &&& extent(now[k + 1].1, across(d)) == extent(p[k].1, across(d))
            }
        }),
{
    lemma_in_layout(t, t.focused);
    match how {
        PanePlacement::Stack => law_a_stacked_pane_covers_its_stack(
            t.layout,
            t.focused,
            new,
            area,
            0,
        ),
        PanePlacement::SplitHorizontal => law_a_split_halves_the_place(
            t.layout,
            t.focused,
            new,
            Direction::Horizontal,
            area,
            0,
        ),
        _ => law_a_split_halves_the_place(
            t.layout,
            t.focused,
            new,
            Direction::Vertical,
            area,
            0,
        ),
    }
}

/// In an automatic layout a new pane comes last and everything is laid out anew by the same
/// mode, as it is when a pane is closed.
pub proof fn law_an_automatic_layout_is_laid_out_anew(t: TabView, pane: PaneId)
    requires
        !(t.mode is Custom),
    ensures
        ({
            let after = t.placed(PanePlacement::Auto, pane);
            &&& after.mode == t.mode
            &&& after.order == t.order.push(pane)
            &&& after.focused == pane
            &&& after.layout == t.mode.tree(after.order, pane)
        }),
        t.wf() && t.order.contains(pane) && t.order.len() > 1 ==> {
            let left = t.closed(pane);
            &&& left.mode == t.mode
            &&& left.layout == t.mode.tree(left.order, left.focused)
            &&& left.order == t.order.filter(|p: PaneId| p != pane)
        },
{
    if t.wf() && t.order.contains(pane) && t.order.len() > 1 {
        law_closing_a_pane_keeps_the_tab_in_order(t, pane);
        lemma_without_is_filter(t.order, pane);
    }
}

/// An arrangement of the user's own is not laid out anew when a pane of it is closed, and a
/// zoom ends with the zoomed pane.
pub proof fn law_an_own_arrangement_survives_a_close(t: TabView, pane: PaneId)
    requires
        t.wf(),
        t.order.contains(pane),
        t.order.len() > 1,
    ensures
        t.mode is Custom ==> t.closed(pane).mode is Custom && t.closed(pane).layout
            == t.layout.closed(pane),
        t.zoomed == Some(pane) ==> t.closed(pane).zoomed is None,
        t.zoomed is None ==> t.closed(pane).zoomed is None,
        t.closed(pane).name == t.name,
        t.closed(pane).saved == t.saved,
{
    law_closing_a_pane_keeps_the_tab_in_order(t, pane);
}

/// Each change does to a tab what it says: it moves the focus, and a zoom with it, or gives
/// a name, or zooms, and leaves the rest alone.
pub proof fn law_a_change_leaves_the_rest_alone(t: TabView, c: TabChange)
    ensures
        ({
            let after = t.changed(c);
            match c {
                TabChange::Focus(p) => {
                    &&& after.focused == p
                    &&& after.zoomed == (if t.zoomed is Some {
                        Some(p)
                    } else {
                        None
                    })
                    &&& after.layout == t.layout && after.order == t.order && after.mode == t.mode
                },
                TabChange::NameTab(name) => {
                    &&& after.name == name@
                    &&& after.layout == t.layout && after.order == t.order && after.focused
                        == t.focused && after.zoomed == t.zoomed && after.mode == t.mode
                },
                TabChange::ToggleZoom => {
                    &&& t.zoomed is Some ==> after.zoomed is None
                    &&& t.zoomed is None && !(t.mode is Monocle) ==> after.zoomed == Some(
                        t.focused,
                    )
                    &&& t.zoomed is None && t.mode is Monocle ==> after == t
                    &&& after.layout == t.layout && after.order == t.order && after.focused
                        == t.focused && after.mode == t.mode
                },
                TabChange::Resize(d, delta) => {
                    &&& after.mode is Custom
                    &&& after.layout == (match t.layout.resized(t.focused, d, delta as int) {
                        Some(r) => r,
                        None => t.layout,
                    })
                    &&& after.order == t.order && after.focused == t.focused && after.zoomed
                        == t.zoomed
                },
                TabChange::NamePane(p, name) => {
                    &&& t.layout.has(p) ==> after.layout.name_of(p) == Some(name@)
                        && after.layout.custom_name_of(p) == Some(Some(name@))
                    &&& forall|q: PaneId|
                        q != p ==> #[trigger] after.layout.name_of(q) == t.layout.name_of(q)
                            && after.layout.custom_name_of(q) == t.layout.custom_name_of(q)
                    &&& after.order == t.order && after.focused == t.focused && after.mode
                        == t.mode && after.name == t.name
                },
                TabChange::Turn(forward) => {
                    &&& after.order == t.order && after.mode == t.mode
                    &&& after.focused == (match t.layout.turned_to(t.focused, forward) {
                        Some(p) => p,
                        None => t.focused,
                    })
                },
                TabChange::Arrange(tree) => {
                    &&& after.layout == tree@ && after.mode is Custom
                    &&& after.order == t.order && after.focused == t.focused
                },
                TabChange::Show(tree, target) => {
                    &&& after.layout == tree@ && after.mode == t.mode && after.order == t.order
                    &&& after.focused == (match target {
                        Some(p) => p,
                        None => t.focused,
                    })
                },
                TabChange::Place(_, p) => after.focused == p && after.zoomed is None
                    && after.order == t.order.push(p),
                TabChange::NextLayout => after.order == t.order && after.zoomed is None
                    && after.name == t.name,
                TabChange::SetMaster => after.order == t.order && after.focused == t.focused
                    && after.mode is Master && after.zoomed is None,
            }
        }),
{
    match c {
        TabChange::NamePane(p, name) => {
            let mid = t.layout.custom_named(p, name@);
            law_a_custom_name_set_is_the_name_read(t.layout, p, p, name@);
            law_a_name_set_is_the_name_read(mid, p, p, name@);
            assert forall|q: PaneId| q != p implies #[trigger] t.changed(c).layout.name_of(q)
                == t.layout.name_of(q) && t.changed(c).layout.custom_name_of(q)
                == t.layout.custom_name_of(q) by {
                law_a_custom_name_set_is_the_name_read(t.layout, p, q, name@);
                law_a_name_set_is_the_name_read(mid, p, q, name@);
            }
        },
        _ => {},
    }
}

/// Promoting a pane makes the focused pane the master, in the middle of the master layout or
/// on the left beside one other pane, and an arrangement of the user's own is remembered.
pub proof fn law_the_focused_pane_becomes_the_master(t: TabView, area: Rect)
    requires
        t.wf(),
        t.order.len() >= 2,
        t.order.len() <= usize::MAX,
    ensures
        ({
            let after = t.mastered();
            let p = placed(after.layout, area, 0);
            &&& p.len() == t.order.len()
            &&& t.order.len() == 2 ==> p[0].0 == t.focused
            &&& t.order.len() >= 3 ==> p[t.order.len() as int / 2].0 == t.focused
            &&& after.saved == (if t.mode is Custom {
                Some(t.layout)
            } else {
                t.saved
            })
        }),
{
    let after = t.mastered();
    lemma_position(t.order, t.focused);
    let m = match after.mode {
        LayoutMode::Master(m) => m,
        _ => arbitrary(),
    };
    if t.order.len() == 2 {
        law_a_master_with_one_other_is_on_the_left(m, t.order, t.focused, area, 0);
    } else {
        law_the_master_layout_has_three_columns(m, t.order, t.focused, area, 0);
    }
}

/// The next layout is that of the next mode, over all panes in their order and with the same
/// focus. The user's own arrangement is remembered as it was, and comes back only while it
/// still has exactly the tab's panes; then one of the panes it shows gets the focus.
pub proof fn law_the_next_layout_shows_all_panes(t: TabView)
    requires
        t.wf(),
    ensures
        ({
            let after = t.next_layout();
            let back = t.mode is Grid && (t.saved matches Some(s) && s.ids().to_multiset()
                == t.order.to_multiset());
            &&& t.mode is Custom ==> after.saved == Some(t.layout)
            &&& !(t.mode is Custom) ==> after.saved == t.saved
            &&& back ==> after.mode is Custom && after.layout == t.saved->0
                && after.layout.visible().contains(after.focused)
            &&& !back ==> {
                &&& !(after.mode is Custom)
                &&& after.focused == t.focused
                &&& after.layout == after.mode.tree(t.order, t.focused)
                &&& after.mode is Bsp == (t.mode is Grid || t.mode is Custom)
                &&& after.mode is Master == t.mode is Bsp
                &&& after.mode is Monocle == t.mode is Master
                &&& after.mode is Grid == t.mode is Monocle
            }
        }),
{
    match t.saved {
        Some(s) => {
            lemma_front(s);
        },
        None => {},
    }
}

/// A fresh tab has one pane, which is seen and has the focus; nothing is zoomed or marked.
pub proof fn law_a_fresh_tab_has_one_pane(
    name: Seq<char>,
    mode: LayoutMode,
    pane: PaneId,
    area: Rect,
)
    ensures
        ({
            let t = TabView::fresh(name, mode, pane);
            &&& t.name == name && t.mode == mode
            &&& t.order == seq![pane] && t.focused == pane
            &&& t.zoomed is None && t.saved is None && t.activity == TabActivity::Quiet
            &&& placed(t.layout, area, 0) == seq![(pane, area)]
        }),
{
    let t = TabView::fresh(name, mode, pane);
    let one = seq![pane];
    match mode {
        LayoutMode::Monocle(_) => {
            lemma_position(one, pane);
            assert(one[0] == pane);
        },
        LayoutMode::Grid(_) => {
            law_the_grid_is_near_to_a_square(1);
            let c = crate::layout_modes::grid_columns(1);
            assert(c * c >= 1 && c >= 1);
            assert(one.subrange(0, 1) =~= one);
        },
        _ => {},
    }
    assert(placed(crate::layout::lone(pane), area, 0) =~= seq![(pane, area)]);
    assert(placed(t.layout, area, 0) =~= seq![(pane, area)]);
}

/// The list of a tab's panes always agrees with its arrangement after a repair; one that did
/// agree stays in its own order.
pub proof fn law_a_repaired_list_agrees_with_the_arrangement(t: TabView)
    ensures
        t.reconciled().order.to_multiset() == t.layout.ids().to_multiset(),
        t.reconciled().layout == t.layout,
        t.order.to_multiset() == t.layout.ids().to_multiset() ==> t.reconciled() == t,
{
}

} // verus!
