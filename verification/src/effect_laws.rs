//! What a command effects, seen from outside: which tab is shown afterwards, where a pane
//! lies, what a session is called and which folder it is filed under.

use crate::arrangement_laws::{
    law_a_resize_moves_the_nearest_border, lemma_rounding, part, splits_around,
};
use crate::automatic_laws::{across, extent, halved};
use crate::client::ClientView;
use crate::command::{
    commanded, pane_placed, Ask, GoneView, RemuxCommand, SessionDefaults, Spawn, SpawnSize,
};
use crate::config::TabActivity;
use crate::geometry::{fits_screen, placed};
use crate::layout::{Direction, FocusDirection, PaneId, Rect, Tree};
use crate::layout_laws::{
    law_a_custom_name_set_is_the_name_read, law_a_name_set_is_the_name_read,
};
use crate::ratio::{percent, MAX_RATIO_UNITS, MIN_RATIO_UNITS, ONE};
use crate::session::SessionView;
use crate::edit_laws::law_shifting_tabs_keeps_the_shown_one;
use crate::session_laws::{
    law_a_new_pane_is_placed_by_the_focused_one, law_a_pane_is_found_in_its_tab,
    law_a_tab_is_shifted_by_the_distance, law_the_focused_pane_becomes_the_master,
    law_the_next_layout_shows_all_panes,
};
use crate::clients::{render_size, watched};
use crate::state::{with_name, without_name, StateError, StateView};
use crate::tab::{PanePlacement, TabView};
use vstd::prelude::*;

verus! {

/// The client at `me` works in the session `s`, which shows one of its tabs and no popup.
pub open spec fn works_in(
    st: StateView,
    clients: Seq<(u64, ClientView)>,
    me: int,
    s: Seq<char>,
) -> bool {
    &&& 0 <= me < clients.len()
    &&& clients[me].1.session_name == Some(s)
    &&& st.sessions.contains_key(s)
    &&& st.sessions[s].active < st.sessions[s].tabs.len() <= usize::MAX
    &&& !st.sessions[s].popup_up()
}

/// The tab that a session shows.
pub open spec fn shown_tab(st: StateView, s: Seq<char>) -> TabView {
    st.sessions[s].tabs[st.sessions[s].active as int]
}

/// Two servers that differ in one session at most.
pub open spec fn but_for_session(a: StateView, b: StateView, s: Seq<char>) -> bool {
    &&& a.folders == b.folders
    &&& a.sessions.dom() == b.sessions.dom()
    &&& forall|k: Seq<char>|
        k != s && #[trigger] a.sessions.contains_key(k) ==> a.sessions[k] == b.sessions[k]
}

/// Two servers that differ in one tab of one session at most.
pub open spec fn but_for_tab(a: StateView, b: StateView, s: Seq<char>, k: int) -> bool {
    let x = a.sessions[s];
    let y = b.sessions[s];
    &&& but_for_session(a, b, s)
    &&& y == SessionView { tabs: y.tabs, ..x }
    &&& x.tabs.len() == y.tabs.len()
    &&& forall|i: int| 0 <= i < x.tabs.len() && i != k ==> #[trigger] x.tabs[i] == y.tabs[i]
}

// ---------------------------------------------------------------------------
// Tabs
// ---------------------------------------------------------------------------

/// The next tab is the one to the right of the shown one, or the first behind the last. The
/// previous one is to the left of it, or the last before the first. Nothing else changes,
/// but that the tab that is shown now is no longer marked.
pub proof fn law_stepping_shows_the_neighbouring_tab(
    st: StateView,
    clients: Seq<(u64, ClientView)>,
    me: int,
    d: SessionDefaults,
    s: Seq<char>,
    forward: bool,
)
    requires
        works_in(st, clients, me, s),
    ensures
        ({
            let step = commanded(
                if forward {
                    RemuxCommand::TabNext
                } else {
                    RemuxCommand::TabPrev
                },
                st,
                clients,
                me,
                d,
            );
            let x = st.sessions[s];
            let y = step.st.sessions[s];
            &&& forward && x.active + 1 < x.tabs.len() ==> y.active == x.active + 1
            &&& forward && x.active + 1 == x.tabs.len() ==> y.active == 0
            &&& !forward && x.active > 0 ==> y.active == x.active - 1
            &&& !forward && x.active == 0 ==> y.active + 1 == x.tabs.len()
            &&& but_for_session(st, step.st, s)
            &&& y == SessionView { tabs: y.tabs, active: y.active, ..x }
            &&& y.tabs.len() == x.tabs.len()
            &&& forall|i: int|
                0 <= i < x.tabs.len() && i != y.active ==> #[trigger] y.tabs[i] == x.tabs[i]
            &&& y.tabs[y.active as int] == (TabView {
                activity: TabActivity::Quiet,
                ..x.tabs[y.active as int]
            })
            &&& step.clients == clients
            &&& step.plan.draw is Everyone && step.plan.invalidate && step.plan.resize
                && step.plan.failed is None
        }),
{
    let x = st.sessions[s];
    let n = x.tabs.len() as int;
    if forward {
        if x.active + 1 < n {
            vstd::arithmetic::div_mod::lemma_small_mod((x.active + 1) as nat, n as nat);
        } else {
            vstd::arithmetic::div_mod::lemma_mod_self_0(n);
        }
    }
    let step = commanded(
        if forward {
            RemuxCommand::TabNext
        } else {
            RemuxCommand::TabPrev
        },
        st,
        clients,
        me,
        d,
    );
    assert(step.st.sessions.dom() =~= st.sessions.dom());
}

/// A tab that is asked for by its index is shown; one that is not there is an error.
pub proof fn law_the_tab_with_the_index_is_shown(
    st: StateView,
    clients: Seq<(u64, ClientView)>,
    me: int,
    d: SessionDefaults,
    s: Seq<char>,
    i: usize,
)
    requires
        works_in(st, clients, me, s),
    ensures
        ({
            let step = commanded(RemuxCommand::TabGoto(i), st, clients, me, d);
            if i < st.sessions[s].tabs.len() {
                &&& step.st.sessions[s].active == i
                &&& but_for_session(st, step.st, s)
                &&& step.plan.failed is None && step.plan.draw is Everyone
            } else {
                step.st == st && step.plan.failed == Some(StateError::NoTab)
            }
        }),
{
    let step = commanded(RemuxCommand::TabGoto(i), st, clients, me, d);
    if i < st.sessions[s].tabs.len() {
        assert(step.st.sessions.dom() =~= st.sessions.dom());
    }
}

/// A new tab comes behind the others and is shown. It has one pane with an id of its own,
/// for which a terminal of the client's size is started where the focused pane is.
pub proof fn law_a_new_tab_comes_last(
    st: StateView,
    clients: Seq<(u64, ClientView)>,
    me: int,
    d: SessionDefaults,
    s: Seq<char>,
)
    requires
        works_in(st, clients, me, s),
        st.next_pane < u64::MAX,
        st.sessions[s].tabs.len() < usize::MAX,
    ensures
        ({
            let step = commanded(RemuxCommand::TabNew, st, clients, me, d);
            let x = st.sessions[s];
            let y = step.st.sessions[s];
            &&& but_for_session(st, step.st, s)
            &&& y.tabs.len() == x.tabs.len() + 1
            &&& y.tabs.drop_last() == x.tabs
            &&& y.active == x.tabs.len()
            &&& y.tabs.last().order == seq![st.next_pane]
            &&& y.tabs.last().focused == st.next_pane
            &&& y.tabs.last().layout.ids() == seq![st.next_pane]
            &&& y.tabs.last().zoomed is None
            &&& step.st.next_pane == st.next_pane + 1
            &&& step.plan.spawn == Some(
                Spawn {
                    pane: st.next_pane,
                    size: SpawnSize::Exact(clients[me].1.cols, clients[me].1.rows),
                    source: Some(shown_tab(st, s).focused),
                },
            )
            &&& step.plan.forward && step.plan.resize && step.plan.draw is Everyone
        }),
{
    let step = commanded(RemuxCommand::TabNew, st, clients, me, d);
    let x = st.sessions[s];
    let y = step.st.sessions[s];
    assert(step.st.sessions.dom() =~= st.sessions.dom());
    assert(y.tabs.drop_last() =~= x.tabs);
    assert(y.tabs.last().layout.ids() =~= seq![st.next_pane]);
}

/// A closed tab goes with all its panes, and the other tabs keep their order. If it was
/// shown, the tab that followed it is shown, or the last one; else the same tab as before
/// is shown. The last tab takes its session along, from the folder too, and the clients go
/// elsewhere.
pub proof fn law_a_closed_tab_goes_with_its_panes(
    st: StateView,
    clients: Seq<(u64, ClientView)>,
    me: int,
    d: SessionDefaults,
    s: Seq<char>,
    session: String,
    i: usize,
    shown: bool,
)
    requires
        works_in(st, clients, me, s),
        session@ == s,
        i < st.sessions[s].tabs.len(),
        shown ==> i == st.sessions[s].active,
    ensures
        ({
            let step = commanded(
                if shown {
                    RemuxCommand::TabClose
                } else {
                    RemuxCommand::TabCloseByIndex { session, tab_index: i }
                },
                st,
                clients,
                me,
                d,
            );
            let x = st.sessions[s];
            let y = step.st.sessions[s];
            if x.tabs.len() == 1 {
                &&& step.st.sessions == st.sessions.remove(s)
                &&& forall|f: Seq<char>|
                    #[trigger] step.st.folders.contains_key(f) ==> step.st.folders[f].name
                        == st.folders[f].name && (x.folder == Some(f)
                        ==> !step.st.folders[f].session_ids.contains(s))
                &&& step.plan.gone == GoneView::Rehome(s)
                &&& step.plan.reap == x.everything()
            } else {
                &&& but_for_session(st, step.st, s)
                &&& y.tabs == x.tabs.remove(i as int)
                &&& i != x.active ==> y.tabs[y.active as int] == x.tabs[x.active as int]
                &&& i == x.active && i + 1 < x.tabs.len() ==> y.tabs[y.active as int] == x.tabs[i
                    + 1]
                &&& i == x.active && i + 1 == x.tabs.len() ==> y.active + 1 == y.tabs.len()
                &&& step.plan.reap == x.tabs[i as int].order
                &&& step.plan.gone is Nobody
                &&& step.plan.draw is Everyone && step.plan.invalidate
            }
        }),
{
    let step = commanded(
        if shown {
            RemuxCommand::TabClose
        } else {
            RemuxCommand::TabCloseByIndex { session, tab_index: i }
        },
        st,
        clients,
        me,
        d,
    );
    let x = st.sessions[s];
    if x.tabs.len() == 1 {
        if x.folder is Some && st.folders.contains_key(x.folder->0) {
            lemma_taken_out(st.folders[x.folder->0].session_ids, s);
        }
    } else {
        assert(step.st.sessions.dom() =~= st.sessions.dom());
    }
}

/// A tab gets the name that it is given, by itself or by its index, and nothing else of the
/// server changes.
pub proof fn law_a_tab_gets_its_name(
    st: StateView,
    clients: Seq<(u64, ClientView)>,
    me: int,
    d: SessionDefaults,
    s: Seq<char>,
    session: String,
    i: usize,
    name: String,
    shown: bool,
)
    requires
        works_in(st, clients, me, s),
        session@ == s,
        i < st.sessions[s].tabs.len(),
        shown ==> i == st.sessions[s].active,
    ensures
        ({
            let step = commanded(
                if shown {
                    RemuxCommand::TabRename(name)
                } else {
                    RemuxCommand::TabRenameByIndex { session, tab_index: i, name }
                },
                st,
                clients,
                me,
                d,
            );
            &&& but_for_tab(st, step.st, s, i as int)
            &&& step.st.sessions[s].tabs[i as int] == (TabView {
                name: name@,
                ..st.sessions[s].tabs[i as int]
            })
            &&& step.st.next_pane == st.next_pane
        }),
{
    let step = commanded(
        if shown {
            RemuxCommand::TabRename(name)
        } else {
            RemuxCommand::TabRenameByIndex { session, tab_index: i, name }
        },
        st,
        clients,
        me,
        d,
    );
    assert(step.st.sessions.dom() =~= st.sessions.dom());
}

// ---------------------------------------------------------------------------
// Panes
// ---------------------------------------------------------------------------

/// The percentage is met up to rounding.
proof fn lemma_percent(amount: u16)
    ensures
        -(100 + 100000 * amount) <= 100 * percent(amount) - amount * ONE <= 100 + 100000 * amount,
        percent(amount) < 0x4000_0000_0000_0000,
{
    assert(amount * ONE >= 0) by (nonlinear_arith)
        requires
            amount >= 0,
    ;
    lemma_rounding((amount * ONE) as nat, 100);
    assert(ONE == 0x100_0000_0000);
}

/// A resize to the right moves the border that is nearest to the focused pane among those
/// between panes side by side: the left part gains so many percent. To the left it loses
/// them. Down and up do the same for panes one above the other. No ratio leaves its range,
/// and where there is no such border nothing moves.
pub proof fn law_a_resize_goes_its_way(
    st: StateView,
    clients: Seq<(u64, ClientView)>,
    me: int,
    d: SessionDefaults,
    s: Seq<char>,
    way: FocusDirection,
    amount: u16,
) -> (near: Option<Seq<bool>>)
    requires
        works_in(st, clients, me, s),
        shown_tab(st, s).layout.ids().no_duplicates(),
    ensures
        ({
            let step = commanded(RemuxCommand::Resize(way, amount), st, clients, me, d);
            let t = shown_tab(st, s);
            let now = shown_tab(step.st, s);
            let direction = if way is Left || way is Right {
                Direction::Vertical
            } else {
                Direction::Horizontal
            };
            let gain: int = if way is Right || way is Down {
                amount as int
            } else {
                -(amount as int)
            };
            &&& but_for_tab(st, step.st, s, st.sessions[s].active as int)
            &&& now.order == t.order && now.focused == t.focused && now.zoomed == t.zoomed
            &&& now.mode is Custom
            &&& near is None ==> now.layout == t.layout && forall|q: Seq<bool>|
                !#[trigger] splits_around(part(t.layout, q), t.focused, direction)
            &&& near matches Some(path) ==> {
                &&& splits_around(part(t.layout, path), t.focused, direction)
                &&& forall|q: Seq<bool>|
                    q.len() > path.len() && #[trigger] path.is_prefix_of(q) ==> !splits_around(
                        part(t.layout, q),
                        t.focused,
                        direction,
                    )
                &&& match (part(t.layout, path), part(now.layout, path)) {
                    (
                        Some(Tree::Split { ratio: a, .. }),
                        Some(Tree::Split { ratio: b, .. }),
                    ) => {
                        let wanted = 100 * a.units + gain * ONE;
                        let aim = if wanted < 100 * MIN_RATIO_UNITS {
                            100 * MIN_RATIO_UNITS
                        } else if wanted > 100 * MAX_RATIO_UNITS {
                            100 * MAX_RATIO_UNITS
                        } else {
                            wanted
                        };
                        -(6553700 + 100000 * amount) <= 100 * b.units - aim <= 6553700 + 100000
                            * amount
                    },
                    _ => false,
                }
            }
            &&& step.plan.resize && step.plan.draw is Everyone
        }),
{
    let step = commanded(RemuxCommand::Resize(way, amount), st, clients, me, d);
    let t = shown_tab(st, s);
    let direction = if way is Left || way is Right {
        Direction::Vertical
    } else {
        Direction::Horizontal
    };
    let by: int = if way is Right || way is Down {
        percent(amount) as int
    } else {
        -(percent(amount) as int)
    };
    lemma_percent(amount);
    assert(step.st.sessions.dom() =~= st.sessions.dom());
    let path = law_a_resize_moves_the_nearest_border(
        t.layout,
        t.focused,
        direction,
        by,
        Rect { x: 0, y: 0, width: 0, height: 0 },
        0,
    );
    let now = shown_tab(step.st, s);
    let gain: int = if way is Right || way is Down {
        amount as int
    } else {
        -(amount as int)
    };
    assert(ONE == 0x100_0000_0000);
    assert(now == t.resized(direction, by));
    match t.layout.resized(t.focused, direction, by) {
        Some(r) => {
            assert(-(100 + 100000 * amount) <= 100 * by - gain * ONE <= 100 + 100000 * amount);
            Some(path)
        },
        None => None,
    }
}

/// A pane that is opened beside the focused one takes the right half of its place, one that
/// is opened below it the lower half, and one on its stack the whole. It gets the focus, an
/// id of its own, and a terminal of that share of the screen, which starts where the focused
/// pane is.
pub proof fn law_a_new_pane_shares_the_place(
    st: StateView,
    clients: Seq<(u64, ClientView)>,
    me: int,
    d: SessionDefaults,
    s: Seq<char>,
    how: PanePlacement,
    area: Rect,
) -> (k: int)
    requires
        works_in(st, clients, me, s),
        st.next_pane < u64::MAX,
        !(how is Auto),
        fits_screen(area),
        shown_tab(st, s).wf(),
        shown_tab(st, s).layout.ids().no_duplicates(),
        shown_tab(st, s).layout.visible().contains(shown_tab(st, s).focused),
    ensures
        ({
            let step = commanded(
                match how {
                    PanePlacement::SplitVertical => RemuxCommand::PaneSplitVertical,
                    PanePlacement::SplitHorizontal => RemuxCommand::PaneSplitHorizontal,
                    _ => RemuxCommand::PaneStackAdd,
                },
                st,
                clients,
                me,
                d,
            );
            let t = shown_tab(st, s);
            let after = shown_tab(step.st, s);
            let p = placed(t.layout, area, 0);
            let now = placed(after.layout, area, 0);
            let v = clients[me].1;
            &&& but_for_tab(st, step.st, s, st.sessions[s].active as int)
            &&& step.st.next_pane == st.next_pane + 1
            &&& after.focused == st.next_pane
            &&& after.order == t.order.push(st.next_pane)
            &&& 0 <= k < p.len() && p[k].0 == t.focused
            &&& how is Stack ==> now == p.update(k, (st.next_pane, p[k].1))
            &&& !(how is Stack) ==> {
                let side = if how is SplitVertical {
                    Direction::Vertical
                } else {
                    Direction::Horizontal
                };
                &&& now.len() == p.len() + 1
                &&& now.take(k) == p.take(k) && now.skip(k + 2) == p.skip(k + 1)
                &&& now[k].0 == t.focused && now[k + 1].0 == st.next_pane
                &&& halved(now[k].1, now[k + 1].1, side)
                &&& extent(now[k].1, side) + extent(now[k + 1].1, side) == extent(p[k].1, side)
                &&& extent(now[k + 1].1, across(side)) == extent(p[k].1, across(side))
            }
            &&& step.plan.spawn matches Some(sp) && sp.pane == st.next_pane && sp.source == Some(
                t.focused,
            ) && sp.size == SpawnSize::Exact(
                if how is SplitVertical {
                    v.cols / 2
                } else {
                    v.cols
                },
                if how is SplitHorizontal {
                    v.rows / 2
                } else {
                    v.rows
                },
            )
            &&& step.plan.forward && step.plan.resize && step.plan.draw is Everyone
        }),
{
    let step = commanded(
        match how {
            PanePlacement::SplitVertical => RemuxCommand::PaneSplitVertical,
            PanePlacement::SplitHorizontal => RemuxCommand::PaneSplitHorizontal,
            _ => RemuxCommand::PaneStackAdd,
        },
        st,
        clients,
        me,
        d,
    );
    assert(step.st.sessions.dom() =~= st.sessions.dom());
    law_a_new_pane_is_placed_by_the_focused_one(shown_tab(st, s), how, st.next_pane, area)
}

/// Turning the stack forward and turning it back are the two ways around it; each moves the
/// focus along and leaves everything else alone.
pub proof fn law_turning_moves_the_focus_along(
    st: StateView,
    clients: Seq<(u64, ClientView)>,
    me: int,
    d: SessionDefaults,
    s: Seq<char>,
    forward: bool,
    panes: Seq<PaneId>,
    at: int,
)
    requires
        works_in(st, clients, me, s),
        shown_tab(st, s).layout.has(shown_tab(st, s).focused),
        shown_tab(st, s).layout.wf(),
        shown_tab(st, s).layout.stack_of(shown_tab(st, s).focused) matches Some(
            Tree::Stack { panes: own, .. },
        ) && own == panes,
        panes.no_duplicates(),
        0 <= at < panes.len(),
        panes[at] == shown_tab(st, s).focused,
        panes.len() > 1,
    ensures
        ({
            let step = commanded(
                if forward {
                    RemuxCommand::PaneStackNext
                } else {
                    RemuxCommand::PaneStackPrev
                },
                st,
                clients,
                me,
                d,
            );
            let t = shown_tab(st, s);
            let now = shown_tab(step.st, s);
            &&& but_for_tab(st, step.st, s, st.sessions[s].active as int)
            &&& now.order == t.order && now.mode == t.mode && now.name == t.name
            &&& forward && at + 1 < panes.len() ==> now.focused == panes[at + 1]
            &&& forward && at + 1 == panes.len() ==> now.focused == panes[0]
            &&& !forward && at > 0 ==> now.focused == panes[at - 1]
            &&& !forward && at == 0 ==> now.focused == panes.last()
            &&& step.plan.draw is Everyone
        }),
{
    let step = commanded(
        if forward {
            RemuxCommand::PaneStackNext
        } else {
            RemuxCommand::PaneStackPrev
        },
        st,
        clients,
        me,
        d,
    );
    let t = shown_tab(st, s);
    assert(step.st.sessions.dom() =~= st.sessions.dom());
    let _ = crate::placement_laws::law_turning_shows_the_next_of_the_stack(
        t.layout,
        t.focused,
        forward,
        Rect { x: 0, y: 0, width: 0, height: 0 },
        0,
        panes,
        at,
    );
}

/// The pane with the focus gets the name that the user gives it, as its own and as the one
/// that is shown. The other panes keep theirs, and the typing of a name ends.
pub proof fn law_the_focused_pane_gets_its_name(
    st: StateView,
    clients: Seq<(u64, ClientView)>,
    me: int,
    d: SessionDefaults,
    s: Seq<char>,
    name: String,
    other: PaneId,
)
    requires
        works_in(st, clients, me, s),
        shown_tab(st, s).layout.has(shown_tab(st, s).focused),
        other != shown_tab(st, s).focused,
    ensures
        ({
            let step = commanded(RemuxCommand::PaneRename(name), st, clients, me, d);
            let t = shown_tab(st, s);
            let now = shown_tab(step.st, s);
            &&& but_for_session(st, step.st, s)
            &&& step.st.sessions[s].renaming is None
            &&& step.st.sessions[s].active == st.sessions[s].active
            &&& now == TabView { layout: now.layout, ..t }
            &&& now.layout.name_of(t.focused) == Some(name@)
            &&& now.layout.custom_name_of(t.focused) == Some(Some(name@))
            &&& now.layout.name_of(other) == t.layout.name_of(other)
            &&& now.layout.custom_name_of(other) == t.layout.custom_name_of(other)
            &&& step.plan.draw is Everyone
        }),
{
    let step = commanded(RemuxCommand::PaneRename(name), st, clients, me, d);
    let t = shown_tab(st, s);
    let once = t.layout.custom_named(t.focused, name@);
    assert(step.st.sessions.dom() =~= st.sessions.dom());
    law_a_custom_name_set_is_the_name_read(t.layout, t.focused, other, name@);
    law_a_custom_name_set_is_the_name_read(t.layout, t.focused, t.focused, name@);
    law_a_name_set_is_the_name_read(once, t.focused, other, name@);
    law_a_name_set_is_the_name_read(once, t.focused, t.focused, name@);
}

/// The zoom fills the tab with the focused pane and is released again, where the layout does
/// not show one pane anyway.
pub proof fn law_the_zoom_is_set_and_released(
    st: StateView,
    clients: Seq<(u64, ClientView)>,
    me: int,
    d: SessionDefaults,
    s: Seq<char>,
)
    requires
        works_in(st, clients, me, s),
    ensures
        ({
            let step = commanded(RemuxCommand::PaneToggleZoom, st, clients, me, d);
            let t = shown_tab(st, s);
            let now = shown_tab(step.st, s);
            &&& but_for_tab(st, step.st, s, st.sessions[s].active as int)
            &&& now == TabView { zoomed: now.zoomed, ..t }
            &&& t.zoomed is Some ==> now.zoomed is None
            &&& t.zoomed is None && !(t.mode is Monocle) ==> now.zoomed == Some(t.focused)
            &&& t.zoomed is None && t.mode is Monocle ==> now.zoomed is None
            &&& now != t ==> step.plan.resize && step.plan.draw is Everyone
        }),
{
    let step = commanded(RemuxCommand::PaneToggleZoom, st, clients, me, d);
    assert(step.st.sessions.dom() =~= st.sessions.dom());
}

/// A session has two looks, and the command swaps them.
pub proof fn law_a_session_has_two_looks(
    st: StateView,
    clients: Seq<(u64, ClientView)>,
    me: int,
    d: SessionDefaults,
    s: Seq<char>,
)
    requires
        works_in(st, clients, me, s),
    ensures
        ({
            let once = commanded(RemuxCommand::ToggleStyle, st, clients, me, d).st;
            let twice = commanded(RemuxCommand::ToggleStyle, once, clients, me, d).st;
            &&& once.sessions[s].style != st.sessions[s].style
            &&& but_for_session(st, once, s)
            &&& once.sessions[s] == SessionView {
                style: once.sessions[s].style,
                ..st.sessions[s]
            }
            &&& twice == st
        }),
{
    let once = commanded(RemuxCommand::ToggleStyle, st, clients, me, d).st;
    let twice = commanded(RemuxCommand::ToggleStyle, once, clients, me, d).st;
    assert(once.sessions.dom() =~= st.sessions.dom());
    assert(twice.sessions =~= st.sessions);
}

/// The first time the popup is asked for it gets a pane with an id of its own, whose terminal
/// starts where the focused pane is and fits the popup; after that it is only shown and
/// hidden.
pub proof fn law_the_popup_starts_once(
    st: StateView,
    clients: Seq<(u64, ClientView)>,
    me: int,
    d: SessionDefaults,
    s: Seq<char>,
)
    requires
        works_in(st, clients, me, s),
        st.next_pane < u64::MAX,
        clients[me].1.rows > 0,
    ensures
        ({
            let step = commanded(RemuxCommand::PopupToggle, st, clients, me, d);
            let x = st.sessions[s];
            let y = step.st.sessions[s];
            let v = clients[me].1;
            &&& but_for_session(st, step.st, s)
            &&& y.tabs == x.tabs && y.active == x.active && y.popup_size == x.popup_size
            &&& y.popup_visible
            &&& x.popup is Some ==> y.popup == x.popup && step.plan.spawn is None
                && step.st.next_pane == st.next_pane
            &&& x.popup is None ==> {
                &&& y.popup == Some(st.next_pane)
                &&& step.st.next_pane == st.next_pane + 1
                &&& step.plan.spawn matches Some(sp) && sp.pane == st.next_pane && sp.source
                    == Some(shown_tab(st, s).focused) && (sp.size matches SpawnSize::Popup {
                    area,
                    width_pct,
                    height_pct,
                } && width_pct == x.popup_size.0 && height_pct == x.popup_size.1 && area.width
                    == v.cols && area.height + 1 == v.rows)
            }
            &&& step.plan.draw is Everyone && step.plan.resize && step.plan.invalidate
        }),
{
    let step = commanded(RemuxCommand::PopupToggle, st, clients, me, d);
    assert(step.st.sessions.dom() =~= st.sessions.dom());
}

/// Keys go to the focused pane as they are, and change nothing.
pub proof fn law_keys_reach_the_focused_pane(
    st: StateView,
    clients: Seq<(u64, ClientView)>,
    me: int,
    d: SessionDefaults,
    s: Seq<char>,
    bytes: Vec<u8>,
)
    requires
        works_in(st, clients, me, s),
    ensures
        ({
            let step = commanded(RemuxCommand::SendKey(bytes), st, clients, me, d);
            step.st == st && step.clients == clients && step.plan.keys == Some(
                (shown_tab(st, s).focused, bytes@),
            )
        }),
{
}

/// While the popup is up, a resize changes its size and not the layout: to the right and
/// down it grows, to the left and up it shrinks, in that direction alone.
pub proof fn law_the_popup_is_resized_in_its_place(
    st: StateView,
    clients: Seq<(u64, ClientView)>,
    me: int,
    d: SessionDefaults,
    s: Seq<char>,
    way: FocusDirection,
    amount: u16,
)
    requires
        0 <= me < clients.len(),
        clients[me].1.session_name == Some(s),
        s.len() > 0,
        st.sessions.contains_key(s),
        st.sessions[s].popup_up(),
        amount <= i16::MAX,
    ensures
        ({
            let step = commanded(RemuxCommand::Resize(way, amount), st, clients, me, d);
            &&& step.st == st && step.clients == clients
            &&& step.plan.ask matches Some(Ask::PopupSize { width, height }) && match way {
                FocusDirection::Left => width == -amount && height == 0,
                FocusDirection::Right => width == amount && height == 0,
                FocusDirection::Up => width == 0 && height == -amount,
                FocusDirection::Down => width == 0 && height == amount,
            }
        }),
{
}

/// To close the focused pane by its id is to close the focused pane.
pub proof fn law_closing_by_id_is_closing(
    st: StateView,
    clients: Seq<(u64, ClientView)>,
    me: int,
    d: SessionDefaults,
    s: Seq<char>,
    session: String,
)
    requires
        works_in(st, clients, me, s),
        session@ == s,
        shown_tab(st, s).order.contains(shown_tab(st, s).focused),
    ensures
        commanded(
            RemuxCommand::PaneCloseById { session, pane_id: shown_tab(st, s).focused },
            st,
            clients,
            me,
            d,
        ) == commanded(RemuxCommand::PaneClose, st, clients, me, d),
{
}

/// To name the focused pane by its id is to name the focused pane.
pub proof fn law_naming_by_id_is_naming(
    st: StateView,
    clients: Seq<(u64, ClientView)>,
    me: int,
    d: SessionDefaults,
    s: Seq<char>,
    session: String,
    name: String,
)
    requires
        works_in(st, clients, me, s),
        session@ == s,
        shown_tab(st, s).order.contains(shown_tab(st, s).focused),
        forall|i: int|
            0 <= i < st.sessions[s].tabs.len() && i != st.sessions[s].active ==> !(
            #[trigger] st.sessions[s].tabs[i]).order.contains(shown_tab(st, s).focused),
        st.sessions[s].renaming is None,
    ensures
        commanded(
            RemuxCommand::PaneRenameById { session, pane_id: shown_tab(st, s).focused, name },
            st,
            clients,
            me,
            d,
        ).st == commanded(RemuxCommand::PaneRename(name), st, clients, me, d).st,
{
    let x = st.sessions[s];
    let pane = shown_tab(st, s).focused;
    law_a_pane_is_found_in_its_tab(x.tabs, pane);
    assert(crate::session::tab_with(x.tabs, pane, 0) == Some(x.active as int));
    assert(SessionView { renaming: None, ..x } == x);
    assert(st.with(s, x) =~= st) by {
        assert(st.sessions.insert(s, x) =~= st.sessions);
    }
}

/// A tab that is opened by the name of the client's session is one of its own.
pub proof fn law_opening_a_tab_by_name_is_opening(
    st: StateView,
    clients: Seq<(u64, ClientView)>,
    me: int,
    d: SessionDefaults,
    s: Seq<char>,
    session: String,
)
    requires
        works_in(st, clients, me, s),
        session@ == s,
    ensures
        commanded(RemuxCommand::TabNewInSession { session }, st, clients, me, d).st == commanded(
            RemuxCommand::TabNew,
            st,
            clients,
            me,
            d,
        ).st,
{
}

/// A pane that is opened by the name of the client's session and the index of the shown tab
/// is one of its own.
pub proof fn law_opening_a_pane_by_name_is_opening(
    st: StateView,
    clients: Seq<(u64, ClientView)>,
    me: int,
    d: SessionDefaults,
    s: Seq<char>,
    session: String,
)
    requires
        works_in(st, clients, me, s),
        session@ == s,
    ensures
        commanded(
            RemuxCommand::PaneNewInTab { session, tab_index: st.sessions[s].active },
            st,
            clients,
            me,
            d,
        ).st == commanded(RemuxCommand::PaneNew, st, clients, me, d).st,
{
    let i = st.sessions[s].active;
    assert(st.tab_at(s, Some(i)) == st.tab_at(s, None));
    assert(pane_placed(st, s, Some(i), PanePlacement::Auto) == pane_placed(
        st,
        s,
        None,
        PanePlacement::Auto,
    ));
}

/// The client's session is renamed by its name as it is without.
pub proof fn law_renaming_by_name_is_renaming(
    st: StateView,
    clients: Seq<(u64, ClientView)>,
    me: int,
    d: SessionDefaults,
    s: Seq<char>,
    session: String,
    name: String,
)
    requires
        works_in(st, clients, me, s),
        session@ == s,
    ensures
        commanded(
            RemuxCommand::SessionRenameByName { from: session, to: name },
            st,
            clients,
            me,
            d,
        ).st == commanded(RemuxCommand::SessionRename(name), st, clients, me, d).st,
{
}

/// What is opened by name in a session starts at the size that the session is drawn in.
/// Its clients, if there are any, are drawn anew.
pub proof fn law_what_is_opened_elsewhere_fits_there(
    st: StateView,
    clients: Seq<(u64, ClientView)>,
    me: int,
    d: SessionDefaults,
    s: Seq<char>,
    session: String,
    i: usize,
    tab: bool,
)
    requires
        works_in(st, clients, me, s),
        st.sessions.contains_key(session@),
        i < st.sessions[session@].tabs.len(),
        st.next_pane < u64::MAX,
    ensures
        ({
            let step = commanded(
                if tab {
                    RemuxCommand::TabNewInSession { session }
                } else {
                    RemuxCommand::PaneNewInTab { session, tab_index: i }
                },
                st,
                clients,
                me,
                d,
            );
            let size = render_size(clients, session@);
            &&& but_for_session(st, step.st, session@)
            &&& step.st.next_pane == st.next_pane + 1
            &&& step.plan.target == session@
            &&& step.plan.spawn matches Some(sp) && sp.pane == st.next_pane && sp.size
                == SpawnSize::Exact(size.0, size.1)
            &&& !tab ==> step.plan.spawn->0.source == Some(
                st.sessions[session@].tabs[i as int].focused,
            )
            &&& !tab ==> step.st.sessions[session@].tabs[i as int].order
                == st.sessions[session@].tabs[i as int].order.push(st.next_pane)
            &&& !tab ==> step.st.sessions[session@].active == st.sessions[session@].active
            &&& watched(clients, session@) ==> step.plan.draw is Everyone && step.plan.resize
            &&& !watched(clients, session@) ==> step.plan.draw is Nobody && !step.plan.resize
        }),
{
    let step = commanded(
        if tab {
            RemuxCommand::TabNewInSession { session }
        } else {
            RemuxCommand::PaneNewInTab { session, tab_index: i }
        },
        st,
        clients,
        me,
        d,
    );
    assert(step.st.sessions.dom() =~= st.sessions.dom());
}

/// A tab that is moved by some places ends up that much further along, as far as the row of
/// tabs goes, and the same tab is shown as before.
pub proof fn law_a_tab_moves_along_the_row(
    st: StateView,
    clients: Seq<(u64, ClientView)>,
    me: int,
    d: SessionDefaults,
    s: Seq<char>,
    session: String,
    i: usize,
    delta: i32,
)
    requires
        works_in(st, clients, me, s),
        session@ == s,
        i < st.sessions[s].tabs.len(),
    ensures
        ({
            let step = commanded(
                RemuxCommand::TabMoveByIndex { session, tab_index: i, delta },
                st,
                clients,
                me,
                d,
            );
            let x = st.sessions[s];
            let y = step.st.sessions[s];
            let to = if i + delta < 0 {
                0
            } else if i + delta >= x.tabs.len() {
                x.tabs.len() - 1
            } else {
                i + delta
            };
            &&& but_for_session(st, step.st, s)
            &&& y.tabs.len() == x.tabs.len()
            &&& y.tabs[to] == x.tabs[i as int]
            &&& y.tabs.remove(to) == x.tabs.remove(i as int)
            &&& y.tabs[y.active as int] == x.tabs[x.active as int]
        }),
{
    let step = commanded(
        RemuxCommand::TabMoveByIndex { session, tab_index: i, delta },
        st,
        clients,
        me,
        d,
    );
    assert(step.st.sessions.dom() =~= st.sessions.dom());
    law_a_tab_is_shifted_by_the_distance(st.sessions[s], i as int, delta as int);
    law_shifting_tabs_keeps_the_shown_one(st.sessions[s], i as int, delta as int);
}

/// A focus or a pane that is to be moved goes the way that was asked for, over the area of
/// the client's screen above the status bar.
pub proof fn law_a_way_is_handed_on(
    st: StateView,
    clients: Seq<(u64, ClientView)>,
    me: int,
    d: SessionDefaults,
    s: Seq<char>,
    way: FocusDirection,
)
    requires
        works_in(st, clients, me, s),
        clients[me].1.rows > 0,
    ensures
        ({
            let focus = commanded(RemuxCommand::PaneFocus(way), st, clients, me, d);
            let shift = commanded(RemuxCommand::PaneMove(way), st, clients, me, d);
            let v = clients[me].1;
            &&& focus.st == st && shift.st == st
            &&& focus.plan.ask matches Some(Ask::Focus { direction, area }) && direction == way
                && area.x == 0 && area.y == 0 && area.width == v.cols && area.height + 1 == v.rows
            &&& shift.plan.ask matches Some(Ask::Move { direction, area }) && direction == way
                && area.x == 0 && area.y == 0 && area.width == v.cols && area.height + 1 == v.rows
            &&& !focus.plan.resize && shift.plan.resize
            &&& focus.plan.draw is Everyone && shift.plan.draw is Everyone
        }),
{
}

/// The layout command takes the next mode of the cycle and the master command the master
/// mode, led by the focused pane; the panes stay the same, and their terminals get new sizes.
pub proof fn law_the_layout_commands_keep_the_panes(
    st: StateView,
    clients: Seq<(u64, ClientView)>,
    me: int,
    d: SessionDefaults,
    s: Seq<char>,
    area: Rect,
)
    requires
        works_in(st, clients, me, s),
        shown_tab(st, s).wf(),
        shown_tab(st, s).order.len() <= usize::MAX,
    ensures
        ({
            let next = commanded(RemuxCommand::LayoutNext, st, clients, me, d);
            let led = commanded(RemuxCommand::SetMaster, st, clients, me, d);
            let t = shown_tab(st, s);
            let a = shown_tab(next.st, s);
            let b = shown_tab(led.st, s);
            let p = placed(b.layout, area, 0);
            &&& but_for_tab(st, next.st, s, st.sessions[s].active as int)
            &&& but_for_tab(st, led.st, s, st.sessions[s].active as int)
            &&& a.order == t.order && b.order == t.order
            &&& t.mode is Bsp ==> a.mode is Master
            &&& t.mode is Master ==> a.mode is Monocle
            &&& t.mode is Monocle ==> a.mode is Grid
            &&& t.mode is Custom ==> a.mode is Bsp
            &&& b.mode is Master && b.focused == t.focused
            &&& t.order.len() == 2 ==> p[0].0 == t.focused
            &&& t.order.len() >= 3 ==> p[t.order.len() as int / 2].0 == t.focused
            &&& next.plan.resize && led.plan.resize
            &&& next.plan.draw is Everyone && led.plan.draw is Everyone
        }),
{
    let next = commanded(RemuxCommand::LayoutNext, st, clients, me, d);
    let led = commanded(RemuxCommand::SetMaster, st, clients, me, d);
    assert(next.st.sessions.dom() =~= st.sessions.dom());
    assert(led.st.sessions.dom() =~= st.sessions.dom());
    let t = shown_tab(st, s);
    law_the_next_layout_shows_all_panes(t);
    if t.order.len() >= 2 {
        law_the_focused_pane_becomes_the_master(t, area);
    }
}

// ---------------------------------------------------------------------------
// Clients
// ---------------------------------------------------------------------------

/// A client that detaches belongs to no session. Nobody else moves, and the server keeps
/// everything.
pub proof fn law_a_detached_client_leaves_all_behind(
    st: StateView,
    clients: Seq<(u64, ClientView)>,
    me: int,
    d: SessionDefaults,
    s: Seq<char>,
    other: int,
)
    requires
        works_in(st, clients, me, s),
        0 <= other < clients.len(),
        other != me,
    ensures
        ({
            let step = commanded(RemuxCommand::SessionDetach, st, clients, me, d);
            &&& step.st == st
            &&& step.clients.len() == clients.len()
            &&& step.clients[other] == clients[other]
            &&& step.clients[me].0 == clients[me].0
            &&& step.clients[me].1 == ClientView { session_name: None, ..clients[me].1 }
            &&& step.plan.draw is Nobody
        }),
{
}

/// A client that switches to a tab, or a pane, of a session is attached to it, the tab is
/// shown there and the pane has the focus. Only this client is drawn anew at once, and no
/// other session and no other client changes.
pub proof fn law_a_client_goes_where_it_switches(
    st: StateView,
    clients: Seq<(u64, ClientView)>,
    me: int,
    d: SessionDefaults,
    s: Seq<char>,
    session: String,
    i: usize,
    pane: Option<PaneId>,
    other: int,
)
    requires
        works_in(st, clients, me, s),
        0 <= other < clients.len(),
        other != me,
    ensures
        ({
            let step = commanded(
                match pane {
                    Some(p) => RemuxCommand::SessionSwitchPane {
                        session,
                        tab_index: i,
                        pane_id: p,
                    },
                    None => RemuxCommand::SessionSwitchTab { session, tab_index: i },
                },
                st,
                clients,
                me,
                d,
            );
            let y = step.st.sessions[session@];
            &&& step.clients.len() == clients.len()
            &&& step.clients[me].0 == clients[me].0
            &&& step.clients[me].1 == ClientView { session_name: Some(session@), ..clients[me].1 }
            &&& step.clients[other] == clients[other]
            &&& if st.sessions.contains_key(session@) && i < st.sessions[session@].tabs.len() {
                &&& but_for_session(st, step.st, session@)
                &&& y.active == i && y.tabs.len() == st.sessions[session@].tabs.len()
                &&& y.tabs[i as int].activity is Quiet
                &&& y.tabs[i as int].focused == (match pane {
                    Some(p) => p,
                    None => st.sessions[session@].tabs[i as int].focused,
                })
                &&& y.tabs[i as int].layout == st.sessions[session@].tabs[i as int].layout
                &&& step.plan.draw is Requester && step.plan.target == session@
            } else {
                step.st == st
            }
        }),
{
    let step = commanded(
        match pane {
            Some(p) => RemuxCommand::SessionSwitchPane { session, tab_index: i, pane_id: p },
            None => RemuxCommand::SessionSwitchTab { session, tab_index: i },
        },
        st,
        clients,
        me,
        d,
    );
    if st.sessions.contains_key(session@) && i < st.sessions[session@].tabs.len() {
        assert(step.st.sessions.dom() =~= st.sessions.dom());
    }
}

// ---------------------------------------------------------------------------
// Sessions and folders
// ---------------------------------------------------------------------------

/// A name that is taken out of a list is gone, and the others stay.
pub proof fn lemma_taken_out(list: Seq<Seq<char>>, name: Seq<char>)
    ensures
        !without_name(list, name).contains(name),
        forall|k: Seq<char>|
            k != name ==> (#[trigger] without_name(list, name).contains(k) == list.contains(k)),
    decreases list.len(),
{
    if list.len() > 0 {
        let rest = list.drop_last();
        lemma_taken_out(rest, name);
        assert(list =~= rest.push(list.last()));
        let left = without_name(rest, name);
        assert forall|k: Seq<char>| k != name implies (#[trigger] without_name(list, name).contains(
            k,
        ) == list.contains(k)) by {
            assert(left.contains(k) == rest.contains(k));
            if list.contains(k) {
                let j = choose|j: int| 0 <= j < list.len() && list[j] == k;
                if j < rest.len() {
                    assert(rest[j] == k);
                    let m = choose|m: int| 0 <= m < left.len() && left[m] == k;
                    assert(without_name(list, name)[m] == k);
                } else {
                    assert(without_name(list, name).last() == k);
                }
            }
            if without_name(list, name).contains(k) {
                let j = choose|j: int|
                    0 <= j < without_name(list, name).len() && without_name(list, name)[j] == k;
                if j < left.len() {
                    assert(left[j] == k);
                    let m = choose|m: int| 0 <= m < rest.len() && rest[m] == k;
                    assert(list[m] == k);
                } else {
                    assert(list.last() == k);
                }
            }
        }
        if without_name(list, name).contains(name) {
            let j = choose|j: int|
                0 <= j < without_name(list, name).len() && without_name(list, name)[j] == name;
            if j < left.len() {
                assert(left[j] == name);
            }
        }
    }
}

/// A name that is put on a list is there, and so are the others.
pub proof fn lemma_put_on(list: Seq<Seq<char>>, name: Seq<char>)
    ensures
        with_name(list, name).contains(name),
        forall|k: Seq<char>|
            k != name ==> (#[trigger] with_name(list, name).contains(k) == list.contains(k)),
{
    let now = with_name(list, name);
    if !list.contains(name) {
        assert(now.last() == name);
        assert forall|k: Seq<char>| k != name implies (#[trigger] now.contains(k) == list.contains(
            k,
        )) by {
            if list.contains(k) {
                let j = choose|j: int| 0 <= j < list.len() && list[j] == k;
                assert(now[j] == k);
            }
            if now.contains(k) {
                let j = choose|j: int| 0 <= j < now.len() && now[j] == k;
                assert(list[j] == k);
            }
        }
    }
}

/// A session that is filed elsewhere is listed in the new folder and in no way in the old
/// one, knows its folder, and is otherwise as before; no other session and no other folder
/// is touched. Only a session that is there is filed, and only in a folder that is there.
pub proof fn law_a_session_moves_between_folders(
    st: StateView,
    clients: Seq<(u64, ClientView)>,
    me: int,
    d: SessionDefaults,
    s: Seq<char>,
    session: String,
    folder: Option<String>,
    f: Seq<char>,
)
    requires
        works_in(st, clients, me, s),
    ensures
        ({
            let step = commanded(
                RemuxCommand::FolderMoveSession { session, folder },
                st,
                clients,
                me,
                d,
            );
            let to = match folder {
                Some(x) => Some(x@),
                None => None,
            };
            let old_place = st.sessions[session@].folder;
            if !st.sessions.contains_key(session@) {
                step.st == st && step.plan.failed == Some(StateError::NoSession)
            } else if to is Some && !st.folders.contains_key(to->0) {
                step.st == st && step.plan.failed == Some(StateError::NoFolder)
            } else {
                &&& step.plan.failed is None
                &&& step.st.sessions.dom() == st.sessions.dom()
                &&& forall|k: Seq<char>|
                    k != session@ && #[trigger] st.sessions.contains_key(k)
                        ==> step.st.sessions[k] == st.sessions[k]
                &&& step.st.sessions[session@] == SessionView { folder: to, ..st.sessions[session@] }
                &&& step.st.folders.dom() == st.folders.dom()
                &&& to is Some ==> step.st.folders[to->0].session_ids.contains(session@)
                &&& old_place is Some && st.folders.contains_key(old_place->0) && old_place != to
                    ==> !step.st.folders[old_place->0].session_ids.contains(session@)
                &&& st.folders.contains_key(f) && to != Some(f) && old_place != Some(f)
                    ==> step.st.folders[f] == st.folders[f]
                &&& forall|k: Seq<char>|
                    k != session@ && st.folders.contains_key(f) ==> (
                    #[trigger] step.st.folders[f].session_ids.contains(k)
                        == st.folders[f].session_ids.contains(k))
            }
        }),
{
    let step = commanded(RemuxCommand::FolderMoveSession { session, folder }, st, clients, me, d);
    let to = match folder {
        Some(x) => Some(x@),
        None => None,
    };
    if st.sessions.contains_key(session@) && (to is Some ==> st.folders.contains_key(to->0)) {
        let old_place = st.sessions[session@].folder;
        let mid = crate::state::unfiled(st.folders, old_place, session@);
        assert(step.st.sessions.dom() =~= st.sessions.dom());
        assert(mid.dom() =~= st.folders.dom());
        assert(step.st.folders.dom() =~= st.folders.dom());
        if old_place is Some && st.folders.contains_key(old_place->0) {
            lemma_taken_out(st.folders[old_place->0].session_ids, session@);
        }
        if to is Some {
            lemma_put_on(mid[to->0].session_ids, session@);
        }
    }
}

/// A folder with a new name keeps its sessions, and they know it by that name. The old name
/// is free, and the other folders and sessions are as before.
pub proof fn law_a_folder_keeps_its_sessions(
    st: StateView,
    clients: Seq<(u64, ClientView)>,
    me: int,
    d: SessionDefaults,
    s: Seq<char>,
    from: String,
    to: String,
    k: Seq<char>,
)
    requires
        works_in(st, clients, me, s),
        from@ != to@,
    ensures
        ({
            let step = commanded(RemuxCommand::FolderRename { from, to }, st, clients, me, d);
            if st.folders.contains_key(from@) && !st.folders.contains_key(to@) {
                &&& step.st.folders.contains_key(to@) && !step.st.folders.contains_key(from@)
                &&& step.st.folders[to@].name == to@
                &&& step.st.folders[to@].session_ids == st.folders[from@].session_ids
                &&& k != from@ && k != to@ ==> step.st.folders.contains_key(k)
                    == st.folders.contains_key(k)
                &&& k != from@ && st.folders.contains_key(k) ==> step.st.folders[k]
                    == st.folders[k]
                &&& step.st.sessions.contains_key(k) == st.sessions.contains_key(k)
                &&& st.sessions.contains_key(k) ==> step.st.sessions[k] == SessionView {
                    folder: if st.sessions[k].folder == Some(from@) {
                        Some(to@)
                    } else {
                        st.sessions[k].folder
                    },
                    ..st.sessions[k]
                }
            } else {
                step.st == st
            }
        }),
{
}

/// A new folder is empty, and changes nothing else. One that is there already is an error.
pub proof fn law_a_new_folder_is_empty(
    st: StateView,
    clients: Seq<(u64, ClientView)>,
    me: int,
    d: SessionDefaults,
    s: Seq<char>,
    name: String,
    k: Seq<char>,
)
    requires
        works_in(st, clients, me, s),
        k != name@,
    ensures
        ({
            let step = commanded(RemuxCommand::FolderNew(name), st, clients, me, d);
            if st.folders.contains_key(name@) {
                step.st == st && step.plan.failed == Some(StateError::FolderExists)
            } else {
                &&& step.plan.failed is None
                &&& step.st.sessions == st.sessions
                &&& step.st.folders.contains_key(name@)
                &&& step.st.folders[name@].name == name@
                &&& step.st.folders[name@].session_ids.len() == 0
                &&& step.st.folders.contains_key(k) == st.folders.contains_key(k)
                &&& st.folders.contains_key(k) ==> step.st.folders[k] == st.folders[k]
            }
        }),
{
}

/// A new session has one tab of one pane, stands in the folder that was asked for and looks
/// as the settings say; all clients hear of it. No other session changes. A name that is
/// taken and a folder that is not there are errors.
pub proof fn law_a_new_session_has_one_pane(
    st: StateView,
    clients: Seq<(u64, ClientView)>,
    me: int,
    d: SessionDefaults,
    s: Seq<char>,
    name: String,
    folder: Option<String>,
    k: Seq<char>,
)
    requires
        works_in(st, clients, me, s),
        st.next_pane < u64::MAX,
        k != name@,
    ensures
        ({
            let step = commanded(RemuxCommand::SessionNew { name, folder }, st, clients, me, d);
            let to = match folder {
                Some(x) => Some(x@),
                None => None,
            };
            let y = step.st.sessions[name@];
            if st.sessions.contains_key(name@) {
                step.st == st && step.plan.failed == Some(StateError::SessionExists)
            } else if to is Some && !st.folders.contains_key(to->0) {
                step.st == st && step.plan.failed == Some(StateError::NoFolder)
            } else {
                &&& step.plan.failed is None && step.plan.announce == Some(name@)
                &&& step.st.sessions.contains_key(name@)
                &&& step.st.sessions.contains_key(k) == st.sessions.contains_key(k)
                &&& st.sessions.contains_key(k) ==> step.st.sessions[k] == st.sessions[k]
                &&& y.name == name@ && y.folder == to
                &&& y.style == d.border_style && y.popup_size == d.popup_size
                &&& y.popup is None && !y.popup_visible && y.renaming is None
                &&& y.tabs.len() == 1 && y.active == 0
                &&& y.tabs[0].order == seq![st.next_pane]
                &&& y.tabs[0].focused == st.next_pane
                &&& y.tabs[0].mode == d.layout_mode
                &&& step.st.next_pane == st.next_pane + 1
                &&& to is Some ==> step.st.folders[to->0].session_ids.contains(name@)
                &&& st.folders.contains_key(k) && to != Some(k) ==> step.st.folders[k]
                    == st.folders[k]
                &&& step.plan.spawn matches Some(sp) && sp.pane == st.next_pane && sp.source is None
                    && sp.size == SpawnSize::Exact(clients[me].1.cols, clients[me].1.rows)
                &&& step.clients == clients
            }
        }),
{
    let to = match folder {
        Some(x) => Some(x@),
        None => None,
    };
    if to is Some && st.folders.contains_key(to->0) {
        lemma_put_on(st.folders[to->0].session_ids, name@);
    }
}

/// A session under a new name is the same session. Its folder lists it by the new name and
/// no longer by the old one, and nothing else changes.
pub proof fn law_a_renamed_session_is_the_same(
    st: StateView,
    clients: Seq<(u64, ClientView)>,
    me: int,
    d: SessionDefaults,
    s: Seq<char>,
    name: String,
    k: Seq<char>,
)
    requires
        works_in(st, clients, me, s),
        k != s,
        k != name@,
    ensures
        ({
            let step = commanded(RemuxCommand::SessionRename(name), st, clients, me, d);
            let home = st.sessions[s].folder;
            if st.sessions.contains_key(name@) {
                step.st == st && step.plan.failed == Some(StateError::SessionExists)
            } else {
                &&& step.plan.failed is None
                &&& step.st.sessions.contains_key(name@) && !step.st.sessions.contains_key(s)
                &&& step.st.sessions[name@] == SessionView { name: name@, ..st.sessions[s] }
                &&& step.st.sessions.contains_key(k) == st.sessions.contains_key(k)
                &&& st.sessions.contains_key(k) ==> step.st.sessions[k] == st.sessions[k]
                &&& step.st.folders.dom() == st.folders.dom()
                &&& home is Some && st.folders.contains_key(home->0) ==> {
                    let ids = step.st.folders[home->0].session_ids;
                    ids.contains(name@) && !ids.contains(s) && ids.contains(k)
                        == st.folders[home->0].session_ids.contains(k)
                }
                &&& st.folders.contains_key(k) && home != Some(k) ==> step.st.folders[k]
                    == st.folders[k]
                &&& step.clients[me].1.session_name == Some(name@)
            }
        }),
{
    let step = commanded(RemuxCommand::SessionRename(name), st, clients, me, d);
    let home = st.sessions[s].folder;
    if !st.sessions.contains_key(name@) {
        assert(step.st.folders.dom() =~= st.folders.dom());
        if home is Some && st.folders.contains_key(home->0) {
            let ids = st.folders[home->0].session_ids;
            lemma_taken_out(ids, s);
            lemma_put_on(without_name(ids, s), name@);
        }
    }
}

} // verus!
