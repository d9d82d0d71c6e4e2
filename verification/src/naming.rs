//! The names of panes: those of the programs that run in them, and those that users gave.

use crate::layout::{
    all_pane_ids, get_pane_custom_name, get_pane_name, set_pane_name, LayoutNode, PaneId, Tree,
};
use crate::layout_laws::law_a_name_set_is_the_name_read;
use crate::names::lemma_entries;
use crate::session::{tab_with, SessionView};
use crate::state::{ServerState, StateView};
use crate::tab::{sound_tree, TabView};
use crate::tab_laws::lemma_naming_fits;
use crate::text::same_text;
use std::collections::HashMap;
use vstd::prelude::*;

verus! {

broadcast use vstd::std_specs::hash::group_hash_axioms;

/// Texts by pane.
pub open spec fn by_pane(m: Map<PaneId, String>) -> Map<PaneId, Seq<char>> {
    Map::new(|p: PaneId| m.contains_key(p), |p: PaneId| m[p]@)
}

// ---------------------------------------------------------------------------
// Names of programs
// ---------------------------------------------------------------------------

/// The name of a pane follows its program: no user gave the pane a name or is about to, and
/// the program's name is known.
pub open spec fn follows(
    t: Tree,
    pane: PaneId,
    renaming: Option<PaneId>,
    found: Map<PaneId, Seq<char>>,
) -> bool {
    &&& renaming != Some(pane)
    &&& !(t.custom_name_of(pane) matches Some(Some(_)))
    &&& found.contains_key(pane)
}

/// A tree with the first `n` of the panes named after their programs.
pub open spec fn auto_named(
    t: Tree,
    panes: Seq<PaneId>,
    renaming: Option<PaneId>,
    found: Map<PaneId, Seq<char>>,
    n: int,
) -> Tree
    decreases n,
{
    if n <= 0 {
        t
    } else {
        let before = auto_named(t, panes, renaming, found, n - 1);
        if follows(before, panes[n - 1], renaming, found) {
            before.named(panes[n - 1], found[panes[n - 1]])
        } else {
            before
        }
    }
}

/// One of the first `n` panes had another name before.
pub open spec fn names_change(
    t: Tree,
    panes: Seq<PaneId>,
    renaming: Option<PaneId>,
    found: Map<PaneId, Seq<char>>,
    n: int,
) -> bool
    decreases n,
{
    if n <= 0 {
        false
    } else {
        let before = auto_named(t, panes, renaming, found, n - 1);
        names_change(t, panes, renaming, found, n - 1) || (follows(
            before,
            panes[n - 1],
            renaming,
            found,
        ) && before.name_of(panes[n - 1]) != Some(found[panes[n - 1]]))
    }
}

fn name_panes(
    t: &mut LayoutNode,
    panes: &Vec<PaneId>,
    renaming: Option<PaneId>,
    found: &HashMap<PaneId, String>,
) -> (r: bool)
    ensures
        final(t)@ == auto_named(
            old(t)@,
            panes@,
            renaming,
            by_pane(found@),
            panes@.len() as int,
        ),
        r == names_change(old(t)@, panes@, renaming, by_pane(found@), panes@.len() as int),
{
    let ghost names = by_pane(found@);
    let mut changed: bool = false;
    let mut i: usize = 0;
    while i < panes.len()
        invariant
            i <= panes.len(),
            names == by_pane(found@),
            t@ == auto_named(old(t)@, panes@, renaming, names, i as int),
            changed == names_change(old(t)@, panes@, renaming, names, i as int),
        decreases panes.len() - i,
    {
        let pane: PaneId = panes[i];
        let busy: bool = match renaming {
            Some(p) => p == pane,
            None => false,
        };
        let custom: bool = match get_pane_custom_name(t, pane) {
            Some(Some(_)) => true,
            _ => false,
        };
        if !busy && !custom {
            match found.get(&pane) {
                Some(name) => {
                    assert(follows(t@, pane, renaming, names));
                    let same: bool = match get_pane_name(t, pane) {
                        Some(old_name) => same_text(&old_name, name),
                        None => false,
                    };
                    if !same {
                        changed = true;
                    }
                    set_pane_name(t, pane, name);
                },
                None => {},
            }
        }
        i += 1;
    }
    changed
}

/// The pane of a session that is being renamed.
pub open spec fn being_renamed(s: SessionView) -> Option<PaneId> {
    match s.renaming {
        Some((p, _)) => Some(p),
        None => None,
    }
}

/// A tab with its panes named after their programs.
pub open spec fn tab_auto_named(
    t: TabView,
    renaming: Option<PaneId>,
    found: Map<PaneId, Seq<char>>,
) -> TabView {
    let panes = t.layout.ids();
    TabView {
        layout: auto_named(t.layout, panes, renaming, found, panes.len() as int),
        ..t
    }
}

/// The state with the panes of the tab that a session shows named after their programs.
pub open spec fn pane_names_updated(
    st: StateView,
    session: Seq<char>,
    found: Map<PaneId, Seq<char>>,
) -> StateView {
    if st.sessions.contains_key(session) {
        let s = st.sessions[session];
        match s.current() {
            Some(t) => st.with(
                session,
                s.with_current(tab_auto_named(t, being_renamed(s), found)),
            ),
            None => st,
        }
    } else {
        st
    }
}

/// One of those panes had another name before.
pub open spec fn pane_names_change(
    st: StateView,
    session: Seq<char>,
    found: Map<PaneId, Seq<char>>,
) -> bool {
    st.sessions.contains_key(session) && {
        let s = st.sessions[session];
        s.current() matches Some(t) && names_change(
            t.layout,
            t.layout.ids(),
            being_renamed(s),
            found,
            t.layout.ids().len() as int,
        )
    }
}

/// Name the panes of the tab that a session shows after their programs, but for those that
/// have a name of a user's own and the one that is being renamed. The result says whether
/// a name changed.
pub fn update_auto_pane_names(
    session: &str,
    st: &mut ServerState,
    found: &HashMap<PaneId, String>,
) -> (r: bool)
    requires
        old(st).named(),
    ensures
        final(st).named(),
        old(st).sound() ==> final(st).sound(),
        final(st)@ == pane_names_updated(old(st)@, session@, by_pane(found@)),
        r == pane_names_change(old(st)@, session@, by_pane(found@)),
{
    let ghost names = by_pane(found@);
    proof {
        if st.sound() {
            law_naming_keeps_the_server_sound(st@, session@, names);
        }
    }
    let mut changed: bool = false;
    match st.sessions.get_mut(session) {
        Some(s) => {
            let ghost before = s@;
            let renaming: Option<PaneId> = match &s.rename_state {
                Some((p, _)) => Some(*p),
                None => None,
            };
            if s.active_tab < s.tabs.len() {
                let at: usize = s.active_tab;
                assert(before.tabs[at as int] == s.tabs@[at as int]@);
                let ids = all_pane_ids(&s.tabs[at].layout);
                changed = name_panes(&mut s.tabs[at].layout, &ids, renaming, found);
                assert(s@ =~= before.with_current(
                    tab_auto_named(before.tabs[at as int], being_renamed(before), names),
                ));
            }
        },
        None => {},
    }
    assert(st@ =~= pane_names_updated(old(st)@, session@, names));
    changed
}

// ---------------------------------------------------------------------------
// Labels
// ---------------------------------------------------------------------------

/// The names of a session and of the tab in it that has a pane.
pub open spec fn labels(st: StateView, pane: PaneId, session: Seq<char>, tab: Seq<char>) -> bool {
    exists|k: Seq<char>, i: int|
        #![trigger st.sessions[k].tabs[i]]
        st.sessions.contains_key(k) && 0 <= i < st.sessions[k].tabs.len()
            && st.sessions[k].tabs[i].order.contains(pane) && session == st.sessions[k].name && tab
            == st.sessions[k].tabs[i].name
}

/// Some tab has the pane.
pub open spec fn is_listed(st: StateView, pane: PaneId) -> bool {
    exists|k: Seq<char>, i: int|
        #![trigger st.sessions[k].tabs[i]]
        st.sessions.contains_key(k) && 0 <= i < st.sessions[k].tabs.len()
            && st.sessions[k].tabs[i].order.contains(pane)
}

/// The names of the session and the tab that a pane belongs to; both empty if it belongs to
/// none.
pub fn pane_labels(st: &ServerState, pane: PaneId) -> (r: (String, String))
    requires
        st.named(),
    ensures
        is_listed(st@, pane) ==> labels(st@, pane, r.0@, r.1@),
        !is_listed(st@, pane) ==> r.0@.len() == 0 && r.1@.len() == 0,
{
    let ghost entries = st.sessions.entries@;
    proof {
        lemma_entries(entries);
    }
    let mut i: usize = 0;
    while i < st.sessions.entries.len()
        invariant
            i <= st.sessions.entries.len(),
            entries == st.sessions.entries@,
            forall|k: int|
                #![trigger entries[k]]
                0 <= k < entries.len() ==> st@.sessions.contains_key(entries[k].0@)
                    && st@.sessions[entries[k].0@] == entries[k].1@,
            forall|k: int| 0 <= k < i ==> tab_with((#[trigger] entries[k]).1@.tabs, pane, 0) is None,
        decreases st.sessions.entries.len() - i,
    {
        match st.sessions.entries[i].1.find_tab(pane) {
            Some(at) => {
                let ghost s = entries[i as int].1@;
                let ghost key = entries[i as int].0@;
                proof {
                    crate::session::lemma_tab_with(s.tabs, pane, 0);
                }
                let session: String = st.sessions.entries[i].1.name.clone();
                let tab: String = st.sessions.entries[i].1.tabs[at].name.clone();
                assert(st@.sessions[key].tabs[at as int].name == tab@);
                return (session, tab);
            },
            None => {},
        }
        i += 1;
    }
    proof {
        lemma_entries(entries);
        if is_listed(st@, pane) {
            let (k, t) = choose|k: Seq<char>, t: int|
                #![trigger st@.sessions[k].tabs[t]]
                st@.sessions.contains_key(k) && 0 <= t < st@.sessions[k].tabs.len()
                    && st@.sessions[k].tabs[t].order.contains(pane);
            let a = choose|a: int| 0 <= a < entries.len() && (#[trigger] entries[a]).0@ == k;
            crate::session::lemma_tab_with(entries[a].1@.tabs, pane, 0);
        }
    }
    (String::new(), String::new())
}

// ---------------------------------------------------------------------------
// Names for the session tree
// ---------------------------------------------------------------------------

/// A user's own name for a pane in some tab.
pub open spec fn own_name(st: StateView, pane: PaneId, name: Seq<char>) -> bool {
    exists|k: Seq<char>, i: int|
        #![trigger st.sessions[k].tabs[i]]
        st.sessions.contains_key(k) && 0 <= i < st.sessions[k].tabs.len()
            && st.sessions[k].tabs[i].layout.custom_name_of(pane) == Some(Some(name))
}

/// A pane has the same name in both, or none in either.
pub open spec fn same_name(
    a: Map<PaneId, Seq<char>>,
    b: Map<PaneId, Seq<char>>,
    pane: PaneId,
) -> bool {
    a.contains_key(pane) == b.contains_key(pane) && (a.contains_key(pane) ==> a[pane] == b[pane])
}

/// The name that the session tree shows for a pane: a user's own name goes before the name
/// of the program.
pub open spec fn shows_name(
    st: StateView,
    found: Map<PaneId, Seq<char>>,
    shown: Map<PaneId, Seq<char>>,
    pane: PaneId,
) -> bool {
    if exists|n: Seq<char>| own_name(st, pane, n) {
        shown.contains_key(pane) && own_name(st, pane, shown[pane])
    } else {
        same_name(shown, found, pane)
    }
}

/// The names that the session tree shows for panes.
pub open spec fn shown_names(
    st: StateView,
    found: Map<PaneId, Seq<char>>,
    shown: Map<PaneId, Seq<char>>,
) -> bool {
    forall|p: PaneId| #[trigger] shows_name(st, found, shown, p)
}

/// The entries up to a session, and the tabs of that session up to one, name the pane.
spec fn named_so_far(
    entries: Seq<(String, crate::session::Session)>,
    i: int,
    j: int,
    pane: PaneId,
    name: Seq<char>,
) -> bool {
    exists|a: int, t: int|
        #![trigger entries[a].1@.tabs[t]]
        0 <= a <= i && a < entries.len() && 0 <= t < entries[a].1@.tabs.len() && (a < i || t < j)
            && entries[a].1@.tabs[t].layout.custom_name_of(pane) == Some(Some(name))
}

spec fn shown_so_far(
    entries: Seq<(String, crate::session::Session)>,
    i: int,
    j: int,
    found: Map<PaneId, Seq<char>>,
    shown: Map<PaneId, Seq<char>>,
) -> bool {
    forall|p: PaneId| #[trigger] shows_so_far(entries, i, j, found, shown, p)
}

spec fn shows_so_far(
    entries: Seq<(String, crate::session::Session)>,
    i: int,
    j: int,
    found: Map<PaneId, Seq<char>>,
    shown: Map<PaneId, Seq<char>>,
    p: PaneId,
) -> bool {
    if exists|n: Seq<char>| named_so_far(entries, i, j, p, n) {
        shown.contains_key(p) && named_so_far(entries, i, j, p, shown[p])
    } else {
        same_name(shown, found, p)
    }
}

/// The custom names of one tab put over others.
spec fn overlaid(
    t: Tree,
    n: int,
    before: Map<PaneId, Seq<char>>,
    after: Map<PaneId, Seq<char>>,
) -> bool {
    forall|p: PaneId| #[trigger] overlaid_at(t, n, before, after, p)
}

spec fn overlaid_at(
    t: Tree,
    n: int,
    before: Map<PaneId, Seq<char>>,
    after: Map<PaneId, Seq<char>>,
    p: PaneId,
) -> bool {
    if t.ids().take(n).contains(p) && (t.custom_name_of(p) matches Some(Some(_))) {
        after.contains_key(p) && t.custom_name_of(p) == Some(Some(after[p]))
    } else {
        same_name(after, before, p)
    }
}

fn overlay(t: &LayoutNode, shown: &mut HashMap<PaneId, String>)
    ensures
        overlaid(t@, t@.ids().len() as int, by_pane(old(shown)@), by_pane(final(shown)@)),
{
    let ids = all_pane_ids(t);
    let ghost base = by_pane(shown@);
    let mut i: usize = 0;
    while i < ids.len()
        invariant
            i <= ids.len(),
            ids@ == t@.ids(),
            base == by_pane(old(shown)@),
            overlaid(t@, i as int, base, by_pane(shown@)),
        decreases ids.len() - i,
    {
        let pane: PaneId = ids[i];
        let ghost few = ids@.take(i as int);
        let ghost more = ids@.take(i + 1);
        assert forall|p: PaneId| #[trigger] more.contains(p) == (few.contains(p) || p == pane) by {
            if few.contains(p) {
                let k = choose|k: int| 0 <= k < few.len() && few[k] == p;
                assert(more[k] == p);
            }
            if p == pane {
                assert(more[i as int] == p);
            }
        }
        let ghost was = by_pane(shown@);
        match get_pane_custom_name(t, pane) {
            Some(Some(name)) => {
                shown.insert(pane, name);
                assert(by_pane(shown@) =~= was.insert(pane, name@));
            },
            _ => {},
        }
        assert forall|p: PaneId| #[trigger]
            overlaid_at(t@, i + 1, base, by_pane(shown@), p) by {
            assert(overlaid_at(t@, i as int, base, was, p));
            assert(more.contains(p) == (few.contains(p) || p == pane));
        }
        i += 1;
    }
}

/// The names that the session tree shows for panes. `found` holds the names of the
/// programs.
pub fn tree_pane_names(st: &ServerState, found: HashMap<PaneId, String>) -> (r: HashMap<
    PaneId,
    String,
>)
    requires
        st.named(),
    ensures
        shown_names(st@, by_pane(found@), by_pane(r@)),
{
    let ghost base = by_pane(found@);
    let ghost entries = st.sessions.entries@;
    let mut shown: HashMap<PaneId, String> = found;
    let mut i: usize = 0;
    while i < st.sessions.entries.len()
        invariant
            i <= st.sessions.entries.len(),
            entries == st.sessions.entries@,
            shown_so_far(entries, i as int, 0, base, by_pane(shown@)),
        decreases st.sessions.entries.len() - i,
    {
        let mut j: usize = 0;
        while j < st.sessions.entries[i].1.tabs.len()
            invariant
                i < st.sessions.entries.len(),
                j <= st.sessions.entries[i as int].1.tabs.len(),
                entries == st.sessions.entries@,
                shown_so_far(entries, i as int, j as int, base, by_pane(shown@)),
            decreases st.sessions.entries[i as int].1.tabs.len() - j,
        {
            let ghost was = by_pane(shown@);
            let ghost t = entries[i as int].1@.tabs[j as int].layout;
            assert(t == st.sessions.entries@[i as int].1.tabs@[j as int].layout@);
            overlay(&st.sessions.entries[i].1.tabs[j].layout, &mut shown);
            proof {
                lemma_overlaid(entries, i as int, j as int, base, was, by_pane(shown@));
            }
            j += 1;
        }
        proof {
            lemma_session_done(entries, i as int, j as int, base, by_pane(shown@));
        }
        i += 1;
    }
    proof {
        lemma_all_done(st@, entries, i as int, base, by_pane(shown@));
    }
    shown
}

proof fn lemma_overlaid(
    entries: Seq<(String, crate::session::Session)>,
    i: int,
    j: int,
    found: Map<PaneId, Seq<char>>,
    was: Map<PaneId, Seq<char>>,
    shown: Map<PaneId, Seq<char>>,
)
    requires
        0 <= i < entries.len(),
        0 <= j < entries[i].1@.tabs.len(),
        shown_so_far(entries, i, j, found, was),
        overlaid(
            entries[i].1@.tabs[j].layout,
            entries[i].1@.tabs[j].layout.ids().len() as int,
            was,
            shown,
        ),
    ensures
        shown_so_far(entries, i, j + 1, found, shown),
{
    let m = j + 1;
    let t = entries[i].1@.tabs[j].layout;
    assert(t.ids().take(t.ids().len() as int) =~= t.ids());
    assert forall|p: PaneId| #[trigger] shows_so_far(entries, i, m, found, shown, p) by {
        assert(overlaid_at(t, t.ids().len() as int, was, shown, p));
        assert(shows_so_far(entries, i, j, found, was, p));
        crate::layout::law_has_is_membership(t, p);
        lemma_custom_is_held(t, p);
        if t.custom_name_of(p) matches Some(Some(_)) {
            assert(entries[i].1@.tabs[j].layout.custom_name_of(p) == Some(Some(shown[p])));
            assert(named_so_far(entries, i, m, p, shown[p]));
        } else if exists|n: Seq<char>| named_so_far(entries, i, m, p, n) {
            let n = choose|n: Seq<char>| named_so_far(entries, i, m, p, n);
            let (a, b) = choose|a: int, b: int|
                #![trigger entries[a].1@.tabs[b]]
                0 <= a <= i && a < entries.len() && 0 <= b < entries[a].1@.tabs.len() && (a < i || b
                    < m) && entries[a].1@.tabs[b].layout.custom_name_of(p) == Some(Some(n));
            assert(a < i || b < j);
            assert(named_so_far(entries, i, j, p, n));
            let (x, y) = choose|x: int, y: int|
                #![trigger entries[x].1@.tabs[y]]
                0 <= x <= i && x < entries.len() && 0 <= y < entries[x].1@.tabs.len() && (x < i || y
                    < j) && entries[x].1@.tabs[y].layout.custom_name_of(p) == Some(Some(was[p]));
            assert(entries[x].1@.tabs[y].layout.custom_name_of(p) == Some(Some(shown[p])));
            assert(named_so_far(entries, i, m, p, shown[p]));
        } else if exists|n: Seq<char>| named_so_far(entries, i, j, p, n) {
            let n = choose|n: Seq<char>| named_so_far(entries, i, j, p, n);
            let (a, b) = choose|a: int, b: int|
                #![trigger entries[a].1@.tabs[b]]
                0 <= a <= i && a < entries.len() && 0 <= b < entries[a].1@.tabs.len() && (a < i || b
                    < j) && entries[a].1@.tabs[b].layout.custom_name_of(p) == Some(Some(n));
            assert(entries[a].1@.tabs[b].layout.custom_name_of(p) == Some(Some(n)));
            assert(named_so_far(entries, i, m, p, n));
        }
    }
}

proof fn lemma_session_done(
    entries: Seq<(String, crate::session::Session)>,
    i: int,
    j: int,
    found: Map<PaneId, Seq<char>>,
    shown: Map<PaneId, Seq<char>>,
)
    requires
        0 <= i < entries.len(),
        j == entries[i].1@.tabs.len(),
        shown_so_far(entries, i, j, found, shown),
    ensures
        shown_so_far(entries, i + 1, 0, found, shown),
{
    let m = i + 1;
    assert forall|p: PaneId, n: Seq<char>| #[trigger]
        named_so_far(entries, m, 0, p, n) == named_so_far(entries, i, j, p, n) by {
        if named_so_far(entries, m, 0, p, n) {
            let (a, b) = choose|a: int, b: int|
                #![trigger entries[a].1@.tabs[b]]
                0 <= a <= m && a < entries.len() && 0 <= b < entries[a].1@.tabs.len() && (a < m || b < 0) && entries[a].1@.tabs[b].layout.custom_name_of(p) == Some(Some(n));
            assert(entries[a].1@.tabs[b].layout.custom_name_of(p) == Some(Some(n)));
        }
        if named_so_far(entries, i, j, p, n) {
            let (a, b) = choose|a: int, b: int|
                #![trigger entries[a].1@.tabs[b]]
                0 <= a <= i && a < entries.len() && 0 <= b < entries[a].1@.tabs.len() && (a < i || b
                    < j) && entries[a].1@.tabs[b].layout.custom_name_of(p) == Some(Some(n));
            assert(entries[a].1@.tabs[b].layout.custom_name_of(p) == Some(Some(n)));
        }
    }
    assert forall|p: PaneId| #[trigger] shows_so_far(entries, m, 0, found, shown, p) by {
        assert(shows_so_far(entries, i, j, found, shown, p));
        if exists|n: Seq<char>| named_so_far(entries, m, 0, p, n) {
            let n = choose|n: Seq<char>| named_so_far(entries, m, 0, p, n);
            assert(named_so_far(entries, i, j, p, n));
        } else if exists|n: Seq<char>| named_so_far(entries, i, j, p, n) {
            let n = choose|n: Seq<char>| named_so_far(entries, i, j, p, n);
            assert(named_so_far(entries, m, 0, p, n));
        }
    }
}

proof fn lemma_all_done(
    st: StateView,
    entries: Seq<(String, crate::session::Session)>,
    i: int,
    found: Map<PaneId, Seq<char>>,
    shown: Map<PaneId, Seq<char>>,
)
    requires
        crate::names::names_distinct(entries),
        st.sessions == crate::names::named_values(entries),
        i == entries.len(),
        shown_so_far(entries, i, 0, found, shown),
    ensures
        shown_names(st, found, shown),
{
    lemma_entries(entries);
    assert forall|p: PaneId, n: Seq<char>| #[trigger]
        named_so_far(entries, i, 0, p, n) == own_name(st, p, n) by {
        if named_so_far(entries, i, 0, p, n) {
            let (a, b) = choose|a: int, b: int|
                #![trigger entries[a].1@.tabs[b]]
                0 <= a <= i && a < entries.len() && 0 <= b < entries[a].1@.tabs.len() && (a < i || b
                    < 0) && entries[a].1@.tabs[b].layout.custom_name_of(p) == Some(Some(n));
            let k = entries[a].0@;
            assert(st.sessions[k].tabs[b] == entries[a].1@.tabs[b]);
        }
        if own_name(st, p, n) {
            let (k, b) = choose|k: Seq<char>, b: int|
                #![trigger st.sessions[k].tabs[b]]
                st.sessions.contains_key(k) && 0 <= b < st.sessions[k].tabs.len()
                    && st.sessions[k].tabs[b].layout.custom_name_of(p) == Some(Some(n));
            let a = choose|a: int| 0 <= a < entries.len() && (#[trigger] entries[a]).0@ == k;
            assert(entries[a].1@.tabs[b] == st.sessions[k].tabs[b]);
        }
    }
    assert forall|p: PaneId| #[trigger] shows_name(st, found, shown, p) by {
        assert(shows_so_far(entries, i, 0, found, shown, p));
        if exists|n: Seq<char>| own_name(st, p, n) {
            let n = choose|n: Seq<char>| own_name(st, p, n);
            assert(named_so_far(entries, i, 0, p, n));
        } else if exists|n: Seq<char>| named_so_far(entries, i, 0, p, n) {
            let n = choose|n: Seq<char>| named_so_far(entries, i, 0, p, n);
            assert(own_name(st, p, n));
        }
    }
}

proof fn lemma_custom_is_held(t: Tree, p: PaneId)
    ensures
        t.custom_name_of(p) is Some ==> t.has(p),
    decreases t,
{
    match t {
        Tree::Split { first, second, .. } => {
            lemma_custom_is_held(*first, p);
            lemma_custom_is_held(*second, p);
        },
        Tree::Stack { panes, .. } => {
            crate::layout::lemma_position(panes, p);
        },
    }
}

// ---------------------------------------------------------------------------
// Laws
// ---------------------------------------------------------------------------

proof fn lemma_auto_named(
    t: Tree,
    panes: Seq<PaneId>,
    renaming: Option<PaneId>,
    found: Map<PaneId, Seq<char>>,
    n: int,
    other: PaneId,
)
    requires
        0 <= n <= panes.len(),
    ensures
        ({
            let r = auto_named(t, panes, renaming, found, n);
            &&& r.custom_name_of(other) == t.custom_name_of(other)
            &&& r.has(other) == t.has(other)
            &&& !follows(t, other, renaming, found) ==> r.name_of(other) == t.name_of(other)
            &&& follows(t, other, renaming, found) && t.has(other) && panes.take(n).contains(other)
                ==> r.name_of(other) == Some(found[other])
            &&& sound_tree(t) ==> sound_tree(r) && r.ids() == t.ids()
        }),
    decreases n,
{
    if n > 0 {
        lemma_auto_named(t, panes, renaming, found, n - 1, other);
        let before = auto_named(t, panes, renaming, found, n - 1);
        let q = panes[n - 1];
        lemma_auto_named(t, panes, renaming, found, n - 1, q);
        if follows(before, q, renaming, found) {
            law_a_name_set_is_the_name_read(before, q, other, found[q]);
            if sound_tree(t) {
                lemma_naming_fits(before, q, found[q]);
            }
        }
        let less = panes.take(n - 1);
        let more = panes.take(n);
        assert(more =~= less.push(q));
        if more.contains(other) && other != q {
            let i = choose|i: int| 0 <= i < more.len() && more[i] == other;
            assert(less[i] == other);
        }
    }
}

/// Names that users gave stay, and so does the name of a pane that is being renamed; every
/// other pane of the tab has the name of its program, as far as that is known.
pub proof fn law_a_users_name_stays(
    t: TabView,
    renaming: Option<PaneId>,
    found: Map<PaneId, Seq<char>>,
    pane: PaneId,
)
    ensures
        ({
            let r = tab_auto_named(t, renaming, found);
            &&& r.layout.custom_name_of(pane) == t.layout.custom_name_of(pane)
            &&& !follows(t.layout, pane, renaming, found) ==> r.layout.name_of(pane)
                == t.layout.name_of(pane)
            &&& follows(t.layout, pane, renaming, found) && t.layout.has(pane)
                ==> r.layout.name_of(pane) == Some(found[pane])
        }),
{
    let panes = t.layout.ids();
    lemma_auto_named(t.layout, panes, renaming, found, panes.len() as int, pane);
    assert(panes.take(panes.len() as int) =~= panes);
    crate::layout::law_has_is_membership(t.layout, pane);
}

/// A pane with a name of the user's own, one that the user is about to name and one whose
/// program is not known keep the name they have. Every other one is called what its program
/// is called.
pub proof fn law_a_pane_is_called_after_its_program(
    t: TabView,
    renaming: Option<PaneId>,
    found: Map<PaneId, Seq<char>>,
    pane: PaneId,
)
    requires
        t.layout.has(pane),
    ensures
        ({
            let r = tab_auto_named(t, renaming, found).layout;
            let own = t.layout.custom_name_of(pane) matches Some(Some(_));
            if own || renaming == Some(pane) || !found.contains_key(pane) {
                r.name_of(pane) == t.layout.name_of(pane)
            } else {
                r.name_of(pane) == Some(found[pane])
            }
        }),
{
    law_a_users_name_stays(t, renaming, found, pane);
}

/// A sound tab stays sound when its panes are named, and its panes stay where they are.
pub proof fn law_naming_keeps_the_tab_sound(
    t: TabView,
    renaming: Option<PaneId>,
    found: Map<PaneId, Seq<char>>,
)
    requires
        t.sound(),
    ensures
        tab_auto_named(t, renaming, found).sound(),
        tab_auto_named(t, renaming, found).layout.ids() == t.layout.ids(),
{
    let panes = t.layout.ids();
    lemma_auto_named(t.layout, panes, renaming, found, panes.len() as int, 0);
}

/// A sound server stays sound when panes are named.
pub proof fn law_naming_keeps_the_server_sound(
    st: StateView,
    session: Seq<char>,
    found: Map<PaneId, Seq<char>>,
)
    requires
        st.sound(),
    ensures
        pane_names_updated(st, session, found).sound(),
{
    if st.sessions.contains_key(session) {
        let s = st.sessions[session];
        assert(s.sound());
        let t = s.tabs[s.active as int];
        assert(t.sound());
        law_naming_keeps_the_tab_sound(t, being_renamed(s), found);
        let after = s.with_current(tab_auto_named(t, being_renamed(s), found));
        assert forall|i: int| 0 <= i < after.tabs.len() implies (#[trigger] after.tabs[i]).sound() by {
            assert(s.tabs[i].sound());
        }
        crate::edit_laws::law_the_server_stays_sound(st, session, after);
    }
}

/// Naming the panes again without a change among the programs changes no name, so it tells
/// nobody that the session tree has changed.
pub proof fn law_names_settle(
    t: TabView,
    renaming: Option<PaneId>,
    found: Map<PaneId, Seq<char>>,
)
    requires
        t.sound(),
    ensures
        ({
            let r = tab_auto_named(t, renaming, found);
            !names_change(r.layout, r.layout.ids(), renaming, found, r.layout.ids().len() as int)
        }),
{
    law_naming_keeps_the_tab_sound(t, renaming, found);
    let r = tab_auto_named(t, renaming, found);
    lemma_settled(t, renaming, found, r.layout.ids().len() as int);
}

proof fn lemma_settled(
    t: TabView,
    renaming: Option<PaneId>,
    found: Map<PaneId, Seq<char>>,
    n: int,
)
    requires
        t.sound(),
        0 <= n <= tab_auto_named(t, renaming, found).layout.ids().len(),
    ensures
        ({
            let r = tab_auto_named(t, renaming, found).layout;
            !names_change(r, r.ids(), renaming, found, n)
        }),
    decreases n,
{
    if n > 0 {
        lemma_settled(t, renaming, found, n - 1);
        law_naming_keeps_the_tab_sound(t, renaming, found);
        let r = tab_auto_named(t, renaming, found).layout;
        let q = r.ids()[n - 1];
        assert(t.layout.ids().contains(q));
        crate::layout::law_has_is_membership(t.layout, q);
        law_a_users_name_stays(t, renaming, found, q);
        crate::layout::law_has_is_membership(r, q);
        let before = auto_named(r, r.ids(), renaming, found, n - 1);
        lemma_auto_named(r, r.ids(), renaming, found, n - 1, q);
        if follows(before, q, renaming, found) {
            assert(follows(r, q, renaming, found));
            lemma_kept(r, r.ids(), renaming, found, n - 1, q);
        }
    }
}

proof fn lemma_kept(
    t: Tree,
    panes: Seq<PaneId>,
    renaming: Option<PaneId>,
    found: Map<PaneId, Seq<char>>,
    n: int,
    q: PaneId,
)
    requires
        0 <= n <= panes.len(),
        found.contains_key(q),
        t.name_of(q) == Some(found[q]),
        t.has(q),
    ensures
        auto_named(t, panes, renaming, found, n).name_of(q) == Some(found[q]),
    decreases n,
{
    if n > 0 {
        lemma_kept(t, panes, renaming, found, n - 1, q);
        let before = auto_named(t, panes, renaming, found, n - 1);
        lemma_auto_named(t, panes, renaming, found, n - 1, q);
        let p = panes[n - 1];
        if follows(before, p, renaming, found) {
            law_a_name_set_is_the_name_read(before, p, q, found[p]);
        }
    }
}

/// A pane that is in order carries the names of the one session and the one tab it is in.
pub proof fn law_a_pane_has_one_label(
    st: StateView,
    session: Seq<char>,
    tab: int,
    pane: PaneId,
    a: Seq<char>,
    b: Seq<char>,
)
    requires
        st.wf(),
        st.sessions.contains_key(session),
        0 <= tab < st.sessions[session].tabs.len(),
        st.sessions[session].tabs[tab].order.contains(pane),
        forall|k: Seq<char>|
            k != session && #[trigger] st.sessions.contains_key(k) ==> !st.sessions[k].has(pane),
        labels(st, pane, a, b),
    ensures
        a == st.sessions[session].name,
        b == st.sessions[session].tabs[tab].name,
{
    let (k, i) = choose|k: Seq<char>, i: int|
        #![trigger st.sessions[k].tabs[i]]
        st.sessions.contains_key(k) && 0 <= i < st.sessions[k].tabs.len()
            && st.sessions[k].tabs[i].order.contains(pane) && a == st.sessions[k].name && b
            == st.sessions[k].tabs[i].name;
    assert(st.sessions[k].has(pane));
    assert(k == session);
    assert(st.sessions[session].wf());
    if i < tab {
        assert(st.sessions[session].tabs[i].order.contains(pane)
            && st.sessions[session].tabs[tab].order.contains(pane));
    } else if tab < i {
        assert(st.sessions[session].tabs[tab].order.contains(pane)
            && st.sessions[session].tabs[i].order.contains(pane));
    }
}

} // verus!
