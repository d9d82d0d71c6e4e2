//! The answers to a plan's question, and what becomes of the clients of a session that
//! is gone.

use crate::client::{ClientState, ClientView};
use crate::clients::{ids_of, moved_clients, Clients};
use crate::composed::{build_composite, describes, nothing_shown, tab_shown, ComposedView};
use crate::compositor::names_fit;
use crate::config::{BorderStyle, CompositorTheme};
use crate::edits::TabChange;
use crate::geometry::{find_neighbor, fits_screen, is_neighbor, placed};
use crate::layout::{texts, FocusDirection, LayoutNode, PaneId, Rect};
use crate::pointer::Surface;
use crate::screen::{sub0, Screen};
use crate::session::SessionView;
use crate::sizing::some16;
use crate::state::ServerState;
use crate::status_bar::StatusInfo;
use crate::tab::sound_tree;
use std::collections::HashMap;
use vstd::prelude::*;

verus! {

// ---------------------------------------------------------------------------
// Answers
// ---------------------------------------------------------------------------

/// The size that a popup's terminal starts with, in a popup of the given extent.
pub open spec fn start_size(rect: Rect) -> (u16, u16) {
    (some16(sub0(rect.width as int, 2) as u16), some16(sub0(rect.height as int, 2) as u16))
}

/// The size that a popup's terminal starts with, in a popup of the given extent.
pub fn popup_start_size(rect: Rect) -> (r: (u16, u16))
    ensures
        r == start_size(rect),
{
    let w: u16 = rect.width.saturating_sub(2);
    let h: u16 = rect.height.saturating_sub(2);
    (
        if w == 0 {
            1
        } else {
            w
        },
        if h == 0 {
            1
        } else {
            h
        },
    )
}

/// The pane that the focused pane of a session changes places with when it moves in a
/// direction; none if it is at that edge.
pub fn move_target(st: &ServerState, session: &str, direction: FocusDirection, area: Rect) -> (r:
    Option<PaneId>)
    ensures
        match st@.tab_at(session@, None) {
            Some(k) => {
                let t = st@.sessions[session@].tabs[k];
                is_neighbor(placed(t.layout, area, 0), t.focused, direction, r)
            },
            None => r is None,
        },
{
    match st.find_tab(session, None) {
        Some(k) => match st.sessions.get(session) {
            Some(s) => {
                assert(s@.tabs[k as int] == s.tabs@[k as int]@);
                find_neighbor(&s.tabs[k].layout, area, s.tabs[k].focused_pane, direction, 0)
            },
            None => None,
        },
        None => None,
    }
}

/// The panes of the shown tab, arranged after the focus moved in a direction, and the
/// pane that it moved to.
pub fn answer_focus(
    st: &mut ServerState,
    session: &str,
    arranged: LayoutNode,
    target: Option<PaneId>,
)
    requires
        old(st).sound(),
        sound_tree(arranged@),
    ensures
        final(st).sound(),
        final(st)@ == (match old(st)@.tab_at(session@, None) {
            Some(k) => old(st)@.tab_changed(session@, k, TabChange::Show(arranged, target)),
            None => old(st)@,
        }),
{
    proof {
        lemma_answer_is_sound(*st, session@, TabChange::Show(arranged, target));
    }
    st.change_tab(session, None, TabChange::Show(arranged, target));
}

/// The panes of the shown tab, arranged after the focused one moved; nothing if it did
/// not. The arrangement is then the user's own, so that no layout builds it away.
pub fn answer_move(st: &mut ServerState, session: &str, arranged: Option<LayoutNode>)
    requires
        old(st).sound(),
        arranged matches Some(t) ==> sound_tree(t@),
    ensures
        final(st).sound(),
        final(st)@ == (match (arranged, old(st)@.tab_at(session@, None)) {
            (Some(t), Some(k)) => old(st)@.tab_changed(session@, k, TabChange::Arrange(t)),
            _ => old(st)@,
        }),
{
    match arranged {
        Some(t) => {
            proof {
                lemma_answer_is_sound(*st, session@, TabChange::Arrange(t));
            }
            st.change_tab(session, None, TabChange::Arrange(t));
        },
        None => {},
    }
}

proof fn lemma_answer_is_sound(st: ServerState, s: Seq<char>, c: TabChange)
    requires
        st.sound(),
        c matches TabChange::Arrange(n) ==> sound_tree(n@),
        c matches TabChange::Show(n, _) ==> sound_tree(n@),
    ensures
        st@.tab_at(s, None) matches Some(k) ==> st@.tab_changed(s, k, c).sound(),
{
    if let Some(k) = st@.tab_at(s, None) {
        let x = st@.sessions[s];
        assert(x.sound());
        crate::state::lemma_tabs_counted(st, s);
        crate::edit_laws::law_a_session_stays_sound(
            x,
            k,
            c,
            0,
            0,
            crate::layout_modes::LayoutMode::Bsp(crate::layout_modes::BspLayout),
            Seq::empty(),
            0,
        );
        crate::edit_laws::law_the_server_stays_sound(
            st@,
            s,
            x.with_tab(k, x.tabs[k].changed(c)),
        );
    }
}

/// The popup of a session has another size, in percent.
pub fn answer_popup_size(st: &mut ServerState, session: &str, size: (u16, u16))
    requires
        old(st).sound(),
    ensures
        final(st).sound(),
        final(st)@ == (if old(st)@.sessions.contains_key(session@) {
            old(st)@.with(
                session@,
                SessionView { popup_size: size, ..old(st)@.sessions[session@] },
            )
        } else {
            old(st)@
        }),
{
    assert(st@.sessions.contains_key(session@) ==> st@.sessions[session@].sound());
    match st.sessions.get_mut(session) {
        Some(s) => {
            s.popup_size = size;
        },
        None => {},
    }
    assert(old(st)@.sessions.contains_key(session@) ==> st@ =~= old(st)@.with(
        session@,
        SessionView { popup_size: size, ..old(st)@.sessions[session@] },
    ));
}

// ---------------------------------------------------------------------------
// Sessions that are gone
// ---------------------------------------------------------------------------

/// Where the clients of a session that is gone went.
#[derive(Debug)]
pub struct Rehomed {
    /// The session that they are in now; it is drawn again from scratch.
    pub next: Option<String>,
    /// The clients that are told that their session is gone, for want of another.
    pub told: Vec<u64>,
}

/// The clients of a session that is gone go to another one, if there is one left.
/// Otherwise they are detached and told.
pub fn handle_session_removed(removed: &str, st: &ServerState, clients: &mut Clients) -> (r: Rehomed)
    requires
        st.named(),
    ensures
        match r.next {
            Some(n) => {
                &&& st@.sessions.contains_key(n@)
                &&& final(clients)@ == moved_clients(old(clients)@, removed@, Some(n@))
                &&& r.told@.len() == 0
            },
            None => {
                &&& st@.sessions.len() == 0
                &&& final(clients)@ == moved_clients(old(clients)@, removed@, None)
                &&& r.told@ == ids_of(old(clients)@, removed@, old(clients)@.len() as int)
            },
        },
        r.next is None == (forall|k: Seq<char>| !(#[trigger] st@.sessions.contains_key(k))),
{
    proof {
        crate::names::lemma_entries(st.sessions.entries@);
    }
    if st.sessions.entries.len() > 0 {
        let next: &String = &st.sessions.entries[0].0;
        assert(st@.sessions.contains_key(next@)) by {
            assert(st.sessions.entries@[0].0@ == next@);
        }
        clients.retarget(removed, Some(next));
        Rehomed { next: Some(next.clone()), told: Vec::new() }
    } else {
        assert forall|k: Seq<char>| !(#[trigger] st@.sessions.contains_key(k)) by {
            if st@.sessions.contains_key(k) {
                let i = choose|i: int|
                    0 <= i < st.sessions.entries@.len() && (#[trigger] st.sessions.entries@[i]).0@
                        == k;
            }
        }
        assert(st@.sessions =~= Map::empty());
        let told = clients.retarget(removed, None);
        Rehomed { next: None, told }
    }
}

/// The clients of the first `n` of some sessions detached.
pub open spec fn dismissed(clients: Seq<(u64, ClientView)>, names: Seq<Seq<char>>, n: int) -> Seq<
    (u64, ClientView),
>
    decreases n,
{
    if n <= 0 {
        clients
    } else {
        moved_clients(dismissed(clients, names, n - 1), names[n - 1], None)
    }
}

/// Who is told that one of the first `n` sessions is gone, and which.
pub open spec fn notices(clients: Seq<(u64, ClientView)>, names: Seq<Seq<char>>, n: int) -> Seq<
    (u64, Seq<char>),
>
    decreases n,
{
    if n <= 0 {
        Seq::empty()
    } else {
        let left = dismissed(clients, names, n - 1);
        let ids = ids_of(left, names[n - 1], left.len() as int);
        notices(clients, names, n - 1) + Seq::new(ids.len(), |i: int| (ids[i], names[n - 1]))
    }
}

/// The notices of a list.
pub open spec fn notice_views(v: Seq<(u64, String)>) -> Seq<(u64, Seq<char>)> {
    Seq::new(v.len(), |i: int| (v[i].0, v[i].1@))
}

/// The clients of sessions that were deleted are detached; who is told of which.
pub fn dismiss(names: &Vec<String>, clients: &mut Clients) -> (r: Vec<(u64, String)>)
    ensures
        final(clients)@ == dismissed(old(clients)@, texts(names@), names@.len() as int),
        notice_views(r@) == notices(old(clients)@, texts(names@), names@.len() as int),
{
    let ghost all = texts(names@);
    let mut out: Vec<(u64, String)> = Vec::new();
    assert(notice_views(out@) =~= Seq::empty());
    let mut i: usize = 0;
    while i < names.len()
        invariant
            i <= names.len(),
            all == texts(names@),
            clients@ == dismissed(old(clients)@, all, i as int),
            notice_views(out@) == notices(old(clients)@, all, i as int),
        decreases names.len() - i,
    {
        let ghost before = notice_views(out@);
        let ids = clients.retarget(&names[i], None);
        assert(all[i as int] == names@[i as int]@);
        let mut k: usize = 0;
        while k < ids.len()
            invariant
                k <= ids.len(),
                i < names.len(),
                all == texts(names@),
                notice_views(out@) == before + Seq::new(
                    k as nat,
                    |j: int| (ids@[j], all[i as int]),
                ),
            decreases ids.len() - k,
        {
            let ghost was = out@;
            let name = names[i].clone();
            out.push((ids[k], name));
            assert(notice_views(out@) =~= before + Seq::new(
                (k + 1) as nat,
                |j: int| (ids@[j], all[i as int]),
            )) by {
                assert(notice_views(out@) =~= notice_views(was).push((ids@[k as int], names@[i as int]@)));
            }
            k += 1;
        }
        i += 1;
    }
    out
}

// ---------------------------------------------------------------------------
// What the mouse can hit
// ---------------------------------------------------------------------------

/// The mouse can hit what is shown.
pub open spec fn lies_on(s: Surface, c: ComposedView) -> bool {
    &&& s.pane_rects@ == c.pane_rects
    &&& s.regions.stack_regions@ == c.stack_regions
    &&& s.regions.tab_regions@ == c.tab_regions
    &&& s.popup == c.popup
}

/// What is on the screen of a client, as far as the mouse is concerned.
pub fn session_surface<'a>(
    st: &ServerState,
    client: &ClientState,
    screens: HashMap<PaneId, &'a Screen>,
    popup_rect: Rect,
    style: BorderStyle,
    theme: &CompositorTheme,
) -> (r: Surface<'a>)
    requires
        fits_screen(popup_rect),
        client@.session_name matches Some(s) ==> (st@.sessions.contains_key(s) ==> (
        st@.sessions[s].current() matches Some(t) ==> names_fit(t.shown()))),
    ensures
        r.style == style,
        r.screens@ == screens@,
        match client@.session_name {
            Some(s) => if st@.sessions.contains_key(s) && st@.sessions[s].current() is Some {
                exists|info: StatusInfo| #[trigger]
                    describes(info, st@.sessions[s], s, client@.mode, None) && lies_on(
                        r,
                        tab_shown(
                            st@.sessions[s],
                            st@.sessions[s].current()->0,
                            info,
                            client@.cols,
                            client@.rows,
                            screens@,
                            None,
                            0,
                            popup_rect,
                            *theme,
                        ),
                    )
            } else {
                lies_on(r, nothing_shown(client@.cols, client@.rows))
            },
            None => lies_on(r, nothing_shown(client@.cols, client@.rows)),
        },
{
    match &client.session_name {
        Some(s) => {
            let c = build_composite(
                s,
                client.cols,
                client.rows,
                &client.mode,
                st,
                &screens,
                None,
                None,
                0,
                popup_rect,
                theme,
            );
            let ghost shown = c@;
            let r = Surface {
                regions: c.regions,
                pane_rects: c.pane_rects,
                popup: c.popup,
                style,
                screens,
            };
            assert(lies_on(r, shown));
            proof {
                if st@.sessions.contains_key(s@) && st@.sessions[s@].current() is Some {
                    let t = st@.sessions[s@].current()->0;
                    let x = st@.sessions[s@];
                    let info = choose|info: StatusInfo| #[trigger]
                        describes(info, x, s@, client@.mode, None) && shown == tab_shown(
                            x,
                            t,
                            info,
                            client@.cols,
                            client@.rows,
                            screens@,
                            None,
                            0,
                            popup_rect,
                            *theme,
                        );
                    assert(describes(info, x, s@, client@.mode, None));
                }
            }
            r
        },
        None => {
            let r = Surface {
                regions: crate::hit::HitRegions {
                    tab_regions: Vec::new(),
                    stack_regions: Vec::new(),
                },
                pane_rects: Vec::new(),
                popup: None,
                style,
                screens,
            };
            assert(lies_on(r, nothing_shown(client@.cols, client@.rows)));
            r
        },
    }
}

// ---------------------------------------------------------------------------
// Laws
// ---------------------------------------------------------------------------

/// Nobody is left in a session that was deleted.
pub proof fn law_a_dismissed_session_is_empty(
    clients: Seq<(u64, ClientView)>,
    names: Seq<Seq<char>>,
    n: int,
    i: int,
    k: int,
)
    requires
        0 <= k < n <= names.len(),
        0 <= i < clients.len(),
    ensures
        dismissed(clients, names, n).len() == clients.len(),
        dismissed(clients, names, n)[i].1.session_name != Some(names[k]),
    decreases n,
{
    lemma_dismissed(clients, names, n - 1, i);
    if k < n - 1 {
        law_a_dismissed_session_is_empty(clients, names, n - 1, i, k);
    }
}

proof fn lemma_dismissed(clients: Seq<(u64, ClientView)>, names: Seq<Seq<char>>, n: int, i: int)
    requires
        0 <= n <= names.len(),
        0 <= i < clients.len(),
    ensures
        dismissed(clients, names, n).len() == clients.len(),
    decreases n,
{
    if n > 0 {
        lemma_dismissed(clients, names, n - 1, i);
    }
}

/// A moved pane stays where the user put it: the layout is of the user's own from then
/// on, so the next pane is put beside the focused one and nothing is rearranged.
pub proof fn law_a_moved_pane_stays_moved(
    t: crate::tab::TabView,
    arranged: LayoutNode,
    new: PaneId,
)
    ensures
        t.changed(TabChange::Arrange(arranged)).mode is Custom,
        t.changed(TabChange::Arrange(arranged)).placed(
            crate::tab::PanePlacement::Auto,
            new,
        ).layout == arranged@.split_at(
            t.focused,
            new,
            crate::layout::Direction::Vertical,
        ),
{
}

} // verus!
