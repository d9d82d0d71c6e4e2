//! The frames that clients were sent last, and what they are sent next.

use crate::client::{deref_screen, ClientState, ClientView};
use crate::clients::{render_size, Clients};
use crate::composed::{
    build_composite, describes, draws, owner, popup_shown, scrolls, tab_shown, ComposedView,
};
use crate::compositor::{
    frame, law_a_frame_has_the_size_of_the_terminal, law_a_popup_keeps_the_shape_of_the_frame,
    popup_drawn, same_shape, Scene,
};
use crate::config::CompositorTheme;
use crate::connection::ids_differ;
use crate::geometry::{fits_screen, placed};
use crate::grid::{clean, copy_grid, looks};
use crate::hit::MouseSelection;
use crate::layout::{PaneId, Rect};
use crate::protocol::{Look, RenderCell};
use crate::render::{
    attached, broadcast_message, broadcast_target, is_attached, live_message, own_message,
    placed_info, rectangular, send_full_render_to_client, shown_after, viewport_top, FrameInfo,
    MessageView, RenderMessage,
};
use crate::screen::Screen;
use crate::session::SessionView;
use crate::sizing::pane_area;
use crate::state::{ServerState, StateView};
use crate::status_bar::StatusInfo;
use crate::tab::TabView;
use std::collections::HashMap;
use vstd::prelude::*;

verus! {

broadcast use vstd::std_specs::hash::group_hash_axioms;

// ---------------------------------------------------------------------------
// The store
// ---------------------------------------------------------------------------

/// The frames of a store.
pub open spec fn frame_looks(frames: Map<u64, Vec<Vec<RenderCell>>>) -> Map<u64, Seq<Seq<Look>>> {
    Map::new(|id: u64| frames.contains_key(id), |id: u64| looks(frames[id]@))
}

proof fn lemma_frame_inserted(
    frames: Map<u64, Vec<Vec<RenderCell>>>,
    id: u64,
    cells: Vec<Vec<RenderCell>>,
)
    ensures
        frame_looks(frames.insert(id, cells)) == frame_looks(frames).insert(id, looks(cells@)),
{
    assert(frame_looks(frames.insert(id, cells)) =~= frame_looks(frames).insert(
        id,
        looks(cells@),
    ));
}

proof fn lemma_frame_removed(frames: Map<u64, Vec<Vec<RenderCell>>>, id: u64)
    ensures
        frame_looks(frames.remove(id)) == frame_looks(frames).remove(id),
{
    assert(frame_looks(frames.remove(id)) =~= frame_looks(frames).remove(id));
}

/// Forget the frame of a client that is gone.
pub fn forget_frame(id: u64, frames: &mut HashMap<u64, Vec<Vec<RenderCell>>>)
    ensures
        frame_looks(final(frames)@) == frame_looks(old(frames)@).remove(id),
{
    proof {
        lemma_frame_removed(frames@, id);
    }
    let _ = frames.remove(&id);
}

/// One of the first `n` clients has the id and is attached to the session.
pub open spec fn is_member(
    clients: Seq<(u64, ClientView)>,
    session: Seq<char>,
    id: u64,
    n: int,
) -> bool {
    exists|k: int|
        0 <= k < n && k < clients.len() && (#[trigger] clients[k]).0 == id && attached(
            clients[k].1,
            session,
        )
}

/// The frames without those of the first `n` clients that are attached to a session.
pub open spec fn invalidated(
    clients: Seq<(u64, ClientView)>,
    session: Seq<char>,
    frames: Map<u64, Seq<Seq<Look>>>,
    n: int,
) -> Map<u64, Seq<Seq<Look>>> {
    Map::new(
        |id: u64| frames.contains_key(id) && !is_member(clients, session, id, n),
        |id: u64| frames[id],
    )
}

/// Forget the frames of all clients of a session, so that each gets a full frame next.
pub fn invalidate_session_baselines(
    session: &str,
    clients: &Clients,
    frames: &mut HashMap<u64, Vec<Vec<RenderCell>>>,
)
    ensures
        frame_looks(final(frames)@) == invalidated(
            clients@,
            session@,
            frame_looks(old(frames)@),
            clients@.len() as int,
        ),
{
    let ghost before = frame_looks(frames@);
    assert(before =~= invalidated(clients@, session@, before, 0));
    let mut i: usize = 0;
    while i < clients.entries.len()
        invariant
            i <= clients.entries.len(),
            frame_looks(frames@) == invalidated(clients@, session@, before, i as int),
        decreases clients.entries.len() - i,
    {
        let id: u64 = clients.entries[i].0;
        assert(clients@[i as int] == (id, clients.entries@[i as int].1@));
        let ghost was = frame_looks(frames@);
        let ghost now = invalidated(clients@, session@, before, i + 1);
        if is_attached(&clients.entries[i].1, session) {
            forget_frame(id, frames);
            assert forall|x: u64| #[trigger] now.contains_key(x) <==> was.remove(id).contains_key(
                x,
            ) by {
                lemma_member_step(clients@, session@, x, i as int);
            }
            assert(now =~= was.remove(id));
        } else {
            assert forall|x: u64| #[trigger] now.contains_key(x) <==> was.contains_key(x) by {
                lemma_member_step(clients@, session@, x, i as int);
            }
            assert(now =~= was);
        }
        i += 1;
    }
}

proof fn lemma_member_step(
    clients: Seq<(u64, ClientView)>,
    session: Seq<char>,
    id: u64,
    n: int,
)
    requires
        0 <= n < clients.len(),
    ensures
        is_member(clients, session, id, n + 1) == (is_member(clients, session, id, n) || (
        clients[n].0 == id && attached(clients[n].1, session))),
{
    if is_member(clients, session, id, n) {
        let k = choose|k: int|
            0 <= k < n && k < clients.len() && (#[trigger] clients[k]).0 == id && attached(
                clients[k].1,
                session,
            );
        assert(clients[k].0 == id);
    }
    if clients[n].0 == id && attached(clients[n].1, session) {
        assert(is_member(clients, session, id, n + 1));
    }
}

// ---------------------------------------------------------------------------
// Broadcasts
// ---------------------------------------------------------------------------

/// The client shows the live view of the session.
pub open spec fn in_live_view(c: ClientView, session: Seq<char>) -> bool {
    attached(c, session) && c.scroll_offset == 0
}

/// The frame that the next one is compared with: the client's own, unless it owes a full
/// one.
pub open spec fn baseline_of(
    entry: (u64, ClientView),
    frames: Map<u64, Seq<Seq<Look>>>,
) -> Option<Seq<Seq<Look>>> {
    if !entry.1.needs_full_render && frames.contains_key(entry.0) {
        Some(frames[entry.0])
    } else {
        None
    }
}

/// What the first `n` clients are sent: those in the live view of the session, each
/// against its own frame.
pub open spec fn broadcast_messages(
    clients: Seq<(u64, ClientView)>,
    session: Seq<char>,
    frames: Map<u64, Seq<Seq<Look>>>,
    cells: Seq<Seq<Look>>,
    info: FrameInfo,
    cols: u16,
    rows: u16,
    n: int,
) -> Seq<(u64, MessageView)>
    decreases n,
{
    if n <= 0 {
        Seq::empty()
    } else {
        let before = broadcast_messages(clients, session, frames, cells, info, cols, rows, n - 1);
        if in_live_view(clients[n - 1].1, session) {
            before.push(
                (
                    clients[n - 1].0,
                    live_message(baseline_of(clients[n - 1], frames), cells, info, cols, rows),
                ),
            )
        } else {
            before
        }
    }
}

/// One of the first `n` clients has the id and is in the live view of the session.
pub open spec fn is_target(
    clients: Seq<(u64, ClientView)>,
    session: Seq<char>,
    id: u64,
    n: int,
) -> bool {
    exists|k: int|
        0 <= k < n && k < clients.len() && (#[trigger] clients[k]).0 == id && in_live_view(
            clients[k].1,
            session,
        )
}

/// The frames once the first `n` clients were sent the new one.
pub open spec fn broadcast_frames(
    clients: Seq<(u64, ClientView)>,
    session: Seq<char>,
    frames: Map<u64, Seq<Seq<Look>>>,
    cells: Seq<Seq<Look>>,
    n: int,
) -> Map<u64, Seq<Seq<Look>>> {
    Map::new(
        |id: u64| frames.contains_key(id) || is_target(clients, session, id, n),
        |id: u64|
            if is_target(clients, session, id, n) {
                cells
            } else {
                frames[id]
            },
    )
}

/// The clients after a broadcast: those that it went to owe no full frame.
pub open spec fn broadcast_clients(clients: Seq<(u64, ClientView)>, session: Seq<char>) -> Seq<
    (u64, ClientView),
> {
    Seq::new(
        clients.len(),
        |i: int|
            (
                clients[i].0,
                ClientView {
                    needs_full_render: clients[i].1.needs_full_render && !in_live_view(
                        clients[i].1,
                        session,
                    ),
                    ..clients[i].1
                },
            ),
    )
}

/// The messages of a list.
pub open spec fn message_views(r: Seq<(u64, RenderMessage)>) -> Seq<(u64, MessageView)> {
    Seq::new(r.len(), |i: int| (r[i].0, r[i].1@))
}

proof fn lemma_target_step(
    clients: Seq<(u64, ClientView)>,
    session: Seq<char>,
    id: u64,
    n: int,
)
    requires
        0 <= n < clients.len(),
    ensures
        is_target(clients, session, id, n + 1) == (is_target(clients, session, id, n) || (
        clients[n].0 == id && in_live_view(clients[n].1, session))),
{
    if is_target(clients, session, id, n) {
        let k = choose|k: int|
            0 <= k < n && k < clients.len() && (#[trigger] clients[k]).0 == id && in_live_view(
                clients[k].1,
                session,
            );
        assert(clients[k].0 == id);
    }
    if clients[n].0 == id && in_live_view(clients[n].1, session) {
        assert(is_target(clients, session, id, n + 1));
    }
}

/// Send a frame of a session to all its clients in the live view. Each is sent the changes
/// since the frame that it has, or all cells; the frame is then the one that it has.
pub fn broadcast_full_render(
    session: &str,
    clients: &mut Clients,
    frames: &mut HashMap<u64, Vec<Vec<RenderCell>>>,
    cells: &Vec<Vec<RenderCell>>,
    info: FrameInfo,
    cols: u16,
    rows: u16,
) -> (r: Vec<(u64, RenderMessage)>)
    requires
        ids_differ(old(clients)@),
    ensures
        message_views(r@) == broadcast_messages(
            old(clients)@,
            session@,
            frame_looks(old(frames)@),
            looks(cells@),
            info,
            cols,
            rows,
            old(clients)@.len() as int,
        ),
        frame_looks(final(frames)@) == broadcast_frames(
            old(clients)@,
            session@,
            frame_looks(old(frames)@),
            looks(cells@),
            old(clients)@.len() as int,
        ),
        final(clients)@ == broadcast_clients(old(clients)@, session@),
{
    let ghost before = clients@;
    let ghost kept = frame_looks(frames@);
    let ghost drawn = looks(cells@);
    let ghost after = broadcast_clients(before, session@);
    let mut out: Vec<(u64, RenderMessage)> = Vec::new();
    assert(kept =~= broadcast_frames(before, session@, kept, drawn, 0));
    assert(message_views(out@) =~= Seq::empty());
    let mut i: usize = 0;
    while i < clients.entries.len()
        invariant
            i <= clients.entries.len(),
            ids_differ(before),
            clients@.len() == before.len(),
            drawn == looks(cells@),
            after == broadcast_clients(before, session@),
            forall|k: int| 0 <= k < i ==> #[trigger] clients@[k] == after[k],
            forall|k: int| i <= k < before.len() ==> #[trigger] clients@[k] == before[k],
            frame_looks(frames@) == broadcast_frames(before, session@, kept, drawn, i as int),
            message_views(out@) == broadcast_messages(
                before,
                session@,
                kept,
                drawn,
                info,
                cols,
                rows,
                i as int,
            ),
        decreases clients.entries.len() - i,
    {
        let id: u64 = clients.entries[i].0;
        let ghost entries = clients.entries@;
        let ghost held = clients@;
        let ghost me = before[i as int];
        assert(clients@[i as int] == me);
        assert(me == (id, entries[i as int].1@));
        assert(!is_target(before, session@, id, i as int));
        let ghost was = frame_looks(frames@);
        let ghost now = broadcast_frames(before, session@, kept, drawn, i + 1);
        let target = broadcast_target(&mut clients.entries[i].1, session);
        assert(clients@[i as int] == after[i as int]);
        assert forall|k: int| 0 <= k < before.len() && k != i implies #[trigger] clients@[k] == (
        if k < i {
            after[k]
        } else {
            before[k]
        }) by {
            assert(clients.entries@[k] == entries[k]);
            assert(clients@[k] == held[k]);
        }
        match target {
            Some(full) => {
                let baseline: Option<&Vec<Vec<RenderCell>>> = if full {
                    None
                } else {
                    frames.get(&id)
                };
                proof {
                    assert(was.contains_key(id) == kept.contains_key(id));
                    assert(kept.contains_key(id) ==> was[id] == kept[id]);
                    assert(crate::render::ref_looks(baseline) == baseline_of(me, kept));
                }
                let message = broadcast_message(baseline, cells, info, cols, rows);
                let frame = copy_grid(cells);
                let ghost had = out@;
                out.push((id, message));
                assert(message_views(out@) =~= message_views(had).push((id, message@)));
                proof {
                    lemma_frame_inserted(frames@, id, frame);
                }
                let _ = frames.insert(id, frame);
                assert forall|x: u64| #[trigger]
                    now.contains_key(x) == was.insert(id, drawn).contains_key(x) && (
                    now.contains_key(x) ==> now[x] == was.insert(id, drawn)[x]) by {
                    lemma_target_step(before, session@, x, i as int);
                }
                assert(now =~= was.insert(id, drawn));
            },
            None => {
                assert forall|x: u64| #[trigger] now.contains_key(x) == was.contains_key(x) && (
                now.contains_key(x) ==> now[x] == was[x]) by {
                    lemma_target_step(before, session@, x, i as int);
                }
                assert(now =~= was);
            },
        }
        i += 1;
    }
    assert(clients@ =~= after);
    out
}

// ---------------------------------------------------------------------------
// Drawing a session
// ---------------------------------------------------------------------------

/// The screen of the focused pane of a session.
pub open spec fn focused_screen(
    st: StateView,
    session: Seq<char>,
    screens: Map<PaneId, &Screen>,
) -> Option<Screen> {
    match st.focus_of(session) {
        Some(p) => if screens.contains_key(p) {
            Some(*screens[p])
        } else {
            None
        },
        None => None,
    }
}

/// What goes with a composed session that is drawn at an offset.
pub open spec fn info_of(
    v: ComposedView,
    offset: usize,
    screen: Option<Screen>,
    rows: u16,
) -> FrameInfo {
    placed_info(
        FrameInfo {
            cursor_x: v.cursor.x,
            cursor_y: v.cursor.y,
            cursor_visible: v.cursor.visible,
            cursor_style: v.cursor.style,
            focused_pane_rect: v.focused_pane_rect,
            application_cursor_keys: v.application_cursor_keys,
            viewport_top: 0,
            scroll_offset: 0,
        },
        offset,
        screen,
        rows,
    )
}

/// `v` is the session at the offset, in the mode and with the selection and the search of
/// the client `c`; `cells` and `info` are its frame.
pub open spec fn depicts_as(
    v: ComposedView,
    cells: Seq<Seq<Look>>,
    info: FrameInfo,
    session: Seq<char>,
    c: ClientView,
    offset: usize,
    size: (u16, u16),
    st: StateView,
    screens: Map<PaneId, &Screen>,
    popup: Rect,
    theme: CompositorTheme,
) -> bool {
    &&& draws(
        v,
        session,
        size.0,
        size.1,
        c.mode,
        st,
        screens,
        c.mouse_selection,
        c.search_info,
        offset,
        popup,
        theme,
    )
    &&& cells == v.cells
    &&& info == info_of(v, offset, focused_screen(st, session, screens), size.1)
}

/// The frame of a session at the offset, in the mode and with the selection and the search
/// of the client `c`.
pub open spec fn depicts(
    cells: Seq<Seq<Look>>,
    info: FrameInfo,
    session: Seq<char>,
    c: ClientView,
    offset: usize,
    size: (u16, u16),
    st: StateView,
    screens: Map<PaneId, &Screen>,
    popup: Rect,
    theme: CompositorTheme,
) -> bool {
    exists|v: ComposedView| #[trigger]
        depicts_as(v, cells, info, session, c, offset, size, st, screens, popup, theme)
}

fn screen_in_focus<'a>(
    st: &ServerState,
    session: &str,
    screens: &HashMap<PaneId, &'a Screen>,
) -> (r: Option<&'a Screen>)
    ensures
        deref_screen(r) == focused_screen(st@, session@, screens@),
{
    match st.focused(session) {
        Some(p) => match screens.get(&p) {
            Some(s) => Some(*s),
            None => None,
        },
        None => None,
    }
}

fn depict(
    session: &str,
    c: &ClientState,
    offset: usize,
    cols: u16,
    rows: u16,
    st: &ServerState,
    screens: &HashMap<PaneId, &Screen>,
    popup: Rect,
    theme: &CompositorTheme,
) -> (r: (Vec<Vec<RenderCell>>, FrameInfo))
    requires
        st.sound(),
        fits_screen(popup),
    ensures
        depicts(
            looks(r.0@),
            r.1,
            session@,
            c@,
            offset,
            (cols, rows),
            st@,
            screens@,
            popup,
            *theme,
        ),
{
    let selection: Option<&MouseSelection> = match &c.mouse_selection {
        Some(s) => Some(s),
        None => None,
    };
    proof {
        lemma_drawable(*st, session@);
    }
    let composed = build_composite(
        session,
        cols,
        rows,
        &c.mode,
        st,
        screens,
        selection,
        c.search_info,
        offset,
        popup,
        theme,
    );
    let screen = screen_in_focus(st, session, screens);
    let info = FrameInfo {
        cursor_x: composed.cursor.x,
        cursor_y: composed.cursor.y,
        cursor_visible: composed.cursor.visible && offset == 0,
        cursor_style: composed.cursor.style,
        focused_pane_rect: composed.focused_pane_rect,
        application_cursor_keys: composed.application_cursor_keys,
        viewport_top: viewport_top(screen, offset, composed.focused_pane_rect, rows),
        scroll_offset: offset,
    };
    let ghost v = composed@;
    let ghost size = (cols, rows);
    assert(crate::compositor::deref_opt(selection) == c@.mouse_selection);
    assert(depicts_as(
        v,
        looks(composed.cells@),
        info,
        session@,
        c@,
        offset,
        size,
        st@,
        screens@,
        popup,
        *theme,
    ));
    (composed.cells, info)
}

proof fn lemma_drawable(st: ServerState, session: Seq<char>)
    requires
        st.sound(),
    ensures
        st@.sessions.contains_key(session) ==> (st@.sessions[session].current() matches Some(t)
            ==> crate::compositor::names_fit(t.shown())),
{
    if st@.sessions.contains_key(session) {
        assert(st@.sessions[session].sound());
    }
}

/// The first client that is attached to a session, from index `i` on.
pub open spec fn first_member(clients: Seq<(u64, ClientView)>, session: Seq<char>, i: int) -> Option<
    int,
>
    decreases clients.len() - i,
{
    if i < 0 || i >= clients.len() {
        None
    } else if attached(clients[i].1, session) {
        Some(i)
    } else {
        first_member(clients, session, i + 1)
    }
}

fn find_member(clients: &Clients, session: &str) -> (r: Option<usize>)
    ensures
        match r {
            Some(i) => i < clients@.len() && first_member(clients@, session@, 0) == Some(i as int),
            None => first_member(clients@, session@, 0) is None,
        },
{
    let mut i: usize = 0;
    while i < clients.entries.len()
        invariant
            i <= clients.entries.len(),
            first_member(clients@, session@, 0) == first_member(clients@, session@, i as int),
        decreases clients.entries.len() - i,
    {
        assert(clients@[i as int].1 == clients.entries@[i as int].1@);
        if is_attached(&clients.entries[i].1, session) {
            return Some(i);
        }
        i += 1;
    }
    None
}

/// The frame `cells`, with `info`, was sent to all clients in the live view of a session.
pub open spec fn was_broadcast(
    cells: Seq<Seq<Look>>,
    info: FrameInfo,
    session: Seq<char>,
    size: (u16, u16),
    before: (Seq<(u64, ClientView)>, Map<u64, Seq<Seq<Look>>>),
    after: (Seq<(u64, ClientView)>, Map<u64, Seq<Seq<Look>>>),
    sent: Seq<(u64, MessageView)>,
) -> bool {
    let n = before.0.len() as int;
    &&& sent == broadcast_messages(before.0, session, before.1, cells, info, size.0, size.1, n)
    &&& after.0 == broadcast_clients(before.0, session)
    &&& after.1 == broadcast_frames(before.0, session, before.1, cells, n)
}

/// Draw a session, in its live view, for all its clients: in the mode and with the selection
/// and the search of the first one, and at the size that fits them all. Nothing is drawn
/// for nobody.
pub fn redraw_session(
    session: &str,
    st: &ServerState,
    clients: &mut Clients,
    frames: &mut HashMap<u64, Vec<Vec<RenderCell>>>,
    screens: &HashMap<PaneId, &Screen>,
    popup: Rect,
    theme: &CompositorTheme,
) -> (r: Vec<(u64, RenderMessage)>)
    requires
        st.sound(),
        fits_screen(popup),
        ids_differ(old(clients)@),
    ensures
        match first_member(old(clients)@, session@, 0) {
            None => {
                &&& r@.len() == 0
                &&& final(clients)@ == old(clients)@
                &&& frame_looks(final(frames)@) == frame_looks(old(frames)@)
            },
            Some(first) => exists|cells: Seq<Seq<Look>>, info: FrameInfo| #[trigger]
                was_broadcast(
                    cells,
                    info,
                    session@,
                    render_size(old(clients)@, session@),
                    (old(clients)@, frame_looks(old(frames)@)),
                    (final(clients)@, frame_looks(final(frames)@)),
                    message_views(r@),
                ) && depicts(
                    cells,
                    info,
                    session@,
                    old(clients)@[first].1,
                    0,
                    render_size(old(clients)@, session@),
                    st@,
                    screens@,
                    popup,
                    *theme,
                ),
        },
{
    let first: usize = match find_member(clients, session) {
        Some(i) => i,
        None => {
            return Vec::new();
        },
    };
    let ghost before = (clients@, frame_looks(frames@));
    let (cols, rows) = clients.session_render_size(session);
    assert(clients@[first as int].1 == clients.entries@[first as int].1@);
    let (cells, info) = depict(
        session,
        &clients.entries[first].1,
        0,
        cols,
        rows,
        st,
        screens,
        popup,
        theme,
    );
    let r = broadcast_full_render(session, clients, frames, &cells, info, cols, rows);
    assert(was_broadcast(
        looks(cells@),
        info,
        session@,
        (cols, rows),
        before,
        (clients@, frame_looks(frames@)),
        message_views(r@),
    ));
    r
}

/// A client was sent the frame `cells`, with `info`, at its own offset. In the live view
/// the frame is the one that it has; otherwise the one that it had is kept.
pub open spec fn was_sent(
    cells: Seq<Seq<Look>>,
    info: FrameInfo,
    before: (u64, ClientView),
    after: (u64, ClientView),
    frames_before: Map<u64, Seq<Seq<Look>>>,
    frames_after: Map<u64, Seq<Seq<Look>>>,
    sent: MessageView,
) -> bool {
    let c = before.1;
    &&& sent == own_message(cells, info, c.prev_scroll_offset)
    &&& after == (before.0, ClientView { prev_scroll_offset: c.scroll_offset, ..c })
    &&& frames_after == (if c.scroll_offset == 0 {
        frames_before.insert(before.0, cells)
    } else {
        frames_before
    })
}

/// Draw the session of a client for that client alone, at its own scroll offset. Nothing is
/// drawn for a client that is not there or has no session.
pub fn redraw_client(
    id: u64,
    st: &ServerState,
    clients: &mut Clients,
    frames: &mut HashMap<u64, Vec<Vec<RenderCell>>>,
    screens: &HashMap<PaneId, &Screen>,
    popup: Rect,
    theme: &CompositorTheme,
) -> (r: Option<RenderMessage>)
    requires
        st.sound(),
        fits_screen(popup),
    ensures
        final(clients)@.len() == old(clients)@.len(),
        forall|me: int| #[trigger]
            crate::command::is_client(old(clients)@, id, me) ==> {
                let c = old(clients)@[me].1;
                &&& forall|k: int|
                    0 <= k < old(clients)@.len() && k != me ==> #[trigger] final(clients)@[k]
                        == old(clients)@[k]
                &&& match c.session_name {
                    Some(s) => r is Some && exists|cells: Seq<Seq<Look>>, info: FrameInfo|
                        depicts(
                            cells,
                            info,
                            s,
                            c,
                            c.scroll_offset,
                            render_size(old(clients)@, s),
                            st@,
                            screens@,
                            popup,
                            *theme,
                        ) && #[trigger] was_sent(
                            cells,
                            info,
                            old(clients)@[me],
                            final(clients)@[me],
                            frame_looks(old(frames)@),
                            frame_looks(final(frames)@),
                            r->0@,
                        ),
                    None => r is None && final(clients)@ == old(clients)@ && frame_looks(
                        final(frames)@,
                    ) == frame_looks(old(frames)@),
                }
            },
        (forall|k: int| 0 <= k < old(clients)@.len() ==> (#[trigger] old(clients)@[k]).0 != id)
            ==> r is None && final(clients)@ == old(clients)@ && frame_looks(final(frames)@)
            == frame_looks(old(frames)@),
{
    let me: usize = match clients.find(id) {
        Some(i) => i,
        None => {
            return None;
        },
    };
    assert(crate::command::is_client(clients@, id, me as int));
    assert(forall|k: int| #[trigger] crate::command::is_client(clients@, id, k) ==> k == me);
    assert(clients@[me as int].1 == clients.entries@[me as int].1@);
    let session: String = match &clients.entries[me].1.session_name {
        Some(s) => s.clone(),
        None => {
            return None;
        },
    };
    let ghost before = clients@;
    let ghost kept = frame_looks(frames@);
    let ghost entries = clients.entries@;
    let (cols, rows) = clients.session_render_size(&session);
    let offset: usize = clients.entries[me].1.scroll_offset;
    let (cells, info) = depict(
        &session,
        &clients.entries[me].1,
        offset,
        cols,
        rows,
        st,
        screens,
        popup,
        theme,
    );
    let ghost drawn = looks(cells@);
    let screen = screen_in_focus(st, &session, screens);
    let (message, baseline) = send_full_render_to_client(
        &mut clients.entries[me].1,
        cells,
        info,
        screen,
        rows,
    );
    assert(placed_info(info, offset, focused_screen(st@, session@, screens@), rows) == info);
    assert forall|k: int| 0 <= k < before.len() && k != me implies #[trigger] clients@[k]
        == before[k] by {
        assert(clients.entries@[k] == entries[k]);
    }
    match baseline {
        Some(frame) => {
            proof {
                lemma_frame_inserted(frames@, id, frame);
            }
            let _ = frames.insert(id, frame);
        },
        None => {},
    }
    let r = Some(message);
    assert(was_sent(
        drawn,
        info,
        before[me as int],
        clients@[me as int],
        kept,
        frame_looks(frames@),
        r->0@,
    ));
    assert(before[me as int].1.session_name == Some(session@));
    assert(depicts(
        drawn,
        info,
        session@,
        before[me as int].1,
        offset,
        render_size(before, session@),
        st@,
        screens@,
        popup,
        *theme,
    ));
    r
}

// ---------------------------------------------------------------------------
// Laws
// ---------------------------------------------------------------------------

/// The frame that is kept for a client is the one that it shows, unless its view is
/// scrolled or it owes a full frame.
pub open spec fn in_step(
    entry: (u64, ClientView),
    frames: Map<u64, Seq<Seq<Look>>>,
    shown: Seq<Seq<Look>>,
) -> bool {
    entry.1.scroll_offset == 0 && !entry.1.needs_full_render && frames.contains_key(entry.0)
        ==> shown == frames[entry.0] && rectangular(shown)
}

proof fn lemma_sent(
    clients: Seq<(u64, ClientView)>,
    session: Seq<char>,
    frames: Map<u64, Seq<Seq<Look>>>,
    cells: Seq<Seq<Look>>,
    info: FrameInfo,
    cols: u16,
    rows: u16,
    k: int,
    n: int,
)
    requires
        0 <= k < n <= clients.len(),
        in_live_view(clients[k].1, session),
    ensures
        broadcast_messages(clients, session, frames, cells, info, cols, rows, n).contains(
            (
                clients[k].0,
                live_message(baseline_of(clients[k], frames), cells, info, cols, rows),
            ),
        ),
    decreases n,
{
    let all = broadcast_messages(clients, session, frames, cells, info, cols, rows, n);
    let before = broadcast_messages(clients, session, frames, cells, info, cols, rows, n - 1);
    if k == n - 1 {
        assert(all.last() == (
            clients[k].0,
            live_message(baseline_of(clients[k], frames), cells, info, cols, rows),
        ));
    } else {
        lemma_sent(clients, session, frames, cells, info, cols, rows, k, n - 1);
        let m = (
            clients[k].0,
            live_message(baseline_of(clients[k], frames), cells, info, cols, rows),
        );
        let i = choose|i: int| 0 <= i < before.len() && before[i] == m;
        assert(all[i] == m);
    }
}

/// Each client is compared with what it shows itself. So after a broadcast every client in
/// the live view of the session shows the new frame, whatever it showed before, and the
/// frame that is kept for it is again the one that it shows.
pub proof fn law_a_broadcast_brings_every_client_up_to_date(
    clients: Seq<(u64, ClientView)>,
    session: Seq<char>,
    frames: Map<u64, Seq<Seq<Look>>>,
    shown: Seq<Seq<Look>>,
    cells: Seq<Seq<Look>>,
    info: FrameInfo,
    cols: u16,
    rows: u16,
    k: int,
)
    requires
        0 <= k < clients.len(),
        in_live_view(clients[k].1, session),
        in_step(clients[k], frames, shown),
        rectangular(cells),
        cells.len() <= 65536,
        cells.len() > 0 ==> cells[0].len() <= 65536,
    ensures
        ({
            let n = clients.len() as int;
            let m = live_message(baseline_of(clients[k], frames), cells, info, cols, rows);
            let after = broadcast_frames(clients, session, frames, cells, n);
            &&& broadcast_messages(clients, session, frames, cells, info, cols, rows, n).contains(
                (clients[k].0, m),
            )
            &&& shown_after(shown, m) == cells
            &&& after.contains_key(clients[k].0) && after[clients[k].0] == cells
            &&& in_step(broadcast_clients(clients, session)[k], after, shown_after(shown, m))
        }),
{
    let n = clients.len() as int;
    lemma_sent(clients, session, frames, cells, info, cols, rows, k, n);
    assert(clients[k].0 == clients[k].0 && is_target(clients, session, clients[k].0, n));
    let base = baseline_of(clients[k], frames);
    if base is Some {
        crate::render::lemma_live_message(
            shown,
            base,
            cells,
            info,
            cols,
            rows,
        );
    }
}

/// A broadcast leaves everybody else alone: a client of another session, or one that has
/// scrolled, is sent nothing, and the frame that is kept for it stays.
pub proof fn law_a_broadcast_leaves_the_others_alone(
    clients: Seq<(u64, ClientView)>,
    session: Seq<char>,
    frames: Map<u64, Seq<Seq<Look>>>,
    shown: Seq<Seq<Look>>,
    cells: Seq<Seq<Look>>,
    k: int,
)
    requires
        ids_differ(clients),
        0 <= k < clients.len(),
        !in_live_view(clients[k].1, session),
        in_step(clients[k], frames, shown),
    ensures
        ({
            let after = broadcast_frames(clients, session, frames, cells, clients.len() as int);
            &&& broadcast_clients(clients, session)[k] == clients[k]
            &&& after.contains_key(clients[k].0) == frames.contains_key(clients[k].0)
            &&& frames.contains_key(clients[k].0) ==> after[clients[k].0] == frames[clients[k].0]
            &&& in_step(broadcast_clients(clients, session)[k], after, shown)
        }),
{
    let n = clients.len() as int;
    assert(!is_target(clients, session, clients[k].0, n));
    assert(broadcast_clients(clients, session)[k] == clients[k]);
}

/// A frame of its own keeps a client in step: in the live view it shows the frame that is
/// kept for it; in a scrolled view the kept frame is not compared with, and the return to
/// the live view owes it a full one.
pub proof fn law_a_frame_of_its_own_keeps_the_client_in_step(
    cells: Seq<Seq<Look>>,
    info: FrameInfo,
    before: (u64, ClientView),
    after: (u64, ClientView),
    frames_before: Map<u64, Seq<Seq<Look>>>,
    frames_after: Map<u64, Seq<Seq<Look>>>,
    sent: MessageView,
    shown: Seq<Seq<Look>>,
)
    requires
        was_sent(cells, info, before, after, frames_before, frames_after, sent),
        info.scroll_offset == before.1.scroll_offset,
        rectangular(cells),
    ensures
        before.1.scroll_offset == 0 ==> shown_after(shown, sent) == cells,
        in_step(after, frames_after, shown_after(shown, sent)),
        baseline_of((before.0, before.1.live()), frames_after) is None,
{
}

/// A session is drawn with exactly the rows and columns that fit its clients, so all frames
/// that its clients are sent between two changes of that size have the same shape.
pub proof fn law_a_drawn_session_fits_its_clients(
    cells: Seq<Seq<Look>>,
    info: FrameInfo,
    session: Seq<char>,
    c: ClientView,
    offset: usize,
    size: (u16, u16),
    st: StateView,
    screens: Map<PaneId, &Screen>,
    popup: Rect,
    theme: CompositorTheme,
)
    requires
        depicts(cells, info, session, c, offset, size, st, screens, popup, theme),
    ensures
        cells.len() == size.1,
        forall|y: int| 0 <= y < cells.len() ==> (#[trigger] cells[y]).len() == size.0,
        rectangular(cells),
{
    let v = choose|v: ComposedView| #[trigger]
        depicts_as(v, cells, info, session, c, offset, size, st, screens, popup, theme);
    let (cols, rows) = size;
    let base = clean(cols as int, rows as int);
    if st.sessions.contains_key(session) && st.sessions[session].current() is Some {
        let s = st.sessions[session];
        let t = s.current()->0;
        let bar = choose|bar: StatusInfo| #[trigger]
            describes(bar, s, session, c.mode, c.search_info) && v == tab_shown(
                s,
                t,
                bar,
                cols,
                rows,
                screens,
                c.mouse_selection,
                offset,
                popup,
                theme,
            );
        lemma_tab_shape(
            s,
            t,
            bar,
            cols,
            rows,
            screens,
            c.mouse_selection,
            offset,
            popup,
            theme,
        );
    }
    assert(same_shape(cells, base));
    assert forall|y: int| 0 <= y < cells.len() implies (#[trigger] cells[y]).len() == cols by {
        assert(base[y].len() == cols);
    }
}

proof fn lemma_tab_shape(
    s: SessionView,
    t: TabView,
    info: StatusInfo,
    cols: u16,
    rows: u16,
    screens: Map<PaneId, &Screen>,
    selection: Option<MouseSelection>,
    offset: usize,
    popup_rect: Rect,
    theme: CompositorTheme,
)
    ensures
        same_shape(
            tab_shown(
                s,
                t,
                info,
                cols,
                rows,
                screens,
                selection,
                offset,
                popup_rect,
                theme,
            ).cells,
            clean(cols as int, rows as int),
        ),
{
    let rects = placed(t.shown(), pane_area(cols, rows), 0);
    let popup = popup_shown(s, screens, popup_rect);
    let scene = Scene {
        tree: t.shown(),
        focused: t.focused,
        mode: info.mode@,
        scrolls: scrolls(owner(t, popup), offset),
        theme,
    };
    law_a_frame_has_the_size_of_the_terminal(
        rects,
        screens,
        scene,
        s.style,
        selection,
        info,
        cols,
        rows,
    );
    let base = frame(rects, screens, scene, s.style, selection, info, cols, rows);
    if popup is Some {
        let (p, r) = popup->0;
        law_a_popup_keeps_the_shape_of_the_frame(
            base,
            r,
            p,
            *screens[p],
            "popup"@,
            info.mode@,
            offset,
            selection,
            theme,
        );
        let over = popup_drawn(
            base,
            r,
            p,
            *screens[p],
            "popup"@,
            info.mode@,
            offset,
            selection,
            theme,
        );
        assert forall|y: int| 0 <= y < over.len() implies (#[trigger] over[y]).len() == clean(
            cols as int,
            rows as int,
        )[y].len() by {
            assert(over[y].len() == base[y].len());
        }
    }
}

} // verus!
