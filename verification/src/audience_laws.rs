//! Who a session and a pane are drawn for, how large they are for them, and who is told of
//! what happens to them.

use crate::client::ClientView;
use crate::clients::{
    demand_of, ids_of, least_cols, least_rows, least_size, lookers, min_demand, reference_area,
    render_size, tree_readers, watched, watchers,
};
use crate::layout::PaneId;
use crate::render::attached;
use crate::sizing::{effective_size, pane_area};
use vstd::prelude::*;

verus! {

// ---------------------------------------------------------------------------
// Sizes
// ---------------------------------------------------------------------------

proof fn lemma_size_is_had(c: Seq<(u64, ClientView)>, session: Seq<char>, n: int)
    requires
        0 <= n <= c.len(),
    ensures
        match least_cols(c, session, n) {
            Some(w) => exists|i: int|
                0 <= i < n && attached((#[trigger] c[i]).1, session) && c[i].1.cols == w,
            None => forall|i: int| 0 <= i < n ==> !attached((#[trigger] c[i]).1, session),
        },
        match least_rows(c, session, n) {
            Some(h) => exists|i: int|
                0 <= i < n && attached((#[trigger] c[i]).1, session) && c[i].1.rows == h,
            None => forall|i: int| 0 <= i < n ==> !attached((#[trigger] c[i]).1, session),
        },
    decreases n,
{
    if n > 0 {
        lemma_size_is_had(c, session, n - 1);
        assert(c[n - 1] == c[n - 1]);
    }
}

/// A session is as wide as one of its clients and as high as one of them, so with what fits
/// all of them it is as large as it can be. Without a client it is drawn in 80 columns and 24
/// rows.
pub proof fn law_a_session_is_as_large_as_it_can_be(c: Seq<(u64, ClientView)>, session: Seq<char>)
    ensures
        watched(c, session) ==> exists|i: int|
            0 <= i < c.len() && attached((#[trigger] c[i]).1, session) && c[i].1.cols
                == render_size(c, session).0,
        watched(c, session) ==> exists|i: int|
            0 <= i < c.len() && attached((#[trigger] c[i]).1, session) && c[i].1.rows
                == render_size(c, session).1,
        !watched(c, session) ==> render_size(c, session) == (80u16, 24u16),
{
    lemma_size_is_had(c, session, c.len() as int);
}

proof fn lemma_demand_is_made(c: Seq<(u64, ClientView)>, pane: PaneId, n: int)
    requires
        0 <= n <= c.len(),
    ensures
        match min_demand(c, pane, n) {
            Some(d) => {
                &&& exists|i: int|
                    0 <= i < n && (demand_of((#[trigger] c[i]).1, pane) matches Some(e) && e.0
                        == d.0)
                &&& exists|i: int|
                    0 <= i < n && (demand_of((#[trigger] c[i]).1, pane) matches Some(e) && e.1
                        == d.1)
            },
            None => forall|i: int| 0 <= i < n ==> demand_of((#[trigger] c[i]).1, pane) is None,
        },
    decreases n,
{
    if n > 0 {
        lemma_demand_is_made(c, pane, n - 1);
        assert(c[n - 1] == c[n - 1]);
    }
}

/// What is asked of a pane is asked by its viewers: its width by one of them and its height
/// by one of them. Where no viewer asks for a size, none is asked of it.
pub proof fn law_a_demand_comes_from_a_viewer(c: Seq<(u64, ClientView)>, pane: PaneId)
    ensures
        match min_demand(c, pane, c.len() as int) {
            Some(d) => {
                &&& exists|i: int|
                    0 <= i < c.len() && (demand_of((#[trigger] c[i]).1, pane) matches Some(e)
                        && e.0 == d.0)
                &&& exists|i: int|
                    0 <= i < c.len() && (demand_of((#[trigger] c[i]).1, pane) matches Some(e)
                        && e.1 == d.1)
            },
            None => forall|i: int|
                0 <= i < c.len() ==> demand_of((#[trigger] c[i]).1, pane) is None,
        },
{
    lemma_demand_is_made(c, pane, c.len() as int);
}

proof fn lemma_least_size(c: Seq<(u64, ClientView)>, n: int)
    requires
        0 <= n <= c.len(),
    ensures
        n == 0 ==> least_size(c, n) == (None::<u16>, None::<u16>),
        n > 0 ==> {
            let s = least_size(c, n);
            &&& s.0 is Some && s.1 is Some
            &&& forall|i: int|
                0 <= i < n ==> s.0->0 <= (#[trigger] c[i]).1.cols && s.1->0 <= c[i].1.rows
            &&& exists|i: int| 0 <= i < n && (#[trigger] c[i]).1.cols == s.0->0
            &&& exists|i: int| 0 <= i < n && (#[trigger] c[i]).1.rows == s.1->0
        },
    decreases n,
{
    if n > 0 {
        lemma_least_size(c, n - 1);
        assert(c[n - 1] == c[n - 1]);
    }
}

/// A shared view is arranged in what every client can show above its status bar, and no
/// smaller than the narrowest and the lowest of them ask.
pub proof fn law_a_shared_view_fits_every_client(c: Seq<(u64, ClientView)>)
    requires
        forall|i: int| 0 <= i < c.len() ==> (#[trigger] c[i]).1.rows > 0,
    ensures
        ({
            let a = reference_area(c);
            &&& a.x == 0 && a.y == 0
            &&& c.len() == 0 ==> a.width == 80 && a.height == 23
            &&& forall|i: int|
                0 <= i < c.len() ==> a.width <= (#[trigger] c[i]).1.cols && a.height + 1
                    <= c[i].1.rows
            &&& c.len() > 0 ==> exists|i: int|
                0 <= i < c.len() && (#[trigger] c[i]).1.cols == a.width
            &&& c.len() > 0 ==> exists|i: int|
                0 <= i < c.len() && (#[trigger] c[i]).1.rows == a.height + 1
        }),
{
    lemma_least_size(c, c.len() as int);
}

/// The panes have the whole screen but for the lowest row.
pub proof fn law_the_lowest_row_is_the_status_bar(cols: u16, rows: u16)
    requires
        rows > 0,
    ensures
        pane_area(cols, rows).x == 0 && pane_area(cols, rows).y == 0,
        pane_area(cols, rows).width == cols,
        pane_area(cols, rows).height == rows - 1,
{
}

/// A pane in the background fits both its session and every cell that shows it, and is as
/// large as these let it be. In the foreground its session alone counts.
pub proof fn law_a_pane_is_as_large_as_it_may_be(
    visible: bool,
    home: Option<(u16, u16)>,
    demand: Option<(u16, u16)>,
)
    requires
        home matches Some(h) ==> h.0 > 0 && h.1 > 0,
        demand matches Some(d) ==> d.0 > 0 && d.1 > 0,
    ensures
        visible ==> effective_size(visible, home, demand) == home,
        !visible ==> match effective_size(visible, home, demand) {
            Some(e) => {
                &&& home matches Some(h) ==> e.0 <= h.0 && e.1 <= h.1
                &&& demand matches Some(d) ==> e.0 <= d.0 && e.1 <= d.1
                &&& (home matches Some(h) && e.0 == h.0) || (demand matches Some(d) && e.0 == d.0)
                &&& (home matches Some(h) && e.1 == h.1) || (demand matches Some(d) && e.1 == d.1)
            },
            None => home is None && demand is None,
        },
{
}

// ---------------------------------------------------------------------------
// Who is told
// ---------------------------------------------------------------------------

proof fn lemma_pushed(list: Seq<u64>, id: u64)
    ensures
        list.push(id).contains(id),
        forall|x: u64| #[trigger]
            list.push(id).contains(x) <==> list.contains(x) || x == id,
{
    let now = list.push(id);
    assert(now[list.len() as int] == id);
    assert forall|x: u64| #[trigger] now.contains(x) <==> list.contains(x) || x == id by {
        if list.contains(x) {
            let j = choose|j: int| 0 <= j < list.len() && list[j] == x;
            assert(now[j] == x);
        }
        if now.contains(x) && x != id {
            let j = choose|j: int| 0 <= j < now.len() && now[j] == x;
            assert(list[j] == x);
        }
    }
}

/// The clients of a session are those that are attached to it.
pub proof fn law_the_clients_of_a_session_are_listed(
    c: Seq<(u64, ClientView)>,
    session: Seq<char>,
    n: int,
    id: u64,
)
    requires
        0 <= n <= c.len(),
    ensures
        ids_of(c, session, n).contains(id) <==> exists|i: int|
            0 <= i < n && (#[trigger] c[i]).0 == id && attached(c[i].1, session),
    decreases n,
{
    if n > 0 {
        law_the_clients_of_a_session_are_listed(c, session, n - 1, id);
        lemma_pushed(ids_of(c, session, n - 1), c[n - 1].0);
        assert(c[n - 1] == c[n - 1]);
    }
}

/// What an application puts on the clipboard reaches the clients whose keys go to its pane
/// and those that show the pane at a size of their own, and nobody else.
pub proof fn law_the_clipboard_reaches_who_looks(
    c: Seq<(u64, ClientView)>,
    focused_in: Seq<Seq<char>>,
    pane: PaneId,
    n: int,
    id: u64,
)
    requires
        0 <= n <= c.len(),
    ensures
        lookers(c, focused_in, pane, n).contains(id) <==> exists|i: int|
            0 <= i < n && (#[trigger] c[i]).0 == id && ((c[i].1.session_name matches Some(s)
                && focused_in.contains(s)) || (c[i].1.subscribed_panes.contains_key(pane)
                && c[i].1.subscribed_panes[pane] is Some)),
    decreases n,
{
    if n > 0 {
        law_the_clipboard_reaches_who_looks(c, focused_in, pane, n - 1, id);
        lemma_pushed(lookers(c, focused_in, pane, n - 1), c[n - 1].0);
        assert(c[n - 1] == c[n - 1]);
    }
}

/// The session tree is sent to those who asked for it.
pub proof fn law_the_session_tree_reaches_who_asked(c: Seq<(u64, ClientView)>, n: int, id: u64)
    requires
        0 <= n <= c.len(),
    ensures
        tree_readers(c, n).contains(id) <==> exists|i: int|
            0 <= i < n && (#[trigger] c[i]).0 == id && c[i].1.session_tree_subscribed,
    decreases n,
{
    if n > 0 {
        law_the_session_tree_reaches_who_asked(c, n - 1, id);
        lemma_pushed(tree_readers(c, n - 1), c[n - 1].0);
        assert(c[n - 1] == c[n - 1]);
    }
}

/// A pane is sent to those who watch it, each once and in the order of the clients.
pub proof fn law_a_pane_reaches_its_watchers(c: Seq<(u64, ClientView)>, pane: PaneId, n: int)
    requires
        0 <= n <= c.len(),
    ensures
        ({
            let w = watchers(c, pane, n);
            &&& forall|k: int|
                0 <= k < w.len() ==> 0 <= #[trigger] w[k] < n
                    && c[w[k]].1.subscribed_panes.contains_key(pane)
            &&& forall|k: int, m: int| 0 <= k < m < w.len() ==> #[trigger] w[k] < #[trigger] w[m]
            &&& forall|i: int|
                0 <= i < n && (#[trigger] c[i]).1.subscribed_panes.contains_key(pane) ==> exists|k: int| 0 <= k < w.len() && #[trigger] w[k] == i
        }),
    decreases n,
{
    if n > 0 {
        law_a_pane_reaches_its_watchers(c, pane, n - 1);
        let old_w = watchers(c, pane, n - 1);
        let w = watchers(c, pane, n);
        assert forall|i: int|
            0 <= i < n && (#[trigger] c[i]).1.subscribed_panes.contains_key(pane) implies exists|k: int| 0 <= k < w.len() && #[trigger] w[k] == i by {
            if i < n - 1 {
                let k = choose|k: int| 0 <= k < old_w.len() && #[trigger] old_w[k] == i;
                assert(w[k] == i);
            } else {
                assert(w[old_w.len() as int] == i);
            }
        }
    }
}

} // verus!
