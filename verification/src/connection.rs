//! Clients that come and go, and drags that repeat while the pointer rests.

use crate::client::{ClientState, ClientView, Drag};
use crate::clients::Clients;
use crate::command::idle;
use crate::frames::{forget_frame, frame_looks};
use crate::layout::PaneId;
use crate::message::{empty_plan, only, Measure, Reply, ReplyView};
use crate::protocol::RenderCell;
use std::collections::HashMap;
use vstd::prelude::*;

verus! {

/// Every id that is in use was given out before.
pub open spec fn ids_below(clients: Seq<(u64, ClientView)>, next: u64) -> bool {
    forall|i: int| 0 <= i < clients.len() ==> (#[trigger] clients[i]).0 < next
}

/// No id is in use twice.
pub open spec fn ids_differ(clients: Seq<(u64, ClientView)>) -> bool {
    forall|i: int, j: int|
        0 <= i < j < clients.len() ==> (#[trigger] clients[i]).0 != (#[trigger] clients[j]).0
}

/// A client connects: it gets the next id, is attached to no session, and has the default
/// size.
pub fn handle_new_connection(next: &mut u64, clients: &mut Clients) -> (r: u64)
    requires
        *old(next) < u64::MAX,
    ensures
        r == *old(next),
        *final(next) == r + 1,
        final(clients)@ == old(clients)@.push((r, ClientView::fresh())),
{
    let id: u64 = *next;
    *next = id + 1;
    clients.connect(id);
    id
}

/// What is to be done once a client is gone: what the others see of the sessions has
/// changed, and panes that it made visible may no longer be.
pub open spec fn after_disconnect() -> ReplyView {
    ReplyView {
        measure: Measure::Watched,
        tree_changed: true,
        ..only(idle(Seq::empty()))
    }
}

/// The clients without the first one that has an id.
pub open spec fn without_client(clients: Seq<(u64, ClientView)>, id: u64, i: int) -> Seq<
    (u64, ClientView),
>
    decreases clients.len() - i,
{
    if i < 0 || i >= clients.len() {
        clients
    } else if clients[i].0 == id {
        clients.remove(i)
    } else {
        without_client(clients, id, i + 1)
    }
}

proof fn lemma_without_client(clients: Seq<(u64, ClientView)>, id: u64, i: int, k: int)
    requires
        0 <= i <= k,
        forall|j: int| 0 <= j < k && j < clients.len() ==> (#[trigger] clients[j]).0 != id,
    ensures
        k < clients.len() && clients[k].0 == id ==> without_client(clients, id, i)
            == clients.remove(k),
        k >= clients.len() ==> without_client(clients, id, i) == clients,
    decreases clients.len() - i,
{
    if i < clients.len() && i < k {
        lemma_without_client(clients, id, i + 1, k);
    }
}

/// A client disconnects. Everything that the server kept for it goes with it.
pub fn handle_client_disconnect(
    id: u64,
    clients: &mut Clients,
    frames: &mut HashMap<u64, Vec<Vec<RenderCell>>>,
) -> (r: Reply)
    ensures
        final(clients)@ == without_client(old(clients)@, id, 0),
        frame_looks(final(frames)@) == frame_looks(old(frames)@).remove(id),
        r@ == after_disconnect(),
{
    match clients.find(id) {
        Some(i) => {
            proof {
                lemma_without_client(clients@, id, 0, i as int);
            }
            clients.entries.remove(i);
            assert(clients@ =~= old(clients)@.remove(i as int));
        },
        None => {
            proof {
                lemma_without_client(clients@, id, 0, clients@.len() as int);
            }
        },
    }
    forget_frame(id, frames);
    let mut r = Reply::only(empty_plan());
    r.measure = Measure::Watched;
    r.tree_changed = true;
    r
}

/// The drags that a client has come to rest at a scrollable edge with: in its session, and
/// in a pane that it watches.
pub open spec fn resting(c: ClientView) -> Seq<(Drag, Option<PaneId>)> {
    let own = match c.autoscroll_repeat {
        Some((sx, sy, ex, ey)) => seq![
            (
                Drag { start_x: sx, start_y: sy, end_x: ex, end_y: ey, is_final: false },
                None::<PaneId>,
            ),
        ],
        None => Seq::empty(),
    };
    match c.pane_autoscroll_repeat {
        Some((pane, sx, sy, ex, ey)) => own.push(
            (
                Drag { start_x: sx, start_y: sy, end_x: ex, end_y: ey, is_final: false },
                Some(pane),
            ),
        ),
        None => own,
    }
}

/// The drags to replay at a tick of the timer: terminals send nothing while the pointer
/// rests, though the text under it should keep scrolling.
pub fn autoscroll_replays(c: &ClientState) -> (r: Vec<(Drag, Option<PaneId>)>)
    ensures
        r@ == resting(c@),
{
    let mut out: Vec<(Drag, Option<PaneId>)> = Vec::new();
    match c.autoscroll_repeat {
        Some((sx, sy, ex, ey)) => {
            out.push(
                (
                    Drag { start_x: sx, start_y: sy, end_x: ex, end_y: ey, is_final: false },
                    None,
                ),
            );
        },
        None => {},
    }
    match c.pane_autoscroll_repeat {
        Some((pane, sx, sy, ex, ey)) => {
            out.push(
                (
                    Drag { start_x: sx, start_y: sy, end_x: ex, end_y: ey, is_final: false },
                    Some(pane),
                ),
            );
        },
        None => {},
    }
    assert(out@ =~= resting(c@));
    out
}

/// Ids stay unique while clients come and go.
pub proof fn law_no_two_clients_share_an_id(clients: Seq<(u64, ClientView)>, next: u64, id: u64)
    requires
        ids_below(clients, next),
        ids_differ(clients),
        next < u64::MAX,
    ensures
        ids_below(clients.push((next, ClientView::fresh())), (next + 1) as u64),
        ids_differ(clients.push((next, ClientView::fresh()))),
        ids_below(without_client(clients, id, 0), next),
        ids_differ(without_client(clients, id, 0)),
{
    let more = clients.push((next, ClientView::fresh()));
    assert forall|i: int, j: int| 0 <= i < j < more.len() implies (#[trigger] more[i]).0 != (
    #[trigger] more[j]).0 by {
        assert(clients[i].0 < next);
    }
    lemma_some_left(clients, id, 0);
    let few = without_client(clients, id, 0);
    if few != clients {
        let k = choose|k: int| 0 <= k < clients.len() && few == clients.remove(k);
        assert forall|i: int, j: int| 0 <= i < j < few.len() implies (#[trigger] few[i]).0 != (
        #[trigger] few[j]).0 by {
            let a = if i < k {
                i
            } else {
                i + 1
            };
            let b = if j < k {
                j
            } else {
                j + 1
            };
            assert(clients[a].0 != clients[b].0);
        }
    }
}

proof fn lemma_some_left(clients: Seq<(u64, ClientView)>, id: u64, i: int)
    requires
        0 <= i,
    ensures
        without_client(clients, id, i) == clients || exists|k: int|
            0 <= k < clients.len() && without_client(clients, id, i) == #[trigger] clients.remove(k),
    decreases clients.len() - i,
{
    if i < clients.len() && clients[i].0 != id {
        lemma_some_left(clients, id, i + 1);
    }
}

/// A client that is gone leaves nothing behind, and no other client is changed.
pub proof fn law_a_client_that_is_gone_leaves_nothing(
    clients: Seq<(u64, ClientView)>,
    id: u64,
    i: int,
)
    requires
        ids_differ(clients),
        0 <= i < clients.len(),
    ensures
        clients[i].0 != id ==> without_client(clients, id, 0).contains(clients[i]),
        clients[i].0 == id ==> forall|j: int|
            0 <= j < without_client(clients, id, 0).len() ==> (#[trigger] without_client(
                clients,
                id,
                0,
            )[j]).0 != id,
{
    lemma_some_left(clients, id, 0);
    let few = without_client(clients, id, 0);
    if clients[i].0 == id {
        lemma_without_client(clients, id, 0, i);
        assert forall|j: int| 0 <= j < few.len() implies (#[trigger] few[j]).0 != id by {
            let a = if j < i {
                j
            } else {
                j + 1
            };
            assert(clients[a].0 != clients[i].0);
        }
    } else if few != clients {
        lemma_only_it(clients, id, 0);
        let k = choose|k: int|
            0 <= k < clients.len() && clients[k].0 == id && few == #[trigger] clients.remove(k);
        if i < k {
            assert(few[i] == clients[i]);
        } else {
            assert(few[i - 1] == clients[i]);
        }
    } else {
        assert(few[i] == clients[i]);
    }
}

proof fn lemma_only_it(clients: Seq<(u64, ClientView)>, id: u64, i: int)
    requires
        0 <= i,
        without_client(clients, id, i) != clients,
    ensures
        exists|k: int|
            0 <= k < clients.len() && clients[k].0 == id && without_client(clients, id, i)
                == #[trigger] clients.remove(k),
    decreases clients.len() - i,
{
    if i < clients.len() && clients[i].0 != id {
        lemma_only_it(clients, id, i + 1);
    }
}

} // verus!
