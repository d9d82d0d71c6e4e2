//! What follows from a terminal's output, and from its end.

use crate::client::ClientView;
use crate::clients::{demand_of, lookers, looks_at, Clients, Exit, EXIT_CODE_UNKNOWN};
use crate::clients::{all_bereft, all_told};
use crate::command::{close_pane, pane_closed, Plan};
use crate::config::TabActivity;
use crate::edit_laws::{law_a_session_without_a_pane_stays_sound, law_the_server_stays_sound};
use crate::layout::{all_pane_ids, texts, PaneId};
use crate::names::{lemma_entries, names_distinct};
use crate::session::{tab_with, Session, SessionView};
use crate::state::{ServerState, StateView};
use crate::tab::TabView;
use std::collections::HashMap;
use vstd::prelude::*;

verus! {

broadcast use vstd::std_specs::hash::group_hash_axioms;

// ---------------------------------------------------------------------------
// One task per terminal
// ---------------------------------------------------------------------------

/// The panes that have terminals, each with whether some task forwards its output.
#[derive(Debug)]
pub struct Terminals {
    pub forwarded: HashMap<PaneId, bool>,
}

impl View for Terminals {
    type V = Map<PaneId, bool>;

    open spec fn view(&self) -> Map<PaneId, bool> {
        self.forwarded@
    }
}

/// A terminal whose output nobody forwards yet.
pub open spec fn is_free(t: Map<PaneId, bool>, pane: PaneId) -> bool {
    t.contains_key(pane) && !t[pane]
}

/// The terminals with the first `n` of the panes claimed.
pub open spec fn claimed(t: Map<PaneId, bool>, panes: Seq<PaneId>, n: int) -> Map<PaneId, bool>
    decreases n,
{
    if n <= 0 {
        t
    } else {
        let before = claimed(t, panes, n - 1);
        if is_free(before, panes[n - 1]) {
            before.insert(panes[n - 1], true)
        } else {
            before
        }
    }
}

/// Those of the first `n` panes that could be claimed.
pub open spec fn claims(t: Map<PaneId, bool>, panes: Seq<PaneId>, n: int) -> Seq<PaneId>
    decreases n,
{
    if n <= 0 {
        Seq::empty()
    } else if is_free(claimed(t, panes, n - 1), panes[n - 1]) {
        claims(t, panes, n - 1).push(panes[n - 1])
    } else {
        claims(t, panes, n - 1)
    }
}

impl Terminals {
    /// No terminals.
    pub fn new() -> (r: Terminals)
        ensures
            r@ == Map::<PaneId, bool>::empty(),
    {
        Terminals { forwarded: HashMap::new() }
    }

    /// A pane gets a terminal.
    pub fn open(&mut self, pane: PaneId)
        ensures
            final(self)@ == old(self)@.insert(pane, false),
    {
        self.forwarded.insert(pane, false);
    }

    /// A pane's terminal goes away. The result says whether it was there.
    pub fn close(&mut self, pane: PaneId) -> (r: bool)
        ensures
            r == old(self)@.contains_key(pane),
            final(self)@ == old(self)@.remove(pane),
    {
        let r: bool = self.forwarded.remove(&pane).is_some();
        assert(self@ =~= old(self)@.remove(pane));
        r
    }

    /// Whether a pane has a terminal.
    pub fn has(&self, pane: PaneId) -> (r: bool)
        ensures
            r == self@.contains_key(pane),
    {
        self.forwarded.contains_key(&pane)
    }

    /// Claim the output of panes; those for which a task is to be started. A pane whose
    /// output is claimed already is left to the task that it has.
    pub fn claim(&mut self, panes: &Vec<PaneId>) -> (r: Vec<PaneId>)
        ensures
            final(self)@ == claimed(old(self)@, panes@, panes@.len() as int),
            r@ == claims(old(self)@, panes@, panes@.len() as int),
    {
        let mut out: Vec<PaneId> = Vec::new();
        let mut i: usize = 0;
        while i < panes.len()
            invariant
                i <= panes.len(),
                self@ == claimed(old(self)@, panes@, i as int),
                out@ == claims(old(self)@, panes@, i as int),
            decreases panes.len() - i,
        {
            let pane: PaneId = panes[i];
            let free: bool = match self.forwarded.get(&pane) {
                Some(taken) => !*taken,
                None => false,
            };
            if free {
                self.forwarded.insert(pane, true);
                out.push(pane);
            }
            i += 1;
        }
        out
    }
}

/// The panes of the tab that a session shows, and its popup.
pub open spec fn panes_in_front(s: SessionView) -> Seq<PaneId> {
    match s.current() {
        Some(t) => match s.popup {
            Some(p) => t.layout.ids().push(p),
            None => t.layout.ids(),
        },
        None => Seq::empty(),
    }
}

/// The panes whose output is to be forwarded once a session is shown.
pub open spec fn to_forward(st: StateView, session: Seq<char>) -> Seq<PaneId> {
    if st.sessions.contains_key(session) {
        panes_in_front(st.sessions[session])
    } else {
        Seq::empty()
    }
}

fn front_panes(s: &Session) -> (r: Vec<PaneId>)
    ensures
        r@ == panes_in_front(s@),
{
    if s.active_tab >= s.tabs.len() {
        return Vec::new();
    }
    assert(s@.current() == Some(s.tabs@[s.active_tab as int]@));
    let mut ids = all_pane_ids(&s.tabs[s.active_tab].layout);
    match s.popup_pane {
        Some(p) => {
            ids.push(p);
        },
        None => {},
    }
    ids
}

/// The panes for which a forwarding task is to be started: those of the tab that the
/// session shows and its popup, as far as no task has them yet.
pub fn start_pty_forwarding(st: &ServerState, session: &str, terminals: &mut Terminals) -> (r: Vec<
    PaneId,
>)
    ensures
        ({
            let all = to_forward(st@, session@);
            &&& final(terminals)@ == claimed(old(terminals)@, all, all.len() as int)
            &&& r@ == claims(old(terminals)@, all, all.len() as int)
        }),
{
    match st.sessions.get(session) {
        Some(s) => {
            let ids = front_panes(s);
            terminals.claim(&ids)
        },
        None => {
            assert(to_forward(st@, session@).len() == 0);
            Vec::new()
        },
    }
}

// ---------------------------------------------------------------------------
// Output
// ---------------------------------------------------------------------------

/// What a tab in the background is marked with after output. A bell stays.
pub open spec fn marked(a: TabActivity, bell: bool) -> TabActivity {
    if bell || a is Bell {
        TabActivity::Bell
    } else {
        TabActivity::Activity
    }
}

/// A session after output of a pane. The tab that is shown is not marked.
pub open spec fn noted(s: SessionView, pane: PaneId, bell: bool) -> SessionView {
    match tab_with(s.tabs, pane, 0) {
        Some(i) => if i != s.active {
            s.with_tab(i, TabView { activity: marked(s.tabs[i].activity, bell), ..s.tabs[i] })
        } else {
            s
        },
        None => s,
    }
}

/// The state after output of a pane.
pub open spec fn activity_noted(st: StateView, pane: PaneId, bell: bool) -> StateView {
    StateView {
        sessions: Map::new(
            |k: Seq<char>| st.sessions.contains_key(k),
            |k: Seq<char>| noted(st.sessions[k], pane, bell),
        ),
        ..st
    }
}

impl Session {
    fn note_activity(&mut self, pane: PaneId, bell: bool)
        ensures
            final(self)@ == noted(old(self)@, pane, bell),
    {
        match self.find_tab(pane) {
            Some(i) => {
                if i != self.active_tab {
                    let ghost before = self@;
                    proof {
                        crate::session::lemma_tab_with(self@.tabs, pane, 0);
                    }
                    assert(before.tabs[i as int] == self.tabs@[i as int]@);
                    let bell_before: bool = match self.tabs[i].activity {
                        TabActivity::Bell => true,
                        _ => false,
                    };
                    self.tabs[i].activity = if bell || bell_before {
                        TabActivity::Bell
                    } else {
                        TabActivity::Activity
                    };
                    assert(self@ =~= noted(before, pane, bell));
                }
            },
            None => {},
        }
    }
}

impl ServerState {
    /// Note that a pane had output: a tab in the background is marked for it.
    pub fn record_pane_activity(&mut self, pane: PaneId, bell: bool)
        requires
            old(self).named(),
        ensures
            final(self).named(),
            final(self)@ == activity_noted(old(self)@, pane, bell),
    {
        let ghost before = self.sessions.entries@;
        let n: usize = self.sessions.entries.len();
        let mut i: usize = 0;
        while i < n
            invariant
                i <= n,
                n == self.sessions.entries.len(),
                before.len() == n,
                self.folders == old(self).folders,
                self.next_pane == old(self).next_pane,
                forall|k: int|
                    0 <= k < n ==> (#[trigger] self.sessions.entries@[k]).0@ == before[k].0@,
                forall|k: int|
                    0 <= k < n ==> (#[trigger] self.sessions.entries@[k]).1@ == (if k < i {
                        noted(before[k].1@, pane, bell)
                    } else {
                        before[k].1@
                    }),
            decreases n - i,
        {
            self.sessions.entries[i].1.note_activity(pane, bell);
            i += 1;
        }
        proof {
            let after = self.sessions.entries@;
            assert(names_distinct(after)) by {
                assert forall|a: int, b: int|
                    0 <= a < after.len() && 0 <= b < after.len() && a != b implies
                    #[trigger] after[a].0@ != #[trigger] after[b].0@ by {
                    assert(after[a].0@ == before[a].0@);
                    assert(after[b].0@ == before[b].0@);
                }
            }
            lemma_entries(before);
            lemma_entries(after);
            let m = old(self)@.sessions;
            let r = activity_noted(old(self)@, pane, bell).sessions;
            assert forall|k: Seq<char>| #[trigger]
                self@.sessions.contains_key(k) == r.contains_key(k) && (r.contains_key(k)
                    ==> self@.sessions[k] == r[k]) by {
                if self@.sessions.contains_key(k) {
                    let a = choose|a: int| 0 <= a < after.len() && (#[trigger] after[a]).0@ == k;
                    assert(before[a].0@ == k);
                }
                if m.contains_key(k) {
                    let a = choose|a: int| 0 <= a < before.len() && (#[trigger] before[a]).0@ == k;
                    assert(after[a].0@ == k);
                }
            }
            assert(self@.sessions =~= r);
            assert(self@ =~= activity_noted(old(self)@, pane, bell));
        }
    }

    /// The sessions in which a pane gets the input.
    pub fn focused_in(&self, pane: PaneId) -> (r: Vec<String>)
        requires
            self.named(),
        ensures
            forall|k: Seq<char>| #[trigger]
                texts(r@).contains(k) <==> self@.sessions.contains_key(k)
                    && self@.sessions[k].target() == Some(pane),
    {
        let ghost entries = self.sessions.entries@;
        proof {
            lemma_entries(entries);
        }
        let mut out: Vec<String> = Vec::new();
        let mut i: usize = 0;
        while i < self.sessions.entries.len()
            invariant
                i <= self.sessions.entries.len(),
                entries == self.sessions.entries@,
                forall|k: Seq<char>| #[trigger]
                    texts(out@).contains(k) <==> exists|a: int|
                        0 <= a < i && (#[trigger] entries[a]).0@ == k && entries[a].1@.target()
                            == Some(pane),
            decreases self.sessions.entries.len() - i,
        {
            let ghost was = texts(out@);
            let hit: bool = match self.sessions.entries[i].1.input_target() {
                Some(p) => p == pane,
                None => false,
            };
            assert(hit == (entries[i as int].1@.target() == Some(pane)));
            if hit {
                out.push(self.sessions.entries[i].0.clone());
                assert(texts(out@) =~= was.push(entries[i as int].0@));
            }
            assert forall|k: Seq<char>| #[trigger] texts(out@).contains(k) <==> exists|a: int|
                0 <= a < i + 1 && (#[trigger] entries[a]).0@ == k && entries[a].1@.target() == Some(
                    pane,
                ) by {
                if texts(out@).contains(k) {
                    let x = choose|x: int| 0 <= x < texts(out@).len() && texts(out@)[x] == k;
                    if x < was.len() {
                        assert(was[x] == k);
                        assert(was.contains(k));
                    } else {
                        assert(entries[i as int].0@ == k);
                    }
                }
                if exists|a: int|
                    0 <= a < i + 1 && (#[trigger] entries[a]).0@ == k && entries[a].1@.target()
                        == Some(pane) {
                    let a = choose|a: int|
                        0 <= a < i + 1 && (#[trigger] entries[a]).0@ == k && entries[a].1@.target()
                            == Some(pane);
                    if a < i {
                        assert(was.contains(k));
                        let x = choose|x: int| 0 <= x < was.len() && was[x] == k;
                        assert(texts(out@)[x] == k);
                    } else {
                        assert(texts(out@)[was.len() as int] == k);
                    }
                }
            }
            i += 1;
        }
        assert forall|k: Seq<char>| #[trigger] texts(out@).contains(k) <==>
            self@.sessions.contains_key(k) && self@.sessions[k].target() == Some(pane) by {
            if self@.sessions.contains_key(k) {
                let a = choose|a: int| 0 <= a < entries.len() && (#[trigger] entries[a]).0@ == k;
                assert(self@.sessions[k] == entries[a].1@);
            }
        }
        out
    }
}

/// The client looks at a pane: its own keystrokes go there, or it shows the pane.
pub open spec fn sees(st: StateView, c: ClientView, pane: PaneId) -> bool {
    (c.session_name matches Some(s) && st.sessions.contains_key(s) && st.sessions[s].target()
        == Some(pane)) || demand_of(c, pane) is Some
}

/// The ids of those of the first `n` clients that look at a pane.
pub open spec fn onlookers(
    st: StateView,
    clients: Seq<(u64, ClientView)>,
    pane: PaneId,
    n: int,
) -> Seq<u64>
    decreases n,
{
    if n <= 0 {
        Seq::empty()
    } else if sees(st, clients[n - 1].1, pane) {
        onlookers(st, clients, pane, n - 1).push(clients[n - 1].0)
    } else {
        onlookers(st, clients, pane, n - 1)
    }
}

proof fn lemma_onlookers(
    st: StateView,
    clients: Seq<(u64, ClientView)>,
    focused_in: Seq<Seq<char>>,
    pane: PaneId,
    n: int,
)
    requires
        forall|k: Seq<char>| #[trigger]
            focused_in.contains(k) <==> st.sessions.contains_key(k) && st.sessions[k].target()
                == Some(pane),
    ensures
        lookers(clients, focused_in, pane, n) == onlookers(st, clients, pane, n),
    decreases n,
{
    if n > 0 {
        lemma_onlookers(st, clients, focused_in, pane, n - 1);
        let c = clients[n - 1].1;
        if let Some(s) = c.session_name {
            assert(focused_in.contains(s) <==> st.sessions.contains_key(s)
                && st.sessions[s].target() == Some(pane));
        }
        assert(looks_at(c, focused_in, pane) == sees(st, c, pane));
    }
}

/// The clients that get what an application puts on the clipboard: those that look at its
/// pane, each once. A program left running out of sight cannot take over the clipboard.
pub fn deliver_app_clipboard(pane: PaneId, st: &ServerState, clients: &Clients) -> (r: Vec<u64>)
    requires
        st.named(),
    ensures
        r@ == onlookers(st@, clients@, pane, clients@.len() as int),
{
    let focused = st.focused_in(pane);
    proof {
        lemma_onlookers(st@, clients@, texts(focused@), pane, clients@.len() as int);
    }
    clients.clipboard_targets(&focused, pane)
}

/// A pane had output. The result names the clients that get what it put on the clipboard;
/// none if it put nothing there, or if applications may not.
pub fn output_arrived(
    pane: PaneId,
    bell: bool,
    clipboard: bool,
    allow_app_clipboard: bool,
    st: &mut ServerState,
    clients: &Clients,
) -> (r: Vec<u64>)
    requires
        old(st).named(),
    ensures
        final(st).named(),
        old(st).sound() ==> final(st).sound(),
        final(st)@ == activity_noted(old(st)@, pane, bell),
        r@ == (if clipboard && allow_app_clipboard {
            onlookers(final(st)@, clients@, pane, clients@.len() as int)
        } else {
            Seq::empty()
        }),
{
    proof {
        law_output_keeps_the_server_in_order(st@, pane, bell);
    }
    st.record_pane_activity(pane, bell);
    if clipboard && allow_app_clipboard {
        deliver_app_clipboard(pane, st, clients)
    } else {
        Vec::new()
    }
}

// ---------------------------------------------------------------------------
// The end of a terminal
// ---------------------------------------------------------------------------

/// A pane whose program ended stays where it is, though its clients must hear of it: it is
/// in a tab that its session does not show.
pub open spec fn is_declined(reaped: Seq<PaneId>, terminals: Map<PaneId, bool>, pane: PaneId) -> bool {
    terminals.contains_key(pane) && !reaped.contains(pane)
}

pub(crate) fn holds(v: &Vec<PaneId>, pane: PaneId) -> (r: bool)
    ensures
        r == v@.contains(pane),
{
    let mut i: usize = 0;
    while i < v.len()
        invariant
            i <= v.len(),
            forall|k: int| 0 <= k < i ==> v@[k] != pane,
        decreases v.len() - i,
    {
        if v[i] == pane {
            return true;
        }
        i += 1;
    }
    false
}

proof fn lemma_closed_stays_sound(state: ServerState, session: Seq<char>, pane: PaneId)
    requires
        state.sound(),
    ensures
        pane_closed(state@, session, pane).0.sound(),
{
    let st = state@;
    if st.sessions.contains_key(session) {
        let s = st.sessions[session];
        assert(s.sound());
        crate::state::lemma_tabs_counted(state, session);
        law_a_session_without_a_pane_stays_sound(s, pane);
        law_the_server_stays_sound(st, session, s.closing(pane).0);
    }
}

/// The program in a pane ended. The pane is closed if its session shows it; if it is not,
/// those who watch it are told all the same.
pub fn pane_ended(
    pane: PaneId,
    session: &str,
    st: &mut ServerState,
    clients: &mut Clients,
    terminals: &Terminals,
) -> (r: (Plan, Vec<(u64, Exit)>))
    requires
        old(st).sound(),
    ensures
        final(st).sound(),
        (final(st)@, r.0@) == pane_closed(old(st)@, session@, pane),
        ({
            let exits = seq![(pane, EXIT_CODE_UNKNOWN)];
            let n = old(clients)@.len() as int;
            if is_declined(r.0@.reap, terminals@, pane) {
                r.1@ == all_told(old(clients)@, exits, n) && final(clients)@ == all_bereft(
                    old(clients)@,
                    exits,
                )
            } else {
                r.1@.len() == 0 && final(clients)@ == old(clients)@
            }
        }),
{
    proof {
        lemma_closed_stays_sound(*st, session@, pane);
    }
    let plan = close_pane(st, session, pane);
    if terminals.has(pane) && !holds(&plan.reap, pane) {
        let mut exits: Vec<Exit> = Vec::new();
        exits.push((pane, EXIT_CODE_UNKNOWN));
        assert(exits@ =~= seq![(pane, EXIT_CODE_UNKNOWN)]);
        let told = clients.panes_exited(&exits);
        (plan, told)
    } else {
        (plan, Vec::new())
    }
}

// ---------------------------------------------------------------------------
// Laws
// ---------------------------------------------------------------------------

proof fn lemma_claimed(t: Map<PaneId, bool>, panes: Seq<PaneId>, n: int)
    requires
        0 <= n <= panes.len(),
    ensures
        forall|p: PaneId| #[trigger] claimed(t, panes, n).contains_key(p) == t.contains_key(p),
        forall|p: PaneId|
            t.contains_key(p) && t[p] ==> #[trigger] claimed(t, panes, n)[p],
        forall|i: int|
            0 <= i < n && t.contains_key(#[trigger] panes[i]) ==> claimed(t, panes, n)[panes[i]],
        forall|p: PaneId|
            t.contains_key(p) && !(#[trigger] panes.take(n).contains(p)) ==> claimed(t, panes, n)[p]
                == t[p],
        forall|i: int|
            #![trigger claims(t, panes, n)[i]]
            0 <= i < claims(t, panes, n).len() ==> is_free(t, claims(t, panes, n)[i])
                && claimed(t, panes, n)[claims(t, panes, n)[i]],
        claims(t, panes, n).no_duplicates(),
    decreases n,
{
    if n > 0 {
        lemma_claimed(t, panes, n - 1);
        let before = claimed(t, panes, n - 1);
        let q = panes[n - 1];
        assert forall|p: PaneId|
            t.contains_key(p) && !(#[trigger] panes.take(n).contains(p)) implies claimed(
            t,
            panes,
            n,
        )[p] == t[p] by {
            assert(panes.take(n)[n - 1] == q);
            let less = panes.take(n - 1);
            if less.contains(p) {
                let i = choose|i: int| 0 <= i < less.len() && less[i] == p;
                assert(panes.take(n)[i] == p);
            }
        }
        if is_free(before, q) {
            assert(is_free(t, q)) by {
                if t[q] {
                    assert(before[q]);
                }
            }
            let few = claims(t, panes, n - 1);
            assert(!few.contains(q)) by {
                if few.contains(q) {
                    let i = choose|i: int| 0 <= i < few.len() && few[i] == q;
                    assert(before[few[i]]);
                }
            }
            assert forall|i: int|
                #![trigger claims(t, panes, n)[i]]
                0 <= i < claims(t, panes, n).len() implies is_free(t, claims(t, panes, n)[i])
                && claimed(t, panes, n)[claims(t, panes, n)[i]] by {
                if i < few.len() {
                    assert(is_free(t, few[i]) && before[few[i]]);
                }
            }
        }
    }
}

/// Every terminal has exactly one forwarding task, however often forwarding is started: a
/// start takes each free terminal of its list once and no other, and the same start again
/// takes nothing.
pub proof fn law_a_terminal_is_forwarded_once(t: Map<PaneId, bool>, panes: Seq<PaneId>)
    ensures
        ({
            let n = panes.len() as int;
            &&& claims(t, panes, n).no_duplicates()
            &&& forall|p: PaneId| #[trigger]
                claims(t, panes, n).contains(p) <==> panes.contains(p) && is_free(t, p)
            &&& claims(claimed(t, panes, n), panes, n).len() == 0
            &&& claimed(claimed(t, panes, n), panes, n) == claimed(t, panes, n)
        }),
{
    let n = panes.len() as int;
    lemma_claimed(t, panes, n);
    lemma_all_taken(claimed(t, panes, n), panes, n);
    assert forall|p: PaneId| #[trigger] claims(t, panes, n).contains(p) <==> panes.contains(p)
        && is_free(t, p) by {
        lemma_claims(t, panes, n, p);
        assert(panes.take(n) =~= panes);
    }
}

proof fn lemma_claims(t: Map<PaneId, bool>, panes: Seq<PaneId>, n: int, p: PaneId)
    requires
        0 <= n <= panes.len(),
    ensures
        claims(t, panes, n).contains(p) <==> panes.take(n).contains(p) && is_free(t, p),
    decreases n,
{
    if n > 0 {
        lemma_claims(t, panes, n - 1, p);
        lemma_claimed(t, panes, n - 1);
        let before = claimed(t, panes, n - 1);
        let q = panes[n - 1];
        let few = claims(t, panes, n - 1);
        let all = claims(t, panes, n);
        let less = panes.take(n - 1);
        let more = panes.take(n);
        assert(more =~= less.push(q));
        assert(more.contains(p) <==> less.contains(p) || p == q) by {
            if less.contains(p) {
                let i = choose|i: int| 0 <= i < less.len() && less[i] == p;
                assert(more[i] == p);
            }
            if p == q {
                assert(more[n - 1] == p);
            }
        }
        if is_free(before, q) {
            assert(all.contains(p) <==> few.contains(p) || p == q) by {
                if few.contains(p) {
                    let i = choose|i: int| 0 <= i < few.len() && few[i] == p;
                    assert(all[i] == p);
                }
                if p == q {
                    assert(all[few.len() as int] == p);
                }
            }
            if t[q] {
                assert(before[q]);
            }
        } else if p == q && is_free(t, q) {
            assert(before[q]);
            if !less.contains(q) {
                assert(before[q] == t[q]);
            }
        }
    } else {
        assert(panes.take(0).len() == 0);
    }
}

proof fn lemma_all_taken(t: Map<PaneId, bool>, panes: Seq<PaneId>, n: int)
    requires
        0 <= n <= panes.len(),
        forall|i: int| 0 <= i < panes.len() && t.contains_key(#[trigger] panes[i]) ==> t[panes[i]],
    ensures
        claims(t, panes, n).len() == 0,
        claimed(t, panes, n) == t,
    decreases n,
{
    if n > 0 {
        lemma_all_taken(t, panes, n - 1);
        assert(!is_free(t, panes[n - 1]));
    }
}

/// Output in the tab that is shown marks nothing, and output never changes anything but
/// the mark of a tab in the background.
pub proof fn law_output_marks_only_background_tabs(
    s: SessionView,
    pane: PaneId,
    bell: bool,
    i: int,
)
    requires
        0 <= i < s.tabs.len(),
    ensures
        noted(s, pane, bell).tabs.len() == s.tabs.len(),
        noted(s, pane, bell).tabs[i] == (TabView {
            activity: noted(s, pane, bell).tabs[i].activity,
            ..s.tabs[i]
        }),
        i == s.active ==> noted(s, pane, bell).tabs[i] == s.tabs[i],
        !s.tabs[i].order.contains(pane) ==> noted(s, pane, bell).tabs[i] == s.tabs[i],
        s.tabs[i].activity is Bell ==> noted(s, pane, bell).tabs[i].activity is Bell,
{
    crate::session::lemma_tab_with(s.tabs, pane, 0);
}

/// A tab in the background is marked when one of its panes has output: with a bell once one
/// has rung in it, and else as active.
pub proof fn law_output_in_the_background_is_marked(
    s: SessionView,
    pane: PaneId,
    bell: bool,
    i: int,
)
    requires
        0 <= i < s.tabs.len(),
        i != s.active,
        s.tabs[i].order.contains(pane),
        forall|j: int| 0 <= j < i ==> !(#[trigger] s.tabs[j]).order.contains(pane),
    ensures
        ({
            let now = noted(s, pane, bell).tabs[i].activity;
            &&& bell ==> now is Bell
            &&& !bell && s.tabs[i].activity is Bell ==> now is Bell
            &&& !bell && !(s.tabs[i].activity is Bell) ==> now is Activity
        }),
{
    crate::session_laws::law_a_pane_is_found_in_its_tab(s.tabs, pane);
    assert(tab_with(s.tabs, pane, 0) == Some(i));
}

/// When a session is shown, the output of every pane of its tab is forwarded, hidden ones of
/// a stack too, and that of the popup; of other tabs nothing is.
pub proof fn law_all_that_is_in_front_is_forwarded(st: StateView, session: Seq<char>, pane: PaneId)
    requires
        st.sessions.contains_key(session),
        st.sessions[session].active < st.sessions[session].tabs.len(),
    ensures
        ({
            let s = st.sessions[session];
            to_forward(st, session).contains(pane) <==> s.tabs[s.active as int].layout.has(pane)
                || s.popup == Some(pane)
        }),
{
    let s = st.sessions[session];
    let ids = s.tabs[s.active as int].layout.ids();
    let all = to_forward(st, session);
    crate::layout::law_has_is_membership(s.tabs[s.active as int].layout, pane);
    if ids.contains(pane) {
        let j = choose|j: int| 0 <= j < ids.len() && ids[j] == pane;
        assert(all[j] == pane);
    }
    if s.popup == Some(pane) {
        assert(all[ids.len() as int] == pane);
    }
    if all.contains(pane) {
        let j = choose|j: int| 0 <= j < all.len() && all[j] == pane;
        if j < ids.len() {
            assert(ids[j] == pane);
        }
    }
}

/// Output keeps the server in order, and sound.
pub proof fn law_output_keeps_the_server_in_order(st: StateView, pane: PaneId, bell: bool)
    ensures
        st.sound() ==> activity_noted(st, pane, bell).sound(),
        st.wf() ==> activity_noted(st, pane, bell).wf(),
{
    let r = activity_noted(st, pane, bell);
    assert forall|k: Seq<char>| #[trigger] r.sessions.contains_key(k) implies (
    st.sessions[k].sound() ==> r.sessions[k].sound()) && (st.sessions[k].wf()
        ==> r.sessions[k].wf()) by {
        lemma_noted_in_order(st.sessions[k], pane, bell);
    }
    if st.wf() {
        assert forall|k: Seq<char>, p: PaneId|
            #![trigger r.sessions.contains_key(k), crate::state::occurs(r.sessions[k], p)]
            r.sessions.contains_key(k) && crate::state::occurs(r.sessions[k], p) implies p
            < r.next_pane || r.next_pane == u64::MAX by {
            lemma_noted_in_order(st.sessions[k], pane, bell);
            let s = st.sessions[k];
            let t = r.sessions[k];
            assert(crate::state::occurs(s, p)) by {
                if t.popup != Some(p) {
                    if exists|i: int| 0 <= i < t.tabs.len() && #[trigger] t.tabs[i].order.contains(p) {
                        let i = choose|i: int|
                            0 <= i < t.tabs.len() && #[trigger] t.tabs[i].order.contains(p);
                        law_output_marks_only_background_tabs(s, pane, bell, i);
                        assert(s.tabs[i].order.contains(p));
                    } else {
                        let i = choose|i: int|
                            0 <= i < t.tabs.len() && #[trigger] t.tabs[i].layout.ids().contains(p);
                        law_output_marks_only_background_tabs(s, pane, bell, i);
                        assert(s.tabs[i].layout.ids().contains(p));
                    }
                }
            }
            assert(st.sessions.contains_key(k));
        }
    }
    if st.sound() {
        assert forall|k: Seq<char>| #[trigger]
            r.sessions.contains_key(k) implies r.sessions[k].sound() by {
            assert(st.sessions.contains_key(k));
        }
    }
    if st.wf() {
        assert forall|k: Seq<char>| #[trigger]
            r.sessions.contains_key(k) implies r.sessions[k].wf() by {
            assert(st.sessions.contains_key(k));
        }
    }
}

proof fn lemma_noted_in_order(s: SessionView, pane: PaneId, bell: bool)
    ensures
        s.sound() ==> noted(s, pane, bell).sound(),
        s.wf() ==> noted(s, pane, bell).wf(),
        noted(s, pane, bell).tabs.len() == s.tabs.len(),
        noted(s, pane, bell).popup == s.popup,
{
    crate::session::lemma_tab_with(s.tabs, pane, 0);
    let t = noted(s, pane, bell);
    assert forall|i: int| 0 <= i < s.tabs.len() implies (s.tabs[i].sound()
        ==> #[trigger] t.tabs[i].sound()) && (s.tabs[i].wf() ==> t.tabs[i].wf())
        && t.tabs[i].order == s.tabs[i].order by {
        law_output_marks_only_background_tabs(s, pane, bell, i);
    }
    if s.sound() {
        assert forall|i: int| 0 <= i < t.tabs.len() implies (#[trigger] t.tabs[i]).sound() by {
            assert(s.tabs[i].sound());
        }
    }
    if s.wf() {
        assert forall|i: int| 0 <= i < t.tabs.len() implies (#[trigger] t.tabs[i]).wf() by {
            assert(s.tabs[i].wf());
            assert(t.tabs[i].order == s.tabs[i].order);
        }
        assert forall|i: int, p: PaneId|
            0 <= i < t.tabs.len() && t.popup == Some(p) implies !(
            #[trigger] t.tabs[i].order.contains(p)) by {
            assert(!s.tabs[i].order.contains(p));
        }
        assert forall|i: int, j: int, p: PaneId| 0 <= i < j < t.tabs.len() implies !(
        #[trigger] t.tabs[i].order.contains(p) && #[trigger] t.tabs[j].order.contains(p)) by {
            assert(!(s.tabs[i].order.contains(p) && s.tabs[j].order.contains(p)));
        }
    }
}

/// A program whose pane nobody looks at reaches no clipboard.
pub proof fn law_an_unseen_pane_reaches_no_clipboard(
    st: StateView,
    clients: Seq<(u64, ClientView)>,
    pane: PaneId,
    n: int,
)
    requires
        0 <= n <= clients.len(),
        forall|i: int| 0 <= i < clients.len() ==> !sees(st, (#[trigger] clients[i]).1, pane),
    ensures
        onlookers(st, clients, pane, n).len() == 0,
    decreases n,
{
    if n > 0 {
        law_an_unseen_pane_reaches_no_clipboard(st, clients, pane, n - 1);
        assert(!sees(st, clients[n - 1].1, pane));
    }
}

} // verus!
