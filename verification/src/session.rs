//! A session: its tabs and its popup.

use crate::config::{BorderStyle, TabActivity};
use crate::layout::{copy_ids, copy_opt, opt_text, PaneId};
use crate::pointer::ClickEffect;
use crate::tab::{Tab, TabView};
use vstd::prelude::*;

verus! {

/// A session.
#[derive(Debug)]
pub struct Session {
    pub name: String,
    /// The folder that the session is filed under.
    pub folder: Option<String>,
    pub tabs: Vec<Tab>,
    pub active_tab: usize,
    pub border_style: BorderStyle,
    /// The pane of the popup, in no tab.
    pub popup_pane: Option<PaneId>,
    pub popup_visible: bool,
    /// The width and the height of the popup, in percent.
    pub popup_size: (u16, u16),
    /// The pane that is being renamed, and the name typed so far.
    pub rename_state: Option<(PaneId, String)>,
}

/// A session as a mathematical value.
#[verifier::ext_equal]
pub struct SessionView {
    pub name: Seq<char>,
    pub folder: Option<Seq<char>>,
    pub tabs: Seq<TabView>,
    pub active: usize,
    pub style: BorderStyle,
    pub popup: Option<PaneId>,
    pub popup_visible: bool,
    pub popup_size: (u16, u16),
    pub renaming: Option<(PaneId, Seq<char>)>,
}

/// The tabs of a list.
pub open spec fn tab_views(v: Seq<Tab>) -> Seq<TabView> {
    Seq::new(v.len(), |i: int| v[i]@)
}

/// A rename in progress.
pub open spec fn rename_view(r: Option<(PaneId, String)>) -> Option<(PaneId, Seq<char>)> {
    match r {
        Some((p, s)) => Some((p, s@)),
        None => None,
    }
}

impl View for Session {
    type V = SessionView;

    open spec fn view(&self) -> SessionView {
        SessionView {
            name: self.name@,
            folder: opt_text(self.folder),
            tabs: tab_views(self.tabs@),
            active: self.active_tab,
            style: self.border_style,
            popup: self.popup_pane,
            popup_visible: self.popup_visible,
            popup_size: self.popup_size,
            renaming: rename_view(self.rename_state),
        }
    }
}

/// What closing a pane comes to.
#[derive(Clone, Copy, PartialEq, Eq, Debug, Structural)]
pub enum CloseAction {
    /// The session is drawn again.
    Broadcast,
    /// That was the last pane: the session goes away.
    SessionRemoved,
    /// The pane is not there to be closed.
    NoBroadcast,
}

/// The list with an entry moved to another place.
pub open spec fn moved<T>(s: Seq<T>, from: int, to: int) -> Seq<T> {
    s.remove(from).insert(to, s[from])
}

/// The first tab from `i` on that has a pane.
pub open spec fn tab_with(tabs: Seq<TabView>, pane: PaneId, i: int) -> Option<int>
    decreases tabs.len() - i,
{
    if i < 0 || i >= tabs.len() {
        None
    } else if tabs[i].order.contains(pane) {
        Some(i)
    } else {
        tab_with(tabs, pane, i + 1)
    }
}

/// All panes of the first `n` tabs.
pub open spec fn panes_of(tabs: Seq<TabView>, n: int) -> Seq<PaneId>
    decreases n,
{
    if n <= 0 {
        Seq::empty()
    } else {
        panes_of(tabs, n - 1) + tabs[n - 1].order
    }
}

impl SessionView {
    /// Every tab is in order, no pane is in two of them, the popup's pane is in none,
    /// and one tab is shown.
    pub open spec fn wf(self) -> bool {
        &&& self.active < self.tabs.len()
        &&& forall|i: int| 0 <= i < self.tabs.len() ==> (#[trigger] self.tabs[i]).wf()
        &&& forall|i: int, p: PaneId|
            0 <= i < self.tabs.len() && self.popup == Some(p) ==> !(
            #[trigger] self.tabs[i].order.contains(p))
        &&& forall|i: int, j: int, p: PaneId|
            0 <= i < j < self.tabs.len() ==> !(#[trigger] self.tabs[i].order.contains(p)
                && #[trigger] self.tabs[j].order.contains(p))
    }

    /// One tab is shown, and every tab can be drawn and worked on.
    pub open spec fn sound(self) -> bool {
        &&& self.active < self.tabs.len()
        &&& forall|i: int| 0 <= i < self.tabs.len() ==> (#[trigger] self.tabs[i]).sound()
    }

    /// A pane of the session, the popup's included.
    pub open spec fn has(self, p: PaneId) -> bool {
        self.popup == Some(p) || exists|i: int|
            0 <= i < self.tabs.len() && #[trigger] self.tabs[i].order.contains(p)
    }

    /// The tab that is shown.
    pub open spec fn current(self) -> Option<TabView> {
        if self.active < self.tabs.len() {
            Some(self.tabs[self.active as int])
        } else {
            None
        }
    }

    /// The session with another tab at an index.
    pub open spec fn with_tab(self, i: int, t: TabView) -> SessionView {
        SessionView { tabs: self.tabs.update(i, t), ..self }
    }

    /// The session with the tab that is shown changed.
    pub open spec fn with_current(self, t: TabView) -> SessionView {
        self.with_tab(self.active as int, t)
    }

    /// The popup takes input.
    pub open spec fn popup_up(self) -> bool {
        self.popup_visible && self.popup is Some
    }

    /// The pane that input goes to: the popup's while it is up, else the focused one.
    pub open spec fn target(self) -> Option<PaneId> {
        if self.popup_up() {
            self.popup
        } else {
            match self.current() {
                Some(t) => Some(t.focused),
                None => None,
            }
        }
    }

    /// The popup gone.
    pub open spec fn no_popup(self) -> SessionView {
        SessionView { popup: None, popup_visible: false, ..self }
    }

    /// The popup shown or hidden; `fresh` is its pane when there is none yet.
    pub open spec fn popup_toggled(self, fresh: PaneId) -> SessionView {
        match self.popup {
            Some(_) => SessionView { popup_visible: !self.popup_visible, ..self },
            None => SessionView { popup: Some(fresh), popup_visible: true, ..self },
        }
    }

    /// Another tab shown, which is then no longer marked as active in the background.
    pub open spec fn showing(self, i: int) -> SessionView {
        SessionView {
            active: i as usize,
            ..self.with_tab(i, TabView { activity: TabActivity::Quiet, ..self.tabs[i] })
        }
    }

    /// A new tab at the end, shown.
    pub open spec fn with_new_tab(self, t: TabView) -> SessionView {
        SessionView { tabs: self.tabs.push(t), active: self.tabs.len() as usize, ..self }
    }

    /// The session without a tab. The tab that is shown stays, or else the one that
    /// takes its place is shown.
    pub open spec fn without_tab(self, i: int) -> SessionView {
        let left = self.tabs.len() - 1;
        SessionView {
            tabs: self.tabs.remove(i),
            active: (if i < self.active {
                self.active - 1
            } else if self.active >= left && left > 0 {
                left - 1
            } else if left == 0 {
                0
            } else {
                self.active as int
            }) as usize,
            ..self
        }
    }

    /// A pane of the shown tab, or the popup, closed.
    pub open spec fn closing(self, pane: PaneId) -> (SessionView, CloseAction) {
        if self.popup == Some(pane) {
            (self.no_popup(), CloseAction::Broadcast)
        } else {
            match self.current() {
                Some(t) => if !t.order.contains(pane) {
                    (self, CloseAction::NoBroadcast)
                } else if t.next_focus(pane) is Some {
                    (self.with_current(t.closed(pane)), CloseAction::Broadcast)
                } else if self.tabs.len() > 1 {
                    (self.without_tab(self.active as int), CloseAction::Broadcast)
                } else {
                    (self.with_current(t.closed(pane)).no_popup(), CloseAction::SessionRemoved)
                },
                None => (self, CloseAction::NoBroadcast),
            }
        }
    }

    /// A pane of any tab closed that leaves another tab behind.
    pub open spec fn closing_in_background(self, pane: PaneId) -> Option<SessionView> {
        match tab_with(self.tabs, pane, 0) {
            Some(i) => {
                let t = self.tabs[i];
                if t.next_focus(pane) is Some {
                    Some(self.with_tab(i, t.closed(pane)))
                } else {
                    Some(
                        SessionView {
                            tabs: self.tabs.remove(i),
                            active: (if i < self.active {
                                self.active - 1
                            } else {
                                self.active as int
                            }) as usize,
                            ..self
                        },
                    )
                }
            },
            None => None,
        }
    }

    /// The place that a tab is moved to by its number, which counts from one.
    pub open spec fn tab_place(self, number: usize) -> int {
        let wanted = if number > 0 {
            number - 1
        } else {
            0
        };
        if wanted < self.tabs.len() {
            wanted
        } else {
            self.tabs.len() - 1
        }
    }

    /// The shown tab moved to a place, and still shown.
    pub open spec fn tab_moved(self, number: usize) -> SessionView {
        let to = self.tab_place(number);
        if self.active < self.tabs.len() && self.active != to {
            SessionView {
                tabs: moved(self.tabs, self.active as int, to),
                active: to as usize,
                ..self
            }
        } else {
            self
        }
    }

    /// The other border style.
    pub open spec fn restyled(self) -> SessionView {
        SessionView {
            style: match self.style {
                BorderStyle::ZellijStyle => BorderStyle::TmuxStyle,
                BorderStyle::TmuxStyle => BorderStyle::ZellijStyle,
            },
            ..self
        }
    }

    /// Every tab's list of panes made to agree with its arrangement.
    pub open spec fn reconciled(self) -> SessionView {
        SessionView {
            tabs: Seq::new(self.tabs.len(), |i: int| self.tabs[i].reconciled()),
            ..self
        }
    }

    /// A session of one tab with one pane.
    pub open spec fn fresh(
        name: Seq<char>,
        folder: Option<Seq<char>>,
        style: BorderStyle,
        tab: TabView,
        popup_size: (u16, u16),
    ) -> SessionView {
        SessionView {
            name,
            folder,
            tabs: seq![tab],
            active: 0,
            style,
            popup: None,
            popup_visible: false,
            popup_size,
            renaming: None,
        }
    }
}

impl Session {
    /// Every tab is in order, and the popup's pane is in none of them.
    pub open spec fn wf(&self) -> bool {
        self@.wf()
    }

    /// A session of one tab with one pane.
    pub fn new(
        name: &str,
        folder: Option<&str>,
        style: BorderStyle,
        tab: Tab,
        popup_size: (u16, u16),
    ) -> (r: Session)
        ensures
            r@ == SessionView::fresh(
                name@,
                match folder {
                    Some(f) => Some(f@),
                    None => None,
                },
                style,
                tab@,
                popup_size,
            ),
    {
        let ghost one = tab@;
        let mut tabs: Vec<Tab> = Vec::new();
        tabs.push(tab);
        assert(tab_views(tabs@) =~= seq![one]);
        Session {
            name: name.to_owned(),
            folder: match folder {
                Some(f) => Some(f.to_owned()),
                None => None,
            },
            tabs,
            active_tab: 0,
            border_style: style,
            popup_pane: None,
            popup_visible: false,
            popup_size,
            rename_state: None,
        }
    }

    /// The pane that input goes to.
    pub fn input_target(&self) -> (r: Option<PaneId>)
        ensures
            r == self@.target(),
    {
        if self.popup_visible && self.popup_pane.is_some() {
            self.popup_pane
        } else if self.active_tab < self.tabs.len() {
            Some(self.tabs[self.active_tab].focused_pane)
        } else {
            None
        }
    }

    /// The pane that has the focus in the shown tab.
    pub fn focused(&self) -> (r: Option<PaneId>)
        ensures
            r == (match self@.current() {
                Some(t) => Some(t.focused),
                None => None,
            }),
    {
        if self.active_tab < self.tabs.len() {
            Some(self.tabs[self.active_tab].focused_pane)
        } else {
            None
        }
    }

    /// Take the popup away; its pane, if there was one.
    pub fn take_popup(&mut self) -> (r: Option<PaneId>)
        ensures
            final(self)@ == old(self)@.no_popup(),
            r == old(self)@.popup,
    {
        let pane = self.popup_pane;
        self.popup_pane = None;
        self.popup_visible = false;
        pane
    }

    /// Show or hide the popup. The result says whether it is new and needs `fresh` as
    /// its pane.
    pub fn toggle_popup(&mut self, fresh: PaneId) -> (r: bool)
        ensures
            final(self)@ == old(self)@.popup_toggled(fresh),
            r == (old(self)@.popup is None),
    {
        if self.popup_pane.is_some() {
            self.popup_visible = !self.popup_visible;
            false
        } else {
            self.popup_pane = Some(fresh);
            self.popup_visible = true;
            true
        }
    }

    /// Show the tab at an index; false if there is none.
    pub fn goto_tab(&mut self, i: usize) -> (r: bool)
        ensures
            r == (i < old(self)@.tabs.len()),
            final(self)@ == (if r {
                old(self)@.showing(i as int)
            } else {
                old(self)@
            }),
    {
        if i < self.tabs.len() {
            self.active_tab = i;
            self.tabs[i].activity = TabActivity::Quiet;
            assert(self@ =~= old(self)@.showing(i as int));
            true
        } else {
            false
        }
    }

    /// The index of the tab after the shown one, around the end.
    pub fn next_index(&self) -> (r: usize)
        requires
            self@.active < self@.tabs.len(),
        ensures
            r == (self@.active + 1) % self@.tabs.len() as int,
    {
        let n: usize = self.tabs.len();
        let next: usize = self.active_tab + 1;
        if next == n {
            proof {
                vstd::arithmetic::div_mod::lemma_mod_self_0(n as int);
            }
            0
        } else {
            proof {
                vstd::arithmetic::div_mod::lemma_small_mod(next as nat, n as nat);
            }
            next
        }
    }

    /// The index of the tab before the shown one, around the start.
    pub fn prev_index(&self) -> (r: usize)
        requires
            self@.active < self@.tabs.len(),
        ensures
            r == (if self@.active == 0 {
                self@.tabs.len() - 1
            } else {
                self@.active - 1
            }),
    {
        if self.active_tab == 0 {
            self.tabs.len() - 1
        } else {
            self.active_tab - 1
        }
    }

    /// Add a tab at the end and show it.
    pub fn add_tab(&mut self, tab: Tab)
        ensures
            final(self)@ == old(self)@.with_new_tab(tab@),
    {
        let n: usize = self.tabs.len();
        self.tabs.push(tab);
        self.active_tab = n;
        assert(self@ =~= old(self)@.with_new_tab(tab@));
    }

    /// Remove the tab at an index; its panes.
    pub fn remove_tab(&mut self, i: usize) -> (r: Vec<PaneId>)
        requires
            i < old(self)@.tabs.len(),
            old(self)@.active < old(self)@.tabs.len(),
        ensures
            final(self)@ == old(self)@.without_tab(i as int),
            r@ == old(self)@.tabs[i as int].order,
    {
        let tab = self.tabs.remove(i);
        let left: usize = self.tabs.len();
        if i < self.active_tab {
            self.active_tab = self.active_tab - 1;
        } else if self.active_tab >= left {
            self.active_tab = left.saturating_sub(1);
        }
        assert(self@ =~= old(self)@.without_tab(i as int));
        tab.pane_order
    }

    /// Close a pane of the shown tab, or the popup. The second result is the popup's
    /// pane when the whole session goes away.
    pub fn close_pane(&mut self, pane: PaneId) -> (r: (CloseAction, Option<PaneId>))
        requires
            old(self)@.sound(),
        ensures
            (final(self)@, r.0) == old(self)@.closing(pane),
            r.1 == (if r.0 == CloseAction::SessionRemoved {
                old(self)@.popup
            } else {
                None
            }),
    {
        match self.popup_pane {
            Some(p) => {
                if p == pane {
                    self.take_popup();
                    return (CloseAction::Broadcast, None);
                }
            },
            None => {},
        }
        let at: usize = self.active_tab;
        assert(self@.tabs[at as int] == self.tabs@[at as int]@);
        if !self.tabs[at].has_pane(pane) {
            return (CloseAction::NoBroadcast, None);
        }
        let ghost t = self@.tabs[at as int];
        assert(t.sound());
        if self.tabs[at].close_pane(pane) {
            assert(self@ =~= old(self)@.with_current(t.closed(pane)));
            (CloseAction::Broadcast, None)
        } else if self.tabs.len() > 1 {
            self.remove_tab(at);
            assert(self@ =~= old(self)@.without_tab(at as int)) by {
                assert(self@.tabs =~= old(self)@.tabs.remove(at as int));
            }
            (CloseAction::Broadcast, None)
        } else {
            assert(self@ =~= old(self)@.with_current(t.closed(pane)));
            let popup = self.take_popup();
            (CloseAction::SessionRemoved, popup)
        }
    }

    /// Close a pane that is in a tab which is not shown; false if no tab has it.
    pub fn close_background_pane(&mut self, pane: PaneId) -> (r: bool)
        requires
            old(self)@.sound(),
        ensures
            match old(self)@.closing_in_background(pane) {
                Some(s) => r && final(self)@ == s,
                None => !r && final(self)@ == old(self)@,
            },
    {
        let at: usize = match self.find_tab(pane) {
            Some(i) => i,
            None => {
                return false;
            },
        };
        proof {
            lemma_tab_with(self@.tabs, pane, 0);
        }
        let ghost t = self@.tabs[at as int];
        assert(t == self.tabs@[at as int]@);
        assert(t.sound());
        if self.tabs[at].close_pane(pane) {
            assert(self@ =~= old(self)@.with_tab(at as int, t.closed(pane)));
        } else {
            self.tabs.remove(at);
            if at < self.active_tab {
                self.active_tab = self.active_tab - 1;
            }
            assert(self@.tabs =~= old(self)@.tabs.remove(at as int));
        }
        true
    }

    /// The first tab that has a pane.
    pub fn find_tab(&self, pane: PaneId) -> (r: Option<usize>)
        ensures
            match r {
                Some(i) => tab_with(self@.tabs, pane, 0) == Some(i as int) && i < self.tabs.len(),
                None => tab_with(self@.tabs, pane, 0) is None,
            },
    {
        let mut i: usize = 0;
        while i < self.tabs.len()
            invariant
                i <= self.tabs.len(),
                tab_with(self@.tabs, pane, 0) == tab_with(self@.tabs, pane, i as int),
            decreases self.tabs.len() - i,
        {
            assert(self@.tabs[i as int] == self.tabs@[i as int]@);
            if self.tabs[i].has_pane(pane) {
                return Some(i);
            }
            i += 1;
        }
        None
    }

    /// Move the shown tab to the place with a number, which counts from one.
    pub fn move_tab(&mut self, number: usize)
        requires
            old(self)@.tabs.len() > 0,
        ensures
            final(self)@ == old(self)@.tab_moved(number),
    {
        let wanted: usize = number.saturating_sub(1);
        let last: usize = self.tabs.len() - 1;
        let to: usize = if wanted < last {
            wanted
        } else {
            last
        };
        let from: usize = self.active_tab;
        if from != to && from < self.tabs.len() {
            let tab = self.tabs.remove(from);
            self.tabs.insert(to, tab);
            self.active_tab = to;
            assert(self@.tabs =~= moved(old(self)@.tabs, from as int, to as int));
        }
        assert(self@ =~= old(self)@.tab_moved(number));
    }

    /// Switch to the other border style.
    pub fn toggle_style(&mut self)
        ensures
            final(self)@ == old(self)@.restyled(),
    {
        self.border_style =
        match self.border_style {
            BorderStyle::ZellijStyle => BorderStyle::TmuxStyle,
            BorderStyle::TmuxStyle => BorderStyle::ZellijStyle,
        };
    }

    /// All panes of the session's tabs, tab by tab.
    pub fn all_panes(&self) -> (r: Vec<PaneId>)
        ensures
            r@ == panes_of(self@.tabs, self@.tabs.len() as int),
    {
        let mut r: Vec<PaneId> = Vec::new();
        let mut i: usize = 0;
        while i < self.tabs.len()
            invariant
                i <= self.tabs.len(),
                r@ == panes_of(self@.tabs, i as int),
            decreases self.tabs.len() - i,
        {
            let mut more = copy_ids(&self.tabs[i].pane_order);
            assert(self@.tabs[i as int].order == more@);
            r.append(&mut more);
            i += 1;
        }
        r
    }

    /// A copy of the session.
    pub fn duplicate(&self) -> (r: Session)
        ensures
            r@ == self@,
    {
        let mut tabs: Vec<Tab> = Vec::new();
        let mut i: usize = 0;
        while i < self.tabs.len()
            invariant
                i <= self.tabs.len(),
                tabs.len() == i,
                forall|k: int| 0 <= k < i ==> (#[trigger] tabs@[k])@ == self.tabs@[k]@,
            decreases self.tabs.len() - i,
        {
            tabs.push(self.tabs[i].duplicate());
            i += 1;
        }
        assert(tab_views(tabs@) =~= tab_views(self.tabs@));
        Session {
            name: self.name.clone(),
            folder: copy_opt(&self.folder),
            tabs,
            active_tab: self.active_tab,
            border_style: self.border_style,
            popup_pane: self.popup_pane,
            popup_visible: self.popup_visible,
            popup_size: self.popup_size,
            rename_state: match &self.rename_state {
                Some((p, n)) => Some((*p, n.clone())),
                None => None,
            },
        }
    }

    /// Make the list of panes of every tab agree with its arrangement.
    pub fn reconcile_pane_order(&mut self)
        ensures
            final(self)@ == old(self)@.reconciled(),
    {
        let n: usize = self.tabs.len();
        let mut i: usize = 0;
        while i < n
            invariant
                i <= n,
                n == self.tabs.len(),
                self@.tabs.len() == old(self)@.tabs.len(),
                forall|k: int|
                    0 <= k < n ==> #[trigger] self@.tabs[k] == (if k < i {
                        old(self)@.tabs[k].reconciled()
                    } else {
                        old(self)@.tabs[k]
                    }),
                self@ == (SessionView { tabs: self@.tabs, ..old(self)@ }),
            decreases n - i,
        {
            let ghost before = self@;
            assert(before.tabs[i as int] == self.tabs@[i as int]@);
            self.tabs[i].reconcile_pane_order();
            assert(self@.tabs =~= before.tabs.update(
                i as int,
                before.tabs[i as int].reconciled(),
            ));
            i += 1;
        }
        assert(self@ =~= old(self)@.reconciled());
    }

    /// Carry out what a click changes. The result says whether anything is to be drawn
    /// again.
    pub fn apply_click(&mut self, effect: ClickEffect) -> (r: bool)
        ensures
            (final(self)@, r) == clicked(old(self)@, effect),
    {
        let at: usize = self.active_tab;
        match effect {
            ClickEffect::Nothing => false,
            ClickEffect::GotoTab(i) => {
                self.goto_tab(i);
                true
            },
            ClickEffect::Focus(p) => {
                if at < self.tabs.len() {
                    assert(self@.tabs[at as int] == self.tabs@[at as int]@);
                    if self.tabs[at].focused_pane != p {
                        self.tabs[at].focus_pane(p);
                        assert(self@ =~= clicked(old(self)@, effect).0);
                        true
                    } else {
                        false
                    }
                } else {
                    false
                }
            },
            ClickEffect::Activate(p) => {
                if at < self.tabs.len() {
                    self.tabs[at].activate_pane(p);
                    assert(self@ =~= clicked(old(self)@, effect).0);
                    true
                } else {
                    false
                }
            },
        }
    }
}

/// What a click changes in the session, and whether it is drawn again.
pub open spec fn clicked(s: SessionView, effect: ClickEffect) -> (SessionView, bool) {
    match effect {
        ClickEffect::Nothing => (s, false),
        ClickEffect::GotoTab(i) => (
            if i < s.tabs.len() {
                s.showing(i as int)
            } else {
                s
            },
            true,
        ),
        ClickEffect::Focus(p) => match s.current() {
            Some(t) => if t.focused != p {
                (s.with_current(t.focus(p)), true)
            } else {
                (s, false)
            },
            None => (s, false),
        },
        ClickEffect::Activate(p) => match s.current() {
            Some(t) => (s.with_current(t.activated(p)), true),
            None => (s, false),
        },
    }
}

pub proof fn lemma_tab_with(tabs: Seq<TabView>, pane: PaneId, i: int)
    requires
        0 <= i,
    ensures
        match tab_with(tabs, pane, i) {
            Some(j) => i <= j < tabs.len() && tabs[j].order.contains(pane),
            None => forall|j: int|
                i <= j < tabs.len() ==> !(#[trigger] tabs[j].order.contains(pane)),
        },
    decreases tabs.len() - i,
{
    if i < tabs.len() && !tabs[i].order.contains(pane) {
        lemma_tab_with(tabs, pane, i + 1);
    }
}

// ---------------------------------------------------------------------------
// The invariant
// ---------------------------------------------------------------------------

/// A tab may be changed in place as long as it stays in order and takes no pane that
/// another tab or the popup has.
pub proof fn law_a_changed_tab_keeps_the_session_in_order(s: SessionView, i: int, t: TabView)
    requires
        s.wf(),
        0 <= i < s.tabs.len(),
        t.wf(),
        forall|p: PaneId|
            #[trigger] t.order.contains(p) ==> s.tabs[i].order.contains(p) || !s.has(p),
    ensures
        s.with_tab(i, t).wf(),
{
    let after = s.with_tab(i, t);
    assert forall|k: int| 0 <= k < after.tabs.len() implies (#[trigger] after.tabs[k]).wf() by {
        if k != i {
            assert(after.tabs[k] == s.tabs[k]);
        }
    }
    assert forall|k: int, p: PaneId|
        0 <= k < after.tabs.len() && after.popup == Some(p) implies !(
    #[trigger] after.tabs[k].order.contains(p)) by {
        if k != i {
            assert(!s.tabs[k].order.contains(p));
        } else {
            assert(!s.tabs[i].order.contains(p));
            assert(s.has(p));
        }
    }
    assert forall|a: int, b: int, p: PaneId| 0 <= a < b < after.tabs.len() implies !(
    #[trigger] after.tabs[a].order.contains(p) && #[trigger] after.tabs[b].order.contains(p)) by {
        if a != i && b != i {
            assert(!(s.tabs[a].order.contains(p) && s.tabs[b].order.contains(p)));
        } else {
            let other = if a == i {
                b
            } else {
                a
            };
            if t.order.contains(p) && s.tabs[other].order.contains(p) {
                assert(s.has(p));
                assert(s.tabs[i].order.contains(p));
                if i < other {
                    assert(!(s.tabs[i].order.contains(p) && s.tabs[other].order.contains(p)));
                } else {
                    assert(!(s.tabs[other].order.contains(p) && s.tabs[i].order.contains(p)));
                }
            }
        }
    }
}

/// A fresh session is in order if its tab is.
pub proof fn law_a_fresh_session_is_in_order(
    name: Seq<char>,
    folder: Option<Seq<char>>,
    style: BorderStyle,
    tab: TabView,
    popup_size: (u16, u16),
)
    requires
        tab.wf(),
    ensures
        SessionView::fresh(name, folder, style, tab, popup_size).wf(),
{
}

/// The popup's pane never comes into a tab: showing, hiding and taking the popup keep
/// the session in order, as does changing the border style.
pub proof fn law_the_popup_stays_out_of_the_layout(s: SessionView, fresh: PaneId)
    requires
        s.wf(),
        !s.has(fresh),
    ensures
        s.popup_toggled(fresh).wf(),
        s.no_popup().wf(),
        s.restyled().wf(),
        s.popup_toggled(fresh).tabs == s.tabs,
{
    let up = s.popup_toggled(fresh);
    assert forall|i: int, p: PaneId| 0 <= i < up.tabs.len() && up.popup == Some(p) implies !(
    #[trigger] up.tabs[i].order.contains(p)) by {
        if s.popup is None {
            assert(p == fresh);
            assert(!s.has(fresh));
        }
    }
}

/// Toggling the popup twice leaves it as it was, but for its pane, which stays.
pub proof fn law_toggling_the_popup_twice_changes_nothing(s: SessionView, a: PaneId, b: PaneId)
    requires
        s.popup is Some,
    ensures
        s.popup_toggled(a).popup_toggled(b) == s,
{
}

pub proof fn lemma_fewer_tabs(s: SessionView, i: int, active: usize)
    requires
        s.wf(),
        0 <= i < s.tabs.len(),
        active < s.tabs.len() - 1,
    ensures
        (SessionView { tabs: s.tabs.remove(i), active, ..s }).wf(),
{
    let after = SessionView { tabs: s.tabs.remove(i), active, ..s };
    assert forall|k: int| 0 <= k < after.tabs.len() implies (#[trigger] after.tabs[k]).wf() by {
        assert(after.tabs[k] == s.tabs[if k < i {
            k
        } else {
            k + 1
        }]);
    }
    assert forall|k: int, p: PaneId|
        0 <= k < after.tabs.len() && after.popup == Some(p) implies !(
    #[trigger] after.tabs[k].order.contains(p)) by {
        let kk = if k < i {
            k
        } else {
            k + 1
        };
        assert(!s.tabs[kk].order.contains(p));
    }
    assert forall|a: int, b: int, p: PaneId| 0 <= a < b < after.tabs.len() implies !(
    #[trigger] after.tabs[a].order.contains(p) && #[trigger] after.tabs[b].order.contains(p)) by {
        let aa = if a < i {
            a
        } else {
            a + 1
        };
        let bb = if b < i {
            b
        } else {
            b + 1
        };
        assert(!(s.tabs[aa].order.contains(p) && s.tabs[bb].order.contains(p)));
    }
}

/// Closing a pane leaves the session in order, unless it was the last one.
pub proof fn law_closing_a_pane_keeps_the_session_in_order(s: SessionView, pane: PaneId)
    requires
        s.wf(),
    ensures
        s.closing(pane).1 != CloseAction::SessionRemoved ==> s.closing(pane).0.wf(),
        s.closing(pane).1 == CloseAction::Broadcast ==> !s.closing(pane).0.has(pane),
        s.closing(pane).1 == CloseAction::NoBroadcast ==> s.closing(pane).0 == s,
{
    let t = s.tabs[s.active as int];
    assert(t.wf());
    let after = s.closing(pane).0;
    if s.popup == Some(pane) {
        assert forall|i: int| 0 <= i < s.tabs.len() implies !(#[trigger] s.tabs[i].order.contains(
            pane,
        )) by {}
    } else if t.order.contains(pane) {
        crate::tab_laws::law_closing_a_pane_keeps_the_tab_in_order(t, pane);
        assert forall|i: int| 0 <= i < s.tabs.len() && i != s.active implies !(
        #[trigger] s.tabs[i].order.contains(pane)) by {
            if i < s.active {
                assert(!(s.tabs[i].order.contains(pane) && s.tabs[s.active as int].order.contains(
                    pane,
                )));
            } else {
                assert(!(s.tabs[s.active as int].order.contains(pane) && s.tabs[i].order.contains(
                    pane,
                )));
            }
        }
        if t.next_focus(pane) is Some {
            law_a_changed_tab_keeps_the_session_in_order(s, s.active as int, t.closed(pane));
        } else if s.tabs.len() > 1 {
            let left = s.without_tab(s.active as int);
            lemma_fewer_tabs(s, s.active as int, left.active);
            assert forall|k: int| 0 <= k < left.tabs.len() implies !(
            #[trigger] left.tabs[k].order.contains(pane)) by {
                let kk = if k < s.active {
                    k
                } else {
                    k + 1
                };
                assert(!s.tabs[kk].order.contains(pane));
            }
        }
    }
}

/// Closing a pane of a tab that is not shown leaves the session in order, and the same
/// tab shown.
pub proof fn law_closing_in_background_keeps_the_session_in_order(s: SessionView, pane: PaneId)
    requires
        s.wf(),
        !s.tabs[s.active as int].order.contains(pane),
    ensures
        s.closing_in_background(pane) matches Some(after) ==> after.wf() && after.current()
            == s.current(),
{
    lemma_tab_with(s.tabs, pane, 0);
    match tab_with(s.tabs, pane, 0) {
        Some(i) => {
            let t = s.tabs[i];
            assert(t.wf());
            crate::tab_laws::law_closing_a_pane_keeps_the_tab_in_order(t, pane);
            if t.next_focus(pane) is Some {
                law_a_changed_tab_keeps_the_session_in_order(s, i, t.closed(pane));
            } else {
                lemma_fewer_tabs(s, i, s.closing_in_background(pane)->0.active);
            }
        },
        None => {},
    }
}

/// Showing another tab, moving one and removing one of several keep the session in
/// order; so does a new tab with a pane of its own.
pub proof fn law_tab_operations_keep_the_session_in_order(
    s: SessionView,
    i: int,
    number: usize,
    t: TabView,
)
    requires
        s.wf(),
        0 <= i < s.tabs.len(),
        s.tabs.len() < usize::MAX,
        t.wf(),
        forall|p: PaneId| #[trigger] t.order.contains(p) ==> !s.has(p),
    ensures
        s.showing(i).wf(),
        s.tab_moved(number).wf(),
        s.tab_moved(number).current() == s.current(),
        s.tabs.len() > 1 ==> s.without_tab(i).wf(),
        s.with_new_tab(t).wf(),
{
    let quiet = TabView { activity: TabActivity::Quiet, ..s.tabs[i] };
    assert(s.tabs[i].wf());
    law_a_changed_tab_keeps_the_session_in_order(s, i, quiet);
    if s.tabs.len() > 1 {
        lemma_fewer_tabs(s, i, s.without_tab(i).active);
    }
    let grown = s.with_new_tab(t);
    assert forall|k: int| 0 <= k < grown.tabs.len() implies (#[trigger] grown.tabs[k]).wf() by {
        if k < s.tabs.len() {
            assert(grown.tabs[k] == s.tabs[k]);
        }
    }
    assert forall|k: int, p: PaneId|
        0 <= k < grown.tabs.len() && grown.popup == Some(p) implies !(
    #[trigger] grown.tabs[k].order.contains(p)) by {
        if k < s.tabs.len() {
            assert(!s.tabs[k].order.contains(p));
        } else {
            assert(s.has(p));
        }
    }
    assert forall|a: int, b: int, p: PaneId| 0 <= a < b < grown.tabs.len() implies !(
    #[trigger] grown.tabs[a].order.contains(p) && #[trigger] grown.tabs[b].order.contains(p)) by {
        if b < s.tabs.len() {
            assert(!(s.tabs[a].order.contains(p) && s.tabs[b].order.contains(p)));
        } else if s.tabs[a].order.contains(p) {
            assert(s.has(p));
        }
    }
    let to = s.tab_place(number);
    if s.active != to {
        let after = s.tab_moved(number);
        let from = s.active as int;
        let was = |k: int|
            if k == to {
                from
            } else {
                let m = if k < to {
                    k
                } else {
                    k - 1
                };
                if m < from {
                    m
                } else {
                    m + 1
                }
            };
        assert forall|k: int| 0 <= k < after.tabs.len() implies #[trigger] after.tabs[k]
            == s.tabs[was(k)] && 0 <= was(k) < s.tabs.len() by {}
        assert forall|k: int, p: PaneId|
            0 <= k < after.tabs.len() && after.popup == Some(p) implies !(
        #[trigger] after.tabs[k].order.contains(p)) by {
            assert(after.tabs[k] == s.tabs[was(k)]);
            assert(!s.tabs[was(k)].order.contains(p));
        }
        assert forall|a: int, b: int, p: PaneId| 0 <= a < b < after.tabs.len() implies !(
        #[trigger] after.tabs[a].order.contains(p) && #[trigger] after.tabs[b].order.contains(
            p,
        )) by {
            let x = was(a);
            let y = was(b);
            assert(after.tabs[a] == s.tabs[x] && after.tabs[b] == s.tabs[y]);
            assert(x != y);
            if x < y {
                assert(!(s.tabs[x].order.contains(p) && s.tabs[y].order.contains(p)));
            } else {
                assert(!(s.tabs[y].order.contains(p) && s.tabs[x].order.contains(p)));
            }
        }
    }
}

/// Stepping to the next tab and back shows the same tab.
pub proof fn law_the_next_tab_and_the_one_before_are_opposite(n: int, active: int)
    requires
        0 <= active < n,
    ensures
        ({
            let next = (active + 1) % n;
            (if next == 0 {
                n - 1
            } else {
                next - 1
            }) == active
        }),
{
    if active + 1 == n {
        vstd::arithmetic::div_mod::lemma_mod_self_0(n);
    } else {
        vstd::arithmetic::div_mod::lemma_small_mod((active + 1) as nat, n as nat);
    }
}

} // verus!
