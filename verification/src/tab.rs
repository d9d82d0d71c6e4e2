//! A tab: its panes, their arrangement and the focus.

use crate::compositor::names_fit;
use crate::config::TabActivity;
use crate::layout::{
    activate_pane_in_stack, all_pane_ids, copy_ids, find, get_pane_custom_name, get_pane_name,
    opt_texts, position, set_pane_custom_name, set_pane_name, texts, Direction, LayoutNode, PaneId,
    Tree,
};
use crate::layout_modes::{
    next_layout_mode, stepped, CustomLayout, LayoutMode, MasterLayout,
};
use crate::ratio::{Ratio, MASTER_RATIO_UNITS};
use vstd::prelude::*;

verus! {

/// Where a new pane goes in its tab.
#[derive(Clone, Copy, PartialEq, Eq, Debug, Structural)]
pub enum PanePlacement {
    /// Beside the focused pane.
    SplitVertical,
    /// Below the focused pane.
    SplitHorizontal,
    /// In the stack of the focused pane.
    Stack,
    /// Where the layout mode puts it; beside the focused pane in an arrangement of
    /// the user's own.
    Auto,
}

impl PanePlacement {
    /// Whether the placement edits the tree by hand.
    pub fn is_manual(self) -> (r: bool)
        ensures
            r == (self != PanePlacement::Auto),
    {
        match self {
            PanePlacement::Auto => false,
            _ => true,
        }
    }

    /// The size that the new pane's terminal starts with: a split gives it half of the
    /// side that is divided.
    pub fn spawn_size(self, cols: u16, rows: u16) -> (r: (u16, u16))
        ensures
            r == (match self {
                PanePlacement::SplitVertical => ((cols as int / 2) as u16, rows),
                PanePlacement::SplitHorizontal => (cols, (rows as int / 2) as u16),
                _ => (cols, rows),
            }),
    {
        match self {
            PanePlacement::SplitVertical => (cols / 2, rows),
            PanePlacement::SplitHorizontal => (cols, rows / 2),
            _ => (cols, rows),
        }
    }
}

/// A tab.
#[derive(Debug)]
pub struct Tab {
    pub name: String,
    /// How the panes are arranged.
    pub layout: LayoutNode,
    pub layout_mode: LayoutMode,
    /// The panes in the order in which they were made.
    pub pane_order: Vec<PaneId>,
    pub focused_pane: PaneId,
    /// The pane that fills the whole tab, if any.
    pub zoomed_pane: Option<PaneId>,
    /// The last arrangement of the user's own.
    pub saved_custom_layout: Option<LayoutNode>,
    pub activity: TabActivity,
}

/// The tree behind an optional node.
pub open spec fn opt_tree(n: Option<LayoutNode>) -> Option<Tree> {
    match n {
        Some(t) => Some(t@),
        None => None,
    }
}

/// A tab as a mathematical value.
#[verifier::ext_equal]
pub struct TabView {
    pub name: Seq<char>,
    pub layout: Tree,
    pub mode: LayoutMode,
    pub order: Seq<PaneId>,
    pub focused: PaneId,
    pub zoomed: Option<PaneId>,
    pub saved: Option<Tree>,
    pub activity: TabActivity,
}

impl View for Tab {
    type V = TabView;

    open spec fn view(&self) -> TabView {
        TabView {
            name: self.name@,
            layout: self.layout@,
            mode: self.layout_mode,
            order: self.pane_order@,
            focused: self.focused_pane,
            zoomed: self.zoomed_pane,
            saved: opt_tree(self.saved_custom_layout),
            activity: self.activity,
        }
    }
}

/// The list without any occurrence of an id.
pub open spec fn without(s: Seq<PaneId>, id: PaneId) -> Seq<PaneId>
    decreases s.len(),
{
    if s.len() == 0 {
        s
    } else if s.last() == id {
        without(s.drop_last(), id)
    } else {
        without(s.drop_last(), id).push(s.last())
    }
}

/// Remove every occurrence of an id from a list.
pub fn retain_others(v: &Vec<PaneId>, id: PaneId) -> (r: Vec<PaneId>)
    ensures
        r@ == without(v@, id),
{
    let mut r: Vec<PaneId> = Vec::new();
    let mut i: usize = 0;
    assert(v@.take(0) =~= Seq::empty());
    while i < v.len()
        invariant
            i <= v.len(),
            r@ == without(v@.take(i as int), id),
        decreases v.len() - i,
    {
        assert(v@.take(i + 1).drop_last() =~= v@.take(i as int));
        if v[i] != id {
            r.push(v[i]);
        }
        i += 1;
    }
    assert(v@.take(i as int) =~= v@);
    r
}

/// A saved arrangement can be restored if it has exactly the tab's panes.
pub open spec fn restorable(saved: Option<Tree>, order: Seq<PaneId>) -> bool {
    saved matches Some(t) && t.ids().to_multiset() == order.to_multiset()
}

proof fn lemma_take_one_more(s: Seq<PaneId>, i: int)
    requires
        0 <= i < s.len(),
    ensures
        s.take(i + 1).to_multiset() == s.take(i).to_multiset().insert(s[i]),
{
    assert(s.take(i + 1) =~= s.take(i).push(s[i]));
    s.take(i).to_multiset_ensures();
}

/// Whether two lists hold the same ids, each as often.
fn same_panes(a: &Vec<PaneId>, b: &[PaneId]) -> (r: bool)
    ensures
        r == (a@.to_multiset() == b@.to_multiset()),
{
    broadcast use vstd::multiset::group_multiset_properties;

    let mut rest: Vec<PaneId> = copy_ids(a);
    let mut i: usize = 0;
    assert(b@.take(0) =~= Seq::empty());
    proof {
        b@.take(0).to_multiset_ensures();
        assert(a@.to_multiset() =~= rest@.to_multiset().add(b@.take(0).to_multiset()));
    }
    while i < b.len()
        invariant
            i <= b.len(),
            a@.to_multiset() == rest@.to_multiset().add(b@.take(i as int).to_multiset()),
        decreases b.len() - i,
    {
        let ghost before = rest@;
        match find(&rest, b[i]) {
            Some(k) => {
                rest.remove(k);
                proof {
                    lemma_take_one_more(b@, i as int);
                    before.to_multiset_ensures();
                    assert(rest@ =~= before.remove(k as int));
                    assert(before.to_multiset().count(b[i as int]) > 0);
                    assert(a@.to_multiset() =~= rest@.to_multiset().add(
                        b@.take(i + 1).to_multiset(),
                    ));
                }
            },
            None => {
                proof {
                    let x = b[i as int];
                    before.to_multiset_ensures();
                    lemma_take_one_more(b@, i as int);
                    assert(before.to_multiset().count(x) == 0);
                    let tail = b@.skip(i + 1);
                    assert(b@ =~= b@.take(i + 1) + tail);
                    vstd::seq_lib::lemma_multiset_commutative(b@.take(i + 1), tail);
                    assert(b@.to_multiset().count(x) >= b@.take(i + 1).to_multiset().count(x));
                    assert(a@.to_multiset().count(x) == b@.take(i as int).to_multiset().count(x));
                }
                return false;
            },
        }
        i += 1;
    }
    assert(b@.take(i as int) =~= b@);
    proof {
        rest@.to_multiset_ensures();
        if rest.len() == 0 {
            assert(rest@.to_multiset().len() == 0);
            assert(rest@.to_multiset() =~= vstd::multiset::Multiset::empty());
            assert(a@.to_multiset() =~= b@.to_multiset());
        } else {
            assert(rest@.contains(rest@[0]));
            assert(rest@.to_multiset().count(rest@[0]) > 0);
            assert(a@.to_multiset().count(rest@[0]) > b@.to_multiset().count(rest@[0]));
        }
    }
    rest.len() == 0
}

/// Whether a saved arrangement has exactly the panes of a tab, in whatever order.
pub fn saved_custom_is_restorable(saved: &Option<LayoutNode>, pane_order: &[PaneId]) -> (r: bool)
    ensures
        r == restorable(opt_tree(*saved), pane_order@),
{
    match saved {
        Some(tree) => same_panes(&all_pane_ids(tree), pane_order),
        None => false,
    }
}

/// One pane with the names it has in a tree.
pub open spec fn alone(t: Tree, id: PaneId) -> Tree {
    Tree::Stack {
        panes: seq![id],
        names: seq![
            match t.name_of(id) {
                Some(n) => n,
                None => Seq::empty(),
            },
        ],
        custom_names: seq![
            match t.custom_name_of(id) {
                Some(c) => c,
                None => None,
            },
        ],
        active: 0,
    }
}

/// The master layout with the pane at an index of the order as its master.
pub open spec fn led_by(mode: LayoutMode, order: Seq<PaneId>, pane: PaneId) -> LayoutMode {
    let m = match mode {
        LayoutMode::Master(m) => m,
        _ => MasterLayout { master_idx: 0, master_ratio: Ratio { units: MASTER_RATIO_UNITS } },
    };
    match position(order, pane) {
        Some(i) => LayoutMode::Master(MasterLayout { master_idx: i as usize, ..m }),
        None => LayoutMode::Master(m),
    }
}

/// Every stack has panes, an active one among them, and no more names than panes.
pub open spec fn sound_tree(t: Tree) -> bool {
    t.wf() && t.no_empty_stack() && names_fit(t)
}

impl TabView {
    /// The arrangement holds exactly the tab's panes, the focus is on one of them, and
    /// what is zoomed has the focus.
    pub open spec fn wf(self) -> bool {
        &&& self.layout.wf()
        &&& self.layout.no_empty_stack()
        &&& names_fit(self.layout)
        &&& self.layout.ids().to_multiset() == self.order.to_multiset()
        &&& self.order.no_duplicates()
        &&& self.order.contains(self.focused)
        &&& self.zoomed matches Some(z) ==> z == self.focused
        &&& self.mode.valid()
        &&& self.saved matches Some(t) ==> t.wf() && t.no_empty_stack() && names_fit(t)
    }

    /// The arrangement can be drawn and worked on, whatever panes it holds.
    pub open spec fn sound(self) -> bool {
        &&& sound_tree(self.layout)
        &&& self.mode.valid()
        &&& self.saved matches Some(t) ==> sound_tree(t)
    }

    /// The focus moved to a pane; a zoom goes with it.
    pub open spec fn focus(self, id: PaneId) -> TabView {
        TabView {
            focused: id,
            zoomed: if self.zoomed is Some {
                Some(id)
            } else {
                None
            },
            ..self
        }
    }

    /// A zoom can always be released. It cannot be started where one pane fills the
    /// tab anyway.
    pub open spec fn zoom_changes(self) -> bool {
        self.zoomed is Some || !(self.mode is Monocle)
    }

    /// The focused pane zoomed, or the zoom released.
    pub open spec fn zoom_toggled(self) -> TabView {
        TabView {
            zoomed: if self.zoomed is None && self.zoom_changes() {
                Some(self.focused)
            } else {
                None
            },
            ..self
        }
    }

    /// The arrangement that is shown: the zoomed pane alone, if there is one.
    pub open spec fn shown(self) -> Tree {
        match self.zoomed {
            Some(z) => alone(self.layout, z),
            None => self.layout,
        }
    }

    /// A mode for an arrangement that was made by hand.
    pub open spec fn by_hand(self) -> TabView {
        TabView { mode: LayoutMode::Custom(CustomLayout), ..self }
    }

    /// A new pane in the tab. Placing it by hand makes the arrangement the user's own;
    /// it gets the focus, and a zoom ends.
    pub open spec fn placed(self, placement: PanePlacement, new: PaneId) -> TabView {
        let at = if placement != PanePlacement::Auto {
            self.by_hand()
        } else {
            self
        };
        let order = self.order.push(new);
        let layout = match placement {
            PanePlacement::SplitVertical => self.layout.split_at(
                self.focused,
                new,
                Direction::Vertical,
            ),
            PanePlacement::SplitHorizontal => self.layout.split_at(
                self.focused,
                new,
                Direction::Horizontal,
            ),
            PanePlacement::Stack => self.layout.stacked(self.focused, new),
            PanePlacement::Auto => if self.mode is Custom {
                self.layout.split_at(self.focused, new, Direction::Vertical)
            } else {
                self.mode.tree(order, new)
            },
        };
        TabView { layout, order, focused: new, zoomed: None, ..at }
    }

    /// The pane that has the focus once `pane` is closed; none if it was the last one.
    pub open spec fn next_focus(self, pane: PaneId) -> Option<PaneId> {
        self.layout.focus_after_close(pane)
    }

    /// The tab without a pane. An automatic layout is built anew.
    pub open spec fn closed(self, pane: PaneId) -> TabView {
        let rest = TabView {
            layout: self.layout.closed(pane),
            order: without(self.order, pane),
            zoomed: if self.zoomed == Some(pane) {
                None
            } else {
                self.zoomed
            },
            ..self
        };
        match self.next_focus(pane) {
            Some(f) => {
                let there = rest.focus(f);
                if self.mode is Custom {
                    there
                } else {
                    TabView { layout: self.mode.tree(there.order, f), ..there }
                }
            },
            None => rest,
        }
    }

    /// A split around the focused pane moved; the arrangement is now the user's own.
    pub open spec fn resized(self, direction: Direction, delta: int) -> TabView {
        TabView {
            layout: match self.layout.resized(self.focused, direction, delta) {
                Some(t) => t,
                None => self.layout,
            },
            ..self.by_hand()
        }
    }

    /// An arrangement of the user's own kept for later.
    pub open spec fn remembered(self) -> TabView {
        TabView {
            saved: if self.mode is Custom {
                Some(self.layout)
            } else {
                self.saved
            },
            zoomed: None,
            ..self
        }
    }

    /// The next layout of the cycle. A saved arrangement comes back with its own focus.
    pub open spec fn next_layout(self) -> TabView {
        let kept = self.remembered();
        let mode = stepped(self.mode, restorable(kept.saved, self.order));
        if !(mode is Custom) {
            TabView { mode, layout: mode.tree(self.order, self.focused), ..kept }
        } else {
            match kept.saved {
                Some(t) => {
                    let back = TabView { mode, layout: t, ..kept };
                    match t.front() {
                        Some(f) => back.focus(f),
                        None => back,
                    }
                },
                None => TabView { mode, ..kept },
            }
        }
    }

    /// The focused pane made the master of the master layout.
    pub open spec fn mastered(self) -> TabView {
        let kept = self.remembered();
        let mode = led_by(self.mode, self.order, self.focused);
        TabView { mode, layout: mode.tree(self.order, self.focused), ..kept }
    }

    /// The stack of the focused pane turned one step, the focus with it.
    pub open spec fn turned(self, forward: bool) -> TabView {
        let there = TabView { layout: self.layout.turned(self.focused, forward), ..self };
        match self.layout.turned_to(self.focused, forward) {
            Some(p) => there.focus(p),
            None => there,
        }
    }

    /// A pane named by the user.
    pub open spec fn renamed(self, pane: PaneId, name: Seq<char>) -> TabView {
        TabView { layout: self.layout.custom_named(pane, name).named(pane, name), ..self }
    }

    /// A pane of a stack shown and focused.
    pub open spec fn activated(self, pane: PaneId) -> TabView {
        TabView { layout: self.layout.activated(pane), ..self }.focus(pane)
    }

    /// The list of panes agrees with the arrangement; where it did not, it is made anew.
    pub open spec fn reconciled(self) -> TabView {
        TabView {
            order: if self.layout.ids().to_multiset() == self.order.to_multiset() {
                self.order
            } else {
                self.layout.ids()
            },
            ..self
        }
    }

    /// A fresh tab of one pane.
    pub open spec fn fresh(name: Seq<char>, mode: LayoutMode, pane: PaneId) -> TabView {
        TabView {
            name,
            layout: mode.tree(seq![pane], pane),
            mode,
            order: seq![pane],
            focused: pane,
            zoomed: None,
            saved: None,
            activity: TabActivity::Quiet,
        }
    }
}

impl Tab {
    /// The arrangement holds exactly the tab's panes, and the focus is on one of them.
    pub open spec fn wf(&self) -> bool {
        self@.wf()
    }

    /// A tab of one pane.
    pub fn new(name: &str, mode: LayoutMode, pane: PaneId) -> (r: Tab)
        requires
            mode.valid(),
        ensures
            r@ == TabView::fresh(name@, mode, pane),
    {
        let mut pane_order: Vec<PaneId> = Vec::new();
        pane_order.push(pane);
        let layout = mode.build_tree(&pane_order, pane);
        assert(pane_order@ =~= seq![pane]);
        Tab {
            name: name.to_owned(),
            layout,
            layout_mode: mode,
            pane_order,
            focused_pane: pane,
            zoomed_pane: None,
            saved_custom_layout: None,
            activity: TabActivity::Quiet,
        }
    }

    /// Give a pane the focus. A zoom follows the focus.
    pub fn focus_pane(&mut self, id: PaneId)
        ensures
            final(self)@ == old(self)@.focus(id),
    {
        self.focused_pane = id;
        if self.zoomed_pane.is_some() {
            self.zoomed_pane = Some(id);
        }
    }

    /// Zoom the focused pane, or release the zoom. The result says whether anything
    /// changed.
    pub fn toggle_zoom(&mut self) -> (r: bool)
        ensures
            r == old(self)@.zoom_changes(),
            final(self)@ == old(self)@.zoom_toggled(),
    {
        if self.zoomed_pane.is_some() {
            self.zoomed_pane = None;
            true
        } else {
            match self.layout_mode {
                LayoutMode::Monocle(_) => false,
                _ => {
                    self.zoomed_pane = Some(self.focused_pane);
                    true
                },
            }
        }
    }

    /// The arrangement that is shown.
    pub fn effective_layout(&self) -> (r: LayoutNode)
        ensures
            r@ == self@.shown(),
    {
        match self.zoomed_pane {
            Some(z) => {
                let mut panes: Vec<PaneId> = Vec::new();
                panes.push(z);
                let mut names: Vec<String> = Vec::new();
                match get_pane_name(&self.layout, z) {
                    Some(n) => names.push(n),
                    None => names.push(String::new()),
                }
                let mut custom_names: Vec<Option<String>> = Vec::new();
                match get_pane_custom_name(&self.layout, z) {
                    Some(c) => custom_names.push(c),
                    None => custom_names.push(None),
                }
                let ghost whole = alone(self.layout@, z);
                assert(panes@ =~= whole->panes);
                assert(texts(names@) =~= whole->names);
                assert(opt_texts(custom_names@) =~= whole->custom_names);
                LayoutNode::Stack { panes, names, custom_names, active: 0 }
            },
            None => self.layout.duplicate(),
        }
    }

    fn eject_to_custom(&mut self)
        ensures
            final(self)@ == old(self)@.by_hand(),
    {
        self.layout_mode = LayoutMode::Custom(CustomLayout);
    }

    /// Put a new pane into the tab.
    pub fn place_pane(&mut self, placement: PanePlacement, new: PaneId)
        requires
            old(self)@.mode.valid(),
        ensures
            final(self)@ == old(self)@.placed(placement, new),
    {
        let focused: PaneId = self.focused_pane;
        if placement.is_manual() && self.layout_mode.is_automatic() {
            self.eject_to_custom();
        }
        assert(self@.mode == old(self)@.placed(placement, new).mode);
        self.pane_order.push(new);
        match placement {
            PanePlacement::SplitVertical => {
                self.layout.split_vertical(focused, new);
            },
            PanePlacement::SplitHorizontal => {
                self.layout.split_horizontal(focused, new);
            },
            PanePlacement::Stack => {
                self.layout.add_to_stack(focused, new);
            },
            PanePlacement::Auto => {
                if self.layout_mode.is_automatic() {
                    self.layout = self.layout_mode.build_tree(&self.pane_order, new);
                } else {
                    self.layout.split_vertical(focused, new);
                }
            },
        }
        self.focused_pane = new;
        self.zoomed_pane = None;
        assert(self@ =~= old(self)@.placed(placement, new));
    }

    /// Close a pane of the tab. The result is false if it was the last one.
    pub fn close_pane(&mut self, pane: PaneId) -> (r: bool)
        requires
            old(self)@.mode.valid(),
            old(self)@.layout.wf(),
        ensures
            r == (old(self)@.next_focus(pane) is Some),
            final(self)@ == old(self)@.closed(pane),
    {
        let next = self.layout.close_pane(pane);
        self.pane_order = retain_others(&self.pane_order, pane);
        match self.zoomed_pane {
            Some(z) => {
                if z == pane {
                    self.zoomed_pane = None;
                }
            },
            None => {},
        }
        match next {
            Some(f) => {
                self.focus_pane(f);
                if self.layout_mode.is_automatic() {
                    self.layout = self.layout_mode.build_tree(&self.pane_order, f);
                }
                assert(self@ =~= old(self)@.closed(pane));
                true
            },
            None => {
                assert(self@ =~= old(self)@.closed(pane));
                false
            },
        }
    }

    /// Move the nearest split around the focused pane by `delta` ratio units.
    pub fn resize_focused(&mut self, direction: Direction, delta: i64)
        ensures
            final(self)@ == old(self)@.resized(direction, delta as int),
    {
        if self.layout_mode.is_automatic() {
            self.eject_to_custom();
        }
        self.layout.resize(self.focused_pane, direction, delta);
        assert(self@ =~= old(self)@.resized(direction, delta as int));
    }

    fn remember_custom(&mut self)
        ensures
            final(self)@ == old(self)@.remembered(),
    {
        if !self.layout_mode.is_automatic() {
            self.saved_custom_layout = Some(self.layout.duplicate());
        }
        self.zoomed_pane = None;
    }

    /// Go to the next layout of the cycle.
    pub fn cycle_layout(&mut self)
        requires
            old(self)@.mode.valid(),
            old(self)@.layout.wf(),
            old(self)@.saved matches Some(t) ==> t.wf(),
        ensures
            final(self)@ == old(self)@.next_layout(),
    {
        self.remember_custom();
        let back = saved_custom_is_restorable(&self.saved_custom_layout, &self.pane_order);
        self.layout_mode = next_layout_mode(&self.layout_mode, back);
        if self.layout_mode.is_automatic() {
            self.layout = self.layout_mode.build_tree(&self.pane_order, self.focused_pane);
        } else {
            let saved = match &self.saved_custom_layout {
                Some(t) => Some(t.duplicate()),
                None => None,
            };
            match saved {
                Some(t) => {
                    self.layout = t;
                    match self.layout.active_pane() {
                        Some(f) => self.focus_pane(f),
                        None => {},
                    }
                },
                None => {},
            }
        }
        assert(self@ =~= old(self)@.next_layout());
    }

    /// Make the focused pane the master of the master layout.
    pub fn set_master(&mut self)
        requires
            old(self)@.mode.valid(),
        ensures
            final(self)@ == old(self)@.mastered(),
    {
        self.remember_custom();
        let mut master = match self.layout_mode {
            LayoutMode::Master(m) => m,
            _ => MasterLayout::default(),
        };
        match find(&self.pane_order, self.focused_pane) {
            Some(i) => {
                master.master_idx = i;
            },
            None => {},
        }
        self.layout_mode = LayoutMode::Master(master);
        assert(self.layout_mode == led_by(
            old(self)@.mode,
            old(self)@.order,
            old(self)@.focused,
        ));
        self.layout = self.layout_mode.build_tree(&self.pane_order, self.focused_pane);
        assert(self@ =~= old(self)@.mastered());
    }

    /// Turn the stack of the focused pane one step.
    pub fn turn_stack(&mut self, forward: bool)
        ensures
            final(self)@ == old(self)@.turned(forward),
    {
        let next = if forward {
            self.layout.stack_next(self.focused_pane)
        } else {
            self.layout.stack_prev(self.focused_pane)
        };
        match next {
            Some(p) => self.focus_pane(p),
            None => {},
        }
        assert(self@ =~= old(self)@.turned(forward));
    }

    /// Give a pane a name of the user's own.
    pub fn rename_pane(&mut self, pane: PaneId, name: &str)
        ensures
            final(self)@ == old(self)@.renamed(pane, name@),
    {
        set_pane_custom_name(&mut self.layout, pane, name);
        set_pane_name(&mut self.layout, pane, name);
    }

    /// Show a pane of a stack and give it the focus.
    pub fn activate_pane(&mut self, pane: PaneId)
        ensures
            final(self)@ == old(self)@.activated(pane),
    {
        activate_pane_in_stack(&mut self.layout, pane);
        self.focus_pane(pane);
    }

    /// Make the list of panes agree with the arrangement.
    pub fn reconcile_pane_order(&mut self)
        ensures
            final(self)@ == old(self)@.reconciled(),
    {
        let ids = all_pane_ids(&self.layout);
        if !same_panes(&ids, &self.pane_order) {
            self.pane_order = ids;
        }
    }

    /// A copy of the tab.
    pub fn duplicate(&self) -> (r: Tab)
        ensures
            r@ == self@,
    {
        Tab {
            name: self.name.clone(),
            layout: self.layout.duplicate(),
            layout_mode: self.layout_mode,
            pane_order: copy_ids(&self.pane_order),
            focused_pane: self.focused_pane,
            zoomed_pane: self.zoomed_pane,
            saved_custom_layout: match &self.saved_custom_layout {
                Some(t) => Some(t.duplicate()),
                None => None,
            },
            activity: self.activity,
        }
    }

    /// Whether a pane is one of the tab's.
    pub fn has_pane(&self, pane: PaneId) -> (r: bool)
        ensures
            r == self@.order.contains(pane),
    {
        find(&self.pane_order, pane).is_some()
    }
}

} // verus!
