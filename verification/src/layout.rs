//! The layout engine: a binary tree of splits whose leaves are stacks of panes.
//!
//! Everything here is plain data and geometry. A tree is described in contracts
//! by its [`Tree`] view, and every operation by a function on that view.

use crate::ratio::{nudged, Ratio, HALF_UNITS};
use vstd::prelude::*;

verus! {

/// Unique identifier for a pane.
pub type PaneId = u64;

/// Direction of a split: Horizontal divides top/bottom, Vertical divides left/right.
#[derive(Clone, Copy, Debug, PartialEq, Eq, Structural)]
pub enum Direction {
    Horizontal,
    Vertical,
}

/// Direction for focus navigation.
#[derive(Clone, Copy, Debug, PartialEq, Eq, Structural)]
pub enum FocusDirection {
    Left,
    Right,
    Up,
    Down,
}

/// An axis-aligned rectangle for pane geometry.
#[derive(Clone, Copy, Debug, PartialEq, Eq, Structural)]
pub struct Rect {
    pub x: u16,
    pub y: u16,
    pub width: u16,
    pub height: u16,
}

/// Minimum pane dimension in either axis.
pub const MIN_PANE_SIZE: u16 = 2;

/// A node in the layout tree: internal nodes are splits, leaves are stacks of
/// one or more panes of which one is visible.
#[derive(Debug)]
pub enum LayoutNode {
    /// A split divides space between two child nodes.
    Split {
        direction: Direction,
        /// Share allocated to the `first` child.
        ratio: Ratio,
        first: Box<LayoutNode>,
        second: Box<LayoutNode>,
    },
    /// A stack holds one or more panes in a tabbed arrangement.
    Stack {
        panes: Vec<PaneId>,
        /// Display names, by the index of the pane; may be shorter than `panes`.
        names: Vec<String>,
        /// Names set by the user, by the index of the pane; `None` means that
        /// the name follows the running process.
        custom_names: Vec<Option<String>>,
        /// Index into `panes` for the currently visible pane.
        active: usize,
    },
}

// ---------------------------------------------------------------------------
// The mathematical view of a tree
// ---------------------------------------------------------------------------

/// The characters of each string of a list.
pub open spec fn texts(v: Seq<String>) -> Seq<Seq<char>> {
    Seq::new(v.len(), |i: int| v[i]@)
}

/// The characters of an optional string.
pub open spec fn opt_text(s: Option<String>) -> Option<Seq<char>> {
    match s {
        Some(t) => Some(t@),
        None => None,
    }
}

/// The characters of each optional string of a list.
pub open spec fn opt_texts(v: Seq<Option<String>>) -> Seq<Option<Seq<char>>> {
    Seq::new(v.len(), |i: int| opt_text(v[i]))
}

/// A layout tree as a mathematical value.
#[verifier::ext_equal]
pub enum Tree {
    Split { direction: Direction, ratio: Ratio, first: Box<Tree>, second: Box<Tree> },
    Stack {
        panes: Seq<PaneId>,
        names: Seq<Seq<char>>,
        custom_names: Seq<Option<Seq<char>>>,
        active: nat,
    },
}

impl LayoutNode {
    /// The tree that the node stands for.
    pub open spec fn view(&self) -> Tree
        decreases self,
    {
        match self {
            LayoutNode::Split { direction, ratio, first, second } => Tree::Split {
                direction: *direction,
                ratio: *ratio,
                first: Box::new(first.view()),
                second: Box::new(second.view()),
            },
            LayoutNode::Stack { panes, names, custom_names, active } => Tree::Stack {
                panes: panes@,
                names: texts(names@),
                custom_names: opt_texts(custom_names@),
                active: *active as nat,
            },
        }
    }
}

/// `i` is the first index at which `id` occurs in `s`.
pub open spec fn is_first(s: Seq<PaneId>, id: PaneId, i: int) -> bool {
    &&& 0 <= i < s.len()
    &&& s[i] == id
    &&& forall|j: int| 0 <= j < i ==> s[j] != id
}

/// The first index at which `id` occurs in `s`.
pub open spec fn position(s: Seq<PaneId>, id: PaneId) -> Option<int> {
    if s.contains(id) {
        Some(choose|i: int| is_first(s, id, i))
    } else {
        None
    }
}

proof fn lemma_first_exists(s: Seq<PaneId>, id: PaneId, k: int)
    requires
        0 <= k < s.len(),
        s[k] == id,
    ensures
        exists|i: int| is_first(s, id, i),
    decreases k,
{
    if forall|j: int| 0 <= j < k ==> s[j] != id {
        assert(is_first(s, id, k));
    } else {
        let j = choose|j: int| 0 <= j < k && s[j] == id;
        lemma_first_exists(s, id, j);
    }
}

/// What [`position`] returns is the first index, and there is only one.
pub proof fn lemma_position(s: Seq<PaneId>, id: PaneId)
    ensures
        match position(s, id) {
            Some(i) => is_first(s, id, i),
            None => !s.contains(id),
        },
        forall|i: int| #[trigger] is_first(s, id, i) ==> position(s, id) == Some(i),
{
    if s.contains(id) {
        let k = choose|k: int| 0 <= k < s.len() && s[k] == id;
        lemma_first_exists(s, id, k);
        let i = choose|i: int| is_first(s, id, i);
        assert forall|j: int| #[trigger] is_first(s, id, j) implies j == i by {
            if j < i {
                assert(s[j] != id);
            }
            if i < j {
                assert(s[i] != id);
            }
        }
    }
}

/// A stack of one unnamed pane.
pub open spec fn lone(id: PaneId) -> Tree {
    Tree::Stack {
        panes: seq![id],
        names: seq![Seq::empty()],
        custom_names: seq![None],
        active: 0,
    }
}

/// `s` with empty entries added until index `pos` exists, and `x` put there.
pub open spec fn put_padded<T>(s: Seq<T>, pos: int, blank: T, x: T) -> Seq<T> {
    if pos < s.len() {
        s.update(pos, x)
    } else {
        Seq::new((pos + 1) as nat, |i: int| if i < s.len() {
            s[i]
        } else if i < pos {
            blank
        } else {
            x
        })
    }
}

/// `s` without its entry at `pos`, if it has one.
pub open spec fn drop_at<T>(s: Seq<T>, pos: int) -> Seq<T> {
    if pos < s.len() {
        s.remove(pos)
    } else {
        s
    }
}

/// The entry of `s` at `pos`, or `blank` if `s` is shorter.
pub open spec fn get_or<T>(s: Seq<T>, pos: int, blank: T) -> T {
    if pos < s.len() {
        s[pos]
    } else {
        blank
    }
}

impl Tree {
    /// All pane ids, left to right, hidden ones included.
    pub open spec fn ids(self) -> Seq<PaneId>
        decreases self,
    {
        match self {
            Tree::Split { first, second, .. } => first.ids() + second.ids(),
            Tree::Stack { panes, .. } => panes,
        }
    }

    /// Whether `id` is one of the panes of the tree.
    pub open spec fn has(self, id: PaneId) -> bool
        decreases self,
    {
        match self {
            Tree::Split { first, second, .. } => first.has(id) || second.has(id),
            Tree::Stack { panes, .. } => panes.contains(id),
        }
    }

    /// The visible pane of each stack, left to right.
    pub open spec fn visible(self) -> Seq<PaneId>
        decreases self,
    {
        match self {
            Tree::Split { first, second, .. } => first.visible() + second.visible(),
            Tree::Stack { panes, active, .. } => if active < panes.len() {
                seq![panes[active as int]]
            } else {
                Seq::empty()
            },
        }
    }

    /// In every stack that has panes, the active index names one of them.
    pub open spec fn wf(self) -> bool
        decreases self,
    {
        match self {
            Tree::Split { first, second, .. } => first.wf() && second.wf(),
            Tree::Stack { panes, active, .. } => panes.len() > 0 ==> active < panes.len(),
        }
    }

    /// Every stack has a pane.
    pub open spec fn no_empty_stack(self) -> bool
        decreases self,
    {
        match self {
            Tree::Split { first, second, .. } => first.no_empty_stack()
                && second.no_empty_stack(),
            Tree::Stack { panes, .. } => panes.len() > 0,
        }
    }

    /// The visible pane of the first stack.
    pub open spec fn front(self) -> Option<PaneId>
        decreases self,
    {
        match self {
            Tree::Split { first, .. } => first.front(),
            Tree::Stack { panes, active, .. } => if panes.len() == 0 {
                None
            } else {
                Some(panes[active as int])
            },
        }
    }

    /// The first stack that holds `id`.
    pub open spec fn stack_of(self, id: PaneId) -> Option<Tree>
        decreases self,
    {
        match self {
            Tree::Split { first, second, .. } => if first.has(id) {
                first.stack_of(id)
            } else {
                second.stack_of(id)
            },
            Tree::Stack { panes, .. } => if panes.contains(id) {
                Some(self)
            } else {
                None
            },
        }
    }

    /// The tree with the first stack that holds `id` replaced by `f` of it.
    pub open spec fn with_stack(self, id: PaneId, f: spec_fn(Tree) -> Tree) -> Tree
        decreases self,
    {
        match self {
            Tree::Split { direction, ratio, first, second } => if first.has(id) {
                Tree::Split {
                    direction,
                    ratio,
                    first: Box::new(first.with_stack(id, f)),
                    second,
                }
            } else {
                Tree::Split {
                    direction,
                    ratio,
                    first,
                    second: Box::new(second.with_stack(id, f)),
                }
            },
            Tree::Stack { panes, .. } => if panes.contains(id) {
                f(self)
            } else {
                self
            },
        }
    }

    /// The stack of `target` becomes the first half of an even split whose
    /// second half is a new stack of `new`.
    pub open spec fn split_at(self, target: PaneId, new: PaneId, direction: Direction) -> Tree {
        self.with_stack(
            target,
            |s: Tree|
                Tree::Split {
                    direction,
                    ratio: Ratio { units: HALF_UNITS },
                    first: Box::new(s),
                    second: Box::new(lone(new)),
                },
        )
    }

    /// A stack with `new` added at its end, unnamed and visible.
    pub open spec fn pushed(self, new: PaneId) -> Tree {
        match self {
            Tree::Stack { panes, names, custom_names, .. } => Tree::Stack {
                panes: panes.push(new),
                names: names.push(Seq::empty()),
                custom_names: custom_names.push(None),
                active: panes.len(),
            },
            _ => self,
        }
    }

    /// The stack of `target` with `new` added.
    pub open spec fn stacked(self, target: PaneId, new: PaneId) -> Tree {
        self.with_stack(target, |s: Tree| s.pushed(new))
    }

    /// A stack with another pane made visible.
    pub open spec fn showing(self, at: int) -> Tree {
        match self {
            Tree::Stack { panes, names, custom_names, .. } => Tree::Stack {
                panes,
                names,
                custom_names,
                active: at as nat,
            },
            _ => self,
        }
    }

    /// The index that follows `id` in its stack, around the end.
    pub open spec fn after(self, id: PaneId) -> int {
        match self {
            Tree::Stack { panes, .. } => (position(panes, id)->0 + 1) % panes.len() as int,
            _ => 0,
        }
    }

    /// The index before `id` in its stack, around the start.
    pub open spec fn before(self, id: PaneId) -> int {
        match self {
            Tree::Stack { panes, .. } => if position(panes, id)->0 == 0 {
                panes.len() - 1
            } else {
                position(panes, id)->0 - 1
            },
            _ => 0,
        }
    }

    /// The number of panes of a stack.
    pub open spec fn height(self) -> nat {
        match self {
            Tree::Stack { panes, .. } => panes.len(),
            _ => 0,
        }
    }

    /// The pane of a stack at an index.
    pub open spec fn pane_at(self, i: int) -> PaneId {
        match self {
            Tree::Stack { panes, .. } => panes[i],
            _ => 0,
        }
    }

    /// The stack of `id` turned one step on; a stack of one pane stays as it is.
    pub open spec fn turned(self, id: PaneId, forward: bool) -> Tree {
        self.with_stack(
            id,
            |s: Tree|
                if s.height() <= 1 {
                    s
                } else {
                    s.showing(if forward {
                        s.after(id)
                    } else {
                        s.before(id)
                    })
                },
        )
    }

    /// The pane that comes to show when the stack of `id` is turned one step.
    pub open spec fn turned_to(self, id: PaneId, forward: bool) -> Option<PaneId> {
        match self.stack_of(id) {
            Some(s) => if s.height() <= 1 {
                Some(id)
            } else {
                Some(s.pane_at(if forward {
                    s.after(id)
                } else {
                    s.before(id)
                }))
            },
            None => None,
        }
    }

    /// The tree with the nearest split around `id` in `direction` moved by
    /// `delta` units, which the first part of the split gains; `None` if there is no such
    /// split.
    pub open spec fn resized(self, id: PaneId, direction: Direction, delta: int) -> Option<Tree>
        decreases self,
    {
        match self {
            Tree::Stack { .. } => None,
            Tree::Split { direction: own, ratio, first, second } => {
                let deeper_first = if first.has(id) {
                    first.resized(id, direction, delta)
                } else {
                    None
                };
                let deeper_second = if second.has(id) && (own == direction || !first.has(id)) {
                    second.resized(id, direction, delta)
                } else {
                    None
                };
                if deeper_first is Some {
                    Some(
                        Tree::Split { direction: own, ratio, first: Box::new(deeper_first->0), second },
                    )
                } else if deeper_second is Some {
                    Some(
                        Tree::Split {
                            direction: own,
                            ratio,
                            first,
                            second: Box::new(deeper_second->0),
                        },
                    )
                } else if own == direction && (first.has(id) || second.has(id)) {
                    Some(
                        Tree::Split {
                            direction: own,
                            ratio: nudged(ratio, delta),
                            first,
                            second,
                        },
                    )
                } else {
                    None
                }
            },
        }
    }

    /// A stack without its pane at `pos`; what is visible stays visible where it
    /// can.
    pub open spec fn without_at(self, pos: int) -> Tree {
        match self {
            Tree::Stack { panes, names, custom_names, active } => Tree::Stack {
                panes: panes.remove(pos),
                names: drop_at(names, pos),
                custom_names: drop_at(custom_names, pos),
                active: if panes.len() == 1 {
                    active
                } else if active >= panes.len() - 1 {
                    (panes.len() - 2) as nat
                } else if active > pos {
                    (active - 1) as nat
                } else {
                    active
                },
            },
            _ => self,
        }
    }

    /// The tree without `id`. A child that is left with nothing to show gives way
    /// to its sibling.
    pub open spec fn closed(self, id: PaneId) -> Tree
        decreases self,
    {
        match self {
            Tree::Stack { panes, .. } => match position(panes, id) {
                Some(pos) => self.without_at(pos),
                None => self,
            },
            Tree::Split { direction, ratio, first, second } => if first.has(id) {
                if first.focus_after_close(id) is Some {
                    Tree::Split { direction, ratio, first: Box::new(first.closed(id)), second }
                } else {
                    *second
                }
            } else if second.has(id) {
                if second.focus_after_close(id) is Some {
                    Tree::Split { direction, ratio, first, second: Box::new(second.closed(id)) }
                } else {
                    *first
                }
            } else {
                self
            },
        }
    }

    /// The pane that gets the focus once `id` is closed.
    pub open spec fn focus_after_close(self, id: PaneId) -> Option<PaneId>
        decreases self,
    {
        match self {
            Tree::Stack { panes, .. } => match position(panes, id) {
                Some(pos) => self.without_at(pos).front(),
                None => None,
            },
            Tree::Split { first, second, .. } => if first.has(id) {
                if first.focus_after_close(id) is Some {
                    first.focus_after_close(id)
                } else {
                    second.front()
                }
            } else if second.has(id) {
                if second.focus_after_close(id) is Some {
                    second.focus_after_close(id)
                } else {
                    first.front()
                }
            } else {
                None
            },
        }
    }

    /// The tree with the display name of `id` set.
    pub open spec fn named(self, id: PaneId, name: Seq<char>) -> Tree {
        self.with_stack(
            id,
            |s: Tree|
                match s {
                    Tree::Stack { panes, names, custom_names, active } => Tree::Stack {
                        panes,
                        names: put_padded(names, position(panes, id)->0, Seq::empty(), name),
                        custom_names,
                        active,
                    },
                    _ => s,
                },
        )
    }

    /// The tree with the user's own name for `id` set.
    pub open spec fn custom_named(self, id: PaneId, name: Seq<char>) -> Tree {
        self.with_stack(
            id,
            |s: Tree|
                match s {
                    Tree::Stack { panes, names, custom_names, active } => Tree::Stack {
                        panes,
                        names,
                        custom_names: put_padded(
                            custom_names,
                            position(panes, id)->0,
                            None,
                            Some(name),
                        ),
                        active,
                    },
                    _ => s,
                },
        )
    }

    /// The tree with `id` made visible in every stack that holds it.
    pub open spec fn activated(self, id: PaneId) -> Tree
        decreases self,
    {
        match self {
            Tree::Split { direction, ratio, first, second } => Tree::Split {
                direction,
                ratio,
                first: Box::new(first.activated(id)),
                second: Box::new(second.activated(id)),
            },
            Tree::Stack { panes, .. } => match position(panes, id) {
                Some(pos) => self.showing(pos),
                None => self,
            },
        }
    }

    /// The display name of `id`; empty where none was ever set.
    pub open spec fn name_of(self, id: PaneId) -> Option<Seq<char>> {
        match self.stack_of(id) {
            Some(Tree::Stack { panes, names, .. }) => Some(
                get_or(names, position(panes, id)->0, Seq::empty()),
            ),
            _ => None,
        }
    }

    /// The user's own name for `id`, if the tree holds `id`.
    pub open spec fn custom_name_of(self, id: PaneId) -> Option<Option<Seq<char>>> {
        match self.stack_of(id) {
            Some(Tree::Stack { panes, custom_names, .. }) => Some(
                get_or(custom_names, position(panes, id)->0, None),
            ),
            _ => None,
        }
    }
}

/// A pane belongs to the tree exactly if it is listed among its ids.
pub proof fn law_has_is_membership(t: Tree, id: PaneId)
    ensures
        t.has(id) == t.ids().contains(id),
    decreases t,
{
    match t {
        Tree::Split { first, second, .. } => {
            law_has_is_membership(*first, id);
            law_has_is_membership(*second, id);
            let a = first.ids();
            let b = second.ids();
            if a.contains(id) {
                let i = choose|i: int| 0 <= i < a.len() && a[i] == id;
                assert((a + b)[i] == id);
            }
            if b.contains(id) {
                let i = choose|i: int| 0 <= i < b.len() && b[i] == id;
                assert((a + b)[a.len() + i] == id);
            }
        },
        Tree::Stack { .. } => {},
    }
}

/// Replacing the stack of a pane that the tree does not hold changes nothing.
proof fn lemma_with_stack_absent(t: Tree, id: PaneId)
    ensures
        !t.has(id) ==> forall|f: spec_fn(Tree) -> Tree| #[trigger] t.with_stack(id, f) == t,
    decreases t,
{
    match t {
        Tree::Split { first, second, .. } => {
            lemma_with_stack_absent(*first, id);
            lemma_with_stack_absent(*second, id);
            if !t.has(id) {
                assert forall|f: spec_fn(Tree) -> Tree| #[trigger] t.with_stack(id, f) == t by {
                    assert(second.with_stack(id, f) == *second);
                }
            }
        },
        Tree::Stack { .. } => {},
    }
}

/// A pane has a stack exactly if the tree holds it, and that stack holds it too.
proof fn lemma_stack_of(t: Tree, id: PaneId)
    ensures
        t.stack_of(id) is Some == t.has(id),
        t.stack_of(id) matches Some(s) ==> s is Stack && s->panes.contains(id),
    decreases t,
{
    match t {
        Tree::Split { first, second, .. } => {
            lemma_stack_of(*first, id);
            lemma_stack_of(*second, id);
        },
        Tree::Stack { .. } => {},
    }
}

// ---------------------------------------------------------------------------
// Operations
// ---------------------------------------------------------------------------

/// The first index of `id` in `panes`.
pub fn find(panes: &Vec<PaneId>, id: PaneId) -> (r: Option<usize>)
    ensures
        match r {
            Some(i) => position(panes@, id) == Some(i as int) && is_first(panes@, id, i as int),
            None => position(panes@, id) is None && !panes@.contains(id),
        },
        r is Some == panes@.contains(id),
{
    proof {
        lemma_position(panes@, id);
    }
    let mut i: usize = 0;
    while i < panes.len()
        invariant
            i <= panes.len(),
            forall|j: int| 0 <= j < i ==> panes@[j] != id,
            forall|k: int| #[trigger] is_first(panes@, id, k) ==> position(panes@, id) == Some(k),
        decreases panes.len() - i,
    {
        if panes[i] == id {
            assert(is_first(panes@, id, i as int));
            return Some(i);
        }
        i += 1;
    }
    None
}

/// Whether the tree holds the pane.
pub fn contains_pane(node: &LayoutNode, pane_id: PaneId) -> (r: bool)
    ensures
        r == node@.has(pane_id),
    decreases node,
{
    match node {
        LayoutNode::Stack { panes, .. } => find(panes, pane_id).is_some(),
        LayoutNode::Split { first, second, .. } => contains_pane(first, pane_id) || contains_pane(
            second,
            pane_id,
        ),
    }
}

impl LayoutNode {
    /// Create a new stack containing a single pane.
    pub fn new_stack(pane_id: PaneId) -> (r: Self)
        ensures
            r@ == lone(pane_id),
    {
        let mut panes: Vec<PaneId> = Vec::new();
        panes.push(pane_id);
        let mut names: Vec<String> = Vec::new();
        names.push(String::new());
        let mut custom_names: Vec<Option<String>> = Vec::new();
        custom_names.push(None);
        let r = LayoutNode::Stack { panes, names, custom_names, active: 0 };
        assert(r@->names =~= seq![Seq::empty()]);
        assert(r@->custom_names =~= seq![None]);
        assert(r@->panes =~= seq![pane_id]);
        r
    }

    /// Split the stack containing `target_pane` vertically (left/right). The
    /// stack that was there becomes the left child, a new stack with `new_pane` the
    /// right child. Returns whether the split was performed.
    pub fn split_vertical(&mut self, target_pane: PaneId, new_pane: PaneId) -> (r: bool)
        ensures
            r == old(self)@.has(target_pane),
            final(self)@ == old(self)@.split_at(target_pane, new_pane, Direction::Vertical),
    {
        self.split_at(target_pane, new_pane, Direction::Vertical)
    }

    /// Split the stack containing `target_pane` horizontally (top/bottom). The
    /// stack that was there becomes the top child, a new stack with `new_pane` the
    /// bottom child. Returns whether the split was performed.
    pub fn split_horizontal(&mut self, target_pane: PaneId, new_pane: PaneId) -> (r: bool)
        ensures
            r == old(self)@.has(target_pane),
            final(self)@ == old(self)@.split_at(target_pane, new_pane, Direction::Horizontal),
    {
        self.split_at(target_pane, new_pane, Direction::Horizontal)
    }

    /// Replaces the leaf containing `target_pane` with a split.
    pub fn split_at(&mut self, target_pane: PaneId, new_pane: PaneId, direction: Direction) -> (r:
        bool)
        ensures
            r == old(self)@.has(target_pane),
            final(self)@ == old(self)@.split_at(target_pane, new_pane, direction),
        decreases *old(self),
    {
        match self {
            LayoutNode::Stack { panes, .. } => {
                if find(panes, target_pane).is_some() {
                    let mut whole = LayoutNode::new_stack(new_pane);
                    std::mem::swap(self, &mut whole);
                    *self =
                    LayoutNode::Split {
                        direction,
                        ratio: Ratio::half(),
                        first: Box::new(whole),
                        second: Box::new(LayoutNode::new_stack(new_pane)),
                    };
                    true
                } else {
                    false
                }
            },
            LayoutNode::Split { first, second, .. } => {
                proof {
                    lemma_with_stack_absent(first@, target_pane);
                }
                if first.split_at(target_pane, new_pane, direction) {
                    return true;
                }
                second.split_at(target_pane, new_pane, direction)
            },
        }
    }

    /// Adjust the nearest split around the pane in the given direction by
    /// `delta` units: the first part of the split gains it. The ratio stays within
    /// the permitted range. Returns whether there was such a split.
    pub fn resize(&mut self, pane_id: PaneId, direction: Direction, delta: i64) -> (r: bool)
        ensures
            match old(self)@.resized(pane_id, direction, delta as int) {
                Some(t) => r && final(self)@ == t,
                None => !r && final(self)@ == old(self)@,
            },
        decreases *old(self),
    {
        match self {
            LayoutNode::Stack { .. } => false,
            LayoutNode::Split { direction: own, ratio, first, second } => {
                let in_first = contains_pane(first, pane_id);
                let in_second = contains_pane(second, pane_id);
                if !in_first && !in_second {
                    return false;
                }
                if *own == direction {
                    if in_first && first.resize(pane_id, direction, delta) {
                        return true;
                    }
                    if in_second && second.resize(pane_id, direction, delta) {
                        return true;
                    }
                    *ratio = ratio.nudge(delta);
                    return true;
                }
                if in_first {
                    return first.resize(pane_id, direction, delta);
                }
                second.resize(pane_id, direction, delta)
            },
        }
    }

    /// Get the active pane of the first (leftmost/topmost) stack.
    pub fn active_pane(&self) -> (r: Option<PaneId>)
        requires
            self@.wf(),
        ensures
            r == self@.front(),
        decreases self,
    {
        match self {
            LayoutNode::Stack { panes, active, .. } => {
                if panes.len() == 0 {
                    None
                } else {
                    Some(panes[*active])
                }
            },
            LayoutNode::Split { first, .. } => first.active_pane(),
        }
    }

    /// Remove a pane from the layout. If its stack keeps other panes one of them
    /// is visible; if the stack becomes empty its split gives way to the
    /// sibling. Returns the pane that should receive focus, `None` if the pane is
    /// not there or nothing is left to show.
    pub fn close_pane(&mut self, pane_id: PaneId) -> (r: Option<PaneId>)
        requires
            old(self)@.wf(),
        ensures
            final(self)@ == old(self)@.closed(pane_id),
            r == old(self)@.focus_after_close(pane_id),
            final(self)@.wf(),
        decreases *old(self),
    {
        match self {
            LayoutNode::Stack { panes, names, custom_names, active } => {
                let pos: usize = match find(panes, pane_id) {
                    Some(p) => p,
                    None => {
                        return None;
                    },
                };
                let ghost names0 = names@;
                let ghost customs0 = custom_names@;
                panes.remove(pos);
                if pos < names.len() {
                    names.remove(pos);
                }
                if pos < custom_names.len() {
                    custom_names.remove(pos);
                }
                assert(texts(names@) =~= drop_at(texts(names0), pos as int));
                assert(opt_texts(custom_names@) =~= drop_at(opt_texts(customs0), pos as int));
                if panes.len() == 0 {
                    return None;
                }
                if *active >= panes.len() {
                    *active = panes.len() - 1;
                } else if *active > pos {
                    *active = *active - 1;
                }
                Some(panes[*active])
            },
            LayoutNode::Split { first, second, .. } => {
                let in_first = contains_pane(first, pane_id);
                let in_second = contains_pane(second, pane_id);
                if in_first {
                    let result = first.close_pane(pane_id);
                    if result.is_some() {
                        return result;
                    }
                    let sibling = second.duplicate();
                    *self = sibling;
                    return self.active_pane();
                }
                if in_second {
                    let result = second.close_pane(pane_id);
                    if result.is_some() {
                        return result;
                    }
                    let sibling = first.duplicate();
                    *self = sibling;
                    return self.active_pane();
                }
                None
            },
        }
    }

    /// A copy of the tree.
    pub fn duplicate(&self) -> (r: LayoutNode)
        ensures
            r@ == self@,
        decreases self,
    {
        match self {
            LayoutNode::Stack { panes, names, custom_names, active } => {
                let names2 = copy_names(names);
                let customs2 = copy_custom_names(custom_names);
                LayoutNode::Stack {
                    panes: copy_ids(panes),
                    names: names2,
                    custom_names: customs2,
                    active: *active,
                }
            },
            LayoutNode::Split { direction, ratio, first, second } => LayoutNode::Split {
                direction: *direction,
                ratio: *ratio,
                first: Box::new(first.duplicate()),
                second: Box::new(second.duplicate()),
            },
        }
    }

    /// Add a pane to the stack containing `target_pane` and make it visible.
    /// Returns whether that stack was found.
    pub fn add_to_stack(&mut self, target_pane: PaneId, new_pane: PaneId) -> (r: bool)
        ensures
            r == old(self)@.has(target_pane),
            final(self)@ == old(self)@.stacked(target_pane, new_pane),
        decreases *old(self),
    {
        match self {
            LayoutNode::Stack { panes, names, custom_names, active } => {
                if find(panes, target_pane).is_some() {
                    let ghost names0 = names@;
                    let ghost customs0 = custom_names@;
                    panes.push(new_pane);
                    names.push(String::new());
                    custom_names.push(None);
                    assert(texts(names@) =~= texts(names0).push(Seq::empty()));
                    assert(opt_texts(custom_names@) =~= opt_texts(customs0).push(None));
                    *active = panes.len() - 1;
                    true
                } else {
                    false
                }
            },
            LayoutNode::Split { first, second, .. } => {
                proof {
                    lemma_with_stack_absent(first@, target_pane);
                }
                if first.add_to_stack(target_pane, new_pane) {
                    return true;
                }
                second.add_to_stack(target_pane, new_pane)
            },
        }
    }

    /// Cycle to the next pane in the stack containing `current_pane`, around the
    /// end. Returns the pane that is now visible, `None` if the pane was not
    /// found.
    pub fn stack_next(&mut self, current_pane: PaneId) -> (r: Option<PaneId>)
        ensures
            final(self)@ == old(self)@.turned(current_pane, true),
            r == old(self)@.turned_to(current_pane, true),
        decreases *old(self),
    {
        match self {
            LayoutNode::Stack { panes, active, .. } => {
                let pos: usize = match find(panes, current_pane) {
                    Some(p) => p,
                    None => {
                        return None;
                    },
                };
                if panes.len() <= 1 {
                    return Some(current_pane);
                }
                *active = (pos + 1) % panes.len();
                Some(panes[*active])
            },
            LayoutNode::Split { first, second, .. } => {
                proof {
                    lemma_with_stack_absent(first@, current_pane);
                    lemma_stack_of(first@, current_pane);
                }
                match first.stack_next(current_pane) {
                    Some(p) => Some(p),
                    None => second.stack_next(current_pane),
                }
            },
        }
    }

    /// Cycle to the previous pane in the stack containing `current_pane`, around
    /// the start. Returns the pane that is now visible, `None` if the pane was
    /// not found.
    pub fn stack_prev(&mut self, current_pane: PaneId) -> (r: Option<PaneId>)
        ensures
            final(self)@ == old(self)@.turned(current_pane, false),
            r == old(self)@.turned_to(current_pane, false),
        decreases *old(self),
    {
        match self {
            LayoutNode::Stack { panes, active, .. } => {
                let pos: usize = match find(panes, current_pane) {
                    Some(p) => p,
                    None => {
                        return None;
                    },
                };
                if panes.len() <= 1 {
                    return Some(current_pane);
                }
                *active = if pos == 0 {
                    panes.len() - 1
                } else {
                    pos - 1
                };
                Some(panes[*active])
            },
            LayoutNode::Split { first, second, .. } => {
                proof {
                    lemma_with_stack_absent(first@, current_pane);
                    lemma_stack_of(first@, current_pane);
                }
                match first.stack_prev(current_pane) {
                    Some(p) => Some(p),
                    None => second.stack_prev(current_pane),
                }
            },
        }
    }
}

impl Clone for LayoutNode {
    fn clone(&self) -> (r: Self)
        ensures
            r@ == self@,
    {
        self.duplicate()
    }
}

/// A copy of a list of pane ids.
pub fn copy_ids(v: &[PaneId]) -> (r: Vec<PaneId>)
    ensures
        r@ == v@,
{
    let mut r: Vec<PaneId> = Vec::new();
    let mut i: usize = 0;
    while i < v.len()
        invariant
            i <= v.len(),
            r@ == v@.take(i as int),
        decreases v.len() - i,
    {
        r.push(v[i]);
        assert(v@.take(i as int).push(v@[i as int]) =~= v@.take(i + 1));
        i += 1;
    }
    assert(v@.take(i as int) =~= v@);
    r
}

/// A copy of a list of names.
pub fn copy_names(v: &Vec<String>) -> (r: Vec<String>)
    ensures
        texts(r@) == texts(v@),
{
    let mut r: Vec<String> = Vec::new();
    let mut i: usize = 0;
    while i < v.len()
        invariant
            i <= v.len(),
            texts(r@) == texts(v@).take(i as int),
        decreases v.len() - i,
    {
        let ghost before = r@;
        let name = v[i].clone();
        r.push(name);
        assert(texts(r@) =~= texts(before).push(name@));
        assert(texts(v@).take(i as int).push(v@[i as int]@) =~= texts(v@).take(i + 1));
        i += 1;
    }
    assert(texts(v@).take(i as int) =~= texts(v@));
    r
}

/// A copy of an optional string.
pub fn copy_opt(s: &Option<String>) -> (r: Option<String>)
    ensures
        opt_text(r) == opt_text(*s),
{
    match s {
        Some(t) => Some(t.clone()),
        None => None,
    }
}

/// A copy of a list of optional names.
pub fn copy_custom_names(v: &Vec<Option<String>>) -> (r: Vec<Option<String>>)
    ensures
        opt_texts(r@) == opt_texts(v@),
{
    let mut r: Vec<Option<String>> = Vec::new();
    let mut i: usize = 0;
    while i < v.len()
        invariant
            i <= v.len(),
            opt_texts(r@) == opt_texts(v@).take(i as int),
        decreases v.len() - i,
    {
        let ghost before = r@;
        let name = copy_opt(&v[i]);
        r.push(name);
        assert(opt_texts(r@) =~= opt_texts(before).push(opt_text(name)));
        assert(opt_texts(v@).take(i as int).push(opt_text(v@[i as int])) =~= opt_texts(v@).take(
            i + 1,
        ));
        i += 1;
    }
    assert(opt_texts(v@).take(i as int) =~= opt_texts(v@));
    r
}

// ---------------------------------------------------------------------------
// Pane naming
// ---------------------------------------------------------------------------

/// Set the display name for a pane. Returns whether the pane was found.
pub fn set_pane_name(node: &mut LayoutNode, pane_id: PaneId, name: &str) -> (r: bool)
    ensures
        r == old(node)@.has(pane_id),
        final(node)@ == old(node)@.named(pane_id, name@),
    decreases *old(node),
{
    match node {
        LayoutNode::Stack { panes, names, .. } => {
            match find(panes, pane_id) {
                Some(pos) => {
                    let ghost names0 = names@;
                    while names.len() <= pos
                        invariant
                            names0.len() <= names@.len(),
                            names@.len() <= pos + 1 || names@.len() == names0.len(),
                            forall|i: int|
                                0 <= i < names@.len() ==> texts(names@)[i] == get_or(
                                    texts(names0),
                                    i,
                                    Seq::empty(),
                                ),
                        decreases pos + 1 - names@.len(),
                    {
                        names.push(String::new());
                    }
                    let ghost padded = names@;
                    names.set(pos, name.to_owned());
                    proof {
                        let want = put_padded(texts(names0), pos as int, Seq::empty(), name@);
                        assert forall|i: int| 0 <= i < names@.len() implies texts(names@)[i]
                            == want[i] by {
                            assert(texts(padded)[i] == get_or(texts(names0), i, Seq::empty()));
                        }
                        assert(texts(names@) =~= want);
                    }
                    true
                },
                None => false,
            }
        },
        LayoutNode::Split { first, second, .. } => {
            proof {
                lemma_with_stack_absent(first@, pane_id);
            }
            if set_pane_name(first, pane_id, name) {
                return true;
            }
            set_pane_name(second, pane_id, name)
        },
    }
}

/// Set the user's own name for a pane, which takes the place of the name of the
/// running process. Returns whether the pane was found.
pub fn set_pane_custom_name(node: &mut LayoutNode, pane_id: PaneId, name: &str) -> (r: bool)
    ensures
        r == old(node)@.has(pane_id),
        final(node)@ == old(node)@.custom_named(pane_id, name@),
    decreases *old(node),
{
    match node {
        LayoutNode::Stack { panes, custom_names, .. } => {
            match find(panes, pane_id) {
                Some(pos) => {
                    let ghost names0 = custom_names@;
                    while custom_names.len() <= pos
                        invariant
                            names0.len() <= custom_names@.len(),
                            custom_names@.len() <= pos + 1 || custom_names@.len() == names0.len(),
                            forall|i: int|
                                0 <= i < custom_names@.len() ==> opt_texts(custom_names@)[i]
                                    == get_or(opt_texts(names0), i, None),
                        decreases pos + 1 - custom_names@.len(),
                    {
                        custom_names.push(None);
                    }
                    let ghost padded = custom_names@;
                    custom_names.set(pos, Some(name.to_owned()));
                    proof {
                        let want = put_padded(opt_texts(names0), pos as int, None, Some(name@));
                        assert forall|i: int| 0 <= i < custom_names@.len() implies opt_texts(
                            custom_names@,
                        )[i] == want[i] by {
                            assert(opt_texts(padded)[i] == get_or(opt_texts(names0), i, None));
                        }
                        assert(opt_texts(custom_names@) =~= want);
                    }
                    true
                },
                None => false,
            }
        },
        LayoutNode::Split { first, second, .. } => {
            proof {
                lemma_with_stack_absent(first@, pane_id);
            }
            if set_pane_custom_name(first, pane_id, name) {
                return true;
            }
            set_pane_custom_name(second, pane_id, name)
        },
    }
}

/// Get the user's own name for a pane: `Some(Some(name))` if there is one,
/// `Some(None)` if the pane has none, `None` if the pane was not found.
pub fn get_pane_custom_name(node: &LayoutNode, pane_id: PaneId) -> (r: Option<Option<String>>)
    ensures
        match r {
            Some(n) => node@.custom_name_of(pane_id) == Some(opt_text(n)),
            None => node@.custom_name_of(pane_id) is None,
        },
    decreases node,
{
    match node {
        LayoutNode::Stack { panes, custom_names, .. } => {
            match find(panes, pane_id) {
                Some(pos) => {
                    if pos < custom_names.len() {
                        assert(opt_texts(custom_names@)[pos as int] == opt_text(
                            custom_names@[pos as int],
                        ));
                        Some(copy_opt(&custom_names[pos]))
                    } else {
                        Some(None)
                    }
                },
                None => None,
            }
        },
        LayoutNode::Split { first, second, .. } => {
            proof {
                lemma_stack_of(first@, pane_id);
            }
            match get_pane_custom_name(first, pane_id) {
                Some(n) => Some(n),
                None => get_pane_custom_name(second, pane_id),
            }
        },
    }
}

/// Get the display name for a pane; `None` if the pane was not found.
pub fn get_pane_name(node: &LayoutNode, pane_id: PaneId) -> (r: Option<String>)
    ensures
        opt_text(r) == node@.name_of(pane_id),
    decreases node,
{
    match node {
        LayoutNode::Stack { panes, names, .. } => {
            match find(panes, pane_id) {
                Some(pos) => {
                    if pos < names.len() {
                        assert(texts(names@)[pos as int] == names@[pos as int]@);
                        Some(names[pos].clone())
                    } else {
                        Some(String::new())
                    }
                },
                None => None,
            }
        },
        LayoutNode::Split { first, second, .. } => {
            proof {
                lemma_stack_of(first@, pane_id);
            }
            match get_pane_name(first, pane_id) {
                Some(n) => Some(n),
                None => get_pane_name(second, pane_id),
            }
        },
    }
}

/// Find the display name for a given pane by walking the layout tree; empty
/// where the stack has no name for it, `None` if the pane was not found.
pub fn find_pane_name(node: &LayoutNode, pane_id: PaneId) -> (r: Option<String>)
    ensures
        opt_text(r) == node@.name_of(pane_id),
{
    get_pane_name(node, pane_id)
}

// ---------------------------------------------------------------------------
// Queries
// ---------------------------------------------------------------------------

/// Get all pane ids in the layout, hidden stacked panes included.
pub fn all_pane_ids(node: &LayoutNode) -> (r: Vec<PaneId>)
    ensures
        r@ == node@.ids(),
    decreases node,
{
    match node {
        LayoutNode::Stack { panes, .. } => copy_ids(panes),
        LayoutNode::Split { first, second, .. } => {
            let mut r = all_pane_ids(first);
            let mut rest = all_pane_ids(second);
            r.append(&mut rest);
            r
        },
    }
}

/// Get the visible pane of each stack in the layout.
pub fn active_pane_ids(node: &LayoutNode) -> (r: Vec<PaneId>)
    ensures
        r@ == node@.visible(),
    decreases node,
{
    match node {
        LayoutNode::Stack { panes, active, .. } => {
            let mut r: Vec<PaneId> = Vec::new();
            if *active < panes.len() {
                r.push(panes[*active]);
            }
            r
        },
        LayoutNode::Split { first, second, .. } => {
            let mut r = active_pane_ids(first);
            let mut rest = active_pane_ids(second);
            r.append(&mut rest);
            r
        },
    }
}

/// Find the stack that contains the given pane, as a list of pane ids.
pub fn find_stack_for_pane(node: &LayoutNode, pane_id: PaneId) -> (r: Option<Vec<PaneId>>)
    ensures
        match r {
            Some(v) => node@.stack_of(pane_id) matches Some(s) && s is Stack && v@ == s->panes,
            None => node@.stack_of(pane_id) is None,
        },
    decreases node,
{
    match node {
        LayoutNode::Stack { panes, .. } => {
            if find(panes, pane_id).is_some() {
                Some(copy_ids(panes))
            } else {
                None
            }
        },
        LayoutNode::Split { first, second, .. } => {
            proof {
                lemma_stack_of(first@, pane_id);
            }
            match find_stack_for_pane(first, pane_id) {
                Some(v) => Some(v),
                None => find_stack_for_pane(second, pane_id),
            }
        },
    }
}

/// Find the stack of a given pane: its names, its pane ids and its active index.
/// `None` if the pane is in no stack.
pub fn find_stack_names(node: &LayoutNode, pane_id: PaneId) -> (r: Option<
    (Vec<String>, Vec<PaneId>, usize),
>)
    ensures
        match r {
            Some((names, panes, active)) => node@.stack_of(pane_id) matches Some(s) && s is Stack
                && texts(names@) == s->names && panes@ == s->panes && active == s->active,
            None => node@.stack_of(pane_id) is None,
        },
    decreases node,
{
    match node {
        LayoutNode::Stack { panes, names, active, .. } => {
            if find(panes, pane_id).is_some() {
                Some((copy_names(names), copy_ids(panes), *active))
            } else {
                None
            }
        },
        LayoutNode::Split { first, second, .. } => {
            proof {
                lemma_stack_of(first@, pane_id);
            }
            match find_stack_names(first, pane_id) {
                Some(v) => Some(v),
                None => find_stack_names(second, pane_id),
            }
        },
    }
}

/// Make the given pane the visible one of its stack, in every stack that holds
/// it.
pub fn activate_pane_in_stack(node: &mut LayoutNode, pane_id: PaneId)
    ensures
        final(node)@ == old(node)@.activated(pane_id),
    decreases *old(node),
{
    match node {
        LayoutNode::Stack { panes, active, .. } => {
            match find(panes, pane_id) {
                Some(pos) => {
                    *active = pos;
                },
                None => {},
            }
        },
        LayoutNode::Split { first, second, .. } => {
            activate_pane_in_stack(first, pane_id);
            activate_pane_in_stack(second, pane_id);
        },
    }
}

} // verus!
