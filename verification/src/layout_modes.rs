//! Automatic layouts: from a list of panes to a tree.

use crate::layout::{copy_ids, find, lone, position, Direction, LayoutNode, PaneId, Tree};
use crate::ratio::{
    equal_share, inner_share, side_share, Ratio, HALF_UNITS, MASTER_RATIO_UNITS, ONE,
};
use vstd::prelude::*;

verus! {

/// A way to arrange panes automatically.
pub trait LayoutAlgorithm {
    /// The name of the layout, as characters.
    spec fn label(&self) -> Seq<char>;

    /// The parameters of the layout are in range.
    spec fn valid(&self) -> bool;

    /// The tree that the layout makes of the panes.
    spec fn tree(&self, panes: Seq<PaneId>, active_pane: PaneId) -> Tree;

    /// Human-readable name for this layout mode.
    fn name(&self) -> (r: &str)
        ensures
            r@ == self.label(),
    ;

    /// Build a layout tree from the given pane list. `active_pane` is the
    /// currently focused pane.
    fn build_tree(&self, panes: &[PaneId], active_pane: PaneId) -> (r: LayoutNode)
        requires
            self.valid(),
        ensures
            r@ == self.tree(panes@, active_pane),
    ;
}

/// Binary space partitioning: each pane splits the area of the one before it,
/// alternating between vertical and horizontal directions.
#[derive(Clone, Copy, Debug)]
pub struct BspLayout;

/// One master pane in the center with the others in a left and a right column.
#[derive(Clone, Copy, Debug)]
pub struct MasterLayout {
    /// Index of the master pane; beyond the end means the last pane.
    pub master_idx: usize,
    /// The master's share of the width.
    pub master_ratio: Ratio,
}

/// All panes in a single full-screen stack.
#[derive(Clone, Copy, Debug)]
pub struct MonocleLayout;

/// Rows of equal height with the panes side by side, near to a square.
#[derive(Clone, Copy, Debug)]
pub struct GridLayout;

/// The user has arranged the splits; nothing is rebuilt. Building a tree falls
/// back to binary space partitioning.
#[derive(Clone, Copy, Debug)]
pub struct CustomLayout;

/// Layout mode of a tab. In every mode but `Custom` the tree is rebuilt from the
/// order of the panes whenever panes come or go.
#[derive(Clone, Copy, Debug)]
pub enum LayoutMode {
    Bsp(BspLayout),
    Master(MasterLayout),
    Monocle(MonocleLayout),
    Grid(GridLayout),
    Custom(CustomLayout),
}

// ---------------------------------------------------------------------------
// The trees
// ---------------------------------------------------------------------------

/// The panes from index `i` on, each one cut off the area that its predecessor
/// left.
pub open spec fn bsp_from(panes: Seq<PaneId>, i: int) -> Tree
    decreases panes.len() - i,
{
    if i + 1 >= panes.len() {
        lone(panes[i])
    } else {
        Tree::Split {
            direction: if i % 2 == 0 {
                Direction::Vertical
            } else {
                Direction::Horizontal
            },
            ratio: Ratio { units: HALF_UNITS },
            first: Box::new(lone(panes[i])),
            second: Box::new(bsp_from(panes, i + 1)),
        }
    }
}

/// The panes from index `i` on in equal parts, one after the other.
pub open spec fn line_from(panes: Seq<PaneId>, i: int, direction: Direction) -> Tree
    decreases panes.len() - i,
{
    if i + 1 >= panes.len() {
        lone(panes[i])
    } else {
        Tree::Split {
            direction,
            ratio: equal_share((panes.len() - i) as nat),
            first: Box::new(lone(panes[i])),
            second: Box::new(line_from(panes, i + 1, direction)),
        }
    }
}

/// Every other entry of `s`, from index `start` on.
pub open spec fn every_other(s: Seq<PaneId>, start: int) -> Seq<PaneId> {
    Seq::new(((s.len() - start + 1) / 2) as nat, |k: int| s[2 * k + start])
}

/// The master index, held within the list.
pub open spec fn master_at(idx: usize, len: nat) -> int {
    if idx < len {
        idx as int
    } else {
        len - 1
    }
}

/// The tree of the master layout for two or more panes.
pub open spec fn master_tree(panes: Seq<PaneId>, idx: usize, share: Ratio) -> Tree {
    let at = master_at(idx, panes.len());
    let others = panes.remove(at);
    let left = every_other(others, 0);
    let right = every_other(others, 1);
    if others.len() == 1 {
        Tree::Split {
            direction: Direction::Vertical,
            ratio: share,
            first: Box::new(lone(panes[at])),
            second: Box::new(lone(others[0])),
        }
    } else {
        Tree::Split {
            direction: Direction::Vertical,
            ratio: side_share(share),
            first: Box::new(line_from(left, 0, Direction::Horizontal)),
            second: Box::new(
                Tree::Split {
                    direction: Direction::Vertical,
                    ratio: inner_share(share),
                    first: Box::new(lone(panes[at])),
                    second: Box::new(line_from(right, 0, Direction::Horizontal)),
                },
            ),
        }
    }
}

/// All panes in one stack with `active_pane` visible, the first one if it is not
/// among them.
pub open spec fn one_stack(panes: Seq<PaneId>, active_pane: PaneId) -> Tree {
    Tree::Stack {
        panes,
        names: Seq::new(panes.len(), |i: int| Seq::empty()),
        custom_names: Seq::new(panes.len(), |i: int| None),
        active: match position(panes, active_pane) {
            Some(i) => i as nat,
            None => 0,
        },
    }
}

/// The least number whose square is not below `n`.
pub open spec fn side_of(n: nat, c: nat) -> bool {
    &&& c * c >= n
    &&& c >= 1
    &&& c == 1 || (c - 1) * (c - 1) < n
}

/// The least side of a square that holds `n` panes.
pub open spec fn grid_columns(n: nat) -> nat {
    choose|c: nat| side_of(n, c)
}

/// The panes from index `start` on in rows of `columns`.
pub open spec fn rows_from(panes: Seq<PaneId>, columns: nat, start: int) -> Tree
    decreases panes.len() - start,
{
    if columns == 0 || start + columns >= panes.len() {
        line_from(panes.subrange(start, panes.len() as int), 0, Direction::Vertical)
    } else {
        Tree::Split {
            direction: Direction::Horizontal,
            ratio: equal_share(((panes.len() - start + columns - 1) / (columns as int)) as nat),
            first: Box::new(
                line_from(panes.subrange(start, start + columns), 0, Direction::Vertical),
            ),
            second: Box::new(rows_from(panes, columns, start + columns)),
        }
    }
}

impl LayoutMode {
    /// The parameters of the mode are in range.
    pub open spec fn valid(self) -> bool {
        match self {
            LayoutMode::Master(m) => m.valid(),
            _ => true,
        }
    }

    /// The tree that the mode makes of the panes.
    pub open spec fn tree(self, panes: Seq<PaneId>, active_pane: PaneId) -> Tree {
        match self {
            LayoutMode::Bsp(l) => l.tree(panes, active_pane),
            LayoutMode::Master(l) => l.tree(panes, active_pane),
            LayoutMode::Monocle(l) => l.tree(panes, active_pane),
            LayoutMode::Grid(l) => l.tree(panes, active_pane),
            LayoutMode::Custom(l) => l.tree(panes, active_pane),
        }
    }

    /// The name of the mode, as characters.
    pub open spec fn label(self) -> Seq<char> {
        match self {
            LayoutMode::Bsp(l) => l.label(),
            LayoutMode::Master(l) => l.label(),
            LayoutMode::Monocle(l) => l.label(),
            LayoutMode::Grid(l) => l.label(),
            LayoutMode::Custom(l) => l.label(),
        }
    }
}

// ---------------------------------------------------------------------------
// Building them
// ---------------------------------------------------------------------------

/// A line of panes in equal parts.
fn build_line(panes: &Vec<PaneId>, direction: Direction) -> (r: LayoutNode)
    requires
        panes.len() > 0,
    ensures
        r@ == line_from(panes@, 0, direction),
{
    let mut i: usize = panes.len() - 1;
    let mut node = LayoutNode::new_stack(panes[i]);
    while i > 0
        invariant
            i < panes.len(),
            node@ == line_from(panes@, i as int, direction),
        decreases i,
    {
        i -= 1;
        node =
        LayoutNode::Split {
            direction,
            ratio: Ratio::equal(panes.len() - i),
            first: Box::new(LayoutNode::new_stack(panes[i])),
            second: Box::new(node),
        };
    }
    node
}

impl LayoutAlgorithm for BspLayout {
    open spec fn label(&self) -> Seq<char> {
        "bsp"@
    }

    open spec fn valid(&self) -> bool {
        true
    }

    open spec fn tree(&self, panes: Seq<PaneId>, active_pane: PaneId) -> Tree {
        if panes.len() == 0 {
            lone(active_pane)
        } else {
            bsp_from(panes, 0)
        }
    }

    fn name(&self) -> (r: &str) {
        "bsp"
    }

    fn build_tree(&self, panes: &[PaneId], active_pane: PaneId) -> (r: LayoutNode) {
        if panes.len() == 0 {
            return LayoutNode::new_stack(active_pane);
        }
        let mut i: usize = panes.len() - 1;
        let mut node = LayoutNode::new_stack(panes[i]);
        while i > 0
            invariant
                i < panes.len(),
                node@ == bsp_from(panes@, i as int),
            decreases i,
        {
            i -= 1;
            let direction = if i % 2 == 0 {
                Direction::Vertical
            } else {
                Direction::Horizontal
            };
            node =
            LayoutNode::Split {
                direction,
                ratio: Ratio::half(),
                first: Box::new(LayoutNode::new_stack(panes[i])),
                second: Box::new(node),
            };
        }
        node
    }
}

impl Default for MasterLayout {
    fn default() -> (r: Self)
        ensures
            r.master_idx == 0,
            r.master_ratio == (Ratio { units: MASTER_RATIO_UNITS }),
    {
        MasterLayout { master_idx: 0, master_ratio: Ratio { units: MASTER_RATIO_UNITS } }
    }
}

impl LayoutAlgorithm for MasterLayout {
    open spec fn label(&self) -> Seq<char> {
        "master"@
    }

    /// The master's share is at most the whole width.
    open spec fn valid(&self) -> bool {
        self.master_ratio.units <= ONE
    }

    open spec fn tree(&self, panes: Seq<PaneId>, active_pane: PaneId) -> Tree {
        if panes.len() == 0 {
            lone(active_pane)
        } else if panes.len() == 1 {
            lone(panes[0])
        } else {
            master_tree(panes, self.master_idx, self.master_ratio)
        }
    }

    fn name(&self) -> (r: &str) {
        "master"
    }

    fn build_tree(&self, panes: &[PaneId], active_pane: PaneId) -> (r: LayoutNode) {
        if panes.len() == 0 {
            return LayoutNode::new_stack(active_pane);
        }
        if panes.len() == 1 {
            return LayoutNode::new_stack(panes[0]);
        }
        let at: usize = if self.master_idx < panes.len() {
            self.master_idx
        } else {
            panes.len() - 1
        };
        let share = self.master_ratio;
        let mut others = copy_ids(panes);
        let master = others.remove(at);
        if others.len() == 1 {
            return LayoutNode::Split {
                direction: Direction::Vertical,
                ratio: share,
                first: Box::new(LayoutNode::new_stack(master)),
                second: Box::new(LayoutNode::new_stack(others[0])),
            };
        }
        let mut left: Vec<PaneId> = Vec::new();
        let mut right: Vec<PaneId> = Vec::new();
        let mut i: usize = 0;
        while i < others.len()
            invariant
                i <= others.len(),
                left@ == every_other(others@.take(i as int), 0),
                right@ == every_other(others@.take(i as int), 1),
            decreases others.len() - i,
        {
            if i % 2 == 0 {
                left.push(others[i]);
            } else {
                right.push(others[i]);
            }
            i += 1;
            assert(left@ =~= every_other(others@.take(i as int), 0));
            assert(right@ =~= every_other(others@.take(i as int), 1));
        }
        assert(others@.take(i as int) =~= others@);
        assert(others@ == panes@.remove(at as int));
        assert(master == panes@[at as int]);
        let inner = LayoutNode::Split {
            direction: Direction::Vertical,
            ratio: share.inner(),
            first: Box::new(LayoutNode::new_stack(master)),
            second: Box::new(build_line(&right, Direction::Horizontal)),
        };
        assert(inner@ == *master_tree(panes@, self.master_idx, share)->second);
        LayoutNode::Split {
            direction: Direction::Vertical,
            ratio: share.side(),
            first: Box::new(build_line(&left, Direction::Horizontal)),
            second: Box::new(inner),
        }
    }
}

impl LayoutAlgorithm for MonocleLayout {
    open spec fn label(&self) -> Seq<char> {
        "monocle"@
    }

    open spec fn valid(&self) -> bool {
        true
    }

    open spec fn tree(&self, panes: Seq<PaneId>, active_pane: PaneId) -> Tree {
        if panes.len() == 0 {
            lone(active_pane)
        } else {
            one_stack(panes, active_pane)
        }
    }

    fn name(&self) -> (r: &str) {
        "monocle"
    }

    fn build_tree(&self, panes: &[PaneId], active_pane: PaneId) -> (r: LayoutNode) {
        if panes.len() == 0 {
            return LayoutNode::new_stack(active_pane);
        }
        let ids = copy_ids(panes);
        let active: usize = match find(&ids, active_pane) {
            Some(i) => i,
            None => 0,
        };
        let mut names: Vec<String> = Vec::new();
        let mut custom_names: Vec<Option<String>> = Vec::new();
        let mut i: usize = 0;
        while i < ids.len()
            invariant
                i <= ids.len(),
                names.len() == i,
                custom_names.len() == i,
                forall|k: int| 0 <= k < i ==> (#[trigger] names@[k])@ == Seq::<char>::empty(),
                forall|k: int| 0 <= k < i ==> (#[trigger] custom_names@[k]) is None,
            decreases ids.len() - i,
        {
            names.push(String::new());
            custom_names.push(None);
            i += 1;
        }
        let r = LayoutNode::Stack { panes: ids, names, custom_names, active };
        proof {
            let want = one_stack(panes@, active_pane);
            assert(r@->names =~= want->names);
            assert(r@->custom_names =~= want->custom_names);
        }
        r
    }
}

proof fn lemma_side_unique(n: nat, a: nat, b: nat)
    requires
        side_of(n, a),
        side_of(n, b),
    ensures
        a == b,
{
    if a < b {
        assert(a * a <= (b - 1) * (b - 1)) by (nonlinear_arith)
            requires
                a <= b - 1,
        ;
    }
    if b < a {
        assert(b * b <= (a - 1) * (a - 1)) by (nonlinear_arith)
            requires
                b <= a - 1,
        ;
    }
}

fn square(c: usize) -> (r: u128)
    ensures
        r == c * c,
{
    assert(c * c <= 0xffff_ffff_ffff_ffff * 0xffff_ffff_ffff_ffff) by (nonlinear_arith)
        requires
            0 <= c <= 0xffff_ffff_ffff_ffff,
    ;
    (c as u128) * (c as u128)
}

/// The least side of a square that holds `n` panes.
fn columns_for(n: usize) -> (r: usize)
    requires
        n > 0,
    ensures
        r == grid_columns(n as nat),
        1 <= r <= n,
{
    let mut c: usize = 1;
    while square(c) < n as u128
        invariant
            1 <= c <= n,
            c == 1 || (c - 1) * (c - 1) < n,
        decreases n - c,
    {
        assert(c < n) by {
            assert(c * c >= c) by (nonlinear_arith)
                requires
                    c >= 1,
            ;
        }
        c += 1;
    }
    proof {
        assert(side_of(n as nat, c as nat));
        lemma_side_unique(n as nat, grid_columns(n as nat), c as nat);
    }
    c
}

/// The panes from `start` on in rows of `columns`.
fn build_rows(panes: &Vec<PaneId>, columns: usize, start: usize) -> (r: LayoutNode)
    requires
        start < panes.len(),
        1 <= columns <= panes.len(),
    ensures
        r@ == rows_from(panes@, columns as nat, start as int),
    decreases panes.len() - start,
{
    let left: usize = panes.len() - start;
    if columns >= left {
        let row = slice_of(panes, start, panes.len());
        return build_line(&row, Direction::Vertical);
    }
    let row = slice_of(panes, start, start + columns);
    let rest = build_rows(panes, columns, start + columns);
    proof {
        let l = left as int;
        let c = columns as int;
        assert(l % c == 0 || l / c < l) by (nonlinear_arith)
            requires
                c >= 1,
                l > c,
        {
            if c == 1 {
                assert(l % 1 == 0);
            } else {
                assert(l / c < l);
            }
        }
    }
    let rows: usize = if left % columns == 0 {
        left / columns
    } else {
        left / columns + 1
    };
    proof {
        let l = left as int;
        let c = columns as int;
        vstd::arithmetic::div_mod::lemma_fundamental_div_mod(l, c);
        let q = l / c;
        assert(q >= 1) by (nonlinear_arith)
            requires
                l == c * q + l % c,
                l % c < c,
                l > c,
                c >= 1,
        ;
        if l % c == 0 {
            assert((l + c - 1) / c == q) by {
                assert(l + c - 1 == q * c + (c - 1)) by (nonlinear_arith)
                    requires
                        l == c * q,
                ;
                vstd::arithmetic::div_mod::lemma_fundamental_div_mod_converse(
                    l + c - 1,
                    c,
                    q,
                    c - 1,
                );
            }
        } else {
            assert((l + c - 1) == (q + 1) * c + (l % c - 1)) by (nonlinear_arith)
                requires
                    l == c * q + l % c,
            ;
            vstd::arithmetic::div_mod::lemma_fundamental_div_mod_converse(
                l + c - 1,
                c,
                q + 1,
                l % c - 1,
            );
        }
    }
    LayoutNode::Split {
        direction: Direction::Horizontal,
        ratio: Ratio::equal(rows),
        first: Box::new(build_line(&row, Direction::Vertical)),
        second: Box::new(rest),
    }
}

/// A copy of `v[from..to]`.
fn slice_of(v: &Vec<PaneId>, from: usize, to: usize) -> (r: Vec<PaneId>)
    requires
        from <= to <= v.len(),
    ensures
        r@ == v@.subrange(from as int, to as int),
{
    let mut r: Vec<PaneId> = Vec::new();
    let mut i: usize = from;
    while i < to
        invariant
            from <= i <= to <= v.len(),
            r@ == v@.subrange(from as int, i as int),
        decreases to - i,
    {
        r.push(v[i]);
        i += 1;
        assert(r@ =~= v@.subrange(from as int, i as int));
    }
    r
}

impl LayoutAlgorithm for GridLayout {
    open spec fn label(&self) -> Seq<char> {
        "grid"@
    }

    open spec fn valid(&self) -> bool {
        true
    }

    open spec fn tree(&self, panes: Seq<PaneId>, active_pane: PaneId) -> Tree {
        if panes.len() == 0 {
            lone(active_pane)
        } else {
            rows_from(panes, grid_columns(panes.len()), 0)
        }
    }

    fn name(&self) -> (r: &str) {
        "grid"
    }

    fn build_tree(&self, panes: &[PaneId], active_pane: PaneId) -> (r: LayoutNode) {
        if panes.len() == 0 {
            return LayoutNode::new_stack(active_pane);
        }
        let ids = copy_ids(panes);
        let columns: usize = columns_for(ids.len());
        build_rows(&ids, columns, 0)
    }
}

impl LayoutAlgorithm for CustomLayout {
    open spec fn label(&self) -> Seq<char> {
        "custom"@
    }

    open spec fn valid(&self) -> bool {
        true
    }

    open spec fn tree(&self, panes: Seq<PaneId>, active_pane: PaneId) -> Tree {
        BspLayout.tree(panes, active_pane)
    }

    fn name(&self) -> (r: &str) {
        "custom"
    }

    fn build_tree(&self, panes: &[PaneId], active_pane: PaneId) -> (r: LayoutNode) {
        BspLayout.build_tree(panes, active_pane)
    }
}

impl LayoutMode {
    /// Build a layout tree from the given pane list using the current mode.
    pub fn build_tree(&self, panes: &[PaneId], active_pane: PaneId) -> (r: LayoutNode)
        requires
            self.valid(),
        ensures
            r@ == self.tree(panes@, active_pane),
    {
        match self {
            LayoutMode::Bsp(l) => l.build_tree(panes, active_pane),
            LayoutMode::Master(l) => l.build_tree(panes, active_pane),
            LayoutMode::Monocle(l) => l.build_tree(panes, active_pane),
            LayoutMode::Grid(l) => l.build_tree(panes, active_pane),
            LayoutMode::Custom(l) => l.build_tree(panes, active_pane),
        }
    }

    /// Human-readable name for this layout mode.
    pub fn name(&self) -> (r: &str)
        ensures
            r@ == self.label(),
    {
        match self {
            LayoutMode::Bsp(l) => l.name(),
            LayoutMode::Master(l) => l.name(),
            LayoutMode::Monocle(l) => l.name(),
            LayoutMode::Grid(l) => l.name(),
            LayoutMode::Custom(l) => l.name(),
        }
    }

    /// Cycle to the next automatic layout mode: Bsp, Master, Monocle and back to
    /// Bsp, which also follows Grid and Custom.
    pub fn next(&self) -> (r: LayoutMode)
        ensures
            r == self.following(),
    {
        match self {
            LayoutMode::Bsp(_) => LayoutMode::Master(MasterLayout::default()),
            LayoutMode::Master(_) => LayoutMode::Monocle(MonocleLayout),
            LayoutMode::Monocle(_) => LayoutMode::Bsp(BspLayout),
            LayoutMode::Grid(_) => LayoutMode::Bsp(BspLayout),
            LayoutMode::Custom(_) => LayoutMode::Bsp(BspLayout),
        }
    }

    /// The mode that follows this one in the automatic cycle.
    pub open spec fn following(self) -> LayoutMode {
        match self {
            LayoutMode::Bsp(_) => default_master(),
            LayoutMode::Master(_) => LayoutMode::Monocle(MonocleLayout),
            _ => LayoutMode::Bsp(BspLayout),
        }
    }

    /// Returns `true` if this mode automatically rebuilds the layout tree.
    pub fn is_automatic(&self) -> (r: bool)
        ensures
            r == !(self is Custom),
    {
        match self {
            LayoutMode::Custom(_) => false,
            _ => true,
        }
    }
}

/// The master layout with its default parameters.
pub open spec fn default_master() -> LayoutMode {
    LayoutMode::Master(
        MasterLayout { master_idx: 0, master_ratio: Ratio { units: MASTER_RATIO_UNITS } },
    )
}

impl Default for LayoutMode {
    fn default() -> (r: Self)
        ensures
            r == LayoutMode::Bsp(BspLayout),
    {
        LayoutMode::Bsp(BspLayout)
    }
}

/// The next mode when the user steps through the layouts: Bsp, Master, Monocle,
/// Grid and back to Bsp. Leaving `Custom` starts the cycle at Bsp; Grid returns to
/// `Custom` when an arrangement of the user's own can be restored.
pub fn next_layout_mode(current: &LayoutMode, has_saved_custom: bool) -> (r: LayoutMode)
    ensures
        r == stepped(*current, has_saved_custom),
{
    match current {
        LayoutMode::Custom(_) => LayoutMode::Bsp(BspLayout),
        LayoutMode::Monocle(_) => LayoutMode::Grid(GridLayout),
        LayoutMode::Grid(_) => if has_saved_custom {
            LayoutMode::Custom(CustomLayout)
        } else {
            LayoutMode::Bsp(BspLayout)
        },
        other => other.next(),
    }
}

/// The mode that a step through the layouts leads to.
pub open spec fn stepped(current: LayoutMode, has_saved_custom: bool) -> LayoutMode {
    match current {
        LayoutMode::Bsp(_) => default_master(),
        LayoutMode::Master(_) => LayoutMode::Monocle(MonocleLayout),
        LayoutMode::Monocle(_) => LayoutMode::Grid(GridLayout),
        LayoutMode::Grid(_) => if has_saved_custom {
            LayoutMode::Custom(CustomLayout)
        } else {
            LayoutMode::Bsp(BspLayout)
        },
        LayoutMode::Custom(_) => LayoutMode::Bsp(BspLayout),
    }
}

} // verus!
