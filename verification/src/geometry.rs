//! From a layout tree to screen rectangles, and from rectangles to neighbours.

use crate::layout::{Direction, FocusDirection, LayoutNode, PaneId, Rect, Tree, MIN_PANE_SIZE};
use crate::ratio::{share_of, Ratio};
use vstd::prelude::*;

verus! {

/// `a - b`, not below zero.
pub open spec fn less(a: int, b: int) -> int {
    if a < b {
        0
    } else {
        a - b
    }
}

/// `a`, not above the largest `u16`.
pub open spec fn held(a: int) -> int {
    if a > u16::MAX {
        u16::MAX as int
    } else {
        a
    }
}

/// The cells that the first child of a split gets out of `total`: its share,
/// with both children kept at the minimum size; everything if there is no room
/// for two.
pub open spec fn split_size(total: u16, ratio: Ratio) -> int {
    let share = share_of(total, ratio);
    if total < 2 * MIN_PANE_SIZE {
        total as int
    } else if share < MIN_PANE_SIZE {
        MIN_PANE_SIZE as int
    } else if share > total - MIN_PANE_SIZE {
        total - MIN_PANE_SIZE
    } else {
        share
    }
}

/// The first and the second part of `area` cut in `direction`, `gap` cells apart.
pub open spec fn halves(area: Rect, direction: Direction, ratio: Ratio, gap: u16) -> (Rect, Rect) {
    match direction {
        Direction::Vertical => {
            let usable = less(area.width as int, gap as int);
            let cut = split_size(usable as u16, ratio);
            (
                Rect { x: area.x, y: area.y, width: cut as u16, height: area.height },
                Rect {
                    x: held(held(area.x + cut) + gap) as u16,
                    y: area.y,
                    width: (usable - cut) as u16,
                    height: area.height,
                },
            )
        },
        Direction::Horizontal => {
            let usable = less(area.height as int, gap as int);
            let cut = split_size(usable as u16, ratio);
            (
                Rect { x: area.x, y: area.y, width: area.width, height: cut as u16 },
                Rect {
                    x: area.x,
                    y: held(held(area.y + cut) + gap) as u16,
                    width: area.width,
                    height: (usable - cut) as u16,
                },
            )
        },
    }
}

/// The rectangle of each visible pane when the tree fills `area`.
pub open spec fn placed(t: Tree, area: Rect, gap: u16) -> Seq<(PaneId, Rect)>
    decreases t,
{
    match t {
        Tree::Stack { panes, active, .. } => if active < panes.len() {
            seq![(panes[active as int], area)]
        } else {
            Seq::empty()
        },
        Tree::Split { direction, ratio, first, second } => {
            let (a, b) = halves(area, direction, ratio, gap);
            placed(*first, a, gap) + placed(*second, b, gap)
        },
    }
}

/// The cell at column `x`, row `y` lies in the rectangle.
pub open spec fn covers(r: Rect, x: int, y: int) -> bool {
    &&& r.x <= x < r.x + r.width
    &&& r.y <= y < r.y + r.height
}

/// The rectangle ends within the coordinate range.
pub open spec fn fits_screen(r: Rect) -> bool {
    &&& r.x + r.width <= u16::MAX
    &&& r.y + r.height <= u16::MAX
}

/// The size of the first child in a split, with minimum sizes enforced.
pub fn compute_split_size(total: u16, ratio: Ratio) -> (r: u16)
    ensures
        r == split_size(total, ratio),
        r <= total,
{
    if total < MIN_PANE_SIZE * 2 {
        return total;
    }
    let raw: u16 = ratio.share(total);
    let most: u16 = total - MIN_PANE_SIZE;
    if raw < MIN_PANE_SIZE {
        MIN_PANE_SIZE
    } else if raw > most {
        most
    } else {
        raw
    }
}

/// Divide a rectangle according to a direction and ratio, with minimum sizes
/// enforced. The gap is taken off before dividing; the second part starts after
/// it.
pub fn split_rect(area: Rect, direction: Direction, ratio: Ratio, gap_size: u16) -> (r: (
    Rect,
    Rect,
))
    ensures
        r == halves(area, direction, ratio, gap_size),
{
    match direction {
        Direction::Vertical => {
            let usable: u16 = area.width.saturating_sub(gap_size);
            let cut: u16 = compute_split_size(usable, ratio);
            (
                Rect { x: area.x, y: area.y, width: cut, height: area.height },
                Rect {
                    x: area.x.saturating_add(cut).saturating_add(gap_size),
                    y: area.y,
                    width: usable - cut,
                    height: area.height,
                },
            )
        },
        Direction::Horizontal => {
            let usable: u16 = area.height.saturating_sub(gap_size);
            let cut: u16 = compute_split_size(usable, ratio);
            (
                Rect { x: area.x, y: area.y, width: area.width, height: cut },
                Rect {
                    x: area.x,
                    y: area.y.saturating_add(cut).saturating_add(gap_size),
                    width: area.width,
                    height: usable - cut,
                },
            )
        },
    }
}

/// Compute the screen rectangles for all visible panes in the layout.
pub fn compute_layout(node: &LayoutNode, area: Rect, gap_size: u16) -> (r: Vec<(PaneId, Rect)>)
    ensures
        r@ == placed(node@, area, gap_size),
    decreases node,
{
    match node {
        LayoutNode::Stack { panes, active, .. } => {
            let mut r: Vec<(PaneId, Rect)> = Vec::new();
            if *active < panes.len() {
                r.push((panes[*active], area));
            }
            r
        },
        LayoutNode::Split { direction, ratio, first, second } => {
            let (first_area, second_area) = split_rect(area, *direction, *ratio, gap_size);
            let mut r = compute_layout(first, first_area, gap_size);
            let mut rest = compute_layout(second, second_area, gap_size);
            r.append(&mut rest);
            r
        },
    }
}

// ---------------------------------------------------------------------------
// Directional focus navigation
// ---------------------------------------------------------------------------

/// Twice the horizontal centre of a rectangle.
pub open spec fn centre_x(r: Rect) -> int {
    2 * r.x + r.width
}

/// Twice the vertical centre of a rectangle.
pub open spec fn centre_y(r: Rect) -> int {
    2 * r.y + r.height
}

/// The centre of `other` lies strictly beyond the centre of `from`.
pub open spec fn lies_towards(from: Rect, other: Rect, direction: FocusDirection) -> bool {
    match direction {
        FocusDirection::Left => centre_x(other) < centre_x(from),
        FocusDirection::Right => centre_x(other) > centre_x(from),
        FocusDirection::Up => centre_y(other) < centre_y(from),
        FocusDirection::Down => centre_y(other) > centre_y(from),
    }
}

/// Four times the squared distance between the centres of two rectangles.
pub open spec fn distance(a: Rect, b: Rect) -> int {
    let dx = centre_x(b) - centre_x(a);
    let dy = centre_y(b) - centre_y(a);
    dx * dx + dy * dy
}

/// `i` is the first entry for `id`.
pub open spec fn first_entry(rects: Seq<(PaneId, Rect)>, id: PaneId, i: int) -> bool {
    &&& 0 <= i < rects.len()
    &&& rects[i].0 == id
    &&& forall|j: int| 0 <= j < i ==> (#[trigger] rects[j]).0 != id
}

/// Entry `i` is another pane that lies in `direction` from `from`.
pub open spec fn candidate(
    rects: Seq<(PaneId, Rect)>,
    from: Rect,
    id: PaneId,
    direction: FocusDirection,
    i: int,
) -> bool {
    &&& 0 <= i < rects.len()
    &&& rects[i].0 != id
    &&& lies_towards(from, rects[i].1, direction)
}

/// Entry `i` is the nearest candidate, the earliest one among equally near ones.
pub open spec fn nearest(
    rects: Seq<(PaneId, Rect)>,
    from: Rect,
    id: PaneId,
    direction: FocusDirection,
    i: int,
) -> bool {
    &&& candidate(rects, from, id, direction, i)
    &&& forall|j: int| #[trigger]
        candidate(rects, from, id, direction, j) ==> distance(from, rects[i].1) < distance(
            from,
            rects[j].1,
        ) || (distance(from, rects[i].1) == distance(from, rects[j].1) && i <= j)
}

/// `r` is the answer of a search for the neighbour of `id` in `direction`.
pub open spec fn is_neighbor(
    rects: Seq<(PaneId, Rect)>,
    id: PaneId,
    direction: FocusDirection,
    r: Option<PaneId>,
) -> bool {
    match r {
        Some(found) => exists|c: int, i: int| #[trigger]
            first_entry(rects, id, c) && #[trigger] nearest(
                rects,
                rects[c].1,
                id,
                direction,
                i,
            ) && rects[i].0 == found,
        None => forall|c: int, i: int| #[trigger]
            first_entry(rects, id, c) ==> !(#[trigger] candidate(
                rects,
                rects[c].1,
                id,
                direction,
                i,
            )),
    }
}

/// The squared distance between two centres, doubled coordinates.
fn distance_between(a: Rect, b: Rect) -> (r: i64)
    ensures
        r == distance(a, b),
        r >= 0,
{
    let dx: i64 = (2 * b.x as i64 + b.width as i64) - (2 * a.x as i64 + a.width as i64);
    let dy: i64 = (2 * b.y as i64 + b.height as i64) - (2 * a.y as i64 + a.height as i64);
    assert(0 <= dx * dx <= 200000 * 200000) by (nonlinear_arith)
        requires
            -200000 <= dx <= 200000,
    ;
    assert(0 <= dy * dy <= 200000 * 200000) by (nonlinear_arith)
        requires
            -200000 <= dy <= 200000,
    ;
    dx * dx + dy * dy
}

/// Whether `other` lies in the given direction from `from`.
fn is_towards(from: Rect, other: Rect, direction: FocusDirection) -> (r: bool)
    ensures
        r == lies_towards(from, other, direction),
{
    let fx: i64 = 2 * from.x as i64 + from.width as i64;
    let fy: i64 = 2 * from.y as i64 + from.height as i64;
    let ox: i64 = 2 * other.x as i64 + other.width as i64;
    let oy: i64 = 2 * other.y as i64 + other.height as i64;
    match direction {
        FocusDirection::Left => ox < fx,
        FocusDirection::Right => ox > fx,
        FocusDirection::Up => oy < fy,
        FocusDirection::Down => oy > fy,
    }
}

/// The rectangle of the first entry for `id`.
pub fn entry_of(rects: &Vec<(PaneId, Rect)>, id: PaneId) -> (r: Option<Rect>)
    ensures
        match r {
            Some(found) => exists|c: int| #[trigger]
                first_entry(rects@, id, c) && rects@[c].1 == found,
            None => forall|c: int| !(#[trigger] first_entry(rects@, id, c)),
        },
{
    let mut i: usize = 0;
    while i < rects.len()
        invariant
            i <= rects.len(),
            forall|j: int| 0 <= j < i ==> (#[trigger] rects@[j]).0 != id,
        decreases rects.len() - i,
    {
        if rects[i].0 == id {
            assert(first_entry(rects@, id, i as int));
            return Some(rects[i].1);
        }
        i += 1;
    }
    None
}

/// Find the neighbor pane when moving in `direction` from `current_pane`: the
/// visible pane strictly in that direction whose centre is nearest.
pub fn find_neighbor(
    layout: &LayoutNode,
    area: Rect,
    current_pane: PaneId,
    direction: FocusDirection,
    gap_size: u16,
) -> (r: Option<PaneId>)
    ensures
        is_neighbor(placed(layout@, area, gap_size), current_pane, direction, r),
{
    let rects = compute_layout(layout, area, gap_size);
    let from: Rect = match entry_of(&rects, current_pane) {
        Some(r) => r,
        None => {
            return None;
        },
    };
    let ghost c = choose|c: int| #[trigger]
        first_entry(rects@, current_pane, c) && rects@[c].1 == from;
    let mut best: Option<usize> = None;
    let mut best_distance: i64 = 0;
    let mut i: usize = 0;
    while i < rects.len()
        invariant
            i <= rects.len(),
            match best {
                Some(b) => {
                    &&& b < i
                    &&& best_distance == distance(from, rects@[b as int].1)
                    &&& candidate(rects@, from, current_pane, direction, b as int)
                    &&& forall|j: int|
                        j < i && #[trigger] candidate(rects@, from, current_pane, direction, j)
                            ==> best_distance < distance(from, rects@[j].1) || (best_distance
                            == distance(from, rects@[j].1) && b <= j)
                },
                None => forall|j: int|
                    j < i ==> !(#[trigger] candidate(rects@, from, current_pane, direction, j)),
            },
        decreases rects.len() - i,
    {
        if rects[i].0 != current_pane && is_towards(from, rects[i].1, direction) {
            let d: i64 = distance_between(from, rects[i].1);
            if best.is_none() || d < best_distance {
                best = Some(i);
                best_distance = d;
            }
        }
        i += 1;
    }
    match best {
        Some(b) => {
            assert(nearest(rects@, rects@[c].1, current_pane, direction, b as int));
            Some(rects[b].0)
        },
        None => {
            assert forall|c2: int, j: int| #[trigger]
                first_entry(rects@, current_pane, c2) implies !(#[trigger] candidate(
                rects@,
                rects@[c2].1,
                current_pane,
                direction,
                j,
            )) by {
                if c2 < c {
                    assert(rects@[c2].0 != current_pane);
                }
                if c < c2 {
                    assert(rects@[c].0 != current_pane);
                }
            }
            None
        },
    }
}

// ---------------------------------------------------------------------------
// Laws
// ---------------------------------------------------------------------------

/// Every visible pane gets one rectangle, in the order of the tree, and nothing
/// else does.
pub proof fn law_rects_list_the_visible_panes(t: Tree, area: Rect, gap: u16)
    ensures
        placed(t, area, gap).len() == t.visible().len(),
        forall|i: int|
            0 <= i < t.visible().len() ==> (#[trigger] placed(t, area, gap)[i]).0 == t.visible()[i],
    decreases t,
{
    match t {
        Tree::Split { direction, ratio, first, second } => {
            let (a, b) = halves(area, direction, ratio, gap);
            law_rects_list_the_visible_panes(*first, a, gap);
            law_rects_list_the_visible_panes(*second, b, gap);
        },
        Tree::Stack { .. } => {},
    }
}

/// The two parts of a cut lie inside the area, on either side of the cut, and
/// without a gap every cell is in one of them.
proof fn lemma_halves(area: Rect, direction: Direction, ratio: Ratio, gap: u16)
    requires
        fits_screen(area),
    ensures
        ({
            let (a, b) = halves(area, direction, ratio, gap);
            &&& fits_screen(a)
            &&& forall|x: int, y: int| #[trigger] covers(a, x, y) ==> covers(area, x, y)
            &&& forall|x: int, y: int| #[trigger]
                covers(b, x, y) ==> covers(area, x, y) && fits_screen(b)
            &&& forall|x: int, y: int| !(#[trigger] covers(a, x, y) && covers(b, x, y))
            &&& gap == 0 ==> fits_screen(b) && forall|x: int, y: int| #[trigger]
                covers(area, x, y) ==> covers(a, x, y) || covers(b, x, y)
        }),
{
}

/// A rectangle that ends beyond the coordinate range after a cut has no cell, and
/// neither has anything that is placed in it.
proof fn lemma_nothing_placed_in_nothing(t: Tree, area: Rect, gap: u16, i: int, x: int, y: int)
    requires
        area.width == 0 || area.height == 0,
        0 <= i < placed(t, area, gap).len(),
    ensures
        !covers(placed(t, area, gap)[i].1, x, y),
    decreases t,
{
    match t {
        Tree::Split { direction, ratio, first, second } => {
            let (a, b) = halves(area, direction, ratio, gap);
            let n = placed(*first, a, gap).len();
            if i < n {
                lemma_nothing_placed_in_nothing(*first, a, gap, i, x, y);
            } else {
                lemma_nothing_placed_in_nothing(*second, b, gap, i - n, x, y);
            }
        },
        Tree::Stack { .. } => {},
    }
}

/// No pane is drawn outside the area that the layout was given.
pub proof fn law_rects_stay_inside(t: Tree, area: Rect, gap: u16, i: int, x: int, y: int)
    requires
        fits_screen(area),
        0 <= i < placed(t, area, gap).len(),
        covers(placed(t, area, gap)[i].1, x, y),
    ensures
        covers(area, x, y),
    decreases t,
{
    match t {
        Tree::Split { direction, ratio, first, second } => {
            lemma_halves(area, direction, ratio, gap);
            let (a, b) = halves(area, direction, ratio, gap);
            let n = placed(*first, a, gap).len();
            if i < n {
                law_rects_stay_inside(*first, a, gap, i, x, y);
            } else {
                assert(placed(t, area, gap)[i] == placed(*second, b, gap)[i - n]);
                if b.width == 0 || b.height == 0 {
                    lemma_nothing_placed_in_nothing(*second, b, gap, i - n, x, y);
                } else {
                    assert(covers(b, b.x as int, b.y as int));
                    law_rects_stay_inside(*second, b, gap, i - n, x, y);
                }
            }
        },
        Tree::Stack { .. } => {},
    }
}

/// No two panes share a cell of the screen.
pub proof fn law_rects_do_not_overlap(
    t: Tree,
    area: Rect,
    gap: u16,
    i: int,
    j: int,
    x: int,
    y: int,
)
    requires
        fits_screen(area),
        0 <= i < j < placed(t, area, gap).len(),
    ensures
        !(covers(placed(t, area, gap)[i].1, x, y) && covers(placed(t, area, gap)[j].1, x, y)),
    decreases t,
{
    match t {
        Tree::Split { direction, ratio, first, second } => {
            lemma_halves(area, direction, ratio, gap);
            let (a, b) = halves(area, direction, ratio, gap);
            let n = placed(*first, a, gap).len();
            let whole = placed(t, area, gap);
            let hollow = b.width == 0 || b.height == 0;
            assert(!hollow ==> covers(b, b.x as int, b.y as int));
            if j < n {
                law_rects_do_not_overlap(*first, a, gap, i, j, x, y);
            } else if i >= n {
                assert(whole[i] == placed(*second, b, gap)[i - n]);
                assert(whole[j] == placed(*second, b, gap)[j - n]);
                if hollow {
                    lemma_nothing_placed_in_nothing(*second, b, gap, i - n, x, y);
                } else {
                    law_rects_do_not_overlap(*second, b, gap, i - n, j - n, x, y);
                }
            } else {
                assert(whole[j] == placed(*second, b, gap)[j - n]);
                if covers(whole[i].1, x, y) && covers(whole[j].1, x, y) {
                    law_rects_stay_inside(*first, a, gap, i, x, y);
                    if hollow {
                        lemma_nothing_placed_in_nothing(*second, b, gap, j - n, x, y);
                    } else {
                        law_rects_stay_inside(*second, b, gap, j - n, x, y);
                    }
                }
            }
        },
        Tree::Stack { .. } => {},
    }
}

/// Without gaps the panes fill the area: every cell of it belongs to a pane.
pub proof fn law_rects_fill_the_area(t: Tree, area: Rect, x: int, y: int)
    requires
        fits_screen(area),
        t.wf(),
        t.no_empty_stack(),
        covers(area, x, y),
    ensures
        exists|i: int|
            0 <= i < placed(t, area, 0).len() && covers(#[trigger] placed(t, area, 0)[i].1, x, y),
    decreases t,
{
    match t {
        Tree::Split { direction, ratio, first, second } => {
            lemma_halves(area, direction, ratio, 0);
            let (a, b) = halves(area, direction, ratio, 0);
            let n = placed(*first, a, 0).len();
            let whole = placed(t, area, 0);
            if covers(a, x, y) {
                law_rects_fill_the_area(*first, a, x, y);
                let i = choose|i: int|
                    0 <= i < placed(*first, a, 0).len() && covers(
                        #[trigger] placed(*first, a, 0)[i].1,
                        x,
                        y,
                    );
                assert(whole[i] == placed(*first, a, 0)[i]);
            } else {
                law_rects_fill_the_area(*second, b, x, y);
                let i = choose|i: int|
                    0 <= i < placed(*second, b, 0).len() && covers(
                        #[trigger] placed(*second, b, 0)[i].1,
                        x,
                        y,
                    );
                assert(whole[n + i] == placed(*second, b, 0)[i]);
            }
        },
        Tree::Stack { panes, active, .. } => {
            assert(placed(t, area, 0)[0].1 == area);
        },
    }
}

/// With room for two panes in the direction of the cut, both parts get at least
/// the minimum size.
pub proof fn law_cuts_keep_the_minimum_size(
    area: Rect,
    direction: Direction,
    ratio: Ratio,
    gap: u16,
)
    requires
        direction is Vertical ==> area.width >= gap + 2 * MIN_PANE_SIZE,
        direction is Horizontal ==> area.height >= gap + 2 * MIN_PANE_SIZE,
    ensures
        ({
            let (a, b) = halves(area, direction, ratio, gap);
            &&& direction is Vertical ==> a.width >= MIN_PANE_SIZE && b.width >= MIN_PANE_SIZE
            &&& direction is Horizontal ==> a.height >= MIN_PANE_SIZE && b.height >= MIN_PANE_SIZE
        }),
{
}

/// Moving back is possible: whatever lies in one direction has the place that it
/// was reached from in the opposite one.
pub proof fn law_directions_are_opposite(a: Rect, b: Rect)
    ensures
        lies_towards(a, b, FocusDirection::Left) == lies_towards(b, a, FocusDirection::Right),
        lies_towards(a, b, FocusDirection::Up) == lies_towards(b, a, FocusDirection::Down),
        distance(a, b) == distance(b, a),
{
    assert(distance(a, b) == distance(b, a)) by (nonlinear_arith);
}

} // verus!
