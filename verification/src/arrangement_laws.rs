//! What working on an arrangement does on the screen: where panes end up, which of them
//! move, and which stay where they are.

use crate::geometry::{halves, placed, split_size};
use crate::layout::{law_has_is_membership, Direction, PaneId, Rect, Tree, MIN_PANE_SIZE};
use crate::ratio::{
    grain, lemma_grain, nearest24, nudged, Ratio, HALF_UNITS, MAX_RATIO_UNITS, MIN_RATIO_UNITS, ONE,
};
use vstd::arithmetic::div_mod::lemma_fundamental_div_mod;
use vstd::prelude::*;

verus! {

// ---------------------------------------------------------------------------
// Ratios
// ---------------------------------------------------------------------------

/// Rounding is off by half of the last digit at most.
pub(crate) proof fn lemma_rounding(num: nat, den: nat)
    requires
        den > 0,
    ensures
        ({
            let off = nearest24(num, den) * den - num;
            &&& 2 * off <= den || 2 * off * 8388608 <= num
            &&& -2 * off <= den || -2 * off * 8388608 <= num
        }),
{
    let whole = num / den;
    let g = grain(whole);
    let q = whole / g;
    let rest = (whole % g) * den + num % den;
    lemma_grain(whole);
    lemma_fundamental_div_mod(num as int, den as int);
    lemma_fundamental_div_mod(whole as int, g as int);
    let m = whole % g;
    assert(den * whole == q * g * den + m * den) by (nonlinear_arith)
        requires
            whole == g * q + m,
    ;
    assert(num == q * g * den + rest);
    assert(0 <= rest < g * den) by (nonlinear_arith)
        requires
            rest == m * den + num % den,
            0 <= m <= g - 1,
            0 <= num % den < den,
    ;
    let off = nearest24(num, den) * den - num;
    assert((q + 1) * g * den == q * g * den + g * den) by (nonlinear_arith);
    assert(2 * off <= g * den && -2 * off <= g * den);
    if g == 1 {
        assert(g * den == den);
    } else {
        assert(g * den * 8388608 <= num) by (nonlinear_arith)
            requires
                g * 8388608 <= whole,
                num == den * whole + num % den,
                num % den >= 0,
                den > 0,
        ;
        assert(2 * off * 8388608 <= g * den * 8388608) by (nonlinear_arith)
            requires
                2 * off <= g * den,
        ;
        assert(-2 * off * 8388608 <= g * den * 8388608) by (nonlinear_arith)
            requires
                -2 * off <= g * den,
        ;
    }
}

/// A nudged ratio is moved by the amount, up to rounding in the last of 24 digits, and stops
/// at a tenth on either side.
pub proof fn law_a_nudge_moves_the_ratio_by_the_amount(from: Ratio, by: int)
    ensures
        ({
            let aim = if from.units + by < MIN_RATIO_UNITS {
                MIN_RATIO_UNITS as int
            } else if from.units + by > MAX_RATIO_UNITS {
                MAX_RATIO_UNITS as int
            } else {
                from.units + by
            };
            -65536 <= nudged(from, by).units - aim <= 65536
        }),
{
    let sum = from.units + by;
    if sum >= 0 {
        lemma_rounding(sum as nat, 1);
    }
}

/// A cut gives the first part its share of the cells, to the nearest one, as far as both
/// parts keep the minimum size; the second part gets the rest.
pub proof fn law_a_cut_gives_the_first_part_its_share(total: u16, ratio: Ratio)
    requires
        total >= 2 * MIN_PANE_SIZE,
        ratio.units <= ONE,
    ensures
        ({
            let least = MIN_PANE_SIZE * ONE;
            let most = (total - MIN_PANE_SIZE) * ONE;
            let share = total * ratio.units;
            let aim = if share < least {
                least
            } else if share > most {
                most
            } else {
                share
            };
            // Half a cell, and the rounding of the product.
            -(HALF_UNITS + 8589934592) <= split_size(total, ratio) * ONE - aim <= HALF_UNITS
                + 8589934592
        }),
{
    let share = total * ratio.units;
    assert(0 <= share <= 65535 * 1099511627776) by (nonlinear_arith)
        requires
            share == total * ratio.units,
            0 <= total <= 65535,
            0 <= ratio.units <= 1099511627776,
    ;
    lemma_rounding(share as nat, 1);
    let p = nearest24(share as nat, 1) as int;
    lemma_fundamental_div_mod(p + HALF_UNITS, ONE as int);
}

// ---------------------------------------------------------------------------
// Resizing
// ---------------------------------------------------------------------------

/// The part of an arrangement that a path leads to: at each split to the second half for
/// `true`, and to the first for `false`.
pub open spec fn part(t: Tree, path: Seq<bool>) -> Option<Tree>
    decreases path.len(),
{
    if path.len() == 0 {
        Some(t)
    } else {
        match t {
            Tree::Split { first, second, .. } => part(
                if path[0] {
                    *second
                } else {
                    *first
                },
                path.skip(1),
            ),
            Tree::Stack { .. } => None,
        }
    }
}

/// The part is a split in a direction with the pane in one of its halves.
pub open spec fn splits_around(p: Option<Tree>, id: PaneId, direction: Direction) -> bool {
    match p {
        Some(Tree::Split { direction: own, first, second, .. }) => own == direction && (
        first.ids().contains(id) || second.ids().contains(id)),
        _ => false,
    }
}

/// Where the part differs between two arrangements, it is a pane of the part at the path.
pub(crate) open spec fn same_but_at(t: Tree, r: Tree, path: Seq<bool>) -> bool
    decreases path.len(),
{
    if path.len() == 0 {
        true
    } else {
        match (t, r) {
            (
                Tree::Split { direction: d, ratio: a, first: f, second: s },
                Tree::Split { direction: e, ratio: b, first: g, second: u },
            ) => d == e && a == b && if path[0] {
                f == g && same_but_at(*s, *u, path.skip(1))
            } else {
                s == u && same_but_at(*f, *g, path.skip(1))
            },
            _ => false,
        }
    }
}

pub(crate) proof fn lemma_elsewhere(t: Tree, r: Tree, path: Seq<bool>, q: Seq<bool>)
    requires
        same_but_at(t, r, path),
        !q.is_prefix_of(path),
        !path.is_prefix_of(q),
    ensures
        part(r, q) == part(t, q),
    decreases path.len(),
{
    if path.len() > 0 && q.len() > 0 {
        if q[0] == path[0] {
            let a = path.skip(1);
            let b = q.skip(1);
            if b.is_prefix_of(a) {
                assert(q =~= path.subrange(0, q.len() as int)) by {
                    assert forall|k: int| 0 <= k < q.len() implies q[k] == path[k] by {
                        if k > 0 {
                            assert(b[k - 1] == a.subrange(0, b.len() as int)[k - 1]);
                        }
                    }
                }
            }
            if a.is_prefix_of(b) {
                assert(path =~= q.subrange(0, path.len() as int)) by {
                    assert forall|k: int| 0 <= k < path.len() implies path[k] == q[k] by {
                        if k > 0 {
                            assert(a[k - 1] == b.subrange(0, a.len() as int)[k - 1]);
                        }
                    }
                }
            }
            match (t, r) {
                (
                    Tree::Split { first: f, second: s, .. },
                    Tree::Split { first: g, second: u, .. },
                ) => {
                    if path[0] {
                        lemma_elsewhere(*s, *u, a, b);
                    } else {
                        lemma_elsewhere(*f, *g, a, b);
                    }
                },
                _ => {},
            }
        }
    } else {
        assert(path.len() == 0 ==> path =~= q.subrange(0, 0));
        assert(q.len() == 0 ==> q =~= path.subrange(0, 0));
    }
}

/// The part is a split with the ratio and the direction that another one has.
pub open spec fn cut_alike(a: Option<Tree>, b: Option<Tree>) -> bool {
    match (a, b) {
        (
            Some(Tree::Split { direction: d, ratio: x, .. }),
            Some(Tree::Split { direction: e, ratio: y, .. }),
        ) => d == e && x == y,
        _ => false,
    }
}

pub(crate) proof fn lemma_on_the_way(t: Tree, r: Tree, path: Seq<bool>, q: Seq<bool>)
    requires
        same_but_at(t, r, path),
        q.is_prefix_of(path),
        q.len() < path.len(),
    ensures
        cut_alike(part(t, q), part(r, q)),
    decreases path.len(),
{
    if q.len() > 0 {
        let a = path.skip(1);
        let b = q.skip(1);
        assert(q[0] == path.subrange(0, q.len() as int)[0]);
        assert(b =~= a.subrange(0, b.len() as int)) by {
            assert forall|k: int| 0 <= k < b.len() implies b[k] == a[k] by {
                assert(q[k + 1] == path.subrange(0, q.len() as int)[k + 1]);
            }
        }
        match (t, r) {
            (
                Tree::Split { first: f, second: s, .. },
                Tree::Split { first: g, second: u, .. },
            ) => {
                if path[0] {
                    lemma_on_the_way(*s, *u, a, b);
                } else {
                    lemma_on_the_way(*f, *g, a, b);
                }
            },
            _ => {},
        }
    }
}

/// The panes that are not in the part at the path keep their rectangles.
proof fn lemma_rects_elsewhere(t: Tree, r: Tree, path: Seq<bool>, area: Rect, gap: u16, i: int)
    requires
        same_but_at(t, r, path),
        part(t, path) is Some,
        part(r, path) is Some,
        part(t, path)->0.visible().len() == part(r, path)->0.visible().len(),
        0 <= i < placed(t, area, gap).len(),
        !part(t, path)->0.ids().contains(placed(t, area, gap)[i].0),
    ensures
        placed(r, area, gap).len() == placed(t, area, gap).len(),
        placed(r, area, gap)[i] == placed(t, area, gap)[i],
    decreases path.len(),
{
    lemma_same_count(t, r, path, area, gap);
    if path.len() == 0 {
        lemma_placed_is_visible(t, area, gap, i);
    } else {
        match (t, r) {
            (
                Tree::Split { direction, ratio, first: f, second: s },
                Tree::Split { first: g, second: u, .. },
            ) => {
                let (a, b) = halves(area, direction, ratio, gap);
                let n = placed(*f, a, gap).len();
                let next = path.skip(1);
                if path[0] {
                    if i >= n {
                        lemma_rects_elsewhere(*s, *u, next, b, gap, i - n);
                    }
                } else {
                    lemma_same_count(*f, *g, next, a, gap);
                    if i < n {
                        lemma_rects_elsewhere(*f, *g, next, a, gap, i);
                    }
                }
            },
            _ => {},
        }
    }
}

proof fn lemma_same_count(t: Tree, r: Tree, path: Seq<bool>, area: Rect, gap: u16)
    requires
        same_but_at(t, r, path),
        part(t, path) is Some,
        part(r, path) is Some,
        part(t, path)->0.visible().len() == part(r, path)->0.visible().len(),
    ensures
        placed(r, area, gap).len() == placed(t, area, gap).len(),
    decreases path.len(),
{
    if path.len() == 0 {
        crate::geometry::law_rects_list_the_visible_panes(t, area, gap);
        crate::geometry::law_rects_list_the_visible_panes(r, area, gap);
    } else {
        match (t, r) {
            (
                Tree::Split { direction, ratio, first: f, second: s },
                Tree::Split { first: g, second: u, .. },
            ) => {
                let (a, b) = halves(area, direction, ratio, gap);
                if path[0] {
                    lemma_same_count(*s, *u, path.skip(1), b, gap);
                } else {
                    lemma_same_count(*f, *g, path.skip(1), a, gap);
                }
            },
            _ => {},
        }
    }
}

/// Every pane that is placed is one of the arrangement.
proof fn lemma_placed_is_visible(t: Tree, area: Rect, gap: u16, i: int)
    requires
        0 <= i < placed(t, area, gap).len(),
    ensures
        t.ids().contains(placed(t, area, gap)[i].0),
    decreases t,
{
    match t {
        Tree::Split { direction, ratio, first, second } => {
            let (a, b) = halves(area, direction, ratio, gap);
            let n = placed(*first, a, gap).len();
            if i < n {
                lemma_placed_is_visible(*first, a, gap, i);
            } else {
                lemma_placed_is_visible(*second, b, gap, i - n);
            }
            lemma_in_either(first.ids(), second.ids(), placed(t, area, gap)[i].0);
        },
        Tree::Stack { panes, active, .. } => {
            assert(panes[active as int] == placed(t, area, gap)[i].0);
        },
    }
}

pub(crate) proof fn lemma_in_either(a: Seq<PaneId>, b: Seq<PaneId>, id: PaneId)
    ensures
        (a + b).contains(id) == (a.contains(id) || b.contains(id)),
{
    if a.contains(id) {
        let i = choose|i: int| 0 <= i < a.len() && a[i] == id;
        assert((a + b)[i] == id);
    }
    if b.contains(id) {
        let i = choose|i: int| 0 <= i < b.len() && b[i] == id;
        assert((a + b)[a.len() + i] == id);
    }
}

pub(crate) proof fn lemma_apart(a: Seq<PaneId>, b: Seq<PaneId>, id: PaneId)
    requires
        (a + b).no_duplicates(),
    ensures
        !(a.contains(id) && b.contains(id)),
        a.no_duplicates(),
        b.no_duplicates(),
{
    let all = a + b;
    if a.contains(id) && b.contains(id) {
        let i = choose|i: int| 0 <= i < a.len() && a[i] == id;
        let j = choose|j: int| 0 <= j < b.len() && b[j] == id;
        assert(all[i] == all[a.len() + j]);
    }
    assert forall|i: int, j: int| 0 <= i < a.len() && 0 <= j < a.len() && i != j implies a[i]
        != a[j] by {
        assert(all[i] != all[j]);
    }
    assert forall|i: int, j: int| 0 <= i < b.len() && 0 <= j < b.len() && i != j implies b[i]
        != b[j] by {
        assert(all[a.len() + i] != all[a.len() + j]);
    }
}

proof fn lemma_no_split_without_the_pane(t: Tree, id: PaneId, direction: Direction, q: Seq<bool>)
    requires
        !t.has(id),
    ensures
        !splits_around(part(t, q), id, direction),
    decreases q.len(),
{
    match t {
        Tree::Split { first, second, .. } => {
            if q.len() == 0 {
                law_has_is_membership(*first, id);
                law_has_is_membership(*second, id);
            } else if q[0] {
                lemma_no_split_without_the_pane(*second, id, direction, q.skip(1));
            } else {
                lemma_no_split_without_the_pane(*first, id, direction, q.skip(1));
            }
        },
        Tree::Stack { .. } => {},
    }
}

/// Without a resize there is no split in the direction around the pane.
proof fn lemma_nothing_to_resize(
    t: Tree,
    id: PaneId,
    direction: Direction,
    delta: int,
    q: Seq<bool>,
)
    requires
        t.ids().no_duplicates(),
        t.resized(id, direction, delta) is None,
    ensures
        !splits_around(part(t, q), id, direction),
    decreases t,
{
    match t {
        Tree::Split { direction: own, first, second, .. } => {
            lemma_apart(first.ids(), second.ids(), id);
            law_has_is_membership(*first, id);
            law_has_is_membership(*second, id);
            if q.len() > 0 {
                let half = if q[0] {
                    *second
                } else {
                    *first
                };
                if half.has(id) {
                    lemma_nothing_to_resize(half, id, direction, delta, q.skip(1));
                } else {
                    lemma_no_split_without_the_pane(half, id, direction, q.skip(1));
                }
            }
        },
        Tree::Stack { .. } => {},
    }
}

proof fn lemma_resized_at(t: Tree, id: PaneId, direction: Direction, delta: int) -> (path: Seq<
    bool,
>)
    requires
        t.ids().no_duplicates(),
        t.resized(id, direction, delta) is Some,
    ensures
        ({
            let r = t.resized(id, direction, delta)->0;
            &&& same_but_at(t, r, path)
            &&& splits_around(part(t, path), id, direction)
            &&& forall|q: Seq<bool>|
                q.len() > path.len() && #[trigger] path.is_prefix_of(q) ==> !splits_around(
                    part(t, q),
                    id,
                    direction,
                )
            &&& match (part(t, path), part(r, path)) {
                (
                    Some(Tree::Split { direction: d, ratio: a, first: f, second: s }),
                    Some(Tree::Split { direction: e, ratio: b, first: g, second: u }),
                ) => d == e && f == g && s == u && b == nudged(a, delta),
                _ => false,
            }
        }),
    decreases t,
{
    match t {
        Tree::Split { direction: own, ratio, first, second } => {
            lemma_apart(first.ids(), second.ids(), id);
            law_has_is_membership(*first, id);
            law_has_is_membership(*second, id);
            let deeper_first = first.has(id) && first.resized(id, direction, delta) is Some;
            let deeper_second = second.has(id) && second.resized(id, direction, delta) is Some;
            if deeper_first || deeper_second {
                let half = if deeper_first {
                    *first
                } else {
                    *second
                };
                let rest = lemma_resized_at(half, id, direction, delta);
                let path = seq![!deeper_first] + rest;
                assert(path.skip(1) =~= rest);
                assert forall|q: Seq<bool>|
                    q.len() > path.len() && #[trigger] path.is_prefix_of(q) implies !splits_around(
                    part(t, q),
                    id,
                    direction,
                ) by {
                    let tail = q.skip(1);
                    assert(path[0] == q.subrange(0, path.len() as int)[0]);
                    assert(rest =~= tail.subrange(0, rest.len() as int)) by {
                        assert forall|k: int| 0 <= k < rest.len() implies rest[k] == tail[k] by {
                            assert(path[k + 1] == q.subrange(0, path.len() as int)[k + 1]);
                        }
                    }
                    assert(rest.is_prefix_of(tail));
                }
                path
            } else {
                let path = Seq::<bool>::empty();
                assert forall|q: Seq<bool>|
                    q.len() > path.len() && #[trigger] path.is_prefix_of(q) implies !splits_around(
                    part(t, q),
                    id,
                    direction,
                ) by {
                    let half = if q[0] {
                        *second
                    } else {
                        *first
                    };
                    if half.has(id) {
                        lemma_nothing_to_resize(half, id, direction, delta, q.skip(1));
                    } else {
                        lemma_no_split_without_the_pane(half, id, direction, q.skip(1));
                    }
                }
                path
            }
        },
        Tree::Stack { .. } => Seq::empty(),
    }
}

/// A resize moves one border, that of the deepest split in the direction with the pane in
/// it. The first half of the split gains the amount, within the range of a ratio and up to
/// rounding. No other ratio changes, and the panes outside of the split stay where they are
/// on the screen. Where there is no split in the direction around the pane, there is nothing
/// to resize.
pub proof fn law_a_resize_moves_the_nearest_border(
    t: Tree,
    id: PaneId,
    direction: Direction,
    delta: int,
    area: Rect,
    gap: u16,
) -> (path: Seq<bool>)
    requires
        t.ids().no_duplicates(),
    ensures
        match t.resized(id, direction, delta) {
            Some(r) => {
                &&& splits_around(part(t, path), id, direction)
                &&& forall|q: Seq<bool>|
                    q.len() > path.len() && #[trigger] path.is_prefix_of(q) ==> !splits_around(
                        part(t, q),
                        id,
                        direction,
                    )
                &&& match (part(t, path), part(r, path)) {
                    (
                        Some(Tree::Split { direction: d, ratio: a, first: f, second: s }),
                        Some(Tree::Split { direction: e, ratio: b, first: g, second: u }),
                    ) => {
                        let aim = if a.units + delta < MIN_RATIO_UNITS {
                            MIN_RATIO_UNITS as int
                        } else if a.units + delta > MAX_RATIO_UNITS {
                            MAX_RATIO_UNITS as int
                        } else {
                            a.units + delta
                        };
                        d == e && f == g && s == u && -65536 <= b.units - aim <= 65536
                    },
                    _ => false,
                }
                &&& forall|q: Seq<bool>|
                    #[trigger] q.is_prefix_of(path) && q.len() < path.len() ==> cut_alike(
                        part(t, q),
                        part(r, q),
                    )
                &&& forall|q: Seq<bool>|
                    !q.is_prefix_of(path) && !path.is_prefix_of(q) ==> #[trigger] part(r, q)
                        == part(t, q)
                &&& placed(r, area, gap).len() == placed(t, area, gap).len()
                &&& forall|i: int|
                    0 <= i < placed(t, area, gap).len() && !part(t, path)->0.ids().contains(
                        (#[trigger] placed(t, area, gap)[i]).0,
                    ) ==> placed(r, area, gap)[i] == placed(t, area, gap)[i]
            },
            None => forall|q: Seq<bool>|
                !splits_around(#[trigger] part(t, q), id, direction),
        },
{
    match t.resized(id, direction, delta) {
        Some(r) => {
            let path = lemma_resized_at(t, id, direction, delta);
            law_a_nudge_moves_the_ratio_by_the_amount(part(t, path)->0->ratio, delta);
            assert forall|q: Seq<bool>|
                #[trigger] q.is_prefix_of(path) && q.len() < path.len() implies cut_alike(
                part(t, q),
                part(r, q),
            ) by {
                lemma_on_the_way(t, r, path, q);
            }
            assert forall|q: Seq<bool>|
                !q.is_prefix_of(path) && !path.is_prefix_of(q) implies #[trigger] part(r, q)
                == part(t, q) by {
                lemma_elsewhere(t, r, path, q);
            }
            lemma_same_count(t, r, path, area, gap);
            assert forall|i: int|
                0 <= i < placed(t, area, gap).len() && !part(t, path)->0.ids().contains(
                    (#[trigger] placed(t, area, gap)[i]).0,
                ) implies placed(r, area, gap)[i] == placed(t, area, gap)[i] by {
                lemma_rects_elsewhere(t, r, path, area, gap, i);
            }
            path
        },
        None => {
            assert forall|q: Seq<bool>| !splits_around(
                #[trigger] part(t, q),
                id,
                direction,
            ) by {
                lemma_nothing_to_resize(t, id, direction, delta, q);
            }
            Seq::empty()
        },
    }
}

} // verus!
