//! What the automatic layouts look like on the screen: columns, rows, and equal parts.

use crate::arrangement_laws::lemma_rounding;
use crate::geometry::{fits_screen, halves, placed, split_size};
use crate::layout::{lone, Direction, PaneId, Rect, Tree, MIN_PANE_SIZE};
use crate::layout_modes::{
    bsp_from, every_other, grid_columns, line_from, master_at, master_tree, rows_from, side_of,
    stepped, LayoutAlgorithm, LayoutMode, MasterLayout,
};
use crate::ratio::{
    equal_share, inner_share, nearest24, share_of, side_share, Ratio, HALF_UNITS, ONE,
};
use vstd::prelude::*;

verus! {

// ---------------------------------------------------------------------------
// Equal parts
// ---------------------------------------------------------------------------

proof fn lemma_equal_share(n: nat)
    requires
        2 <= n <= 32768,
    ensures
        -65536 <= equal_share(n).units * n - ONE <= 65536,
{
    let e = nearest24(ONE as nat, n);
    lemma_rounding(ONE as nat, n);
    let off = e * n - ONE;
    assert(-65536 <= off <= 65536);
    assert(0 <= e <= 1099511693312) by (nonlinear_arith)
        requires
            e * n - 1099511627776 <= 65536,
            n >= 2,
    ;
}

/// Out of `total` cells with room for `q` or `q + 1` in each of `n` parts, one part takes as
/// many, and so much is left that the others can.
proof fn lemma_even_cut(total: u16, share: Ratio, n: int, q: int)
    requires
        2 <= n <= 32768,
        q >= MIN_PANE_SIZE,
        q * n <= total <= (q + 1) * n,
        -65536 <= share.units * n - ONE <= 65536,
    ensures
        q <= split_size(total, share) <= q + 1,
        q * (n - 1) <= total - split_size(total, share) <= (q + 1) * (n - 1),
{
    let e = share.units as int;
    let h = total as int;
    let one = ONE as int;
    let p = nearest24((total * share.units) as nat, 1) as int;
    assert(total * share.units >= 0) by (nonlinear_arith)
        requires
            total >= 0,
            share.units >= 0,
    ;
    lemma_rounding((total * share.units) as nat, 1);
    let whole = h * e;
    assert(whole == total * share.units);
    assert(p * 1 == p);
    // How far the product is from what was meant, in as many parts.
    assert(-4294901760 <= whole * n - h * one <= 4294901760) by (nonlinear_arith)
        requires
            whole == h * e,
            -65536 <= e * n - one <= 65536,
            0 <= h <= 65535,
    ;
    assert(h * one <= 72056494526300160) by (nonlinear_arith)
        requires
            0 <= h <= 65535,
            one == 1099511627776,
    ;
    let off = p - whole;
    assert(-4295033344 <= off * n <= 4295033344) by {
        assert(2 * off <= 1 || 2 * off * 8388608 <= whole);
        assert(-2 * off <= 1 || -2 * off * 8388608 <= whole);
        assert(off * n <= 4295033344) by (nonlinear_arith)
            requires
                2 * off <= 1 || 2 * off * 8388608 <= whole,
                whole * n <= 72056498821201920,
                2 <= n <= 32768,
        ;
        assert((-off) * n <= 4295033344) by (nonlinear_arith)
            requires
                -2 * off <= 1 || -2 * off * 8388608 <= whole,
                whole * n <= 72056498821201920,
                2 <= n <= 32768,
        ;
        assert((-off) * n == -(off * n)) by (nonlinear_arith);
    }
    assert(p * n == whole * n + off * n) by (nonlinear_arith)
        requires
            off == p - whole,
    ;
    let slack = 8589935104int;
    assert(-slack <= p * n - h * one <= slack);
    let cells = (p + HALF_UNITS) / one;
    vstd::arithmetic::div_mod::lemma_fundamental_div_mod(p + HALF_UNITS, one);
    let rest = (p + HALF_UNITS) % one;
    assert(cells >= q) by (nonlinear_arith)
        requires
            p + HALF_UNITS == one * cells + rest,
            0 <= rest < one,
            p * n - h * one >= -8589935104,
            h >= q * n,
            n >= 2,
            one == 1099511627776,
            HALF_UNITS == 549755813888,
    {
        if cells <= q - 1 {
            assert(p + HALF_UNITS < one * q);
            assert((p + HALF_UNITS) * n <= (one * q) * n);
            assert((one * q) * n == one * (q * n));
            assert(one * (q * n) <= one * h);
            assert((p + HALF_UNITS) * n == p * n + HALF_UNITS * n);
            assert(HALF_UNITS * n >= HALF_UNITS * 2);
        }
    }
    assert(cells <= q + 1) by (nonlinear_arith)
        requires
            p + HALF_UNITS == one * cells + rest,
            0 <= rest < one,
            p * n - h * one <= 8589935104,
            h <= (q + 1) * n,
            n >= 2,
            one == 1099511627776,
            HALF_UNITS == 549755813888,
    {
        if cells >= q + 2 {
            assert(p + HALF_UNITS >= one * (q + 2));
            assert((p + HALF_UNITS) * n >= (one * (q + 2)) * n);
            assert((one * (q + 2)) * n == one * ((q + 1) * n) + one * n);
            assert((p + HALF_UNITS) * n == p * n + HALF_UNITS * n);
            assert(one * n - HALF_UNITS * n == HALF_UNITS * n);
            assert(HALF_UNITS * n >= HALF_UNITS * 2);
        }
    }
    // At either end of the range there is no choice.
    assert(h == q * n ==> cells == q) by (nonlinear_arith)
        requires
            p + HALF_UNITS == one * cells + rest,
            0 <= rest < one,
            p * n - h * one <= 8589935104,
            n >= 2,
            one == 1099511627776,
            HALF_UNITS == 549755813888,
            q <= cells <= q + 1,
    {
        if h == q * n && cells == q + 1 {
            assert(p + HALF_UNITS >= one * (q + 1));
            assert((p + HALF_UNITS) * n >= (one * (q + 1)) * n);
            assert((one * (q + 1)) * n == one * (q * n) + one * n);
            assert((p + HALF_UNITS) * n == p * n + HALF_UNITS * n);
            assert(one * n - HALF_UNITS * n == HALF_UNITS * n);
            assert(HALF_UNITS * n >= HALF_UNITS * 2);
        }
    }
    assert(h == (q + 1) * n ==> cells == q + 1) by (nonlinear_arith)
        requires
            p + HALF_UNITS == one * cells + rest,
            0 <= rest < one,
            p * n - h * one >= -8589935104,
            n >= 2,
            one == 1099511627776,
            HALF_UNITS == 549755813888,
            q <= cells <= q + 1,
    {
        if h == (q + 1) * n && cells == q {
            assert(p + HALF_UNITS < one * (q + 1));
            assert((p + HALF_UNITS) * n <= (one * (q + 1)) * n);
            assert((one * (q + 1)) * n == one * ((q + 1) * n));
            assert((p + HALF_UNITS) * n == p * n + HALF_UNITS * n);
            assert(HALF_UNITS * n >= HALF_UNITS * 2);
        }
    }
    assert(q * n == q * (n - 1) + q) by (nonlinear_arith);
    assert((q + 1) * n == (q + 1) * (n - 1) + q + 1) by (nonlinear_arith);
    assert(q * (n - 1) >= q) by (nonlinear_arith)
        requires
            n >= 2,
            q >= 0,
    ;
    assert((q + 1) * (n - 1) == q * (n - 1) + n - 1) by (nonlinear_arith);
    assert(share_of(total, share) == cells);
    assert(split_size(total, share) == cells);
}

// ---------------------------------------------------------------------------
// Lines of panes
// ---------------------------------------------------------------------------

/// Where a rectangle begins: its column where cuts are vertical, else its row.
pub open spec fn begins(r: Rect, d: Direction) -> int {
    match d {
        Direction::Vertical => r.x as int,
        Direction::Horizontal => r.y as int,
    }
}

/// How far a rectangle goes: its width where cuts are vertical, else its height.
pub open spec fn extent(r: Rect, d: Direction) -> int {
    match d {
        Direction::Vertical => r.width as int,
        Direction::Horizontal => r.height as int,
    }
}

/// The other direction.
pub open spec fn across(d: Direction) -> Direction {
    match d {
        Direction::Vertical => Direction::Horizontal,
        Direction::Horizontal => Direction::Vertical,
    }
}

/// The rectangles are one line through an area, side by side in a direction: each as wide
/// as the area the other way, the first at its edge, and each next one right behind the one
/// before up to the end of the area. They are `q` or `q + 1` long.
#[verifier::opaque]
pub open spec fn in_line(p: Seq<Rect>, area: Rect, d: Direction, q: int) -> bool {
    &&& p.len() > 0
    &&& begins(p[0], d) == begins(area, d)
    &&& begins(p.last(), d) + extent(p.last(), d) == begins(area, d) + extent(area, d)
    &&& forall|k: int|
        0 <= k < p.len() ==> q <= extent(#[trigger] p[k], d) <= q + 1 && begins(p[k], across(d))
            == begins(area, across(d)) && extent(p[k], across(d)) == extent(area, across(d))
    &&& forall|k: int|
        0 <= k < p.len() - 1 ==> begins(#[trigger] p[k], d) + extent(p[k], d) == begins(
            p[k + 1],
            d,
        )
}

/// The rectangles of panes, without the panes.
pub open spec fn rects_of(p: Seq<(PaneId, Rect)>) -> Seq<Rect> {
    Seq::new(p.len(), |k: int| p[k].1)
}

/// The panes of a line come in their order, and each is as wide as the line.
proof fn lemma_line_across(panes: Seq<PaneId>, i: int, d: Direction, area: Rect, gap: u16)
    requires
        0 <= i < panes.len(),
    ensures
        ({
            let p = placed(line_from(panes, i, d), area, gap);
            &&& p.len() == panes.len() - i
            &&& forall|k: int|
                0 <= k < p.len() ==> (#[trigger] p[k]).0 == panes[i + k] && begins(
                    p[k].1,
                    across(d),
                ) == begins(area, across(d)) && extent(p[k].1, across(d)) == extent(
                    area,
                    across(d),
                )
        }),
    decreases panes.len() - i,
{
    if i + 1 < panes.len() {
        let share = equal_share((panes.len() - i) as nat);
        let (a, b) = halves(area, d, share, gap);
        lemma_line_across(panes, i + 1, d, b, gap);
        assert(placed(lone(panes[i]), a, gap) =~= seq![(panes[i], a)]);
        let rest = placed(line_from(panes, i + 1, d), b, gap);
        let p = placed(line_from(panes, i, d), area, gap);
        assert(p =~= seq![(panes[i], a)] + rest);
    }
}

proof fn lemma_line_parts(panes: Seq<PaneId>, i: int, d: Direction, area: Rect, q: int)
    requires
        0 <= i < panes.len(),
        panes.len() - i <= 32768,
        q >= MIN_PANE_SIZE,
        fits_screen(area),
        q * (panes.len() - i) <= extent(area, d) <= (q + 1) * (panes.len() - i),
    ensures
        in_line(rects_of(placed(line_from(panes, i, d), area, 0)), area, d, q),
    decreases panes.len() - i,
{
    reveal(in_line);
    let n = panes.len() - i;
    lemma_line_across(panes, i, d, area, 0);
    let p = placed(line_from(panes, i, d), area, 0);
    let all = rects_of(p);
    if n == 1 {
        assert(p =~= seq![(panes[i], area)]);
        assert(q * 1 == q && (q + 1) * 1 == q + 1);
    } else {
        let share = equal_share(n as nat);
        let (a, b) = halves(area, d, share, 0);
        lemma_equal_share(n as nat);
        lemma_even_cut(extent(area, d) as u16, share, n, q);
        assert(fits_screen(b));
        lemma_line_parts(panes, i + 1, d, b, q);
        let rest = rects_of(placed(line_from(panes, i + 1, d), b, 0));
        assert(placed(lone(panes[i]), a, 0) =~= seq![(panes[i], a)]);
        assert(p =~= seq![(panes[i], a)] + placed(line_from(panes, i + 1, d), b, 0));
        assert(all =~= seq![a] + rest);
        assert forall|k: int| 0 <= k < all.len() - 1 implies begins(#[trigger] all[k], d) + extent(
            all[k],
            d,
        ) == begins(all[k + 1], d) by {
            if k > 0 {
                assert(all[k] == rest[k - 1]);
                assert(all[k + 1] == rest[k]);
            } else {
                assert(all[1] == rest[0]);
            }
        }
        assert forall|k: int| 0 <= k < all.len() implies q <= extent(#[trigger] all[k], d) <= q + 1
            && begins(all[k], across(d)) == begins(area, across(d)) && extent(all[k], across(d))
            == extent(area, across(d)) by {
            if k > 0 {
                assert(all[k] == rest[k - 1]);
            }
        }
        assert(all.last() == rest.last());
    }
}

/// How many cells each part gets when `total` is divided evenly.
proof fn lemma_even(total: int, n: int)
    requires
        n > 0,
        total >= 0,
    ensures
        (total / n) * n <= total <= (total / n + 1) * n,
{
    vstd::arithmetic::div_mod::lemma_fundamental_div_mod(total, n);
    assert((total / n) * n <= total <= (total / n + 1) * n) by (nonlinear_arith)
        requires
            total == n * (total / n) + total % n,
            0 <= total % n < n,
    ;
}

proof fn lemma_line(panes: Seq<PaneId>, d: Direction, area: Rect)
    requires
        panes.len() > 0,
        fits_screen(area),
        extent(area, d) >= MIN_PANE_SIZE * panes.len(),
    ensures
        in_line(
            rects_of(placed(line_from(panes, 0, d), area, 0)),
            area,
            d,
            extent(area, d) / (panes.len() as int),
        ),
{
    let n = panes.len() as int;
    let total = extent(area, d);
    let q = total / n;
    lemma_even(total, n);
    assert(q >= 2) by (nonlinear_arith)
        requires
            total >= 2 * n,
            total < (q + 1) * n || total == (q + 1) * n,
            total / n == q,
            n > 0,
    {
        vstd::arithmetic::div_mod::lemma_div_is_ordered(2 * n, total, n);
        vstd::arithmetic::div_mod::lemma_div_multiples_vanish(2, n);
    }
    lemma_line_parts(panes, 0, d, area, q);
}

// ---------------------------------------------------------------------------
// The master layout
// ---------------------------------------------------------------------------

/// The index of the `k`th pane beside the one at `at`.
pub open spec fn beside(k: int, at: int) -> int {
    if k < at {
        k
    } else {
        k + 1
    }
}

/// Three panes or more are laid out in three columns from left to right. The master has the
/// middle one to itself, over the full height. The others go to the left and to the right
/// column in turn, from the top down. In a column all panes have its place and its width.
pub proof fn law_the_master_layout_has_three_columns(
    m: MasterLayout,
    panes: Seq<PaneId>,
    active: PaneId,
    area: Rect,
    gap: u16,
)
    requires
        panes.len() >= 3,
    ensures
        ({
            let p = placed(m.tree(panes, active), area, gap);
            let left = panes.len() as int / 2;
            let at = if m.master_idx < panes.len() {
                m.master_idx as int
            } else {
                panes.len() - 1
            };
            let master = p[left].1;
            &&& p.len() == panes.len()
            &&& p[left].0 == panes[at]
            &&& master.y == area.y && master.height == area.height
            &&& p[0].1.x == area.x
            &&& forall|k: int|
                0 <= k < left ==> (#[trigger] p[k]).0 == panes[beside(2 * k, at)] && p[k].1.x
                    == p[0].1.x && p[k].1.width == p[0].1.width
            &&& forall|k: int|
                left < k < p.len() ==> (#[trigger] p[k]).0 == panes[beside(
                    2 * (k - left - 1) + 1,
                    at,
                )] && p[k].1.x == p[left + 1].1.x && p[k].1.width == p[left + 1].1.width
            &&& fits_screen(area) && gap == 0 ==> {
                &&& master.x == area.x + p[0].1.width
                &&& p[left + 1].1.x == master.x + master.width
                &&& p[left + 1].1.x + p[left + 1].1.width == area.x + area.width
            }
        }),
{
    let t = m.tree(panes, active);
    lemma_master(panes, m.master_idx, m.master_ratio, area, gap);
}

proof fn lemma_master(panes: Seq<PaneId>, idx: usize, share: Ratio, area: Rect, gap: u16)
    requires
        panes.len() >= 3,
    ensures
        ({
            let at = master_at(idx, panes.len());
            let others = panes.remove(at);
            let left = every_other(others, 0);
            let right = every_other(others, 1);
            let (a, rest) = halves(area, Direction::Vertical, side_share(share), gap);
            let (b, c) = halves(rest, Direction::Vertical, inner_share(share), gap);
            let p = placed(master_tree(panes, idx, share), area, gap);
            let n = panes.len() as int / 2;
            &&& left.len() == n && right.len() == panes.len() - 1 - n
            &&& p.len() == panes.len()
            &&& p[n] == (panes[at], b)
            &&& p.take(n) == placed(line_from(left, 0, Direction::Horizontal), a, gap)
            &&& p.skip(n + 1) == placed(line_from(right, 0, Direction::Horizontal), c, gap)
            &&& forall|k: int|
                0 <= k < n ==> (#[trigger] p[k]).0 == others[2 * k] && p[k].1.x == a.x
                    && p[k].1.width == a.width
            &&& forall|k: int|
                n < k < p.len() ==> (#[trigger] p[k]).0 == others[2 * (k - n - 1) + 1] && p[k].1.x
                    == c.x && p[k].1.width == c.width
        }),
{
    let at = master_at(idx, panes.len());
    let others = panes.remove(at);
    let left = every_other(others, 0);
    let right = every_other(others, 1);
    let (a, rest) = halves(area, Direction::Vertical, side_share(share), gap);
    let (b, c) = halves(rest, Direction::Vertical, inner_share(share), gap);
    let t = master_tree(panes, idx, share);
    let p = placed(t, area, gap);
    let n = panes.len() as int / 2;
    lemma_line_across(left, 0, Direction::Horizontal, a, gap);
    lemma_line_across(right, 0, Direction::Horizontal, c, gap);
    let one = placed(line_from(left, 0, Direction::Horizontal), a, gap);
    let two = placed(lone(panes[at]), b, gap);
    let three = placed(line_from(right, 0, Direction::Horizontal), c, gap);
    assert(two =~= seq![(panes[at], b)]);
    assert(placed(*t->second, rest, gap) == two + three);
    assert(p =~= one + (two + three));
    assert(p.take(n) =~= one);
    assert(p.skip(n + 1) =~= three);
    assert forall|k: int| 0 <= k < n implies (#[trigger] p[k]).0 == others[2 * k] && p[k].1.x
        == a.x && p[k].1.width == a.width by {
        assert(p[k] == one[k]);
    }
    assert forall|k: int| n < k < p.len() implies (#[trigger] p[k]).0 == others[2 * (k - n - 1)
        + 1] && p[k].1.x == c.x && p[k].1.width == c.width by {
        assert(p[k] == three[k - n - 1]);
    }
}

/// With room for all of them, the panes of either side column are equally high, up to
/// rounding, and fill the column from top to bottom.
pub proof fn law_side_panes_are_equally_high(
    m: MasterLayout,
    panes: Seq<PaneId>,
    active: PaneId,
    area: Rect,
)
    requires
        panes.len() >= 3,
        fits_screen(area),
        area.height >= MIN_PANE_SIZE * (panes.len() / 2),
    ensures
        ({
            let p = rects_of(placed(m.tree(panes, active), area, 0));
            let left = panes.len() as int / 2;
            let right = panes.len() - left - 1;
            let column = |r: Rect| Rect { x: r.x, y: area.y, width: r.width, height: area.height };
            &&& in_line(
                p.take(left),
                column(p[0]),
                Direction::Horizontal,
                area.height as int / left,
            )
            &&& in_line(
                p.skip(left + 1),
                column(p[left + 1]),
                Direction::Horizontal,
                area.height as int / right,
            )
        }),
{
    let idx = m.master_idx;
    let share = m.master_ratio;
    let at = master_at(idx, panes.len());
    let others = panes.remove(at);
    let one = every_other(others, 0);
    let three = every_other(others, 1);
    let (a, rest) = halves(area, Direction::Vertical, side_share(share), 0);
    let (b, c) = halves(rest, Direction::Vertical, inner_share(share), 0);
    let all = placed(m.tree(panes, active), area, 0);
    let p = rects_of(all);
    let n = panes.len() as int / 2;
    lemma_master(panes, idx, share, area, 0);
    lemma_line(one, Direction::Horizontal, a);
    lemma_line(three, Direction::Horizontal, c);
    assert(p.take(n) =~= rects_of(all.take(n)));
    assert(p.skip(n + 1) =~= rects_of(all.skip(n + 1)));
    assert(p[0] == all[0].1 && p[n + 1] == all[n + 1].1);
}

/// Two panes lie side by side, the master on the left over the full height.
pub proof fn law_a_master_with_one_other_is_on_the_left(
    m: MasterLayout,
    panes: Seq<PaneId>,
    active: PaneId,
    area: Rect,
    gap: u16,
)
    requires
        panes.len() == 2,
    ensures
        ({
            let p = placed(m.tree(panes, active), area, gap);
            let at = if m.master_idx == 0 {
                0int
            } else {
                1
            };
            &&& p.len() == 2
            &&& p[0].0 == panes[at] && p[1].0 == panes[1 - at]
            &&& p[0].1.x == area.x
            &&& p[0].1.y == area.y && p[1].1.y == area.y
            &&& p[0].1.height == area.height && p[1].1.height == area.height
            &&& fits_screen(area) && gap == 0 ==> p[1].1.x == area.x + p[0].1.width
                && p[0].1.width + p[1].1.width == area.width
        }),
{
    let at = master_at(m.master_idx, panes.len());
    let others = panes.remove(at);
    let (a, b) = halves(area, Direction::Vertical, m.master_ratio, gap);
    let t = master_tree(panes, m.master_idx, m.master_ratio);
    assert(placed(lone(panes[at]), a, gap) =~= seq![(panes[at], a)]);
    assert(placed(lone(others[0]), b, gap) =~= seq![(others[0], b)]);
    assert(placed(t, area, gap) =~= seq![(panes[at], a), (others[0], b)]);
}

/// The side columns get equal shares of what the master leaves of the whole, up to rounding,
/// and the master gets its share of what the left column leaves.
pub proof fn law_the_sides_share_what_the_master_leaves(share: Ratio)
    requires
        share.units <= ONE,
    ensures
        -65538 <= 2 * side_share(share).units + share.units - ONE <= 65538,
        ({
            let off = inner_share(share).units * (share.units + side_share(share).units)
                - share.units * ONE;
            // Less than one part in four million of the whole.
            -(ONE / 4000000) * ONE <= off <= (ONE / 4000000) * ONE
        }),
{
    let m = share.units as int;
    let one = ONE as int;
    let left = (ONE - share.units) as nat;
    lemma_rounding(left, 1);
    let s = side_share(share).units as int;
    let whole = (share.units + side_share(share).units) as nat;
    lemma_rounding(whole, 1);
    let sum = nearest24(whole, 1);
    assert(549755700000 <= sum <= 1099511900000);
    assert(-65536 <= sum - whole <= 65536);
    assert(m * one >= 0) by (nonlinear_arith)
        requires
            m >= 0,
            one >= 0,
    ;
    lemma_rounding((share.units * ONE) as nat, sum);
    let r = nearest24((share.units * ONE) as nat, sum) as int;
    assert(share.units * ONE == m * one);
    let off = r * sum - m * one;
    assert(m * one <= one * one) by (nonlinear_arith)
        requires
            m <= one,
            one >= 0,
    ;
    assert(one * one == 1208925819614629174706176);
    assert(-72057594037927936 <= off <= 72057594037927936);
    assert(r <= 2199025000000) by (nonlinear_arith)
        requires
            r * sum <= 1208925891672223212634112,
            sum >= 549755700000,
            r >= 0,
    ;
    let gap = whole - sum;
    assert(r * whole - m * one == off + r * gap) by (nonlinear_arith)
        requires
            off == r * sum - m * one,
            gap == whole - sum,
    ;
    assert(-144115302400000000 <= r * gap <= 144115302400000000) by (nonlinear_arith)
        requires
            -65536 <= gap <= 65536,
            0 <= r <= 2199025000000,
    ;
    assert(inner_share(share).units == r);
}

// ---------------------------------------------------------------------------
// Binary space partitioning
// ---------------------------------------------------------------------------

/// The direction in which the pane at an index is cut off from those behind it.
#[verifier::opaque]
pub open spec fn turn(i: int) -> Direction {
    if i % 2 == 0 {
        Direction::Vertical
    } else {
        Direction::Horizontal
    }
}

pub(crate) proof fn lemma_half(total: u16)
    requires
        total >= 2 * MIN_PANE_SIZE,
    ensures
        total / 2 <= split_size(total, Ratio { units: HALF_UNITS }) <= total / 2 + 1,
        2 * split_size(total, Ratio { units: HALF_UNITS }) <= total + 1,
{
    let q = total as int / 2;
    assert(q * 2 <= total <= (q + 1) * 2);
    lemma_even_cut(total, Ratio { units: HALF_UNITS }, 2, q);
}

proof fn lemma_turn(panes: Seq<PaneId>, i: int)
    ensures
        turn(i + 1) == across(turn(i)),
        i + 1 < panes.len() ==> bsp_from(panes, i) == (Tree::Split {
            direction: turn(i),
            ratio: Ratio { units: HALF_UNITS },
            first: Box::new(lone(panes[i])),
            second: Box::new(bsp_from(panes, i + 1)),
        }),
{
    reveal(turn);
}

/// One pane before others that halve what is left.
proof fn lemma_one_more_half(
    p: Seq<(PaneId, Rect)>,
    rest: Seq<(PaneId, Rect)>,
    first: (PaneId, Rect),
    i: int,
)
    requires
        p == seq![first] + rest,
        rest.len() > 0,
        halved(first.1, rest[0].1, turn(i)),
        rest.len() > 1 ==> extent(first.1, across(turn(i))) == extent(rest[0].1, across(turn(i)))
            + extent(rest[1].1, across(turn(i))),
        halves_on(rest, i + 1),
    ensures
        halves_on(p, i),
{
    assert forall|k: int| 0 <= k < p.len() - 1 implies halved(
        (#[trigger] p[k]).1,
        p[k + 1].1,
        turn(i + k),
    ) by {
        if k > 0 {
            assert(p[k] == rest[k - 1] && p[k + 1] == rest[k]);
            assert(i + k == (i + 1) + (k - 1));
            assert(halved(rest[k - 1].1, rest[(k - 1) + 1].1, turn((i + 1) + (k - 1))));
        }
    }
    assert forall|k: int| 0 <= k < p.len() - 2 implies extent((#[trigger] p[k]).1, across(turn(i + k)))
        == extent(p[k + 1].1, across(turn(i + k))) + extent(p[k + 2].1, across(turn(i + k))) by {
        if k > 0 {
            assert(p[k] == rest[k - 1] && p[k + 1] == rest[k] && p[k + 2] == rest[k + 1]);
            assert(i + k == (i + 1) + (k - 1));
        }
    }
}

/// From the pane at index `i` on, each two neighbours halve what is left in turn.
pub open spec fn halves_on(p: Seq<(PaneId, Rect)>, i: int) -> bool {
    &&& forall|k: int|
        0 <= k < p.len() - 1 ==> halved((#[trigger] p[k]).1, p[k + 1].1, turn(i + k))
    &&& forall|k: int|
        0 <= k < p.len() - 2 ==> extent((#[trigger] p[k]).1, across(turn(i + k))) == extent(
            p[k + 1].1,
            across(turn(i + k)),
        ) + extent(p[k + 2].1, across(turn(i + k)))
}

proof fn lemma_bsp(panes: Seq<PaneId>, i: int, area: Rect)
    requires
        0 <= i < panes.len(),
        fits_screen(area),
    ensures
        ({
            let p = placed(bsp_from(panes, i), area, 0);
            let d = turn(i);
            &&& p.len() == panes.len() - i
            &&& p[0].1.x == area.x && p[0].1.y == area.y
            &&& extent(p[0].1, across(d)) == extent(area, across(d))
            &&& p.len() == 1 ==> p[0].1 == area
            &&& p.len() > 1 ==> extent(p[0].1, d) + extent(p[1].1, d) == extent(area, d)
            &&& forall|k: int| 0 <= k < p.len() ==> (#[trigger] p[k]).0 == panes[i + k]
            &&& halves_on(p, i)
            &&& p.len() > 1 ==> extent(p[p.len() - 2].1, across(turn(panes.len() - 2))) == extent(
                p.last().1,
                across(turn(panes.len() - 2)),
            )
        }),
    decreases panes.len() - i,
{
    let p = placed(bsp_from(panes, i), area, 0);
    let d = turn(i);
    lemma_turn(panes, i);
    if i + 1 < panes.len() {
        let (a, b) = halves(area, d, Ratio { units: HALF_UNITS }, 0);
        lemma_bsp(panes, i + 1, b);
        let rest = placed(bsp_from(panes, i + 1), b, 0);
        assert(placed(lone(panes[i]), a, 0) =~= seq![(panes[i], a)]);
        assert(p =~= seq![(panes[i], a)] + rest);
        if extent(area, d) >= 2 * MIN_PANE_SIZE {
            lemma_half(extent(area, d) as u16);
        }
        assert(halved(a, rest[0].1, d));
        lemma_one_more_half(p, rest, (panes[i], a), i);
        if rest.len() > 1 {
            assert(p[p.len() - 2] == rest[rest.len() - 2]);
        }
        assert(p.last() == rest.last());
    }
}

/// Two rectangles lie side by side in a direction, and where there is room for two they are
/// equally long in it, up to rounding.
pub open spec fn halved(a: Rect, b: Rect, d: Direction) -> bool {
    &&& begins(b, d) == begins(a, d) + extent(a, d)
    &&& begins(b, across(d)) == begins(a, across(d))
    &&& extent(a, d) + extent(b, d) >= 2 * MIN_PANE_SIZE ==> -1 <= extent(a, d) - extent(b, d) <= 1
}

/// Each pane takes half of the area that those before it have left, and the next one begins
/// right beside it or below it, in turn. The last one has all that is left.
pub proof fn law_each_pane_halves_what_is_left(
    panes: Seq<PaneId>,
    active: PaneId,
    area: Rect,
    mode: LayoutMode,
)
    requires
        panes.len() > 0,
        mode is Bsp || mode is Custom,
        fits_screen(area),
    ensures
        ({
            let p = placed(mode.tree(panes, active), area, 0);
            &&& p.len() == panes.len()
            &&& p[0].1.x == area.x && p[0].1.y == area.y && p[0].1.height == area.height
            &&& p.len() == 1 ==> p[0].1.width == area.width
            &&& p.len() > 1 ==> p[0].1.width + p[1].1.width == area.width
            &&& forall|k: int| 0 <= k < p.len() ==> (#[trigger] p[k]).0 == panes[k]
            &&& halves_on(p, 0)
            &&& p.len() > 1 ==> extent(p[p.len() - 2].1, across(turn(p.len() - 2))) == extent(
                p.last().1,
                across(turn(p.len() - 2)),
            )
        }),
{
    lemma_bsp(panes, 0, area);
    assert(turn(0) is Vertical) by {
        reveal(turn);
    }
}

// ---------------------------------------------------------------------------
// One stack
// ---------------------------------------------------------------------------

/// In the monocle layout one pane fills the whole area: the active one, or the first where
/// the active one is not among the panes.
pub proof fn law_the_monocle_layout_shows_one_pane(
    panes: Seq<PaneId>,
    active: PaneId,
    mode: LayoutMode,
    area: Rect,
    gap: u16,
)
    requires
        panes.len() > 0,
        mode is Monocle,
    ensures
        placed(mode.tree(panes, active), area, gap) == seq![
            (
                if panes.contains(active) {
                    active
                } else {
                    panes[0]
                },
                area,
            ),
        ],
        mode.tree(panes, active).ids() == panes,
{
    crate::layout::lemma_position(panes, active);
    let t = mode.tree(panes, active);
    assert(placed(t, area, gap) =~= seq![
        (
            if panes.contains(active) {
                active
            } else {
                panes[0]
            },
            area,
        ),
    ]);
}

// ---------------------------------------------------------------------------
// The cycle
// ---------------------------------------------------------------------------

/// Stepping goes from Bsp over Master and Monocle to Grid. From there it goes to the user's
/// own arrangement where there is one to return to, and else on to Bsp, which also follows
/// the user's own. A master layout begins with the first pane as its master, at three fifths
/// of the width.
pub proof fn law_stepping_follows_the_cycle(current: LayoutMode, saved: bool)
    ensures
        current is Bsp ==> stepped(current, saved) is Master,
        current is Master ==> stepped(current, saved) is Monocle,
        current is Monocle ==> stepped(current, saved) is Grid,
        current is Grid && saved ==> stepped(current, saved) is Custom,
        current is Grid && !saved ==> stepped(current, saved) is Bsp,
        current is Custom ==> stepped(current, saved) is Bsp,
        stepped(current, saved) matches LayoutMode::Master(m) ==> m.master_idx == 0 && -131072
            <= m.master_ratio.units * 5 - ONE * 3 <= 131072,
{
}

/// The shorter cycle leaves Grid and the user's own arrangement out.
pub proof fn law_the_automatic_cycle_has_three_modes(current: LayoutMode)
    ensures
        current is Bsp ==> current.following() is Master,
        current is Master ==> current.following() is Monocle,
        current is Monocle || current is Grid || current is Custom ==> current.following() is Bsp,
{
}

// ---------------------------------------------------------------------------
// The grid
// ---------------------------------------------------------------------------

proof fn lemma_side_exists(n: nat) -> (c: nat)
    requires
        n >= 1,
    ensures
        side_of(n, c),
    decreases n,
{
    if n == 1 {
        assert(side_of(1, 1));
        1
    } else {
        let c = lemma_side_exists((n - 1) as nat);
        if c * c >= n {
            assert(side_of(n, c));
            c
        } else {
            assert((c + 1) * (c + 1) >= n) by (nonlinear_arith)
                requires
                    c * c >= n - 1,
                    c >= 1,
            ;
            assert(side_of(n, c + 1));
            c + 1
        }
    }
}

/// The grid has as many columns as the least square that holds the panes.
pub proof fn law_the_grid_is_near_to_a_square(n: nat)
    requires
        n >= 1,
    ensures
        ({
            let c = grid_columns(n) as int;
            1 <= c && (c - 1) * (c - 1) < n <= c * c
        }),
{
    let c = lemma_side_exists(n);
    let g = grid_columns(n) as int;
    assert(side_of(n, grid_columns(n)));
    assert(g == 1 ==> (g - 1) * (g - 1) == 0) by (nonlinear_arith);
}

/// The rectangles are rows of `c` through an area, and a last row with the rest: a row goes
/// from edge to edge, all of it on one level, and the next one begins right below it. Rows
/// are `q` or `q + 1` high.
#[verifier::opaque]
pub open spec fn in_rows(p: Seq<Rect>, area: Rect, c: int, q: int) -> bool {
    &&& p.len() > 0
    &&& p[0].y == area.y
    &&& p.last().y + p.last().height == area.y + area.height
    &&& forall|k: int| 0 <= k < p.len() ==> q <= (#[trigger] p[k]).height <= q + 1
    &&& forall|k: int| 0 <= k < p.len() && k % c == 0 ==> (#[trigger] p[k]).x == area.x
    &&& forall|k: int|
        0 <= k < p.len() - 1 ==> if (k + 1) % c == 0 {
            &&& (#[trigger] p[k]).x + p[k].width == area.x + area.width
            &&& p[k + 1].y == p[k].y + p[k].height
        } else {
            &&& p[k + 1].x == p[k].x + p[k].width
            &&& p[k + 1].y == p[k].y && p[k + 1].height == p[k].height
            &&& -1 <= p[k + 1].width - p[k].width <= 1
        }
    &&& p.last().x + p.last().width == area.x + area.width
}

/// A row above rows makes one more row.
proof fn lemma_more_rows(
    x: Seq<Rect>,
    y: Seq<Rect>,
    area: Rect,
    a: Rect,
    b: Rect,
    c: int,
    q: int,
    w: int,
)
    requires
        c >= 1,
        x.len() == c,
        in_line(x, a, Direction::Vertical, w),
        in_rows(y, b, c, q),
        a.x == area.x && a.y == area.y && a.width == area.width,
        b.x == area.x && b.y == area.y + a.height && b.width == area.width,
        a.height + b.height == area.height,
        q <= a.height <= q + 1,
    ensures
        in_rows(x + y, area, c, q),
{
    reveal(in_line);
    reveal(in_rows);
    let d = Direction::Vertical;
    let all = x + y;
    assert forall|k: int| 0 <= k < all.len() implies q <= (#[trigger] all[k]).height <= q + 1 by {
        if k >= c {
            assert(all[k] == y[k - c]);
        } else {
            assert(all[k] == x[k]);
            assert(extent(x[k], across(d)) == extent(a, across(d)));
        }
    }
    assert forall|k: int| 0 <= k < all.len() && k % c == 0 implies (#[trigger] all[k]).x
        == area.x by {
        if k >= c {
            lemma_mod_less(k, c);
            assert(all[k] == y[k - c]);
        } else {
            vstd::arithmetic::div_mod::lemma_small_mod(k as nat, c as nat);
            assert(all[k] == x[0]);
        }
    }
    assert forall|k: int| 0 <= k < all.len() - 1 implies if (k + 1) % c == 0 {
        &&& (#[trigger] all[k]).x + all[k].width == area.x + area.width
        &&& all[k + 1].y == all[k].y + all[k].height
    } else {
        &&& all[k + 1].x == all[k].x + all[k].width
        &&& all[k + 1].y == all[k].y && all[k + 1].height == all[k].height
        &&& -1 <= all[k + 1].width - all[k].width <= 1
    } by {
        if k >= c {
            lemma_mod_less(k + 1, c);
            assert(all[k] == y[k - c] && all[k + 1] == y[k - c + 1]);
        } else if k + 1 < c {
            vstd::arithmetic::div_mod::lemma_small_mod((k + 1) as nat, c as nat);
            assert(all[k] == x[k] && all[k + 1] == x[k + 1]);
            assert(begins(x[k], d) + extent(x[k], d) == begins(x[k + 1], d));
            assert(extent(x[k], across(d)) == extent(a, across(d)));
            assert(extent(x[k + 1], across(d)) == extent(a, across(d)));
        } else {
            vstd::arithmetic::div_mod::lemma_mod_self_0(c);
            assert(all[k] == x.last() && all[k + 1] == y[0]);
            assert(extent(x[k], across(d)) == extent(a, across(d)));
        }
    }
    assert(all.last() == y.last());
    assert(all[0] == x[0]);
}

/// One row is rows, where it is no longer than the others.
proof fn lemma_last_row(all: Seq<Rect>, area: Rect, c: int, q: int, w: int)
    requires
        all.len() <= c,
        in_line(all, area, Direction::Vertical, w),
        q <= area.height <= q + 1,
    ensures
        in_rows(all, area, c, q),
{
    reveal(in_line);
    reveal(in_rows);
    let d = Direction::Vertical;
    assert(extent(all[0], across(d)) == extent(area, across(d)));
    assert(extent(all.last(), across(d)) == extent(area, across(d)));
    assert forall|k: int| 0 <= k < all.len() && k % c == 0 implies (#[trigger] all[k]).x
        == area.x by {
        vstd::arithmetic::div_mod::lemma_small_mod(k as nat, c as nat);
    }
    assert forall|k: int| 0 <= k < all.len() - 1 implies if (k + 1) % c == 0 {
        &&& (#[trigger] all[k]).x + all[k].width == area.x + area.width
        &&& all[k + 1].y == all[k].y + all[k].height
    } else {
        &&& all[k + 1].x == all[k].x + all[k].width
        &&& all[k + 1].y == all[k].y && all[k + 1].height == all[k].height
        &&& -1 <= all[k + 1].width - all[k].width <= 1
    } by {
        vstd::arithmetic::div_mod::lemma_small_mod((k + 1) as nat, c as nat);
        assert(begins(all[k], d) + extent(all[k], d) == begins(all[k + 1], d));
        assert(extent(all[k], across(d)) == extent(area, across(d)));
        assert(extent(all[k + 1], across(d)) == extent(area, across(d)));
    }
    assert forall|k: int| 0 <= k < all.len() implies q <= (#[trigger] all[k]).height <= q + 1 by {
        assert(extent(all[k], across(d)) == extent(area, across(d)));
    }
}

proof fn lemma_row_count(left: int, c: int, rows: int)
    requires
        c >= 1,
        (rows - 1) * c < left <= rows * c,
    ensures
        (left + c - 1) / c == rows,
{
    assert((rows - 1) * c == rows * c - c) by (nonlinear_arith);
    vstd::arithmetic::div_mod::lemma_fundamental_div_mod_converse(
        left + c - 1,
        c,
        rows,
        left - 1 - (rows - 1) * c,
    );
}

#[verifier::spinoff_prover]
#[verifier::rlimit(60)]
proof fn lemma_rows(panes: Seq<PaneId>, c: int, start: int, area: Rect, q: int, rows: int)
    requires
        0 <= start < panes.len(),
        1 <= c,
        1 <= rows <= 32768,
        (rows - 1) * c < panes.len() - start <= rows * c,
        q >= MIN_PANE_SIZE,
        fits_screen(area),
        area.width >= MIN_PANE_SIZE * c,
        q * rows <= area.height <= (q + 1) * rows,
    ensures
        ({
            let p = placed(rows_from(panes, c as nat, start), area, 0);
            &&& p.len() == panes.len() - start
            &&& forall|k: int| 0 <= k < p.len() ==> (#[trigger] p[k]).0 == panes[start + k]
            &&& in_rows(rects_of(p), area, c, q)
        }),
    decreases panes.len() - start,
{
    let left = panes.len() - start;
    let t = rows_from(panes, c as nat, start);
    let p = placed(t, area, 0);
    let d = Direction::Vertical;
    if start + c >= panes.len() {
        assert(rows == 1) by (nonlinear_arith)
            requires
                (rows - 1) * c < left,
                left <= c,
                rows >= 1,
                c >= 1,
        ;
        let row = panes.subrange(start, panes.len() as int);
        lemma_line_across(row, 0, d, area, 0);
        lemma_line(row, d, area);
        let all = rects_of(p);
        assert(q * 1 == q && (q + 1) * 1 == q + 1) by (nonlinear_arith);
        lemma_last_row(all, area, c, q, area.width as int / left);
        assert(in_rows(all, area, c, q));
    } else {
        let row = panes.subrange(start, start + c);
        assert(rows >= 2) by (nonlinear_arith)
            requires
                left <= rows * c,
                left > c,
                c >= 1,
                rows >= 1,
        ;
        lemma_row_count(left, c, rows);
        let share = equal_share(rows as nat);
        lemma_equal_share(rows as nat);
        lemma_even_cut(area.height, share, rows, q);
        let (a, b) = halves(area, Direction::Horizontal, share, 0);
        let first = placed(line_from(row, 0, d), a, 0);
        let second = placed(rows_from(panes, c as nat, start + c), b, 0);
        assert(p == first + second);
        lemma_line_across(row, 0, d, a, 0);
        lemma_line(row, d, a);
        assert((rows - 2) * c == (rows - 1) * c - c) by (nonlinear_arith);
        assert((rows - 1) * c == rows * c - c) by (nonlinear_arith);
        lemma_rows(panes, c, start + c, b, q, rows - 1);
        let x = rects_of(first);
        let y = rects_of(second);
        assert forall|k: int| 0 <= k < p.len() implies (#[trigger] p[k]).0 == panes[start + k] by {
            if k >= c {
                assert(p[k] == second[k - c]);
            }
        }
        lemma_more_rows(x, y, area, a, b, c, q, area.width as int / c);
        assert(rects_of(p) =~= x + y);
    }
}

proof fn lemma_mod_less(k: int, c: int)
    requires
        k >= c >= 1,
    ensures
        (k - c) % c == k % c,
{
    vstd::arithmetic::div_mod::lemma_mod_sub_multiples_vanish(k, c);
}

/// In the grid the panes are laid out row by row, in their order, `c` to a row, where `c` is
/// the side of the least square that holds them all. With room for them, rows are equally
/// high and the panes of a row equally wide, up to rounding, and together they fill the
/// area.
pub proof fn law_the_grid_is_made_of_even_rows(
    panes: Seq<PaneId>,
    active: PaneId,
    mode: LayoutMode,
    area: Rect,
    c: int,
    rows: int,
)
    requires
        panes.len() > 0,
        mode is Grid,
        c >= 1,
        (c - 1) * (c - 1) < panes.len() <= c * c,
        (rows - 1) * c < panes.len() <= rows * c,
        rows >= 1,
        fits_screen(area),
        area.width >= MIN_PANE_SIZE * c,
        area.height >= MIN_PANE_SIZE * rows,
    ensures
        ({
            let p = placed(mode.tree(panes, active), area, 0);
            &&& p.len() == panes.len()
            &&& forall|k: int| 0 <= k < p.len() ==> (#[trigger] p[k]).0 == panes[k]
            &&& in_rows(rects_of(p), area, c, area.height as int / rows)
        }),
{
    let n = panes.len();
    law_the_grid_is_near_to_a_square(n);
    let g = grid_columns(n) as int;
    if g < c {
        assert(g * g <= (c - 1) * (c - 1)) by (nonlinear_arith)
            requires
                1 <= g <= c - 1,
        ;
    }
    if c < g {
        assert(c * c <= (g - 1) * (g - 1)) by (nonlinear_arith)
            requires
                1 <= c <= g - 1,
        ;
    }
    let h = area.height as int;
    let q = h / rows;
    lemma_even(h, rows);
    vstd::arithmetic::div_mod::lemma_div_is_ordered(2 * rows, h, rows);
    vstd::arithmetic::div_mod::lemma_div_multiples_vanish(2, rows);
    lemma_rows(panes, c, 0, area, q, rows);
}

} // verus!
