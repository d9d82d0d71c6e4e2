//! What lies under a screen coordinate.

use crate::geometry::covers;
use crate::layout::{PaneId, Rect};
use vstd::prelude::*;

verus! {

/// An active mouse text selection of one pane, in the coordinates of the pane's
/// content area.
#[derive(Debug, Clone, Copy)]
pub struct MouseSelection {
    /// The pane that owns this selection.
    pub pane_id: PaneId,
    /// Start position (column, row).
    pub start: (u16, u16),
    /// End position (column, row).
    pub end: (u16, u16),
}

/// Result of a hit test at a given screen coordinate.
#[derive(Debug, Clone, Copy, PartialEq, Eq, Structural)]
pub enum ClickTarget {
    /// Inside a pane's area.
    Pane(PaneId),
    /// On a tab label in the status bar.
    Tab(usize),
    /// On the label of a pane in a stack header.
    StackLabel(PaneId),
    /// On nothing that can be clicked.
    Nothing,
}

/// A tracked screen region for a tab label: columns `x_start..x_end` of row `y`.
#[derive(Debug, Clone, Copy, PartialEq, Eq, Structural)]
pub struct TabRegion {
    pub x_start: u16,
    pub x_end: u16,
    pub y: u16,
    pub tab_index: usize,
}

/// A tracked screen region for a stack label: columns `x_start..x_end` of row `y`.
#[derive(Debug, Clone, Copy, PartialEq, Eq, Structural)]
pub struct StackRegion {
    pub x_start: u16,
    pub x_end: u16,
    pub y: u16,
    pub pane_id: PaneId,
}

/// Regions collected during compositing for hit testing.
#[derive(Debug)]
pub struct HitRegions {
    pub tab_regions: Vec<TabRegion>,
    pub stack_regions: Vec<StackRegion>,
}

impl Default for HitRegions {
    fn default() -> (r: Self)
        ensures
            r.tab_regions@.len() == 0,
            r.stack_regions@.len() == 0,
    {
        HitRegions { tab_regions: Vec::new(), stack_regions: Vec::new() }
    }
}

/// The coordinate is on the tab label.
pub open spec fn on_tab(r: TabRegion, x: u16, y: u16) -> bool {
    y == r.y && r.x_start <= x < r.x_end
}

/// The coordinate is on the stack label.
pub open spec fn on_label(r: StackRegion, x: u16, y: u16) -> bool {
    y == r.y && r.x_start <= x < r.x_end
}

/// The first tab label under the coordinate, from index `i` on.
pub open spec fn tab_under(tabs: Seq<TabRegion>, x: u16, y: u16, i: int) -> Option<usize>
    decreases tabs.len() - i,
{
    if i < 0 || i >= tabs.len() {
        None
    } else if on_tab(tabs[i], x, y) {
        Some(tabs[i].tab_index)
    } else {
        tab_under(tabs, x, y, i + 1)
    }
}

/// The first stack label under the coordinate, from index `i` on.
pub open spec fn label_under(labels: Seq<StackRegion>, x: u16, y: u16, i: int) -> Option<PaneId>
    decreases labels.len() - i,
{
    if i < 0 || i >= labels.len() {
        None
    } else if on_label(labels[i], x, y) {
        Some(labels[i].pane_id)
    } else {
        label_under(labels, x, y, i + 1)
    }
}

/// The first pane under the coordinate, from index `i` on.
pub open spec fn pane_under(rects: Seq<(PaneId, Rect)>, x: u16, y: u16, i: int) -> Option<PaneId>
    decreases rects.len() - i,
{
    if i < 0 || i >= rects.len() {
        None
    } else if covers(rects[i].1, x as int, y as int) {
        Some(rects[i].0)
    } else {
        pane_under(rects, x, y, i + 1)
    }
}

/// What lies under a coordinate: a tab label before a stack label before a pane.
pub open spec fn under(
    x: u16,
    y: u16,
    tabs: Seq<TabRegion>,
    labels: Seq<StackRegion>,
    rects: Seq<(PaneId, Rect)>,
) -> ClickTarget {
    match tab_under(tabs, x, y, 0) {
        Some(i) => ClickTarget::Tab(i),
        None => match label_under(labels, x, y, 0) {
            Some(id) => ClickTarget::StackLabel(id),
            None => match pane_under(rects, x, y, 0) {
                Some(id) => ClickTarget::Pane(id),
                None => ClickTarget::Nothing,
            },
        },
    }
}

/// Whether the rectangle holds the coordinate.
pub fn rect_holds(rect: Rect, x: u16, y: u16) -> (r: bool)
    ensures
        r == covers(rect, x as int, y as int),
{
    x >= rect.x && (x as u32) < rect.x as u32 + rect.width as u32 && y >= rect.y && (y as u32)
        < rect.y as u32 + rect.height as u32
}

/// Perform a hit test at the given screen coordinates: tab labels first, then stack
/// labels, then panes.
#[verifier::loop_isolation(false)]
pub fn hit_test(x: u16, y: u16, regions: &HitRegions, pane_rects: &[(PaneId, Rect)]) -> (r:
    ClickTarget)
    ensures
        r == under(x, y, regions.tab_regions@, regions.stack_regions@, pane_rects@),
{
    let mut i: usize = 0;
    while i < regions.tab_regions.len()
        invariant
            i <= regions.tab_regions.len(),
            tab_under(regions.tab_regions@, x, y, 0) == tab_under(
                regions.tab_regions@,
                x,
                y,
                i as int,
            ),
        decreases regions.tab_regions.len() - i,
    {
        let t = regions.tab_regions[i];
        if y == t.y && x >= t.x_start && x < t.x_end {
            return ClickTarget::Tab(t.tab_index);
        }
        i += 1;
    }
    let mut j: usize = 0;
    while j < regions.stack_regions.len()
        invariant
            j <= regions.stack_regions.len(),
            label_under(regions.stack_regions@, x, y, 0) == label_under(
                regions.stack_regions@,
                x,
                y,
                j as int,
            ),
        decreases regions.stack_regions.len() - j,
    {
        let t = regions.stack_regions[j];
        if y == t.y && x >= t.x_start && x < t.x_end {
            return ClickTarget::StackLabel(t.pane_id);
        }
        j += 1;
    }
    let mut k: usize = 0;
    while k < pane_rects.len()
        invariant
            k <= pane_rects.len(),
            pane_under(pane_rects@, x, y, 0) == pane_under(pane_rects@, x, y, k as int),
        decreases pane_rects.len() - k,
    {
        if rect_holds(pane_rects[k].1, x, y) {
            return ClickTarget::Pane(pane_rects[k].0);
        }
        k += 1;
    }
    ClickTarget::Nothing
}

/// What lies under a coordinate when a popup floats above the layout.
pub open spec fn under_popup(
    x: u16,
    y: u16,
    tabs: Seq<TabRegion>,
    labels: Seq<StackRegion>,
    rects: Seq<(PaneId, Rect)>,
    popup: Option<(PaneId, Rect)>,
) -> ClickTarget {
    match popup {
        Some((id, r)) => if covers(r, x as int, y as int) {
            ClickTarget::Pane(id)
        } else {
            under(x, y, tabs, labels, rects)
        },
        None => under(x, y, tabs, labels, rects),
    }
}

/// Hit test with a popup: any coordinate inside the popup's rectangle resolves to
/// the popup, before the regions of the layout.
pub fn hit_test_with_popup(
    x: u16,
    y: u16,
    regions: &HitRegions,
    pane_rects: &[(PaneId, Rect)],
    popup: Option<(PaneId, Rect)>,
) -> (r: ClickTarget)
    ensures
        r == under_popup(
            x,
            y,
            regions.tab_regions@,
            regions.stack_regions@,
            pane_rects@,
            popup,
        ),
{
    match popup {
        Some((id, r)) => {
            if rect_holds(r, x, y) {
                return ClickTarget::Pane(id);
            }
        },
        None => {},
    }
    hit_test(x, y, regions, pane_rects)
}

/// The rectangle of the first entry for a pane, from index `i` on.
pub open spec fn rect_from(rects: Seq<(PaneId, Rect)>, id: PaneId, i: int) -> Option<Rect>
    decreases rects.len() - i,
{
    if i < 0 || i >= rects.len() {
        None
    } else if rects[i].0 == id {
        Some(rects[i].1)
    } else {
        rect_from(rects, id, i + 1)
    }
}

/// The rectangle of a pane, the popup's included.
pub open spec fn rect_with_popup(
    rects: Seq<(PaneId, Rect)>,
    popup: Option<(PaneId, Rect)>,
    id: PaneId,
) -> Option<Rect> {
    match popup {
        Some((p, r)) => if p == id {
            Some(r)
        } else {
            rect_from(rects, id, 0)
        },
        None => rect_from(rects, id, 0),
    }
}

/// The screen rectangle of a pane for coordinate mapping, the popup's included.
#[verifier::loop_isolation(false)]
pub fn rect_of_pane(
    pane_rects: &[(PaneId, Rect)],
    popup: Option<(PaneId, Rect)>,
    pane_id: PaneId,
) -> (r: Option<Rect>)
    ensures
        r == rect_with_popup(pane_rects@, popup, pane_id),
{
    match popup {
        Some((id, r)) => {
            if id == pane_id {
                return Some(r);
            }
        },
        None => {},
    }
    let mut i: usize = 0;
    while i < pane_rects.len()
        invariant
            i <= pane_rects.len(),
            rect_from(pane_rects@, pane_id, 0) == rect_from(pane_rects@, pane_id, i as int),
        decreases pane_rects.len() - i,
    {
        if pane_rects[i].0 == pane_id {
            return Some(pane_rects[i].1);
        }
        i += 1;
    }
    None
}

/// A selection with its start before its end in reading order.
pub open spec fn ordered(start: (u16, u16), end: (u16, u16)) -> ((u16, u16), (u16, u16)) {
    if start.1 < end.1 || (start.1 == end.1 && start.0 <= end.0) {
        (start, end)
    } else {
        (end, start)
    }
}

/// Normalize a selection so that the start position comes before the end position
/// in reading order.
pub fn normalize_selection(start: (u16, u16), end: (u16, u16)) -> (r: ((u16, u16), (u16, u16)))
    ensures
        r == ordered(start, end),
{
    if start.1 < end.1 || (start.1 == end.1 && start.0 <= end.0) {
        (start, end)
    } else {
        (end, start)
    }
}

// ---------------------------------------------------------------------------
// Laws
// ---------------------------------------------------------------------------

/// A coordinate inside the popup never reaches what is behind it.
pub proof fn law_the_popup_hides_what_is_behind_it(
    x: u16,
    y: u16,
    tabs: Seq<TabRegion>,
    labels: Seq<StackRegion>,
    rects: Seq<(PaneId, Rect)>,
    id: PaneId,
    r: Rect,
)
    requires
        covers(r, x as int, y as int),
    ensures
        under_popup(x, y, tabs, labels, rects, Some((id, r))) == ClickTarget::Pane(id),
{
}

/// It makes no difference in which direction a selection was dragged.
pub proof fn law_a_selection_has_no_direction(a: (u16, u16), b: (u16, u16))
    ensures
        ordered(a, b) == ordered(b, a),
{
}

} // verus!
