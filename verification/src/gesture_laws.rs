//! What the mouse does: where a drag begins and ends, what it copies, how far the wheel and
//! the edges scroll, and whom a report goes to.

use crate::client::{ClientView, Drag};
use crate::hit::ClickTarget;
use crate::layout::{PaneId, Rect};
use crate::mouse::{forwarded, ButtonPhase, WheelView};
use crate::pointer::{
    click_effect, clicked_report, drag_outcome, session_step, wheel_result, ClickEffect,
    DragOutcomeView, Surface,
};
use crate::screen::Screen;
use crate::selection::{drag_step, selection_text, DragStep, Point};
use vstd::prelude::*;

verus! {

// ---------------------------------------------------------------------------
// One step of a drag
// ---------------------------------------------------------------------------

/// A drag goes from its anchor to the pointer. A drag that begins has its anchor on the line
/// under the place where it began; one that goes on keeps the anchor it has. The end is on
/// the line under the pointer, as the view is after the step.
pub proof fn law_a_drag_goes_from_its_anchor_to_the_pointer(
    screen: Screen,
    height: u16,
    running: Option<(u16, usize)>,
    start: (u16, u16),
    end: (u16, u16),
    base: usize,
    moves: bool,
)
    requires
        screen.lines_evicted + screen.scrollback@.len() + screen.grid@.len() + u16::MAX
            <= usize::MAX,
        screen.rows <= screen.scrollback@.len() + screen.grid@.len(),
        base <= screen.max_offset(),
    ensures
        ({
            let step = drag_step(screen, height, running, start, end, base, moves);
            let lines = screen.scrollback@.len() + screen.grid@.len();
            let first = |offset: int| screen.lines_evicted + lines - offset - screen.rows;
            &&& match running {
                Some((col, abs)) => step.anchor_col == col && step.anchor_abs == abs,
                None => step.anchor_col == start.0 && step.anchor_abs == first(base as int)
                    + start.1,
            }
            &&& step.end_col == end.0 && step.end_row == end.1
            &&& step.end_abs == first(step.offset as int) + end.1
            &&& first(step.offset as int) <= step.anchor_abs < first(step.offset as int) + height
                ==> step.anchor_row == step.anchor_abs - first(step.offset as int)
        }),
{
}

/// At the upper edge a drag that may scroll shows one older line, and at the lower edge one
/// newer line, as far as there are any. Anywhere else, and where it may not scroll, the view
/// stays.
pub proof fn law_a_drag_scrolls_at_the_edges(
    screen: Screen,
    height: u16,
    running: Option<(u16, usize)>,
    start: (u16, u16),
    end: (u16, u16),
    base: usize,
    moves: bool,
)
    requires
        base <= screen.max_offset(),
        height > 1,
    ensures
        ({
            let step = drag_step(screen, height, running, start, end, base, moves);
            let max = screen.max_offset();
            &&& moves && end.1 == 0 && base < max ==> step.offset == base + 1
            &&& moves && end.1 == 0 && base == max ==> step.offset == base
            &&& moves && end.1 == height - 1 && base > 0 ==> step.offset == base - 1
            &&& moves && end.1 == height - 1 && base == 0 ==> step.offset == 0
            &&& !moves || 0 < end.1 < height - 1 ==> step.offset == base && !step.repeat
            &&& step.repeat == (moves && (end.1 == 0 && step.offset < max || end.1 == height - 1
                && step.offset > 0))
        }),
{
}

// ---------------------------------------------------------------------------
// Drags in a session
// ---------------------------------------------------------------------------

/// A drag in a pane whose application does not want the mouse selects in that pane. The
/// highlight goes from where the drag began to the pointer, counted from the first cell of
/// the pane's content.
pub proof fn law_a_drag_selects_in_its_pane(
    c: ClientView,
    s: Surface,
    focused: Option<PaneId>,
    auto_yank: bool,
    d: Drag,
    pane: PaneId,
    rect: Rect,
    screen: Screen,
)
    requires
        c.session_name is Some,
        s.under(d.start_x, d.start_y) == ClickTarget::Pane(pane),
        s.rect(pane) == Some(rect),
        s.screen(pane) == Some(screen),
        c.copying() || !screen.mouse_tracking,
        !d.is_final,
        c.drag is None,
        focused != Some(pane),
        rect.width >= 3 && rect.height >= 3,
        ({
            let e = if s.style is ZellijStyle {
                1int
            } else {
                0
            };
            &&& rect.x + e <= d.start_x < rect.x + rect.width - e
            &&& rect.y + e <= d.start_y < rect.y + rect.height - e
            &&& rect.x + e <= d.end_x < rect.x + rect.width - e
            &&& rect.y + e <= d.end_y < rect.y + rect.height - e
            &&& rect.height - 2 * e <= screen.rows
        }),
        screen.lines_evicted + screen.scrollback@.len() + screen.grid@.len() + u16::MAX
            <= usize::MAX,
        screen.rows <= screen.scrollback@.len() + screen.grid@.len(),
    ensures
        ({
            let e = if s.style is ZellijStyle {
                1int
            } else {
                0
            };
            let (after, outcome) = drag_outcome(c, s, focused, auto_yank, d);
            &&& outcome is Select
            &&& after.mouse_selection matches Some(sel) && sel.pane_id == pane && sel.start.0
                == d.start_x - rect.x - e && sel.start.1 == d.start_y - rect.y - e && sel.end.0
                == d.end_x - rect.x - e && sel.end.1 == d.end_y - rect.y - e
            &&& after.drag matches Some(g) && g.pane_id == pane
            &&& after.scroll_offset == c.scroll_offset
        }),
{
}

/// The end of a drag copies the text from the anchor to the pointer where copying is wanted,
/// and takes the highlight away; where it is not, the highlight stays and nothing is copied.
/// Either way the gesture is over and nothing scrolls on.
pub proof fn law_the_end_of_a_drag_copies(
    c: ClientView,
    s: Surface,
    focused: Option<PaneId>,
    auto_yank: bool,
    d: Drag,
    pane: PaneId,
    rect: Rect,
    screen: Screen,
)
    requires
        c.session_name is Some,
        s.under(d.start_x, d.start_y) == ClickTarget::Pane(pane),
        s.rect(pane) == Some(rect),
        s.screen(pane) == Some(screen),
        c.copying() || !screen.mouse_tracking,
        d.is_final,
    ensures
        ({
            let (after, outcome) = drag_outcome(c, s, focused, auto_yank, d);
            let step = session_step(c, pane, rect, s.style, screen, focused == Some(pane), d);
            let text = selection_text(
                screen,
                Point { abs: step.anchor_abs, col: step.anchor_col },
                Point { abs: step.end_abs, col: step.end_col },
            );
            &&& after.drag is None
            &&& after.autoscroll_repeat is None
            &&& after.scroll_offset == c.scroll_offset
            &&& (c.drag matches Some(g) && g.pane_id == pane) ==> step.anchor_abs
                == c.drag->0.anchor_abs && step.anchor_col == c.drag->0.anchor_col
            &&& auto_yank ==> after.mouse_selection is None
            &&& !auto_yank ==> after.mouse_selection is Some
            &&& outcome == DragOutcomeView::Select(
                if auto_yank && text.len() > 0 {
                    Some(text)
                } else {
                    None
                },
            )
        }),
{
}

/// A drag that is not over goes on: the gesture is kept with its anchor, and what is
/// highlighted is not copied yet.
pub proof fn law_a_drag_in_progress_copies_nothing(
    c: ClientView,
    s: Surface,
    focused: Option<PaneId>,
    auto_yank: bool,
    d: Drag,
)
    requires
        !d.is_final,
    ensures
        ({
            let (after, outcome) = drag_outcome(c, s, focused, auto_yank, d);
            &&& outcome matches DragOutcomeView::Select(text) ==> text is None && after.drag is Some
                && after.mouse_selection is Some
            &&& outcome is Select && (c.drag matches Some(g) && s.under(d.start_x, d.start_y)
                == ClickTarget::Pane(g.pane_id)) ==> after.drag->0.anchor_abs
                == c.drag->0.anchor_abs && after.drag->0.anchor_col == c.drag->0.anchor_col
        }),
{
}

/// A press ends a selection, a drag and edge scrolling. A release only ends edge scrolling:
/// what was selected stays.
pub proof fn law_a_press_begins_anew(c: ClientView)
    ensures
        c.clicked(false).mouse_selection is None,
        c.clicked(false).drag is None,
        c.clicked(false).autoscroll_repeat is None,
        c.clicked(true).mouse_selection == c.mouse_selection,
        c.clicked(true).drag == c.drag,
        c.clicked(true).autoscroll_repeat is None,
        c.clicked(false).scroll_offset == c.scroll_offset,
        c.clicked(true).scroll_offset == c.scroll_offset,
{
}

// ---------------------------------------------------------------------------
// Scrolling
// ---------------------------------------------------------------------------

/// Scrolling moves the view by as many lines: back for a positive number, forward for a
/// negative one, no further than the oldest line and the live one.
pub proof fn law_scrolling_moves_by_the_lines(c: ClientView, delta: int, pane: PaneId, screen: Screen)
    requires
        c.scroll_offset <= screen.max_offset(),
    ensures
        ({
            let to = c.scroll_offset + delta;
            let after = c.scrolled(delta, Some((pane, screen)));
            &&& 0 <= to <= screen.max_offset() ==> after.scroll_offset == to
            &&& to < 0 ==> after.scroll_offset == 0
            &&& to > screen.max_offset() ==> after.scroll_offset == screen.max_offset()
            &&& after.session_name == c.session_name && after.mode == c.mode
            &&& after.subscribed_panes == c.subscribed_panes && after.pane_scroll == c.pane_scroll
        }),
{
}

/// While a drag is held, scrolling stretches what it selects up to the edge that comes into
/// view: to the first cell going back, and to the last one going forward. The anchor stays.
pub proof fn law_scrolling_stretches_a_drag(
    c: ClientView,
    delta: int,
    pane: PaneId,
    screen: Screen,
)
    requires
        c.drag matches Some(d) && d.pane_id == pane,
        0 < screen.rows && 0 < screen.cols,
        screen.lines_evicted + screen.scrollback@.len() + screen.grid@.len() + u16::MAX
            <= usize::MAX,
        screen.rows <= screen.scrollback@.len() + screen.grid@.len(),
        c.scroll_offset <= screen.max_offset(),
        c.scrolled(delta, Some((pane, screen))).scroll_offset != c.scroll_offset,
    ensures
        ({
            let after = c.scrolled(delta, Some((pane, screen)));
            let first = screen.lines_evicted + screen.scrollback@.len() + screen.grid@.len()
                - after.scroll_offset - screen.rows;
            &&& after.drag matches Some(g) && {
                &&& g.pane_id == pane
                &&& g.anchor_abs == c.drag->0.anchor_abs && g.anchor_col == c.drag->0.anchor_col
                &&& delta > 0 ==> g.end_abs == first && g.end_col == 0
                &&& delta <= 0 ==> g.end_abs == first + screen.rows - 1 && g.end_col == screen.cols
                    - 1
            }
            &&& after.mouse_selection matches Some(sel) && {
                &&& sel.pane_id == pane && sel.start.0 == c.drag->0.anchor_col
                &&& delta > 0 ==> sel.end == (0u16, 0u16)
                &&& delta <= 0 ==> sel.end.0 == screen.cols - 1 && sel.end.1 == screen.rows - 1
            }
        }),
{
}

/// A notch of the wheel scrolls three lines, back for up; an application that asked for the
/// mouse gets a report instead, and one on the alternate screen that did not gets three arrow
/// keys. Copy mode keeps the wheel.
pub proof fn law_the_wheel_scrolls_or_is_handed_on(
    c: ClientView,
    s: Surface,
    input: Option<PaneId>,
    x: u16,
    y: u16,
    up: bool,
    pane: PaneId,
    screen: Screen,
)
    requires
        c.session_name is Some,
        s.rect(pane) is Some,
        s.screen(pane) == Some(screen),
        s.under(x, y) == ClickTarget::Pane(pane) || (!(s.under(x, y) is Pane) && input == Some(
            pane,
        )),
    ensures
        wheel_result(c, s, input, x, y, up) matches Some((to, what)) && {
            &&& to == pane
            &&& c.copying() || (!screen.mouse_tracking && !screen.alt_screen_active) ==> what
                == WheelView::Scroll(
                if up {
                    3
                } else {
                    -3
                },
            )
            &&& !c.copying() && screen.mouse_tracking ==> what is Send
            &&& !c.copying() && !screen.mouse_tracking && screen.alt_screen_active ==> {
                let key = seq![
                    0x1bu8,
                    if screen.application_cursor_keys {
                        0x4fu8
                    } else {
                        0x5bu8
                    },
                    if up {
                        0x41u8
                    } else {
                        0x42u8
                    },
                ];
                what == WheelView::Send(key + key + key)
            }
        },
{
    if !c.copying() && !screen.mouse_tracking && screen.alt_screen_active {
        reveal_with_fuel(crate::mouse::arrows, 4);
        let key = crate::mouse::arrow_bytes(screen.application_cursor_keys, up);
        assert(crate::mouse::arrows(screen.application_cursor_keys, up, 3) =~= key + key + key);
    }
}

/// Back at the live tail nothing is scrolled, and the next frame is a whole one.
pub proof fn law_the_live_tail_is_not_scrolled(c: ClientView)
    ensures
        c.live().scroll_offset == 0,
        c.live().prev_scroll_offset == 0,
        c.live().needs_full_render,
        c.live().mode == c.mode,
        c.live().session_name == c.session_name,
        c.typing_ends_scroll() ==> c.scroll_offset > 0,
{
}

// ---------------------------------------------------------------------------
// Watched panes
// ---------------------------------------------------------------------------

/// Scrolling a watched pane moves the view of this client on this pane alone: by as many
/// lines, back for up, within what there is. A selection that no drag holds is dropped.
pub proof fn law_a_watched_pane_scrolls_by_the_lines(
    c: ClientView,
    pane: PaneId,
    screen: Screen,
    up: bool,
    lines: u16,
    other: PaneId,
)
    requires
        c.pane_offset(pane) <= screen.max_offset(),
        other != pane,
    ensures
        ({
            let after = c.pane_scrolled(pane, screen, up, lines);
            let was = c.pane_offset(pane);
            &&& up && was + lines <= screen.max_offset() ==> after.pane_offset(pane) == was + lines
            &&& up && was + lines > screen.max_offset() ==> after.pane_offset(pane)
                == screen.max_offset()
            &&& !up && was >= lines ==> after.pane_offset(pane) == was - lines
            &&& !up && was < lines ==> after.pane_offset(pane) == 0
            &&& after.pane_offset(other) == c.pane_offset(other)
            &&& after.scroll_offset == c.scroll_offset
            &&& !(c.pane_drag matches Some(g) && g.pane_id == pane)
                ==> !after.pane_selection.contains_key(pane)
            &&& (c.pane_drag matches Some(g) && g.pane_id == pane) ==> (after.pane_drag matches Some(
                now,
            ) && now.anchor_abs == c.pane_drag->0.anchor_abs && now.anchor_col
                == c.pane_drag->0.anchor_col)
        }),
{
}

/// A drag in a watched pane keeps its anchor while it lasts, and its end takes the highlight
/// away where the text is copied. It leaves the drag and the view of the session alone.
pub proof fn law_a_watched_pane_has_its_own_drag(
    c: ClientView,
    pane: PaneId,
    step: DragStep,
    d: Drag,
    auto_yank: bool,
)
    ensures
        ({
            let after = c.pane_dragged(pane, step, d, auto_yank);
            &&& d.is_final ==> after.pane_drag is None
            &&& !d.is_final ==> (after.pane_drag matches Some(g) && g.pane_id == pane
                && g.anchor_abs == step.anchor_abs && g.anchor_col == step.anchor_col && g.end_abs
                == step.end_abs && g.end_col == step.end_col)
            &&& d.is_final && auto_yank ==> !after.pane_selection.contains_key(pane)
            &&& !(d.is_final && auto_yank) ==> after.pane_selection.contains_key(pane)
                && after.pane_selection[pane].start == (step.anchor_col, step.anchor_row)
                && after.pane_selection[pane].end == (step.end_col, step.end_row)
            &&& after.pane_offset(pane) == step.offset
            &&& after.drag == c.drag && after.scroll_offset == c.scroll_offset
                && after.mouse_selection == c.mouse_selection
        }),
{
}

/// Watching a pane records the demand; a pane that is watched anew begins at its live view
/// with nothing selected, and no other pane is concerned.
pub proof fn law_a_newly_watched_pane_is_live(
    c: ClientView,
    pane: PaneId,
    demand: Option<(u16, u16)>,
    other: PaneId,
)
    requires
        other != pane,
    ensures
        c.watching(pane, demand).subscribed_panes.contains_key(pane),
        c.watching(pane, demand).subscribed_panes[pane] == demand,
        !c.subscribed_panes.contains_key(pane) ==> c.watching(pane, demand).pane_offset(pane) == 0
            && !c.watching(pane, demand).pane_selection.contains_key(pane),
        c.watching(pane, demand).subscribed_panes.contains_key(other)
            == c.subscribed_panes.contains_key(other),
        c.watching(pane, demand).pane_offset(other) == c.pane_offset(other),
{
}

// ---------------------------------------------------------------------------
// Clicks
// ---------------------------------------------------------------------------

/// A press on a pane gives it the focus, one on a stack label shows its pane, and one on a
/// tab goes there. While the popup is up only tabs react, and a release changes nothing.
pub proof fn law_a_press_acts_on_what_it_hits(target: ClickTarget, popup_up: bool)
    ensures
        click_effect(target, popup_up, true) == ClickEffect::Nothing,
        target matches ClickTarget::Tab(i) ==> click_effect(target, popup_up, false)
            == ClickEffect::GotoTab(i),
        target matches ClickTarget::Pane(p) ==> click_effect(target, popup_up, false) == (
        if popup_up {
            ClickEffect::Nothing
        } else {
            ClickEffect::Focus(p)
        }),
        target matches ClickTarget::StackLabel(p) ==> click_effect(target, popup_up, false) == (
        if popup_up {
            ClickEffect::Nothing
        } else {
            ClickEffect::Activate(p)
        }),
        target is Nothing ==> click_effect(target, popup_up, false) == ClickEffect::Nothing,
{
}

/// The application under a click is told of it exactly if it asked for the mouse and the
/// user does not hold it for copying; a popup that is up has the mouse to itself.
pub proof fn law_a_click_is_reported_to_who_asked(
    s: Surface,
    copy_mode: bool,
    x: u16,
    y: u16,
    release: bool,
    pane: PaneId,
    screen: Screen,
)
    requires
        s.under(x, y) == ClickTarget::Pane(pane),
        s.rect(pane) is Some,
        s.screen(pane) == Some(screen),
    ensures
        clicked_report(s, copy_mode, x, y, release) is Some == (!copy_mode && screen.mouse_tracking
            && (s.popup is None || (s.popup->0).0 == pane)),
        clicked_report(s, copy_mode, x, y, release) matches Some((to, _)) ==> to == pane,
{
}

/// Motion is only reported to an application that asked for it; presses and releases always
/// are.
pub proof fn law_motion_is_reported_on_request(
    sgr: bool,
    motion: bool,
    phase: ButtonPhase,
    col: u16,
    row: u16,
)
    ensures
        forwarded(sgr, motion, phase, col, row) is None == (phase == ButtonPhase::Motion
            && !motion),
{
}

} // verus!
