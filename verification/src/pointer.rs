//! Mouse events at a position of the session's screen.

use crate::blit::inset;
use crate::client::{
    anchor_on, click_report, deref_screen, report_click, yanked, ClientState, ClientView, Drag,
};
use crate::config::BorderStyle;
use crate::hit::{
    hit_test_with_popup, rect_of_pane, rect_with_popup, under_popup, ClickTarget, HitRegions,
};
use crate::layout::{opt_text, PaneId, Rect};
use crate::mouse::{
    border_inset, forward_button, forwarded, mouse_route, opt_bytes, report_coords, reported,
    routed, wheel_action, wheel_outcome, MouseGesture, MouseRoute, WheelAction, WheelView,
};
use crate::screen::{sub0, Screen};
use crate::selection::{drag_step, step_drag, DragStep};
use std::collections::HashMap;
use vstd::prelude::*;

verus! {

broadcast use vstd::std_specs::hash::group_hash_axioms;

/// What is on the session's screen, as far as the mouse is concerned.
pub struct Surface<'a> {
    pub regions: HitRegions,
    /// The rectangles of the layout's panes.
    pub pane_rects: Vec<(PaneId, Rect)>,
    /// The popup, if it is up.
    pub popup: Option<(PaneId, Rect)>,
    pub style: BorderStyle,
    /// The screens of the panes that are alive.
    pub screens: HashMap<PaneId, &'a Screen>,
}

impl<'a> Surface<'a> {
    /// What lies under a position.
    pub open spec fn under(&self, x: u16, y: u16) -> ClickTarget {
        under_popup(
            x,
            y,
            self.regions.tab_regions@,
            self.regions.stack_regions@,
            self.pane_rects@,
            self.popup,
        )
    }

    /// The rectangle of a pane.
    pub open spec fn rect(&self, pane: PaneId) -> Option<Rect> {
        rect_with_popup(self.pane_rects@, self.popup, pane)
    }

    /// The screen of a pane.
    pub open spec fn screen(&self, pane: PaneId) -> Option<Screen> {
        if self.screens@.contains_key(pane) {
            Some(*self.screens@[pane])
        } else {
            None
        }
    }

    fn screen_of(&self, pane: PaneId) -> (r: Option<&Screen>)
        ensures
            deref_screen(r) == self.screen(pane),
    {
        match self.screens.get(&pane) {
            Some(s) => Some(*s),
            None => None,
        }
    }
}

// ---------------------------------------------------------------------------
// Drags
// ---------------------------------------------------------------------------

/// What a drag leads to.
#[derive(Debug)]
pub enum DragOutcome {
    /// Nothing: it began on no pane, or on one that is gone.
    Ignored,
    /// The application of the pane gets these bytes, if any.
    Forward(PaneId, Option<Vec<u8>>),
    /// The client's screen is drawn again, and the text is copied, if any.
    Select(Option<String>),
}

/// The contents of an outcome.
pub enum DragOutcomeView {
    Ignored,
    Forward(PaneId, Option<Seq<u8>>),
    Select(Option<Seq<char>>),
}

impl View for DragOutcome {
    type V = DragOutcomeView;

    open spec fn view(&self) -> DragOutcomeView {
        match self {
            DragOutcome::Ignored => DragOutcomeView::Ignored,
            DragOutcome::Forward(p, b) => DragOutcomeView::Forward(*p, opt_bytes(*b)),
            DragOutcome::Select(t) => DragOutcomeView::Select(opt_text(*t)),
        }
    }
}

/// The number of content cells of a pane along one side.
pub open spec fn content_extent(len: u16, inset: int) -> u16 {
    sub0(len as int, 2 * inset) as u16
}

/// A screen coordinate relative to the content of a pane, moved into it.
pub open spec fn local(v: u16, origin: u16, inset: int, extent: u16) -> u16 {
    let d = sub0(v as int, origin + inset);
    let last = sub0(extent as int, 1);
    (if d < last {
        d
    } else {
        last
    }) as u16
}

fn to_local(v: u16, origin: u16, off: u16, extent: u16) -> (r: u16)
    ensures
        r == local(v, origin, off as int, extent),
{
    let d: u16 = v.saturating_sub(origin).saturating_sub(off);
    let last: u16 = extent.saturating_sub(1);
    if d < last {
        d
    } else {
        last
    }
}

/// The step that a drag in a pane takes. Only the pane that has the focus is
/// scrolled; any other is at its live view.
pub open spec fn session_step(
    c: ClientView,
    pane: PaneId,
    rect: Rect,
    style: BorderStyle,
    screen: Screen,
    focused: bool,
    d: Drag,
) -> DragStep {
    let off = inset(style, rect);
    let width = content_extent(rect.width, off);
    let height = content_extent(rect.height, off);
    drag_step(
        screen,
        height,
        anchor_on(c.drag, pane),
        (local(d.start_x, rect.x, off, width), local(d.start_y, rect.y, off, height)),
        (local(d.end_x, rect.x, off, width), local(d.end_y, rect.y, off, height)),
        if focused {
            c.scroll_offset
        } else {
            0
        },
        focused && !d.is_final && routed(screen, MouseGesture::Button, c.copying()) == (
        MouseRoute::Remux { scrollback: true }),
    )
}

/// What a drag leads to.
pub open spec fn drag_outcome(
    c: ClientView,
    s: Surface,
    focused: Option<PaneId>,
    auto_yank: bool,
    d: Drag,
) -> (ClientView, DragOutcomeView) {
    let quiet = ClientView { autoscroll_repeat: None, ..c };
    match s.under(d.start_x, d.start_y) {
        ClickTarget::Pane(pane) => match (s.rect(pane), s.screen(pane)) {
            (Some(rect), Some(screen)) => if c.session_name is None {
                (quiet, DragOutcomeView::Ignored)
            } else {
                match routed(screen, MouseGesture::Button, c.copying()) {
                    MouseRoute::App { sgr, motion } => (
                        quiet,
                        DragOutcomeView::Forward(
                            pane,
                            forwarded(
                                sgr,
                                motion,
                                d.phase_of(),
                                reported(d.end_x, rect.x, inset(s.style, rect)),
                                reported(d.end_y, rect.y, inset(s.style, rect)),
                            ),
                        ),
                    ),
                    _ => {
                        let own = focused == Some(pane);
                        let step = session_step(c, pane, rect, s.style, screen, own, d);
                        (
                            c.dragged(pane, step, own, d, auto_yank),
                            DragOutcomeView::Select(yanked(screen, step, d.is_final, auto_yank)),
                        )
                    },
                }
            },
            _ => (quiet, DragOutcomeView::Ignored),
        },
        _ => (quiet, DragOutcomeView::Ignored),
    }
}

/// Handle a drag over the session's screen. `focused` is the pane of the active tab
/// that has the focus.
pub fn handle_mouse_drag(
    client: &mut ClientState,
    surface: &Surface,
    focused: Option<PaneId>,
    auto_yank: bool,
    d: Drag,
) -> (r: DragOutcome)
    ensures
        (final(client)@, r@) == drag_outcome(old(client)@, *surface, focused, auto_yank, d),
{
    if client.session_name.is_none() {
        client.disarm_autoscroll();
        return DragOutcome::Ignored;
    }
    let pane: PaneId = match hit_test_with_popup(
        d.start_x,
        d.start_y,
        &surface.regions,
        &surface.pane_rects,
        surface.popup,
    ) {
        ClickTarget::Pane(id) => id,
        _ => {
            client.disarm_autoscroll();
            return DragOutcome::Ignored;
        },
    };
    let rect: Rect = match rect_of_pane(&surface.pane_rects, surface.popup, pane) {
        Some(r) => r,
        None => {
            client.disarm_autoscroll();
            return DragOutcome::Ignored;
        },
    };
    let screen: &Screen = match surface.screen_of(pane) {
        Some(s) => s,
        None => {
            client.disarm_autoscroll();
            return DragOutcome::Ignored;
        },
    };
    let route = mouse_route(screen, MouseGesture::Button, client.in_copy_mode());
    match route {
        MouseRoute::App { sgr, motion } => {
            client.disarm_autoscroll();
            let (col, row) = report_coords(&surface.style, rect, d.end_x, d.end_y);
            return DragOutcome::Forward(pane, forward_button(sgr, motion, d.phase(), col, row));
        },
        _ => {},
    }
    let may_scroll = match route {
        MouseRoute::Remux { scrollback } => scrollback,
        _ => false,
    };
    let off: u16 = border_inset(&surface.style, rect);
    let width: u16 = rect.width.saturating_sub(off * 2);
    let height: u16 = rect.height.saturating_sub(off * 2);
    let own = match focused {
        Some(f) => f == pane,
        None => false,
    };
    let running = match client.drag {
        Some(g) => if g.pane_id == pane {
            Some((g.anchor_col, g.anchor_abs))
        } else {
            None
        },
        None => None,
    };
    let base: usize = if own {
        client.scroll_offset
    } else {
        0
    };
    let step = step_drag(
        screen,
        height,
        running,
        (to_local(d.start_x, rect.x, off, width), to_local(d.start_y, rect.y, off, height)),
        (to_local(d.end_x, rect.x, off, width), to_local(d.end_y, rect.y, off, height)),
        base,
        own && !d.is_final && may_scroll,
    );
    assert(step == session_step(client@, pane, rect, surface.style, *screen, own, d));
    DragOutcome::Select(client.apply_drag(pane, screen, step, own, d, auto_yank))
}

/// A drag that an application takes selects nothing and scrolls nothing.
pub proof fn law_an_application_keeps_its_drag(
    c: ClientView,
    s: Surface,
    focused: Option<PaneId>,
    auto_yank: bool,
    d: Drag,
)
    requires
        drag_outcome(c, s, focused, auto_yank, d).1 is Forward,
    ensures
        drag_outcome(c, s, focused, auto_yank, d).0 == (ClientView {
            autoscroll_repeat: None,
            ..c
        }),
{
}

/// On the alternate screen a drag moves no view and sets no timer, whatever edge it
/// rests on.
pub proof fn law_the_alternate_screen_is_not_scrolled(
    c: ClientView,
    s: Surface,
    focused: Option<PaneId>,
    auto_yank: bool,
    d: Drag,
    pane: PaneId,
)
    requires
        s.under(d.start_x, d.start_y) == ClickTarget::Pane(pane),
        s.screen(pane) matches Some(screen) && screen.alt_screen_active,
    ensures
        drag_outcome(c, s, focused, auto_yank, d).0.scroll_offset == c.scroll_offset,
        drag_outcome(c, s, focused, auto_yank, d).0.autoscroll_repeat is None,
{
}

// ---------------------------------------------------------------------------
// Clicks
// ---------------------------------------------------------------------------

/// What a click changes in the session.
#[derive(Clone, Copy, PartialEq, Eq, Debug, Structural)]
pub enum ClickEffect {
    Nothing,
    /// Give a pane of the active tab the focus.
    Focus(PaneId),
    /// Show another tab.
    GotoTab(usize),
    /// Show a pane of a stack and give it the focus.
    Activate(PaneId),
}

/// What a click leads to: the report for the application of a pane, if any, and what
/// changes in the session.
#[derive(Debug)]
pub struct ClickOutcome {
    pub report: Option<(PaneId, Vec<u8>)>,
    pub effect: ClickEffect,
}

/// The bytes of a report, and the pane they go to.
pub open spec fn report_view(r: Option<(PaneId, Vec<u8>)>) -> Option<(PaneId, Seq<u8>)> {
    match r {
        Some((p, b)) => Some((p, b@)),
        None => None,
    }
}

/// The report for the application under a click. A popup that is up has the mouse to
/// itself.
pub open spec fn clicked_report(
    s: Surface,
    copy_mode: bool,
    x: u16,
    y: u16,
    release: bool,
) -> Option<(PaneId, Seq<u8>)> {
    match s.under(x, y) {
        ClickTarget::Pane(pane) => match s.rect(pane) {
            Some(rect) => if s.popup is None || (s.popup->0).0 == pane {
                match click_report(
                    s.screen(pane),
                    copy_mode,
                    release,
                    reported(x, rect.x, inset(s.style, rect)),
                    reported(y, rect.y, inset(s.style, rect)),
                ) {
                    Some(b) => Some((pane, b)),
                    None => None,
                }
            } else {
                None
            },
            None => None,
        },
        _ => None,
    }
}

/// What a press changes in the session. While a popup is up the layout's focus stays,
/// but tabs can still be switched.
pub open spec fn click_effect(target: ClickTarget, popup_up: bool, release: bool) -> ClickEffect {
    if release {
        ClickEffect::Nothing
    } else {
        match target {
            ClickTarget::Tab(i) => ClickEffect::GotoTab(i),
            ClickTarget::Pane(p) => if popup_up {
                ClickEffect::Nothing
            } else {
                ClickEffect::Focus(p)
            },
            ClickTarget::StackLabel(p) => if popup_up {
                ClickEffect::Nothing
            } else {
                ClickEffect::Activate(p)
            },
            ClickTarget::Nothing => ClickEffect::Nothing,
        }
    }
}

/// Handle a press or a release at a position of the session's screen.
pub fn handle_mouse_click(
    client: &mut ClientState,
    surface: &Surface,
    x: u16,
    y: u16,
    release: bool,
) -> (r: ClickOutcome)
    ensures
        final(client)@ == old(client)@.clicked(release),
        old(client)@.session_name is None ==> r.report is None && r.effect
            == ClickEffect::Nothing,
        old(client)@.session_name is Some ==> report_view(r.report) == clicked_report(
            *surface,
            old(client)@.copying(),
            x,
            y,
            release,
        ) && r.effect == click_effect(surface.under(x, y), surface.popup is Some, release),
{
    client.click(release);
    if client.session_name.is_none() {
        return ClickOutcome { report: None, effect: ClickEffect::Nothing };
    }
    let target = hit_test_with_popup(
        x,
        y,
        &surface.regions,
        &surface.pane_rects,
        surface.popup,
    );
    let popup_up = surface.popup.is_some();
    let report: Option<(PaneId, Vec<u8>)> = match target {
        ClickTarget::Pane(pane) => {
            let mine = match surface.popup {
                Some((p, _)) => p == pane,
                None => true,
            };
            match rect_of_pane(&surface.pane_rects, surface.popup, pane) {
                Some(rect) => {
                    if mine {
                        let (col, row) = report_coords(&surface.style, rect, x, y);
                        match report_click(
                            surface.screen_of(pane),
                            client.in_copy_mode(),
                            release,
                            col,
                            row,
                        ) {
                            Some(bytes) => Some((pane, bytes)),
                            None => None,
                        }
                    } else {
                        None
                    }
                },
                None => None,
            }
        },
        _ => None,
    };
    let effect = if release {
        ClickEffect::Nothing
    } else {
        match target {
            ClickTarget::Tab(i) => ClickEffect::GotoTab(i),
            ClickTarget::Pane(p) => if popup_up {
                ClickEffect::Nothing
            } else {
                ClickEffect::Focus(p)
            },
            ClickTarget::StackLabel(p) => if popup_up {
                ClickEffect::Nothing
            } else {
                ClickEffect::Activate(p)
            },
            ClickTarget::Nothing => ClickEffect::Nothing,
        }
    };
    ClickOutcome { report, effect }
}

/// While a popup is up no click moves the focus of the layout, and no pane behind it
/// is sent anything.
pub proof fn law_a_popup_shields_the_layout(
    s: Surface,
    copy_mode: bool,
    x: u16,
    y: u16,
    release: bool,
)
    requires
        s.popup is Some,
    ensures
        click_effect(s.under(x, y), true, release) is Nothing || click_effect(
            s.under(x, y),
            true,
            release,
        ) is GotoTab,
        clicked_report(s, copy_mode, x, y, release) matches Some((p, _)) ==> p == (s.popup->0).0,
{
}

// ---------------------------------------------------------------------------
// The wheel
// ---------------------------------------------------------------------------

/// The pane that a wheel notch is meant for: the one under the pointer, or else the
/// one that owns input.
pub open spec fn wheel_target(s: Surface, x: u16, y: u16, input: Option<PaneId>) -> Option<PaneId> {
    match s.under(x, y) {
        ClickTarget::Pane(p) => Some(p),
        _ => input,
    }
}

/// What a wheel notch leads to.
pub open spec fn wheel_result(
    c: ClientView,
    s: Surface,
    input: Option<PaneId>,
    x: u16,
    y: u16,
    up: bool,
) -> Option<(PaneId, WheelView)> {
    match wheel_target(s, x, y, input) {
        Some(pane) => match (s.rect(pane), s.screen(pane)) {
            (Some(rect), Some(screen)) => if c.session_name is None {
                None
            } else {
                Some(
                    (
                        pane,
                        wheel_outcome(
                            routed(screen, MouseGesture::Wheel, c.copying()),
                            up,
                            reported(x, rect.x, inset(s.style, rect)),
                            reported(y, rect.y, inset(s.style, rect)),
                        ),
                    ),
                )
            },
            _ => None,
        },
        None => None,
    }
}

/// The pane and what to do, as mathematical values.
pub open spec fn wheel_view(r: Option<(PaneId, WheelAction)>) -> Option<(PaneId, WheelView)> {
    match r {
        Some((p, a)) => Some((p, a@)),
        None => None,
    }
}

/// Handle a wheel notch at a position of the session's screen. `input` is the pane
/// that owns input. A scroll is applied to that pane by
/// [`ClientState::handle_scroll_delta`].
pub fn handle_mouse_scroll(
    client: &ClientState,
    surface: &Surface,
    input: Option<PaneId>,
    x: u16,
    y: u16,
    up: bool,
) -> (r: Option<(PaneId, WheelAction)>)
    ensures
        wheel_view(r) == wheel_result(client@, *surface, input, x, y, up),
{
    if client.session_name.is_none() {
        return None;
    }
    let target: Option<PaneId> = match hit_test_with_popup(
        x,
        y,
        &surface.regions,
        &surface.pane_rects,
        surface.popup,
    ) {
        ClickTarget::Pane(id) => Some(id),
        _ => input,
    };
    let pane: PaneId = match target {
        Some(p) => p,
        None => {
            return None;
        },
    };
    let rect: Rect = match rect_of_pane(&surface.pane_rects, surface.popup, pane) {
        Some(r) => r,
        None => {
            return None;
        },
    };
    match surface.screen_of(pane) {
        Some(screen) => Some(
            (
                pane,
                wheel_action(screen, client.in_copy_mode(), &surface.style, rect, x, y, up),
            ),
        ),
        None => None,
    }
}

} // verus!
