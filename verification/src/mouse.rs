//! Mouse events: who gets them, and the bytes an application reads.

use crate::blit::inset;
use crate::boxes::{fits_zellij_border, roomy};
use crate::config::BorderStyle;
use crate::layout::Rect;
use crate::screen::{sub0, Screen};
use crate::text::{decimal, decimal_chars};
use vstd::prelude::*;

verus! {

/// Lines a single wheel notch moves.
pub const WHEEL_LINES: u16 = 3;

// ---------------------------------------------------------------------------
// Reports
// ---------------------------------------------------------------------------

/// The decimal digits of a number, as bytes.
pub open spec fn digits(n: nat) -> Seq<u8> {
    decimal(n).map_values(|c: char| c as u8)
}

/// A mouse report in the SGR encoding, which ends in `last`.
pub open spec fn sgr_bytes(button: nat, col: nat, row: nat, last: u8) -> Seq<u8> {
    seq![0x1bu8, 0x5bu8, 0x3cu8] + digits(button) + seq![0x3bu8] + digits(col) + seq![0x3bu8]
        + digits(row) + seq![last]
}

/// A field of a report in the legacy encoding.
pub open spec fn biased(v: u16) -> u8 {
    if v > 223 {
        255
    } else {
        (32 + v) as u8
    }
}

/// A mouse report in the legacy encoding.
pub open spec fn legacy_bytes(button: u16, col: u16, row: u16) -> Seq<u8> {
    seq![0x1bu8, 0x5bu8, 0x4du8, biased(button), biased(col), biased(row)]
}

fn push_digits(out: &mut Vec<u8>, n: u16)
    ensures
        final(out)@ == old(out)@ + digits(n as nat),
{
    let ghost start = out@;
    let chars = decimal_chars(n as u128);
    let mut i: usize = 0;
    assert(start =~= start + digits(n as nat).take(0));
    while i < chars.len()
        invariant
            i <= chars.len(),
            chars@ == decimal(n as nat),
            out@ == start + digits(n as nat).take(i as int),
        decreases chars.len() - i,
    {
        out.push(chars[i] as u8);
        i += 1;
        assert(out@ =~= start + digits(n as nat).take(i as int));
    }
    assert(digits(n as nat).take(i as int) =~= digits(n as nat));
}

fn sgr_report(button: u16, col: u16, row: u16, last: u8) -> (r: Vec<u8>)
    ensures
        r@ == sgr_bytes(button as nat, col as nat, row as nat, last),
{
    let mut out: Vec<u8> = Vec::new();
    out.push(0x1b);
    out.push(0x5b);
    out.push(0x3c);
    push_digits(&mut out, button);
    out.push(0x3b);
    push_digits(&mut out, col);
    out.push(0x3b);
    push_digits(&mut out, row);
    out.push(last);
    assert(out@ =~= sgr_bytes(button as nat, col as nat, row as nat, last));
    out
}

fn bias(v: u16) -> (r: u8)
    ensures
        r == biased(v),
{
    if v > 223 {
        255
    } else {
        (32 + v) as u8
    }
}

fn legacy_report(button: u16, col: u16, row: u16) -> (r: Vec<u8>)
    ensures
        r@ == legacy_bytes(button, col, row),
{
    let mut out: Vec<u8> = Vec::new();
    out.push(0x1b);
    out.push(0x5b);
    out.push(0x4d);
    out.push(bias(button));
    out.push(bias(col));
    out.push(bias(row));
    assert(out@ =~= legacy_bytes(button, col, row));
    out
}

/// A wheel report: button 64 for up, 65 for down.
pub open spec fn wheel_bytes(sgr: bool, up: bool, col: u16, row: u16) -> Seq<u8> {
    let button: u16 = if up {
        64
    } else {
        65
    };
    if sgr {
        sgr_bytes(button as nat, col as nat, row as nat, 0x4d)
    } else {
        legacy_bytes(button, col, row)
    }
}

/// The bytes of a wheel event for an application with mouse tracking on. `col` and
/// `row` count from one, inside the pane.
pub fn wheel_report(sgr: bool, up: bool, col: u16, row: u16) -> (r: Vec<u8>)
    ensures
        r@ == wheel_bytes(sgr, up, col, row),
{
    let button: u16 = if up {
        64
    } else {
        65
    };
    if sgr {
        sgr_report(button, col, row, 0x4d)
    } else {
        legacy_report(button, col, row)
    }
}

/// One arrow key, as the cursor-key mode spells it.
pub open spec fn arrow_bytes(app_cursor: bool, up: bool) -> Seq<u8> {
    seq![
        0x1bu8,
        if app_cursor {
            0x4fu8
        } else {
            0x5bu8
        },
        if up {
            0x41u8
        } else {
            0x42u8
        },
    ]
}

/// The bytes of an arrow key, up or down.
pub fn arrow_report(app_cursor: bool, up: bool) -> (r: Vec<u8>)
    ensures
        r@ == arrow_bytes(app_cursor, up),
{
    let mut out: Vec<u8> = Vec::new();
    out.push(0x1b);
    if app_cursor {
        out.push(0x4f);
    } else {
        out.push(0x5b);
    }
    if up {
        out.push(0x41);
    } else {
        out.push(0x42);
    }
    assert(out@ =~= arrow_bytes(app_cursor, up));
    out
}

/// An arrow key, `lines` times over.
pub open spec fn arrows(app_cursor: bool, up: bool, lines: nat) -> Seq<u8>
    decreases lines,
{
    if lines == 0 {
        Seq::empty()
    } else {
        arrows(app_cursor, up, (lines - 1) as nat) + arrow_bytes(app_cursor, up)
    }
}

/// The bytes of `lines` presses of an arrow key.
pub fn alt_scroll_arrows(app_cursor: bool, up: bool, lines: u16) -> (r: Vec<u8>)
    ensures
        r@ == arrows(app_cursor, up, lines as nat),
{
    let mut out: Vec<u8> = Vec::new();
    let mut n: u16 = 0;
    while n < lines
        invariant
            n <= lines,
            out@ == arrows(app_cursor, up, n as nat),
        decreases lines - n,
    {
        let mut one = arrow_report(app_cursor, up);
        out.append(&mut one);
        n += 1;
    }
    out
}

/// The three phases of a left-button gesture.
#[derive(Clone, Copy, PartialEq, Eq, Debug, Structural)]
pub enum ButtonPhase {
    /// The button went down.
    Press,
    /// The pointer moved with the button held.
    Motion,
    /// The button came back up.
    Release,
}

/// A left-button report. The SGR encoding tells a release by its last byte, the
/// legacy one by button 3; motion adds 32 in both.
pub open spec fn button_bytes(sgr: bool, phase: ButtonPhase, col: u16, row: u16) -> Seq<u8> {
    if sgr {
        match phase {
            ButtonPhase::Press => sgr_bytes(0, col as nat, row as nat, 0x4d),
            ButtonPhase::Motion => sgr_bytes(32, col as nat, row as nat, 0x4d),
            ButtonPhase::Release => sgr_bytes(0, col as nat, row as nat, 0x6d),
        }
    } else {
        match phase {
            ButtonPhase::Press => legacy_bytes(0, col, row),
            ButtonPhase::Motion => legacy_bytes(32, col, row),
            ButtonPhase::Release => legacy_bytes(3, col, row),
        }
    }
}

/// The bytes of one phase of a left-button gesture.
pub fn button_report(sgr: bool, phase: ButtonPhase, col: u16, row: u16) -> (r: Vec<u8>)
    ensures
        r@ == button_bytes(sgr, phase, col, row),
{
    let button: u16 = match phase {
        ButtonPhase::Press => 0,
        ButtonPhase::Motion => 32,
        ButtonPhase::Release => if sgr {
            0
        } else {
            3
        },
    };
    if sgr {
        let last: u8 = match phase {
            ButtonPhase::Release => 0x6d,
            _ => 0x4d,
        };
        sgr_report(button, col, row, last)
    } else {
        legacy_report(button, col, row)
    }
}

/// What an application is sent for one phase of a left-button gesture: nothing for
/// motion that it did not ask for, a report otherwise.
pub open spec fn forwarded(
    sgr: bool,
    motion: bool,
    phase: ButtonPhase,
    col: u16,
    row: u16,
) -> Option<Seq<u8>> {
    if phase == ButtonPhase::Motion && !motion {
        None
    } else {
        Some(button_bytes(sgr, phase, col, row))
    }
}

/// The bytes behind an optional vector.
pub open spec fn opt_bytes(v: Option<Vec<u8>>) -> Option<Seq<u8>> {
    match v {
        Some(b) => Some(b@),
        None => None,
    }
}

/// The report to forward to a tracking application, if it is owed one. A press and
/// a release are always owed: an application that gets a press without its release
/// latches the button down.
pub fn forward_button(sgr: bool, motion: bool, phase: ButtonPhase, col: u16, row: u16) -> (r:
    Option<Vec<u8>>)
    ensures
        opt_bytes(r) == forwarded(sgr, motion, phase, col, row),
{
    if phase == ButtonPhase::Motion && !motion {
        None
    } else {
        Some(button_report(sgr, phase, col, row))
    }
}

// ---------------------------------------------------------------------------
// Routing
// ---------------------------------------------------------------------------

/// The kind of mouse event that is being routed.
#[derive(Clone, Copy, PartialEq, Eq, Debug, Structural)]
pub enum MouseGesture {
    /// A wheel notch.
    Wheel,
    /// A left-button press, drag or release.
    Button,
}

/// What becomes of a mouse event that landed on a pane.
#[derive(Clone, Copy, PartialEq, Eq, Debug, Structural)]
pub enum MouseRoute {
    /// The application gets a report. `motion` says whether it asked for motion too.
    App { sgr: bool, motion: bool },
    /// The application gets arrow keys: it is on the alternate screen, which has no
    /// scrollback, and did not ask for mouse events.
    AltArrows { app_cursor: bool },
    /// The multiplexer scrolls and selects. `scrollback` is false on the alternate
    /// screen, where the scrollback belongs to the primary screen.
    Remux { scrollback: bool },
}

/// The routing decision: copy mode first, then the application's own request, then
/// the alternate screen.
pub open spec fn routed(screen: Screen, gesture: MouseGesture, copy_mode: bool) -> MouseRoute {
    if copy_mode {
        MouseRoute::Remux { scrollback: !screen.alt_screen_active }
    } else if screen.mouse_tracking {
        MouseRoute::App { sgr: screen.mouse_sgr, motion: screen.mouse_motion }
    } else if !screen.alt_screen_active {
        MouseRoute::Remux { scrollback: true }
    } else if gesture == MouseGesture::Wheel {
        MouseRoute::AltArrows { app_cursor: screen.application_cursor_keys }
    } else {
        MouseRoute::Remux { scrollback: false }
    }
}

/// Decide who handles a mouse event on a pane.
pub fn mouse_route(screen: &Screen, gesture: MouseGesture, copy_mode: bool) -> (r: MouseRoute)
    ensures
        r == routed(*screen, gesture, copy_mode),
{
    if copy_mode {
        MouseRoute::Remux { scrollback: !screen.alt_screen_active }
    } else if screen.mouse_tracking {
        MouseRoute::App { sgr: screen.mouse_sgr, motion: screen.mouse_motion }
    } else if screen.alt_screen_active {
        match gesture {
            MouseGesture::Wheel => MouseRoute::AltArrows {
                app_cursor: screen.application_cursor_keys,
            },
            MouseGesture::Button => MouseRoute::Remux { scrollback: false },
        }
    } else {
        MouseRoute::Remux { scrollback: true }
    }
}

/// Scrollback is only ever scrolled on the primary screen, whatever the mode and
/// the gesture.
pub proof fn law_only_the_primary_screen_is_scrolled(
    screen: Screen,
    gesture: MouseGesture,
    copy_mode: bool,
)
    ensures
        routed(screen, gesture, copy_mode) == (MouseRoute::Remux { scrollback: true })
            ==> !screen.alt_screen_active,
        !screen.alt_screen_active && (copy_mode || !screen.mouse_tracking) ==> routed(
            screen,
            gesture,
            copy_mode,
        ) == (MouseRoute::Remux { scrollback: true }),
{
}

/// In copy mode the application is sent nothing.
pub proof fn law_copy_mode_keeps_the_mouse(screen: Screen, gesture: MouseGesture)
    ensures
        routed(screen, gesture, true) is Remux,
{
}

/// One screen coordinate as a report gives it: counted from one at the first cell
/// of the content.
pub open spec fn reported(v: u16, origin: u16, inset: int) -> u16 {
    let d = sub0(v as int, origin + inset);
    if d >= u16::MAX {
        u16::MAX
    } else {
        (d + 1) as u16
    }
}

/// The cells that a border takes at each side of a pane.
pub fn border_inset(style: &BorderStyle, rect: Rect) -> (r: u16)
    ensures
        r == inset(*style, rect),
        r <= 1,
{
    match style {
        BorderStyle::ZellijStyle => if fits_zellij_border(rect.width, rect.height) {
            1
        } else {
            0
        },
        BorderStyle::TmuxStyle => 0,
    }
}

/// Map a screen position to the column and row that a mouse report carries.
pub fn report_coords(style: &BorderStyle, pane_rect: Rect, x: u16, y: u16) -> (r: (u16, u16))
    ensures
        r.0 == reported(x, pane_rect.x, inset(*style, pane_rect)),
        r.1 == reported(y, pane_rect.y, inset(*style, pane_rect)),
{
    let off: u16 = border_inset(style, pane_rect);
    let col: u16 = x.saturating_sub(pane_rect.x).saturating_sub(off).saturating_add(1);
    let row: u16 = y.saturating_sub(pane_rect.y).saturating_sub(off).saturating_add(1);
    (col, row)
}

/// The first cell of a pane's content is reported as column one, row one.
pub proof fn law_reports_count_from_one(style: BorderStyle, rect: Rect)
    requires
        rect.x < u16::MAX,
        rect.y < u16::MAX,
    ensures
        reported((rect.x + inset(style, rect)) as u16, rect.x, inset(style, rect)) == 1,
        reported((rect.y + inset(style, rect)) as u16, rect.y, inset(style, rect)) == 1,
        roomy(rect.width, rect.height) && style == BorderStyle::ZellijStyle ==> inset(style, rect)
            == 1,
{
}

/// What a wheel notch on a pane leads to.
#[derive(Debug)]
pub enum WheelAction {
    /// Write these bytes to the pane.
    Send(Vec<u8>),
    /// Scroll the pane's own history; up is positive.
    Scroll(i32),
}

/// The contents of a wheel action.
pub enum WheelView {
    Send(Seq<u8>),
    Scroll(int),
}

impl View for WheelAction {
    type V = WheelView;

    open spec fn view(&self) -> WheelView {
        match self {
            WheelAction::Send(b) => WheelView::Send(b@),
            WheelAction::Scroll(d) => WheelView::Scroll(*d as int),
        }
    }
}

/// What a wheel notch leads to, by its route.
pub open spec fn wheel_outcome(route: MouseRoute, up: bool, col: u16, row: u16) -> WheelView {
    match route {
        MouseRoute::App { sgr, .. } => WheelView::Send(wheel_bytes(sgr, up, col, row)),
        MouseRoute::AltArrows { app_cursor } => WheelView::Send(
            arrows(app_cursor, up, WHEEL_LINES as nat),
        ),
        MouseRoute::Remux { .. } => WheelView::Scroll(
            if up {
                WHEEL_LINES as int
            } else {
                -(WHEEL_LINES as int)
            },
        ),
    }
}

/// Handle a wheel notch at a screen position over a pane.
pub fn wheel_action(
    screen: &Screen,
    copy_mode: bool,
    style: &BorderStyle,
    pane_rect: Rect,
    x: u16,
    y: u16,
    up: bool,
) -> (r: WheelAction)
    ensures
        r@ == wheel_outcome(
            routed(*screen, MouseGesture::Wheel, copy_mode),
            up,
            reported(x, pane_rect.x, inset(*style, pane_rect)),
            reported(y, pane_rect.y, inset(*style, pane_rect)),
        ),
{
    match mouse_route(screen, MouseGesture::Wheel, copy_mode) {
        MouseRoute::App { sgr, .. } => {
            let (col, row) = report_coords(style, pane_rect, x, y);
            WheelAction::Send(wheel_report(sgr, up, col, row))
        },
        MouseRoute::AltArrows { app_cursor } => WheelAction::Send(
            alt_scroll_arrows(app_cursor, up, WHEEL_LINES),
        ),
        MouseRoute::Remux { .. } => {
            let delta: i32 = if up {
                3
            } else {
                -3
            };
            WheelAction::Scroll(delta)
        },
    }
}

} // verus!
