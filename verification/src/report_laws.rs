//! What a pane's application is told of the mouse.

use crate::blit::inset;
use crate::config::BorderStyle;
use crate::layout::Rect;
use crate::mouse::{
    arrows, button_bytes, digits, reported, routed, sgr_bytes, wheel_bytes, wheel_outcome,
    ButtonPhase, MouseGesture, MouseRoute, WheelView,
};
use crate::screen::Screen;
use vstd::prelude::*;

verus! {

/// A report of the old encoding has six bytes. What tells the button and the place is raised
/// by 32, so that it prints, and a place beyond the last that can be told is told as that.
pub proof fn law_an_old_report_has_six_bytes(
    up: bool,
    phase: ButtonPhase,
    col: u16,
    row: u16,
)
    ensures
        ({
            let w = wheel_bytes(false, up, col, row);
            let b = button_bytes(false, phase, col, row);
            &&& w.len() == 6 && b.len() == 6
            &&& w[0] == 27 && w[1] == '[' as u8 && w[2] == 'M' as u8
            &&& b[0] == 27 && b[1] == '[' as u8 && b[2] == 'M' as u8
            &&& w[3] == 32 + 64 + (if up {
                0int
            } else {
                1
            })
            &&& b[3] == 32 + (match phase {
                ButtonPhase::Press => 0int,
                ButtonPhase::Motion => 32,
                ButtonPhase::Release => 3,
            })
            &&& col <= 223 ==> w[4] == 32 + col && b[4] == 32 + col
            &&& col > 223 ==> w[4] == 255 && b[4] == 255
            &&& row <= 223 ==> w[5] == 32 + row && b[5] == 32 + row
            &&& row > 223 ==> w[5] == 255 && b[5] == 255
        }),
{
}

/// A report of the new encoding begins and ends as it must, and a release differs from a
/// press in its last byte alone; any other report ends like the press.
pub proof fn law_a_new_report_ends_with_what_happened(
    up: bool,
    phase: ButtonPhase,
    col: u16,
    row: u16,
)
    ensures
        ({
            let w = wheel_bytes(true, up, col, row);
            let b = button_bytes(true, phase, col, row);
            let press = button_bytes(true, ButtonPhase::Press, col, row);
            &&& w.take(3) == seq![27u8, '[' as u8, '<' as u8]
            &&& b.take(3) == seq![27u8, '[' as u8, '<' as u8]
            &&& w.last() == 'M' as u8
            &&& phase is Release ==> b.last() == 'm' as u8 && b.drop_last() == press.drop_last()
            &&& !(phase is Release) ==> b.last() == 'M' as u8
        }),
{
    let w = wheel_bytes(true, up, col, row);
    let b = button_bytes(true, phase, col, row);
    let press = button_bytes(true, ButtonPhase::Press, col, row);
    assert(w.take(3) =~= seq![27u8, '[' as u8, '<' as u8]);
    assert(b.take(3) =~= seq![27u8, '[' as u8, '<' as u8]);
    if phase is Release {
        assert(b.drop_last() =~= press.drop_last());
    }
}

/// The new encoding tells the button, the column and the row in this order, in digits with
/// semicolons between them.
pub proof fn law_a_new_report_tells_button_column_and_row(button: nat, col: nat, row: nat, last: u8)
    ensures
        ({
            let r = sgr_bytes(button, col, row, last);
            let a = 3 + digits(button).len() as int;
            let b = a + 1 + digits(col).len() as int;
            let c = b + 1 + digits(row).len() as int;
            &&& r.len() == c + 1
            &&& r.subrange(3, a) == digits(button)
            &&& r[a] == ';' as u8
            &&& r.subrange(a + 1, b) == digits(col)
            &&& r[b] == ';' as u8
            &&& r.subrange(b + 1, c) == digits(row)
            &&& r[c] == last
        }),
{
    let r = sgr_bytes(button, col, row, last);
    let a = 3 + digits(button).len() as int;
    let b = a + 1 + digits(col).len() as int;
    let c = b + 1 + digits(row).len() as int;
    assert(r.subrange(3, a) =~= digits(button));
    assert(r.subrange(a + 1, b) =~= digits(col));
    assert(r.subrange(b + 1, c) =~= digits(row));
}

/// The place that an application is told is the one in its own content, which begins behind
/// the border and is counted from one. To the left of it and above it, it is the first one.
pub proof fn law_a_place_is_told_within_the_content(x: u16, rect: Rect, style: BorderStyle)
    requires
        rect.x < u16::MAX,
        x < u16::MAX,
    ensures
        ({
            let first = rect.x + inset(style, rect);
            let told = reported(x, rect.x, inset(style, rect));
            &&& x >= first ==> told == x - first + 1
            &&& x < first ==> told == 1
        }),
{
}

/// The wheel scrolls an application on the alternate screen by three presses of an arrow
/// key: three bytes each, all alike, up for up, and in the form that the application asked
/// for.
pub proof fn law_the_wheel_presses_arrows(app_cursor: bool, up: bool, lines: nat, i: int)
    requires
        0 <= i < lines,
    ensures
        ({
            let r = arrows(app_cursor, up, lines);
            &&& r.len() == 3 * lines
            &&& r[3 * i] == 27
            &&& r[3 * i + 1] == (if app_cursor {
                'O' as u8
            } else {
                '[' as u8
            })
            &&& r[3 * i + 2] == (if up {
                'A' as u8
            } else {
                'B' as u8
            })
        }),
    decreases lines,
{
    let before = arrows(app_cursor, up, (lines - 1) as nat);
    lemma_arrows_len(app_cursor, up, (lines - 1) as nat);
    if i < lines - 1 {
        law_the_wheel_presses_arrows(app_cursor, up, (lines - 1) as nat, i);
    }
}

proof fn lemma_arrows_len(app_cursor: bool, up: bool, lines: nat)
    ensures
        arrows(app_cursor, up, lines).len() == 3 * lines,
    decreases lines,
{
    if lines > 0 {
        lemma_arrows_len(app_cursor, up, (lines - 1) as nat);
    }
}

/// A notch of the wheel goes to an application that tracks the mouse as a report, to one on
/// the alternate screen as three arrows, and else moves the history by three lines: up goes
/// back in it. In copy mode the application gets nothing.
pub proof fn law_a_notch_goes_where_it_belongs(
    screen: Screen,
    copy_mode: bool,
    up: bool,
    col: u16,
    row: u16,
)
    ensures
        ({
            let r = wheel_outcome(routed(screen, MouseGesture::Wheel, copy_mode), up, col, row);
            let lines: int = if up {
                3
            } else {
                -3
            };
            &&& copy_mode ==> r == WheelView::Scroll(lines)
            &&& !copy_mode && screen.mouse_tracking ==> r == WheelView::Send(
                wheel_bytes(screen.mouse_sgr, up, col, row),
            )
            &&& !copy_mode && !screen.mouse_tracking && screen.alt_screen_active ==> r
                == WheelView::Send(arrows(screen.application_cursor_keys, up, 3))
            &&& !copy_mode && !screen.mouse_tracking && !screen.alt_screen_active ==> r
                == WheelView::Scroll(lines)
        }),
{
}

/// A press or a drag goes to an application that tracks the mouse, in the encoding that it
/// chose and with motion if it asked for that; else it selects text. In copy mode it always
/// selects text.
pub proof fn law_a_drag_goes_where_it_belongs(
    screen: Screen,
    gesture: MouseGesture,
    copy_mode: bool,
)
    requires
        gesture != MouseGesture::Wheel,
    ensures
        ({
            let r = routed(screen, gesture, copy_mode);
            &&& copy_mode || !screen.mouse_tracking ==> r == (MouseRoute::Remux {
                scrollback: !screen.alt_screen_active,
            })
            &&& !copy_mode && screen.mouse_tracking ==> r == (MouseRoute::App {
                sgr: screen.mouse_sgr,
                motion: screen.mouse_motion,
            })
        }),
{
}

} // verus!
