//! Mouse reports and routing.

use remux::mouse::{
    arrow_report, button_report, mouse_route, wheel_report, ButtonPhase, MouseGesture, MouseRoute,
};
use remux::screen::Screen;

/// Switch private terminal modes on (`ESC [ ? n h`) or off (`ESC [ ? n l`). Leaving the
/// alternate screen ends an application's claim on the mouse.
fn set_modes(s: &mut Screen, codes: &str) {
    for code in codes.split("\x1b[?").filter(|c| !c.is_empty()) {
        let on = code.ends_with('h');
        match &code[..code.len() - 1] {
            "1" => s.application_cursor_keys = on,
            "1000" => s.mouse_tracking = on,
            "1002" => {
                s.mouse_tracking = on;
                s.mouse_motion = on;
            }
            "1006" => s.mouse_sgr = on,
            "1049" => {
                s.alt_screen_active = on;
                if !on {
                    s.mouse_tracking = false;
                    s.mouse_motion = false;
                }
            }
            other => panic!("unknown mode {other}"),
        }
    }
}

#[test]
fn test_wheel_report_sgr() {
    // Wheel up: button 64, SGR encoding, 1-based coords.
    assert_eq!(wheel_report(true, true, 5, 10), b"\x1b[<64;5;10M".to_vec());
    // Wheel down: button 65.
    assert_eq!(wheel_report(true, false, 1, 1), b"\x1b[<65;1;1M".to_vec());
}

#[test]
fn test_wheel_report_legacy() {
    // Legacy X10: ESC [ M then (32+btn), (32+col), (32+row).
    assert_eq!(
        wheel_report(false, true, 5, 10),
        vec![0x1b, b'[', b'M', 32 + 64, 32 + 5, 32 + 10]
    );
    // Coordinates saturate into a single byte.
    assert_eq!(
        wheel_report(false, false, 300, 400),
        vec![0x1b, b'[', b'M', 32 + 65, 255, 255]
    );
}

#[test]
fn test_arrow_report() {
    assert_eq!(arrow_report(false, true), vec![0x1b, b'[', b'A']);
    assert_eq!(arrow_report(false, false), vec![0x1b, b'[', b'B']);
    assert_eq!(arrow_report(true, true), vec![0x1b, b'O', b'A']);
    assert_eq!(arrow_report(true, false), vec![0x1b, b'O', b'B']);
}

#[test]
fn test_button_report_sgr() {
    // SGR keeps the button number on a release and marks it with a
    // lowercase final byte; motion sets the +32 motion bit.
    assert_eq!(
        button_report(true, ButtonPhase::Press, 10, 5),
        b"\x1b[<0;10;5M".to_vec()
    );
    assert_eq!(
        button_report(true, ButtonPhase::Motion, 10, 6),
        b"\x1b[<32;10;6M".to_vec()
    );
    assert_eq!(
        button_report(true, ButtonPhase::Release, 10, 6),
        b"\x1b[<0;10;6m".to_vec()
    );
}

#[test]
fn test_button_report_legacy() {
    // X10 has no lowercase form: a release is button 3 ("no button").
    assert_eq!(
        button_report(false, ButtonPhase::Press, 5, 10),
        vec![0x1b, b'[', b'M', 32, 32 + 5, 32 + 10]
    );
    assert_eq!(
        button_report(false, ButtonPhase::Motion, 5, 10),
        vec![0x1b, b'[', b'M', 32 + 32, 32 + 5, 32 + 10]
    );
    assert_eq!(
        button_report(false, ButtonPhase::Release, 5, 10),
        vec![0x1b, b'[', b'M', 32 + 3, 32 + 5, 32 + 10]
    );
    // Coordinates saturate into a single byte, as in `wheel_report`.
    assert_eq!(
        button_report(false, ButtonPhase::Press, 300, 400),
        vec![0x1b, b'[', b'M', 32, 255, 255]
    );
}

/// The one routing decision every mouse path shares. A plain shell scrolls
/// and selects in remux; an application that asked for mouse events gets
/// them; an alt-screen application that did not gets the arrow fallback for
/// the wheel and, crucially, a `scrollback: false` verdict for buttons --
/// remux's scrollback there belongs to the primary screen, so an edge drag
/// must not chase it (the drag-autoscroll spin).
#[test]
fn test_mouse_route() {
    let mut s = Screen::new(80, 24, 100);
    assert_eq!(
        mouse_route(&s, MouseGesture::Wheel, false),
        MouseRoute::Remux { scrollback: true }
    );
    assert_eq!(
        mouse_route(&s, MouseGesture::Button, false),
        MouseRoute::Remux { scrollback: true }
    );

    // Alt screen, no tracking (e.g. `less`): arrows for the wheel, no
    // scrollback for a drag.
    set_modes(&mut s, "\x1b[?1049h");
    assert_eq!(
        mouse_route(&s, MouseGesture::Wheel, false),
        MouseRoute::AltArrows { app_cursor: false }
    );
    assert_eq!(
        mouse_route(&s, MouseGesture::Button, false),
        MouseRoute::Remux { scrollback: false }
    );
    set_modes(&mut s, "\x1b[?1h");
    assert_eq!(
        mouse_route(&s, MouseGesture::Wheel, false),
        MouseRoute::AltArrows { app_cursor: true }
    );

    // Tracking wins over everything, and carries the encoding + whether the
    // app asked for motion.
    set_modes(&mut s, "\x1b[?1000h");
    assert_eq!(
        mouse_route(&s, MouseGesture::Button, false),
        MouseRoute::App {
            sgr: false,
            motion: false
        }
    );
    set_modes(&mut s, "\x1b[?1002h\x1b[?1006h");
    assert_eq!(
        mouse_route(&s, MouseGesture::Wheel, false),
        MouseRoute::App {
            sgr: true,
            motion: true
        }
    );
    assert_eq!(
        mouse_route(&s, MouseGesture::Button, false),
        MouseRoute::App {
            sgr: true,
            motion: true
        }
    );

    // Copy mode (Visual) outranks the application: the user asked for the
    // mouse explicitly. Selection still works, but not the scrolling that
    // would chase the primary screen's history under a full-screen app.
    assert_eq!(
        mouse_route(&s, MouseGesture::Button, true),
        MouseRoute::Remux { scrollback: false }
    );
    assert_eq!(
        mouse_route(&s, MouseGesture::Wheel, true),
        MouseRoute::Remux { scrollback: false }
    );

    // Leaving the alt screen releases the app's claim on the mouse.
    set_modes(&mut s, "\x1b[?1049l");
    assert_eq!(
        mouse_route(&s, MouseGesture::Button, false),
        MouseRoute::Remux { scrollback: true }
    );
    assert_eq!(
        mouse_route(&s, MouseGesture::Button, true),
        MouseRoute::Remux { scrollback: true }
    );
}

// -- Layout cycle (Alt+Space) -------------------------------------------
