//! What the server knows of a connected client, and how events change it.

use crate::hit::MouseSelection;
use crate::layout::{opt_text, PaneId};
use crate::mouse::{
    alt_scroll_arrows, arrows, forward_button, forwarded, mouse_route, opt_bytes, routed,
    wheel_bytes, wheel_report, ButtonPhase, MouseGesture, MouseRoute,
};
use crate::screen::{clamp_row, sub0, Screen};
use crate::selection::{
    drag_step, extract_selection_text, selection_text, step_drag, DragSession, DragStep, Point,
};
use crate::text::{no_text, same_text};
use std::collections::HashMap;
use vstd::prelude::*;

verus! {

broadcast use vstd::std_specs::hash::group_hash_axioms;

/// The mode in which the mouse belongs to the multiplexer.
pub const COPY_MODE: &'static str = "VISUAL";

/// The mode of the scrollback search prompt.
pub const SEARCH_MODE: &'static str = "SEARCH";

/// The mode a client starts in.
pub const NORMAL_MODE: &'static str = "NORMAL";

/// A connected client.
#[derive(Debug)]
pub struct ClientState {
    /// The session that the client is attached to.
    pub session_name: Option<String>,
    pub cols: u16,
    pub rows: u16,
    /// The client's input mode.
    pub mode: String,
    pub mouse_selection: Option<MouseSelection>,
    /// The current search match and the number of matches.
    pub search_info: Option<(usize, usize)>,
    /// How far the pane that owns input is scrolled back; zero is the live view.
    pub scroll_offset: usize,
    /// The scroll offset of the frame that was sent last.
    pub prev_scroll_offset: usize,
    /// The next frame must be a full one.
    pub needs_full_render: bool,
    pub drag: Option<DragSession>,
    /// The drag to replay on a timer while the pointer rests on a scrollable edge.
    pub autoscroll_repeat: Option<(u16, u16, u16, u16)>,
    /// The panes that the client watches, each with the size it asks for, if any.
    pub subscribed_panes: HashMap<PaneId, Option<(u16, u16)>>,
    /// How far each watched pane is scrolled back; zero is left out.
    pub pane_scroll: HashMap<PaneId, usize>,
    pub pane_selection: HashMap<PaneId, MouseSelection>,
    pub pane_drag: Option<DragSession>,
    pub pane_autoscroll_repeat: Option<(PaneId, u16, u16, u16, u16)>,
    /// The client is sent the session tree whenever it changes.
    pub session_tree_subscribed: bool,
}

/// A client as a mathematical value.
#[verifier::ext_equal]
pub struct ClientView {
    pub session_name: Option<Seq<char>>,
    pub cols: u16,
    pub rows: u16,
    pub mode: Seq<char>,
    pub mouse_selection: Option<MouseSelection>,
    pub search_info: Option<(usize, usize)>,
    pub scroll_offset: usize,
    pub prev_scroll_offset: usize,
    pub needs_full_render: bool,
    pub drag: Option<DragSession>,
    pub autoscroll_repeat: Option<(u16, u16, u16, u16)>,
    pub subscribed_panes: Map<PaneId, Option<(u16, u16)>>,
    pub pane_scroll: Map<PaneId, usize>,
    pub pane_selection: Map<PaneId, MouseSelection>,
    pub pane_drag: Option<DragSession>,
    pub pane_autoscroll_repeat: Option<(PaneId, u16, u16, u16, u16)>,
    pub session_tree_subscribed: bool,
}

impl View for ClientState {
    type V = ClientView;

    open spec fn view(&self) -> ClientView {
        ClientView {
            session_name: opt_text(self.session_name),
            cols: self.cols,
            rows: self.rows,
            mode: self.mode@,
            mouse_selection: self.mouse_selection,
            search_info: self.search_info,
            scroll_offset: self.scroll_offset,
            prev_scroll_offset: self.prev_scroll_offset,
            needs_full_render: self.needs_full_render,
            drag: self.drag,
            autoscroll_repeat: self.autoscroll_repeat,
            subscribed_panes: self.subscribed_panes@,
            pane_scroll: self.pane_scroll@,
            pane_selection: self.pane_selection@,
            pane_drag: self.pane_drag,
            pane_autoscroll_repeat: self.pane_autoscroll_repeat,
            session_tree_subscribed: self.session_tree_subscribed,
        }
    }
}

/// A drag: where it began, where the pointer is, and whether the button came up.
#[derive(Clone, Copy, PartialEq, Eq, Debug, Structural)]
pub struct Drag {
    pub start_x: u16,
    pub start_y: u16,
    pub end_x: u16,
    pub end_y: u16,
    pub is_final: bool,
}

impl Drag {
    /// The phase that an application is told of.
    pub open spec fn phase_of(self) -> ButtonPhase {
        if self.is_final {
            ButtonPhase::Release
        } else {
            ButtonPhase::Motion
        }
    }

    /// The phase that an application is told of.
    pub fn phase(&self) -> (r: ButtonPhase)
        ensures
            r == self.phase_of(),
    {
        if self.is_final {
            ButtonPhase::Release
        } else {
            ButtonPhase::Motion
        }
    }
}

/// The number that follows, or the last one.
pub open spec fn after(v: u16) -> u16 {
    if v == u16::MAX {
        v
    } else {
        (v + 1) as u16
    }
}

/// The anchor of a gesture on a pane.
pub open spec fn anchor_on(d: Option<DragSession>, pane: PaneId) -> Option<(u16, usize)> {
    match d {
        Some(g) => if g.pane_id == pane {
            Some((g.anchor_col, g.anchor_abs))
        } else {
            None
        },
        None => None,
    }
}

fn running_on(d: &Option<DragSession>, pane: PaneId) -> (r: Option<(u16, usize)>)
    ensures
        r == anchor_on(*d, pane),
{
    match d {
        Some(g) => if g.pane_id == pane {
            Some((g.anchor_col, g.anchor_abs))
        } else {
            None
        },
        None => None,
    }
}

/// The gesture that a step of a drag leaves running.
pub open spec fn gesture(pane: PaneId, s: DragStep) -> DragSession {
    DragSession {
        pane_id: pane,
        anchor_col: s.anchor_col,
        anchor_abs: s.anchor_abs,
        end_abs: s.end_abs,
        end_col: s.end_col,
    }
}

/// The highlight that a step of a drag shows.
pub open spec fn highlight(pane: PaneId, s: DragStep) -> MouseSelection {
    MouseSelection {
        pane_id: pane,
        start: (s.anchor_col, s.anchor_row),
        end: (s.end_col, s.end_row),
    }
}

/// The text that a finished drag puts on the clipboard.
pub open spec fn yanked(screen: Screen, s: DragStep, is_final: bool, auto_yank: bool) -> Option<
    Seq<char>,
> {
    let text = selection_text(
        screen,
        Point { abs: s.anchor_abs, col: s.anchor_col },
        Point { abs: s.end_abs, col: s.end_col },
    );
    if is_final && auto_yank && text.len() > 0 {
        Some(text)
    } else {
        None
    }
}

fn yank(screen: &Screen, s: &DragStep, is_final: bool, auto_yank: bool) -> (r: Option<String>)
    ensures
        opt_text(r) == yanked(*screen, *s, is_final, auto_yank),
{
    if is_final && auto_yank {
        let text = extract_selection_text(
            screen,
            s.anchor_col,
            s.anchor_abs,
            s.end_col,
            s.end_abs,
        );
        if no_text(&text) {
            None
        } else {
            Some(text)
        }
    } else {
        None
    }
}

/// A gesture whose moving end is at the edge that scrolling revealed: the first cell
/// of the view when scrolling up, the last one when scrolling down.
pub open spec fn stretched(screen: Screen, d: DragSession, up: bool, offset: usize) -> DragSession {
    let row = if up {
        0
    } else {
        sub0(screen.rows as int, 1)
    };
    DragSession {
        end_abs: screen.abs_row(offset as int, row) as usize,
        end_col: (if up {
            0
        } else {
            sub0(screen.cols as int, 1)
        }) as u16,
        ..d
    }
}

/// The highlight of a gesture that was stretched by scrolling.
pub open spec fn stretched_highlight(
    screen: Screen,
    d: DragSession,
    up: bool,
    offset: usize,
) -> MouseSelection {
    let row = if up {
        0
    } else {
        sub0(screen.rows as int, 1)
    };
    let col = if up {
        0
    } else {
        sub0(screen.cols as int, 1)
    };
    MouseSelection {
        pane_id: d.pane_id,
        start: (
            d.anchor_col,
            clamp_row(screen.row_at(offset as int, d.anchor_abs as int), screen.rows) as u16,
        ),
        end: (col as u16, row as u16),
    }
}

fn stretch(screen: &Screen, d: DragSession, up: bool, offset: usize) -> (r: (
    DragSession,
    MouseSelection,
))
    ensures
        r.0 == stretched(*screen, d, up, offset),
        r.1 == stretched_highlight(*screen, d, up, offset),
{
    let row: u16 = if up {
        0
    } else {
        screen.rows.saturating_sub(1)
    };
    let col: u16 = if up {
        0
    } else {
        screen.cols.saturating_sub(1)
    };
    let anchor_row: u16 = screen.row_of_abs(offset, d.anchor_abs, screen.rows);
    (
        DragSession {
            pane_id: d.pane_id,
            anchor_col: d.anchor_col,
            anchor_abs: d.anchor_abs,
            end_abs: screen.abs_of_row(offset, row),
            end_col: col,
        },
        MouseSelection {
            pane_id: d.pane_id,
            start: (d.anchor_col, anchor_row),
            end: (col, row),
        },
    )
}

/// An offset moved by `delta` lines, up being positive, within what there is.
pub open spec fn moved_offset(offset: usize, delta: int, max: int) -> usize {
    let to = if delta > 0 {
        offset + delta
    } else {
        sub0(offset as int, -delta)
    };
    (if to < max {
        to
    } else {
        max
    }) as usize
}

/// What a drag inside a watched pane, or a wheel notch on one, leads to.
#[derive(Debug)]
pub enum PaneOutcome {
    /// Nothing: the pane is gone or not watched.
    Ignored,
    /// The application gets these bytes, if any.
    Forward(Option<Vec<u8>>),
    /// The pane is repainted for its watchers, and the text is copied, if any.
    Repaint(Option<String>),
}

/// The contents of an outcome.
pub enum PaneOutcomeView {
    Ignored,
    Forward(Option<Seq<u8>>),
    Repaint(Option<Seq<char>>),
}

impl View for PaneOutcome {
    type V = PaneOutcomeView;

    open spec fn view(&self) -> PaneOutcomeView {
        match self {
            PaneOutcome::Ignored => PaneOutcomeView::Ignored,
            PaneOutcome::Forward(b) => PaneOutcomeView::Forward(opt_bytes(*b)),
            PaneOutcome::Repaint(t) => PaneOutcomeView::Repaint(opt_text(*t)),
        }
    }
}

impl ClientView {
    /// The client is in copy mode.
    pub open spec fn copying(self) -> bool {
        self.mode == COPY_MODE@
    }

    /// A client that has just connected.
    pub open spec fn fresh() -> ClientView {
        ClientView {
            session_name: None,
            cols: 80,
            rows: 24,
            mode: NORMAL_MODE@,
            mouse_selection: None,
            search_info: None,
            scroll_offset: 0,
            prev_scroll_offset: 0,
            needs_full_render: false,
            drag: None,
            autoscroll_repeat: None,
            subscribed_panes: Map::empty(),
            pane_scroll: Map::empty(),
            pane_selection: Map::empty(),
            pane_drag: None,
            pane_autoscroll_repeat: None,
            session_tree_subscribed: false,
        }
    }

    /// Back at the live tail.
    pub open spec fn live(self) -> ClientView {
        ClientView {
            scroll_offset: 0,
            prev_scroll_offset: 0,
            needs_full_render: true,
            ..self
        }
    }

    /// Typing ends a scroll, except in the modes that are trips into history.
    pub open spec fn typing_ends_scroll(self) -> bool {
        self.scroll_offset != 0 && self.mode != COPY_MODE@ && self.mode != SEARCH_MODE@
    }

    /// The client's view of the pane that owns input, scrolled by `delta`.
    pub open spec fn scrolled(self, delta: int, target: Option<(PaneId, Screen)>) -> ClientView {
        let max = match target {
            Some((_, s)) => s.max_offset(),
            None => 0,
        };
        let offset = moved_offset(self.scroll_offset, delta, max);
        let there = ClientView { scroll_offset: offset, needs_full_render: true, ..self };
        match target {
            Some((pane, s)) => match self.drag {
                Some(d) => if d.pane_id == pane && offset != self.scroll_offset {
                    ClientView {
                        drag: Some(stretched(s, d, delta > 0, offset)),
                        mouse_selection: Some(stretched_highlight(s, d, delta > 0, offset)),
                        ..there
                    }
                } else {
                    there
                },
                None => there,
            },
            None => there,
        }
    }

    /// A click ends edge scrolling; a press also ends the selection and the drag.
    pub open spec fn clicked(self, release: bool) -> ClientView {
        if release {
            ClientView { autoscroll_repeat: None, ..self }
        } else {
            ClientView { autoscroll_repeat: None, mouse_selection: None, drag: None, ..self }
        }
    }

    /// One step of a drag in a pane of the session.
    pub open spec fn dragged(
        self,
        pane: PaneId,
        s: DragStep,
        focused: bool,
        d: Drag,
        auto_yank: bool,
    ) -> ClientView {
        ClientView {
            scroll_offset: if focused {
                s.offset
            } else {
                self.scroll_offset
            },
            needs_full_render: self.needs_full_render || (focused && s.offset
                != self.scroll_offset),
            drag: if d.is_final {
                None
            } else {
                Some(gesture(pane, s))
            },
            mouse_selection: if d.is_final && auto_yank {
                None
            } else {
                Some(highlight(pane, s))
            },
            autoscroll_repeat: if s.repeat {
                Some((d.start_x, d.start_y, d.end_x, d.end_y))
            } else {
                None
            },
            ..self
        }
    }

    /// The offset of a watched pane.
    pub open spec fn pane_offset(self, pane: PaneId) -> usize {
        if self.pane_scroll.contains_key(pane) {
            self.pane_scroll[pane]
        } else {
            0
        }
    }

    /// A watched pane at the given offset.
    pub open spec fn with_pane_offset(self, pane: PaneId, offset: usize) -> ClientView {
        ClientView {
            pane_scroll: if offset == 0 {
                self.pane_scroll.remove(pane)
            } else {
                self.pane_scroll.insert(pane, offset)
            },
            ..self
        }
    }

    /// One step of a drag inside a watched pane.
    pub open spec fn pane_dragged(
        self,
        pane: PaneId,
        s: DragStep,
        d: Drag,
        auto_yank: bool,
    ) -> ClientView {
        ClientView {
            pane_drag: if d.is_final {
                None
            } else {
                Some(gesture(pane, s))
            },
            pane_selection: if d.is_final && auto_yank {
                self.pane_selection.remove(pane)
            } else {
                self.pane_selection.insert(pane, highlight(pane, s))
            },
            pane_autoscroll_repeat: if s.repeat {
                Some((pane, d.start_x, d.start_y, d.end_x, d.end_y))
            } else {
                None
            },
            ..self.with_pane_offset(pane, s.offset)
        }
    }

    /// The step that a drag inside a watched pane takes.
    pub open spec fn pane_step(self, pane: PaneId, screen: Screen, d: Drag) -> DragStep {
        let max = screen.max_offset();
        let kept = self.pane_offset(pane);
        let base = if kept < max {
            kept as int
        } else {
            max
        };
        drag_step(
            screen,
            screen.rows,
            anchor_on(self.pane_drag, pane),
            (least(d.start_x, screen.cols), least(d.start_y, screen.rows)),
            (least(d.end_x, screen.cols), least(d.end_y, screen.rows)),
            base as usize,
            !d.is_final && routed(screen, MouseGesture::Button, self.copying())
                == (MouseRoute::Remux { scrollback: true }),
        )
    }

    /// A watched pane scrolled by a wheel notch: the selection follows a drag that is
    /// in progress, and is dropped otherwise.
    pub open spec fn pane_scrolled(
        self,
        pane: PaneId,
        screen: Screen,
        up: bool,
        lines: u16,
    ) -> ClientView {
        let cur = self.pane_offset(pane);
        let max = screen.max_offset();
        let to = (if up {
            if cur + lines < max {
                cur + lines
            } else {
                max
            }
        } else {
            sub0(cur as int, lines as int)
        }) as usize;
        let there = self.with_pane_offset(pane, to);
        if anchor_on(self.pane_drag, pane) is Some {
            let d = self.pane_drag->0;
            ClientView {
                pane_drag: Some(stretched(screen, d, up, to)),
                pane_selection: self.pane_selection.insert(
                    pane,
                    stretched_highlight(screen, d, up, to),
                ),
                ..there
            }
        } else {
            ClientView { pane_selection: self.pane_selection.remove(pane), ..there }
        }
    }

    /// Nothing of the client refers to a pane that is not watched any more.
    pub open spec fn without_pane(self, pane: PaneId) -> ClientView {
        let gone = ClientView {
            subscribed_panes: self.subscribed_panes.remove(pane),
            pane_scroll: self.pane_scroll.remove(pane),
            pane_selection: self.pane_selection.remove(pane),
            ..self
        };
        if anchor_on(self.pane_drag, pane) is Some {
            ClientView { pane_drag: None, pane_autoscroll_repeat: None, ..gone }
        } else {
            gone
        }
    }

    /// A pane watched with a size demand. Watching it anew starts at the live view.
    pub open spec fn watching(self, pane: PaneId, demand: Option<(u16, u16)>) -> ClientView {
        let there = ClientView {
            subscribed_panes: self.subscribed_panes.insert(pane, demand),
            ..self
        };
        if self.subscribed_panes.contains_key(pane) {
            there
        } else {
            ClientView {
                pane_scroll: self.pane_scroll.remove(pane),
                pane_selection: self.pane_selection.remove(pane),
                ..there
            }
        }
    }

    /// A click inside a watched pane.
    pub open spec fn pane_clicked(self, pane: PaneId, release: bool) -> ClientView {
        let quiet = ClientView { pane_autoscroll_repeat: None, ..self };
        if release {
            quiet
        } else {
            ClientView {
                pane_selection: self.pane_selection.remove(pane),
                pane_drag: if anchor_on(self.pane_drag, pane) is Some {
                    None
                } else {
                    self.pane_drag
                },
                ..quiet
            }
        }
    }
}

/// A coordinate moved into `0..extent`; zero if there is no room at all.
pub open spec fn least(v: u16, extent: u16) -> u16 {
    if v < extent {
        v
    } else {
        sub0(extent as int, 1) as u16
    }
}

fn clamp_coord(v: u16, extent: u16) -> (r: u16)
    ensures
        r == least(v, extent),
{
    if v < extent {
        v
    } else {
        extent.saturating_sub(1)
    }
}

impl ClientState {
    /// A client that has just connected.
    pub fn new() -> (r: ClientState)
        ensures
            r@ == ClientView::fresh(),
    {
        let r = ClientState {
            session_name: None,
            cols: 80,
            rows: 24,
            mode: NORMAL_MODE.to_owned(),
            mouse_selection: None,
            search_info: None,
            scroll_offset: 0,
            prev_scroll_offset: 0,
            needs_full_render: false,
            drag: None,
            autoscroll_repeat: None,
            subscribed_panes: HashMap::new(),
            pane_scroll: HashMap::new(),
            pane_selection: HashMap::new(),
            pane_drag: None,
            pane_autoscroll_repeat: None,
            session_tree_subscribed: false,
        };
        assert(r@ =~= ClientView::fresh());
        r
    }

    /// Whether the client has the mouse to itself.
    pub fn in_copy_mode(&self) -> (r: bool)
        ensures
            r == self@.copying(),
    {
        same_text(&self.mode, COPY_MODE)
    }

    /// Attach the client to a session.
    pub fn attach(&mut self, session: &str)
        ensures
            final(self)@ == (ClientView { session_name: Some(session@), ..old(self)@ }),
    {
        self.session_name = Some(session.to_owned());
    }

    /// Detach the client from its session.
    pub fn detach(&mut self)
        ensures
            final(self)@ == (ClientView { session_name: None, ..old(self)@ }),
    {
        self.session_name = None;
    }

    /// The client's terminal has a new size.
    pub fn resize(&mut self, cols: u16, rows: u16)
        ensures
            final(self)@ == (ClientView { cols, rows, ..old(self)@ }),
    {
        self.cols = cols;
        self.rows = rows;
    }

    /// The client searched: `total` matches, of which the one numbered `current` is
    /// shown. No match at all leaves nothing to show.
    pub fn handle_search_info(&mut self, current: usize, total: usize)
        ensures
            final(self)@ == (ClientView {
                search_info: if total == 0 {
                    None
                } else {
                    Some((current, total))
                },
                ..old(self)@
            }),
    {
        if total == 0 {
            self.search_info = None;
        } else {
            self.search_info = Some((current, total));
        }
    }

    /// The client entered another mode. Leaving search drops what was found.
    pub fn handle_mode_changed(&mut self, mode: &str)
        ensures
            final(self)@ == (ClientView {
                mode: mode@,
                search_info: if mode@ == SEARCH_MODE@ {
                    old(self)@.search_info
                } else {
                    None
                },
                ..old(self)@
            }),
    {
        self.mode = mode.to_owned();
        if !same_text(mode, SEARCH_MODE) {
            self.search_info = None;
        }
    }

    /// Return to the live tail.
    pub fn scroll_reset(&mut self)
        ensures
            final(self)@ == old(self)@.live(),
    {
        self.scroll_offset = 0;
        self.prev_scroll_offset = 0;
        self.needs_full_render = true;
    }

    /// Input from the client returns its view to the live tail. The result says
    /// whether the view moved.
    pub fn snap_client_to_live_tail(&mut self) -> (r: bool)
        ensures
            r == old(self)@.typing_ends_scroll(),
            final(self)@ == (if r {
                old(self)@.live()
            } else {
                old(self)@
            }),
    {
        if self.scroll_offset != 0 && !same_text(&self.mode, COPY_MODE) && !same_text(
            &self.mode,
            SEARCH_MODE,
        ) {
            self.scroll_reset();
            true
        } else {
            false
        }
    }

    /// Scroll the pane that owns input by `delta` lines, up being positive. A drag on
    /// that pane is stretched to the edge that came into view. The result says whether
    /// the view moved.
    pub fn handle_scroll_delta(&mut self, delta: i32, target: Option<(PaneId, &Screen)>) -> (r:
        bool)
        ensures
            final(self)@ == old(self)@.scrolled(delta as int, plain(target)),
            r == (final(self)@.scroll_offset != old(self)@.scroll_offset),
    {
        let before: usize = self.scroll_offset;
        let max: usize = match target {
            Some((_, screen)) => screen.max_scroll_offset(),
            None => 0,
        };
        let to: usize = if delta > 0 {
            before.saturating_add(delta as usize)
        } else {
            before.saturating_sub((-(delta as i64)) as u32 as usize)
        };
        let offset: usize = if to < max {
            to
        } else {
            max
        };
        assert(offset == moved_offset(before, delta as int, max as int));
        self.scroll_offset = offset;
        self.needs_full_render = true;
        if offset != before {
            match target {
                Some((pane, screen)) => {
                    match self.drag {
                        Some(d) => {
                            if d.pane_id == pane {
                                let (moved, shown) = stretch(screen, d, delta > 0, offset);
                                self.drag = Some(moved);
                                self.mouse_selection = Some(shown);
                            }
                        },
                        None => {},
                    }
                },
                None => {},
            }
        }
        offset != before
    }

    /// The button went down or came up somewhere on the session's screen.
    pub fn click(&mut self, release: bool)
        ensures
            final(self)@ == old(self)@.clicked(release),
    {
        if !release {
            self.mouse_selection = None;
            self.drag = None;
        }
        self.autoscroll_repeat = None;
    }

    /// Stop replaying a drag of the session.
    pub fn disarm_autoscroll(&mut self)
        ensures
            final(self)@ == (ClientView { autoscroll_repeat: None, ..old(self)@ }),
    {
        self.autoscroll_repeat = None;
    }

    /// Stop replaying a drag inside a watched pane.
    pub fn disarm_pane_autoscroll(&mut self)
        ensures
            final(self)@ == (ClientView { pane_autoscroll_repeat: None, ..old(self)@ }),
    {
        self.pane_autoscroll_repeat = None;
    }

    /// Take one step of a drag in a pane of the session; the text to copy, if any.
    pub fn apply_drag(
        &mut self,
        pane: PaneId,
        screen: &Screen,
        s: DragStep,
        focused: bool,
        d: Drag,
        auto_yank: bool,
    ) -> (r: Option<String>)
        ensures
            final(self)@ == old(self)@.dragged(pane, s, focused, d, auto_yank),
            opt_text(r) == yanked(*screen, s, d.is_final, auto_yank),
    {
        if focused {
            if s.offset != self.scroll_offset {
                self.needs_full_render = true;
            }
            self.scroll_offset = s.offset;
        }
        self.drag =
        if d.is_final {
            None
        } else {
            Some(
                DragSession {
                    pane_id: pane,
                    anchor_col: s.anchor_col,
                    anchor_abs: s.anchor_abs,
                    end_abs: s.end_abs,
                    end_col: s.end_col,
                },
            )
        };
        self.mouse_selection =
        if d.is_final && auto_yank {
            None
        } else {
            Some(
                MouseSelection {
                    pane_id: pane,
                    start: (s.anchor_col, s.anchor_row),
                    end: (s.end_col, s.end_row),
                },
            )
        };
        self.autoscroll_repeat =
        if s.repeat {
            Some((d.start_x, d.start_y, d.end_x, d.end_y))
        } else {
            None
        };
        yank(screen, &s, d.is_final, auto_yank)
    }

    fn scroll_of_pane(&self, pane: PaneId) -> (r: usize)
        ensures
            r == self@.pane_offset(pane),
    {
        match self.pane_scroll.get(&pane) {
            Some(o) => *o,
            None => 0,
        }
    }

    fn set_pane_scroll(&mut self, pane: PaneId, offset: usize)
        ensures
            final(self)@ == old(self)@.with_pane_offset(pane, offset),
    {
        if offset == 0 {
            self.pane_scroll.remove(&pane);
        } else {
            self.pane_scroll.insert(pane, offset);
        }
        assert(self@ =~= old(self)@.with_pane_offset(pane, offset));
    }

    /// Watch a pane, with the size it is asked to have, if any.
    pub fn subscribe_pane(&mut self, pane: PaneId, demand: Option<(u16, u16)>)
        ensures
            final(self)@ == old(self)@.watching(pane, demand),
    {
        let known = self.subscribed_panes.contains_key(&pane);
        self.subscribed_panes.insert(pane, demand);
        if !known {
            self.pane_scroll.remove(&pane);
            self.pane_selection.remove(&pane);
        }
        assert(self@ =~= old(self)@.watching(pane, demand));
    }

    /// Watch a pane no longer, because the client asks so or because the pane is gone.
    /// The result says whether it was watched.
    pub fn unsubscribe_pane(&mut self, pane: PaneId) -> (r: bool)
        ensures
            final(self)@ == old(self)@.without_pane(pane),
            r == old(self)@.subscribed_panes.contains_key(pane),
    {
        let known = self.subscribed_panes.contains_key(&pane);
        self.subscribed_panes.remove(&pane);
        self.pane_scroll.remove(&pane);
        self.pane_selection.remove(&pane);
        if running_on(&self.pane_drag, pane).is_some() {
            self.pane_drag = None;
            self.pane_autoscroll_repeat = None;
        }
        assert(self@ =~= old(self)@.without_pane(pane));
        known
    }

    /// Start or stop sending the session tree to the client.
    pub fn subscribe_session_tree(&mut self, on: bool)
        ensures
            final(self)@ == (ClientView { session_tree_subscribed: on, ..old(self)@ }),
    {
        self.session_tree_subscribed = on;
    }

    /// A wheel notch over a watched pane, at a cell of its content. `screen` is none
    /// when the pane is gone.
    pub fn scroll_pane(
        &mut self,
        pane: PaneId,
        screen: Option<&Screen>,
        up: bool,
        lines: u16,
        x: u16,
        y: u16,
    ) -> (r: PaneOutcome)
        ensures
            screen is None || !old(self)@.subscribed_panes.contains_key(pane) ==> r@
                == PaneOutcomeView::Ignored && final(self)@ == old(self)@,
            screen is Some && old(self)@.subscribed_panes.contains_key(pane) ==> (match routed(
                *screen->0,
                MouseGesture::Wheel,
                old(self)@.copying(),
            ) {
                MouseRoute::App { sgr, .. } => r@ == PaneOutcomeView::Forward(
                    Some(wheel_bytes(sgr, up, after(x), after(y))),
                ) && final(self)@ == old(self)@,
                MouseRoute::AltArrows { app_cursor } => r@ == PaneOutcomeView::Forward(
                    Some(
                        arrows(
                            app_cursor,
                            up,
                            if lines == 0 {
                                1
                            } else {
                                lines as nat
                            },
                        ),
                    ),
                ) && final(self)@ == old(self)@,
                MouseRoute::Remux { .. } => r@ == PaneOutcomeView::Repaint(None) && final(self)@
                    == old(self)@.pane_scrolled(pane, *screen->0, up, lines),
            }),
    {
        let screen: &Screen = match screen {
            Some(s) => s,
            None => {
                return PaneOutcome::Ignored;
            },
        };
        if !self.subscribed_panes.contains_key(&pane) {
            return PaneOutcome::Ignored;
        }
        match mouse_route(screen, MouseGesture::Wheel, self.in_copy_mode()) {
            MouseRoute::App { sgr, .. } => {
                return PaneOutcome::Forward(
                    Some(wheel_report(sgr, up, x.saturating_add(1), y.saturating_add(1))),
                );
            },
            MouseRoute::AltArrows { app_cursor } => {
                let n: u16 = if lines == 0 {
                    1
                } else {
                    lines
                };
                return PaneOutcome::Forward(Some(alt_scroll_arrows(app_cursor, up, n)));
            },
            MouseRoute::Remux { .. } => {},
        }
        let max: usize = screen.max_scroll_offset();
        let cur: usize = self.scroll_of_pane(pane);
        let to: usize = if up {
            let next: usize = cur.saturating_add(lines as usize);
            if next < max {
                next
            } else {
                max
            }
        } else {
            cur.saturating_sub(lines as usize)
        };
        self.set_pane_scroll(pane, to);
        match self.pane_drag {
            Some(d) => {
                if d.pane_id == pane {
                    let (moved, shown) = stretch(screen, d, up, to);
                    self.pane_drag = Some(moved);
                    self.pane_selection.insert(pane, shown);
                } else {
                    self.pane_selection.remove(&pane);
                }
            },
            None => {
                self.pane_selection.remove(&pane);
            },
        }
        assert(self@ =~= old(self)@.pane_scrolled(pane, *screen, up, lines));
        PaneOutcome::Repaint(None)
    }

    /// A click inside a watched pane, at a cell of its content. The result says
    /// whether a highlight went away, and what the application is sent.
    pub fn pane_mouse_click(
        &mut self,
        pane: PaneId,
        screen: Option<&Screen>,
        release: bool,
        x: u16,
        y: u16,
    ) -> (r: (bool, Option<Vec<u8>>))
        ensures
            !old(self)@.subscribed_panes.contains_key(pane) ==> !r.0 && r.1 is None && final(self)@
                == old(self)@,
            old(self)@.subscribed_panes.contains_key(pane) ==> {
                &&& final(self)@ == old(self)@.pane_clicked(pane, release)
                &&& r.0 == (!release && old(self)@.pane_selection.contains_key(pane))
                &&& opt_bytes(r.1) == click_report(
                    deref_screen(screen),
                    old(self)@.copying(),
                    release,
                    after(x),
                    after(y),
                )
            },
    {
        if !self.subscribed_panes.contains_key(&pane) {
            return (false, None);
        }
        let copy_mode = self.in_copy_mode();
        let mut had = false;
        if !release {
            had = self.pane_selection.contains_key(&pane);
            self.pane_selection.remove(&pane);
            if running_on(&self.pane_drag, pane).is_some() {
                self.pane_drag = None;
            }
        }
        self.pane_autoscroll_repeat = None;
        assert(self@ =~= old(self)@.pane_clicked(pane, release));
        let report = report_click(
            screen,
            copy_mode,
            release,
            x.saturating_add(1),
            y.saturating_add(1),
        );
        (had, report)
    }

    /// A drag inside a watched pane, in the coordinates of its content.
    pub fn pane_mouse_drag(
        &mut self,
        pane: PaneId,
        screen: Option<&Screen>,
        d: Drag,
        auto_yank: bool,
    ) -> (r: PaneOutcome)
        ensures
            ({
                let quiet = ClientView { pane_autoscroll_repeat: None, ..old(self)@ };
                if screen is None || !old(self)@.subscribed_panes.contains_key(pane) {
                    r@ == PaneOutcomeView::Ignored && final(self)@ == quiet
                } else {
                    let s = *screen->0;
                    match routed(s, MouseGesture::Button, old(self)@.copying()) {
                        MouseRoute::App { sgr, motion } => r@ == PaneOutcomeView::Forward(
                            forwarded(sgr, motion, d.phase_of(), after(d.end_x), after(d.end_y)),
                        ) && final(self)@ == quiet,
                        _ => if s.cols == 0 || s.rows == 0 {
                            r@ == PaneOutcomeView::Ignored && final(self)@ == quiet
                        } else {
                            let step = old(self)@.pane_step(pane, s, d);
                            &&& final(self)@ == old(self)@.pane_dragged(pane, step, d, auto_yank)
                            &&& r@ == PaneOutcomeView::Repaint(
                                yanked(s, step, d.is_final, auto_yank),
                            )
                        },
                    }
                }
            }),
    {
        let screen: &Screen = match screen {
            Some(s) => s,
            None => {
                self.disarm_pane_autoscroll();
                return PaneOutcome::Ignored;
            },
        };
        if !self.subscribed_panes.contains_key(&pane) {
            self.disarm_pane_autoscroll();
            return PaneOutcome::Ignored;
        }
        let route = mouse_route(screen, MouseGesture::Button, self.in_copy_mode());
        match route {
            MouseRoute::App { sgr, motion } => {
                self.disarm_pane_autoscroll();
                return PaneOutcome::Forward(
                    forward_button(
                        sgr,
                        motion,
                        d.phase(),
                        d.end_x.saturating_add(1),
                        d.end_y.saturating_add(1),
                    ),
                );
            },
            _ => {},
        }
        if screen.cols == 0 || screen.rows == 0 {
            self.disarm_pane_autoscroll();
            return PaneOutcome::Ignored;
        }
        let may_scroll = match route {
            MouseRoute::Remux { scrollback } => scrollback,
            _ => false,
        };
        let max: usize = screen.max_scroll_offset();
        let kept: usize = self.scroll_of_pane(pane);
        let base: usize = if kept < max {
            kept
        } else {
            max
        };
        let s = step_drag(
            screen,
            screen.rows,
            running_on(&self.pane_drag, pane),
            (clamp_coord(d.start_x, screen.cols), clamp_coord(d.start_y, screen.rows)),
            (clamp_coord(d.end_x, screen.cols), clamp_coord(d.end_y, screen.rows)),
            base,
            !d.is_final && may_scroll,
        );
        assert(s == old(self)@.pane_step(pane, *screen, d));
        self.set_pane_scroll(pane, s.offset);
        self.pane_drag =
        if d.is_final {
            None
        } else {
            Some(
                DragSession {
                    pane_id: pane,
                    anchor_col: s.anchor_col,
                    anchor_abs: s.anchor_abs,
                    end_abs: s.end_abs,
                    end_col: s.end_col,
                },
            )
        };
        if d.is_final && auto_yank {
            self.pane_selection.remove(&pane);
        } else {
            self.pane_selection.insert(
                pane,
                MouseSelection {
                    pane_id: pane,
                    start: (s.anchor_col, s.anchor_row),
                    end: (s.end_col, s.end_row),
                },
            );
        }
        self.pane_autoscroll_repeat =
        if s.repeat {
            Some((pane, d.start_x, d.start_y, d.end_x, d.end_y))
        } else {
            None
        };
        assert(self@ =~= old(self)@.pane_dragged(pane, s, d, auto_yank));
        PaneOutcome::Repaint(yank(screen, &s, d.is_final, auto_yank))
    }
}

/// The values behind an optional target.
pub open spec fn plain(t: Option<(PaneId, &Screen)>) -> Option<(PaneId, Screen)> {
    match t {
        Some((p, s)) => Some((p, *s)),
        None => None,
    }
}

/// The value behind an optional reference.
pub open spec fn deref_screen(s: Option<&Screen>) -> Option<Screen> {
    match s {
        Some(x) => Some(*x),
        None => None,
    }
}

/// The report of a press or a release that an application is sent, if it tracks the
/// mouse.
pub open spec fn click_report(
    screen: Option<Screen>,
    copy_mode: bool,
    release: bool,
    col: u16,
    row: u16,
) -> Option<Seq<u8>> {
    match screen {
        Some(s) => match routed(s, MouseGesture::Button, copy_mode) {
            MouseRoute::App { sgr, motion } => forwarded(
                sgr,
                motion,
                if release {
                    ButtonPhase::Release
                } else {
                    ButtonPhase::Press
                },
                col,
                row,
            ),
            _ => None,
        },
        None => None,
    }
}

/// The report of a press or a release, if the application of the pane is owed one.
pub fn report_click(
    screen: Option<&Screen>,
    copy_mode: bool,
    release: bool,
    col: u16,
    row: u16,
) -> (r: Option<Vec<u8>>)
    ensures
        opt_bytes(r) == click_report(deref_screen(screen), copy_mode, release, col, row),
{
    match screen {
        Some(s) => match mouse_route(s, MouseGesture::Button, copy_mode) {
            MouseRoute::App { sgr, motion } => forward_button(
                sgr,
                motion,
                if release {
                    ButtonPhase::Release
                } else {
                    ButtonPhase::Press
                },
                col,
                row,
            ),
            _ => None,
        },
        None => None,
    }
}

/// Scrolling never leaves the range of what there is to scroll.
pub proof fn law_a_scroll_stays_in_range(c: ClientView, delta: int, pane: PaneId, screen: Screen)
    ensures
        c.scrolled(delta, Some((pane, screen))).scroll_offset <= screen.max_offset(),
{
}

/// Watching a pane again changes nothing but the size it is asked to have.
pub proof fn law_watching_again_keeps_the_place(
    c: ClientView,
    pane: PaneId,
    demand: Option<(u16, u16)>,
    again: Option<(u16, u16)>,
)
    ensures
        c.watching(pane, demand).watching(pane, again) == (ClientView {
            subscribed_panes: c.subscribed_panes.insert(pane, again),
            ..c.watching(pane, demand)
        }),
{
    assert(c.watching(pane, demand).watching(pane, again) =~= (ClientView {
        subscribed_panes: c.subscribed_panes.insert(pane, again),
        ..c.watching(pane, demand)
    }));
}

/// After a pane is gone, nothing of the client refers to it.
pub proof fn law_a_gone_pane_leaves_no_trace(c: ClientView, pane: PaneId)
    ensures
        !c.without_pane(pane).subscribed_panes.contains_key(pane),
        !c.without_pane(pane).pane_scroll.contains_key(pane),
        !c.without_pane(pane).pane_selection.contains_key(pane),
        anchor_on(c.without_pane(pane).pane_drag, pane) is None,
        c.without_pane(pane).without_pane(pane) == c.without_pane(pane),
{
    assert(c.without_pane(pane).without_pane(pane) =~= c.without_pane(pane));
}

/// Input never moves the view of a client in copy mode or in search, and never the
/// view of a watched pane.
pub proof fn law_typing_leaves_history_trips_alone(c: ClientView)
    ensures
        c.mode == COPY_MODE@ || c.mode == SEARCH_MODE@ ==> !c.typing_ends_scroll(),
        c.live().pane_scroll == c.pane_scroll,
        !c.live().typing_ends_scroll(),
{
}

} // verus!
