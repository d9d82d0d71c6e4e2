//! Appearance: border styles and the colors of the composited frame.

use crate::protocol::CellColor;
use crate::text::same_text;
use vstd::prelude::*;

verus! {

/// How panes are separated from each other.
#[derive(Clone, Copy, Debug, PartialEq, Eq, Structural)]
pub enum BorderStyle {
    /// A full box around every pane.
    ZellijStyle,
    /// Content edge to edge with single divider lines.
    TmuxStyle,
}

/// What happened in a background tab since it was last looked at.
#[derive(Clone, Copy, Debug, PartialEq, Eq, Structural)]
pub enum TabActivity {
    Quiet,
    Activity,
    Bell,
    Silent,
}

/// Foreground and background of one input mode.
#[derive(Clone, Copy, Debug, PartialEq, Eq, Structural)]
pub struct ModeColors {
    pub fg: CellColor,
    pub bg: CellColor,
}

/// The colors of everything that the compositor draws itself.
#[derive(Clone, Copy, Debug, PartialEq, Eq, Structural)]
pub struct CompositorTheme {
    pub frame_fg: CellColor,
    pub frame_active_fg: CellColor,
    pub frame_bg: CellColor,
    /// Label of a pane in its border; the border's own color where unset.
    pub pane_label_fg: Option<CellColor>,
    /// Background of that label; the border's own background where unset.
    pub pane_label_bg: Option<CellColor>,
    pub tab_active_fg: CellColor,
    pub tab_active_bg: CellColor,
    pub tab_inactive_fg: CellColor,
    pub tab_inactive_bg: CellColor,
    pub tab_bell_fg: CellColor,
    pub tab_activity_fg: CellColor,
    pub tab_silent_fg: CellColor,
    pub status_bar_fg: CellColor,
    pub status_bar_bg: CellColor,
    pub separator_fg: CellColor,
    pub session_name_fg: CellColor,
    pub search_count_fg: CellColor,
    pub search_count_bg: CellColor,
    pub layout_indicator_fg: CellColor,
    pub layout_indicator_bg: CellColor,
    pub mode_normal: ModeColors,
    pub mode_command: ModeColors,
    pub mode_visual: ModeColors,
    pub mode_search: ModeColors,
}

impl CompositorTheme {
    /// The colors of the mode with the given name; those of the normal mode for a
    /// name that is not known.
    pub open spec fn colors_of(self, mode: Seq<char>) -> (CellColor, CellColor) {
        if mode == "COMMAND"@ {
            (self.mode_command.fg, self.mode_command.bg)
        } else if mode == "VISUAL"@ {
            (self.mode_visual.fg, self.mode_visual.bg)
        } else if mode == "SEARCH"@ {
            (self.mode_search.fg, self.mode_search.bg)
        } else {
            (self.mode_normal.fg, self.mode_normal.bg)
        }
    }

    /// The colors of a pane label in a border of color `border_fg`.
    pub open spec fn label(self, border_fg: CellColor) -> (CellColor, CellColor) {
        (
            match self.pane_label_fg {
                Some(c) => c,
                None => border_fg,
            },
            match self.pane_label_bg {
                Some(c) => c,
                None => self.frame_bg,
            },
        )
    }

    /// The background of every border.
    pub fn border_bg(&self) -> (r: CellColor)
        ensures
            r == self.frame_bg,
    {
        self.frame_bg
    }

    /// The colors of a pane label in a border of color `border_fg`.
    pub fn label_colors(&self, border_fg: &CellColor) -> (r: (CellColor, CellColor))
        ensures
            r == self.label(*border_fg),
    {
        (
            match self.pane_label_fg {
                Some(c) => c,
                None => *border_fg,
            },
            match self.pane_label_bg {
                Some(c) => c,
                None => self.frame_bg,
            },
        )
    }

    /// The colors of the mode with the given name.
    pub fn mode_colors(&self, mode: &str) -> (r: (CellColor, CellColor))
        ensures
            r == self.colors_of(mode@),
    {
        if same_text(mode, "COMMAND") {
            (self.mode_command.fg, self.mode_command.bg)
        } else if same_text(mode, "VISUAL") {
            (self.mode_visual.fg, self.mode_visual.bg)
        } else if same_text(mode, "SEARCH") {
            (self.mode_search.fg, self.mode_search.bg)
        } else {
            (self.mode_normal.fg, self.mode_normal.bg)
        }
    }
}

impl Default for CompositorTheme {
    fn default() -> (r: Self)
        ensures
            r == (CompositorTheme {
                frame_fg: CellColor::Rgb(88, 91, 112),
                frame_active_fg: CellColor::Rgb(137, 180, 250),
                frame_bg: CellColor::Default,
                pane_label_fg: None,
                pane_label_bg: None,
                tab_active_fg: CellColor::Rgb(30, 30, 46),
                tab_active_bg: CellColor::Rgb(137, 180, 250),
                tab_inactive_fg: CellColor::Rgb(166, 173, 200),
                tab_inactive_bg: CellColor::Indexed(237),
                tab_bell_fg: CellColor::Rgb(243, 139, 168),
                tab_activity_fg: CellColor::Indexed(11),
                tab_silent_fg: CellColor::Rgb(166, 227, 161),
                status_bar_fg: CellColor::Rgb(205, 214, 244),
                status_bar_bg: CellColor::Rgb(24, 24, 37),
                separator_fg: CellColor::Rgb(69, 71, 90),
                session_name_fg: CellColor::Rgb(205, 214, 244),
                search_count_fg: CellColor::Rgb(30, 30, 46),
                search_count_bg: CellColor::Rgb(249, 226, 175),
                layout_indicator_fg: CellColor::Indexed(0),
                layout_indicator_bg: CellColor::Indexed(8),
                mode_normal: ModeColors { fg: CellColor::Rgb(30, 30, 46), bg: CellColor::Rgb(166, 227, 161) },
                mode_command: ModeColors { fg: CellColor::Rgb(30, 30, 46), bg: CellColor::Rgb(137, 180, 250) },
                mode_visual: ModeColors { fg: CellColor::Rgb(30, 30, 46), bg: CellColor::Rgb(203, 166, 247) },
                mode_search: ModeColors { fg: CellColor::Rgb(30, 30, 46), bg: CellColor::Rgb(249, 226, 175) },
            }),
    {
        let base = CellColor::Rgb(30, 30, 46);
        let mantle = CellColor::Rgb(24, 24, 37);
        let text = CellColor::Rgb(205, 214, 244);
        CompositorTheme {
            frame_fg: CellColor::Rgb(88, 91, 112),
            frame_active_fg: CellColor::Rgb(137, 180, 250),
            frame_bg: CellColor::Default,
            pane_label_fg: None,
            pane_label_bg: None,
            tab_active_fg: base,
            tab_active_bg: CellColor::Rgb(137, 180, 250),
            tab_inactive_fg: CellColor::Rgb(166, 173, 200),
            tab_inactive_bg: CellColor::Indexed(237),
            tab_bell_fg: CellColor::Rgb(243, 139, 168),
            tab_activity_fg: CellColor::Indexed(11),
            tab_silent_fg: CellColor::Rgb(166, 227, 161),
            status_bar_fg: text,
            status_bar_bg: mantle,
            separator_fg: CellColor::Rgb(69, 71, 90),
            session_name_fg: text,
            search_count_fg: base,
            search_count_bg: CellColor::Rgb(249, 226, 175),
            layout_indicator_fg: CellColor::Indexed(0),
            layout_indicator_bg: CellColor::Indexed(8),
            mode_normal: ModeColors { fg: base, bg: CellColor::Rgb(166, 227, 161) },
            mode_command: ModeColors { fg: base, bg: CellColor::Rgb(137, 180, 250) },
            mode_visual: ModeColors { fg: base, bg: CellColor::Rgb(203, 166, 247) },
            mode_search: ModeColors { fg: base, bg: CellColor::Rgb(249, 226, 175) },
        }
    }
}

} // verus!
