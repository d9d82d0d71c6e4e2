//! The composited frame: panes with their borders, the selection, the status bar,
//! and the popup on top.

use crate::blit::{
    apply_selection_highlight, blit_screen, highlighted, screen_paint, selected,
};
use crate::boxes::{
    border_fg, border_look, box_paint, content_rect, draw_divider_column, draw_divider_row,
    draw_zellij_box, fits_zellij_border, frame_color, pane_content_rect, roomy, BOX_HORIZONTAL,
    BOX_VERTICAL,
};
use crate::config::{BorderStyle, CompositorTheme};
use crate::geometry::{
    compute_layout, covers, fits_screen, law_rects_stay_inside, placed,
};
use crate::grid::{area, blank_grid, clean, draw_run, drawn, fill, looks, run};
use crate::hit::{HitRegions, MouseSelection, StackRegion};
use crate::layout::{find_stack_names, LayoutNode, PaneId, Rect, Tree};
use crate::protocol::{blank, CellColor, Look, RenderCell};
use crate::screen::{sub0, Screen};
use crate::status_bar::{bar_drawn, draw_status_bar, tab_regions, tabs_start, StatusInfo};
use crate::tab_strip::{
    build_top_border_content, draw_tmux_tab_bar, push_stack_regions, stack_ok, stack_regions,
    stack_view, tab_bar, top_content, StackView,
};
use std::collections::HashMap;
use vstd::prelude::*;

verus! {

broadcast use vstd::std_specs::hash::group_hash_axioms;

// ---------------------------------------------------------------------------
// One pane
// ---------------------------------------------------------------------------

/// The stack of a pane, as it is drawn.
pub open spec fn stack_shown(t: Tree, id: PaneId) -> Option<StackView> {
    match t.stack_of(id) {
        Some(Tree::Stack { panes, names, active, .. }) => Some(
            StackView { names, ids: panes, active: active as int },
        ),
        _ => None,
    }
}

/// The pane is one of several in its stack.
pub open spec fn shares_stack(t: Tree, id: PaneId) -> bool {
    match stack_shown(t, id) {
        Some(s) => s.ids.len() > 1,
        None => false,
    }
}

/// Whether a pane is drawn as one of several in a stack, with a tab for each.
pub fn is_multi_stack(layout: &LayoutNode, pane_id: PaneId) -> (r: bool)
    ensures
        r == shares_stack(layout@, pane_id),
{
    match find_stack_names(layout, pane_id) {
        Some((_, panes, _)) => panes.len() > 1,
        None => false,
    }
}

/// The grid with a box around `rect` and the label or the tabs of its stack in the
/// top edge.
pub open spec fn border_drawn(
    g: Seq<Seq<Look>>,
    rect: Rect,
    fg: CellColor,
    stack: Option<StackView>,
    mode: Seq<char>,
    theme: CompositorTheme,
) -> Seq<Seq<Look>> {
    if rect.width == 0 || rect.height == 0 {
        g
    } else {
        drawn(
            drawn(g, box_paint(rect, fg, theme)),
            run(
                rect.y as int,
                rect.x + 1,
                rect.x + rect.width - 1,
                top_content(stack, fg, mode, sub0(rect.width as int, 2), theme),
            ),
        )
    }
}

/// Draw one pane's box border with the label or the tabs of its stack.
pub fn draw_zellij_border(
    buffer: &mut Vec<Vec<RenderCell>>,
    rect: Rect,
    border_fg: &CellColor,
    stack_info: &Option<(Vec<String>, Vec<PaneId>, usize)>,
    pane_id: PaneId,
    mode: &str,
    theme: &CompositorTheme,
)
    ensures
        looks(final(buffer)@) == border_drawn(
            looks(old(buffer)@),
            rect,
            *border_fg,
            stack_view(*stack_info),
            mode@,
            *theme,
        ),
{
    let w: usize = rect.width as usize;
    if w == 0 || rect.height == 0 {
        return;
    }
    draw_zellij_box(buffer, rect, border_fg, theme);
    let content = build_top_border_content(
        stack_info,
        pane_id,
        border_fg,
        mode,
        w.saturating_sub(2),
        theme,
    );
    let x: usize = rect.x as usize;
    draw_run(buffer, rect.y as usize, x + 1, x + w - 1, &content);
}

/// The offset that a pane is scrolled back by.
pub open spec fn offset_of(scrolls: Map<PaneId, usize>, id: PaneId) -> usize {
    if scrolls.contains_key(id) {
        scrolls[id]
    } else {
        0
    }
}

/// Everything that the drawing of a pane depends on besides the grid.
pub struct Scene {
    pub tree: Tree,
    pub focused: PaneId,
    pub mode: Seq<char>,
    pub scrolls: Map<PaneId, usize>,
    pub theme: CompositorTheme,
}

/// The grid with one boxed pane drawn.
pub open spec fn boxed_pane(
    g: Seq<Seq<Look>>,
    id: PaneId,
    rect: Rect,
    screens: Map<PaneId, &Screen>,
    scene: Scene,
) -> Seq<Seq<Look>> {
    if rect.width == 0 || rect.height == 0 || !screens.contains_key(id) {
        g
    } else {
        let inner = content_rect(BorderStyle::ZellijStyle, rect, false);
        let filled = drawn(g, screen_paint(*screens[id], inner, offset_of(scene.scrolls, id)));
        if roomy(rect.width, rect.height) {
            border_drawn(
                filled,
                rect,
                frame_color(scene.theme, id == scene.focused),
                stack_shown(scene.tree, id),
                scene.mode,
                scene.theme,
            )
        } else {
            filled
        }
    }
}

/// The clickable regions that one boxed pane adds.
pub open spec fn boxed_regions(
    id: PaneId,
    rect: Rect,
    screens: Map<PaneId, &Screen>,
    t: Tree,
) -> Seq<StackRegion> {
    if screens.contains_key(id) && roomy(rect.width, rect.height) && shares_stack(t, id) {
        stack_regions(
            stack_shown(t, id),
            rect.width - 2,
            BorderStyle::ZellijStyle,
            rect.x + 1,
            rect.y,
        )
    } else {
        Seq::empty()
    }
}

/// The grid with one borderless pane drawn, below the tab bar of its stack.
pub open spec fn flat_pane(
    g: Seq<Seq<Look>>,
    id: PaneId,
    rect: Rect,
    screens: Map<PaneId, &Screen>,
    scene: Scene,
) -> Seq<Seq<Look>> {
    if rect.width == 0 || rect.height == 0 || !screens.contains_key(id) {
        g
    } else {
        let inner = content_rect(BorderStyle::TmuxStyle, rect, shares_stack(scene.tree, id));
        let headed = if inner.y > rect.y {
            tab_bar(g, rect, stack_shown(scene.tree, id), scene.mode, scene.theme)
        } else {
            g
        };
        drawn(headed, screen_paint(*screens[id], inner, offset_of(scene.scrolls, id)))
    }
}

/// The clickable regions that one borderless pane adds.
pub open spec fn flat_regions(
    id: PaneId,
    rect: Rect,
    screens: Map<PaneId, &Screen>,
    t: Tree,
) -> Seq<StackRegion> {
    if screens.contains_key(id) && rect.width > 0 && rect.height >= 2 && shares_stack(t, id) {
        stack_regions(
            stack_shown(t, id),
            rect.width as int,
            BorderStyle::TmuxStyle,
            rect.x as int,
            rect.y,
        )
    } else {
        Seq::empty()
    }
}

/// The grid with one pane drawn in the given style.
pub open spec fn pane_drawn(
    g: Seq<Seq<Look>>,
    id: PaneId,
    rect: Rect,
    screens: Map<PaneId, &Screen>,
    scene: Scene,
    style: BorderStyle,
) -> Seq<Seq<Look>> {
    match style {
        BorderStyle::ZellijStyle => boxed_pane(g, id, rect, screens, scene),
        BorderStyle::TmuxStyle => flat_pane(g, id, rect, screens, scene),
    }
}

/// The clickable regions that one pane adds.
pub open spec fn pane_regions(
    id: PaneId,
    rect: Rect,
    screens: Map<PaneId, &Screen>,
    t: Tree,
    style: BorderStyle,
) -> Seq<StackRegion> {
    match style {
        BorderStyle::ZellijStyle => boxed_regions(id, rect, screens, t),
        BorderStyle::TmuxStyle => flat_regions(id, rect, screens, t),
    }
}

/// The grid with the first `n` panes drawn.
pub open spec fn panes_drawn(
    g: Seq<Seq<Look>>,
    rects: Seq<(PaneId, Rect)>,
    n: int,
    screens: Map<PaneId, &Screen>,
    scene: Scene,
    style: BorderStyle,
) -> Seq<Seq<Look>>
    decreases n,
{
    if n <= 0 {
        g
    } else {
        pane_drawn(
            panes_drawn(g, rects, n - 1, screens, scene, style),
            rects[n - 1].0,
            rects[n - 1].1,
            screens,
            scene,
            style,
        )
    }
}

/// The clickable regions of the first `n` panes.
pub open spec fn all_regions(
    rects: Seq<(PaneId, Rect)>,
    n: int,
    screens: Map<PaneId, &Screen>,
    t: Tree,
    style: BorderStyle,
) -> Seq<StackRegion>
    decreases n,
{
    if n <= 0 {
        Seq::empty()
    } else {
        all_regions(rects, n - 1, screens, t, style) + pane_regions(
            rects[n - 1].0,
            rects[n - 1].1,
            screens,
            t,
            style,
        )
    }
}

/// Rectangles with cells end within the coordinate range.
pub open spec fn rects_fit(rects: Seq<(PaneId, Rect)>) -> bool {
    forall|i: int|
        0 <= i < rects.len() && (#[trigger] rects[i]).1.width > 0 && rects[i].1.height > 0
            ==> fits_screen(rects[i].1)
}

/// No stack of the tree has more names than panes.
pub open spec fn names_fit(t: Tree) -> bool
    decreases t,
{
    match t {
        Tree::Split { first, second, .. } => names_fit(*first) && names_fit(*second),
        Tree::Stack { panes, names, .. } => names.len() <= panes.len(),
    }
}

proof fn lemma_stack_fits(t: Tree, id: PaneId)
    requires
        names_fit(t),
    ensures
        stack_ok(stack_shown(t, id)),
    decreases t,
{
    match t {
        Tree::Split { first, second, .. } => {
            lemma_stack_fits(*first, id);
            lemma_stack_fits(*second, id);
        },
        Tree::Stack { .. } => {},
    }
}

fn scroll_of(scroll_offsets: &HashMap<PaneId, usize>, id: PaneId) -> (r: usize)
    ensures
        r == offset_of(scroll_offsets@, id),
{
    match scroll_offsets.get(&id) {
        Some(o) => *o,
        None => 0,
    }
}

/// Draw one boxed pane.
fn draw_boxed_pane(
    buffer: &mut Vec<Vec<RenderCell>>,
    pane_id: PaneId,
    rect: Rect,
    screens: &HashMap<PaneId, &Screen>,
    layout: &LayoutNode,
    focused_pane: PaneId,
    mode: &str,
    hit_regions: &mut HitRegions,
    scroll_offsets: &HashMap<PaneId, usize>,
    theme: &CompositorTheme,
)
    requires
        rect.width > 0 && rect.height > 0 ==> fits_screen(rect),
        names_fit(layout@),
    ensures
        looks(final(buffer)@) == boxed_pane(
            looks(old(buffer)@),
            pane_id,
            rect,
            screens@,
            (Scene {
                tree: layout@,
                focused: focused_pane,
                mode: mode@,
                scrolls: scroll_offsets@,
                theme: *theme,
            }),
        ),
        final(hit_regions).stack_regions@ == old(hit_regions).stack_regions@ + boxed_regions(
            pane_id,
            rect,
            screens@,
            layout@,
        ),
        final(hit_regions).tab_regions@ == old(hit_regions).tab_regions@,
{
    let ghost before = hit_regions.stack_regions@;
    assert(before + Seq::empty() =~= before);
    if rect.width == 0 || rect.height == 0 {
        return;
    }
    let screen: &Screen = match screens.get(&pane_id) {
        Some(s) => *s,
        None => {
            return;
        },
    };
    let fg = border_fg(theme, pane_id == focused_pane);
    let offset: usize = scroll_of(scroll_offsets, pane_id);
    let inner = pane_content_rect(&BorderStyle::ZellijStyle, rect, false);
    blit_screen(buffer, screen, inner, offset);
    if !fits_zellij_border(rect.width, rect.height) {
        return;
    }
    let stack_info = find_stack_names(layout, pane_id);
    proof {
        lemma_stack_fits(layout@, pane_id);
        assert(stack_view(stack_info) =~= stack_shown(layout@, pane_id));
    }
    draw_zellij_border(buffer, rect, &fg, &stack_info, pane_id, mode, theme);
    let several = match &stack_info {
        Some((_, ids, _)) => ids.len() > 1,
        None => false,
    };
    if several {
        push_stack_regions(
            &mut hit_regions.stack_regions,
            &stack_info,
            rect.width as usize - 2,
            &BorderStyle::ZellijStyle,
            rect.x + 1,
            rect.y,
        );
    }
}

/// Draw one borderless pane.
fn draw_flat_pane(
    buffer: &mut Vec<Vec<RenderCell>>,
    pane_id: PaneId,
    rect: Rect,
    screens: &HashMap<PaneId, &Screen>,
    layout: &LayoutNode,
    focused_pane: PaneId,
    mode: &str,
    hit_regions: &mut HitRegions,
    scroll_offsets: &HashMap<PaneId, usize>,
    theme: &CompositorTheme,
)
    requires
        rect.width > 0 && rect.height > 0 ==> fits_screen(rect),
        names_fit(layout@),
    ensures
        looks(final(buffer)@) == flat_pane(
            looks(old(buffer)@),
            pane_id,
            rect,
            screens@,
            (Scene {
                tree: layout@,
                focused: focused_pane,
                mode: mode@,
                scrolls: scroll_offsets@,
                theme: *theme,
            }),
        ),
        final(hit_regions).stack_regions@ == old(hit_regions).stack_regions@ + flat_regions(
            pane_id,
            rect,
            screens@,
            layout@,
        ),
        final(hit_regions).tab_regions@ == old(hit_regions).tab_regions@,
{
    let ghost before = hit_regions.stack_regions@;
    assert(before + Seq::empty() =~= before);
    if rect.width == 0 || rect.height == 0 {
        return;
    }
    let screen: &Screen = match screens.get(&pane_id) {
        Some(s) => *s,
        None => {
            return;
        },
    };
    let offset: usize = scroll_of(scroll_offsets, pane_id);
    let stack_info = find_stack_names(layout, pane_id);
    proof {
        lemma_stack_fits(layout@, pane_id);
        assert(stack_view(stack_info) =~= stack_shown(layout@, pane_id));
    }
    let content = pane_content_rect(
        &BorderStyle::TmuxStyle,
        rect,
        is_multi_stack(layout, pane_id),
    );
    if content.y > rect.y {
        draw_tmux_tab_bar(buffer, rect, &stack_info, mode, hit_regions, theme);
    }
    blit_screen(buffer, screen, content, offset);
}

/// Draw all panes in the given style.
fn draw_panes(
    buffer: &mut Vec<Vec<RenderCell>>,
    rects: &[(PaneId, Rect)],
    screens: &HashMap<PaneId, &Screen>,
    layout: &LayoutNode,
    focused_pane: PaneId,
    mode: &str,
    hit_regions: &mut HitRegions,
    scroll_offsets: &HashMap<PaneId, usize>,
    style: &BorderStyle,
    theme: &CompositorTheme,
)
    requires
        rects_fit(rects@),
        names_fit(layout@),
    ensures
        looks(final(buffer)@) == panes_drawn(
            looks(old(buffer)@),
            rects@,
            rects@.len() as int,
            screens@,
            (Scene {
                tree: layout@,
                focused: focused_pane,
                mode: mode@,
                scrolls: scroll_offsets@,
                theme: *theme,
            }),
            *style,
        ),
        final(hit_regions).stack_regions@ == old(hit_regions).stack_regions@ + all_regions(
            rects@,
            rects@.len() as int,
            screens@,
            layout@,
            *style,
        ),
        final(hit_regions).tab_regions@ == old(hit_regions).tab_regions@,
{
    let ghost g = looks(buffer@);
    let ghost before = hit_regions.stack_regions@;
    let ghost tabs = hit_regions.tab_regions@;
    let ghost scene = Scene {
        tree: layout@,
        focused: focused_pane,
        mode: mode@,
        scrolls: scroll_offsets@,
        theme: *theme,
    };
    let mut i: usize = 0;
    assert(before + Seq::empty() =~= before);
    while i < rects.len()
        invariant
            i <= rects.len(),
            rects_fit(rects@),
            names_fit(layout@),
            scene == (Scene {
                tree: layout@,
                focused: focused_pane,
                mode: mode@,
                scrolls: scroll_offsets@,
                theme: *theme,
            }),
            looks(buffer@) == panes_drawn(g, rects@, i as int, screens@, scene, *style),
            hit_regions.stack_regions@ == before + all_regions(
                rects@,
                i as int,
                screens@,
                layout@,
                *style,
            ),
            hit_regions.tab_regions@ == tabs,
        decreases rects.len() - i,
    {
        let (id, rect) = rects[i];
        let ghost done = all_regions(rects@, i as int, screens@, layout@, *style);
        match style {
            BorderStyle::ZellijStyle => draw_boxed_pane(
                buffer,
                id,
                rect,
                screens,
                layout,
                focused_pane,
                mode,
                hit_regions,
                scroll_offsets,
                theme,
            ),
            BorderStyle::TmuxStyle => draw_flat_pane(
                buffer,
                id,
                rect,
                screens,
                layout,
                focused_pane,
                mode,
                hit_regions,
                scroll_offsets,
                theme,
            ),
        }
        proof {
            let added = pane_regions(id, rect, screens@, layout@, *style);
            assert(before + done + added =~= before + (done + added));
        }
        i += 1;
    }
}

// ---------------------------------------------------------------------------
// Dividers
// ---------------------------------------------------------------------------

/// The larger of two.
pub open spec fn larger(a: int, b: int) -> int {
    if a > b {
        a
    } else {
        b
    }
}

/// The smaller of two.
pub open spec fn smaller(a: int, b: int) -> int {
    if a < b {
        a
    } else {
        b
    }
}

/// The grid with the dividers between two panes: in the last column of the left one
/// where they touch side by side, in the last row of the upper one where they touch
/// one above the other.
pub open spec fn pair_divided(g: Seq<Seq<Look>>, a: Rect, b: Rect, theme: CompositorTheme) -> Seq<
    Seq<Look>,
> {
    let fg = frame_color(theme, false);
    let upright = if a.x + a.width == b.x && b.x > 0 {
        drawn(
            g,
            area(
                b.x - 1,
                b.x as int,
                larger(a.y as int, b.y as int),
                smaller(a.y + a.height, b.y + b.height),
                border_look(BOX_VERTICAL, fg, theme),
            ),
        )
    } else {
        g
    };
    if a.y + a.height == b.y && b.y > 0 {
        drawn(
            upright,
            area(
                larger(a.x as int, b.x as int),
                smaller(a.x + a.width, b.x + b.width),
                b.y - 1,
                b.y as int,
                border_look(BOX_HORIZONTAL, fg, theme),
            ),
        )
    } else {
        upright
    }
}

/// The grid with the dividers between pane `i` and the panes after it, up to `j`.
pub open spec fn row_divided(
    g: Seq<Seq<Look>>,
    rects: Seq<(PaneId, Rect)>,
    i: int,
    j: int,
    theme: CompositorTheme,
) -> Seq<Seq<Look>>
    decreases j - i,
{
    if j <= i + 1 {
        g
    } else {
        pair_divided(
            row_divided(g, rects, i, j - 1, theme),
            rects[i].1,
            rects[j - 1].1,
            theme,
        )
    }
}

/// The grid with the dividers between the first `n` panes and all that follow each.
pub open spec fn divided(
    g: Seq<Seq<Look>>,
    rects: Seq<(PaneId, Rect)>,
    n: int,
    theme: CompositorTheme,
) -> Seq<Seq<Look>>
    decreases n,
{
    if n <= 0 {
        g
    } else {
        row_divided(divided(g, rects, n - 1, theme), rects, n - 1, rects.len() as int, theme)
    }
}

fn divide_pair(buffer: &mut Vec<Vec<RenderCell>>, a: Rect, b: Rect, theme: &CompositorTheme)
    ensures
        looks(final(buffer)@) == pair_divided(looks(old(buffer)@), a, b, *theme),
{
    let fg = border_fg(theme, false);
    let a_right: usize = a.x as usize + a.width as usize;
    let b_right: usize = b.x as usize + b.width as usize;
    let a_bottom: usize = a.y as usize + a.height as usize;
    let b_bottom: usize = b.y as usize + b.height as usize;
    if a_right == b.x as usize && b.x > 0 {
        let top: u16 = if a.y > b.y {
            a.y
        } else {
            b.y
        };
        let bottom: usize = if a_bottom < b_bottom {
            a_bottom
        } else {
            b_bottom
        };
        draw_divider_column(buffer, b.x as usize - 1, top as usize, bottom, &fg, theme);
    }
    if a_bottom == b.y as usize && b.y > 0 {
        let left: u16 = if a.x > b.x {
            a.x
        } else {
            b.x
        };
        let right: usize = if a_right < b_right {
            a_right
        } else {
            b_right
        };
        draw_divider_row(buffer, b.y as usize - 1, left as usize, right, &fg, theme);
    }
}

/// Draw divider lines between adjacent panes.
pub fn draw_tmux_dividers(
    buffer: &mut Vec<Vec<RenderCell>>,
    pane_rects: &[(PaneId, Rect)],
    theme: &CompositorTheme,
)
    ensures
        looks(final(buffer)@) == divided(
            looks(old(buffer)@),
            pane_rects@,
            pane_rects@.len() as int,
            *theme,
        ),
{
    let ghost g = looks(buffer@);
    let mut i: usize = 0;
    while i < pane_rects.len()
        invariant
            i <= pane_rects.len(),
            looks(buffer@) == divided(g, pane_rects@, i as int, *theme),
        decreases pane_rects.len() - i,
    {
        let ghost before = looks(buffer@);
        let mut j: usize = i + 1;
        while j < pane_rects.len()
            invariant
                i < j <= pane_rects.len(),
                looks(buffer@) == row_divided(before, pane_rects@, i as int, j as int, *theme),
            decreases pane_rects.len() - j,
        {
            divide_pair(buffer, pane_rects[i].1, pane_rects[j].1, theme);
            j += 1;
        }
        i += 1;
    }
}

// ---------------------------------------------------------------------------
// The frame
// ---------------------------------------------------------------------------

/// The grid with all panes of a layout, and the dividers between borderless ones.
pub open spec fn layout_drawn(
    g: Seq<Seq<Look>>,
    rects: Seq<(PaneId, Rect)>,
    screens: Map<PaneId, &Screen>,
    scene: Scene,
    style: BorderStyle,
) -> Seq<Seq<Look>> {
    let panes = panes_drawn(g, rects, rects.len() as int, screens, scene, style);
    if style is TmuxStyle {
        divided(panes, rects, rects.len() as int, scene.theme)
    } else {
        panes
    }
}

/// Draw panes in boxes, each with the label or the tabs of its stack.
pub fn draw_zellij_panes(
    buffer: &mut Vec<Vec<RenderCell>>,
    pane_rects: &[(PaneId, Rect)],
    pane_screens: &HashMap<PaneId, &Screen>,
    layout: &LayoutNode,
    focused_pane: PaneId,
    mode: &str,
    hit_regions: &mut HitRegions,
    scroll_offsets: &HashMap<PaneId, usize>,
    theme: &CompositorTheme,
)
    requires
        rects_fit(pane_rects@),
        names_fit(layout@),
    ensures
        looks(final(buffer)@) == layout_drawn(
            looks(old(buffer)@),
            pane_rects@,
            pane_screens@,
            (Scene {
                tree: layout@,
                focused: focused_pane,
                mode: mode@,
                scrolls: scroll_offsets@,
                theme: *theme,
            }),
            BorderStyle::ZellijStyle,
        ),
        final(hit_regions).stack_regions@ == old(hit_regions).stack_regions@ + all_regions(
            pane_rects@,
            pane_rects@.len() as int,
            pane_screens@,
            layout@,
            BorderStyle::ZellijStyle,
        ),
        final(hit_regions).tab_regions@ == old(hit_regions).tab_regions@,
{
    draw_panes(
        buffer,
        pane_rects,
        pane_screens,
        layout,
        focused_pane,
        mode,
        hit_regions,
        scroll_offsets,
        &BorderStyle::ZellijStyle,
        theme,
    );
}

/// Draw panes edge to edge, with dividers between those that touch.
pub fn draw_tmux_panes(
    buffer: &mut Vec<Vec<RenderCell>>,
    pane_rects: &[(PaneId, Rect)],
    pane_screens: &HashMap<PaneId, &Screen>,
    layout: &LayoutNode,
    focused_pane: PaneId,
    mode: &str,
    hit_regions: &mut HitRegions,
    scroll_offsets: &HashMap<PaneId, usize>,
    theme: &CompositorTheme,
)
    requires
        rects_fit(pane_rects@),
        names_fit(layout@),
    ensures
        looks(final(buffer)@) == layout_drawn(
            looks(old(buffer)@),
            pane_rects@,
            pane_screens@,
            (Scene {
                tree: layout@,
                focused: focused_pane,
                mode: mode@,
                scrolls: scroll_offsets@,
                theme: *theme,
            }),
            BorderStyle::TmuxStyle,
        ),
        final(hit_regions).stack_regions@ == old(hit_regions).stack_regions@ + all_regions(
            pane_rects@,
            pane_rects@.len() as int,
            pane_screens@,
            layout@,
            BorderStyle::TmuxStyle,
        ),
        final(hit_regions).tab_regions@ == old(hit_regions).tab_regions@,
{
    draw_panes(
        buffer,
        pane_rects,
        pane_screens,
        layout,
        focused_pane,
        mode,
        hit_regions,
        scroll_offsets,
        &BorderStyle::TmuxStyle,
        theme,
    );
    draw_tmux_dividers(buffer, pane_rects, theme);
}

/// The grid with a selection highlighted in its pane, if the pane is visible.
pub open spec fn selection_drawn(
    g: Seq<Seq<Look>>,
    rects: Seq<(PaneId, Rect)>,
    selection: Option<MouseSelection>,
    style: BorderStyle,
) -> Seq<Seq<Look>> {
    match selection {
        Some(sel) => match crate::hit::rect_from(rects, sel.pane_id, 0) {
            Some(rect) => highlighted(g, selected(sel, rect, style)),
            None => g,
        },
        None => g,
    }
}

/// The value behind an optional reference.
pub open spec fn deref_opt(s: Option<&MouseSelection>) -> Option<MouseSelection> {
    match s {
        Some(x) => Some(*x),
        None => None,
    }
}

/// The whole frame: panes, selection, status bar.
pub open spec fn frame(
    rects: Seq<(PaneId, Rect)>,
    screens: Map<PaneId, &Screen>,
    scene: Scene,
    style: BorderStyle,
    selection: Option<MouseSelection>,
    info: StatusInfo,
    cols: u16,
    rows: u16,
) -> Seq<Seq<Look>> {
    let base = clean(cols as int, rows as int);
    let panes = layout_drawn(base, rects, screens, scene, style);
    let marked = selection_drawn(panes, rects, selection, style);
    if rows == 0 {
        marked
    } else {
        bar_drawn(marked, rows - 1, cols as int, info, scene.theme)
    }
}

proof fn lemma_rects_fit(t: Tree, within: Rect, gap: u16)
    requires
        fits_screen(within),
    ensures
        rects_fit(placed(t, within, gap)),
{
    let rects = placed(t, within, gap);
    assert forall|i: int|
        0 <= i < rects.len() && (#[trigger] rects[i]).1.width > 0 && rects[i].1.height
            > 0 implies fits_screen(rects[i].1) by {
        let r = rects[i].1;
        let x = r.x + r.width - 1;
        let y = r.y + r.height - 1;
        assert(covers(r, x, y));
        law_rects_stay_inside(t, within, gap, i, x, y);
    }
}

/// Same number of rows, and as many cells in each.
pub open spec fn same_shape(a: Seq<Seq<Look>>, b: Seq<Seq<Look>>) -> bool {
    &&& a.len() == b.len()
    &&& forall|y: int| 0 <= y < a.len() ==> (#[trigger] a[y]).len() == b[y].len()
}

proof fn lemma_layout_shape(
    g: Seq<Seq<Look>>,
    rects: Seq<(PaneId, Rect)>,
    n: int,
    screens: Map<PaneId, &Screen>,
    scene: Scene,
    style: BorderStyle,
)
    ensures
        same_shape(panes_drawn(g, rects, n, screens, scene, style), g),
    decreases n,
{
    if n > 0 {
        lemma_layout_shape(g, rects, n - 1, screens, scene, style);
        let before = panes_drawn(g, rects, n - 1, screens, scene, style);
        let after = panes_drawn(g, rects, n, screens, scene, style);
        assert(same_shape(after, before));
        assert forall|y: int| 0 <= y < after.len() implies (#[trigger] after[y]).len()
            == g[y].len() by {
            assert(after[y].len() == before[y].len());
        }
    }
}

proof fn lemma_row_divided_shape(
    g: Seq<Seq<Look>>,
    rects: Seq<(PaneId, Rect)>,
    i: int,
    j: int,
    theme: CompositorTheme,
)
    ensures
        same_shape(row_divided(g, rects, i, j, theme), g),
    decreases j - i,
{
    if j > i + 1 {
        lemma_row_divided_shape(g, rects, i, j - 1, theme);
        let before = row_divided(g, rects, i, j - 1, theme);
        let after = row_divided(g, rects, i, j, theme);
        assert(same_shape(after, before));
        assert forall|y: int| 0 <= y < after.len() implies (#[trigger] after[y]).len()
            == g[y].len() by {
            assert(after[y].len() == before[y].len());
        }
    }
}

proof fn lemma_divided_shape(
    g: Seq<Seq<Look>>,
    rects: Seq<(PaneId, Rect)>,
    n: int,
    theme: CompositorTheme,
)
    ensures
        same_shape(divided(g, rects, n, theme), g),
    decreases n,
{
    if n > 0 {
        lemma_divided_shape(g, rects, n - 1, theme);
        let before = divided(g, rects, n - 1, theme);
        let after = divided(g, rects, n, theme);
        lemma_row_divided_shape(before, rects, n - 1, rects.len() as int, theme);
        assert forall|y: int| 0 <= y < after.len() implies (#[trigger] after[y]).len()
            == g[y].len() by {
            assert(after[y].len() == before[y].len());
        }
    }
}

/// A frame has exactly the rows and columns of the terminal, whatever is on it.
pub proof fn law_a_frame_has_the_size_of_the_terminal(
    rects: Seq<(PaneId, Rect)>,
    screens: Map<PaneId, &Screen>,
    scene: Scene,
    style: BorderStyle,
    selection: Option<MouseSelection>,
    info: StatusInfo,
    cols: u16,
    rows: u16,
)
    ensures
        same_shape(
            frame(rects, screens, scene, style, selection, info, cols, rows),
            clean(cols as int, rows as int),
        ),
{
    let base = clean(cols as int, rows as int);
    let panes = layout_drawn(base, rects, screens, scene, style);
    let plain = panes_drawn(base, rects, rects.len() as int, screens, scene, style);
    lemma_layout_shape(base, rects, rects.len() as int, screens, scene, style);
    lemma_divided_shape(plain, rects, rects.len() as int, scene.theme);
    assert(same_shape(panes, base)) by {
        assert forall|y: int| 0 <= y < panes.len() implies (#[trigger] panes[y]).len()
            == base[y].len() by {
            assert(plain[y].len() == base[y].len());
        }
    }
    let marked = selection_drawn(panes, rects, selection, style);
    assert(same_shape(marked, base)) by {
        assert forall|y: int| 0 <= y < marked.len() implies (#[trigger] marked[y]).len()
            == base[y].len() by {
            assert(panes[y].len() == base[y].len());
        }
    }
    if rows > 0 {
        let done = bar_drawn(marked, rows - 1, cols as int, info, scene.theme);
        crate::status_bar::law_the_bar_stays_on_its_row(
            marked,
            rows - 1,
            cols as int,
            info,
            scene.theme,
            0,
        );
        assert forall|y: int| 0 <= y < done.len() implies (#[trigger] done[y]).len()
            == base[y].len() by {
            crate::status_bar::law_the_bar_stays_on_its_row(
                marked,
                rows - 1,
                cols as int,
                info,
                scene.theme,
                y,
            );
            assert(marked[y].len() == base[y].len());
        }
    }
}

/// Composite a full screen from the layout, the pane screens, the borders and the
/// status bar. `area` is the rectangle available for panes; `total_cols` and
/// `total_rows` are the full terminal dimensions.
pub fn composite(
    layout: &LayoutNode,
    pane_screens: &HashMap<PaneId, &Screen>,
    area: Rect,
    border_style: &BorderStyle,
    status_info: &StatusInfo,
    total_cols: u16,
    total_rows: u16,
    gap_size: u16,
    focused_pane: PaneId,
    selection: Option<&MouseSelection>,
    scroll_offsets: &HashMap<PaneId, usize>,
    theme: &CompositorTheme,
) -> (r: (Vec<Vec<RenderCell>>, HitRegions))
    requires
        fits_screen(area),
        names_fit(layout@),
    ensures
        looks(r.0@) == frame(
            placed(layout@, area, gap_size),
            pane_screens@,
            (Scene {
                tree: layout@,
                focused: focused_pane,
                mode: status_info.mode@,
                scrolls: scroll_offsets@,
                theme: *theme,
            }),
            *border_style,
            deref_opt(selection),
            *status_info,
            total_cols,
            total_rows,
        ),
        r.1.stack_regions@ == all_regions(
            placed(layout@, area, gap_size),
            placed(layout@, area, gap_size).len() as int,
            pane_screens@,
            layout@,
            *border_style,
        ),
        r.1.tab_regions@ == (if total_rows == 0 {
            Seq::empty()
        } else {
            tab_regions(
                status_info.tabs@,
                tabs_start(
                    status_info.mode@,
                    status_info.session_name@,
                    total_cols as int,
                    total_cols as int,
                ),
                total_rows - 1,
                *theme,
            )
        }),
{
    let mut buffer = blank_grid(total_cols, total_rows);
    let mut hit_regions = HitRegions::default();
    let rects = compute_layout(layout, area, gap_size);
    let ghost base = clean(total_cols as int, total_rows as int);
    let ghost scene = Scene {
        tree: layout@,
        focused: focused_pane,
        mode: status_info.mode@,
        scrolls: scroll_offsets@,
        theme: *theme,
    };
    proof {
        lemma_rects_fit(layout@, area, gap_size);
        lemma_layout_shape(
            base,
            rects@,
            rects@.len() as int,
            pane_screens@,
            scene,
            *border_style,
        );
    }
    match border_style {
        BorderStyle::ZellijStyle => draw_zellij_panes(
            &mut buffer,
            &rects,
            pane_screens,
            layout,
            focused_pane,
            &status_info.mode,
            &mut hit_regions,
            scroll_offsets,
            theme,
        ),
        BorderStyle::TmuxStyle => draw_tmux_panes(
            &mut buffer,
            &rects,
            pane_screens,
            layout,
            focused_pane,
            &status_info.mode,
            &mut hit_regions,
            scroll_offsets,
            theme,
        ),
    }
    let ghost plain = panes_drawn(
        base,
        rects@,
        rects@.len() as int,
        pane_screens@,
        scene,
        *border_style,
    );
    let ghost panes = looks(buffer@);
    match selection {
        Some(sel) => {
            match crate::hit::rect_of_pane(&rects, None, sel.pane_id) {
                Some(rect) => {
                    apply_selection_highlight(&mut buffer, sel, &rect, border_style);
                },
                None => {},
            }
        },
        None => {},
    }
    let ghost marked = looks(buffer@);
    proof {
        lemma_divided_shape(plain, rects@, rects@.len() as int, *theme);
        assert(same_shape(panes, base)) by {
            assert forall|y: int| 0 <= y < panes.len() implies (#[trigger] panes[y]).len()
                == base[y].len() by {
                assert(plain[y].len() == base[y].len());
            }
        }
        assert(marked == selection_drawn(panes, rects@, deref_opt(selection), *border_style));
        assert(marked.len() == base.len());
        if total_rows > 0 {
            assert(panes[total_rows - 1].len() == base[total_rows - 1].len());
            assert(marked[total_rows - 1].len() == total_cols);
        }
    }
    draw_status_bar(
        &mut buffer,
        total_cols,
        total_rows,
        status_info,
        &mut hit_regions,
        theme,
    );
    assert(hit_regions.stack_regions@ =~= all_regions(
        rects@,
        rects@.len() as int,
        pane_screens@,
        layout@,
        *border_style,
    ));
    (buffer, hit_regions)
}

// ---------------------------------------------------------------------------
// The popup
// ---------------------------------------------------------------------------

/// The stack of one pane under the given title.
pub open spec fn titled(title: Seq<char>, id: PaneId) -> Option<StackView> {
    Some(StackView { names: seq![title], ids: seq![id], active: 0 })
}

/// The grid with a popup on top: its area cleared, its screen, and the frame of a
/// focused pane around it.
pub open spec fn popup_drawn(
    g: Seq<Seq<Look>>,
    rect: Rect,
    id: PaneId,
    screen: Screen,
    title: Seq<char>,
    mode: Seq<char>,
    offset: usize,
    selection: Option<MouseSelection>,
    theme: CompositorTheme,
) -> Seq<Seq<Look>> {
    if rect.width == 0 || rect.height == 0 {
        g
    } else {
        let cleared = drawn(
            g,
            area(
                rect.x as int,
                smaller(rect.x + rect.width, u16::MAX as int),
                rect.y as int,
                smaller(rect.y + rect.height, u16::MAX as int),
                blank(),
            ),
        );
        let inner = content_rect(BorderStyle::ZellijStyle, rect, false);
        let filled = drawn(cleared, screen_paint(screen, inner, offset));
        if !roomy(rect.width, rect.height) {
            filled
        } else {
            let framed = border_drawn(
                filled,
                rect,
                frame_color(theme, true),
                titled(title, id),
                mode,
                theme,
            );
            match selection {
                Some(sel) => if sel.pane_id == id {
                    highlighted(framed, selected(sel, rect, BorderStyle::ZellijStyle))
                } else {
                    framed
                },
                None => framed,
            }
        }
    }
}

/// Draw a popup terminal on top of an already-composited frame and return its
/// content rectangle. No pane moves; the popup only paints over.
pub fn draw_popup(
    buffer: &mut Vec<Vec<RenderCell>>,
    rect: Rect,
    pane_id: PaneId,
    screen: &Screen,
    title: &str,
    mode: &str,
    scroll_offset: usize,
    selection: Option<&MouseSelection>,
    theme: &CompositorTheme,
) -> (r: Rect)
    requires
        roomy(rect.width, rect.height) ==> rect.x < u16::MAX && rect.y < u16::MAX,
    ensures
        r == content_rect(BorderStyle::ZellijStyle, rect, false),
        looks(final(buffer)@) == popup_drawn(
            looks(old(buffer)@),
            rect,
            pane_id,
            *screen,
            title@,
            mode@,
            scroll_offset,
            deref_opt(selection),
            *theme,
        ),
{
    if rect.width == 0 || rect.height == 0 {
        return rect;
    }
    let fg = border_fg(theme, true);
    let empty = RenderCell::default();
    fill(
        buffer,
        rect.x as usize,
        rect.x.saturating_add(rect.width) as usize,
        rect.y as usize,
        rect.y.saturating_add(rect.height) as usize,
        &empty,
    );
    let interior = pane_content_rect(&BorderStyle::ZellijStyle, rect, false);
    blit_screen(buffer, screen, interior, scroll_offset);
    if !fits_zellij_border(rect.width, rect.height) {
        return interior;
    }
    let mut names: Vec<String> = Vec::new();
    names.push(title.to_owned());
    let mut ids: Vec<PaneId> = Vec::new();
    ids.push(pane_id);
    let stack_info: Option<(Vec<String>, Vec<PaneId>, usize)> = Some((names, ids, 0usize));
    assert(stack_view(stack_info)->0.names =~= titled(title@, pane_id)->0.names);
    assert(stack_view(stack_info)->0.ids =~= titled(title@, pane_id)->0.ids);
    draw_zellij_border(buffer, rect, &fg, &stack_info, pane_id, mode, theme);
    match selection {
        Some(sel) => {
            if sel.pane_id == pane_id {
                apply_selection_highlight(buffer, sel, &rect, &BorderStyle::ZellijStyle);
            }
        },
        None => {},
    }
    interior
}

/// The frame of a popup is the frame of a focused pane: on the edge of its
/// rectangle both show the same cells, where the grid has them.
pub proof fn law_a_popup_wears_a_panes_frame(
    g: Seq<Seq<Look>>,
    h: Seq<Seq<Look>>,
    rect: Rect,
    id: PaneId,
    screen: Screen,
    title: Seq<char>,
    mode: Seq<char>,
    offset: usize,
    theme: CompositorTheme,
    x: int,
    y: int,
)
    requires
        roomy(rect.width, rect.height),
        fits_screen(rect),
        crate::boxes::box_glyph(rect, x, y) is Some,
        0 <= y < g.len() && 0 <= x < g[y].len(),
        0 <= y < h.len() && 0 <= x < h[y].len(),
    ensures
        popup_drawn(g, rect, id, screen, title, mode, offset, None, theme)[y][x] == border_drawn(
            h,
            rect,
            frame_color(theme, true),
            titled(title, id),
            mode,
            theme,
        )[y][x],
{
}

/// A popup is drawn over the frame: the frame keeps its rows and columns.
pub proof fn law_a_popup_keeps_the_shape_of_the_frame(
    g: Seq<Seq<Look>>,
    rect: Rect,
    id: PaneId,
    screen: Screen,
    title: Seq<char>,
    mode: Seq<char>,
    offset: usize,
    selection: Option<MouseSelection>,
    theme: CompositorTheme,
)
    ensures
        same_shape(popup_drawn(g, rect, id, screen, title, mode, offset, selection, theme), g),
{
}

} // verus!
