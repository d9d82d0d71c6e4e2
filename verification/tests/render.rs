//! Changes between frames.

use remux::protocol::RenderCell;
use remux::render::compute_diff;

#[test]
fn compute_diff_emits_wide_lead_when_only_continuation_differs() {
    let lead = RenderCell {
        c: '中',
        width: 2,
        ..RenderCell::default()
    };
    let continuation = RenderCell {
        c: ' ',
        width: 0,
        ..RenderCell::default()
    };
    let narrow_a = RenderCell {
        c: 'a',
        ..RenderCell::default()
    };

    // Lead unchanged; only the continuation column differs (it used to hold a
    // narrow char, now it is the wide glyph's continuation). The client skips
    // width-0 changes, so the diff must ALSO re-emit the unchanged lead to
    // repaint the whole glyph and cover the continuation column.
    let prev = vec![vec![lead.clone(), narrow_a.clone()]];
    let curr = vec![vec![lead.clone(), continuation.clone()]];

    let changes = compute_diff(&prev, &curr);
    assert_eq!(changes.len(), 2);
    assert_eq!(changes[0].x, 0);
    assert_eq!(changes[0].cell.width, 2);
    assert_eq!(changes[1].x, 1);
    assert_eq!(changes[1].cell.width, 0);

    // When the lead itself also changed, it is emitted once (at x=0) and not
    // duplicated by the continuation handling at x=1.
    let prev2 = vec![vec![narrow_a.clone(), narrow_a.clone()]];
    let curr2 = vec![vec![lead.clone(), continuation.clone()]];
    let changes2 = compute_diff(&prev2, &curr2);
    assert_eq!(changes2.len(), 2);
    assert_eq!(changes2[0].x, 0);
    assert_eq!(changes2[1].x, 1);
}

#[test]
fn compute_diff_emits_cell_when_only_combining_differs() {
    // A base glyph gaining a combining mark differs only in `combining`.
    // `RenderCell` derives `PartialEq` over all fields, so the diff must
    // detect and emit the changed cell.
    let base = RenderCell {
        c: 'e',
        ..RenderCell::default()
    };
    let accented = RenderCell {
        c: 'e',
        combining: vec!['\u{301}'],
        ..RenderCell::default()
    };

    let prev = vec![vec![base.clone()]];
    let curr = vec![vec![accented.clone()]];
    let changes = compute_diff(&prev, &curr);
    assert_eq!(changes.len(), 1);
    assert_eq!(changes[0].x, 0);
    assert_eq!(changes[0].cell.combining, vec!['\u{301}']);

    // Losing the mark is likewise detected.
    let changes_back = compute_diff(&curr, &prev);
    assert_eq!(changes_back.len(), 1);
    assert!(changes_back[0].cell.combining.is_empty());
}
