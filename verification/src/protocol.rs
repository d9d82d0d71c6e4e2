//! What a client is sent: cells, changed cells and rectangles.

use vstd::prelude::*;

verus! {

/// A color of a rendered cell.
#[derive(Clone, Copy, Debug, PartialEq, Eq, Structural)]
pub enum CellColor {
    Default,
    Indexed(u8),
    Rgb(u8, u8, u8),
}

/// One cell of a rendered screen.
#[derive(Debug)]
pub struct RenderCell {
    pub c: char,
    pub fg: CellColor,
    pub bg: CellColor,
    pub bold: bool,
    pub italic: bool,
    pub underline: bool,
    /// Target of the hyperlink that the cell belongs to.
    pub hyperlink: Option<String>,
    /// Columns that the glyph takes; `0` for the cell behind a wide glyph.
    pub width: u8,
    /// Combining marks drawn over the glyph.
    pub combining: Vec<char>,
}

/// A rendered cell as a mathematical value.
#[verifier::ext_equal]
pub struct Look {
    pub c: char,
    pub fg: CellColor,
    pub bg: CellColor,
    pub bold: bool,
    pub italic: bool,
    pub underline: bool,
    pub hyperlink: Option<Seq<char>>,
    pub width: u8,
    pub combining: Seq<char>,
}

impl View for RenderCell {
    type V = Look;

    open spec fn view(&self) -> Look {
        Look {
            c: self.c,
            fg: self.fg,
            bg: self.bg,
            bold: self.bold,
            italic: self.italic,
            underline: self.underline,
            hyperlink: match self.hyperlink {
                Some(s) => Some(s@),
                None => None,
            },
            width: self.width,
            combining: self.combining@,
        }
    }
}

/// An upright glyph of one column in the given colors.
pub open spec fn glyph(c: char, fg: CellColor, bg: CellColor, bold: bool) -> Look {
    Look {
        c,
        fg,
        bg,
        bold,
        italic: false,
        underline: false,
        hyperlink: None,
        width: 1,
        combining: Seq::empty(),
    }
}

/// The look of a cell that nothing was drawn on.
pub open spec fn blank() -> Look {
    glyph(' ', CellColor::Default, CellColor::Default, false)
}

impl RenderCell {
    /// An upright cell of one column.
    pub fn styled(c: char, fg: CellColor, bg: CellColor, bold: bool) -> (r: RenderCell)
        ensures
            r@ == glyph(c, fg, bg, bold),
    {
        RenderCell {
            c,
            fg,
            bg,
            bold,
            italic: false,
            underline: false,
            hyperlink: None,
            width: 1,
            combining: Vec::new(),
        }
    }

    /// Whether two cells look the same.
    pub fn same(&self, other: &RenderCell) -> (r: bool)
        ensures
            r == (self@ == other@),
    {
        let links = match (&self.hyperlink, &other.hyperlink) {
            (Some(a), Some(b)) => *a == *b,
            (None, None) => true,
            _ => false,
        };
        let marks = same_chars(&self.combining, &other.combining);
        assert(links == (self@.hyperlink == other@.hyperlink));
        self.c == other.c && self.fg == other.fg && self.bg == other.bg && self.bold == other.bold
            && self.italic == other.italic && self.underline == other.underline && links
            && self.width == other.width && marks
    }
}

impl Default for RenderCell {
    fn default() -> (r: Self)
        ensures
            r@ == blank(),
    {
        RenderCell::styled(' ', CellColor::Default, CellColor::Default, false)
    }
}

impl Clone for RenderCell {
    fn clone(&self) -> (r: Self)
        ensures
            r@ == self@,
    {
        RenderCell {
            c: self.c,
            fg: self.fg,
            bg: self.bg,
            bold: self.bold,
            italic: self.italic,
            underline: self.underline,
            hyperlink: match &self.hyperlink {
                Some(s) => Some(s.clone()),
                None => None,
            },
            width: self.width,
            combining: copy_chars(&self.combining),
        }
    }
}

impl PartialEq for RenderCell {
    fn eq(&self, other: &Self) -> (r: bool) {
        self.same(other)
    }
}

impl vstd::std_specs::cmp::PartialEqSpecImpl for RenderCell {
    open spec fn obeys_eq_spec() -> bool {
        true
    }

    open spec fn eq_spec(&self, other: &Self) -> bool {
        self@ == other@
    }
}

/// A copy of a list of characters.
pub fn copy_chars(v: &Vec<char>) -> (r: Vec<char>)
    ensures
        r@ == v@,
{
    let mut r: Vec<char> = Vec::new();
    let mut i: usize = 0;
    while i < v.len()
        invariant
            i <= v.len(),
            r@ == v@.take(i as int),
        decreases v.len() - i,
    {
        r.push(v[i]);
        i += 1;
        assert(r@ =~= v@.take(i as int));
    }
    assert(v@.take(i as int) =~= v@);
    r
}

/// Whether two lists hold the same characters.
pub fn same_chars(a: &Vec<char>, b: &Vec<char>) -> (r: bool)
    ensures
        r == (a@ == b@),
{
    if a.len() != b.len() {
        return false;
    }
    let mut i: usize = 0;
    while i < a.len()
        invariant
            i <= a.len(),
            a.len() == b.len(),
            forall|j: int| 0 <= j < i ==> a@[j] == b@[j],
        decreases a.len() - i,
    {
        if a[i] != b[i] {
            return false;
        }
        i += 1;
    }
    assert(a@ =~= b@);
    true
}

/// One changed cell of a frame.
#[derive(Debug)]
pub struct CellChange {
    pub x: u16,
    pub y: u16,
    pub cell: RenderCell,
}

/// The content area of the focused pane, as reported to a client.
#[derive(Clone, Copy, Debug, PartialEq, Eq, Structural)]
pub struct PaneRect {
    pub x: u16,
    pub y: u16,
    pub width: u16,
    pub height: u16,
}

} // verus!
