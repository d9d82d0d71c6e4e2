//! The views that all clients share: what a client can ask for, and what clients are told.

use crate::client::ClientView;
use crate::clients::Clients;
use crate::layout::{FocusDirection, LayoutNode, PaneId, Rect, Tree};
use crate::layout_modes::LayoutMode;
use crate::tab::opt_tree;
use vstd::prelude::*;

verus! {

/// One cell of a view: a pane of some connection.
#[derive(Debug)]
pub struct ViewCell {
    pub id: u64,
    pub conn: String,
    pub pane_id: PaneId,
}

/// A view: panes of any sessions, arranged on one screen.
#[derive(Debug)]
pub struct SharedView {
    pub id: u64,
    pub name: String,
    pub cells: Vec<ViewCell>,
    pub layout: LayoutMode,
    pub custom_tree: Option<LayoutNode>,
    /// The cell that has the focus.
    pub focused: Option<u64>,
    pub zoomed: bool,
}

/// A cell as a mathematical value.
pub struct CellInfo {
    pub id: u64,
    pub conn: Seq<char>,
    pub pane_id: PaneId,
}

impl View for ViewCell {
    type V = CellInfo;

    open spec fn view(&self) -> CellInfo {
        CellInfo { id: self.id, conn: self.conn@, pane_id: self.pane_id }
    }
}

/// A view as a mathematical value.
#[verifier::ext_equal]
pub struct ViewInfo {
    pub id: u64,
    pub name: Seq<char>,
    pub cells: Seq<CellInfo>,
    pub layout: LayoutMode,
    pub custom_tree: Option<Tree>,
    pub focused: Option<u64>,
    pub zoomed: bool,
}

impl View for SharedView {
    type V = ViewInfo;

    open spec fn view(&self) -> ViewInfo {
        ViewInfo {
            id: self.id,
            name: self.name@,
            cells: Seq::new(self.cells@.len(), |i: int| self.cells@[i]@),
            layout: self.layout,
            custom_tree: opt_tree(self.custom_tree),
            focused: self.focused,
            zoomed: self.zoomed,
        }
    }
}

/// The views of a list.
pub open spec fn view_infos(v: Seq<SharedView>) -> Seq<ViewInfo> {
    Seq::new(v.len(), |i: int| v[i]@)
}

fn copy_cells(cells: &Vec<ViewCell>) -> (r: Vec<ViewCell>)
    ensures
        r@.len() == cells@.len(),
        forall|k: int| 0 <= k < r@.len() ==> (#[trigger] r@[k])@ == cells@[k]@,
{
    let mut out: Vec<ViewCell> = Vec::new();
    let mut i: usize = 0;
    while i < cells.len()
        invariant
            i <= cells.len(),
            out.len() == i,
            forall|k: int| 0 <= k < i ==> (#[trigger] out@[k])@ == cells@[k]@,
        decreases cells.len() - i,
    {
        out.push(
            ViewCell {
                id: cells[i].id,
                conn: cells[i].conn.clone(),
                pane_id: cells[i].pane_id,
            },
        );
        i += 1;
    }
    out
}

impl SharedView {
    /// A copy of the view.
    pub fn duplicate(&self) -> (r: SharedView)
        ensures
            r@ == self@,
    {
        let r = SharedView {
            id: self.id,
            name: self.name.clone(),
            cells: copy_cells(&self.cells),
            layout: self.layout,
            custom_tree: match &self.custom_tree {
                Some(t) => Some(t.duplicate()),
                None => None,
            },
            focused: self.focused,
            zoomed: self.zoomed,
        };
        assert(r@ =~= self@);
        r
    }
}

/// What every client is told of the views: all of them, in order, with everything that is
/// needed to draw them.
pub fn build_view_list_message(views: &Vec<SharedView>) -> (r: Vec<SharedView>)
    ensures
        view_infos(r@) == view_infos(views@),
{
    let mut out: Vec<SharedView> = Vec::new();
    let mut i: usize = 0;
    while i < views.len()
        invariant
            i <= views.len(),
            out.len() == i,
            forall|k: int| 0 <= k < i ==> (#[trigger] out@[k])@ == views@[k]@,
        decreases views.len() - i,
    {
        out.push(views[i].duplicate());
        i += 1;
    }
    assert(view_infos(out@) =~= view_infos(views@));
    out
}

// ---------------------------------------------------------------------------
// Changes
// ---------------------------------------------------------------------------

/// A cell that is to be added to a view.
#[derive(Debug)]
pub struct NewCell {
    pub conn: String,
    pub pane_id: PaneId,
}

/// A change to the views.
#[derive(Debug)]
pub enum ViewChange {
    Create { name: String },
    Delete { id: u64 },
    Rename { id: u64, name: String },
    AddCells { id: u64, cells: Vec<NewCell> },
    RemoveCell { id: u64, cell_id: u64 },
    SetFocus { id: u64, cell_id: u64 },
    CycleLayout { id: u64 },
    ToggleZoom { id: u64 },
    SetMaster { id: u64 },
    ResizeCell { id: u64, cell_id: u64, dir: FocusDirection, amount: u16 },
    /// `area` is the one that the neighbours of the cell are looked for in.
    MoveCell { id: u64, cell_id: u64, dir: FocusDirection, area: Rect },
}

/// A change as a mathematical value.
#[verifier::ext_equal]
pub enum ViewChangeView {
    Create { name: Seq<char> },
    Delete { id: u64 },
    Rename { id: u64, name: Seq<char> },
    AddCells { id: u64, cells: Seq<(Seq<char>, PaneId)> },
    RemoveCell { id: u64, cell_id: u64 },
    SetFocus { id: u64, cell_id: u64 },
    CycleLayout { id: u64 },
    ToggleZoom { id: u64 },
    SetMaster { id: u64 },
    ResizeCell { id: u64, cell_id: u64, dir: FocusDirection, amount: u16 },
    MoveCell { id: u64, cell_id: u64, dir: FocusDirection, area: Rect },
}

/// The cells of a list.
pub open spec fn new_cells(cells: Seq<NewCell>) -> Seq<(Seq<char>, PaneId)> {
    Seq::new(cells.len(), |i: int| (cells[i].conn@, cells[i].pane_id))
}

impl View for ViewChange {
    type V = ViewChangeView;

    open spec fn view(&self) -> ViewChangeView {
        match *self {
            ViewChange::Create { name } => ViewChangeView::Create { name: name@ },
            ViewChange::Delete { id } => ViewChangeView::Delete { id },
            ViewChange::Rename { id, name } => ViewChangeView::Rename { id, name: name@ },
            ViewChange::AddCells { id, cells } => ViewChangeView::AddCells {
                id,
                cells: new_cells(cells@),
            },
            ViewChange::RemoveCell { id, cell_id } => ViewChangeView::RemoveCell { id, cell_id },
            ViewChange::SetFocus { id, cell_id } => ViewChangeView::SetFocus { id, cell_id },
            ViewChange::CycleLayout { id } => ViewChangeView::CycleLayout { id },
            ViewChange::ToggleZoom { id } => ViewChangeView::ToggleZoom { id },
            ViewChange::SetMaster { id } => ViewChangeView::SetMaster { id },
            ViewChange::ResizeCell { id, cell_id, dir, amount } => ViewChangeView::ResizeCell {
                id,
                cell_id,
                dir,
                amount,
            },
            ViewChange::MoveCell { id, cell_id, dir, area } => ViewChangeView::MoveCell {
                id,
                cell_id,
                dir,
                area,
            },
        }
    }
}

/// A message about the views.
#[derive(Debug)]
pub enum ViewMessage {
    /// The view that the client asked for was made.
    ViewCreated { id: u64 },
    ViewList { views: Vec<SharedView> },
}

/// A message as a mathematical value.
#[verifier::ext_equal]
pub enum ViewMessageView {
    ViewCreated { id: u64 },
    ViewList { views: Seq<ViewInfo> },
}

impl View for ViewMessage {
    type V = ViewMessageView;

    open spec fn view(&self) -> ViewMessageView {
        match *self {
            ViewMessage::ViewCreated { id } => ViewMessageView::ViewCreated { id },
            ViewMessage::ViewList { views } => ViewMessageView::ViewList {
                views: view_infos(views@),
            },
        }
    }
}

/// A client is connected.
pub open spec fn connected(clients: Seq<(u64, ClientView)>, id: u64) -> bool {
    exists|k: int| 0 <= k < clients.len() && (#[trigger] clients[k]).0 == id
}

/// Who is told what once the views have changed. The client that made a view is told its
/// id; then all clients are sent all views.
pub open spec fn view_news(
    clients: Seq<(u64, ClientView)>,
    requester: u64,
    created: Option<u64>,
    views: Seq<ViewInfo>,
) -> Seq<(u64, ViewMessageView)> {
    let list = Seq::new(
        clients.len(),
        |i: int| (clients[i].0, ViewMessageView::ViewList { views }),
    );
    match created {
        Some(id) if connected(clients, requester) => seq![
            (requester, ViewMessageView::ViewCreated { id }),
        ] + list,
        _ => list,
    }
}

/// The messages of a list.
pub open spec fn news_views(r: Seq<(u64, ViewMessage)>) -> Seq<(u64, ViewMessageView)> {
    Seq::new(r.len(), |i: int| (r[i].0, r[i].1@))
}

/// Tell the clients of a change to the views. `created` is the id of the view that
/// `requester` asked for, if it asked for one.
pub fn broadcast_view_list(
    clients: &Clients,
    requester: u64,
    created: Option<u64>,
    views: &Vec<SharedView>,
) -> (r: Vec<(u64, ViewMessage)>)
    ensures
        news_views(r@) == view_news(clients@, requester, created, view_infos(views@)),
{
    let mut out: Vec<(u64, ViewMessage)> = Vec::new();
    match created {
        Some(id) => match clients.find(requester) {
            Some(k) => {
                assert(clients@[k as int].0 == requester);
                out.push((requester, ViewMessage::ViewCreated { id }));
            },
            None => {},
        },
        None => {},
    }
    let ghost acks = news_views(out@);
    let ghost infos = view_infos(views@);
    let mut i: usize = 0;
    while i < clients.entries.len()
        invariant
            i <= clients.entries.len(),
            infos == view_infos(views@),
            news_views(out@) == acks + Seq::new(
                i as nat,
                |j: int| (clients@[j].0, ViewMessageView::ViewList { views: infos }),
            ),
        decreases clients.entries.len() - i,
    {
        let ghost before = out@;
        out.push(
            (
                clients.entries[i].0,
                ViewMessage::ViewList { views: build_view_list_message(views) },
            ),
        );
        assert(clients@[i as int].0 == clients.entries@[i as int].0);
        assert(news_views(out@) =~= news_views(before).push(
            (clients@[i as int].0, ViewMessageView::ViewList { views: infos }),
        ));
        assert(news_views(out@) =~= acks + Seq::new(
            (i + 1) as nat,
            |j: int| (clients@[j].0, ViewMessageView::ViewList { views: infos }),
        ));
        i += 1;
    }
    assert(news_views(out@) =~= view_news(clients@, requester, created, infos));
    out
}

/// Everybody sees the same views: each client is sent all of them, and only the one that
/// made a view is told its id, before anything else.
pub proof fn law_everybody_sees_the_same_views(
    clients: Seq<(u64, ClientView)>,
    requester: u64,
    created: Option<u64>,
    views: Seq<ViewInfo>,
    k: int,
)
    requires
        0 <= k < clients.len(),
    ensures
        view_news(clients, requester, created, views).contains(
            (clients[k].0, ViewMessageView::ViewList { views }),
        ),
        forall|i: int|
            0 <= i < view_news(clients, requester, created, views).len() && (
            #[trigger] view_news(clients, requester, created, views)[i]).1 is ViewCreated ==> i == 0
                && view_news(clients, requester, created, views)[i].0 == requester,
        created is Some && clients[k].0 == requester ==> view_news(
            clients,
            requester,
            created,
            views,
        )[0] == (requester, ViewMessageView::ViewCreated { id: created->0 }),
{
    let news = view_news(clients, requester, created, views);
    let at = k + news.len() - clients.len();
    assert(news[at] == (clients[k].0, ViewMessageView::ViewList { views }));
}

} // verus!
