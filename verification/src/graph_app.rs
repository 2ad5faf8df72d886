//! The knowledge graph's interactive app, apart from its drawing: three
//! tabs (the node list, a node's note, and the whole graph drawn), the
//! dialogs for naming a node, linking it and deleting it, and the note
//! editor, with how each key press, click and wheel notch moves them.
//!
//! Every structural change asks for the graph to be saved at once; the
//! caller saves it and reports back with [`GraphApp::saved`], so quitting can
//! never lose structural changes.

use crate::editor::{clamp_to, inserted, join_lines, split_lines, views_of, Editor};
use crate::hit::{covers, on_screen, Rect};
use crate::knowledge_graph::{edge_of, toggled, Graph, Node};
use crate::text::{trimmed, with_char, without_char};
use crate::tui::{Key, Mods};
use vstd::prelude::*;

verus! {

broadcast use vstd::seq_lib::group_seq_properties;

/// The tab with the node list.
pub const GRAPH_TAB: usize = 0;

/// The tab with the selected node's note.
pub const NODE_TAB: usize = 1;

/// The tab with the whole graph drawn.
pub const VIZ_TAB: usize = 2;

/// How many tabs there are.
pub const TAB_COUNT: usize = 3;

/// A node as values.
#[verifier::ext_equal]
pub struct NodeView {
    pub id: u64,
    pub title: Seq<char>,
    pub markdown: Seq<char>,
}

/// A node as values.
pub open spec fn node_view(node: Node) -> NodeView {
    NodeView { id: node.id, title: node.title@, markdown: node.markdown@ }
}

/// Nodes as values.
pub open spec fn nodes_view(nodes: Seq<Node>) -> Seq<NodeView> {
    nodes.map_values(|node: Node| node_view(node))
}

/// A graph as values.
#[verifier::ext_equal]
pub struct GraphModel {
    pub next_id: u64,
    pub nodes: Seq<NodeView>,
    pub edges: Seq<(u64, u64)>,
}

/// A graph as values.
pub open spec fn graph_view(graph: &Graph) -> GraphModel {
    GraphModel { next_id: graph.next_id, nodes: nodes_view(graph.nodes@), edges: graph.edges@ }
}

/// The ids of nodes, in order.
pub open spec fn node_ids(nodes: Seq<NodeView>) -> Seq<u64> {
    nodes.map_values(|node: NodeView| node.id)
}

/// `graph` with a node titled `title` and an empty note under a fresh id.
pub open spec fn with_node(graph: GraphModel, title: Seq<char>) -> GraphModel {
    GraphModel {
        next_id: (graph.next_id + 1) as u64,
        nodes: graph.nodes.push(NodeView { id: graph.next_id, title, markdown: Seq::empty() }),
        edges: graph.edges,
    }
}

/// Keeps the node values whose id is not `id`.
pub open spec fn view_kept(id: u64) -> spec_fn(NodeView) -> bool {
    |node: NodeView| node.id != id
}

/// `graph` without node `id` and every edge touching it.
pub open spec fn without_node(graph: GraphModel, id: u64) -> GraphModel {
    GraphModel {
        next_id: graph.next_id,
        nodes: graph.nodes.filter(view_kept(id)),
        edges: graph.edges.filter(crate::knowledge_graph::edge_kept(id)),
    }
}

/// `graph` with the first node `id` titled `title`, if there is one.
pub open spec fn renamed(graph: GraphModel, id: u64, title: Seq<char>) -> GraphModel {
    match node_ids(graph.nodes).index_of_first(id) {
        Some(i) => GraphModel {
            nodes: graph.nodes.update(i, NodeView { title, ..graph.nodes[i] }),
            ..graph
        },
        None => graph,
    }
}

/// `graph` with the link between `a` and `b` toggled; a node is never linked
/// to itself.
pub open spec fn relinked(graph: GraphModel, a: u64, b: u64) -> GraphModel {
    if a == b {
        graph
    } else {
        GraphModel { edges: toggled(graph.edges, edge_of(a, b)), ..graph }
    }
}

/// The note editor as values.
#[verifier::ext_equal]
pub struct EditorModel {
    pub lines: Seq<Seq<char>>,
    pub row: int,
    pub col: int,
    pub scroll: int,
}

/// The note editor as values.
pub open spec fn editor_view(editor: &Editor) -> EditorModel {
    EditorModel {
        lines: editor.line_views(),
        row: editor.row as int,
        col: editor.col as int,
        scroll: editor.scroll as int,
    }
}

/// What key presses mean: browsing the tabs, or one of the dialogs, or the
/// note editor.
pub enum Mode {
    Browse,
    /// Add (`editing: None`) or rename (`Some(id)`) a node.
    TitleForm { editing: Option<u64>, value: String, cursor: usize },
    /// Pick another node and toggle the link to it; stays open so several
    /// links can be toggled in one visit.
    LinkPicker { others: Vec<u64>, selected: Option<usize> },
    ConfirmDelete { id: u64 },
    EditBody { editor: Editor },
}

/// A mode as values.
#[verifier::ext_equal]
pub enum ModeView {
    Browse,
    TitleForm { editing: Option<u64>, value: Seq<char>, cursor: int },
    LinkPicker { others: Seq<u64>, selected: Option<usize> },
    ConfirmDelete { id: u64 },
    EditBody { editor: EditorModel },
}

/// A mode as values.
pub open spec fn mode_view(mode: &Mode) -> ModeView {
    match mode {
        Mode::Browse => ModeView::Browse,
        Mode::TitleForm { editing, value, cursor } => ModeView::TitleForm {
            editing: *editing,
            value: value@,
            cursor: *cursor as int,
        },
        Mode::LinkPicker { others, selected } => ModeView::LinkPicker { others: others@, selected: *selected },
        Mode::ConfirmDelete { id } => ModeView::ConfirmDelete { id: *id },
        Mode::EditBody { editor } => ModeView::EditBody { editor: editor_view(editor) },
    }
}

/// The app.
pub struct GraphApp {
    pub graph: Graph,
    pub tab: usize,
    /// Selected node, shared by all tabs; it may point past the list until
    /// the next change clamps it.
    pub selected: Option<usize>,
    /// Scroll offset of the node tab's read view.
    pub body_scroll: u16,
    pub mode: Mode,
    /// Whether the drawn graph's layout has to be worked out again.
    pub layout_stale: bool,
    /// Seed of the drawn graph's layout; `r` re-seeds it.
    pub layout_seed: u64,
    /// One-shot message for the status line, and whether it is an error.
    pub status: Option<(String, bool)>,
    /// Whether the graph has to be saved, and if so whether a failure to save
    /// is what the status line should show.
    pub save: Option<bool>,
    pub quit: bool,
}

/// The app as values.
#[verifier::ext_equal]
pub struct AppModel {
    pub graph: GraphModel,
    pub tab: int,
    pub selected: Option<usize>,
    pub body_scroll: u16,
    pub mode: ModeView,
    pub layout_stale: bool,
    pub layout_seed: u64,
    pub status: Option<(Seq<char>, bool)>,
    pub save: Option<bool>,
    pub quit: bool,
}

impl View for GraphApp {
    type V = AppModel;

    open spec fn view(&self) -> AppModel {
        AppModel {
            graph: graph_view(&self.graph),
            tab: self.tab as int,
            selected: self.selected,
            body_scroll: self.body_scroll,
            mode: mode_view(&self.mode),
            layout_stale: self.layout_stale,
            layout_seed: self.layout_seed,
            status: match self.status {
                Some((text, error)) => Some((text@, error)),
                None => None,
            },
            save: self.save,
            quit: self.quit,
        }
    }
}

/// Filtering commutes with taking the values of nodes.
proof fn lemma_filter_nodes(nodes: Seq<Node>, id: u64)
    ensures
        nodes_view(nodes.filter(crate::knowledge_graph::node_kept(id))) == nodes_view(nodes).filter(view_kept(id)),
    decreases nodes.len(),
{
    let keep = crate::knowledge_graph::node_kept(id);
    let keep_view = view_kept(id);
    if nodes.len() == 0 {
        assert(nodes.filter(keep) =~= Seq::<Node>::empty());
        assert(nodes_view(nodes).filter(keep_view) =~= Seq::<NodeView>::empty());
        assert(nodes_view(nodes.filter(keep)) =~= nodes_view(nodes).filter(keep_view));
    } else {
        let front = nodes.drop_last();
        let last = nodes.last();
        lemma_filter_nodes(front, id);
        assert(nodes =~= front.push(last));
        front.lemma_filter_push(last, keep);
        assert(nodes_view(nodes) =~= nodes_view(front).push(node_view(last)));
        nodes_view(front).lemma_filter_push(node_view(last), keep_view);
        if keep(last) {
            assert(nodes_view(front.filter(keep).push(last)) =~= nodes_view(front.filter(keep)).push(
                node_view(last),
            ));
        }
    }
}

/// The ids of node values are the ids of the nodes.
proof fn lemma_node_ids(nodes: Seq<Node>)
    ensures
        node_ids(nodes_view(nodes)) == crate::knowledge_graph::ids_of(nodes),
{
    assert(node_ids(nodes_view(nodes)) =~= crate::knowledge_graph::ids_of(nodes));
}

/// The selected node's place in the list, when it points at one.
pub open spec fn sel_index(m: AppModel) -> Option<int> {
    match m.selected {
        Some(i) => if i < m.graph.nodes.len() {
            Some(i as int)
        } else {
            None
        },
        None => None,
    }
}

/// The selected node's id, when the selection points at one.
pub open spec fn sel_id(m: AppModel) -> Option<u64> {
    match sel_index(m) {
        Some(i) => Some(m.graph.nodes[i].id),
        None => None,
    }
}

/// The selection moved `delta` places within the list, the note scrolled
/// back to its top; nothing moves in an empty list.
pub open spec fn moved(m: AppModel, delta: int) -> AppModel {
    let len = m.graph.nodes.len() as int;
    if len == 0 {
        m
    } else {
        let current: int = match m.selected {
            Some(i) => i as int,
            None => 0,
        };
        let target = current + delta;
        let next = if target < 0 {
            0
        } else if target > len - 1 {
            len - 1
        } else {
            target
        };
        AppModel { selected: Some(next as usize), body_scroll: 0, ..m }
    }
}

/// The selection kept inside the list: none in an empty list, else the
/// last node at most.
pub open spec fn clamped_selection(m: AppModel) -> AppModel {
    let len = m.graph.nodes.len() as int;
    if len == 0 {
        AppModel { selected: None, ..m }
    } else {
        let current: int = match m.selected {
            Some(i) => i as int,
            None => 0,
        };
        AppModel { selected: Some((if current < len - 1 {
            current
        } else {
            len - 1
        }) as usize), ..m }
    }
}

/// After a structural change: the layout is worked out again, the graph is
/// saved (a failure showing in the status line), and the selection is
/// clamped.
pub open spec fn mutated(m: AppModel) -> AppModel {
    clamped_selection(AppModel { layout_stale: true, save: Some(true), ..m })
}

/// `m` with a status message; a failure to save no longer shows over it.
pub open spec fn with_status(m: AppModel, text: Seq<char>, error: bool) -> AppModel {
    AppModel {
        status: Some((text, error)),
        save: match m.save {
            Some(_) => Some(false),
            None => None,
        },
        ..m
    }
}

/// Keeps the ids other than `id`.
pub open spec fn not_id(id: u64) -> spec_fn(u64) -> bool {
    |other: u64| other != id
}

/// The ids of every node but `id`, in order.
pub open spec fn others_of(m: AppModel, id: u64) -> Seq<u64> {
    node_ids(m.graph.nodes).filter(not_id(id))
}

/// The link picker opened for the selected node; with no other node to link
/// to, a message says so instead.
pub open spec fn picker_opened(m: AppModel) -> AppModel {
    match sel_id(m) {
        None => m,
        Some(id) => if others_of(m, id).len() == 0 {
            with_status(m, "Add another node before linking."@, true)
        } else {
            AppModel { mode: ModeView::LinkPicker { others: others_of(m, id), selected: Some(0) }, ..m }
        },
    }
}

/// The note editor opened on the selected node's note.
pub open spec fn editor_started(m: AppModel) -> AppModel {
    match sel_index(m) {
        None => m,
        Some(i) => AppModel {
            mode: ModeView::EditBody {
                editor: EditorModel { lines: split_lines(m.graph.nodes[i].markdown), row: 0, col: 0, scroll: 0 },
            },
            ..m
        },
    }
}

/// An open editor's text written back to the selected node, and the graph
/// saved.
pub open spec fn editor_committed(m: AppModel) -> AppModel {
    match m.mode {
        ModeView::EditBody { editor } => {
            let text = join_lines(editor.lines);
            let nodes = match sel_index(m) {
                Some(i) => m.graph.nodes.update(i, NodeView { markdown: text, ..m.graph.nodes[i] }),
                None => m.graph.nodes,
            };
            AppModel { graph: GraphModel { nodes, ..m.graph }, save: Some(true), ..m }
        },
        _ => m,
    }
}

/// A key on the node list.
pub open spec fn graph_key(m: AppModel, key: Key) -> AppModel {
    match key {
        Key::Up => moved(m, -1),
        Key::Down => moved(m, 1),
        Key::Enter => if sel_id(m) is Some {
            AppModel { tab: NODE_TAB as int, ..m }
        } else {
            m
        },
        Key::Char(c) => if c == 'k' {
            moved(m, -1)
        } else if c == 'j' {
            moved(m, 1)
        } else if c == 'a' {
            AppModel { mode: ModeView::TitleForm { editing: None, value: Seq::empty(), cursor: 0 }, ..m }
        } else if c == 'r' {
            match sel_index(m) {
                Some(i) => AppModel {
                    mode: ModeView::TitleForm {
                        editing: Some(m.graph.nodes[i].id),
                        value: m.graph.nodes[i].title,
                        cursor: m.graph.nodes[i].title.len() as int,
                    },
                    ..m
                },
                None => m,
            }
        } else if c == 'd' {
            match sel_id(m) {
                Some(id) => AppModel { mode: ModeView::ConfirmDelete { id }, ..m },
                None => m,
            }
        } else if c == 'l' {
            picker_opened(m)
        } else if c == 'e' && sel_id(m) is Some {
            AppModel { tab: NODE_TAB as int, ..editor_started(m) }
        } else {
            m
        },
        _ => m,
    }
}

/// The note's read view scrolled one row up or down.
pub open spec fn body_scrolled(m: AppModel, up: bool) -> AppModel {
    if up {
        AppModel { body_scroll: (if m.body_scroll > 0 {
            m.body_scroll - 1
        } else {
            0
        }) as u16, ..m }
    } else {
        AppModel { body_scroll: (if m.body_scroll < u16::MAX {
            m.body_scroll + 1
        } else {
            u16::MAX as int
        }) as u16, ..m }
    }
}

/// A key on the note's read view.
pub open spec fn node_key(m: AppModel, key: Key) -> AppModel {
    match key {
        Key::Up => body_scrolled(m, true),
        Key::Down => body_scrolled(m, false),
        Key::Enter => editor_started(m),
        Key::Char(c) => if c == 'k' {
            body_scrolled(m, true)
        } else if c == 'j' {
            body_scrolled(m, false)
        } else if c == 'e' || c == 'i' {
            editor_started(m)
        } else if c == 'l' {
            picker_opened(m)
        } else {
            m
        },
        _ => m,
    }
}

/// A key on the drawn graph.
pub open spec fn viz_key(m: AppModel, key: Key) -> AppModel {
    match key {
        Key::Up | Key::Left => moved(m, -1),
        Key::Down | Key::Right => moved(m, 1),
        Key::Enter => if sel_id(m) is Some {
            AppModel { tab: NODE_TAB as int, ..m }
        } else {
            m
        },
        Key::Char(c) => if c == 'k' {
            moved(m, -1)
        } else if c == 'j' {
            moved(m, 1)
        } else if c == 'r' {
            AppModel { layout_seed: (if m.layout_seed < u64::MAX {
                m.layout_seed + 1
            } else {
                0
            }) as u64, layout_stale: true, ..m }
        } else {
            m
        },
        _ => m,
    }
}

/// A key while browsing: `q` quits, Esc walks back to the node list and then
/// quits, Tab and the digits switch tabs, and the rest belongs to the tab.
pub open spec fn browse_key(m: AppModel, key: Key) -> AppModel {
    match key {
        Key::Esc => if m.tab == GRAPH_TAB {
            AppModel { quit: true, ..m }
        } else {
            AppModel { tab: GRAPH_TAB as int, ..m }
        },
        Key::Tab => AppModel { tab: (m.tab + 1) % (TAB_COUNT as int), ..m },
        Key::BackTab => AppModel { tab: (m.tab + TAB_COUNT - 1) % (TAB_COUNT as int), ..m },
        Key::Char('q') => AppModel { quit: true, ..m },
        Key::Char('1') => AppModel { tab: GRAPH_TAB as int, ..m },
        Key::Char('2') => AppModel { tab: NODE_TAB as int, ..m },
        Key::Char('3') => AppModel { tab: VIZ_TAB as int, ..m },
        _ => if m.tab == GRAPH_TAB {
            graph_key(m, key)
        } else if m.tab == NODE_TAB {
            node_key(m, key)
        } else {
            viz_key(m, key)
        },
    }
}

/// The dialogs and the editor as the app keeps them: a cursor inside its
/// text, a picker with a node to pick, an editor cursor on a line.
pub open spec fn app_ok(m: AppModel) -> bool {
    &&& 0 <= m.tab < TAB_COUNT
    &&& match m.mode {
        ModeView::TitleForm { value, cursor, .. } => 0 <= cursor <= value.len(),
        ModeView::LinkPicker { others, selected } => others.len() >= 1 && (selected matches Some(i) ==> i
            < others.len()),
        ModeView::EditBody { editor } => editor.lines.len() >= 1 && 0 <= editor.row < editor.lines.len() && 0
            <= editor.col <= editor.lines[editor.row].len(),
        _ => true,
    }
}

/// The most a note's lines, or a title, may hold.
pub const MAX_TEXT: usize = 0x4000_0000;

/// Room left for whatever a key may add: a fresh node id, a character of a
/// title, a line or a character of a note.
pub open spec fn has_room(m: AppModel) -> bool {
    &&& m.graph.next_id < u64::MAX
    &&& match m.mode {
        ModeView::TitleForm { value, .. } => value.len() < MAX_TEXT,
        ModeView::EditBody { editor } => editor.lines.len() < MAX_TEXT && forall|i: int|
            0 <= i < editor.lines.len() ==> #[trigger] editor.lines[i].len() < MAX_TEXT,
        _ => true,
    }
}

/// `c` typed at the editor's cursor.
pub open spec fn typed(e: EditorModel, c: char) -> EditorModel {
    EditorModel {
        lines: e.lines.update(e.row, inserted(e.lines[e.row], clamp_to(e.lines[e.row], e.col), c)),
        col: e.col + 1,
        ..e
    }
}

/// The editor's line split at the cursor, the cursor at the start of the
/// new line below.
pub open spec fn split_at_cursor(e: EditorModel) -> EditorModel {
    let at = clamp_to(e.lines[e.row], e.col);
    EditorModel {
        lines: e.lines.update(e.row, e.lines[e.row].take(at)).insert(e.row + 1, e.lines[e.row].skip(at)),
        row: e.row + 1,
        col: 0,
        ..e
    }
}

/// The character before the cursor deleted, or the line joined onto the one
/// above when the cursor is at its start.
pub open spec fn backspaced(e: EditorModel) -> EditorModel {
    if e.col > 0 {
        EditorModel { lines: e.lines.update(e.row, e.lines[e.row].remove(e.col - 1)), col: e.col - 1, ..e }
    } else if e.row > 0 {
        EditorModel {
            lines: e.lines.remove(e.row).update(e.row - 1, e.lines[e.row - 1] + e.lines[e.row]),
            row: e.row - 1,
            col: e.lines[e.row - 1].len() as int,
            ..e
        }
    } else {
        e
    }
}

/// The character under the cursor deleted, or the next line joined onto
/// this one when the cursor is at its end.
pub open spec fn deleted(e: EditorModel) -> EditorModel {
    if e.col < e.lines[e.row].len() {
        EditorModel { lines: e.lines.update(e.row, e.lines[e.row].remove(e.col)), ..e }
    } else if e.row + 1 < e.lines.len() {
        EditorModel { lines: e.lines.remove(e.row + 1).update(e.row, e.lines[e.row] + e.lines[e.row + 1]), ..e }
    } else {
        e
    }
}

/// The cursor moved `delta` lines within the note, keeping its column where
/// the new line allows.
pub open spec fn moved_vertically(e: EditorModel, delta: int) -> EditorModel {
    let last = e.lines.len() - 1;
    let target = e.row + delta;
    let row = if target < 0 {
        0
    } else if target > last {
        last
    } else {
        target
    };
    EditorModel {
        row,
        col: if e.col < e.lines[row].len() {
            e.col
        } else {
            e.lines[row].len() as int
        },
        ..e
    }
}

/// What a key does to the note being edited.
pub open spec fn editor_step(e: EditorModel, key: Key, mods: Mods) -> EditorModel {
    match key {
        Key::Enter => split_at_cursor(e),
        Key::Backspace => backspaced(e),
        Key::Delete => deleted(e),
        Key::Up => moved_vertically(e, -1),
        Key::Down => moved_vertically(e, 1),
        Key::PageUp => moved_vertically(e, -10),
        Key::PageDown => moved_vertically(e, 10),
        Key::Left => if e.col > 0 {
            EditorModel { col: e.col - 1, ..e }
        } else if e.row > 0 {
            EditorModel { row: e.row - 1, col: e.lines[e.row - 1].len() as int, ..e }
        } else {
            e
        },
        Key::Right => if e.col < e.lines[e.row].len() {
            EditorModel { col: e.col + 1, ..e }
        } else if e.row + 1 < e.lines.len() {
            EditorModel { row: e.row + 1, col: 0, ..e }
        } else {
            e
        },
        Key::Home => EditorModel { col: 0, ..e },
        Key::End => EditorModel { col: e.lines[e.row].len() as int, ..e },
        Key::Tab => typed(typed(e, ' '), ' '),
        Key::Char(c) => if !mods.ctrl {
            typed(e, c)
        } else {
            e
        },
        _ => e,
    }
}

/// A key while the note editor is open: Ctrl-S saves, Esc saves and
/// closes, the rest edits.
pub open spec fn editor_key(m: AppModel, key: Key, mods: Mods) -> AppModel {
    if mods.ctrl && key == Key::Char('s') {
        with_status(editor_committed(m), "Saved note."@, false)
    } else if key == Key::Esc {
        with_status(AppModel { mode: ModeView::Browse, ..editor_committed(m) }, "Saved note."@, false)
    } else {
        match m.mode {
            ModeView::EditBody { editor } => AppModel {
                mode: ModeView::EditBody { editor: editor_step(editor, key, mods) },
                ..m
            },
            _ => m,
        }
    }
}

/// A key while naming a node: Enter adds or renames it (a blank title is
/// refused), Esc cancels, and the rest edits the title.
pub open spec fn title_key(m: AppModel, key: Key, mods: Mods) -> AppModel {
    match m.mode {
        ModeView::TitleForm { editing, value, cursor } => match key {
            Key::Esc => AppModel { mode: ModeView::Browse, ..m },
            Key::Enter => {
                let title = trimmed(value);
                if title.len() == 0 {
                    with_status(m, "Title is required."@, true)
                } else {
                    let named = match editing {
                        Some(id) => with_status(
                            AppModel { graph: renamed(m.graph, id, title), ..m },
                            "Renamed node."@,
                            false,
                        ),
                        None => with_status(
                            AppModel {
                                graph: with_node(m.graph, title),
                                selected: Some(m.graph.nodes.len() as usize),
                                ..m
                            },
                            "Added node."@,
                            false,
                        ),
                    };
                    mutated(AppModel { mode: ModeView::Browse, ..named })
                }
            },
            Key::Left => AppModel {
                mode: ModeView::TitleForm { editing, value, cursor: if cursor > 0 {
                    cursor - 1
                } else {
                    0
                } },
                ..m
            },
            Key::Right => AppModel {
                mode: ModeView::TitleForm { editing, value, cursor: if cursor + 1 < value.len() {
                    cursor + 1
                } else {
                    value.len() as int
                } },
                ..m
            },
            Key::Home => AppModel { mode: ModeView::TitleForm { editing, value, cursor: 0 }, ..m },
            Key::End => AppModel { mode: ModeView::TitleForm { editing, value, cursor: value.len() as int }, ..m },
            Key::Backspace => if cursor > 0 {
                AppModel {
                    mode: ModeView::TitleForm { editing, value: value.remove(cursor - 1), cursor: cursor - 1 },
                    ..m
                }
            } else {
                m
            },
            Key::Char(c) => if !mods.ctrl {
                AppModel {
                    mode: ModeView::TitleForm { editing, value: inserted(value, cursor, c), cursor: cursor + 1 },
                    ..m
                }
            } else {
                m
            },
            _ => m,
        },
        _ => m,
    }
}

/// The link between the selected node and the picker's highlighted row
/// toggled, and the graph saved.
pub open spec fn picker_toggled(m: AppModel) -> AppModel {
    match sel_id(m) {
        None => m,
        Some(id) => match m.mode {
            ModeView::LinkPicker { others, selected } => match selected {
                Some(i) => if i < others.len() {
                    let other = others[i as int];
                    let linked = id != other && !m.graph.edges.contains(edge_of(id, other));
                    with_status(
                        mutated(AppModel { graph: relinked(m.graph, id, other), ..m }),
                        if linked {
                            "Linked."@
                        } else {
                            "Unlinked."@
                        },
                        false,
                    )
                } else {
                    m
                },
                None => m,
            },
            _ => m,
        },
    }
}

/// The picker's highlight moved `delta` rows, within its rows.
pub open spec fn picker_moved(m: AppModel, delta: int) -> AppModel {
    match m.mode {
        ModeView::LinkPicker { others, selected } => {
            let current: int = match selected {
                Some(i) => i as int,
                None => 0,
            };
            let target = current + delta;
            let next = if target < 0 {
                0
            } else if target > others.len() - 1 {
                others.len() - 1
            } else {
                target
            };
            AppModel { mode: ModeView::LinkPicker { others, selected: Some(next as usize) }, ..m }
        },
        _ => m,
    }
}

/// A key while the link picker is open.
pub open spec fn picker_key(m: AppModel, key: Key) -> AppModel {
    if sel_id(m) is None {
        AppModel { mode: ModeView::Browse, ..m }
    } else {
        match key {
            Key::Esc => AppModel { mode: ModeView::Browse, ..m },
            Key::Up => picker_moved(m, -1),
            Key::Down => picker_moved(m, 1),
            Key::Enter => picker_toggled(m),
            Key::Char(c) => if c == 'q' || c == 'l' {
                AppModel { mode: ModeView::Browse, ..m }
            } else if c == 'k' {
                picker_moved(m, -1)
            } else if c == 'j' {
                picker_moved(m, 1)
            } else if c == ' ' {
                picker_toggled(m)
            } else {
                m
            },
            _ => m,
        }
    }
}

/// A key while a deletion waits for confirmation.
pub open spec fn confirm_key(m: AppModel, key: Key) -> AppModel {
    match m.mode {
        ModeView::ConfirmDelete { id } => match key {
            Key::Char(c) => if c == 'y' || c == 'Y' {
                with_status(
                    mutated(AppModel { graph: without_node(m.graph, id), mode: ModeView::Browse, ..m }),
                    "Deleted node."@,
                    false,
                )
            } else if c == 'n' || c == 'N' {
                AppModel { mode: ModeView::Browse, ..m }
            } else {
                m
            },
            Key::Esc => AppModel { mode: ModeView::Browse, ..m },
            _ => m,
        },
        _ => m,
    }
}

/// What a key press does: Ctrl-C saves an open note and quits; any other key
/// dismisses the status message and goes to whatever has the keyboard.
pub open spec fn key_step(m: AppModel, key: Key, mods: Mods) -> AppModel {
    if mods.ctrl && key == Key::Char('c') {
        AppModel { quit: true, ..editor_committed(m) }
    } else {
        let m0 = AppModel { status: None, ..m };
        match m0.mode {
            ModeView::Browse => browse_key(m0, key),
            ModeView::TitleForm { .. } => title_key(m0, key, mods),
            ModeView::LinkPicker { .. } => picker_key(m0, key),
            ModeView::ConfirmDelete { .. } => confirm_key(m0, key),
            ModeView::EditBody { .. } => editor_key(m0, key, mods),
        }
    }
}

impl GraphApp {
    /// The selected node's place in the list, when it points at one.
    pub fn selected_index(&self) -> (index: Option<usize>)
        ensures
            match index {
                Some(i) => sel_index(self@) == Some(i as int),
                None => sel_index(self@) is None,
            },
    {
        match self.selected {
            Some(i) => if i < self.graph.nodes.len() {
                Some(i)
            } else {
                None
            },
            None => None,
        }
    }

    /// The selected node's id, when the selection points at one.
    pub fn selected_id(&self) -> (id: Option<u64>)
        ensures
            id == sel_id(self@),
    {
        match self.selected_index() {
            Some(i) => Some(self.graph.nodes[i].id),
            None => None,
        }
    }

    /// Moves the selection one place back or on.
    fn move_selection(&mut self, back: bool)
        ensures
            final(self)@ == moved(old(self)@, if back {
                -1
            } else {
                1
            }),
    {
        let len = self.graph.nodes.len();
        if len == 0 {
            return;
        }
        let current = match self.selected {
            Some(i) => i,
            None => 0,
        };
        let next = if back {
            if current == 0 {
                0
            } else if current - 1 > len - 1 {
                len - 1
            } else {
                current - 1
            }
        } else {
            if current >= len - 1 {
                len - 1
            } else {
                current + 1
            }
        };
        self.selected = Some(next);
        self.body_scroll = 0;
        assert(self@ =~= moved(old(self)@, if back {
            -1
        } else {
            1
        }));
    }

    /// Keeps the selection inside the list.
    fn clamp_selection(&mut self)
        ensures
            final(self)@ == clamped_selection(old(self)@),
    {
        let len = self.graph.nodes.len();
        if len == 0 {
            self.selected = None;
        } else {
            let current = match self.selected {
                Some(i) => i,
                None => 0,
            };
            self.selected = Some(if current < len - 1 {
                current
            } else {
                len - 1
            });
        }
        assert(self@ =~= clamped_selection(old(self)@));
    }

    /// After a structural change: the layout is worked out again, the graph
    /// saved, and the selection clamped.
    fn after_mutation(&mut self)
        ensures
            final(self)@ == mutated(old(self)@),
    {
        self.layout_stale = true;
        self.save = Some(true);
        self.clamp_selection();
    }

    /// Shows a message in the status line.
    fn set_status(&mut self, text: &str, error: bool)
        ensures
            final(self)@ == with_status(old(self)@, text@, error),
    {
        self.status = Some((String::from_str(text), error));
        if self.save.is_some() {
            self.save = Some(false);
        }
        assert(self@ =~= with_status(old(self)@, text@, error));
    }

    /// The ids of every node but `id`, in order.
    fn others(&self, id: u64) -> (others: Vec<u64>)
        ensures
            others@ == others_of(self@, id),
    {
        let ghost ids = node_ids(self@.graph.nodes);
        let ghost keep = not_id(id);
        let mut others: Vec<u64> = Vec::new();
        let mut i: usize = 0;
        assert(ids.take(0).filter(keep) =~= Seq::<u64>::empty());
        while i < self.graph.nodes.len()
            invariant
                ids == node_ids(self@.graph.nodes),
                keep == not_id(id),
                i <= ids.len(),
                others@ == ids.take(i as int).filter(keep),
            decreases self.graph.nodes.len() - i,
        {
            let other = self.graph.nodes[i].id;
            proof {
                assert(ids[i as int] == other);
                assert(ids.take(i + 1) =~= ids.take(i as int).push(other));
                ids.take(i as int).lemma_filter_push(other, keep);
            }
            if other != id {
                others.push(other);
            }
            i = i + 1;
        }
        assert(ids.take(i as int) =~= ids);
        others
    }

    /// Opens the link picker for the selected node.
    fn open_link_picker(&mut self)
        ensures
            final(self)@ == picker_opened(old(self)@),
    {
        let id = match self.selected_id() {
            Some(id) => id,
            None => return,
        };
        let others = self.others(id);
        if others.len() == 0 {
            self.set_status("Add another node before linking.", true);
            return;
        }
        self.mode = Mode::LinkPicker { others, selected: Some(0) };
        assert(self@ =~= picker_opened(old(self)@));
    }

    /// Opens the note editor on the selected node's note.
    fn start_editor(&mut self)
        ensures
            final(self)@ == editor_started(old(self)@),
    {
        let index = match self.selected_index() {
            Some(i) => i,
            None => return,
        };
        let editor = Editor::from_text(self.graph.nodes[index].markdown.as_str());
        self.mode = Mode::EditBody { editor };
        assert(self@ =~= editor_started(old(self)@));
    }

    /// Writes an open editor's text back to the selected node and asks for
    /// the graph to be saved.
    fn commit_editor(&mut self)
        ensures
            final(self)@ == editor_committed(old(self)@),
    {
        let text = match &self.mode {
            Mode::EditBody { editor } => editor.text(),
            _ => return,
        };
        match self.selected_index() {
            Some(index) => {
                let ghost before = self.graph.nodes@;
                let mut node = self.graph.nodes.remove(index);
                node.markdown = text;
                self.graph.nodes.insert(index, node);
                assert(nodes_view(self.graph.nodes@) =~= nodes_view(before).update(
                    index as int,
                    NodeView { markdown: node.markdown@, ..nodes_view(before)[index as int] },
                ));
            },
            None => {},
        }
        self.save = Some(true);
        assert(self@ =~= editor_committed(old(self)@));
    }
}

impl GraphApp {
    /// A key on the node list.
    fn on_graph_key(&mut self, key: Key)
        ensures
            final(self)@ == graph_key(old(self)@, key),
    {
        match key {
            Key::Up => self.move_selection(true),
            Key::Down => self.move_selection(false),
            Key::Enter => {
                if self.selected_id().is_some() {
                    self.tab = NODE_TAB;
                }
            },
            Key::Char(c) => {
                if c == 'k' {
                    self.move_selection(true);
                } else if c == 'j' {
                    self.move_selection(false);
                } else if c == 'a' {
                    self.mode = Mode::TitleForm { editing: None, value: String::new(), cursor: 0 };
                    assert(self@ =~= graph_key(old(self)@, key));
                } else if c == 'r' {
                    match self.selected_index() {
                        Some(index) => {
                            let node = &self.graph.nodes[index];
                            let value = node.title.clone();
                            let cursor = node.title.as_str().unicode_len();
                            self.mode = Mode::TitleForm { editing: Some(node.id), value, cursor };
                            assert(self@ =~= graph_key(old(self)@, key));
                        },
                        None => {},
                    }
                } else if c == 'd' {
                    match self.selected_id() {
                        Some(id) => {
                            self.mode = Mode::ConfirmDelete { id };
                        },
                        None => {},
                    }
                } else if c == 'l' {
                    self.open_link_picker();
                } else if c == 'e' && self.selected_id().is_some() {
                    self.start_editor();
                    self.tab = NODE_TAB;
                }
            },
            _ => {},
        }
    }

    /// Scrolls the note's read view one row up or down.
    fn scroll_body(&mut self, up: bool)
        ensures
            final(self)@ == body_scrolled(old(self)@, up),
    {
        if up {
            self.body_scroll = if self.body_scroll > 0 {
                self.body_scroll - 1
            } else {
                0
            };
        } else {
            self.body_scroll = if self.body_scroll < u16::MAX {
                self.body_scroll + 1
            } else {
                u16::MAX
            };
        }
    }

    /// A key on the note's read view.
    fn on_node_key(&mut self, key: Key)
        ensures
            final(self)@ == node_key(old(self)@, key),
    {
        match key {
            Key::Up => self.scroll_body(true),
            Key::Down => self.scroll_body(false),
            Key::Enter => self.start_editor(),
            Key::Char(c) => {
                if c == 'k' {
                    self.scroll_body(true);
                } else if c == 'j' {
                    self.scroll_body(false);
                } else if c == 'e' || c == 'i' {
                    self.start_editor();
                } else if c == 'l' {
                    self.open_link_picker();
                }
            },
            _ => {},
        }
    }

    /// A key on the drawn graph.
    fn on_viz_key(&mut self, key: Key)
        ensures
            final(self)@ == viz_key(old(self)@, key),
    {
        match key {
            Key::Up | Key::Left => self.move_selection(true),
            Key::Down | Key::Right => self.move_selection(false),
            Key::Enter => {
                if self.selected_id().is_some() {
                    self.tab = NODE_TAB;
                }
            },
            Key::Char(c) => {
                if c == 'k' {
                    self.move_selection(true);
                } else if c == 'j' {
                    self.move_selection(false);
                } else if c == 'r' {
                    self.layout_seed = if self.layout_seed < u64::MAX {
                        self.layout_seed + 1
                    } else {
                        0
                    };
                    self.layout_stale = true;
                }
            },
            _ => {},
        }
    }

    /// A key while browsing the tabs.
    fn on_browse_key(&mut self, key: Key)
        requires
            old(self).tab < TAB_COUNT,
        ensures
            final(self)@ == browse_key(old(self)@, key),
    {
        match key {
            Key::Esc => {
                if self.tab == GRAPH_TAB {
                    self.quit = true;
                } else {
                    self.tab = GRAPH_TAB;
                }
            },
            Key::Tab => {
                self.tab = (self.tab + 1) % TAB_COUNT;
            },
            Key::BackTab => {
                self.tab = (self.tab + TAB_COUNT - 1) % TAB_COUNT;
            },
            Key::Char('q') => {
                self.quit = true;
            },
            Key::Char('1') => {
                self.tab = GRAPH_TAB;
            },
            Key::Char('2') => {
                self.tab = NODE_TAB;
            },
            Key::Char('3') => {
                self.tab = VIZ_TAB;
            },
            _ => {
                if self.tab == GRAPH_TAB {
                    self.on_graph_key(key);
                } else if self.tab == NODE_TAB {
                    self.on_node_key(key);
                } else {
                    self.on_viz_key(key);
                }
            },
        }
    }
}


impl GraphApp {
    /// Titles the first node `id` `title`, if there is one.
    fn rename(&mut self, id: u64, title: String)
        ensures
            final(self)@ == (AppModel { graph: renamed(old(self)@.graph, id, title@), ..old(self)@ }),
    {
        let ghost ids = crate::knowledge_graph::ids_of(self.graph.nodes@);
        proof {
            lemma_node_ids(self.graph.nodes@);
            ids.index_of_first_ensures(id);
        }
        match self.graph.node_index(id) {
            Some(index) => {
                proof {
                    let k = ids.index_of_first(id).unwrap();
                    if k < index {
                        assert(self.graph.nodes@[k].id != id);
                    }
                    if index < k {
                        assert(ids[index as int] == id);
                    }
                }
                let ghost before = self.graph.nodes@;
                let mut node = self.graph.nodes.remove(index);
                node.title = title;
                self.graph.nodes.insert(index, node);
                assert(nodes_view(self.graph.nodes@) =~= nodes_view(before).update(
                    index as int,
                    NodeView { title: node.title@, ..nodes_view(before)[index as int] },
                ));
                assert(self@ =~= (AppModel { graph: renamed(old(self)@.graph, id, title@), ..old(self)@ }));
            },
            None => {
                assert(self@ =~= (AppModel { graph: renamed(old(self)@.graph, id, title@), ..old(self)@ }));
            },
        }
    }

    /// A key while naming a node.
    fn on_title_key(&mut self, key: Key, mods: Mods)
        requires
            app_ok(old(self)@),
            has_room(old(self)@),
        ensures
            final(self)@ == title_key(old(self)@, key, mods),
    {
        let mut mode = Mode::Browse;
        std::mem::swap(&mut mode, &mut self.mode);
        let (editing, value, cursor) = match mode {
            Mode::TitleForm { editing, value, cursor } => (editing, value, cursor),
            other => {
                self.mode = other;
                return;
            },
        };
        let ghost m = old(self)@;
        match key {
            Key::Esc => {
                assert(self@ =~= title_key(m, key, mods));
            },
            Key::Enter => {
                let title = crate::text::trim(value.as_str());
                if title.as_str().unicode_len() == 0 {
                    self.mode = Mode::TitleForm { editing, value, cursor };
                    self.set_status("Title is required.", true);
                    return;
                }
                match editing {
                    Some(id) => {
                        self.rename(id, title);
                        self.set_status("Renamed node.", false);
                    },
                    None => {
                        let ghost before = self.graph.nodes@;
                        self.graph.add_node(title);
                        assert(nodes_view(self.graph.nodes@) =~= nodes_view(before).push(
                            node_view(self.graph.nodes@.last()),
                        ));
                        self.selected = Some(self.graph.nodes.len() - 1);
                        self.set_status("Added node.", false);
                    },
                }
                self.after_mutation();
            },
            Key::Left => {
                let next = if cursor > 0 {
                    cursor - 1
                } else {
                    0
                };
                self.mode = Mode::TitleForm { editing, value, cursor: next };
            },
            Key::Right => {
                let len = value.as_str().unicode_len();
                let next = if cursor + 1 < len {
                    cursor + 1
                } else {
                    len
                };
                self.mode = Mode::TitleForm { editing, value, cursor: next };
            },
            Key::Home => {
                self.mode = Mode::TitleForm { editing, value, cursor: 0 };
            },
            Key::End => {
                let len = value.as_str().unicode_len();
                self.mode = Mode::TitleForm { editing, value, cursor: len };
            },
            Key::Backspace => {
                if cursor > 0 {
                    let shorter = without_char(value.as_str(), cursor - 1);
                    self.mode = Mode::TitleForm { editing, value: shorter, cursor: cursor - 1 };
                } else {
                    self.mode = Mode::TitleForm { editing, value, cursor };
                }
            },
            Key::Char(c) => {
                if !mods.ctrl {
                    let longer = with_char(value.as_str(), cursor, c);
                    self.mode = Mode::TitleForm { editing, value: longer, cursor: cursor + 1 };
                } else {
                    self.mode = Mode::TitleForm { editing, value, cursor };
                }
            },
            _ => {
                self.mode = Mode::TitleForm { editing, value, cursor };
            },
        }
        assert(self@ =~= title_key(m, key, mods));
    }
}

impl GraphApp {
    /// Toggles the link between the selected node and the picker's
    /// highlighted row.
    fn toggle_picker_link(&mut self)
        ensures
            final(self)@ == picker_toggled(old(self)@),
    {
        let id = match self.selected_id() {
            Some(id) => id,
            None => return,
        };
        let other = match &self.mode {
            Mode::LinkPicker { others, selected } => match selected {
                Some(i) => {
                    if *i < others.len() {
                        others[*i]
                    } else {
                        return;
                    }
                },
                None => return,
            },
            _ => return,
        };
        let linked = self.graph.toggle_edge(id, other);
        assert(graph_view(&self.graph) =~= relinked(old(self)@.graph, id, other));
        self.after_mutation();
        if linked {
            self.set_status("Linked.", false);
        } else {
            self.set_status("Unlinked.", false);
        }
    }

    /// Moves the picker's highlight one row back or on.
    fn move_picker(&mut self, back: bool)
        requires
            app_ok(old(self)@),
        ensures
            final(self)@ == picker_moved(old(self)@, if back {
                -1
            } else {
                1
            }),
    {
        let mut mode = Mode::Browse;
        std::mem::swap(&mut mode, &mut self.mode);
        match mode {
            Mode::LinkPicker { others, selected } => {
                let current = match selected {
                    Some(i) => i,
                    None => 0,
                };
                let len = others.len();
                let next = if back {
                    if current == 0 {
                        0
                    } else if current - 1 > len - 1 {
                        len - 1
                    } else {
                        current - 1
                    }
                } else if current >= len - 1 {
                    len - 1
                } else {
                    current + 1
                };
                self.mode = Mode::LinkPicker { others, selected: Some(next) };
            },
            other => {
                self.mode = other;
            },
        }
        assert(self@ =~= picker_moved(old(self)@, if back {
            -1
        } else {
            1
        }));
    }

    /// A key while the link picker is open.
    fn on_picker_key(&mut self, key: Key)
        requires
            app_ok(old(self)@),
        ensures
            final(self)@ == picker_key(old(self)@, key),
    {
        if self.selected_id().is_none() {
            self.mode = Mode::Browse;
            return;
        }
        match key {
            Key::Esc => {
                self.mode = Mode::Browse;
            },
            Key::Up => self.move_picker(true),
            Key::Down => self.move_picker(false),
            Key::Enter => self.toggle_picker_link(),
            Key::Char(c) => {
                if c == 'q' || c == 'l' {
                    self.mode = Mode::Browse;
                } else if c == 'k' {
                    self.move_picker(true);
                } else if c == 'j' {
                    self.move_picker(false);
                } else if c == ' ' {
                    self.toggle_picker_link();
                }
            },
            _ => {},
        }
    }

    /// A key while a deletion waits for confirmation.
    fn on_confirm_key(&mut self, key: Key)
        ensures
            final(self)@ == confirm_key(old(self)@, key),
    {
        let id = match &self.mode {
            Mode::ConfirmDelete { id } => *id,
            _ => return,
        };
        match key {
            Key::Char(c) => {
                if c == 'y' || c == 'Y' {
                    let ghost before = self.graph.nodes@;
                    self.graph.remove_node(id);
                    proof {
                        lemma_filter_nodes(before, id);
                    }
                    self.mode = Mode::Browse;
                    assert(graph_view(&self.graph) =~= without_node(old(self)@.graph, id));
                    self.after_mutation();
                    self.set_status("Deleted node.", false);
                } else if c == 'n' || c == 'N' {
                    self.mode = Mode::Browse;
                }
            },
            Key::Esc => {
                self.mode = Mode::Browse;
            },
            _ => {},
        }
    }
}

/// What a key does to the note being edited.
fn edit(editor: &mut Editor, key: Key, mods: Mods)
    requires
        old(editor).lines@.len() >= 1,
        old(editor).row < old(editor).lines@.len(),
        old(editor).col <= old(editor).line_views()[old(editor).row as int].len(),
        old(editor).lines@.len() < MAX_TEXT,
        forall|i: int| 0 <= i < old(editor).lines@.len() ==> #[trigger] old(editor).line_views()[i].len() < MAX_TEXT,
    ensures
        editor_view(final(editor)) == editor_step(editor_view(old(editor)), key, mods),
{
    let ghost e = editor_view(editor);
    match key {
        Key::Enter => editor.insert_newline(),
        Key::Backspace => editor.backspace(),
        Key::Delete => editor.delete(),
        Key::Up => editor.move_vertical(-1),
        Key::Down => editor.move_vertical(1),
        Key::PageUp => editor.move_vertical(-10),
        Key::PageDown => editor.move_vertical(10),
        Key::Left => {
            if editor.col > 0 {
                editor.col = editor.col - 1;
            } else if editor.row > 0 {
                editor.row = editor.row - 1;
                editor.col = editor.line_len();
            }
        },
        Key::Right => {
            if editor.col < editor.line_len() {
                editor.col = editor.col + 1;
            } else if editor.row + 1 < editor.lines.len() {
                editor.row = editor.row + 1;
                editor.col = 0;
            }
        },
        Key::Home => {
            editor.col = 0;
        },
        Key::End => {
            editor.col = editor.line_len();
        },
        Key::Tab => {
            editor.insert_char(' ');
            assert(editor.line_views().len() == editor.lines@.len());
            editor.insert_char(' ');
        },
        Key::Char(c) => {
            if !mods.ctrl {
                editor.insert_char(c);
            }
        },
        _ => {},
    }
    assert(editor_view(editor) =~= editor_step(e, key, mods));
}

impl GraphApp {
    /// A key while the note editor is open.
    fn on_editor_key(&mut self, key: Key, mods: Mods)
        requires
            app_ok(old(self)@),
            has_room(old(self)@),
        ensures
            final(self)@ == editor_key(old(self)@, key, mods),
    {
        if mods.ctrl {
            match key {
                Key::Char('s') => {
                    self.commit_editor();
                    self.set_status("Saved note.", false);
                    return;
                },
                _ => {},
            }
        }
        match key {
            Key::Esc => {
                self.commit_editor();
                self.mode = Mode::Browse;
                self.set_status("Saved note.", false);
                return;
            },
            _ => {},
        }
        let mut mode = Mode::Browse;
        std::mem::swap(&mut mode, &mut self.mode);
        match mode {
            Mode::EditBody { editor } => {
                let mut editor = editor;
                edit(&mut editor, key, mods);
                self.mode = Mode::EditBody { editor };
            },
            other => {
                self.mode = other;
            },
        }
        assert(self@ =~= editor_key(old(self)@, key, mods));
    }

    /// Feeds one key press into the app.
    pub fn on_key(&mut self, key: Key, mods: Mods)
        requires
            app_ok(old(self)@),
            has_room(old(self)@),
        ensures
            final(self)@ == key_step(old(self)@, key, mods),
            app_ok(final(self)@),
    {
        proof {
            lemma_key_step_ok(old(self)@, key, mods);
        }
        if mods.ctrl {
            match key {
                Key::Char('c') => {
                    self.commit_editor();
                    self.quit = true;
                    return;
                },
                _ => {},
            }
        }
        self.status = None;
        assert(self@ =~= (AppModel { status: None, ..old(self)@ }));
        match self.mode {
            Mode::Browse => self.on_browse_key(key),
            Mode::TitleForm { .. } => self.on_title_key(key, mods),
            Mode::LinkPicker { .. } => self.on_picker_key(key),
            Mode::ConfirmDelete { .. } => self.on_confirm_key(key),
            Mode::EditBody { .. } => self.on_editor_key(key, mods),
        }
    }
}

/// Where the last frame drew what a click can land on: the tabs row (its
/// row and each tab's `[start, end)` columns), and the inside of the node
/// list and of the link picker with how far each list was scrolled.
pub struct HitAreas {
    pub tabs: Option<(u16, Vec<(u16, u16)>)>,
    pub node_list: Option<(Rect, usize)>,
    pub picker: Option<(Rect, usize)>,
}

/// The tab whose columns hold `col`, the first such.
pub open spec fn tab_at(ranges: Seq<(u16, u16)>, col: int) -> Option<int>
    decreases ranges.len(),
{
    if ranges.len() == 0 {
        None
    } else if ranges[0].0 <= col < ranges[0].1 {
        Some(0)
    } else {
        match tab_at(ranges.drop_first(), col) {
            Some(i) => Some(i + 1),
            None => None,
        }
    }
}

/// Whether the areas lie on the screen and name no more tabs than there
/// are.
pub open spec fn areas_ok(areas: &HitAreas) -> bool {
    &&& (areas.tabs matches Some((_, ranges)) ==> ranges@.len() <= TAB_COUNT)
    &&& (areas.node_list matches Some((rect, _)) ==> on_screen(rect))
    &&& (areas.picker matches Some((rect, _)) ==> on_screen(rect))
}

/// A click while the link picker is open: outside it closes the picker, on
/// a row it toggles that row's link.
pub open spec fn picker_clicked(m: AppModel, col: int, row: int, areas: &HitAreas) -> AppModel {
    match areas.picker {
        None => m,
        Some((rect, offset)) => if !covers(rect, col, row) {
            AppModel { mode: ModeView::Browse, ..m }
        } else {
            let index = offset + (row - rect.y);
            match m.mode {
                ModeView::LinkPicker { others, .. } => if index < others.len() {
                    picker_toggled(AppModel { mode: ModeView::LinkPicker { others, selected: Some(index as usize) }, ..m })
                } else {
                    m
                },
                _ => m,
            }
        },
    }
}

/// A click: on a tab it brings the tab up; on the node list it selects the
/// row; on the drawn graph it selects the node the drawing code found there
/// (`pick`). Dialogs other than the picker keep the keyboard's focus.
pub open spec fn clicked(m: AppModel, col: int, row: int, areas: &HitAreas, pick: Option<usize>) -> AppModel {
    match m.mode {
        ModeView::Browse => match areas.tabs {
            Some((y, ranges)) if row == y => match tab_at(ranges@, col) {
                Some(t) => AppModel { tab: t, ..m },
                None => m,
            },
            _ => if m.tab == GRAPH_TAB {
                match areas.node_list {
                    Some((rect, offset)) => if covers(rect, col, row) && offset + (row - rect.y)
                        < m.graph.nodes.len() {
                        AppModel { selected: Some((offset + (row - rect.y)) as usize), body_scroll: 0, ..m }
                    } else {
                        m
                    },
                    None => m,
                }
            } else if m.tab == VIZ_TAB {
                match pick {
                    Some(index) => AppModel { selected: Some(index), body_scroll: 0, ..m },
                    None => m,
                }
            } else {
                m
            },
        },
        ModeView::LinkPicker { .. } => picker_clicked(m, col, row, areas),
        _ => m,
    }
}

/// A wheel notch: it moves the picker's highlight, scrolls the note, or
/// moves the selection.
pub open spec fn scrolled(m: AppModel, delta: int) -> AppModel {
    match m.mode {
        ModeView::Browse => if m.tab == NODE_TAB {
            body_scrolled(m, delta < 0)
        } else {
            moved(m, delta)
        },
        ModeView::LinkPicker { .. } => picker_moved(m, delta),
        _ => m,
    }
}

/// What a mouse event does; a click dismisses the status message first.
pub open spec fn mouse_step(m: AppModel, event: crate::tui::MouseEv, areas: &HitAreas, pick: Option<usize>) -> AppModel {
    match event {
        crate::tui::MouseEv::Click { col, row } => clicked(AppModel { status: None, ..m }, col as int, row as int, areas, pick),
        crate::tui::MouseEv::ScrollUp => scrolled(m, -1),
        crate::tui::MouseEv::ScrollDown => scrolled(m, 1),
    }
}

/// The app once a save the last input asked for is done: a failure shows in
/// the status line unless a message was set after the save was asked for.
pub open spec fn after_save(m: AppModel, error: Option<Seq<char>>) -> AppModel {
    match (m.save, error) {
        (Some(true), Some(message)) => AppModel { status: Some((message, true)), save: None, ..m },
        _ => AppModel { save: None, ..m },
    }
}

/// The tab whose columns hold `col`.
fn find_tab(ranges: &Vec<(u16, u16)>, col: u16) -> (tab: Option<usize>)
    ensures
        match tab {
            Some(t) => tab_at(ranges@, col as int) == Some(t as int),
            None => tab_at(ranges@, col as int) is None,
        },
{
    let mut i: usize = 0;
    assert(ranges@.skip(0) =~= ranges@);
    while i < ranges.len()
        invariant
            i <= ranges@.len(),
            tab_at(ranges@, col as int) == match tab_at(ranges@.skip(i as int), col as int) {
                Some(k) => Some(k + i),
                None => None,
            },
        decreases ranges.len() - i,
    {
        let (start, end) = ranges[i];
        assert(ranges@.skip(i as int)[0] == (start, end));
        if start <= col && col < end {
            return Some(i);
        }
        assert(ranges@.skip(i as int).drop_first() =~= ranges@.skip(i + 1));
        i = i + 1;
    }
    None
}

impl GraphApp {
    /// The app on `graph`, on the node list with its first node selected.
    pub fn new(graph: Graph) -> (app: Self)
        ensures
            app@.graph == graph_view(&graph),
            app@.tab == GRAPH_TAB,
            app@.selected == (if graph.nodes@.len() > 0 {
                Some(0usize)
            } else {
                None
            }),
            app@.body_scroll == 0,
            app@.mode == ModeView::Browse,
            app@.layout_stale,
            app@.status is None,
            app@.save is None,
            !app@.quit,
            app_ok(app@),
    {
        let selected = if graph.nodes.len() > 0 {
            Some(0)
        } else {
            None
        };
        GraphApp {
            graph,
            tab: GRAPH_TAB,
            selected,
            body_scroll: 0,
            mode: Mode::Browse,
            layout_stale: true,
            layout_seed: 0x5EED,
            status: None,
            save: None,
            quit: false,
        }
    }

    /// Reports how the save the last input asked for went: `Some` holds the
    /// failure's message.
    pub fn saved(&mut self, error: Option<String>)
        ensures
            final(self)@ == after_save(old(self)@, match error {
                Some(message) => Some(message@),
                None => None,
            }),
    {
        match (self.save, error) {
            (Some(true), Some(message)) => {
                self.status = Some((message, true));
            },
            _ => {},
        }
        self.save = None;
        assert(self@ =~= after_save(old(self)@, match error {
            Some(message) => Some(message@),
            None => None,
        }));
    }

    /// A click on a row of the open link picker.
    fn on_picker_click(&mut self, col: u16, row: u16, areas: &HitAreas)
        requires
            areas_ok(areas),
        ensures
            final(self)@ == picker_clicked(old(self)@, col as int, row as int, areas),
    {
        let (rect, offset) = match &areas.picker {
            Some((rect, offset)) => (*rect, *offset),
            None => return,
        };
        if !rect.contains(col, row) {
            self.mode = Mode::Browse;
            return;
        }
        let index = offset as u128 + (row - rect.y) as u128;
        let count = match &self.mode {
            Mode::LinkPicker { others, .. } => others.len(),
            _ => return,
        };
        if index < count as u128 {
            let index = index as usize;
            let mut mode = Mode::Browse;
            std::mem::swap(&mut mode, &mut self.mode);
            match mode {
                Mode::LinkPicker { others, .. } => {
                    self.mode = Mode::LinkPicker { others, selected: Some(index) };
                },
                other => {
                    self.mode = other;
                },
            }
            self.toggle_picker_link();
        }
    }

    /// A click.
    fn on_click(&mut self, col: u16, row: u16, areas: &HitAreas, pick: Option<usize>)
        requires
            areas_ok(areas),
        ensures
            final(self)@ == clicked(old(self)@, col as int, row as int, areas, pick),
    {
        match self.mode {
            Mode::Browse => {},
            Mode::LinkPicker { .. } => {
                self.on_picker_click(col, row, areas);
                return;
            },
            _ => return,
        }
        match &areas.tabs {
            Some((y, ranges)) => {
                if row == *y {
                    match find_tab(ranges, col) {
                        Some(tab) => {
                            self.tab = tab;
                        },
                        None => {},
                    }
                    return;
                }
            },
            None => {},
        }
        if self.tab == GRAPH_TAB {
            match &areas.node_list {
                Some((rect, offset)) => {
                    if rect.contains(col, row) {
                        let index = *offset as u128 + (row - rect.y) as u128;
                        if index < self.graph.nodes.len() as u128 {
                            self.selected = Some(index as usize);
                            self.body_scroll = 0;
                        }
                    }
                },
                None => {},
            }
        } else if self.tab == VIZ_TAB {
            match pick {
                Some(index) => {
                    self.selected = Some(index);
                    self.body_scroll = 0;
                },
                None => {},
            }
        }
    }

    /// Feeds one mouse event into the app; `pick` is the node the drawing
    /// code found under a click on the drawn graph.
    pub fn on_mouse(&mut self, event: crate::tui::MouseEv, areas: &HitAreas, pick: Option<usize>)
        requires
            app_ok(old(self)@),
            areas_ok(areas),
        ensures
            final(self)@ == mouse_step(old(self)@, event, areas, pick),
            app_ok(final(self)@),
    {
        proof {
            lemma_mouse_step_ok(old(self)@, event, areas, pick);
        }
        match event {
            crate::tui::MouseEv::Click { col, row } => {
                self.status = None;
                assert(self@ =~= (AppModel { status: None, ..old(self)@ }));
                self.on_click(col, row, areas, pick);
            },
            crate::tui::MouseEv::ScrollUp => self.on_scroll(true),
            crate::tui::MouseEv::ScrollDown => self.on_scroll(false),
        }
    }

    /// A wheel notch up or down.
    fn on_scroll(&mut self, up: bool)
        requires
            app_ok(old(self)@),
        ensures
            final(self)@ == scrolled(old(self)@, if up {
                -1
            } else {
                1
            }),
    {
        match self.mode {
            Mode::Browse => {
                if self.tab == NODE_TAB {
                    self.scroll_body(up);
                } else {
                    self.move_selection(up);
                }
            },
            Mode::LinkPicker { .. } => self.move_picker(up),
            _ => {},
        }
    }

    /// The key hints for the footer.
    pub fn help_text(&self) -> (text: &'static str)
        ensures
            text@ == match self@.mode {
                ModeView::TitleForm { .. } => "enter save \u{b7} esc cancel"@,
                ModeView::LinkPicker { .. } => "\u{2191}/\u{2193} select \u{b7} enter/space toggle link \u{b7} esc close"@,
                ModeView::ConfirmDelete { .. } => "y delete \u{b7} n/esc cancel"@,
                ModeView::EditBody { .. } => "esc save & exit \u{b7} ctrl+s save \u{b7} arrows/home/end move"@,
                ModeView::Browse => if self@.tab == GRAPH_TAB {
                    "\u{2191}/\u{2193} select \u{b7} a add \u{b7} r rename \u{b7} l link \u{b7} d delete \u{b7} enter view \u{b7} e edit note \u{b7} tab switch \u{b7} q quit"@
                } else if self@.tab == NODE_TAB {
                    "\u{2191}/\u{2193} scroll \u{b7} e edit \u{b7} l link \u{b7} tab switch \u{b7} esc back \u{b7} q quit"@
                } else {
                    "\u{2191}/\u{2193} cycle node \u{b7} r shuffle layout \u{b7} enter view \u{b7} tab switch \u{b7} esc back \u{b7} q quit"@
                },
            },
    {
        match &self.mode {
            Mode::TitleForm { .. } => "enter save \u{b7} esc cancel",
            Mode::LinkPicker { .. } => "\u{2191}/\u{2193} select \u{b7} enter/space toggle link \u{b7} esc close",
            Mode::ConfirmDelete { .. } => "y delete \u{b7} n/esc cancel",
            Mode::EditBody { .. } => "esc save & exit \u{b7} ctrl+s save \u{b7} arrows/home/end move",
            Mode::Browse => {
                if self.tab == GRAPH_TAB {
                    "\u{2191}/\u{2193} select \u{b7} a add \u{b7} r rename \u{b7} l link \u{b7} d delete \u{b7} enter view \u{b7} e edit note \u{b7} tab switch \u{b7} q quit"
                } else if self.tab == NODE_TAB {
                    "\u{2191}/\u{2193} scroll \u{b7} e edit \u{b7} l link \u{b7} tab switch \u{b7} esc back \u{b7} q quit"
                } else {
                    "\u{2191}/\u{2193} cycle node \u{b7} r shuffle layout \u{b7} enter view \u{b7} tab switch \u{b7} esc back \u{b7} q quit"
                }
            },
        }
    }
}

/// The editor's cursor sits on one of its lines, within it.
pub open spec fn editor_ok(e: EditorModel) -> bool {
    e.lines.len() >= 1 && 0 <= e.row < e.lines.len() && 0 <= e.col <= e.lines[e.row].len()
}

/// Editing keeps the cursor on a line, within it.
proof fn lemma_editor_step_ok(e: EditorModel, key: Key, mods: Mods)
    requires
        editor_ok(e),
    ensures
        editor_ok(editor_step(e, key, mods)),
{
    let t = typed(e, ' ');
    assert(editor_ok(t));
}

/// A tab found among the ranges is one of them.
proof fn lemma_tab_at_bound(ranges: Seq<(u16, u16)>, col: int)
    ensures
        tab_at(ranges, col) matches Some(t) ==> 0 <= t < ranges.len(),
    decreases ranges.len(),
{
    if ranges.len() > 0 {
        lemma_tab_at_bound(ranges.drop_first(), col);
    }
}

/// Opening the editor or the picker, and every change of tab or selection,
/// leaves the app in a state it keeps.
proof fn lemma_openers_ok(m: AppModel)
    requires
        app_ok(m),
    ensures
        app_ok(editor_started(m)),
        app_ok(picker_opened(m)),
        app_ok(editor_committed(m)),
{
    if let Some(i) = sel_index(m) {
        crate::editor::lemma_split_lines_nonempty(m.graph.nodes[i].markdown);
    }
}

/// Every key press leaves the app in a state it keeps: a tab in front, the
/// cursors inside their texts, the picker's highlight on one of its rows.
pub proof fn lemma_key_step_ok(m: AppModel, key: Key, mods: Mods)
    requires
        app_ok(m),
    ensures
        app_ok(key_step(m, key, mods)),
{
    let m0 = AppModel { status: None, ..m };
    lemma_openers_ok(m);
    lemma_openers_ok(m0);
    match m0.mode {
        ModeView::EditBody { editor } => {
            lemma_editor_step_ok(editor, key, mods);
        },
        ModeView::TitleForm { editing, value, cursor } => {
            if key is Backspace && cursor > 0 {
                assert(value.remove(cursor - 1).len() == value.len() - 1);
            }
        },
        _ => {},
    }
}

/// Every mouse event leaves the app in a state it keeps.
pub proof fn lemma_mouse_step_ok(m: AppModel, event: crate::tui::MouseEv, areas: &HitAreas, pick: Option<usize>)
    requires
        app_ok(m),
        areas_ok(areas),
    ensures
        app_ok(mouse_step(m, event, areas, pick)),
{
    if let crate::tui::MouseEv::Click { col, row } = event {
        if let Some((y, ranges)) = areas.tabs {
            lemma_tab_at_bound(ranges@, col as int);
        }
    }
}

/// A structural change is always saved: whenever a key changes the graph,
/// the app asks for it to be written out.
pub proof fn lemma_changes_are_saved(m: AppModel, key: Key, mods: Mods)
    requires
        app_ok(m),
        key_step(m, key, mods).graph != m.graph,
    ensures
        key_step(m, key, mods).save is Some,
{
}

/// Esc walks back to the node list, and from there quits.
pub proof fn lemma_escape_walks_back(m: AppModel, mods: Mods)
    requires
        app_ok(m),
        m.mode == ModeView::Browse,
        !mods.ctrl,
    ensures
        m.tab != GRAPH_TAB ==> key_step(m, Key::Esc, mods).tab == GRAPH_TAB && !key_step(m, Key::Esc, mods).quit
            || m.quit,
        key_step(key_step(m, Key::Esc, mods), Key::Esc, mods).quit,
{
}

impl GraphApp {
    /// Whether a key has room to do whatever it may add.
    pub fn has_room_left(&self) -> (room: bool)
        ensures
            room == has_room(self@),
    {
        if self.graph.next_id == u64::MAX {
            return false;
        }
        match &self.mode {
            Mode::TitleForm { value, .. } => value.as_str().unicode_len() < MAX_TEXT,
            Mode::EditBody { editor } => {
                assert(self@.mode == ModeView::EditBody { editor: editor_view(editor) });
                if editor.lines.len() >= MAX_TEXT {
                    return false;
                }
                let mut i: usize = 0;
                while i < editor.lines.len()
                    invariant
                        i <= editor.lines@.len(),
                        self@.mode == (ModeView::EditBody { editor: editor_view(editor) }),
                        forall|j: int| 0 <= j < i ==> #[trigger] editor.line_views()[j].len() < MAX_TEXT,
                    decreases editor.lines.len() - i,
                {
                    if editor.lines[i].as_str().unicode_len() >= MAX_TEXT {
                        assert(editor.line_views()[i as int].len() >= MAX_TEXT);
                        assert(editor_view(editor).lines[i as int].len() >= MAX_TEXT);
                        return false;
                    }
                    i = i + 1;
                }
                true
            },
            _ => true,
        }
    }
}

/// The colors of a note's read view.
#[derive(Clone, Copy, PartialEq, Eq, Debug)]
pub enum NoteColor {
    Magenta,
    Blue,
    Cyan,
    Yellow,
    Green,
    DarkGray,
}

/// How a line or a span of a note is drawn.
#[derive(Clone, Copy, PartialEq, Eq, Debug)]
pub struct NoteStyle {
    pub color: Option<NoteColor>,
    pub bold: bool,
    pub italic: bool,
}

/// One line of a note's read view: its own style and its spans.
pub struct NoteLine {
    pub style: NoteStyle,
    pub spans: Vec<(String, NoteStyle)>,
}

/// A note line as values.
pub open spec fn note_line_view(line: NoteLine) -> (NoteStyle, Seq<(Seq<char>, NoteStyle)>) {
    (line.style, line.spans@.map_values(|span: (String, NoteStyle)| (span.0@, span.1)))
}

/// No color, weight or slant.
pub open spec fn unstyled() -> NoteStyle {
    NoteStyle { color: None, bold: false, italic: false }
}

/// Only a color.
pub open spec fn colored(color: NoteColor) -> NoteStyle {
    NoteStyle { color: Some(color), bold: false, italic: false }
}

/// How many `#` a line starts with.
pub open spec fn leading_hashes(text: Seq<char>) -> nat
    decreases text.len(),
{
    if text.len() > 0 && text[0] == '#' {
        1 + leading_hashes(text.drop_first())
    } else {
        0
    }
}

/// The text of a bullet item after its `- `, `* ` or `+ ` marker.
pub open spec fn bullet_rest(t: Seq<char>) -> Option<Seq<char>> {
    if t.len() >= 2 && (t[0] == '-' || t[0] == '*' || t[0] == '+') && t[1] == ' ' {
        Some(t.skip(2))
    } else {
        None
    }
}

/// A numbered item's `N.` marker and the text after the space that follows
/// it.
pub open spec fn numbered_marker(t: Seq<char>) -> Option<(Seq<char>, Seq<char>)> {
    match t.index_of_first(' ') {
        Some(i) => {
            let num = t.take(i);
            if num.len() >= 2 && num.last() == '.' && forall|k: int|
                0 <= k < num.len() - 1 ==> '0' <= #[trigger] num[k] && num[k] <= '9' {
                Some((num, t.skip(i + 1)))
            } else {
                None
            }
        },
        None => None,
    }
}

/// A line's text as one unstyled span; an empty line has none.
pub open spec fn whole_spans(raw: Seq<char>) -> Seq<(Seq<char>, NoteStyle)> {
    if raw.len() == 0 {
        Seq::empty()
    } else {
        seq![(raw, unstyled())]
    }
}

/// One line of a note styled, given whether a code fence is open; also
/// whether one is open after it. Headings are bold in a color by level,
/// list markers accented, quotes green and slanted, fences dimmed.
pub open spec fn note_line(raw: Seq<char>, in_fence: bool) -> ((NoteStyle, Seq<(Seq<char>, NoteStyle)>), bool) {
    let t = crate::text::trimmed_start(raw);
    let whole = whole_spans(raw);
    if crate::text::has_prefix(t, "```"@) {
        ((colored(NoteColor::DarkGray), whole), !in_fence)
    } else if in_fence {
        ((colored(NoteColor::DarkGray), whole), in_fence)
    } else if raw.len() > 0 && raw[0] == '#' {
        let level = leading_hashes(raw);
        let color = if level == 1 {
            NoteColor::Magenta
        } else if level == 2 {
            NoteColor::Blue
        } else {
            NoteColor::Cyan
        };
        ((NoteStyle { color: Some(color), bold: true, italic: false }, whole), in_fence)
    } else {
        let indent = Seq::new(
            vstd::utf8::encode_utf8(raw.take(crate::text::leading_white(raw) as int)).len(),
            |i: int| ' ',
        );
        match bullet_rest(t) {
            Some(rest) => (
                (unstyled(), seq![(indent, unstyled()), ("\u{2022} "@, colored(NoteColor::Yellow)), (rest, unstyled())]),
                in_fence,
            ),
            None => match numbered_marker(t) {
                Some((num, rest)) => (
                    (unstyled(), seq![(indent, unstyled()), (num.push(' '), colored(NoteColor::Yellow)), (rest, unstyled())]),
                    in_fence,
                ),
                None => if t.len() > 0 && t[0] == '>' {
                    ((NoteStyle { color: Some(NoteColor::Green), bold: false, italic: true }, whole), in_fence)
                } else {
                    ((unstyled(), whole), in_fence)
                },
            },
        }
    }
}

/// Every line of a note styled in turn.
pub open spec fn styled_notes(lines: Seq<Seq<char>>, in_fence: bool) -> Seq<(NoteStyle, Seq<(Seq<char>, NoteStyle)>)>
    decreases lines.len(),
{
    if lines.len() == 0 {
        Seq::empty()
    } else {
        let (line, open) = note_line(lines[0], in_fence);
        seq![line] + styled_notes(lines.drop_first(), open)
    }
}

/// A line drawn whole in `style`.
fn whole_line(raw: &str, style: NoteStyle) -> (line: NoteLine)
    ensures
        note_line_view(line) == (style, whole_spans(raw@)),
{
    let mut spans: Vec<(String, NoteStyle)> = Vec::new();
    if raw.unicode_len() > 0 {
        spans.push((String::from_str(raw), NoteStyle { color: None, bold: false, italic: false }));
    }
    let line = NoteLine { style, spans };
    assert(note_line_view(line).1 =~= whole_spans(raw@));
    line
}

/// A line of three spans: the indent, an accented marker, and the rest.
fn marked_line(indent: String, marker: String, rest: String) -> (line: NoteLine)
    ensures
        note_line_view(line) == (
            unstyled(),
            seq![(indent@, unstyled()), (marker@, colored(NoteColor::Yellow)), (rest@, unstyled())],
        ),
{
    let mut spans: Vec<(String, NoteStyle)> = Vec::new();
    let ghost (a, b, c) = (indent@, marker@, rest@);
    spans.push((indent, NoteStyle { color: None, bold: false, italic: false }));
    spans.push((marker, NoteStyle { color: Some(NoteColor::Yellow), bold: false, italic: false }));
    spans.push((rest, NoteStyle { color: None, bold: false, italic: false }));
    let line = NoteLine { style: NoteStyle { color: None, bold: false, italic: false }, spans };
    assert(note_line_view(line).1 =~= seq![(a, unstyled()), (b, colored(NoteColor::Yellow)), (c, unstyled())]);
    line
}

/// The bytes of white space `raw` starts with, as a count.
fn leading_white_bytes(raw: &str) -> (bytes: usize)
    ensures
        bytes == vstd::utf8::encode_utf8(raw@.take(crate::text::leading_white(raw@) as int)).len(),
{
    let n = raw.unicode_len();
    let mut i: usize = 0;
    assert(raw@.skip(0) =~= raw@);
    while i < n && crate::text::is_white_char(raw.get_char(i))
        invariant
            n == raw@.len(),
            i <= n,
            crate::text::leading_white(raw@) == i + crate::text::leading_white(raw@.skip(i as int)),
        decreases n - i,
    {
        assert(raw@.skip(i as int).drop_first() =~= raw@.skip(i + 1));
        i = i + 1;
    }
    assert(crate::text::leading_white(raw@.skip(i as int)) == 0);
    assert(i == n ==> raw@.take(i as int) =~= raw@);
    crate::text::byte_index(raw, i)
}

/// How many `#` a line starts with.
fn hashes(raw: &str) -> (count: usize)
    ensures
        count == leading_hashes(raw@),
{
    let n = raw.unicode_len();
    let mut i: usize = 0;
    assert(raw@.skip(0) =~= raw@);
    while i < n && raw.get_char(i) == '#'
        invariant
            n == raw@.len(),
            i <= n,
            leading_hashes(raw@) == i + leading_hashes(raw@.skip(i as int)),
        decreases n - i,
    {
        assert(raw@.skip(i as int).drop_first() =~= raw@.skip(i + 1));
        i = i + 1;
    }
    i
}

/// A numbered item's `N.` marker and the text after the space that follows
/// it.
fn numbered_parts(t: &str) -> (parts: Option<(String, String)>)
    ensures
        match parts {
            Some((num, rest)) => numbered_marker(t@) == Some((num@, rest@)),
            None => numbered_marker(t@) is None,
        },
{
    proof {
        t@.index_of_first_ensures(' ');
    }
    assert(t@.skip(0) =~= t@);
    let n = t.unicode_len();
    let i = match crate::text::find_char_from(t, 0, ' ') {
        Some(i) => i,
        None => return None,
    };
    assert(t@.index_of_first(' ') == Some(i as int));
    if i < 2 || t.get_char(i - 1) != '.' {
        return None;
    }
    let mut k: usize = 0;
    while k < i - 1
        invariant
            i <= n,
            n == t@.len(),
            k <= i - 1,
            t@.index_of_first(' ') == Some(i as int),
            forall|j: int| 0 <= j < k ==> '0' <= #[trigger] t@[j] && t@[j] <= '9',
        decreases i - 1 - k,
    {
        let c = t.get_char(k);
        if !('0' <= c && c <= '9') {
            proof {
                let num = t@.take(i as int);
                assert(num[k as int] == c);
                assert(!(forall|j: int| 0 <= j < num.len() - 1 ==> '0' <= #[trigger] num[j] && num[j] <= '9'));
            }
            return None;
        }
        k = k + 1;
    }
    let num = String::from_str(t.substring_char(0, i));
    let rest = String::from_str(t.substring_char(i + 1, n));
    assert(num@ =~= t@.take(i as int));
    assert(rest@ =~= t@.skip(i + 1));
    Some((num, rest))
}

/// One line of a note styled, given whether a code fence is open; also
/// whether one is open after it.
fn style_note_line(raw: &str, in_fence: bool) -> (styled: (NoteLine, bool))
    ensures
        (note_line_view(styled.0), styled.1) == note_line(raw@, in_fence),
{
    proof {
        reveal_strlit("```");
        reveal_strlit("\u{2022} ");
    }
    let t = crate::text::trim_start(raw);
    let dim = NoteStyle { color: Some(NoteColor::DarkGray), bold: false, italic: false };
    if crate::text::starts_with(t.as_str(), "```") {
        return (whole_line(raw, dim), !in_fence);
    }
    if in_fence {
        return (whole_line(raw, dim), in_fence);
    }
    let n = raw.unicode_len();
    if n > 0 && raw.get_char(0) == '#' {
        let level = hashes(raw);
        let color = if level == 1 {
            NoteColor::Magenta
        } else if level == 2 {
            NoteColor::Blue
        } else {
            NoteColor::Cyan
        };
        return (whole_line(raw, NoteStyle { color: Some(color), bold: true, italic: false }), in_fence);
    }
    let indent = crate::text::repeat_char(' ', leading_white_bytes(raw));
    let m = t.as_str().unicode_len();
    if m >= 2 {
        let first = t.as_str().get_char(0);
        if (first == '-' || first == '*' || first == '+') && t.as_str().get_char(1) == ' ' {
            let rest = String::from_str(t.as_str().substring_char(2, m));
            assert(rest@ =~= t@.skip(2));
            return (marked_line(indent, String::from_str("\u{2022} "), rest), in_fence);
        }
    }
    match numbered_parts(t.as_str()) {
        Some((num, rest)) => {
            let mut marker = num;
            crate::text::push_char(&mut marker, ' ');
            return (marked_line(indent, marker, rest), in_fence);
        },
        None => {},
    }
    if m > 0 && t.as_str().get_char(0) == '>' {
        return (whole_line(raw, NoteStyle { color: Some(NoteColor::Green), bold: false, italic: true }), in_fence);
    }
    (whole_line(raw, NoteStyle { color: None, bold: false, italic: false }), in_fence)
}

/// A note's read view, line by line: headings bold in a color by level,
/// list markers accented, quotes green and slanted, fenced code dimmed.
/// Line-based on purpose: enough to make notes scannable.
pub fn styled_markdown(text: &str) -> (lines: Vec<NoteLine>)
    ensures
        lines@.map_values(|line: NoteLine| note_line_view(line)) == styled_notes(
            crate::projects::std_lines(text@),
            false,
        ),
{
    let sources = crate::projects::text_lines(text);
    let ghost all = crate::projects::std_lines(text@);
    let mut lines: Vec<NoteLine> = Vec::new();
    let mut in_fence = false;
    let mut i: usize = 0;
    assert(all.skip(0) =~= all);
    while i < sources.len()
        invariant
            views_of(sources@) == all,
            i <= sources@.len(),
            styled_notes(all, false) == lines@.map_values(|line: NoteLine| note_line_view(line))
                + styled_notes(all.skip(i as int), in_fence),
        decreases sources.len() - i,
    {
        let raw = sources[i].as_str();
        assert(all[i as int] == raw@);
        let (line, next) = style_note_line(raw, in_fence);
        proof {
            assert(all.skip(i as int)[0] == raw@);
            assert(all.skip(i as int).drop_first() =~= all.skip(i + 1));
        }
        let ghost before = lines@.map_values(|line: NoteLine| note_line_view(line));
        let ghost v = note_line_view(line);
        lines.push(line);
        assert(lines@.map_values(|line: NoteLine| note_line_view(line)) =~= before.push(v));
        in_fence = next;
        i = i + 1;
    }
    assert(all.skip(i as int) =~= Seq::<Seq<char>>::empty());
    assert(lines@.map_values(|line: NoteLine| note_line_view(line)) + Seq::empty() =~= lines@.map_values(
        |line: NoteLine| note_line_view(line),
    ));
    lines
}

} // verus!
