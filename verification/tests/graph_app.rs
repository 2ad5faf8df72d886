use sam_toolkit::graph_app::{styled_markdown, GraphApp, HitAreas, Mode, NoteColor, GRAPH_TAB, NODE_TAB, VIZ_TAB};
use sam_toolkit::hit::Rect;
use sam_toolkit::knowledge_graph::Graph;
use sam_toolkit::tui::{Key, Mods, MouseEv};

fn graph(titles: &[&str]) -> Graph {
    let mut graph = Graph::new();
    for title in titles {
        graph.add_node(title.to_string());
    }
    graph
}

fn press(app: &mut GraphApp, key: Key) {
    assert!(app.has_room_left());
    app.on_key(key, Mods::default());
}

fn ctrl(app: &mut GraphApp, c: char) {
    app.on_key(Key::Char(c), Mods { ctrl: true, shift: false, alt: false });
}

fn type_text(app: &mut GraphApp, text: &str) {
    for c in text.chars() {
        press(app, Key::Char(c));
    }
}

fn status(app: &GraphApp) -> Option<(String, bool)> {
    app.status.clone()
}

fn no_areas() -> HitAreas {
    HitAreas { tabs: None, node_list: None, picker: None }
}

#[test]
fn adding_a_node_selects_it_and_asks_for_a_save() {
    let mut app = GraphApp::new(graph(&["one", "two"]));
    assert_eq!(app.selected, Some(0));
    press(&mut app, Key::Down);
    assert_eq!(app.selected, Some(1));
    press(&mut app, Key::Char('a'));
    type_text(&mut app, "  three ");
    press(&mut app, Key::Enter);
    assert!(matches!(app.mode, Mode::Browse));
    assert_eq!(app.graph.nodes.len(), 3);
    assert_eq!(app.graph.nodes[2].title, "three");
    assert_eq!(app.selected, Some(2));
    assert_eq!(status(&app), Some(("Added node.".to_string(), false)));
    assert_eq!(app.save, Some(true));
    assert!(app.layout_stale);
    // A failed save shows, since nothing was said after asking for it.
    app.saved(Some("disk full".to_string()));
    assert_eq!(status(&app), Some(("disk full".to_string(), true)));
    assert_eq!(app.save, None);
}

#[test]
fn a_blank_title_is_refused() {
    let mut app = GraphApp::new(graph(&[]));
    press(&mut app, Key::Char('a'));
    type_text(&mut app, "   ");
    press(&mut app, Key::Enter);
    assert!(matches!(app.mode, Mode::TitleForm { .. }));
    assert_eq!(status(&app), Some(("Title is required.".to_string(), true)));
    assert_eq!(app.graph.nodes.len(), 0);
}

#[test]
fn renaming_edits_the_title_in_place() {
    let mut app = GraphApp::new(graph(&["alpha"]));
    press(&mut app, Key::Char('r'));
    press(&mut app, Key::Backspace);
    press(&mut app, Key::Home);
    press(&mut app, Key::Char('>'));
    press(&mut app, Key::Enter);
    assert_eq!(app.graph.nodes[0].title, ">alph");
    assert_eq!(status(&app), Some(("Renamed node.".to_string(), false)));
}

#[test]
fn the_picker_toggles_links_both_ways() {
    let mut app = GraphApp::new(graph(&["a", "b", "c"]));
    press(&mut app, Key::Char('l'));
    match &app.mode {
        Mode::LinkPicker { others, selected } => {
            assert_eq!(others, &vec![1, 2]);
            assert_eq!(*selected, Some(0));
        }
        _ => panic!("the picker opens"),
    }
    press(&mut app, Key::Down);
    press(&mut app, Key::Enter);
    assert_eq!(app.graph.edges, vec![(0, 2)]);
    assert_eq!(status(&app), Some(("Linked.".to_string(), false)));
    // A failed save hides behind the message set after it.
    app.saved(Some("disk full".to_string()));
    assert_eq!(status(&app), Some(("Linked.".to_string(), false)));
    press(&mut app, Key::Char(' '));
    assert!(app.graph.edges.is_empty());
    assert_eq!(status(&app), Some(("Unlinked.".to_string(), false)));
    press(&mut app, Key::Esc);
    assert!(matches!(app.mode, Mode::Browse));
}

#[test]
fn a_lone_node_has_nothing_to_link_to() {
    let mut app = GraphApp::new(graph(&["only"]));
    press(&mut app, Key::Char('l'));
    assert!(matches!(app.mode, Mode::Browse));
    assert_eq!(
        status(&app),
        Some(("Add another node before linking.".to_string(), true))
    );
}

#[test]
fn deleting_asks_first_and_drops_the_node_and_its_links() {
    let mut app = GraphApp::new(graph(&["a", "b"]));
    app.graph.toggle_edge(0, 1);
    press(&mut app, Key::Down);
    press(&mut app, Key::Char('d'));
    press(&mut app, Key::Char('n'));
    assert_eq!(app.graph.nodes.len(), 2);
    press(&mut app, Key::Char('d'));
    press(&mut app, Key::Char('y'));
    assert_eq!(app.graph.nodes.len(), 1);
    assert!(app.graph.edges.is_empty());
    assert_eq!(app.selected, Some(0));
    assert_eq!(status(&app), Some(("Deleted node.".to_string(), false)));
}

#[test]
fn the_editor_writes_the_note_back() {
    let mut app = GraphApp::new(graph(&["note"]));
    press(&mut app, Key::Char('e'));
    assert_eq!(app.tab, NODE_TAB);
    type_text(&mut app, "ab");
    press(&mut app, Key::Enter);
    press(&mut app, Key::Char('c'));
    press(&mut app, Key::Up);
    press(&mut app, Key::End);
    press(&mut app, Key::Backspace);
    press(&mut app, Key::Esc);
    assert!(matches!(app.mode, Mode::Browse));
    assert_eq!(app.graph.nodes[0].markdown, "a\nc");
    assert_eq!(status(&app), Some(("Saved note.".to_string(), false)));
    assert_eq!(app.save, Some(false));
}

#[test]
fn escape_walks_back_then_quits_and_ctrl_c_quits() {
    let mut app = GraphApp::new(graph(&["a"]));
    press(&mut app, Key::Char('3'));
    assert_eq!(app.tab, VIZ_TAB);
    press(&mut app, Key::Esc);
    assert_eq!(app.tab, GRAPH_TAB);
    assert!(!app.quit);
    press(&mut app, Key::Esc);
    assert!(app.quit);
    let mut app = GraphApp::new(graph(&["a"]));
    press(&mut app, Key::Char('e'));
    type_text(&mut app, "x");
    ctrl(&mut app, 'c');
    assert!(app.quit);
    assert_eq!(app.graph.nodes[0].markdown, "x");
}

#[test]
fn clicks_pick_tabs_and_rows() {
    let mut app = GraphApp::new(graph(&["a", "b", "c"]));
    let areas = HitAreas {
        tabs: Some((0, vec![(0, 7), (8, 14), (15, 26)])),
        node_list: Some((Rect { x: 1, y: 2, width: 20, height: 5 }, 1)),
        picker: None,
    };
    app.on_mouse(MouseEv::Click { col: 3, row: 2 }, &areas, None);
    assert_eq!(app.selected, Some(1));
    app.on_mouse(MouseEv::Click { col: 3, row: 4 }, &areas, None);
    assert_eq!(app.selected, Some(1));
    app.on_mouse(MouseEv::Click { col: 16, row: 0 }, &areas, None);
    assert_eq!(app.tab, VIZ_TAB);
    app.on_mouse(MouseEv::Click { col: 5, row: 5 }, &areas, Some(2));
    assert_eq!(app.selected, Some(2));
    app.on_mouse(MouseEv::ScrollUp, &no_areas(), None);
    assert_eq!(app.selected, Some(1));
}

#[test]
fn a_click_outside_the_picker_closes_it() {
    let mut app = GraphApp::new(graph(&["a", "b"]));
    press(&mut app, Key::Char('l'));
    let areas = HitAreas {
        tabs: None,
        node_list: None,
        picker: Some((Rect { x: 10, y: 10, width: 10, height: 3 }, 0)),
    };
    app.on_mouse(MouseEv::Click { col: 12, row: 10 }, &areas, None);
    assert_eq!(app.graph.edges, vec![(0, 1)]);
    app.on_mouse(MouseEv::Click { col: 0, row: 0 }, &areas, None);
    assert!(matches!(app.mode, Mode::Browse));
}

#[test]
fn help_follows_the_mode_and_tab() {
    let mut app = GraphApp::new(graph(&["a"]));
    assert!(app.help_text().starts_with("\u{2191}/\u{2193} select"));
    press(&mut app, Key::Char('d'));
    assert_eq!(app.help_text(), "y delete \u{b7} n/esc cancel");
}

#[test]
fn styled_markdown_highlights_structure() {
    let lines = styled_markdown("# Title\n- item\n```\ncode # not a heading\n```\nplain");
    assert_eq!(lines.len(), 6);
    // Heading is bold; the fence body is dimmed even though it contains '#'.
    assert!(lines[0].style.bold);
    assert_eq!(lines[3].style.color, Some(NoteColor::DarkGray));
    assert_eq!(lines[5].style.color, None);
    // The bullet marker is replaced with a styled dot.
    assert_eq!(lines[1].spans[1].0, "• ");
}

#[test]
fn styled_markdown_marks_numbers_quotes_and_levels() {
    let lines = styled_markdown("## Sub\n### Deep\n  12. twelve\n1x. not a number\n> said\n");
    assert_eq!(lines.len(), 5);
    assert_eq!(lines[0].style.color, Some(NoteColor::Blue));
    assert_eq!(lines[1].style.color, Some(NoteColor::Cyan));
    assert_eq!(lines[2].spans.len(), 3);
    assert_eq!(lines[2].spans[0].0, "  ");
    assert_eq!(lines[2].spans[1].0, "12. ");
    assert_eq!(lines[2].spans[1].1.color, Some(NoteColor::Yellow));
    assert_eq!(lines[2].spans[2].0, "twelve");
    assert_eq!(lines[3].spans.len(), 1);
    assert_eq!(lines[3].style.color, None);
    assert_eq!(lines[4].style.color, Some(NoteColor::Green));
    assert!(lines[4].style.italic);
}

#[test]
fn styled_markdown_keeps_empty_lines_empty() {
    let lines = styled_markdown("a\n\nb");
    assert_eq!(lines.len(), 3);
    assert!(lines[1].spans.is_empty());
}
