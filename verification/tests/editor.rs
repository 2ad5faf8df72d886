use sam_toolkit::editor::{tab_ranges, truncate, Editor};
use sam_toolkit::text::byte_index;

#[test]
fn editor_edits_roundtrip() {
    let mut editor = Editor::from_text("hello\nworld");
    assert_eq!(editor.lines.len(), 2);
    editor.col = editor.line_len(); // end of "hello"
    editor.insert_char('!');
    editor.insert_newline();
    editor.insert_char('x');
    assert_eq!(editor.text(), "hello!\nx\nworld");
    editor.backspace();
    editor.backspace(); // joins back onto "hello!"
    assert_eq!(editor.text(), "hello!\nworld");
    assert_eq!((editor.row, editor.col), (0, 6));
    editor.delete(); // joins "world" up
    assert_eq!(editor.text(), "hello!world");
}

#[test]
fn editor_handles_multibyte_chars() {
    let mut editor = Editor::from_text("");
    for c in "héllo".chars() {
        editor.insert_char(c);
    }
    assert_eq!(editor.text(), "héllo");
    editor.col = 2; // between é and l
    editor.backspace();
    assert_eq!(editor.text(), "hllo");
}

#[test]
fn tab_ranges_match_tabs_widget_layout() {
    // The widget renders " Graph │ Node │ Visualize": one padding cell
    // each side of a title, one divider cell between tabs.
    assert_eq!(tab_ranges(0), vec![(0, 7), (8, 14), (15, 26)]);
    // Ranges shift with the row's origin.
    assert_eq!(tab_ranges(2)[0], (2, 9));
}

#[test]
fn text_roundtrips_through_lines() {
    for text in ["", "\n", "a\n\nb", "trailing\n", "é\nü"] {
        assert_eq!(Editor::from_text(text).text(), text);
    }
    assert_eq!(Editor::from_text("a\n\nb").lines, vec!["a", "", "b"]);
}

#[test]
fn vertical_moves_clamp_row_and_column() {
    let mut editor = Editor::from_text("long line\nab\nlonger line");
    editor.col = 8;
    editor.move_vertical(1);
    assert_eq!((editor.row, editor.col), (1, 2));
    editor.move_vertical(10);
    assert_eq!((editor.row, editor.col), (2, 2));
    editor.move_vertical(-10);
    assert_eq!((editor.row, editor.col), (0, 2));
}

#[test]
fn delete_at_end_of_last_line_does_nothing() {
    let mut editor = Editor::from_text("ab");
    editor.col = 2;
    editor.delete();
    assert_eq!(editor.text(), "ab");
    editor.col = 0;
    editor.backspace();
    assert_eq!(editor.text(), "ab");
    editor.delete();
    assert_eq!(editor.text(), "b");
}

#[test]
fn truncate_marks_the_cut() {
    assert_eq!(truncate("Knowledge", 14), "Knowledge");
    assert_eq!(truncate("A very long node title", 6), "A ver…");
    assert_eq!(truncate("abc", 0), "…");
}

#[test]
fn byte_index_counts_utf8_bytes() {
    assert_eq!(byte_index("héllo", 2), 3);
    assert_eq!(byte_index("héllo", 9), 6);
    assert_eq!(byte_index("", 0), 0);
}
