use sam_toolkit::panes::{
    banner_rows, block_at_row, header_plan, header_rows, tab_name, touch_sized, HeaderTitle, TITLE,
};

#[test]
fn banner_sets_the_name_in_three_rows() {
    let (top, middle, bottom) = banner_rows(TITLE.trim()).unwrap();
    assert_eq!(top, "█▀▄ █▀▀ █ █   █▀▀ █▀█ █▄█");
    assert_eq!(middle, "█ █ █▀  █ █   ▀▀█ █▀█ █ █");
    assert_eq!(bottom, "▀▀  ▀▀▀  ▀    ▀▀▀ ▀ ▀ ▀ ▀");
}

#[test]
fn banner_gives_up_on_unknown_letters() {
    assert!(banner_rows("DEVX").is_none());
    assert!(banner_rows("dev").is_none());
    assert_eq!(banner_rows(""), Some((String::new(), String::new(), String::new())));
    assert_eq!(
        banner_rows("LOP"),
        Some((
            "█   █▀█ █▀█".to_string(),
            "█   █ █ █▀▀".to_string(),
            "▀▀▀ ▀▀▀ ▀  ".to_string()
        ))
    );
}

#[test]
fn phones_are_known_by_size() {
    assert!(touch_sized(59, 40));
    assert!(touch_sized(80, 23));
    assert!(!touch_sized(60, 24));
}

#[test]
fn wide_header_puts_tabs_beside_the_wordmark() {
    let plan = header_plan(0, 80, 40);
    assert!(matches!(plan.title, HeaderTitle::Banner(..)));
    assert_eq!(plan.labels.len(), 3);
    assert_eq!(plan.labels[1], (1, "Timeline".to_string()));
    assert!(plan.inline_tabs);
    // Room 74, wordmark 25, tabs 23: the 26 cells left are split evenly.
    assert_eq!(plan.gap, 13);
    assert_eq!(header_rows(0, 80, 40), 5);
}

#[test]
fn gap_never_drops_under_its_minimum() {
    let plan = header_plan(2, 61, 40);
    assert!(plan.inline_tabs);
    assert_eq!(plan.gap, 4);
    let plan = header_plan(2, 70, 40);
    assert_eq!(plan.gap, 8);
}

#[test]
fn phone_header_drops_the_name() {
    let plan = header_plan(1, 40, 40);
    assert!(matches!(plan.title, HeaderTitle::Nameless));
    assert!(!plan.inline_tabs);
    assert_eq!(plan.gap, 0);
    assert_eq!(plan.labels.len(), 3);
    assert_eq!(header_rows(1, 40, 40), 3);
    assert_eq!(header_rows(1, 80, 20), 3);
}

#[test]
fn narrow_header_names_only_the_tab_in_front() {
    let plan = header_plan(1, 20, 40);
    assert_eq!(plan.labels, vec![(1, "Timeline".to_string())]);
    assert_eq!(tab_name(2), "Blog");
}

#[test]
fn scroll_offsets_land_in_blocks() {
    let heights = vec![1, 1, 4, 1];
    assert_eq!(block_at_row(&heights, 0), (0, 0));
    assert_eq!(block_at_row(&heights, 2), (2, 0));
    assert_eq!(block_at_row(&heights, 4), (2, 2));
    assert_eq!(block_at_row(&heights, 6), (3, 0));
    assert_eq!(block_at_row(&heights, 7), (4, 0));
    assert_eq!(block_at_row(&vec![0, 2], 0), (1, 0));
    assert_eq!(block_at_row(&vec![], 3), (0, 0));
}
