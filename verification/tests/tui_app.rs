use sam_toolkit::crypt::encrypted_str;
use sam_toolkit::data::{Category, Link, TimelineEvent};
use sam_toolkit::hit::{HitMap, HitTarget, Rect};
use sam_toolkit::posts::Blog;
use sam_toolkit::tui::{
    poll_host_event, request_route, HostEvent, HostState, Input, Key, Modal, Mods, MouseEv,
    Reader, ABOUT_TAB, BLOG_TAB, TIMELINE_TAB,
};
use sam_toolkit::tui_app::{reader_viewport_of, tab_viewport_of, App, Layout, Site};

fn event(title: &str, links: Vec<Link>) -> TimelineEvent {
    TimelineEvent {
        title: encrypted_str(title),
        time: encrypted_str("2020"),
        image: None,
        category: Category::Work,
        detail: None,
        links,
    }
}

fn site() -> Site {
    let mut blog = Blog::new("Developer Sam Blog");
    blog.add_post(
        "Hello World", "2024", "01", "02", "hello-world", None, None, "First post", "# Hi",
    );
    blog.add_post(
        "Elsewhere", "2023", "05", "06", "", Some("https://example.com/post"), None, "Away", "",
    );
    let link = Link { name: encrypted_str("site"), url: encrypted_str("https://a.example") };
    let local = Link { name: encrypted_str("blog"), url: encrypted_str("/blog") };
    Site {
        timeline: vec![
            event("One", vec![link, local]),
            event("Two", Vec::new()),
            event("Three", Vec::new()),
        ],
        blog,
    }
}

fn layout() -> Layout {
    Layout {
        header_rows: 2,
        status_rows: 1,
        about_lines: 100,
        card_heights: vec![10, 10, 10],
        post_rows: vec![50, 0],
        event_lines: vec![20, 5, 5],
        event_viewports: vec![8, 8, 8],
        help_lines: 30,
        help_viewport: 10,
    }
}

fn key(key: Key) -> Input {
    Input::Key { key, mods: Mods::default() }
}

fn ctrl(c: char) -> Input {
    Input::Key { key: Key::Char(c), mods: Mods { ctrl: true, shift: false, alt: false } }
}

fn app(site: &Site, layout: &Layout) -> App {
    let mut host = HostState::new();
    let mut app = App::new(&mut host, site, layout);
    app.resize(80, 30);
    app
}

fn press(app: &mut App, input: Input, site: &Site, layout: &Layout) {
    app.handle(input, &HitMap::new(), site, layout);
    app.clamp_scroll(site, layout);
}

#[test]
fn starts_on_about() {
    let (site, layout) = (site(), layout());
    let mut host = HostState::new();
    let app = App::new(&mut host, &site, &layout);
    assert_eq!(app.tab, ABOUT_TAB);
    assert_eq!(app.visited_count(), 1);
    assert_eq!(app.route(&site), "/about");
    assert!(app.reader.is_none() && app.modal.is_none() && !app.quit);
}

#[test]
fn a_pending_route_opens_its_post() {
    let (site, layout) = (site(), layout());
    let mut host = HostState::new();
    request_route(&mut host, "/blog/2024/01/02/hello-world/");
    let app = App::new(&mut host, &site, &layout);
    assert_eq!(app.tab, BLOG_TAB);
    assert_eq!(app.reader, Some(Reader { post: 0, scroll: 0 }));
    assert_eq!(app.route(&site), "/blog/2024/01/02/hello-world");
    assert_eq!(app.visited_count(), 2);
}

#[test]
fn arrows_and_digits_switch_tabs() {
    let (site, layout) = (site(), layout());
    let mut app = app(&site, &layout);
    press(&mut app, key(Key::Right), &site, &layout);
    assert_eq!(app.tab, TIMELINE_TAB);
    press(&mut app, key(Key::Left), &site, &layout);
    press(&mut app, key(Key::Left), &site, &layout);
    assert_eq!(app.tab, BLOG_TAB);
    press(&mut app, key(Key::Char('2')), &site, &layout);
    assert_eq!(app.tab, TIMELINE_TAB);
    assert_eq!(app.visited_count(), 3);
    assert_eq!(app.route(&site), "/timeline");
}

#[test]
fn ctrl_c_and_q_quit() {
    let (site, layout) = (site(), layout());
    let mut app = app(&site, &layout);
    press(&mut app, ctrl('c'), &site, &layout);
    assert!(app.quit);
    let mut app = self::app(&site, &layout);
    press(&mut app, key(Key::Char('q')), &site, &layout);
    assert!(app.quit);
}

#[test]
fn about_pane_scrolls_to_its_last_line_and_no_further() {
    let (site, layout) = (site(), layout());
    let mut app = app(&site, &layout);
    // 30 rows less 3 of chrome, 2 of header, 1 of status: 24; the About
    // pane's row of air leaves 23, so 100 lines scroll 77.
    assert_eq!(app.viewport(&layout), 24);
    press(&mut app, key(Key::End), &site, &layout);
    assert_eq!(app.scroll(ABOUT_TAB), 77);
    press(&mut app, key(Key::Down), &site, &layout);
    assert_eq!(app.scroll(ABOUT_TAB), 77);
    press(&mut app, key(Key::Up), &site, &layout);
    assert_eq!(app.scroll(ABOUT_TAB), 74);
    press(&mut app, key(Key::Char('g')), &site, &layout);
    assert_eq!(app.scroll(ABOUT_TAB), 0);
}

#[test]
fn timeline_dialog_opens_and_its_buttons_open_links() {
    let (site, layout) = (site(), layout());
    let mut app = app(&site, &layout);
    press(&mut app, key(Key::Char('2')), &site, &layout);
    press(&mut app, key(Key::Enter), &site, &layout);
    assert_eq!(app.modal, Some(Modal::Timeline { event: 0, scroll: 0 }));
    press(&mut app, key(Key::End), &site, &layout);
    assert_eq!(app.modal, Some(Modal::Timeline { event: 0, scroll: 12 }));
    press(&mut app, key(Key::PageUp), &site, &layout);
    assert_eq!(app.modal, Some(Modal::Timeline { event: 0, scroll: 11 }));
    press(&mut app, key(Key::Char('1')), &site, &layout);
    press(&mut app, key(Key::Char('2')), &site, &layout);
    press(&mut app, key(Key::Char('9')), &site, &layout);
    let mut host = HostState::new();
    app.take_actions(&mut host, &site, &layout);
    // The first button leaves for the web; the second names the blog, which
    // this app shows itself.
    assert_eq!(poll_host_event(&mut host), Some(HostEvent::Open("https://a.example".to_string())));
    assert_eq!(poll_host_event(&mut host), None);
    assert_eq!(app.tab, BLOG_TAB);
    press(&mut app, key(Key::Esc), &site, &layout);
    assert_eq!(app.modal, None);
}

#[test]
fn blog_enter_reads_local_posts_and_links_out_to_the_rest() {
    let (site, layout) = (site(), layout());
    let mut app = app(&site, &layout);
    press(&mut app, key(Key::Char('3')), &site, &layout);
    press(&mut app, key(Key::Enter), &site, &layout);
    assert_eq!(app.reader, Some(Reader { post: 0, scroll: 0 }));
    press(&mut app, key(Key::End), &site, &layout);
    // 24 body rows less 2 leave 22 for a 50-row post.
    assert_eq!(app.reader, Some(Reader { post: 0, scroll: 28 }));
    press(&mut app, key(Key::Char('q')), &site, &layout);
    assert_eq!(app.reader, None);
    assert!(!app.quit);
    press(&mut app, key(Key::Down), &site, &layout);
    assert_eq!(app.selected(BLOG_TAB), 1);
    press(&mut app, key(Key::Enter), &site, &layout);
    assert_eq!(app.reader, None);
    let mut host = HostState::new();
    app.take_actions(&mut host, &site, &layout);
    assert_eq!(
        poll_host_event(&mut host),
        Some(HostEvent::Open("https://example.com/post".to_string()))
    );
}

#[test]
fn clicks_resolve_to_the_last_region_painted() {
    let (site, layout) = (site(), layout());
    let mut app = app(&site, &layout);
    let mut hits = HitMap::new();
    hits.record(Rect { x: 0, y: 0, width: 10, height: 1 }, Some(HitTarget::Tab(BLOG_TAB)));
    hits.record(Rect { x: 5, y: 0, width: 2, height: 1 }, Some(HitTarget::Tab(TIMELINE_TAB)));
    app.handle(Input::Mouse(MouseEv::Click { col: 5, row: 0 }), &hits, &site, &layout);
    assert_eq!(app.tab, TIMELINE_TAB);
    app.handle(Input::Mouse(MouseEv::Click { col: 1, row: 0 }), &hits, &site, &layout);
    assert_eq!(app.tab, BLOG_TAB);
    let mut cards = HitMap::new();
    cards.record(Rect { x: 0, y: 2, width: 40, height: 5 }, Some(HitTarget::Item(1)));
    app.handle(Input::Mouse(MouseEv::Click { col: 3, row: 4 }), &cards, &site, &layout);
    assert_eq!(app.selected(BLOG_TAB), 1);
    let mut host = HostState::new();
    app.take_actions(&mut host, &site, &layout);
    assert_eq!(
        poll_host_event(&mut host),
        Some(HostEvent::Open("https://example.com/post".to_string()))
    );
}

#[test]
fn a_click_off_every_region_closes_the_dialog() {
    let (site, layout) = (site(), layout());
    let mut app = app(&site, &layout);
    press(&mut app, key(Key::Char('?')), &site, &layout);
    assert_eq!(app.modal, Some(Modal::Help { scroll: 0 }));
    app.handle(Input::Mouse(MouseEv::Click { col: 1, row: 1 }), &HitMap::new(), &site, &layout);
    assert_eq!(app.modal, None);
}

#[test]
fn wheel_on_the_blog_moves_the_page_and_the_selection_follows() {
    let (site, layout) = (site(), layout());
    let mut app = app(&site, &layout);
    press(&mut app, key(Key::Char('3')), &site, &layout);
    // Two posts take 10 rows, fewer than the viewport: nothing scrolls.
    press(&mut app, Input::Mouse(MouseEv::ScrollDown), &site, &layout);
    assert_eq!(app.scroll(BLOG_TAB), 0);
    assert_eq!(app.selected(BLOG_TAB), 0);
}

#[test]
fn timeline_scroll_keeps_the_selection_on_screen() {
    let (site, mut layout) = (site(), layout());
    layout.card_heights = vec![10, 10, 10];
    let mut app = app(&site, &layout);
    app.resize(80, 20);
    // 20 rows less 6: 14 rows, room for one card of 10 at a time.
    press(&mut app, key(Key::Char('2')), &site, &layout);
    press(&mut app, key(Key::End), &site, &layout);
    assert_eq!(app.selected(TIMELINE_TAB), 2);
    assert_eq!(app.scroll(TIMELINE_TAB), 2);
    press(&mut app, key(Key::Home), &site, &layout);
    assert_eq!(app.scroll(TIMELINE_TAB), 0);
}

#[test]
fn viewports_keep_at_least_one_row() {
    assert_eq!(tab_viewport_of(ABOUT_TAB, 0), 1);
    assert_eq!(tab_viewport_of(ABOUT_TAB, 10), 9);
    assert_eq!(tab_viewport_of(BLOG_TAB, 10), 10);
    assert_eq!(reader_viewport_of(1), 1);
    assert_eq!(reader_viewport_of(10), 8);
}

#[test]
fn regions_are_clipped_to_their_container() {
    let mut hits = HitMap::new();
    hits.push_clip(Rect { x: 0, y: 0, width: 10, height: 10 });
    hits.record(Rect { x: 5, y: 5, width: 10, height: 10 }, Some(HitTarget::Item(0)));
    hits.record(Rect { x: 20, y: 20, width: 5, height: 5 }, Some(HitTarget::Item(1)));
    hits.pop_clip();
    assert_eq!(hits.hit_test(9, 9), Some(HitTarget::Item(0)));
    assert_eq!(hits.hit_test(10, 10), None);
    assert_eq!(hits.hit_test(21, 21), None);
    hits.record(Rect { x: 20, y: 20, width: 5, height: 5 }, Some(HitTarget::Close));
    assert_eq!(hits.hit_test(21, 21), Some(HitTarget::Close));
    hits.clear();
    assert_eq!(hits.hit_test(21, 21), None);
}

#[test]
fn rects_intersect_and_crop() {
    let a = Rect { x: 0, y: 0, width: 10, height: 10 };
    let b = Rect { x: 5, y: 8, width: 10, height: 10 };
    assert_eq!(a.intersect(b), Some(Rect { x: 5, y: 8, width: 5, height: 2 }));
    assert_eq!(a.intersect(Rect { x: 10, y: 0, width: 5, height: 5 }), None);
    assert_eq!(Rect::from_edges(-3, -2, 4, 5), Rect { x: 0, y: 0, width: 4, height: 5 });
    assert_eq!(Rect::from_edges(5, 5, 2, 2), Rect { x: 5, y: 5, width: 0, height: 0 });
    assert!(a.contains(9, 9));
    assert!(!a.contains(10, 9));
}
