use sam_toolkit::tui::timeline_row_count;
use sam_toolkit::cipher::{encrypt, key_hash, keystream, scramble, seed_of, unscramble};
use sam_toolkit::crypt::{encrypted_str, EncryptedRun, EncryptedString};
use sam_toolkit::data::{Category, Link, TimelineEvent};
use sam_toolkit::posts::Blog;
use sam_toolkit::site_path::SitePath;
use sam_toolkit::tui::{
    blog_column_width, blog_rows, blog_text_width, card_height, content_width, has_view,
    link_target, poll_host_event, publish_route, push_host_event, request_quit, request_route,
    reset_route_sync, take_pending_quit, take_pending_route, timeline_column_width, title_for,
    view_at, Destination, HostEvent, HostState, LinkTarget,
};

fn blog() -> Blog {
    let mut blog = Blog::new("Developer Sam Blog");
    blog.add_post(
        "Hello World", "2024", "01", "02", "hello-world", None, None, "First post", "# Hi",
    );
    blog.add_post(
        "Elsewhere", "2023", "05", "06", "", Some("https://example.com/post"), None, "Away", "",
    );
    blog
}

#[test]
fn encryption_roundtrips() {
    for text in ["", "hello", "héllo wörld", "Developer Sam"] {
        assert_eq!(encrypted_str(text).decrypt(), text);
        let seed = seed_of(text);
        let cipher = encrypt(text, seed);
        assert_eq!(cipher.len(), text.len());
        assert_eq!(EncryptedString::new(seed, cipher).decrypt(), text);
    }
}

#[test]
fn scrambling_is_undone_byte_by_byte() {
    let _ = key_hash();
    for byte in [0u8, 1, 0x7f, 0x80, 0xff] {
        for index in [0usize, 1, 7, 1000] {
            let mixed = scramble(byte, 42, index);
            assert_eq!(unscramble(mixed, 42, index), byte);
        }
    }
    assert_eq!(keystream(9, 3), keystream(9, 3));
}

#[test]
fn encrypted_text_is_not_plain() {
    let text = "a fairly long sentence that should not survive";
    let cipher = encrypt(text, seed_of(text));
    assert_ne!(cipher, text.as_bytes().to_vec());
}

#[test]
fn runs_read_back_from_a_blob() {
    let mut blob = Vec::new();
    let seed = seed_of("abc");
    blob.extend(encrypt("abc", seed));
    let run = EncryptedRun::new(seed, 0, 3);
    assert_eq!(run.of(&blob).decrypt(), "abc");
}

#[test]
fn category_labels() {
    assert_eq!(Category::Work.label().decrypt(), "work");
    assert_eq!(Category::Milestone.label().decrypt(), "milestone");
}

#[test]
fn posts_know_their_permalinks() {
    let blog = blog();
    let post = &blog.posts[0];
    let blob = blog.blob.as_slice();
    assert_eq!(post.title(blob).decrypt(), "Hello World");
    assert_eq!(post.path(blob), "/blog/2024/01/02/hello-world");
    assert_eq!(post.url(blob), "https://developersam.com/blog/2024/01/02/hello-world");
    assert_eq!(post.formatted_date(blob), "2024-01-02");
    assert!(!post.is_external());
    assert!(post.thumbnail(blob).is_none());
    assert_eq!(blog.posts[1].url(blob), "https://example.com/post");
    assert!(blog.posts[1].is_external());
    assert_eq!(blog.blog_title().decrypt(), "Developer Sam Blog");
    assert_eq!(blog.find("/blog/2024/01/02/hello-world"), Some(0));
    assert_eq!(blog.find("/blog/2023/05/06/"), None);
}

#[test]
fn site_paths_drop_trailing_slashes() {
    assert_eq!(SitePath::root().as_str(), "/");
    assert_eq!(SitePath::new("/blog///").as_str(), "/blog");
    assert_eq!(SitePath::new("/").as_str(), "/");
    assert!(SitePath::parse("blog").is_none());
    assert_eq!(SitePath::parse("/about/").unwrap().as_str(), "/about");
    assert_eq!(SitePath::default().as_str(), "/");
}

#[test]
fn column_widths_follow_the_terminal() {
    assert_eq!(timeline_column_width(0), 76);
    assert_eq!(timeline_column_width(10), 12);
    assert_eq!(timeline_column_width(200), 88);
    assert_eq!(blog_column_width(50), 46);
    assert_eq!(content_width(50), 41);
    assert_eq!(content_width(10), 8);
    assert_eq!(blog_text_width(50), 42);
    assert_eq!(blog_text_width(1), 8);
}

#[test]
fn card_heights_count_each_section() {
    let bare = TimelineEvent {
        title: encrypted_str("Job"),
        time: encrypted_str("2020"),
        image: None,
        category: Category::Work,
        detail: None,
        links: Vec::new(),
    };
    assert_eq!(card_height(&bare, 80, 0), 4);
    assert_eq!(card_height(&bare, 80, 6), 11);
    let detailed = TimelineEvent {
        detail: Some(encrypted_str(&"x".repeat(100))),
        links: vec![Link { name: encrypted_str("site"), url: encrypted_str("https://a.b") }],
        ..bare
    };
    // Content width at 80 columns is 71: 100 characters wrap to 2 rows, the
    // button row " SITE " to 1.
    assert_eq!(card_height(&detailed, 80, 0), 4 + 3 + 2);
}

#[test]
fn card_heights_measure_upper_cased_names() {
    let event = TimelineEvent {
        title: encrypted_str("t"),
        time: encrypted_str("t"),
        image: None,
        category: Category::Project,
        detail: None,
        links: vec![Link { name: encrypted_str(&"ß".repeat(4)), url: encrypted_str("u") }],
    };
    // At 10 columns the text column is 8 wide; "ßßßß" upper-cases to
    // "SSSSSSSS", so the row " SSSSSSSS " takes 10 cells: 2 rows.
    assert_eq!(card_height(&event, 10, 0), 4 + 3);
}

#[test]
fn blog_rows_are_five_per_post() {
    assert_eq!(blog_rows(&blog()), 10);
    assert_eq!(blog_rows(&Blog::new("empty")), 0);
}

#[test]
fn site_paths_name_views() {
    let blog = blog();
    assert_eq!(view_at("/about", &blog), Some(Destination::Tab(0)));
    assert_eq!(view_at("/timeline/", &blog), Some(Destination::Tab(1)));
    assert_eq!(view_at("/blog", &blog), Some(Destination::Tab(2)));
    assert_eq!(view_at("/blog/2024/01/02/hello-world", &blog), Some(Destination::Post(0)));
    assert_eq!(view_at("/blog/2024/01/02/hello-world/", &blog), Some(Destination::Post(0)));
    assert_eq!(view_at("/blog/gone", &blog), Some(Destination::Tab(2)));
    assert_eq!(view_at("/blogger", &blog), None);
    assert_eq!(view_at("/", &blog), None);
    assert_eq!(view_at("/budget", &blog), None);
    assert!(has_view("/about/", &blog));
    assert!(!has_view("", &blog));
}

#[test]
fn titles_follow_the_view() {
    let blog = blog();
    assert_eq!(
        title_for("/blog/2024/01/02/hello-world", &blog),
        "Hello World | Developer Sam Blog"
    );
    assert_eq!(title_for("/about", &blog), "About | Developer Sam");
    assert_eq!(title_for("/timeline/", &blog), "Timeline | Developer Sam");
    assert_eq!(title_for("/blog/old", &blog), "Developer Sam Blog");
    assert_eq!(title_for("/", &blog), "Developer Sam — Terminal");
}

#[test]
fn links_lead_to_views_the_web_or_nowhere() {
    let blog = blog();
    match link_target("https://WWW.DeveloperSam.com/about", &blog) {
        LinkTarget::View(path) => assert_eq!(path, "/about"),
        _ => panic!("expected a view"),
    }
    match link_target("/blog/2024/01/02/hello-world", &blog) {
        LinkTarget::View(path) => assert_eq!(path, "/blog/2024/01/02/hello-world"),
        _ => panic!("expected a view"),
    }
    match link_target("https://developersam.com", &blog) {
        LinkTarget::External(url) => assert_eq!(url, "https://developersam.com"),
        _ => panic!("the site root is no view of the app"),
    }
    match link_target("http://developersam.com.example.org/about", &blog) {
        LinkTarget::External(url) => assert_eq!(url, "http://developersam.com.example.org/about"),
        _ => panic!("expected the web"),
    }
    assert!(matches!(link_target("javascript:alert(1)", &blog), LinkTarget::Ignore));
    assert!(matches!(link_target("mailto:a@b.c", &blog), LinkTarget::Ignore));
}

#[test]
fn host_events_encode_as_lines() {
    assert_eq!(HostEvent::Open("https://a.b".to_string()).encode(), "open https://a.b");
    let route = HostEvent::Route {
        replace: true,
        path: "/about".to_string(),
        title: "About | Developer Sam".to_string(),
    };
    assert_eq!(route.encode(), "route replace /about\tAbout | Developer Sam");
    let push = HostEvent::Route { replace: false, path: "/".to_string(), title: "t".to_string() };
    assert_eq!(push.encode(), "route push /\tt");
}

#[test]
fn host_queue_is_first_in_first_out() {
    let mut host = HostState::new();
    assert_eq!(poll_host_event(&mut host), None);
    push_host_event(&mut host, HostEvent::Open("a".to_string()));
    push_host_event(&mut host, HostEvent::Open("b".to_string()));
    assert_eq!(poll_host_event(&mut host), Some(HostEvent::Open("a".to_string())));
    assert_eq!(poll_host_event(&mut host), Some(HostEvent::Open("b".to_string())));
    assert_eq!(poll_host_event(&mut host), None);
}

#[test]
fn routes_are_announced_once_and_first_replaces() {
    let blog = blog();
    let mut host = HostState::new();
    publish_route(&mut host, "/about".to_string(), &blog);
    publish_route(&mut host, "/about".to_string(), &blog);
    publish_route(&mut host, "/timeline".to_string(), &blog);
    assert_eq!(
        poll_host_event(&mut host),
        Some(HostEvent::Route {
            replace: true,
            path: "/about".to_string(),
            title: "About | Developer Sam".to_string()
        })
    );
    assert_eq!(
        poll_host_event(&mut host),
        Some(HostEvent::Route {
            replace: false,
            path: "/timeline".to_string(),
            title: "Timeline | Developer Sam".to_string()
        })
    );
    assert_eq!(poll_host_event(&mut host), None);
    reset_route_sync(&mut host);
    publish_route(&mut host, "/timeline".to_string(), &blog);
    match poll_host_event(&mut host) {
        Some(HostEvent::Route { replace, .. }) => assert!(replace),
        _ => panic!("a new session announces its view again"),
    }
}

#[test]
fn host_requests_are_taken_once() {
    let mut host = HostState::new();
    assert_eq!(take_pending_route(&mut host), None);
    request_route(&mut host, "/blog");
    request_route(&mut host, "/about");
    assert_eq!(take_pending_route(&mut host), Some("/about".to_string()));
    assert_eq!(take_pending_route(&mut host), None);
    assert!(!take_pending_quit(&mut host));
    request_quit(&mut host);
    assert!(take_pending_quit(&mut host));
    assert!(!take_pending_quit(&mut host));
}

#[test]
fn the_site_blog_is_named_developer_sam_blog() {
    let blog = Blog::site();
    assert_eq!(blog.blog_title().decrypt(), "Developer Sam Blog");
    assert_eq!(title_for("/about", &blog), "About | Developer Sam");
    assert_eq!(title_for("/timeline/", &blog), "Timeline | Developer Sam");
    assert_eq!(title_for("/blog", &blog), "Developer Sam Blog");
    assert_eq!(title_for("/blog/2099/01/01/nope", &blog), "Developer Sam Blog");
    assert_eq!(title_for("/", &blog), "Developer Sam — Terminal");
    assert_eq!(title_for("/budget", &blog), "Developer Sam — Terminal");
}

#[test]
fn a_local_post_url_opens_the_post_in_the_app() {
    let blog = blog();
    let local = &blog.posts[0];
    let url = local.url(&blog.blob);
    assert_eq!(url, "https://developersam.com/blog/2024/01/02/hello-world");
    match link_target(&url, &blog) {
        LinkTarget::View(path) => assert_eq!(path, local.path(&blog.blob)),
        _ => panic!("a local post's URL should open inside the app"),
    }
    let external = &blog.posts[1];
    assert_eq!(external.url(&blog.blob), "https://example.com/post");
    assert!(matches!(
        link_target(&external.url(&blog.blob), &blog),
        LinkTarget::External(link) if link == "https://example.com/post"
    ));
}

#[test]
fn the_timeline_scrolls_through_every_card() {
    let event = |detail: Option<&str>| TimelineEvent {
        title: encrypted_str("Job"),
        time: encrypted_str("2020"),
        image: None,
        category: Category::Work,
        detail: detail.map(encrypted_str),
        links: Vec::new(),
    };
    let events = vec![event(None), event(Some("short")), event(None)];
    // 4 rows bare; a one-row detail adds 2; six rows of artwork add 7.
    assert_eq!(timeline_row_count(&events, 80, &vec![0, 0, 6]), 4 + 6 + 11);
    assert_eq!(timeline_row_count(&Vec::new(), 80, &Vec::new()), 0);
}
