use sam_toolkit::data::{about_doc_links, copyright, projects, social_links, timeline};
use sam_toolkit::home::site_content;
use sam_toolkit::data::Category;
use sam_toolkit::home::{file_text, HomeContent, Ink, Piece, ProjectPage};

fn content() -> HomeContent {
    HomeContent {
        copyright: "Copyright (C) 2015-2026 Developer Sam.".to_string(),
        doc_links: vec![("demo".to_string(), "https://samlang.io/demo".to_string())],
        social_links: vec![("GitHub".to_string(), "https://github.com/SamChou19815".to_string())],
        timeline: vec![
            ("2015".to_string(), "Started".to_string(), Category::Milestone),
            ("Sep 2016".to_string(), "Cornell".to_string(), Category::Education),
        ],
        projects: vec![ProjectPage {
            id: "samlang".to_string(),
            tagline: "A language".to_string(),
            links: vec![("Docs".to_string(), "https://samlang.io".to_string())],
        }],
    }
}

fn path(parts: &[&str]) -> Vec<String> {
    parts.iter().map(|p| p.to_string()).collect()
}

fn text(pieces: &[Piece]) -> String {
    pieces.iter().map(|p| p.text.as_str()).collect()
}

#[test]
fn readme_points_at_the_rest() {
    let pieces = file_text(&path(&["readme.md"]), &content()).unwrap();
    assert_eq!(
        text(&pieces),
        "Served by Rust, compiled to WASM\n\nrun dev-sam to launch the app, or explore:\n  cat about.txt\n  ls projects\n  cat timeline.txt"
    );
    assert_eq!(pieces[0].ink, Ink::Subtle);
    assert_eq!(pieces[4].ink, Ink::Accent);
}

#[test]
fn contact_pads_names_and_links_urls() {
    let pieces = file_text(&path(&["contact.txt"]), &content()).unwrap();
    assert_eq!(text(&pieces), "GitHub     https://github.com/SamChou19815\n");
    let url = pieces.iter().find(|p| p.link.is_some()).unwrap();
    assert_eq!(url.link.as_deref(), Some("https://github.com/SamChou19815"));
}

#[test]
fn timeline_numbers_each_event() {
    let pieces = file_text(&path(&["timeline.txt"]), &content()).unwrap();
    assert_eq!(
        text(&pieces),
        "  1  2015           Started [milestone]\n  2  Sep 2016       Cornell [education]\n"
    );
    assert_eq!(pieces[2].ink, Ink::Tag(Category::Milestone));
}

#[test]
fn project_pages_are_found_by_id() {
    let pieces = file_text(&path(&["projects", "samlang"]), &content()).unwrap();
    assert_eq!(text(&pieces), "samlang\nA language\n\n  Docs         https://samlang.io\n");
    assert!(file_text(&path(&["projects", "nope"]), &content()).is_none());
    assert!(file_text(&path(&["nope.txt"]), &content()).is_none());
    assert!(file_text(&path(&[]), &content()).is_none());
}

#[test]
fn about_holds_the_header_the_program_and_the_links() {
    let pieces = file_text(&path(&["about.txt"]), &content()).unwrap();
    let all = text(&pieces);
    assert!(all.starts_with("/**\n * Copyright (C) 2015-2026 Developer Sam.\n * @demo https://samlang.io/demo\n */\n\n"));
    assert!(all.ends_with("\n\n@demo: https://samlang.io/demo\n"));
    assert!(pieces.iter().any(|p| matches!(p.ink, Ink::Code(_))));
}

#[test]
fn resume_links_the_pdf() {
    let pieces = file_text(&path(&["resume.pdf"]), &content()).unwrap();
    assert_eq!(text(&pieces), "resume.pdf: PDF document\nopen: https://developersam.com/resume.pdf\n");
}

#[test]
fn the_site_copy_fills_the_home_directory() {
    let content = site_content();
    assert_eq!(content.copyright, "Copyright (C) 2015-2026 Developer Sam.");
    assert_eq!(content.doc_links.len(), 5);
    assert_eq!(content.doc_links[0], ("demo".to_string(), "https://samlang.io/demo".to_string()));
    assert_eq!(content.social_links.len(), 4);
    assert_eq!(content.social_links[3], ("Resume".to_string(), "https://developersam.com/resume.pdf".to_string()));
    assert_eq!(content.timeline.len(), 28);
    assert_eq!(
        content.timeline[0],
        ("August 2026".to_string(), "Became a Canadian permanent resident".to_string(), Category::Milestone)
    );
    assert_eq!(content.projects.len(), 7);
    assert_eq!(content.projects[0].id, "samlang");
    assert_eq!(content.projects[0].links[1], ("Docs".to_string(), "https://samlang.io".to_string()));
}

#[test]
fn the_site_timeline_keeps_its_artwork_and_links() {
    let events = timeline();
    assert_eq!(events[1].title.decrypt(), "Facebook SWE");
    assert_eq!(events[1].image.as_ref().map(|i| i.decrypt()), Some("/timeline/flow.webp".to_string()));
    assert_eq!(events[1].links[0].url.decrypt(), "https://flow.org");
    assert!(events[3].image.is_none());
    assert_eq!(copyright().decrypt(), "Copyright (C) 2015-2026 Developer Sam.");
    assert_eq!(about_doc_links()[4].name.decrypt(), "resume");
    assert_eq!(social_links()[0].url.decrypt(), "https://github.com/SamChou19815");
    assert_eq!(projects()[6].id.decrypt(), "sampl");
}
