//! The text of the files in the site shell's home directory, as `cat` shows
//! them: the readme, the about page (the licence header, the samlang
//! program and the project's links), the contact links, the résumé, the
//! timeline, and each project's page. A file is a run of pieces, each with
//! the ink it is drawn in and, for a link, where it leads; the terminal's
//! colours and hyperlink sequences are the caller's.

use crate::data::{
    category_label, event_list_view, link_list_view, project_list_view, site_copyright,
    site_doc_links, site_projects, site_social_links, site_timeline, Category, EventView, Link,
    ProjectView,
};
use crate::highlight::{highlighted_lines, lines_view, program_lines, Token, TokenKind};
use crate::projects::std_lines;
use crate::text::{decimal, decimal_text, repeat_char, same_text, texts_of};
use vstd::prelude::*;
use vstd::string::*;

verus! {

broadcast use vstd::seq_lib::group_seq_properties;

/// How a piece of a file is drawn.
#[derive(Clone, Copy, PartialEq, Eq, Debug)]
pub enum Ink {
    Plain,
    Subtle,
    Text,
    Accent,
    AccentBold,
    Muted,
    /// A doc comment.
    Comment,
    /// A link inside a doc comment.
    CommentUnderlined,
    /// A token of the about page's program.
    Code(TokenKind),
    /// A timeline event's category tag, in the category's colour.
    Tag(Category),
}

/// A run of a file's text: its ink, and where it leads when it is a link.
pub struct Piece {
    pub text: String,
    pub ink: Ink,
    pub link: Option<String>,
}

/// A project's page: its id, its tagline and its links (name, URL).
pub struct ProjectPage {
    pub id: String,
    pub tagline: String,
    pub links: Vec<(String, String)>,
}

/// What the home directory's files are made of.
pub struct HomeContent {
    /// The copyright line of the licence header.
    pub copyright: String,
    /// The project's links (name, URL), tagged in the licence header.
    pub doc_links: Vec<(String, String)>,
    /// Where to find the author (name, URL).
    pub social_links: Vec<(String, String)>,
    /// The timeline's events: when, what, and its category.
    pub timeline: Vec<(String, String, Category)>,
    pub projects: Vec<ProjectPage>,
}

/// A piece as values.
pub type PieceView = (Seq<char>, Ink, Option<Seq<char>>);

/// A link list as values.
pub open spec fn links_view(links: Seq<(String, String)>) -> Seq<(Seq<char>, Seq<char>)> {
    links.map_values(|link: (String, String)| (link.0@, link.1@))
}

/// Timeline events as values.
pub open spec fn events_view(events: Seq<(String, String, Category)>) -> Seq<(Seq<char>, Seq<char>, Category)> {
    events.map_values(|e: (String, String, Category)| (e.0@, e.1@, e.2))
}

/// Project pages as values.
pub open spec fn pages_view(pages: Seq<ProjectPage>) -> Seq<(Seq<char>, Seq<char>, Seq<(Seq<char>, Seq<char>)>)> {
    pages.map_values(|p: ProjectPage| (p.id@, p.tagline@, links_view(p.links@)))
}

/// The projects' ids.
pub open spec fn page_ids(pages: Seq<ProjectPage>) -> Seq<Seq<char>> {
    pages.map_values(|p: ProjectPage| p.id@)
}

/// Where a piece leads, as values.
pub open spec fn link_view(link: Option<String>) -> Option<Seq<char>> {
    match link {
        Some(url) => Some(url@),
        None => None,
    }
}

/// Pieces as values.
pub open spec fn pieces_view(pieces: Seq<Piece>) -> Seq<PieceView> {
    pieces.map_values(|p: Piece| (p.text@, p.ink, link_view(p.link)))
}

/// Unlinked text in `ink`.
pub open spec fn inked(text: Seq<char>, ink: Ink) -> PieceView {
    (text, ink, None)
}

/// Text in `ink` leading to `url`.
pub open spec fn linked(text: Seq<char>, ink: Ink, url: Seq<char>) -> PieceView {
    (text, ink, Some(url))
}

/// `text` padded with spaces on the right to `width` characters.
pub open spec fn pad_right(text: Seq<char>, width: int) -> Seq<char> {
    if text.len() < width {
        text + Seq::new((width - text.len()) as nat, |_i: int| ' ')
    } else {
        text
    }
}

/// `text` padded with spaces on the left to `width` characters.
pub open spec fn pad_left(text: Seq<char>, width: int) -> Seq<char> {
    if text.len() < width {
        Seq::new((width - text.len()) as nat, |_i: int| ' ') + text
    } else {
        text
    }
}

/// The résumé's address.
pub const RESUME_URL: &'static str = "https://developersam.com/resume.pdf";

/// The readme.
pub open spec fn readme_pieces() -> Seq<PieceView> {
    seq![
        inked("Served by Rust, compiled to WASM"@, Ink::Subtle),
        inked("\n\n"@, Ink::Plain),
        inked("run dev-sam to launch the app, or explore:"@, Ink::Text),
        inked("\n"@, Ink::Plain),
        inked("  cat about.txt"@, Ink::Accent),
        inked("\n"@, Ink::Plain),
        inked("  ls projects"@, Ink::Accent),
        inked("\n"@, Ink::Plain),
        inked("  cat timeline.txt"@, Ink::Accent),
    ]
}

/// The licence header's tag line for each link: `@name` and the URL, both
/// leading to the URL.
pub open spec fn header_link_pieces(links: Seq<(Seq<char>, Seq<char>)>) -> Seq<PieceView>
    decreases links.len(),
{
    if links.len() == 0 {
        Seq::empty()
    } else {
        let (name, url) = links.last();
        header_link_pieces(links.drop_last()) + seq![
            linked(" * @"@ + name + " "@, Ink::Comment, url),
            linked(url, Ink::CommentUnderlined, url),
            inked("\n"@, Ink::Plain),
        ]
    }
}

/// The licence header: a doc comment with the copyright and a tag per link.
pub open spec fn header_pieces(copyright: Seq<char>, links: Seq<(Seq<char>, Seq<char>)>) -> Seq<PieceView> {
    seq![
        inked("/**"@, Ink::Comment),
        inked("\n"@, Ink::Plain),
        inked(" * "@ + copyright, Ink::Comment),
        inked("\n"@, Ink::Plain),
    ] + header_link_pieces(links) + seq![inked(" */"@, Ink::Comment), inked("\n"@, Ink::Plain)]
}

/// A highlighted line's tokens in their code inks.
pub open spec fn token_pieces(tokens: Seq<(Seq<char>, TokenKind)>) -> Seq<PieceView> {
    tokens.map_values(|t: (Seq<char>, TokenKind)| inked(t.0, Ink::Code(t.1)))
}

/// The program, a line of tokens and a line break at a time.
pub open spec fn program_pieces(lines: Seq<Seq<(Seq<char>, TokenKind)>>) -> Seq<PieceView>
    decreases lines.len(),
{
    if lines.len() == 0 {
        Seq::empty()
    } else {
        program_pieces(lines.drop_last()) + token_pieces(lines.last()) + seq![inked("\n"@, Ink::Plain)]
    }
}

/// The about page's closing list: `@name:` and the URL as a link.
pub open spec fn tag_pieces(links: Seq<(Seq<char>, Seq<char>)>) -> Seq<PieceView>
    decreases links.len(),
{
    if links.len() == 0 {
        Seq::empty()
    } else {
        let (name, url) = links.last();
        tag_pieces(links.drop_last()) + seq![
            inked("@"@ + name + ":"@, Ink::AccentBold),
            inked(" "@, Ink::Plain),
            linked(url, Ink::Plain, url),
            inked("\n"@, Ink::Plain),
        ]
    }
}

/// The about page: the licence header, the highlighted program, and the
/// project's links.
pub open spec fn about_pieces(copyright: Seq<char>, links: Seq<(Seq<char>, Seq<char>)>) -> Seq<PieceView> {
    header_pieces(copyright, links) + seq![inked("\n"@, Ink::Plain)] + program_pieces(
        highlighted_lines(std_lines(crate::data::ABOUT_PROGRAM@), false),
    ) + seq![inked("\n"@, Ink::Plain)] + tag_pieces(links)
}

/// A list of links with their names padded to `width`, each line opening
/// with `indent`.
pub open spec fn link_list_pieces(links: Seq<(Seq<char>, Seq<char>)>, indent: Seq<char>, width: int) -> Seq<PieceView>
    decreases links.len(),
{
    if links.len() == 0 {
        Seq::empty()
    } else {
        let (name, url) = links.last();
        link_list_pieces(links.drop_last(), indent, width) + seq![
            inked(indent, Ink::Plain),
            inked(pad_right(name, width), Ink::AccentBold),
            inked(" "@, Ink::Plain),
            linked(url, Ink::Plain, url),
            inked("\n"@, Ink::Plain),
        ]
    }
}

/// The résumé's stub.
pub open spec fn resume_pieces() -> Seq<PieceView> {
    seq![
        inked("resume.pdf: PDF document\n"@, Ink::Plain),
        inked("open:"@, Ink::Muted),
        inked(" "@, Ink::Plain),
        linked(RESUME_URL@, Ink::Plain, RESUME_URL@),
        inked("\n"@, Ink::Plain),
    ]
}

/// The timeline, one numbered line per event: its number and time muted,
/// its title, and its category tag.
pub open spec fn timeline_pieces(events: Seq<(Seq<char>, Seq<char>, Category)>) -> Seq<PieceView>
    decreases events.len(),
{
    if events.len() == 0 {
        Seq::empty()
    } else {
        let (time, title, category) = events.last();
        timeline_pieces(events.drop_last()) + seq![
            inked(pad_left(decimal(events.len()), 3) + "  "@ + pad_right(time, 15), Ink::Muted),
            inked(title, Ink::Text),
            inked(" ["@ + category_label(category) + "]"@, Ink::Tag(category)),
            inked("\n"@, Ink::Plain),
        ]
    }
}

/// A project's page: its id, its tagline, and its links.
pub open spec fn project_pieces(page: (Seq<char>, Seq<char>, Seq<(Seq<char>, Seq<char>)>)) -> Seq<PieceView> {
    seq![
        inked(page.0, Ink::AccentBold),
        inked("\n"@, Ink::Plain),
        inked(page.1, Ink::Subtle),
        inked("\n\n"@, Ink::Plain),
    ] + link_list_pieces(page.2, "  "@, 12)
}

/// The file at `path` under the home directory, or `None` when there is no
/// such file: a project's page is the first with that id.
pub open spec fn file_text_of(path: Seq<Seq<char>>, content: HomeContent) -> Option<Seq<PieceView>> {
    let links = links_view(content.doc_links@);
    if path.len() == 1 && path[0] == "readme.md"@ {
        Some(readme_pieces())
    } else if path.len() == 1 && path[0] == "about.txt"@ {
        Some(about_pieces(content.copyright@, links))
    } else if path.len() == 1 && path[0] == "contact.txt"@ {
        Some(link_list_pieces(links_view(content.social_links@), Seq::empty(), 10))
    } else if path.len() == 1 && path[0] == "resume.pdf"@ {
        Some(resume_pieces())
    } else if path.len() == 1 && path[0] == "timeline.txt"@ {
        Some(timeline_pieces(events_view(content.timeline@)))
    } else if path.len() == 2 && path[0] == "projects"@ {
        match page_ids(content.projects@).index_of_first(path[1]) {
            Some(i) => Some(project_pieces(pages_view(content.projects@)[i])),
            None => None,
        }
    } else {
        None
    }
}

/// Appends a piece.
fn push_piece(out: &mut Vec<Piece>, text: String, ink: Ink, link: Option<String>)
    ensures
        pieces_view(final(out)@) == pieces_view(old(out)@).push((text@, ink, link_view(link))),
{
    let ghost before = pieces_view(out@);
    let ghost piece = (text@, ink, link_view(link));
    out.push(Piece { text, ink, link });
    assert(pieces_view(out@) =~= before.push(piece));
}

/// Appends unlinked text.
fn push_text(out: &mut Vec<Piece>, text: &str, ink: Ink)
    ensures
        pieces_view(final(out)@) == pieces_view(old(out)@).push(inked(text@, ink)),
{
    push_piece(out, String::from_str(text), ink, None);
}

/// `text` padded with spaces on the right to `width` characters.
fn padded_right(text: &str, width: usize) -> (out: String)
    ensures
        out@ == pad_right(text@, width as int),
{
    let n = text.unicode_len();
    let mut out = String::from_str(text);
    if n < width {
        let spaces = repeat_char(' ', width - n);
        out.append(spaces.as_str());
        assert(out@ =~= pad_right(text@, width as int));
    }
    out
}

/// `text` padded with spaces on the left to `width` characters.
fn padded_left(text: &str, width: usize) -> (out: String)
    ensures
        out@ == pad_left(text@, width as int),
{
    let n = text.unicode_len();
    if n < width {
        let mut out = repeat_char(' ', width - n);
        out.append(text);
        assert(out@ =~= pad_left(text@, width as int));
        out
    } else {
        String::from_str(text)
    }
}

/// A list of links with their names padded to `width`, each line opening
/// with `indent`.
fn push_link_list(out: &mut Vec<Piece>, links: &Vec<(String, String)>, indent: &str, width: usize)
    ensures
        pieces_view(final(out)@) == pieces_view(old(out)@) + link_list_pieces(links_view(links@), indent@, width as int),
{
    let ghost start = pieces_view(out@);
    let ghost all = links_view(links@);
    let mut i: usize = 0;
    assert(all.take(0) =~= Seq::<(Seq<char>, Seq<char>)>::empty());
    assert(start + Seq::<PieceView>::empty() =~= start);
    while i < links.len()
        invariant
            all == links_view(links@),
            i <= links@.len(),
            pieces_view(out@) == start + link_list_pieces(all.take(i as int), indent@, width as int),
        decreases links.len() - i,
    {
        let (name, url) = (&links[i].0, &links[i].1);
        assert(all.take(i + 1).drop_last() =~= all.take(i as int));
        assert(all.take(i + 1).last() == (name@, url@));
        let ghost mid = pieces_view(out@);
        push_text(out, indent, Ink::Plain);
        push_piece(out, padded_right(name.as_str(), width), Ink::AccentBold, None);
        push_text(out, " ", Ink::Plain);
        push_piece(out, url.clone(), Ink::Plain, Some(url.clone()));
        push_text(out, "\n", Ink::Plain);
        assert(pieces_view(out@) =~= start + link_list_pieces(all.take(i + 1), indent@, width as int));
        i = i + 1;
    }
    assert(all.take(i as int) =~= all);
}

/// The licence header's tag lines.
fn push_header_links(out: &mut Vec<Piece>, links: &Vec<(String, String)>)
    ensures
        pieces_view(final(out)@) == pieces_view(old(out)@) + header_link_pieces(links_view(links@)),
{
    let ghost start = pieces_view(out@);
    let ghost all = links_view(links@);
    let mut i: usize = 0;
    assert(all.take(0) =~= Seq::<(Seq<char>, Seq<char>)>::empty());
    assert(start + Seq::<PieceView>::empty() =~= start);
    while i < links.len()
        invariant
            all == links_view(links@),
            i <= links@.len(),
            pieces_view(out@) == start + header_link_pieces(all.take(i as int)),
        decreases links.len() - i,
    {
        let (name, url) = (&links[i].0, &links[i].1);
        assert(all.take(i + 1).drop_last() =~= all.take(i as int));
        assert(all.take(i + 1).last() == (name@, url@));
        let mut tag = String::from_str(" * @");
        tag.append(name.as_str());
        tag.append(" ");
        push_piece(out, tag, Ink::Comment, Some(url.clone()));
        push_piece(out, url.clone(), Ink::CommentUnderlined, Some(url.clone()));
        push_text(out, "\n", Ink::Plain);
        assert(pieces_view(out@) =~= start + header_link_pieces(all.take(i + 1)));
        i = i + 1;
    }
    assert(all.take(i as int) =~= all);
}

/// The about page's closing list of links.
fn push_tags(out: &mut Vec<Piece>, links: &Vec<(String, String)>)
    ensures
        pieces_view(final(out)@) == pieces_view(old(out)@) + tag_pieces(links_view(links@)),
{
    let ghost start = pieces_view(out@);
    let ghost all = links_view(links@);
    let mut i: usize = 0;
    assert(all.take(0) =~= Seq::<(Seq<char>, Seq<char>)>::empty());
    assert(start + Seq::<PieceView>::empty() =~= start);
    while i < links.len()
        invariant
            all == links_view(links@),
            i <= links@.len(),
            pieces_view(out@) == start + tag_pieces(all.take(i as int)),
        decreases links.len() - i,
    {
        let (name, url) = (&links[i].0, &links[i].1);
        assert(all.take(i + 1).drop_last() =~= all.take(i as int));
        assert(all.take(i + 1).last() == (name@, url@));
        let mut tag = String::from_str("@");
        tag.append(name.as_str());
        tag.append(":");
        push_piece(out, tag, Ink::AccentBold, None);
        push_text(out, " ", Ink::Plain);
        push_piece(out, url.clone(), Ink::Plain, Some(url.clone()));
        push_text(out, "\n", Ink::Plain);
        assert(pieces_view(out@) =~= start + tag_pieces(all.take(i + 1)));
        i = i + 1;
    }
    assert(all.take(i as int) =~= all);
}

/// A highlighted line's tokens.
fn push_tokens(out: &mut Vec<Piece>, tokens: &Vec<Token>)
    ensures
        pieces_view(final(out)@) == pieces_view(old(out)@) + token_pieces(crate::highlight::tokens_view(tokens@)),
{
    let ghost start = pieces_view(out@);
    let ghost all = crate::highlight::tokens_view(tokens@);
    let mut i: usize = 0;
    assert(start + token_pieces(all.take(0)) =~= start);
    while i < tokens.len()
        invariant
            all == crate::highlight::tokens_view(tokens@),
            i <= tokens@.len(),
            pieces_view(out@) == start + token_pieces(all.take(i as int)),
        decreases tokens.len() - i,
    {
        push_piece(out, tokens[i].text.clone(), Ink::Code(tokens[i].kind), None);
        assert(token_pieces(all.take(i + 1)) =~= token_pieces(all.take(i as int)).push(
            inked(tokens@[i as int].text@, Ink::Code(tokens@[i as int].kind)),
        ));
        assert(pieces_view(out@) =~= start + token_pieces(all.take(i + 1)));
        i = i + 1;
    }
    assert(all.take(i as int) =~= all);
}

/// The highlighted program.
fn push_program(out: &mut Vec<Piece>)
    ensures
        pieces_view(final(out)@) == pieces_view(old(out)@) + program_pieces(
            highlighted_lines(std_lines(crate::data::ABOUT_PROGRAM@), false),
        ),
{
    let lines = program_lines();
    let ghost start = pieces_view(out@);
    let ghost all = lines_view(lines@);
    let mut i: usize = 0;
    assert(all.take(0) =~= Seq::<Seq<(Seq<char>, TokenKind)>>::empty());
    assert(start + Seq::<PieceView>::empty() =~= start);
    while i < lines.len()
        invariant
            all == lines_view(lines@),
            i <= lines@.len(),
            pieces_view(out@) == start + program_pieces(all.take(i as int)),
        decreases lines.len() - i,
    {
        assert(all.take(i + 1).drop_last() =~= all.take(i as int));
        assert(all.take(i + 1).last() == crate::highlight::tokens_view(lines@[i as int]@));
        push_tokens(out, &lines[i]);
        push_text(out, "\n", Ink::Plain);
        assert(pieces_view(out@) =~= start + program_pieces(all.take(i + 1)));
        i = i + 1;
    }
    assert(all.take(i as int) =~= all);
}

/// The timeline's numbered lines.
fn push_timeline(out: &mut Vec<Piece>, events: &Vec<(String, String, Category)>)
    requires
        events@.len() < u64::MAX,
    ensures
        pieces_view(final(out)@) == pieces_view(old(out)@) + timeline_pieces(events_view(events@)),
{
    let ghost start = pieces_view(out@);
    let ghost all = events_view(events@);
    let mut i: usize = 0;
    assert(all.take(0) =~= Seq::<(Seq<char>, Seq<char>, Category)>::empty());
    assert(start + Seq::<PieceView>::empty() =~= start);
    while i < events.len()
        invariant
            all == events_view(events@),
            i <= events@.len(),
            events@.len() < u64::MAX,
            pieces_view(out@) == start + timeline_pieces(all.take(i as int)),
        decreases events.len() - i,
    {
        let (time, title, category) = (&events[i].0, &events[i].1, events[i].2);
        assert(all.take(i + 1).drop_last() =~= all.take(i as int));
        assert(all.take(i + 1).last() == (time@, title@, category));
        let number = decimal_text((i + 1) as u64);
        let mut head = padded_left(number.as_str(), 3);
        head.append("  ");
        head.append(padded_right(time.as_str(), 15).as_str());
        push_piece(out, head, Ink::Muted, None);
        push_piece(out, title.clone(), Ink::Text, None);
        let mut tag = String::from_str(" [");
        tag.append(category.label().decrypt().as_str());
        tag.append("]");
        push_piece(out, tag, Ink::Tag(category), None);
        push_text(out, "\n", Ink::Plain);
        assert(pieces_view(out@) =~= start + timeline_pieces(all.take(i + 1)));
        i = i + 1;
    }
    assert(all.take(i as int) =~= all);
}

/// Where the project with id `name` is, the first such.
fn find_page(pages: &Vec<ProjectPage>, name: &str) -> (at: Option<usize>)
    ensures
        match at {
            Some(i) => page_ids(pages@).index_of_first(name@) == Some(i as int),
            None => page_ids(pages@).index_of_first(name@) is None,
        },
{
    let ghost ids = page_ids(pages@);
    proof {
        ids.index_of_first_ensures(name@);
    }
    let mut i: usize = 0;
    while i < pages.len()
        invariant
            ids == page_ids(pages@),
            i <= pages@.len(),
            forall|j: int| 0 <= j < i ==> ids[j] != name@,
        decreases pages.len() - i,
    {
        if same_text(pages[i].id.as_str(), name) {
            proof {
                ids.index_of_first_ensures(name@);
                assert(ids[i as int] == name@);
                assert(ids.contains(name@));
                let k = ids.index_of_first(name@).unwrap();
                if k < i {
                    assert(ids[k] != name@);
                }
                if k > i {
                    assert(ids[i as int] != name@);
                }
            }
            return Some(i);
        }
        i = i + 1;
    }
    proof {
        ids.index_of_first_ensures(name@);
        if ids.contains(name@) {
            let k = ids.index_of_first(name@).unwrap();
            assert(ids[k] == name@);
        }
    }
    None
}

/// The text of the file at `path` under the home directory, as `cat`
/// shows it; `None` when there is no such file.
pub fn file_text(path: &Vec<String>, content: &HomeContent) -> (text: Option<Vec<Piece>>)
    requires
        content.timeline@.len() < u64::MAX,
    ensures
        text is Some <==> crate::shell::is_file(texts_of(path@), page_ids(content.projects@)),
        match text {
            Some(pieces) => file_text_of(texts_of(path@), *content) == Some(pieces_view(pieces@)),
            None => file_text_of(texts_of(path@), *content) is None,
        },
{
    let ghost p = texts_of(path@);
    let mut out: Vec<Piece> = Vec::new();
    assert(pieces_view(out@) =~= Seq::<PieceView>::empty());
    if path.len() == 1 {
        let name = path[0].as_str();
        assert(p[0] == name@);
        proof {
            reveal_strlit("readme.md");
            reveal_strlit("about.txt");
            reveal_strlit("contact.txt");
            reveal_strlit("resume.pdf");
            reveal_strlit("timeline.txt");
            assert(crate::shell::home_files() =~= seq![
                "readme.md"@,
                "about.txt"@,
                "contact.txt"@,
                "resume.pdf"@,
                "timeline.txt"@,
            ]);
        }
        if same_text(name, "readme.md") {
            push_text(&mut out, "Served by Rust, compiled to WASM", Ink::Subtle);
            push_text(&mut out, "\n\n", Ink::Plain);
            push_text(&mut out, "run dev-sam to launch the app, or explore:", Ink::Text);
            push_text(&mut out, "\n", Ink::Plain);
            push_text(&mut out, "  cat about.txt", Ink::Accent);
            push_text(&mut out, "\n", Ink::Plain);
            push_text(&mut out, "  ls projects", Ink::Accent);
            push_text(&mut out, "\n", Ink::Plain);
            push_text(&mut out, "  cat timeline.txt", Ink::Accent);
            assert(pieces_view(out@) =~= readme_pieces());
            assert(crate::shell::home_files()[0] == p[0]);
            return Some(out);
        }
        if same_text(name, "about.txt") {
            push_text(&mut out, "/**", Ink::Comment);
            push_text(&mut out, "\n", Ink::Plain);
            let mut line = String::from_str(" * ");
            line.append(content.copyright.as_str());
            push_piece(&mut out, line, Ink::Comment, None);
            push_text(&mut out, "\n", Ink::Plain);
            push_header_links(&mut out, &content.doc_links);
            push_text(&mut out, " */", Ink::Comment);
            push_text(&mut out, "\n", Ink::Plain);
            assert(pieces_view(out@) =~= header_pieces(content.copyright@, links_view(content.doc_links@)));
            push_text(&mut out, "\n", Ink::Plain);
            push_program(&mut out);
            push_text(&mut out, "\n", Ink::Plain);
            push_tags(&mut out, &content.doc_links);
            assert(pieces_view(out@) =~= about_pieces(content.copyright@, links_view(content.doc_links@)));
            assert(crate::shell::home_files()[1] == p[0]);
            return Some(out);
        }
        if same_text(name, "contact.txt") {
            push_link_list(&mut out, &content.social_links, "", 10);
            assert(Seq::<PieceView>::empty() + link_list_pieces(links_view(content.social_links@), ""@, 10)
                =~= link_list_pieces(links_view(content.social_links@), ""@, 10));
            proof {
                reveal_strlit("");
            }
            assert(""@ =~= Seq::<char>::empty());
            assert(crate::shell::home_files()[2] == p[0]);
            return Some(out);
        }
        if same_text(name, "resume.pdf") {
            push_text(&mut out, "resume.pdf: PDF document\n", Ink::Plain);
            push_text(&mut out, "open:", Ink::Muted);
            push_text(&mut out, " ", Ink::Plain);
            push_piece(&mut out, String::from_str(RESUME_URL), Ink::Plain, Some(String::from_str(RESUME_URL)));
            push_text(&mut out, "\n", Ink::Plain);
            assert(pieces_view(out@) =~= resume_pieces());
            assert(crate::shell::home_files()[3] == p[0]);
            return Some(out);
        }
        if same_text(name, "timeline.txt") {
            push_timeline(&mut out, &content.timeline);
            assert(Seq::<PieceView>::empty() + timeline_pieces(events_view(content.timeline@))
                =~= timeline_pieces(events_view(content.timeline@)));
            assert(crate::shell::home_files()[4] == p[0]);
            return Some(out);
        }
        return None;
    }
    if path.len() == 2 && same_text(path[0].as_str(), "projects") {
        assert(p[0] == path@[0]@ && p[1] == path@[1]@);
        match find_page(&content.projects, path[1].as_str()) {
            Some(i) => {
                proof {
                    page_ids(content.projects@).index_of_first_ensures(p[1]);
                }
                let page = &content.projects[i];
                assert(pages_view(content.projects@)[i as int] == (page.id@, page.tagline@, links_view(page.links@)));
                push_piece(&mut out, page.id.clone(), Ink::AccentBold, None);
                push_text(&mut out, "\n", Ink::Plain);
                push_piece(&mut out, page.tagline.clone(), Ink::Subtle, None);
                push_text(&mut out, "\n\n", Ink::Plain);
                push_link_list(&mut out, &page.links, "  ", 12);
                assert(pieces_view(out@) =~= project_pieces(pages_view(content.projects@)[i as int]));
                proof {
                    page_ids(content.projects@).index_of_first_ensures(p[1]);
                }
                return Some(out);
            },
            None => {
                proof {
                    page_ids(content.projects@).index_of_first_ensures(p[1]);
                }
                return None;
            },
        }
    }
    None
}

/// `links` as plain (name, URL) pairs.
fn plain_links(links: &Vec<Link>) -> (out: Vec<(String, String)>)
    ensures
        links_view(out@) == link_list_view(links@),
{
    let mut out: Vec<(String, String)> = Vec::new();
    let mut i: usize = 0;
    while i < links.len()
        invariant
            i <= links@.len(),
            out@.len() == i,
            forall|j: int|
                0 <= j < i ==> (#[trigger] out@[j]).0@ == links@[j].name@ && out@[j].1@ == links@[j].url@,
        decreases links.len() - i,
    {
        out.push((links[i].name.decrypt(), links[i].url.decrypt()));
        i = i + 1;
    }
    assert(links_view(out@) =~= link_list_view(links@));
    out
}

/// The timeline's events as the shell lists them: when, what, and category.
pub open spec fn shell_events(events: Seq<EventView>) -> Seq<(Seq<char>, Seq<char>, Category)> {
    events.map_values(|e: EventView| (e.1, e.0, e.3))
}

/// The projects as the shell's pages show them: id, tagline and links.
pub open spec fn shell_pages(projects: Seq<ProjectView>) -> Seq<(Seq<char>, Seq<char>, Seq<(Seq<char>, Seq<char>)>)> {
    projects.map_values(|p: ProjectView| (p.0, p.2, p.3))
}

/// The home directory's content: the site's own copy.
pub fn site_content() -> (content: HomeContent)
    ensures
        content.copyright@ == site_copyright(),
        links_view(content.doc_links@) == site_doc_links(),
        links_view(content.social_links@) == site_social_links(),
        events_view(content.timeline@) == shell_events(site_timeline()),
        pages_view(content.projects@) == shell_pages(site_projects()),
{
    let copyright = crate::data::copyright().decrypt();
    let doc_links = plain_links(&crate::data::about_doc_links());
    let social_links = plain_links(&crate::data::social_links());
    let events = crate::data::timeline();
    let mut timeline: Vec<(String, String, Category)> = Vec::new();
    let mut i: usize = 0;
    while i < events.len()
        invariant
            i <= events@.len(),
            timeline@.len() == i,
            forall|j: int|
                0 <= j < i ==> (#[trigger] timeline@[j]).0@ == events@[j].time@ && timeline@[j].1@
                    == events@[j].title@ && timeline@[j].2 == events@[j].category,
        decreases events.len() - i,
    {
        timeline.push((events[i].time.decrypt(), events[i].title.decrypt(), events[i].category));
        i = i + 1;
    }
    assert(events_view(timeline@) =~= shell_events(event_list_view(events@)));
    let projects = crate::data::projects();
    let mut pages: Vec<ProjectPage> = Vec::new();
    let mut k: usize = 0;
    while k < projects.len()
        invariant
            k <= projects@.len(),
            pages@.len() == k,
            forall|j: int|
                0 <= j < k ==> (#[trigger] pages@[j]).id@ == projects@[j].id@ && pages@[j].tagline@
                    == projects@[j].tagline@ && links_view(pages@[j].links@) == link_list_view(
                    projects@[j].links@,
                ),
        decreases projects.len() - k,
    {
        let links = plain_links(&projects[k].links);
        pages.push(ProjectPage { id: projects[k].id.decrypt(), tagline: projects[k].tagline.decrypt(), links });
        k = k + 1;
    }
    assert(pages_view(pages@) =~= shell_pages(project_list_view(projects@)));
    HomeContent { copyright, doc_links, social_links, timeline, projects: pages }
}

} // verus!
