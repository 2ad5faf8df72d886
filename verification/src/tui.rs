//! The site's terminal app, apart from its drawing: how wide its columns
//! are, how tall its cards are, which view a site path names, what the
//! document is called there, and the messages queued for the browser host.

use crate::data::{Link, TimelineEvent};
use crate::posts::{run_text, Blog};
use crate::text::{
    ascii_lower, has_prefix, has_prefix_ignore_case, same_text, starts_with, starts_with_ignore_case,
    strip_prefix_ignore_case,
};
use vstd::arithmetic::div_mod::{lemma_div_is_ordered_by_denominator, lemma_fundamental_div_mod};
use std::collections::VecDeque;
use vstd::prelude::*;
use vstd::string::*;

verus! {

pub const TAB_COUNT: usize = 3;

pub const ABOUT_TAB: usize = 0;

pub const TIMELINE_TAB: usize = 1;

pub const BLOG_TAB: usize = 2;

/// Rows the wheel moves at a time.
pub const WHEEL_ROWS: usize = 3;

/// Rows one blog card occupies: the blank separator above it, then its box
/// of top border, title, date and bottom border.
pub const POST_CARD_ROWS: usize = 5;

/// Rows the whole blog index occupies: one card per post.
pub fn blog_rows(blog: &Blog) -> (rows: usize)
    requires
        blog.posts@.len() * 5 <= usize::MAX,
    ensures
        rows == blog.posts@.len() * 5,
{
    blog.posts.len() * POST_CARD_ROWS
}

/// A key the app reacts to.
#[derive(Clone, Copy, PartialEq, Eq, Debug)]
pub enum Key {
    Up,
    Down,
    Left,
    Right,
    Enter,
    Esc,
    Tab,
    BackTab,
    Backspace,
    PageUp,
    PageDown,
    Home,
    End,
    Delete,
    Char(char),
}

/// The modifier keys held with a key.
#[derive(Clone, Copy, Default, PartialEq, Eq, Debug)]
pub struct Mods {
    pub ctrl: bool,
    pub shift: bool,
    pub alt: bool,
}

/// A mouse event the app reacts to.
#[derive(Clone, Copy, PartialEq, Eq, Debug)]
pub enum MouseEv {
    Click { col: u16, row: u16 },
    ScrollUp,
    ScrollDown,
}

/// One input to the app.
#[derive(Clone, Copy, Debug)]
pub enum Input {
    Key { key: Key, mods: Mods },
    Mouse(MouseEv),
}

/// A side effect requested by the app (opening a link).
#[derive(Clone, PartialEq, Eq, Debug)]
pub enum Action {
    OpenUrl(String),
}

/// A dialog over the content pane, with how far its body is scrolled.
#[derive(Clone, PartialEq, Eq, Debug)]
pub enum Modal {
    Timeline { event: usize, scroll: usize },
    Help { scroll: usize },
}

/// An open post, filling the content pane, with the rows of it scrolled
/// past the top of the body.
#[derive(Clone, PartialEq, Eq, Debug)]
pub struct Reader {
    pub post: usize,
    pub scroll: usize,
}

/// Width assumed before the first resize event tells the real one.
const ASSUMED_COLS: u16 = 80;

/// The widest a centered column gets.
const MAX_COLUMN_COLS: usize = 88;

/// The cells a timeline card's rail takes before its body starts.
const GUTTER_COLS: usize = 3;

/// The air a card keeps inside its own left and right edges.
const CARD_PAD_COLS: usize = 1;

/// Width of a centered column inside the pane's border and padding: the
/// terminal's width (80 before it is known) less four, kept within 12..=88.
pub open spec fn column_cols(cols: u16) -> int {
    let width: int = if cols == 0 { 80 } else { cols as int };
    let inner: int = if width >= 4 { width - 4 } else { 0 };
    if inner < 12 {
        12
    } else if inner > 88 {
        88
    } else {
        inner
    }
}

/// Usable width inside a timeline card's text column.
pub open spec fn content_cols(cols: u16) -> int {
    let rest = column_cols(cols) - 5;
    if rest < 8 {
        8
    } else {
        rest
    }
}

/// Text width inside a blog card.
pub open spec fn blog_text_cols(cols: u16) -> int {
    let rest = column_cols(cols) - 4;
    if rest < 8 {
        8
    } else {
        rest
    }
}

fn column_width(cols: u16) -> (width: usize)
    ensures
        width == column_cols(cols),
{
    let cols = if cols == 0 { ASSUMED_COLS } else { cols };
    let inner = (cols as usize).saturating_sub(4);
    if inner < 12 {
        12
    } else if inner > MAX_COLUMN_COLS {
        MAX_COLUMN_COLS
    } else {
        inner
    }
}

/// Width of the timeline's centered column.
pub fn timeline_column_width(cols: u16) -> (width: usize)
    ensures
        width == column_cols(cols),
{
    column_width(cols)
}

/// Usable width inside a card's text column: the column, less the card's
/// padding and its rail, and never under 8.
pub fn content_width(cols: u16) -> (width: usize)
    ensures
        width == content_cols(cols),
{
    let rest = timeline_column_width(cols).saturating_sub(GUTTER_COLS + 2 * CARD_PAD_COLS);
    if rest < 8 {
        8
    } else {
        rest
    }
}

/// Width of the blog's centered column.
pub fn blog_column_width(cols: u16) -> (width: usize)
    ensures
        width == column_cols(cols),
{
    column_width(cols)
}

/// Text width inside a blog card: the column, less the card's border and
/// padding, and never under 8.
pub fn blog_text_width(cols: u16) -> (width: usize)
    ensures
        width == blog_text_cols(cols),
{
    let rest = blog_column_width(cols).saturating_sub(4);
    if rest < 8 {
        8
    } else {
        rest
    }
}

/// Rows `len` characters occupy once wrapped into `width` columns (a width
/// of 0 counts as 1): the quotient rounded up, and at least one row.
pub open spec fn wrapped_row_count(len: int, width: int) -> int {
    let w = if width < 1 { 1 } else { width };
    let rows = if len % w == 0 { len / w } else { len / w + 1 };
    if rows < 1 {
        1
    } else {
        rows
    }
}

/// Rows a string occupies once wrapped into `width` columns.
fn wrapped_rows(text: &str, width: usize) -> (rows: usize)
    ensures
        rows == wrapped_row_count(text@.len() as int, width as int),
        width >= 8 ==> rows <= usize::MAX / 8 + 1,
{
    let n = text.unicode_len();
    let w: usize = if width == 0 { 1 } else { width };
    let quotient = n / w;
    let rows = if n % w == 0 {
        quotient
    } else {
        proof {
            lemma_fundamental_div_mod(n as int, w as int);
            assert(w * quotient < n) by (nonlinear_arith)
                requires
                    w * quotient + n % w == n,
                    n % w != 0,
                    n % w >= 0,
            ;
            assert(quotient < n) by (nonlinear_arith)
                requires
                    w * quotient < n,
                    w >= 1,
                    quotient >= 0,
            ;
        }
        quotient + 1
    };
    proof {
        if width >= 8 {
            lemma_wrapped_rows_bound(n as int, width as int);
        }
    }
    if rows < 1 {
        1
    } else {
        rows
    }
}

/// Wrapping into at least 8 columns takes at most `len / 8 + 1` rows.
proof fn lemma_wrapped_rows_bound(len: int, width: int)
    requires
        0 <= len,
        8 <= width,
    ensures
        wrapped_row_count(len, width) <= len / 8 + 1,
{
    lemma_div_is_ordered_by_denominator(len, 8, width);
}

/// What `str::to_uppercase` gives for `text`.
pub uninterp spec fn uppercase_of(text: Seq<char>) -> Seq<char>;

/// Calls `str::to_uppercase`, which maps each character to its Unicode upper
/// case (one character may become several). The contract only names the
/// result; the case tables are not restated here.
#[verifier::external_body]
pub(crate) fn uppercased(text: &str) -> (upper: String)
    ensures
        upper@ == uppercase_of(text@),
{
    text.to_uppercase()
}

/// The button row of a card as it is drawn: each link's name in upper case,
/// with a space on either side.
pub open spec fn button_row(links: Seq<Link>) -> Seq<char>
    decreases links.len(),
{
    if links.len() == 0 {
        Seq::empty()
    } else {
        button_row(links.drop_last()) + seq![' '] + uppercase_of(links.last().name@) + seq![' ']
    }
}

/// The button row as it is rendered, for width math.
fn link_row_label(links: &Vec<Link>) -> (label: String)
    ensures
        label@ == button_row(links@),
{
    let mut label = String::new();
    let mut i: usize = 0;
    while i < links.len()
        invariant
            i <= links@.len(),
            label@ == button_row(links@.take(i as int)),
        decreases links.len() - i,
    {
        let name = links[i].name.decrypt();
        let upper = uppercased(name.as_str());
        let ghost before = label@;
        label.append(" ");
        label.append(upper.as_str());
        label.append(" ");
        proof {
            reveal_strlit(" ");
            let next = links@.take(i + 1);
            assert(next.drop_last() =~= links@.take(i as int));
            assert(next.last() == links@[i as int]);
            assert(label@ =~= before + seq![' '] + uppercase_of(next.last().name@) + seq![' ']);
        }
        i = i + 1;
    }
    assert(links@.take(links@.len() as int) =~= links@);
    label
}

/// Rows a section of a card costs: its own rows and the blank rail row before
/// it, or nothing when it is left out.
pub open spec fn section_rows(rows: int) -> int {
    if rows > 0 {
        rows + 1
    } else {
        0
    }
}

/// Rows of a timeline card whose artwork takes `image_rows`: the blank row
/// that opens it, the title, the time, then the artwork, the wrapped detail
/// and the wrapped button row, each behind a blank row of its own, and the
/// blank row that closes it.
pub open spec fn card_rows(event: TimelineEvent, cols: u16, image_rows: int) -> int {
    let inner = content_cols(cols);
    let detail = match event.detail {
        Some(detail) => wrapped_row_count(detail@.len() as int, inner),
        None => 0,
    };
    let links = if event.links@.len() == 0 {
        0
    } else {
        wrapped_row_count(button_row(event.links@).len() as int, inner)
    };
    4 + section_rows(image_rows) + section_rows(detail) + section_rows(links)
}

/// Rows of a timeline card, given the rows its artwork takes at this width.
pub fn card_height(event: &TimelineEvent, cols: u16, image_rows: usize) -> (rows: usize)
    requires
        image_rows <= usize::MAX / 2,
    ensures
        rows == card_rows(*event, cols, image_rows as int),
{
    let inner = content_width(cols);
    let detail: usize = match &event.detail {
        Some(detail) => wrapped_rows(detail.decrypt().as_str(), inner),
        None => 0,
    };
    let links: usize = if event.links.len() == 0 {
        0
    } else {
        wrapped_rows(link_row_label(&event.links).as_str(), inner)
    };
    let mut body: usize = 0;
    if image_rows > 0 {
        body = body + image_rows + 1;
    }
    if detail > 0 {
        body = body + detail + 1;
    }
    if links > 0 {
        body = body + links + 1;
    }
    1 + 1 + 1 + body + 1
}


/// Rows of the first `k` timeline cards, card `i` with the artwork rows at
/// index `i` of `image_rows`.
pub open spec fn timeline_rows_before(
    events: Seq<TimelineEvent>,
    cols: u16,
    image_rows: Seq<usize>,
    k: int,
) -> int
    decreases k,
{
    if k <= 0 {
        0
    } else {
        timeline_rows_before(events, cols, image_rows, k - 1) + card_rows(
            events[k - 1],
            cols,
            image_rows[k - 1] as int,
        )
    }
}

/// More cards take no fewer rows.
proof fn lemma_timeline_rows_grow(events: Seq<TimelineEvent>, cols: u16, image_rows: Seq<usize>, j: int, k: int)
    requires
        0 <= j <= k,
    ensures
        timeline_rows_before(events, cols, image_rows, j) <= timeline_rows_before(events, cols, image_rows, k),
    decreases k - j,
{
    if j < k {
        lemma_timeline_rows_grow(events, cols, image_rows, j, k - 1);
        assert(section_rows(image_rows[k - 1] as int) >= 0);
    }
}

/// Rows the timeline tab scrolls through: every card's height, card `i`'s
/// artwork taking the rows at index `i` of `image_rows`.
pub fn timeline_row_count(events: &Vec<TimelineEvent>, cols: u16, image_rows: &Vec<usize>) -> (rows: usize)
    requires
        image_rows@.len() == events@.len(),
        forall|i: int| 0 <= i < image_rows@.len() ==> #[trigger] image_rows@[i] <= usize::MAX / 2,
        timeline_rows_before(events@, cols, image_rows@, events@.len() as int) <= usize::MAX,
    ensures
        rows == timeline_rows_before(events@, cols, image_rows@, events@.len() as int),
{
    let mut rows: usize = 0;
    let mut i: usize = 0;
    while i < events.len()
        invariant
            i <= events@.len(),
            image_rows@.len() == events@.len(),
            forall|j: int| 0 <= j < image_rows@.len() ==> #[trigger] image_rows@[j] <= usize::MAX / 2,
            rows == timeline_rows_before(events@, cols, image_rows@, i as int),
            timeline_rows_before(events@, cols, image_rows@, events@.len() as int) <= usize::MAX,
        decreases events.len() - i,
    {
        proof {
            lemma_timeline_rows_grow(events@, cols, image_rows@, i + 1, events@.len() as int);
        }
        let card = card_height(&events[i], cols, image_rows[i]);
        rows = rows + card;
        i = i + 1;
    }
    rows
}

/// A view of the app: one of its tabs, or a post open in the reader.
#[derive(Clone, Copy, PartialEq, Eq, Debug)]
pub enum Destination {
    Tab(usize),
    Post(usize),
}

/// `path` without one trailing `/`.
pub open spec fn without_final_slash(path: Seq<char>) -> Seq<char> {
    if path.len() > 0 && path.last() == '/' {
        path.drop_last()
    } else {
        path
    }
}

/// The site path tab `tab` is served at.
pub open spec fn tab_route(tab: int) -> Seq<char> {
    if tab == 0 {
        "/about"@
    } else if tab == 1 {
        "/timeline"@
    } else {
        "/blog"@
    }
}

/// Whether `path` is the blog index or lies under it.
pub open spec fn under_blog(path: Seq<char>) -> bool {
    &&& has_prefix(path, "/blog"@)
    &&& (path.len() == "/blog"@.len() || path["/blog"@.len() as int] == '/')
}

/// Whether some local post of `blog` lives at `path`.
pub open spec fn has_post_at(blog: &Blog, path: Seq<char>) -> bool {
    exists|i: int| 0 <= i < blog.posts@.len() && blog.hosts_at(i, path)
}

/// The first local post of `blog` that lives at `path`.
pub open spec fn first_post_at(blog: &Blog, path: Seq<char>) -> int {
    choose|i: int|
        0 <= i < blog.posts@.len() && blog.hosts_at(i, path) && forall|j: int|
            0 <= j < i ==> !#[trigger] blog.hosts_at(j, path)
}

/// The view a site path names, if the app has one. One trailing `/` is
/// ignored. A post's permalink opens the post; a tab's route opens the tab;
/// anything else under `/blog` opens the blog index; any other path belongs
/// to the browser.
pub open spec fn destination_of(blog: &Blog, path: Seq<char>) -> Option<Destination> {
    let p = without_final_slash(path);
    if has_post_at(blog, p) {
        Some(Destination::Post(first_post_at(blog, p) as usize))
    } else if p == "/about"@ {
        Some(Destination::Tab(ABOUT_TAB))
    } else if p == "/timeline"@ {
        Some(Destination::Tab(TIMELINE_TAB))
    } else if under_blog(p) {
        Some(Destination::Tab(BLOG_TAB))
    } else {
        None
    }
}

/// The site path tab `tab` is served at.
pub fn tab_route_of(tab: usize) -> (route: &'static str)
    requires
        tab < TAB_COUNT,
    ensures
        route@ == tab_route(tab as int),
{
    if tab == ABOUT_TAB {
        "/about"
    } else if tab == TIMELINE_TAB {
        "/timeline"
    } else {
        "/blog"
    }
}

/// `path` without one trailing `/`.
fn strip_final_slash(path: &str) -> (out: String)
    ensures
        out@ == without_final_slash(path@),
{
    let n = path.unicode_len();
    if n > 0 && path.get_char(n - 1) == '/' {
        String::from_str(path.substring_char(0, n - 1))
    } else {
        String::from_str(path)
    }
}

/// Whether `path` is the blog index or lies under it.
fn is_under_blog(path: &str) -> (under: bool)
    ensures
        under == under_blog(path@),
{
    if !starts_with(path, "/blog") {
        return false;
    }
    let n = path.unicode_len();
    let m = "/blog".unicode_len();
    n == m || path.get_char(m) == '/'
}

/// The index `find` returns is the first post at that path.
pub(crate) proof fn lemma_found_is_first(blog: &Blog, path: Seq<char>, i: int)
    requires
        0 <= i < blog.posts@.len(),
        blog.hosts_at(i, path),
        forall|j: int| 0 <= j < i ==> !#[trigger] blog.hosts_at(j, path),
    ensures
        has_post_at(blog, path),
        first_post_at(blog, path) == i,
{
    let c = first_post_at(blog, path);
    assert(0 <= c < blog.posts@.len() && blog.hosts_at(c, path));
    if c < i {
        assert(!blog.hosts_at(c, path));
    }
    if i < c {
        assert(!blog.hosts_at(i, path));
    }
}

/// The view a site path names, if the app has one.
pub fn view_at(path: &str, blog: &Blog) -> (destination: Option<Destination>)
    requires
        blog.well_formed(),
    ensures
        destination == destination_of(blog, path@),
        destination matches Some(Destination::Post(post)) ==> post < blog.posts@.len(),
        destination matches Some(Destination::Tab(tab)) ==> tab < TAB_COUNT,
{
    let p = strip_final_slash(path);
    match blog.find(p.as_str()) {
        Some(post) => {
            proof {
                lemma_found_is_first(blog, p@, post as int);
            }
            return Some(Destination::Post(post));
        },
        None => {},
    }
    if same_text(p.as_str(), "/about") {
        Some(Destination::Tab(ABOUT_TAB))
    } else if same_text(p.as_str(), "/timeline") {
        Some(Destination::Tab(TIMELINE_TAB))
    } else if is_under_blog(p.as_str()) {
        Some(Destination::Tab(BLOG_TAB))
    } else {
        None
    }
}

/// Whether the app has a view at `path`.
pub fn has_view(path: &str, blog: &Blog) -> (found: bool)
    requires
        blog.well_formed(),
    ensures
        found == destination_of(blog, path@) is Some,
{
    view_at(path, blog).is_some()
}

/// What the document is called while the shell, rather than a view, is up.
pub open spec fn shell_title() -> Seq<char> {
    "Developer Sam \u{2014} Terminal"@
}

/// What the document is called while the view at `path` is on screen: a
/// post's title and the blog's name, a tab's name, the blog's name for
/// anything else under the blog, and the shell's title where the app has no
/// view. The path loses one trailing `/` before anything is looked up.
pub open spec fn title_of(blog: &Blog, path: Seq<char>) -> Seq<char> {
    let p = without_final_slash(path);
    let blog_name = run_text(blog.title, blog.blob@);
    if has_post_at(blog, p) {
        run_text(blog.posts@[first_post_at(blog, p)].title, blog.blob@) + " | "@ + blog_name
    } else {
        match destination_of(blog, p) {
            Some(Destination::Tab(0)) => "About | Developer Sam"@,
            Some(Destination::Tab(1)) => "Timeline | Developer Sam"@,
            Some(_) => blog_name,
            None => shell_title(),
        }
    }
}

/// What the document is called while the view at `path` is on screen.
pub fn title_for(path: &str, blog: &Blog) -> (title: String)
    requires
        blog.well_formed(),
    ensures
        title@ == title_of(blog, path@),
{
    let p = strip_final_slash(path);
    match blog.find(p.as_str()) {
        Some(post) => {
            proof {
                lemma_found_is_first(blog, p@, post as int);
            }
            assert(blog.posts@[post as int].fits(blog.blob@.len()));
            let mut title = blog.posts[post].title(blog.blob.as_slice()).decrypt();
            title.append(" | ");
            title.append(blog.blog_title().decrypt().as_str());
            return title;
        },
        None => {},
    }
    match view_at(p.as_str(), blog) {
        Some(Destination::Tab(ABOUT_TAB)) => String::from_str("About | Developer Sam"),
        Some(Destination::Tab(TIMELINE_TAB)) => String::from_str("Timeline | Developer Sam"),
        Some(_) => blog.blog_title().decrypt(),
        None => String::from_str("Developer Sam \u{2014} Terminal"),
    }
}

/// The site path a URL points at, if it points at this site: a path that
/// starts with `/` is one already; an `http(s)://` URL (scheme and host
/// compared without regard to ASCII case, `www.` optional) on
/// `developersam.com` gives the path after the host, or `/` for none.
pub open spec fn site_path_of(url: Seq<char>) -> Option<Seq<char>> {
    if has_prefix(url, "/"@) {
        Some(url)
    } else {
        let after_scheme = if has_prefix_ignore_case(url, "https://"@) {
            Some(url.skip("https://"@.len() as int))
        } else if has_prefix_ignore_case(url, "http://"@) {
            Some(url.skip("http://"@.len() as int))
        } else {
            None
        };
        match after_scheme {
            None => None,
            Some(rest) => {
                let host = if has_prefix_ignore_case(rest, "www."@) {
                    rest.skip("www."@.len() as int)
                } else {
                    rest
                };
                if !has_prefix_ignore_case(host, "developersam.com"@) {
                    None
                } else {
                    let tail = host.skip("developersam.com"@.len() as int);
                    if tail.len() == 0 {
                        Some("/"@)
                    } else if tail[0] == '/' {
                        Some(tail)
                    } else {
                        None
                    }
                }
            },
        }
    }
}

/// The site path a URL points at, if it points at this site.
fn site_path(url: &str) -> (path: Option<String>)
    ensures
        path.deep_view() == site_path_of(url@),
{
    if starts_with(url, "/") {
        return Some(String::from_str(url));
    }
    let rest = match strip_prefix_ignore_case(url, "https://") {
        Some(rest) => rest,
        None => match strip_prefix_ignore_case(url, "http://") {
            Some(rest) => rest,
            None => return None,
        },
    };
    let host = match strip_prefix_ignore_case(rest.as_str(), "www.") {
        Some(host) => host,
        None => rest,
    };
    let tail = match strip_prefix_ignore_case(host.as_str(), "developersam.com") {
        Some(tail) => tail,
        None => return None,
    };
    if tail.as_str().unicode_len() == 0 {
        Some(String::from_str("/"))
    } else if tail.as_str().get_char(0) == '/' {
        Some(tail)
    } else {
        None
    }
}

/// Where activating a link should lead.
pub enum LinkTarget {
    /// A view of this app: follow it here, without touching the browser.
    View(String),
    /// Somewhere else on the web: the host opens it in a new tab.
    External(String),
    /// Neither, so nothing happens: anything but http(s) is refused.
    Ignore,
}

/// Whether `url` is an http or https URL, scheme compared without regard to
/// ASCII case.
pub open spec fn is_web_url(url: Seq<char>) -> bool {
    has_prefix_ignore_case(url, "https://"@) || has_prefix_ignore_case(url, "http://"@)
}

/// Whether `target` is where a link carrying `url` leads: the site path
/// `url` points at when that names a view of the app; else the web, for an
/// http(s) URL; else nowhere.
pub open spec fn leads_to(blog: &Blog, url: Seq<char>, target: LinkTarget) -> bool {
    match target {
        LinkTarget::View(path) => site_path_of(url) == Some(path@) && destination_of(blog, path@) is Some,
        LinkTarget::External(link) => !(site_path_of(url) matches Some(p) && destination_of(blog, p) is Some)
            && is_web_url(url) && link@ == url,
        LinkTarget::Ignore => !(site_path_of(url) matches Some(p) && destination_of(blog, p) is Some)
            && !is_web_url(url),
    }
}

/// Where the URL a link carries should lead: a view of the app when it names
/// one on this site, else the web for an http(s) URL, else nowhere.
pub fn link_target(url: &str, blog: &Blog) -> (target: LinkTarget)
    requires
        blog.well_formed(),
    ensures
        leads_to(blog, url@, target),
{
    match site_path(url) {
        Some(path) => {
            if has_view(path.as_str(), blog) {
                return LinkTarget::View(path);
            }
        },
        None => {},
    }
    if starts_with_ignore_case(url, "https://") || starts_with_ignore_case(url, "http://") {
        LinkTarget::External(String::from_str(url))
    } else {
        LinkTarget::Ignore
    }
}


/// A local post's URL is followed inside the app: `Post::url` gives
/// `https://developersam.com` and the post's permalink, which points at this
/// site, at that permalink, and the permalink names a view; so the only place
/// [`link_target`] can send it is `View` of the permalink.
pub proof fn lemma_local_post_url_is_a_view(blog: &Blog, i: int)
    requires
        blog.well_formed(),
        0 <= i < blog.posts@.len(),
        blog.posts@[i].external_url is None,
    ensures
        site_path_of(blog.posts@[i].url_text(blog.blob@)) == Some(blog.post_path(i)),
        destination_of(blog, blog.post_path(i)) is Some,
        forall|target: LinkTarget|
            #[trigger] leads_to(blog, blog.posts@[i].url_text(blog.blob@), target) ==> (target matches LinkTarget::View(
                path,
            ) && path@ == blog.post_path(i)),
{
    reveal_strlit("https://developersam.com");
    reveal_strlit("https://");
    reveal_strlit("http://");
    reveal_strlit("www.");
    reveal_strlit("developersam.com");
    reveal_strlit("/");
    reveal_strlit("/blog/");
    reveal_strlit("/blog");
    let path = blog.post_path(i);
    let site = "https://developersam.com"@;
    let url = blog.posts@[i].url_text(blog.blob@);
    assert(url == site + path);
    assert(path.len() >= 9);
    assert(path[0] == '/');
    assert(path[5] == '/');
    assert(path.take(5) =~= "/blog"@);
    assert(url[0] == 'h');
    assert(!has_prefix(url, "/"@)) by {
        assert(url.take(1)[0] == 'h');
    }
    assert(has_prefix_ignore_case(url, "https://"@)) by {
        assert forall|k: int| 0 <= k < "https://"@.len() implies #[trigger] ascii_lower(url[k])
            == ascii_lower("https://"@[k]) by {
            assert(url[k] == site[k]);
        }
    }
    let rest = url.skip("https://"@.len() as int);
    assert(rest =~= "developersam.com"@ + path);
    assert(ascii_lower(rest[0]) != ascii_lower("www."@[0]));
    assert(!has_prefix_ignore_case(rest, "www."@));
    assert(has_prefix_ignore_case(rest, "developersam.com"@)) by {
        assert forall|k: int| 0 <= k < "developersam.com"@.len() implies #[trigger] ascii_lower(
            rest[k],
        ) == ascii_lower("developersam.com"@[k]) by {
            assert(rest[k] == "developersam.com"@[k]);
        }
    }
    let tail = rest.skip("developersam.com"@.len() as int);
    assert(tail =~= path);
    let p = without_final_slash(path);
    assert(p.len() >= 8);
    assert(p.take(5) =~= "/blog"@);
    assert(p[5] == '/');
    assert(under_blog(p));
}

/// Something only the browser can do, handed to the host one line at a time.
#[derive(Clone, PartialEq, Eq, Debug)]
pub enum HostEvent {
    /// Open a URL that is not a view of this app.
    Open(String),
    /// Put the URL bar and the document title on a view.
    Route { replace: bool, path: String, title: String },
}

/// A [`HostEvent`] as text.
#[verifier::ext_equal]
pub enum HostMessage {
    Open(Seq<char>),
    Route { replace: bool, path: Seq<char>, title: Seq<char> },
}

impl View for HostEvent {
    type V = HostMessage;

    open spec fn view(&self) -> HostMessage {
        match self {
            HostEvent::Open(url) => HostMessage::Open(url@),
            HostEvent::Route { replace, path, title } => HostMessage::Route {
                replace: *replace,
                path: path@,
                title: title@,
            },
        }
    }
}

/// The wire form of a host message: `open <url>`, or
/// `route push|replace <path>` then a tab and the title.
pub open spec fn encoded(message: HostMessage) -> Seq<char> {
    match message {
        HostMessage::Open(url) => "open "@ + url,
        HostMessage::Route { replace, path, title } => "route "@ + (if replace {
            "replace"@
        } else {
            "push"@
        }) + " "@ + path + "\t"@ + title,
    }
}

impl HostEvent {
    /// `open <url>` or `route push|replace <path>\t<title>`: a title may
    /// contain spaces and a path never contains a tab.
    pub fn encode(&self) -> (line: String)
        ensures
            line@ == encoded(self@),
    {
        match self {
            HostEvent::Open(url) => {
                let mut line = String::from_str("open ");
                line.append(url.as_str());
                line
            },
            HostEvent::Route { replace, path, title } => {
                let mut line = String::from_str("route ");
                if *replace {
                    line.append("replace");
                } else {
                    line.append("push");
                }
                line.append(" ");
                line.append(path.as_str());
                line.append("\t");
                line.append(title.as_str());
                line
            },
        }
    }
}

/// What the app and the browser host share: the work queued for the host,
/// whether a route was synced yet this run, the view the host last asked
/// for, whether it asked the app to exit, and the view the app is on.
pub struct HostState {
    pub events: VecDeque<HostEvent>,
    pub route_synced: bool,
    pub pending_route: Option<String>,
    pub pending_quit: bool,
    pub current_route: String,
}

/// A [`HostState`] as values.
#[verifier::ext_equal]
pub struct HostModel {
    pub events: Seq<HostMessage>,
    pub route_synced: bool,
    pub pending_route: Option<Seq<char>>,
    pub pending_quit: bool,
    pub current_route: Seq<char>,
}

impl View for HostState {
    type V = HostModel;

    open spec fn view(&self) -> HostModel {
        HostModel {
            events: self.events@.map_values(|event: HostEvent| event@),
            route_synced: self.route_synced,
            pending_route: match self.pending_route {
                Some(path) => Some(path@),
                None => None,
            },
            pending_quit: self.pending_quit,
            current_route: self.current_route@,
        }
    }
}

/// `host` with `message` queued last.
pub open spec fn pushed(host: HostModel, message: HostMessage) -> HostModel {
    HostModel { events: host.events.push(message), ..host }
}

/// The message at the front of the queue, if any, and `host` without it.
pub open spec fn polled(host: HostModel) -> (Option<HostMessage>, HostModel) {
    if host.events.len() == 0 {
        (None, host)
    } else {
        (Some(host.events[0]), HostModel { events: host.events.drop_first(), ..host })
    }
}

/// `host` as a session boots: no route synced yet, and no view known.
pub open spec fn route_reset(host: HostModel) -> HostModel {
    HostModel { route_synced: false, current_route: Seq::empty(), ..host }
}

/// `host` once the host asks for the view at `path`; a later request
/// replaces an earlier one.
pub open spec fn route_requested(host: HostModel, path: Seq<char>) -> HostModel {
    HostModel { pending_route: Some(path), ..host }
}

/// `host` once a frame publishes `route` titled `title`: nothing changes
/// when it is already the current route; otherwise it becomes current, and a
/// route message is queued that replaces the first time in a session and
/// pushes every time after.
pub open spec fn published(host: HostModel, route: Seq<char>, title: Seq<char>) -> HostModel {
    if host.current_route == route {
        host
    } else {
        HostModel {
            events: host.events.push(
                HostMessage::Route { replace: !host.route_synced, path: route, title },
            ),
            route_synced: true,
            current_route: route,
            ..host
        }
    }
}

/// The view last asked for, and `host` with the request gone.
pub open spec fn route_taken(host: HostModel) -> (Option<Seq<char>>, HostModel) {
    (host.pending_route, HostModel { pending_route: None, ..host })
}

/// `host` once the host asks the app to exit.
pub open spec fn quit_requested(host: HostModel) -> HostModel {
    HostModel { pending_quit: true, ..host }
}

/// Whether an exit was asked for, and `host` with the request gone.
pub open spec fn quit_taken(host: HostModel) -> (bool, HostModel) {
    (host.pending_quit, HostModel { pending_quit: false, ..host })
}

impl HostState {
    /// Nothing queued, nothing asked for, no route synced.
    pub fn new() -> (host: Self)
        ensures
            host@.events.len() == 0,
            !host@.route_synced,
            host@.pending_route is None,
            !host@.pending_quit,
            host@.current_route.len() == 0,
    {
        HostState {
            events: VecDeque::new(),
            route_synced: false,
            pending_route: None,
            pending_quit: false,
            current_route: String::new(),
        }
    }
}

/// Queues work for the host.
pub fn push_host_event(host: &mut HostState, event: HostEvent)
    ensures
        final(host)@ == pushed(old(host)@, event@),
{
    let ghost message = event@;
    host.events.push_back(event);
    assert(final(host)@.events =~= old(host)@.events.push(message));
}

/// Takes the next thing the host has to do, if any.
pub fn poll_host_event(host: &mut HostState) -> (event: Option<HostEvent>)
    ensures
        event matches Some(e) ==> polled(old(host)@).0 == Some(e@),
        event is None ==> polled(old(host)@).0 is None,
        final(host)@ == polled(old(host)@).1,
{
    let event = host.events.pop_front();
    proof {
        if old(host).events@.len() > 0 {
            assert(final(host)@.events =~= old(host)@.events.drop_first());
        }
    }
    event
}

/// Forgets that this run ever synced a route, so the next one replaces rather
/// than pushes.
pub fn reset_route_sync(host: &mut HostState)
    ensures
        final(host)@ == route_reset(old(host)@),
{
    host.route_synced = false;
    host.current_route = String::new();
}

/// Asks the app to show the view at `path`, on the next frame.
pub fn request_route(host: &mut HostState, path: &str)
    ensures
        final(host)@ == route_requested(old(host)@, path@),
{
    host.pending_route = Some(String::from_str(path));
}

/// Records the view a frame is about to draw, queueing a route message
/// whenever it changes so the URL bar and the document title follow the app.
pub fn publish_route(host: &mut HostState, route: String, blog: &Blog)
    requires
        blog.well_formed(),
    ensures
        final(host)@ == published(old(host)@, route@, title_of(blog, route@)),
{
    if host.current_route == route {
        return;
    }
    host.current_route = route.clone();
    let replace = !host.route_synced;
    host.route_synced = true;
    let title = title_for(route.as_str(), blog);
    push_host_event(host, HostEvent::Route { replace, path: route, title });
}

/// Takes whatever view the host last asked for, leaving nothing behind.
pub fn take_pending_route(host: &mut HostState) -> (path: Option<String>)
    ensures
        path.deep_view() == route_taken(old(host)@).0,
        final(host)@ == route_taken(old(host)@).1,
{
    host.pending_route.take()
}

/// Asks the app to exit, on the next frame.
pub fn request_quit(host: &mut HostState)
    ensures
        final(host)@ == quit_requested(old(host)@),
{
    host.pending_quit = true;
}

/// Takes the host's exit request, leaving nothing behind.
pub fn take_pending_quit(host: &mut HostState) -> (quit: bool)
    ensures
        quit == quit_taken(old(host)@).0,
        final(host)@ == quit_taken(old(host)@).1,
{
    let quit = host.pending_quit;
    host.pending_quit = false;
    quit
}

/// Work reaches the host in the order it was queued: on an empty queue a
/// pushed message comes straight back out, and on any other queue pushing
/// then polling gives what polling then pushing gives.
pub proof fn lemma_host_queue_is_fifo(host: HostModel, message: HostMessage)
    ensures
        host.events.len() == 0 ==> polled(pushed(host, message)) == (Some(message), host),
        host.events.len() > 0 ==> polled(pushed(host, message)) == (
            polled(host).0,
            pushed(polled(host).1, message),
        ),
{
    if host.events.len() == 0 {
        assert(pushed(host, message).events.drop_first() =~= host.events);
        assert(polled(pushed(host, message)).1 =~= host);
    } else {
        assert(host.events.push(message).drop_first() =~= host.events.drop_first().push(message));
        assert(polled(pushed(host, message)).1 =~= pushed(polled(host).1, message));
    }
}

/// Publishing the route the app is already on queues nothing: a view is
/// announced once, however many frames draw it.
pub proof fn lemma_publish_is_idempotent(host: HostModel, route: Seq<char>, title: Seq<char>)
    ensures
        published(published(host, route, title), route, title) == published(host, route, title),
{
}

/// After a session boots, the first route to be published replaces the
/// browser's entry, and the next change of view pushes a new one.
pub proof fn lemma_first_route_replaces(
    host: HostModel,
    first: Seq<char>,
    first_title: Seq<char>,
    next: Seq<char>,
    next_title: Seq<char>,
)
    requires
        first.len() > 0,
        next != first,
    ensures
        ({
            let once = published(route_reset(host), first, first_title);
            let twice = published(once, next, next_title);
            &&& once.events.last() == HostMessage::Route {
                replace: true,
                path: first,
                title: first_title,
            }
            &&& twice.events.last() == HostMessage::Route {
                replace: false,
                path: next,
                title: next_title,
            }
            &&& twice.events.len() == host.events.len() + 2
        }),
{
    assert(route_reset(host).current_route != first);
}

/// A request for a view is applied once: the first frame to look takes the
/// latest request, and the next finds none.
pub proof fn lemma_route_request_taken_once(host: HostModel, earlier: Seq<char>, path: Seq<char>)
    ensures
        route_taken(route_requested(route_requested(host, earlier), path)).0 == Some(path),
        route_taken(route_taken(route_requested(host, path)).1).0 is None,
{
}

/// An exit request is seen once, by the first frame to look.
pub proof fn lemma_quit_taken_once(host: HostModel)
    ensures
        quit_taken(quit_requested(host)).0,
        !quit_taken(quit_taken(quit_requested(host)).1).0,
{
}

} // verus!
