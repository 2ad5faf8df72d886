//! The terminal app's state machine: which tab is in front, how far each
//! pane is scrolled, which card is selected, the open post and dialog, and
//! how each key press, wheel notch and click moves them. How tall things are
//! at the current size is measured by the drawing code and handed in as a
//! [`Layout`]; which region a click landed on comes from the frame's
//! [`HitMap`].

use crate::data::TimelineEvent;
use crate::hit::{HitMap, HitTarget};
use crate::posts::Blog;
use crate::tui::{
    destination_of, is_web_url, link_target, push_host_event, pushed, route_taken, site_path_of,
    tab_route, tab_route_of, take_pending_route, view_at, Action, Destination, HostEvent,
    HostMessage, HostModel, HostState, Input, Key, LinkTarget, Modal, Mods, MouseEv, Reader,
    ABOUT_TAB, BLOG_TAB, POST_CARD_ROWS, TAB_COUNT, TIMELINE_TAB, WHEEL_ROWS,
};
use vstd::prelude::*;

verus! {

/// Rows the pane spends on its own chrome: its border top and bottom, and
/// its title row.
pub const PANE_CHROME_ROWS: usize = 3;

/// The row of air the About pane opens with.
pub const LISTING_AIR_ROWS: usize = 1;

/// Rows assumed before the first resize event tells the real height.
pub const ASSUMED_ROWS: u16 = 24;

/// The most lines any pane, post or dialog is measured at.
pub const MAX_LINES: usize = 0x4000_0000;

/// The most cards a list holds, and the furthest a selection reaches.
pub const MAX_CARDS: usize = 0x0800_0000;

/// What the app shows: the timeline and the blog.
pub struct Site {
    pub timeline: Vec<TimelineEvent>,
    pub blog: Blog,
}

impl Site {
    /// Both lists have an entry and the blog's strings lie in its blob.
    pub open spec fn well_formed(&self) -> bool {
        &&& self.blog.well_formed()
        &&& 0 < self.timeline@.len() <= MAX_CARDS
        &&& 0 < self.blog.posts@.len() <= MAX_CARDS
    }

    /// How many posts the blog has.
    pub open spec fn post_count(&self) -> int {
        self.blog.posts@.len() as int
    }

    /// How many timeline events there are.
    pub open spec fn event_count(&self) -> int {
        self.timeline@.len() as int
    }
}

/// What the drawing code measured at the current size.
pub struct Layout {
    /// Rows the header takes.
    pub header_rows: usize,
    /// Rows the status bar takes.
    pub status_rows: usize,
    /// Lines of the About pane.
    pub about_lines: usize,
    /// Rows of each timeline card.
    pub card_heights: Vec<usize>,
    /// Rows of each post in the reader.
    pub post_rows: Vec<usize>,
    /// Body lines of each timeline event's dialog.
    pub event_lines: Vec<usize>,
    /// Rows of each timeline event's dialog that show its body.
    pub event_viewports: Vec<usize>,
    /// Body lines of the help dialog.
    pub help_lines: usize,
    /// Rows of the help dialog that show its body.
    pub help_viewport: usize,
}

/// The sum of `heights`.
pub open spec fn total(heights: Seq<usize>) -> int
    decreases heights.len(),
{
    if heights.len() == 0 {
        0
    } else {
        heights[0] + total(heights.drop_first())
    }
}

impl Layout {
    /// The measurements cover `site`: one per card, post and event, and no
    /// pane longer than [`MAX_LINES`].
    pub open spec fn fits(&self, site: &Site) -> bool {
        &&& self.card_heights@.len() == site.event_count()
        &&& self.event_lines@.len() == site.event_count()
        &&& self.event_viewports@.len() == site.event_count()
        &&& self.post_rows@.len() == site.post_count()
        &&& total(self.card_heights@) <= MAX_LINES
        &&& self.about_lines <= MAX_LINES
        &&& self.help_lines <= MAX_LINES
        &&& forall|i: int| 0 <= i < self.post_rows@.len() ==> #[trigger] self.post_rows@[i] <= MAX_LINES
        &&& forall|i: int| 0 <= i < self.event_lines@.len() ==> #[trigger] self.event_lines@[i] <= MAX_LINES
        &&& self.header_rows <= MAX_LINES
        &&& self.status_rows <= MAX_LINES
    }
}

/// The app's state as values.
#[verifier::ext_equal]
pub struct Screen {
    pub cols: u16,
    pub rows: u16,
    pub tab: usize,
    pub visited: Seq<bool>,
    pub scroll: Seq<usize>,
    pub selected: Seq<usize>,
    pub reader: Option<Reader>,
    pub modal: Option<Modal>,
    pub quit: bool,
    /// The URLs of the links activated since the last drain, in order.
    pub actions: Seq<Seq<char>>,
}

/// The terminal app.
pub struct App {
    pub cols: u16,
    pub rows: u16,
    pub tab: usize,
    /// Which tabs have been in front.
    visited: [bool; TAB_COUNT],
    /// Vertical scroll offset of each tab's pane.
    scroll: [usize; TAB_COUNT],
    /// Selected card of each list tab.
    selected: [usize; TAB_COUNT],
    /// The post open in the Blog tab's reader, if any.
    pub reader: Option<Reader>,
    pub modal: Option<Modal>,
    pub quit: bool,
    actions: Vec<Action>,
}

/// The URL a requested action opens.
pub open spec fn action_url(action: Action) -> Seq<char> {
    match action {
        Action::OpenUrl(url) => url@,
    }
}

impl View for App {
    type V = Screen;

    closed spec fn view(&self) -> Screen {
        Screen {
            cols: self.cols,
            rows: self.rows,
            tab: self.tab,
            visited: self.visited@,
            scroll: self.scroll@,
            selected: self.selected@,
            reader: self.reader,
            modal: self.modal,
            quit: self.quit,
            actions: self.actions@.map_values(|a: Action| action_url(a)),
        }
    }
}

/// `a - b`, or zero when `b` is the larger.
pub open spec fn sat_sub(a: int, b: int) -> int {
    if a > b {
        a - b
    } else {
        0
    }
}

/// `a`, or one when `a` is smaller.
pub open spec fn at_least_one(a: int) -> int {
    if a < 1 {
        1
    } else {
        a
    }
}

/// The smaller of two integers.
pub open spec fn lesser(a: int, b: int) -> int {
    if a <= b {
        a
    } else {
        b
    }
}

/// Rows visible inside the content pane: the screen (24 rows before its
/// height is known) less the header, the pane's chrome and the status bar.
pub open spec fn body_rows(s: Screen, layout: &Layout) -> int {
    let rows: int = if s.rows == 0 {
        ASSUMED_ROWS as int
    } else {
        s.rows as int
    };
    sat_sub(rows, PANE_CHROME_ROWS + layout.header_rows + layout.status_rows)
}

/// Rows of text a scrolling tab pane shows at once, given the height of the
/// pane's body: the About pane opens with a row of air.
pub open spec fn tab_viewport(tab: int, body: int) -> int {
    if tab == ABOUT_TAB {
        at_least_one(sat_sub(body, LISTING_AIR_ROWS as int))
    } else {
        at_least_one(body)
    }
}

/// Total number of lines a tab's pane can show.
pub open spec fn tab_lines(tab: int, site: &Site, layout: &Layout) -> int {
    if tab == TIMELINE_TAB {
        total(layout.card_heights@)
    } else if tab == BLOG_TAB {
        site.post_count() * 5
    } else {
        layout.about_lines as int
    }
}

/// The furthest the front tab's pane scrolls: far enough to bring its last
/// line to the bottom of the viewport, and no further.
pub open spec fn max_scroll(s: Screen, site: &Site, layout: &Layout) -> int {
    sat_sub(tab_lines(s.tab as int, site, layout), tab_viewport(s.tab as int, body_rows(s, layout)))
}

/// Rows the reader's scrolling body shows: the pane body less the date row
/// and the blank row under it.
pub open spec fn reader_viewport(body: int) -> int {
    at_least_one(sat_sub(body, 2))
}

/// The furthest the reader scrolls: far enough to bring the last row of the
/// post to the bottom of the body.
pub open spec fn max_reader_scroll(s: Screen, layout: &Layout) -> int {
    match s.reader {
        None => 0,
        Some(r) => sat_sub(layout.post_rows@[r.post as int] as int, reader_viewport(body_rows(s, layout))),
    }
}

/// The furthest a dialog's body scrolls.
pub open spec fn modal_limit(modal: Modal, layout: &Layout) -> int {
    match modal {
        Modal::Timeline { event, .. } => sat_sub(
            layout.event_lines@[event as int] as int,
            layout.event_viewports@[event as int] as int,
        ),
        Modal::Help { .. } => sat_sub(layout.help_lines as int, layout.help_viewport as int),
    }
}

/// How far a dialog's body is scrolled.
pub open spec fn modal_offset(modal: Modal) -> usize {
    match modal {
        Modal::Timeline { scroll, .. } => scroll,
        Modal::Help { scroll } => scroll,
    }
}

/// `modal` scrolled to `offset`.
pub open spec fn modal_at(modal: Modal, offset: usize) -> Modal {
    match modal {
        Modal::Timeline { event, .. } => Modal::Timeline { event, scroll: offset },
        Modal::Help { .. } => Modal::Help { scroll: offset },
    }
}

/// How many cards the front tab lists, for the tabs that are lists.
pub open spec fn list_len(tab: int, site: &Site) -> Option<int> {
    if tab == TIMELINE_TAB {
        Some(site.event_count())
    } else if tab == BLOG_TAB {
        Some(site.post_count())
    } else {
        None
    }
}

/// The state the app's methods keep: a tab in front, selections inside
/// their lists, scroll offsets and the open post and dialog inside what
/// there is.
pub open spec fn valid(s: Screen, site: &Site) -> bool {
    &&& s.tab < TAB_COUNT
    &&& s.visited.len() == TAB_COUNT
    &&& s.scroll.len() == TAB_COUNT
    &&& s.selected.len() == TAB_COUNT
    &&& forall|t: int| 0 <= t < TAB_COUNT ==> #[trigger] s.selected[t] <= MAX_CARDS
    &&& forall|t: int| 0 <= t < TAB_COUNT ==> #[trigger] s.scroll[t] <= MAX_LINES
    &&& (s.reader matches Some(r) ==> r.post < site.post_count() && r.scroll <= MAX_LINES)
    &&& (s.modal matches Some(m) ==> modal_offset(m) <= MAX_LINES && (m matches Modal::Timeline {
        event,
        ..
    } ==> event < site.event_count()))
}

/// `s` with tab `next` (taken around the tab count) in front and marked
/// visited.
pub open spec fn switched(s: Screen, next: int) -> Screen {
    let tab = next % (TAB_COUNT as int);
    Screen { tab: tab as usize, visited: s.visited.update(tab, true), ..s }
}

/// The blog index scrolled just far enough to bring the selected card fully
/// into view, and no further.
pub open spec fn revealed(s: Screen, layout: &Layout) -> Screen {
    let top = s.selected[BLOG_TAB as int] * POST_CARD_ROWS;
    let bottom = top + POST_CARD_ROWS;
    let viewport = at_least_one(body_rows(s, layout));
    let scroll = s.scroll[BLOG_TAB as int] as int;
    let next = if scroll > top {
        top
    } else if bottom > scroll + viewport {
        bottom - viewport
    } else {
        scroll
    };
    Screen { scroll: s.scroll.update(BLOG_TAB as int, next as usize), ..s }
}

/// Card `index` of the front list tab selected, and on the blog brought
/// into view.
pub open spec fn selecting(s: Screen, index: int, layout: &Layout) -> Screen {
    let picked = Screen { selected: s.selected.update(s.tab as int, index as usize), ..s };
    if s.tab == BLOG_TAB {
        revealed(picked, layout)
    } else {
        picked
    }
}

/// The front pane scrolled `amount` rows back or on, never past its end.
pub open spec fn text_scrolled(s: Screen, back: bool, amount: int, site: &Site, layout: &Layout) -> Screen {
    let scroll = s.scroll[s.tab as int] as int;
    let next = if back {
        sat_sub(scroll, amount)
    } else {
        lesser(scroll + amount, max_scroll(s, site, layout))
    };
    Screen { scroll: s.scroll.update(s.tab as int, next as usize), ..s }
}

/// The selection of a list tab moved `amount` cards back or on, within the
/// list; on the About pane, the text scrolled instead, at least three rows.
pub open spec fn moved(s: Screen, back: bool, amount: int, site: &Site, layout: &Layout) -> Screen {
    match list_len(s.tab as int, site) {
        Some(len) => {
            let selected = s.selected[s.tab as int] as int;
            selecting(
                s,
                if back {
                    sat_sub(selected, amount)
                } else {
                    lesser(selected + amount, len - 1)
                },
                layout,
            )
        },
        None => text_scrolled(s, back, if amount < 3 {
            3
        } else {
            amount
        }, site, layout),
    }
}

/// The selection moved to the nearest card the wheel left on screen.
pub open spec fn followed(s: Screen, site: &Site, layout: &Layout) -> Screen {
    let last = site.post_count() - 1;
    let viewport = at_least_one(body_rows(s, layout));
    let scroll = s.scroll[BLOG_TAB as int] as int;
    let first = lesser(scroll / (POST_CARD_ROWS as int), last);
    let below = sat_sub((scroll + viewport) / (POST_CARD_ROWS as int), 1);
    let bottom = if below < first {
        first
    } else if below > last {
        last
    } else {
        below
    };
    let selected = s.selected[BLOG_TAB as int] as int;
    let next = if selected < first {
        first
    } else if selected > bottom {
        bottom
    } else {
        selected
    };
    Screen { selected: s.selected.update(BLOG_TAB as int, next as usize), ..s }
}

/// A list tab's selection moved to `target` (or its last card); the About
/// pane scrolled to `target` (or its end).
pub open spec fn jumped(s: Screen, target: int, site: &Site, layout: &Layout) -> Screen {
    match list_len(s.tab as int, site) {
        Some(len) => selecting(s, lesser(target, len - 1), layout),
        None => Screen {
            scroll: s.scroll.update(s.tab as int, lesser(target, max_scroll(s, site, layout)) as usize),
            ..s
        },
    }
}

/// The open dialog's body scrolled one row back or on, never past its end.
pub open spec fn modal_scrolled(s: Screen, back: bool, layout: &Layout) -> Screen {
    match s.modal {
        None => s,
        Some(m) => {
            let offset = modal_offset(m) as int;
            let next = if back {
                sat_sub(offset, 1)
            } else {
                lesser(offset + 1, modal_limit(m, layout))
            };
            Screen { modal: Some(modal_at(m, next as usize)), ..s }
        },
    }
}

/// The open post scrolled `amount` rows back or on, never past its end.
pub open spec fn reader_scrolled(s: Screen, back: bool, amount: int, layout: &Layout) -> Screen {
    match s.reader {
        None => s,
        Some(r) => {
            let next = if back {
                sat_sub(r.scroll as int, amount)
            } else {
                lesser(r.scroll + amount, max_reader_scroll(s, layout))
            };
            Screen { reader: Some(Reader { post: r.post, scroll: next as usize }), ..s }
        },
    }
}

/// What Enter does on a list tab: a timeline card opens its dialog; a post
/// opens in the reader, or, when it lives elsewhere, asks for its URL.
pub open spec fn opened(s: Screen, site: &Site) -> Screen {
    if s.tab == TIMELINE_TAB {
        let event = lesser(s.selected[TIMELINE_TAB as int] as int, site.event_count() - 1);
        Screen { modal: Some(Modal::Timeline { event: event as usize, scroll: 0 }), ..s }
    } else if s.tab == BLOG_TAB {
        let post = lesser(s.selected[BLOG_TAB as int] as int, site.post_count() - 1);
        let p = site.blog.posts@[post];
        if p.external_url is Some {
            Screen { actions: s.actions.push(p.url_text(site.blog.blob@)), ..s }
        } else {
            Screen { reader: Some(Reader { post: post as usize, scroll: 0 }), ..s }
        }
    } else {
        s
    }
}

/// `s` with the open post scrolled to `offset`.
pub open spec fn reader_at(s: Screen, offset: int) -> Screen {
    match s.reader {
        None => s,
        Some(r) => Screen { reader: Some(Reader { post: r.post, scroll: offset as usize }), ..s },
    }
}

/// A page of the reader: a screenful less two rows, so the lines the eye
/// was on are still there after the jump.
pub open spec fn reader_page(s: Screen, layout: &Layout) -> int {
    at_least_one(sat_sub(reader_viewport(body_rows(s, layout)), 2))
}

/// `s` with the help dialog open at its top.
pub open spec fn with_help(s: Screen) -> Screen {
    Screen { modal: Some(Modal::Help { scroll: 0 }), ..s }
}

/// What a key does while a post is open in the reader.
pub open spec fn reader_key(s: Screen, key: Key, layout: &Layout) -> Screen {
    match key {
        Key::Esc | Key::Backspace | Key::Char('q') | Key::Left | Key::Char('h') => Screen {
            reader: None,
            ..s
        },
        Key::Char('?') => with_help(s),
        Key::Up | Key::Char('k') => reader_scrolled(s, true, 1, layout),
        Key::Down | Key::Char('j') => reader_scrolled(s, false, 1, layout),
        Key::PageUp => reader_scrolled(s, true, reader_page(s, layout), layout),
        Key::PageDown => reader_scrolled(s, false, reader_page(s, layout), layout),
        Key::Home | Key::Char('g') => reader_at(s, 0),
        Key::End | Key::Char('G') => reader_at(s, max_reader_scroll(s, layout)),
        _ => s,
    }
}

/// The URL of link `index` of the open dialog, if it has one.
pub open spec fn dialog_link(s: Screen, index: int, site: &Site) -> Option<Seq<char>> {
    match s.modal {
        Some(Modal::Timeline { event, .. }) => {
            let links = site.timeline@[event as int].links@;
            if 0 <= index < links.len() {
                Some(links[index].url@)
            } else {
                None
            }
        },
        _ => None,
    }
}

/// `s` with the open dialog scrolled to `offset`.
pub open spec fn modal_set(s: Screen, offset: int) -> Screen {
    match s.modal {
        None => s,
        Some(m) => Screen { modal: Some(modal_at(m, offset as usize)), ..s },
    }
}

/// What a key does while a dialog is open: a digit activates the dialog's
/// button of that number.
pub open spec fn modal_key(s: Screen, key: Key, site: &Site, layout: &Layout) -> Screen {
    match key {
        Key::Char(d) => if '1' <= d && d <= '9' {
            match dialog_link(s, d as int - '1' as int, site) {
                Some(url) => Screen { actions: s.actions.push(url), ..s },
                None => s,
            }
        } else if d == 'q' || d == ' ' {
            Screen { modal: None, ..s }
        } else if d == 'k' {
            modal_scrolled(s, true, layout)
        } else if d == 'j' {
            modal_scrolled(s, false, layout)
        } else if d == 'g' {
            modal_set(s, 0)
        } else if d == 'G' {
            match s.modal {
                Some(m) => modal_set(s, modal_limit(m, layout)),
                None => s,
            }
        } else {
            s
        },
        Key::Esc | Key::Backspace => Screen { modal: None, ..s },
        Key::Up | Key::PageUp => modal_scrolled(s, true, layout),
        Key::Down | Key::PageDown => modal_scrolled(s, false, layout),
        Key::Home => modal_set(s, 0),
        Key::End => match s.modal {
            Some(m) => modal_set(s, modal_limit(m, layout)),
            None => s,
        },
        _ => s,
    }
}

/// What a key does on a pane with no post or dialog open.
pub open spec fn pane_key(s: Screen, key: Key, mods: Mods, site: &Site, layout: &Layout) -> Screen {
    match key {
        Key::Left | Key::BackTab => switched(s, s.tab + TAB_COUNT - 1),
        Key::Right | Key::Tab => switched(s, s.tab + 1),
        Key::Up | Key::PageUp => moved(s, true, if key is Up {
            1
        } else {
            10
        }, site, layout),
        Key::Down | Key::PageDown => moved(s, false, if key is Down {
            1
        } else {
            10
        }, site, layout),
        Key::Home => jumped(s, 0, site, layout),
        Key::End => jumped(s, usize::MAX as int, site, layout),
        Key::Enter => opened(s, site),
        Key::Char(c) => if c == 'h' {
            switched(s, s.tab + TAB_COUNT - 1)
        } else if c == 'l' {
            switched(s, s.tab + 1)
        } else if c == '?' {
            with_help(s)
        } else if c == 'q' {
            Screen { quit: true, ..s }
        } else if '1' <= c && c <= '3' {
            switched(s, c as int - '1' as int)
        } else if c == 'k' && !mods.ctrl {
            moved(s, true, 1, site, layout)
        } else if c == 'j' && !mods.ctrl {
            moved(s, false, 1, site, layout)
        } else if c == 'g' {
            jumped(s, 0, site, layout)
        } else if c == 'G' {
            jumped(s, usize::MAX as int, site, layout)
        } else {
            s
        },
        _ => s,
    }
}

/// What a key press does: Ctrl-C or Ctrl-D quits; otherwise the open
/// dialog, else the open post, else the pane in front takes it.
pub open spec fn key_step(s: Screen, key: Key, mods: Mods, site: &Site, layout: &Layout) -> Screen {
    if mods.ctrl && (key == Key::Char('c') || key == Key::Char('d')) {
        Screen { quit: true, ..s }
    } else if s.modal is Some {
        modal_key(s, key, site, layout)
    } else if s.reader is Some {
        reader_key(s, key, layout)
    } else {
        pane_key(s, key, mods, site, layout)
    }
}

/// The view a site path names brought up: a post opens in the reader on
/// the blog with its card selected and in view; a tab comes to the front
/// with the reader closed.
pub open spec fn went_to(s: Screen, destination: Option<Destination>, layout: &Layout) -> Screen {
    match destination {
        Some(Destination::Post(post)) => {
            let front = switched(s, BLOG_TAB as int);
            let picked = revealed(
                Screen { selected: front.selected.update(BLOG_TAB as int, post), ..front },
                layout,
            );
            Screen { reader: Some(Reader { post, scroll: 0 }), ..picked }
        },
        Some(Destination::Tab(tab)) => Screen { reader: None, ..switched(s, tab as int) },
        None => s,
    }
}

/// Whether every card a region of `hits` names could be selected.
pub open spec fn items_in_reach(hits: &HitMap) -> bool {
    forall|i: int|
        0 <= i < hits.regions().len() ==> (#[trigger] hits.regions()[i].1 matches HitTarget::Item(
            index,
        ) ==> index <= MAX_CARDS)
}

/// What a click on `target` does (`None`: on no region at all).
pub open spec fn clicked(s: Screen, target: Option<HitTarget>, site: &Site, layout: &Layout) -> Screen {
    match target {
        Some(HitTarget::Link(url)) => Screen { actions: s.actions.push(url@), ..s },
        Some(HitTarget::Tab(tab)) => switched(s, tab as int),
        Some(HitTarget::Close) => Screen { reader: None, ..s },
        Some(HitTarget::Item(index)) => if list_len(s.tab as int, site) is Some {
            opened(selecting(s, index as int, layout), site)
        } else {
            s
        },
        Some(HitTarget::Dialog) => s,
        Some(HitTarget::Dismiss) | None => Screen { modal: None, ..s },
    }
}

/// What a wheel notch does: it scrolls the open dialog, else the open
/// post, else the blog's page under its selection, else moves the
/// selection or the About pane.
pub open spec fn wheeled(s: Screen, back: bool, site: &Site, layout: &Layout) -> Screen {
    if s.modal is Some {
        modal_scrolled(s, back, layout)
    } else if s.reader is Some {
        reader_scrolled(s, back, WHEEL_ROWS as int, layout)
    } else if s.tab == BLOG_TAB {
        followed(text_scrolled(s, back, WHEEL_ROWS as int, site, layout), site, layout)
    } else {
        moved(s, back, 1, site, layout)
    }
}

/// The target of the last region of `hits` painted over the cell.
pub open spec fn target_at(hits: &HitMap, col: int, row: int) -> Option<HitTarget> {
    if exists|i: int| 0 <= i < hits.regions().len() && hits.hits(i, col, row) {
        let i = choose|i: int|
            0 <= i < hits.regions().len() && hits.hits(i, col, row) && forall|j: int|
                i < j < hits.regions().len() ==> !hits.hits(j, col, row);
        Some(hits.regions()[i].1)
    } else {
        None
    }
}

/// What one input does.
pub open spec fn stepped(s: Screen, input: Input, hits: &HitMap, site: &Site, layout: &Layout) -> Screen {
    match input {
        Input::Key { key, mods } => key_step(s, key, mods, site, layout),
        Input::Mouse(MouseEv::ScrollUp) => wheeled(s, true, site, layout),
        Input::Mouse(MouseEv::ScrollDown) => wheeled(s, false, site, layout),
        Input::Mouse(MouseEv::Click { col, row }) => clicked(s, target_at(hits, col as int, row as int), site, layout),
    }
}

/// The first scroll offset, from `start` on, at which the timeline cards
/// up to and including `selected` fit in `viewport` rows; `selected`
/// itself when none does.
pub open spec fn settled(heights: Seq<usize>, start: int, selected: int, viewport: int) -> int
    decreases selected - start,
{
    if start < selected && total(heights.subrange(start, selected + 1)) > viewport {
        settled(heights, start + 1, selected, viewport)
    } else {
        start
    }
}

/// Every scroll re-anchored after the size or the selection moved: the
/// open dialog and post no further than their ends; the blog's selection
/// on a card it has; a text pane no further than its end; and the timeline
/// scrolled so its selection is on screen, showing as many cards above it
/// as fit.
pub open spec fn clamped(s: Screen, site: &Site, layout: &Layout) -> Screen {
    let s1 = match s.modal {
        Some(m) => Screen {
            modal: Some(modal_at(m, lesser(modal_offset(m) as int, modal_limit(m, layout)) as usize)),
            ..s
        },
        None => s,
    };
    let s2 = match s1.reader {
        Some(r) => Screen {
            reader: Some(Reader { post: r.post, scroll: lesser(r.scroll as int, max_reader_scroll(s1, layout)) as usize }),
            ..s1
        },
        None => s1,
    };
    if s2.tab != TIMELINE_TAB {
        let s3 = if s2.tab == BLOG_TAB {
            Screen {
                selected: s2.selected.update(
                    BLOG_TAB as int,
                    lesser(s2.selected[BLOG_TAB as int] as int, site.post_count() - 1) as usize,
                ),
                ..s2
            }
        } else {
            s2
        };
        Screen {
            scroll: s3.scroll.update(
                s3.tab as int,
                lesser(s3.scroll[s3.tab as int] as int, max_scroll(s3, site, layout)) as usize,
            ),
            ..s3
        }
    } else {
        let selected = lesser(s2.selected[TIMELINE_TAB as int] as int, site.event_count() - 1);
        let s3 = Screen { selected: s2.selected.update(TIMELINE_TAB as int, selected as usize), ..s2 };
        let start = lesser(s3.scroll[TIMELINE_TAB as int] as int, selected);
        let viewport = at_least_one(body_rows(s3, layout));
        Screen {
            scroll: s3.scroll.update(
                TIMELINE_TAB as int,
                settled(layout.card_heights@, start, selected, viewport) as usize,
            ),
            ..s3
        }
    }
}

/// The app as it first comes up: the About tab in front and visited,
/// nothing scrolled, selected or open.
pub open spec fn initial() -> Screen {
    Screen {
        cols: 0,
        rows: 0,
        tab: ABOUT_TAB,
        visited: seq![true, false, false],
        scroll: seq![0usize, 0usize, 0usize],
        selected: seq![0usize, 0usize, 0usize],
        reader: None,
        modal: None,
        quit: false,
        actions: Seq::empty(),
    }
}

/// Where following the link to `url` leads: a view of the app is brought
/// up here; any other web URL is handed to the host; anything else is
/// dropped.
pub open spec fn followed_link(s: Screen, host: HostModel, url: Seq<char>, site: &Site, layout: &Layout) -> (Screen, HostModel) {
    match site_path_of(url) {
        Some(path) if destination_of(&site.blog, path) is Some => (
            went_to(s, destination_of(&site.blog, path), layout),
            host,
        ),
        _ => if is_web_url(url) {
            (s, pushed(host, HostMessage::Open(url)))
        } else {
            (s, host)
        },
    }
}

/// Every link of `urls` followed in turn.
pub open spec fn followed_links(s: Screen, host: HostModel, urls: Seq<Seq<char>>, site: &Site, layout: &Layout) -> (Screen, HostModel)
    decreases urls.len(),
{
    if urls.len() == 0 {
        (s, host)
    } else {
        let (next, next_host) = followed_link(s, host, urls[0], site, layout);
        followed_links(next, next_host, urls.drop_first(), site, layout)
    }
}

/// The total of a concatenation is the sum of the totals.
proof fn lemma_total_concat(a: Seq<usize>, b: Seq<usize>)
    ensures
        total(a + b) == total(a) + total(b),
    decreases a.len(),
{
    if a.len() > 0 {
        lemma_total_concat(a.drop_first(), b);
        assert((a + b).drop_first() =~= a.drop_first() + b);
    }
}

/// A total is never negative.
proof fn lemma_total_nonnegative(a: Seq<usize>)
    ensures
        total(a) >= 0,
    decreases a.len(),
{
    if a.len() > 0 {
        lemma_total_nonnegative(a.drop_first());
    }
}

/// A stretch of heights adds up to no more than all of them.
proof fn lemma_total_range(h: Seq<usize>, from: int, to: int)
    requires
        0 <= from <= to <= h.len(),
    ensures
        total(h.subrange(from, to)) <= total(h),
{
    let front = h.subrange(0, from);
    let middle = h.subrange(from, to);
    let back = h.subrange(to, h.len() as int);
    assert(h =~= front + middle + back);
    lemma_total_concat(front + middle, back);
    lemma_total_concat(front, middle);
    lemma_total_nonnegative(front);
    lemma_total_nonnegative(back);
}

/// `a - b`, or zero when `b` is the larger.
fn saturating(a: usize, b: usize) -> (d: usize)
    ensures
        d == sat_sub(a as int, b as int),
{
    if a > b {
        a - b
    } else {
        0
    }
}

/// The smaller of two counts.
fn least(a: usize, b: usize) -> (m: usize)
    ensures
        m == lesser(a as int, b as int),
{
    if a <= b {
        a
    } else {
        b
    }
}

/// The total of `heights[from..to]`.
fn range_total(heights: &Vec<usize>, from: usize, to: usize) -> (sum: usize)
    requires
        from <= to <= heights@.len(),
        total(heights@) <= MAX_LINES,
    ensures
        sum == total(heights@.subrange(from as int, to as int)),
{
    let mut i = to;
    let mut sum: usize = 0;
    assert(heights@.subrange(to as int, to as int) =~= Seq::<usize>::empty());
    while i > from
        invariant
            from <= i <= to <= heights@.len(),
            total(heights@) <= MAX_LINES,
            sum == total(heights@.subrange(i as int, to as int)),
        decreases i,
    {
        i = i - 1;
        proof {
            assert(heights@.subrange(i as int, to as int).drop_first() =~= heights@.subrange(i + 1, to as int));
            lemma_total_range(heights@, i as int, to as int);
        }
        sum = sum + heights[i];
    }
    sum
}

/// Rows of text a scrolling tab pane shows at once.
pub fn tab_viewport_of(tab: usize, body: usize) -> (rows: usize)
    ensures
        rows == tab_viewport(tab as int, body as int),
{
    let rows = if tab == ABOUT_TAB {
        saturating(body, LISTING_AIR_ROWS)
    } else {
        body
    };
    if rows < 1 {
        1
    } else {
        rows
    }
}

/// Rows the reader's scrolling body shows.
pub fn reader_viewport_of(body: usize) -> (rows: usize)
    ensures
        rows == reader_viewport(body as int),
{
    let rows = saturating(body, 2);
    if rows < 1 {
        1
    } else {
        rows
    }
}

impl App {
    /// Rows visible inside the content pane.
    pub fn viewport(&self, layout: &Layout) -> (rows: usize)
        requires
            layout.header_rows <= MAX_LINES,
            layout.status_rows <= MAX_LINES,
        ensures
            rows == body_rows(self@, layout),
    {
        let rows: usize = if self.rows == 0 {
            ASSUMED_ROWS as usize
        } else {
            self.rows as usize
        };
        saturating(rows, PANE_CHROME_ROWS + layout.header_rows + layout.status_rows)
    }

    /// How far tab `tab`'s pane is scrolled.
    pub fn scroll(&self, tab: usize) -> (offset: usize)
        requires
            tab < TAB_COUNT,
        ensures
            offset == self@.scroll[tab as int],
    {
        self.scroll[tab]
    }

    /// The selected card of tab `tab`.
    pub fn selected(&self, tab: usize) -> (index: usize)
        requires
            tab < TAB_COUNT,
        ensures
            index == self@.selected[tab as int],
    {
        self.selected[tab]
    }

    /// How many tabs have been in front.
    pub fn visited_count(&self) -> (count: usize)
        ensures
            count == self@.visited.filter(|v: bool| v).len(),
    {
        let ghost keep = |v: bool| v;
        let mut count: usize = 0;
        let mut i: usize = 0;
        assert(self@.visited.take(0).filter(keep) =~= Seq::empty());
        while i < TAB_COUNT
            invariant
                i <= TAB_COUNT,
                keep == (|v: bool| v),
                self@.visited.len() == TAB_COUNT,
                count == self@.visited.take(i as int).filter(keep).len(),
                count <= i,
            decreases TAB_COUNT - i,
        {
            proof {
                assert(self@.visited.take(i + 1) =~= self@.visited.take(i as int).push(self@.visited[i as int]));
                self@.visited.take(i as int).lemma_filter_push(self@.visited[i as int], keep);
            }
            if self.visited[i] {
                count = count + 1;
            }
            i = i + 1;
        }
        assert(self@.visited.take(TAB_COUNT as int) =~= self@.visited);
        count
    }

    /// The furthest the front pane scrolls.
    fn max_scroll(&self, site: &Site, layout: &Layout) -> (limit: usize)
        requires
            valid(self@, site),
            site.well_formed(),
            layout.fits(site),
        ensures
            limit == max_scroll(self@, site, layout),
            limit <= MAX_LINES,
    {
        let lines = if self.tab == TIMELINE_TAB {
            range_total(&layout.card_heights, 0, layout.card_heights.len())
        } else if self.tab == BLOG_TAB {
            site.blog.posts.len() * POST_CARD_ROWS
        } else {
            layout.about_lines
        };
        assert(layout.card_heights@.subrange(0, layout.card_heights@.len() as int) =~= layout.card_heights@);
        let visible = tab_viewport_of(self.tab, self.viewport(layout));
        saturating(lines, visible)
    }

    /// The furthest the reader scrolls; zero with no post open.
    fn max_reader_scroll(&self, site: &Site, layout: &Layout) -> (limit: usize)
        requires
            valid(self@, site),
            site.well_formed(),
            layout.fits(site),
        ensures
            limit == max_reader_scroll(self@, layout),
            limit <= MAX_LINES,
    {
        match &self.reader {
            None => 0,
            Some(reader) => {
                let visible = reader_viewport_of(self.viewport(layout));
                proof {
                    assert(layout.post_rows@[reader.post as int] <= MAX_LINES);
                }
                saturating(layout.post_rows[reader.post], visible)
            },
        }
    }

    /// Brings tab `next` (taken around the tab count) to the front.
    fn switch_tab(&mut self, next: usize)
        requires
            old(self)@.visited.len() == TAB_COUNT,
        ensures
            final(self)@ == switched(old(self)@, next as int),
    {
        self.tab = next % TAB_COUNT;
        self.visited.set(self.tab, true);
    }

    /// Scrolls the blog index just far enough to bring the selected card
    /// fully into view.
    fn reveal_blog_selection(&mut self, site: &Site, layout: &Layout)
        requires
            valid(old(self)@, site),
            site.well_formed(),
            layout.fits(site),
        ensures
            final(self)@ == revealed(old(self)@, layout),
            valid(final(self)@, site),
    {
        let top = self.selected[BLOG_TAB] * POST_CARD_ROWS;
        let bottom = top + POST_CARD_ROWS;
        let viewport = self.viewport(layout);
        let viewport = if viewport < 1 {
            1
        } else {
            viewport
        };
        let scroll = self.scroll[BLOG_TAB];
        let next = if scroll > top {
            top
        } else if bottom > scroll + viewport {
            bottom - viewport
        } else {
            scroll
        };
        self.scroll.set(BLOG_TAB, next);
    }

    /// Selects card `index` of the front list tab, bringing it into view.
    fn select(&mut self, index: usize, site: &Site, layout: &Layout)
        requires
            valid(old(self)@, site),
            site.well_formed(),
            layout.fits(site),
            index <= MAX_CARDS,
        ensures
            final(self)@ == selecting(old(self)@, index as int, layout),
            valid(final(self)@, site),
    {
        self.selected.set(self.tab, index);
        if self.tab == BLOG_TAB {
            self.reveal_blog_selection(site, layout);
        }
    }

    /// Scrolls the front pane `amount` rows back or on.
    fn scroll_text(&mut self, back: bool, amount: usize, site: &Site, layout: &Layout)
        requires
            valid(old(self)@, site),
            site.well_formed(),
            layout.fits(site),
            amount <= MAX_LINES,
        ensures
            final(self)@ == text_scrolled(old(self)@, back, amount as int, site, layout),
            valid(final(self)@, site),
    {
        let limit = self.max_scroll(site, layout);
        let scroll = self.scroll[self.tab];
        let next = if back {
            saturating(scroll, amount)
        } else {
            least(scroll + amount, limit)
        };
        self.scroll.set(self.tab, next);
    }
}

/// How far a dialog's body is scrolled.
fn offset_of(modal: &Modal) -> (offset: usize)
    ensures
        offset == modal_offset(*modal),
{
    match modal {
        Modal::Timeline { scroll, .. } => *scroll,
        Modal::Help { scroll } => *scroll,
    }
}

/// `modal` scrolled to `offset`.
fn scrolled_to(modal: &Modal, offset: usize) -> (moved: Modal)
    ensures
        moved == modal_at(*modal, offset),
{
    match modal {
        Modal::Timeline { event, .. } => Modal::Timeline { event: *event, scroll: offset },
        Modal::Help { .. } => Modal::Help { scroll: offset },
    }
}

/// The furthest a dialog's body scrolls.
fn modal_limit_of(modal: &Modal, site: &Site, layout: &Layout) -> (limit: usize)
    requires
        layout.fits(site),
        modal matches Modal::Timeline { event, .. } ==> event < site.event_count(),
    ensures
        limit == modal_limit(*modal, layout),
        limit <= MAX_LINES,
{
    match modal {
        Modal::Timeline { event, .. } => {
            proof {
                assert(layout.event_lines@[*event as int] <= MAX_LINES);
            }
            saturating(layout.event_lines[*event], layout.event_viewports[*event])
        },
        Modal::Help { .. } => saturating(layout.help_lines, layout.help_viewport),
    }
}

impl App {
    /// How many cards the front tab lists, for the tabs that are lists.
    fn list_len(&self, site: &Site) -> (len: Option<usize>)
        ensures
            len matches Some(n) ==> list_len(self@.tab as int, site) == Some(n as int),
            len is None ==> (list_len(self@.tab as int, site) is None),
    {
        if self.tab == TIMELINE_TAB {
            Some(site.timeline.len())
        } else if self.tab == BLOG_TAB {
            Some(site.blog.posts.len())
        } else {
            None
        }
    }

    /// Moves the selection of a list tab, or scrolls the About pane.
    fn move_selection(&mut self, back: bool, amount: usize, site: &Site, layout: &Layout)
        requires
            valid(old(self)@, site),
            site.well_formed(),
            layout.fits(site),
            amount <= MAX_LINES,
        ensures
            final(self)@ == moved(old(self)@, back, amount as int, site, layout),
            valid(final(self)@, site),
    {
        match self.list_len(site) {
            Some(len) => {
                let selected = self.selected[self.tab];
                let index = if back {
                    saturating(selected, amount)
                } else {
                    least(selected + amount, len - 1)
                };
                self.select(index, site, layout);
            },
            None => {
                let rows = if amount < 3 {
                    3
                } else {
                    amount
                };
                self.scroll_text(back, rows, site, layout);
            },
        }
    }

    /// Moves the blog's selection to the nearest card the wheel left on
    /// screen.
    fn follow_blog_scroll(&mut self, site: &Site, layout: &Layout)
        requires
            valid(old(self)@, site),
            site.well_formed(),
            layout.fits(site),
        ensures
            final(self)@ == followed(old(self)@, site, layout),
            valid(final(self)@, site),
    {
        let last = site.blog.posts.len() - 1;
        let viewport = self.viewport(layout);
        let viewport = if viewport < 1 {
            1
        } else {
            viewport
        };
        let scroll = self.scroll[BLOG_TAB];
        let first = least(scroll / POST_CARD_ROWS, last);
        let below = saturating((scroll + viewport) / POST_CARD_ROWS, 1);
        let bottom = if below < first {
            first
        } else if below > last {
            last
        } else {
            below
        };
        let selected = self.selected[BLOG_TAB];
        let next = if selected < first {
            first
        } else if selected > bottom {
            bottom
        } else {
            selected
        };
        self.selected.set(BLOG_TAB, next);
    }

    /// Moves a list tab's selection to `target` (or its last card), or
    /// scrolls the About pane to `target` (or its end).
    fn jump_to_edge(&mut self, target: usize, site: &Site, layout: &Layout)
        requires
            valid(old(self)@, site),
            site.well_formed(),
            layout.fits(site),
        ensures
            final(self)@ == jumped(old(self)@, target as int, site, layout),
            valid(final(self)@, site),
    {
        match self.list_len(site) {
            Some(len) => {
                let index = least(target, len - 1);
                self.select(index, site, layout);
            },
            None => {
                let limit = self.max_scroll(site, layout);
                self.scroll.set(self.tab, least(target, limit));
            },
        }
    }

    /// Scrolls the open dialog's body one row back or on.
    fn scroll_modal(&mut self, back: bool, site: &Site, layout: &Layout)
        requires
            valid(old(self)@, site),
            site.well_formed(),
            layout.fits(site),
        ensures
            final(self)@ == modal_scrolled(old(self)@, back, layout),
            valid(final(self)@, site),
    {
        let next_modal = match &self.modal {
            None => return,
            Some(modal) => {
                let limit = modal_limit_of(modal, site, layout);
                let offset = offset_of(modal);
                let next = if back {
                    saturating(offset, 1)
                } else {
                    least(offset + 1, limit)
                };
                scrolled_to(modal, next)
            },
        };
        self.modal = Some(next_modal);
    }

    /// Scrolls the open post `amount` rows back or on.
    fn scroll_reader(&mut self, back: bool, amount: usize, site: &Site, layout: &Layout)
        requires
            valid(old(self)@, site),
            site.well_formed(),
            layout.fits(site),
            amount <= MAX_LINES,
        ensures
            final(self)@ == reader_scrolled(old(self)@, back, amount as int, layout),
            valid(final(self)@, site),
    {
        let limit = self.max_reader_scroll(site, layout);
        let next_reader = match &self.reader {
            None => return,
            Some(reader) => {
                let next = if back {
                    saturating(reader.scroll, amount)
                } else {
                    least(reader.scroll + amount, limit)
                };
                Reader { post: reader.post, scroll: next }
            },
        };
        self.reader = Some(next_reader);
    }

    /// Moves the open post to scroll offset `offset`.
    fn set_reader_scroll(&mut self, offset: usize, site: &Site)
        requires
            valid(old(self)@, site),
            offset <= MAX_LINES,
        ensures
            final(self)@ == reader_at(old(self)@, offset as int),
            valid(final(self)@, site),
    {
        let next_reader = match &self.reader {
            None => return,
            Some(reader) => Reader { post: reader.post, scroll: offset },
        };
        self.reader = Some(next_reader);
    }

    /// Moves the open dialog to scroll offset `offset`.
    fn set_modal_scroll(&mut self, offset: usize, site: &Site)
        requires
            valid(old(self)@, site),
            offset <= MAX_LINES,
        ensures
            final(self)@ == modal_set(old(self)@, offset as int),
            valid(final(self)@, site),
    {
        let next_modal = match &self.modal {
            None => return,
            Some(modal) => scrolled_to(modal, offset),
        };
        self.modal = Some(next_modal);
    }

    /// Asks for `url` to be opened.
    fn request_url(&mut self, url: String)
        ensures
            final(self)@ == (Screen { actions: old(self)@.actions.push(url@), ..old(self)@ }),
    {
        self.actions.push(Action::OpenUrl(url));
        proof {
            assert(self@.actions =~= old(self)@.actions.push(url@));
        }
    }

    /// Opens the selected card: a timeline event's dialog, or a post in the
    /// reader, or a post that lives elsewhere in the browser.
    fn open_selected(&mut self, site: &Site)
        requires
            valid(old(self)@, site),
            site.well_formed(),
        ensures
            final(self)@ == opened(old(self)@, site),
            valid(final(self)@, site),
    {
        if self.tab == TIMELINE_TAB {
            let event = least(self.selected[TIMELINE_TAB], site.timeline.len() - 1);
            self.modal = Some(Modal::Timeline { event, scroll: 0 });
        } else if self.tab == BLOG_TAB {
            let post = least(self.selected[BLOG_TAB], site.blog.posts.len() - 1);
            let p = &site.blog.posts[post];
            proof {
                assert(p.fits(site.blog.blob@.len()));
            }
            if p.is_external() {
                let url = p.url(site.blog.blob.as_slice());
                self.request_url(url);
            } else {
                self.reader = Some(Reader { post, scroll: 0 });
            }
        }
    }

    /// Shows the view a site path names, and reports whether it named one.
    pub fn go_to(&mut self, path: &str, site: &Site, layout: &Layout) -> (found: bool)
        requires
            valid(old(self)@, site),
            site.well_formed(),
            layout.fits(site),
        ensures
            found == (destination_of(&site.blog, path@) is Some),
            final(self)@ == went_to(old(self)@, destination_of(&site.blog, path@), layout),
            valid(final(self)@, site),
    {
        match view_at(path, &site.blog) {
            Some(Destination::Post(post)) => {
                self.switch_tab(BLOG_TAB);
                self.selected.set(BLOG_TAB, post);
                self.reveal_blog_selection(site, layout);
                self.reader = Some(Reader { post, scroll: 0 });
                true
            },
            Some(Destination::Tab(tab)) => {
                self.switch_tab(tab);
                self.reader = None;
                true
            },
            None => false,
        }
    }
}

impl App {
    /// A page of the reader.
    fn reader_page(&self, layout: &Layout) -> (rows: usize)
        requires
            layout.header_rows <= MAX_LINES,
            layout.status_rows <= MAX_LINES,
        ensures
            rows == reader_page(self@, layout),
            rows <= MAX_LINES,
    {
        let rows = saturating(reader_viewport_of(self.viewport(layout)), 2);
        if rows < 1 {
            1
        } else {
            rows
        }
    }

    /// A key while a post is open in the reader.
    fn on_reader_key(&mut self, key: Key, site: &Site, layout: &Layout)
        requires
            valid(old(self)@, site),
            site.well_formed(),
            layout.fits(site),
        ensures
            final(self)@ == reader_key(old(self)@, key, layout),
            valid(final(self)@, site),
    {
        match key {
            Key::Esc | Key::Backspace | Key::Char('q') | Key::Left | Key::Char('h') => {
                self.reader = None;
            },
            Key::Char('?') => {
                self.modal = Some(Modal::Help { scroll: 0 });
            },
            Key::Up | Key::Char('k') => self.scroll_reader(true, 1, site, layout),
            Key::Down | Key::Char('j') => self.scroll_reader(false, 1, site, layout),
            Key::PageUp => {
                let page = self.reader_page(layout);
                self.scroll_reader(true, page, site, layout);
            },
            Key::PageDown => {
                let page = self.reader_page(layout);
                self.scroll_reader(false, page, site, layout);
            },
            Key::Home | Key::Char('g') => self.set_reader_scroll(0, site),
            Key::End | Key::Char('G') => {
                let limit = self.max_reader_scroll(site, layout);
                self.set_reader_scroll(limit, site);
            },
            _ => {},
        }
    }

    /// Activates button `index` of the open dialog, if it has one.
    fn press_dialog_button(&mut self, index: usize, site: &Site)
        requires
            valid(old(self)@, site),
            site.well_formed(),
        ensures
            final(self)@ == match dialog_link(old(self)@, index as int, site) {
                Some(url) => Screen { actions: old(self)@.actions.push(url), ..old(self)@ },
                None => old(self)@,
            },
            valid(final(self)@, site),
    {
        let event = match &self.modal {
            Some(Modal::Timeline { event, .. }) => *event,
            _ => return,
        };
        let links = &site.timeline[event].links;
        if index < links.len() {
            let url = links[index].url.decrypt();
            self.request_url(url);
        }
    }

    /// A key while a dialog is open.
    fn on_modal_key(&mut self, key: Key, site: &Site, layout: &Layout)
        requires
            valid(old(self)@, site),
            site.well_formed(),
            layout.fits(site),
        ensures
            final(self)@ == modal_key(old(self)@, key, site, layout),
            valid(final(self)@, site),
    {
        match key {
            Key::Char(d) => {
                if '1' <= d && d <= '9' {
                    let index = (d as u32 - '1' as u32) as usize;
                    self.press_dialog_button(index, site);
                } else if d == 'q' || d == ' ' {
                    self.modal = None;
                } else if d == 'k' {
                    self.scroll_modal(true, site, layout);
                } else if d == 'j' {
                    self.scroll_modal(false, site, layout);
                } else if d == 'g' {
                    self.set_modal_scroll(0, site);
                } else if d == 'G' {
                    self.scroll_modal_to_end(site, layout);
                }
            },
            Key::Esc | Key::Backspace => {
                self.modal = None;
            },
            Key::Up | Key::PageUp => self.scroll_modal(true, site, layout),
            Key::Down | Key::PageDown => self.scroll_modal(false, site, layout),
            Key::Home => self.set_modal_scroll(0, site),
            Key::End => self.scroll_modal_to_end(site, layout),
            _ => {},
        }
    }

    /// Scrolls the open dialog's body to its end.
    fn scroll_modal_to_end(&mut self, site: &Site, layout: &Layout)
        requires
            valid(old(self)@, site),
            site.well_formed(),
            layout.fits(site),
        ensures
            final(self)@ == match old(self)@.modal {
                Some(m) => modal_set(old(self)@, modal_limit(m, layout)),
                None => old(self)@,
            },
            valid(final(self)@, site),
    {
        let limit = match &self.modal {
            Some(modal) => modal_limit_of(modal, site, layout),
            None => return,
        };
        self.set_modal_scroll(limit, site);
    }

    /// A key on a pane with no post or dialog open.
    fn on_pane_key(&mut self, key: Key, mods: Mods, site: &Site, layout: &Layout)
        requires
            valid(old(self)@, site),
            site.well_formed(),
            layout.fits(site),
        ensures
            final(self)@ == pane_key(old(self)@, key, mods, site, layout),
            valid(final(self)@, site),
    {
        match key {
            Key::Left | Key::BackTab => self.switch_tab(self.tab + TAB_COUNT - 1),
            Key::Right | Key::Tab => self.switch_tab(self.tab + 1),
            Key::Up => self.move_selection(true, 1, site, layout),
            Key::PageUp => self.move_selection(true, 10, site, layout),
            Key::Down => self.move_selection(false, 1, site, layout),
            Key::PageDown => self.move_selection(false, 10, site, layout),
            Key::Home => self.jump_to_edge(0, site, layout),
            Key::End => self.jump_to_edge(usize::MAX, site, layout),
            Key::Enter => self.open_selected(site),
            Key::Char(c) => {
                if c == 'h' {
                    self.switch_tab(self.tab + TAB_COUNT - 1);
                } else if c == 'l' {
                    self.switch_tab(self.tab + 1);
                } else if c == '?' {
                    self.modal = Some(Modal::Help { scroll: 0 });
                } else if c == 'q' {
                    self.quit = true;
                } else if '1' <= c && c <= '3' {
                    self.switch_tab((c as u32 - '1' as u32) as usize);
                } else if c == 'k' && !mods.ctrl {
                    self.move_selection(true, 1, site, layout);
                } else if c == 'j' && !mods.ctrl {
                    self.move_selection(false, 1, site, layout);
                } else if c == 'g' {
                    self.jump_to_edge(0, site, layout);
                } else if c == 'G' {
                    self.jump_to_edge(usize::MAX, site, layout);
                }
            },
            _ => {},
        }
    }

    /// A key press.
    fn on_key(&mut self, key: Key, mods: Mods, site: &Site, layout: &Layout)
        requires
            valid(old(self)@, site),
            site.well_formed(),
            layout.fits(site),
        ensures
            final(self)@ == key_step(old(self)@, key, mods, site, layout),
            valid(final(self)@, site),
    {
        if mods.ctrl {
            match key {
                Key::Char('c') | Key::Char('d') => {
                    self.quit = true;
                    return;
                },
                _ => {},
            }
        }
        if self.modal.is_some() {
            self.on_modal_key(key, site, layout);
        } else if self.reader.is_some() {
            self.on_reader_key(key, site, layout);
        } else {
            self.on_pane_key(key, mods, site, layout);
        }
    }
}

/// What the frame's hit map reports for a cell is the target that
/// [`target_at`] names.
proof fn lemma_hit_is_target(hits: &HitMap, col: int, row: int, target: Option<HitTarget>)
    requires
        target is None <==> forall|i: int| 0 <= i < hits.regions().len() ==> !hits.hits(i, col, row),
        target matches Some(t) ==> exists|i: int|
            0 <= i < hits.regions().len() && hits.hits(i, col, row) && hits.regions()[i].1 == t
                && forall|j: int| i < j < hits.regions().len() ==> !hits.hits(j, col, row),
    ensures
        target == target_at(hits, col, row),
{
    match target {
        Some(t) => {
            let w = choose|i: int|
                0 <= i < hits.regions().len() && hits.hits(i, col, row) && hits.regions()[i].1 == t
                    && forall|j: int| i < j < hits.regions().len() ==> !hits.hits(j, col, row);
            assert(exists|i: int| 0 <= i < hits.regions().len() && hits.hits(i, col, row));
            let c = choose|i: int|
                0 <= i < hits.regions().len() && hits.hits(i, col, row) && forall|j: int|
                    i < j < hits.regions().len() ==> !hits.hits(j, col, row);
            assert(0 <= c < hits.regions().len() && hits.hits(c, col, row) && forall|j: int|
                c < j < hits.regions().len() ==> !hits.hits(j, col, row));
            if c < w {
                assert(!hits.hits(w, col, row));
            }
            if w < c {
                assert(!hits.hits(c, col, row));
            }
        },
        None => {},
    }
}

impl App {
    /// A click on `target`.
    fn on_click(&mut self, target: Option<HitTarget>, site: &Site, layout: &Layout)
        requires
            valid(old(self)@, site),
            site.well_formed(),
            layout.fits(site),
            target matches Some(HitTarget::Item(index)) ==> index <= MAX_CARDS,
        ensures
            final(self)@ == clicked(old(self)@, target, site, layout),
            valid(final(self)@, site),
    {
        match target {
            Some(HitTarget::Link(url)) => self.request_url(url),
            Some(HitTarget::Tab(tab)) => self.switch_tab(tab),
            Some(HitTarget::Close) => {
                self.reader = None;
            },
            Some(HitTarget::Item(index)) => {
                if self.list_len(site).is_some() {
                    self.select(index, site, layout);
                    self.open_selected(site);
                }
            },
            Some(HitTarget::Dialog) => {},
            Some(HitTarget::Dismiss) | None => {
                self.modal = None;
            },
        }
    }

    /// A wheel notch, back or on.
    fn on_wheel(&mut self, back: bool, site: &Site, layout: &Layout)
        requires
            valid(old(self)@, site),
            site.well_formed(),
            layout.fits(site),
        ensures
            final(self)@ == wheeled(old(self)@, back, site, layout),
            valid(final(self)@, site),
    {
        if self.modal.is_some() {
            self.scroll_modal(back, site, layout);
        } else if self.reader.is_some() {
            self.scroll_reader(back, WHEEL_ROWS, site, layout);
        } else if self.tab == BLOG_TAB {
            self.scroll_text(back, WHEEL_ROWS, site, layout);
            self.follow_blog_scroll(site, layout);
        } else {
            self.move_selection(back, 1, site, layout);
        }
    }

    /// Feeds one input into the state machine. A click resolves against
    /// the regions the last frame painted.
    pub fn handle(&mut self, input: Input, hits: &HitMap, site: &Site, layout: &Layout)
        requires
            valid(old(self)@, site),
            site.well_formed(),
            layout.fits(site),
            hits.well_formed(),
            items_in_reach(hits),
        ensures
            final(self)@ == stepped(old(self)@, input, hits, site, layout),
            valid(final(self)@, site),
    {
        match input {
            Input::Key { key, mods } => self.on_key(key, mods, site, layout),
            Input::Mouse(MouseEv::ScrollUp) => self.on_wheel(true, site, layout),
            Input::Mouse(MouseEv::ScrollDown) => self.on_wheel(false, site, layout),
            Input::Mouse(MouseEv::Click { col, row }) => {
                let target = hits.hit_test(col, row);
                proof {
                    lemma_hit_is_target(hits, col as int, row as int, target);
                    if let Some(HitTarget::Item(index)) = target {
                        let i = choose|i: int|
                            0 <= i < hits.regions().len() && hits.hits(i, col as int, row as int)
                                && hits.regions()[i].1 == HitTarget::Item(index) && forall|j: int|
                                i < j < hits.regions().len() ==> !hits.hits(j, col as int, row as int);
                        assert(hits.regions()[i].1 matches HitTarget::Item(index) ==> index <= MAX_CARDS);
                    }
                }
                self.on_click(target, site, layout);
            },
        }
    }
}

impl App {
    /// Re-anchors the scroll of whatever is on screen, once the size or the
    /// selection has moved.
    pub fn clamp_scroll(&mut self, site: &Site, layout: &Layout)
        requires
            valid(old(self)@, site),
            site.well_formed(),
            layout.fits(site),
        ensures
            final(self)@ == clamped(old(self)@, site, layout),
            valid(final(self)@, site),
    {
        let next_modal = match &self.modal {
            Some(modal) => {
                let limit = modal_limit_of(modal, site, layout);
                Some(scrolled_to(modal, least(offset_of(modal), limit)))
            },
            None => None,
        };
        self.modal = next_modal;
        let reader_limit = self.max_reader_scroll(site, layout);
        let next_reader = match &self.reader {
            Some(reader) => Some(Reader { post: reader.post, scroll: least(reader.scroll, reader_limit) }),
            None => None,
        };
        self.reader = next_reader;
        if self.tab != TIMELINE_TAB {
            if self.tab == BLOG_TAB {
                let last = site.blog.posts.len() - 1;
                self.selected.set(BLOG_TAB, least(self.selected[BLOG_TAB], last));
            }
            let limit = self.max_scroll(site, layout);
            self.scroll.set(self.tab, least(self.scroll[self.tab], limit));
            return;
        }
        let heights = &layout.card_heights;
        let last = heights.len() - 1;
        let selected = least(self.selected[TIMELINE_TAB], last);
        self.selected.set(TIMELINE_TAB, selected);
        let viewport = self.viewport(layout);
        let viewport = if viewport < 1 {
            1
        } else {
            viewport
        };
        let start = least(self.scroll[TIMELINE_TAB], selected);
        let mut scroll = start;
        let mut sum = range_total(heights, scroll, selected + 1);
        while scroll < selected && sum > viewport
            invariant
                start <= scroll <= selected < heights@.len(),
                total(heights@) <= MAX_LINES,
                sum == total(heights@.subrange(scroll as int, selected + 1)),
                settled(heights@, start as int, selected as int, viewport as int) == settled(
                    heights@,
                    scroll as int,
                    selected as int,
                    viewport as int,
                ),
            decreases selected - scroll,
        {
            proof {
                assert(heights@.subrange(scroll as int, selected + 1).drop_first() =~= heights@.subrange(
                    scroll + 1,
                    selected + 1,
                ));
                lemma_total_nonnegative(heights@.subrange(scroll + 1, selected + 1));
            }
            sum = sum - heights[scroll];
            scroll = scroll + 1;
        }
        self.scroll.set(TIMELINE_TAB, scroll);
    }

    /// The app as it first comes up, on the view the host asked for before
    /// it booted, if any.
    pub fn new(host: &mut HostState, site: &Site, layout: &Layout) -> (app: App)
        requires
            site.well_formed(),
            layout.fits(site),
        ensures
            app@ == match route_taken(old(host)@).0 {
                Some(path) => went_to(initial(), destination_of(&site.blog, path), layout),
                None => initial(),
            },
            final(host)@ == route_taken(old(host)@).1,
            valid(app@, site),
    {
        let mut app = App {
            cols: 0,
            rows: 0,
            tab: ABOUT_TAB,
            visited: [true, false, false],
            scroll: [0, 0, 0],
            selected: [0, 0, 0],
            reader: None,
            modal: None,
            quit: false,
            actions: Vec::new(),
        };
        assert(app@ =~= initial());
        match take_pending_route(host) {
            Some(route) => {
                app.go_to(route.as_str(), site, layout);
            },
            None => {},
        }
        app
    }

    /// The view the app is on, as a site path: an open post is its own
    /// permalink; everything else is its tab.
    pub fn route(&self, site: &Site) -> (route: String)
        requires
            valid(self@, site),
            site.well_formed(),
        ensures
            route@ == match self@.reader {
                Some(r) => site.blog.post_path(r.post as int),
                None => tab_route(self@.tab as int),
            },
    {
        match &self.reader {
            Some(reader) => {
                proof {
                    assert(site.blog.posts@[reader.post as int].fits(site.blog.blob@.len()));
                }
                site.blog.posts[reader.post].path(site.blog.blob.as_slice())
            },
            None => String::from_str(tab_route_of(self.tab)),
        }
    }

    /// Takes the terminal's new size, at least one cell each way.
    pub fn resize(&mut self, cols: u16, rows: u16)
        ensures
            final(self)@ == (Screen {
                cols: if cols < 1 {
                    1
                } else {
                    cols
                },
                rows: if rows < 1 {
                    1
                } else {
                    rows
                },
                ..old(self)@
            }),
    {
        self.cols = if cols < 1 {
            1
        } else {
            cols
        };
        self.rows = if rows < 1 {
            1
        } else {
            rows
        };
    }

    /// Drains the links the latest inputs activated. A link naming a view of
    /// this app is followed here rather than handed to the browser, so the
    /// two never disagree about what this app is responsible for.
    pub fn take_actions(&mut self, host: &mut HostState, site: &Site, layout: &Layout)
        requires
            valid(old(self)@, site),
            site.well_formed(),
            layout.fits(site),
        ensures
            (final(self)@, final(host)@) == followed_links(
                Screen { actions: Seq::empty(), ..old(self)@ },
                old(host)@,
                old(self)@.actions,
                site,
                layout,
            ),
            valid(final(self)@, site),
    {
        let mut taken: Vec<Action> = Vec::new();
        std::mem::swap(&mut taken, &mut self.actions);
        let ghost urls = old(self)@.actions;
        assert(taken@.map_values(|a: Action| action_url(a)) == urls);
        assert(urls.skip(0) =~= urls);
        assert(self@.actions =~= Seq::<Seq<char>>::empty());
        assert(self@ =~= (Screen { actions: Seq::empty(), ..old(self)@ }));
        let mut i: usize = 0;
        while i < taken.len()
            invariant
                i <= taken@.len(),
                taken@.map_values(|a: Action| action_url(a)) == urls,
                valid(self@, site),
                site.well_formed(),
                layout.fits(site),
                followed_links(Screen { actions: Seq::empty(), ..old(self)@ }, old(host)@, urls, site, layout)
                    == followed_links(self@, host@, urls.skip(i as int), site, layout),
            decreases taken.len() - i,
        {
            let ghost before = (self@, host@);
            let url = match &taken[i] {
                Action::OpenUrl(url) => url,
            };
            proof {
                assert(urls[i as int] == url@);
                assert(urls.skip(i as int)[0] == url@);
                assert(urls.skip(i as int).drop_first() =~= urls.skip(i + 1));
            }
            match link_target(url.as_str(), &site.blog) {
                LinkTarget::View(path) => {
                    self.go_to(path.as_str(), site, layout);
                },
                LinkTarget::External(link) => {
                    push_host_event(host, HostEvent::Open(link));
                },
                LinkTarget::Ignore => {},
            }
            proof {
                assert((self@, host@) == followed_link(before.0, before.1, url@, site, layout));
            }
            i = i + 1;
        }
        proof {
            assert(urls.skip(i as int) =~= Seq::<Seq<char>>::empty());
        }
    }
}

/// Where the timeline settles is no later than its selection, no earlier
/// than where it started, and there the cards up to the selection fit.
proof fn lemma_settled_stops(heights: Seq<usize>, start: int, selected: int, viewport: int)
    requires
        start <= selected,
    ensures
        start <= settled(heights, start, selected, viewport) <= selected,
        settled(heights, start, selected, viewport) == selected || total(
            heights.subrange(settled(heights, start, selected, viewport), selected + 1),
        ) <= viewport,
    decreases selected - start,
{
    if start < selected && total(heights.subrange(start, selected + 1)) > viewport {
        lemma_settled_stops(heights, start + 1, selected, viewport);
    }
}

/// After re-anchoring, nothing is scrolled past its end: the open dialog
/// and post stop at their last rows, a text pane at its last line, the
/// blog's selection names one of its posts, and the timeline's selection
/// is one of its events with the scroll no lower than it.
pub proof fn lemma_clamped_within_limits(s: Screen, site: &Site, layout: &Layout)
    requires
        valid(s, site),
        site.well_formed(),
        layout.fits(site),
    ensures
        ({
            let c = clamped(s, site, layout);
            &&& c.tab == s.tab
            &&& (c.modal matches Some(m) ==> modal_offset(m) <= modal_limit(m, layout))
            &&& (c.reader matches Some(r) ==> r.scroll <= max_reader_scroll(c, layout))
            &&& (c.tab != TIMELINE_TAB ==> c.scroll[c.tab as int] <= max_scroll(c, site, layout))
            &&& (c.tab == BLOG_TAB ==> c.selected[BLOG_TAB as int] < site.post_count())
            &&& (c.tab == TIMELINE_TAB ==> c.selected[TIMELINE_TAB as int] < site.event_count()
                && c.scroll[TIMELINE_TAB as int] <= c.selected[TIMELINE_TAB as int])
        }),
{
    let c = clamped(s, site, layout);
    if s.tab == TIMELINE_TAB {
        let selected = lesser(s.selected[TIMELINE_TAB as int] as int, site.event_count() - 1);
        let s3 = Screen {
            selected: s.selected.update(TIMELINE_TAB as int, selected as usize),
            ..s
        };
        let start = lesser(s.scroll[TIMELINE_TAB as int] as int, selected);
        lemma_settled_stops(layout.card_heights@, start, selected, at_least_one(body_rows(s3, layout)));
    }
}

/// Re-anchoring twice is re-anchoring once.
pub proof fn lemma_clamp_is_idempotent(s: Screen, site: &Site, layout: &Layout)
    requires
        valid(s, site),
        site.well_formed(),
        layout.fits(site),
    ensures
        clamped(clamped(s, site, layout), site, layout) == clamped(s, site, layout),
{
    let c = clamped(s, site, layout);
    lemma_clamped_within_limits(s, site, layout);
    if s.tab == TIMELINE_TAB {
        let selected = lesser(s.selected[TIMELINE_TAB as int] as int, site.event_count() - 1);
        let s3 = Screen {
            selected: s.selected.update(TIMELINE_TAB as int, selected as usize),
            ..s
        };
        let start = lesser(s.scroll[TIMELINE_TAB as int] as int, selected);
        let viewport = at_least_one(body_rows(s3, layout));
        lemma_settled_stops(layout.card_heights@, start, selected, viewport);
        let r = settled(layout.card_heights@, start, selected, viewport);
        assert(settled(layout.card_heights@, r, selected, viewport) == r);
        assert(clamped(c, site, layout).scroll =~= c.scroll);
        assert(clamped(c, site, layout).selected =~= c.selected);
    } else {
        assert(clamped(c, site, layout).scroll =~= c.scroll);
        assert(clamped(c, site, layout).selected =~= c.selected);
    }
    assert(clamped(c, site, layout) =~= c);
}

/// Ctrl-C and Ctrl-D quit, whatever is open.
pub proof fn lemma_ctrl_c_quits(s: Screen, c: char, mods: Mods, site: &Site, layout: &Layout)
    requires
        mods.ctrl,
        c == 'c' || c == 'd',
    ensures
        key_step(s, Key::Char(c), mods, site, layout).quit,
{
}

/// On a pane with nothing open, Left undoes Right: the tab that was in
/// front comes back.
pub proof fn lemma_left_undoes_right(s: Screen, mods: Mods, site: &Site, layout: &Layout)
    requires
        valid(s, site),
        s.modal is None,
        s.reader is None,
    ensures
        key_step(key_step(s, Key::Right, mods, site, layout), Key::Left, mods, site, layout).tab == s.tab,
{
}

/// Esc, Backspace and `q` close an open post and leave the tab where it
/// was.
pub proof fn lemma_escape_closes_reader(s: Screen, key: Key, mods: Mods, site: &Site, layout: &Layout)
    requires
        s.modal is None,
        s.reader is Some,
        !mods.ctrl,
        key == Key::Esc || key == Key::Backspace || key == Key::Char('q'),
    ensures
        key_step(s, key, mods, site, layout).reader is None,
        key_step(s, key, mods, site, layout).tab == s.tab,
        !key_step(s, key, mods, site, layout).quit || s.quit,
{
}

/// A tab's own route brings that tab back to the front with the reader
/// closed: every view the app can be in is a place the site can be entered
/// at.
pub proof fn lemma_tab_route_leads_back(s: Screen, tab: int, site: &Site, layout: &Layout)
    requires
        site.well_formed(),
        0 <= tab < TAB_COUNT,
    ensures
        went_to(s, destination_of(&site.blog, tab_route(tab)), layout).tab == tab,
        went_to(s, destination_of(&site.blog, tab_route(tab)), layout).reader is None,
{
    reveal_strlit("/about");
    reveal_strlit("/timeline");
    reveal_strlit("/blog");
    reveal_strlit("/blog/");
    let path = crate::tui::without_final_slash(tab_route(tab));
    assert(path == tab_route(tab));
    if crate::tui::has_post_at(&site.blog, path) {
        let i = choose|i: int| 0 <= i < site.blog.posts@.len() && site.blog.hosts_at(i, path);
        let p = site.blog.post_path(i);
        assert(p[1] == 'b');
        assert(p.len() > 5);
        assert(path[1] == 'a' || path[1] == 't' || path.len() == 5);
        assert(false);
    }
    if tab == BLOG_TAB {
        assert(path.take(5) =~= "/blog"@);
        assert(crate::tui::under_blog(path));
    }
}

/// A post's permalink opens that post in the reader, on the blog tab:
/// where the post is local, the first one at that path, and its path does
/// not end in a slash.
pub proof fn lemma_post_route_leads_back(s: Screen, post: int, site: &Site, layout: &Layout)
    requires
        site.well_formed(),
        0 <= post < site.post_count(),
        site.blog.hosts_at(post, site.blog.post_path(post)),
        forall|j: int| 0 <= j < post ==> !#[trigger] site.blog.hosts_at(j, site.blog.post_path(post)),
        site.blog.post_path(post).last() != '/',
    ensures
        went_to(s, destination_of(&site.blog, site.blog.post_path(post)), layout).reader == Some(
            Reader { post: post as usize, scroll: 0 },
        ),
        went_to(s, destination_of(&site.blog, site.blog.post_path(post)), layout).tab == BLOG_TAB,
{
    let path = site.blog.post_path(post);
    reveal_strlit("/blog/");
    assert(path.len() > 0);
    assert(crate::tui::without_final_slash(path) == path);
    crate::tui::lemma_found_is_first(&site.blog, path, post);
}

} // verus!
