//! What the site's screen works out before it draws: the header's plan at a
//! given size (the wordmark, the plain name or none; the tabs beside it or
//! under it), and where a scroll offset lands among the reader's blocks.

use crate::text::{push_char, trim, trimmed};
use crate::tui::{column_cols, timeline_column_width, TAB_COUNT};
use vstd::prelude::*;
use vstd::string::*;

verus! {

/// The site's name, as the header sets it.
pub const TITLE: &'static str = " DEV SAM ";

/// Narrower than this, the app takes itself to be on a phone.
pub const PHONE_COLS: usize = 60;

/// Shorter than this, the app takes itself to be on a phone.
pub const PHONE_ROWS: usize = 24;

/// The least air between the name and the tabs when they share a row.
pub const HEADER_GAP_MIN: usize = 4;

/// The air between one tab and the next.
pub const TAB_GAP: usize = 3;

/// The row of air above the header.
pub const HEADER_MARGIN_ROWS: usize = 1;

/// The rule under the header.
pub const RULE_ROWS: usize = 1;

/// The air a card keeps inside its own left and right edges.
pub const CARD_PAD_COLS: usize = 1;

/// The three rows of a wordmark letter; only the letters the name spells
/// are drawn, anything else has none.
pub open spec fn glyph(c: char) -> Option<(Seq<char>, Seq<char>, Seq<char>)> {
    if c == ' ' {
        Some((" "@, " "@, " "@))
    } else if c == 'A' {
        Some(("█▀█"@, "█▀█"@, "▀ ▀"@))
    } else if c == 'D' {
        Some(("█▀▄"@, "█ █"@, "▀▀ "@))
    } else if c == 'E' {
        Some(("█▀▀"@, "█▀ "@, "▀▀▀"@))
    } else if c == 'L' {
        Some(("█  "@, "█  "@, "▀▀▀"@))
    } else if c == 'M' {
        Some(("█▄█"@, "█ █"@, "▀ ▀"@))
    } else if c == 'O' {
        Some(("█▀█"@, "█ █"@, "▀▀▀"@))
    } else if c == 'P' {
        Some(("█▀█"@, "█▀▀"@, "▀  "@))
    } else if c == 'R' {
        Some(("█▀█"@, "█▀▄"@, "▀ ▀"@))
    } else if c == 'S' {
        Some(("█▀▀"@, "▀▀█"@, "▀▀▀"@))
    } else if c == 'V' {
        Some(("█ █"@, "█ █"@, " ▀ "@))
    } else {
        None
    }
}

/// A letter's cells appended to a row, a cell of air between letters.
pub open spec fn joined_row(row: Seq<char>, cells: Seq<char>) -> Seq<char> {
    if row.len() == 0 {
        cells
    } else {
        row.push(' ') + cells
    }
}

/// `text` set as the three-row wordmark, or `None` when it spells a letter
/// the wordmark has no glyph for.
pub open spec fn banner(text: Seq<char>) -> Option<(Seq<char>, Seq<char>, Seq<char>)>
    decreases text.len(),
{
    if text.len() == 0 {
        Some((Seq::empty(), Seq::empty(), Seq::empty()))
    } else {
        match (banner(text.drop_last()), glyph(text.last())) {
            (Some(rows), Some(cells)) => Some(
                (joined_row(rows.0, cells.0), joined_row(rows.1, cells.1), joined_row(rows.2, cells.2)),
            ),
            _ => None,
        }
    }
}

/// Once a prefix of `text` has no wordmark, `text` has none.
proof fn lemma_banner_stays_none(text: Seq<char>, i: int)
    requires
        0 <= i <= text.len(),
        banner(text.take(i)) is None,
    ensures
        banner(text) is None,
    decreases text.len() - i,
{
    if i < text.len() {
        assert(text.take(i + 1).drop_last() =~= text.take(i));
        lemma_banner_stays_none(text, i + 1);
    } else {
        assert(text.take(i) =~= text);
    }
}

/// The cells of the wordmark letter `c`.
fn glyph_cells(c: char) -> (cells: Option<(&'static str, &'static str, &'static str)>)
    ensures
        match cells {
            Some(g) => glyph(c) == Some((g.0@, g.1@, g.2@)),
            None => glyph(c) is None,
        },
{
    if c == ' ' {
        Some((" ", " ", " "))
    } else if c == 'A' {
        Some(("█▀█", "█▀█", "▀ ▀"))
    } else if c == 'D' {
        Some(("█▀▄", "█ █", "▀▀ "))
    } else if c == 'E' {
        Some(("█▀▀", "█▀ ", "▀▀▀"))
    } else if c == 'L' {
        Some(("█  ", "█  ", "▀▀▀"))
    } else if c == 'M' {
        Some(("█▄█", "█ █", "▀ ▀"))
    } else if c == 'O' {
        Some(("█▀█", "█ █", "▀▀▀"))
    } else if c == 'P' {
        Some(("█▀█", "█▀▀", "▀  "))
    } else if c == 'R' {
        Some(("█▀█", "█▀▄", "▀ ▀"))
    } else if c == 'S' {
        Some(("█▀▀", "▀▀█", "▀▀▀"))
    } else if c == 'V' {
        Some(("█ █", "█ █", " ▀ "))
    } else {
        None
    }
}

/// Appends a letter's cells to a row, a cell of air between letters.
fn join_cells(row: &mut String, cells: &str)
    ensures
        final(row)@ == joined_row(old(row)@, cells@),
{
    if row.as_str().unicode_len() > 0 {
        push_char(row, ' ');
    }
    row.append(cells);
}

/// `text` set as the three-row wordmark, or `None` when it spells a letter
/// the wordmark has no glyph for.
pub fn banner_rows(text: &str) -> (rows: Option<(String, String, String)>)
    ensures
        match rows {
            Some((a, b, c)) => banner(text@) == Some((a@, b@, c@)),
            None => banner(text@) is None,
        },
{
    let n = text.unicode_len();
    let mut top = String::new();
    let mut middle = String::new();
    let mut bottom = String::new();
    let mut i: usize = 0;
    assert(text@.take(0) =~= Seq::<char>::empty());
    while i < n
        invariant
            n == text@.len(),
            i <= n,
            banner(text@.take(i as int)) == Some((top@, middle@, bottom@)),
        decreases n - i,
    {
        let c = text.get_char(i);
        assert(text@.take(i + 1).drop_last() =~= text@.take(i as int));
        assert(text@.take(i + 1).last() == c);
        match glyph_cells(c) {
            Some((a, b, d)) => {
                join_cells(&mut top, a);
                join_cells(&mut middle, b);
                join_cells(&mut bottom, d);
            },
            None => {
                proof {
                    lemma_banner_stays_none(text@, i + 1);
                }
                return None;
            },
        }
        i = i + 1;
    }
    assert(text@.take(n as int) =~= text@);
    Some((top, middle, bottom))
}

/// Whether a screen of this size is read on something the size of a phone.
pub open spec fn phone_sized(cols: int, rows: int) -> bool {
    cols < PHONE_COLS || rows < PHONE_ROWS
}

/// Whether the app is being read on something the size of a phone: size is
/// the signal, not the device.
pub fn touch_sized(cols: usize, rows: usize) -> (phone: bool)
    ensures
        phone == phone_sized(cols as int, rows as int),
{
    cols < PHONE_COLS || rows < PHONE_ROWS
}

/// The name of each tab, in the bar's order.
pub open spec fn tab_label(tab: int) -> Seq<char> {
    if tab == 0 {
        "About"@
    } else if tab == 1 {
        "Timeline"@
    } else {
        "Blog"@
    }
}

/// The name of tab `tab`.
pub fn tab_name(tab: usize) -> (name: &'static str)
    requires
        tab < TAB_COUNT,
    ensures
        name@ == tab_label(tab as int),
{
    if tab == 0 {
        "About"
    } else if tab == 1 {
        "Timeline"
    } else {
        "Blog"
    }
}

/// Every tab with its name, in order.
pub open spec fn full_labels() -> Seq<(usize, Seq<char>)> {
    seq![(0usize, tab_label(0)), (1usize, tab_label(1)), (2usize, tab_label(2))]
}

/// The characters of all the labels together.
pub open spec fn label_chars(labels: Seq<(usize, Seq<char>)>) -> int
    decreases labels.len(),
{
    if labels.len() == 0 {
        0
    } else {
        label_chars(labels.drop_last()) + labels.last().1.len()
    }
}

/// Cells the labels take in a row, with the gaps between them.
pub open spec fn labels_width(labels: Seq<(usize, Seq<char>)>) -> int {
    label_chars(labels) + TAB_GAP * (if labels.len() > 0 {
        labels.len() - 1
    } else {
        0
    })
}

/// The room the header has at this width: the app's column, inset like
/// everything in it.
pub open spec fn header_room(cols: u16) -> int {
    column_cols(cols) - 2 * CARD_PAD_COLS
}

/// How the header names the site.
pub enum HeaderTitle {
    /// The wordmark, three rows tall.
    Banner(String, String, String),
    /// The name as plain text, one row.
    Plain(String),
    /// No name, on a screen too narrow or too small to spare the room.
    Nameless,
}

/// What the header names the site with, as values.
pub enum TitleView {
    Banner(Seq<char>, Seq<char>, Seq<char>),
    Plain(Seq<char>),
    Nameless,
}

/// What the header can afford to show at a size.
pub struct HeaderPlan {
    pub title: HeaderTitle,
    pub labels: Vec<(usize, String)>,
    /// Whether the tabs ride the title's last row rather than a row of their
    /// own under it.
    pub inline_tabs: bool,
    /// The air between the name and the tabs when they share a row.
    pub gap: usize,
}

/// A header plan as values.
pub struct PlanView {
    pub title: TitleView,
    pub labels: Seq<(usize, Seq<char>)>,
    pub inline_tabs: bool,
    pub gap: int,
}

pub open spec fn title_view(title: HeaderTitle) -> TitleView {
    match title {
        HeaderTitle::Banner(a, b, c) => TitleView::Banner(a@, b@, c@),
        HeaderTitle::Plain(name) => TitleView::Plain(name@),
        HeaderTitle::Nameless => TitleView::Nameless,
    }
}

pub open spec fn labels_view(labels: Seq<(usize, String)>) -> Seq<(usize, Seq<char>)> {
    labels.map_values(|label: (usize, String)| (label.0, label.1@))
}

pub open spec fn plan_view(plan: HeaderPlan) -> PlanView {
    PlanView {
        title: title_view(plan.title),
        labels: labels_view(plan.labels@),
        inline_tabs: plan.inline_tabs,
        gap: plan.gap as int,
    }
}

/// Cells the title takes across.
pub open spec fn title_width(title: TitleView) -> int {
    match title {
        TitleView::Banner(top, _, _) => top.len() as int,
        TitleView::Plain(name) => name.len() as int,
        TitleView::Nameless => 0,
    }
}

/// Rows the title block takes.
pub open spec fn title_rows(title: TitleView) -> int {
    match title {
        TitleView::Banner(..) => 3,
        TitleView::Plain(_) => 1,
        TitleView::Nameless => 0,
    }
}

/// Rows the whole header takes: the air above it, the title block, the
/// tabs' own row when they do not share the title's, and the rule.
pub open spec fn plan_rows(plan: PlanView) -> int {
    HEADER_MARGIN_ROWS + title_rows(plan.title) + (if plan.inline_tabs {
        0int
    } else {
        1int
    }) + RULE_ROWS
}

/// The richest header that fits, the way the site's nav collapses: the
/// wordmark, then the plain name, then none (and none at all on a phone);
/// every tab named, else only the one in front; the tabs beside the name
/// when they fit there with air to spare, centered in what the name leaves,
/// else under it.
pub open spec fn header_plan_of(tab: int, cols: u16, rows: u16) -> PlanView {
    let phone = phone_sized(cols as int, rows as int);
    let room = header_room(cols);
    let labels = if labels_width(full_labels()) <= room {
        full_labels()
    } else {
        seq![(tab as usize, tab_label(tab))]
    };
    let name = trimmed(TITLE@);
    let title = if !phone && banner(name) is Some && banner(name).unwrap().0.len() <= room {
        let rows = banner(name).unwrap();
        TitleView::Banner(rows.0, rows.1, rows.2)
    } else if !phone && name.len() <= room {
        TitleView::Plain(name)
    } else {
        TitleView::Nameless
    };
    let tw = title_width(title);
    let lw = labels_width(labels);
    let inline_tabs = tw > 0 && tw + HEADER_GAP_MIN + lw <= room;
    let gap = if !inline_tabs {
        0
    } else if (room - tw - lw) / 2 < HEADER_GAP_MIN {
        HEADER_GAP_MIN as int
    } else {
        (room - tw - lw) / 2
    };
    PlanView { title, labels, inline_tabs, gap }
}

/// Cells the labels take in a row, with the gaps between them.
fn labels_cells(labels: &Vec<(usize, String)>) -> (cells: usize)
    requires
        labels@.len() <= TAB_COUNT,
        forall|i: int| 0 <= i < labels@.len() ==> #[trigger] labels@[i].1@.len() <= 8,
    ensures
        cells == labels_width(labels_view(labels@)),
{
    let ghost all = labels_view(labels@);
    let mut total: usize = 0;
    let mut i: usize = 0;
    assert(all.take(0) =~= Seq::<(usize, Seq<char>)>::empty());
    while i < labels.len()
        invariant
            all == labels_view(labels@),
            labels@.len() <= TAB_COUNT,
            forall|j: int| 0 <= j < labels@.len() ==> #[trigger] labels@[j].1@.len() <= 8,
            i <= labels@.len(),
            total == label_chars(all.take(i as int)),
            total <= 8 * i,
        decreases labels.len() - i,
    {
        assert(all.take(i + 1).drop_last() =~= all.take(i as int));
        total = total + labels[i].1.as_str().unicode_len();
        i = i + 1;
    }
    assert(all.take(i as int) =~= all);
    if i > 0 {
        total + TAB_GAP * (i - 1)
    } else {
        total
    }
}

/// Every tab with its name, in order.
fn all_labels() -> (labels: Vec<(usize, String)>)
    ensures
        labels_view(labels@) == full_labels(),
        labels@.len() == TAB_COUNT,
        forall|i: int| 0 <= i < labels@.len() ==> #[trigger] labels@[i].1@.len() <= 8,
{
    proof {
        reveal_strlit("About");
        reveal_strlit("Timeline");
        reveal_strlit("Blog");
    }
    let mut labels: Vec<(usize, String)> = Vec::new();
    labels.push((0, String::from_str("About")));
    labels.push((1, String::from_str("Timeline")));
    labels.push((2, String::from_str("Blog")));
    assert(labels_view(labels@) =~= full_labels());
    labels
}

/// The richest header that fits at this size, for the tab in front.
pub fn header_plan(tab: usize, cols: u16, rows: u16) -> (plan: HeaderPlan)
    requires
        tab < TAB_COUNT,
    ensures
        plan_view(plan) == header_plan_of(tab as int, cols, rows),
{
    proof {
        reveal_strlit("About");
        reveal_strlit("Timeline");
        reveal_strlit("Blog");
    }
    let phone = touch_sized(cols as usize, rows as usize);
    let room = timeline_column_width(cols) - 2 * CARD_PAD_COLS;
    let full = all_labels();
    let labels = if labels_cells(&full) <= room {
        full
    } else {
        let mut compact: Vec<(usize, String)> = Vec::new();
        compact.push((tab, String::from_str(tab_name(tab))));
        assert(labels_view(compact@) =~= seq![(tab, tab_label(tab as int))]);
        compact
    };
    let lw = labels_cells(&labels);
    let name = trim(TITLE);
    let title = match if phone {
        None
    } else {
        banner_rows(name.as_str())
    } {
        Some((a, b, c)) if a.as_str().unicode_len() <= room => HeaderTitle::Banner(a, b, c),
        _ => if !phone && name.as_str().unicode_len() <= room {
            HeaderTitle::Plain(name)
        } else {
            HeaderTitle::Nameless
        },
    };
    let tw = match &title {
        HeaderTitle::Banner(a, _, _) => a.as_str().unicode_len(),
        HeaderTitle::Plain(name) => name.as_str().unicode_len(),
        HeaderTitle::Nameless => 0,
    };
    let inline_tabs = tw > 0 && tw <= room && lw <= room - tw && HEADER_GAP_MIN <= room - tw - lw;
    let gap = if !inline_tabs {
        0
    } else if (room - tw - lw) / 2 < HEADER_GAP_MIN {
        HEADER_GAP_MIN
    } else {
        (room - tw - lw) / 2
    };
    HeaderPlan { title, labels, inline_tabs, gap }
}

/// Rows the header takes at this size, which is where the body below it
/// starts.
pub fn header_rows(tab: usize, cols: u16, rows: u16) -> (count: usize)
    requires
        tab < TAB_COUNT,
    ensures
        count == plan_rows(header_plan_of(tab as int, cols, rows)),
{
    let plan = header_plan(tab, cols, rows);
    let title = match plan.title {
        HeaderTitle::Banner(..) => 3,
        HeaderTitle::Plain(_) => 1,
        HeaderTitle::Nameless => 0,
    };
    HEADER_MARGIN_ROWS + title + if plan.inline_tabs {
        0
    } else {
        1
    } + RULE_ROWS
}

/// The header always fits its room, so no row of it ever wraps: the name
/// and the labels each fit, and when the tabs share the name's row, the
/// name, the air and the tabs together do.
pub proof fn lemma_header_fits(tab: int, cols: u16, rows: u16)
    requires
        0 <= tab < TAB_COUNT,
    ensures
        ({
            let plan = header_plan_of(tab, cols, rows);
            let room = header_room(cols);
            &&& title_width(plan.title) <= room
            &&& labels_width(plan.labels) <= room
            &&& plan.inline_tabs ==> title_width(plan.title) + plan.gap + labels_width(plan.labels) <= room
        }),
{
    reveal_strlit("About");
    reveal_strlit("Timeline");
    reveal_strlit("Blog");
    let compact = seq![(tab as usize, tab_label(tab))];
    assert(compact.drop_last() =~= Seq::<(usize, Seq<char>)>::empty());
    assert(label_chars(compact.drop_last()) == 0);
    assert(compact.last().1 == tab_label(tab));
    assert(label_chars(compact) == tab_label(tab).len());
    assert(labels_width(compact) == tab_label(tab).len());
    assert(header_room(cols) >= 10);
}

/// Rows the first `k` blocks take.
pub open spec fn rows_before(heights: Seq<usize>, k: int) -> int
    decreases k,
{
    if k <= 0 {
        0
    } else {
        rows_before(heights, k - 1) + heights[k - 1]
    }
}

/// More blocks take no fewer rows.
pub proof fn lemma_rows_before_grows(heights: Seq<usize>, j: int, k: int)
    requires
        0 <= j <= k,
    ensures
        rows_before(heights, j) <= rows_before(heights, k),
    decreases k - j,
{
    if j < k {
        lemma_rows_before_grows(heights, j, k - 1);
    }
}

/// Rows each of the reader's blocks occupies: one for a line, and for
/// artwork the rows `image_rows` gives at the same index, which the renderer
/// measured for it.
pub fn reader_block_heights(blocks: &Vec<crate::markdown::Block>, image_rows: &Vec<usize>) -> (heights: Vec<usize>)
    requires
        image_rows@.len() == blocks@.len(),
    ensures
        heights@.len() == blocks@.len(),
        forall|i: int|
            0 <= i < blocks@.len() ==> #[trigger] heights@[i] == if blocks@[i] is Line {
                1
            } else {
                image_rows@[i]
            },
{
    let mut heights: Vec<usize> = Vec::new();
    let mut i: usize = 0;
    while i < blocks.len()
        invariant
            i <= blocks@.len(),
            image_rows@.len() == blocks@.len(),
            heights@.len() == i,
            forall|j: int|
                0 <= j < i ==> #[trigger] heights@[j] == if blocks@[j] is Line {
                    1
                } else {
                    image_rows@[j]
                },
        decreases blocks.len() - i,
    {
        let height: usize = match &blocks[i] {
            crate::markdown::Block::Line(_) => 1,
            crate::markdown::Block::Image { .. } => image_rows[i],
        };
        heights.push(height);
        i = i + 1;
    }
    heights
}

/// Rows a post occupies in full, which is how far it scrolls: the sum of its
/// blocks' heights.
pub fn reader_row_count(heights: &Vec<usize>) -> (rows: usize)
    requires
        rows_before(heights@, heights@.len() as int) <= usize::MAX,
    ensures
        rows == rows_before(heights@, heights@.len() as int),
{
    let mut rows: usize = 0;
    let mut i: usize = 0;
    while i < heights.len()
        invariant
            i <= heights@.len(),
            rows == rows_before(heights@, i as int),
            rows_before(heights@, heights@.len() as int) <= usize::MAX,
        decreases heights.len() - i,
    {
        proof {
            lemma_rows_before_grows(heights@, i + 1, heights@.len() as int);
        }
        rows = rows + heights[i];
        i = i + 1;
    }
    rows
}

/// The block a scroll offset lands in, and how many of its rows are already
/// above the top edge: the one block whose rows hold the offset, or one past
/// the last block, with none above, when the offset is past them all.
pub fn block_at_row(heights: &Vec<usize>, scroll: usize) -> (at: (usize, usize))
    ensures
        scroll < rows_before(heights@, heights@.len() as int) ==> {
            &&& at.0 < heights@.len()
            &&& rows_before(heights@, at.0 as int) <= scroll < rows_before(heights@, at.0 + 1)
            &&& at.1 == scroll - rows_before(heights@, at.0 as int)
        },
        scroll >= rows_before(heights@, heights@.len() as int) ==> at.0 == heights@.len() && at.1 == 0,
{
    let mut row: usize = 0;
    let mut i: usize = 0;
    while i < heights.len()
        invariant
            i <= heights@.len(),
            row == rows_before(heights@, i as int),
            row <= scroll,
        decreases heights.len() - i,
    {
        let height = heights[i];
        if height > scroll - row {
            proof {
                lemma_rows_before_grows(heights@, i + 1, heights@.len() as int);
            }
            return (i, scroll - row);
        }
        row = row + height;
        i = i + 1;
    }
    (heights.len(), 0)
}

} // verus!
