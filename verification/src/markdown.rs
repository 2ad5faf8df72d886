//! The small markdown subset blog posts are written in, rendered into
//! styled spans wrapped to a column: one consistent, semantic style system
//! in which color encodes structure and meaning. Links come back alongside
//! the line for click handling.

use crate::text::{
    find_char_from, has_prefix, is_white, is_white_char, push_char, same_text, starts_with,
    texts_of, trailing_white,
};
use vstd::prelude::*;
use vstd::string::*;

pub use crate::editor::truncate;

verus! {

/// The role a span's color plays.
#[derive(Clone, Copy, PartialEq, Eq, Structural, Debug)]
pub enum Tone {
    /// No color of its own: the terminal's.
    Default,
    /// Body text.
    Text,
    /// Headings, inline code, links and bullets.
    Accent,
    /// Rules and quotes.
    Border,
    /// Code block lines.
    Plain,
    /// Secondary text.
    Muted,
}

/// How a span is drawn.
#[derive(Clone, Copy, PartialEq, Eq, Structural, Debug)]
pub struct Style {
    pub tone: Tone,
    pub bold: bool,
    pub italic: bool,
    pub underline: bool,
}

/// A run of text in one style.
#[derive(Clone, PartialEq, Eq, Debug)]
pub struct Span {
    pub text: String,
    pub style: Style,
}

/// A span as text and style.
pub open spec fn span_view(span: Span) -> (Seq<char>, Style) {
    (span.text@, span.style)
}

/// Spans as text and style.
pub open spec fn spans_view(spans: Seq<Span>) -> Seq<(Seq<char>, Style)> {
    spans.map_values(|span: Span| span_view(span))
}

/// A style in `tone` with no weight, slant or underline.
pub open spec fn plain_style(tone: Tone) -> Style {
    Style { tone, bold: false, italic: false, underline: false }
}

/// Running text in `tone`, bold and italic as toggled so far.
pub open spec fn text_style(tone: Tone, bold: bool, italic: bool) -> Style {
    Style { tone, bold, italic, underline: false }
}

/// Whether `c` starts inline markup: emphasis, code or a link.
pub open spec fn is_markup(c: char) -> bool {
    c == '*' || c == '`' || c == '['
}

/// How many characters `text` has before its first markup character.
pub open spec fn plain_run(text: Seq<char>) -> nat
    decreases text.len(),
{
    if text.len() == 0 || is_markup(text[0]) {
        0
    } else {
        1 + plain_run(text.drop_first())
    }
}

/// Where `a` directly followed by `b` first occurs in `text`.
pub open spec fn pair_index(text: Seq<char>, a: char, b: char) -> Option<int>
    decreases text.len(),
{
    if text.len() < 2 {
        None
    } else if text[0] == a && text[1] == b {
        Some(0)
    } else {
        match pair_index(text.drop_first(), a, b) {
            Some(i) => Some(i + 1),
            None => None,
        }
    }
}

/// A link's parts in what follows its `[`: where `](` starts, and where the
/// `)` closing the URL is.
pub open spec fn link_parts(tail: Seq<char>) -> Option<(int, int)> {
    match pair_index(tail, ']', '(') {
        Some(close) => match tail.skip(close + 2).index_of_first(')') {
            Some(i) => Some((close, close + 2 + i)),
            None => None,
        },
        None => None,
    }
}

/// One step of the inline renderer on what is left of the text: the span it
/// emits (none when it only toggles emphasis), how much it consumes, bold
/// and italic afterwards, and the URL of a link it rendered.
pub open spec fn inline_step(rest: Seq<char>, base: Tone, bold: bool, italic: bool) -> (
    Option<(Seq<char>, Style)>,
    nat,
    bool,
    bool,
    Option<Seq<char>>,
) {
    let cut = plain_run(rest);
    if cut > 0 {
        (Some((rest.take(cut as int), text_style(base, bold, italic))), cut, bold, italic, None)
    } else if has_prefix(rest, "**"@) {
        (None, 2, !bold, italic, None)
    } else if rest[0] == '`' {
        let tail = rest.drop_first();
        match tail.index_of_first('`') {
            Some(end) => (Some((tail.take(end), plain_style(Tone::Accent))), (end + 2) as nat, bold, italic, None),
            None => (Some((tail, plain_style(Tone::Accent))), rest.len(), bold, italic, None),
        }
    } else if rest[0] == '[' {
        let tail = rest.drop_first();
        match link_parts(tail) {
            Some((close, end)) => (
                Some((tail.take(close), Style { tone: Tone::Accent, bold: false, italic: false, underline: true })),
                (end + 2) as nat,
                bold,
                italic,
                Some(tail.subrange(close + 2, end)),
            ),
            None => (Some(("["@, text_style(base, bold, italic))), 1, bold, italic, None),
        }
    } else {
        (None, 1, bold, !italic, None)
    }
}

/// The spans of inline markdown — `**bold**`, `*italic*`, `` `code` `` and
/// `[links](url)` — and the URL of its first link.
pub open spec fn inline_of(rest: Seq<char>, base: Tone, bold: bool, italic: bool) -> (Seq<(Seq<char>, Style)>, Option<Seq<char>>)
    decreases rest.len(),
{
    if rest.len() == 0 {
        (Seq::empty(), None)
    } else {
        let (span, used, b, i, link) = inline_step(rest, base, bold, italic);
        proof {
            lemma_inline_progress(rest, base, bold, italic);
        }
        let (later, later_link) = inline_of(rest.skip(used as int), base, b, i);
        (
            match span {
                Some(s) => seq![s] + later,
                None => later,
            },
            match link {
                Some(url) => Some(url),
                None => later_link,
            },
        )
    }
}

/// Every step consumes part of what is left, and no more than that.
pub proof fn lemma_inline_progress(rest: Seq<char>, base: Tone, bold: bool, italic: bool)
    requires
        rest.len() > 0,
    ensures
        0 < inline_step(rest, base, bold, italic).1 <= rest.len(),
{
    lemma_plain_run_bound(rest);
    reveal_strlit("**");
    crate::highlight::lemma_pair_prefix(rest, "**"@);
    rest.drop_first().index_of_first_ensures('`');
    lemma_pair_index_bound(rest.drop_first(), ']', '(');
    if let Some(close) = pair_index(rest.drop_first(), ']', '(') {
        rest.drop_first().skip(close + 2).index_of_first_ensures(')');
    }
    if has_prefix(rest, "**"@) {
        assert(rest.len() >= 2);
    }
}

/// Where the pair ends inside the text it was found in.
pub proof fn lemma_pair_index_bound(text: Seq<char>, a: char, b: char)
    ensures
        pair_index(text, a, b) matches Some(i) ==> 0 <= i && i + 2 <= text.len() && text[i] == a
            && text[i + 1] == b,
    decreases text.len(),
{
    if text.len() >= 2 && !(text[0] == a && text[1] == b) {
        lemma_pair_index_bound(text.drop_first(), a, b);
    }
}

/// The plain run lies inside the text and holds no markup.
pub proof fn lemma_plain_run_bound(text: Seq<char>)
    ensures
        plain_run(text) <= text.len(),
        forall|i: int| 0 <= i < plain_run(text) ==> !is_markup(#[trigger] text[i]),
        plain_run(text) < text.len() ==> is_markup(text[plain_run(text) as int]),
    decreases text.len(),
{
    if text.len() > 0 && !is_markup(text[0]) {
        lemma_plain_run_bound(text.drop_first());
        assert forall|i: int| 0 <= i < plain_run(text) implies !is_markup(#[trigger] text[i]) by {
            if i > 0 {
                assert(text[i] == text.drop_first()[i - 1]);
            }
        }
    }
}

/// Where `a` directly followed by `b` first occurs at or after `from`,
/// counted from `from`.
fn find_pair_from(text: &str, from: usize, a: char, b: char) -> (at: Option<usize>)
    requires
        from <= text@.len(),
    ensures
        match at {
            Some(i) => pair_index(text@.skip(from as int), a, b) == Some(i as int),
            None => pair_index(text@.skip(from as int), a, b) is None,
        },
{
    let n = text.unicode_len();
    let mut i = from;
    assert(text@.skip(from as int).skip(0) =~= text@.skip(from as int));
    while n - i >= 2
        invariant
            n == text@.len(),
            from <= i <= n,
            pair_index(text@.skip(from as int), a, b) == match pair_index(text@.skip(i as int), a, b) {
                Some(k) => Some(k + (i - from)),
                None => None,
            },
        decreases n - i,
    {
        let ghost rest = text@.skip(i as int);
        if text.get_char(i) == a && text.get_char(i + 1) == b {
            assert(rest[0] == a && rest[1] == b);
            return Some(i - from);
        }
        assert(rest.drop_first() =~= text@.skip(i + 1));
        i = i + 1;
    }
    assert(text@.skip(i as int).len() < 2);
    None
}

/// How many characters `text` has from `from` on before a markup character.
fn plain_run_from(text: &str, from: usize) -> (len: usize)
    requires
        from <= text@.len(),
    ensures
        len == plain_run(text@.skip(from as int)),
        from + len <= text@.len(),
{
    let n = text.unicode_len();
    let mut i = from;
    assert(text@.skip(from as int).skip(0) =~= text@.skip(from as int));
    while i < n
        invariant
            n == text@.len(),
            from <= i <= n,
            plain_run(text@.skip(from as int)) == (i - from) + plain_run(text@.skip(i as int)),
        ensures
            from <= i <= n,
            plain_run(text@.skip(from as int)) == (i - from) + plain_run(text@.skip(i as int)),
            i == n || is_markup(text@[i as int]),
        decreases n - i,
    {
        let c = text.get_char(i);
        if c == '*' || c == '`' || c == '[' {
            assert(text@.skip(i as int)[0] == c);
            break;
        }
        assert(text@.skip(i as int).drop_first() =~= text@.skip(i + 1));
        i = i + 1;
    }
    if i < n {
        assert(text@.skip(i as int)[0] == text@[i as int]);
    } else {
        assert(text@.skip(i as int).len() == 0);
    }
    i - from
}

/// The characters of `text` from `start` up to `end`, as a string.
fn piece(text: &str, start: usize, end: usize) -> (out: String)
    requires
        start <= end <= text@.len(),
    ensures
        out@ == text@.subrange(start as int, end as int),
{
    String::from_str(text.substring_char(start, end))
}

/// One step of the inline renderer at `pos`.
fn inline_step_at(text: &str, pos: usize, base: Tone, bold: bool, italic: bool) -> (stepped: (
    Option<Span>,
    usize,
    bool,
    bool,
    Option<String>,
))
    requires
        pos < text@.len(),
    ensures
        ({
            let (span, used, b, i, link) = inline_step(text@.skip(pos as int), base, bold, italic);
            &&& span == match stepped.0 {
                Some(s) => Some(span_view(s)),
                None => None,
            }
            &&& used == stepped.1
            &&& b == stepped.2
            &&& i == stepped.3
            &&& link == match stepped.4 {
                Some(url) => Some(url@),
                None => None,
            }
            &&& 0 < used <= text@.len() - pos
        }),
{
    let ghost rest = text@.skip(pos as int);
    let n = text.unicode_len();
    proof {
        lemma_plain_run_bound(rest);
        reveal_strlit("**");
        reveal_strlit("[");
        assert(rest[0] == text@[pos as int]);
        if pos + 1 < n {
            assert(rest[1] == text@[pos + 1]);
        }
        crate::highlight::lemma_pair_prefix(rest, "**"@);
    }
    let cut = plain_run_from(text, pos);
    if cut > 0 {
        let span = Span { text: piece(text, pos, pos + cut), style: Style { tone: base, bold, italic, underline: false } };
        assert(span.text@ =~= rest.take(cut as int));
        return (Some(span), cut, bold, italic, None);
    }
    let c = text.get_char(pos);
    if c == '*' && pos + 1 < n && text.get_char(pos + 1) == '*' {
        (None, 2, !bold, italic, None)
    } else if c == '`' {
        assert(text@.skip(pos + 1) =~= rest.drop_first());
        proof {
            rest.drop_first().index_of_first_ensures('`');
        }
        match find_char_from(text, pos + 1, '`') {
            Some(end) => {
                let span = Span { text: piece(text, pos + 1, pos + 1 + end), style: Style { tone: Tone::Accent, bold: false, italic: false, underline: false } };
                assert(span.text@ =~= rest.drop_first().take(end as int));
                (Some(span), end + 2, bold, italic, None)
            },
            None => {
                let span = Span { text: piece(text, pos + 1, n), style: Style { tone: Tone::Accent, bold: false, italic: false, underline: false } };
                assert(span.text@ =~= rest.drop_first());
                (Some(span), n - pos, bold, italic, None)
            },
        }
    } else if c == '[' {
        let ghost tail = rest.drop_first();
        assert(text@.skip(pos + 1) =~= tail);
        proof {
            lemma_pair_index_bound(tail, ']', '(');
        }
        match find_pair_from(text, pos + 1, ']', '(') {
            Some(close) => {
                assert(text@.skip(pos + 1 + close + 2) =~= tail.skip(close + 2));
                proof {
                    tail.skip(close + 2).index_of_first_ensures(')');
                }
                match find_char_from(text, pos + 1 + close + 2, ')') {
                    Some(i) => {
                        let end = close + 2 + i;
                        let name = piece(text, pos + 1, pos + 1 + close);
                        let url = piece(text, pos + 1 + close + 2, pos + 1 + end);
                        assert(name@ =~= tail.take(close as int));
                        assert(url@ =~= tail.subrange(close + 2, end as int));
                        let span = Span { text: name, style: Style { tone: Tone::Accent, bold: false, italic: false, underline: true } };
                        return (Some(span), end + 2, bold, italic, Some(url));
                    },
                    None => {},
                }
            },
            None => {},
        }
        let span = Span { text: String::from_str("["), style: Style { tone: base, bold, italic, underline: false } };
        (Some(span), 1, bold, italic, None)
    } else {
        (None, 1, bold, !italic, None)
    }
}

/// Renders inline markdown in `base` tone: `**bold**`, `*italic*`,
/// `` `code` `` and links, whose text alone is kept. Also gives the URL of
/// the first link.
pub fn inline(text: &str, base: Tone) -> (rendered: (Vec<Span>, Option<String>))
    ensures
        (spans_view(rendered.0@), match rendered.1 {
            Some(url) => Some(url@),
            None => None,
        }) == inline_of(text@, base, false, false),
{
    let n = text.unicode_len();
    let mut spans: Vec<Span> = Vec::new();
    let mut first_link: Option<String> = None;
    let mut pos: usize = 0;
    let mut bold = false;
    let mut italic = false;
    assert(text@.skip(0) =~= text@);
    while pos < n
        invariant
            n == text@.len(),
            pos <= n,
            inline_of(text@, base, false, false) == (
                spans_view(spans@) + inline_of(text@.skip(pos as int), base, bold, italic).0,
                match first_link {
                    Some(url) => Some(url@),
                    None => inline_of(text@.skip(pos as int), base, bold, italic).1,
                },
            ),
        decreases n - pos,
    {
        let ghost rest = text@.skip(pos as int);
        let ghost before = spans_view(spans@);
        let (span, used, next_bold, next_italic, link) = inline_step_at(text, pos, base, bold, italic);
        proof {
            assert(rest.skip(used as int) =~= text@.skip(pos + used));
        }
        match span {
            Some(s) => {
                let ghost v = span_view(s);
                spans.push(s);
                assert(spans_view(spans@) =~= before.push(v));
                assert(spans_view(spans@) + inline_of(text@.skip(pos + used), base, next_bold, next_italic).0
                    =~= before + (seq![v] + inline_of(text@.skip(pos + used), base, next_bold, next_italic).0));
            },
            None => {},
        }
        if first_link.is_none() {
            first_link = link;
        }
        bold = next_bold;
        italic = next_italic;
        pos = pos + used;
    }
    assert(text@.skip(n as int) =~= Seq::<char>::empty());
    assert(spans_view(spans@) + Seq::<(Seq<char>, Style)>::empty() =~= spans_view(spans@));
    (spans, first_link)
}

/// A row being filled by the wrapper: its spans and how many columns they
/// take.
#[verifier::ext_equal]
pub struct RowModel {
    pub spans: Seq<(Seq<char>, Style)>,
    pub used: int,
}

/// The columns spans take.
pub open spec fn width_of(spans: Seq<(Seq<char>, Style)>) -> int
    decreases spans.len(),
{
    if spans.len() == 0 {
        0
    } else {
        width_of(spans.drop_last()) + spans.last().0.len()
    }
}

/// The style of the spaces that indent a continuation row.
pub open spec fn indent_style() -> Style {
    plain_style(Tone::Default)
}

/// `n` spaces.
pub open spec fn spaces(n: nat) -> Seq<char> {
    Seq::new(n, |i: int| ' ')
}

/// `text` appended to `row` in `style`, merged into the last span when that
/// has the same style, which keeps the span count near the source's.
pub open spec fn appended(row: RowModel, text: Seq<char>, style: Style) -> RowModel {
    let spans = if row.spans.len() > 0 && row.spans.last().1 == style {
        row.spans.update(row.spans.len() - 1, (row.spans.last().0 + text, style))
    } else {
        row.spans.push((text, style))
    };
    RowModel { spans, used: row.used + text.len() }
}

/// A row with nothing on it.
pub open spec fn empty_row() -> RowModel {
    RowModel { spans: Seq::empty(), used: 0 }
}

/// A continuation row, seeded with `indent` columns of space.
pub open spec fn indented(indent: nat) -> RowModel {
    if indent > 0 {
        appended(empty_row(), spaces(indent), indent_style())
    } else {
        empty_row()
    }
}

/// Whether no word has landed on the row yet.
pub open spec fn fresh(row: RowModel) -> bool {
    forall|k: int, i: int|
        0 <= k < row.spans.len() && 0 <= i < row.spans[k].0.len() ==> is_white(#[trigger] row.spans[k].0[i])
}

/// A word wider than a whole row, hard-split at the row edge: each piece
/// fills what is left of the last row, and the rest goes on fresh rows.
pub open spec fn hard_split(rows: Seq<RowModel>, word: Seq<char>, style: Style, width: int, indent: nat) -> Seq<RowModel>
    decreases word.len(),
{
    if word.len() == 0 || rows.len() == 0 {
        rows
    } else {
        let rows1 = if width - rows.last().used <= 0 {
            rows.push(indented(indent))
        } else {
            rows
        };
        let room = width - rows1.last().used;
        if room <= 0 {
            rows1
        } else {
            let take = if room < word.len() {
                room
            } else {
                word.len() as int
            };
            let rows2 = rows1.update(rows1.len() - 1, appended(rows1.last(), word.take(take), style));
            let rest = word.skip(take);
            if rest.len() > 0 {
                hard_split(rows2.push(indented(indent)), rest, style, width, indent)
            } else {
                rows2
            }
        }
    }
}

/// One word placed: on the last row if it fits there (after a space when
/// one was pending and the row already holds a word), on a fresh row if
/// that is enough, or hard-split when it is wider than a whole row.
pub open spec fn placed(rows: Seq<RowModel>, pending: bool, word: Seq<char>, style: Style, width: int, indent: nat) -> Seq<RowModel> {
    let row = rows.last();
    let separator: int = if pending && !fresh(row) {
        1
    } else {
        0
    };
    if row.used + separator + word.len() <= width {
        let spaced = if separator == 1 {
            appended(row, seq![' '], style)
        } else {
            row
        };
        rows.update(rows.len() - 1, appended(spaced, word, style))
    } else if word.len() <= width - indent {
        rows.push(appended(indented(indent), word, style))
    } else {
        hard_split(rows, word, style, width, indent)
    }
}

/// The wrapper's rows so far and whether a space is waiting to be placed
/// before the next word.
#[verifier::ext_equal]
pub struct WrapState {
    pub rows: Seq<RowModel>,
    pub pending: bool,
}

/// The characters of one span fed to the wrapper, `word` holding the part
/// of a word read so far.
pub open spec fn fed_span(st: WrapState, text: Seq<char>, style: Style, word: Seq<char>, width: int, indent: nat) -> WrapState
    decreases text.len(),
{
    if text.len() == 0 {
        if word.len() > 0 {
            WrapState { rows: placed(st.rows, st.pending, word, style, width, indent), pending: false }
        } else {
            st
        }
    } else if is_white(text[0]) {
        let rows = if word.len() > 0 {
            placed(st.rows, st.pending, word, style, width, indent)
        } else {
            st.rows
        };
        fed_span(WrapState { rows, pending: true }, text.drop_first(), style, Seq::empty(), width, indent)
    } else {
        fed_span(st, text.drop_first(), style, word.push(text[0]), width, indent)
    }
}

/// Spans fed to the wrapper in turn; a word never runs across two spans.
pub open spec fn fed_spans(st: WrapState, spans: Seq<(Seq<char>, Style)>, width: int, indent: nat) -> WrapState
    decreases spans.len(),
{
    if spans.len() == 0 {
        st
    } else {
        fed_spans(fed_span(st, spans[0].0, spans[0].1, Seq::empty(), width, indent), spans.drop_first(), width, indent)
    }
}

/// Greedy word wrap of styled spans to `width` columns (at least one), rows
/// after the first indented by `indent` columns (less than the width). Each
/// span's style is carried onto every row it lands on.
pub open spec fn wrapped(spans: Seq<(Seq<char>, Style)>, width: nat, indent: nat) -> Seq<Seq<(Seq<char>, Style)>> {
    let w: int = if width < 1 {
        1
    } else {
        width as int
    };
    let i: int = if indent < w - 1 {
        indent as int
    } else {
        w - 1
    };
    let start = WrapState { rows: seq![empty_row()], pending: false };
    row_spans(fed_spans(start, spans, w, i as nat).rows)
}

/// Rows as the wrapper keeps them: at least one, none wider than `width`,
/// each knowing the columns its spans take.
pub open spec fn rows_ok(rows: Seq<RowModel>, width: int) -> bool {
    &&& rows.len() >= 1
    &&& forall|k: int| 0 <= k < rows.len() ==> 0 <= #[trigger] rows[k].used <= width
    &&& forall|k: int| 0 <= k < rows.len() ==> #[trigger] rows[k].used == width_of(rows[k].spans)
}

/// Appending text widens a row by the text's length.
proof fn lemma_appended_width(row: RowModel, text: Seq<char>, style: Style)
    requires
        row.used == width_of(row.spans),
    ensures
        appended(row, text, style).used == width_of(appended(row, text, style).spans),
{
    let out = appended(row, text, style);
    if row.spans.len() > 0 && row.spans.last().1 == style {
        assert(out.spans.drop_last() =~= row.spans.drop_last());
    } else {
        assert(out.spans.drop_last() =~= row.spans);
    }
}

/// A continuation row takes its indent.
proof fn lemma_indented_width(indent: nat)
    ensures
        indented(indent).used == indent,
        indented(indent).used == width_of(indented(indent).spans),
{
    if indent > 0 {
        lemma_appended_width(empty_row(), spaces(indent), indent_style());
    }
}

/// Placing a word keeps the rows within the width.
proof fn lemma_placed_ok(rows: Seq<RowModel>, pending: bool, word: Seq<char>, style: Style, width: int, indent: nat)
    requires
        rows_ok(rows, width),
        indent < width,
    ensures
        rows_ok(placed(rows, pending, word, style, width, indent), width),
{
    let row = rows.last();
    let separator: int = if pending && !fresh(row) {
        1
    } else {
        0
    };
    lemma_indented_width(indent);
    if row.used + separator + word.len() <= width {
        let spaced = if separator == 1 {
            appended(row, seq![' '], style)
        } else {
            row
        };
        lemma_appended_width(row, seq![' '], style);
        lemma_appended_width(spaced, word, style);
    } else if word.len() <= width - indent {
        lemma_appended_width(indented(indent), word, style);
    } else {
        lemma_hard_split_ok(rows, word, style, width, indent);
    }
}

/// Hard-splitting a word keeps the rows within the width.
proof fn lemma_hard_split_ok(rows: Seq<RowModel>, word: Seq<char>, style: Style, width: int, indent: nat)
    requires
        rows_ok(rows, width),
        indent < width,
    ensures
        rows_ok(hard_split(rows, word, style, width, indent), width),
    decreases word.len(),
{
    lemma_indented_width(indent);
    if word.len() > 0 {
        let rows1 = if width - rows.last().used <= 0 {
            rows.push(indented(indent))
        } else {
            rows
        };
        let room = width - rows1.last().used;
        if room > 0 {
            let take = if room < word.len() {
                room
            } else {
                word.len() as int
            };
            lemma_appended_width(rows1.last(), word.take(take), style);
            let rows2 = rows1.update(rows1.len() - 1, appended(rows1.last(), word.take(take), style));
            assert(rows_ok(rows2, width));
            if word.skip(take).len() > 0 {
                assert(rows_ok(rows2.push(indented(indent)), width));
                lemma_hard_split_ok(rows2.push(indented(indent)), word.skip(take), style, width, indent);
            }
        }
    }
}

/// A row of the wrapper as it is filled.
struct WrapRow {
    spans: Vec<Span>,
    used: usize,
}

/// A row as values.
spec fn row_view(row: WrapRow) -> RowModel {
    RowModel { spans: spans_view(row.spans@), used: row.used as int }
}

/// Rows as values.
spec fn rows_view(rows: Seq<WrapRow>) -> Seq<RowModel> {
    rows.map_values(|row: WrapRow| row_view(row))
}

/// `text` appended to `row` in `style`.
fn append_text(row: WrapRow, text: &str, style: Style) -> (out: WrapRow)
    requires
        row.used + text@.len() <= usize::MAX,
    ensures
        row_view(out) == appended(row_view(row), text@, style),
{
    let mut row = row;
    let ghost before = spans_view(row.spans@);
    let n = row.spans.len();
    if n > 0 && row.spans[n - 1].style == style {
        let mut last = row.spans.pop().unwrap();
        let ghost old_text = last.text@;
        last.text.append(text);
        row.spans.push(last);
        assert(spans_view(row.spans@) =~= before.update(n - 1, (old_text + text@, style)));
    } else {
        row.spans.push(Span { text: String::from_str(text), style });
        assert(spans_view(row.spans@) =~= before.push((text@, style)));
    }
    row.used = row.used + text.unicode_len();
    row
}

/// A continuation row, seeded with `indent` columns of space.
fn indented_row(indent: usize) -> (row: WrapRow)
    ensures
        row_view(row) == indented(indent as nat),
{
    let row = WrapRow { spans: Vec::new(), used: 0 };
    assert(row_view(row) =~= empty_row());
    if indent > 0 {
        let pad = crate::text::repeat_char(' ', indent);
        assert(pad@ =~= spaces(indent as nat));
        append_text(row, pad.as_str(), Style { tone: Tone::Default, bold: false, italic: false, underline: false })
    } else {
        row
    }
}

/// Whether no word has landed on the row yet.
fn is_fresh(row: &WrapRow) -> (is: bool)
    ensures
        is == fresh(row_view(*row)),
{
    let ghost view = row_view(*row);
    let mut k: usize = 0;
    while k < row.spans.len()
        invariant
            view == row_view(*row),
            k <= row.spans@.len(),
            forall|j: int, i: int| 0 <= j < k && 0 <= i < view.spans[j].0.len() ==> is_white(#[trigger] view.spans[j].0[i]),
        decreases row.spans.len() - k,
    {
        let text = row.spans[k].text.as_str();
        assert(text@ == view.spans[k as int].0);
        let n = text.unicode_len();
        let mut i: usize = 0;
        while i < n
            invariant
                n == text@.len(),
                i <= n,
                view == row_view(*row),
                k < row.spans@.len(),
                text@ == view.spans[k as int].0,
                forall|c: int| 0 <= c < i ==> is_white(#[trigger] text@[c]),
            decreases n - i,
        {
            if !is_white_char(text.get_char(i)) {
                assert(!is_white(view.spans[k as int].0[i as int]));
                return false;
            }
            i = i + 1;
        }
        assert forall|j: int, i: int| 0 <= j < k + 1 && 0 <= i < view.spans[j].0.len() implies is_white(
            #[trigger] view.spans[j].0[i],
        ) by {
            if j == k {
                assert(view.spans[j].0[i] == text@[i]);
            }
        }
        k = k + 1;
    }
    true
}

/// Hard-splits a word wider than a whole row at the row edge.
fn hard_split_rows(rows: &mut Vec<WrapRow>, word: &str, style: Style, width: usize, indent: usize)
    requires
        rows_ok(rows_view(old(rows)@), width as int),
        indent < width,
    ensures
        rows_view(final(rows)@) == hard_split(rows_view(old(rows)@), word@, style, width as int, indent as nat),
        rows_ok(rows_view(final(rows)@), width as int),
{
    let n = word.unicode_len();
    let mut start: usize = 0;
    let ghost goal = hard_split(rows_view(rows@), word@, style, width as int, indent as nat);
    assert(word@.skip(0) =~= word@);
    proof {
        lemma_indented_width(indent as nat);
    }
    while start < n
        invariant
            n == word@.len(),
            start <= n,
            indent < width,
            rows_ok(rows_view(rows@), width as int),
            goal == hard_split(rows_view(rows@), word@.skip(start as int), style, width as int, indent as nat),
            indented(indent as nat).used == indent,
            indented(indent as nat).used == width_of(indented(indent as nat).spans),
        decreases n - start,
    {
        let ghost before = rows_view(rows@);
        let ghost w = word@.skip(start as int);
        let last = rows.len() - 1;
        proof {
            assert(rows_view(rows@)[last as int] == row_view(rows@[last as int]));
        }
        if width - rows[last].used == 0 {
            rows.push(indented_row(indent));
            assert(rows_view(rows@) =~= before.push(indented(indent as nat)));
        }
        let ghost rows1 = rows_view(rows@);
        let last = rows.len() - 1;
        proof {
            assert(rows1[last as int] == row_view(rows@[last as int]));
        }
        let room = width - rows[last].used;
        let take = if room < n - start {
            room
        } else {
            n - start
        };
        let piece = word.substring_char(start, start + take);
        assert(piece@ =~= w.take(take as int));
        let row = rows.pop().unwrap();
        rows.push(append_text(row, piece, style));
        proof {
            lemma_appended_width(rows1.last(), w.take(take as int), style);
            assert(rows_view(rows@) =~= rows1.update(rows1.len() - 1, appended(rows1.last(), w.take(take as int), style)));
            assert(w.skip(take as int) =~= word@.skip(start + take));
        }
        start = start + take;
        if start < n {
            let ghost rows2 = rows_view(rows@);
            rows.push(indented_row(indent));
            assert(rows_view(rows@) =~= rows2.push(indented(indent as nat)));
        }
    }
    assert(word@.skip(n as int) =~= Seq::<char>::empty());
}

/// Places one word on the rows.
fn place(rows: &mut Vec<WrapRow>, pending: bool, word: &str, style: Style, width: usize, indent: usize)
    requires
        rows_ok(rows_view(old(rows)@), width as int),
        indent < width,
    ensures
        rows_view(final(rows)@) == placed(rows_view(old(rows)@), pending, word@, style, width as int, indent as nat),
        rows_ok(rows_view(final(rows)@), width as int),
{
    let ghost before = rows_view(rows@);
    proof {
        lemma_placed_ok(before, pending, word@, style, width as int, indent as nat);
        reveal_strlit(" ");
    }
    let count = word.unicode_len();
    let last = rows.len() - 1;
    assert(before[last as int] == row_view(rows@[last as int]));
    let fresh_row = is_fresh(&rows[last]);
    let separator: usize = if pending && !fresh_row {
        1
    } else {
        0
    };
    let room = width - rows[last].used;
    if separator <= room && count <= room - separator {
        let ghost old_rows = rows@;
        let mut row = rows.pop().unwrap();
        assert(row_view(row) == before.last());
        assert(" "@ =~= seq![' ']);
        if separator == 1 {
            row = append_text(row, " ", style);
        }
        let ghost spaced = row_view(row);
        row = append_text(row, word, style);
        rows.push(row);
        assert(rows@ =~= old_rows.drop_last().push(row));
        assert(rows_view(rows@) =~= before.update(before.len() - 1, appended(spaced, word@, style)));
        assert(rows_view(rows@) =~= placed(before, pending, word@, style, width as int, indent as nat));
    } else if count <= width - indent {
        let row = append_text(indented_row(indent), word, style);
        rows.push(row);
        assert(rows_view(rows@) =~= placed(before, pending, word@, style, width as int, indent as nat));
    } else {
        hard_split_rows(rows, word, style, width, indent);
    }
}

/// Rows of spans as text and style.
pub open spec fn rows_of(rows: Seq<Vec<Span>>) -> Seq<Seq<(Seq<char>, Style)>> {
    rows.map_values(|row: Vec<Span>| spans_view(row@))
}

/// The spans of each row model.
pub open spec fn row_spans(rows: Seq<RowModel>) -> Seq<Seq<(Seq<char>, Style)>> {
    rows.map_values(|row: RowModel| row.spans)
}

/// Greedy word wrap of styled spans to `width` columns, rows after the
/// first indented by `indent` columns. Splits spans at word boundaries,
/// carrying each span's style onto every row it lands on; never returns no
/// rows.
pub fn wrap(spans: &Vec<Span>, width: usize, indent: usize) -> (rows: Vec<Vec<Span>>)
    ensures
        rows_of(rows@) == wrapped(spans_view(spans@), width as nat, indent as nat),
{
    let width = if width < 1 {
        1
    } else {
        width
    };
    let indent = if indent < width - 1 {
        indent
    } else {
        width - 1
    };
    let ghost all = spans_view(spans@);
    let mut rows: Vec<WrapRow> = Vec::new();
    rows.push(WrapRow { spans: Vec::new(), used: 0 });
    let mut pending = false;
    let ghost start_state = WrapState { rows: seq![empty_row()], pending: false };
    assert(spans_view(rows@[0].spans@) =~= Seq::<(Seq<char>, Style)>::empty());
    assert(row_view(rows@[0]) =~= empty_row());
    assert(rows_view(rows@) =~= seq![empty_row()]);
    assert(all.skip(0) =~= all);
    let mut si: usize = 0;
    while si < spans.len()
        invariant
            all == spans_view(spans@),
            si <= spans@.len(),
            indent < width,
            rows_ok(rows_view(rows@), width as int),
            fed_spans(start_state, all, width as int, indent as nat) == fed_spans(
                WrapState { rows: rows_view(rows@), pending },
                all.skip(si as int),
                width as int,
                indent as nat,
            ),
        decreases spans.len() - si,
    {
        let text = spans[si].text.as_str();
        let style = spans[si].style;
        let ghost t = text@;
        proof {
            assert(all[si as int] == (t, style));
            assert(all.skip(si as int).drop_first() =~= all.skip(si + 1));
            assert(t.skip(0) =~= t);
        }
        let n = text.unicode_len();
        let mut word = String::new();
        let mut ci: usize = 0;
        while ci < n
            invariant
                n == t.len(),
                t == text@,
                ci <= n,
                indent < width,
                rows_ok(rows_view(rows@), width as int),
                fed_spans(start_state, all, width as int, indent as nat) == fed_spans(
                    fed_span(WrapState { rows: rows_view(rows@), pending }, t.skip(ci as int), style, word@, width as int, indent as nat),
                    all.skip(si + 1),
                    width as int,
                    indent as nat,
                ),
            decreases n - ci,
        {
            let c = text.get_char(ci);
            proof {
                assert(t.skip(ci as int)[0] == c);
                assert(t.skip(ci as int).drop_first() =~= t.skip(ci + 1));
            }
            if is_white_char(c) {
                if word.unicode_len() > 0 {
                    place(&mut rows, pending, word.as_str(), style, width, indent);
                }
                pending = true;
                word = String::new();
                assert(word@ =~= Seq::<char>::empty());
            } else {
                push_char(&mut word, c);
            }
            ci = ci + 1;
        }
        assert(t.skip(n as int) =~= Seq::<char>::empty());
        if word.unicode_len() > 0 {
            place(&mut rows, pending, word.as_str(), style, width, indent);
            pending = false;
        }
        si = si + 1;
    }
    assert(all.skip(si as int) =~= Seq::<(Seq<char>, Style)>::empty());
    let ghost final_rows = rows_view(rows@);
    let mut out: Vec<Vec<Span>> = Vec::new();
    let mut taken: usize = 0;
    let total = rows.len();
    while rows.len() > 0
        invariant
            taken + rows@.len() == total,
            total == final_rows.len(),
            rows_view(rows@) == final_rows.skip(taken as int),
            rows_of(out@) == row_spans(final_rows.take(taken as int)),
        decreases rows.len(),
    {
        let ghost before = rows@;
        let row = rows.remove(0);
        proof {
            assert(rows_view(before)[0] == row_view(before[0]));
            assert(final_rows.skip(taken as int)[0] == final_rows[taken as int]);
            assert(row_view(row) == final_rows[taken as int]);
            assert(rows_view(rows@) =~= rows_view(before).drop_first());
            assert(final_rows.skip(taken as int).drop_first() =~= final_rows.skip(taken + 1));
        }
        let ghost piece = spans_view(row.spans@);
        let ghost prev_out = out@;
        assert(piece == final_rows[taken as int].spans);
        assert(final_rows.take(taken + 1) =~= final_rows.take(taken as int).push(final_rows[taken as int]));
        assert(row_spans(final_rows.take(taken + 1)) =~= row_spans(final_rows.take(taken as int)).push(piece));
        out.push(row.spans);
        assert(rows_of(out@) =~= rows_of(prev_out).push(piece));
        taken = taken + 1;
    }
    assert(final_rows.take(taken as int) =~= final_rows);
    out
}

/// Feeding a span keeps the rows within the width.
proof fn lemma_fed_span_ok(st: WrapState, text: Seq<char>, style: Style, word: Seq<char>, width: int, indent: nat)
    requires
        rows_ok(st.rows, width),
        indent < width,
    ensures
        rows_ok(fed_span(st, text, style, word, width, indent).rows, width),
    decreases text.len(),
{
    if text.len() == 0 {
        if word.len() > 0 {
            lemma_placed_ok(st.rows, st.pending, word, style, width, indent);
        }
    } else if is_white(text[0]) {
        if word.len() > 0 {
            lemma_placed_ok(st.rows, st.pending, word, style, width, indent);
        }
        let rows = if word.len() > 0 {
            placed(st.rows, st.pending, word, style, width, indent)
        } else {
            st.rows
        };
        lemma_fed_span_ok(WrapState { rows, pending: true }, text.drop_first(), style, Seq::empty(), width, indent);
    } else {
        lemma_fed_span_ok(st, text.drop_first(), style, word.push(text[0]), width, indent);
    }
}

/// Feeding spans keeps the rows within the width.
proof fn lemma_fed_spans_ok(st: WrapState, spans: Seq<(Seq<char>, Style)>, width: int, indent: nat)
    requires
        rows_ok(st.rows, width),
        indent < width,
    ensures
        rows_ok(fed_spans(st, spans, width, indent).rows, width),
    decreases spans.len(),
{
    if spans.len() > 0 {
        lemma_fed_span_ok(st, spans[0].0, spans[0].1, Seq::empty(), width, indent);
        lemma_fed_spans_ok(
            fed_span(st, spans[0].0, spans[0].1, Seq::empty(), width, indent),
            spans.drop_first(),
            width,
            indent,
        );
    }
}

/// Wrapping gives at least one row, and no row is wider than the column:
/// every line of a post is exactly one terminal row, so the reader's scroll
/// arithmetic and what is painted agree.
pub proof fn lemma_wrapped_rows_fit(spans: Seq<(Seq<char>, Style)>, width: nat, indent: nat)
    ensures
        wrapped(spans, width, indent).len() >= 1,
        forall|k: int|
            0 <= k < wrapped(spans, width, indent).len() ==> width_of(#[trigger] wrapped(spans, width, indent)[k])
                <= if width < 1 {
                1
            } else {
                width
            },
{
    let w: int = if width < 1 {
        1
    } else {
        width as int
    };
    let i: int = if indent < w - 1 {
        indent as int
    } else {
        w - 1
    };
    let start = WrapState { rows: seq![empty_row()], pending: false };
    assert(rows_ok(start.rows, w));
    lemma_fed_spans_ok(start, spans, w, i as nat);
    let rows = fed_spans(start, spans, w, i as nat).rows;
    assert forall|k: int| 0 <= k < rows.len() implies width_of(#[trigger] row_spans(rows)[k]) <= w by {
        assert(rows[k].used <= w);
    }
}

/// How many ASCII digits `text` starts with.
pub open spec fn leading_digits(text: Seq<char>) -> nat
    decreases text.len(),
{
    if text.len() > 0 && '0' <= text[0] && text[0] <= '9' {
        1 + leading_digits(text.drop_first())
    } else {
        0
    }
}

/// The text after a numbered list item's `N. ` marker.
pub open spec fn numbered(line: Seq<char>) -> Option<Seq<char>> {
    let digits = leading_digits(line) as int;
    if digits == 0 || !has_prefix(line.skip(digits), ". "@) {
        None
    } else {
        Some(line.skip(digits + 2))
    }
}

/// A `![alt](url)` reference leading a line: its alt, URL and what trails
/// it.
pub open spec fn image_ref(line: Seq<char>) -> Option<(Seq<char>, Seq<char>, Seq<char>)> {
    if !has_prefix(line, "!["@) {
        None
    } else {
        let after = line.skip(2);
        match pair_index(after, ']', '(') {
            None => None,
            Some(close) => {
                let url_on = after.skip(close + 2);
                match url_on.index_of_first(')') {
                    None => None,
                    Some(end) => Some((after.take(close), url_on.take(end), url_on.skip(end + 1))),
                }
            },
        }
    }
}

/// Where `pattern` first occurs in `text`.
pub open spec fn find_text(text: Seq<char>, pattern: Seq<char>) -> Option<int>
    decreases text.len(),
{
    if has_prefix(text, pattern) {
        Some(0)
    } else if text.len() == 0 {
        None
    } else {
        match find_text(text.drop_first(), pattern) {
            Some(i) => Some(i + 1),
            None => None,
        }
    }
}

/// The URL in an HTML fragment's `src="…"`, if it carries one.
pub open spec fn src_of(html: Seq<char>) -> Option<Seq<char>> {
    match find_text(html, "src=\""@) {
        None => None,
        Some(at) => {
            let rest = html.skip(at + 5);
            match rest.index_of_first('"') {
                None => None,
                Some(end) => Some(rest.take(end)),
            }
        },
    }
}

/// Whether `line`, trailing white space aside, ends with `>`.
pub open spec fn closes_tag(line: Seq<char>) -> bool {
    let end = line.len() - trailing_white(line);
    end > 0 && line[end - 1] == '>'
}

/// The digits leading a line, and their count.
proof fn lemma_leading_digits_bound(text: Seq<char>)
    ensures
        leading_digits(text) <= text.len(),
    decreases text.len(),
{
    if text.len() > 0 && '0' <= text[0] && text[0] <= '9' {
        lemma_leading_digits_bound(text.drop_first());
    }
}

/// Where a found pattern lies.
proof fn lemma_find_text_bound(text: Seq<char>, pattern: Seq<char>)
    ensures
        find_text(text, pattern) matches Some(i) ==> 0 <= i && i + pattern.len() <= text.len(),
    decreases text.len(),
{
    if !has_prefix(text, pattern) && text.len() > 0 {
        lemma_find_text_bound(text.drop_first(), pattern);
    }
}

/// The text after a numbered list item's `N. ` marker.
pub fn numbered_item(line: &str) -> (text: Option<String>)
    ensures
        text.deep_view() == numbered(line@),
{
    let n = line.unicode_len();
    let mut digits: usize = 0;
    assert(line@.skip(0) =~= line@);
    while digits < n && '0' <= line.get_char(digits) && line.get_char(digits) <= '9'
        invariant
            n == line@.len(),
            digits <= n,
            leading_digits(line@) == digits + leading_digits(line@.skip(digits as int)),
        decreases n - digits,
    {
        assert(line@.skip(digits as int).drop_first() =~= line@.skip(digits + 1));
        digits = digits + 1;
    }
    assert(leading_digits(line@.skip(digits as int)) == 0);
    let rest = line.substring_char(digits, n);
    assert(rest@ =~= line@.skip(digits as int));
    if digits == 0 || !starts_with(rest, ". ") {
        return None;
    }
    proof {
        reveal_strlit(". ");
    }
    let text = String::from_str(line.substring_char(digits + 2, n));
    assert(text@ =~= line@.skip(digits + 2));
    Some(text)
}

/// A `![alt](url)` reference leading a line: its alt, URL and what trails
/// it.
pub fn leading_image(line: &str) -> (found: Option<(String, String, String)>)
    ensures
        match found {
            Some((alt, url, rest)) => image_ref(line@) == Some((alt@, url@, rest@)),
            None => image_ref(line@) is None,
        },
{
    if !starts_with(line, "![") {
        return None;
    }
    proof {
        reveal_strlit("![");
    }
    let n = line.unicode_len();
    let ghost after = line@.skip(2);
    assert(line@.skip(2) =~= after);
    proof {
        lemma_pair_index_bound(after, ']', '(');
    }
    let close = match find_pair_from(line, 2, ']', '(') {
        Some(close) => close,
        None => return None,
    };
    let ghost url_on = after.skip(close + 2);
    assert(line@.skip(2 + close + 2) =~= url_on);
    proof {
        url_on.index_of_first_ensures(')');
    }
    let end = match find_char_from(line, 2 + close + 2, ')') {
        Some(end) => end,
        None => return None,
    };
    let alt = String::from_str(line.substring_char(2, 2 + close));
    let url = String::from_str(line.substring_char(2 + close + 2, 2 + close + 2 + end));
    let rest = String::from_str(line.substring_char(2 + close + 2 + end + 1, n));
    assert(alt@ =~= after.take(close as int));
    assert(url@ =~= url_on.take(end as int));
    assert(rest@ =~= url_on.skip(end + 1));
    Some((alt, url, rest))
}

/// Where `pattern` first occurs in `text`.
fn find_text_in(text: &str, pattern: &str) -> (at: Option<usize>)
    ensures
        match at {
            Some(i) => find_text(text@, pattern@) == Some(i as int),
            None => find_text(text@, pattern@) is None,
        },
{
    let n = text.unicode_len();
    let mut i: usize = 0;
    assert(text@.skip(0) =~= text@);
    loop
        invariant
            n == text@.len(),
            i <= n,
            find_text(text@, pattern@) == match find_text(text@.skip(i as int), pattern@) {
                Some(k) => Some(k + i),
                None => None,
            },
        decreases n - i,
    {
        let rest = text.substring_char(i, n);
        assert(rest@ =~= text@.skip(i as int));
        if starts_with(rest, pattern) {
            return Some(i);
        }
        if i == n {
            return None;
        }
        assert(text@.skip(i as int).drop_first() =~= text@.skip(i + 1));
        i = i + 1;
    }
}

/// The URL in an HTML fragment's `src="…"`, if it carries one.
pub fn html_src(html: &str) -> (src: Option<String>)
    ensures
        src.deep_view() == src_of(html@),
{
    proof {
        reveal_strlit("src=\"");
        lemma_find_text_bound(html@, "src=\""@);
    }
    assert("src=\""@.len() == 5);
    let n = html.unicode_len();
    let at = match find_text_in(html, "src=\"") {
        Some(at) => at,
        None => return None,
    };
    assert(at + 5 <= n);
    let ghost rest = html@.skip(at + 5);
    proof {
        rest.index_of_first_ensures('"');
    }
    let end = match find_char_from(html, at + 5, '"') {
        Some(end) => end,
        None => return None,
    };
    let url = String::from_str(html.substring_char(at + 5, at + 5 + end));
    assert(url@ =~= rest.take(end as int));
    Some(url)
}

/// Whether `line`, trailing white space aside, ends with `>`.
fn ends_tag(line: &str) -> (closes: bool)
    ensures
        closes == closes_tag(line@),
{
    let n = line.unicode_len();
    let mut end = n;
    assert(line@.take(n as int) =~= line@);
    while end > 0 && is_white_char(line.get_char(end - 1))
        invariant
            n == line@.len(),
            end <= n,
            trailing_white(line@) == (n - end) + trailing_white(line@.take(end as int)),
        decreases end,
    {
        assert(line@.take(end as int).drop_last() =~= line@.take(end - 1));
        end = end - 1;
    }
    assert(trailing_white(line@.take(end as int)) == 0);
    end > 0 && line.get_char(end - 1) == '>'
}

/// One line of a rendered post: styled spans, and the URL a click on the
/// line opens, if any.
pub struct ContentLine {
    pub spans: Vec<Span>,
    pub link: Option<String>,
}

/// One unit of a rendered post. A line is always exactly one terminal row:
/// text is wrapped here, so the reader's scroll arithmetic and what is
/// painted never disagree.
pub enum Block {
    Line(ContentLine),
    Image { url: String, alt: String },
}

/// A block as values.
pub enum BlockView {
    Line(Seq<(Seq<char>, Style)>, Option<Seq<char>>),
    Image(Seq<char>, Seq<char>),
}

/// The value of an optional string.
pub open spec fn opt_view(s: Option<String>) -> Option<Seq<char>> {
    match s {
        Some(t) => Some(t@),
        None => None,
    }
}

/// A block as values.
pub open spec fn block_view(block: Block) -> BlockView {
    match block {
        Block::Line(line) => BlockView::Line(spans_view(line.spans@), opt_view(line.link)),
        Block::Image { url, alt } => BlockView::Image(url@, alt@),
    }
}

/// Blocks as values.
pub open spec fn blocks_view(blocks: Seq<Block>) -> Seq<BlockView> {
    blocks.map_values(|block: Block| block_view(block))
}

/// Wrapped rows as lines, the first alone carrying `link`, so a click
/// opens what the paragraph introduced.
pub open spec fn lines_of_rows(rows: Seq<Seq<(Seq<char>, Style)>>, link: Option<Seq<char>>) -> Seq<BlockView> {
    Seq::new(rows.len(), |i: int| BlockView::Line(rows[i], if i == 0 {
        link
    } else {
        None
    }))
}

/// Parts joined by single spaces.
pub open spec fn joined(parts: Seq<Seq<char>>) -> Seq<char>
    decreases parts.len(),
{
    if parts.len() == 0 {
        Seq::empty()
    } else if parts.len() == 1 {
        parts[0]
    } else {
        joined(parts.drop_last()) + seq![' '] + parts.last()
    }
}

/// A pending paragraph rendered and wrapped; nothing when there is none.
pub open spec fn flushed(paragraph: Seq<Seq<char>>, width: nat) -> Seq<BlockView> {
    if paragraph.len() == 0 {
        Seq::empty()
    } else {
        let (spans, link) = inline_of(joined(paragraph), Tone::Text, false, false);
        lines_of_rows(wrapped(spans, width, 0), link)
    }
}

/// How many backticks `text` starts with.
pub open spec fn leading_ticks(text: Seq<char>) -> nat
    decreases text.len(),
{
    if text.len() > 0 && text[0] == '`' {
        1 + leading_ticks(text.drop_first())
    } else {
        0
    }
}

/// The rule drawn for a code fence: `── lang ` padded with `─` to the
/// width, or cut to it.
pub open spec fn fence_rule(fence: Seq<char>, width: nat) -> Seq<char> {
    let lang = crate::text::trimmed(fence.skip(leading_ticks(fence) as int));
    let rule = "\u{2500}\u{2500} "@ + lang + seq![' '];
    if width > rule.len() {
        rule + Seq::new((width - rule.len()) as nat, |i: int| '\u{2500}')
    } else {
        crate::editor::truncated(rule, width)
    }
}

/// A heading line's text and tone.
pub open spec fn heading_of(t: Seq<char>) -> Option<(Seq<char>, Tone)> {
    if has_prefix(t, "### "@) {
        Some((t.skip(4), Tone::Text))
    } else if has_prefix(t, "## "@) {
        Some((t.skip(3), Tone::Accent))
    } else if has_prefix(t, "# "@) {
        Some((t.skip(2), Tone::Accent))
    } else {
        None
    }
}

/// A list item's text.
pub open spec fn item_of(t: Seq<char>) -> Option<Seq<char>> {
    if has_prefix(t, "- "@) {
        Some(t.skip(2))
    } else {
        numbered(t)
    }
}

/// The bullet marker.
pub open spec fn bullet_mark() -> (Seq<char>, Style) {
    ("\u{2022} "@, Style { tone: Tone::Accent, bold: true, italic: false, underline: false })
}

/// A list item's spans: the bullet, then its inline markdown.
pub open spec fn bullet_of(text: Seq<char>) -> (Seq<(Seq<char>, Style)>, Option<Seq<char>>) {
    let (spans, link) = inline_of(text, Tone::Text, false, false);
    (seq![bullet_mark()] + spans, link)
}

/// A quote's spans: inline markdown in the border tone, all in italics.
pub open spec fn quoted(text: Seq<char>) -> Seq<(Seq<char>, Style)> {
    inline_of(text, Tone::Border, false, false).0.map_values(
        |span: (Seq<char>, Style)| (span.0, Style { italic: true, ..span.1 }),
    )
}

/// The rail down a quote's left edge.
pub open spec fn rail() -> (Seq<char>, Style) {
    ("\u{2502} "@, plain_style(Tone::Border))
}

/// A quote wrapped in its own column, the rail stitched onto every row.
pub open spec fn quote_lines(text: Seq<char>, width: nat) -> Seq<BlockView> {
    let column: nat = if width > 3 {
        (width - 2) as nat
    } else {
        1
    };
    let rows = wrapped(quoted(text), column, 0);
    Seq::new(rows.len(), |i: int| BlockView::Line(seq![rail()] + rows[i], None))
}

/// An image block, when the site serves the asset.
pub open spec fn image_block(url: Seq<char>, alt: Seq<char>, assets: Seq<Seq<char>>) -> Seq<BlockView> {
    if assets.contains(url) {
        seq![BlockView::Image(url, alt)]
    } else {
        Seq::empty()
    }
}

/// An HTML element that runs over several lines swallowed from line `j` on:
/// the first `src` found, if none was yet, and the line after the one that
/// closes the element.
pub open spec fn html_scan(lines: Seq<Seq<char>>, j: int, src: Option<Seq<char>>) -> (Option<Seq<char>>, int)
    decreases lines.len() - j,
{
    if j < 0 || j >= lines.len() {
        (src, lines.len() as int)
    } else {
        let further = lines[j];
        let found = match src {
            None => src_of(crate::text::trimmed(further)),
            Some(url) => Some(url),
        };
        if closes_tag(further) {
            (found, j + 1)
        } else {
            html_scan(lines, j + 1, found)
        }
    }
}

/// The scan ends past where it started, and no later than the last line.
pub proof fn lemma_html_scan_bound(lines: Seq<Seq<char>>, j: int, src: Option<Seq<char>>)
    requires
        0 <= j <= lines.len(),
    ensures
        j <= html_scan(lines, j, src).1 <= lines.len(),
    decreases lines.len() - j,
{
    if j < lines.len() {
        let further = lines[j];
        let found = match src {
            None => src_of(crate::text::trimmed(further)),
            Some(url) => Some(url),
        };
        if !closes_tag(further) {
            lemma_html_scan_bound(lines, j + 1, found);
        }
    }
}

/// The blocks of a post from line `i` on, given the paragraph being
/// gathered and whether a code block is open.
pub open spec fn blocks_from(
    lines: Seq<Seq<char>>,
    i: int,
    paragraph: Seq<Seq<char>>,
    in_code: bool,
    width: nat,
    assets: Seq<Seq<char>>,
) -> Seq<BlockView>
    decreases lines.len() - i,
{
    if i < 0 || i >= lines.len() {
        flushed(paragraph, width)
    } else {
        let line = lines[i];
        let t = crate::text::trimmed_start(line);
        if has_prefix(t, "```"@) {
            flushed(paragraph, width) + seq![
                BlockView::Line(seq![(fence_rule(t, width), plain_style(Tone::Border))], None),
            ] + blocks_from(lines, i + 1, Seq::empty(), !in_code, width, assets)
        } else if in_code {
            seq![
                BlockView::Line(seq![(crate::editor::truncated(line, width), plain_style(Tone::Plain))], None),
            ] + blocks_from(lines, i + 1, paragraph, in_code, width, assets)
        } else if has_prefix(t, "<"@) {
            let first = src_of(t);
            let (src, next) = if closes_tag(t) {
                (first, i + 1)
            } else {
                html_scan(lines, i + 1, first)
            };
            proof {
                lemma_html_scan_bound(lines, i + 1, first);
            }
            (match src {
                Some(url) => image_block(url, Seq::empty(), assets),
                None => Seq::empty(),
            }) + blocks_from(lines, next, paragraph, in_code, width, assets)
        } else if image_ref(t) is Some {
            let (alt, url, rest) = image_ref(t)->0;
            let caption = crate::text::trimmed(rest);
            flushed(paragraph, width) + image_block(url, alt, assets) + blocks_from(
                lines,
                i + 1,
                if caption.len() > 0 {
                    seq![caption]
                } else {
                    Seq::empty()
                },
                in_code,
                width,
                assets,
            )
        } else if crate::text::is_blank(line) {
            flushed(paragraph, width) + seq![BlockView::Line(Seq::empty(), None)] + blocks_from(
                lines,
                i + 1,
                Seq::empty(),
                in_code,
                width,
                assets,
            )
        } else if heading_of(t) is Some {
            let (text, tone) = heading_of(t)->0;
            flushed(paragraph, width) + lines_of_rows(wrapped(inline_of(text, tone, false, false).0, width, 0), None)
                + blocks_from(lines, i + 1, Seq::empty(), in_code, width, assets)
        } else if item_of(t) is Some {
            let (spans, link) = bullet_of(item_of(t)->0);
            flushed(paragraph, width) + lines_of_rows(wrapped(spans, width, 2), link) + blocks_from(
                lines,
                i + 1,
                Seq::empty(),
                in_code,
                width,
                assets,
            )
        } else if has_prefix(t, "> "@) {
            flushed(paragraph, width) + quote_lines(t.skip(2), width) + blocks_from(
                lines,
                i + 1,
                Seq::empty(),
                in_code,
                width,
                assets,
            )
        } else {
            blocks_from(lines, i + 1, paragraph.push(t), in_code, width, assets)
        }
    }
}

/// Parts joined by single spaces.
fn joined_text(parts: &Vec<String>) -> (text: String)
    ensures
        text@ == joined(texts_of(parts@)),
{
    let mut text = String::new();
    let mut i: usize = 0;
    assert(texts_of(parts@).take(0) =~= Seq::<Seq<char>>::empty());
    while i < parts.len()
        invariant
            i <= parts@.len(),
            text@ == joined(texts_of(parts@).take(i as int)),
        decreases parts.len() - i,
    {
        let ghost prefix = texts_of(parts@).take(i + 1);
        assert(prefix.drop_last() =~= texts_of(parts@).take(i as int));
        assert(prefix.last() == parts@[i as int]@);
        if i > 0 {
            text.append(" ");
            proof {
                reveal_strlit(" ");
            }
        }
        text.append(parts[i].as_str());
        i = i + 1;
        proof {
            if i == 1 {
                assert(text@ =~= prefix[0]);
            } else {
                assert(text@ =~= joined(prefix.drop_last()) + seq![' '] + prefix.last());
            }
        }
    }
    assert(texts_of(parts@).take(parts@.len() as int) =~= texts_of(parts@));
    text
}

/// Appends one line per wrapped row, the first alone carrying `link`.
fn push_rows(blocks: &mut Vec<Block>, rows: Vec<Vec<Span>>, link: Option<String>)
    ensures
        blocks_view(final(blocks)@) == blocks_view(old(blocks)@) + lines_of_rows(rows_of(rows@), opt_view(link)),
{
    let ghost all = rows_of(rows@);
    let ghost first_link = opt_view(link);
    let ghost start = blocks_view(blocks@);
    let mut rows = rows;
    let mut link = link;
    let mut i: usize = 0;
    let total = rows.len();
    while rows.len() > 0
        invariant
            i + rows@.len() == total,
            total == all.len(),
            rows_of(rows@) == all.skip(i as int),
            i == 0 ==> opt_view(link) == first_link,
            blocks_view(blocks@) == start + lines_of_rows(all, first_link).take(i as int),
        decreases rows.len(),
    {
        let ghost before = rows@;
        let ghost shown = blocks_view(blocks@);
        let row = rows.remove(0);
        assert(rows@ =~= before.drop_first());
        assert(rows_of(before)[0] == spans_view(row@));
        assert(all.skip(i as int)[0] == all[i as int]);
        assert(rows_of(before.drop_first()) =~= rows_of(before).drop_first());
        assert(all.skip(i as int).drop_first() =~= all.skip(i + 1));
        assert(rows_of(rows@) =~= all.skip(i + 1));
        let mut this_link: Option<String> = None;
        if i == 0 {
            std::mem::swap(&mut this_link, &mut link);
        }
        let ghost view = BlockView::Line(spans_view(row@), opt_view(this_link));
        blocks.push(Block::Line(ContentLine { spans: row, link: this_link }));
        assert(lines_of_rows(all, first_link).take(i + 1) =~= lines_of_rows(all, first_link).take(i as int).push(view));
        assert(blocks_view(blocks@) =~= shown.push(view));
        i = i + 1;
    }
    assert(lines_of_rows(all, first_link).take(total as int) =~= lines_of_rows(all, first_link));
}

/// The pending paragraph rendered and wrapped, and cleared.
fn flush(blocks: &mut Vec<Block>, paragraph: &mut Vec<String>, width: usize)
    ensures
        blocks_view(final(blocks)@) == blocks_view(old(blocks)@) + flushed(texts_of(old(paragraph)@), width as nat),
        final(paragraph)@ == Seq::<String>::empty(),
{
    if paragraph.len() == 0 {
        assert(blocks_view(blocks@) + flushed(texts_of(paragraph@), width as nat) =~= blocks_view(blocks@));
        return;
    }
    let text = joined_text(paragraph);
    *paragraph = Vec::new();
    let (spans, link) = inline(text.as_str(), Tone::Text);
    let rows = wrap(&spans, width, 0);
    push_rows(blocks, rows, link);
}

/// How many backticks `text` has from `from` on.
fn ticks_from(text: &str, from: usize) -> (count: usize)
    requires
        from <= text@.len(),
    ensures
        count == leading_ticks(text@.skip(from as int)),
        from + count <= text@.len(),
{
    let n = text.unicode_len();
    let mut i = from;
    assert(text@.skip(from as int).skip(0) =~= text@.skip(from as int));
    while i < n && text.get_char(i) == '`'
        invariant
            n == text@.len(),
            from <= i <= n,
            leading_ticks(text@.skip(from as int)) == (i - from) + leading_ticks(text@.skip(i as int)),
        decreases n - i,
    {
        assert(text@.skip(i as int).drop_first() =~= text@.skip(i + 1));
        i = i + 1;
    }
    i - from
}

/// The rule drawn for a code fence.
fn fence_rule_text(fence: &str, width: usize) -> (rule: String)
    ensures
        rule@ == fence_rule(fence@, width as nat),
{
    let n = fence.unicode_len();
    let ticks = ticks_from(fence, 0);
    assert(fence@.skip(0) =~= fence@);
    let after = fence.substring_char(ticks, n);
    assert(after@ =~= fence@.skip(ticks as int));
    let lang = crate::text::trim(after);
    let mut rule = String::from_str("\u{2500}\u{2500} ");
    rule.append(lang.as_str());
    rule.append(" ");
    proof {
        reveal_strlit(" ");
    }
    assert(rule@ =~= "\u{2500}\u{2500} "@ + crate::text::trimmed(fence@.skip(leading_ticks(fence@) as int)) + seq![' ']);
    let count = rule.unicode_len();
    if width > count {
        let pad = crate::text::repeat_char('\u{2500}', width - count);
        rule.append(pad.as_str());
        assert(rule@ =~= fence_rule(fence@, width as nat));
        rule
    } else {
        truncate(rule.as_str(), width)
    }
}

/// Whether the site serves an asset at `url`.
fn is_known(assets: &Vec<String>, url: &str) -> (known: bool)
    ensures
        known == texts_of(assets@).contains(url@),
{
    let mut i: usize = 0;
    while i < assets.len()
        invariant
            i <= assets@.len(),
            forall|j: int| 0 <= j < i ==> texts_of(assets@)[j] != url@,
        decreases assets.len() - i,
    {
        if same_text(assets[i].as_str(), url) {
            assert(texts_of(assets@)[i as int] == url@);
            return true;
        }
        i = i + 1;
    }
    false
}

/// A list item's spans: the bullet, then its inline markdown.
fn bullet(text: &str) -> (rendered: (Vec<Span>, Option<String>))
    ensures
        (spans_view(rendered.0@), opt_view(rendered.1)) == bullet_of(text@),
{
    let (spans, link) = inline(text, Tone::Text);
    let mut all: Vec<Span> = Vec::new();
    all.push(Span { text: String::from_str("\u{2022} "), style: Style { tone: Tone::Accent, bold: true, italic: false, underline: false } });
    let ghost rest = spans_view(spans@);
    let mut spans = spans;
    let mut i: usize = 0;
    let total = spans.len();
    while spans.len() > 0
        invariant
            i + spans@.len() == total,
            total == rest.len(),
            spans_view(spans@) == rest.skip(i as int),
            spans_view(all@) == seq![bullet_mark()] + rest.take(i as int),
        decreases spans.len(),
    {
        let ghost before = spans@;
        let piece = spans.remove(0);
        assert(spans@ =~= before.drop_first());
        assert(spans_view(before)[0] == span_view(piece));
        assert(rest.skip(i as int)[0] == rest[i as int]);
        assert(spans_view(before.drop_first()) =~= spans_view(before).drop_first());
        assert(rest.skip(i as int).drop_first() =~= rest.skip(i + 1));
        assert(spans_view(spans@) =~= rest.skip(i + 1));
        let ghost shown = spans_view(all@);
        let ghost v = span_view(piece);
        all.push(piece);
        assert(spans_view(all@) =~= shown.push(v));
        assert(rest.take(i + 1) =~= rest.take(i as int).push(rest[i as int]));
        assert(spans_view(all@) =~= seq![bullet_mark()] + rest.take(i + 1));
        i = i + 1;
    }
    assert(rest.take(total as int) =~= rest);
    (all, link)
}

/// A quote's spans: inline markdown in the border tone, all in italics.
fn quote(text: &str) -> (spans: Vec<Span>)
    ensures
        spans_view(spans@) == quoted(text@),
{
    let (pieces, _link) = inline(text, Tone::Border);
    let ghost rest = spans_view(pieces@);
    let ghost italic = |span: (Seq<char>, Style)| (span.0, Style { italic: true, ..span.1 });
    let mut pieces = pieces;
    let mut all: Vec<Span> = Vec::new();
    let mut i: usize = 0;
    let total = pieces.len();
    while pieces.len() > 0
        invariant
            i + pieces@.len() == total,
            total == rest.len(),
            spans_view(pieces@) == rest.skip(i as int),
            italic == (|span: (Seq<char>, Style)| (span.0, Style { italic: true, ..span.1 })),
            spans_view(all@) == rest.take(i as int).map_values(italic),
        decreases pieces.len(),
    {
        let ghost before = pieces@;
        let piece = pieces.remove(0);
        assert(pieces@ =~= before.drop_first());
        assert(spans_view(before)[0] == span_view(piece));
        assert(rest.skip(i as int)[0] == rest[i as int]);
        assert(spans_view(before.drop_first()) =~= spans_view(before).drop_first());
        assert(rest.skip(i as int).drop_first() =~= rest.skip(i + 1));
        assert(spans_view(pieces@) =~= rest.skip(i + 1));
        let ghost shown = spans_view(all@);
        let style = Style { tone: piece.style.tone, bold: piece.style.bold, italic: true, underline: piece.style.underline };
        let ghost v = (piece.text@, style);
        all.push(Span { text: piece.text, style });
        assert(spans_view(all@) =~= shown.push(v));
        assert(rest.take(i + 1).map_values(italic) =~= rest.take(i as int).map_values(italic).push(italic(rest[i as int])));
        assert(spans_view(all@) =~= rest.take(i + 1).map_values(italic));
        i = i + 1;
    }
    assert(rest.take(total as int) =~= rest);
    all
}

/// A bullet whose whole purpose is one link: its name in capitals, then
/// the raw URL.
pub fn bullet_link(name: &str, url: &str) -> (line: ContentLine)
    ensures
        spans_view(line.spans@) == seq![
            bullet_mark(),
            (crate::tui::uppercase_of(name@), Style { tone: Tone::Accent, bold: false, italic: false, underline: true }),
            (seq![' '] + url@, plain_style(Tone::Muted)),
        ],
        opt_view(line.link) == Some(url@),
{
    let mut tail = String::from_str(" ");
    tail.append(url);
    proof {
        reveal_strlit(" ");
    }
    assert(tail@ =~= seq![' '] + url@);
    let mut spans: Vec<Span> = Vec::new();
    spans.push(Span { text: String::from_str("\u{2022} "), style: Style { tone: Tone::Accent, bold: true, italic: false, underline: false } });
    spans.push(Span { text: crate::tui::uppercased(name), style: Style { tone: Tone::Accent, bold: false, italic: false, underline: true } });
    spans.push(Span { text: tail, style: Style { tone: Tone::Muted, bold: false, italic: false, underline: false } });
    assert(spans_view(spans@) =~= seq![
        bullet_mark(),
        (crate::tui::uppercase_of(name@), Style { tone: Tone::Accent, bold: false, italic: false, underline: true }),
        (seq![' '] + url@, plain_style(Tone::Muted)),
    ]);
    ContentLine { spans, link: Some(String::from_str(url)) }
}

/// A heading line's text and tone.
fn heading_text(t: &str) -> (found: Option<(String, Tone)>)
    ensures
        match found {
            Some((text, tone)) => heading_of(t@) == Some((text@, tone)),
            None => heading_of(t@) is None,
        },
{
    let n = t.unicode_len();
    proof {
        reveal_strlit("### ");
        reveal_strlit("## ");
        reveal_strlit("# ");
    }
    if starts_with(t, "### ") {
        let text = String::from_str(t.substring_char(4, n));
        assert(text@ =~= t@.skip(4));
        Some((text, Tone::Text))
    } else if starts_with(t, "## ") {
        let text = String::from_str(t.substring_char(3, n));
        assert(text@ =~= t@.skip(3));
        Some((text, Tone::Accent))
    } else if starts_with(t, "# ") {
        let text = String::from_str(t.substring_char(2, n));
        assert(text@ =~= t@.skip(2));
        Some((text, Tone::Accent))
    } else {
        None
    }
}

/// A list item's text.
fn item_text(t: &str) -> (found: Option<String>)
    ensures
        found.deep_view() == item_of(t@),
{
    proof {
        reveal_strlit("- ");
    }
    if starts_with(t, "- ") {
        let n = t.unicode_len();
        let text = String::from_str(t.substring_char(2, n));
        assert(text@ =~= t@.skip(2));
        Some(text)
    } else {
        numbered_item(t)
    }
}

/// Appends a quote wrapped in its own column, the rail stitched onto every
/// row.
fn push_quote(blocks: &mut Vec<Block>, text: &str, width: usize)
    ensures
        blocks_view(final(blocks)@) == blocks_view(old(blocks)@) + quote_lines(text@, width as nat),
{
    let column = if width > 3 {
        width - 2
    } else {
        1
    };
    let spans = quote(text);
    let rows = wrap(&spans, column, 0);
    let ghost all = rows_of(rows@);
    let ghost goal = quote_lines(text@, width as nat);
    assert(all == wrapped(quoted(text@), column as nat, 0));
    let ghost start = blocks_view(blocks@);
    let mut rows = rows;
    let mut i: usize = 0;
    let total = rows.len();
    while rows.len() > 0
        invariant
            i + rows@.len() == total,
            total == all.len(),
            goal.len() == all.len(),
            goal == Seq::new(all.len(), |k: int| BlockView::Line(seq![rail()] + all[k], None)),
            rows_of(rows@) == all.skip(i as int),
            blocks_view(blocks@) == start + goal.take(i as int),
        decreases rows.len(),
    {
        let ghost before = rows@;
        let ghost shown = blocks_view(blocks@);
        let row = rows.remove(0);
        assert(rows@ =~= before.drop_first());
        assert(rows_of(before)[0] == spans_view(row@));
        assert(all.skip(i as int)[0] == all[i as int]);
        assert(rows_of(before.drop_first()) =~= rows_of(before).drop_first());
        assert(all.skip(i as int).drop_first() =~= all.skip(i + 1));
        let mut line: Vec<Span> = Vec::new();
        line.push(Span { text: String::from_str("\u{2502} "), style: Style { tone: Tone::Border, bold: false, italic: false, underline: false } });
        let ghost head = spans_view(line@);
        assert(head =~= seq![rail()]);
        let mut row = row;
        line.append(&mut row);
        assert(spans_view(line@) =~= head + all[i as int]);
        let ghost view = BlockView::Line(spans_view(line@), None);
        blocks.push(Block::Line(ContentLine { spans: line, link: None }));
        assert(goal.take(i + 1) =~= goal.take(i as int).push(view));
        assert(blocks_view(blocks@) =~= shown.push(view));
        i = i + 1;
    }
    assert(goal.take(total as int) =~= goal);
}

/// The rest of an HTML element that runs over several lines, from line
/// `j` on.
fn scan_html(lines: &Vec<String>, j: usize, src: Option<String>) -> (scanned: (Option<String>, usize))
    requires
        j <= lines@.len(),
    ensures
        (opt_view(scanned.0), scanned.1 as int) == html_scan(crate::editor::views_of(lines@), j as int, opt_view(src)),
    decreases lines@.len() - j,
{
    let ghost all = crate::editor::views_of(lines@);
    if j >= lines.len() {
        return (src, lines.len());
    }
    let further = lines[j].as_str();
    assert(all[j as int] == further@);
    let found = match src {
        None => html_src(crate::text::trim(further).as_str()),
        Some(url) => Some(url),
    };
    if ends_tag(further) {
        (found, j + 1)
    } else {
        scan_html(lines, j + 1, found)
    }
}

/// Renders a post body into blocks, wrapped to `width` columns: headings,
/// lists, quotes, code blocks, paragraphs of inline markdown, and the
/// images among `assets` (the site-root-relative paths the site serves).
pub fn post_blocks(body: &str, width: usize, assets: &Vec<String>) -> (blocks: Vec<Block>)
    ensures
        blocks_view(blocks@) == blocks_from(
            crate::projects::std_lines(body@),
            0,
            Seq::empty(),
            false,
            width as nat,
            texts_of(assets@),
        ),
{
    let lines = crate::projects::text_lines(body);
    let ghost all = crate::projects::std_lines(body@);
    let ghost known = texts_of(assets@);
    let w = width;
    let mut blocks: Vec<Block> = Vec::new();
    let mut paragraph: Vec<String> = Vec::new();
    let mut in_code = false;
    let mut i: usize = 0;
    assert(texts_of(paragraph@) =~= Seq::<Seq<char>>::empty());
    assert(blocks_view(blocks@) =~= Seq::<BlockView>::empty());
    assert(blocks_view(blocks@) + blocks_from(all, 0, texts_of(paragraph@), false, w as nat, known) =~= blocks_from(
        all,
        0,
        Seq::empty(),
        false,
        w as nat,
        known,
    ));
    while i < lines.len()
        invariant
            crate::editor::views_of(lines@) == all,
            i <= all.len(),
            known == texts_of(assets@),
            blocks_from(all, 0, Seq::empty(), false, w as nat, known) == blocks_view(blocks@) + blocks_from(
                all,
                i as int,
                texts_of(paragraph@),
                in_code,
                w as nat,
                known,
            ),
        decreases lines.len() - i,
    {
        proof {
            reveal_strlit("```");
            reveal_strlit("<");
            reveal_strlit("> ");
        }
        let line = lines[i].as_str();
        assert(all[i as int] == line@);
        let t = crate::text::trim_start(line);
        let ghost p = texts_of(paragraph@);
        let ghost shown = blocks_view(blocks@);
        let ghost old_i = i as int;
        let ghost old_c = in_code;
        assert(all.len() == lines@.len());
        assert(0 <= old_i < all.len());
        assert(t@ == crate::text::trimmed_start(all[old_i]));
        if starts_with(t.as_str(), "```") {
            flush(&mut blocks, &mut paragraph, w);
            let rule = fence_rule_text(t.as_str(), w);
            let mut spans: Vec<Span> = Vec::new();
            spans.push(Span { text: rule, style: Style { tone: Tone::Border, bold: false, italic: false, underline: false } });
            let ghost before = blocks_view(blocks@);
            assert(spans_view(spans@) =~= seq![(fence_rule(t@, w as nat), plain_style(Tone::Border))]);
            let ghost view = BlockView::Line(spans_view(spans@), None);
            blocks.push(Block::Line(ContentLine { spans, link: None }));
            assert(blocks_view(blocks@) =~= before.push(view));
            assert(texts_of(paragraph@) =~= Seq::<Seq<char>>::empty());
            in_code = !in_code;
            i = i + 1;
            assert(blocks_from(all, old_i, p, old_c, w as nat, known) == flushed(p, w as nat) + seq![view]
                + blocks_from(all, i as int, Seq::empty(), in_code, w as nat, known));
        } else if in_code {
            let mut spans: Vec<Span> = Vec::new();
            spans.push(Span { text: truncate(line, w), style: Style { tone: Tone::Plain, bold: false, italic: false, underline: false } });
            assert(spans_view(spans@) =~= seq![(crate::editor::truncated(line@, w as nat), plain_style(Tone::Plain))]);
            let ghost view = BlockView::Line(spans_view(spans@), None);
            blocks.push(Block::Line(ContentLine { spans, link: None }));
            assert(blocks_view(blocks@) =~= shown.push(view));
            i = i + 1;
            assert(blocks_from(all, old_i, p, old_c, w as nat, known) == seq![view]
                + blocks_from(all, i as int, p, in_code, w as nat, known));
        } else if starts_with(t.as_str(), "<") {
            let first = html_src(t.as_str());
            let (src, next) = if ends_tag(t.as_str()) {
                (first, i + 1)
            } else {
                scan_html(&lines, i + 1, first)
            };
            proof {
                lemma_html_scan_bound(all, i + 1, opt_view(first));
            }
            match src {
                Some(url) => {
                    if is_known(assets, url.as_str()) {
                        let ghost view = BlockView::Image(url@, Seq::empty());
                        blocks.push(Block::Image { url, alt: String::new() });
                        assert(blocks_view(blocks@) =~= shown.push(view));
                    } else {
                        assert(blocks_view(blocks@) =~= shown + Seq::<BlockView>::empty());
                    }
                },
                None => {
                    assert(blocks_view(blocks@) =~= shown + Seq::<BlockView>::empty());
                },
            }
            i = next;
        } else {
            match leading_image(t.as_str()) {
                Some((alt, url, rest)) => {
                    flush(&mut blocks, &mut paragraph, w);
                    let ghost before = blocks_view(blocks@);
                    if is_known(assets, url.as_str()) {
                        let ghost view = BlockView::Image(url@, alt@);
                        blocks.push(Block::Image { url, alt });
                        assert(blocks_view(blocks@) =~= before.push(view));
                    } else {
                        assert(blocks_view(blocks@) =~= before + Seq::<BlockView>::empty());
                    }
                    let caption = crate::text::trim(rest.as_str());
                    if caption.unicode_len() > 0 {
                        paragraph.push(caption);
                        assert(texts_of(paragraph@) =~= seq![crate::text::trimmed(rest@)]);
                    } else {
                        assert(texts_of(paragraph@) =~= Seq::<Seq<char>>::empty());
                    }
                    i = i + 1;
                },
                None => {
                    if crate::text::blank(line) {
                        flush(&mut blocks, &mut paragraph, w);
                        let ghost before = blocks_view(blocks@);
                        let ghost view = BlockView::Line(Seq::empty(), None);
                        let empty: Vec<Span> = Vec::new();
                        assert(spans_view(empty@) =~= Seq::<(Seq<char>, Style)>::empty());
                        blocks.push(Block::Line(ContentLine { spans: empty, link: None }));
                        assert(blocks_view(blocks@) =~= before.push(view));
                        assert(texts_of(paragraph@) =~= Seq::<Seq<char>>::empty());
                    } else {
                        match heading_text(t.as_str()) {
                            Some((text, tone)) => {
                                flush(&mut blocks, &mut paragraph, w);
                                let (spans, _link) = inline(text.as_str(), tone);
                                let rows = wrap(&spans, w, 0);
                                push_rows(&mut blocks, rows, None);
                                assert(texts_of(paragraph@) =~= Seq::<Seq<char>>::empty());
                            },
                            None => {
                                match item_text(t.as_str()) {
                                    Some(text) => {
                                        flush(&mut blocks, &mut paragraph, w);
                                        let (spans, link) = bullet(text.as_str());
                                        let rows = wrap(&spans, w, 2);
                                        push_rows(&mut blocks, rows, link);
                                        assert(texts_of(paragraph@) =~= Seq::<Seq<char>>::empty());
                                    },
                                    None => {
                                        if starts_with(t.as_str(), "> ") {
                                            flush(&mut blocks, &mut paragraph, w);
                                            let n = t.unicode_len();
                                            let text = t.substring_char(2, n);
                                            assert(text@ =~= t@.skip(2));
                                            push_quote(&mut blocks, text, w);
                                            assert(texts_of(paragraph@) =~= Seq::<Seq<char>>::empty());
                                        } else {
                                            paragraph.push(t);
                                            assert(texts_of(paragraph@) =~= p.push(crate::text::trimmed_start(line@)));
                                        }
                                    },
                                }
                            },
                        }
                    }
                    i = i + 1;
                },
            }
        }
    }
    flush(&mut blocks, &mut paragraph, w);
    blocks
}

} // verus!
