//! Syntax highlighting for the samlang program on the About tab: each source
//! line split into tokens, each token tagged with what it is. Which colour a
//! kind of token is painted in is the theme's business, not this module's.

use crate::data::ABOUT_PROGRAM;
use crate::editor::views_of;
use crate::projects::{std_lines, text_lines};
use crate::text::{find_char_from, has_prefix, leading_white, same_text};
use vstd::prelude::*;
use vstd::string::*;

verus! {

/// What a token is.
#[derive(Clone, Copy, PartialEq, Eq, Debug)]
pub enum TokenKind {
    /// A comment, drawn in italics.
    Comment,
    /// A string literal, quotes included.
    Str,
    /// A run of ASCII digits.
    Number,
    /// One of the language's keywords.
    Keyword,
    /// An identifier directly followed by `(`: a call.
    Function,
    /// A name that starts with an upper-case letter: a class or type.
    Type,
    /// Anything else.
    Plain,
}

/// One highlighted piece of a line.
#[derive(Clone, PartialEq, Eq, Debug)]
pub struct Token {
    pub text: String,
    pub kind: TokenKind,
}

/// A token as text and kind.
pub open spec fn token_view(token: Token) -> (Seq<char>, TokenKind) {
    (token.text@, token.kind)
}

/// Tokens as text and kind.
pub open spec fn tokens_view(tokens: Seq<Token>) -> Seq<(Seq<char>, TokenKind)> {
    tokens.map_values(|token: Token| token_view(token))
}

/// The language's keywords.
pub open spec fn is_keyword(word: Seq<char>) -> bool {
    ||| word == "import"@
    ||| word == "from"@
    ||| word == "class"@
    ||| word == "function"@
    ||| word == "let"@
    ||| word == "val"@
}

/// Whether `c` may be part of an identifier: an ASCII letter or digit, or `_`.
pub open spec fn is_ident_char(c: char) -> bool {
    ('a' <= c && c <= 'z') || ('A' <= c && c <= 'Z') || ('0' <= c && c <= '9') || c == '_'
}

/// How many identifier characters `text` starts with.
pub open spec fn ident_len(text: Seq<char>) -> nat
    decreases text.len(),
{
    if text.len() > 0 && is_ident_char(text[0]) {
        1 + ident_len(text.drop_first())
    } else {
        0
    }
}

/// Where the first `*/` in `text` starts, if it has one.
pub open spec fn comment_end(text: Seq<char>) -> Option<int>
    decreases text.len(),
{
    if text.len() < 2 {
        None
    } else if text[0] == '*' && text[1] == '/' {
        Some(0)
    } else {
        match comment_end(text.drop_first()) {
            Some(i) => Some(i + 1),
            None => None,
        }
    }
}

/// Whether a whole word is ASCII digits.
pub open spec fn all_digits(word: Seq<char>) -> bool {
    forall|i: int| 0 <= i < word.len() ==> '0' <= #[trigger] word[i] && word[i] <= '9'
}

/// What kind a word is, given whether a `(` follows it past white space.
pub open spec fn word_kind(word: Seq<char>, is_call: bool) -> TokenKind {
    if is_keyword(word) {
        TokenKind::Keyword
    } else if all_digits(word) {
        TokenKind::Number
    } else if is_call {
        TokenKind::Function
    } else if 'A' <= word[0] && word[0] <= 'Z' {
        TokenKind::Type
    } else {
        TokenKind::Plain
    }
}

/// One step of the highlighter on what is left of a line: the token it
/// emits (none when it only enters a comment), how much of the line it
/// consumes, and whether a block comment is open afterwards.
pub open spec fn step(rest: Seq<char>, in_comment: bool) -> (Option<(Seq<char>, TokenKind)>, nat, bool) {
    if in_comment {
        match comment_end(rest) {
            Some(end) => (Some((rest.take(end + 2), TokenKind::Comment)), (end + 2) as nat, false),
            None => (Some((rest, TokenKind::Comment)), rest.len(), true),
        }
    } else if has_prefix(rest, "/*"@) {
        (None, 0, true)
    } else if has_prefix(rest, "//"@) {
        (Some((rest, TokenKind::Comment)), rest.len(), false)
    } else if rest[0] == '"' {
        let end: int = match rest.drop_first().index_of_first('"') {
            Some(i) => i + 2,
            None => rest.len() as int,
        };
        (Some((rest.take(end), TokenKind::Str)), end as nat, false)
    } else if ident_len(rest) == 0 {
        (Some((rest.take(1), TokenKind::Plain)), 1, false)
    } else {
        let n = ident_len(rest);
        let after = rest.skip(n as int);
        let is_call = has_prefix(after.skip(leading_white(after) as int), "("@);
        (Some((rest.take(n as int), word_kind(rest.take(n as int), is_call))), n, false)
    }
}

/// The tokens of what is left of a line, and whether a block comment is
/// still open at its end.
pub open spec fn tokens_of(rest: Seq<char>, in_comment: bool) -> (Seq<(Seq<char>, TokenKind)>, bool)
    decreases rest.len(), if in_comment {
        0int
    } else {
        1int
    },
{
    if rest.len() == 0 {
        (Seq::empty(), in_comment)
    } else {
        let (token, used, open) = step(rest, in_comment);
        proof {
            lemma_step_progress(rest, in_comment);
        }
        let (later, last) = tokens_of(rest.skip(used as int), open);
        match token {
            Some(t) => (seq![t] + later, last),
            None => (later, last),
        }
    }
}

/// A comment's end lies inside the text.
pub proof fn lemma_comment_end_bound(text: Seq<char>)
    ensures
        comment_end(text) matches Some(i) ==> 0 <= i && i + 2 <= text.len() && text[i] == '*'
            && text[i + 1] == '/',
    decreases text.len(),
{
    if text.len() >= 2 && !(text[0] == '*' && text[1] == '/') {
        lemma_comment_end_bound(text.drop_first());
    }
}

/// Identifier characters lie inside the text.
pub proof fn lemma_ident_len_bound(text: Seq<char>)
    ensures
        ident_len(text) <= text.len(),
        forall|i: int| 0 <= i < ident_len(text) ==> is_ident_char(#[trigger] text[i]),
        ident_len(text) < text.len() ==> !is_ident_char(text[ident_len(text) as int]),
    decreases text.len(),
{
    if text.len() > 0 && is_ident_char(text[0]) {
        lemma_ident_len_bound(text.drop_first());
        assert forall|i: int| 0 <= i < ident_len(text) implies is_ident_char(#[trigger] text[i]) by {
            if i > 0 {
                assert(text[i] == text.drop_first()[i - 1]);
            }
        }
    }
}

/// Every step either consumes part of the line or opens a comment, and
/// never consumes more than is left.
pub proof fn lemma_step_progress(rest: Seq<char>, in_comment: bool)
    requires
        rest.len() > 0,
    ensures
        step(rest, in_comment).1 <= rest.len(),
        step(rest, in_comment).1 > 0 || (!in_comment && step(rest, in_comment).2),
{
    lemma_comment_end_bound(rest);
    lemma_ident_len_bound(rest);
    rest.drop_first().index_of_first_ensures('"');
}

/// Token texts put back together, in order.
pub open spec fn joined_texts(tokens: Seq<(Seq<char>, TokenKind)>) -> Seq<char>
    decreases tokens.len(),
{
    if tokens.len() == 0 {
        Seq::empty()
    } else {
        tokens[0].0 + joined_texts(tokens.drop_first())
    }
}

/// Every token a step emits is exactly the part of the line it consumes.
proof fn lemma_step_token(rest: Seq<char>, in_comment: bool)
    requires
        rest.len() > 0,
    ensures
        step(rest, in_comment).0 matches Some(t) ==> t.0 == rest.take(step(rest, in_comment).1 as int),
        step(rest, in_comment).0 is None ==> step(rest, in_comment).1 == 0,
{
    lemma_step_progress(rest, in_comment);
    lemma_comment_end_bound(rest);
    lemma_ident_len_bound(rest);
    rest.drop_first().index_of_first_ensures('"');
    assert(rest.take(rest.len() as int) =~= rest);
}

/// Highlighting loses nothing and adds nothing: the tokens of a line, put
/// back together, are the line.
pub proof fn lemma_tokens_cover_line(rest: Seq<char>, in_comment: bool)
    ensures
        joined_texts(tokens_of(rest, in_comment).0) == rest,
    decreases rest.len(), if in_comment {
        0int
    } else {
        1int
    },
{
    if rest.len() > 0 {
        let (token, used, open) = step(rest, in_comment);
        lemma_step_progress(rest, in_comment);
        lemma_step_token(rest, in_comment);
        lemma_tokens_cover_line(rest.skip(used as int), open);
        let (later, last) = tokens_of(rest.skip(used as int), open);
        match token {
            Some(t) => {
                let all = seq![t] + later;
                assert(all.drop_first() =~= later);
                assert(rest.take(used as int) + rest.skip(used as int) =~= rest);
            },
            None => {
                assert(rest.skip(0) =~= rest);
            },
        }
    }
}


/// A line starts with a two-character prefix exactly when its first two
/// characters are the prefix's.
pub(crate) proof fn lemma_pair_prefix(rest: Seq<char>, prefix: Seq<char>)
    requires
        prefix.len() == 2,
    ensures
        has_prefix(rest, prefix) <==> (rest.len() >= 2 && rest[0] == prefix[0] && rest[1] == prefix[1]),
{
    if rest.len() >= 2 && rest[0] == prefix[0] && rest[1] == prefix[1] {
        assert(rest.take(2) =~= prefix);
    }
    if has_prefix(rest, prefix) {
        assert(rest.take(2)[0] == rest[0]);
        assert(rest.take(2)[1] == rest[1]);
    }
}

/// Where the first `*/` at or after `from` starts, counted from `from`.
fn find_comment_end(text: &str, from: usize) -> (end: Option<usize>)
    requires
        from <= text@.len(),
    ensures
        match end {
            Some(e) => comment_end(text@.skip(from as int)) == Some(e as int),
            None => comment_end(text@.skip(from as int)) is None,
        },
{
    let n = text.unicode_len();
    let mut i = from;
    assert(text@.skip(from as int).skip(0) =~= text@.skip(from as int));
    while n - i >= 2
        invariant
            n == text@.len(),
            from <= i <= n,
            comment_end(text@.skip(from as int)) == match comment_end(text@.skip(i as int)) {
                Some(k) => Some(k + (i - from)),
                None => None,
            },
        decreases n - i,
    {
        let ghost rest = text@.skip(i as int);
        if text.get_char(i) == '*' && text.get_char(i + 1) == '/' {
            assert(rest[0] == '*' && rest[1] == '/');
            return Some(i - from);
        }
        assert(rest.drop_first() =~= text@.skip(i + 1));
        i = i + 1;
    }
    assert(text@.skip(i as int).len() < 2);
    None
}

/// How many identifier characters `text` has from `from` on.
fn ident_len_from(text: &str, from: usize) -> (len: usize)
    requires
        from <= text@.len(),
    ensures
        len == ident_len(text@.skip(from as int)),
        from + len <= text@.len(),
{
    let n = text.unicode_len();
    let mut i = from;
    assert(text@.skip(from as int).skip(0) =~= text@.skip(from as int));
    while i < n && is_ident(text.get_char(i))
        invariant
            n == text@.len(),
            from <= i <= n,
            ident_len(text@.skip(from as int)) == (i - from) + ident_len(text@.skip(i as int)),
        decreases n - i,
    {
        assert(text@.skip(i as int).drop_first() =~= text@.skip(i + 1));
        i = i + 1;
    }
    i - from
}

/// Whether `c` may be part of an identifier.
fn is_ident(c: char) -> (ident: bool)
    ensures
        ident == is_ident_char(c),
{
    ('a' <= c && c <= 'z') || ('A' <= c && c <= 'Z') || ('0' <= c && c <= '9') || c == '_'
}

/// How many white-space characters `text` has from `from` on.
fn white_from(text: &str, from: usize) -> (count: usize)
    requires
        from <= text@.len(),
    ensures
        count == leading_white(text@.skip(from as int)),
        from + count <= text@.len(),
{
    let n = text.unicode_len();
    let mut i = from;
    assert(text@.skip(from as int).skip(0) =~= text@.skip(from as int));
    while i < n && crate::text::is_white_char(text.get_char(i))
        invariant
            n == text@.len(),
            from <= i <= n,
            leading_white(text@.skip(from as int)) == (i - from) + leading_white(text@.skip(i as int)),
        decreases n - i,
    {
        assert(text@.skip(i as int).drop_first() =~= text@.skip(i + 1));
        i = i + 1;
    }
    i - from
}

/// What kind a word is, given whether a `(` follows it.
fn kind_of_word(word: &str, is_call: bool) -> (kind: TokenKind)
    requires
        word@.len() > 0,
    ensures
        kind == word_kind(word@, is_call),
{
    if same_text(word, "import") || same_text(word, "from") || same_text(word, "class")
        || same_text(word, "function") || same_text(word, "let") || same_text(word, "val") {
        return TokenKind::Keyword;
    }
    let n = word.unicode_len();
    let mut i: usize = 0;
    let mut digits = true;
    while i < n
        invariant
            n == word@.len(),
            i <= n,
            digits == forall|j: int| 0 <= j < i ==> '0' <= #[trigger] word@[j] && word@[j] <= '9',
        decreases n - i,
    {
        let c = word.get_char(i);
        if !('0' <= c && c <= '9') {
            digits = false;
        }
        i = i + 1;
    }
    if digits {
        TokenKind::Number
    } else if is_call {
        TokenKind::Function
    } else {
        let first = word.get_char(0);
        if 'A' <= first && first <= 'Z' {
            TokenKind::Type
        } else {
            TokenKind::Plain
        }
    }
}

/// A line starts with a one-character prefix exactly when its first
/// character is the prefix's.
proof fn lemma_char_prefix(rest: Seq<char>, prefix: Seq<char>)
    requires
        prefix.len() == 1,
    ensures
        has_prefix(rest, prefix) <==> (rest.len() >= 1 && rest[0] == prefix[0]),
{
    if rest.len() >= 1 && rest[0] == prefix[0] {
        assert(rest.take(1) =~= prefix);
    }
    if has_prefix(rest, prefix) {
        assert(rest.take(1)[0] == rest[0]);
    }
}

/// The token of the identifier of `length` characters at `pos`.
fn word_token(source: &str, pos: usize, length: usize) -> (token: Token)
    requires
        length > 0,
        length == ident_len(source@.skip(pos as int)),
        pos + length <= source@.len(),
    ensures
        step(source@.skip(pos as int), false).0 == Some(token_view(token)),
        step(source@.skip(pos as int), false).1 == length,
        step(source@.skip(pos as int), false).2 == false,
{
    let ghost rest = source@.skip(pos as int);
    let n = source.unicode_len();
    let word = source.substring_char(pos, pos + length);
    let gap = white_from(source, pos + length);
    let after = pos + length + gap;
    let is_call = after < n && source.get_char(after) == '(';
    proof {
        reveal_strlit("/*");
        reveal_strlit("//");
        reveal_strlit("(");
        lemma_pair_prefix(rest, "/*"@);
        lemma_pair_prefix(rest, "//"@);
        lemma_ident_len_bound(rest);
        assert(rest[0] == source@[pos as int]);
        assert(is_ident_char(rest[0]));
        let tail = rest.skip(length as int);
        assert(tail =~= source@.skip(pos + length));
        assert(tail.skip(gap as int) =~= source@.skip(after as int));
        lemma_char_prefix(tail.skip(gap as int), "("@);
        if after < n {
            assert(source@.skip(after as int)[0] == source@[after as int]);
        }
        assert(word@ =~= rest.take(length as int));
    }
    let kind = kind_of_word(word, is_call);
    Token { text: String::from_str(word), kind }
}

/// One step of the highlighter at `pos`: the token it emits, how many
/// characters it consumes, and whether a block comment is open afterwards.
fn step_at(source: &str, pos: usize, open: bool) -> (stepped: (Option<Token>, usize, bool))
    requires
        pos < source@.len(),
    ensures
        step(source@.skip(pos as int), open).0 == match stepped.0 {
            Some(t) => Some(token_view(t)),
            None => None,
        },
        step(source@.skip(pos as int), open).1 == stepped.1,
        step(source@.skip(pos as int), open).2 == stepped.2,
{
    let ghost rest = source@.skip(pos as int);
    let n = source.unicode_len();
    proof {
        lemma_step_progress(rest, open);
        lemma_comment_end_bound(rest);
        lemma_ident_len_bound(rest);
        reveal_strlit("/*");
        reveal_strlit("//");
        lemma_pair_prefix(rest, "/*"@);
        lemma_pair_prefix(rest, "//"@);
        assert(rest[0] == source@[pos as int]);
        if pos + 1 < n {
            assert(rest[1] == source@[pos + 1]);
        }
    }
    if open {
        match find_comment_end(source, pos) {
            Some(end) => {
                let text = String::from_str(source.substring_char(pos, pos + end + 2));
                assert(text@ =~= rest.take(end + 2));
                (Some(Token { text, kind: TokenKind::Comment }), end + 2, false)
            },
            None => {
                let text = String::from_str(source.substring_char(pos, n));
                assert(text@ =~= rest);
                (Some(Token { text, kind: TokenKind::Comment }), n - pos, true)
            },
        }
    } else if pos + 1 < n && source.get_char(pos) == '/' && source.get_char(pos + 1) == '*' {
        (None, 0, true)
    } else if pos + 1 < n && source.get_char(pos) == '/' && source.get_char(pos + 1) == '/' {
        let text = String::from_str(source.substring_char(pos, n));
        assert(text@ =~= rest);
        (Some(Token { text, kind: TokenKind::Comment }), n - pos, false)
    } else if source.get_char(pos) == '"' {
        let end: usize = match find_char_from(source, pos + 1, '"') {
            Some(i) => {
                assert(source@.skip(pos + 1) =~= rest.drop_first());
                i + 2
            },
            None => {
                assert(source@.skip(pos + 1) =~= rest.drop_first());
                n - pos
            },
        };
        let text = String::from_str(source.substring_char(pos, pos + end));
        assert(text@ =~= rest.take(end as int));
        (Some(Token { text, kind: TokenKind::Str }), end, false)
    } else {
        let length = ident_len_from(source, pos);
        if length == 0 {
            let text = String::from_str(source.substring_char(pos, pos + 1));
            assert(text@ =~= rest.take(1));
            (Some(Token { text, kind: TokenKind::Plain }), 1, false)
        } else {
            (Some(word_token(source, pos, length)), length, false)
        }
    }
}

/// Highlights one source line, given whether a block comment is open at
/// its start; also says whether one is still open at its end.
pub fn highlight_line(source: &str, in_comment: bool) -> (highlighted: (Vec<Token>, bool))
    ensures
        (tokens_view(highlighted.0@), highlighted.1) == tokens_of(source@, in_comment),
{
    let n = source.unicode_len();
    let mut tokens: Vec<Token> = Vec::new();
    let mut pos: usize = 0;
    let mut open = in_comment;
    assert(source@.skip(0) =~= source@);
    while pos < n
        invariant
            n == source@.len(),
            pos <= n,
            tokens_of(source@, in_comment) == (
                tokens_view(tokens@) + tokens_of(source@.skip(pos as int), open).0,
                tokens_of(source@.skip(pos as int), open).1,
            ),
        decreases n - pos, if open {
            0int
        } else {
            1int
        },
    {
        let ghost rest = source@.skip(pos as int);
        let ghost before = tokens_view(tokens@);
        let ghost was_open = open;
        proof {
            lemma_step_progress(rest, open);
        }
        let (token, consumed, next) = step_at(source, pos, open);
        proof {
            assert(rest.skip(consumed as int) =~= source@.skip(pos + consumed));
        }
        match token {
            Some(t) => {
                tokens.push(t);
                assert(tokens_view(tokens@) =~= before.push(token_view(t)));
                assert(tokens_view(tokens@) + tokens_of(rest.skip(consumed as int), next).0
                    =~= before + (seq![token_view(t)] + tokens_of(rest.skip(consumed as int), next).0));
            },
            None => {},
        }
        open = next;
        pos = pos + consumed;
    }
    assert(source@.skip(n as int) =~= Seq::<char>::empty());
    assert(tokens_view(tokens@) + Seq::<(Seq<char>, TokenKind)>::empty() =~= tokens_view(tokens@));
    (tokens, open)
}

/// The tokens of each line in turn, a block comment left open at the end of
/// one line still open at the start of the next.
pub open spec fn highlighted_lines(lines: Seq<Seq<char>>, in_comment: bool) -> Seq<Seq<(Seq<char>, TokenKind)>>
    decreases lines.len(),
{
    if lines.len() == 0 {
        Seq::empty()
    } else {
        let (first, open) = tokens_of(lines[0], in_comment);
        seq![first] + highlighted_lines(lines.drop_first(), open)
    }
}

/// Highlighted lines as tokens of text and kind.
pub open spec fn lines_view(lines: Seq<Vec<Token>>) -> Seq<Seq<(Seq<char>, TokenKind)>> {
    lines.map_values(|line: Vec<Token>| tokens_view(line@))
}

/// Highlights a whole program, one token list per line as `str::lines`
/// splits it, starting outside any comment.
pub fn highlight_program(program: &str) -> (lines: Vec<Vec<Token>>)
    ensures
        lines@.len() == std_lines(program@).len(),
        lines_view(lines@) == highlighted_lines(std_lines(program@), false),
{
    let sources = text_lines(program);
    let ghost all = std_lines(program@);
    let mut lines: Vec<Vec<Token>> = Vec::new();
    let mut open = false;
    let mut i: usize = 0;
    assert(all.skip(0) =~= all);
    while i < sources.len()
        invariant
            views_of(sources@) == all,
            i <= sources.len(),
            lines@.len() == i,
            highlighted_lines(all, false) == lines_view(lines@) + highlighted_lines(all.skip(i as int), open),
        decreases sources.len() - i,
    {
        let source = sources[i].as_str();
        let ghost before = open;
        let (tokens, next) = highlight_line(source, open);
        proof {
            assert(all.skip(i as int)[0] == source@);
            assert(all.skip(i as int).drop_first() =~= all.skip(i + 1));
        }
        lines.push(tokens);
        assert(lines_view(lines@) =~= lines_view(lines@.drop_last()).push(tokens_of(source@, before).0));
        open = next;
        i = i + 1;
    }
    assert(all.skip(i as int) =~= Seq::<Seq<char>>::empty());
    assert(lines_view(lines@) =~= lines_view(lines@) + Seq::<Seq<(Seq<char>, TokenKind)>>::empty());
    lines
}

/// The About tab's program, highlighted line by line.
pub fn program_lines() -> (lines: Vec<Vec<Token>>)
    ensures
        lines@.len() == std_lines(ABOUT_PROGRAM@).len(),
        lines_view(lines@) == highlighted_lines(std_lines(ABOUT_PROGRAM@), false),
{
    highlight_program(ABOUT_PROGRAM)
}

/// A whole word of identifier characters spans exactly its own length.
proof fn lemma_ident_len_of_word(word: Seq<char>, tail: Seq<char>)
    requires
        forall|i: int| 0 <= i < word.len() ==> is_ident_char(#[trigger] word[i]),
        tail.len() == 0 || !is_ident_char(tail[0]),
    ensures
        ident_len(word + tail) == word.len(),
    decreases word.len(),
{
    if word.len() == 0 {
        assert(word + tail =~= tail);
    } else {
        assert((word + tail).drop_first() =~= word.drop_first() + tail);
        assert((word + tail)[0] == word[0]);
        lemma_ident_len_of_word(word.drop_first(), tail);
    }
}

/// How a whole word is highlighted wherever it stands after a run of spaces
/// at the start of a line outside a comment: the spaces come out as plain
/// tokens and the word as the token right after them, and the word is
///  - a keyword when it is one of `import`, `from`, `class`, `function`,
///    `let`, `val`, whatever follows it;
///  - otherwise a number when it is all ASCII digits;
///  - otherwise a function when a `(` follows it, past any white space;
///  - otherwise a type when it starts with an ASCII capital;
///  - otherwise plain.
pub proof fn lemma_words_are_highlighted(indent: nat, word: Seq<char>, tail: Seq<char>)
    requires
        word.len() > 0,
        forall|i: int| 0 <= i < word.len() ==> is_ident_char(#[trigger] word[i]),
        tail.len() == 0 || !is_ident_char(tail[0]),
    ensures
        ({
            let tokens = tokens_of(Seq::new(indent, |_i: int| ' ') + word + tail, false).0;
            let keyword = word == "import"@ || word == "from"@ || word == "class"@ || word == "function"@
                || word == "let"@ || word == "val"@;
            let digits = forall|i: int| 0 <= i < word.len() ==> '0' <= #[trigger] word[i] <= '9';
            let call = has_prefix(tail.skip(leading_white(tail) as int), "("@);
            &&& tokens.len() > indent
            &&& tokens[indent as int].0 == word
            &&& keyword ==> tokens[indent as int].1 == TokenKind::Keyword
            &&& !keyword && digits ==> tokens[indent as int].1 == TokenKind::Number
            &&& !keyword && !digits && call ==> tokens[indent as int].1 == TokenKind::Function
            &&& !keyword && !digits && !call && 'A' <= word[0] <= 'Z' ==> tokens[indent as int].1
                == TokenKind::Type
            &&& !keyword && !digits && !call && !('A' <= word[0] <= 'Z') ==> tokens[indent as int].1
                == TokenKind::Plain
        }),
    decreases indent,
{
    reveal_strlit("import");
    reveal_strlit("from");
    reveal_strlit("class");
    reveal_strlit("function");
    reveal_strlit("let");
    reveal_strlit("val");
    reveal_strlit("/*");
    reveal_strlit("//");
    let line = Seq::new(indent, |_i: int| ' ') + word + tail;
    if indent == 0 {
        assert(line =~= word + tail);
        lemma_ident_len_of_word(word, tail);
        assert(line[0] == word[0]);
        assert(is_ident_char(word[0]));
        assert(line[0] != '/' && line[0] != '"');
        assert(!has_prefix(line, "/*"@)) by {
            if has_prefix(line, "/*"@) {
                assert(line.take(2)[0] == line[0]);
            }
        }
        assert(!has_prefix(line, "//"@)) by {
            if has_prefix(line, "//"@) {
                assert(line.take(2)[0] == line[0]);
            }
        }
        assert(line.take(word.len() as int) =~= word);
        assert(line.skip(word.len() as int) =~= tail);
        lemma_step_progress(line, false);
    } else {
        let shorter = Seq::new((indent - 1) as nat, |_i: int| ' ') + word + tail;
        assert(line.skip(1) =~= shorter);
        assert(line[0] == ' ');
        assert(!has_prefix(line, "/*"@)) by {
            if has_prefix(line, "/*"@) {
                assert(line.take(2)[0] == line[0]);
            }
        }
        assert(!has_prefix(line, "//"@)) by {
            if has_prefix(line, "//"@) {
                assert(line.take(2)[0] == line[0]);
            }
        }
        assert(ident_len(line) == 0);
        lemma_step_progress(line, false);
        lemma_words_are_highlighted((indent - 1) as nat, word, tail);
    }
}

/// Every keyword of the language (`import`, `from`, `class`, `function`,
/// `let`, `val`) is highlighted as a keyword wherever it stands as a whole
/// word after a run of spaces at the start of a line outside a comment,
/// whether or not a call follows it.
pub proof fn lemma_keywords_are_highlighted(indent: nat, word: Seq<char>, tail: Seq<char>)
    requires
        word == "import"@ || word == "from"@ || word == "class"@ || word == "function"@ || word == "let"@
            || word == "val"@,
        tail.len() == 0 || !is_ident_char(tail[0]),
    ensures
        tokens_of(Seq::new(indent, |_i: int| ' ') + word + tail, false).0.len() > indent,
        tokens_of(Seq::new(indent, |_i: int| ' ') + word + tail, false).0[indent as int] == (
            word,
            TokenKind::Keyword,
        ),
{
    reveal_strlit("import");
    reveal_strlit("from");
    reveal_strlit("class");
    reveal_strlit("function");
    reveal_strlit("let");
    reveal_strlit("val");
    assert(word.len() > 0);
    assert(forall|i: int| 0 <= i < word.len() ==> is_ident_char(#[trigger] word[i]));
    lemma_words_are_highlighted(indent, word, tail);
}

/// A line outside a comment that starts with `//` is one comment token.
pub proof fn lemma_line_comments_are_highlighted(line: Seq<char>)
    requires
        has_prefix(line, "//"@),
    ensures
        tokens_of(line, false) == (seq![(line, TokenKind::Comment)], false),
{
    reveal_strlit("//");
    reveal_strlit("/*");
    assert(line.take(2) =~= "//"@);
    assert(!has_prefix(line, "/*"@)) by {
        if has_prefix(line, "/*"@) {
            assert(line.take(2)[1] == line[1]);
        }
    }
    assert(line.len() > 0);
    assert(line.skip(line.len() as int) =~= Seq::<char>::empty());
    assert(tokens_of(line.skip(line.len() as int), false) == (Seq::<(Seq<char>, TokenKind)>::empty(), false));
    assert(seq![(line, TokenKind::Comment)] + Seq::<(Seq<char>, TokenKind)>::empty() =~= seq![(line, TokenKind::Comment)]);
}

/// A string literal at the start of what is left of a line outside a
/// comment is one string token, from its opening quote through the first
/// quote after it, whatever follows.
pub proof fn lemma_strings_are_highlighted(body: Seq<char>, tail: Seq<char>)
    requires
        !body.contains('"'),
    ensures
        tokens_of(seq!['"'] + body + seq!['"'] + tail, false).0.len() > 0,
        tokens_of(seq!['"'] + body + seq!['"'] + tail, false).0[0] == (
            seq!['"'] + body + seq!['"'],
            TokenKind::Str,
        ),
{
    reveal_strlit("/*");
    reveal_strlit("//");
    let line = seq!['"'] + body + seq!['"'] + tail;
    assert(line[0] == '"');
    assert(!has_prefix(line, "/*"@)) by {
        if has_prefix(line, "/*"@) {
            assert(line.take(2)[0] == line[0]);
        }
    }
    assert(!has_prefix(line, "//"@)) by {
        if has_prefix(line, "//"@) {
            assert(line.take(2)[0] == line[0]);
        }
    }
    let after = line.drop_first();
    assert(after =~= body + seq!['"'] + tail);
    after.index_of_first_ensures('"');
    assert(after[body.len() as int] == '"');
    assert(after.index_of_first('"') == Some(body.len() as int)) by {
        match after.index_of_first('"') {
            Some(i) => {
                if i < body.len() {
                    assert(after[i] == body[i]);
                    assert(body.contains(body[i]));
                }
            },
            None => {
                assert(after.contains('"'));
            },
        }
    }
    assert(line.take(body.len() as int + 2) =~= seq!['"'] + body + seq!['"']);
    lemma_step_progress(line, false);
}

} // verus!
