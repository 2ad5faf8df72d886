//! Character-level string helpers shared by the rest of the crate. Strings are
//! reasoned about through their views, sequences of `char`.

use vstd::prelude::*;
use vstd::string::*;
use vstd::utf8::*;

verus! {

/// Appends one character. Calls `String::push`, which std documents as
/// appending the given `char` to the end of the string; that is all the
/// contract claims.
#[verifier::external_body]
pub(crate) fn push_char(s: &mut String, c: char)
    ensures
        final(s)@ == old(s)@.push(c),
{
    s.push(c);
}

/// The string made of `n` copies of `c`.
pub fn repeat_char(c: char, n: usize) -> (out: String)
    ensures
        out@ == Seq::new(n as nat, |_i: int| c),
{
    let mut out = String::new();
    let mut i: usize = 0;
    while i < n
        invariant
            i <= n,
            out@ == Seq::new(i as nat, |_j: int| c),
        decreases n - i,
    {
        push_char(&mut out, c);
        i = i + 1;
        assert(out@ =~= Seq::new(i as nat, |_j: int| c));
    }
    out
}

/// UTF-8 encoding distributes over concatenation.
pub proof fn lemma_encode_utf8_concat(a: Seq<char>, b: Seq<char>)
    ensures
        encode_utf8(a + b) == encode_utf8(a) + encode_utf8(b),
    decreases a.len(),
{
    if a.len() == 0 {
        assert(a + b =~= b);
        assert(encode_utf8(a) =~= Seq::<u8>::empty());
        assert(Seq::<u8>::empty() + encode_utf8(b) =~= encode_utf8(b));
    } else {
        lemma_encode_utf8_concat(a.drop_first(), b);
        assert((a + b).drop_first() =~= a.drop_first() + b);
        assert((a + b)[0] == a[0]);
        assert(encode_scalar(a[0] as u32) + (encode_utf8(a.drop_first()) + encode_utf8(b))
            =~= (encode_scalar(a[0] as u32) + encode_utf8(a.drop_first())) + encode_utf8(b));
    }
}

/// The number of bytes `c` takes in UTF-8.
pub open spec fn utf8_width(c: char) -> nat {
    encode_scalar(c as u32).len()
}

/// Encoding one more character appends that character's bytes.
pub proof fn lemma_encode_utf8_push(s: Seq<char>, c: char)
    ensures
        encode_utf8(s.push(c)) == encode_utf8(s) + encode_scalar(c as u32),
        encode_utf8(s.push(c)).len() == encode_utf8(s).len() + utf8_width(c),
{
    lemma_encode_utf8_concat(s, seq![c]);
    assert(s.push(c) =~= s + seq![c]);
    assert(seq![c].drop_first() =~= Seq::<char>::empty());
    assert(encode_utf8(seq![c]) =~= encode_scalar(c as u32) + encode_utf8(Seq::<char>::empty()));
    assert(encode_scalar(c as u32) + Seq::<u8>::empty() =~= encode_scalar(c as u32));
}

/// The number of bytes `c` takes in UTF-8, by its code point.
pub fn char_len_utf8(c: char) -> (width: usize)
    ensures
        width == utf8_width(c),
        1 <= width <= 4,
{
    proof {
        char_is_scalar(c);
    }
    let code: u32 = c as u32;
    if code <= 0x7f {
        1
    } else if code <= 0x7ff {
        2
    } else if code <= 0xffff {
        3
    } else {
        4
    }
}

/// The byte offset at which character `char_index` of `s` starts, or the
/// byte length of `s` when it has no such character.
pub fn byte_index(s: &str, char_index: usize) -> (index: usize)
    ensures
        char_index < s@.len() ==> index == encode_utf8(s@.take(char_index as int)).len(),
        char_index >= s@.len() ==> index == s.spec_bytes().len(),
{
    let n = s.unicode_len();
    let limit = if char_index < n {
        char_index
    } else {
        n
    };
    let total: usize = s.as_bytes().len();
    let mut offset: usize = 0;
    let mut i: usize = 0;
    proof {
        lemma_encode_utf8_concat(s@.take(limit as int), s@.skip(limit as int));
        assert(s@.take(limit as int) + s@.skip(limit as int) =~= s@);
        assert(s@.take(0) =~= Seq::<char>::empty());
    }
    while i < limit
        invariant
            limit <= n,
            n == s@.len(),
            total == s.spec_bytes().len(),
            i <= limit,
            offset == encode_utf8(s@.take(i as int)).len(),
            encode_utf8(s@.take(limit as int)).len() <= total,
        decreases limit - i,
    {
        let c = s.get_char(i);
        proof {
            assert(s@.take(i + 1) =~= s@.take(i as int).push(c));
            lemma_encode_utf8_push(s@.take(i as int), c);
            lemma_encode_utf8_concat(s@.take(i + 1), s@.subrange(i + 1, limit as int));
            assert(s@.take(i + 1) + s@.subrange(i + 1, limit as int) =~= s@.take(limit as int));
        }
        offset = offset + char_len_utf8(c);
        i = i + 1;
    }
    proof {
        assert(s@.take(n as int) =~= s@);
    }
    offset
}

/// Whether `c` is Unicode white space, as `char::is_whitespace` defines it
/// (the `White_Space` property).
pub open spec fn is_white(c: char) -> bool {
    ||| ('\u{9}' <= c && c <= '\u{d}')
    ||| c == ' '
    ||| c == '\u{85}'
    ||| c == '\u{a0}'
    ||| c == '\u{1680}'
    ||| ('\u{2000}' <= c && c <= '\u{200a}')
    ||| c == '\u{2028}'
    ||| c == '\u{2029}'
    ||| c == '\u{202f}'
    ||| c == '\u{205f}'
    ||| c == '\u{3000}'
}

/// Whether `c` is Unicode white space.
pub fn is_white_char(c: char) -> (white: bool)
    ensures
        white == is_white(c),
{
    ('\u{9}' <= c && c <= '\u{d}') || c == ' ' || c == '\u{85}' || c == '\u{a0}' || c == '\u{1680}'
        || ('\u{2000}' <= c && c <= '\u{200a}') || c == '\u{2028}' || c == '\u{2029}' || c
        == '\u{202f}' || c == '\u{205f}' || c == '\u{3000}'
}

/// The number of white-space characters `text` starts with.
pub open spec fn leading_white(text: Seq<char>) -> nat
    decreases text.len(),
{
    if text.len() == 0 {
        0
    } else if is_white(text[0]) {
        1 + leading_white(text.drop_first())
    } else {
        0
    }
}

/// The number of white-space characters `text` ends with.
pub open spec fn trailing_white(text: Seq<char>) -> nat
    decreases text.len(),
{
    if text.len() == 0 {
        0
    } else if is_white(text.last()) {
        1 + trailing_white(text.drop_last())
    } else {
        0
    }
}

/// `text` without its leading and trailing white space, as `str::trim`
/// returns it.
pub open spec fn trimmed(text: Seq<char>) -> Seq<char> {
    let rest = text.skip(leading_white(text) as int);
    rest.take(rest.len() - trailing_white(rest))
}

proof fn lemma_leading_white_bound(text: Seq<char>)
    ensures
        leading_white(text) <= text.len(),
    decreases text.len(),
{
    if text.len() > 0 && is_white(text[0]) {
        lemma_leading_white_bound(text.drop_first());
    }
}

proof fn lemma_trailing_white_bound(text: Seq<char>)
    ensures
        trailing_white(text) <= text.len(),
    decreases text.len(),
{
    if text.len() > 0 && is_white(text.last()) {
        lemma_trailing_white_bound(text.drop_last());
    }
}

/// `text` without its leading and trailing white space.
pub fn trim(text: &str) -> (out: String)
    ensures
        out@ == trimmed(text@),
{
    let n = text.unicode_len();
    let mut lo: usize = 0;
    proof {
        lemma_leading_white_bound(text@);
        assert(text@.skip(0) =~= text@);
    }
    while lo < n && is_white_char(text.get_char(lo))
        invariant
            n == text@.len(),
            lo <= n,
            leading_white(text@) == lo + leading_white(text@.skip(lo as int)),
        decreases n - lo,
    {
        assert(text@.skip(lo as int).drop_first() =~= text@.skip(lo + 1));
        lo = lo + 1;
    }
    let ghost rest = text@.skip(lo as int);
    assert(leading_white(rest) == 0);
    let mut hi: usize = n;
    proof {
        lemma_trailing_white_bound(rest);
        assert(rest.take(rest.len() as int) =~= rest);
    }
    while hi > lo && is_white_char(text.get_char(hi - 1))
        invariant
            n == text@.len(),
            lo <= hi <= n,
            rest == text@.skip(lo as int),
            trailing_white(rest) == (n - hi) + trailing_white(rest.take(hi - lo)),
        decreases hi - lo,
    {
        assert(rest.take(hi - lo).drop_last() =~= rest.take(hi - lo - 1));
        assert(rest.take(hi - lo).last() == text@[hi - 1]);
        hi = hi - 1;
    }
    assert(trailing_white(rest.take(hi - lo)) == 0);
    assert(rest.take(rest.len() - trailing_white(rest)) =~= text@.subrange(lo as int, hi as int));
    String::from_str(text.substring_char(lo, hi))
}

/// `c` with ASCII upper-case letters mapped to lower case, as
/// `char::to_ascii_lowercase` maps it.
pub open spec fn ascii_lower(c: char) -> char {
    if 'A' <= c && c <= 'Z' {
        ((c as u32) + 32) as char
    } else {
        c
    }
}

/// `c` in ASCII lower case.
pub fn to_ascii_lower(c: char) -> (lower: char)
    ensures
        lower == ascii_lower(c),
{
    if 'A' <= c && c <= 'Z' {
        let code: u32 = (c as u32) + 32;
        proof {
            vstd::utf8::char_u32_cast(((c as u32) + 32) as char, code);
        }
        char_from_ascii(code)
    } else {
        c
    }
}

/// The character with code `code`, for an ASCII letter code.
fn char_from_ascii(code: u32) -> (c: char)
    requires
        0x41 <= code <= 0x7a,
    ensures
        c == code as char,
        c as u32 == code,
{
    let byte: u8 = code as u8;
    let c = byte as char;
    assert(c == code as char);
    c
}

/// Whether `text` begins with `prefix`.
pub open spec fn has_prefix(text: Seq<char>, prefix: Seq<char>) -> bool {
    text.len() >= prefix.len() && text.take(prefix.len() as int) == prefix
}

/// Whether `text` begins with `prefix` when ASCII letters are compared
/// without regard to case.
pub open spec fn has_prefix_ignore_case(text: Seq<char>, prefix: Seq<char>) -> bool {
    text.len() >= prefix.len() && forall|i: int| 0 <= i < prefix.len() ==> #[trigger] ascii_lower(text[i]) == ascii_lower(prefix[i])
}

/// Whether `text` begins with `prefix`.
pub fn starts_with(text: &str, prefix: &str) -> (found: bool)
    ensures
        found == has_prefix(text@, prefix@),
{
    let n = text.unicode_len();
    let m = prefix.unicode_len();
    if n < m {
        return false;
    }
    let mut i: usize = 0;
    while i < m
        invariant
            n == text@.len(),
            m == prefix@.len(),
            m <= n,
            i <= m,
            forall|j: int| 0 <= j < i ==> text@[j] == prefix@[j],
        decreases m - i,
    {
        if text.get_char(i) != prefix.get_char(i) {
            assert(text@.take(m as int)[i as int] != prefix@[i as int]);
            return false;
        }
        i = i + 1;
    }
    assert(text@.take(m as int) =~= prefix@);
    true
}

/// Whether `text` begins with `prefix`, comparing ASCII letters without
/// regard to case.
pub fn starts_with_ignore_case(text: &str, prefix: &str) -> (found: bool)
    ensures
        found == has_prefix_ignore_case(text@, prefix@),
{
    let n = text.unicode_len();
    let m = prefix.unicode_len();
    if n < m {
        return false;
    }
    let mut i: usize = 0;
    while i < m
        invariant
            n == text@.len(),
            m == prefix@.len(),
            m <= n,
            i <= m,
            forall|j: int| 0 <= j < i ==> #[trigger] ascii_lower(text@[j]) == ascii_lower(prefix@[j]),
        decreases m - i,
    {
        if to_ascii_lower(text.get_char(i)) != to_ascii_lower(prefix.get_char(i)) {
            return false;
        }
        i = i + 1;
    }
    true
}

/// The rest of `text` after `prefix`, compared without regard to ASCII case,
/// if `text` begins with it.
pub fn strip_prefix_ignore_case(text: &str, prefix: &str) -> (rest: Option<String>)
    ensures
        rest is Some <==> has_prefix_ignore_case(text@, prefix@),
        rest matches Some(r) ==> r@ == text@.skip(prefix@.len() as int),
{
    if starts_with_ignore_case(text, prefix) {
        let n = text.unicode_len();
        let m = prefix.unicode_len();
        Some(String::from_str(text.substring_char(m, n)))
    } else {
        None
    }
}

/// Whether two strings are equal.
pub fn same_text(a: &str, b: &str) -> (equal: bool)
    ensures
        equal == (a@ == b@),
{
    let x = String::from_str(a);
    let y = String::from_str(b);
    x == y
}


/// The character of decimal digit `d`.
pub open spec fn digit_char(d: int) -> char {
    (48 + d) as char
}

/// `n` written in decimal, without leading zeros.
pub open spec fn decimal(n: nat) -> Seq<char>
    decreases n,
{
    if n < 10 {
        seq![digit_char(n as int)]
    } else {
        decimal(n / 10) + seq![digit_char((n % 10) as int)]
    }
}

/// The character of decimal digit `d`.
fn digit(d: u64) -> (c: char)
    requires
        d < 10,
    ensures
        c == digit_char(d as int),
{
    let byte: u8 = 48 + d as u8;
    let c = byte as char;
    assert(c == digit_char(d as int));
    c
}

/// `n` written in decimal, as `u64`'s `Display` writes it.
pub fn decimal_text(n: u64) -> (text: String)
    ensures
        text@ == decimal(n as nat),
    decreases n,
{
    if n < 10 {
        let mut text = String::new();
        push_char(&mut text, digit(n));
        assert(text@ =~= decimal(n as nat));
        text
    } else {
        let mut text = decimal_text(n / 10);
        push_char(&mut text, digit(n % 10));
        text
    }
}

/// `text` with ASCII upper-case letters mapped to lower case, as
/// `str::to_ascii_lowercase` maps it.
pub open spec fn ascii_lowercase(text: Seq<char>) -> Seq<char> {
    text.map_values(|c: char| ascii_lower(c))
}

/// `text` in ASCII lower case.
pub fn to_ascii_lowercase(text: &str) -> (lower: String)
    ensures
        lower@ == ascii_lowercase(text@),
{
    let n = text.unicode_len();
    let mut lower = String::new();
    let mut i: usize = 0;
    while i < n
        invariant
            n == text@.len(),
            i <= n,
            lower@ == ascii_lowercase(text@.take(i as int)),
        decreases n - i,
    {
        push_char(&mut lower, to_ascii_lower(text.get_char(i)));
        i = i + 1;
        assert(lower@ =~= ascii_lowercase(text@.take(i as int)));
    }
    assert(text@.take(n as int) =~= text@);
    lower
}


/// Whether `text` ends with `suffix`.
pub open spec fn has_suffix(text: Seq<char>, suffix: Seq<char>) -> bool {
    text.len() >= suffix.len() && text.skip(text.len() - suffix.len()) == suffix
}

/// Whether `text` ends with `suffix`.
pub fn ends_with(text: &str, suffix: &str) -> (found: bool)
    ensures
        found == has_suffix(text@, suffix@),
{
    let n = text.unicode_len();
    let m = suffix.unicode_len();
    if n < m {
        return false;
    }
    let tail = text.substring_char(n - m, n);
    assert(tail@ =~= text@.skip(n - m));
    same_text(tail, suffix)
}

/// Whether `line` is nothing but white space.
pub open spec fn is_blank(line: Seq<char>) -> bool {
    forall|i: int| 0 <= i < line.len() ==> is_white(#[trigger] line[i])
}

/// Whether `line` is nothing but white space.
pub fn blank(line: &str) -> (is: bool)
    ensures
        is == is_blank(line@),
{
    let n = line.unicode_len();
    let mut i: usize = 0;
    while i < n
        invariant
            n == line@.len(),
            i <= n,
            forall|j: int| 0 <= j < i ==> is_white(#[trigger] line@[j]),
        decreases n - i,
    {
        if !is_white_char(line.get_char(i)) {
            return false;
        }
        i = i + 1;
    }
    true
}


/// `text` split at every `sep`: the pieces between separators, in order; an
/// empty text is one empty piece.
pub open spec fn pieces(text: Seq<char>, sep: char) -> Seq<Seq<char>>
    decreases text.len(),
{
    if text.len() == 0 {
        seq![Seq::<char>::empty()]
    } else {
        let before = pieces(text.drop_last(), sep);
        if text.last() == sep {
            before.push(Seq::<char>::empty())
        } else {
            before.update(before.len() - 1, before.last().push(text.last()))
        }
    }
}

/// Splitting always gives at least one piece.
pub proof fn lemma_pieces_nonempty(text: Seq<char>, sep: char)
    ensures
        pieces(text, sep).len() >= 1,
    decreases text.len(),
{
    if text.len() > 0 {
        lemma_pieces_nonempty(text.drop_last(), sep);
    }
}

/// The character views of `strings`.
pub open spec fn texts_of(strings: Seq<String>) -> Seq<Seq<char>> {
    strings.map_values(|s: String| s@)
}

/// `text` split at every `sep`, as `str::split` splits it at a `char`.
pub fn split_at_char(text: &str, sep: char) -> (parts: Vec<String>)
    ensures
        texts_of(parts@) == pieces(text@, sep),
{
    let n = text.unicode_len();
    let mut parts: Vec<String> = Vec::new();
    let mut current = String::new();
    let mut i: usize = 0;
    assert(text@.take(0) =~= Seq::<char>::empty());
    assert(texts_of(parts@).push(current@) =~= pieces(text@.take(0), sep));
    while i < n
        invariant
            n == text@.len(),
            i <= n,
            texts_of(parts@).push(current@) == pieces(text@.take(i as int), sep),
        decreases n - i,
    {
        let c = text.get_char(i);
        proof {
            assert(text@.take(i + 1).drop_last() =~= text@.take(i as int));
            lemma_pieces_nonempty(text@.take(i as int), sep);
        }
        if c == sep {
            let mut done = String::new();
            std::mem::swap(&mut done, &mut current);
            parts.push(done);
            assert(texts_of(parts@).push(current@) =~= pieces(text@.take(i + 1), sep));
        } else {
            push_char(&mut current, c);
            assert(texts_of(parts@).push(current@) =~= pieces(text@.take(i + 1), sep));
        }
        i = i + 1;
    }
    parts.push(current);
    assert(text@.take(n as int) =~= text@);
    assert(texts_of(parts@) =~= pieces(text@, sep));
    parts
}

/// The words of `text`: its maximal runs of characters that are not white
/// space, in order, as `str::split_whitespace` yields them.
pub open spec fn words(text: Seq<char>) -> Seq<Seq<char>>
    decreases text.len(),
{
    if text.len() == 0 {
        Seq::empty()
    } else {
        let before = words(text.drop_last());
        let c = text.last();
        if is_white(c) {
            before
        } else if text.len() >= 2 && !is_white(text[text.len() - 2]) {
            before.update(before.len() - 1, before.last().push(c))
        } else {
            before.push(seq![c])
        }
    }
}

/// A text that ends in a character that is not white space has a last word.
pub proof fn lemma_words_end(text: Seq<char>)
    requires
        text.len() > 0,
        !is_white(text.last()),
    ensures
        words(text).len() > 0,
    decreases text.len(),
{
    if text.len() >= 2 && !is_white(text[text.len() - 2]) {
        assert(text.drop_last().last() == text[text.len() - 2]);
        lemma_words_end(text.drop_last());
    }
}

/// The words of `text`, in order.
pub fn split_words(text: &str) -> (parts: Vec<String>)
    ensures
        texts_of(parts@) == words(text@),
{
    let n = text.unicode_len();
    let mut parts: Vec<String> = Vec::new();
    let mut current = String::new();
    let mut in_word = false;
    let mut i: usize = 0;
    assert(text@.take(0) =~= Seq::<char>::empty());
    while i < n
        invariant
            n == text@.len(),
            i <= n,
            in_word == (i > 0 && !is_white(text@[i - 1])),
            in_word ==> texts_of(parts@).push(current@) == words(text@.take(i as int)),
            !in_word ==> texts_of(parts@) == words(text@.take(i as int)),
        decreases n - i,
    {
        let c = text.get_char(i);
        let ghost prefix = text@.take(i as int);
        proof {
            assert(text@.take(i + 1).drop_last() =~= prefix);
            assert(text@.take(i + 1).last() == c);
            if i > 0 {
                assert(text@.take(i + 1)[i - 1] == text@[i - 1]);
            }
            if in_word {
                assert(prefix.last() == text@[i - 1]);
                lemma_words_end(prefix);
            }
        }
        if is_white_char(c) {
            if in_word {
                let mut done = String::new();
                std::mem::swap(&mut done, &mut current);
                parts.push(done);
                in_word = false;
            }
            assert(texts_of(parts@) =~= words(text@.take(i + 1)));
        } else {
            if !in_word {
                current = String::new();
            }
            push_char(&mut current, c);
            in_word = true;
            assert(texts_of(parts@).push(current@) =~= words(text@.take(i + 1)));
        }
        i = i + 1;
    }
    if in_word {
        parts.push(current);
    }
    assert(text@.take(n as int) =~= text@);
    assert(texts_of(parts@) =~= words(text@));
    parts
}


/// The character before a text's trailing white space is not white space.
pub proof fn lemma_trailing_white_stops(text: Seq<char>)
    requires
        trailing_white(text) < text.len(),
    ensures
        !is_white(text[text.len() - trailing_white(text) - 1]),
    decreases text.len(),
{
    if is_white(text.last()) {
        lemma_trailing_white_stops(text.drop_last());
    }
}

/// A trimmed text that is not empty ends in a character that is not white
/// space.
pub proof fn lemma_trimmed_ends(text: Seq<char>)
    requires
        trimmed(text).len() > 0,
    ensures
        !is_white(trimmed(text).last()),
{
    let rest = text.skip(leading_white(text) as int);
    lemma_trailing_white_bound(rest);
    lemma_trailing_white_stops(rest);
}

/// Trimming never lengthens a text.
pub proof fn lemma_trimmed_len(text: Seq<char>)
    ensures
        trimmed(text).len() <= text.len(),
{
    lemma_leading_white_bound(text);
    lemma_trailing_white_bound(text.skip(leading_white(text) as int));
}

/// No word is longer than the text it is a word of.
pub proof fn lemma_word_lengths(text: Seq<char>)
    ensures
        forall|i: int| 0 <= i < words(text).len() ==> #[trigger] words(text)[i].len() <= text.len(),
    decreases text.len(),
{
    if text.len() > 0 {
        let before = words(text.drop_last());
        lemma_word_lengths(text.drop_last());
        assert forall|i: int| 0 <= i < words(text).len() implies #[trigger] words(text)[i].len()
            <= text.len() by {
            let c = text.last();
            if i < before.len() {
                assert(before[i].len() <= text.len() - 1);
            }
            if is_white(c) {
            } else if text.len() >= 2 && !is_white(text[text.len() - 2]) {
                assert(text.drop_last().last() == text[text.len() - 2]);
                lemma_words_end(text.drop_last());
                let updated = before.update(before.len() - 1, before.last().push(c));
                assert(words(text) == updated);
                if i == before.len() - 1 {
                    assert(updated[i] == before[i].push(c));
                } else {
                    assert(updated[i] == before[i]);
                }
            } else {
                assert(words(text) == before.push(seq![c]));
            }
        }
    }
}


/// `text` without its leading white space, as `str::trim_start` returns it.
pub open spec fn trimmed_start(text: Seq<char>) -> Seq<char> {
    text.skip(leading_white(text) as int)
}

/// `text` without its leading white space.
pub fn trim_start(text: &str) -> (out: String)
    ensures
        out@ == trimmed_start(text@),
{
    let n = text.unicode_len();
    let mut i: usize = 0;
    assert(text@.skip(0) =~= text@);
    while i < n && is_white_char(text.get_char(i))
        invariant
            n == text@.len(),
            i <= n,
            leading_white(text@) == i + leading_white(text@.skip(i as int)),
        decreases n - i,
    {
        assert(text@.skip(i as int).drop_first() =~= text@.skip(i + 1));
        i = i + 1;
    }
    assert(leading_white(text@.skip(i as int)) == 0);
    let rest = text.substring_char(i, n);
    assert(rest@ =~= text@.skip(i as int));
    String::from_str(rest)
}

/// A text that is not blank has a first word.
pub proof fn lemma_words_of_nonblank(text: Seq<char>)
    requires
        !is_blank(text),
    ensures
        words(text).len() > 0,
    decreases text.len(),
{
    if is_white(text.last()) {
        assert(!is_blank(text.drop_last())) by {
            let k = choose|k: int| 0 <= k < text.len() && !is_white(#[trigger] text[k]);
            assert(k != text.len() - 1);
            assert(text.drop_last()[k] == text[k]);
        }
        lemma_words_of_nonblank(text.drop_last());
    } else {
        lemma_words_end(text);
    }
}

/// Where the first `c` at or after `from` is, counted from `from`.
pub fn find_char_from(text: &str, from: usize, c: char) -> (at: Option<usize>)
    requires
        from <= text@.len(),
    ensures
        match at {
            Some(i) => text@.skip(from as int).index_of_first(c) == Some(i as int),
            None => text@.skip(from as int).index_of_first(c) is None,
        },
{
    let ghost rest = text@.skip(from as int);
    proof {
        rest.index_of_first_ensures(c);
    }
    let n = text.unicode_len();
    let mut i = from;
    while i < n
        invariant
            n == text@.len(),
            from <= i <= n,
            rest == text@.skip(from as int),
            forall|j: int| from <= j < i ==> text@[j] != c,
        decreases n - i,
    {
        if text.get_char(i) == c {
            proof {
                rest.index_of_first_ensures(c);
                assert(rest[i - from] == c);
                assert(rest.contains(c));
                let k = rest.index_of_first(c).unwrap();
                if k < i - from {
                    assert(text@[k + from] != c);
                }
                if k > i - from {
                    assert(rest[i - from] != c);
                }
            }
            return Some(i - from);
        }
        i = i + 1;
    }
    proof {
        rest.index_of_first_ensures(c);
        if rest.contains(c) {
            let k = choose|k: int| 0 <= k < rest.len() && rest[k] == c;
            assert(text@[k + from] != c);
        }
    }
    None
}

/// `s` without its character `at`.
pub fn without_char(s: &str, at: usize) -> (out: String)
    requires
        at < s@.len(),
    ensures
        out@ == s@.remove(at as int),
{
    let n = s.unicode_len();
    let mut out = String::from_str(s.substring_char(0, at));
    out.append(s.substring_char(at + 1, n));
    assert(out@ =~= s@.remove(at as int));
    out
}

/// `s` with `c` inserted before its character `at`.
pub fn with_char(s: &str, at: usize, c: char) -> (out: String)
    requires
        at <= s@.len(),
    ensures
        out@ == crate::editor::inserted(s@, at as int, c),
{
    let n = s.unicode_len();
    let mut out = String::from_str(s.substring_char(0, at));
    crate::text::push_char(&mut out, c);
    out.append(s.substring_char(at, n));
    assert(out@ =~= crate::editor::inserted(s@, at as int, c));
    out
}

/// A copy of `strings`.
pub fn copy_strings(strings: &Vec<String>) -> (copy: Vec<String>)
    ensures
        texts_of(copy@) == texts_of(strings@),
{
    let mut copy: Vec<String> = Vec::new();
    let mut i: usize = 0;
    while i < strings.len()
        invariant
            i <= strings@.len(),
            copy@.len() == i,
            texts_of(copy@) == texts_of(strings@).take(i as int),
        decreases strings.len() - i,
    {
        let item = strings[i].clone();
        assert(item@ == texts_of(strings@)[i as int]);
        copy.push(item);
        assert(texts_of(copy@) =~= texts_of(strings@).take(i + 1));
        i = i + 1;
    }
    assert(texts_of(strings@).take(strings@.len() as int) =~= texts_of(strings@));
    copy
}

} // verus!
