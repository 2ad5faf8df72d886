//! The project dashboard's rules: which tracked files count toward a
//! repository's language breakdown and as which language, how languages are
//! ranked and coloured, how byte counts read, and when a repository holds
//! work that exists only locally.
//!
//! Paths are taken apart by `std::path::Path`; what the dashboard decides
//! from the parts is verified here.

use crate::editor::{split_lines, views_of, Editor};
use crate::text::{
    ascii_lowercase, blank, decimal, decimal_text, has_prefix, is_blank, is_white, is_white_char,
    leading_white, same_text, starts_with, to_ascii_lowercase,
};
use std::path::Path;
use vstd::prelude::*;
use vstd::string::*;

verus! {

/// A string option as characters.
pub open spec fn text_option(text: Option<&str>) -> Option<Seq<char>> {
    match text {
        Some(t) => Some(t@),
        None => None,
    }
}

/// The components `Path::components` splits `path` into, each as text.
pub uninterp spec fn path_components(path: Seq<char>) -> Seq<Seq<char>>;

/// What `Path::file_name` gives for `path`.
pub uninterp spec fn path_file_name(path: Seq<char>) -> Option<Seq<char>>;

/// The index of the last `.` in `name`, or -1 when there is none.
pub open spec fn last_dot(name: Seq<char>) -> int
    decreases name.len(),
{
    if name.len() == 0 {
        -1
    } else if name.last() == '.' {
        name.len() - 1
    } else {
        last_dot(name.drop_last())
    }
}

/// What `Path::extension` gives for `path`, as std documents it: nothing
/// without a file name, nothing when the name has no `.` but a leading one,
/// and otherwise what follows the name's last `.`.
pub open spec fn path_extension(path: Seq<char>) -> Option<Seq<char>> {
    match path_file_name(path) {
        Some(name) => if last_dot(name) > 0 {
            Some(name.skip(last_dot(name) + 1))
        } else {
            None
        },
        None => None,
    }
}

/// Calls `Path::components` on `path` and hands back each component's text
/// (`OsStr::to_string_lossy`, lossless for a path that came from a `str`).
/// The contract names the result; the splitting rules are std's.
#[verifier::external_body]
fn components(path: &str) -> (parts: Vec<String>)
    ensures
        parts.deep_view() == path_components(path@),
{
    let mut parts = Vec::new();
    for component in Path::new(path).components() {
        parts.push(component.as_os_str().to_string_lossy().into_owned());
    }
    parts
}

/// Calls `Path::file_name`: the final component of `path`, if it is a
/// normal one. The contract names the result.
#[verifier::external_body]
fn file_name(path: &str) -> (name: Option<String>)
    ensures
        name.deep_view() == path_file_name(path@),
{
    match Path::new(path).file_name() {
        Some(name) => match name.to_str() {
            Some(text) => Some(String::from(text)),
            None => None,
        },
        None => None,
    }
}

/// The index of the last `.` in `name`, if it has one.
fn last_dot_index(name: &str) -> (at: Option<usize>)
    ensures
        match at {
            Some(k) => k == last_dot(name@),
            None => last_dot(name@) == -1,
        },
{
    let n = name.unicode_len();
    let mut i: usize = n;
    assert(name@.take(n as int) =~= name@);
    while i > 0
        invariant
            i <= n,
            n == name@.len(),
            last_dot(name@) == last_dot(name@.take(i as int)),
        decreases i,
    {
        let c = name.get_char(i - 1);
        assert(name@.take(i as int).drop_last() =~= name@.take(i - 1));
        assert(name@.take(i as int).last() == c);
        if c == '.' {
            return Some(i - 1);
        }
        i = i - 1;
    }
    None
}

/// What `Path::extension` gives for `path`: what follows the last `.` of the
/// file name, when there is one past a leading dot.
fn extension(path: &str) -> (ext: Option<String>)
    ensures
        ext.deep_view() == path_extension(path@),
{
    match file_name(path) {
        Some(name) => match last_dot_index(name.as_str()) {
            Some(at) => {
                if at > 0 {
                    let n = name.as_str().unicode_len();
                    proof {
                        lemma_last_dot_in_name(name@);
                    }
                    let rest = name.as_str().substring_char(at + 1, n);
                    Some(String::from_str(rest))
                } else {
                    None
                }
            },
            None => None,
        },
        None => None,
    }
}

/// The last dot of a name lies inside it.
proof fn lemma_last_dot_in_name(name: Seq<char>)
    ensures
        -1 <= last_dot(name) < name.len(),
    decreases name.len(),
{
    if name.len() > 0 && name.last() != '.' {
        lemma_last_dot_in_name(name.drop_last());
    }
}

/// The directory names that mark vendored or generated trees.
pub open spec fn is_vendor_dir(name: Seq<char>) -> bool {
    ||| name == "node_modules"@
    ||| name == "vendor"@
    ||| name == "third_party"@
    ||| name == "dist"@
    ||| name == "build"@
    ||| name == ".next"@
    ||| name == "target"@
    ||| name == "out"@
    ||| name == ".yarn"@
    ||| name == "generated"@
}

fn vendor_dir(name: &str) -> (vendor: bool)
    ensures
        vendor == is_vendor_dir(name@),
{
    same_text(name, "node_modules") || same_text(name, "vendor") || same_text(name, "third_party")
        || same_text(name, "dist") || same_text(name, "build") || same_text(name, ".next")
        || same_text(name, "target") || same_text(name, "out") || same_text(name, ".yarn")
        || same_text(name, "generated")
}

/// Whether any of a path's components names a vendored or generated tree.
pub fn vendored_components(parts: &Vec<String>) -> (vendored: bool)
    ensures
        vendored == exists|i: int| 0 <= i < parts@.len() && #[trigger] is_vendor_dir(parts@[i]@),
{
    let mut i: usize = 0;
    while i < parts.len()
        invariant
            i <= parts@.len(),
            forall|j: int| 0 <= j < i ==> !#[trigger] is_vendor_dir(parts@[j]@),
        decreases parts.len() - i,
    {
        if vendor_dir(parts[i].as_str()) {
            return true;
        }
        i = i + 1;
    }
    false
}

/// Whether a repo-relative path lives under a vendored or generated
/// directory: whether any of its components is one.
pub fn is_vendored(path: &str) -> (vendored: bool)
    ensures
        vendored == exists|i: int|
            0 <= i < path_components(path@).len() && #[trigger] is_vendor_dir(
                path_components(path@)[i],
            ),
{
    let parts = components(path);
    let vendored = vendored_components(&parts);
    proof {
        assert(parts.deep_view().len() == parts@.len());
        if vendored {
            let i = choose|i: int| 0 <= i < parts@.len() && #[trigger] is_vendor_dir(parts@[i]@);
            assert(parts.deep_view()[i] == parts@[i]@);
        } else {
            assert forall|i: int| 0 <= i < path_components(path@).len() implies !#[trigger] is_vendor_dir(
                path_components(path@)[i],
            ) by {
                assert(parts.deep_view()[i] == parts@[i]@);
            }
        }
    }
    vendored
}

/// The language a file is recognised as by its name alone.
pub open spec fn language_by_name(name: Seq<char>) -> Option<Seq<char>> {
    if name == "Dockerfile"@ || has_prefix(name, "Dockerfile."@) {
        Some("Dockerfile"@)
    } else if name == "Makefile"@ || name == "GNUmakefile"@ {
        Some("Makefile"@)
    } else {
        None
    }
}

/// The programming or markup language a lower-case extension marks, the way
/// GitHub's language bar counts them; prose and data give none.
pub open spec fn language_by_extension(ext: Seq<char>) -> Option<Seq<char>> {
    if ext == "rs"@ {
        Some("Rust"@)
    } else if ext == "ts"@ || ext == "tsx"@ || ext == "mts"@ || ext == "cts"@ {
        Some("TypeScript"@)
    } else if ext == "js"@ || ext == "jsx"@ || ext == "mjs"@ || ext == "cjs"@ {
        Some("JavaScript"@)
    } else if ext == "mdx"@ {
        Some("MDX"@)
    } else if ext == "tex"@ || ext == "sty"@ || ext == "cls"@ {
        Some("TeX"@)
    } else if ext == "css"@ {
        Some("CSS"@)
    } else if ext == "scss"@ || ext == "sass"@ {
        Some("SCSS"@)
    } else if ext == "less"@ {
        Some("Less"@)
    } else if ext == "html"@ || ext == "htm"@ {
        Some("HTML"@)
    } else if ext == "vue"@ {
        Some("Vue"@)
    } else if ext == "svelte"@ {
        Some("Svelte"@)
    } else if ext == "py"@ {
        Some("Python"@)
    } else if ext == "go"@ {
        Some("Go"@)
    } else if ext == "rb"@ {
        Some("Ruby"@)
    } else if ext == "java"@ {
        Some("Java"@)
    } else if ext == "kt"@ || ext == "kts"@ {
        Some("Kotlin"@)
    } else if ext == "swift"@ {
        Some("Swift"@)
    } else if ext == "c"@ || ext == "h"@ {
        Some("C"@)
    } else if ext == "cc"@ || ext == "cpp"@ || ext == "cxx"@ || ext == "hpp"@ || ext == "hh"@
        || ext == "hxx"@ {
        Some("C++"@)
    } else if ext == "cs"@ {
        Some("C#"@)
    } else if ext == "php"@ {
        Some("PHP"@)
    } else if ext == "sh"@ || ext == "bash"@ || ext == "zsh"@ {
        Some("Shell"@)
    } else if ext == "lua"@ {
        Some("Lua"@)
    } else if ext == "nix"@ {
        Some("Nix"@)
    } else if ext == "dart"@ {
        Some("Dart"@)
    } else if ext == "scala"@ {
        Some("Scala"@)
    } else if ext == "ml"@ || ext == "mli"@ {
        Some("OCaml"@)
    } else if ext == "hs"@ {
        Some("Haskell"@)
    } else if ext == "ex"@ || ext == "exs"@ {
        Some("Elixir"@)
    } else {
        None
    }
}

/// The language of a file with this name and extension: by name first, then
/// by the extension in ASCII lower case.
pub open spec fn classified(name: Option<Seq<char>>, ext: Option<Seq<char>>) -> Option<Seq<char>> {
    match name {
        Some(n) if language_by_name(n) is Some => language_by_name(n),
        _ => match ext {
            Some(e) => language_by_extension(ascii_lowercase(e)),
            None => None,
        },
    }
}

fn language_for_name(name: &str) -> (lang: Option<&'static str>)
    ensures
        text_option(lang) == language_by_name(name@),
{
    if same_text(name, "Dockerfile") || starts_with(name, "Dockerfile.") {
        Some("Dockerfile")
    } else if same_text(name, "Makefile") || same_text(name, "GNUmakefile") {
        Some("Makefile")
    } else {
        None
    }
}

fn language_for_extension(ext: &str) -> (lang: Option<&'static str>)
    ensures
        text_option(lang) == language_by_extension(ext@),
{
    let e = ext;
    if same_text(e, "rs") {
        Some("Rust")
    } else if same_text(e, "ts") || same_text(e, "tsx") || same_text(e, "mts") || same_text(e, "cts") {
        Some("TypeScript")
    } else if same_text(e, "js") || same_text(e, "jsx") || same_text(e, "mjs") || same_text(e, "cjs") {
        Some("JavaScript")
    } else if same_text(e, "mdx") {
        Some("MDX")
    } else if same_text(e, "tex") || same_text(e, "sty") || same_text(e, "cls") {
        Some("TeX")
    } else if same_text(e, "css") {
        Some("CSS")
    } else if same_text(e, "scss") || same_text(e, "sass") {
        Some("SCSS")
    } else if same_text(e, "less") {
        Some("Less")
    } else if same_text(e, "html") || same_text(e, "htm") {
        Some("HTML")
    } else if same_text(e, "vue") {
        Some("Vue")
    } else if same_text(e, "svelte") {
        Some("Svelte")
    } else if same_text(e, "py") {
        Some("Python")
    } else if same_text(e, "go") {
        Some("Go")
    } else if same_text(e, "rb") {
        Some("Ruby")
    } else if same_text(e, "java") {
        Some("Java")
    } else if same_text(e, "kt") || same_text(e, "kts") {
        Some("Kotlin")
    } else if same_text(e, "swift") {
        Some("Swift")
    } else if same_text(e, "c") || same_text(e, "h") {
        Some("C")
    } else if same_text(e, "cc") || same_text(e, "cpp") || same_text(e, "cxx") || same_text(e, "hpp")
        || same_text(e, "hh") || same_text(e, "hxx") {
        Some("C++")
    } else if same_text(e, "cs") {
        Some("C#")
    } else if same_text(e, "php") {
        Some("PHP")
    } else if same_text(e, "sh") || same_text(e, "bash") || same_text(e, "zsh") {
        Some("Shell")
    } else if same_text(e, "lua") {
        Some("Lua")
    } else if same_text(e, "nix") {
        Some("Nix")
    } else if same_text(e, "dart") {
        Some("Dart")
    } else if same_text(e, "scala") {
        Some("Scala")
    } else if same_text(e, "ml") || same_text(e, "mli") {
        Some("OCaml")
    } else if same_text(e, "hs") {
        Some("Haskell")
    } else if same_text(e, "ex") || same_text(e, "exs") {
        Some("Elixir")
    } else {
        None
    }
}

/// The language of a file, given its file name and its extension as
/// `Path` reports them: only programming and markup languages count.
pub fn language_of(name: Option<&str>, ext: Option<&str>) -> (lang: Option<&'static str>)
    ensures
        text_option(lang) == classified(text_option(name), text_option(ext)),
{
    if let Some(n) = name {
        let by_name = language_for_name(n);
        if by_name.is_some() {
            return by_name;
        }
    }
    match ext {
        Some(e) => {
            let lower = to_ascii_lowercase(e);
            language_for_extension(lower.as_str())
        },
        None => None,
    }
}

/// Maps a file to its language name, counting only languages of type
/// programming or markup: some are known by file name, the rest by
/// extension.
pub fn classify(path: &str) -> (lang: Option<&'static str>)
    ensures
        text_option(lang) == classified(path_file_name(path@), path_extension(path@)),
{
    let name = file_name(path);
    let ext = extension(path);
    let n: Option<&str> = match &name {
        Some(n) => Some(n.as_str()),
        None => None,
    };
    let e: Option<&str> = match &ext {
        Some(e) => Some(e.as_str()),
        None => None,
    };
    language_of(n, e)
}

/// GitHub's display colour for a language, as RGB; languages without a known
/// colour are neutral gray.
pub open spec fn language_color(lang: Seq<char>) -> (u8, u8, u8) {
    if lang == "Rust"@ {
        (0xde, 0xa5, 0x84)
    } else if lang == "TypeScript"@ {
        (0x31, 0x78, 0xc6)
    } else if lang == "JavaScript"@ {
        (0xf1, 0xe0, 0x5a)
    } else if lang == "MDX"@ {
        (0xfc, 0xb3, 0x2c)
    } else if lang == "TeX"@ {
        (0x3d, 0x61, 0x17)
    } else if lang == "CSS"@ {
        (0x66, 0x33, 0x99)
    } else if lang == "SCSS"@ {
        (0xc6, 0x53, 0x8c)
    } else if lang == "Less"@ {
        (0x1d, 0x36, 0x5d)
    } else if lang == "HTML"@ {
        (0xe3, 0x4c, 0x26)
    } else if lang == "Vue"@ {
        (0x41, 0xb8, 0x83)
    } else if lang == "Svelte"@ {
        (0xff, 0x3e, 0x00)
    } else if lang == "Python"@ {
        (0x35, 0x72, 0xa5)
    } else if lang == "Go"@ {
        (0x00, 0xad, 0xd8)
    } else if lang == "Ruby"@ {
        (0x70, 0x15, 0x16)
    } else if lang == "Java"@ {
        (0xb0, 0x72, 0x19)
    } else if lang == "Kotlin"@ {
        (0xa9, 0x7b, 0xff)
    } else if lang == "Swift"@ {
        (0xf0, 0x51, 0x38)
    } else if lang == "C"@ {
        (0x55, 0x55, 0x55)
    } else if lang == "C++"@ {
        (0xf3, 0x4b, 0x7d)
    } else if lang == "C#"@ {
        (0x17, 0x86, 0x00)
    } else if lang == "PHP"@ {
        (0x4f, 0x5d, 0x95)
    } else if lang == "Shell"@ {
        (0x89, 0xe0, 0x51)
    } else if lang == "Lua"@ {
        (0x00, 0x00, 0x80)
    } else if lang == "Nix"@ {
        (0x7e, 0x7e, 0xff)
    } else if lang == "Dart"@ {
        (0x00, 0xb4, 0xab)
    } else if lang == "Scala"@ {
        (0xc2, 0x2d, 0x40)
    } else if lang == "OCaml"@ {
        (0xef, 0x7a, 0x08)
    } else if lang == "Haskell"@ {
        (0x5e, 0x50, 0x86)
    } else if lang == "Elixir"@ {
        (0x6e, 0x4a, 0x7e)
    } else if lang == "Dockerfile"@ {
        (0x38, 0x4d, 0x54)
    } else if lang == "Makefile"@ {
        (0x42, 0x78, 0x19)
    } else {
        (0x80, 0x80, 0x80)
    }
}

/// GitHub's display colour for a language, as RGB.
pub fn lang_color(lang: &str) -> (rgb: (u8, u8, u8))
    ensures
        rgb == language_color(lang@),
{
    let l = lang;
    if same_text(l, "Rust") {
        (0xde, 0xa5, 0x84)
    } else if same_text(l, "TypeScript") {
        (0x31, 0x78, 0xc6)
    } else if same_text(l, "JavaScript") {
        (0xf1, 0xe0, 0x5a)
    } else if same_text(l, "MDX") {
        (0xfc, 0xb3, 0x2c)
    } else if same_text(l, "TeX") {
        (0x3d, 0x61, 0x17)
    } else if same_text(l, "CSS") {
        (0x66, 0x33, 0x99)
    } else if same_text(l, "SCSS") {
        (0xc6, 0x53, 0x8c)
    } else if same_text(l, "Less") {
        (0x1d, 0x36, 0x5d)
    } else if same_text(l, "HTML") {
        (0xe3, 0x4c, 0x26)
    } else if same_text(l, "Vue") {
        (0x41, 0xb8, 0x83)
    } else if same_text(l, "Svelte") {
        (0xff, 0x3e, 0x00)
    } else if same_text(l, "Python") {
        (0x35, 0x72, 0xa5)
    } else if same_text(l, "Go") {
        (0x00, 0xad, 0xd8)
    } else if same_text(l, "Ruby") {
        (0x70, 0x15, 0x16)
    } else if same_text(l, "Java") {
        (0xb0, 0x72, 0x19)
    } else if same_text(l, "Kotlin") {
        (0xa9, 0x7b, 0xff)
    } else if same_text(l, "Swift") {
        (0xf0, 0x51, 0x38)
    } else if same_text(l, "C") {
        (0x55, 0x55, 0x55)
    } else if same_text(l, "C++") {
        (0xf3, 0x4b, 0x7d)
    } else if same_text(l, "C#") {
        (0x17, 0x86, 0x00)
    } else if same_text(l, "PHP") {
        (0x4f, 0x5d, 0x95)
    } else if same_text(l, "Shell") {
        (0x89, 0xe0, 0x51)
    } else if same_text(l, "Lua") {
        (0x00, 0x00, 0x80)
    } else if same_text(l, "Nix") {
        (0x7e, 0x7e, 0xff)
    } else if same_text(l, "Dart") {
        (0x00, 0xb4, 0xab)
    } else if same_text(l, "Scala") {
        (0xc2, 0x2d, 0x40)
    } else if same_text(l, "OCaml") {
        (0xef, 0x7a, 0x08)
    } else if same_text(l, "Haskell") {
        (0x5e, 0x50, 0x86)
    } else if same_text(l, "Elixir") {
        (0x6e, 0x4a, 0x7e)
    } else if same_text(l, "Dockerfile") {
        (0x38, 0x4d, 0x54)
    } else if same_text(l, "Makefile") {
        (0x42, 0x78, 0x19)
    } else {
        (0x80, 0x80, 0x80)
    }
}


/// Whether `a` sorts before `b` the way `str`'s `Ord` sorts: by the first
/// character where they differ, by code point, and a proper prefix first.
pub open spec fn text_lt(a: Seq<char>, b: Seq<char>) -> bool
    decreases a.len(),
{
    if b.len() == 0 {
        false
    } else if a.len() == 0 {
        true
    } else if a[0] != b[0] {
        (a[0] as u32) < (b[0] as u32)
    } else {
        text_lt(a.drop_first(), b.drop_first())
    }
}

/// Of two different texts, one sorts before the other.
proof fn lemma_text_lt_total(a: Seq<char>, b: Seq<char>)
    ensures
        text_lt(a, b) || text_lt(b, a) || a == b,
    decreases a.len(),
{
    if a.len() > 0 && b.len() > 0 && a[0] == b[0] {
        lemma_text_lt_total(a.drop_first(), b.drop_first());
        if a.drop_first() == b.drop_first() {
            assert(a =~= seq![a[0]] + a.drop_first());
            assert(b =~= seq![b[0]] + b.drop_first());
        }
    } else if a.len() == 0 && b.len() == 0 {
        assert(a =~= b);
    } else if a.len() > 0 && b.len() > 0 {
        let x = a[0] as u32;
        let y = b[0] as u32;
        vstd::utf8::char_u32_cast(a[0], x);
        vstd::utf8::char_u32_cast(b[0], y);
    }
}

/// The text order is transitive.
proof fn lemma_text_lt_transitive(a: Seq<char>, b: Seq<char>, c: Seq<char>)
    requires
        text_lt(a, b),
        text_lt(b, c),
    ensures
        text_lt(a, c),
    decreases a.len(),
{
    if a.len() > 0 && a[0] == b[0] && b[0] == c[0] {
        lemma_text_lt_transitive(a.drop_first(), b.drop_first(), c.drop_first());
    }
}

/// No text sorts before itself.
proof fn lemma_text_lt_irreflexive(a: Seq<char>)
    ensures
        !text_lt(a, a),
    decreases a.len(),
{
    if a.len() > 0 {
        lemma_text_lt_irreflexive(a.drop_first());
    }
}

/// A language and its byte count, as text and number.
pub open spec fn entry_view(entry: (String, u64)) -> (Seq<char>, u64) {
    (entry.0@, entry.1)
}

/// Every entry as text and number.
pub open spec fn entries_view(entries: Seq<(String, u64)>) -> Seq<(Seq<char>, u64)> {
    entries.map_values(|entry: (String, u64)| entry_view(entry))
}

/// The languages of the entries, in order.
pub open spec fn language_names(entries: Seq<(Seq<char>, u64)>) -> Seq<Seq<char>> {
    entries.map_values(|entry: (Seq<char>, u64)| entry.0)
}

/// Whether entry `a` ranks above entry `b`: more bytes first, then the
/// language name in `str` order.
pub open spec fn ranks_above(a: (Seq<char>, u64), b: (Seq<char>, u64)) -> bool {
    a.1 > b.1 || (a.1 == b.1 && text_lt(a.0, b.0))
}

/// Whether entries are listed by rank: no entry below one that ranks under it.
pub open spec fn ranked(entries: Seq<(Seq<char>, u64)>) -> bool {
    forall|i: int, j: int| 0 <= i < j < entries.len() ==> !ranks_above(#[trigger] entries[j], #[trigger] entries[i])
}

/// The entries that carry bytes.
pub open spec fn counted(entries: Seq<(Seq<char>, u64)>) -> Seq<(Seq<char>, u64)> {
    entries.filter(|entry: (Seq<char>, u64)| entry.1 > 0)
}

/// The ranking does not depend on the order the languages arrive in: two
/// ranked listings of the same entries are the same listing. So `sorted`
/// gives one answer however the map it is fed from was walked.
pub proof fn lemma_ranking_is_unique(a: Seq<(Seq<char>, u64)>, b: Seq<(Seq<char>, u64)>)
    requires
        ranked(a),
        ranked(b),
        a.to_multiset() == b.to_multiset(),
    ensures
        a == b,
    decreases a.len(),
{
    a.to_multiset_ensures();
    b.to_multiset_ensures();
    if a.len() == 0 {
        assert(b.len() == 0);
        assert(a =~= b);
    } else {
        assert(b.len() == a.len());
        let x = a[0];
        let y = b[0];
        assert(a.contains(x));
        assert(b.to_multiset().count(x) > 0);
        assert(b.contains(x));
        assert(b.contains(y));
        assert(b.to_multiset().count(y) > 0);
        assert(a.to_multiset().count(y) > 0);
        assert(a.contains(y));
        let k = choose|k: int| 0 <= k < b.len() && b[k] == x;
        let m = choose|m: int| 0 <= m < a.len() && a[m] == y;
        lemma_rank_order(x, y, x);
        if x != y {
            if ranks_above(x, y) {
                assert(k > 0);
                assert(!ranks_above(b[k], b[0]));
            } else {
                assert(m > 0);
                assert(!ranks_above(a[m], a[0]));
            }
        }
        assert(x == y);
        assert(a.remove(0) =~= a.drop_first());
        assert(b.remove(0) =~= b.drop_first());
        assert(ranked(a.drop_first()));
        assert(ranked(b.drop_first()));
        lemma_ranking_is_unique(a.drop_first(), b.drop_first());
        assert(a =~= seq![x] + a.drop_first());
        assert(b =~= seq![y] + b.drop_first());
    }
}

/// Whether `a` sorts before `b` in `str` order.
fn text_less(a: &str, b: &str) -> (less: bool)
    ensures
        less == text_lt(a@, b@),
{
    let n = a.unicode_len();
    let m = b.unicode_len();
    let mut i: usize = 0;
    assert(a@.skip(0) =~= a@);
    assert(b@.skip(0) =~= b@);
    while i < n && i < m
        invariant
            n == a@.len(),
            m == b@.len(),
            i <= n,
            i <= m,
            text_lt(a@, b@) == text_lt(a@.skip(i as int), b@.skip(i as int)),
        decreases n - i,
    {
        let x = a.get_char(i);
        let y = b.get_char(i);
        assert(a@.skip(i as int)[0] == x);
        assert(b@.skip(i as int)[0] == y);
        if x != y {
            return (x as u32) < (y as u32);
        }
        assert(a@.skip(i as int).drop_first() =~= a@.skip(i + 1));
        assert(b@.skip(i as int).drop_first() =~= b@.skip(i + 1));
        i = i + 1;
    }
    i < m
}

/// Whether `a` ranks above `b`.
fn ranks_first(a: &(String, u64), b: &(String, u64)) -> (first: bool)
    ensures
        first == ranks_above(entry_view(*a), entry_view(*b)),
{
    a.1 > b.1 || (a.1 == b.1 && text_less(a.0.as_str(), b.0.as_str()))
}

/// Nothing ranks above itself, and ranking is a total, transitive order.
proof fn lemma_rank_order(a: (Seq<char>, u64), b: (Seq<char>, u64), c: (Seq<char>, u64))
    ensures
        !ranks_above(a, a),
        ranks_above(a, b) || ranks_above(b, a) || a == b,
        ranks_above(a, b) && ranks_above(b, c) ==> ranks_above(a, c),
{
    lemma_text_lt_irreflexive(a.0);
    lemma_text_lt_total(a.0, b.0);
    if ranks_above(a, b) && ranks_above(b, c) && a.1 == b.1 && b.1 == c.1 {
        lemma_text_lt_transitive(a.0, b.0, c.0);
    }
}

/// The languages that carry bytes, ranked by bytes, most first, then by name
/// for a stable tie-break. The input holds each language once, as the map it
/// was collected in does; the result is that input, reordered, without the
/// languages that carry no bytes.
pub fn sorted(entries: Vec<(String, u64)>) -> (out: Vec<(String, u64)>)
    requires
        language_names(entries_view(entries@)).no_duplicates(),
    ensures
        entries_view(out@).to_multiset() == counted(entries_view(entries@)).to_multiset(),
        ranked(entries_view(out@)),
{
    let ghost all = entries_view(entries@);
    let mut rest = entries;
    let mut out: Vec<(String, u64)> = Vec::new();
    proof {
        assert(entries_view(rest@) =~= all);
        assert(entries_view(out@) =~= Seq::empty());
        entries_view(out@).to_multiset_ensures();
        vstd::multiset::lemma_multiset_empty_len(entries_view(out@).to_multiset());
        assert(entries_view(out@).to_multiset().add(counted(all).to_multiset()) =~= counted(all).to_multiset());
    }
    while rest.len() > 0
        invariant
            entries_view(out@).to_multiset().add(counted(entries_view(rest@)).to_multiset())
                == counted(all).to_multiset(),
            ranked(entries_view(out@)),
        decreases rest.len(),
    {
        let ghost before_rest = entries_view(rest@);
        let item = rest.pop().unwrap();
        let ghost x = entry_view(item);
        proof {
            assert(before_rest =~= entries_view(rest@).push(x));
            assert(counted(before_rest) =~= if x.1 > 0 {
                counted(entries_view(rest@)).push(x)
            } else {
                counted(entries_view(rest@))
            }) by {
                entries_view(rest@).lemma_filter_push(x, |entry: (Seq<char>, u64)| entry.1 > 0);
            }
        }
        if item.1 > 0 {
            let ghost view_before = entries_view(out@);
            let mut p: usize = 0;
            while p < out.len() && !ranks_first(&item, &out[p])
                invariant
                    p <= out@.len(),
                    view_before == entries_view(out@),
                    x == entry_view(item),
                    forall|k: int| 0 <= k < p ==> !ranks_above(x, #[trigger] view_before[k]),
                decreases out.len() - p,
            {
                p = p + 1;
            }
            out.insert(p, item);
            proof {
                let after = entries_view(out@);
                assert(after =~= view_before.insert(p as int, x));
                view_before.insert_ensures(p as int, x);
                assert forall|i: int, j: int| 0 <= i < j < after.len() implies !ranks_above(
                    #[trigger] after[j],
                    #[trigger] after[i],
                ) by {
                    if i < p && j == p {
                        lemma_rank_order(x, view_before[i], x);
                    } else if i == p && j > p {
                        let y = view_before[j - 1];
                        if p < view_before.len() {
                            let z = view_before[p as int];
                            lemma_rank_order(x, z, y);
                            lemma_rank_order(y, z, x);
                            lemma_rank_order(z, y, x);
                            lemma_rank_order(y, x, z);
                            if (p as int) < j - 1 {
                                assert(!ranks_above(y, z));
                            }
                        }
                    }
                }
                vstd::seq_lib::to_multiset_insert(view_before, p as int, x);
            }
        }
        proof {
            if x.1 > 0 {
                vstd::seq_lib::to_multiset_build(counted(entries_view(rest@)), x);
            }
        }
    }
    proof {
        assert(entries_view(rest@) =~= Seq::empty());
        assert(counted(entries_view(rest@)) =~= Seq::empty());
        counted(entries_view(rest@)).to_multiset_ensures();
        vstd::multiset::lemma_multiset_empty_len(counted(entries_view(rest@)).to_multiset());
        assert(entries_view(out@).to_multiset().add(counted(entries_view(rest@)).to_multiset())
            =~= entries_view(out@).to_multiset());
    }
    out
}


/// The binary unit a byte count is shown in: 0 for bytes, then KiB, MiB,
/// GiB, and TiB for anything larger.
pub open spec fn byte_unit(n: nat) -> nat {
    if n < 1024 {
        0
    } else if n < 1048576 {
        1
    } else if n < 1073741824 {
        2
    } else if n < 1099511627776 {
        3
    } else {
        4
    }
}

/// The size of unit `k` in bytes: `1024` to the power `k`.
pub open spec fn unit_size(k: nat) -> nat {
    if k == 0 {
        1
    } else if k == 1 {
        1024
    } else if k == 2 {
        1048576
    } else if k == 3 {
        1073741824
    } else {
        1099511627776
    }
}

/// The name of unit `k`.
pub open spec fn unit_name(k: nat) -> Seq<char> {
    if k == 0 {
        "B"@
    } else if k == 1 {
        "KiB"@
    } else if k == 2 {
        "MiB"@
    } else if k == 3 {
        "GiB"@
    } else {
        "TiB"@
    }
}

/// `n / size` in tenths, rounded to the nearest tenth with ties to even, as
/// `{:.1}` rounds.
pub open spec fn rounded_tenths(n: nat, size: nat) -> nat {
    let q = (n * 10) / size;
    let r = (n * 10) % size;
    if 2 * r > size || (2 * r == size && q % 2 == 1) {
        q + 1
    } else {
        q
    }
}

/// A byte count as the dashboard shows it: `<n> B` below a KiB, else the
/// count in the largest unit up to TiB that it reaches, to one decimal.
pub open spec fn human_bytes_text(n: nat) -> Seq<char> {
    let k = byte_unit(n);
    if k == 0 {
        decimal(n) + " B"@
    } else {
        let tenths = rounded_tenths(n, unit_size(k));
        decimal(tenths / 10) + "."@ + decimal(tenths % 10) + " "@ + unit_name(k)
    }
}

/// Formats a byte count as a compact, human-readable string.
pub fn human_bytes(n: u64) -> (text: String)
    ensures
        text@ == human_bytes_text(n as nat),
{
    if n < 1024 {
        let mut text = decimal_text(n);
        text.append(" B");
        return text;
    }
    let (size, unit): (u128, &str) = if n < 1048576 {
        (1024, "KiB")
    } else if n < 1073741824 {
        (1048576, "MiB")
    } else if n < 1099511627776 {
        (1073741824, "GiB")
    } else {
        (1099511627776, "TiB")
    };
    let ghost k = byte_unit(n as nat);
    assert(size == unit_size(k) && unit@ == unit_name(k));
    let scaled: u128 = n as u128 * 10;
    let q: u128 = scaled / size;
    let r: u128 = scaled % size;
    assert(q <= scaled);
    let tenths: u128 = if 2 * r > size || (2 * r == size && q % 2 == 1) {
        q + 1
    } else {
        q
    };
    assert(tenths == rounded_tenths(n as nat, size as nat));
    assert(tenths / 10 <= u64::MAX) by (nonlinear_arith)
        requires
            tenths <= q + 1,
            q == scaled / size,
            size >= 1024,
            scaled <= 0xffff_ffff_ffff_ffff * 10,
    ;
    let whole: u64 = (tenths / 10) as u64;
    let frac: u64 = (tenths % 10) as u64;
    let mut text = decimal_text(whole);
    text.append(".");
    text.append(decimal_text(frac).as_str());
    text.append(" ");
    text.append(unit);
    text
}


/// `line` without one trailing carriage return.
pub open spec fn without_cr(line: Seq<char>) -> Seq<char> {
    if line.len() > 0 && line.last() == '\r' {
        line.drop_last()
    } else {
        line
    }
}

/// The lines of `text` as `str::lines` yields them: the pieces between line
/// feeds, a piece ended by a line feed losing one carriage return before
/// it, and the last piece only when it is not empty.
pub open spec fn std_lines(text: Seq<char>) -> Seq<Seq<char>> {
    let pieces = split_lines(text);
    let ended = pieces.drop_last().map_values(|piece: Seq<char>| without_cr(piece));
    if pieces.last().len() == 0 {
        ended
    } else {
        ended.push(pieces.last())
    }
}

/// The lines of a command's output that are not blank.
pub open spec fn content_lines(text: Seq<char>) -> Seq<Seq<char>> {
    std_lines(text).filter(|line: Seq<char>| !is_blank(line))
}

/// `line` without one trailing carriage return.
fn strip_cr(line: &str) -> (out: String)
    ensures
        out@ == without_cr(line@),
{
    let n = line.unicode_len();
    if n > 0 && line.get_char(n - 1) == '\r' {
        String::from_str(line.substring_char(0, n - 1))
    } else {
        String::from_str(line)
    }
}

/// The lines of `text`, as `str::lines` yields them.
pub fn text_lines(text: &str) -> (lines: Vec<String>)
    ensures
        views_of(lines@) == std_lines(text@),
{
    let pieces = Editor::from_text(text).lines;
    let ghost all = split_lines(text@);
    let ghost strip = |piece: Seq<char>| without_cr(piece);
    assert(views_of(pieces@) == all);
    proof {
        crate::editor::lemma_split_lines_nonempty(text@);
    }
    let last = pieces.len() - 1;
    let mut lines: Vec<String> = Vec::new();
    let mut i: usize = 0;
    assert(all.take(0).map_values(strip) =~= Seq::empty());
    while i < last
        invariant
            views_of(pieces@) == all,
            strip == (|piece: Seq<char>| without_cr(piece)),
            last == all.len() - 1,
            i <= last,
            views_of(lines@) == all.take(i as int).map_values(strip),
        decreases last - i,
    {
        let piece = strip_cr(pieces[i].as_str());
        proof {
            assert(all[i as int] == pieces@[i as int]@);
            assert(strip(all[i as int]) == piece@);
            assert(all.take(i + 1) =~= all.take(i as int).push(all[i as int]));
            assert(all.take(i + 1).map_values(strip) =~= all.take(i as int).map_values(strip).push(piece@));
        }
        lines.push(piece);
        assert(views_of(lines@) =~= all.take(i + 1).map_values(strip));
        i = i + 1;
    }
    assert(all.take(last as int) =~= all.drop_last());
    let final_piece = pieces[last].as_str();
    assert(final_piece@ == all.last());
    if final_piece.unicode_len() > 0 {
        lines.push(String::from_str(final_piece));
        assert(views_of(lines@) =~= all.drop_last().map_values(strip).push(all.last()));
    }
    lines
}

/// The lines of a command's output that are not blank, in order.
pub fn nonblank_lines(text: &str) -> (lines: Vec<String>)
    ensures
        views_of(lines@) == content_lines(text@),
{
    let all = text_lines(text);
    let ghost keep = |line: Seq<char>| !is_blank(line);
    let mut lines: Vec<String> = Vec::new();
    let mut i: usize = 0;
    assert(views_of(all@).take(0).filter(keep) =~= Seq::empty());
    while i < all.len()
        invariant
            views_of(all@) == std_lines(text@),
            keep == (|line: Seq<char>| !is_blank(line)),
            i <= all.len(),
            views_of(lines@) == views_of(all@).take(i as int).filter(keep),
        decreases all.len() - i,
    {
        let line = all[i].as_str();
        proof {
            let before = views_of(all@).take(i as int);
            assert(views_of(all@).take(i + 1) =~= before.push(line@));
            before.lemma_filter_push(line@, keep);
        }
        if !blank(line) {
            lines.push(String::from_str(line));
        }
        assert(views_of(lines@) =~= views_of(all@).take(i + 1).filter(keep));
        i = i + 1;
    }
    assert(views_of(all@).take(all.len() as int) =~= views_of(all@));
    lines
}

/// How many lines of a command's output are not blank.
pub fn nonblank_line_count(text: &str) -> (count: usize)
    ensures
        count == content_lines(text@).len(),
{
    nonblank_lines(text).len()
}


/// The number of characters `text` starts with before its first white space.
pub open spec fn word_len(text: Seq<char>) -> nat
    decreases text.len(),
{
    if text.len() == 0 || is_white(text[0]) {
        0
    } else {
        1 + word_len(text.drop_first())
    }
}

/// The first white-space-separated word of `text`: empty when there is none.
pub open spec fn first_word(text: Seq<char>) -> Seq<char> {
    let rest = text.skip(leading_white(text) as int);
    rest.take(word_len(rest) as int)
}

/// Whether `c` is an ASCII decimal digit.
pub open spec fn is_digit(c: char) -> bool {
    '0' <= c && c <= '9'
}

/// The number the decimal digits `digits` write.
pub open spec fn digits_value(digits: Seq<char>) -> nat
    decreases digits.len(),
{
    if digits.len() == 0 {
        0
    } else {
        digits_value(digits.drop_last()) * 10 + ((digits.last() as int) - 48) as nat
    }
}

/// Whether `digits` is one or more ASCII digits.
pub open spec fn all_digits(digits: Seq<char>) -> bool {
    digits.len() > 0 && forall|i: int| 0 <= i < digits.len() ==> is_digit(#[trigger] digits[i])
}

/// The `u32` a run of ASCII digits writes, if it is one and the value fits.
pub open spec fn digits_u32(digits: Seq<char>) -> Option<u32> {
    if all_digits(digits) && digits_value(digits) <= u32::MAX {
        Some(digits_value(digits) as u32)
    } else {
        None
    }
}

/// What `u32::from_str` gives for `word`: an optional `+`, then one or more
/// ASCII digits whose value fits a `u32`.
pub open spec fn parsed_u32(word: Seq<char>) -> Option<u32> {
    if word.len() > 0 && word[0] == '+' {
        digits_u32(word.drop_first())
    } else {
        digits_u32(word)
    }
}

/// The count `rev-list --left-right --count` prints first: the first word of
/// its output as a `u32`, or 0 when there is none or it is no number.
pub open spec fn behind_of(text: Seq<char>) -> u32 {
    match parsed_u32(first_word(text)) {
        Some(n) => n,
        None => 0,
    }
}

/// A longer run of digits is worth at least as much as its prefix.
proof fn lemma_digits_value_grows(digits: Seq<char>, k: int)
    requires
        0 <= k <= digits.len(),
    ensures
        digits_value(digits.take(k)) <= digits_value(digits),
    decreases digits.len(),
{
    if k < digits.len() {
        assert(digits.drop_last().take(k) =~= digits.take(k));
        lemma_digits_value_grows(digits.drop_last(), k);
    } else {
        assert(digits.take(k) =~= digits);
    }
}

/// The value of the decimal digits `text` holds from `from` to `to`, if
/// they are one or more digits and it fits a `u32`.
fn parse_digits(text: &str, from: usize, to: usize) -> (value: Option<u32>)
    requires
        from <= to <= text@.len(),
    ensures
        value == digits_u32(text@.subrange(from as int, to as int)),
{
    let ghost digits = text@.subrange(from as int, to as int);
    if from == to {
        return None;
    }
    let mut value: u64 = 0;
    let mut k: usize = from;
    assert(digits.take(0) =~= Seq::<char>::empty());
    while k < to
        invariant
            from <= k <= to <= text@.len(),
            digits == text@.subrange(from as int, to as int),
            value == digits_value(digits.take(k - from)),
            value <= u32::MAX,
            forall|i: int| 0 <= i < k - from ==> is_digit(#[trigger] digits[i]),
        decreases to - k,
    {
        let c = text.get_char(k);
        assert(digits[k - from] == c);
        if c < '0' || c > '9' {
            return None;
        }
        let d: u64 = (c as u32 - 48) as u64;
        assert(digits.take(k - from + 1).drop_last() =~= digits.take(k - from));
        assert(digits.take(k - from + 1).last() == c);
        let next: u64 = value * 10 + d;
        if next > 0xffff_ffff {
            proof {
                lemma_digits_value_grows(digits, k - from + 1);
            }
            return None;
        }
        value = next;
        k = k + 1;
    }
    assert(digits.take(to - from) =~= digits);
    Some(value as u32)
}

/// How far `rev-list --left-right --count` puts the upstream ahead: the
/// first word of its output as a number, or 0.
pub fn behind_count(text: &str) -> (behind: u32)
    ensures
        behind == behind_of(text@),
{
    let n = text.unicode_len();
    let mut i: usize = 0;
    assert(text@.skip(0) =~= text@);
    while i < n && is_white_char(text.get_char(i))
        invariant
            n == text@.len(),
            i <= n,
            leading_white(text@) == i + leading_white(text@.skip(i as int)),
        decreases n - i,
    {
        assert(text@.skip(i as int).drop_first() =~= text@.skip(i + 1));
        i = i + 1;
    }
    assert(leading_white(text@.skip(i as int)) == 0);
    let ghost rest = text@.skip(i as int);
    let mut j: usize = i;
    assert(rest.skip(0) =~= rest);
    while j < n && !is_white_char(text.get_char(j))
        invariant
            n == text@.len(),
            i <= j <= n,
            rest == text@.skip(i as int),
            word_len(rest) == (j - i) + word_len(text@.skip(j as int)),
        decreases n - j,
    {
        assert(text@.skip(j as int).drop_first() =~= text@.skip(j + 1));
        j = j + 1;
    }
    assert(word_len(text@.skip(j as int)) == 0);
    assert(first_word(text@) =~= text@.subrange(i as int, j as int));
    let ghost word = text@.subrange(i as int, j as int);
    let start: usize = if i < j && text.get_char(i) == '+' {
        i + 1
    } else {
        i
    };
    proof {
        assert(i < j ==> word[0] == text@[i as int]);
        if i < j && word[0] == '+' {
            assert(word.drop_first() =~= text@.subrange(start as int, j as int));
        } else {
            assert(word =~= text@.subrange(start as int, j as int));
        }
    }
    let parsed = parse_digits(text, start, j);
    assert(parsed == parsed_u32(word));
    match parsed {
        Some(value) => value,
        None => 0,
    }
}

/// The state of one repository: its name and branch, the changed paths and
/// the commits only it has, how far its upstream is ahead, whether it has an
/// upstream at all, whether jj manages it, its tip commit, and the bytes of
/// each language it tracks.
pub struct RepoStatus {
    pub name: String,
    pub branch: String,
    pub dirty: usize,
    pub behind: u32,
    pub has_upstream: bool,
    pub is_jj: bool,
    pub commits: Vec<String>,
    pub tree: String,
    pub tip: String,
    pub languages: Vec<(String, u64)>,
}

impl RepoStatus {
    /// Work that exists only locally: uncommitted, unpushed, or on a branch
    /// with no upstream.
    pub fn is_unreleased(&self) -> (unreleased: bool)
        ensures
            unreleased == (self.dirty > 0 || self.commits@.len() > 0 || !self.has_upstream),
    {
        self.dirty > 0 || self.commits.len() > 0 || !self.has_upstream
    }
}

/// The total of the byte counts in `entries`.
pub open spec fn total_bytes(entries: Seq<(String, u64)>) -> nat
    decreases entries.len(),
{
    if entries.len() == 0 {
        0
    } else {
        total_bytes(entries.drop_last()) + (entries.last().1 as nat)
    }
}

/// Total counted bytes across a repository's languages.
pub fn repo_bytes(status: &RepoStatus) -> (total: u64)
    requires
        total_bytes(status.languages@) <= u64::MAX,
    ensures
        total == total_bytes(status.languages@),
{
    let languages = &status.languages;
    let mut total: u64 = 0;
    let mut i: usize = 0;
    assert(languages@.take(0) =~= Seq::<(String, u64)>::empty());
    while i < languages.len()
        invariant
            i <= languages@.len(),
            total == total_bytes(languages@.take(i as int)),
            total_bytes(languages@) <= u64::MAX,
        decreases languages.len() - i,
    {
        assert(languages@.take(i + 1).drop_last() =~= languages@.take(i as int));
        proof {
            lemma_total_bytes_prefix(languages@, i + 1);
        }
        total = total + languages[i].1;
        i = i + 1;
    }
    assert(languages@.take(languages@.len() as int) =~= languages@);
    total
}

/// A prefix never holds more bytes than the whole.
proof fn lemma_total_bytes_prefix(entries: Seq<(String, u64)>, k: int)
    requires
        0 <= k <= entries.len(),
    ensures
        total_bytes(entries.take(k)) <= total_bytes(entries),
    decreases entries.len(),
{
    if k < entries.len() {
        assert(entries.drop_last().take(k) =~= entries.take(k));
        lemma_total_bytes_prefix(entries.drop_last(), k);
    } else {
        assert(entries.take(k) =~= entries);
    }
}

/// Whether `path` lives under a vendored or generated directory, as
/// [`is_vendored`] decides.
pub open spec fn in_vendored_tree(path: Seq<char>) -> bool {
    exists|i: int| 0 <= i < path_components(path).len() && #[trigger] is_vendor_dir(path_components(path)[i])
}

/// `totals` with `bytes` more counted for `lang`: added to its entry, or a
/// new entry at the end when it has none.
pub open spec fn with_bytes(totals: Seq<(Seq<char>, u64)>, lang: Seq<char>, bytes: u64) -> Seq<(Seq<char>, u64)> {
    if language_names(totals).contains(lang) {
        let k = choose|k: int| 0 <= k < totals.len() && totals[k].0 == lang;
        totals.update(k, (lang, (totals[k].1 + bytes) as u64))
    } else {
        totals.push((lang, bytes))
    }
}

/// The bytes of all of `files`, each a path and its size.
pub open spec fn size_total(files: Seq<(Seq<char>, u64)>) -> int
    decreases files.len(),
{
    if files.len() == 0 {
        0
    } else {
        size_total(files.drop_last()) + files.last().1
    }
}

/// Byte totals per language of `files` (each a path and its size), in the
/// order languages first appear: files under vendored trees and files of no
/// counted language left out.
pub open spec fn tallied(files: Seq<(Seq<char>, u64)>) -> Seq<(Seq<char>, u64)>
    decreases files.len(),
{
    if files.len() == 0 {
        Seq::empty()
    } else {
        let before = tallied(files.drop_last());
        let path = files.last().0;
        if in_vendored_tree(path) {
            before
        } else {
            match classified(path_file_name(path), path_extension(path)) {
                Some(lang) => with_bytes(before, lang, files.last().1),
                None => before,
            }
        }
    }
}

/// Counts `bytes` more for `lang` in `totals`.
pub fn add_bytes(totals: &mut Vec<(String, u64)>, lang: &str, bytes: u64)
    requires
        language_names(entries_view(old(totals)@)).no_duplicates(),
        forall|k: int|
            0 <= k < old(totals)@.len() && #[trigger] old(totals)@[k].0@ == lang@ ==> old(totals)@[k].1 + bytes
                <= u64::MAX,
    ensures
        entries_view(final(totals)@) == with_bytes(entries_view(old(totals)@), lang@, bytes),
        language_names(entries_view(final(totals)@)).no_duplicates(),
{
    let ghost before = entries_view(totals@);
    let mut k: usize = 0;
    while k < totals.len()
        invariant
            totals@ == old(totals)@,
            before == entries_view(totals@),
            k <= totals@.len(),
            forall|j: int| 0 <= j < k ==> #[trigger] totals@[j].0@ != lang@,
            language_names(before).no_duplicates(),
            forall|j: int|
                0 <= j < totals@.len() && #[trigger] totals@[j].0@ == lang@ ==> totals@[j].1 + bytes <= u64::MAX,
        decreases totals.len() - k,
    {
        if crate::text::same_text(totals[k].0.as_str(), lang) {
            let total = totals[k].1 + bytes;
            proof {
                assert(before[k as int].0 == lang@);
                assert(language_names(before)[k as int] == lang@);
                let c = choose|c: int| 0 <= c < before.len() && before[c].0 == lang@;
                assert(language_names(before)[c] == lang@);
                assert(c == k);
            }
            totals.set(k, (String::from_str(lang), total));
            proof {
                assert(entries_view(totals@) =~= with_bytes(before, lang@, bytes));
                assert(language_names(entries_view(totals@)) =~= language_names(before));
            }
            return;
        }
        k = k + 1;
    }
    proof {
        assert(!language_names(before).contains(lang@)) by {
            if language_names(before).contains(lang@) {
                let c = choose|c: int| 0 <= c < language_names(before).len() && language_names(before)[c] == lang@;
                assert(totals@[c].0@ == lang@);
            }
        }
    }
    totals.push((String::from_str(lang), bytes));
    proof {
        assert(entries_view(totals@) =~= with_bytes(before, lang@, bytes));
        assert(language_names(entries_view(totals@)) =~= language_names(before).push(lang@));
    }
}

/// A run of files takes at least as many bytes as any of its prefixes.
proof fn lemma_size_total_grows(files: Seq<(Seq<char>, u64)>, i: int)
    requires
        0 <= i <= files.len(),
    ensures
        size_total(files.take(i)) <= size_total(files),
    decreases files.len() - i,
{
    if i < files.len() {
        lemma_size_total_grows(files, i + 1);
        assert(files.take(i + 1).drop_last() =~= files.take(i));
    }
    assert(files.take(files.len() as int) =~= files);
}

/// Byte totals per language of `files` (each a repo-relative path and its
/// size), ranked: vendored trees and uncounted files left out, then every
/// language with bytes, most bytes first and ties by name.
pub fn tally_languages(files: &Vec<(String, u64)>) -> (ranking: Vec<(String, u64)>)
    requires
        size_total(entries_view(files@)) <= u64::MAX,
    ensures
        entries_view(ranking@).to_multiset() == counted(tallied(entries_view(files@))).to_multiset(),
        ranked(entries_view(ranking@)),
{
    let ghost all = entries_view(files@);
    let mut totals: Vec<(String, u64)> = Vec::new();
    let mut i: usize = 0;
    assert(all.take(0) =~= Seq::<(Seq<char>, u64)>::empty());
    assert(entries_view(totals@) =~= Seq::<(Seq<char>, u64)>::empty());
    while i < files.len()
        invariant
            all == entries_view(files@),
            i <= files@.len(),
            size_total(all) <= u64::MAX,
            entries_view(totals@) == tallied(all.take(i as int)),
            language_names(entries_view(totals@)).no_duplicates(),
            forall|k: int| 0 <= k < totals@.len() ==> #[trigger] totals@[k].1 <= size_total(all.take(i as int)),
        decreases files.len() - i,
    {
        let path = files[i].0.as_str();
        let size = files[i].1;
        proof {
            assert(all.take(i + 1).drop_last() =~= all.take(i as int));
            assert(all.take(i + 1).last() == (path@, size));
            assert(size_total(all.take(i + 1)) == size_total(all.take(i as int)) + size);
            lemma_size_total_grows(all, i + 1);
        }
        if !is_vendored(path) {
            match classify(path) {
                Some(lang) => {
                    let ghost before = totals@;
                    add_bytes(&mut totals, lang, size);
                    proof {
                        let prefix = all.take(i as int);
                        lemma_size_total_grows(prefix, 0);
                        assert(prefix.take(0) =~= Seq::<(Seq<char>, u64)>::empty());
                        assert(size_total(prefix) >= 0);
                        let old_view = entries_view(before);
                        assert forall|k: int| 0 <= k < totals@.len() implies #[trigger] totals@[k].1 <= size_total(
                            all.take(i + 1),
                        ) by {
                            assert(entries_view(totals@)[k] == with_bytes(old_view, lang@, size)[k]);
                            assert(entries_view(totals@)[k].1 == totals@[k].1);
                            if language_names(old_view).contains(lang@) {
                                let c = choose|c: int| 0 <= c < old_view.len() && old_view[c].0 == lang@;
                                assert(old_view[c].1 == before[c].1);
                                assert(before[c].1 <= size_total(prefix));
                                if k != c {
                                    assert(old_view[k] == entries_view(totals@)[k]);
                                    assert(before[k].1 <= size_total(prefix));
                                }
                            } else if k < before.len() {
                                assert(old_view[k] == entries_view(totals@)[k]);
                                assert(before[k].1 <= size_total(prefix));
                            }
                        }
                    }
                },
                None => {},
            }
        }
        i = i + 1;
    }
    assert(all.take(i as int) =~= all);
    sorted(totals)
}

/// `totals` with every entry of `more` counted in, in order.
pub open spec fn merged(totals: Seq<(Seq<char>, u64)>, more: Seq<(Seq<char>, u64)>) -> Seq<(Seq<char>, u64)>
    decreases more.len(),
{
    if more.len() == 0 {
        totals
    } else {
        with_bytes(merged(totals, more.drop_last()), more.last().0, more.last().1)
    }
}

/// No entry holds more bytes than all entries together.
proof fn lemma_entry_within_total(entries: Seq<(Seq<char>, u64)>, k: int)
    requires
        0 <= k < entries.len(),
    ensures
        entries[k].1 <= size_total(entries),
    decreases entries.len(),
{
    if k < entries.len() - 1 {
        lemma_entry_within_total(entries.drop_last(), k);
    } else {
        lemma_size_total_nonnegative(entries.drop_last());
    }
}

/// A byte total is never negative.
proof fn lemma_size_total_nonnegative(entries: Seq<(Seq<char>, u64)>)
    ensures
        size_total(entries) >= 0,
    decreases entries.len(),
{
    if entries.len() > 0 {
        lemma_size_total_nonnegative(entries.drop_last());
    }
}

/// Changing one entry's bytes changes the total by the difference.
proof fn lemma_size_total_update(entries: Seq<(Seq<char>, u64)>, k: int, entry: (Seq<char>, u64))
    requires
        0 <= k < entries.len(),
    ensures
        size_total(entries.update(k, entry)) == size_total(entries) - entries[k].1 + entry.1,
    decreases entries.len(),
{
    if k < entries.len() - 1 {
        lemma_size_total_update(entries.drop_last(), k, entry);
        assert(entries.update(k, entry).drop_last() =~= entries.drop_last().update(k, entry));
    } else {
        assert(entries.update(k, entry).drop_last() =~= entries.drop_last());
    }
}

/// Counts the language totals of `more` into `totals`, as one repository's
/// languages join the totals over all of them.
pub fn merge_languages(totals: &mut Vec<(String, u64)>, more: &Vec<(String, u64)>)
    requires
        language_names(entries_view(old(totals)@)).no_duplicates(),
        size_total(entries_view(old(totals)@)) + size_total(entries_view(more@)) <= u64::MAX,
    ensures
        entries_view(final(totals)@) == merged(entries_view(old(totals)@), entries_view(more@)),
        language_names(entries_view(final(totals)@)).no_duplicates(),
        size_total(entries_view(final(totals)@)) == size_total(entries_view(old(totals)@)) + size_total(
            entries_view(more@),
        ),
{
    let ghost start = entries_view(totals@);
    let ghost all = entries_view(more@);
    let mut i: usize = 0;
    assert(all.take(0) =~= Seq::<(Seq<char>, u64)>::empty());
    while i < more.len()
        invariant
            all == entries_view(more@),
            i <= more@.len(),
            entries_view(totals@) == merged(start, all.take(i as int)),
            language_names(entries_view(totals@)).no_duplicates(),
            size_total(entries_view(totals@)) == size_total(start) + size_total(all.take(i as int)),
            size_total(start) + size_total(all) <= u64::MAX,
        decreases more.len() - i,
    {
        let lang = more[i].0.as_str();
        let bytes = more[i].1;
        let ghost before = entries_view(totals@);
        proof {
            assert(all.take(i + 1).drop_last() =~= all.take(i as int));
            assert(all.take(i + 1).last() == (lang@, bytes));
            lemma_size_total_grows(all, i + 1);
            lemma_size_total_nonnegative(all.take(i as int));
            assert forall|k: int| 0 <= k < totals@.len() && #[trigger] totals@[k].0@ == lang@ implies totals@[k].1
                + bytes <= u64::MAX by {
                assert(before[k].1 == totals@[k].1);
                lemma_entry_within_total(before, k);
            }
        }
        add_bytes(totals, lang, bytes);
        proof {
            assert(size_total(all.take(i + 1)) == size_total(all.take(i as int)) + bytes);
            if language_names(before).contains(lang@) {
                let c = choose|c: int| 0 <= c < before.len() && before[c].0 == lang@;
                lemma_entry_within_total(before, c);
                assert(before[c].1 + bytes <= u64::MAX);
                lemma_size_total_update(before, c, (lang@, (before[c].1 + bytes) as u64));
            } else {
                assert(before.push((lang@, bytes)).drop_last() =~= before);
            }
        }
        i = i + 1;
    }
    assert(all.take(i as int) =~= all);
}

} // verus!
