//! Laws of the project dashboard: how files are classified by language and
//! how byte counts are written, stated over all inputs.

use crate::projects::{
    all_digits, behind_of, classified, digits_value, first_word, human_bytes_text, is_digit,
    language_by_extension, language_by_name, rounded_tenths, word_len,
};
use crate::text::{ascii_lowercase, decimal, digit_char, has_prefix, is_white, leading_white};
use vstd::arithmetic::div_mod::lemma_fundamental_div_mod;
use vstd::prelude::*;
use vstd::string::*;

verus! {

/// Which language a file counts toward, by its extension in any ASCII case,
/// for every file whose name is not a Dockerfile's or Makefile's: Rust for
/// `.rs`, TypeScript for `.ts`/`.tsx`/`.mts`/`.cts`, JavaScript for
/// `.js`/`.jsx`/`.mjs`/`.cjs`, and so on down the language bar's table;
/// prose and data files (Markdown, JSON, YAML, TOML, SQL, text, lock files)
/// count toward none.
#[verifier::spinoff_prover]
pub proof fn lemma_languages_by_extension(name: Seq<char>, ext: Seq<char>)
    requires
        name != "Dockerfile"@,
        !has_prefix(name, "Dockerfile."@),
        name != "Makefile"@,
        name != "GNUmakefile"@,
    ensures
        ascii_lowercase(ext) == "rs"@ ==> classified(Some(name), Some(ext)) == Some("Rust"@),
        (ascii_lowercase(ext) == "ts"@ || ascii_lowercase(ext) == "tsx"@ || ascii_lowercase(ext) == "mts"@ || ascii_lowercase(ext) == "cts"@) ==> classified(Some(name), Some(ext)) == Some("TypeScript"@),
        (ascii_lowercase(ext) == "js"@ || ascii_lowercase(ext) == "jsx"@ || ascii_lowercase(ext) == "mjs"@ || ascii_lowercase(ext) == "cjs"@) ==> classified(Some(name), Some(ext)) == Some("JavaScript"@),
        ascii_lowercase(ext) == "mdx"@ ==> classified(Some(name), Some(ext)) == Some("MDX"@),
        (ascii_lowercase(ext) == "tex"@ || ascii_lowercase(ext) == "sty"@ || ascii_lowercase(ext) == "cls"@) ==> classified(Some(name), Some(ext)) == Some("TeX"@),
        ascii_lowercase(ext) == "css"@ ==> classified(Some(name), Some(ext)) == Some("CSS"@),
        (ascii_lowercase(ext) == "scss"@ || ascii_lowercase(ext) == "sass"@) ==> classified(Some(name), Some(ext)) == Some("SCSS"@),
        ascii_lowercase(ext) == "less"@ ==> classified(Some(name), Some(ext)) == Some("Less"@),
        (ascii_lowercase(ext) == "html"@ || ascii_lowercase(ext) == "htm"@) ==> classified(Some(name), Some(ext)) == Some("HTML"@),
        ascii_lowercase(ext) == "vue"@ ==> classified(Some(name), Some(ext)) == Some("Vue"@),
        ascii_lowercase(ext) == "svelte"@ ==> classified(Some(name), Some(ext)) == Some("Svelte"@),
        ascii_lowercase(ext) == "py"@ ==> classified(Some(name), Some(ext)) == Some("Python"@),
        ascii_lowercase(ext) == "go"@ ==> classified(Some(name), Some(ext)) == Some("Go"@),
        ascii_lowercase(ext) == "rb"@ ==> classified(Some(name), Some(ext)) == Some("Ruby"@),
        ascii_lowercase(ext) == "java"@ ==> classified(Some(name), Some(ext)) == Some("Java"@),
        (ascii_lowercase(ext) == "kt"@ || ascii_lowercase(ext) == "kts"@) ==> classified(Some(name), Some(ext)) == Some("Kotlin"@),
        ascii_lowercase(ext) == "swift"@ ==> classified(Some(name), Some(ext)) == Some("Swift"@),
        (ascii_lowercase(ext) == "c"@ || ascii_lowercase(ext) == "h"@) ==> classified(Some(name), Some(ext)) == Some("C"@),
        (ascii_lowercase(ext) == "cc"@ || ascii_lowercase(ext) == "cpp"@ || ascii_lowercase(ext) == "cxx"@ || ascii_lowercase(ext) == "hpp"@ || ascii_lowercase(ext) == "hh"@ || ascii_lowercase(ext) == "hxx"@) ==> classified(Some(name), Some(ext)) == Some("C++"@),
        ascii_lowercase(ext) == "cs"@ ==> classified(Some(name), Some(ext)) == Some("C#"@),
        ascii_lowercase(ext) == "php"@ ==> classified(Some(name), Some(ext)) == Some("PHP"@),
        (ascii_lowercase(ext) == "sh"@ || ascii_lowercase(ext) == "bash"@ || ascii_lowercase(ext) == "zsh"@) ==> classified(Some(name), Some(ext)) == Some("Shell"@),
        ascii_lowercase(ext) == "lua"@ ==> classified(Some(name), Some(ext)) == Some("Lua"@),
        ascii_lowercase(ext) == "nix"@ ==> classified(Some(name), Some(ext)) == Some("Nix"@),
        ascii_lowercase(ext) == "dart"@ ==> classified(Some(name), Some(ext)) == Some("Dart"@),
        ascii_lowercase(ext) == "scala"@ ==> classified(Some(name), Some(ext)) == Some("Scala"@),
        (ascii_lowercase(ext) == "ml"@ || ascii_lowercase(ext) == "mli"@) ==> classified(Some(name), Some(ext)) == Some("OCaml"@),
        ascii_lowercase(ext) == "hs"@ ==> classified(Some(name), Some(ext)) == Some("Haskell"@),
        (ascii_lowercase(ext) == "ex"@ || ascii_lowercase(ext) == "exs"@) ==> classified(Some(name), Some(ext)) == Some("Elixir"@),
        (ascii_lowercase(ext) == "md"@ || ascii_lowercase(ext) == "markdown"@ || ascii_lowercase(ext) == "json"@ || ascii_lowercase(ext) == "yaml"@ || ascii_lowercase(ext) == "yml"@ || ascii_lowercase(ext) == "toml"@ || ascii_lowercase(ext) == "sql"@ || ascii_lowercase(ext) == "txt"@ || ascii_lowercase(ext) == "lock"@) ==> classified(Some(name), Some(ext)) is None,
{
    assert(language_by_name(name) is None) by {
        reveal_strlit("Dockerfile");
        reveal_strlit("Dockerfile.");
        reveal_strlit("Makefile");
        reveal_strlit("GNUmakefile");
    }
    reveal_strlit("rs");
    reveal_strlit("ts");
    reveal_strlit("tsx");
    reveal_strlit("mts");
    reveal_strlit("cts");
    reveal_strlit("js");
    reveal_strlit("jsx");
    reveal_strlit("mjs");
    reveal_strlit("cjs");
    reveal_strlit("mdx");
    reveal_strlit("tex");
    reveal_strlit("sty");
    reveal_strlit("cls");
    reveal_strlit("css");
    reveal_strlit("scss");
    reveal_strlit("sass");
    reveal_strlit("less");
    reveal_strlit("html");
    reveal_strlit("htm");
    reveal_strlit("vue");
    reveal_strlit("svelte");
    reveal_strlit("py");
    reveal_strlit("go");
    reveal_strlit("rb");
    reveal_strlit("java");
    reveal_strlit("kt");
    reveal_strlit("kts");
    reveal_strlit("swift");
    reveal_strlit("c");
    reveal_strlit("h");
    reveal_strlit("cc");
    reveal_strlit("cpp");
    reveal_strlit("cxx");
    reveal_strlit("hpp");
    reveal_strlit("hh");
    reveal_strlit("hxx");
    reveal_strlit("cs");
    reveal_strlit("php");
    reveal_strlit("sh");
    reveal_strlit("bash");
    reveal_strlit("zsh");
    reveal_strlit("lua");
    reveal_strlit("nix");
    reveal_strlit("dart");
    reveal_strlit("scala");
    reveal_strlit("ml");
    reveal_strlit("mli");
    reveal_strlit("hs");
    reveal_strlit("ex");
    reveal_strlit("exs");
    reveal_strlit("md");
    reveal_strlit("markdown");
    reveal_strlit("json");
    reveal_strlit("yaml");
    reveal_strlit("yml");
    reveal_strlit("toml");
    reveal_strlit("sql");
    reveal_strlit("txt");
    reveal_strlit("lock");
    reveal_strlit("Rust");
    reveal_strlit("TypeScript");
    reveal_strlit("JavaScript");
    reveal_strlit("MDX");
    reveal_strlit("TeX");
    reveal_strlit("CSS");
    reveal_strlit("SCSS");
    reveal_strlit("Less");
    reveal_strlit("HTML");
    reveal_strlit("Vue");
    reveal_strlit("Svelte");
    reveal_strlit("Python");
    reveal_strlit("Go");
    reveal_strlit("Ruby");
    reveal_strlit("Java");
    reveal_strlit("Kotlin");
    reveal_strlit("Swift");
    reveal_strlit("C");
    reveal_strlit("C++");
    reveal_strlit("C#");
    reveal_strlit("PHP");
    reveal_strlit("Shell");
    reveal_strlit("Lua");
    reveal_strlit("Nix");
    reveal_strlit("Dart");
    reveal_strlit("Scala");
    reveal_strlit("OCaml");
    reveal_strlit("Haskell");
    reveal_strlit("Elixir");
    assert("rs"@.len() == 2 && "rs"@[0] == 'r' && "rs"@[1] == 's');
    assert("ts"@.len() == 2 && "ts"@[0] == 't' && "ts"@[1] == 's');
    assert("tsx"@.len() == 3 && "tsx"@[0] == 't' && "tsx"@[1] == 's' && "tsx"@[2] == 'x');
    assert("mts"@.len() == 3 && "mts"@[0] == 'm' && "mts"@[1] == 't' && "mts"@[2] == 's');
    assert("cts"@.len() == 3 && "cts"@[0] == 'c' && "cts"@[1] == 't' && "cts"@[2] == 's');
    assert("js"@.len() == 2 && "js"@[0] == 'j' && "js"@[1] == 's');
    assert("jsx"@.len() == 3 && "jsx"@[0] == 'j' && "jsx"@[1] == 's' && "jsx"@[2] == 'x');
    assert("mjs"@.len() == 3 && "mjs"@[0] == 'm' && "mjs"@[1] == 'j' && "mjs"@[2] == 's');
    assert("cjs"@.len() == 3 && "cjs"@[0] == 'c' && "cjs"@[1] == 'j' && "cjs"@[2] == 's');
    assert("mdx"@.len() == 3 && "mdx"@[0] == 'm' && "mdx"@[1] == 'd' && "mdx"@[2] == 'x');
    assert("tex"@.len() == 3 && "tex"@[0] == 't' && "tex"@[1] == 'e' && "tex"@[2] == 'x');
    assert("sty"@.len() == 3 && "sty"@[0] == 's' && "sty"@[1] == 't' && "sty"@[2] == 'y');
    assert("cls"@.len() == 3 && "cls"@[0] == 'c' && "cls"@[1] == 'l' && "cls"@[2] == 's');
    assert("css"@.len() == 3 && "css"@[0] == 'c' && "css"@[1] == 's' && "css"@[2] == 's');
    assert("scss"@.len() == 4 && "scss"@[0] == 's' && "scss"@[1] == 'c' && "scss"@[2] == 's' && "scss"@[3] == 's');
    assert("sass"@.len() == 4 && "sass"@[0] == 's' && "sass"@[1] == 'a' && "sass"@[2] == 's' && "sass"@[3] == 's');
    assert("less"@.len() == 4 && "less"@[0] == 'l' && "less"@[1] == 'e' && "less"@[2] == 's' && "less"@[3] == 's');
    assert("html"@.len() == 4 && "html"@[0] == 'h' && "html"@[1] == 't' && "html"@[2] == 'm' && "html"@[3] == 'l');
    assert("htm"@.len() == 3 && "htm"@[0] == 'h' && "htm"@[1] == 't' && "htm"@[2] == 'm');
    assert("vue"@.len() == 3 && "vue"@[0] == 'v' && "vue"@[1] == 'u' && "vue"@[2] == 'e');
    assert("svelte"@.len() == 6 && "svelte"@[0] == 's' && "svelte"@[1] == 'v' && "svelte"@[2] == 'e' && "svelte"@[3] == 'l' && "svelte"@[4] == 't' && "svelte"@[5] == 'e');
    assert("py"@.len() == 2 && "py"@[0] == 'p' && "py"@[1] == 'y');
    assert("go"@.len() == 2 && "go"@[0] == 'g' && "go"@[1] == 'o');
    assert("rb"@.len() == 2 && "rb"@[0] == 'r' && "rb"@[1] == 'b');
    assert("java"@.len() == 4 && "java"@[0] == 'j' && "java"@[1] == 'a' && "java"@[2] == 'v' && "java"@[3] == 'a');
    assert("kt"@.len() == 2 && "kt"@[0] == 'k' && "kt"@[1] == 't');
    assert("kts"@.len() == 3 && "kts"@[0] == 'k' && "kts"@[1] == 't' && "kts"@[2] == 's');
    assert("swift"@.len() == 5 && "swift"@[0] == 's' && "swift"@[1] == 'w' && "swift"@[2] == 'i' && "swift"@[3] == 'f' && "swift"@[4] == 't');
    assert("c"@.len() == 1 && "c"@[0] == 'c');
    assert("h"@.len() == 1 && "h"@[0] == 'h');
    assert("cc"@.len() == 2 && "cc"@[0] == 'c' && "cc"@[1] == 'c');
    assert("cpp"@.len() == 3 && "cpp"@[0] == 'c' && "cpp"@[1] == 'p' && "cpp"@[2] == 'p');
    assert("cxx"@.len() == 3 && "cxx"@[0] == 'c' && "cxx"@[1] == 'x' && "cxx"@[2] == 'x');
    assert("hpp"@.len() == 3 && "hpp"@[0] == 'h' && "hpp"@[1] == 'p' && "hpp"@[2] == 'p');
    assert("hh"@.len() == 2 && "hh"@[0] == 'h' && "hh"@[1] == 'h');
    assert("hxx"@.len() == 3 && "hxx"@[0] == 'h' && "hxx"@[1] == 'x' && "hxx"@[2] == 'x');
    assert("cs"@.len() == 2 && "cs"@[0] == 'c' && "cs"@[1] == 's');
    assert("php"@.len() == 3 && "php"@[0] == 'p' && "php"@[1] == 'h' && "php"@[2] == 'p');
    assert("sh"@.len() == 2 && "sh"@[0] == 's' && "sh"@[1] == 'h');
    assert("bash"@.len() == 4 && "bash"@[0] == 'b' && "bash"@[1] == 'a' && "bash"@[2] == 's' && "bash"@[3] == 'h');
    assert("zsh"@.len() == 3 && "zsh"@[0] == 'z' && "zsh"@[1] == 's' && "zsh"@[2] == 'h');
    assert("lua"@.len() == 3 && "lua"@[0] == 'l' && "lua"@[1] == 'u' && "lua"@[2] == 'a');
    assert("nix"@.len() == 3 && "nix"@[0] == 'n' && "nix"@[1] == 'i' && "nix"@[2] == 'x');
    assert("dart"@.len() == 4 && "dart"@[0] == 'd' && "dart"@[1] == 'a' && "dart"@[2] == 'r' && "dart"@[3] == 't');
    assert("scala"@.len() == 5 && "scala"@[0] == 's' && "scala"@[1] == 'c' && "scala"@[2] == 'a' && "scala"@[3] == 'l' && "scala"@[4] == 'a');
    assert("ml"@.len() == 2 && "ml"@[0] == 'm' && "ml"@[1] == 'l');
    assert("mli"@.len() == 3 && "mli"@[0] == 'm' && "mli"@[1] == 'l' && "mli"@[2] == 'i');
    assert("hs"@.len() == 2 && "hs"@[0] == 'h' && "hs"@[1] == 's');
    assert("ex"@.len() == 2 && "ex"@[0] == 'e' && "ex"@[1] == 'x');
    assert("exs"@.len() == 3 && "exs"@[0] == 'e' && "exs"@[1] == 'x' && "exs"@[2] == 's');
    assert("md"@.len() == 2 && "md"@[0] == 'm' && "md"@[1] == 'd');
    assert("markdown"@.len() == 8 && "markdown"@[0] == 'm' && "markdown"@[1] == 'a' && "markdown"@[2] == 'r' && "markdown"@[3] == 'k' && "markdown"@[4] == 'd' && "markdown"@[5] == 'o' && "markdown"@[6] == 'w' && "markdown"@[7] == 'n');
    assert("json"@.len() == 4 && "json"@[0] == 'j' && "json"@[1] == 's' && "json"@[2] == 'o' && "json"@[3] == 'n');
    assert("yaml"@.len() == 4 && "yaml"@[0] == 'y' && "yaml"@[1] == 'a' && "yaml"@[2] == 'm' && "yaml"@[3] == 'l');
    assert("yml"@.len() == 3 && "yml"@[0] == 'y' && "yml"@[1] == 'm' && "yml"@[2] == 'l');
    assert("toml"@.len() == 4 && "toml"@[0] == 't' && "toml"@[1] == 'o' && "toml"@[2] == 'm' && "toml"@[3] == 'l');
    assert("sql"@.len() == 3 && "sql"@[0] == 's' && "sql"@[1] == 'q' && "sql"@[2] == 'l');
    assert("txt"@.len() == 3 && "txt"@[0] == 't' && "txt"@[1] == 'x' && "txt"@[2] == 't');
    assert("lock"@.len() == 4 && "lock"@[0] == 'l' && "lock"@[1] == 'o' && "lock"@[2] == 'c' && "lock"@[3] == 'k');
    assert(language_by_extension("rs"@) == Some("Rust"@));
    assert(language_by_extension("ts"@) == Some("TypeScript"@));
    assert(language_by_extension("tsx"@) == Some("TypeScript"@));
    assert(language_by_extension("mts"@) == Some("TypeScript"@));
    assert(language_by_extension("cts"@) == Some("TypeScript"@));
    assert(language_by_extension("js"@) == Some("JavaScript"@));
    assert(language_by_extension("jsx"@) == Some("JavaScript"@));
    assert(language_by_extension("mjs"@) == Some("JavaScript"@));
    assert(language_by_extension("cjs"@) == Some("JavaScript"@));
    assert(language_by_extension("mdx"@) == Some("MDX"@));
    assert(language_by_extension("tex"@) == Some("TeX"@));
    assert(language_by_extension("sty"@) == Some("TeX"@));
    assert(language_by_extension("cls"@) == Some("TeX"@));
    assert(language_by_extension("css"@) == Some("CSS"@));
    assert(language_by_extension("scss"@) == Some("SCSS"@));
    assert(language_by_extension("sass"@) == Some("SCSS"@));
    assert(language_by_extension("less"@) == Some("Less"@));
    assert(language_by_extension("html"@) == Some("HTML"@));
    assert(language_by_extension("htm"@) == Some("HTML"@));
    assert(language_by_extension("vue"@) == Some("Vue"@));
    assert(language_by_extension("svelte"@) == Some("Svelte"@));
    assert(language_by_extension("py"@) == Some("Python"@));
    assert(language_by_extension("go"@) == Some("Go"@));
    assert(language_by_extension("rb"@) == Some("Ruby"@));
    assert(language_by_extension("java"@) == Some("Java"@));
    assert(language_by_extension("kt"@) == Some("Kotlin"@));
    assert(language_by_extension("kts"@) == Some("Kotlin"@));
    assert(language_by_extension("swift"@) == Some("Swift"@));
    assert(language_by_extension("c"@) == Some("C"@));
    assert(language_by_extension("h"@) == Some("C"@));
    assert(language_by_extension("cc"@) == Some("C++"@));
    assert(language_by_extension("cpp"@) == Some("C++"@));
    assert(language_by_extension("cxx"@) == Some("C++"@));
    assert(language_by_extension("hpp"@) == Some("C++"@));
    assert(language_by_extension("hh"@) == Some("C++"@));
    assert(language_by_extension("hxx"@) == Some("C++"@));
    assert(language_by_extension("cs"@) == Some("C#"@));
    assert(language_by_extension("php"@) == Some("PHP"@));
    assert(language_by_extension("sh"@) == Some("Shell"@));
    assert(language_by_extension("bash"@) == Some("Shell"@));
    assert(language_by_extension("zsh"@) == Some("Shell"@));
    assert(language_by_extension("lua"@) == Some("Lua"@));
    assert(language_by_extension("nix"@) == Some("Nix"@));
    assert(language_by_extension("dart"@) == Some("Dart"@));
    assert(language_by_extension("scala"@) == Some("Scala"@));
    assert(language_by_extension("ml"@) == Some("OCaml"@));
    assert(language_by_extension("mli"@) == Some("OCaml"@));
    assert(language_by_extension("hs"@) == Some("Haskell"@));
    assert(language_by_extension("ex"@) == Some("Elixir"@));
    assert(language_by_extension("exs"@) == Some("Elixir"@));
    assert(language_by_extension("md"@) is None);
    assert(language_by_extension("markdown"@) is None);
    assert(language_by_extension("json"@) is None);
    assert(language_by_extension("yaml"@) is None);
    assert(language_by_extension("yml"@) is None);
    assert(language_by_extension("toml"@) is None);
    assert(language_by_extension("sql"@) is None);
    assert(language_by_extension("txt"@) is None);
    assert(language_by_extension("lock"@) is None);
}

/// A Dockerfile (named `Dockerfile` or `Dockerfile.<anything>`) counts as
/// Dockerfile and a `Makefile` or `GNUmakefile` as Makefile, whatever
/// extension their names carry.
pub proof fn lemma_languages_by_name(name: Seq<char>, ext: Option<Seq<char>>)
    ensures
        (name == "Dockerfile"@ || has_prefix(name, "Dockerfile."@)) ==> classified(Some(name), ext) == Some(
            "Dockerfile"@,
        ),
        (name == "Makefile"@ || name == "GNUmakefile"@) ==> classified(Some(name), ext) == Some("Makefile"@),
{
    reveal_strlit("Dockerfile");
    reveal_strlit("Dockerfile.");
    reveal_strlit("Makefile");
    reveal_strlit("GNUmakefile");
    if name == "Dockerfile"@ {
        assert(!has_prefix("Dockerfile"@, "Dockerfile."@));
    }
    if name == "Makefile"@ || name == "GNUmakefile"@ {
        assert(name[0] != 'D');
        assert(name != "Dockerfile"@);
        if has_prefix(name, "Dockerfile."@) {
            assert(name.take(11)[0] == name[0]);
        }
    }
}

/// Whether `text` is `n / size` written to one decimal and followed by
/// `unit`: some count of tenths, written as its whole part, `.`, its last
/// digit, a space and the unit, that is within half a tenth of `n / size`.
pub open spec fn shows_in_unit(text: Seq<char>, n: nat, size: nat, unit: Seq<char>) -> bool {
    exists|tenths: nat|
        text == #[trigger] one_decimal(tenths) + " "@ + unit && -(size as int) <= 2 * (tenths * size - 10 * n)
            <= size
}

/// A count of tenths written to one decimal: its whole part, `.`, and its
/// last digit.
pub open spec fn one_decimal(tenths: nat) -> Seq<char> {
    decimal(tenths / 10) + "."@ + decimal(tenths % 10)
}

/// Rounding to the nearest tenth lands within half a tenth.
proof fn lemma_rounded_tenths_close(n: nat, size: nat)
    requires
        size > 0,
    ensures
        -(size as int) <= 2 * (rounded_tenths(n, size) * size - 10 * n) <= size,
{
    let q = (n * 10) / size;
    let r = (n * 10) % size;
    lemma_fundamental_div_mod((n * 10) as int, size as int);
    assert(n * 10 == size * q + r);
    assert(0 <= r < size);
    let t = rounded_tenths(n, size);
    if 2 * r > size || (2 * r == size && q % 2 == 1) {
        assert(t == q + 1);
        assert(t * size - 10 * n == size - r) by (nonlinear_arith)
            requires
                t == q + 1,
                n * 10 == size * q + r,
        ;
    } else {
        assert(t == q);
        assert(t * size - 10 * n == -r) by (nonlinear_arith)
            requires
                t == q,
                n * 10 == size * q + r,
        ;
    }
}

/// How the dashboard writes a byte count: below 1 KiB as the count and
/// ` B`; from 1 KiB below 1 MiB in KiB, from 1 MiB below 1 GiB in MiB, from
/// 1 GiB below 1 TiB in GiB, and from 1 TiB on in TiB, each as the count
/// divided by the unit, to the nearest tenth.
pub proof fn lemma_byte_counts_are_written_in_their_unit(n: nat)
    ensures
        n < 1024 ==> human_bytes_text(n) == decimal(n) + " B"@,
        1024 <= n < 1048576 ==> shows_in_unit(human_bytes_text(n), n, 1024, "KiB"@),
        1048576 <= n < 1073741824 ==> shows_in_unit(human_bytes_text(n), n, 1048576, "MiB"@),
        1073741824 <= n < 1099511627776 ==> shows_in_unit(human_bytes_text(n), n, 1073741824, "GiB"@),
        1099511627776 <= n ==> shows_in_unit(human_bytes_text(n), n, 1099511627776, "TiB"@),
{
    if 1024 <= n {
        let size: nat = if n < 1048576 {
            1024
        } else if n < 1073741824 {
            1048576
        } else if n < 1099511627776 {
            1073741824
        } else {
            1099511627776
        };
        lemma_rounded_tenths_close(n, size);
        let t = rounded_tenths(n, size);
        assert(-(size as int) <= 2 * (t * size - 10 * n) <= size);
        assert(human_bytes_text(n) == one_decimal(t) + " "@ + crate::projects::unit_name(
            crate::projects::byte_unit(n),
        ));
    }
}

/// A number written in decimal is one or more digits worth that number.
proof fn lemma_decimal_digits(m: nat)
    ensures
        all_digits(decimal(m)),
        digits_value(decimal(m)) == m,
    decreases m,
{
    let d = (m % 10) as int;
    assert(digit_char(d) as int == 48 + d);
    if m < 10 {
        let s = decimal(m);
        assert(s.drop_last() =~= Seq::<char>::empty());
        assert(s.last() == digit_char(d));
        assert(digits_value(s) == digits_value(s.drop_last()) * 10 + ((s.last() as int) - 48) as nat);
        assert(digits_value(s.drop_last()) == 0);
    } else {
        lemma_decimal_digits(m / 10);
        let s = decimal(m);
        assert(s.drop_last() =~= decimal(m / 10));
        assert(s.last() == digit_char(d));
        assert(digits_value(s) == digits_value(s.drop_last()) * 10 + ((s.last() as int) - 48) as nat);
        assert(m == (m / 10) * 10 + m % 10);
        assert forall|i: int| 0 <= i < s.len() implies is_digit(#[trigger] s[i]) by {
            if i < s.len() - 1 {
                assert(s[i] == decimal(m / 10)[i]);
            }
        }
    }
}

/// White space before a word is skipped exactly.
proof fn lemma_leading_white_of(pad: Seq<char>, text: Seq<char>)
    requires
        forall|i: int| 0 <= i < pad.len() ==> is_white(#[trigger] pad[i]),
        text.len() > 0 && !is_white(text[0]),
    ensures
        leading_white(pad + text) == pad.len(),
    decreases pad.len(),
{
    if pad.len() == 0 {
        assert(pad + text =~= text);
    } else {
        assert((pad + text).drop_first() =~= pad.drop_first() + text);
        assert((pad + text)[0] == pad[0]);
        lemma_leading_white_of(pad.drop_first(), text);
    }
}

/// A word without white space ends at the white space after it.
proof fn lemma_word_len_of(word: Seq<char>, rest: Seq<char>)
    requires
        forall|i: int| 0 <= i < word.len() ==> !is_white(#[trigger] word[i]),
        rest.len() > 0 && is_white(rest[0]),
    ensures
        word_len(word + rest) == word.len(),
    decreases word.len(),
{
    if word.len() == 0 {
        assert(word + rest =~= rest);
    } else {
        assert((word + rest).drop_first() =~= word.drop_first() + rest);
        assert((word + rest)[0] == word[0]);
        lemma_word_len_of(word.drop_first(), rest);
    }
}

/// The dashboard reads how many commits a repository is behind from the
/// first count `git rev-list --left-right --count` prints: for every count
/// that fits a `u32`, written in decimal after any white space and followed
/// by white space and anything else, that count is what is read.
pub proof fn lemma_behind_reads_the_first_count(pad: Seq<char>, m: nat, sep: char, rest: Seq<char>)
    requires
        forall|i: int| 0 <= i < pad.len() ==> is_white(#[trigger] pad[i]),
        m <= u32::MAX,
        is_white(sep),
    ensures
        behind_of(pad + decimal(m) + seq![sep] + rest) == m,
{
    lemma_decimal_digits(m);
    let w = decimal(m);
    let after = seq![sep] + rest;
    let text = pad + w + after;
    assert(is_digit(w[0]));
    assert forall|i: int| 0 <= i < w.len() implies !is_white(#[trigger] w[i]) by {
        assert(is_digit(w[i]));
    }
    lemma_leading_white_of(pad, w + after);
    assert(text =~= pad + (w + after));
    assert(text.skip(pad.len() as int) =~= w + after);
    lemma_word_len_of(w, after);
    assert((w + after).take(w.len() as int) =~= w);
    assert(first_word(text) == w);
    assert(w[0] != '+');
    assert(crate::projects::parsed_u32(w) == Some(m as u32));
    assert(pad + decimal(m) + seq![sep] + rest =~= text);
}

/// Output with no count in it, only white space, reads as no commits behind.
pub proof fn lemma_behind_of_blank(text: Seq<char>)
    requires
        forall|i: int| 0 <= i < text.len() ==> is_white(#[trigger] text[i]),
    ensures
        behind_of(text) == 0,
{
    assert(leading_white(text) == text.len()) by {
        lemma_leading_white_all(text);
    }
    assert(text.skip(text.len() as int) =~= Seq::<char>::empty());
    assert(first_word(text) =~= Seq::<char>::empty());
}

/// White space all the way is skipped whole.
proof fn lemma_leading_white_all(text: Seq<char>)
    requires
        forall|i: int| 0 <= i < text.len() ==> is_white(#[trigger] text[i]),
    ensures
        leading_white(text) == text.len(),
    decreases text.len(),
{
    if text.len() > 0 {
        assert(is_white(text[0]));
        lemma_leading_white_all(text.drop_first());
    }
}

} // verus!
