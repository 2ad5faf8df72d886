//! The manifest a `sam-run` script carries: which GitHub repository's
//! releases to run, how long a resolved release stays fresh, and which asset
//! each platform downloads. The JSON itself is read by serde outside this
//! crate; what is decided about it is here.

use crate::text::{has_prefix, push_char, same_text, starts_with};
use vstd::prelude::*;
use vstd::string::*;

verus! {

/// Hours a resolved release stays fresh when the manifest does not say.
pub const DEFAULT_TTL_HOURS: u64 = 24;

/// How a release asset is packed.
#[derive(Clone, Copy, PartialEq, Eq, Debug)]
pub enum Format {
    Binary,
    TarGz,
    Zip,
    Gz,
}

/// What one platform downloads.
#[derive(Debug)]
pub struct PlatformEntry {
    /// Asset name within the release; `{tag}` and `{version}` are expanded.
    pub asset: String,
    /// Path of the executable inside an archive asset; placeholders are
    /// expanded.
    pub path: Option<String>,
    /// Asset format; inferred from the asset's name when omitted.
    pub format: Option<Format>,
}

/// A script's manifest.
#[derive(Debug)]
pub struct Manifest {
    /// GitHub repository in `owner/name` form.
    pub repo: String,
    /// Release tag to use; the repository's latest release when omitted.
    pub tag: Option<String>,
    /// How long a resolved release stays fresh; 0 checks every run.
    pub ttl_hours: Option<u64>,
    /// Platform key (e.g. `macos-aarch64`) to release asset, in key order.
    pub platforms: Vec<(String, PlatformEntry)>,
}

/// Why a manifest was refused.
#[derive(Clone, PartialEq, Eq, Debug)]
pub enum ManifestError {
    /// The repository has no `/`.
    NotOwnerName(String),
    /// The owner or the name is empty, `.`, `..`, or holds a slash.
    InvalidOwnerName(String),
}

impl ManifestError {
    /// The message the error is reported with.
    pub fn message(&self) -> (text: String)
        ensures
            text@ == match self {
                ManifestError::NotOwnerName(repo) => "repo \""@ + repo@
                    + "\" is not in owner/name form"@,
                ManifestError::InvalidOwnerName(repo) => "repo \""@ + repo@
                    + "\" is not a valid owner/name"@,
            },
    {
        match self {
            ManifestError::NotOwnerName(repo) => {
                let mut text = String::from_str("repo \"");
                text.append(repo.as_str());
                text.append("\" is not in owner/name form");
                text
            },
            ManifestError::InvalidOwnerName(repo) => {
                let mut text = String::from_str("repo \"");
                text.append(repo.as_str());
                text.append("\" is not a valid owner/name");
                text
            },
        }
    }
}

/// The JSON a script carries: everything after its first line when it
/// starts with `#!` (nothing when that line is all there is), else all of it.
pub open spec fn manifest_text(script: Seq<char>) -> Seq<char> {
    if has_prefix(script, "#!"@) {
        let rest = script.skip(2);
        if rest.contains('\n') {
            rest.skip(rest.index_of_first('\n').unwrap() + 1)
        } else {
            Seq::empty()
        }
    } else {
        script
    }
}

/// The index of the first `c` in `text` at or after `from`, if any.
fn find_char(text: &str, from: usize, c: char) -> (found: Option<usize>)
    requires
        from <= text@.len(),
    ensures
        match found {
            Some(i) => from <= i < text@.len() && text@[i as int] == c && forall|j: int|
                from <= j < i ==> text@[j] != c,
            None => forall|j: int| from <= j < text@.len() ==> text@[j] != c,
        },
{
    let n = text.unicode_len();
    let mut i = from;
    while i < n
        invariant
            n == text@.len(),
            from <= i <= n,
            forall|j: int| from <= j < i ==> text@[j] != c,
        decreases n - i,
    {
        if text.get_char(i) == c {
            return Some(i);
        }
        i = i + 1;
    }
    None
}

/// The JSON a script carries: after a `#!` line, the rest of the file.
pub fn manifest_body(script: &str) -> (body: String)
    ensures
        body@ == manifest_text(script@),
{
    if !starts_with(script, "#!") {
        return String::from_str(script);
    }
    proof {
        reveal_strlit("#!");
    }
    let n = script.unicode_len();
    let ghost rest = script@.skip(2);
    match find_char(script, 2, '\n') {
        Some(i) => {
            proof {
                assert(rest[i - 2] == '\n');
                assert(rest.contains('\n'));
                rest.index_of_first_ensures('\n');
                let first = rest.index_of_first('\n').unwrap();
                assert(first == i - 2) by {
                    if first < i - 2 {
                        assert(script@[first + 2] == '\n');
                    }
                    if first > i - 2 {
                        assert(rest[i - 2] == '\n');
                    }
                }
                assert(rest.skip(i - 2 + 1) =~= script@.skip(i + 1));
            }
            String::from_str(script.substring_char(i + 1, n))
        },
        None => {
            proof {
                assert(!rest.contains('\n')) by {
                    if rest.contains('\n') {
                        let k = choose|k: int| 0 <= k < rest.len() && rest[k] == '\n';
                        assert(script@[k + 2] == '\n');
                    }
                }
            }
            String::new()
        },
    }
}

/// Whether `part` may be a repository's owner or name: not empty, not `.`
/// or `..`, and free of slashes and backslashes.
pub open spec fn valid_repo_part(part: Seq<char>) -> bool {
    &&& part.len() > 0
    &&& part != "."@
    &&& part != ".."@
    &&& !part.contains('/')
    &&& !part.contains('\\')
}

/// Whether a repository with a `/` has a valid owner before its first `/`
/// and a valid name after it.
pub open spec fn valid_owner_name(repo: Seq<char>) -> bool {
    let slash = repo.index_of_first('/').unwrap();
    valid_repo_part(repo.take(slash)) && valid_repo_part(repo.skip(slash + 1))
}

/// Whether `part` may be a repository's owner or name.
fn repo_part_ok(text: &str, from: usize, to: usize) -> (ok: bool)
    requires
        from <= to <= text@.len(),
    ensures
        ok == valid_repo_part(text@.subrange(from as int, to as int)),
{
    let ghost part = text@.subrange(from as int, to as int);
    let piece = text.substring_char(from, to);
    if from == to || same_text(piece, ".") || same_text(piece, "..") {
        return false;
    }
    let mut i = from;
    while i < to
        invariant
            from <= i <= to <= text@.len(),
            part == text@.subrange(from as int, to as int),
            forall|j: int| 0 <= j < i - from ==> part[j] != '/' && part[j] != '\\',
        decreases to - i,
    {
        let c = text.get_char(i);
        assert(part[i - from] == c);
        if c == '/' || c == '\\' {
            assert(part.contains(c));
            return false;
        }
        i = i + 1;
    }
    true
}

/// Checks that the repository is in `owner/name` form with both parts valid.
pub fn validate_repo(repo: &str) -> (checked: Result<(), ManifestError>)
    ensures
        checked is Ok <==> repo@.contains('/') && valid_owner_name(repo@),
        checked is Err ==> match checked {
            Err(ManifestError::NotOwnerName(r)) => !repo@.contains('/') && r@ == repo@,
            Err(ManifestError::InvalidOwnerName(r)) => repo@.contains('/') && !valid_owner_name(
                repo@,
            ) && r@ == repo@,
            Ok(_) => true,
        },
{
    let n = repo.unicode_len();
    match find_char(repo, 0, '/') {
        None => {
            proof {
                assert(!repo@.contains('/')) by {
                    if repo@.contains('/') {
                        let k = choose|k: int| 0 <= k < repo@.len() && repo@[k] == '/';
                        assert(repo@[k] != '/');
                    }
                }
            }
            Err(ManifestError::NotOwnerName(String::from_str(repo)))
        },
        Some(slash) => {
            proof {
                assert(repo@.contains('/'));
                repo@.index_of_first_ensures('/');
                let first = repo@.index_of_first('/').unwrap();
                assert(first == slash) by {
                    if first < slash {
                        assert(repo@[first] == '/');
                    }
                }
                assert(repo@.take(slash as int) =~= repo@.subrange(0, slash as int));
                assert(repo@.skip(slash + 1) =~= repo@.subrange(slash + 1, n as int));
            }
            if repo_part_ok(repo, 0, slash) && repo_part_ok(repo, slash + 1, n) {
                Ok(())
            } else {
                Err(ManifestError::InvalidOwnerName(String::from_str(repo)))
            }
        },
    }
}

impl Manifest {
    /// The entry for platform `key`, if the manifest has one.
    pub fn platform(&self, key: &str) -> (entry: Option<&PlatformEntry>)
        ensures
            entry is Some <==> exists|i: int|
                0 <= i < self.platforms@.len() && #[trigger] self.platforms@[i].0@ == key@,
            entry matches Some(e) ==> exists|i: int|
                0 <= i < self.platforms@.len() && #[trigger] self.platforms@[i].0@ == key@
                    && self.platforms@[i].1 == *e,
    {
        let mut i: usize = 0;
        while i < self.platforms.len()
            invariant
                i <= self.platforms@.len(),
                forall|j: int| 0 <= j < i ==> #[trigger] self.platforms@[j].0@ != key@,
            decreases self.platforms.len() - i,
        {
            if same_text(self.platforms[i].0.as_str(), key) {
                return Some(&self.platforms[i].1);
            }
            i = i + 1;
        }
        None
    }

    /// How long a resolved release stays fresh, in seconds.
    pub fn ttl_secs(&self) -> (secs: u64)
        requires
            self.ttl_hours matches Some(h) ==> h * 3600 <= u64::MAX,
        ensures
            secs == match self.ttl_hours {
                Some(h) => h * 3600,
                None => DEFAULT_TTL_HOURS * 3600,
            },
    {
        match self.ttl_hours {
            Some(hours) => hours * 3600,
            None => DEFAULT_TTL_HOURS * 3600,
        }
    }
}

/// `text` with every occurrence of `pattern`, found left to right without
/// overlaps, replaced by `with`, as `str::replace` replaces it.
pub open spec fn replaced(text: Seq<char>, pattern: Seq<char>, with: Seq<char>) -> Seq<char>
    decreases text.len(),
{
    if text.len() == 0 {
        Seq::empty()
    } else if pattern.len() > 0 && has_prefix(text, pattern) {
        with + replaced(text.skip(pattern.len() as int), pattern, with)
    } else {
        seq![text[0]] + replaced(text.drop_first(), pattern, with)
    }
}

/// Whether `text` holds `pattern` starting at character `at`.
fn matches_at(text: &str, at: usize, pattern: &str) -> (found: bool)
    requires
        at <= text@.len(),
    ensures
        found == has_prefix(text@.skip(at as int), pattern@),
{
    let n = text.unicode_len();
    let m = pattern.unicode_len();
    if n - at < m {
        return false;
    }
    let mut k: usize = 0;
    while k < m
        invariant
            n == text@.len(),
            m == pattern@.len(),
            at + m <= n,
            k <= m,
            forall|j: int| 0 <= j < k ==> text@[at + j] == pattern@[j],
        decreases m - k,
    {
        if text.get_char(at + k) != pattern.get_char(k) {
            assert(text@.skip(at as int).take(m as int)[k as int] != pattern@[k as int]);
            return false;
        }
        k = k + 1;
    }
    assert(text@.skip(at as int).take(m as int) =~= pattern@);
    true
}

/// `text` with every occurrence of `pattern` replaced by `with`.
pub fn replace_all(text: &str, pattern: &str, with: &str) -> (out: String)
    requires
        pattern@.len() > 0,
    ensures
        out@ == replaced(text@, pattern@, with@),
{
    let n = text.unicode_len();
    let m = pattern.unicode_len();
    let mut out = String::new();
    let mut i: usize = 0;
    proof {
        assert(text@.skip(0) =~= text@);
        assert(out@ + replaced(text@, pattern@, with@) =~= replaced(text@, pattern@, with@));
    }
    while i < n
        invariant
            n == text@.len(),
            m == pattern@.len(),
            m > 0,
            i <= n,
            out@ + replaced(text@.skip(i as int), pattern@, with@) == replaced(text@, pattern@, with@),
        decreases n - i,
    {
        let ghost rest = text@.skip(i as int);
        if matches_at(text, i, pattern) {
            let ghost before = out@;
            out.append(with);
            proof {
                assert(rest.skip(m as int) =~= text@.skip(i + m));
                assert(out@ + replaced(text@.skip(i + m), pattern@, with@) =~= before + replaced(
                    rest,
                    pattern@,
                    with@,
                ));
            }
            i = i + m;
        } else {
            let c = text.get_char(i);
            let ghost before = out@;
            push_char(&mut out, c);
            proof {
                assert(rest[0] == c);
                assert(rest.drop_first() =~= text@.skip(i + 1));
                assert(out@ + replaced(text@.skip(i + 1), pattern@, with@) =~= before + replaced(
                    rest,
                    pattern@,
                    with@,
                ));
            }
            i = i + 1;
        }
    }
    proof {
        assert(text@.skip(n as int) =~= Seq::<char>::empty());
        assert(out@ + Seq::<char>::empty() =~= out@);
    }
    out
}

/// The version a tag names: the tag without one leading `v`.
pub open spec fn version_of(tag: Seq<char>) -> Seq<char> {
    if tag.len() > 0 && tag[0] == 'v' {
        tag.drop_first()
    } else {
        tag
    }
}

/// Expands `{tag}` and `{version}` (the tag with one leading `v` stripped)
/// in asset names and archive paths: every `{tag}` first, then every
/// `{version}` in the result.
pub fn expand_placeholders(template: &str, tag: &str) -> (expanded: String)
    ensures
        expanded@ == replaced(
            replaced(template@, "{tag}"@, tag@),
            "{version}"@,
            version_of(tag@),
        ),
{
    let n = tag.unicode_len();
    let version = if n > 0 && tag.get_char(0) == 'v' {
        tag.substring_char(1, n)
    } else {
        tag
    };
    assert(version@ == version_of(tag@)) by {
        if n > 0 && tag@[0] == 'v' {
            assert(tag@.subrange(1, n as int) =~= tag@.drop_first());
        }
    }
    proof {
        reveal_strlit("{tag}");
        reveal_strlit("{version}");
    }
    let with_tag = replace_all(template, "{tag}", tag);
    replace_all(with_tag.as_str(), "{version}", version)
}

} // verus!
