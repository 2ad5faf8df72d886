//! `sam-run`'s download cache: where a script's binary is kept, when a
//! resolved release is still fresh, when the installed binary is still the
//! release's asset, and which leftovers may be removed. The files themselves
//! are read and written outside this crate.

use crate::text::{decimal, decimal_text, has_prefix, same_text, starts_with};
use std::path::Path;
use std::time::{SystemTime, UNIX_EPOCH};
use vstd::prelude::*;
use vstd::string::*;

verus! {

/// What the cache records about the binary installed for one script.
#[derive(Clone, Debug)]
pub struct Metadata {
    /// Unix timestamp of the last successful release resolution.
    pub checked_at: u64,
    pub tag: String,
    pub asset_id: u64,
    pub asset_updated_at: String,
    /// File name of the installed binary within the cache entry directory.
    pub bin: String,
}

/// One downloadable file of a GitHub release.
#[derive(Clone, Debug)]
pub struct Asset {
    pub id: u64,
    pub name: String,
    pub updated_at: String,
    /// API URL of the asset.
    pub url: String,
}

/// What `Path::join` gives for `base` and `part` on Unix: `part` alone when
/// it is absolute; else `part` appended to `base`, with a `/` between them
/// unless `base` is empty or already ends in one.
pub open spec fn path_joined(base: Seq<char>, part: Seq<char>) -> Seq<char> {
    if part.len() > 0 && part[0] == '/' {
        part
    } else if base.len() == 0 || base.last() == '/' {
        base + part
    } else {
        base + seq!['/'] + part
    }
}

/// Calls `Path::join` and reads the result back as text. As `PathBuf::push`
/// documents, an absolute `part` replaces `base` and a relative one extends
/// it, a separator going between them where `base` does not end in one; the
/// contract states that rule for Unix separators. Both arguments are UTF-8,
/// so the lossless conversion back changes nothing.
#[verifier::external_body]
fn join(base: &str, part: &str) -> (joined: String)
    ensures
        joined@ == path_joined(base@, part@),
{
    Path::new(base).join(part).to_string_lossy().into_owned()
}

/// The cache entry for a script: `<root>/<repo>/<tag or latest>/<platform>`.
pub fn entry_dir(root: &str, repo: &str, tag: Option<&str>, platform: &str) -> (dir: String)
    ensures
        dir@ == path_joined(
            path_joined(
                path_joined(root@, repo@),
                match tag {
                    Some(t) => t@,
                    None => "latest"@,
                },
            ),
            platform@,
        ),
{
    let with_repo = join(root, repo);
    let release = match tag {
        Some(t) => t,
        None => "latest",
    };
    let with_tag = join(with_repo.as_str(), release);
    join(with_tag.as_str(), platform)
}

/// Seconds since the Unix epoch by the system clock, or 0 for a clock set
/// before it. Calls `SystemTime::now`; nothing is claimed of the result,
/// which is the time.
#[verifier::external_body]
pub fn now_unix() -> u64 {
    match SystemTime::now().duration_since(UNIX_EPOCH) {
        Ok(duration) => duration.as_secs(),
        Err(_) => 0,
    }
}

/// Whether a release resolved at `checked_at` is still fresh at `now`: less
/// than `ttl_secs` has passed (a clock that went back counts as no time).
pub open spec fn still_fresh(now: u64, checked_at: u64, ttl_secs: u64) -> bool {
    (if now >= checked_at {
        now - checked_at
    } else {
        0
    }) < ttl_secs
}

/// Whether a release resolved at `checked_at` is still fresh at `now`.
pub fn is_fresh(now: u64, checked_at: u64, ttl_secs: u64) -> (fresh: bool)
    ensures
        fresh == still_fresh(now, checked_at, ttl_secs),
{
    now.saturating_sub(checked_at) < ttl_secs
}

/// Whether the installed binary is still the release's asset: the same
/// asset id, updated at the same time.
pub fn is_installed(metadata: &Metadata, asset: &Asset) -> (same: bool)
    ensures
        same == (metadata.asset_id == asset.id && metadata.asset_updated_at@ == asset.updated_at@),
{
    metadata.asset_id == asset.id && same_text(
        metadata.asset_updated_at.as_str(),
        asset.updated_at.as_str(),
    )
}

/// The file name an asset is installed under: `bin-<asset id>`.
pub fn bin_name(asset_id: u64) -> (name: String)
    ensures
        name@ == "bin-"@ + decimal(asset_id as nat),
{
    let mut name = String::from_str("bin-");
    name.append(decimal_text(asset_id).as_str());
    name
}

/// The first asset of a release with the given name.
pub fn find_asset(assets: &Vec<Asset>, name: &str) -> (found: Option<usize>)
    ensures
        match found {
            Some(i) => i < assets@.len() && assets@[i as int].name@ == name@ && forall|j: int|
                0 <= j < i ==> #[trigger] assets@[j].name@ != name@,
            None => forall|j: int| 0 <= j < assets@.len() ==> #[trigger] assets@[j].name@ != name@,
        },
{
    let mut i: usize = 0;
    while i < assets.len()
        invariant
            i <= assets@.len(),
            forall|j: int| 0 <= j < i ==> #[trigger] assets@[j].name@ != name@,
        decreases assets.len() - i,
    {
        if same_text(assets[i].name.as_str(), name) {
            return Some(i);
        }
        i = i + 1;
    }
    None
}

/// Whether a file in a cache entry is a leftover to remove: an installed
/// binary or a temporary file, other than the binary to keep.
pub open spec fn is_leftover(name: Seq<char>, keep: Seq<char>) -> bool {
    (has_prefix(name, "bin-"@) || has_prefix(name, ".tmp-"@)) && name != keep
}

/// Whether a file in a cache entry is a leftover to remove.
pub fn is_stale_binary(name: &str, keep: &str) -> (stale: bool)
    ensures
        stale == is_leftover(name@, keep@),
{
    (starts_with(name, "bin-") || starts_with(name, ".tmp-")) && !same_text(name, keep)
}

} // verus!
