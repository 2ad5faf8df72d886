//! `sam-run`'s self-update rules: which platforms have a released binary and
//! what it is called, when the running build is already the released one,
//! what the version banner reads, and what a failed write is reported as.

use crate::text::same_text;
use vstd::prelude::*;
use vstd::string::*;

verus! {

/// The platforms a released binary exists for.
pub open spec fn supported_platforms_spec() -> Seq<Seq<char>> {
    seq!["linux-x86_64"@, "linux-aarch64"@, "macos-x86_64"@, "macos-aarch64"@]
}

/// Whether a released binary exists for `platform`.
pub open spec fn is_supported(platform: Seq<char>) -> bool {
    supported_platforms_spec().contains(platform)
}

/// The platforms a released binary exists for, in order.
pub fn supported_platforms() -> (platforms: Vec<&'static str>)
    ensures
        platforms@.len() == supported_platforms_spec().len(),
        forall|i: int| 0 <= i < platforms@.len() ==> #[trigger] platforms@[i]@ == supported_platforms_spec()[i],
{
    let platforms = vec!["linux-x86_64", "linux-aarch64", "macos-x86_64", "macos-aarch64"];
    assert(platforms@[0]@ == "linux-x86_64"@);
    platforms
}

/// Why no binary could be named.
#[derive(Clone, PartialEq, Eq, Debug)]
pub enum UpdateError {
    /// No binary is released for this platform.
    UnsupportedPlatform(String),
}

impl UpdateError {
    /// The message the error is reported with.
    pub fn message(&self) -> (text: String)
        ensures
            text@ == match self {
                UpdateError::UnsupportedPlatform(platform) => "sam-run has no released binary for platform "@
                    + platform@
                    + " (supported: linux-x86_64, linux-aarch64, macos-x86_64, macos-aarch64)"@,
            },
    {
        match self {
            UpdateError::UnsupportedPlatform(platform) => {
                let mut text = String::from_str("sam-run has no released binary for platform ");
                text.append(platform.as_str());
                text.append(" (supported: linux-x86_64, linux-aarch64, macos-x86_64, macos-aarch64)");
                text
            },
        }
    }
}

/// The name of the released binary for `platform`: `sam-run-<platform>`,
/// for a supported platform only.
pub fn asset_name(platform: &str) -> (name: Result<String, UpdateError>)
    ensures
        name is Ok <==> is_supported(platform@),
        name matches Ok(n) ==> n@ == "sam-run-"@ + platform@,
        name matches Err(UpdateError::UnsupportedPlatform(p)) ==> p@ == platform@,
{
    let platforms = supported_platforms();
    let mut i: usize = 0;
    while i < platforms.len()
        invariant
            platforms@.len() == supported_platforms_spec().len(),
            forall|k: int| 0 <= k < platforms@.len() ==> #[trigger] platforms@[k]@ == supported_platforms_spec()[k],
            i <= platforms@.len(),
            forall|k: int| 0 <= k < i ==> supported_platforms_spec()[k] != platform@,
        decreases platforms.len() - i,
    {
        if same_text(platforms[i], platform) {
            assert(supported_platforms_spec()[i as int] == platform@);
            let mut name = String::from_str("sam-run-");
            name.append(platform);
            return Ok(name);
        }
        i = i + 1;
    }
    assert(!is_supported(platform@)) by {
        if supported_platforms_spec().contains(platform@) {
            let k = choose|k: int| 0 <= k < supported_platforms_spec().len() && supported_platforms_spec()[k] == platform@;
            assert(supported_platforms_spec()[k] != platform@);
        }
    }
    Err(UpdateError::UnsupportedPlatform(String::from_str(platform)))
}

/// Whether the running build is the released one: only when the release
/// names a commit and the build embeds that same commit.
pub open spec fn up_to_date(local: Option<Seq<char>>, remote: Seq<char>) -> bool {
    remote.len() > 0 && local == Some(remote)
}

/// Whether the running build, embedding commit `local` (none for a
/// development build), is the release at commit `remote`.
pub fn is_up_to_date(local: Option<&str>, remote: &str) -> (current: bool)
    ensures
        current == up_to_date(
            match local {
                Some(l) => Some(l@),
                None => None,
            },
            remote@,
        ),
{
    if remote.unicode_len() == 0 {
        return false;
    }
    match local {
        Some(l) => same_text(l, remote),
        None => false,
    }
}

/// What a self-update does once the release is known.
#[derive(Clone, Copy, PartialEq, Eq, Debug)]
pub enum UpdateStep {
    /// The running build is the release: report it and stop.
    AlreadyCurrent,
    /// Only asked to check: report the available update and stop.
    ReportAvailable,
    /// Download the release and replace the running executable.
    Install,
}

/// The step a self-update takes: nothing when the build is current, a
/// report when only asked to check, else an install.
pub fn update_step(local: Option<&str>, remote: &str, check: bool) -> (step: UpdateStep)
    ensures
        step == (if up_to_date(
            match local {
                Some(l) => Some(l@),
                None => None,
            },
            remote@,
        ) {
            UpdateStep::AlreadyCurrent
        } else if check {
            UpdateStep::ReportAvailable
        } else {
            UpdateStep::Install
        }),
{
    if is_up_to_date(local, remote) {
        UpdateStep::AlreadyCurrent
    } else if check {
        UpdateStep::ReportAvailable
    } else {
        UpdateStep::Install
    }
}

/// The version banner: `<package version> (<commit>)`, with `dev` for a
/// build that embeds no commit.
pub fn version_string(package_version: &str, build_sha: Option<&str>) -> (banner: String)
    ensures
        banner@ == package_version@ + " ("@ + match build_sha {
            Some(sha) => sha@,
            None => "dev"@,
        } + ")"@,
{
    let mut banner = String::from_str(package_version);
    banner.append(" (");
    match build_sha {
        Some(sha) => banner.append(sha),
        None => banner.append("dev"),
    }
    banner.append(")");
    banner
}

/// What a failed write of the update into `dir` is reported as: a hint to
/// re-run with `sudo` when permission was denied, else the write failure
/// with its cause.
pub fn permission_hint(permission_denied: bool, dir: &str, cause: &str) -> (message: String)
    ensures
        message@ == if permission_denied {
            "cannot write to "@ + dir@
                + ": permission denied; re-run with `sudo -E sam-run self-update` or reinstall sam-run to a directory you own"@
        } else {
            "failed to write update into "@ + dir@ + ": "@ + cause@
        },
{
    if permission_denied {
        let mut message = String::from_str("cannot write to ");
        message.append(dir);
        message.append(
            ": permission denied; re-run with `sudo -E sam-run self-update` or reinstall sam-run to a directory you own",
        );
        message
    } else {
        let mut message = String::from_str("failed to write update into ");
        message.append(dir);
        message.append(": ");
        message.append(cause);
        message
    }
}

} // verus!
