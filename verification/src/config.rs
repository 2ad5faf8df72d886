//! The command-line companion's settings and its cached sign-in session.
//! The Supabase URL and publishable key default to the values the web app
//! ships with, and the environment may override them; the environment is
//! read outside this crate and handed in here.

use crate::text::{blank, is_blank};
use vstd::prelude::*;
use vstd::string::*;

verus! {

/// The Supabase project URL the web app ships with.
pub open spec fn default_url() -> Seq<char> {
    "https://yrklwvnpkqhmhsmmaele.supabase.co"@
}

/// The publishable (anon) key the web app ships with.
pub open spec fn default_anon_key() -> Seq<char> {
    "sb_publishable_cWyX02iHRP9tHRaFwyf8Wg_EXlZKv3I"@
}

/// The setting a list of environment variables gives, looked up in order:
/// the first that is set, unless it is blank.
pub open spec fn first_set(values: Seq<Option<String>>) -> Option<Seq<char>>
    decreases values.len(),
{
    if values.len() == 0 {
        None
    } else {
        match values[0] {
            Some(v) => if is_blank(v@) {
                None
            } else {
                Some(v@)
            },
            None => first_set(values.drop_first()),
        }
    }
}

/// The first of `values` that is set, unless it is blank.
pub fn env_any(values: &Vec<Option<String>>) -> (setting: Option<String>)
    ensures
        setting.deep_view() == first_set(values@),
{
    let mut i: usize = 0;
    assert(values@.skip(0) =~= values@);
    while i < values.len()
        invariant
            i <= values@.len(),
            first_set(values@) == first_set(values@.skip(i as int)),
        decreases values.len() - i,
    {
        assert(values@.skip(i as int)[0] == values@[i as int]);
        match &values[i] {
            Some(v) => {
                if blank(v.as_str()) {
                    return None;
                }
                return Some(v.clone());
            },
            None => {},
        }
        assert(values@.skip(i as int).drop_first() =~= values@.skip(i + 1));
        i = i + 1;
    }
    assert(values@.skip(i as int) =~= Seq::<Option<String>>::empty());
    None
}

/// Resolved Supabase connection settings.
#[derive(Debug)]
pub struct Config {
    pub url: String,
    pub anon_key: String,
}

impl Config {
    /// The settings, given the values of `SUPABASE_URL` and
    /// `NEXT_PUBLIC_SUPABASE_URL`, then of `SUPABASE_ANON_KEY` and
    /// `NEXT_PUBLIC_SUPABASE_ANON_KEY`, in that order: each the first that
    /// is set unless blank, else the web app's value.
    pub fn load(url_values: &Vec<Option<String>>, key_values: &Vec<Option<String>>) -> (config: Self)
        ensures
            config.url@ == match first_set(url_values@) {
                Some(url) => url,
                None => default_url(),
            },
            config.anon_key@ == match first_set(key_values@) {
                Some(key) => key,
                None => default_anon_key(),
            },
    {
        let url = match env_any(url_values) {
            Some(url) => url,
            None => String::from_str("https://yrklwvnpkqhmhsmmaele.supabase.co"),
        };
        let anon_key = match env_any(key_values) {
            Some(key) => key,
            None => String::from_str("sb_publishable_cWyX02iHRP9tHRaFwyf8Wg_EXlZKv3I"),
        };
        Config { url, anon_key }
    }
}

/// A cached Supabase auth session.
#[derive(Clone, Debug)]
pub struct Session {
    pub access_token: String,
    pub refresh_token: String,
    /// Unix timestamp (seconds) at which `access_token` expires.
    pub expires_at: i64,
    pub user_id: String,
    pub email: Option<String>,
}

/// Whether a token expiring at `expires_at` counts as expired at `now`: it
/// has at most 60 seconds left.
pub open spec fn expired_by(expires_at: int, now: int) -> bool {
    expires_at - now <= 60
}

impl Session {
    /// Whether the access token is expired at `now`, or within 60 seconds of
    /// expiring.
    pub fn is_expired_at(&self, now: i64) -> (expired: bool)
        ensures
            expired == expired_by(self.expires_at as int, now as int),
    {
        (self.expires_at as i128) - (now as i128) <= 60
    }

    /// Whether the access token is expired, or within 60 seconds of expiring,
    /// by the system clock: [`Session::is_expired_at`] on the time
    /// [`unix_time`] reads.
    pub fn is_expired(&self) -> (expired: bool)
        ensures
            exists|now: i64| expired == #[trigger] expired_by(self.expires_at as int, now as int),
    {
        let now = unix_time();
        self.is_expired_at(now)
    }
}

/// How far the system clock is from the Unix epoch: whether it is before
/// it, and by how many whole seconds. Calls `SystemTime::now` and
/// `SystemTime::duration_since`; nothing is claimed of the result, which is
/// the time.
#[verifier::external_body]
fn clock_from_epoch() -> (reading: (bool, u64)) {
    match std::time::SystemTime::now().duration_since(std::time::UNIX_EPOCH) {
        Ok(after) => (false, after.as_secs()),
        Err(before) => (true, before.duration().as_secs()),
    }
}

/// Seconds `secs` after the Unix epoch, or before it when `before_epoch`,
/// as an `i64`: the nearest bound when it does not fit.
pub open spec fn signed_seconds(before_epoch: bool, secs: u64) -> int {
    if before_epoch {
        if secs > i64::MAX {
            i64::MIN as int
        } else {
            -(secs as int)
        }
    } else if secs > i64::MAX {
        i64::MAX as int
    } else {
        secs as int
    }
}

/// Seconds `secs` after the Unix epoch, or before it when `before_epoch`.
pub fn unix_seconds(before_epoch: bool, secs: u64) -> (unix: i64)
    ensures
        unix == signed_seconds(before_epoch, secs),
{
    if secs > i64::MAX as u64 {
        if before_epoch {
            i64::MIN
        } else {
            i64::MAX
        }
    } else if before_epoch {
        -(secs as i64)
    } else {
        secs as i64
    }
}

/// Seconds since the Unix epoch by the system clock, negative for a clock
/// set before it.
fn unix_time() -> (now: i64) {
    let (before_epoch, secs) = clock_from_epoch();
    unix_seconds(before_epoch, secs)
}

} // verus!
