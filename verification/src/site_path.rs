//! Paths into the site, like `/blog`: rooted at the domain, never carrying a
//! scheme or a host, and free of trailing slashes but for the root's own.

use vstd::prelude::*;
use vstd::string::*;

verus! {

/// `path` with every trailing `/` dropped, keeping at least one character.
pub open spec fn without_trailing_slashes(path: Seq<char>) -> Seq<char>
    decreases path.len(),
{
    if path.len() > 1 && path.last() == '/' {
        without_trailing_slashes(path.drop_last())
    } else {
        path
    }
}

/// Whether `path` is `/`-rooted.
pub open spec fn is_rooted(path: Seq<char>) -> bool {
    path.len() > 0 && path[0] == '/'
}

/// A well-formed site path: rooted, and ending in `/` only if it is the root.
pub open spec fn is_site_path(path: Seq<char>) -> bool {
    &&& is_rooted(path)
    &&& (path.len() > 1 ==> path.last() != '/')
}

/// Dropping trailing slashes keeps a path rooted, leaves no trailing slash
/// but the root's own, and is a prefix of `path`.
pub proof fn lemma_without_trailing_slashes(path: Seq<char>)
    ensures
        is_rooted(path) ==> is_site_path(without_trailing_slashes(path)),
        without_trailing_slashes(path).len() <= path.len(),
        without_trailing_slashes(path) == path.take(without_trailing_slashes(path).len() as int),
        path.len() > 0 ==> without_trailing_slashes(path).len() > 0,
    decreases path.len(),
{
    if path.len() > 1 && path.last() == '/' {
        lemma_without_trailing_slashes(path.drop_last());
        assert(path.drop_last().take(without_trailing_slashes(path).len() as int) =~= path.take(
            without_trailing_slashes(path).len() as int,
        ));
        assert(is_rooted(path) ==> is_rooted(path.drop_last()));
    } else {
        assert(path.take(path.len() as int) =~= path);
    }
}

/// Dropping trailing slashes twice is the same as dropping them once.
pub proof fn lemma_without_trailing_slashes_idempotent(path: Seq<char>)
    ensures
        without_trailing_slashes(without_trailing_slashes(path)) == without_trailing_slashes(path),
    decreases path.len(),
{
    if path.len() > 1 && path.last() == '/' {
        lemma_without_trailing_slashes_idempotent(path.drop_last());
    }
}

/// A path into this site.
#[derive(Clone, Debug)]
pub struct SitePath(String);

impl View for SitePath {
    type V = Seq<char>;

    closed spec fn view(&self) -> Seq<char> {
        self.0@
    }
}

impl SitePath {
    /// The same path.
    pub fn copy(&self) -> (path: Self)
        ensures
            path@ == self@,
    {
        SitePath(self.0.clone())
    }

    /// The site's root, `/`.
    pub fn root() -> (path: Self)
        ensures
            path@ == seq!['/'],
    {
        proof {
            reveal_strlit("/");
        }
        SitePath(String::from_str("/"))
    }

    /// Wraps a `/`-rooted path this app built itself, dropping any trailing
    /// slashes it ends with.
    pub fn new(path: &str) -> (site: Self)
        requires
            is_rooted(path@),
        ensures
            site@ == without_trailing_slashes(path@),
            is_site_path(site@),
    {
        proof {
            lemma_without_trailing_slashes(path@);
        }
        let mut keep: usize = path.unicode_len();
        assert(path@.take(keep as int) =~= path@);
        while keep > 1 && path.get_char(keep - 1) == '/'
            invariant
                1 <= keep <= path@.len(),
                without_trailing_slashes(path@.take(keep as int)) == without_trailing_slashes(
                    path@,
                ),
            decreases keep,
        {
            assert(path@.take(keep as int).drop_last() =~= path@.take(keep - 1));
            keep = keep - 1;
        }
        assert(without_trailing_slashes(path@.take(keep as int)) == path@.take(keep as int));
        SitePath(String::from_str(path.substring_char(0, keep)))
    }

    /// The path an outside string names, if it is `/`-rooted; anything else
    /// belongs to a host or a browser.
    pub fn parse(path: &str) -> (site: Option<Self>)
        ensures
            site is Some <==> is_rooted(path@),
            site matches Some(s) ==> s@ == without_trailing_slashes(path@),
    {
        if path.unicode_len() > 0 && path.get_char(0) == '/' {
            Some(Self::new(path))
        } else {
            None
        }
    }

    pub fn as_str(&self) -> (text: &str)
        ensures
            text@ == self@,
    {
        self.0.as_str()
    }
}

impl Default for SitePath {
    fn default() -> (path: Self)
        ensures
            path@ == seq!['/'],
    {
        Self::root()
    }
}

/// Wrapping a path that is already a site path changes nothing.
pub proof fn lemma_new_is_idempotent(path: Seq<char>)
    requires
        is_rooted(path),
    ensures
        without_trailing_slashes(without_trailing_slashes(path)) == without_trailing_slashes(path),
        is_site_path(without_trailing_slashes(path)),
{
    lemma_without_trailing_slashes(path);
    lemma_without_trailing_slashes_idempotent(path);
}

} // verus!
