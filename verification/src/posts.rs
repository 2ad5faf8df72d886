//! The blog: an index of posts whose strings all live, encrypted, in one
//! shared ciphertext blob. A [`Post`] records only where its strings sit; the
//! accessors resolve those runs against the blob when read.

use crate::cipher::{encrypted_bytes, fnv32, scramble, seed_of};
use crate::crypt::{lemma_encrypt_then_decrypt, plaintext_of, EncryptedRun, EncryptedString};
use vstd::prelude::*;
use vstd::string::*;

verus! {

/// The name of the site's blog.
pub const BLOG_TITLE: &'static str = "Developer Sam Blog";


/// The plaintext of `run` inside `blob`.
pub open spec fn run_text(run: EncryptedRun, blob: Seq<u8>) -> Seq<char> {
    plaintext_of(run.bytes_in(blob), run.seed)
}

/// One post of the index.
#[derive(Clone, Copy, Debug)]
pub struct Post {
    pub title: EncryptedRun,
    pub year: EncryptedRun,
    pub month: EncryptedRun,
    pub date: EncryptedRun,
    /// Empty for external posts, which have no page on this site.
    pub slug: EncryptedRun,
    pub external_url: Option<EncryptedRun>,
    /// Card artwork: the post's OG image, else its first inline image.
    pub thumbnail: Option<EncryptedRun>,
    pub excerpt: EncryptedRun,
    /// Markdown body with the frontmatter stripped. Empty for external posts.
    pub body: EncryptedRun,
}

impl Post {
    /// Every run of the post lies inside a blob of `len` bytes.
    pub open spec fn fits(self, len: nat) -> bool {
        &&& self.title.fits(len)
        &&& self.year.fits(len)
        &&& self.month.fits(len)
        &&& self.date.fits(len)
        &&& self.slug.fits(len)
        &&& (self.external_url matches Some(run) ==> run.fits(len))
        &&& (self.thumbnail matches Some(run) ==> run.fits(len))
        &&& self.excerpt.fits(len)
        &&& self.body.fits(len)
    }

    /// The post's permalink: `/blog/<year>/<month>/<date>/<slug>`.
    pub open spec fn path_text(self, blob: Seq<u8>) -> Seq<char> {
        "/blog/"@ + run_text(self.year, blob) + "/"@ + run_text(self.month, blob) + "/"@ + run_text(
            self.date,
            blob,
        ) + "/"@ + run_text(self.slug, blob)
    }

    /// Where the post lives on the web: the external host, or this site.
    pub open spec fn url_text(self, blob: Seq<u8>) -> Seq<char> {
        match self.external_url {
            Some(run) => run_text(run, blob),
            None => "https://developersam.com"@ + self.path_text(blob),
        }
    }

    pub fn title(&self, blob: &[u8]) -> (title: EncryptedString)
        requires
            self.title.fits(blob@.len()),
        ensures
            title@ == run_text(self.title, blob@),
    {
        self.title.of(blob)
    }

    pub fn excerpt(&self, blob: &[u8]) -> (excerpt: EncryptedString)
        requires
            self.excerpt.fits(blob@.len()),
        ensures
            excerpt@ == run_text(self.excerpt, blob@),
    {
        self.excerpt.of(blob)
    }

    /// Markdown body with the frontmatter stripped. Empty for external posts.
    pub fn body(&self, blob: &[u8]) -> (body: EncryptedString)
        requires
            self.body.fits(blob@.len()),
        ensures
            body@ == run_text(self.body, blob@),
    {
        self.body.of(blob)
    }

    /// Card artwork, if the post has any.
    pub fn thumbnail(&self, blob: &[u8]) -> (thumbnail: Option<EncryptedString>)
        requires
            self.thumbnail matches Some(run) ==> run.fits(blob@.len()),
        ensures
            thumbnail is Some <==> self.thumbnail is Some,
            thumbnail matches Some(t) ==> t@ == run_text(self.thumbnail.unwrap(), blob@),
    {
        match self.thumbnail {
            Some(run) => Some(run.of(blob)),
            None => None,
        }
    }

    pub fn is_external(&self) -> (external: bool)
        ensures
            external == self.external_url is Some,
    {
        self.external_url.is_some()
    }

    /// `<year>-<month>-<date>`.
    pub fn formatted_date(&self, blob: &[u8]) -> (date: String)
        requires
            self.fits(blob@.len()),
        ensures
            date@ == run_text(self.year, blob@) + "-"@ + run_text(self.month, blob@) + "-"@
                + run_text(self.date, blob@),
    {
        let mut out = self.year.of(blob).decrypt();
        out.append("-");
        out.append(self.month.of(blob).decrypt().as_str());
        out.append("-");
        out.append(self.date.of(blob).decrypt().as_str());
        out
    }

    /// The post's permalink as a site path.
    pub fn path(&self, blob: &[u8]) -> (path: String)
        requires
            self.fits(blob@.len()),
        ensures
            path@ == self.path_text(blob@),
    {
        let mut out = String::from_str("/blog/");
        out.append(self.year.of(blob).decrypt().as_str());
        out.append("/");
        out.append(self.month.of(blob).decrypt().as_str());
        out.append("/");
        out.append(self.date.of(blob).decrypt().as_str());
        out.append("/");
        out.append(self.slug.of(blob).decrypt().as_str());
        out
    }

    /// Where the post lives on the web: the external host, or this site.
    pub fn url(&self, blob: &[u8]) -> (url: String)
        requires
            self.fits(blob@.len()),
        ensures
            url@ == self.url_text(blob@),
    {
        match self.external_url {
            Some(run) => run.of(blob).decrypt(),
            None => {
                let mut out = String::from_str("https://developersam.com");
                out.append(self.path(blob).as_str());
                out
            },
        }
    }
}

/// The blog: its name, its posts and the blob their strings are encrypted
/// into.
pub struct Blog {
    pub blob: Vec<u8>,
    pub title: EncryptedRun,
    pub posts: Vec<Post>,
}

impl Blog {
    /// Every run lies inside the blob.
    pub open spec fn well_formed(&self) -> bool {
        &&& self.title.fits(self.blob@.len())
        &&& forall|i: int| 0 <= i < self.posts@.len() ==> #[trigger] self.posts@[i].fits(self.blob@.len())
    }

    /// The permalink of post `i`.
    pub open spec fn post_path(&self, i: int) -> Seq<char> {
        self.posts@[i].path_text(self.blob@)
    }

    /// Whether post `i` is a local post at `path`.
    pub open spec fn hosts_at(&self, i: int, path: Seq<char>) -> bool {
        self.posts@[i].external_url is None && self.post_path(i) == path
    }

    /// A blog named `title`, with no posts yet.
    pub fn new(title: &str) -> (blog: Self)
        requires
            text_fits_u32(title),
        ensures
            blog.well_formed(),
            run_text(blog.title, blog.blob@) == title@,
            blog.posts@.len() == 0,
    {
        let mut blob: Vec<u8> = Vec::new();
        let title = encrypt_into(&mut blob, title);
        Blog { blob, title, posts: Vec::new() }
    }

    /// The site's own blog, named [`BLOG_TITLE`], before its posts are
    /// added.
    pub fn site() -> (blog: Self)
        ensures
            blog.well_formed(),
            run_text(blog.title, blog.blob@) == BLOG_TITLE@,
            blog.posts@.len() == 0,
    {
        proof {
            reveal_strlit("Developer Sam Blog");
            assert(vstd::utf8::is_ascii_chars(BLOG_TITLE@));
            vstd::utf8::is_ascii_chars_encode_utf8(BLOG_TITLE@);
        }
        Blog::new(BLOG_TITLE)
    }

    /// The blog's name.
    pub fn blog_title(&self) -> (title: EncryptedString)
        requires
            self.well_formed(),
        ensures
            title@ == run_text(self.title, self.blob@),
    {
        self.title.of(self.blob.as_slice())
    }

    /// The first local post whose permalink is `path`.
    pub fn find(&self, path: &str) -> (index: Option<usize>)
        requires
            self.well_formed(),
        ensures
            index is Some <==> exists|i: int| 0 <= i < self.posts@.len() && self.hosts_at(i, path@),
            index matches Some(i) ==> i < self.posts@.len() && self.hosts_at(i as int, path@) && forall|j: int|
                0 <= j < i ==> !#[trigger] self.hosts_at(j, path@),
    {
        let wanted = String::from_str(path);
        let mut i: usize = 0;
        while i < self.posts.len()
            invariant
                self.well_formed(),
                wanted@ == path@,
                i <= self.posts@.len(),
                forall|j: int| 0 <= j < i ==> !#[trigger] self.hosts_at(j, path@),
            decreases self.posts.len() - i,
        {
            let post = &self.posts[i];
            assert(post.fits(self.blob@.len()));
            if !post.is_external() {
                let candidate = post.path(self.blob.as_slice());
                if candidate == wanted {
                    assert(self.hosts_at(i as int, path@));
                    return Some(i);
                }
            }
            i = i + 1;
        }
        None
    }

    /// Adds a post to the index, encrypting each of its strings into the blob.
    #[verifier::rlimit(80)]
    pub fn add_post(&mut self, title: &str, year: &str, month: &str, date: &str, slug: &str, external_url: Option<&str>, thumbnail: Option<&str>, excerpt: &str, body: &str)
        requires
            old(self).well_formed(),
            old(self).blob@.len() + title.spec_bytes().len() + year.spec_bytes().len()
                + month.spec_bytes().len() + date.spec_bytes().len() + slug.spec_bytes().len()
                + (if let Some(u) = external_url { u.spec_bytes().len() } else { 0 })
                + (if let Some(t) = thumbnail { t.spec_bytes().len() } else { 0 })
                + excerpt.spec_bytes().len() + body.spec_bytes().len() <= u32::MAX,
        ensures
            final(self).well_formed(),
            final(self).posts@.len() == old(self).posts@.len() + 1,
            final(self).blob@.take(old(self).blob@.len() as int) == old(self).blob@,
            final(self).title == old(self).title,
            final(self).posts@.take(old(self).posts@.len() as int) == old(self).posts@,
            ({
                let post = final(self).posts@.last();
                let blob = final(self).blob@;
                &&& run_text(post.title, blob) == title@
                &&& run_text(post.year, blob) == year@
                &&& run_text(post.month, blob) == month@
                &&& run_text(post.date, blob) == date@
                &&& run_text(post.slug, blob) == slug@
                &&& run_text(post.excerpt, blob) == excerpt@
                &&& run_text(post.body, blob) == body@
                &&& (post.external_url is Some <==> external_url is Some)
                &&& (external_url matches Some(u) ==> run_text(post.external_url.unwrap(), blob) == u@)
                &&& (post.thumbnail is Some <==> thumbnail is Some)
                &&& (thumbnail matches Some(t) ==> run_text(post.thumbnail.unwrap(), blob) == t@)
            }),
    {
        let ghost start_blob = self.blob@;
        let ghost start_posts = self.posts@;
        let mut blob: Vec<u8> = Vec::new();
        std::mem::swap(&mut blob, &mut self.blob);
        let title_run = encrypt_into(&mut blob, title);
        let ghost b1 = blob@;
        let year_run = encrypt_into(&mut blob, year);
        let ghost b2 = blob@;
        let month_run = encrypt_into(&mut blob, month);
        let ghost b3 = blob@;
        let date_run = encrypt_into(&mut blob, date);
        let ghost b4 = blob@;
        let slug_run = encrypt_into(&mut blob, slug);
        let ghost b5 = blob@;
        let url_run = match external_url {
            Some(url) => Some(encrypt_into(&mut blob, url)),
            None => None,
        };
        assert(b5.len() <= blob@.len() && blob@.take(b5.len() as int) =~= b5);
        let ghost b6 = blob@;
        let thumb_run = match thumbnail {
            Some(t) => Some(encrypt_into(&mut blob, t)),
            None => None,
        };
        assert(b6.len() <= blob@.len() && blob@.take(b6.len() as int) =~= b6);
        let ghost b7 = blob@;
        let excerpt_run = encrypt_into(&mut blob, excerpt);
        let ghost b8 = blob@;
        let body_run = encrypt_into(&mut blob, body);
        let ghost b9 = blob@;
        proof {
            lemma_extends_trans(b7, b8, b9);
            lemma_extends_trans(b6, b7, b9);
            lemma_extends_trans(b5, b6, b9);
            lemma_extends_trans(b4, b5, b9);
            lemma_extends_trans(b3, b4, b9);
            lemma_extends_trans(b2, b3, b9);
            lemma_extends_trans(b1, b2, b9);
            lemma_extends_trans(start_blob, b1, b9);
            lemma_run_stable(self.title, start_blob, b9);
            lemma_run_stable(title_run, b1, b9);
            lemma_run_stable(year_run, b2, b9);
            lemma_run_stable(month_run, b3, b9);
            lemma_run_stable(date_run, b4, b9);
            lemma_run_stable(slug_run, b5, b9);
            if let Some(run) = url_run {
                lemma_run_stable(run, b6, b9);
            }
            if let Some(run) = thumb_run {
                lemma_run_stable(run, b7, b9);
            }
            lemma_run_stable(excerpt_run, b8, b9);
            assert forall|i: int| 0 <= i < start_posts.len() implies #[trigger] start_posts[i].fits(
                b9.len(),
            ) by {
                assert(start_posts[i].fits(start_blob.len()));
            }
        }
        self.blob = blob;
        self.posts.push(
            Post {
                title: title_run,
                year: year_run,
                month: month_run,
                date: date_run,
                slug: slug_run,
                external_url: url_run,
                thumbnail: thumb_run,
                excerpt: excerpt_run,
                body: body_run,
            },
        );
        assert(self.posts@.take(start_posts.len() as int) =~= start_posts);
    }
}

/// Extending an extension of a blob extends the blob.
proof fn lemma_extends_trans(a: Seq<u8>, b: Seq<u8>, c: Seq<u8>)
    requires
        a.len() <= b.len(),
        b.take(a.len() as int) == a,
        b.len() <= c.len(),
        c.take(b.len() as int) == b,
    ensures
        a.len() <= c.len(),
        c.take(a.len() as int) == a,
{
    assert(c.take(a.len() as int) =~= b.take(a.len() as int));
}

/// A run inside a blob names the same text in any extension of that blob.
proof fn lemma_run_stable(run: EncryptedRun, blob: Seq<u8>, longer: Seq<u8>)
    requires
        run.fits(blob.len()),
        blob.len() <= longer.len(),
        longer.take(blob.len() as int) == blob,
    ensures
        run.fits(longer.len()),
        run.bytes_in(longer) == run.bytes_in(blob),
        run_text(run, longer) == run_text(run, blob),
{
    assert(run.bytes_in(longer) =~= run.bytes_in(blob)) by {
        assert forall|k: int| 0 <= k < run.len implies #[trigger] run.bytes_in(longer)[k] == run.bytes_in(blob)[k] by {
            assert(longer.take(blob.len() as int)[run.start + k] == longer[run.start + k]);
        }
    }
}

/// Whether `text`'s bytes fit a `u32` offset range.
pub open spec fn text_fits_u32(text: &str) -> bool {
    text.spec_bytes().len() <= u32::MAX
}

/// Appends the ciphertext of `text` to `blob` and returns the run naming it.
pub fn encrypt_into(blob: &mut Vec<u8>, text: &str) -> (run: EncryptedRun)
    requires
        old(blob)@.len() + text.spec_bytes().len() <= u32::MAX,
    ensures
        final(blob)@.take(old(blob)@.len() as int) == old(blob)@,
        final(blob)@.len() == old(blob)@.len() + text.spec_bytes().len(),
        run.fits(final(blob)@.len()),
        run.start == old(blob)@.len(),
        run_text(run, final(blob)@) == text@,
{
    let seed = seed_of(text);
    let bytes = text.as_bytes();
    let start: usize = blob.len();
    let ghost before = blob@;
    let mut index: usize = 0;
    while index < bytes.len()
        invariant
            bytes@ == text.spec_bytes(),
            index <= bytes@.len(),
            start == before.len(),
            before.len() + bytes@.len() <= u32::MAX,
            blob@ == before + encrypted_bytes(bytes@, seed).take(index as int),
        decreases bytes.len() - index,
    {
        blob.push(scramble(bytes[index], seed, index));
        index = index + 1;
        assert(blob@ =~= before + encrypted_bytes(bytes@, seed).take(index as int));
    }
    assert(encrypted_bytes(bytes@, seed).take(bytes@.len() as int) =~= encrypted_bytes(bytes@, seed));
    let run = EncryptedRun::new(seed, start as u32, bytes.len() as u32);
    proof {
        assert(blob@.take(before.len() as int) =~= before);
        assert(run.bytes_in(blob@) =~= encrypted_bytes(text.spec_bytes(), seed));
        lemma_encrypt_then_decrypt(text@, seed);
    }
    run
}

} // verus!
