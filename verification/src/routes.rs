//! Route resolution: the route templates the proxy serves, extraction of a
//! post id from a slug path segment, and the canonical page location a
//! non-canonical URL redirects to.

use vstd::prelude::*;
use vstd::string::*;

use crate::strutil::{replace, replace_all};

verus! {

/// The route templates of the proxy, with `{...}` placeholders.
pub struct Proxy {
    pub index: &'static str,
    pub by_post_id: &'static str,
    pub page: &'static str,
    pub asset: &'static str,
    pub top_level_post: &'static str,
}

impl Proxy {
    /// The fixed route table.
    pub fn new() -> (s: Self)
        ensures
            s.index@ == "/"@,
            s.by_post_id@ == "/utils/post/{post}"@,
            s.page@ == "/{username}/{post}"@,
            s.asset@ == "/asset/medium/{name}"@,
            s.top_level_post@ == "/{post}"@,
    {
        Self {
            index: "/",
            by_post_id: "/utils/post/{post}",
            page: "/{username}/{post}",
            asset: "/asset/medium/{name}",
            top_level_post: "/{post}",
        }
    }

    /// The page path for a username and post segment: the page route
    /// template with both placeholders filled in.
    pub fn get_page(&self, username: &str, post: &str) -> (r: String)
        ensures
            r@ == replace_all(
                replace_all(self.page@, "{username}"@, username@),
                "{post}"@,
                post@,
            ),
    {
        proof {
            reveal_strlit("{username}");
            reveal_strlit("{post}");
        }
        let t = replace(self.page, "{username}", username);
        replace(t.as_str(), "{post}", post)
    }

    /// The self-hosted path for an upstream asset name: the asset route
    /// template with the name filled in.
    pub fn get_medium_asset(&self, asset_name: &str) -> (r: String)
        ensures
            r@ == replace_all(self.asset@, "{name}"@, asset_name@),
    {
        proof {
            reveal_strlit("{name}");
        }
        replace(self.asset, "{name}", asset_name)
    }
}

/// The post id a slug path segment encodes: the text after the last `-`,
/// or the whole segment when it holds no `-`.
pub open spec fn post_id_of(s: Seq<char>) -> Seq<char>
    decreases s.len(),
{
    if s.len() == 0 {
        s
    } else if s.last() == '-' {
        Seq::empty()
    } else {
        post_id_of(s.drop_last()) + seq![s.last()]
    }
}

proof fn lemma_post_id_suffix(s: Seq<char>, i: int)
    requires
        0 <= i <= s.len(),
        forall|k: int| i <= k < s.len() ==> s[k] != '-',
        i > 0 ==> s[i - 1] == '-',
    ensures
        post_id_of(s) == s.subrange(i, s.len() as int),
    decreases s.len(),
{
    if i == s.len() {
        if i > 0 {
            assert(s.last() == '-');
            assert(post_id_of(s) =~= s.subrange(i, s.len() as int));
        } else {
            assert(s.len() == 0);
            assert(post_id_of(s) =~= s.subrange(i, s.len() as int));
        }
    } else {
        assert(s.last() != '-');
        let t = s.drop_last();
        assert(forall|k: int| i <= k < t.len() ==> t[k] == s[k]);
        if i > 0 {
            assert(t[i - 1] == s[i - 1]);
        }
        lemma_post_id_suffix(t, i);
        assert(post_id_of(s) == post_id_of(t) + seq![s.last()]);
        assert(post_id_of(t) + seq![s.last()] =~= s.subrange(i, s.len() as int));
    }
}

/// The post id encoded in a slug path segment: everything after the last
/// `-`, or the whole segment when no `-` occurs in it.
pub fn extract_post_id(segment: &str) -> (r: &str)
    ensures
        r@ == post_id_of(segment@),
{
    let n = segment.unicode_len();
    let mut i: usize = n;
    while i > 0 && segment.get_char(i - 1) != '-'
        invariant
            n == segment@.len(),
            0 <= i <= n,
            forall|k: int| i <= k < n ==> segment@[k] != '-',
        decreases i,
    {
        i -= 1;
    }
    proof {
        lemma_post_id_suffix(segment@, i as int);
    }
    segment.substring_char(i, n)
}

/// The canonical page path for a post: `/@{username}/{slug}`, the location a
/// non-canonical or id-only URL is redirected to.
pub fn canonical_location(username: &str, slug: &str) -> (r: String)
    ensures
        r@ == "/@"@ + username@ + "/"@ + slug@,
{
    let mut out = String::from_str("/@");
    out.append(username);
    out.append("/");
    out.append(slug);
    out
}

} // verus!
