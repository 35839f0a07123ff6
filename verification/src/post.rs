//! The post data model and the post assembler: turning an upstream post —
//! metadata, paragraphs, markup ranges and embed references — together with
//! the already-fetched embeds into a single render-ready document.
//!
//! Policy, fixed here: a missing preview image fails the assembly (the
//! upstream data is expected to carry one for every rendered post); a gist
//! embed whose fetched content was not handed in fails the assembly rather
//! than silently dropping the embed; a malformed markup range is recovered
//! by ignoring that one range.

use vstd::prelude::*;
use vstd::string::*;

use chrono::TimeZone;

use crate::markup::{spec_resolve_markup, resolve_markup, MarkupRange};
use crate::strutil::{contains_seq, contains_sub, str_eq};

verus! {

/// The type tag of a paragraph, a closed enumeration of the upstream
/// paragraph kinds the proxy renders.
pub enum ParagraphKind {
    /// Plain body text.
    Plain,
    /// A large heading.
    H3,
    /// A small heading.
    H4,
    /// A preformatted code block.
    Pre,
    /// An image; the reference data holds the asset name.
    Img,
    /// An embedded interactive resource; the reference data holds its URL.
    Iframe,
    /// Any other platform-specific kind, rendered as plain text.
    Other,
}

/// One paragraph of a post: its kind, its raw text, its markup ranges, and
/// the reference data a media or embed kind carries.
pub struct Paragraph {
    pub kind: ParagraphKind,
    pub text: String,
    pub markups: Vec<MarkupRange>,
    pub resource: Option<String>,
}

/// A fetched embed: the URL it came from and its rendered content.
pub struct ResolvedEmbed {
    pub url: String,
    pub content: String,
}

/// An upstream post as the content API reports it, with offsets already in
/// character units and the reading-time estimate in thousandths of a minute.
pub struct PostResp {
    pub id: String,
    pub username: String,
    pub slug: String,
    pub created_at: i64,
    pub reading_time: u64,
    pub preview_image: Option<String>,
    pub paragraphs: Vec<Paragraph>,
}

/// The render-ready document: the post plus every derived field the
/// template needs.
pub struct Post {
    pub data: PostResp,
    pub date: String,
    pub preview_img: String,
    pub reading_time: u64,
    pub id: String,
    pub gists: Option<Vec<ResolvedEmbed>>,
    pub paragraphs: Vec<String>,
}

/// Why an assembly failed; upstream fetch failures are decided before
/// assembly and so never reach it.
#[derive(Debug, PartialEq, Eq, Structural)]
pub enum AssembleError {
    /// The creation timestamp lies outside the representable date range.
    TimestampOutOfRange,
    /// The post carries no preview image, which the rendered page requires.
    MissingPreviewImage,
    /// A gist embed paragraph has no fetched content in the handed-in set.
    MissingEmbed,
}

/// A paragraph that requires an embed fetch: an embedded interactive
/// resource whose reference URL points at the supported gist host.
pub open spec fn is_gist_embed(p: Paragraph) -> bool {
    &&& p.kind is Iframe
    &&& p.resource is Some
    &&& contains_seq(p.resource->0@, "gist.github.com"@)
}

/// The URLs of all gist embed paragraphs, in paragraph order.
pub open spec fn embed_urls_spec(ps: Seq<Paragraph>) -> Seq<Seq<char>>
    decreases ps.len(),
{
    if ps.len() == 0 {
        Seq::empty()
    } else {
        let rest = embed_urls_spec(ps.drop_last());
        if is_gist_embed(ps.last()) {
            rest + seq![ps.last().resource->0@]
        } else {
            rest
        }
    }
}

/// How many paragraphs of `ps` require an embed fetch.
pub open spec fn gist_embed_count(ps: Seq<Paragraph>) -> int
    decreases ps.len(),
{
    if ps.len() == 0 {
        0int
    } else {
        gist_embed_count(ps.drop_last()) + if is_gist_embed(ps.last()) {
            1int
        } else {
            0int
        }
    }
}

/// The embed fetch plan for a post's paragraphs: one fetch per gist embed
/// paragraph, in order; a post without such paragraphs plans no fetch.
pub fn embed_urls(ps: &Vec<Paragraph>) -> (r: Vec<String>)
    ensures
        r.deep_view() == embed_urls_spec(ps@),
{
    let mut r: Vec<String> = Vec::new();
    let mut i: usize = 0;
    proof {
        assert(ps@.take(0) =~= Seq::<Paragraph>::empty());
        assert(r.deep_view() =~= embed_urls_spec(ps@.take(0)));
    }
    while i < ps.len()
        invariant
            0 <= i <= ps@.len(),
            r.deep_view() == embed_urls_spec(ps@.take(i as int)),
        decreases ps@.len() - i,
    {
        let p = &ps[i];
        let is_embed = match p.kind {
            ParagraphKind::Iframe => match &p.resource {
                Some(url) => contains_sub(url.as_str(), "gist.github.com"),
                None => false,
            },
            _ => false,
        };
        if is_embed {
            let url = match &p.resource {
                Some(url) => url.clone(),
                None => String::new(),
            };
            r.push(url);
        }
        proof {
            assert(ps@.take(i + 1).drop_last() =~= ps@.take(i as int));
            assert(ps@.take(i + 1).last() == ps@[i as int]);
            if is_gist_embed(ps@[i as int]) {
                assert(r.deep_view() =~= embed_urls_spec(ps@.take(i as int)) + seq![ps@[i as
                    int].resource->0@]);
            }
        }
        i += 1;
    }
    proof {
        assert(ps@.take(ps@.len() as int) =~= ps@);
    }
    r
}

/// The fetch plan is exactly one fetch per gist embed paragraph: a post
/// with none plans no fetch at all, and a post with some plans one per such
/// paragraph, never more and never fewer.
pub proof fn lemma_embed_fanout(ps: Seq<Paragraph>)
    ensures
        embed_urls_spec(ps).len() == gist_embed_count(ps),
        embed_urls_spec(ps).len() == 0 <==> (forall|i: int|
            0 <= i < ps.len() ==> !is_gist_embed(#[trigger] ps[i])),
    decreases ps.len(),
{
    if ps.len() == 0 {
    } else {
        lemma_embed_fanout(ps.drop_last());
        assert(forall|i: int| 0 <= i < ps.len() - 1 ==> ps.drop_last()[i] == #[trigger] ps[i]);
        if gist_embed_count(ps) == 0 {
            assert(!is_gist_embed(ps.last()));
            assert(forall|i: int| 0 <= i < ps.len() ==> !is_gist_embed(#[trigger] ps[i]));
        }
    }
}

/// The content the handed-in embeds hold for a URL: the first entry whose
/// URL matches.
pub open spec fn embed_lookup(embeds: Seq<ResolvedEmbed>, url: Seq<char>) -> Option<Seq<char>>
    decreases embeds.len(),
{
    if embeds.len() == 0 {
        None
    } else if embeds[0].url@ == url {
        Some(embeds[0].content@)
    } else {
        embed_lookup(embeds.drop_first(), url)
    }
}

/// The fetched content for `url` out of the handed-in embeds, if any.
fn lookup_embed(embeds: &Vec<ResolvedEmbed>, url: &str) -> (r: Option<String>)
    ensures
        r is Some <==> embed_lookup(embeds@, url@) is Some,
        r matches Some(c) ==> embed_lookup(embeds@, url@) == Some(c@),
{
    let mut i: usize = 0;
    proof {
        assert(embeds@.skip(0) =~= embeds@);
    }
    while i < embeds.len()
        invariant
            0 <= i <= embeds@.len(),
            embed_lookup(embeds@.skip(i as int), url@) == embed_lookup(embeds@, url@),
        decreases embeds@.len() - i,
    {
        let ghost rest = embeds@.skip(i as int);
        assert(rest[0] == embeds@[i as int]);
        if str_eq(embeds[i].url.as_str(), url) {
            return Some(embeds[i].content.clone());
        }
        proof {
            assert(rest.drop_first() =~= embeds@.skip(i + 1));
        }
        i += 1;
    }
    proof {
        assert(embeds@.skip(embeds@.len() as int) =~= Seq::<ResolvedEmbed>::empty());
    }
    None
}

/// The rendered HTML fragment of one paragraph, or nothing when it is a
/// gist embed whose content is not in the handed-in set.
pub open spec fn fragment_of(p: Paragraph, embeds: Seq<ResolvedEmbed>) -> Option<Seq<char>> {
    match p.kind {
        ParagraphKind::Iframe => if is_gist_embed(p) {
            embed_lookup(embeds, p.resource->0@)
        } else {
            Some(Seq::empty())
        },
        ParagraphKind::Img => match p.resource {
            Some(name) => Some("<img src=\"/asset/medium/"@ + name@ + "\">"@),
            None => Some(Seq::empty()),
        },
        ParagraphKind::H3 => Some("<h3>"@ + spec_resolve_markup(p.text@, p.markups@) + "</h3>"@),
        ParagraphKind::H4 => Some("<h4>"@ + spec_resolve_markup(p.text@, p.markups@) + "</h4>"@),
        ParagraphKind::Pre => Some("<pre>"@ + spec_resolve_markup(p.text@, p.markups@) + "</pre>"@),
        _ => Some("<p>"@ + spec_resolve_markup(p.text@, p.markups@) + "</p>"@),
    }
}

/// A paragraph's markup-resolved text wrapped in the given enclosing tags.
fn wrapped_fragment(open: &str, p: &Paragraph, close: &str) -> (r: String)
    ensures
        r@ == open@ + spec_resolve_markup(p.text@, p.markups@) + close@,
{
    let mut s = String::from_str(open);
    let body = resolve_markup(p.text.as_str(), &p.markups);
    s.append(body.as_str());
    s.append(close);
    s
}

/// The rendered HTML fragment of one paragraph: embeds become their fetched
/// content, images an asset-proxy tag, and text kinds their markup-resolved
/// text in the enclosing tag of their kind.
pub fn render_paragraph(p: &Paragraph, embeds: &Vec<ResolvedEmbed>) -> (r: Result<
    String,
    AssembleError,
>)
    ensures
        fragment_of(*p, embeds@) matches Some(f) ==> r matches Ok(s) && s@ == f,
        fragment_of(*p, embeds@) is None ==> r == Err::<String, AssembleError>(
            AssembleError::MissingEmbed,
        ),
{
    match p.kind {
        ParagraphKind::Iframe => {
            let is_embed = match &p.resource {
                Some(url) => contains_sub(url.as_str(), "gist.github.com"),
                None => false,
            };
            if is_embed {
                let url = match &p.resource {
                    Some(url) => url.as_str(),
                    None => "",
                };
                match lookup_embed(embeds, url) {
                    Some(c) => Ok(c),
                    None => Err(AssembleError::MissingEmbed),
                }
            } else {
                Ok(String::new())
            }
        },
        ParagraphKind::Img => match &p.resource {
            Some(name) => {
                let mut s = String::from_str("<img src=\"/asset/medium/");
                s.append(name.as_str());
                s.append("\">");
                Ok(s)
            },
            None => Ok(String::new()),
        },
        ParagraphKind::H3 => Ok(wrapped_fragment("<h3>", p, "</h3>")),
        ParagraphKind::H4 => Ok(wrapped_fragment("<h4>", p, "</h4>")),
        ParagraphKind::Pre => Ok(wrapped_fragment("<pre>", p, "</pre>")),
        ParagraphKind::Plain => Ok(wrapped_fragment("<p>", p, "</p>")),
        ParagraphKind::Other => Ok(wrapped_fragment("<p>", p, "</p>")),
    }
}

/// The rendered fragments of all paragraphs, or nothing as soon as any one
/// paragraph has none: partial renderings are never produced.
pub open spec fn fragments_of(ps: Seq<Paragraph>, embeds: Seq<ResolvedEmbed>) -> Option<
    Seq<Seq<char>>,
>
    decreases ps.len(),
{
    if ps.len() == 0 {
        Some(Seq::empty())
    } else {
        match fragments_of(ps.drop_last(), embeds) {
            None => None,
            Some(fs) => match fragment_of(ps.last(), embeds) {
                None => None,
                Some(f) => Some(fs + seq![f]),
            },
        }
    }
}

proof fn lemma_fragments_none(ps: Seq<Paragraph>, embeds: Seq<ResolvedEmbed>, i: int)
    requires
        0 <= i < ps.len(),
        fragment_of(ps[i], embeds) is None,
    ensures
        fragments_of(ps, embeds) is None,
    decreases ps.len(),
{
    if i == ps.len() - 1 {
    } else {
        assert(ps.drop_last()[i] == ps[i]);
        lemma_fragments_none(ps.drop_last(), embeds, i);
    }
}

/// The rendered fragments of every paragraph, in order, against the
/// handed-in embeds; fails rather than render a partial document.
pub fn render_paragraphs(ps: &Vec<Paragraph>, embeds: &Vec<ResolvedEmbed>) -> (r: Result<
    Vec<String>,
    AssembleError,
>)
    ensures
        fragments_of(ps@, embeds@) matches Some(fs) ==> r matches Ok(v) && v.deep_view() == fs,
        fragments_of(ps@, embeds@) is None ==> r == Err::<Vec<String>, AssembleError>(
            AssembleError::MissingEmbed,
        ),
{
    let mut out: Vec<String> = Vec::new();
    let mut i: usize = 0;
    proof {
        assert(ps@.take(0) =~= Seq::<Paragraph>::empty());
        assert(out.deep_view() =~= Seq::<Seq<char>>::empty());
    }
    while i < ps.len()
        invariant
            0 <= i <= ps@.len(),
            fragments_of(ps@.take(i as int), embeds@) == Some(out.deep_view()),
        decreases ps@.len() - i,
    {
        match render_paragraph(&ps[i], embeds) {
            Ok(f) => {
                out.push(f);
            },
            Err(e) => {
                proof {
                    lemma_fragments_none(ps@, embeds@, i as int);
                }
                return Err(e);
            },
        }
        proof {
            assert(ps@.take(i + 1).drop_last() =~= ps@.take(i as int));
            assert(ps@.take(i + 1).last() == ps@[i as int]);
            assert(out.deep_view() =~= fragments_of(ps@.take(i as int), embeds@)->0 + seq![
                out.deep_view().last()]);
        }
        i += 1;
    }
    proof {
        assert(ps@.take(ps@.len() as int) =~= ps@);
    }
    Ok(out)
}

/// What formatting the creation timestamp yields: the fixed, locale-free
/// rendering of the UTC date for this many milliseconds since the epoch, or
/// nothing when the value lies outside the representable date range.
pub uninterp spec fn date_str_opt(millis: int) -> Option<Seq<char>>;

/// Relies on chrono: `Utc.timestamp_millis_opt` yields a single UTC
/// date-time for every in-range milliseconds value and `None` past the
/// range, and formatting it with the fixed pattern `"%b %e, %Y"` (English
/// month names built in) depends on the milliseconds alone.
#[verifier::external_body]
fn format_post_date(millis: i64) -> (r: Option<String>)
    ensures
        r is Some <==> date_str_opt(millis as int) is Some,
        r matches Some(d) ==> date_str_opt(millis as int) == Some(d@),
{
    match chrono::Utc.timestamp_millis_opt(millis).single() {
        Some(dt) => Some(dt.format("%b %e, %Y").to_string()),
        None => None,
    }
}

/// The self-hosted asset-proxy path for an upstream asset name.
pub fn medium_asset_url(name: &str) -> (r: String)
    ensures
        r@ == "/asset/medium/"@ + name@,
{
    let mut s = String::from_str("/asset/medium/");
    s.append(name);
    s
}

/// Assembles the render-ready document for a post: formatted date, floored
/// reading time, preview asset path, and per-paragraph HTML fragments with
/// the handed-in embeds threaded in. Fails, rather than degrade, on a
/// timestamp out of the representable range, a missing preview image, or a
/// gist embed without fetched content.
pub fn assemble(id: &str, post: PostResp, embeds: Vec<ResolvedEmbed>) -> (r: Result<
    Post,
    AssembleError,
>)
    ensures
        r is Ok <==> (date_str_opt(post.created_at as int) is Some && post.preview_image is Some
            && fragments_of(post.paragraphs@, embeds@) is Some),
        r == Err::<Post, AssembleError>(AssembleError::TimestampOutOfRange) <==> date_str_opt(
            post.created_at as int,
        ) is None,
        r == Err::<Post, AssembleError>(AssembleError::MissingPreviewImage) <==> (date_str_opt(
            post.created_at as int,
        ) is Some && post.preview_image is None),
        r == Err::<Post, AssembleError>(AssembleError::MissingEmbed) <==> (date_str_opt(
            post.created_at as int,
        ) is Some && post.preview_image is Some && fragments_of(post.paragraphs@, embeds@)
            is None),
        r matches Ok(doc) ==> {
            &&& doc.id@ == id@
            &&& doc.data == post
            &&& Some(doc.date@) == date_str_opt(post.created_at as int)
            &&& doc.reading_time == post.reading_time / 1000
            &&& doc.preview_img@ == "/asset/medium/"@ + post.preview_image->0@
            &&& Some(doc.paragraphs.deep_view()) == fragments_of(post.paragraphs@, embeds@)
            &&& (doc.gists is None <==> embed_urls_spec(post.paragraphs@).len() == 0)
            &&& (doc.gists matches Some(g) ==> g == embeds)
        },
{
    let date = match format_post_date(post.created_at) {
        Some(d) => d,
        None => {
            return Err(AssembleError::TimestampOutOfRange);
        },
    };
    let preview_img = match &post.preview_image {
        Some(name) => medium_asset_url(name.as_str()),
        None => {
            return Err(AssembleError::MissingPreviewImage);
        },
    };
    let paragraphs = match render_paragraphs(&post.paragraphs, &embeds) {
        Ok(v) => v,
        Err(e) => {
            return Err(e);
        },
    };
    let plan = embed_urls(&post.paragraphs);
    let gists = if plan.len() == 0 {
        None
    } else {
        Some(embeds)
    };
    let reading_time = post.reading_time / 1000;
    Ok(
        Post {
            id: String::from_str(id),
            data: post,
            date,
            preview_img,
            reading_time,
            gists,
            paragraphs,
        },
    )
}

} // verus!
