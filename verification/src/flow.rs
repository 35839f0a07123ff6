//! The per-request decision flow: a request moves from received, to id
//! extracted, to either redirecting (light metadata fetched, redirect
//! emitted) or rendering (full post fetched, embeds fetched, document
//! assembled), to responded. The fetches themselves are outside work; the
//! functions here decide, from each fetch outcome, what happens next, so
//! that an unknown post answers not-found before any embed fetch is even
//! planned.

use vstd::prelude::*;
use vstd::string::*;

use crate::post::{embed_urls, embed_urls_spec, PostResp};
use crate::routes::{canonical_location, extract_post_id, post_id_of};

verus! {

/// Minimal ("light") post metadata: just enough to build the canonical
/// page path, deliberately cheaper than a full post fetch.
pub struct LightPost {
    pub username: String,
    pub slug: String,
}

/// The outcome of an upstream fetch: the value, a definite miss, or a
/// transport failure (a collaborator-signalled timeout counts as one).
pub enum Fetched<T> {
    Found(T),
    NotFound,
    TransportError,
}

/// The response a redirect request ends in.
pub enum RedirectDecision {
    /// Redirect permanently to this location.
    Redirect(String),
    /// The post id is unknown upstream: answer not-found.
    NotFoundPage,
    /// The upstream fetch failed: answer with a generic upstream error.
    UpstreamErrorPage,
}

/// What a post-page request does after the full-post fetch.
pub enum PostDecision {
    /// Fetch exactly the planned embed URLs, then assemble this post.
    Proceed(PostResp, Vec<String>),
    /// The post id is unknown upstream: answer not-found.
    RespondNotFound,
    /// The upstream fetch failed: answer with a generic upstream error.
    RespondUpstreamError,
}

/// The post id a page request works with, extracted from the slug path
/// segment; a segment that yields no usable id ends the request as a bad
/// request instead.
pub fn route_post_id(segment: &str) -> (r: Option<String>)
    ensures
        r is Some <==> post_id_of(segment@).len() > 0,
        r matches Some(id) ==> id@ == post_id_of(segment@),
{
    let id = extract_post_id(segment);
    if id.unicode_len() == 0 {
        None
    } else {
        Some(String::from_str(id))
    }
}

/// The redirecting path: from the light-metadata fetch outcome to the
/// response, the canonical location being `/@{username}/{slug}`.
pub fn redirect_decision(outcome: Fetched<LightPost>) -> (r: RedirectDecision)
    ensures
        outcome matches Fetched::Found(lp) ==> r matches RedirectDecision::Redirect(loc) && loc@
            == "/@"@ + lp.username@ + "/"@ + lp.slug@,
        outcome is NotFound <==> r is NotFoundPage,
        outcome is TransportError <==> r is UpstreamErrorPage,
{
    match outcome {
        Fetched::Found(lp) => RedirectDecision::Redirect(
            canonical_location(lp.username.as_str(), lp.slug.as_str()),
        ),
        Fetched::NotFound => RedirectDecision::NotFoundPage,
        Fetched::TransportError => RedirectDecision::UpstreamErrorPage,
    }
}

/// The rendering path: from the full-post fetch outcome to either the
/// embed fetch plan for that post or a terminal response. An unknown post
/// answers not-found with an empty plan: no embed fetch is ever issued for
/// it.
pub fn page_decision(outcome: Fetched<PostResp>) -> (r: PostDecision)
    ensures
        outcome matches Fetched::Found(p) ==> r matches PostDecision::Proceed(post, plan) && post
            == p && plan.deep_view() == embed_urls_spec(p.paragraphs@),
        outcome is NotFound <==> r is RespondNotFound,
        outcome is TransportError <==> r is RespondUpstreamError,
{
    match outcome {
        Fetched::Found(p) => {
            let plan = embed_urls(&p.paragraphs);
            PostDecision::Proceed(p, plan)
        },
        Fetched::NotFound => PostDecision::RespondNotFound,
        Fetched::TransportError => PostDecision::RespondUpstreamError,
    }
}

} // verus!
