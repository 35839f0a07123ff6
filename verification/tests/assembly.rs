//! Post assembly: embed planning and fan-out, date and reading time
//! derivation, preview resolution, and the failure policy.

use medium_proxy::flow::{page_decision, redirect_decision, route_post_id, Fetched, LightPost, PostDecision, RedirectDecision};
use medium_proxy::post::{assemble, embed_urls, medium_asset_url, AssembleError, Paragraph, ParagraphKind, PostResp, ResolvedEmbed};
use medium_proxy::markup::{MarkupKind, MarkupRange};

fn expect_err(r: Result<medium_proxy::post::Post, AssembleError>) -> AssembleError {
    match r {
        Err(e) => e,
        Ok(_) => panic!("expected an error"),
    }
}

fn text_paragraph(kind: ParagraphKind, text: &str, markups: Vec<MarkupRange>) -> Paragraph {
    Paragraph { kind, text: String::from(text), markups, resource: None }
}

fn iframe_paragraph(url: &str) -> Paragraph {
    Paragraph {
        kind: ParagraphKind::Iframe,
        text: String::new(),
        markups: Vec::new(),
        resource: Some(String::from(url)),
    }
}

fn fixture_post(paragraphs: Vec<Paragraph>) -> PostResp {
    PostResp {
        id: String::from("7158b1cdd50c"),
        username: String::from("tylerneely"),
        slug: String::from("fear-and-loathing-in-lock-free-programming-7158b1cdd50c"),
        created_at: 1431648000000,
        reading_time: 5500,
        preview_image: Some(String::from("1*LY2ohYsNa9nOV1Clko3zJA.png")),
        paragraphs,
    }
}

const GIST_URL: &str = "https://gist.github.com/spacejam/1122a3c4bd69a4f21b5fc85a6b712b5b";

fn gist_embed() -> ResolvedEmbed {
    ResolvedEmbed {
        url: String::from(GIST_URL),
        content: String::from("<div>gist content</div>"),
    }
}

#[test]
fn assemble_builds_the_full_document() {
    let paragraphs = vec![
        text_paragraph(ParagraphKind::H3, "Title", Vec::new()),
        text_paragraph(
            ParagraphKind::Plain,
            "hello world",
            vec![MarkupRange { kind: MarkupKind::Strong, start: 0, len: 5 }],
        ),
        iframe_paragraph(GIST_URL),
    ];
    let doc = assemble("7158b1cdd50c", fixture_post(paragraphs), vec![gist_embed()]).unwrap();
    assert_eq!(doc.id, "7158b1cdd50c");
    assert_eq!(doc.date, "May 15, 2015");
    assert_eq!(doc.reading_time, 5);
    assert_eq!(doc.preview_img, "/asset/medium/1*LY2ohYsNa9nOV1Clko3zJA.png");
    assert_eq!(
        doc.paragraphs,
        vec![
            String::from("<h3>Title</h3>"),
            String::from("<p><strong>hello</strong> world</p>"),
            String::from("<div>gist content</div>"),
        ]
    );
    let gists = doc.gists.unwrap();
    assert_eq!(gists.len(), 1);
    assert_eq!(gists[0].url, GIST_URL);
}

#[test]
fn assemble_without_embed_paragraphs_plans_no_fetch() {
    let paragraphs = vec![text_paragraph(ParagraphKind::Plain, "just text", Vec::new())];
    assert_eq!(embed_urls(&paragraphs).len(), 0);
    let doc = assemble("id", fixture_post(paragraphs), Vec::new()).unwrap();
    assert!(doc.gists.is_none());
}

#[test]
fn embed_plan_is_one_fetch_per_gist_paragraph() {
    let other_iframe = iframe_paragraph("https://www.example.com/embed/123");
    let paragraphs = vec![
        iframe_paragraph(GIST_URL),
        text_paragraph(ParagraphKind::Plain, "between", Vec::new()),
        other_iframe,
        iframe_paragraph("https://gist.github.com/other/abc"),
    ];
    let plan = embed_urls(&paragraphs);
    assert_eq!(
        plan,
        vec![
            String::from(GIST_URL),
            String::from("https://gist.github.com/other/abc"),
        ]
    );
}

#[test]
fn missing_embed_content_fails_the_assembly() {
    // the policy: a gist paragraph without fetched content fails the whole
    // request rather than silently dropping the embed
    let paragraphs = vec![iframe_paragraph(GIST_URL)];
    let r = assemble("id", fixture_post(paragraphs), Vec::new());
    assert_eq!(expect_err(r), AssembleError::MissingEmbed);
}

#[test]
fn missing_preview_image_fails_the_assembly() {
    let mut post = fixture_post(Vec::new());
    post.preview_image = None;
    let r = assemble("id", post, Vec::new());
    assert_eq!(expect_err(r), AssembleError::MissingPreviewImage);
}

#[test]
fn out_of_range_timestamp_fails_the_assembly() {
    let mut post = fixture_post(Vec::new());
    post.created_at = i64::MAX;
    let r = assemble("id", post, Vec::new());
    assert_eq!(expect_err(r), AssembleError::TimestampOutOfRange);
}

#[test]
fn date_formatting_pads_single_digit_days() {
    let mut post = fixture_post(Vec::new());
    post.created_at = 1609459200000;
    let doc = assemble("id", post, Vec::new()).unwrap();
    assert_eq!(doc.date, "Jan  1, 2021");
}

#[test]
fn reading_time_floors_the_estimate() {
    let mut post = fixture_post(Vec::new());
    post.reading_time = 2999;
    let doc = assemble("id", post, Vec::new()).unwrap();
    assert_eq!(doc.reading_time, 2);
}

#[test]
fn asset_urls_use_the_proxy_route() {
    assert_eq!(medium_asset_url("x.png"), "/asset/medium/x.png");
}

#[test]
fn image_paragraphs_render_as_proxied_images() {
    let p = Paragraph {
        kind: ParagraphKind::Img,
        text: String::new(),
        markups: Vec::new(),
        resource: Some(String::from("pic.png")),
    };
    let doc = assemble("id", fixture_post(vec![p]), Vec::new()).unwrap();
    assert_eq!(doc.paragraphs, vec![String::from("<img src=\"/asset/medium/pic.png\">")]);
}

#[test]
fn redirect_decision_builds_the_canonical_location() {
    let light = LightPost {
        username: String::from("tylerneely"),
        slug: String::from("fear-and-loathing-in-lock-free-programming-7158b1cdd50c"),
    };
    match redirect_decision(Fetched::Found(light)) {
        RedirectDecision::Redirect(loc) => assert_eq!(
            loc,
            "/@tylerneely/fear-and-loathing-in-lock-free-programming-7158b1cdd50c"
        ),
        _ => panic!("expected a redirect"),
    }
    assert!(matches!(
        redirect_decision(Fetched::NotFound),
        RedirectDecision::NotFoundPage
    ));
    assert!(matches!(
        redirect_decision(Fetched::TransportError),
        RedirectDecision::UpstreamErrorPage
    ));
}

#[test]
fn unknown_post_answers_not_found_with_no_embed_fetches() {
    // not-found is decided before any embed plan exists, so no fetch is
    // ever issued for an unknown id
    assert!(matches!(
        page_decision(Fetched::NotFound),
        PostDecision::RespondNotFound
    ));
    assert!(matches!(
        page_decision(Fetched::TransportError),
        PostDecision::RespondUpstreamError
    ));
}

#[test]
fn found_post_proceeds_with_its_exact_embed_plan() {
    let post = fixture_post(vec![
        iframe_paragraph(GIST_URL),
        text_paragraph(ParagraphKind::Plain, "x", Vec::new()),
    ]);
    match page_decision(Fetched::Found(post)) {
        PostDecision::Proceed(post, plan) => {
            assert_eq!(post.id, "7158b1cdd50c");
            assert_eq!(plan, vec![String::from(GIST_URL)]);
        },
        _ => panic!("expected to proceed to rendering"),
    }
}

#[test]
fn route_post_id_rejects_segments_without_a_usable_id() {
    assert_eq!(route_post_id("fear-and-loathing-7158b1cdd50c").unwrap(), "7158b1cdd50c");
    assert_eq!(route_post_id("7158b1cdd50c").unwrap(), "7158b1cdd50c");
    assert!(route_post_id("").is_none());
    assert!(route_post_id("trailing-").is_none());
}
