//! Markup range resolution: wrapping tags, nesting, tie-breaks and
//! degradation on malformed ranges.

use medium_proxy::markup::{resolve_markup, MarkupKind, MarkupRange};

fn strip_tags(s: &str) -> String {
    let mut out = String::new();
    let mut inside = false;
    for c in s.chars() {
        if inside {
            if c == '>' {
                inside = false;
            }
        } else if c == '<' {
            inside = true;
        } else {
            out.push(c);
        }
    }
    out
}

fn range(kind: MarkupKind, start: usize, len: usize) -> MarkupRange {
    MarkupRange { kind, start, len }
}

#[test]
fn single_range_wraps_exact_span() {
    let ranges = vec![range(MarkupKind::Strong, 0, 5)];
    assert_eq!(resolve_markup("hello", &ranges), "<strong>hello</strong>");
    let ranges = vec![range(MarkupKind::Em, 6, 5)];
    assert_eq!(resolve_markup("hello world", &ranges), "hello <em>world</em>");
}

#[test]
fn link_range_carries_href() {
    let ranges = vec![range(MarkupKind::Link(String::from("https://example.com/x")), 2, 3)];
    assert_eq!(
        resolve_markup("a link here", &ranges),
        "a <a href=\"https://example.com/x\">lin</a>k here"
    );
}

#[test]
fn offsets_are_characters_not_bytes() {
    let ranges = vec![range(MarkupKind::Code, 1, 2)];
    assert_eq!(resolve_markup("é日本x", &ranges), "é<code>日本</code>x");
}

#[test]
fn nested_ranges_close_innermost_first() {
    let ranges = vec![
        range(MarkupKind::Strong, 0, 11),
        range(MarkupKind::Em, 6, 5),
    ];
    assert_eq!(
        resolve_markup("hello world", &ranges),
        "<strong>hello <em>world</em></strong>"
    );
}

#[test]
fn shared_start_nests_by_fixed_priority() {
    // equal start and length: the kind-priority table decides, links
    // outermost, and the given order never matters
    let a = vec![range(MarkupKind::Em, 0, 5), range(MarkupKind::Strong, 0, 5)];
    let b = vec![range(MarkupKind::Strong, 0, 5), range(MarkupKind::Em, 0, 5)];
    assert_eq!(resolve_markup("hello", &a), "<strong><em>hello</em></strong>");
    assert_eq!(resolve_markup("hello", &b), "<strong><em>hello</em></strong>");
    // equal start, different length: the longer range wraps outside
    let c = vec![range(MarkupKind::Em, 0, 3), range(MarkupKind::Strong, 0, 5)];
    assert_eq!(resolve_markup("hello", &c), "<strong><em>hel</em>lo</strong>");
}

#[test]
fn malformed_ranges_degrade_to_being_ignored() {
    // zero-length, out-of-bounds and improperly overlapping ranges drop,
    // the rest still applies
    let ranges = vec![
        range(MarkupKind::Strong, 0, 3),
        range(MarkupKind::Em, 2, 0),
        range(MarkupKind::Code, 4, 99),
        range(MarkupKind::Strike, 2, 3),
    ];
    assert_eq!(resolve_markup("abcdef", &ranges), "<strong>abc</strong>def");
}

#[test]
fn stripping_tags_round_trips_the_text() {
    let text = "hello world, here is a paragraph";
    let ranges = vec![
        range(MarkupKind::Strong, 0, 5),
        range(MarkupKind::Em, 6, 5),
        range(MarkupKind::Link(String::from("https://example.com")), 13, 4),
        range(MarkupKind::Code, 23, 9),
    ];
    let html = resolve_markup(text, &ranges);
    assert_ne!(html, text);
    assert_eq!(strip_tags(&html), text);
}

#[test]
fn empty_text_resolves_to_empty() {
    let ranges = vec![range(MarkupKind::Strong, 0, 1)];
    assert_eq!(resolve_markup("", &ranges), "");
    let none: Vec<MarkupRange> = Vec::new();
    assert_eq!(resolve_markup("plain", &none), "plain");
}
