//! Character-offset slicing and placeholder replacement.

use medium_proxy::routes::{extract_post_id, Proxy};
use medium_proxy::strutil::{CharBound, StringUtils};

#[test]
fn substring_exact_ascii() {
    assert_eq!("hello world".substring(0, 5), "hello");
    assert_eq!("hello world".substring(6, 5), "world");
    assert_eq!("hello world".substring(0, 11), "hello world");
}

#[test]
fn substring_counts_code_points_not_bytes() {
    // every multi-byte character counts once
    assert_eq!("héllo wörld".substring(1, 4), "éllo");
    assert_eq!("日本語のテキスト".substring(3, 2), "のテ");
    assert_eq!("aé日b".substring(0, 4), "aé日b");
}

#[test]
fn substring_truncates_instead_of_failing() {
    assert_eq!("abc".substring(1, 10), "bc");
    assert_eq!("abc".substring(5, 2), "");
    assert_eq!("abc".substring(3, 0), "");
}

#[test]
fn slice_supports_both_end_conventions() {
    assert_eq!("abcdef".slice(1, CharBound::Excluded(4)), "bcd");
    assert_eq!("abcdef".slice(1, CharBound::Included(4)), "bcde");
    assert_eq!("abcdef".slice(2, CharBound::Unbounded), "cdef");
    // inverted or oversized ranges truncate, never fail
    assert_eq!("abcdef".slice(4, CharBound::Excluded(2)), "");
    assert_eq!("abcdef".slice(0, CharBound::Included(99)), "abcdef");
}

#[test]
fn routes_fill_in_placeholders() {
    let routes = Proxy::new();
    assert_eq!(routes.index, "/");
    assert_eq!(routes.by_post_id, "/utils/post/{post}");
    assert_eq!(
        routes.get_page("ftrain", "big-data-small-effort-b62607a43a8c"),
        "/ftrain/big-data-small-effort-b62607a43a8c"
    );
    assert_eq!(
        routes.get_medium_asset("1*LY2ohYsNa9nOV1Clko3zJA.png"),
        "/asset/medium/1*LY2ohYsNa9nOV1Clko3zJA.png"
    );
}

#[test]
fn extract_post_id_takes_last_dash_component() {
    assert_eq!(
        extract_post_id("big-data-small-effort-b62607a43a8c"),
        "b62607a43a8c"
    );
    assert_eq!(extract_post_id("noDashHere"), "noDashHere");
    assert_eq!(extract_post_id("trailing-"), "");
    assert_eq!(extract_post_id(""), "");
}
