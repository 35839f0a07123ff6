//! The markup range resolver: maps offset-based markup ranges over a
//! paragraph's text into wrapping HTML tags around the exact character spans
//! they cover.
//!
//! Policy, fixed here so output is reproducible:
//! - a range is malformed, and silently ignored, when it is empty, runs past
//!   the end of the text, or overlaps an earlier accepted range without
//!   nesting cleanly inside or around it;
//! - accepted ranges are ordered by start offset; at an equal start the
//!   longer range wraps outside, and at an equal start and length the fixed
//!   kind-priority table `markup_priority` (links outermost, then code,
//!   emphasis kinds, strikethrough) decides the nesting order;
//! - tags close innermost-first, standard stack discipline.

use vstd::prelude::*;
use vstd::string::*;

verus! {

/// The kind of a markup range; a link carries its target.
pub enum MarkupKind {
    Strong,
    Em,
    Code,
    Strike,
    Link(String),
}

/// An offset-delimited span of rich-text formatting over a paragraph's
/// text, counted in characters.
pub struct MarkupRange {
    pub kind: MarkupKind,
    pub start: usize,
    pub len: usize,
}

/// One past the last character position a range covers.
pub open spec fn range_end(r: MarkupRange) -> int {
    r.start + r.len
}

/// A range that can be applied to a text of `n` characters: non-empty and
/// within bounds.
pub open spec fn valid_range(n: int, r: MarkupRange) -> bool {
    r.len > 0 && r.start + r.len <= n
}

/// The fixed nesting priority of a markup kind at an equal start and
/// length: smaller wraps outside.
pub open spec fn markup_priority(k: MarkupKind) -> int {
    match k {
        MarkupKind::Link(_) => 0,
        MarkupKind::Code => 1,
        MarkupKind::Strong => 2,
        MarkupKind::Em => 3,
        MarkupKind::Strike => 4,
    }
}

/// The deterministic nesting order: by start, then longer first, then by
/// kind priority; ranges equal in all three keep their given order.
pub open spec fn key_lt(a: MarkupRange, b: MarkupRange) -> bool {
    ||| a.start < b.start
    ||| (a.start == b.start && a.len > b.len)
    ||| (a.start == b.start && a.len == b.len && markup_priority(a.kind) < markup_priority(b.kind))
}

/// Two ranges that nest cleanly or do not touch at all.
pub open spec fn compat(a: MarkupRange, b: MarkupRange) -> bool {
    ||| range_end(a) <= b.start
    ||| range_end(b) <= a.start
    ||| (a.start <= b.start && range_end(b) <= range_end(a))
    ||| (b.start <= a.start && range_end(a) <= range_end(b))
}

/// `r` nests cleanly with every range already accepted.
pub open spec fn compat_all(acc: Seq<MarkupRange>, r: MarkupRange) -> bool {
    forall|j: int| 0 <= j < acc.len() ==> compat(#[trigger] acc[j], r)
}

/// `r` placed into `acc` just after the accepted ranges it does not
/// precede in the nesting order.
pub open spec fn spec_insert(acc: Seq<MarkupRange>, r: MarkupRange) -> Seq<MarkupRange>
    decreases acc.len(),
{
    if acc.len() == 0 {
        seq![r]
    } else if key_lt(r, acc[0]) {
        seq![r] + acc
    } else {
        seq![acc[0]] + spec_insert(acc.drop_first(), r)
    }
}

/// The accepted ranges after working through `rs` in order, starting from
/// the already-accepted `acc`.
pub open spec fn spec_accept_from(n: int, rs: Seq<MarkupRange>, acc: Seq<MarkupRange>) -> Seq<
    MarkupRange,
>
    decreases rs.len(),
{
    if rs.len() == 0 {
        acc
    } else {
        let step = if valid_range(n, rs[0]) && compat_all(acc, rs[0]) {
            spec_insert(acc, rs[0])
        } else {
            acc
        };
        spec_accept_from(n, rs.drop_first(), step)
    }
}

/// The ranges of `rs` that apply to a text of `n` characters, in nesting
/// order: malformed and improperly overlapping ranges are dropped.
pub open spec fn spec_accept(n: int, rs: Seq<MarkupRange>) -> Seq<MarkupRange> {
    spec_accept_from(n, rs, Seq::empty())
}

/// The opening tag a markup kind produces.
pub open spec fn open_seq(k: MarkupKind) -> Seq<char> {
    match k {
        MarkupKind::Strong => "<strong>"@,
        MarkupKind::Em => "<em>"@,
        MarkupKind::Code => "<code>"@,
        MarkupKind::Strike => "<s>"@,
        MarkupKind::Link(href) => "<a href=\""@ + href@ + "\">"@,
    }
}

/// The closing tag a markup kind produces.
pub open spec fn close_seq(k: MarkupKind) -> Seq<char> {
    match k {
        MarkupKind::Strong => "</strong>"@,
        MarkupKind::Em => "</em>"@,
        MarkupKind::Code => "</code>"@,
        MarkupKind::Strike => "</s>"@,
        MarkupKind::Link(_) => "</a>"@,
    }
}

/// The closing tags due at position `i` from the accepted ranges with index
/// below `j`, innermost (highest index) first.
pub open spec fn closes_hi(acc: Seq<MarkupRange>, i: int, j: int) -> Seq<char>
    decreases acc.len() - j,
{
    if j < 0 || j >= acc.len() {
        Seq::empty()
    } else {
        closes_hi(acc, i, j + 1) + if range_end(acc[j]) == i {
            close_seq(acc[j].kind)
        } else {
            Seq::empty()
        }
    }
}

/// All closing tags due at position `i`, innermost first.
pub open spec fn closes_at(acc: Seq<MarkupRange>, i: int) -> Seq<char> {
    closes_hi(acc, i, 0)
}

/// The opening tags due at position `i` from the accepted ranges with index
/// at least `j`, outermost (lowest index) first.
pub open spec fn opens_lo(acc: Seq<MarkupRange>, i: int, j: int) -> Seq<char>
    decreases acc.len() - j,
{
    if j < 0 || j >= acc.len() {
        Seq::empty()
    } else {
        (if acc[j].start == i {
            open_seq(acc[j].kind)
        } else {
            Seq::empty()
        }) + opens_lo(acc, i, j + 1)
    }
}

/// All opening tags due at position `i`, outermost first.
pub open spec fn opens_at(acc: Seq<MarkupRange>, i: int) -> Seq<char> {
    opens_lo(acc, i, 0)
}

/// The rendered form of the first `i` characters of the text: at each
/// position the closing tags due there, then the opening tags, then the
/// character itself.
pub open spec fn resolve_upto(text: Seq<char>, acc: Seq<MarkupRange>, i: int) -> Seq<char>
    decreases i,
{
    if i <= 0 {
        Seq::empty()
    } else {
        resolve_upto(text, acc, i - 1) + closes_at(acc, i - 1) + opens_at(acc, i - 1)
            + seq![text[i - 1]]
    }
}

/// The fully rendered text under the accepted ranges `acc`.
pub open spec fn spec_resolve(text: Seq<char>, acc: Seq<MarkupRange>) -> Seq<char> {
    resolve_upto(text, acc, text.len() as int) + closes_at(acc, text.len() as int)
}

/// The rendered form of `text` under the markup ranges `rs`: the accepted
/// ranges wrap their exact character spans in tags.
pub open spec fn spec_resolve_markup(text: Seq<char>, rs: Seq<MarkupRange>) -> Seq<char> {
    spec_resolve(text, spec_accept(text.len() as int, rs))
}

/// An identical copy of a markup range.
fn dup_range(r: &MarkupRange) -> (c: MarkupRange)
    ensures
        c == *r,
{
    let kind = match &r.kind {
        MarkupKind::Strong => MarkupKind::Strong,
        MarkupKind::Em => MarkupKind::Em,
        MarkupKind::Code => MarkupKind::Code,
        MarkupKind::Strike => MarkupKind::Strike,
        MarkupKind::Link(href) => MarkupKind::Link(href.clone()),
    };
    MarkupRange { kind, start: r.start, len: r.len }
}

/// The nesting priority of a markup kind, as `markup_priority` fixes it.
fn priority_of(k: &MarkupKind) -> (p: u8)
    ensures
        p as int == markup_priority(*k),
{
    match k {
        MarkupKind::Link(_) => 0,
        MarkupKind::Code => 1,
        MarkupKind::Strong => 2,
        MarkupKind::Em => 3,
        MarkupKind::Strike => 4,
    }
}

/// Does `a` precede `b` in the nesting order?
fn key_lt_exec(a: &MarkupRange, b: &MarkupRange) -> (r: bool)
    ensures
        r == key_lt(*a, *b),
{
    if a.start < b.start {
        true
    } else if a.start == b.start && a.len > b.len {
        true
    } else if a.start == b.start && a.len == b.len {
        priority_of(&a.kind) < priority_of(&b.kind)
    } else {
        false
    }
}

/// Does `r` nest cleanly with every range in `acc`?
fn compat_all_exec(acc: &Vec<MarkupRange>, r: &MarkupRange) -> (res: bool)
    requires
        forall|j: int| 0 <= j < acc@.len() ==> range_end(#[trigger] acc@[j]) <= usize::MAX,
        range_end(*r) <= usize::MAX,
    ensures
        res == compat_all(acc@, *r),
{
    let r_end = r.start + r.len;
    let mut j: usize = 0;
    while j < acc.len()
        invariant
            forall|k: int| 0 <= k < acc@.len() ==> range_end(#[trigger] acc@[k]) <= usize::MAX,
            r_end == range_end(*r),
            0 <= j <= acc@.len(),
            forall|k: int| 0 <= k < j ==> compat(#[trigger] acc@[k], *r),
        decreases acc@.len() - j,
    {
        let a = &acc[j];
        let a_end = a.start + a.len;
        let ok = a_end <= r.start || r_end <= a.start || (a.start <= r.start && r_end <= a_end) || (
        r.start <= a.start && a_end <= r_end);
        if !ok {
            return false;
        }
        j += 1;
    }
    true
}

proof fn lemma_insert_at(acc: Seq<MarkupRange>, r: MarkupRange, j: int)
    requires
        0 <= j <= acc.len(),
        forall|k: int| 0 <= k < j ==> !key_lt(r, #[trigger] acc[k]),
        j < acc.len() ==> key_lt(r, acc[j]),
    ensures
        spec_insert(acc, r) == acc.insert(j, r),
    decreases acc.len(),
{
    if acc.len() == 0 {
        assert(spec_insert(acc, r) =~= acc.insert(0, r));
    } else if j == 0 && key_lt(r, acc[0]) {
        assert(spec_insert(acc, r) =~= acc.insert(0, r));
    } else {
        assert(j > 0);
        let t = acc.drop_first();
        assert(forall|k: int| 0 <= k < j - 1 ==> !key_lt(r, #[trigger] t[k]));
        lemma_insert_at(t, r, j - 1);
        assert(seq![acc[0]] + t.insert(j - 1, r) =~= acc.insert(j, r));
    }
}

/// `r` placed at its nesting-order position in the accepted ranges.
fn insert_sorted(acc: &mut Vec<MarkupRange>, r: MarkupRange)
    ensures
        final(acc)@ == spec_insert(old(acc)@, r),
        forall|k: int|
            0 <= k < final(acc)@.len() ==> (final(acc)@[k] == r || old(acc)@.contains(
                #[trigger] final(acc)@[k],
            )),
{
    let mut j: usize = 0;
    while j < acc.len() && !key_lt_exec(&r, &acc[j])
        invariant
            0 <= j <= acc@.len(),
            forall|k: int| 0 <= k < j ==> !key_lt(r, #[trigger] acc@[k]),
        decreases acc@.len() - j,
    {
        j += 1;
    }
    proof {
        lemma_insert_at(acc@, r, j as int);
    }
    acc.insert(j, r);
    proof {
        assert(forall|k: int|
            0 <= k < acc@.len() ==> (acc@[k] == r || exists|m: int|
                0 <= m < old(acc)@.len() && old(acc)@[m] == #[trigger] acc@[k]));
    }
}

/// The accepted ranges of `rs` against a text of `n` characters, in
/// nesting order; malformed or improperly overlapping ranges are dropped.
pub fn accept_ranges(n: usize, rs: &Vec<MarkupRange>) -> (acc: Vec<MarkupRange>)
    ensures
        acc@ == spec_accept(n as int, rs@),
        forall|k: int| 0 <= k < acc@.len() ==> valid_range(n as int, #[trigger] acc@[k]),
{
    let mut acc: Vec<MarkupRange> = Vec::new();
    let mut idx: usize = 0;
    proof {
        assert(rs@.skip(0) =~= rs@);
    }
    while idx < rs.len()
        invariant
            0 <= idx <= rs@.len(),
            spec_accept_from(n as int, rs@.skip(idx as int), acc@) == spec_accept(n as int, rs@),
            forall|k: int| 0 <= k < acc@.len() ==> valid_range(n as int, #[trigger] acc@[k]),
        decreases rs@.len() - idx,
    {
        let ghost rest = rs@.skip(idx as int);
        let r = &rs[idx];
        assert(rest[0] == rs@[idx as int]);
        if r.len > 0 && r.start <= n && r.len <= n - r.start {
            assert(valid_range(n as int, rs@[idx as int]));
            let c = dup_range(r);
            if compat_all_exec(&acc, &c) {
                let ghost before = acc@;
                insert_sorted(&mut acc, c);
                assert(forall|k: int|
                    0 <= k < acc@.len() ==> valid_range(n as int, #[trigger] acc@[k]));
            }
        }
        proof {
            assert(rest.drop_first() =~= rs@.skip(idx + 1));
        }
        idx += 1;
    }
    proof {
        assert(rs@.skip(rs@.len() as int) =~= Seq::<MarkupRange>::empty());
    }
    acc
}

/// The closing tag for a markup kind.
fn close_tag(k: &MarkupKind) -> (r: &'static str)
    ensures
        r@ == close_seq(*k),
{
    match k {
        MarkupKind::Strong => "</strong>",
        MarkupKind::Em => "</em>",
        MarkupKind::Code => "</code>",
        MarkupKind::Strike => "</s>",
        MarkupKind::Link(_) => "</a>",
    }
}

/// The opening tag for a markup kind; a link carries its target as an
/// `href` attribute.
fn open_tag(k: &MarkupKind) -> (r: String)
    ensures
        r@ == open_seq(*k),
{
    match k {
        MarkupKind::Strong => String::from_str("<strong>"),
        MarkupKind::Em => String::from_str("<em>"),
        MarkupKind::Code => String::from_str("<code>"),
        MarkupKind::Strike => String::from_str("<s>"),
        MarkupKind::Link(href) => {
            let mut t = String::from_str("<a href=\"");
            t.append(href.as_str());
            t.append("\">");
            t
        },
    }
}

/// `out` with the closing tags due at position `i` appended, innermost
/// first.
fn closes_appended(out: String, acc: &Vec<MarkupRange>, i: usize) -> (r: String)
    ensures
        r@ == out@ + closes_at(acc@, i as int),
{
    let mut s = out;
    let mut j: usize = acc.len();
    proof {
        assert(s@ + closes_hi(acc@, i as int, j as int) =~= s@);
    }
    while j > 0
        invariant
            0 <= j <= acc@.len(),
            s@ == out@ + closes_hi(acc@, i as int, j as int),
        decreases j,
    {
        j -= 1;
        if acc[j].start <= i && acc[j].len == i - acc[j].start {
            assert(range_end(acc@[j as int]) == i);
            s.append(close_tag(&acc[j].kind));
        }
    }
    s
}

/// `out` with the opening tags due at position `i` appended, outermost
/// first.
fn opens_appended(out: String, acc: &Vec<MarkupRange>, i: usize) -> (r: String)
    ensures
        r@ == out@ + opens_at(acc@, i as int),
{
    let mut s = out;
    let mut j: usize = 0;
    while j < acc.len()
        invariant
            0 <= j <= acc@.len(),
            s@ + opens_lo(acc@, i as int, j as int) == out@ + opens_at(acc@, i as int),
        decreases acc@.len() - j,
    {
        if acc[j].start == i {
            let t = open_tag(&acc[j].kind);
            s.append(t.as_str());
        }
        j += 1;
    }
    proof {
        assert(s@ + opens_lo(acc@, i as int, j as int) =~= s@);
    }
    s
}

/// The rendered HTML for a paragraph text and its markup ranges: every
/// accepted range wraps the exact character span it covers; malformed
/// ranges degrade to being ignored, never to a failure.
pub fn resolve_markup(text: &str, ranges: &Vec<MarkupRange>) -> (r: String)
    ensures
        r@ == spec_resolve_markup(text@, ranges@),
{
    let n = text.unicode_len();
    let acc = accept_ranges(n, ranges);
    let mut out = String::new();
    let mut i: usize = 0;
    while i < n
        invariant
            n == text@.len(),
            0 <= i <= n,
            acc@ == spec_accept(n as int, ranges@),
            out@ == resolve_upto(text@, acc@, i as int),
        decreases n - i,
    {
        out = closes_appended(out, &acc, i);
        out = opens_appended(out, &acc, i);
        out.append(text.substring_char(i, i + 1));
        proof {
            assert(text@.subrange(i as int, i + 1) =~= seq![text@[i as int]]);
        }
        i += 1;
    }
    let out = closes_appended(out, &acc, n);
    out
}

/// Text that holds no tag delimiter, so stripping tags cannot eat it.
pub open spec fn tag_free(s: Seq<char>) -> bool {
    forall|i: int| 0 <= i < s.len() ==> s[i] != '<' && s[i] != '>'
}

/// A markup kind whose payload stays outside the tag delimiters.
pub open spec fn clean_kind(k: MarkupKind) -> bool {
    match k {
        MarkupKind::Link(href) => tag_free(href@),
        _ => true,
    }
}

/// Whether the scanner is inside a tag after reading `c`.
pub open spec fn in_tag_after(c: char, inside: bool) -> bool {
    if inside {
        c != '>'
    } else {
        c == '<'
    }
}

/// `s` with every `<`...`>` tag removed, starting inside or outside a tag.
pub open spec fn strip_tags(s: Seq<char>, inside: bool) -> Seq<char>
    decreases s.len(),
{
    if s.len() == 0 {
        Seq::empty()
    } else {
        let rest = strip_tags(s.drop_first(), in_tag_after(s[0], inside));
        if !inside && s[0] != '<' {
            seq![s[0]] + rest
        } else {
            rest
        }
    }
}

/// Whether the scanner ends up inside a tag after reading all of `s`.
pub open spec fn tag_state(s: Seq<char>, inside: bool) -> bool
    decreases s.len(),
{
    if s.len() == 0 {
        inside
    } else {
        tag_state(s.drop_first(), in_tag_after(s[0], inside))
    }
}

proof fn lemma_strip_concat(a: Seq<char>, b: Seq<char>, inside: bool)
    ensures
        strip_tags(a + b, inside) == strip_tags(a, inside) + strip_tags(b, tag_state(a, inside)),
        tag_state(a + b, inside) == tag_state(b, tag_state(a, inside)),
    decreases a.len(),
{
    if a.len() == 0 {
        assert(a + b =~= b);
        assert(strip_tags(a, inside) + strip_tags(b, inside) =~= strip_tags(b, inside));
    } else {
        assert((a + b).drop_first() =~= a.drop_first() + b);
        lemma_strip_concat(a.drop_first(), b, in_tag_after(a[0], inside));
        if !inside && a[0] != '<' {
            assert(seq![a[0]] + (strip_tags(a.drop_first(), in_tag_after(a[0], inside))
                + strip_tags(b, tag_state(a, inside))) =~= (seq![a[0]] + strip_tags(
                a.drop_first(),
                in_tag_after(a[0], inside),
            )) + strip_tags(b, tag_state(a, inside)));
        }
    }
}

proof fn lemma_strip_tag_free(s: Seq<char>)
    requires
        tag_free(s),
    ensures
        strip_tags(s, false) == s,
        tag_state(s, false) == false,
    decreases s.len(),
{
    if s.len() > 0 {
        lemma_strip_tag_free(s.drop_first());
        assert(seq![s[0]] + s.drop_first() =~= s);
    }
}

proof fn lemma_strip_inside(s: Seq<char>)
    requires
        forall|i: int| 0 <= i < s.len() ==> s[i] != '>',
    ensures
        strip_tags(s, true) == Seq::<char>::empty(),
        tag_state(s, true) == true,
    decreases s.len(),
{
    if s.len() > 0 {
        lemma_strip_inside(s.drop_first());
    }
}

proof fn lemma_strip_enter(t: Seq<char>)
    requires
        t.len() >= 1,
        t[0] == '<',
        forall|i: int| 1 <= i < t.len() ==> t[i] != '>',
    ensures
        strip_tags(t, false) == Seq::<char>::empty(),
        tag_state(t, false) == true,
{
    lemma_strip_inside(t.drop_first());
}

proof fn lemma_strip_tag_shape(t: Seq<char>)
    requires
        t.len() >= 2,
        t[0] == '<',
        t.last() == '>',
        forall|i: int| 1 <= i < t.len() - 1 ==> t[i] != '>',
    ensures
        strip_tags(t, false) == Seq::<char>::empty(),
        tag_state(t, false) == false,
{
    let front = t.drop_last();
    let back = seq![t.last()];
    assert(t =~= front + back);
    lemma_strip_enter(front);
    lemma_strip_concat(front, back, false);
    assert(back.drop_first() =~= Seq::<char>::empty());
    assert(strip_tags(Seq::<char>::empty(), false) == Seq::<char>::empty());
    assert(tag_state(Seq::<char>::empty(), false) == false);
    assert(strip_tags(back, true) =~= Seq::<char>::empty());
    assert(tag_state(back, true) == false);
    assert(Seq::<char>::empty() + Seq::<char>::empty() =~= Seq::<char>::empty());
}

proof fn lemma_strip_close(k: MarkupKind)
    ensures
        strip_tags(close_seq(k), false) == Seq::<char>::empty(),
        tag_state(close_seq(k), false) == false,
{
    match k {
        MarkupKind::Strong => {
            reveal_strlit("</strong>");
            lemma_strip_tag_shape("</strong>"@);
        },
        MarkupKind::Em => {
            reveal_strlit("</em>");
            lemma_strip_tag_shape("</em>"@);
        },
        MarkupKind::Code => {
            reveal_strlit("</code>");
            lemma_strip_tag_shape("</code>"@);
        },
        MarkupKind::Strike => {
            reveal_strlit("</s>");
            lemma_strip_tag_shape("</s>"@);
        },
        MarkupKind::Link(_) => {
            reveal_strlit("</a>");
            lemma_strip_tag_shape("</a>"@);
        },
    }
}

proof fn lemma_strip_open(k: MarkupKind)
    requires
        clean_kind(k),
    ensures
        strip_tags(open_seq(k), false) == Seq::<char>::empty(),
        tag_state(open_seq(k), false) == false,
{
    match k {
        MarkupKind::Strong => {
            reveal_strlit("<strong>");
            lemma_strip_tag_shape("<strong>"@);
        },
        MarkupKind::Em => {
            reveal_strlit("<em>");
            lemma_strip_tag_shape("<em>"@);
        },
        MarkupKind::Code => {
            reveal_strlit("<code>");
            lemma_strip_tag_shape("<code>"@);
        },
        MarkupKind::Strike => {
            reveal_strlit("<s>");
            lemma_strip_tag_shape("<s>"@);
        },
        MarkupKind::Link(href) => {
            reveal_strlit("<a href=\"");
            reveal_strlit("\">");
            let pre = "<a href=\""@;
            let post = "\">"@;
            lemma_strip_enter(pre);
            lemma_strip_inside(href@);
            lemma_strip_concat(pre, href@, false);
            assert(strip_tags(pre + href@, false) =~= Seq::<char>::empty());
            assert(post =~= seq!['"'] + seq!['>']);
            lemma_strip_inside(seq!['"']);
            lemma_strip_concat(seq!['"'], seq!['>'], true);
            assert(seq!['>'].drop_first() =~= Seq::<char>::empty());
            assert(strip_tags(Seq::<char>::empty(), false) == Seq::<char>::empty());
            assert(tag_state(Seq::<char>::empty(), false) == false);
            assert(strip_tags(seq!['>'], true) =~= Seq::<char>::empty());
            assert(tag_state(seq!['>'], true) == false);
            assert(strip_tags(post, true) =~= Seq::<char>::empty());
            assert(tag_state(post, true) == false);
            lemma_strip_concat(pre + href@, post, false);
            assert(open_seq(k) =~= (pre + href@) + post);
        },
    }
}

proof fn lemma_closes_strip(acc: Seq<MarkupRange>, i: int, j: int)
    requires
        forall|k: int| 0 <= k < acc.len() ==> clean_kind((#[trigger] acc[k]).kind),
    ensures
        strip_tags(closes_hi(acc, i, j), false) == Seq::<char>::empty(),
        tag_state(closes_hi(acc, i, j), false) == false,
    decreases acc.len() - j,
{
    if j < 0 || j >= acc.len() {
    } else {
        lemma_closes_strip(acc, i, j + 1);
        let tail = if range_end(acc[j]) == i {
            close_seq(acc[j].kind)
        } else {
            Seq::<char>::empty()
        };
        lemma_strip_close(acc[j].kind);
        lemma_strip_concat(closes_hi(acc, i, j + 1), tail, false);
    }
}

proof fn lemma_opens_strip(acc: Seq<MarkupRange>, i: int, j: int)
    requires
        forall|k: int| 0 <= k < acc.len() ==> clean_kind((#[trigger] acc[k]).kind),
    ensures
        strip_tags(opens_lo(acc, i, j), false) == Seq::<char>::empty(),
        tag_state(opens_lo(acc, i, j), false) == false,
    decreases acc.len() - j,
{
    if j < 0 || j >= acc.len() {
    } else {
        lemma_opens_strip(acc, i, j + 1);
        let head = if acc[j].start == i {
            open_seq(acc[j].kind)
        } else {
            Seq::<char>::empty()
        };
        lemma_strip_open(acc[j].kind);
        lemma_strip_concat(head, opens_lo(acc, i, j + 1), false);
    }
}

proof fn lemma_insert_elements(acc: Seq<MarkupRange>, r: MarkupRange)
    ensures
        forall|k: int|
            0 <= k < spec_insert(acc, r).len() ==> (spec_insert(acc, r)[k] == r || acc.contains(
                #[trigger] spec_insert(acc, r)[k],
            )),
    decreases acc.len(),
{
    if acc.len() == 0 {
    } else if key_lt(r, acc[0]) {
    } else {
        lemma_insert_elements(acc.drop_first(), r);
        assert(forall|k: int|
            0 <= k < acc.drop_first().len() && acc.drop_first().contains(
                #[trigger] acc.drop_first()[k],
            ) ==> acc.contains(acc.drop_first()[k]));
        assert forall|k: int| 0 <= k < spec_insert(acc, r).len() implies (spec_insert(acc, r)[k]
            == r || acc.contains(#[trigger] spec_insert(acc, r)[k])) by {
            if k > 0 {
                let t = spec_insert(acc.drop_first(), r)[k - 1];
                if t != r {
                    let m = choose|m: int|
                        0 <= m < acc.drop_first().len() && acc.drop_first()[m] == t;
                    assert(acc[m + 1] == t);
                }
            }
        }
    }
}

proof fn lemma_accept_clean(n: int, rs: Seq<MarkupRange>, acc: Seq<MarkupRange>)
    requires
        forall|k: int| 0 <= k < rs.len() ==> clean_kind((#[trigger] rs[k]).kind),
        forall|k: int| 0 <= k < acc.len() ==> clean_kind((#[trigger] acc[k]).kind),
    ensures
        forall|k: int|
            0 <= k < spec_accept_from(n, rs, acc).len() ==> clean_kind(
                (#[trigger] spec_accept_from(n, rs, acc)[k]).kind,
            ),
    decreases rs.len(),
{
    if rs.len() > 0 {
        let step = if valid_range(n, rs[0]) && compat_all(acc, rs[0]) {
            spec_insert(acc, rs[0])
        } else {
            acc
        };
        lemma_insert_elements(acc, rs[0]);
        assert(forall|k: int| 0 <= k < step.len() ==> clean_kind((#[trigger] step[k]).kind));
        assert(forall|k: int|
            0 <= k < rs.drop_first().len() ==> clean_kind((#[trigger] rs.drop_first()[k]).kind));
        lemma_accept_clean(n, rs.drop_first(), step);
    }
}

proof fn lemma_resolve_strip(text: Seq<char>, acc: Seq<MarkupRange>, i: int)
    requires
        tag_free(text),
        forall|k: int| 0 <= k < acc.len() ==> clean_kind((#[trigger] acc[k]).kind),
        0 <= i <= text.len(),
    ensures
        strip_tags(resolve_upto(text, acc, i), false) == text.subrange(0, i),
        tag_state(resolve_upto(text, acc, i), false) == false,
    decreases i,
{
    if i <= 0 {
        assert(text.subrange(0, 0) =~= Seq::<char>::empty());
    } else {
        lemma_resolve_strip(text, acc, i - 1);
        let a = resolve_upto(text, acc, i - 1);
        let b = closes_at(acc, i - 1);
        let c = opens_at(acc, i - 1);
        let d = seq![text[i - 1]];
        lemma_closes_strip(acc, i - 1, 0);
        lemma_opens_strip(acc, i - 1, 0);
        lemma_strip_concat(a, b, false);
        lemma_strip_concat(a + b, c, false);
        lemma_strip_concat(a + b + c, d, false);
        assert(d.drop_first() =~= Seq::<char>::empty());
        assert(strip_tags(Seq::<char>::empty(), false) == Seq::<char>::empty());
        assert(tag_state(Seq::<char>::empty(), false) == false);
        assert(text[i - 1] != '<' && text[i - 1] != '>');
        assert(seq![text[i - 1]] + Seq::<char>::empty() =~= seq![text[i - 1]]);
        assert(strip_tags(d, false) =~= d);
        assert(tag_state(d, false) == false);
        assert(strip_tags(a, false) + Seq::<char>::empty() =~= strip_tags(a, false));
        assert(strip_tags(a + b, false) + Seq::<char>::empty() =~= strip_tags(a + b, false));
        assert(text.subrange(0, i - 1) + d =~= text.subrange(0, i));
    }
}

/// Round trip: stripping every inserted tag from the rendered output of
/// `spec_resolve_markup` reproduces the paragraph text exactly, for any
/// markup ranges whose link targets carry no tag delimiter over a text that
/// carries none.
pub proof fn lemma_markup_round_trip(text: Seq<char>, rs: Seq<MarkupRange>)
    requires
        tag_free(text),
        forall|k: int| 0 <= k < rs.len() ==> clean_kind((#[trigger] rs[k]).kind),
    ensures
        strip_tags(spec_resolve_markup(text, rs), false) == text,
{
    let acc = spec_accept(text.len() as int, rs);
    lemma_accept_clean(text.len() as int, rs, Seq::empty());
    lemma_resolve_strip(text, acc, text.len() as int);
    lemma_closes_strip(acc, text.len() as int, 0);
    lemma_strip_concat(
        resolve_upto(text, acc, text.len() as int),
        closes_at(acc, text.len() as int),
        false,
    );
    assert(text.subrange(0, text.len() as int) =~= text);
    assert(text + Seq::<char>::empty() =~= text);
}

/// The accepted ranges stand in the documented nesting order: by start
/// offset, then longer first, then by the fixed kind priority.
pub open spec fn nesting_sorted(acc: Seq<MarkupRange>) -> bool {
    forall|a: int, b: int| 0 <= a < b < acc.len() ==> !key_lt(#[trigger] acc[b], #[trigger] acc[a])
}

proof fn lemma_insert_keeps_sorted(acc: Seq<MarkupRange>, r: MarkupRange)
    requires
        nesting_sorted(acc),
    ensures
        nesting_sorted(spec_insert(acc, r)),
    decreases acc.len(),
{
    if acc.len() == 0 {
    } else if key_lt(r, acc[0]) {
        let out = seq![r] + acc;
        assert forall|a: int, b: int| 0 <= a < b < out.len() implies !key_lt(
            #[trigger] out[b],
            #[trigger] out[a],
        ) by {
            if a == 0 {
                assert(out[b] == acc[b - 1]);
                if b > 1 {
                    assert(!key_lt(acc[b - 1], acc[0]));
                }
            }
        }
    } else {
        assert(forall|a: int, b: int|
            0 <= a < b < acc.drop_first().len() ==> !key_lt(
                #[trigger] acc.drop_first()[b],
                #[trigger] acc.drop_first()[a],
            ));
        lemma_insert_keeps_sorted(acc.drop_first(), r);
        lemma_insert_elements(acc.drop_first(), r);
        let ins = spec_insert(acc.drop_first(), r);
        let out = seq![acc[0]] + ins;
        assert forall|a: int, b: int| 0 <= a < b < out.len() implies !key_lt(
            #[trigger] out[b],
            #[trigger] out[a],
        ) by {
            if a == 0 {
                let t = ins[b - 1];
                if t == r {
                    assert(!key_lt(r, acc[0]));
                } else {
                    let m = choose|m: int|
                        0 <= m < acc.drop_first().len() && acc.drop_first()[m] == t;
                    assert(acc[m + 1] == t);
                    assert(!key_lt(acc[m + 1], acc[0]));
                }
            }
        }
    }
}

proof fn lemma_accept_from_sorted(n: int, rs: Seq<MarkupRange>, acc: Seq<MarkupRange>)
    requires
        nesting_sorted(acc),
    ensures
        nesting_sorted(spec_accept_from(n, rs, acc)),
    decreases rs.len(),
{
    if rs.len() > 0 {
        let step = if valid_range(n, rs[0]) && compat_all(acc, rs[0]) {
            spec_insert(acc, rs[0])
        } else {
            acc
        };
        lemma_insert_keeps_sorted(acc, rs[0]);
        lemma_accept_from_sorted(n, rs.drop_first(), step);
    }
}

/// Determinism of nesting: whatever ranges come in — in particular two
/// ranges sharing a start offset — the accepted ranges always stand in the
/// single order `key_lt` fixes, so repeated runs over the same input
/// resolve to the same nesting.
pub proof fn lemma_accept_nesting_deterministic(n: int, rs: Seq<MarkupRange>)
    ensures
        nesting_sorted(spec_accept(n, rs)),
{
    lemma_accept_from_sorted(n, rs, Seq::empty());
}

} // verus!
