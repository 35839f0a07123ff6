//! Character-exact string utilities: substring extraction by code-point
//! offset, substring search, and placeholder replacement.
//!
//! Offsets coming from the upstream platform are counted in code points, not
//! bytes, so every function here works on the character view of a string.

use vstd::prelude::*;
use vstd::string::*;

verus! {

/// The pattern `p` occurs in `h` at character position `i`.
pub open spec fn occurs_at(h: Seq<char>, p: Seq<char>, i: int) -> bool {
    &&& 0 <= i
    &&& i + p.len() <= h.len()
    &&& h.subrange(i, i + p.len() as int) == p
}

/// The pattern `p` occurs somewhere in `h`.
pub open spec fn contains_seq(h: Seq<char>, p: Seq<char>) -> bool {
    exists|i: int| occurs_at(h, p, i)
}

/// `s` with every left-to-right, non-overlapping occurrence of `pat`
/// replaced by `to`; an empty pattern replaces nothing.
pub open spec fn replace_all(s: Seq<char>, pat: Seq<char>, to: Seq<char>) -> Seq<char>
    decreases s.len(),
{
    if pat.len() <= 0 || s.len() < pat.len() {
        s
    } else if s.subrange(0, pat.len() as int) == pat {
        to + replace_all(s.skip(pat.len() as int), pat, to)
    } else {
        seq![s[0]] + replace_all(s.skip(1), pat, to)
    }
}

/// Does `pat` occur in `s` at character position `i`?
pub fn matches_at(s: &str, pat: &str, i: usize) -> (b: bool)
    requires
        i + pat@.len() <= s@.len() <= usize::MAX,
    ensures
        b == occurs_at(s@, pat@, i as int),
{
    let m = pat.unicode_len();
    let mut j: usize = 0;
    while j < m
        invariant
            m == pat@.len(),
            i + m <= s@.len() <= usize::MAX,
            0 <= j <= m,
            forall|k: int| 0 <= k < j ==> s@[i + k] == pat@[k],
        decreases m - j,
    {
        if s.get_char(i + j) != pat.get_char(j) {
            assert(s@.subrange(i as int, i + m) != pat@) by {
                assert(s@.subrange(i as int, i + m)[j as int] == s@[i + j]);
            }
            return false;
        }
        j += 1;
    }
    assert(s@.subrange(i as int, i + m) =~= pat@);
    true
}

/// Does `needle` occur anywhere in `hay`, by character positions?
pub fn contains_sub(hay: &str, needle: &str) -> (b: bool)
    ensures
        b == contains_seq(hay@, needle@),
{
    let n = hay.unicode_len();
    let m = needle.unicode_len();
    if m > n {
        return false;
    }
    if m == 0 {
        proof {
            assert(hay@.subrange(0, 0) =~= needle@);
            assert(occurs_at(hay@, needle@, 0));
        }
        return true;
    }
    let mut i: usize = 0;
    while i <= n - m
        invariant
            n == hay@.len(),
            m == needle@.len(),
            0 < m <= n,
            0 <= i <= n - m + 1,
            forall|k: int| 0 <= k < i ==> !occurs_at(hay@, needle@, k),
        decreases n - i,
    {
        if matches_at(hay, needle, i) {
            return true;
        }
        i += 1;
    }
    false
}

/// Are two string slices equal, character for character?
pub fn str_eq(a: &str, b: &str) -> (r: bool)
    ensures
        r == (a@ == b@),
{
    let n = a.unicode_len();
    if n != b.unicode_len() {
        return false;
    }
    let r = matches_at(a, b, 0);
    proof {
        assert(a@.subrange(0, a@.len() as int) =~= a@);
    }
    r
}

/// `s` with every occurrence of the non-empty pattern `pat` replaced by `to`,
/// scanning left to right without re-examining replaced text.
pub fn replace(s: &str, pat: &str, to: &str) -> (r: String)
    requires
        pat@.len() > 0,
    ensures
        r@ == replace_all(s@, pat@, to@),
{
    let n = s.unicode_len();
    let m = pat.unicode_len();
    let mut out = String::new();
    let mut i: usize = 0;
    proof {
        assert(s@.skip(0) =~= s@);
        assert(Seq::<char>::empty() + replace_all(s@, pat@, to@) =~= replace_all(s@, pat@, to@));
    }
    while i < n
        invariant
            n == s@.len(),
            m == pat@.len(),
            m > 0,
            0 <= i <= n,
            out@ + replace_all(s@.skip(i as int), pat@, to@) == replace_all(s@, pat@, to@),
        decreases n - i,
    {
        let ghost rest = s@.skip(i as int);
        assert(rest.len() == n - i);
        if m <= n - i && matches_at(s, pat, i) {
            out.append(to);
            proof {
                assert(rest.subrange(0, m as int) =~= s@.subrange(i as int, i + m));
                assert(rest.skip(m as int) =~= s@.skip(i + m));
            }
            i += m;
        } else {
            out.append(s.substring_char(i, i + 1));
            proof {
                if m <= n - i {
                    assert(rest.subrange(0, m as int) =~= s@.subrange(i as int, i + m));
                }
                assert(seq![rest[0]] =~= s@.subrange(i as int, i + 1));
                assert(rest.skip(1) =~= s@.skip(i + 1));
            }
            i += 1;
        }
    }
    proof {
        assert(s@.skip(n as int) =~= Seq::<char>::empty());
        assert(out@ + Seq::<char>::empty() =~= out@);
    }
    out
}

/// A substring of `s` of `min(len, ..)` characters starting at character
/// `start`, truncated rather than failing when the bounds run past the end.
pub open spec fn clamped_sub(s: Seq<char>, start: int, len: int) -> Seq<char> {
    let st = if start > s.len() {
        s.len() as int
    } else {
        start
    };
    let l = if len > s.len() - st {
        s.len() - st
    } else {
        len
    };
    s.subrange(st, st + l)
}

/// An end bound for a character range: the two offset conventions used by
/// the upstream payloads, plus an open end.
pub enum CharBound {
    /// The range runs up to and including this character position.
    Included(usize),
    /// The range runs up to but excluding this character position.
    Excluded(usize),
    /// The range runs to the end of the text.
    Unbounded,
}

/// The character count a range with the given start and end bound selects
/// out of a text of `n` characters, truncated to what is really there.
pub open spec fn bounded_len(n: int, start: int, end: CharBound) -> int {
    let e = match end {
        CharBound::Included(b) => if b + 1 > n {
            n
        } else {
            b + 1
        },
        CharBound::Excluded(b) => if b > n {
            n
        } else {
            b as int
        },
        CharBound::Unbounded => n,
    };
    if e < start {
        0
    } else {
        e - start
    }
}

/// Substring extraction by character offsets, total: out-of-range bounds
/// truncate the result instead of failing.
pub trait StringUtils {
    /// The substring of `min(len, ..)` characters starting at character
    /// `start`; exact whenever `start + len` lies within the text.
    fn substring(&self, start: usize, len: usize) -> (r: &str)
        ensures
            r@ == clamped_sub(self.chars_view(), start as int, len as int),
            start + len <= self.chars_view().len() ==> r@ == self.chars_view().subrange(
                start as int,
                start + len,
            ) && r@.len() == len,
    ;

    /// The substring from character `start` up to the given end bound,
    /// inclusive or exclusive; an inverted or oversized range truncates.
    fn slice(&self, start: usize, end: CharBound) -> (r: &str)
        ensures
            r@ == clamped_sub(
                self.chars_view(),
                start as int,
                bounded_len(self.chars_view().len() as int, start as int, end),
            ),
    ;

    /// The character view this implementation slices over.
    spec fn chars_view(&self) -> Seq<char>;
}

impl StringUtils for str {
    open spec fn chars_view(&self) -> Seq<char> {
        self@
    }

    fn substring(&self, start: usize, len: usize) -> (r: &str) {
        let n = self.unicode_len();
        let st = if start > n {
            n
        } else {
            start
        };
        let rem = n - st;
        let l = if len > rem {
            rem
        } else {
            len
        };
        self.substring_char(st, st + l)
    }

    fn slice(&self, start: usize, end: CharBound) -> (r: &str) {
        let n = self.unicode_len();
        let e = match end {
            CharBound::Included(b) => if b >= n {
                n
            } else {
                b + 1
            },
            CharBound::Excluded(b) => if b > n {
                n
            } else {
                b
            },
            CharBound::Unbounded => n,
        };
        let l = if e < start {
            0
        } else {
            e - start
        };
        self.substring(start, l)
    }
}

} // verus!
