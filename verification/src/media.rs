//! Content-type dispatch: reducing a declared media type to its essence
//! (type and subtype, parameters ignored, ASCII case ignored) and choosing
//! the request-decoding strategy from it.

use vstd::prelude::*;

use crate::text::{chars_vec, idx_of, lemma_idx_of};

verus! {

/// Whether `c` is a space or horizontal tab, the optional whitespace around
/// a media-type token.
pub open spec fn ws(c: char) -> bool {
    c == ' ' || c == '\t'
}

/// Whether `c` is an ASCII capital letter.
pub open spec fn is_ascii_upper(c: char) -> bool {
    65 <= c as u32 && c as u32 <= 90
}

/// ASCII-case-insensitive character equality.
pub open spec fn ci_eq(a: char, b: char) -> bool {
    a == b || (is_ascii_upper(a) && b as u32 == a as u32 + 32) || (is_ascii_upper(b) && a as u32
        == b as u32 + 32)
}

/// `s` with leading whitespace removed.
pub open spec fn trim_start(s: Seq<char>) -> Seq<char>
    decreases s.len(),
{
    if s.len() > 0 && ws(s[0]) {
        trim_start(s.drop_first())
    } else {
        s
    }
}

/// `s` with trailing whitespace removed.
pub open spec fn trim_end(s: Seq<char>) -> Seq<char>
    decreases s.len(),
{
    if s.len() > 0 && ws(s.last()) {
        trim_end(s.drop_last())
    } else {
        s
    }
}

/// The essence of a media-type value: everything before the first semicolon,
/// surrounding whitespace removed.
pub open spec fn essence_of(s: Seq<char>) -> Seq<char> {
    trim_end(trim_start(s.take(idx_of(s, ';') as int)))
}

/// Whether the essence of the media-type value `s` is `t`, compared without
/// regard to ASCII case.
pub open spec fn essence_matches(s: Seq<char>, t: Seq<char>) -> bool {
    let e = essence_of(s);
    e.len() == t.len() && forall|i: int| 0 <= i < e.len() ==> ci_eq(e[i], t[i])
}

/// `trim_start` drops exactly the leading run of whitespace.
proof fn lemma_trim_start(s: Seq<char>, k: int)
    requires
        0 <= k <= s.len(),
        forall|j: int| 0 <= j < k ==> ws(s[j]),
        k < s.len() ==> !ws(s[k]),
    ensures
        trim_start(s) == s.skip(k),
    decreases s.len(),
{
    if s.len() > 0 && ws(s[0]) {
        assert(k > 0);
        lemma_trim_start(s.drop_first(), k - 1);
        assert(s.drop_first().skip(k - 1) =~= s.skip(k));
    } else {
        assert(s.skip(k) =~= s);
    }
}

/// `trim_end` drops exactly the trailing run of whitespace.
proof fn lemma_trim_end(s: Seq<char>, k: int)
    requires
        0 <= k <= s.len(),
        forall|j: int| k <= j < s.len() ==> ws(s[j]),
        k > 0 ==> !ws(s[k - 1]),
    ensures
        trim_end(s) == s.take(k),
    decreases s.len(),
{
    if s.len() > 0 && ws(s.last()) {
        assert(k < s.len());
        lemma_trim_end(s.drop_last(), k);
        assert(s.drop_last().take(k) =~= s.take(k));
    } else {
        assert(s.take(k) =~= s);
    }
}

/// Decides whether the essence of the media-type value `value` is `target`,
/// without regard to ASCII case.
pub fn essence_is(value: &str, target: &str) -> (r: bool)
    ensures
        r == essence_matches(value@, target@),
{
    let cs = chars_vec(value);
    let ts = chars_vec(target);
    // cut at the first semicolon
    let mut cut: usize = 0;
    while cut < cs.len() && cs[cut] != ';'
        invariant
            cut <= cs.len(),
            cs@ == value@,
            forall|j: int| 0 <= j < cut ==> cs@[j] != ';',
        decreases cs@.len() - cut,
    {
        cut += 1;
    }
    proof {
        lemma_idx_of(value@, ';');
        let k = idx_of(value@, ';');
        if k < cut {
            assert(value@[k as int] == ';');
        }
        if cut < cs.len() && k > cut {
            assert(value@[cut as int] != ';');
        }
        if cut == cs.len() && k < cs@.len() {
            assert(value@[k as int] == ';');
        }
        assert(cut == k);
    }
    let ghost piece = value@.take(cut as int);
    // trim whitespace on both sides of the cut piece
    let mut lo: usize = 0;
    while lo < cut && (cs[lo] == ' ' || cs[lo] == '\t')
        invariant
            lo <= cut <= cs.len(),
            cs@ == value@,
            forall|j: int| 0 <= j < lo ==> ws(cs@[j]),
        decreases cut - lo,
    {
        lo += 1;
    }
    let mut hi = cut;
    while hi > lo && (cs[hi - 1] == ' ' || cs[hi - 1] == '\t')
        invariant
            lo <= hi <= cut <= cs.len(),
            cs@ == value@,
            forall|j: int| hi <= j < cut ==> ws(cs@[j]),
        decreases hi,
    {
        hi -= 1;
    }
    proof {
        assert(piece.len() == cut);
        assert(forall|j: int| 0 <= j < cut ==> piece[j] == value@[j]);
        lemma_trim_start(piece, lo as int);
        let dropped = piece.skip(lo as int);
        if hi == lo {
            lemma_trim_end(dropped, 0);
        } else {
            assert(!ws(dropped[hi - lo - 1]));
            lemma_trim_end(dropped, hi - lo);
        }
        assert(essence_of(value@) == dropped.take(hi - lo));
        assert(essence_of(value@) =~= value@.subrange(lo as int, hi as int));
    }
    // compare with the target, ASCII case ignored
    if hi - lo != ts.len() {
        proof {
            assert(essence_of(value@).len() != target@.len());
        }
        return false;
    }
    let mut i: usize = 0;
    while i < ts.len()
        invariant
            i <= ts.len(),
            ts@ == target@,
            cs@ == value@,
            lo <= hi <= cs.len(),
            hi - lo == ts.len(),
            essence_of(value@) == value@.subrange(lo as int, hi as int),
            forall|j: int| 0 <= j < i ==> ci_eq(essence_of(value@)[j], target@[j]),
        decreases ts@.len() - i,
    {
        let a = cs[lo + i];
        let b = ts[i];
        let au = a as u32;
        let bu = b as u32;
        let ok = a == b || (65 <= au && au <= 90 && bu == au + 32) || (65 <= bu && bu <= 90 && au
            == bu + 32);
        proof {
            assert(essence_of(value@)[i as int] == value@[lo + i]);
            assert(ok == ci_eq(a, b));
        }
        if !ok {
            return false;
        }
        i += 1;
    }
    true
}

/// The decoding strategy a declared content type selects.
#[derive(Debug, PartialEq, Eq, Structural, Clone, Copy)]
pub enum MediaKind {
    /// The structured-data type: the body carries the whole request.
    Json,
    /// The plain-text type: the body carries the lines, the query string the
    /// patterns.
    Text,
    /// Anything else, or no parsable content type: unsupported.
    Other,
}

/// The strategy the declared content type `ct` selects, `None` standing for
/// an absent or unparsable content-type header.
pub open spec fn media_kind_of(ct: Option<Seq<char>>) -> MediaKind {
    match ct {
        None => MediaKind::Other,
        Some(s) => if essence_matches(s, "application/json"@) {
            MediaKind::Json
        } else if essence_matches(s, "text/plain"@) {
            MediaKind::Text
        } else {
            MediaKind::Other
        },
    }
}

/// Chooses the request-decoding strategy from the declared content type.
pub fn decode_kind(content_type: Option<&str>) -> (r: MediaKind)
    ensures
        r == media_kind_of(match content_type {
            Some(s) => Some(s@),
            None => None,
        }),
{
    match content_type {
        None => MediaKind::Other,
        Some(s) => {
            if essence_is(s, "application/json") {
                MediaKind::Json
            } else if essence_is(s, "text/plain") {
                MediaKind::Text
            } else {
                MediaKind::Other
            }
        },
    }
}

} // verus!
