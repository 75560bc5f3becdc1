//! The classification pass: one linear walk that places every line in
//! exactly one of three buckets, exclusion taking precedence over inclusion.

use vstd::prelude::*;

use crate::errors::{ContentTypeError, STATUS_BAD_REQUEST};
use crate::pattern::{regex_match, regex_valid, RegexWrapper};
use crate::text::{lines_of, split_lines};

verus! {

/// A decoded request: the lines to partition, the matcher pattern that selects lines, and an
/// optional exclude pattern.
pub struct FilterRequest {
    pub lines: Vec<String>,
    pub matcher: RegexWrapper,
    pub exclude: Option<RegexWrapper>,
}

/// The partition of the request's lines, each bucket in original input order.
pub struct FilterResponse {
    pub matching: Vec<String>,
    pub excluded: Vec<String>,
    pub not_matching: Vec<String>,
}

impl FilterRequest {
    /// The exclude pattern's source text, when a pattern was given.
    pub open spec fn exclude_src(&self) -> Option<Seq<char>> {
        match self.exclude {
            Some(w) => Some(w.src()),
            None => None,
        }
    }

    /// Builds the request the structured path decodes: the body supplied the
    /// lines and both pattern sources. Fails, as a bad-request decoding
    /// error, exactly when the engine rejects a pattern source.
    pub fn build(lines: Vec<String>, matcher: &str, exclude: Option<&str>) -> (r: Result<
        FilterRequest,
        ContentTypeError,
    >)
        ensures
            r is Ok <==> regex_valid(matcher@) && (match exclude {
                Some(e) => regex_valid(e@),
                None => true,
            }),
            r matches Ok(fr) ==> fr.lines == lines && fr.matcher.src() == matcher@
                && fr.exclude_src() == (match exclude {
                Some(e) => Some(e@),
                None => None::<Seq<char>>,
            }),
            r matches Err(e) ==> e == (ContentTypeError::Other { status: STATUS_BAD_REQUEST }),
    {
        let m = match RegexWrapper::new(matcher) {
            Ok(w) => w,
            Err(e) => {
                return Err(e);
            },
        };
        let x = match exclude {
            Some(src) => match RegexWrapper::new(src) {
                Ok(w) => Some(w),
                Err(e) => {
                    return Err(e);
                },
            },
            None => None,
        };
        Ok(FilterRequest { lines, matcher: m, exclude: x })
    }

    /// Builds the request the plain-text path decodes: the body split into
    /// lines, both pattern sources taken from the query string.
    pub fn from_text(body: &str, matcher: &str, exclude: Option<&str>) -> (r: Result<
        FilterRequest,
        ContentTypeError,
    >)
        ensures
            r is Ok <==> regex_valid(matcher@) && (match exclude {
                Some(e) => regex_valid(e@),
                None => true,
            }),
            r matches Ok(fr) ==> fr.lines.deep_view() == lines_of(body@) && fr.matcher.src()
                == matcher@ && fr.exclude_src() == (match exclude {
                Some(e) => Some(e@),
                None => None::<Seq<char>>,
            }),
            r matches Err(e) ==> e == (ContentTypeError::Other { status: STATUS_BAD_REQUEST }),
    {
        let lines = split_lines(body);
        Self::build(lines, matcher, exclude)
    }
}

/// A line is excluded when an exclude pattern is present and matches it.
pub open spec fn line_excluded(exc: Option<Seq<char>>, line: Seq<char>) -> bool {
    match exc {
        Some(e) => regex_match(e, line),
        None => false,
    }
}

/// A line is matching when it is not excluded and the matcher pattern
/// matches it.
pub open spec fn line_matching(inc: Seq<char>, exc: Option<Seq<char>>, line: Seq<char>) -> bool {
    !line_excluded(exc, line) && regex_match(inc, line)
}

/// A line is not-matching when it is not excluded and the matcher pattern
/// does not match it.
pub open spec fn line_not_matching(
    inc: Seq<char>,
    exc: Option<Seq<char>>,
    line: Seq<char>,
) -> bool {
    !line_excluded(exc, line) && !regex_match(inc, line)
}

/// The subsequence of `lines` that the exclude pattern removes, in input
/// order.
pub open spec fn excluded_of(exc: Option<Seq<char>>, lines: Seq<Seq<char>>) -> Seq<Seq<char>>
    decreases lines.len(),
{
    if lines.len() == 0 {
        Seq::empty()
    } else {
        excluded_of(exc, lines.drop_last()) + if line_excluded(exc, lines.last()) {
            seq![lines.last()]
        } else {
            Seq::empty()
        }
    }
}

/// The subsequence of `lines` that the matcher pattern keeps, in input order.
pub open spec fn matching_of(
    inc: Seq<char>,
    exc: Option<Seq<char>>,
    lines: Seq<Seq<char>>,
) -> Seq<Seq<char>>
    decreases lines.len(),
{
    if lines.len() == 0 {
        Seq::empty()
    } else {
        matching_of(inc, exc, lines.drop_last()) + if line_matching(inc, exc, lines.last()) {
            seq![lines.last()]
        } else {
            Seq::empty()
        }
    }
}

/// The subsequence of `lines` that neither pattern claims, in input order.
pub open spec fn not_matching_of(
    inc: Seq<char>,
    exc: Option<Seq<char>>,
    lines: Seq<Seq<char>>,
) -> Seq<Seq<char>>
    decreases lines.len(),
{
    if lines.len() == 0 {
        Seq::empty()
    } else {
        not_matching_of(inc, exc, lines.drop_last()) + if line_not_matching(
            inc,
            exc,
            lines.last(),
        ) {
            seq![lines.last()]
        } else {
            Seq::empty()
        }
    }
}

/// Law: the three buckets partition the input. Their multisets together are
/// exactly the multiset of the input lines (each line placed once), every
/// bucket holds only lines its predicate selects, and the buckets are
/// pairwise disjoint.
pub proof fn lemma_partition(inc: Seq<char>, exc: Option<Seq<char>>, lines: Seq<Seq<char>>)
    ensures
        excluded_of(exc, lines).to_multiset().add(
            matching_of(inc, exc, lines).to_multiset(),
        ).add(not_matching_of(inc, exc, lines).to_multiset()) == lines.to_multiset(),
        forall|l: Seq<char>| excluded_of(exc, lines).contains(l) ==> line_excluded(exc, l),
        forall|l: Seq<char>| matching_of(inc, exc, lines).contains(l) ==> line_matching(
            inc,
            exc,
            l,
        ),
        forall|l: Seq<char>| not_matching_of(inc, exc, lines).contains(l) ==> line_not_matching(
            inc,
            exc,
            l,
        ),
        forall|l: Seq<char>|
            !(excluded_of(exc, lines).contains(l) && matching_of(inc, exc, lines).contains(l)),
        forall|l: Seq<char>|
            !(excluded_of(exc, lines).contains(l) && not_matching_of(inc, exc, lines).contains(l)),
        forall|l: Seq<char>|
            !(matching_of(inc, exc, lines).contains(l) && not_matching_of(
                inc,
                exc,
                lines,
            ).contains(l)),
    decreases lines.len(),
{
    broadcast use vstd::seq_lib::group_to_multiset_ensures;

    let e = excluded_of(exc, lines);
    let m = matching_of(inc, exc, lines);
    let nm = not_matching_of(inc, exc, lines);
    if lines.len() == 0 {
        assert(e.to_multiset().add(m.to_multiset()).add(nm.to_multiset()) =~= lines.to_multiset());
    } else {
        let prev = lines.drop_last();
        let last = lines.last();
        lemma_partition(inc, exc, prev);
        assert(lines =~= prev.push(last));
        let pe = excluded_of(exc, prev);
        let pm = matching_of(inc, exc, prev);
        let pn = not_matching_of(inc, exc, prev);
        if line_excluded(exc, last) {
            assert(e =~= pe.push(last));
            assert(m == pm && nm == pn);
        } else if line_matching(inc, exc, last) {
            assert(m =~= pm.push(last));
            assert(e == pe && nm == pn);
        } else {
            assert(nm =~= pn.push(last));
            assert(e == pe && m == pm);
        }
        assert(e.to_multiset().add(m.to_multiset()).add(nm.to_multiset()) =~= lines.to_multiset());
        assert forall|l: Seq<char>| e.contains(l) implies line_excluded(exc, l) by {
            if l != last || !line_excluded(exc, last) {
                assert(pe.contains(l));
            }
        }
        assert forall|l: Seq<char>| m.contains(l) implies line_matching(inc, exc, l) by {
            if l != last || !line_matching(inc, exc, last) {
                assert(pm.contains(l));
            }
        }
        assert forall|l: Seq<char>| nm.contains(l) implies line_not_matching(inc, exc, l) by {
            if l != last || !line_not_matching(inc, exc, last) {
                assert(pn.contains(l));
            }
        }
    }
}

/// Law: a line that both patterns match is placed in the excluded bucket and
/// never in the matching bucket.
pub proof fn lemma_exclude_precedence(
    inc: Seq<char>,
    exc: Seq<char>,
    lines: Seq<Seq<char>>,
    line: Seq<char>,
)
    requires
        regex_match(exc, line),
        regex_match(inc, line),
    ensures
        !matching_of(inc, Some(exc), lines).contains(line),
        lines.contains(line) ==> excluded_of(Some(exc), lines).contains(line),
    decreases lines.len(),
{
    lemma_partition(inc, Some(exc), lines);
    assert(!matching_of(inc, Some(exc), lines).contains(line)) by {
        if matching_of(inc, Some(exc), lines).contains(line) {
            assert(line_matching(inc, Some(exc), line));
        }
    }
    if lines.len() > 0 && lines.contains(line) {
        let prev = lines.drop_last();
        let last = lines.last();
        lemma_exclude_precedence(inc, exc, prev, line);
        if last == line {
            assert(excluded_of(Some(exc), lines).last() == line);
        } else {
            let i = choose|i: int| 0 <= i < lines.len() && lines[i] == line;
            assert(prev[i] == line);
            assert(prev.contains(line));
            assert(excluded_of(Some(exc), prev).contains(line));
            let j = choose|j: int|
                0 <= j < excluded_of(Some(exc), prev).len() && excluded_of(Some(exc), prev)[j]
                    == line;
            assert(excluded_of(Some(exc), lines)[j] == line);
        }
    }
}

/// Partitions the request's lines: excluded lines first by precedence, then
/// matching, then not-matching, each bucket keeping the input order.
pub fn filter(request: FilterRequest) -> (r: FilterResponse)
    ensures
        r.excluded.deep_view() == excluded_of(request.exclude_src(), request.lines.deep_view()),
        r.matching.deep_view() == matching_of(
            request.matcher.src(),
            request.exclude_src(),
            request.lines.deep_view(),
        ),
        r.not_matching.deep_view() == not_matching_of(
            request.matcher.src(),
            request.exclude_src(),
            request.lines.deep_view(),
        ),
{
    let ghost inc = request.matcher.src();
    let ghost exc = request.exclude_src();
    let ghost lv = request.lines.deep_view();
    let mut matching: Vec<String> = Vec::new();
    let mut excluded: Vec<String> = Vec::new();
    let mut not_matching: Vec<String> = Vec::new();
    let n = request.lines.len();
    for i in 0..n
        invariant
            n == request.lines.len(),
            inc == request.matcher.src(),
            exc == request.exclude_src(),
            lv == request.lines.deep_view(),
            excluded.deep_view() == excluded_of(exc, lv.take(i as int)),
            matching.deep_view() == matching_of(inc, exc, lv.take(i as int)),
            not_matching.deep_view() == not_matching_of(inc, exc, lv.take(i as int)),
    {
        let line = &request.lines[i];
        proof {
            assert(lv.take(i + 1).drop_last() =~= lv.take(i as int));
            assert(lv.take(i + 1).last() == line@);
        }
        let is_excluded = match &request.exclude {
            Some(w) => w.is_match(line.as_str()),
            None => false,
        };
        if is_excluded {
            let ghost before = excluded.deep_view();
            excluded.push(line.clone());
            proof {
                assert(excluded.deep_view() =~= before + seq![line@]);
            }
        } else if request.matcher.is_match(line.as_str()) {
            let ghost before = matching.deep_view();
            matching.push(line.clone());
            proof {
                assert(matching.deep_view() =~= before + seq![line@]);
            }
        } else {
            let ghost before = not_matching.deep_view();
            not_matching.push(line.clone());
            proof {
                assert(not_matching.deep_view() =~= before + seq![line@]);
            }
        }
        proof {
            assert(excluded_of(exc, lv.take(i + 1)) == excluded_of(exc, lv.take(i as int))
                + if line_excluded(exc, line@) { seq![line@] } else { Seq::<Seq<char>>::empty() });
            assert(excluded.deep_view() =~= excluded_of(exc, lv.take(i + 1)));
            assert(matching.deep_view() =~= matching_of(inc, exc, lv.take(i + 1)));
            assert(not_matching.deep_view() =~= not_matching_of(inc, exc, lv.take(i + 1)));
        }
    }
    proof {
        assert(lv.take(n as int) =~= lv);
    }
    FilterResponse { matching, excluded, not_matching }
}

} // verus!
