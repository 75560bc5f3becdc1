//! Text utilities of the plain-text request and response paths: splitting a
//! body into lines and joining matching lines back together.

use vstd::prelude::*;
use vstd::string::StrSliceExecFns;
use vstd::string::StringExecFns;

verus! {

/// Relies on String's FromIterator<char> implementation: collecting
/// characters concatenates them in order.
#[verifier::external_body]
pub(crate) fn string_from_chars(v: &Vec<char>) -> (r: String)
    ensures
        r@ == v@,
{
    v.iter().collect()
}

/// All characters of `s`, as a vector.
pub fn chars_vec(s: &str) -> (r: Vec<char>)
    ensures
        r@ == s@,
{
    let n = s.unicode_len();
    let mut r: Vec<char> = Vec::new();
    for i in 0..n
        invariant
            n == s@.len(),
            r@ == s@.take(i as int),
    {
        r.push(s.get_char(i));
        proof {
            assert(r@ =~= s@.take(i + 1));
        }
    }
    proof {
        assert(s@.take(n as int) =~= s@);
    }
    r
}

/// The index of the first occurrence of `c` in `s`, or `s.len()` when `c`
/// does not occur.
pub open spec fn idx_of(s: Seq<char>, c: char) -> nat
    decreases s.len(),
{
    if s.len() == 0 {
        0
    } else if s[0] == c {
        0
    } else {
        1 + idx_of(s.drop_first(), c)
    }
}

/// `idx_of` points at the first occurrence: nothing before it is `c`, and
/// the position itself holds `c` unless `c` is absent.
pub proof fn lemma_idx_of(s: Seq<char>, c: char)
    ensures
        idx_of(s, c) <= s.len(),
        forall|j: int| 0 <= j < idx_of(s, c) ==> s[j] != c,
        idx_of(s, c) < s.len() ==> s[idx_of(s, c) as int] == c,
    decreases s.len(),
{
    if s.len() > 0 && s[0] != c {
        lemma_idx_of(s.drop_first(), c);
        assert forall|j: int| 0 <= j < idx_of(s, c) implies s[j] != c by {
            if j > 0 {
                assert(s.drop_first()[j - 1] == s[j]);
            }
        }
        if idx_of(s, c) < s.len() {
            assert(s.drop_first()[idx_of(s.drop_first(), c) as int] == s[idx_of(s, c) as int]);
        }
    }
}

/// The position of the first `c` at or after `from`, or the length when
/// none follows.
fn find_char(s: &Vec<char>, from: usize, c: char) -> (r: usize)
    requires
        from <= s.len(),
    ensures
        from <= r <= s@.len(),
        r - from == idx_of(s@.skip(from as int), c),
{
    let mut i = from;
    while i < s.len() && s[i] != c
        invariant
            from <= i <= s@.len(),
            forall|j: int| from <= j < i ==> s@[j] != c,
        decreases s@.len() - i,
    {
        i += 1;
    }
    proof {
        let sk = s@.skip(from as int);
        lemma_idx_of(sk, c);
        let k = idx_of(sk, c);
        assert forall|j: int| 0 <= j < sk.len() implies sk[j] == s@[from + j] by {}
        if i < s.len() {
            if k < i - from {
                assert(sk[k as int] == c);
                assert(s@[from + k] != c);
            }
            if k > i - from {
                assert(sk[i - from] != c);
            }
        } else {
            if k < s@.len() - from {
                assert(sk[k as int] == c);
                assert(s@[from + k] != c);
            }
        }
    }
    i
}

/// A carriage return directly before a line break is removed with it.
pub open spec fn strip_cr(seg: Seq<char>) -> Seq<char> {
    if seg.len() > 0 && seg.last() == '\r' {
        seg.drop_last()
    } else {
        seg
    }
}

/// The lines of `s`: split at line feeds, a carriage return directly before
/// a line feed removed with it, and no empty final line after a trailing
/// line feed.
pub open spec fn lines_of(s: Seq<char>) -> Seq<Seq<char>>
    decreases s.len(),
{
    if s.len() == 0 {
        Seq::empty()
    } else {
        let k = idx_of(s, '\n');
        if k == s.len() {
            seq![s]
        } else {
            proof {
                lemma_idx_of(s, '\n');
            }
            seq![strip_cr(s.take(k as int))] + lines_of(s.skip(k as int + 1))
        }
    }
}

/// Splits a body into its lines, as the plain-text request path reads them.
pub fn split_lines(s: &str) -> (r: Vec<String>)
    ensures
        r.deep_view() == lines_of(s@),
{
    let cs = chars_vec(s);
    let mut r: Vec<String> = Vec::new();
    let mut pos: usize = 0;
    proof {
        assert(s@.skip(0) =~= s@);
        assert(r.deep_view() + lines_of(s@) =~= lines_of(s@));
    }
    while pos < cs.len()
        invariant
            cs@ == s@,
            pos <= cs.len(),
            lines_of(s@) == r.deep_view() + lines_of(s@.skip(pos as int)),
        decreases cs@.len() - pos,
    {
        let ghost rem = s@.skip(pos as int);
        let k = find_char(&cs, pos, '\n');
        proof {
            lemma_idx_of(rem, '\n');
        }
        let mut end = k;
        if k < cs.len() {
            if end > pos && cs[end - 1] == '\r' {
                end = end - 1;
            }
        }
        let mut line: Vec<char> = Vec::new();
        let mut j = pos;
        while j < end
            invariant
                pos <= j <= end <= cs.len(),
                cs@ == s@,
                line@ == cs@.subrange(pos as int, j as int),
            decreases end - j,
        {
            line.push(cs[j]);
            j += 1;
            proof {
                assert(line@ =~= cs@.subrange(pos as int, j as int));
            }
        }
        let rendered = string_from_chars(&line);
        let ghost before = r.deep_view();
        r.push(rendered);
        proof {
            assert(r.deep_view() =~= before + seq![line@]);
            let kk = (k - pos) as int;
            assert(rem.len() == s@.len() - pos);
            assert forall|j2: int| 0 <= j2 < rem.len() implies rem[j2] == s@[pos + j2] by {}
            if k == cs.len() {
                assert(idx_of(rem, '\n') == rem.len());
                assert(lines_of(rem) == seq![rem]);
                assert(line@ =~= rem);
                assert(r.deep_view() =~= before + seq![rem]);
            } else {
                assert(idx_of(rem, '\n') == kk);
                assert(kk < rem.len());
                assert(lines_of(rem) == seq![strip_cr(rem.take(kk))] + lines_of(rem.skip(kk + 1)));
                assert(rem.take(kk) =~= cs@.subrange(pos as int, k as int));
                if k > pos && cs@[k - 1] == '\r' {
                    assert(rem.take(kk).len() > 0 && rem.take(kk).last() == '\r');
                    assert(strip_cr(rem.take(kk)) =~= cs@.subrange(pos as int, k - 1));
                    assert(line@ == cs@.subrange(pos as int, end as int));
                    assert(end == k - 1);
                } else {
                    assert(strip_cr(rem.take(kk)) == rem.take(kk));
                    assert(end == k);
                }
                assert(line@ == strip_cr(rem.take(kk)));
                assert(rem.skip(kk + 1) =~= s@.skip(k + 1));
                assert(lines_of(s@) =~= (before + seq![line@]) + lines_of(s@.skip(k + 1)));
            }
        }
        if k == cs.len() {
            pos = cs.len();
            proof {
                assert(s@.skip(pos as int).len() == 0);
                assert(lines_of(s@.skip(pos as int)) == Seq::<Seq<char>>::empty());
                assert(lines_of(s@) =~= r.deep_view() + lines_of(s@.skip(pos as int)));
            }
        } else {
            pos = k + 1;
        }
    }
    proof {
        assert(s@.skip(pos as int).len() == 0);
        assert(lines_of(s@.skip(pos as int)) == Seq::<Seq<char>>::empty());
        assert(lines_of(s@) =~= r.deep_view());
    }
    r
}

/// The plain-text rendering of a bucket: its lines joined by line feeds.
pub open spec fn joined(lines: Seq<Seq<char>>) -> Seq<char>
    decreases lines.len(),
{
    if lines.len() == 0 {
        Seq::empty()
    } else if lines.len() == 1 {
        lines[0]
    } else {
        joined(lines.drop_last()) + seq!['\n'] + lines.last()
    }
}

/// Joins lines with line feeds, one per entry, none at the end.
pub fn join_lines(lines: &Vec<String>) -> (r: String)
    ensures
        r@ == joined(lines.deep_view()),
{
    let ghost lv = lines.deep_view();
    let mut r = String::new();
    let n = lines.len();
    for i in 0..n
        invariant
            n == lines.len(),
            lv == lines.deep_view(),
            r@ == joined(lv.take(i as int)),
    {
        if i > 0 {
            r.append("\n");
        }
        r.append(lines[i].as_str());
        proof {
            reveal_strlit("\n");
            assert("\n"@ =~= seq!['\n']);
            assert(lv.take(i + 1).drop_last() =~= lv.take(i as int));
            assert(lv.take(i + 1).last() == lv[i as int]);
            if i == 0 {
                assert(lv.take(1).len() == 1);
                assert(joined(lv.take(1)) == lv[0]);
                assert(r@ =~= joined(lv.take(1)));
            } else {
                assert(joined(lv.take(i + 1)) == joined(lv.take(i as int)) + seq!['\n'] + lv[
                    i as int
                ]);
                assert(r@ =~= joined(lv.take(i + 1)));
            }
        }
    }
    proof {
        assert(lv.take(n as int) =~= lv);
    }
    r
}

} // verus!
