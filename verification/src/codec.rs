//! The structured rendering of a response: a JSON document with the three
//! buckets under fixed keys, string content escaped; and its strict decoder,
//! proved to invert the encoder.

use vstd::prelude::*;

use crate::classify::FilterResponse;
use crate::text::{chars_vec, string_from_chars};

verus! {

/// The escaped form of one character inside a rendered string: quote and
/// backslash take a backslash prefix, everything else stands as it is.
pub open spec fn esc_char(c: char) -> Seq<char> {
    if c == '"' {
        seq!['\\', '"']
    } else if c == '\\' {
        seq!['\\', '\\']
    } else {
        seq![c]
    }
}

/// The escaped form of a rendered string's content.
pub open spec fn esc(s: Seq<char>) -> Seq<char>
    decreases s.len(),
{
    if s.len() == 0 {
        Seq::empty()
    } else {
        esc_char(s[0]) + esc(s.drop_first())
    }
}

/// One rendered string: escaped content between quotes.
pub open spec fn enc_string(s: Seq<char>) -> Seq<char> {
    seq!['"'] + esc(s) + seq!['"']
}

/// The comma-separated rendered strings of one bucket, brackets not
/// included.
pub open spec fn enc_items(v: Seq<Seq<char>>) -> Seq<char>
    decreases v.len(),
{
    if v.len() == 0 {
        Seq::empty()
    } else if v.len() == 1 {
        enc_string(v[0])
    } else {
        enc_string(v[0]) + seq![','] + enc_items(v.drop_first())
    }
}

/// The structured rendering of a response: the three buckets, in a fixed
/// key order, as one document.
pub open spec fn encode_spec(m: Seq<Seq<char>>, e: Seq<Seq<char>>, n: Seq<Seq<char>>) -> Seq<
    char,
> {
    "{\"matching\":["@ + enc_items(m) + "],\"excluded\":["@ + enc_items(e)
        + "],\"notMatching\":["@ + enc_items(n) + "]}"@
}

/// Escaping one more character appends its escaped form.
proof fn lemma_esc_snoc(s: Seq<char>, c: char)
    ensures
        esc(s.push(c)) == esc(s) + esc_char(c),
    decreases s.len(),
{
    let p = s.push(c);
    if s.len() == 0 {
        assert(p[0] == c);
        assert(p.drop_first() =~= Seq::<char>::empty());
        assert(esc(p) == esc_char(c) + esc(Seq::<char>::empty()));
        assert(esc_char(c) + Seq::<char>::empty() =~= esc_char(c));
        assert(esc(s) + esc_char(c) =~= esc_char(c));
    } else {
        assert(p[0] == s[0]);
        assert(p.drop_first() =~= s.drop_first().push(c));
        lemma_esc_snoc(s.drop_first(), c);
        assert(esc_char(s[0]) + (esc(s.drop_first()) + esc_char(c)) =~= (esc_char(s[0]) + esc(
            s.drop_first(),
        )) + esc_char(c));
    }
}

/// Rendering one more bucket entry appends a comma (after a first entry) and
/// the rendered string.
proof fn lemma_items_snoc(v: Seq<Seq<char>>, x: Seq<char>)
    ensures
        enc_items(v.push(x)) == if v.len() == 0 {
            enc_string(x)
        } else {
            enc_items(v) + seq![','] + enc_string(x)
        },
    decreases v.len(),
{
    let p = v.push(x);
    if v.len() == 0 {
        assert(p.len() == 1 && p[0] == x);
    } else {
        assert(p[0] == v[0]);
        assert(p.drop_first() =~= v.drop_first().push(x));
        lemma_items_snoc(v.drop_first(), x);
        if v.len() == 1 {
            assert(enc_items(p) == enc_string(v[0]) + seq![','] + enc_items(p.drop_first()));
            assert(enc_items(p.drop_first()) == enc_string(x));
        } else {
            assert(enc_items(p) == enc_string(p[0]) + seq![','] + enc_items(p.drop_first()));
            assert(enc_string(v[0]) + seq![','] + (enc_items(v.drop_first()) + seq![',']
                + enc_string(x)) =~= (enc_string(v[0]) + seq![','] + enc_items(v.drop_first()))
                + seq![','] + enc_string(x));
        }
    }
}

/// Appends the characters of `s` to `out`.
fn push_str_chars(out: &mut Vec<char>, s: &str)
    ensures
        final(out)@ == old(out)@ + s@,
{
    let cs = chars_vec(s);
    let ghost start = out@;
    let n = cs.len();
    for i in 0..n
        invariant
            n == cs.len(),
            cs@ == s@,
            out@ == start + s@.take(i as int),
    {
        out.push(cs[i]);
        proof {
            assert(out@ =~= start + s@.take(i + 1));
        }
    }
    proof {
        assert(s@.take(n as int) =~= s@);
        assert(out@ =~= start + s@);
    }
}

/// Appends the escaped content of `s` to `out`.
fn push_escaped(out: &mut Vec<char>, s: &str)
    ensures
        final(out)@ == old(out)@ + esc(s@),
{
    let cs = chars_vec(s);
    let ghost start = out@;
    proof {
        assert(esc(s@.take(0)) =~= Seq::<char>::empty());
        assert(out@ =~= start + esc(s@.take(0)));
    }
    let n = cs.len();
    for i in 0..n
        invariant
            n == cs.len(),
            cs@ == s@,
            out@ == start + esc(s@.take(i as int)),
    {
        let c = cs[i];
        let ghost before = out@;
        if c == '"' {
            out.push('\\');
            out.push('"');
        } else if c == '\\' {
            out.push('\\');
            out.push('\\');
        } else {
            out.push(c);
        }
        proof {
            assert(out@ =~= before + esc_char(c));
            lemma_esc_snoc(s@.take(i as int), c);
            assert(s@.take(i + 1) =~= s@.take(i as int).push(c));
            assert(out@ =~= start + esc(s@.take(i + 1)));
        }
    }
    proof {
        assert(s@.take(n as int) =~= s@);
    }
}

/// Appends the rendered entries of one bucket to `out`, brackets not
/// included.
fn push_items(out: &mut Vec<char>, v: &Vec<String>)
    ensures
        final(out)@ == old(out)@ + enc_items(v.deep_view()),
{
    let ghost dv = v.deep_view();
    let ghost start = out@;
    proof {
        assert(enc_items(dv.take(0)) =~= Seq::<char>::empty());
        assert(out@ =~= start + enc_items(dv.take(0)));
    }
    let n = v.len();
    for i in 0..n
        invariant
            n == v.len(),
            dv == v.deep_view(),
            out@ == start + enc_items(dv.take(i as int)),
    {
        let ghost before = out@;
        if i > 0 {
            out.push(',');
        }
        out.push('"');
        push_escaped(out, v[i].as_str());
        out.push('"');
        proof {
            assert(dv[i as int] == v[i as int]@);
            lemma_items_snoc(dv.take(i as int), dv[i as int]);
            assert(dv.take(i + 1) =~= dv.take(i as int).push(dv[i as int]));
            if i == 0 {
                assert(out@ =~= before + enc_string(dv[0]));
            } else {
                assert(out@ =~= before + (seq![','] + enc_string(dv[i as int])));
                assert(before + (seq![','] + enc_string(dv[i as int])) =~= (before + seq![','])
                    + enc_string(dv[i as int]));
            }
            assert(out@ =~= start + enc_items(dv.take(i + 1)));
        }
    }
    proof {
        assert(dv.take(n as int) =~= dv);
    }
}

/// Renders a response as the structured document `encode_spec` prescribes.
pub fn encode_response(resp: &FilterResponse) -> (s: String)
    ensures
        s@ == encode_spec(
            resp.matching.deep_view(),
            resp.excluded.deep_view(),
            resp.not_matching.deep_view(),
        ),
{
    let mut out: Vec<char> = Vec::new();
    push_str_chars(&mut out, "{\"matching\":[");
    push_items(&mut out, &resp.matching);
    push_str_chars(&mut out, "],\"excluded\":[");
    push_items(&mut out, &resp.excluded);
    push_str_chars(&mut out, "],\"notMatching\":[");
    push_items(&mut out, &resp.not_matching);
    push_str_chars(&mut out, "]}");
    proof {
        assert(out@ =~= encode_spec(
            resp.matching.deep_view(),
            resp.excluded.deep_view(),
            resp.not_matching.deep_view(),
        ));
    }
    string_from_chars(&out)
}

/// Parses a fixed literal prefix; the remainder follows it.
pub open spec fn p_lit(s: Seq<char>, lit: Seq<char>) -> Option<Seq<char>> {
    if s.len() >= lit.len() && s.take(lit.len() as int) == lit {
        Some(s.skip(lit.len() as int))
    } else {
        None
    }
}

/// Parses a rendered string's content after its opening quote, through the
/// closing quote.
pub open spec fn p_string_body(s: Seq<char>) -> Option<(Seq<char>, Seq<char>)>
    decreases s.len(),
{
    if s.len() == 0 {
        None
    } else if s[0] == '"' {
        Some((Seq::empty(), s.drop_first()))
    } else if s[0] == '\\' {
        if s.len() < 2 {
            None
        } else if s[1] == '"' || s[1] == '\\' {
            match p_string_body(s.skip(2)) {
                Some(pr) => Some((seq![s[1]] + pr.0, pr.1)),
                None => None,
            }
        } else {
            None
        }
    } else {
        match p_string_body(s.drop_first()) {
            Some(pr) => Some((seq![s[0]] + pr.0, pr.1)),
            None => None,
        }
    }
}

/// A parsed string consumes at least its closing quote.
pub proof fn lemma_psb_len(s: Seq<char>)
    ensures
        p_string_body(s) matches Some(pr) ==> pr.1.len() < s.len(),
    decreases s.len(),
{
    if s.len() == 0 {
    } else if s[0] == '"' {
    } else if s[0] == '\\' {
        if s.len() >= 2 && (s[1] == '"' || s[1] == '\\') {
            lemma_psb_len(s.skip(2));
        }
    } else {
        lemma_psb_len(s.drop_first());
    }
}

/// Parses one bucket's entries after the opening bracket, through the
/// closing bracket.
pub open spec fn p_items(s: Seq<char>) -> Option<(Seq<Seq<char>>, Seq<char>)>
    decreases s.len(),
{
    if s.len() == 0 {
        None
    } else if s[0] == ']' {
        Some((Seq::empty(), s.drop_first()))
    } else if s[0] == '"' {
        match p_string_body(s.drop_first()) {
            Some(pr) => {
                let v = pr.0;
                let rest = pr.1;
                if rest.len() > 0 && rest[0] == ']' {
                    Some((seq![v], rest.drop_first()))
                } else if rest.len() > 1 && rest[0] == ',' && rest[1] == '"' {
                    proof {
                        lemma_psb_len(s.drop_first());
                    }
                    match p_items(rest.drop_first()) {
                        Some(pr2) => Some((seq![v] + pr2.0, pr2.1)),
                        None => None,
                    }
                } else {
                    None
                }
            },
            None => None,
        }
    } else {
        None
    }
}

/// Parses a whole structured document back into the three buckets.
pub open spec fn p_response(s: Seq<char>) -> Option<
    (Seq<Seq<char>>, Seq<Seq<char>>, Seq<Seq<char>>),
> {
    match p_lit(s, "{\"matching\":["@) {
        Some(r0) => match p_items(r0) {
            Some(pm) => match p_lit(pm.1, ",\"excluded\":["@) {
                Some(r2) => match p_items(r2) {
                    Some(pe) => match p_lit(pe.1, ",\"notMatching\":["@) {
                        Some(r4) => match p_items(r4) {
                            Some(pn) => if pn.1 == "}"@ {
                                Some((pm.0, pe.0, pn.0))
                            } else {
                                None
                            },
                            None => None,
                        },
                        None => None,
                    },
                    None => None,
                },
                None => None,
            },
            None => None,
        },
        None => None,
    }
}

/// A literal followed by anything parses to that remainder.
proof fn lemma_p_lit(lit: Seq<char>, rest: Seq<char>)
    ensures
        p_lit(lit + rest, lit) == Some(rest),
{
    assert((lit + rest).take(lit.len() as int) =~= lit);
    assert((lit + rest).skip(lit.len() as int) =~= rest);
}

/// Parsing the escaped form of a string, through its closing quote,
/// recovers the string and leaves the rest untouched.
proof fn lemma_psb_esc(x: Seq<char>, rest: Seq<char>)
    ensures
        p_string_body(esc(x) + seq!['"'] + rest) == Some((x, rest)),
    decreases x.len(),
{
    let s = esc(x) + seq!['"'] + rest;
    if x.len() == 0 {
        assert(esc(x) =~= Seq::<char>::empty());
        assert(s =~= seq!['"'] + rest);
        assert(s[0] == '"');
        assert(s.drop_first() =~= rest);
        assert(p_string_body(s) == Some((Seq::<char>::empty(), rest)));
        assert(Seq::<char>::empty() =~= x);
    } else {
        let c = x[0];
        let x2 = x.drop_first();
        lemma_psb_esc(x2, rest);
        assert(esc(x) == esc_char(c) + esc(x2));
        let tail = esc(x2) + seq!['"'] + rest;
        if c == '"' {
            assert(s =~= seq!['\\', '"'] + tail);
            assert(s[0] == '\\' && s[1] == '"');
            assert(s.skip(2) =~= tail);
            assert(p_string_body(s) == Some((seq!['"'] + x2, rest)));
            assert(seq!['"'] + x2 =~= x);
        } else if c == '\\' {
            assert(s =~= seq!['\\', '\\'] + tail);
            assert(s[0] == '\\' && s[1] == '\\');
            assert(s.skip(2) =~= tail);
            assert(p_string_body(s) == Some((seq!['\\'] + x2, rest)));
            assert(seq!['\\'] + x2 =~= x);
        } else {
            assert(s =~= seq![c] + tail);
            assert(s[0] == c);
            assert(s.drop_first() =~= tail);
            assert(p_string_body(s) == Some((seq![c] + x2, rest)));
            assert(seq![c] + x2 =~= x);
        }
    }
}

/// Parsing a rendered bucket, through its closing bracket, recovers the
/// bucket and leaves the rest untouched.
proof fn lemma_pitems_enc(v: Seq<Seq<char>>, rest: Seq<char>)
    ensures
        p_items(enc_items(v) + seq![']'] + rest) == Some((v, rest)),
    decreases v.len(),
{
    let s = enc_items(v) + seq![']'] + rest;
    if v.len() == 0 {
        assert(enc_items(v) =~= Seq::<char>::empty());
        assert(s =~= seq![']'] + rest);
        assert(s[0] == ']');
        assert(s.drop_first() =~= rest);
        assert(Seq::<Seq<char>>::empty() =~= v);
    } else if v.len() == 1 {
        assert(enc_items(v) == enc_string(v[0]));
        assert(s =~= seq!['"'] + (esc(v[0]) + seq!['"'] + (seq![']'] + rest)));
        assert(s[0] == '"');
        assert(s.drop_first() =~= esc(v[0]) + seq!['"'] + (seq![']'] + rest));
        lemma_psb_esc(v[0], seq![']'] + rest);
        let r1 = seq![']'] + rest;
        assert(p_string_body(s.drop_first()) == Some((v[0], r1)));
        assert(r1[0] == ']');
        assert(r1.drop_first() =~= rest);
        assert(p_items(s) == Some((seq![v[0]], rest)));
        assert(seq![v[0]] =~= v);
    } else {
        let v2 = v.drop_first();
        assert(enc_items(v) == enc_string(v[0]) + seq![','] + enc_items(v2));
        let tail = seq![','] + enc_items(v2) + seq![']'] + rest;
        assert(s =~= seq!['"'] + (esc(v[0]) + seq!['"'] + tail));
        assert(s[0] == '"');
        assert(s.drop_first() =~= esc(v[0]) + seq!['"'] + tail);
        lemma_psb_esc(v[0], tail);
        assert(p_string_body(s.drop_first()) == Some((v[0], tail)));
        assert(tail[0] == ',');
        // the next entry opens with a quote
        assert(enc_items(v2)[0] == '"') by {
            if v2.len() == 1 {
                assert(enc_items(v2) == enc_string(v2[0]));
            } else {
                assert(enc_items(v2) == enc_string(v2[0]) + seq![','] + enc_items(v2.drop_first()));
            }
            assert(enc_string(v2[0])[0] == '"');
        }
        assert(tail.len() > 1 && tail[1] == '"');
        assert(tail.drop_first() =~= enc_items(v2) + seq![']'] + rest);
        lemma_pitems_enc(v2, rest);
        assert(p_items(tail.drop_first()) == Some((v2, rest)));
        assert(p_items(s) == Some((seq![v[0]] + v2, rest)));
        assert(seq![v[0]] + v2 =~= v);
    }
}

/// Law: decoding the structured rendering of any three buckets recovers
/// exactly those buckets, in order.
pub proof fn lemma_round_trip(m: Seq<Seq<char>>, e: Seq<Seq<char>>, n: Seq<Seq<char>>)
    ensures
        p_response(encode_spec(m, e, n)) == Some((m, e, n)),
{
    let s = encode_spec(m, e, n);
    reveal_strlit("{\"matching\":[");
    reveal_strlit("],\"excluded\":[");
    reveal_strlit(",\"excluded\":[");
    reveal_strlit("],\"notMatching\":[");
    reveal_strlit(",\"notMatching\":[");
    reveal_strlit("]}");
    reveal_strlit("}");
    let lit0 = "{\"matching\":["@;
    let lit1 = ",\"excluded\":["@;
    let lit2 = ",\"notMatching\":["@;
    let tail1 = lit1 + enc_items(e) + seq![']'] + (lit2 + enc_items(n) + seq![']'] + "}"@);
    let tail2 = lit2 + enc_items(n) + seq![']'] + "}"@;
    assert("],\"excluded\":["@ =~= seq![']'] + lit1);
    assert("],\"notMatching\":["@ =~= seq![']'] + lit2);
    assert("]}"@ =~= seq![']'] + "}"@);
    assert(s =~= lit0 + (enc_items(m) + seq![']'] + tail1));
    lemma_p_lit(lit0, enc_items(m) + seq![']'] + tail1);
    lemma_pitems_enc(m, tail1);
    assert(tail1 =~= lit1 + (enc_items(e) + seq![']'] + tail2));
    lemma_p_lit(lit1, enc_items(e) + seq![']'] + tail2);
    lemma_pitems_enc(e, tail2);
    assert(tail2 =~= lit2 + (enc_items(n) + seq![']'] + "}"@));
    lemma_p_lit(lit2, enc_items(n) + seq![']'] + "}"@);
    lemma_pitems_enc(n, "}"@);
}

/// Parses a rendered string's content starting at `i`, one position past the
/// opening quote.
fn d_string_body(cs: &Vec<char>, i: usize) -> (r: Option<(Vec<char>, usize)>)
    requires
        i <= cs.len(),
    ensures
        match r {
            Some(pr) => i < pr.1 <= cs.len() && p_string_body(cs@.skip(i as int)) == Some(
                (pr.0@, cs@.skip(pr.1 as int)),
            ),
            None => p_string_body(cs@.skip(i as int)) is None,
        },
    decreases cs.len() - i,
{
    let ghost s = cs@.skip(i as int);
    if i == cs.len() {
        return None;
    }
    let c = cs[i];
    proof {
        assert(s[0] == cs@[i as int]);
    }
    if c == '"' {
        proof {
            assert(s.drop_first() =~= cs@.skip(i as int + 1));
        }
        let empty: Vec<char> = Vec::new();
        proof {
            assert(empty@ =~= Seq::<char>::empty());
        }
        return Some((empty, i + 1));
    }
    if c == '\\' {
        if i + 1 == cs.len() {
            return None;
        }
        let c2 = cs[i + 1];
        proof {
            assert(s.len() >= 2 && s[1] == cs@[i as int + 1]);
            assert(s.skip(2) =~= cs@.skip(i as int + 2));
        }
        if c2 == '"' || c2 == '\\' {
            match d_string_body(cs, i + 2) {
                Some((mut v, j)) => {
                    let ghost inner = v@;
                    v.insert(0, c2);
                    proof {
                        assert(v@ =~= seq![c2] + inner);
                    }
                    return Some((v, j));
                },
                None => {
                    return None;
                },
            }
        }
        return None;
    }
    match d_string_body(cs, i + 1) {
        Some((mut v, j)) => {
            let ghost inner = v@;
            v.insert(0, c);
            proof {
                assert(s.drop_first() =~= cs@.skip(i as int + 1));
                assert(v@ =~= seq![c] + inner);
            }
            Some((v, j))
        },
        None => {
            proof {
                assert(s.drop_first() =~= cs@.skip(i as int + 1));
            }
            None
        },
    }
}

/// Parses one bucket's entries starting at `i`, one position past the
/// opening bracket, through the closing bracket.
fn d_items(cs: &Vec<char>, i: usize) -> (r: Option<(Vec<String>, usize)>)
    requires
        i <= cs.len(),
    ensures
        match r {
            Some(pr) => i < pr.1 <= cs.len() && p_items(cs@.skip(i as int)) == Some(
                (pr.0.deep_view(), cs@.skip(pr.1 as int)),
            ),
            None => p_items(cs@.skip(i as int)) is None,
        },
    decreases cs.len() - i,
{
    let ghost s = cs@.skip(i as int);
    if i == cs.len() {
        return None;
    }
    let c = cs[i];
    proof {
        assert(s[0] == cs@[i as int]);
    }
    if c == ']' {
        proof {
            assert(s.drop_first() =~= cs@.skip(i as int + 1));
        }
        let empty: Vec<String> = Vec::new();
        proof {
            assert(empty.deep_view() =~= Seq::<Seq<char>>::empty());
        }
        return Some((empty, i + 1));
    }
    if c != '"' {
        return None;
    }
    proof {
        assert(s.drop_first() =~= cs@.skip(i as int + 1));
    }
    match d_string_body(cs, i + 1) {
        None => None,
        Some((v, j)) => {
            let ghost rest = cs@.skip(j as int);
            let line = string_from_chars(&v);
            if j < cs.len() && cs[j] == ']' {
                proof {
                    assert(rest.len() > 0 && rest[0] == cs@[j as int]);
                    assert(rest.drop_first() =~= cs@.skip(j as int + 1));
                }
                let mut out: Vec<String> = Vec::new();
                out.push(line);
                proof {
                    assert(out.deep_view() =~= seq![v@]);
                }
                return Some((out, j + 1));
            }
            if j < cs.len() && j + 1 < cs.len() && cs[j] == ',' && cs[j + 1] == '"' {
                proof {
                    assert(rest.len() > 1 && rest[0] == cs@[j as int] && rest[1] == cs@[j as int
                        + 1]);
                    assert(rest.drop_first() =~= cs@.skip(j as int + 1));
                }
                match d_items(cs, j + 1) {
                    Some((mut vs, j2)) => {
                        let ghost tailv = vs.deep_view();
                        vs.insert(0, line);
                        proof {
                            assert(vs.deep_view() =~= seq![v@] + tailv);
                        }
                        return Some((vs, j2));
                    },
                    None => {
                        return None;
                    },
                }
            }
            proof {
                if rest.len() > 0 && rest[0] == ']' {
                    assert(j < cs.len() && cs@[j as int] == ']');
                }
                if rest.len() > 1 && rest[0] == ',' && rest[1] == '"' {
                    assert(j + 1 < cs.len() && cs@[j as int] == ',' && cs@[j as int + 1] == '"');
                }
            }
            None
        },
    }
}

/// Parses the fixed literal `lit` at position `i`.
fn d_lit(cs: &Vec<char>, i: usize, lit: &str) -> (r: Option<usize>)
    requires
        i <= cs.len(),
    ensures
        match r {
            Some(j) => i <= j <= cs.len() && j - i == lit@.len() && p_lit(
                cs@.skip(i as int),
                lit@,
            ) == Some(cs@.skip(j as int)),
            None => p_lit(cs@.skip(i as int), lit@) is None,
        },
{
    let ghost s = cs@.skip(i as int);
    let ls = chars_vec(lit);
    if cs.len() - i < ls.len() {
        proof {
            assert(s.len() < lit@.len());
        }
        return None;
    }
    let n = ls.len();
    for k in 0..n
        invariant
            n == ls.len(),
            ls@ == lit@,
            i + n <= cs.len(),
            s == cs@.skip(i as int),
            forall|j: int| 0 <= j < k ==> s[j] == lit@[j],
    {
        if cs[i + k] != ls[k] {
            proof {
                assert(s[k as int] == cs@[i + k]);
                assert(s.take(lit@.len() as int)[k as int] != lit@[k as int]);
                assert(s.take(lit@.len() as int) != lit@);
            }
            return None;
        }
        proof {
            assert(s[k as int] == cs@[i + k]);
        }
    }
    proof {
        assert(s.take(lit@.len() as int) =~= lit@);
        assert(s.skip(lit@.len() as int) =~= cs@.skip(i + lit@.len()));
    }
    Some(i + n)
}

/// Decodes a structured document back into a response; accepts exactly what
/// `p_response` accepts and returns exactly what it parses.
pub fn decode_response(s: &str) -> (r: Option<FilterResponse>)
    ensures
        match r {
            Some(resp) => p_response(s@) == Some(
                (
                    resp.matching.deep_view(),
                    resp.excluded.deep_view(),
                    resp.not_matching.deep_view(),
                ),
            ),
            None => p_response(s@) is None,
        },
{
    let cs = chars_vec(s);
    proof {
        assert(cs@.skip(0) =~= s@);
    }
    let r0 = match d_lit(&cs, 0, "{\"matching\":[") {
        Some(j) => j,
        None => {
            return None;
        },
    };
    let (matching, r1) = match d_items(&cs, r0) {
        Some(p) => p,
        None => {
            return None;
        },
    };
    let r2 = match d_lit(&cs, r1, ",\"excluded\":[") {
        Some(j) => j,
        None => {
            return None;
        },
    };
    let (excluded, r3) = match d_items(&cs, r2) {
        Some(p) => p,
        None => {
            return None;
        },
    };
    let r4 = match d_lit(&cs, r3, ",\"notMatching\":[") {
        Some(j) => j,
        None => {
            return None;
        },
    };
    let (not_matching, r5) = match d_items(&cs, r4) {
        Some(p) => p,
        None => {
            return None;
        },
    };
    proof {
        reveal_strlit("}");
    }
    if r5 < cs.len() && cs.len() - r5 == 1 && cs[r5] == '}' {
        proof {
            assert(cs@.skip(r5 as int) =~= "}"@);
        }
        Some(FilterResponse { matching, excluded, not_matching })
    } else {
        proof {
            let rest = cs@.skip(r5 as int);
            if rest == "}"@ {
                assert(rest.len() == 1);
                assert(rest[0] == '}');
                assert(cs@[r5 as int] == '}');
                assert(r5 + 1 == cs.len());
            }
        }
        None
    }
}

} // verus!
