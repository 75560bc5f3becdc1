//! Response rendering chosen from the caller's ranked accept list: the first
//! recognized media type wins, and nothing recognized is not acceptable.

use vstd::prelude::*;

use crate::classify::FilterResponse;
use crate::codec::{encode_response, encode_spec};
use crate::media::{essence_is, essence_matches};
use crate::text::{join_lines, joined};

verus! {

/// HTTP status for a rendered body.
pub const STATUS_OK: u16 = 200;

/// HTTP status for the empty plain-text rendering.
pub const STATUS_NO_CONTENT: u16 = 204;

/// HTTP status when no accepted media type is recognized.
pub const STATUS_NOT_ACCEPTABLE: u16 = 406;

/// The rendering the accept list selects.
pub enum Negotiated {
    /// The full structured document; status 200.
    Structured { body: String },
    /// The matching lines joined by line feeds; status 200.
    Plain { body: String },
    /// Plain text chosen but nothing matching; status 204, empty body.
    NoContent,
    /// No recognized media type in the list; status 406, empty body.
    NotAcceptable,
}

/// The spec-level shape of a `Negotiated` value.
pub enum NegotiatedSpec {
    Structured { body: Seq<char> },
    Plain { body: Seq<char> },
    NoContent,
    NotAcceptable,
}

/// The rendering owed to a ranked accept list: walk it in order; the first
/// structured match renders the whole response, the first plain-text match
/// renders the matching lines (or no content when none match), and a list
/// with no recognized type is not acceptable.
pub open spec fn negotiated_of(
    m: Seq<Seq<char>>,
    e: Seq<Seq<char>>,
    n: Seq<Seq<char>>,
    accepts: Seq<Seq<char>>,
) -> NegotiatedSpec
    decreases accepts.len(),
{
    if accepts.len() == 0 {
        NegotiatedSpec::NotAcceptable
    } else if essence_matches(accepts[0], "application/json"@) {
        NegotiatedSpec::Structured { body: encode_spec(m, e, n) }
    } else if essence_matches(accepts[0], "text/plain"@) {
        if m.len() == 0 {
            NegotiatedSpec::NoContent
        } else {
            NegotiatedSpec::Plain { body: joined(m) }
        }
    } else {
        negotiated_of(m, e, n, accepts.drop_first())
    }
}

impl Negotiated {
    /// The spec-level shape of this rendering.
    pub open spec fn repr(&self) -> NegotiatedSpec {
        match self {
            Negotiated::Structured { body } => NegotiatedSpec::Structured { body: body@ },
            Negotiated::Plain { body } => NegotiatedSpec::Plain { body: body@ },
            Negotiated::NoContent => NegotiatedSpec::NoContent,
            Negotiated::NotAcceptable => NegotiatedSpec::NotAcceptable,
        }
    }

    /// The status a rendering carries.
    pub open spec fn spec_status(&self) -> u16 {
        match self {
            Negotiated::Structured { .. } => STATUS_OK,
            Negotiated::Plain { .. } => STATUS_OK,
            Negotiated::NoContent => STATUS_NO_CONTENT,
            Negotiated::NotAcceptable => STATUS_NOT_ACCEPTABLE,
        }
    }

    /// A rendered body is 200, the empty plain-text case 204, and an
    /// unrecognized accept list 406.
    pub fn status(&self) -> (r: u16)
        ensures
            r == self.spec_status(),
    {
        match self {
            Negotiated::Structured { .. } => STATUS_OK,
            Negotiated::Plain { .. } => STATUS_OK,
            Negotiated::NoContent => STATUS_NO_CONTENT,
            Negotiated::NotAcceptable => STATUS_NOT_ACCEPTABLE,
        }
    }
}

impl FilterResponse {
    /// Renders the response for the caller's ranked accept list, highest
    /// preference first, exactly as `negotiated_of` prescribes.
    pub fn respond_to(&self, accepts: &Vec<String>) -> (r: Negotiated)
        ensures
            r.repr() == negotiated_of(
                self.matching.deep_view(),
                self.excluded.deep_view(),
                self.not_matching.deep_view(),
                accepts.deep_view(),
            ),
    {
        let ghost m = self.matching.deep_view();
        let ghost e = self.excluded.deep_view();
        let ghost nm = self.not_matching.deep_view();
        let ghost avs = accepts.deep_view();
        let count = accepts.len();
        proof {
            assert(avs.skip(0) =~= avs);
        }
        for i in 0..count
            invariant
                count == accepts.len(),
                m == self.matching.deep_view(),
                e == self.excluded.deep_view(),
                nm == self.not_matching.deep_view(),
                avs == accepts.deep_view(),
                negotiated_of(m, e, nm, avs) == negotiated_of(m, e, nm, avs.skip(i as int)),
        {
            proof {
                assert(avs.skip(i as int)[0] == avs[i as int]);
                assert(avs[i as int] == accepts[i as int]@);
                assert(avs.skip(i as int).drop_first() =~= avs.skip(i as int + 1));
            }
            if essence_is(accepts[i].as_str(), "application/json") {
                return Negotiated::Structured { body: encode_response(self) };
            }
            if essence_is(accepts[i].as_str(), "text/plain") {
                if self.matching.len() == 0 {
                    proof {
                        assert(m.len() == 0);
                    }
                    return Negotiated::NoContent;
                }
                proof {
                    assert(m.len() > 0);
                }
                return Negotiated::Plain { body: join_lines(&self.matching) };
            }
        }
        proof {
            assert(avs.skip(count as int).len() == 0);
        }
        Negotiated::NotAcceptable
    }
}

} // verus!
