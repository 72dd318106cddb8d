//! The outbound request to the time-tracking API, as far as it is
//! computation: the request URL for a date range (optionally scoped to one
//! project) and the basic-auth header carrying the configured secret.
//!
//! The caller that owns the HTTP client sends a `GET` to the returned URL
//! with the returned header as `Authorization`; a `200` body decodes into
//! [`crate::Summaries`].

use crate::ascii::{ascii_chars, lemma_encode_utf8_of_ascii};
use crate::date::{iso_bytes, lemma_date_bytes_ascii, Date};
use crate::url_encode::{encode, pct_bytes};
use vstd::prelude::*;
use vstd::string::StringSliceAdditionalSpecFns;

verus! {

/// The standard base64 rendering (padded) of a byte sequence.
pub uninterp spec fn base64_of(bytes: Seq<u8>) -> Seq<char>;

/// Relies on `base64::encode`: the standard-alphabet, padded base64
/// rendering of the input bytes, a function of those bytes alone; four
/// output characters for every three input bytes, rounded up.
#[verifier::external_body]
fn base64_encode(s: &str) -> (r: String)
    ensures
        r@ == base64_of(s.spec_bytes()),
        r@.len() == 4 * ((s.spec_bytes().len() + 2) / 3),
{
    base64::encode(s)
}

/// The basic-auth header value presenting the API secret.
pub fn auth_header(api_key: &str) -> (r: String)
    ensures
        r@ == "Basic "@ + base64_of(api_key.spec_bytes()),
{
    let mut out = String::from_str("Basic ");
    let encoded = base64_encode(api_key);
    out.append(encoded.as_str());
    out
}

/// The URL that fetches the summaries of `[start, end]`, scoped to one
/// project when a name is given: the fixed endpoint with percent-encoded
/// query parameters.
pub open spec fn spec_request_url(start: Date, end: Date, project: Option<Seq<u8>>) -> Seq<
    char,
> {
    "https://wakatime.com/api/v1/users/current/summaries?start="@ + ascii_chars(
        pct_bytes(iso_bytes(start)),
    ) + "&end="@ + ascii_chars(pct_bytes(iso_bytes(end))) + match project {
        Some(p) => "&project="@ + ascii_chars(pct_bytes(p)),
        None => Seq::<char>::empty(),
    }
}

/// Builds the summaries request URL for a date range, optionally scoped to
/// one project.
pub fn summaries_request_url(start: &Date, end: &Date, project: Option<&str>) -> (r: String)
    requires
        start.valid(),
        end.valid(),
    ensures
        r@ == spec_request_url(
            *start,
            *end,
            match project {
                Some(p) => Some(p.spec_bytes()),
                None => None,
            },
        ),
{
    let mut url = String::from_str(
        "https://wakatime.com/api/v1/users/current/summaries?start=",
    );
    let s1 = start.format_iso();
    let e1 = encode(s1.as_str());
    proof {
        lemma_date_bytes_ascii(*start);
        lemma_encode_utf8_of_ascii(iso_bytes(*start));
        assert(e1@ == ascii_chars(pct_bytes(iso_bytes(*start))));
    }
    url.append(e1.as_str());
    url.append("&end=");
    let s2 = end.format_iso();
    let e2 = encode(s2.as_str());
    proof {
        lemma_date_bytes_ascii(*end);
        lemma_encode_utf8_of_ascii(iso_bytes(*end));
        assert(e2@ == ascii_chars(pct_bytes(iso_bytes(*end))));
    }
    url.append(e2.as_str());
    match project {
        Some(p) => {
            url.append("&project=");
            let ep = encode(p);
            url.append(ep.as_str());
            proof {
                assert(url@ =~= spec_request_url(*start, *end, Some(p.spec_bytes())));
            }
        },
        None => {
            proof {
                assert(url@ =~= spec_request_url(*start, *end, None::<Seq<u8>>));
            }
        },
    }
    url
}

} // verus!
