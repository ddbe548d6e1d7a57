//! The remote lookup: one GET against the Bring postal-code service and the
//! reading of its JSON answer. Every transport or parse fault is absorbed
//! into an absent result; the validator then flattens absence into "not
//! valid".

use vstd::prelude::*;

use crate::json::{
    find_field, find_field_x, members_view, parse_json_object, spec_json_object, Scalar,
    SpecScalar,
};
use crate::text::{dec_rep, dec_string};

verus! {

/// The answer of the Bring API to a postal-code query. `valid` is the
/// authoritative verdict; the two text fields ride along unused.
pub struct BringResponse {
    pub result: String,
    pub valid: bool,
    pub postal_code_type: String,
}

/// What a response body must hold to be understood: one flat object with a
/// string under `result`, a boolean under `valid`, and a string under
/// `postalCodeType` (the wire name) or `postal_code_type`. A repeated key
/// reads as its first occurrence.
pub open spec fn spec_parse_bring(s: Seq<char>) -> Option<(Seq<char>, bool, Seq<char>)> {
    match spec_json_object(s) {
        Some(ms) => {
            let rr = find_field(ms, "result"@);
            let vv = find_field(ms, "valid"@);
            let tt = match find_field(ms, "postalCodeType"@) {
                Some(x) => Some(x),
                None => find_field(ms, "postal_code_type"@),
            };
            match (rr, vv, tt) {
                (Some(SpecScalar::Text(r)), Some(SpecScalar::Flag(b)), Some(
                    SpecScalar::Text(t),
                )) => Some((r, b, t)),
                _ => None,
            }
        },
        None => None,
    }
}

/// Read a response body into a `BringResponse`, failing exactly where the
/// body falls outside `spec_parse_bring`.
pub fn parse_bring_body(s: &str) -> (r: Option<BringResponse>)
    ensures
        (match (r, spec_parse_bring(s@)) {
            (Some(b), Some(t)) => b.result@ == t.0 && b.valid == t.1 && b.postal_code_type@
                == t.2,
            (None, None) => true,
            _ => false,
        }),
{
    let ms = match parse_json_object(s) {
        Some(ms) => ms,
        None => {
            return None;
        },
    };
    let ri = match find_field_x(&ms, "result") {
        Some(i) => i,
        None => {
            return None;
        },
    };
    let vi = match find_field_x(&ms, "valid") {
        Some(i) => i,
        None => {
            return None;
        },
    };
    let ti = match find_field_x(&ms, "postalCodeType") {
        Some(i) => Some(i),
        None => find_field_x(&ms, "postal_code_type"),
    };
    let ti = match ti {
        Some(i) => i,
        None => {
            return None;
        },
    };
    let rv = match &ms[ri].1 {
        Scalar::Text(v) => v,
        _ => {
            return None;
        },
    };
    let tv = match &ms[ti].1 {
        Scalar::Text(v) => v,
        _ => {
            return None;
        },
    };
    let b = match &ms[vi].1 {
        Scalar::Flag(b) => *b,
        _ => {
            return None;
        },
    };
    Some(
        BringResponse {
            result: chars_to_string(rv),
            valid: b,
            postal_code_type: chars_to_string(tv),
        },
    )
}

/// Flatten a remote outcome into the boolean the validator answers with:
/// the remote verdict when there is one, and "not valid" for any absent
/// result.
pub fn bring_verdict(r: &Option<BringResponse>) -> (v: bool)
    ensures
        v == (match *r {
            Some(b) => b.valid,
            None => false,
        }),
{
    match r {
        Some(b) => b.valid,
        None => false,
    }
}

/// The query URL for a code: a fixed endpoint with the code rendered in
/// base 10 as its final parameter.
pub open spec fn spec_bring_url(code: u32) -> Seq<char> {
    "https://api.bring.com/shippingguide/api/postalCode.json?clientUrl=swedish-postal-code&country=SE&pnr="@
        + dec_rep(code as nat)
}

/// Build the query URL for a code.
pub fn bring_url(code: u32) -> (s: String)
    ensures
        s@ == spec_bring_url(code),
{
    let mut s = String::from_str(
        "https://api.bring.com/shippingguide/api/postalCode.json?clientUrl=swedish-postal-code&country=SE&pnr=",
    );
    let digits = dec_string(code);
    s.append(digits.as_str());
    s
}

/// Relies on `String::from_iter` (through `Iterator::collect`): the built
/// string holds exactly the given characters, in order.
#[verifier::external_body]
fn chars_to_string(v: &Vec<char>) -> (s: String)
    ensures
        s@ == v@,
{
    v.iter().collect()
}

#[verifier::external_type_specification]
#[verifier::external_body]
pub struct ExClient(reqwest::blocking::Client);

/// Relies on `reqwest::blocking::ClientBuilder::build`: a fresh HTTP client
/// on success, and an error if the backend cannot be set up — absorbed here
/// into an absent client, which makes every later query report no result.
#[verifier::external_body]
pub(crate) fn new_http_client() -> (c: Option<reqwest::blocking::Client>) {
    reqwest::blocking::Client::builder().build().ok()
}

/// Relies on `reqwest::blocking`: `Client::get` and `RequestBuilder::send`
/// perform one GET of the given URL; `Response::error_for_status` turns any
/// client or server error status into an error; `Response::text` reads the
/// body. The call returns the body text only when the transport succeeded
/// and the status was no error, and nothing otherwise.
#[verifier::external_body]
pub(crate) fn http_get_text(client: &reqwest::blocking::Client, url: &str) -> (r: Option<String>) {
    client.get(url).send().and_then(|resp| resp.error_for_status()).and_then(
        |resp| resp.text(),
    ).ok()
}

} // verus!
