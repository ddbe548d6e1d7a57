//! Validation of Swedish postal codes.
//!
//! A validator holds an immutable table of known postal codes, loaded from an
//! embedded dataset, and optionally falls back to the Bring lookup service
//! when a code is missing locally. Any value that "looks like" a postal code
//! (integers of common widths, text) is first coerced to a canonical `u32`;
//! `0` is the landing place of every failed coercion and is never valid
//! locally.

use std::collections::HashMap;
use vstd::prelude::*;

pub mod dataset;
pub mod json;
pub mod laws;
mod looks_like;
pub mod table;
pub mod text;
mod remote;

pub use looks_like::LooksLikePostalCode;
pub use remote::{bring_verdict, parse_bring_body, spec_parse_bring, BringResponse};

use remote::{bring_url, http_get_text, new_http_client};
use table::{build_table, load_pairs, spec_table};

verus! {

broadcast use vstd::std_specs::hash::group_hash_axioms;

/// The validator: the local reference table, an HTTP client handle for the
/// optional remote fallback, and the fallback switch. Immutable once built.
pub struct PostalCode {
    client: Option<reqwest::blocking::Client>,
    codes: HashMap<u32, String>,
    http_fallback: bool,
}

/// Validate a postal code without keeping an instance around. The instance
/// is built afresh on every call — the embedded dataset is reloaded each
/// time — with the remote fallback enabled.
pub fn valid<T: LooksLikePostalCode>(code: T) -> (r: bool)
    ensures
        spec_table(dataset::spec_dataset()).contains_key(code.spec_as_u32()) ==> r,
        !spec_table(dataset::spec_dataset()).contains_key(code.spec_as_u32()) && r
            ==> exists|body: Seq<char>| #[trigger] spec_parse_bring(body) matches Some(t) && t.1,
{
    PostalCode::new(true).valid(code)
}

impl PostalCode {
    /// The local reference table: canonical code to locality name.
    pub closed spec fn table(&self) -> Map<u32, Seq<char>> {
        self.codes@.map_values(|v: String| v@)
    }

    /// Whether a local miss escalates to the remote service.
    pub closed spec fn fallback_enabled(&self) -> bool {
        self.http_fallback
    }

    /// Build a validator: load the embedded dataset into the local table
    /// and set up the HTTP client handle. Never fails; a malformed dataset
    /// only shortens (possibly empties) the table.
    pub fn new(http_fallback: bool) -> (pc: PostalCode)
        ensures
            pc.table() == spec_table(dataset::spec_dataset()),
            pc.fallback_enabled() == http_fallback,
    {
        let pairs = load_pairs(dataset::dataset_text());
        let codes = build_table(&pairs);
        PostalCode { client: new_http_client(), codes, http_fallback }
    }

    /// Check a postal code: a local hit is valid; a local miss is invalid
    /// unless the fallback is enabled, in which case the remote verdict
    /// decides and every remote fault counts as invalid.
    pub fn valid<T: LooksLikePostalCode>(&self, code: T) -> (r: bool)
        ensures
            self.table().contains_key(code.spec_as_u32()) ==> r,
            !self.table().contains_key(code.spec_as_u32()) && !self.fallback_enabled() ==> !r,
            !self.table().contains_key(code.spec_as_u32()) && r ==> exists|body: Seq<char>|
                #[trigger] spec_parse_bring(body) matches Some(t) && t.1,
    {
        let c = code.as_u32();
        let hit = self.codes.contains_key(&c);
        proof {
            assert(self.table().contains_key(c) == self.codes@.contains_key(c));
        }
        if !hit && self.http_fallback {
            self.valid_according_to_bring(c)
        } else {
            hit
        }
    }

    /// Query the Bring API for a postal code. An absent result stands for
    /// every failure mode alike: transport error, error status, or a body
    /// outside the understood form. Any present result was read from some
    /// body by `spec_parse_bring`.
    pub fn query_bring(&self, code: u32) -> (r: Option<BringResponse>)
        ensures
            (match r {
                Some(b) => exists|body: Seq<char>|
                    #[trigger] spec_parse_bring(body) matches Some(t) && b.result@ == t.0
                        && b.valid == t.1 && b.postal_code_type@ == t.2,
                None => true,
            }),
    {
        let url = bring_url(code);
        let client = match &self.client {
            Some(c) => c,
            None => {
                return None;
            },
        };
        let body = match http_get_text(client, url.as_str()) {
            Some(b) => b,
            None => {
                return None;
            },
        };
        let parsed = parse_bring_body(body.as_str());
        proof {
            if parsed is Some {
                let bd = body@;
                assert(spec_parse_bring(bd) matches Some(t) && parsed.unwrap().result@ == t.0
                    && parsed.unwrap().valid == t.1 && parsed.unwrap().postal_code_type@ == t.2);
            }
        }
        parsed
    }

    /// The flattened remote verdict for a code: what Bring answered, with
    /// every absent result collapsed into "not valid". It can answer "valid"
    /// only on the word of a body the response reader understood.
    fn valid_according_to_bring(&self, code: u32) -> (r: bool)
        ensures
            r ==> exists|body: Seq<char>|
                #[trigger] spec_parse_bring(body) matches Some(t) && t.1,
    {
        let outcome = self.query_bring(code);
        let v = bring_verdict(&outcome);
        proof {
            if v {
                let b = outcome.unwrap();
                let body = choose|body: Seq<char>|
                    #[trigger] spec_parse_bring(body) matches Some(t) && b.result@ == t.0
                        && b.valid == t.1 && b.postal_code_type@ == t.2;
                assert(spec_parse_bring(body) matches Some(t) && t.1);
            }
        }
        v
    }
}

} // verus!
