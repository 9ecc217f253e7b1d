//! The computational side of the coordinator client and the batch fetcher:
//! building the effective query and the endpoint URLs, reading the
//! coordinator's answers, and decoding a worker's response body.  The HTTP
//! transport that carries these values lives outside the crate and hands
//! the bodies in as plain strings.

use vstd::prelude::*;
use vstd::string::StringExecFns;
use crate::model::{Query, QueryV, Worker, Error, Entry, entries_view};
use crate::num::{dec_rep, push_dec, parse_u64, u64_text_value};
use crate::text::{chars_of, string_from_chars};
use crate::json::{Json, JVal, sp_text, parse_json_text};
use crate::codec::jval_entries;
use crate::codec::jq_entries;

verus! {

/// The effective query of one fetch: the caller's query with `from_block`
/// replaced by the cursor height, every other field verbatim.
pub fn effective_query(height: u64, query: &Query) -> (r: Query)
    ensures
        r@ == (QueryV { from_block: height, ..query@ }),
{
    let mut q = query.clone();
    q.from_block = height;
    proof {
        assert(q@ =~= (QueryV { from_block: height, ..query@ }));
    }
    q
}

/// The coordinator's height endpoint.
pub fn height_url(base: &str) -> (r: String)
    ensures
        r@ == base@ + "/height"@,
{
    let mut s = String::from_str(base);
    s.append("/height");
    s
}

/// The coordinator's worker-resolution endpoint for `height`.
pub fn worker_url(base: &str, height: u64) -> (r: String)
    ensures
        r@ == base@ + "/"@ + dec_rep(height) + "/worker"@,
{
    let mut s = String::from_str(base);
    s.append("/");
    let mut digits: Vec<char> = Vec::new();
    push_dec(height, &mut digits);
    let d = string_from_chars(&digits);
    s.append(d.as_str());
    s.append("/worker");
    proof {
        assert(s@ =~= base@ + "/"@ + dec_rep(height) + "/worker"@);
    }
    s
}

/// Reads the coordinator's height text: `Ok` exactly on decimal `u64`
/// text, the offending text in the error otherwise.
pub fn parse_height(body: &str) -> (r: Result<u64, Error>)
    ensures
        match r {
            Ok(n) => u64_text_value(body@) == Some(n),
            Err(e) => u64_text_value(body@) is None && (e matches Error::Height(t) && t@
                == body@),
        },
{
    let v = chars_of(body);
    match parse_u64(&v) {
        Some(n) => Ok(n),
        None => Err(Error::Height(String::from_str(body))),
    }
}

/// Names what reqwest's URL parser accepts: syntactic URL validity, a
/// function of the text alone.
pub uninterp spec fn url_ok(s: Seq<char>) -> bool;

/// Relies on `reqwest::Url::parse` (the `url` crate's parser): whether it
/// accepts `s` depends on `s` alone.
#[verifier::external_body]
fn check_url(s: &str) -> (r: bool)
    ensures
        r == url_ok(s@),
{
    reqwest::Url::parse(s).is_ok()
}

/// Accepts worker-resolution text: a `Worker` exactly when the text is a
/// valid URL, the text itself in the error otherwise.
pub fn accept_worker(text: String) -> (r: Result<Worker, Error>)
    ensures
        match r {
            Ok(w) => url_ok(text@) && w.url@ == text@,
            Err(e) => !url_ok(text@) && (e matches Error::Worker(t) && t@ == text@),
        },
{
    if check_url(text.as_str()) {
        Ok(Worker { url: text })
    } else {
        Err(Error::Worker(text))
    }
}

/// Validates a coordinator base URL, as client construction does: the URL
/// back when valid, the constructor's failure otherwise.
pub fn accept_base_url(url: &str) -> (r: Result<String, Error>)
    ensures
        match r {
            Ok(u) => url_ok(url@) && u@ == url@,
            Err(e) => !url_ok(url@) && (e matches Error::Message(t) && t@ == "Invalid URL: "@
                + url@),
        },
{
    if check_url(url) {
        Ok(String::from_str(url))
    } else {
        let mut m = String::from_str("Invalid URL: ");
        m.append(url);
        Err(Error::Message(m))
    }
}

/// Decodes a worker's response body by its JSON shape: an array is the
/// batch, a bare string is a server-reported failure carried as the error
/// message, anything else is a JSON error holding the body.
pub fn decode_response(body: &str) -> (r: Result<Vec<Entry>, Error>)
    ensures
        match r {
            Ok(v) => (sp_text(body@) matches Some(j) && j matches JVal::Arr(es)
                && jval_entries(es) == Some(entries_view(v@))),
            Err(e) => match e {
                Error::Message(m) => sp_text(body@) == Some(JVal::Str(m@)),
                Error::Json(t) => t@ == body@ && (match sp_text(body@) {
                    None => true,
                    Some(j) => match j {
                        JVal::Arr(es) => jval_entries(es) is None,
                        JVal::Str(_) => false,
                        _ => true,
                    },
                }),
                _ => false,
            },
        },
{
    match parse_json_text(body) {
        None => Err(Error::Json(String::from_str(body))),
        Some(j) => match j {
            Json::Str(m) => Err(Error::Message(m)),
            Json::Arr(es) => match jq_entries(&es) {
                Some(v) => Ok(v),
                None => Err(Error::Json(String::from_str(body))),
            },
            _ => Err(Error::Json(String::from_str(body))),
        },
    }
}

} // verus!
