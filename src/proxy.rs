use vstd::prelude::*;
use vstd::string::StringExecFns;

use crate::cache::{inserted, lookup, Cache, CacheKey, CacheView, KeyView};

verus! {

/// A 2xx status: the only kind of origin answer that may be cached.
pub open spec fn is_success_status(status: u16) -> bool {
    200 <= status < 300
}

pub fn is_success(status: u16) -> (r: bool)
    ensures
        r == is_success_status(status),
{
    200 <= status && status < 300
}

/// The origin URL for a key: secure scheme, origin host, path, then `?query`
/// when the query string is not empty.
pub open spec fn origin_url_of(host: Seq<char>, k: KeyView) -> Seq<char> {
    let base = "https://"@ + host + k.0;
    if k.1.len() == 0 {
        base
    } else {
        base + "?"@ + k.1
    }
}

pub fn origin_url(origin_host: &str, key: &CacheKey) -> (r: String)
    ensures
        r@ == origin_url_of(origin_host@, key@),
{
    let mut url = "https://".to_owned();
    url.append(origin_host);
    url.append(key.path.as_str());
    if !key.query_string.as_str().is_empty() {
        url.append("?");
        url.append(key.query_string.as_str());
    }
    url
}

/// What the proxy answers with: a status code and a body.
#[derive(Debug)]
pub struct Reply {
    pub status: u16,
    pub body: Vec<u8>,
}

/// What the origin answered, when it answered at all.
#[derive(Debug)]
pub struct OriginResponse {
    pub status: u16,
    pub body: Vec<u8>,
}

/// The origin could not complete a request/response cycle.
#[derive(Debug, Clone, Copy, PartialEq, Eq, Structural)]
pub enum ProxyError {
    OriginUnreachable,
}

impl ProxyError {
    /// The status the proxy reports for this failure: 502, bad gateway.
    pub fn status(&self) -> (r: u16)
        ensures
            r == 502,
    {
        match self {
            ProxyError::OriginUnreachable => 502,
        }
    }
}

/// The first step of a request: served from the cache, or a fetch of the given URL.
#[derive(Debug)]
pub enum Lookup {
    Hit(Reply),
    Miss(String),
}

/// The cache after a fetch for `k` at `now`: a success status stores the body,
/// anything else leaves the cache as it was.
pub open spec fn after_fetch(c: CacheView, k: KeyView, status: u16, body: Seq<u8>, now: nat) -> CacheView {
    if is_success_status(status) {
        inserted(c, k, body, now)
    } else {
        c
    }
}

/// Consults the cache for `key` at `now`. A fresh entry is served with status 200;
/// otherwise the answer names the origin URL to fetch. The cache is only read.
pub fn begin_request(cache: &Cache, origin_host: &str, key: &CacheKey, now: u64) -> (r: Lookup)
    ensures
        match r {
            Lookup::Hit(reply) => reply.status == 200 && lookup(cache@, key@, now as nat) == Some(reply.body@),
            Lookup::Miss(url) => lookup(cache@, key@, now as nat) is None
                && url@ == origin_url_of(origin_host@, key@),
        },
{
    match cache.get(key, now) {
        Some(body) => Lookup::Hit(Reply { status: 200, body }),
        None => Lookup::Miss(origin_url(origin_host, key)),
    }
}

/// Completes a missed request with what the origin gave (`None` when it could not be
/// reached). A success is stored under `key` at `now` and answered with status 200;
/// any other status is passed through with its body and nothing is stored; an
/// unreachable origin is an error and nothing is stored.
pub fn finish_request(cache: &mut Cache, key: CacheKey, fetched: Option<OriginResponse>, now: u64) -> (r: Result<Reply, ProxyError>)
    ensures
        match fetched {
            None => r == Err::<Reply, ProxyError>(ProxyError::OriginUnreachable) && final(cache)@ == old(cache)@,
            Some(resp) => final(cache)@ == after_fetch(old(cache)@, key@, resp.status, resp.body@, now as nat)
                && match r {
                    Ok(reply) => reply.body@ == resp.body@
                        && reply.status == (if is_success_status(resp.status) { 200 } else { resp.status }),
                    Err(_) => false,
                },
        },
{
    match fetched {
        None => Err(ProxyError::OriginUnreachable),
        Some(resp) => {
            if is_success(resp.status) {
                let stored = resp.body.clone();
                assert(stored@ =~= resp.body@);
                cache.insert(key, stored, now);
                Ok(Reply { status: 200, body: resp.body })
            } else {
                Ok(Reply { status: resp.status, body: resp.body })
            }
        },
    }
}

} // verus!
