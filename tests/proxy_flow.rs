use ttl_proxy::cache::{Cache, CacheKey};
use ttl_proxy::proxy::{
    begin_request, finish_request, is_success, origin_url, Lookup, OriginResponse, ProxyError, Reply,
};

const HOST: &str = "origin.test";

fn key(path: &str, query: &str) -> CacheKey {
    CacheKey::new(path.to_string(), query.to_string())
}

/// Runs one request through the proxy against a simulated origin, counting contacts.
fn serve(
    c: &mut Cache,
    path: &str,
    now: u64,
    origin: &dyn Fn(&str) -> Option<OriginResponse>,
    contacts: &mut u32,
) -> Result<Reply, ProxyError> {
    match begin_request(c, HOST, &key(path, ""), now) {
        Lookup::Hit(reply) => Ok(reply),
        Lookup::Miss(url) => {
            *contacts += 1;
            finish_request(c, key(path, ""), origin(&url), now)
        }
    }
}

#[test]
fn url_without_query() {
    assert_eq!(origin_url("blockstream.info", &key("/api/blocks", "")), "https://blockstream.info/api/blocks");
}

#[test]
fn url_with_query() {
    assert_eq!(origin_url("example.org", &key("/s", "q=1&r=2")), "https://example.org/s?q=1&r=2");
}

#[test]
fn success_statuses() {
    assert!(!is_success(199));
    assert!(is_success(200));
    assert!(is_success(204));
    assert!(is_success(299));
    assert!(!is_success(300));
    assert!(!is_success(404));
    assert!(!is_success(503));
}

#[test]
fn scenario_hit_then_stale_refetch() {
    let mut c = Cache::new(30_000);
    let mut contacts = 0;
    let origin = |url: &str| {
        assert_eq!(url, "https://origin.test/x");
        Some(OriginResponse { status: 200, body: b"hello".to_vec() })
    };
    let r = serve(&mut c, "/x", 0, &origin, &mut contacts).unwrap();
    assert_eq!((r.status, r.body.as_slice()), (200, &b"hello"[..]));
    assert_eq!(contacts, 1);
    let r = serve(&mut c, "/x", 10_000, &origin, &mut contacts).unwrap();
    assert_eq!((r.status, r.body.as_slice()), (200, &b"hello"[..]));
    assert_eq!(contacts, 1);
    let r = serve(&mut c, "/x", 35_000, &origin, &mut contacts).unwrap();
    assert_eq!((r.status, r.body.as_slice()), (200, &b"hello"[..]));
    assert_eq!(contacts, 2);
}

#[test]
fn scenario_error_passes_through_uncached() {
    let mut c = Cache::new(30_000);
    let mut contacts = 0;
    let origin = |_: &str| Some(OriginResponse { status: 503, body: b"busy".to_vec() });
    let r = serve(&mut c, "/y", 0, &origin, &mut contacts).unwrap();
    assert_eq!((r.status, r.body.as_slice()), (503, &b"busy"[..]));
    assert_eq!(contacts, 1);
    let r = serve(&mut c, "/y", 0, &origin, &mut contacts).unwrap();
    assert_eq!((r.status, r.body.as_slice()), (503, &b"busy"[..]));
    assert_eq!(contacts, 2);
    assert_eq!(c.len(), 0);
}

#[test]
fn unreachable_origin_is_reported_and_not_cached() {
    let mut c = Cache::new(30_000);
    let r = finish_request(&mut c, key("/z", ""), None, 0);
    assert_eq!(r.unwrap_err(), ProxyError::OriginUnreachable);
    assert_eq!(ProxyError::OriginUnreachable.status(), 502);
    assert_eq!(c.len(), 0);
    assert!(matches!(begin_request(&c, HOST, &key("/z", ""), 0), Lookup::Miss(_)));
}

#[test]
fn other_success_status_is_cached_and_served_as_ok() {
    let mut c = Cache::new(30_000);
    let r = finish_request(&mut c, key("/n", "a=b"), Some(OriginResponse { status: 204, body: Vec::new() }), 0)
        .unwrap();
    assert_eq!(r.status, 200);
    assert_eq!(c.get(&key("/n", "a=b"), 1), Some(Vec::new()));
}

#[test]
fn miss_names_origin_url_with_query() {
    let c = Cache::new(30_000);
    match begin_request(&c, HOST, &key("/q", "k=v"), 0) {
        Lookup::Miss(url) => assert_eq!(url, "https://origin.test/q?k=v"),
        Lookup::Hit(_) => panic!("empty cache cannot hit"),
    }
}

#[test]
fn concurrent_misses_leave_one_entry() {
    let mut c = Cache::new(30_000);
    let n = 8;
    let mut urls = Vec::new();
    for _ in 0..n {
        match begin_request(&c, HOST, &key("/new", ""), 0) {
            Lookup::Miss(url) => urls.push(url),
            Lookup::Hit(_) => panic!("nothing was written back yet"),
        }
    }
    assert_eq!(urls.len(), n);
    for (i, _) in urls.iter().enumerate() {
        let body = vec![i as u8];
        let r = finish_request(&mut c, key("/new", ""), Some(OriginResponse { status: 200, body }), i as u64).unwrap();
        assert_eq!(r.body, vec![i as u8]);
    }
    assert_eq!(c.len(), 1);
    assert_eq!(c.get(&key("/new", ""), 10), Some(vec![(n - 1) as u8]));
}
