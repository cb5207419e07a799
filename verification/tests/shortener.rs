use url_shortener::UrlError;
use url_shortener::normalize::normalize;
use url_shortener::store::ShortenStore;

#[test]
fn normalize_url_test() {
    let result = normalize("http://www.singularity6.com").unwrap();
    assert_eq!(result, "singularity6.com");
}

#[test]
fn shorten_url_test() {
    let mut store = ShortenStore::new();
    let code = store.shorten("http://www.singularity6.com").unwrap();
    let result = format!("http://localhost:8080/{}", code);
    assert_eq!(result, "http://localhost:8080/1");
}

#[test]
fn normalize_strips_scheme_path_and_www() {
    assert_eq!(normalize("http://www.example.com/path").unwrap(), "example.com");
}

#[test]
fn normalize_lowercases_host() {
    assert_eq!(normalize("http://EXAMPLE.Com/Some/Path?q=1#frag").unwrap(), "example.com");
    assert_eq!(normalize("https://WWW.Example.COM").unwrap(), "example.com");
}

#[test]
fn normalize_is_deterministic() {
    let a = normalize("https://Www.Example.com/one").unwrap();
    let b = normalize("https://Www.Example.com/one").unwrap();
    assert_eq!(a, b);
}

#[test]
fn normalize_strips_www_only_once() {
    assert_eq!(normalize("http://www.www.example.com").unwrap(), "www.example.com");
}

#[test]
fn normalize_host_ends_at_first_delimiter() {
    assert_eq!(normalize("http://example.com?x=/y").unwrap(), "example.com");
    assert_eq!(normalize("http://example.com#sec/tion").unwrap(), "example.com");
    assert_eq!(normalize("https://a-b_c.d9.org/").unwrap(), "a-b_c.d9.org");
}

#[test]
fn normalize_rejects_unsupported_scheme() {
    assert_eq!(normalize("ftp://example.com"), Err(UrlError::InvalidUrl));
    assert_eq!(normalize("httpx://example.com"), Err(UrlError::InvalidUrl));
    assert_eq!(normalize("example.com"), Err(UrlError::InvalidUrl));
    assert_eq!(normalize(""), Err(UrlError::InvalidUrl));
}

#[test]
fn normalize_rejects_bad_hosts() {
    // no host at all
    assert_eq!(normalize("http://"), Err(UrlError::InvalidUrl));
    assert_eq!(normalize("http:///path"), Err(UrlError::InvalidUrl));
    // a single label is not enough
    assert_eq!(normalize("http://localhost"), Err(UrlError::InvalidUrl));
    // empty labels
    assert_eq!(normalize("http://.com"), Err(UrlError::InvalidUrl));
    assert_eq!(normalize("http://example."), Err(UrlError::InvalidUrl));
    assert_eq!(normalize("http://a..b.com"), Err(UrlError::InvalidUrl));
    // a port is not part of a host label
    assert_eq!(normalize("http://localhost:8080"), Err(UrlError::InvalidUrl));
    // stripping www. must leave a valid host
    assert_eq!(normalize("http://www.com"), Err(UrlError::InvalidUrl));
}

#[test]
fn shorten_first_code_is_one_and_same_host_reuses_it() {
    let mut store = ShortenStore::new();
    assert_eq!(store.shorten("http://example.com"), Ok(1));
    // a different raw URL with the same normalized key gets the same code
    assert_eq!(store.shorten("https://example.com/"), Ok(1));
    assert_eq!(store.code_count(), 1);
}

#[test]
fn shorten_second_host_gets_next_code() {
    let mut store = ShortenStore::new();
    assert_eq!(store.shorten("http://example.com"), Ok(1));
    assert_eq!(store.shorten("https://example.com/"), Ok(1));
    assert_eq!(store.shorten("http://other.com"), Ok(2));
}

#[test]
fn shorten_is_idempotent_and_counter_stops() {
    let mut store = ShortenStore::new();
    let first = store.shorten("http://www.example.com/a").unwrap();
    for _ in 0..20 {
        assert_eq!(store.shorten("https://example.com/b"), Ok(first));
    }
    assert_eq!(store.code_count(), 1);
}

#[test]
fn shorten_gives_distinct_keys_distinct_codes() {
    let mut store = ShortenStore::new();
    let a = store.shorten("http://alpha.example.com").unwrap();
    let b = store.shorten("http://beta.example.com").unwrap();
    let c = store.shorten("http://alpha.example.com").unwrap();
    assert_ne!(a, b);
    assert_eq!(a, c);
}

#[test]
fn shorten_rejects_invalid_url_and_leaves_store_unchanged() {
    let mut store = ShortenStore::new();
    assert_eq!(store.shorten("http://example.com"), Ok(1));
    assert_eq!(store.shorten("ftp://example.com"), Err(UrlError::InvalidUrl));
    assert_eq!(store.code_count(), 1);
    assert_eq!(store.shorten("http://example.com"), Ok(1));
}

#[test]
fn resolve_round_trips_the_normalized_key() {
    let mut store = ShortenStore::new();
    let code = store.shorten("https://WWW.Example.com/long/path?x=1").unwrap();
    let key = store.resolve(code).unwrap();
    assert_eq!(key, normalize("https://WWW.Example.com/long/path?x=1").unwrap());
    assert_eq!(key, "example.com");
}

#[test]
fn resolve_scenario_known_and_unknown_codes() {
    let mut store = ShortenStore::new();
    assert_eq!(store.shorten("http://example.com"), Ok(1));
    assert_eq!(store.resolve(1).unwrap(), "example.com");
    assert_eq!(store.resolve(99), Err(UrlError::NotFound));
}

#[test]
fn resolve_rejects_zero_and_never_issued_codes() {
    let store = ShortenStore::new();
    assert_eq!(store.resolve(0), Err(UrlError::NotFound));
    assert_eq!(store.resolve(1), Err(UrlError::NotFound));
    assert_eq!(store.resolve(u32::MAX), Err(UrlError::NotFound));
}

#[test]
fn codes_stay_stable_as_the_store_grows() {
    let mut store = ShortenStore::new();
    let a = store.shorten("http://one.example.com").unwrap();
    let b = store.shorten("http://two.example.com").unwrap();
    let c = store.shorten("http://three.example.com").unwrap();
    assert_eq!((a, b, c), (1, 2, 3));
    assert_eq!(store.resolve(a).unwrap(), "one.example.com");
    assert_eq!(store.resolve(b).unwrap(), "two.example.com");
    assert_eq!(store.resolve(c).unwrap(), "three.example.com");
}
