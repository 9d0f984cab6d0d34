use egg_mode::error::Error;
use egg_mode::headers::{parse_i32, rate_limit, Headers};
use egg_mode::response::{rate_headers, Response};

fn resp(limit: i32, remaining: i32, reset: i32, value: u32) -> Response<u32> {
    Response { rate_limit: limit, rate_limit_remaining: remaining, rate_limit_reset: reset, response: value }
}

#[test]
fn combine_keeps_latest_reset_and_payload_order() {
    let items = vec![resp(15, 10, 100, 1), resp(15, 7, 300, 2), resp(15, 9, 200, 3)];
    let r = Response::from_iter(items);
    assert_eq!(r.rate_limit_reset, 300);
    assert_eq!(r.rate_limit_remaining, 7);
    assert_eq!(r.rate_limit, 15);
    assert_eq!(r.response, vec![1, 2, 3]);
}

#[test]
fn combine_ties_keep_smallest_remaining() {
    let items = vec![resp(180, 50, 500, 1), resp(900, 20, 500, 2), resp(180, 30, 500, 3)];
    let r = Response::from_iter(items);
    assert_eq!(r.rate_limit_reset, 500);
    assert_eq!(r.rate_limit_remaining, 20);
    assert_eq!(r.rate_limit, 900);
    assert_eq!(r.response, vec![1, 2, 3]);
}

#[test]
fn combine_nothing_gives_defaults() {
    let r: Response<Vec<u32>> = Response::from_iter(Vec::new());
    assert_eq!((r.rate_limit, r.rate_limit_remaining, r.rate_limit_reset), (-1, -1, -1));
    assert!(r.response.is_empty());
}

#[test]
fn map_keeps_rate_limits() {
    let r = Response::map(resp(1, 2, 3, 20), |v| v * 2 + 1);
    assert_eq!((r.rate_limit, r.rate_limit_remaining, r.rate_limit_reset), (1, 2, 3));
    assert_eq!(r.response, 41);
    assert_eq!(*r.value(), 41);
}

#[test]
fn iterators_copy_rate_limits() {
    let mut r = Response { rate_limit: 5, rate_limit_remaining: 4, rate_limit_reset: 99, response: vec![10u32, 20, 30] };
    {
        let mut it = r.iter();
        assert_eq!(it.len(), 3);
        let first = it.next().unwrap();
        assert_eq!(*first.response, 10);
        assert_eq!(first.rate_limit_reset, 99);
        let last = it.next_back().unwrap();
        assert_eq!(*last.response, 30);
        assert_eq!(last.rate_limit_remaining, 4);
        assert_eq!(*it.next().unwrap().response, 20);
        assert!(it.next().is_none());
        assert!(it.next_back().is_none());
    }
    {
        let mut it = r.iter_mut();
        assert_eq!(it.len(), 3);
        let e = it.get_mut(1).unwrap();
        assert_eq!(e.rate_limit, 5);
        *e.response = 25;
        assert!(it.get_mut(3).is_none());
    }
    assert_eq!(r.response, vec![10, 25, 30]);
    let mut owned = r.into_iter();
    assert_eq!(owned.len(), 3);
    let a = owned.next().unwrap();
    assert_eq!((a.response, a.rate_limit), (10, 5));
    let c = owned.next_back().unwrap();
    assert_eq!((c.response, c.rate_limit_reset), (30, 99));
    assert_eq!(owned.next().unwrap().response, 25);
    assert!(owned.next().is_none());
}

#[test]
fn value_mut_changes_payload_only() {
    let mut r = resp(1, 2, 3, 4);
    *r.value_mut() = 9;
    assert_eq!(r.response, 9);
    assert_eq!(r.rate_limit_reset, 3);
}

#[test]
fn parse_i32_reads_signed_decimals() {
    assert_eq!(parse_i32(b"15"), Some(15));
    assert_eq!(parse_i32(b"+15"), Some(15));
    assert_eq!(parse_i32(b"-15"), Some(-15));
    assert_eq!(parse_i32(b"2147483647"), Some(i32::MAX));
    assert_eq!(parse_i32(b"-2147483648"), Some(i32::MIN));
    assert_eq!(parse_i32(b"2147483648"), None);
    assert_eq!(parse_i32(b"99999999999999999999"), None);
    assert_eq!(parse_i32(b""), None);
    assert_eq!(parse_i32(b"-"), None);
    assert_eq!(parse_i32(b"1a"), None);
    assert_eq!(parse_i32(b" 1"), None);
}

#[test]
fn rate_limit_header_errors() {
    assert_eq!(rate_limit(&None), Ok(None));
    assert_eq!(rate_limit(&Some(b"42".to_vec())), Ok(Some(42)));
    assert_eq!(rate_limit(&Some(vec![0xff, b'1'])), Err(Error::HeaderConvert));
    assert_eq!(rate_limit(&Some(b"soon".to_vec())), Err(Error::HeaderParse));
}

#[test]
fn rate_headers_default_to_minus_one() {
    let h = Headers::new();
    let r = rate_headers(&h).unwrap();
    assert_eq!((r.rate_limit, r.rate_limit_remaining, r.rate_limit_reset), (-1, -1, -1));
    let mut h = Headers::new();
    h.rate_limit_limit = Some(b"15".to_vec());
    h.rate_limit_reset = Some(b"1500000000".to_vec());
    let r = rate_headers(&h).unwrap();
    assert_eq!((r.rate_limit, r.rate_limit_remaining, r.rate_limit_reset), (15, -1, 1500000000));
    h.rate_limit_remaining = Some(b"x".to_vec());
    assert_eq!(rate_headers(&h).unwrap_err(), Error::HeaderParse);
}

#[test]
fn combine_keeps_figures_of_single_or_negative_inputs() {
    let r = Response::from_iter(vec![resp(3, 2, -5, 1)]);
    assert_eq!((r.rate_limit, r.rate_limit_remaining, r.rate_limit_reset), (3, 2, -5));
    let r = Response::from_iter(vec![resp(3, 5, -1, 1), resp(4, 6, -1, 2)]);
    assert_eq!((r.rate_limit, r.rate_limit_remaining, r.rate_limit_reset), (3, 5, -1));
    let whole = Response { rate_limit: 9, rate_limit_remaining: 8, rate_limit_reset: -5, response: vec![1u32, 2] };
    let mut it = whole.into_iter();
    let mut parts = Vec::new();
    while let Some(p) = it.next() {
        parts.push(p);
    }
    let again = Response::from_iter(parts);
    assert_eq!((again.rate_limit, again.rate_limit_remaining, again.rate_limit_reset), (9, 8, -5));
    assert_eq!(again.response, vec![1, 2]);
}
