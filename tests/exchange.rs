use egg_mode::error::{Error, ErrorCode};
use egg_mode::exchange::{classify, make_raw_future, make_response, ExchangeState, RawFuture};
use egg_mode::headers::Headers;

fn rate_limit_body() -> Option<Vec<ErrorCode>> {
    Some(vec![ErrorCode { code: 88, message: "Rate limit exceeded".to_string() }])
}

fn run(status: u16, headers: Headers, body: &[u8], envelope: Option<Vec<ErrorCode>>) -> Result<String, Error> {
    let mut ex: RawFuture = make_raw_future();
    ex.dispatched().unwrap();
    ex.headers_received(status, headers).unwrap();
    let (a, b) = body.split_at(body.len() / 2);
    ex.chunk_received(a).unwrap();
    ex.chunk_received(b).unwrap();
    let text = ex.body_finished()?;
    let r = ex.finish(text, envelope);
    assert_eq!(ex.state, ExchangeState::Done);
    r
}

#[test]
fn rate_limit_code_with_reset_header_is_rate_limited() {
    let mut h = Headers::new();
    h.rate_limit_reset = Some(b"1600000000".to_vec());
    let body = br#"{"errors":[{"code":88,"message":"Rate limit exceeded"}]}"#;
    assert_eq!(run(429, h, body, rate_limit_body()), Err(Error::RateLimited(1600000000)));
}

#[test]
fn rate_limit_code_without_reset_header_is_service_error() {
    let body = br#"{"errors":[{"code":88,"message":"Rate limit exceeded"}]}"#;
    assert_eq!(run(429, Headers::new(), body, rate_limit_body()), Err(Error::ServiceError(rate_limit_body().unwrap())));
}

#[test]
fn other_error_code_is_service_error_even_on_success_status() {
    let mut h = Headers::new();
    h.rate_limit_reset = Some(b"10".to_vec());
    let errs = vec![ErrorCode { code: 34, message: "Sorry".to_string() }];
    assert_eq!(run(200, h, b"{}", Some(errs.clone())), Err(Error::ServiceError(errs)));
}

#[test]
fn non_json_body_with_server_error_is_bad_status() {
    assert_eq!(run(500, Headers::new(), b"Internal Server Error", None), Err(Error::BadStatus(500)));
}

#[test]
fn invalid_utf8_is_malformed_whatever_the_status() {
    assert_eq!(run(200, Headers::new(), &[0x7b, 0xff, 0xfe, 0x7d], None), Err(Error::MalformedBody));
    assert_eq!(run(500, Headers::new(), &[0xc3], None), Err(Error::MalformedBody));
}

#[test]
fn success_returns_the_whole_text_in_order() {
    let body = "[{\"id\":1},{\"id\":2}] h\u{e9}llo".as_bytes();
    assert_eq!(run(200, Headers::new(), body, None), Ok("[{\"id\":1},{\"id\":2}] h\u{e9}llo".to_string()));
}

#[test]
fn content_length_is_only_a_hint() {
    let mut h = Headers::new();
    h.content_length = Some(b"2".to_vec());
    assert_eq!(run(204, h, b"longer than two", None), Ok("longer than two".to_string()));
}

#[test]
fn steps_out_of_order_are_refused() {
    let mut ex = make_raw_future();
    assert_eq!(ex.chunk_received(b"x"), Err(Error::FutureAlreadyCompleted));
    assert_eq!(ex.body_finished(), Err(Error::FutureAlreadyCompleted));
    ex.dispatched().unwrap();
    assert_eq!(ex.dispatched(), Err(Error::FutureAlreadyCompleted));
    let e = ex.transport_failed("connection reset".to_string());
    assert_eq!(e, Error::Transport("connection reset".to_string()));
    assert_eq!(ex.state, ExchangeState::Done);
    assert_eq!(ex.finish(String::new(), None), Err(Error::FutureAlreadyCompleted));
}

#[test]
fn classify_bad_reset_header_reports_header_error() {
    let mut h = Headers::new();
    h.rate_limit_reset = Some(b"later".to_vec());
    assert_eq!(classify(429, &h, String::new(), rate_limit_body()), Err(Error::HeaderParse));
}

#[test]
fn make_response_wraps_value_with_header_limits() {
    let mut h = Headers::new();
    h.rate_limit_limit = Some(b"75".to_vec());
    h.rate_limit_remaining = Some(b"74".to_vec());
    h.rate_limit_reset = Some(b"1234".to_vec());
    let r = make_response(Ok(vec![1u8, 2]), &h).unwrap();
    assert_eq!((r.rate_limit, r.rate_limit_remaining, r.rate_limit_reset), (75, 74, 1234));
    assert_eq!(r.response, vec![1, 2]);
    let e = make_response::<u8>(Err("missing field `id`".to_string()), &h).unwrap_err();
    assert_eq!(e, Error::DecodeError("missing field `id`".to_string()));
}
