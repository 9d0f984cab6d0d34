use egg_mode::direct::{ConversationTimeline, DirectMessage, PageQuery, Timeline};
use egg_mode::error::Error;
use egg_mode::params::{decimal_string, signed_decimal_string, ParamList};
use egg_mode::response::Response;

const ME: u64 = 1;
const A: u64 = 2;
const B: u64 = 3;

fn dm(id: u64, sender: u64, recipient: u64) -> DirectMessage {
    DirectMessage {
        id,
        created_at: 1_500_000_000 + id as i64,
        text: format!("message {}", id),
        sender_screen_name: format!("user{}", sender),
        sender_id: sender,
        recipient_screen_name: format!("user{}", recipient),
        recipient_id: recipient,
    }
}

fn page(ids: &[u64]) -> Vec<DirectMessage> {
    ids.iter().map(|&id| dm(id, A, ME)).collect()
}

fn timeline() -> Timeline {
    Timeline::new("https://api.twitter.com/1.1/direct_messages.json".to_string(), None)
}

fn ok(msgs: Vec<DirectMessage>) -> Result<Response<Vec<DirectMessage>>, Error> {
    Ok(Response { rate_limit: 15, rate_limit_remaining: 14, rate_limit_reset: 100, response: msgs })
}

fn ids(msgs: &[DirectMessage]) -> Vec<u64> {
    msgs.iter().map(|m| m.id).collect()
}

#[test]
fn older_page_sets_bounds_from_first_and_last() {
    let mut t = timeline();
    let q = t.older(None);
    assert_eq!(q, PageQuery { count: 20, since_id: None, max_id: None });
    t.older_loaded(&page(&[105, 103, 98]));
    assert_eq!(t.max_id, Some(105));
    assert_eq!(t.min_id, Some(98));
    assert_eq!(t.older(None), PageQuery { count: 20, since_id: None, max_id: Some(97) });
    assert_eq!(t.older(Some(50)).since_id, Some(50));
}

#[test]
fn start_clears_bounds_before_fetching() {
    let mut t = timeline().with_page_size(10);
    t.older_loaded(&page(&[500, 400]));
    let q = t.start();
    assert_eq!(t.max_id, None);
    assert_eq!(t.min_id, None);
    assert_eq!(q, PageQuery { count: 10, since_id: None, max_id: None });
    t.older_loaded(&Vec::new());
    assert_eq!((t.max_id, t.min_id), (None, None));
    t.older_loaded(&page(&[500, 400]));
    let q = t.start();
    assert_eq!(q.max_id, None);
    t.older_loaded(&page(&[610, 600, 590]));
    assert_eq!((t.max_id, t.min_id), (Some(610), Some(590)));
}

#[test]
fn newer_with_nothing_new_keeps_bounds() {
    let mut t = timeline();
    t.older_loaded(&page(&[105, 103, 98]));
    let q1 = t.newer(None);
    assert_eq!(q1, PageQuery { count: 20, since_id: Some(105), max_id: None });
    t.newer_loaded(&Vec::new());
    let q2 = t.newer(None);
    t.newer_loaded(&Vec::new());
    assert_eq!(q1, q2);
    assert_eq!((t.max_id, t.min_id), (Some(105), Some(98)));
    t.newer_loaded(&page(&[120, 110]));
    assert_eq!((t.max_id, t.min_id), (Some(120), Some(110)));
}

#[test]
fn call_and_reset_do_not_touch_bounds_unexpectedly() {
    let mut t = timeline();
    t.older_loaded(&page(&[9, 8]));
    assert_eq!(t.call(Some(3), Some(7)), PageQuery { count: 20, since_id: Some(3), max_id: Some(7) });
    assert_eq!((t.max_id, t.min_id), (Some(9), Some(8)));
    t.reset();
    assert_eq!((t.max_id, t.min_id), (None, None));
}

#[test]
fn merge_sorts_into_descending_threads() {
    let mut c = ConversationTimeline::new(timeline(), timeline());
    let sent = vec![dm(10, ME, A), dm(8, ME, B)];
    let received = vec![dm(9, A, ME)];
    c.merge(sent, received);
    assert_eq!(ids(&c.conversations[&A]), vec![10, 9]);
    assert_eq!(ids(&c.conversations[&B]), vec![8]);
    assert_eq!(c.conversations.len(), 2);
    assert_eq!((c.last_sent, c.first_sent), (Some(10), Some(8)));
    assert_eq!((c.last_received, c.first_received), (Some(9), Some(9)));
}

#[test]
fn merge_extends_threads_on_the_right_side() {
    let mut c = ConversationTimeline::new(timeline(), timeline());
    c.merge(vec![dm(10, ME, A)], vec![dm(9, A, ME)]);
    c.merge(vec![dm(20, ME, A)], vec![dm(15, A, ME)]);
    assert_eq!(ids(&c.conversations[&A]), vec![20, 15, 10, 9]);
    c.merge(vec![dm(5, ME, A)], Vec::new());
    assert_eq!(ids(&c.conversations[&A]), vec![20, 15, 10, 9, 5]);
    assert_eq!((c.last_sent, c.first_sent), (Some(20), Some(5)));
    assert_eq!((c.last_received, c.first_received), (Some(15), Some(9)));
}

#[test]
fn merge_identity_from_received_side() {
    let mut c = ConversationTimeline::new(timeline(), timeline());
    c.merge(Vec::new(), vec![dm(7, B, ME), dm(6, A, ME)]);
    assert_eq!(ids(&c.conversations[&B]), vec![7]);
    assert_eq!(ids(&c.conversations[&A]), vec![6]);
    assert_eq!(c.last_sent, None);
}

#[test]
fn empty_newest_twice_changes_nothing() {
    let mut c = ConversationTimeline::new(timeline(), timeline());
    c.merge(vec![dm(10, ME, A)], vec![dm(9, A, ME)]);
    let q1 = c.newest();
    c.loaded(ok(Vec::new()), ok(Vec::new())).unwrap();
    let q2 = c.newest();
    c.loaded(ok(Vec::new()), ok(Vec::new())).unwrap();
    assert_eq!(q1, q2);
    assert_eq!(q1.0.since_id, Some(10));
    assert_eq!(q1.1.since_id, Some(9));
    assert_eq!(ids(&c.conversations[&A]), vec![10, 9]);
    assert_eq!((c.last_sent, c.last_received, c.first_sent, c.first_received), (Some(10), Some(9), Some(10), Some(9)));
}

#[test]
fn failed_side_leaves_cache_untouched() {
    let mut c = ConversationTimeline::new(timeline(), timeline()).with_page_size(200);
    assert_eq!(c.count, 200);
    let r = c.loaded(ok(vec![dm(10, ME, A)]), Err(Error::BadStatus(503)));
    assert_eq!(r, Err(Error::BadStatus(503)));
    let r = c.loaded(Err(Error::MalformedBody), Err(Error::BadStatus(503)));
    assert_eq!(r, Err(Error::MalformedBody));
    assert!(c.conversations.is_empty());
    assert_eq!(c.last_sent, None);
    let q = c.next();
    assert_eq!(q.0, PageQuery { count: 200, since_id: None, max_id: None });
}

#[test]
fn request_params_render_navigation() {
    let mut base = ParamList::new();
    base.add_param("full_text".to_string(), "true".to_string());
    let mut t = Timeline::new("https://x.test/dm.json".to_string(), Some(base)).with_page_size(-5);
    t.older_loaded(&page(&[18446744073709551615, 100]));
    let p = t.request_params(t.older(Some(7)));
    assert_eq!(p.len(), 4);
    assert_eq!(p.get(&"full_text".to_string()).cloned(), Some("true".to_string()));
    assert_eq!(p.get(&"count".to_string()).cloned(), Some("-5".to_string()));
    assert_eq!(p.get(&"since_id".to_string()).cloned(), Some("7".to_string()));
    assert_eq!(p.get(&"max_id".to_string()).cloned(), Some("99".to_string()));
    let p = t.request_params(t.newer(None));
    assert_eq!(p.get(&"since_id".to_string()).cloned(), Some("18446744073709551615".to_string()));
    assert_eq!(p.get(&"max_id".to_string()).cloned(), None);
}

#[test]
fn decimal_rendering() {
    assert_eq!(decimal_string(0), "0");
    assert_eq!(decimal_string(1200), "1200");
    assert_eq!(decimal_string(u64::MAX), "18446744073709551615");
    assert_eq!(signed_decimal_string(20), "20");
    assert_eq!(signed_decimal_string(i32::MIN), "-2147483648");
}

#[test]
fn conversation_requests_use_page_size_and_strict_bounds() {
    let mut c = ConversationTimeline::new(timeline(), timeline()).with_page_size(7);
    c.merge(vec![dm(10, ME, A), dm(8, ME, B)], vec![dm(9, A, ME)]);
    let (s, r) = c.next();
    assert_eq!(s, PageQuery { count: 7, since_id: None, max_id: Some(7) });
    assert_eq!(r, PageQuery { count: 7, since_id: None, max_id: Some(8) });
    let (s, r) = c.newest();
    assert_eq!(s, PageQuery { count: 7, since_id: Some(10), max_id: None });
    assert_eq!(r, PageQuery { count: 7, since_id: Some(9), max_id: None });
    let big = ConversationTimeline::new(timeline(), timeline()).with_page_size(u32::MAX);
    assert_eq!(big.newest().0.count, i32::MAX);
}
