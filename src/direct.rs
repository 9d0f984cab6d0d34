//! Direct messages: the cursor over a stream of messages, and the loader that weaves the sent
//! and received streams into per-counterpart threads.

use vstd::prelude::*;

use crate::error::Error;
use crate::params::{decimal_of, decimal_string, signed_decimal_of, signed_decimal_string, ParamList};
use crate::response::Response;

verus! {

broadcast use vstd::std_specs::hash::group_hash_axioms;

/// A single direct message, with the fields that the paging and threading logic reads.
#[derive(Debug, Clone, PartialEq, Eq)]
pub struct DirectMessage {
    /// Numeric ID of the message; later messages have larger IDs.
    pub id: u64,
    /// UTC Unix timestamp, in seconds, at which the message was created.
    pub created_at: i64,
    /// The text of the message.
    pub text: String,
    /// The screen name of the sender.
    pub sender_screen_name: String,
    /// The ID of the sender.
    pub sender_id: u64,
    /// The screen name of the recipient.
    pub recipient_screen_name: String,
    /// The ID of the recipient.
    pub recipient_id: u64,
}

/// The navigation part of one page request of a timeline: the page size and the bounds. The
/// caller sends it to the timeline's endpoint with the timeline's fixed parameters;
/// `since_id` is exclusive and `max_id` inclusive.
#[derive(Debug, Clone, Copy, PartialEq, Eq, Structural)]
pub struct PageQuery {
    /// The number of messages asked for.
    pub count: i32,
    /// Only messages with a larger ID are returned.
    pub since_id: Option<u64>,
    /// Only messages with this ID or a smaller one are returned.
    pub max_id: Option<u64>,
}

/// A cursor over a collection of direct messages, tracking the newest and oldest IDs of the
/// last page loaded so that older or newer pages can be asked for.
///
/// A timeline must not have two bound-changing page loads in flight at once.
#[derive(Debug)]
pub struct Timeline {
    /// The endpoint that messages are requested from.
    pub link: String,
    /// Parameters sent before the navigation parameters with every request.
    pub params_base: Option<ParamList>,
    /// The number of messages asked for per page; the service may return fewer.
    pub count: i32,
    /// The largest (most recent) ID of the last page loaded.
    pub max_id: Option<u64>,
    /// The smallest (oldest) ID of the last page loaded.
    pub min_id: Option<u64>,
}

/// The ID just below `id`; zero stays zero.
pub open spec fn below(id: u64) -> u64 {
    if id == 0 {
        0
    } else {
        (id - 1) as u64
    }
}

/// The bounds `(max_id, min_id)` that a loaded page gives: its first and last IDs, or none for an
/// empty page.
pub open spec fn page_bounds(page: Seq<DirectMessage>) -> (Option<u64>, Option<u64>) {
    if page.len() == 0 {
        (None, None)
    } else {
        (Some(page[0].id), Some(page.last().id))
    }
}

/// The parameters a page request sends: the fixed parameters `base`, then the page size and
/// the bounds that are given, in decimal.
pub open spec fn page_params(base: Map<Seq<char>, Seq<char>>, q: PageQuery) -> Map<
    Seq<char>,
    Seq<char>,
> {
    let with_count = base.insert("count"@, signed_decimal_of(q.count as int));
    let with_since = match q.since_id {
        Some(id) => with_count.insert("since_id"@, decimal_of(id as nat)),
        None => with_count,
    };
    match q.max_id {
        Some(id) => with_since.insert("max_id"@, decimal_of(id as nat)),
        None => with_since,
    }
}

impl Timeline {
    /// The fixed parameters of the timeline as a mapping.
    pub open spec fn base_params(self) -> Map<Seq<char>, Seq<char>> {
        match self.params_base {
            Some(p) => p.view(),
            None => Map::empty(),
        }
    }

    /// The parameters to send for the page request `q` of this timeline.
    pub fn request_params(&self, q: PageQuery) -> (r: ParamList)
        ensures
            r.wf(),
            r.view() == page_params(self.base_params(), q),
    {
        let mut params = match &self.params_base {
            Some(p) => p.duplicate(),
            None => ParamList::new(),
        };
        params.add_param("count".to_owned(), signed_decimal_string(q.count));
        if let Some(id) = q.since_id {
            params.add_param("since_id".to_owned(), decimal_string(id));
        }
        if let Some(id) = q.max_id {
            params.add_param("max_id".to_owned(), decimal_string(id));
        }
        params
    }

    /// The query a timeline sends for the bounds given.
    pub open spec fn query_spec(self, since_id: Option<u64>, max_id: Option<u64>) -> PageQuery {
        PageQuery { count: self.count, since_id, max_id }
    }

    /// The query for the page older than the last one loaded, and newer than `since_id`.
    pub open spec fn older_spec(self, since_id: Option<u64>) -> PageQuery {
        self.query_spec(
            since_id,
            match self.min_id {
                Some(id) => Some(below(id)),
                None => None,
            },
        )
    }

    /// The query for the page newer than the last one loaded, and no newer than `max_id`.
    pub open spec fn newer_spec(self, max_id: Option<u64>) -> PageQuery {
        self.query_spec(self.max_id, max_id)
    }

    /// The timeline after an older page (or a first page) `page` was loaded.
    pub open spec fn after_older(self, page: Seq<DirectMessage>) -> Timeline {
        Timeline { max_id: page_bounds(page).0, min_id: page_bounds(page).1, ..self }
    }

    /// The timeline after a newer page `page` was loaded: an empty page leaves the bounds as
    /// they were.
    pub open spec fn after_newer(self, page: Seq<DirectMessage>) -> Timeline {
        if page.len() == 0 {
            self
        } else {
            self.after_older(page)
        }
    }

    /// A timeline over `link` with the given fixed parameters, a page size of 20 and no bounds.
    pub fn new(link: String, params_base: Option<ParamList>) -> (r: Timeline)
        ensures
            r.link == link,
            r.params_base == params_base,
            r.count == 20,
            r.max_id is None,
            r.min_id is None,
    {
        Timeline { link, params_base, count: 20, max_id: None, min_id: None }
    }

    /// Clear the tracked IDs.
    pub fn reset(&mut self)
        ensures
            *final(self) == (Timeline { max_id: None, min_id: None, ..*old(self) }),
    {
        self.max_id = None;
        self.min_id = None;
    }

    /// Set the page size; requests already built are not affected.
    pub fn with_page_size(self, page_size: i32) -> (r: Timeline)
        ensures
            r == (Timeline { count: page_size, ..self }),
    {
        Timeline { count: page_size, ..self }
    }

    /// The request for the messages between the IDs given.
    fn request(&self, since_id: Option<u64>, max_id: Option<u64>) -> (r: PageQuery)
        ensures
            r == self.query_spec(since_id, max_id),
    {
        PageQuery { count: self.count, since_id, max_id }
    }

    /// Clear the tracked IDs and return the request for the most recent page. Its result is to be
    /// handed to [`Timeline::older_loaded`].
    pub fn start(&mut self) -> (r: PageQuery)
        ensures
            final(self).max_id is None,
            final(self).min_id is None,
            *final(self) == (Timeline { max_id: None, min_id: None, ..*old(self) }),
            r == final(self).older_spec(None),
    {
        self.reset();
        self.older(None)
    }

    /// The request for the messages older than the last page loaded, and newer than `since_id`
    /// when it is given. Its result is to be handed to [`Timeline::older_loaded`].
    pub fn older(&self, since_id: Option<u64>) -> (r: PageQuery)
        ensures
            r == self.older_spec(since_id),
    {
        let max_id = match self.min_id {
            Some(id) => Some(if id == 0 {
                0
            } else {
                id - 1
            }),
            None => None,
        };
        self.request(since_id, max_id)
    }

    /// The request for the messages newer than the last page loaded, and no newer than `max_id`
    /// when it is given. Its result is to be handed to [`Timeline::newer_loaded`].
    pub fn newer(&self, max_id: Option<u64>) -> (r: PageQuery)
        ensures
            r == self.newer_spec(max_id),
    {
        self.request(self.max_id, max_id)
    }

    /// The request for the messages between the IDs given: newer than `since_id`, and no newer
    /// than `max_id`. The tracked IDs are not used or changed.
    pub fn call(&self, since_id: Option<u64>, max_id: Option<u64>) -> (r: PageQuery)
        ensures
            r == self.query_spec(since_id, max_id),
    {
        self.request(since_id, max_id)
    }

    /// Set the tracked IDs from a loaded page: its first and last IDs, or none when it is empty.
    fn map_ids(&mut self, page: &Vec<DirectMessage>)
        ensures
            *final(self) == old(self).after_older(page@),
    {
        if page.len() == 0 {
            self.max_id = None;
            self.min_id = None;
        } else {
            self.max_id = Some(page[0].id);
            self.min_id = Some(page[page.len() - 1].id);
        }
    }

    /// Record the page returned for [`Timeline::start`] or [`Timeline::older`]: the tracked IDs
    /// become its first and last IDs, or none when it is empty.
    pub fn older_loaded(&mut self, page: &Vec<DirectMessage>)
        ensures
            *final(self) == old(self).after_older(page@),
    {
        self.map_ids(page);
    }

    /// Record the page returned for [`Timeline::newer`]: the tracked IDs become its first and
    /// last IDs; an empty page, meaning nothing new, leaves them as they were.
    pub fn newer_loaded(&mut self, page: &Vec<DirectMessage>)
        ensures
            *final(self) == old(self).after_newer(page@),
    {
        if page.len() > 0 {
            self.map_ids(page);
        }
    }
}

/// Starting afresh ignores whatever bounds the timeline held: the request is the unbounded
/// newest page, and once it is loaded the bounds are those of that page alone (none when it is
/// empty, its first and last IDs otherwise).
pub proof fn lemma_start_forgets_bounds(t: Timeline, u: Timeline, page: Seq<DirectMessage>)
    requires
        t.count == u.count,
    ensures
        (Timeline { max_id: None, min_id: None, ..t }).older_spec(None) == (Timeline {
            max_id: None,
            min_id: None,
            ..u
        }).older_spec(None),
        (Timeline { max_id: None, min_id: None, ..t }).older_spec(None).since_id is None,
        (Timeline { max_id: None, min_id: None, ..t }).older_spec(None).max_id is None,
        (Timeline { max_id: None, min_id: None, ..t }).after_older(page).max_id == page_bounds(
            page,
        ).0,
        (Timeline { max_id: None, min_id: None, ..t }).after_older(page).min_id == page_bounds(
            page,
        ).1,
        page.len() == 0 ==> (Timeline { max_id: None, min_id: None, ..t }).after_older(
            page,
        ).max_id is None && (Timeline { max_id: None, min_id: None, ..t }).after_older(
            page,
        ).min_id is None,
        page.len() > 0 ==> (Timeline { max_id: None, min_id: None, ..t }).after_older(page).max_id
            == Some(page[0].id) && (Timeline { max_id: None, min_id: None, ..t }).after_older(
            page,
        ).min_id == Some(page.last().id),
{
}

/// Asking for newer messages when there are none leaves the timeline as it was, so asking again
/// sends the same request and again changes nothing.
pub proof fn lemma_newer_idempotent(t: Timeline, max_id: Option<u64>)
    ensures
        t.after_newer(Seq::empty()) == t,
        t.after_newer(Seq::empty()).newer_spec(max_id) == t.newer_spec(max_id),
        t.after_newer(Seq::empty()).after_newer(Seq::empty()) == t.after_newer(Seq::empty()),
{
}

/// The larger of two optional IDs; an absent one gives way to the other.
pub open spec fn max_opt(a: Option<u64>, b: Option<u64>) -> Option<u64> {
    match (a, b) {
        (Some(x), Some(y)) => Some(if x >= y { x } else { y }),
        (Some(x), None) => Some(x),
        (None, y) => y,
    }
}

/// The smaller of two optional IDs; an absent one gives way to the other.
pub open spec fn min_opt(a: Option<u64>, b: Option<u64>) -> Option<u64> {
    match (a, b) {
        (Some(x), Some(y)) => Some(if x <= y { x } else { y }),
        (Some(x), None) => Some(x),
        (None, y) => y,
    }
}

/// The ID of the first message of a page, if any.
pub open spec fn first_id(page: Seq<DirectMessage>) -> Option<u64> {
    if page.len() > 0 {
        Some(page[0].id)
    } else {
        None
    }
}

/// The ID of the last message of a page, if any.
pub open spec fn last_id(page: Seq<DirectMessage>) -> Option<u64> {
    if page.len() > 0 {
        Some(page.last().id)
    } else {
        None
    }
}

/// The interleaving of two newest-first streams into one: at each step the head with the larger
/// ID goes first, the second stream's head on equal IDs.
pub open spec fn merge_desc(a: Seq<DirectMessage>, b: Seq<DirectMessage>) -> Seq<DirectMessage>
    decreases a.len() + b.len(),
{
    if a.len() == 0 {
        b
    } else if b.len() == 0 {
        a
    } else if a[0].id > b[0].id {
        seq![a[0]] + merge_desc(a.drop_first(), b)
    } else {
        seq![b[0]] + merge_desc(a, b.drop_first())
    }
}

/// The other party of a message, seen from the account `me`.
pub open spec fn counterpart(m: DirectMessage, me: u64) -> u64 {
    if m.sender_id == me {
        m.recipient_id
    } else {
        m.sender_id
    }
}

/// The thread kept for `k`, or an empty one.
pub open spec fn thread_of(threads: Map<u64, Seq<DirectMessage>>, k: u64) -> Seq<DirectMessage> {
    if threads.contains_key(k) {
        threads[k]
    } else {
        Seq::empty()
    }
}

/// The messages of `ms` sorted into threads by counterpart, each thread in the order of `ms`.
pub open spec fn group(ms: Seq<DirectMessage>, me: u64) -> Map<u64, Seq<DirectMessage>>
    decreases ms.len(),
{
    if ms.len() == 0 {
        Map::empty()
    } else {
        let g = group(ms.drop_last(), me);
        let k = counterpart(ms.last(), me);
        g.insert(k, thread_of(g, k).push(ms.last()))
    }
}

/// The ID of the first message of a thread, or zero for an empty one.
pub open spec fn head_id(t: Seq<DirectMessage>) -> u64 {
    if t.len() > 0 {
        t[0].id
    } else {
        0
    }
}

/// A cached thread extended by newly loaded messages: the side with the larger head goes first.
pub open spec fn join_thread(cached: Seq<DirectMessage>, fresh: Seq<DirectMessage>) -> Seq<DirectMessage> {
    if head_id(cached) > head_id(fresh) {
        cached + fresh
    } else {
        fresh + cached
    }
}

/// The cache after the newly loaded threads `fresh` are folded into it.
pub open spec fn fold_threads(
    cache: Map<u64, Seq<DirectMessage>>,
    fresh: Map<u64, Seq<DirectMessage>>,
) -> Map<u64, Seq<DirectMessage>> {
    Map::new(
        |k: u64| cache.contains_key(k) || fresh.contains_key(k),
        |k: u64|
            if fresh.contains_key(k) {
                join_thread(thread_of(cache, k), fresh[k])
            } else {
                cache[k]
            },
    )
}

/// The authenticated account, as the sender of the first sent message or else the recipient of
/// the first received one.
pub open spec fn identity_of(sent: Seq<DirectMessage>, received: Seq<DirectMessage>) -> Option<u64> {
    if sent.len() > 0 {
        Some(sent[0].sender_id)
    } else if received.len() > 0 {
        Some(received[0].recipient_id)
    } else {
        None
    }
}

/// The cache after the pages `sent` and `received` are merged into it; with no identity to
/// sort by, the cache is unchanged.
pub open spec fn merged_threads(
    cache: Map<u64, Seq<DirectMessage>>,
    sent: Seq<DirectMessage>,
    received: Seq<DirectMessage>,
) -> Map<u64, Seq<DirectMessage>> {
    match identity_of(sent, received) {
        Some(me) => fold_threads(cache, group(merge_desc(sent, received), me)),
        None => cache,
    }
}

/// The threads of a map of message vectors.
pub open spec fn threads_view(m: Map<u64, Vec<DirectMessage>>) -> Map<u64, Seq<DirectMessage>> {
    m.map_values(|v: Vec<DirectMessage>| v@)
}

/// Interleave two newest-first streams into one.
fn merge_by_id(sent: Vec<DirectMessage>, received: Vec<DirectMessage>) -> (r: Vec<DirectMessage>)
    ensures
        r@ == merge_desc(sent@, received@),
{
    let mut a = sent;
    let mut b = received;
    let mut out: Vec<DirectMessage> = Vec::new();
    while a.len() > 0 || b.len() > 0
        invariant
            out@ + merge_desc(a@, b@) == merge_desc(sent@, received@),
        decreases a.len() + b.len(),
    {
        let ghost a0 = a@;
        let ghost b0 = b@;
        if a.len() == 0 {
            let m = b.remove(0);
            proof {
                assert(merge_desc(a0, b0) =~= seq![m] + merge_desc(a@, b@));
            }
            out.push(m);
        } else if b.len() == 0 {
            let m = a.remove(0);
            proof {
                assert(merge_desc(a0, b0) =~= seq![m] + merge_desc(a@, b@));
            }
            out.push(m);
        } else if a[0].id > b[0].id {
            let m = a.remove(0);
            proof {
                assert(a@ =~= a0.drop_first());
                assert(merge_desc(a0, b0) =~= seq![m] + merge_desc(a@, b@));
            }
            out.push(m);
        } else {
            let m = b.remove(0);
            proof {
                assert(b@ =~= b0.drop_first());
                assert(merge_desc(a0, b0) =~= seq![m] + merge_desc(a@, b@));
            }
            out.push(m);
        }
        proof {
            assert(out@ + merge_desc(a@, b@) =~= out@.drop_last() + (seq![out@.last()] + merge_desc(
                a@,
                b@,
            )));
        }
    }
    proof {
        assert(merge_desc(a@, b@) =~= Seq::<DirectMessage>::empty());
        assert(out@ + merge_desc(a@, b@) =~= out@);
    }
    out
}

/// Sort messages into threads by counterpart, keeping their order; also give the counterparts
/// in order of first appearance.
fn group_by_counterpart(merged: Vec<DirectMessage>, me: u64) -> (r: (
    std::collections::HashMap<u64, Vec<DirectMessage>>,
    Vec<u64>,
))
    ensures
        threads_view(r.0@) == group(merged@, me),
        r.1@.no_duplicates(),
        forall|k: u64| r.0@.contains_key(k) <==> r.1@.contains(k),
{
    let ghost all = merged@;
    let mut ms = merged;
    let mut threads: std::collections::HashMap<u64, Vec<DirectMessage>> =
        std::collections::HashMap::new();
    let mut keys: Vec<u64> = Vec::new();
    let ghost mut done: int = 0;
    proof {
        assert(threads_view(threads@) =~= group(all.subrange(0, 0), me));
    }
    while ms.len() > 0
        invariant
            0 <= done <= all.len(),
            ms@ == all.subrange(done, all.len() as int),
            threads_view(threads@) == group(all.subrange(0, done), me),
            keys@.no_duplicates(),
            forall|k: u64| threads@.contains_key(k) <==> keys@.contains(k),
        decreases ms.len(),
    {
        let m = ms.remove(0);
        let k = if m.sender_id == me {
            m.recipient_id
        } else {
            m.sender_id
        };
        let ghost g = group(all.subrange(0, done), me);
        let ghost old_keys = keys@;
        let ghost old_threads = threads@;
        assert(forall|q: u64| old_threads.contains_key(q) <==> old_keys.contains(q));
        proof {
            let pre = all.subrange(0, done + 1);
            assert(pre.drop_last() =~= all.subrange(0, done));
            assert(pre.last() == m);
            assert(group(pre, me) == g.insert(k, thread_of(g, k).push(m)));
        }
        match threads.remove(&k) {
            Some(t) => {
                let mut t = t;
                proof {
                    assert(g.contains_key(k));
                    assert(t@ == g[k]);
                }
                t.push(m);
                threads.insert(k, t);
            },
            None => {
                proof {
                    assert(!g.contains_key(k));
                    assert(!keys@.contains(k));
                }
                keys.push(k);
                let mut t: Vec<DirectMessage> = Vec::new();
                t.push(m);
                proof {
                    assert(t@ =~= thread_of(g, k).push(m));
                }
                threads.insert(k, t);
            },
        }
        proof {
            done = done + 1;
            assert(ms@ =~= all.subrange(done, all.len() as int));
            assert(threads_view(threads@) =~= group(all.subrange(0, done), me));
            assert(threads@.dom() =~= old_threads.dom().insert(k));
            if keys@.len() > old_keys.len() {
                assert(keys@ == old_keys.push(k));
                assert forall|q: u64| keys@.contains(q) <==> (old_keys.contains(q) || q == k) by {
                    if old_keys.contains(q) {
                        let j = choose|j: int| 0 <= j < old_keys.len() && old_keys[j] == q;
                        assert(keys@[j] == q);
                    }
                    if q == k {
                        assert(keys@[old_keys.len() as int] == q);
                    }
                    if keys@.contains(q) {
                        let j = choose|j: int| 0 <= j < keys@.len() && keys@[j] == q;
                        if j < old_keys.len() {
                            assert(old_keys[j] == q);
                        }
                    }
                }
            } else {
                assert(old_threads.contains_key(k));
                assert(keys@ == old_keys);
            }
            assert forall|q: u64| threads@.contains_key(q) <==> keys@.contains(q) by {
                assert(threads@.dom().contains(q) <==> old_threads.dom().insert(k).contains(q));
                assert(old_threads.contains_key(q) <==> old_keys.contains(q));
            }
        }
    }
    proof {
        assert(all.subrange(0, done) =~= all);
    }
    (threads, keys)
}

/// Fold newly loaded threads into the cache. `keys` lists the counterparts of `fresh`, once each.
fn merge_threads(
    this: &mut std::collections::HashMap<u64, Vec<DirectMessage>>,
    fresh: std::collections::HashMap<u64, Vec<DirectMessage>>,
    keys: Vec<u64>,
)
    requires
        keys@.no_duplicates(),
        forall|k: u64| fresh@.contains_key(k) <==> keys@.contains(k),
    ensures
        threads_view(final(this)@) == fold_threads(threads_view(old(this)@), threads_view(fresh@)),
{
    let ghost c0 = threads_view(this@);
    let ghost f0 = threads_view(fresh@);
    let mut fresh = fresh;
    let mut i: usize = 0;
    proof {
        assert(threads_view(this@) =~= fold_threads(c0, f0.restrict(keys@.subrange(0, 0).to_set())));
        assert forall|j: int|
            i <= j < keys@.len() implies fresh@.contains_key(#[trigger] keys@[j]) && fresh@[keys@[j]]@
                == f0[keys@[j]] by {
            assert(keys@.contains(keys@[j]));
        }
    }
    while i < keys.len()
        invariant
            i <= keys@.len(),
            keys@.no_duplicates(),
            forall|k: u64| f0.contains_key(k) <==> keys@.contains(k),
            threads_view(this@) == fold_threads(c0, f0.restrict(keys@.subrange(0, i as int).to_set())),
            forall|j: int|
                i <= j < keys@.len() ==> fresh@.contains_key(#[trigger] keys@[j]) && fresh@[keys@[j]]@
                    == f0[keys@[j]],
        decreases keys.len() - i,
    {
        let k = keys[i];
        let ghost i0 = i as int;
        let ghost done = keys@.subrange(0, i0).to_set();
        let ghost cur = threads_view(this@);
        proof {
            assert(!done.contains(k)) by {
                if done.contains(k) {
                    let j = choose|j: int| 0 <= j < i && keys@.subrange(0, i as int)[j] == k;
                    assert(keys@[j] == keys@[i as int]);
                }
            }
            assert(thread_of(cur, k) == thread_of(c0, k));
        }
        let mut convo = match fresh.remove(&k) {
            Some(v) => v,
            None => Vec::new(),
        };
        let mut old_convo = match this.remove(&k) {
            Some(v) => v,
            None => Vec::new(),
        };
        proof {
            assert(convo@ == f0[k]);
            assert(old_convo@ == thread_of(c0, k));
        }
        let old_head: u64 = if old_convo.len() > 0 {
            old_convo[0].id
        } else {
            0
        };
        let new_head: u64 = if convo.len() > 0 {
            convo[0].id
        } else {
            0
        };
        let joined = if old_head > new_head {
            old_convo.append(&mut convo);
            old_convo
        } else {
            convo.append(&mut old_convo);
            convo
        };
        let ghost jv = joined@;
        let ghost removed = this@;
        proof {
            assert(jv == join_thread(thread_of(c0, k), f0[k]));
            assert(threads_view(removed) =~= cur.remove(k));
        }
        this.insert(k, joined);
        proof {
            assert(threads_view(this@) =~= cur.insert(k, jv));
        }
        i = i + 1;
        proof {
            let done2 = keys@.subrange(0, i as int).to_set();
            assert(done2 =~= done.insert(k)) by {
                assert forall|q: u64| done2.contains(q) <==> done.insert(k).contains(q) by {
                    if done2.contains(q) {
                        let j = choose|j: int| 0 <= j < i && keys@.subrange(0, i as int)[j] == q;
                        if j < i0 {
                            assert(keys@.subrange(0, i0)[j] == q);
                        }
                    }
                    if done.contains(q) {
                        let j = choose|j: int| 0 <= j < i0 && #[trigger] keys@.subrange(0, i0)[j] == q;
                        assert(keys@.subrange(0, i as int)[j] == q);
                    }
                    if q == k {
                        assert(keys@.subrange(0, i as int)[i0] == q);
                    }
                }
            }
            assert(f0.contains_key(k)) by {
                assert(keys@[i0] == k);
            }
            assert(fold_threads(c0, f0.restrict(done2)) =~= fold_threads(c0, f0.restrict(done)).insert(
                k,
                join_thread(thread_of(c0, k), f0[k]),
            ));
            assert forall|j: int|
                i <= j < keys@.len() implies fresh@.contains_key(#[trigger] keys@[j])
                    && fresh@[keys@[j]]@ == f0[keys@[j]] by {
                assert(keys@[j] != k);
            }
        }
    }
    proof {
        assert(keys@.subrange(0, i as int) =~= keys@);
        assert(f0.restrict(keys@.to_set()) =~= f0);
    }
}

/// A loader for both sent and received direct messages, sorting them into threads by the other
/// account of each conversation.
///
/// It keeps a cache of every message loaded so far. [`ConversationTimeline::newest`] and
/// [`ConversationTimeline::next`] give the two requests that extend the cache towards newer or
/// older messages; the caller runs both and hands both results to
/// [`ConversationTimeline::loaded`].
pub struct ConversationTimeline {
    /// The timeline of sent messages.
    pub sent: Timeline,
    /// The timeline of received messages.
    pub received: Timeline,
    /// The ID of the most recent sent message loaded.
    pub last_sent: Option<u64>,
    /// The ID of the most recent received message loaded.
    pub last_received: Option<u64>,
    /// The ID of the oldest sent message loaded.
    pub first_sent: Option<u64>,
    /// The ID of the oldest received message loaded.
    pub first_received: Option<u64>,
    /// The number of messages loaded per request.
    pub count: u32,
    /// The threads loaded so far, keyed by the ID of the other account; newest message first.
    pub conversations: std::collections::HashMap<u64, Vec<DirectMessage>>,
}

impl ConversationTimeline {
    /// The threads loaded so far.
    pub open spec fn threads(&self) -> Map<u64, Seq<DirectMessage>> {
        threads_view(self.conversations@)
    }

    /// Whether `after` is `before` with the pages `sent` and `received` merged in.
    pub open spec fn merged_from(
        before: ConversationTimeline,
        after: ConversationTimeline,
        sent: Seq<DirectMessage>,
        received: Seq<DirectMessage>,
    ) -> bool {
        &&& after.last_sent == max_opt(before.last_sent, first_id(sent))
        &&& after.last_received == max_opt(before.last_received, first_id(received))
        &&& after.first_sent == min_opt(before.first_sent, last_id(sent))
        &&& after.first_received == min_opt(before.first_received, last_id(received))
        &&& after.threads() == merged_threads(before.threads(), sent, received)
        &&& after.sent == before.sent
        &&& after.received == before.received
        &&& after.count == before.count
    }

    /// A loader over the given sent and received timelines, with an empty cache and a page size
    /// of 20.
    pub fn new(sent: Timeline, received: Timeline) -> (r: ConversationTimeline)
        ensures
            r.sent == sent,
            r.received == received,
            r.last_sent is None,
            r.last_received is None,
            r.first_sent is None,
            r.first_received is None,
            r.count == 20,
            r.threads() == Map::<u64, Seq<DirectMessage>>::empty(),
    {
        let r = ConversationTimeline {
            sent,
            received,
            last_sent: None,
            last_received: None,
            first_sent: None,
            first_received: None,
            count: 20,
            conversations: std::collections::HashMap::new(),
        };
        proof {
            assert(r.threads() =~= Map::<u64, Seq<DirectMessage>>::empty());
        }
        r
    }

    /// Set the number of messages loaded per request by [`ConversationTimeline::newest`] and
    /// [`ConversationTimeline::next`].
    pub fn with_page_size(self, page_size: u32) -> (r: ConversationTimeline)
        ensures
            r.count == page_size,
            r.sent == self.sent,
            r.received == self.received,
            r.last_sent == self.last_sent,
            r.last_received == self.last_received,
            r.first_sent == self.first_sent,
            r.first_received == self.first_received,
            r.conversations@ == self.conversations@,
    {
        ConversationTimeline { count: page_size, ..self }
    }

    /// The requests for the sent and received messages newer than those loaded, or for the
    /// newest ones when none are loaded. Each asks for `count` messages.
    pub fn newest(&self) -> (r: (PageQuery, PageQuery))
        ensures
            r.0 == (PageQuery { count: page_count(self.count), since_id: self.last_sent, max_id: None }),
            r.1 == (PageQuery {
                count: page_count(self.count),
                since_id: self.last_received,
                max_id: None,
            }),
    {
        let count = page_count_of(self.count);
        (
            PageQuery { count, since_id: self.last_sent, max_id: None },
            PageQuery { count, since_id: self.last_received, max_id: None },
        )
    }

    /// The requests for the sent and received messages strictly older than those loaded, or for
    /// the newest ones when none are loaded. Each asks for `count` messages.
    pub fn next(&self) -> (r: (PageQuery, PageQuery))
        ensures
            r.0 == (PageQuery {
                count: page_count(self.count),
                since_id: None,
                max_id: match self.first_sent {
                    Some(id) => Some(below(id)),
                    None => None,
                },
            }),
            r.1 == (PageQuery {
                count: page_count(self.count),
                since_id: None,
                max_id: match self.first_received {
                    Some(id) => Some(below(id)),
                    None => None,
                },
            }),
    {
        let count = page_count_of(self.count);
        (
            PageQuery { count, since_id: None, max_id: older_bound(self.first_sent) },
            PageQuery { count, since_id: None, max_id: older_bound(self.first_received) },
        )
    }

    /// Merge a page of sent and a page of received messages, each newest first, into the cache.
    /// The two pages are taken to share no message.
    pub fn merge(&mut self, sent: Vec<DirectMessage>, received: Vec<DirectMessage>)
        ensures
            Self::merged_from(*old(self), *final(self), sent@, received@),
    {
        let first_sent_id = if sent.len() > 0 { Some(sent[0].id) } else { None };
        let last_sent_id = if sent.len() > 0 { Some(sent[sent.len() - 1].id) } else { None };
        let first_recv_id = if received.len() > 0 { Some(received[0].id) } else { None };
        let last_recv_id = if received.len() > 0 { Some(received[received.len() - 1].id) } else { None };
        self.last_sent = max_option(self.last_sent, first_sent_id);
        self.last_received = max_option(self.last_received, first_recv_id);
        self.first_sent = min_option(self.first_sent, last_sent_id);
        self.first_received = min_option(self.first_received, last_recv_id);

        let me = if sent.len() > 0 {
            Some(sent[0].sender_id)
        } else if received.len() > 0 {
            Some(received[0].recipient_id)
        } else {
            None
        };
        if let Some(me_id) = me {
            let merged = merge_by_id(sent, received);
            let (fresh, keys) = group_by_counterpart(merged, me_id);
            merge_threads(&mut self.conversations, fresh, keys);
        }
    }

    /// Take the results of the two requests of [`ConversationTimeline::newest`] or
    /// [`ConversationTimeline::next`]. When either failed, its failure is returned (the sent
    /// side's first) and nothing changes; otherwise both pages are merged into the cache.
    pub fn loaded(
        &mut self,
        sent: Result<Response<Vec<DirectMessage>>, Error>,
        received: Result<Response<Vec<DirectMessage>>, Error>,
    ) -> (r: Result<(), Error>)
        ensures
            sent is Err ==> r == Err::<(), Error>(sent->Err_0) && *final(self) == *old(self),
            sent is Ok && received is Err ==> r == Err::<(), Error>(received->Err_0) && *final(self)
                == *old(self),
            sent is Ok && received is Ok ==> r is Ok && Self::merged_from(
                *old(self),
                *final(self),
                sent->Ok_0.response@,
                received->Ok_0.response@,
            ),
    {
        match (sent, received) {
            (Err(e), _) => Err(e),
            (Ok(_), Err(e)) => Err(e),
            (Ok(s), Ok(r)) => {
                self.merge(s.response, r.response);
                Ok(())
            },
        }
    }
}

/// The page size sent for a loader's `count`: the count itself, or the largest page size a
/// request can carry when it does not fit.
pub open spec fn page_count(count: u32) -> i32 {
    if count > i32::MAX as u32 {
        i32::MAX
    } else {
        count as i32
    }
}

fn page_count_of(count: u32) -> (r: i32)
    ensures
        r == page_count(count),
{
    if count > 2147483647 {
        2147483647
    } else {
        count as i32
    }
}

/// The inclusive upper bound that asks for IDs strictly below `id`, if any.
fn older_bound(id: Option<u64>) -> (r: Option<u64>)
    ensures
        r == (match id {
            Some(i) => Some(below(i)),
            None => None::<u64>,
        }),
{
    match id {
        Some(i) => Some(if i == 0 {
            0
        } else {
            i - 1
        }),
        None => None,
    }
}

/// The larger of two optional IDs; an absent one gives way to the other.
fn max_option(a: Option<u64>, b: Option<u64>) -> (r: Option<u64>)
    ensures
        r == max_opt(a, b),
{
    match (a, b) {
        (Some(x), Some(y)) => Some(if x >= y { x } else { y }),
        (Some(x), None) => Some(x),
        (None, y) => y,
    }
}

/// The smaller of two optional IDs; an absent one gives way to the other.
fn min_option(a: Option<u64>, b: Option<u64>) -> (r: Option<u64>)
    ensures
        r == min_opt(a, b),
{
    match (a, b) {
        (Some(x), Some(y)) => Some(if x <= y { x } else { y }),
        (Some(x), None) => Some(x),
        (None, y) => y,
    }
}

/// Loading newer messages when there are none changes nothing: with two empty pages the bounds
/// and the cached threads stay as they were, so a second such load sends the same requests and
/// again changes nothing.
pub proof fn lemma_empty_load_changes_nothing(
    before: ConversationTimeline,
    after: ConversationTimeline,
)
    requires
        ConversationTimeline::merged_from(before, after, Seq::empty(), Seq::empty()),
    ensures
        after.last_sent == before.last_sent,
        after.last_received == before.last_received,
        after.first_sent == before.first_sent,
        after.first_received == before.first_received,
        after.threads() == before.threads(),
        after.count == before.count,
{
}

/// Whether a stream is newest first: IDs never increase along it.
pub open spec fn descending(s: Seq<DirectMessage>) -> bool {
    forall|i: int, j: int| 0 <= i < j < s.len() ==> (#[trigger] s[i]).id >= (#[trigger] s[j]).id
}

proof fn lemma_merge_desc_bound(a: Seq<DirectMessage>, b: Seq<DirectMessage>, bound: u64)
    requires
        forall|i: int| 0 <= i < a.len() ==> (#[trigger] a[i]).id <= bound,
        forall|j: int| 0 <= j < b.len() ==> (#[trigger] b[j]).id <= bound,
    ensures
        merge_desc(a, b).len() == a.len() + b.len(),
        forall|k: int| 0 <= k < merge_desc(a, b).len() ==> (#[trigger] merge_desc(a, b)[k]).id <= bound,
    decreases a.len() + b.len(),
{
    if a.len() > 0 && b.len() > 0 {
        if a[0].id > b[0].id {
            let t = a.drop_first();
            assert forall|i: int| 0 <= i < t.len() implies (#[trigger] t[i]).id <= bound by {
                assert(t[i] == a[i + 1]);
            }
            lemma_merge_desc_bound(t, b, bound);
            let m = merge_desc(a, b);
            assert forall|k: int| 0 <= k < m.len() implies (#[trigger] m[k]).id <= bound by {
                if k > 0 {
                    assert(m[k] == merge_desc(t, b)[k - 1]);
                }
            }
        } else {
            let t = b.drop_first();
            assert forall|j: int| 0 <= j < t.len() implies (#[trigger] t[j]).id <= bound by {
                assert(t[j] == b[j + 1]);
            }
            lemma_merge_desc_bound(a, t, bound);
            let m = merge_desc(a, b);
            assert forall|k: int| 0 <= k < m.len() implies (#[trigger] m[k]).id <= bound by {
                if k > 0 {
                    assert(m[k] == merge_desc(a, t)[k - 1]);
                }
            }
        }
    }
}

proof fn lemma_prepend_descending(x: DirectMessage, rest: Seq<DirectMessage>)
    requires
        descending(rest),
        forall|k: int| 0 <= k < rest.len() ==> (#[trigger] rest[k]).id <= x.id,
    ensures
        descending(seq![x] + rest),
{
    let m = seq![x] + rest;
    assert forall|i: int, j: int| 0 <= i < j < m.len() implies (#[trigger] m[i]).id >= (
    #[trigger] m[j]).id by {
        assert(m[j] == rest[j - 1]);
        if i > 0 {
            assert(m[i] == rest[i - 1]);
        }
    }
}

/// Interleaving two newest-first streams gives a newest-first stream holding both.
pub proof fn lemma_merge_desc_sorted(a: Seq<DirectMessage>, b: Seq<DirectMessage>)
    requires
        descending(a),
        descending(b),
    ensures
        descending(merge_desc(a, b)),
        merge_desc(a, b).len() == a.len() + b.len(),
    decreases a.len() + b.len(),
{
    if a.len() > 0 && b.len() > 0 {
        if a[0].id > b[0].id {
            let t = a.drop_first();
            assert forall|i: int, j: int| 0 <= i < j < t.len() implies (#[trigger] t[i]).id >= (
            #[trigger] t[j]).id by {
                assert(t[i] == a[i + 1] && t[j] == a[j + 1]);
            }
            assert forall|i: int| 0 <= i < t.len() implies (#[trigger] t[i]).id <= a[0].id by {
                assert(t[i] == a[i + 1]);
            }
            assert forall|j: int| 0 <= j < b.len() implies (#[trigger] b[j]).id <= a[0].id by {
                if j > 0 {
                    assert(b[0].id >= b[j].id);
                }
            }
            lemma_merge_desc_sorted(t, b);
            lemma_merge_desc_bound(t, b, a[0].id);
            lemma_prepend_descending(a[0], merge_desc(t, b));
        } else {
            let t = b.drop_first();
            assert forall|i: int, j: int| 0 <= i < j < t.len() implies (#[trigger] t[i]).id >= (
            #[trigger] t[j]).id by {
                assert(t[i] == b[i + 1] && t[j] == b[j + 1]);
            }
            assert forall|i: int| 0 <= i < t.len() implies (#[trigger] t[i]).id <= b[0].id by {
                assert(t[i] == b[i + 1]);
            }
            assert forall|j: int| 0 <= j < a.len() implies (#[trigger] a[j]).id <= b[0].id by {
                if j > 0 {
                    assert(a[0].id >= a[j].id);
                }
            }
            lemma_merge_desc_sorted(a, t);
            lemma_merge_desc_bound(a, t, b[0].id);
            lemma_prepend_descending(b[0], merge_desc(a, t));
        }
    }
}

proof fn lemma_group_bound(ms: Seq<DirectMessage>, me: u64, lo: u64)
    requires
        forall|i: int| 0 <= i < ms.len() ==> (#[trigger] ms[i]).id >= lo,
    ensures
        forall|k: u64, i: int|
            group(ms, me).contains_key(k) && 0 <= i < group(ms, me)[k].len() ==> (#[trigger] group(
                ms,
                me,
            )[k][i]).id >= lo,
    decreases ms.len(),
{
    if ms.len() > 0 {
        let init = ms.drop_last();
        assert forall|i: int| 0 <= i < init.len() implies (#[trigger] init[i]).id >= lo by {
            assert(init[i] == ms[i]);
        }
        lemma_group_bound(init, me, lo);
        assert(ms.last() == ms[ms.len() - 1]);
        let g = group(init, me);
        let c = counterpart(ms.last(), me);
        assert forall|k: u64, i: int|
            group(ms, me).contains_key(k) && 0 <= i < group(ms, me)[k].len() implies (
            #[trigger] group(ms, me)[k][i]).id >= lo by {
            if k == c {
                let t = thread_of(g, c);
                if i < t.len() {
                    assert(group(ms, me)[k][i] == t[i]);
                }
            }
        }
    }
}

/// Sorting a newest-first stream into threads gives newest-first threads.
pub proof fn lemma_group_descending(ms: Seq<DirectMessage>, me: u64)
    requires
        descending(ms),
    ensures
        forall|k: u64| #[trigger] group(ms, me).contains_key(k) ==> descending(group(ms, me)[k]),
    decreases ms.len(),
{
    if ms.len() > 0 {
        let init = ms.drop_last();
        let x = ms.last();
        assert(x == ms[ms.len() - 1]);
        assert forall|i: int, j: int| 0 <= i < j < init.len() implies (#[trigger] init[i]).id >= (
        #[trigger] init[j]).id by {
            assert(init[i] == ms[i] && init[j] == ms[j]);
        }
        assert forall|i: int| 0 <= i < init.len() implies (#[trigger] init[i]).id >= x.id by {
            assert(init[i] == ms[i]);
        }
        lemma_group_descending(init, me);
        lemma_group_bound(init, me, x.id);
        let g = group(init, me);
        let c = counterpart(x, me);
        let t = thread_of(g, c);
        assert(descending(t));
        assert forall|i: int| 0 <= i < t.len() implies (#[trigger] t[i]).id >= x.id by {}
        let t2 = t.push(x);
        assert forall|i: int, j: int| 0 <= i < j < t2.len() implies (#[trigger] t2[i]).id >= (
        #[trigger] t2[j]).id by {
            assert(t2[i] == t[i]);
            if j < t.len() {
                assert(t2[j] == t[j]);
            }
        }
        assert forall|k: u64| #[trigger] group(ms, me).contains_key(k) implies descending(
            group(ms, me)[k],
        ) by {
            if k != c {
                assert(group(ms, me)[k] == g[k]);
            }
        }
    }
}

/// When the sent and received pages are each newest first, every thread built from them in one
/// load is newest first.
pub proof fn lemma_fresh_threads_descending(
    sent: Seq<DirectMessage>,
    received: Seq<DirectMessage>,
    me: u64,
)
    requires
        descending(sent),
        descending(received),
    ensures
        descending(merge_desc(sent, received)),
        forall|k: u64| #[trigger] group(merge_desc(sent, received), me).contains_key(k) ==> descending(
            group(merge_desc(sent, received), me)[k],
        ),
{
    lemma_merge_desc_sorted(sent, received);
    lemma_group_descending(merge_desc(sent, received), me);
}

} // verus!
