//! Rate-limit information carried alongside every decoded response.

use vstd::prelude::*;

use crate::error::Error;
use crate::headers::{header_i32, rate_limit, Headers};

verus! {

/// A decoded response together with the rate-limit information of the exchange that produced it.
#[derive(Debug)]
pub struct Response<T> {
    /// The rate limit ceiling for the request, or `-1` when the service sent none.
    pub rate_limit: i32,
    /// The number of requests left in the current window, or `-1` when the service sent none.
    pub rate_limit_remaining: i32,
    /// The UTC Unix timestamp at which the window resets, or `-1` when the service sent none.
    pub rate_limit_reset: i32,
    /// The decoded response.
    pub response: T,
}

/// The three rate-limit figures of a response, as `(limit, remaining, reset)`.
pub open spec fn meta_of<T>(r: Response<T>) -> (i32, i32, i32) {
    (r.rate_limit, r.rate_limit_remaining, r.rate_limit_reset)
}

/// The rate-limit figures that `h` gives, each `-1` when its header is absent, or the first
/// failure among the limit, remaining and reset headers, in that order.
pub open spec fn rate_headers_of(h: Headers) -> Result<(i32, i32, i32), Error> {
    let l = header_i32(h.rate_limit_limit);
    let m = header_i32(h.rate_limit_remaining);
    let s = header_i32(h.rate_limit_reset);
    if l is Err {
        Err(l->Err_0)
    } else if m is Err {
        Err(m->Err_0)
    } else if s is Err {
        Err(s->Err_0)
    } else {
        Ok((or_default(l->Ok_0), or_default(m->Ok_0), or_default(s->Ok_0)))
    }
}

/// A header's value, or `-1` when it is absent.
pub open spec fn or_default(v: Option<i32>) -> i32 {
    match v {
        Some(n) => n,
        None => -1i32,
    }
}

/// Read the rate-limit figures from the response headers, each `-1` when its header is absent.
pub fn rate_headers(resp: &Headers) -> (r: Result<Response<()>, Error>)
    ensures
        match rate_headers_of(*resp) {
            Ok(m) => r is Ok && meta_of(r->Ok_0) == m,
            Err(e) => r == Err::<Response<()>, Error>(e),
        },
{
    let limit = match rate_limit(&resp.rate_limit_limit) {
        Ok(v) => v,
        Err(e) => return Err(e),
    };
    let remaining = match rate_limit(&resp.rate_limit_remaining) {
        Ok(v) => v,
        Err(e) => return Err(e),
    };
    let reset = match rate_limit(&resp.rate_limit_reset) {
        Ok(v) => v,
        Err(e) => return Err(e),
    };
    Ok(Response {
        rate_limit: match limit {
            Some(n) => n,
            None => -1,
        },
        rate_limit_remaining: match remaining {
            Some(n) => n,
            None => -1,
        },
        rate_limit_reset: match reset {
            Some(n) => n,
            None => -1,
        },
        response: (),
    })
}

/// Whether the observation `next` replaces `acc` when responses are combined: a strictly later
/// reset wins, and on equal resets the smaller remaining count wins.
pub open spec fn supersedes(next: (i32, i32, i32), acc: (i32, i32, i32)) -> bool {
    next.2 > acc.2 || (next.2 == acc.2 && next.1 < acc.1)
}

/// The rate-limit figures kept when the responses `rs` are combined in order: those of the first
/// response, replaced by each later one that supersedes them; all `-1` when there are none.
pub open spec fn combined_meta<T>(rs: Seq<Response<T>>) -> (i32, i32, i32)
    decreases rs.len(),
{
    if rs.len() == 0 {
        (-1i32, -1i32, -1i32)
    } else if rs.len() == 1 {
        meta_of(rs[0])
    } else {
        let acc = combined_meta(rs.drop_last());
        let next = meta_of(rs.last());
        if supersedes(next, acc) {
            next
        } else {
            acc
        }
    }
}

/// The payloads of `rs`, in order.
pub open spec fn payloads<T>(rs: Seq<Response<T>>) -> Seq<T> {
    rs.map_values(|r: Response<T>| r.response)
}

impl<T> Response<T> {
    /// Convert a `Response<T>` to a `Response<U>` by running its contained response through the
    /// given function. The rate-limit information is kept.
    pub fn map<F, U>(src: Response<T>, fun: F) -> (r: Response<U>)
        where
            F: FnOnce(T) -> U,
        requires
            fun.requires((src.response,)),
        ensures
            meta_of(r) == meta_of(src),
            fun.ensures((src.response,), r.response),
    {
        let Response { rate_limit, rate_limit_remaining, rate_limit_reset, response } = src;
        Response {
            rate_limit,
            rate_limit_remaining,
            rate_limit_reset,
            response: fun(response),
        }
    }

    /// The contained response.
    pub fn value(&self) -> (r: &T)
        ensures
            *r == self.response,
    {
        &self.response
    }

    /// The contained response, for modification in place.
    pub fn value_mut(&mut self) -> (r: &mut T)
        ensures
            *r == old(self).response,
            meta_of(*final(self)) == meta_of(*old(self)),
            final(self).response == *final(r),
    {
        &mut self.response
    }

    /// Combine several responses into one: the payloads are kept in order, and the rate-limit
    /// figures are those of the most constrained observation (the latest reset, and on equal
    /// resets the smallest remaining count). With no responses the figures are all `-1`.
    pub fn from_iter(items: Vec<Response<T>>) -> (r: Response<Vec<T>>)
        ensures
            meta_of(r) == combined_meta(items@),
            r.response@ == payloads(items@),
    {
        let ghost all = items@;
        let mut items = items;
        if items.len() == 0 {
            let r = Response {
                rate_limit: -1,
                rate_limit_remaining: -1,
                rate_limit_reset: -1,
                response: Vec::new(),
            };
            proof {
                assert(payloads(all) =~= r.response@);
            }
            return r;
        }
        let first = items.remove(0);
        let mut resp: Response<Vec<T>> = Response {
            rate_limit: first.rate_limit,
            rate_limit_remaining: first.rate_limit_remaining,
            rate_limit_reset: first.rate_limit_reset,
            response: Vec::new(),
        };
        resp.response.push(first.response);
        let ghost mut done: int = 1;
        proof {
            assert(all.subrange(0, 1).len() == 1);
            assert(all.subrange(0, 1)[0] == first);
            assert(payloads(all.subrange(0, 1)) =~= resp.response@);
            assert(items@ =~= all.subrange(1, all.len() as int));
        }
        while items.len() > 0
            invariant
                1 <= done <= all.len(),
                items@ == all.subrange(done, all.len() as int),
                meta_of(resp) == combined_meta(all.subrange(0, done)),
                resp.response@ == payloads(all.subrange(0, done)),
            decreases items.len(),
        {
            let item = items.remove(0);
            proof {
                let pre = all.subrange(0, done + 1);
                assert(pre.drop_last() =~= all.subrange(0, done));
                assert(pre.last() == item);
                assert(payloads(pre) =~= payloads(all.subrange(0, done)).push(item.response));
                done = done + 1;
                assert(items@ =~= all.subrange(done, all.len() as int));
            }
            if item.rate_limit_reset > resp.rate_limit_reset || (item.rate_limit_reset
                == resp.rate_limit_reset && item.rate_limit_remaining < resp.rate_limit_remaining) {
                resp.rate_limit = item.rate_limit;
                resp.rate_limit_remaining = item.rate_limit_remaining;
                resp.rate_limit_reset = item.rate_limit_reset;
            }
            resp.response.push(item.response);
        }
        proof {
            assert(all.subrange(0, done) =~= all);
        }
        resp
    }
}

/// Combining responses keeps the latest reset among them, the smallest remaining count among
/// those with that reset (the figures of one of the responses), and every payload in the order
/// given.
pub proof fn lemma_combine_most_constrained<T>(rs: Seq<Response<T>>)
    requires
        rs.len() > 0,
    ensures
        exists|i: int| 0 <= i < rs.len() && meta_of(#[trigger] rs[i]) == combined_meta(rs),
        forall|i: int| 0 <= i < rs.len() ==> (#[trigger] rs[i]).rate_limit_reset <= combined_meta(rs).2,
        forall|i: int|
            0 <= i < rs.len() && (#[trigger] rs[i]).rate_limit_reset == combined_meta(rs).2
                ==> combined_meta(rs).1 <= rs[i].rate_limit_remaining,
        payloads(rs).len() == rs.len(),
        forall|i: int| 0 <= i < rs.len() ==> #[trigger] payloads(rs)[i] == rs[i].response,
    decreases rs.len(),
{
    if rs.len() == 1 {
        assert(meta_of(rs[0]) == combined_meta(rs));
    } else {
        let init = rs.drop_last();
        lemma_combine_most_constrained(init);
        let acc = combined_meta(init);
        let n = rs.len() - 1;
        assert forall|i: int| 0 <= i < n implies #[trigger] rs[i] == init[i] by {}
        let j = choose|j: int| 0 <= j < init.len() && meta_of(#[trigger] init[j]) == acc;
        assert(rs[j] == init[j]);
        assert(rs[n] == rs.last());
        assert forall|i: int|
            0 <= i < rs.len() && (#[trigger] rs[i]).rate_limit_reset == combined_meta(rs).2
                implies combined_meta(rs).1 <= rs[i].rate_limit_remaining by {
            if i < n {
                assert(rs[i] == init[i]);
            }
        }
        assert forall|i: int| 0 <= i < rs.len() implies (#[trigger] rs[i]).rate_limit_reset
            <= combined_meta(rs).2 by {
            if i < n {
                assert(rs[i] == init[i]);
            }
        }
    }
}

/// Splitting a response over a collection into one response per element and combining them
/// again gives back the same figures and payload.
pub proof fn lemma_split_combine<T>(r: Response<Vec<T>>)
    requires
        r.response@.len() > 0,
    ensures
        combined_meta(split_spec(r)) == meta_of(r),
        payloads(split_spec(r)) == r.response@,
{
    let rs = split_spec(r);
    lemma_split_constant(rs, meta_of(r));
    assert(payloads(rs) =~= r.response@);
}

/// One response per element of `r`'s collection, each with `r`'s figures.
pub open spec fn split_spec<T>(r: Response<Vec<T>>) -> Seq<Response<T>> {
    r.response@.map_values(
        |v: T|
            Response {
                rate_limit: r.rate_limit,
                rate_limit_remaining: r.rate_limit_remaining,
                rate_limit_reset: r.rate_limit_reset,
                response: v,
            },
    )
}

proof fn lemma_split_constant<T>(rs: Seq<Response<T>>, m: (i32, i32, i32))
    requires
        rs.len() > 0,
        forall|i: int| 0 <= i < rs.len() ==> meta_of(#[trigger] rs[i]) == m,
    ensures
        combined_meta(rs) == m,
    decreases rs.len(),
{
    if rs.len() > 1 {
        let init = rs.drop_last();
        assert forall|i: int| 0 <= i < init.len() implies meta_of(#[trigger] init[i]) == m by {
            assert(init[i] == rs[i]);
        }
        lemma_split_constant(init, m);
        assert(rs.last() == rs[rs.len() - 1]);
    } else {
        assert(meta_of(rs[0]) == m);
    }
}

/// Indexed iteration over a response that returned a collection, yielding references into the
/// collection alongside the rate-limit information of the whole call.
pub struct ResponseIterRef<'a, T> {
    rate_limit: i32,
    rate_limit_remaining: i32,
    rate_limit_reset: i32,
    items: &'a Vec<T>,
    front: usize,
    back: usize,
}

/// Mutable access to the elements of a response that returned a collection, each paired with
/// the rate-limit information of the whole call.
pub struct ResponseIterMut<'a, T> {
    /// The rate limit ceiling of the whole call.
    pub rate_limit: i32,
    /// The requests left in the window of the whole call.
    pub rate_limit_remaining: i32,
    /// The reset timestamp of the whole call.
    pub rate_limit_reset: i32,
    /// The collection, borrowed for the life of the access.
    pub items: &'a mut Vec<T>,
}

/// Owning iteration over a response that returned a collection, copying the rate-limit
/// information onto every element.
pub struct ResponseIter<T> {
    rate_limit: i32,
    rate_limit_remaining: i32,
    rate_limit_reset: i32,
    items: Vec<T>,
}

impl<T> Response<Vec<T>> {
    /// Iteration over references into the returned collection, alongside the rate-limit
    /// information of the whole call.
    pub fn iter(&self) -> (r: ResponseIterRef<'_, T>)
        ensures
            r.wf(),
            r.meta() == meta_of(*self),
            r.remaining() == self.response@,
    {
        ResponseIterRef {
            rate_limit: self.rate_limit,
            rate_limit_remaining: self.rate_limit_remaining,
            rate_limit_reset: self.rate_limit_reset,
            items: &self.response,
            front: 0,
            back: self.response.len(),
        }
    }

    /// Mutable access to the returned collection, alongside the rate-limit information of the
    /// whole call.
    pub fn iter_mut(&mut self) -> (r: ResponseIterMut<'_, T>)
        ensures
            r.meta() == meta_of(*old(self)),
            r.items() == old(self).response@,
            meta_of(*final(self)) == meta_of(*old(self)),
            final(self).response == *final(r.items),
    {
        ResponseIterMut {
            rate_limit: self.rate_limit,
            rate_limit_remaining: self.rate_limit_remaining,
            rate_limit_reset: self.rate_limit_reset,
            items: &mut self.response,
        }
    }

    /// Owning iteration over the returned collection, copying the rate-limit information onto
    /// every element.
    pub fn into_iter(self) -> (r: ResponseIter<T>)
        ensures
            r.meta() == meta_of(self),
            r.remaining() == self.response@,
    {
        ResponseIter {
            rate_limit: self.rate_limit,
            rate_limit_remaining: self.rate_limit_remaining,
            rate_limit_reset: self.rate_limit_reset,
            items: self.response,
        }
    }
}

impl<'a, T> ResponseIterRef<'a, T> {
    /// The rate-limit figures handed out with every element.
    pub closed spec fn meta(&self) -> (i32, i32, i32) {
        (self.rate_limit, self.rate_limit_remaining, self.rate_limit_reset)
    }

    /// The elements not yet handed out, front first.
    pub closed spec fn remaining(&self) -> Seq<T> {
        self.items@.subrange(self.front as int, self.back as int)
    }

    /// Whether the cursor positions lie within the collection.
    pub closed spec fn wf(&self) -> bool {
        self.front <= self.back <= self.items@.len()
    }

    /// The next element from the front, with the rate-limit information of the whole call.
    pub fn next(&mut self) -> (r: Option<Response<&'a T>>)
        requires
            old(self).wf(),
        ensures
            final(self).wf(),
            final(self).meta() == old(self).meta(),
            old(self).remaining().len() == 0 ==> r is None && final(self).remaining() == old(self).remaining(),
            old(self).remaining().len() > 0 ==> r is Some && meta_of(r->0) == old(self).meta()
                && *r->0.response == old(self).remaining()[0]
                && final(self).remaining() == old(self).remaining().drop_first(),
    {
        if self.front < self.back {
            let item = &self.items[self.front];
            self.front = self.front + 1;
            proof {
                assert(self.remaining() =~= old(self).remaining().drop_first());
            }
            Some(Response {
                rate_limit: self.rate_limit,
                rate_limit_remaining: self.rate_limit_remaining,
                rate_limit_reset: self.rate_limit_reset,
                response: item,
            })
        } else {
            None
        }
    }

    /// The next element from the back, with the rate-limit information of the whole call.
    pub fn next_back(&mut self) -> (r: Option<Response<&'a T>>)
        requires
            old(self).wf(),
        ensures
            final(self).wf(),
            final(self).meta() == old(self).meta(),
            old(self).remaining().len() == 0 ==> r is None && final(self).remaining() == old(self).remaining(),
            old(self).remaining().len() > 0 ==> r is Some && meta_of(r->0) == old(self).meta()
                && *r->0.response == old(self).remaining().last()
                && final(self).remaining() == old(self).remaining().drop_last(),
    {
        if self.front < self.back {
            self.back = self.back - 1;
            let item = &self.items[self.back];
            proof {
                assert(self.remaining() =~= old(self).remaining().drop_last());
            }
            Some(Response {
                rate_limit: self.rate_limit,
                rate_limit_remaining: self.rate_limit_remaining,
                rate_limit_reset: self.rate_limit_reset,
                response: item,
            })
        } else {
            None
        }
    }

    /// The number of elements not yet handed out.
    pub fn len(&self) -> (r: usize)
        requires
            self.wf(),
        ensures
            r == self.remaining().len(),
    {
        self.back - self.front
    }
}

impl<'a, T> ResponseIterMut<'a, T> {
    /// The rate-limit figures handed out with every element.
    pub open spec fn meta(&self) -> (i32, i32, i32) {
        (self.rate_limit, self.rate_limit_remaining, self.rate_limit_reset)
    }

    /// The elements of the collection.
    pub open spec fn items(&self) -> Seq<T> {
        self.items@
    }

    /// The element at `index`, for modification in place, with the rate-limit information of
    /// the whole call; `None` when the index is out of range.
    pub fn get_mut(&mut self, index: usize) -> (r: Option<Response<&mut T>>)
        ensures
            final(self).meta() == old(self).meta(),
            *final(final(self).items) == *final(old(self).items),
            index >= old(self).items().len() ==> r is None && final(self).items() == old(self).items(),
            index < old(self).items().len() ==> r is Some && meta_of(r->0) == old(self).meta()
                && *r->0.response == old(self).items()[index as int]
                && final(self).items() == old(self).items().update(index as int, *final(r->0.response)),
    {
        if index < self.items.len() {
            Some(Response {
                rate_limit: self.rate_limit,
                rate_limit_remaining: self.rate_limit_remaining,
                rate_limit_reset: self.rate_limit_reset,
                response: &mut self.items[index],
            })
        } else {
            None
        }
    }

    /// The number of elements.
    pub fn len(&self) -> (r: usize)
        ensures
            r == self.items().len(),
    {
        self.items.len()
    }
}

impl<T> ResponseIter<T> {
    /// The rate-limit figures handed out with every element.
    pub closed spec fn meta(&self) -> (i32, i32, i32) {
        (self.rate_limit, self.rate_limit_remaining, self.rate_limit_reset)
    }

    /// The elements not yet handed out, front first.
    pub closed spec fn remaining(&self) -> Seq<T> {
        self.items@
    }

    /// The next element from the front, with the rate-limit information of the whole call.
    pub fn next(&mut self) -> (r: Option<Response<T>>)
        ensures
            final(self).meta() == old(self).meta(),
            old(self).remaining().len() == 0 ==> r is None && final(self).remaining() == old(self).remaining(),
            old(self).remaining().len() > 0 ==> r is Some && meta_of(r->0) == old(self).meta()
                && r->0.response == old(self).remaining()[0]
                && final(self).remaining() == old(self).remaining().drop_first(),
    {
        if self.items.len() > 0 {
            let item = self.items.remove(0);
            proof {
                assert(self.remaining() =~= old(self).remaining().drop_first());
            }
            Some(Response {
                rate_limit: self.rate_limit,
                rate_limit_remaining: self.rate_limit_remaining,
                rate_limit_reset: self.rate_limit_reset,
                response: item,
            })
        } else {
            None
        }
    }

    /// The next element from the back, with the rate-limit information of the whole call.
    pub fn next_back(&mut self) -> (r: Option<Response<T>>)
        ensures
            final(self).meta() == old(self).meta(),
            old(self).remaining().len() == 0 ==> r is None && final(self).remaining() == old(self).remaining(),
            old(self).remaining().len() > 0 ==> r is Some && meta_of(r->0) == old(self).meta()
                && r->0.response == old(self).remaining().last()
                && final(self).remaining() == old(self).remaining().drop_last(),
    {
        match self.items.pop() {
            Some(item) => Some(Response {
                rate_limit: self.rate_limit,
                rate_limit_remaining: self.rate_limit_remaining,
                rate_limit_reset: self.rate_limit_reset,
                response: item,
            }),
            None => None,
        }
    }

    /// The number of elements not yet handed out.
    pub fn len(&self) -> (r: usize)
        ensures
            r == self.remaining().len(),
    {
        self.items.len()
    }
}

} // verus!
