//! The state machine that drives one HTTP exchange from dispatch to a classified outcome, and
//! the step that turns its text into a typed response.
//!
//! The caller performs the transport work (sending the request, waiting for the head, reading
//! body chunks) and reports each event to a [`RawFuture`]; the machine records what arrived and
//! makes every decision about the outcome.

use vstd::prelude::*;
use vstd::utf8::{decode_utf8, valid_utf8};

use crate::error::{Error, ErrorCode, RATE_LIMIT_EXCEEDED};
use crate::headers::{header_i32, parse_i32, Headers};
use crate::response::{meta_of, rate_headers, rate_headers_of, Response};

verus! {

/// The stage an exchange has reached. Each stage but the last is a point at which the exchange
/// may wait without progress.
#[derive(Debug, Clone, Copy, PartialEq, Eq, Structural)]
pub enum ExchangeState {
    /// The request is being handed to the transport.
    Dispatching,
    /// Waiting for the status line and headers.
    AwaitingHeaders,
    /// Receiving body chunks.
    StreamingBody,
    /// The body is complete and its text awaits classification.
    Decoding,
    /// The exchange has produced its one result.
    Done,
}

/// One HTTP exchange in progress.
pub struct RawFuture {
    /// The stage reached.
    pub state: ExchangeState,
    /// The response status, once the head has arrived.
    pub resp_status: Option<u16>,
    /// The response headers, once the head has arrived.
    pub resp_headers: Option<Headers>,
    /// The body bytes received so far, in order of arrival.
    pub body: Vec<u8>,
}

/// Whether the status code reports success (`2xx`).
pub open spec fn is_success(status: u16) -> bool {
    200 <= status && status < 300
}

/// Whether a structured error payload holds the rate-limit-exceeded code.
pub open spec fn has_rate_limit_code(errors: Seq<ErrorCode>) -> bool {
    exists|i: int| 0 <= i < errors.len() && (#[trigger] errors[i]).code == RATE_LIMIT_EXCEEDED
}

/// The failure, if any, that a complete response with valid text carries. `envelope` is the
/// body read as a structured error payload, or `None` when it is not one.
///
/// A structured error payload is consulted before the status: with the rate-limit code and a
/// reset header it is `RateLimited` (or the failure to read that header), otherwise
/// `ServiceError`. Without one, a `2xx` status is success and any other is `BadStatus`.
pub open spec fn failure_of(status: u16, headers: Headers, envelope: Option<Vec<ErrorCode>>) -> Option<
    Error,
> {
    match envelope {
        Some(errors) => if has_rate_limit_code(errors@) && headers.rate_limit_reset is Some {
            match header_i32(headers.rate_limit_reset) {
                Ok(Some(reset)) => Some(Error::RateLimited(reset)),
                Ok(None) => Some(Error::ServiceError(errors)),
                Err(e) => Some(e),
            }
        } else {
            Some(Error::ServiceError(errors))
        },
        None => if is_success(status) {
            None
        } else {
            Some(Error::BadStatus(status))
        },
    }
}

/// Whether the error payload holds the rate-limit-exceeded code.
fn any_rate_limit_code(errors: &Vec<ErrorCode>) -> (r: bool)
    ensures
        r == has_rate_limit_code(errors@),
{
    let mut i: usize = 0;
    while i < errors.len()
        invariant
            i <= errors@.len(),
            forall|j: int| 0 <= j < i ==> (#[trigger] errors@[j]).code != RATE_LIMIT_EXCEEDED,
        decreases errors.len() - i,
    {
        if errors[i].code == RATE_LIMIT_EXCEEDED {
            return true;
        }
        i = i + 1;
    }
    false
}

/// Classify a complete response whose body is the valid text `text`. `envelope` is that text
/// read as a structured error payload, or `None` when it is not one.
pub fn classify(status: u16, headers: &Headers, text: String, envelope: Option<Vec<ErrorCode>>) -> (r:
    Result<String, Error>)
    ensures
        match failure_of(status, *headers, envelope) {
            None => r == Ok::<String, Error>(text),
            Some(e) => r == Err::<String, Error>(e),
        },
{
    match envelope {
        Some(errors) => {
            if any_rate_limit_code(&errors) && headers.rate_limit_reset.is_some() {
                match crate::headers::rate_limit(&headers.rate_limit_reset) {
                    Ok(Some(reset)) => Err(Error::RateLimited(reset)),
                    Ok(None) => Err(Error::ServiceError(errors)),
                    Err(e) => Err(e),
                }
            } else {
                Err(Error::ServiceError(errors))
            }
        },
        None => {
            if 200 <= status && status < 300 {
                Ok(text)
            } else {
                Err(Error::BadStatus(status))
            }
        },
    }
}

/// Relies on `String::from_utf8`: it succeeds exactly when the bytes are valid UTF-8, and the
/// text it returns is what they encode.
#[verifier::external_body]
fn utf8_text(bytes: Vec<u8>) -> (r: Option<String>)
    ensures
        r is Some <==> valid_utf8(bytes@),
        r is Some ==> r->0@ == decode_utf8(bytes@),
{
    String::from_utf8(bytes).ok()
}

/// Begin an exchange; the request is about to be handed to the transport.
pub fn make_raw_future() -> (r: RawFuture)
    ensures
        r.state == ExchangeState::Dispatching,
        r.resp_status is None,
        r.resp_headers is None,
        r.body@.len() == 0,
{
    RawFuture { state: ExchangeState::Dispatching, resp_status: None, resp_headers: None, body: Vec::new() }
}

impl RawFuture {
    /// Whether the recorded data fits the stage: the head is known from the body stage on.
    pub open spec fn wf(&self) -> bool {
        match self.state {
            ExchangeState::Dispatching | ExchangeState::AwaitingHeaders => self.resp_status is None
                && self.resp_headers is None && self.body@.len() == 0,
            ExchangeState::StreamingBody | ExchangeState::Decoding => self.resp_status is Some
                && self.resp_headers is Some,
            ExchangeState::Done => true,
        }
    }

    /// The transport has accepted the request; wait for the head.
    pub fn dispatched(&mut self) -> (r: Result<(), Error>)
        requires
            old(self).wf(),
        ensures
            final(self).wf(),
            old(self).state == ExchangeState::Dispatching ==> r is Ok && final(self).state
                == ExchangeState::AwaitingHeaders,
            old(self).state != ExchangeState::Dispatching ==> r == Err::<(), Error>(
                Error::FutureAlreadyCompleted,
            ) && *final(self) == *old(self),
    {
        if self.state != ExchangeState::Dispatching {
            return Err(Error::FutureAlreadyCompleted);
        }
        self.state = ExchangeState::AwaitingHeaders;
        Ok(())
    }

    /// The status line and headers have arrived. A `Content-Length` header only sizes the body
    /// buffer in advance; it never limits what is received.
    pub fn headers_received(&mut self, status: u16, headers: Headers) -> (r: Result<(), Error>)
        requires
            old(self).wf(),
        ensures
            final(self).wf(),
            old(self).state == ExchangeState::AwaitingHeaders ==> r is Ok && final(self).state
                == ExchangeState::StreamingBody && final(self).resp_status == Some(status)
                && final(self).resp_headers == Some(headers) && final(self).body@ == old(
                self,
            ).body@,
            old(self).state != ExchangeState::AwaitingHeaders ==> r == Err::<(), Error>(
                Error::FutureAlreadyCompleted,
            ) && *final(self) == *old(self),
    {
        if self.state != ExchangeState::AwaitingHeaders {
            return Err(Error::FutureAlreadyCompleted);
        }
        if let Some(len) = &headers.content_length {
            if let Some(n) = parse_i32(len.as_slice()) {
                if n > 0 {
                    let _ = self.body.try_reserve(n as usize);
                }
            }
        }
        self.resp_status = Some(status);
        self.resp_headers = Some(headers);
        self.state = ExchangeState::StreamingBody;
        Ok(())
    }

    /// A body chunk has arrived; it is appended to what came before.
    pub fn chunk_received(&mut self, chunk: &[u8]) -> (r: Result<(), Error>)
        requires
            old(self).wf(),
        ensures
            final(self).wf(),
            old(self).state == ExchangeState::StreamingBody ==> r is Ok && final(self).state
                == old(self).state && final(self).resp_status == old(self).resp_status
                && final(self).resp_headers == old(self).resp_headers && final(self).body@ == old(
                self,
            ).body@ + chunk@,
            old(self).state != ExchangeState::StreamingBody ==> r == Err::<(), Error>(
                Error::FutureAlreadyCompleted,
            ) && *final(self) == *old(self),
    {
        if self.state != ExchangeState::StreamingBody {
            return Err(Error::FutureAlreadyCompleted);
        }
        let mut i: usize = 0;
        let ghost start = self.body@;
        while i < chunk.len()
            invariant
                i <= chunk@.len(),
                self.state == ExchangeState::StreamingBody,
                self.resp_status == old(self).resp_status,
                self.resp_headers == old(self).resp_headers,
                self.resp_status is Some && self.resp_headers is Some,
                self.body@ == start + chunk@.subrange(0, i as int),
            decreases chunk.len() - i,
        {
            self.body.push(chunk[i]);
            i = i + 1;
            proof {
                assert(self.body@ =~= start + chunk@.subrange(0, i as int));
            }
        }
        proof {
            assert(chunk@.subrange(0, i as int) =~= chunk@);
        }
        Ok(())
    }

    /// The transport failed while sending or receiving; the exchange ends with that failure.
    pub fn transport_failed(&mut self, description: String) -> (r: Error)
        ensures
            final(self).state == ExchangeState::Done,
            r == Error::Transport(description),
    {
        self.state = ExchangeState::Done;
        self.body = Vec::new();
        Error::Transport(description)
    }

    /// The body is complete. Its text is returned for reading as a structured error payload,
    /// and the exchange waits in the decoding stage; bytes that are not valid UTF-8 end the
    /// exchange with `MalformedBody`, whatever the status.
    pub fn body_finished(&mut self) -> (r: Result<String, Error>)
        requires
            old(self).wf(),
        ensures
            final(self).wf(),
            old(self).state != ExchangeState::StreamingBody ==> r == Err::<String, Error>(
                Error::FutureAlreadyCompleted,
            ) && *final(self) == *old(self),
            old(self).state == ExchangeState::StreamingBody ==> {
                &&& final(self).resp_status == old(self).resp_status
                &&& final(self).resp_headers == old(self).resp_headers
                &&& valid_utf8(old(self).body@) ==> r is Ok && r->Ok_0@ == decode_utf8(
                    old(self).body@,
                ) && final(self).state == ExchangeState::Decoding
                &&& !valid_utf8(old(self).body@) ==> r == Err::<String, Error>(Error::MalformedBody)
                    && final(self).state == ExchangeState::Done
            },
    {
        if self.state != ExchangeState::StreamingBody {
            return Err(Error::FutureAlreadyCompleted);
        }
        let mut body: Vec<u8> = Vec::new();
        core::mem::swap(&mut self.body, &mut body);
        match utf8_text(body) {
            None => {
                self.state = ExchangeState::Done;
                Err(Error::MalformedBody)
            },
            Some(text) => {
                self.state = ExchangeState::Decoding;
                Ok(text)
            },
        }
    }

    /// Decide the outcome of a decoded exchange and end it. `envelope` is `text` read as a
    /// structured error payload, or `None` when it is not one.
    pub fn finish(&mut self, text: String, envelope: Option<Vec<ErrorCode>>) -> (r: Result<
        String,
        Error,
    >)
        requires
            old(self).wf(),
        ensures
            old(self).state != ExchangeState::Decoding ==> r == Err::<String, Error>(
                Error::FutureAlreadyCompleted,
            ) && *final(self) == *old(self),
            old(self).state == ExchangeState::Decoding ==> {
                &&& final(self).state == ExchangeState::Done
                &&& final(self).resp_headers == old(self).resp_headers
                &&& match failure_of(
                    old(self).resp_status->0,
                    old(self).resp_headers->0,
                    envelope,
                ) {
                    None => r == Ok::<String, Error>(text),
                    Some(e) => r == Err::<String, Error>(e),
                }
            },
    {
        if self.state != ExchangeState::Decoding {
            return Err(Error::FutureAlreadyCompleted);
        }
        self.state = ExchangeState::Done;
        match (&self.resp_status, &self.resp_headers) {
            (Some(status), Some(headers)) => classify(*status, headers, text, envelope),
            _ => Err(Error::FutureAlreadyCompleted),
        }
    }
}

/// What a successful exchange gives once its text has been decoded into the expected type:
/// a decoding failure, the first failure among the rate-limit headers, or the decoded value with
/// the figures of those headers.
pub open spec fn typed_result<T>(decoded: Result<T, String>, headers: Headers) -> Result<
    (T, (i32, i32, i32)),
    Error,
> {
    match decoded {
        Err(msg) => Err(Error::DecodeError(msg)),
        Ok(v) => match rate_headers_of(headers) {
            Err(e) => Err(e),
            Ok(m) => Ok((v, m)),
        },
    }
}

/// Wrap a decoded value with the rate-limit information of the headers of the exchange that
/// produced it. `decoded` is the outcome of decoding the exchange's text into the expected type.
pub fn make_response<T>(decoded: Result<T, String>, headers: &Headers) -> (r: Result<
    Response<T>,
    Error,
>)
    ensures
        match typed_result(decoded, *headers) {
            Ok((v, m)) => r is Ok && r->Ok_0.response == v && meta_of(r->Ok_0) == m,
            Err(e) => r is Err && r->Err_0 == e,
        },
{
    match decoded {
        Err(msg) => Err(Error::DecodeError(msg)),
        Ok(out) => match rate_headers(headers) {
            Err(e) => Err(e),
            Ok(meta) => Ok(Response::map(meta, |_u: ()| -> (v: T) ensures v == out { out })),
        },
    }
}

} // verus!
