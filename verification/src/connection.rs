//! The correlation layer: it turns the two message queues of a transport
//! into request/response exchanges. A connection hands out fresh request
//! identifiers, keeps the table of exchanges still awaiting a response,
//! dispatches every inbound message, and owns the shutdown state machine.
//!
//! The blocking queues and the threads that pump them live outside this
//! library; the decisions they carry out are all here.

use vstd::prelude::*;
use crate::protocol::{Json, Message, MessageV, Request, RequestId, Response, ResponseV, Error};
use crate::numerals::{dec_of, lemma_dec_of_injective, push_dec_u64};
use crate::codec::string_from_chars;

verus! {

/// Hands out request identifiers: a monotone counter rendered in decimal.
/// Identifiers are never reused within one connection's lifetime.
pub struct IdGenerator {
    next_id: u64,
}

impl View for IdGenerator {
    type V = nat;

    closed spec fn view(&self) -> nat {
        self.next_id as nat
    }
}

impl IdGenerator {
    pub fn new() -> (g: IdGenerator)
        ensures
            g@ == 0,
    {
        IdGenerator { next_id: 0 }
    }

    /// The next identifier: the counter's decimal rendering.
    pub fn next(&mut self) -> (id: RequestId)
        requires
            old(self)@ < u64::MAX,
        ensures
            final(self)@ == old(self)@ + 1,
            id@ == dec_of(old(self)@),
    {
        let mut cs: Vec<char> = Vec::new();
        push_dec_u64(self.next_id, &mut cs);
        let id = RequestId(string_from_chars(cs));
        self.next_id = self.next_id + 1;
        id
    }
}

/// What dispatching one inbound message decides.
pub enum Step {
    /// An inbound request: hand it to the caller for a reply.
    Yield(Request),
    /// The response to the pending exchange numbered by the first field:
    /// resolve that exchange with the second.
    Deliver(u64, Response),
    /// A response nobody asked for: a protocol violation, fail closed.
    Violation,
    /// The connection is closed: nothing is dispatched any more.
    ClosedAlready,
}

pub enum StepV {
    Yield(crate::protocol::RequestV),
    Deliver(nat, ResponseV),
    Violation,
    ClosedAlready,
}

impl View for Step {
    type V = StepV;

    open spec fn view(&self) -> StepV {
        match self {
            Step::Yield(r) => StepV::Yield(r@),
            Step::Deliver(n, r) => StepV::Deliver(*n as nat, r@),
            Step::Violation => StepV::Violation,
            Step::ClosedAlready => StepV::ClosedAlready,
        }
    }
}

/// The identifier a response correlates to.
pub open spec fn resp_id_v(r: ResponseV) -> Seq<char> {
    match r {
        ResponseV::Success { id, .. } => id,
        ResponseV::Failure { id, .. } => id,
    }
}

/// The mathematical state of a connection: the identifier counter, the
/// pending exchanges (number and whether that exchange is the shutdown
/// request), and whether the connection is closed.
pub struct ConnStateV {
    pub next: nat,
    pub pending: Seq<(nat, bool)>,
    pub closed: bool,
}

/// The index of the pending exchange whose rendered identifier is `id`.
pub open spec fn find_pending(p: Seq<(nat, bool)>, id: Seq<char>) -> Option<int>
    decreases p.len(),
{
    if p.len() == 0 {
        None
    } else if dec_of(p[0].0) == id {
        Some(0int)
    } else {
        match find_pending(p.drop_first(), id) {
            Some(i) => Some(i + 1),
            None => None,
        }
    }
}

/// Well-formed: every pending number was handed out, and no two pending
/// exchanges share a number.
pub open spec fn wf_conn(s: ConnStateV) -> bool {
    &&& forall|k: int| 0 <= k < s.pending.len() ==> (#[trigger] s.pending[k]).0 < s.next
    &&& forall|k1: int, k2: int|
        0 <= k1 < s.pending.len() && 0 <= k2 < s.pending.len() && k1 != k2 ==> (
        #[trigger] s.pending[k1]).0 != (#[trigger] s.pending[k2]).0
}

/// What registering an outbound request does to the state.
pub open spec fn spec_register(s: ConnStateV, shutdown: bool) -> ConnStateV {
    ConnStateV {
        next: s.next + 1,
        pending: s.pending.push((s.next, shutdown)),
        closed: s.closed,
    }
}

/// What dispatching one inbound message does: the next state and the step
/// taken. A closed connection dispatches nothing. A request is yielded. A
/// response resolves its own pending exchange and no other; resolving the
/// shutdown exchange closes the connection, and a response without a
/// pending exchange closes it too.
pub open spec fn spec_on_message(s: ConnStateV, m: MessageV) -> (ConnStateV, StepV) {
    if s.closed {
        (s, StepV::ClosedAlready)
    } else {
        match m {
            MessageV::Request(r) => (s, StepV::Yield(r)),
            MessageV::Response(r) => match find_pending(s.pending, resp_id_v(r)) {
                Some(i) => (
                    ConnStateV {
                        next: s.next,
                        pending: s.pending.remove(i),
                        closed: s.pending[i].1,
                    },
                    StepV::Deliver(s.pending[i].0, r),
                ),
                None => (ConnStateV { next: s.next, pending: s.pending, closed: true },
                StepV::Violation),
            },
        }
    }
}

/// The sequential core of a connection.
pub struct ConnectionCore {
    ids: IdGenerator,
    pending: Vec<(u64, bool)>,
    closed: bool,
}

impl View for ConnectionCore {
    type V = ConnStateV;

    closed spec fn view(&self) -> ConnStateV {
        ConnStateV {
            next: self.ids@,
            pending: Seq::new(self.pending@.len(), |i: int| (self.pending@[i].0 as nat,
            self.pending@[i].1)),
            closed: self.closed,
        }
    }
}

proof fn lemma_find_pending_found(p: Seq<(nat, bool)>, id: Seq<char>, i: int)
    requires
        0 <= i < p.len(),
        dec_of(p[i].0) == id,
        forall|t: int| 0 <= t < i ==> dec_of((#[trigger] p[t]).0) != id,
    ensures
        find_pending(p, id) == Some(i),
    decreases i,
{
    if i > 0 {
        let rest = p.drop_first();
        assert forall|t: int| 0 <= t < i - 1 implies dec_of((#[trigger] rest[t]).0) != id by {
            assert(rest[t] == p[t + 1]);
        }
        lemma_find_pending_found(rest, id, i - 1);
    }
}

proof fn lemma_find_pending_none(p: Seq<(nat, bool)>, id: Seq<char>)
    requires
        forall|t: int| 0 <= t < p.len() ==> dec_of((#[trigger] p[t]).0) != id,
    ensures
        find_pending(p, id) is None,
    decreases p.len(),
{
    if p.len() > 0 {
        let rest = p.drop_first();
        assert forall|t: int| 0 <= t < rest.len() implies dec_of((#[trigger] rest[t]).0)
            != id by {
            assert(rest[t] == p[t + 1]);
        }
        lemma_find_pending_none(rest, id);
    }
}

impl ConnectionCore {
    pub fn new() -> (c: ConnectionCore)
        ensures
            c@.next == 0,
            c@.pending == Seq::<(nat, bool)>::empty(),
            !c@.closed,
            wf_conn(c@),
    {
        let c = ConnectionCore { ids: IdGenerator::new(), pending: Vec::new(), closed: false };
        proof {
            assert(c@.pending =~= Seq::<(nat, bool)>::empty());
        }
        c
    }

    /// Builds an outbound request and registers its pending exchange; the
    /// exchange is marked terminal when the method is `shutdown`. The
    /// identifier is fresh: it matches no exchange already pending.
    pub fn register_send(&mut self, method: String, params: Json) -> (req: Request)
        requires
            wf_conn(old(self)@),
            old(self)@.next < u64::MAX,
        ensures
            wf_conn(final(self)@),
            final(self)@ == spec_register(
                old(self)@,
                method@ == "shutdown"@,
            ),
            req@.id == dec_of(old(self)@.next),
            req@.method == method@,
            req@.params == params@,
            forall|k: int|
                0 <= k < old(self)@.pending.len() ==> dec_of(
                    (#[trigger] old(self)@.pending[k]).0,
                ) != req@.id,
    {
        let shutdown = method == String::from_str("shutdown");
        let ghost prev = self@;
        let n = self.ids.next_id;
        let id = self.ids.next();
        self.pending.push((n, shutdown));
        proof {
            assert(self@.pending =~= prev.pending.push((n as nat, shutdown)));
            assert forall|k: int| 0 <= k < prev.pending.len() implies dec_of(
                (#[trigger] prev.pending[k]).0,
            ) != id@ by {
                if dec_of(prev.pending[k].0) == dec_of(n as nat) {
                    lemma_dec_of_injective(prev.pending[k].0, n as nat);
                }
            }
            assert forall|k1: int, k2: int|
                0 <= k1 < self@.pending.len() && 0 <= k2 < self@.pending.len() && k1
                    != k2 implies (#[trigger] self@.pending[k1]).0 != (
            #[trigger] self@.pending[k2]).0 by {}
        }
        Request::new(id, method, params)
    }

    /// Whether another identifier can still be handed out; false only
    /// after an astronomical number of sends.
    pub fn can_send(&self) -> (r: bool)
        ensures
            r == (self@.next < u64::MAX),
    {
        self.ids.next_id < u64::MAX
    }

    /// Whether the connection has reached its terminal state.
    pub fn is_closed(&self) -> (r: bool)
        ensures
            r == self@.closed,
    {
        self.closed
    }

    /// Dispatches one inbound message, as `spec_on_message` says.
    #[verifier::loop_isolation(false)]
    pub fn on_message(&mut self, msg: Message) -> (step: Step)
        requires
            wf_conn(old(self)@),
        ensures
            wf_conn(final(self)@),
            (final(self)@, step@) == spec_on_message(old(self)@, msg@),
            final(self)@.next == old(self)@.next,
    {
        let ghost prev = self@;
        if self.closed {
            return Step::ClosedAlready;
        }
        let resp = match msg {
            Message::Request(r) => {
                return Step::Yield(r);
            },
            Message::Response(r) => r,
        };
        let rid: &RequestId = resp.id();
        let mut k: usize = 0;
        while k < self.pending.len()
            invariant
                k <= self.pending.len(),
                self@ == prev,
                rid@ == resp_id_v(resp@),
                forall|t: int| 0 <= t < k ==> dec_of((#[trigger] prev.pending[t]).0) != rid@,
            decreases self.pending.len() - k,
        {
            let mut cs: Vec<char> = Vec::new();
            push_dec_u64(self.pending[k].0, &mut cs);
            let rendered = string_from_chars(cs);
            if rendered == rid.0 {
                proof {
                    lemma_find_pending_found(prev.pending, rid@, k as int);
                }
                let n = self.pending[k].0;
                let terminal = self.pending[k].1;
                self.pending.remove(k);
                if terminal {
                    self.closed = true;
                }
                proof {
                    assert(self@.pending =~= prev.pending.remove(k as int));
                    prev.pending.remove_ensures(k as int);
                    assert forall|k1: int, k2: int|
                        0 <= k1 < self@.pending.len() && 0 <= k2 < self@.pending.len() && k1
                            != k2 implies (#[trigger] self@.pending[k1]).0 != (
                    #[trigger] self@.pending[k2]).0 by {
                        let r = prev.pending.remove(k as int);
                        let m1: int = if k1 < k as int {
                            k1
                        } else {
                            k1 + 1
                        };
                        let m2: int = if k2 < k as int {
                            k2
                        } else {
                            k2 + 1
                        };
                        assert(r[k1] == prev.pending[m1]);
                        assert(r[k2] == prev.pending[m2]);
                    }
                    assert forall|t: int| 0 <= t < self@.pending.len() implies (
                    #[trigger] self@.pending[t]).0 < self@.next by {
                        let r = prev.pending.remove(k as int);
                        let m: int = if t < k as int {
                            t
                        } else {
                            t + 1
                        };
                        assert(r[t] == prev.pending[m]);
                    }
                }
                return Step::Deliver(n, resp);
            }
            k += 1;
        }
        proof {
            lemma_find_pending_none(prev.pending, rid@);
        }
        self.closed = true;
        Step::Violation
    }
}

/// Classifies a resolved response for the exchange that was waiting on it:
/// a payload to decode further, or the peer's own error, passed through.
pub fn resolve_response(r: Response) -> (out: Result<Json, Error>)
    ensures
        match r {
            Response::Success { result, .. } => out matches Ok(j) && j@ == result@,
            Response::Failure { error, .. } => out matches Err(e) && e@ == error@,
        },
{
    match r {
        Response::Success { id: _, result } => Ok(result),
        Response::Failure { id: _, error } => Err(error),
    }
}

/// Why a `wait` on an exchange yielded no result.
#[derive(Debug)]
pub enum ResponseError {
    /// The peer answered with its own error.
    Remote(Error),
    /// The connection closed first: no response will ever arrive.
    ChannelClosed,
    /// The response arrived but its payload had the wrong shape.
    Deserialization(String),
}

impl ResponseError {
    /// A short account of the failure, for diagnostics.
    pub fn describe(&self) -> (r: String)
        ensures
            r@ == (match self {
                ResponseError::Remote(_) => "received error from the other side"@,
                ResponseError::ChannelClosed => "response not received, channel has been closed"@,
                ResponseError::Deserialization(_) => "response has unexpected result type"@,
            }),
    {
        match self {
            ResponseError::Remote(_) => String::from_str("received error from the other side"),
            ResponseError::ChannelClosed => String::from_str(
                "response not received, channel has been closed",
            ),
            ResponseError::Deserialization(_) => String::from_str(
                "response has unexpected result type",
            ),
        }
    }
}

/// The failure of handing a message to a closed transport.
#[derive(Debug)]
pub struct SendError {}

impl SendError {
    /// A short account of the failure, for diagnostics.
    pub fn describe(&self) -> (r: String)
        ensures
            r@ == "failed to send a message, the channel is already closed"@,
    {
        String::from_str("failed to send a message, the channel is already closed")
    }
}

/// An inbound request yielded to the caller, holding the one right to reply
/// to it. Every reply consumes the handle, so a second reply to the same
/// request is impossible by construction.
pub struct ConnRequest {
    inner: Request,
}

impl View for ConnRequest {
    type V = crate::protocol::RequestV;

    closed spec fn view(&self) -> crate::protocol::RequestV {
        self.inner@
    }
}

impl ConnRequest {
    pub fn new(inner: Request) -> (r: ConnRequest)
        ensures
            r@ == inner@,
    {
        ConnRequest { inner }
    }

    pub fn inner(&self) -> (r: &Request)
        ensures
            r@ == self@,
    {
        &self.inner
    }

    /// The affirmative reply, carrying this request's identifier.
    pub fn reply_ok(self, result: Json) -> (r: Response)
        ensures
            r@ == (ResponseV::Success { id: self@.id, result: result@ }),
    {
        Response::new_ok(self.inner.id, result)
    }

    /// The negative reply, carrying this request's identifier.
    pub fn reply_err(self, err: Error) -> (r: Response)
        ensures
            r@ == (ResponseV::Failure { id: self@.id, error: err@ }),
    {
        Response::new_err(self.inner.id, err)
    }

    /// Either reply, by the outcome's kind.
    pub fn reply(self, response: Result<Json, Error>) -> (r: Response)
        ensures
            match response {
                Ok(result) => r@ == (ResponseV::Success { id: self@.id, result: result@ }),
                Err(err) => r@ == (ResponseV::Failure { id: self@.id, error: err@ }),
            },
    {
        match response {
            Ok(result) => self.reply_ok(result),
            Err(err) => self.reply_err(err),
        }
    }
}

/// The requests that dispatching a whole inbound sequence would yield.
pub open spec fn yields_of(s: ConnStateV, msgs: Seq<MessageV>) -> Seq<crate::protocol::RequestV>
    decreases msgs.len(),
{
    if msgs.len() == 0 {
        Seq::empty()
    } else {
        let (s2, st) = spec_on_message(s, msgs[0]);
        let rest = yields_of(s2, msgs.drop_first());
        match st {
            StepV::Yield(r) => seq![r] + rest,
            _ => rest,
        }
    }
}

/// A closed connection yields no request, whatever arrives afterwards.
pub proof fn lemma_closed_yields_nothing(s: ConnStateV, msgs: Seq<MessageV>)
    requires
        s.closed,
    ensures
        yields_of(s, msgs) == Seq::<crate::protocol::RequestV>::empty(),
    decreases msgs.len(),
{
    if msgs.len() > 0 {
        lemma_closed_yields_nothing(s, msgs.drop_first());
    }
}

/// Shutdown terminality: once the response to the shutdown exchange is
/// observed, no later message yields a request, even one already queued.
pub proof fn lemma_shutdown_terminal(
    s: ConnStateV,
    r: ResponseV,
    i: int,
    msgs: Seq<MessageV>,
)
    requires
        wf_conn(s),
        !s.closed,
        find_pending(s.pending, resp_id_v(r)) == Some(i),
        0 <= i < s.pending.len(),
        s.pending[i].1,
    ensures
        ({
            let (s2, st) = spec_on_message(s, MessageV::Response(r));
            &&& st == StepV::Deliver(s.pending[i].0, r)
            &&& s2.closed
            &&& yields_of(s2, msgs) == Seq::<crate::protocol::RequestV>::empty()
        }),
{
    let (s2, st) = spec_on_message(s, MessageV::Response(r));
    lemma_closed_yields_nothing(s2, msgs);
}

/// An unmatched response is fatal: it closes the connection, and no later
/// message yields a request.
pub proof fn lemma_unmatched_response_fatal(s: ConnStateV, r: ResponseV, msgs: Seq<MessageV>)
    requires
        wf_conn(s),
        !s.closed,
        find_pending(s.pending, resp_id_v(r)) is None,
    ensures
        ({
            let (s2, st) = spec_on_message(s, MessageV::Response(r));
            &&& st == StepV::Violation
            &&& s2.closed
            &&& yields_of(s2, msgs) == Seq::<crate::protocol::RequestV>::empty()
        }),
{
    let (s2, st) = spec_on_message(s, MessageV::Response(r));
    lemma_closed_yields_nothing(s2, msgs);
}

/// Correlation: in a well-formed connection, two pending exchanges carry
/// one identifier only when they are one exchange, so a response resolves
/// exactly the exchange whose identifier it names. Which exchange a
/// response resolves is `find_pending` in `spec_on_message`: this says the
/// found exchange is the only one that matches.
pub proof fn lemma_correlation(s: ConnStateV, id: Seq<char>, i: int)
    requires
        wf_conn(s),
        find_pending(s.pending, id) == Some(i),
    ensures
        0 <= i < s.pending.len(),
        dec_of(s.pending[i].0) == id,
        forall|k: int|
            0 <= k < s.pending.len() && k != i ==> dec_of((#[trigger] s.pending[k]).0) != id,
{
    lemma_find_pending_in_bounds(s.pending, id, i);
    assert forall|k: int|
        0 <= k < s.pending.len() && k != i implies dec_of((#[trigger] s.pending[k]).0)
        != id by {
        if dec_of(s.pending[k].0) == id {
            lemma_dec_of_injective(s.pending[k].0, s.pending[i].0);
        }
    }
}

/// Correlation across a delivery: when a response resolves an exchange,
/// it is the exchange whose identifier the response names, the response
/// delivered is that response itself, and every other pending exchange is
/// left untouched, in order.
pub proof fn lemma_delivery_matches(s: ConnStateV, r: ResponseV, i: int)
    requires
        wf_conn(s),
        !s.closed,
        find_pending(s.pending, resp_id_v(r)) == Some(i),
    ensures
        ({
            let (s2, st) = spec_on_message(s, MessageV::Response(r));
            &&& st == StepV::Deliver(s.pending[i].0, r)
            &&& dec_of(s.pending[i].0) == resp_id_v(r)
            &&& forall|k: int|
                0 <= k < s.pending.len() && k != i ==> dec_of((#[trigger] s.pending[k]).0)
                    != resp_id_v(r)
            &&& s2.pending == s.pending.remove(i)
        }),
{
    lemma_correlation(s, resp_id_v(r), i);
}

proof fn lemma_find_pending_in_bounds(p: Seq<(nat, bool)>, id: Seq<char>, i: int)
    requires
        find_pending(p, id) == Some(i),
    ensures
        0 <= i < p.len(),
        dec_of(p[i].0) == id,
    decreases p.len(),
{
    if p.len() > 0 && dec_of(p[0].0) != id {
        match find_pending(p.drop_first(), id) {
            Some(j) => {
                lemma_find_pending_in_bounds(p.drop_first(), id, j);
                assert(p.drop_first()[j] == p[j + 1]);
            },
            None => {},
        }
    }
}

} // verus!
