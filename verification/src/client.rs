//! The request/response client: correlated sends, fire-and-forget sends, and
//! retried sends that keep one message id across every attempt.
//!
//! The client is a state machine over plain values: it builds the frames and
//! tracks the pending table, while the embedding program writes frames out,
//! waits with the TTL, and feeds inbound responses to [`Client::handle`].
use vstd::prelude::*;

use crate::error::Error;
use crate::message::{Message, MessageId, MessagePayload};
use crate::node::{Node, NodeId};
use crate::outgoing::{evict_stale, has_id, starts_at_most, Outgoing, REQUEST_TTL_MS};

verus! {

/// How long a retried send sleeps between attempts, in milliseconds.
pub const RETRY_DELAY_MS: u64 = 1000;

/// Every pending id is below the given bound (ids come from the node's
/// strictly increasing allocator, so fresh ids never collide).
pub open spec fn ids_below(s: Seq<(u64, u64)>, bound: u64) -> bool {
    forall|i: int| 0 <= i < s.len() ==> s[i].0 < bound
}

/// The client half of a node: its table of in-flight requests.
pub struct Client {
    outgoing: Outgoing,
}

impl Client {
    /// The pending (message id, start time) entries, oldest first.
    pub closed spec fn pending(self) -> Seq<(u64, u64)> {
        self.outgoing.entries()
    }

    /// The TTL after which a pending request is evicted.
    pub closed spec fn ttl(self) -> u64 {
        self.outgoing.ttl()
    }

    /// The pending table has unique ids and is FIFO by insertion time.
    pub closed spec fn wf(self) -> bool {
        self.outgoing.wf()
    }

    /// A client with no requests in flight and the standard request TTL.
    pub fn new() -> (r: Client)
        ensures
            r.pending() == Seq::<(u64, u64)>::empty(),
            r.ttl() == REQUEST_TTL_MS,
            r.wf(),
    {
        Client { outgoing: Outgoing::new(REQUEST_TTL_MS) }
    }

    /// Starts a correlated send: refuses to message the node itself, else
    /// allocates a fresh id, registers it as pending, and returns the frame
    /// to write together with the ids whose waiters were evicted as stale.
    pub fn send_start<Req, Res>(
        &mut self,
        node: &mut Node,
        to: NodeId,
        request: Req,
        now_ms: u64,
    ) -> (r: Result<(Message<MessagePayload<Req, Res>>, MessageId, Vec<MessageId>), Error>)
        requires
            old(self).wf(),
            old(node).next_msg_id() < u64::MAX,
            ids_below(old(self).pending(), old(node).next_msg_id()),
            starts_at_most(old(self).pending(), now_ms),
        ensures
            final(self).wf(),
            final(self).ttl() == old(self).ttl(),
            final(node).id() == old(node).id(),
            final(node).ids() == old(node).ids(),
            to@ == old(node).id()@ ==> r == Err::<
                (Message<MessagePayload<Req, Res>>, MessageId, Vec<MessageId>),
                Error,
            >(Error::SendToSelf) && *final(self) == *old(self) && *final(node) == *old(node),
            to@ != old(node).id()@ ==> final(node).next_msg_id() == old(node).next_msg_id() + 1
                && (r matches Ok(t) && (t.1.0 == old(node).next_msg_id() && t.0.src == old(
                node,
            ).id() && t.0.dest == to && t.0.body.msg_id == Some(t.1) && t.0.body.in_reply_to
                == None::<MessageId> && t.0.body.payload == MessagePayload::Request::<Req, Res>(
                request,
            ) && final(self).pending() == evict_stale(
                old(self).pending().push((t.1.0, now_ms)),
                now_ms,
                old(self).ttl(),
            ) && has_id(final(self).pending(), t.1.0))),
            ids_below(final(self).pending(), final(node).next_msg_id()),
            starts_at_most(final(self).pending(), now_ms),
    {
        if to.eq(node.node_id()) {
            proof {
                assert(starts_at_most(self.pending(), now_ms));
            }
            return Err(Error::SendToSelf);
        }
        let (message, request_id) = node.build_message_to(
            to,
            None,
            MessagePayload::<Req, Res>::Request(request),
        );
        let evicted = self.outgoing.push(request_id, now_ms);
        proof {
            lemma_after_push_evict(
                old(self).pending(),
                request_id.0,
                now_ms,
                self.pending(),
                self.ttl(),
            );
        }
        Ok((message, request_id, evicted))
    }

    /// A fire-and-forget send: allocates an id and builds the frame, but
    /// registers nothing, so any response to it is discarded as unknown.
    pub fn send_no_reply<Req, Res>(node: &mut Node, to: NodeId, request: Req) -> (r: (
        Message<MessagePayload<Req, Res>>,
        MessageId,
    ))
        requires
            old(node).next_msg_id() < u64::MAX,
        ensures
            final(node).next_msg_id() == old(node).next_msg_id() + 1,
            final(node).id() == old(node).id(),
            final(node).ids() == old(node).ids(),
            r.1.0 == old(node).next_msg_id(),
            r.0.src == old(node).id(),
            r.0.dest == to,
            r.0.body.msg_id == Some(r.1),
            r.0.body.in_reply_to == None::<MessageId>,
            r.0.body.payload == MessagePayload::Request::<Req, Res>(request),
    {
        node.build_message_to(to, None, MessagePayload::<Req, Res>::Request(request))
    }

    /// Delivers an inbound response: requires a correlation id, consumes the
    /// matching pending entry at most once, and hands the payload out for the
    /// waiter of exactly that request id.
    pub fn handle<Res>(&mut self, message: Message<Res>) -> (r: Result<(MessageId, Res), Error>)
        requires
            old(self).wf(),
        ensures
            final(self).wf(),
            final(self).ttl() == old(self).ttl(),
            message.body.in_reply_to is None ==> r == Err::<(MessageId, Res), Error>(
                Error::MissingInReplyTo,
            ) && final(self).pending() == old(self).pending(),
            message.body.in_reply_to matches Some(id) ==> {
                &&& has_id(old(self).pending(), id.0) ==> r == Ok::<(MessageId, Res), Error>(
                    (id, message.body.payload),
                ) && !has_id(final(self).pending(), id.0)
                &&& !has_id(old(self).pending(), id.0) ==> r == Err::<(MessageId, Res), Error>(
                    Error::UnknownCorrelation,
                ) && final(self).pending() == old(self).pending()
            },
            forall|k: u64|
                #[trigger] has_id(final(self).pending(), k) ==> has_id(old(self).pending(), k),
            forall|b: u64|
                starts_at_most(old(self).pending(), b) ==> #[trigger] starts_at_most(
                    final(self).pending(),
                    b,
                ),
            forall|b: u64|
                ids_below(old(self).pending(), b) ==> #[trigger] ids_below(
                    final(self).pending(),
                    b,
                ),
    {
        let request_id = match message.body.in_reply_to {
            Some(id) => id,
            None => { return Err(Error::MissingInReplyTo) },
        };
        match self.outgoing.complete(request_id) {
            Ok(()) => {
                proof {
                    lemma_remove_preserves_facts(old(self).pending(), self.pending());
                }
                Ok((request_id, message.body.payload))
            },
            Err(e) => Err(e),
        }
    }
}

/// The id of a retried request together with the frame that every attempt
/// resends unchanged.
pub struct RetryState<Req, Res> {
    message: Message<MessagePayload<Req, Res>>,
    msg_id: MessageId,
    attempts_left: usize,
}

impl<Req, Res> RetryState<Req, Res> {
    /// The frame each attempt writes.
    pub closed spec fn message_spec(self) -> Message<MessagePayload<Req, Res>> {
        self.message
    }

    /// The one id every attempt carries.
    pub closed spec fn id(self) -> MessageId {
        self.msg_id
    }

    /// How many attempts remain.
    pub closed spec fn attempts(self) -> usize {
        self.attempts_left
    }

    /// The frame's own id field always matches the retry id.
    pub open spec fn wf(self) -> bool {
        self.message_spec().body.msg_id == Some(self.id())
    }

    /// The frame to serialize for the current attempt.
    pub fn message(&self) -> (r: &Message<MessagePayload<Req, Res>>)
        ensures
            *r == self.message_spec(),
    {
        &self.message
    }

    /// Begins a retried send: the frame is built once, so every attempt
    /// carries the same message id.
    pub fn start(node: &mut Node, max_attempts: usize, to: NodeId, request: Req) -> (r: RetryState<
        Req,
        Res,
    >)
        requires
            old(node).next_msg_id() < u64::MAX,
        ensures
            r.wf(),
            r.attempts() == max_attempts,
            r.id().0 == old(node).next_msg_id(),
            final(node).next_msg_id() == old(node).next_msg_id() + 1,
            final(node).id() == old(node).id(),
            final(node).ids() == old(node).ids(),
            r.message_spec().src == old(node).id(),
            r.message_spec().dest == to,
            r.message_spec().body.msg_id == Some(r.id()),
            r.message_spec().body.in_reply_to == None::<MessageId>,
            r.message_spec().body.payload == MessagePayload::Request::<Req, Res>(request),
    {
        let (message, msg_id) = node.build_message_to(
            to,
            None,
            MessagePayload::<Req, Res>::Request(request),
        );
        RetryState { message, msg_id, attempts_left: max_attempts }
    }

    /// Registers one more attempt: consumes an attempt, re-registers the same
    /// id as pending, and leaves the frame untouched, so a late response to
    /// any earlier attempt still completes this request. Returns false, with
    /// nothing changed, once the attempts are exhausted.
    pub fn next_attempt(&mut self, client: &mut Client, now_ms: u64) -> (r: bool)
        requires
            old(self).wf(),
            old(client).wf(),
            starts_at_most(old(client).pending(), now_ms),
        ensures
            final(self).wf(),
            final(client).wf(),
            final(client).ttl() == old(client).ttl(),
            final(self).message_spec() == old(self).message_spec(),
            final(self).id() == old(self).id(),
            r == (old(self).attempts() > 0),
            !r ==> *final(self) == *old(self) && *final(client) == *old(client),
            r ==> final(self).attempts() == old(self).attempts() - 1 && has_id(
                final(client).pending(),
                old(self).id().0,
            ) && starts_at_most(final(client).pending(), now_ms),
            forall|k: u64|
                #[trigger] has_id(final(client).pending(), k) ==> has_id(old(client).pending(), k)
                    || k == old(self).id().0,
            forall|b: u64|
                ids_below(old(client).pending(), b) && old(self).id().0 < b ==> #[trigger] ids_below(
                    final(client).pending(),
                    b,
                ),
    {
        if self.attempts_left == 0 {
            return false;
        }
        self.attempts_left = self.attempts_left - 1;
        let ghost before = client.pending();
        // drop any still-pending slot from the previous attempt, then
        // re-register the same id
        let _ = client.outgoing.complete(self.msg_id);
        proof {
            lemma_remove_preserves_facts(before, client.pending());
        }
        let ghost mid = client.pending();
        let _evicted = client.outgoing.push(self.msg_id, now_ms);
        proof {
            lemma_after_push_evict(mid, self.msg_id.0, now_ms, client.pending(), client.ttl());
        }
        true
    }
}

/// The pair appears somewhere in the sequence.
spec fn pair_in(s: Seq<(u64, u64)>, p: (u64, u64)) -> bool {
    exists|k: int| 0 <= k < s.len() && #[trigger] s[k] == p
}

/// Entries that survive a push-then-evict are old entries or the pushed one,
/// so id membership and id bounds carry over.
proof fn lemma_after_push_evict(
    before: Seq<(u64, u64)>,
    pushed_id: u64,
    now_ms: u64,
    after: Seq<(u64, u64)>,
    ttl_ms: u64,
)
    requires
        after == evict_stale(before.push((pushed_id, now_ms)), now_ms, ttl_ms),
    ensures
        forall|k: u64| #[trigger] has_id(after, k) ==> has_id(before, k) || k == pushed_id,
        forall|b: u64|
            ids_below(before, b) && pushed_id < b ==> #[trigger] ids_below(after, b),
{
    let s0 = before.push((pushed_id, now_ms));
    crate::outgoing::lemma_evict_stale_is_suffix(s0, now_ms, ttl_ms);
    let n = choose|n: int| 0 <= n <= s0.len() && after == #[trigger] s0.skip(n);
    assert forall|j: int|
        0 <= j < after.len() implies pair_in(before, after[j]) || after[j] == (
        pushed_id,
        now_ms,
    ) by {
        assert(after[j] == s0[n + j]);
        if n + j < before.len() {
            assert(before[n + j] == after[j]);
        }
    }
    assert forall|k: u64| #[trigger] has_id(after, k) implies has_id(before, k) || k
        == pushed_id by {
        let j = choose|j: int| 0 <= j < after.len() && after[j].0 == k;
        if after[j] != (pushed_id, now_ms) {
            let m = choose|m: int| 0 <= m < before.len() && #[trigger] before[m] == after[j];
            assert(before[m].0 == k);
        }
    }
    assert forall|b: u64| ids_below(before, b) && pushed_id < b implies #[trigger] ids_below(
        after,
        b,
    ) by {
        assert forall|j: int| 0 <= j < after.len() implies after[j].0 < b by {
            if after[j] != (pushed_id, now_ms) {
                let m = choose|m: int| 0 <= m < before.len() && #[trigger] before[m] == after[j];
                assert(before[m].0 < b);
            }
        }
    }
}

/// Removing one entry keeps every remaining pair an element of the original
/// sequence, so membership, bounds and start-time facts carry over.
proof fn lemma_remove_preserves_facts(before: Seq<(u64, u64)>, after: Seq<(u64, u64)>)
    requires
        after == before || exists|i: int|
            0 <= i < before.len() && after == #[trigger] before.remove(i),
    ensures
        forall|k: u64| #[trigger] has_id(after, k) ==> has_id(before, k),
        forall|b: u64| starts_at_most(before, b) ==> #[trigger] starts_at_most(after, b),
        forall|b: u64| ids_below(before, b) ==> #[trigger] ids_below(after, b),
{
    if after != before {
        let i = choose|i: int| 0 <= i < before.len() && after == #[trigger] before.remove(i);
        assert forall|j: int| 0 <= j < after.len() implies pair_in(before, after[j]) by {
            if j < i {
                assert(before[j] == after[j]);
            } else {
                assert(before[j + 1] == after[j]);
            }
        }
    } else {
        assert forall|j: int| 0 <= j < after.len() implies pair_in(before, after[j]) by {
            assert(before[j] == after[j]);
        }
    }
    assert forall|k: u64| #[trigger] has_id(after, k) implies has_id(before, k) by {
        let j = choose|j: int| 0 <= j < after.len() && after[j].0 == k;
        let m = choose|m: int| 0 <= m < before.len() && #[trigger] before[m] == after[j];
        assert(before[m].0 == k);
    }
    assert forall|b: u64| starts_at_most(before, b) implies #[trigger] starts_at_most(
        after,
        b,
    ) by {
        assert forall|j: int| 0 <= j < after.len() implies after[j].1 <= b by {
            let m = choose|m: int| 0 <= m < before.len() && #[trigger] before[m] == after[j];
            assert(before[m].1 <= b);
        }
    }
    assert forall|b: u64| ids_below(before, b) implies #[trigger] ids_below(after, b) by {
        assert forall|j: int| 0 <= j < after.len() implies after[j].0 < b by {
            let m = choose|m: int| 0 <= m < before.len() && #[trigger] before[m] == after[j];
            assert(before[m].0 < b);
        }
    }
}

} // verus!
