//! The inbound path: bytes from the peer's output stream become messages,
//! and each message is routed to the request that awaits it.
//!
//! Reading the stream is left to the caller. It hands over whatever bytes a
//! read returned, and gets back what to do with the messages that those
//! bytes completed.

use vstd::prelude::*;
use crate::json::{as_u64, json_as_u64, json_member, member};
use crate::pending::{register_step, resolve_step, PendingTable};
use crate::protocol::{decode, decoded, Decoded};
use crate::wire::{frame_scan, lemma_frame_scan_bounds, lemma_frame_scan_stable};

verus! {

/// The `id` member of a message.
#[derive(Debug, Clone, Copy, PartialEq, Eq)]
pub enum MessageId {
    /// The message has no `id` member.
    Absent,
    /// The `id` member is no unsigned integer: `null`, a string, a negative
    /// number.
    Unusable,
    /// The correlation id.
    Number(u64),
}

/// The `id` member of a message.
pub open spec fn id_of(message: serde_json::Value) -> MessageId {
    match json_member(message, "id"@) {
        None => MessageId::Absent,
        Some(id) => match json_as_u64(id) {
            None => MessageId::Unusable,
            Some(number) => MessageId::Number(number),
        },
    }
}

/// Reads the `id` member of a message.
pub fn message_id(message: &serde_json::Value) -> (id: MessageId)
    ensures
        id == id_of(*message),
{
    match member(message, "id") {
        None => MessageId::Absent,
        Some(id) => match as_u64(id) {
            None => MessageId::Unusable,
            Some(number) => MessageId::Number(number),
        },
    }
}

/// What became of a message from the peer.
#[derive(Debug, PartialEq)]
pub enum Routed<H> {
    /// The response to a pending request. Its entry has left the table:
    /// `handle` is to be fulfilled with `message`.
    Deliver { id: u64, handle: H, message: serde_json::Value },
    /// A message without an `id` member, which the peer sent unasked. It
    /// answers no request.
    Unsolicited { message: serde_json::Value },
    /// A message whose `id` names no request: it is no unsigned integer.
    Unattributed { message: serde_json::Value },
    /// A response under an id that is not pending: stale, repeated, or never
    /// registered.
    Unknown { id: u64, message: serde_json::Value },
}

/// What routing a message does to the table, and what becomes of the
/// message. Only a response whose id is pending changes the table, and it
/// removes that one entry.
pub open spec fn route_step<H>(table: Map<u64, H>, message: serde_json::Value) -> (
    Map<u64, H>,
    Routed<H>,
) {
    match id_of(message) {
        MessageId::Absent => (table, Routed::Unsolicited { message }),
        MessageId::Unusable => (table, Routed::Unattributed { message }),
        MessageId::Number(id) => match resolve_step(table, id, message) {
            (after, Ok(delivery)) => (
                after,
                Routed::Deliver { id, handle: delivery.handle, message: delivery.value },
            ),
            (after, Err(back)) => (after, Routed::Unknown { id, message: back }),
        },
    }
}

/// Routes one message from the peer.
pub fn route<H>(table: &mut PendingTable<H>, message: serde_json::Value) -> (routed: Routed<H>)
    ensures
        (final(table)@, routed) == route_step(old(table)@, message),
        !(routed is Deliver) ==> final(table)@ == old(table)@,
{
    match message_id(&message) {
        MessageId::Absent => Routed::Unsolicited { message },
        MessageId::Unusable => Routed::Unattributed { message },
        MessageId::Number(id) => match table.resolve(id, message) {
            Ok(delivery) => Routed::Deliver { id, handle: delivery.handle, message: delivery.value },
            Err(back) => Routed::Unknown { id, message: back },
        },
    }
}

/// A response that bears the id under which a request was registered is
/// delivered to the handle of that request, and the table is again as it
/// was before the request.
pub proof fn lemma_response_finds_its_request<H>(
    table: Map<u64, H>,
    id: u64,
    handle: H,
    message: serde_json::Value,
)
    requires
        !table.contains_key(id),
        id_of(message) == MessageId::Number(id),
    ensures
        route_step(register_step(table, id, handle).0, message) == (
            table,
            Routed::Deliver { id, handle, message },
        ),
{
    assert(table.insert(id, handle).remove(id) =~= table);
}

/// The table after a run of messages was routed in order, and what became
/// of each.
pub open spec fn route_all<H>(table: Map<u64, H>, messages: Seq<serde_json::Value>) -> (
    Map<u64, H>,
    Seq<Routed<H>>,
)
    decreases messages.len(),
{
    if messages.len() == 0 {
        (table, Seq::empty())
    } else {
        let before = route_all(table, messages.drop_last());
        let step = route_step(before.0, messages.last());
        (step.0, before.1.push(step.1))
    }
}

/// What a buffer yields when it is read to the end.
pub struct Drained {
    /// The messages of the complete frames, in order.
    pub messages: Seq<serde_json::Value>,
    /// The bytes that stay in the buffer.
    pub rest: Seq<u8>,
    /// Whether the reading stopped at a malformed frame.
    pub broken: bool,
}

/// Reads message after message from the front of a buffer, until the bytes
/// that remain are no complete frame, or are malformed.
pub open spec fn drain(buf: Seq<u8>) -> Drained
    decreases buf.len(),
{
    match decoded(buf) {
        Decoded::Incomplete => Drained { messages: Seq::empty(), rest: buf, broken: false },
        Decoded::Malformed => Drained { messages: Seq::empty(), rest: buf, broken: true },
        Decoded::Message { value, consumed } => if 0 < consumed <= buf.len() {
            let tail = drain(buf.skip(consumed as int));
            Drained { messages: seq![value] + tail.messages, rest: tail.rest, broken: tail.broken }
        } else {
            Drained { messages: Seq::empty(), rest: buf, broken: true }
        },
    }
}

/// What a stream yields when its bytes arrive in chunks, each read to the
/// end as it arrives. After a malformed frame nothing more is read.
pub open spec fn drain_chunks(chunks: Seq<Seq<u8>>) -> Drained
    decreases chunks.len(),
{
    if chunks.len() == 0 {
        Drained { messages: Seq::empty(), rest: Seq::empty(), broken: false }
    } else {
        let before = drain_chunks(chunks.drop_last());
        if before.broken {
            before
        } else {
            let step = drain(before.rest + chunks.last());
            Drained {
                messages: before.messages + step.messages,
                rest: step.rest,
                broken: step.broken,
            }
        }
    }
}

/// The bytes of a stream, chunk after chunk.
pub open spec fn joined(chunks: Seq<Seq<u8>>) -> Seq<u8>
    decreases chunks.len(),
{
    if chunks.len() == 0 {
        Seq::empty()
    } else {
        joined(chunks.drop_last()) + chunks.last()
    }
}

/// A stream cut into chunks of one byte each.
pub open spec fn bytewise(bytes: Seq<u8>) -> Seq<Seq<u8>> {
    Seq::new(bytes.len(), |i: int| seq![bytes[i]])
}

/// What a read from the peer's output stream brought.
#[derive(Debug, PartialEq)]
pub struct Received<H> {
    /// What became of each message that the bytes completed, in the order in
    /// which the messages arrived.
    pub events: Vec<Routed<H>>,
    /// Whether the stream has failed: a frame was malformed. Then the path
    /// is to end, and the requests still pending are to be failed.
    pub failed: bool,
}

/// The receiving end of the peer's output stream: the bytes that have
/// arrived and are not yet a complete frame.
pub struct Inbound {
    buffer: Vec<u8>,
    failed: bool,
}

impl Inbound {
    /// The bytes that await the rest of their frame.
    pub closed spec fn pending(&self) -> Seq<u8> {
        self.buffer@
    }

    /// Whether a malformed frame has ended the stream.
    pub closed spec fn broken(&self) -> bool {
        self.failed
    }

    /// The receiving end of a stream from which nothing has arrived.
    pub fn new() -> (inbound: Self)
        ensures
            inbound.pending() == Seq::<u8>::empty(),
            !inbound.broken(),
    {
        Inbound { buffer: Vec::new(), failed: false }
    }

    /// Whether a malformed frame has ended the stream.
    pub fn has_failed(&self) -> (failed: bool)
        ensures
            failed == self.broken(),
    {
        self.failed
    }

    /// The number of bytes that await the rest of their frame.
    pub fn buffered(&self) -> (n: usize)
        ensures
            n == self.pending().len(),
    {
        self.buffer.len()
    }

    /// Takes the bytes that a read returned, and routes every message that
    /// they complete. The bytes of an unfinished frame stay for the next
    /// call. After a malformed frame the stream has failed: nothing more is
    /// read, then or later.
    pub fn receive<H>(&mut self, table: &mut PendingTable<H>, bytes: &[u8]) -> (received: Received<
        H,
    >)
        ensures
            old(self).broken() ==> final(self).broken() && final(self).pending() == old(
                self,
            ).pending() && final(table)@ == old(table)@ && received.events@.len() == 0
                && received.failed,
            !old(self).broken() ==> {
                let drained = drain(old(self).pending() + bytes@);
                let routed = route_all(old(table)@, drained.messages);
                &&& final(self).pending() == drained.rest
                &&& final(self).broken() == drained.broken
                &&& received.failed == drained.broken
                &&& final(table)@ == routed.0
                &&& received.events@ == routed.1
            },
    {
        let mut events: Vec<Routed<H>> = Vec::new();
        if self.failed {
            return Received { events, failed: true };
        }
        self.buffer.extend_from_slice(bytes);
        let ghost all = self.buffer@;
        let ghost mut seen: Seq<serde_json::Value> = Seq::empty();
        assert(route_all(old(table)@, seen) == (old(table)@, Seq::<Routed<H>>::empty()));
        assert(seen + drain(self.buffer@).messages =~= drain(all).messages);
        loop
            invariant
                !self.failed,
                !old(self).broken(),
                all == old(self).pending() + bytes@,
                drain(all).messages == seen + drain(self.buffer@).messages,
                drain(all).rest == drain(self.buffer@).rest,
                drain(all).broken == drain(self.buffer@).broken,
                route_all(old(table)@, seen) == (table@, events@),
            decreases self.buffer@.len(),
        {
            match decode(self.buffer.as_slice()) {
                Decoded::Incomplete => {
                    proof {
                        assert(seen + drain(self.buffer@).messages =~= seen);
                    }
                    return Received { events, failed: false };
                },
                Decoded::Malformed => {
                    proof {
                        assert(seen + drain(self.buffer@).messages =~= seen);
                    }
                    self.failed = true;
                    return Received { events, failed: true };
                },
                Decoded::Message { value, consumed } => {
                    proof {
                        lemma_decoded_bounds(self.buffer@);
                    }
                    let ghost before = self.buffer@;
                    let ghost table_before = table@;
                    let rest = self.buffer.split_off(consumed);
                    self.buffer = rest;
                    let routed = route(table, value);
                    events.push(routed);
                    proof {
                        assert(self.buffer@ =~= before.skip(consumed as int));
                        let grown = seen.push(value);
                        assert(grown.drop_last() =~= seen);
                        assert(grown + drain(self.buffer@).messages =~= seen + drain(
                            before,
                        ).messages);
                        seen = grown;
                    }
                },
            }
        }
    }
}

/// A message that was read takes its frame from the front of the buffer:
/// at least one byte, and no more than the buffer holds.
pub proof fn lemma_decoded_bounds(buf: Seq<u8>)
    requires
        decoded(buf) is Message,
    ensures
        0 < decoded(buf)->consumed <= buf.len(),
{
    lemma_frame_scan_bounds(buf);
}

/// Once a buffer holds a message, or is malformed, bytes that arrive later
/// do not change what is read from it.
pub proof fn lemma_decoded_stable(buf: Seq<u8>, ext: Seq<u8>)
    requires
        !(decoded(buf) is Incomplete),
    ensures
        decoded(buf + ext) == decoded(buf),
{
    lemma_frame_scan_stable(buf, ext);
    if decoded(buf) is Message || frame_scan(buf) is Complete {
        lemma_frame_scan_bounds(buf);
        let start = frame_scan(buf)->body_start as int;
        let end = frame_scan(buf)->end as int;
        assert((buf + ext).subrange(start, end) =~= buf.subrange(start, end));
    }
}

/// Reading a buffer to the end, and then what is left together with the
/// bytes that arrive next, yields what reading all the bytes at once yields.
pub proof fn lemma_drain_split(first: Seq<u8>, second: Seq<u8>)
    ensures
        drain(first).broken ==> drain(first + second).broken && drain(first + second).messages
            == drain(first).messages,
        !drain(first).broken ==> drain(first + second).messages == drain(first).messages + drain(
            drain(first).rest + second,
        ).messages,
        !drain(first).broken ==> drain(first + second).rest == drain(
            drain(first).rest + second,
        ).rest,
        !drain(first).broken ==> drain(first + second).broken == drain(
            drain(first).rest + second,
        ).broken,
    decreases first.len(),
{
    match decoded(first) {
        Decoded::Incomplete => {
            assert(drain(first).messages + drain(first + second).messages =~= drain(
                first + second,
            ).messages);
        },
        Decoded::Malformed => {
            lemma_decoded_stable(first, second);
        },
        Decoded::Message { value, consumed } => {
            lemma_decoded_stable(first, second);
            lemma_decoded_bounds(first);
            let tail = first.skip(consumed as int);
            assert((first + second).skip(consumed as int) =~= tail + second);
            lemma_drain_split(tail, second);
            if !drain(first).broken {
                assert(drain(first + second).messages =~= drain(first).messages + drain(
                    drain(first).rest + second,
                ).messages);
            }
        },
    }
}

/// However a stream is cut into chunks, reading each chunk as it arrives
/// yields the messages that reading the whole stream at once yields, in the
/// same order, and stops at a malformed frame exactly if that does. Unless
/// it stops, the same bytes are left over.
pub proof fn lemma_chunked_delivery(chunks: Seq<Seq<u8>>)
    ensures
        drain_chunks(chunks).messages == drain(joined(chunks)).messages,
        drain_chunks(chunks).broken == drain(joined(chunks)).broken,
        !drain_chunks(chunks).broken ==> drain_chunks(chunks).rest == drain(joined(chunks)).rest,
    decreases chunks.len(),
{
    if chunks.len() > 0 {
        lemma_chunked_delivery(chunks.drop_last());
        lemma_drain_split(joined(chunks.drop_last()), chunks.last());
    }
}

/// The chunks of one byte each make up the stream they were cut from.
pub proof fn lemma_bytewise_joined(bytes: Seq<u8>)
    ensures
        joined(bytewise(bytes)) == bytes,
    decreases bytes.len(),
{
    if bytes.len() > 0 {
        let front = bytes.drop_last();
        lemma_bytewise_joined(front);
        assert(bytewise(bytes).drop_last() =~= bytewise(front));
        assert(bytewise(bytes).last() =~= seq![bytes.last()]);
        assert(joined(bytewise(bytes)) =~= bytes);
    } else {
        assert(joined(bytewise(bytes)) =~= bytes);
    }
}

/// Feeding a stream one byte at a time yields the messages that feeding it
/// all at once yields, in the same order.
pub proof fn lemma_bytewise_delivery(bytes: Seq<u8>)
    ensures
        drain_chunks(bytewise(bytes)).messages == drain(bytes).messages,
        drain_chunks(bytewise(bytes)).broken == drain(bytes).broken,
{
    lemma_bytewise_joined(bytes);
    lemma_chunked_delivery(bytewise(bytes));
}

} // verus!
