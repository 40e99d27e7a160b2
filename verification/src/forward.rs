//! The outbound forwarder's verified half: building the record that is
//! handed to the producer client, and the delivery-confirmation policy.
//!
//! The producer client itself is an external collaborator: it is
//! constructed once at startup (construction is costly) and performs the
//! actual send. What is verified here is everything the send is given: the
//! mapped topic, the untouched payload bytes, a fresh 16-byte key for
//! downstream deduplication and partitioning, and the caller's timestamp.

use vstd::prelude::*;
use crate::router::TopicRouter;
use crate::router::route;
use crate::bridge::InboundMessage;

verus! {

/// Bound on waiting for a synchronous acknowledgment, in milliseconds.
pub const SYNC_ACK_TIMEOUT_MS: u64 = 1000;

/// How long a fire-and-forget record may sit undelivered before its
/// background report turns into a failure, in milliseconds.
pub const ASYNC_MESSAGE_TIMEOUT_MS: u64 = 5000;

/// How a delivery is confirmed: block for an acknowledgment with a bounded
/// timeout, or submit and let a background delivery report arrive (used
/// only for logging, never for flow control).
#[derive(Clone, Copy, PartialEq, Eq, Structural, Debug)]
pub enum AckPolicy {
    SyncAck { timeout_ms: u64 },
    FireAndForget,
}

impl AckPolicy {
    /// The synchronous policy with its default acknowledgment bound.
    pub fn sync_default() -> (r: AckPolicy)
        ensures
            r == (AckPolicy::SyncAck { timeout_ms: SYNC_ACK_TIMEOUT_MS }),
    {
        AckPolicy::SyncAck { timeout_ms: SYNC_ACK_TIMEOUT_MS }
    }

    /// The bound the producer is configured with: the acknowledgment
    /// timeout under the synchronous policy, the message timeout under
    /// fire-and-forget.
    pub fn timeout_ms(&self) -> (r: u64)
        ensures
            r == (match *self {
                AckPolicy::SyncAck { timeout_ms } => timeout_ms,
                AckPolicy::FireAndForget => ASYNC_MESSAGE_TIMEOUT_MS,
            }),
    {
        match self {
            AckPolicy::SyncAck { timeout_ms } => *timeout_ms,
            AckPolicy::FireAndForget => ASYNC_MESSAGE_TIMEOUT_MS,
        }
    }

    /// Whether a forward call under this policy blocks until the broker
    /// confirms or the bound runs out.
    pub fn blocks_for_ack(&self) -> (r: bool)
        ensures
            r == (self is SyncAck),
    {
        match self {
            AckPolicy::SyncAck { .. } => true,
            AckPolicy::FireAndForget => false,
        }
    }
}

/// What one delivery attempt came to. Every variant but `Delivered` is
/// recoverable by policy: the record is logged and dropped, never retried.
#[derive(Clone, Copy, PartialEq, Eq, Structural, Debug)]
pub enum ForwardOutcome {
    Delivered,
    AckTimedOut,
    BrokerRejected,
}

/// One record for the outbound producer. Ownership moves to the producer
/// on send; the record is never mutated afterwards.
pub struct OutboundRecord {
    pub topic: String,
    pub payload: Vec<u8>,
    pub key: Option<Vec<u8>>,
    pub timestamp: Option<i64>,
}

/// Relies on `uuid::Uuid::new_v4`: 16 random bytes with the version nibble
/// forced to 4 and the variant bits to `10`. Nothing more can be promised
/// of a random value.
#[verifier::external_body]
fn fresh_key_bytes() -> (r: Vec<u8>)
    ensures
        r@.len() == 16,
        r@[6] & 0xF0 == 0x40,
        r@[8] & 0xC0 == 0x80,
{
    uuid::Uuid::new_v4().as_bytes().to_vec()
}

/// An owned copy of a byte sequence, element for element.
pub(crate) fn copy_bytes(src: &Vec<u8>) -> (r: Vec<u8>)
    ensures
        r@ == src@,
{
    let n = src.len();
    let mut r: Vec<u8> = Vec::new();
    let mut i: usize = 0;
    while i < n
        invariant
            n == src@.len(),
            i <= n,
            r@ =~= src@.take(i as int),
        decreases n - i,
    {
        r.push(src[i]);
        i += 1;
    }
    proof {
        assert(src@.take(n as int) =~= src@);
    }
    r
}

/// Whether `r` is a fresh record carrying `topic` and `payload`: the
/// payload bytes identical, the key a fresh 16-byte identifier, the
/// timestamp the caller's.
pub open spec fn record_for(
    r: OutboundRecord,
    topic: Seq<char>,
    payload: Seq<u8>,
    timestamp: Option<i64>,
) -> bool {
    &&& r.topic@ == topic
    &&& r.payload@ == payload
    &&& (r.key matches Some(k) && k@.len() == 16)
    &&& r.timestamp == timestamp
}

/// Builds the record one forward call submits: the mapped topic, the
/// payload unchanged, a fresh unique key, and the caller's timestamp.
pub fn make_record(topic: String, payload: Vec<u8>, timestamp: Option<i64>) -> (r:
    OutboundRecord)
    ensures
        record_for(r, topic@, payload@, timestamp),
{
    OutboundRecord { topic, payload, key: Some(fresh_key_bytes()), timestamp }
}

/// Resolves one inbound message through the router and, when its topic is
/// mapped, builds the one record to submit for it. `None` exactly when the
/// topic is unmapped: the message is dropped, no record is built.
pub fn plan_forward(router: &TopicRouter, msg: &InboundMessage, timestamp: Option<i64>) -> (r:
    Option<OutboundRecord>)
    ensures
        match r {
            Some(rec) => route(router@, msg.topic@) == Some(rec.topic@) && record_for(
                rec,
                rec.topic@,
                msg.payload@,
                timestamp,
            ),
            None => route(router@, msg.topic@) is None,
        },
{
    match router.resolve(&msg.topic) {
        Some(out_topic) => Some(make_record(out_topic, copy_bytes(&msg.payload), timestamp)),
        None => None,
    }
}

} // verus!
