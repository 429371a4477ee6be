//! Node identity and envelope authentication.
//!
//! A node owns one identity for the process lifetime: a secret seed and the
//! peer identifier derived from it. Every envelope a node publishes carries
//! an authentication tag computed over the publisher identifier, the header
//! fields and the payload; a receiver recomputes the tag from the envelope's
//! own `publisher` field and discards the envelope when it does not match.
//! The tag is a deterministic mixing function, the model of the signature of
//! the wire protocol: it binds the envelope contents to the claimed
//! publisher, which is what the routing logic relies on.

use vstd::prelude::*;

use crate::codec::kind_byte;
use crate::codec::kind_to_byte;
use crate::codec::push_u64_be;
use crate::codec::u64_be;
use crate::codec::EnvelopeView;
use crate::codec::status_byte;
use crate::codec::MessageEnvelope;
use crate::codec::MessageKind;
use crate::codec::TaskStatus;
use crate::codec::PROTOCOL_VERSION;

verus! {

/// Initial accumulator of the tag mixing fold.
pub const TAG_SEED: u64 = 0x6a09e667f3bcc908;

/// One step of the tag fold: rotate the accumulator and mix in a byte.
pub open spec fn tag_step(acc: u64, b: u8) -> u64 {
    ((acc << 5) | (acc >> 59)) ^ (b as u64) ^ 0x9e3779b97f4a7c15
}

/// The tag fold over a byte sequence, front to back.
pub open spec fn tag_fold(acc: u64, s: Seq<u8>) -> u64
    decreases s.len(),
{
    if s.len() == 0 {
        acc
    } else {
        tag_fold(tag_step(acc, s[0]), s.subrange(1, s.len() as int))
    }
}

/// The authentication tag of an envelope's contents: a fold over the
/// publisher identifier, the header fields and the payload.
pub open spec fn auth_tag(publisher: u64, version: u8, kind: MessageKind, timestamp: u64, payload: Seq<u8>) -> u64 {
    tag_fold(TAG_SEED, u64_be(publisher) + seq![version, kind_byte(kind)] + u64_be(timestamp) + payload)
}

impl EnvelopeView {
    /// The envelope's tag matches its contents and claimed publisher.
    pub open spec fn signed(self) -> bool {
        self.signature == auth_tag(self.publisher, self.version, self.kind, self.timestamp, self.payload)
    }
}

/// Folds the tag function over `bytes[i..]`, starting from `acc`.
fn tag_fold_exec(acc: u64, bytes: &Vec<u8>) -> (r: u64)
    ensures
        r == tag_fold(acc, bytes@),
{
    let mut a: u64 = acc;
    let mut j: usize = 0;
    proof {
        assert(bytes@.subrange(0, bytes@.len() as int) =~= bytes@);
    }
    while j < bytes.len()
        invariant
            0 <= j <= bytes@.len(),
            tag_fold(a, bytes@.subrange(j as int, bytes@.len() as int)) == tag_fold(acc, bytes@),
        decreases bytes@.len() - j,
    {
        proof {
            let rest = bytes@.subrange(j as int, bytes@.len() as int);
            assert(rest[0] == bytes@[j as int]);
            assert(rest.subrange(1, rest.len() as int) =~= bytes@.subrange(
                j as int + 1,
                bytes@.len() as int,
            ));
        }
        let b: u8 = bytes[j];
        a = ((a << 5u64) | (a >> 59u64)) ^ (b as u64) ^ 0x9e3779b97f4a7c15;
        j = j + 1;
    }
    proof {
        assert(bytes@.subrange(bytes@.len() as int, bytes@.len() as int) =~= Seq::<u8>::empty());
    }
    a
}

/// Computes the authentication tag of an envelope's contents.
pub fn compute_tag(publisher: u64, version: u8, kind: MessageKind, timestamp: u64, payload: &Vec<u8>) -> (r: u64)
    ensures
        r == auth_tag(publisher, version, kind, timestamp, payload@),
{
    let mut buf: Vec<u8> = Vec::new();
    push_u64_be(&mut buf, publisher);
    buf.push(version);
    buf.push(kind_to_byte(kind));
    push_u64_be(&mut buf, timestamp);
    let mut j: usize = 0;
    let ghost header = buf@;
    while j < payload.len()
        invariant
            0 <= j <= payload@.len(),
            buf@ == header + payload@.subrange(0, j as int),
        decreases payload@.len() - j,
    {
        buf.push(payload[j]);
        j = j + 1;
        proof {
            assert(buf@ =~= header + payload@.subrange(0, j as int));
        }
    }
    proof {
        assert(payload@.subrange(0, payload@.len() as int) =~= payload@);
        assert(buf@ =~= u64_be(publisher) + seq![version, kind_byte(kind)] + u64_be(timestamp)
            + payload@);
    }
    tag_fold_exec(TAG_SEED, &buf)
}

/// The cryptographic identity of this node: a secret seed and the peer
/// identifier derived from it. Immutable for the process lifetime.
pub struct NodeIdentity {
    /// Key material supplied at startup; never leaves the node.
    pub secret_seed: u64,
    /// The identifier under which this node publishes.
    pub peer_id: u64,
}

/// The peer identifier derived from a secret seed.
pub open spec fn derive_peer_id(seed: u64) -> u64 {
    tag_fold(TAG_SEED, u64_be(seed))
}

impl NodeIdentity {
    /// A valid identity's peer identifier is derived from its seed.
    pub open spec fn wf(self) -> bool {
        self.peer_id == derive_peer_id(self.secret_seed)
    }

    /// Creates the node identity from key material supplied at startup.
    pub fn from_seed(seed: u64) -> (r: NodeIdentity)
        ensures
            r.wf(),
            r.peer_id == derive_peer_id(seed),
    {
        let mut buf: Vec<u8> = Vec::new();
        push_u64_be(&mut buf, seed);
        let peer_id: u64 = tag_fold_exec(TAG_SEED, &buf);
        NodeIdentity { secret_seed: seed, peer_id }
    }

    /// Wraps a payload in a signed envelope published under this identity.
    pub fn seal(&self, kind: MessageKind, payload: Vec<u8>, timestamp: u64) -> (r: MessageEnvelope)
        requires
            payload@.len() <= u32::MAX,
        ensures
            r@.wf(),
            r@.signed(),
            r@.version == PROTOCOL_VERSION,
            r@.kind == kind,
            r@.payload == payload@,
            r@.publisher == self.peer_id,
            r@.timestamp == timestamp,
    {
        let signature: u64 = compute_tag(self.peer_id, PROTOCOL_VERSION, kind, timestamp, &payload);
        MessageEnvelope {
            version: PROTOCOL_VERSION,
            kind,
            payload,
            signature,
            publisher: self.peer_id,
            timestamp,
        }
    }
}

/// The authentication tag of a task result's fields, carried inside the
/// result so a requester can bind the result to its producer.
pub open spec fn result_tag(task_id: u64, producer: u64, status: TaskStatus, body: Seq<u8>) -> u64 {
    tag_fold(TAG_SEED, u64_be(task_id) + u64_be(producer) + seq![status_byte(status)] + body)
}

/// Computes the authentication tag of a task result's fields.
pub fn compute_result_tag(task_id: u64, producer: u64, status: TaskStatus, body: &Vec<u8>) -> (r: u64)
    ensures
        r == result_tag(task_id, producer, status, body@),
{
    let mut buf: Vec<u8> = Vec::new();
    push_u64_be(&mut buf, task_id);
    push_u64_be(&mut buf, producer);
    buf.push(crate::codec::status_to_byte(status));
    let mut j: usize = 0;
    let ghost header = buf@;
    while j < body.len()
        invariant
            0 <= j <= body@.len(),
            buf@ == header + body@.subrange(0, j as int),
        decreases body@.len() - j,
    {
        buf.push(body[j]);
        j = j + 1;
        proof {
            assert(buf@ =~= header + body@.subrange(0, j as int));
        }
    }
    proof {
        assert(body@.subrange(0, body@.len() as int) =~= body@);
        assert(buf@ =~= u64_be(task_id) + u64_be(producer) + seq![status_byte(status)] + body@);
    }
    tag_fold_exec(TAG_SEED, &buf)
}

/// Checks an envelope's authentication tag against its contents and claimed
/// publisher; an envelope that fails this check is never routed.
pub fn verify(env: &MessageEnvelope) -> (r: bool)
    ensures
        r == env@.signed(),
{
    let expected: u64 = compute_tag(env.publisher, env.version, env.kind, env.timestamp, &env.payload);
    expected == env.signature
}

} // verus!
