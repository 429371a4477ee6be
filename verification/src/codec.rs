//! Versioned, signed message envelope codec.
//!
//! Every message exchanged on the overlay is a `MessageEnvelope` serialized
//! with a fixed big-endian binary layout. Decoding is defensive: it rejects
//! truncated input, unsupported versions, unknown message kinds and length
//! fields that do not match the input, and it never reads past the declared
//! bounds. The contracts pin decoding down completely: a byte string is
//! accepted exactly when it is the encoding of a well-formed envelope, and
//! then the decoded envelope is that envelope.

use vstd::prelude::*;

verus! {

/// Protocol version this codec emits and accepts.
pub const PROTOCOL_VERSION: u8 = 1;

/// Byte length of the fixed envelope header that precedes the payload.
pub const ENVELOPE_HEADER_LEN: usize = 30;

/// The kind of a message carried by an envelope.
#[derive(Clone, Copy, PartialEq, Eq, Structural, Debug)]
pub enum MessageKind {
    TaskRequest,
    TaskResult,
    Heartbeat,
}

/// A signed, versioned wrapper around any message exchanged on the overlay.
pub struct MessageEnvelope {
    pub version: u8,
    pub kind: MessageKind,
    pub payload: Vec<u8>,
    pub signature: u64,
    pub publisher: u64,
    pub timestamp: u64,
}

/// Mathematical model of an envelope: the payload as a byte sequence.
#[verifier::ext_equal]
pub ghost struct EnvelopeView {
    pub version: u8,
    pub kind: MessageKind,
    pub payload: Seq<u8>,
    pub signature: u64,
    pub publisher: u64,
    pub timestamp: u64,
}

impl View for MessageEnvelope {
    type V = EnvelopeView;

    open spec fn view(&self) -> EnvelopeView {
        EnvelopeView {
            version: self.version,
            kind: self.kind,
            payload: self.payload@,
            signature: self.signature,
            publisher: self.publisher,
            timestamp: self.timestamp,
        }
    }
}

impl EnvelopeView {
    /// A well-formed envelope carries the supported version and a payload
    /// whose length fits the 32-bit length field of the wire format.
    pub open spec fn wf(self) -> bool {
        &&& self.version == PROTOCOL_VERSION
        &&& self.payload.len() <= u32::MAX
    }
}

/// Why a byte string was rejected by `decode`.
#[derive(Clone, Copy, PartialEq, Eq, Structural, Debug)]
pub enum DecodeError {
    /// Shorter than the fixed envelope header.
    Truncated,
    /// The version byte is not a version this node speaks.
    UnsupportedVersion,
    /// The kind byte does not name a known message kind.
    UnknownKind,
    /// The declared payload length does not match the input length.
    LengthMismatch,
}

/// The wire byte of a message kind.
pub open spec fn kind_byte(k: MessageKind) -> u8 {
    match k {
        MessageKind::TaskRequest => 0u8,
        MessageKind::TaskResult => 1u8,
        MessageKind::Heartbeat => 2u8,
    }
}

/// Big-endian bytes of a 64-bit integer.
pub open spec fn u64_be(x: u64) -> Seq<u8> {
    seq![
        ((x >> 56) & 0xff) as u8,
        ((x >> 48) & 0xff) as u8,
        ((x >> 40) & 0xff) as u8,
        ((x >> 32) & 0xff) as u8,
        ((x >> 24) & 0xff) as u8,
        ((x >> 16) & 0xff) as u8,
        ((x >> 8) & 0xff) as u8,
        (x & 0xff) as u8,
    ]
}

/// The 64-bit integer read back from 8 big-endian bytes.
pub open spec fn u64_of_be(s: Seq<u8>) -> u64
    recommends
        s.len() == 8,
{
    ((s[0] as u64) << 56) | ((s[1] as u64) << 48) | ((s[2] as u64) << 40) | ((s[3] as u64) << 32)
        | ((s[4] as u64) << 24) | ((s[5] as u64) << 16) | ((s[6] as u64) << 8) | (s[7] as u64)
}

/// Big-endian bytes of a 32-bit integer.
pub open spec fn u32_be(x: u32) -> Seq<u8> {
    seq![
        ((x >> 24) & 0xff) as u8,
        ((x >> 16) & 0xff) as u8,
        ((x >> 8) & 0xff) as u8,
        (x & 0xff) as u8,
    ]
}

/// The 32-bit integer read back from 4 big-endian bytes.
pub open spec fn u32_of_be(s: Seq<u8>) -> u32
    recommends
        s.len() == 4,
{
    ((s[0] as u32) << 24) | ((s[1] as u32) << 16) | ((s[2] as u32) << 8) | (s[3] as u32)
}

pub proof fn lemma_u64_be_round_trip(x: u64)
    ensures
        u64_of_be(u64_be(x)) == x,
{
    assert(((((x >> 56) & 0xff) as u8) as u64) << 56 | ((((x >> 48) & 0xff) as u8) as u64) << 48
        | ((((x >> 40) & 0xff) as u8) as u64) << 40 | ((((x >> 32) & 0xff) as u8) as u64) << 32
        | ((((x >> 24) & 0xff) as u8) as u64) << 24 | ((((x >> 16) & 0xff) as u8) as u64) << 16
        | ((((x >> 8) & 0xff) as u8) as u64) << 8 | (((x & 0xff) as u8) as u64) == x)
        by (bit_vector);
}

pub proof fn lemma_u64_be_inverse(s: Seq<u8>)
    requires
        s.len() == 8,
    ensures
        u64_be(u64_of_be(s)) == s,
{
    let b0 = s[0];
    let b1 = s[1];
    let b2 = s[2];
    let b3 = s[3];
    let b4 = s[4];
    let b5 = s[5];
    let b6 = s[6];
    let b7 = s[7];
    let x = u64_of_be(s);
    assert({
        let y = ((b0 as u64) << 56) | ((b1 as u64) << 48) | ((b2 as u64) << 40) | ((b3 as u64)
            << 32) | ((b4 as u64) << 24) | ((b5 as u64) << 16) | ((b6 as u64) << 8) | (b7 as u64);
        (((y >> 56) & 0xff) as u8) == b0 && (((y >> 48) & 0xff) as u8) == b1 && (((y >> 40)
            & 0xff) as u8) == b2 && (((y >> 32) & 0xff) as u8) == b3 && (((y >> 24) & 0xff) as u8)
            == b4 && (((y >> 16) & 0xff) as u8) == b5 && (((y >> 8) & 0xff) as u8) == b6 && ((y
            & 0xff) as u8) == b7
    }) by (bit_vector);
    assert(u64_be(x) =~= s);
}

pub proof fn lemma_u32_be_round_trip(x: u32)
    ensures
        u32_of_be(u32_be(x)) == x,
{
    assert(((((x >> 24) & 0xff) as u8) as u32) << 24 | ((((x >> 16) & 0xff) as u8) as u32) << 16
        | ((((x >> 8) & 0xff) as u8) as u32) << 8 | (((x & 0xff) as u8) as u32) == x)
        by (bit_vector);
}

pub proof fn lemma_u32_be_inverse(s: Seq<u8>)
    requires
        s.len() == 4,
    ensures
        u32_be(u32_of_be(s)) == s,
{
    let b0 = s[0];
    let b1 = s[1];
    let b2 = s[2];
    let b3 = s[3];
    let x = u32_of_be(s);
    assert({
        let y = ((b0 as u32) << 24) | ((b1 as u32) << 16) | ((b2 as u32) << 8) | (b3 as u32);
        (((y >> 24) & 0xff) as u8) == b0 && (((y >> 16) & 0xff) as u8) == b1 && (((y >> 8)
            & 0xff) as u8) == b2 && ((y & 0xff) as u8) == b3
    }) by (bit_vector);
    assert(u32_be(x) =~= s);
}

proof fn lemma_masked_byte(x: u64)
    ensures
        x & 0xff < 256,
{
    assert(x & 0xff < 256) by (bit_vector);
}

proof fn lemma_masked_byte_32(x: u32)
    ensures
        x & 0xff < 256,
{
    assert(x & 0xff < 256) by (bit_vector);
}

/// Appends the big-endian bytes of `x` to `buf`.
pub fn push_u64_be(buf: &mut Vec<u8>, x: u64)
    ensures
        final(buf)@ == old(buf)@ + u64_be(x),
{
    proof {
        lemma_masked_byte(x >> 56);
        lemma_masked_byte(x >> 48);
        lemma_masked_byte(x >> 40);
        lemma_masked_byte(x >> 32);
        lemma_masked_byte(x >> 24);
        lemma_masked_byte(x >> 16);
        lemma_masked_byte(x >> 8);
        lemma_masked_byte(x);
    }
    buf.push(((x >> 56) & 0xff) as u8);
    buf.push(((x >> 48) & 0xff) as u8);
    buf.push(((x >> 40) & 0xff) as u8);
    buf.push(((x >> 32) & 0xff) as u8);
    buf.push(((x >> 24) & 0xff) as u8);
    buf.push(((x >> 16) & 0xff) as u8);
    buf.push(((x >> 8) & 0xff) as u8);
    buf.push((x & 0xff) as u8);
    proof {
        assert(buf@ =~= old(buf)@ + u64_be(x));
    }
}

/// Appends the big-endian bytes of `x` to `buf`.
pub fn push_u32_be(buf: &mut Vec<u8>, x: u32)
    ensures
        final(buf)@ == old(buf)@ + u32_be(x),
{
    proof {
        lemma_masked_byte_32(x >> 24);
        lemma_masked_byte_32(x >> 16);
        lemma_masked_byte_32(x >> 8);
        lemma_masked_byte_32(x);
    }
    buf.push(((x >> 24) & 0xff) as u8);
    buf.push(((x >> 16) & 0xff) as u8);
    buf.push(((x >> 8) & 0xff) as u8);
    buf.push((x & 0xff) as u8);
    proof {
        assert(buf@ =~= old(buf)@ + u32_be(x));
    }
}

/// Reads a big-endian 64-bit integer at offset `i`.
pub fn read_u64_be(buf: &Vec<u8>, i: usize) -> (r: u64)
    requires
        i + 8 <= buf@.len(),
    ensures
        r == u64_of_be(buf@.subrange(i as int, i as int + 8)),
{
    let n: usize = buf.len();
    assert(i + 8 <= n);
    let r: u64 = ((buf[i] as u64) << 56) | ((buf[i + 1] as u64) << 48) | ((buf[i + 2] as u64)
        << 40) | ((buf[i + 3] as u64) << 32) | ((buf[i + 4] as u64) << 24) | ((buf[i + 5] as u64)
        << 16) | ((buf[i + 6] as u64) << 8) | (buf[i + 7] as u64);
    proof {
        let s = buf@.subrange(i as int, i as int + 8);
        assert(s[0] == buf@[i as int]);
        assert(s[1] == buf@[i as int + 1]);
        assert(s[2] == buf@[i as int + 2]);
        assert(s[3] == buf@[i as int + 3]);
        assert(s[4] == buf@[i as int + 4]);
        assert(s[5] == buf@[i as int + 5]);
        assert(s[6] == buf@[i as int + 6]);
        assert(s[7] == buf@[i as int + 7]);
    }
    r
}

/// Reads a big-endian 32-bit integer at offset `i`.
pub fn read_u32_be(buf: &Vec<u8>, i: usize) -> (r: u32)
    requires
        i + 4 <= buf@.len(),
    ensures
        r == u32_of_be(buf@.subrange(i as int, i as int + 4)),
{
    let n: usize = buf.len();
    assert(i + 4 <= n);
    let r: u32 = ((buf[i] as u32) << 24) | ((buf[i + 1] as u32) << 16) | ((buf[i + 2] as u32)
        << 8) | (buf[i + 3] as u32);
    proof {
        let s = buf@.subrange(i as int, i as int + 4);
        assert(s[0] == buf@[i as int]);
        assert(s[1] == buf@[i as int + 1]);
        assert(s[2] == buf@[i as int + 2]);
        assert(s[3] == buf@[i as int + 3]);
    }
    r
}

/// Copies `buf[start..end]` into a fresh vector.
pub fn copy_range(buf: &Vec<u8>, start: usize, end: usize) -> (r: Vec<u8>)
    requires
        start <= end,
        end <= buf@.len(),
    ensures
        r@ == buf@.subrange(start as int, end as int),
{
    let mut r: Vec<u8> = Vec::new();
    let mut j: usize = start;
    while j < end
        invariant
            start <= j <= end,
            end <= buf@.len(),
            r@ == buf@.subrange(start as int, j as int),
        decreases end - j,
    {
        r.push(buf[j]);
        j = j + 1;
        proof {
            assert(r@ =~= buf@.subrange(start as int, j as int));
        }
    }
    r
}

/// The wire bytes of an envelope: a fixed header followed by the payload.
pub open spec fn spec_encode(env: EnvelopeView) -> Seq<u8> {
    seq![env.version, kind_byte(env.kind)] + u64_be(env.publisher) + u64_be(env.timestamp)
        + u64_be(env.signature) + u32_be(env.payload.len() as u32) + env.payload
}

/// How each field of a well-formed envelope stands in its encoding.
pub proof fn lemma_encode_parts(env: EnvelopeView)
    requires
        env.wf(),
    ensures
        spec_encode(env).len() == ENVELOPE_HEADER_LEN + env.payload.len(),
        spec_encode(env)[0] == env.version,
        spec_encode(env)[1] == kind_byte(env.kind),
        spec_encode(env).subrange(2, 10) == u64_be(env.publisher),
        spec_encode(env).subrange(10, 18) == u64_be(env.timestamp),
        spec_encode(env).subrange(18, 26) == u64_be(env.signature),
        spec_encode(env).subrange(26, 30) == u32_be(env.payload.len() as u32),
        spec_encode(env).subrange(30, spec_encode(env).len() as int) == env.payload,
{
    let s = spec_encode(env);
    assert(s.subrange(2, 10) =~= u64_be(env.publisher));
    assert(s.subrange(10, 18) =~= u64_be(env.timestamp));
    assert(s.subrange(18, 26) =~= u64_be(env.signature));
    assert(s.subrange(26, 30) =~= u32_be(env.payload.len() as u32));
    assert(s.subrange(30, s.len() as int) =~= env.payload);
}

/// Two well-formed envelopes with the same encoding are the same envelope.
pub proof fn lemma_encode_injective(a: EnvelopeView, b: EnvelopeView)
    requires
        a.wf(),
        b.wf(),
        spec_encode(a) == spec_encode(b),
    ensures
        a == b,
{
    lemma_encode_parts(a);
    lemma_encode_parts(b);
    lemma_u64_be_round_trip(a.publisher);
    lemma_u64_be_round_trip(b.publisher);
    lemma_u64_be_round_trip(a.timestamp);
    lemma_u64_be_round_trip(b.timestamp);
    lemma_u64_be_round_trip(a.signature);
    lemma_u64_be_round_trip(b.signature);
    assert(kind_byte(a.kind) == kind_byte(b.kind));
    assert(a.kind == b.kind);
    assert(a =~= b);
}

/// The wire byte of a message kind.
pub fn kind_to_byte(k: MessageKind) -> (r: u8)
    ensures
        r == kind_byte(k),
{
    match k {
        MessageKind::TaskRequest => 0u8,
        MessageKind::TaskResult => 1u8,
        MessageKind::Heartbeat => 2u8,
    }
}

/// The message kind named by a wire byte, if any.
pub fn byte_to_kind(b: u8) -> (r: Option<MessageKind>)
    ensures
        r matches Some(k) ==> kind_byte(k) == b,
        r is None ==> forall|k: MessageKind| kind_byte(k) != b,
{
    if b == 0 {
        Some(MessageKind::TaskRequest)
    } else if b == 1 {
        Some(MessageKind::TaskResult)
    } else if b == 2 {
        Some(MessageKind::Heartbeat)
    } else {
        None
    }
}

/// Serializes a well-formed envelope into its deterministic wire bytes.
pub fn encode(env: &MessageEnvelope) -> (r: Vec<u8>)
    requires
        env@.wf(),
    ensures
        r@ == spec_encode(env@),
{
    let mut r: Vec<u8> = Vec::new();
    r.push(env.version);
    r.push(kind_to_byte(env.kind));
    push_u64_be(&mut r, env.publisher);
    push_u64_be(&mut r, env.timestamp);
    push_u64_be(&mut r, env.signature);
    let plen: usize = env.payload.len();
    push_u32_be(&mut r, plen as u32);
    let mut j: usize = 0;
    let ghost header = r@;
    while j < env.payload.len()
        invariant
            0 <= j <= env.payload@.len(),
            r@ == header + env.payload@.subrange(0, j as int),
        decreases env.payload@.len() - j,
    {
        r.push(env.payload[j]);
        j = j + 1;
        proof {
            assert(r@ =~= header + env.payload@.subrange(0, j as int));
        }
    }
    proof {
        assert(env.payload@.subrange(0, env.payload@.len() as int) =~= env.payload@);
        assert(r@ =~= spec_encode(env@));
    }
    r
}

/// Deserializes wire bytes into an envelope.
///
/// Accepts a byte string exactly when it is the encoding of a well-formed
/// envelope, and then returns that envelope; every malformed input is
/// rejected with the reason, without reading past the declared bounds.
pub fn decode(bytes: &Vec<u8>) -> (r: Result<MessageEnvelope, DecodeError>)
    ensures
        r matches Ok(env) ==> env@.wf() && bytes@ == spec_encode(env@),
        forall|v: EnvelopeView|
            v.wf() && bytes@ == spec_encode(v) ==> (r matches Ok(env) && env@ == v),
        r is Err ==> forall|v: EnvelopeView| v.wf() ==> bytes@ != spec_encode(v),
{
    let n: usize = bytes.len();
    if n < ENVELOPE_HEADER_LEN {
        proof {
            assert forall|v: EnvelopeView| v.wf() implies bytes@ != spec_encode(v) by {
                lemma_encode_parts(v);
            }
        }
        return Err(DecodeError::Truncated);
    }
    let version: u8 = bytes[0];
    if version != PROTOCOL_VERSION {
        proof {
            assert forall|v: EnvelopeView| v.wf() implies bytes@ != spec_encode(v) by {
                lemma_encode_parts(v);
            }
        }
        return Err(DecodeError::UnsupportedVersion);
    }
    let kind: MessageKind = match byte_to_kind(bytes[1]) {
        Some(k) => k,
        None => {
            proof {
                assert forall|v: EnvelopeView| v.wf() implies bytes@ != spec_encode(v) by {
                    lemma_encode_parts(v);
                }
            }
            return Err(DecodeError::UnknownKind);
        },
    };
    let publisher: u64 = read_u64_be(bytes, 2);
    let timestamp: u64 = read_u64_be(bytes, 10);
    let signature: u64 = read_u64_be(bytes, 18);
    let plen: u32 = read_u32_be(bytes, 26);
    if n - ENVELOPE_HEADER_LEN != plen as usize {
        proof {
            assert forall|v: EnvelopeView| v.wf() implies bytes@ != spec_encode(v) by {
                lemma_encode_parts(v);
                if bytes@ == spec_encode(v) {
                    lemma_u32_be_round_trip(v.payload.len() as u32);
                }
            }
        }
        return Err(DecodeError::LengthMismatch);
    }
    let payload: Vec<u8> = copy_range(bytes, ENVELOPE_HEADER_LEN, n);
    let env = MessageEnvelope { version, kind, payload, signature, publisher, timestamp };
    proof {
        lemma_encode_parts(env@);
        lemma_u64_be_inverse(bytes@.subrange(2, 10));
        lemma_u64_be_inverse(bytes@.subrange(10, 18));
        lemma_u64_be_inverse(bytes@.subrange(18, 26));
        lemma_u32_be_inverse(bytes@.subrange(26, 30));
        assert(u32_be(env@.payload.len() as u32) == bytes@.subrange(26, 30)) by {
            assert(env@.payload.len() == n - ENVELOPE_HEADER_LEN);
            assert(plen == u32_of_be(bytes@.subrange(26, 30)));
        }
        assert(bytes@ =~= spec_encode(env@));
        assert forall|v: EnvelopeView| v.wf() && bytes@ == spec_encode(v) implies env@ == v by {
            lemma_encode_injective(env@, v);
        }
    }
    Ok(env)
}

/// Byte length of the fixed task-request header that precedes the body.
pub const REQUEST_HEADER_LEN: usize = 36;

/// A decoded task announcement payload.
pub struct TaskRequest {
    /// Network-wide unique identifier of the task, used for deduplication.
    pub task_id: u64,
    /// Task-kind identifier, resolved to an executor by the registry.
    pub kind: u64,
    /// Timestamp after which the task is no longer worth executing.
    pub deadline: u64,
    /// Capability descriptor the executing node must satisfy.
    pub requirements: u64,
    /// Opaque task body handed to the executor.
    pub body: Vec<u8>,
}

/// Mathematical model of a task request: the body as a byte sequence.
#[verifier::ext_equal]
pub ghost struct TaskRequestView {
    pub task_id: u64,
    pub kind: u64,
    pub deadline: u64,
    pub requirements: u64,
    pub body: Seq<u8>,
}

impl View for TaskRequest {
    type V = TaskRequestView;

    open spec fn view(&self) -> TaskRequestView {
        TaskRequestView {
            task_id: self.task_id,
            kind: self.kind,
            deadline: self.deadline,
            requirements: self.requirements,
            body: self.body@,
        }
    }
}

impl TaskRequestView {
    /// A well-formed request's body length fits the 32-bit length field.
    pub open spec fn wf(self) -> bool {
        self.body.len() <= u32::MAX
    }
}

/// The wire bytes of a task request payload.
pub open spec fn spec_encode_request(req: TaskRequestView) -> Seq<u8> {
    u64_be(req.task_id) + u64_be(req.kind) + u64_be(req.deadline) + u64_be(req.requirements)
        + u32_be(req.body.len() as u32) + req.body
}

/// How each field of a well-formed task request stands in its encoding.
pub proof fn lemma_encode_request_parts(req: TaskRequestView)
    requires
        req.wf(),
    ensures
        spec_encode_request(req).len() == REQUEST_HEADER_LEN + req.body.len(),
        spec_encode_request(req).subrange(0, 8) == u64_be(req.task_id),
        spec_encode_request(req).subrange(8, 16) == u64_be(req.kind),
        spec_encode_request(req).subrange(16, 24) == u64_be(req.deadline),
        spec_encode_request(req).subrange(24, 32) == u64_be(req.requirements),
        spec_encode_request(req).subrange(32, 36) == u32_be(req.body.len() as u32),
        spec_encode_request(req).subrange(36, spec_encode_request(req).len() as int) == req.body,
{
    let s = spec_encode_request(req);
    assert(s.subrange(0, 8) =~= u64_be(req.task_id));
    assert(s.subrange(8, 16) =~= u64_be(req.kind));
    assert(s.subrange(16, 24) =~= u64_be(req.deadline));
    assert(s.subrange(24, 32) =~= u64_be(req.requirements));
    assert(s.subrange(32, 36) =~= u32_be(req.body.len() as u32));
    assert(s.subrange(36, s.len() as int) =~= req.body);
}

/// Two well-formed task requests with the same encoding are the same request.
pub proof fn lemma_encode_request_injective(a: TaskRequestView, b: TaskRequestView)
    requires
        a.wf(),
        b.wf(),
        spec_encode_request(a) == spec_encode_request(b),
    ensures
        a == b,
{
    lemma_encode_request_parts(a);
    lemma_encode_request_parts(b);
    lemma_u64_be_round_trip(a.task_id);
    lemma_u64_be_round_trip(b.task_id);
    lemma_u64_be_round_trip(a.kind);
    lemma_u64_be_round_trip(b.kind);
    lemma_u64_be_round_trip(a.deadline);
    lemma_u64_be_round_trip(b.deadline);
    lemma_u64_be_round_trip(a.requirements);
    lemma_u64_be_round_trip(b.requirements);
    assert(a =~= b);
}

/// Serializes a well-formed task request into its wire bytes.
pub fn encode_request(req: &TaskRequest) -> (r: Vec<u8>)
    requires
        req@.wf(),
    ensures
        r@ == spec_encode_request(req@),
{
    let mut r: Vec<u8> = Vec::new();
    push_u64_be(&mut r, req.task_id);
    push_u64_be(&mut r, req.kind);
    push_u64_be(&mut r, req.deadline);
    push_u64_be(&mut r, req.requirements);
    let blen: usize = req.body.len();
    push_u32_be(&mut r, blen as u32);
    let mut j: usize = 0;
    let ghost header = r@;
    while j < req.body.len()
        invariant
            0 <= j <= req.body@.len(),
            r@ == header + req.body@.subrange(0, j as int),
        decreases req.body@.len() - j,
    {
        r.push(req.body[j]);
        j = j + 1;
        proof {
            assert(r@ =~= header + req.body@.subrange(0, j as int));
        }
    }
    proof {
        assert(req.body@.subrange(0, req.body@.len() as int) =~= req.body@);
        assert(r@ =~= spec_encode_request(req@));
    }
    r
}

/// Deserializes a task request payload.
///
/// Accepts a byte string exactly when it is the encoding of a well-formed
/// task request, and then returns that request.
pub fn decode_request(bytes: &Vec<u8>) -> (r: Result<TaskRequest, DecodeError>)
    ensures
        r matches Ok(req) ==> req@.wf() && bytes@ == spec_encode_request(req@),
        forall|v: TaskRequestView|
            v.wf() && bytes@ == spec_encode_request(v) ==> (r matches Ok(req) && req@ == v),
        r is Err ==> forall|v: TaskRequestView| v.wf() ==> bytes@ != spec_encode_request(v),
{
    let n: usize = bytes.len();
    if n < REQUEST_HEADER_LEN {
        proof {
            assert forall|v: TaskRequestView| v.wf() implies bytes@ != spec_encode_request(v) by {
                lemma_encode_request_parts(v);
            }
        }
        return Err(DecodeError::Truncated);
    }
    let task_id: u64 = read_u64_be(bytes, 0);
    let kind: u64 = read_u64_be(bytes, 8);
    let deadline: u64 = read_u64_be(bytes, 16);
    let requirements: u64 = read_u64_be(bytes, 24);
    let blen: u32 = read_u32_be(bytes, 32);
    if n - REQUEST_HEADER_LEN != blen as usize {
        proof {
            assert forall|v: TaskRequestView| v.wf() implies bytes@ != spec_encode_request(v) by {
                lemma_encode_request_parts(v);
                if bytes@ == spec_encode_request(v) {
                    lemma_u32_be_round_trip(v.body.len() as u32);
                }
            }
        }
        return Err(DecodeError::LengthMismatch);
    }
    let body: Vec<u8> = copy_range(bytes, REQUEST_HEADER_LEN, n);
    let req = TaskRequest { task_id, kind, deadline, requirements, body };
    proof {
        lemma_encode_request_parts(req@);
        lemma_u64_be_inverse(bytes@.subrange(0, 8));
        lemma_u64_be_inverse(bytes@.subrange(8, 16));
        lemma_u64_be_inverse(bytes@.subrange(16, 24));
        lemma_u64_be_inverse(bytes@.subrange(24, 32));
        lemma_u32_be_inverse(bytes@.subrange(32, 36));
        assert(u32_be(req@.body.len() as u32) == bytes@.subrange(32, 36)) by {
            assert(req@.body.len() == n - REQUEST_HEADER_LEN);
            assert(blen == u32_of_be(bytes@.subrange(32, 36)));
        }
        assert(bytes@ =~= spec_encode_request(req@));
        assert forall|v: TaskRequestView|
            v.wf() && bytes@ == spec_encode_request(v) implies req@ == v by {
            lemma_encode_request_injective(req@, v);
        }
    }
    Ok(req)
}

/// Why a task execution did not produce a successful result.
#[derive(Clone, Copy, PartialEq, Eq, Structural, Debug)]
pub enum FailureReason {
    /// The deadline or the maximum execution duration elapsed first.
    Timeout,
    /// The node was shut down before the executor finished.
    Cancelled,
    /// No executor is registered for the task kind.
    UnsupportedKind,
    /// The executor itself reported a failure.
    Executor,
}

/// Outcome of a task execution, carried inside a published result.
#[derive(Clone, Copy, PartialEq, Eq, Structural, Debug)]
pub enum TaskStatus {
    Success,
    Failure(FailureReason),
}

/// Byte length of the fixed task-result header that precedes the body.
pub const RESULT_HEADER_LEN: usize = 29;

/// A task result, built by the coordinator on task completion and published
/// on the results topic; immutable once published.
pub struct TaskResult {
    pub task_id: u64,
    /// Peer identifier of the node that executed the task.
    pub producer: u64,
    pub status: TaskStatus,
    /// Opaque result body; empty for failures.
    pub body: Vec<u8>,
    /// Authentication tag over the result fields.
    pub signature: u64,
}

/// Mathematical model of a task result: the body as a byte sequence.
#[verifier::ext_equal]
pub ghost struct TaskResultView {
    pub task_id: u64,
    pub producer: u64,
    pub status: TaskStatus,
    pub body: Seq<u8>,
    pub signature: u64,
}

impl View for TaskResult {
    type V = TaskResultView;

    open spec fn view(&self) -> TaskResultView {
        TaskResultView {
            task_id: self.task_id,
            producer: self.producer,
            status: self.status,
            body: self.body@,
            signature: self.signature,
        }
    }
}

impl TaskResultView {
    /// A well-formed result's body length fits the 32-bit length field.
    pub open spec fn wf(self) -> bool {
        self.body.len() <= u32::MAX
    }
}

/// The wire byte of a task status.
pub open spec fn status_byte(s: TaskStatus) -> u8 {
    match s {
        TaskStatus::Success => 0u8,
        TaskStatus::Failure(FailureReason::Timeout) => 1u8,
        TaskStatus::Failure(FailureReason::Cancelled) => 2u8,
        TaskStatus::Failure(FailureReason::UnsupportedKind) => 3u8,
        TaskStatus::Failure(FailureReason::Executor) => 4u8,
    }
}

/// The wire byte of a task status.
pub fn status_to_byte(s: TaskStatus) -> (r: u8)
    ensures
        r == status_byte(s),
{
    match s {
        TaskStatus::Success => 0u8,
        TaskStatus::Failure(FailureReason::Timeout) => 1u8,
        TaskStatus::Failure(FailureReason::Cancelled) => 2u8,
        TaskStatus::Failure(FailureReason::UnsupportedKind) => 3u8,
        TaskStatus::Failure(FailureReason::Executor) => 4u8,
    }
}

/// The wire bytes of a task result payload.
pub open spec fn spec_encode_result(res: TaskResultView) -> Seq<u8> {
    u64_be(res.task_id) + u64_be(res.producer) + u64_be(res.signature)
        + seq![status_byte(res.status)] + u32_be(res.body.len() as u32) + res.body
}

/// Serializes a well-formed task result into its wire bytes.
pub fn encode_result(res: &TaskResult) -> (r: Vec<u8>)
    requires
        res@.wf(),
    ensures
        r@ == spec_encode_result(res@),
{
    let mut r: Vec<u8> = Vec::new();
    push_u64_be(&mut r, res.task_id);
    push_u64_be(&mut r, res.producer);
    push_u64_be(&mut r, res.signature);
    r.push(status_to_byte(res.status));
    let blen: usize = res.body.len();
    push_u32_be(&mut r, blen as u32);
    let mut j: usize = 0;
    let ghost header = r@;
    while j < res.body.len()
        invariant
            0 <= j <= res.body@.len(),
            r@ == header + res.body@.subrange(0, j as int),
        decreases res.body@.len() - j,
    {
        r.push(res.body[j]);
        j = j + 1;
        proof {
            assert(r@ =~= header + res.body@.subrange(0, j as int));
        }
    }
    proof {
        assert(res.body@.subrange(0, res.body@.len() as int) =~= res.body@);
        assert(r@ =~= spec_encode_result(res@));
    }
    r
}

/// Whether a byte string is the encoding of some well-formed envelope.
pub open spec fn spec_decodable(bytes: Seq<u8>) -> bool {
    exists|v: EnvelopeView| v.wf() && bytes == spec_encode(v)
}

/// The unique well-formed envelope a byte string encodes.
pub open spec fn spec_envelope_of(bytes: Seq<u8>) -> EnvelopeView
    recommends
        spec_decodable(bytes),
{
    choose|v: EnvelopeView| v.wf() && bytes == spec_encode(v)
}

/// Whether a byte string is the encoding of some well-formed task request.
pub open spec fn spec_request_decodable(bytes: Seq<u8>) -> bool {
    exists|v: TaskRequestView| v.wf() && bytes == spec_encode_request(v)
}

/// The unique well-formed task request a byte string encodes.
pub open spec fn spec_request_of(bytes: Seq<u8>) -> TaskRequestView
    recommends
        spec_request_decodable(bytes),
{
    choose|v: TaskRequestView| v.wf() && bytes == spec_encode_request(v)
}

} // verus!
