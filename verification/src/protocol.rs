//! Multi-plane protocol messages and the binary high-rate value frame codec.
//!
//! A value frame is an 18-byte header followed by 12 bytes per sample, every
//! integer little-endian:
//! `"GVF1"`, protocol version (u16), sequence (u32), generation (u32),
//! sample count (u32), then per sample its slot (u32) and its value (the
//! IEEE-754 bits of a finite double, u64).

use vstd::prelude::*;
use crate::model::finite_double_bits;

verus! {

/// The protocol version that frames carry.
pub const PROTOCOL_VERSION: u16 = 1;

/// Bytes before the first sample.
pub const VALUE_FRAME_HEADER_BYTES: usize = 18;

/// Bytes per sample.
pub const VALUE_SAMPLE_BYTES: usize = 12;

#[derive(Clone, Copy, Debug, PartialEq, Eq, Structural)]
pub enum ProtocolPlane {
    Control,
    Authoring,
    Observation,
    Values,
}

#[derive(Clone, Debug, PartialEq, Eq)]
pub struct ClientId(pub String);

#[derive(Clone, Debug, PartialEq, Eq)]
pub struct ViewId(pub String);

#[derive(Clone, Debug, PartialEq, Eq)]
pub struct ScopeId(pub String);

#[derive(Clone, Debug, PartialEq, Eq)]
pub struct PreviewKey {
    pub scope: ScopeId,
    pub entity: String,
    pub field: String,
}

#[derive(Clone, Debug, PartialEq, Eq)]
pub enum ControlRequest {
    Ping { nonce: u32 },
    LoadProject { path: String },
    SaveProject { path: Option<String> },
}

#[derive(Clone, Debug, PartialEq, Eq)]
pub enum ControlResponse {
    Pong { nonce: u32 },
    Accepted { request_id: u32 },
    Rejected { code: String, message: String },
}

impl ControlRequest {
    /// The direct answer to a liveness probe; `None` for requests that need
    /// the application.
    pub fn ping_response(&self) -> (response: Option<ControlResponse>)
        ensures
            match self {
                ControlRequest::Ping { nonce } => response == Some(ControlResponse::Pong { nonce: *nonce }),
                _ => response is None,
            },
    {
        match self {
            ControlRequest::Ping { nonce } => Some(ControlResponse::Pong { nonce: *nonce }),
            _ => None,
        }
    }
}

#[derive(Clone, Debug, PartialEq, Eq)]
pub struct AuthoringChange {
    pub entity: String,
    pub operation: String,
}

#[derive(Clone, Debug, PartialEq, Eq)]
pub struct AuthoringEvent {
    pub revision: u32,
    pub changes: Vec<AuthoringChange>,
}

#[derive(Clone, Debug, PartialEq, Eq)]
pub struct ObservationInterest {
    pub client: ClientId,
    pub view: ViewId,
    pub scopes: Vec<ScopeId>,
}

#[derive(Clone, Debug, PartialEq, Eq)]
pub struct CatalogEntry {
    pub id: String,
    pub label: String,
    pub kind: String,
}

#[derive(Clone, Debug, PartialEq, Eq)]
pub struct CatalogSnapshot {
    pub revision: u32,
    pub entries: Vec<CatalogEntry>,
}

/// One sampled value: a slot and the bits of a double.
#[derive(Clone, Copy, Debug, PartialEq, Eq, Structural)]
pub struct ValueSample {
    pub slot: u32,
    pub bits: u64,
}

#[derive(Clone, Debug, PartialEq, Eq)]
pub struct ValueFrame {
    pub sequence: u32,
    pub generation: u32,
    pub samples: Vec<ValueSample>,
}

#[derive(Clone, Copy, Debug, PartialEq, Eq, Structural)]
pub enum ValueFrameError {
    Truncated,
    Magic,
    Version(u16),
    TooManySamples,
    SampleLimit { count: usize, maximum: usize },
    NonFiniteValue,
}

pub open spec fn le_u16(x: u16) -> Seq<u8> {
    seq![(x & 0xff) as u8, ((x >> 8u16) & 0xff) as u8]
}

pub open spec fn le_u32(x: u32) -> Seq<u8> {
    seq![
        (x & 0xff) as u8,
        ((x >> 8u32) & 0xff) as u8,
        ((x >> 16u32) & 0xff) as u8,
        ((x >> 24u32) & 0xff) as u8,
    ]
}

pub open spec fn le_u64(x: u64) -> Seq<u8> {
    seq![
        (x & 0xff) as u8,
        ((x >> 8u64) & 0xff) as u8,
        ((x >> 16u64) & 0xff) as u8,
        ((x >> 24u64) & 0xff) as u8,
        ((x >> 32u64) & 0xff) as u8,
        ((x >> 40u64) & 0xff) as u8,
        ((x >> 48u64) & 0xff) as u8,
        ((x >> 56u64) & 0xff) as u8,
    ]
}

/// The frame magic `GVF1`.
pub open spec fn frame_magic() -> Seq<u8> {
    seq![0x47u8, 0x56u8, 0x46u8, 0x31u8]
}

pub open spec fn sample_bytes(sample: ValueSample) -> Seq<u8> {
    le_u32(sample.slot) + le_u64(sample.bits)
}

pub open spec fn samples_bytes(samples: Seq<ValueSample>) -> Seq<u8>
    decreases samples.len(),
{
    if samples.len() == 0 {
        Seq::empty()
    } else {
        samples_bytes(samples.drop_last()) + sample_bytes(samples.last())
    }
}

/// The encoding of a frame with `samples` (fewer than 2^32 of them).
pub open spec fn frame_bytes(sequence: u32, generation: u32, samples: Seq<ValueSample>) -> Seq<u8> {
    frame_magic() + le_u16(1) + le_u32(sequence) + le_u32(generation) + le_u32(samples.len() as u32)
        + samples_bytes(samples)
}

pub open spec fn all_finite(samples: Seq<ValueSample>) -> bool {
    forall|i: int| 0 <= i < samples.len() ==> finite_double_bits(#[trigger] samples[i].bits)
}

proof fn lemma_samples_bytes_len(samples: Seq<ValueSample>)
    ensures
        samples_bytes(samples).len() == 12 * samples.len(),
    decreases samples.len(),
{
    if samples.len() > 0 {
        lemma_samples_bytes_len(samples.drop_last());
    }
}

fn push_u16_le(out: &mut Vec<u8>, x: u16)
    ensures
        final(out)@ == old(out)@ + le_u16(x),
{
    out.push((x & 0xff) as u8);
    out.push(((x >> 8u16) & 0xff) as u8);
    assert(out@ =~= old(out)@ + le_u16(x));
}

fn push_u32_le(out: &mut Vec<u8>, x: u32)
    ensures
        final(out)@ == old(out)@ + le_u32(x),
{
    out.push((x & 0xff) as u8);
    out.push(((x >> 8u32) & 0xff) as u8);
    out.push(((x >> 16u32) & 0xff) as u8);
    out.push(((x >> 24u32) & 0xff) as u8);
    assert(out@ =~= old(out)@ + le_u32(x));
}

fn push_u64_le(out: &mut Vec<u8>, x: u64)
    ensures
        final(out)@ == old(out)@ + le_u64(x),
{
    out.push((x & 0xff) as u8);
    out.push(((x >> 8u64) & 0xff) as u8);
    out.push(((x >> 16u64) & 0xff) as u8);
    out.push(((x >> 24u64) & 0xff) as u8);
    out.push(((x >> 32u64) & 0xff) as u8);
    out.push(((x >> 40u64) & 0xff) as u8);
    out.push(((x >> 48u64) & 0xff) as u8);
    out.push(((x >> 56u64) & 0xff) as u8);
    assert(out@ =~= old(out)@ + le_u64(x));
}

fn read_u16_le(bytes: &[u8], at: usize) -> (x: u16)
    requires
        at + 2 <= bytes@.len(),
    ensures
        le_u16(x) == bytes@.subrange(at as int, at + 2),
{
    let b0 = bytes[at];
    let b1 = bytes[at + 1];
    let x = (b0 as u16) | ((b1 as u16) << 8u16);
    assert((x & 0xff) as u8 == b0 && ((x >> 8u16) & 0xff) as u8 == b1) by (bit_vector)
        requires
            x == (b0 as u16) | ((b1 as u16) << 8u16),
    ;
    assert(le_u16(x) =~= bytes@.subrange(at as int, at + 2));
    x
}

fn read_u32_le(bytes: &[u8], at: usize) -> (x: u32)
    requires
        at + 4 <= bytes@.len(),
    ensures
        le_u32(x) == bytes@.subrange(at as int, at + 4),
{
    let b0 = bytes[at];
    let b1 = bytes[at + 1];
    let b2 = bytes[at + 2];
    let b3 = bytes[at + 3];
    let x = (b0 as u32) | ((b1 as u32) << 8u32) | ((b2 as u32) << 16u32) | ((b3 as u32) << 24u32);
    assert((x & 0xff) as u8 == b0 && ((x >> 8u32) & 0xff) as u8 == b1 && ((x >> 16u32) & 0xff) as u8 == b2
        && ((x >> 24u32) & 0xff) as u8 == b3) by (bit_vector)
        requires
            x == (b0 as u32) | ((b1 as u32) << 8u32) | ((b2 as u32) << 16u32) | ((b3 as u32) << 24u32),
    ;
    assert(le_u32(x) =~= bytes@.subrange(at as int, at + 4));
    x
}

fn read_u64_le(bytes: &[u8], at: usize) -> (x: u64)
    requires
        at + 8 <= bytes@.len(),
    ensures
        le_u64(x) == bytes@.subrange(at as int, at + 8),
{
    let b0 = bytes[at];
    let b1 = bytes[at + 1];
    let b2 = bytes[at + 2];
    let b3 = bytes[at + 3];
    let b4 = bytes[at + 4];
    let b5 = bytes[at + 5];
    let b6 = bytes[at + 6];
    let b7 = bytes[at + 7];
    let low = (b0 as u64) | ((b1 as u64) << 8u64) | ((b2 as u64) << 16u64) | ((b3 as u64) << 24u64);
    let high = ((b4 as u64) << 32u64) | ((b5 as u64) << 40u64) | ((b6 as u64) << 48u64) | ((b7 as u64) << 56u64);
    let x = low | high;
    assert((x & 0xff) as u8 == b0 && ((x >> 8u64) & 0xff) as u8 == b1 && ((x >> 16u64) & 0xff) as u8 == b2
        && ((x >> 24u64) & 0xff) as u8 == b3) by (bit_vector)
        requires
            low == (b0 as u64) | ((b1 as u64) << 8u64) | ((b2 as u64) << 16u64) | ((b3 as u64) << 24u64),
            high == ((b4 as u64) << 32u64) | ((b5 as u64) << 40u64) | ((b6 as u64) << 48u64) | ((b7 as u64)
                << 56u64),
            x == low | high,
    ;
    assert(((x >> 32u64) & 0xff) as u8 == b4 && ((x >> 40u64) & 0xff) as u8 == b5 && ((x >> 48u64) & 0xff)
        as u8 == b6 && ((x >> 56u64) & 0xff) as u8 == b7) by (bit_vector)
        requires
            low == (b0 as u64) | ((b1 as u64) << 8u64) | ((b2 as u64) << 16u64) | ((b3 as u64) << 24u64),
            high == ((b4 as u64) << 32u64) | ((b5 as u64) << 40u64) | ((b6 as u64) << 48u64) | ((b7 as u64)
                << 56u64),
            x == low | high,
    ;
    assert(le_u64(x) =~= bytes@.subrange(at as int, at + 8));
    x
}

/// Two values whose little-endian bytes agree are equal.
proof fn lemma_le_u32_injective(a: u32, b: u32)
    requires
        le_u32(a) == le_u32(b),
    ensures
        a == b,
{
    assert(le_u32(a)[0] == le_u32(b)[0] && le_u32(a)[1] == le_u32(b)[1] && le_u32(a)[2] == le_u32(b)[2]
        && le_u32(a)[3] == le_u32(b)[3]);
    assert(a == b) by (bit_vector)
        requires
            (a & 0xff) as u8 == (b & 0xff) as u8,
            ((a >> 8u32) & 0xff) as u8 == ((b >> 8u32) & 0xff) as u8,
            ((a >> 16u32) & 0xff) as u8 == ((b >> 16u32) & 0xff) as u8,
            ((a >> 24u32) & 0xff) as u8 == ((b >> 24u32) & 0xff) as u8,
    ;
}

proof fn lemma_le_u64_injective(a: u64, b: u64)
    requires
        le_u64(a) == le_u64(b),
    ensures
        a == b,
{
    assert(le_u64(a)[0] == le_u64(b)[0] && le_u64(a)[1] == le_u64(b)[1] && le_u64(a)[2] == le_u64(b)[2]
        && le_u64(a)[3] == le_u64(b)[3] && le_u64(a)[4] == le_u64(b)[4] && le_u64(a)[5] == le_u64(b)[5]
        && le_u64(a)[6] == le_u64(b)[6] && le_u64(a)[7] == le_u64(b)[7]);
    assert(a == b) by (bit_vector)
        requires
            (a & 0xff) as u8 == (b & 0xff) as u8,
            ((a >> 8u64) & 0xff) as u8 == ((b >> 8u64) & 0xff) as u8,
            ((a >> 16u64) & 0xff) as u8 == ((b >> 16u64) & 0xff) as u8,
            ((a >> 24u64) & 0xff) as u8 == ((b >> 24u64) & 0xff) as u8,
            ((a >> 32u64) & 0xff) as u8 == ((b >> 32u64) & 0xff) as u8,
            ((a >> 40u64) & 0xff) as u8 == ((b >> 40u64) & 0xff) as u8,
            ((a >> 48u64) & 0xff) as u8 == ((b >> 48u64) & 0xff) as u8,
            ((a >> 56u64) & 0xff) as u8 == ((b >> 56u64) & 0xff) as u8,
    ;
}

proof fn lemma_le_u16_injective(a: u16, b: u16)
    requires
        le_u16(a) == le_u16(b),
    ensures
        a == b,
{
    assert(le_u16(a)[0] == le_u16(b)[0] && le_u16(a)[1] == le_u16(b)[1]);
    assert(a == b) by (bit_vector)
        requires
            (a & 0xff) as u8 == (b & 0xff) as u8,
            ((a >> 8u16) & 0xff) as u8 == ((b >> 8u16) & 0xff) as u8,
    ;
}

impl ValueFrame {
    /// Encodes the frame. Refuses more than `u32::MAX` samples and any
    /// non-finite value.
    pub fn encode(&self) -> (result: Result<Vec<u8>, ValueFrameError>)
        ensures
            self.samples@.len() > u32::MAX ==> result == Err::<Vec<u8>, ValueFrameError>(
                ValueFrameError::TooManySamples,
            ),
            self.samples@.len() <= u32::MAX && !all_finite(self.samples@) ==> result == Err::<
                Vec<u8>,
                ValueFrameError,
            >(ValueFrameError::NonFiniteValue),
            self.samples@.len() <= u32::MAX && all_finite(self.samples@) ==> (result is Ok),
            match result {
                Ok(bytes) => bytes@ == frame_bytes(self.sequence, self.generation, self.samples@),
                Err(_) => true,
            },
    {
        if self.samples.len() > 0xffff_ffffusize {
            return Err(ValueFrameError::TooManySamples);
        }
        let sample_count = self.samples.len() as u32;
        let mut bytes: Vec<u8> = Vec::new();
        bytes.push(0x47u8);
        bytes.push(0x56u8);
        bytes.push(0x46u8);
        bytes.push(0x31u8);
        push_u16_le(&mut bytes, PROTOCOL_VERSION);
        push_u32_le(&mut bytes, self.sequence);
        push_u32_le(&mut bytes, self.generation);
        push_u32_le(&mut bytes, sample_count);
        let ghost header = bytes@;
        assert(header =~= frame_magic() + le_u16(1) + le_u32(self.sequence) + le_u32(self.generation) + le_u32(
            sample_count,
        ));
        let mut i: usize = 0;
        while i < self.samples.len()
            invariant
                i <= self.samples@.len(),
                self.samples@.len() <= u32::MAX,
                bytes@ == header + samples_bytes(self.samples@.take(i as int)),
                forall|k: int| 0 <= k < i ==> finite_double_bits(#[trigger] self.samples@[k].bits),
            decreases self.samples@.len() - i,
        {
            let sample = self.samples[i];
            if (sample.bits >> 52u64) & 0x7ffu64 == 0x7ffu64 {
                return Err(ValueFrameError::NonFiniteValue);
            }
            push_u32_le(&mut bytes, sample.slot);
            push_u64_le(&mut bytes, sample.bits);
            assert(self.samples@.take(i as int + 1).drop_last() =~= self.samples@.take(i as int));
            assert(bytes@ =~= header + samples_bytes(self.samples@.take(i as int + 1)));
            i = i + 1;
        }
        assert(self.samples@.take(i as int) =~= self.samples@);
        Ok(bytes)
    }

    /// Decodes a frame of at most `maximum_samples` samples. The sample count
    /// is checked against the limit before any sample is read.
    pub fn decode(bytes: &[u8], maximum_samples: usize) -> (result: Result<Self, ValueFrameError>)
        ensures
            bytes@.len() < 18 ==> result == Err::<Self, ValueFrameError>(ValueFrameError::Truncated),
            bytes@.len() >= 18 && bytes@.subrange(0, 4) != frame_magic() ==> result == Err::<Self, ValueFrameError>(
                ValueFrameError::Magic,
            ),
            match result {
                Ok(frame) => {
                    &&& frame.samples@.len() <= maximum_samples
                    &&& all_finite(frame.samples@)
                    &&& bytes@ == frame_bytes(frame.sequence, frame.generation, frame.samples@)
                },
                Err(ValueFrameError::SampleLimit { count, maximum }) => {
                    &&& maximum == maximum_samples
                    &&& count > maximum_samples
                    &&& bytes@.len() >= 18
                    &&& bytes@.subrange(14, 18) == le_u32(count as u32)
                    &&& count <= u32::MAX
                },
                Err(_) => true,
            },
            bytes@.len() >= 18 && bytes@.subrange(0, 4) == frame_magic() && bytes@.subrange(4, 6) != le_u16(1) ==> (
            result matches Err(ValueFrameError::Version(v)) && le_u16(v) == bytes@.subrange(4, 6)),
            forall|count: u32|
                #![trigger le_u32(count)]
                bytes@.len() >= 18 && bytes@.subrange(0, 4) == frame_magic() && bytes@.subrange(4, 6) == le_u16(1)
                    && le_u32(count) == bytes@.subrange(14, 18) ==> {
                    &&& count > maximum_samples ==> result == Err::<Self, ValueFrameError>(
                        (ValueFrameError::SampleLimit { count: count as usize, maximum: maximum_samples }),
                    )
                    &&& count <= maximum_samples && 18 + 12 * count > usize::MAX ==> result == Err::<
                        Self,
                        ValueFrameError,
                    >(ValueFrameError::TooManySamples)
                    &&& count <= maximum_samples && 18 + 12 * count <= usize::MAX && bytes@.len() != 18 + 12
                        * count ==> result == Err::<Self, ValueFrameError>(ValueFrameError::Truncated)
                    &&& count <= maximum_samples && bytes@.len() == 18 + 12 * count ==> (result is Ok || result
                        == Err::<Self, ValueFrameError>(ValueFrameError::NonFiniteValue))
                },
            forall|sequence: u32, generation: u32, samples: Seq<ValueSample>|
                #![trigger frame_bytes(sequence, generation, samples)]
                bytes@ == frame_bytes(sequence, generation, samples) && samples.len() <= u32::MAX && samples.len()
                    <= maximum_samples && all_finite(samples) ==> (match result {
                    Ok(frame) => frame.sequence == sequence && frame.generation == generation && frame.samples@
                        == samples,
                    Err(_) => false,
                }),
    {
        proof {
            assert forall|sequence: u32, generation: u32, samples: Seq<ValueSample>|
                #![trigger frame_bytes(sequence, generation, samples)]
                bytes@ == frame_bytes(sequence, generation, samples) implies bytes@.len() == 18 + 12 * samples.len() by {
                lemma_samples_bytes_len(samples);
            }
        }
        if bytes.len() < VALUE_FRAME_HEADER_BYTES {
            return Err(ValueFrameError::Truncated);
        }
        if bytes[0] != 0x47u8 || bytes[1] != 0x56u8 || bytes[2] != 0x46u8 || bytes[3] != 0x31u8 {
            assert(bytes@.subrange(0, 4) != frame_magic()) by {
                if bytes@.subrange(0, 4) == frame_magic() {
                    assert(bytes@.subrange(0, 4)[0] == bytes@[0]);
                    assert(bytes@.subrange(0, 4)[1] == bytes@[1]);
                    assert(bytes@.subrange(0, 4)[2] == bytes@[2]);
                    assert(bytes@.subrange(0, 4)[3] == bytes@[3]);
                }
            }
            return Err(ValueFrameError::Magic);
        }
        assert(bytes@.subrange(0, 4) =~= frame_magic());
        let version = read_u16_le(bytes, 4);
        if version != PROTOCOL_VERSION {
            proof {
                assert forall|sequence: u32, generation: u32, samples: Seq<ValueSample>|
                    #![trigger frame_bytes(sequence, generation, samples)]
                    bytes@ == frame_bytes(sequence, generation, samples) implies false by {
                    assert(bytes@.subrange(4, 6) =~= frame_bytes(sequence, generation, samples).subrange(4, 6));
                    assert(frame_bytes(sequence, generation, samples).subrange(4, 6) =~= le_u16(1));
                    lemma_le_u16_injective(version, 1);
                }
            }
            proof {
                if bytes@.subrange(4, 6) == le_u16(1) {
                    lemma_le_u16_injective(version, 1);
                }
            }
            return Err(ValueFrameError::Version(version));
        }
        let sequence = read_u32_le(bytes, 6);
        let generation = read_u32_le(bytes, 10);
        let raw_count = read_u32_le(bytes, 14);
        let sample_count = raw_count as usize;
        proof {
            assert forall|sq: u32, gen: u32, samples: Seq<ValueSample>|
                #![trigger frame_bytes(sq, gen, samples)]
                bytes@ == frame_bytes(sq, gen, samples) && samples.len() <= u32::MAX implies sq == sequence && gen
                == generation && samples.len() == raw_count by {
                let f = frame_bytes(sq, gen, samples);
                assert(bytes@.subrange(6, 10) =~= f.subrange(6, 10));
                assert(f.subrange(6, 10) =~= le_u32(sq));
                lemma_le_u32_injective(sequence, sq);
                assert(bytes@.subrange(10, 14) =~= f.subrange(10, 14));
                assert(f.subrange(10, 14) =~= le_u32(gen));
                lemma_le_u32_injective(generation, gen);
                assert(bytes@.subrange(14, 18) =~= f.subrange(14, 18));
                assert(f.subrange(14, 18) =~= le_u32(samples.len() as u32));
                lemma_le_u32_injective(raw_count, samples.len() as u32);
            }
        }
        proof {
            assert forall|count: u32| #[trigger] le_u32(count) == bytes@.subrange(14, 18) implies count == raw_count by {
                lemma_le_u32_injective(count, raw_count);
            }
        }
        if sample_count > maximum_samples {
            return Err(ValueFrameError::SampleLimit { count: sample_count, maximum: maximum_samples });
        }
        let payload = match sample_count.checked_mul(VALUE_SAMPLE_BYTES) {
            Some(payload) => payload,
            None => return Err(ValueFrameError::TooManySamples),
        };
        let expected = match VALUE_FRAME_HEADER_BYTES.checked_add(payload) {
            Some(expected) => expected,
            None => return Err(ValueFrameError::TooManySamples),
        };
        if bytes.len() != expected {
            return Err(ValueFrameError::Truncated);
        }
        let ghost header = bytes@.subrange(0, 18);
        assert(header =~= frame_magic() + le_u16(1) + le_u32(sequence) + le_u32(generation) + le_u32(raw_count));
        let mut samples: Vec<ValueSample> = Vec::with_capacity(sample_count);
        let mut i: usize = 0;
        while i < sample_count
            invariant
                i <= sample_count,
                bytes@.len() == 18 + 12 * sample_count,
                bytes@.len() <= usize::MAX,
                bytes@.subrange(0, 4) == frame_magic(),
                bytes@.subrange(4, 6) == le_u16(1),
                sample_count == raw_count,
                sample_count <= maximum_samples,
                forall|count: u32| #[trigger] le_u32(count) == bytes@.subrange(14, 18) ==> count == raw_count,
                samples@.len() == i,
                samples_bytes(samples@) == bytes@.subrange(18, 18 + 12 * i),
                all_finite(samples@),
            decreases sample_count - i,
        {
            assert(18 + 12 * i + 12 <= 18 + 12 * sample_count) by (nonlinear_arith)
                requires
                    i < sample_count,
            ;
            let at = 18 + 12 * i;
            let slot = read_u32_le(bytes, at);
            let bits = read_u64_le(bytes, at + 4);
            if (bits >> 52u64) & 0x7ffu64 == 0x7ffu64 {
                proof {
                    lemma_non_finite_sample_refutes(bytes@, i as int, bits);
                }
                return Err(ValueFrameError::NonFiniteValue);
            }
            let sample = ValueSample { slot, bits };
            let ghost previous = samples@;
            samples.push(sample);
            proof {
                assert(samples@.drop_last() =~= previous);
                assert(bytes@.subrange(18, 18 + 12 * (i + 1)) =~= bytes@.subrange(18, 18 + 12 * i)
                    + bytes@.subrange(at as int, at + 4) + bytes@.subrange(at + 4, at + 12));
                assert(samples_bytes(samples@) =~= samples_bytes(samples@.drop_last()) + sample_bytes(sample));
            }
            i = i + 1;
        }
        assert(bytes@ =~= header + bytes@.subrange(18, 18 + 12 * sample_count));
        let frame = ValueFrame { sequence, generation, samples };
        proof {
            assert forall|sq: u32, gen: u32, all: Seq<ValueSample>|
                #![trigger frame_bytes(sq, gen, all)]
                bytes@ == frame_bytes(sq, gen, all) && all.len() <= u32::MAX implies frame.samples@ == all by {
                assert(bytes@.subrange(18, bytes@.len() as int) =~= samples_bytes(all)) by {
                    assert(frame_bytes(sq, gen, all) =~= (frame_magic() + le_u16(1) + le_u32(sq) + le_u32(gen) + le_u32(
                        all.len() as u32,
                    )) + samples_bytes(all));
                }
                assert(bytes@.subrange(18, bytes@.len() as int) =~= samples_bytes(frame.samples@));
                lemma_samples_bytes_injective(frame.samples@, all);
            }
        }
        Ok(frame)
    }
}

/// A frame whose sample `i` holds non-finite bits encodes no all-finite samples.
proof fn lemma_non_finite_sample_refutes(bytes: Seq<u8>, i: int, bits: u64)
    requires
        0 <= i,
        18 + 12 * i + 12 <= bytes.len(),
        bytes.subrange(18 + 12 * i + 4, 18 + 12 * i + 12) == le_u64(bits),
        !finite_double_bits(bits),
    ensures
        forall|sq: u32, gen: u32, all: Seq<ValueSample>|
            #![trigger frame_bytes(sq, gen, all)]
            bytes == frame_bytes(sq, gen, all) ==> !all_finite(all),
{
    assert forall|sq: u32, gen: u32, all: Seq<ValueSample>|
        #![trigger frame_bytes(sq, gen, all)]
        bytes == frame_bytes(sq, gen, all) implies !all_finite(all) by {
        lemma_samples_bytes_len(all);
        let encoded = bytes.subrange(18, bytes.len() as int);
        assert(frame_bytes(sq, gen, all) =~= (frame_magic() + le_u16(1) + le_u32(sq) + le_u32(gen) + le_u32(
            all.len() as u32,
        )) + samples_bytes(all));
        assert(encoded =~= samples_bytes(all));
        assert(i < all.len()) by (nonlinear_arith)
            requires
                18 + 12 * i + 12 <= 18 + 12 * all.len(),
        ;
        lemma_samples_decode(all, encoded, i);
        assert(encoded.subrange(12 * i + 4, 12 * i + 12) =~= bytes.subrange(18 + 12 * i + 4, 18 + 12 * i + 12));
        lemma_le_u64_injective(bits, all[i].bits);
    }
}

/// Samples are determined by their encoding.
proof fn lemma_samples_bytes_injective(a: Seq<ValueSample>, b: Seq<ValueSample>)
    requires
        samples_bytes(a) == samples_bytes(b),
        a.len() == b.len(),
    ensures
        a == b,
    decreases a.len(),
{
    if a.len() > 0 {
        lemma_samples_bytes_len(a.drop_last());
        lemma_samples_bytes_len(b.drop_last());
        let n = samples_bytes(a.drop_last()).len() as int;
        let whole = samples_bytes(a);
        assert(whole.subrange(0, n) =~= samples_bytes(a.drop_last()));
        assert(whole.subrange(0, n) =~= samples_bytes(b.drop_last()));
        assert(whole.subrange(n, n + 4) =~= le_u32(a.last().slot));
        assert(whole.subrange(n, n + 4) =~= le_u32(b.last().slot));
        assert(whole.subrange(n + 4, n + 12) =~= le_u64(a.last().bits));
        assert(whole.subrange(n + 4, n + 12) =~= le_u64(b.last().bits));
        lemma_le_u32_injective(a.last().slot, b.last().slot);
        lemma_le_u64_injective(a.last().bits, b.last().bits);
        lemma_samples_bytes_injective(a.drop_last(), b.drop_last());
        assert(a =~= a.drop_last().push(a.last()));
        assert(b =~= b.drop_last().push(b.last()));
    }
}

/// The bytes of sample `i` inside the encoding of `all`.
proof fn lemma_samples_decode(all: Seq<ValueSample>, encoded: Seq<u8>, i: int)
    requires
        encoded == samples_bytes(all),
        0 <= i < all.len(),
    ensures
        encoded.subrange(12 * i, 12 * i + 4) == le_u32(all[i].slot),
        encoded.subrange(12 * i + 4, 12 * i + 12) == le_u64(all[i].bits),
    decreases all.len(),
{
    lemma_samples_bytes_len(all.drop_last());
    let n = 12 * (all.len() - 1);
    if i == all.len() - 1 {
        assert(encoded.subrange(12 * i, 12 * i + 4) =~= le_u32(all[i].slot));
        assert(encoded.subrange(12 * i + 4, 12 * i + 12) =~= le_u64(all[i].bits));
    } else {
        lemma_samples_decode(all.drop_last(), samples_bytes(all.drop_last()), i);
        assert(encoded.subrange(12 * i, 12 * i + 4) =~= samples_bytes(all.drop_last()).subrange(12 * i, 12 * i + 4));
        assert(encoded.subrange(12 * i + 4, 12 * i + 12) =~= samples_bytes(all.drop_last()).subrange(
            12 * i + 4,
            12 * i + 12,
        ));
    }
}

} // verus!
