use vstd::prelude::*;
use crate::resample::{resample_mono, resample_spec};

verus! {

/// The codecs that the library knows.
#[derive(Clone, Copy, Debug, PartialEq, Eq, Structural)]
pub enum CodecType {
    PCMU,
    PCMA,
    G722,
}

/// Failures of the codec layer.
#[derive(Clone, Copy, Debug, PartialEq, Eq, Structural)]
pub enum CodecError {
    /// The codec type has no body in this library.
    UnsupportedCodec,
    /// The encoded input could not be turned into samples.
    DecodeError,
    /// The samples could not be encoded.
    EncodeError,
}

/// Sample rate in Hz that a codec type works at.
pub open spec fn rate_of(t: CodecType) -> u32 {
    match t {
        CodecType::PCMU => 8000,
        CodecType::PCMA => 8000,
        CodecType::G722 => 16000,
    }
}

/// Channel count of a codec type.
pub open spec fn channels_of(t: CodecType) -> u16 {
    1
}

/// Static transport payload types of the codecs.
pub const PAYLOAD_PCMU: u8 = 0;
pub const PAYLOAD_PCMA: u8 = 8;
pub const PAYLOAD_G722: u8 = 9;

/// The codec that a transport payload type names, if it names one.
pub open spec fn codec_of_payload(pt: u8) -> Option<CodecType> {
    if pt == PAYLOAD_PCMU {
        Some(CodecType::PCMU)
    } else if pt == PAYLOAD_PCMA {
        Some(CodecType::PCMA)
    } else if pt == PAYLOAD_G722 {
        Some(CodecType::G722)
    } else {
        None
    }
}

/// Multiplier of a companding segment.
pub open spec fn seg_scale(e: int) -> int {
    if e <= 0 {
        1
    } else if e == 1 {
        2
    } else if e == 2 {
        4
    } else if e == 3 {
        8
    } else if e == 4 {
        16
    } else if e == 5 {
        32
    } else if e == 6 {
        64
    } else {
        128
    }
}

fn scale(e: u8) -> (r: i32)
    requires
        e <= 7,
    ensures
        r == seg_scale(e as int),
        1 <= r <= 128,
{
    match e {
        0 => 1,
        1 => 2,
        2 => 4,
        3 => 8,
        4 => 16,
        5 => 32,
        6 => 64,
        _ => 128,
    }
}

/// G.711 mu-law: the sample that a code byte stands for.
pub open spec fn ulaw_to_linear(b: u8) -> int {
    let u = 255 - b;
    let mag = ((u % 16) * 8 + 132) * seg_scale((u % 128) / 16) - 132;
    if u >= 128 {
        -mag
    } else {
        mag
    }
}

/// G.711 mu-law: segment of a biased magnitude.
pub open spec fn ulaw_segment(mag: int) -> int {
    if mag < 256 {
        0
    } else if mag < 512 {
        1
    } else if mag < 1024 {
        2
    } else if mag < 2048 {
        3
    } else if mag < 4096 {
        4
    } else if mag < 8192 {
        5
    } else if mag < 16384 {
        6
    } else {
        7
    }
}

/// G.711 mu-law: the code byte of a sample.
pub open spec fn linear_to_ulaw(x: i16) -> u8 {
    let a = if x < 0 { -x } else { x as int };
    let mag = (if a > 32635 { 32635 } else { a }) + 132;
    let e = ulaw_segment(mag);
    let m = (mag / (8 * seg_scale(e))) % 16;
    (255 - ((if x < 0 { 128int } else { 0 }) + e * 16 + m)) as u8
}

/// G.711 A-law: the sample that a code byte stands for.
pub open spec fn alaw_to_linear(b: u8) -> int {
    let v = b ^ 0x55u8;
    let t = (v % 16) * 16;
    let seg = (v % 128) / 16;
    let mag = if seg == 0 { t + 8 } else { (t + 264) * seg_scale(seg - 1) };
    if v >= 128 {
        mag
    } else {
        -mag
    }
}

/// G.711 A-law: segment of a magnitude taken in steps of eight.
pub open spec fn alaw_segment(v: int) -> int {
    if v < 32 {
        0
    } else if v < 64 {
        1
    } else if v < 128 {
        2
    } else if v < 256 {
        3
    } else if v < 512 {
        4
    } else if v < 1024 {
        5
    } else if v < 2048 {
        6
    } else {
        7
    }
}

/// G.711 A-law: the code byte of a sample.
pub open spec fn linear_to_alaw(x: i16) -> u8 {
    let p = x as int / 8;
    let v = if p >= 0 { p } else { -p - 1 };
    let mask: u8 = if p >= 0 { 0xd5 } else { 0x55 };
    let seg = alaw_segment(v);
    let m = if seg < 2 { (v / 2) % 16 } else { (v / seg_scale(seg)) % 16 };
    ((seg * 16 + m) as u8) ^ mask
}

pub fn ulaw_decode_byte(b: u8) -> (r: i16)
    ensures
        r as int == ulaw_to_linear(b),
{
    let u: u8 = 255 - b;
    let m: i32 = (u % 16) as i32;
    let k: i32 = scale((u % 128) / 16);
    assert((m * 8 + 132) * k <= 252 * 128) by (nonlinear_arith)
        requires
            0 <= m < 16,
            1 <= k <= 128,
    ;
    let mag: i32 = (m * 8 + 132) * k - 132;
    if u >= 128 {
        (-mag) as i16
    } else {
        mag as i16
    }
}

fn ulaw_segment_of(mag: i32) -> (r: u8)
    ensures
        r as int == ulaw_segment(mag as int),
{
    if mag < 256 {
        0
    } else if mag < 512 {
        1
    } else if mag < 1024 {
        2
    } else if mag < 2048 {
        3
    } else if mag < 4096 {
        4
    } else if mag < 8192 {
        5
    } else if mag < 16384 {
        6
    } else {
        7
    }
}

pub fn ulaw_encode_sample(x: i16) -> (r: u8)
    ensures
        r == linear_to_ulaw(x),
{
    let xi: i32 = x as i32;
    let a: i32 = if xi < 0 { -xi } else { xi };
    let mag: i32 = (if a > 32635 { 32635 } else { a }) + 132;
    let e: u8 = ulaw_segment_of(mag);
    let k: i32 = scale(e);
    let m: i32 = (mag / (8 * k)) % 16;
    let sign: i32 = if xi < 0 { 128 } else { 0 };
    (255 - (sign + (e as i32) * 16 + m)) as u8
}

pub fn alaw_decode_byte(b: u8) -> (r: i16)
    ensures
        r as int == alaw_to_linear(b),
{
    let v: u8 = b ^ 0x55u8;
    let t: i32 = ((v % 16) as i32) * 16;
    let seg: u8 = (v % 128) / 16;
    let mag: i32 = if seg == 0 {
        t + 8
    } else {
        let k: i32 = scale(seg - 1);
        assert((t + 264) * k <= 504 * 64) by (nonlinear_arith)
            requires
                0 <= t <= 240,
                1 <= k <= 64,
        ;
        (t + 264) * k
    };
    if v >= 128 {
        mag as i16
    } else {
        (-mag) as i16
    }
}

fn alaw_segment_of(v: i32) -> (r: u8)
    ensures
        r as int == alaw_segment(v as int),
{
    if v < 32 {
        0
    } else if v < 64 {
        1
    } else if v < 128 {
        2
    } else if v < 256 {
        3
    } else if v < 512 {
        4
    } else if v < 1024 {
        5
    } else if v < 2048 {
        6
    } else {
        7
    }
}

pub fn alaw_encode_sample(x: i16) -> (r: u8)
    ensures
        r == linear_to_alaw(x),
{
    let xi: i32 = x as i32;
    let p: i32 = if xi >= 0 { xi / 8 } else { -((-xi + 7) / 8) };
    assert(p as int == x as int / 8);
    let v: i32 = if p >= 0 { p } else { -p - 1 };
    let mask: u8 = if p >= 0 { 0xd5 } else { 0x55 };
    let seg: u8 = alaw_segment_of(v);
    let m: i32 = if seg < 2 { (v / 2) % 16 } else { (v / scale(seg)) % 16 };
    ((seg as i32 * 16 + m) as u8) ^ mask
}

/// The samples that a codec's decoder gives for encoded bytes, where this
/// library carries that codec's body.
pub open spec fn decode_spec(t: CodecType, data: Seq<u8>) -> Option<Seq<i16>> {
    match t {
        CodecType::PCMU => Some(data.map_values(|b: u8| ulaw_to_linear(b) as i16)),
        CodecType::PCMA => Some(data.map_values(|b: u8| alaw_to_linear(b) as i16)),
        CodecType::G722 => None,
    }
}

/// The bytes that a codec's encoder gives for samples, where this library
/// carries that codec's body.
pub open spec fn encode_spec(t: CodecType, samples: Seq<i16>) -> Option<Seq<u8>> {
    match t {
        CodecType::PCMU => Some(samples.map_values(|x: i16| linear_to_ulaw(x))),
        CodecType::PCMA => Some(samples.map_values(|x: i16| linear_to_alaw(x))),
        CodecType::G722 => None,
    }
}

/// Turns encoded bytes of one codec into samples.
pub struct Decoder {
    pub codec: CodecType,
}

/// Turns samples into encoded bytes of one codec.
pub struct Encoder {
    pub codec: CodecType,
}

fn rate_for(t: CodecType) -> (r: u32)
    ensures
        r == rate_of(t),
{
    match t {
        CodecType::PCMU => 8000,
        CodecType::PCMA => 8000,
        CodecType::G722 => 16000,
    }
}

fn decode_bytes(t: CodecType, data: &[u8]) -> (r: Result<Vec<i16>, CodecError>)
    ensures
        decode_spec(t, data@) is Some ==> r is Ok && r.unwrap()@ == decode_spec(t, data@).unwrap(),
        decode_spec(t, data@) is None ==> r == Err::<Vec<i16>, CodecError>(
            CodecError::UnsupportedCodec,
        ),
{
    if let CodecType::G722 = t {
        return Err(CodecError::UnsupportedCodec);
    }
    let mut out: Vec<i16> = Vec::new();
    let mut i: usize = 0;
    while i < data.len()
        invariant
            t != CodecType::G722,
            i <= data@.len(),
            out@ =~= decode_spec(t, data@).unwrap().take(i as int),
        decreases data@.len() - i,
    {
        let x: i16 = match t {
            CodecType::PCMU => ulaw_decode_byte(data[i]),
            _ => alaw_decode_byte(data[i]),
        };
        out.push(x);
        i = i + 1;
        assert(out@ =~= decode_spec(t, data@).unwrap().take(i as int));
    }
    assert(out@ =~= decode_spec(t, data@).unwrap());
    Ok(out)
}

fn encode_samples(t: CodecType, samples: &[i16]) -> (r: Result<Vec<u8>, CodecError>)
    ensures
        encode_spec(t, samples@) is Some ==> r is Ok && r.unwrap()@ == encode_spec(
            t,
            samples@,
        ).unwrap(),
        encode_spec(t, samples@) is None ==> r == Err::<Vec<u8>, CodecError>(
            CodecError::UnsupportedCodec,
        ),
{
    if let CodecType::G722 = t {
        return Err(CodecError::UnsupportedCodec);
    }
    let mut out: Vec<u8> = Vec::new();
    let mut i: usize = 0;
    while i < samples.len()
        invariant
            t != CodecType::G722,
            i <= samples@.len(),
            out@ =~= encode_spec(t, samples@).unwrap().take(i as int),
        decreases samples@.len() - i,
    {
        let b: u8 = match t {
            CodecType::PCMU => ulaw_encode_sample(samples[i]),
            _ => alaw_encode_sample(samples[i]),
        };
        out.push(b);
        i = i + 1;
        assert(out@ =~= encode_spec(t, samples@).unwrap().take(i as int));
    }
    assert(out@ =~= encode_spec(t, samples@).unwrap());
    Ok(out)
}

impl Decoder {
    pub fn sample_rate(&self) -> (r: u32)
        ensures
            r == rate_of(self.codec),
    {
        rate_for(self.codec)
    }

    pub fn channels(&self) -> (r: u16)
        ensures
            r == channels_of(self.codec),
    {
        1
    }

    /// Samples of the encoded bytes; `UnsupportedCodec` for a codec whose
    /// body this library does not carry.
    pub fn decode(&self, data: &[u8]) -> (r: Result<Vec<i16>, CodecError>)
        ensures
            decode_spec(self.codec, data@) is Some ==> r is Ok && r.unwrap()@ == decode_spec(
                self.codec,
                data@,
            ).unwrap(),
            decode_spec(self.codec, data@) is None ==> r == Err::<Vec<i16>, CodecError>(
                CodecError::UnsupportedCodec,
            ),
    {
        decode_bytes(self.codec, data)
    }
}

impl Encoder {
    pub fn sample_rate(&self) -> (r: u32)
        ensures
            r == rate_of(self.codec),
    {
        rate_for(self.codec)
    }

    pub fn channels(&self) -> (r: u16)
        ensures
            r == channels_of(self.codec),
    {
        1
    }

    /// Encoded bytes of the samples; `UnsupportedCodec` for a codec whose
    /// body this library does not carry.
    pub fn encode(&mut self, samples: &[i16]) -> (r: Result<Vec<u8>, CodecError>)
        ensures
            final(self).codec == old(self).codec,
            encode_spec(old(self).codec, samples@) is Some ==> r is Ok && r.unwrap()@
                == encode_spec(old(self).codec, samples@).unwrap(),
            encode_spec(old(self).codec, samples@) is None ==> r == Err::<Vec<u8>, CodecError>(
                CodecError::UnsupportedCodec,
            ),
    {
        encode_samples(self.codec, samples)
    }
}

/// A fresh decoder for a codec type.
pub fn create_decoder(codec_type: CodecType) -> (r: Result<Decoder, CodecError>)
    ensures
        r is Ok,
        r.unwrap().codec == codec_type,
{
    Ok(Decoder { codec: codec_type })
}

/// A fresh encoder for a codec type.
pub fn create_encoder(codec_type: CodecType) -> (r: Result<Encoder, CodecError>)
    ensures
        r is Ok,
        r.unwrap().codec == codec_type,
{
    Ok(Encoder { codec: codec_type })
}

/// Decoder and encoder of one codec type report the same fixed rate and
/// channel count: 8000 Hz mono for PCMU and PCMA, 16000 Hz mono for G722.
pub proof fn lemma_factory_rates(t: CodecType, d: Decoder, e: Encoder)
    requires
        d.codec == t,
        e.codec == t,
    ensures
        rate_of(d.codec) == rate_of(e.codec),
        channels_of(d.codec) == channels_of(e.codec),
        channels_of(t) == 1,
        t == CodecType::G722 ==> rate_of(t) == 16000,
        t != CodecType::G722 ==> rate_of(t) == 8000,
{
}

/// What the track codec gives for a payload of a payload type, carried over
/// to a sample rate.
pub open spec fn track_decode_spec(pt: u8, payload: Seq<u8>, rate: u32) -> Result<
    Seq<i16>,
    CodecError,
> {
    match codec_of_payload(pt) {
        None => Err(CodecError::UnsupportedCodec),
        Some(t) => match decode_spec(t, payload) {
            Some(s) => if rate_of(t) == rate {
                Ok(s)
            } else {
                Ok(resample_spec(s, rate_of(t) as int, rate as int))
            },
            None => Err(CodecError::UnsupportedCodec),
        },
    }
}

/// Decoders of a track, one per audio payload type.
pub struct TrackCodec {
    pub pcmu: Decoder,
    pub pcma: Decoder,
    pub g722: Decoder,
}

impl TrackCodec {
    pub open spec fn wf(&self) -> bool {
        &&& self.pcmu.codec == CodecType::PCMU
        &&& self.pcma.codec == CodecType::PCMA
        &&& self.g722.codec == CodecType::G722
    }

    pub fn new() -> (r: TrackCodec)
        ensures
            r.wf(),
    {
        TrackCodec {
            pcmu: Decoder { codec: CodecType::PCMU },
            pcma: Decoder { codec: CodecType::PCMA },
            g722: Decoder { codec: CodecType::G722 },
        }
    }

    /// Whether a payload type names an audio codec.
    pub fn is_audio(payload_type: u8) -> (r: bool)
        ensures
            r == codec_of_payload(payload_type) is Some,
    {
        payload_type == PAYLOAD_PCMU || payload_type == PAYLOAD_PCMA || payload_type
            == PAYLOAD_G722
    }

    /// Samples of a payload, resampled to the given rate where the codec's
    /// own rate differs.
    pub fn decode(&self, payload_type: u8, payload: &[u8], sample_rate: u32) -> (r: Result<
        Vec<i16>,
        CodecError,
    >)
        requires
            self.wf(),
        ensures
            r is Ok <==> track_decode_spec(payload_type, payload@, sample_rate) is Ok,
            r is Ok ==> r.unwrap()@ == track_decode_spec(payload_type, payload@, sample_rate).unwrap(),
            r is Err ==> r == Err::<Vec<i16>, CodecError>(
                track_decode_spec(payload_type, payload@, sample_rate)->Err_0,
            ),
    {
        let decoder: &Decoder = if payload_type == PAYLOAD_PCMU {
            &self.pcmu
        } else if payload_type == PAYLOAD_PCMA {
            &self.pcma
        } else if payload_type == PAYLOAD_G722 {
            &self.g722
        } else {
            return Err(CodecError::UnsupportedCodec);
        };
        let samples = decoder.decode(payload)?;
        let native: u32 = decoder.sample_rate();
        if native == sample_rate {
            Ok(samples)
        } else {
            Ok(resample_mono(samples.as_slice(), native, sample_rate))
        }
    }
}

/// Within one companding segment of multiplier `k`, a magnitude falls in
/// step `q` of sixteen, and the step's middle lies `4 * k` above its start.
proof fn lemma_segment_step(mag: int, k: int, low: int)
    requires
        1 <= k <= 128,
        low == 16 * k || (k == 1 && low == 16),
        8 * low <= mag < 256 * k,
        k == 1 || 128 * k <= mag,
    ensures
        16 <= mag / (8 * k) < 32,
        8 * k * (mag / (8 * k)) <= mag < 8 * k * (mag / (8 * k)) + 8 * k,
        (8 * (mag / (8 * k) - 16) + 132) * k == 8 * k * (mag / (8 * k)) + 4 * k,
{
    let d = 8 * k;
    let q = mag / d;
    vstd::arithmetic::div_mod::lemma_fundamental_div_mod(mag, d);
    let r = mag % d;
    assert(0 <= r < d);
    assert(mag == d * q + r);
    assert(16 <= q < 32) by (nonlinear_arith)
        requires
            mag == d * q + r,
            0 <= r < d,
            d == 8 * k,
            1 <= k,
            128 * k <= mag || (k == 1 && 128 <= mag),
            mag < 256 * k,
    ;
    assert(8 * k * q <= mag < 8 * k * q + 8 * k) by (nonlinear_arith)
        requires
            mag == d * q + r,
            0 <= r < d,
            d == 8 * k,
    ;
    assert((8 * (q - 16) + 132) * k == 8 * k * q + 4 * k) by (nonlinear_arith);
}

/// Mu-law companding loses less than 5000 of a sample's value: decoding the
/// code byte of any sample gives back a sample that close to it.
pub proof fn lemma_ulaw_round_trip(x: i16)
    ensures
        -5000 < x - ulaw_to_linear(linear_to_ulaw(x)) < 5000,
{
    let a = if x < 0 { -x } else { x as int };
    let mag = (if a > 32635 { 32635 } else { a }) + 132;
    let e = ulaw_segment(mag);
    let k = seg_scale(e);
    assert(0 <= e <= 7);
    assert(e == 0 ==> k == 1 && mag < 256);
    assert(e > 0 ==> 128 * k <= mag < 256 * k);
    lemma_segment_step(mag, k, if e == 0 { 16 } else { 16 * k });
    let q = mag / (8 * k);
    let m = q % 16;
    assert(m == q - 16);
    let sgn: int = if x < 0 { 128 } else { 0 };
    let u = sgn + e * 16 + m;
    assert(linear_to_ulaw(x) as int == 255 - u);
    assert(u % 16 == m);
    assert((u % 128) / 16 == e);
    assert((u >= 128) == (x < 0));
}

/// Within an A-law segment of multiplier `2 * h`, a magnitude falls in step
/// `q` of sixteen, and the step's decoded value lies `4 * h` above its start.
proof fn lemma_alaw_step(v: int, h: int)
    requires
        1 <= h <= 64,
        32 * h <= v < 64 * h,
    ensures
        16 <= v / (2 * h) < 32,
        2 * h * (v / (2 * h)) <= v < 2 * h * (v / (2 * h)) + 2 * h,
        (16 * (v / (2 * h) - 16) + 264) * h == 16 * h * (v / (2 * h)) + 8 * h,
{
    let d = 2 * h;
    let q = v / d;
    vstd::arithmetic::div_mod::lemma_fundamental_div_mod(v, d);
    let r = v % d;
    assert(16 <= q < 32) by (nonlinear_arith)
        requires
            v == d * q + r,
            0 <= r < d,
            d == 2 * h,
            1 <= h,
            32 * h <= v < 64 * h,
    ;
    assert(2 * h * q <= v < 2 * h * q + 2 * h) by (nonlinear_arith)
        requires
            v == d * q + r,
            0 <= r < d,
            d == 2 * h,
    ;
    assert((16 * (q - 16) + 264) * h == 16 * h * q + 8 * h) by (nonlinear_arith);
}

/// A-law companding loses less than 5000 of a sample's value: decoding the
/// code byte of any sample gives back a sample that close to it.
pub proof fn lemma_alaw_round_trip(x: i16)
    ensures
        -5000 < x - alaw_to_linear(linear_to_alaw(x)) < 5000,
{
    let p = x as int / 8;
    assert(8 * p <= x < 8 * p + 8);
    let v = if p >= 0 { p } else { -p - 1 };
    assert(0 <= v < 4096);
    let mask: u8 = if p >= 0 { 0xd5 } else { 0x55 };
    let seg = alaw_segment(v);
    let m = if seg < 2 { (v / 2) % 16 } else { (v / seg_scale(seg)) % 16 };
    let y: u8 = (seg * 16 + m) as u8;
    assert(0 <= m < 16);
    assert(y as int == seg * 16 + m);
    assert(y < 128);
    assert(y < 128u8 ==> ((y ^ 0xd5u8) ^ 0x55u8) == (y + 128u8) as u8) by (bit_vector);
    assert(((y ^ 0x55u8) ^ 0x55u8) == y) by (bit_vector);
    let w: u8 = linear_to_alaw(x) ^ 0x55u8;
    assert(w as int == (if p >= 0 { y + 128 } else { y as int }));
    assert(w % 16 == m);
    assert((w % 128) / 16 == seg);
    let t = m * 16;
    let magd = if seg == 0 { t + 8 } else { (t + 264) * seg_scale(seg - 1) };
    assert(alaw_to_linear(linear_to_alaw(x)) == (if p >= 0 { magd } else { -magd }));
    if seg >= 2 {
        let h = seg_scale(seg - 1);
        assert(seg_scale(seg) == 2 * h);
        assert(32 * h <= v < 64 * h);
        lemma_alaw_step(v, h);
        let q = v / (2 * h);
        assert(m == q - 16);
        let hq = h * q;
        assert(t == 16 * (q - 16));
        assert(magd == 16 * h * q + 8 * h);
        assert(16 * h * q == 16 * hq && 2 * h * q == 2 * hq) by (nonlinear_arith)
            requires
                hq == h * q,
        ;
        assert(2 * hq <= v < 2 * hq + 2 * h);
        assert(-8 * h <= 8 * v - magd < 8 * h);
    } else {
        assert(seg == 1 ==> 32 <= v < 64);
        assert(seg_scale(0) == 1);
        assert(-8 <= 8 * v - magd < 8);
    }
}

/// For PCMU and PCMA, decoding what the encoder gives for any samples
/// yields as many samples, each within 5000 of the one it came from.
pub proof fn lemma_companding_round_trip(t: CodecType, samples: Seq<i16>)
    requires
        t != CodecType::G722,
    ensures
        encode_spec(t, samples) is Some,
        decode_spec(t, encode_spec(t, samples).unwrap()) is Some,
        decode_spec(t, encode_spec(t, samples).unwrap()).unwrap().len() == samples.len(),
        forall|i: int|
            0 <= i < samples.len() ==> -5000 < samples[i] - #[trigger] decode_spec(
                t,
                encode_spec(t, samples).unwrap(),
            ).unwrap()[i] < 5000,
{
    let out = decode_spec(t, encode_spec(t, samples).unwrap()).unwrap();
    assert forall|i: int| 0 <= i < samples.len() implies -5000 < samples[i] - #[trigger] out[i]
        < 5000 by {
        if t == CodecType::PCMU {
            lemma_ulaw_round_trip(samples[i]);
        } else {
            lemma_alaw_round_trip(samples[i]);
        }
    }
}

} // verus!
