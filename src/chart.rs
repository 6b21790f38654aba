//! The chart container: a ten-byte header followed by an opaque payload.
//!
//! Layout, byte for byte:
//! `[magic: 4][version: 1][rate: 1][payload length: 4, little-endian][payload]`.
use vstd::prelude::*;

verus! {

/// The format version written into every chart file.
pub const CHART_VERSION: u8 = 1;

/// Size of the fixed header that precedes the payload.
pub const CHART_HEADER_LEN: usize = 10;

/// The four marker bytes, `BARM` in ASCII.
pub const MAGIC_0: u8 = 0x42;
pub const MAGIC_1: u8 = 0x41;
pub const MAGIC_2: u8 = 0x52;
pub const MAGIC_3: u8 = 0x4D;

/// Why a chart could not be written or read.
#[derive(Clone, Copy, Debug, PartialEq, Eq, Structural)]
pub enum ChartError {
    /// The file system refused the read or write.
    Io,
    /// The marker or the version byte is not one this codec writes.
    UnsupportedVersion,
    /// The header is cut short, or the declared payload length differs from
    /// the bytes that follow it.
    Truncated,
    /// The payload is too long for its four-byte length field.
    PayloadTooLarge,
}

pub open spec fn chart_magic() -> Seq<u8> {
    seq![MAGIC_0, MAGIC_1, MAGIC_2, MAGIC_3]
}

/// The four little-endian bytes of `n`.
pub open spec fn le32_bytes(n: u32) -> Seq<u8> {
    seq![n as u8, (n >> 8u32) as u8, (n >> 16u32) as u8, (n >> 24u32) as u8]
}

/// The little-endian `u32` stored at `b[i..i + 4]`.
pub open spec fn le32_at(b: Seq<u8>, i: int) -> u32 {
    (b[i] as u32) | ((b[i + 1] as u32) << 8u32) | ((b[i + 2] as u32) << 16u32) | ((b[i + 3] as u32)
        << 24u32)
}

/// The file that holds `payload` recorded at `rate`.
pub open spec fn chart_bytes(payload: Seq<u8>, rate: u8) -> Seq<u8>
    recommends
        payload.len() <= u32::MAX,
{
    chart_magic() + seq![CHART_VERSION, rate] + le32_bytes(payload.len() as u32) + payload
}

/// What reading the file `b` yields: its payload and rate, or the first
/// defect found, checking the marker, the version, then the length.
pub open spec fn parse_chart(b: Seq<u8>) -> Result<(Seq<u8>, u8), ChartError> {
    if b.len() < 4 {
        Err(ChartError::Truncated)
    } else if b.subrange(0, 4) != chart_magic() {
        Err(ChartError::UnsupportedVersion)
    } else if b.len() < 5 {
        Err(ChartError::Truncated)
    } else if b[4] != CHART_VERSION {
        Err(ChartError::UnsupportedVersion)
    } else if b.len() < CHART_HEADER_LEN {
        Err(ChartError::Truncated)
    } else if le32_at(b, 6) as int != b.len() - CHART_HEADER_LEN {
        Err(ChartError::Truncated)
    } else {
        Ok((b.subrange(CHART_HEADER_LEN as int, b.len() as int), b[5]))
    }
}

proof fn lemma_le32_round_trip(n: u32)
    ensures
        le32_at(le32_bytes(n), 0) == n,
{
    let b0 = n as u8;
    let b1 = (n >> 8u32) as u8;
    let b2 = (n >> 16u32) as u8;
    let b3 = (n >> 24u32) as u8;
    assert(((b0 as u32) | ((b1 as u32) << 8u32) | ((b2 as u32) << 16u32) | ((b3 as u32) << 24u32))
        == n) by (bit_vector)
        requires
            b0 == n as u8,
            b1 == (n >> 8u32) as u8,
            b2 == (n >> 16u32) as u8,
            b3 == (n >> 24u32) as u8,
    ;
}

proof fn lemma_le32_canonical(b0: u8, b1: u8, b2: u8, b3: u8)
    ensures
        le32_bytes(le32_at(seq![b0, b1, b2, b3], 0)) == seq![b0, b1, b2, b3],
{
    let n = le32_at(seq![b0, b1, b2, b3], 0);
    assert(n == (b0 as u32) | ((b1 as u32) << 8u32) | ((b2 as u32) << 16u32) | ((b3 as u32)
        << 24u32));
    assert(n as u8 == b0 && (n >> 8u32) as u8 == b1 && (n >> 16u32) as u8 == b2 && (n >> 24u32)
        as u8 == b3) by (bit_vector)
        requires
            n == (b0 as u32) | ((b1 as u32) << 8u32) | ((b2 as u32) << 16u32) | ((b3 as u32)
                << 24u32),
    ;
    assert(le32_bytes(n) =~= seq![b0, b1, b2, b3]);
}

/// Reading back what was written gives the same payload and rate: for every
/// payload that fits the length field and every rate, decoding the encoded
/// file returns exactly that pair.
pub proof fn lemma_chart_round_trip(payload: Seq<u8>, rate: u8)
    requires
        payload.len() <= u32::MAX,
    ensures
        parse_chart(chart_bytes(payload, rate)) == Ok::<(Seq<u8>, u8), ChartError>((payload, rate)),
{
    let b = chart_bytes(payload, rate);
    lemma_le32_round_trip(payload.len() as u32);
    assert(b.subrange(0, 4) =~= chart_magic());
    assert(b.subrange(6, 10) =~= le32_bytes(payload.len() as u32));
    assert(le32_at(b, 6) == le32_at(le32_bytes(payload.len() as u32), 0));
    assert(b.subrange(10, b.len() as int) =~= payload);
}

/// A file is accepted only in the exact form the encoder writes: whatever
/// decodes to a payload and rate is byte for byte the encoding of that pair.
pub proof fn lemma_chart_canonical(b: Seq<u8>)
    requires
        parse_chart(b) is Ok,
    ensures
        b == chart_bytes(parse_chart(b)->Ok_0.0, parse_chart(b)->Ok_0.1),
{
    let payload = b.subrange(10, b.len() as int);
    lemma_le32_canonical(b[6], b[7], b[8], b[9]);
    assert(le32_at(seq![b[6], b[7], b[8], b[9]], 0) == le32_at(b, 6));
    assert(payload.len() as u32 == le32_at(b, 6));
    assert(b =~= chart_bytes(payload, b[5]));
}

/// Writes the chart file that holds `payload` at `rate`.
pub fn encode_chart(payload: &Vec<u8>, rate: u8) -> (r: Result<Vec<u8>, ChartError>)
    ensures
        match r {
            Ok(bytes) => payload@.len() <= u32::MAX && bytes@ == chart_bytes(payload@, rate),
            Err(e) => payload@.len() > u32::MAX && e == ChartError::PayloadTooLarge,
        },
{
    let n = payload.len();
    if n as u64 > u32::MAX as u64 {
        return Err(ChartError::PayloadTooLarge);
    }
    let len = n as u32;
    let mut out: Vec<u8> = Vec::new();
    out.push(MAGIC_0);
    out.push(MAGIC_1);
    out.push(MAGIC_2);
    out.push(MAGIC_3);
    out.push(CHART_VERSION);
    out.push(rate);
    out.push(len as u8);
    out.push((len >> 8u32) as u8);
    out.push((len >> 16u32) as u8);
    out.push((len >> 24u32) as u8);
    let ghost header = chart_magic() + seq![CHART_VERSION, rate] + le32_bytes(len);
    assert(out@ =~= header);
    let mut i: usize = 0;
    while i < n
        invariant
            n == payload@.len(),
            i <= n,
            out@ == header + payload@.subrange(0, i as int),
        decreases n - i,
    {
        out.push(payload[i]);
        i = i + 1;
        assert(out@ =~= header + payload@.subrange(0, i as int));
    }
    assert(payload@.subrange(0, n as int) =~= payload@);
    Ok(out)
}

/// Reads a chart file back into its payload and rate.
pub fn decode_chart(bytes: &Vec<u8>) -> (r: Result<(Vec<u8>, u8), ChartError>)
    ensures
        match r {
            Ok((payload, rate)) => parse_chart(bytes@) == Ok::<(Seq<u8>, u8), ChartError>((payload@, rate)),
            Err(e) => parse_chart(bytes@) == Err::<(Seq<u8>, u8), ChartError>(e),
        },
{
    let n = bytes.len();
    if n < 4 {
        return Err(ChartError::Truncated);
    }
    let marked = bytes[0] == MAGIC_0 && bytes[1] == MAGIC_1 && bytes[2] == MAGIC_2 && bytes[3] == MAGIC_3;
    assert(marked == (bytes@.subrange(0, 4) == chart_magic())) by {
        if marked {
            assert(bytes@.subrange(0, 4) =~= chart_magic());
        }
        if bytes@.subrange(0, 4) == chart_magic() {
            assert(bytes@.subrange(0, 4)[1] == MAGIC_1);
            assert(bytes@.subrange(0, 4)[2] == MAGIC_2);
            assert(bytes@.subrange(0, 4)[3] == MAGIC_3);
        }
    }
    if !marked {
        return Err(ChartError::UnsupportedVersion);
    }
    if n < 5 {
        return Err(ChartError::Truncated);
    }
    if bytes[4] != CHART_VERSION {
        return Err(ChartError::UnsupportedVersion);
    }
    if n < CHART_HEADER_LEN {
        return Err(ChartError::Truncated);
    }
    let declared: u32 = (bytes[6] as u32) | ((bytes[7] as u32) << 8u32) | ((bytes[8] as u32) << 16u32)
        | ((bytes[9] as u32) << 24u32);
    assert(declared == le32_at(bytes@, 6));
    if declared as u64 != (n - CHART_HEADER_LEN) as u64 {
        return Err(ChartError::Truncated);
    }
    let mut payload: Vec<u8> = Vec::new();
    let mut i: usize = CHART_HEADER_LEN;
    while i < n
        invariant
            n == bytes@.len(),
            CHART_HEADER_LEN <= i <= n,
            payload@ == bytes@.subrange(CHART_HEADER_LEN as int, i as int),
        decreases n - i,
    {
        payload.push(bytes[i]);
        i = i + 1;
        assert(payload@ =~= bytes@.subrange(CHART_HEADER_LEN as int, i as int));
    }
    Ok((payload, bytes[5]))
}

} // verus!
