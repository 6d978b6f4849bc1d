//! A complete chunk: length, type tag, payload and CRC-32, with its wire form.

use vstd::prelude::*;
use vstd::utf8::{decode_utf8, valid_utf8};

use crate::chunk_type::{all_alpha, tag_from_bytes, ChunkType, ChunkTypeError};
use crate::text::string_from_utf8;

verus! {

/// The CRC-32/ISO-HDLC checksum of `bytes`.
pub uninterp spec fn crc32_iso_hdlc(bytes: Seq<u8>) -> u32;

/// Relies on crc's `Crc::<u32>::checksum` with the `CRC_32_ISO_HDLC` algorithm:
/// the checksum depends on the bytes alone.
#[verifier::external_body]
fn checksum(bytes: &[u8]) -> (r: u32)
    ensures
        r == crc32_iso_hdlc(bytes@),
{
    crc::Crc::<u32>::new(&crc::CRC_32_ISO_HDLC).checksum(bytes)
}

/// The four big-endian bytes of `x`.
pub open spec fn be_bytes(x: u32) -> Seq<u8> {
    seq![
        (x / 0x100_0000) as u8,
        ((x / 0x1_0000) % 0x100) as u8,
        ((x / 0x100) % 0x100) as u8,
        (x % 0x100) as u8,
    ]
}

/// The number whose big-endian bytes are the first four of `b`.
pub open spec fn be_value(b: Seq<u8>) -> u32 {
    (b[0] * 0x100_0000 + b[1] * 0x1_0000 + b[2] * 0x100 + b[3]) as u32
}

/// Reading back the big-endian bytes of a number gives the number.
pub proof fn lemma_be_value_of_bytes(x: u32)
    ensures
        be_value(be_bytes(x)) == x,
{
    let b = be_bytes(x);
    assert(x / 0x100_0000 < 0x100) by (bit_vector);
    assert((x / 0x100_0000) * 0x100_0000 + ((x / 0x1_0000) % 0x100) * 0x1_0000 + ((x / 0x100)
        % 0x100) * 0x100 + x % 0x100 == x) by (bit_vector);
    assert(b[0] == x / 0x100_0000);
}

/// Four bytes are the big-endian bytes of the number they spell.
pub proof fn lemma_bytes_of_be_value(b: Seq<u8>)
    requires
        b.len() == 4,
    ensures
        be_bytes(be_value(b)) == b,
{
    let (b0, b1, b2, b3) = (b[0], b[1], b[2], b[3]);
    let v = be_value(b);
    assert(v == (b0 as u32) * 0x100_0000 + (b1 as u32) * 0x1_0000 + (b2 as u32) * 0x100
        + (b3 as u32)) by (nonlinear_arith)
        requires
            v == (b0 * 0x100_0000 + b1 * 0x1_0000 + b2 * 0x100 + b3) as u32,
            b0 < 0x100 && b1 < 0x100 && b2 < 0x100 && b3 < 0x100,
    ;
    assert(v / 0x100_0000 == b0 && (v / 0x1_0000) % 0x100 == b1 && (v / 0x100) % 0x100 == b2
        && v % 0x100 == b3) by (bit_vector)
        requires
            v == (b0 as u32) * 0x100_0000 + (b1 as u32) * 0x1_0000 + (b2 as u32) * 0x100 + (b3 as u32),
    ;
    assert(be_bytes(v) =~= b);
}

/// What a chunk holds, as mathematical values.
pub struct ChunkView {
    pub length: u32,
    pub chunk_type: Seq<u8>,
    pub data: Seq<u8>,
    pub crc: u32,
}

/// The chunk made of a tag and a payload, with its length and checksum computed.
pub open spec fn built(tag: Seq<u8>, data: Seq<u8>) -> ChunkView {
    ChunkView { length: data.len() as u32, chunk_type: tag, data, crc: crc32_iso_hdlc(tag + data) }
}

/// The wire form of a chunk: length, tag, payload, checksum.
pub open spec fn serialized(c: ChunkView) -> Seq<u8> {
    be_bytes(c.length) + c.chunk_type + c.data + be_bytes(c.crc)
}

/// What parsing `b` gives: the chunk at its start, or the first error met.
pub open spec fn parsed(b: Seq<u8>) -> Result<ChunkView, ChunkError> {
    if b.len() < 8 {
        Err(ChunkError::ReadError)
    } else {
        let length = be_value(b.subrange(0, 4));
        let tag = b.subrange(4, 8);
        match tag_from_bytes(tag) {
            Err(e) => Err(ChunkError::InvalidChunkType(e)),
            Ok(_) => if b.len() < 12 + length {
                Err(ChunkError::ReadError)
            } else {
                let data = b.subrange(8, 8 + length);
                let crc = be_value(b.subrange(8 + length, 12 + length));
                if crc != crc32_iso_hdlc(tag + data) {
                    Err(ChunkError::InvalidCrc)
                } else {
                    Ok(ChunkView { length, chunk_type: tag, data, crc })
                }
            },
        }
    }
}

/// `b` with bit `k` of byte `pos` inverted.
pub open spec fn flip_bit(b: Seq<u8>, pos: int, k: u8) -> Seq<u8> {
    b.update(pos, b[pos] ^ (1u8 << k))
}

/// Parsing the wire form of a chunk built from a four-letter tag and a
/// payload gives that chunk back, checksum included.
pub proof fn lemma_round_trip(tag: Seq<u8>, data: Seq<u8>)
    requires
        all_alpha(tag),
        data.len() <= u32::MAX,
    ensures
        parsed(serialized(built(tag, data))) == Ok::<ChunkView, ChunkError>(built(tag, data)),
{
    let c = built(tag, data);
    let w = serialized(c);
    let n = data.len() as int;
    lemma_be_value_of_bytes(c.length);
    lemma_be_value_of_bytes(c.crc);
    assert(w.subrange(0, 4) =~= be_bytes(c.length));
    assert(w.subrange(4, 8) =~= tag);
    assert(w.subrange(8, 8 + n) =~= data);
    assert(w.subrange(8 + n, 12 + n) =~= be_bytes(c.crc));
}

/// Inverting any one bit of the checksum field in the wire form of a chunk
/// built from a four-letter tag and a payload makes parsing fail with `InvalidCrc`.
pub proof fn lemma_crc_bit_flip_detected(tag: Seq<u8>, data: Seq<u8>, i: int, k: u8)
    requires
        all_alpha(tag),
        data.len() <= u32::MAX,
        0 <= i < 4,
        k < 8,
    ensures
        parsed(flip_bit(serialized(built(tag, data)), 8 + data.len() + i, k)) == Err::<
            ChunkView,
            ChunkError,
        >(ChunkError::InvalidCrc),
{
    let c = built(tag, data);
    let w = serialized(c);
    let n = data.len() as int;
    let f = flip_bit(w, 8 + n + i, k);
    lemma_be_value_of_bytes(c.length);
    assert(f.subrange(0, 4) =~= be_bytes(c.length));
    assert(f.subrange(4, 8) =~= tag);
    assert(f.subrange(8, 8 + n) =~= data);
    let stored = f.subrange(8 + n, 12 + n);
    let orig = be_bytes(c.crc);
    let byte = orig[i];
    assert(stored =~= orig.update(i, byte ^ (1u8 << k)));
    assert(byte ^ (1u8 << k) != byte) by (bit_vector)
        requires
            k < 8,
    ;
    if be_value(stored) == c.crc {
        lemma_bytes_of_be_value(stored);
        assert(stored[i] != orig[i]);
    }
}

/// Cutting the wire form of a chunk built from a four-letter tag and a
/// payload anywhere before its end makes parsing fail with `ReadError`.
pub proof fn lemma_truncation_detected(tag: Seq<u8>, data: Seq<u8>, n: int)
    requires
        all_alpha(tag),
        data.len() <= u32::MAX,
        0 <= n < 12 + data.len(),
    ensures
        parsed(serialized(built(tag, data)).take(n)) == Err::<ChunkView, ChunkError>(
            ChunkError::ReadError,
        ),
{
    let c = built(tag, data);
    let t = serialized(c).take(n);
    lemma_be_value_of_bytes(c.length);
    if n >= 8 {
        assert(t.subrange(0, 4) =~= be_bytes(c.length));
        assert(t.subrange(4, 8) =~= tag);
    }
}

/// True when `r` is what parsing `b` gives.
pub open spec fn is_parse_of(b: Seq<u8>, r: Result<Chunk, ChunkError>) -> bool {
    match r {
        Ok(c) => parsed(b) == Ok::<ChunkView, ChunkError>(c@),
        Err(e) => parsed(b) == Err::<ChunkView, ChunkError>(e),
    }
}

/// Why a chunk could not be read.
#[derive(Debug, Clone, PartialEq, Eq)]
pub enum ChunkError {
    /// The input ended before the chunk did.
    ReadError,
    /// The declared length does not fit the length field. Parsing never
    /// gives it: a length read from four bytes always fits.
    MaxLengthError,
    /// The type tag is not four ASCII letters.
    InvalidChunkType(ChunkTypeError),
    /// The payload read (first) is not as long as declared (second).
    /// Parsing never gives it: a payload is read whole or not at all.
    InvalidChunkData(usize, usize),
    /// The stored checksum is not the checksum of the tag and payload.
    InvalidCrc,
}

/// A chunk whose length and checksum agree with its tag and payload.
#[derive(Debug)]
pub struct Chunk {
    length: u32,
    chunk_type: ChunkType,
    chunk_data: Vec<u8>,
    crc: u32,
}

impl View for Chunk {
    type V = ChunkView;

    closed spec fn view(&self) -> ChunkView {
        ChunkView {
            length: self.length,
            chunk_type: self.chunk_type@,
            data: self.chunk_data@,
            crc: self.crc,
        }
    }
}

impl Clone for Chunk {
    fn clone(&self) -> (r: Chunk)
        ensures
            r@ == self@,
    {
        proof {
            use_type_invariant(self);
        }
        let mut chunk_data: Vec<u8> = Vec::new();
        push_all(&mut chunk_data, self.chunk_data.as_slice());
        assert(chunk_data@ =~= self.chunk_data@);
        Chunk { length: self.length, chunk_type: self.chunk_type, chunk_data, crc: self.crc }
    }
}

/// Reads the big-endian number in `bytes[at..at + 4]`.
fn read_be_u32(bytes: &[u8], at: usize) -> (r: u32)
    requires
        at + 4 <= bytes@.len(),
    ensures
        r == be_value(bytes@.subrange(at as int, at + 4)),
{
    let b0 = bytes[at] as u32;
    let b1 = bytes[at + 1] as u32;
    let b2 = bytes[at + 2] as u32;
    let b3 = bytes[at + 3] as u32;
    assert(b0 * 0x100_0000 + b1 * 0x1_0000 + b2 * 0x100 + b3 <= 0xffff_ffff) by (nonlinear_arith)
        requires
            b0 < 0x100 && b1 < 0x100 && b2 < 0x100 && b3 < 0x100,
    ;
    b0 * 0x100_0000 + b1 * 0x1_0000 + b2 * 0x100 + b3
}

/// Appends the four big-endian bytes of `x` to `out`.
fn push_be_u32(out: &mut Vec<u8>, x: u32)
    ensures
        final(out)@ == old(out)@ + be_bytes(x),
{
    out.push((x / 0x100_0000) as u8);
    out.push(((x / 0x1_0000) % 0x100) as u8);
    out.push(((x / 0x100) % 0x100) as u8);
    out.push((x % 0x100) as u8);
    assert(final(out)@ =~= old(out)@ + be_bytes(x));
}

/// Appends `src[lo..hi]` to `out`.
fn push_range(out: &mut Vec<u8>, src: &[u8], lo: usize, hi: usize)
    requires
        lo <= hi <= src@.len(),
    ensures
        final(out)@ == old(out)@ + src@.subrange(lo as int, hi as int),
{
    let mut i: usize = lo;
    while i < hi
        invariant
            lo <= i <= hi <= src@.len(),
            out@ == old(out)@ + src@.subrange(lo as int, i as int),
        decreases hi - i,
    {
        out.push(src[i]);
        i = i + 1;
        assert(out@ =~= old(out)@ + src@.subrange(lo as int, i as int));
    }
}

/// Appends `src` to `out`.
fn push_all(out: &mut Vec<u8>, src: &[u8])
    ensures
        final(out)@ == old(out)@ + src@,
{
    push_range(out, src, 0, src.len());
    assert(src@.subrange(0, src@.len() as int) =~= src@);
}

/// The checksum of a tag followed by a payload.
fn tag_and_data_checksum(chunk_type: &ChunkType, data: &[u8]) -> (r: u32)
    ensures
        r == crc32_iso_hdlc(chunk_type@ + data@),
{
    let mut input: Vec<u8> = Vec::new();
    let tag = chunk_type.bytes();
    push_all(&mut input, &tag);
    push_all(&mut input, data);
    checksum(input.as_slice())
}

impl Chunk {
    #[verifier::type_invariant]
    spec fn consistent(&self) -> bool {
        &&& self.chunk_data@.len() == self.length
        &&& self.crc == crc32_iso_hdlc(self.chunk_type@ + self.chunk_data@)
    }

    /// Builds the chunk of a tag and a payload, computing its checksum.
    pub fn new(chunk_type: ChunkType, chunk_data: Vec<u8>) -> (r: Chunk)
        requires
            chunk_data@.len() <= u32::MAX,
        ensures
            r@ == built(chunk_type@, chunk_data@),
    {
        let length = chunk_data.len() as u32;
        let crc = tag_and_data_checksum(&chunk_type, chunk_data.as_slice());
        Chunk { length, chunk_type, chunk_data, crc }
    }

    /// Accepts a tag, a payload and the checksum stored with them, given the
    /// checksum computed over the tag and payload: the chunk when the two
    /// checksums agree, `InvalidCrc` when they differ.
    pub fn from_checked_parts(
        chunk_type: ChunkType,
        chunk_data: Vec<u8>,
        stored_crc: u32,
        computed_crc: u32,
    ) -> (r: Result<Chunk, ChunkError>)
        requires
            chunk_data@.len() <= u32::MAX,
            computed_crc == crc32_iso_hdlc(chunk_type@ + chunk_data@),
        ensures
            match r {
                Ok(c) => stored_crc == computed_crc && c@ == (ChunkView {
                    length: chunk_data@.len() as u32,
                    chunk_type: chunk_type@,
                    data: chunk_data@,
                    crc: stored_crc,
                }),
                Err(e) => stored_crc != computed_crc && e == ChunkError::InvalidCrc,
            },
    {
        if stored_crc != computed_crc {
            return Err(ChunkError::InvalidCrc);
        }
        let length = chunk_data.len() as u32;
        Ok(Chunk { length, chunk_type, chunk_data, crc: stored_crc })
    }

    /// Reads the chunk at the start of `bytes`, checking its tag and checksum.
    /// Bytes after the chunk are ignored.
    pub fn from_bytes(bytes: &[u8]) -> (r: Result<Chunk, ChunkError>)
        ensures
            is_parse_of(bytes@, r),
    {
        if bytes.len() < 8 {
            return Err(ChunkError::ReadError);
        }
        let length = read_be_u32(bytes, 0);
        let tag_bytes: [u8; 4] = [bytes[4], bytes[5], bytes[6], bytes[7]];
        assert(tag_bytes@ =~= bytes@.subrange(4, 8));
        let chunk_type = match ChunkType::from_bytes(tag_bytes) {
            Ok(t) => t,
            Err(e) => {
                return Err(ChunkError::InvalidChunkType(e));
            },
        };
        if (bytes.len() as u64) < 12 + (length as u64) {
            return Err(ChunkError::ReadError);
        }
        let end: usize = 8 + length as usize;
        let mut chunk_data: Vec<u8> = Vec::new();
        push_range(&mut chunk_data, bytes, 8, end);
        let stored_crc = read_be_u32(bytes, end);
        let computed_crc = tag_and_data_checksum(&chunk_type, chunk_data.as_slice());
        Self::from_checked_parts(chunk_type, chunk_data, stored_crc, computed_crc)
    }

    /// The payload length.
    pub fn length(&self) -> (r: u32)
        ensures
            r == self@.length,
            r == self@.data.len(),
    {
        proof {
            use_type_invariant(self);
        }
        self.length
    }

    /// The type tag.
    pub fn chunk_type(&self) -> (r: &ChunkType)
        ensures
            r@ == self@.chunk_type,
    {
        &self.chunk_type
    }

    /// The payload.
    pub fn data(&self) -> (r: &[u8])
        ensures
            r@ == self@.data,
    {
        self.chunk_data.as_slice()
    }

    /// The stored checksum.
    pub fn crc(&self) -> (r: u32)
        ensures
            r == self@.crc,
            r == crc32_iso_hdlc(self@.chunk_type + self@.data),
    {
        proof {
            use_type_invariant(self);
        }
        self.crc
    }

    /// The payload as text; an error when it is not valid UTF-8.
    pub fn data_as_string(&self) -> (r: Result<String, std::string::FromUtf8Error>)
        ensures
            r is Ok <==> valid_utf8(self@.data),
            r matches Ok(s) ==> s@ == decode_utf8(self@.data),
    {
        let mut copy: Vec<u8> = Vec::new();
        push_all(&mut copy, self.chunk_data.as_slice());
        assert(copy@ =~= self.chunk_data@);
        string_from_utf8(copy)
    }

    /// The wire form of the chunk.
    pub fn as_bytes(&self) -> (r: Vec<u8>)
        ensures
            r@ == serialized(self@),
            r@.len() == 12 + self@.data.len(),
    {
        proof {
            use_type_invariant(self);
        }
        let mut out: Vec<u8> = Vec::new();
        push_be_u32(&mut out, self.length);
        let tag = self.chunk_type.bytes();
        push_all(&mut out, &tag);
        push_all(&mut out, self.chunk_data.as_slice());
        push_be_u32(&mut out, self.crc);
        out
    }
}

impl<'a> TryFrom<&'a [u8]> for Chunk {
    type Error = ChunkError;

    fn try_from(bytes: &'a [u8]) -> (r: Result<Chunk, ChunkError>)
        ensures
            is_parse_of(bytes@, r),
    {
        Chunk::from_bytes(bytes)
    }
}

impl<'a> vstd::std_specs::convert::TryFromSpecImpl<&'a [u8]> for Chunk {
    open spec fn obeys_try_from_spec() -> bool {
        false
    }

    open spec fn try_from_spec(bytes: &'a [u8]) -> Result<Chunk, ChunkError> {
        choose|r: Result<Chunk, ChunkError>| #[trigger] is_parse_of(bytes@, r)
    }
}

} // verus!
