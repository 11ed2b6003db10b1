//! The fixed 512-byte container header: its byte layout, serialisation and
//! parsing.
use vstd::prelude::*;
use crate::le::{le_bytes, le_val, pow256, push_le, read_le, lemma_le_bytes_len,
    lemma_le_val_of_bytes, lemma_le_bytes_of_val, lemma_le_val_bound};

verus! {

pub const HEADER_LEN: usize = 512;
pub const MAGIC_WORD: u32 = 0xABCD5432;

pub const MAGIC_OFFSET: usize = 0;
pub const CRC_OFFSET: usize = 4;
pub const VERSION_OFFSET: usize = 6;
pub const NAME_OFFSET: usize = 38;
pub const TIMESTAMP_OFFSET: usize = 54;
pub const SIZE_OFFSET: usize = 62;
pub const RESERVED_OFFSET: usize = 66;

pub const VERSION_LEN: usize = 32;
pub const NAME_LEN: usize = 16;
pub const RESERVED_LEN: usize = 446;

/// The fixed-size string field that an encode-time string did not fit into.
#[derive(Debug, Clone, Copy, PartialEq, Eq, Structural)]
pub enum HeaderField {
    ProjectName,
    Version,
}

/// Why encoding or decoding failed.
#[derive(Debug, Clone, Copy, PartialEq, Eq, Structural)]
pub enum OtaError {
    /// A name or version string exceeds its field's capacity (the field keeps
    /// one byte for the terminating zero).
    FieldTooLong(HeaderField),
    /// The buffer is shorter than the header.
    TooShort,
    /// The header bytes cannot be read as a header. Every field of the layout
    /// is a plain integer or byte array, so any 512 bytes can be read and
    /// parsing never reports this.
    Malformed,
    /// The magic word is not `MAGIC_WORD`.
    BadMagic,
    /// The stored checksum (`expected`) differs from the one computed over the
    /// container (`actual`).
    ChecksumMismatch { expected: u16, actual: u16 },
}

/// The container header; see `header_bytes` for its layout.
pub struct OtaHeader {
    pub magic_word: u32,
    pub crc: u16,
    /// Zero-terminated, zero-padded; `VERSION_LEN` bytes.
    pub version: Vec<u8>,
    /// Zero-terminated, zero-padded; `NAME_LEN` bytes.
    pub project_name: Vec<u8>,
    /// Seconds since the Unix epoch.
    pub timestamp: u64,
    /// Payload length in bytes, the header not included.
    pub size: u32,
    /// `RESERVED_LEN` bytes.
    pub reserved: Vec<u8>,
}

/// A header as mathematical values.
pub struct HeaderView {
    pub magic_word: u32,
    pub crc: u16,
    pub version: Seq<u8>,
    pub project_name: Seq<u8>,
    pub timestamp: u64,
    pub size: u32,
    pub reserved: Seq<u8>,
}

impl View for OtaHeader {
    type V = HeaderView;

    open spec fn view(&self) -> HeaderView {
        HeaderView {
            magic_word: self.magic_word,
            crc: self.crc,
            version: self.version@,
            project_name: self.project_name@,
            timestamp: self.timestamp,
            size: self.size,
            reserved: self.reserved@,
        }
    }
}

impl HeaderView {
    /// The byte arrays have their fixed lengths.
    pub open spec fn wf(&self) -> bool {
        &&& self.version.len() == VERSION_LEN
        &&& self.project_name.len() == NAME_LEN
        &&& self.reserved.len() == RESERVED_LEN
    }
}

/// The 512 bytes of a header, in layout order.
pub open spec fn header_bytes(h: HeaderView) -> Seq<u8> {
    le_bytes(h.magic_word as nat, 4) + le_bytes(h.crc as nat, 2) + h.version + h.project_name
        + le_bytes(h.timestamp as nat, 8) + le_bytes(h.size as nat, 4) + h.reserved
}

/// The header that the first 512 bytes of `b` spell.
pub open spec fn header_of(b: Seq<u8>) -> HeaderView {
    HeaderView {
        magic_word: le_val(b.subrange(0, 4)) as u32,
        crc: le_val(b.subrange(4, 6)) as u16,
        version: b.subrange(6, 38),
        project_name: b.subrange(38, 54),
        timestamp: le_val(b.subrange(54, 62)) as u64,
        size: le_val(b.subrange(62, 66)) as u32,
        reserved: b.subrange(66, 512),
    }
}

/// Parsing what serialisation wrote gives back the header.
pub proof fn lemma_parse_serialized(h: HeaderView)
    requires
        h.wf(),
    ensures
        header_bytes(h).len() == HEADER_LEN,
        header_of(header_bytes(h)) == h,
{
    let b = header_bytes(h);
    lemma_le_bytes_len(h.magic_word as nat, 4);
    lemma_le_bytes_len(h.crc as nat, 2);
    lemma_le_bytes_len(h.timestamp as nat, 8);
    lemma_le_bytes_len(h.size as nat, 4);
    reveal_with_fuel(pow256, 9);
    lemma_le_val_of_bytes(h.magic_word as nat, 4);
    lemma_le_val_of_bytes(h.crc as nat, 2);
    lemma_le_val_of_bytes(h.timestamp as nat, 8);
    lemma_le_val_of_bytes(h.size as nat, 4);
    assert(b.subrange(0, 4) =~= le_bytes(h.magic_word as nat, 4));
    assert(b.subrange(4, 6) =~= le_bytes(h.crc as nat, 2));
    assert(b.subrange(6, 38) =~= h.version);
    assert(b.subrange(38, 54) =~= h.project_name);
    assert(b.subrange(54, 62) =~= le_bytes(h.timestamp as nat, 8));
    assert(b.subrange(62, 66) =~= le_bytes(h.size as nat, 4));
    assert(b.subrange(66, 512) =~= h.reserved);
}

/// Serialising a parsed header gives back the bytes it was parsed from.
pub proof fn lemma_serialize_parsed(b: Seq<u8>)
    requires
        b.len() == HEADER_LEN,
    ensures
        header_of(b).wf(),
        header_bytes(header_of(b)) == b,
{
    let h = header_of(b);
    reveal_with_fuel(pow256, 9);
    lemma_le_val_bound(b.subrange(0, 4));
    lemma_le_val_bound(b.subrange(4, 6));
    lemma_le_val_bound(b.subrange(54, 62));
    lemma_le_val_bound(b.subrange(62, 66));
    lemma_le_bytes_of_val(b.subrange(0, 4));
    lemma_le_bytes_of_val(b.subrange(4, 6));
    lemma_le_bytes_of_val(b.subrange(54, 62));
    lemma_le_bytes_of_val(b.subrange(62, 66));
    assert(header_bytes(h) =~= b);
}

/// Copies `n` bytes of `b` starting at `start`.
pub fn copy_range(b: &[u8], start: usize, n: usize) -> (r: Vec<u8>)
    requires
        start + n <= b@.len(),
    ensures
        r@ == b@.subrange(start as int, start + n),
{
    let len = b.len();
    let mut r: Vec<u8> = Vec::with_capacity(n);
    let mut i: usize = 0;
    while i < n
        invariant
            i <= n,
            start + n <= b@.len(),
            b@.len() == len,
            r@ == b@.subrange(start as int, start + i),
        decreases n - i,
    {
        r.push(b[start + i]);
        i = i + 1;
        assert(r@ =~= b@.subrange(start as int, start + i));
    }
    r
}

impl OtaHeader {
    /// The header as its 512 bytes: integers little-endian, byte arrays as
    /// they stand.
    pub fn serialize(&self) -> (r: Vec<u8>)
        requires
            self@.wf(),
        ensures
            r@ == header_bytes(self@),
            r@.len() == HEADER_LEN,
    {
        let mut out: Vec<u8> = Vec::with_capacity(HEADER_LEN);
        push_le(&mut out, self.magic_word as u64, 4);
        push_le(&mut out, self.crc as u64, 2);
        out.extend_from_slice(self.version.as_slice());
        out.extend_from_slice(self.project_name.as_slice());
        push_le(&mut out, self.timestamp, 8);
        push_le(&mut out, self.size as u64, 4);
        out.extend_from_slice(self.reserved.as_slice());
        proof {
            lemma_parse_serialized(self@);
            assert(out@ =~= header_bytes(self@));
        }
        out
    }

    /// Reads a header from the first 512 bytes of `b`. Checks neither the
    /// magic word nor the checksum.
    pub fn parse(b: &[u8]) -> (r: Result<OtaHeader, OtaError>)
        ensures
            b@.len() < HEADER_LEN <==> r == Err::<OtaHeader, OtaError>(OtaError::TooShort),
            r is Ok <==> b@.len() >= HEADER_LEN,
            r matches Ok(h) ==> h@ == header_of(b@.subrange(0, HEADER_LEN as int)) && h@.wf(),
    {
        if b.len() < HEADER_LEN {
            return Err(OtaError::TooShort);
        }
        let magic_word = read_le(b, MAGIC_OFFSET, 4);
        let crc = read_le(b, CRC_OFFSET, 2);
        let timestamp = read_le(b, TIMESTAMP_OFFSET, 8);
        let size = read_le(b, SIZE_OFFSET, 4);
        let ghost head = b@.subrange(0, HEADER_LEN as int);
        proof {
            reveal_with_fuel(pow256, 9);
            lemma_le_val_bound(b@.subrange(0, 4));
            lemma_le_val_bound(b@.subrange(4, 6));
            lemma_le_val_bound(b@.subrange(62, 66));
            assert(head.subrange(0, 4) =~= b@.subrange(0, 4));
            assert(head.subrange(4, 6) =~= b@.subrange(4, 6));
            assert(head.subrange(54, 62) =~= b@.subrange(54, 62));
            assert(head.subrange(62, 66) =~= b@.subrange(62, 66));
            assert(head.subrange(6, 38) =~= b@.subrange(6, 38));
            assert(head.subrange(38, 54) =~= b@.subrange(38, 54));
            assert(head.subrange(66, 512) =~= b@.subrange(66, 512));
        }
        let h = OtaHeader {
            magic_word: magic_word as u32,
            crc: crc as u16,
            version: copy_range(b, VERSION_OFFSET, VERSION_LEN),
            project_name: copy_range(b, NAME_OFFSET, NAME_LEN),
            timestamp,
            size: size as u32,
            reserved: copy_range(b, RESERVED_OFFSET, RESERVED_LEN),
        };
        Ok(h)
    }
}

} // verus!
