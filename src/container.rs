//! Building a complete container (header, padded payload, checksum) and
//! validating one.
use vstd::prelude::*;
use crate::header::{header_bytes, header_of, copy_range, lemma_parse_serialized, HeaderField,
    HeaderView, OtaError, OtaHeader, HEADER_LEN, MAGIC_WORD, NAME_LEN, RESERVED_LEN, VERSION_LEN,
    CRC_OFFSET};
use crate::le::{le_bytes, push_le};
use crate::outside::{rfc3339_of, utc_rfc3339, x25_checksum, x25_of};

verus! {

/// Payload bytes are padded to a multiple of this.
pub const PAYLOAD_ALIGN: usize = 8;
/// The fill byte of the padding (erased flash).
pub const PAD_BYTE: u8 = 0xFF;
/// The first byte that the checksum covers.
pub const CHECKSUM_START: usize = 6;
/// The longest payload whose padded length fits the header's `size` field.
pub const MAX_PAYLOAD_LEN: usize = 0xFFFF_FFF8;

/// The smallest multiple of 8 that is at least `n`.
pub open spec fn padded_len(n: nat) -> nat {
    if n % 8 == 0 {
        n
    } else {
        (n + 8 - n % 8) as nat
    }
}

/// `p` followed by `PAD_BYTE` up to the next multiple of 8.
pub open spec fn padded(p: Seq<u8>) -> Seq<u8> {
    p + Seq::new((padded_len(p.len()) - p.len()) as nat, |_i: int| PAD_BYTE)
}

/// `s` followed by zeros up to `width` bytes.
pub open spec fn zero_field(s: Seq<u8>, width: nat) -> Seq<u8> {
    s + Seq::new((width - s.len()) as nat, |_i: int| 0u8)
}

/// `s` without its trailing zero bytes.
pub open spec fn trim_zeros(s: Seq<u8>) -> Seq<u8>
    decreases s.len(),
{
    if s.len() > 0 && s.last() == 0 {
        trim_zeros(s.drop_last())
    } else {
        s
    }
}

/// The error, if any, that encoding reports for these strings.
pub open spec fn field_error(project_name: Seq<u8>, version: Seq<u8>) -> Option<OtaError> {
    if project_name.len() >= NAME_LEN {
        Some(OtaError::FieldTooLong(HeaderField::ProjectName))
    } else if version.len() >= VERSION_LEN {
        Some(OtaError::FieldTooLong(HeaderField::Version))
    } else {
        None
    }
}

/// The header that encoding builds, with the checksum still zero.
pub open spec fn new_header(project_name: Seq<u8>, version: Seq<u8>, timestamp: u64, size: nat) -> HeaderView {
    HeaderView {
        magic_word: MAGIC_WORD,
        crc: 0,
        version: zero_field(version, VERSION_LEN as nat),
        project_name: zero_field(project_name, NAME_LEN as nat),
        timestamp,
        size: size as u32,
        reserved: Seq::new(RESERVED_LEN as nat, |_i: int| 0u8),
    }
}

/// Header and padded payload, before the checksum is patched in.
pub open spec fn unsigned_container(project_name: Seq<u8>, version: Seq<u8>, payload: Seq<u8>, timestamp: u64) -> Seq<u8> {
    header_bytes(new_header(project_name, version, timestamp, padded_len(payload.len())))
        + padded(payload)
}

/// The bytes from `CHECKSUM_START` on: what the checksum covers.
pub open spec fn checksum_region(c: Seq<u8>) -> Seq<u8> {
    c.subrange(CHECKSUM_START as int, c.len() as int)
}

/// `buf` with `crc` written little-endian over bytes 4 and 5.
pub open spec fn with_checksum(buf: Seq<u8>, crc: u16) -> Seq<u8> {
    buf.subrange(0, 4) + le_bytes(crc as nat, 2) + checksum_region(buf)
}

/// The finished container.
pub open spec fn container(project_name: Seq<u8>, version: Seq<u8>, payload: Seq<u8>, timestamp: u64) -> Seq<u8> {
    let u = unsigned_container(project_name, version, payload, timestamp);
    with_checksum(u, x25_of(checksum_region(u)))
}

/// `payload` followed by `PAD_BYTE` up to the next multiple of 8.
pub fn pad_payload(payload: &[u8]) -> (r: Vec<u8>)
    requires
        payload@.len() <= MAX_PAYLOAD_LEN,
    ensures
        r@ == padded(payload@),
{
    let mut r = copy_range(payload, 0, payload.len());
    while r.len() % PAYLOAD_ALIGN != 0
        invariant
            payload@.len() <= r@.len() <= padded_len(payload@.len()),
            r@.len() <= MAX_PAYLOAD_LEN,
            r@ == payload@ + Seq::new((r@.len() - payload@.len()) as nat, |_i: int| PAD_BYTE),
        decreases padded_len(payload@.len()) - r@.len(),
    {
        r.push(PAD_BYTE);
        assert(r@ =~= payload@ + Seq::new((r@.len() - payload@.len()) as nat, |_i: int| PAD_BYTE));
    }
    assert(r@.len() == padded_len(payload@.len()));
    r
}

/// `s` followed by zeros up to `width` bytes.
fn zero_padded(s: &[u8], width: usize) -> (r: Vec<u8>)
    requires
        s@.len() <= width,
    ensures
        r@ == zero_field(s@, width as nat),
{
    let mut r = copy_range(s, 0, s.len());
    while r.len() < width
        invariant
            s@.len() <= r@.len() <= width,
            r@ == s@ + Seq::new((r@.len() - s@.len()) as nat, |_i: int| 0u8),
        decreases width - r@.len(),
    {
        r.push(0u8);
        assert(r@ =~= s@ + Seq::new((r@.len() - s@.len()) as nat, |_i: int| 0u8));
    }
    r
}

/// Header (checksum zero) followed by the padded payload; fails where a
/// string does not fit its field with its terminating zero.
pub fn build_unsigned(project_name: &[u8], version: &[u8], payload: &[u8], timestamp: u64) -> (r: Result<Vec<u8>, OtaError>)
    requires
        payload@.len() <= MAX_PAYLOAD_LEN,
    ensures
        match r {
            Ok(c) => field_error(project_name@, version@) is None
                && c@ == unsigned_container(project_name@, version@, payload@, timestamp),
            Err(e) => field_error(project_name@, version@) == Some(e),
        },
{
    if project_name.len() >= NAME_LEN {
        return Err(OtaError::FieldTooLong(HeaderField::ProjectName));
    }
    if version.len() >= VERSION_LEN {
        return Err(OtaError::FieldTooLong(HeaderField::Version));
    }
    let body = pad_payload(payload);
    let h = OtaHeader {
        magic_word: MAGIC_WORD,
        crc: 0,
        version: zero_padded(version, VERSION_LEN),
        project_name: zero_padded(project_name, NAME_LEN),
        timestamp,
        size: body.len() as u32,
        reserved: vec![0u8; RESERVED_LEN],
    };
    assert(h.reserved@ =~= Seq::new(RESERVED_LEN as nat, |_i: int| 0u8));
    assert(body@.len() == padded_len(payload@.len()));
    assert(h@ == new_header(project_name@, version@, timestamp, padded_len(payload@.len())));
    let mut out = h.serialize();
    out.extend_from_slice(body.as_slice());
    Ok(out)
}

/// Writes `crc` little-endian over bytes 4 and 5 of `buf`.
pub fn patch_checksum(buf: &mut Vec<u8>, crc: u16)
    requires
        old(buf)@.len() >= CHECKSUM_START,
    ensures
        final(buf)@ == with_checksum(old(buf)@, crc),
{
    let mut bytes: Vec<u8> = Vec::with_capacity(2);
    push_le(&mut bytes, crc as u64, 2);
    proof {
        crate::le::lemma_le_bytes_len(crc as nat, 2);
    }
    buf.set(CRC_OFFSET, bytes[0]);
    buf.set(CRC_OFFSET + 1, bytes[1]);
    assert(buf@ =~= with_checksum(old(buf)@, crc));
}

/// Builds the container for a firmware payload: a header naming the project,
/// version and build time, the payload padded with `PAD_BYTE` to a multiple
/// of 8, and the checksum of everything from byte 6 on stored at bytes 4-5.
pub fn encode(project_name: &[u8], version: &[u8], payload: &[u8], timestamp: u64) -> (r: Result<Vec<u8>, OtaError>)
    requires
        payload@.len() <= MAX_PAYLOAD_LEN,
    ensures
        match r {
            Ok(c) => field_error(project_name@, version@) is None
                && c@ == container(project_name@, version@, payload@, timestamp),
            Err(e) => field_error(project_name@, version@) == Some(e),
        },
{
    let mut buf = build_unsigned(project_name, version, payload, timestamp)?;
    proof {
        lemma_parse_serialized(new_header(project_name@, version@, timestamp, padded_len(payload@.len())));
    }
    let crc = x25_checksum(vstd::slice::slice_subrange(buf.as_slice(), CHECKSUM_START, buf.len()));
    patch_checksum(&mut buf, crc);
    Ok(buf)
}

} // verus!

verus! {

/// What a valid container says of itself.
pub struct Summary {
    /// The project name, trailing zero bytes removed.
    pub project_name: Vec<u8>,
    /// The version string, trailing zero bytes removed.
    pub version: Vec<u8>,
    /// Seconds since the Unix epoch at encode time.
    pub timestamp: u64,
    /// `timestamp` as RFC 3339 text, or "Unknown" where it is out of range.
    pub build_time: String,
    /// Payload length in bytes.
    pub size: u32,
}

/// The outcome of validating `c` when the checksum over
/// `checksum_region(c)` is `actual`: length first, then magic word, then
/// checksum.
pub open spec fn verdict(c: Seq<u8>, actual: u16) -> Result<(), OtaError> {
    if c.len() < HEADER_LEN {
        Err(OtaError::TooShort)
    } else if header_of(c).magic_word != MAGIC_WORD {
        Err(OtaError::BadMagic)
    } else if header_of(c).crc != actual {
        Err(OtaError::ChecksumMismatch { expected: header_of(c).crc, actual })
    } else {
        Ok(())
    }
}

/// The outcome of validating `c`.
pub open spec fn container_verdict(c: Seq<u8>) -> Result<(), OtaError> {
    verdict(c, x25_of(checksum_region(c)))
}

/// The text shown for a build time.
pub open spec fn time_text(timestamp: u64) -> Seq<char> {
    match rfc3339_of(timestamp as i64 as int) {
        Some(t) => t,
        None => "Unknown"@,
    }
}

/// What decoding reports of a container that passed validation.
pub open spec fn summary_of(s: Summary, c: Seq<u8>) -> bool {
    &&& s.project_name@ == trim_zeros(header_of(c).project_name)
    &&& s.version@ == trim_zeros(header_of(c).version)
    &&& s.timestamp == header_of(c).timestamp
    &&& s.build_time@ == time_text(s.timestamp)
    &&& s.size == header_of(c).size
}

/// The bytes of `s` without its trailing zeros.
pub fn trim_trailing_zeros(s: &[u8]) -> (r: Vec<u8>)
    ensures
        r@ == trim_zeros(s@),
{
    let mut end: usize = s.len();
    assert(s@.subrange(0, end as int) =~= s@);
    while end > 0 && s[end - 1] == 0
        invariant
            end <= s@.len(),
            trim_zeros(s@.subrange(0, end as int)) == trim_zeros(s@),
        decreases end,
    {
        assert(s@.subrange(0, end as int).drop_last() =~= s@.subrange(0, end - 1));
        end = end - 1;
    }
    copy_range(s, 0, end)
}

/// The RFC 3339 text of a build time, or "Unknown" where it is out of range.
pub fn build_time_text(timestamp: u64) -> (r: String)
    ensures
        r@ == time_text(timestamp),
{
    match utc_rfc3339(timestamp as i64) {
        Some(t) => t,
        None => {
            proof {
                reveal_strlit("Unknown");
            }
            "Unknown".to_owned()
        },
    }
}

pub proof fn lemma_header_of_prefix(c: Seq<u8>)
    requires
        c.len() >= HEADER_LEN,
    ensures
        header_of(c.subrange(0, HEADER_LEN as int)) == header_of(c),
{
    let p = c.subrange(0, HEADER_LEN as int);
    assert(p.subrange(0, 4) =~= c.subrange(0, 4));
    assert(p.subrange(4, 6) =~= c.subrange(4, 6));
    assert(p.subrange(6, 38) =~= c.subrange(6, 38));
    assert(p.subrange(38, 54) =~= c.subrange(38, 54));
    assert(p.subrange(54, 62) =~= c.subrange(54, 62));
    assert(p.subrange(62, 66) =~= c.subrange(62, 66));
    assert(p.subrange(66, 512) =~= c.subrange(66, 512));
}

/// Validates a container whose checksum over `checksum_region` is `actual`
/// and reports its summary.
pub fn decode_with_checksum(c: &[u8], actual: u16) -> (r: Result<Summary, OtaError>)
    ensures
        match r {
            Ok(s) => verdict(c@, actual) is Ok && summary_of(s, c@),
            Err(e) => verdict(c@, actual) == Err::<(), OtaError>(e),
        },
{
    let h = OtaHeader::parse(c)?;
    proof {
        lemma_header_of_prefix(c@);
    }
    if h.magic_word != MAGIC_WORD {
        return Err(OtaError::BadMagic);
    }
    if h.crc != actual {
        return Err(OtaError::ChecksumMismatch { expected: h.crc, actual });
    }
    Ok(Summary {
        project_name: trim_trailing_zeros(h.project_name.as_slice()),
        version: trim_trailing_zeros(h.version.as_slice()),
        timestamp: h.timestamp,
        build_time: build_time_text(h.timestamp),
        size: h.size,
    })
}

/// Validates a container (length, then magic word, then checksum of
/// everything from byte 6 on) and reports its summary.
pub fn decode(c: &[u8]) -> (r: Result<Summary, OtaError>)
    ensures
        match r {
            Ok(s) => container_verdict(c@) is Ok && summary_of(s, c@),
            Err(e) => container_verdict(c@) == Err::<(), OtaError>(e),
        },
{
    if c.len() < HEADER_LEN {
        return Err(OtaError::TooShort);
    }
    let actual = x25_checksum(vstd::slice::slice_subrange(c, CHECKSUM_START, c.len()));
    decode_with_checksum(c, actual)
}

} // verus!
