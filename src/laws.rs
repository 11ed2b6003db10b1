//! Properties that relate encoding and decoding.
use vstd::prelude::*;
use crate::container::{lemma_header_of_prefix, checksum_region, container, container_verdict, new_header, padded,
    padded_len, trim_zeros, unsigned_container, verdict, with_checksum, zero_field, PAD_BYTE,
    MAX_PAYLOAD_LEN};
use crate::header::{header_bytes, header_of, lemma_parse_serialized, HeaderView, OtaError,
    HEADER_LEN, MAGIC_WORD, NAME_LEN, VERSION_LEN};
use crate::le::{le_bytes, pow256, lemma_le_bytes_len, lemma_le_val_of_bytes};
use crate::outside::x25_of;

verus! {

proof fn lemma_trim_zero_field(s: Seq<u8>, width: nat)
    requires
        s.len() <= width,
        s.len() == 0 || s.last() != 0,
    ensures
        trim_zeros(zero_field(s, width)) == s,
    decreases width - s.len(),
{
    if width > s.len() {
        let z = zero_field(s, width);
        assert(z.drop_last() =~= zero_field(s, (width - 1) as nat));
        lemma_trim_zero_field(s, (width - 1) as nat);
    } else {
        assert(zero_field(s, width) =~= s);
    }
}

/// Header fields read from `c` agree with those read from `d` where the two
/// agree on the header's first 512 bytes, save bytes 4 and 5.
proof fn lemma_same_fields_but_crc(c: Seq<u8>, d: Seq<u8>)
    requires
        c.len() >= HEADER_LEN,
        d.len() >= HEADER_LEN,
        c.subrange(0, 4) == d.subrange(0, 4),
        c.subrange(6, 512) == d.subrange(6, 512),
    ensures
        header_of(c).magic_word == header_of(d).magic_word,
        header_of(c).version == header_of(d).version,
        header_of(c).project_name == header_of(d).project_name,
        header_of(c).timestamp == header_of(d).timestamp,
        header_of(c).size == header_of(d).size,
        header_of(c).reserved == header_of(d).reserved,
{
    assert(c.subrange(6, 38) =~= c.subrange(6, 512).subrange(0, 32));
    assert(d.subrange(6, 38) =~= d.subrange(6, 512).subrange(0, 32));
    assert(c.subrange(38, 54) =~= c.subrange(6, 512).subrange(32, 48));
    assert(d.subrange(38, 54) =~= d.subrange(6, 512).subrange(32, 48));
    assert(c.subrange(54, 62) =~= c.subrange(6, 512).subrange(48, 56));
    assert(d.subrange(54, 62) =~= d.subrange(6, 512).subrange(48, 56));
    assert(c.subrange(62, 66) =~= c.subrange(6, 512).subrange(56, 60));
    assert(d.subrange(62, 66) =~= d.subrange(6, 512).subrange(56, 60));
    assert(c.subrange(66, 512) =~= c.subrange(6, 512).subrange(60, 506));
    assert(d.subrange(66, 512) =~= d.subrange(6, 512).subrange(60, 506));
}

/// Before the checksum is patched in, the header reads back as built and the
/// padded payload follows it.
proof fn lemma_unsigned_header(project_name: Seq<u8>, version: Seq<u8>, payload: Seq<u8>, timestamp: u64)
    requires
        project_name.len() < NAME_LEN,
        version.len() < VERSION_LEN,
    ensures
        ({
            let u = unsigned_container(project_name, version, payload, timestamp);
            &&& u.len() == HEADER_LEN + padded_len(payload.len())
            &&& u.subrange(HEADER_LEN as int, u.len() as int) == padded(payload)
            &&& header_of(u) == new_header(project_name, version, timestamp, padded_len(payload.len()))
        }),
{
    let u = unsigned_container(project_name, version, payload, timestamp);
    let h = new_header(project_name, version, timestamp, padded_len(payload.len()));
    lemma_parse_serialized(h);
    assert(u.subrange(0, 512) =~= header_bytes(h));
    assert(u.subrange(HEADER_LEN as int, u.len() as int) =~= padded(payload));
    lemma_header_of_prefix(u);
}

/// Patching the checksum changes the header's checksum field and nothing else.
proof fn lemma_patched_header(u: Seq<u8>, k: u16)
    requires
        u.len() >= HEADER_LEN,
    ensures
        ({
            let c = with_checksum(u, k);
            &&& c.len() == u.len()
            &&& c.subrange(HEADER_LEN as int, c.len() as int) == u.subrange(HEADER_LEN as int, u.len() as int)
            &&& checksum_region(c) == checksum_region(u)
            &&& header_of(c) == HeaderView { crc: k, ..header_of(u) }
        }),
{
    let c = with_checksum(u, k);
    lemma_le_bytes_len(k as nat, 2);
    assert(c.subrange(0, 4) =~= u.subrange(0, 4));
    assert(c.subrange(6, 512) =~= u.subrange(6, 512));
    assert(checksum_region(c) =~= checksum_region(u));
    assert(c.subrange(HEADER_LEN as int, c.len() as int) =~= u.subrange(HEADER_LEN as int, u.len() as int));
    lemma_same_fields_but_crc(c, u);
    assert(c.subrange(4, 6) =~= le_bytes(k as nat, 2));
    reveal_with_fuel(pow256, 3);
    lemma_le_val_of_bytes(k as nat, 2);
}

/// The header read back from a finished container is the one encoding
/// built, with the checksum of everything from byte 6 on in place.
proof fn lemma_container_header(project_name: Seq<u8>, version: Seq<u8>, payload: Seq<u8>, timestamp: u64)
    requires
        project_name.len() < NAME_LEN,
        version.len() < VERSION_LEN,
    ensures
        ({
            let u = unsigned_container(project_name, version, payload, timestamp);
            let c = container(project_name, version, payload, timestamp);
            let h = new_header(project_name, version, timestamp, padded_len(payload.len()));
            &&& c.len() == u.len() == HEADER_LEN + padded_len(payload.len())
            &&& c.subrange(HEADER_LEN as int, c.len() as int) == padded(payload)
            &&& checksum_region(c) == checksum_region(u)
            &&& header_of(c) == HeaderView { crc: x25_of(checksum_region(u)), ..h }
        }),
{
    let u = unsigned_container(project_name, version, payload, timestamp);
    lemma_unsigned_header(project_name, version, payload, timestamp);
    lemma_patched_header(u, x25_of(checksum_region(u)));
}

/// Decoding an encoded container succeeds and gives back the project name,
/// the version, the timestamp and the padded payload length. A string that
/// ends in a zero byte loses that byte, as decoding strips trailing zeros.
pub proof fn lemma_round_trip(project_name: Seq<u8>, version: Seq<u8>, payload: Seq<u8>, timestamp: u64)
    requires
        project_name.len() < NAME_LEN,
        version.len() < VERSION_LEN,
        project_name.len() == 0 || project_name.last() != 0,
        version.len() == 0 || version.last() != 0,
        payload.len() <= MAX_PAYLOAD_LEN,
    ensures
        ({
            let c = container(project_name, version, payload, timestamp);
            &&& container_verdict(c) is Ok
            &&& trim_zeros(header_of(c).project_name) == project_name
            &&& trim_zeros(header_of(c).version) == version
            &&& header_of(c).timestamp == timestamp
            &&& header_of(c).size as nat == padded_len(payload.len())
        }),
{
    lemma_container_header(project_name, version, payload, timestamp);
    lemma_trim_zero_field(project_name, NAME_LEN as nat);
    lemma_trim_zero_field(version, VERSION_LEN as nat);
}

/// The payload of an encoded container is the input padded to the smallest
/// multiple of 8 at or above its length, with `PAD_BYTE` in every added byte.
pub proof fn lemma_padding(project_name: Seq<u8>, version: Seq<u8>, payload: Seq<u8>, timestamp: u64)
    requires
        project_name.len() < NAME_LEN,
        version.len() < VERSION_LEN,
    ensures
        ({
            let c = container(project_name, version, payload, timestamp);
            let n = padded_len(payload.len());
            &&& n % 8 == 0
            &&& payload.len() <= n < payload.len() + 8
            &&& c.len() == HEADER_LEN + n
            &&& c.subrange(HEADER_LEN as int, HEADER_LEN + payload.len()) == payload
            &&& forall|i: int| HEADER_LEN + payload.len() <= i < c.len() ==> c[i] == PAD_BYTE
        }),
{
    lemma_container_header(project_name, version, payload, timestamp);
    let c = container(project_name, version, payload, timestamp);
    let n = padded_len(payload.len());
    let tail = c.subrange(HEADER_LEN as int, c.len() as int);
    assert(c.subrange(HEADER_LEN as int, HEADER_LEN + payload.len()) =~= tail.subrange(0, payload.len() as int));
    assert(tail.subrange(0, payload.len() as int) =~= payload);
    assert forall|i: int| HEADER_LEN + payload.len() <= i < c.len() implies c[i] == PAD_BYTE by {
        assert(c[i] == tail[i - HEADER_LEN]);
    }
}

/// The magic word is checked before the checksum: a buffer of header length
/// or more whose magic word is wrong fails with `BadMagic`, whatever checksum
/// it carries and whatever its bytes check to.
pub proof fn lemma_magic_before_checksum(c: Seq<u8>, actual: u16)
    requires
        c.len() >= HEADER_LEN,
        header_of(c).magic_word != MAGIC_WORD,
    ensures
        verdict(c, actual) == Err::<(), OtaError>(OtaError::BadMagic),
{
}

/// Bytes 0 to 5 lie outside the checksum. Where `d` differs from a valid
/// container `c` in those bytes alone, a changed magic word fails with
/// `BadMagic`, a changed checksum field with `ChecksumMismatch`, and with
/// both unchanged `d` is valid.
pub proof fn lemma_prefix_outside_checksum(c: Seq<u8>, d: Seq<u8>)
    requires
        container_verdict(c) is Ok,
        d.len() == c.len(),
        checksum_region(d) == checksum_region(c),
    ensures
        header_of(d).magic_word != MAGIC_WORD ==> container_verdict(d) == Err::<(), OtaError>(
            OtaError::BadMagic,
        ),
        header_of(d).magic_word == MAGIC_WORD && header_of(d).crc != header_of(c).crc
            ==> container_verdict(d) == Err::<(), OtaError>(
            OtaError::ChecksumMismatch { expected: header_of(d).crc, actual: header_of(c).crc },
        ),
        header_of(d).magic_word == MAGIC_WORD && header_of(d).crc == header_of(c).crc
            ==> container_verdict(d) is Ok,
{
}

} // verus!
