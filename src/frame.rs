use vstd::prelude::*;

verus! {

/// Marker that opens a frame.
pub const HEAD: u8 = 0x02;

/// Marker that closes a frame.
pub const TAIL: u8 = 0x03;

/// Number of bytes between the head and the tail: the payload and checksum digits.
pub const BODY_LENGTH: usize = 12;

/// Number of hex digits that carry the checksum.
pub const CHECKSUM_LENGTH: usize = 2;

/// Number of raw bytes in a tag identifier.
pub const TAG_LENGTH: usize = 5;

/// The identifier read from a tag.
#[derive(Debug, PartialEq, Eq)]
pub struct RfidTag {
    pub id: [u8; TAG_LENGTH],
}

/// Why a frame was rejected.
#[derive(Debug, Clone, Copy, PartialEq, Eq, Structural)]
pub enum DecodeError {
    InvalidHead,
    InvalidTail,
    InvalidChecksum,
    InvalidData,
}

/// The value of an ASCII hex digit, either case; `None` for any other byte.
pub open spec fn hex_value(c: u8) -> Option<u8> {
    if 0x30 <= c && c <= 0x39 {
        Some((c - 0x30) as u8)
    } else if 0x41 <= c && c <= 0x46 {
        Some((c - 0x41 + 10) as u8)
    } else if 0x61 <= c && c <= 0x66 {
        Some((c - 0x61 + 10) as u8)
    } else {
        None
    }
}

/// The byte written as the two hex digits `hi` and `lo`.
pub open spec fn pair_value(hi: u8, lo: u8) -> u8 {
    (hex_value(hi).unwrap() * 16 + hex_value(lo).unwrap()) as u8
}

/// XOR of all bytes of `s`, folded from the left starting at zero.
pub open spec fn xor_fold(s: Seq<u8>) -> u8
    decreases s.len(),
{
    if s.len() == 0 {
        0
    } else {
        xor_fold(s.drop_last()) ^ s.last()
    }
}

/// Whether every byte of `body` is a hex digit.
pub open spec fn all_hex(body: Seq<u8>) -> bool {
    forall|i: int| 0 <= i < body.len() ==> (#[trigger] hex_value(body[i])).is_some()
}

/// The tag bytes written in the first ten digits of `body`.
pub open spec fn payload_of(body: Seq<u8>) -> Seq<u8> {
    Seq::new(TAG_LENGTH as nat, |i: int| pair_value(body[2 * i], body[2 * i + 1]))
}

/// The checksum byte written in the last two digits of `body`.
pub open spec fn checksum_of(body: Seq<u8>) -> u8 {
    pair_value(body[10], body[11])
}

/// What the twelve bytes between head and tail decode to.
pub open spec fn decode_body(body: Seq<u8>) -> Result<Seq<u8>, DecodeError> {
    if !all_hex(body) {
        Err(DecodeError::InvalidData)
    } else if xor_fold(payload_of(body)) != checksum_of(body) {
        Err(DecodeError::InvalidChecksum)
    } else {
        Ok(payload_of(body))
    }
}

/// The uppercase ASCII hex digit for a nibble `n < 16`.
pub open spec fn hex_digit(n: u8) -> u8 {
    if n < 10 {
        (0x30 + n) as u8
    } else {
        (0x41 + n - 10) as u8
    }
}

/// The two uppercase hex digits of `b`, high nibble first.
pub open spec fn hex_pair(b: u8) -> Seq<u8> {
    seq![hex_digit(b / 16), hex_digit(b % 16)]
}

/// The twelve bytes that carry the five bytes of `id`: their digits, then the
/// digits of their XOR checksum.
pub open spec fn encode_body(id: Seq<u8>) -> Seq<u8> {
    hex_pair(id[0]) + hex_pair(id[1]) + hex_pair(id[2]) + hex_pair(id[3]) + hex_pair(id[4])
        + hex_pair(xor_fold(id))
}

proof fn lemma_hex_digit(n: u8)
    requires
        n < 16,
    ensures
        hex_value(hex_digit(n)) == Some(n),
{
}

proof fn lemma_pair_of_hex_pair(b: u8)
    ensures
        hex_value(hex_pair(b)[0]).is_some(),
        hex_value(hex_pair(b)[1]).is_some(),
        pair_value(hex_pair(b)[0], hex_pair(b)[1]) == b,
{
    lemma_hex_digit(b / 16);
    lemma_hex_digit(b % 16);
}

/// Encoding five bytes as uppercase hex with their checksum, then decoding,
/// gives back the same five bytes.
pub proof fn lemma_round_trip(id: Seq<u8>)
    requires
        id.len() == TAG_LENGTH,
    ensures
        encode_body(id).len() == BODY_LENGTH,
        decode_body(encode_body(id)) == Ok::<Seq<u8>, DecodeError>(id),
{
    let body = encode_body(id);
    assert(body.len() == 12);
    assert forall|k: int| 0 <= k < 6 implies {
        &&& hex_value(body[2 * k]).is_some()
        &&& hex_value(body[2 * k + 1]).is_some()
        &&& pair_value(body[2 * k], body[2 * k + 1]) == if k < 5 {
            id[k]
        } else {
            xor_fold(id)
        }
    } by {
        let b = if k < 5 {
            id[k]
        } else {
            xor_fold(id)
        };
        lemma_pair_of_hex_pair(b);
        assert(body[2 * k] == hex_pair(b)[0]);
        assert(body[2 * k + 1] == hex_pair(b)[1]);
    }
    assert forall|i: int| 0 <= i < body.len() implies (#[trigger] hex_value(body[i])).is_some() by {
        let k = i / 2;
        assert(i == 2 * k || i == 2 * k + 1);
    }
    assert(payload_of(body) =~= id);
}

/// Replacing one checksum digit of a body that decodes by a hex digit of
/// another value makes the body fail with `InvalidChecksum`.
pub proof fn lemma_checksum_digit_changed(body: Seq<u8>, i: int, c: u8)
    requires
        body.len() == BODY_LENGTH,
        decode_body(body) is Ok,
        i == 10 || i == 11,
        hex_value(c).is_some(),
        hex_value(c) != hex_value(body[i]),
    ensures
        decode_body(body.update(i, c)) == Err::<Seq<u8>, DecodeError>(DecodeError::InvalidChecksum),
{
    let changed = body.update(i, c);
    assert forall|j: int| 0 <= j < changed.len() implies (#[trigger] hex_value(changed[j])).is_some() by {
        if j != i {
            assert(hex_value(body[j]).is_some());
        }
    }
    assert(payload_of(changed) =~= payload_of(body));
    assert(hex_value(body[10]).is_some());
    assert(hex_value(body[11]).is_some());
    assert(checksum_of(changed) != checksum_of(body));
}

/// A decoded tag seen as its bytes.
pub open spec fn tag_result(r: Result<RfidTag, DecodeError>) -> Result<Seq<u8>, DecodeError> {
    match r {
        Ok(t) => Ok(t.id@),
        Err(e) => Err(e),
    }
}

/// The value of the hex digit `ascii`, if it is one.
pub fn ascii_encoded_to_value(ascii: u8) -> (r: Option<u8>)
    ensures
        r == hex_value(ascii),
{
    if 0x30 <= ascii && ascii <= 0x39 {
        Some(ascii - 0x30)
    } else if 0x41 <= ascii && ascii <= 0x46 {
        Some(ascii - 0x41 + 10)
    } else if 0x61 <= ascii && ascii <= 0x66 {
        Some(ascii - 0x61 + 10)
    } else {
        None
    }
}

/// The byte written as two hex digits.
fn decode_pair(hi: u8, lo: u8) -> (r: Result<u8, DecodeError>)
    ensures
        (hex_value(hi).is_some() && hex_value(lo).is_some()) ==> r == Ok::<u8, DecodeError>(
            pair_value(hi, lo),
        ),
        !(hex_value(hi).is_some() && hex_value(lo).is_some()) ==> r == Err::<u8, DecodeError>(
            DecodeError::InvalidData,
        ),
{
    let h = match ascii_encoded_to_value(hi) {
        Some(v) => v,
        None => return Err(DecodeError::InvalidData),
    };
    let l = match ascii_encoded_to_value(lo) {
        Some(v) => v,
        None => return Err(DecodeError::InvalidData),
    };
    Ok(h * 16 + l)
}

/// Decodes the twelve bytes between head and tail into a tag, checking its checksum.
pub fn decode(data: &[u8; BODY_LENGTH]) -> (r: Result<RfidTag, DecodeError>)
    ensures
        tag_result(r) == decode_body(data@),
{
    let mut decoded_data = [0u8; TAG_LENGTH];
    let mut i: usize = 0;
    while i < TAG_LENGTH
        invariant
            0 <= i <= TAG_LENGTH,
            forall|j: int| 0 <= j < 2 * i ==> (#[trigger] hex_value(data@[j])).is_some(),
            forall|j: int|
                0 <= j < i ==> decoded_data@[j] == pair_value(data@[2 * j], data@[2 * j + 1]),
        decreases TAG_LENGTH - i,
    {
        let byte = match decode_pair(data[2 * i], data[2 * i + 1]) {
            Ok(b) => b,
            Err(e) => {
                assert(!all_hex(data@));
                return Err(e);
            },
        };
        decoded_data[i] = byte;
        i = i + 1;
    }
    let decoded_checksum = match decode_pair(
        data[BODY_LENGTH - CHECKSUM_LENGTH],
        data[BODY_LENGTH - CHECKSUM_LENGTH + 1],
    ) {
        Ok(b) => b,
        Err(e) => {
            assert(!all_hex(data@));
            return Err(e);
        },
    };
    assert(all_hex(data@));
    assert(decoded_data@ =~= payload_of(data@));
    let mut expected_checksum: u8 = 0;
    let mut k: usize = 0;
    while k < TAG_LENGTH
        invariant
            0 <= k <= TAG_LENGTH,
            expected_checksum == xor_fold(decoded_data@.take(k as int)),
        decreases TAG_LENGTH - k,
    {
        assert(decoded_data@.take(k as int + 1).drop_last() =~= decoded_data@.take(k as int));
        expected_checksum = expected_checksum ^ decoded_data[k];
        k = k + 1;
    }
    assert(decoded_data@.take(TAG_LENGTH as int) =~= decoded_data@);
    if expected_checksum == decoded_checksum {
        Ok(RfidTag { id: decoded_data })
    } else {
        Err(DecodeError::InvalidChecksum)
    }
}

} // verus!
