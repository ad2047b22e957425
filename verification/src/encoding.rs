//! Text and byte encodings: hexadecimal digests, content-identifier strings,
//! big-endian lengths and decimal chunk numbers.
use vstd::prelude::*;

verus! {

/// The lower-case hexadecimal digit for a value below 16.
pub open spec fn hex_digit(n: int) -> char {
    if n < 10 {
        ((48 + n) as u8) as char
    } else {
        ((87 + n) as u8) as char
    }
}

/// `data` in lower-case hexadecimal: two digits per byte, high half first.
pub open spec fn hex_text(data: Seq<u8>) -> Seq<char> {
    Seq::new(
        2 * data.len(),
        |i: int|
            hex_digit(
                if i % 2 == 0 {
                    data[i / 2] as int / 16
                } else {
                    data[i / 2] as int % 16
                },
            ),
    )
}

/// The value of a hexadecimal digit of either case, if `c` is one.
pub open spec fn hex_value(c: char) -> Option<int> {
    let n = c as int;
    if 48 <= n <= 57 {
        Some(n - 48)
    } else if 97 <= n <= 102 {
        Some(n - 87)
    } else if 65 <= n <= 70 {
        Some(n - 55)
    } else {
        None
    }
}

/// Whether `text` is an even number of hexadecimal digits.
pub open spec fn is_hex_text(text: Seq<char>) -> bool {
    text.len() % 2 == 0 && forall|i: int| 0 <= i < text.len() ==> hex_value(#[trigger] text[i]) is Some
}

/// The bytes that hexadecimal `text` stands for.
pub open spec fn hex_bytes(text: Seq<char>) -> Seq<u8> {
    Seq::new(
        text.len() / 2,
        |i: int| (hex_value(text[2 * i]).unwrap() * 16 + hex_value(text[2 * i + 1]).unwrap()) as u8,
    )
}

#[verifier::external_type_specification]
#[verifier::external_body]
pub struct ExFromHexError(hex::FromHexError);

#[verifier::external_type_specification]
#[verifier::external_body]
pub struct ExMultihashError(multihash::Error);

/// Calls `hex::encode`.
///
/// Trusted: the result is `data` in lower-case hexadecimal, two digits per
/// byte, as the crate documents.
#[verifier::external_body]
fn hex_encode_raw(data: &[u8]) -> (text: String)
    ensures
        text@ == hex_text(data@),
{
    hex::encode(data)
}

/// Calls `hex::decode`.
///
/// Trusted: it succeeds exactly on an even number of hexadecimal digits of
/// either case, and then gives the bytes they stand for.
#[verifier::external_body]
fn hex_decode_raw(text: &str) -> (r: Result<Vec<u8>, hex::FromHexError>)
    ensures
        r is Ok <==> is_hex_text(text@),
        r matches Ok(bytes) ==> bytes@ == hex_bytes(text@),
{
    hex::decode(text)
}

/// Renders `data` in lower-case hexadecimal.
pub fn to_hex(data: &[u8]) -> (text: String)
    ensures
        text@ == hex_text(data@),
{
    hex_encode_raw(data)
}

/// Reads hexadecimal `text` back into bytes; `None` where `text` is not an
/// even number of hexadecimal digits.
pub fn from_hex(text: &str) -> (bytes: Option<Vec<u8>>)
    ensures
        bytes is Some <==> is_hex_text(text@),
        bytes matches Some(b) ==> b@ == hex_bytes(text@),
{
    match hex_decode_raw(text) {
        Ok(b) => Some(b),
        Err(_) => None,
    }
}

/// Reading back what `to_hex` wrote gives the bytes again.
pub proof fn lemma_hex_round_trip(data: Seq<u8>)
    ensures
        is_hex_text(hex_text(data)),
        hex_bytes(hex_text(data)) == data,
{
    let text = hex_text(data);
    assert forall|i: int| 0 <= i < text.len() implies hex_value(#[trigger] text[i]) is Some by {
        let b = data[i / 2] as int;
        let n = if i % 2 == 0 { b / 16 } else { b % 16 };
        assert(0 <= n < 16);
        assert(text[i] == hex_digit(n));
        lemma_digit_value(n);
    }
    assert forall|i: int| 0 <= i < data.len() implies hex_bytes(text)[i] == data[i] by {
        let b = data[i] as int;
        assert(text[2 * i] == hex_digit(b / 16));
        assert(text[2 * i + 1] == hex_digit(b % 16));
        lemma_digit_value(b / 16);
        lemma_digit_value(b % 16);
    }
    assert(hex_bytes(text) =~= data);
}

/// A hexadecimal digit has the value it was made from.
proof fn lemma_digit_value(n: int)
    requires
        0 <= n < 16,
    ensures
        hex_value(hex_digit(n)) == Some(n),
{
    if n < 10 {
        assert((((48 + n) as u8) as char) as int == 48 + n);
    } else {
        assert((((87 + n) as u8) as char) as int == 87 + n);
    }
}

/// The text of the version-1 content identifier with content type `codec`
/// over the multihash of function `hash_code` and digest `digest`, as the
/// `cid` crate renders it.
pub uninterp spec fn cid_v1_text(codec: u64, hash_code: u64, digest: Seq<u8>) -> Seq<char>;

/// The longest digest that a content identifier can carry.
pub const MAX_CID_DIGEST_LEN: usize = 64;

/// Calls `multihash::Multihash::<64>::wrap`, then `cid::Cid::new_v1` and the
/// identifier's `to_string`.
///
/// Trusted: wrapping fails exactly where the digest is longer than 64 bytes;
/// otherwise the result is the identifier's text, which depends on the three
/// arguments alone.
#[verifier::external_body]
fn cid_v1_string_raw(codec: u64, hash_code: u64, digest: &[u8]) -> (r: Result<
    String,
    multihash::Error,
>)
    ensures
        r is Ok <==> digest@.len() <= 64,
        r matches Ok(text) ==> text@ == cid_v1_text(codec, hash_code, digest@),
{
    let hash = multihash::Multihash::<64>::wrap(hash_code, digest)?;
    Ok(cid::Cid::new_v1(codec, hash).to_string())
}

/// The version-1 content identifier over `digest`; `None` where the digest
/// is longer than an identifier can carry.
pub fn cid_v1_string(codec: u64, hash_code: u64, digest: &[u8]) -> (text: Option<String>)
    ensures
        text is Some <==> digest@.len() <= MAX_CID_DIGEST_LEN,
        text matches Some(t) ==> t@ == cid_v1_text(codec, hash_code, digest@),
{
    match cid_v1_string_raw(codec, hash_code, digest) {
        Ok(t) => Some(t),
        Err(_) => None,
    }
}

/// The byte of `v` at position `i` of its 8-byte big-endian form.
pub open spec fn be_byte(v: u64, i: int) -> u8 {
    ((v as int / pow256(7 - i)) % 256) as u8
}

/// 256 to the power `e`, for the exponents of a 64-bit value.
pub open spec fn pow256(e: int) -> int {
    if e <= 0 {
        1
    } else if e == 1 {
        0x100
    } else if e == 2 {
        0x1_0000
    } else if e == 3 {
        0x100_0000
    } else if e == 4 {
        0x1_0000_0000
    } else if e == 5 {
        0x100_0000_0000
    } else if e == 6 {
        0x1_0000_0000_0000
    } else {
        0x100_0000_0000_0000
    }
}

/// `v` as 8 bytes, most significant first.
pub open spec fn be_bytes(v: u64) -> Seq<u8> {
    Seq::new(8, |i: int| be_byte(v, i))
}

/// Appends `v` as 8 bytes, most significant first.
pub fn push_be_u64(buf: &mut Vec<u8>, v: u64)
    ensures
        final(buf)@ == old(buf)@ + be_bytes(v),
{
    buf.push(((v / 0x100_0000_0000_0000) % 256) as u8);
    buf.push(((v / 0x1_0000_0000_0000) % 256) as u8);
    buf.push(((v / 0x100_0000_0000) % 256) as u8);
    buf.push(((v / 0x1_0000_0000) % 256) as u8);
    buf.push(((v / 0x100_0000) % 256) as u8);
    buf.push(((v / 0x1_0000) % 256) as u8);
    buf.push(((v / 0x100) % 256) as u8);
    buf.push((v % 256) as u8);
    assert(buf@ =~= old(buf)@ + be_bytes(v));
}

/// The decimal digits of `n` in ASCII, without leading zeros (one `0` for 0).
pub open spec fn decimal(n: nat) -> Seq<u8>
    decreases n,
{
    if n < 10 {
        seq![(48 + n) as u8]
    } else {
        decimal(n / 10).push((48 + n % 10) as u8)
    }
}

/// Appends the decimal digits of `n`.
pub fn push_decimal(buf: &mut Vec<u8>, n: u32)
    ensures
        final(buf)@ == old(buf)@ + decimal(n as nat),
    decreases n,
{
    if n >= 10 {
        push_decimal(buf, n / 10);
    }
    buf.push(48 + (n % 10) as u8);
    assert(buf@ =~= old(buf)@ + decimal(n as nat));
}

} // verus!
