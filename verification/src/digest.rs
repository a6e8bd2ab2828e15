//! Fingerprints of rule documents.

use sha2::Digest;
use vstd::prelude::*;

verus! {

/// The SHA-256 digest of a byte string.
pub uninterp spec fn sha256_digest(bytes: Seq<u8>) -> Seq<u8>;

/// Calls `sha2::Sha256::digest` on the bytes and copies the digest out. The
/// contract gives the digest its name: it depends on the bytes alone. Nothing
/// else is claimed of it.
#[verifier::external_body]
fn sha256(bytes: &Vec<u8>) -> (out: Vec<u8>)
    ensures
        out@ == sha256_digest(bytes@),
{
    sha2::Sha256::digest(bytes.as_slice()).to_vec()
}

/// The fingerprint of a document: the SHA-256 digest of its raw bytes.
pub fn fingerprint(bytes: &Vec<u8>) -> (out: Vec<u8>)
    ensures
        out@ == sha256_digest(bytes@),
{
    sha256(bytes)
}

/// The lower-case hexadecimal digit for a value below 16.
pub open spec fn hex_digit(n: int) -> u8 {
    if n < 10 {
        (48 + n) as u8
    } else {
        (87 + n) as u8
    }
}

/// The lower-case hexadecimal form of a byte string, two digits a byte.
pub open spec fn hex(bytes: Seq<u8>) -> Seq<u8> {
    Seq::new(2 * bytes.len(), |k: int| if k % 2 == 0 {
        hex_digit(bytes[k / 2] as int / 16)
    } else {
        hex_digit(bytes[k / 2] as int % 16)
    })
}

fn digit(n: u8) -> (d: u8)
    requires
        n < 16,
    ensures
        d == hex_digit(n as int),
{
    if n < 10 {
        48 + n
    } else {
        87 + n
    }
}

/// Writes a fingerprint as lower-case hexadecimal text.
pub fn to_hex(bytes: &Vec<u8>) -> (out: Vec<u8>)
    ensures
        out@ == hex(bytes@),
{
    let mut out: Vec<u8> = Vec::new();
    let mut i: usize = 0;
    while i < bytes.len()
        invariant
            i <= bytes.len(),
            out.len() == 2 * i,
            forall|k: int| 0 <= k < 2 * i ==> out@[k] == hex(bytes@)[k],
        decreases bytes.len() - i,
    {
        let b: u8 = bytes[i];
        out.push(digit(b / 16));
        out.push(digit(b % 16));
        i += 1;
    }
    assert(out@ =~= hex(bytes@));
    out
}

/// The value of a lower-case hexadecimal digit.
pub open spec fn hex_value(d: u8) -> Option<int> {
    if 48 <= d && d <= 57 {
        Some(d - 48)
    } else if 97 <= d && d <= 102 {
        Some(d - 87)
    } else {
        None
    }
}

/// The text is made of pairs of lower-case hexadecimal digits.
pub open spec fn is_hex(text: Seq<u8>) -> bool {
    &&& text.len() % 2 == 0
    &&& forall|k: int| 0 <= k < text.len() ==> hex_value(#[trigger] text[k]) is Some
}

/// The bytes that a hexadecimal text stands for.
pub open spec fn unhex(text: Seq<u8>) -> Seq<u8> {
    Seq::new(
        text.len() / 2,
        |k: int| (hex_value(text[2 * k])->Some_0 * 16 + hex_value(text[2 * k + 1])->Some_0) as u8,
    )
}

fn value(d: u8) -> (r: Option<u8>)
    ensures
        r is Some <==> hex_value(d) is Some,
        r is Some ==> r->Some_0 as int == hex_value(d)->Some_0 && r->Some_0 < 16,
{
    if 48 <= d && d <= 57 {
        Some(d - 48)
    } else if 97 <= d && d <= 102 {
        Some(d - 87)
    } else {
        None
    }
}

/// Reads lower-case hexadecimal text; anything else is refused.
pub fn from_hex(text: &Vec<u8>) -> (r: Option<Vec<u8>>)
    ensures
        r is Some <==> is_hex(text@),
        r is Some ==> r->Some_0@ == unhex(text@),
{
    if text.len() % 2 != 0 {
        return None;
    }
    let mut out: Vec<u8> = Vec::new();
    let mut i: usize = 0;
    while i < text.len()
        invariant
            i <= text.len(),
            i % 2 == 0,
            text.len() % 2 == 0,
            out.len() * 2 == i,
            forall|k: int| 0 <= k < i ==> hex_value(#[trigger] text@[k]) is Some,
            forall|k: int| 0 <= k < out.len() ==> out@[k] == unhex(text@)[k],
        decreases text.len() - i,
    {
        match (value(text[i]), value(text[i + 1])) {
            (Some(high), Some(low)) => {
                out.push(high * 16 + low);
            },
            _ => {
                assert(hex_value(text@[i as int]) is None || hex_value(text@[i + 1]) is None);
                return None;
            },
        }
        i += 2;
    }
    assert(out@ =~= unhex(text@));
    Some(out)
}

/// Hexadecimal text reads back as the bytes it was written from.
pub proof fn lemma_hex_round_trip(bytes: Seq<u8>)
    ensures
        is_hex(hex(bytes)),
        unhex(hex(bytes)) == bytes,
{
    let text = hex(bytes);
    assert forall|k: int| 0 <= k < text.len() implies hex_value(#[trigger] text[k]) is Some by {
        let b = bytes[k / 2] as int;
        assert(0 <= b / 16 < 16 && 0 <= b % 16 < 16);
    }
    assert forall|k: int| 0 <= k < bytes.len() implies unhex(text)[k] == bytes[k] by {
        let b = bytes[k] as int;
        assert(0 <= b / 16 < 16 && 0 <= b % 16 < 16);
        assert((2 * k) % 2 == 0 && (2 * k) / 2 == k);
        assert((2 * k + 1) % 2 == 1 && (2 * k + 1) / 2 == k);
        assert(text[2 * k] == hex_digit(b / 16));
        assert(text[2 * k + 1] == hex_digit(b % 16));
        assert(hex_value(hex_digit(b / 16)) == Some(b / 16));
        assert(hex_value(hex_digit(b % 16)) == Some(b % 16));
        assert(b / 16 * 16 + b % 16 == b);
    }
    assert(unhex(text) =~= bytes);
}

} // verus!
