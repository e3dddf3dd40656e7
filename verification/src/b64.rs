//! The byte-level encodings the coordination store's transaction payloads
//! use: standard base64 for keys and values, and the eight big-endian bytes
//! of a counter.

use vstd::prelude::*;

use base64::Engine;

verus! {

/// What standard base64 encoding yields for the given bytes.
pub uninterp spec fn b64_of(bytes: Seq<u8>) -> Seq<char>;

/// Declares base64's `DecodeError` so the library's error type can carry it;
/// the value itself is opaque here.
#[verifier::external_type_specification]
#[verifier::external_body]
pub struct ExDecodeError(base64::DecodeError);

/// Relies on base64's `Engine::encode` with the `STANDARD` engine: the result
/// is a function of the input bytes alone.
#[verifier::external_body]
pub fn b64_encode(bytes: &[u8]) -> (r: String)
    ensures
        r@ == b64_of(bytes@),
{
    base64::engine::general_purpose::STANDARD.encode(bytes)
}

/// Relies on base64's `Engine::decode` with the `STANDARD` engine, which
/// accepts exactly the canonical encodings (it requires canonical padding and
/// rejects set trailing bits) and inverts `encode` on them.
#[verifier::external_body]
pub fn b64_decode(s: &str) -> (r: Result<Vec<u8>, base64::DecodeError>)
    ensures
        r matches Ok(v) ==> s@ == b64_of(v@),
        r matches Ok(v) ==> forall|bs: Seq<u8>| s@ == b64_of(bs) ==> v@ == bs,
        r matches Err(_) ==> forall|bs: Seq<u8>| s@ != b64_of(bs),
{
    base64::engine::general_purpose::STANDARD.decode(s)
}

/// The eight big-endian bytes of `x`, most significant first.
pub open spec fn u64_be_bytes(x: u64) -> Seq<u8> {
    seq![
        ((x >> 56) & 0xff) as u8,
        ((x >> 48) & 0xff) as u8,
        ((x >> 40) & 0xff) as u8,
        ((x >> 32) & 0xff) as u8,
        ((x >> 24) & 0xff) as u8,
        ((x >> 16) & 0xff) as u8,
        ((x >> 8) & 0xff) as u8,
        (x & 0xff) as u8,
    ]
}

/// No two counters share a big-endian encoding.
pub proof fn lemma_be_bytes_injective(a: u64, b: u64)
    requires
        u64_be_bytes(a) == u64_be_bytes(b),
    ensures
        a == b,
{
    assert(u64_be_bytes(a)[0] == u64_be_bytes(b)[0]);
    assert(u64_be_bytes(a)[1] == u64_be_bytes(b)[1]);
    assert(u64_be_bytes(a)[2] == u64_be_bytes(b)[2]);
    assert(u64_be_bytes(a)[3] == u64_be_bytes(b)[3]);
    assert(u64_be_bytes(a)[4] == u64_be_bytes(b)[4]);
    assert(u64_be_bytes(a)[5] == u64_be_bytes(b)[5]);
    assert(u64_be_bytes(a)[6] == u64_be_bytes(b)[6]);
    assert(u64_be_bytes(a)[7] == u64_be_bytes(b)[7]);
    assert(((a >> 56) & 0xff) as u8 == ((b >> 56) & 0xff) as u8 && ((a >> 48) & 0xff) as u8 == ((b
        >> 48) & 0xff) as u8 && ((a >> 40) & 0xff) as u8 == ((b >> 40) & 0xff) as u8 && ((a >> 32)
        & 0xff) as u8 == ((b >> 32) & 0xff) as u8 && ((a >> 24) & 0xff) as u8 == ((b >> 24)
        & 0xff) as u8 && ((a >> 16) & 0xff) as u8 == ((b >> 16) & 0xff) as u8 && ((a >> 8)
        & 0xff) as u8 == ((b >> 8) & 0xff) as u8 && (a & 0xff) as u8 == (b & 0xff) as u8 ==> a
        == b) by (bit_vector);
}

/// Serialize a counter as the coordination store's values expect it.
pub fn u64_to_be_bytes(x: u64) -> (r: Vec<u8>)
    ensures
        r@ == u64_be_bytes(x),
{
    let mut v: Vec<u8> = Vec::new();
    v.push(((x >> 56) & 0xff) as u8);
    v.push(((x >> 48) & 0xff) as u8);
    v.push(((x >> 40) & 0xff) as u8);
    v.push(((x >> 32) & 0xff) as u8);
    v.push(((x >> 24) & 0xff) as u8);
    v.push(((x >> 16) & 0xff) as u8);
    v.push(((x >> 8) & 0xff) as u8);
    v.push((x & 0xff) as u8);
    proof {
        assert(v@ =~= u64_be_bytes(x));
    }
    v
}

/// Read a counter back from its eight big-endian bytes.
pub fn u64_from_be_bytes(bytes: &Vec<u8>) -> (r: u64)
    requires
        bytes@.len() == 8,
    ensures
        u64_be_bytes(r) == bytes@,
{
    let b0 = bytes[0] as u64;
    let b1 = bytes[1] as u64;
    let b2 = bytes[2] as u64;
    let b3 = bytes[3] as u64;
    let b4 = bytes[4] as u64;
    let b5 = bytes[5] as u64;
    let b6 = bytes[6] as u64;
    let b7 = bytes[7] as u64;
    let r = (b0 << 56) | (b1 << 48) | (b2 << 40) | (b3 << 32) | (b4 << 24) | (b5 << 16) | (b6 << 8)
        | b7;
    proof {
        assert(b0 <= 0xff && b1 <= 0xff && b2 <= 0xff && b3 <= 0xff && b4 <= 0xff && b5 <= 0xff
            && b6 <= 0xff && b7 <= 0xff ==> ((r >> 56) & 0xff == b0 && (r >> 48) & 0xff == b1 && (r
            >> 40) & 0xff == b2 && (r >> 32) & 0xff == b3 && (r >> 24) & 0xff == b4 && (r >> 16)
            & 0xff == b5 && (r >> 8) & 0xff == b6 && r & 0xff == b7)) by (bit_vector)
            requires
                r == (b0 << 56) | (b1 << 48) | (b2 << 40) | (b3 << 32) | (b4 << 24) | (b5 << 16) | (
                b6 << 8) | b7,
        ;
        assert(u64_be_bytes(r) =~= bytes@);
    }
    r
}

} // verus!
