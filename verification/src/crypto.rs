//! AES-128 segment decryption support: keys, initialisation vectors and the
//! call into the `aes`/`cbc` crates.
use vstd::prelude::*;
use vstd::string::StringSliceAdditionalSpecFns;
use aes::cipher::{BlockDecryptMut, KeyIvInit};
use crate::text::{decimal, decimal_exec, push_str, string_of};

verus! {

// ---------------------------------------------------------------------------
// Initialisation vectors
// ---------------------------------------------------------------------------

/// Byte `k` (0 = most significant) of the big-endian encoding of `x`.
pub open spec fn be_byte(x: u64, k: int) -> u8 {
    ((x >> (((7 - k) * 8) as u64)) & 0xff) as u8
}

/// Big-endian value of the bytes `s`.
pub open spec fn be_value(s: Seq<u8>) -> nat
    decreases s.len(),
{
    if s.len() == 0 {
        0
    } else {
        be_value(s.drop_last()) * 256 + s.last() as nat
    }
}

/// The IV that HLS uses when a key gives none: sixteen bytes, the media
/// sequence number big-endian in the last eight (`iv_from_sequence`).
pub open spec fn sequence_iv(sequence: u64) -> Seq<u8> {
    Seq::new(8, |i: int| 0u8) + Seq::new(8, |i: int| be_byte(sequence, i))
}

/// `iv_from_sequence(sequence)`.
pub fn iv_from_sequence(sequence: u64) -> (iv: [u8; 16])
    ensures
        iv@ == sequence_iv(sequence),
{
    let s = sequence;
    let iv: [u8; 16] = [
        0,
        0,
        0,
        0,
        0,
        0,
        0,
        0,
        ((s >> 56) & 0xff) as u8,
        ((s >> 48) & 0xff) as u8,
        ((s >> 40) & 0xff) as u8,
        ((s >> 32) & 0xff) as u8,
        ((s >> 24) & 0xff) as u8,
        ((s >> 16) & 0xff) as u8,
        ((s >> 8) & 0xff) as u8,
        (s & 0xff) as u8,
    ];
    assert(iv@ =~= sequence_iv(sequence)) by {
        assert(s >> 0u64 == s) by (bit_vector);
    }
    iv
}

proof fn lemma_be8(t: Seq<u8>)
    requires
        t.len() == 8,
    ensures
        be_value(t) == ((((((t[0] as nat * 256 + t[1]) * 256 + t[2]) * 256 + t[3]) * 256 + t[4]) * 256
            + t[5]) * 256 + t[6]) * 256 + t[7],
{
    assert(t.subrange(0, 0).len() == 0);
    assert(t.subrange(0, 1).drop_last() == t.subrange(0, 0) && t.subrange(0, 1).last() == t[0]);
    assert(t.subrange(0, 2).drop_last() == t.subrange(0, 1) && t.subrange(0, 2).last() == t[1]);
    assert(t.subrange(0, 3).drop_last() == t.subrange(0, 2) && t.subrange(0, 3).last() == t[2]);
    assert(t.subrange(0, 4).drop_last() == t.subrange(0, 3) && t.subrange(0, 4).last() == t[3]);
    assert(t.subrange(0, 5).drop_last() == t.subrange(0, 4) && t.subrange(0, 5).last() == t[4]);
    assert(t.subrange(0, 6).drop_last() == t.subrange(0, 5) && t.subrange(0, 6).last() == t[5]);
    assert(t.subrange(0, 7).drop_last() == t.subrange(0, 6) && t.subrange(0, 7).last() == t[6]);
    assert(t.drop_last() == t.subrange(0, 7) && t.last() == t[7]);
    assert(be_value(t.subrange(0, 0)) == 0);
    assert(be_value(t.subrange(0, 1)) == t[0]);
    assert(be_value(t.subrange(0, 2)) == t[0] as nat * 256 + t[1]);
    assert(be_value(t.subrange(0, 3)) == (t[0] as nat * 256 + t[1]) * 256 + t[2]);
    assert(be_value(t.subrange(0, 4)) == ((t[0] as nat * 256 + t[1]) * 256 + t[2]) * 256 + t[3]);
    assert(be_value(t.subrange(0, 5)) == (((t[0] as nat * 256 + t[1]) * 256 + t[2]) * 256 + t[3]) * 256
        + t[4]);
    assert(be_value(t.subrange(0, 6)) == ((((t[0] as nat * 256 + t[1]) * 256 + t[2]) * 256 + t[3]) * 256
        + t[4]) * 256 + t[5]);
    assert(be_value(t.subrange(0, 7)) == (((((t[0] as nat * 256 + t[1]) * 256 + t[2]) * 256 + t[3])
        * 256 + t[4]) * 256 + t[5]) * 256 + t[6]);
}

/// Law: the last eight bytes of the IV read back, big-endian, as the
/// sequence number, and the first eight are zero.
pub proof fn lemma_sequence_iv_roundtrip(sequence: u64)
    ensures
        be_value(sequence_iv(sequence).subrange(8, 16)) == sequence,
        forall|i: int| 0 <= i < 8 ==> sequence_iv(sequence)[i] == 0,
        sequence_iv(sequence).len() == 16,
{
    let iv = sequence_iv(sequence);
    let t = iv.subrange(8, 16);
    let x = sequence;
    lemma_be8(t);
    let b0 = ((x >> 56u64) & 0xff) as u8;
    let b1 = ((x >> 48u64) & 0xff) as u8;
    let b2 = ((x >> 40u64) & 0xff) as u8;
    let b3 = ((x >> 32u64) & 0xff) as u8;
    let b4 = ((x >> 24u64) & 0xff) as u8;
    let b5 = ((x >> 16u64) & 0xff) as u8;
    let b6 = ((x >> 8u64) & 0xff) as u8;
    let b7 = ((x >> 0u64) & 0xff) as u8;
    assert(t[0] == b0 && t[1] == b1 && t[2] == b2 && t[3] == b3);
    assert(t[4] == b4 && t[5] == b5 && t[6] == b6 && t[7] == b7);
    assert(((((((b0 as u64 * 256 + b1 as u64) * 256 + b2 as u64) * 256 + b3 as u64) * 256 + b4 as u64) * 256
        + b5 as u64) * 256 + b6 as u64) * 256 + b7 as u64 == x) by (bit_vector)
        requires
            b0 == ((x >> 56u64) & 0xff) as u8,
            b1 == ((x >> 48u64) & 0xff) as u8,
            b2 == ((x >> 40u64) & 0xff) as u8,
            b3 == ((x >> 32u64) & 0xff) as u8,
            b4 == ((x >> 24u64) & 0xff) as u8,
            b5 == ((x >> 16u64) & 0xff) as u8,
            b6 == ((x >> 8u64) & 0xff) as u8,
            b7 == ((x >> 0u64) & 0xff) as u8,
    ;
}

// ---------------------------------------------------------------------------
// Hexadecimal IVs
// ---------------------------------------------------------------------------

/// Value of one hexadecimal digit byte.
pub open spec fn hex_digit(b: u8) -> Option<u8> {
    if 48 <= b <= 57 {
        Some((b - 48) as u8)
    } else if 97 <= b <= 102 {
        Some((b - 87) as u8)
    } else if 65 <= b <= 70 {
        Some((b - 55) as u8)
    } else {
        None
    }
}

/// The byte that two hex digits (either case) write; `None` unless both
/// bytes are hex digits.
pub open spec fn hex_pair(b0: u8, b1: u8) -> Option<u8> {
    match (hex_digit(b0), hex_digit(b1)) {
        (Some(h), Some(l)) => Some((h * 16 + l) as u8),
        _ => None,
    }
}

/// The byte that the hex digits `h[2 * i]` and `h[2 * i + 1]` encode.
pub open spec fn hex_byte_at(h: Seq<u8>, i: int) -> Option<u8> {
    hex_pair(h[2 * i], h[2 * i + 1])
}

/// The bytes of an IV string after an optional `0x`/`0X` prefix.
pub open spec fn iv_hex_body(s: Seq<u8>) -> Seq<u8> {
    if s.len() >= 2 && s[0] == 48 && (s[1] == 120 || s[1] == 88) {
        s.skip(2)
    } else {
        s
    }
}

/// Message for a hex body of the wrong length.
pub open spec fn iv_length_error(len: nat) -> Seq<char> {
    "IV inválido: esperado 32 hex chars, recebeu "@ + decimal(len)
}

/// Message for a byte pair that is not hexadecimal.
pub open spec fn iv_digit_error() -> Seq<char> {
    "IV hex inválido: invalid digit found in string"@
}

fn hex_digit_exec(b: u8) -> (r: Option<u8>)
    ensures
        r == hex_digit(b),
{
    if 48 <= b && b <= 57 {
        Some(b - 48)
    } else if 97 <= b && b <= 102 {
        Some(b - 87)
    } else if 65 <= b && b <= 70 {
        Some(b - 55)
    } else {
        None
    }
}

fn hex_pair_exec(b0: u8, b1: u8) -> (r: Option<u8>)
    ensures
        r == hex_pair(b0, b1),
{
    match (hex_digit_exec(b0), hex_digit_exec(b1)) {
        (Some(h), Some(l)) => Some(h * 16 + l),
        _ => None,
    }
}

/// `parse_iv_hex(hex_str)`: an IV written as 32 hex digits, with or without
/// a `0x`/`0X` prefix. The contract is stated over the UTF-8 bytes.
pub fn parse_iv_hex(hex_str: &str) -> (r: Result<[u8; 16], String>)
    ensures
        ({
            let h = iv_hex_body(hex_str.spec_bytes());
            match r {
                Ok(iv) => h.len() == 32 && forall|i: int|
                    0 <= i < 16 ==> #[trigger] hex_byte_at(h, i) == Some(iv@[i]),
                Err(e) => (h.len() != 32 && e@ == iv_length_error(h.len())) || (h.len() == 32
                    && e@ == iv_digit_error() && exists|i: int|
                    0 <= i < 16 && #[trigger] hex_byte_at(h, i) is None),
            }
        }),
{
    let bytes = hex_str.as_bytes();
    let ghost h = iv_hex_body(hex_str.spec_bytes());
    let start: usize = if bytes.len() >= 2 && bytes[0] == 48 && (bytes[1] == 120 || bytes[1] == 88) {
        2
    } else {
        0
    };
    assert(h == bytes@.skip(start as int));
    let n = bytes.len() - start;
    if n != 32 {
        let mut msg: Vec<char> = Vec::new();
        push_str(&mut msg, "IV inválido: esperado 32 hex chars, recebeu ");
        let d = decimal_exec(n as u64);
        let mut k: usize = 0;
        let ghost m0 = msg@;
        while k < d.len()
            invariant
                k <= d.len(),
                msg@ == m0 + d@.take(k as int),
            decreases d.len() - k,
        {
            msg.push(d[k]);
            assert(d@.take(k + 1) == d@.take(k as int).push(d@[k as int]));
            k += 1;
        }
        assert(d@.take(d.len() as int) == d@);
        assert(h.len() == n);
        assert(msg@ == iv_length_error(h.len()));
        let e = string_of(&msg);
        assert(e@ == iv_length_error(h.len()));
        assert(h.len() != 32);
        return Err(e);
    }
    let mut iv: [u8; 16] = [0u8; 16];
    let mut i: usize = 0;
    while i < 16
        invariant
            i <= 16,
            n == 32,
            bytes@.len() == start + 32,
            bytes.len() == start + 32,
            h == bytes@.skip(start as int),
            h == iv_hex_body(hex_str.spec_bytes()),
            forall|k: int| 0 <= k < i ==> #[trigger] hex_byte_at(h, k) == Some(iv@[k]),
        decreases 16 - i,
    {
        let b0 = bytes[start + 2 * i];
        let b1 = bytes[start + 2 * i + 1];
        assert(b0 == h[2 * i] && b1 == h[2 * i + 1]);
        match hex_pair_exec(b0, b1) {
            Some(v) => {
                iv[i] = v;
            },
            None => {
                assert(hex_pair(h[2 * i as int], h[2 * i as int + 1]) is None);
                let mut msg: Vec<char> = Vec::new();
                push_str(&mut msg, "IV hex inválido: invalid digit found in string");
                let e = string_of(&msg);
                assert(e@ == iv_digit_error());
                assert(h.len() == 32);
                let ghost wi = i as int;
                assert(0 <= wi < 16 && hex_byte_at(h, wi) is None);
                assert(exists|j: int| 0 <= j < 16 && #[trigger] hex_byte_at(h, j) is None);
                assert(h == iv_hex_body(hex_str.spec_bytes()));
                return Err(e);
            },
        }
        i += 1;
    }
    Ok(iv)
}

// ---------------------------------------------------------------------------
// Keys
// ---------------------------------------------------------------------------

/// Message for a key of the wrong size.
pub open spec fn key_length_error(len: nat) -> Seq<char> {
    "Chave inválida: esperado 16 bytes, recebeu "@ + decimal(len)
}

/// The AES key from the body of a key response (`fetch_key` after the
/// download): exactly 16 bytes, or an error naming the size received.
pub fn key_from_bytes(bytes: &[u8]) -> (r: Result<[u8; 16], String>)
    ensures
        match r {
            Ok(key) => bytes@.len() == 16 && key@ == bytes@,
            Err(e) => bytes@.len() != 16 && e@ == key_length_error(bytes@.len()),
        },
{
    if bytes.len() != 16 {
        let mut msg: Vec<char> = Vec::new();
        push_str(&mut msg, "Chave inválida: esperado 16 bytes, recebeu ");
        let d = decimal_exec(bytes.len() as u64);
        let mut k: usize = 0;
        let ghost m0 = msg@;
        while k < d.len()
            invariant
                k <= d.len(),
                msg@ == m0 + d@.take(k as int),
            decreases d.len() - k,
        {
            msg.push(d[k]);
            assert(d@.take(k + 1) == d@.take(k as int).push(d@[k as int]));
            k += 1;
        }
        assert(d@.take(d.len() as int) == d@);
        return Err(string_of(&msg));
    }
    let mut key: [u8; 16] = [0u8; 16];
    let mut i: usize = 0;
    while i < 16
        invariant
            i <= 16,
            bytes@.len() == 16,
            forall|k: int| 0 <= k < i ==> key@[k] == bytes@[k],
        decreases 16 - i,
    {
        key[i] = bytes[i];
        i += 1;
    }
    assert(key@ =~= bytes@);
    Ok(key)
}

// ---------------------------------------------------------------------------
// Decryption
// ---------------------------------------------------------------------------

/// What AES-128-CBC decryption with PKCS#7 unpadding gives for `data`
/// under `key` and `iv`, if the padding is well formed.
pub uninterp spec fn aes128_cbc_pkcs7_decrypt(data: Seq<u8>, key: Seq<u8>, iv: Seq<u8>) -> Option<Seq<u8>>;

/// `cbc::Decryptor::<aes::Aes128>::new(key, iv).decrypt_padded_vec_mut::<Pkcs7>(data)`.
/// Claimed of it: the result is named; it fails when the length is not a
/// positive multiple of 16; and a success drops 1 to 16 padding bytes
/// (what `cipher::BlockDecryptMut` and `block_padding::Pkcs7` do in their source).
#[verifier::external_body]
fn cbc_decrypt_pkcs7(data: &[u8], key: &[u8; 16], iv: &[u8; 16]) -> (r: Option<Vec<u8>>)
    ensures
        match r {
            Some(p) => aes128_cbc_pkcs7_decrypt(data@, key@, iv@) == Some(p@),
            None => aes128_cbc_pkcs7_decrypt(data@, key@, iv@) is None,
        },
        (data@.len() % 16 != 0 || data@.len() == 0) ==> r is None,
        r matches Some(p) ==> p@.len() < data@.len() <= p@.len() + 16,
{
    let dec = cbc::Decryptor::<aes::Aes128>::new(key.into(), iv.into());
    match dec.decrypt_padded_vec_mut::<aes::cipher::block_padding::Pkcs7>(data) {
        Ok(v) => Some(v),
        Err(_) => None,
    }
}

/// Message for malformed ciphertext.
pub open spec fn aes_error() -> Seq<char> {
    "Erro AES: Unpad Error"@
}

/// `decrypt_aes128_cbc(data, key, iv)`: AES-128-CBC with PKCS#7 padding.
pub fn decrypt_aes128_cbc(data: &[u8], key: &[u8; 16], iv: &[u8; 16]) -> (r: Result<Vec<u8>, String>)
    ensures
        match r {
            Ok(p) => aes128_cbc_pkcs7_decrypt(data@, key@, iv@) == Some(p@),
            Err(e) => aes128_cbc_pkcs7_decrypt(data@, key@, iv@) is None && e@ == aes_error(),
        },
        (data@.len() % 16 != 0 || data@.len() == 0) ==> r is Err,
{
    match cbc_decrypt_pkcs7(data, key, iv) {
        Some(p) => Ok(p),
        None => {
            let mut msg: Vec<char> = Vec::new();
            push_str(&mut msg, "Erro AES: Unpad Error");
            Err(string_of(&msg))
        },
    }
}

} // verus!
