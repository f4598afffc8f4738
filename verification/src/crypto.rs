//! Credential masking and AES-256-GCM encryption of stored secrets.
use vstd::prelude::*;
use vstd::utf8::{decode_utf8, encode_utf8, valid_utf8};
use aes_gcm::aead::{Aead, KeyInit};
use base64::Engine;
use rand::RngCore;
use sha2::Digest;

use crate::text::{append_str, chars_of, push_char, string_from_range, to_owned_string, trim_bounds, trim_string, trim_ws};

verus! {

// ---------------------------------------------------------------------------
// Masking
// ---------------------------------------------------------------------------

/// Bytes that UTF-8 uses for `c`.
pub open spec fn char_utf8_len(c: char) -> int {
    let u = c as u32;
    if u < 0x80 {
        1
    } else if u < 0x800 {
        2
    } else if u < 0x10000 {
        3
    } else {
        4
    }
}

/// Bytes that UTF-8 uses for `s` (what `str::len` returns).
pub open spec fn utf8_len(s: Seq<char>) -> int
    decreases s.len(),
{
    if s.len() == 0 {
        0
    } else {
        utf8_len(s.drop_last()) + char_utf8_len(s.last())
    }
}

/// The masked form of a secret: a placeholder when blank, `****` when it has at
/// most four characters, else `****` and its last four characters.
pub open spec fn mask_spec(v: Seq<char>) -> Seq<char> {
    let t = trim_ws(v);
    if t.len() == 0 {
        "（未配置）"@
    } else if t.len() <= 4 {
        "****"@
    } else {
        "****"@ + t.subrange(t.len() - 4, t.len() as int)
    }
}

pub(crate) fn utf8_width(c: char) -> (r: usize)
    ensures
        r == char_utf8_len(c),
{
    let u = c as u32;
    if u < 0x80 {
        1
    } else if u < 0x800 {
        2
    } else if u < 0x10000 {
        3
    } else {
        4
    }
}

proof fn lemma_utf8_len_nonneg(s: Seq<char>)
    ensures
        utf8_len(s) >= s.len(),
    decreases s.len(),
{
    if s.len() > 0 {
        lemma_utf8_len_nonneg(s.drop_last());
    }
}

/// Byte length of `cs[a..b]`, capped at `cap + 1`.
pub(crate) fn utf8_len_capped(cs: &Vec<char>, a: usize, b: usize, cap: usize) -> (r: usize)
    requires
        a <= b <= cs.len(),
        cap < 1000,
    ensures
        r <= cap ==> r == utf8_len(cs@.subrange(a as int, b as int)),
        r > cap ==> utf8_len(cs@.subrange(a as int, b as int)) > cap,
{
    let mut total: usize = 0;
    let mut i = a;
    while i < b
        invariant
            a <= i <= b <= cs.len(),
            cap < 1000,
            total <= cap + 4,
            total <= cap ==> total == utf8_len(cs@.subrange(a as int, i as int)),
            total > cap ==> utf8_len(cs@.subrange(a as int, i as int)) > cap,
        decreases b - i,
    {
        let ghost prev = cs@.subrange(a as int, i as int);
        assert(cs@.subrange(a as int, i + 1).drop_last() == prev);
        proof {
            lemma_utf8_len_nonneg(prev);
        }
        if total > cap {
            proof {
                lemma_utf8_len_nonneg(cs@.subrange(a as int, i + 1));
            }
            i = i + 1;
        } else {
            total = total + utf8_width(cs[i]);
            i = i + 1;
        }
    }
    total
}

/// The form of a secret shown in the settings page: only its last four characters
/// are kept.
pub fn mask_secret(value: &str) -> (r: String)
    ensures
        r@ == mask_spec(value@),
{
    let cs = chars_of(value);
    let (a, b) = trim_bounds(&cs);
    if a == b {
        return to_owned_string("（未配置）");
    }
    if b - a <= 4 {
        return to_owned_string("****");
    }
    let tail = string_from_range(&cs, b - 4, b);
    let ghost t = cs@.subrange(a as int, b as int);
    assert(t.subrange(t.len() - 4, t.len() as int) == cs@.subrange(b - 4, b as int));
    let mut out = to_owned_string("****");
    append_str(&mut out, tail.as_str());
    out
}

/// A key is usable when, trimmed, it is at least 16 bytes long.
pub open spec fn encryption_ready_spec(key: Seq<char>) -> bool {
    utf8_len(trim_ws(key)) >= 16
}

/// Whether the configured encryption key is usable.
pub fn encryption_ready(key: &str) -> (r: bool)
    ensures
        r == encryption_ready_spec(key@),
{
    let cs = chars_of(key);
    let (a, b) = trim_bounds(&cs);
    let len = utf8_len_capped(&cs, a, b, 15);
    len > 15
}

// ---------------------------------------------------------------------------
// Outside cryptography
// ---------------------------------------------------------------------------

/// The name for the SHA-256 digest of a byte string (`sha2::Sha256::digest`).
pub uninterp spec fn sha256_spec(data: Seq<u8>) -> Seq<u8>;

/// The name for AES-256-GCM encryption with an empty associated data
/// (`aes_gcm::Aes256Gcm::encrypt`): ciphertext followed by the tag.
pub uninterp spec fn aes_gcm_seal(key: Seq<u8>, nonce: Seq<u8>, plaintext: Seq<u8>) -> Seq<u8>;

/// The name for AES-256-GCM decryption (`aes_gcm::Aes256Gcm::decrypt`): `None` when
/// the tag does not verify.
pub uninterp spec fn aes_gcm_open(key: Seq<u8>, nonce: Seq<u8>, ciphertext: Seq<u8>) -> Option<Seq<u8>>;

/// The character code of the Base64 symbol for the six-bit value `v` (standard
/// alphabet: `A`-`Z`, `a`-`z`, `0`-`9`, `+`, `/`).
pub open spec fn b64_symbol(v: int) -> int {
    if v < 26 {
        65 + v
    } else if v < 52 {
        97 + (v - 26)
    } else if v < 62 {
        48 + (v - 52)
    } else if v == 62 {
        43
    } else {
        47
    }
}

/// The character codes of the standard, padded Base64 encoding of `b`: each group of
/// three bytes gives four symbols, and a last group of one or two bytes is padded with
/// `=` (code 61) to four.
pub open spec fn base64_codes(b: Seq<u8>) -> Seq<int>
    decreases b.len(),
{
    let x = if b.len() > 0 { b[0] as int } else { 0 };
    let y = if b.len() > 1 { b[1] as int } else { 0 };
    let z = if b.len() > 2 { b[2] as int } else { 0 };
    if b.len() == 0 {
        seq![]
    } else if b.len() == 1 {
        seq![b64_symbol(x / 4), b64_symbol((x % 4) * 16), 61, 61]
    } else if b.len() == 2 {
        seq![b64_symbol(x / 4), b64_symbol((x % 4) * 16 + y / 16), b64_symbol((y % 16) * 4), 61]
    } else {
        seq![
            b64_symbol(x / 4),
            b64_symbol((x % 4) * 16 + y / 16),
            b64_symbol((y % 16) * 4 + z / 64),
            b64_symbol(z % 64),
        ] + base64_codes(b.subrange(3, b.len() as int))
    }
}

/// `t` is the standard, padded Base64 text of `b`.
pub open spec fn base64_is(t: Seq<char>, b: Seq<u8>) -> bool {
    &&& t.len() == base64_codes(b).len()
    &&& forall|i: int| 0 <= i < t.len() ==> (#[trigger] t[i]) as int == base64_codes(b)[i]
}

/// The bytes whose standard Base64 text `t` is, if it is one.
pub open spec fn base64_decode(t: Seq<char>) -> Option<Seq<u8>> {
    if exists|b: Seq<u8>| base64_is(t, b) {
        Some(choose|b: Seq<u8>| base64_is(t, b))
    } else {
        None
    }
}

proof fn lemma_b64_symbol(v: int, w: int)
    requires
        0 <= v < 64,
        0 <= w < 64,
    ensures
        b64_symbol(v) != 61,
        b64_symbol(v) == b64_symbol(w) ==> v == w,
{
}

proof fn lemma_base64_codes_len(b: Seq<u8>)
    ensures
        b.len() == 0 <==> base64_codes(b).len() == 0,
        b.len() > 0 ==> base64_codes(b).len() >= 4,
    decreases b.len(),
{
    if b.len() >= 3 {
        lemma_base64_codes_len(b.subrange(3, b.len() as int));
    }
}

/// Two byte strings with the same Base64 codes are equal.
proof fn lemma_base64_codes_injective(a: Seq<u8>, b: Seq<u8>)
    requires
        base64_codes(a) == base64_codes(b),
    ensures
        a == b,
    decreases a.len(),
{
    lemma_base64_codes_len(a);
    lemma_base64_codes_len(b);
    if a.len() == 0 || b.len() == 0 {
        assert(a.len() == 0 && b.len() == 0);
        assert(a =~= b);
        return;
    }
    let ca = base64_codes(a);
    let cb = base64_codes(b);
    assert(ca[0] == cb[0] && ca[1] == cb[1] && ca[2] == cb[2] && ca[3] == cb[3]);
    let a0 = a[0] as int;
    let b0 = b[0] as int;
    lemma_b64_symbol(a0 / 4, b0 / 4);
    if a.len() >= 2 {
        lemma_b64_symbol((a0 % 4) * 16 + (a[1] as int) / 16, (a0 % 4) * 16 + (a[1] as int) / 16);
    }
    if b.len() >= 2 {
        lemma_b64_symbol((b0 % 4) * 16 + (b[1] as int) / 16, (b0 % 4) * 16 + (b[1] as int) / 16);
    }
    if a.len() >= 3 {
        lemma_b64_symbol(((a[1] as int) % 16) * 4 + (a[2] as int) / 64, 0);
        lemma_b64_symbol((a[2] as int) % 64, 0);
    } else if a.len() == 2 {
        lemma_b64_symbol(((a[1] as int) % 16) * 4, 0);
    }
    if b.len() >= 3 {
        lemma_b64_symbol(((b[1] as int) % 16) * 4 + (b[2] as int) / 64, 0);
        lemma_b64_symbol((b[2] as int) % 64, 0);
    } else if b.len() == 2 {
        lemma_b64_symbol(((b[1] as int) % 16) * 4, 0);
    }
    // the padding tells the three shapes of the last group apart
    assert((a.len() == 1) == (b.len() == 1));
    assert((a.len() == 2) == (b.len() == 2));
    if a.len() == 1 {
        lemma_b64_symbol(a0 / 4, b0 / 4);
        lemma_b64_symbol((a0 % 4) * 16, (b0 % 4) * 16);
        assert(a0 == b0);
        assert(a =~= b);
    } else if a.len() == 2 {
        let a1 = a[1] as int;
        let b1 = b[1] as int;
        lemma_b64_symbol((a0 % 4) * 16 + a1 / 16, (b0 % 4) * 16 + b1 / 16);
        lemma_b64_symbol((a1 % 16) * 4, (b1 % 16) * 4);
        assert(a0 == b0);
        assert(a1 == b1);
        assert(a =~= b);
    } else {
        let a1 = a[1] as int;
        let b1 = b[1] as int;
        let a2 = a[2] as int;
        let b2 = b[2] as int;
        lemma_b64_symbol((a0 % 4) * 16 + a1 / 16, (b0 % 4) * 16 + b1 / 16);
        lemma_b64_symbol((a1 % 16) * 4 + a2 / 64, (b1 % 16) * 4 + b2 / 64);
        lemma_b64_symbol(a2 % 64, b2 % 64);
        assert(a0 == b0);
        assert(a1 == b1);
        assert(a2 == b2);
        let ra = a.subrange(3, a.len() as int);
        let rb = b.subrange(3, b.len() as int);
        assert(base64_codes(ra) =~= ca.subrange(4, ca.len() as int));
        assert(base64_codes(rb) =~= cb.subrange(4, cb.len() as int));
        lemma_base64_codes_injective(ra, rb);
        assert(a =~= b) by {
            assert forall|i: int| 0 <= i < a.len() implies a[i] == b[i] by {
                if i >= 3 {
                    assert(a[i] == ra[i - 3]);
                    assert(b[i] == rb[i - 3]);
                }
            }
        }
    }
}

/// A text is the Base64 text of one byte string at most, so decoding it gives that one.
pub proof fn lemma_base64_decode_unique(t: Seq<char>, b: Seq<u8>)
    requires
        base64_is(t, b),
    ensures
        base64_decode(t) == Some(b),
{
    let c = choose|x: Seq<u8>| base64_is(t, x);
    assert(base64_is(t, c));
    assert(base64_codes(c) =~= base64_codes(b)) by {
        assert forall|i: int| 0 <= i < base64_codes(b).len() implies base64_codes(c)[i] == base64_codes(b)[i] by {
            assert(t[i] as int == base64_codes(b)[i]);
        }
    }
    lemma_base64_codes_injective(c, b);
}

/// `sha2::Sha256::digest`: the result is named; a SHA-256 digest is 32 bytes.
#[verifier::external_body]
pub(crate) fn sha256_digest(data: &[u8]) -> (r: Vec<u8>)
    ensures
        r@ == sha256_spec(data@),
        r@.len() == 32,
{
    sha2::Sha256::digest(data).to_vec()
}

/// `Aes256Gcm::encrypt` under a 32-byte key and a 12-byte nonce. What comes back is
/// named; it is the plaintext's length plus the 16-byte tag, and decryption with the
/// same key and nonce gives the plaintext back (the correctness of an AEAD that the
/// crate documents). The key is of the cipher's size, so building the cipher succeeds;
/// encryption fails only for a plaintext longer than the cipher's limit `P_MAX`, 2^36
/// bytes (then with the crate's `aead::Error`), so it succeeds on every plaintext up to
/// that length.
#[verifier::external_body]
fn aes_seal(key: &Vec<u8>, nonce: &Vec<u8>, plaintext: &[u8]) -> (r: Result<Vec<u8>, String>)
    requires
        key@.len() == 32,
        nonce@.len() == 12,
    ensures
        r is Ok <==> plaintext@.len() <= 0x10_0000_0000,
        r matches Err(e) ==> e@ == "aead::Error"@,
        r matches Ok(c) ==> c@ == aes_gcm_seal(key@, nonce@, plaintext@),
        r matches Ok(c) ==> c@.len() == plaintext@.len() + 16,
        r matches Ok(c) ==> aes_gcm_open(key@, nonce@, c@) == Some(plaintext@),
{
    let cipher = aes_gcm::Aes256Gcm::new_from_slice(key).map_err(|e| e.to_string())?;
    cipher.encrypt(aes_gcm::Nonce::from_slice(nonce), plaintext).map_err(|e| e.to_string())
}

/// `Aes256Gcm::decrypt` under a 32-byte key and a 12-byte nonce; the result is named.
/// A key of the cipher's size always builds the cipher, so the only failure is the
/// crate's opaque `aead::Error`, whose text is `aead::Error`.
#[verifier::external_body]
fn aes_open(key: &Vec<u8>, nonce: &[u8], ciphertext: &[u8]) -> (r: Result<Vec<u8>, String>)
    requires
        key@.len() == 32,
        nonce@.len() == 12,
    ensures
        match r {
            Ok(p) => aes_gcm_open(key@, nonce@, ciphertext@) == Some(p@),
            Err(e) => aes_gcm_open(key@, nonce@, ciphertext@) is None && e@ == "aead::Error"@,
        },
{
    let cipher = aes_gcm::Aes256Gcm::new_from_slice(key).map_err(|e| e.to_string())?;
    cipher.decrypt(aes_gcm::Nonce::from_slice(nonce), ciphertext).map_err(|e| e.to_string())
}

/// Twelve bytes from `rand::thread_rng`; nothing is stated of their values.
#[verifier::external_body]
fn random_nonce() -> (r: Vec<u8>)
    ensures
        r@.len() == 12,
{
    let mut nonce_bytes = [0u8; 12];
    rand::thread_rng().fill_bytes(&mut nonce_bytes);
    nonce_bytes.to_vec()
}

/// base64 `STANDARD.encode`: the standard alphabet with `=` padding.
#[verifier::external_body]
fn b64_encode(data: &Vec<u8>) -> (r: String)
    ensures
        base64_is(r@, data@),
{
    base64::engine::general_purpose::STANDARD.encode(data)
}

/// base64 `STANDARD.decode`: its configuration requires canonical padding and rejects
/// set trailing bits, so it accepts exactly the texts that `STANDARD.encode` writes and
/// gives back the bytes they encode.
#[verifier::external_body]
fn b64_decode(text: &str) -> (r: Result<Vec<u8>, String>)
    ensures
        match r {
            Ok(b) => base64_is(text@, b@),
            Err(_) => forall|b: Seq<u8>| !base64_is(text@, b),
        },
{
    base64::engine::general_purpose::STANDARD.decode(text).map_err(|e| e.to_string())
}

/// std `String::from_utf8`: valid UTF-8 decodes to its characters.
#[verifier::external_body]
fn utf8_to_string(bytes: Vec<u8>) -> (r: Result<String, String>)
    ensures
        match r {
            Ok(s) => valid_utf8(bytes@) && s@ == decode_utf8(bytes@),
            Err(_) => !valid_utf8(bytes@),
        },
{
    String::from_utf8(bytes).map_err(|e| e.to_string())
}

/// The UTF-8 bytes of a string, as an owned vector.
pub(crate) fn utf8_bytes(s: &str) -> (r: Vec<u8>)
    ensures
        r@ == encode_utf8(s@),
{
    vstd::slice::slice_to_vec(s.as_bytes())
}

// ---------------------------------------------------------------------------
// Encryption of secrets
// ---------------------------------------------------------------------------

/// The AES key derived from an encryption key: SHA-256 of its trimmed UTF-8 bytes.
pub open spec fn derived_key(key: Seq<char>) -> Seq<u8> {
    sha256_spec(encode_utf8(trim_ws(key)))
}

/// `t` is the text that `encrypt_value` produces with the given nonce: the Base64 of the
/// nonce followed by the AES-256-GCM ciphertext.
pub open spec fn is_sealed_text(t: Seq<char>, plaintext: Seq<char>, key: Seq<char>, nonce: Seq<u8>) -> bool {
    base64_is(t, nonce + aes_gcm_seal(derived_key(key), nonce, encode_utf8(plaintext)))
}

/// The plaintext that `decrypt_value` recovers, if it recovers one: the Base64 text
/// must decode to a 12-byte nonce and a non-empty ciphertext that opens under the
/// derived key to valid UTF-8.
pub open spec fn decrypt_spec(encoded: Seq<char>, key: Seq<char>) -> Option<Seq<char>> {
    if !encryption_ready_spec(key) {
        None
    } else {
        match base64_decode(encoded) {
            None => None,
            Some(packed) => {
                if packed.len() < 13 {
                    None
                } else {
                    match aes_gcm_open(
                        derived_key(key),
                        packed.subrange(0, 12),
                        packed.subrange(12, packed.len() as int),
                    ) {
                        None => None,
                        Some(p) => if valid_utf8(p) {
                            Some(decode_utf8(p))
                        } else {
                            None
                        },
                    }
                }
            },
        }
    }
}

fn derive_key(key: &str) -> (r: Vec<u8>)
    ensures
        r@ == derived_key(key@),
        r@.len() == 32,
{
    let t = trim_string(key);
    let bytes = utf8_bytes(t.as_str());
    sha256_digest(bytes.as_slice())
}

/// Encrypts a secret: Base64 of a fresh random nonce followed by the AES-256-GCM
/// ciphertext. Whatever comes out decrypts to the plaintext again under the same key.
pub fn encrypt_value(plaintext: &str, encryption_key: &str) -> (r: Result<String, String>)
    ensures
        !encryption_ready_spec(encryption_key@) ==> (r matches Err(e) && e@
            == "ENCRYPTION_KEY not configured"@),
        r matches Ok(c) ==> encryption_ready_spec(encryption_key@) && exists|nonce: Seq<u8>|
            nonce.len() == 12 && is_sealed_text(c@, plaintext@, encryption_key@, nonce),
        r matches Ok(c) ==> decrypt_spec(c@, encryption_key@) == Some(plaintext@),
        r matches Ok(c) ==> base64_decode(c@) matches Some(b) && b.len() == 12 + encode_utf8(
            plaintext@,
        ).len() + 16,
        encryption_ready_spec(encryption_key@) && encode_utf8(plaintext@).len() <= 0x10_0000_0000
            ==> r is Ok,
        encryption_ready_spec(encryption_key@) && encode_utf8(plaintext@).len() > 0x10_0000_0000
            ==> (r matches Err(e) && e@ == "aead::Error"@),
{
    if !encryption_ready(encryption_key) {
        return Err(to_owned_string("ENCRYPTION_KEY not configured"));
    }
    let key = derive_key(encryption_key);
    let nonce = random_nonce();
    let pt = utf8_bytes(plaintext);
    let sealed = aes_seal(&key, &nonce, pt.as_slice());
    let ciphertext = match sealed {
        Ok(c) => c,
        Err(e) => return Err(e),
    };
    let mut packed: Vec<u8> = Vec::new();
    let mut i: usize = 0;
    while i < nonce.len()
        invariant
            i <= nonce.len(),
            packed@ == nonce@.subrange(0, i as int),
        decreases nonce.len() - i,
    {
        packed.push(nonce[i]);
        i = i + 1;
        assert(packed@ == nonce@.subrange(0, i as int));
    }
    let mut j: usize = 0;
    while j < ciphertext.len()
        invariant
            j <= ciphertext.len(),
            nonce@.len() == 12,
            packed@ == nonce@ + ciphertext@.subrange(0, j as int),
        decreases ciphertext.len() - j,
    {
        packed.push(ciphertext[j]);
        j = j + 1;
        assert(packed@ == nonce@ + ciphertext@.subrange(0, j as int));
    }
    assert(ciphertext@.subrange(0, ciphertext@.len() as int) == ciphertext@);
    let out = b64_encode(&packed);
    proof {
        let p = packed@;
        assert(p.subrange(0, 12) == nonce@);
        assert(p.subrange(12, p.len() as int) == ciphertext@);
        vstd::utf8::encode_utf8_valid_utf8(plaintext@);
        vstd::utf8::encode_utf8_decode_utf8(plaintext@);
        assert(is_sealed_text(out@, plaintext@, encryption_key@, nonce@));
        lemma_base64_decode_unique(out@, p);
        assert(base64_decode(out@) == Some(p));
        assert(p.len() >= 13);
        assert(aes_gcm_open(key@, nonce@, ciphertext@) == Some(pt@));
        assert(decrypt_spec(out@, encryption_key@) == Some(plaintext@));
    }
    Ok(out)
}

/// Decrypts the output of `encrypt_value`.
pub fn decrypt_value(encoded: &str, encryption_key: &str) -> (r: Result<String, String>)
    ensures
        !encryption_ready_spec(encryption_key@) ==> (r matches Err(e) && e@
            == "ENCRYPTION_KEY not configured"@),
        match r {
            Ok(p) => decrypt_spec(encoded@, encryption_key@) == Some(p@),
            Err(_) => decrypt_spec(encoded@, encryption_key@) is None,
        },
        encryption_ready_spec(encryption_key@) ==> (base64_decode(encoded@) matches Some(b) ==> ({
            &&& b.len() < 13 ==> (r matches Err(e) && e@ == "invalid ciphertext"@)
            &&& (b.len() >= 13 && aes_gcm_open(
                derived_key(encryption_key@),
                b.subrange(0, 12),
                b.subrange(12, b.len() as int),
            ) is None) ==> (r matches Err(e) && e@ == "aead::Error"@)
        })),
{
    if !encryption_ready(encryption_key) {
        return Err(to_owned_string("ENCRYPTION_KEY not configured"));
    }
    let packed = match b64_decode(encoded) {
        Ok(b) => b,
        Err(e) => return Err(e),
    };
    proof {
        lemma_base64_decode_unique(encoded@, packed@);
    }
    if packed.len() < 13 {
        return Err(to_owned_string("invalid ciphertext"));
    }
    let (nonce_bytes, ciphertext) = packed.as_slice().split_at(12);
    let key = derive_key(encryption_key);
    let plain = match aes_open(&key, nonce_bytes, ciphertext) {
        Ok(p) => p,
        Err(e) => return Err(e),
    };
    utf8_to_string(plain)
}

} // verus!
