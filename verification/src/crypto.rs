//! Authenticated encryption for off-device settings backup: a key derived
//! from the password by PBKDF2-HMAC-SHA256 over 100 000 rounds, AES-256-GCM
//! with a fresh 16-byte salt and 12-byte nonce per message, and the envelope
//! `salt ‖ nonce ‖ ciphertext` carried as base64.

use vstd::prelude::*;

use crate::b64::{
    b64_decode_std, b64_encode_std, lemma_b64_std_roundtrip, spec_b64_decode_std,
    spec_b64_encode_std,
};
use vstd::utf8::{decode_utf8, encode_utf8, valid_utf8};
use aes_gcm::{Aes256Gcm, KeyInit};
use rand::Rng;
use sha2::Digest;

verus! {

/// What PBKDF2-HMAC-SHA256 derives: a function of password, salt, round
/// count and output length alone.
pub uninterp spec fn spec_pbkdf2_key(
    password: Seq<u8>,
    salt: Seq<u8>,
    rounds: u32,
    out_len: int,
) -> Seq<u8>;

/// What SHA-256 digests: a function of the bytes alone.
pub uninterp spec fn spec_sha256_digest(data: Seq<u8>) -> Seq<u8>;

/// What AES-256-GCM sealing produces for a key, nonce and plaintext.
pub uninterp spec fn spec_aead_seal(key: Seq<u8>, nonce: Seq<u8>, plaintext: Seq<u8>) -> Seq<u8>;

/// What AES-256-GCM opening returns: the plaintext, or nothing when the
/// ciphertext does not authenticate under the key and nonce.
pub uninterp spec fn spec_aead_open(key: Seq<u8>, nonce: Seq<u8>, ciphertext: Seq<u8>) -> Option<
    Seq<u8>,
>;

/// Relies on rand's system-seeded generator to fill a buffer; nothing is
/// promised of the values beyond their count.
#[verifier::external_body]
pub fn random_bytes(n: usize) -> (r: Vec<u8>)
    ensures
        r@.len() == n,
{
    let mut buf = vec![0u8; n];
    rand::rng().fill_bytes(buf.as_mut_slice());
    buf
}

/// Relies on pbkdf2::pbkdf2_hmac with SHA-256: it fills the whole output
/// buffer, deterministically from password, salt and round count.
#[verifier::external_body]
pub fn pbkdf2_sha256(password: &[u8], salt: &[u8], rounds: u32, out_len: usize) -> (r: Vec<u8>)
    ensures
        r@ == spec_pbkdf2_key(password@, salt@, rounds, out_len as int),
        r@.len() == out_len,
{
    let mut key = vec![0u8; out_len];
    pbkdf2::pbkdf2_hmac::<sha2::Sha256>(password, salt, rounds, &mut key);
    key
}

/// Relies on sha2::Sha256: a 32-byte digest, deterministic in the input.
#[verifier::external_body]
pub fn sha256_digest(data: &[u8]) -> (r: Vec<u8>)
    ensures
        r@ == spec_sha256_digest(data@),
        r@.len() == 32,
{
    let mut hasher = sha2::Sha256::new();
    hasher.update(data);
    hasher.finalize().to_vec()
}

/// Relies on aes_gcm::Aes256Gcm sealing (the aead::Aead trait): the
/// ciphertext is the plaintext's length plus the 16-byte tag, deterministic
/// in key, nonce and plaintext, and opening it under the same key and nonce
/// returns the plaintext. Sealing fails only when the plaintext exceeds the
/// cipher's length bound of 2^36 - 32 bytes.
#[verifier::external_body]
pub fn aes256gcm_seal(key: &[u8], nonce: &[u8], plaintext: &[u8]) -> (r: Option<Vec<u8>>)
    requires
        key@.len() == 32,
        nonce@.len() == 12,
    ensures
        r matches Some(ct) ==> ct@ == spec_aead_seal(key@, nonce@, plaintext@) && ct@.len()
            == plaintext@.len() + 16 && spec_aead_open(key@, nonce@, ct@) == Some(plaintext@),
        plaintext@.len() <= 0xF_FFFF_FFE0 ==> r is Some,
{
    let cipher = Aes256Gcm::new_from_slice(key).ok()?;
    let nonce_arr = aes_gcm::aead::Nonce::<Aes256Gcm>::try_from(nonce).ok()?;
    aes_gcm::aead::Aead::encrypt(&cipher, &nonce_arr, plaintext).ok()
}

/// Relies on aes_gcm::Aes256Gcm opening (the aead::Aead trait): it returns
/// the sealed plaintext exactly when the ciphertext authenticates under the
/// key and nonce, deterministically.
#[verifier::external_body]
pub fn aes256gcm_open(key: &[u8], nonce: &[u8], ciphertext: &[u8]) -> (r: Option<Vec<u8>>)
    requires
        key@.len() == 32,
        nonce@.len() == 12,
    ensures
        (match r {
            Some(pt) => spec_aead_open(key@, nonce@, ciphertext@) == Some(pt@),
            None => spec_aead_open(key@, nonce@, ciphertext@) is None,
        }),
{
    let cipher = Aes256Gcm::new_from_slice(key).ok()?;
    let nonce_arr = aes_gcm::aead::Nonce::<Aes256Gcm>::try_from(nonce).ok()?;
    aes_gcm::aead::Aead::decrypt(&cipher, &nonce_arr, ciphertext).ok()
}

/// Relies on String::from_utf8: it succeeds exactly on well-formed UTF-8 and
/// returns the decoded string.
#[verifier::external_body]
pub fn string_from_utf8(bytes: Vec<u8>) -> (r: Option<String>)
    ensures
        r is Some <==> valid_utf8(bytes@),
        r matches Some(s) ==> s@ == decode_utf8(bytes@),
{
    String::from_utf8(bytes).ok()
}

/// Lowercase hex, two digits per byte.
pub open spec fn spec_hex_digit(d: int) -> char {
    if d < 10 {
        crate::textutil::spec_digit_char(d)
    } else if d == 10 {
        'a'
    } else if d == 11 {
        'b'
    } else if d == 12 {
        'c'
    } else if d == 13 {
        'd'
    } else if d == 14 {
        'e'
    } else {
        'f'
    }
}

pub open spec fn spec_hex_lower(bytes: Seq<u8>) -> Seq<char>
    decreases bytes.len(),
{
    if bytes.len() == 0 {
        Seq::empty()
    } else {
        spec_hex_lower(bytes.drop_last()) + seq![
            spec_hex_digit(bytes.last() as int / 16),
            spec_hex_digit(bytes.last() as int % 16),
        ]
    }
}

/// Hex writes two digits per byte.
pub proof fn lemma_hex_lower_len(bytes: Seq<u8>)
    ensures
        spec_hex_lower(bytes).len() == 2 * bytes.len(),
    decreases bytes.len(),
{
    if bytes.len() > 0 {
        lemma_hex_lower_len(bytes.drop_last());
    }
}

/// Relies on hex::encode: lowercase hex, two digits per byte, in order.
#[verifier::external_body]
pub fn hex_encode(bytes: &[u8]) -> (r: String)
    ensures
        r@ == spec_hex_lower(bytes@),
{
    hex::encode(bytes)
}

/// The derivation round count the envelope fixes.
pub open spec fn spec_kdf_rounds() -> u32 {
    100000
}

/// How an envelope decrypts under a password: base64, split into 16-byte
/// salt, 12-byte nonce and ciphertext, the key derived from the password and
/// salt, and the ciphertext opened.
pub open spec fn spec_decrypt_envelope(encoded: Seq<char>, password: Seq<char>) -> Option<
    Seq<u8>,
> {
    match spec_b64_decode_std(encoded) {
        None => None,
        Some(combined) => if combined.len() < 28 {
            None
        } else {
            let salt = combined.take(16);
            let nonce = combined.subrange(16, 28);
            let ct = combined.skip(28);
            let key = spec_pbkdf2_key(encode_utf8(password), salt, spec_kdf_rounds(), 32);
            spec_aead_open(key, nonce, ct)
        },
    }
}

/// Encrypts a settings blob under a password: fresh 16-byte salt and
/// 12-byte nonce, PBKDF2-derived key, AES-256-GCM, `salt ‖ nonce ‖
/// ciphertext` as base64. Decrypting the result under the same password
/// yields the plaintext back (with the wrong password or a corrupted
/// envelope, opening fails by the cipher's authentication). Encryption
/// succeeds for every plaintext within the cipher's length bound.
pub fn encrypt(plaintext: &str, password: &str) -> (r: Result<String, String>)
    ensures
        r matches Ok(s) ==> spec_decrypt_envelope(s@, password@) == Some(
            encode_utf8(plaintext@),
        ),
        r matches Ok(s) ==> (spec_b64_decode_std(s@) matches Some(combined) && combined.len()
            == encode_utf8(plaintext@).len() + 44),
        encode_utf8(plaintext@).len() <= 0xF_FFFF_FFE0 ==> r is Ok,
{
    let salt = random_bytes(16);
    let nonce = random_bytes(12);
    let key = pbkdf2_sha256(password.as_bytes(), salt.as_slice(), 100000, 32);
    let ct = match aes256gcm_seal(key.as_slice(), nonce.as_slice(), plaintext.as_bytes()) {
        Some(c) => c,
        None => {
            return Err("encryption failed".to_owned());
        },
    };
    let mut combined: Vec<u8> = Vec::new();
    append_bytes(&mut combined, &salt);
    append_bytes(&mut combined, &nonce);
    append_bytes(&mut combined, &ct);
    let encoded = b64_encode_std(combined.as_slice());
    proof {
        lemma_b64_std_roundtrip(combined@);
        assert(combined@.len() >= 28);
        assert(combined@.len() == encode_utf8(plaintext@).len() + 44);
        assert(combined@.take(16) =~= salt@);
        assert(combined@.subrange(16, 28) =~= nonce@);
        assert(combined@.skip(28) =~= ct@);
    }
    Ok(encoded)
}

/// Decrypts an envelope under a password; a bad envelope, a failed
/// authentication (wrong password or corruption, indistinguishably) or a
/// non-UTF-8 plaintext is an error.
pub fn decrypt(encrypted: &str, password: &str) -> (r: Result<String, String>)
    ensures
        r matches Ok(s) ==> (spec_decrypt_envelope(encrypted@, password@) matches Some(pt)
            && valid_utf8(pt) && s@ == decode_utf8(pt)),
        r is Err ==> (spec_decrypt_envelope(encrypted@, password@) is None
            || !valid_utf8(spec_decrypt_envelope(encrypted@, password@)->0)),
{
    let combined = match b64_decode_std(encrypted) {
        Some(c) => c,
        None => {
            return Err("invalid encrypted data".to_owned());
        },
    };
    if combined.len() < 28 {
        return Err("Invalid encrypted data: too short".to_owned());
    }
    let (salt, rest) = split_bytes(&combined, 16);
    let (nonce, ct) = split_bytes(&rest, 12);
    proof {
        assert(salt@ =~= combined@.take(16));
        assert(rest@ =~= combined@.skip(16));
        assert(nonce@ =~= combined@.subrange(16, 28));
        assert(ct@ =~= combined@.skip(28));
    }
    let key = pbkdf2_sha256(password.as_bytes(), salt.as_slice(), 100000, 32);
    let pt = match aes256gcm_open(key.as_slice(), nonce.as_slice(), ct.as_slice()) {
        Some(p) => p,
        None => {
            return Err("Decryption failed: wrong password or corrupted data".to_owned());
        },
    };
    match string_from_utf8(pt) {
        Some(s) => Ok(s),
        None => Err("decrypted data is not text".to_owned()),
    }
}

/// Derives the stable sync key for an account: the salt is the SHA-256 of
/// `mailclient-sync-{email}` truncated to 16 bytes, the key 32 bytes of
/// PBKDF2 under the password, reported in hex. The same password and address
/// always give the same key.
pub fn generate_encryption_key(password: &str, email: &str) -> (r: String)
    ensures
        r@ == spec_hex_lower(
            spec_pbkdf2_key(
                encode_utf8(password@),
                spec_sha256_digest(encode_utf8("mailclient-sync-"@ + email@)).take(16),
                spec_kdf_rounds(),
                32,
            ),
        ),
        r@.len() == 64,
{
    let mut salt_input = String::new();
    salt_input.append("mailclient-sync-");
    salt_input.append(email);
    let digest = sha256_digest(salt_input.as_str().as_bytes());
    let (salt, _) = split_bytes(&digest, 16);
    proof {
        assert(salt_input@ =~= "mailclient-sync-"@ + email@);
        assert(salt@ =~= spec_sha256_digest(encode_utf8("mailclient-sync-"@ + email@)).take(16));
    }
    let key = pbkdf2_sha256(password.as_bytes(), salt.as_slice(), 100000, 32);
    proof {
        lemma_hex_lower_len(key@);
    }
    hex_encode(key.as_slice())
}

fn append_bytes(dst: &mut Vec<u8>, src: &Vec<u8>)
    ensures
        final(dst)@ == old(dst)@ + src@,
{
    let mut i: usize = 0;
    while i < src.len()
        invariant
            i <= src@.len(),
            dst@ == old(dst)@ + src@.take(i as int),
        decreases src@.len() - i,
    {
        dst.push(src[i]);
        proof {
            assert(src@.take(i as int + 1) =~= src@.take(i as int).push(src@[i as int]));
            assert(dst@ =~= old(dst)@ + src@.take(i as int + 1));
        }
        i = i + 1;
    }
    proof {
        assert(src@.take(i as int) =~= src@);
    }
}

fn split_bytes(v: &Vec<u8>, at: usize) -> (r: (Vec<u8>, Vec<u8>))
    requires
        at <= v@.len(),
    ensures
        r.0@ == v@.take(at as int),
        r.1@ == v@.skip(at as int),
{
    let mut head: Vec<u8> = Vec::new();
    let mut k: usize = 0;
    while k < at
        invariant
            k <= at <= v@.len(),
            head@ == v@.take(k as int),
        decreases at - k,
    {
        head.push(v[k]);
        proof {
            assert(v@.take(k as int + 1) =~= v@.take(k as int).push(v@[k as int]));
        }
        k = k + 1;
    }
    let mut tail: Vec<u8> = Vec::new();
    let mut m: usize = at;
    proof {
        assert(tail@ =~= v@.subrange(at as int, at as int));
    }
    while m < v.len()
        invariant
            at <= m <= v@.len(),
            tail@ == v@.subrange(at as int, m as int),
        decreases v@.len() - m,
    {
        tail.push(v[m]);
        proof {
            assert(v@.subrange(at as int, m as int + 1) =~= v@.subrange(at as int, m as int).push(
                v@[m as int],
            ));
        }
        m = m + 1;
    }
    proof {
        assert(v@.subrange(at as int, v@.len() as int) =~= v@.skip(at as int));
    }
    (head, tail)
}

} // verus!
