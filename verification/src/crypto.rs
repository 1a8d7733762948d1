//! Trusted boundary to the cryptographic crates: random bytes, the Argon2id
//! key derivation, AES-256-GCM sealing and opening, base64, and zeroization.
//! Each item's contract states only what the crate's own code shows.
use aes_gcm::aead::Aead;
use aes_gcm::aead::KeyInit;
use base64::Engine;
use rand::RngCore;
use vstd::prelude::*;
use zeroize::Zeroize;

verus! {

/// The 32-byte key that Argon2id (default parameters) derives from a password
/// and a salt.  A function of its arguments alone.
pub uninterp spec fn argon_key(pass: Seq<u8>, salt: Seq<u8>) -> Seq<u8>;

/// The AES-256-GCM sealed box (ciphertext and tag) of the UTF-8 bytes of
/// `pt` under `key` and `nonce`.  A function of its arguments alone.
pub uninterp spec fn gcm_seal(key: Seq<u8>, nonce: Seq<u8>, pt: Seq<char>) -> Seq<u8>;

/// The base64 (standard alphabet, padded) text of `data`.
pub uninterp spec fn b64_of(data: Seq<u8>) -> Seq<char>;

/// The base64 (standard alphabet, unpadded) text of `data`.
pub uninterp spec fn b64_nopad_of(data: Seq<u8>) -> Seq<char>;

/// Relies on rand's `thread_rng` and `fill_bytes`: `n` bytes from the
/// process-wide CSPRNG.  Nothing is promised of their values.
#[verifier::external_body]
pub fn rand_bytes(n: usize) -> (r: Vec<u8>)
    ensures
        r@.len() == n,
{
    let mut v = vec![0u8; n];
    rand::thread_rng().fill_bytes(&mut v);
    v
}

/// Relies on argon2's `Argon2::default().hash_password_into`: Argon2id with
/// the crate's default parameters writes a key that depends on the password
/// and the salt alone.  Its own checks (password below the crate's length
/// cap, salt between 8 bytes and the cap, output of 32 bytes) all pass under
/// this precondition, so it returns the key.
#[verifier::external_body]
pub fn kdf_derive(pass: &Vec<u8>, salt: &Vec<u8>) -> (r: Vec<u8>)
    requires
        pass@.len() < 0xFFFFFFFF,
        salt@.len() == 16,
    ensures
        r@ == argon_key(pass@, salt@),
        r@.len() == 32,
{
    let mut key = [0u8; 32];
    argon2::Argon2::default()
        .hash_password_into(pass, salt, &mut key)
        .expect("Argon2id accepts a 16-byte salt and a 32-byte output");
    key.to_vec()
}

/// Relies on aes-gcm's `Aes256Gcm::encrypt`: the sealed box is a function of
/// key, nonce and plaintext.  Its only failure is a plaintext above the
/// cipher's cap of 2^36 bytes; a character takes at most four bytes, so the
/// precondition keeps the buffer under the cap and the call returns the box.
#[verifier::external_body]
pub fn aead_seal(key: &Vec<u8>, nonce: &Vec<u8>, pt: &Vec<char>) -> (r: Vec<u8>)
    requires
        key@.len() == 32,
        nonce@.len() == 12,
        pt@.len() <= 0x200000000,
    ensures
        r@ == gcm_seal(key@, nonce@, pt@),
{
    let cipher = aes_gcm::Aes256Gcm::new_from_slice(key)
        .expect("a 32-byte key fits AES-256");
    let mut nb = [0u8; 12];
    nb.copy_from_slice(nonce);
    let text: String = pt.iter().collect();
    aes_gcm::aead::Aead::encrypt(&cipher, &aes_gcm::Nonce::from(nb), text.as_bytes())
        .expect("the plaintext is under the cipher's cap")
}

/// Relies on aes-gcm's `Aes256Gcm::decrypt`: a sealed box opens to exactly
/// the plaintext it was sealed from.  GCM is counter mode plus a tag over the
/// ciphertext, so sealing is injective in the plaintext, re-sealing what a
/// successful open returned reproduces the box, and a box that was sealed
/// from some plaintext always opens.
#[verifier::external_body]
pub fn aead_open(key: &Vec<u8>, nonce: &Vec<u8>, ct: &Vec<u8>) -> (r: Result<Vec<char>, ()>)
    requires
        key@.len() == 32,
        nonce@.len() == 12,
    ensures
        match r {
            Result::Ok(p) => ct@ == gcm_seal(key@, nonce@, p@) && (forall|pt: Seq<char>|
                ct@ == gcm_seal(key@, nonce@, pt) ==> p@ == pt),
            Result::Err(e) => forall|pt: Seq<char>| ct@ != gcm_seal(key@, nonce@, pt),
        },
{
    let cipher = aes_gcm::Aes256Gcm::new_from_slice(key).map_err(|_| ())?;
    let mut nb = [0u8; 12];
    nb.copy_from_slice(nonce);
    let bytes = cipher.decrypt(&aes_gcm::Nonce::from(nb), ct.as_slice()).map_err(|_| ())?;
    let text = String::from_utf8(bytes).map_err(|_| ())?;
    Ok(text.chars().collect())
}

/// Relies on base64's `STANDARD` engine: encoding is a function of the bytes.
#[verifier::external_body]
pub fn b64_encode(data: &Vec<u8>) -> (r: String)
    ensures
        r@ == b64_of(data@),
{
    base64::engine::general_purpose::STANDARD.encode(data)
}

/// Relies on base64's `STANDARD` engine: decoding accepts exactly the texts
/// that encoding produces (canonical padding is required and set trailing
/// bits are rejected) and returns the bytes that were encoded; encoding is
/// injective because decoding inverts it.
#[verifier::external_body]
pub fn b64_decode(s: &str) -> (r: Result<Vec<u8>, ()>)
    ensures
        match r {
            Result::Ok(v) => s@ == b64_of(v@) && (forall|b: Seq<u8>| s@ == b64_of(b) ==> v@ == b),
            Result::Err(e) => forall|b: Seq<u8>| s@ != b64_of(b),
        },
{
    base64::engine::general_purpose::STANDARD.decode(s.as_bytes()).map_err(|_| ())
}

/// Relies on base64's `STANDARD_NO_PAD` engine: encoding is a function of the
/// bytes.
#[verifier::external_body]
pub fn b64_nopad_encode(data: &Vec<u8>) -> (r: String)
    ensures
        r@ == b64_nopad_of(data@),
{
    base64::engine::general_purpose::STANDARD_NO_PAD.encode(data)
}

/// Relies on base64's `STANDARD_NO_PAD` engine: decoding accepts exactly the
/// texts that encoding produces (padding is refused and set trailing bits are
/// rejected) and returns the bytes that were encoded; encoding is injective
/// because decoding inverts it.
#[verifier::external_body]
pub fn b64_nopad_decode(s: &str) -> (r: Result<Vec<u8>, ()>)
    ensures
        match r {
            Result::Ok(v) => s@ == b64_nopad_of(v@) && (forall|b: Seq<u8>|
                s@ == b64_nopad_of(b) ==> v@ == b),
            Result::Err(e) => forall|b: Seq<u8>| s@ != b64_nopad_of(b),
        },
{
    base64::engine::general_purpose::STANDARD_NO_PAD.decode(s.as_bytes()).map_err(|_| ())
}

/// Relies on zeroize's `Zeroize` for `Vec<u8>`: the buffer, including spare
/// capacity, is overwritten with zeros and the vector is emptied.
#[verifier::external_body]
pub fn wipe_bytes(v: &mut Vec<u8>)
    ensures
        final(v)@.len() == 0,
{
    v.zeroize();
}

/// Relies on zeroize's `Zeroize` for `String`: the buffer is overwritten with
/// zeros and the string is emptied.
#[verifier::external_body]
pub fn wipe_string(s: &mut String)
    ensures
        final(s)@.len() == 0,
{
    s.zeroize();
}

} // verus!
