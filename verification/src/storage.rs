//! The encrypted at-rest envelope: a base64 text blob decoding to the magic
//! `GSK1`, a version byte, a 16-byte salt, a 12-byte nonce, and the
//! AES-256-GCM sealed box of the plaintext under the Argon2id key of the
//! master secret and the salt.
use vstd::prelude::*;

use crate::crypto::{aead_open, aead_seal, argon_key, b64_decode, b64_encode, b64_of, gcm_seal,
    kdf_derive, rand_bytes, wipe_bytes};

verus! {

/// Why an envelope could not be produced or opened.
#[derive(Debug, Clone, Copy, PartialEq, Eq, Structural)]
pub enum CodecError {
    /// The blob is shorter than a frame with empty ciphertext.
    TooShort,
    /// The frame does not begin with the magic bytes.
    BadMagic,
    /// The blob is not base64 text.
    Base64,
    /// The sealed box did not authenticate: wrong master secret or a tampered
    /// file.
    AuthFailed,
    /// The plaintext does not hold a value of the expected shape.
    JsonParse,
    /// The plaintext is over the cipher's length cap and cannot be sealed.
    SealFailed,
}

/// The longest plaintext, in characters, that an envelope seals: at most
/// four UTF-8 bytes per character keeps the buffer under the cipher's
/// 2^36-byte cap.
pub open spec fn seal_cap() -> int {
    0x200000000
}

/// The envelope frame: magic, version 1, salt, nonce, sealed box.
pub open spec fn frame_bytes(salt: Seq<u8>, nonce: Seq<u8>, ct: Seq<u8>) -> Seq<u8> {
    seq![71u8, 83u8, 75u8, 49u8, 1u8] + salt + nonce + ct
}

/// The blob is an envelope that the master secret `pass` opens to the
/// plaintext `pt`.
pub open spec fn envelope_opens_to(blob: Seq<char>, pass: Seq<u8>, pt: Seq<char>) -> bool {
    exists|salt: Seq<u8>, nonce: Seq<u8>|
        salt.len() == 16 && nonce.len() == 12 && blob == b64_of(
            frame_bytes(salt, nonce, #[trigger] gcm_seal(argon_key(pass, salt), nonce, pt)),
        )
}

/// Seal `pt` under the master secret with a fresh salt and nonce.
pub fn seal_envelope(pt: &Vec<char>, pass: &Vec<u8>) -> (blob: String)
    requires
        pass@.len() < 0xFFFFFFFF,
        pt@.len() <= seal_cap(),
    ensures
        envelope_opens_to(blob@, pass@, pt@),
{
    let salt = rand_bytes(16);
    let nonce = rand_bytes(12);
    let mut key = kdf_derive(pass, &salt);
    let ct = aead_seal(&key, &nonce, pt);
    wipe_bytes(&mut key);
    let mut out: Vec<u8> = Vec::new();
    out.push(71u8);
    out.push(83u8);
    out.push(75u8);
    out.push(49u8);
    out.push(1u8);
    out.extend_from_slice(salt.as_slice());
    out.extend_from_slice(nonce.as_slice());
    out.extend_from_slice(ct.as_slice());
    proof {
        assert(out@ =~= frame_bytes(salt@, nonce@, ct@));
    }
    let blob = b64_encode(&out);
    proof {
        assert(blob@ == b64_of(frame_bytes(salt@, nonce@, gcm_seal(
            argon_key(pass@, salt@),
            nonce@,
            pt@,
        ))));
    }
    blob
}

/// Open an envelope under the master secret.
pub fn open_envelope(blob: &str, pass: &Vec<u8>) -> (r: Result<Vec<char>, CodecError>)
    requires
        pass@.len() < 0xFFFFFFFF,
    ensures
        forall|pt: Seq<char>|
            envelope_opens_to(blob@, pass@, pt) ==> (r matches Ok(p) && p@ == pt),
        r matches Ok(p) ==> envelope_opens_to(blob@, pass@, p@),
        r matches Err(e) ==> (e == CodecError::Base64 || e == CodecError::TooShort || e
            == CodecError::BadMagic || e == CodecError::AuthFailed),
        // the checks run in this order: base64, then length, then magic
        (r == Err::<Vec<char>, CodecError>(CodecError::Base64)) <==> (forall|b: Seq<u8>|
            blob@ != b64_of(b)),
        (r == Err::<Vec<char>, CodecError>(CodecError::TooShort)) <==> (exists|b: Seq<u8>|
            blob@ == #[trigger] b64_of(b) && b.len() < 33),
        (r == Err::<Vec<char>, CodecError>(CodecError::BadMagic)) <==> (exists|b: Seq<u8>|
            blob@ == #[trigger] b64_of(b) && b.len() >= 33 && !(b[0] == 71u8 && b[1] == 83u8
                && b[2] == 75u8 && b[3] == 49u8 && b[4] == 1u8)),
{
    let data = match b64_decode(blob) {
        Result::Ok(d) => d,
        Result::Err(_) => {
            proof {
                assert forall|pt: Seq<char>| !envelope_opens_to(blob@, pass@, pt) by {
                    if envelope_opens_to(blob@, pass@, pt) {
                        let (salt, nonce) = choose|salt: Seq<u8>, nonce: Seq<u8>|
                            salt.len() == 16 && nonce.len() == 12 && blob@ == b64_of(
                                frame_bytes(salt, nonce, #[trigger] gcm_seal(
                                    argon_key(pass@, salt),
                                    nonce,
                                    pt,
                                )),
                            );
                        assert(blob@ == b64_of(
                            frame_bytes(salt, nonce, gcm_seal(argon_key(pass@, salt), nonce, pt)),
                        ));
                    }
                }
            }
            return Err(CodecError::Base64);
        },
    };
    let n = data.len();
    if n < 33 {
        proof {
            lemma_no_open_short_or_bad(blob@, pass@, data@);
        }
        return Err(CodecError::TooShort);
    }
    if !(data[0] == 71u8 && data[1] == 83u8 && data[2] == 75u8 && data[3] == 49u8 && data[4]
        == 1u8) {
        proof {
            lemma_no_open_short_or_bad(blob@, pass@, data@);
        }
        return Err(CodecError::BadMagic);
    }
    let mut salt: Vec<u8> = Vec::new();
    let mut i: usize = 5;
    while i < 21
        invariant
            5 <= i <= 21,
            n == data@.len(),
            n >= 33,
            salt@ =~= data@.subrange(5, i as int),
        decreases 21 - i,
    {
        salt.push(data[i]);
        proof {
            assert(data@.subrange(5, i + 1) =~= data@.subrange(5, i as int) + seq![
                data@[i as int],
            ]);
        }
        i = i + 1;
    }
    let mut nonce: Vec<u8> = Vec::new();
    let mut j: usize = 21;
    while j < 33
        invariant
            21 <= j <= 33,
            n == data@.len(),
            n >= 33,
            nonce@ =~= data@.subrange(21, j as int),
        decreases 33 - j,
    {
        nonce.push(data[j]);
        proof {
            assert(data@.subrange(21, j + 1) =~= data@.subrange(21, j as int) + seq![
                data@[j as int],
            ]);
        }
        j = j + 1;
    }
    let mut ct: Vec<u8> = Vec::new();
    let mut k: usize = 33;
    while k < n
        invariant
            33 <= k <= n,
            n == data@.len(),
            ct@ =~= data@.subrange(33, k as int),
        decreases n - k,
    {
        ct.push(data[k]);
        proof {
            assert(data@.subrange(33, k + 1) =~= data@.subrange(33, k as int) + seq![
                data@[k as int],
            ]);
        }
        k = k + 1;
    }
    let mut key = kdf_derive(pass, &salt);
    let opened = aead_open(&key, &nonce, &ct);
    wipe_bytes(&mut key);
    proof {
        lemma_frame_fields(blob@, pass@, data@, salt@, nonce@, ct@);
    }
    match opened {
        Result::Ok(p) => {
            proof {
                assert(data@ =~= frame_bytes(salt@, nonce@, ct@));
                assert(blob@ == b64_of(frame_bytes(salt@, nonce@, gcm_seal(
                    argon_key(pass@, salt@),
                    nonce@,
                    p@,
                ))));
                assert(envelope_opens_to(blob@, pass@, p@));
            }
            Ok(p)
        },
        Result::Err(_) => Err(CodecError::AuthFailed),
    }
}

/// A blob whose decoded frame is too short or has the wrong magic opens to
/// nothing.  The hypothesis on `data` is what the decoder's contract gives:
/// `data` is the one byte string whose base64 text is `blob`.
proof fn lemma_no_open_short_or_bad(blob: Seq<char>, pass: Seq<u8>, data: Seq<u8>)
    requires
        forall|b: Seq<u8>| blob == b64_of(b) ==> data == b,
        data.len() < 33 || !(data.len() >= 5 && data[0] == 71u8 && data[1] == 83u8 && data[2]
            == 75u8 && data[3] == 49u8 && data[4] == 1u8),
    ensures
        forall|pt: Seq<char>| !envelope_opens_to(blob, pass, pt),
{
    assert forall|pt: Seq<char>| !envelope_opens_to(blob, pass, pt) by {
        if envelope_opens_to(blob, pass, pt) {
            let (salt, nonce) = choose|salt: Seq<u8>, nonce: Seq<u8>|
                salt.len() == 16 && nonce.len() == 12 && blob == b64_of(
                    frame_bytes(salt, nonce, #[trigger] gcm_seal(argon_key(pass, salt), nonce, pt)),
                );
            let f = frame_bytes(salt, nonce, gcm_seal(argon_key(pass, salt), nonce, pt));
            assert(data == f);
            assert(f.len() >= 33);
            assert(f[0] == 71u8 && f[1] == 83u8 && f[2] == 75u8 && f[3] == 49u8 && f[4] == 1u8);
        }
    }
}

/// If the decoded frame splits into the magic, salt, nonce and box, then any
/// plaintext the blob opens to was sealed into exactly that box under that
/// salt and nonce.  The first hypothesis is what the decoder's contract
/// gives: `data` is the one byte string whose base64 text is `blob`.
proof fn lemma_frame_fields(
    blob: Seq<char>,
    pass: Seq<u8>,
    data: Seq<u8>,
    salt: Seq<u8>,
    nonce: Seq<u8>,
    ct: Seq<u8>,
)
    requires
        forall|b: Seq<u8>| blob == b64_of(b) ==> data == b,
        data.len() >= 33,
        salt == data.subrange(5, 21),
        nonce == data.subrange(21, 33),
        ct == data.subrange(33, data.len() as int),
    ensures
        forall|pt: Seq<char>|
            envelope_opens_to(blob, pass, pt) ==> ct == gcm_seal(argon_key(pass, salt), nonce, pt),
{
    assert forall|pt: Seq<char>| envelope_opens_to(blob, pass, pt) implies ct == gcm_seal(
        argon_key(pass, salt),
        nonce,
        pt,
    ) by {
        let (salt2, nonce2) = choose|salt2: Seq<u8>, nonce2: Seq<u8>|
            salt2.len() == 16 && nonce2.len() == 12 && blob == b64_of(
                frame_bytes(salt2, nonce2, #[trigger] gcm_seal(argon_key(pass, salt2), nonce2, pt)),
            );
        let ct2 = gcm_seal(argon_key(pass, salt2), nonce2, pt);
        let f = frame_bytes(salt2, nonce2, ct2);
        assert(data == f);
        assert(salt2 =~= data.subrange(5, 21)) by {
            assert(forall|x: int| 0 <= x < 16 ==> f[5 + x] == salt2[x]);
        }
        assert(nonce2 =~= data.subrange(21, 33)) by {
            assert(forall|x: int| 0 <= x < 12 ==> f[21 + x] == nonce2[x]);
        }
        assert(ct2 =~= data.subrange(33, data.len() as int)) by {
            assert(forall|x: int| 0 <= x < ct2.len() ==> f[33 + x] == ct2[x]);
        }
    }
}

} // verus!
