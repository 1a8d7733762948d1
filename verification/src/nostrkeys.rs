//! Trusted boundary to the nostr crate's key handling: parsing secret
//! material, deriving public keys, and the bech32 and hex encodings.
use nostr::nips::nip19::FromBech32;
use nostr::nips::nip19::ToBech32;
use vstd::prelude::*;

verus! {

/// The 64-char hex public key derived from valid secret material (hex or
/// bech32).  A function of the material alone.
pub uninterp spec fn secret_hex_of(material: Seq<char>) -> Seq<char>;

/// The bech32 `npub` encoding of a hex public key.  A function of the hex
/// alone.
pub uninterp spec fn npub_of_hex(h: Seq<char>) -> Seq<char>;

/// The 64-char hex form of a bech32 `npub` public key.
pub uninterp spec fn hex_of_npub(n: Seq<char>) -> Seq<char>;

/// The bech32 `nsec` normal form of valid secret material.
pub uninterp spec fn nsec_of_secret(material: Seq<char>) -> Seq<char>;

/// The 64-char hex form of the secret key in valid secret material.
pub uninterp spec fn secret_plain_hex_of(material: Seq<char>) -> Seq<char>;

/// Whether the nostr crate accepts this string as secret-key material
/// (bech32 `nsec` or raw hex).  A property of the string alone.
pub uninterp spec fn secret_decodes(s: Seq<char>) -> bool;

/// Whether the nostr crate accepts this string as a hex public key.
pub uninterp spec fn pk_hex_decodes(s: Seq<char>) -> bool;

/// Whether the nostr crate accepts this string as a bech32 `npub` public
/// key.
pub uninterp spec fn npub_decodes(s: Seq<char>) -> bool;

/// Relies on nostr's `Keys::generate` and `ToBech32` for `SecretKey`: a
/// fresh random secret key in bech32, which the same crate parses back.
/// Nothing is promised of its value.
#[verifier::external_body]
pub fn generate_secret_key() -> (r: String)
    ensures
        secret_decodes(r@),
{
    let keys = nostr::key::Keys::generate();
    keys.secret_key().to_bech32().expect("bech32 encoding of a 32-byte key")
}

/// Relies on nostr's `Keys::parse` and `PublicKey::to_hex`: parsing succeeds
/// exactly on material the crate accepts, and then yields the public key of
/// that material as 64 hex characters, a function of the material alone.
/// The hex it writes is what its own `PublicKey::from_hex` reads.
#[verifier::external_body]
pub fn parse_secret_material(s: &str) -> (r: Result<String, ()>)
    ensures
        (r is Ok) == secret_decodes(s@),
        r matches Ok(h) ==> h@ == secret_hex_of(s@) && h@.len() == 64 && pk_hex_decodes(h@),
{
    let keys = nostr::key::Keys::parse(s).map_err(|_| ())?;
    Ok(keys.public_key().to_hex())
}

/// Relies on nostr's `Keys::parse` and `ToBech32` for `SecretKey`: the
/// bech32 normal form of valid secret material.  It begins `nsec1`, the
/// crate parses it back to the same key (so the derived public hex is
/// unchanged and re-normalizing is the identity), and encoding a parsed key
/// cannot fail.
#[verifier::external_body]
pub fn secret_to_nsec(s: &str) -> (r: Result<String, ()>)
    ensures
        (r is Ok) == secret_decodes(s@),
        r matches Ok(x) ==> x@ == nsec_of_secret(s@) && x@.len() > 5 && x@.subrange(0, 5)
            == seq!['n', 's', 'e', 'c', '1'] && secret_decodes(x@) && secret_hex_of(x@)
            == secret_hex_of(s@) && secret_plain_hex_of(x@) == secret_plain_hex_of(s@)
            && nsec_of_secret(x@) == x@,
{
    let keys = nostr::key::Keys::parse(s).map_err(|_| ())?;
    keys.secret_key().to_bech32().map_err(|_| ())
}

/// Relies on nostr's `Keys::parse` and `SecretKey::to_secret_hex`: the
/// 64-char hex form of the secret key in valid secret material; the crate
/// parses it back to the same key.
#[verifier::external_body]
pub fn secret_to_hex(s: &str) -> (r: Result<String, ()>)
    ensures
        (r is Ok) == secret_decodes(s@),
        r matches Ok(x) ==> x@ == secret_plain_hex_of(s@) && x@.len() == 64 && secret_decodes(x@)
            && secret_hex_of(x@) == secret_hex_of(s@),
{
    let keys = nostr::key::Keys::parse(s).map_err(|_| ())?;
    Ok(keys.secret_key().to_secret_hex())
}

/// Relies on nostr's `PublicKey::from_hex` and `ToBech32`: conversion
/// succeeds exactly on hex the crate accepts; the bech32 form begins
/// `npub1`, and the crate's own `from_bech32` reads it back.
#[verifier::external_body]
pub fn pk_hex_to_npub(h: &str) -> (r: Result<String, ()>)
    ensures
        (r is Ok) == pk_hex_decodes(h@),
        r matches Ok(x) ==> x@ == npub_of_hex(h@) && x@.len() > 5 && x@.subrange(0, 5)
            == seq!['n', 'p', 'u', 'b', '1'] && npub_decodes(x@),
{
    let pk = nostr::key::PublicKey::from_hex(h).map_err(|_| ())?;
    pk.to_bech32().map_err(|_| ())
}

/// Relies on nostr's `FromBech32` for `PublicKey` and `PublicKey::to_hex`:
/// conversion succeeds exactly on bech32 keys the crate accepts; the 64-char
/// hex it writes is what its own `from_hex` reads.
#[verifier::external_body]
pub fn npub_to_hex(s: &str) -> (r: Result<String, ()>)
    ensures
        (r is Ok) == npub_decodes(s@),
        r matches Ok(x) ==> x@ == hex_of_npub(s@) && x@.len() == 64 && pk_hex_decodes(x@),
{
    let pk = nostr::key::PublicKey::from_bech32(s).map_err(|_| ())?;
    Ok(pk.to_hex())
}

} // verus!
