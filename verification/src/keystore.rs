//! The key index store: the in-memory index, the master secret that
//! encrypts it, and the per-label secret store.  Every mutation updates the
//! index and hands back the encrypted blob for the caller to write; the
//! in-memory change stands even if that write later fails.
use vstd::prelude::*;

use crate::chars::{lex_lt, str_eq};
use crate::error::Error;
use crate::keyjson::{entries_in_range, json_of_keyfile, lemma_keyfile_round_trip, parse_keyfile,
    print_keyfile};
use crate::keys::{has_label, idx_of, spec_insert, spec_remove, spec_rename, strictly_sorted,
    KeyEntry, KeyEntryV, KeyFile, KeyFileV};
use crate::secrets::{mem_lookup, SecretStore};
use crate::storage::{envelope_opens_to, open_envelope, seal_envelope, CodecError};

verus! {

/// Chained comparisons: if each entry is below the next, every earlier entry
/// is below every later one.
proof fn lemma_lex_chain(keys: Seq<KeyEntryV>, i: int, j: int)
    requires
        forall|k: int|
            0 <= k < keys.len() - 1 ==> lex_lt(
                #[trigger] keys[k].label,
                keys[k + 1].label,
            ),
        0 <= i < j < keys.len(),
    ensures
        lex_lt(keys[i].label, keys[j].label),
    decreases j - i,
{
    if j == i + 1 {
        assert(lex_lt(keys[i].label, keys[i + 1].label));
    } else {
        lemma_lex_chain(keys, i, j - 1);
        assert(lex_lt(keys[j - 1].label, keys[j].label));
        crate::chars::lemma_lex_transitive(keys[i].label, keys[j - 1].label, keys[j].label);
    }
}

/// Whether the parsed index is well formed: entries strictly sorted by
/// label, and the active label, when set, present.
fn keyfile_wf_check(kf: &KeyFile) -> (r: bool)
    ensures
        r == kf@.wf(),
{
    let n = kf.keys.len();
    let mut i: usize = 1;
    while i < n
        invariant
            1 <= i <= n || n == 0,
            n == kf@.keys.len(),
            forall|k: int|
                0 <= k < i - 1 ==> lex_lt(#[trigger] kf@.keys[k].label, kf@.keys[k + 1].label),
        decreases n - i,
    {
        let c = crate::chars::str_cmp(kf.keys[i - 1].label.as_str(), kf.keys[i].label.as_str());
        if c != -1 {
            assert(!strictly_sorted(kf@.keys)) by {
                if strictly_sorted(kf@.keys) {
                    assert(lex_lt(kf@.keys[i - 1].label, kf@.keys[i as int].label));
                    if c == 0 {
                        crate::chars::lemma_lex_irreflexive(kf@.keys[i - 1].label);
                    } else {
                        crate::chars::lemma_lex_asymmetric(
                            kf@.keys[i as int].label,
                            kf@.keys[i - 1].label,
                        );
                    }
                }
            }
            return false;
        }
        i = i + 1;
    }
    proof {
        assert(strictly_sorted(kf@.keys)) by {
            assert forall|a: int, b: int| 0 <= a < b < kf@.keys.len() implies lex_lt(
                #[trigger] kf@.keys[a].label,
                #[trigger] kf@.keys[b].label,
            ) by {
                lemma_lex_chain(kf@.keys, a, b);
            }
        }
    }
    match &kf.active {
        Option::None => true,
        Option::Some(l) => match kf.find(l.as_str()) {
            Option::Some(_) => true,
            Option::None => false,
        },
    }
}

/// The index's canonical text is under the cipher's length cap, so it can be
/// sealed.
pub open spec fn fits_seal(kf: KeyFileV) -> bool {
    json_of_keyfile(kf).len() <= crate::storage::seal_cap()
}

/// Seal the canonical text of the index under the master secret.  Sealing
/// succeeds exactly when the text is under the cipher's length cap.
pub fn encrypt_index(kf: &KeyFile, pass: &Vec<u8>) -> (r: Result<String, CodecError>)
    requires
        pass@.len() < 0xFFFFFFFF,
    ensures
        (r is Ok) <==> fits_seal(kf@),
        r matches Ok(blob) ==> envelope_opens_to(blob@, pass@, json_of_keyfile(kf@)),
        r matches Err(e) ==> e == CodecError::SealFailed,
{
    let pt = print_keyfile(kf);
    if (pt.len() as u64) > 0x200000000u64 {
        return Err(CodecError::SealFailed);
    }
    Ok(seal_envelope(&pt, pass))
}

/// Open an index blob under the master secret and parse it.  Any well-formed
/// index that was sealed under this master secret is returned exactly.
pub fn decrypt_index(blob: &str, pass: &Vec<u8>) -> (r: Result<KeyFile, CodecError>)
    requires
        pass@.len() < 0xFFFFFFFF,
    ensures
        forall|kfv: KeyFileV|
            (envelope_opens_to(blob@, pass@, json_of_keyfile(kfv)) && entries_in_range(kfv.keys)
                && kfv.wf()) ==> (r matches Ok(kf) && kf@ == kfv),
        r matches Ok(kf) ==> kf@.wf(),
        r matches Err(e) ==> e != CodecError::SealFailed,
        // a parse failure presupposes that the envelope authenticated; an
        // authentication failure means nothing sealed under this secret
        // matches, so the two are never confused
        r == Err::<KeyFile, CodecError>(CodecError::JsonParse) ==> exists|pt: Seq<char>|
            envelope_opens_to(blob@, pass@, pt),
        r == Err::<KeyFile, CodecError>(CodecError::AuthFailed) ==> forall|pt: Seq<char>|
            !envelope_opens_to(blob@, pass@, pt),
{
    let chars = match open_envelope(blob, pass) {
        Result::Ok(c) => c,
        Result::Err(e) => {
            proof {
                assert forall|kfv: KeyFileV|
                    (envelope_opens_to(blob@, pass@, json_of_keyfile(kfv)) && entries_in_range(
                        kfv.keys,
                    ) && kfv.wf()) implies false by {}
            }
            return Err(e);
        },
    };
    let kf = match parse_keyfile(&chars) {
        Option::Some(kf) => kf,
        Option::None => {
            proof {
                assert forall|kfv: KeyFileV|
                    (envelope_opens_to(blob@, pass@, json_of_keyfile(kfv)) && entries_in_range(
                        kfv.keys,
                    ) && kfv.wf()) implies false by {
                    lemma_keyfile_round_trip(kfv);
                }
            }
            return Err(CodecError::JsonParse);
        },
    };
    if !keyfile_wf_check(&kf) {
        proof {
            assert forall|kfv: KeyFileV|
                (envelope_opens_to(blob@, pass@, json_of_keyfile(kfv)) && entries_in_range(
                    kfv.keys,
                ) && kfv.wf()) implies false by {
                lemma_keyfile_round_trip(kfv);
            }
        }
        return Err(CodecError::JsonParse);
    }
    proof {
        assert forall|kfv: KeyFileV|
            (envelope_opens_to(blob@, pass@, json_of_keyfile(kfv)) && entries_in_range(kfv.keys)
                && kfv.wf()) implies kf@ == kfv by {
            lemma_keyfile_round_trip(kfv);
        }
    }
    Ok(kf)
}

/// The key index store.
pub struct KeyStore {
    /// The in-memory index.
    pub data: KeyFile,
    /// The master secret that the index files are sealed under.
    pub pass: Vec<u8>,
    /// The per-label secret store.
    pub secrets: SecretStore,
}

impl KeyStore {
    /// Well-formed: the index invariant holds and the master secret is below
    /// the KDF's length cap.
    pub open spec fn wf(&self) -> bool {
        &&& self.data@.wf()
        &&& self.pass@.len() < 0xFFFFFFFF
        &&& self.secrets.wf()
    }

    /// The master secret as a byte sequence.
    pub open spec fn pass_view(&self) -> Seq<u8> {
        self.pass@
    }

    /// A store over an empty index.
    pub fn new(pass: Vec<u8>, secrets: SecretStore) -> (r: KeyStore)
        requires
            pass@.len() < 0xFFFFFFFF,
            secrets.wf(),
        ensures
            r.wf(),
            r.data@.keys =~= Seq::<KeyEntryV>::empty(),
            r.data@.active is None,
            r.pass_view() == pass@,
            r.secrets == secrets,
    {
        KeyStore { data: KeyFile::new(), pass, secrets }
    }

    /// Load the index: from the encrypted blob when one exists, else from
    /// the legacy plaintext index (returning the sealed blob that replaces
    /// it), else empty.  The legacy file is read in the compact canonical
    /// rendering this system has always written it in.
    #[verifier::rlimit(100)]
    pub fn load_or_init(
        existing: Option<&str>,
        legacy_json: Option<&str>,
        pass: Vec<u8>,
        secrets: SecretStore,
    ) -> (r: Result<(KeyStore, Option<String>), Error>)
        requires
            pass@.len() < 0xFFFFFFFF,
            secrets.wf(),
        ensures
            r matches Ok(p) ==> p.0.wf() && p.0.pass_view() == pass@,
            match existing {
                Option::Some(blob) => {
                    forall|kfv: KeyFileV|
                        (envelope_opens_to(blob@, pass@, json_of_keyfile(kfv)) && entries_in_range(
                            kfv.keys,
                        ) && kfv.wf()) ==> (r matches Ok(p) && p.0.data@ == kfv && p.1 is None)
                },
                Option::None => true,
            },
            existing is None && legacy_json is None ==> (r matches Ok(p) && p.0.data@.keys
                =~= Seq::<KeyEntryV>::empty() && p.0.data@.active is None && p.1 is None),
            // a legacy plaintext index is loaded exactly and re-sealed
            existing is None ==> (match legacy_json {
                Option::Some(txt) => forall|kfv: KeyFileV|
                    (#[trigger] json_of_keyfile(kfv) == txt@ && entries_in_range(kfv.keys)
                        && kfv.wf() && fits_seal(kfv)) ==> (r matches Ok(p) && p.0.data@ == kfv
                        && p.1 is Some),
                Option::None => true,
            }),
            r matches Ok(p) ==> (match p.1 {
                Option::Some(blob) => envelope_opens_to(
                    blob@,
                    pass@,
                    json_of_keyfile(p.0.data@),
                ),
                Option::None => true,
            }),
    {
        match existing {
            Option::Some(blob) => {
                match decrypt_index(blob, &pass) {
                    Result::Ok(kf) => Ok((KeyStore { data: kf, pass, secrets }, None)),
                    Result::Err(e) => Err(Error::Codec(e)),
                }
            },
            Option::None => {
                match legacy_json {
                    Option::Some(txt) => {
                        let chars = crate::chars::str_to_chars(txt);
                        let kf = match parse_keyfile(&chars) {
                            Option::Some(kf) => kf,
                            Option::None => {
                                proof {
                                    assert forall|kfv: KeyFileV|
                                        (#[trigger] json_of_keyfile(kfv) == txt@
                                            && entries_in_range(kfv.keys) && kfv.wf()
                                            && fits_seal(kfv)) implies false by {
                                        lemma_keyfile_round_trip(kfv);
                                    }
                                }
                                return Err(Error::Codec(CodecError::JsonParse));
                            },
                        };
                        if !keyfile_wf_check(&kf) {
                            proof {
                                assert forall|kfv: KeyFileV|
                                    (#[trigger] json_of_keyfile(kfv) == txt@ && entries_in_range(
                                        kfv.keys,
                                    ) && kfv.wf() && fits_seal(kfv)) implies false by {
                                    lemma_keyfile_round_trip(kfv);
                                }
                            }
                            return Err(Error::Codec(CodecError::JsonParse));
                        }
                        proof {
                            assert forall|kfv: KeyFileV|
                                (#[trigger] json_of_keyfile(kfv) == txt@ && entries_in_range(
                                    kfv.keys,
                                ) && kfv.wf() && fits_seal(kfv)) implies kf@ == kfv by {
                                lemma_keyfile_round_trip(kfv);
                            }
                        }
                        let blob = match encrypt_index(&kf, &pass) {
                            Result::Ok(b) => b,
                            Result::Err(e) => {
                                proof {
                                    assert forall|kfv: KeyFileV|
                                        (#[trigger] json_of_keyfile(kfv) == txt@
                                            && entries_in_range(kfv.keys) && kfv.wf()
                                            && fits_seal(kfv)) implies false by {
                                        lemma_keyfile_round_trip(kfv);
                                    }
                                }
                                return Err(Error::Codec(e));
                            },
                        };
                        Ok((KeyStore { data: kf, pass, secrets }, Some(blob)))
                    },
                    Option::None => Ok((KeyStore { data: KeyFile::new(), pass, secrets }, None)),
                }
            },
        }
    }

    /// Seal the current index for the caller to write.  Succeeds exactly
    /// when the index's text is under the cipher's length cap.
    pub fn persist(&self) -> (r: Result<String, Error>)
        requires
            self.wf(),
        ensures
            (r is Ok) <==> fits_seal(self.data@),
            r matches Ok(blob) ==> envelope_opens_to(
                blob@,
                self.pass_view(),
                json_of_keyfile(self.data@),
            ),
            r matches Err(e) ==> e == Error::Codec(CodecError::SealFailed),
    {
        match encrypt_index(&self.data, &self.pass) {
            Result::Ok(b) => Ok(b),
            Result::Err(e) => Err(Error::Codec(e)),
        }
    }

    /// A snapshot of the entries, in label order.
    pub fn list(&self) -> (r: Vec<KeyEntry>)
        ensures
            r@.map_values(|e: KeyEntry| e@) == self.data@.keys,
    {
        let mut out: Vec<KeyEntry> = Vec::new();
        let n = self.data.keys.len();
        let mut i: usize = 0;
        while i < n
            invariant
                0 <= i <= n,
                n == self.data@.keys.len(),
                out@.map_values(|e: KeyEntry| e@) =~= self.data@.keys.take(i as int),
            decreases n - i,
        {
            out.push(self.data.keys[i].duplicate());
            proof {
                assert(self.data@.keys.take(i + 1) =~= self.data@.keys.take(i as int).push(
                    self.data@.keys[i as int],
                ));
                assert(out@.map_values(|e: KeyEntry| e@) =~= self.data@.keys.take(i + 1));
            }
            i = i + 1;
        }
        proof {
            assert(self.data@.keys.take(n as int) =~= self.data@.keys);
        }
        out
    }

    /// The active entry, if an active label is set.
    pub fn get_active(&self) -> (r: Option<KeyEntry>)
        requires
            self.wf(),
        ensures
            match r {
                Option::Some(e) => self.data@.active == Some(e@.label) && e@ == self.data@.entry_of(
                    e@.label,
                ),
                Option::None => self.data@.active is None,
            },
    {
        match &self.data.active {
            Option::None => None,
            Option::Some(l) => {
                proof {
                    crate::keys::lemma_idx_of(self.data@.keys, l@);
                }
                match self.data.find(l.as_str()) {
                    Option::Some(i) => {
                        let e = self.data.keys[i].duplicate();
                        proof {
                            let keys = self.data@.keys;
                            let i0 = idx_of(keys, l@);
                            if i0 < i as int {
                                assert(lex_lt(keys[i0].label, keys[i as int].label));
                                crate::chars::lemma_lex_irreflexive(l@);
                            }
                        }
                        Some(e)
                    },
                    Option::None => {
                        // the invariant says the active label is present
                        assert(false);
                        None
                    },
                }
            },
        }
    }

    /// Make `label` the active identity.
    pub fn set_active(&mut self, label: &str) -> (r: Result<(KeyEntry, String), Error>)
        requires
            old(self).wf(),
        ensures
            final(self).wf(),
            final(self).pass_view() == old(self).pass_view(),
            final(self).secrets == old(self).secrets,
            !has_label(old(self).data@.keys, label@) ==> r == Err::<(KeyEntry, String), Error>(
                Error::UnknownLabel,
            ) && final(self).data@ == old(self).data@,
            has_label(old(self).data@.keys, label@) ==> final(self).data@.keys == old(self).data@.keys && final(self).data@.active == Some(label@) && ((r is Ok) <==> fits_seal(
                final(self).data@,
            )) && (match r {
                Result::Ok(p) => p.0@ == old(self).data@.entry_of(label@) && envelope_opens_to(
                    p.1@,
                    old(self).pass_view(),
                    json_of_keyfile(final(self).data@),
                ),
                Result::Err(e) => e == Error::Codec(CodecError::SealFailed),
            }),
    {
        proof {
            crate::keys::lemma_idx_of(self.data@.keys, label@);
        }
        match self.data.find(label) {
            Option::None => Err(Error::UnknownLabel),
            Option::Some(i) => {
                proof {
                    let keys = self.data@.keys;
                    let i0 = idx_of(keys, label@);
                    if i0 < i as int {
                        assert(lex_lt(keys[i0].label, keys[i as int].label));
                        crate::chars::lemma_lex_irreflexive(label@);
                    }
                }
                let e = self.data.keys[i].duplicate();
                self.data.active = Some(String::from_str(label));
                let blob = match self.persist() {
                    Result::Ok(b) => b,
                    Result::Err(err) => {
                        return Err(err);
                    },
                };
                Ok((e, blob))
            },
        }
    }

    /// Remove the entry labelled `label`, clearing the active pointer if it
    /// pointed there, and drop the label's secret.  Removing an unknown
    /// label is not an error.
    pub fn remove(&mut self, label: &str) -> (r: Result<(Option<KeyEntry>, String), Error>)
        requires
            old(self).wf(),
        ensures
            final(self).wf(),
            final(self).pass_view() == old(self).pass_view(),
            final(self).data@.keys == spec_remove(old(self).data@.keys, label@),
            !has_label(final(self).data@.keys, label@),
            final(self).data@.active == (if old(self).data@.active == Some(label@) {
                None::<Seq<char>>
            } else {
                old(self).data@.active
            }),
            (r is Ok) <==> fits_seal(final(self).data@),
            match r {
                Result::Ok(p) => (match p.0 {
                    Option::Some(e) => has_label(old(self).data@.keys, label@) && e@ == old(self).data@.entry_of(label@),
                    Option::None => !has_label(old(self).data@.keys, label@),
                }) && envelope_opens_to(
                    p.1@,
                    old(self).pass_view(),
                    json_of_keyfile(final(self).data@),
                ),
                Result::Err(e) => e == Error::Codec(CodecError::SealFailed),
            },
            (r is Ok && (*old(self)).secrets is Memory) ==> ((*final(self)).secrets is Memory
                && mem_lookup(final(self).secrets.mem(), label@) is None && (forall|l: Seq<char>|
                l != label@ ==> #[trigger] mem_lookup(final(self).secrets.mem(), l) == mem_lookup(
                    old(self).secrets.mem(),
                    l,
                ))),
            r is Err ==> final(self).secrets == old(self).secrets,
    {
        proof {
            crate::keys::lemma_idx_of(self.data@.keys, label@);
        }
        let removed = self.data.remove_label(label);
        let clear = match &self.data.active {
            Option::Some(l) => str_eq(l.as_str(), label),
            Option::None => false,
        };
        if clear {
            self.data.active = None;
        }
        proof {
            if self.data@.active is Some {
                let l = self.data@.active->Some_0;
                assert(l != label@);
                assert(has_label(self.data@.keys, l));
            }
        }
        let blob = match self.persist() {
            Result::Ok(b) => b,
            Result::Err(err) => {
                return Err(err);
            },
        };
        let _ = self.secrets.delete(label);
        Ok((removed, blob))
    }
}

/// `npub1`
pub open spec fn lit_npub1() -> Seq<char> {
    seq!['n', 'p', 'u', 'b', '1']
}

/// `nsec1`
pub open spec fn lit_nsec1() -> Seq<char> {
    seq!['n', 's', 'e', 'c', '1']
}

fn lit_npub1_str() -> (r: &'static str)
    ensures
        r@ == lit_npub1(),
{
    proof {
        reveal_strlit("npub1");
    }
    let r = "npub1";
    assert(r@ =~= lit_npub1());
    r
}

fn lit_nsec1_str() -> (r: &'static str)
    ensures
        r@ == lit_nsec1(),
{
    proof {
        reveal_strlit("nsec1");
    }
    let r = "nsec1";
    assert(r@ =~= lit_nsec1());
    r
}

/// An ASCII hexadecimal digit.
pub open spec fn is_hex_char(c: char) -> bool {
    crate::jsontext::is_digit(c) || (97 <= (c as u32) && (c as u32) <= 102) || (65 <= (c as u32)
        && (c as u32) <= 70)
}

/// 64 hexadecimal characters: the raw form of a key.
pub open spec fn is_hex64(s: Seq<char>) -> bool {
    s.len() == 64 && forall|i: int| 0 <= i < s.len() ==> is_hex_char(#[trigger] s[i])
}

fn is_hex_char_exec(c: char) -> (r: bool)
    ensures
        r == is_hex_char(c),
{
    let v = c as u32;
    (48 <= v && v <= 57) || (97 <= v && v <= 102) || (65 <= v && v <= 70)
}

/// Whether the string is 64 hexadecimal characters.
fn is_hex64_exec(s: &str) -> (r: bool)
    ensures
        r == is_hex64(s@),
{
    let n = s.unicode_len();
    if n != 64 {
        return false;
    }
    let mut i: usize = 0;
    while i < n
        invariant
            0 <= i <= n,
            n == s@.len(),
            n == 64,
            forall|j: int| 0 <= j < i ==> is_hex_char(#[trigger] s@[j]),
        decreases n - i,
    {
        if !is_hex_char_exec(s.get_char(i)) {
            return false;
        }
        i = i + 1;
    }
    true
}

/// The material is a secret key: bech32 `nsec` or 64 hex characters.
pub open spec fn secret_shaped(m: Seq<char>) -> bool {
    lit_nsec1().is_prefix_of(m) || is_hex64(m)
}

/// The material is a public key only: bech32 `npub`, and not a raw secret.
pub open spec fn npub_only_shaped(m: Seq<char>) -> bool {
    !secret_shaped(m) && lit_npub1().is_prefix_of(m)
}

impl KeyStore {
    /// Generate a fresh identity under `label`.
    pub fn generate(&mut self, label: &str, make_active: bool, persist_secret: bool) -> (r:
        Result<(KeyEntry, String), Error>)
        requires
            old(self).wf(),
        ensures
            final(self).wf(),
            final(self).pass_view() == old(self).pass_view(),
            has_label(old(self).data@.keys, label@) ==> r == Err::<(KeyEntry, String), Error>(
                Error::LabelExists,
            ) && final(self).data@ == old(self).data@ && final(self).secrets == old(self).secrets,
            // with the in-memory secret store nothing but the length cap can
            // stop a generation
            (!has_label(old(self).data@.keys, label@) && (!persist_secret || (*old(self)).secrets is Memory)) ==> ((r is Ok) <==> fits_seal(final(self).data@)),
            !has_label(old(self).data@.keys, label@) ==> match r {
                Result::Ok(p) => p.0@.label == label@ && p.0@.public_key.len() > 5
                    && p.0@.public_key.subrange(0, 5) == seq!['n', 'p', 'u', 'b', '1']
                    && crate::nostrkeys::npub_decodes(p.0@.public_key) && final(self).data@.keys
                    == spec_insert(old(self).data@.keys, p.0@) && final(self).data@.active == (
                if make_active {
                    Some(label@)
                } else {
                    old(self).data@.active
                }) && envelope_opens_to(
                    p.1@,
                    old(self).pass_view(),
                    json_of_keyfile(final(self).data@),
                ) && (!persist_secret ==> final(self).secrets == old(self).secrets) && (
                persist_secret && (*old(self)).secrets is Memory ==> ((mem_lookup(
                    final(self).secrets.mem(),
                    label@,
                ) matches Some(sk) && crate::nostrkeys::secret_decodes(sk) && p.0@.public_key
                    == crate::nostrkeys::npub_of_hex(crate::nostrkeys::secret_hex_of(sk))) && (
                forall|l: Seq<char>|
                    l != label@ ==> #[trigger] mem_lookup(final(self).secrets.mem(), l)
                        == mem_lookup(old(self).secrets.mem(), l)))),
                Result::Err(e) => (e == Error::Keyring || e == Error::Codec(
                    CodecError::SealFailed,
                )) && (e == Error::Keyring ==> final(self).data@ == old(self).data@ && final(self).secrets == old(self).secrets),
            },
    {
        if self.data.find(label).is_some() {
            return Err(Error::LabelExists);
        }
        let mut nsec = crate::nostrkeys::generate_secret_key();
        let hex = match crate::nostrkeys::parse_secret_material(nsec.as_str()) {
            Result::Ok(h) => h,
            Result::Err(_) => {
                crate::crypto::wipe_string(&mut nsec);
                return Err(Error::Internal);
            },
        };
        let npub = match crate::nostrkeys::pk_hex_to_npub(hex.as_str()) {
            Result::Ok(x) => x,
            Result::Err(_) => {
                crate::crypto::wipe_string(&mut nsec);
                return Err(Error::Internal);
            },
        };
        if persist_secret {
            match self.secrets.set(label, nsec.as_str()) {
                Result::Ok(_) => {},
                Result::Err(_) => {
                    crate::crypto::wipe_string(&mut nsec);
                    return Err(Error::Keyring);
                },
            }
        }
        crate::crypto::wipe_string(&mut nsec);
        let created_at = crate::util::unix_now();
        let e = KeyEntry { label: String::from_str(label), public_key: npub, created_at };
        self.data.insert_sorted(e.duplicate());
        if make_active {
            self.data.active = Some(String::from_str(label));
        }
        let blob = match self.persist() {
            Result::Ok(b) => b,
            Result::Err(_) => {
                return Err(Error::Codec(CodecError::SealFailed));
            },
        };
        Ok((e, blob))
    }

    /// Import key material under `label`: bech32 secret (`nsec1…`), raw hex
    /// secret (64 hex chars), or a public key only (`npub1…`).
    pub fn import_secret(
        &mut self,
        label: &str,
        material: &str,
        make_active: bool,
        persist_secret: bool,
    ) -> (r: Result<(KeyEntry, String), Error>)
        requires
            old(self).wf(),
        ensures
            final(self).wf(),
            final(self).pass_view() == old(self).pass_view(),
            // material of no recognized shape is rejected outright
            !(secret_shaped(material@) || npub_only_shaped(material@)) ==> r == Err::<
                (KeyEntry, String),
                Error,
            >(Error::UnsupportedMaterial),
            // a taken label is rejected before anything else is attempted
            (secret_shaped(material@) || npub_only_shaped(material@)) && has_label(
                old(self).data@.keys,
                label@,
            ) ==> r == Err::<(KeyEntry, String), Error>(Error::LabelExists),
            // well-shaped material the crate rejects is unsupported too
            secret_shaped(material@) && !crate::nostrkeys::secret_decodes(material@)
                && !has_label(old(self).data@.keys, label@) ==> r == Err::<
                (KeyEntry, String),
                Error,
            >(Error::UnsupportedMaterial),
            npub_only_shaped(material@) && !crate::nostrkeys::npub_decodes(material@)
                && !has_label(old(self).data@.keys, label@) ==> r == Err::<
                (KeyEntry, String),
                Error,
            >(Error::UnsupportedMaterial),
            // acceptable material under a fresh label imports, unless the
            // sealed text is over the cap (or the OS keyring refuses)
            (!has_label(old(self).data@.keys, label@) && secret_shaped(material@)
                && crate::nostrkeys::secret_decodes(material@) && (!persist_secret || (*old(self)).secrets is Memory)) ==> ((r is Ok) <==> fits_seal(final(self).data@)),
            (!has_label(old(self).data@.keys, label@) && npub_only_shaped(material@)
                && crate::nostrkeys::npub_decodes(material@)) ==> ((r is Ok) <==> fits_seal(
                final(self).data@,
            )),
            // every failure leaves both stores as they were, except a failed
            // seal, which keeps the in-memory change
            (r is Err && r != Err::<(KeyEntry, String), Error>(Error::Codec(
                CodecError::SealFailed,
            ))) ==> final(self).data@ == old(self).data@ && final(self).secrets == old(self).secrets,
            r matches Ok(p) ==> p.0@.label == label@ && !has_label(old(self).data@.keys, label@)
                && final(self).data@.keys == spec_insert(old(self).data@.keys, p.0@) && final(self).data@.active == (if make_active {
                Some(label@)
            } else {
                old(self).data@.active
            }) && envelope_opens_to(
                p.1@,
                old(self).pass_view(),
                json_of_keyfile(final(self).data@),
            ) && (secret_shaped(material@) ==> p.0@.public_key == crate::nostrkeys::npub_of_hex(
                crate::nostrkeys::secret_hex_of(material@),
            ) && p.0@.public_key.len() > 5 && p.0@.public_key.subrange(0, 5) == seq!['n', 'p',
                'u', 'b', '1']) && (npub_only_shaped(material@) ==> p.0@.public_key == material@),
            // what the import leaves in the secret store
            (r is Ok && secret_shaped(material@) && persist_secret && (*old(self)).secrets is Memory) ==> (mem_lookup(final(self).secrets.mem(), label@) == Some(
                crate::nostrkeys::nsec_of_secret(material@),
            ) && (forall|l: Seq<char>|
                l != label@ ==> #[trigger] mem_lookup(final(self).secrets.mem(), l) == mem_lookup(
                    old(self).secrets.mem(),
                    l,
                ))),
            (r is Ok && (npub_only_shaped(material@) || !persist_secret)) ==> final(self).secrets
                == old(self).secrets,
    {
        let is_secret = crate::chars::str_starts_with(material, lit_nsec1_str()) || is_hex64_exec(
            material,
        );
        let is_public = crate::chars::str_starts_with(material, lit_npub1_str());
        if !is_secret && !is_public {
            return Err(Error::UnsupportedMaterial);
        }
        if self.data.find(label).is_some() {
            return Err(Error::LabelExists);
        }
        let npub: String;
        let mut nsec_norm: Option<String> = None;
        if is_secret {
            let hex = match crate::nostrkeys::parse_secret_material(material) {
                Result::Ok(h) => h,
                Result::Err(_) => {
                    return Err(Error::UnsupportedMaterial);
                },
            };
            npub = match crate::nostrkeys::pk_hex_to_npub(hex.as_str()) {
                Result::Ok(x) => x,
                Result::Err(_) => {
                    return Err(Error::Internal);
                },
            };
            let norm = match crate::nostrkeys::secret_to_nsec(material) {
                Result::Ok(x) => x,
                Result::Err(_) => {
                    return Err(Error::Internal);
                },
            };
            nsec_norm = Some(norm);
        } else {
            match crate::nostrkeys::npub_to_hex(material) {
                Result::Ok(_) => {},
                Result::Err(_) => {
                    return Err(Error::UnsupportedMaterial);
                },
            }
            npub = String::from_str(material);
        }
        if persist_secret {
            match &mut nsec_norm {
                Option::Some(norm) => {
                    let ok = self.secrets.set(label, norm.as_str());
                    crate::crypto::wipe_string(norm);
                    match ok {
                        Result::Ok(_) => {},
                        Result::Err(_) => {
                            return Err(Error::Keyring);
                        },
                    }
                },
                Option::None => {
                    // public-key-only import: there is no secret to store
                },
            }
        }
        let created_at = crate::util::unix_now();
        let e = KeyEntry { label: String::from_str(label), public_key: npub, created_at };
        self.data.insert_sorted(e.duplicate());
        if make_active {
            self.data.active = Some(String::from_str(label));
        }
        let blob = match self.persist() {
            Result::Ok(b) => b,
            Result::Err(_) => {
                return Err(Error::Codec(CodecError::SealFailed));
            },
        };
        Ok((e, blob))
    }

    /// Rename the identity `from` to `to`.  The entry moves to the sorted
    /// position of its new label; an active pointer at `from` follows it;
    /// the label's secret is moved best-effort after the index is sealed.
    pub fn rename_label(&mut self, from: &str, to: &str) -> (r: Result<(KeyEntry, String), Error>)
        requires
            old(self).wf(),
        ensures
            final(self).wf(),
            final(self).pass_view() == old(self).pass_view(),
            from@ == to@ ==> r == Err::<(KeyEntry, String), Error>(Error::SameName) && final(self).data@ == old(self).data@ && final(self).secrets == old(self).secrets,
            from@ != to@ && !has_label(old(self).data@.keys, from@) ==> r == Err::<
                (KeyEntry, String),
                Error,
            >(Error::UnknownLabel) && final(self).data@ == old(self).data@ && final(self).secrets
                == old(self).secrets,
            from@ != to@ && has_label(old(self).data@.keys, from@) && has_label(
                old(self).data@.keys,
                to@,
            ) ==> r == Err::<(KeyEntry, String), Error>(Error::LabelExists) && final(self).data@
                == old(self).data@ && final(self).secrets == old(self).secrets,
            from@ != to@ && has_label(old(self).data@.keys, from@) && !has_label(
                old(self).data@.keys,
                to@,
            ) ==> final(self).data@ == spec_rename(old(self).data@, from@, to@) && ((r is Ok)
                <==> fits_seal(final(self).data@)) && (match r {
                Result::Ok(p) => p.0@.label == to@ && p.0@.public_key == old(self).data@.entry_of(from@).public_key && p.0@.created_at == old(self).data@.entry_of(
                    from@,
                ).created_at && envelope_opens_to(
                    p.1@,
                    old(self).pass_view(),
                    json_of_keyfile(final(self).data@),
                ) && ((*old(self)).secrets is Memory ==> ((*final(self)).secrets is Memory
                    && (match mem_lookup(old(self).secrets.mem(), from@) {
                    Option::Some(sk) => mem_lookup(final(self).secrets.mem(), to@) == Some(sk)
                        && mem_lookup(final(self).secrets.mem(), from@) is None && (forall|
                        l: Seq<char>,
                    |
                        l != from@ && l != to@ ==> #[trigger] mem_lookup(
                            final(self).secrets.mem(),
                            l,
                        ) == mem_lookup(old(self).secrets.mem(), l)),
                    Option::None => final(self).secrets == old(self).secrets,
                }))),
                Result::Err(e) => e == Error::Codec(CodecError::SealFailed) && final(self).secrets
                    == old(self).secrets,
            }),
    {
        if str_eq(from, to) {
            return Err(Error::SameName);
        }
        proof {
            crate::keys::lemma_idx_of(self.data@.keys, from@);
        }
        if self.data.find(from).is_none() {
            return Err(Error::UnknownLabel);
        }
        if self.data.find(to).is_some() {
            return Err(Error::LabelExists);
        }
        let removed = match self.data.remove_label(from) {
            Option::Some(e) => e,
            Option::None => {
                // the label was just found
                assert(false);
                return Err(Error::UnknownLabel);
            },
        };
        let moved = KeyEntry {
            label: String::from_str(to),
            public_key: removed.public_key,
            created_at: removed.created_at,
        };
        self.data.insert_sorted(moved.duplicate());
        let follow = match &self.data.active {
            Option::Some(l) => str_eq(l.as_str(), from),
            Option::None => false,
        };
        if follow {
            self.data.active = Some(String::from_str(to));
        }
        proof {
            let oldv = old(self).data@;
            assert(self.data@.keys == spec_rename(oldv, from@, to@).keys);
            assert(self.data@.active == spec_rename(oldv, from@, to@).active) by {
                if oldv.active == Some(from@) {
                } else {
                    match oldv.active {
                        Option::Some(l) => {
                            assert(l != from@);
                        },
                        Option::None => {},
                    }
                }
            }
            if self.data@.active is Some {
                let l = self.data@.active->Some_0;
                assert(has_label(self.data@.keys, l));
            }
        }
        let blob = match self.persist() {
            Result::Ok(b) => b,
            Result::Err(_) => {
                return Err(Error::Codec(CodecError::SealFailed));
            },
        };
        match self.secrets.get(from) {
            Result::Ok(Option::Some(sk)) => {
                // copy first, then drop the source: a failed copy must not
                // lose the only stored secret
                let _ = self.secrets.set(to, sk.as_str());
                let _ = self.secrets.delete(from);
            },
            Result::Ok(Option::None) => {},
            Result::Err(_) => {
                // keyring failures after a successful persist are not fatal
            },
        }
        Ok((moved, blob))
    }
}

/// How a private key is rendered by an export.
#[derive(Debug, Clone, Copy, PartialEq, Eq, Structural)]
pub enum ExportFormat {
    Bech32,
    Hex,
    Both,
}

/// The default export renders the private key in bech32.
pub fn default_export_format() -> (r: ExportFormat)
    ensures
        r == ExportFormat::Bech32,
{
    ExportFormat::Bech32
}

/// What an export returns: always the public identity, and the private key
/// only on request, with a warning.
#[derive(Debug)]
pub struct ExportResult {
    pub label: String,
    pub public_key_npub: String,
    pub public_key_hex: String,
    pub private_key_nsec: Option<String>,
    pub private_key_hex: Option<String>,
    pub warning: Option<String>,
}

impl KeyStore {
    /// Export the identity under `label`, or the active identity when no
    /// label is given.
    pub fn export_key(&self, label: Option<&str>, format: ExportFormat, include_private: bool)
        -> (r: Result<ExportResult, Error>)
        requires
            self.wf(),
        ensures
            (r == Err::<ExportResult, Error>(Error::NoActiveKey)) <==> (label is None
                && self.data@.active is None),
            (r == Err::<ExportResult, Error>(Error::UnknownLabel)) <==> (label matches Some(l)
                && !has_label(self.data@.keys, l@)),
            (*self).secrets is Memory ==> r != Err::<ExportResult, Error>(Error::Keyring),
            // once a label resolves, the outcome is a function of the state
            ({
                let target = (match label {
                    Option::Some(l) => l@,
                    Option::None => self.data@.active->Some_0,
                });
                let resolved = (label is Some || self.data@.active is Some) && has_label(
                    self.data@.keys,
                    target,
                );
                let pk = self.data@.entry_of(target).public_key;
                &&& (((*self).secrets is Memory && resolved) ==> ((r == Err::<
                    ExportResult,
                    Error,
                >(Error::SecretMissing)) <==> (include_private && crate::nostrkeys::npub_decodes(
                    pk,
                ) && mem_lookup(self.secrets.mem(), target) is None)))
                &&& (((*self).secrets is Memory && resolved) ==> ((r == Err::<
                    ExportResult,
                    Error,
                >(Error::Internal)) <==> (!crate::nostrkeys::npub_decodes(pk) || (include_private
                    && crate::nostrkeys::npub_decodes(pk) && (match mem_lookup(
                    self.secrets.mem(),
                    target,
                ) {
                    Option::Some(sk) => !crate::nostrkeys::secret_decodes(sk),
                    Option::None => false,
                })))))
                &&& (((*self).secrets is Memory && resolved) ==> ((r is Ok) <==> (
                crate::nostrkeys::npub_decodes(pk) && (include_private ==> (match mem_lookup(
                    self.secrets.mem(),
                    target,
                ) {
                    Option::Some(sk) => crate::nostrkeys::secret_decodes(sk),
                    Option::None => false,
                })))))
                // without a private export the secret store plays no part
                &&& ((resolved && !include_private) ==> ((r is Ok)
                    <==> crate::nostrkeys::npub_decodes(pk)))
            }),
            r matches Ok(res) ==> ({
                let target = (match label {
                    Option::Some(l) => l@,
                    Option::None => self.data@.active->Some_0,
                });
                &&& has_label(self.data@.keys, target)
                &&& res.label@ == target
                &&& res.public_key_npub@ == self.data@.entry_of(target).public_key
                &&& res.public_key_hex@ == crate::nostrkeys::hex_of_npub(
                    self.data@.entry_of(target).public_key,
                )
                &&& !include_private ==> res.private_key_nsec is None && res.private_key_hex
                    is None && res.warning is None
                &&& include_private ==> res.warning is Some && (match format {
                    ExportFormat::Bech32 => (res.private_key_nsec matches Some(x) && x@.len() > 5
                        && x@.subrange(0, 5) == seq!['n', 's', 'e', 'c', '1'])
                        && res.private_key_hex is None,
                    ExportFormat::Hex => res.private_key_nsec is None && (
                    res.private_key_hex matches Some(y) && y@.len() == 64),
                    ExportFormat::Both => (res.private_key_nsec matches Some(x) && x@.len() > 5
                        && x@.subrange(0, 5) == seq!['n', 's', 'e', 'c', '1']) && (
                    res.private_key_hex matches Some(y) && y@.len() == 64),
                })
                &&& ((*self).secrets is Memory && include_private) ==> (mem_lookup(
                    self.secrets.mem(),
                    target,
                ) matches Some(sk) && (res.private_key_nsec matches Some(x)
                    ==> x@ == crate::nostrkeys::nsec_of_secret(sk)) && (
                res.private_key_hex matches Some(y) ==> y@ == crate::nostrkeys::secret_plain_hex_of(
                    sk,
                )))
            }),
    {
        let target: String = match label {
            Option::Some(l) => String::from_str(l),
            Option::None => {
                match self.get_active() {
                    Option::Some(e) => e.label,
                    Option::None => {
                        return Err(Error::NoActiveKey);
                    },
                }
            },
        };
        proof {
            crate::keys::lemma_idx_of(self.data@.keys, target@);
        }
        let entry = match self.data.find(target.as_str()) {
            Option::Some(i) => {
                proof {
                    let keys = self.data@.keys;
                    let i0 = idx_of(keys, target@);
                    if i0 < i as int {
                        assert(lex_lt(keys[i0].label, keys[i as int].label));
                        crate::chars::lemma_lex_irreflexive(target@);
                    }
                }
                self.data.keys[i].duplicate()
            },
            Option::None => {
                return Err(Error::UnknownLabel);
            },
        };
        let public_key_hex = match crate::nostrkeys::npub_to_hex(entry.public_key.as_str()) {
            Result::Ok(h) => h,
            Result::Err(_) => {
                return Err(Error::Internal);
            },
        };
        if !include_private {
            return Ok(
                ExportResult {
                    label: target,
                    public_key_npub: entry.public_key,
                    public_key_hex,
                    private_key_nsec: None,
                    private_key_hex: None,
                    warning: None,
                },
            );
        }
        let secret = match self.secrets.get(target.as_str()) {
            Result::Ok(Option::Some(s)) => s,
            Result::Ok(Option::None) => {
                return Err(Error::SecretMissing);
            },
            Result::Err(_) => {
                return Err(Error::Keyring);
            },
        };
        let mut private_key_nsec: Option<String> = None;
        let mut private_key_hex: Option<String> = None;
        let want_nsec = match format {
            ExportFormat::Bech32 => true,
            ExportFormat::Hex => false,
            ExportFormat::Both => true,
        };
        let want_hex = match format {
            ExportFormat::Bech32 => false,
            ExportFormat::Hex => true,
            ExportFormat::Both => true,
        };
        if want_nsec {
            match crate::nostrkeys::secret_to_nsec(secret.as_str()) {
                Result::Ok(x) => {
                    private_key_nsec = Some(x);
                },
                Result::Err(_) => {
                    return Err(Error::Internal);
                },
            }
        }
        if want_hex {
            match crate::nostrkeys::secret_to_hex(secret.as_str()) {
                Result::Ok(x) => {
                    private_key_hex = Some(x);
                },
                Result::Err(_) => {
                    return Err(Error::Internal);
                },
            }
        }
        let warning = Some(
            String::from_str(
                "WARNING: This export contains your private key. Keep it secure and never share it. Anyone with access to this key can control your Nostr identity.",
            ),
        );
        Ok(
            ExportResult {
                label: target,
                public_key_npub: entry.public_key,
                public_key_hex,
                private_key_nsec,
                private_key_hex,
                warning,
            },
        )
    }
}

/// What kind of key material an input is.
#[derive(Debug, Clone, Copy, PartialEq, Eq, Structural)]
pub enum KeyType {
    Npub,
    Nsec,
    Hex,
    Invalid,
}

/// The classification of trimmed key material by its shape.
pub open spec fn classify_key(t: Seq<char>) -> KeyType {
    if lit_npub1().is_prefix_of(t) {
        KeyType::Npub
    } else if lit_nsec1().is_prefix_of(t) {
        KeyType::Nsec
    } else if is_hex64(t) {
        KeyType::Hex
    } else {
        KeyType::Invalid
    }
}

/// What a key verification reports.
#[derive(Debug)]
pub struct VerifyResult {
    pub input: String,
    pub key_type: KeyType,
    pub valid: bool,
    pub public_key_npub: Option<String>,
    pub public_key_hex: Option<String>,
    pub error: Option<String>,
}

/// Classify and validate key material: an `npub`, an `nsec`, or a raw hex
/// public key, with the derived public identity when it is valid.
pub fn verify_key(key: &str) -> (r: VerifyResult)
    ensures
        r.input@ == crate::chars::trim_spec(key@),
        r.key_type == classify_key(crate::chars::trim_spec(key@)),
        !r.valid ==> r.public_key_npub is None && r.public_key_hex is None && r.error is Some,
        r.valid ==> r.error is None && r.public_key_npub is Some && r.public_key_hex is Some,
        r.valid && r.key_type == KeyType::Npub ==> r.public_key_npub->Some_0@ == r.input@
            && r.public_key_hex->Some_0@ == crate::nostrkeys::hex_of_npub(r.input@),
        r.valid && r.key_type == KeyType::Nsec ==> r.public_key_hex->Some_0@
            == crate::nostrkeys::secret_hex_of(r.input@) && r.public_key_npub->Some_0@
            == crate::nostrkeys::npub_of_hex(crate::nostrkeys::secret_hex_of(r.input@)),
        r.valid && r.key_type == KeyType::Hex ==> r.public_key_hex->Some_0@ == r.input@
            && r.public_key_npub->Some_0@ == crate::nostrkeys::npub_of_hex(r.input@),
        // validity is exactly whether the crate accepts the material
        r.key_type == KeyType::Npub ==> r.valid == crate::nostrkeys::npub_decodes(r.input@),
        r.key_type == KeyType::Nsec ==> r.valid == crate::nostrkeys::secret_decodes(r.input@),
        r.key_type == KeyType::Hex ==> r.valid == crate::nostrkeys::pk_hex_decodes(r.input@),
        r.key_type == KeyType::Invalid ==> !r.valid,
        // each rejection carries its fixed message
        !r.valid && r.key_type == KeyType::Npub ==> (r.error matches Some(m) && m@
            == "invalid npub key"@),
        !r.valid && r.key_type == KeyType::Nsec ==> (r.error matches Some(m) && m@
            == "invalid nsec key"@),
        !r.valid && r.key_type == KeyType::Hex ==> (r.error matches Some(m) && m@
            == "invalid hex public key"@),
        r.key_type == KeyType::Invalid ==> (r.error matches Some(m) && m@
            == "Unrecognized key format. Expected npub1..., nsec1..., or 64-character hex"@),
{
    let trimmed = crate::chars::str_trim(key);
    let input = String::from_str(trimmed);
    if crate::chars::str_starts_with(trimmed, lit_npub1_str()) {
        match crate::nostrkeys::npub_to_hex(trimmed) {
            Result::Ok(h) => VerifyResult {
                input: String::from_str(trimmed),
                key_type: KeyType::Npub,
                valid: true,
                public_key_npub: Some(input),
                public_key_hex: Some(h),
                error: None,
            },
            Result::Err(_) => VerifyResult {
                input,
                key_type: KeyType::Npub,
                valid: false,
                public_key_npub: None,
                public_key_hex: None,
                error: Some(String::from_str("invalid npub key")),
            },
        }
    } else if crate::chars::str_starts_with(trimmed, lit_nsec1_str()) {
        let hex = crate::nostrkeys::parse_secret_material(trimmed);
        match hex {
            Result::Ok(h) => match crate::nostrkeys::pk_hex_to_npub(h.as_str()) {
                Result::Ok(npub) => VerifyResult {
                    input,
                    key_type: KeyType::Nsec,
                    valid: true,
                    public_key_npub: Some(npub),
                    public_key_hex: Some(h),
                    error: None,
                },
                Result::Err(_) => VerifyResult {
                    input,
                    key_type: KeyType::Nsec,
                    valid: false,
                    public_key_npub: None,
                    public_key_hex: None,
                    error: Some(String::from_str("invalid nsec key")),
                },
            },
            Result::Err(_) => VerifyResult {
                input,
                key_type: KeyType::Nsec,
                valid: false,
                public_key_npub: None,
                public_key_hex: None,
                error: Some(String::from_str("invalid nsec key")),
            },
        }
    } else if is_hex64_exec(trimmed) {
        match crate::nostrkeys::pk_hex_to_npub(trimmed) {
            Result::Ok(npub) => VerifyResult {
                input: String::from_str(trimmed),
                key_type: KeyType::Hex,
                valid: true,
                public_key_npub: Some(npub),
                public_key_hex: Some(input),
                error: None,
            },
            Result::Err(_) => VerifyResult {
                input,
                key_type: KeyType::Hex,
                valid: false,
                public_key_npub: None,
                public_key_hex: None,
                error: Some(String::from_str("invalid hex public key")),
            },
        }
    } else {
        VerifyResult {
            input,
            key_type: KeyType::Invalid,
            valid: false,
            public_key_npub: None,
            public_key_hex: None,
            error: Some(
                String::from_str(
                    "Unrecognized key format. Expected npub1..., nsec1..., or 64-character hex",
                ),
            ),
        }
    }
}

/// The public identity derived from a private key.
#[derive(Debug)]
pub struct DerivePublicResult {
    pub public_key_npub: String,
    pub public_key_hex: String,
}

/// Derive the public identity from private key material (`nsec1…` or 64
/// hex characters).
pub fn derive_public_from_private(private_key: &str) -> (r: Result<DerivePublicResult, Error>)
    ensures
        (r is Ok) <==> (secret_shaped(crate::chars::trim_spec(private_key@))
            && crate::nostrkeys::secret_decodes(crate::chars::trim_spec(private_key@))),
        r is Err ==> r == Err::<DerivePublicResult, Error>(Error::UnsupportedMaterial),
        r matches Ok(res) ==> res.public_key_hex@ == crate::nostrkeys::secret_hex_of(
            crate::chars::trim_spec(private_key@),
        ) && res.public_key_npub@ == crate::nostrkeys::npub_of_hex(
            crate::nostrkeys::secret_hex_of(crate::chars::trim_spec(private_key@)),
        ),
{
    let trimmed = crate::chars::str_trim(private_key);
    let shape_ok = crate::chars::str_starts_with(trimmed, lit_nsec1_str()) || is_hex64_exec(
        trimmed,
    );
    if !shape_ok {
        return Err(Error::UnsupportedMaterial);
    }
    let hex = match crate::nostrkeys::parse_secret_material(trimmed) {
        Result::Ok(h) => h,
        Result::Err(_) => {
            return Err(Error::UnsupportedMaterial);
        },
    };
    let npub = match crate::nostrkeys::pk_hex_to_npub(hex.as_str()) {
        Result::Ok(x) => x,
        Result::Err(_) => {
            return Err(Error::Internal);
        },
    };
    Ok(DerivePublicResult { public_key_npub: npub, public_key_hex: hex })
}

} // verus!
