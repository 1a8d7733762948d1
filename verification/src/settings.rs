//! Per-identity settings: relay list, profile metadata, and the follow
//! cache, keyed by public-key hex so that renaming a label leaves them
//! untouched.
use vstd::prelude::*;

use crate::chars::{lex_lt, str_cmp, str_eq};

verus! {

/// Profile metadata fields, all optional.
pub struct ProfileMetadata {
    pub name: Option<String>,
    pub display_name: Option<String>,
    pub about: Option<String>,
    pub picture: Option<String>,
    pub banner: Option<String>,
    pub nip05: Option<String>,
    pub lud06: Option<String>,
    pub lud16: Option<String>,
    pub website: Option<String>,
}

/// The mathematical value of a [`ProfileMetadata`].
pub struct ProfileMetadataV {
    pub name: Option<Seq<char>>,
    pub display_name: Option<Seq<char>>,
    pub about: Option<Seq<char>>,
    pub picture: Option<Seq<char>>,
    pub banner: Option<Seq<char>>,
    pub nip05: Option<Seq<char>>,
    pub lud06: Option<Seq<char>>,
    pub lud16: Option<Seq<char>>,
    pub website: Option<Seq<char>>,
}

pub open spec fn view_opt_string(o: Option<String>) -> Option<Seq<char>> {
    match o {
        Option::Some(s) => Some(s@),
        Option::None => None,
    }
}

impl View for ProfileMetadata {
    type V = ProfileMetadataV;

    open spec fn view(&self) -> ProfileMetadataV {
        ProfileMetadataV {
            name: view_opt_string(self.name),
            display_name: view_opt_string(self.display_name),
            about: view_opt_string(self.about),
            picture: view_opt_string(self.picture),
            banner: view_opt_string(self.banner),
            nip05: view_opt_string(self.nip05),
            lud06: view_opt_string(self.lud06),
            lud16: view_opt_string(self.lud16),
            website: view_opt_string(self.website),
        }
    }
}

fn dup_opt_string(o: &Option<String>) -> (r: Option<String>)
    ensures
        view_opt_string(r) == view_opt_string(*o),
{
    match o {
        Option::Some(s) => Some(s.clone()),
        Option::None => None,
    }
}

impl ProfileMetadata {
    /// Metadata with no field set.
    pub fn empty() -> (r: ProfileMetadata)
        ensures
            r@.name is None,
            r@.display_name is None,
            r@.about is None,
            r@.picture is None,
            r@.banner is None,
            r@.nip05 is None,
            r@.lud06 is None,
            r@.lud16 is None,
            r@.website is None,
    {
        ProfileMetadata {
            name: None,
            display_name: None,
            about: None,
            picture: None,
            banner: None,
            nip05: None,
            lud06: None,
            lud16: None,
            website: None,
        }
    }

    /// A copy with the same fields.
    pub fn duplicate(&self) -> (r: ProfileMetadata)
        ensures
            r@ == self@,
    {
        ProfileMetadata {
            name: dup_opt_string(&self.name),
            display_name: dup_opt_string(&self.display_name),
            about: dup_opt_string(&self.about),
            picture: dup_opt_string(&self.picture),
            banner: dup_opt_string(&self.banner),
            nip05: dup_opt_string(&self.nip05),
            lud06: dup_opt_string(&self.lud06),
            lud16: dup_opt_string(&self.lud16),
            website: dup_opt_string(&self.website),
        }
    }
}

/// One followed identity.
pub struct FollowEntry {
    pub pubkey: String,
    pub relay_url: Option<String>,
    pub petname: Option<String>,
}

/// The mathematical value of a [`FollowEntry`].
pub struct FollowEntryV {
    pub pubkey: Seq<char>,
    pub relay_url: Option<Seq<char>>,
    pub petname: Option<Seq<char>>,
}

impl View for FollowEntry {
    type V = FollowEntryV;

    open spec fn view(&self) -> FollowEntryV {
        FollowEntryV {
            pubkey: self.pubkey@,
            relay_url: view_opt_string(self.relay_url),
            petname: view_opt_string(self.petname),
        }
    }
}

impl FollowEntry {
    /// A copy with the same fields.
    pub fn duplicate(&self) -> (r: FollowEntry)
        ensures
            r@ == self@,
    {
        FollowEntry {
            pubkey: self.pubkey.clone(),
            relay_url: dup_opt_string(&self.relay_url),
            petname: dup_opt_string(&self.petname),
        }
    }
}

/// The settings of one identity.
pub struct KeySettings {
    pub relays: Vec<String>,
    pub metadata: Option<ProfileMetadata>,
    pub follows: Option<Vec<FollowEntry>>,
}

/// The mathematical value of a [`KeySettings`].
pub struct KeySettingsV {
    pub relays: Seq<Seq<char>>,
    pub metadata: Option<ProfileMetadataV>,
    pub follows: Option<Seq<FollowEntryV>>,
}

impl View for KeySettings {
    type V = KeySettingsV;

    open spec fn view(&self) -> KeySettingsV {
        KeySettingsV {
            relays: self.relays@.map_values(|s: String| s@),
            metadata: match self.metadata {
                Option::Some(ref m) => Some(m@),
                Option::None => None,
            },
            follows: match self.follows {
                Option::Some(ref f) => Some(f@.map_values(|e: FollowEntry| e@)),
                Option::None => None,
            },
        }
    }
}

fn dup_string_vec(v: &Vec<String>) -> (r: Vec<String>)
    ensures
        r@.map_values(|s: String| s@) == v@.map_values(|s: String| s@),
{
    let mut out: Vec<String> = Vec::new();
    let n = v.len();
    let mut i: usize = 0;
    while i < n
        invariant
            0 <= i <= n,
            n == v@.len(),
            out@.map_values(|s: String| s@) =~= v@.map_values(|s: String| s@).take(i as int),
        decreases n - i,
    {
        out.push(v[i].clone());
        proof {
            assert(v@.map_values(|s: String| s@).take(i + 1) =~= v@.map_values(
                |s: String| s@,
            ).take(i as int).push(v@.map_values(|s: String| s@)[i as int]));
            assert(out@.map_values(|s: String| s@) =~= v@.map_values(|s: String| s@).take(i + 1));
        }
        i = i + 1;
    }
    proof {
        assert(v@.map_values(|s: String| s@).take(n as int) =~= v@.map_values(|s: String| s@));
    }
    out
}

impl KeySettings {
    /// Settings with no relays, no metadata and no follow cache.
    pub fn empty() -> (r: KeySettings)
        ensures
            r@.relays =~= Seq::<Seq<char>>::empty(),
            r@.metadata is None,
            r@.follows is None,
    {
        KeySettings { relays: Vec::new(), metadata: None, follows: None }
    }

    /// A copy with the same fields.
    pub fn duplicate(&self) -> (r: KeySettings)
        ensures
            r@ == self@,
    {
        let relays = dup_string_vec(&self.relays);
        let metadata = match &self.metadata {
            Option::Some(m) => Some(m.duplicate()),
            Option::None => None,
        };
        let follows = match &self.follows {
            Option::Some(f) => {
                let mut out: Vec<FollowEntry> = Vec::new();
                let n = f.len();
                let mut i: usize = 0;
                while i < n
                    invariant
                        0 <= i <= n,
                        n == f@.len(),
                        out@.map_values(|e: FollowEntry| e@) =~= f@.map_values(
                            |e: FollowEntry| e@,
                        ).take(i as int),
                    decreases n - i,
                {
                    out.push(f[i].duplicate());
                    proof {
                        assert(f@.map_values(|e: FollowEntry| e@).take(i + 1) =~= f@.map_values(
                            |e: FollowEntry| e@,
                        ).take(i as int).push(f@.map_values(|e: FollowEntry| e@)[i as int]));
                        assert(out@.map_values(|e: FollowEntry| e@) =~= f@.map_values(
                            |e: FollowEntry| e@,
                        ).take(i + 1));
                    }
                    i = i + 1;
                }
                proof {
                    assert(f@.map_values(|e: FollowEntry| e@).take(n as int) =~= f@.map_values(
                        |e: FollowEntry| e@,
                    ));
                }
                Some(out)
            },
            Option::None => None,
        };
        let r = KeySettings { relays, metadata, follows };
        assert(r@ == self@);
        r
    }
}

/// One identity's settings, keyed by public-key hex.
pub struct SettingsEntry {
    pub pubkey: String,
    pub value: KeySettings,
}

/// The mathematical value of a [`SettingsEntry`].
pub struct SettingsEntryV {
    pub pubkey: Seq<char>,
    pub value: KeySettingsV,
}

impl View for SettingsEntry {
    type V = SettingsEntryV;

    open spec fn view(&self) -> SettingsEntryV {
        SettingsEntryV { pubkey: self.pubkey@, value: self.value@ }
    }
}

/// The settings file: entries sorted strictly by public-key hex.
pub struct SettingsFile {
    pub settings: Vec<SettingsEntry>,
}

/// The mathematical value of a [`SettingsFile`].
pub struct SettingsFileV {
    pub settings: Seq<SettingsEntryV>,
}

impl View for SettingsFile {
    type V = SettingsFileV;

    open spec fn view(&self) -> SettingsFileV {
        SettingsFileV { settings: self.settings@.map_values(|e: SettingsEntry| e@) }
    }
}

/// Entries are in strictly increasing key order.
pub open spec fn settings_sorted(s: Seq<SettingsEntryV>) -> bool {
    forall|i: int, j: int|
        0 <= i < j < s.len() ==> lex_lt(#[trigger] s[i].pubkey, #[trigger] s[j].pubkey)
}

/// Whether some entry carries the key.
pub open spec fn settings_has(s: Seq<SettingsEntryV>, k: Seq<char>) -> bool {
    exists|i: int| 0 <= i < s.len() && (#[trigger] s[i].pubkey) == k
}

/// The settings stored under the key, if any (first match).
pub open spec fn settings_lookup(s: Seq<SettingsEntryV>, k: Seq<char>) -> Option<KeySettingsV>
    decreases s.len(),
{
    if s.len() == 0 {
        None
    } else if s[0].pubkey == k {
        Some(s[0].value)
    } else {
        settings_lookup(s.drop_first(), k)
    }
}

impl SettingsFileV {
    /// Well-formed: sorted (hence keys unique).
    pub open spec fn wf(self) -> bool {
        settings_sorted(self.settings)
    }
}

pub proof fn lemma_settings_lookup_has(s: Seq<SettingsEntryV>, k: Seq<char>)
    ensures
        settings_lookup(s, k) is Some <==> settings_has(s, k),
    decreases s.len(),
{
    if s.len() > 0 {
        lemma_settings_lookup_has(s.drop_first(), k);
        if s[0].pubkey == k {
        } else {
            assert(settings_has(s, k) == settings_has(s.drop_first(), k)) by {
                if settings_has(s, k) {
                    let i = choose|i: int| 0 <= i < s.len() && (#[trigger] s[i].pubkey) == k;
                    assert(i > 0);
                    assert(s.drop_first()[i - 1].pubkey == k);
                }
                if settings_has(s.drop_first(), k) {
                    let i = choose|i: int|
                        0 <= i < s.drop_first().len() && (#[trigger] s.drop_first()[i].pubkey)
                            == k;
                    assert(s[i + 1].pubkey == k);
                }
            }
        }
    }
}

/// Under a sorted table the lookup of the key found at `i` is that entry's
/// value.
pub proof fn lemma_settings_lookup_at(s: Seq<SettingsEntryV>, k: Seq<char>, i: int)
    requires
        0 <= i < s.len(),
        s[i].pubkey == k,
        settings_sorted(s),
    ensures
        settings_lookup(s, k) == Some(s[i].value),
    decreases s.len(),
{
    if s[0].pubkey == k {
        assert(i == 0) by {
            if i > 0 {
                assert(lex_lt(s[0].pubkey, s[i].pubkey));
                crate::chars::lemma_lex_irreflexive(k);
            }
        }
    } else {
        assert(i > 0);
        assert(s.drop_first()[i - 1] == s[i]);
        assert(settings_sorted(s.drop_first())) by {
            assert(forall|a: int|
                0 <= a < s.drop_first().len() ==> (#[trigger] s.drop_first()[a]) == s[a + 1]);
        }
        lemma_settings_lookup_at(s.drop_first(), k, i - 1);
    }
}

impl SettingsFile {
    /// An empty settings table.
    pub fn new() -> (r: SettingsFile)
        ensures
            r@.settings =~= Seq::<SettingsEntryV>::empty(),
            r@.wf(),
    {
        SettingsFile { settings: Vec::new() }
    }

    /// The position of the entry keyed `k`, if any.
    pub fn find(&self, k: &str) -> (r: Option<usize>)
        ensures
            match r {
                Option::Some(i) => i < self@.settings.len() && self@.settings[i as int].pubkey
                    == k@,
                Option::None => !settings_has(self@.settings, k@),
            },
    {
        let n = self.settings.len();
        let mut i: usize = 0;
        while i < n
            invariant
                0 <= i <= n,
                n == self@.settings.len(),
                forall|j: int| 0 <= j < i ==> (#[trigger] self@.settings[j].pubkey) != k@,
            decreases n - i,
        {
            if str_eq(self.settings[i].pubkey.as_str(), k) {
                return Some(i);
            }
            i = i + 1;
        }
        proof {
            if settings_has(self@.settings, k@) {
                let j = choose|j: int|
                    0 <= j < self@.settings.len() && (#[trigger] self@.settings[j].pubkey) == k@;
                assert(self@.settings[j].pubkey != k@);
            }
        }
        None
    }

    /// Store `value` under `k`: replace in place when the key exists, else
    /// insert at the sorted position.
    pub fn save(&mut self, k: &str, value: KeySettings)
        requires
            old(self)@.wf(),
        ensures
            final(self)@.wf(),
            settings_lookup(final(self)@.settings, k@) == Some(value@),
            forall|x: Seq<char>|
                x != k@ ==> #[trigger] settings_lookup(final(self)@.settings, x)
                    == settings_lookup(old(self)@.settings, x),
    {
        let ghost sv = self@.settings;
        let entry = SettingsEntry { pubkey: String::from_str(k), value };
        match self.find(k) {
            Option::Some(i) => {
                let _old = self.settings.remove(i);
                self.settings.insert(i, entry);
                proof {
                    let nv = self@.settings;
                    assert(nv =~= sv.update(i as int, SettingsEntryV { pubkey: k@, value: value@ }));
                    assert(settings_sorted(nv)) by {
                        assert(forall|a: int|
                            0 <= a < nv.len() && a != i as int ==> (#[trigger] nv[a]) == sv[a]);
                        assert(nv[i as int].pubkey == sv[i as int].pubkey);
                        assert forall|a: int, b: int| 0 <= a < b < nv.len() implies lex_lt(
                            #[trigger] nv[a].pubkey,
                            #[trigger] nv[b].pubkey,
                        ) by {
                            assert(nv[a].pubkey == sv[a].pubkey);
                            assert(nv[b].pubkey == sv[b].pubkey);
                        }
                    }
                    lemma_settings_lookup_at(nv, k@, i as int);
                    assert forall|x: Seq<char>| x != k@ implies #[trigger] settings_lookup(nv, x)
                        == settings_lookup(sv, x) by {
                        lemma_settings_update_other(sv, nv, i as int, x);
                    }
                }
            },
            Option::None => {
                let n = self.settings.len();
                let mut p: usize = 0;
                loop
                    invariant
                        0 <= p <= n,
                        n == sv.len(),
                        self@.settings == sv,
                        settings_sorted(sv),
                        !settings_has(sv, k@),
                        forall|j: int| 0 <= j < p ==> lex_lt(#[trigger] sv[j].pubkey, k@),
                    ensures
                        0 <= p <= n,
                        self@.settings == sv,
                        forall|j: int| 0 <= j < p ==> lex_lt(#[trigger] sv[j].pubkey, k@),
                        p < n ==> lex_lt(k@, sv[p as int].pubkey),
                    decreases n - p,
                {
                    if p == n {
                        break;
                    }
                    let c = str_cmp(self.settings[p].pubkey.as_str(), k);
                    if c == 0 {
                        proof {
                            assert(sv[p as int].pubkey == k@);
                            assert(settings_has(sv, k@));
                        }
                        assert(false);
                    } else if c == 1 {
                        break;
                    }
                    p = p + 1;
                }
                self.settings.insert(p, entry);
                proof {
                    let nv = self@.settings;
                    let pp = p as int;
                    assert(nv =~= sv.insert(pp, SettingsEntryV { pubkey: k@, value: value@ }));
                    assert forall|a: int, b: int| 0 <= a < b < nv.len() implies lex_lt(
                        #[trigger] nv[a].pubkey,
                        #[trigger] nv[b].pubkey,
                    ) by {
                        assert(nv[a] == (if a < pp {
                            sv[a]
                        } else if a == pp {
                            SettingsEntryV { pubkey: k@, value: value@ }
                        } else {
                            sv[a - 1]
                        }));
                        assert(nv[b] == (if b < pp {
                            sv[b]
                        } else if b == pp {
                            SettingsEntryV { pubkey: k@, value: value@ }
                        } else {
                            sv[b - 1]
                        }));
                        if a == pp && b > pp {
                            if pp < b - 1 {
                                crate::chars::lemma_lex_transitive(
                                    k@,
                                    sv[pp].pubkey,
                                    sv[b - 1].pubkey,
                                );
                            }
                        }
                    }
                    lemma_settings_lookup_at(nv, k@, pp);
                    assert forall|x: Seq<char>| x != k@ implies #[trigger] settings_lookup(nv, x)
                        == settings_lookup(sv, x) by {
                        lemma_settings_insert_other(sv, nv, pp, k@, value@, x);
                    }
                }
            },
        }
    }

    /// Remove the entry keyed `k`, if present.
    pub fn remove_key(&mut self, k: &str)
        requires
            old(self)@.wf(),
        ensures
            final(self)@.wf(),
            settings_lookup(final(self)@.settings, k@) is None,
            forall|x: Seq<char>|
                x != k@ ==> #[trigger] settings_lookup(final(self)@.settings, x)
                    == settings_lookup(old(self)@.settings, x),
    {
        let ghost sv = self@.settings;
        match self.find(k) {
            Option::None => {
                proof {
                    lemma_settings_lookup_has(sv, k@);
                }
            },
            Option::Some(i) => {
                let _old = self.settings.remove(i);
                proof {
                    let nv = self@.settings;
                    assert(nv =~= sv.remove(i as int));
                    assert forall|a: int, b: int| 0 <= a < b < nv.len() implies lex_lt(
                        #[trigger] nv[a].pubkey,
                        #[trigger] nv[b].pubkey,
                    ) by {
                        assert(nv[a] == (if a < i as int {
                            sv[a]
                        } else {
                            sv[a + 1]
                        }));
                        assert(nv[b] == (if b < i as int {
                            sv[b]
                        } else {
                            sv[b + 1]
                        }));
                    }
                    assert(settings_lookup(nv, k@) is None) by {
                        lemma_settings_lookup_has(nv, k@);
                        if settings_has(nv, k@) {
                            let a = choose|a: int|
                                0 <= a < nv.len() && (#[trigger] nv[a].pubkey) == k@;
                            if a < i as int {
                                assert(lex_lt(sv[a].pubkey, sv[i as int].pubkey));
                                crate::chars::lemma_lex_irreflexive(k@);
                            } else {
                                assert(lex_lt(sv[i as int].pubkey, sv[a + 1].pubkey));
                                crate::chars::lemma_lex_irreflexive(k@);
                            }
                        }
                    }
                    assert forall|x: Seq<char>| x != k@ implies #[trigger] settings_lookup(nv, x)
                        == settings_lookup(sv, x) by {
                        lemma_settings_remove_other(sv, nv, i as int, x);
                    }
                }
            },
        }
    }
}

/// An in-place update at `i` leaves every other key's lookup unchanged.
proof fn lemma_settings_update_other(
    sv: Seq<SettingsEntryV>,
    nv: Seq<SettingsEntryV>,
    i: int,
    x: Seq<char>,
)
    requires
        0 <= i < sv.len(),
        nv == sv.update(i, SettingsEntryV { pubkey: sv[i].pubkey, value: nv[i].value }),
        sv[i].pubkey != x,
    ensures
        settings_lookup(nv, x) == settings_lookup(sv, x),
    decreases sv.len(),
{
    if sv.len() > 0 {
        if i == 0 {
            assert(nv[0].pubkey == sv[0].pubkey);
            assert(nv.drop_first() =~= sv.drop_first());
        } else {
            assert(nv[0] == sv[0]);
            assert(nv.drop_first() =~= sv.drop_first().update(
                i - 1,
                SettingsEntryV { pubkey: sv[i].pubkey, value: nv[i].value },
            ));
            if sv[0].pubkey != x {
                assert(sv.drop_first()[i - 1] == sv[i]);
                lemma_settings_update_other(sv.drop_first(), nv.drop_first(), i - 1, x);
            }
        }
    }
}

/// An insertion at `p` leaves every other key's lookup unchanged.
proof fn lemma_settings_insert_other(
    sv: Seq<SettingsEntryV>,
    nv: Seq<SettingsEntryV>,
    p: int,
    k: Seq<char>,
    v: KeySettingsV,
    x: Seq<char>,
)
    requires
        0 <= p <= sv.len(),
        nv == sv.insert(p, SettingsEntryV { pubkey: k, value: v }),
        k != x,
    ensures
        settings_lookup(nv, x) == settings_lookup(sv, x),
    decreases sv.len() + 1,
{
    if p == 0 {
        assert(nv[0].pubkey == k);
        assert(nv.drop_first() =~= sv);
    } else {
        assert(nv[0] == sv[0]);
        assert(nv.drop_first() =~= sv.drop_first().insert(
            p - 1,
            SettingsEntryV { pubkey: k, value: v },
        ));
        if sv[0].pubkey != x {
            lemma_settings_insert_other(sv.drop_first(), nv.drop_first(), p - 1, k, v, x);
        }
    }
}

impl SettingsEntry {
    /// A copy with the same fields.
    pub fn duplicate(&self) -> (r: SettingsEntry)
        ensures
            r@ == self@,
    {
        SettingsEntry { pubkey: self.pubkey.clone(), value: self.value.duplicate() }
    }
}

/// The settings table's canonical text is under the cipher's length cap, so
/// it can be sealed.
pub open spec fn fits_seal_settings(sf: SettingsFileV) -> bool {
    crate::setjson::json_of_settings(sf).len() <= crate::storage::seal_cap()
}

/// Seal the canonical text of the settings under the master secret.  Sealing
/// succeeds exactly when the text is under the cipher's length cap.
pub fn encrypt_settings(sf: &SettingsFile, pass: &Vec<u8>) -> (r: Result<
    String,
    crate::storage::CodecError,
>)
    requires
        pass@.len() < 0xFFFFFFFF,
    ensures
        (r is Ok) <==> fits_seal_settings(sf@),
        r matches Ok(blob) ==> crate::storage::envelope_opens_to(
            blob@,
            pass@,
            crate::setjson::json_of_settings(sf@),
        ),
        r matches Err(e) ==> e == crate::storage::CodecError::SealFailed,
{
    let pt = crate::setjson::print_settings(sf);
    if (pt.len() as u64) > 0x200000000u64 {
        return Err(crate::storage::CodecError::SealFailed);
    }
    Ok(crate::storage::seal_envelope(&pt, pass))
}

/// Open a settings blob under the master secret and parse it.  What comes
/// back is checked against its own canonical text, so a returned table is
/// exactly one whose text was sealed in the blob; an envelope sealed under
/// this secret is never reported as an authentication failure.
pub fn decrypt_settings(blob: &str, pass: &Vec<u8>) -> (r: Result<
    SettingsFile,
    crate::storage::CodecError,
>)
    requires
        pass@.len() < 0xFFFFFFFF,
    ensures
        r matches Ok(sf) ==> sf@.wf() && crate::storage::envelope_opens_to(
            blob@,
            pass@,
            crate::setjson::json_of_settings(sf@),
        ),
        forall|sfv: SettingsFileV|
            crate::storage::envelope_opens_to(
                blob@,
                pass@,
                #[trigger] crate::setjson::json_of_settings(sfv),
            ) ==> (r is Ok || r == Err::<SettingsFile, crate::storage::CodecError>(
                crate::storage::CodecError::JsonParse,
            )),
        r == Err::<SettingsFile, crate::storage::CodecError>(
            crate::storage::CodecError::AuthFailed,
        ) ==> forall|pt: Seq<char>| !crate::storage::envelope_opens_to(blob@, pass@, pt),
{
    let chars = match crate::storage::open_envelope(blob, pass) {
        Result::Ok(c) => c,
        Result::Err(e) => {
            return Err(e);
        },
    };
    match crate::setjson::parse_settings(&chars) {
        Option::Some(sf) => {
            let reprint = crate::setjson::print_settings(&sf);
            if crate::chars::chars_eq(&reprint, &chars) {
                Ok(sf)
            } else {
                Err(crate::storage::CodecError::JsonParse)
            }
        },
        Option::None => Err(crate::storage::CodecError::JsonParse),
    }
}

/// The settings store: the in-memory table and the master secret that the
/// settings file is sealed under.
pub struct SettingsStore {
    /// The in-memory settings table.
    pub data: SettingsFile,
    /// The master secret.
    pub pass: Vec<u8>,
}

impl SettingsStore {
    /// Well-formed: the table is sorted and the master secret is below the
    /// KDF's length cap.
    pub open spec fn wf(&self) -> bool {
        &&& self.data@.wf()
        &&& self.pass@.len() < 0xFFFFFFFF
    }

    /// Load the settings: from the encrypted blob when one exists, else
    /// empty.
    pub fn load_or_init(existing: Option<&str>, pass: Vec<u8>) -> (r: Result<
        SettingsStore,
        crate::error::Error,
    >)
        requires
            pass@.len() < 0xFFFFFFFF,
        ensures
            r matches Ok(st) ==> st.wf() && st.pass@ == pass@,
            existing is None ==> (r matches Ok(st) && st.data@.settings =~= Seq::<
                SettingsEntryV,
            >::empty()),
            // a loaded table is exactly one whose canonical text was sealed
            // in the blob
            existing matches Some(blob) ==> ((r matches Ok(st)
                ==> crate::storage::envelope_opens_to(
                blob@,
                pass@,
                crate::setjson::json_of_settings(st.data@),
            )) && (forall|sfv: SettingsFileV|
                crate::storage::envelope_opens_to(
                    blob@,
                    pass@,
                    #[trigger] crate::setjson::json_of_settings(sfv),
                ) ==> (r is Ok || r == Err::<SettingsStore, crate::error::Error>(
                    crate::error::Error::Codec(crate::storage::CodecError::JsonParse),
                ))) && (r == Err::<SettingsStore, crate::error::Error>(
                crate::error::Error::Codec(crate::storage::CodecError::AuthFailed),
            ) ==> forall|pt: Seq<char>|
                !crate::storage::envelope_opens_to(blob@, pass@, pt))),
    {
        match existing {
            Option::Some(blob) => {
                match decrypt_settings(blob, &pass) {
                    Result::Ok(sf) => Ok(SettingsStore { data: sf, pass }),
                    Result::Err(e) => Err(crate::error::Error::Codec(e)),
                }
            },
            Option::None => Ok(SettingsStore { data: SettingsFile::new(), pass }),
        }
    }

    /// Seal the current table for the caller to write.  Succeeds exactly
    /// when the table's text is under the cipher's length cap.
    pub fn persist(&self) -> (r: Result<String, crate::error::Error>)
        requires
            self.wf(),
        ensures
            (r is Ok) <==> fits_seal_settings(self.data@),
            r matches Ok(blob) ==> crate::storage::envelope_opens_to(
                blob@,
                self.pass@,
                crate::setjson::json_of_settings(self.data@),
            ),
            r matches Err(e) ==> e == crate::error::Error::Codec(
                crate::storage::CodecError::SealFailed,
            ),
    {
        match encrypt_settings(&self.data, &self.pass) {
            Result::Ok(b) => Ok(b),
            Result::Err(e) => Err(crate::error::Error::Codec(e)),
        }
    }

    /// The settings stored under a public key, if any.
    pub fn get_settings(&self, pubkey_hex: &str) -> (r: Option<KeySettings>)
        requires
            self.wf(),
        ensures
            match r {
                Option::Some(v) => settings_lookup(self.data@.settings, pubkey_hex@) == Some(v@),
                Option::None => settings_lookup(self.data@.settings, pubkey_hex@) is None,
            },
    {
        proof {
            lemma_settings_lookup_has(self.data@.settings, pubkey_hex@);
        }
        match self.data.find(pubkey_hex) {
            Option::Some(i) => {
                proof {
                    lemma_settings_lookup_at(self.data@.settings, pubkey_hex@, i as int);
                }
                Some(self.data.settings[i].value.duplicate())
            },
            Option::None => None,
        }
    }

    /// Store settings under a public key and seal the new table.
    pub fn save_settings(&mut self, pubkey_hex: &str, settings: KeySettings) -> (r: Result<
        String,
        crate::error::Error,
    >)
        requires
            old(self).wf(),
        ensures
            final(self).wf(),
            final(self).pass@ == old(self).pass@,
            settings_lookup(final(self).data@.settings, pubkey_hex@) == Some(settings@),
            forall|x: Seq<char>|
                x != pubkey_hex@ ==> #[trigger] settings_lookup(final(self).data@.settings, x)
                    == settings_lookup(old(self).data@.settings, x),
            (r is Ok) <==> fits_seal_settings(final(self).data@),
            r matches Ok(blob) ==> crate::storage::envelope_opens_to(
                blob@,
                old(self).pass@,
                crate::setjson::json_of_settings(final(self).data@),
            ),
            r matches Err(e) ==> e == crate::error::Error::Codec(
                crate::storage::CodecError::SealFailed,
            ),
    {
        self.data.save(pubkey_hex, settings);
        self.persist()
    }

    /// Remove the settings under a public key and seal the new table.
    pub fn remove_settings(&mut self, pubkey_hex: &str) -> (r: Result<
        String,
        crate::error::Error,
    >)
        requires
            old(self).wf(),
        ensures
            final(self).wf(),
            final(self).pass@ == old(self).pass@,
            settings_lookup(final(self).data@.settings, pubkey_hex@) is None,
            forall|x: Seq<char>|
                x != pubkey_hex@ ==> #[trigger] settings_lookup(final(self).data@.settings, x)
                    == settings_lookup(old(self).data@.settings, x),
            (r is Ok) <==> fits_seal_settings(final(self).data@),
            r matches Ok(blob) ==> crate::storage::envelope_opens_to(
                blob@,
                old(self).pass@,
                crate::setjson::json_of_settings(final(self).data@),
            ),
            r matches Err(e) ==> e == crate::error::Error::Codec(
                crate::storage::CodecError::SealFailed,
            ),
    {
        self.data.remove_key(pubkey_hex);
        self.persist()
    }

    /// A snapshot of every identity's settings, in key order.
    pub fn all_settings(&self) -> (r: Vec<SettingsEntry>)
        ensures
            r@.map_values(|e: SettingsEntry| e@) == self.data@.settings,
    {
        let mut out: Vec<SettingsEntry> = Vec::new();
        let n = self.data.settings.len();
        let mut i: usize = 0;
        while i < n
            invariant
                0 <= i <= n,
                n == self.data@.settings.len(),
                out@.map_values(|e: SettingsEntry| e@) =~= self.data@.settings.take(i as int),
            decreases n - i,
        {
            out.push(self.data.settings[i].duplicate());
            proof {
                assert(self.data@.settings.take(i + 1) =~= self.data@.settings.take(
                    i as int,
                ).push(self.data@.settings[i as int]));
                assert(out@.map_values(|e: SettingsEntry| e@) =~= self.data@.settings.take(i + 1));
            }
            i = i + 1;
        }
        proof {
            assert(self.data@.settings.take(n as int) =~= self.data@.settings);
        }
        out
    }
}

/// A removal at `i` leaves every other key's lookup unchanged.
proof fn lemma_settings_remove_other(
    sv: Seq<SettingsEntryV>,
    nv: Seq<SettingsEntryV>,
    i: int,
    x: Seq<char>,
)
    requires
        0 <= i < sv.len(),
        nv == sv.remove(i),
        sv[i].pubkey != x,
    ensures
        settings_lookup(nv, x) == settings_lookup(sv, x),
    decreases sv.len(),
{
    if i == 0 {
        assert(nv =~= sv.drop_first());
    } else {
        assert(nv[0] == sv[0]);
        assert(nv.drop_first() =~= sv.drop_first().remove(i - 1));
        if sv[0].pubkey != x {
            assert(sv.drop_first()[i - 1] == sv[i]);
            lemma_settings_remove_other(sv.drop_first(), nv.drop_first(), i - 1, x);
        }
    }
}

} // verus!
