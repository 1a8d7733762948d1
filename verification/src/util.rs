//! Paths under the configuration root, the machine-local master secret, the
//! clock, and small helpers for the command line.
use vstd::prelude::*;

use crate::chars::{str_trim, trim_spec};
use crate::crypto::{b64_nopad_decode, b64_nopad_encode, b64_nopad_of, rand_bytes};

verus! {

/// `/.config/goostr`
pub open spec fn default_root_suffix() -> Seq<char> {
    seq!['/', '.', 'c', 'o', 'n', 'f', 'i', 'g', '/', 'g', 'o', 'o', 's', 't', 'r']
}

/// The configuration root: the override directory when set, else
/// `<home>/.config/goostr`, with `.` standing in for an unknown home.
pub open spec fn config_root_spec(dir: Option<Seq<char>>, home: Option<Seq<char>>) -> Seq<char> {
    match dir {
        Option::Some(d) => d,
        Option::None => (match home {
            Option::Some(h) => h,
            Option::None => seq!['.'],
        }) + default_root_suffix(),
    }
}

/// Resolve the configuration root from the override directory and the home
/// directory, both read by the caller from the environment.
pub fn nostr_config_root(dir: Option<&str>, home: Option<&str>) -> (r: String)
    ensures
        r@ == config_root_spec(
            match dir {
                Option::Some(d) => Some(d@),
                Option::None => None,
            },
            match home {
                Option::Some(h) => Some(h@),
                Option::None => None,
            },
        ),
{
    match dir {
        Option::Some(d) => String::from_str(d),
        Option::None => {
            let mut s = match home {
                Option::Some(h) => String::from_str(h),
                Option::None => {
                    proof {
                        reveal_strlit(".");
                    }
                    let dot = String::from_str(".");
                    assert(dot@ =~= seq!['.']);
                    dot
                },
            };
            proof {
                reveal_strlit("/.config/goostr");
            }
            let suffix = "/.config/goostr";
            assert(suffix@ =~= default_root_suffix());
            s.append(suffix);
            s
        },
    }
}

/// `<root>/keys.enc`: the encrypted key index.
pub fn nostr_index_path(root: &str) -> (r: String)
    ensures
        r@ == root@ + seq!['/', 'k', 'e', 'y', 's', '.', 'e', 'n', 'c'],
{
    proof {
        reveal_strlit("/keys.enc");
    }
    let suffix = "/keys.enc";
    assert(suffix@ =~= seq!['/', 'k', 'e', 'y', 's', '.', 'e', 'n', 'c']);
    let mut s = String::from_str(root);
    s.append(suffix);
    s
}

/// `<root>/keys.json`: the legacy plaintext index, migrated on first load.
pub fn legacy_keys_json_path(root: &str) -> (r: String)
    ensures
        r@ == root@ + seq!['/', 'k', 'e', 'y', 's', '.', 'j', 's', 'o', 'n'],
{
    proof {
        reveal_strlit("/keys.json");
    }
    let suffix = "/keys.json";
    assert(suffix@ =~= seq!['/', 'k', 'e', 'y', 's', '.', 'j', 's', 'o', 'n']);
    let mut s = String::from_str(root);
    s.append(suffix);
    s
}

/// `<root>/settings.enc`: the encrypted settings store.
pub fn settings_path(root: &str) -> (r: String)
    ensures
        r@ == root@ + seq!['/', 's', 'e', 't', 't', 'i', 'n', 'g', 's', '.', 'e', 'n', 'c'],
{
    proof {
        reveal_strlit("/settings.enc");
    }
    let suffix = "/settings.enc";
    assert(suffix@ =~= seq!['/', 's', 'e', 't', 't', 'i', 'n', 'g', 's', '.', 'e', 'n', 'c']);
    let mut s = String::from_str(root);
    s.append(suffix);
    s
}

/// `<root>/keystore.secret`: the master secret file.
pub fn keystore_secret_path(root: &str) -> (r: String)
    ensures
        r@ == root@ + seq![
            '/',
            'k',
            'e',
            'y',
            's',
            't',
            'o',
            'r',
            'e',
            '.',
            's',
            'e',
            'c',
            'r',
            'e',
            't',
        ],
{
    proof {
        reveal_strlit("/keystore.secret");
    }
    let suffix = "/keystore.secret";
    assert(suffix@ =~= seq![
        '/',
        'k',
        'e',
        'y',
        's',
        't',
        'o',
        'r',
        'e',
        '.',
        's',
        'e',
        'c',
        'r',
        'e',
        't',
    ]);
    let mut s = String::from_str(root);
    s.append(suffix);
    s
}

/// A fresh 32-byte master secret and its unpadded base64 text, for the
/// caller to write to `keystore.secret` with owner-only permissions.
pub fn new_master_secret() -> (r: (Vec<u8>, String))
    ensures
        r.0@.len() == 32,
        r.1@ == b64_nopad_of(r.0@),
{
    let bytes = rand_bytes(32);
    let text = b64_nopad_encode(&bytes);
    (bytes, text)
}

/// Decode the text of `keystore.secret` (trimmed of surrounding whitespace)
/// back into the master secret bytes.
pub fn decode_master_secret(text: &str) -> (r: Result<Vec<u8>, ()>)
    ensures
        forall|b: Seq<u8>|
            trim_spec(text@) == b64_nopad_of(b) ==> (r matches Ok(v) && v@ == b),
        r matches Ok(v) ==> trim_spec(text@) == b64_nopad_of(v@),
{
    let trimmed = str_trim(text);
    b64_nopad_decode(trimmed)
}

/// Relies on chrono's `Utc::now().timestamp()`: the current Unix time in
/// seconds.  Nothing is promised of its value.
#[verifier::external_body]
pub fn unix_now() -> (r: i64) {
    chrono::Utc::now().timestamp()
}

/// The first `=` in a sequence, or `-1`.
pub open spec fn eq_idx(s: Seq<char>) -> int
    decreases s.len(),
{
    if s.len() == 0 {
        -1
    } else if s[0] == '=' {
        0
    } else {
        let r = eq_idx(s.drop_first());
        if r < 0 {
            -1
        } else {
            r + 1
        }
    }
}

/// What one `KEY=VALUE` argument denotes: the trimmed key and value split at
/// the first `=`, or nothing when there is no `=`.
pub open spec fn env_pair_spec(s: Seq<char>) -> Option<(Seq<char>, Seq<char>)> {
    let i = eq_idx(s);
    if i < 0 {
        None
    } else {
        Some((trim_spec(s.subrange(0, i)), trim_spec(s.subrange(i + 1, s.len() as int))))
    }
}

proof fn lemma_eq_idx(s: Seq<char>)
    ensures
        eq_idx(s) >= 0 ==> eq_idx(s) < s.len() && s[eq_idx(s)] == '=' && (forall|j: int|
            0 <= j < eq_idx(s) ==> (#[trigger] s[j]) != '='),
        eq_idx(s) < 0 ==> forall|j: int| 0 <= j < s.len() ==> (#[trigger] s[j]) != '=',
    decreases s.len(),
{
    if s.len() > 0 && s[0] != '=' {
        lemma_eq_idx(s.drop_first());
        assert(forall|j: int| 1 <= j < s.len() ==> (#[trigger] s[j]) == s.drop_first()[j - 1]);
        if eq_idx(s.drop_first()) < 0 {
            assert(forall|j: int| 1 <= j < s.len() ==> (#[trigger] s[j]) != '=');
        } else {
            assert(s[eq_idx(s)] == s.drop_first()[eq_idx(s) - 1]);
            assert(forall|j: int| 1 <= j < eq_idx(s) ==> (#[trigger] s[j]) != '=');
        }
    }
}

/// Split one `KEY=VALUE` argument into its trimmed key and value.
pub fn split_env_pair(s: &str) -> (r: Option<(String, String)>)
    ensures
        match r {
            Option::Some(kv) => env_pair_spec(s@) == Some((kv.0@, kv.1@)),
            Option::None => env_pair_spec(s@) is None,
        },
{
    let n = s.unicode_len();
    let mut i: usize = 0;
    while i < n && s.get_char(i) != '='
        invariant
            0 <= i <= n,
            n == s@.len(),
            forall|j: int| 0 <= j < i ==> (#[trigger] s@[j]) != '=',
        decreases n - i,
    {
        i = i + 1;
    }
    proof {
        lemma_eq_idx(s@);
    }
    if i == n {
        proof {
            if eq_idx(s@) >= 0 {
                assert(s@[eq_idx(s@)] != '=');
            }
        }
        return None;
    }
    proof {
        if eq_idx(s@) < 0 {
            assert(s@[i as int] != '=');
        }
        if eq_idx(s@) > i as int {
            assert(s@[i as int] != '=');
        }
        if eq_idx(s@) < i as int {
            assert(s@[eq_idx(s@)] != '=');
        }
        assert(eq_idx(s@) == i as int);
    }
    let left = s.substring_char(0, i);
    let right = s.substring_char(i + 1, n);
    let k = String::from_str(str_trim(left));
    let v = String::from_str(str_trim(right));
    assert(k@ == trim_spec(s@.subrange(0, i as int)));
    assert(v@ == trim_spec(s@.subrange(i + 1, n as int)));
    Some((k, v))
}

/// One parsed `KEY=VALUE` argument.
pub struct EnvPair {
    pub key: String,
    pub value: String,
}

/// The mathematical value of an [`EnvPair`].
pub struct EnvPairV {
    pub key: Seq<char>,
    pub value: Seq<char>,
}

impl View for EnvPair {
    type V = EnvPairV;

    open spec fn view(&self) -> EnvPairV {
        EnvPairV { key: self.key@, value: self.value@ }
    }
}

/// The fold that `parse_env_pairs` computes: arguments without `=` are
/// dropped; a repeated key keeps its first position and takes the last
/// value.
pub open spec fn env_fold(acc: Seq<EnvPairV>, rest: Seq<Seq<char>>) -> Seq<EnvPairV>
    decreases rest.len(),
{
    if rest.len() == 0 {
        acc
    } else {
        let acc2 = match env_pair_spec(rest[0]) {
            Option::Some(kv) => {
                let i = env_key_idx(acc, kv.0);
                if i >= 0 {
                    acc.update(i, EnvPairV { key: kv.0, value: kv.1 })
                } else {
                    acc.push(EnvPairV { key: kv.0, value: kv.1 })
                }
            },
            Option::None => acc,
        };
        env_fold(acc2, rest.drop_first())
    }
}

/// Index of a key among parsed pairs, or `-1`.
pub open spec fn env_key_idx(acc: Seq<EnvPairV>, k: Seq<char>) -> int
    decreases acc.len(),
{
    if acc.len() == 0 {
        -1
    } else if acc[0].key == k {
        0
    } else {
        let r = env_key_idx(acc.drop_first(), k);
        if r < 0 {
            -1
        } else {
            r + 1
        }
    }
}

/// Parse `KEY=VALUE` arguments into a key-to-value table, first-seen key
/// order, last value wins.
pub fn parse_env_pairs(pairs: &Vec<String>) -> (r: Vec<EnvPair>)
    ensures
        r@.map_values(|p: EnvPair| p@) == env_fold(
            Seq::empty(),
            pairs@.map_values(|s: String| s@),
        ),
{
    let mut acc: Vec<EnvPair> = Vec::new();
    let n = pairs.len();
    let mut i: usize = 0;
    proof {
        assert(pairs@.map_values(|s2: String| s2@).skip(0) =~= pairs@.map_values(
            |s2: String| s2@,
        ));
        assert(acc@.map_values(|p: EnvPair| p@) =~= Seq::<EnvPairV>::empty());
    }
    while i < n
        invariant
            0 <= i <= n,
            n == pairs@.len(),
            env_fold(Seq::empty(), pairs@.map_values(|s: String| s@)) == env_fold(
                acc@.map_values(|p: EnvPair| p@),
                pairs@.map_values(|s: String| s@).skip(i as int),
            ),
        decreases n - i,
    {
        let ghost av = acc@.map_values(|p: EnvPair| p@);
        let ghost rest = pairs@.map_values(|s: String| s@).skip(i as int);
        proof {
            assert(rest[0] == pairs@.map_values(|s: String| s@)[i as int]);
            assert(rest.drop_first() =~= pairs@.map_values(|s: String| s@).skip(i + 1));
        }
        match split_env_pair(pairs[i].as_str()) {
            Option::Some((k, v)) => {
                let pos = env_find(&acc, k.as_str());
                match pos {
                    Option::Some(p) => {
                        let _old = acc.remove(p);
                        acc.insert(p, EnvPair { key: k, value: v });
                        proof {
                            assert(acc@.map_values(|p2: EnvPair| p2@) =~= av.update(
                                p as int,
                                EnvPairV {
                                    key: env_pair_spec(rest[0])->Some_0.0,
                                    value: env_pair_spec(rest[0])->Some_0.1,
                                },
                            ));
                        }
                    },
                    Option::None => {
                        acc.push(EnvPair { key: k, value: v });
                        proof {
                            assert(acc@.map_values(|p2: EnvPair| p2@) =~= av.push(
                                EnvPairV {
                                    key: env_pair_spec(rest[0])->Some_0.0,
                                    value: env_pair_spec(rest[0])->Some_0.1,
                                },
                            ));
                        }
                    },
                }
            },
            Option::None => {
            },
        }
        i = i + 1;
    }
    proof {
        assert(pairs@.map_values(|s: String| s@).skip(n as int) =~= Seq::<Seq<char>>::empty());
    }
    acc
}

/// The position of `k` among the accumulated pairs.
fn env_find(acc: &Vec<EnvPair>, k: &str) -> (r: Option<usize>)
    ensures
        match r {
            Option::Some(i) => env_key_idx(acc@.map_values(|p: EnvPair| p@), k@) == i as int && i
                < acc@.len(),
            Option::None => env_key_idx(acc@.map_values(|p: EnvPair| p@), k@) < 0,
        },
{
    let ghost av = acc@.map_values(|p: EnvPair| p@);
    let n = acc.len();
    let mut i: usize = 0;
    while i < n
        invariant
            0 <= i <= n,
            n == av.len(),
            av == acc@.map_values(|p: EnvPair| p@),
            forall|j: int| 0 <= j < i ==> (#[trigger] av[j].key) != k@,
        decreases n - i,
    {
        if crate::chars::str_eq(acc[i].key.as_str(), k) {
            proof {
                lemma_env_key_idx(av, k@, i as int);
            }
            return Some(i);
        }
        i = i + 1;
    }
    proof {
        lemma_env_key_idx_none(av, k@);
    }
    None
}

proof fn lemma_env_key_idx(acc: Seq<EnvPairV>, k: Seq<char>, i: int)
    requires
        0 <= i < acc.len(),
        acc[i].key == k,
        forall|j: int| 0 <= j < i ==> (#[trigger] acc[j].key) != k,
    ensures
        env_key_idx(acc, k) == i,
    decreases acc.len(),
{
    if i > 0 {
        assert(forall|j: int|
            0 <= j < acc.drop_first().len() ==> (#[trigger] acc.drop_first()[j]) == acc[j + 1]);
        lemma_env_key_idx(acc.drop_first(), k, i - 1);
    }
}

proof fn lemma_env_key_idx_none(acc: Seq<EnvPairV>, k: Seq<char>)
    requires
        forall|j: int| 0 <= j < acc.len() ==> (#[trigger] acc[j].key) != k,
    ensures
        env_key_idx(acc, k) < 0,
    decreases acc.len(),
{
    if acc.len() > 0 {
        assert(forall|j: int|
            0 <= j < acc.drop_first().len() ==> (#[trigger] acc.drop_first()[j]) == acc[j + 1]);
        lemma_env_key_idx_none(acc.drop_first(), k);
    }
}

} // verus!
