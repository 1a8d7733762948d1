//! The host agent's extension registrations, as the library models them: a
//! table of entries keyed by identifier, upserted or removed by the install
//! and uninstall commands.  The caller holds the surrounding configuration
//! document and folds this table back into it.
use vstd::prelude::*;

use crate::chars::str_eq;
use crate::util::EnvPair;

verus! {

/// One registration entry.
pub struct ExtensionEntry {
    pub enabled: bool,
    pub kind: String,
    pub name: String,
    pub description: String,
    pub display_name: String,
    pub timeout: u64,
    pub bundled: bool,
    pub available_tools: Vec<String>,
    pub cmd: String,
    pub args: Vec<String>,
    pub envs: Vec<EnvPair>,
    pub env_keys: Vec<String>,
}

/// One keyed registration.
pub struct ExtensionItem {
    pub id: String,
    pub entry: ExtensionEntry,
}

/// Whether some registration carries the identifier.
pub open spec fn ext_has(s: Seq<Seq<char>>, id: Seq<char>) -> bool {
    exists|i: int| 0 <= i < s.len() && (#[trigger] s[i]) == id
}

/// The identifiers of a registration table.
pub open spec fn ext_ids(s: Seq<ExtensionItem>) -> Seq<Seq<char>> {
    s.map_values(|e: ExtensionItem| e.id@)
}

/// The position of an identifier in the table.
fn ext_find(exts: &Vec<ExtensionItem>, id: &str) -> (r: Option<usize>)
    ensures
        match r {
            Option::Some(i) => i < exts@.len() && ext_ids(exts@)[i as int] == id@,
            Option::None => !ext_has(ext_ids(exts@), id@),
        },
{
    let n = exts.len();
    let mut i: usize = 0;
    while i < n
        invariant
            0 <= i <= n,
            n == exts@.len(),
            forall|j: int| 0 <= j < i ==> (#[trigger] ext_ids(exts@)[j]) != id@,
        decreases n - i,
    {
        if str_eq(exts[i].id.as_str(), id) {
            assert(ext_ids(exts@)[i as int] == id@);
            return Some(i);
        }
        proof {
            assert(ext_ids(exts@)[i as int] == exts@[i as int].id@);
        }
        i = i + 1;
    }
    proof {
        if ext_has(ext_ids(exts@), id@) {
            let j = choose|j: int|
                0 <= j < ext_ids(exts@).len() && (#[trigger] ext_ids(exts@)[j]) == id@;
            assert(ext_ids(exts@)[j] != id@);
        }
    }
    None
}

/// Identifiers occur at most once in the table.
pub open spec fn ext_unique(s: Seq<ExtensionItem>) -> bool {
    forall|i: int, j: int| 0 <= i < j < s.len() ==> (#[trigger] s[i].id@) != (#[trigger] s[j].id@)
}

/// Install or update the registration under `id`: replaced in place when it
/// exists, appended otherwise.  Every other identifier keeps its position.
pub fn upsert_stdio_extension(exts: &mut Vec<ExtensionItem>, id: &str, entry: ExtensionEntry)
    requires
        ext_unique(old(exts)@),
    ensures
        ext_unique(final(exts)@),
        ext_has(ext_ids(final(exts)@), id@),
        exists|i: int|
            0 <= i < final(exts)@.len() && (#[trigger] final(exts)@[i].id@) == id@ && final(exts)@[i].entry == entry,
        forall|j: int|
            0 <= j < old(exts)@.len() && old(exts)@[j].id@ != id@ ==> (#[trigger] final(exts)@[j]) == old(exts)@[j],
        final(exts)@.len() as int == (if ext_has(ext_ids(old(exts)@), id@) {
            old(exts)@.len() as int
        } else {
            old(exts)@.len() as int + 1
        }),
{
    let ghost ov = exts@;
    let item = ExtensionItem { id: String::from_str(id), entry };
    match ext_find(exts, id) {
        Option::Some(i) => {
            let _old = exts.remove(i);
            exts.insert(i, item);
            proof {
                let nv = exts@;
                let ii = i as int;
                assert(exts@[i as int].id@ == id@);
                assert(ext_has(ext_ids(exts@), id@)) by {
                    assert(ext_ids(exts@)[i as int] == id@);
                }
                assert(forall|k: int| 0 <= k < nv.len() && k != ii ==> (#[trigger] nv[k]) == ov[k])
                    by {
                    assert(forall|k: int|
                        0 <= k < nv.len() && k != ii ==> (#[trigger] nv[k]) == ov.remove(ii).insert(
                            ii,
                            item,
                        )[k]);
                }
                assert(ov[ii].id@ == id@);
                assert forall|a: int, b: int| 0 <= a < b < nv.len() implies (
                #[trigger] nv[a].id@) != (#[trigger] nv[b].id@) by {
                    if a != ii && b != ii {
                        assert(nv[a] == ov[a] && nv[b] == ov[b]);
                    } else if a == ii {
                        assert(nv[b] == ov[b]);
                        assert(ov[b].id@ != ov[ii].id@);
                    } else {
                        assert(nv[a] == ov[a]);
                        assert(ov[a].id@ != ov[ii].id@);
                    }
                }
            }
        },
        Option::None => {
            exts.push(item);
            proof {
                let nv = exts@;
                let nn = exts@.len() as int;
                assert(exts@[nn - 1].id@ == id@);
                assert(ext_has(ext_ids(exts@), id@)) by {
                    assert(ext_ids(exts@)[nn - 1] == id@);
                }
                assert forall|a: int, b: int| 0 <= a < b < nv.len() implies (
                #[trigger] nv[a].id@) != (#[trigger] nv[b].id@) by {
                    if b < nn - 1 {
                        assert(nv[a] == ov[a] && nv[b] == ov[b]);
                    } else {
                        assert(nv[a] == ov[a]);
                        if ov[a].id@ == id@ {
                            assert(ext_ids(ov)[a] == id@);
                            assert(ext_has(ext_ids(ov), id@));
                        }
                    }
                }
            }
        },
    }
}

/// Remove the registration under `id`; afterwards no entry carries it.
/// Reports whether anything changed; the caller drops the whole table from
/// the document when it ends empty.
pub fn remove_extension(exts: &mut Vec<ExtensionItem>, id: &str) -> (r: bool)
    requires
        ext_unique(old(exts)@),
    ensures
        ext_unique(final(exts)@),
        r == ext_has(ext_ids(old(exts)@), id@),
        !ext_has(ext_ids(final(exts)@), id@),
        !r ==> final(exts)@ == old(exts)@,
        r ==> final(exts)@.len() == old(exts)@.len() - 1,
{
    let ghost ov = exts@;
    match ext_find(exts, id) {
        Option::Some(i) => {
            proof {
                assert(ext_has(ext_ids(exts@), id@)) by {
                    assert(ext_ids(exts@)[i as int] == id@);
                }
            }
            let _old = exts.remove(i);
            proof {
                let nv = exts@;
                let ii = i as int;
                assert(forall|k: int|
                    0 <= k < nv.len() ==> (#[trigger] nv[k]) == (if k < ii {
                        ov[k]
                    } else {
                        ov[k + 1]
                    }));
                assert forall|a: int, b: int| 0 <= a < b < nv.len() implies (
                #[trigger] nv[a].id@) != (#[trigger] nv[b].id@) by {}
                assert(!ext_has(ext_ids(nv), id@)) by {
                    if ext_has(ext_ids(nv), id@) {
                        let k = choose|k: int|
                            0 <= k < ext_ids(nv).len() && (#[trigger] ext_ids(nv)[k]) == id@;
                        if k < ii {
                            assert(ov[k].id@ == id@ && ov[ii].id@ == id@);
                        } else {
                            assert(ov[k + 1].id@ == id@ && ov[ii].id@ == id@);
                        }
                    }
                }
            }
            true
        },
        Option::None => false,
    }
}

/// `<home>/.config/goose`: the host agent's configuration directory.
pub fn root(home: &str) -> (r: String)
    ensures
        r@ == home@ + seq!['/', '.', 'c', 'o', 'n', 'f', 'i', 'g', '/', 'g', 'o', 'o', 's', 'e'],
{
    proof {
        reveal_strlit("/.config/goose");
    }
    let suffix = "/.config/goose";
    assert(suffix@ =~= seq!['/', '.', 'c', 'o', 'n', 'f', 'i', 'g', '/', 'g', 'o', 'o', 's', 'e']);
    let mut s = String::from_str(home);
    s.append(suffix);
    s
}

/// `<home>/.config/goose/config.yaml`: the host agent's configuration file.
pub fn path(home: &str) -> (r: String)
    ensures
        r@ == home@ + seq!['/', '.', 'c', 'o', 'n', 'f', 'i', 'g', '/', 'g', 'o', 'o', 's', 'e']
            + seq!['/', 'c', 'o', 'n', 'f', 'i', 'g', '.', 'y', 'a', 'm', 'l'],
{
    proof {
        reveal_strlit("/config.yaml");
    }
    let suffix = "/config.yaml";
    assert(suffix@ =~= seq!['/', 'c', 'o', 'n', 'f', 'i', 'g', '.', 'y', 'a', 'm', 'l']);
    let mut s = root(home);
    s.append(suffix);
    s
}

} // verus!
