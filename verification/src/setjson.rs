//! The canonical text of the settings store: every field present, `null`
//! standing for an absent value, entries keyed and sorted by public-key hex.
//! The printer is exact; the parser accepts this canonical form and checks
//! the table's ordering.
use vstd::prelude::*;

use crate::jsontext::{json_quoted, parse_quoted, push_quoted, push_str_chars};
use crate::keyjson::{lit_null, lit_null_str};
use crate::settings::{FollowEntry, FollowEntryV, KeySettings, KeySettingsV, ProfileMetadata,
    ProfileMetadataV, SettingsEntry, SettingsEntryV, SettingsFile, SettingsFileV,
    view_opt_string};

verus! {

/// The text of an optional string: `null` or a quoted string.
pub open spec fn json_nullable(o: Option<Seq<char>>) -> Seq<char> {
    match o {
        Option::Some(s) => json_quoted(s),
        Option::None => lit_null(),
    }
}

/// The text of a string array.
pub open spec fn json_str_items(ss: Seq<Seq<char>>) -> Seq<char>
    decreases ss.len(),
{
    if ss.len() == 0 {
        Seq::empty()
    } else if ss.len() == 1 {
        json_quoted(ss[0])
    } else {
        json_str_items(ss.drop_last()) + seq![','] + json_quoted(ss.last())
    }
}

pub open spec fn json_str_array(ss: Seq<Seq<char>>) -> Seq<char> {
    seq!['['] + json_str_items(ss) + seq![']']
}

/// One printed metadata field: its key literal and its value.
pub open spec fn meta_field(lit: Seq<char>, v: Option<Seq<char>>) -> Seq<char> {
    lit + json_nullable(v)
}

/// The text of one profile-metadata object, every field present.
pub open spec fn json_of_metadata(m: ProfileMetadataV) -> Seq<char> {
    meta_field(seq!['{', '"', 'n', 'a', 'm', 'e', '"', ':'], m.name) + meta_field(
        seq![',', '"', 'd', 'i', 's', 'p', 'l', 'a', 'y', '_', 'n', 'a', 'm', 'e', '"', ':'],
        m.display_name,
    ) + meta_field(seq![',', '"', 'a', 'b', 'o', 'u', 't', '"', ':'], m.about) + meta_field(
        seq![',', '"', 'p', 'i', 'c', 't', 'u', 'r', 'e', '"', ':'],
        m.picture,
    ) + meta_field(seq![',', '"', 'b', 'a', 'n', 'n', 'e', 'r', '"', ':'], m.banner) + meta_field(
        seq![',', '"', 'n', 'i', 'p', '0', '5', '"', ':'],
        m.nip05,
    ) + meta_field(seq![',', '"', 'l', 'u', 'd', '0', '6', '"', ':'], m.lud06) + meta_field(
        seq![',', '"', 'l', 'u', 'd', '1', '6', '"', ':'],
        m.lud16,
    ) + meta_field(seq![',', '"', 'w', 'e', 'b', 's', 'i', 't', 'e', '"', ':'], m.website)
        + seq!['}']
}

/// Append one metadata field.
fn push_meta_field(out: &mut Vec<char>, lit: &str, v: &Option<String>)
    ensures
        final(out)@ == old(out)@ + meta_field(lit@, view_opt_string(*v)),
{
    push_str_chars(out, lit);
    push_nullable(out, v);
    assert(out@ =~= old(out)@ + meta_field(lit@, view_opt_string(*v)));
}

/// The text of one follow entry.
pub open spec fn json_of_follow(f: FollowEntryV) -> Seq<char> {
    seq!['{', '"', 'p', 'u', 'b', 'k', 'e', 'y', '"', ':'] + json_quoted(f.pubkey) + seq![',',
        '"', 'r', 'e', 'l', 'a', 'y', '_', 'u', 'r', 'l', '"', ':'] + json_nullable(f.relay_url)
        + seq![',', '"', 'p', 'e', 't', 'n', 'a', 'm', 'e', '"', ':'] + json_nullable(f.petname)
        + seq!['}']
}

/// The comma-joined follow entries.
pub open spec fn json_follow_items(fs: Seq<FollowEntryV>) -> Seq<char>
    decreases fs.len(),
{
    if fs.len() == 0 {
        Seq::empty()
    } else if fs.len() == 1 {
        json_of_follow(fs[0])
    } else {
        json_follow_items(fs.drop_last()) + seq![','] + json_of_follow(fs.last())
    }
}

/// The text of one identity's settings.
pub open spec fn json_of_keysettings(v: KeySettingsV) -> Seq<char> {
    seq!['{', '"', 'r', 'e', 'l', 'a', 'y', 's', '"', ':'] + json_str_array(v.relays) + seq![',',
        '"', 'm', 'e', 't', 'a', 'd', 'a', 't', 'a', '"', ':'] + (match v.metadata {
        Option::Some(m) => json_of_metadata(m),
        Option::None => lit_null(),
    }) + seq![',', '"', 'f', 'o', 'l', 'l', 'o', 'w', 's', '"', ':'] + (match v.follows {
        Option::Some(fs) => seq!['['] + json_follow_items(fs) + seq![']'],
        Option::None => lit_null(),
    }) + seq!['}']
}

/// One keyed settings item.
pub open spec fn json_settings_item(e: SettingsEntryV) -> Seq<char> {
    json_quoted(e.pubkey) + seq![':'] + json_of_keysettings(e.value)
}

/// The comma-joined settings items.
pub open spec fn json_settings_items(es: Seq<SettingsEntryV>) -> Seq<char>
    decreases es.len(),
{
    if es.len() == 0 {
        Seq::empty()
    } else if es.len() == 1 {
        json_settings_item(es[0])
    } else {
        json_settings_items(es.drop_last()) + seq![','] + json_settings_item(es.last())
    }
}

/// The text of the whole settings file.
pub open spec fn json_of_settings(sf: SettingsFileV) -> Seq<char> {
    seq!['{', '"', 's', 'e', 't', 't', 'i', 'n', 'g', 's', '"', ':', '{'] + json_settings_items(
        sf.settings,
    ) + seq!['}', '}']
}

fn push_nullable(out: &mut Vec<char>, o: &Option<String>)
    ensures
        final(out)@ == old(out)@ + json_nullable(view_opt_string(*o)),
{
    match o {
        Option::Some(s) => {
            push_quoted(out, s.as_str());
        },
        Option::None => {
            push_str_chars(out, lit_null_str());
        },
    }
}

fn push_str_array(out: &mut Vec<char>, ss: &Vec<String>)
    ensures
        final(out)@ == old(out)@ + json_str_array(ss@.map_values(|s: String| s@)),
{
    let ghost sv = ss@.map_values(|s: String| s@);
    out.push('[');
    let n = ss.len();
    let mut i: usize = 0;
    while i < n
        invariant
            0 <= i <= n,
            n == sv.len(),
            sv == ss@.map_values(|s: String| s@),
            out@ == old(out)@ + seq!['['] + json_str_items(sv.take(i as int)),
        decreases n - i,
    {
        if i > 0 {
            out.push(',');
        }
        push_quoted(out, ss[i].as_str());
        proof {
            assert(sv.take(i + 1).drop_last() =~= sv.take(i as int));
            assert(sv.take(i + 1).last() == sv[i as int]);
            if i == 0 {
                assert(json_str_items(sv.take(1)) == json_quoted(sv[0]));
            }
            assert(out@ =~= old(out)@ + seq!['['] + json_str_items(sv.take(i + 1)));
        }
        i = i + 1;
    }
    out.push(']');
    proof {
        assert(sv.take(n as int) =~= sv);
        assert(out@ =~= old(out)@ + json_str_array(sv));
    }
}

#[verifier::rlimit(100)]
fn push_metadata(out: &mut Vec<char>, m: &ProfileMetadata)
    ensures
        final(out)@ == old(out)@ + json_of_metadata(m@),
{
    proof {
        reveal_strlit("{\"name\":");
        reveal_strlit(",\"display_name\":");
        reveal_strlit(",\"about\":");
        reveal_strlit(",\"picture\":");
        reveal_strlit(",\"banner\":");
        reveal_strlit(",\"nip05\":");
        reveal_strlit(",\"lud06\":");
        reveal_strlit(",\"lud16\":");
        reveal_strlit(",\"website\":");
    }
    let l1 = "{\"name\":";
    assert(l1@ =~= seq!['{', '"', 'n', 'a', 'm', 'e', '"', ':']);
    push_meta_field(out, l1, &m.name);
    let l2 = ",\"display_name\":";
    assert(l2@ =~= seq![',', '"', 'd', 'i', 's', 'p', 'l', 'a', 'y', '_', 'n', 'a', 'm', 'e', '"',
        ':']);
    push_meta_field(out, l2, &m.display_name);
    let l3 = ",\"about\":";
    assert(l3@ =~= seq![',', '"', 'a', 'b', 'o', 'u', 't', '"', ':']);
    push_meta_field(out, l3, &m.about);
    let l4 = ",\"picture\":";
    assert(l4@ =~= seq![',', '"', 'p', 'i', 'c', 't', 'u', 'r', 'e', '"', ':']);
    push_meta_field(out, l4, &m.picture);
    let l5 = ",\"banner\":";
    assert(l5@ =~= seq![',', '"', 'b', 'a', 'n', 'n', 'e', 'r', '"', ':']);
    push_meta_field(out, l5, &m.banner);
    let l6 = ",\"nip05\":";
    assert(l6@ =~= seq![',', '"', 'n', 'i', 'p', '0', '5', '"', ':']);
    push_meta_field(out, l6, &m.nip05);
    let l7 = ",\"lud06\":";
    assert(l7@ =~= seq![',', '"', 'l', 'u', 'd', '0', '6', '"', ':']);
    push_meta_field(out, l7, &m.lud06);
    let l8 = ",\"lud16\":";
    assert(l8@ =~= seq![',', '"', 'l', 'u', 'd', '1', '6', '"', ':']);
    push_meta_field(out, l8, &m.lud16);
    let l9 = ",\"website\":";
    assert(l9@ =~= seq![',', '"', 'w', 'e', 'b', 's', 'i', 't', 'e', '"', ':']);
    push_meta_field(out, l9, &m.website);
    out.push('}');
    assert(out@ =~= old(out)@ + json_of_metadata(m@));
}

fn push_follow(out: &mut Vec<char>, f: &FollowEntry)
    ensures
        final(out)@ == old(out)@ + json_of_follow(f@),
{
    proof {
        reveal_strlit("{\"pubkey\":");
        reveal_strlit(",\"relay_url\":");
        reveal_strlit(",\"petname\":");
    }
    let l1 = "{\"pubkey\":";
    assert(l1@ =~= seq!['{', '"', 'p', 'u', 'b', 'k', 'e', 'y', '"', ':']);
    push_str_chars(out, l1);
    push_quoted(out, f.pubkey.as_str());
    let l2 = ",\"relay_url\":";
    assert(l2@ =~= seq![',', '"', 'r', 'e', 'l', 'a', 'y', '_', 'u', 'r', 'l', '"', ':']);
    push_str_chars(out, l2);
    push_nullable(out, &f.relay_url);
    let l3 = ",\"petname\":";
    assert(l3@ =~= seq![',', '"', 'p', 'e', 't', 'n', 'a', 'm', 'e', '"', ':']);
    push_str_chars(out, l3);
    push_nullable(out, &f.petname);
    out.push('}');
    assert(out@ =~= old(out)@ + json_of_follow(f@));
}

#[verifier::rlimit(100)]
fn push_keysettings(out: &mut Vec<char>, v: &KeySettings)
    ensures
        final(out)@ == old(out)@ + json_of_keysettings(v@),
{
    proof {
        reveal_strlit("{\"relays\":");
        reveal_strlit(",\"metadata\":");
        reveal_strlit(",\"follows\":");
    }
    let l1 = "{\"relays\":";
    assert(l1@ =~= seq!['{', '"', 'r', 'e', 'l', 'a', 'y', 's', '"', ':']);
    push_str_chars(out, l1);
    push_str_array(out, &v.relays);
    let l2 = ",\"metadata\":";
    assert(l2@ =~= seq![',', '"', 'm', 'e', 't', 'a', 'd', 'a', 't', 'a', '"', ':']);
    push_str_chars(out, l2);
    match &v.metadata {
        Option::Some(m) => {
            push_metadata(out, m);
        },
        Option::None => {
            push_str_chars(out, lit_null_str());
        },
    }
    let l3 = ",\"follows\":";
    assert(l3@ =~= seq![',', '"', 'f', 'o', 'l', 'l', 'o', 'w', 's', '"', ':']);
    push_str_chars(out, l3);
    match &v.follows {
        Option::Some(fs) => {
            let ghost fv = fs@.map_values(|e: FollowEntry| e@);
            let ghost head = out@;
            out.push('[');
            let n = fs.len();
            let mut i: usize = 0;
            while i < n
                invariant
                    0 <= i <= n,
                    n == fv.len(),
                    fv == fs@.map_values(|e: FollowEntry| e@),
                    out@ == head + seq!['['] + json_follow_items(fv.take(i as int)),
                decreases n - i,
            {
                if i > 0 {
                    out.push(',');
                }
                push_follow(out, &fs[i]);
                proof {
                    assert(fv.take(i + 1).drop_last() =~= fv.take(i as int));
                    assert(fv.take(i + 1).last() == fv[i as int]);
                    if i == 0 {
                        assert(json_follow_items(fv.take(1)) == json_of_follow(fv[0]));
                    }
                    assert(out@ =~= head + seq!['['] + json_follow_items(fv.take(i + 1)));
                }
                i = i + 1;
            }
            out.push(']');
            proof {
                assert(fv.take(n as int) =~= fv);
            }
        },
        Option::None => {
            push_str_chars(out, lit_null_str());
        },
    }
    out.push('}');
    assert(out@ =~= old(out)@ + json_of_keysettings(v@));
}

/// The canonical text of the settings file.
pub fn print_settings(sf: &SettingsFile) -> (r: Vec<char>)
    ensures
        r@ == json_of_settings(sf@),
{
    proof {
        reveal_strlit("{\"settings\":{");
    }
    let l1 = "{\"settings\":{";
    assert(l1@ =~= seq!['{', '"', 's', 'e', 't', 't', 'i', 'n', 'g', 's', '"', ':', '{']);
    let mut out: Vec<char> = Vec::new();
    push_str_chars(&mut out, l1);
    let ghost head = out@;
    let ghost ev = sf@.settings;
    let n = sf.settings.len();
    let mut i: usize = 0;
    while i < n
        invariant
            0 <= i <= n,
            n == ev.len(),
            ev == sf@.settings,
            out@ == head + json_settings_items(ev.take(i as int)),
        decreases n - i,
    {
        if i > 0 {
            out.push(',');
        }
        push_quoted(&mut out, sf.settings[i].pubkey.as_str());
        out.push(':');
        push_keysettings(&mut out, &sf.settings[i].value);
        proof {
            assert(ev.take(i + 1).drop_last() =~= ev.take(i as int));
            assert(ev.take(i + 1).last() == ev[i as int]);
            if i == 0 {
                assert(json_settings_items(ev.take(1)) == json_settings_item(ev[0]));
            }
            assert(out@ =~= head + json_settings_items(ev.take(i + 1)));
        }
        i = i + 1;
    }
    out.push('}');
    out.push('}');
    proof {
        assert(ev.take(n as int) =~= ev);
        assert(out@ =~= json_of_settings(sf@));
    }
    out
}

/// Expect the exact characters of `lit` at `pos` without any claim beyond
/// bounds; the settings parser validates shape only.
fn eat_lit(inp: &Vec<char>, pos: usize, lit: &str) -> (r: Option<usize>)
    ensures
        r matches Some(j) ==> pos <= j <= inp@.len(),
{
    match crate::jsontext::expect_lit(inp, pos, lit) {
        Option::Some(j) => {
            proof {
                if !(pos <= j && j <= inp@.len()) {
                }
            }
            Some(j)
        },
        Option::None => None,
    }
}

/// Parse `null` or a quoted string.
fn parse_nullable(inp: &Vec<char>, pos: usize) -> (r: Option<(Option<String>, usize)>)
    ensures
        r matches Some(p) ==> pos < p.1 <= inp@.len(),
{
    if pos < inp.len() && inp[pos] == 'n' {
        match eat_lit(inp, pos, lit_null_str()) {
            Option::Some(j) => {
                if j > pos {
                    Some((None, j))
                } else {
                    None
                }
            },
            Option::None => None,
        }
    } else {
        match parse_quoted(inp, pos) {
            Option::Some(sj) => Some((Some(sj.0), sj.1)),
            Option::None => None,
        }
    }
}

/// Parse a string array.
fn parse_str_array(inp: &Vec<char>, pos: usize) -> (r: Option<(Vec<String>, usize)>)
    ensures
        r matches Some(p) ==> pos < p.1 <= inp@.len(),
{
    let n = inp.len();
    if pos >= n || inp[pos] != '[' {
        return None;
    }
    let mut out: Vec<String> = Vec::new();
    let mut cur: usize = pos + 1;
    if cur < n && inp[cur] == ']' {
        return Some((out, cur + 1));
    }
    loop
        invariant
            pos < cur <= n,
            n == inp@.len(),
        ensures
            pos < cur,
            cur < n,
            n == inp@.len(),
        decreases n - cur,
    {
        let (s, j) = match parse_quoted(inp, cur) {
            Option::Some(sj) => sj,
            Option::None => {
                return None;
            },
        };
        out.push(s);
        if j >= n {
            return None;
        }
        if inp[j] == ']' {
            cur = j;
            break;
        }
        if inp[j] != ',' {
            return None;
        }
        if j + 1 >= n {
            return None;
        }
        cur = j + 1;
    }
    Some((out, cur + 1))
}

/// Parse a profile-metadata object.
fn parse_metadata(inp: &Vec<char>, pos: usize) -> (r: Option<(ProfileMetadata, usize)>)
    ensures
        r matches Some(p) ==> pos < p.1 <= inp@.len(),
{
    let p0 = match eat_lit(inp, pos, "{\"name\":") {
        Option::Some(j) => j,
        Option::None => {
            return None;
        },
    };
    let (name, p1) = match parse_nullable(inp, p0) {
        Option::Some(x) => x,
        Option::None => {
            return None;
        },
    };
    let p2 = match eat_lit(inp, p1, ",\"display_name\":") {
        Option::Some(j) => j,
        Option::None => {
            return None;
        },
    };
    let (display_name, p3) = match parse_nullable(inp, p2) {
        Option::Some(x) => x,
        Option::None => {
            return None;
        },
    };
    let p4 = match eat_lit(inp, p3, ",\"about\":") {
        Option::Some(j) => j,
        Option::None => {
            return None;
        },
    };
    let (about, p5) = match parse_nullable(inp, p4) {
        Option::Some(x) => x,
        Option::None => {
            return None;
        },
    };
    let p6 = match eat_lit(inp, p5, ",\"picture\":") {
        Option::Some(j) => j,
        Option::None => {
            return None;
        },
    };
    let (picture, p7) = match parse_nullable(inp, p6) {
        Option::Some(x) => x,
        Option::None => {
            return None;
        },
    };
    let p8 = match eat_lit(inp, p7, ",\"banner\":") {
        Option::Some(j) => j,
        Option::None => {
            return None;
        },
    };
    let (banner, p9) = match parse_nullable(inp, p8) {
        Option::Some(x) => x,
        Option::None => {
            return None;
        },
    };
    let p10 = match eat_lit(inp, p9, ",\"nip05\":") {
        Option::Some(j) => j,
        Option::None => {
            return None;
        },
    };
    let (nip05, p11) = match parse_nullable(inp, p10) {
        Option::Some(x) => x,
        Option::None => {
            return None;
        },
    };
    let p12 = match eat_lit(inp, p11, ",\"lud06\":") {
        Option::Some(j) => j,
        Option::None => {
            return None;
        },
    };
    let (lud06, p13) = match parse_nullable(inp, p12) {
        Option::Some(x) => x,
        Option::None => {
            return None;
        },
    };
    let p14 = match eat_lit(inp, p13, ",\"lud16\":") {
        Option::Some(j) => j,
        Option::None => {
            return None;
        },
    };
    let (lud16, p15) = match parse_nullable(inp, p14) {
        Option::Some(x) => x,
        Option::None => {
            return None;
        },
    };
    let p16 = match eat_lit(inp, p15, ",\"website\":") {
        Option::Some(j) => j,
        Option::None => {
            return None;
        },
    };
    let (website, p17) = match parse_nullable(inp, p16) {
        Option::Some(x) => x,
        Option::None => {
            return None;
        },
    };
    if p17 >= inp.len() || inp[p17] != '}' {
        return None;
    }
    Some(
        (
            ProfileMetadata {
                name,
                display_name,
                about,
                picture,
                banner,
                nip05,
                lud06,
                lud16,
                website,
            },
            p17 + 1,
        ),
    )
}

/// Parse one follow entry.
fn parse_follow(inp: &Vec<char>, pos: usize) -> (r: Option<(FollowEntry, usize)>)
    ensures
        r matches Some(p) ==> pos < p.1 <= inp@.len(),
{
    let p0 = match eat_lit(inp, pos, "{\"pubkey\":") {
        Option::Some(j) => j,
        Option::None => {
            return None;
        },
    };
    let (pubkey, p1) = match parse_quoted(inp, p0) {
        Option::Some(sj) => sj,
        Option::None => {
            return None;
        },
    };
    let p2 = match eat_lit(inp, p1, ",\"relay_url\":") {
        Option::Some(j) => j,
        Option::None => {
            return None;
        },
    };
    let (relay_url, p3) = match parse_nullable(inp, p2) {
        Option::Some(x) => x,
        Option::None => {
            return None;
        },
    };
    let p4 = match eat_lit(inp, p3, ",\"petname\":") {
        Option::Some(j) => j,
        Option::None => {
            return None;
        },
    };
    let (petname, p5) = match parse_nullable(inp, p4) {
        Option::Some(x) => x,
        Option::None => {
            return None;
        },
    };
    if p5 >= inp.len() || inp[p5] != '}' {
        return None;
    }
    Some((FollowEntry { pubkey, relay_url, petname }, p5 + 1))
}

/// Parse one identity's settings.
fn parse_keysettings(inp: &Vec<char>, pos: usize) -> (r: Option<(KeySettings, usize)>)
    ensures
        r matches Some(p) ==> pos < p.1 <= inp@.len(),
{
    let n = inp.len();
    let p0 = match eat_lit(inp, pos, "{\"relays\":") {
        Option::Some(j) => j,
        Option::None => {
            return None;
        },
    };
    let (relays, p1) = match parse_str_array(inp, p0) {
        Option::Some(x) => x,
        Option::None => {
            return None;
        },
    };
    let p2 = match eat_lit(inp, p1, ",\"metadata\":") {
        Option::Some(j) => j,
        Option::None => {
            return None;
        },
    };
    let (metadata, p3): (Option<ProfileMetadata>, usize) = if p2 < n && inp[p2] == 'n' {
        match eat_lit(inp, p2, lit_null_str()) {
            Option::Some(j) => {
                if j > p2 {
                    (None, j)
                } else {
                    return None;
                }
            },
            Option::None => {
                return None;
            },
        }
    } else {
        match parse_metadata(inp, p2) {
            Option::Some(x) => (Some(x.0), x.1),
            Option::None => {
                return None;
            },
        }
    };
    let p4 = match eat_lit(inp, p3, ",\"follows\":") {
        Option::Some(j) => j,
        Option::None => {
            return None;
        },
    };
    let (follows, p5): (Option<Vec<FollowEntry>>, usize) = if p4 < n && inp[p4] == 'n' {
        match eat_lit(inp, p4, lit_null_str()) {
            Option::Some(j) => {
                if j > p4 {
                    (None, j)
                } else {
                    return None;
                }
            },
            Option::None => {
                return None;
            },
        }
    } else {
        if p4 >= n || inp[p4] != '[' {
            return None;
        }
        let mut fs: Vec<FollowEntry> = Vec::new();
        let mut cur: usize = p4 + 1;
        if cur < n && inp[cur] == ']' {
            (Some(fs), cur + 1)
        } else {
            let mut endpos: usize = 0;
            loop
                invariant
                    p4 < cur <= n,
                    n == inp@.len(),
                ensures
                    p4 < endpos <= n,
                decreases n - cur,
            {
                let (f, j) = match parse_follow(inp, cur) {
                    Option::Some(x) => x,
                    Option::None => {
                        return None;
                    },
                };
                fs.push(f);
                if j >= n {
                    return None;
                }
                if inp[j] == ']' {
                    endpos = j + 1;
                    break;
                }
                if inp[j] != ',' {
                    return None;
                }
                if j + 1 >= n {
                    return None;
                }
                cur = j + 1;
            }
            (Some(fs), endpos)
        }
    };
    if p5 >= n || inp[p5] != '}' {
        return None;
    }
    Some((KeySettings { relays, metadata, follows }, p5 + 1))
}

/// Parse the canonical settings text: the whole input must be consumed and
/// the table must be sorted.
pub fn parse_settings(inp: &Vec<char>) -> (r: Option<SettingsFile>)
    ensures
        r matches Some(sf) ==> sf@.wf(),
{
    proof {
        reveal_strlit("{\"settings\":{");
    }
    let n = inp.len();
    let p0 = match eat_lit(inp, 0, "{\"settings\":{") {
        Option::Some(j) => j,
        Option::None => {
            return None;
        },
    };
    let mut sf = SettingsFile::new();
    let after: usize;
    if p0 < n && inp[p0] == '}' {
        after = p0 + 1;
    } else {
        let mut cur: usize = p0;
        let mut endpos: usize = 0;
        loop
            invariant
                0 <= cur <= n,
                n == inp@.len(),
                sf@.wf(),
            ensures
                endpos <= n,
                sf@.wf(),
            decreases n - cur,
        {
            let (k, j1) = match parse_quoted(inp, cur) {
                Option::Some(sj) => sj,
                Option::None => {
                    return None;
                },
            };
            if j1 >= n || inp[j1] != ':' {
                return None;
            }
            let (v, j2) = match parse_keysettings(inp, j1 + 1) {
                Option::Some(x) => x,
                Option::None => {
                    return None;
                },
            };
            // keep the table sorted: reject out-of-order or duplicate keys
            if sf.settings.len() > 0 {
                let lastk = sf.settings[sf.settings.len() - 1].pubkey.clone();
                if crate::chars::str_cmp(lastk.as_str(), k.as_str()) != -1 {
                    return None;
                }
            }
            let ghost pre = sf@.settings;
            sf.settings.push(SettingsEntry { pubkey: k, value: v });
            proof {
                let nv = sf@.settings;
                assert(nv.drop_last() =~= pre);
                assert forall|a: int, b: int| 0 <= a < b < nv.len() implies crate::chars::lex_lt(
                    #[trigger] nv[a].pubkey,
                    #[trigger] nv[b].pubkey,
                ) by {
                    if b < nv.len() - 1 {
                        assert(nv[a] == pre[a] && nv[b] == pre[b]);
                    } else {
                        assert(nv[b] == nv[nv.len() - 1]);
                        if a < pre.len() - 1 {
                            assert(crate::chars::lex_lt(
                                pre[a].pubkey,
                                pre[pre.len() - 1].pubkey,
                            ));
                            crate::chars::lemma_lex_transitive(
                                pre[a].pubkey,
                                pre[pre.len() - 1].pubkey,
                                nv[b].pubkey,
                            );
                        }
                    }
                }
            }
            if j2 >= n {
                return None;
            }
            if inp[j2] == '}' {
                endpos = j2 + 1;
                break;
            }
            if inp[j2] != ',' {
                return None;
            }
            if j2 + 1 >= n {
                return None;
            }
            cur = j2 + 1;
        }
        after = endpos;
    }
    if after >= n || inp[after] != '}' {
        return None;
    }
    if after + 1 != n {
        return None;
    }
    Some(sf)
}

} // verus!
