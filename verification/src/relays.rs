//! Relay tools and event posting: the argument shapes, the relay-mode rule,
//! the event-filter descriptions, and the reply and comment tag lists that
//! the signing library publishes.  The network client itself lives with the
//! caller; everything here is the decision and the exact bytes of the tags.
use vstd::prelude::*;

use crate::chars::{chars_to_string, lower_spec, str_eq, str_to_ascii_lower};
use crate::jsontext::{dec_nat, push_u64};

verus! {

/// Arguments of the relays-set tool.
pub struct RelaysSetArgs {
    pub urls: Vec<String>,
    pub read_write: Option<String>,
    pub autoconnect: Option<bool>,
}

/// Arguments of the relays-connect tool.
pub struct RelaysConnectArgs {
    pub urls: Option<Vec<String>>,
}

/// Arguments of the relays-disconnect tool.
pub struct RelaysDisconnectArgs {
    pub urls: Option<Vec<String>>,
    pub force_remove: Option<bool>,
}

/// One relay's status row.
pub struct RelayStatusRow {
    pub url: String,
    pub status: String,
    pub read: bool,
    pub write: bool,
    pub discovery: bool,
}

/// One relay that refused an event, with the reason.
pub struct FailedRelay {
    pub url: String,
    pub reason: String,
}

/// What publishing an event returned.
pub struct SendResult {
    pub id: String,
    pub success: Vec<String>,
    pub failed: Vec<FailedRelay>,
    pub pubkey: String,
}

/// Arguments of the post-text tool.
pub struct PostTextArgs {
    pub content: String,
    pub pow: Option<u8>,
    pub to_relays: Option<Vec<String>>,
}

/// Arguments of the post-reaction tool.
pub struct PostReactionArgs {
    pub event_id: String,
    pub event_pubkey: String,
    pub content: Option<String>,
    pub event_kind: Option<u16>,
    pub relay_hint: Option<String>,
    pub pow: Option<u8>,
    pub to_relays: Option<Vec<String>>,
}

/// Arguments of the post-comment tool.
pub struct PostCommentArgs {
    pub content: String,
    pub root_event_id: String,
    pub root_event_pubkey: String,
    pub root_event_kind: u16,
    pub parent_event_id: Option<String>,
    pub parent_event_pubkey: Option<String>,
    pub parent_event_kind: Option<u16>,
    pub relay_hint: Option<String>,
    pub pow: Option<u8>,
    pub to_relays: Option<Vec<String>>,
}

/// Arguments of the post-reply tool.
pub struct PostReplyArgs {
    pub content: String,
    pub reply_to_id: String,
    pub reply_to_pubkey: String,
    pub reply_to_kind: u16,
    pub root_event_id: Option<String>,
    pub root_event_pubkey: Option<String>,
    pub mentioned_pubkeys: Option<Vec<String>>,
    pub relay_hint: Option<String>,
    pub pow: Option<u8>,
    pub to_relays: Option<Vec<String>>,
}

/// Whether relays are added for reading, writing, or both.
#[derive(Debug, Clone, Copy, PartialEq, Eq, Structural)]
pub enum RelayMode {
    Read,
    Write,
    Both,
}

/// `read`
pub open spec fn lit_read() -> Seq<char> {
    seq!['r', 'e', 'a', 'd']
}

/// `write`
pub open spec fn lit_write() -> Seq<char> {
    seq!['w', 'r', 'i', 't', 'e']
}

/// `both`
pub open spec fn lit_both() -> Seq<char> {
    seq!['b', 'o', 't', 'h']
}

/// The relay mode denoted by the `read_write` argument: absent means both;
/// anything else (case-insensitively) but `read`, `write` and `both` is
/// rejected.
pub open spec fn relay_mode_spec(rw: Option<Seq<char>>) -> Option<RelayMode> {
    match rw {
        Option::None => Some(RelayMode::Both),
        Option::Some(s) => {
            let l = lower_spec(s);
            if l == lit_read() {
                Some(RelayMode::Read)
            } else if l == lit_write() {
                Some(RelayMode::Write)
            } else if l == lit_both() {
                Some(RelayMode::Both)
            } else {
                None
            }
        },
    }
}

/// Parse the `read_write` argument.
pub fn parse_relay_mode(rw: &Option<String>) -> (r: Option<RelayMode>)
    ensures
        r == relay_mode_spec(
            match rw {
                Option::Some(s) => Some(s@),
                Option::None => None,
            },
        ),
{
    match rw {
        Option::None => Some(RelayMode::Both),
        Option::Some(s) => {
            proof {
                reveal_strlit("read");
                reveal_strlit("write");
                reveal_strlit("both");
            }
            let lr = "read";
            let lw = "write";
            let lb = "both";
            assert(lr@ =~= lit_read());
            assert(lw@ =~= lit_write());
            assert(lb@ =~= lit_both());
            let l = str_to_ascii_lower(s.as_str());
            if str_eq(l.as_str(), lr) {
                Some(RelayMode::Read)
            } else if str_eq(l.as_str(), lw) {
                Some(RelayMode::Write)
            } else if str_eq(l.as_str(), lb) {
                Some(RelayMode::Both)
            } else {
                None
            }
        },
    }
}

/// An event filter, described by plain values; the caller turns it into the
/// signing library's filter.
pub struct FilterSpec {
    /// Author public key, hex.
    pub author_hex: Option<String>,
    /// Event kind.
    pub kind: Option<u16>,
    /// Full-text needle.
    pub search: Option<String>,
    /// Lower bound on creation time, Unix seconds.
    pub since: Option<u64>,
    /// Upper bound on creation time, Unix seconds.
    pub until: Option<u64>,
    /// Maximum number of events.
    pub limit: Option<u64>,
}

/// Seconds in seven days: the default look-back of the note presets.
pub open spec fn week_secs() -> int {
    604800
}

/// The default `since` of the note presets: seven days before `now`,
/// clamped at zero.
pub open spec fn default_since(now: int) -> int {
    if now >= week_secs() {
        now - week_secs()
    } else {
        0
    }
}

fn default_since_exec(now: u64) -> (r: u64)
    ensures
        r as int == default_since(now as int),
{
    if now >= 604800 {
        now - 604800
    } else {
        0
    }
}

/// The filter of the my-notes preset: the author's text notes since a week
/// ago (or the given bound).
pub fn filter_my_notes(pk_hex: &str, now: u64, since: Option<u64>, until: Option<u64>) -> (r:
    FilterSpec)
    ensures
        r.author_hex matches Some(a) && a@ == pk_hex@,
        r.kind == Some(1u16),
        r.search is None,
        r.since == Some(
            (match since {
                Option::Some(s) => s,
                Option::None => default_since(now as int) as u64,
            }),
        ),
        r.until == until,
        r.limit is None,
{
    FilterSpec {
        author_hex: Some(String::from_str(pk_hex)),
        kind: Some(1u16),
        search: None,
        since: Some(
            match since {
                Option::Some(s) => s,
                Option::None => default_since_exec(now),
            },
        ),
        until,
        limit: None,
    }
}

/// The filter of the mentions-me preset: text notes whose text mentions the
/// public key, since a week ago (or the given bound).
pub fn filter_mentions_me(pk_hex: &str, now: u64, since: Option<u64>, until: Option<u64>) -> (r:
    FilterSpec)
    ensures
        r.author_hex is None,
        r.kind == Some(1u16),
        r.search matches Some(s) && s@ == pk_hex@,
        r.since == Some(
            (match since {
                Option::Some(s) => s,
                Option::None => default_since(now as int) as u64,
            }),
        ),
        r.until == until,
        r.limit is None,
{
    FilterSpec {
        author_hex: None,
        kind: Some(1u16),
        search: Some(String::from_str(pk_hex)),
        since: Some(
            match since {
                Option::Some(s) => s,
                Option::None => default_since_exec(now),
            },
        ),
        until,
        limit: None,
    }
}

/// The filter of the my-metadata preset: the author's latest metadata event.
pub fn filter_my_metadata(pk_hex: &str) -> (r: FilterSpec)
    ensures
        r.author_hex matches Some(a) && a@ == pk_hex@,
        r.kind == Some(0u16),
        r.search is None,
        r.since is None,
        r.until is None,
        r.limit == Some(1u64),
{
    FilterSpec {
        author_hex: Some(String::from_str(pk_hex)),
        kind: Some(0u16),
        search: None,
        since: None,
        until: None,
        limit: Some(1u64),
    }
}

/// The filter of the by-author preset: events of the author from now on.
pub fn filter_by_author(pk_hex: &str, now: u64) -> (r: FilterSpec)
    ensures
        r.author_hex matches Some(a) && a@ == pk_hex@,
        r.kind is None,
        r.search is None,
        r.since == Some(now),
        r.until is None,
        r.limit is None,
{
    FilterSpec {
        author_hex: Some(String::from_str(pk_hex)),
        kind: None,
        search: None,
        since: Some(now),
        until: None,
        limit: None,
    }
}

/// The view of a tag list.
pub open spec fn tags_view(tags: Seq<Vec<String>>) -> Seq<Seq<Seq<char>>> {
    tags.map_values(|t: Vec<String>| t@.map_values(|s: String| s@))
}

/// An `e` tag marking the thread root, NIP-10 style: id, relay hint, the
/// marker `root`, and the root author.
pub open spec fn nip10_root_tag(root_id: Seq<char>, hint: Seq<char>, root_pk: Seq<char>) -> Seq<
    Seq<char>,
> {
    seq![seq!['e'], root_id, hint, seq!['r', 'o', 'o', 't'], root_pk]
}

/// An `e` tag marking the direct parent, NIP-10 style.
pub open spec fn nip10_reply_tag(reply_id: Seq<char>, hint: Seq<char>, reply_pk: Seq<char>) -> Seq<
    Seq<char>,
> {
    seq![seq!['e'], reply_id, hint, seq!['r', 'e', 'p', 'l', 'y'], reply_pk]
}

/// A `p` tag naming one public key.
pub open spec fn p_tag(pk: Seq<char>) -> Seq<Seq<char>> {
    seq![seq!['p'], pk]
}

/// The NIP-10 tag list of a threaded reply: the root `e` tag, the parent
/// `e` tag when the parent is not the root, the parent author's `p` tag,
/// and a `p` tag for each mentioned key.
pub open spec fn spec_nip10_tags(
    root_id: Seq<char>,
    root_pk: Seq<char>,
    reply_id: Seq<char>,
    reply_pk: Seq<char>,
    hint: Seq<char>,
    mentioned: Seq<Seq<char>>,
) -> Seq<Seq<Seq<char>>> {
    (if root_id == reply_id {
        seq![nip10_root_tag(root_id, hint, root_pk)]
    } else {
        seq![nip10_root_tag(root_id, hint, root_pk), nip10_reply_tag(reply_id, hint, reply_pk)]
    }) + seq![p_tag(reply_pk)] + mentioned.map_values(|pk: Seq<char>| p_tag(pk))
}

/// Build the NIP-10 reply tag list.  All keys and ids are already in their
/// normalized hex form.
pub fn nip10_reply_tags(
    root_id: &str,
    root_pk: &str,
    reply_id: &str,
    reply_pk: &str,
    relay_hint: Option<&str>,
    mentioned: &Vec<String>,
) -> (r: Vec<Vec<String>>)
    ensures
        tags_view(r@) == spec_nip10_tags(
            root_id@,
            root_pk@,
            reply_id@,
            reply_pk@,
            (match relay_hint {
                Option::Some(h) => h@,
                Option::None => Seq::empty(),
            }),
            mentioned@.map_values(|s: String| s@),
        ),
{
    proof {
        reveal_strlit("e");
        reveal_strlit("p");
        reveal_strlit("root");
        reveal_strlit("reply");
        reveal_strlit("");
    }
    let e_lit = "e";
    let p_lit = "p";
    let root_lit = "root";
    let reply_lit = "reply";
    assert(e_lit@ =~= seq!['e']);
    assert(p_lit@ =~= seq!['p']);
    assert(root_lit@ =~= seq!['r', 'o', 'o', 't']);
    assert(reply_lit@ =~= seq!['r', 'e', 'p', 'l', 'y']);
    let hint: String = match relay_hint {
        Option::Some(h) => String::from_str(h),
        Option::None => {
            let empty = "";
            assert(empty@ =~= Seq::<char>::empty());
            String::from_str(empty)
        },
    };
    let mut tags: Vec<Vec<String>> = Vec::new();
    let same = str_eq(root_id, reply_id);
    let mut t1: Vec<String> = Vec::new();
    t1.push(String::from_str(e_lit));
    t1.push(String::from_str(root_id));
    t1.push(hint.clone());
    t1.push(String::from_str(root_lit));
    t1.push(String::from_str(root_pk));
    proof {
        assert(t1@.map_values(|s: String| s@) =~= nip10_root_tag(root_id@, hint@, root_pk@));
    }
    tags.push(t1);
    if !same {
        let mut t2: Vec<String> = Vec::new();
        t2.push(String::from_str(e_lit));
        t2.push(String::from_str(reply_id));
        t2.push(hint.clone());
        t2.push(String::from_str(reply_lit));
        t2.push(String::from_str(reply_pk));
        proof {
            assert(t2@.map_values(|s: String| s@) =~= nip10_reply_tag(
                reply_id@,
                hint@,
                reply_pk@,
            ));
        }
        tags.push(t2);
    }
    let mut tp: Vec<String> = Vec::new();
    tp.push(String::from_str(p_lit));
    tp.push(String::from_str(reply_pk));
    proof {
        assert(tp@.map_values(|s: String| s@) =~= p_tag(reply_pk@));
    }
    tags.push(tp);
    let ghost base = tags@;
    let n = mentioned.len();
    let mut i: usize = 0;
    while i < n
        invariant
            0 <= i <= n,
            n == mentioned@.len(),
            p_lit@ == seq!['p'],
            tags@.len() == base.len() + i,
            tags@.take(base.len() as int) == base,
            forall|k: int|
                0 <= k < i ==> (#[trigger] tags@[base.len() + k])@.map_values(|s: String| s@)
                    == p_tag(mentioned@.map_values(|s: String| s@)[k]),
        decreases n - i,
    {
        let mut tm: Vec<String> = Vec::new();
        tm.push(String::from_str(p_lit));
        tm.push(mentioned[i].clone());
        proof {
            assert(mentioned@.map_values(|s: String| s@)[i as int] == mentioned@[i as int]@);
            assert(tm@.map_values(|s: String| s@) =~= p_tag(
                mentioned@.map_values(|s: String| s@)[i as int],
            ));
        }
        let ghost pre = tags@;
        tags.push(tm);
        proof {
            assert(tags@.take(base.len() as int) =~= pre.take(base.len() as int));
        }
        i = i + 1;
    }
    proof {
        let hintv = (match relay_hint {
            Option::Some(h) => h@,
            Option::None => Seq::<char>::empty(),
        });
        let mv = mentioned@.map_values(|s: String| s@);
        assert(hint@ == hintv);
        let tv = tags_view(tags@);
        let sp2 = spec_nip10_tags(root_id@, root_pk@, reply_id@, reply_pk@, hintv, mv);
        let bl = base.len() as int;
        assert(tv.len() == sp2.len());
        assert forall|k: int| 0 <= k < tv.len() implies tv[k] == sp2[k] by {
            assert(tv[k] == tags@[k]@.map_values(|s: String| s@));
            if k < bl {
                assert(tags@[k] == tags@.take(bl)[k]);
                assert(tags@[k] == base[k]);
            } else {
                let k2 = k - bl;
                assert(tags@[base.len() + k2]@.map_values(|s: String| s@) == p_tag(
                    mentioned@.map_values(|s: String| s@)[k2],
                ));
                assert(tags@[k]@.map_values(|s: String| s@) == p_tag(mv[k2]));
                assert(sp2[k] == mv.map_values(|pk: Seq<char>| p_tag(pk))[k2]);
            }
        }
        assert(tv =~= sp2);
    }
    tags
}

/// The NIP-22 tag list of a comment: uppercase `E`/`K`/`P` tags naming the
/// root, lowercase `e`/`k`/`p` tags naming the parent; the relay hint rides
/// in the `e` tags and, when present, in the `p` tags.
pub open spec fn spec_nip22_tags(
    root_id: Seq<char>,
    root_pk: Seq<char>,
    root_kind: int,
    parent_id: Seq<char>,
    parent_pk: Seq<char>,
    parent_kind: int,
    hint: Option<Seq<char>>,
) -> Seq<Seq<Seq<char>>> {
    seq![
        (match hint {
            Option::Some(h) => seq![seq!['E'], root_id, h, root_pk],
            Option::None => seq![seq!['E'], root_id, Seq::empty(), root_pk],
        }),
        seq![seq!['K'], dec_nat(root_kind as nat)],
        (match hint {
            Option::Some(h) => seq![seq!['P'], root_pk, h],
            Option::None => seq![seq!['P'], root_pk],
        }),
        (match hint {
            Option::Some(h) => seq![seq!['e'], parent_id, h],
            Option::None => seq![seq!['e'], parent_id],
        }),
        seq![seq!['k'], dec_nat(parent_kind as nat)],
        (match hint {
            Option::Some(h) => seq![seq!['p'], parent_pk, h],
            Option::None => seq![seq!['p'], parent_pk],
        }),
    ]
}

fn kind_string(k: u16) -> (r: String)
    ensures
        r@ == dec_nat(k as nat),
{
    let mut out: Vec<char> = Vec::new();
    push_u64(&mut out, k as u64);
    chars_to_string(&out)
}

/// Build the NIP-22 comment tag list.  All keys and ids are already in
/// their normalized hex form.
pub fn nip22_comment_tags(
    root_id: &str,
    root_pk: &str,
    root_kind: u16,
    parent_id: &str,
    parent_pk: &str,
    parent_kind: u16,
    relay_hint: Option<&str>,
) -> (r: Vec<Vec<String>>)
    ensures
        tags_view(r@) == spec_nip22_tags(
            root_id@,
            root_pk@,
            root_kind as int,
            parent_id@,
            parent_pk@,
            parent_kind as int,
            (match relay_hint {
                Option::Some(h) => Some(h@),
                Option::None => None,
            }),
        ),
{
    proof {
        reveal_strlit("E");
        reveal_strlit("K");
        reveal_strlit("P");
        reveal_strlit("e");
        reveal_strlit("k");
        reveal_strlit("p");
        reveal_strlit("");
    }
    let be = "E";
    let bk = "K";
    let bp = "P";
    let se = "e";
    let sk = "k";
    let sp = "p";
    assert(be@ =~= seq!['E']);
    assert(bk@ =~= seq!['K']);
    assert(bp@ =~= seq!['P']);
    assert(se@ =~= seq!['e']);
    assert(sk@ =~= seq!['k']);
    assert(sp@ =~= seq!['p']);
    let mut tags: Vec<Vec<String>> = Vec::new();
    let mut t1: Vec<String> = Vec::new();
    t1.push(String::from_str(be));
    t1.push(String::from_str(root_id));
    match relay_hint {
        Option::Some(h) => {
            t1.push(String::from_str(h));
        },
        Option::None => {
            let empty = "";
            assert(empty@ =~= Seq::<char>::empty());
            t1.push(String::from_str(empty));
        },
    }
    t1.push(String::from_str(root_pk));
    proof {
        assert(t1@.map_values(|s: String| s@) =~= (match relay_hint {
            Option::Some(h) => seq![seq!['E'], root_id@, h@, root_pk@],
            Option::None => seq![seq!['E'], root_id@, Seq::<char>::empty(), root_pk@],
        }));
    }
    tags.push(t1);
    let mut t2: Vec<String> = Vec::new();
    t2.push(String::from_str(bk));
    t2.push(kind_string(root_kind));
    proof {
        assert(t2@.map_values(|s: String| s@) =~= seq![seq!['K'], dec_nat(root_kind as nat)]);
    }
    tags.push(t2);
    let mut t3: Vec<String> = Vec::new();
    t3.push(String::from_str(bp));
    t3.push(String::from_str(root_pk));
    match relay_hint {
        Option::Some(h) => {
            t3.push(String::from_str(h));
        },
        Option::None => {},
    }
    proof {
        assert(t3@.map_values(|s: String| s@) =~= (match relay_hint {
            Option::Some(h) => seq![seq!['P'], root_pk@, h@],
            Option::None => seq![seq!['P'], root_pk@],
        }));
    }
    tags.push(t3);
    let mut t4: Vec<String> = Vec::new();
    t4.push(String::from_str(se));
    t4.push(String::from_str(parent_id));
    match relay_hint {
        Option::Some(h) => {
            t4.push(String::from_str(h));
        },
        Option::None => {},
    }
    proof {
        assert(t4@.map_values(|s: String| s@) =~= (match relay_hint {
            Option::Some(h) => seq![seq!['e'], parent_id@, h@],
            Option::None => seq![seq!['e'], parent_id@],
        }));
    }
    tags.push(t4);
    let mut t5: Vec<String> = Vec::new();
    t5.push(String::from_str(sk));
    t5.push(kind_string(parent_kind));
    proof {
        assert(t5@.map_values(|s: String| s@) =~= seq![seq!['k'], dec_nat(parent_kind as nat)]);
    }
    tags.push(t5);
    let mut t6: Vec<String> = Vec::new();
    t6.push(String::from_str(sp));
    t6.push(String::from_str(parent_pk));
    match relay_hint {
        Option::Some(h) => {
            t6.push(String::from_str(h));
        },
        Option::None => {},
    }
    proof {
        assert(t6@.map_values(|s: String| s@) =~= (match relay_hint {
            Option::Some(h) => seq![seq!['p'], parent_pk@, h@],
            Option::None => seq![seq!['p'], parent_pk@],
        }));
    }
    tags.push(t6);
    proof {
        let hv = (match relay_hint {
            Option::Some(h) => Some(h@),
            Option::None => None::<Seq<char>>,
        });
        assert(tags_view(tags@) =~= spec_nip22_tags(
            root_id@,
            root_pk@,
            root_kind as int,
            parent_id@,
            parent_pk@,
            parent_kind as int,
            hv,
        ));
    }
    tags
}

} // verus!
