//! The follow list: reading it out of a contact-list event's tags, turning
//! it back into tags for publishing, and the reconciliation rule between the
//! local cache and what the relays hold.
use vstd::prelude::*;

use crate::chars::str_eq;
use crate::settings::{FollowEntry, FollowEntryV};

verus! {

/// Arguments of the set-follows tool.
pub struct SetFollowsArgs {
    pub follows: Vec<FollowEntry>,
    pub publish: Option<bool>,
}

/// Arguments of the add-follow tool.
pub struct AddFollowArgs {
    pub pubkey: String,
    pub relay_url: Option<String>,
    pub petname: Option<String>,
    pub publish: Option<bool>,
}

/// Arguments of the remove-follow tool.
pub struct RemoveFollowArgs {
    pub pubkey: String,
    pub publish: Option<bool>,
}

/// A follow list with its size.
pub struct FollowsResult {
    pub follows: Vec<FollowEntry>,
    pub count: usize,
}

/// What publishing a follow list returned.
pub struct PublishFollowsResult {
    pub saved: bool,
    pub published: bool,
    pub event_id: Option<String>,
    pub pubkey: Option<String>,
    pub success_relays: Vec<String>,
    pub failed_relays: Vec<crate::relays::FailedRelay>,
}

/// The follow denoted by one tag, if it is a `p` tag: the key at position
/// one, then optionally a non-empty relay URL and a non-empty pet name.
pub open spec fn follow_of_tag(t: Seq<Seq<char>>) -> Option<FollowEntryV> {
    if t.len() >= 2 && t[0] == seq!['p'] {
        Some(
            FollowEntryV {
                pubkey: t[1],
                relay_url: if t.len() > 2 && t[2].len() > 0 {
                    Some(t[2])
                } else {
                    None
                },
                petname: if t.len() > 3 && t[3].len() > 0 {
                    Some(t[3])
                } else {
                    None
                },
            },
        )
    } else {
        None
    }
}

/// The follows of a tag list, in order, ignoring everything else.
pub open spec fn follows_of_tags(tags: Seq<Seq<Seq<char>>>) -> Seq<FollowEntryV>
    decreases tags.len(),
{
    if tags.len() == 0 {
        Seq::empty()
    } else {
        (match follow_of_tag(tags[0]) {
            Option::Some(f) => seq![f],
            Option::None => Seq::empty(),
        }) + follows_of_tags(tags.drop_first())
    }
}

proof fn lemma_follows_of_tags_push(tags: Seq<Seq<Seq<char>>>, t: Seq<Seq<char>>)
    ensures
        follows_of_tags(tags.push(t)) == follows_of_tags(tags) + (match follow_of_tag(t) {
            Option::Some(f) => seq![f],
            Option::None => Seq::empty(),
        }),
    decreases tags.len(),
{
    if tags.len() == 0 {
        assert(tags.push(t)[0] == t);
        assert(tags.push(t).drop_first() =~= Seq::<Seq<Seq<char>>>::empty());
        assert(follows_of_tags(Seq::<Seq<Seq<char>>>::empty()) =~= Seq::<FollowEntryV>::empty());
        assert(follows_of_tags(tags) =~= Seq::<FollowEntryV>::empty());
        assert(follows_of_tags(tags.push(t)) == (match follow_of_tag(tags.push(t)[0]) {
            Option::Some(f) => seq![f],
            Option::None => Seq::<FollowEntryV>::empty(),
        }) + follows_of_tags(tags.push(t).drop_first()));
        assert(follows_of_tags(tags.push(t)) =~= follows_of_tags(tags) + (match follow_of_tag(t) {
            Option::Some(f) => seq![f],
            Option::None => Seq::<FollowEntryV>::empty(),
        }));
    } else {
        assert(tags.push(t)[0] == tags[0]);
        assert(tags.push(t).drop_first() =~= tags.drop_first().push(t));
        lemma_follows_of_tags_push(tags.drop_first(), t);
        assert(follows_of_tags(tags.push(t)) =~= follows_of_tags(tags) + (match follow_of_tag(t) {
            Option::Some(f) => seq![f],
            Option::None => Seq::<FollowEntryV>::empty(),
        }));
    }
}

/// Read the follow list out of a contact-list event's tags.
pub fn follows_from_tags(tags: &Vec<Vec<String>>) -> (r: Vec<FollowEntry>)
    ensures
        r@.map_values(|f: FollowEntry| f@) == follows_of_tags(crate::relays::tags_view(tags@)),
{
    proof {
        reveal_strlit("p");
    }
    let p_lit = "p";
    assert(p_lit@ =~= seq!['p']);
    let ghost tv = crate::relays::tags_view(tags@);
    let mut out: Vec<FollowEntry> = Vec::new();
    let n = tags.len();
    let mut i: usize = 0;
    while i < n
        invariant
            0 <= i <= n,
            n == tv.len(),
            tv == crate::relays::tags_view(tags@),
            p_lit@ == seq!['p'],
            out@.map_values(|f: FollowEntry| f@) =~= follows_of_tags(tv.take(i as int)),
        decreases n - i,
    {
        let t = &tags[i];
        proof {
            assert(tv.take(i + 1) =~= tv.take(i as int).push(tv[i as int]));
            lemma_follows_of_tags_push(tv.take(i as int), tv[i as int]);
            assert(tv[i as int] == tags@[i as int]@.map_values(|s: String| s@));
        }
        if t.len() >= 2 && str_eq(t[0].as_str(), p_lit) {
            let relay_url: Option<String> = if t.len() > 2 && t[2].unicode_len() > 0 {
                Some(t[2].clone())
            } else {
                None
            };
            let petname: Option<String> = if t.len() > 3 && t[3].unicode_len() > 0 {
                Some(t[3].clone())
            } else {
                None
            };
            let f = FollowEntry { pubkey: t[1].clone(), relay_url, petname };
            proof {
                assert(follow_of_tag(tv[i as int]) == Some(f@));
            }
            out.push(f);
            proof {
                assert(out@.map_values(|f2: FollowEntry| f2@) =~= follows_of_tags(tv.take(i + 1)));
            }
        } else {
            proof {
                assert(follow_of_tag(tv[i as int]) is None) by {
                    if tv[i as int].len() >= 2 && tv[i as int][0] == seq!['p'] {
                        assert(tags@[i as int]@.len() >= 2);
                        assert(tags@[i as int]@[0]@ == seq!['p']);
                    }
                }
                assert(out@.map_values(|f2: FollowEntry| f2@) =~= follows_of_tags(tv.take(i + 1)));
            }
        }
        i = i + 1;
    }
    proof {
        assert(tv.take(n as int) =~= tv);
    }
    out
}

/// The tag denoting one follow: `p`, the key, the relay URL (or empty), and
/// the pet name when there is one.
pub open spec fn tag_of_follow(f: FollowEntryV) -> Seq<Seq<char>> {
    (seq![seq!['p'], f.pubkey, (match f.relay_url {
        Option::Some(u) => u,
        Option::None => Seq::empty(),
    })]) + (match f.petname {
        Option::Some(p) => seq![p],
        Option::None => Seq::empty(),
    })
}

/// Build the contact-list tags for a follow list.
pub fn follow_tags(follows: &Vec<FollowEntry>) -> (r: Vec<Vec<String>>)
    ensures
        crate::relays::tags_view(r@) == follows@.map_values(|f: FollowEntry| f@).map_values(
            |f: FollowEntryV| tag_of_follow(f),
        ),
{
    proof {
        reveal_strlit("p");
        reveal_strlit("");
    }
    let p_lit = "p";
    let empty_lit = "";
    assert(p_lit@ =~= seq!['p']);
    assert(empty_lit@ =~= Seq::<char>::empty());
    let ghost fv = follows@.map_values(|f: FollowEntry| f@);
    let mut out: Vec<Vec<String>> = Vec::new();
    let n = follows.len();
    let mut i: usize = 0;
    while i < n
        invariant
            0 <= i <= n,
            n == fv.len(),
            fv == follows@.map_values(|f: FollowEntry| f@),
            p_lit@ == seq!['p'],
            empty_lit@ == Seq::<char>::empty(),
            crate::relays::tags_view(out@) =~= fv.take(i as int).map_values(
                |f: FollowEntryV| tag_of_follow(f),
            ),
        decreases n - i,
    {
        let f = &follows[i];
        let mut t: Vec<String> = Vec::new();
        t.push(String::from_str(p_lit));
        t.push(f.pubkey.clone());
        match &f.relay_url {
            Option::Some(u) => {
                t.push(u.clone());
            },
            Option::None => {
                t.push(String::from_str(empty_lit));
            },
        }
        match &f.petname {
            Option::Some(p) => {
                t.push(p.clone());
            },
            Option::None => {},
        }
        proof {
            assert(t@.map_values(|s: String| s@) =~= tag_of_follow(fv[i as int]));
        }
        out.push(t);
        proof {
            assert(fv.take(i + 1) =~= fv.take(i as int).push(fv[i as int]));
            assert(fv.take(i + 1).map_values(|f2: FollowEntryV| tag_of_follow(f2)) =~= fv.take(
                i as int,
            ).map_values(|f2: FollowEntryV| tag_of_follow(f2)).push(tag_of_follow(fv[i as int])));
            assert(crate::relays::tags_view(out@) =~= fv.take(i + 1).map_values(
                |f2: FollowEntryV| tag_of_follow(f2),
            ));
        }
        i = i + 1;
    }
    proof {
        assert(fv.take(n as int) =~= fv);
    }
    out
}

/// Whether two follows have the same fields.
fn follow_eq(a: &FollowEntry, b: &FollowEntry) -> (r: bool)
    ensures
        r == (a@ == b@),
{
    let pk = str_eq(a.pubkey.as_str(), b.pubkey.as_str());
    let ru = match (&a.relay_url, &b.relay_url) {
        (Option::Some(x), Option::Some(y)) => str_eq(x.as_str(), y.as_str()),
        (Option::None, Option::None) => true,
        _ => false,
    };
    let pn = match (&a.petname, &b.petname) {
        (Option::Some(x), Option::Some(y)) => str_eq(x.as_str(), y.as_str()),
        (Option::None, Option::None) => true,
        _ => false,
    };
    pk && ru && pn
}

/// Whether two follow lists are elementwise equal.
fn follows_eq(a: &Vec<FollowEntry>, b: &Vec<FollowEntry>) -> (r: bool)
    ensures
        r == (a@.map_values(|f: FollowEntry| f@) =~= b@.map_values(|f: FollowEntry| f@)),
{
    let na = a.len();
    let nb = b.len();
    if na != nb {
        return false;
    }
    let mut i: usize = 0;
    while i < na
        invariant
            0 <= i <= na,
            na == a@.len(),
            na == nb,
            nb == b@.len(),
            forall|j: int| 0 <= j < i ==> (#[trigger] a@[j]@) == b@[j]@,
        decreases na - i,
    {
        if !follow_eq(&a[i], &b[i]) {
            assert(a@[i as int]@ != b@[i as int]@);
            assert(a@.map_values(|f: FollowEntry| f@)[i as int] == a@[i as int]@);
            assert(b@.map_values(|f: FollowEntry| f@)[i as int] == b@[i as int]@);
            return false;
        }
        i = i + 1;
    }
    proof {
        let av = a@.map_values(|f: FollowEntry| f@);
        let bv = b@.map_values(|f: FollowEntry| f@);
        assert forall|j: int| 0 <= j < na implies #[trigger] av[j] == bv[j] by {
            assert(av[j] == a@[j]@);
            assert(bv[j] == b@[j]@);
            assert(a@[j]@ == b@[j]@);
        }
        assert(av =~= bv);
    }
    true
}

fn dup_follows(v: &Vec<FollowEntry>) -> (r: Vec<FollowEntry>)
    ensures
        r@.map_values(|f: FollowEntry| f@) == v@.map_values(|f: FollowEntry| f@),
{
    let mut out: Vec<FollowEntry> = Vec::new();
    let n = v.len();
    let mut i: usize = 0;
    while i < n
        invariant
            0 <= i <= n,
            n == v@.len(),
            out@.map_values(|f: FollowEntry| f@) =~= v@.map_values(|f: FollowEntry| f@).take(
                i as int,
            ),
        decreases n - i,
    {
        out.push(v[i].duplicate());
        proof {
            assert(v@.map_values(|f: FollowEntry| f@).take(i + 1) =~= v@.map_values(
                |f: FollowEntry| f@,
            ).take(i as int).push(v@.map_values(|f: FollowEntry| f@)[i as int]));
            assert(out@.map_values(|f: FollowEntry| f@) =~= v@.map_values(
                |f: FollowEntry| f@,
            ).take(i + 1));
        }
        i = i + 1;
    }
    proof {
        assert(v@.map_values(|f: FollowEntry| f@).take(n as int) =~= v@.map_values(
            |f: FollowEntry| f@,
        ));
    }
    out
}

/// The reconciliation rule between the local follow list and the one the
/// relays hold: when they differ and the local list is non-empty, the local
/// list wins and is published; when the local list is empty, the remote one
/// is adopted without publishing; when they agree, nothing is published.
pub fn sync_follows_decision(local: &Vec<FollowEntry>, remote: &Vec<FollowEntry>) -> (r: (
    Vec<FollowEntry>,
    bool,
))
    ensures
        ({
            let lv = local@.map_values(|f: FollowEntry| f@);
            let rv = remote@.map_values(|f: FollowEntry| f@);
            let kept = r.0@.map_values(|f: FollowEntry| f@);
            if lv == rv {
                kept == lv && r.1 == false
            } else if lv.len() > 0 {
                kept == lv && r.1 == true
            } else {
                kept == rv && r.1 == false
            }
        }),
{
    if follows_eq(local, remote) {
        (dup_follows(local), false)
    } else if local.len() > 0 {
        (dup_follows(local), true)
    } else {
        (dup_follows(remote), false)
    }
}

} // verus!
