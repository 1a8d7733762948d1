//! The canonical text of the key index: `{"active":…,"keys":{…}}` with the
//! entries keyed and sorted by label, exactly as the index files have always
//! been written.  Printing and parsing invert each other, which is what makes
//! the encrypted index round-trip.
use vstd::prelude::*;

use crate::jsontext::{dec_int, expect_lit, is_digit, json_quoted, lemma_quoted_round_trip,
    lemma_sp_int_round_trip, parse_i64, parse_quoted, push_i64, push_quoted, push_str_chars,
    sp_int, sp_lit, sp_quoted};
use crate::keys::{KeyEntry, KeyEntryV, KeyFile, KeyFileV};

verus! {

/// `{"active":`
pub open spec fn lit_active() -> Seq<char> {
    seq!['{', '"', 'a', 'c', 't', 'i', 'v', 'e', '"', ':']
}

/// `null`
pub open spec fn lit_null() -> Seq<char> {
    seq!['n', 'u', 'l', 'l']
}

/// `,"keys":{`
pub open spec fn lit_keys() -> Seq<char> {
    seq![',', '"', 'k', 'e', 'y', 's', '"', ':', '{']
}

/// `{"label":`
pub open spec fn lit_label() -> Seq<char> {
    seq!['{', '"', 'l', 'a', 'b', 'e', 'l', '"', ':']
}

/// `,"public_key":`
pub open spec fn lit_public_key() -> Seq<char> {
    seq![',', '"', 'p', 'u', 'b', 'l', 'i', 'c', '_', 'k', 'e', 'y', '"', ':']
}

/// `,"created_at":`
pub open spec fn lit_created_at() -> Seq<char> {
    seq![',', '"', 'c', 'r', 'e', 'a', 't', 'e', 'd', '_', 'a', 't', '"', ':']
}

pub fn lit_active_str() -> (r: &'static str)
    ensures
        r@ == lit_active(),
{
    proof {
        reveal_strlit("{\"active\":");
    }
    let r = "{\"active\":";
    assert(r@ =~= lit_active());
    r
}

pub fn lit_null_str() -> (r: &'static str)
    ensures
        r@ == lit_null(),
{
    proof {
        reveal_strlit("null");
    }
    let r = "null";
    assert(r@ =~= lit_null());
    r
}

pub fn lit_keys_str() -> (r: &'static str)
    ensures
        r@ == lit_keys(),
{
    proof {
        reveal_strlit(",\"keys\":{");
    }
    let r = ",\"keys\":{";
    assert(r@ =~= lit_keys());
    r
}

pub fn lit_label_str() -> (r: &'static str)
    ensures
        r@ == lit_label(),
{
    proof {
        reveal_strlit("{\"label\":");
    }
    let r = "{\"label\":";
    assert(r@ =~= lit_label());
    r
}

pub fn lit_public_key_str() -> (r: &'static str)
    ensures
        r@ == lit_public_key(),
{
    proof {
        reveal_strlit(",\"public_key\":");
    }
    let r = ",\"public_key\":";
    assert(r@ =~= lit_public_key());
    r
}

pub fn lit_created_at_str() -> (r: &'static str)
    ensures
        r@ == lit_created_at(),
{
    proof {
        reveal_strlit(",\"created_at\":");
    }
    let r = ",\"created_at\":";
    assert(r@ =~= lit_created_at());
    r
}

/// The text of one entry object.
pub open spec fn json_of_entry(e: KeyEntryV) -> Seq<char> {
    lit_label() + json_quoted(e.label) + lit_public_key() + json_quoted(e.public_key)
        + lit_created_at() + dec_int(e.created_at) + seq!['}']
}

/// The text of one keyed item: the label as the map key, then the entry.
pub open spec fn json_item(e: KeyEntryV) -> Seq<char> {
    json_quoted(e.label) + seq![':'] + json_of_entry(e)
}

/// The items after the first, each preceded by a comma.
pub open spec fn json_of_rest(keys: Seq<KeyEntryV>) -> Seq<char>
    decreases keys.len(),
{
    if keys.len() == 0 {
        Seq::empty()
    } else {
        seq![','] + json_item(keys[0]) + json_of_rest(keys.drop_first())
    }
}

/// The comma-separated items.
pub open spec fn json_of_items(keys: Seq<KeyEntryV>) -> Seq<char> {
    if keys.len() == 0 {
        Seq::empty()
    } else {
        json_item(keys[0]) + json_of_rest(keys.drop_first())
    }
}

/// The text of a whole key index.
pub open spec fn json_of_keyfile(kf: KeyFileV) -> Seq<char> {
    lit_active() + (match kf.active {
        Option::Some(l) => json_quoted(l),
        Option::None => lit_null(),
    }) + lit_keys() + json_of_items(kf.keys) + seq!['}', '}']
}

proof fn lemma_rest_push(keys: Seq<KeyEntryV>, e: KeyEntryV)
    ensures
        json_of_rest(keys.push(e)) == json_of_rest(keys) + seq![','] + json_item(e),
    decreases keys.len(),
{
    if keys.len() == 0 {
        assert(keys.push(e)[0] == e);
        assert(keys.push(e).drop_first() =~= Seq::<KeyEntryV>::empty());
        assert(json_of_rest(keys.push(e).drop_first()) =~= Seq::<char>::empty());
        assert(json_of_rest(keys.push(e)) == seq![','] + json_item(e) + json_of_rest(
            keys.push(e).drop_first(),
        ));
        assert(json_of_rest(keys) =~= Seq::<char>::empty());
        assert(json_of_rest(keys.push(e)) =~= json_of_rest(keys) + seq![','] + json_item(e));
    } else {
        assert(keys.push(e).drop_first() =~= keys.drop_first().push(e));
        assert(keys.push(e)[0] == keys[0]);
        lemma_rest_push(keys.drop_first(), e);
        assert(json_of_rest(keys.push(e)) =~= json_of_rest(keys) + seq![','] + json_item(e));
    }
}

/// Append one entry object.
fn push_entry(out: &mut Vec<char>, e: &KeyEntry)
    ensures
        final(out)@ == old(out)@ + json_of_entry(e@),
{
    push_str_chars(out, lit_label_str());
    push_quoted(out, e.label.as_str());
    push_str_chars(out, lit_public_key_str());
    push_quoted(out, e.public_key.as_str());
    push_str_chars(out, lit_created_at_str());
    push_i64(out, e.created_at);
    out.push('}');
    assert(out@ =~= old(out)@ + json_of_entry(e@));
}

/// Append one keyed item.
fn push_item(out: &mut Vec<char>, e: &KeyEntry)
    ensures
        final(out)@ == old(out)@ + json_item(e@),
{
    push_quoted(out, e.label.as_str());
    out.push(':');
    push_entry(out, e);
    assert(out@ =~= old(out)@ + json_item(e@));
}

/// The canonical text of the key index.
pub fn print_keyfile(kf: &KeyFile) -> (r: Vec<char>)
    ensures
        r@ == json_of_keyfile(kf@),
{
    let mut out: Vec<char> = Vec::new();
    push_str_chars(&mut out, lit_active_str());
    match &kf.active {
        Option::Some(l) => {
            push_quoted(&mut out, l.as_str());
        },
        Option::None => {
            push_str_chars(&mut out, lit_null_str());
        },
    }
    push_str_chars(&mut out, lit_keys_str());
    let ghost head = out@;
    let n = kf.keys.len();
    let mut i: usize = 0;
    while i < n
        invariant
            0 <= i <= n,
            n == kf@.keys.len(),
            out@ == head + json_of_items(kf@.keys.take(i as int)),
        decreases n - i,
    {
        if i > 0 {
            out.push(',');
        }
        push_item(&mut out, &kf.keys[i]);
        proof {
            let taken = kf@.keys.take(i as int);
            let e = kf@.keys[i as int];
            assert(kf@.keys.take(i + 1) =~= taken.push(e));
            assert(kf@.keys[i as int] == kf.keys@.map_values(|x: KeyEntry| x@)[i as int]);
            if i == 0 {
                assert(taken.push(e)[0] == e);
                assert(taken.push(e).drop_first() =~= Seq::<KeyEntryV>::empty());
                assert(json_of_items(taken.push(e)) =~= json_item(e));
                assert(out@ =~= head + json_of_items(kf@.keys.take(i + 1)));
            } else {
                lemma_rest_push(taken.drop_first(), e);
                assert(taken.push(e)[0] == taken[0]);
                assert(taken.push(e).drop_first() =~= taken.drop_first().push(e));
                assert(json_of_items(taken.push(e)) =~= json_of_items(taken) + seq![',']
                    + json_item(e));
                assert(out@ =~= head + json_of_items(kf@.keys.take(i + 1)));
            }
        }
        i = i + 1;
    }
    out.push('}');
    out.push('}');
    assert(kf@.keys.take(n as int) =~= kf@.keys);
    assert(out@ =~= json_of_keyfile(kf@));
    out
}

/// Parse one entry object.  A creation time outside the `i64` range is
/// rejected, as it could not have been written by this system.
pub open spec fn sp_entry(inp: Seq<char>, i: int) -> Option<(KeyEntryV, int)> {
    match sp_lit(inp, i, lit_label()) {
        Option::None => None,
        Option::Some(i1) => match sp_quoted(inp, i1) {
            Option::None => None,
            Option::Some(lab) => match sp_lit(inp, lab.1, lit_public_key()) {
                Option::None => None,
                Option::Some(i3) => match sp_quoted(inp, i3) {
                    Option::None => None,
                    Option::Some(pk) => match sp_lit(inp, pk.1, lit_created_at()) {
                        Option::None => None,
                        Option::Some(i5) => match sp_int(inp, i5) {
                            Option::None => None,
                            Option::Some(ca) => match sp_lit(inp, ca.1, seq!['}']) {
                                Option::None => None,
                                Option::Some(i7) => {
                                    if -0x8000000000000000 <= ca.0 <= 0x7fffffffffffffff {
                                        Some(
                                            (
                                                KeyEntryV {
                                                    label: lab.0,
                                                    public_key: pk.0,
                                                    created_at: ca.0,
                                                },
                                                i7,
                                            ),
                                        )
                                    } else {
                                        None
                                    }
                                },
                            },
                        },
                    },
                },
            },
        },
    }
}

/// Parse one keyed item: the map key must equal the entry's own label.
pub open spec fn sp_item(inp: Seq<char>, i: int) -> Option<(KeyEntryV, int)> {
    match sp_quoted(inp, i) {
        Option::None => None,
        Option::Some(k) => match sp_lit(inp, k.1, seq![':']) {
            Option::None => None,
            Option::Some(i2) => match sp_entry(inp, i2) {
                Option::None => None,
                Option::Some(e) => {
                    if e.0.label == k.0 {
                        Some(e)
                    } else {
                        None
                    }
                },
            },
        },
    }
}

/// Parse the items after the first: a closing brace, or a comma and another
/// item.  `fuel` bounds the recursion; one unit is spent per item.
pub open spec fn sp_items_rest(inp: Seq<char>, i: int, fuel: nat) -> Option<
    (Seq<KeyEntryV>, int),
>
    decreases fuel,
{
    if i < 0 || i >= inp.len() {
        None
    } else if inp[i] == '}' {
        Some((Seq::empty(), i + 1))
    } else if inp[i] == ',' {
        if fuel == 0 {
            None
        } else {
            match sp_item(inp, i + 1) {
                Option::None => None,
                Option::Some(e) => match sp_items_rest(inp, e.1, (fuel - 1) as nat) {
                    Option::None => None,
                    Option::Some(rest) => Some((seq![e.0] + rest.0, rest.1)),
                },
            }
        }
    } else {
        None
    }
}

/// Parse the body of the keys map, starting just after its opening brace and
/// consuming its closing brace.
pub open spec fn sp_items(inp: Seq<char>, i: int, fuel: nat) -> Option<(Seq<KeyEntryV>, int)> {
    if i < 0 || i >= inp.len() {
        None
    } else if inp[i] == '}' {
        Some((Seq::empty(), i + 1))
    } else {
        match sp_item(inp, i) {
            Option::None => None,
            Option::Some(e) => match sp_items_rest(inp, e.1, fuel) {
                Option::None => None,
                Option::Some(rest) => Some((seq![e.0] + rest.0, rest.1)),
            },
        }
    }
}

/// Parse the active field's value: `null` or a quoted label.
pub open spec fn sp_active_val(inp: Seq<char>, i: int) -> Option<(Option<Seq<char>>, int)> {
    match sp_lit(inp, i, lit_null()) {
        Option::Some(j) => Some((None, j)),
        Option::None => match sp_quoted(inp, i) {
            Option::None => None,
            Option::Some(l) => Some((Some(l.0), l.1)),
        },
    }
}

/// Parse a whole key index: the text must be consumed exactly.
pub open spec fn sp_keyfile(inp: Seq<char>) -> Option<KeyFileV> {
    match sp_lit(inp, 0, lit_active()) {
        Option::None => None,
        Option::Some(i1) => match sp_active_val(inp, i1) {
            Option::None => None,
            Option::Some(av) => match sp_lit(inp, av.1, lit_keys()) {
                Option::None => None,
                Option::Some(i3) => match sp_items(inp, i3, inp.len() as nat) {
                    Option::None => None,
                    Option::Some(ks) => match sp_lit(inp, ks.1, seq!['}']) {
                        Option::None => None,
                        Option::Some(i5) => {
                            if i5 == inp.len() {
                                Some(KeyFileV { active: av.0, keys: ks.0 })
                            } else {
                                None
                            }
                        },
                    },
                },
            },
        },
    }
}

/// Every creation time fits in an `i64`; true of any index this system built.
pub open spec fn entries_in_range(keys: Seq<KeyEntryV>) -> bool {
    forall|k: int|
        0 <= k < keys.len() ==> -0x8000000000000000 <= (#[trigger] keys[k].created_at)
            <= 0x7fffffffffffffff
}

/// A window of the input that equals `pre + piece + post` holds `piece` right
/// after `pre`.
proof fn lemma_window_piece(
    inp: Seq<char>,
    i: int,
    full: Seq<char>,
    pre: Seq<char>,
    piece: Seq<char>,
    post: Seq<char>,
)
    requires
        full == pre + piece + post,
        0 <= i,
        i + full.len() <= inp.len(),
        inp.subrange(i, i + full.len()) == full,
    ensures
        inp.subrange(i + pre.len(), i + pre.len() + piece.len()) == piece,
{
    crate::jsontext::lemma_subrange_shift(
        inp,
        i,
        pre.len() as int,
        pre.len() as int + piece.len() as int,
        full,
    );
    assert(full.subrange(pre.len() as int, pre.len() as int + piece.len() as int) =~= piece);
}

/// Parsing the printed form of one entry yields the entry.
proof fn lemma_entry_round_trip(e: KeyEntryV, inp: Seq<char>, i: int)
    requires
        0 <= i,
        i + json_of_entry(e).len() <= inp.len(),
        inp.subrange(i, i + json_of_entry(e).len()) == json_of_entry(e),
        -0x8000000000000000 <= e.created_at <= 0x7fffffffffffffff,
    ensures
        sp_entry(inp, i) == Some((e, i + json_of_entry(e).len())),
{
    let t = json_of_entry(e);
    let l1 = lit_label();
    let q1 = json_quoted(e.label);
    let l2 = lit_public_key();
    let q2 = json_quoted(e.public_key);
    let l3 = lit_created_at();
    let d = dec_int(e.created_at);
    let cb = seq!['}'];
    assert(t =~= Seq::empty() + l1 + (q1 + l2 + q2 + l3 + d + cb));
    lemma_window_piece(inp, i, t, Seq::empty(), l1, q1 + l2 + q2 + l3 + d + cb);
    let o1 = i + l1.len();
    assert(sp_lit(inp, i, l1) == Some(o1)) by {
        assert(inp.subrange(i + 0, i + l1.len()) == l1);
    }
    assert(t =~= l1 + q1 + (l2 + q2 + l3 + d + cb));
    lemma_window_piece(inp, i, t, l1, q1, l2 + q2 + l3 + d + cb);
    let o2 = o1 + q1.len();
    lemma_quoted_round_trip(e.label, inp, o1);
    assert(t =~= (l1 + q1) + l2 + (q2 + l3 + d + cb));
    lemma_window_piece(inp, i, t, l1 + q1, l2, q2 + l3 + d + cb);
    let o3 = o2 + l2.len();
    assert(sp_lit(inp, o2, l2) == Some(o3));
    assert(t =~= (l1 + q1 + l2) + q2 + (l3 + d + cb));
    lemma_window_piece(inp, i, t, l1 + q1 + l2, q2, l3 + d + cb);
    let o4 = o3 + q2.len();
    lemma_quoted_round_trip(e.public_key, inp, o3);
    assert(t =~= (l1 + q1 + l2 + q2) + l3 + (d + cb));
    lemma_window_piece(inp, i, t, l1 + q1 + l2 + q2, l3, d + cb);
    let o5 = o4 + l3.len();
    assert(sp_lit(inp, o4, l3) == Some(o5));
    assert(t =~= (l1 + q1 + l2 + q2 + l3) + d + cb);
    lemma_window_piece(inp, i, t, l1 + q1 + l2 + q2 + l3, d, cb);
    let o6 = o5 + d.len();
    assert(t =~= (l1 + q1 + l2 + q2 + l3 + d) + cb + Seq::empty());
    lemma_window_piece(inp, i, t, l1 + q1 + l2 + q2 + l3 + d, cb, Seq::empty());
    assert(inp[o6] == '}') by {
        assert(inp.subrange(o6, o6 + 1)[0] == inp[o6]);
    }
    assert(!is_digit(inp[o6])) by {
        assert(('}' as u32) == 125);
    }
    lemma_sp_int_round_trip(e.created_at, inp, o5);
    assert(sp_lit(inp, o6, cb) == Some(o6 + 1)) by {
        assert(inp.subrange(o6, o6 + 1) == cb);
    }
    assert(sp_entry(inp, i) == Some(
        (KeyEntryV { label: e.label, public_key: e.public_key, created_at: e.created_at }, o6 + 1),
    ));
    assert(KeyEntryV { label: e.label, public_key: e.public_key, created_at: e.created_at } == e);
}

/// Parsing the printed form of one keyed item yields the entry.
proof fn lemma_item_round_trip(e: KeyEntryV, inp: Seq<char>, i: int)
    requires
        0 <= i,
        i + json_item(e).len() <= inp.len(),
        inp.subrange(i, i + json_item(e).len()) == json_item(e),
        -0x8000000000000000 <= e.created_at <= 0x7fffffffffffffff,
    ensures
        sp_item(inp, i) == Some((e, i + json_item(e).len())),
{
    let t = json_item(e);
    let q = json_quoted(e.label);
    let co = seq![':'];
    let et = json_of_entry(e);
    assert(t =~= Seq::empty() + q + (co + et));
    lemma_window_piece(inp, i, t, Seq::empty(), q, co + et);
    let o1 = i + q.len();
    assert(inp.subrange(i + 0, i + q.len()) == q);
    assert(inp.subrange(i, i + q.len()) == q) by {
        assert(i + 0 == i);
    }
    lemma_quoted_round_trip(e.label, inp, i);
    assert(t =~= q + co + et);
    lemma_window_piece(inp, i, t, q, co, et);
    let o2 = o1 + 1;
    assert(sp_lit(inp, o1, co) == Some(o2));
    assert(t =~= (q + co) + et + Seq::empty());
    lemma_window_piece(inp, i, t, q + co, et, Seq::empty());
    lemma_entry_round_trip(e, inp, o2);
}

/// Each printed item takes at least one character.
proof fn lemma_rest_len(keys: Seq<KeyEntryV>)
    ensures
        json_of_rest(keys).len() >= keys.len(),
        json_of_items(keys).len() >= keys.len(),
    decreases keys.len(),
{
    if keys.len() > 0 {
        lemma_rest_len(keys.drop_first());
    }
}

/// Parsing the printed items after the first, up to the closing brace.
proof fn lemma_items_rest_round_trip(keys: Seq<KeyEntryV>, inp: Seq<char>, i: int, fuel: nat)
    requires
        0 <= i,
        i + json_of_rest(keys).len() + 1 <= inp.len(),
        inp.subrange(i, i + json_of_rest(keys).len() + 1) == json_of_rest(keys) + seq!['}'],
        fuel >= keys.len(),
        entries_in_range(keys),
    ensures
        sp_items_rest(inp, i, fuel) == Some((keys, i + json_of_rest(keys).len() + 1)),
    decreases keys.len(),
{
    let t = json_of_rest(keys) + seq!['}'];
    if keys.len() == 0 {
        assert(json_of_rest(keys) =~= Seq::<char>::empty());
        assert(t =~= seq!['}']);
        assert(inp[i] == '}') by {
            assert(inp.subrange(i, i + 1)[0] == inp[i]);
        }
        assert(sp_items_rest(inp, i, fuel) == Some((Seq::<KeyEntryV>::empty(), i + 1)));
        assert(keys =~= Seq::<KeyEntryV>::empty());
    } else {
        let e = keys[0];
        let it = json_item(e);
        let rest = keys.drop_first();
        let rt = json_of_rest(rest);
        assert(json_of_rest(keys) == seq![','] + it + rt);
        assert(t =~= Seq::empty() + seq![','] + (it + rt + seq!['}']));
        lemma_window_piece(inp, i, t, Seq::empty(), seq![','], it + rt + seq!['}']);
        assert(inp[i] == ',') by {
            assert(inp.subrange(i + 0, i + 1)[0] == inp[i]);
        }
        assert(t =~= seq![','] + it + (rt + seq!['}']));
        lemma_window_piece(inp, i, t, seq![','], it, rt + seq!['}']);
        assert(e.created_at >= -0x8000000000000000 && e.created_at <= 0x7fffffffffffffff);
        lemma_item_round_trip(e, inp, i + 1);
        let j = i + 1 + it.len();
        assert(t =~= (seq![','] + it) + (rt + seq!['}']) + Seq::empty());
        lemma_window_piece(inp, i, t, seq![','] + it, rt + seq!['}'], Seq::empty());
        assert(inp.subrange(j, j + rt.len() + 1) == rt + seq!['}']);
        assert(entries_in_range(rest)) by {
            assert(forall|k: int| 0 <= k < rest.len() ==> (#[trigger] rest[k]) == keys[k + 1]);
        }
        lemma_items_rest_round_trip(rest, inp, j, (fuel - 1) as nat);
        assert(inp[i] != '}');
        assert(sp_items_rest(inp, i, fuel) == Some((seq![e] + rest, j + rt.len() + 1)));
        assert(seq![e] + rest =~= keys);
    }
}

/// Parsing the printed items of the keys map, with its closing brace.
#[verifier::rlimit(100)]
proof fn lemma_items_round_trip(keys: Seq<KeyEntryV>, inp: Seq<char>, i: int, fuel: nat)
    requires
        0 <= i,
        i + json_of_items(keys).len() + 1 <= inp.len(),
        inp.subrange(i, i + json_of_items(keys).len() + 1) == json_of_items(keys) + seq!['}'],
        fuel >= keys.len(),
        entries_in_range(keys),
    ensures
        sp_items(inp, i, fuel) == Some((keys, i + json_of_items(keys).len() + 1)),
{
    let t = json_of_items(keys) + seq!['}'];
    if keys.len() == 0 {
        assert(json_of_items(keys) =~= Seq::<char>::empty());
        assert(t =~= seq!['}']);
        assert(inp[i] == '}') by {
            assert(inp.subrange(i, i + 1)[0] == inp[i]);
        }
        assert(keys =~= Seq::<KeyEntryV>::empty());
    } else {
        let e = keys[0];
        let it = json_item(e);
        let rest = keys.drop_first();
        let rt = json_of_rest(rest);
        assert(json_of_items(keys) == it + rt);
        assert(t =~= Seq::empty() + it + (rt + seq!['}']));
        lemma_window_piece(inp, i, t, Seq::empty(), it, rt + seq!['}']);
        assert(inp.subrange(i, i + it.len()) == it) by {
            assert(i + 0 == i);
        }
        assert(inp[i] == '"') by {
            assert(inp.subrange(i, i + it.len())[0] == inp[i]);
            assert(it[0] == '"');
        }
        assert(e.created_at >= -0x8000000000000000 && e.created_at <= 0x7fffffffffffffff);
        lemma_item_round_trip(e, inp, i);
        let j = i + it.len();
        assert(t =~= it + (rt + seq!['}']) + Seq::empty());
        lemma_window_piece(inp, i, t, it, rt + seq!['}'], Seq::empty());
        assert(inp.subrange(j, j + rt.len() + 1) == rt + seq!['}']);
        assert(entries_in_range(rest)) by {
            assert(forall|k: int| 0 <= k < rest.len() ==> (#[trigger] rest[k]) == keys[k + 1]);
        }
        lemma_items_rest_round_trip(rest, inp, j, fuel);
        assert(inp[i] != '}');
        assert(sp_items(inp, i, fuel) == Some((seq![e] + rest, j + rt.len() + 1)));
        assert(seq![e] + rest =~= keys);
    }
}

/// Parsing the printed form of a key index yields the index: the canonical
/// text round-trips.
#[verifier::rlimit(100)]
/// The printed active value.
pub open spec fn av_text(act: Option<Seq<char>>) -> Seq<char> {
    match act {
        Option::Some(l) => json_quoted(l),
        Option::None => lit_null(),
    }
}

/// The header of the printed index parses to the active value.
#[verifier::rlimit(100)]
proof fn lemma_keyfile_header(kf: KeyFileV, inp: Seq<char>)
    requires
        inp == json_of_keyfile(kf),
    ensures
        sp_lit(inp, 0, lit_active()) == Some(10int),
        sp_active_val(inp, 10) == Some((kf.active, 10 + av_text(kf.active).len() as int)),
        sp_lit(inp, 10 + av_text(kf.active).len() as int, lit_keys()) == Some(
            19 + av_text(kf.active).len() as int,
        ),
{
    let la = lit_active();
    let av = av_text(kf.active);
    let lk = lit_keys();
    let its = json_of_items(kf.keys);
    let tail = seq!['}', '}'];
    assert(inp == la + av + lk + its + tail);
    assert(inp.subrange(0, inp.len() as int) =~= inp);
    assert(inp =~= Seq::empty() + la + (av + lk + its + tail)) by {
        assert(inp == la + av + lk + its + tail);
    }
    lemma_window_piece(inp, 0, inp, Seq::empty(), la, av + lk + its + tail);
    let o1 = la.len() as int;
    assert(sp_lit(inp, 0, la) == Some(o1)) by {
        assert(inp.subrange(0, la.len() as int) == la);
    }
    assert(inp =~= la + av + (lk + its + tail)) by {
        assert(inp == la + av + lk + its + tail);
    }
    lemma_window_piece(inp, 0, inp, la, av, lk + its + tail);
    let o2 = o1 + av.len();
    assert(inp.subrange(o1, o2) == av);
    match kf.active {
        Option::None => {
            assert(sp_lit(inp, o1, lit_null()) == Some(o2));
            assert(sp_active_val(inp, o1) == Some((None::<Seq<char>>, o2)));
        },
        Option::Some(l) => {
            assert(sp_lit(inp, o1, lit_null()) is None) by {
                if sp_lit(inp, o1, lit_null()) is Some {
                    assert(inp.subrange(o1, o1 + 4) == lit_null());
                    assert(inp[o1] == 'n');
                    assert(inp.subrange(o1, o2)[0] == inp[o1]);
                    assert(av[0] == '"');
                }
            }
            lemma_quoted_round_trip(l, inp, o1);
            assert(sp_active_val(inp, o1) == Some((Some(l), o2)));
        },
    }
    assert(inp =~= (la + av) + lk + (its + tail)) by {
        assert(inp == la + av + lk + its + tail);
    }
    lemma_window_piece(inp, 0, inp, la + av, lk, its + tail);
    let o3 = o2 + lk.len();
    assert(sp_lit(inp, o2, lk) == Some(o3));
}

/// The body of the printed index parses to the entries and ends the text.
#[verifier::rlimit(100)]
proof fn lemma_keyfile_body(kf: KeyFileV, inp: Seq<char>)
    requires
        inp == json_of_keyfile(kf),
        entries_in_range(kf.keys),
    ensures
        sp_items(inp, 19 + av_text(kf.active).len() as int, inp.len() as nat) == Some(
            (kf.keys, 20 + av_text(kf.active).len() + json_of_items(kf.keys).len() as int),
        ),
        sp_lit(
            inp,
            20 + av_text(kf.active).len() + json_of_items(kf.keys).len() as int,
            seq!['}'],
        ) == Some(inp.len() as int),
{
    let la = lit_active();
    let av = av_text(kf.active);
    let lk = lit_keys();
    let its = json_of_items(kf.keys);
    let tail = seq!['}', '}'];
    assert(inp == la + av + lk + its + tail);
    assert(inp.subrange(0, inp.len() as int) =~= inp);
    let o3 = 19 + av.len() as int;
    assert(inp =~= (la + av + lk) + (its + seq!['}']) + seq!['}']) by {
        assert(inp == la + av + lk + its + tail);
    }
    lemma_window_piece(inp, 0, inp, la + av + lk, its + seq!['}'], seq!['}']);
    assert(inp.subrange(o3, o3 + its.len() + 1) == its + seq!['}']);
    lemma_rest_len(kf.keys);
    assert(inp.len() >= kf.keys.len());
    lemma_items_round_trip(kf.keys, inp, o3, inp.len() as nat);
    let o4 = o3 + its.len() + 1;
    assert(inp =~= (la + av + lk + its + seq!['}']) + seq!['}'] + Seq::empty()) by {
        assert(inp == la + av + lk + its + tail);
    }
    lemma_window_piece(inp, 0, inp, la + av + lk + its + seq!['}'], seq!['}'], Seq::empty());
    assert(sp_lit(inp, o4, seq!['}']) == Some(o4 + 1)) by {
        assert((la + av + lk + its + seq!['}']).len() == o4);
        assert(inp.subrange(o4, o4 + 1) == seq!['}']);
    }
    assert(o4 + 1 == inp.len());
}

/// Parsing the printed form of a key index yields the index: the canonical
/// text round-trips.
#[verifier::rlimit(100)]
pub proof fn lemma_keyfile_round_trip(kf: KeyFileV)
    requires
        entries_in_range(kf.keys),
    ensures
        sp_keyfile(json_of_keyfile(kf)) == Some(kf),
{
    let inp = json_of_keyfile(kf);
    lemma_keyfile_header(kf, inp);
    lemma_keyfile_body(kf, inp);
    let o4 = 20 + av_text(kf.active).len() + json_of_items(kf.keys).len() as int;
    assert(o4 + 1 == inp.len()) by {
        assert(inp == lit_active() + av_text(kf.active) + lit_keys() + json_of_items(kf.keys)
            + seq!['}', '}']);
    }
    assert(sp_keyfile(inp) == Some(KeyFileV { active: kf.active, keys: kf.keys }));
    assert(KeyFileV { active: kf.active, keys: kf.keys } == kf);
}

/// Parse one entry object at `pos`.
fn parse_entry(inp: &Vec<char>, pos: usize) -> (r: Option<(KeyEntry, usize)>)
    ensures
        match sp_entry(inp@, pos as int) {
            Option::None => r is None,
            Option::Some(ev) => r matches Some(ej) && ej.0@ == ev.0 && ej.1 as int == ev.1 && ej.1
                <= inp@.len() && ej.1 > pos,
        },
{
    let i1 = match expect_lit(inp, pos, lit_label_str()) {
        Option::Some(j) => j,
        Option::None => {
            return None;
        },
    };
    let (label, i2) = match parse_quoted(inp, i1) {
        Option::Some(sj) => sj,
        Option::None => {
            return None;
        },
    };
    let i3 = match expect_lit(inp, i2, lit_public_key_str()) {
        Option::Some(j) => j,
        Option::None => {
            return None;
        },
    };
    let (public_key, i4) = match parse_quoted(inp, i3) {
        Option::Some(sj) => sj,
        Option::None => {
            return None;
        },
    };
    let i5 = match expect_lit(inp, i4, lit_created_at_str()) {
        Option::Some(j) => j,
        Option::None => {
            return None;
        },
    };
    let (created_at, i6) = match parse_i64(inp, i5) {
        Option::Some(vj) => vj,
        Option::None => {
            return None;
        },
    };
    if i6 >= inp.len() || inp[i6] != '}' {
        proof {
            assert(sp_lit(inp@, i6 as int, seq!['}']) is None) by {
                if sp_lit(inp@, i6 as int, seq!['}']) is Some {
                    assert(inp@.subrange(i6 as int, i6 + 1)[0] == inp@[i6 as int]);
                }
            }
        }
        return None;
    }
    proof {
        assert(inp@.subrange(i6 as int, i6 + 1) =~= seq![inp@[i6 as int]]);
        assert(sp_lit(inp@, i6 as int, seq!['}']) == Some(i6 + 1));
    }
    Some((KeyEntry { label, public_key, created_at }, i6 + 1))
}

/// Parse one keyed item at `pos`.
fn parse_item(inp: &Vec<char>, pos: usize) -> (r: Option<(KeyEntry, usize)>)
    ensures
        match sp_item(inp@, pos as int) {
            Option::None => r is None,
            Option::Some(ev) => r matches Some(ej) && ej.0@ == ev.0 && ej.1 as int == ev.1 && ej.1
                <= inp@.len() && ej.1 > pos,
        },
{
    let (k, i1) = match parse_quoted(inp, pos) {
        Option::Some(sj) => sj,
        Option::None => {
            return None;
        },
    };
    if i1 >= inp.len() || inp[i1] != ':' {
        proof {
            assert(sp_lit(inp@, i1 as int, seq![':']) is None) by {
                if sp_lit(inp@, i1 as int, seq![':']) is Some {
                    assert(inp@.subrange(i1 as int, i1 + 1)[0] == inp@[i1 as int]);
                }
            }
        }
        return None;
    }
    proof {
        assert(inp@.subrange(i1 as int, i1 + 1) =~= seq![inp@[i1 as int]]);
        assert(sp_lit(inp@, i1 as int, seq![':']) == Some(i1 + 1));
    }
    let (e, i2) = match parse_entry(inp, i1 + 1) {
        Option::Some(ej) => ej,
        Option::None => {
            return None;
        },
    };
    if crate::chars::str_eq(k.as_str(), e.label.as_str()) {
        Some((e, i2))
    } else {
        None
    }
}

/// Parse the canonical text of a key index; the whole text must be consumed.
pub fn parse_keyfile(inp: &Vec<char>) -> (r: Option<KeyFile>)
    ensures
        match sp_keyfile(inp@) {
            Option::None => r is None,
            Option::Some(kfv) => r matches Some(kf) && kf@ == kfv,
        },
{
    let n = inp.len();
    let i1 = match expect_lit(inp, 0, lit_active_str()) {
        Option::Some(j) => j,
        Option::None => {
            return None;
        },
    };
    let (active, i2) = match expect_lit(inp, i1, lit_null_str()) {
        Option::Some(j) => (None, j),
        Option::None => {
            match parse_quoted(inp, i1) {
                Option::Some(sj) => (Some(sj.0), sj.1),
                Option::None => {
                    return None;
                },
            }
        },
    };
    let i3 = match expect_lit(inp, i2, lit_keys_str()) {
        Option::Some(j) => j,
        Option::None => {
            return None;
        },
    };
    let ghost fuel0 = inp@.len() as nat;
    if i3 >= n {
        return None;
    }
    let mut entries: Vec<KeyEntry> = Vec::new();
    let after: usize;
    if inp[i3] == '}' {
        after = i3 + 1;
        assert(sp_items(inp@, i3 as int, fuel0) == Some((Seq::<KeyEntryV>::empty(), i3 + 1)));
        assert(entries@.map_values(|x: KeyEntry| x@) =~= Seq::<KeyEntryV>::empty());
    } else {
        let (e0, j0) = match parse_item(inp, i3) {
            Option::Some(ej) => ej,
            Option::None => {
                return None;
            },
        };
        entries.push(e0);
        let mut cur: usize = j0;
        let ghost mut fcur: nat = fuel0;
        loop
            invariant_except_break
                i3 < n,
                inp@[i3 as int] != '}',
                sp_items(inp@, i3 as int, fuel0) is None ==> sp_keyfile(inp@) is None,
                j0 <= cur <= n,
                n == inp@.len(),
                fcur >= n - cur,
                sp_item(inp@, i3 as int) matches Some(e) && e.1 == j0 as int,
                entries@.len() >= 1,
                entries@[0]@ == sp_item(inp@, i3 as int)->Some_0.0,
                (match sp_items_rest(inp@, cur as int, fcur) {
                    Option::None => sp_items(inp@, i3 as int, fuel0) is None,
                    Option::Some(sj) => sp_items(inp@, i3 as int, fuel0) == Some(
                        (entries@.map_values(|x: KeyEntry| x@) + sj.0, sj.1),
                    ),
                }),
            ensures
                sp_items(inp@, i3 as int, fuel0) == Some(
                    (entries@.map_values(|x: KeyEntry| x@), cur + 1),
                ),
                cur < n,
                n == inp@.len(),
            decreases n - cur,
        {
            if cur >= n {
                assert(sp_items_rest(inp@, cur as int, fcur) is None);
                return None;
            }
            let c = inp[cur];
            if c == '}' {
                assert(sp_items_rest(inp@, cur as int, fcur) == Some(
                    (Seq::<KeyEntryV>::empty(), cur + 1),
                ));
                proof {
                    assert(entries@.map_values(|x: KeyEntry| x@) + Seq::<KeyEntryV>::empty()
                        =~= entries@.map_values(|x: KeyEntry| x@));
                }
                break;
            }
            if c != ',' {
                assert(sp_items_rest(inp@, cur as int, fcur) is None);
                return None;
            }
            assert(fcur > 0);
            let (e, j) = match parse_item(inp, cur + 1) {
                Option::Some(ej) => ej,
                Option::None => {
                    assert(sp_items_rest(inp@, cur as int, fcur) is None);
                    return None;
                },
            };
            let ghost epre = entries@;
            entries.push(e);
            proof {
                let sv = sp_item(inp@, cur + 1)->Some_0;
                assert(sp_items_rest(inp@, cur as int, fcur) == (match sp_items_rest(
                    inp@,
                    sv.1,
                    (fcur - 1) as nat,
                ) {
                    Option::None => None::<(Seq<KeyEntryV>, int)>,
                    Option::Some(rj) => Some((seq![sv.0] + rj.0, rj.1)),
                }));
                assert(entries@ =~= epre.push(e));
                assert(entries@.map_values(|x: KeyEntry| x@) =~= epre.map_values(
                    |x: KeyEntry| x@,
                ).push(e@));
                if sp_items_rest(inp@, j as int, (fcur - 1) as nat) is Some {
                    let rj = sp_items_rest(inp@, j as int, (fcur - 1) as nat)->Some_0;
                    assert(epre.map_values(|x: KeyEntry| x@) + (seq![sv.0] + rj.0)
                        =~= entries@.map_values(|x: KeyEntry| x@) + rj.0);
                }
                fcur = (fcur - 1) as nat;
            }
            cur = j;
        }
        after = cur + 1;
        assert(sp_items(inp@, i3 as int, fuel0) == Some(
            (entries@.map_values(|x: KeyEntry| x@), after as int),
        ));
    }
    if after >= n || inp[after] != '}' {
        proof {
            assert(sp_lit(inp@, after as int, seq!['}']) is None) by {
                if sp_lit(inp@, after as int, seq!['}']) is Some {
                    assert(inp@.subrange(after as int, after + 1)[0] == inp@[after as int]);
                }
            }
        }
        return None;
    }
    proof {
        assert(inp@.subrange(after as int, after + 1) =~= seq![inp@[after as int]]);
        assert(sp_lit(inp@, after as int, seq!['}']) == Some(after + 1));
    }
    if after + 1 != n {
        return None;
    }
    let kf = KeyFile { active, keys: entries };
    proof {
        let kfv = sp_keyfile(inp@)->Some_0;
        assert(kf@.keys =~= kfv.keys);
        assert(kf@ == kfv);
    }
    Some(kf)
}

} // verus!
