//! The key index: named signing identities, at most one of them active.  The
//! index is kept sorted by label so that every run prints it the same way.
use vstd::prelude::*;

use crate::chars::{lemma_lex_asymmetric, lemma_lex_irreflexive, lemma_lex_transitive, lex_lt,
    str_cmp};

verus! {

/// One identity: a user-chosen label, the bech32 public key, and the creation
/// time in Unix seconds.
#[derive(Debug)]
pub struct KeyEntry {
    pub label: String,
    pub public_key: String,
    pub created_at: i64,
}

/// The mathematical value of a [`KeyEntry`].
pub struct KeyEntryV {
    pub label: Seq<char>,
    pub public_key: Seq<char>,
    pub created_at: int,
}

impl View for KeyEntry {
    type V = KeyEntryV;

    open spec fn view(&self) -> KeyEntryV {
        KeyEntryV { label: self.label@, public_key: self.public_key@, created_at: self.created_at as int }
    }
}

impl KeyEntry {
    /// A copy with the same fields.
    pub fn duplicate(&self) -> (r: KeyEntry)
        ensures
            r@ == self@,
    {
        KeyEntry {
            label: self.label.clone(),
            public_key: self.public_key.clone(),
            created_at: self.created_at,
        }
    }
}

/// The key index: the optional active label and the entries, sorted strictly
/// by label.
#[derive(Debug)]
pub struct KeyFile {
    pub active: Option<String>,
    pub keys: Vec<KeyEntry>,
}

/// The mathematical value of a [`KeyFile`].
pub struct KeyFileV {
    pub active: Option<Seq<char>>,
    pub keys: Seq<KeyEntryV>,
}

impl View for KeyFile {
    type V = KeyFileV;

    open spec fn view(&self) -> KeyFileV {
        KeyFileV {
            active: match self.active {
                Option::Some(ref l) => Some(l@),
                Option::None => None,
            },
            keys: self.keys@.map_values(|e: KeyEntry| e@),
        }
    }
}

/// Entries are in strictly increasing label order (hence labels are unique).
pub open spec fn strictly_sorted(keys: Seq<KeyEntryV>) -> bool {
    forall|i: int, j: int|
        0 <= i < j < keys.len() ==> lex_lt(#[trigger] keys[i].label, #[trigger] keys[j].label)
}

/// Some entry carries the label `l`.
pub open spec fn has_label(keys: Seq<KeyEntryV>, l: Seq<char>) -> bool {
    exists|i: int| 0 <= i < keys.len() && (#[trigger] keys[i].label) == l
}

/// Index of the entry labelled `l`, or `-1`.
pub open spec fn idx_of(keys: Seq<KeyEntryV>, l: Seq<char>) -> int
    decreases keys.len(),
{
    if keys.len() == 0 {
        -1
    } else if keys[0].label == l {
        0
    } else {
        let r = idx_of(keys.drop_first(), l);
        if r < 0 {
            -1
        } else {
            r + 1
        }
    }
}

/// Position at which an entry labelled `l` belongs: the first index whose
/// label is greater.
pub open spec fn ins_pos(keys: Seq<KeyEntryV>, l: Seq<char>) -> int
    decreases keys.len(),
{
    if keys.len() == 0 {
        0
    } else if lex_lt(l, keys[0].label) {
        0
    } else {
        1 + ins_pos(keys.drop_first(), l)
    }
}

/// The sorted sequence with `e` inserted at its position.
pub open spec fn spec_insert(keys: Seq<KeyEntryV>, e: KeyEntryV) -> Seq<KeyEntryV> {
    let p = ins_pos(keys, e.label);
    keys.subrange(0, p) + seq![e] + keys.subrange(p, keys.len() as int)
}

/// The sequence with the entry labelled `l` removed, if present.
pub open spec fn spec_remove(keys: Seq<KeyEntryV>, l: Seq<char>) -> Seq<KeyEntryV> {
    let i = idx_of(keys, l);
    if i >= 0 {
        keys.remove(i)
    } else {
        keys
    }
}

impl KeyFileV {
    /// Well-formed: sorted and, when an active label is set, present.
    pub open spec fn wf(self) -> bool {
        &&& strictly_sorted(self.keys)
        &&& match self.active {
            Option::Some(l) => has_label(self.keys, l),
            Option::None => true,
        }
    }

    /// The entry labelled `l`.
    pub open spec fn entry_of(self, l: Seq<char>) -> KeyEntryV {
        self.keys[idx_of(self.keys, l)]
    }
}

/// `idx_of` finds exactly the entry with the label.
pub proof fn lemma_idx_of(keys: Seq<KeyEntryV>, l: Seq<char>)
    ensures
        has_label(keys, l) ==> 0 <= idx_of(keys, l) < keys.len() && keys[idx_of(keys, l)].label
            == l,
        !has_label(keys, l) ==> idx_of(keys, l) == -1,
        forall|j: int| 0 <= j < idx_of(keys, l) ==> (#[trigger] keys[j].label) != l,
    decreases keys.len(),
{
    if keys.len() > 0 {
        lemma_idx_of(keys.drop_first(), l);
        if keys[0].label == l {
        } else {
            assert(has_label(keys, l) == has_label(keys.drop_first(), l)) by {
                if has_label(keys, l) {
                    let i = choose|i: int| 0 <= i < keys.len() && (#[trigger] keys[i].label) == l;
                    assert(i > 0);
                    assert(keys.drop_first()[i - 1].label == l);
                }
                if has_label(keys.drop_first(), l) {
                    let i = choose|i: int|
                        0 <= i < keys.drop_first().len() && (#[trigger] keys.drop_first()[i].label)
                            == l;
                    assert(keys[i + 1].label == l);
                }
            }
            assert(forall|j: int| 0 <= j < idx_of(keys, l) ==> (#[trigger] keys[j].label) != l)
                by {
                assert(forall|j: int|
                    1 <= j < idx_of(keys, l) ==> (#[trigger] keys[j]) == keys.drop_first()[j - 1]);
            }
        }
    }
}

/// `ins_pos` lies between the entries smaller and larger than `l`.
pub proof fn lemma_ins_pos(keys: Seq<KeyEntryV>, l: Seq<char>)
    requires
        strictly_sorted(keys),
    ensures
        0 <= ins_pos(keys, l) <= keys.len(),
        forall|j: int| 0 <= j < ins_pos(keys, l) ==> !lex_lt(l, #[trigger] keys[j].label),
        ins_pos(keys, l) < keys.len() ==> lex_lt(l, keys[ins_pos(keys, l)].label),
    decreases keys.len(),
{
    if keys.len() > 0 && !lex_lt(l, keys[0].label) {
        assert(strictly_sorted(keys.drop_first())) by {
            assert(forall|i: int, j: int|
                0 <= i < j < keys.drop_first().len() ==> lex_lt(
                    #[trigger] keys.drop_first()[i].label,
                    #[trigger] keys.drop_first()[j].label,
                )) by {
                assert(forall|i: int|
                    0 <= i < keys.drop_first().len() ==> (#[trigger] keys.drop_first()[i]) == keys[i + 1]);
            }
        }
        lemma_ins_pos(keys.drop_first(), l);
        let p = ins_pos(keys, l);
        assert(forall|j: int| 1 <= j < p ==> !lex_lt(l, #[trigger] keys[j].label)) by {
            assert(forall|j: int|
                0 <= j < p - 1 ==> !lex_lt(l, #[trigger] keys.drop_first()[j].label));
            assert(forall|j: int|
                1 <= j < p ==> (#[trigger] keys[j]) == keys.drop_first()[j - 1]);
        }
        if p < keys.len() {
            assert(keys[p] == keys.drop_first()[p - 1]);
        }
    }
}

/// The position found by `ins_pos` is the unique boundary: if everything
/// before `i` is smaller than `l` and `l` is smaller than the entry at `i`,
/// the position is `i`.
pub proof fn lemma_ins_pos_exact(keys: Seq<KeyEntryV>, l: Seq<char>, i: int)
    requires
        0 <= i <= keys.len(),
        forall|j: int| 0 <= j < i ==> lex_lt(#[trigger] keys[j].label, l),
        i < keys.len() ==> lex_lt(l, keys[i].label),
    ensures
        ins_pos(keys, l) == i,
    decreases keys.len(),
{
    if keys.len() == 0 {
    } else if lex_lt(l, keys[0].label) {
        if i > 0 {
            lemma_lex_asymmetric(keys[0].label, l);
        }
    } else {
        assert(i > 0) by {
            if i == 0 {
            }
        }
        assert(forall|j: int|
            0 <= j < i - 1 ==> lex_lt(#[trigger] keys.drop_first()[j].label, l)) by {
            assert(forall|j: int|
                0 <= j < keys.drop_first().len() ==> (#[trigger] keys.drop_first()[j]) == keys[j + 1]);
        }
        if i < keys.len() {
            assert(keys.drop_first()[i - 1] == keys[i]);
        }
        lemma_ins_pos_exact(keys.drop_first(), l, i - 1);
    }
}

impl KeyFile {
    /// An empty index with no active identity.
    pub fn new() -> (r: KeyFile)
        ensures
            r@.keys =~= Seq::<KeyEntryV>::empty(),
            r@.active is None,
            r@.wf(),
    {
        KeyFile { active: None, keys: Vec::new() }
    }

    /// The position of the entry labelled `label`, if any.
    pub fn find(&self, label: &str) -> (r: Option<usize>)
        ensures
            match r {
                Option::Some(i) => i < self@.keys.len() && self@.keys[i as int].label == label@
                    && has_label(self@.keys, label@) && idx_of(self@.keys, label@) <= i,
                Option::None => !has_label(self@.keys, label@),
            },
{
        let n = self.keys.len();
        let mut i: usize = 0;
        while i < n
            invariant
                0 <= i <= n,
                n == self@.keys.len(),
                forall|j: int| 0 <= j < i ==> (#[trigger] self@.keys[j].label) != label@,
            decreases n - i,
        {
            if crate::chars::str_eq(self.keys[i].label.as_str(), label) {
                proof {
                    assert(self@.keys[i as int].label == label@);
                    lemma_idx_of(self@.keys, label@);
                }
                return Some(i);
            }
            i = i + 1;
        }
        proof {
            if has_label(self@.keys, label@) {
                let j = choose|j: int|
                    0 <= j < self@.keys.len() && (#[trigger] self@.keys[j].label) == label@;
                assert(self@.keys[j].label != label@);
            }
        }
        None
    }
}

/// Removing one entry keeps the rest sorted.
pub proof fn lemma_remove_sorted(keys: Seq<KeyEntryV>, i: int)
    requires
        strictly_sorted(keys),
        0 <= i < keys.len(),
    ensures
        strictly_sorted(keys.remove(i)),
{
    let r = keys.remove(i);
    assert forall|a: int, b: int| 0 <= a < b < r.len() implies lex_lt(
        #[trigger] r[a].label,
        #[trigger] r[b].label,
    ) by {
        assert(r[a] == (if a < i {
            keys[a]
        } else {
            keys[a + 1]
        }));
        assert(r[b] == (if b < i {
            keys[b]
        } else {
            keys[b + 1]
        }));
    }
}

/// If the entry at `i` has label `l` and no earlier entry does, `idx_of`
/// returns `i`.
pub proof fn lemma_idx_of_exact(keys: Seq<KeyEntryV>, l: Seq<char>, i: int)
    requires
        0 <= i < keys.len(),
        keys[i].label == l,
        forall|j: int| 0 <= j < i ==> (#[trigger] keys[j].label) != l,
    ensures
        idx_of(keys, l) == i,
    decreases keys.len(),
{
    if i > 0 {
        assert(forall|j: int|
            0 <= j < i - 1 ==> (#[trigger] keys.drop_first()[j]) == keys[j + 1]);
        assert(keys.drop_first()[i - 1] == keys[i]);
        lemma_idx_of_exact(keys.drop_first(), l, i - 1);
    }
}

/// In a sorted index a label occurs at most once: removing its entry removes
/// the label.
pub proof fn lemma_remove_label_gone(keys: Seq<KeyEntryV>, i: int)
    requires
        strictly_sorted(keys),
        0 <= i < keys.len(),
    ensures
        !has_label(keys.remove(i), keys[i].label),
        forall|l: Seq<char>|
            l != keys[i].label ==> #[trigger] has_label(keys.remove(i), l) == has_label(keys, l),
{
    let l0 = keys[i].label;
    let r = keys.remove(i);
    if has_label(r, l0) {
        let a = choose|a: int| 0 <= a < r.len() && (#[trigger] r[a].label) == l0;
        if a < i {
            assert(keys[a].label == l0);
            assert(lex_lt(keys[a].label, keys[i].label));
            lemma_lex_irreflexive(l0);
        } else {
            assert(keys[a + 1].label == l0);
            assert(lex_lt(keys[i].label, keys[a + 1].label));
            lemma_lex_irreflexive(l0);
        }
    }
    assert forall|l: Seq<char>| l != l0 implies #[trigger] has_label(r, l) == has_label(
        keys,
        l,
    ) by {
        if has_label(r, l) {
            let a = choose|a: int| 0 <= a < r.len() && (#[trigger] r[a].label) == l;
            if a < i {
                assert(keys[a].label == l);
            } else {
                assert(keys[a + 1].label == l);
            }
            assert(has_label(keys, l));
        }
        if has_label(keys, l) {
            let a = choose|a: int| 0 <= a < keys.len() && (#[trigger] keys[a].label) == l;
            assert(a != i);
            if a < i {
                assert(r[a].label == l);
            } else {
                assert(r[a - 1].label == l);
            }
            assert(has_label(r, l));
        }
    }
}

/// The index after renaming `from` to `to`: the entry moves to the sorted
/// position of its new label, everything else stays; an active pointer at
/// `from` follows the entry.
pub open spec fn spec_rename(kf: KeyFileV, from: Seq<char>, to: Seq<char>) -> KeyFileV {
    let e = kf.keys[idx_of(kf.keys, from)];
    let moved = KeyEntryV { label: to, public_key: e.public_key, created_at: e.created_at };
    KeyFileV {
        active: if kf.active == Some(from) {
            Some(to)
        } else {
            kf.active
        },
        keys: spec_insert(spec_remove(kf.keys, from), moved),
    }
}

/// Renaming a label and then renaming it back restores the index exactly, so
/// the file persisted after the two renames is byte-identical in plaintext.
pub proof fn lemma_rename_round_trip(kf: KeyFileV, from: Seq<char>, to: Seq<char>)
    requires
        kf.wf(),
        has_label(kf.keys, from),
        !has_label(kf.keys, to),
        from != to,
    ensures
        spec_rename(spec_rename(kf, from, to), to, from) == kf,
{
    let keys = kf.keys;
    lemma_idx_of(keys, from);
    let i = idx_of(keys, from);
    let e = keys[i];
    let rem = keys.remove(i);
    lemma_remove_sorted(keys, i);
    lemma_remove_label_gone(keys, i);
    let moved = KeyEntryV { label: to, public_key: e.public_key, created_at: e.created_at };
    let p = ins_pos(rem, to);
    lemma_ins_pos(rem, to);
    let keys1 = spec_insert(rem, moved);
    let kf1 = spec_rename(kf, from, to);
    assert(kf1.keys == keys1);
    // the renamed entry is the only one labelled `to`
    assert(keys1[p].label == to);
    assert(forall|j: int| 0 <= j < p ==> (#[trigger] keys1[j]) == rem[j]);
    assert(forall|j: int| 0 <= j < p ==> (#[trigger] keys1[j].label) != to) by {
        if exists|j: int| 0 <= j < p && (#[trigger] keys1[j].label) == to {
            let j = choose|j: int| 0 <= j < p && (#[trigger] keys1[j].label) == to;
            assert(rem[j].label == to);
            assert(has_label(rem, to));
        }
    }
    lemma_idx_of_exact(keys1, to, p);
    // removing it again yields the index without `from`
    let rem1 = keys1.remove(p);
    assert(rem1 =~= rem);
    assert(idx_of(keys1, to) == p);
    assert(spec_remove(keys1, to) == rem1);
    // and `from` goes back to its old position
    assert(forall|j: int| 0 <= j < i ==> (#[trigger] rem[j]) == keys[j]);
    assert(forall|j: int| i <= j < rem.len() ==> (#[trigger] rem[j]) == keys[j + 1]);
    assert(forall|j: int| 0 <= j < i ==> lex_lt(#[trigger] rem[j].label, from));
    assert(i < rem.len() ==> lex_lt(from, rem[i as int].label));
    lemma_ins_pos_exact(rem, from, i);
    let back = KeyEntryV { label: from, public_key: moved.public_key, created_at: moved.created_at };
    assert(back == e);
    assert(spec_insert(rem, e) =~= keys);
    let kf2 = spec_rename(kf1, to, from);
    assert(kf1.keys[idx_of(kf1.keys, to)] == moved);
    assert(kf2.keys =~= keys);
    // the active pointer survives the round trip
    match kf.active {
        Option::None => {
            assert(kf1.active is None);
            assert(kf2.active is None);
        },
        Option::Some(l) => {
            if l == from {
                assert(kf1.active == Some(to));
                assert(kf2.active == Some(from));
            } else {
                assert(l != to);
                assert(kf1.active == Some(l));
                assert(kf2.active == Some(l));
            }
        },
    }
    assert(kf2 == kf);
}

impl KeyFile {
    /// Insert `e` at its sorted position.  The label must be new.
    pub fn insert_sorted(&mut self, e: KeyEntry)
        requires
            strictly_sorted(old(self)@.keys),
            !has_label(old(self)@.keys, e@.label),
        ensures
            final(self)@.keys == spec_insert(old(self)@.keys, e@),
            final(self)@.active == old(self)@.active,
            strictly_sorted(final(self)@.keys),
            final(self)@.keys.len() == old(self)@.keys.len() + 1,
            forall|l: Seq<char>|
                #[trigger] has_label(final(self)@.keys, l) == (has_label(old(self)@.keys, l) || l
                    == e@.label),
    {
        let ghost kv = self@.keys;
        let n = self.keys.len();
        let mut p: usize = 0;
        loop
            invariant
                0 <= p <= n,
                n == kv.len(),
                self@.keys == kv,
                strictly_sorted(kv),
                !has_label(kv, e@.label),
                kv == old(self)@.keys,
                self.active == old(self).active,
                forall|j: int| 0 <= j < p ==> lex_lt(#[trigger] kv[j].label, e@.label),
            ensures
                0 <= p <= n,
                self@.keys == kv,
                self.active == old(self).active,
                forall|j: int| 0 <= j < p ==> lex_lt(#[trigger] kv[j].label, e@.label),
                p < n ==> lex_lt(e@.label, kv[p as int].label),
            decreases n - p,
        {
            if p == n {
                break;
            }
            let c = str_cmp(self.keys[p].label.as_str(), e.label.as_str());
            if c == 0 {
                proof {
                    assert(kv[p as int].label == e@.label);
                    assert(has_label(kv, e@.label));
                }
                // unreachable: the label is new
                assert(false);
            } else if c == 1 {
                break;
            }
            p = p + 1;
        }
        proof {
            lemma_ins_pos_exact(kv, e@.label, p as int);
        }
        self.keys.insert(p, e);
        proof {
            assert(self@.keys =~= spec_insert(kv, e@)) by {
                assert(self.keys@ == old(self).keys@.insert(p as int, e));
            }
            let r = self@.keys;
            let pp = p as int;
            assert forall|i: int, j: int| 0 <= i < j < r.len() implies lex_lt(
                #[trigger] r[i].label,
                #[trigger] r[j].label,
            ) by {
                if i < pp && j < pp {
                    assert(r[i] == kv[i] && r[j] == kv[j]);
                } else if i < pp && j == pp {
                    assert(r[i] == kv[i]);
                } else if i < pp && j > pp {
                    assert(r[i] == kv[i] && r[j] == kv[j - 1]);
                } else if i == pp && j > pp {
                    assert(r[j] == kv[j - 1]);
                    if pp < j - 1 {
                        lemma_lex_transitive(e@.label, kv[pp].label, kv[j - 1].label);
                    }
                } else {
                    assert(r[i] == kv[i - 1] && r[j] == kv[j - 1]);
                }
            }
            assert forall|l: Seq<char>| #[trigger]
                has_label(r, l) == (has_label(kv, l) || l == e@.label) by {
                if has_label(r, l) {
                    let i = choose|i: int| 0 <= i < r.len() && (#[trigger] r[i].label) == l;
                    if i < pp {
                        assert(kv[i].label == l);
                        assert(has_label(kv, l));
                    } else if i == pp {
                    } else {
                        assert(kv[i - 1].label == l);
                        assert(has_label(kv, l));
                    }
                }
                if has_label(kv, l) {
                    let i = choose|i: int| 0 <= i < kv.len() && (#[trigger] kv[i].label) == l;
                    if i < pp {
                        assert(r[i].label == l);
                    } else {
                        assert(r[i + 1].label == l);
                    }
                    assert(has_label(r, l));
                }
                if l == e@.label {
                    assert(r[pp].label == l);
                    assert(has_label(r, l));
                }
            }
        }
    }

    /// Remove the entry labelled `label`, returning it if it was present.
    pub fn remove_label(&mut self, label: &str) -> (r: Option<KeyEntry>)
        requires
            old(self)@.wf(),
        ensures
            final(self)@.keys == spec_remove(old(self)@.keys, label@),
            final(self)@.active == old(self)@.active,
            strictly_sorted(final(self)@.keys),
            !has_label(final(self)@.keys, label@),
            forall|l: Seq<char>|
                l != label@ ==> #[trigger] has_label(final(self)@.keys, l) == has_label(
                    old(self)@.keys,
                    l,
                ),
            match r {
                Option::Some(e) => has_label(old(self)@.keys, label@) && e@ == old(
                    self,
                )@.keys[idx_of(old(self)@.keys, label@)],
                Option::None => !has_label(old(self)@.keys, label@),
            },
    {
        let ghost kv = self@.keys;
        proof {
            lemma_idx_of(kv, label@);
        }
        match self.find(label) {
            Option::None => {
                assert(self@.keys =~= spec_remove(kv, label@));
                None
            },
            Option::Some(i) => {
                proof {
                    let i0 = idx_of(kv, label@);
                    if i0 < i as int {
                        assert(lex_lt(kv[i0].label, kv[i as int].label));
                        lemma_lex_irreflexive(label@);
                    }
                    assert(i as int == i0);
                }
                let e = self.keys.remove(i);
                proof {
                    let r = self@.keys;
                    assert(r =~= spec_remove(kv, label@)) by {
                        assert(self.keys@ == old(self).keys@.remove(i as int));
                    }
                    let ii = i as int;
                    assert forall|a: int, b: int| 0 <= a < b < r.len() implies lex_lt(
                        #[trigger] r[a].label,
                        #[trigger] r[b].label,
                    ) by {
                        assert(r[a] == (if a < ii {
                            kv[a]
                        } else {
                            kv[a + 1]
                        }));
                        assert(r[b] == (if b < ii {
                            kv[b]
                        } else {
                            kv[b + 1]
                        }));
                    }
                    assert forall|l: Seq<char>| l != label@ implies #[trigger] has_label(r, l)
                        == has_label(kv, l) by {
                        if has_label(r, l) {
                            let a = choose|a: int| 0 <= a < r.len() && (#[trigger] r[a].label) == l;
                            if a < ii {
                                assert(kv[a].label == l);
                            } else {
                                assert(kv[a + 1].label == l);
                            }
                            assert(has_label(kv, l));
                        }
                        if has_label(kv, l) {
                            let a = choose|a: int|
                                0 <= a < kv.len() && (#[trigger] kv[a].label) == l;
                            if a < ii {
                                assert(r[a].label == l);
                            } else {
                                assert(a != ii);
                                assert(r[a - 1].label == l);
                            }
                            assert(has_label(r, l));
                        }
                    }
                    assert(!has_label(r, label@)) by {
                        if has_label(r, label@) {
                            let a = choose|a: int|
                                0 <= a < r.len() && (#[trigger] r[a].label) == label@;
                            if a < ii {
                                assert(kv[a].label == label@);
                                assert(lex_lt(kv[a].label, kv[ii].label));
                                lemma_lex_irreflexive(label@);
                            } else {
                                assert(kv[a + 1].label == label@);
                                assert(lex_lt(kv[ii].label, kv[a + 1].label));
                                lemma_lex_irreflexive(label@);
                            }
                        }
                    }
                }
                Some(e)
            },
        }
    }
}

} // verus!
