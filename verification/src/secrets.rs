//! Per-label secret persistence: the platform keyring under the service name
//! `goostr`, or an in-memory table with the same interface so that the store
//! can be driven without touching the OS.
use vstd::prelude::*;

verus! {

/// One stored secret.
pub struct SecretEntry {
    pub label: String,
    pub value: String,
}

/// The mathematical value of a [`SecretEntry`].
pub struct SecretEntryV {
    pub label: Seq<char>,
    pub value: Seq<char>,
}

impl View for SecretEntry {
    type V = SecretEntryV;

    open spec fn view(&self) -> SecretEntryV {
        SecretEntryV { label: self.label@, value: self.value@ }
    }
}

/// Whether some entry carries the label.
pub open spec fn mem_has(s: Seq<SecretEntryV>, l: Seq<char>) -> bool {
    exists|i: int| 0 <= i < s.len() && (#[trigger] s[i].label) == l
}

/// The value stored under the label, if any (first match).
pub open spec fn mem_lookup(s: Seq<SecretEntryV>, l: Seq<char>) -> Option<Seq<char>>
    decreases s.len(),
{
    if s.len() == 0 {
        None
    } else if s[0].label == l {
        Some(s[0].value)
    } else {
        mem_lookup(s.drop_first(), l)
    }
}

pub proof fn lemma_mem_lookup_has(s: Seq<SecretEntryV>, l: Seq<char>)
    ensures
        mem_lookup(s, l) is Some <==> mem_has(s, l),
    decreases s.len(),
{
    if s.len() > 0 {
        lemma_mem_lookup_has(s.drop_first(), l);
        if s[0].label == l {
        } else {
            assert(mem_has(s, l) == mem_has(s.drop_first(), l)) by {
                if mem_has(s, l) {
                    let i = choose|i: int| 0 <= i < s.len() && (#[trigger] s[i].label) == l;
                    assert(i > 0);
                    assert(s.drop_first()[i - 1].label == l);
                }
                if mem_has(s.drop_first(), l) {
                    let i = choose|i: int|
                        0 <= i < s.drop_first().len() && (#[trigger] s.drop_first()[i].label) == l;
                    assert(s[i + 1].label == l);
                }
            }
        }
    }
}

/// Relies on keyring's `Entry::new("goostr", label)` and `set_password`.
/// What the OS store does cannot be promised.
#[verifier::external_body]
fn keyring_set(label: &str, secret: &str) -> (r: Result<(), ()>) {
    match keyring::Entry::new("goostr", label) {
        Ok(e) => e.set_password(secret).map_err(|_| ()),
        Err(_) => Err(()),
    }
}

/// Relies on keyring's `get_password`: a missing entry (`NoEntry`) reads as
/// no value rather than an error.
#[verifier::external_body]
fn keyring_get(label: &str) -> (r: Result<Option<String>, ()>) {
    match keyring::Entry::new("goostr", label) {
        Ok(e) => match e.get_password() {
            Ok(s) => Ok(Some(s)),
            Err(keyring::Error::NoEntry) => Ok(None),
            Err(_) => Err(()),
        },
        Err(_) => Err(()),
    }
}

/// Relies on keyring's `delete_credential`: deleting a missing entry
/// (`NoEntry`) counts as done.
#[verifier::external_body]
fn keyring_delete(label: &str) -> (r: Result<(), ()>) {
    match keyring::Entry::new("goostr", label) {
        Ok(e) => match e.delete_credential() {
            Ok(()) => Ok(()),
            Err(keyring::Error::NoEntry) => Ok(()),
            Err(_) => Err(()),
        },
        Err(_) => Err(()),
    }
}

/// The per-label secret store: the OS keyring, or an in-memory table that a
/// test can inspect.
pub enum SecretStore {
    Keyring,
    Memory(Vec<SecretEntry>),
}

impl SecretStore {
    /// The table of an in-memory store.
    pub open spec fn mem(&self) -> Seq<SecretEntryV> {
        match self {
            SecretStore::Memory(v) => v@.map_values(|e: SecretEntry| e@),
            SecretStore::Keyring => Seq::empty(),
        }
    }

    /// In-memory entries carry distinct labels.
    pub open spec fn wf(&self) -> bool {
        match self {
            SecretStore::Memory(v) => forall|i: int, j: int|
                0 <= i < j < self.mem().len() ==> (#[trigger] self.mem()[i].label) != (
                #[trigger] self.mem()[j].label),
            SecretStore::Keyring => true,
        }
    }

    /// An empty in-memory store.
    pub fn new_memory() -> (r: SecretStore)
        ensures
            r is Memory,
            r.mem() =~= Seq::<SecretEntryV>::empty(),
            r.wf(),
    {
        SecretStore::Memory(Vec::new())
    }

    /// The position of the entry labelled `label` in an in-memory store.
    fn mem_find(v: &Vec<SecretEntry>, label: &str) -> (r: Option<usize>)
        ensures
            match r {
                Option::Some(i) => i < v@.len() && v@.map_values(|e: SecretEntry| e@)[i as int].label
                    == label@,
                Option::None => !mem_has(v@.map_values(|e: SecretEntry| e@), label@),
            },
    {
        let ghost mv = v@.map_values(|e: SecretEntry| e@);
        let n = v.len();
        let mut i: usize = 0;
        while i < n
            invariant
                0 <= i <= n,
                n == mv.len(),
                mv == v@.map_values(|e: SecretEntry| e@),
                forall|j: int| 0 <= j < i ==> (#[trigger] mv[j].label) != label@,
            decreases n - i,
        {
            if crate::chars::str_eq(v[i].label.as_str(), label) {
                return Some(i);
            }
            i = i + 1;
        }
        proof {
            if mem_has(mv, label@) {
                let j = choose|j: int| 0 <= j < mv.len() && (#[trigger] mv[j].label) == label@;
                assert(mv[j].label != label@);
            }
        }
        None
    }

    /// Store `secret` under `label`.  In memory the label maps to exactly
    /// this value afterwards and every other label keeps its value.
    pub fn set(&mut self, label: &str, secret: &str) -> (r: Result<(), ()>)
        requires
            old(self).wf(),
        ensures
            final(self).wf(),
            (*old(self)) is Keyring ==> (*final(self)) is Keyring,
            (*old(self)) is Memory ==> (*final(self)) is Memory && r is Ok && mem_lookup(
                final(self).mem(),
                label@,
            ) == Some(secret@) && (forall|l: Seq<char>|
                l != label@ ==> #[trigger] mem_lookup(final(self).mem(), l) == mem_lookup(
                    old(self).mem(),
                    l,
                )),
    {
        match self {
            SecretStore::Keyring => keyring_set(label, secret),
            SecretStore::Memory(v) => {
                let ghost mv = v@.map_values(|e: SecretEntry| e@);
                let entry = SecretEntry {
                    label: String::from_str(label),
                    value: String::from_str(secret),
                };
                match Self::mem_find(v, label) {
                    Option::Some(i) => {
                        let _removed = v.remove(i);
                        proof {
                            assert(v@.map_values(|e: SecretEntry| e@) =~= mv.remove(i as int));
                            lemma_mem_remove_shape(mv, label@, i as int);
                        }
                        v.push(entry);
                        proof {
                            let nv = v@.map_values(|e: SecretEntry| e@);
                            assert(nv[nv.len() - 1].label == label@);
                            assert(nv[nv.len() - 1].value == secret@);
                            assert(nv.drop_last() =~= mv.remove(i as int));
                            lemma_mem_set_shape(mv, nv, label@, secret@);
                        }
                    },
                    Option::None => {
                        proof {
                            lemma_mem_lookup_has(mv, label@);
                        }
                        v.push(entry);
                        proof {
                            let nv = v@.map_values(|e: SecretEntry| e@);
                            assert(nv[nv.len() - 1].label == label@);
                            assert(nv[nv.len() - 1].value == secret@);
                            assert(nv.drop_last() =~= mv);
                            lemma_mem_set_shape(mv, nv, label@, secret@);
                        }
                    },
                }
                Ok(())
            },
        }
    }

    /// Read the secret under `label`: in memory, exactly the stored value.
    pub fn get(&self, label: &str) -> (r: Result<Option<String>, ()>)
        requires
            self.wf(),
        ensures
            self is Memory ==> (r matches Ok(o) && (match o {
                Option::Some(s) => mem_lookup(self.mem(), label@) == Some(s@),
                Option::None => mem_lookup(self.mem(), label@) is None,
            })),
    {
        match self {
            SecretStore::Keyring => keyring_get(label),
            SecretStore::Memory(v) => {
                proof {
                    lemma_mem_lookup_has(v@.map_values(|e: SecretEntry| e@), label@);
                }
                match Self::mem_find(v, label) {
                    Option::Some(i) => {
                        proof {
                            lemma_mem_lookup_at(
                                v@.map_values(|e: SecretEntry| e@),
                                label@,
                                i as int,
                            );
                        }
                        Ok(
                            Some(
                                crate::chars::chars_to_string(
                                    &crate::chars::str_to_chars(v[i].value.as_str()),
                                ),
                            ),
                        )
                    },
                    Option::None => Ok(None),
                }
            },
        }
    }

    /// Remove the secret under `label`; a missing entry counts as done.
    pub fn delete(&mut self, label: &str) -> (r: Result<(), ()>)
        requires
            old(self).wf(),
        ensures
            final(self).wf(),
            (*old(self)) is Keyring ==> (*final(self)) is Keyring,
            (*old(self)) is Memory ==> (*final(self)) is Memory && r is Ok && mem_lookup(
                final(self).mem(),
                label@,
            ) is None && (forall|l: Seq<char>|
                l != label@ ==> #[trigger] mem_lookup(final(self).mem(), l) == mem_lookup(
                    old(self).mem(),
                    l,
                )),
    {
        match self {
            SecretStore::Keyring => keyring_delete(label),
            SecretStore::Memory(v) => {
                let ghost mv = v@.map_values(|e: SecretEntry| e@);
                match Self::mem_find(v, label) {
                    Option::Some(i) => {
                        let _old = v.remove(i);
                        proof {
                            let nv = v@.map_values(|e: SecretEntry| e@);
                            assert(nv =~= mv.remove(i as int));
                            lemma_mem_remove_shape(mv, label@, i as int);
                        }
                    },
                    Option::None => {
                        proof {
                            lemma_mem_lookup_has(mv, label@);
                        }
                    },
                }
                Ok(())
            },
        }
    }
}

/// Looking up the label found at `i` yields that entry's value, when labels
/// are unique.
proof fn lemma_mem_lookup_at(s: Seq<SecretEntryV>, l: Seq<char>, i: int)
    requires
        0 <= i < s.len(),
        s[i].label == l,
        forall|a: int, b: int|
            0 <= a < b < s.len() ==> (#[trigger] s[a].label) != (#[trigger] s[b].label),
    ensures
        mem_lookup(s, l) == Some(s[i].value),
    decreases s.len(),
{
    if s[0].label == l {
        assert(i == 0) by {
            if i > 0 {
                assert(s[0].label != s[i].label);
            }
        }
    } else {
        assert(i > 0);
        assert(s.drop_first()[i - 1] == s[i]);
        assert(forall|a: int, b: int|
            0 <= a < b < s.drop_first().len() ==> (#[trigger] s.drop_first()[a].label) != (
            #[trigger] s.drop_first()[b].label)) by {
            assert(forall|a: int|
                0 <= a < s.drop_first().len() ==> (#[trigger] s.drop_first()[a]) == s[a + 1]);
        }
        lemma_mem_lookup_at(s.drop_first(), l, i - 1);
    }
}

/// After removing the only entry labelled `l` from a unique table, `l` is
/// gone and the other labels read as before.
proof fn lemma_mem_remove_shape(s: Seq<SecretEntryV>, l: Seq<char>, i: int)
    requires
        0 <= i < s.len(),
        s[i].label == l,
        forall|a: int, b: int|
            0 <= a < b < s.len() ==> (#[trigger] s[a].label) != (#[trigger] s[b].label),
    ensures
        mem_lookup(s.remove(i), l) is None,
        forall|x: Seq<char>|
            x != l ==> #[trigger] mem_lookup(s.remove(i), x) == mem_lookup(s, x),
        forall|a: int, b: int|
            0 <= a < b < s.remove(i).len() ==> (#[trigger] s.remove(i)[a].label) != (
            #[trigger] s.remove(i)[b].label),
    decreases s.len(),
{
    let r = s.remove(i);
    assert(forall|a: int| 0 <= a < i ==> (#[trigger] r[a]) == s[a]);
    assert(forall|a: int| i <= a < r.len() ==> (#[trigger] r[a]) == s[a + 1]);
    assert(forall|a: int, b: int|
        0 <= a < b < r.len() ==> (#[trigger] r[a].label) != (#[trigger] r[b].label)) by {
        assert(forall|a: int| 0 <= a < r.len() ==> (#[trigger] r[a]) == s[if a < i {
            a
        } else {
            a + 1
        }]);
    }
    assert(mem_lookup(r, l) is None) by {
        lemma_mem_lookup_has(r, l);
        if mem_has(r, l) {
            let a = choose|a: int| 0 <= a < r.len() && (#[trigger] r[a].label) == l;
            if a < i {
                assert(s[a].label == l && s[i].label == l);
            } else {
                assert(s[a + 1].label == l && s[i].label == l);
            }
        }
    }
    assert forall|x: Seq<char>| x != l implies #[trigger] mem_lookup(r, x) == mem_lookup(
        s,
        x,
    ) by {
        lemma_mem_lookup_agrees(s, r, i, x);
    }
}

/// Removing position `i` does not change what any other label reads as.
proof fn lemma_mem_lookup_agrees(s: Seq<SecretEntryV>, r: Seq<SecretEntryV>, i: int, x: Seq<char>)
    requires
        0 <= i < s.len(),
        r == s.remove(i),
        s[i].label != x,
    ensures
        mem_lookup(r, x) == mem_lookup(s, x),
    decreases s.len(),
{
    if s.len() == 0 {
    } else if i == 0 {
        assert(r =~= s.drop_first());
    } else {
        assert(r[0] == s[0]);
        assert(r.drop_first() =~= s.drop_first().remove(i - 1));
        if s[0].label == x {
        } else {
            lemma_mem_lookup_agrees(s.drop_first(), r.drop_first(), i - 1, x);
        }
    }
}

/// After a removal (if the label was present) followed by a push of the new
/// entry, the new label reads as the new value, other labels as before, and
/// labels stay unique.
proof fn lemma_mem_set_shape(mv: Seq<SecretEntryV>, nv: Seq<SecretEntryV>, l: Seq<char>, s: Seq<
    char,
>)
    requires
        nv.len() >= 1,
        nv[nv.len() - 1].label == l,
        nv[nv.len() - 1].value == s,
        mem_lookup(nv.drop_last(), l) is None,
        forall|x: Seq<char>|
            x != l ==> #[trigger] mem_lookup(nv.drop_last(), x) == mem_lookup(mv, x),
        forall|a: int, b: int|
            0 <= a < b < nv.len() - 1 ==> (#[trigger] nv.drop_last()[a].label) != (
            #[trigger] nv.drop_last()[b].label),
    ensures
        mem_lookup(nv, l) == Some(s),
        forall|x: Seq<char>| x != l ==> #[trigger] mem_lookup(nv, x) == mem_lookup(mv, x),
        forall|a: int, b: int|
            0 <= a < b < nv.len() ==> (#[trigger] nv[a].label) != (#[trigger] nv[b].label),
{
    lemma_mem_lookup_push(nv.drop_last(), l, s, l);
    assert(nv =~= nv.drop_last().push(nv[nv.len() - 1]));
    assert(nv.drop_last().push(SecretEntryV { label: l, value: s }) =~= nv);
    assert forall|x: Seq<char>| x != l implies #[trigger] mem_lookup(nv, x) == mem_lookup(
        mv,
        x,
    ) by {
        lemma_mem_lookup_push(nv.drop_last(), l, s, x);
    }
    assert forall|a: int, b: int| 0 <= a < b < nv.len() implies (#[trigger] nv[a].label) != (
    #[trigger] nv[b].label) by {
        if b == nv.len() - 1 {
            if nv[a].label == l {
                lemma_mem_lookup_at(nv.drop_last(), l, a);
            }
        }
    }
}

/// What a push reads as: the pushed label reads the pushed value where the
/// table had none, and other labels read as before.
proof fn lemma_mem_lookup_push(t: Seq<SecretEntryV>, l: Seq<char>, s: Seq<char>, x: Seq<char>)
    requires
        mem_lookup(t, l) is None,
    ensures
        x == l ==> mem_lookup(t.push(SecretEntryV { label: l, value: s }), x) == Some(s),
        x != l ==> mem_lookup(t.push(SecretEntryV { label: l, value: s }), x) == mem_lookup(t, x),
    decreases t.len(),
{
    let p = t.push(SecretEntryV { label: l, value: s });
    if t.len() == 0 {
        assert(p[0] == SecretEntryV { label: l, value: s });
        assert(p.drop_first() =~= Seq::<SecretEntryV>::empty());
    } else {
        assert(p[0] == t[0]);
        assert(p.drop_first() =~= t.drop_first().push(SecretEntryV { label: l, value: s }));
        if t[0].label == l {
            assert(mem_lookup(t, l) is Some);
        } else {
            lemma_mem_lookup_push(t.drop_first(), l, s, x);
            if x != l {
                if t[0].label == x {
                    assert(mem_lookup(p, x) == Some(p[0].value));
                    assert(mem_lookup(t, x) == Some(t[0].value));
                } else {
                    assert(mem_lookup(p, x) == mem_lookup(p.drop_first(), x));
                    assert(mem_lookup(t, x) == mem_lookup(t.drop_first(), x));
                }
            }
        }
    }
}

/// Store a secret under a label in the OS keyring.  The index never holds
/// private material; this is the only place secrets go.
pub fn set(store: &mut SecretStore, label: &str, secret: &str) -> (r: Result<(), ()>)
    requires
        old(store).wf(),
    ensures
        final(store).wf(),
        (*old(store)) is Keyring ==> (*final(store)) is Keyring,
        (*old(store)) is Memory ==> r is Ok && (*final(store)) is Memory && mem_lookup(
            final(store).mem(),
            label@,
        ) == Some(secret@) && (forall|l: Seq<char>|
            l != label@ ==> #[trigger] mem_lookup(final(store).mem(), l) == mem_lookup(
                old(store).mem(),
                l,
            )),
{
    store.set(label, secret)
}

} // verus!
