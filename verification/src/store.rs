//! The storage operations and their semantics.
//!
//! A [`Storage`] value models the whole layer: a family of datastores,
//! each a flat namespace of keys bound to byte values. Its view is a map
//! from datastore name to a map from key to bytes, and every operation's
//! contract is stated against that view through the transition functions
//! ([`ensured`], [`with_put`], [`with_delete`], [`value_of`], ...).
//!
//! Every operation validates the names it was given first and fails with
//! the matching error before anything else happens; on success, a
//! referenced datastore exists afterwards even when it was never written
//! (it is created lazily on any access, as a directory would be).

use vstd::prelude::*;
use vstd::string::StringExecFns;
use vstd::utf8::{encode_utf8, valid_utf8};

use crate::errors::{
    is_decode_error, is_invalid_datastore_error, is_invalid_key_error, StorageError,
};
use crate::names::{valid_name, validate_name};
use crate::text::{decode_bytes, encode_string};

verus! {

/// The model of the whole layer: datastore name to key to bytes.
pub type StoreView = Map<Seq<char>, Map<Seq<char>, Seq<u8>>>;

// ---------------------------------------------------------------------
// Transition functions: what each operation does to the model.
// ---------------------------------------------------------------------

/// The model after an access to datastore `d`: `d` exists afterwards,
/// empty when it did not exist before, untouched when it did.
pub open spec fn ensured(m: StoreView, d: Seq<char>) -> StoreView {
    if m.dom().contains(d) {
        m
    } else {
        m.insert(d, Map::empty())
    }
}

/// The bytes bound to key `k` of datastore `d`, or `None` when the key
/// (or the whole datastore) does not exist.
pub open spec fn value_of(m: StoreView, d: Seq<char>, k: Seq<char>) -> Option<Seq<u8>> {
    if m.dom().contains(d) && m[d].dom().contains(k) {
        Some(m[d][k])
    } else {
        None
    }
}

/// True when key `k` of datastore `d` exists.
pub open spec fn has_entry(m: StoreView, d: Seq<char>, k: Seq<char>) -> bool {
    value_of(m, d, k) is Some
}

/// The model after a write of `v` under key `k` of datastore `d`: any
/// previous binding of `k` is overwritten, everything else is untouched.
pub open spec fn with_put(m: StoreView, d: Seq<char>, k: Seq<char>, v: Seq<u8>) -> StoreView {
    ensured(m, d).insert(d, ensured(m, d)[d].insert(k, v))
}

/// The model after a delete of key `k` of datastore `d`: the binding is
/// gone whether or not it existed, everything else is untouched.
pub open spec fn with_delete(m: StoreView, d: Seq<char>, k: Seq<char>) -> StoreView {
    ensured(m, d).insert(d, ensured(m, d)[d].remove(k))
}

/// The keys that exist in datastore `d` (empty when the datastore does
/// not exist).
pub open spec fn key_set(m: StoreView, d: Seq<char>) -> Set<Seq<char>> {
    ensured(m, d)[d].dom()
}

/// The values of `dm` listed in the order of some arrangement `ks` of its
/// keys.
pub open spec fn values_of(dm: Map<Seq<char>, Seq<u8>>, ks: Seq<Seq<char>>) -> Seq<Seq<u8>> {
    ks.map_values(|k: Seq<char>| dm[k])
}

/// True when `vals` lists the value of every key of `dm` exactly once, in
/// some unspecified order. Nothing relates that order to the order any
/// key enumeration uses: the two are independent.
pub open spec fn is_enumeration(dm: Map<Seq<char>, Seq<u8>>, vals: Seq<Seq<u8>>) -> bool {
    exists|ks: Seq<Seq<char>>|
        ks.no_duplicates() && ks.to_set() == dm.dom() && vals == values_of(dm, ks)
}

// ---------------------------------------------------------------------
// Representation: association lists, so that enumeration is definite.
// ---------------------------------------------------------------------

/// One entry: the key names a regular file, the value is its bytes.
struct Entry {
    key: String,
    value: Vec<u8>,
}

/// One datastore: a named flat namespace of entries.
struct Datastore {
    name: String,
    entries: Vec<Entry>,
}

/// The state of the whole storage layer.
pub struct Storage {
    stores: Vec<Datastore>,
}

/// The value bound to `k` among `es`: the first entry whose key is `k`.
spec fn find_entry(es: Seq<Entry>, k: Seq<char>) -> Option<Seq<u8>>
    decreases es.len(),
{
    if es.len() == 0 {
        None
    } else if es[0].key@ == k {
        Some(es[0].value@)
    } else {
        find_entry(es.drop_first(), k)
    }
}

/// The keys of `es`, in entry order.
spec fn entry_keys(es: Seq<Entry>) -> Seq<Seq<char>> {
    es.map_values(|e: Entry| e.key@)
}

/// The map an entry list denotes.
spec fn entries_map(es: Seq<Entry>) -> Map<Seq<char>, Seq<u8>> {
    Map::new(
        |k: Seq<char>| find_entry(es, k) is Some,
        |k: Seq<char>| find_entry(es, k).unwrap(),
    )
}

/// Entry lists keep valid keys and never bind a key twice.
spec fn entries_wf(es: Seq<Entry>) -> bool {
    &&& forall|i: int| 0 <= i < es.len() ==> valid_name(#[trigger] es[i].key@)
    &&& forall|i: int, j: int|
        0 <= i < j < es.len() ==> (#[trigger] es[i].key@) != (#[trigger] es[j].key@)
}

impl View for Datastore {
    type V = Map<Seq<char>, Seq<u8>>;

    closed spec fn view(&self) -> Map<Seq<char>, Seq<u8>> {
        entries_map(self.entries@)
    }
}

impl Datastore {
    spec fn wf(&self) -> bool {
        valid_name(self.name@) && entries_wf(self.entries@)
    }
}

/// The datastore named `n` among `ss`: the first one with that name.
spec fn find_ds(ss: Seq<Datastore>, n: Seq<char>) -> Option<Datastore>
    decreases ss.len(),
{
    if ss.len() == 0 {
        None
    } else if ss[0].name@ == n {
        Some(ss[0])
    } else {
        find_ds(ss.drop_first(), n)
    }
}

/// The model a datastore list denotes.
spec fn stores_map(ss: Seq<Datastore>) -> StoreView {
    Map::new(
        |n: Seq<char>| find_ds(ss, n) is Some,
        |n: Seq<char>| find_ds(ss, n).unwrap()@,
    )
}

/// Datastore lists keep valid, pairwise distinct names, and every
/// datastore is itself well formed.
spec fn stores_wf(ss: Seq<Datastore>) -> bool {
    &&& forall|i: int| 0 <= i < ss.len() ==> (#[trigger] ss[i]).wf()
    &&& forall|i: int, j: int|
        0 <= i < j < ss.len() ==> (#[trigger] ss[i].name@) != (#[trigger] ss[j].name@)
}

impl View for Storage {
    type V = StoreView;

    closed spec fn view(&self) -> StoreView {
        stores_map(self.stores@)
    }
}

// ---------------------------------------------------------------------
// Lemmas relating list surgery to the denoted maps.
// ---------------------------------------------------------------------

proof fn lemma_find_entry_at(es: Seq<Entry>, i: int)
    requires
        0 <= i < es.len(),
        forall|j: int| 0 <= j < i ==> (#[trigger] es[j].key@) != es[i].key@,
    ensures
        find_entry(es, es[i].key@) == Some(es[i].value@),
    decreases i,
{
    if i > 0 {
        let rest = es.drop_first();
        assert forall|j: int| 0 <= j < i - 1 implies (#[trigger] rest[j].key@) != rest[i - 1].key@
        by {
            assert(rest[j] == es[j + 1]);
            assert(rest[i - 1] == es[i]);
        }
        assert(rest[i - 1] == es[i]);
        lemma_find_entry_at(rest, i - 1);
    }
}

proof fn lemma_find_entry_absent(es: Seq<Entry>, k: Seq<char>)
    requires
        forall|j: int| 0 <= j < es.len() ==> (#[trigger] es[j].key@) != k,
    ensures
        find_entry(es, k) is None,
    decreases es.len(),
{
    if es.len() > 0 {
        let rest = es.drop_first();
        assert forall|j: int| 0 <= j < rest.len() implies (#[trigger] rest[j].key@) != k by {
            assert(rest[j] == es[j + 1]);
        }
        lemma_find_entry_absent(rest, k);
    }
}

proof fn lemma_find_entry_push(es: Seq<Entry>, e: Entry, q: Seq<char>)
    ensures
        find_entry(es.push(e), q) == (if find_entry(es, q) is Some {
            find_entry(es, q)
        } else if q == e.key@ {
            Some(e.value@)
        } else {
            None::<Seq<u8>>
        }),
    decreases es.len(),
{
    if es.len() == 0 {
        assert(es.push(e)[0] == e);
        assert(es.push(e).drop_first() =~= Seq::<Entry>::empty());
    } else {
        assert(es.push(e)[0] == es[0]);
        assert(es.push(e).drop_first() =~= es.drop_first().push(e));
        lemma_find_entry_push(es.drop_first(), e, q);
    }
}

proof fn lemma_find_entry_update(es: Seq<Entry>, i: int, e: Entry, q: Seq<char>)
    requires
        0 <= i < es.len(),
        es[i].key@ == e.key@,
        forall|j: int| 0 <= j < es.len() && j != i ==> (#[trigger] es[j].key@) != e.key@,
    ensures
        find_entry(es.update(i, e), q) == (if q == e.key@ {
            Some(e.value@)
        } else {
            find_entry(es, q)
        }),
    decreases i,
{
    let up = es.update(i, e);
    if i == 0 {
        assert(up[0] == e);
        assert(up.drop_first() =~= es.drop_first());
    } else {
        assert(up[0] == es[0]);
        assert(up.drop_first() =~= es.drop_first().update(i - 1, e));
        let rest = es.drop_first();
        assert(rest[i - 1] == es[i]);
        assert forall|j: int| 0 <= j < rest.len() && j != i - 1 implies (#[trigger] rest[j].key@)
            != e.key@ by {
            assert(rest[j] == es[j + 1]);
        }
        lemma_find_entry_update(rest, i - 1, e, q);
    }
}

proof fn lemma_find_entry_remove(es: Seq<Entry>, i: int, q: Seq<char>)
    requires
        0 <= i < es.len(),
        forall|j: int| 0 <= j < es.len() && j != i ==> (#[trigger] es[j].key@) != es[i].key@,
    ensures
        find_entry(es.remove(i), q) == (if q == es[i].key@ {
            None::<Seq<u8>>
        } else {
            find_entry(es, q)
        }),
    decreases i,
{
    let re = es.remove(i);
    if i == 0 {
        assert(re =~= es.drop_first());
        if q == es[0].key@ {
            assert forall|j: int| 0 <= j < re.len() implies (#[trigger] re[j].key@) != q by {
                assert(re[j] == es[j + 1]);
            }
            lemma_find_entry_absent(re, q);
        }
    } else {
        assert(re[0] == es[0]);
        assert(re.drop_first() =~= es.drop_first().remove(i - 1));
        if q != es[0].key@ {
            let rest = es.drop_first();
            assert(rest[i - 1] == es[i]);
            assert forall|j: int| 0 <= j < rest.len() && j != i - 1 implies (#[trigger]
            rest[j].key@) != rest[i - 1].key@ by {
                assert(rest[j] == es[j + 1]);
            }
            lemma_find_entry_remove(rest, i - 1, q);
        }
    }
}

proof fn lemma_find_entry_exists(es: Seq<Entry>, q: Seq<char>)
    ensures
        find_entry(es, q) is Some <==> exists|i: int|
            0 <= i < es.len() && (#[trigger] es[i].key@) == q,
    decreases es.len(),
{
    if es.len() > 0 {
        let rest = es.drop_first();
        lemma_find_entry_exists(rest, q);
        if es[0].key@ != q {
            if find_entry(es, q) is Some {
                let i = choose|i: int| 0 <= i < rest.len() && (#[trigger] rest[i].key@) == q;
                assert(rest[i] == es[i + 1]);
                assert(es[i + 1].key@ == q);
            }
            if exists|i: int| 0 <= i < es.len() && (#[trigger] es[i].key@) == q {
                let i = choose|i: int| 0 <= i < es.len() && (#[trigger] es[i].key@) == q;
                assert(rest[i - 1] == es[i]);
            }
        }
    }
}

// Same battery, one level up: datastore lists.

proof fn lemma_find_ds_at(ss: Seq<Datastore>, i: int)
    requires
        0 <= i < ss.len(),
        forall|j: int| 0 <= j < i ==> (#[trigger] ss[j].name@) != ss[i].name@,
    ensures
        find_ds(ss, ss[i].name@) == Some(ss[i]),
    decreases i,
{
    if i > 0 {
        let rest = ss.drop_first();
        assert forall|j: int| 0 <= j < i - 1 implies (#[trigger] rest[j].name@) != rest[i
            - 1].name@ by {
            assert(rest[j] == ss[j + 1]);
            assert(rest[i - 1] == ss[i]);
        }
        assert(rest[i - 1] == ss[i]);
        lemma_find_ds_at(rest, i - 1);
    }
}

proof fn lemma_find_ds_absent(ss: Seq<Datastore>, n: Seq<char>)
    requires
        forall|j: int| 0 <= j < ss.len() ==> (#[trigger] ss[j].name@) != n,
    ensures
        find_ds(ss, n) is None,
    decreases ss.len(),
{
    if ss.len() > 0 {
        let rest = ss.drop_first();
        assert forall|j: int| 0 <= j < rest.len() implies (#[trigger] rest[j].name@) != n by {
            assert(rest[j] == ss[j + 1]);
        }
        lemma_find_ds_absent(rest, n);
    }
}

proof fn lemma_find_ds_push(ss: Seq<Datastore>, d: Datastore, q: Seq<char>)
    ensures
        find_ds(ss.push(d), q) == (if find_ds(ss, q) is Some {
            find_ds(ss, q)
        } else if q == d.name@ {
            Some(d)
        } else {
            None::<Datastore>
        }),
    decreases ss.len(),
{
    if ss.len() == 0 {
        assert(ss.push(d)[0] == d);
        assert(ss.push(d).drop_first() =~= Seq::<Datastore>::empty());
    } else {
        assert(ss.push(d)[0] == ss[0]);
        assert(ss.push(d).drop_first() =~= ss.drop_first().push(d));
        lemma_find_ds_push(ss.drop_first(), d, q);
    }
}

proof fn lemma_find_ds_update(ss: Seq<Datastore>, i: int, d: Datastore, q: Seq<char>)
    requires
        0 <= i < ss.len(),
        ss[i].name@ == d.name@,
        forall|j: int| 0 <= j < ss.len() && j != i ==> (#[trigger] ss[j].name@) != d.name@,
    ensures
        find_ds(ss.update(i, d), q) == (if q == d.name@ {
            Some(d)
        } else {
            find_ds(ss, q)
        }),
    decreases i,
{
    let up = ss.update(i, d);
    if i == 0 {
        assert(up[0] == d);
        assert(up.drop_first() =~= ss.drop_first());
    } else {
        assert(up[0] == ss[0]);
        assert(up.drop_first() =~= ss.drop_first().update(i - 1, d));
        let rest = ss.drop_first();
        assert(rest[i - 1] == ss[i]);
        assert forall|j: int| 0 <= j < rest.len() && j != i - 1 implies (#[trigger]
        rest[j].name@) != d.name@ by {
            assert(rest[j] == ss[j + 1]);
        }
        lemma_find_ds_update(rest, i - 1, d, q);
    }
}

// ---------------------------------------------------------------------
// Executable helpers.
// ---------------------------------------------------------------------

/// A fresh vector with the same bytes.
fn clone_bytes(v: &Vec<u8>) -> (r: Vec<u8>)
    ensures
        r@ == v@,
{
    let mut r: Vec<u8> = Vec::new();
    let n = v.len();
    let mut i: usize = 0;
    while i < n
        invariant
            n == v@.len(),
            0 <= i <= n,
            r@.len() == i,
            forall|j: int| 0 <= j < i ==> r@[j] == v@[j],
        decreases n - i,
    {
        r.push(v[i]);
        i += 1;
    }
    proof {
        assert(r@ =~= v@);
    }
    r
}

/// The position of the entry bound to `key`, if one exists.
fn find_entry_index(entries: &Vec<Entry>, key: &String) -> (r: Option<usize>)
    ensures
        match r {
            Some(i) => i < entries@.len() && entries@[i as int].key@ == key@ && (forall|j: int|
                0 <= j < i ==> (#[trigger] entries@[j].key@) != key@),
            None => forall|j: int|
                0 <= j < entries@.len() ==> (#[trigger] entries@[j].key@) != key@,
        },
{
    let n = entries.len();
    let mut i: usize = 0;
    while i < n
        invariant
            n == entries@.len(),
            0 <= i <= n,
            forall|j: int| 0 <= j < i ==> (#[trigger] entries@[j].key@) != key@,
        decreases n - i,
    {
        let e = &entries[i];
        if e.key == *key {
            return Some(i);
        }
        i += 1;
    }
    None
}

impl Datastore {
    /// Binds `value` to `key`, overwriting any previous binding.
    fn put_entry(&mut self, key: &String, value: Vec<u8>)
        requires
            old(self).wf(),
            valid_name(key@),
        ensures
            final(self).wf(),
            final(self).name@ == old(self).name@,
            final(self)@ == old(self)@.insert(key@, value@),
    {
        let ghost es0 = self.entries@;
        match find_entry_index(&self.entries, key) {
            Some(i) => {
                let e = Entry { key: key.clone(), value };
                self.entries.set(i, e);
                proof {
                    let es1 = self.entries@;
                    assert forall|j: int|
                        0 <= j < es0.len() && j != i as int implies (#[trigger] es0[j].key@)
                        != key@ by {
                        if j < i as int {
                            assert(es0[j].key@ != es0[i as int].key@);
                        } else {
                            assert(es0[i as int].key@ != es0[j].key@);
                        }
                    }
                    assert forall|q: Seq<char>| find_entry(es1, q) == (if q == key@ {
                        Some(value@)
                    } else {
                        #[trigger] find_entry(es0, q)
                    }) by {
                        lemma_find_entry_update(es0, i as int, es1[i as int], q);
                    }
                    assert(entries_map(es1) =~= entries_map(es0).insert(key@, value@));
                    assert forall|a: int, b: int| 0 <= a < b < es1.len() implies (#[trigger]
                    es1[a].key@) != (#[trigger] es1[b].key@) by {
                        assert(es0[a].key@ != es0[b].key@);
                    }
                    assert forall|a: int| 0 <= a < es1.len() implies valid_name(
                        #[trigger] es1[a].key@,
                    ) by {
                        assert(valid_name(es0[a].key@));
                    }
                }
            },
            None => {
                let e = Entry { key: key.clone(), value };
                self.entries.push(e);
                proof {
                    let es1 = self.entries@;
                    lemma_find_entry_absent(es0, key@);
                    assert forall|q: Seq<char>| find_entry(es1, q) == (if q == key@ {
                        Some(value@)
                    } else {
                        #[trigger] find_entry(es0, q)
                    }) by {
                        lemma_find_entry_push(es0, es1[es0.len() as int], q);
                    }
                    assert(entries_map(es1) =~= entries_map(es0).insert(key@, value@));
                    assert forall|a: int, b: int| 0 <= a < b < es1.len() implies (#[trigger]
                    es1[a].key@) != (#[trigger] es1[b].key@) by {
                        if b < es0.len() {
                            assert(es0[a].key@ != es0[b].key@);
                        } else {
                            assert(es1[b].key@ == key@);
                            assert(es0[a].key@ != key@);
                        }
                    }
                    assert forall|a: int| 0 <= a < es1.len() implies valid_name(
                        #[trigger] es1[a].key@,
                    ) by {
                        if a < es0.len() {
                            assert(valid_name(es0[a].key@));
                        }
                    }
                }
            },
        }
    }

    /// Removes the binding of `key`; removing an absent binding is
    /// already satisfied and changes nothing.
    fn delete_entry(&mut self, key: &String)
        requires
            old(self).wf(),
        ensures
            final(self).wf(),
            final(self).name@ == old(self).name@,
            final(self)@ == old(self)@.remove(key@),
    {
        let ghost es0 = self.entries@;
        match find_entry_index(&self.entries, key) {
            Some(i) => {
                self.entries.remove(i);
                proof {
                    let es1 = self.entries@;
                    assert forall|j: int|
                        0 <= j < es0.len() && j != i as int implies (#[trigger] es0[j].key@)
                        != es0[i as int].key@ by {
                        if j < i as int {
                            assert(es0[j].key@ != es0[i as int].key@);
                        } else {
                            assert(es0[i as int].key@ != es0[j].key@);
                        }
                    }
                    assert forall|q: Seq<char>| find_entry(es1, q) == (if q == key@ {
                        None::<Seq<u8>>
                    } else {
                        #[trigger] find_entry(es0, q)
                    }) by {
                        lemma_find_entry_remove(es0, i as int, q);
                    }
                    assert(entries_map(es1) =~= entries_map(es0).remove(key@));
                    assert forall|a: int, b: int| 0 <= a < b < es1.len() implies (#[trigger]
                    es1[a].key@) != (#[trigger] es1[b].key@) by {
                        if b < i as int {
                            assert(es1[a] == es0[a]);
                            assert(es1[b] == es0[b]);
                        } else if a < i as int {
                            assert(es1[a] == es0[a]);
                            assert(es1[b] == es0[b + 1]);
                        } else {
                            assert(es1[a] == es0[a + 1]);
                            assert(es1[b] == es0[b + 1]);
                        }
                    }
                    assert forall|a: int| 0 <= a < es1.len() implies valid_name(
                        #[trigger] es1[a].key@,
                    ) by {
                        if a < i as int {
                            assert(valid_name(es0[a].key@));
                        } else {
                            assert(es1[a] == es0[a + 1]);
                            assert(valid_name(es0[a + 1].key@));
                        }
                    }
                }
            },
            None => {
                proof {
                    lemma_find_entry_absent(es0, key@);
                    assert(entries_map(es0) =~= entries_map(es0).remove(key@));
                }
            },
        }
    }

    /// The bytes bound to `key`, if any.
    fn get_entry(&self, key: &String) -> (r: Option<Vec<u8>>)
        ensures
            match r {
                Some(v) => self@.dom().contains(key@) && self@[key@] == v@,
                None => !self@.dom().contains(key@),
            },
    {
        match find_entry_index(&self.entries, key) {
            Some(i) => {
                proof {
                    lemma_find_entry_at(self.entries@, i as int);
                }
                let e = &self.entries[i];
                Some(clone_bytes(&e.value))
            },
            None => {
                proof {
                    lemma_find_entry_absent(self.entries@, key@);
                }
                None
            },
        }
    }

    /// True when `key` is bound.
    fn has_entry(&self, key: &String) -> (r: bool)
        ensures
            r == self@.dom().contains(key@),
    {
        match find_entry_index(&self.entries, key) {
            Some(i) => {
                proof {
                    lemma_find_entry_at(self.entries@, i as int);
                }
                true
            },
            None => {
                proof {
                    lemma_find_entry_absent(self.entries@, key@);
                }
                false
            },
        }
    }

    /// Every key, each exactly once, in no promised order.
    fn key_list(&self) -> (r: Vec<String>)
        requires
            self.wf(),
        ensures
            r.deep_view().to_set() == self@.dom(),
            r.deep_view().no_duplicates(),
            forall|j: int| 0 <= j < r.deep_view().len() ==> valid_name(#[trigger] r.deep_view()[j]),
    {
        let mut r: Vec<String> = Vec::new();
        let n = self.entries.len();
        let mut i: usize = 0;
        while i < n
            invariant
                n == self.entries@.len(),
                0 <= i <= n,
                r@.len() == i,
                forall|j: int| 0 <= j < i ==> (#[trigger] r@[j])@ == self.entries@[j].key@,
            decreases n - i,
        {
            let e = &self.entries[i];
            r.push(e.key.clone());
            i += 1;
        }
        proof {
            let es = self.entries@;
            let ks = r.deep_view();
            assert(ks.len() == es.len());
            assert(forall|j: int| 0 <= j < ks.len() ==> #[trigger] ks[j] == es[j].key@);
            assert forall|q: Seq<char>| #[trigger] ks.to_set().contains(q) implies self@.dom().contains(
                q,
            ) by {
                let j = choose|j: int| 0 <= j < ks.len() && ks[j] == q;
                lemma_find_entry_exists(es, q);
                assert(es[j].key@ == q);
            }
            assert forall|q: Seq<char>| #[trigger] self@.dom().contains(q) implies ks.to_set().contains(
                q,
            ) by {
                lemma_find_entry_exists(es, q);
                let j = choose|j: int| 0 <= j < es.len() && (#[trigger] es[j].key@) == q;
                assert(ks[j] == q);
            }
            assert(ks.to_set() =~= self@.dom());
            assert forall|a: int, b: int|
                0 <= a < ks.len() && 0 <= b < ks.len() && a != b implies ks[a] != ks[b] by {
                if a < b {
                    assert(es[a].key@ != es[b].key@);
                } else {
                    assert(es[b].key@ != es[a].key@);
                }
            }
        }
        r
    }

    /// The value of every key, each exactly once, in no promised order;
    /// nothing relates that order to the order `key_list` uses.
    fn value_list(&self) -> (r: Vec<Vec<u8>>)
        requires
            self.wf(),
        ensures
            is_enumeration(self@, r.deep_view()),
    {
        let mut r: Vec<Vec<u8>> = Vec::new();
        let n = self.entries.len();
        let mut i: usize = 0;
        while i < n
            invariant
                n == self.entries@.len(),
                0 <= i <= n,
                r@.len() == i,
                forall|j: int| 0 <= j < i ==> (#[trigger] r@[j])@ == self.entries@[j].value@,
            decreases n - i,
        {
            let e = &self.entries[i];
            r.push(clone_bytes(&e.value));
            i += 1;
        }
        proof {
            let es = self.entries@;
            let ks = entry_keys(es);
            assert(ks.len() == es.len());
            assert(forall|j: int| 0 <= j < ks.len() ==> #[trigger] ks[j] == es[j].key@);
            assert forall|q: Seq<char>| #[trigger] ks.to_set().contains(q) implies self@.dom().contains(
                q,
            ) by {
                let j = choose|j: int| 0 <= j < ks.len() && ks[j] == q;
                lemma_find_entry_exists(es, q);
                assert(es[j].key@ == q);
            }
            assert forall|q: Seq<char>| #[trigger] self@.dom().contains(q) implies ks.to_set().contains(
                q,
            ) by {
                lemma_find_entry_exists(es, q);
                let j = choose|j: int| 0 <= j < es.len() && (#[trigger] es[j].key@) == q;
                assert(ks[j] == q);
            }
            assert(ks.to_set() =~= self@.dom());
            assert forall|a: int, b: int|
                0 <= a < ks.len() && 0 <= b < ks.len() && a != b implies ks[a] != ks[b] by {
                if a < b {
                    assert(es[a].key@ != es[b].key@);
                } else {
                    assert(es[b].key@ != es[a].key@);
                }
            }
            assert forall|j: int| 0 <= j < es.len() implies #[trigger] values_of(self@, ks)[j]
                == r.deep_view()[j] by {
                lemma_find_entry_at(es, j);
                assert(self@[ks[j]] == es[j].value@);
            }
            assert(r.deep_view() =~= values_of(self@, ks));
            assert(ks.no_duplicates() && ks.to_set() == self@.dom() && r.deep_view() == values_of(
                self@,
                ks,
            ));
            assert(is_enumeration(self@, r.deep_view()));
        }
        r
    }
}

/// The position of the datastore named `name`, if one exists.
fn find_store_index(stores: &Vec<Datastore>, name: &String) -> (r: Option<usize>)
    ensures
        match r {
            Some(i) => i < stores@.len() && stores@[i as int].name@ == name@ && (forall|j: int|
                0 <= j < i ==> (#[trigger] stores@[j].name@) != name@),
            None => forall|j: int|
                0 <= j < stores@.len() ==> (#[trigger] stores@[j].name@) != name@,
        },
{
    let n = stores.len();
    let mut i: usize = 0;
    while i < n
        invariant
            n == stores@.len(),
            0 <= i <= n,
            forall|j: int| 0 <= j < i ==> (#[trigger] stores@[j].name@) != name@,
        decreases n - i,
    {
        let ds = &stores[i];
        if ds.name == *name {
            return Some(i);
        }
        i += 1;
    }
    None
}

proof fn lemma_value_of_ensured(m: StoreView, d: Seq<char>, k: Seq<char>)
    ensures
        value_of(ensured(m, d), d, k) == value_of(m, d, k),
{
    if !m.dom().contains(d) {
        assert(ensured(m, d)[d] =~= Map::<Seq<char>, Seq<u8>>::empty());
    }
}

impl Storage {
    /// The structural invariant: datastore names are valid and pairwise
    /// distinct, and so are the keys inside each datastore.
    pub closed spec fn wf(&self) -> bool {
        stores_wf(self.stores@)
    }

    /// An empty storage state: no datastore exists yet.
    pub fn new() -> (s: Storage)
        ensures
            s.wf(),
            s@ == Map::<Seq<char>, Map<Seq<char>, Seq<u8>>>::empty(),
    {
        let s = Storage { stores: Vec::new() };
        proof {
            assert(s@ =~= Map::<Seq<char>, Map<Seq<char>, Seq<u8>>>::empty());
        }
        s
    }

    /// Finds the datastore named `name`, creating it empty when it does
    /// not exist, and returns its position.
    fn ensure_store(&mut self, name: &String) -> (i: usize)
        requires
            old(self).wf(),
            valid_name(name@),
        ensures
            final(self).wf(),
            final(self)@ == ensured(old(self)@, name@),
            i < final(self).stores@.len(),
            final(self).stores@[i as int].name@ == name@,
            forall|j: int|
                0 <= j < final(self).stores@.len() && j != i ==> (#[trigger] final(self).stores@[j].name@) != name@,
            final(self)@.dom().contains(name@),
            final(self)@[name@] == final(self).stores@[i as int]@,
    {
        let ghost ss0 = self.stores@;
        match find_store_index(&self.stores, name) {
            Some(i) => {
                proof {
                    lemma_find_ds_at(ss0, i as int);
                    assert(self@.dom().contains(name@));
                    assert forall|j: int|
                        0 <= j < ss0.len() && j != i as int implies (#[trigger] ss0[j].name@)
                        != name@ by {
                        if j < i as int {
                            assert(ss0[j].name@ != ss0[i as int].name@);
                        } else {
                            assert(ss0[i as int].name@ != ss0[j].name@);
                        }
                    }
                }
                i
            },
            None => {
                let i = self.stores.len();
                let ds = Datastore { name: name.clone(), entries: Vec::new() };
                self.stores.push(ds);
                proof {
                    let ss1 = self.stores@;
                    let d1 = ss1[ss0.len() as int];
                    lemma_find_ds_absent(ss0, name@);
                    assert(!stores_map(ss0).dom().contains(name@));
                    assert forall|q: Seq<char>| find_ds(ss1, q) == (if q == name@ {
                        Some(d1)
                    } else {
                        #[trigger] find_ds(ss0, q)
                    }) by {
                        lemma_find_ds_push(ss0, d1, q);
                    }
                    assert(d1@ =~= Map::<Seq<char>, Seq<u8>>::empty());
                    assert(stores_map(ss1) =~= stores_map(ss0).insert(
                        name@,
                        Map::<Seq<char>, Seq<u8>>::empty(),
                    ));
                    assert forall|a: int, b: int| 0 <= a < b < ss1.len() implies (#[trigger]
                    ss1[a].name@) != (#[trigger] ss1[b].name@) by {
                        if b < ss0.len() {
                            assert(ss0[a].name@ != ss0[b].name@);
                        } else {
                            assert(ss1[b].name@ == name@);
                            assert(ss0[a].name@ != name@);
                        }
                    }
                    assert forall|a: int| 0 <= a < ss1.len() implies (#[trigger] ss1[a]).wf() by {
                        if a < ss0.len() {
                            assert(ss0[a].wf());
                        }
                    }
                }
                i
            },
        }
    }
}

// ---------------------------------------------------------------------
// The storage operations.
// ---------------------------------------------------------------------

/// Lists the keys of `datastore`, creating it empty when it did not
/// exist. Every key appears exactly once; the order is unspecified.
pub fn storage_list(store: &mut Storage, datastore: &str) -> (r: Result<Vec<String>, StorageError>)
    requires
        old(store).wf(),
    ensures
        final(store).wf(),
        !valid_name(datastore@) ==> (r matches Err(e) && is_invalid_datastore_error(e, datastore@)
            && final(store)@ == old(store)@),
        valid_name(datastore@) ==> ({
            &&& final(store)@ == ensured(old(store)@, datastore@)
            &&& r matches Ok(keys) && keys.deep_view().to_set() == key_set(
                old(store)@,
                datastore@,
            ) && keys.deep_view().no_duplicates() && (forall|j: int|
                0 <= j < keys.deep_view().len() ==> valid_name(#[trigger] keys.deep_view()[j]))
        }),
{
    if !validate_name(datastore) {
        return Err(StorageError::invalid_datastore(datastore));
    }
    let name = String::from_str(datastore);
    let i = store.ensure_store(&name);
    let ds = &store.stores[i];
    let keys = ds.key_list();
    Ok(keys)
}

/// Reads the value of every key of `datastore`, creating it empty when it
/// did not exist. Every value appears exactly once; the order is
/// unspecified and independent of any key enumeration's order.
pub fn storage_all(store: &mut Storage, datastore: &str) -> (r: Result<Vec<Vec<u8>>, StorageError>)
    requires
        old(store).wf(),
    ensures
        final(store).wf(),
        !valid_name(datastore@) ==> (r matches Err(e) && is_invalid_datastore_error(e, datastore@)
            && final(store)@ == old(store)@),
        valid_name(datastore@) ==> ({
            &&& final(store)@ == ensured(old(store)@, datastore@)
            &&& r matches Ok(vals) && is_enumeration(
                ensured(old(store)@, datastore@)[datastore@],
                vals.deep_view(),
            )
        }),
{
    if !validate_name(datastore) {
        return Err(StorageError::invalid_datastore(datastore));
    }
    let name = String::from_str(datastore);
    let i = store.ensure_store(&name);
    let ds = &store.stores[i];
    let vals = ds.value_list();
    Ok(vals)
}

/// The bytes stored under `key` of `datastore`, or `None` when the key
/// was never written (a normal outcome, not an error). The datastore is
/// created empty when it did not exist.
pub fn storage_get(store: &mut Storage, datastore: &str, key: &str) -> (r: Result<
    Option<Vec<u8>>,
    StorageError,
>)
    requires
        old(store).wf(),
    ensures
        final(store).wf(),
        !valid_name(key@) ==> (r matches Err(e) && is_invalid_key_error(e, key@) && final(store)@
            == old(store)@),
        valid_name(key@) && !valid_name(datastore@) ==> (r matches Err(e)
            && is_invalid_datastore_error(e, datastore@) && final(store)@ == old(store)@),
        valid_name(key@) && valid_name(datastore@) ==> ({
            &&& final(store)@ == ensured(old(store)@, datastore@)
            &&& r matches Ok(v) && v.deep_view() == value_of(old(store)@, datastore@, key@)
        }),
{
    if !validate_name(key) {
        return Err(StorageError::invalid_key(key));
    }
    if !validate_name(datastore) {
        return Err(StorageError::invalid_datastore(datastore));
    }
    let name = String::from_str(datastore);
    let key_owned = String::from_str(key);
    let i = store.ensure_store(&name);
    let ds = &store.stores[i];
    let r = ds.get_entry(&key_owned);
    proof {
        lemma_value_of_ensured(old(store)@, datastore@, key@);
    }
    Ok(r)
}

/// Stores `value` under `key` of `datastore`, overwriting any previous
/// value (last writer wins). The datastore is created when it did not
/// exist.
pub fn storage_put(store: &mut Storage, datastore: &str, key: &str, value: Vec<u8>) -> (r: Result<
    (),
    StorageError,
>)
    requires
        old(store).wf(),
    ensures
        final(store).wf(),
        !valid_name(key@) ==> (r matches Err(e) && is_invalid_key_error(e, key@) && final(store)@
            == old(store)@),
        valid_name(key@) && !valid_name(datastore@) ==> (r matches Err(e)
            && is_invalid_datastore_error(e, datastore@) && final(store)@ == old(store)@),
        valid_name(key@) && valid_name(datastore@) ==> (r is Ok && final(store)@ == with_put(
            old(store)@,
            datastore@,
            key@,
            value@,
        )),
{
    if !validate_name(key) {
        return Err(StorageError::invalid_key(key));
    }
    if !validate_name(datastore) {
        return Err(StorageError::invalid_datastore(datastore));
    }
    let ghost vv = value@;
    let name = String::from_str(datastore);
    let key_owned = String::from_str(key);
    let i = store.ensure_store(&name);
    let ghost ss1 = store.stores@;
    let mut ds = store.stores.remove(i);
    let ghost ds0 = ds;
    ds.put_entry(&key_owned, value);
    store.stores.insert(i, ds);
    proof {
        let ss2 = store.stores@;
        let d2 = ss2[i as int];
        assert(ss2 =~= ss1.update(i as int, d2));
        assert(d2@ == ds0@.insert(key@, vv));
        assert forall|q: Seq<char>| find_ds(ss2, q) == (if q == datastore@ {
            Some(d2)
        } else {
            #[trigger] find_ds(ss1, q)
        }) by {
            lemma_find_ds_update(ss1, i as int, d2, q);
        }
        assert(stores_map(ss2) =~= stores_map(ss1).insert(datastore@, d2@));
        assert(store@ =~= with_put(old(store)@, datastore@, key@, vv));
        assert forall|a: int, b: int| 0 <= a < b < ss2.len() implies (#[trigger] ss2[a].name@)
            != (#[trigger] ss2[b].name@) by {
            assert(ss2[a].name@ == ss1[a].name@);
            assert(ss2[b].name@ == ss1[b].name@);
        }
        assert forall|a: int| 0 <= a < ss2.len() implies (#[trigger] ss2[a]).wf() by {
            if a != i as int {
                assert(ss2[a] == ss1[a]);
            }
        }
    }
    Ok(())
}

/// Stores a string under `key` of `datastore` as its UTF-8 bytes.
pub fn storage_put_string(store: &mut Storage, datastore: &str, key: &str, value: String) -> (r:
    Result<(), StorageError>)
    requires
        old(store).wf(),
    ensures
        final(store).wf(),
        !valid_name(key@) ==> (r matches Err(e) && is_invalid_key_error(e, key@) && final(store)@
            == old(store)@),
        valid_name(key@) && !valid_name(datastore@) ==> (r matches Err(e)
            && is_invalid_datastore_error(e, datastore@) && final(store)@ == old(store)@),
        valid_name(key@) && valid_name(datastore@) ==> (r is Ok && final(store)@ == with_put(
            old(store)@,
            datastore@,
            key@,
            encode_utf8(value@),
        )),
{
    let bytes = encode_string(value.as_str());
    storage_put(store, datastore, key, bytes)
}

/// The string stored under `key` of `datastore`: the stored bytes,
/// decoded as UTF-8. `None` when the key was never written; an error when
/// the bytes are not valid UTF-8.
pub fn storage_get_string(store: &mut Storage, datastore: &str, key: &str) -> (r: Result<
    Option<String>,
    StorageError,
>)
    requires
        old(store).wf(),
    ensures
        final(store).wf(),
        !valid_name(key@) ==> (r matches Err(e) && is_invalid_key_error(e, key@) && final(store)@
            == old(store)@),
        valid_name(key@) && !valid_name(datastore@) ==> (r matches Err(e)
            && is_invalid_datastore_error(e, datastore@) && final(store)@ == old(store)@),
        valid_name(key@) && valid_name(datastore@) ==> ({
            &&& final(store)@ == ensured(old(store)@, datastore@)
            &&& match value_of(old(store)@, datastore@, key@) {
                None => r matches Ok(v) && v is None,
                Some(b) => if valid_utf8(b) {
                    r matches Ok(Some(s)) && encode_utf8(s@) == b
                } else {
                    r matches Err(e) && is_decode_error(e)
                },
            }
        }),
{
    match storage_get(store, datastore, key) {
        Ok(Some(bytes)) => {
            proof {
                assert(bytes.deep_view() =~= bytes@);
            }
            match decode_bytes(bytes) {
                Some(s) => {
                    proof {
                        vstd::utf8::encode_utf8_valid_utf8(s@);
                    }
                    Ok(Some(s))
                },
                None => Err(StorageError::decode()),
            }
        },
        Ok(None) => Ok(None),
        Err(e) => Err(e),
    }
}

/// Removes `key` from `datastore`. Deleting a key that does not exist is
/// already satisfied and succeeds. The datastore is created when it did
/// not exist.
pub fn storage_delete(store: &mut Storage, datastore: &str, key: &str) -> (r: Result<
    (),
    StorageError,
>)
    requires
        old(store).wf(),
    ensures
        final(store).wf(),
        !valid_name(key@) ==> (r matches Err(e) && is_invalid_key_error(e, key@) && final(store)@
            == old(store)@),
        valid_name(key@) && !valid_name(datastore@) ==> (r matches Err(e)
            && is_invalid_datastore_error(e, datastore@) && final(store)@ == old(store)@),
        valid_name(key@) && valid_name(datastore@) ==> (r is Ok && final(store)@ == with_delete(
            old(store)@,
            datastore@,
            key@,
        )),
{
    if !validate_name(key) {
        return Err(StorageError::invalid_key(key));
    }
    if !validate_name(datastore) {
        return Err(StorageError::invalid_datastore(datastore));
    }
    let name = String::from_str(datastore);
    let key_owned = String::from_str(key);
    let i = store.ensure_store(&name);
    let ghost ss1 = store.stores@;
    let mut ds = store.stores.remove(i);
    let ghost ds0 = ds;
    ds.delete_entry(&key_owned);
    store.stores.insert(i, ds);
    proof {
        let ss2 = store.stores@;
        let d2 = ss2[i as int];
        assert(ss2 =~= ss1.update(i as int, d2));
        assert(d2@ == ds0@.remove(key@));
        assert forall|q: Seq<char>| find_ds(ss2, q) == (if q == datastore@ {
            Some(d2)
        } else {
            #[trigger] find_ds(ss1, q)
        }) by {
            lemma_find_ds_update(ss1, i as int, d2, q);
        }
        assert(stores_map(ss2) =~= stores_map(ss1).insert(datastore@, d2@));
        assert(store@ =~= with_delete(old(store)@, datastore@, key@));
        assert forall|a: int, b: int| 0 <= a < b < ss2.len() implies (#[trigger] ss2[a].name@)
            != (#[trigger] ss2[b].name@) by {
            assert(ss2[a].name@ == ss1[a].name@);
            assert(ss2[b].name@ == ss1[b].name@);
        }
        assert forall|a: int| 0 <= a < ss2.len() implies (#[trigger] ss2[a]).wf() by {
            if a != i as int {
                assert(ss2[a] == ss1[a]);
            }
        }
    }
    Ok(())
}

/// True exactly when `key` of `datastore` currently exists. The datastore
/// is created empty when it did not exist.
pub fn storage_exists(store: &mut Storage, datastore: &str, key: &str) -> (r: Result<
    bool,
    StorageError,
>)
    requires
        old(store).wf(),
    ensures
        final(store).wf(),
        !valid_name(key@) ==> (r matches Err(e) && is_invalid_key_error(e, key@) && final(store)@
            == old(store)@),
        valid_name(key@) && !valid_name(datastore@) ==> (r matches Err(e)
            && is_invalid_datastore_error(e, datastore@) && final(store)@ == old(store)@),
        valid_name(key@) && valid_name(datastore@) ==> ({
            &&& final(store)@ == ensured(old(store)@, datastore@)
            &&& r matches Ok(b) && b == has_entry(old(store)@, datastore@, key@)
        }),
{
    if !validate_name(key) {
        return Err(StorageError::invalid_key(key));
    }
    if !validate_name(datastore) {
        return Err(StorageError::invalid_datastore(datastore));
    }
    let name = String::from_str(datastore);
    let key_owned = String::from_str(key);
    let i = store.ensure_store(&name);
    let ds = &store.stores[i];
    let b = ds.has_entry(&key_owned);
    proof {
        lemma_value_of_ensured(old(store)@, datastore@, key@);
    }
    Ok(b)
}

} // verus!
