//! The laws of the storage layer, each proved against the transition
//! functions that the operations' contracts use.

use vstd::prelude::*;
use vstd::utf8::{
    encode_utf8, encode_utf8_decode_utf8, encode_utf8_valid_utf8, valid_utf8,
};

use crate::names::valid_name;
use crate::store::{
    ensured, has_entry, is_enumeration, key_set, value_of, values_of, with_delete, with_put,
    StoreView,
};

verus! {

/// Law: a write followed by a read of the same key returns exactly the
/// bytes written.
pub proof fn lemma_put_then_get(m: StoreView, d: Seq<char>, k: Seq<char>, v: Seq<u8>)
    requires
        valid_name(d),
        valid_name(k),
    ensures
        value_of(with_put(m, d, k, v), d, k) == Some(v),
{
}

/// Law: a string write followed by a string read returns the same
/// string. The stored bytes are the encoding of the written string, that
/// encoding is valid UTF-8 (so the read cannot fail to decode), and no
/// other character sequence has the same encoding (so the read can return
/// nothing else).
pub proof fn lemma_put_string_then_get_string(
    m: StoreView,
    d: Seq<char>,
    k: Seq<char>,
    s: Seq<char>,
)
    requires
        valid_name(d),
        valid_name(k),
    ensures
        value_of(with_put(m, d, k, encode_utf8(s)), d, k) == Some(encode_utf8(s)),
        valid_utf8(encode_utf8(s)),
        forall|t: Seq<char>| encode_utf8(t) == encode_utf8(s) ==> t == s,
{
    encode_utf8_valid_utf8(s);
    assert forall|t: Seq<char>| encode_utf8(t) == encode_utf8(s) implies t == s by {
        encode_utf8_decode_utf8(t);
        encode_utf8_decode_utf8(s);
    }
}

/// Law: deleting is idempotent. A delete of a key that does not exist
/// changes nothing beyond the lazy creation of the datastore, and a
/// second delete right after a first changes nothing at all.
pub proof fn lemma_delete_idempotent(m: StoreView, d: Seq<char>, k: Seq<char>)
    requires
        valid_name(d),
        valid_name(k),
    ensures
        with_delete(with_delete(m, d, k), d, k) == with_delete(m, d, k),
        !has_entry(m, d, k) ==> with_delete(m, d, k) == ensured(m, d),
{
    let m1 = with_delete(m, d, k);
    assert(m1.dom().contains(d));
    assert(m1[d].remove(k) =~= m1[d]);
    assert(m1.insert(d, m1[d].remove(k)) =~= m1);
    if !has_entry(m, d, k) {
        let m0 = ensured(m, d);
        assert(!m0[d].dom().contains(k));
        assert(m0[d].remove(k) =~= m0[d]);
        assert(m0.insert(d, m0[d].remove(k)) =~= m0);
    }
}

/// Law: reading a key that was never written finds nothing, whether or
/// not the datastore itself exists, and the read's lazy creation of the
/// datastore does not change that.
pub proof fn lemma_get_absent(m: StoreView, d: Seq<char>, k: Seq<char>)
    requires
        valid_name(d),
        valid_name(k),
        !has_entry(m, d, k),
    ensures
        value_of(m, d, k) is None,
        value_of(ensured(m, d), d, k) is None,
{
}

/// Law: the last write wins. Two writes to the same key leave the second
/// value, and a read then returns it.
pub proof fn lemma_put_overwrites(
    m: StoreView,
    d: Seq<char>,
    k: Seq<char>,
    v1: Seq<u8>,
    v2: Seq<u8>,
)
    requires
        valid_name(d),
        valid_name(k),
    ensures
        value_of(with_put(with_put(m, d, k, v1), d, k, v2), d, k) == Some(v2),
{
}

/// Law: enumerating a datastore that never saw a write finds nothing.
/// The lazily created datastore has no keys, and the only value list it
/// can enumerate to is the empty one.
pub proof fn lemma_fresh_datastore_empty(m: StoreView, d: Seq<char>)
    requires
        valid_name(d),
        !m.dom().contains(d),
    ensures
        key_set(m, d) == Set::<Seq<char>>::empty(),
        forall|vals: Seq<Seq<u8>>|
            is_enumeration(ensured(m, d)[d], vals) ==> vals == Seq::<Seq<u8>>::empty(),
{
    let dm = ensured(m, d)[d];
    assert(dm =~= Map::<Seq<char>, Seq<u8>>::empty());
    assert(key_set(m, d) =~= Set::<Seq<char>>::empty());
    assert forall|vals: Seq<Seq<u8>>| is_enumeration(dm, vals) implies vals == Seq::<Seq<
        u8,
    >>::empty() by {
        let ks = choose|ks: Seq<Seq<char>>|
            ks.no_duplicates() && ks.to_set() == dm.dom() && vals == values_of(dm, ks);
        if ks.len() > 0 {
            assert(ks.to_set().contains(ks[0]));
            assert(dm.dom().contains(ks[0]));
        }
        assert(ks =~= Seq::<Seq<char>>::empty());
        assert(vals =~= Seq::<Seq<u8>>::empty());
    }
}

/// Law: a key does not exist before any write; it exists right after a
/// write; it does not exist right after a delete, and a bare read's lazy
/// creation of the datastore never makes it exist.
pub proof fn lemma_exists_lifecycle(m: StoreView, d: Seq<char>, k: Seq<char>, v: Seq<u8>)
    requires
        valid_name(d),
        valid_name(k),
    ensures
        !has_entry(m, d, k) ==> !has_entry(ensured(m, d), d, k),
        has_entry(with_put(m, d, k, v), d, k),
        !has_entry(with_delete(with_put(m, d, k, v), d, k), d, k),
{
}

} // verus!
