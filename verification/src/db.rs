use vstd::pervasive::unreached;
use vstd::prelude::*;
use vstd::utf8::{encode_utf8, valid_utf8};

use crate::codec::Codec;
use crate::errors::DatabaseError;
use crate::order::{
    lemma_lex_lt_asymmetric, lemma_lex_lt_connected, lemma_lex_lt_irreflexive, lex_lt,
};
use crate::store::{bytes_to_string, StoreTree};

verus! {

broadcast use vstd::utf8::encode_utf8_valid_utf8;

/// Retrieves the raw value stored for `key`, or `NotFound` if the key
/// is absent.
pub fn get_from_tree(db: &StoreTree, key: &str) -> (r: Result<Vec<u8>, DatabaseError>)
    ensures
        match r {
            Ok(v) => db@.contains_key(encode_utf8(key@)) && v@ == db@[encode_utf8(key@)],
            Err(e) => match e {
                DatabaseError::NotFound => !db@.contains_key(encode_utf8(key@)),
                DatabaseError::SledError(_) => true,
                _ => false,
            },
        },
{
    match db.engine_get(key) {
        Ok(Some(v)) => Ok(v),
        Ok(None) => Err(DatabaseError::NotFound),
        Err(e) => Err(DatabaseError::SledError(e)),
    }
}

/// The raw pairs `v` are exactly the contents of `m`: every pair is a
/// stored record, every stored key appears, and the pairs come in
/// ascending lexicographic key order.
pub open spec fn raw_records_match(m: Map<Seq<u8>, Seq<u8>>, v: Seq<(Vec<u8>, Vec<u8>)>) -> bool {
    &&& forall|i: int|
        0 <= i < v.len() ==> m.contains_key((#[trigger] v[i]).0@) && m[v[i].0@] == v[i].1@
    &&& forall|k: Seq<u8>|
        m.contains_key(k) ==> exists|i: int| 0 <= i < v.len() && (#[trigger] v[i]).0@ == k
    &&& forall|i: int, j: int|
        0 <= i < j < v.len() ==> lex_lt((#[trigger] v[i]).0@, (#[trigger] v[j]).0@)
}

/// Retrieves every raw (key, value) pair, in ascending lexicographic
/// key order. Any engine-level failure aborts the whole batch with
/// `Get`, carrying the engine's failure; nothing is skipped and no
/// partial result is returned.
pub fn get_all_from_tree(db: &StoreTree) -> (r: Result<Vec<(Vec<u8>, Vec<u8>)>, DatabaseError>)
    ensures
        r matches Ok(v) ==> raw_records_match(db@, v@),
        r matches Err(e) ==> e matches DatabaseError::Get(_),
{
    match db.engine_iter_all() {
        Ok(v) => {
            proof {
                assert(raw_records_match(db@, v@));
            }
            Ok(v)
        },
        Err(e) => Err(DatabaseError::Get(e)),
    }
}

/// Retrieves the raw entry whose key is the lexicographically greatest
/// in the tree, or `NotFound` if the tree is empty. "Last" means
/// greatest key under byte order, not most recently inserted.
pub fn get_last_from_tree(db: &StoreTree) -> (r: Result<(Vec<u8>, Vec<u8>), DatabaseError>)
    ensures
        match r {
            Ok(p) => {
                &&& db@.contains_key(p.0@)
                &&& db@[p.0@] == p.1@
                &&& forall|k: Seq<u8>| db@.contains_key(k) ==> k == p.0@ || lex_lt(k, p.0@)
            },
            Err(e) => match e {
                DatabaseError::NotFound => forall|k: Seq<u8>| !db@.contains_key(k),
                DatabaseError::SledError(_) => true,
                _ => false,
            },
        },
{
    match db.engine_last() {
        Ok(Some(p)) => Ok(p),
        Ok(None) => Err(DatabaseError::NotFound),
        Err(e) => Err(DatabaseError::SledError(e)),
    }
}

/// Writes raw bytes under `key`, unconditionally overwriting any
/// previous value. A failed write reports `SetFailed`, carrying the
/// engine's failure; it touches no key but `key`, though the engine may
/// have applied this one write before failing.
pub fn set_to_tree(db: &mut StoreTree, key: &str, bin: Vec<u8>) -> (r: Result<(), DatabaseError>)
    ensures
        match r {
            Ok(_) => final (db)@ == old(db)@.insert(encode_utf8(key@), bin@),
            Err(e) => e matches DatabaseError::SetFailed(_) && (final (db)@ == old(db)@
                || final (db)@ == old(db)@.insert(encode_utf8(key@), bin@)),
        },
{
    match db.engine_insert(key, bin) {
        Ok(_) => Ok(()),
        Err(e) => Err(DatabaseError::SetFailed(e)),
    }
}

/// Deletes the entry for `key`. Deleting an absent key is an error
/// (`NotFound`), not a no-op.
pub fn delete(tree: &mut StoreTree, key: &str) -> (r: Result<(), DatabaseError>)
    ensures
        match r {
            Ok(_) => old(tree)@.contains_key(encode_utf8(key@)) && final (tree)@ == old(tree)@.remove(encode_utf8(key@)),
            Err(e) => match e {
                DatabaseError::NotFound => !old(tree)@.contains_key(encode_utf8(key@)) && final (tree)@ == old(tree)@,
                DatabaseError::SledError(_) => final (tree)@ == old(tree)@ || final (tree)@ == old(
                    tree,
                )@.remove(encode_utf8(key@)),
                _ => false,
            },
        },
{
    match tree.engine_remove(key) {
        Ok(Some(_)) => Ok(()),
        Ok(None) => {
            proof {
                assert(old(tree)@.remove(encode_utf8(key@)) =~= old(tree)@);
            }
            Err(DatabaseError::NotFound)
        },
        Err(e) => Err(DatabaseError::SledError(e)),
    }
}

/// Retrieves the value stored for `key` and decodes it as `T`.
/// `NotFound` passes through unchanged; bytes that decode to no `T`
/// value fail with `Deserialize`.
pub fn get<T: Codec>(tree: &StoreTree, key: &str) -> (r: Result<T, DatabaseError>)
    ensures
        match r {
            Ok(v) => tree@.contains_key(encode_utf8(key@)) && v.spec_encodable()
                && v.spec_encoding() == tree@[encode_utf8(key@)],
            Err(e) => match e {
                DatabaseError::NotFound => !tree@.contains_key(encode_utf8(key@)),
                DatabaseError::Deserialize => tree@.contains_key(encode_utf8(key@)) && (forall|
                    v: T,
                |
                    #[trigger] v.spec_encodable() ==> v.spec_encoding() != tree@[encode_utf8(
                        key@,
                    )]),
                DatabaseError::SledError(_) => true,
                _ => false,
            },
        },
{
    let bytes = match get_from_tree(tree, key) {
        Ok(b) => b,
        Err(e) => { return Err(e) },
    };
    match T::decode(bytes.as_slice()) {
        Some(v) => Ok(v),
        None => Err(DatabaseError::Deserialize),
    }
}

/// The typed records `v` are exactly the contents of `m`: each record's
/// key encodes to a stored byte key holding that record's value, every
/// stored key is covered, and the records come in ascending byte-key
/// order.
pub open spec fn records_match<T: Codec>(m: Map<Seq<u8>, Seq<u8>>, v: Seq<(String, T)>) -> bool {
    &&& forall|i: int|
        0 <= i < v.len() ==> m.contains_key(encode_utf8((#[trigger] v[i]).0@))
            && v[i].1.spec_encodable() && v[i].1.spec_encoding() == m[encode_utf8(v[i].0@)]
    &&& forall|k: Seq<u8>|
        m.contains_key(k) ==> exists|i: int| 0 <= i < v.len() && encode_utf8((#[trigger] v[i]).0@)
            == k
    &&& forall|i: int, j: int|
        0 <= i < j < v.len() ==> lex_lt(
            encode_utf8((#[trigger] v[i]).0@),
            encode_utf8((#[trigger] v[j]).0@),
        )
}

/// Every record of `m` is well formed for `T`: its key is valid UTF-8
/// and its value is the encoding of some `T` value.
pub open spec fn all_records_decodable<T: Codec>(m: Map<Seq<u8>, Seq<u8>>) -> bool {
    forall|k: Seq<u8>|
        #[trigger] m.contains_key(k) ==> valid_utf8(k) && exists|u: T|
            u.spec_encodable() && u.spec_encoding() == m[k]
}

/// Retrieves every record of the tree, with byte keys decoded to UTF-8
/// strings and values decoded as `T`, in ascending byte-key order.
///
/// The batch is all-or-nothing: one stored key that is not valid UTF-8,
/// or one stored value that decodes to no `T`, fails the whole call
/// with `Deserialize` and returns no partial result — so a successful
/// call proves every stored record well formed.
pub fn get_all<T: Codec>(tree: &StoreTree) -> (r: Result<Vec<(String, T)>, DatabaseError>)
    ensures
        match r {
            Ok(v) => {
                &&& records_match::<T>(tree@, v@)
                &&& all_records_decodable::<T>(tree@)
                &&& (forall|k: Seq<u8>| !tree@.contains_key(k)) ==> v@.len() == 0
            },
            Err(e) => match e {
                DatabaseError::Get(_) => true,
                DatabaseError::Deserialize => !all_records_decodable::<T>(tree@),
                _ => false,
            },
        },
{
    let pairs = match get_all_from_tree(tree) {
        Ok(p) => p,
        Err(e) => { return Err(e) },
    };
    let mut out: Vec<(String, T)> = Vec::new();
    let mut idx: usize = 0;
    while idx < pairs.len()
        invariant
            idx <= pairs@.len(),
            out@.len() == idx,
            raw_records_match(tree@, pairs@),
            forall|i: int|
                0 <= i < idx as int ==> encode_utf8((#[trigger] out@[i]).0@) == pairs@[i].0@,
            forall|i: int|
                0 <= i < idx as int ==> (#[trigger] out@[i]).1.spec_encodable()
                    && out@[i].1.spec_encoding() == pairs@[i].1@,
        decreases pairs@.len() - idx,
    {
        let pair = &pairs[idx];
        let key = match bytes_to_string(pair.0.as_slice()) {
            Some(s) => s,
            None => {
                proof {
                    assert(tree@.contains_key(pairs@[idx as int].0@));
                    assert(!all_records_decodable::<T>(tree@));
                }
                return Err(DatabaseError::Deserialize)
            },
        };
        let value = match T::decode(pair.1.as_slice()) {
            Some(v) => v,
            None => {
                proof {
                    let k = pairs@[idx as int].0@;
                    assert(tree@.contains_key(k));
                    assert(tree@[k] == pairs@[idx as int].1@);
                    assert(!all_records_decodable::<T>(tree@));
                }
                return Err(DatabaseError::Deserialize)
            },
        };
        out.push((key, value));
        idx = idx + 1;
    }
    proof {
        assert forall|i: int| 0 <= i < out@.len() implies tree@.contains_key(
            encode_utf8((#[trigger] out@[i]).0@),
        ) && out@[i].1.spec_encodable() && out@[i].1.spec_encoding() == tree@[encode_utf8(
            out@[i].0@,
        )] by {
            assert(encode_utf8(out@[i].0@) == pairs@[i].0@);
            assert(tree@.contains_key(pairs@[i].0@));
        }
        assert forall|k: Seq<u8>| tree@.contains_key(k) implies exists|i: int|
            0 <= i < out@.len() && encode_utf8((#[trigger] out@[i]).0@) == k by {
            let i = choose|i: int| 0 <= i < pairs@.len() && (#[trigger] pairs@[i]).0@ == k;
            assert(encode_utf8(out@[i].0@) == k);
        }
        assert forall|i: int, j: int| 0 <= i < j < out@.len() implies lex_lt(
            encode_utf8((#[trigger] out@[i]).0@),
            encode_utf8((#[trigger] out@[j]).0@),
        ) by {
            assert(encode_utf8(out@[i].0@) == pairs@[i].0@);
            assert(encode_utf8(out@[j].0@) == pairs@[j].0@);
            assert(lex_lt(pairs@[i].0@, pairs@[j].0@));
        }
        assert(records_match::<T>(tree@, out@));
        assert forall|k: Seq<u8>| #[trigger] tree@.contains_key(k) implies valid_utf8(k) && exists|
            u: T,
        | u.spec_encodable() && u.spec_encoding() == tree@[k] by {
            let i = choose|i: int| 0 <= i < pairs@.len() && (#[trigger] pairs@[i]).0@ == k;
            let u = out@[i].1;
            assert(encode_utf8(out@[i].0@) == k);
            assert(u.spec_encodable() && u.spec_encoding() == tree@[k]);
        }
        assert(all_records_decodable::<T>(tree@));
        if out@.len() > 0 {
            assert(tree@.contains_key(pairs@[0].0@));
        }
    }
    Ok(out)
}

/// Retrieves the record with the lexicographically greatest byte key,
/// decoded like `get_all` decodes each record, with the same
/// all-or-nothing failure policy; `NotFound` if the tree is empty.
pub fn get_last<T: Codec>(tree: &StoreTree) -> (r: Result<(String, T), DatabaseError>)
    ensures
        match r {
            Ok(p) => {
                &&& tree@.contains_key(encode_utf8(p.0@))
                &&& p.1.spec_encodable() && p.1.spec_encoding() == tree@[encode_utf8(p.0@)]
                &&& forall|k: Seq<u8>|
                    tree@.contains_key(k) ==> k == encode_utf8(p.0@) || lex_lt(
                        k,
                        encode_utf8(p.0@),
                    )
            },
            Err(e) => match e {
                DatabaseError::NotFound => forall|k: Seq<u8>| !tree@.contains_key(k),
                DatabaseError::Deserialize => exists|k: Seq<u8>|
                    {
                        &&& #[trigger] tree@.contains_key(k)
                        &&& forall|k2: Seq<u8>| tree@.contains_key(k2) ==> k2 == k || lex_lt(k2, k)
                        &&& (!valid_utf8(k) || (forall|u: T|
                            #[trigger] u.spec_encodable() ==> u.spec_encoding() != tree@[k]))
                    },
                DatabaseError::SledError(_) => true,
                _ => false,
            },
        },
{
    let (kb, vb) = match get_last_from_tree(tree) {
        Ok(p) => p,
        Err(e) => { return Err(e) },
    };
    let key = match bytes_to_string(kb.as_slice()) {
        Some(s) => s,
        None => { return Err(DatabaseError::Deserialize) },
    };
    match T::decode(vb.as_slice()) {
        Some(v) => Ok((key, v)),
        None => Err(DatabaseError::Deserialize),
    }
}

/// Serializes `data` and writes the bytes under `key` — serialize then
/// write, never the reverse. `Serialize` is reported exactly when the
/// value has no encoding, before any store mutation is attempted, and
/// then the tree is untouched; a store failure after successful
/// serialization surfaces as `Communicate`, carrying the engine's
/// failure, and touches no key but `key`, though the engine may have
/// applied the one write before failing.
pub fn set<T: Codec>(tree: &mut StoreTree, key: &str, data: &T) -> (r: Result<(), DatabaseError>)
    ensures
        match r {
            Ok(_) => data.spec_encodable() && final (tree)@ == old(tree)@.insert(
                encode_utf8(key@),
                data.spec_encoding(),
            ),
            Err(e) => match e {
                DatabaseError::Serialize => !data.spec_encodable() && final (tree)@ == old(tree)@,
                DatabaseError::Communicate(_) => data.spec_encodable() && (final (tree)@ == old(
                    tree,
                )@ || final (tree)@ == old(tree)@.insert(encode_utf8(key@), data.spec_encoding())),
                _ => false,
            },
        },
        !data.spec_encodable() ==> (r matches Err(e) && e is Serialize),
{
    let bin = match data.encode() {
        Some(b) => b,
        None => { return Err(DatabaseError::Serialize) },
    };
    match set_to_tree(tree, key, bin) {
        Ok(_) => Ok(()),
        Err(DatabaseError::SetFailed(se)) => Err(DatabaseError::Communicate(se)),
        Err(_) => unreached(),
    }
}

/// Round-trip law: after `set` has stored an encodable value `v` under
/// a key, the bytes stored for that key are exactly `v`'s encoding,
/// some value of the type decodes from them, and every value that
/// decodes from them equals `v` — so a following `get` of the same type
/// on the same key can neither fail to decode nor return a different
/// value.
pub proof fn lemma_set_get_round_trip<T: Codec>(m: Map<Seq<u8>, Seq<u8>>, kb: Seq<u8>, v: T)
    requires
        v.spec_encodable(),
    ensures
        m.insert(kb, v.spec_encoding()).contains_key(kb),
        m.insert(kb, v.spec_encoding())[kb] == v.spec_encoding(),
        exists|u: T| u.spec_encodable() && u.spec_encoding() == m.insert(kb, v.spec_encoding())[kb],
        forall|u: T|
            u.spec_encodable() && u.spec_encoding() == m.insert(kb, v.spec_encoding())[kb] ==> u
                == v,
{
    assert(v.spec_encodable() && v.spec_encoding() == m.insert(kb, v.spec_encoding())[kb]);
    assert forall|u: T|
        u.spec_encodable() && u.spec_encoding() == m.insert(kb, v.spec_encoding())[kb] implies u
        == v by {
        T::lemma_encoding_injective(u, v);
    }
}

/// Delete-then-get law: after a successful `delete` of a key, that key
/// is absent, so a following `get` on it cannot succeed and, when the
/// engine answers, reports `NotFound`.
pub proof fn lemma_delete_then_get(m: Map<Seq<u8>, Seq<u8>>, kb: Seq<u8>)
    ensures
        !m.remove(kb).contains_key(kb),
{
}

/// Writing two records under distinct keys yields the same tree
/// contents in either order, so what `get_last` and `get_all` report
/// after both writes never depends on which record was written first.
pub proof fn lemma_insert_order_irrelevant(
    m: Map<Seq<u8>, Seq<u8>>,
    k1: Seq<u8>,
    v1: Seq<u8>,
    k2: Seq<u8>,
    v2: Seq<u8>,
)
    requires
        k1 != k2,
    ensures
        m.insert(k1, v1).insert(k2, v2) == m.insert(k2, v2).insert(k1, v1),
{
    assert(m.insert(k1, v1).insert(k2, v2) =~= m.insert(k2, v2).insert(k1, v1));
}

/// The greatest key of a tree is unique: two keys that are both maximal
/// among the same contents are the same key, so the record `get_last`
/// reports is determined by the tree's contents alone.
pub proof fn lemma_last_key_unique(m: Map<Seq<u8>, Seq<u8>>, ka: Seq<u8>, kb: Seq<u8>)
    requires
        m.contains_key(ka),
        m.contains_key(kb),
        forall|k: Seq<u8>| m.contains_key(k) ==> k == ka || lex_lt(k, ka),
        forall|k: Seq<u8>| m.contains_key(k) ==> k == kb || lex_lt(k, kb),
    ensures
        ka == kb,
{
    if ka != kb {
        lemma_lex_lt_connected(ka, kb);
        if lex_lt(ka, kb) {
            lemma_lex_lt_asymmetric(ka, kb);
        } else {
            lemma_lex_lt_asymmetric(kb, ka);
        }
    }
}

/// Ordering law: in a tree holding exactly two records whose keys
/// satisfy k1 < k2 lexicographically — whichever of the two was written
/// first — the greatest key is k2, so `get_last` reports k2's record.
pub proof fn lemma_last_of_two(
    m: Map<Seq<u8>, Seq<u8>>,
    k1: Seq<u8>,
    v1: Seq<u8>,
    k2: Seq<u8>,
    v2: Seq<u8>,
    kb: Seq<u8>,
)
    requires
        lex_lt(k1, k2),
        m == Map::<Seq<u8>, Seq<u8>>::empty().insert(k1, v1).insert(k2, v2) || m == Map::<
            Seq<u8>,
            Seq<u8>,
        >::empty().insert(k2, v2).insert(k1, v1),
        m.contains_key(kb),
        forall|k: Seq<u8>| m.contains_key(k) ==> k == kb || lex_lt(k, kb),
    ensures
        kb == k2,
        m[kb] == v2,
{
    lemma_lex_lt_irreflexive(k1);
    assert(k1 != k2);
    if kb == k1 {
        assert(m.contains_key(k2));
        lemma_lex_lt_asymmetric(k1, k2);
        assert(false);
    }
}

} // verus!
