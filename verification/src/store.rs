use vstd::prelude::*;
use vstd::utf8::{decode_utf8, encode_utf8, valid_utf8};

use crate::order::lex_lt;

verus! {

/// The store engine's tree handle, declared so that it can stand in
/// signatures and fields. Its contents are modeled by `tree_contents`.
#[verifier::external_type_specification]
#[verifier::external_body]
pub struct ExSledTree(sled::Tree);

/// The store engine's own error type, carried opaquely through the
/// layer inside `DatabaseError::SledError`.
#[verifier::external_type_specification]
#[verifier::external_body]
pub struct ExSledError(sled::Error);

/// The current contents of an engine tree: a mapping from byte keys to
/// byte values. The engine keeps the keys in lexicographic byte order;
/// the wrappers below state what each engine call does to, or reads
/// from, this mapping.
pub uninterp spec fn tree_contents(t: sled::Tree) -> Map<Seq<u8>, Seq<u8>>;

/// A named, ordered, durable mapping from byte keys to byte values,
/// owned and persisted by the embedded store engine.
///
/// Wrap each engine tree exactly once and route every access through
/// the wrapper, so that the view tracks the stored contents across
/// mutations.
pub struct StoreTree {
    pub handle: sled::Tree,
}

impl View for StoreTree {
    type V = Map<Seq<u8>, Seq<u8>>;

    open spec fn view(&self) -> Map<Seq<u8>, Seq<u8>> {
        tree_contents(self.handle)
    }
}

impl StoreTree {
    /// Takes ownership of an engine tree handle.
    pub fn new(handle: sled::Tree) -> (t: StoreTree)
        ensures
            t@ == tree_contents(handle),
    {
        StoreTree { handle }
    }

    /// Relies on sled::Tree::get: returns the value stored for this
    /// key, or `None` if the key is absent.
    #[verifier::external_body]
    pub(crate) fn engine_get(&self, key: &str) -> (r: Result<Option<Vec<u8>>, sled::Error>)
        ensures
            match r {
                Ok(Some(v)) => tree_contents(self.handle).contains_key(encode_utf8(key@)) && v@
                    == tree_contents(self.handle)[encode_utf8(key@)],
                Ok(None) => !tree_contents(self.handle).contains_key(encode_utf8(key@)),
                Err(_) => true,
            },
    {
        match self.handle.get(key.as_bytes()) {
            Ok(Some(v)) => Ok(Some(v.to_vec())),
            Ok(None) => Ok(None),
            Err(e) => Err(e),
        }
    }

    /// Relies on sled::Tree::insert: sets the key to the value,
    /// returning the previously stored value if there was one. On an
    /// error, either no entry changed or exactly this key's entry was
    /// updated: the engine's write path can fail before the page link
    /// that applies the write, or after it, while completing the log
    /// reservation — but it touches no other key either way.
    #[verifier::external_body]
    pub(crate) fn engine_insert(&mut self, key: &str, value: Vec<u8>) -> (r: Result<
        Option<Vec<u8>>,
        sled::Error,
    >)
        ensures
            match r {
                Ok(prev) => {
                    &&& tree_contents(final(self).handle) == tree_contents(
                        old(self).handle,
                    ).insert(encode_utf8(key@), value@)
                    &&& match prev {
                        Some(p) => tree_contents(old(self).handle).contains_key(encode_utf8(key@))
                            && p@ == tree_contents(old(self).handle)[encode_utf8(key@)],
                        None => !tree_contents(old(self).handle).contains_key(encode_utf8(key@)),
                    }
                },
                Err(_) => tree_contents(final(self).handle) == tree_contents(old(self).handle)
                    || tree_contents(final(self).handle) == tree_contents(old(self).handle).insert(
                    encode_utf8(key@),
                    value@,
                ),
            },
    {
        match self.handle.insert(key.as_bytes(), value) {
            Ok(Some(p)) => Ok(Some(p.to_vec())),
            Ok(None) => Ok(None),
            Err(e) => Err(e),
        }
    }

    /// Relies on sled::Tree::remove: deletes the entry for the key,
    /// returning the previously stored value if there was one. On an
    /// error, either no entry changed or exactly this key's entry was
    /// deleted, as for `engine_insert`: the engine deletes through the
    /// same write path.
    #[verifier::external_body]
    pub(crate) fn engine_remove(&mut self, key: &str) -> (r: Result<
        Option<Vec<u8>>,
        sled::Error,
    >)
        ensures
            match r {
                Ok(prev) => {
                    &&& tree_contents(final(self).handle) == tree_contents(
                        old(self).handle,
                    ).remove(encode_utf8(key@))
                    &&& match prev {
                        Some(p) => tree_contents(old(self).handle).contains_key(encode_utf8(key@))
                            && p@ == tree_contents(old(self).handle)[encode_utf8(key@)],
                        None => !tree_contents(old(self).handle).contains_key(encode_utf8(key@)),
                    }
                },
                Err(_) => tree_contents(final(self).handle) == tree_contents(old(self).handle)
                    || tree_contents(final(self).handle) == tree_contents(old(self).handle).remove(
                    encode_utf8(key@),
                ),
            },
    {
        match self.handle.remove(key.as_bytes()) {
            Ok(Some(p)) => Ok(Some(p.to_vec())),
            Ok(None) => Ok(None),
            Err(e) => Err(e),
        }
    }

    /// Relies on sled::Tree::last: returns the entry with the greatest
    /// key under lexicographic byte order, or `None` if the tree is
    /// empty.
    #[verifier::external_body]
    pub(crate) fn engine_last(&self) -> (r: Result<Option<(Vec<u8>, Vec<u8>)>, sled::Error>)
        ensures
            match r {
                Ok(Some(p)) => {
                    &&& tree_contents(self.handle).contains_key(p.0@)
                    &&& tree_contents(self.handle)[p.0@] == p.1@
                    &&& forall|k: Seq<u8>|
                        tree_contents(self.handle).contains_key(k) ==> k == p.0@ || lex_lt(k, p.0@)
                },
                Ok(None) => forall|k: Seq<u8>| !tree_contents(self.handle).contains_key(k),
                Err(_) => true,
            },
    {
        match self.handle.last() {
            Ok(Some((k, v))) => Ok(Some((k.to_vec(), v.to_vec()))),
            Ok(None) => Ok(None),
            Err(e) => Err(e),
        }
    }

    /// Relies on sled::Tree::iter: yields every stored (key, value)
    /// pair in ascending lexicographic key order; an engine failure
    /// during iteration surfaces as the engine's error.
    #[verifier::external_body]
    pub(crate) fn engine_iter_all(&self) -> (r: Result<Vec<(Vec<u8>, Vec<u8>)>, sled::Error>)
        ensures
            match r {
                Ok(v) => {
                    &&& forall|i: int|
                        0 <= i < v@.len() ==> tree_contents(self.handle).contains_key(
                            (#[trigger] v@[i]).0@,
                        ) && tree_contents(self.handle)[v@[i].0@] == v@[i].1@
                    &&& forall|k: Seq<u8>|
                        tree_contents(self.handle).contains_key(k) ==> exists|i: int|
                            0 <= i < v@.len() && (#[trigger] v@[i]).0@ == k
                    &&& forall|i: int, j: int|
                        0 <= i < j < v@.len() ==> lex_lt(
                            (#[trigger] v@[i]).0@,
                            (#[trigger] v@[j]).0@,
                        )
                },
                Err(_) => true,
            },
    {
        let mut out = Vec::new();
        for item in self.handle.iter() {
            match item {
                Ok((k, v)) => out.push((k.to_vec(), v.to_vec())),
                Err(e) => return Err(e),
            }
        }
        Ok(out)
    }
}

/// Relies on String::from_utf8: succeeds exactly on valid UTF-8 input
/// and returns the string holding those very bytes.
#[verifier::external_body]
pub(crate) fn bytes_to_string(bytes: &[u8]) -> (r: Option<String>)
    ensures
        match r {
            Some(s) => valid_utf8(bytes@) && s@ == decode_utf8(bytes@) && encode_utf8(s@)
                == bytes@,
            None => !valid_utf8(bytes@),
        },
{
    String::from_utf8(bytes.to_vec()).ok()
}

} // verus!
