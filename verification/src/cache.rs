//! Read caches for the storage engine, backed by the `lru` crate.
//!
//! Each cache is modelled by the map of entries it currently holds.
//! Insertion may evict other entries (least recently used first), so
//! a `put` promises only that the new entry is present and that no
//! entry appears from nowhere.

use vstd::prelude::*;

use crate::vertex::{DAGVertex, VertexAbs};
use crate::VertexHash;

verus! {

/// A bounded least-recently-used cache from vertex hashes to vertices.
///
/// Relies on lru::LruCache; the crate's map behaviour is assumed
/// through the contracts below.
#[verifier::external_body]
pub struct VertexCache {
    inner: lru::LruCache<VertexHash, DAGVertex>,
}

/// The entries a vertex cache currently holds.
pub uninterp spec fn vertex_cache_model(c: VertexCache) -> Map<Seq<u8>, VertexAbs>;

impl VertexCache {
    /// Relies on lru::LruCache::new: a fresh cache is empty.
    #[verifier::external_body]
    pub fn new(cap: usize) -> (r: VertexCache)
        requires
            cap >= 1,
        ensures
            forall|k: Seq<u8>| !vertex_cache_model(r).contains_key(k),
    {
        VertexCache {
            inner: lru::LruCache::new(std::num::NonZeroUsize::new(cap).unwrap()),
        }
    }

    /// Relies on lru::LruCache::get: returns the entry stored under
    /// the key, if present; only recency order changes.
    #[verifier::external_body]
    pub fn get(&mut self, key: &VertexHash) -> (r: Option<DAGVertex>)
        ensures
            vertex_cache_model(*final(self)) == vertex_cache_model(*old(self)),
            match r {
                Some(v) => vertex_cache_model(*old(self)).contains_key(key@) && v@
                    == vertex_cache_model(*old(self))[key@],
                None => !vertex_cache_model(*old(self)).contains_key(key@),
            },
    {
        self.inner.get(key).cloned()
    }

    /// Relies on lru::LruCache::put: the entry is stored under the
    /// key; a full cache evicts least-recently-used entries.
    #[verifier::external_body]
    pub fn put(&mut self, key: VertexHash, v: DAGVertex)
        ensures
            vertex_cache_model(*final(self)).submap_of(
                vertex_cache_model(*old(self)).insert(key@, v@),
            ),
            vertex_cache_model(*final(self)).contains_key(key@),
            vertex_cache_model(*final(self))[key@] == v@,
    {
        self.inner.put(key, v);
    }

    /// Relies on lru::LruCache::peek: presence test without touching
    /// recency order.
    #[verifier::external_body]
    pub fn contains(&self, key: &VertexHash) -> (r: bool)
        ensures
            r == vertex_cache_model(*self).contains_key(key@),
    {
        self.inner.peek(key).is_some()
    }

    /// Relies on lru::LruCache::clear: all entries are dropped.
    #[verifier::external_body]
    pub fn clear(&mut self)
        ensures
            forall|k: Seq<u8>| !vertex_cache_model(*final(self)).contains_key(k),
    {
        self.inner.clear();
    }

    /// Relies on lru::LruCache::len: the number of entries held.
    #[verifier::external_body]
    pub fn len(&self) -> (r: usize)
        ensures
            r == vertex_cache_model(*self).dom().len(),
    {
        self.inner.len()
    }
}

/// A bounded least-recently-used cache from vertex hashes to parent
/// hash lists.
///
/// Relies on lru::LruCache; the crate's map behaviour is assumed
/// through the contracts below.
#[verifier::external_body]
pub struct ParentsCache {
    inner: lru::LruCache<VertexHash, Vec<VertexHash>>,
}

/// The entries a parents cache currently holds, parent lists viewed
/// as sequences of byte sequences.
pub uninterp spec fn parents_cache_model(c: ParentsCache) -> Map<Seq<u8>, Seq<Seq<u8>>>;

impl ParentsCache {
    /// Relies on lru::LruCache::new: a fresh cache is empty.
    #[verifier::external_body]
    pub fn new(cap: usize) -> (r: ParentsCache)
        requires
            cap >= 1,
        ensures
            forall|k: Seq<u8>| !parents_cache_model(r).contains_key(k),
    {
        ParentsCache {
            inner: lru::LruCache::new(std::num::NonZeroUsize::new(cap).unwrap()),
        }
    }

    /// Relies on lru::LruCache::get: returns the entry stored under
    /// the key, if present; only recency order changes.
    #[verifier::external_body]
    pub fn get(&mut self, key: &VertexHash) -> (r: Option<Vec<VertexHash>>)
        ensures
            parents_cache_model(*final(self)) == parents_cache_model(*old(self)),
            match r {
                Some(ps) => parents_cache_model(*old(self)).contains_key(key@)
                    && crate::codec::hashes_view(ps@) == parents_cache_model(*old(self))[key@],
                None => !parents_cache_model(*old(self)).contains_key(key@),
            },
    {
        self.inner.get(key).cloned()
    }

    /// Relies on lru::LruCache::put: the entry is stored under the
    /// key; a full cache evicts least-recently-used entries.
    #[verifier::external_body]
    pub fn put(&mut self, key: VertexHash, ps: Vec<VertexHash>)
        ensures
            parents_cache_model(*final(self)).submap_of(
                parents_cache_model(*old(self)).insert(key@, crate::codec::hashes_view(ps@)),
            ),
            parents_cache_model(*final(self)).contains_key(key@),
            parents_cache_model(*final(self))[key@] == crate::codec::hashes_view(ps@),
    {
        self.inner.put(key, ps);
    }

    /// Relies on lru::LruCache::clear: all entries are dropped.
    #[verifier::external_body]
    pub fn clear(&mut self)
        ensures
            forall|k: Seq<u8>| !parents_cache_model(*final(self)).contains_key(k),
    {
        self.inner.clear();
    }
}

} // verus!
