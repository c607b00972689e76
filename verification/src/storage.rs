//! Persistent vertex storage.
//!
//! One embedded key-value store holds four keyspaces told apart by a
//! one-byte prefix: vertex payloads, shard membership lists, children
//! lists, and parent lists.  Two least-recently-used caches serve
//! reads.  The store is modelled by the map of persisted entries; all
//! index maintenance (children dedup, shard membership, statistics)
//! is verified against that model.  The children and shard indices
//! are persisted alongside the payloads, so reopening a store needs
//! no in-memory rebuild.

use vstd::prelude::*;

use crate::cache::{
    parents_cache_model, vertex_cache_model, ParentsCache, VertexCache,
};
use crate::codec::{
    decode_hashes, decode_vertex, enc_hashes, enc_vertex, encode_hashes, encode_vertex,
    hashes_view, lemma_hashes_round_trip, lemma_vertex_round_trip, parse_hash_vec, parse_vertex,
    vertex_abs_wf,
};
use crate::vertex::{clone_hash_vec, DAGVertex, VertexAbs};
use crate::{ShardId, VertexHash};

verus! {

/// Error type of the storage layer.
#[derive(Debug, Clone, PartialEq)]
pub enum StorageError {
    /// The backing key-value store failed.
    DatabaseError(String),
    /// A persisted record could not be decoded.
    SerializationError(String),
    /// A vertex was expected but absent.
    VertexNotFound(VertexHash),
    /// A persisted record had an unexpected shape.
    InvalidDataFormat,
}

/// Result type of the storage layer.
pub type StorageResult<T> = Result<T, StorageError>;

/// Storage statistics for monitoring.
#[derive(Debug, Clone, Copy, PartialEq, Eq, Structural)]
pub struct StorageStats {
    pub total_vertices: u64,
    pub total_size_bytes: u64,
    pub cache_hits: u64,
    pub cache_misses: u64,
    pub write_operations: u64,
    pub read_operations: u64,
}

/// Increment that sticks at the maximum instead of wrapping.
pub open spec fn bump(x: u64) -> u64 {
    if x == u64::MAX {
        x
    } else {
        (x + 1) as u64
    }
}

/// Add that sticks at the maximum instead of wrapping.
pub open spec fn sat_add(x: u64, y: u64) -> u64 {
    if x + y > u64::MAX {
        u64::MAX
    } else {
        (x + y) as u64
    }
}

#[verifier::external_type_specification]
#[verifier::external_body]
pub struct ExSledDb(sled::Db);

/// The entries the embedded store currently persists.
pub uninterp spec fn kv_model(db: sled::Db) -> Map<Seq<u8>, Seq<u8>>;

/// Relies on sled::open: opens (or creates) the database under the
/// given path.  Pre-existing contents are whatever is on disk.
#[verifier::external_body]
fn kv_open(path: &str) -> (r: Result<sled::Db, StorageError>) {
    sled::open(path).map_err(|e| StorageError::DatabaseError(e.to_string()))
}

/// Relies on sled::Tree::get: returns the value last inserted under
/// the key, if any.
#[verifier::external_body]
fn kv_get(db: &sled::Db, key: &Vec<u8>) -> (r: Result<Option<Vec<u8>>, StorageError>)
    ensures
        match r {
            Ok(opt) => match opt {
                Some(v) => kv_model(*db).contains_key(key@) && v@ == kv_model(*db)[key@],
                None => !kv_model(*db).contains_key(key@),
            },
            Err(_) => true,
        },
{
    match db.get(key.as_slice()) {
        Ok(Some(v)) => Ok(Some(v.to_vec())),
        Ok(None) => Ok(None),
        Err(e) => Err(StorageError::DatabaseError(e.to_string())),
    }
}

/// Relies on sled::Tree::insert: stores the value under the key,
/// replacing any previous value.  Nothing is promised on failure.
#[verifier::external_body]
fn kv_insert(db: &mut sled::Db, key: &Vec<u8>, val: &Vec<u8>) -> (r: Result<(), StorageError>)
    ensures
        r is Ok ==> kv_model(*final(db)) == kv_model(*old(db)).insert(key@, val@),
{
    match db.insert(key.as_slice(), val.as_slice()) {
        Ok(_) => Ok(()),
        Err(e) => Err(StorageError::DatabaseError(e.to_string())),
    }
}

/// Relies on sled::Tree::contains_key.
#[verifier::external_body]
fn kv_contains(db: &sled::Db, key: &Vec<u8>) -> (r: Result<bool, StorageError>)
    ensures
        match r {
            Ok(b) => b == kv_model(*db).contains_key(key@),
            Err(_) => true,
        },
{
    match db.contains_key(key.as_slice()) {
        Ok(b) => Ok(b),
        Err(e) => Err(StorageError::DatabaseError(e.to_string())),
    }
}

/// Relies on sled::Tree::flush: persists pending writes; contents are
/// unchanged.
#[verifier::external_body]
fn kv_flush(db: &mut sled::Db) -> (r: Result<(), StorageError>)
    ensures
        kv_model(*final(db)) == kv_model(*old(db)),
{
    match db.flush() {
        Ok(_) => Ok(()),
        Err(e) => Err(StorageError::DatabaseError(e.to_string())),
    }
}

/// Relies on sled::Tree::scan_prefix: the number of persisted keys
/// that start with the given byte.  Nothing else is promised of the
/// count.
#[verifier::external_body]
fn kv_count_prefix(db: &sled::Db, prefix: u8) -> (r: u64) {
    let mut count: u64 = 0;
    for item in db.scan_prefix([prefix]) {
        if item.is_ok() {
            count = count.saturating_add(1);
        }
    }
    count
}

// ---------------------------------------------------------------------
// Key layouts
// ---------------------------------------------------------------------
/// Key of a vertex payload record.
pub open spec fn vertex_key_spec(h: Seq<u8>) -> Seq<u8> {
    seq![1u8] + h
}

/// Key of a shard membership record.
pub open spec fn shard_key_spec(id: u32) -> Seq<u8> {
    seq![2u8] + shard_name(id)
}

/// Key of a children list record.
pub open spec fn children_key_spec(h: Seq<u8>) -> Seq<u8> {
    seq![3u8] + h
}

/// Key of a parents list record.
pub open spec fn parents_key_spec(h: Seq<u8>) -> Seq<u8> {
    seq![4u8] + h
}

/// Decimal digits of a natural number, most significant first.
pub open spec fn dec_nat(n: nat) -> Seq<u8>
    decreases n,
{
    if n < 10 {
        seq![(48 + n) as u8]
    } else {
        dec_nat(n / 10) + seq![(48 + n % 10) as u8]
    }
}

/// The name under which a shard's membership list is stored.
pub open spec fn shard_name(id: u32) -> Seq<u8> {
    seq![115u8, 104u8, 97u8, 114u8, 100u8, 95u8] + dec_nat(id as nat)
}

/// Decimal representations are never empty.
proof fn lemma_dec_nat_len(n: nat)
    ensures
        dec_nat(n).len() >= 1,
    decreases n,
{
    if n >= 10 {
        lemma_dec_nat_len(n / 10);
    }
}

/// Decimal representation is injective.
proof fn lemma_dec_nat_injective(a: nat, b: nat)
    requires
        dec_nat(a) == dec_nat(b),
    ensures
        a == b,
    decreases a,
{
    if a < 10 && b < 10 {
        assert(dec_nat(a)[0] == 48 + a);
        assert(dec_nat(b)[0] == 48 + b);
    } else if a < 10 {
        lemma_dec_nat_len(b / 10);
        assert(dec_nat(a).len() == 1);
        assert(dec_nat(b).len() >= 2);
    } else if b < 10 {
        lemma_dec_nat_len(a / 10);
        assert(dec_nat(b).len() == 1);
        assert(dec_nat(a).len() >= 2);
    } else {
        let da = dec_nat(a / 10);
        let db = dec_nat(b / 10);
        lemma_dec_nat_len(a / 10);
        lemma_dec_nat_len(b / 10);
        assert(dec_nat(a).last() == (48 + a % 10) as u8);
        assert(dec_nat(b).last() == (48 + b % 10) as u8);
        assert(a % 10 == b % 10);
        assert(da =~= dec_nat(a).drop_last());
        assert(db =~= dec_nat(b).drop_last());
        lemma_dec_nat_injective(a / 10, b / 10);
    }
}

/// Keys with the same one-byte prefix agree only on equal payloads.
proof fn lemma_prefixed_key_injective(p: u8, h1: Seq<u8>, h2: Seq<u8>)
    requires
        seq![p] + h1 == seq![p] + h2,
    ensures
        h1 == h2,
{
    let k = seq![p] + h1;
    assert(h1 =~= k.subrange(1, k.len() as int));
    assert(h2 =~= k.subrange(1, k.len() as int));
}

/// Distinct shard identifiers have distinct keys.
proof fn lemma_shard_key_injective(a: u32, b: u32)
    requires
        shard_key_spec(a) == shard_key_spec(b),
    ensures
        a == b,
{
    lemma_prefixed_key_injective(2u8, shard_name(a), shard_name(b));
    let fixed = seq![115u8, 104u8, 97u8, 114u8, 100u8, 95u8];
    assert(dec_nat(a as nat) =~= shard_name(a).subrange(6, shard_name(a).len() as int));
    assert(dec_nat(b as nat) =~= shard_name(b).subrange(6, shard_name(b).len() as int));
    lemma_dec_nat_injective(a as nat, b as nat);
}

/// Build the vertex payload key.
fn make_vertex_key(h: &VertexHash) -> (r: Vec<u8>)
    ensures
        r@ == vertex_key_spec(h@),
{
    let mut k: Vec<u8> = Vec::new();
    k.push(1u8);
    crate::codec::push_slice(&mut k, h.as_slice());
    assert(k@ =~= vertex_key_spec(h@));
    k
}

/// Build the children list key.
fn make_children_key(h: &VertexHash) -> (r: Vec<u8>)
    ensures
        r@ == children_key_spec(h@),
{
    let mut k: Vec<u8> = Vec::new();
    k.push(3u8);
    crate::codec::push_slice(&mut k, h.as_slice());
    assert(k@ =~= children_key_spec(h@));
    k
}

/// Build the parents list key.
fn make_parents_key(h: &VertexHash) -> (r: Vec<u8>)
    ensures
        r@ == parents_key_spec(h@),
{
    let mut k: Vec<u8> = Vec::new();
    k.push(4u8);
    crate::codec::push_slice(&mut k, h.as_slice());
    assert(k@ =~= parents_key_spec(h@));
    k
}

/// Append the decimal digits of `n`.
fn push_decimal(out: &mut Vec<u8>, n: u32)
    ensures
        final(out)@ == old(out)@ + dec_nat(n as nat),
    decreases n,
{
    if n < 10 {
        out.push((48 + n) as u8);
        assert(out@ =~= old(out)@ + dec_nat(n as nat));
    } else {
        push_decimal(out, n / 10);
        out.push((48 + n % 10) as u8);
        assert(out@ =~= old(out)@ + dec_nat(n as nat));
    }
}

/// Build the shard membership key.
fn make_shard_key(id: ShardId) -> (r: Vec<u8>)
    ensures
        r@ == shard_key_spec(id),
{
    let mut k: Vec<u8> = Vec::new();
    k.push(2u8);
    k.push(115u8);
    k.push(104u8);
    k.push(97u8);
    k.push(114u8);
    k.push(100u8);
    k.push(95u8);
    push_decimal(&mut k, id);
    assert(k@ =~= shard_key_spec(id));
    k
}


// ---------------------------------------------------------------------
// The vertex store
// ---------------------------------------------------------------------
/// Persistent DAG vertex store with read caches and secondary indices.
pub struct DAGVertexStore {
    db: sled::Db,
    vertex_cache: VertexCache,
    parents_cache: ParentsCache,
    stats: StorageStats,
    cache_size: usize,
}

/// A children or shard membership list with an empty default.
pub open spec fn list_or_empty(o: Option<Seq<Seq<u8>>>) -> Seq<Seq<u8>> {
    match o {
        Some(l) => l,
        None => Seq::empty(),
    }
}

/// Append a child hash unless it is already listed.
pub open spec fn add_child(l: Seq<Seq<u8>>, h: Seq<u8>) -> Seq<Seq<u8>> {
    if l.contains(h) {
        l
    } else {
        l.push(h)
    }
}

impl DAGVertexStore {
    /// The persisted entries.
    pub closed spec fn contents(self) -> Map<Seq<u8>, Seq<u8>> {
        kv_model(self.db)
    }

    /// Two stores persist the same entries.
    pub open spec fn same_content(self, other: DAGVertexStore) -> bool {
        self.contents() == other.contents()
    }

    /// Whether a vertex record is persisted under `h`.
    pub open spec fn has_vertex_rec(self, h: Seq<u8>) -> bool {
        self.contents().contains_key(vertex_key_spec(h))
    }

    /// The vertex persisted under `h`: `None` if absent or undecodable.
    pub open spec fn vertex_at(self, h: Seq<u8>) -> Option<VertexAbs> {
        if self.contents().contains_key(vertex_key_spec(h)) {
            parse_vertex(self.contents()[vertex_key_spec(h)])
        } else {
            None
        }
    }

    /// The children list persisted for `h`: an absent record reads as
    /// the empty list; an undecodable record reads as `None`.
    pub open spec fn children_at(self, h: Seq<u8>) -> Option<Seq<Seq<u8>>> {
        if self.contents().contains_key(children_key_spec(h)) {
            parse_hash_vec(self.contents()[children_key_spec(h)])
        } else {
            Some(Seq::empty())
        }
    }

    /// The parents list persisted for `h`, with the same convention.
    pub open spec fn parents_at(self, h: Seq<u8>) -> Option<Seq<Seq<u8>>> {
        if self.contents().contains_key(parents_key_spec(h)) {
            parse_hash_vec(self.contents()[parents_key_spec(h)])
        } else {
            Some(Seq::empty())
        }
    }

    /// The shard membership list persisted for `id`, same convention.
    pub open spec fn shard_at(self, id: u32) -> Option<Seq<Seq<u8>>> {
        if self.contents().contains_key(shard_key_spec(id)) {
            parse_hash_vec(self.contents()[shard_key_spec(id)])
        } else {
            Some(Seq::empty())
        }
    }

    /// The current statistics.
    pub closed spec fn spec_stats(self) -> StorageStats {
        self.stats
    }

    /// Cache coherence: every cached entry agrees with the persisted
    /// record it stands for.
    pub closed spec fn wf(self) -> bool {
        &&& forall|h: Seq<u8>|
            #[trigger] vertex_cache_model(self.vertex_cache).contains_key(h) ==> self.vertex_at(h)
                == Some(vertex_cache_model(self.vertex_cache)[h])
        &&& forall|h: Seq<u8>|
            #[trigger] parents_cache_model(self.parents_cache).contains_key(h)
                ==> self.parents_at(h) == Some(parents_cache_model(self.parents_cache)[h])
    }
}

/// What a successful store of `v` guarantees: the vertex is readable
/// under its hash, each parent's children list gains the hash once,
/// the parents record and shard membership are extended, statistics
/// are bumped, and every other record is untouched.
pub open spec fn store_effect(pre: DAGVertexStore, post: DAGVertexStore, v: VertexAbs) -> bool {
    &&& post.vertex_at(v.hash) == Some(v)
    &&& forall|h: Seq<u8>| h != v.hash ==> #[trigger] post.vertex_at(h) == pre.vertex_at(h)
    &&& forall|h: Seq<u8>| v.parents.contains(h) ==> #[trigger] pre.children_at(h) is Some
    &&& forall|h: Seq<u8>|
        v.parents.contains(h) ==> #[trigger] post.children_at(h) == Some(
            add_child(list_or_empty(pre.children_at(h)), v.hash),
        )
    &&& forall|h: Seq<u8>|
        !v.parents.contains(h) ==> #[trigger] post.children_at(h) == pre.children_at(h)
    &&& v.parents.len() > 0 ==> post.parents_at(v.hash) == Some(v.parents)
    &&& v.parents.len() == 0 ==> post.parents_at(v.hash) == pre.parents_at(v.hash)
    &&& forall|h: Seq<u8>| h != v.hash ==> #[trigger] post.parents_at(h) == pre.parents_at(h)
    &&& pre.shard_at(v.shard_id) is Some
    &&& post.shard_at(v.shard_id) == Some(list_or_empty(pre.shard_at(v.shard_id)).push(v.hash))
    &&& forall|id: u32| id != v.shard_id ==> #[trigger] post.shard_at(id) == pre.shard_at(id)
    &&& post.spec_stats().total_vertices == bump(pre.spec_stats().total_vertices)
    &&& post.spec_stats().write_operations == bump(pre.spec_stats().write_operations)
    &&& post.spec_stats().total_size_bytes == sat_add(
        pre.spec_stats().total_size_bytes,
        enc_vertex(v).len() as u64,
    )
}

/// Saturating increment of a counter.
fn bump_exec(x: u64) -> (r: u64)
    ensures
        r == bump(x),
{
    if x == u64::MAX {
        x
    } else {
        x + 1
    }
}

impl DAGVertexStore {
    /// Open (or create) a store under `path` with the given read
    /// cache capacity.
    pub fn new(path: &str, cache_size: usize) -> (r: StorageResult<DAGVertexStore>)
        requires
            cache_size >= 2,
        ensures
            r matches Ok(s) ==> s.wf() && s.spec_stats().cache_hits == 0
                && s.spec_stats().cache_misses == 0 && s.spec_stats().write_operations == 0
                && s.spec_stats().read_operations == 0,
    {
        let db = match kv_open(path) {
            Ok(d) => d,
            Err(e) => {
                return Err(e);
            },
        };
        let total = kv_count_prefix(&db, 1u8);
        let store = DAGVertexStore {
            db,
            vertex_cache: VertexCache::new(cache_size),
            parents_cache: ParentsCache::new(cache_size / 2),
            stats: StorageStats {
                total_vertices: total,
                total_size_bytes: 0,
                cache_hits: 0,
                cache_misses: 0,
                write_operations: 0,
                read_operations: 0,
            },
            cache_size,
        };
        Ok(store)
    }

    /// Record `child` in `parent`'s children list, without duplicates.
    fn add_child_relationship(&mut self, parent: &VertexHash, child: &VertexHash) -> (r:
        StorageResult<()>)
        ensures
            final(self).vertex_cache == old(self).vertex_cache,
            final(self).parents_cache == old(self).parents_cache,
            final(self).stats == old(self).stats,
            final(self).cache_size == old(self).cache_size,
            r is Ok ==> {
                &&& old(self).children_at(parent@) is Some
                &&& final(self).children_at(parent@) == Some(
                    add_child(list_or_empty(old(self).children_at(parent@)), child@),
                )
                &&& forall|h: Seq<u8>|
                    h != parent@ ==> #[trigger] final(self).children_at(h) == old(
                        self,
                    ).children_at(h)
                &&& forall|h: Seq<u8>|
                    #[trigger] final(self).vertex_at(h) == old(self).vertex_at(h)
                &&& forall|h: Seq<u8>|
                    #[trigger] final(self).parents_at(h) == old(self).parents_at(h)
                &&& forall|id: u32| #[trigger] final(self).shard_at(id) == old(self).shard_at(id)
            },
    {
        let ckey = make_children_key(parent);
        let existing = match kv_get(&self.db, &ckey) {
            Ok(v) => v,
            Err(e) => {
                return Err(e);
            },
        };
        let mut children: Vec<VertexHash> = match existing {
            Some(bytes) => match decode_hashes(&bytes) {
                Some(hs) => hs,
                None => {
                    return Err(StorageError::InvalidDataFormat);
                },
            },
            None => Vec::new(),
        };
        let ghost orig_list = hashes_view(children@);
        assert(old(self).children_at(parent@) == Some(orig_list));
        let mut found = false;
        let mut i: usize = 0;
        while i < children.len()
            invariant
                i <= children@.len(),
                orig_list == hashes_view(children@),
                found ==> orig_list.contains(child@),
                !found ==> forall|k: int| 0 <= k < i ==> orig_list[k] != child@,
            decreases children@.len() - i,
        {
            if crate::vertex::hash_eq(&children[i], child) {
                assert(orig_list[i as int] == child@);
                found = true;
                i = children.len();
            } else {
                i = i + 1;
            }
        }
        if found {
            assert(add_child(orig_list, child@) =~= orig_list);
            return Ok(());
        }
        assert(!orig_list.contains(child@));
        children.push(*child);
        assert(hashes_view(children@) =~= orig_list.push(child@));
        let n_now = children.len();
        let data = encode_hashes(&children);
        proof {
            assert(hashes_view(children@).len() == n_now);
            lemma_hashes_round_trip(hashes_view(children@));
        }
        match kv_insert(&mut self.db, &ckey, &data) {
            Ok(()) => {},
            Err(e) => {
                return Err(e);
            },
        }
        proof {
            assert forall|h: Seq<u8>| h != parent@ implies #[trigger] self.children_at(h) == old(
                self,
            ).children_at(h) by {
                if children_key_spec(h) == children_key_spec(parent@) {
                    lemma_prefixed_key_injective(3u8, h, parent@);
                }
            }
            assert forall|h: Seq<u8>| #[trigger] self.vertex_at(h) == old(self).vertex_at(
                h,
            ) by {
                assert(vertex_key_spec(h)[0] == 1u8);
                assert(children_key_spec(parent@)[0] == 3u8);
            }
            assert forall|h: Seq<u8>| #[trigger] self.parents_at(h) == old(self).parents_at(
                h,
            ) by {
                assert(parents_key_spec(h)[0] == 4u8);
                assert(children_key_spec(parent@)[0] == 3u8);
            }
            assert forall|id: u32| #[trigger] self.shard_at(id) == old(self).shard_at(id) by {
                assert(shard_key_spec(id)[0] == 2u8);
                assert(children_key_spec(parent@)[0] == 3u8);
            }
        }
        Ok(())
    }
}


/// Membership in a pushed sequence.
proof fn lemma_push_contains(s: Seq<Seq<u8>>, x: Seq<u8>, y: Seq<u8>)
    ensures
        s.push(x).contains(y) <==> (s.contains(y) || y == x),
{
    if s.contains(y) {
        let i = choose|i: int| 0 <= i < s.len() && s[i] == y;
        assert(s.push(x)[i] == y);
    }
    if y == x {
        assert(s.push(x)[s.len() as int] == y);
    }
    if s.push(x).contains(y) {
        let i = choose|i: int| 0 <= i < s.push(x).len() && s.push(x)[i] == y;
        if i < s.len() {
            assert(s[i] == y);
        } else {
            assert(y == x);
        }
    }
}

/// The child is always listed after `add_child`.
proof fn lemma_add_child_contains(l: Seq<Seq<u8>>, h: Seq<u8>)
    ensures
        add_child(l, h).contains(h),
{
    if !l.contains(h) {
        lemma_push_contains(l, h, h);
    }
}

/// Adding a child twice is the same as adding it once.
proof fn lemma_add_child_idempotent(l: Seq<Seq<u8>>, h: Seq<u8>)
    ensures
        add_child(add_child(l, h), h) == add_child(l, h),
{
    lemma_add_child_contains(l, h);
}

impl DAGVertexStore {
    /// Write the vertex payload record.
    fn put_vertex_record(&mut self, vertex: &DAGVertex) -> (r: StorageResult<Vec<u8>>)
        ensures
            final(self).vertex_cache == old(self).vertex_cache,
            final(self).parents_cache == old(self).parents_cache,
            final(self).stats == old(self).stats,
            final(self).cache_size == old(self).cache_size,
            r matches Ok(data) ==> {
                &&& data@ == enc_vertex(vertex@)
                &&& final(self).vertex_at(vertex@.hash) == Some(vertex@)
                &&& forall|h: Seq<u8>|
                    h != vertex@.hash ==> #[trigger] final(self).vertex_at(h) == old(
                        self,
                    ).vertex_at(h)
                &&& forall|h: Seq<u8>|
                    #[trigger] final(self).children_at(h) == old(self).children_at(h)
                &&& forall|h: Seq<u8>|
                    #[trigger] final(self).parents_at(h) == old(self).parents_at(h)
                &&& forall|id: u32| #[trigger] final(self).shard_at(id) == old(self).shard_at(id)
            },
    {
        crate::codec::exec_vertex_wf(vertex);
        proof {
            lemma_vertex_round_trip(vertex@);
        }
        let key = make_vertex_key(&vertex.hash);
        let data = encode_vertex(vertex);
        match kv_insert(&mut self.db, &key, &data) {
            Ok(()) => {},
            Err(e) => {
                return Err(e);
            },
        }
        proof {
            assert forall|h: Seq<u8>| h != vertex@.hash implies #[trigger] self.vertex_at(h) == old(
                self,
            ).vertex_at(h) by {
                if vertex_key_spec(h) == vertex_key_spec(vertex@.hash) {
                    lemma_prefixed_key_injective(1u8, h, vertex@.hash);
                }
            }
            assert forall|h: Seq<u8>| #[trigger] self.children_at(h) == old(self).children_at(
                h,
            ) by {
                assert(children_key_spec(h)[0] == 3u8);
            }
            assert forall|h: Seq<u8>| #[trigger] self.parents_at(h) == old(self).parents_at(h) by {
                assert(parents_key_spec(h)[0] == 4u8);
            }
            assert forall|id: u32| #[trigger] self.shard_at(id) == old(self).shard_at(id) by {
                assert(shard_key_spec(id)[0] == 2u8);
            }
        }
        Ok(data)
    }

    /// Write the parents list record of a vertex with parents.
    fn put_parents_record(&mut self, vertex: &DAGVertex) -> (r: StorageResult<()>)
        requires
            vertex@.parents.len() > 0,
        ensures
            final(self).vertex_cache == old(self).vertex_cache,
            final(self).parents_cache == old(self).parents_cache,
            final(self).stats == old(self).stats,
            final(self).cache_size == old(self).cache_size,
            r is Ok ==> {
                &&& final(self).parents_at(vertex@.hash) == Some(vertex@.parents)
                &&& forall|h: Seq<u8>|
                    h != vertex@.hash ==> #[trigger] final(self).parents_at(h) == old(
                        self,
                    ).parents_at(h)
                &&& forall|h: Seq<u8>|
                    #[trigger] final(self).vertex_at(h) == old(self).vertex_at(h)
                &&& forall|h: Seq<u8>|
                    #[trigger] final(self).children_at(h) == old(self).children_at(h)
                &&& forall|id: u32| #[trigger] final(self).shard_at(id) == old(self).shard_at(id)
            },
    {
        let pkey = make_parents_key(&vertex.hash);
        let n_parents = vertex.parents.len();
        let pdata = encode_hashes(&vertex.parents);
        proof {
            assert(hashes_view(vertex.parents@).len() == n_parents);
            lemma_hashes_round_trip(hashes_view(vertex.parents@));
            assert(hashes_view(vertex.parents@) =~= vertex@.parents);
        }
        match kv_insert(&mut self.db, &pkey, &pdata) {
            Ok(()) => {},
            Err(e) => {
                return Err(e);
            },
        }
        proof {
            assert forall|h: Seq<u8>| h != vertex@.hash implies #[trigger] self.parents_at(h)
                == old(self).parents_at(h) by {
                if parents_key_spec(h) == parents_key_spec(vertex@.hash) {
                    lemma_prefixed_key_injective(4u8, h, vertex@.hash);
                }
            }
            assert forall|h: Seq<u8>| #[trigger] self.vertex_at(h) == old(self).vertex_at(h) by {
                assert(vertex_key_spec(h)[0] == 1u8);
            }
            assert forall|h: Seq<u8>| #[trigger] self.children_at(h) == old(self).children_at(
                h,
            ) by {
                assert(children_key_spec(h)[0] == 3u8);
            }
            assert forall|id: u32| #[trigger] self.shard_at(id) == old(self).shard_at(id) by {
                assert(shard_key_spec(id)[0] == 2u8);
            }
        }
        Ok(())
    }

    /// Add the vertex to each parent's children list, deduplicated.
    #[verifier::rlimit(100)]
    #[verifier::spinoff_prover]
    fn update_children_index(&mut self, vertex: &DAGVertex) -> (r: StorageResult<()>)
        ensures
            final(self).vertex_cache == old(self).vertex_cache,
            final(self).parents_cache == old(self).parents_cache,
            final(self).stats == old(self).stats,
            final(self).cache_size == old(self).cache_size,
            r is Ok ==> {
                &&& forall|h: Seq<u8>|
                    vertex@.parents.contains(h) ==> #[trigger] old(self).children_at(h) is Some
                &&& forall|h: Seq<u8>|
                    vertex@.parents.contains(h) ==> #[trigger] final(self).children_at(h) == Some(
                        add_child(list_or_empty(old(self).children_at(h)), vertex@.hash),
                    )
                &&& forall|h: Seq<u8>|
                    !vertex@.parents.contains(h) ==> #[trigger] final(self).children_at(h) == old(
                        self,
                    ).children_at(h)
                &&& forall|h: Seq<u8>|
                    #[trigger] final(self).vertex_at(h) == old(self).vertex_at(h)
                &&& forall|h: Seq<u8>|
                    #[trigger] final(self).parents_at(h) == old(self).parents_at(h)
                &&& forall|id: u32| #[trigger] final(self).shard_at(id) == old(self).shard_at(id)
            },
    {
        let ghost s2 = *old(self);
        let ghost pview = hashes_view(vertex.parents@);
        proof {
            assert(pview =~= vertex@.parents);
        }
        let mut i: usize = 0;
        while i < vertex.parents.len()
            invariant
                s2 == *old(self),
                i <= vertex.parents@.len(),
                pview == hashes_view(vertex.parents@),
                pview == vertex@.parents,
                self.vertex_cache == s2.vertex_cache,
                self.parents_cache == s2.parents_cache,
                self.stats == s2.stats,
                self.cache_size == s2.cache_size,
                forall|h: Seq<u8>| #[trigger] self.vertex_at(h) == s2.vertex_at(h),
                forall|h: Seq<u8>| #[trigger] self.parents_at(h) == s2.parents_at(h),
                forall|id: u32| #[trigger] self.shard_at(id) == s2.shard_at(id),
                forall|h: Seq<u8>|
                    pview.take(i as int).contains(h) ==> #[trigger] s2.children_at(h) is Some,
                forall|h: Seq<u8>|
                    pview.take(i as int).contains(h) ==> #[trigger] self.children_at(h) == Some(
                        add_child(list_or_empty(s2.children_at(h)), vertex@.hash),
                    ),
                forall|h: Seq<u8>|
                    !pview.take(i as int).contains(h) ==> #[trigger] self.children_at(h)
                        == s2.children_at(h),
            decreases vertex.parents@.len() - i,
        {
            let p = vertex.parents[i];
            let res = self.add_child_relationship(&p, &vertex.hash);
            match res {
                Ok(()) => {},
                Err(e) => {
                    return Err(e);
                },
            }
            proof {
                assert(pview.take(i + 1) =~= pview.take(i as int).push(p@));
                assert forall|h: Seq<u8>| pview.take(i + 1).contains(h) implies #[trigger] s2
                    .children_at(h) is Some && self.children_at(h) == Some(
                    add_child(list_or_empty(s2.children_at(h)), vertex@.hash),
                ) by {
                    lemma_push_contains(pview.take(i as int), p@, h);
                    if h == p@ && pview.take(i as int).contains(h) {
                        lemma_add_child_idempotent(
                            list_or_empty(s2.children_at(h)),
                            vertex@.hash,
                        );
                    }
                }
                assert forall|h: Seq<u8>| !pview.take(i + 1).contains(h) implies #[trigger] self
                    .children_at(h) == s2.children_at(h) by {
                    lemma_push_contains(pview.take(i as int), p@, h);
                }
            }
            i = i + 1;
        }
        proof {
            assert(pview.take(pview.len() as int) =~= pview);
        }
        Ok(())
    }

    /// Append the vertex hash to its shard's membership list.
    fn append_shard_member(&mut self, vertex: &DAGVertex) -> (r: StorageResult<()>)
        ensures
            final(self).vertex_cache == old(self).vertex_cache,
            final(self).parents_cache == old(self).parents_cache,
            final(self).stats == old(self).stats,
            final(self).cache_size == old(self).cache_size,
            r is Ok ==> {
                &&& old(self).shard_at(vertex@.shard_id) is Some
                &&& final(self).shard_at(vertex@.shard_id) == Some(
                    list_or_empty(old(self).shard_at(vertex@.shard_id)).push(vertex@.hash),
                )
                &&& forall|id: u32|
                    id != vertex@.shard_id ==> #[trigger] final(self).shard_at(id) == old(
                        self,
                    ).shard_at(id)
                &&& forall|h: Seq<u8>|
                    #[trigger] final(self).vertex_at(h) == old(self).vertex_at(h)
                &&& forall|h: Seq<u8>|
                    #[trigger] final(self).children_at(h) == old(self).children_at(h)
                &&& forall|h: Seq<u8>|
                    #[trigger] final(self).parents_at(h) == old(self).parents_at(h)
            },
    {
        let skey = make_shard_key(vertex.shard_id);
        let existing = match kv_get(&self.db, &skey) {
            Ok(v) => v,
            Err(e) => {
                return Err(e);
            },
        };
        let mut members: Vec<VertexHash> = match existing {
            Some(bytes) => match decode_hashes(&bytes) {
                Some(hs) => hs,
                None => {
                    return Err(StorageError::InvalidDataFormat);
                },
            },
            None => Vec::new(),
        };
        let ghost member_list = hashes_view(members@);
        assert(old(self).shard_at(vertex@.shard_id) == Some(member_list));
        members.push(vertex.hash);
        assert(hashes_view(members@) =~= member_list.push(vertex@.hash));
        let n_members = members.len();
        let sdata = encode_hashes(&members);
        proof {
            assert(hashes_view(members@).len() == n_members);
            lemma_hashes_round_trip(hashes_view(members@));
        }
        match kv_insert(&mut self.db, &skey, &sdata) {
            Ok(()) => {},
            Err(e) => {
                return Err(e);
            },
        }
        proof {
            assert forall|id: u32| id != vertex@.shard_id implies #[trigger] self.shard_at(id)
                == old(self).shard_at(id) by {
                if shard_key_spec(id) == shard_key_spec(vertex@.shard_id) {
                    lemma_shard_key_injective(id, vertex@.shard_id);
                }
            }
            assert forall|h: Seq<u8>| #[trigger] self.vertex_at(h) == old(self).vertex_at(h) by {
                assert(vertex_key_spec(h)[0] == 1u8 && shard_key_spec(vertex@.shard_id)[0] == 2u8);
            }
            assert forall|h: Seq<u8>| #[trigger] self.children_at(h) == old(self).children_at(
                h,
            ) by {
                assert(children_key_spec(h)[0] == 3u8);
            }
            assert forall|h: Seq<u8>| #[trigger] self.parents_at(h) == old(self).parents_at(h) by {
                assert(parents_key_spec(h)[0] == 4u8);
            }
        }
        Ok(())
    }

    /// Persist a vertex: write its payload, its parents record, one
    /// children index entry per parent (without duplicates), and its
    /// shard membership; admit it to the caches; bump statistics.
    /// On failure the read caches are dropped and nothing is promised
    /// of the persisted state.
    #[verifier::rlimit(100)]
    #[verifier::spinoff_prover]
    pub fn store_vertex(&mut self, vertex: &DAGVertex) -> (r: StorageResult<()>)
        requires
            old(self).wf(),
        ensures
            final(self).wf(),
            r is Ok ==> store_effect(*old(self), *final(self), vertex@),
    {
        let ghost pre = *old(self);
        let data = match self.put_vertex_record(vertex) {
            Ok(d) => d,
            Err(e) => {
                self.vertex_cache.clear();
                self.parents_cache.clear();
                return Err(e);
            },
        };
        let ghost s1 = *self;
        if vertex.parents.len() > 0 {
            match self.put_parents_record(vertex) {
                Ok(()) => {},
                Err(e) => {
                    self.vertex_cache.clear();
                    self.parents_cache.clear();
                    return Err(e);
                },
            }
        }
        let ghost s2 = *self;
        match self.update_children_index(vertex) {
            Ok(()) => {},
            Err(e) => {
                self.vertex_cache.clear();
                self.parents_cache.clear();
                return Err(e);
            },
        }
        let ghost s3 = *self;
        match self.append_shard_member(vertex) {
            Ok(()) => {},
            Err(e) => {
                self.vertex_cache.clear();
                self.parents_cache.clear();
                return Err(e);
            },
        }
        let ghost s4 = *self;
        let copy = vertex.duplicate();
        self.vertex_cache.put(vertex.hash, copy);
        if vertex.parents.len() > 0 {
            let pc = clone_hash_vec(&vertex.parents);
            self.parents_cache.put(vertex.hash, pc);
        }
        self.stats.total_vertices = bump_exec(self.stats.total_vertices);
        self.stats.write_operations = bump_exec(self.stats.write_operations);
        self.stats.total_size_bytes = self.stats.total_size_bytes.saturating_add(
            data.len() as u64,
        );
        proof {
            assert(self.db == s4.db);
            assert(self.vertex_at(vertex@.hash) == s4.vertex_at(vertex@.hash));
            assert(s4.vertex_at(vertex@.hash) == s3.vertex_at(vertex@.hash));
            assert(s3.vertex_at(vertex@.hash) == s2.vertex_at(vertex@.hash));
            assert(s2.vertex_at(vertex@.hash) == s1.vertex_at(vertex@.hash));
            assert(self.vertex_at(vertex@.hash) == Some(vertex@));
            assert forall|h: Seq<u8>| h != vertex@.hash implies #[trigger] self.vertex_at(h)
                == pre.vertex_at(h) by {
                assert(self.vertex_at(h) == s4.vertex_at(h));
                assert(s4.vertex_at(h) == s3.vertex_at(h));
                assert(s3.vertex_at(h) == s2.vertex_at(h));
                assert(s2.vertex_at(h) == s1.vertex_at(h));
                assert(s1.vertex_at(h) == pre.vertex_at(h));
            }
            assert forall|h: Seq<u8>| vertex@.parents.contains(h) implies #[trigger] pre
                .children_at(h) is Some && self.children_at(h) == Some(
                add_child(list_or_empty(pre.children_at(h)), vertex@.hash),
            ) by {
                assert(s2.children_at(h) == s1.children_at(h));
                assert(s1.children_at(h) == pre.children_at(h));
                assert(s2.children_at(h) is Some);
                assert(s3.children_at(h) == Some(
                    add_child(list_or_empty(s2.children_at(h)), vertex@.hash),
                ));
                assert(s4.children_at(h) == s3.children_at(h));
                assert(self.children_at(h) == s4.children_at(h));
            }
            assert forall|h: Seq<u8>| !vertex@.parents.contains(h) implies #[trigger] self
                .children_at(h) == pre.children_at(h) by {
                assert(self.children_at(h) == s4.children_at(h));
                assert(s4.children_at(h) == s3.children_at(h));
                assert(s3.children_at(h) == s2.children_at(h));
                assert(s2.children_at(h) == s1.children_at(h));
                assert(s1.children_at(h) == pre.children_at(h));
            }
            if vertex@.parents.len() > 0 {
                assert(s2.parents_at(vertex@.hash) == Some(vertex@.parents));
                assert(s3.parents_at(vertex@.hash) == s2.parents_at(vertex@.hash));
                assert(s4.parents_at(vertex@.hash) == s3.parents_at(vertex@.hash));
                assert(self.parents_at(vertex@.hash) == s4.parents_at(vertex@.hash));
            } else {
                assert(self.parents_at(vertex@.hash) == s4.parents_at(vertex@.hash));
                assert(s4.parents_at(vertex@.hash) == s3.parents_at(vertex@.hash));
                assert(s3.parents_at(vertex@.hash) == s2.parents_at(vertex@.hash));
                assert(s2.parents_at(vertex@.hash) == s1.parents_at(vertex@.hash));
                assert(s1.parents_at(vertex@.hash) == pre.parents_at(vertex@.hash));
            }
            assert forall|h: Seq<u8>| h != vertex@.hash implies #[trigger] self.parents_at(h)
                == pre.parents_at(h) by {
                assert(self.parents_at(h) == s4.parents_at(h));
                assert(s4.parents_at(h) == s3.parents_at(h));
                assert(s3.parents_at(h) == s2.parents_at(h));
                assert(s2.parents_at(h) == s1.parents_at(h));
                assert(s1.parents_at(h) == pre.parents_at(h));
            }
            assert(s3.shard_at(vertex@.shard_id) == s2.shard_at(vertex@.shard_id));
            assert(s2.shard_at(vertex@.shard_id) == s1.shard_at(vertex@.shard_id));
            assert(s1.shard_at(vertex@.shard_id) == pre.shard_at(vertex@.shard_id));
            assert(pre.shard_at(vertex@.shard_id) is Some);
            assert(self.shard_at(vertex@.shard_id) == s4.shard_at(vertex@.shard_id));
            assert(self.shard_at(vertex@.shard_id) == Some(
                list_or_empty(pre.shard_at(vertex@.shard_id)).push(vertex@.hash),
            ));
            assert forall|id: u32| id != vertex@.shard_id implies #[trigger] self.shard_at(id)
                == pre.shard_at(id) by {
                assert(self.shard_at(id) == s4.shard_at(id));
                assert(s4.shard_at(id) == s3.shard_at(id));
                assert(s3.shard_at(id) == s2.shard_at(id));
                assert(s2.shard_at(id) == s1.shard_at(id));
                assert(s1.shard_at(id) == pre.shard_at(id));
            }
            assert(s4.stats == pre.stats);
            assert forall|h: Seq<u8>| #[trigger] vertex_cache_model(
                self.vertex_cache,
            ).contains_key(h) implies self.vertex_at(h) == Some(
                vertex_cache_model(self.vertex_cache)[h],
            ) by {
                assert(vertex_cache_model(self.vertex_cache).submap_of(
                    vertex_cache_model(s4.vertex_cache).insert(vertex@.hash, vertex@),
                ));
                if h != vertex@.hash {
                    assert(vertex_cache_model(self.vertex_cache).dom().contains(h));
                    assert(vertex_cache_model(s4.vertex_cache).insert(
                        vertex@.hash,
                        vertex@,
                    ).dom().contains(h));
                    assert(vertex_cache_model(s4.vertex_cache).contains_key(h));
                    assert(vertex_cache_model(s4.vertex_cache) == vertex_cache_model(
                        pre.vertex_cache,
                    ));
                    assert(pre.vertex_at(h) == Some(vertex_cache_model(pre.vertex_cache)[h]));
                    assert(self.vertex_at(h) == pre.vertex_at(h));
                }
            }
            assert forall|h: Seq<u8>| #[trigger] parents_cache_model(
                self.parents_cache,
            ).contains_key(h) implies self.parents_at(h) == Some(
                parents_cache_model(self.parents_cache)[h],
            ) by {
                if vertex@.parents.len() > 0 {
                    assert(parents_cache_model(self.parents_cache).submap_of(
                        parents_cache_model(s4.parents_cache).insert(
                            vertex@.hash,
                            hashes_view(vertex.parents@),
                        ),
                    ));
                    assert(hashes_view(vertex.parents@) =~= vertex@.parents);
                }
                if h == vertex@.hash {
                    if vertex@.parents.len() == 0 {
                        assert(parents_cache_model(s4.parents_cache).contains_key(h));
                        assert(pre.parents_at(h) == Some(
                            parents_cache_model(pre.parents_cache)[h],
                        ));
                    }
                } else {
                    assert(parents_cache_model(self.parents_cache).dom().contains(h));
                    if vertex@.parents.len() > 0 {
                        assert(parents_cache_model(s4.parents_cache).insert(
                            vertex@.hash,
                            hashes_view(vertex.parents@),
                        ).dom().contains(h));
                    }
                    assert(parents_cache_model(s4.parents_cache).contains_key(h));
                    assert(pre.parents_at(h) == Some(parents_cache_model(pre.parents_cache)[h]));
                    assert(self.parents_at(h) == pre.parents_at(h));
                }
            }
        }
        Ok(())
    }
}


impl DAGVertexStore {
    /// Retrieve a vertex by hash: cache first, then the backing
    /// store; a miss populates the cache.
    pub fn get_vertex(&mut self, hash: &VertexHash) -> (r: StorageResult<Option<DAGVertex>>)
        requires
            old(self).wf(),
        ensures
            final(self).wf(),
            final(self).same_content(*old(self)),
            final(self).spec_stats().total_vertices == old(self).spec_stats().total_vertices,
            final(self).spec_stats().write_operations == old(self).spec_stats().write_operations,
            match r {
                Ok(opt) => match opt {
                    Some(v) => final(self).vertex_at(hash@) == Some(v@),
                    None => !final(self).has_vertex_rec(hash@),
                },
                Err(_) => true,
            },
    {
        let cached = self.vertex_cache.get(hash);
        match cached {
            Some(v) => {
                self.stats.cache_hits = bump_exec(self.stats.cache_hits);
                proof {
                    assert(old(self).vertex_at(hash@) == Some(v@));
                    assert(self.db == old(self).db);
                }
                return Ok(Some(v));
            },
            None => {},
        }
        self.stats.cache_misses = bump_exec(self.stats.cache_misses);
        let key = make_vertex_key(hash);
        let found = match kv_get(&self.db, &key) {
            Ok(b) => b,
            Err(e) => {
                return Err(e);
            },
        };
        let data = match found {
            Some(d) => d,
            None => {
                return Ok(None);
            },
        };
        let v = match decode_vertex(&data) {
            Some(v) => v,
            None => {
                return Err(
                    StorageError::SerializationError(
                        String::from_str("stored vertex record does not decode"),
                    ),
                );
            },
        };
        let ghost before_put = *self;
        let copy = v.duplicate();
        self.vertex_cache.put(*hash, copy);
        self.stats.read_operations = bump_exec(self.stats.read_operations);
        proof {
            assert(self.db == old(self).db);
            assert(self.vertex_at(hash@) == Some(v@));
            assert forall|h: Seq<u8>| #[trigger] vertex_cache_model(
                self.vertex_cache,
            ).contains_key(h) implies self.vertex_at(h) == Some(
                vertex_cache_model(self.vertex_cache)[h],
            ) by {
                if h != hash@ {
                    assert(vertex_cache_model(self.vertex_cache).dom().contains(h));
                    assert(vertex_cache_model(before_put.vertex_cache).insert(
                        hash@,
                        v@,
                    ).dom().contains(h));
                    assert(vertex_cache_model(before_put.vertex_cache).contains_key(h));
                    assert(old(self).vertex_at(h) == Some(
                        vertex_cache_model(old(self).vertex_cache)[h],
                    ));
                }
            }
        }
        Ok(Some(v))
    }

    /// Retrieve the parent hashes of a vertex: cache first, then the
    /// store; an absent record reads as the empty list.
    pub fn get_parents(&mut self, hash: &VertexHash) -> (r: StorageResult<Vec<VertexHash>>)
        requires
            old(self).wf(),
        ensures
            final(self).wf(),
            final(self).same_content(*old(self)),
            final(self).spec_stats().total_vertices == old(self).spec_stats().total_vertices,
            final(self).spec_stats().write_operations == old(self).spec_stats().write_operations,
            match r {
                Ok(ps) => final(self).parents_at(hash@) == Some(hashes_view(ps@)),
                Err(_) => true,
            },
    {
        let cached = self.parents_cache.get(hash);
        match cached {
            Some(ps) => {
                self.stats.cache_hits = bump_exec(self.stats.cache_hits);
                proof {
                    assert(old(self).parents_at(hash@) == Some(hashes_view(ps@)));
                    assert(self.db == old(self).db);
                }
                return Ok(ps);
            },
            None => {},
        }
        self.stats.cache_misses = bump_exec(self.stats.cache_misses);
        let key = make_parents_key(hash);
        let found = match kv_get(&self.db, &key) {
            Ok(b) => b,
            Err(e) => {
                return Err(e);
            },
        };
        let data = match found {
            Some(d) => d,
            None => {
                let empty: Vec<VertexHash> = Vec::new();
                proof {
                    assert(hashes_view(empty@) =~= Seq::<Seq<u8>>::empty());
                }
                return Ok(empty);
            },
        };
        let ps = match decode_hashes(&data) {
            Some(hs) => hs,
            None => {
                return Err(
                    StorageError::SerializationError(
                        String::from_str("stored parents record does not decode"),
                    ),
                );
            },
        };
        let ghost before_put = *self;
        let copy = clone_hash_vec(&ps);
        self.parents_cache.put(*hash, copy);
        self.stats.read_operations = bump_exec(self.stats.read_operations);
        proof {
            assert(self.db == old(self).db);
            assert(self.parents_at(hash@) == Some(hashes_view(ps@)));
            assert forall|h: Seq<u8>| #[trigger] parents_cache_model(
                self.parents_cache,
            ).contains_key(h) implies self.parents_at(h) == Some(
                parents_cache_model(self.parents_cache)[h],
            ) by {
                if h != hash@ {
                    assert(parents_cache_model(self.parents_cache).dom().contains(h));
                    assert(parents_cache_model(before_put.parents_cache).insert(
                        hash@,
                        hashes_view(ps@),
                    ).dom().contains(h));
                    assert(parents_cache_model(before_put.parents_cache).contains_key(h));
                    assert(old(self).parents_at(h) == Some(
                        parents_cache_model(old(self).parents_cache)[h],
                    ));
                }
            }
        }
        Ok(ps)
    }

    /// Retrieve the children of a vertex from the children index; an
    /// absent record reads as the empty list.
    pub fn get_children(&mut self, hash: &VertexHash) -> (r: StorageResult<Vec<VertexHash>>)
        requires
            old(self).wf(),
        ensures
            final(self).wf(),
            final(self).same_content(*old(self)),
            match r {
                Ok(cs) => final(self).children_at(hash@) == Some(hashes_view(cs@)),
                Err(_) => true,
            },
    {
        let key = make_children_key(hash);
        let found = match kv_get(&self.db, &key) {
            Ok(b) => b,
            Err(e) => {
                return Err(e);
            },
        };
        let data = match found {
            Some(d) => d,
            None => {
                let empty: Vec<VertexHash> = Vec::new();
                proof {
                    assert(hashes_view(empty@) =~= Seq::<Seq<u8>>::empty());
                }
                return Ok(empty);
            },
        };
        let cs = match decode_hashes(&data) {
            Some(hs) => hs,
            None => {
                return Err(
                    StorageError::SerializationError(
                        String::from_str("stored children record does not decode"),
                    ),
                );
            },
        };
        self.stats.read_operations = bump_exec(self.stats.read_operations);
        proof {
            assert(self.db == old(self).db);
        }
        Ok(cs)
    }

    /// Retrieve the hashes assigned to a shard; an absent record
    /// reads as the empty list.
    pub fn get_shard_vertices(&mut self, shard_id: ShardId) -> (r: StorageResult<Vec<VertexHash>>)
        requires
            old(self).wf(),
        ensures
            final(self).wf(),
            final(self).same_content(*old(self)),
            match r {
                Ok(vs) => final(self).shard_at(shard_id) == Some(hashes_view(vs@)),
                Err(_) => true,
            },
    {
        let key = make_shard_key(shard_id);
        let found = match kv_get(&self.db, &key) {
            Ok(b) => b,
            Err(e) => {
                return Err(e);
            },
        };
        let data = match found {
            Some(d) => d,
            None => {
                let empty: Vec<VertexHash> = Vec::new();
                proof {
                    assert(hashes_view(empty@) =~= Seq::<Seq<u8>>::empty());
                }
                return Ok(empty);
            },
        };
        let vs = match decode_hashes(&data) {
            Some(hs) => hs,
            None => {
                return Err(
                    StorageError::SerializationError(
                        String::from_str("stored shard record does not decode"),
                    ),
                );
            },
        };
        self.stats.read_operations = bump_exec(self.stats.read_operations);
        proof {
            assert(self.db == old(self).db);
        }
        Ok(vs)
    }

    /// Whether a vertex record is persisted under `hash`.
    pub fn vertex_exists(&self, hash: &VertexHash) -> (r: StorageResult<bool>)
        requires
            self.wf(),
        ensures
            match r {
                Ok(b) => b == self.has_vertex_rec(hash@),
                Err(_) => true,
            },
    {
        if self.vertex_cache.contains(hash) {
            proof {
                assert(self.vertex_at(hash@) is Some);
            }
            return Ok(true);
        }
        let key = make_vertex_key(hash);
        kv_contains(&self.db, &key)
    }

    /// The current statistics.
    pub fn get_stats(&self) -> (r: StorageStats)
        ensures
            r == self.spec_stats(),
    {
        self.stats
    }

    /// Flush pending writes to disk; contents are unchanged.
    pub fn compact(&mut self) -> (r: StorageResult<()>)
        requires
            old(self).wf(),
        ensures
            final(self).wf(),
            final(self).same_content(*old(self)),
            final(self).spec_stats() == old(self).spec_stats(),
    {
        let r = kv_flush(&mut self.db);
        proof {
            assert(self.vertex_cache == old(self).vertex_cache);
        }
        r
    }

    /// Drop all cached entries; contents are unchanged.
    pub fn clear_caches(&mut self)
        ensures
            final(self).wf(),
            final(self).same_content(*old(self)),
            final(self).spec_stats() == old(self).spec_stats(),
    {
        self.vertex_cache.clear();
        self.parents_cache.clear();
    }

    /// Store several vertices back to back, flushing once at the end.
    /// On success the last occurrence of every hash is readable.
    pub fn store_vertices_batch(&mut self, vertices: &Vec<DAGVertex>) -> (r: StorageResult<()>)
        requires
            old(self).wf(),
        ensures
            final(self).wf(),
            r is Ok ==> forall|i: int|
                0 <= i < vertices@.len() && (forall|j: int|
                    i < j < vertices@.len() ==> vertices@[j]@.hash != vertices@[i]@.hash)
                    ==> #[trigger] final(self).vertex_at(vertices@[i]@.hash) == Some(
                    vertices@[i]@,
                ),
    {
        let mut k: usize = 0;
        while k < vertices.len()
            invariant
                old(self).wf(),
                self.wf(),
                k <= vertices@.len(),
                forall|i: int|
                    0 <= i < k && (forall|j: int| i < j < k ==> vertices@[j]@.hash
                        != vertices@[i]@.hash) ==> #[trigger] self.vertex_at(vertices@[i]@.hash)
                        == Some(vertices@[i]@),
            decreases vertices@.len() - k,
        {
            let ghost before = *self;
            match self.store_vertex(&vertices[k]) {
                Ok(()) => {},
                Err(e) => {
                    return Err(e);
                },
            }
            proof {
                assert forall|i: int|
                    0 <= i < k + 1 && (forall|j: int| i < j < k + 1 ==> vertices@[j]@.hash
                        != vertices@[i]@.hash) implies #[trigger] self.vertex_at(
                    vertices@[i]@.hash,
                ) == Some(vertices@[i]@) by {
                    if i == k {
                    } else {
                        assert(vertices@[k as int]@.hash != vertices@[i]@.hash);
                        assert(before.vertex_at(vertices@[i]@.hash) == Some(vertices@[i]@));
                    }
                }
            }
            k = k + 1;
        }
        let ghost before_flush = *self;
        match kv_flush(&mut self.db) {
            Ok(()) => {},
            Err(e) => {
                return Err(e);
            },
        }
        proof {
            assert(self.contents() == before_flush.contents());
            assert forall|i: int|
                0 <= i < vertices@.len() && (forall|j: int|
                    i < j < vertices@.len() ==> vertices@[j]@.hash != vertices@[i]@.hash)
                    implies #[trigger] self.vertex_at(vertices@[i]@.hash) == Some(
                vertices@[i]@,
            ) by {
                assert(self.vertex_at(vertices@[i]@.hash) == before_flush.vertex_at(
                    vertices@[i]@.hash,
                ));
            }
        }
        Ok(())
    }

    /// Retrieve several vertices by hash, in order.
    pub fn get_vertices_batch(&mut self, hashes: &Vec<VertexHash>) -> (r: StorageResult<
        Vec<Option<DAGVertex>>,
    >)
        requires
            old(self).wf(),
        ensures
            final(self).wf(),
            final(self).same_content(*old(self)),
            match r {
                Ok(rs) => rs@.len() == hashes@.len() && forall|i: int|
                    0 <= i < rs@.len() ==> match #[trigger] rs@[i] {
                        Some(v) => final(self).vertex_at(hashes@[i]@) == Some(v@),
                        None => !final(self).has_vertex_rec(hashes@[i]@),
                    },
                Err(_) => true,
            },
    {
        let mut out: Vec<Option<DAGVertex>> = Vec::new();
        let mut k: usize = 0;
        while k < hashes.len()
            invariant
                old(self).wf(),
                self.wf(),
                self.same_content(*old(self)),
                k <= hashes@.len(),
                out@.len() == k,
                forall|i: int|
                    0 <= i < k ==> match #[trigger] out@[i] {
                        Some(v) => self.vertex_at(hashes@[i]@) == Some(v@),
                        None => !self.has_vertex_rec(hashes@[i]@),
                    },
            decreases hashes@.len() - k,
        {
            let h = hashes[k];
            let one = match self.get_vertex(&h) {
                Ok(o) => o,
                Err(e) => {
                    return Err(e);
                },
            };
            out.push(one);
            k = k + 1;
        }
        Ok(out)
    }
}

/// Reads agree with writes: any result meeting `get_vertex`'s
/// contract on a hash just stored by `store_vertex` is exactly the
/// stored vertex.
pub proof fn lemma_read_your_writes(
    pre: DAGVertexStore,
    post: DAGVertexStore,
    reader: DAGVertexStore,
    v: VertexAbs,
    r: Option<VertexAbs>,
)
    requires
        store_effect(pre, post, v),
        reader.same_content(post),
        match r {
            Some(w) => reader.vertex_at(v.hash) == Some(w),
            None => !reader.has_vertex_rec(v.hash),
        },
    ensures
        r == Some(v),
{
    assert(reader.vertex_at(v.hash) == post.vertex_at(v.hash));
    assert(reader.has_vertex_rec(v.hash) == post.has_vertex_rec(v.hash));
}

/// The children index after a store: a parent's list gains exactly
/// the stored hash, and every other list is untouched.
pub proof fn lemma_children_membership(
    pre: DAGVertexStore,
    post: DAGVertexStore,
    v: VertexAbs,
    p: Seq<u8>,
    x: Seq<u8>,
)
    requires
        store_effect(pre, post, v),
    ensures
        v.parents.contains(p) ==> (list_or_empty(post.children_at(p)).contains(x) <==> (
        list_or_empty(pre.children_at(p)).contains(x) || x == v.hash)),
        !v.parents.contains(p) ==> post.children_at(p) == pre.children_at(p),
{
    if v.parents.contains(p) {
        let l = list_or_empty(pre.children_at(p));
        if !l.contains(v.hash) {
            lemma_push_contains(l, v.hash, x);
        }
    }
}


} // verus!
