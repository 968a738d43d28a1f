//! Key routing across shards. Each key is served by exactly one shard,
//! `hash(key) mod N`, where `N` is fixed at startup and the hash is a
//! deterministic, non-cryptographic function of the key bytes alone
//! (64-bit FNV-1a). Restore does not depend on the hash: each shard file is
//! read back into its same-indexed shard.

use vstd::prelude::*;
use vstd::utf8::encode_utf8;

use crate::codec::{
    lemma_decode_prefix_of_ok, lemma_snapshot_round_trip, spec_decode, spec_decode_prefix,
    spec_encode,
};
use crate::db::{entries_map, entry_wf, map_after_entries, DB, Value, ValueV};
use crate::types::HorcruxError;

verus! {

pub const FNV_OFFSET: u64 = 0xcbf2_9ce4_8422_2325;

pub const FNV_PRIME: u64 = 0x100_0000_01b3;

/// 64-bit FNV-1a over a byte string.
pub open spec fn spec_fnv1a(s: Seq<u8>) -> u64
    decreases s.len(),
{
    if s.len() == 0 {
        FNV_OFFSET
    } else {
        vstd::wrapping::u64_specs::wrapping_mul(
            spec_fnv1a(s.drop_last()) ^ (s.last() as u64),
            FNV_PRIME,
        )
    }
}

/// The shard that serves a key: a function of the key's characters and the
/// shard count alone.
pub open spec fn spec_shard_id(k: Seq<char>, n: usize) -> int
    recommends
        n > 0,
{
    spec_fnv1a(encode_utf8(k)) as int % n as int
}

/// Hashes a byte string with 64-bit FNV-1a.
pub fn fnv1a(bytes: &[u8]) -> (r: u64)
    ensures
        r == spec_fnv1a(bytes@),
{
    let mut h: u64 = FNV_OFFSET;
    let mut i: usize = 0;
    proof {
        assert(bytes@.take(0) =~= Seq::<u8>::empty());
    }
    while i < bytes.len()
        invariant
            i <= bytes@.len(),
            h == spec_fnv1a(bytes@.take(i as int)),
        decreases bytes@.len() - i,
    {
        let ghost pre = bytes@.take(i as int);
        let ghost ext = bytes@.take(i as int + 1);
        assert(ext.drop_last() =~= pre);
        assert(ext.last() == bytes@[i as int]);
        h = (h ^ (bytes[i] as u64)).wrapping_mul(FNV_PRIME);
        i = i + 1;
    }
    assert(bytes@.take(bytes@.len() as int) =~= bytes@);
    h
}

/// The shard index a key routes to.
pub fn shard_index(key: &str, n: usize) -> (r: usize)
    requires
        n > 0,
    ensures
        r as int == spec_shard_id(key@, n),
        r < n,
{
    let h = fnv1a(key.as_bytes());
    (h % (n as u64)) as usize
}

/// Law: the shard serving a key is a function of the key and the shard count
/// alone, with nothing else in it: two routings of one key against one shard
/// count agree, whenever in the process lifetime they happen.
pub proof fn lemma_shard_assignment_stable(k: Seq<char>, n: usize, m: usize)
    requires
        n > 0,
        n == m,
    ensures
        spec_shard_id(k, n) == spec_shard_id(k, m),
{
}

/// The sharded store: one `DB` per shard, the key space partitioned by
/// `spec_shard_id`.
pub struct Shards {
    dbs: Vec<DB>,
}

impl View for Shards {
    type V = Seq<Map<Seq<char>, ValueV>>;

    closed spec fn view(&self) -> Seq<Map<Seq<char>, ValueV>> {
        Seq::new(self.dbs@.len(), |i: int| self.dbs@[i]@)
    }
}

impl Shards {
    /// Every shard is well formed, and there is at least one.
    pub closed spec fn wf(&self) -> bool {
        self.dbs@.len() > 0 && forall|i: int|
            0 <= i < self.dbs@.len() ==> (#[trigger] self.dbs@[i]).wf()
    }

    /// The entries of shard `i`, in store order: what its dump walks.
    pub closed spec fn shard_entries(&self, i: int) -> Seq<(Seq<char>, ValueV)> {
        self.dbs@[i].entries_view()
    }

    pub fn new(n: usize) -> (r: Shards)
        requires
            n >= 1,
        ensures
            r.wf(),
            r@.len() == n,
            forall|i: int| 0 <= i < n ==> #[trigger] r@[i] == Map::<Seq<char>, ValueV>::empty(),
    {
        let mut dbs: Vec<DB> = Vec::new();
        let mut i: usize = 0;
        while i < n
            invariant
                i <= n,
                dbs@.len() == i,
                forall|k: int| 0 <= k < i ==> (#[trigger] dbs@[k]).wf(),
                forall|k: int| 0 <= k < i ==> (#[trigger] dbs@[k])@ == Map::<Seq<char>,
                    ValueV>::empty(),
            decreases n - i,
        {
            dbs.push(DB::new());
            i = i + 1;
        }
        Shards { dbs }
    }

    /// Routes a key to its shard.
    pub fn compute_shard_id(&self, key: &str) -> (r: usize)
        requires
            self.wf(),
        ensures
            r as int == spec_shard_id(key@, self@.len() as usize),
            r < self@.len(),
    {
        shard_index(key, self.dbs.len())
    }

    /// Inserts into the shard that serves the key; no other shard changes.
    pub fn insert(&mut self, key: String, value: Value)
        requires
            old(self).wf(),
            entry_wf(key@, value@),
        ensures
            final(self).wf(),
            final(self)@ == old(self)@.update(
                spec_shard_id(key@, old(self)@.len() as usize),
                old(self)@[spec_shard_id(key@, old(self)@.len() as usize)].insert(key@, value@),
            ),
    {
        let sid = shard_index(key.as_str(), self.dbs.len());
        let db = &mut self.dbs[sid];
        db.insert(key, value);
        proof {
            assert(self@ =~= old(self)@.update(
                spec_shard_id(key@, old(self)@.len() as usize),
                old(self)@[spec_shard_id(key@, old(self)@.len() as usize)].insert(key@, value@),
            ));
        }
    }

    /// Looks a key up in the shard that serves it.
    pub fn get(&self, key: &str) -> (r: Option<&Value>)
        requires
            self.wf(),
        ensures
            ({
                let m = self@[spec_shard_id(key@, self@.len() as usize)];
                match r {
                    Some(v) => m.contains_key(key@) && v@ == m[key@],
                    None => !m.contains_key(key@),
                }
            }),
    {
        let sid = shard_index(key, self.dbs.len());
        let db = &self.dbs[sid];
        db.get(key)
    }

    /// The dump of shard `i`: what the forked snapshot child writes to the
    /// shard's canonical file.
    pub fn snapshot_bytes(&self, i: usize) -> (r: Vec<u8>)
        requires
            self.wf(),
            i < self@.len(),
        ensures
            r@ == spec_encode(self.shard_entries(i as int)),
    {
        let db = &self.dbs[i];
        db.snapshot_bytes()
    }

    /// Restores shard `i` from its snapshot file's bytes, keeping whatever
    /// decoded before any fault; no other shard changes.
    pub fn restore_shard(&mut self, i: usize, b: &[u8]) -> (r: Result<(), HorcruxError>)
        requires
            old(self).wf(),
            i < old(self)@.len(),
        ensures
            final(self).wf(),
            final(self)@.len() == old(self)@.len(),
            r is Ok <==> spec_decode(b@) is Some,
            final(self)@ == old(self)@.update(
                i as int,
                map_after_entries(old(self)@[i as int], spec_decode_prefix(b@)),
            ),
            r matches Err(e) ==> e is RestoreDB,
    {
        let db = &mut self.dbs[i];
        let r = db.restore_from_bytes(b);
        proof {
            assert(self@ =~= old(self)@.update(
                i as int,
                map_after_entries(old(self)@[i as int], spec_decode_prefix(b@)),
            ));
        }
        r
    }

    /// How many shards there are.
    pub fn shard_count(&self) -> (r: usize)
        ensures
            r == self@.len(),
    {
        self.dbs.len()
    }
}

/// Law: a completed shutdown dump of every shard, read back file by file
/// into the same-indexed shards of a fresh store, rebuilds every shard's
/// mapping: every key present at shutdown is observed after restart.
pub proof fn lemma_restore_after_shutdown(dumps: Seq<Seq<(Seq<char>, ValueV)>>)
    requires
        forall|s: int, i: int|
            0 <= s < dumps.len() && 0 <= i < dumps[s].len() ==> entry_wf(
                (#[trigger] dumps[s][i]).0,
                dumps[s][i].1,
            ),
    ensures
        forall|s: int|
            0 <= s < dumps.len() ==> spec_decode(spec_encode(#[trigger] dumps[s])) == Some(
                dumps[s],
            ),
        forall|s: int|
            0 <= s < dumps.len() ==> map_after_entries(
                Map::empty(),
                spec_decode_prefix(spec_encode(#[trigger] dumps[s])),
            ) == entries_map(dumps[s]),
{
    assert forall|s: int| 0 <= s < dumps.len() implies spec_decode(
        spec_encode(#[trigger] dumps[s]),
    ) == Some(dumps[s]) && map_after_entries(
        Map::empty(),
        spec_decode_prefix(spec_encode(dumps[s])),
    ) == entries_map(dumps[s]) by {
        lemma_snapshot_round_trip(dumps[s]);
        lemma_decode_prefix_of_ok(spec_encode(dumps[s]));
    }
}

} // verus!
