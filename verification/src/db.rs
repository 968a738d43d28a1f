//! The shard store: an in-memory mapping of key to value, owned by exactly
//! one worker. Keys are at most 255 bytes so that they fit the snapshot
//! format's one-byte length prefix; values carry a payload of at most
//! `u32::MAX` bytes and an opaque 32-bit flags word.

use vstd::prelude::*;
use vstd::utf8::encode_utf8;

use crate::text::str_eq;
use crate::types::HorcruxError;

verus! {

/// Mathematical view of a stored value.
pub struct ValueV {
    pub flags: u32,
    pub data: Seq<char>,
}

/// A stored value: the client's payload and its 32-bit flags word. The
/// protocol's `exptime` field is discarded before a value is built.
#[derive(Debug)]
pub struct Value {
    pub flags: u32,
    pub data: String,
}

impl View for Value {
    type V = ValueV;

    open spec fn view(&self) -> ValueV {
        ValueV { flags: self.flags, data: self.data@ }
    }
}

impl Clone for Value {
    fn clone(&self) -> (r: Self)
        ensures
            r@ == self@,
    {
        Value { flags: self.flags, data: self.data.clone() }
    }
}

/// A key fits the snapshot format: its UTF-8 encoding has at most 255 bytes.
pub open spec fn key_wf(k: Seq<char>) -> bool {
    encode_utf8(k).len() <= 255
}

/// A value fits the snapshot format: its payload has at most `u32::MAX`
/// bytes of UTF-8.
pub open spec fn value_wf(v: ValueV) -> bool {
    encode_utf8(v.data).len() <= u32::MAX
}

pub open spec fn entry_wf(k: Seq<char>, v: ValueV) -> bool {
    key_wf(k) && value_wf(v)
}

/// The view of a sequence of owned entries.
pub open spec fn pairs_view(s: Seq<(String, Value)>) -> Seq<(Seq<char>, ValueV)> {
    Seq::new(s.len(), |i: int| (s[i].0@, s[i].1@))
}

/// The mapping denoted by an entry sequence; later entries win.
pub open spec fn entries_map(s: Seq<(Seq<char>, ValueV)>) -> Map<Seq<char>, ValueV>
    decreases s.len(),
{
    if s.len() == 0 {
        Map::empty()
    } else {
        entries_map(s.drop_last()).insert(s.last().0, s.last().1)
    }
}

/// Applies entries to a mapping in order, each overwriting its key.
pub open spec fn map_after_entries(
    m: Map<Seq<char>, ValueV>,
    es: Seq<(Seq<char>, ValueV)>,
) -> Map<Seq<char>, ValueV>
    decreases es.len(),
{
    if es.len() == 0 {
        m
    } else {
        map_after_entries(m.insert(es[0].0, es[0].1), es.drop_first())
    }
}

/// No two entries share a key.
pub open spec fn unique_keys(s: Seq<(Seq<char>, ValueV)>) -> bool {
    forall|i: int, j: int| 0 <= i < j < s.len() ==> (#[trigger] s[i]).0 != (#[trigger] s[j]).0
}

pub proof fn lemma_entries_map_index(s: Seq<(Seq<char>, ValueV)>, i: int)
    requires
        unique_keys(s),
        0 <= i < s.len(),
    ensures
        entries_map(s).contains_key(s[i].0),
        entries_map(s)[s[i].0] == s[i].1,
    decreases s.len(),
{
    if i == s.len() - 1 {
    } else {
        lemma_entries_map_index(s.drop_last(), i);
    }
}

pub proof fn lemma_entries_map_absent(s: Seq<(Seq<char>, ValueV)>, k: Seq<char>)
    requires
        forall|i: int| 0 <= i < s.len() ==> (#[trigger] s[i]).0 != k,
    ensures
        !entries_map(s).contains_key(k),
    decreases s.len(),
{
    if s.len() > 0 {
        lemma_entries_map_absent(s.drop_last(), k);
    }
}

/// Appending one entry to a fold is one more insertion.
pub proof fn lemma_map_after_entries_push(
    m: Map<Seq<char>, ValueV>,
    es: Seq<(Seq<char>, ValueV)>,
    e: (Seq<char>, ValueV),
)
    ensures
        map_after_entries(m, es.push(e)) == map_after_entries(m, es).insert(e.0, e.1),
    decreases es.len(),
{
    let s1 = es.push(e);
    if es.len() == 0 {
        assert(s1.drop_first() =~= Seq::<(Seq<char>, ValueV)>::empty());
        assert(s1[0] == e);
        assert(map_after_entries(m, s1) == map_after_entries(
            m.insert(s1[0].0, s1[0].1),
            s1.drop_first(),
        ));
        assert(map_after_entries(m, s1) == m.insert(e.0, e.1));
        assert(map_after_entries(m, es) == m);
    } else {
        assert(s1.drop_first() =~= es.drop_first().push(e));
        assert(s1[0] == es[0]);
        assert(map_after_entries(m, s1) == map_after_entries(
            m.insert(s1[0].0, s1[0].1),
            s1.drop_first(),
        ));
        lemma_map_after_entries_push(m.insert(es[0].0, es[0].1), es.drop_first(), e);
        assert(map_after_entries(m, es) == map_after_entries(
            m.insert(es[0].0, es[0].1),
            es.drop_first(),
        ));
    }
}

/// Replaying an entry sequence over the empty mapping denotes the same
/// mapping as the sequence itself.
pub proof fn lemma_map_after_entries_from_empty(es: Seq<(Seq<char>, ValueV)>)
    ensures
        map_after_entries(Map::empty(), es) == entries_map(es),
    decreases es.len(),
{
    if es.len() == 0 {
    } else {
        lemma_map_after_entries_from_empty(es.drop_last());
        lemma_map_after_entries_push(Map::empty(), es.drop_last(), es.last());
        assert(es.drop_last().push(es.last()) =~= es);
    }
}

/// One shard's store. Entries are held in insertion order with unique keys;
/// the store denotes the mapping `entries_map` of its entries.
pub struct DB {
    entries: Vec<(String, Value)>,
}

impl View for DB {
    type V = Map<Seq<char>, ValueV>;

    closed spec fn view(&self) -> Map<Seq<char>, ValueV> {
        entries_map(pairs_view(self.entries@))
    }
}

impl DB {
    /// The entries in store order; the snapshot encoding walks them.
    pub closed spec fn entries_view(&self) -> Seq<(Seq<char>, ValueV)> {
        pairs_view(self.entries@)
    }

    /// Keys are unique and every entry fits the snapshot format.
    pub closed spec fn wf(&self) -> bool {
        &&& unique_keys(self.entries_view())
        &&& forall|i: int|
            0 <= i < self.entries_view().len() ==> entry_wf(
                (#[trigger] self.entries_view()[i]).0,
                self.entries_view()[i].1,
            )
    }

    pub open spec fn spec_get(&self, k: Seq<char>) -> Option<ValueV> {
        if self@.contains_key(k) {
            Some(self@[k])
        } else {
            None
        }
    }

    pub fn new() -> (r: DB)
        ensures
            r.wf(),
            r@ == Map::<Seq<char>, ValueV>::empty(),
            r.entries_view() == Seq::<(Seq<char>, ValueV)>::empty(),
    {
        let r = DB { entries: Vec::new() };
        proof {
            assert(r.entries_view() =~= Seq::<(Seq<char>, ValueV)>::empty());
        }
        r
    }

    fn find(&self, key: &str) -> (r: Option<usize>)
        ensures
            match r {
                Some(i) => i < self.entries_view().len() && self.entries_view()[i as int].0
                    == key@,
                None => forall|i: int|
                    0 <= i < self.entries_view().len() ==> (#[trigger] self.entries_view()[i]).0
                        != key@,
            },
    {
        let mut i: usize = 0;
        while i < self.entries.len()
            invariant
                i <= self.entries@.len(),
                forall|k: int|
                    0 <= k < i ==> (#[trigger] self.entries_view()[k]).0 != key@,
            decreases self.entries@.len() - i,
        {
            if str_eq(self.entries[i].0.as_str(), key) {
                return Some(i);
            }
            i = i + 1;
        }
        None
    }

    /// Looks a key up; the result is the stored value or nothing.
    pub fn get(&self, key: &str) -> (r: Option<&Value>)
        requires
            self.wf(),
        ensures
            match r {
                Some(v) => self@.contains_key(key@) && v@ == self@[key@],
                None => !self@.contains_key(key@),
            },
            r is Some <==> self.spec_get(key@) is Some,
            r matches Some(v) ==> self.spec_get(key@) == Some(v@),
    {
        match self.find(key) {
            Some(i) => {
                proof {
                    lemma_entries_map_index(self.entries_view(), i as int);
                }
                Some(&self.entries[i].1)
            },
            None => {
                proof {
                    lemma_entries_map_absent(self.entries_view(), key@);
                }
                None
            },
        }
    }

    /// Inserts a value, overwriting any entry with the same key.
    pub fn insert(&mut self, key: String, value: Value)
        requires
            old(self).wf(),
            entry_wf(key@, value@),
        ensures
            final(self).wf(),
            final(self)@ == old(self)@.insert(key@, value@),
    {
        let ghost s0 = self.entries_view();
        match self.find(key.as_str()) {
            Some(i) => {
                self.entries.remove(i);
                proof {
                    assert(self.entries_view() =~= s0.remove(i as int));
                    lemma_entries_map_remove(s0, i as int);
                }
                let ghost s1 = self.entries_view();
                self.entries.push((key, value));
                proof {
                    assert(self.entries_view() =~= s1.push((key@, value@)));
                    assert(self.entries_view().drop_last() =~= s1);
                    assert(self@ =~= old(self)@.insert(key@, value@));
                }
            },
            None => {
                self.entries.push((key, value));
                proof {
                    assert(self.entries_view() =~= s0.push((key@, value@)));
                    assert(self.entries_view().drop_last() =~= s0);
                    assert(self@ =~= old(self)@.insert(key@, value@));
                }
            },
        }
    }
}

impl DB {
    /// Produces the snapshot encoding of all current entries. The worker
    /// calls this in the forked snapshot child, where no concurrent mutation
    /// is possible.
    pub fn snapshot_bytes(&self) -> (r: Vec<u8>)
        requires
            self.wf(),
        ensures
            r@ == crate::codec::spec_encode(self.entries_view()),
    {
        let ghost ev = self.entries_view();
        let mut out: Vec<u8> = Vec::new();
        let mut i: usize = 0;
        proof {
            assert(out@ =~= crate::codec::spec_encode(ev.take(0)));
        }
        while i < self.entries.len()
            invariant
                i <= self.entries@.len(),
                self.wf(),
                ev == self.entries_view(),
                out@ == crate::codec::spec_encode(ev.take(i as int)),
            decreases self.entries@.len() - i,
        {
            assert(ev[i as int] == (self.entries@[i as int].0@, self.entries@[i as int].1@));
            crate::codec::push_entry(&mut out, self.entries[i].0.as_str(), &self.entries[i].1);
            proof {
                assert(ev.take(i as int + 1) =~= ev.take(i as int) + seq![ev[i as int]]);
                crate::codec::lemma_encode_append(ev.take(i as int), seq![ev[i as int]]);
                assert(seq![ev[i as int]].drop_first()
                    =~= Seq::<(Seq<char>, ValueV)>::empty());
                assert(crate::codec::spec_encode(Seq::<(Seq<char>, ValueV)>::empty())
                    =~= Seq::<u8>::empty());
                assert(crate::codec::spec_encode(seq![ev[i as int]])
                    =~= crate::codec::spec_encode_entry(ev[i as int].0, ev[i as int].1));
                assert(out@ =~= crate::codec::spec_encode(ev.take(i as int + 1)));
            }
            i = i + 1;
        }
        proof {
            assert(ev.take(self.entries@.len() as int) =~= ev);
        }
        out
    }

    /// Restores entries from snapshot bytes, inserting them in dump order,
    /// each overwriting its key. On a malformed dump it keeps everything
    /// decoded before the fault and reports the fault.
    pub fn restore_from_bytes(&mut self, b: &[u8]) -> (r: Result<(), HorcruxError>)
        requires
            old(self).wf(),
        ensures
            final(self).wf(),
            r is Ok <==> crate::codec::spec_decode(b@) is Some,
            final(self)@ == map_after_entries(old(self)@, crate::codec::spec_decode_prefix(b@)),
            r matches Err(e) ==> e is RestoreDB,
    {
        let mut idx: usize = 0;
        let ghost mut processed: Seq<(Seq<char>, ValueV)> = Seq::empty();
        proof {
            assert(b@.skip(0) =~= b@);
        }
        while idx < b.len()
            invariant
                idx <= b@.len(),
                self.wf(),
                crate::codec::spec_decode(b@) is Some <==> crate::codec::spec_decode(
                    b@.skip(idx as int),
                ) is Some,
                crate::codec::spec_decode_prefix(b@) == processed
                    + crate::codec::spec_decode_prefix(b@.skip(idx as int)),
                self@ == map_after_entries(old(self)@, processed),
            decreases b@.len() - idx,
        {
            let ghost s = b@.skip(idx as int);
            match crate::codec::read_entry(b, idx) {
                Ok((k, v, next)) => {
                    let ghost kv = (k@, v@);
                    proof {
                        assert(s.skip(crate::codec::spec_entry_size(s)) =~= b@.skip(next as int));
                        assert(crate::codec::spec_decode_prefix(s) == seq![kv]
                            + crate::codec::spec_decode_prefix(b@.skip(next as int)));
                        assert(processed + crate::codec::spec_decode_prefix(s) =~= (processed
                            + seq![kv]) + crate::codec::spec_decode_prefix(b@.skip(next as int)));
                        lemma_map_after_entries_push(old(self)@, processed, kv);
                        assert(processed.push(kv) =~= processed + seq![kv]);
                    }
                    self.insert(k, v);
                    proof {
                        processed = processed + seq![kv];
                    }
                    idx = next;
                },
                Err(e) => {
                    proof {
                        assert(crate::codec::spec_decode(s) is None);
                        assert(crate::codec::spec_decode_prefix(s)
                            =~= Seq::<(Seq<char>, ValueV)>::empty());
                        assert(processed + crate::codec::spec_decode_prefix(s) =~= processed);
                    }
                    return Err(e);
                },
            }
        }
        proof {
            assert(b@.skip(idx as int) =~= Seq::<u8>::empty());
            assert(crate::codec::spec_decode(b@.skip(idx as int)) is Some);
            assert(crate::codec::spec_decode_prefix(b@.skip(idx as int))
                =~= Seq::<(Seq<char>, ValueV)>::empty());
            assert(processed + crate::codec::spec_decode_prefix(b@.skip(idx as int))
                =~= processed);
        }
        Ok(())
    }
}

/// Removing the entry that holds key `k` denotes removing `k`, when keys are
/// unique.
proof fn lemma_entries_map_remove(s: Seq<(Seq<char>, ValueV)>, i: int)
    requires
        unique_keys(s),
        0 <= i < s.len(),
    ensures
        unique_keys(s.remove(i)),
        entries_map(s.remove(i)) == entries_map(s).remove(s[i].0),
        forall|j: int|
            0 <= j < s.remove(i).len() ==> exists|k: int|
                0 <= k < s.len() && #[trigger] s.remove(i)[j] == s[k],
    decreases s.len(),
{
    let k = s[i].0;
    if i == s.len() - 1 {
        assert(s.remove(i) =~= s.drop_last());
        lemma_entries_map_absent(s.drop_last(), k);
        assert(entries_map(s.drop_last()) =~= entries_map(s.drop_last()).insert(
            s.last().0,
            s.last().1,
        ).remove(k));
        assert forall|j: int| 0 <= j < s.remove(i).len() implies exists|m: int|
            0 <= m < s.len() && #[trigger] s.remove(i)[j] == s[m] by {
            assert(s.remove(i)[j] == s[j]);
        }
    } else {
        assert(s.remove(i).drop_last() =~= s.drop_last().remove(i));
        assert(s.remove(i).last() == s.last());
        lemma_entries_map_remove(s.drop_last(), i);
        assert(s.last().0 != k);
        assert(entries_map(s.drop_last()).remove(k).insert(s.last().0, s.last().1)
            =~= entries_map(s.drop_last()).insert(s.last().0, s.last().1).remove(k));
        assert(unique_keys(s.remove(i))) by {
            assert forall|a: int, b: int|
                0 <= a < b < s.remove(i).len() implies (#[trigger] s.remove(i)[a]).0 != (
            #[trigger] s.remove(i)[b]).0 by {
                let a2 = if a < i {
                    a
                } else {
                    a + 1
                };
                let b2 = if b < i {
                    b
                } else {
                    b + 1
                };
                assert(s.remove(i)[a] == s[a2]);
                assert(s.remove(i)[b] == s[b2]);
            }
        }
        assert forall|j: int| 0 <= j < s.remove(i).len() implies exists|m: int|
            0 <= m < s.len() && #[trigger] s.remove(i)[j] == s[m] by {
            let j2 = if j < i {
                j
            } else {
                j + 1
            };
            assert(s.remove(i)[j] == s[j2]);
        }
    }
}

} // verus!
