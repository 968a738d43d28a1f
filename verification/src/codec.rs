//! The snapshot codec. A shard is encoded as the concatenation of its
//! entries, each `key_len:u8 | key | flags:u32_be | data_len:u32_be | data`,
//! with no header or trailer. Decoding reads entries until end of input and
//! fails on a length that runs past the end or on bytes that are not UTF-8.

use vstd::prelude::*;
use vstd::utf8::{
    decode_utf8, decode_utf8_encode_utf8, encode_utf8, encode_utf8_decode_utf8,
    encode_utf8_valid_utf8, valid_utf8,
};

use crate::db::{entries_map, entry_wf, map_after_entries, ValueV, Value};
use crate::db::lemma_map_after_entries_from_empty;
use crate::num::{be32_val, read_be32, spec_be32, push_be32};
use crate::text::{push_bytes, utf8_to_string};
use crate::types::HorcruxError;

verus! {

/// The bytes of one entry.
pub open spec fn spec_encode_entry(k: Seq<char>, v: ValueV) -> Seq<u8> {
    seq![encode_utf8(k).len() as u8] + encode_utf8(k) + spec_be32(v.flags) + spec_be32(
        encode_utf8(v.data).len() as u32,
    ) + encode_utf8(v.data)
}

/// The bytes of a whole shard: its entries in store order.
pub open spec fn spec_encode(es: Seq<(Seq<char>, ValueV)>) -> Seq<u8>
    decreases es.len(),
{
    if es.len() == 0 {
        seq![]
    } else {
        spec_encode_entry(es[0].0, es[0].1) + spec_encode(es.drop_first())
    }
}

/// The key length named by the first byte.
pub open spec fn spec_key_len(s: Seq<u8>) -> int {
    s[0] as int
}

/// The data length named by the four bytes after the key and flags.
pub open spec fn spec_data_len(s: Seq<u8>) -> int {
    be32_val(
        s[5 + spec_key_len(s)],
        s[6 + spec_key_len(s)],
        s[7 + spec_key_len(s)],
        s[8 + spec_key_len(s)],
    ) as int
}

/// How many bytes the first entry occupies.
pub open spec fn spec_entry_size(s: Seq<u8>) -> int {
    9 + spec_key_len(s) + spec_data_len(s)
}

/// The first entry of a dump, or `None` when the input is malformed: a
/// length field runs past the end, or key or data bytes are not UTF-8.
pub open spec fn spec_head_entry(s: Seq<u8>) -> Option<(Seq<char>, ValueV)> {
    if s.len() < 1 {
        None
    } else {
        let kl = spec_key_len(s);
        if s.len() < 9 + kl {
            None
        } else {
            let kb = s.subrange(1, 1 + kl);
            let flags = be32_val(s[1 + kl], s[2 + kl], s[3 + kl], s[4 + kl]);
            let dl = spec_data_len(s);
            if s.len() < 9 + kl + dl {
                None
            } else {
                let db = s.subrange(9 + kl, 9 + kl + dl);
                if valid_utf8(kb) && valid_utf8(db) {
                    Some((decode_utf8(kb), ValueV { flags, data: decode_utf8(db) }))
                } else {
                    None
                }
            }
        }
    }
}

/// All entries of a dump, or `None` when any entry is malformed.
pub open spec fn spec_decode(b: Seq<u8>) -> Option<Seq<(Seq<char>, ValueV)>>
    decreases b.len(),
    via spec_decode_decreases
{
    if b.len() == 0 {
        Some(seq![])
    } else {
        match spec_head_entry(b) {
            None => None,
            Some(e) => match spec_decode(b.skip(spec_entry_size(b))) {
                None => None,
                Some(rest) => Some(seq![e] + rest),
            },
        }
    }
}

#[via_fn]
proof fn spec_decode_decreases(b: Seq<u8>) {
    if b.len() != 0 && spec_head_entry(b) is Some {
        assert(9 <= spec_entry_size(b) <= b.len());
    }
}

/// The longest decodable prefix of a dump: what a best-effort restore keeps.
pub open spec fn spec_decode_prefix(b: Seq<u8>) -> Seq<(Seq<char>, ValueV)>
    decreases b.len(),
    via spec_decode_prefix_decreases
{
    if b.len() == 0 {
        seq![]
    } else {
        match spec_head_entry(b) {
            None => seq![],
            Some(e) => seq![e] + spec_decode_prefix(b.skip(spec_entry_size(b))),
        }
    }
}

#[via_fn]
proof fn spec_decode_prefix_decreases(b: Seq<u8>) {
    if b.len() != 0 && spec_head_entry(b) is Some {
        assert(9 <= spec_entry_size(b) <= b.len());
    }
}

/// When the whole dump decodes, the best-effort prefix is the whole dump.
pub proof fn lemma_decode_prefix_of_ok(b: Seq<u8>)
    requires
        spec_decode(b) is Some,
    ensures
        spec_decode_prefix(b) == spec_decode(b)->Some_0,
    decreases b.len(),
{
    if b.len() != 0 {
        lemma_decode_prefix_of_ok(b.skip(spec_entry_size(b)));
    }
}

/// Encoding distributes over concatenation of entry sequences.
pub proof fn lemma_encode_append(a: Seq<(Seq<char>, ValueV)>, b: Seq<(Seq<char>, ValueV)>)
    ensures
        spec_encode(a + b) == spec_encode(a) + spec_encode(b),
    decreases a.len(),
{
    if a.len() == 0 {
        assert(a + b =~= b);
        assert(spec_encode(a) + spec_encode(b) =~= spec_encode(b));
    } else {
        assert((a + b)[0] == a[0]);
        assert((a + b).drop_first() =~= a.drop_first() + b);
        lemma_encode_append(a.drop_first(), b);
        assert(spec_encode_entry(a[0].0, a[0].1) + (spec_encode(a.drop_first()) + spec_encode(b))
            =~= (spec_encode_entry(a[0].0, a[0].1) + spec_encode(a.drop_first())) + spec_encode(
            b,
        ));
    }
}

/// The head of an encoded entry followed by anything is that entry.
proof fn lemma_head_of_encode(k: Seq<char>, v: ValueV, rest: Seq<u8>)
    requires
        entry_wf(k, v),
    ensures
        spec_head_entry(spec_encode_entry(k, v) + rest) == Some((k, v)),
        spec_entry_size(spec_encode_entry(k, v) + rest) == spec_encode_entry(k, v).len(),
    decreases rest.len(),
{
    let e = spec_encode_entry(k, v);
    let s = e + rest;
    let kb = encode_utf8(k);
    let db = encode_utf8(v.data);
    let kl = kb.len() as int;
    let dl = db.len() as int;
    assert(e.len() == 9 + kl + dl);
    assert(s[0] == kb.len() as u8);
    assert(spec_key_len(s) == kl);
    assert(s.subrange(1, 1 + kl) =~= kb);
    assert(s.subrange(1 + kl, 5 + kl) =~= spec_be32(v.flags));
    assert(s.subrange(5 + kl, 9 + kl) =~= spec_be32(dl as u32));
    assert(s[1 + kl] == spec_be32(v.flags)[0] && s[2 + kl] == spec_be32(v.flags)[1] && s[3 + kl]
        == spec_be32(v.flags)[2] && s[4 + kl] == spec_be32(v.flags)[3]);
    assert(s[5 + kl] == spec_be32(dl as u32)[0] && s[6 + kl] == spec_be32(dl as u32)[1] && s[7
        + kl] == spec_be32(dl as u32)[2] && s[8 + kl] == spec_be32(dl as u32)[3]);
    crate::num::lemma_be32_round_trip(v.flags);
    crate::num::lemma_be32_round_trip(dl as u32);
    assert(spec_data_len(s) == dl);
    assert(s.subrange(9 + kl, 9 + kl + dl) =~= db);
    encode_utf8_valid_utf8(k);
    encode_utf8_valid_utf8(v.data);
    encode_utf8_decode_utf8(k);
    encode_utf8_decode_utf8(v.data);
}

/// Law: a dump decodes to exactly the entries it was made from, and
/// replaying those entries into an empty shard denotes the same mapping as
/// the entries themselves. This is the snapshot round trip: encode, then
/// decode, then insert in order, and the shard is back.
pub proof fn lemma_snapshot_round_trip(es: Seq<(Seq<char>, ValueV)>)
    requires
        forall|i: int| 0 <= i < es.len() ==> entry_wf((#[trigger] es[i]).0, es[i].1),
    ensures
        spec_decode(spec_encode(es)) == Some(es),
        map_after_entries(Map::empty(), es) == entries_map(es),
    decreases es.len(),
{
    lemma_map_after_entries_from_empty(es);
    if es.len() == 0 {
    } else {
        let e0 = spec_encode_entry(es[0].0, es[0].1);
        let rest = spec_encode(es.drop_first());
        lemma_head_of_encode(es[0].0, es[0].1, rest);
        assert((e0 + rest).skip(e0.len() as int) =~= rest);
        assert((e0 + rest).len() != 0);
        lemma_snapshot_round_trip(es.drop_first());
        assert(seq![es[0]] + es.drop_first() =~= es);
    }
}

/// Law: the canonical snapshot bytes always decode without error.
pub proof fn lemma_canonical_decodes(es: Seq<(Seq<char>, ValueV)>)
    requires
        forall|i: int| 0 <= i < es.len() ==> entry_wf((#[trigger] es[i]).0, es[i].1),
    ensures
        spec_decode(spec_encode(es)) is Some,
{
    lemma_snapshot_round_trip(es);
}

/// Law: the dump is a function of the shard's entries alone, so repeated
/// snapshots of an unchanged shard write identical bytes.
pub proof fn lemma_snapshot_idempotent(a: Seq<(Seq<char>, ValueV)>, b: Seq<(Seq<char>, ValueV)>)
    requires
        a == b,
    ensures
        spec_encode(a) == spec_encode(b),
{
}

/// Appends the encoding of one entry to `out`.
pub fn push_entry(out: &mut Vec<u8>, key: &str, value: &Value)
    requires
        entry_wf(key@, value@),
    ensures
        final(out)@ == old(out)@ + spec_encode_entry(key@, value@),
{
    let kb = key.as_bytes();
    out.push(kb.len() as u8);
    push_bytes(out, kb);
    push_be32(out, value.flags);
    let db = value.data.as_str().as_bytes();
    push_be32(out, db.len() as u32);
    push_bytes(out, db);
    assert(out@ =~= old(out)@ + spec_encode_entry(key@, value@));
}

/// Reads the entry starting at `idx`, returning it and the index just past
/// it. Fails exactly where the format is malformed: a length running past
/// the end of input, or key or data bytes that are not UTF-8.
pub fn read_entry(b: &[u8], idx: usize) -> (r: Result<(String, Value, usize), HorcruxError>)
    requires
        idx < b@.len(),
    ensures
        match r {
            Ok((k, v, next)) => {
                &&& idx < next <= b@.len()
                &&& spec_head_entry(b@.skip(idx as int)) == Some((k@, v@))
                &&& next - idx == spec_entry_size(b@.skip(idx as int))
                &&& entry_wf(k@, v@)
            },
            Err(e) => spec_head_entry(b@.skip(idx as int)) is None && e is RestoreDB,
        },
{
    let ghost s = b@.skip(idx as int);
    let n = b.len();
    let kl = b[idx] as usize;
    assert(s[0] == b@[idx as int]);
    if n - idx < 9 + kl {
        return Err(HorcruxError::RestoreDB("Snapshot is truncated".to_owned()));
    }
    let key_bytes = vstd::slice::slice_subrange(b, idx + 1, idx + 1 + kl);
    proof {
        assert(key_bytes@ =~= s.subrange(1, 1 + kl as int));
    }
    let flags = read_be32(b, idx + 1 + kl);
    let dl32 = read_be32(b, idx + 5 + kl);
    let dl = dl32 as usize;
    proof {
        assert(s[1 + kl as int] == b@[idx + 1 + kl] && s[2 + kl as int] == b@[idx + 2 + kl] && s[3
            + kl as int] == b@[idx + 3 + kl] && s[4 + kl as int] == b@[idx + 4 + kl]);
        assert(s[5 + kl as int] == b@[idx + 5 + kl] && s[6 + kl as int] == b@[idx + 6 + kl] && s[7
            + kl as int] == b@[idx + 7 + kl] && s[8 + kl as int] == b@[idx + 8 + kl]);
        assert(spec_data_len(s) == dl as int);
    }
    if n - idx - 9 - kl < dl {
        return Err(HorcruxError::RestoreDB("Snapshot is truncated".to_owned()));
    }
    let data_bytes = vstd::slice::slice_subrange(b, idx + 9 + kl, idx + 9 + kl + dl);
    proof {
        assert(data_bytes@ =~= s.subrange(9 + kl as int, 9 + kl as int + dl as int));
    }
    let key = match utf8_to_string(key_bytes) {
        Some(k) => k,
        None => {
            return Err(
                HorcruxError::RestoreDB("Failed to parse key from snapshot".to_owned()),
            );
        },
    };
    let data = match utf8_to_string(data_bytes) {
        Some(d) => d,
        None => {
            return Err(
                HorcruxError::RestoreDB("Failed to parse data from snapshot".to_owned()),
            );
        },
    };
    proof {
        decode_utf8_encode_utf8(key_bytes@);
        decode_utf8_encode_utf8(data_bytes@);
    }
    Ok((key, Value { flags, data }, idx + 9 + kl + dl))
}

} // verus!
