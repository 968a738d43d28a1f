//! Decimal text and big-endian byte encodings of the integers that appear on
//! the wire and in the snapshot format.

use vstd::prelude::*;

verus! {

/// ASCII decimal digit.
pub open spec fn is_digit(b: u8) -> bool {
    0x30 <= b <= 0x39
}

pub open spec fn digit_val(b: u8) -> nat
    recommends
        is_digit(b),
{
    (b - 0x30) as nat
}

pub open spec fn all_digits(s: Seq<u8>) -> bool {
    forall|i: int| 0 <= i < s.len() ==> is_digit(#[trigger] s[i])
}

/// The number denoted by a digit string, most significant digit first.
pub open spec fn digits_val(s: Seq<u8>) -> nat
    decreases s.len(),
{
    if s.len() == 0 {
        0
    } else {
        digits_val(s.drop_last()) * 10 + digit_val(s.last())
    }
}

/// The shortest decimal representation of `n`.
pub open spec fn dec_bytes(n: nat) -> Seq<u8>
    decreases n,
{
    if n < 10 {
        seq![(0x30 + n) as u8]
    } else {
        dec_bytes(n / 10) + seq![(0x30 + n % 10) as u8]
    }
}

/// What `str::parse` for an unsigned integer accepts: an optional leading
/// `+`, then one or more ASCII digits; the value they denote.
pub open spec fn spec_parse_uint(s: Seq<u8>) -> Option<nat> {
    let body = if s.len() > 0 && s[0] == 0x2b {
        s.drop_first()
    } else {
        s
    };
    if body.len() == 0 || !all_digits(body) {
        None
    } else {
        Some(digits_val(body))
    }
}

/// `spec_parse_uint`, rejecting values that do not fit in a `u32`.
pub open spec fn spec_parse_u32(s: Seq<u8>) -> Option<u32> {
    match spec_parse_uint(s) {
        Some(v) => if v <= u32::MAX {
            Some(v as u32)
        } else {
            None
        },
        None => None,
    }
}

/// `spec_parse_uint`, rejecting values that do not fit in a `usize`.
pub open spec fn spec_parse_usize(s: Seq<u8>) -> Option<usize> {
    match spec_parse_uint(s) {
        Some(v) => if v <= usize::MAX {
            Some(v as usize)
        } else {
            None
        },
        None => None,
    }
}

/// A digit prefix never denotes more than the whole digit string.
proof fn lemma_digits_val_prefix_le(s: Seq<u8>, i: int)
    requires
        0 <= i <= s.len(),
    ensures
        digits_val(s.take(i)) <= digits_val(s),
    decreases s.len() - i,
{
    if i == s.len() {
        assert(s.take(i) =~= s);
    } else {
        assert(s.take(i + 1).drop_last() =~= s.take(i));
        assert(digits_val(s.take(i + 1)) == digits_val(s.take(i)) * 10 + digit_val(
            s.take(i + 1).last(),
        ));
        lemma_digits_val_prefix_le(s, i + 1);
    }
}

/// The decimal digits of `n`, as `format!("{}", n)` would print them.
pub fn format_u64(n: u64) -> (r: Vec<u8>)
    ensures
        r@ == dec_bytes(n as nat),
    decreases n,
{
    if n < 10 {
        let mut v: Vec<u8> = Vec::new();
        v.push(0x30 + (n as u8));
        assert(v@ =~= dec_bytes(n as nat));
        v
    } else {
        let mut v = format_u64(n / 10);
        v.push(0x30 + ((n % 10) as u8));
        assert(v@ =~= dec_bytes(n as nat));
        v
    }
}

/// Parses an unsigned 32-bit decimal, as `str::parse::<u32>` does on the
/// bytes of its input: an optional `+`, one or more digits, value in range.
pub fn parse_u32(t: &[u8]) -> (r: Option<u32>)
    ensures
        r == spec_parse_u32(t@),
{
    let start: usize = if t.len() > 0 && t[0] == 0x2b {
        1
    } else {
        0
    };
    let ghost body = if t@.len() > 0 && t@[0] == 0x2b {
        t@.drop_first()
    } else {
        t@
    };
    proof {
        assert(body =~= t@.subrange(start as int, t@.len() as int));
    }
    if t.len() == start {
        return None;
    }
    let mut acc: u64 = 0;
    let mut i: usize = start;
    while i < t.len()
        invariant
            start <= i <= t.len(),
            body == t@.subrange(start as int, t@.len() as int),
            body == if t@.len() > 0 && t@[0] == 0x2b { t@.drop_first() } else { t@ },
            t.len() > start,
            acc <= u32::MAX,
            all_digits(t@.subrange(start as int, i as int)),
            acc as nat == digits_val(t@.subrange(start as int, i as int)),
        decreases t.len() - i,
    {
        let b = t[i];
        if b < 0x30 || b > 0x39 {
            assert(body[i - start] == t@[i as int]);
            assert(!all_digits(body));
            return None;
        }
        let ghost pre = t@.subrange(start as int, i as int);
        let ghost ext = t@.subrange(start as int, i as int + 1);
        assert(ext.drop_last() =~= pre);
        assert(ext.last() == t@[i as int]);
        acc = acc * 10 + ((b - 0x30) as u64);
        i = i + 1;
        if acc > u32::MAX as u64 {
            proof {
                assert(ext =~= body.take(i - start));
                lemma_digits_val_prefix_le(body, i - start);
                assert(digits_val(body) > u32::MAX);
            }
            return None;
        }
    }
    assert(t@.subrange(start as int, t@.len() as int) =~= body);
    assert(body.len() > 0 && all_digits(body) && acc as nat == digits_val(body));
    Some(acc as u32)
}

/// Parses an unsigned decimal into a `usize`, as `str::parse::<usize>` does
/// on the bytes of its input.
pub fn parse_usize(t: &[u8]) -> (r: Option<usize>)
    ensures
        r == spec_parse_usize(t@),
{
    let start: usize = if t.len() > 0 && t[0] == 0x2b {
        1
    } else {
        0
    };
    let ghost body = if t@.len() > 0 && t@[0] == 0x2b {
        t@.drop_first()
    } else {
        t@
    };
    proof {
        assert(body =~= t@.subrange(start as int, t@.len() as int));
    }
    if t.len() == start {
        return None;
    }
    let mut acc: u128 = 0;
    let mut i: usize = start;
    while i < t.len()
        invariant
            start <= i <= t.len(),
            body == t@.subrange(start as int, t@.len() as int),
            body == if t@.len() > 0 && t@[0] == 0x2b { t@.drop_first() } else { t@ },
            t.len() > start,
            acc <= usize::MAX,
            all_digits(t@.subrange(start as int, i as int)),
            acc as nat == digits_val(t@.subrange(start as int, i as int)),
        decreases t.len() - i,
    {
        let b = t[i];
        if b < 0x30 || b > 0x39 {
            assert(body[i - start] == t@[i as int]);
            assert(!all_digits(body));
            return None;
        }
        let ghost pre = t@.subrange(start as int, i as int);
        let ghost ext = t@.subrange(start as int, i as int + 1);
        assert(ext.drop_last() =~= pre);
        assert(ext.last() == t@[i as int]);
        acc = acc * 10 + ((b - 0x30) as u128);
        i = i + 1;
        if acc > usize::MAX as u128 {
            proof {
                assert(ext =~= body.take(i - start));
                lemma_digits_val_prefix_le(body, i - start);
                assert(digits_val(body) > usize::MAX);
            }
            return None;
        }
    }
    assert(t@.subrange(start as int, t@.len() as int) =~= body);
    assert(body.len() > 0 && all_digits(body) && acc as nat == digits_val(body));
    Some(acc as usize)
}

/// The four big-endian bytes of `x`.
pub open spec fn spec_be32(x: u32) -> Seq<u8> {
    seq![
        (x >> 24) as u8,
        ((x >> 16) & 0xff) as u8,
        ((x >> 8) & 0xff) as u8,
        (x & 0xff) as u8,
    ]
}

/// The `u32` denoted by four big-endian bytes.
pub open spec fn be32_val(b0: u8, b1: u8, b2: u8, b3: u8) -> u32 {
    ((b0 as u32) << 24) | ((b1 as u32) << 16) | ((b2 as u32) << 8) | (b3 as u32)
}

/// Reading back the four big-endian bytes of `x` yields `x`.
pub proof fn lemma_be32_round_trip(x: u32)
    ensures
        be32_val(
            (x >> 24) as u8,
            ((x >> 16) & 0xff) as u8,
            ((x >> 8) & 0xff) as u8,
            (x & 0xff) as u8,
        ) == x,
{
    assert(((((x >> 24) as u8) as u32) << 24) | (((((x >> 16) & 0xff) as u8) as u32) << 16) | ((((
    (x >> 8) & 0xff) as u8) as u32) << 8) | (((x & 0xff) as u8) as u32) == x) by (bit_vector);
}

/// Appends the big-endian bytes of `x` to `out`.
pub fn push_be32(out: &mut Vec<u8>, x: u32)
    ensures
        final(out)@ == old(out)@ + spec_be32(x),
{
    assert(x >> 24 <= 0xff && (x >> 16) & 0xff <= 0xff && (x >> 8) & 0xff <= 0xff && x & 0xff
        <= 0xff) by (bit_vector);
    out.push((x >> 24) as u8);
    out.push(((x >> 16) & 0xff) as u8);
    out.push(((x >> 8) & 0xff) as u8);
    out.push((x & 0xff) as u8);
    assert(out@ =~= old(out)@ + spec_be32(x));
}

/// Reads the big-endian `u32` at `b[i..i + 4]`.
pub fn read_be32(b: &[u8], i: usize) -> (r: u32)
    requires
        i + 4 <= b@.len(),
    ensures
        r == be32_val(b@[i as int], b@[i + 1], b@[i + 2], b@[i + 3]),
{
    ((b[i] as u32) << 24) | ((b[i + 1] as u32) << 16) | ((b[i + 2] as u32) << 8) | (b[i + 3] as u32)
}

} // verus!
