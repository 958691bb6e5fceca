//! The length prefix of a frame: an unsigned integer in little-endian base 128,
//! seven bits to a byte, the high bit set on every byte but the last.

use vstd::prelude::*;

verus! {

/// The bytes that stand for `v`: its base-128 digits, least significant first,
/// each but the last with the high bit set.
pub open spec fn varint_bytes(v: nat) -> Seq<u8>
    decreases v,
{
    if v < 128 {
        seq![v as u8]
    } else {
        seq![(v % 128 + 128) as u8] + varint_bytes(v / 128)
    }
}

/// The number whose base-128 digits are the low seven bits of each byte of
/// `bytes`, least significant first.
pub open spec fn varint_value(bytes: Seq<u8>) -> nat
    decreases bytes.len(),
{
    if bytes.len() == 0 {
        0
    } else {
        (bytes[0] % 128) as nat + 128 * varint_value(bytes.drop_first())
    }
}

/// How many bytes at the start of `bytes` have the high bit set.
pub open spec fn continuation_len(bytes: Seq<u8>) -> nat
    decreases bytes.len(),
{
    if bytes.len() == 0 || bytes[0] < 128 {
        0
    } else {
        1 + continuation_len(bytes.drop_first())
    }
}

/// What stands at the start of a buffer where a length prefix is expected.
pub enum Prefix {
    /// The buffer ends before the prefix does.
    Incomplete,
    /// A prefix of `width` bytes that stands for `value`.
    Length { value: nat, width: nat },
}

/// The length prefix at the start of `bytes`: the bytes up to and including
/// the first without the high bit. It may be of any width and stand for any
/// number.
pub open spec fn parse_prefix(bytes: Seq<u8>) -> Prefix {
    let k = continuation_len(bytes);
    if k >= bytes.len() {
        Prefix::Incomplete
    } else {
        Prefix::Length { value: varint_value(bytes.take(k as int + 1)), width: k + 1 }
    }
}

/// 128 to the power of `n`.
spec fn pow128(n: nat) -> nat
    decreases n,
{
    if n == 0 {
        1
    } else {
        128 * pow128((n - 1) as nat)
    }
}

/// A run of `k` bytes with the high bit set, followed by the end of `s` or by
/// a byte without it, is the whole run of continuation bytes.
proof fn lemma_continuation_len(s: Seq<u8>, k: int)
    requires
        0 <= k <= s.len(),
        forall|j: int| 0 <= j < k ==> s[j] >= 128,
        k == s.len() || s[k] < 128,
    ensures
        continuation_len(s) == k,
    decreases k,
{
    if k > 0 {
        let t = s.drop_first();
        assert forall|j: int| 0 <= j < k - 1 implies t[j] >= 128 by {
            assert(t[j] == s[j + 1]);
        }
        lemma_continuation_len(t, k - 1);
    }
}

/// A buffer whose first `k` bytes all have the high bit set has at least `k`
/// continuation bytes.
proof fn lemma_continuation_at_least(s: Seq<u8>, k: int)
    requires
        0 <= k <= s.len(),
        forall|j: int| 0 <= j < k ==> s[j] >= 128,
    ensures
        continuation_len(s) >= k,
    decreases k,
{
    if k > 0 {
        let t = s.drop_first();
        assert forall|j: int| 0 <= j < k - 1 implies t[j] >= 128 by {
            assert(t[j] == s[j + 1]);
        }
        lemma_continuation_at_least(t, k - 1);
    }
}

/// The last byte is the most significant digit.
proof fn lemma_value_last(s: Seq<u8>)
    requires
        s.len() > 0,
    ensures
        varint_value(s) == varint_value(s.drop_last()) + pow128((s.len() - 1) as nat) * ((
        s.last() % 128) as nat),
    decreases s.len(),
{
    if s.len() == 1 {
        assert(s.drop_first() =~= Seq::<u8>::empty());
        assert(s.drop_last() =~= Seq::<u8>::empty());
        assert(varint_value(s.drop_first()) == 0);
        assert(pow128(0) == 1);
        assert(pow128(0) * ((s.last() % 128) as nat) == (s.last() % 128) as nat) by (nonlinear_arith)
            requires
                pow128(0) == 1,
        ;
    } else {
        let t = s.drop_first();
        lemma_value_last(t);
        assert(t.drop_last() =~= s.drop_last().drop_first());
        assert(t.last() == s.last());
        assert(s.drop_last()[0] == s[0]);
        let hi = (s.last() % 128) as nat;
        let p = pow128((t.len() - 1) as nat);
        let low = (s[0] % 128) as nat;
        assert(pow128((s.len() - 1) as nat) == 128 * p);
        assert(varint_value(s) == low + 128 * varint_value(t));
        assert(varint_value(t) == varint_value(t.drop_last()) + p * hi);
        assert(varint_value(s.drop_last()) == low + 128 * varint_value(t.drop_last()));
        assert(128 * (varint_value(t.drop_last()) + p * hi) == 128 * varint_value(t.drop_last())
            + (128 * p) * hi) by (nonlinear_arith);
        assert(pow128((s.len() - 1) as nat) * hi == (128 * p) * hi) by (nonlinear_arith)
            requires
                pow128((s.len() - 1) as nat) == 128 * p,
        ;
    }
}

/// More bytes never stand for less.
proof fn lemma_value_grows(s: Seq<u8>, a: int, b: int)
    requires
        0 <= a <= b <= s.len(),
    ensures
        varint_value(s.take(a)) <= varint_value(s.take(b)),
    decreases b - a,
{
    if a < b {
        lemma_value_grows(s, a, b - 1);
        lemma_value_last(s.take(b));
        assert(s.take(b).drop_last() =~= s.take(b - 1));
        assert(pow128((b - 1) as nat) * ((s.take(b).last() % 128) as nat) >= 0) by (nonlinear_arith);
    }
}

/// The bytes for `v` are one varint, and its value is `v`.
proof fn lemma_varint_bytes(v: nat)
    ensures
        varint_bytes(v).len() >= 1,
        continuation_len(varint_bytes(v)) == varint_bytes(v).len() - 1,
        varint_value(varint_bytes(v)) == v,
        forall|j: int| 0 <= j < varint_bytes(v).len() - 1 ==> varint_bytes(v)[j] >= 128,
        varint_bytes(v).last() < 128,
    decreases v,
{
    let b = varint_bytes(v);
    if v < 128 {
        assert(b.drop_first() =~= Seq::<u8>::empty());
        assert(varint_value(b.drop_first()) == 0);
    } else {
        lemma_varint_bytes(v / 128);
        let t = varint_bytes(v / 128);
        assert(b.drop_first() =~= t);
        assert(b[0] == (v % 128 + 128) as u8);
        assert(b[0] % 128 == v % 128);
        assert forall|j: int| 0 <= j < b.len() - 1 implies b[j] >= 128 by {
            if j > 0 {
                assert(b[j] == t[j - 1]);
            }
        }
        assert(b.last() == t.last());
    }
    lemma_continuation_len(b, b.len() - 1);
}

/// Reading undoes writing: a buffer that starts with the bytes for `v`
/// starts, whatever follows, with a prefix of that width that stands for `v`.
pub proof fn varint_round_trip(v: nat, rest: Seq<u8>)
    ensures
        parse_prefix(varint_bytes(v) + rest) == (Prefix::Length {
            value: v,
            width: varint_bytes(v).len(),
        }),
{
    let b = varint_bytes(v);
    let s = b + rest;
    lemma_varint_bytes(v);
    assert forall|j: int| 0 <= j < b.len() - 1 implies s[j] >= 128 by {
        assert(s[j] == b[j]);
    }
    assert(s[b.len() - 1] == b.last());
    lemma_continuation_len(s, b.len() - 1);
    assert(s.take(b.len() as int) =~= b);
}

/// Appends the bytes for `value` to `buf`.
pub fn encode_varint(value: u128, buf: &mut Vec<u8>)
    ensures
        final(buf)@ == old(buf)@ + varint_bytes(value as nat),
{
    let mut v: u128 = value;
    while v >= 128
        invariant
            buf@ + varint_bytes(v as nat) == old(buf)@ + varint_bytes(value as nat),
        decreases v,
    {
        let ghost before = buf@;
        let digit: u8 = (v % 128 + 128) as u8;
        buf.push(digit);
        proof {
            assert(varint_bytes(v as nat) == seq![digit] + varint_bytes((v / 128) as nat));
            assert(buf@ + varint_bytes((v / 128) as nat) =~= before + varint_bytes(v as nat));
        }
        v = v / 128;
    }
    let ghost before = buf@;
    buf.push(v as u8);
    proof {
        assert(buf@ =~= before + varint_bytes(v as nat));
    }
}

/// Reads the length prefix at the start of `buf` and returns the number it
/// stands for with its width. The result is `None` while the buffer ends
/// before the prefix does, and where the number is above `usize::MAX`.
pub fn decode_varint(buf: &[u8]) -> (r: Option<(usize, usize)>)
    ensures
        match parse_prefix(buf@) {
            Prefix::Incomplete => r.is_none(),
            Prefix::Length { value, width } => if value <= usize::MAX {
                r == Some((value as usize, width as usize))
            } else {
                r.is_none()
            },
        },
{
    let mut i: usize = 0;
    let mut value: usize = 0;
    let mut scale: Option<usize> = Some(1);
    proof {
        assert(buf@.take(0) =~= Seq::<u8>::empty());
        assert(pow128(0) == 1);
    }
    while i < buf.len()
        invariant
            i <= buf.len(),
            forall|j: int| 0 <= j < i ==> buf@[j] >= 128,
            value == varint_value(buf@.take(i as int)),
            scale matches Some(s) ==> s == pow128(i as nat),
            scale.is_none() ==> pow128(i as nat) > usize::MAX,
        decreases buf.len() - i,
    {
        let byte: u8 = buf[i];
        let digit: usize = (byte % 128) as usize;
        let ghost with_byte = buf@.take(i + 1);
        proof {
            lemma_value_last(with_byte);
            assert(with_byte.drop_last() =~= buf@.take(i as int));
            assert(with_byte.last() == byte);
            assert(pow128((i + 1) as nat) == 128 * pow128(i as nat));
        }
        if digit > 0 {
            let room: usize = (usize::MAX - value) / digit;
            let fits = match scale {
                Some(s) => s <= room,
                None => false,
            };
            if !fits {
                proof {
                    let p = pow128(i as nat);
                    assert(p * (digit as nat) > usize::MAX - value) by (nonlinear_arith)
                        requires
                            p > (usize::MAX - value) / (digit as int),
                            digit > 0,
                            usize::MAX - value >= 0,
                    ;
                    lemma_beyond(buf@, i as int);
                }
                return None;
            }
            let s: usize = scale.unwrap();
            proof {
                assert(digit * s <= usize::MAX - value) by (nonlinear_arith)
                    requires
                        s <= (usize::MAX - value) / (digit as int),
                        digit > 0,
                        usize::MAX - value >= 0,
                ;
                assert(pow128(i as nat) * (digit as nat) == digit * s) by (nonlinear_arith)
                    requires
                        pow128(i as nat) == s,
                ;
            }
            value = value + digit * s;
        } else {
            proof {
                assert(pow128(i as nat) * 0 == 0) by (nonlinear_arith);
            }
        }
        if byte < 128 {
            proof {
                lemma_continuation_len(buf@, i as int);
            }
            return Some((value, i + 1));
        }
        scale = match scale {
            Some(s) => if s <= usize::MAX / 128 {
                Some(s * 128)
            } else {
                None
            },
            None => None,
        };
        i += 1;
    }
    proof {
        lemma_continuation_len(buf@, buf@.len() as int);
    }
    None
}

/// A prefix whose first bytes already stand for more than `usize::MAX` is
/// incomplete or stands for more than `usize::MAX`.
proof fn lemma_beyond(s: Seq<u8>, i: int)
    requires
        0 <= i < s.len(),
        forall|j: int| 0 <= j < i ==> s[j] >= 128,
        varint_value(s.take(i + 1)) > usize::MAX,
    ensures
        match parse_prefix(s) {
            Prefix::Incomplete => true,
            Prefix::Length { value, width } => value > usize::MAX,
        },
{
    lemma_continuation_at_least(s, i);
    let k = continuation_len(s);
    if k < s.len() {
        lemma_value_grows(s, i + 1, k as int + 1);
    }
}

} // verus!
