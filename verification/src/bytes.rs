//! Values in guest accesses, in the byte order of the host.

use vstd::prelude::*;
use vstd::slice::slice_subrange;

verus! {

/// The order in which a host keeps the bytes of a value.
#[derive(Clone, Copy, Debug, PartialEq, Eq, Structural)]
pub enum ByteOrder {
    /// The lowest byte comes first.
    Little,
    /// The highest byte comes first.
    Big,
}

/// How many values `n` bytes can hold.
pub open spec fn byte_limit(n: nat) -> nat
    decreases n,
{
    if n == 0 {
        1
    } else {
        256 * byte_limit((n - 1) as nat)
    }
}

/// The value of a little-endian byte string.
pub open spec fn le_value(d: Seq<u8>) -> nat
    decreases d.len(),
{
    if d.len() == 0 {
        0
    } else {
        d[0] as nat + 256 * le_value(d.drop_first())
    }
}

/// The value of a big-endian byte string.
pub open spec fn be_value(d: Seq<u8>) -> nat
    decreases d.len(),
{
    if d.len() == 0 {
        0
    } else {
        256 * be_value(d.drop_last()) + d.last() as nat
    }
}

/// At most eight bytes, continued by zeros to eight.
pub open spec fn padded(d: Seq<u8>) -> Seq<u8> {
    d + Seq::new((8 - d.len()) as nat, |i: int| 0u8)
}

/// The 64-bit value whose first bytes, in the order of a host, are some bytes, and whose others are
/// zero.
pub open spec fn widened(d: Seq<u8>, order: ByteOrder) -> nat {
    match order {
        ByteOrder::Little => le_value(d),
        ByteOrder::Big => be_value(padded(d)),
    }
}

/// Byte `i` of the little-endian form of `value`, continued by zeros.
pub open spec fn le_byte(value: nat, i: nat) -> u8
    decreases i,
{
    if i == 0 {
        (value % 256) as u8
    } else {
        le_byte(value / 256, (i - 1) as nat)
    }
}

/// Byte `i` of a 32-bit value in the order of a host, continued by zeros.
pub open spec fn ordered_byte(value: u32, order: ByteOrder, i: int) -> u8 {
    match order {
        ByteOrder::Little => le_byte(value as nat, i as nat),
        ByteOrder::Big => if i < 4 {
            le_byte(value as nat, (3 - i) as nat)
        } else {
            0
        },
    }
}

/// What a read of `n` bytes is answered with from a 32-bit value: the first of its bytes in the
/// order of a host, and zeros after its four bytes.
pub open spec fn answer_bytes(value: u32, order: ByteOrder, n: nat) -> Seq<u8> {
    Seq::new(n, |i: int| ordered_byte(value, order, i))
}

/// The value of `n` bytes is one of those that they can hold.
pub proof fn lemma_le_value_bound(d: Seq<u8>)
    ensures
        le_value(d) < byte_limit(d.len()),
    decreases d.len(),
{
    if d.len() > 0 {
        lemma_le_value_bound(d.drop_first());
    }
}

proof fn lemma_be_value_bound(d: Seq<u8>)
    ensures
        be_value(d) < byte_limit(d.len()),
    decreases d.len(),
{
    if d.len() > 0 {
        lemma_be_value_bound(d.drop_last());
    }
}

/// Widens the data of an access of at most eight bytes to a 64-bit value.
pub fn widen(d: &[u8], order: ByteOrder) -> (v: u64)
    requires
        d@.len() <= 8,
    ensures
        v == widened(d@, order),
{
    match order {
        ByteOrder::Little => widen_little(d),
        ByteOrder::Big => widen_big(d),
    }
}

fn widen_little(d: &[u8]) -> (v: u64)
    requires
        d@.len() <= 8,
    ensures
        v == le_value(d@),
{
    let mut v: u64 = 0;
    let mut i: usize = d.len();
    while i > 0
        invariant
            i <= d@.len() <= 8,
            v == le_value(d@.skip(i as int)),
        decreases i,
    {
        i = i - 1;
        proof {
            let rest = d@.skip(i as int);
            assert(rest.drop_first() =~= d@.skip(i + 1));
            lemma_le_value_bound(rest);
            reveal_with_fuel(byte_limit, 9);
        }
        v = v * 256 + d[i] as u64;
    }
    assert(d@.skip(0) =~= d@);
    v
}

fn widen_big(d: &[u8]) -> (v: u64)
    requires
        d@.len() <= 8,
    ensures
        v == be_value(padded(d@)),
{
    let ghost all = padded(d@);
    let mut v: u64 = 0;
    let mut i: usize = 0;
    while i < 8
        invariant
            i <= 8,
            d@.len() <= 8,
            all == padded(d@),
            v == be_value(all.take(i as int)),
        decreases 8 - i,
    {
        let byte: u8 = if i < d.len() {
            d[i]
        } else {
            0
        };
        proof {
            let front = all.take(i + 1);
            assert(front.drop_last() =~= all.take(i as int));
            assert(front.last() == byte);
            lemma_be_value_bound(front);
            lemma_byte_limit_grows(front.len(), 8);
            reveal_with_fuel(byte_limit, 9);
        }
        v = v * 256 + byte as u64;
        i = i + 1;
    }
    assert(all.take(8) =~= all);
    v
}

/// Reads the eight bytes at `offset` of `d`.
pub fn read_u64(d: &[u8], offset: usize, order: ByteOrder) -> (v: u64)
    requires
        offset + 8 <= d@.len(),
    ensures
        v == widened(d@.subrange(offset as int, offset + 8), order),
{
    assert(d@.len() == d.len());
    widen(slice_subrange(d, offset, offset + 8), order)
}

/// Answers a read with a 32-bit value.
pub fn fill_u32(data: &mut [u8], value: u32, order: ByteOrder)
    ensures
        final(data)@ == answer_bytes(value, order, old(data)@.len()),
{
    let second: u32 = value / 256;
    let third: u32 = second / 256;
    let fourth: u32 = third / 256;
    let low: u8 = (value % 256) as u8;
    let mid_low: u8 = (second % 256) as u8;
    let mid_high: u8 = (third % 256) as u8;
    let high: u8 = (fourth % 256) as u8;
    let bytes: [u8; 4] = match order {
        ByteOrder::Little => [low, mid_low, mid_high, high],
        ByteOrder::Big => [high, mid_high, mid_low, low],
    };
    let mut i: usize = 0;
    let n: usize = data.len();
    let ghost start = data@;
    proof {
        reveal_with_fuel(le_byte, 5);
    }
    while i < n
        invariant
            i <= n,
            n == data@.len() == start.len(),
            forall|k: int| 0 <= k < 4 ==> bytes@[k] == ordered_byte(value, order, k),
            forall|k: int| 0 <= k < i ==> data@[k] == ordered_byte(value, order, k),
        decreases n - i,
    {
        if i < 4 {
            data[i] = bytes[i];
        } else {
            proof {
                lemma_no_fifth_byte(value, i as nat);
            }
            data[i] = 0;
        }
        i = i + 1;
    }
    assert(data@ =~= answer_bytes(value, order, start.len()));
}

proof fn lemma_no_fifth_byte(value: u32, i: nat)
    requires
        i >= 4,
    ensures
        le_byte(value as nat, i) == 0,
{
    reveal_with_fuel(le_byte, 5);
    lemma_zero_has_no_bytes((i - 4) as nat);
    assert(le_byte(value as nat, i) == le_byte(0, (i - 4) as nat));
}

proof fn lemma_zero_has_no_bytes(i: nat)
    ensures
        le_byte(0, i) == 0,
    decreases i,
{
    if i > 0 {
        lemma_zero_has_no_bytes((i - 1) as nat);
    }
}

/// Fills an unclaimed read with ones.
pub fn fill_ones(data: &mut [u8])
    ensures
        final(data)@ == Seq::new(old(data)@.len(), |i: int| 0xffu8),
{
    let mut i: usize = 0;
    let n: usize = data.len();
    while i < n
        invariant
            i <= n,
            n == data@.len() == old(data)@.len(),
            forall|k: int| 0 <= k < i ==> data@[k] == 0xffu8,
        decreases n - i,
    {
        data[i] = 0xff;
        i = i + 1;
    }
    assert(data@ =~= Seq::new(old(data)@.len(), |k: int| 0xffu8));
}

/// On a little-endian host, what a four-byte or longer read is answered with has the value that it
/// was answered from.
pub proof fn lemma_fill_then_widen(value: u32, n: nat)
    requires
        n >= 4,
    ensures
        widened(answer_bytes(value, ByteOrder::Little, n), ByteOrder::Little) == value,
{
    assert(answer_bytes(value, ByteOrder::Little, n) =~= Seq::new(
        n,
        |i: int| le_byte(value as nat, i as nat),
    ));
    lemma_le_value_of_bytes(value as nat, n);
    reveal_with_fuel(byte_limit, 5);
    lemma_byte_limit_grows(4, n);
    vstd::arithmetic::div_mod::lemma_small_mod(value as nat, byte_limit(n));
}

/// The bytes of a value, lowest first, are the ones that it was made of.
pub proof fn lemma_widen_then_bytes(d: Seq<u8>, i: nat)
    requires
        i < d.len(),
    ensures
        le_byte(le_value(d), i) == d[i as int],
    decreases i,
{
    let rest = le_value(d.drop_first());
    assert((d[0] as nat + 256 * rest) / 256 == rest);
    if i > 0 {
        lemma_widen_then_bytes(d.drop_first(), (i - 1) as nat);
    }
}

proof fn lemma_byte_limit_grows(m: nat, n: nat)
    requires
        m <= n,
    ensures
        0 < byte_limit(m) <= byte_limit(n),
    decreases n,
{
    if m < n {
        lemma_byte_limit_grows(m, (n - 1) as nat);
    } else if n > 0 {
        lemma_byte_limit_grows((m - 1) as nat, (n - 1) as nat);
    }
}

proof fn lemma_le_value_of_bytes(value: nat, n: nat)
    ensures
        le_value(Seq::new(n, |i: int| le_byte(value, i as nat))) == value % byte_limit(n),
    decreases n,
{
    let s = Seq::new(n, |i: int| le_byte(value, i as nat));
    if n == 0 {
        assert(value % 1 == 0);
    } else {
        let m = (n - 1) as nat;
        let t = Seq::new(m, |i: int| le_byte(value / 256, i as nat));
        assert(s.drop_first() =~= t);
        lemma_le_value_of_bytes(value / 256, m);
        lemma_byte_limit_grows(0, m);
        let limit = byte_limit(m) as int;
        vstd::arithmetic::div_mod::lemma_mod_breakdown(value as int, 256, limit);
    }
}

/// Byte `i` of some bytes, or zero behind them.
pub open spec fn byte_or_zero(d: Seq<u8>, i: int) -> int {
    if i < d.len() {
        d[i] as int
    } else {
        0
    }
}

/// Each byte of an access counts by its place: on a little-endian host the first byte is the lowest
/// of the eight, on a big-endian host it is the highest, and the bytes that are not there are zero.
pub proof fn lemma_widened_weighs_each_byte(d: Seq<u8>, order: ByteOrder)
    requires
        d.len() <= 8,
    ensures
        order == ByteOrder::Little ==> widened(d, order) == byte_or_zero(d, 0) + 0x100
            * byte_or_zero(d, 1) + 0x1_0000 * byte_or_zero(d, 2) + 0x100_0000 * byte_or_zero(d, 3)
            + 0x1_0000_0000 * byte_or_zero(d, 4) + 0x100_0000_0000 * byte_or_zero(d, 5)
            + 0x1_0000_0000_0000 * byte_or_zero(d, 6) + 0x100_0000_0000_0000 * byte_or_zero(d, 7),
        order == ByteOrder::Big ==> widened(d, order) == byte_or_zero(d, 7) + 0x100 * byte_or_zero(
            d,
            6,
        ) + 0x1_0000 * byte_or_zero(d, 5) + 0x100_0000 * byte_or_zero(d, 4) + 0x1_0000_0000
            * byte_or_zero(d, 3) + 0x100_0000_0000 * byte_or_zero(d, 2) + 0x1_0000_0000_0000
            * byte_or_zero(d, 1) + 0x100_0000_0000_0000 * byte_or_zero(d, 0),
{
    let p = padded(d);
    assert forall|i: int| 0 <= i < 8 implies p[i] == byte_or_zero(d, i) by {}
    if order == ByteOrder::Little {
        lemma_le_value_of_padded(d, (8 - d.len()) as nat);
        assert(p =~= d + Seq::new((8 - d.len()) as nat, |i: int| 0u8));
        lemma_le_value_from(p, 0);
        lemma_le_value_from(p, 1);
        lemma_le_value_from(p, 2);
        lemma_le_value_from(p, 3);
        lemma_le_value_from(p, 4);
        lemma_le_value_from(p, 5);
        lemma_le_value_from(p, 6);
        lemma_le_value_from(p, 7);
        assert(p.skip(0) =~= p);
        assert(p.skip(8) =~= Seq::empty());
    } else {
        lemma_be_value_to(p, 1);
        lemma_be_value_to(p, 2);
        lemma_be_value_to(p, 3);
        lemma_be_value_to(p, 4);
        lemma_be_value_to(p, 5);
        lemma_be_value_to(p, 6);
        lemma_be_value_to(p, 7);
        lemma_be_value_to(p, 8);
        assert(p.take(8) =~= p);
        assert(p.take(0) =~= Seq::empty());
    }
}

proof fn lemma_le_value_from(p: Seq<u8>, i: int)
    requires
        0 <= i < p.len(),
    ensures
        le_value(p.skip(i)) == p[i] + 256 * le_value(p.skip(i + 1)),
{
    assert(p.skip(i).drop_first() =~= p.skip(i + 1));
    assert(p.skip(i)[0] == p[i]);
}

proof fn lemma_be_value_to(p: Seq<u8>, i: int)
    requires
        0 < i <= p.len(),
    ensures
        be_value(p.take(i)) == 256 * be_value(p.take(i - 1)) + p[i - 1],
{
    assert(p.take(i).drop_last() =~= p.take(i - 1));
    assert(p.take(i).last() == p[i - 1]);
}

proof fn lemma_le_value_of_padded(d: Seq<u8>, n: nat)
    ensures
        le_value(d + Seq::new(n, |i: int| 0u8)) == le_value(d),
    decreases d.len(), n,
{
    let p = d + Seq::new(n, |i: int| 0u8);
    if d.len() > 0 {
        assert(p.drop_first() =~= d.drop_first() + Seq::new(n, |i: int| 0u8));
        lemma_le_value_of_padded(d.drop_first(), n);
    } else if n > 0 {
        let m = (n - 1) as nat;
        assert(p.drop_first() =~= d + Seq::new(m, |i: int| 0u8));
        lemma_le_value_of_padded(d, m);
    } else {
        assert(p =~= d);
    }
}

/// A read is answered with as many bytes as it asks for: those of the value in the order of the
/// host, the first four of them, and zeros.
pub proof fn lemma_answer_has_the_bytes_of_the_value(value: u32, order: ByteOrder, n: nat, i: int)
    requires
        0 <= i < n,
    ensures
        answer_bytes(value, order, n).len() == n,
        ({
            let place = if order == ByteOrder::Little {
                i
            } else {
                3 - i
            };
            let v = value as int;
            answer_bytes(value, order, n)[i] == if i >= 4 {
                0
            } else if place == 0 {
                v % 0x100
            } else if place == 1 {
                v / 0x100 % 0x100
            } else if place == 2 {
                v / 0x1_0000 % 0x100
            } else {
                v / 0x100_0000
            }
        }),
{
    reveal_with_fuel(le_byte, 5);
    if i >= 4 {
        lemma_no_fifth_byte(value, i as nat);
    }
}

/// The value of at most eight bytes fits 64 bits.
pub proof fn lemma_widened_fits(d: Seq<u8>, order: ByteOrder)
    requires
        d.len() <= 8,
    ensures
        widened(d, order) <= u64::MAX,
{
    lemma_widened_weighs_each_byte(d, order);
}

} // verus!
