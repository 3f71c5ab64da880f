//! Byte order: how an unsigned number lies in memory and on the wire.

use vstd::endian::endianness;
use vstd::endian::Endian;
use vstd::prelude::*;

verus! {

/// The `n` low-order bytes of `x`, most significant first (network order).
pub open spec fn be_bytes(x: nat, n: nat) -> Seq<u8>
    decreases n,
{
    if n == 0 {
        Seq::empty()
    } else {
        be_bytes(x / 256, (n - 1) as nat).push((x % 256) as u8)
    }
}

/// The `n` low-order bytes of `x`, least significant first.
pub open spec fn le_bytes(x: nat, n: nat) -> Seq<u8>
    decreases n,
{
    if n == 0 {
        Seq::empty()
    } else {
        seq![(x % 256) as u8] + le_bytes(x / 256, (n - 1) as nat)
    }
}

/// The number that `s` spells, most significant byte first.
pub open spec fn be_value(s: Seq<u8>) -> nat
    decreases s.len(),
{
    if s.len() == 0 {
        0
    } else {
        be_value(s.drop_last()) * 256 + s.last() as nat
    }
}

/// The number that `s` spells, least significant byte first.
pub open spec fn le_value(s: Seq<u8>) -> nat
    decreases s.len(),
{
    if s.len() == 0 {
        0
    } else {
        s[0] as nat + 256 * le_value(s.drop_first())
    }
}

/// The `n` low-order bytes of `x` in the order in which this machine keeps them in memory.
pub open spec fn host_bytes(x: nat, n: nat) -> Seq<u8> {
    match endianness() {
        Endian::Little => le_bytes(x, n),
        Endian::Big => be_bytes(x, n),
    }
}

/// The number that this machine reads from the bytes `s` in memory.
pub open spec fn host_value(s: Seq<u8>) -> nat {
    match endianness() {
        Endian::Little => le_value(s),
        Endian::Big => be_value(s),
    }
}

/// The bytes in memory of the numbers `values`, each of them `width` bytes wide, one after
/// the other.
pub open spec fn host_image(values: Seq<nat>, width: nat) -> Seq<u8>
    decreases values.len(),
{
    if values.len() == 0 {
        Seq::empty()
    } else {
        host_image(values.drop_last(), width) + host_bytes(values.last(), width)
    }
}

/// The image of the first `i + 1` numbers is that of the first `i`, then the bytes of the
/// number at `i`; it holds `width` bytes for each number.
pub proof fn lemma_host_image_grows(values: Seq<nat>, width: nat, i: int)
    requires
        0 <= i < values.len(),
    ensures
        host_image(values.take(i + 1), width) == host_image(values.take(i), width) + host_bytes(
            values[i],
            width,
        ),
        host_image(values.take(i), width).len() == i * width,
    decreases i,
{
    assert(values.take(i + 1).drop_last() =~= values.take(i));
    if i > 0 {
        lemma_host_image_grows(values, width, i - 1);
        lemma_bytes_len(values[i - 1], width);
        assert(i * width == (i - 1) * width + width) by (nonlinear_arith);
    } else {
        assert(0 * width == 0) by (nonlinear_arith);
    }
}

/// `n` bytes that are all zero.
pub open spec fn zeros(n: nat) -> Seq<u8> {
    Seq::new(n, |i: int| 0u8)
}

/// Zero is written as zero bytes, in any order.
pub proof fn lemma_zero_bytes(n: nat)
    ensures
        be_bytes(0, n) == zeros(n),
        le_bytes(0, n) == zeros(n),
        host_bytes(0, n) == zeros(n),
    decreases n,
{
    if n > 0 {
        lemma_zero_bytes((n - 1) as nat);
        lemma_bytes_len(0, (n - 1) as nat);
    }
    assert(be_bytes(0, n) =~= zeros(n));
    assert(le_bytes(0, n) =~= zeros(n));
}

/// The count of numbers that `n` bytes can spell: 256 to the power `n`.
pub open spec fn span(n: nat) -> nat
    decreases n,
{
    if n == 0 {
        1
    } else {
        256 * span((n - 1) as nat)
    }
}

/// `n` bytes of any order hold `n` bytes.
pub proof fn lemma_bytes_len(x: nat, n: nat)
    ensures
        be_bytes(x, n).len() == n,
        le_bytes(x, n).len() == n,
        host_bytes(x, n).len() == n,
    decreases n,
{
    if n > 0 {
        lemma_bytes_len(x / 256, (n - 1) as nat);
    }
}

/// What bytes spell is below the span of their count.
pub proof fn lemma_value_bound(s: Seq<u8>)
    ensures
        be_value(s) < span(s.len()),
        le_value(s) < span(s.len()),
        host_value(s) < span(s.len()),
    decreases s.len(),
{
    if s.len() > 0 {
        lemma_value_bound(s.drop_last());
        lemma_value_bound(s.drop_first());
    }
}

/// The spans of the widths in use.
pub proof fn lemma_span_values()
    ensures
        span(2) == 0x1_0000,
        span(4) == 0x1_0000_0000,
        span(8) == 0x1_0000_0000_0000_0000,
        span(15) == 0x1_0000_0000_0000_0000_0000_0000_0000_00,
        span(16) == 0x1_0000_0000_0000_0000_0000_0000_0000_0000,
{
    reveal_with_fuel(span, 17);
}

/// Spans grow with the count of bytes.
pub proof fn lemma_span_grows(m: nat, n: nat)
    requires
        m <= n,
    ensures
        0 < span(m) <= span(n),
    decreases n,
{
    if m < n {
        lemma_span_grows(m, (n - 1) as nat);
    } else if n > 0 {
        lemma_span_grows((m - 1) as nat, (n - 1) as nat);
    }
}

/// Writing down the number that `s` spells, in the same order and width, gives `s` back.
pub proof fn lemma_bytes_of_value(s: Seq<u8>)
    ensures
        be_bytes(be_value(s), s.len()) == s,
        le_bytes(le_value(s), s.len()) == s,
        host_bytes(host_value(s), s.len()) == s,
    decreases s.len(),
{
    if s.len() > 0 {
        let front = s.drop_last();
        let back = s.drop_first();
        lemma_bytes_of_value(front);
        lemma_bytes_of_value(back);
        assert(be_bytes(be_value(s), s.len()) =~= s);
        assert(le_bytes(le_value(s), s.len()) =~= s);
    } else {
        assert(be_bytes(be_value(s), s.len()) =~= s);
        assert(le_bytes(le_value(s), s.len()) =~= s);
    }
}

/// Reading back the `n` bytes written for `x` gives `x`, where `n` bytes can hold it.
pub proof fn lemma_value_of_bytes(x: nat, n: nat)
    requires
        x < span(n),
    ensures
        be_value(be_bytes(x, n)) == x,
        le_value(le_bytes(x, n)) == x,
        host_value(host_bytes(x, n)) == x,
    decreases n,
{
    if n > 0 {
        let m = (n - 1) as nat;
        lemma_value_of_bytes(x / 256, m);
        lemma_bytes_len(x / 256, m);
        assert(be_bytes(x, n).drop_last() =~= be_bytes(x / 256, m));
        assert(le_bytes(x, n).drop_first() =~= le_bytes(x / 256, m));
    }
}

/// `u16::to_ne_bytes`: the two bytes of `x` in the order in which this machine keeps them
/// in memory. Taken on trust: on a machine that `endianness()` calls little-endian the
/// result is the low byte and then the high byte, on any other the high byte and then
/// the low byte.
#[verifier::external_body]
fn u16_in_memory(x: u16) -> (r: [u8; 2])
    ensures
        r@ == host_bytes(x as nat, 2),
{
    x.to_ne_bytes()
}

/// Whether this machine keeps the least significant byte of a number first.
pub fn host_is_little() -> (r: bool)
    ensures
        r == (endianness() is Little),
{
    let probe = u16_in_memory(1);
    proof {
        reveal_with_fuel(be_bytes, 3);
        reveal_with_fuel(le_bytes, 3);
        assert(le_bytes(1, 2)[0] == 1u8);
        assert(be_bytes(1, 2)[0] == 0u8);
    }
    probe[0] == 1
}

/// The `N` low-order bytes of `x` in network order.
pub fn be_array<const N: usize>(x: u128) -> (r: [u8; N])
    ensures
        r@ == be_bytes(x as nat, N as nat),
{
    let mut r = [0u8; N];
    let mut rest: u128 = x;
    let mut i: usize = N;
    while i > 0
        invariant
            i <= N,
            r@.len() == N,
            be_bytes(x as nat, N as nat) == be_bytes(rest as nat, i as nat) + r@.skip(i as int),
        decreases i,
    {
        let ghost before = r@;
        i = i - 1;
        r[i] = (rest % 256) as u8;
        proof {
            assert(be_bytes(rest as nat, (i + 1) as nat) + before.skip(i + 1) =~= be_bytes(
                (rest / 256) as nat,
                i as nat,
            ) + r@.skip(i as int));
        }
        rest = rest / 256;
    }
    proof {
        assert(be_bytes(rest as nat, 0) + r@.skip(0) =~= r@);
    }
    r
}

/// The `N` low-order bytes of `x`, least significant first.
pub fn le_array<const N: usize>(x: u128) -> (r: [u8; N])
    ensures
        r@ == le_bytes(x as nat, N as nat),
{
    let mut r = [0u8; N];
    let mut rest: u128 = x;
    let mut i: usize = 0;
    while i < N
        invariant
            i <= N,
            r@.len() == N,
            le_bytes(x as nat, N as nat) == r@.take(i as int) + le_bytes(
                rest as nat,
                (N - i) as nat,
            ),
        decreases N - i,
    {
        let ghost before = r@;
        r[i] = (rest % 256) as u8;
        proof {
            assert(before.take(i as int) + le_bytes(rest as nat, (N - i) as nat) =~= r@.take(
                i + 1,
            ) + le_bytes((rest / 256) as nat, (N - i - 1) as nat));
        }
        rest = rest / 256;
        i = i + 1;
    }
    proof {
        assert(r@.take(N as int) + le_bytes(rest as nat, 0) =~= r@);
    }
    r
}

/// The `N` low-order bytes of `x` as this machine keeps them in memory.
pub fn host_array<const N: usize>(x: u128) -> (r: [u8; N])
    ensures
        r@ == host_bytes(x as nat, N as nat),
{
    if host_is_little() {
        le_array::<N>(x)
    } else {
        be_array::<N>(x)
    }
}

/// The number that the bytes `b` spell in network order.
pub fn be_number<const N: usize>(b: &[u8; N]) -> (r: u128)
    requires
        N <= 16,
    ensures
        r == be_value(b@),
{
    let mut r: u128 = 0;
    let mut i: usize = 0;
    while i < N
        invariant
            i <= N <= 16,
            b@.len() == N,
            r == be_value(b@.take(i as int)),
        decreases N - i,
    {
        proof {
            lemma_value_bound(b@.take(i as int));
            lemma_span_grows(i as nat, 15);
            lemma_span_values();
            assert(b@.take(i + 1).drop_last() =~= b@.take(i as int));
        }
        r = r * 256 + b[i] as u128;
        i = i + 1;
    }
    proof {
        assert(b@.take(N as int) =~= b@);
    }
    r
}

/// The number that the bytes `b` spell, least significant first.
pub fn le_number<const N: usize>(b: &[u8; N]) -> (r: u128)
    requires
        N <= 16,
    ensures
        r == le_value(b@),
{
    let mut r: u128 = 0;
    let mut i: usize = N;
    while i > 0
        invariant
            i <= N <= 16,
            b@.len() == N,
            r == le_value(b@.skip(i as int)),
        decreases i,
    {
        proof {
            lemma_value_bound(b@.skip(i as int));
            lemma_span_grows((N - i) as nat, 15);
            lemma_span_values();
            assert(b@.skip(i - 1).drop_first() =~= b@.skip(i as int));
        }
        i = i - 1;
        r = r * 256 + b[i] as u128;
    }
    proof {
        assert(b@.skip(0) =~= b@);
    }
    r
}

/// The number that this machine reads from the bytes `b` in memory.
pub fn host_number<const N: usize>(b: &[u8; N]) -> (r: u128)
    requires
        N <= 16,
    ensures
        r == host_value(b@),
{
    if host_is_little() {
        le_number::<N>(b)
    } else {
        be_number::<N>(b)
    }
}

/// The 16-bit number whose bytes in this machine's memory are those of `x` in network order.
pub open spec fn spec_htons(x: u16) -> u16 {
    host_value(be_bytes(x as nat, 2)) as u16
}

/// The 32-bit number whose bytes in this machine's memory are those of `x` in network order.
pub open spec fn spec_htonl(x: u32) -> u32 {
    host_value(be_bytes(x as nat, 4)) as u32
}

/// Host to network order, 16 bits.
pub fn htons(x: u16) -> (r: u16)
    ensures
        r == spec_htons(x),
        host_bytes(r as nat, 2) == be_bytes(x as nat, 2),
{
    let wire = be_array::<2>(x as u128);
    let n = host_number::<2>(&wire);
    proof {
        lemma_value_bound(wire@);
        lemma_span_values();
        lemma_bytes_of_value(wire@);
    }
    n as u16
}

/// Host to network order, 32 bits.
pub fn htonl(x: u32) -> (r: u32)
    ensures
        r == spec_htonl(x),
        host_bytes(r as nat, 4) == be_bytes(x as nat, 4),
{
    let wire = be_array::<4>(x as u128);
    let n = host_number::<4>(&wire);
    proof {
        lemma_value_bound(wire@);
        lemma_span_values();
        lemma_bytes_of_value(wire@);
    }
    n as u32
}

} // verus!
