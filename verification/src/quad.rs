//! Dotted-quad text of an IPv4 address.

use vstd::prelude::*;
use vstd::utf8::encode_utf8;

verus! {

/// The byte that parts the segments: `.`.
pub const DOT: u8 = 46;

/// The sign that may stand before the digits of a segment: `+`.
pub const PLUS: u8 = 43;

/// The digit `0`.
pub const DIGIT_0: u8 = 48;

/// The digit `9`.
pub const DIGIT_9: u8 = 57;

/// The position of the first dot in `s`, or the length of `s` if it holds none.
pub open spec fn first_dot(s: Seq<u8>) -> int
    decreases s.len(),
{
    if s.len() == 0 || s[0] == DOT {
        0
    } else {
        1 + first_dot(s.drop_first())
    }
}

/// The segments of `s`: what stands before, between and after its dots. A text without a
/// dot is one segment, and so is the empty text.
pub open spec fn segments(s: Seq<u8>) -> Seq<Seq<u8>>
    decreases s.len(),
{
    let k = first_dot(s);
    if 0 <= k < s.len() {
        seq![s.take(k)] + segments(s.skip(k + 1))
    } else {
        seq![s]
    }
}

/// Whether `d` is made of decimal digits, and of one at least.
pub open spec fn is_digits(d: Seq<u8>) -> bool {
    d.len() > 0 && forall|j: int| 0 <= j < d.len() ==> DIGIT_0 <= #[trigger] d[j] <= DIGIT_9
}

/// The number that the decimal digits `d` spell.
pub open spec fn decimal(d: Seq<u8>) -> nat
    decreases d.len(),
{
    if d.len() == 0 {
        0
    } else {
        decimal(d.drop_last()) * 10 + (d.last() - DIGIT_0) as nat
    }
}

/// A segment without the `+` that may stand before its digits.
pub open spec fn unsigned(seg: Seq<u8>) -> Seq<u8> {
    if seg.len() > 0 && seg[0] == PLUS {
        seg.drop_first()
    } else {
        seg
    }
}

/// The octet that a segment spells: decimal digits, after a `+` or not, of a number up to
/// 255. Any other segment spells none.
pub open spec fn octet(seg: Seq<u8>) -> Option<nat> {
    let d = unsigned(seg);
    if is_digits(d) && decimal(d) <= 255 {
        Some(decimal(d))
    } else {
        None
    }
}

/// The octet of the segment at `i`, and zero where there is no such segment.
pub open spec fn octet_at(segs: Seq<Seq<u8>>, i: int) -> nat {
    if 0 <= i < segs.len() && octet(segs[i]) is Some {
        octet(segs[i])->0
    } else {
        0
    }
}

/// The address of which the first four segments are the octets, the first of them the
/// most significant.
pub open spec fn quad_value(segs: Seq<Seq<u8>>) -> nat {
    octet_at(segs, 0) * 0x100_0000 + octet_at(segs, 1) * 0x1_0000 + octet_at(segs, 2) * 0x100
        + octet_at(segs, 3)
}

/// The count of segments of `s` that are read: four at most.
pub open spec fn read_segments(s: Seq<u8>) -> int {
    if segments(s).len() < 4 {
        segments(s).len() as int
    } else {
        4
    }
}

/// What the text `s` comes to: the address in host order, or the position of the first
/// segment among those read that spells no octet.
pub open spec fn is_quad_of(s: Seq<u8>, r: Result<u32, usize>) -> bool {
    let segs = segments(s);
    match r {
        Ok(v) => {
            &&& forall|j: int| 0 <= j < read_segments(s) ==> (#[trigger] octet(segs[j])) is Some
            &&& v == quad_value(segs)
        },
        Err(i) => {
            &&& i < read_segments(s)
            &&& octet(segs[i as int]) is None
            &&& forall|j: int| 0 <= j < i ==> (#[trigger] octet(segs[j])) is Some
        },
    }
}

/// A text comes to one result and no other.
pub proof fn lemma_quad_unique(s: Seq<u8>, a: Result<u32, usize>, b: Result<u32, usize>)
    requires
        is_quad_of(s, a),
        is_quad_of(s, b),
    ensures
        a == b,
{
}

/// A position that holds the first dot, or the end of a text without one, is what
/// `first_dot` gives.
proof fn lemma_first_dot(s: Seq<u8>, k: int)
    requires
        0 <= k <= s.len(),
        forall|j: int| 0 <= j < k ==> s[j] != DOT,
        k == s.len() || s[k] == DOT,
    ensures
        first_dot(s) == k,
    decreases k,
{
    if k > 0 {
        let t = s.drop_first();
        assert forall|j: int| 0 <= j < k - 1 implies t[j] != DOT by {
            assert(t[j] == s[j + 1]);
        }
        lemma_first_dot(t, k - 1);
    }
}

/// The segments of what follows position `pos` of `s`, where the first dot from there on
/// is at `end`, or `end` is the length of `s` if there is none: the first of them reaches
/// up to `end`, and the others are the segments of what follows the dot.
proof fn lemma_segments_from(s: Seq<u8>, pos: int, end: int)
    requires
        0 <= pos <= end <= s.len(),
        end - pos == first_dot(s.skip(pos)),
    ensures
        segments(s.skip(pos)).len() >= 1,
        segments(s.skip(pos))[0] == s.subrange(pos, end),
        end < s.len() ==> segments(s.skip(pos)).skip(1) == segments(s.skip(end + 1)),
        end == s.len() ==> segments(s.skip(pos)).len() == 1,
{
    let rest = s.skip(pos);
    assert(rest.take(end - pos) =~= s.subrange(pos, end));
    if end < s.len() {
        assert(rest.skip(end - pos + 1) =~= s.skip(end + 1));
        assert(segments(rest).skip(1) =~= segments(s.skip(end + 1)));
    } else {
        assert(rest =~= s.subrange(pos, end));
    }
}

/// The position of the first dot of `bytes` at or after `from`, or the length of `bytes`.
fn find_dot(bytes: &[u8], from: usize) -> (r: usize)
    requires
        from <= bytes@.len(),
    ensures
        from <= r <= bytes@.len(),
        r - from == first_dot(bytes@.skip(from as int)),
{
    let mut r = from;
    while r < bytes.len() && bytes[r] != DOT
        invariant
            from <= r <= bytes@.len(),
            forall|j: int| from <= j < r ==> bytes@[j] != DOT,
        decreases bytes@.len() - r,
    {
        r = r + 1;
    }
    proof {
        lemma_first_dot(bytes@.skip(from as int), r - from);
    }
    r
}

/// The octet that the bytes of `bytes` from `from` up to `to` spell.
fn parse_octet(bytes: &[u8], from: usize, to: usize) -> (r: Option<u32>)
    requires
        from <= to <= bytes@.len(),
    ensures
        match octet(bytes@.subrange(from as int, to as int)) {
            Some(v) => r == Some(v as u32) && v <= 255,
            None => r is None,
        },
{
    let ghost seg = bytes@.subrange(from as int, to as int);
    let mut p = from;
    if p < to && bytes[p] == PLUS {
        p = p + 1;
    }
    let ghost d = bytes@.subrange(p as int, to as int);
    proof {
        assert(d =~= unsigned(seg));
    }
    if p == to {
        return None;
    }
    let start = p;
    let mut v: u32 = 0;
    while p < to
        invariant
            from <= start <= p <= to <= bytes@.len(),
            d == bytes@.subrange(start as int, to as int),
            d == unsigned(bytes@.subrange(from as int, to as int)),
            forall|j: int| 0 <= j < p - start ==> DIGIT_0 <= #[trigger] d[j] <= DIGIT_9,
            v <= 255 ==> v == decimal(d.take(p - start)),
            v > 255 ==> decimal(d.take(p - start)) > 255,
            v <= 2559,
        decreases to - p,
    {
        let c = bytes[p];
        if c < DIGIT_0 || c > DIGIT_9 {
            proof {
                assert(d[p - start] == c);
            }
            return None;
        }
        proof {
            assert(d.take(p - start + 1).drop_last() =~= d.take(p - start));
            assert(d.take(p - start + 1).last() == c);
        }
        if v <= 255 {
            v = v * 10 + (c - DIGIT_0) as u32;
        }
        p = p + 1;
    }
    proof {
        assert(d.take(to - start) =~= d);
    }
    if v > 255 {
        None
    } else {
        Some(v)
    }
}

/// The octet of the segment of `bytes` that begins at `pos`, and where that segment ends:
/// at a dot, or at the end of `bytes`.
fn read_segment(bytes: &[u8], pos: usize) -> (r: (Option<u32>, usize))
    requires
        pos <= bytes@.len(),
    ensures
        pos <= r.1 <= bytes@.len(),
        segments(bytes@.skip(pos as int)).len() >= 1,
        match octet(segments(bytes@.skip(pos as int))[0]) {
            Some(v) => r.0 == Some(v as u32) && v <= 255,
            None => r.0 is None,
        },
        r.1 < bytes@.len() ==> segments(bytes@.skip(pos as int)).skip(1) == segments(
            bytes@.skip(r.1 + 1),
        ),
        r.1 == bytes@.len() ==> segments(bytes@.skip(pos as int)).len() == 1,
{
    let end = find_dot(bytes, pos);
    proof {
        lemma_segments_from(bytes@, pos as int, end as int);
    }
    (parse_octet(bytes, pos, end), end)
}

/// The part of the address that the first `i` segments make up.
spec fn quad_prefix(segs: Seq<Seq<u8>>, i: int) -> nat {
    let a: nat = if i > 0 {
        octet_at(segs, 0) * 0x100_0000
    } else {
        0
    };
    let b: nat = if i > 1 {
        octet_at(segs, 1) * 0x1_0000
    } else {
        0
    };
    let c: nat = if i > 2 {
        octet_at(segs, 2) * 0x100
    } else {
        0
    };
    let d: nat = if i > 3 {
        octet_at(segs, 3)
    } else {
        0
    };
    a + b + c + d
}

/// The address with the octet `v` taken in as that of the segment at `i`.
fn with_octet(ret: u32, i: usize, v: u32, Ghost(segs): Ghost<Seq<Seq<u8>>>) -> (r: u32)
    requires
        i < 4,
        i < segs.len(),
        v <= 255,
        octet(segs[i as int]) == Some(v as nat),
        forall|j: int| 0 <= j < i ==> octet_at(segs, j) <= 255,
        ret == quad_prefix(segs, i as int),
    ensures
        r == quad_prefix(segs, i + 1),
{
    if i == 0 {
        v * 0x100_0000
    } else if i == 1 {
        ret + v * 0x1_0000
    } else if i == 2 {
        ret + v * 0x100
    } else {
        ret + v
    }
}

/// The IPv4 address that the dotted-quad text `addr` spells, in host order. Up to four
/// segments are read, further ones are passed over, and an address of fewer than four
/// segments is filled up with zero octets. A segment that spells no octet fails the whole,
/// with the position of the first such segment.
pub fn inet_addr(addr: &str) -> (r: Result<u32, usize>)
    ensures
        is_quad_of(encode_utf8(addr@), r),
{
    let bytes = addr.as_bytes();
    let ghost segs = segments(bytes@);
    let mut ret: u32 = 0;
    let mut pos: usize = 0;
    let mut i: usize = 0;
    let mut more = true;
    proof {
        assert(bytes@.skip(0) =~= bytes@);
        assert(segs.skip(0) =~= segs);
    }
    while i < 4 && more
        invariant
            i <= 4,
            pos <= bytes@.len(),
            segs == segments(bytes@),
            bytes@ == encode_utf8(addr@),
            more ==> segs.skip(i as int) == segments(bytes@.skip(pos as int)) && i < segs.len(),
            !more ==> segs.len() == i,
            forall|j: int| 0 <= j < i ==> (#[trigger] octet(segs[j])) is Some,
            forall|j: int| 0 <= j < i ==> #[trigger] octet_at(segs, j) <= 255,
            ret == quad_prefix(segs, i as int),
        decreases 4 - i,
    {
        let (parsed, end) = read_segment(bytes, pos);
        proof {
            assert(segs[i as int] == segs.skip(i as int)[0]);
            if end < bytes@.len() {
                assert(segs.skip(i + 1) =~= segs.skip(i as int).skip(1));
            }
        }
        match parsed {
            None => {
                return Err(i);
            },
            Some(v) => {
                ret = with_octet(ret, i, v, Ghost(segs));
            },
        }
        if end < bytes.len() {
            pos = end + 1;
        } else {
            more = false;
        }
        i = i + 1;
    }
    Ok(ret)
}

} // verus!
