//! Base-128 variable-length integers, the scalar encoding of the wire schema.
//!
//! A varint is one to five bytes, least-significant group first; every byte
//! but the last has its high bit set. Five seven-bit groups bound the value
//! below 2^35, which is ample for the type tags, request identifiers and
//! field lengths this protocol carries; longer encodings are rejected as
//! malformed.

use vstd::prelude::*;

verus! {

/// Largest value a varint may carry: five groups of seven bits.
pub const VARINT_MAX: u64 = 0x7_FFFF_FFFF;

/// The encoding of `v` as a varint.
pub open spec fn varint_bytes(v: int) -> Seq<u8>
    decreases v,
{
    if v < 0x80 {
        seq![v as u8]
    } else {
        seq![(v % 0x80 + 0x80) as u8] + varint_bytes(v / 0x80)
    }
}

/// Reads one varint from the front of `s`: the value and the number of bytes
/// consumed, or `None` when `s` is empty, over five bytes long, or truncated.
pub open spec fn take_varint(s: Seq<u8>) -> Option<(int, int)>
    decreases s.len(),
{
    if s.len() == 0 {
        None
    } else if s[0] < 0x80 {
        Some((s[0] as int, 1))
    } else {
        match take_varint(s.skip(1)) {
            None => None,
            Some((v, n)) => if n <= 4 {
                Some(((s[0] - 0x80) + v * 0x80, n + 1))
            } else {
                None
            },
        }
    }
}

/// Whatever `take_varint` reads is one to five bytes long, fits the declared
/// bound, and lies within `s`.
pub proof fn lemma_take_varint_bounds(s: Seq<u8>)
    ensures
        take_varint(s) matches Some((v, n)) ==> {
            &&& 1 <= n <= 5
            &&& n <= s.len()
            &&& 0 <= v <= VARINT_MAX
        },
    decreases s.len(),
{
    if s.len() > 0 && s[0] >= 0x80 {
        lemma_take_varint_bounds(s.skip(1));
    }
    lemma_take_varint_group_bound(s);
    let r = take_varint(s);
    if r is Some {
        let (v, n) = r->Some_0;
        lemma_pow128_increases(n, 5);
        lemma_pow128_values();
    }
}

/// Concrete powers of 128 used throughout.
proof fn lemma_pow128_values()
    ensures
        pow128(0) == 1,
        pow128(1) == 0x80,
        pow128(2) == 0x4000,
        pow128(3) == 0x20_0000,
        pow128(4) == 0x1000_0000,
        pow128(5) == 0x8_0000_0000,
{
    reveal_with_fuel(pow128, 6);
}

/// `pow128` grows with its exponent.
proof fn lemma_pow128_increases(a: int, b: int)
    requires
        a <= b,
    ensures
        pow128(a) <= pow128(b),
    decreases b - a,
{
    if a < b {
        lemma_pow128_increases(a, b - 1);
        lemma_pow128_pos(b - 1);
        if b > 0 {
            assert(pow128(b) == 0x80 * pow128(b - 1));
            assert(0x80 * pow128(b - 1) >= pow128(b - 1)) by (nonlinear_arith)
                requires pow128(b - 1) >= 1,
            ;
        }
    }
}

/// `pow128` is positive.
proof fn lemma_pow128_pos(n: int)
    ensures
        pow128(n) >= 1,
    decreases n,
{
    if n > 0 {
        lemma_pow128_pos(n - 1);
    }
}

/// The sharper bound behind `lemma_take_varint_bounds`: a varint of `n` bytes
/// holds a value below `2^(7n)`.
proof fn lemma_take_varint_group_bound(s: Seq<u8>)
    ensures
        take_varint(s) matches Some((v, n)) ==> 1 <= n && 0 <= v < pow128(n),
    decreases s.len(),
{
    lemma_pow128_values();
    if s.len() > 0 && s[0] >= 0x80 {
        lemma_take_varint_group_bound(s.skip(1));
        let r = take_varint(s.skip(1));
        if r is Some {
            let (v, n) = r->Some_0;
            if n <= 4 {
                let low = s[0] - 0x80;
                assert(pow128(n + 1) == 0x80 * pow128(n));
                assert(0 <= low + v * 0x80 < pow128(n + 1)) by (nonlinear_arith)
                    requires
                        0 <= low < 0x80,
                        0 <= v < pow128(n),
                        pow128(n + 1) == 0x80 * pow128(n),
                ;
            }
        }
    }
}

/// `128^n`, the number of values `n` seven-bit groups can hold.
pub open spec fn pow128(n: int) -> int
    decreases n,
{
    if n <= 0 {
        1
    } else {
        0x80 * pow128(n - 1)
    }
}

/// A varint never reads past the bytes that encode it: parsing is unaffected
/// by whatever follows.
pub proof fn lemma_take_varint_extend(s: Seq<u8>, t: Seq<u8>)
    ensures
        take_varint(s) matches Some((v, n)) ==> take_varint(s + t) == Some((v, n)),
    decreases s.len(),
{
    if s.len() > 0 {
        assert((s + t)[0] == s[0]);
        if s[0] >= 0x80 {
            lemma_take_varint_extend(s.skip(1), t);
            assert((s + t).skip(1) =~= s.skip(1) + t);
        }
    }
}

/// Round trip: the bytes written for `v` parse back to `v`, whatever follows.
pub proof fn lemma_varint_round_trip(v: int, t: Seq<u8>)
    requires
        0 <= v <= VARINT_MAX,
    ensures
        varint_bytes(v).len() <= 5,
        take_varint(varint_bytes(v) + t) == Some((v, varint_bytes(v).len() as int)),
    decreases v,
{
    let b = varint_bytes(v);
    if v < 0x80 {
        assert((b + t)[0] == v as u8);
        assert((b + t).skip(1) =~= t);
    } else {
        assert(v / 0x80 < 0x1000_0000) by (nonlinear_arith)
            requires 0 <= v <= 0x7_FFFF_FFFF,
        ;
        lemma_varint_round_trip(v / 0x80, t);
        let head = (v % 0x80 + 0x80) as u8;
        assert((b + t)[0] == head);
        assert((b + t).skip(1) =~= varint_bytes(v / 0x80) + t);
        lemma_pow128_values();
        lemma_varint_bytes_len(v / 0x80, 4);
        assert((head - 0x80) + (v / 0x80) * 0x80 == v) by (nonlinear_arith)
            requires head == v % 0x80 + 0x80, 0 <= v,
        ;
    }
}

/// A value below `128^n` encodes in at most `n` bytes.
proof fn lemma_varint_bytes_len(v: int, n: int)
    requires
        0 <= v < pow128(n),
        n >= 1,
    ensures
        varint_bytes(v).len() <= n,
    decreases n,
{
    if v >= 0x80 {
        assert(v / 0x80 < pow128(n - 1)) by (nonlinear_arith)
            requires v < pow128(n), pow128(n) == 0x80 * pow128(n - 1), 0 <= v,
        ;
        lemma_varint_bytes_len(v / 0x80, n - 1);
    }
}

/// Appends the varint encoding of `v` to `out`.
pub fn write_varint(out: &mut Vec<u8>, v: u64)
    requires
        v <= VARINT_MAX,
    ensures
        final(out)@ == old(out)@ + varint_bytes(v as int),
    decreases v,
{
    if v < 0x80 {
        out.push(v as u8);
        assert(final(out)@ =~= old(out)@ + varint_bytes(v as int));
    } else {
        out.push((v % 0x80 + 0x80) as u8);
        write_varint(out, v / 0x80);
        assert(final(out)@ =~= old(out)@ + varint_bytes(v as int));
    }
}

/// Reads one varint starting at `s[i]`; mirrors `take_varint` on the bytes
/// from `i` on.
pub fn read_varint(s: &[u8], i: usize) -> (r: Option<(u64, usize)>)
    requires
        i <= s@.len(),
    ensures
        match r {
            Some((v, n)) => {
                &&& take_varint(s@.skip(i as int)) == Some((v as int, n as int))
                &&& 1 <= n <= 5
                &&& i + n <= s@.len()
                &&& v <= VARINT_MAX
            },
            None => take_varint(s@.skip(i as int)) is None,
        },
    decreases s@.len() - i,
{
    if i >= s.len() {
        return None;
    }
    let b = *vstd::slice::slice_index_get(s, i);
    assert(b == s@.skip(i as int)[0]);
    if b < 0x80 {
        Some((b as u64, 1))
    } else {
        assert(s@.skip(i as int).skip(1) =~= s@.skip(i as int + 1));
        match read_varint(s, i + 1) {
            None => None,
            Some((v, n)) => {
                if n <= 4 {
                    proof {
                        lemma_take_varint_group_bound(s@.skip(i as int + 1));
                        lemma_pow128_increases(n as int, 4);
                        lemma_pow128_values();
                        assert(v * 0x80 + (b - 0x80) <= VARINT_MAX) by (nonlinear_arith)
                            requires 0 <= v <= 0xFFF_FFFF, 0x80 <= b <= 0xFF,
                        ;
                    }
                    Some((v * 0x80 + (b - 0x80) as u64, n + 1))
                } else {
                    None
                }
            },
        }
    }
}

} // verus!
