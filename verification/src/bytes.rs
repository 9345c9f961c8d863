//! Byte-level codec for unsigned integers of a fixed width, in both
//! little-endian and big-endian byte order.
//!
//! `le_bytes_of` / `be_bytes_of` say what the `w`-byte encoding of a value
//! is; `le_value_of` / `be_value_of` say what value a byte sequence denotes.
//! The executable encoders and decoders are proved against these four
//! definitions, and the round-trip lemmas connect them.

use vstd::arithmetic::div_mod::{lemma_div_denominator, lemma_fundamental_div_mod};
use vstd::prelude::*;

verus! {

/// `256^w`: the number of distinct values a `w`-byte field can carry.
pub open spec fn pow256(w: nat) -> nat
    decreases w,
{
    if w == 0 {
        1
    } else {
        256 * pow256((w - 1) as nat)
    }
}

/// The `w`-byte little-endian encoding of `v % 256^w`: least significant
/// byte first.
pub open spec fn le_bytes_of(w: nat, v: nat) -> Seq<u8>
    decreases w,
{
    if w == 0 {
        Seq::empty()
    } else {
        seq![(v % 256) as u8] + le_bytes_of((w - 1) as nat, v / 256)
    }
}

/// The `w`-byte big-endian encoding of `v % 256^w`: most significant byte
/// first.
pub open spec fn be_bytes_of(w: nat, v: nat) -> Seq<u8>
    decreases w,
{
    if w == 0 {
        Seq::empty()
    } else {
        be_bytes_of((w - 1) as nat, v / 256).push((v % 256) as u8)
    }
}

/// The value denoted by `s` read as a little-endian integer.
pub open spec fn le_value_of(s: Seq<u8>) -> nat
    decreases s.len(),
{
    if s.len() == 0 {
        0
    } else {
        (s[0] + 256 * le_value_of(s.drop_first())) as nat
    }
}

/// The value denoted by `s` read as a big-endian integer.
pub open spec fn be_value_of(s: Seq<u8>) -> nat
    decreases s.len(),
{
    if s.len() == 0 {
        0
    } else {
        (be_value_of(s.drop_last()) * 256 + s.last()) as nat
    }
}

pub proof fn lemma_pow256_pos(w: nat)
    ensures
        pow256(w) >= 1,
    decreases w,
{
    if w > 0 {
        lemma_pow256_pos((w - 1) as nat);
    }
}

pub proof fn lemma_le_bytes_of_len(w: nat, v: nat)
    ensures
        le_bytes_of(w, v).len() == w,
    decreases w,
{
    if w > 0 {
        lemma_le_bytes_of_len((w - 1) as nat, v / 256);
    }
}

pub proof fn lemma_be_bytes_of_len(w: nat, v: nat)
    ensures
        be_bytes_of(w, v).len() == w,
    decreases w,
{
    if w > 0 {
        lemma_be_bytes_of_len((w - 1) as nat, v / 256);
    }
}

pub proof fn lemma_le_value_of_bound(s: Seq<u8>)
    ensures
        le_value_of(s) < pow256(s.len()),
    decreases s.len(),
{
    if s.len() > 0 {
        lemma_le_value_of_bound(s.drop_first());
    }
}

pub proof fn lemma_be_value_of_bound(s: Seq<u8>)
    ensures
        be_value_of(s) < pow256(s.len()),
    decreases s.len(),
{
    if s.len() > 0 {
        lemma_be_value_of_bound(s.drop_last());
    }
}

/// Byte `i` of the little-endian encoding holds digit `i` of the value in
/// base 256.
pub proof fn lemma_le_bytes_of_index(w: nat, v: nat, i: nat)
    requires
        i < w,
    ensures
        le_bytes_of(w, v).len() == w,
        le_bytes_of(w, v)[i as int] == ((v / pow256(i)) % 256) as u8,
    decreases w,
{
    lemma_le_bytes_of_len(w, v);
    lemma_le_bytes_of_len((w - 1) as nat, v / 256);
    if i == 0 {
        assert(pow256(0) == 1);
        assert(le_bytes_of(w, v)[0] == (v % 256) as u8);
        assert(v / 1 == v) by (nonlinear_arith);
    } else {
        lemma_le_bytes_of_index((w - 1) as nat, v / 256, (i - 1) as nat);
        assert(le_bytes_of(w, v)[i as int] == le_bytes_of((w - 1) as nat, v / 256)[i - 1]);
        lemma_pow256_pos((i - 1) as nat);
        lemma_div_denominator(v as int, 256, pow256((i - 1) as nat) as int);
        assert(256 * pow256((i - 1) as nat) == pow256(i));
    }
}

/// Byte `i` of the big-endian encoding holds digit `w - 1 - i` of the value
/// in base 256.
pub proof fn lemma_be_bytes_of_index(w: nat, v: nat, i: nat)
    requires
        i < w,
    ensures
        be_bytes_of(w, v).len() == w,
        be_bytes_of(w, v)[i as int] == ((v / pow256((w - 1 - i) as nat)) % 256) as u8,
    decreases w,
{
    lemma_be_bytes_of_len(w, v);
    lemma_be_bytes_of_len((w - 1) as nat, v / 256);
    if i < w - 1 {
        lemma_be_bytes_of_index((w - 1) as nat, v / 256, i);
        assert(be_bytes_of(w, v)[i as int] == be_bytes_of((w - 1) as nat, v / 256)[i as int]);
        let k = (w - 2 - i) as nat;
        lemma_pow256_pos(k);
        lemma_div_denominator(v as int, 256, pow256(k) as int);
        assert(256 * pow256(k) == pow256((k + 1) as nat));
        assert((w - 1 - i) as nat == (k + 1) as nat);
    } else {
        assert(i == w - 1);
        assert(be_bytes_of(w, v)[i as int] == (v % 256) as u8);
        assert(pow256(0) == 1);
        assert(v / 1 == v) by (nonlinear_arith);
    }
}

/// Decoding the little-endian encoding of an in-range value gives the value
/// back.
pub proof fn lemma_le_round_trip(w: nat, v: nat)
    requires
        v < pow256(w),
    ensures
        le_value_of(le_bytes_of(w, v)) == v,
    decreases w,
{
    if w == 0 {
        assert(v == 0);
    } else {
        lemma_le_bytes_of_len((w - 1) as nat, v / 256);
        assert(v / 256 < pow256((w - 1) as nat)) by {
            lemma_pow256_pos((w - 1) as nat);
            lemma_fundamental_div_mod(v as int, 256);
        };
        lemma_le_round_trip((w - 1) as nat, v / 256);
        let s = le_bytes_of(w, v);
        assert(s.drop_first() =~= le_bytes_of((w - 1) as nat, v / 256));
        assert(v % 256 + 256 * (v / 256) == v) by {
            lemma_fundamental_div_mod(v as int, 256);
        };
    }
}

/// Decoding the big-endian encoding of an in-range value gives the value
/// back.
pub proof fn lemma_be_round_trip(w: nat, v: nat)
    requires
        v < pow256(w),
    ensures
        be_value_of(be_bytes_of(w, v)) == v,
    decreases w,
{
    if w == 0 {
        assert(v == 0);
    } else {
        lemma_be_bytes_of_len((w - 1) as nat, v / 256);
        assert(v / 256 < pow256((w - 1) as nat)) by {
            lemma_pow256_pos((w - 1) as nat);
            lemma_fundamental_div_mod(v as int, 256);
        };
        lemma_be_round_trip((w - 1) as nat, v / 256);
        let s = be_bytes_of(w, v);
        assert(s.drop_last() =~= be_bytes_of((w - 1) as nat, v / 256));
        assert(v % 256 + 256 * (v / 256) == v) by {
            lemma_fundamental_div_mod(v as int, 256);
        };
    }
}

/// Appends the `w`-byte little-endian encoding of `v` to `out`.
pub fn encode_uint_le(v: u64, w: usize, out: &mut Vec<u8>)
    ensures
        final(out)@ == old(out)@ + le_bytes_of(w as nat, v as nat),
{
    let mut res: Vec<u8> = Vec::new();
    let mut x = v;
    let mut i: usize = 0;
    while i < w
        invariant
            i <= w,
            res@.len() == i,
            le_bytes_of(w as nat, v as nat) == res@ + le_bytes_of((w - i) as nat, x as nat),
        decreases w - i,
    {
        let ghost prev = res@;
        let ghost x0 = x as nat;
        proof {
            assert(le_bytes_of((w - i) as nat, x0) == seq![(x0 % 256) as u8] + le_bytes_of(
                (w - i - 1) as nat,
                x0 / 256,
            ));
        }
        res.push((x % 256) as u8);
        x = x / 256;
        i = i + 1;
        proof {
            assert(res@ == prev.push((x0 % 256) as u8));
            assert(res@ =~= prev + seq![(x0 % 256) as u8]);
            assert((prev + seq![(x0 % 256) as u8]) + le_bytes_of((w - i) as nat, x0 / 256)
                =~= prev + (seq![(x0 % 256) as u8] + le_bytes_of((w - i) as nat, x0 / 256)));
            assert(x as nat == x0 / 256);
        }
    }
    proof {
        assert(le_bytes_of(0, x as nat) == Seq::<u8>::empty());
        assert(res@ + Seq::<u8>::empty() =~= res@);
    }
    out.append(&mut res);
}

/// Appends the `w`-byte big-endian encoding of `v` to `out`.
pub fn encode_uint_be(v: u64, w: usize, out: &mut Vec<u8>)
    ensures
        final(out)@ == old(out)@ + be_bytes_of(w as nat, v as nat),
{
    let mut tmp: Vec<u8> = Vec::new();
    encode_uint_le(v, w, &mut tmp);
    proof {
        lemma_le_bytes_of_len(w as nat, v as nat);
    }
    let mut res: Vec<u8> = Vec::new();
    let mut i: usize = 0;
    while i < w
        invariant
            i <= w,
            tmp@ == le_bytes_of(w as nat, v as nat),
            tmp@.len() == w,
            res@.len() == i,
            forall|k: int| 0 <= k < i ==> #[trigger] res@[k] == tmp@[w - 1 - k],
        decreases w - i,
    {
        let ghost prev = res@;
        res.push(tmp[w - 1 - i]);
        i = i + 1;
        proof {
            assert(res@ == prev.push(tmp@[w - 1 - (i - 1)]));
            assert forall|k: int| 0 <= k < i implies #[trigger] res@[k] == tmp@[w - 1 - k] by {
                if k < i - 1 {
                    assert(res@[k] == prev[k]);
                }
            }
        }
    }
    proof {
        lemma_be_bytes_of_len(w as nat, v as nat);
        assert forall|k: int| 0 <= k < w implies res@[k] == be_bytes_of(w as nat, v as nat)[k] by {
            lemma_be_bytes_of_index(w as nat, v as nat, k as nat);
            lemma_le_bytes_of_index(w as nat, v as nat, (w - 1 - k) as nat);
        }
        assert(res@ =~= be_bytes_of(w as nat, v as nat));
    }
    out.append(&mut res);
}

/// Reads the `w` bytes at `off` as a little-endian integer.
pub fn decode_uint_le(s: &[u8], off: usize, w: usize) -> (r: u64)
    requires
        off + w <= s@.len(),
        w <= 8,
    ensures
        r as nat == le_value_of(s@.subrange(off as int, off + w)),
{
    let n: usize = s.len();
    let ghost win = s@.subrange(off as int, off + w);
    let mut r: u64 = 0;
    let mut i: usize = 0;
    while i < w
        invariant
            i <= w,
            w <= 8,
            off + w <= n,
            n == s@.len(),
            win == s@.subrange(off as int, off + w),
            r as nat == le_value_of(win.subrange(w - i, w as int)),
            (r as nat) < pow256(i as nat),
        decreases w - i,
    {
        proof {
            lemma_le_value_of_bound(win.subrange(w - i, w as int));
            assert(pow256(8) == 0x1_0000_0000_0000_0000) by {
                reveal_with_fuel(pow256, 9);
            };
            assert(pow256(i as nat) <= pow256(7)) by {
                lemma_pow256_mono(i as nat, 7);
            };
            assert(pow256(7) == 0x100_0000_0000_0000) by {
                reveal_with_fuel(pow256, 8);
            };
        }
        let b = s[off + (w - 1 - i)];
        proof {
            let prev = win.subrange(w - i, w as int);
            let cur = win.subrange(w - i - 1, w as int);
            assert(cur[0] == win[w - i - 1]);
            assert(cur.drop_first() =~= prev);
            assert(win[w - i - 1] == s@[off + w - 1 - i]);
        }
        r = r * 256 + (b as u64);
        i = i + 1;
    }
    proof {
        assert(win.subrange(0, w as int) =~= win);
    }
    r
}

/// Reads the `w` bytes at `off` as a big-endian integer.
pub fn decode_uint_be(s: &[u8], off: usize, w: usize) -> (r: u64)
    requires
        off + w <= s@.len(),
        w <= 8,
    ensures
        r as nat == be_value_of(s@.subrange(off as int, off + w)),
{
    let n: usize = s.len();
    let ghost win = s@.subrange(off as int, off + w);
    let mut r: u64 = 0;
    let mut i: usize = 0;
    while i < w
        invariant
            i <= w,
            w <= 8,
            off + w <= n,
            n == s@.len(),
            win == s@.subrange(off as int, off + w),
            r as nat == be_value_of(win.subrange(0, i as int)),
            (r as nat) < pow256(i as nat),
        decreases w - i,
    {
        proof {
            lemma_be_value_of_bound(win.subrange(0, i as int));
            assert(pow256(8) == 0x1_0000_0000_0000_0000) by {
                reveal_with_fuel(pow256, 9);
            };
            assert(pow256(i as nat) <= pow256(7)) by {
                lemma_pow256_mono(i as nat, 7);
            };
            assert(pow256(7) == 0x100_0000_0000_0000) by {
                reveal_with_fuel(pow256, 8);
            };
        }
        let b = s[off + i];
        proof {
            assert(off + i < n);
            let prev = win.subrange(0, i as int);
            let cur = win.subrange(0, i + 1);
            assert(cur.drop_last() =~= prev);
            assert(cur.last() == win[i as int]);
            assert(win[i as int] == s@[off + i]);
        }
        r = r * 256 + (b as u64);
        i = i + 1;
    }
    proof {
        assert(win.subrange(0, w as int) =~= win);
    }
    r
}

/// The powers of 256 at the widths the primitive types use.
pub proof fn lemma_pow256_values()
    ensures
        pow256(0) == 1,
        pow256(1) == 0x100,
        pow256(2) == 0x1_0000,
        pow256(4) == 0x1_0000_0000,
        pow256(8) > u64::MAX,
{
    reveal_with_fuel(pow256, 9);
}

pub proof fn lemma_pow256_mono(a: nat, b: nat)
    requires
        a <= b,
    ensures
        pow256(a) <= pow256(b),
    decreases b,
{
    if a < b && b > 0 {
        lemma_pow256_mono(a, (b - 1) as nat);
        lemma_pow256_pos((b - 1) as nat);
    }
}

} // verus!

