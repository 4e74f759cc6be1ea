//! Packed arrays: fixed-width cell indices stored back to back in a stream of
//! 64-bit words, where a field may straddle two consecutive words.

use vstd::arithmetic::power2::*;
use vstd::prelude::*;

verus! {

/// Bit `i` (0 = least significant) of a word, read as a raw bit pattern.
pub open spec fn word_bit(w: u64, i: nat) -> bool {
    (w >> (i as u64)) & 1u64 == 1u64
}

/// Bit `p` of the stream formed by the words, word 0 holding the lowest 64 bits.
pub open spec fn stream_bit(words: Seq<i64>, p: nat) -> bool {
    word_bit(words[(p / 64) as int] as u64, p % 64)
}

/// The number held by the `len` stream bits starting at bit `start`, lowest bit first.
pub open spec fn stream_value(words: Seq<i64>, start: nat, len: nat) -> nat
    decreases len,
{
    if len == 0 {
        0
    } else {
        (if stream_bit(words, start) {
            1nat
        } else {
            0nat
        }) + 2 * stream_value(words, start + 1, (len - 1) as nat)
    }
}

/// Field `k` of the stream when every field is `width` bits wide.
pub open spec fn packed_field(words: Seq<i64>, width: nat, k: nat) -> nat {
    stream_value(words, k * width, width)
}

/// How many whole fields the decoder reads: none without a pair of words,
/// otherwise every field that lies inside the stream.
pub open spec fn field_count(n_words: nat, width: nat) -> nat {
    if n_words < 2 || width == 0 {
        0
    } else {
        64 * n_words / width
    }
}

/// The cell indices that a stream of words holds at the given width.
pub open spec fn unpacked(words: Seq<i64>, width: nat) -> Seq<nat> {
    Seq::new(field_count(words.len(), width), |k: int| packed_field(words, width, k as nat))
}

/// The least number of bits that can tell `p` values apart.
pub open spec fn ceil_log2(p: nat) -> nat
    decreases p,
{
    if p <= 1 {
        0
    } else {
        1 + ceil_log2(p / 2 + p % 2)
    }
}

/// Bits per packed index for a palette of `p` entries.
pub open spec fn bit_width_of(p: nat) -> nat {
    if ceil_log2(p) < 4 {
        4
    } else {
        ceil_log2(p)
    }
}

/// The bits of a 128-bit window from `s` on, as a number, lowest bit first.
spec fn window_value(x: u128, s: nat, len: nat) -> nat
    decreases len,
{
    if len == 0 {
        0
    } else {
        (if (x >> (s as u128)) & 1u128 == 1u128 {
            1nat
        } else {
            0nat
        }) + 2 * window_value(x, s + 1, (len - 1) as nat)
    }
}

spec fn low_mask(len: u128) -> u128 {
    ((1u128 << len) - 1u128) as u128
}

proof fn lemma_mask_split(x: u128, s: u128, len: u128)
    by (bit_vector)
    requires
        1 <= len <= 64,
        s + len <= 128,
    ensures
        (x >> s) & low_mask(len) == ((x >> s) & 1u128) + 2 * ((x >> ((s + 1) as u128)) & low_mask(
            (len - 1) as u128,
        )),
        (x >> s) & low_mask(len) <= low_mask(len),
        low_mask(len) <= 0xffff_ffff_ffff_ffffu128,
{
}

proof fn lemma_window_bits(lo: u64, hi: u64, p: u128)
    by (bit_vector)
    requires
        p < 128,
    ensures
        p < 64 ==> (((((lo as u128) | ((hi as u128) << 64u128)) >> p) & 1u128 == 1u128) == ((lo >> (
        p as u64)) & 1u64 == 1u64)),
        p >= 64 ==> (((((lo as u128) | ((hi as u128) << 64u128)) >> p) & 1u128 == 1u128) == ((hi >> (
        (p - 64) as u64)) & 1u64 == 1u64)),
{
}

proof fn lemma_mask_value(x: u128, s: nat, len: nat)
    requires
        len <= 64,
        s + len <= 128,
    ensures
        ((x >> (s as u128)) & low_mask(len as u128)) as nat == window_value(x, s, len),
    decreases len,
{
    if len == 0 {
        assert((x >> (s as u128)) & low_mask(0u128) == 0u128) by (bit_vector);
    } else {
        lemma_mask_split(x, s as u128, len as u128);
        lemma_mask_value(x, s + 1, (len - 1) as nat);
        let s128 = s as u128;
        assert((x >> s128) & 1u128 == 0u128 || (x >> s128) & 1u128 == 1u128) by (bit_vector);
    }
}

proof fn lemma_window_stream(words: Seq<i64>, j: nat, x: u128, s: nat, len: nat)
    requires
        j + 1 < words.len(),
        x == ((words[j as int] as u64) as u128) | (((words[j + 1int] as u64) as u128) << 64u128),
        s + len <= 128,
    ensures
        window_value(x, s, len) == stream_value(words, 64 * j + s, len),
    decreases len,
{
    if len > 0 {
        lemma_window_stream(words, j, x, s + 1, (len - 1) as nat);
        let p = 64 * j + s;
        lemma_window_bits(words[j as int] as u64, words[j + 1int] as u64, s as u128);
        if s < 64 {
            assert(p / 64 == j && p % 64 == s) by (nonlinear_arith)
                requires
                    p == 64 * j + s,
                    s < 64,
            ;
        } else {
            assert(p / 64 == j + 1 && p % 64 == s - 64) by (nonlinear_arith)
                requires
                    p == 64 * j + s,
                    64 <= s < 128,
            ;
        }
        assert(64 * j + (s + 1) == p + 1);
    }
}

pub(crate) proof fn lemma_ceil_log2_at_most(p: nat, n: nat)
    requires
        p <= pow2(n),
    ensures
        ceil_log2(p) <= n,
    decreases p,
{
    if p > 1 {
        if n == 0 {
            lemma2_to64();
            assert(false);
        }
        lemma_pow2_unfold(n);
        lemma_ceil_log2_at_most(p / 2 + p % 2, (n - 1) as nat);
    }
}

/// The number of bits per packed index is the least count of bits that can
/// tell the palette's entries apart, but never fewer than four.
pub proof fn lemma_bit_width_is_ceiling_log2(p: nat)
    ensures
        bit_width_of(p) >= 4,
        pow2(bit_width_of(p)) >= p,
        bit_width_of(p) == 4 || pow2((bit_width_of(p) - 1) as nat) < p,
    decreases p,
{
    lemma_ceil_log2_bounds(p);
    lemma_pow2_pos(4);
    if ceil_log2(p) < 4 {
        lemma_pow2_strictly_increases(ceil_log2(p), 4);
    }
}

proof fn lemma_ceil_log2_bounds(p: nat)
    ensures
        pow2(ceil_log2(p)) >= p,
        p >= 2 ==> pow2((ceil_log2(p) - 1) as nat) < p,
    decreases p,
{
    lemma2_to64();
    if p > 1 {
        let h = p / 2 + p % 2;
        lemma_ceil_log2_bounds(h);
        lemma_pow2_unfold(ceil_log2(p));
        assert(ceil_log2(p) - 1 == ceil_log2(h));
        if h >= 2 {
            lemma_pow2_unfold(ceil_log2(h));
        }
    }
}

/// Bits per packed index for a palette of `palette_len` entries.
pub fn bit_width(palette_len: usize) -> (r: u32)
    ensures
        r as nat == bit_width_of(palette_len as nat),
        4 <= r <= 64,
{
    let mut q: usize = palette_len;
    let mut k: u32 = 0;
    proof {
        lemma2_to64();
        lemma_ceil_log2_at_most(palette_len as nat, 64);
    }
    while q > 1
        invariant
            k + ceil_log2(q as nat) == ceil_log2(palette_len as nat),
            ceil_log2(palette_len as nat) <= 64,
        decreases q,
    {
        q = q / 2 + q % 2;
        k = k + 1;
    }
    if k < 4 {
        4
    } else {
        k
    }
}

/// Reads every field of `width` bits from the stream of words, sliding a
/// window of two consecutive words along it so that a field may straddle a
/// word boundary.
pub fn unpack_indices(words: &Vec<i64>, width: u32) -> (r: Vec<u64>)
    requires
        1 <= width <= 64,
    ensures
        r@.len() == field_count(words@.len(), width as nat),
        forall|k: int| 0 <= k < r@.len() ==> r@[k] as nat == packed_field(words@, width as nat, k as nat),
{
    let mut out: Vec<u64> = Vec::new();
    let n = words.len();
    if n < 2 {
        return out;
    }
    let w = width as u128;
    assert(1u128 << w >= 1u128) by (bit_vector)
        requires
            1 <= w <= 64,
    ;
    let mask: u128 = (1u128 << w) - 1;
    let mut shift: u128 = 0;
    let mut i: usize = 1;
    assert(out@.len() == 0);
    assert(out@.len() * w == 0);
    while i < n
        invariant
            2 <= n == words@.len(),
            1 <= i <= n,
            1 <= w <= 64,
            w == width,
            mask == low_mask(w),
            i == 1 ==> shift == 0,
            i > 1 ==> 64 - w < shift <= 64,
            out@.len() * w == 64 * (i - 1) + shift,
            forall|k: int| 0 <= k < out@.len() ==> out@[k] as nat == packed_field(words@, w as nat, k as nat),
        decreases n - i,
    {
        let lo = #[verifier::truncate] (words[i - 1] as u64);
        let hi = #[verifier::truncate] (words[i] as u64);
        let x: u128 = (lo as u128) | ((hi as u128) << 64u128);
        while shift + w <= 128
            invariant
                2 <= n == words@.len(),
                1 <= i < n,
                1 <= w <= 64,
                w == width,
                mask == low_mask(w),
                shift <= 128,
                x == ((words@[i - 1] as u64) as u128) | (((words@[i as int] as u64) as u128) << 64u128),
                out@.len() * w == 64 * (i - 1) + shift,
                forall|k: int| 0 <= k < out@.len() ==> out@[k] as nat == packed_field(words@, w as nat, k as nat),
            decreases 128 - shift,
        {
            let ghost k = out@.len();
            proof {
                lemma_mask_split(x, shift, w);
                lemma_mask_value(x, shift as nat, w as nat);
                lemma_window_stream(words@, (i - 1) as nat, x, shift as nat, w as nat);
            }
            let v = #[verifier::truncate] (((x >> shift) & mask) as u64);
            out.push(v);
            shift = shift + w;
            proof {
                assert((k + 1) * w == k * w + w) by (nonlinear_arith);
            }
        }
        shift = shift - 64;
        i = i + 1;
    }
    proof {
        let t = 64 * n;
        let len = out@.len();
        vstd::arithmetic::div_mod::lemma_fundamental_div_mod_converse(
            t as int,
            w as int,
            len as int,
            t - len * w,
        );
    }
    out
}

/// The words hold `cells` packed at `width` bits each: cell `k` occupies the
/// stream bits `k * width` up to `(k + 1) * width`, its lowest bit first.
pub open spec fn holds_cells(words: Seq<i64>, width: nat, cells: Seq<nat>) -> bool {
    forall|p: nat|
        p < cells.len() * width ==> #[trigger] stream_bit(words, p) == ((cells[(p / width) as int]
            / pow2(p % width)) % 2 == 1)
}

proof fn lemma_stream_value_of(words: Seq<i64>, start: nat, len: nat, v: nat)
    requires
        v < pow2(len),
        forall|p: nat|
            start <= p < start + len ==> #[trigger] stream_bit(words, p) == ((v / pow2(
                (p - start) as nat,
            )) % 2 == 1),
    ensures
        stream_value(words, start, len) == v,
    decreases len,
{
    lemma2_to64();
    if len == 0 {
    } else {
        let h = v / 2;
        lemma_pow2_unfold(len);
        assert forall|p: nat| (start + 1) <= p < (start + 1) + (len - 1) as nat implies #[trigger] stream_bit(
            words,
            p,
        ) == ((h / pow2((p - (start + 1)) as nat)) % 2 == 1) by {
            let b = (p - (start + 1)) as nat;
            lemma_pow2_unfold(b + 1);
            lemma_pow2_pos(b);
            vstd::arithmetic::div_mod::lemma_div_denominator(v as int, 2, pow2(b) as int);
            assert((p - start) as nat == b + 1);
        }
        lemma_stream_value_of(words, start + 1, (len - 1) as nat, h);
        assert(stream_bit(words, start) == ((v / pow2(0)) % 2 == 1));
    }
}

/// Unpacking words that hold a sequence of indices, at the width they were
/// packed with, gives the sequence back, fields that straddle two words
/// included.
pub proof fn lemma_unpack_round_trip(words: Seq<i64>, width: nat, cells: Seq<nat>)
    requires
        1 <= width <= 64,
        words.len() >= 2,
        cells.len() * width <= 64 * words.len(),
        forall|k: int| 0 <= k < cells.len() ==> #[trigger] cells[k] < pow2(width),
        holds_cells(words, width, cells),
    ensures
        cells.len() <= unpacked(words, width).len(),
        unpacked(words, width).subrange(0, cells.len() as int) == cells,
{
    let n = cells.len();
    let t = 64 * words.len();
    vstd::arithmetic::div_mod::lemma_fundamental_div_mod(t as int, width as int);
    assert(n <= t / width) by (nonlinear_arith)
        requires
            n * width <= t,
            t == width * (t / width) + t % width,
            0 <= t % width < width,
            width >= 1,
    ;
    assert forall|k: int| 0 <= k < n implies packed_field(words, width, k as nat) == cells[k] by {
        let start = (k * width) as nat;
        assert forall|p: nat| start <= p < start + width implies #[trigger] stream_bit(words, p) == ((
        cells[k] / pow2((p - start) as nat)) % 2 == 1) by {
            vstd::arithmetic::div_mod::lemma_fundamental_div_mod_converse(
                p as int,
                width as int,
                k,
                p - start,
            );
            assert(p < n * width) by (nonlinear_arith)
                requires
                    p < k * width + width,
                    k < n,
            ;
        }
        lemma_stream_value_of(words, start, width, cells[k]);
    }
    assert(unpacked(words, width).subrange(0, n as int) =~= cells);
}

} // verus!
