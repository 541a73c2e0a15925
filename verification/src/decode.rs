//! Identifier decoding: perspective-sample a 6 by 6 bit grid inside a
//! quad, binarize it against the spread of its lowest and highest
//! sample means, and match it against the fixed codebook at all four
//! rotations with a Hamming tolerance of 2.
//!
//! All sampling arithmetic is exact: the homography mapping the unit
//! square onto the quad is carried as integer fractions, and the
//! binarization threshold compares `10 * v` against the sum of the 5
//! lowest and 5 highest samples, which equals the 0.5 fraction of the
//! normalized range over the two means.

use vstd::prelude::*;
use crate::grid::Grid;
use crate::types::{Lightness, Corners};
use crate::filters::quad_small;

verus! {

/// The fixed 11-entry codebook; only the low 36 bits carry the code.
pub open spec fn code_val(i: int) -> u64 {
    if i == 0 {
        57401312644u64
    } else if i == 1 {
        58383764297u64
    } else if i == 2 {
        59366215950u64
    } else if i == 3 {
        61331119256u64
    } else if i == 4 {
        63296022562u64
    } else if i == 5 {
        65260925868u64
    } else if i == 6 {
        1453707397u64
    } else if i == 7 {
        4401062356u64
    } else if i == 8 {
        9313320621u64
    } else if i == 9 {
        10295772274u64
    } else {
        14225578886u64
    }
}

/// The codeword with the given index.
pub fn code_of(i: usize) -> (r: u64)
    requires
        i < 11,
    ensures
        r == code_val(i as int),
{
    if i == 0 {
        57401312644
    } else if i == 1 {
        58383764297
    } else if i == 2 {
        59366215950
    } else if i == 3 {
        61331119256
    } else if i == 4 {
        63296022562
    } else if i == 5 {
        65260925868
    } else if i == 6 {
        1453707397
    } else if i == 7 {
        4401062356
    } else if i == 8 {
        9313320621
    } else if i == 9 {
        10295772274
    } else {
        14225578886
    }
}

/// Bit `k` of a codeword in scan order: bit 0 is the most significant
/// of the 36 code bits.
pub open spec fn code_bit(code: u64, k: int) -> bool {
    (code >> ((35 - k) as u64)) & 1 == 1
}

/// The grid rotated a quarter turn: row `r`, column `c` of the result
/// reads row `5 - c`, column `r` of the input.
pub open spec fn rot90_spec(s: Seq<bool>) -> Seq<bool> {
    Seq::new(36, |k: int| s[(5 - (k % 6)) * 6 + (k / 6)])
}

/// The grid rotated `k` quarter turns.
pub open spec fn rotk(s: Seq<bool>, k: int) -> Seq<bool>
    decreases k,
{
    if k <= 0 {
        s
    } else {
        rot90_spec(rotk(s, k - 1))
    }
}

/// Rotate a 36-bit grid a quarter turn.
pub fn rot90(bits: &Vec<bool>) -> (r: Vec<bool>)
    requires
        bits@.len() == 36,
    ensures
        r@ == rot90_spec(bits@),
{
    let mut out: Vec<bool> = Vec::new();
    let mut rr: usize = 0;
    while rr < 6
        invariant
            bits@.len() == 36,
            rr <= 6,
            out@.len() == rr * 6,
            forall|k: int|
                0 <= k < out@.len()
                    ==> out@[k] == bits@[(5 - (k % 6)) * 6 + (k / 6)],
        decreases 6 - rr,
    {
        let mut cc: usize = 0;
        while cc < 6
            invariant
                bits@.len() == 36,
                rr < 6,
                cc <= 6,
                out@.len() == rr * 6 + cc,
                forall|k: int|
                    0 <= k < out@.len()
                        ==> out@[k] == bits@[(5 - (k % 6)) * 6 + (k / 6)],
            decreases 6 - cc,
        {
            let v = bits[(5 - cc) * 6 + rr];
            out.push(v);
            proof {
                let k = rr * 6 + cc;
                vstd::arithmetic::div_mod::lemma_fundamental_div_mod_converse(
                    k as int, 6, rr as int, cc as int);
            }
            cc = cc + 1;
        }
        rr = rr + 1;
    }
    proof {
        assert(out@ =~= rot90_spec(bits@));
    }
    out
}

/// The number of positions where the grid differs from the codeword,
/// over the first `k` bits.
pub open spec fn ham_upto(s: Seq<bool>, code: u64, k: int) -> int
    decreases k,
{
    if k <= 0 {
        0
    } else {
        ham_upto(s, code, k - 1) + if s[k - 1] != code_bit(code, k - 1) {
            1int
        } else {
            0int
        }
    }
}

/// The Hamming distance between a 36-bit grid and a codeword.
pub open spec fn ham(s: Seq<bool>, code: u64) -> int {
    ham_upto(s, code, 36)
}

/// Count the bits where the grid differs from the codeword.
pub fn hamming(bits: &Vec<bool>, code: u64) -> (r: u32)
    requires
        bits@.len() == 36,
    ensures
        r as int == ham(bits@, code),
{
    let mut count: u32 = 0;
    let mut k: usize = 0;
    while k < 36
        invariant
            bits@.len() == 36,
            k <= 36,
            count as int == ham_upto(bits@, code, k as int),
            count <= k,
        decreases 36 - k,
    {
        let cb = (code >> ((35 - k) as u64)) & 1 == 1;
        if bits[k] != cb {
            count = count + 1;
        }
        k = k + 1;
    }
    count
}

/// The best codebook match over the first `step` of the 44 pairs of
/// rotation (outer) and codeword index (inner): the first candidate
/// within Hamming distance 2 that strictly beats every earlier one.
pub open spec fn scan_best(bits: Seq<bool>, step: int) -> Option<(int, int)>
    decreases step,
{
    if step <= 0 {
        None
    } else {
        let pre = scan_best(bits, step - 1);
        let rot = (step - 1) / 11;
        let idx = (step - 1) % 11;
        let d = ham(rotk(bits, rot), code_val(idx));
        if d <= 2 && (pre is None || d < pre.unwrap().1) {
            Some((idx, d))
        } else {
            pre
        }
    }
}

/// The decoded identifier of a 36-bit grid: the codeword index of the
/// best match within Hamming distance 2 over all four rotations, or
/// nothing when no codeword comes that close.
pub open spec fn decode_bits_spec(bits: Seq<bool>) -> Option<u32> {
    match scan_best(bits, 44) {
        Some(p) => Some(p.0 as u32),
        None => None,
    }
}

/// Match a 36-bit grid against the codebook at all four rotations.
pub fn decode_bits(bits: &Vec<bool>) -> (r: Option<u32>)
    requires
        bits@.len() == 36,
    ensures
        r == decode_bits_spec(bits@),
{
    let mut best: Option<(u32, u32)> = None;
    let mut current: Vec<bool> = Vec::new();
    let mut k: usize = 0;
    while k < 36
        invariant
            bits@.len() == 36,
            k <= 36,
            current@ == bits@.subrange(0, k as int),
        decreases 36 - k,
    {
        let v = bits[k];
        current.push(v);
        proof {
            assert(current@ =~= bits@.subrange(0, k + 1));
        }
        k = k + 1;
    }
    proof {
        assert(current@ =~= bits@);
        assert(rotk(bits@, 0) == bits@);
    }
    let mut rot: usize = 0;
    while rot < 4
        invariant
            bits@.len() == 36,
            rot <= 4,
            rot < 4 ==> current@ == rotk(bits@, rot as int),
            current@.len() == 36,
            match best {
                Some(p) => scan_best(bits@, rot as int * 11)
                    == Some((p.0 as int, p.1 as int)) && p.0 < 11 && p.1 <= 2,
                None => scan_best(bits@, rot as int * 11) is None,
            },
        decreases 4 - rot,
    {
        let mut idx: usize = 0;
        while idx < 11
            invariant
                bits@.len() == 36,
                rot < 4,
                idx <= 11,
                current@ == rotk(bits@, rot as int),
                current@.len() == 36,
                match best {
                    Some(p) => scan_best(bits@, rot as int * 11 + idx as int)
                        == Some((p.0 as int, p.1 as int)) && p.0 < 11 && p.1 <= 2,
                    None => scan_best(bits@, rot as int * 11 + idx as int) is None,
                },
            decreases 11 - idx,
        {
            let code = code_of(idx);
            let d = hamming(&current, code);
            proof {
                let step = rot as int * 11 + idx as int + 1;
                vstd::arithmetic::div_mod::lemma_fundamental_div_mod_converse(
                    step - 1, 11, rot as int, idx as int);
            }
            let better = match best {
                Some(p) => d < p.1,
                None => true,
            };
            if d <= 2 && better {
                best = Some((idx as u32, d));
            }
            idx = idx + 1;
        }
        if rot < 3 {
            let next = rot90(&current);
            current = next;
        }
        rot = rot + 1;
        proof {
            if rot < 4 {
                assert(current@ == rot90_spec(rotk(bits@, rot - 1)));
                assert(current@ == rotk(bits@, rot as int));
            }
        }
    }
    match best {
        Some(p) => Some(p.0),
        None => None,
    }
}


/// The raw homography denominator determinant: 1 for a parallelogram
/// (affine case), otherwise the 2 by 2 determinant of the corner
/// difference system.  A zero value means the quad is degenerate; in
/// y-down image coordinates the determinant of a properly ordered
/// convex quad comes out negative, so the scaled coefficients are
/// sign-normalized below before use.
pub open spec fn homog_den_raw(q: Corners) -> int {
    let sx = q.0.0 - q.1.0 + q.3.0 - q.2.0;
    let sy = q.0.1 - q.1.1 + q.3.1 - q.2.1;
    if sx == 0 && sy == 0 {
        1
    } else {
        (q.1.0 - q.3.0) * (q.2.1 - q.3.1) - (q.2.0 - q.3.0) * (q.1.1 - q.3.1)
    }
}

/// Raw numerator of the perspective coefficient `g`.
pub open spec fn homog_gn_raw(q: Corners) -> int {
    let sx = q.0.0 - q.1.0 + q.3.0 - q.2.0;
    let sy = q.0.1 - q.1.1 + q.3.1 - q.2.1;
    if sx == 0 && sy == 0 {
        0
    } else {
        sx * (q.2.1 - q.3.1) - sy * (q.2.0 - q.3.0)
    }
}

/// Raw numerator of the perspective coefficient `h`.
pub open spec fn homog_hn_raw(q: Corners) -> int {
    let sx = q.0.0 - q.1.0 + q.3.0 - q.2.0;
    let sy = q.0.1 - q.1.1 + q.3.1 - q.2.1;
    if sx == 0 && sy == 0 {
        0
    } else {
        (q.1.0 - q.3.0) * sy - (q.1.1 - q.3.1) * sx
    }
}

/// The sign-normalized denominator scale: negating denominator and
/// both perspective numerators together leaves the mapped fractions
/// unchanged and makes the per-sample denominator test meaningful.
pub open spec fn homog_den(q: Corners) -> int {
    let d = homog_den_raw(q);
    if d < 0 {
        -d
    } else {
        d
    }
}

/// Sign-normalized numerator of the perspective coefficient `g`.
pub open spec fn homog_gn(q: Corners) -> int {
    if homog_den_raw(q) < 0 {
        -homog_gn_raw(q)
    } else {
        homog_gn_raw(q)
    }
}

/// Sign-normalized numerator of the perspective coefficient `h`.
pub open spec fn homog_hn(q: Corners) -> int {
    if homog_den_raw(q) < 0 {
        -homog_hn_raw(q)
    } else {
        homog_hn_raw(q)
    }
}

/// The common denominator of the mapped sample at cell column `i`,
/// row `j`: the cell center is `u = (2i + 3) / 16`, `v = (2j + 3) / 16`.
pub open spec fn sample_w(q: Corners, i: int, j: int) -> int {
    homog_gn(q) * (2 * i + 3) + homog_hn(q) * (2 * j + 3) + 16 * homog_den(q)
}

/// The x numerator of the mapped sample.
pub open spec fn sample_xn(q: Corners, i: int, j: int) -> int {
    let den = homog_den(q);
    let an = (q.1.0 - q.0.0) * den + homog_gn(q) * q.1.0;
    let bn = (q.2.0 - q.0.0) * den + homog_hn(q) * q.2.0;
    an * (2 * i + 3) + bn * (2 * j + 3) + 16 * (q.0.0 * den)
}

/// The y numerator of the mapped sample.
pub open spec fn sample_yn(q: Corners, i: int, j: int) -> int {
    let den = homog_den(q);
    let dn = (q.1.1 - q.0.1) * den + homog_gn(q) * q.1.1;
    let en = (q.2.1 - q.0.1) * den + homog_hn(q) * q.2.1;
    dn * (2 * i + 3) + en * (2 * j + 3) + 16 * (q.0.1 * den)
}

/// The nearest-pixel column of the mapped sample.
pub open spec fn sample_px(q: Corners, i: int, j: int) -> int {
    (2 * sample_xn(q, i, j) + sample_w(q, i, j)) / (2 * sample_w(q, i, j))
}

/// The nearest-pixel row of the mapped sample.
pub open spec fn sample_py(q: Corners, i: int, j: int) -> int {
    (2 * sample_yn(q, i, j) + sample_w(q, i, j)) / (2 * sample_w(q, i, j))
}

/// All 36 sample points exist: the homography is nonsingular, every
/// denominator is positive and every rounded sample pixel lies inside
/// the image.
pub open spec fn sample_ok(img: Lightness, q: Corners) -> bool {
    &&& homog_den(q) != 0
    &&& forall|i: int, j: int|
        0 <= i < 6 && 0 <= j < 6
            ==> #[trigger] sample_w(q, i, j) > 0
                && 0 <= sample_px(q, i, j) < img.w
                && 0 <= sample_py(q, i, j) < img.h
}

/// The intensities read at the 36 sample points, row-major by cell
/// row `j` then cell column `i`.
pub open spec fn samples_of(img: Lightness, q: Corners) -> Seq<u8> {
    Seq::new(36, |k: int| img.at(sample_py(q, k % 6, k / 6), sample_px(q, k % 6, k / 6)))
}

/// The sequence is ascending.
pub open spec fn sorted8(s: Seq<u8>) -> bool {
    forall|t1: int, t2: int| 0 <= t1 < t2 < s.len() ==> s[t1] <= s[t2]
}

/// Insert a byte into an ascending sequence, keeping it ascending.
pub open spec fn insert8(t: Seq<u8>, v: u8) -> Seq<u8>
    decreases t.len(),
{
    if t.len() == 0 {
        seq![v]
    } else if v >= t.last() {
        t.push(v)
    } else {
        insert8(t.drop_last(), v).push(t.last())
    }
}

/// The ascending rearrangement of a byte sequence.
pub open spec fn sort8(s: Seq<u8>) -> Seq<u8>
    decreases s.len(),
{
    if s.len() == 0 {
        Seq::empty()
    } else {
        insert8(sort8(s.drop_last()), s.last())
    }
}

/// Two ascending sequences with the same elements are equal.
proof fn lemma_sorted8_unique(x: Seq<u8>, y: Seq<u8>)
    requires
        sorted8(x),
        sorted8(y),
        x.to_multiset() == y.to_multiset(),
    ensures
        x =~= y,
    decreases x.len(),
{
    broadcast use vstd::seq_lib::group_to_multiset_ensures;
    broadcast use vstd::multiset::group_multiset_axioms;

    if x.len() == 0 {
        y.lemma_multiset_has_no_duplicates_conv();
        assert(y.len() == 0) by {
            if y.len() > 0 {
                assert(y.to_multiset().contains(y[0]));
            }
        }
    } else if y.len() == 0 {
        assert(x.to_multiset().contains(x[0]));
    } else {
        assert(x.to_multiset().contains(x[0]));
        assert(y.to_multiset().contains(x[0]));
        assert(x.to_multiset().contains(y[0]));
        let i = choose|i: int| 0 <= i < x.len() && x[i] == y[0];
        let k = choose|k: int| 0 <= k < y.len() && y[k] == x[0];
        assert(x[0] <= x[i] && y[0] <= y[k]);
        assert(x[0] == y[0]);
        assert(x.drop_first() =~= x.remove(0));
        assert(y.drop_first() =~= y.remove(0));
        assert(x.remove(0).to_multiset() =~= x.to_multiset().remove(x[0]));
        assert(y.remove(0).to_multiset() =~= y.to_multiset().remove(y[0]));
        assert(x.drop_first().to_multiset() =~= x.to_multiset().remove(x[0]));
        assert(y.drop_first().to_multiset() =~= y.to_multiset().remove(y[0]));
        assert(sorted8(x.drop_first()));
        assert(sorted8(y.drop_first()));
        lemma_sorted8_unique(x.drop_first(), y.drop_first());
        assert(x =~= seq![x[0]] + x.drop_first());
        assert(y =~= seq![y[0]] + y.drop_first());
    }
}

/// `insert8` keeps the sequence ascending and adds one element.
proof fn lemma_insert8(t: Seq<u8>, v: u8)
    requires
        sorted8(t),
    ensures
        sorted8(insert8(t, v)),
        insert8(t, v).to_multiset() == t.to_multiset().insert(v),
        insert8(t, v).len() == t.len() + 1,
    decreases t.len(),
{
    broadcast use vstd::seq_lib::group_to_multiset_ensures;

    if t.len() == 0 {
        assert(insert8(t, v) =~= Seq::empty().push(v));
        assert(insert8(t, v).to_multiset() =~= t.to_multiset().insert(v));
    } else if v >= t.last() {
        assert(sorted8(t.push(v)));
    } else {
        assert(sorted8(t.drop_last()));
        lemma_insert8(t.drop_last(), v);
        let w = insert8(t.drop_last(), v);
        assert(sorted8(w.push(t.last()))) by {
            assert forall|t1: int, t2: int|
                0 <= t1 < t2 < w.push(t.last()).len()
                implies w.push(t.last())[t1] <= w.push(t.last())[t2] by {
                if t2 == w.len() {
                    if t1 < w.len() {
                        // every element of w is either from t.drop_last() or is v,
                        // both at most t.last()
                        assert(w.to_multiset().contains(w[t1]));
                        assert(t.drop_last().to_multiset().insert(v).contains(w[t1]));
                        if t.drop_last().to_multiset().contains(w[t1]) {
                            assert(t.drop_last().contains(w[t1]));
                            let u = choose|u: int|
                                0 <= u < t.drop_last().len() && t.drop_last()[u] == w[t1];
                            assert(t[u] <= t.last());
                        } else {
                            assert(w[t1] == v);
                        }
                    }
                }
            }
        }
        assert(t.drop_last().push(t.last()) =~= t);
        assert(t.drop_last().to_multiset().insert(t.last()) =~= t.to_multiset());
        assert(w.push(t.last()).to_multiset() =~= w.to_multiset().insert(t.last()));
    }
}

/// `sort8` is an ascending rearrangement.
proof fn lemma_sort8(s: Seq<u8>)
    ensures
        sorted8(sort8(s)),
        sort8(s).to_multiset() == s.to_multiset(),
        sort8(s).len() == s.len(),
    decreases s.len(),
{
    broadcast use vstd::seq_lib::group_to_multiset_ensures;

    if s.len() > 0 {
        lemma_sort8(s.drop_last());
        lemma_insert8(sort8(s.drop_last()), s.last());
        assert(s.drop_last().push(s.last()) =~= s);
        assert(s.drop_last().to_multiset().insert(s.last()) =~= s.to_multiset());
    }
}

/// The sum of elements `from .. to` of a byte sequence.
pub open spec fn sum_range(s: Seq<u8>, from: int, to: int) -> int
    decreases to - from,
{
    if to <= from {
        0
    } else {
        sum_range(s, from, to - 1) + s[to - 1]
    }
}

/// The binarization threshold: the sum of the 5 lowest and 5 highest
/// samples.  Comparing `10 * v` against it is exactly the test that
/// `v`, normalized between the lowest-5 and highest-5 means, exceeds
/// one half.
pub open spec fn thresh_of(samples: Seq<u8>) -> int {
    let ss = sort8(samples);
    sum_range(ss, 0, 5) + sum_range(ss, 31, 36)
}

/// The binarized 36-bit grid of a quad's samples.
pub open spec fn bits_of(img: Lightness, q: Corners) -> Seq<bool> {
    let samples = samples_of(img, q);
    Seq::new(36, |k: int| 10 * samples[k] > thresh_of(samples))
}

/// The decoded identifier of a quad: nothing when the homography is
/// degenerate or a sample falls outside the image, otherwise the
/// codebook match of the binarized sample grid.
pub open spec fn decode_spec(img: Lightness, q: Corners) -> Option<u32> {
    if sample_ok(img, q) {
        decode_bits_spec(bits_of(img, q))
    } else {
        None
    }
}

/// Floor division for a positive divisor.
fn div_floor(a: i128, b: i128) -> (q: i128)
    requires
        0 < b <= 0x1_0000_0000_0000_0000_0000_0000_0000,
        -0x1_0000_0000_0000_0000_0000_0000_0000 <= a <= 0x1_0000_0000_0000_0000_0000_0000_0000,
    ensures
        q as int == (a as int) / (b as int),
{
    if a >= 0 {
        let q = a / b;
        proof {
            assert(q as int == (a as int) / (b as int));
        }
        q
    } else {
        let m = (-a + b - 1) / b;
        let q = -m;
        proof {
            vstd::arithmetic::div_mod::lemma_fundamental_div_mod(-(a as int) + b - 1, b as int);
            vstd::arithmetic::div_mod::lemma_mod_bound(-(a as int) + b - 1, b as int);
            let svar = (-(a as int) + b - 1) % (b as int);
            assert(-(a as int) + b - 1 == b * (m as int) + svar);
            assert(a as int == (b as int) * (q as int) + (b - 1 - svar)) by (nonlinear_arith)
                requires
                    -(a as int) + (b as int) - 1 == (b as int) * (m as int) + svar,
                    q as int == -(m as int),
            ;
            vstd::arithmetic::div_mod::lemma_fundamental_div_mod_converse(
                a as int, b as int, q as int, b - 1 - svar);
        }
        q
    }
}

/// Sort sample bytes ascending by insertion.
fn sort_bytes(v: &Vec<u8>) -> (out: Vec<u8>)
    ensures
        out@ == sort8(v@),
        out@.len() == v@.len(),
{
    let mut out: Vec<u8> = Vec::new();
    let n = v.len();
    proof {
        broadcast use vstd::seq_lib::group_to_multiset_ensures;

        assert(v@.subrange(0, 0) =~= Seq::<u8>::empty());
        assert(out@ =~= Seq::<u8>::empty());
        assert(out@.to_multiset() =~= v@.subrange(0, 0).to_multiset());
    }
    let mut i: usize = 0;
    while i < n
        invariant
            n == v@.len(),
            i <= n,
            sorted8(out@),
            out@.to_multiset() == v@.subrange(0, i as int).to_multiset(),
            out@.len() == i,
        decreases n - i,
    {
        let x = v[i];
        let m = out.len();
        let mut j: usize = 0;
        while j < m && out[j] <= x
            invariant
                m == out@.len(),
                j <= m,
                forall|t: int| 0 <= t < j ==> out@[t] <= x,
            decreases m - j,
        {
            j = j + 1;
        }
        let ghost o0 = out@;
        out.insert(j, x);
        proof {
            broadcast use vstd::seq_lib::group_to_multiset_ensures;

            o0.insert_ensures(j as int, x);
            assert(out@ == o0.insert(j as int, x));
            assert(out@ =~= o0.subrange(0, j as int).push(x)
                + o0.subrange(j as int, o0.len() as int));
            vstd::seq_lib::lemma_multiset_commutative(o0.subrange(0, j as int).push(x),
                o0.subrange(j as int, o0.len() as int));
            assert(o0.subrange(0, j as int).push(x).to_multiset()
                =~= o0.subrange(0, j as int).to_multiset().insert(x));
            assert(o0 =~= o0.subrange(0, j as int) + o0.subrange(j as int, o0.len() as int));
            vstd::seq_lib::lemma_multiset_commutative(o0.subrange(0, j as int),
                o0.subrange(j as int, o0.len() as int));
            assert(out@.to_multiset() =~= o0.to_multiset().insert(x));
            assert(v@.subrange(0, i + 1) =~= v@.subrange(0, i as int).push(x));
            assert(v@.subrange(0, i + 1).to_multiset()
                =~= v@.subrange(0, i as int).to_multiset().insert(x));
            assert forall|t1: int, t2: int| 0 <= t1 < t2 < out@.len()
                implies out@[t1] <= out@[t2] by {
                let jj = j as int;
                if t1 < jj {
                    assert(out@[t1] == o0[t1]);
                } else if t1 == jj {
                    assert(out@[t1] == x);
                } else {
                    assert(out@[t1] == o0[t1 - 1]);
                }
                if t2 < jj {
                    assert(out@[t2] == o0[t2]);
                } else if t2 == jj {
                    assert(out@[t2] == x);
                } else {
                    assert(out@[t2] == o0[t2 - 1]);
                }
                if t2 == jj {
                    assert(t1 < jj && out@[t1] == o0[t1] && o0[t1] <= x);
                } else if t1 == jj && t2 > jj {
                    assert(out@[t2] == o0[t2 - 1]);
                    assert(jj <= t2 - 1 < o0.len());
                    if jj < o0.len() {
                        assert(!(o0[jj] <= x));
                        if t2 - 1 > jj {
                            assert(o0[jj] <= o0[t2 - 1]);
                        }
                        assert(x <= o0[t2 - 1]);
                    }
                } else if t1 < jj && t2 > jj {
                    assert(o0[t1] <= x);
                    if jj < o0.len() {
                        assert(!(o0[jj] <= x));
                        if t2 - 1 > jj {
                            assert(o0[jj] <= o0[t2 - 1]);
                        }
                        assert(o0[t1] <= o0[t2 - 1]);
                    }
                }
            }
            assert(sorted8(out@));
        }
        i = i + 1;
    }
    proof {
        assert(v@.subrange(0, n as int) =~= v@);
        lemma_sort8(v@);
        lemma_sorted8_unique(out@, sort8(v@));
    }
    out
}

/// Decode the tag identifier inside a quad, or return nothing when
/// the quad's homography is degenerate, a sample point leaves the
/// image, or no codeword matches within Hamming distance 2.
pub fn decode(img: &Lightness, corners: Corners) -> (r: Option<u32>)
    requires
        img.wf(),
        quad_small(corners),
        img.h <= 0x2000_0000,
        img.w <= 0x2000_0000,
    ensures
        r == decode_spec(*img, corners),
{
    let (tl, tr, bl, br) = corners;
    let sx: i64 = tl.0 as i64 - tr.0 as i64 + br.0 as i64 - bl.0 as i64;
    let sy: i64 = tl.1 as i64 - tr.1 as i64 + br.1 as i64 - bl.1 as i64;
    let affine = sx == 0 && sy == 0;
    let (den, gn, hn): (i128, i128, i128) = if affine {
        (1, 0, 0)
    } else {
        let dx1: i128 = tr.0 as i128 - br.0 as i128;
        let dx2: i128 = bl.0 as i128 - br.0 as i128;
        let dy1: i128 = tr.1 as i128 - br.1 as i128;
        let dy2: i128 = bl.1 as i128 - br.1 as i128;
        proof {
            assert(-0x1000_0000_0000_0000 <= dx1 as int * dy2 as int <= 0x1000_0000_0000_0000
                && -0x1000_0000_0000_0000 <= dx2 as int * dy1 as int <= 0x1000_0000_0000_0000
                && -0x4000_0000_0000_0000 <= sx as int * dy2 as int <= 0x4000_0000_0000_0000
                && -0x4000_0000_0000_0000 <= sy as int * dx2 as int <= 0x4000_0000_0000_0000
                && -0x4000_0000_0000_0000 <= dx1 as int * sy as int <= 0x4000_0000_0000_0000
                && -0x4000_0000_0000_0000 <= dy1 as int * sx as int <= 0x4000_0000_0000_0000)
                by (nonlinear_arith)
                requires
                    -0x2000_0000 <= dx1 as int <= 0x2000_0000,
                    -0x2000_0000 <= dx2 as int <= 0x2000_0000,
                    -0x2000_0000 <= dy1 as int <= 0x2000_0000,
                    -0x2000_0000 <= dy2 as int <= 0x2000_0000,
                    -0x8000_0000 <= sx as int <= 0x8000_0000,
                    -0x8000_0000 <= sy as int <= 0x8000_0000,
            ;
        }
        let d: i128 = dx1 * dy2 - dx2 * dy1;
        let g: i128 = (sx as i128) * dy2 - (sy as i128) * dx2;
        let h: i128 = dx1 * (sy as i128) - dy1 * (sx as i128);
        (d, g, h)
    };
    proof {
        assert(den as int == homog_den_raw(corners));
        assert(gn as int == homog_gn_raw(corners));
        assert(hn as int == homog_hn_raw(corners));
    }
    if den == 0 {
        return None;
    }
    let (den, gn, hn): (i128, i128, i128) = if den < 0 {
        (-den, -gn, -hn)
    } else {
        (den, gn, hn)
    };
    proof {
        assert(den as int == homog_den(corners));
        assert(gn as int == homog_gn(corners));
        assert(hn as int == homog_hn(corners));
        assert(-0x2000_0000_0000_0000 <= den as int <= 0x2000_0000_0000_0000);
        assert(-0x8000_0000_0000_0000 <= gn as int <= 0x8000_0000_0000_0000);
        assert(-0x8000_0000_0000_0000 <= hn as int <= 0x8000_0000_0000_0000);
    }
    proof {
        assert(-0x8000_0000_0000_0000_0000_0000
            <= (tr.0 as int - tl.0 as int) * (den as int) <= 0x8000_0000_0000_0000_0000_0000
            && -0x8000_0000_0000_0000_0000_0000
                <= (bl.0 as int - tl.0 as int) * (den as int) <= 0x8000_0000_0000_0000_0000_0000
            && -0x8000_0000_0000_0000_0000_0000
                <= (tr.1 as int - tl.1 as int) * (den as int) <= 0x8000_0000_0000_0000_0000_0000
            && -0x8000_0000_0000_0000_0000_0000
                <= (bl.1 as int - tl.1 as int) * (den as int) <= 0x8000_0000_0000_0000_0000_0000
            && -0x8000_0000_0000_0000_0000_0000
                <= (gn as int) * (tr.0 as int) <= 0x8000_0000_0000_0000_0000_0000
            && -0x8000_0000_0000_0000_0000_0000
                <= (hn as int) * (bl.0 as int) <= 0x8000_0000_0000_0000_0000_0000
            && -0x8000_0000_0000_0000_0000_0000
                <= (gn as int) * (tr.1 as int) <= 0x8000_0000_0000_0000_0000_0000
            && -0x8000_0000_0000_0000_0000_0000
                <= (hn as int) * (bl.1 as int) <= 0x8000_0000_0000_0000_0000_0000
            && -0x8000_0000_0000_0000_0000_0000
                <= (tl.0 as int) * (den as int) <= 0x8000_0000_0000_0000_0000_0000
            && -0x8000_0000_0000_0000_0000_0000
                <= (tl.1 as int) * (den as int) <= 0x8000_0000_0000_0000_0000_0000)
            by (nonlinear_arith)
            requires
                0 <= tl.0 as int <= 0x2000_0000,
                0 <= tl.1 as int <= 0x2000_0000,
                0 <= tr.0 as int <= 0x2000_0000,
                0 <= tr.1 as int <= 0x2000_0000,
                0 <= bl.0 as int <= 0x2000_0000,
                0 <= bl.1 as int <= 0x2000_0000,
                -0x2000_0000_0000_0000 <= den as int <= 0x2000_0000_0000_0000,
                -0x8000_0000_0000_0000 <= gn as int <= 0x8000_0000_0000_0000,
                -0x8000_0000_0000_0000 <= hn as int <= 0x8000_0000_0000_0000,
        ;
    }
    let an: i128 = (tr.0 as i128 - tl.0 as i128) * den + gn * (tr.0 as i128);
    let bn: i128 = (bl.0 as i128 - tl.0 as i128) * den + hn * (bl.0 as i128);
    let cn: i128 = (tl.0 as i128) * den;
    let dn: i128 = (tr.1 as i128 - tl.1 as i128) * den + gn * (tr.1 as i128);
    let en: i128 = (bl.1 as i128 - tl.1 as i128) * den + hn * (bl.1 as i128);
    let fn_: i128 = (tl.1 as i128) * den;
    let mut samples: Vec<u8> = Vec::new();
    let mut j: usize = 0;
    while j < 6
        invariant
            img.wf(),
            img.h <= 0x2000_0000,
            img.w <= 0x2000_0000,
            j <= 6,
            homog_den(corners) != 0,
            den as int == homog_den(corners),
            gn as int == homog_gn(corners),
            hn as int == homog_hn(corners),
            an as int == (tr.0 as int - tl.0 as int) * (den as int) + (gn as int) * (tr.0 as int),
            bn as int == (bl.0 as int - tl.0 as int) * (den as int) + (hn as int) * (bl.0 as int),
            cn as int == (tl.0 as int) * (den as int),
            dn as int == (tr.1 as int - tl.1 as int) * (den as int) + (gn as int) * (tr.1 as int),
            en as int == (bl.1 as int - tl.1 as int) * (den as int) + (hn as int) * (bl.1 as int),
            fn_ as int == (tl.1 as int) * (den as int),
            -0x1_0000_0000_0000_0000_0000_0000 <= an as int <= 0x1_0000_0000_0000_0000_0000_0000,
            -0x1_0000_0000_0000_0000_0000_0000 <= bn as int <= 0x1_0000_0000_0000_0000_0000_0000,
            -0x1_0000_0000_0000_0000_0000_0000 <= cn as int <= 0x1_0000_0000_0000_0000_0000_0000,
            -0x1_0000_0000_0000_0000_0000_0000 <= dn as int <= 0x1_0000_0000_0000_0000_0000_0000,
            -0x1_0000_0000_0000_0000_0000_0000 <= en as int <= 0x1_0000_0000_0000_0000_0000_0000,
            -0x1_0000_0000_0000_0000_0000_0000 <= fn_ as int <= 0x1_0000_0000_0000_0000_0000_0000,
            -0x2000_0000_0000_0000 <= den as int <= 0x2000_0000_0000_0000,
            -0x8000_0000_0000_0000 <= gn as int <= 0x8000_0000_0000_0000,
            -0x8000_0000_0000_0000 <= hn as int <= 0x8000_0000_0000_0000,
            (tl, tr, bl, br) == corners,
            samples@.len() == j * 6,
            forall|k: int|
                0 <= k < samples@.len()
                    ==> #[trigger] samples@[k]
                        == img.at(sample_py(corners, k % 6, k / 6),
                            sample_px(corners, k % 6, k / 6)),
            forall|jj: int, ii: int|
                0 <= jj < j && 0 <= ii < 6
                    ==> #[trigger] sample_w(corners, ii, jj) > 0
                        && 0 <= sample_px(corners, ii, jj) < img.w
                        && 0 <= sample_py(corners, ii, jj) < img.h,
        decreases 6 - j,
    {
        let mut i: usize = 0;
        while i < 6
            invariant
                img.wf(),
                img.h <= 0x2000_0000,
                img.w <= 0x2000_0000,
                j < 6,
                i <= 6,
                homog_den(corners) != 0,
                den as int == homog_den(corners),
                gn as int == homog_gn(corners),
                hn as int == homog_hn(corners),
                an as int == (tr.0 as int - tl.0 as int) * (den as int) + (gn as int) * (tr.0 as int),
                bn as int == (bl.0 as int - tl.0 as int) * (den as int) + (hn as int) * (bl.0 as int),
                cn as int == (tl.0 as int) * (den as int),
                dn as int == (tr.1 as int - tl.1 as int) * (den as int) + (gn as int) * (tr.1 as int),
                en as int == (bl.1 as int - tl.1 as int) * (den as int) + (hn as int) * (bl.1 as int),
                fn_ as int == (tl.1 as int) * (den as int),
                -0x1_0000_0000_0000_0000_0000_0000 <= an as int <= 0x1_0000_0000_0000_0000_0000_0000,
                -0x1_0000_0000_0000_0000_0000_0000 <= bn as int <= 0x1_0000_0000_0000_0000_0000_0000,
                -0x1_0000_0000_0000_0000_0000_0000 <= cn as int <= 0x1_0000_0000_0000_0000_0000_0000,
                -0x1_0000_0000_0000_0000_0000_0000 <= dn as int <= 0x1_0000_0000_0000_0000_0000_0000,
                -0x1_0000_0000_0000_0000_0000_0000 <= en as int <= 0x1_0000_0000_0000_0000_0000_0000,
                -0x1_0000_0000_0000_0000_0000_0000 <= fn_ as int <= 0x1_0000_0000_0000_0000_0000_0000,
                -0x2000_0000_0000_0000 <= den as int <= 0x2000_0000_0000_0000,
                -0x8000_0000_0000_0000 <= gn as int <= 0x8000_0000_0000_0000,
                -0x8000_0000_0000_0000 <= hn as int <= 0x8000_0000_0000_0000,
                (tl, tr, bl, br) == corners,
                samples@.len() == j * 6 + i,
                forall|k: int|
                    0 <= k < samples@.len()
                        ==> #[trigger] samples@[k]
                            == img.at(sample_py(corners, k % 6, k / 6),
                                sample_px(corners, k % 6, k / 6)),
                forall|jj: int, ii: int|
                    0 <= jj < j && 0 <= ii < 6
                        ==> #[trigger] sample_w(corners, ii, jj) > 0
                            && 0 <= sample_px(corners, ii, jj) < img.w
                            && 0 <= sample_py(corners, ii, jj) < img.h,
                forall|ii: int|
                    0 <= ii < i
                        ==> #[trigger] sample_w(corners, ii, j as int) > 0
                            && 0 <= sample_px(corners, ii, j as int) < img.w
                            && 0 <= sample_py(corners, ii, j as int) < img.h,
            decreases 6 - i,
        {
            let ui: i128 = 2 * (i as i128) + 3;
            let vj: i128 = 2 * (j as i128) + 3;
            proof {
                assert(-0xF_0000_0000_0000_0000_0000_0000
                    <= (gn as int) * (ui as int) <= 0xF_0000_0000_0000_0000_0000_0000
                    && -0xF_0000_0000_0000_0000_0000_0000
                        <= (hn as int) * (vj as int) <= 0xF_0000_0000_0000_0000_0000_0000
                    && -0xF_0000_0000_0000_0000_0000_0000
                        <= (an as int) * (ui as int) <= 0xF_0000_0000_0000_0000_0000_0000
                    && -0xF_0000_0000_0000_0000_0000_0000
                        <= (bn as int) * (vj as int) <= 0xF_0000_0000_0000_0000_0000_0000
                    && -0xF_0000_0000_0000_0000_0000_0000
                        <= (dn as int) * (ui as int) <= 0xF_0000_0000_0000_0000_0000_0000
                    && -0xF_0000_0000_0000_0000_0000_0000
                        <= (en as int) * (vj as int) <= 0xF_0000_0000_0000_0000_0000_0000)
                    by (nonlinear_arith)
                    requires
                        3 <= ui as int <= 15,
                        3 <= vj as int <= 15,
                        -0x1_0000_0000_0000_0000_0000_0000 <= an as int
                            <= 0x1_0000_0000_0000_0000_0000_0000,
                        -0x1_0000_0000_0000_0000_0000_0000 <= bn as int
                            <= 0x1_0000_0000_0000_0000_0000_0000,
                        -0x1_0000_0000_0000_0000_0000_0000 <= dn as int
                            <= 0x1_0000_0000_0000_0000_0000_0000,
                        -0x1_0000_0000_0000_0000_0000_0000 <= en as int
                            <= 0x1_0000_0000_0000_0000_0000_0000,
                        -0x8000_0000_0000_0000 <= gn as int <= 0x8000_0000_0000_0000,
                        -0x8000_0000_0000_0000 <= hn as int <= 0x8000_0000_0000_0000,
                ;
            }
            let w: i128 = gn * ui + hn * vj + 16 * den;
            if w <= 0 {
                proof {
                    assert(!sample_ok(*img, corners)) by {
                        assert(sample_w(corners, i as int, j as int) <= 0);
                    }
                }
                return None;
            }
            let xn: i128 = an * ui + bn * vj + 16 * cn;
            let yn: i128 = dn * ui + en * vj + 16 * fn_;
            proof {
                assert(w as int == sample_w(corners, i as int, j as int));
                assert(xn as int == sample_xn(corners, i as int, j as int));
                assert(yn as int == sample_yn(corners, i as int, j as int));
            }
            let px: i128 = div_floor(2 * xn + w, 2 * w);
            let py: i128 = div_floor(2 * yn + w, 2 * w);
            proof {
                assert(px as int == sample_px(corners, i as int, j as int));
                assert(py as int == sample_py(corners, i as int, j as int));
            }
            if px < 0 || px >= img.w as i128 || py < 0 || py >= img.h as i128 {
                proof {
                    assert(!sample_ok(*img, corners)) by {
                        assert(sample_w(corners, i as int, j as int) > 0);
                        assert(!(0 <= sample_px(corners, i as int, j as int) < img.w
                            && 0 <= sample_py(corners, i as int, j as int) < img.h));
                    }
                }
                return None;
            }
            let v = img.get(py as usize, px as usize);
            samples.push(v);
            proof {
                let k = j * 6 + i;
                vstd::arithmetic::div_mod::lemma_fundamental_div_mod_converse(
                    k as int, 6, j as int, i as int);
            }
            i = i + 1;
        }
        j = j + 1;
    }
    proof {
        assert(sample_ok(*img, corners));
        assert(samples@ =~= samples_of(*img, corners));
    }
    let sorted = sort_bytes(&samples);
    let mut lo: u32 = 0;
    let mut k: usize = 0;
    while k < 5
        invariant
            sorted@.len() == 36,
            k <= 5,
            lo as int == sum_range(sorted@, 0, k as int),
            lo <= 255 * k,
        decreases 5 - k,
    {
        lo = lo + sorted[k] as u32;
        k = k + 1;
    }
    let mut hi: u32 = 0;
    let mut k: usize = 31;
    while k < 36
        invariant
            sorted@.len() == 36,
            31 <= k <= 36,
            hi as int == sum_range(sorted@, 31, k as int),
            hi <= 255 * (k - 31),
        decreases 36 - k,
    {
        hi = hi + sorted[k] as u32;
        k = k + 1;
    }
    let th: u32 = lo + hi;
    proof {
        assert(th as int == thresh_of(samples@));
    }
    let mut bits: Vec<bool> = Vec::new();
    let mut k: usize = 0;
    while k < 36
        invariant
            samples@.len() == 36,
            th as int == thresh_of(samples@),
            k <= 36,
            bits@.len() == k,
            forall|t: int|
                0 <= t < k
                    ==> bits@[t] == (10 * samples@[t] > thresh_of(samples@)),
        decreases 36 - k,
    {
        let b = 10 * (samples[k] as u32) > th;
        bits.push(b);
        k = k + 1;
    }
    proof {
        assert(bits@ =~= bits_of(*img, corners));
    }
    decode_bits(&bits)
}


/// A Hamming count lies between 0 and the number of bits counted.
proof fn lemma_ham_bounds(s: Seq<bool>, code: u64, k: int)
    ensures
        0 <= ham_upto(s, code, k),
        ham_upto(s, code, k) <= if k >= 0 { k } else { 0 },
    decreases k,
{
    if k > 0 {
        lemma_ham_bounds(s, code, k - 1);
    }
}

/// Rotating keeps a 36-bit grid 36 bits long.
proof fn lemma_rotk_len(s: Seq<bool>, k: int)
    requires
        s.len() == 36,
        k >= 0,
    ensures
        rotk(s, k).len() == 36,
    decreases k,
{
    if k > 0 {
        lemma_rotk_len(s, k - 1);
    }
}

/// Rotations compose additively.
proof fn lemma_rotk_add(s: Seq<bool>, a: int, b: int)
    requires
        a >= 0,
        b >= 0,
    ensures
        rotk(rotk(s, a), b) == rotk(s, a + b),
    decreases b,
{
    if b > 0 {
        lemma_rotk_add(s, a, b - 1);
    }
}

/// Four quarter turns are the identity.
proof fn lemma_rot4(s: Seq<bool>)
    requires
        s.len() == 36,
    ensures
        rotk(s, 4) == s,
{
    reveal_with_fuel(rotk, 6);
    let r1 = rotk(s, 1);
    let r2 = rotk(s, 2);
    let r3 = rotk(s, 3);
    let r4 = rotk(s, 4);
    assert(r1 == rot90_spec(s));
    assert(r2 == rot90_spec(r1));
    assert(r3 == rot90_spec(r2));
    assert(r4 == rot90_spec(r3));
    assert forall|r: int, c: int| 0 <= r < 6 && 0 <= c < 6
        implies #[trigger] r4[r * 6 + c] == s[r * 6 + c] by {
        vstd::arithmetic::div_mod::lemma_fundamental_div_mod_converse(r * 6 + c, 6, r, c);
        assert(r4[r * 6 + c] == r3[(5 - c) * 6 + r]) by {
            assert((r * 6 + c) / 6 == r && (r * 6 + c) % 6 == c);
        }
        vstd::arithmetic::div_mod::lemma_fundamental_div_mod_converse((5 - c) * 6 + r, 6, 5 - c, r);
        assert(r3[(5 - c) * 6 + r] == r2[(5 - r) * 6 + (5 - c)]);
        vstd::arithmetic::div_mod::lemma_fundamental_div_mod_converse(
            (5 - r) * 6 + (5 - c), 6, 5 - r, 5 - c);
        assert(r2[(5 - r) * 6 + (5 - c)] == r1[c * 6 + (5 - r)]);
        vstd::arithmetic::div_mod::lemma_fundamental_div_mod_converse(c * 6 + (5 - r), 6, c, 5 - r);
        assert(r1[c * 6 + (5 - r)] == s[r * 6 + c]);
    }
    assert(r4 =~= s) by {
        assert forall|k: int| 0 <= k < 36 implies r4[k] == s[k] by {
            let r = k / 6;
            let c = k % 6;
            vstd::arithmetic::div_mod::lemma_fundamental_div_mod(k, 6);
            vstd::arithmetic::div_mod::lemma_mod_bound(k, 6);
            assert(0 <= r < 6) by (nonlinear_arith)
                requires
                    k == 6 * r + c,
                    0 <= c < 6,
                    0 <= k < 36,
            ;
            assert(r * 6 + c == k) by (nonlinear_arith)
                requires
                    k == 6 * r + c,
            ;
            assert(r4[r * 6 + c] == s[r * 6 + c]);
        }
    }
}

/// Step `step` of the scan visits rotation `(step - 1) / 11` and
/// codeword `(step - 1) % 11`.
proof fn lemma_step_coords(step: int)
    requires
        1 <= step <= 44,
    ensures
        0 <= (step - 1) / 11 < 4,
        0 <= (step - 1) % 11 < 11,
        ((step - 1) / 11) * 11 + (step - 1) % 11 == step - 1,
    decreases step,
{
    vstd::arithmetic::div_mod::lemma_fundamental_div_mod(step - 1, 11);
    vstd::arithmetic::div_mod::lemma_mod_bound(step - 1, 11);
    assert(0 <= (step - 1) / 11 < 4 && ((step - 1) / 11) * 11 + (step - 1) % 11 == step - 1)
        by (nonlinear_arith)
        requires
            step - 1 == 11 * ((step - 1) / 11) + (step - 1) % 11,
            0 <= (step - 1) % 11 < 11,
            0 <= step - 1 < 44,
    ;
}

/// If one rotation matches a codeword exactly and no other pair of
/// rotation and codeword does, the scan settles on that codeword
/// with distance 0.
proof fn lemma_scan_zero(bits: Seq<bool>, r1: int, i1: int, step: int)
    requires
        bits.len() == 36,
        0 <= r1 < 4,
        0 <= i1 < 11,
        0 <= step <= 44,
        ham(rotk(bits, r1), code_val(i1)) == 0,
        forall|m: int, j: int|
            0 <= m < 4 && 0 <= j < 11 && (m != r1 || j != i1)
                ==> ham(#[trigger] rotk(bits, m), #[trigger] code_val(j)) != 0,
    ensures
        step > r1 * 11 + i1
            ==> scan_best(bits, step) == Some((i1, 0int)),
        step <= r1 * 11 + i1
            ==> scan_best(bits, step) is None
                || scan_best(bits, step).unwrap().1 >= 1,
    decreases step,
{
    if step > 0 {
        lemma_scan_zero(bits, r1, i1, step - 1);
        lemma_step_coords(step);
        let rot = (step - 1) / 11;
        let idx = (step - 1) % 11;
        lemma_ham_bounds(rotk(bits, rot), code_val(idx), 36);
        if step - 1 == r1 * 11 + i1 {
            vstd::arithmetic::div_mod::lemma_fundamental_div_mod_converse(
                step - 1, 11, r1, i1);
            assert(rot == r1 && idx == i1);
        } else {
            assert(rot * 11 + idx != r1 * 11 + i1);
            assert(rot != r1 || idx != i1);
            assert(ham(rotk(bits, rot), code_val(idx)) != 0);
        }
    }
}

/// If one rotation matches a codeword at distance exactly 2 and every
/// other pair is farther than 2, the scan settles on that codeword.
proof fn lemma_scan_two(bits: Seq<bool>, r1: int, i1: int, step: int)
    requires
        bits.len() == 36,
        0 <= r1 < 4,
        0 <= i1 < 11,
        0 <= step <= 44,
        ham(rotk(bits, r1), code_val(i1)) == 2,
        forall|m: int, j: int|
            0 <= m < 4 && 0 <= j < 11 && (m != r1 || j != i1)
                ==> ham(#[trigger] rotk(bits, m), #[trigger] code_val(j)) > 2,
    ensures
        step > r1 * 11 + i1
            ==> scan_best(bits, step) == Some((i1, 2int)),
        step <= r1 * 11 + i1
            ==> scan_best(bits, step) is None,
    decreases step,
{
    if step > 0 {
        lemma_scan_two(bits, r1, i1, step - 1);
        lemma_step_coords(step);
        let rot = (step - 1) / 11;
        let idx = (step - 1) % 11;
        if step - 1 == r1 * 11 + i1 {
            vstd::arithmetic::div_mod::lemma_fundamental_div_mod_converse(
                step - 1, 11, r1, i1);
            assert(rot == r1 && idx == i1);
        } else {
            assert(rot * 11 + idx != r1 * 11 + i1);
            assert(rot != r1 || idx != i1);
            assert(ham(rotk(bits, rot), code_val(idx)) > 2);
        }
    }
}

/// If every rotation is farther than 2 from every codeword, the scan
/// finds nothing.
proof fn lemma_scan_none(bits: Seq<bool>, step: int)
    requires
        bits.len() == 36,
        0 <= step <= 44,
        forall|m: int, j: int|
            0 <= m < 4 && 0 <= j < 11
                ==> ham(#[trigger] rotk(bits, m), #[trigger] code_val(j)) > 2,
    ensures
        scan_best(bits, step) is None,
    decreases step,
{
    if step > 0 {
        lemma_scan_none(bits, step - 1);
        lemma_step_coords(step);
    }
}

/// Rotation invariance of decoding.  If some rotation of the grid is
/// exactly a codeword, and no other pair of rotation and codeword
/// matches exactly, then the grid and each of its quarter-turn
/// rotations all decode to that codeword's identifier.
pub proof fn lemma_decode_rotation_invariant(bits: Seq<bool>, r1: int, i1: int)
    requires
        bits.len() == 36,
        0 <= r1 < 4,
        0 <= i1 < 11,
        ham(rotk(bits, r1), code_val(i1)) == 0,
        forall|m: int, j: int|
            0 <= m < 4 && 0 <= j < 11 && (m != r1 || j != i1)
                ==> ham(#[trigger] rotk(bits, m), #[trigger] code_val(j)) != 0,
    ensures
        forall|k: int|
            0 <= k < 4 ==> #[trigger] decode_bits_spec(rotk(bits, k)) == Some(i1 as u32),
{
    assert forall|k: int| 0 <= k < 4
        implies #[trigger] decode_bits_spec(rotk(bits, k)) == Some(i1 as u32) by {
        let g = rotk(bits, k);
        lemma_rotk_len(bits, k);
        lemma_rot4(bits);
        // every rotation of g is a rotation of bits
        assert forall|m: int| 0 <= m < 4
            implies #[trigger] rotk(g, m) == rotk(bits, if k + m < 4 { k + m } else { k + m - 4 })
            by {
            lemma_rotk_add(bits, k, m);
            if k + m >= 4 {
                lemma_rotk_add(bits, 4, k + m - 4);
                lemma_rotk_add(rotk(bits, 4), 0, k + m - 4);
                assert(rotk(rotk(bits, 4), k + m - 4) == rotk(bits, k + m));
                assert(rotk(rotk(bits, 4), k + m - 4) == rotk(bits, k + m - 4));
            }
        }
        let r2 = if r1 >= k { r1 - k } else { r1 + 4 - k };
        assert(rotk(g, r2) == rotk(bits, r1));
        assert forall|m: int, j: int|
            0 <= m < 4 && 0 <= j < 11 && (m != r2 || j != i1)
            implies ham(#[trigger] rotk(g, m), #[trigger] code_val(j)) != 0 by {
            let m2 = if k + m < 4 { k + m } else { k + m - 4 };
            assert(rotk(g, m) == rotk(bits, m2));
            assert(m2 != r1 || j != i1);
        }
        lemma_scan_zero(g, r2, i1, 44);
        assert(scan_best(g, 44) == Some((i1, 0int)));
    }
}

/// Hamming tolerance, positive side.  A grid whose rotation differs
/// from one codeword in exactly 2 bits, while every other pair of
/// rotation and codeword differs in more than 2, decodes to that
/// codeword's identifier.
pub proof fn lemma_decode_two_flips(bits: Seq<bool>, r1: int, i1: int)
    requires
        bits.len() == 36,
        0 <= r1 < 4,
        0 <= i1 < 11,
        ham(rotk(bits, r1), code_val(i1)) == 2,
        forall|m: int, j: int|
            0 <= m < 4 && 0 <= j < 11 && (m != r1 || j != i1)
                ==> ham(#[trigger] rotk(bits, m), #[trigger] code_val(j)) > 2,
    ensures
        decode_bits_spec(bits) == Some(i1 as u32),
{
    lemma_scan_two(bits, r1, i1, 44);
}

/// Hamming tolerance, negative side.  A grid farther than 2 bits from
/// every codeword at every rotation decodes to nothing.
pub proof fn lemma_decode_beyond_tolerance(bits: Seq<bool>)
    requires
        bits.len() == 36,
        forall|m: int, j: int|
            0 <= m < 4 && 0 <= j < 11
                ==> ham(#[trigger] rotk(bits, m), #[trigger] code_val(j)) > 2,
    ensures
        decode_bits_spec(bits) == None::<u32>,
{
    lemma_scan_none(bits, 44);
}


/// The row-major 6 by 6 bit grid of a codeword.
pub open spec fn code_grid(i: int) -> Seq<bool> {
    Seq::new(36, |k: int| code_bit(code_val(i), k))
}

/// A Hamming prefix count is 0 exactly when every counted bit agrees.
proof fn lemma_ham_upto_zero_iff(s: Seq<bool>, c: u64, n: int)
    ensures
        (ham_upto(s, c, n) == 0) <==> (forall|k: int| 0 <= k < n ==> s[k] == code_bit(c, k)),
    decreases n,
{
    if n > 0 {
        lemma_ham_upto_zero_iff(s, c, n - 1);
        lemma_ham_bounds(s, c, n - 1);
    }
}

/// The 36 bits of codeword 0, most significant first.
proof fn lemma_code_bits_0()
    ensures
        code_bit(code_val(0), 0) == true,
        code_bit(code_val(0), 1) == true,
        code_bit(code_val(0), 2) == false,
        code_bit(code_val(0), 3) == true,
        code_bit(code_val(0), 4) == false,
        code_bit(code_val(0), 5) == true,
        code_bit(code_val(0), 6) == false,
        code_bit(code_val(0), 7) == true,
        code_bit(code_val(0), 8) == true,
        code_bit(code_val(0), 9) == true,
        code_bit(code_val(0), 10) == false,
        code_bit(code_val(0), 11) == true,
        code_bit(code_val(0), 12) == false,
        code_bit(code_val(0), 13) == true,
        code_bit(code_val(0), 14) == true,
        code_bit(code_val(0), 15) == false,
        code_bit(code_val(0), 16) == false,
        code_bit(code_val(0), 17) == false,
        code_bit(code_val(0), 18) == true,
        code_bit(code_val(0), 19) == false,
        code_bit(code_val(0), 20) == true,
        code_bit(code_val(0), 21) == false,
        code_bit(code_val(0), 22) == false,
        code_bit(code_val(0), 23) == false,
        code_bit(code_val(0), 24) == false,
        code_bit(code_val(0), 25) == true,
        code_bit(code_val(0), 26) == false,
        code_bit(code_val(0), 27) == true,
        code_bit(code_val(0), 28) == true,
        code_bit(code_val(0), 29) == false,
        code_bit(code_val(0), 30) == false,
        code_bit(code_val(0), 31) == false,
        code_bit(code_val(0), 32) == false,
        code_bit(code_val(0), 33) == true,
        code_bit(code_val(0), 34) == false,
        code_bit(code_val(0), 35) == false,
{
    assert(code_val(0) == 57401312644u64);
    assert((57401312644u64 >> 35u64) & 1u64 == 1u64
            && (57401312644u64 >> 34u64) & 1u64 == 1u64
            && (57401312644u64 >> 33u64) & 1u64 == 0u64
            && (57401312644u64 >> 32u64) & 1u64 == 1u64
            && (57401312644u64 >> 31u64) & 1u64 == 0u64
            && (57401312644u64 >> 30u64) & 1u64 == 1u64
            && (57401312644u64 >> 29u64) & 1u64 == 0u64
            && (57401312644u64 >> 28u64) & 1u64 == 1u64
            && (57401312644u64 >> 27u64) & 1u64 == 1u64
            && (57401312644u64 >> 26u64) & 1u64 == 1u64
            && (57401312644u64 >> 25u64) & 1u64 == 0u64
            && (57401312644u64 >> 24u64) & 1u64 == 1u64
            && (57401312644u64 >> 23u64) & 1u64 == 0u64
            && (57401312644u64 >> 22u64) & 1u64 == 1u64
            && (57401312644u64 >> 21u64) & 1u64 == 1u64
            && (57401312644u64 >> 20u64) & 1u64 == 0u64
            && (57401312644u64 >> 19u64) & 1u64 == 0u64
            && (57401312644u64 >> 18u64) & 1u64 == 0u64
            && (57401312644u64 >> 17u64) & 1u64 == 1u64
            && (57401312644u64 >> 16u64) & 1u64 == 0u64
            && (57401312644u64 >> 15u64) & 1u64 == 1u64
            && (57401312644u64 >> 14u64) & 1u64 == 0u64
            && (57401312644u64 >> 13u64) & 1u64 == 0u64
            && (57401312644u64 >> 12u64) & 1u64 == 0u64
            && (57401312644u64 >> 11u64) & 1u64 == 0u64
            && (57401312644u64 >> 10u64) & 1u64 == 1u64
            && (57401312644u64 >> 9u64) & 1u64 == 0u64
            && (57401312644u64 >> 8u64) & 1u64 == 1u64
            && (57401312644u64 >> 7u64) & 1u64 == 1u64
            && (57401312644u64 >> 6u64) & 1u64 == 0u64
            && (57401312644u64 >> 5u64) & 1u64 == 0u64
            && (57401312644u64 >> 4u64) & 1u64 == 0u64
            && (57401312644u64 >> 3u64) & 1u64 == 0u64
            && (57401312644u64 >> 2u64) & 1u64 == 1u64
            && (57401312644u64 >> 1u64) & 1u64 == 0u64
            && (57401312644u64 >> 0u64) & 1u64 == 0u64) by (bit_vector);
}

/// The 36 bits of codeword 1, most significant first.
proof fn lemma_code_bits_1()
    ensures
        code_bit(code_val(1), 0) == true,
        code_bit(code_val(1), 1) == true,
        code_bit(code_val(1), 2) == false,
        code_bit(code_val(1), 3) == true,
        code_bit(code_val(1), 4) == true,
        code_bit(code_val(1), 5) == false,
        code_bit(code_val(1), 6) == false,
        code_bit(code_val(1), 7) == true,
        code_bit(code_val(1), 8) == false,
        code_bit(code_val(1), 9) == true,
        code_bit(code_val(1), 10) == true,
        code_bit(code_val(1), 11) == true,
        code_bit(code_val(1), 12) == true,
        code_bit(code_val(1), 13) == true,
        code_bit(code_val(1), 14) == true,
        code_bit(code_val(1), 15) == true,
        code_bit(code_val(1), 16) == false,
        code_bit(code_val(1), 17) == false,
        code_bit(code_val(1), 18) == false,
        code_bit(code_val(1), 19) == true,
        code_bit(code_val(1), 20) == true,
        code_bit(code_val(1), 21) == false,
        code_bit(code_val(1), 22) == false,
        code_bit(code_val(1), 23) == false,
        code_bit(code_val(1), 24) == true,
        code_bit(code_val(1), 25) == false,
        code_bit(code_val(1), 26) == true,
        code_bit(code_val(1), 27) == true,
        code_bit(code_val(1), 28) == false,
        code_bit(code_val(1), 29) == true,
        code_bit(code_val(1), 30) == false,
        code_bit(code_val(1), 31) == false,
        code_bit(code_val(1), 32) == true,
        code_bit(code_val(1), 33) == false,
        code_bit(code_val(1), 34) == false,
        code_bit(code_val(1), 35) == true,
{
    assert(code_val(1) == 58383764297u64);
    assert((58383764297u64 >> 35u64) & 1u64 == 1u64
            && (58383764297u64 >> 34u64) & 1u64 == 1u64
            && (58383764297u64 >> 33u64) & 1u64 == 0u64
            && (58383764297u64 >> 32u64) & 1u64 == 1u64
            && (58383764297u64 >> 31u64) & 1u64 == 1u64
            && (58383764297u64 >> 30u64) & 1u64 == 0u64
            && (58383764297u64 >> 29u64) & 1u64 == 0u64
            && (58383764297u64 >> 28u64) & 1u64 == 1u64
            && (58383764297u64 >> 27u64) & 1u64 == 0u64
            && (58383764297u64 >> 26u64) & 1u64 == 1u64
            && (58383764297u64 >> 25u64) & 1u64 == 1u64
            && (58383764297u64 >> 24u64) & 1u64 == 1u64
            && (58383764297u64 >> 23u64) & 1u64 == 1u64
            && (58383764297u64 >> 22u64) & 1u64 == 1u64
            && (58383764297u64 >> 21u64) & 1u64 == 1u64
            && (58383764297u64 >> 20u64) & 1u64 == 1u64
            && (58383764297u64 >> 19u64) & 1u64 == 0u64
            && (58383764297u64 >> 18u64) & 1u64 == 0u64
            && (58383764297u64 >> 17u64) & 1u64 == 0u64
            && (58383764297u64 >> 16u64) & 1u64 == 1u64
            && (58383764297u64 >> 15u64) & 1u64 == 1u64
            && (58383764297u64 >> 14u64) & 1u64 == 0u64
            && (58383764297u64 >> 13u64) & 1u64 == 0u64
            && (58383764297u64 >> 12u64) & 1u64 == 0u64
            && (58383764297u64 >> 11u64) & 1u64 == 1u64
            && (58383764297u64 >> 10u64) & 1u64 == 0u64
            && (58383764297u64 >> 9u64) & 1u64 == 1u64
            && (58383764297u64 >> 8u64) & 1u64 == 1u64
            && (58383764297u64 >> 7u64) & 1u64 == 0u64
            && (58383764297u64 >> 6u64) & 1u64 == 1u64
            && (58383764297u64 >> 5u64) & 1u64 == 0u64
            && (58383764297u64 >> 4u64) & 1u64 == 0u64
            && (58383764297u64 >> 3u64) & 1u64 == 1u64
            && (58383764297u64 >> 2u64) & 1u64 == 0u64
            && (58383764297u64 >> 1u64) & 1u64 == 0u64
            && (58383764297u64 >> 0u64) & 1u64 == 1u64) by (bit_vector);
}

/// The 36 bits of codeword 2, most significant first.
proof fn lemma_code_bits_2()
    ensures
        code_bit(code_val(2), 0) == true,
        code_bit(code_val(2), 1) == true,
        code_bit(code_val(2), 2) == false,
        code_bit(code_val(2), 3) == true,
        code_bit(code_val(2), 4) == true,
        code_bit(code_val(2), 5) == true,
        code_bit(code_val(2), 6) == false,
        code_bit(code_val(2), 7) == true,
        code_bit(code_val(2), 8) == false,
        code_bit(code_val(2), 9) == false,
        code_bit(code_val(2), 10) == true,
        code_bit(code_val(2), 11) == false,
        code_bit(code_val(2), 12) == true,
        code_bit(code_val(2), 13) == false,
        code_bit(code_val(2), 14) == false,
        code_bit(code_val(2), 15) == false,
        code_bit(code_val(2), 16) == false,
        code_bit(code_val(2), 17) == false,
        code_bit(code_val(2), 18) == false,
        code_bit(code_val(2), 19) == false,
        code_bit(code_val(2), 20) == true,
        code_bit(code_val(2), 21) == false,
        code_bit(code_val(2), 22) == false,
        code_bit(code_val(2), 23) == true,
        code_bit(code_val(2), 24) == false,
        code_bit(code_val(2), 25) == false,
        code_bit(code_val(2), 26) == false,
        code_bit(code_val(2), 27) == true,
        code_bit(code_val(2), 28) == false,
        code_bit(code_val(2), 29) == false,
        code_bit(code_val(2), 30) == false,
        code_bit(code_val(2), 31) == false,
        code_bit(code_val(2), 32) == true,
        code_bit(code_val(2), 33) == true,
        code_bit(code_val(2), 34) == true,
        code_bit(code_val(2), 35) == false,
{
    assert(code_val(2) == 59366215950u64);
    assert((59366215950u64 >> 35u64) & 1u64 == 1u64
            && (59366215950u64 >> 34u64) & 1u64 == 1u64
            && (59366215950u64 >> 33u64) & 1u64 == 0u64
            && (59366215950u64 >> 32u64) & 1u64 == 1u64
            && (59366215950u64 >> 31u64) & 1u64 == 1u64
            && (59366215950u64 >> 30u64) & 1u64 == 1u64
            && (59366215950u64 >> 29u64) & 1u64 == 0u64
            && (59366215950u64 >> 28u64) & 1u64 == 1u64
            && (59366215950u64 >> 27u64) & 1u64 == 0u64
            && (59366215950u64 >> 26u64) & 1u64 == 0u64
            && (59366215950u64 >> 25u64) & 1u64 == 1u64
            && (59366215950u64 >> 24u64) & 1u64 == 0u64
            && (59366215950u64 >> 23u64) & 1u64 == 1u64
            && (59366215950u64 >> 22u64) & 1u64 == 0u64
            && (59366215950u64 >> 21u64) & 1u64 == 0u64
            && (59366215950u64 >> 20u64) & 1u64 == 0u64
            && (59366215950u64 >> 19u64) & 1u64 == 0u64
            && (59366215950u64 >> 18u64) & 1u64 == 0u64
            && (59366215950u64 >> 17u64) & 1u64 == 0u64
            && (59366215950u64 >> 16u64) & 1u64 == 0u64
            && (59366215950u64 >> 15u64) & 1u64 == 1u64
            && (59366215950u64 >> 14u64) & 1u64 == 0u64
            && (59366215950u64 >> 13u64) & 1u64 == 0u64
            && (59366215950u64 >> 12u64) & 1u64 == 1u64
            && (59366215950u64 >> 11u64) & 1u64 == 0u64
            && (59366215950u64 >> 10u64) & 1u64 == 0u64
            && (59366215950u64 >> 9u64) & 1u64 == 0u64
            && (59366215950u64 >> 8u64) & 1u64 == 1u64
            && (59366215950u64 >> 7u64) & 1u64 == 0u64
            && (59366215950u64 >> 6u64) & 1u64 == 0u64
            && (59366215950u64 >> 5u64) & 1u64 == 0u64
            && (59366215950u64 >> 4u64) & 1u64 == 0u64
            && (59366215950u64 >> 3u64) & 1u64 == 1u64
            && (59366215950u64 >> 2u64) & 1u64 == 1u64
            && (59366215950u64 >> 1u64) & 1u64 == 1u64
            && (59366215950u64 >> 0u64) & 1u64 == 0u64) by (bit_vector);
}

/// The 36 bits of codeword 3, most significant first.
proof fn lemma_code_bits_3()
    ensures
        code_bit(code_val(3), 0) == true,
        code_bit(code_val(3), 1) == true,
        code_bit(code_val(3), 2) == true,
        code_bit(code_val(3), 3) == false,
        code_bit(code_val(3), 4) == false,
        code_bit(code_val(3), 5) == true,
        code_bit(code_val(3), 6) == false,
        code_bit(code_val(3), 7) == false,
        code_bit(code_val(3), 8) == false,
        code_bit(code_val(3), 9) == true,
        code_bit(code_val(3), 10) == true,
        code_bit(code_val(3), 11) == true,
        code_bit(code_val(3), 12) == true,
        code_bit(code_val(3), 13) == false,
        code_bit(code_val(3), 14) == false,
        code_bit(code_val(3), 15) == true,
        code_bit(code_val(3), 16) == true,
        code_bit(code_val(3), 17) == true,
        code_bit(code_val(3), 18) == true,
        code_bit(code_val(3), 19) == false,
        code_bit(code_val(3), 20) == true,
        code_bit(code_val(3), 21) == false,
        code_bit(code_val(3), 22) == false,
        code_bit(code_val(3), 23) == true,
        code_bit(code_val(3), 24) == true,
        code_bit(code_val(3), 25) == true,
        code_bit(code_val(3), 26) == false,
        code_bit(code_val(3), 27) == false,
        code_bit(code_val(3), 28) == true,
        code_bit(code_val(3), 29) == false,
        code_bit(code_val(3), 30) == false,
        code_bit(code_val(3), 31) == true,
        code_bit(code_val(3), 32) == true,
        code_bit(code_val(3), 33) == false,
        code_bit(code_val(3), 34) == false,
        code_bit(code_val(3), 35) == false,
{
    assert(code_val(3) == 61331119256u64);
    assert((61331119256u64 >> 35u64) & 1u64 == 1u64
            && (61331119256u64 >> 34u64) & 1u64 == 1u64
            && (61331119256u64 >> 33u64) & 1u64 == 1u64
            && (61331119256u64 >> 32u64) & 1u64 == 0u64
            && (61331119256u64 >> 31u64) & 1u64 == 0u64
            && (61331119256u64 >> 30u64) & 1u64 == 1u64
            && (61331119256u64 >> 29u64) & 1u64 == 0u64
            && (61331119256u64 >> 28u64) & 1u64 == 0u64
            && (61331119256u64 >> 27u64) & 1u64 == 0u64
            && (61331119256u64 >> 26u64) & 1u64 == 1u64
            && (61331119256u64 >> 25u64) & 1u64 == 1u64
            && (61331119256u64 >> 24u64) & 1u64 == 1u64
            && (61331119256u64 >> 23u64) & 1u64 == 1u64
            && (61331119256u64 >> 22u64) & 1u64 == 0u64
            && (61331119256u64 >> 21u64) & 1u64 == 0u64
            && (61331119256u64 >> 20u64) & 1u64 == 1u64
            && (61331119256u64 >> 19u64) & 1u64 == 1u64
            && (61331119256u64 >> 18u64) & 1u64 == 1u64
            && (61331119256u64 >> 17u64) & 1u64 == 1u64
            && (61331119256u64 >> 16u64) & 1u64 == 0u64
            && (61331119256u64 >> 15u64) & 1u64 == 1u64
            && (61331119256u64 >> 14u64) & 1u64 == 0u64
            && (61331119256u64 >> 13u64) & 1u64 == 0u64
            && (61331119256u64 >> 12u64) & 1u64 == 1u64
            && (61331119256u64 >> 11u64) & 1u64 == 1u64
            && (61331119256u64 >> 10u64) & 1u64 == 1u64
            && (61331119256u64 >> 9u64) & 1u64 == 0u64
            && (61331119256u64 >> 8u64) & 1u64 == 0u64
            && (61331119256u64 >> 7u64) & 1u64 == 1u64
            && (61331119256u64 >> 6u64) & 1u64 == 0u64
            && (61331119256u64 >> 5u64) & 1u64 == 0u64
            && (61331119256u64 >> 4u64) & 1u64 == 1u64
            && (61331119256u64 >> 3u64) & 1u64 == 1u64
            && (61331119256u64 >> 2u64) & 1u64 == 0u64
            && (61331119256u64 >> 1u64) & 1u64 == 0u64
            && (61331119256u64 >> 0u64) & 1u64 == 0u64) by (bit_vector);
}

/// The 36 bits of codeword 4, most significant first.
proof fn lemma_code_bits_4()
    ensures
        code_bit(code_val(4), 0) == true,
        code_bit(code_val(4), 1) == true,
        code_bit(code_val(4), 2) == true,
        code_bit(code_val(4), 3) == false,
        code_bit(code_val(4), 4) == true,
        code_bit(code_val(4), 5) == false,
        code_bit(code_val(4), 6) == true,
        code_bit(code_val(4), 7) == true,
        code_bit(code_val(4), 8) == true,
        code_bit(code_val(4), 9) == true,
        code_bit(code_val(4), 10) == false,
        code_bit(code_val(4), 11) == false,
        code_bit(code_val(4), 12) == true,
        code_bit(code_val(4), 13) == false,
        code_bit(code_val(4), 14) == true,
        code_bit(code_val(4), 15) == true,
        code_bit(code_val(4), 16) == true,
        code_bit(code_val(4), 17) == true,
        code_bit(code_val(4), 18) == false,
        code_bit(code_val(4), 19) == false,
        code_bit(code_val(4), 20) == true,
        code_bit(code_val(4), 21) == false,
        code_bit(code_val(4), 22) == true,
        code_bit(code_val(4), 23) == false,
        code_bit(code_val(4), 24) == true,
        code_bit(code_val(4), 25) == false,
        code_bit(code_val(4), 26) == false,
        code_bit(code_val(4), 27) == false,
        code_bit(code_val(4), 28) == false,
        code_bit(code_val(4), 29) == false,
        code_bit(code_val(4), 30) == true,
        code_bit(code_val(4), 31) == false,
        code_bit(code_val(4), 32) == false,
        code_bit(code_val(4), 33) == false,
        code_bit(code_val(4), 34) == true,
        code_bit(code_val(4), 35) == false,
{
    assert(code_val(4) == 63296022562u64);
    assert((63296022562u64 >> 35u64) & 1u64 == 1u64
            && (63296022562u64 >> 34u64) & 1u64 == 1u64
            && (63296022562u64 >> 33u64) & 1u64 == 1u64
            && (63296022562u64 >> 32u64) & 1u64 == 0u64
            && (63296022562u64 >> 31u64) & 1u64 == 1u64
            && (63296022562u64 >> 30u64) & 1u64 == 0u64
            && (63296022562u64 >> 29u64) & 1u64 == 1u64
            && (63296022562u64 >> 28u64) & 1u64 == 1u64
            && (63296022562u64 >> 27u64) & 1u64 == 1u64
            && (63296022562u64 >> 26u64) & 1u64 == 1u64
            && (63296022562u64 >> 25u64) & 1u64 == 0u64
            && (63296022562u64 >> 24u64) & 1u64 == 0u64
            && (63296022562u64 >> 23u64) & 1u64 == 1u64
            && (63296022562u64 >> 22u64) & 1u64 == 0u64
            && (63296022562u64 >> 21u64) & 1u64 == 1u64
            && (63296022562u64 >> 20u64) & 1u64 == 1u64
            && (63296022562u64 >> 19u64) & 1u64 == 1u64
            && (63296022562u64 >> 18u64) & 1u64 == 1u64
            && (63296022562u64 >> 17u64) & 1u64 == 0u64
            && (63296022562u64 >> 16u64) & 1u64 == 0u64
            && (63296022562u64 >> 15u64) & 1u64 == 1u64
            && (63296022562u64 >> 14u64) & 1u64 == 0u64
            && (63296022562u64 >> 13u64) & 1u64 == 1u64
            && (63296022562u64 >> 12u64) & 1u64 == 0u64
            && (63296022562u64 >> 11u64) & 1u64 == 1u64
            && (63296022562u64 >> 10u64) & 1u64 == 0u64
            && (63296022562u64 >> 9u64) & 1u64 == 0u64
            && (63296022562u64 >> 8u64) & 1u64 == 0u64
            && (63296022562u64 >> 7u64) & 1u64 == 0u64
            && (63296022562u64 >> 6u64) & 1u64 == 0u64
            && (63296022562u64 >> 5u64) & 1u64 == 1u64
            && (63296022562u64 >> 4u64) & 1u64 == 0u64
            && (63296022562u64 >> 3u64) & 1u64 == 0u64
            && (63296022562u64 >> 2u64) & 1u64 == 0u64
            && (63296022562u64 >> 1u64) & 1u64 == 1u64
            && (63296022562u64 >> 0u64) & 1u64 == 0u64) by (bit_vector);
}

/// The 36 bits of codeword 5, most significant first.
proof fn lemma_code_bits_5()
    ensures
        code_bit(code_val(5), 0) == true,
        code_bit(code_val(5), 1) == true,
        code_bit(code_val(5), 2) == true,
        code_bit(code_val(5), 3) == true,
        code_bit(code_val(5), 4) == false,
        code_bit(code_val(5), 5) == false,
        code_bit(code_val(5), 6) == true,
        code_bit(code_val(5), 7) == true,
        code_bit(code_val(5), 8) == false,
        code_bit(code_val(5), 9) == false,
        code_bit(code_val(5), 10) == false,
        code_bit(code_val(5), 11) == true,
        code_bit(code_val(5), 12) == true,
        code_bit(code_val(5), 13) == true,
        code_bit(code_val(5), 14) == false,
        code_bit(code_val(5), 15) == true,
        code_bit(code_val(5), 16) == true,
        code_bit(code_val(5), 17) == false,
        code_bit(code_val(5), 18) == true,
        code_bit(code_val(5), 19) == false,
        code_bit(code_val(5), 20) == true,
        code_bit(code_val(5), 21) == false,
        code_bit(code_val(5), 22) == true,
        code_bit(code_val(5), 23) == true,
        code_bit(code_val(5), 24) == false,
        code_bit(code_val(5), 25) == false,
        code_bit(code_val(5), 26) == true,
        code_bit(code_val(5), 27) == true,
        code_bit(code_val(5), 28) == true,
        code_bit(code_val(5), 29) == false,
        code_bit(code_val(5), 30) == true,
        code_bit(code_val(5), 31) == false,
        code_bit(code_val(5), 32) == true,
        code_bit(code_val(5), 33) == true,
        code_bit(code_val(5), 34) == false,
        code_bit(code_val(5), 35) == false,
{
    assert(code_val(5) == 65260925868u64);
    assert((65260925868u64 >> 35u64) & 1u64 == 1u64
            && (65260925868u64 >> 34u64) & 1u64 == 1u64
            && (65260925868u64 >> 33u64) & 1u64 == 1u64
            && (65260925868u64 >> 32u64) & 1u64 == 1u64
            && (65260925868u64 >> 31u64) & 1u64 == 0u64
            && (65260925868u64 >> 30u64) & 1u64 == 0u64
            && (65260925868u64 >> 29u64) & 1u64 == 1u64
            && (65260925868u64 >> 28u64) & 1u64 == 1u64
            && (65260925868u64 >> 27u64) & 1u64 == 0u64
            && (65260925868u64 >> 26u64) & 1u64 == 0u64
            && (65260925868u64 >> 25u64) & 1u64 == 0u64
            && (65260925868u64 >> 24u64) & 1u64 == 1u64
            && (65260925868u64 >> 23u64) & 1u64 == 1u64
            && (65260925868u64 >> 22u64) & 1u64 == 1u64
            && (65260925868u64 >> 21u64) & 1u64 == 0u64
            && (65260925868u64 >> 20u64) & 1u64 == 1u64
            && (65260925868u64 >> 19u64) & 1u64 == 1u64
            && (65260925868u64 >> 18u64) & 1u64 == 0u64
            && (65260925868u64 >> 17u64) & 1u64 == 1u64
            && (65260925868u64 >> 16u64) & 1u64 == 0u64
            && (65260925868u64 >> 15u64) & 1u64 == 1u64
            && (65260925868u64 >> 14u64) & 1u64 == 0u64
            && (65260925868u64 >> 13u64) & 1u64 == 1u64
            && (65260925868u64 >> 12u64) & 1u64 == 1u64
            && (65260925868u64 >> 11u64) & 1u64 == 0u64
            && (65260925868u64 >> 10u64) & 1u64 == 0u64
            && (65260925868u64 >> 9u64) & 1u64 == 1u64
            && (65260925868u64 >> 8u64) & 1u64 == 1u64
            && (65260925868u64 >> 7u64) & 1u64 == 1u64
            && (65260925868u64 >> 6u64) & 1u64 == 0u64
            && (65260925868u64 >> 5u64) & 1u64 == 1u64
            && (65260925868u64 >> 4u64) & 1u64 == 0u64
            && (65260925868u64 >> 3u64) & 1u64 == 1u64
            && (65260925868u64 >> 2u64) & 1u64 == 1u64
            && (65260925868u64 >> 1u64) & 1u64 == 0u64
            && (65260925868u64 >> 0u64) & 1u64 == 0u64) by (bit_vector);
}

/// The 36 bits of codeword 6, most significant first.
proof fn lemma_code_bits_6()
    ensures
        code_bit(code_val(6), 0) == false,
        code_bit(code_val(6), 1) == false,
        code_bit(code_val(6), 2) == false,
        code_bit(code_val(6), 3) == false,
        code_bit(code_val(6), 4) == false,
        code_bit(code_val(6), 5) == true,
        code_bit(code_val(6), 6) == false,
        code_bit(code_val(6), 7) == true,
        code_bit(code_val(6), 8) == false,
        code_bit(code_val(6), 9) == true,
        code_bit(code_val(6), 10) == true,
        code_bit(code_val(6), 11) == false,
        code_bit(code_val(6), 12) == true,
        code_bit(code_val(6), 13) == false,
        code_bit(code_val(6), 14) == true,
        code_bit(code_val(6), 15) == false,
        code_bit(code_val(6), 16) == false,
        code_bit(code_val(6), 17) == true,
        code_bit(code_val(6), 18) == false,
        code_bit(code_val(6), 19) == true,
        code_bit(code_val(6), 20) == true,
        code_bit(code_val(6), 21) == true,
        code_bit(code_val(6), 22) == false,
        code_bit(code_val(6), 23) == true,
        code_bit(code_val(6), 24) == false,
        code_bit(code_val(6), 25) == false,
        code_bit(code_val(6), 26) == false,
        code_bit(code_val(6), 27) == false,
        code_bit(code_val(6), 28) == true,
        code_bit(code_val(6), 29) == false,
        code_bit(code_val(6), 30) == false,
        code_bit(code_val(6), 31) == false,
        code_bit(code_val(6), 32) == false,
        code_bit(code_val(6), 33) == true,
        code_bit(code_val(6), 34) == false,
        code_bit(code_val(6), 35) == true,
{
    assert(code_val(6) == 1453707397u64);
    assert((1453707397u64 >> 35u64) & 1u64 == 0u64
            && (1453707397u64 >> 34u64) & 1u64 == 0u64
            && (1453707397u64 >> 33u64) & 1u64 == 0u64
            && (1453707397u64 >> 32u64) & 1u64 == 0u64
            && (1453707397u64 >> 31u64) & 1u64 == 0u64
            && (1453707397u64 >> 30u64) & 1u64 == 1u64
            && (1453707397u64 >> 29u64) & 1u64 == 0u64
            && (1453707397u64 >> 28u64) & 1u64 == 1u64
            && (1453707397u64 >> 27u64) & 1u64 == 0u64
            && (1453707397u64 >> 26u64) & 1u64 == 1u64
            && (1453707397u64 >> 25u64) & 1u64 == 1u64
            && (1453707397u64 >> 24u64) & 1u64 == 0u64
            && (1453707397u64 >> 23u64) & 1u64 == 1u64
            && (1453707397u64 >> 22u64) & 1u64 == 0u64
            && (1453707397u64 >> 21u64) & 1u64 == 1u64
            && (1453707397u64 >> 20u64) & 1u64 == 0u64
            && (1453707397u64 >> 19u64) & 1u64 == 0u64
            && (1453707397u64 >> 18u64) & 1u64 == 1u64
            && (1453707397u64 >> 17u64) & 1u64 == 0u64
            && (1453707397u64 >> 16u64) & 1u64 == 1u64
            && (1453707397u64 >> 15u64) & 1u64 == 1u64
            && (1453707397u64 >> 14u64) & 1u64 == 1u64
            && (1453707397u64 >> 13u64) & 1u64 == 0u64
            && (1453707397u64 >> 12u64) & 1u64 == 1u64
            && (1453707397u64 >> 11u64) & 1u64 == 0u64
            && (1453707397u64 >> 10u64) & 1u64 == 0u64
            && (1453707397u64 >> 9u64) & 1u64 == 0u64
            && (1453707397u64 >> 8u64) & 1u64 == 0u64
            && (1453707397u64 >> 7u64) & 1u64 == 1u64
            && (1453707397u64 >> 6u64) & 1u64 == 0u64
            && (1453707397u64 >> 5u64) & 1u64 == 0u64
            && (1453707397u64 >> 4u64) & 1u64 == 0u64
            && (1453707397u64 >> 3u64) & 1u64 == 0u64
            && (1453707397u64 >> 2u64) & 1u64 == 1u64
            && (1453707397u64 >> 1u64) & 1u64 == 0u64
            && (1453707397u64 >> 0u64) & 1u64 == 1u64) by (bit_vector);
}

/// The 36 bits of codeword 7, most significant first.
proof fn lemma_code_bits_7()
    ensures
        code_bit(code_val(7), 0) == false,
        code_bit(code_val(7), 1) == false,
        code_bit(code_val(7), 2) == false,
        code_bit(code_val(7), 3) == true,
        code_bit(code_val(7), 4) == false,
        code_bit(code_val(7), 5) == false,
        code_bit(code_val(7), 6) == false,
        code_bit(code_val(7), 7) == false,
        code_bit(code_val(7), 8) == false,
        code_bit(code_val(7), 9) == true,
        code_bit(code_val(7), 10) == true,
        code_bit(code_val(7), 11) == false,
        code_bit(code_val(7), 12) == false,
        code_bit(code_val(7), 13) == true,
        code_bit(code_val(7), 14) == false,
        code_bit(code_val(7), 15) == true,
        code_bit(code_val(7), 16) == false,
        code_bit(code_val(7), 17) == false,
        code_bit(code_val(7), 18) == true,
        code_bit(code_val(7), 19) == false,
        code_bit(code_val(7), 20) == true,
        code_bit(code_val(7), 21) == true,
        code_bit(code_val(7), 22) == true,
        code_bit(code_val(7), 23) == false,
        code_bit(code_val(7), 24) == false,
        code_bit(code_val(7), 25) == false,
        code_bit(code_val(7), 26) == false,
        code_bit(code_val(7), 27) == true,
        code_bit(code_val(7), 28) == true,
        code_bit(code_val(7), 29) == true,
        code_bit(code_val(7), 30) == false,
        code_bit(code_val(7), 31) == true,
        code_bit(code_val(7), 32) == false,
        code_bit(code_val(7), 33) == true,
        code_bit(code_val(7), 34) == false,
        code_bit(code_val(7), 35) == false,
{
    assert(code_val(7) == 4401062356u64);
    assert((4401062356u64 >> 35u64) & 1u64 == 0u64
            && (4401062356u64 >> 34u64) & 1u64 == 0u64
            && (4401062356u64 >> 33u64) & 1u64 == 0u64
            && (4401062356u64 >> 32u64) & 1u64 == 1u64
            && (4401062356u64 >> 31u64) & 1u64 == 0u64
            && (4401062356u64 >> 30u64) & 1u64 == 0u64
            && (4401062356u64 >> 29u64) & 1u64 == 0u64
            && (4401062356u64 >> 28u64) & 1u64 == 0u64
            && (4401062356u64 >> 27u64) & 1u64 == 0u64
            && (4401062356u64 >> 26u64) & 1u64 == 1u64
            && (4401062356u64 >> 25u64) & 1u64 == 1u64
            && (4401062356u64 >> 24u64) & 1u64 == 0u64
            && (4401062356u64 >> 23u64) & 1u64 == 0u64
            && (4401062356u64 >> 22u64) & 1u64 == 1u64
            && (4401062356u64 >> 21u64) & 1u64 == 0u64
            && (4401062356u64 >> 20u64) & 1u64 == 1u64
            && (4401062356u64 >> 19u64) & 1u64 == 0u64
            && (4401062356u64 >> 18u64) & 1u64 == 0u64
            && (4401062356u64 >> 17u64) & 1u64 == 1u64
            && (4401062356u64 >> 16u64) & 1u64 == 0u64
            && (4401062356u64 >> 15u64) & 1u64 == 1u64
            && (4401062356u64 >> 14u64) & 1u64 == 1u64
            && (4401062356u64 >> 13u64) & 1u64 == 1u64
            && (4401062356u64 >> 12u64) & 1u64 == 0u64
            && (4401062356u64 >> 11u64) & 1u64 == 0u64
            && (4401062356u64 >> 10u64) & 1u64 == 0u64
            && (4401062356u64 >> 9u64) & 1u64 == 0u64
            && (4401062356u64 >> 8u64) & 1u64 == 1u64
            && (4401062356u64 >> 7u64) & 1u64 == 1u64
            && (4401062356u64 >> 6u64) & 1u64 == 1u64
            && (4401062356u64 >> 5u64) & 1u64 == 0u64
            && (4401062356u64 >> 4u64) & 1u64 == 1u64
            && (4401062356u64 >> 3u64) & 1u64 == 0u64
            && (4401062356u64 >> 2u64) & 1u64 == 1u64
            && (4401062356u64 >> 1u64) & 1u64 == 0u64
            && (4401062356u64 >> 0u64) & 1u64 == 0u64) by (bit_vector);
}

/// The 36 bits of codeword 8, most significant first.
proof fn lemma_code_bits_8()
    ensures
        code_bit(code_val(8), 0) == false,
        code_bit(code_val(8), 1) == false,
        code_bit(code_val(8), 2) == true,
        code_bit(code_val(8), 3) == false,
        code_bit(code_val(8), 4) == false,
        code_bit(code_val(8), 5) == false,
        code_bit(code_val(8), 6) == true,
        code_bit(code_val(8), 7) == false,
        code_bit(code_val(8), 8) == true,
        code_bit(code_val(8), 9) == false,
        code_bit(code_val(8), 10) == true,
        code_bit(code_val(8), 11) == true,
        code_bit(code_val(8), 12) == false,
        code_bit(code_val(8), 13) == false,
        code_bit(code_val(8), 14) == false,
        code_bit(code_val(8), 15) == true,
        code_bit(code_val(8), 16) == true,
        code_bit(code_val(8), 17) == true,
        code_bit(code_val(8), 18) == false,
        code_bit(code_val(8), 19) == true,
        code_bit(code_val(8), 20) == true,
        code_bit(code_val(8), 21) == true,
        code_bit(code_val(8), 22) == true,
        code_bit(code_val(8), 23) == true,
        code_bit(code_val(8), 24) == true,
        code_bit(code_val(8), 25) == true,
        code_bit(code_val(8), 26) == true,
        code_bit(code_val(8), 27) == false,
        code_bit(code_val(8), 28) == true,
        code_bit(code_val(8), 29) == false,
        code_bit(code_val(8), 30) == true,
        code_bit(code_val(8), 31) == false,
        code_bit(code_val(8), 32) == true,
        code_bit(code_val(8), 33) == true,
        code_bit(code_val(8), 34) == false,
        code_bit(code_val(8), 35) == true,
{
    assert(code_val(8) == 9313320621u64);
    assert((9313320621u64 >> 35u64) & 1u64 == 0u64
            && (9313320621u64 >> 34u64) & 1u64 == 0u64
            && (9313320621u64 >> 33u64) & 1u64 == 1u64
            && (9313320621u64 >> 32u64) & 1u64 == 0u64
            && (9313320621u64 >> 31u64) & 1u64 == 0u64
            && (9313320621u64 >> 30u64) & 1u64 == 0u64
            && (9313320621u64 >> 29u64) & 1u64 == 1u64
            && (9313320621u64 >> 28u64) & 1u64 == 0u64
            && (9313320621u64 >> 27u64) & 1u64 == 1u64
            && (9313320621u64 >> 26u64) & 1u64 == 0u64
            && (9313320621u64 >> 25u64) & 1u64 == 1u64
            && (9313320621u64 >> 24u64) & 1u64 == 1u64
            && (9313320621u64 >> 23u64) & 1u64 == 0u64
            && (9313320621u64 >> 22u64) & 1u64 == 0u64
            && (9313320621u64 >> 21u64) & 1u64 == 0u64
            && (9313320621u64 >> 20u64) & 1u64 == 1u64
            && (9313320621u64 >> 19u64) & 1u64 == 1u64
            && (9313320621u64 >> 18u64) & 1u64 == 1u64
            && (9313320621u64 >> 17u64) & 1u64 == 0u64
            && (9313320621u64 >> 16u64) & 1u64 == 1u64
            && (9313320621u64 >> 15u64) & 1u64 == 1u64
            && (9313320621u64 >> 14u64) & 1u64 == 1u64
            && (9313320621u64 >> 13u64) & 1u64 == 1u64
            && (9313320621u64 >> 12u64) & 1u64 == 1u64
            && (9313320621u64 >> 11u64) & 1u64 == 1u64
            && (9313320621u64 >> 10u64) & 1u64 == 1u64
            && (9313320621u64 >> 9u64) & 1u64 == 1u64
            && (9313320621u64 >> 8u64) & 1u64 == 0u64
            && (9313320621u64 >> 7u64) & 1u64 == 1u64
            && (9313320621u64 >> 6u64) & 1u64 == 0u64
            && (9313320621u64 >> 5u64) & 1u64 == 1u64
            && (9313320621u64 >> 4u64) & 1u64 == 0u64
            && (9313320621u64 >> 3u64) & 1u64 == 1u64
            && (9313320621u64 >> 2u64) & 1u64 == 1u64
            && (9313320621u64 >> 1u64) & 1u64 == 0u64
            && (9313320621u64 >> 0u64) & 1u64 == 1u64) by (bit_vector);
}

/// The 36 bits of codeword 9, most significant first.
proof fn lemma_code_bits_9()
    ensures
        code_bit(code_val(9), 0) == false,
        code_bit(code_val(9), 1) == false,
        code_bit(code_val(9), 2) == true,
        code_bit(code_val(9), 3) == false,
        code_bit(code_val(9), 4) == false,
        code_bit(code_val(9), 5) == true,
        code_bit(code_val(9), 6) == true,
        code_bit(code_val(9), 7) == false,
        code_bit(code_val(9), 8) == false,
        code_bit(code_val(9), 9) == true,
        code_bit(code_val(9), 10) == false,
        code_bit(code_val(9), 11) == true,
        code_bit(code_val(9), 12) == true,
        code_bit(code_val(9), 13) == false,
        code_bit(code_val(9), 14) == true,
        code_bit(code_val(9), 15) == false,
        code_bit(code_val(9), 16) == true,
        code_bit(code_val(9), 17) == true,
        code_bit(code_val(9), 18) == false,
        code_bit(code_val(9), 19) == true,
        code_bit(code_val(9), 20) == false,
        code_bit(code_val(9), 21) == false,
        code_bit(code_val(9), 22) == false,
        code_bit(code_val(9), 23) == false,
        code_bit(code_val(9), 24) == false,
        code_bit(code_val(9), 25) == true,
        code_bit(code_val(9), 26) == false,
        code_bit(code_val(9), 27) == false,
        code_bit(code_val(9), 28) == false,
        code_bit(code_val(9), 29) == true,
        code_bit(code_val(9), 30) == true,
        code_bit(code_val(9), 31) == true,
        code_bit(code_val(9), 32) == false,
        code_bit(code_val(9), 33) == false,
        code_bit(code_val(9), 34) == true,
        code_bit(code_val(9), 35) == false,
{
    assert(code_val(9) == 10295772274u64);
    assert((10295772274u64 >> 35u64) & 1u64 == 0u64
            && (10295772274u64 >> 34u64) & 1u64 == 0u64
            && (10295772274u64 >> 33u64) & 1u64 == 1u64
            && (10295772274u64 >> 32u64) & 1u64 == 0u64
            && (10295772274u64 >> 31u64) & 1u64 == 0u64
            && (10295772274u64 >> 30u64) & 1u64 == 1u64
            && (10295772274u64 >> 29u64) & 1u64 == 1u64
            && (10295772274u64 >> 28u64) & 1u64 == 0u64
            && (10295772274u64 >> 27u64) & 1u64 == 0u64
            && (10295772274u64 >> 26u64) & 1u64 == 1u64
            && (10295772274u64 >> 25u64) & 1u64 == 0u64
            && (10295772274u64 >> 24u64) & 1u64 == 1u64
            && (10295772274u64 >> 23u64) & 1u64 == 1u64
            && (10295772274u64 >> 22u64) & 1u64 == 0u64
            && (10295772274u64 >> 21u64) & 1u64 == 1u64
            && (10295772274u64 >> 20u64) & 1u64 == 0u64
            && (10295772274u64 >> 19u64) & 1u64 == 1u64
            && (10295772274u64 >> 18u64) & 1u64 == 1u64
            && (10295772274u64 >> 17u64) & 1u64 == 0u64
            && (10295772274u64 >> 16u64) & 1u64 == 1u64
            && (10295772274u64 >> 15u64) & 1u64 == 0u64
            && (10295772274u64 >> 14u64) & 1u64 == 0u64
            && (10295772274u64 >> 13u64) & 1u64 == 0u64
            && (10295772274u64 >> 12u64) & 1u64 == 0u64
            && (10295772274u64 >> 11u64) & 1u64 == 0u64
            && (10295772274u64 >> 10u64) & 1u64 == 1u64
            && (10295772274u64 >> 9u64) & 1u64 == 0u64
            && (10295772274u64 >> 8u64) & 1u64 == 0u64
            && (10295772274u64 >> 7u64) & 1u64 == 0u64
            && (10295772274u64 >> 6u64) & 1u64 == 1u64
            && (10295772274u64 >> 5u64) & 1u64 == 1u64
            && (10295772274u64 >> 4u64) & 1u64 == 1u64
            && (10295772274u64 >> 3u64) & 1u64 == 0u64
            && (10295772274u64 >> 2u64) & 1u64 == 0u64
            && (10295772274u64 >> 1u64) & 1u64 == 1u64
            && (10295772274u64 >> 0u64) & 1u64 == 0u64) by (bit_vector);
}

/// The 36 bits of codeword 10, most significant first.
proof fn lemma_code_bits_10()
    ensures
        code_bit(code_val(10), 0) == false,
        code_bit(code_val(10), 1) == false,
        code_bit(code_val(10), 2) == true,
        code_bit(code_val(10), 3) == true,
        code_bit(code_val(10), 4) == false,
        code_bit(code_val(10), 5) == true,
        code_bit(code_val(10), 6) == false,
        code_bit(code_val(10), 7) == false,
        code_bit(code_val(10), 8) == true,
        code_bit(code_val(10), 9) == true,
        code_bit(code_val(10), 10) == true,
        code_bit(code_val(10), 11) == true,
        code_bit(code_val(10), 12) == true,
        code_bit(code_val(10), 13) == true,
        code_bit(code_val(10), 14) == true,
        code_bit(code_val(10), 15) == false,
        code_bit(code_val(10), 16) == true,
        code_bit(code_val(10), 17) == false,
        code_bit(code_val(10), 18) == false,
        code_bit(code_val(10), 19) == true,
        code_bit(code_val(10), 20) == false,
        code_bit(code_val(10), 21) == false,
        code_bit(code_val(10), 22) == false,
        code_bit(code_val(10), 23) == true,
        code_bit(code_val(10), 24) == true,
        code_bit(code_val(10), 25) == false,
        code_bit(code_val(10), 26) == true,
        code_bit(code_val(10), 27) == true,
        code_bit(code_val(10), 28) == true,
        code_bit(code_val(10), 29) == false,
        code_bit(code_val(10), 30) == false,
        code_bit(code_val(10), 31) == false,
        code_bit(code_val(10), 32) == false,
        code_bit(code_val(10), 33) == true,
        code_bit(code_val(10), 34) == true,
        code_bit(code_val(10), 35) == false,
{
    assert(code_val(10) == 14225578886u64);
    assert((14225578886u64 >> 35u64) & 1u64 == 0u64
            && (14225578886u64 >> 34u64) & 1u64 == 0u64
            && (14225578886u64 >> 33u64) & 1u64 == 1u64
            && (14225578886u64 >> 32u64) & 1u64 == 1u64
            && (14225578886u64 >> 31u64) & 1u64 == 0u64
            && (14225578886u64 >> 30u64) & 1u64 == 1u64
            && (14225578886u64 >> 29u64) & 1u64 == 0u64
            && (14225578886u64 >> 28u64) & 1u64 == 0u64
            && (14225578886u64 >> 27u64) & 1u64 == 1u64
            && (14225578886u64 >> 26u64) & 1u64 == 1u64
            && (14225578886u64 >> 25u64) & 1u64 == 1u64
            && (14225578886u64 >> 24u64) & 1u64 == 1u64
            && (14225578886u64 >> 23u64) & 1u64 == 1u64
            && (14225578886u64 >> 22u64) & 1u64 == 1u64
            && (14225578886u64 >> 21u64) & 1u64 == 1u64
            && (14225578886u64 >> 20u64) & 1u64 == 0u64
            && (14225578886u64 >> 19u64) & 1u64 == 1u64
            && (14225578886u64 >> 18u64) & 1u64 == 0u64
            && (14225578886u64 >> 17u64) & 1u64 == 0u64
            && (14225578886u64 >> 16u64) & 1u64 == 1u64
            && (14225578886u64 >> 15u64) & 1u64 == 0u64
            && (14225578886u64 >> 14u64) & 1u64 == 0u64
            && (14225578886u64 >> 13u64) & 1u64 == 0u64
            && (14225578886u64 >> 12u64) & 1u64 == 1u64
            && (14225578886u64 >> 11u64) & 1u64 == 1u64
            && (14225578886u64 >> 10u64) & 1u64 == 0u64
            && (14225578886u64 >> 9u64) & 1u64 == 1u64
            && (14225578886u64 >> 8u64) & 1u64 == 1u64
            && (14225578886u64 >> 7u64) & 1u64 == 1u64
            && (14225578886u64 >> 6u64) & 1u64 == 0u64
            && (14225578886u64 >> 5u64) & 1u64 == 0u64
            && (14225578886u64 >> 4u64) & 1u64 == 0u64
            && (14225578886u64 >> 3u64) & 1u64 == 0u64
            && (14225578886u64 >> 2u64) & 1u64 == 1u64
            && (14225578886u64 >> 1u64) & 1u64 == 1u64
            && (14225578886u64 >> 0u64) & 1u64 == 0u64) by (bit_vector);
}

/// No codeword equals rotation 0 of codeword 0 (other than itself
/// unrotated).
proof fn lemma_separation_0_0(j: int)
    requires
        0 <= j < 11,
        !(0 == 0 && j == 0),
    ensures
        ham(rotk(code_grid(0), 0), code_val(j)) != 0,
{
    reveal_with_fuel(rotk, 6);
    lemma_code_bits_0();
    lemma_code_bits_1();
    lemma_code_bits_2();
    lemma_code_bits_3();
    lemma_code_bits_4();
    lemma_code_bits_5();
    lemma_code_bits_6();
    lemma_code_bits_7();
    lemma_code_bits_8();
    lemma_code_bits_9();
    lemma_code_bits_10();
    if j == 1 {
        if ham(rotk(code_grid(0), 0), code_val(1)) == 0 {
            lemma_ham_upto_zero_iff(rotk(code_grid(0), 0), code_val(1), 36);
            assert(rotk(code_grid(0), 0)[4] == code_bit(code_val(1), 4));

            assert(rotk(code_grid(0), 0)[4] == code_bit(code_val(0), 4));
            assert(false);
        }
    }
    if j == 2 {
        if ham(rotk(code_grid(0), 0), code_val(2)) == 0 {
            lemma_ham_upto_zero_iff(rotk(code_grid(0), 0), code_val(2), 36);
            assert(rotk(code_grid(0), 0)[4] == code_bit(code_val(2), 4));

            assert(rotk(code_grid(0), 0)[4] == code_bit(code_val(0), 4));
            assert(false);
        }
    }
    if j == 3 {
        if ham(rotk(code_grid(0), 0), code_val(3)) == 0 {
            lemma_ham_upto_zero_iff(rotk(code_grid(0), 0), code_val(3), 36);
            assert(rotk(code_grid(0), 0)[2] == code_bit(code_val(3), 2));

            assert(rotk(code_grid(0), 0)[2] == code_bit(code_val(0), 2));
            assert(false);
        }
    }
    if j == 4 {
        if ham(rotk(code_grid(0), 0), code_val(4)) == 0 {
            lemma_ham_upto_zero_iff(rotk(code_grid(0), 0), code_val(4), 36);
            assert(rotk(code_grid(0), 0)[2] == code_bit(code_val(4), 2));

            assert(rotk(code_grid(0), 0)[2] == code_bit(code_val(0), 2));
            assert(false);
        }
    }
    if j == 5 {
        if ham(rotk(code_grid(0), 0), code_val(5)) == 0 {
            lemma_ham_upto_zero_iff(rotk(code_grid(0), 0), code_val(5), 36);
            assert(rotk(code_grid(0), 0)[2] == code_bit(code_val(5), 2));

            assert(rotk(code_grid(0), 0)[2] == code_bit(code_val(0), 2));
            assert(false);
        }
    }
    if j == 6 {
        if ham(rotk(code_grid(0), 0), code_val(6)) == 0 {
            lemma_ham_upto_zero_iff(rotk(code_grid(0), 0), code_val(6), 36);
            assert(rotk(code_grid(0), 0)[0] == code_bit(code_val(6), 0));

            assert(rotk(code_grid(0), 0)[0] == code_bit(code_val(0), 0));
            assert(false);
        }
    }
    if j == 7 {
        if ham(rotk(code_grid(0), 0), code_val(7)) == 0 {
            lemma_ham_upto_zero_iff(rotk(code_grid(0), 0), code_val(7), 36);
            assert(rotk(code_grid(0), 0)[0] == code_bit(code_val(7), 0));

            assert(rotk(code_grid(0), 0)[0] == code_bit(code_val(0), 0));
            assert(false);
        }
    }
    if j == 8 {
        if ham(rotk(code_grid(0), 0), code_val(8)) == 0 {
            lemma_ham_upto_zero_iff(rotk(code_grid(0), 0), code_val(8), 36);
            assert(rotk(code_grid(0), 0)[0] == code_bit(code_val(8), 0));

            assert(rotk(code_grid(0), 0)[0] == code_bit(code_val(0), 0));
            assert(false);
        }
    }
    if j == 9 {
        if ham(rotk(code_grid(0), 0), code_val(9)) == 0 {
            lemma_ham_upto_zero_iff(rotk(code_grid(0), 0), code_val(9), 36);
            assert(rotk(code_grid(0), 0)[0] == code_bit(code_val(9), 0));

            assert(rotk(code_grid(0), 0)[0] == code_bit(code_val(0), 0));
            assert(false);
        }
    }
    if j == 10 {
        if ham(rotk(code_grid(0), 0), code_val(10)) == 0 {
            lemma_ham_upto_zero_iff(rotk(code_grid(0), 0), code_val(10), 36);
            assert(rotk(code_grid(0), 0)[0] == code_bit(code_val(10), 0));

            assert(rotk(code_grid(0), 0)[0] == code_bit(code_val(0), 0));
            assert(false);
        }
    }
}

/// No codeword equals rotation 1 of codeword 0 (other than itself
/// unrotated).
proof fn lemma_separation_0_1(j: int)
    requires
        0 <= j < 11,
    ensures
        ham(rotk(code_grid(0), 1), code_val(j)) != 0,
{
    reveal_with_fuel(rotk, 6);
    lemma_code_bits_0();
    lemma_code_bits_1();
    lemma_code_bits_2();
    lemma_code_bits_3();
    lemma_code_bits_4();
    lemma_code_bits_5();
    lemma_code_bits_6();
    lemma_code_bits_7();
    lemma_code_bits_8();
    lemma_code_bits_9();
    lemma_code_bits_10();
    if j == 0 {
        if ham(rotk(code_grid(0), 1), code_val(0)) == 0 {
            lemma_ham_upto_zero_iff(rotk(code_grid(0), 1), code_val(0), 36);
            assert(rotk(code_grid(0), 1)[0] == code_bit(code_val(0), 0));
            assert(rotk(code_grid(0), 1)[0] == rotk(code_grid(0), 0)[30]);
            assert(rotk(code_grid(0), 0)[30] == code_bit(code_val(0), 30));
            assert(false);
        }
    }
    if j == 1 {
        if ham(rotk(code_grid(0), 1), code_val(1)) == 0 {
            lemma_ham_upto_zero_iff(rotk(code_grid(0), 1), code_val(1), 36);
            assert(rotk(code_grid(0), 1)[0] == code_bit(code_val(1), 0));
            assert(rotk(code_grid(0), 1)[0] == rotk(code_grid(0), 0)[30]);
            assert(rotk(code_grid(0), 0)[30] == code_bit(code_val(0), 30));
            assert(false);
        }
    }
    if j == 2 {
        if ham(rotk(code_grid(0), 1), code_val(2)) == 0 {
            lemma_ham_upto_zero_iff(rotk(code_grid(0), 1), code_val(2), 36);
            assert(rotk(code_grid(0), 1)[0] == code_bit(code_val(2), 0));
            assert(rotk(code_grid(0), 1)[0] == rotk(code_grid(0), 0)[30]);
            assert(rotk(code_grid(0), 0)[30] == code_bit(code_val(0), 30));
            assert(false);
        }
    }
    if j == 3 {
        if ham(rotk(code_grid(0), 1), code_val(3)) == 0 {
            lemma_ham_upto_zero_iff(rotk(code_grid(0), 1), code_val(3), 36);
            assert(rotk(code_grid(0), 1)[0] == code_bit(code_val(3), 0));
            assert(rotk(code_grid(0), 1)[0] == rotk(code_grid(0), 0)[30]);
            assert(rotk(code_grid(0), 0)[30] == code_bit(code_val(0), 30));
            assert(false);
        }
    }
    if j == 4 {
        if ham(rotk(code_grid(0), 1), code_val(4)) == 0 {
            lemma_ham_upto_zero_iff(rotk(code_grid(0), 1), code_val(4), 36);
            assert(rotk(code_grid(0), 1)[0] == code_bit(code_val(4), 0));
            assert(rotk(code_grid(0), 1)[0] == rotk(code_grid(0), 0)[30]);
            assert(rotk(code_grid(0), 0)[30] == code_bit(code_val(0), 30));
            assert(false);
        }
    }
    if j == 5 {
        if ham(rotk(code_grid(0), 1), code_val(5)) == 0 {
            lemma_ham_upto_zero_iff(rotk(code_grid(0), 1), code_val(5), 36);
            assert(rotk(code_grid(0), 1)[0] == code_bit(code_val(5), 0));
            assert(rotk(code_grid(0), 1)[0] == rotk(code_grid(0), 0)[30]);
            assert(rotk(code_grid(0), 0)[30] == code_bit(code_val(0), 30));
            assert(false);
        }
    }
    if j == 6 {
        if ham(rotk(code_grid(0), 1), code_val(6)) == 0 {
            lemma_ham_upto_zero_iff(rotk(code_grid(0), 1), code_val(6), 36);
            assert(rotk(code_grid(0), 1)[2] == code_bit(code_val(6), 2));
            assert(rotk(code_grid(0), 1)[2] == rotk(code_grid(0), 0)[18]);
            assert(rotk(code_grid(0), 0)[18] == code_bit(code_val(0), 18));
            assert(false);
        }
    }
    if j == 7 {
        if ham(rotk(code_grid(0), 1), code_val(7)) == 0 {
            lemma_ham_upto_zero_iff(rotk(code_grid(0), 1), code_val(7), 36);
            assert(rotk(code_grid(0), 1)[2] == code_bit(code_val(7), 2));
            assert(rotk(code_grid(0), 1)[2] == rotk(code_grid(0), 0)[18]);
            assert(rotk(code_grid(0), 0)[18] == code_bit(code_val(0), 18));
            assert(false);
        }
    }
    if j == 8 {
        if ham(rotk(code_grid(0), 1), code_val(8)) == 0 {
            lemma_ham_upto_zero_iff(rotk(code_grid(0), 1), code_val(8), 36);
            assert(rotk(code_grid(0), 1)[5] == code_bit(code_val(8), 5));
            assert(rotk(code_grid(0), 1)[5] == rotk(code_grid(0), 0)[0]);
            assert(rotk(code_grid(0), 0)[0] == code_bit(code_val(0), 0));
            assert(false);
        }
    }
    if j == 9 {
        if ham(rotk(code_grid(0), 1), code_val(9)) == 0 {
            lemma_ham_upto_zero_iff(rotk(code_grid(0), 1), code_val(9), 36);
            assert(rotk(code_grid(0), 1)[6] == code_bit(code_val(9), 6));
            assert(rotk(code_grid(0), 1)[6] == rotk(code_grid(0), 0)[31]);
            assert(rotk(code_grid(0), 0)[31] == code_bit(code_val(0), 31));
            assert(false);
        }
    }
    if j == 10 {
        if ham(rotk(code_grid(0), 1), code_val(10)) == 0 {
            lemma_ham_upto_zero_iff(rotk(code_grid(0), 1), code_val(10), 36);
            assert(rotk(code_grid(0), 1)[3] == code_bit(code_val(10), 3));
            assert(rotk(code_grid(0), 1)[3] == rotk(code_grid(0), 0)[12]);
            assert(rotk(code_grid(0), 0)[12] == code_bit(code_val(0), 12));
            assert(false);
        }
    }
}

/// No codeword equals rotation 2 of codeword 0 (other than itself
/// unrotated).
proof fn lemma_separation_0_2(j: int)
    requires
        0 <= j < 11,
    ensures
        ham(rotk(code_grid(0), 2), code_val(j)) != 0,
{
    reveal_with_fuel(rotk, 6);
    lemma_code_bits_0();
    lemma_code_bits_1();
    lemma_code_bits_2();
    lemma_code_bits_3();
    lemma_code_bits_4();
    lemma_code_bits_5();
    lemma_code_bits_6();
    lemma_code_bits_7();
    lemma_code_bits_8();
    lemma_code_bits_9();
    lemma_code_bits_10();
    if j == 0 {
        if ham(rotk(code_grid(0), 2), code_val(0)) == 0 {
            lemma_ham_upto_zero_iff(rotk(code_grid(0), 2), code_val(0), 36);
            assert(rotk(code_grid(0), 2)[0] == code_bit(code_val(0), 0));
            assert(rotk(code_grid(0), 2)[0] == rotk(code_grid(0), 1)[30]);
            assert(rotk(code_grid(0), 1)[30] == rotk(code_grid(0), 0)[35]);
            assert(rotk(code_grid(0), 0)[35] == code_bit(code_val(0), 35));
            assert(false);
        }
    }
    if j == 1 {
        if ham(rotk(code_grid(0), 2), code_val(1)) == 0 {
            lemma_ham_upto_zero_iff(rotk(code_grid(0), 2), code_val(1), 36);
            assert(rotk(code_grid(0), 2)[0] == code_bit(code_val(1), 0));
            assert(rotk(code_grid(0), 2)[0] == rotk(code_grid(0), 1)[30]);
            assert(rotk(code_grid(0), 1)[30] == rotk(code_grid(0), 0)[35]);
            assert(rotk(code_grid(0), 0)[35] == code_bit(code_val(0), 35));
            assert(false);
        }
    }
    if j == 2 {
        if ham(rotk(code_grid(0), 2), code_val(2)) == 0 {
            lemma_ham_upto_zero_iff(rotk(code_grid(0), 2), code_val(2), 36);
            assert(rotk(code_grid(0), 2)[0] == code_bit(code_val(2), 0));
            assert(rotk(code_grid(0), 2)[0] == rotk(code_grid(0), 1)[30]);
            assert(rotk(code_grid(0), 1)[30] == rotk(code_grid(0), 0)[35]);
            assert(rotk(code_grid(0), 0)[35] == code_bit(code_val(0), 35));
            assert(false);
        }
    }
    if j == 3 {
        if ham(rotk(code_grid(0), 2), code_val(3)) == 0 {
            lemma_ham_upto_zero_iff(rotk(code_grid(0), 2), code_val(3), 36);
            assert(rotk(code_grid(0), 2)[0] == code_bit(code_val(3), 0));
            assert(rotk(code_grid(0), 2)[0] == rotk(code_grid(0), 1)[30]);
            assert(rotk(code_grid(0), 1)[30] == rotk(code_grid(0), 0)[35]);
            assert(rotk(code_grid(0), 0)[35] == code_bit(code_val(0), 35));
            assert(false);
        }
    }
    if j == 4 {
        if ham(rotk(code_grid(0), 2), code_val(4)) == 0 {
            lemma_ham_upto_zero_iff(rotk(code_grid(0), 2), code_val(4), 36);
            assert(rotk(code_grid(0), 2)[0] == code_bit(code_val(4), 0));
            assert(rotk(code_grid(0), 2)[0] == rotk(code_grid(0), 1)[30]);
            assert(rotk(code_grid(0), 1)[30] == rotk(code_grid(0), 0)[35]);
            assert(rotk(code_grid(0), 0)[35] == code_bit(code_val(0), 35));
            assert(false);
        }
    }
    if j == 5 {
        if ham(rotk(code_grid(0), 2), code_val(5)) == 0 {
            lemma_ham_upto_zero_iff(rotk(code_grid(0), 2), code_val(5), 36);
            assert(rotk(code_grid(0), 2)[0] == code_bit(code_val(5), 0));
            assert(rotk(code_grid(0), 2)[0] == rotk(code_grid(0), 1)[30]);
            assert(rotk(code_grid(0), 1)[30] == rotk(code_grid(0), 0)[35]);
            assert(rotk(code_grid(0), 0)[35] == code_bit(code_val(0), 35));
            assert(false);
        }
    }
    if j == 6 {
        if ham(rotk(code_grid(0), 2), code_val(6)) == 0 {
            lemma_ham_upto_zero_iff(rotk(code_grid(0), 2), code_val(6), 36);
            assert(rotk(code_grid(0), 2)[2] == code_bit(code_val(6), 2));
            assert(rotk(code_grid(0), 2)[2] == rotk(code_grid(0), 1)[18]);
            assert(rotk(code_grid(0), 1)[18] == rotk(code_grid(0), 0)[33]);
            assert(rotk(code_grid(0), 0)[33] == code_bit(code_val(0), 33));
            assert(false);
        }
    }
    if j == 7 {
        if ham(rotk(code_grid(0), 2), code_val(7)) == 0 {
            lemma_ham_upto_zero_iff(rotk(code_grid(0), 2), code_val(7), 36);
            assert(rotk(code_grid(0), 2)[2] == code_bit(code_val(7), 2));
            assert(rotk(code_grid(0), 2)[2] == rotk(code_grid(0), 1)[18]);
            assert(rotk(code_grid(0), 1)[18] == rotk(code_grid(0), 0)[33]);
            assert(rotk(code_grid(0), 0)[33] == code_bit(code_val(0), 33));
            assert(false);
        }
    }
    if j == 8 {
        if ham(rotk(code_grid(0), 2), code_val(8)) == 0 {
            lemma_ham_upto_zero_iff(rotk(code_grid(0), 2), code_val(8), 36);
            assert(rotk(code_grid(0), 2)[6] == code_bit(code_val(8), 6));
            assert(rotk(code_grid(0), 2)[6] == rotk(code_grid(0), 1)[31]);
            assert(rotk(code_grid(0), 1)[31] == rotk(code_grid(0), 0)[29]);
            assert(rotk(code_grid(0), 0)[29] == code_bit(code_val(0), 29));
            assert(false);
        }
    }
    if j == 9 {
        if ham(rotk(code_grid(0), 2), code_val(9)) == 0 {
            lemma_ham_upto_zero_iff(rotk(code_grid(0), 2), code_val(9), 36);
            assert(rotk(code_grid(0), 2)[5] == code_bit(code_val(9), 5));
            assert(rotk(code_grid(0), 2)[5] == rotk(code_grid(0), 1)[0]);
            assert(rotk(code_grid(0), 1)[0] == rotk(code_grid(0), 0)[30]);
            assert(rotk(code_grid(0), 0)[30] == code_bit(code_val(0), 30));
            assert(false);
        }
    }
    if j == 10 {
        if ham(rotk(code_grid(0), 2), code_val(10)) == 0 {
            lemma_ham_upto_zero_iff(rotk(code_grid(0), 2), code_val(10), 36);
            assert(rotk(code_grid(0), 2)[3] == code_bit(code_val(10), 3));
            assert(rotk(code_grid(0), 2)[3] == rotk(code_grid(0), 1)[12]);
            assert(rotk(code_grid(0), 1)[12] == rotk(code_grid(0), 0)[32]);
            assert(rotk(code_grid(0), 0)[32] == code_bit(code_val(0), 32));
            assert(false);
        }
    }
}

/// No codeword equals rotation 3 of codeword 0 (other than itself
/// unrotated).
proof fn lemma_separation_0_3(j: int)
    requires
        0 <= j < 11,
    ensures
        ham(rotk(code_grid(0), 3), code_val(j)) != 0,
{
    reveal_with_fuel(rotk, 6);
    lemma_code_bits_0();
    lemma_code_bits_1();
    lemma_code_bits_2();
    lemma_code_bits_3();
    lemma_code_bits_4();
    lemma_code_bits_5();
    lemma_code_bits_6();
    lemma_code_bits_7();
    lemma_code_bits_8();
    lemma_code_bits_9();
    lemma_code_bits_10();
    if j == 0 {
        if ham(rotk(code_grid(0), 3), code_val(0)) == 0 {
            lemma_ham_upto_zero_iff(rotk(code_grid(0), 3), code_val(0), 36);
            assert(rotk(code_grid(0), 3)[3] == code_bit(code_val(0), 3));
            assert(rotk(code_grid(0), 3)[3] == rotk(code_grid(0), 2)[12]);
            assert(rotk(code_grid(0), 2)[12] == rotk(code_grid(0), 1)[32]);
            assert(rotk(code_grid(0), 1)[32] == rotk(code_grid(0), 0)[23]);
            assert(rotk(code_grid(0), 0)[23] == code_bit(code_val(0), 23));
            assert(false);
        }
    }
    if j == 1 {
        if ham(rotk(code_grid(0), 3), code_val(1)) == 0 {
            lemma_ham_upto_zero_iff(rotk(code_grid(0), 3), code_val(1), 36);
            assert(rotk(code_grid(0), 3)[3] == code_bit(code_val(1), 3));
            assert(rotk(code_grid(0), 3)[3] == rotk(code_grid(0), 2)[12]);
            assert(rotk(code_grid(0), 2)[12] == rotk(code_grid(0), 1)[32]);
            assert(rotk(code_grid(0), 1)[32] == rotk(code_grid(0), 0)[23]);
            assert(rotk(code_grid(0), 0)[23] == code_bit(code_val(0), 23));
            assert(false);
        }
    }
    if j == 2 {
        if ham(rotk(code_grid(0), 3), code_val(2)) == 0 {
            lemma_ham_upto_zero_iff(rotk(code_grid(0), 3), code_val(2), 36);
            assert(rotk(code_grid(0), 3)[3] == code_bit(code_val(2), 3));
            assert(rotk(code_grid(0), 3)[3] == rotk(code_grid(0), 2)[12]);
            assert(rotk(code_grid(0), 2)[12] == rotk(code_grid(0), 1)[32]);
            assert(rotk(code_grid(0), 1)[32] == rotk(code_grid(0), 0)[23]);
            assert(rotk(code_grid(0), 0)[23] == code_bit(code_val(0), 23));
            assert(false);
        }
    }
    if j == 3 {
        if ham(rotk(code_grid(0), 3), code_val(3)) == 0 {
            lemma_ham_upto_zero_iff(rotk(code_grid(0), 3), code_val(3), 36);
            assert(rotk(code_grid(0), 3)[2] == code_bit(code_val(3), 2));
            assert(rotk(code_grid(0), 3)[2] == rotk(code_grid(0), 2)[18]);
            assert(rotk(code_grid(0), 2)[18] == rotk(code_grid(0), 1)[33]);
            assert(rotk(code_grid(0), 1)[33] == rotk(code_grid(0), 0)[17]);
            assert(rotk(code_grid(0), 0)[17] == code_bit(code_val(0), 17));
            assert(false);
        }
    }
    if j == 4 {
        if ham(rotk(code_grid(0), 3), code_val(4)) == 0 {
            lemma_ham_upto_zero_iff(rotk(code_grid(0), 3), code_val(4), 36);
            assert(rotk(code_grid(0), 3)[2] == code_bit(code_val(4), 2));
            assert(rotk(code_grid(0), 3)[2] == rotk(code_grid(0), 2)[18]);
            assert(rotk(code_grid(0), 2)[18] == rotk(code_grid(0), 1)[33]);
            assert(rotk(code_grid(0), 1)[33] == rotk(code_grid(0), 0)[17]);
            assert(rotk(code_grid(0), 0)[17] == code_bit(code_val(0), 17));
            assert(false);
        }
    }
    if j == 5 {
        if ham(rotk(code_grid(0), 3), code_val(5)) == 0 {
            lemma_ham_upto_zero_iff(rotk(code_grid(0), 3), code_val(5), 36);
            assert(rotk(code_grid(0), 3)[2] == code_bit(code_val(5), 2));
            assert(rotk(code_grid(0), 3)[2] == rotk(code_grid(0), 2)[18]);
            assert(rotk(code_grid(0), 2)[18] == rotk(code_grid(0), 1)[33]);
            assert(rotk(code_grid(0), 1)[33] == rotk(code_grid(0), 0)[17]);
            assert(rotk(code_grid(0), 0)[17] == code_bit(code_val(0), 17));
            assert(false);
        }
    }
    if j == 6 {
        if ham(rotk(code_grid(0), 3), code_val(6)) == 0 {
            lemma_ham_upto_zero_iff(rotk(code_grid(0), 3), code_val(6), 36);
            assert(rotk(code_grid(0), 3)[0] == code_bit(code_val(6), 0));
            assert(rotk(code_grid(0), 3)[0] == rotk(code_grid(0), 2)[30]);
            assert(rotk(code_grid(0), 2)[30] == rotk(code_grid(0), 1)[35]);
            assert(rotk(code_grid(0), 1)[35] == rotk(code_grid(0), 0)[5]);
            assert(rotk(code_grid(0), 0)[5] == code_bit(code_val(0), 5));
            assert(false);
        }
    }
    if j == 7 {
        if ham(rotk(code_grid(0), 3), code_val(7)) == 0 {
            lemma_ham_upto_zero_iff(rotk(code_grid(0), 3), code_val(7), 36);
            assert(rotk(code_grid(0), 3)[0] == code_bit(code_val(7), 0));
            assert(rotk(code_grid(0), 3)[0] == rotk(code_grid(0), 2)[30]);
            assert(rotk(code_grid(0), 2)[30] == rotk(code_grid(0), 1)[35]);
            assert(rotk(code_grid(0), 1)[35] == rotk(code_grid(0), 0)[5]);
            assert(rotk(code_grid(0), 0)[5] == code_bit(code_val(0), 5));
            assert(false);
        }
    }
    if j == 8 {
        if ham(rotk(code_grid(0), 3), code_val(8)) == 0 {
            lemma_ham_upto_zero_iff(rotk(code_grid(0), 3), code_val(8), 36);
            assert(rotk(code_grid(0), 3)[0] == code_bit(code_val(8), 0));
            assert(rotk(code_grid(0), 3)[0] == rotk(code_grid(0), 2)[30]);
            assert(rotk(code_grid(0), 2)[30] == rotk(code_grid(0), 1)[35]);
            assert(rotk(code_grid(0), 1)[35] == rotk(code_grid(0), 0)[5]);
            assert(rotk(code_grid(0), 0)[5] == code_bit(code_val(0), 5));
            assert(false);
        }
    }
    if j == 9 {
        if ham(rotk(code_grid(0), 3), code_val(9)) == 0 {
            lemma_ham_upto_zero_iff(rotk(code_grid(0), 3), code_val(9), 36);
            assert(rotk(code_grid(0), 3)[0] == code_bit(code_val(9), 0));
            assert(rotk(code_grid(0), 3)[0] == rotk(code_grid(0), 2)[30]);
            assert(rotk(code_grid(0), 2)[30] == rotk(code_grid(0), 1)[35]);
            assert(rotk(code_grid(0), 1)[35] == rotk(code_grid(0), 0)[5]);
            assert(rotk(code_grid(0), 0)[5] == code_bit(code_val(0), 5));
            assert(false);
        }
    }
    if j == 10 {
        if ham(rotk(code_grid(0), 3), code_val(10)) == 0 {
            lemma_ham_upto_zero_iff(rotk(code_grid(0), 3), code_val(10), 36);
            assert(rotk(code_grid(0), 3)[0] == code_bit(code_val(10), 0));
            assert(rotk(code_grid(0), 3)[0] == rotk(code_grid(0), 2)[30]);
            assert(rotk(code_grid(0), 2)[30] == rotk(code_grid(0), 1)[35]);
            assert(rotk(code_grid(0), 1)[35] == rotk(code_grid(0), 0)[5]);
            assert(rotk(code_grid(0), 0)[5] == code_bit(code_val(0), 5));
            assert(false);
        }
    }
}

/// No codeword equals rotation 0 of codeword 1 (other than itself
/// unrotated).
proof fn lemma_separation_1_0(j: int)
    requires
        0 <= j < 11,
        !(0 == 0 && j == 1),
    ensures
        ham(rotk(code_grid(1), 0), code_val(j)) != 0,
{
    reveal_with_fuel(rotk, 6);
    lemma_code_bits_0();
    lemma_code_bits_1();
    lemma_code_bits_2();
    lemma_code_bits_3();
    lemma_code_bits_4();
    lemma_code_bits_5();
    lemma_code_bits_6();
    lemma_code_bits_7();
    lemma_code_bits_8();
    lemma_code_bits_9();
    lemma_code_bits_10();
    if j == 0 {
        if ham(rotk(code_grid(1), 0), code_val(0)) == 0 {
            lemma_ham_upto_zero_iff(rotk(code_grid(1), 0), code_val(0), 36);
            assert(rotk(code_grid(1), 0)[4] == code_bit(code_val(0), 4));

            assert(rotk(code_grid(1), 0)[4] == code_bit(code_val(1), 4));
            assert(false);
        }
    }
    if j == 2 {
        if ham(rotk(code_grid(1), 0), code_val(2)) == 0 {
            lemma_ham_upto_zero_iff(rotk(code_grid(1), 0), code_val(2), 36);
            assert(rotk(code_grid(1), 0)[5] == code_bit(code_val(2), 5));

            assert(rotk(code_grid(1), 0)[5] == code_bit(code_val(1), 5));
            assert(false);
        }
    }
    if j == 3 {
        if ham(rotk(code_grid(1), 0), code_val(3)) == 0 {
            lemma_ham_upto_zero_iff(rotk(code_grid(1), 0), code_val(3), 36);
            assert(rotk(code_grid(1), 0)[2] == code_bit(code_val(3), 2));

            assert(rotk(code_grid(1), 0)[2] == code_bit(code_val(1), 2));
            assert(false);
        }
    }
    if j == 4 {
        if ham(rotk(code_grid(1), 0), code_val(4)) == 0 {
            lemma_ham_upto_zero_iff(rotk(code_grid(1), 0), code_val(4), 36);
            assert(rotk(code_grid(1), 0)[2] == code_bit(code_val(4), 2));

            assert(rotk(code_grid(1), 0)[2] == code_bit(code_val(1), 2));
            assert(false);
        }
    }
    if j == 5 {
        if ham(rotk(code_grid(1), 0), code_val(5)) == 0 {
            lemma_ham_upto_zero_iff(rotk(code_grid(1), 0), code_val(5), 36);
            assert(rotk(code_grid(1), 0)[2] == code_bit(code_val(5), 2));

            assert(rotk(code_grid(1), 0)[2] == code_bit(code_val(1), 2));
            assert(false);
        }
    }
    if j == 6 {
        if ham(rotk(code_grid(1), 0), code_val(6)) == 0 {
            lemma_ham_upto_zero_iff(rotk(code_grid(1), 0), code_val(6), 36);
            assert(rotk(code_grid(1), 0)[0] == code_bit(code_val(6), 0));

            assert(rotk(code_grid(1), 0)[0] == code_bit(code_val(1), 0));
            assert(false);
        }
    }
    if j == 7 {
        if ham(rotk(code_grid(1), 0), code_val(7)) == 0 {
            lemma_ham_upto_zero_iff(rotk(code_grid(1), 0), code_val(7), 36);
            assert(rotk(code_grid(1), 0)[0] == code_bit(code_val(7), 0));

            assert(rotk(code_grid(1), 0)[0] == code_bit(code_val(1), 0));
            assert(false);
        }
    }
    if j == 8 {
        if ham(rotk(code_grid(1), 0), code_val(8)) == 0 {
            lemma_ham_upto_zero_iff(rotk(code_grid(1), 0), code_val(8), 36);
            assert(rotk(code_grid(1), 0)[0] == code_bit(code_val(8), 0));

            assert(rotk(code_grid(1), 0)[0] == code_bit(code_val(1), 0));
            assert(false);
        }
    }
    if j == 9 {
        if ham(rotk(code_grid(1), 0), code_val(9)) == 0 {
            lemma_ham_upto_zero_iff(rotk(code_grid(1), 0), code_val(9), 36);
            assert(rotk(code_grid(1), 0)[0] == code_bit(code_val(9), 0));

            assert(rotk(code_grid(1), 0)[0] == code_bit(code_val(1), 0));
            assert(false);
        }
    }
    if j == 10 {
        if ham(rotk(code_grid(1), 0), code_val(10)) == 0 {
            lemma_ham_upto_zero_iff(rotk(code_grid(1), 0), code_val(10), 36);
            assert(rotk(code_grid(1), 0)[0] == code_bit(code_val(10), 0));

            assert(rotk(code_grid(1), 0)[0] == code_bit(code_val(1), 0));
            assert(false);
        }
    }
}

/// No codeword equals rotation 1 of codeword 1 (other than itself
/// unrotated).
proof fn lemma_separation_1_1(j: int)
    requires
        0 <= j < 11,
    ensures
        ham(rotk(code_grid(1), 1), code_val(j)) != 0,
{
    reveal_with_fuel(rotk, 6);
    lemma_code_bits_0();
    lemma_code_bits_1();
    lemma_code_bits_2();
    lemma_code_bits_3();
    lemma_code_bits_4();
    lemma_code_bits_5();
    lemma_code_bits_6();
    lemma_code_bits_7();
    lemma_code_bits_8();
    lemma_code_bits_9();
    lemma_code_bits_10();
    if j == 0 {
        if ham(rotk(code_grid(1), 1), code_val(0)) == 0 {
            lemma_ham_upto_zero_iff(rotk(code_grid(1), 1), code_val(0), 36);
            assert(rotk(code_grid(1), 1)[0] == code_bit(code_val(0), 0));
            assert(rotk(code_grid(1), 1)[0] == rotk(code_grid(1), 0)[30]);
            assert(rotk(code_grid(1), 0)[30] == code_bit(code_val(1), 30));
            assert(false);
        }
    }
    if j == 1 {
        if ham(rotk(code_grid(1), 1), code_val(1)) == 0 {
            lemma_ham_upto_zero_iff(rotk(code_grid(1), 1), code_val(1), 36);
            assert(rotk(code_grid(1), 1)[0] == code_bit(code_val(1), 0));
            assert(rotk(code_grid(1), 1)[0] == rotk(code_grid(1), 0)[30]);
            assert(rotk(code_grid(1), 0)[30] == code_bit(code_val(1), 30));
            assert(false);
        }
    }
    if j == 2 {
        if ham(rotk(code_grid(1), 1), code_val(2)) == 0 {
            lemma_ham_upto_zero_iff(rotk(code_grid(1), 1), code_val(2), 36);
            assert(rotk(code_grid(1), 1)[0] == code_bit(code_val(2), 0));
            assert(rotk(code_grid(1), 1)[0] == rotk(code_grid(1), 0)[30]);
            assert(rotk(code_grid(1), 0)[30] == code_bit(code_val(1), 30));
            assert(false);
        }
    }
    if j == 3 {
        if ham(rotk(code_grid(1), 1), code_val(3)) == 0 {
            lemma_ham_upto_zero_iff(rotk(code_grid(1), 1), code_val(3), 36);
            assert(rotk(code_grid(1), 1)[0] == code_bit(code_val(3), 0));
            assert(rotk(code_grid(1), 1)[0] == rotk(code_grid(1), 0)[30]);
            assert(rotk(code_grid(1), 0)[30] == code_bit(code_val(1), 30));
            assert(false);
        }
    }
    if j == 4 {
        if ham(rotk(code_grid(1), 1), code_val(4)) == 0 {
            lemma_ham_upto_zero_iff(rotk(code_grid(1), 1), code_val(4), 36);
            assert(rotk(code_grid(1), 1)[0] == code_bit(code_val(4), 0));
            assert(rotk(code_grid(1), 1)[0] == rotk(code_grid(1), 0)[30]);
            assert(rotk(code_grid(1), 0)[30] == code_bit(code_val(1), 30));
            assert(false);
        }
    }
    if j == 5 {
        if ham(rotk(code_grid(1), 1), code_val(5)) == 0 {
            lemma_ham_upto_zero_iff(rotk(code_grid(1), 1), code_val(5), 36);
            assert(rotk(code_grid(1), 1)[0] == code_bit(code_val(5), 0));
            assert(rotk(code_grid(1), 1)[0] == rotk(code_grid(1), 0)[30]);
            assert(rotk(code_grid(1), 0)[30] == code_bit(code_val(1), 30));
            assert(false);
        }
    }
    if j == 6 {
        if ham(rotk(code_grid(1), 1), code_val(6)) == 0 {
            lemma_ham_upto_zero_iff(rotk(code_grid(1), 1), code_val(6), 36);
            assert(rotk(code_grid(1), 1)[1] == code_bit(code_val(6), 1));
            assert(rotk(code_grid(1), 1)[1] == rotk(code_grid(1), 0)[24]);
            assert(rotk(code_grid(1), 0)[24] == code_bit(code_val(1), 24));
            assert(false);
        }
    }
    if j == 7 {
        if ham(rotk(code_grid(1), 1), code_val(7)) == 0 {
            lemma_ham_upto_zero_iff(rotk(code_grid(1), 1), code_val(7), 36);
            assert(rotk(code_grid(1), 1)[1] == code_bit(code_val(7), 1));
            assert(rotk(code_grid(1), 1)[1] == rotk(code_grid(1), 0)[24]);
            assert(rotk(code_grid(1), 0)[24] == code_bit(code_val(1), 24));
            assert(false);
        }
    }
    if j == 8 {
        if ham(rotk(code_grid(1), 1), code_val(8)) == 0 {
            lemma_ham_upto_zero_iff(rotk(code_grid(1), 1), code_val(8), 36);
            assert(rotk(code_grid(1), 1)[1] == code_bit(code_val(8), 1));
            assert(rotk(code_grid(1), 1)[1] == rotk(code_grid(1), 0)[24]);
            assert(rotk(code_grid(1), 0)[24] == code_bit(code_val(1), 24));
            assert(false);
        }
    }
    if j == 9 {
        if ham(rotk(code_grid(1), 1), code_val(9)) == 0 {
            lemma_ham_upto_zero_iff(rotk(code_grid(1), 1), code_val(9), 36);
            assert(rotk(code_grid(1), 1)[1] == code_bit(code_val(9), 1));
            assert(rotk(code_grid(1), 1)[1] == rotk(code_grid(1), 0)[24]);
            assert(rotk(code_grid(1), 0)[24] == code_bit(code_val(1), 24));
            assert(false);
        }
    }
    if j == 10 {
        if ham(rotk(code_grid(1), 1), code_val(10)) == 0 {
            lemma_ham_upto_zero_iff(rotk(code_grid(1), 1), code_val(10), 36);
            assert(rotk(code_grid(1), 1)[1] == code_bit(code_val(10), 1));
            assert(rotk(code_grid(1), 1)[1] == rotk(code_grid(1), 0)[24]);
            assert(rotk(code_grid(1), 0)[24] == code_bit(code_val(1), 24));
            assert(false);
        }
    }
}

/// No codeword equals rotation 2 of codeword 1 (other than itself
/// unrotated).
proof fn lemma_separation_1_2(j: int)
    requires
        0 <= j < 11,
    ensures
        ham(rotk(code_grid(1), 2), code_val(j)) != 0,
{
    reveal_with_fuel(rotk, 6);
    lemma_code_bits_0();
    lemma_code_bits_1();
    lemma_code_bits_2();
    lemma_code_bits_3();
    lemma_code_bits_4();
    lemma_code_bits_5();
    lemma_code_bits_6();
    lemma_code_bits_7();
    lemma_code_bits_8();
    lemma_code_bits_9();
    lemma_code_bits_10();
    if j == 0 {
        if ham(rotk(code_grid(1), 2), code_val(0)) == 0 {
            lemma_ham_upto_zero_iff(rotk(code_grid(1), 2), code_val(0), 36);
            assert(rotk(code_grid(1), 2)[1] == code_bit(code_val(0), 1));
            assert(rotk(code_grid(1), 2)[1] == rotk(code_grid(1), 1)[24]);
            assert(rotk(code_grid(1), 1)[24] == rotk(code_grid(1), 0)[34]);
            assert(rotk(code_grid(1), 0)[34] == code_bit(code_val(1), 34));
            assert(false);
        }
    }
    if j == 1 {
        if ham(rotk(code_grid(1), 2), code_val(1)) == 0 {
            lemma_ham_upto_zero_iff(rotk(code_grid(1), 2), code_val(1), 36);
            assert(rotk(code_grid(1), 2)[1] == code_bit(code_val(1), 1));
            assert(rotk(code_grid(1), 2)[1] == rotk(code_grid(1), 1)[24]);
            assert(rotk(code_grid(1), 1)[24] == rotk(code_grid(1), 0)[34]);
            assert(rotk(code_grid(1), 0)[34] == code_bit(code_val(1), 34));
            assert(false);
        }
    }
    if j == 2 {
        if ham(rotk(code_grid(1), 2), code_val(2)) == 0 {
            lemma_ham_upto_zero_iff(rotk(code_grid(1), 2), code_val(2), 36);
            assert(rotk(code_grid(1), 2)[1] == code_bit(code_val(2), 1));
            assert(rotk(code_grid(1), 2)[1] == rotk(code_grid(1), 1)[24]);
            assert(rotk(code_grid(1), 1)[24] == rotk(code_grid(1), 0)[34]);
            assert(rotk(code_grid(1), 0)[34] == code_bit(code_val(1), 34));
            assert(false);
        }
    }
    if j == 3 {
        if ham(rotk(code_grid(1), 2), code_val(3)) == 0 {
            lemma_ham_upto_zero_iff(rotk(code_grid(1), 2), code_val(3), 36);
            assert(rotk(code_grid(1), 2)[1] == code_bit(code_val(3), 1));
            assert(rotk(code_grid(1), 2)[1] == rotk(code_grid(1), 1)[24]);
            assert(rotk(code_grid(1), 1)[24] == rotk(code_grid(1), 0)[34]);
            assert(rotk(code_grid(1), 0)[34] == code_bit(code_val(1), 34));
            assert(false);
        }
    }
    if j == 4 {
        if ham(rotk(code_grid(1), 2), code_val(4)) == 0 {
            lemma_ham_upto_zero_iff(rotk(code_grid(1), 2), code_val(4), 36);
            assert(rotk(code_grid(1), 2)[1] == code_bit(code_val(4), 1));
            assert(rotk(code_grid(1), 2)[1] == rotk(code_grid(1), 1)[24]);
            assert(rotk(code_grid(1), 1)[24] == rotk(code_grid(1), 0)[34]);
            assert(rotk(code_grid(1), 0)[34] == code_bit(code_val(1), 34));
            assert(false);
        }
    }
    if j == 5 {
        if ham(rotk(code_grid(1), 2), code_val(5)) == 0 {
            lemma_ham_upto_zero_iff(rotk(code_grid(1), 2), code_val(5), 36);
            assert(rotk(code_grid(1), 2)[1] == code_bit(code_val(5), 1));
            assert(rotk(code_grid(1), 2)[1] == rotk(code_grid(1), 1)[24]);
            assert(rotk(code_grid(1), 1)[24] == rotk(code_grid(1), 0)[34]);
            assert(rotk(code_grid(1), 0)[34] == code_bit(code_val(1), 34));
            assert(false);
        }
    }
    if j == 6 {
        if ham(rotk(code_grid(1), 2), code_val(6)) == 0 {
            lemma_ham_upto_zero_iff(rotk(code_grid(1), 2), code_val(6), 36);
            assert(rotk(code_grid(1), 2)[0] == code_bit(code_val(6), 0));
            assert(rotk(code_grid(1), 2)[0] == rotk(code_grid(1), 1)[30]);
            assert(rotk(code_grid(1), 1)[30] == rotk(code_grid(1), 0)[35]);
            assert(rotk(code_grid(1), 0)[35] == code_bit(code_val(1), 35));
            assert(false);
        }
    }
    if j == 7 {
        if ham(rotk(code_grid(1), 2), code_val(7)) == 0 {
            lemma_ham_upto_zero_iff(rotk(code_grid(1), 2), code_val(7), 36);
            assert(rotk(code_grid(1), 2)[0] == code_bit(code_val(7), 0));
            assert(rotk(code_grid(1), 2)[0] == rotk(code_grid(1), 1)[30]);
            assert(rotk(code_grid(1), 1)[30] == rotk(code_grid(1), 0)[35]);
            assert(rotk(code_grid(1), 0)[35] == code_bit(code_val(1), 35));
            assert(false);
        }
    }
    if j == 8 {
        if ham(rotk(code_grid(1), 2), code_val(8)) == 0 {
            lemma_ham_upto_zero_iff(rotk(code_grid(1), 2), code_val(8), 36);
            assert(rotk(code_grid(1), 2)[0] == code_bit(code_val(8), 0));
            assert(rotk(code_grid(1), 2)[0] == rotk(code_grid(1), 1)[30]);
            assert(rotk(code_grid(1), 1)[30] == rotk(code_grid(1), 0)[35]);
            assert(rotk(code_grid(1), 0)[35] == code_bit(code_val(1), 35));
            assert(false);
        }
    }
    if j == 9 {
        if ham(rotk(code_grid(1), 2), code_val(9)) == 0 {
            lemma_ham_upto_zero_iff(rotk(code_grid(1), 2), code_val(9), 36);
            assert(rotk(code_grid(1), 2)[0] == code_bit(code_val(9), 0));
            assert(rotk(code_grid(1), 2)[0] == rotk(code_grid(1), 1)[30]);
            assert(rotk(code_grid(1), 1)[30] == rotk(code_grid(1), 0)[35]);
            assert(rotk(code_grid(1), 0)[35] == code_bit(code_val(1), 35));
            assert(false);
        }
    }
    if j == 10 {
        if ham(rotk(code_grid(1), 2), code_val(10)) == 0 {
            lemma_ham_upto_zero_iff(rotk(code_grid(1), 2), code_val(10), 36);
            assert(rotk(code_grid(1), 2)[0] == code_bit(code_val(10), 0));
            assert(rotk(code_grid(1), 2)[0] == rotk(code_grid(1), 1)[30]);
            assert(rotk(code_grid(1), 1)[30] == rotk(code_grid(1), 0)[35]);
            assert(rotk(code_grid(1), 0)[35] == code_bit(code_val(1), 35));
            assert(false);
        }
    }
}

/// No codeword equals rotation 3 of codeword 1 (other than itself
/// unrotated).
proof fn lemma_separation_1_3(j: int)
    requires
        0 <= j < 11,
    ensures
        ham(rotk(code_grid(1), 3), code_val(j)) != 0,
{
    reveal_with_fuel(rotk, 6);
    lemma_code_bits_0();
    lemma_code_bits_1();
    lemma_code_bits_2();
    lemma_code_bits_3();
    lemma_code_bits_4();
    lemma_code_bits_5();
    lemma_code_bits_6();
    lemma_code_bits_7();
    lemma_code_bits_8();
    lemma_code_bits_9();
    lemma_code_bits_10();
    if j == 0 {
        if ham(rotk(code_grid(1), 3), code_val(0)) == 0 {
            lemma_ham_upto_zero_iff(rotk(code_grid(1), 3), code_val(0), 36);
            assert(rotk(code_grid(1), 3)[0] == code_bit(code_val(0), 0));
            assert(rotk(code_grid(1), 3)[0] == rotk(code_grid(1), 2)[30]);
            assert(rotk(code_grid(1), 2)[30] == rotk(code_grid(1), 1)[35]);
            assert(rotk(code_grid(1), 1)[35] == rotk(code_grid(1), 0)[5]);
            assert(rotk(code_grid(1), 0)[5] == code_bit(code_val(1), 5));
            assert(false);
        }
    }
    if j == 1 {
        if ham(rotk(code_grid(1), 3), code_val(1)) == 0 {
            lemma_ham_upto_zero_iff(rotk(code_grid(1), 3), code_val(1), 36);
            assert(rotk(code_grid(1), 3)[0] == code_bit(code_val(1), 0));
            assert(rotk(code_grid(1), 3)[0] == rotk(code_grid(1), 2)[30]);
            assert(rotk(code_grid(1), 2)[30] == rotk(code_grid(1), 1)[35]);
            assert(rotk(code_grid(1), 1)[35] == rotk(code_grid(1), 0)[5]);
            assert(rotk(code_grid(1), 0)[5] == code_bit(code_val(1), 5));
            assert(false);
        }
    }
    if j == 2 {
        if ham(rotk(code_grid(1), 3), code_val(2)) == 0 {
            lemma_ham_upto_zero_iff(rotk(code_grid(1), 3), code_val(2), 36);
            assert(rotk(code_grid(1), 3)[0] == code_bit(code_val(2), 0));
            assert(rotk(code_grid(1), 3)[0] == rotk(code_grid(1), 2)[30]);
            assert(rotk(code_grid(1), 2)[30] == rotk(code_grid(1), 1)[35]);
            assert(rotk(code_grid(1), 1)[35] == rotk(code_grid(1), 0)[5]);
            assert(rotk(code_grid(1), 0)[5] == code_bit(code_val(1), 5));
            assert(false);
        }
    }
    if j == 3 {
        if ham(rotk(code_grid(1), 3), code_val(3)) == 0 {
            lemma_ham_upto_zero_iff(rotk(code_grid(1), 3), code_val(3), 36);
            assert(rotk(code_grid(1), 3)[0] == code_bit(code_val(3), 0));
            assert(rotk(code_grid(1), 3)[0] == rotk(code_grid(1), 2)[30]);
            assert(rotk(code_grid(1), 2)[30] == rotk(code_grid(1), 1)[35]);
            assert(rotk(code_grid(1), 1)[35] == rotk(code_grid(1), 0)[5]);
            assert(rotk(code_grid(1), 0)[5] == code_bit(code_val(1), 5));
            assert(false);
        }
    }
    if j == 4 {
        if ham(rotk(code_grid(1), 3), code_val(4)) == 0 {
            lemma_ham_upto_zero_iff(rotk(code_grid(1), 3), code_val(4), 36);
            assert(rotk(code_grid(1), 3)[0] == code_bit(code_val(4), 0));
            assert(rotk(code_grid(1), 3)[0] == rotk(code_grid(1), 2)[30]);
            assert(rotk(code_grid(1), 2)[30] == rotk(code_grid(1), 1)[35]);
            assert(rotk(code_grid(1), 1)[35] == rotk(code_grid(1), 0)[5]);
            assert(rotk(code_grid(1), 0)[5] == code_bit(code_val(1), 5));
            assert(false);
        }
    }
    if j == 5 {
        if ham(rotk(code_grid(1), 3), code_val(5)) == 0 {
            lemma_ham_upto_zero_iff(rotk(code_grid(1), 3), code_val(5), 36);
            assert(rotk(code_grid(1), 3)[0] == code_bit(code_val(5), 0));
            assert(rotk(code_grid(1), 3)[0] == rotk(code_grid(1), 2)[30]);
            assert(rotk(code_grid(1), 2)[30] == rotk(code_grid(1), 1)[35]);
            assert(rotk(code_grid(1), 1)[35] == rotk(code_grid(1), 0)[5]);
            assert(rotk(code_grid(1), 0)[5] == code_bit(code_val(1), 5));
            assert(false);
        }
    }
    if j == 6 {
        if ham(rotk(code_grid(1), 3), code_val(6)) == 0 {
            lemma_ham_upto_zero_iff(rotk(code_grid(1), 3), code_val(6), 36);
            assert(rotk(code_grid(1), 3)[1] == code_bit(code_val(6), 1));
            assert(rotk(code_grid(1), 3)[1] == rotk(code_grid(1), 2)[24]);
            assert(rotk(code_grid(1), 2)[24] == rotk(code_grid(1), 1)[34]);
            assert(rotk(code_grid(1), 1)[34] == rotk(code_grid(1), 0)[11]);
            assert(rotk(code_grid(1), 0)[11] == code_bit(code_val(1), 11));
            assert(false);
        }
    }
    if j == 7 {
        if ham(rotk(code_grid(1), 3), code_val(7)) == 0 {
            lemma_ham_upto_zero_iff(rotk(code_grid(1), 3), code_val(7), 36);
            assert(rotk(code_grid(1), 3)[1] == code_bit(code_val(7), 1));
            assert(rotk(code_grid(1), 3)[1] == rotk(code_grid(1), 2)[24]);
            assert(rotk(code_grid(1), 2)[24] == rotk(code_grid(1), 1)[34]);
            assert(rotk(code_grid(1), 1)[34] == rotk(code_grid(1), 0)[11]);
            assert(rotk(code_grid(1), 0)[11] == code_bit(code_val(1), 11));
            assert(false);
        }
    }
    if j == 8 {
        if ham(rotk(code_grid(1), 3), code_val(8)) == 0 {
            lemma_ham_upto_zero_iff(rotk(code_grid(1), 3), code_val(8), 36);
            assert(rotk(code_grid(1), 3)[1] == code_bit(code_val(8), 1));
            assert(rotk(code_grid(1), 3)[1] == rotk(code_grid(1), 2)[24]);
            assert(rotk(code_grid(1), 2)[24] == rotk(code_grid(1), 1)[34]);
            assert(rotk(code_grid(1), 1)[34] == rotk(code_grid(1), 0)[11]);
            assert(rotk(code_grid(1), 0)[11] == code_bit(code_val(1), 11));
            assert(false);
        }
    }
    if j == 9 {
        if ham(rotk(code_grid(1), 3), code_val(9)) == 0 {
            lemma_ham_upto_zero_iff(rotk(code_grid(1), 3), code_val(9), 36);
            assert(rotk(code_grid(1), 3)[1] == code_bit(code_val(9), 1));
            assert(rotk(code_grid(1), 3)[1] == rotk(code_grid(1), 2)[24]);
            assert(rotk(code_grid(1), 2)[24] == rotk(code_grid(1), 1)[34]);
            assert(rotk(code_grid(1), 1)[34] == rotk(code_grid(1), 0)[11]);
            assert(rotk(code_grid(1), 0)[11] == code_bit(code_val(1), 11));
            assert(false);
        }
    }
    if j == 10 {
        if ham(rotk(code_grid(1), 3), code_val(10)) == 0 {
            lemma_ham_upto_zero_iff(rotk(code_grid(1), 3), code_val(10), 36);
            assert(rotk(code_grid(1), 3)[1] == code_bit(code_val(10), 1));
            assert(rotk(code_grid(1), 3)[1] == rotk(code_grid(1), 2)[24]);
            assert(rotk(code_grid(1), 2)[24] == rotk(code_grid(1), 1)[34]);
            assert(rotk(code_grid(1), 1)[34] == rotk(code_grid(1), 0)[11]);
            assert(rotk(code_grid(1), 0)[11] == code_bit(code_val(1), 11));
            assert(false);
        }
    }
}

/// No codeword equals rotation 0 of codeword 2 (other than itself
/// unrotated).
proof fn lemma_separation_2_0(j: int)
    requires
        0 <= j < 11,
        !(0 == 0 && j == 2),
    ensures
        ham(rotk(code_grid(2), 0), code_val(j)) != 0,
{
    reveal_with_fuel(rotk, 6);
    lemma_code_bits_0();
    lemma_code_bits_1();
    lemma_code_bits_2();
    lemma_code_bits_3();
    lemma_code_bits_4();
    lemma_code_bits_5();
    lemma_code_bits_6();
    lemma_code_bits_7();
    lemma_code_bits_8();
    lemma_code_bits_9();
    lemma_code_bits_10();
    if j == 0 {
        if ham(rotk(code_grid(2), 0), code_val(0)) == 0 {
            lemma_ham_upto_zero_iff(rotk(code_grid(2), 0), code_val(0), 36);
            assert(rotk(code_grid(2), 0)[4] == code_bit(code_val(0), 4));

            assert(rotk(code_grid(2), 0)[4] == code_bit(code_val(2), 4));
            assert(false);
        }
    }
    if j == 1 {
        if ham(rotk(code_grid(2), 0), code_val(1)) == 0 {
            lemma_ham_upto_zero_iff(rotk(code_grid(2), 0), code_val(1), 36);
            assert(rotk(code_grid(2), 0)[5] == code_bit(code_val(1), 5));

            assert(rotk(code_grid(2), 0)[5] == code_bit(code_val(2), 5));
            assert(false);
        }
    }
    if j == 3 {
        if ham(rotk(code_grid(2), 0), code_val(3)) == 0 {
            lemma_ham_upto_zero_iff(rotk(code_grid(2), 0), code_val(3), 36);
            assert(rotk(code_grid(2), 0)[2] == code_bit(code_val(3), 2));

            assert(rotk(code_grid(2), 0)[2] == code_bit(code_val(2), 2));
            assert(false);
        }
    }
    if j == 4 {
        if ham(rotk(code_grid(2), 0), code_val(4)) == 0 {
            lemma_ham_upto_zero_iff(rotk(code_grid(2), 0), code_val(4), 36);
            assert(rotk(code_grid(2), 0)[2] == code_bit(code_val(4), 2));

            assert(rotk(code_grid(2), 0)[2] == code_bit(code_val(2), 2));
            assert(false);
        }
    }
    if j == 5 {
        if ham(rotk(code_grid(2), 0), code_val(5)) == 0 {
            lemma_ham_upto_zero_iff(rotk(code_grid(2), 0), code_val(5), 36);
            assert(rotk(code_grid(2), 0)[2] == code_bit(code_val(5), 2));

            assert(rotk(code_grid(2), 0)[2] == code_bit(code_val(2), 2));
            assert(false);
        }
    }
    if j == 6 {
        if ham(rotk(code_grid(2), 0), code_val(6)) == 0 {
            lemma_ham_upto_zero_iff(rotk(code_grid(2), 0), code_val(6), 36);
            assert(rotk(code_grid(2), 0)[0] == code_bit(code_val(6), 0));

            assert(rotk(code_grid(2), 0)[0] == code_bit(code_val(2), 0));
            assert(false);
        }
    }
    if j == 7 {
        if ham(rotk(code_grid(2), 0), code_val(7)) == 0 {
            lemma_ham_upto_zero_iff(rotk(code_grid(2), 0), code_val(7), 36);
            assert(rotk(code_grid(2), 0)[0] == code_bit(code_val(7), 0));

            assert(rotk(code_grid(2), 0)[0] == code_bit(code_val(2), 0));
            assert(false);
        }
    }
    if j == 8 {
        if ham(rotk(code_grid(2), 0), code_val(8)) == 0 {
            lemma_ham_upto_zero_iff(rotk(code_grid(2), 0), code_val(8), 36);
            assert(rotk(code_grid(2), 0)[0] == code_bit(code_val(8), 0));

            assert(rotk(code_grid(2), 0)[0] == code_bit(code_val(2), 0));
            assert(false);
        }
    }
    if j == 9 {
        if ham(rotk(code_grid(2), 0), code_val(9)) == 0 {
            lemma_ham_upto_zero_iff(rotk(code_grid(2), 0), code_val(9), 36);
            assert(rotk(code_grid(2), 0)[0] == code_bit(code_val(9), 0));

            assert(rotk(code_grid(2), 0)[0] == code_bit(code_val(2), 0));
            assert(false);
        }
    }
    if j == 10 {
        if ham(rotk(code_grid(2), 0), code_val(10)) == 0 {
            lemma_ham_upto_zero_iff(rotk(code_grid(2), 0), code_val(10), 36);
            assert(rotk(code_grid(2), 0)[0] == code_bit(code_val(10), 0));

            assert(rotk(code_grid(2), 0)[0] == code_bit(code_val(2), 0));
            assert(false);
        }
    }
}

/// No codeword equals rotation 1 of codeword 2 (other than itself
/// unrotated).
proof fn lemma_separation_2_1(j: int)
    requires
        0 <= j < 11,
    ensures
        ham(rotk(code_grid(2), 1), code_val(j)) != 0,
{
    reveal_with_fuel(rotk, 6);
    lemma_code_bits_0();
    lemma_code_bits_1();
    lemma_code_bits_2();
    lemma_code_bits_3();
    lemma_code_bits_4();
    lemma_code_bits_5();
    lemma_code_bits_6();
    lemma_code_bits_7();
    lemma_code_bits_8();
    lemma_code_bits_9();
    lemma_code_bits_10();
    if j == 0 {
        if ham(rotk(code_grid(2), 1), code_val(0)) == 0 {
            lemma_ham_upto_zero_iff(rotk(code_grid(2), 1), code_val(0), 36);
            assert(rotk(code_grid(2), 1)[0] == code_bit(code_val(0), 0));
            assert(rotk(code_grid(2), 1)[0] == rotk(code_grid(2), 0)[30]);
            assert(rotk(code_grid(2), 0)[30] == code_bit(code_val(2), 30));
            assert(false);
        }
    }
    if j == 1 {
        if ham(rotk(code_grid(2), 1), code_val(1)) == 0 {
            lemma_ham_upto_zero_iff(rotk(code_grid(2), 1), code_val(1), 36);
            assert(rotk(code_grid(2), 1)[0] == code_bit(code_val(1), 0));
            assert(rotk(code_grid(2), 1)[0] == rotk(code_grid(2), 0)[30]);
            assert(rotk(code_grid(2), 0)[30] == code_bit(code_val(2), 30));
            assert(false);
        }
    }
    if j == 2 {
        if ham(rotk(code_grid(2), 1), code_val(2)) == 0 {
            lemma_ham_upto_zero_iff(rotk(code_grid(2), 1), code_val(2), 36);
            assert(rotk(code_grid(2), 1)[0] == code_bit(code_val(2), 0));
            assert(rotk(code_grid(2), 1)[0] == rotk(code_grid(2), 0)[30]);
            assert(rotk(code_grid(2), 0)[30] == code_bit(code_val(2), 30));
            assert(false);
        }
    }
    if j == 3 {
        if ham(rotk(code_grid(2), 1), code_val(3)) == 0 {
            lemma_ham_upto_zero_iff(rotk(code_grid(2), 1), code_val(3), 36);
            assert(rotk(code_grid(2), 1)[0] == code_bit(code_val(3), 0));
            assert(rotk(code_grid(2), 1)[0] == rotk(code_grid(2), 0)[30]);
            assert(rotk(code_grid(2), 0)[30] == code_bit(code_val(2), 30));
            assert(false);
        }
    }
    if j == 4 {
        if ham(rotk(code_grid(2), 1), code_val(4)) == 0 {
            lemma_ham_upto_zero_iff(rotk(code_grid(2), 1), code_val(4), 36);
            assert(rotk(code_grid(2), 1)[0] == code_bit(code_val(4), 0));
            assert(rotk(code_grid(2), 1)[0] == rotk(code_grid(2), 0)[30]);
            assert(rotk(code_grid(2), 0)[30] == code_bit(code_val(2), 30));
            assert(false);
        }
    }
    if j == 5 {
        if ham(rotk(code_grid(2), 1), code_val(5)) == 0 {
            lemma_ham_upto_zero_iff(rotk(code_grid(2), 1), code_val(5), 36);
            assert(rotk(code_grid(2), 1)[0] == code_bit(code_val(5), 0));
            assert(rotk(code_grid(2), 1)[0] == rotk(code_grid(2), 0)[30]);
            assert(rotk(code_grid(2), 0)[30] == code_bit(code_val(2), 30));
            assert(false);
        }
    }
    if j == 6 {
        if ham(rotk(code_grid(2), 1), code_val(6)) == 0 {
            lemma_ham_upto_zero_iff(rotk(code_grid(2), 1), code_val(6), 36);
            assert(rotk(code_grid(2), 1)[3] == code_bit(code_val(6), 3));
            assert(rotk(code_grid(2), 1)[3] == rotk(code_grid(2), 0)[12]);
            assert(rotk(code_grid(2), 0)[12] == code_bit(code_val(2), 12));
            assert(false);
        }
    }
    if j == 7 {
        if ham(rotk(code_grid(2), 1), code_val(7)) == 0 {
            lemma_ham_upto_zero_iff(rotk(code_grid(2), 1), code_val(7), 36);
            assert(rotk(code_grid(2), 1)[5] == code_bit(code_val(7), 5));
            assert(rotk(code_grid(2), 1)[5] == rotk(code_grid(2), 0)[0]);
            assert(rotk(code_grid(2), 0)[0] == code_bit(code_val(2), 0));
            assert(false);
        }
    }
    if j == 8 {
        if ham(rotk(code_grid(2), 1), code_val(8)) == 0 {
            lemma_ham_upto_zero_iff(rotk(code_grid(2), 1), code_val(8), 36);
            assert(rotk(code_grid(2), 1)[2] == code_bit(code_val(8), 2));
            assert(rotk(code_grid(2), 1)[2] == rotk(code_grid(2), 0)[18]);
            assert(rotk(code_grid(2), 0)[18] == code_bit(code_val(2), 18));
            assert(false);
        }
    }
    if j == 9 {
        if ham(rotk(code_grid(2), 1), code_val(9)) == 0 {
            lemma_ham_upto_zero_iff(rotk(code_grid(2), 1), code_val(9), 36);
            assert(rotk(code_grid(2), 1)[2] == code_bit(code_val(9), 2));
            assert(rotk(code_grid(2), 1)[2] == rotk(code_grid(2), 0)[18]);
            assert(rotk(code_grid(2), 0)[18] == code_bit(code_val(2), 18));
            assert(false);
        }
    }
    if j == 10 {
        if ham(rotk(code_grid(2), 1), code_val(10)) == 0 {
            lemma_ham_upto_zero_iff(rotk(code_grid(2), 1), code_val(10), 36);
            assert(rotk(code_grid(2), 1)[2] == code_bit(code_val(10), 2));
            assert(rotk(code_grid(2), 1)[2] == rotk(code_grid(2), 0)[18]);
            assert(rotk(code_grid(2), 0)[18] == code_bit(code_val(2), 18));
            assert(false);
        }
    }
}

/// No codeword equals rotation 2 of codeword 2 (other than itself
/// unrotated).
proof fn lemma_separation_2_2(j: int)
    requires
        0 <= j < 11,
    ensures
        ham(rotk(code_grid(2), 2), code_val(j)) != 0,
{
    reveal_with_fuel(rotk, 6);
    lemma_code_bits_0();
    lemma_code_bits_1();
    lemma_code_bits_2();
    lemma_code_bits_3();
    lemma_code_bits_4();
    lemma_code_bits_5();
    lemma_code_bits_6();
    lemma_code_bits_7();
    lemma_code_bits_8();
    lemma_code_bits_9();
    lemma_code_bits_10();
    if j == 0 {
        if ham(rotk(code_grid(2), 2), code_val(0)) == 0 {
            lemma_ham_upto_zero_iff(rotk(code_grid(2), 2), code_val(0), 36);
            assert(rotk(code_grid(2), 2)[0] == code_bit(code_val(0), 0));
            assert(rotk(code_grid(2), 2)[0] == rotk(code_grid(2), 1)[30]);
            assert(rotk(code_grid(2), 1)[30] == rotk(code_grid(2), 0)[35]);
            assert(rotk(code_grid(2), 0)[35] == code_bit(code_val(2), 35));
            assert(false);
        }
    }
    if j == 1 {
        if ham(rotk(code_grid(2), 2), code_val(1)) == 0 {
            lemma_ham_upto_zero_iff(rotk(code_grid(2), 2), code_val(1), 36);
            assert(rotk(code_grid(2), 2)[0] == code_bit(code_val(1), 0));
            assert(rotk(code_grid(2), 2)[0] == rotk(code_grid(2), 1)[30]);
            assert(rotk(code_grid(2), 1)[30] == rotk(code_grid(2), 0)[35]);
            assert(rotk(code_grid(2), 0)[35] == code_bit(code_val(2), 35));
            assert(false);
        }
    }
    if j == 2 {
        if ham(rotk(code_grid(2), 2), code_val(2)) == 0 {
            lemma_ham_upto_zero_iff(rotk(code_grid(2), 2), code_val(2), 36);
            assert(rotk(code_grid(2), 2)[0] == code_bit(code_val(2), 0));
            assert(rotk(code_grid(2), 2)[0] == rotk(code_grid(2), 1)[30]);
            assert(rotk(code_grid(2), 1)[30] == rotk(code_grid(2), 0)[35]);
            assert(rotk(code_grid(2), 0)[35] == code_bit(code_val(2), 35));
            assert(false);
        }
    }
    if j == 3 {
        if ham(rotk(code_grid(2), 2), code_val(3)) == 0 {
            lemma_ham_upto_zero_iff(rotk(code_grid(2), 2), code_val(3), 36);
            assert(rotk(code_grid(2), 2)[0] == code_bit(code_val(3), 0));
            assert(rotk(code_grid(2), 2)[0] == rotk(code_grid(2), 1)[30]);
            assert(rotk(code_grid(2), 1)[30] == rotk(code_grid(2), 0)[35]);
            assert(rotk(code_grid(2), 0)[35] == code_bit(code_val(2), 35));
            assert(false);
        }
    }
    if j == 4 {
        if ham(rotk(code_grid(2), 2), code_val(4)) == 0 {
            lemma_ham_upto_zero_iff(rotk(code_grid(2), 2), code_val(4), 36);
            assert(rotk(code_grid(2), 2)[0] == code_bit(code_val(4), 0));
            assert(rotk(code_grid(2), 2)[0] == rotk(code_grid(2), 1)[30]);
            assert(rotk(code_grid(2), 1)[30] == rotk(code_grid(2), 0)[35]);
            assert(rotk(code_grid(2), 0)[35] == code_bit(code_val(2), 35));
            assert(false);
        }
    }
    if j == 5 {
        if ham(rotk(code_grid(2), 2), code_val(5)) == 0 {
            lemma_ham_upto_zero_iff(rotk(code_grid(2), 2), code_val(5), 36);
            assert(rotk(code_grid(2), 2)[0] == code_bit(code_val(5), 0));
            assert(rotk(code_grid(2), 2)[0] == rotk(code_grid(2), 1)[30]);
            assert(rotk(code_grid(2), 1)[30] == rotk(code_grid(2), 0)[35]);
            assert(rotk(code_grid(2), 0)[35] == code_bit(code_val(2), 35));
            assert(false);
        }
    }
    if j == 6 {
        if ham(rotk(code_grid(2), 2), code_val(6)) == 0 {
            lemma_ham_upto_zero_iff(rotk(code_grid(2), 2), code_val(6), 36);
            assert(rotk(code_grid(2), 2)[1] == code_bit(code_val(6), 1));
            assert(rotk(code_grid(2), 2)[1] == rotk(code_grid(2), 1)[24]);
            assert(rotk(code_grid(2), 1)[24] == rotk(code_grid(2), 0)[34]);
            assert(rotk(code_grid(2), 0)[34] == code_bit(code_val(2), 34));
            assert(false);
        }
    }
    if j == 7 {
        if ham(rotk(code_grid(2), 2), code_val(7)) == 0 {
            lemma_ham_upto_zero_iff(rotk(code_grid(2), 2), code_val(7), 36);
            assert(rotk(code_grid(2), 2)[1] == code_bit(code_val(7), 1));
            assert(rotk(code_grid(2), 2)[1] == rotk(code_grid(2), 1)[24]);
            assert(rotk(code_grid(2), 1)[24] == rotk(code_grid(2), 0)[34]);
            assert(rotk(code_grid(2), 0)[34] == code_bit(code_val(2), 34));
            assert(false);
        }
    }
    if j == 8 {
        if ham(rotk(code_grid(2), 2), code_val(8)) == 0 {
            lemma_ham_upto_zero_iff(rotk(code_grid(2), 2), code_val(8), 36);
            assert(rotk(code_grid(2), 2)[1] == code_bit(code_val(8), 1));
            assert(rotk(code_grid(2), 2)[1] == rotk(code_grid(2), 1)[24]);
            assert(rotk(code_grid(2), 1)[24] == rotk(code_grid(2), 0)[34]);
            assert(rotk(code_grid(2), 0)[34] == code_bit(code_val(2), 34));
            assert(false);
        }
    }
    if j == 9 {
        if ham(rotk(code_grid(2), 2), code_val(9)) == 0 {
            lemma_ham_upto_zero_iff(rotk(code_grid(2), 2), code_val(9), 36);
            assert(rotk(code_grid(2), 2)[1] == code_bit(code_val(9), 1));
            assert(rotk(code_grid(2), 2)[1] == rotk(code_grid(2), 1)[24]);
            assert(rotk(code_grid(2), 1)[24] == rotk(code_grid(2), 0)[34]);
            assert(rotk(code_grid(2), 0)[34] == code_bit(code_val(2), 34));
            assert(false);
        }
    }
    if j == 10 {
        if ham(rotk(code_grid(2), 2), code_val(10)) == 0 {
            lemma_ham_upto_zero_iff(rotk(code_grid(2), 2), code_val(10), 36);
            assert(rotk(code_grid(2), 2)[1] == code_bit(code_val(10), 1));
            assert(rotk(code_grid(2), 2)[1] == rotk(code_grid(2), 1)[24]);
            assert(rotk(code_grid(2), 1)[24] == rotk(code_grid(2), 0)[34]);
            assert(rotk(code_grid(2), 0)[34] == code_bit(code_val(2), 34));
            assert(false);
        }
    }
}

/// No codeword equals rotation 3 of codeword 2 (other than itself
/// unrotated).
proof fn lemma_separation_2_3(j: int)
    requires
        0 <= j < 11,
    ensures
        ham(rotk(code_grid(2), 3), code_val(j)) != 0,
{
    reveal_with_fuel(rotk, 6);
    lemma_code_bits_0();
    lemma_code_bits_1();
    lemma_code_bits_2();
    lemma_code_bits_3();
    lemma_code_bits_4();
    lemma_code_bits_5();
    lemma_code_bits_6();
    lemma_code_bits_7();
    lemma_code_bits_8();
    lemma_code_bits_9();
    lemma_code_bits_10();
    if j == 0 {
        if ham(rotk(code_grid(2), 3), code_val(0)) == 0 {
            lemma_ham_upto_zero_iff(rotk(code_grid(2), 3), code_val(0), 36);
            assert(rotk(code_grid(2), 3)[1] == code_bit(code_val(0), 1));
            assert(rotk(code_grid(2), 3)[1] == rotk(code_grid(2), 2)[24]);
            assert(rotk(code_grid(2), 2)[24] == rotk(code_grid(2), 1)[34]);
            assert(rotk(code_grid(2), 1)[34] == rotk(code_grid(2), 0)[11]);
            assert(rotk(code_grid(2), 0)[11] == code_bit(code_val(2), 11));
            assert(false);
        }
    }
    if j == 1 {
        if ham(rotk(code_grid(2), 3), code_val(1)) == 0 {
            lemma_ham_upto_zero_iff(rotk(code_grid(2), 3), code_val(1), 36);
            assert(rotk(code_grid(2), 3)[1] == code_bit(code_val(1), 1));
            assert(rotk(code_grid(2), 3)[1] == rotk(code_grid(2), 2)[24]);
            assert(rotk(code_grid(2), 2)[24] == rotk(code_grid(2), 1)[34]);
            assert(rotk(code_grid(2), 1)[34] == rotk(code_grid(2), 0)[11]);
            assert(rotk(code_grid(2), 0)[11] == code_bit(code_val(2), 11));
            assert(false);
        }
    }
    if j == 2 {
        if ham(rotk(code_grid(2), 3), code_val(2)) == 0 {
            lemma_ham_upto_zero_iff(rotk(code_grid(2), 3), code_val(2), 36);
            assert(rotk(code_grid(2), 3)[1] == code_bit(code_val(2), 1));
            assert(rotk(code_grid(2), 3)[1] == rotk(code_grid(2), 2)[24]);
            assert(rotk(code_grid(2), 2)[24] == rotk(code_grid(2), 1)[34]);
            assert(rotk(code_grid(2), 1)[34] == rotk(code_grid(2), 0)[11]);
            assert(rotk(code_grid(2), 0)[11] == code_bit(code_val(2), 11));
            assert(false);
        }
    }
    if j == 3 {
        if ham(rotk(code_grid(2), 3), code_val(3)) == 0 {
            lemma_ham_upto_zero_iff(rotk(code_grid(2), 3), code_val(3), 36);
            assert(rotk(code_grid(2), 3)[1] == code_bit(code_val(3), 1));
            assert(rotk(code_grid(2), 3)[1] == rotk(code_grid(2), 2)[24]);
            assert(rotk(code_grid(2), 2)[24] == rotk(code_grid(2), 1)[34]);
            assert(rotk(code_grid(2), 1)[34] == rotk(code_grid(2), 0)[11]);
            assert(rotk(code_grid(2), 0)[11] == code_bit(code_val(2), 11));
            assert(false);
        }
    }
    if j == 4 {
        if ham(rotk(code_grid(2), 3), code_val(4)) == 0 {
            lemma_ham_upto_zero_iff(rotk(code_grid(2), 3), code_val(4), 36);
            assert(rotk(code_grid(2), 3)[1] == code_bit(code_val(4), 1));
            assert(rotk(code_grid(2), 3)[1] == rotk(code_grid(2), 2)[24]);
            assert(rotk(code_grid(2), 2)[24] == rotk(code_grid(2), 1)[34]);
            assert(rotk(code_grid(2), 1)[34] == rotk(code_grid(2), 0)[11]);
            assert(rotk(code_grid(2), 0)[11] == code_bit(code_val(2), 11));
            assert(false);
        }
    }
    if j == 5 {
        if ham(rotk(code_grid(2), 3), code_val(5)) == 0 {
            lemma_ham_upto_zero_iff(rotk(code_grid(2), 3), code_val(5), 36);
            assert(rotk(code_grid(2), 3)[1] == code_bit(code_val(5), 1));
            assert(rotk(code_grid(2), 3)[1] == rotk(code_grid(2), 2)[24]);
            assert(rotk(code_grid(2), 2)[24] == rotk(code_grid(2), 1)[34]);
            assert(rotk(code_grid(2), 1)[34] == rotk(code_grid(2), 0)[11]);
            assert(rotk(code_grid(2), 0)[11] == code_bit(code_val(2), 11));
            assert(false);
        }
    }
    if j == 6 {
        if ham(rotk(code_grid(2), 3), code_val(6)) == 0 {
            lemma_ham_upto_zero_iff(rotk(code_grid(2), 3), code_val(6), 36);
            assert(rotk(code_grid(2), 3)[0] == code_bit(code_val(6), 0));
            assert(rotk(code_grid(2), 3)[0] == rotk(code_grid(2), 2)[30]);
            assert(rotk(code_grid(2), 2)[30] == rotk(code_grid(2), 1)[35]);
            assert(rotk(code_grid(2), 1)[35] == rotk(code_grid(2), 0)[5]);
            assert(rotk(code_grid(2), 0)[5] == code_bit(code_val(2), 5));
            assert(false);
        }
    }
    if j == 7 {
        if ham(rotk(code_grid(2), 3), code_val(7)) == 0 {
            lemma_ham_upto_zero_iff(rotk(code_grid(2), 3), code_val(7), 36);
            assert(rotk(code_grid(2), 3)[0] == code_bit(code_val(7), 0));
            assert(rotk(code_grid(2), 3)[0] == rotk(code_grid(2), 2)[30]);
            assert(rotk(code_grid(2), 2)[30] == rotk(code_grid(2), 1)[35]);
            assert(rotk(code_grid(2), 1)[35] == rotk(code_grid(2), 0)[5]);
            assert(rotk(code_grid(2), 0)[5] == code_bit(code_val(2), 5));
            assert(false);
        }
    }
    if j == 8 {
        if ham(rotk(code_grid(2), 3), code_val(8)) == 0 {
            lemma_ham_upto_zero_iff(rotk(code_grid(2), 3), code_val(8), 36);
            assert(rotk(code_grid(2), 3)[0] == code_bit(code_val(8), 0));
            assert(rotk(code_grid(2), 3)[0] == rotk(code_grid(2), 2)[30]);
            assert(rotk(code_grid(2), 2)[30] == rotk(code_grid(2), 1)[35]);
            assert(rotk(code_grid(2), 1)[35] == rotk(code_grid(2), 0)[5]);
            assert(rotk(code_grid(2), 0)[5] == code_bit(code_val(2), 5));
            assert(false);
        }
    }
    if j == 9 {
        if ham(rotk(code_grid(2), 3), code_val(9)) == 0 {
            lemma_ham_upto_zero_iff(rotk(code_grid(2), 3), code_val(9), 36);
            assert(rotk(code_grid(2), 3)[0] == code_bit(code_val(9), 0));
            assert(rotk(code_grid(2), 3)[0] == rotk(code_grid(2), 2)[30]);
            assert(rotk(code_grid(2), 2)[30] == rotk(code_grid(2), 1)[35]);
            assert(rotk(code_grid(2), 1)[35] == rotk(code_grid(2), 0)[5]);
            assert(rotk(code_grid(2), 0)[5] == code_bit(code_val(2), 5));
            assert(false);
        }
    }
    if j == 10 {
        if ham(rotk(code_grid(2), 3), code_val(10)) == 0 {
            lemma_ham_upto_zero_iff(rotk(code_grid(2), 3), code_val(10), 36);
            assert(rotk(code_grid(2), 3)[0] == code_bit(code_val(10), 0));
            assert(rotk(code_grid(2), 3)[0] == rotk(code_grid(2), 2)[30]);
            assert(rotk(code_grid(2), 2)[30] == rotk(code_grid(2), 1)[35]);
            assert(rotk(code_grid(2), 1)[35] == rotk(code_grid(2), 0)[5]);
            assert(rotk(code_grid(2), 0)[5] == code_bit(code_val(2), 5));
            assert(false);
        }
    }
}

/// No codeword equals rotation 0 of codeword 3 (other than itself
/// unrotated).
proof fn lemma_separation_3_0(j: int)
    requires
        0 <= j < 11,
        !(0 == 0 && j == 3),
    ensures
        ham(rotk(code_grid(3), 0), code_val(j)) != 0,
{
    reveal_with_fuel(rotk, 6);
    lemma_code_bits_0();
    lemma_code_bits_1();
    lemma_code_bits_2();
    lemma_code_bits_3();
    lemma_code_bits_4();
    lemma_code_bits_5();
    lemma_code_bits_6();
    lemma_code_bits_7();
    lemma_code_bits_8();
    lemma_code_bits_9();
    lemma_code_bits_10();
    if j == 0 {
        if ham(rotk(code_grid(3), 0), code_val(0)) == 0 {
            lemma_ham_upto_zero_iff(rotk(code_grid(3), 0), code_val(0), 36);
            assert(rotk(code_grid(3), 0)[2] == code_bit(code_val(0), 2));

            assert(rotk(code_grid(3), 0)[2] == code_bit(code_val(3), 2));
            assert(false);
        }
    }
    if j == 1 {
        if ham(rotk(code_grid(3), 0), code_val(1)) == 0 {
            lemma_ham_upto_zero_iff(rotk(code_grid(3), 0), code_val(1), 36);
            assert(rotk(code_grid(3), 0)[2] == code_bit(code_val(1), 2));

            assert(rotk(code_grid(3), 0)[2] == code_bit(code_val(3), 2));
            assert(false);
        }
    }
    if j == 2 {
        if ham(rotk(code_grid(3), 0), code_val(2)) == 0 {
            lemma_ham_upto_zero_iff(rotk(code_grid(3), 0), code_val(2), 36);
            assert(rotk(code_grid(3), 0)[2] == code_bit(code_val(2), 2));

            assert(rotk(code_grid(3), 0)[2] == code_bit(code_val(3), 2));
            assert(false);
        }
    }
    if j == 4 {
        if ham(rotk(code_grid(3), 0), code_val(4)) == 0 {
            lemma_ham_upto_zero_iff(rotk(code_grid(3), 0), code_val(4), 36);
            assert(rotk(code_grid(3), 0)[4] == code_bit(code_val(4), 4));

            assert(rotk(code_grid(3), 0)[4] == code_bit(code_val(3), 4));
            assert(false);
        }
    }
    if j == 5 {
        if ham(rotk(code_grid(3), 0), code_val(5)) == 0 {
            lemma_ham_upto_zero_iff(rotk(code_grid(3), 0), code_val(5), 36);
            assert(rotk(code_grid(3), 0)[3] == code_bit(code_val(5), 3));

            assert(rotk(code_grid(3), 0)[3] == code_bit(code_val(3), 3));
            assert(false);
        }
    }
    if j == 6 {
        if ham(rotk(code_grid(3), 0), code_val(6)) == 0 {
            lemma_ham_upto_zero_iff(rotk(code_grid(3), 0), code_val(6), 36);
            assert(rotk(code_grid(3), 0)[0] == code_bit(code_val(6), 0));

            assert(rotk(code_grid(3), 0)[0] == code_bit(code_val(3), 0));
            assert(false);
        }
    }
    if j == 7 {
        if ham(rotk(code_grid(3), 0), code_val(7)) == 0 {
            lemma_ham_upto_zero_iff(rotk(code_grid(3), 0), code_val(7), 36);
            assert(rotk(code_grid(3), 0)[0] == code_bit(code_val(7), 0));

            assert(rotk(code_grid(3), 0)[0] == code_bit(code_val(3), 0));
            assert(false);
        }
    }
    if j == 8 {
        if ham(rotk(code_grid(3), 0), code_val(8)) == 0 {
            lemma_ham_upto_zero_iff(rotk(code_grid(3), 0), code_val(8), 36);
            assert(rotk(code_grid(3), 0)[0] == code_bit(code_val(8), 0));

            assert(rotk(code_grid(3), 0)[0] == code_bit(code_val(3), 0));
            assert(false);
        }
    }
    if j == 9 {
        if ham(rotk(code_grid(3), 0), code_val(9)) == 0 {
            lemma_ham_upto_zero_iff(rotk(code_grid(3), 0), code_val(9), 36);
            assert(rotk(code_grid(3), 0)[0] == code_bit(code_val(9), 0));

            assert(rotk(code_grid(3), 0)[0] == code_bit(code_val(3), 0));
            assert(false);
        }
    }
    if j == 10 {
        if ham(rotk(code_grid(3), 0), code_val(10)) == 0 {
            lemma_ham_upto_zero_iff(rotk(code_grid(3), 0), code_val(10), 36);
            assert(rotk(code_grid(3), 0)[0] == code_bit(code_val(10), 0));

            assert(rotk(code_grid(3), 0)[0] == code_bit(code_val(3), 0));
            assert(false);
        }
    }
}

/// No codeword equals rotation 1 of codeword 3 (other than itself
/// unrotated).
proof fn lemma_separation_3_1(j: int)
    requires
        0 <= j < 11,
    ensures
        ham(rotk(code_grid(3), 1), code_val(j)) != 0,
{
    reveal_with_fuel(rotk, 6);
    lemma_code_bits_0();
    lemma_code_bits_1();
    lemma_code_bits_2();
    lemma_code_bits_3();
    lemma_code_bits_4();
    lemma_code_bits_5();
    lemma_code_bits_6();
    lemma_code_bits_7();
    lemma_code_bits_8();
    lemma_code_bits_9();
    lemma_code_bits_10();
    if j == 0 {
        if ham(rotk(code_grid(3), 1), code_val(0)) == 0 {
            lemma_ham_upto_zero_iff(rotk(code_grid(3), 1), code_val(0), 36);
            assert(rotk(code_grid(3), 1)[0] == code_bit(code_val(0), 0));
            assert(rotk(code_grid(3), 1)[0] == rotk(code_grid(3), 0)[30]);
            assert(rotk(code_grid(3), 0)[30] == code_bit(code_val(3), 30));
            assert(false);
        }
    }
    if j == 1 {
        if ham(rotk(code_grid(3), 1), code_val(1)) == 0 {
            lemma_ham_upto_zero_iff(rotk(code_grid(3), 1), code_val(1), 36);
            assert(rotk(code_grid(3), 1)[0] == code_bit(code_val(1), 0));
            assert(rotk(code_grid(3), 1)[0] == rotk(code_grid(3), 0)[30]);
            assert(rotk(code_grid(3), 0)[30] == code_bit(code_val(3), 30));
            assert(false);
        }
    }
    if j == 2 {
        if ham(rotk(code_grid(3), 1), code_val(2)) == 0 {
            lemma_ham_upto_zero_iff(rotk(code_grid(3), 1), code_val(2), 36);
            assert(rotk(code_grid(3), 1)[0] == code_bit(code_val(2), 0));
            assert(rotk(code_grid(3), 1)[0] == rotk(code_grid(3), 0)[30]);
            assert(rotk(code_grid(3), 0)[30] == code_bit(code_val(3), 30));
            assert(false);
        }
    }
    if j == 3 {
        if ham(rotk(code_grid(3), 1), code_val(3)) == 0 {
            lemma_ham_upto_zero_iff(rotk(code_grid(3), 1), code_val(3), 36);
            assert(rotk(code_grid(3), 1)[0] == code_bit(code_val(3), 0));
            assert(rotk(code_grid(3), 1)[0] == rotk(code_grid(3), 0)[30]);
            assert(rotk(code_grid(3), 0)[30] == code_bit(code_val(3), 30));
            assert(false);
        }
    }
    if j == 4 {
        if ham(rotk(code_grid(3), 1), code_val(4)) == 0 {
            lemma_ham_upto_zero_iff(rotk(code_grid(3), 1), code_val(4), 36);
            assert(rotk(code_grid(3), 1)[0] == code_bit(code_val(4), 0));
            assert(rotk(code_grid(3), 1)[0] == rotk(code_grid(3), 0)[30]);
            assert(rotk(code_grid(3), 0)[30] == code_bit(code_val(3), 30));
            assert(false);
        }
    }
    if j == 5 {
        if ham(rotk(code_grid(3), 1), code_val(5)) == 0 {
            lemma_ham_upto_zero_iff(rotk(code_grid(3), 1), code_val(5), 36);
            assert(rotk(code_grid(3), 1)[0] == code_bit(code_val(5), 0));
            assert(rotk(code_grid(3), 1)[0] == rotk(code_grid(3), 0)[30]);
            assert(rotk(code_grid(3), 0)[30] == code_bit(code_val(3), 30));
            assert(false);
        }
    }
    if j == 6 {
        if ham(rotk(code_grid(3), 1), code_val(6)) == 0 {
            lemma_ham_upto_zero_iff(rotk(code_grid(3), 1), code_val(6), 36);
            assert(rotk(code_grid(3), 1)[1] == code_bit(code_val(6), 1));
            assert(rotk(code_grid(3), 1)[1] == rotk(code_grid(3), 0)[24]);
            assert(rotk(code_grid(3), 0)[24] == code_bit(code_val(3), 24));
            assert(false);
        }
    }
    if j == 7 {
        if ham(rotk(code_grid(3), 1), code_val(7)) == 0 {
            lemma_ham_upto_zero_iff(rotk(code_grid(3), 1), code_val(7), 36);
            assert(rotk(code_grid(3), 1)[1] == code_bit(code_val(7), 1));
            assert(rotk(code_grid(3), 1)[1] == rotk(code_grid(3), 0)[24]);
            assert(rotk(code_grid(3), 0)[24] == code_bit(code_val(3), 24));
            assert(false);
        }
    }
    if j == 8 {
        if ham(rotk(code_grid(3), 1), code_val(8)) == 0 {
            lemma_ham_upto_zero_iff(rotk(code_grid(3), 1), code_val(8), 36);
            assert(rotk(code_grid(3), 1)[1] == code_bit(code_val(8), 1));
            assert(rotk(code_grid(3), 1)[1] == rotk(code_grid(3), 0)[24]);
            assert(rotk(code_grid(3), 0)[24] == code_bit(code_val(3), 24));
            assert(false);
        }
    }
    if j == 9 {
        if ham(rotk(code_grid(3), 1), code_val(9)) == 0 {
            lemma_ham_upto_zero_iff(rotk(code_grid(3), 1), code_val(9), 36);
            assert(rotk(code_grid(3), 1)[1] == code_bit(code_val(9), 1));
            assert(rotk(code_grid(3), 1)[1] == rotk(code_grid(3), 0)[24]);
            assert(rotk(code_grid(3), 0)[24] == code_bit(code_val(3), 24));
            assert(false);
        }
    }
    if j == 10 {
        if ham(rotk(code_grid(3), 1), code_val(10)) == 0 {
            lemma_ham_upto_zero_iff(rotk(code_grid(3), 1), code_val(10), 36);
            assert(rotk(code_grid(3), 1)[1] == code_bit(code_val(10), 1));
            assert(rotk(code_grid(3), 1)[1] == rotk(code_grid(3), 0)[24]);
            assert(rotk(code_grid(3), 0)[24] == code_bit(code_val(3), 24));
            assert(false);
        }
    }
}

/// No codeword equals rotation 2 of codeword 3 (other than itself
/// unrotated).
proof fn lemma_separation_3_2(j: int)
    requires
        0 <= j < 11,
    ensures
        ham(rotk(code_grid(3), 2), code_val(j)) != 0,
{
    reveal_with_fuel(rotk, 6);
    lemma_code_bits_0();
    lemma_code_bits_1();
    lemma_code_bits_2();
    lemma_code_bits_3();
    lemma_code_bits_4();
    lemma_code_bits_5();
    lemma_code_bits_6();
    lemma_code_bits_7();
    lemma_code_bits_8();
    lemma_code_bits_9();
    lemma_code_bits_10();
    if j == 0 {
        if ham(rotk(code_grid(3), 2), code_val(0)) == 0 {
            lemma_ham_upto_zero_iff(rotk(code_grid(3), 2), code_val(0), 36);
            assert(rotk(code_grid(3), 2)[0] == code_bit(code_val(0), 0));
            assert(rotk(code_grid(3), 2)[0] == rotk(code_grid(3), 1)[30]);
            assert(rotk(code_grid(3), 1)[30] == rotk(code_grid(3), 0)[35]);
            assert(rotk(code_grid(3), 0)[35] == code_bit(code_val(3), 35));
            assert(false);
        }
    }
    if j == 1 {
        if ham(rotk(code_grid(3), 2), code_val(1)) == 0 {
            lemma_ham_upto_zero_iff(rotk(code_grid(3), 2), code_val(1), 36);
            assert(rotk(code_grid(3), 2)[0] == code_bit(code_val(1), 0));
            assert(rotk(code_grid(3), 2)[0] == rotk(code_grid(3), 1)[30]);
            assert(rotk(code_grid(3), 1)[30] == rotk(code_grid(3), 0)[35]);
            assert(rotk(code_grid(3), 0)[35] == code_bit(code_val(3), 35));
            assert(false);
        }
    }
    if j == 2 {
        if ham(rotk(code_grid(3), 2), code_val(2)) == 0 {
            lemma_ham_upto_zero_iff(rotk(code_grid(3), 2), code_val(2), 36);
            assert(rotk(code_grid(3), 2)[0] == code_bit(code_val(2), 0));
            assert(rotk(code_grid(3), 2)[0] == rotk(code_grid(3), 1)[30]);
            assert(rotk(code_grid(3), 1)[30] == rotk(code_grid(3), 0)[35]);
            assert(rotk(code_grid(3), 0)[35] == code_bit(code_val(3), 35));
            assert(false);
        }
    }
    if j == 3 {
        if ham(rotk(code_grid(3), 2), code_val(3)) == 0 {
            lemma_ham_upto_zero_iff(rotk(code_grid(3), 2), code_val(3), 36);
            assert(rotk(code_grid(3), 2)[0] == code_bit(code_val(3), 0));
            assert(rotk(code_grid(3), 2)[0] == rotk(code_grid(3), 1)[30]);
            assert(rotk(code_grid(3), 1)[30] == rotk(code_grid(3), 0)[35]);
            assert(rotk(code_grid(3), 0)[35] == code_bit(code_val(3), 35));
            assert(false);
        }
    }
    if j == 4 {
        if ham(rotk(code_grid(3), 2), code_val(4)) == 0 {
            lemma_ham_upto_zero_iff(rotk(code_grid(3), 2), code_val(4), 36);
            assert(rotk(code_grid(3), 2)[0] == code_bit(code_val(4), 0));
            assert(rotk(code_grid(3), 2)[0] == rotk(code_grid(3), 1)[30]);
            assert(rotk(code_grid(3), 1)[30] == rotk(code_grid(3), 0)[35]);
            assert(rotk(code_grid(3), 0)[35] == code_bit(code_val(3), 35));
            assert(false);
        }
    }
    if j == 5 {
        if ham(rotk(code_grid(3), 2), code_val(5)) == 0 {
            lemma_ham_upto_zero_iff(rotk(code_grid(3), 2), code_val(5), 36);
            assert(rotk(code_grid(3), 2)[0] == code_bit(code_val(5), 0));
            assert(rotk(code_grid(3), 2)[0] == rotk(code_grid(3), 1)[30]);
            assert(rotk(code_grid(3), 1)[30] == rotk(code_grid(3), 0)[35]);
            assert(rotk(code_grid(3), 0)[35] == code_bit(code_val(3), 35));
            assert(false);
        }
    }
    if j == 6 {
        if ham(rotk(code_grid(3), 2), code_val(6)) == 0 {
            lemma_ham_upto_zero_iff(rotk(code_grid(3), 2), code_val(6), 36);
            assert(rotk(code_grid(3), 2)[3] == code_bit(code_val(6), 3));
            assert(rotk(code_grid(3), 2)[3] == rotk(code_grid(3), 1)[12]);
            assert(rotk(code_grid(3), 1)[12] == rotk(code_grid(3), 0)[32]);
            assert(rotk(code_grid(3), 0)[32] == code_bit(code_val(3), 32));
            assert(false);
        }
    }
    if j == 7 {
        if ham(rotk(code_grid(3), 2), code_val(7)) == 0 {
            lemma_ham_upto_zero_iff(rotk(code_grid(3), 2), code_val(7), 36);
            assert(rotk(code_grid(3), 2)[4] == code_bit(code_val(7), 4));
            assert(rotk(code_grid(3), 2)[4] == rotk(code_grid(3), 1)[6]);
            assert(rotk(code_grid(3), 1)[6] == rotk(code_grid(3), 0)[31]);
            assert(rotk(code_grid(3), 0)[31] == code_bit(code_val(3), 31));
            assert(false);
        }
    }
    if j == 8 {
        if ham(rotk(code_grid(3), 2), code_val(8)) == 0 {
            lemma_ham_upto_zero_iff(rotk(code_grid(3), 2), code_val(8), 36);
            assert(rotk(code_grid(3), 2)[2] == code_bit(code_val(8), 2));
            assert(rotk(code_grid(3), 2)[2] == rotk(code_grid(3), 1)[18]);
            assert(rotk(code_grid(3), 1)[18] == rotk(code_grid(3), 0)[33]);
            assert(rotk(code_grid(3), 0)[33] == code_bit(code_val(3), 33));
            assert(false);
        }
    }
    if j == 9 {
        if ham(rotk(code_grid(3), 2), code_val(9)) == 0 {
            lemma_ham_upto_zero_iff(rotk(code_grid(3), 2), code_val(9), 36);
            assert(rotk(code_grid(3), 2)[2] == code_bit(code_val(9), 2));
            assert(rotk(code_grid(3), 2)[2] == rotk(code_grid(3), 1)[18]);
            assert(rotk(code_grid(3), 1)[18] == rotk(code_grid(3), 0)[33]);
            assert(rotk(code_grid(3), 0)[33] == code_bit(code_val(3), 33));
            assert(false);
        }
    }
    if j == 10 {
        if ham(rotk(code_grid(3), 2), code_val(10)) == 0 {
            lemma_ham_upto_zero_iff(rotk(code_grid(3), 2), code_val(10), 36);
            assert(rotk(code_grid(3), 2)[2] == code_bit(code_val(10), 2));
            assert(rotk(code_grid(3), 2)[2] == rotk(code_grid(3), 1)[18]);
            assert(rotk(code_grid(3), 1)[18] == rotk(code_grid(3), 0)[33]);
            assert(rotk(code_grid(3), 0)[33] == code_bit(code_val(3), 33));
            assert(false);
        }
    }
}

/// No codeword equals rotation 3 of codeword 3 (other than itself
/// unrotated).
proof fn lemma_separation_3_3(j: int)
    requires
        0 <= j < 11,
    ensures
        ham(rotk(code_grid(3), 3), code_val(j)) != 0,
{
    reveal_with_fuel(rotk, 6);
    lemma_code_bits_0();
    lemma_code_bits_1();
    lemma_code_bits_2();
    lemma_code_bits_3();
    lemma_code_bits_4();
    lemma_code_bits_5();
    lemma_code_bits_6();
    lemma_code_bits_7();
    lemma_code_bits_8();
    lemma_code_bits_9();
    lemma_code_bits_10();
    if j == 0 {
        if ham(rotk(code_grid(3), 3), code_val(0)) == 0 {
            lemma_ham_upto_zero_iff(rotk(code_grid(3), 3), code_val(0), 36);
            assert(rotk(code_grid(3), 3)[2] == code_bit(code_val(0), 2));
            assert(rotk(code_grid(3), 3)[2] == rotk(code_grid(3), 2)[18]);
            assert(rotk(code_grid(3), 2)[18] == rotk(code_grid(3), 1)[33]);
            assert(rotk(code_grid(3), 1)[33] == rotk(code_grid(3), 0)[17]);
            assert(rotk(code_grid(3), 0)[17] == code_bit(code_val(3), 17));
            assert(false);
        }
    }
    if j == 1 {
        if ham(rotk(code_grid(3), 3), code_val(1)) == 0 {
            lemma_ham_upto_zero_iff(rotk(code_grid(3), 3), code_val(1), 36);
            assert(rotk(code_grid(3), 3)[2] == code_bit(code_val(1), 2));
            assert(rotk(code_grid(3), 3)[2] == rotk(code_grid(3), 2)[18]);
            assert(rotk(code_grid(3), 2)[18] == rotk(code_grid(3), 1)[33]);
            assert(rotk(code_grid(3), 1)[33] == rotk(code_grid(3), 0)[17]);
            assert(rotk(code_grid(3), 0)[17] == code_bit(code_val(3), 17));
            assert(false);
        }
    }
    if j == 2 {
        if ham(rotk(code_grid(3), 3), code_val(2)) == 0 {
            lemma_ham_upto_zero_iff(rotk(code_grid(3), 3), code_val(2), 36);
            assert(rotk(code_grid(3), 3)[2] == code_bit(code_val(2), 2));
            assert(rotk(code_grid(3), 3)[2] == rotk(code_grid(3), 2)[18]);
            assert(rotk(code_grid(3), 2)[18] == rotk(code_grid(3), 1)[33]);
            assert(rotk(code_grid(3), 1)[33] == rotk(code_grid(3), 0)[17]);
            assert(rotk(code_grid(3), 0)[17] == code_bit(code_val(3), 17));
            assert(false);
        }
    }
    if j == 3 {
        if ham(rotk(code_grid(3), 3), code_val(3)) == 0 {
            lemma_ham_upto_zero_iff(rotk(code_grid(3), 3), code_val(3), 36);
            assert(rotk(code_grid(3), 3)[3] == code_bit(code_val(3), 3));
            assert(rotk(code_grid(3), 3)[3] == rotk(code_grid(3), 2)[12]);
            assert(rotk(code_grid(3), 2)[12] == rotk(code_grid(3), 1)[32]);
            assert(rotk(code_grid(3), 1)[32] == rotk(code_grid(3), 0)[23]);
            assert(rotk(code_grid(3), 0)[23] == code_bit(code_val(3), 23));
            assert(false);
        }
    }
    if j == 4 {
        if ham(rotk(code_grid(3), 3), code_val(4)) == 0 {
            lemma_ham_upto_zero_iff(rotk(code_grid(3), 3), code_val(4), 36);
            assert(rotk(code_grid(3), 3)[3] == code_bit(code_val(4), 3));
            assert(rotk(code_grid(3), 3)[3] == rotk(code_grid(3), 2)[12]);
            assert(rotk(code_grid(3), 2)[12] == rotk(code_grid(3), 1)[32]);
            assert(rotk(code_grid(3), 1)[32] == rotk(code_grid(3), 0)[23]);
            assert(rotk(code_grid(3), 0)[23] == code_bit(code_val(3), 23));
            assert(false);
        }
    }
    if j == 5 {
        if ham(rotk(code_grid(3), 3), code_val(5)) == 0 {
            lemma_ham_upto_zero_iff(rotk(code_grid(3), 3), code_val(5), 36);
            assert(rotk(code_grid(3), 3)[6] == code_bit(code_val(5), 6));
            assert(rotk(code_grid(3), 3)[6] == rotk(code_grid(3), 2)[31]);
            assert(rotk(code_grid(3), 2)[31] == rotk(code_grid(3), 1)[29]);
            assert(rotk(code_grid(3), 1)[29] == rotk(code_grid(3), 0)[4]);
            assert(rotk(code_grid(3), 0)[4] == code_bit(code_val(3), 4));
            assert(false);
        }
    }
    if j == 6 {
        if ham(rotk(code_grid(3), 3), code_val(6)) == 0 {
            lemma_ham_upto_zero_iff(rotk(code_grid(3), 3), code_val(6), 36);
            assert(rotk(code_grid(3), 3)[0] == code_bit(code_val(6), 0));
            assert(rotk(code_grid(3), 3)[0] == rotk(code_grid(3), 2)[30]);
            assert(rotk(code_grid(3), 2)[30] == rotk(code_grid(3), 1)[35]);
            assert(rotk(code_grid(3), 1)[35] == rotk(code_grid(3), 0)[5]);
            assert(rotk(code_grid(3), 0)[5] == code_bit(code_val(3), 5));
            assert(false);
        }
    }
    if j == 7 {
        if ham(rotk(code_grid(3), 3), code_val(7)) == 0 {
            lemma_ham_upto_zero_iff(rotk(code_grid(3), 3), code_val(7), 36);
            assert(rotk(code_grid(3), 3)[0] == code_bit(code_val(7), 0));
            assert(rotk(code_grid(3), 3)[0] == rotk(code_grid(3), 2)[30]);
            assert(rotk(code_grid(3), 2)[30] == rotk(code_grid(3), 1)[35]);
            assert(rotk(code_grid(3), 1)[35] == rotk(code_grid(3), 0)[5]);
            assert(rotk(code_grid(3), 0)[5] == code_bit(code_val(3), 5));
            assert(false);
        }
    }
    if j == 8 {
        if ham(rotk(code_grid(3), 3), code_val(8)) == 0 {
            lemma_ham_upto_zero_iff(rotk(code_grid(3), 3), code_val(8), 36);
            assert(rotk(code_grid(3), 3)[0] == code_bit(code_val(8), 0));
            assert(rotk(code_grid(3), 3)[0] == rotk(code_grid(3), 2)[30]);
            assert(rotk(code_grid(3), 2)[30] == rotk(code_grid(3), 1)[35]);
            assert(rotk(code_grid(3), 1)[35] == rotk(code_grid(3), 0)[5]);
            assert(rotk(code_grid(3), 0)[5] == code_bit(code_val(3), 5));
            assert(false);
        }
    }
    if j == 9 {
        if ham(rotk(code_grid(3), 3), code_val(9)) == 0 {
            lemma_ham_upto_zero_iff(rotk(code_grid(3), 3), code_val(9), 36);
            assert(rotk(code_grid(3), 3)[0] == code_bit(code_val(9), 0));
            assert(rotk(code_grid(3), 3)[0] == rotk(code_grid(3), 2)[30]);
            assert(rotk(code_grid(3), 2)[30] == rotk(code_grid(3), 1)[35]);
            assert(rotk(code_grid(3), 1)[35] == rotk(code_grid(3), 0)[5]);
            assert(rotk(code_grid(3), 0)[5] == code_bit(code_val(3), 5));
            assert(false);
        }
    }
    if j == 10 {
        if ham(rotk(code_grid(3), 3), code_val(10)) == 0 {
            lemma_ham_upto_zero_iff(rotk(code_grid(3), 3), code_val(10), 36);
            assert(rotk(code_grid(3), 3)[0] == code_bit(code_val(10), 0));
            assert(rotk(code_grid(3), 3)[0] == rotk(code_grid(3), 2)[30]);
            assert(rotk(code_grid(3), 2)[30] == rotk(code_grid(3), 1)[35]);
            assert(rotk(code_grid(3), 1)[35] == rotk(code_grid(3), 0)[5]);
            assert(rotk(code_grid(3), 0)[5] == code_bit(code_val(3), 5));
            assert(false);
        }
    }
}

/// No codeword equals rotation 0 of codeword 4 (other than itself
/// unrotated).
proof fn lemma_separation_4_0(j: int)
    requires
        0 <= j < 11,
        !(0 == 0 && j == 4),
    ensures
        ham(rotk(code_grid(4), 0), code_val(j)) != 0,
{
    reveal_with_fuel(rotk, 6);
    lemma_code_bits_0();
    lemma_code_bits_1();
    lemma_code_bits_2();
    lemma_code_bits_3();
    lemma_code_bits_4();
    lemma_code_bits_5();
    lemma_code_bits_6();
    lemma_code_bits_7();
    lemma_code_bits_8();
    lemma_code_bits_9();
    lemma_code_bits_10();
    if j == 0 {
        if ham(rotk(code_grid(4), 0), code_val(0)) == 0 {
            lemma_ham_upto_zero_iff(rotk(code_grid(4), 0), code_val(0), 36);
            assert(rotk(code_grid(4), 0)[2] == code_bit(code_val(0), 2));

            assert(rotk(code_grid(4), 0)[2] == code_bit(code_val(4), 2));
            assert(false);
        }
    }
    if j == 1 {
        if ham(rotk(code_grid(4), 0), code_val(1)) == 0 {
            lemma_ham_upto_zero_iff(rotk(code_grid(4), 0), code_val(1), 36);
            assert(rotk(code_grid(4), 0)[2] == code_bit(code_val(1), 2));

            assert(rotk(code_grid(4), 0)[2] == code_bit(code_val(4), 2));
            assert(false);
        }
    }
    if j == 2 {
        if ham(rotk(code_grid(4), 0), code_val(2)) == 0 {
            lemma_ham_upto_zero_iff(rotk(code_grid(4), 0), code_val(2), 36);
            assert(rotk(code_grid(4), 0)[2] == code_bit(code_val(2), 2));

            assert(rotk(code_grid(4), 0)[2] == code_bit(code_val(4), 2));
            assert(false);
        }
    }
    if j == 3 {
        if ham(rotk(code_grid(4), 0), code_val(3)) == 0 {
            lemma_ham_upto_zero_iff(rotk(code_grid(4), 0), code_val(3), 36);
            assert(rotk(code_grid(4), 0)[4] == code_bit(code_val(3), 4));

            assert(rotk(code_grid(4), 0)[4] == code_bit(code_val(4), 4));
            assert(false);
        }
    }
    if j == 5 {
        if ham(rotk(code_grid(4), 0), code_val(5)) == 0 {
            lemma_ham_upto_zero_iff(rotk(code_grid(4), 0), code_val(5), 36);
            assert(rotk(code_grid(4), 0)[3] == code_bit(code_val(5), 3));

            assert(rotk(code_grid(4), 0)[3] == code_bit(code_val(4), 3));
            assert(false);
        }
    }
    if j == 6 {
        if ham(rotk(code_grid(4), 0), code_val(6)) == 0 {
            lemma_ham_upto_zero_iff(rotk(code_grid(4), 0), code_val(6), 36);
            assert(rotk(code_grid(4), 0)[0] == code_bit(code_val(6), 0));

            assert(rotk(code_grid(4), 0)[0] == code_bit(code_val(4), 0));
            assert(false);
        }
    }
    if j == 7 {
        if ham(rotk(code_grid(4), 0), code_val(7)) == 0 {
            lemma_ham_upto_zero_iff(rotk(code_grid(4), 0), code_val(7), 36);
            assert(rotk(code_grid(4), 0)[0] == code_bit(code_val(7), 0));

            assert(rotk(code_grid(4), 0)[0] == code_bit(code_val(4), 0));
            assert(false);
        }
    }
    if j == 8 {
        if ham(rotk(code_grid(4), 0), code_val(8)) == 0 {
            lemma_ham_upto_zero_iff(rotk(code_grid(4), 0), code_val(8), 36);
            assert(rotk(code_grid(4), 0)[0] == code_bit(code_val(8), 0));

            assert(rotk(code_grid(4), 0)[0] == code_bit(code_val(4), 0));
            assert(false);
        }
    }
    if j == 9 {
        if ham(rotk(code_grid(4), 0), code_val(9)) == 0 {
            lemma_ham_upto_zero_iff(rotk(code_grid(4), 0), code_val(9), 36);
            assert(rotk(code_grid(4), 0)[0] == code_bit(code_val(9), 0));

            assert(rotk(code_grid(4), 0)[0] == code_bit(code_val(4), 0));
            assert(false);
        }
    }
    if j == 10 {
        if ham(rotk(code_grid(4), 0), code_val(10)) == 0 {
            lemma_ham_upto_zero_iff(rotk(code_grid(4), 0), code_val(10), 36);
            assert(rotk(code_grid(4), 0)[0] == code_bit(code_val(10), 0));

            assert(rotk(code_grid(4), 0)[0] == code_bit(code_val(4), 0));
            assert(false);
        }
    }
}

/// No codeword equals rotation 1 of codeword 4 (other than itself
/// unrotated).
proof fn lemma_separation_4_1(j: int)
    requires
        0 <= j < 11,
    ensures
        ham(rotk(code_grid(4), 1), code_val(j)) != 0,
{
    reveal_with_fuel(rotk, 6);
    lemma_code_bits_0();
    lemma_code_bits_1();
    lemma_code_bits_2();
    lemma_code_bits_3();
    lemma_code_bits_4();
    lemma_code_bits_5();
    lemma_code_bits_6();
    lemma_code_bits_7();
    lemma_code_bits_8();
    lemma_code_bits_9();
    lemma_code_bits_10();
    if j == 0 {
        if ham(rotk(code_grid(4), 1), code_val(0)) == 0 {
            lemma_ham_upto_zero_iff(rotk(code_grid(4), 1), code_val(0), 36);
            assert(rotk(code_grid(4), 1)[4] == code_bit(code_val(0), 4));
            assert(rotk(code_grid(4), 1)[4] == rotk(code_grid(4), 0)[6]);
            assert(rotk(code_grid(4), 0)[6] == code_bit(code_val(4), 6));
            assert(false);
        }
    }
    if j == 1 {
        if ham(rotk(code_grid(4), 1), code_val(1)) == 0 {
            lemma_ham_upto_zero_iff(rotk(code_grid(4), 1), code_val(1), 36);
            assert(rotk(code_grid(4), 1)[5] == code_bit(code_val(1), 5));
            assert(rotk(code_grid(4), 1)[5] == rotk(code_grid(4), 0)[0]);
            assert(rotk(code_grid(4), 0)[0] == code_bit(code_val(4), 0));
            assert(false);
        }
    }
    if j == 2 {
        if ham(rotk(code_grid(4), 1), code_val(2)) == 0 {
            lemma_ham_upto_zero_iff(rotk(code_grid(4), 1), code_val(2), 36);
            assert(rotk(code_grid(4), 1)[7] == code_bit(code_val(2), 7));
            assert(rotk(code_grid(4), 1)[7] == rotk(code_grid(4), 0)[25]);
            assert(rotk(code_grid(4), 0)[25] == code_bit(code_val(4), 25));
            assert(false);
        }
    }
    if j == 3 {
        if ham(rotk(code_grid(4), 1), code_val(3)) == 0 {
            lemma_ham_upto_zero_iff(rotk(code_grid(4), 1), code_val(3), 36);
            assert(rotk(code_grid(4), 1)[2] == code_bit(code_val(3), 2));
            assert(rotk(code_grid(4), 1)[2] == rotk(code_grid(4), 0)[18]);
            assert(rotk(code_grid(4), 0)[18] == code_bit(code_val(4), 18));
            assert(false);
        }
    }
    if j == 4 {
        if ham(rotk(code_grid(4), 1), code_val(4)) == 0 {
            lemma_ham_upto_zero_iff(rotk(code_grid(4), 1), code_val(4), 36);
            assert(rotk(code_grid(4), 1)[2] == code_bit(code_val(4), 2));
            assert(rotk(code_grid(4), 1)[2] == rotk(code_grid(4), 0)[18]);
            assert(rotk(code_grid(4), 0)[18] == code_bit(code_val(4), 18));
            assert(false);
        }
    }
    if j == 5 {
        if ham(rotk(code_grid(4), 1), code_val(5)) == 0 {
            lemma_ham_upto_zero_iff(rotk(code_grid(4), 1), code_val(5), 36);
            assert(rotk(code_grid(4), 1)[2] == code_bit(code_val(5), 2));
            assert(rotk(code_grid(4), 1)[2] == rotk(code_grid(4), 0)[18]);
            assert(rotk(code_grid(4), 0)[18] == code_bit(code_val(4), 18));
            assert(false);
        }
    }
    if j == 6 {
        if ham(rotk(code_grid(4), 1), code_val(6)) == 0 {
            lemma_ham_upto_zero_iff(rotk(code_grid(4), 1), code_val(6), 36);
            assert(rotk(code_grid(4), 1)[0] == code_bit(code_val(6), 0));
            assert(rotk(code_grid(4), 1)[0] == rotk(code_grid(4), 0)[30]);
            assert(rotk(code_grid(4), 0)[30] == code_bit(code_val(4), 30));
            assert(false);
        }
    }
    if j == 7 {
        if ham(rotk(code_grid(4), 1), code_val(7)) == 0 {
            lemma_ham_upto_zero_iff(rotk(code_grid(4), 1), code_val(7), 36);
            assert(rotk(code_grid(4), 1)[0] == code_bit(code_val(7), 0));
            assert(rotk(code_grid(4), 1)[0] == rotk(code_grid(4), 0)[30]);
            assert(rotk(code_grid(4), 0)[30] == code_bit(code_val(4), 30));
            assert(false);
        }
    }
    if j == 8 {
        if ham(rotk(code_grid(4), 1), code_val(8)) == 0 {
            lemma_ham_upto_zero_iff(rotk(code_grid(4), 1), code_val(8), 36);
            assert(rotk(code_grid(4), 1)[0] == code_bit(code_val(8), 0));
            assert(rotk(code_grid(4), 1)[0] == rotk(code_grid(4), 0)[30]);
            assert(rotk(code_grid(4), 0)[30] == code_bit(code_val(4), 30));
            assert(false);
        }
    }
    if j == 9 {
        if ham(rotk(code_grid(4), 1), code_val(9)) == 0 {
            lemma_ham_upto_zero_iff(rotk(code_grid(4), 1), code_val(9), 36);
            assert(rotk(code_grid(4), 1)[0] == code_bit(code_val(9), 0));
            assert(rotk(code_grid(4), 1)[0] == rotk(code_grid(4), 0)[30]);
            assert(rotk(code_grid(4), 0)[30] == code_bit(code_val(4), 30));
            assert(false);
        }
    }
    if j == 10 {
        if ham(rotk(code_grid(4), 1), code_val(10)) == 0 {
            lemma_ham_upto_zero_iff(rotk(code_grid(4), 1), code_val(10), 36);
            assert(rotk(code_grid(4), 1)[0] == code_bit(code_val(10), 0));
            assert(rotk(code_grid(4), 1)[0] == rotk(code_grid(4), 0)[30]);
            assert(rotk(code_grid(4), 0)[30] == code_bit(code_val(4), 30));
            assert(false);
        }
    }
}

/// No codeword equals rotation 2 of codeword 4 (other than itself
/// unrotated).
proof fn lemma_separation_4_2(j: int)
    requires
        0 <= j < 11,
    ensures
        ham(rotk(code_grid(4), 2), code_val(j)) != 0,
{
    reveal_with_fuel(rotk, 6);
    lemma_code_bits_0();
    lemma_code_bits_1();
    lemma_code_bits_2();
    lemma_code_bits_3();
    lemma_code_bits_4();
    lemma_code_bits_5();
    lemma_code_bits_6();
    lemma_code_bits_7();
    lemma_code_bits_8();
    lemma_code_bits_9();
    lemma_code_bits_10();
    if j == 0 {
        if ham(rotk(code_grid(4), 2), code_val(0)) == 0 {
            lemma_ham_upto_zero_iff(rotk(code_grid(4), 2), code_val(0), 36);
            assert(rotk(code_grid(4), 2)[0] == code_bit(code_val(0), 0));
            assert(rotk(code_grid(4), 2)[0] == rotk(code_grid(4), 1)[30]);
            assert(rotk(code_grid(4), 1)[30] == rotk(code_grid(4), 0)[35]);
            assert(rotk(code_grid(4), 0)[35] == code_bit(code_val(4), 35));
            assert(false);
        }
    }
    if j == 1 {
        if ham(rotk(code_grid(4), 2), code_val(1)) == 0 {
            lemma_ham_upto_zero_iff(rotk(code_grid(4), 2), code_val(1), 36);
            assert(rotk(code_grid(4), 2)[0] == code_bit(code_val(1), 0));
            assert(rotk(code_grid(4), 2)[0] == rotk(code_grid(4), 1)[30]);
            assert(rotk(code_grid(4), 1)[30] == rotk(code_grid(4), 0)[35]);
            assert(rotk(code_grid(4), 0)[35] == code_bit(code_val(4), 35));
            assert(false);
        }
    }
    if j == 2 {
        if ham(rotk(code_grid(4), 2), code_val(2)) == 0 {
            lemma_ham_upto_zero_iff(rotk(code_grid(4), 2), code_val(2), 36);
            assert(rotk(code_grid(4), 2)[0] == code_bit(code_val(2), 0));
            assert(rotk(code_grid(4), 2)[0] == rotk(code_grid(4), 1)[30]);
            assert(rotk(code_grid(4), 1)[30] == rotk(code_grid(4), 0)[35]);
            assert(rotk(code_grid(4), 0)[35] == code_bit(code_val(4), 35));
            assert(false);
        }
    }
    if j == 3 {
        if ham(rotk(code_grid(4), 2), code_val(3)) == 0 {
            lemma_ham_upto_zero_iff(rotk(code_grid(4), 2), code_val(3), 36);
            assert(rotk(code_grid(4), 2)[0] == code_bit(code_val(3), 0));
            assert(rotk(code_grid(4), 2)[0] == rotk(code_grid(4), 1)[30]);
            assert(rotk(code_grid(4), 1)[30] == rotk(code_grid(4), 0)[35]);
            assert(rotk(code_grid(4), 0)[35] == code_bit(code_val(4), 35));
            assert(false);
        }
    }
    if j == 4 {
        if ham(rotk(code_grid(4), 2), code_val(4)) == 0 {
            lemma_ham_upto_zero_iff(rotk(code_grid(4), 2), code_val(4), 36);
            assert(rotk(code_grid(4), 2)[0] == code_bit(code_val(4), 0));
            assert(rotk(code_grid(4), 2)[0] == rotk(code_grid(4), 1)[30]);
            assert(rotk(code_grid(4), 1)[30] == rotk(code_grid(4), 0)[35]);
            assert(rotk(code_grid(4), 0)[35] == code_bit(code_val(4), 35));
            assert(false);
        }
    }
    if j == 5 {
        if ham(rotk(code_grid(4), 2), code_val(5)) == 0 {
            lemma_ham_upto_zero_iff(rotk(code_grid(4), 2), code_val(5), 36);
            assert(rotk(code_grid(4), 2)[0] == code_bit(code_val(5), 0));
            assert(rotk(code_grid(4), 2)[0] == rotk(code_grid(4), 1)[30]);
            assert(rotk(code_grid(4), 1)[30] == rotk(code_grid(4), 0)[35]);
            assert(rotk(code_grid(4), 0)[35] == code_bit(code_val(4), 35));
            assert(false);
        }
    }
    if j == 6 {
        if ham(rotk(code_grid(4), 2), code_val(6)) == 0 {
            lemma_ham_upto_zero_iff(rotk(code_grid(4), 2), code_val(6), 36);
            assert(rotk(code_grid(4), 2)[1] == code_bit(code_val(6), 1));
            assert(rotk(code_grid(4), 2)[1] == rotk(code_grid(4), 1)[24]);
            assert(rotk(code_grid(4), 1)[24] == rotk(code_grid(4), 0)[34]);
            assert(rotk(code_grid(4), 0)[34] == code_bit(code_val(4), 34));
            assert(false);
        }
    }
    if j == 7 {
        if ham(rotk(code_grid(4), 2), code_val(7)) == 0 {
            lemma_ham_upto_zero_iff(rotk(code_grid(4), 2), code_val(7), 36);
            assert(rotk(code_grid(4), 2)[1] == code_bit(code_val(7), 1));
            assert(rotk(code_grid(4), 2)[1] == rotk(code_grid(4), 1)[24]);
            assert(rotk(code_grid(4), 1)[24] == rotk(code_grid(4), 0)[34]);
            assert(rotk(code_grid(4), 0)[34] == code_bit(code_val(4), 34));
            assert(false);
        }
    }
    if j == 8 {
        if ham(rotk(code_grid(4), 2), code_val(8)) == 0 {
            lemma_ham_upto_zero_iff(rotk(code_grid(4), 2), code_val(8), 36);
            assert(rotk(code_grid(4), 2)[1] == code_bit(code_val(8), 1));
            assert(rotk(code_grid(4), 2)[1] == rotk(code_grid(4), 1)[24]);
            assert(rotk(code_grid(4), 1)[24] == rotk(code_grid(4), 0)[34]);
            assert(rotk(code_grid(4), 0)[34] == code_bit(code_val(4), 34));
            assert(false);
        }
    }
    if j == 9 {
        if ham(rotk(code_grid(4), 2), code_val(9)) == 0 {
            lemma_ham_upto_zero_iff(rotk(code_grid(4), 2), code_val(9), 36);
            assert(rotk(code_grid(4), 2)[1] == code_bit(code_val(9), 1));
            assert(rotk(code_grid(4), 2)[1] == rotk(code_grid(4), 1)[24]);
            assert(rotk(code_grid(4), 1)[24] == rotk(code_grid(4), 0)[34]);
            assert(rotk(code_grid(4), 0)[34] == code_bit(code_val(4), 34));
            assert(false);
        }
    }
    if j == 10 {
        if ham(rotk(code_grid(4), 2), code_val(10)) == 0 {
            lemma_ham_upto_zero_iff(rotk(code_grid(4), 2), code_val(10), 36);
            assert(rotk(code_grid(4), 2)[1] == code_bit(code_val(10), 1));
            assert(rotk(code_grid(4), 2)[1] == rotk(code_grid(4), 1)[24]);
            assert(rotk(code_grid(4), 1)[24] == rotk(code_grid(4), 0)[34]);
            assert(rotk(code_grid(4), 0)[34] == code_bit(code_val(4), 34));
            assert(false);
        }
    }
}

/// No codeword equals rotation 3 of codeword 4 (other than itself
/// unrotated).
proof fn lemma_separation_4_3(j: int)
    requires
        0 <= j < 11,
    ensures
        ham(rotk(code_grid(4), 3), code_val(j)) != 0,
{
    reveal_with_fuel(rotk, 6);
    lemma_code_bits_0();
    lemma_code_bits_1();
    lemma_code_bits_2();
    lemma_code_bits_3();
    lemma_code_bits_4();
    lemma_code_bits_5();
    lemma_code_bits_6();
    lemma_code_bits_7();
    lemma_code_bits_8();
    lemma_code_bits_9();
    lemma_code_bits_10();
    if j == 0 {
        if ham(rotk(code_grid(4), 3), code_val(0)) == 0 {
            lemma_ham_upto_zero_iff(rotk(code_grid(4), 3), code_val(0), 36);
            assert(rotk(code_grid(4), 3)[0] == code_bit(code_val(0), 0));
            assert(rotk(code_grid(4), 3)[0] == rotk(code_grid(4), 2)[30]);
            assert(rotk(code_grid(4), 2)[30] == rotk(code_grid(4), 1)[35]);
            assert(rotk(code_grid(4), 1)[35] == rotk(code_grid(4), 0)[5]);
            assert(rotk(code_grid(4), 0)[5] == code_bit(code_val(4), 5));
            assert(false);
        }
    }
    if j == 1 {
        if ham(rotk(code_grid(4), 3), code_val(1)) == 0 {
            lemma_ham_upto_zero_iff(rotk(code_grid(4), 3), code_val(1), 36);
            assert(rotk(code_grid(4), 3)[0] == code_bit(code_val(1), 0));
            assert(rotk(code_grid(4), 3)[0] == rotk(code_grid(4), 2)[30]);
            assert(rotk(code_grid(4), 2)[30] == rotk(code_grid(4), 1)[35]);
            assert(rotk(code_grid(4), 1)[35] == rotk(code_grid(4), 0)[5]);
            assert(rotk(code_grid(4), 0)[5] == code_bit(code_val(4), 5));
            assert(false);
        }
    }
    if j == 2 {
        if ham(rotk(code_grid(4), 3), code_val(2)) == 0 {
            lemma_ham_upto_zero_iff(rotk(code_grid(4), 3), code_val(2), 36);
            assert(rotk(code_grid(4), 3)[0] == code_bit(code_val(2), 0));
            assert(rotk(code_grid(4), 3)[0] == rotk(code_grid(4), 2)[30]);
            assert(rotk(code_grid(4), 2)[30] == rotk(code_grid(4), 1)[35]);
            assert(rotk(code_grid(4), 1)[35] == rotk(code_grid(4), 0)[5]);
            assert(rotk(code_grid(4), 0)[5] == code_bit(code_val(4), 5));
            assert(false);
        }
    }
    if j == 3 {
        if ham(rotk(code_grid(4), 3), code_val(3)) == 0 {
            lemma_ham_upto_zero_iff(rotk(code_grid(4), 3), code_val(3), 36);
            assert(rotk(code_grid(4), 3)[0] == code_bit(code_val(3), 0));
            assert(rotk(code_grid(4), 3)[0] == rotk(code_grid(4), 2)[30]);
            assert(rotk(code_grid(4), 2)[30] == rotk(code_grid(4), 1)[35]);
            assert(rotk(code_grid(4), 1)[35] == rotk(code_grid(4), 0)[5]);
            assert(rotk(code_grid(4), 0)[5] == code_bit(code_val(4), 5));
            assert(false);
        }
    }
    if j == 4 {
        if ham(rotk(code_grid(4), 3), code_val(4)) == 0 {
            lemma_ham_upto_zero_iff(rotk(code_grid(4), 3), code_val(4), 36);
            assert(rotk(code_grid(4), 3)[0] == code_bit(code_val(4), 0));
            assert(rotk(code_grid(4), 3)[0] == rotk(code_grid(4), 2)[30]);
            assert(rotk(code_grid(4), 2)[30] == rotk(code_grid(4), 1)[35]);
            assert(rotk(code_grid(4), 1)[35] == rotk(code_grid(4), 0)[5]);
            assert(rotk(code_grid(4), 0)[5] == code_bit(code_val(4), 5));
            assert(false);
        }
    }
    if j == 5 {
        if ham(rotk(code_grid(4), 3), code_val(5)) == 0 {
            lemma_ham_upto_zero_iff(rotk(code_grid(4), 3), code_val(5), 36);
            assert(rotk(code_grid(4), 3)[0] == code_bit(code_val(5), 0));
            assert(rotk(code_grid(4), 3)[0] == rotk(code_grid(4), 2)[30]);
            assert(rotk(code_grid(4), 2)[30] == rotk(code_grid(4), 1)[35]);
            assert(rotk(code_grid(4), 1)[35] == rotk(code_grid(4), 0)[5]);
            assert(rotk(code_grid(4), 0)[5] == code_bit(code_val(4), 5));
            assert(false);
        }
    }
    if j == 6 {
        if ham(rotk(code_grid(4), 3), code_val(6)) == 0 {
            lemma_ham_upto_zero_iff(rotk(code_grid(4), 3), code_val(6), 36);
            assert(rotk(code_grid(4), 3)[2] == code_bit(code_val(6), 2));
            assert(rotk(code_grid(4), 3)[2] == rotk(code_grid(4), 2)[18]);
            assert(rotk(code_grid(4), 2)[18] == rotk(code_grid(4), 1)[33]);
            assert(rotk(code_grid(4), 1)[33] == rotk(code_grid(4), 0)[17]);
            assert(rotk(code_grid(4), 0)[17] == code_bit(code_val(4), 17));
            assert(false);
        }
    }
    if j == 7 {
        if ham(rotk(code_grid(4), 3), code_val(7)) == 0 {
            lemma_ham_upto_zero_iff(rotk(code_grid(4), 3), code_val(7), 36);
            assert(rotk(code_grid(4), 3)[2] == code_bit(code_val(7), 2));
            assert(rotk(code_grid(4), 3)[2] == rotk(code_grid(4), 2)[18]);
            assert(rotk(code_grid(4), 2)[18] == rotk(code_grid(4), 1)[33]);
            assert(rotk(code_grid(4), 1)[33] == rotk(code_grid(4), 0)[17]);
            assert(rotk(code_grid(4), 0)[17] == code_bit(code_val(4), 17));
            assert(false);
        }
    }
    if j == 8 {
        if ham(rotk(code_grid(4), 3), code_val(8)) == 0 {
            lemma_ham_upto_zero_iff(rotk(code_grid(4), 3), code_val(8), 36);
            assert(rotk(code_grid(4), 3)[9] == code_bit(code_val(8), 9));
            assert(rotk(code_grid(4), 3)[9] == rotk(code_grid(4), 2)[13]);
            assert(rotk(code_grid(4), 2)[13] == rotk(code_grid(4), 1)[26]);
            assert(rotk(code_grid(4), 1)[26] == rotk(code_grid(4), 0)[22]);
            assert(rotk(code_grid(4), 0)[22] == code_bit(code_val(4), 22));
            assert(false);
        }
    }
    if j == 9 {
        if ham(rotk(code_grid(4), 3), code_val(9)) == 0 {
            lemma_ham_upto_zero_iff(rotk(code_grid(4), 3), code_val(9), 36);
            assert(rotk(code_grid(4), 3)[5] == code_bit(code_val(9), 5));
            assert(rotk(code_grid(4), 3)[5] == rotk(code_grid(4), 2)[0]);
            assert(rotk(code_grid(4), 2)[0] == rotk(code_grid(4), 1)[30]);
            assert(rotk(code_grid(4), 1)[30] == rotk(code_grid(4), 0)[35]);
            assert(rotk(code_grid(4), 0)[35] == code_bit(code_val(4), 35));
            assert(false);
        }
    }
    if j == 10 {
        if ham(rotk(code_grid(4), 3), code_val(10)) == 0 {
            lemma_ham_upto_zero_iff(rotk(code_grid(4), 3), code_val(10), 36);
            assert(rotk(code_grid(4), 3)[3] == code_bit(code_val(10), 3));
            assert(rotk(code_grid(4), 3)[3] == rotk(code_grid(4), 2)[12]);
            assert(rotk(code_grid(4), 2)[12] == rotk(code_grid(4), 1)[32]);
            assert(rotk(code_grid(4), 1)[32] == rotk(code_grid(4), 0)[23]);
            assert(rotk(code_grid(4), 0)[23] == code_bit(code_val(4), 23));
            assert(false);
        }
    }
}

/// No codeword equals rotation 0 of codeword 5 (other than itself
/// unrotated).
proof fn lemma_separation_5_0(j: int)
    requires
        0 <= j < 11,
        !(0 == 0 && j == 5),
    ensures
        ham(rotk(code_grid(5), 0), code_val(j)) != 0,
{
    reveal_with_fuel(rotk, 6);
    lemma_code_bits_0();
    lemma_code_bits_1();
    lemma_code_bits_2();
    lemma_code_bits_3();
    lemma_code_bits_4();
    lemma_code_bits_5();
    lemma_code_bits_6();
    lemma_code_bits_7();
    lemma_code_bits_8();
    lemma_code_bits_9();
    lemma_code_bits_10();
    if j == 0 {
        if ham(rotk(code_grid(5), 0), code_val(0)) == 0 {
            lemma_ham_upto_zero_iff(rotk(code_grid(5), 0), code_val(0), 36);
            assert(rotk(code_grid(5), 0)[2] == code_bit(code_val(0), 2));

            assert(rotk(code_grid(5), 0)[2] == code_bit(code_val(5), 2));
            assert(false);
        }
    }
    if j == 1 {
        if ham(rotk(code_grid(5), 0), code_val(1)) == 0 {
            lemma_ham_upto_zero_iff(rotk(code_grid(5), 0), code_val(1), 36);
            assert(rotk(code_grid(5), 0)[2] == code_bit(code_val(1), 2));

            assert(rotk(code_grid(5), 0)[2] == code_bit(code_val(5), 2));
            assert(false);
        }
    }
    if j == 2 {
        if ham(rotk(code_grid(5), 0), code_val(2)) == 0 {
            lemma_ham_upto_zero_iff(rotk(code_grid(5), 0), code_val(2), 36);
            assert(rotk(code_grid(5), 0)[2] == code_bit(code_val(2), 2));

            assert(rotk(code_grid(5), 0)[2] == code_bit(code_val(5), 2));
            assert(false);
        }
    }
    if j == 3 {
        if ham(rotk(code_grid(5), 0), code_val(3)) == 0 {
            lemma_ham_upto_zero_iff(rotk(code_grid(5), 0), code_val(3), 36);
            assert(rotk(code_grid(5), 0)[3] == code_bit(code_val(3), 3));

            assert(rotk(code_grid(5), 0)[3] == code_bit(code_val(5), 3));
            assert(false);
        }
    }
    if j == 4 {
        if ham(rotk(code_grid(5), 0), code_val(4)) == 0 {
            lemma_ham_upto_zero_iff(rotk(code_grid(5), 0), code_val(4), 36);
            assert(rotk(code_grid(5), 0)[3] == code_bit(code_val(4), 3));

            assert(rotk(code_grid(5), 0)[3] == code_bit(code_val(5), 3));
            assert(false);
        }
    }
    if j == 6 {
        if ham(rotk(code_grid(5), 0), code_val(6)) == 0 {
            lemma_ham_upto_zero_iff(rotk(code_grid(5), 0), code_val(6), 36);
            assert(rotk(code_grid(5), 0)[0] == code_bit(code_val(6), 0));

            assert(rotk(code_grid(5), 0)[0] == code_bit(code_val(5), 0));
            assert(false);
        }
    }
    if j == 7 {
        if ham(rotk(code_grid(5), 0), code_val(7)) == 0 {
            lemma_ham_upto_zero_iff(rotk(code_grid(5), 0), code_val(7), 36);
            assert(rotk(code_grid(5), 0)[0] == code_bit(code_val(7), 0));

            assert(rotk(code_grid(5), 0)[0] == code_bit(code_val(5), 0));
            assert(false);
        }
    }
    if j == 8 {
        if ham(rotk(code_grid(5), 0), code_val(8)) == 0 {
            lemma_ham_upto_zero_iff(rotk(code_grid(5), 0), code_val(8), 36);
            assert(rotk(code_grid(5), 0)[0] == code_bit(code_val(8), 0));

            assert(rotk(code_grid(5), 0)[0] == code_bit(code_val(5), 0));
            assert(false);
        }
    }
    if j == 9 {
        if ham(rotk(code_grid(5), 0), code_val(9)) == 0 {
            lemma_ham_upto_zero_iff(rotk(code_grid(5), 0), code_val(9), 36);
            assert(rotk(code_grid(5), 0)[0] == code_bit(code_val(9), 0));

            assert(rotk(code_grid(5), 0)[0] == code_bit(code_val(5), 0));
            assert(false);
        }
    }
    if j == 10 {
        if ham(rotk(code_grid(5), 0), code_val(10)) == 0 {
            lemma_ham_upto_zero_iff(rotk(code_grid(5), 0), code_val(10), 36);
            assert(rotk(code_grid(5), 0)[0] == code_bit(code_val(10), 0));

            assert(rotk(code_grid(5), 0)[0] == code_bit(code_val(5), 0));
            assert(false);
        }
    }
}

/// No codeword equals rotation 1 of codeword 5 (other than itself
/// unrotated).
proof fn lemma_separation_5_1(j: int)
    requires
        0 <= j < 11,
    ensures
        ham(rotk(code_grid(5), 1), code_val(j)) != 0,
{
    reveal_with_fuel(rotk, 6);
    lemma_code_bits_0();
    lemma_code_bits_1();
    lemma_code_bits_2();
    lemma_code_bits_3();
    lemma_code_bits_4();
    lemma_code_bits_5();
    lemma_code_bits_6();
    lemma_code_bits_7();
    lemma_code_bits_8();
    lemma_code_bits_9();
    lemma_code_bits_10();
    if j == 0 {
        if ham(rotk(code_grid(5), 1), code_val(0)) == 0 {
            lemma_ham_upto_zero_iff(rotk(code_grid(5), 1), code_val(0), 36);
            assert(rotk(code_grid(5), 1)[1] == code_bit(code_val(0), 1));
            assert(rotk(code_grid(5), 1)[1] == rotk(code_grid(5), 0)[24]);
            assert(rotk(code_grid(5), 0)[24] == code_bit(code_val(5), 24));
            assert(false);
        }
    }
    if j == 1 {
        if ham(rotk(code_grid(5), 1), code_val(1)) == 0 {
            lemma_ham_upto_zero_iff(rotk(code_grid(5), 1), code_val(1), 36);
            assert(rotk(code_grid(5), 1)[1] == code_bit(code_val(1), 1));
            assert(rotk(code_grid(5), 1)[1] == rotk(code_grid(5), 0)[24]);
            assert(rotk(code_grid(5), 0)[24] == code_bit(code_val(5), 24));
            assert(false);
        }
    }
    if j == 2 {
        if ham(rotk(code_grid(5), 1), code_val(2)) == 0 {
            lemma_ham_upto_zero_iff(rotk(code_grid(5), 1), code_val(2), 36);
            assert(rotk(code_grid(5), 1)[1] == code_bit(code_val(2), 1));
            assert(rotk(code_grid(5), 1)[1] == rotk(code_grid(5), 0)[24]);
            assert(rotk(code_grid(5), 0)[24] == code_bit(code_val(5), 24));
            assert(false);
        }
    }
    if j == 3 {
        if ham(rotk(code_grid(5), 1), code_val(3)) == 0 {
            lemma_ham_upto_zero_iff(rotk(code_grid(5), 1), code_val(3), 36);
            assert(rotk(code_grid(5), 1)[1] == code_bit(code_val(3), 1));
            assert(rotk(code_grid(5), 1)[1] == rotk(code_grid(5), 0)[24]);
            assert(rotk(code_grid(5), 0)[24] == code_bit(code_val(5), 24));
            assert(false);
        }
    }
    if j == 4 {
        if ham(rotk(code_grid(5), 1), code_val(4)) == 0 {
            lemma_ham_upto_zero_iff(rotk(code_grid(5), 1), code_val(4), 36);
            assert(rotk(code_grid(5), 1)[1] == code_bit(code_val(4), 1));
            assert(rotk(code_grid(5), 1)[1] == rotk(code_grid(5), 0)[24]);
            assert(rotk(code_grid(5), 0)[24] == code_bit(code_val(5), 24));
            assert(false);
        }
    }
    if j == 5 {
        if ham(rotk(code_grid(5), 1), code_val(5)) == 0 {
            lemma_ham_upto_zero_iff(rotk(code_grid(5), 1), code_val(5), 36);
            assert(rotk(code_grid(5), 1)[1] == code_bit(code_val(5), 1));
            assert(rotk(code_grid(5), 1)[1] == rotk(code_grid(5), 0)[24]);
            assert(rotk(code_grid(5), 0)[24] == code_bit(code_val(5), 24));
            assert(false);
        }
    }
    if j == 6 {
        if ham(rotk(code_grid(5), 1), code_val(6)) == 0 {
            lemma_ham_upto_zero_iff(rotk(code_grid(5), 1), code_val(6), 36);
            assert(rotk(code_grid(5), 1)[0] == code_bit(code_val(6), 0));
            assert(rotk(code_grid(5), 1)[0] == rotk(code_grid(5), 0)[30]);
            assert(rotk(code_grid(5), 0)[30] == code_bit(code_val(5), 30));
            assert(false);
        }
    }
    if j == 7 {
        if ham(rotk(code_grid(5), 1), code_val(7)) == 0 {
            lemma_ham_upto_zero_iff(rotk(code_grid(5), 1), code_val(7), 36);
            assert(rotk(code_grid(5), 1)[0] == code_bit(code_val(7), 0));
            assert(rotk(code_grid(5), 1)[0] == rotk(code_grid(5), 0)[30]);
            assert(rotk(code_grid(5), 0)[30] == code_bit(code_val(5), 30));
            assert(false);
        }
    }
    if j == 8 {
        if ham(rotk(code_grid(5), 1), code_val(8)) == 0 {
            lemma_ham_upto_zero_iff(rotk(code_grid(5), 1), code_val(8), 36);
            assert(rotk(code_grid(5), 1)[0] == code_bit(code_val(8), 0));
            assert(rotk(code_grid(5), 1)[0] == rotk(code_grid(5), 0)[30]);
            assert(rotk(code_grid(5), 0)[30] == code_bit(code_val(5), 30));
            assert(false);
        }
    }
    if j == 9 {
        if ham(rotk(code_grid(5), 1), code_val(9)) == 0 {
            lemma_ham_upto_zero_iff(rotk(code_grid(5), 1), code_val(9), 36);
            assert(rotk(code_grid(5), 1)[0] == code_bit(code_val(9), 0));
            assert(rotk(code_grid(5), 1)[0] == rotk(code_grid(5), 0)[30]);
            assert(rotk(code_grid(5), 0)[30] == code_bit(code_val(5), 30));
            assert(false);
        }
    }
    if j == 10 {
        if ham(rotk(code_grid(5), 1), code_val(10)) == 0 {
            lemma_ham_upto_zero_iff(rotk(code_grid(5), 1), code_val(10), 36);
            assert(rotk(code_grid(5), 1)[0] == code_bit(code_val(10), 0));
            assert(rotk(code_grid(5), 1)[0] == rotk(code_grid(5), 0)[30]);
            assert(rotk(code_grid(5), 0)[30] == code_bit(code_val(5), 30));
            assert(false);
        }
    }
}

/// No codeword equals rotation 2 of codeword 5 (other than itself
/// unrotated).
proof fn lemma_separation_5_2(j: int)
    requires
        0 <= j < 11,
    ensures
        ham(rotk(code_grid(5), 2), code_val(j)) != 0,
{
    reveal_with_fuel(rotk, 6);
    lemma_code_bits_0();
    lemma_code_bits_1();
    lemma_code_bits_2();
    lemma_code_bits_3();
    lemma_code_bits_4();
    lemma_code_bits_5();
    lemma_code_bits_6();
    lemma_code_bits_7();
    lemma_code_bits_8();
    lemma_code_bits_9();
    lemma_code_bits_10();
    if j == 0 {
        if ham(rotk(code_grid(5), 2), code_val(0)) == 0 {
            lemma_ham_upto_zero_iff(rotk(code_grid(5), 2), code_val(0), 36);
            assert(rotk(code_grid(5), 2)[0] == code_bit(code_val(0), 0));
            assert(rotk(code_grid(5), 2)[0] == rotk(code_grid(5), 1)[30]);
            assert(rotk(code_grid(5), 1)[30] == rotk(code_grid(5), 0)[35]);
            assert(rotk(code_grid(5), 0)[35] == code_bit(code_val(5), 35));
            assert(false);
        }
    }
    if j == 1 {
        if ham(rotk(code_grid(5), 2), code_val(1)) == 0 {
            lemma_ham_upto_zero_iff(rotk(code_grid(5), 2), code_val(1), 36);
            assert(rotk(code_grid(5), 2)[0] == code_bit(code_val(1), 0));
            assert(rotk(code_grid(5), 2)[0] == rotk(code_grid(5), 1)[30]);
            assert(rotk(code_grid(5), 1)[30] == rotk(code_grid(5), 0)[35]);
            assert(rotk(code_grid(5), 0)[35] == code_bit(code_val(5), 35));
            assert(false);
        }
    }
    if j == 2 {
        if ham(rotk(code_grid(5), 2), code_val(2)) == 0 {
            lemma_ham_upto_zero_iff(rotk(code_grid(5), 2), code_val(2), 36);
            assert(rotk(code_grid(5), 2)[0] == code_bit(code_val(2), 0));
            assert(rotk(code_grid(5), 2)[0] == rotk(code_grid(5), 1)[30]);
            assert(rotk(code_grid(5), 1)[30] == rotk(code_grid(5), 0)[35]);
            assert(rotk(code_grid(5), 0)[35] == code_bit(code_val(5), 35));
            assert(false);
        }
    }
    if j == 3 {
        if ham(rotk(code_grid(5), 2), code_val(3)) == 0 {
            lemma_ham_upto_zero_iff(rotk(code_grid(5), 2), code_val(3), 36);
            assert(rotk(code_grid(5), 2)[0] == code_bit(code_val(3), 0));
            assert(rotk(code_grid(5), 2)[0] == rotk(code_grid(5), 1)[30]);
            assert(rotk(code_grid(5), 1)[30] == rotk(code_grid(5), 0)[35]);
            assert(rotk(code_grid(5), 0)[35] == code_bit(code_val(5), 35));
            assert(false);
        }
    }
    if j == 4 {
        if ham(rotk(code_grid(5), 2), code_val(4)) == 0 {
            lemma_ham_upto_zero_iff(rotk(code_grid(5), 2), code_val(4), 36);
            assert(rotk(code_grid(5), 2)[0] == code_bit(code_val(4), 0));
            assert(rotk(code_grid(5), 2)[0] == rotk(code_grid(5), 1)[30]);
            assert(rotk(code_grid(5), 1)[30] == rotk(code_grid(5), 0)[35]);
            assert(rotk(code_grid(5), 0)[35] == code_bit(code_val(5), 35));
            assert(false);
        }
    }
    if j == 5 {
        if ham(rotk(code_grid(5), 2), code_val(5)) == 0 {
            lemma_ham_upto_zero_iff(rotk(code_grid(5), 2), code_val(5), 36);
            assert(rotk(code_grid(5), 2)[0] == code_bit(code_val(5), 0));
            assert(rotk(code_grid(5), 2)[0] == rotk(code_grid(5), 1)[30]);
            assert(rotk(code_grid(5), 1)[30] == rotk(code_grid(5), 0)[35]);
            assert(rotk(code_grid(5), 0)[35] == code_bit(code_val(5), 35));
            assert(false);
        }
    }
    if j == 6 {
        if ham(rotk(code_grid(5), 2), code_val(6)) == 0 {
            lemma_ham_upto_zero_iff(rotk(code_grid(5), 2), code_val(6), 36);
            assert(rotk(code_grid(5), 2)[2] == code_bit(code_val(6), 2));
            assert(rotk(code_grid(5), 2)[2] == rotk(code_grid(5), 1)[18]);
            assert(rotk(code_grid(5), 1)[18] == rotk(code_grid(5), 0)[33]);
            assert(rotk(code_grid(5), 0)[33] == code_bit(code_val(5), 33));
            assert(false);
        }
    }
    if j == 7 {
        if ham(rotk(code_grid(5), 2), code_val(7)) == 0 {
            lemma_ham_upto_zero_iff(rotk(code_grid(5), 2), code_val(7), 36);
            assert(rotk(code_grid(5), 2)[2] == code_bit(code_val(7), 2));
            assert(rotk(code_grid(5), 2)[2] == rotk(code_grid(5), 1)[18]);
            assert(rotk(code_grid(5), 1)[18] == rotk(code_grid(5), 0)[33]);
            assert(rotk(code_grid(5), 0)[33] == code_bit(code_val(5), 33));
            assert(false);
        }
    }
    if j == 8 {
        if ham(rotk(code_grid(5), 2), code_val(8)) == 0 {
            lemma_ham_upto_zero_iff(rotk(code_grid(5), 2), code_val(8), 36);
            assert(rotk(code_grid(5), 2)[3] == code_bit(code_val(8), 3));
            assert(rotk(code_grid(5), 2)[3] == rotk(code_grid(5), 1)[12]);
            assert(rotk(code_grid(5), 1)[12] == rotk(code_grid(5), 0)[32]);
            assert(rotk(code_grid(5), 0)[32] == code_bit(code_val(5), 32));
            assert(false);
        }
    }
    if j == 9 {
        if ham(rotk(code_grid(5), 2), code_val(9)) == 0 {
            lemma_ham_upto_zero_iff(rotk(code_grid(5), 2), code_val(9), 36);
            assert(rotk(code_grid(5), 2)[3] == code_bit(code_val(9), 3));
            assert(rotk(code_grid(5), 2)[3] == rotk(code_grid(5), 1)[12]);
            assert(rotk(code_grid(5), 1)[12] == rotk(code_grid(5), 0)[32]);
            assert(rotk(code_grid(5), 0)[32] == code_bit(code_val(5), 32));
            assert(false);
        }
    }
    if j == 10 {
        if ham(rotk(code_grid(5), 2), code_val(10)) == 0 {
            lemma_ham_upto_zero_iff(rotk(code_grid(5), 2), code_val(10), 36);
            assert(rotk(code_grid(5), 2)[7] == code_bit(code_val(10), 7));
            assert(rotk(code_grid(5), 2)[7] == rotk(code_grid(5), 1)[25]);
            assert(rotk(code_grid(5), 1)[25] == rotk(code_grid(5), 0)[28]);
            assert(rotk(code_grid(5), 0)[28] == code_bit(code_val(5), 28));
            assert(false);
        }
    }
}

/// No codeword equals rotation 3 of codeword 5 (other than itself
/// unrotated).
proof fn lemma_separation_5_3(j: int)
    requires
        0 <= j < 11,
    ensures
        ham(rotk(code_grid(5), 3), code_val(j)) != 0,
{
    reveal_with_fuel(rotk, 6);
    lemma_code_bits_0();
    lemma_code_bits_1();
    lemma_code_bits_2();
    lemma_code_bits_3();
    lemma_code_bits_4();
    lemma_code_bits_5();
    lemma_code_bits_6();
    lemma_code_bits_7();
    lemma_code_bits_8();
    lemma_code_bits_9();
    lemma_code_bits_10();
    if j == 0 {
        if ham(rotk(code_grid(5), 3), code_val(0)) == 0 {
            lemma_ham_upto_zero_iff(rotk(code_grid(5), 3), code_val(0), 36);
            assert(rotk(code_grid(5), 3)[0] == code_bit(code_val(0), 0));
            assert(rotk(code_grid(5), 3)[0] == rotk(code_grid(5), 2)[30]);
            assert(rotk(code_grid(5), 2)[30] == rotk(code_grid(5), 1)[35]);
            assert(rotk(code_grid(5), 1)[35] == rotk(code_grid(5), 0)[5]);
            assert(rotk(code_grid(5), 0)[5] == code_bit(code_val(5), 5));
            assert(false);
        }
    }
    if j == 1 {
        if ham(rotk(code_grid(5), 3), code_val(1)) == 0 {
            lemma_ham_upto_zero_iff(rotk(code_grid(5), 3), code_val(1), 36);
            assert(rotk(code_grid(5), 3)[0] == code_bit(code_val(1), 0));
            assert(rotk(code_grid(5), 3)[0] == rotk(code_grid(5), 2)[30]);
            assert(rotk(code_grid(5), 2)[30] == rotk(code_grid(5), 1)[35]);
            assert(rotk(code_grid(5), 1)[35] == rotk(code_grid(5), 0)[5]);
            assert(rotk(code_grid(5), 0)[5] == code_bit(code_val(5), 5));
            assert(false);
        }
    }
    if j == 2 {
        if ham(rotk(code_grid(5), 3), code_val(2)) == 0 {
            lemma_ham_upto_zero_iff(rotk(code_grid(5), 3), code_val(2), 36);
            assert(rotk(code_grid(5), 3)[0] == code_bit(code_val(2), 0));
            assert(rotk(code_grid(5), 3)[0] == rotk(code_grid(5), 2)[30]);
            assert(rotk(code_grid(5), 2)[30] == rotk(code_grid(5), 1)[35]);
            assert(rotk(code_grid(5), 1)[35] == rotk(code_grid(5), 0)[5]);
            assert(rotk(code_grid(5), 0)[5] == code_bit(code_val(5), 5));
            assert(false);
        }
    }
    if j == 3 {
        if ham(rotk(code_grid(5), 3), code_val(3)) == 0 {
            lemma_ham_upto_zero_iff(rotk(code_grid(5), 3), code_val(3), 36);
            assert(rotk(code_grid(5), 3)[0] == code_bit(code_val(3), 0));
            assert(rotk(code_grid(5), 3)[0] == rotk(code_grid(5), 2)[30]);
            assert(rotk(code_grid(5), 2)[30] == rotk(code_grid(5), 1)[35]);
            assert(rotk(code_grid(5), 1)[35] == rotk(code_grid(5), 0)[5]);
            assert(rotk(code_grid(5), 0)[5] == code_bit(code_val(5), 5));
            assert(false);
        }
    }
    if j == 4 {
        if ham(rotk(code_grid(5), 3), code_val(4)) == 0 {
            lemma_ham_upto_zero_iff(rotk(code_grid(5), 3), code_val(4), 36);
            assert(rotk(code_grid(5), 3)[0] == code_bit(code_val(4), 0));
            assert(rotk(code_grid(5), 3)[0] == rotk(code_grid(5), 2)[30]);
            assert(rotk(code_grid(5), 2)[30] == rotk(code_grid(5), 1)[35]);
            assert(rotk(code_grid(5), 1)[35] == rotk(code_grid(5), 0)[5]);
            assert(rotk(code_grid(5), 0)[5] == code_bit(code_val(5), 5));
            assert(false);
        }
    }
    if j == 5 {
        if ham(rotk(code_grid(5), 3), code_val(5)) == 0 {
            lemma_ham_upto_zero_iff(rotk(code_grid(5), 3), code_val(5), 36);
            assert(rotk(code_grid(5), 3)[0] == code_bit(code_val(5), 0));
            assert(rotk(code_grid(5), 3)[0] == rotk(code_grid(5), 2)[30]);
            assert(rotk(code_grid(5), 2)[30] == rotk(code_grid(5), 1)[35]);
            assert(rotk(code_grid(5), 1)[35] == rotk(code_grid(5), 0)[5]);
            assert(rotk(code_grid(5), 0)[5] == code_bit(code_val(5), 5));
            assert(false);
        }
    }
    if j == 6 {
        if ham(rotk(code_grid(5), 3), code_val(6)) == 0 {
            lemma_ham_upto_zero_iff(rotk(code_grid(5), 3), code_val(6), 36);
            assert(rotk(code_grid(5), 3)[1] == code_bit(code_val(6), 1));
            assert(rotk(code_grid(5), 3)[1] == rotk(code_grid(5), 2)[24]);
            assert(rotk(code_grid(5), 2)[24] == rotk(code_grid(5), 1)[34]);
            assert(rotk(code_grid(5), 1)[34] == rotk(code_grid(5), 0)[11]);
            assert(rotk(code_grid(5), 0)[11] == code_bit(code_val(5), 11));
            assert(false);
        }
    }
    if j == 7 {
        if ham(rotk(code_grid(5), 3), code_val(7)) == 0 {
            lemma_ham_upto_zero_iff(rotk(code_grid(5), 3), code_val(7), 36);
            assert(rotk(code_grid(5), 3)[1] == code_bit(code_val(7), 1));
            assert(rotk(code_grid(5), 3)[1] == rotk(code_grid(5), 2)[24]);
            assert(rotk(code_grid(5), 2)[24] == rotk(code_grid(5), 1)[34]);
            assert(rotk(code_grid(5), 1)[34] == rotk(code_grid(5), 0)[11]);
            assert(rotk(code_grid(5), 0)[11] == code_bit(code_val(5), 11));
            assert(false);
        }
    }
    if j == 8 {
        if ham(rotk(code_grid(5), 3), code_val(8)) == 0 {
            lemma_ham_upto_zero_iff(rotk(code_grid(5), 3), code_val(8), 36);
            assert(rotk(code_grid(5), 3)[1] == code_bit(code_val(8), 1));
            assert(rotk(code_grid(5), 3)[1] == rotk(code_grid(5), 2)[24]);
            assert(rotk(code_grid(5), 2)[24] == rotk(code_grid(5), 1)[34]);
            assert(rotk(code_grid(5), 1)[34] == rotk(code_grid(5), 0)[11]);
            assert(rotk(code_grid(5), 0)[11] == code_bit(code_val(5), 11));
            assert(false);
        }
    }
    if j == 9 {
        if ham(rotk(code_grid(5), 3), code_val(9)) == 0 {
            lemma_ham_upto_zero_iff(rotk(code_grid(5), 3), code_val(9), 36);
            assert(rotk(code_grid(5), 3)[1] == code_bit(code_val(9), 1));
            assert(rotk(code_grid(5), 3)[1] == rotk(code_grid(5), 2)[24]);
            assert(rotk(code_grid(5), 2)[24] == rotk(code_grid(5), 1)[34]);
            assert(rotk(code_grid(5), 1)[34] == rotk(code_grid(5), 0)[11]);
            assert(rotk(code_grid(5), 0)[11] == code_bit(code_val(5), 11));
            assert(false);
        }
    }
    if j == 10 {
        if ham(rotk(code_grid(5), 3), code_val(10)) == 0 {
            lemma_ham_upto_zero_iff(rotk(code_grid(5), 3), code_val(10), 36);
            assert(rotk(code_grid(5), 3)[1] == code_bit(code_val(10), 1));
            assert(rotk(code_grid(5), 3)[1] == rotk(code_grid(5), 2)[24]);
            assert(rotk(code_grid(5), 2)[24] == rotk(code_grid(5), 1)[34]);
            assert(rotk(code_grid(5), 1)[34] == rotk(code_grid(5), 0)[11]);
            assert(rotk(code_grid(5), 0)[11] == code_bit(code_val(5), 11));
            assert(false);
        }
    }
}

/// No codeword equals rotation 0 of codeword 6 (other than itself
/// unrotated).
proof fn lemma_separation_6_0(j: int)
    requires
        0 <= j < 11,
        !(0 == 0 && j == 6),
    ensures
        ham(rotk(code_grid(6), 0), code_val(j)) != 0,
{
    reveal_with_fuel(rotk, 6);
    lemma_code_bits_0();
    lemma_code_bits_1();
    lemma_code_bits_2();
    lemma_code_bits_3();
    lemma_code_bits_4();
    lemma_code_bits_5();
    lemma_code_bits_6();
    lemma_code_bits_7();
    lemma_code_bits_8();
    lemma_code_bits_9();
    lemma_code_bits_10();
    if j == 0 {
        if ham(rotk(code_grid(6), 0), code_val(0)) == 0 {
            lemma_ham_upto_zero_iff(rotk(code_grid(6), 0), code_val(0), 36);
            assert(rotk(code_grid(6), 0)[0] == code_bit(code_val(0), 0));

            assert(rotk(code_grid(6), 0)[0] == code_bit(code_val(6), 0));
            assert(false);
        }
    }
    if j == 1 {
        if ham(rotk(code_grid(6), 0), code_val(1)) == 0 {
            lemma_ham_upto_zero_iff(rotk(code_grid(6), 0), code_val(1), 36);
            assert(rotk(code_grid(6), 0)[0] == code_bit(code_val(1), 0));

            assert(rotk(code_grid(6), 0)[0] == code_bit(code_val(6), 0));
            assert(false);
        }
    }
    if j == 2 {
        if ham(rotk(code_grid(6), 0), code_val(2)) == 0 {
            lemma_ham_upto_zero_iff(rotk(code_grid(6), 0), code_val(2), 36);
            assert(rotk(code_grid(6), 0)[0] == code_bit(code_val(2), 0));

            assert(rotk(code_grid(6), 0)[0] == code_bit(code_val(6), 0));
            assert(false);
        }
    }
    if j == 3 {
        if ham(rotk(code_grid(6), 0), code_val(3)) == 0 {
            lemma_ham_upto_zero_iff(rotk(code_grid(6), 0), code_val(3), 36);
            assert(rotk(code_grid(6), 0)[0] == code_bit(code_val(3), 0));

            assert(rotk(code_grid(6), 0)[0] == code_bit(code_val(6), 0));
            assert(false);
        }
    }
    if j == 4 {
        if ham(rotk(code_grid(6), 0), code_val(4)) == 0 {
            lemma_ham_upto_zero_iff(rotk(code_grid(6), 0), code_val(4), 36);
            assert(rotk(code_grid(6), 0)[0] == code_bit(code_val(4), 0));

            assert(rotk(code_grid(6), 0)[0] == code_bit(code_val(6), 0));
            assert(false);
        }
    }
    if j == 5 {
        if ham(rotk(code_grid(6), 0), code_val(5)) == 0 {
            lemma_ham_upto_zero_iff(rotk(code_grid(6), 0), code_val(5), 36);
            assert(rotk(code_grid(6), 0)[0] == code_bit(code_val(5), 0));

            assert(rotk(code_grid(6), 0)[0] == code_bit(code_val(6), 0));
            assert(false);
        }
    }
    if j == 7 {
        if ham(rotk(code_grid(6), 0), code_val(7)) == 0 {
            lemma_ham_upto_zero_iff(rotk(code_grid(6), 0), code_val(7), 36);
            assert(rotk(code_grid(6), 0)[3] == code_bit(code_val(7), 3));

            assert(rotk(code_grid(6), 0)[3] == code_bit(code_val(6), 3));
            assert(false);
        }
    }
    if j == 8 {
        if ham(rotk(code_grid(6), 0), code_val(8)) == 0 {
            lemma_ham_upto_zero_iff(rotk(code_grid(6), 0), code_val(8), 36);
            assert(rotk(code_grid(6), 0)[2] == code_bit(code_val(8), 2));

            assert(rotk(code_grid(6), 0)[2] == code_bit(code_val(6), 2));
            assert(false);
        }
    }
    if j == 9 {
        if ham(rotk(code_grid(6), 0), code_val(9)) == 0 {
            lemma_ham_upto_zero_iff(rotk(code_grid(6), 0), code_val(9), 36);
            assert(rotk(code_grid(6), 0)[2] == code_bit(code_val(9), 2));

            assert(rotk(code_grid(6), 0)[2] == code_bit(code_val(6), 2));
            assert(false);
        }
    }
    if j == 10 {
        if ham(rotk(code_grid(6), 0), code_val(10)) == 0 {
            lemma_ham_upto_zero_iff(rotk(code_grid(6), 0), code_val(10), 36);
            assert(rotk(code_grid(6), 0)[2] == code_bit(code_val(10), 2));

            assert(rotk(code_grid(6), 0)[2] == code_bit(code_val(6), 2));
            assert(false);
        }
    }
}

/// No codeword equals rotation 1 of codeword 6 (other than itself
/// unrotated).
proof fn lemma_separation_6_1(j: int)
    requires
        0 <= j < 11,
    ensures
        ham(rotk(code_grid(6), 1), code_val(j)) != 0,
{
    reveal_with_fuel(rotk, 6);
    lemma_code_bits_0();
    lemma_code_bits_1();
    lemma_code_bits_2();
    lemma_code_bits_3();
    lemma_code_bits_4();
    lemma_code_bits_5();
    lemma_code_bits_6();
    lemma_code_bits_7();
    lemma_code_bits_8();
    lemma_code_bits_9();
    lemma_code_bits_10();
    if j == 0 {
        if ham(rotk(code_grid(6), 1), code_val(0)) == 0 {
            lemma_ham_upto_zero_iff(rotk(code_grid(6), 1), code_val(0), 36);
            assert(rotk(code_grid(6), 1)[0] == code_bit(code_val(0), 0));
            assert(rotk(code_grid(6), 1)[0] == rotk(code_grid(6), 0)[30]);
            assert(rotk(code_grid(6), 0)[30] == code_bit(code_val(6), 30));
            assert(false);
        }
    }
    if j == 1 {
        if ham(rotk(code_grid(6), 1), code_val(1)) == 0 {
            lemma_ham_upto_zero_iff(rotk(code_grid(6), 1), code_val(1), 36);
            assert(rotk(code_grid(6), 1)[0] == code_bit(code_val(1), 0));
            assert(rotk(code_grid(6), 1)[0] == rotk(code_grid(6), 0)[30]);
            assert(rotk(code_grid(6), 0)[30] == code_bit(code_val(6), 30));
            assert(false);
        }
    }
    if j == 2 {
        if ham(rotk(code_grid(6), 1), code_val(2)) == 0 {
            lemma_ham_upto_zero_iff(rotk(code_grid(6), 1), code_val(2), 36);
            assert(rotk(code_grid(6), 1)[0] == code_bit(code_val(2), 0));
            assert(rotk(code_grid(6), 1)[0] == rotk(code_grid(6), 0)[30]);
            assert(rotk(code_grid(6), 0)[30] == code_bit(code_val(6), 30));
            assert(false);
        }
    }
    if j == 3 {
        if ham(rotk(code_grid(6), 1), code_val(3)) == 0 {
            lemma_ham_upto_zero_iff(rotk(code_grid(6), 1), code_val(3), 36);
            assert(rotk(code_grid(6), 1)[0] == code_bit(code_val(3), 0));
            assert(rotk(code_grid(6), 1)[0] == rotk(code_grid(6), 0)[30]);
            assert(rotk(code_grid(6), 0)[30] == code_bit(code_val(6), 30));
            assert(false);
        }
    }
    if j == 4 {
        if ham(rotk(code_grid(6), 1), code_val(4)) == 0 {
            lemma_ham_upto_zero_iff(rotk(code_grid(6), 1), code_val(4), 36);
            assert(rotk(code_grid(6), 1)[0] == code_bit(code_val(4), 0));
            assert(rotk(code_grid(6), 1)[0] == rotk(code_grid(6), 0)[30]);
            assert(rotk(code_grid(6), 0)[30] == code_bit(code_val(6), 30));
            assert(false);
        }
    }
    if j == 5 {
        if ham(rotk(code_grid(6), 1), code_val(5)) == 0 {
            lemma_ham_upto_zero_iff(rotk(code_grid(6), 1), code_val(5), 36);
            assert(rotk(code_grid(6), 1)[0] == code_bit(code_val(5), 0));
            assert(rotk(code_grid(6), 1)[0] == rotk(code_grid(6), 0)[30]);
            assert(rotk(code_grid(6), 0)[30] == code_bit(code_val(6), 30));
            assert(false);
        }
    }
    if j == 6 {
        if ham(rotk(code_grid(6), 1), code_val(6)) == 0 {
            lemma_ham_upto_zero_iff(rotk(code_grid(6), 1), code_val(6), 36);
            assert(rotk(code_grid(6), 1)[3] == code_bit(code_val(6), 3));
            assert(rotk(code_grid(6), 1)[3] == rotk(code_grid(6), 0)[12]);
            assert(rotk(code_grid(6), 0)[12] == code_bit(code_val(6), 12));
            assert(false);
        }
    }
    if j == 7 {
        if ham(rotk(code_grid(6), 1), code_val(7)) == 0 {
            lemma_ham_upto_zero_iff(rotk(code_grid(6), 1), code_val(7), 36);
            assert(rotk(code_grid(6), 1)[8] == code_bit(code_val(7), 8));
            assert(rotk(code_grid(6), 1)[8] == rotk(code_grid(6), 0)[19]);
            assert(rotk(code_grid(6), 0)[19] == code_bit(code_val(6), 19));
            assert(false);
        }
    }
    if j == 8 {
        if ham(rotk(code_grid(6), 1), code_val(8)) == 0 {
            lemma_ham_upto_zero_iff(rotk(code_grid(6), 1), code_val(8), 36);
            assert(rotk(code_grid(6), 1)[2] == code_bit(code_val(8), 2));
            assert(rotk(code_grid(6), 1)[2] == rotk(code_grid(6), 0)[18]);
            assert(rotk(code_grid(6), 0)[18] == code_bit(code_val(6), 18));
            assert(false);
        }
    }
    if j == 9 {
        if ham(rotk(code_grid(6), 1), code_val(9)) == 0 {
            lemma_ham_upto_zero_iff(rotk(code_grid(6), 1), code_val(9), 36);
            assert(rotk(code_grid(6), 1)[2] == code_bit(code_val(9), 2));
            assert(rotk(code_grid(6), 1)[2] == rotk(code_grid(6), 0)[18]);
            assert(rotk(code_grid(6), 0)[18] == code_bit(code_val(6), 18));
            assert(false);
        }
    }
    if j == 10 {
        if ham(rotk(code_grid(6), 1), code_val(10)) == 0 {
            lemma_ham_upto_zero_iff(rotk(code_grid(6), 1), code_val(10), 36);
            assert(rotk(code_grid(6), 1)[2] == code_bit(code_val(10), 2));
            assert(rotk(code_grid(6), 1)[2] == rotk(code_grid(6), 0)[18]);
            assert(rotk(code_grid(6), 0)[18] == code_bit(code_val(6), 18));
            assert(false);
        }
    }
}

/// No codeword equals rotation 2 of codeword 6 (other than itself
/// unrotated).
proof fn lemma_separation_6_2(j: int)
    requires
        0 <= j < 11,
    ensures
        ham(rotk(code_grid(6), 2), code_val(j)) != 0,
{
    reveal_with_fuel(rotk, 6);
    lemma_code_bits_0();
    lemma_code_bits_1();
    lemma_code_bits_2();
    lemma_code_bits_3();
    lemma_code_bits_4();
    lemma_code_bits_5();
    lemma_code_bits_6();
    lemma_code_bits_7();
    lemma_code_bits_8();
    lemma_code_bits_9();
    lemma_code_bits_10();
    if j == 0 {
        if ham(rotk(code_grid(6), 2), code_val(0)) == 0 {
            lemma_ham_upto_zero_iff(rotk(code_grid(6), 2), code_val(0), 36);
            assert(rotk(code_grid(6), 2)[1] == code_bit(code_val(0), 1));
            assert(rotk(code_grid(6), 2)[1] == rotk(code_grid(6), 1)[24]);
            assert(rotk(code_grid(6), 1)[24] == rotk(code_grid(6), 0)[34]);
            assert(rotk(code_grid(6), 0)[34] == code_bit(code_val(6), 34));
            assert(false);
        }
    }
    if j == 1 {
        if ham(rotk(code_grid(6), 2), code_val(1)) == 0 {
            lemma_ham_upto_zero_iff(rotk(code_grid(6), 2), code_val(1), 36);
            assert(rotk(code_grid(6), 2)[1] == code_bit(code_val(1), 1));
            assert(rotk(code_grid(6), 2)[1] == rotk(code_grid(6), 1)[24]);
            assert(rotk(code_grid(6), 1)[24] == rotk(code_grid(6), 0)[34]);
            assert(rotk(code_grid(6), 0)[34] == code_bit(code_val(6), 34));
            assert(false);
        }
    }
    if j == 2 {
        if ham(rotk(code_grid(6), 2), code_val(2)) == 0 {
            lemma_ham_upto_zero_iff(rotk(code_grid(6), 2), code_val(2), 36);
            assert(rotk(code_grid(6), 2)[1] == code_bit(code_val(2), 1));
            assert(rotk(code_grid(6), 2)[1] == rotk(code_grid(6), 1)[24]);
            assert(rotk(code_grid(6), 1)[24] == rotk(code_grid(6), 0)[34]);
            assert(rotk(code_grid(6), 0)[34] == code_bit(code_val(6), 34));
            assert(false);
        }
    }
    if j == 3 {
        if ham(rotk(code_grid(6), 2), code_val(3)) == 0 {
            lemma_ham_upto_zero_iff(rotk(code_grid(6), 2), code_val(3), 36);
            assert(rotk(code_grid(6), 2)[1] == code_bit(code_val(3), 1));
            assert(rotk(code_grid(6), 2)[1] == rotk(code_grid(6), 1)[24]);
            assert(rotk(code_grid(6), 1)[24] == rotk(code_grid(6), 0)[34]);
            assert(rotk(code_grid(6), 0)[34] == code_bit(code_val(6), 34));
            assert(false);
        }
    }
    if j == 4 {
        if ham(rotk(code_grid(6), 2), code_val(4)) == 0 {
            lemma_ham_upto_zero_iff(rotk(code_grid(6), 2), code_val(4), 36);
            assert(rotk(code_grid(6), 2)[1] == code_bit(code_val(4), 1));
            assert(rotk(code_grid(6), 2)[1] == rotk(code_grid(6), 1)[24]);
            assert(rotk(code_grid(6), 1)[24] == rotk(code_grid(6), 0)[34]);
            assert(rotk(code_grid(6), 0)[34] == code_bit(code_val(6), 34));
            assert(false);
        }
    }
    if j == 5 {
        if ham(rotk(code_grid(6), 2), code_val(5)) == 0 {
            lemma_ham_upto_zero_iff(rotk(code_grid(6), 2), code_val(5), 36);
            assert(rotk(code_grid(6), 2)[1] == code_bit(code_val(5), 1));
            assert(rotk(code_grid(6), 2)[1] == rotk(code_grid(6), 1)[24]);
            assert(rotk(code_grid(6), 1)[24] == rotk(code_grid(6), 0)[34]);
            assert(rotk(code_grid(6), 0)[34] == code_bit(code_val(6), 34));
            assert(false);
        }
    }
    if j == 6 {
        if ham(rotk(code_grid(6), 2), code_val(6)) == 0 {
            lemma_ham_upto_zero_iff(rotk(code_grid(6), 2), code_val(6), 36);
            assert(rotk(code_grid(6), 2)[0] == code_bit(code_val(6), 0));
            assert(rotk(code_grid(6), 2)[0] == rotk(code_grid(6), 1)[30]);
            assert(rotk(code_grid(6), 1)[30] == rotk(code_grid(6), 0)[35]);
            assert(rotk(code_grid(6), 0)[35] == code_bit(code_val(6), 35));
            assert(false);
        }
    }
    if j == 7 {
        if ham(rotk(code_grid(6), 2), code_val(7)) == 0 {
            lemma_ham_upto_zero_iff(rotk(code_grid(6), 2), code_val(7), 36);
            assert(rotk(code_grid(6), 2)[0] == code_bit(code_val(7), 0));
            assert(rotk(code_grid(6), 2)[0] == rotk(code_grid(6), 1)[30]);
            assert(rotk(code_grid(6), 1)[30] == rotk(code_grid(6), 0)[35]);
            assert(rotk(code_grid(6), 0)[35] == code_bit(code_val(6), 35));
            assert(false);
        }
    }
    if j == 8 {
        if ham(rotk(code_grid(6), 2), code_val(8)) == 0 {
            lemma_ham_upto_zero_iff(rotk(code_grid(6), 2), code_val(8), 36);
            assert(rotk(code_grid(6), 2)[0] == code_bit(code_val(8), 0));
            assert(rotk(code_grid(6), 2)[0] == rotk(code_grid(6), 1)[30]);
            assert(rotk(code_grid(6), 1)[30] == rotk(code_grid(6), 0)[35]);
            assert(rotk(code_grid(6), 0)[35] == code_bit(code_val(6), 35));
            assert(false);
        }
    }
    if j == 9 {
        if ham(rotk(code_grid(6), 2), code_val(9)) == 0 {
            lemma_ham_upto_zero_iff(rotk(code_grid(6), 2), code_val(9), 36);
            assert(rotk(code_grid(6), 2)[0] == code_bit(code_val(9), 0));
            assert(rotk(code_grid(6), 2)[0] == rotk(code_grid(6), 1)[30]);
            assert(rotk(code_grid(6), 1)[30] == rotk(code_grid(6), 0)[35]);
            assert(rotk(code_grid(6), 0)[35] == code_bit(code_val(6), 35));
            assert(false);
        }
    }
    if j == 10 {
        if ham(rotk(code_grid(6), 2), code_val(10)) == 0 {
            lemma_ham_upto_zero_iff(rotk(code_grid(6), 2), code_val(10), 36);
            assert(rotk(code_grid(6), 2)[0] == code_bit(code_val(10), 0));
            assert(rotk(code_grid(6), 2)[0] == rotk(code_grid(6), 1)[30]);
            assert(rotk(code_grid(6), 1)[30] == rotk(code_grid(6), 0)[35]);
            assert(rotk(code_grid(6), 0)[35] == code_bit(code_val(6), 35));
            assert(false);
        }
    }
}

/// No codeword equals rotation 3 of codeword 6 (other than itself
/// unrotated).
proof fn lemma_separation_6_3(j: int)
    requires
        0 <= j < 11,
    ensures
        ham(rotk(code_grid(6), 3), code_val(j)) != 0,
{
    reveal_with_fuel(rotk, 6);
    lemma_code_bits_0();
    lemma_code_bits_1();
    lemma_code_bits_2();
    lemma_code_bits_3();
    lemma_code_bits_4();
    lemma_code_bits_5();
    lemma_code_bits_6();
    lemma_code_bits_7();
    lemma_code_bits_8();
    lemma_code_bits_9();
    lemma_code_bits_10();
    if j == 0 {
        if ham(rotk(code_grid(6), 3), code_val(0)) == 0 {
            lemma_ham_upto_zero_iff(rotk(code_grid(6), 3), code_val(0), 36);
            assert(rotk(code_grid(6), 3)[1] == code_bit(code_val(0), 1));
            assert(rotk(code_grid(6), 3)[1] == rotk(code_grid(6), 2)[24]);
            assert(rotk(code_grid(6), 2)[24] == rotk(code_grid(6), 1)[34]);
            assert(rotk(code_grid(6), 1)[34] == rotk(code_grid(6), 0)[11]);
            assert(rotk(code_grid(6), 0)[11] == code_bit(code_val(6), 11));
            assert(false);
        }
    }
    if j == 1 {
        if ham(rotk(code_grid(6), 3), code_val(1)) == 0 {
            lemma_ham_upto_zero_iff(rotk(code_grid(6), 3), code_val(1), 36);
            assert(rotk(code_grid(6), 3)[1] == code_bit(code_val(1), 1));
            assert(rotk(code_grid(6), 3)[1] == rotk(code_grid(6), 2)[24]);
            assert(rotk(code_grid(6), 2)[24] == rotk(code_grid(6), 1)[34]);
            assert(rotk(code_grid(6), 1)[34] == rotk(code_grid(6), 0)[11]);
            assert(rotk(code_grid(6), 0)[11] == code_bit(code_val(6), 11));
            assert(false);
        }
    }
    if j == 2 {
        if ham(rotk(code_grid(6), 3), code_val(2)) == 0 {
            lemma_ham_upto_zero_iff(rotk(code_grid(6), 3), code_val(2), 36);
            assert(rotk(code_grid(6), 3)[1] == code_bit(code_val(2), 1));
            assert(rotk(code_grid(6), 3)[1] == rotk(code_grid(6), 2)[24]);
            assert(rotk(code_grid(6), 2)[24] == rotk(code_grid(6), 1)[34]);
            assert(rotk(code_grid(6), 1)[34] == rotk(code_grid(6), 0)[11]);
            assert(rotk(code_grid(6), 0)[11] == code_bit(code_val(6), 11));
            assert(false);
        }
    }
    if j == 3 {
        if ham(rotk(code_grid(6), 3), code_val(3)) == 0 {
            lemma_ham_upto_zero_iff(rotk(code_grid(6), 3), code_val(3), 36);
            assert(rotk(code_grid(6), 3)[1] == code_bit(code_val(3), 1));
            assert(rotk(code_grid(6), 3)[1] == rotk(code_grid(6), 2)[24]);
            assert(rotk(code_grid(6), 2)[24] == rotk(code_grid(6), 1)[34]);
            assert(rotk(code_grid(6), 1)[34] == rotk(code_grid(6), 0)[11]);
            assert(rotk(code_grid(6), 0)[11] == code_bit(code_val(6), 11));
            assert(false);
        }
    }
    if j == 4 {
        if ham(rotk(code_grid(6), 3), code_val(4)) == 0 {
            lemma_ham_upto_zero_iff(rotk(code_grid(6), 3), code_val(4), 36);
            assert(rotk(code_grid(6), 3)[1] == code_bit(code_val(4), 1));
            assert(rotk(code_grid(6), 3)[1] == rotk(code_grid(6), 2)[24]);
            assert(rotk(code_grid(6), 2)[24] == rotk(code_grid(6), 1)[34]);
            assert(rotk(code_grid(6), 1)[34] == rotk(code_grid(6), 0)[11]);
            assert(rotk(code_grid(6), 0)[11] == code_bit(code_val(6), 11));
            assert(false);
        }
    }
    if j == 5 {
        if ham(rotk(code_grid(6), 3), code_val(5)) == 0 {
            lemma_ham_upto_zero_iff(rotk(code_grid(6), 3), code_val(5), 36);
            assert(rotk(code_grid(6), 3)[1] == code_bit(code_val(5), 1));
            assert(rotk(code_grid(6), 3)[1] == rotk(code_grid(6), 2)[24]);
            assert(rotk(code_grid(6), 2)[24] == rotk(code_grid(6), 1)[34]);
            assert(rotk(code_grid(6), 1)[34] == rotk(code_grid(6), 0)[11]);
            assert(rotk(code_grid(6), 0)[11] == code_bit(code_val(6), 11));
            assert(false);
        }
    }
    if j == 6 {
        if ham(rotk(code_grid(6), 3), code_val(6)) == 0 {
            lemma_ham_upto_zero_iff(rotk(code_grid(6), 3), code_val(6), 36);
            assert(rotk(code_grid(6), 3)[0] == code_bit(code_val(6), 0));
            assert(rotk(code_grid(6), 3)[0] == rotk(code_grid(6), 2)[30]);
            assert(rotk(code_grid(6), 2)[30] == rotk(code_grid(6), 1)[35]);
            assert(rotk(code_grid(6), 1)[35] == rotk(code_grid(6), 0)[5]);
            assert(rotk(code_grid(6), 0)[5] == code_bit(code_val(6), 5));
            assert(false);
        }
    }
    if j == 7 {
        if ham(rotk(code_grid(6), 3), code_val(7)) == 0 {
            lemma_ham_upto_zero_iff(rotk(code_grid(6), 3), code_val(7), 36);
            assert(rotk(code_grid(6), 3)[0] == code_bit(code_val(7), 0));
            assert(rotk(code_grid(6), 3)[0] == rotk(code_grid(6), 2)[30]);
            assert(rotk(code_grid(6), 2)[30] == rotk(code_grid(6), 1)[35]);
            assert(rotk(code_grid(6), 1)[35] == rotk(code_grid(6), 0)[5]);
            assert(rotk(code_grid(6), 0)[5] == code_bit(code_val(6), 5));
            assert(false);
        }
    }
    if j == 8 {
        if ham(rotk(code_grid(6), 3), code_val(8)) == 0 {
            lemma_ham_upto_zero_iff(rotk(code_grid(6), 3), code_val(8), 36);
            assert(rotk(code_grid(6), 3)[0] == code_bit(code_val(8), 0));
            assert(rotk(code_grid(6), 3)[0] == rotk(code_grid(6), 2)[30]);
            assert(rotk(code_grid(6), 2)[30] == rotk(code_grid(6), 1)[35]);
            assert(rotk(code_grid(6), 1)[35] == rotk(code_grid(6), 0)[5]);
            assert(rotk(code_grid(6), 0)[5] == code_bit(code_val(6), 5));
            assert(false);
        }
    }
    if j == 9 {
        if ham(rotk(code_grid(6), 3), code_val(9)) == 0 {
            lemma_ham_upto_zero_iff(rotk(code_grid(6), 3), code_val(9), 36);
            assert(rotk(code_grid(6), 3)[0] == code_bit(code_val(9), 0));
            assert(rotk(code_grid(6), 3)[0] == rotk(code_grid(6), 2)[30]);
            assert(rotk(code_grid(6), 2)[30] == rotk(code_grid(6), 1)[35]);
            assert(rotk(code_grid(6), 1)[35] == rotk(code_grid(6), 0)[5]);
            assert(rotk(code_grid(6), 0)[5] == code_bit(code_val(6), 5));
            assert(false);
        }
    }
    if j == 10 {
        if ham(rotk(code_grid(6), 3), code_val(10)) == 0 {
            lemma_ham_upto_zero_iff(rotk(code_grid(6), 3), code_val(10), 36);
            assert(rotk(code_grid(6), 3)[0] == code_bit(code_val(10), 0));
            assert(rotk(code_grid(6), 3)[0] == rotk(code_grid(6), 2)[30]);
            assert(rotk(code_grid(6), 2)[30] == rotk(code_grid(6), 1)[35]);
            assert(rotk(code_grid(6), 1)[35] == rotk(code_grid(6), 0)[5]);
            assert(rotk(code_grid(6), 0)[5] == code_bit(code_val(6), 5));
            assert(false);
        }
    }
}

/// No codeword equals rotation 0 of codeword 7 (other than itself
/// unrotated).
proof fn lemma_separation_7_0(j: int)
    requires
        0 <= j < 11,
        !(0 == 0 && j == 7),
    ensures
        ham(rotk(code_grid(7), 0), code_val(j)) != 0,
{
    reveal_with_fuel(rotk, 6);
    lemma_code_bits_0();
    lemma_code_bits_1();
    lemma_code_bits_2();
    lemma_code_bits_3();
    lemma_code_bits_4();
    lemma_code_bits_5();
    lemma_code_bits_6();
    lemma_code_bits_7();
    lemma_code_bits_8();
    lemma_code_bits_9();
    lemma_code_bits_10();
    if j == 0 {
        if ham(rotk(code_grid(7), 0), code_val(0)) == 0 {
            lemma_ham_upto_zero_iff(rotk(code_grid(7), 0), code_val(0), 36);
            assert(rotk(code_grid(7), 0)[0] == code_bit(code_val(0), 0));

            assert(rotk(code_grid(7), 0)[0] == code_bit(code_val(7), 0));
            assert(false);
        }
    }
    if j == 1 {
        if ham(rotk(code_grid(7), 0), code_val(1)) == 0 {
            lemma_ham_upto_zero_iff(rotk(code_grid(7), 0), code_val(1), 36);
            assert(rotk(code_grid(7), 0)[0] == code_bit(code_val(1), 0));

            assert(rotk(code_grid(7), 0)[0] == code_bit(code_val(7), 0));
            assert(false);
        }
    }
    if j == 2 {
        if ham(rotk(code_grid(7), 0), code_val(2)) == 0 {
            lemma_ham_upto_zero_iff(rotk(code_grid(7), 0), code_val(2), 36);
            assert(rotk(code_grid(7), 0)[0] == code_bit(code_val(2), 0));

            assert(rotk(code_grid(7), 0)[0] == code_bit(code_val(7), 0));
            assert(false);
        }
    }
    if j == 3 {
        if ham(rotk(code_grid(7), 0), code_val(3)) == 0 {
            lemma_ham_upto_zero_iff(rotk(code_grid(7), 0), code_val(3), 36);
            assert(rotk(code_grid(7), 0)[0] == code_bit(code_val(3), 0));

            assert(rotk(code_grid(7), 0)[0] == code_bit(code_val(7), 0));
            assert(false);
        }
    }
    if j == 4 {
        if ham(rotk(code_grid(7), 0), code_val(4)) == 0 {
            lemma_ham_upto_zero_iff(rotk(code_grid(7), 0), code_val(4), 36);
            assert(rotk(code_grid(7), 0)[0] == code_bit(code_val(4), 0));

            assert(rotk(code_grid(7), 0)[0] == code_bit(code_val(7), 0));
            assert(false);
        }
    }
    if j == 5 {
        if ham(rotk(code_grid(7), 0), code_val(5)) == 0 {
            lemma_ham_upto_zero_iff(rotk(code_grid(7), 0), code_val(5), 36);
            assert(rotk(code_grid(7), 0)[0] == code_bit(code_val(5), 0));

            assert(rotk(code_grid(7), 0)[0] == code_bit(code_val(7), 0));
            assert(false);
        }
    }
    if j == 6 {
        if ham(rotk(code_grid(7), 0), code_val(6)) == 0 {
            lemma_ham_upto_zero_iff(rotk(code_grid(7), 0), code_val(6), 36);
            assert(rotk(code_grid(7), 0)[3] == code_bit(code_val(6), 3));

            assert(rotk(code_grid(7), 0)[3] == code_bit(code_val(7), 3));
            assert(false);
        }
    }
    if j == 8 {
        if ham(rotk(code_grid(7), 0), code_val(8)) == 0 {
            lemma_ham_upto_zero_iff(rotk(code_grid(7), 0), code_val(8), 36);
            assert(rotk(code_grid(7), 0)[2] == code_bit(code_val(8), 2));

            assert(rotk(code_grid(7), 0)[2] == code_bit(code_val(7), 2));
            assert(false);
        }
    }
    if j == 9 {
        if ham(rotk(code_grid(7), 0), code_val(9)) == 0 {
            lemma_ham_upto_zero_iff(rotk(code_grid(7), 0), code_val(9), 36);
            assert(rotk(code_grid(7), 0)[2] == code_bit(code_val(9), 2));

            assert(rotk(code_grid(7), 0)[2] == code_bit(code_val(7), 2));
            assert(false);
        }
    }
    if j == 10 {
        if ham(rotk(code_grid(7), 0), code_val(10)) == 0 {
            lemma_ham_upto_zero_iff(rotk(code_grid(7), 0), code_val(10), 36);
            assert(rotk(code_grid(7), 0)[2] == code_bit(code_val(10), 2));

            assert(rotk(code_grid(7), 0)[2] == code_bit(code_val(7), 2));
            assert(false);
        }
    }
}

/// No codeword equals rotation 1 of codeword 7 (other than itself
/// unrotated).
proof fn lemma_separation_7_1(j: int)
    requires
        0 <= j < 11,
    ensures
        ham(rotk(code_grid(7), 1), code_val(j)) != 0,
{
    reveal_with_fuel(rotk, 6);
    lemma_code_bits_0();
    lemma_code_bits_1();
    lemma_code_bits_2();
    lemma_code_bits_3();
    lemma_code_bits_4();
    lemma_code_bits_5();
    lemma_code_bits_6();
    lemma_code_bits_7();
    lemma_code_bits_8();
    lemma_code_bits_9();
    lemma_code_bits_10();
    if j == 0 {
        if ham(rotk(code_grid(7), 1), code_val(0)) == 0 {
            lemma_ham_upto_zero_iff(rotk(code_grid(7), 1), code_val(0), 36);
            assert(rotk(code_grid(7), 1)[0] == code_bit(code_val(0), 0));
            assert(rotk(code_grid(7), 1)[0] == rotk(code_grid(7), 0)[30]);
            assert(rotk(code_grid(7), 0)[30] == code_bit(code_val(7), 30));
            assert(false);
        }
    }
    if j == 1 {
        if ham(rotk(code_grid(7), 1), code_val(1)) == 0 {
            lemma_ham_upto_zero_iff(rotk(code_grid(7), 1), code_val(1), 36);
            assert(rotk(code_grid(7), 1)[0] == code_bit(code_val(1), 0));
            assert(rotk(code_grid(7), 1)[0] == rotk(code_grid(7), 0)[30]);
            assert(rotk(code_grid(7), 0)[30] == code_bit(code_val(7), 30));
            assert(false);
        }
    }
    if j == 2 {
        if ham(rotk(code_grid(7), 1), code_val(2)) == 0 {
            lemma_ham_upto_zero_iff(rotk(code_grid(7), 1), code_val(2), 36);
            assert(rotk(code_grid(7), 1)[0] == code_bit(code_val(2), 0));
            assert(rotk(code_grid(7), 1)[0] == rotk(code_grid(7), 0)[30]);
            assert(rotk(code_grid(7), 0)[30] == code_bit(code_val(7), 30));
            assert(false);
        }
    }
    if j == 3 {
        if ham(rotk(code_grid(7), 1), code_val(3)) == 0 {
            lemma_ham_upto_zero_iff(rotk(code_grid(7), 1), code_val(3), 36);
            assert(rotk(code_grid(7), 1)[0] == code_bit(code_val(3), 0));
            assert(rotk(code_grid(7), 1)[0] == rotk(code_grid(7), 0)[30]);
            assert(rotk(code_grid(7), 0)[30] == code_bit(code_val(7), 30));
            assert(false);
        }
    }
    if j == 4 {
        if ham(rotk(code_grid(7), 1), code_val(4)) == 0 {
            lemma_ham_upto_zero_iff(rotk(code_grid(7), 1), code_val(4), 36);
            assert(rotk(code_grid(7), 1)[0] == code_bit(code_val(4), 0));
            assert(rotk(code_grid(7), 1)[0] == rotk(code_grid(7), 0)[30]);
            assert(rotk(code_grid(7), 0)[30] == code_bit(code_val(7), 30));
            assert(false);
        }
    }
    if j == 5 {
        if ham(rotk(code_grid(7), 1), code_val(5)) == 0 {
            lemma_ham_upto_zero_iff(rotk(code_grid(7), 1), code_val(5), 36);
            assert(rotk(code_grid(7), 1)[0] == code_bit(code_val(5), 0));
            assert(rotk(code_grid(7), 1)[0] == rotk(code_grid(7), 0)[30]);
            assert(rotk(code_grid(7), 0)[30] == code_bit(code_val(7), 30));
            assert(false);
        }
    }
    if j == 6 {
        if ham(rotk(code_grid(7), 1), code_val(6)) == 0 {
            lemma_ham_upto_zero_iff(rotk(code_grid(7), 1), code_val(6), 36);
            assert(rotk(code_grid(7), 1)[2] == code_bit(code_val(6), 2));
            assert(rotk(code_grid(7), 1)[2] == rotk(code_grid(7), 0)[18]);
            assert(rotk(code_grid(7), 0)[18] == code_bit(code_val(7), 18));
            assert(false);
        }
    }
    if j == 7 {
        if ham(rotk(code_grid(7), 1), code_val(7)) == 0 {
            lemma_ham_upto_zero_iff(rotk(code_grid(7), 1), code_val(7), 36);
            assert(rotk(code_grid(7), 1)[2] == code_bit(code_val(7), 2));
            assert(rotk(code_grid(7), 1)[2] == rotk(code_grid(7), 0)[18]);
            assert(rotk(code_grid(7), 0)[18] == code_bit(code_val(7), 18));
            assert(false);
        }
    }
    if j == 8 {
        if ham(rotk(code_grid(7), 1), code_val(8)) == 0 {
            lemma_ham_upto_zero_iff(rotk(code_grid(7), 1), code_val(8), 36);
            assert(rotk(code_grid(7), 1)[8] == code_bit(code_val(8), 8));
            assert(rotk(code_grid(7), 1)[8] == rotk(code_grid(7), 0)[19]);
            assert(rotk(code_grid(7), 0)[19] == code_bit(code_val(7), 19));
            assert(false);
        }
    }
    if j == 9 {
        if ham(rotk(code_grid(7), 1), code_val(9)) == 0 {
            lemma_ham_upto_zero_iff(rotk(code_grid(7), 1), code_val(9), 36);
            assert(rotk(code_grid(7), 1)[5] == code_bit(code_val(9), 5));
            assert(rotk(code_grid(7), 1)[5] == rotk(code_grid(7), 0)[0]);
            assert(rotk(code_grid(7), 0)[0] == code_bit(code_val(7), 0));
            assert(false);
        }
    }
    if j == 10 {
        if ham(rotk(code_grid(7), 1), code_val(10)) == 0 {
            lemma_ham_upto_zero_iff(rotk(code_grid(7), 1), code_val(10), 36);
            assert(rotk(code_grid(7), 1)[3] == code_bit(code_val(10), 3));
            assert(rotk(code_grid(7), 1)[3] == rotk(code_grid(7), 0)[12]);
            assert(rotk(code_grid(7), 0)[12] == code_bit(code_val(7), 12));
            assert(false);
        }
    }
}

/// No codeword equals rotation 2 of codeword 7 (other than itself
/// unrotated).
proof fn lemma_separation_7_2(j: int)
    requires
        0 <= j < 11,
    ensures
        ham(rotk(code_grid(7), 2), code_val(j)) != 0,
{
    reveal_with_fuel(rotk, 6);
    lemma_code_bits_0();
    lemma_code_bits_1();
    lemma_code_bits_2();
    lemma_code_bits_3();
    lemma_code_bits_4();
    lemma_code_bits_5();
    lemma_code_bits_6();
    lemma_code_bits_7();
    lemma_code_bits_8();
    lemma_code_bits_9();
    lemma_code_bits_10();
    if j == 0 {
        if ham(rotk(code_grid(7), 2), code_val(0)) == 0 {
            lemma_ham_upto_zero_iff(rotk(code_grid(7), 2), code_val(0), 36);
            assert(rotk(code_grid(7), 2)[0] == code_bit(code_val(0), 0));
            assert(rotk(code_grid(7), 2)[0] == rotk(code_grid(7), 1)[30]);
            assert(rotk(code_grid(7), 1)[30] == rotk(code_grid(7), 0)[35]);
            assert(rotk(code_grid(7), 0)[35] == code_bit(code_val(7), 35));
            assert(false);
        }
    }
    if j == 1 {
        if ham(rotk(code_grid(7), 2), code_val(1)) == 0 {
            lemma_ham_upto_zero_iff(rotk(code_grid(7), 2), code_val(1), 36);
            assert(rotk(code_grid(7), 2)[0] == code_bit(code_val(1), 0));
            assert(rotk(code_grid(7), 2)[0] == rotk(code_grid(7), 1)[30]);
            assert(rotk(code_grid(7), 1)[30] == rotk(code_grid(7), 0)[35]);
            assert(rotk(code_grid(7), 0)[35] == code_bit(code_val(7), 35));
            assert(false);
        }
    }
    if j == 2 {
        if ham(rotk(code_grid(7), 2), code_val(2)) == 0 {
            lemma_ham_upto_zero_iff(rotk(code_grid(7), 2), code_val(2), 36);
            assert(rotk(code_grid(7), 2)[0] == code_bit(code_val(2), 0));
            assert(rotk(code_grid(7), 2)[0] == rotk(code_grid(7), 1)[30]);
            assert(rotk(code_grid(7), 1)[30] == rotk(code_grid(7), 0)[35]);
            assert(rotk(code_grid(7), 0)[35] == code_bit(code_val(7), 35));
            assert(false);
        }
    }
    if j == 3 {
        if ham(rotk(code_grid(7), 2), code_val(3)) == 0 {
            lemma_ham_upto_zero_iff(rotk(code_grid(7), 2), code_val(3), 36);
            assert(rotk(code_grid(7), 2)[0] == code_bit(code_val(3), 0));
            assert(rotk(code_grid(7), 2)[0] == rotk(code_grid(7), 1)[30]);
            assert(rotk(code_grid(7), 1)[30] == rotk(code_grid(7), 0)[35]);
            assert(rotk(code_grid(7), 0)[35] == code_bit(code_val(7), 35));
            assert(false);
        }
    }
    if j == 4 {
        if ham(rotk(code_grid(7), 2), code_val(4)) == 0 {
            lemma_ham_upto_zero_iff(rotk(code_grid(7), 2), code_val(4), 36);
            assert(rotk(code_grid(7), 2)[0] == code_bit(code_val(4), 0));
            assert(rotk(code_grid(7), 2)[0] == rotk(code_grid(7), 1)[30]);
            assert(rotk(code_grid(7), 1)[30] == rotk(code_grid(7), 0)[35]);
            assert(rotk(code_grid(7), 0)[35] == code_bit(code_val(7), 35));
            assert(false);
        }
    }
    if j == 5 {
        if ham(rotk(code_grid(7), 2), code_val(5)) == 0 {
            lemma_ham_upto_zero_iff(rotk(code_grid(7), 2), code_val(5), 36);
            assert(rotk(code_grid(7), 2)[0] == code_bit(code_val(5), 0));
            assert(rotk(code_grid(7), 2)[0] == rotk(code_grid(7), 1)[30]);
            assert(rotk(code_grid(7), 1)[30] == rotk(code_grid(7), 0)[35]);
            assert(rotk(code_grid(7), 0)[35] == code_bit(code_val(7), 35));
            assert(false);
        }
    }
    if j == 6 {
        if ham(rotk(code_grid(7), 2), code_val(6)) == 0 {
            lemma_ham_upto_zero_iff(rotk(code_grid(7), 2), code_val(6), 36);
            assert(rotk(code_grid(7), 2)[2] == code_bit(code_val(6), 2));
            assert(rotk(code_grid(7), 2)[2] == rotk(code_grid(7), 1)[18]);
            assert(rotk(code_grid(7), 1)[18] == rotk(code_grid(7), 0)[33]);
            assert(rotk(code_grid(7), 0)[33] == code_bit(code_val(7), 33));
            assert(false);
        }
    }
    if j == 7 {
        if ham(rotk(code_grid(7), 2), code_val(7)) == 0 {
            lemma_ham_upto_zero_iff(rotk(code_grid(7), 2), code_val(7), 36);
            assert(rotk(code_grid(7), 2)[2] == code_bit(code_val(7), 2));
            assert(rotk(code_grid(7), 2)[2] == rotk(code_grid(7), 1)[18]);
            assert(rotk(code_grid(7), 1)[18] == rotk(code_grid(7), 0)[33]);
            assert(rotk(code_grid(7), 0)[33] == code_bit(code_val(7), 33));
            assert(false);
        }
    }
    if j == 8 {
        if ham(rotk(code_grid(7), 2), code_val(8)) == 0 {
            lemma_ham_upto_zero_iff(rotk(code_grid(7), 2), code_val(8), 36);
            assert(rotk(code_grid(7), 2)[4] == code_bit(code_val(8), 4));
            assert(rotk(code_grid(7), 2)[4] == rotk(code_grid(7), 1)[6]);
            assert(rotk(code_grid(7), 1)[6] == rotk(code_grid(7), 0)[31]);
            assert(rotk(code_grid(7), 0)[31] == code_bit(code_val(7), 31));
            assert(false);
        }
    }
    if j == 9 {
        if ham(rotk(code_grid(7), 2), code_val(9)) == 0 {
            lemma_ham_upto_zero_iff(rotk(code_grid(7), 2), code_val(9), 36);
            assert(rotk(code_grid(7), 2)[4] == code_bit(code_val(9), 4));
            assert(rotk(code_grid(7), 2)[4] == rotk(code_grid(7), 1)[6]);
            assert(rotk(code_grid(7), 1)[6] == rotk(code_grid(7), 0)[31]);
            assert(rotk(code_grid(7), 0)[31] == code_bit(code_val(7), 31));
            assert(false);
        }
    }
    if j == 10 {
        if ham(rotk(code_grid(7), 2), code_val(10)) == 0 {
            lemma_ham_upto_zero_iff(rotk(code_grid(7), 2), code_val(10), 36);
            assert(rotk(code_grid(7), 2)[3] == code_bit(code_val(10), 3));
            assert(rotk(code_grid(7), 2)[3] == rotk(code_grid(7), 1)[12]);
            assert(rotk(code_grid(7), 1)[12] == rotk(code_grid(7), 0)[32]);
            assert(rotk(code_grid(7), 0)[32] == code_bit(code_val(7), 32));
            assert(false);
        }
    }
}

/// No codeword equals rotation 3 of codeword 7 (other than itself
/// unrotated).
proof fn lemma_separation_7_3(j: int)
    requires
        0 <= j < 11,
    ensures
        ham(rotk(code_grid(7), 3), code_val(j)) != 0,
{
    reveal_with_fuel(rotk, 6);
    lemma_code_bits_0();
    lemma_code_bits_1();
    lemma_code_bits_2();
    lemma_code_bits_3();
    lemma_code_bits_4();
    lemma_code_bits_5();
    lemma_code_bits_6();
    lemma_code_bits_7();
    lemma_code_bits_8();
    lemma_code_bits_9();
    lemma_code_bits_10();
    if j == 0 {
        if ham(rotk(code_grid(7), 3), code_val(0)) == 0 {
            lemma_ham_upto_zero_iff(rotk(code_grid(7), 3), code_val(0), 36);
            assert(rotk(code_grid(7), 3)[0] == code_bit(code_val(0), 0));
            assert(rotk(code_grid(7), 3)[0] == rotk(code_grid(7), 2)[30]);
            assert(rotk(code_grid(7), 2)[30] == rotk(code_grid(7), 1)[35]);
            assert(rotk(code_grid(7), 1)[35] == rotk(code_grid(7), 0)[5]);
            assert(rotk(code_grid(7), 0)[5] == code_bit(code_val(7), 5));
            assert(false);
        }
    }
    if j == 1 {
        if ham(rotk(code_grid(7), 3), code_val(1)) == 0 {
            lemma_ham_upto_zero_iff(rotk(code_grid(7), 3), code_val(1), 36);
            assert(rotk(code_grid(7), 3)[0] == code_bit(code_val(1), 0));
            assert(rotk(code_grid(7), 3)[0] == rotk(code_grid(7), 2)[30]);
            assert(rotk(code_grid(7), 2)[30] == rotk(code_grid(7), 1)[35]);
            assert(rotk(code_grid(7), 1)[35] == rotk(code_grid(7), 0)[5]);
            assert(rotk(code_grid(7), 0)[5] == code_bit(code_val(7), 5));
            assert(false);
        }
    }
    if j == 2 {
        if ham(rotk(code_grid(7), 3), code_val(2)) == 0 {
            lemma_ham_upto_zero_iff(rotk(code_grid(7), 3), code_val(2), 36);
            assert(rotk(code_grid(7), 3)[0] == code_bit(code_val(2), 0));
            assert(rotk(code_grid(7), 3)[0] == rotk(code_grid(7), 2)[30]);
            assert(rotk(code_grid(7), 2)[30] == rotk(code_grid(7), 1)[35]);
            assert(rotk(code_grid(7), 1)[35] == rotk(code_grid(7), 0)[5]);
            assert(rotk(code_grid(7), 0)[5] == code_bit(code_val(7), 5));
            assert(false);
        }
    }
    if j == 3 {
        if ham(rotk(code_grid(7), 3), code_val(3)) == 0 {
            lemma_ham_upto_zero_iff(rotk(code_grid(7), 3), code_val(3), 36);
            assert(rotk(code_grid(7), 3)[0] == code_bit(code_val(3), 0));
            assert(rotk(code_grid(7), 3)[0] == rotk(code_grid(7), 2)[30]);
            assert(rotk(code_grid(7), 2)[30] == rotk(code_grid(7), 1)[35]);
            assert(rotk(code_grid(7), 1)[35] == rotk(code_grid(7), 0)[5]);
            assert(rotk(code_grid(7), 0)[5] == code_bit(code_val(7), 5));
            assert(false);
        }
    }
    if j == 4 {
        if ham(rotk(code_grid(7), 3), code_val(4)) == 0 {
            lemma_ham_upto_zero_iff(rotk(code_grid(7), 3), code_val(4), 36);
            assert(rotk(code_grid(7), 3)[0] == code_bit(code_val(4), 0));
            assert(rotk(code_grid(7), 3)[0] == rotk(code_grid(7), 2)[30]);
            assert(rotk(code_grid(7), 2)[30] == rotk(code_grid(7), 1)[35]);
            assert(rotk(code_grid(7), 1)[35] == rotk(code_grid(7), 0)[5]);
            assert(rotk(code_grid(7), 0)[5] == code_bit(code_val(7), 5));
            assert(false);
        }
    }
    if j == 5 {
        if ham(rotk(code_grid(7), 3), code_val(5)) == 0 {
            lemma_ham_upto_zero_iff(rotk(code_grid(7), 3), code_val(5), 36);
            assert(rotk(code_grid(7), 3)[0] == code_bit(code_val(5), 0));
            assert(rotk(code_grid(7), 3)[0] == rotk(code_grid(7), 2)[30]);
            assert(rotk(code_grid(7), 2)[30] == rotk(code_grid(7), 1)[35]);
            assert(rotk(code_grid(7), 1)[35] == rotk(code_grid(7), 0)[5]);
            assert(rotk(code_grid(7), 0)[5] == code_bit(code_val(7), 5));
            assert(false);
        }
    }
    if j == 6 {
        if ham(rotk(code_grid(7), 3), code_val(6)) == 0 {
            lemma_ham_upto_zero_iff(rotk(code_grid(7), 3), code_val(6), 36);
            assert(rotk(code_grid(7), 3)[4] == code_bit(code_val(6), 4));
            assert(rotk(code_grid(7), 3)[4] == rotk(code_grid(7), 2)[6]);
            assert(rotk(code_grid(7), 2)[6] == rotk(code_grid(7), 1)[31]);
            assert(rotk(code_grid(7), 1)[31] == rotk(code_grid(7), 0)[29]);
            assert(rotk(code_grid(7), 0)[29] == code_bit(code_val(7), 29));
            assert(false);
        }
    }
    if j == 7 {
        if ham(rotk(code_grid(7), 3), code_val(7)) == 0 {
            lemma_ham_upto_zero_iff(rotk(code_grid(7), 3), code_val(7), 36);
            assert(rotk(code_grid(7), 3)[3] == code_bit(code_val(7), 3));
            assert(rotk(code_grid(7), 3)[3] == rotk(code_grid(7), 2)[12]);
            assert(rotk(code_grid(7), 2)[12] == rotk(code_grid(7), 1)[32]);
            assert(rotk(code_grid(7), 1)[32] == rotk(code_grid(7), 0)[23]);
            assert(rotk(code_grid(7), 0)[23] == code_bit(code_val(7), 23));
            assert(false);
        }
    }
    if j == 8 {
        if ham(rotk(code_grid(7), 3), code_val(8)) == 0 {
            lemma_ham_upto_zero_iff(rotk(code_grid(7), 3), code_val(8), 36);
            assert(rotk(code_grid(7), 3)[2] == code_bit(code_val(8), 2));
            assert(rotk(code_grid(7), 3)[2] == rotk(code_grid(7), 2)[18]);
            assert(rotk(code_grid(7), 2)[18] == rotk(code_grid(7), 1)[33]);
            assert(rotk(code_grid(7), 1)[33] == rotk(code_grid(7), 0)[17]);
            assert(rotk(code_grid(7), 0)[17] == code_bit(code_val(7), 17));
            assert(false);
        }
    }
    if j == 9 {
        if ham(rotk(code_grid(7), 3), code_val(9)) == 0 {
            lemma_ham_upto_zero_iff(rotk(code_grid(7), 3), code_val(9), 36);
            assert(rotk(code_grid(7), 3)[2] == code_bit(code_val(9), 2));
            assert(rotk(code_grid(7), 3)[2] == rotk(code_grid(7), 2)[18]);
            assert(rotk(code_grid(7), 2)[18] == rotk(code_grid(7), 1)[33]);
            assert(rotk(code_grid(7), 1)[33] == rotk(code_grid(7), 0)[17]);
            assert(rotk(code_grid(7), 0)[17] == code_bit(code_val(7), 17));
            assert(false);
        }
    }
    if j == 10 {
        if ham(rotk(code_grid(7), 3), code_val(10)) == 0 {
            lemma_ham_upto_zero_iff(rotk(code_grid(7), 3), code_val(10), 36);
            assert(rotk(code_grid(7), 3)[2] == code_bit(code_val(10), 2));
            assert(rotk(code_grid(7), 3)[2] == rotk(code_grid(7), 2)[18]);
            assert(rotk(code_grid(7), 2)[18] == rotk(code_grid(7), 1)[33]);
            assert(rotk(code_grid(7), 1)[33] == rotk(code_grid(7), 0)[17]);
            assert(rotk(code_grid(7), 0)[17] == code_bit(code_val(7), 17));
            assert(false);
        }
    }
}

/// No codeword equals rotation 0 of codeword 8 (other than itself
/// unrotated).
proof fn lemma_separation_8_0(j: int)
    requires
        0 <= j < 11,
        !(0 == 0 && j == 8),
    ensures
        ham(rotk(code_grid(8), 0), code_val(j)) != 0,
{
    reveal_with_fuel(rotk, 6);
    lemma_code_bits_0();
    lemma_code_bits_1();
    lemma_code_bits_2();
    lemma_code_bits_3();
    lemma_code_bits_4();
    lemma_code_bits_5();
    lemma_code_bits_6();
    lemma_code_bits_7();
    lemma_code_bits_8();
    lemma_code_bits_9();
    lemma_code_bits_10();
    if j == 0 {
        if ham(rotk(code_grid(8), 0), code_val(0)) == 0 {
            lemma_ham_upto_zero_iff(rotk(code_grid(8), 0), code_val(0), 36);
            assert(rotk(code_grid(8), 0)[0] == code_bit(code_val(0), 0));

            assert(rotk(code_grid(8), 0)[0] == code_bit(code_val(8), 0));
            assert(false);
        }
    }
    if j == 1 {
        if ham(rotk(code_grid(8), 0), code_val(1)) == 0 {
            lemma_ham_upto_zero_iff(rotk(code_grid(8), 0), code_val(1), 36);
            assert(rotk(code_grid(8), 0)[0] == code_bit(code_val(1), 0));

            assert(rotk(code_grid(8), 0)[0] == code_bit(code_val(8), 0));
            assert(false);
        }
    }
    if j == 2 {
        if ham(rotk(code_grid(8), 0), code_val(2)) == 0 {
            lemma_ham_upto_zero_iff(rotk(code_grid(8), 0), code_val(2), 36);
            assert(rotk(code_grid(8), 0)[0] == code_bit(code_val(2), 0));

            assert(rotk(code_grid(8), 0)[0] == code_bit(code_val(8), 0));
            assert(false);
        }
    }
    if j == 3 {
        if ham(rotk(code_grid(8), 0), code_val(3)) == 0 {
            lemma_ham_upto_zero_iff(rotk(code_grid(8), 0), code_val(3), 36);
            assert(rotk(code_grid(8), 0)[0] == code_bit(code_val(3), 0));

            assert(rotk(code_grid(8), 0)[0] == code_bit(code_val(8), 0));
            assert(false);
        }
    }
    if j == 4 {
        if ham(rotk(code_grid(8), 0), code_val(4)) == 0 {
            lemma_ham_upto_zero_iff(rotk(code_grid(8), 0), code_val(4), 36);
            assert(rotk(code_grid(8), 0)[0] == code_bit(code_val(4), 0));

            assert(rotk(code_grid(8), 0)[0] == code_bit(code_val(8), 0));
            assert(false);
        }
    }
    if j == 5 {
        if ham(rotk(code_grid(8), 0), code_val(5)) == 0 {
            lemma_ham_upto_zero_iff(rotk(code_grid(8), 0), code_val(5), 36);
            assert(rotk(code_grid(8), 0)[0] == code_bit(code_val(5), 0));

            assert(rotk(code_grid(8), 0)[0] == code_bit(code_val(8), 0));
            assert(false);
        }
    }
    if j == 6 {
        if ham(rotk(code_grid(8), 0), code_val(6)) == 0 {
            lemma_ham_upto_zero_iff(rotk(code_grid(8), 0), code_val(6), 36);
            assert(rotk(code_grid(8), 0)[2] == code_bit(code_val(6), 2));

            assert(rotk(code_grid(8), 0)[2] == code_bit(code_val(8), 2));
            assert(false);
        }
    }
    if j == 7 {
        if ham(rotk(code_grid(8), 0), code_val(7)) == 0 {
            lemma_ham_upto_zero_iff(rotk(code_grid(8), 0), code_val(7), 36);
            assert(rotk(code_grid(8), 0)[2] == code_bit(code_val(7), 2));

            assert(rotk(code_grid(8), 0)[2] == code_bit(code_val(8), 2));
            assert(false);
        }
    }
    if j == 9 {
        if ham(rotk(code_grid(8), 0), code_val(9)) == 0 {
            lemma_ham_upto_zero_iff(rotk(code_grid(8), 0), code_val(9), 36);
            assert(rotk(code_grid(8), 0)[5] == code_bit(code_val(9), 5));

            assert(rotk(code_grid(8), 0)[5] == code_bit(code_val(8), 5));
            assert(false);
        }
    }
    if j == 10 {
        if ham(rotk(code_grid(8), 0), code_val(10)) == 0 {
            lemma_ham_upto_zero_iff(rotk(code_grid(8), 0), code_val(10), 36);
            assert(rotk(code_grid(8), 0)[3] == code_bit(code_val(10), 3));

            assert(rotk(code_grid(8), 0)[3] == code_bit(code_val(8), 3));
            assert(false);
        }
    }
}

/// No codeword equals rotation 1 of codeword 8 (other than itself
/// unrotated).
proof fn lemma_separation_8_1(j: int)
    requires
        0 <= j < 11,
    ensures
        ham(rotk(code_grid(8), 1), code_val(j)) != 0,
{
    reveal_with_fuel(rotk, 6);
    lemma_code_bits_0();
    lemma_code_bits_1();
    lemma_code_bits_2();
    lemma_code_bits_3();
    lemma_code_bits_4();
    lemma_code_bits_5();
    lemma_code_bits_6();
    lemma_code_bits_7();
    lemma_code_bits_8();
    lemma_code_bits_9();
    lemma_code_bits_10();
    if j == 0 {
        if ham(rotk(code_grid(8), 1), code_val(0)) == 0 {
            lemma_ham_upto_zero_iff(rotk(code_grid(8), 1), code_val(0), 36);
            assert(rotk(code_grid(8), 1)[3] == code_bit(code_val(0), 3));
            assert(rotk(code_grid(8), 1)[3] == rotk(code_grid(8), 0)[12]);
            assert(rotk(code_grid(8), 0)[12] == code_bit(code_val(8), 12));
            assert(false);
        }
    }
    if j == 1 {
        if ham(rotk(code_grid(8), 1), code_val(1)) == 0 {
            lemma_ham_upto_zero_iff(rotk(code_grid(8), 1), code_val(1), 36);
            assert(rotk(code_grid(8), 1)[3] == code_bit(code_val(1), 3));
            assert(rotk(code_grid(8), 1)[3] == rotk(code_grid(8), 0)[12]);
            assert(rotk(code_grid(8), 0)[12] == code_bit(code_val(8), 12));
            assert(false);
        }
    }
    if j == 2 {
        if ham(rotk(code_grid(8), 1), code_val(2)) == 0 {
            lemma_ham_upto_zero_iff(rotk(code_grid(8), 1), code_val(2), 36);
            assert(rotk(code_grid(8), 1)[3] == code_bit(code_val(2), 3));
            assert(rotk(code_grid(8), 1)[3] == rotk(code_grid(8), 0)[12]);
            assert(rotk(code_grid(8), 0)[12] == code_bit(code_val(8), 12));
            assert(false);
        }
    }
    if j == 3 {
        if ham(rotk(code_grid(8), 1), code_val(3)) == 0 {
            lemma_ham_upto_zero_iff(rotk(code_grid(8), 1), code_val(3), 36);
            assert(rotk(code_grid(8), 1)[2] == code_bit(code_val(3), 2));
            assert(rotk(code_grid(8), 1)[2] == rotk(code_grid(8), 0)[18]);
            assert(rotk(code_grid(8), 0)[18] == code_bit(code_val(8), 18));
            assert(false);
        }
    }
    if j == 4 {
        if ham(rotk(code_grid(8), 1), code_val(4)) == 0 {
            lemma_ham_upto_zero_iff(rotk(code_grid(8), 1), code_val(4), 36);
            assert(rotk(code_grid(8), 1)[2] == code_bit(code_val(4), 2));
            assert(rotk(code_grid(8), 1)[2] == rotk(code_grid(8), 0)[18]);
            assert(rotk(code_grid(8), 0)[18] == code_bit(code_val(8), 18));
            assert(false);
        }
    }
    if j == 5 {
        if ham(rotk(code_grid(8), 1), code_val(5)) == 0 {
            lemma_ham_upto_zero_iff(rotk(code_grid(8), 1), code_val(5), 36);
            assert(rotk(code_grid(8), 1)[2] == code_bit(code_val(5), 2));
            assert(rotk(code_grid(8), 1)[2] == rotk(code_grid(8), 0)[18]);
            assert(rotk(code_grid(8), 0)[18] == code_bit(code_val(8), 18));
            assert(false);
        }
    }
    if j == 6 {
        if ham(rotk(code_grid(8), 1), code_val(6)) == 0 {
            lemma_ham_upto_zero_iff(rotk(code_grid(8), 1), code_val(6), 36);
            assert(rotk(code_grid(8), 1)[0] == code_bit(code_val(6), 0));
            assert(rotk(code_grid(8), 1)[0] == rotk(code_grid(8), 0)[30]);
            assert(rotk(code_grid(8), 0)[30] == code_bit(code_val(8), 30));
            assert(false);
        }
    }
    if j == 7 {
        if ham(rotk(code_grid(8), 1), code_val(7)) == 0 {
            lemma_ham_upto_zero_iff(rotk(code_grid(8), 1), code_val(7), 36);
            assert(rotk(code_grid(8), 1)[0] == code_bit(code_val(7), 0));
            assert(rotk(code_grid(8), 1)[0] == rotk(code_grid(8), 0)[30]);
            assert(rotk(code_grid(8), 0)[30] == code_bit(code_val(8), 30));
            assert(false);
        }
    }
    if j == 8 {
        if ham(rotk(code_grid(8), 1), code_val(8)) == 0 {
            lemma_ham_upto_zero_iff(rotk(code_grid(8), 1), code_val(8), 36);
            assert(rotk(code_grid(8), 1)[0] == code_bit(code_val(8), 0));
            assert(rotk(code_grid(8), 1)[0] == rotk(code_grid(8), 0)[30]);
            assert(rotk(code_grid(8), 0)[30] == code_bit(code_val(8), 30));
            assert(false);
        }
    }
    if j == 9 {
        if ham(rotk(code_grid(8), 1), code_val(9)) == 0 {
            lemma_ham_upto_zero_iff(rotk(code_grid(8), 1), code_val(9), 36);
            assert(rotk(code_grid(8), 1)[0] == code_bit(code_val(9), 0));
            assert(rotk(code_grid(8), 1)[0] == rotk(code_grid(8), 0)[30]);
            assert(rotk(code_grid(8), 0)[30] == code_bit(code_val(8), 30));
            assert(false);
        }
    }
    if j == 10 {
        if ham(rotk(code_grid(8), 1), code_val(10)) == 0 {
            lemma_ham_upto_zero_iff(rotk(code_grid(8), 1), code_val(10), 36);
            assert(rotk(code_grid(8), 1)[0] == code_bit(code_val(10), 0));
            assert(rotk(code_grid(8), 1)[0] == rotk(code_grid(8), 0)[30]);
            assert(rotk(code_grid(8), 0)[30] == code_bit(code_val(8), 30));
            assert(false);
        }
    }
}

/// No codeword equals rotation 2 of codeword 8 (other than itself
/// unrotated).
proof fn lemma_separation_8_2(j: int)
    requires
        0 <= j < 11,
    ensures
        ham(rotk(code_grid(8), 2), code_val(j)) != 0,
{
    reveal_with_fuel(rotk, 6);
    lemma_code_bits_0();
    lemma_code_bits_1();
    lemma_code_bits_2();
    lemma_code_bits_3();
    lemma_code_bits_4();
    lemma_code_bits_5();
    lemma_code_bits_6();
    lemma_code_bits_7();
    lemma_code_bits_8();
    lemma_code_bits_9();
    lemma_code_bits_10();
    if j == 0 {
        if ham(rotk(code_grid(8), 2), code_val(0)) == 0 {
            lemma_ham_upto_zero_iff(rotk(code_grid(8), 2), code_val(0), 36);
            assert(rotk(code_grid(8), 2)[1] == code_bit(code_val(0), 1));
            assert(rotk(code_grid(8), 2)[1] == rotk(code_grid(8), 1)[24]);
            assert(rotk(code_grid(8), 1)[24] == rotk(code_grid(8), 0)[34]);
            assert(rotk(code_grid(8), 0)[34] == code_bit(code_val(8), 34));
            assert(false);
        }
    }
    if j == 1 {
        if ham(rotk(code_grid(8), 2), code_val(1)) == 0 {
            lemma_ham_upto_zero_iff(rotk(code_grid(8), 2), code_val(1), 36);
            assert(rotk(code_grid(8), 2)[1] == code_bit(code_val(1), 1));
            assert(rotk(code_grid(8), 2)[1] == rotk(code_grid(8), 1)[24]);
            assert(rotk(code_grid(8), 1)[24] == rotk(code_grid(8), 0)[34]);
            assert(rotk(code_grid(8), 0)[34] == code_bit(code_val(8), 34));
            assert(false);
        }
    }
    if j == 2 {
        if ham(rotk(code_grid(8), 2), code_val(2)) == 0 {
            lemma_ham_upto_zero_iff(rotk(code_grid(8), 2), code_val(2), 36);
            assert(rotk(code_grid(8), 2)[1] == code_bit(code_val(2), 1));
            assert(rotk(code_grid(8), 2)[1] == rotk(code_grid(8), 1)[24]);
            assert(rotk(code_grid(8), 1)[24] == rotk(code_grid(8), 0)[34]);
            assert(rotk(code_grid(8), 0)[34] == code_bit(code_val(8), 34));
            assert(false);
        }
    }
    if j == 3 {
        if ham(rotk(code_grid(8), 2), code_val(3)) == 0 {
            lemma_ham_upto_zero_iff(rotk(code_grid(8), 2), code_val(3), 36);
            assert(rotk(code_grid(8), 2)[1] == code_bit(code_val(3), 1));
            assert(rotk(code_grid(8), 2)[1] == rotk(code_grid(8), 1)[24]);
            assert(rotk(code_grid(8), 1)[24] == rotk(code_grid(8), 0)[34]);
            assert(rotk(code_grid(8), 0)[34] == code_bit(code_val(8), 34));
            assert(false);
        }
    }
    if j == 4 {
        if ham(rotk(code_grid(8), 2), code_val(4)) == 0 {
            lemma_ham_upto_zero_iff(rotk(code_grid(8), 2), code_val(4), 36);
            assert(rotk(code_grid(8), 2)[1] == code_bit(code_val(4), 1));
            assert(rotk(code_grid(8), 2)[1] == rotk(code_grid(8), 1)[24]);
            assert(rotk(code_grid(8), 1)[24] == rotk(code_grid(8), 0)[34]);
            assert(rotk(code_grid(8), 0)[34] == code_bit(code_val(8), 34));
            assert(false);
        }
    }
    if j == 5 {
        if ham(rotk(code_grid(8), 2), code_val(5)) == 0 {
            lemma_ham_upto_zero_iff(rotk(code_grid(8), 2), code_val(5), 36);
            assert(rotk(code_grid(8), 2)[1] == code_bit(code_val(5), 1));
            assert(rotk(code_grid(8), 2)[1] == rotk(code_grid(8), 1)[24]);
            assert(rotk(code_grid(8), 1)[24] == rotk(code_grid(8), 0)[34]);
            assert(rotk(code_grid(8), 0)[34] == code_bit(code_val(8), 34));
            assert(false);
        }
    }
    if j == 6 {
        if ham(rotk(code_grid(8), 2), code_val(6)) == 0 {
            lemma_ham_upto_zero_iff(rotk(code_grid(8), 2), code_val(6), 36);
            assert(rotk(code_grid(8), 2)[0] == code_bit(code_val(6), 0));
            assert(rotk(code_grid(8), 2)[0] == rotk(code_grid(8), 1)[30]);
            assert(rotk(code_grid(8), 1)[30] == rotk(code_grid(8), 0)[35]);
            assert(rotk(code_grid(8), 0)[35] == code_bit(code_val(8), 35));
            assert(false);
        }
    }
    if j == 7 {
        if ham(rotk(code_grid(8), 2), code_val(7)) == 0 {
            lemma_ham_upto_zero_iff(rotk(code_grid(8), 2), code_val(7), 36);
            assert(rotk(code_grid(8), 2)[0] == code_bit(code_val(7), 0));
            assert(rotk(code_grid(8), 2)[0] == rotk(code_grid(8), 1)[30]);
            assert(rotk(code_grid(8), 1)[30] == rotk(code_grid(8), 0)[35]);
            assert(rotk(code_grid(8), 0)[35] == code_bit(code_val(8), 35));
            assert(false);
        }
    }
    if j == 8 {
        if ham(rotk(code_grid(8), 2), code_val(8)) == 0 {
            lemma_ham_upto_zero_iff(rotk(code_grid(8), 2), code_val(8), 36);
            assert(rotk(code_grid(8), 2)[0] == code_bit(code_val(8), 0));
            assert(rotk(code_grid(8), 2)[0] == rotk(code_grid(8), 1)[30]);
            assert(rotk(code_grid(8), 1)[30] == rotk(code_grid(8), 0)[35]);
            assert(rotk(code_grid(8), 0)[35] == code_bit(code_val(8), 35));
            assert(false);
        }
    }
    if j == 9 {
        if ham(rotk(code_grid(8), 2), code_val(9)) == 0 {
            lemma_ham_upto_zero_iff(rotk(code_grid(8), 2), code_val(9), 36);
            assert(rotk(code_grid(8), 2)[0] == code_bit(code_val(9), 0));
            assert(rotk(code_grid(8), 2)[0] == rotk(code_grid(8), 1)[30]);
            assert(rotk(code_grid(8), 1)[30] == rotk(code_grid(8), 0)[35]);
            assert(rotk(code_grid(8), 0)[35] == code_bit(code_val(8), 35));
            assert(false);
        }
    }
    if j == 10 {
        if ham(rotk(code_grid(8), 2), code_val(10)) == 0 {
            lemma_ham_upto_zero_iff(rotk(code_grid(8), 2), code_val(10), 36);
            assert(rotk(code_grid(8), 2)[0] == code_bit(code_val(10), 0));
            assert(rotk(code_grid(8), 2)[0] == rotk(code_grid(8), 1)[30]);
            assert(rotk(code_grid(8), 1)[30] == rotk(code_grid(8), 0)[35]);
            assert(rotk(code_grid(8), 0)[35] == code_bit(code_val(8), 35));
            assert(false);
        }
    }
}

/// No codeword equals rotation 3 of codeword 8 (other than itself
/// unrotated).
proof fn lemma_separation_8_3(j: int)
    requires
        0 <= j < 11,
    ensures
        ham(rotk(code_grid(8), 3), code_val(j)) != 0,
{
    reveal_with_fuel(rotk, 6);
    lemma_code_bits_0();
    lemma_code_bits_1();
    lemma_code_bits_2();
    lemma_code_bits_3();
    lemma_code_bits_4();
    lemma_code_bits_5();
    lemma_code_bits_6();
    lemma_code_bits_7();
    lemma_code_bits_8();
    lemma_code_bits_9();
    lemma_code_bits_10();
    if j == 0 {
        if ham(rotk(code_grid(8), 3), code_val(0)) == 0 {
            lemma_ham_upto_zero_iff(rotk(code_grid(8), 3), code_val(0), 36);
            assert(rotk(code_grid(8), 3)[0] == code_bit(code_val(0), 0));
            assert(rotk(code_grid(8), 3)[0] == rotk(code_grid(8), 2)[30]);
            assert(rotk(code_grid(8), 2)[30] == rotk(code_grid(8), 1)[35]);
            assert(rotk(code_grid(8), 1)[35] == rotk(code_grid(8), 0)[5]);
            assert(rotk(code_grid(8), 0)[5] == code_bit(code_val(8), 5));
            assert(false);
        }
    }
    if j == 1 {
        if ham(rotk(code_grid(8), 3), code_val(1)) == 0 {
            lemma_ham_upto_zero_iff(rotk(code_grid(8), 3), code_val(1), 36);
            assert(rotk(code_grid(8), 3)[0] == code_bit(code_val(1), 0));
            assert(rotk(code_grid(8), 3)[0] == rotk(code_grid(8), 2)[30]);
            assert(rotk(code_grid(8), 2)[30] == rotk(code_grid(8), 1)[35]);
            assert(rotk(code_grid(8), 1)[35] == rotk(code_grid(8), 0)[5]);
            assert(rotk(code_grid(8), 0)[5] == code_bit(code_val(8), 5));
            assert(false);
        }
    }
    if j == 2 {
        if ham(rotk(code_grid(8), 3), code_val(2)) == 0 {
            lemma_ham_upto_zero_iff(rotk(code_grid(8), 3), code_val(2), 36);
            assert(rotk(code_grid(8), 3)[0] == code_bit(code_val(2), 0));
            assert(rotk(code_grid(8), 3)[0] == rotk(code_grid(8), 2)[30]);
            assert(rotk(code_grid(8), 2)[30] == rotk(code_grid(8), 1)[35]);
            assert(rotk(code_grid(8), 1)[35] == rotk(code_grid(8), 0)[5]);
            assert(rotk(code_grid(8), 0)[5] == code_bit(code_val(8), 5));
            assert(false);
        }
    }
    if j == 3 {
        if ham(rotk(code_grid(8), 3), code_val(3)) == 0 {
            lemma_ham_upto_zero_iff(rotk(code_grid(8), 3), code_val(3), 36);
            assert(rotk(code_grid(8), 3)[0] == code_bit(code_val(3), 0));
            assert(rotk(code_grid(8), 3)[0] == rotk(code_grid(8), 2)[30]);
            assert(rotk(code_grid(8), 2)[30] == rotk(code_grid(8), 1)[35]);
            assert(rotk(code_grid(8), 1)[35] == rotk(code_grid(8), 0)[5]);
            assert(rotk(code_grid(8), 0)[5] == code_bit(code_val(8), 5));
            assert(false);
        }
    }
    if j == 4 {
        if ham(rotk(code_grid(8), 3), code_val(4)) == 0 {
            lemma_ham_upto_zero_iff(rotk(code_grid(8), 3), code_val(4), 36);
            assert(rotk(code_grid(8), 3)[0] == code_bit(code_val(4), 0));
            assert(rotk(code_grid(8), 3)[0] == rotk(code_grid(8), 2)[30]);
            assert(rotk(code_grid(8), 2)[30] == rotk(code_grid(8), 1)[35]);
            assert(rotk(code_grid(8), 1)[35] == rotk(code_grid(8), 0)[5]);
            assert(rotk(code_grid(8), 0)[5] == code_bit(code_val(8), 5));
            assert(false);
        }
    }
    if j == 5 {
        if ham(rotk(code_grid(8), 3), code_val(5)) == 0 {
            lemma_ham_upto_zero_iff(rotk(code_grid(8), 3), code_val(5), 36);
            assert(rotk(code_grid(8), 3)[0] == code_bit(code_val(5), 0));
            assert(rotk(code_grid(8), 3)[0] == rotk(code_grid(8), 2)[30]);
            assert(rotk(code_grid(8), 2)[30] == rotk(code_grid(8), 1)[35]);
            assert(rotk(code_grid(8), 1)[35] == rotk(code_grid(8), 0)[5]);
            assert(rotk(code_grid(8), 0)[5] == code_bit(code_val(8), 5));
            assert(false);
        }
    }
    if j == 6 {
        if ham(rotk(code_grid(8), 3), code_val(6)) == 0 {
            lemma_ham_upto_zero_iff(rotk(code_grid(8), 3), code_val(6), 36);
            assert(rotk(code_grid(8), 3)[1] == code_bit(code_val(6), 1));
            assert(rotk(code_grid(8), 3)[1] == rotk(code_grid(8), 2)[24]);
            assert(rotk(code_grid(8), 2)[24] == rotk(code_grid(8), 1)[34]);
            assert(rotk(code_grid(8), 1)[34] == rotk(code_grid(8), 0)[11]);
            assert(rotk(code_grid(8), 0)[11] == code_bit(code_val(8), 11));
            assert(false);
        }
    }
    if j == 7 {
        if ham(rotk(code_grid(8), 3), code_val(7)) == 0 {
            lemma_ham_upto_zero_iff(rotk(code_grid(8), 3), code_val(7), 36);
            assert(rotk(code_grid(8), 3)[1] == code_bit(code_val(7), 1));
            assert(rotk(code_grid(8), 3)[1] == rotk(code_grid(8), 2)[24]);
            assert(rotk(code_grid(8), 2)[24] == rotk(code_grid(8), 1)[34]);
            assert(rotk(code_grid(8), 1)[34] == rotk(code_grid(8), 0)[11]);
            assert(rotk(code_grid(8), 0)[11] == code_bit(code_val(8), 11));
            assert(false);
        }
    }
    if j == 8 {
        if ham(rotk(code_grid(8), 3), code_val(8)) == 0 {
            lemma_ham_upto_zero_iff(rotk(code_grid(8), 3), code_val(8), 36);
            assert(rotk(code_grid(8), 3)[1] == code_bit(code_val(8), 1));
            assert(rotk(code_grid(8), 3)[1] == rotk(code_grid(8), 2)[24]);
            assert(rotk(code_grid(8), 2)[24] == rotk(code_grid(8), 1)[34]);
            assert(rotk(code_grid(8), 1)[34] == rotk(code_grid(8), 0)[11]);
            assert(rotk(code_grid(8), 0)[11] == code_bit(code_val(8), 11));
            assert(false);
        }
    }
    if j == 9 {
        if ham(rotk(code_grid(8), 3), code_val(9)) == 0 {
            lemma_ham_upto_zero_iff(rotk(code_grid(8), 3), code_val(9), 36);
            assert(rotk(code_grid(8), 3)[1] == code_bit(code_val(9), 1));
            assert(rotk(code_grid(8), 3)[1] == rotk(code_grid(8), 2)[24]);
            assert(rotk(code_grid(8), 2)[24] == rotk(code_grid(8), 1)[34]);
            assert(rotk(code_grid(8), 1)[34] == rotk(code_grid(8), 0)[11]);
            assert(rotk(code_grid(8), 0)[11] == code_bit(code_val(8), 11));
            assert(false);
        }
    }
    if j == 10 {
        if ham(rotk(code_grid(8), 3), code_val(10)) == 0 {
            lemma_ham_upto_zero_iff(rotk(code_grid(8), 3), code_val(10), 36);
            assert(rotk(code_grid(8), 3)[1] == code_bit(code_val(10), 1));
            assert(rotk(code_grid(8), 3)[1] == rotk(code_grid(8), 2)[24]);
            assert(rotk(code_grid(8), 2)[24] == rotk(code_grid(8), 1)[34]);
            assert(rotk(code_grid(8), 1)[34] == rotk(code_grid(8), 0)[11]);
            assert(rotk(code_grid(8), 0)[11] == code_bit(code_val(8), 11));
            assert(false);
        }
    }
}

/// No codeword equals rotation 0 of codeword 9 (other than itself
/// unrotated).
proof fn lemma_separation_9_0(j: int)
    requires
        0 <= j < 11,
        !(0 == 0 && j == 9),
    ensures
        ham(rotk(code_grid(9), 0), code_val(j)) != 0,
{
    reveal_with_fuel(rotk, 6);
    lemma_code_bits_0();
    lemma_code_bits_1();
    lemma_code_bits_2();
    lemma_code_bits_3();
    lemma_code_bits_4();
    lemma_code_bits_5();
    lemma_code_bits_6();
    lemma_code_bits_7();
    lemma_code_bits_8();
    lemma_code_bits_9();
    lemma_code_bits_10();
    if j == 0 {
        if ham(rotk(code_grid(9), 0), code_val(0)) == 0 {
            lemma_ham_upto_zero_iff(rotk(code_grid(9), 0), code_val(0), 36);
            assert(rotk(code_grid(9), 0)[0] == code_bit(code_val(0), 0));

            assert(rotk(code_grid(9), 0)[0] == code_bit(code_val(9), 0));
            assert(false);
        }
    }
    if j == 1 {
        if ham(rotk(code_grid(9), 0), code_val(1)) == 0 {
            lemma_ham_upto_zero_iff(rotk(code_grid(9), 0), code_val(1), 36);
            assert(rotk(code_grid(9), 0)[0] == code_bit(code_val(1), 0));

            assert(rotk(code_grid(9), 0)[0] == code_bit(code_val(9), 0));
            assert(false);
        }
    }
    if j == 2 {
        if ham(rotk(code_grid(9), 0), code_val(2)) == 0 {
            lemma_ham_upto_zero_iff(rotk(code_grid(9), 0), code_val(2), 36);
            assert(rotk(code_grid(9), 0)[0] == code_bit(code_val(2), 0));

            assert(rotk(code_grid(9), 0)[0] == code_bit(code_val(9), 0));
            assert(false);
        }
    }
    if j == 3 {
        if ham(rotk(code_grid(9), 0), code_val(3)) == 0 {
            lemma_ham_upto_zero_iff(rotk(code_grid(9), 0), code_val(3), 36);
            assert(rotk(code_grid(9), 0)[0] == code_bit(code_val(3), 0));

            assert(rotk(code_grid(9), 0)[0] == code_bit(code_val(9), 0));
            assert(false);
        }
    }
    if j == 4 {
        if ham(rotk(code_grid(9), 0), code_val(4)) == 0 {
            lemma_ham_upto_zero_iff(rotk(code_grid(9), 0), code_val(4), 36);
            assert(rotk(code_grid(9), 0)[0] == code_bit(code_val(4), 0));

            assert(rotk(code_grid(9), 0)[0] == code_bit(code_val(9), 0));
            assert(false);
        }
    }
    if j == 5 {
        if ham(rotk(code_grid(9), 0), code_val(5)) == 0 {
            lemma_ham_upto_zero_iff(rotk(code_grid(9), 0), code_val(5), 36);
            assert(rotk(code_grid(9), 0)[0] == code_bit(code_val(5), 0));

            assert(rotk(code_grid(9), 0)[0] == code_bit(code_val(9), 0));
            assert(false);
        }
    }
    if j == 6 {
        if ham(rotk(code_grid(9), 0), code_val(6)) == 0 {
            lemma_ham_upto_zero_iff(rotk(code_grid(9), 0), code_val(6), 36);
            assert(rotk(code_grid(9), 0)[2] == code_bit(code_val(6), 2));

            assert(rotk(code_grid(9), 0)[2] == code_bit(code_val(9), 2));
            assert(false);
        }
    }
    if j == 7 {
        if ham(rotk(code_grid(9), 0), code_val(7)) == 0 {
            lemma_ham_upto_zero_iff(rotk(code_grid(9), 0), code_val(7), 36);
            assert(rotk(code_grid(9), 0)[2] == code_bit(code_val(7), 2));

            assert(rotk(code_grid(9), 0)[2] == code_bit(code_val(9), 2));
            assert(false);
        }
    }
    if j == 8 {
        if ham(rotk(code_grid(9), 0), code_val(8)) == 0 {
            lemma_ham_upto_zero_iff(rotk(code_grid(9), 0), code_val(8), 36);
            assert(rotk(code_grid(9), 0)[5] == code_bit(code_val(8), 5));

            assert(rotk(code_grid(9), 0)[5] == code_bit(code_val(9), 5));
            assert(false);
        }
    }
    if j == 10 {
        if ham(rotk(code_grid(9), 0), code_val(10)) == 0 {
            lemma_ham_upto_zero_iff(rotk(code_grid(9), 0), code_val(10), 36);
            assert(rotk(code_grid(9), 0)[3] == code_bit(code_val(10), 3));

            assert(rotk(code_grid(9), 0)[3] == code_bit(code_val(9), 3));
            assert(false);
        }
    }
}

/// No codeword equals rotation 1 of codeword 9 (other than itself
/// unrotated).
proof fn lemma_separation_9_1(j: int)
    requires
        0 <= j < 11,
    ensures
        ham(rotk(code_grid(9), 1), code_val(j)) != 0,
{
    reveal_with_fuel(rotk, 6);
    lemma_code_bits_0();
    lemma_code_bits_1();
    lemma_code_bits_2();
    lemma_code_bits_3();
    lemma_code_bits_4();
    lemma_code_bits_5();
    lemma_code_bits_6();
    lemma_code_bits_7();
    lemma_code_bits_8();
    lemma_code_bits_9();
    lemma_code_bits_10();
    if j == 0 {
        if ham(rotk(code_grid(9), 1), code_val(0)) == 0 {
            lemma_ham_upto_zero_iff(rotk(code_grid(9), 1), code_val(0), 36);
            assert(rotk(code_grid(9), 1)[1] == code_bit(code_val(0), 1));
            assert(rotk(code_grid(9), 1)[1] == rotk(code_grid(9), 0)[24]);
            assert(rotk(code_grid(9), 0)[24] == code_bit(code_val(9), 24));
            assert(false);
        }
    }
    if j == 1 {
        if ham(rotk(code_grid(9), 1), code_val(1)) == 0 {
            lemma_ham_upto_zero_iff(rotk(code_grid(9), 1), code_val(1), 36);
            assert(rotk(code_grid(9), 1)[1] == code_bit(code_val(1), 1));
            assert(rotk(code_grid(9), 1)[1] == rotk(code_grid(9), 0)[24]);
            assert(rotk(code_grid(9), 0)[24] == code_bit(code_val(9), 24));
            assert(false);
        }
    }
    if j == 2 {
        if ham(rotk(code_grid(9), 1), code_val(2)) == 0 {
            lemma_ham_upto_zero_iff(rotk(code_grid(9), 1), code_val(2), 36);
            assert(rotk(code_grid(9), 1)[1] == code_bit(code_val(2), 1));
            assert(rotk(code_grid(9), 1)[1] == rotk(code_grid(9), 0)[24]);
            assert(rotk(code_grid(9), 0)[24] == code_bit(code_val(9), 24));
            assert(false);
        }
    }
    if j == 3 {
        if ham(rotk(code_grid(9), 1), code_val(3)) == 0 {
            lemma_ham_upto_zero_iff(rotk(code_grid(9), 1), code_val(3), 36);
            assert(rotk(code_grid(9), 1)[1] == code_bit(code_val(3), 1));
            assert(rotk(code_grid(9), 1)[1] == rotk(code_grid(9), 0)[24]);
            assert(rotk(code_grid(9), 0)[24] == code_bit(code_val(9), 24));
            assert(false);
        }
    }
    if j == 4 {
        if ham(rotk(code_grid(9), 1), code_val(4)) == 0 {
            lemma_ham_upto_zero_iff(rotk(code_grid(9), 1), code_val(4), 36);
            assert(rotk(code_grid(9), 1)[1] == code_bit(code_val(4), 1));
            assert(rotk(code_grid(9), 1)[1] == rotk(code_grid(9), 0)[24]);
            assert(rotk(code_grid(9), 0)[24] == code_bit(code_val(9), 24));
            assert(false);
        }
    }
    if j == 5 {
        if ham(rotk(code_grid(9), 1), code_val(5)) == 0 {
            lemma_ham_upto_zero_iff(rotk(code_grid(9), 1), code_val(5), 36);
            assert(rotk(code_grid(9), 1)[1] == code_bit(code_val(5), 1));
            assert(rotk(code_grid(9), 1)[1] == rotk(code_grid(9), 0)[24]);
            assert(rotk(code_grid(9), 0)[24] == code_bit(code_val(9), 24));
            assert(false);
        }
    }
    if j == 6 {
        if ham(rotk(code_grid(9), 1), code_val(6)) == 0 {
            lemma_ham_upto_zero_iff(rotk(code_grid(9), 1), code_val(6), 36);
            assert(rotk(code_grid(9), 1)[0] == code_bit(code_val(6), 0));
            assert(rotk(code_grid(9), 1)[0] == rotk(code_grid(9), 0)[30]);
            assert(rotk(code_grid(9), 0)[30] == code_bit(code_val(9), 30));
            assert(false);
        }
    }
    if j == 7 {
        if ham(rotk(code_grid(9), 1), code_val(7)) == 0 {
            lemma_ham_upto_zero_iff(rotk(code_grid(9), 1), code_val(7), 36);
            assert(rotk(code_grid(9), 1)[0] == code_bit(code_val(7), 0));
            assert(rotk(code_grid(9), 1)[0] == rotk(code_grid(9), 0)[30]);
            assert(rotk(code_grid(9), 0)[30] == code_bit(code_val(9), 30));
            assert(false);
        }
    }
    if j == 8 {
        if ham(rotk(code_grid(9), 1), code_val(8)) == 0 {
            lemma_ham_upto_zero_iff(rotk(code_grid(9), 1), code_val(8), 36);
            assert(rotk(code_grid(9), 1)[0] == code_bit(code_val(8), 0));
            assert(rotk(code_grid(9), 1)[0] == rotk(code_grid(9), 0)[30]);
            assert(rotk(code_grid(9), 0)[30] == code_bit(code_val(9), 30));
            assert(false);
        }
    }
    if j == 9 {
        if ham(rotk(code_grid(9), 1), code_val(9)) == 0 {
            lemma_ham_upto_zero_iff(rotk(code_grid(9), 1), code_val(9), 36);
            assert(rotk(code_grid(9), 1)[0] == code_bit(code_val(9), 0));
            assert(rotk(code_grid(9), 1)[0] == rotk(code_grid(9), 0)[30]);
            assert(rotk(code_grid(9), 0)[30] == code_bit(code_val(9), 30));
            assert(false);
        }
    }
    if j == 10 {
        if ham(rotk(code_grid(9), 1), code_val(10)) == 0 {
            lemma_ham_upto_zero_iff(rotk(code_grid(9), 1), code_val(10), 36);
            assert(rotk(code_grid(9), 1)[0] == code_bit(code_val(10), 0));
            assert(rotk(code_grid(9), 1)[0] == rotk(code_grid(9), 0)[30]);
            assert(rotk(code_grid(9), 0)[30] == code_bit(code_val(9), 30));
            assert(false);
        }
    }
}

/// No codeword equals rotation 2 of codeword 9 (other than itself
/// unrotated).
proof fn lemma_separation_9_2(j: int)
    requires
        0 <= j < 11,
    ensures
        ham(rotk(code_grid(9), 2), code_val(j)) != 0,
{
    reveal_with_fuel(rotk, 6);
    lemma_code_bits_0();
    lemma_code_bits_1();
    lemma_code_bits_2();
    lemma_code_bits_3();
    lemma_code_bits_4();
    lemma_code_bits_5();
    lemma_code_bits_6();
    lemma_code_bits_7();
    lemma_code_bits_8();
    lemma_code_bits_9();
    lemma_code_bits_10();
    if j == 0 {
        if ham(rotk(code_grid(9), 2), code_val(0)) == 0 {
            lemma_ham_upto_zero_iff(rotk(code_grid(9), 2), code_val(0), 36);
            assert(rotk(code_grid(9), 2)[0] == code_bit(code_val(0), 0));
            assert(rotk(code_grid(9), 2)[0] == rotk(code_grid(9), 1)[30]);
            assert(rotk(code_grid(9), 1)[30] == rotk(code_grid(9), 0)[35]);
            assert(rotk(code_grid(9), 0)[35] == code_bit(code_val(9), 35));
            assert(false);
        }
    }
    if j == 1 {
        if ham(rotk(code_grid(9), 2), code_val(1)) == 0 {
            lemma_ham_upto_zero_iff(rotk(code_grid(9), 2), code_val(1), 36);
            assert(rotk(code_grid(9), 2)[0] == code_bit(code_val(1), 0));
            assert(rotk(code_grid(9), 2)[0] == rotk(code_grid(9), 1)[30]);
            assert(rotk(code_grid(9), 1)[30] == rotk(code_grid(9), 0)[35]);
            assert(rotk(code_grid(9), 0)[35] == code_bit(code_val(9), 35));
            assert(false);
        }
    }
    if j == 2 {
        if ham(rotk(code_grid(9), 2), code_val(2)) == 0 {
            lemma_ham_upto_zero_iff(rotk(code_grid(9), 2), code_val(2), 36);
            assert(rotk(code_grid(9), 2)[0] == code_bit(code_val(2), 0));
            assert(rotk(code_grid(9), 2)[0] == rotk(code_grid(9), 1)[30]);
            assert(rotk(code_grid(9), 1)[30] == rotk(code_grid(9), 0)[35]);
            assert(rotk(code_grid(9), 0)[35] == code_bit(code_val(9), 35));
            assert(false);
        }
    }
    if j == 3 {
        if ham(rotk(code_grid(9), 2), code_val(3)) == 0 {
            lemma_ham_upto_zero_iff(rotk(code_grid(9), 2), code_val(3), 36);
            assert(rotk(code_grid(9), 2)[0] == code_bit(code_val(3), 0));
            assert(rotk(code_grid(9), 2)[0] == rotk(code_grid(9), 1)[30]);
            assert(rotk(code_grid(9), 1)[30] == rotk(code_grid(9), 0)[35]);
            assert(rotk(code_grid(9), 0)[35] == code_bit(code_val(9), 35));
            assert(false);
        }
    }
    if j == 4 {
        if ham(rotk(code_grid(9), 2), code_val(4)) == 0 {
            lemma_ham_upto_zero_iff(rotk(code_grid(9), 2), code_val(4), 36);
            assert(rotk(code_grid(9), 2)[0] == code_bit(code_val(4), 0));
            assert(rotk(code_grid(9), 2)[0] == rotk(code_grid(9), 1)[30]);
            assert(rotk(code_grid(9), 1)[30] == rotk(code_grid(9), 0)[35]);
            assert(rotk(code_grid(9), 0)[35] == code_bit(code_val(9), 35));
            assert(false);
        }
    }
    if j == 5 {
        if ham(rotk(code_grid(9), 2), code_val(5)) == 0 {
            lemma_ham_upto_zero_iff(rotk(code_grid(9), 2), code_val(5), 36);
            assert(rotk(code_grid(9), 2)[0] == code_bit(code_val(5), 0));
            assert(rotk(code_grid(9), 2)[0] == rotk(code_grid(9), 1)[30]);
            assert(rotk(code_grid(9), 1)[30] == rotk(code_grid(9), 0)[35]);
            assert(rotk(code_grid(9), 0)[35] == code_bit(code_val(9), 35));
            assert(false);
        }
    }
    if j == 6 {
        if ham(rotk(code_grid(9), 2), code_val(6)) == 0 {
            lemma_ham_upto_zero_iff(rotk(code_grid(9), 2), code_val(6), 36);
            assert(rotk(code_grid(9), 2)[1] == code_bit(code_val(6), 1));
            assert(rotk(code_grid(9), 2)[1] == rotk(code_grid(9), 1)[24]);
            assert(rotk(code_grid(9), 1)[24] == rotk(code_grid(9), 0)[34]);
            assert(rotk(code_grid(9), 0)[34] == code_bit(code_val(9), 34));
            assert(false);
        }
    }
    if j == 7 {
        if ham(rotk(code_grid(9), 2), code_val(7)) == 0 {
            lemma_ham_upto_zero_iff(rotk(code_grid(9), 2), code_val(7), 36);
            assert(rotk(code_grid(9), 2)[1] == code_bit(code_val(7), 1));
            assert(rotk(code_grid(9), 2)[1] == rotk(code_grid(9), 1)[24]);
            assert(rotk(code_grid(9), 1)[24] == rotk(code_grid(9), 0)[34]);
            assert(rotk(code_grid(9), 0)[34] == code_bit(code_val(9), 34));
            assert(false);
        }
    }
    if j == 8 {
        if ham(rotk(code_grid(9), 2), code_val(8)) == 0 {
            lemma_ham_upto_zero_iff(rotk(code_grid(9), 2), code_val(8), 36);
            assert(rotk(code_grid(9), 2)[1] == code_bit(code_val(8), 1));
            assert(rotk(code_grid(9), 2)[1] == rotk(code_grid(9), 1)[24]);
            assert(rotk(code_grid(9), 1)[24] == rotk(code_grid(9), 0)[34]);
            assert(rotk(code_grid(9), 0)[34] == code_bit(code_val(9), 34));
            assert(false);
        }
    }
    if j == 9 {
        if ham(rotk(code_grid(9), 2), code_val(9)) == 0 {
            lemma_ham_upto_zero_iff(rotk(code_grid(9), 2), code_val(9), 36);
            assert(rotk(code_grid(9), 2)[1] == code_bit(code_val(9), 1));
            assert(rotk(code_grid(9), 2)[1] == rotk(code_grid(9), 1)[24]);
            assert(rotk(code_grid(9), 1)[24] == rotk(code_grid(9), 0)[34]);
            assert(rotk(code_grid(9), 0)[34] == code_bit(code_val(9), 34));
            assert(false);
        }
    }
    if j == 10 {
        if ham(rotk(code_grid(9), 2), code_val(10)) == 0 {
            lemma_ham_upto_zero_iff(rotk(code_grid(9), 2), code_val(10), 36);
            assert(rotk(code_grid(9), 2)[1] == code_bit(code_val(10), 1));
            assert(rotk(code_grid(9), 2)[1] == rotk(code_grid(9), 1)[24]);
            assert(rotk(code_grid(9), 1)[24] == rotk(code_grid(9), 0)[34]);
            assert(rotk(code_grid(9), 0)[34] == code_bit(code_val(9), 34));
            assert(false);
        }
    }
}

/// No codeword equals rotation 3 of codeword 9 (other than itself
/// unrotated).
proof fn lemma_separation_9_3(j: int)
    requires
        0 <= j < 11,
    ensures
        ham(rotk(code_grid(9), 3), code_val(j)) != 0,
{
    reveal_with_fuel(rotk, 6);
    lemma_code_bits_0();
    lemma_code_bits_1();
    lemma_code_bits_2();
    lemma_code_bits_3();
    lemma_code_bits_4();
    lemma_code_bits_5();
    lemma_code_bits_6();
    lemma_code_bits_7();
    lemma_code_bits_8();
    lemma_code_bits_9();
    lemma_code_bits_10();
    if j == 0 {
        if ham(rotk(code_grid(9), 3), code_val(0)) == 0 {
            lemma_ham_upto_zero_iff(rotk(code_grid(9), 3), code_val(0), 36);
            assert(rotk(code_grid(9), 3)[2] == code_bit(code_val(0), 2));
            assert(rotk(code_grid(9), 3)[2] == rotk(code_grid(9), 2)[18]);
            assert(rotk(code_grid(9), 2)[18] == rotk(code_grid(9), 1)[33]);
            assert(rotk(code_grid(9), 1)[33] == rotk(code_grid(9), 0)[17]);
            assert(rotk(code_grid(9), 0)[17] == code_bit(code_val(9), 17));
            assert(false);
        }
    }
    if j == 1 {
        if ham(rotk(code_grid(9), 3), code_val(1)) == 0 {
            lemma_ham_upto_zero_iff(rotk(code_grid(9), 3), code_val(1), 36);
            assert(rotk(code_grid(9), 3)[2] == code_bit(code_val(1), 2));
            assert(rotk(code_grid(9), 3)[2] == rotk(code_grid(9), 2)[18]);
            assert(rotk(code_grid(9), 2)[18] == rotk(code_grid(9), 1)[33]);
            assert(rotk(code_grid(9), 1)[33] == rotk(code_grid(9), 0)[17]);
            assert(rotk(code_grid(9), 0)[17] == code_bit(code_val(9), 17));
            assert(false);
        }
    }
    if j == 2 {
        if ham(rotk(code_grid(9), 3), code_val(2)) == 0 {
            lemma_ham_upto_zero_iff(rotk(code_grid(9), 3), code_val(2), 36);
            assert(rotk(code_grid(9), 3)[2] == code_bit(code_val(2), 2));
            assert(rotk(code_grid(9), 3)[2] == rotk(code_grid(9), 2)[18]);
            assert(rotk(code_grid(9), 2)[18] == rotk(code_grid(9), 1)[33]);
            assert(rotk(code_grid(9), 1)[33] == rotk(code_grid(9), 0)[17]);
            assert(rotk(code_grid(9), 0)[17] == code_bit(code_val(9), 17));
            assert(false);
        }
    }
    if j == 3 {
        if ham(rotk(code_grid(9), 3), code_val(3)) == 0 {
            lemma_ham_upto_zero_iff(rotk(code_grid(9), 3), code_val(3), 36);
            assert(rotk(code_grid(9), 3)[4] == code_bit(code_val(3), 4));
            assert(rotk(code_grid(9), 3)[4] == rotk(code_grid(9), 2)[6]);
            assert(rotk(code_grid(9), 2)[6] == rotk(code_grid(9), 1)[31]);
            assert(rotk(code_grid(9), 1)[31] == rotk(code_grid(9), 0)[29]);
            assert(rotk(code_grid(9), 0)[29] == code_bit(code_val(9), 29));
            assert(false);
        }
    }
    if j == 4 {
        if ham(rotk(code_grid(9), 3), code_val(4)) == 0 {
            lemma_ham_upto_zero_iff(rotk(code_grid(9), 3), code_val(4), 36);
            assert(rotk(code_grid(9), 3)[6] == code_bit(code_val(4), 6));
            assert(rotk(code_grid(9), 3)[6] == rotk(code_grid(9), 2)[31]);
            assert(rotk(code_grid(9), 2)[31] == rotk(code_grid(9), 1)[29]);
            assert(rotk(code_grid(9), 1)[29] == rotk(code_grid(9), 0)[4]);
            assert(rotk(code_grid(9), 0)[4] == code_bit(code_val(9), 4));
            assert(false);
        }
    }
    if j == 5 {
        if ham(rotk(code_grid(9), 3), code_val(5)) == 0 {
            lemma_ham_upto_zero_iff(rotk(code_grid(9), 3), code_val(5), 36);
            assert(rotk(code_grid(9), 3)[3] == code_bit(code_val(5), 3));
            assert(rotk(code_grid(9), 3)[3] == rotk(code_grid(9), 2)[12]);
            assert(rotk(code_grid(9), 2)[12] == rotk(code_grid(9), 1)[32]);
            assert(rotk(code_grid(9), 1)[32] == rotk(code_grid(9), 0)[23]);
            assert(rotk(code_grid(9), 0)[23] == code_bit(code_val(9), 23));
            assert(false);
        }
    }
    if j == 6 {
        if ham(rotk(code_grid(9), 3), code_val(6)) == 0 {
            lemma_ham_upto_zero_iff(rotk(code_grid(9), 3), code_val(6), 36);
            assert(rotk(code_grid(9), 3)[0] == code_bit(code_val(6), 0));
            assert(rotk(code_grid(9), 3)[0] == rotk(code_grid(9), 2)[30]);
            assert(rotk(code_grid(9), 2)[30] == rotk(code_grid(9), 1)[35]);
            assert(rotk(code_grid(9), 1)[35] == rotk(code_grid(9), 0)[5]);
            assert(rotk(code_grid(9), 0)[5] == code_bit(code_val(9), 5));
            assert(false);
        }
    }
    if j == 7 {
        if ham(rotk(code_grid(9), 3), code_val(7)) == 0 {
            lemma_ham_upto_zero_iff(rotk(code_grid(9), 3), code_val(7), 36);
            assert(rotk(code_grid(9), 3)[0] == code_bit(code_val(7), 0));
            assert(rotk(code_grid(9), 3)[0] == rotk(code_grid(9), 2)[30]);
            assert(rotk(code_grid(9), 2)[30] == rotk(code_grid(9), 1)[35]);
            assert(rotk(code_grid(9), 1)[35] == rotk(code_grid(9), 0)[5]);
            assert(rotk(code_grid(9), 0)[5] == code_bit(code_val(9), 5));
            assert(false);
        }
    }
    if j == 8 {
        if ham(rotk(code_grid(9), 3), code_val(8)) == 0 {
            lemma_ham_upto_zero_iff(rotk(code_grid(9), 3), code_val(8), 36);
            assert(rotk(code_grid(9), 3)[0] == code_bit(code_val(8), 0));
            assert(rotk(code_grid(9), 3)[0] == rotk(code_grid(9), 2)[30]);
            assert(rotk(code_grid(9), 2)[30] == rotk(code_grid(9), 1)[35]);
            assert(rotk(code_grid(9), 1)[35] == rotk(code_grid(9), 0)[5]);
            assert(rotk(code_grid(9), 0)[5] == code_bit(code_val(9), 5));
            assert(false);
        }
    }
    if j == 9 {
        if ham(rotk(code_grid(9), 3), code_val(9)) == 0 {
            lemma_ham_upto_zero_iff(rotk(code_grid(9), 3), code_val(9), 36);
            assert(rotk(code_grid(9), 3)[0] == code_bit(code_val(9), 0));
            assert(rotk(code_grid(9), 3)[0] == rotk(code_grid(9), 2)[30]);
            assert(rotk(code_grid(9), 2)[30] == rotk(code_grid(9), 1)[35]);
            assert(rotk(code_grid(9), 1)[35] == rotk(code_grid(9), 0)[5]);
            assert(rotk(code_grid(9), 0)[5] == code_bit(code_val(9), 5));
            assert(false);
        }
    }
    if j == 10 {
        if ham(rotk(code_grid(9), 3), code_val(10)) == 0 {
            lemma_ham_upto_zero_iff(rotk(code_grid(9), 3), code_val(10), 36);
            assert(rotk(code_grid(9), 3)[0] == code_bit(code_val(10), 0));
            assert(rotk(code_grid(9), 3)[0] == rotk(code_grid(9), 2)[30]);
            assert(rotk(code_grid(9), 2)[30] == rotk(code_grid(9), 1)[35]);
            assert(rotk(code_grid(9), 1)[35] == rotk(code_grid(9), 0)[5]);
            assert(rotk(code_grid(9), 0)[5] == code_bit(code_val(9), 5));
            assert(false);
        }
    }
}

/// No codeword equals rotation 0 of codeword 10 (other than itself
/// unrotated).
proof fn lemma_separation_10_0(j: int)
    requires
        0 <= j < 11,
        !(0 == 0 && j == 10),
    ensures
        ham(rotk(code_grid(10), 0), code_val(j)) != 0,
{
    reveal_with_fuel(rotk, 6);
    lemma_code_bits_0();
    lemma_code_bits_1();
    lemma_code_bits_2();
    lemma_code_bits_3();
    lemma_code_bits_4();
    lemma_code_bits_5();
    lemma_code_bits_6();
    lemma_code_bits_7();
    lemma_code_bits_8();
    lemma_code_bits_9();
    lemma_code_bits_10();
    if j == 0 {
        if ham(rotk(code_grid(10), 0), code_val(0)) == 0 {
            lemma_ham_upto_zero_iff(rotk(code_grid(10), 0), code_val(0), 36);
            assert(rotk(code_grid(10), 0)[0] == code_bit(code_val(0), 0));

            assert(rotk(code_grid(10), 0)[0] == code_bit(code_val(10), 0));
            assert(false);
        }
    }
    if j == 1 {
        if ham(rotk(code_grid(10), 0), code_val(1)) == 0 {
            lemma_ham_upto_zero_iff(rotk(code_grid(10), 0), code_val(1), 36);
            assert(rotk(code_grid(10), 0)[0] == code_bit(code_val(1), 0));

            assert(rotk(code_grid(10), 0)[0] == code_bit(code_val(10), 0));
            assert(false);
        }
    }
    if j == 2 {
        if ham(rotk(code_grid(10), 0), code_val(2)) == 0 {
            lemma_ham_upto_zero_iff(rotk(code_grid(10), 0), code_val(2), 36);
            assert(rotk(code_grid(10), 0)[0] == code_bit(code_val(2), 0));

            assert(rotk(code_grid(10), 0)[0] == code_bit(code_val(10), 0));
            assert(false);
        }
    }
    if j == 3 {
        if ham(rotk(code_grid(10), 0), code_val(3)) == 0 {
            lemma_ham_upto_zero_iff(rotk(code_grid(10), 0), code_val(3), 36);
            assert(rotk(code_grid(10), 0)[0] == code_bit(code_val(3), 0));

            assert(rotk(code_grid(10), 0)[0] == code_bit(code_val(10), 0));
            assert(false);
        }
    }
    if j == 4 {
        if ham(rotk(code_grid(10), 0), code_val(4)) == 0 {
            lemma_ham_upto_zero_iff(rotk(code_grid(10), 0), code_val(4), 36);
            assert(rotk(code_grid(10), 0)[0] == code_bit(code_val(4), 0));

            assert(rotk(code_grid(10), 0)[0] == code_bit(code_val(10), 0));
            assert(false);
        }
    }
    if j == 5 {
        if ham(rotk(code_grid(10), 0), code_val(5)) == 0 {
            lemma_ham_upto_zero_iff(rotk(code_grid(10), 0), code_val(5), 36);
            assert(rotk(code_grid(10), 0)[0] == code_bit(code_val(5), 0));

            assert(rotk(code_grid(10), 0)[0] == code_bit(code_val(10), 0));
            assert(false);
        }
    }
    if j == 6 {
        if ham(rotk(code_grid(10), 0), code_val(6)) == 0 {
            lemma_ham_upto_zero_iff(rotk(code_grid(10), 0), code_val(6), 36);
            assert(rotk(code_grid(10), 0)[2] == code_bit(code_val(6), 2));

            assert(rotk(code_grid(10), 0)[2] == code_bit(code_val(10), 2));
            assert(false);
        }
    }
    if j == 7 {
        if ham(rotk(code_grid(10), 0), code_val(7)) == 0 {
            lemma_ham_upto_zero_iff(rotk(code_grid(10), 0), code_val(7), 36);
            assert(rotk(code_grid(10), 0)[2] == code_bit(code_val(7), 2));

            assert(rotk(code_grid(10), 0)[2] == code_bit(code_val(10), 2));
            assert(false);
        }
    }
    if j == 8 {
        if ham(rotk(code_grid(10), 0), code_val(8)) == 0 {
            lemma_ham_upto_zero_iff(rotk(code_grid(10), 0), code_val(8), 36);
            assert(rotk(code_grid(10), 0)[3] == code_bit(code_val(8), 3));

            assert(rotk(code_grid(10), 0)[3] == code_bit(code_val(10), 3));
            assert(false);
        }
    }
    if j == 9 {
        if ham(rotk(code_grid(10), 0), code_val(9)) == 0 {
            lemma_ham_upto_zero_iff(rotk(code_grid(10), 0), code_val(9), 36);
            assert(rotk(code_grid(10), 0)[3] == code_bit(code_val(9), 3));

            assert(rotk(code_grid(10), 0)[3] == code_bit(code_val(10), 3));
            assert(false);
        }
    }
}

/// No codeword equals rotation 1 of codeword 10 (other than itself
/// unrotated).
proof fn lemma_separation_10_1(j: int)
    requires
        0 <= j < 11,
    ensures
        ham(rotk(code_grid(10), 1), code_val(j)) != 0,
{
    reveal_with_fuel(rotk, 6);
    lemma_code_bits_0();
    lemma_code_bits_1();
    lemma_code_bits_2();
    lemma_code_bits_3();
    lemma_code_bits_4();
    lemma_code_bits_5();
    lemma_code_bits_6();
    lemma_code_bits_7();
    lemma_code_bits_8();
    lemma_code_bits_9();
    lemma_code_bits_10();
    if j == 0 {
        if ham(rotk(code_grid(10), 1), code_val(0)) == 0 {
            lemma_ham_upto_zero_iff(rotk(code_grid(10), 1), code_val(0), 36);
            assert(rotk(code_grid(10), 1)[0] == code_bit(code_val(0), 0));
            assert(rotk(code_grid(10), 1)[0] == rotk(code_grid(10), 0)[30]);
            assert(rotk(code_grid(10), 0)[30] == code_bit(code_val(10), 30));
            assert(false);
        }
    }
    if j == 1 {
        if ham(rotk(code_grid(10), 1), code_val(1)) == 0 {
            lemma_ham_upto_zero_iff(rotk(code_grid(10), 1), code_val(1), 36);
            assert(rotk(code_grid(10), 1)[0] == code_bit(code_val(1), 0));
            assert(rotk(code_grid(10), 1)[0] == rotk(code_grid(10), 0)[30]);
            assert(rotk(code_grid(10), 0)[30] == code_bit(code_val(10), 30));
            assert(false);
        }
    }
    if j == 2 {
        if ham(rotk(code_grid(10), 1), code_val(2)) == 0 {
            lemma_ham_upto_zero_iff(rotk(code_grid(10), 1), code_val(2), 36);
            assert(rotk(code_grid(10), 1)[0] == code_bit(code_val(2), 0));
            assert(rotk(code_grid(10), 1)[0] == rotk(code_grid(10), 0)[30]);
            assert(rotk(code_grid(10), 0)[30] == code_bit(code_val(10), 30));
            assert(false);
        }
    }
    if j == 3 {
        if ham(rotk(code_grid(10), 1), code_val(3)) == 0 {
            lemma_ham_upto_zero_iff(rotk(code_grid(10), 1), code_val(3), 36);
            assert(rotk(code_grid(10), 1)[0] == code_bit(code_val(3), 0));
            assert(rotk(code_grid(10), 1)[0] == rotk(code_grid(10), 0)[30]);
            assert(rotk(code_grid(10), 0)[30] == code_bit(code_val(10), 30));
            assert(false);
        }
    }
    if j == 4 {
        if ham(rotk(code_grid(10), 1), code_val(4)) == 0 {
            lemma_ham_upto_zero_iff(rotk(code_grid(10), 1), code_val(4), 36);
            assert(rotk(code_grid(10), 1)[0] == code_bit(code_val(4), 0));
            assert(rotk(code_grid(10), 1)[0] == rotk(code_grid(10), 0)[30]);
            assert(rotk(code_grid(10), 0)[30] == code_bit(code_val(10), 30));
            assert(false);
        }
    }
    if j == 5 {
        if ham(rotk(code_grid(10), 1), code_val(5)) == 0 {
            lemma_ham_upto_zero_iff(rotk(code_grid(10), 1), code_val(5), 36);
            assert(rotk(code_grid(10), 1)[0] == code_bit(code_val(5), 0));
            assert(rotk(code_grid(10), 1)[0] == rotk(code_grid(10), 0)[30]);
            assert(rotk(code_grid(10), 0)[30] == code_bit(code_val(10), 30));
            assert(false);
        }
    }
    if j == 6 {
        if ham(rotk(code_grid(10), 1), code_val(6)) == 0 {
            lemma_ham_upto_zero_iff(rotk(code_grid(10), 1), code_val(6), 36);
            assert(rotk(code_grid(10), 1)[1] == code_bit(code_val(6), 1));
            assert(rotk(code_grid(10), 1)[1] == rotk(code_grid(10), 0)[24]);
            assert(rotk(code_grid(10), 0)[24] == code_bit(code_val(10), 24));
            assert(false);
        }
    }
    if j == 7 {
        if ham(rotk(code_grid(10), 1), code_val(7)) == 0 {
            lemma_ham_upto_zero_iff(rotk(code_grid(10), 1), code_val(7), 36);
            assert(rotk(code_grid(10), 1)[1] == code_bit(code_val(7), 1));
            assert(rotk(code_grid(10), 1)[1] == rotk(code_grid(10), 0)[24]);
            assert(rotk(code_grid(10), 0)[24] == code_bit(code_val(10), 24));
            assert(false);
        }
    }
    if j == 8 {
        if ham(rotk(code_grid(10), 1), code_val(8)) == 0 {
            lemma_ham_upto_zero_iff(rotk(code_grid(10), 1), code_val(8), 36);
            assert(rotk(code_grid(10), 1)[1] == code_bit(code_val(8), 1));
            assert(rotk(code_grid(10), 1)[1] == rotk(code_grid(10), 0)[24]);
            assert(rotk(code_grid(10), 0)[24] == code_bit(code_val(10), 24));
            assert(false);
        }
    }
    if j == 9 {
        if ham(rotk(code_grid(10), 1), code_val(9)) == 0 {
            lemma_ham_upto_zero_iff(rotk(code_grid(10), 1), code_val(9), 36);
            assert(rotk(code_grid(10), 1)[1] == code_bit(code_val(9), 1));
            assert(rotk(code_grid(10), 1)[1] == rotk(code_grid(10), 0)[24]);
            assert(rotk(code_grid(10), 0)[24] == code_bit(code_val(10), 24));
            assert(false);
        }
    }
    if j == 10 {
        if ham(rotk(code_grid(10), 1), code_val(10)) == 0 {
            lemma_ham_upto_zero_iff(rotk(code_grid(10), 1), code_val(10), 36);
            assert(rotk(code_grid(10), 1)[1] == code_bit(code_val(10), 1));
            assert(rotk(code_grid(10), 1)[1] == rotk(code_grid(10), 0)[24]);
            assert(rotk(code_grid(10), 0)[24] == code_bit(code_val(10), 24));
            assert(false);
        }
    }
}

/// No codeword equals rotation 2 of codeword 10 (other than itself
/// unrotated).
proof fn lemma_separation_10_2(j: int)
    requires
        0 <= j < 11,
    ensures
        ham(rotk(code_grid(10), 2), code_val(j)) != 0,
{
    reveal_with_fuel(rotk, 6);
    lemma_code_bits_0();
    lemma_code_bits_1();
    lemma_code_bits_2();
    lemma_code_bits_3();
    lemma_code_bits_4();
    lemma_code_bits_5();
    lemma_code_bits_6();
    lemma_code_bits_7();
    lemma_code_bits_8();
    lemma_code_bits_9();
    lemma_code_bits_10();
    if j == 0 {
        if ham(rotk(code_grid(10), 2), code_val(0)) == 0 {
            lemma_ham_upto_zero_iff(rotk(code_grid(10), 2), code_val(0), 36);
            assert(rotk(code_grid(10), 2)[0] == code_bit(code_val(0), 0));
            assert(rotk(code_grid(10), 2)[0] == rotk(code_grid(10), 1)[30]);
            assert(rotk(code_grid(10), 1)[30] == rotk(code_grid(10), 0)[35]);
            assert(rotk(code_grid(10), 0)[35] == code_bit(code_val(10), 35));
            assert(false);
        }
    }
    if j == 1 {
        if ham(rotk(code_grid(10), 2), code_val(1)) == 0 {
            lemma_ham_upto_zero_iff(rotk(code_grid(10), 2), code_val(1), 36);
            assert(rotk(code_grid(10), 2)[0] == code_bit(code_val(1), 0));
            assert(rotk(code_grid(10), 2)[0] == rotk(code_grid(10), 1)[30]);
            assert(rotk(code_grid(10), 1)[30] == rotk(code_grid(10), 0)[35]);
            assert(rotk(code_grid(10), 0)[35] == code_bit(code_val(10), 35));
            assert(false);
        }
    }
    if j == 2 {
        if ham(rotk(code_grid(10), 2), code_val(2)) == 0 {
            lemma_ham_upto_zero_iff(rotk(code_grid(10), 2), code_val(2), 36);
            assert(rotk(code_grid(10), 2)[0] == code_bit(code_val(2), 0));
            assert(rotk(code_grid(10), 2)[0] == rotk(code_grid(10), 1)[30]);
            assert(rotk(code_grid(10), 1)[30] == rotk(code_grid(10), 0)[35]);
            assert(rotk(code_grid(10), 0)[35] == code_bit(code_val(10), 35));
            assert(false);
        }
    }
    if j == 3 {
        if ham(rotk(code_grid(10), 2), code_val(3)) == 0 {
            lemma_ham_upto_zero_iff(rotk(code_grid(10), 2), code_val(3), 36);
            assert(rotk(code_grid(10), 2)[0] == code_bit(code_val(3), 0));
            assert(rotk(code_grid(10), 2)[0] == rotk(code_grid(10), 1)[30]);
            assert(rotk(code_grid(10), 1)[30] == rotk(code_grid(10), 0)[35]);
            assert(rotk(code_grid(10), 0)[35] == code_bit(code_val(10), 35));
            assert(false);
        }
    }
    if j == 4 {
        if ham(rotk(code_grid(10), 2), code_val(4)) == 0 {
            lemma_ham_upto_zero_iff(rotk(code_grid(10), 2), code_val(4), 36);
            assert(rotk(code_grid(10), 2)[0] == code_bit(code_val(4), 0));
            assert(rotk(code_grid(10), 2)[0] == rotk(code_grid(10), 1)[30]);
            assert(rotk(code_grid(10), 1)[30] == rotk(code_grid(10), 0)[35]);
            assert(rotk(code_grid(10), 0)[35] == code_bit(code_val(10), 35));
            assert(false);
        }
    }
    if j == 5 {
        if ham(rotk(code_grid(10), 2), code_val(5)) == 0 {
            lemma_ham_upto_zero_iff(rotk(code_grid(10), 2), code_val(5), 36);
            assert(rotk(code_grid(10), 2)[0] == code_bit(code_val(5), 0));
            assert(rotk(code_grid(10), 2)[0] == rotk(code_grid(10), 1)[30]);
            assert(rotk(code_grid(10), 1)[30] == rotk(code_grid(10), 0)[35]);
            assert(rotk(code_grid(10), 0)[35] == code_bit(code_val(10), 35));
            assert(false);
        }
    }
    if j == 6 {
        if ham(rotk(code_grid(10), 2), code_val(6)) == 0 {
            lemma_ham_upto_zero_iff(rotk(code_grid(10), 2), code_val(6), 36);
            assert(rotk(code_grid(10), 2)[1] == code_bit(code_val(6), 1));
            assert(rotk(code_grid(10), 2)[1] == rotk(code_grid(10), 1)[24]);
            assert(rotk(code_grid(10), 1)[24] == rotk(code_grid(10), 0)[34]);
            assert(rotk(code_grid(10), 0)[34] == code_bit(code_val(10), 34));
            assert(false);
        }
    }
    if j == 7 {
        if ham(rotk(code_grid(10), 2), code_val(7)) == 0 {
            lemma_ham_upto_zero_iff(rotk(code_grid(10), 2), code_val(7), 36);
            assert(rotk(code_grid(10), 2)[1] == code_bit(code_val(7), 1));
            assert(rotk(code_grid(10), 2)[1] == rotk(code_grid(10), 1)[24]);
            assert(rotk(code_grid(10), 1)[24] == rotk(code_grid(10), 0)[34]);
            assert(rotk(code_grid(10), 0)[34] == code_bit(code_val(10), 34));
            assert(false);
        }
    }
    if j == 8 {
        if ham(rotk(code_grid(10), 2), code_val(8)) == 0 {
            lemma_ham_upto_zero_iff(rotk(code_grid(10), 2), code_val(8), 36);
            assert(rotk(code_grid(10), 2)[1] == code_bit(code_val(8), 1));
            assert(rotk(code_grid(10), 2)[1] == rotk(code_grid(10), 1)[24]);
            assert(rotk(code_grid(10), 1)[24] == rotk(code_grid(10), 0)[34]);
            assert(rotk(code_grid(10), 0)[34] == code_bit(code_val(10), 34));
            assert(false);
        }
    }
    if j == 9 {
        if ham(rotk(code_grid(10), 2), code_val(9)) == 0 {
            lemma_ham_upto_zero_iff(rotk(code_grid(10), 2), code_val(9), 36);
            assert(rotk(code_grid(10), 2)[1] == code_bit(code_val(9), 1));
            assert(rotk(code_grid(10), 2)[1] == rotk(code_grid(10), 1)[24]);
            assert(rotk(code_grid(10), 1)[24] == rotk(code_grid(10), 0)[34]);
            assert(rotk(code_grid(10), 0)[34] == code_bit(code_val(10), 34));
            assert(false);
        }
    }
    if j == 10 {
        if ham(rotk(code_grid(10), 2), code_val(10)) == 0 {
            lemma_ham_upto_zero_iff(rotk(code_grid(10), 2), code_val(10), 36);
            assert(rotk(code_grid(10), 2)[1] == code_bit(code_val(10), 1));
            assert(rotk(code_grid(10), 2)[1] == rotk(code_grid(10), 1)[24]);
            assert(rotk(code_grid(10), 1)[24] == rotk(code_grid(10), 0)[34]);
            assert(rotk(code_grid(10), 0)[34] == code_bit(code_val(10), 34));
            assert(false);
        }
    }
}

/// No codeword equals rotation 3 of codeword 10 (other than itself
/// unrotated).
proof fn lemma_separation_10_3(j: int)
    requires
        0 <= j < 11,
    ensures
        ham(rotk(code_grid(10), 3), code_val(j)) != 0,
{
    reveal_with_fuel(rotk, 6);
    lemma_code_bits_0();
    lemma_code_bits_1();
    lemma_code_bits_2();
    lemma_code_bits_3();
    lemma_code_bits_4();
    lemma_code_bits_5();
    lemma_code_bits_6();
    lemma_code_bits_7();
    lemma_code_bits_8();
    lemma_code_bits_9();
    lemma_code_bits_10();
    if j == 0 {
        if ham(rotk(code_grid(10), 3), code_val(0)) == 0 {
            lemma_ham_upto_zero_iff(rotk(code_grid(10), 3), code_val(0), 36);
            assert(rotk(code_grid(10), 3)[5] == code_bit(code_val(0), 5));
            assert(rotk(code_grid(10), 3)[5] == rotk(code_grid(10), 2)[0]);
            assert(rotk(code_grid(10), 2)[0] == rotk(code_grid(10), 1)[30]);
            assert(rotk(code_grid(10), 1)[30] == rotk(code_grid(10), 0)[35]);
            assert(rotk(code_grid(10), 0)[35] == code_bit(code_val(10), 35));
            assert(false);
        }
    }
    if j == 1 {
        if ham(rotk(code_grid(10), 3), code_val(1)) == 0 {
            lemma_ham_upto_zero_iff(rotk(code_grid(10), 3), code_val(1), 36);
            assert(rotk(code_grid(10), 3)[4] == code_bit(code_val(1), 4));
            assert(rotk(code_grid(10), 3)[4] == rotk(code_grid(10), 2)[6]);
            assert(rotk(code_grid(10), 2)[6] == rotk(code_grid(10), 1)[31]);
            assert(rotk(code_grid(10), 1)[31] == rotk(code_grid(10), 0)[29]);
            assert(rotk(code_grid(10), 0)[29] == code_bit(code_val(10), 29));
            assert(false);
        }
    }
    if j == 2 {
        if ham(rotk(code_grid(10), 3), code_val(2)) == 0 {
            lemma_ham_upto_zero_iff(rotk(code_grid(10), 3), code_val(2), 36);
            assert(rotk(code_grid(10), 3)[4] == code_bit(code_val(2), 4));
            assert(rotk(code_grid(10), 3)[4] == rotk(code_grid(10), 2)[6]);
            assert(rotk(code_grid(10), 2)[6] == rotk(code_grid(10), 1)[31]);
            assert(rotk(code_grid(10), 1)[31] == rotk(code_grid(10), 0)[29]);
            assert(rotk(code_grid(10), 0)[29] == code_bit(code_val(10), 29));
            assert(false);
        }
    }
    if j == 3 {
        if ham(rotk(code_grid(10), 3), code_val(3)) == 0 {
            lemma_ham_upto_zero_iff(rotk(code_grid(10), 3), code_val(3), 36);
            assert(rotk(code_grid(10), 3)[2] == code_bit(code_val(3), 2));
            assert(rotk(code_grid(10), 3)[2] == rotk(code_grid(10), 2)[18]);
            assert(rotk(code_grid(10), 2)[18] == rotk(code_grid(10), 1)[33]);
            assert(rotk(code_grid(10), 1)[33] == rotk(code_grid(10), 0)[17]);
            assert(rotk(code_grid(10), 0)[17] == code_bit(code_val(10), 17));
            assert(false);
        }
    }
    if j == 4 {
        if ham(rotk(code_grid(10), 3), code_val(4)) == 0 {
            lemma_ham_upto_zero_iff(rotk(code_grid(10), 3), code_val(4), 36);
            assert(rotk(code_grid(10), 3)[2] == code_bit(code_val(4), 2));
            assert(rotk(code_grid(10), 3)[2] == rotk(code_grid(10), 2)[18]);
            assert(rotk(code_grid(10), 2)[18] == rotk(code_grid(10), 1)[33]);
            assert(rotk(code_grid(10), 1)[33] == rotk(code_grid(10), 0)[17]);
            assert(rotk(code_grid(10), 0)[17] == code_bit(code_val(10), 17));
            assert(false);
        }
    }
    if j == 5 {
        if ham(rotk(code_grid(10), 3), code_val(5)) == 0 {
            lemma_ham_upto_zero_iff(rotk(code_grid(10), 3), code_val(5), 36);
            assert(rotk(code_grid(10), 3)[2] == code_bit(code_val(5), 2));
            assert(rotk(code_grid(10), 3)[2] == rotk(code_grid(10), 2)[18]);
            assert(rotk(code_grid(10), 2)[18] == rotk(code_grid(10), 1)[33]);
            assert(rotk(code_grid(10), 1)[33] == rotk(code_grid(10), 0)[17]);
            assert(rotk(code_grid(10), 0)[17] == code_bit(code_val(10), 17));
            assert(false);
        }
    }
    if j == 6 {
        if ham(rotk(code_grid(10), 3), code_val(6)) == 0 {
            lemma_ham_upto_zero_iff(rotk(code_grid(10), 3), code_val(6), 36);
            assert(rotk(code_grid(10), 3)[0] == code_bit(code_val(6), 0));
            assert(rotk(code_grid(10), 3)[0] == rotk(code_grid(10), 2)[30]);
            assert(rotk(code_grid(10), 2)[30] == rotk(code_grid(10), 1)[35]);
            assert(rotk(code_grid(10), 1)[35] == rotk(code_grid(10), 0)[5]);
            assert(rotk(code_grid(10), 0)[5] == code_bit(code_val(10), 5));
            assert(false);
        }
    }
    if j == 7 {
        if ham(rotk(code_grid(10), 3), code_val(7)) == 0 {
            lemma_ham_upto_zero_iff(rotk(code_grid(10), 3), code_val(7), 36);
            assert(rotk(code_grid(10), 3)[0] == code_bit(code_val(7), 0));
            assert(rotk(code_grid(10), 3)[0] == rotk(code_grid(10), 2)[30]);
            assert(rotk(code_grid(10), 2)[30] == rotk(code_grid(10), 1)[35]);
            assert(rotk(code_grid(10), 1)[35] == rotk(code_grid(10), 0)[5]);
            assert(rotk(code_grid(10), 0)[5] == code_bit(code_val(10), 5));
            assert(false);
        }
    }
    if j == 8 {
        if ham(rotk(code_grid(10), 3), code_val(8)) == 0 {
            lemma_ham_upto_zero_iff(rotk(code_grid(10), 3), code_val(8), 36);
            assert(rotk(code_grid(10), 3)[0] == code_bit(code_val(8), 0));
            assert(rotk(code_grid(10), 3)[0] == rotk(code_grid(10), 2)[30]);
            assert(rotk(code_grid(10), 2)[30] == rotk(code_grid(10), 1)[35]);
            assert(rotk(code_grid(10), 1)[35] == rotk(code_grid(10), 0)[5]);
            assert(rotk(code_grid(10), 0)[5] == code_bit(code_val(10), 5));
            assert(false);
        }
    }
    if j == 9 {
        if ham(rotk(code_grid(10), 3), code_val(9)) == 0 {
            lemma_ham_upto_zero_iff(rotk(code_grid(10), 3), code_val(9), 36);
            assert(rotk(code_grid(10), 3)[0] == code_bit(code_val(9), 0));
            assert(rotk(code_grid(10), 3)[0] == rotk(code_grid(10), 2)[30]);
            assert(rotk(code_grid(10), 2)[30] == rotk(code_grid(10), 1)[35]);
            assert(rotk(code_grid(10), 1)[35] == rotk(code_grid(10), 0)[5]);
            assert(rotk(code_grid(10), 0)[5] == code_bit(code_val(10), 5));
            assert(false);
        }
    }
    if j == 10 {
        if ham(rotk(code_grid(10), 3), code_val(10)) == 0 {
            lemma_ham_upto_zero_iff(rotk(code_grid(10), 3), code_val(10), 36);
            assert(rotk(code_grid(10), 3)[0] == code_bit(code_val(10), 0));
            assert(rotk(code_grid(10), 3)[0] == rotk(code_grid(10), 2)[30]);
            assert(rotk(code_grid(10), 2)[30] == rotk(code_grid(10), 1)[35]);
            assert(rotk(code_grid(10), 1)[35] == rotk(code_grid(10), 0)[5]);
            assert(rotk(code_grid(10), 0)[5] == code_bit(code_val(10), 5));
            assert(false);
        }
    }
}

/// The codebook is rotation-unique: no rotation of any codeword's
/// grid coincides with another codeword, and only the unrotated grid
/// coincides with its own codeword.
proof fn lemma_codebook_separation(i: int, m: int, j: int)
    requires
        0 <= i < 11,
        0 <= m < 4,
        0 <= j < 11,
        !(m == 0 && j == i),
    ensures
        ham(rotk(code_grid(i), m), code_val(j)) != 0,
{
    if i == 0 {
        if m == 0 {
            lemma_separation_0_0(j);
        }
        if m == 1 {
            lemma_separation_0_1(j);
        }
        if m == 2 {
            lemma_separation_0_2(j);
        }
        if m == 3 {
            lemma_separation_0_3(j);
        }
    }
    if i == 1 {
        if m == 0 {
            lemma_separation_1_0(j);
        }
        if m == 1 {
            lemma_separation_1_1(j);
        }
        if m == 2 {
            lemma_separation_1_2(j);
        }
        if m == 3 {
            lemma_separation_1_3(j);
        }
    }
    if i == 2 {
        if m == 0 {
            lemma_separation_2_0(j);
        }
        if m == 1 {
            lemma_separation_2_1(j);
        }
        if m == 2 {
            lemma_separation_2_2(j);
        }
        if m == 3 {
            lemma_separation_2_3(j);
        }
    }
    if i == 3 {
        if m == 0 {
            lemma_separation_3_0(j);
        }
        if m == 1 {
            lemma_separation_3_1(j);
        }
        if m == 2 {
            lemma_separation_3_2(j);
        }
        if m == 3 {
            lemma_separation_3_3(j);
        }
    }
    if i == 4 {
        if m == 0 {
            lemma_separation_4_0(j);
        }
        if m == 1 {
            lemma_separation_4_1(j);
        }
        if m == 2 {
            lemma_separation_4_2(j);
        }
        if m == 3 {
            lemma_separation_4_3(j);
        }
    }
    if i == 5 {
        if m == 0 {
            lemma_separation_5_0(j);
        }
        if m == 1 {
            lemma_separation_5_1(j);
        }
        if m == 2 {
            lemma_separation_5_2(j);
        }
        if m == 3 {
            lemma_separation_5_3(j);
        }
    }
    if i == 6 {
        if m == 0 {
            lemma_separation_6_0(j);
        }
        if m == 1 {
            lemma_separation_6_1(j);
        }
        if m == 2 {
            lemma_separation_6_2(j);
        }
        if m == 3 {
            lemma_separation_6_3(j);
        }
    }
    if i == 7 {
        if m == 0 {
            lemma_separation_7_0(j);
        }
        if m == 1 {
            lemma_separation_7_1(j);
        }
        if m == 2 {
            lemma_separation_7_2(j);
        }
        if m == 3 {
            lemma_separation_7_3(j);
        }
    }
    if i == 8 {
        if m == 0 {
            lemma_separation_8_0(j);
        }
        if m == 1 {
            lemma_separation_8_1(j);
        }
        if m == 2 {
            lemma_separation_8_2(j);
        }
        if m == 3 {
            lemma_separation_8_3(j);
        }
    }
    if i == 9 {
        if m == 0 {
            lemma_separation_9_0(j);
        }
        if m == 1 {
            lemma_separation_9_1(j);
        }
        if m == 2 {
            lemma_separation_9_2(j);
        }
        if m == 3 {
            lemma_separation_9_3(j);
        }
    }
    if i == 10 {
        if m == 0 {
            lemma_separation_10_0(j);
        }
        if m == 1 {
            lemma_separation_10_1(j);
        }
        if m == 2 {
            lemma_separation_10_2(j);
        }
        if m == 3 {
            lemma_separation_10_3(j);
        }
    }
}

/// Rotation invariance of decoding, unconditionally for the concrete
/// codebook: the grid of any codeword, and each of its quarter-turn
/// rotations, decodes to that codeword's identifier.
pub proof fn lemma_decode_codebook_rotations(i: int)
    requires
        0 <= i < 11,
    ensures
        forall|k: int|
            0 <= k < 4 ==> #[trigger] decode_bits_spec(rotk(code_grid(i), k)) == Some(i as u32),
{
    reveal_with_fuel(rotk, 2);
    lemma_ham_upto_zero_iff(code_grid(i), code_val(i), 36);
    assert(rotk(code_grid(i), 0) == code_grid(i));
    assert(ham(rotk(code_grid(i), 0), code_val(i)) == 0);
    assert forall|m: int, j: int|
        0 <= m < 4 && 0 <= j < 11 && (m != 0 || j != i)
        implies ham(#[trigger] rotk(code_grid(i), m), #[trigger] code_val(j)) != 0 by {
        lemma_codebook_separation(i, m, j);
    }
    lemma_decode_rotation_invariant(code_grid(i), 0, i);
}

} // verus!
