//! The VADPCM codec core: codebook construction from an instrument's flat
//! prediction coefficients, and the fixed-point decode recurrence that turns
//! 9-byte frames into 16 samples apiece.
//!
//! The decode arithmetic is bit-exact: products and sums wrap as 32-bit
//! integers, the fixed-point division by 2048 rounds toward negative
//! infinity, and the rolling 16-sample history is carried across frames at
//! full 32-bit precision — only the samples handed to the caller are clamped
//! to the 16-bit range.

use vstd::arithmetic::div_mod::{
    lemma_fundamental_div_mod, lemma_mod_bound, lemma_mod_multiples_basic,
};
use vstd::arithmetic::power2::{lemma2_to64, lemma_pow2_strictly_increases, lemma_pow2_unfold, pow2};
use vstd::prelude::*;
use vstd::wrapping::i32_specs;

use crate::bank::{Instrument, InstrumentV};
use crate::FormatError;

verus! {

/// A failure while decoding an instrument's wave block.
#[derive(Debug, Clone, Copy, PartialEq, Eq, Structural)]
pub enum DecodeError {
    /// Fewer than nine unread bytes remain: there is no further frame.
    Exhausted,
    /// A frame selects a predictor page the codebook does not have.
    MalformedFrame,
}

/// The prediction order the format fixes for its decoder.
pub const ORDER: usize = 2;

/// The high nibble of a byte.
pub open spec fn nib_hi(c: u8) -> int {
    c as int / 16
}

/// The low nibble of a byte.
pub open spec fn nib_lo(c: u8) -> int {
    c as int % 16
}

/// One entry of the expanded codebook: predictor page `i`, output lane
/// `lane` (0..8), column `col` (0..order+8).
///
/// The first `order` columns hold the flat coefficients, row-major by column
/// then lane.  Column `order` is fixed-point unity on lane 0 (2048) with the
/// previous column's values shifted down one lane below it, and each later
/// column `order + m` repeats column `order` shifted down `m` lanes, zeros
/// above.
pub open spec fn spec_cb_entry(data: Seq<i16>, order: int, i: int, lane: int, col: int) -> i32 {
    if col < order {
        data[(i * order + col) * 8 + lane] as i32
    } else {
        let m = col - order;
        if lane < m {
            0i32
        } else if lane == m {
            2048i32
        } else {
            data[(i * order + order - 1) * 8 + (lane - m - 1)] as i32
        }
    }
}

/// The expanded codebook: one 8 x (order+8) page per predictor index, a pure
/// function of the flat coefficient input.
pub open spec fn spec_codebook(data: Seq<i16>, order: int, npredictors: int) -> Seq<
    Seq<Seq<i32>>,
> {
    Seq::new(
        npredictors as nat,
        |i: int|
            Seq::new(
                8,
                |lane: int|
                    Seq::new(
                        (order + 8) as nat,
                        |col: int| spec_cb_entry(data, order, i, lane, col),
                    ),
            ),
    )
}

/// The model of a nested codebook table.
pub open spec fn table_view(t: Vec<Vec<Vec<i32>>>) -> Seq<Seq<Seq<i32>>> {
    Seq::new(t@.len(), |i: int| Seq::new(t@[i]@.len(), |k: int| t@[i]@[k]@))
}

/// Each page has 8 lanes of `order + 8` columns.
pub open spec fn table_wf(t: Seq<Seq<Seq<i32>>>, order: int) -> bool {
    forall|i: int|
        0 <= i < t.len() ==> (#[trigger] t[i]).len() == 8 && (forall|k: int|
            0 <= k < 8 ==> (#[trigger] t[i][k]).len() == order + 8)
}

/// Codebook purity: every page of a built codebook carries fixed-point unity
/// (2048) at lane 0 of column `order`; determinism is [`spec_codebook`]
/// being a function of the coefficients alone.
pub proof fn lemma_codebook_unity(data: Seq<i16>, order: int, npredictors: int, i: int)
    requires
        1 <= order,
        0 <= i < npredictors,
    ensures
        spec_codebook(data, order, npredictors)[i][0][order] == 2048,
{
}

/// Expands the flat coefficient array `data` into the per-predictor codebook,
/// failing with `CodebookSizeMismatch` unless `data` holds exactly
/// `npredictors * order * 8` values.
#[verifier::loop_isolation(false)]
pub fn readaifccodebook(data: &Vec<i16>, order: usize, npredictors: usize) -> (r: Result<
    Vec<Vec<Vec<i32>>>,
    FormatError,
>)
    requires
        1 <= order <= 8,
        npredictors <= 8,
    ensures
        match r {
            Ok(t) => data@.len() == npredictors * order * 8 && table_view(t) == spec_codebook(
                data@,
                order as int,
                npredictors as int,
            ),
            Err(e) => e == FormatError::CodebookSizeMismatch && data@.len() != npredictors * order
                * 8,
        },
{
    proof {
        assert(npredictors * order * 8 <= 512) by (nonlinear_arith)
            requires
                order <= 8,
                npredictors <= 8,
        ;
    }
    let required_len = npredictors * order * 8;
    if data.len() != required_len {
        return Err(FormatError::CodebookSizeMismatch);
    }

    let ghost target = spec_codebook(data@, order as int, npredictors as int);
    let mut table: Vec<Vec<Vec<i32>>> = Vec::new();
    let mut i: usize = 0;
    while i < npredictors
        invariant
            i <= npredictors,
            table@.len() == i,
            forall|a: int| 0 <= a < i ==> table_view(table)[a] =~~= target[a],
        decreases npredictors - i,
    {
        let mut page: Vec<Vec<i32>> = Vec::new();
        let mut lane: usize = 0;
        while lane < 8
            invariant
                lane <= 8,
                page@.len() == lane,
                forall|k: int|
                    0 <= k < lane ==> page@[k]@ =~= Seq::new(
                        (order + 8) as nat,
                        |col: int| spec_cb_entry(data@, order as int, i as int, k, col),
                    ),
            decreases 8 - lane,
        {
            let mut row: Vec<i32> = Vec::new();
            let mut col: usize = 0;
            while col < order + 8
                invariant
                    col <= order + 8,
                    row@ =~= Seq::new(
                        col as nat,
                        |c: int| spec_cb_entry(data@, order as int, i as int, lane as int, c),
                    ),
                decreases order + 8 - col,
            {
                proof {
                    assert((i * order + order - 1) * 8 + 7 < npredictors * order * 8)
                        by (nonlinear_arith)
                        requires
                            i < npredictors,
                            1 <= order,
                    ;
                    if col < order {
                        assert((i * order + col) * 8 + lane < npredictors * order * 8)
                            by (nonlinear_arith)
                            requires
                                i < npredictors,
                                col < order,
                                lane < 8,
                        ;
                    }
                }
                let val: i32 = if col < order {
                    data[(i * order + col) * 8 + lane] as i32
                } else {
                    let m = col - order;
                    if lane < m {
                        0i32
                    } else if lane == m {
                        2048i32
                    } else {
                        data[(i * order + order - 1) * 8 + (lane - m - 1)] as i32
                    }
                };
                proof {
                    assert(row@.push(val) =~= Seq::new(
                        (col + 1) as nat,
                        |c: int| spec_cb_entry(data@, order as int, i as int, lane as int, c),
                    ));
                }
                row.push(val);
                col += 1;
            }
            page.push(row);
            lane += 1;
        }
        proof {
            assert(table_view(table).push(
                Seq::new(page@.len(), |k: int| page@[k]@),
            ) =~~= table_view(table).push(target[i as int]));
        }
        table.push(page);
        proof {
            assert(forall|a: int|
                0 <= a < i + 1 ==> table_view(table)[a] =~~= target[a]);
        }
        i += 1;
    }
    proof {
        assert(table_view(table) =~~= target);
    }
    Ok(table)
}

/// The true (unwrapped) inner product of the first `n` entries.
pub open spec fn dot(v1: Seq<i32>, v2: Seq<i32>, n: int) -> int
    decreases n,
{
    if n <= 0 {
        0
    } else {
        dot(v1, v2, n - 1) + v1[n - 1] * v2[n - 1]
    }
}

/// One output lane of the decode recurrence: the inner product accumulated
/// with wrapping 32-bit arithmetic, then divided by 2048 rounding toward
/// negative infinity.
pub open spec fn lane_val(row: Seq<i32>, input: Seq<i32>, n: int) -> i32 {
    ((i32_specs::signed_crop(dot(row, input, n)) as int) / 2048) as i32
}

/// `signed_crop(x)` differs from `x` by a multiple of 2^32.
proof fn lemma_crop_mod(x: int)
    ensures
        (i32_specs::signed_crop(x) as int - x) % 0x1_0000_0000 == 0,
{
    let r = 0x1_0000_0000int;
    lemma_fundamental_div_mod(x, r);
    let q = x / r;
    assert(x % r - x == r * (-q)) by {
        assert(x == r * q + x % r);
    }
    lemma_mod_multiples_basic(-q, r);
    lemma_mod_multiples_basic(-q - 1, r);
    assert((x % r - r) - x == r * (-q - 1)) by {
        assert(x == r * q + x % r);
    }
}

/// `signed_crop(x)` is the unique value in the 32-bit signed range that is
/// congruent to `x` modulo 2^32.
proof fn lemma_crop_char(x: int, y: i32)
    requires
        (y as int - x) % 0x1_0000_0000 == 0,
    ensures
        i32_specs::signed_crop(x) == y,
{
    let r = 0x1_0000_0000int;
    let c = i32_specs::signed_crop(x);
    lemma_crop_mod(x);
    lemma_mod_bound(x, r);
    let d = y as int - c as int;
    assert((y as int - x) == r * ((y as int - x) / r)) by {
        lemma_fundamental_div_mod(y as int - x, r);
    }
    assert((c as int - x) == r * ((c as int - x) / r)) by {
        lemma_fundamental_div_mod(c as int - x, r);
    }
    let m = (y as int - x) / r - (c as int - x) / r;
    assert(d == r * m) by {
        assert(d == (y as int - x) - (c as int - x));
    }
    assert(m == 0) by (nonlinear_arith)
        requires
            d == 0x1_0000_0000int * m,
            -0x1_0000_0000int < d < 0x1_0000_0000int,
    ;
}

/// Wrapping addition of two cropped values crops their true sum.
proof fn lemma_wrap_add_crop(a: int, b: int)
    ensures
        i32_specs::wrapping_add(i32_specs::signed_crop(a), i32_specs::signed_crop(b))
            == i32_specs::signed_crop(a + b),
{
    let r = 0x1_0000_0000int;
    let u = i32_specs::signed_crop(a);
    let v = i32_specs::signed_crop(b);
    let s = i32_specs::wrapping_add(u, v);
    lemma_crop_mod(a);
    lemma_crop_mod(b);
    let ka = (u as int - a) / r;
    let kb = (v as int - b) / r;
    assert((u as int - a) == r * ka) by {
        lemma_fundamental_div_mod(u as int - a, r);
    }
    assert((v as int - b) == r * kb) by {
        lemma_fundamental_div_mod(v as int - b, r);
    }
    if u + v > i32::MAX {
        assert(s as int - (a + b) == r * (ka + kb - 1)) by {
            assert(s as int == u as int + v as int - r);
        }
        lemma_mod_multiples_basic(ka + kb - 1, r);
    } else if u + v < i32::MIN {
        assert(s as int - (a + b) == r * (ka + kb + 1)) by {
            assert(s as int == u as int + v as int + r);
        }
        lemma_mod_multiples_basic(ka + kb + 1, r);
    } else {
        assert(s as int - (a + b) == r * (ka + kb));
        lemma_mod_multiples_basic(ka + kb, r);
    }
    lemma_crop_char(a + b, s);
}

/// A value already in the 32-bit signed range crops to itself.
proof fn lemma_crop_id(x: int)
    requires
        i32::MIN <= x <= i32::MAX,
    ensures
        i32_specs::signed_crop(x) == x as i32,
{
    lemma_mod_multiples_basic(0, 0x1_0000_0000int);
    lemma_crop_char(x, x as i32);
}

/// The inner product of the first `length` entries of `v1` and `v2`, summed
/// as wrapping 32-bit integers and divided by 2048 rounding toward negative
/// infinity — exactly [`lane_val`].
#[verifier::loop_isolation(false)]
pub fn inner_product(length: usize, v1: &Vec<i32>, v2: &Vec<i32>) -> (r: i32)
    requires
        length <= v1@.len(),
        length <= v2@.len(),
    ensures
        r == lane_val(v1@, v2@, length as int),
{
    let mut out: i32 = 0;
    proof {
        lemma_crop_id(0);
    }
    let mut j: usize = 0;
    while j < length
        invariant
            j <= length,
            out == i32_specs::signed_crop(dot(v1@, v2@, j as int)),
        decreases length - j,
    {
        let p = v1[j].wrapping_mul(v2[j]);
        proof {
            lemma_wrap_add_crop(dot(v1@, v2@, j as int), v1@[j as int] * v2@[j as int]);
        }
        out = out.wrapping_add(p);
        j += 1;
    }
    proof {
        lemma_fundamental_div_mod(out as int, 2048);
        lemma_mod_bound(out as int, 2048);
    }
    match out.checked_div_euclid(2048) {
        Some(q) => q,
        None => 0,
    }
}

/// The `i`-th 4-bit residual of a frame (0..16): high nibble first in each
/// of the eight bytes after the header byte.
pub open spec fn frame_nibble(frame: Seq<u8>, i: int) -> int {
    if i % 2 == 0 {
        nib_hi(frame[1 + i / 2])
    } else {
        nib_lo(frame[1 + i / 2])
    }
}

/// The frame's scale: two to the power of the header's high nibble.
pub open spec fn frame_scale(frame: Seq<u8>) -> int {
    pow2(nib_hi(frame[0]) as nat) as int
}

/// The frame's predictor page selector: the header's low nibble.
pub open spec fn frame_predictor(frame: Seq<u8>) -> int {
    nib_lo(frame[0])
}

/// Dequantization of one 4-bit residual: nibbles 0..=7 scale as themselves,
/// nibbles 8..=15 wrap to -8..=-1 before scaling.
pub open spec fn dequant(n: int, scale: int) -> int {
    if n <= 7 {
        n * scale
    } else {
        (n - 16) * scale
    }
}

/// The `i`-th dequantized residual of a frame.
pub open spec fn residual(frame: Seq<u8>, i: int) -> i32 {
    dequant(frame_nibble(frame, i), frame_scale(frame)) as i32
}

/// A history sample clamped to the signed 16-bit output range.
pub open spec fn clamp16(x: i32) -> i16 {
    if x < -32768 {
        -32768i16
    } else if x > 32767 {
        32767i16
    } else {
        x as i16
    }
}

/// A whole history clamped to the output range.
pub open spec fn clamped(st: Seq<i32>) -> Seq<i16> {
    Seq::new(st.len(), |k: int| clamp16(st[k]))
}

/// The 16 new history samples one frame produces on codebook page `cb_p`
/// from the previous 16-sample history `hist`: two passes of eight lanes.
/// Pass one predicts from the last `order` samples of the previous history
/// and the first eight residuals; pass two predicts from the last `order`
/// samples just produced and the remaining eight residuals.
pub open spec fn spec_decode_frame(
    cb_p: Seq<Seq<i32>>,
    hist: Seq<i32>,
    frame: Seq<u8>,
    order: int,
) -> Seq<i32> {
    let in0 = Seq::new(
        (order + 8) as nat,
        |t: int|
            if t < order {
                hist[16 - order + t]
            } else {
                residual(frame, t - order)
            },
    );
    let out0 = Seq::new(8, |k: int| lane_val(cb_p[k], in0, order + 8));
    let in1 = Seq::new(
        (order + 8) as nat,
        |t: int|
            if t < order {
                out0[8 - order + t]
            } else {
                residual(frame, 8 + (t - order))
            },
    );
    let out1 = Seq::new(8, |k: int| lane_val(cb_p[k], in1, order + 8));
    out0 + out1
}

/// Two to the power `e`, as a 32-bit value.
#[verifier::loop_isolation(false)]
fn pow2_i32(e: u8) -> (r: i32)
    requires
        e <= 15,
    ensures
        r as int == pow2(e as nat),
        1 <= r <= 32768,
{
    proof {
        lemma2_to64();
    }
    let mut r: i32 = 1;
    let mut i: u8 = 0;
    while i < e
        invariant
            i <= e,
            r as int == pow2(i as nat),
        decreases e - i,
    {
        proof {
            lemma_pow2_strictly_increases(i as nat, 15nat);
            lemma_pow2_unfold((i + 1) as nat);
        }
        r = r * 2;
        i += 1;
    }
    proof {
        if (e as nat) < 15nat {
            lemma_pow2_strictly_increases(e as nat, 15nat);
        }
    }
    r
}

/// One dequantized residual, computed without overflow.
fn dequant_exec(n: u8, scale: i32) -> (r: i32)
    requires
        n < 16,
        1 <= scale <= 32768,
    ensures
        r as int == dequant(n as int, scale as int),
{
    proof {
        assert(n as int * scale as int <= 15 * 32768 && n as int * scale as int >= 0)
            by (nonlinear_arith)
            requires
                n < 16,
                1 <= scale <= 32768,
        ;
        assert((n as int - 16) * scale as int >= -16 * 32768 && (n as int - 16) * scale as int
            <= 0) by (nonlinear_arith)
            requires
                n < 16,
                1 <= scale <= 32768,
        ;
    }
    if n <= 7 {
        (n as i32) * scale
    } else {
        ((n as i32) - 16) * scale
    }
}

/// Decodes one frame: reads the nine bytes at the head of `frame`, and
/// replaces the 16-sample history `outp` with the frame's output, exactly as
/// [`spec_decode_frame`] describes it on the codebook page the frame
/// selects.
#[verifier::loop_isolation(false)]
pub fn vdecodeframe(frame: &[u8], outp: &mut Vec<i32>, order: usize, coef_table: &Vec<
    Vec<Vec<i32>>,
>)
    requires
        frame@.len() >= 9,
        old(outp)@.len() == 16,
        1 <= order <= 8,
        table_wf(table_view(*coef_table), order as int),
        frame_predictor(frame@) < table_view(*coef_table).len(),
    ensures
        final(outp)@ == spec_decode_frame(
            table_view(*coef_table)[frame_predictor(frame@)],
            old(outp)@,
            frame@,
            order as int,
        ),
{
    let ghost cbp = table_view(*coef_table)[frame_predictor(frame@)];
    let header = frame[0];
    let e = header / 16;
    let optimalp = (header % 16) as usize;
    let scale = pow2_i32(e);

    let mut ix: Vec<i32> = Vec::new();
    let mut t: usize = 0;
    while t < 8
        invariant
            t <= 8,
            ix@ =~= Seq::new((2 * t) as nat, |u: int| residual(frame@, u)),
        decreases 8 - t,
    {
        let c = frame[1 + t];
        let vhi = dequant_exec(c / 16, scale);
        let vlo = dequant_exec(c % 16, scale);
        proof {
            assert(ix@.push(vhi).push(vlo) =~= Seq::new(
                (2 * (t + 1)) as nat,
                |u: int| residual(frame@, u),
            ));
        }
        ix.push(vhi);
        ix.push(vlo);
        t += 1;
    }

    let hist: Vec<i32> = vstd::slice::slice_to_vec(outp.as_slice());
    let ghost in0 = Seq::new(
        (order + 8) as nat,
        |t: int|
            if t < order {
                old(outp)@[16 - order + t]
            } else {
                residual(frame@, t - order)
            },
    );
    let mut in_vec: Vec<i32> = Vec::new();
    let mut t: usize = 0;
    while t < order
        invariant
            t <= order,
            in_vec@ =~= in0.take(t as int),
        decreases order - t,
    {
        proof {
            assert(in_vec@.push(old(outp)@[16 - order + t]) =~= in0.take(t + 1));
        }
        in_vec.push(hist[16 - order + t]);
        t += 1;
    }
    let mut u: usize = 0;
    while u < 8
        invariant
            u <= 8,
            in_vec@ =~= in0.take(order + u),
        decreases 8 - u,
    {
        proof {
            assert(in_vec@.push(ix@[u as int]) =~= in0.take(order + u + 1));
        }
        in_vec.push(ix[u]);
        u += 1;
    }
    proof {
        assert(in_vec@ =~= in0);
    }

    let ghost out0 = Seq::new(8, |k: int| lane_val(cbp[k], in0, order + 8));
    let mut out_new: Vec<i32> = Vec::new();
    let mut k: usize = 0;
    while k < 8
        invariant
            k <= 8,
            out_new@ =~= out0.take(k as int),
        decreases 8 - k,
    {
        let row: &Vec<i32> = &coef_table[optimalp][k];
        proof {
            assert(row@ == cbp[k as int]);
            assert(cbp[k as int].len() == order + 8);
        }
        let lane = inner_product(order + 8, row, &in_vec);
        proof {
            assert(out_new@.push(lane) =~= out0.take(k + 1));
        }
        out_new.push(lane);
        k += 1;
    }
    proof {
        assert(out_new@ =~= out0);
    }

    let ghost in1 = Seq::new(
        (order + 8) as nat,
        |t: int|
            if t < order {
                out0[8 - order + t]
            } else {
                residual(frame@, 8 + (t - order))
            },
    );
    let mut in_vec2: Vec<i32> = Vec::new();
    let mut t: usize = 0;
    while t < order
        invariant
            t <= order,
            in_vec2@ =~= in1.take(t as int),
        decreases order - t,
    {
        proof {
            assert(in_vec2@.push(out0[t as int + 8 - order]) =~= in1.take(t + 1));
        }
        in_vec2.push(out_new[8 - order + t]);
        t += 1;
    }
    let mut u: usize = 0;
    while u < 8
        invariant
            u <= 8,
            in_vec2@ =~= in1.take(order + u),
        decreases 8 - u,
    {
        proof {
            assert(in_vec2@.push(ix@[8 + u as int]) =~= in1.take(order + u + 1));
        }
        in_vec2.push(ix[8 + u]);
        u += 1;
    }
    proof {
        assert(in_vec2@ =~= in1);
    }

    let ghost out1 = Seq::new(8, |k: int| lane_val(cbp[k], in1, order + 8));
    let mut k: usize = 0;
    while k < 8
        invariant
            k <= 8,
            out_new@ =~= out0 + out1.take(k as int),
        decreases 8 - k,
    {
        let row: &Vec<i32> = &coef_table[optimalp][k];
        proof {
            assert(row@ == cbp[k as int]);
            assert(cbp[k as int].len() == order + 8);
        }
        let lane = inner_product(order + 8, row, &in_vec2);
        proof {
            assert(out_new@.push(lane) =~= out0 + out1.take(k + 1));
        }
        out_new.push(lane);
        k += 1;
    }
    proof {
        assert(out_new@ =~= spec_decode_frame(cbp, old(outp)@, frame@, order as int));
    }
    *outp = out_new;
}

/// The largest predictor selector among the first `n` whole frames of a
/// wave block.
pub open spec fn max_pred(data: Seq<u8>, n: int) -> int
    decreases n,
{
    if n <= 0 {
        0
    } else {
        let p = nib_lo(data[9 * (n - 1)]);
        let m = max_pred(data, n - 1);
        if p > m {
            p
        } else {
            m
        }
    }
}

/// The number of predictor pages a wave block uses: one more than the
/// largest selector found in any whole frame, clamped to at most 8.
pub open spec fn spec_pages(data: Seq<u8>) -> int {
    let m = max_pred(data, data.len() as int / 9);
    if m + 1 > 8 {
        8
    } else {
        m + 1
    }
}

/// A fresh decode history: sixteen zeros.
pub open spec fn zeros16() -> Seq<i32> {
    Seq::new(16, |k: int| 0i32)
}

/// The stateful VADPCM decode session for one instrument: its wave bytes and
/// codebook, the rolling 16-sample history, the frame cursor, and the
/// one-frame buffer the streaming mode hands out sample by sample.
pub struct VadpcmDecoder {
    instrument: Instrument,
    state: Vec<i32>,
    codebook: Vec<Vec<Vec<i32>>>,
    wav_data_pos: usize,
    output_buffer: Vec<i16>,
    buffer_pos: usize,
}

/// The mathematical model of a [`VadpcmDecoder`]: `pending` holds the
/// buffered samples the streaming mode has not yet handed out.
#[verifier::ext_equal]
pub ghost struct DecoderV {
    pub instrument: InstrumentV,
    pub codebook: Seq<Seq<Seq<i32>>>,
    pub state: Seq<i32>,
    pub pos: int,
    pub pending: Seq<i16>,
}

impl View for VadpcmDecoder {
    type V = DecoderV;

    closed spec fn view(&self) -> DecoderV {
        DecoderV {
            instrument: self.instrument@,
            codebook: table_view(self.codebook),
            state: self.state@,
            pos: self.wav_data_pos as int,
            pending: self.output_buffer@.skip(self.buffer_pos as int),
        }
    }
}

/// Whether no whole frame remains: fewer than nine unread bytes.
pub open spec fn spec_exhausted(v: DecoderV) -> bool {
    v.pos + 9 > v.instrument.wav_data.len()
}

/// The nine bytes of the frame at the cursor.
pub open spec fn frame_at(v: DecoderV) -> Seq<u8> {
    v.instrument.wav_data.subrange(v.pos, v.pos + 9)
}

/// Every sample a full decode from the given state yields: frames are
/// decoded in order, each one's clamped output appended, until no whole
/// frame remains or a frame selects a page the codebook does not have.
pub open spec fn spec_decode_all(v: DecoderV) -> Seq<i16>
    decreases v.instrument.wav_data.len() - v.pos,
{
    if spec_exhausted(v) {
        Seq::empty()
    } else {
        let frame = frame_at(v);
        if frame_predictor(frame) >= v.codebook.len() {
            Seq::empty()
        } else {
            let st = spec_decode_frame(
                v.codebook[frame_predictor(frame)],
                v.state,
                frame,
                ORDER as int,
            );
            clamped(st) + spec_decode_all(DecoderV { state: st, pos: v.pos + 9, ..v })
        }
    }
}

/// Decoder determinism: the decoded sample stream depends only on the
/// codebook, the history, the wave bytes and the cursor — decoders equal in
/// those yield equal streams.
pub proof fn lemma_decode_depends_only_on(a: DecoderV, b: DecoderV)
    requires
        a.codebook == b.codebook,
        a.state == b.state,
        a.instrument.wav_data == b.instrument.wav_data,
        a.pos == b.pos,
    ensures
        spec_decode_all(a) == spec_decode_all(b),
    decreases a.instrument.wav_data.len() - a.pos,
{
    if !spec_exhausted(a) {
        let frame = frame_at(a);
        assert(frame_at(b) == frame);
        if frame_predictor(frame) < a.codebook.len() {
            let st = spec_decode_frame(
                a.codebook[frame_predictor(frame)],
                a.state,
                frame,
                ORDER as int,
            );
            lemma_decode_depends_only_on(
                DecoderV { state: st, pos: a.pos + 9, ..a },
                DecoderV { state: st, pos: b.pos + 9, ..b },
            );
        }
    }
}

/// Reset idempotence: a decoder rewound to the start with a zeroed history
/// replays exactly the stream a fresh decoder over the same wave bytes and
/// codebook produces.
pub proof fn lemma_reset_replay(fresh: DecoderV, again: DecoderV)
    requires
        again.instrument.wav_data == fresh.instrument.wav_data,
        again.codebook == fresh.codebook,
        fresh.state == zeros16(),
        again.state == zeros16(),
        fresh.pos == 0,
        again.pos == 0,
    ensures
        spec_decode_all(fresh) == spec_decode_all(again),
{
    lemma_decode_depends_only_on(fresh, again);
}

/// Exhaustion stability: an exhausted decoder yields nothing, and
/// [`VadpcmDecoder::decode_frame`] leaves an exhausted decoder unchanged, so
/// every later request reports exhaustion as well.
pub proof fn lemma_exhausted_yields_nothing(v: DecoderV)
    requires
        spec_exhausted(v),
    ensures
        spec_decode_all(v) == Seq::<i16>::empty(),
{
}

/// One history sample clamped to the signed 16-bit range.
fn clamp_exec(x: i32) -> (r: i16)
    ensures
        r == clamp16(x),
{
    if x < -32768 {
        -32768
    } else if x > 32767 {
        32767
    } else {
        x as i16
    }
}

impl VadpcmDecoder {
    #[verifier::type_invariant]
    spec fn wf(self) -> bool {
        &&& self.state@.len() == 16
        &&& 1 <= self.codebook@.len() <= 8
        &&& table_wf(table_view(self.codebook), ORDER as int)
        &&& self.wav_data_pos <= self.instrument.wav_data@.len()
        &&& self.buffer_pos <= self.output_buffer@.len()
    }

    /// Binds one instrument's wave block and codebook into a decode session.
    /// The predictor-page count is found by a pre-pass over every whole
    /// frame's selector nibble; the coefficient block must then hold exactly
    /// `pages * order * 8` values, else `CodebookSizeMismatch`.
    #[verifier::loop_isolation(false)]
    pub fn new(instrument: Instrument) -> (r: Result<VadpcmDecoder, FormatError>)
        ensures
            match r {
                Ok(d) => instrument@.predictor_data.len() == spec_pages(instrument@.wav_data) * (
                ORDER as int) * 8 && d@ == (DecoderV {
                    instrument: instrument@,
                    codebook: spec_codebook(
                        instrument@.predictor_data,
                        ORDER as int,
                        spec_pages(instrument@.wav_data),
                    ),
                    state: zeros16(),
                    pos: 0,
                    pending: Seq::empty(),
                }),
                Err(e) => e == FormatError::CodebookSizeMismatch
                    && instrument@.predictor_data.len() != spec_pages(instrument@.wav_data) * (
                ORDER as int) * 8,
            },
    {
        let data_len = instrument.wav_data.len();
        let nframes = data_len / 9;
        proof {
            lemma_fundamental_div_mod(data_len as int, 9);
        }
        let mut maxp: u8 = 0;
        let mut i: usize = 0;
        while i < nframes
            invariant
                i <= nframes,
                maxp < 16,
                maxp as int == max_pred(instrument.wav_data@, i as int),
            decreases nframes - i,
        {
            let c = instrument.wav_data[9 * i];
            let p = c % 16;
            if p > maxp {
                maxp = p;
            }
            i += 1;
        }
        let pages: usize = if maxp as usize + 1 > 8 {
            8
        } else {
            maxp as usize + 1
        };
        proof {
            assert(pages as int == spec_pages(instrument.wav_data@));
        }
        let codebook = match readaifccodebook(&instrument.predictor_data, ORDER, pages) {
            Ok(t) => t,
            Err(e) => {
                return Err(e);
            },
        };
        let mut state: Vec<i32> = Vec::new();
        let mut k: usize = 0;
        while k < 16
            invariant
                k <= 16,
                state@ =~= zeros16().take(k as int),
            decreases 16 - k,
        {
            proof {
                assert(state@.push(0i32) =~= zeros16().take(k + 1));
            }
            state.push(0);
            k += 1;
        }
        proof {
            assert(state@ =~= zeros16());
            assert(table_view(codebook).len() == pages);
        }
        let d = VadpcmDecoder {
            instrument,
            state,
            codebook,
            wav_data_pos: 0,
            output_buffer: Vec::new(),
            buffer_pos: 0,
        };
        proof {
            assert(d@.pending =~= Seq::<i16>::empty());
            assert(d@ =~~= (DecoderV {
                instrument: d.instrument@,
                codebook: spec_codebook(
                    d.instrument@.predictor_data,
                    ORDER as int,
                    spec_pages(d.instrument@.wav_data),
                ),
                state: zeros16(),
                pos: 0,
                pending: Seq::empty(),
            }));
        }
        Ok(d)
    }

    /// Rewinds to the start of the wave block: zeroes the history, resets
    /// the cursor, and drops any buffered samples.
    pub fn reset(&mut self)
        ensures
            final(self)@ == (DecoderV {
                instrument: old(self)@.instrument,
                codebook: old(self)@.codebook,
                state: zeros16(),
                pos: 0,
                pending: Seq::empty(),
            }),
    {
        proof {
            use_type_invariant(&*self);
        }
        let mut state: Vec<i32> = Vec::new();
        let mut k: usize = 0;
        while k < 16
            invariant
                k <= 16,
                state@ =~= zeros16().take(k as int),
            decreases 16 - k,
        {
            proof {
                assert(state@.push(0i32) =~= zeros16().take(k + 1));
            }
            state.push(0);
            k += 1;
        }
        proof {
            assert(state@ =~= zeros16());
        }
        self.state = state;
        self.wav_data_pos = 0;
        self.buffer_pos = 0;
        self.output_buffer = Vec::new();
        proof {
            assert(self@.pending =~= Seq::<i16>::empty());
            assert(self@ =~~= (DecoderV {
                instrument: old(self)@.instrument,
                codebook: old(self)@.codebook,
                state: zeros16(),
                pos: 0,
                pending: Seq::empty(),
            }));
        }
    }

    /// Whether decoding is exhausted: fewer than nine unread bytes remain,
    /// so no whole frame can be decoded.
    pub fn is_complete(&self) -> (r: bool)
        ensures
            r == spec_exhausted(self@),
    {
        proof {
            use_type_invariant(&*self);
        }
        self.instrument.wav_data.len() - self.wav_data_pos < 9
    }

    /// Decodes the next nine-byte frame into sixteen clamped samples,
    /// advancing the cursor and replacing the history with the frame's
    /// unclamped output.  An exhausted decoder, or a frame selecting a page
    /// the codebook does not have, reports its error and changes nothing.
    pub fn decode_frame(&mut self) -> (r: Result<Vec<i16>, DecodeError>)
        ensures
            final(self)@.instrument == old(self)@.instrument,
            final(self)@.codebook == old(self)@.codebook,
            final(self)@.pending == old(self)@.pending,
            match r {
                Err(DecodeError::Exhausted) => spec_exhausted(old(self)@) && final(self)@ == old(
                    self,
                )@,
                Err(DecodeError::MalformedFrame) => !spec_exhausted(old(self)@) && frame_predictor(
                    frame_at(old(self)@),
                ) >= old(self)@.codebook.len() && final(self)@ == old(self)@,
                Ok(samples) => !spec_exhausted(old(self)@) && frame_predictor(frame_at(old(self)@))
                    < old(self)@.codebook.len() && final(self)@.state == spec_decode_frame(
                    old(self)@.codebook[frame_predictor(frame_at(old(self)@))],
                    old(self)@.state,
                    frame_at(old(self)@),
                    ORDER as int,
                ) && final(self)@.pos == old(self)@.pos + 9 && samples@ == clamped(
                    final(self)@.state,
                ),
            },
    {
        proof {
            use_type_invariant(&*self);
        }
        let len = self.instrument.wav_data.len();
        if len - self.wav_data_pos < 9 {
            return Err(DecodeError::Exhausted);
        }
        let frame = vstd::slice::slice_subrange(
            self.instrument.wav_data.as_slice(),
            self.wav_data_pos,
            self.wav_data_pos + 9,
        );
        let header = frame[0];
        let p = (header % 16) as usize;
        if p >= self.codebook.len() {
            return Err(DecodeError::MalformedFrame);
        }
        let mut st: Vec<i32> = vstd::slice::slice_to_vec(self.state.as_slice());
        vdecodeframe(frame, &mut st, ORDER, &self.codebook);
        self.state = st;
        self.wav_data_pos = self.wav_data_pos + 9;
        let mut samples: Vec<i16> = Vec::new();
        let mut k: usize = 0;
        while k < 16
            invariant
                k <= 16,
                self.state@.len() == 16,
                samples@ =~= clamped(self.state@).take(k as int),
            decreases 16 - k,
        {
            let s = clamp_exec(self.state[k]);
            proof {
                assert(samples@.push(s) =~= clamped(self.state@).take(k + 1));
            }
            samples.push(s);
            k += 1;
        }
        proof {
            assert(samples@ =~= clamped(self.state@));
        }
        Ok(samples)
    }

    /// Drains the remaining frames into one eager sample sequence, exactly
    /// [`spec_decode_all`] of the state it started from.
    pub fn decode_all(&mut self) -> (out: Vec<i16>)
        ensures
            final(self)@.instrument == old(self)@.instrument,
            final(self)@.codebook == old(self)@.codebook,
            final(self)@.pending == old(self)@.pending,
            out@ == spec_decode_all(old(self)@),
    {
        proof {
            use_type_invariant(&*self);
        }
        let mut out: Vec<i16> = Vec::new();
        let mut going = true;
        while going
            invariant
                self@.pos <= self@.instrument.wav_data.len(),
                self@.instrument == old(self)@.instrument,
                self@.codebook == old(self)@.codebook,
                self@.pending == old(self)@.pending,
                going ==> spec_decode_all(old(self)@) == out@ + spec_decode_all(self@),
                !going ==> out@ == spec_decode_all(old(self)@),
            decreases self@.instrument.wav_data.len() - self@.pos + (if going {
                1int
            } else {
                0int
            }),
        {
            let ghost prev = self@;
            let ghost out_prev = out@;
            match self.decode_frame() {
                Ok(samples) => {
                    let n = samples.len();
                    let mut t: usize = 0;
                    while t < n
                        invariant
                            t <= n,
                            n == samples@.len(),
                            out@ =~= out_prev + samples@.take(t as int),
                        decreases n - t,
                    {
                        proof {
                            assert(out@.push(samples@[t as int]) =~= out_prev + samples@.take(
                                t + 1,
                            ));
                        }
                        let s = samples[t];
                        out.push(s);
                        t += 1;
                    }
                    proof {
                        assert(out@ =~= out_prev + samples@);
                        assert(spec_decode_all(prev) == samples@ + spec_decode_all(self@));
                        assert(out_prev + (samples@ + spec_decode_all(self@)) =~= (out_prev
                            + samples@) + spec_decode_all(self@));
                    }
                },
                Err(_) => {
                    proof {
                        assert(spec_decode_all(self@) == Seq::<i16>::empty());
                        assert(out@ + Seq::<i16>::empty() =~= out@);
                    }
                    going = false;
                },
            }
        }
        out
    }

    /// Hands out one sample of the pull-based stream: the next buffered
    /// sample if any remains, else the first sample of the next decoded
    /// frame, buffering the rest.  A decoder with nothing buffered and no
    /// whole frame left reports `None` and changes nothing, as does one
    /// whose next frame selects a page the codebook does not have.
    pub fn next_sample(&mut self) -> (r: Option<i16>)
        ensures
            final(self)@.instrument == old(self)@.instrument,
            final(self)@.codebook == old(self)@.codebook,
            ({
                let o = old(self)@;
                if o.pending.len() > 0 {
                    r == Some(o.pending[0]) && final(self)@ == (DecoderV {
                        pending: o.pending.drop_first(),
                        ..o
                    })
                } else if spec_exhausted(o) {
                    r == None::<i16> && final(self)@ == o
                } else if frame_predictor(frame_at(o)) >= o.codebook.len() {
                    r == None::<i16> && final(self)@ == o
                } else {
                    let st = spec_decode_frame(
                        o.codebook[frame_predictor(frame_at(o))],
                        o.state,
                        frame_at(o),
                        ORDER as int,
                    );
                    r == Some(clamped(st)[0]) && final(self)@ == (DecoderV {
                        state: st,
                        pos: o.pos + 9,
                        pending: clamped(st).drop_first(),
                        ..o
                    })
                }
            }),
    {
        proof {
            use_type_invariant(&*self);
        }
        if self.buffer_pos < self.output_buffer.len() {
            let s = self.output_buffer[self.buffer_pos];
            self.buffer_pos = self.buffer_pos + 1;
            proof {
                assert(self@.pending =~= old(self)@.pending.drop_first());
                assert(self@ =~~= (DecoderV { pending: old(self)@.pending.drop_first(), ..old(
                    self,
                )@ }));
            }
            return Some(s);
        }
        if self.is_complete() {
            return None;
        }
        match self.decode_frame() {
            Ok(samples) => {
                self.buffer_pos = 0;
                self.output_buffer = samples;
                let s = self.output_buffer[0];
                self.buffer_pos = 1;
                proof {
                    assert(self@.pending =~= self.output_buffer@.drop_first());
                    let o = old(self)@;
                    let st = spec_decode_frame(
                        o.codebook[frame_predictor(frame_at(o))],
                        o.state,
                        frame_at(o),
                        ORDER as int,
                    );
                    assert(self@ =~~= (DecoderV {
                        state: st,
                        pos: o.pos + 9,
                        pending: clamped(st).drop_first(),
                        ..o
                    }));
                }
                Some(s)
            },
            Err(_) => None,
        }
    }

    /// The total sample count a full decode of the wave block produces,
    /// sixteen samples for each nine bytes.
    pub fn decompressed_data_len(&self) -> (r: usize)
        requires
            self@.instrument.wav_data.len() * 16 <= usize::MAX,
        ensures
            r == self@.instrument.wav_data.len() * 16 / 9,
    {
        self.instrument.wav_data.len() * 16 / 9
    }

    /// The instrument this decoder was built over.
    pub fn instrument(&self) -> (r: &Instrument)
        ensures
            r@ == self@.instrument,
    {
        &self.instrument
    }
}

} // verus!
