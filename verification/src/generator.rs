//! The phenotype renderer: per-channel two-pass normalization of raw
//! network outputs into an RGB byte image.
//!
//! A genome's evaluation capability produces one unbounded raw value per
//! channel per grid cell. The caller quantizes each raw value to a
//! fixed-point integer with a resolution of one millionth (so the
//! degeneracy threshold of one millionth becomes [`EPSILON_MICROS`] units),
//! handing a non-finite value over as `None`. Everything from there on is
//! verified: each channel is independently rescaled so its minimum sample
//! maps to byte 0 and its maximum to byte 255, and a degenerate channel
//! (flat within the threshold, or holding any non-finite sample) renders
//! as the constant midpoint byte.

use vstd::prelude::*;

verus! {

use vstd::arithmetic::div_mod::{
    lemma_div_is_ordered, lemma_div_multiples_vanish, lemma_div_pos_is_pos,
};

/// The degeneracy threshold for a channel's raw range, in fixed-point
/// units of one millionth.
pub const EPSILON_MICROS: i64 = 1;

/// The byte every pixel of a degenerate channel receives: the 0.5 midpoint
/// quantized by the same floor rule as ordinary samples (0.5 * 255, floored).
pub const MIDPOINT_BYTE: u8 = 127;

/// One pixel of a phenotype image: a red/green/blue byte triple.
#[derive(Clone, Copy, Debug, PartialEq, Eq, Structural)]
pub struct Rgb {
    pub r: u8,
    pub g: u8,
    pub b: u8,
}

/// The raw outputs of one genome evaluation at one grid cell, quantized to
/// fixed-point units of one millionth; `None` stands for a non-finite
/// output.
#[derive(Clone, Copy, Debug)]
pub struct RawSample {
    pub r: Option<i64>,
    pub g: Option<i64>,
    pub b: Option<i64>,
}

/// The image a genome renders to: a `width` x `height` grid of pixels in
/// row-major order (pixel `(x, y)` sits at index `y * width + x`).
#[derive(Debug)]
pub struct PhenotypeImage {
    pub width: usize,
    pub height: usize,
    pub pixels: Vec<Rgb>,
}

impl PhenotypeImage {
    /// The pixel buffer holds exactly one entry per grid cell.
    pub open spec fn wf(self) -> bool {
        self.pixels.len() == self.width * self.height
    }
}

/// Why rendering refused its input.
#[derive(Clone, Copy, Debug, PartialEq, Eq, Structural)]
pub enum RenderError {
    /// The sample buffer does not hold `width * height` entries.
    SampleCountMismatch,
}

/// The fixed-point value a sample stands for; a non-finite sample reads as
/// zero (it only ever matters to channels already marked degenerate).
pub open spec fn sample_val(v: Option<i64>) -> int {
    match v {
        Some(x) => x as int,
        None => 0,
    }
}

/// Every sample of the channel is finite.
pub open spec fn all_present(vals: Seq<Option<i64>>) -> bool {
    forall|i: int| 0 <= i < vals.len() ==> (#[trigger] vals[i]) is Some
}

/// The least sample value of the channel.
pub open spec fn chan_min(vals: Seq<Option<i64>>) -> int
    recommends
        vals.len() >= 1,
    decreases vals.len(),
{
    if vals.len() <= 1 {
        sample_val(vals[0])
    } else {
        let rest = chan_min(vals.drop_last());
        let last = sample_val(vals.last());
        if last < rest {
            last
        } else {
            rest
        }
    }
}

/// The greatest sample value of the channel.
pub open spec fn chan_max(vals: Seq<Option<i64>>) -> int
    recommends
        vals.len() >= 1,
    decreases vals.len(),
{
    if vals.len() <= 1 {
        sample_val(vals[0])
    } else {
        let rest = chan_max(vals.drop_last());
        let last = sample_val(vals.last());
        if last > rest {
            last
        } else {
            rest
        }
    }
}

/// A channel renders as a constant: its raw range is below the threshold,
/// or some evaluation was non-finite.
pub open spec fn degenerate(vals: Seq<Option<i64>>) -> bool {
    !all_present(vals) || chan_max(vals) - chan_min(vals) < EPSILON_MICROS
}

/// Linear rescaling of `v` from the raw span `[lo, hi]` to `[0, 255]`,
/// quantized by flooring.
pub open spec fn scaled_byte(v: int, lo: int, hi: int) -> int {
    (v - lo) * 255 / (hi - lo)
}

/// The byte that normalization gives pixel `i` of a channel.
pub open spec fn norm_byte_at(vals: Seq<Option<i64>>, i: int) -> int {
    if degenerate(vals) {
        MIDPOINT_BYTE as int
    } else {
        scaled_byte(sample_val(vals[i]), chan_min(vals), chan_max(vals))
    }
}

proof fn lemma_chan_min_le(vals: Seq<Option<i64>>, i: int)
    requires
        0 <= i < vals.len(),
    ensures
        chan_min(vals) <= sample_val(vals[i]),
        chan_max(vals) >= sample_val(vals[i]),
    decreases vals.len(),
{
    if vals.len() > 1 && i < vals.len() - 1 {
        lemma_chan_min_le(vals.drop_last(), i);
    }
}

proof fn lemma_chan_min_attained(vals: Seq<Option<i64>>)
    requires
        vals.len() >= 1,
    ensures
        exists|i: int| 0 <= i < vals.len() && sample_val(#[trigger] vals[i]) == chan_min(vals),
        exists|i: int| 0 <= i < vals.len() && sample_val(#[trigger] vals[i]) == chan_max(vals),
    decreases vals.len(),
{
    if vals.len() == 1 {
        assert(sample_val(vals[0]) == chan_min(vals));
        assert(sample_val(vals[0]) == chan_max(vals));
    } else {
        lemma_chan_min_attained(vals.drop_last());
        let j = choose|j: int|
            0 <= j < vals.drop_last().len() && sample_val(#[trigger] vals.drop_last()[j])
                == chan_min(vals.drop_last());
        let k = choose|k: int|
            0 <= k < vals.drop_last().len() && sample_val(#[trigger] vals.drop_last()[k])
                == chan_max(vals.drop_last());
        if sample_val(vals.last()) < chan_min(vals.drop_last()) {
            assert(sample_val(vals[vals.len() - 1]) == chan_min(vals));
        } else {
            assert(sample_val(vals[j]) == chan_min(vals));
        }
        if sample_val(vals.last()) > chan_max(vals.drop_last()) {
            assert(sample_val(vals[vals.len() - 1]) == chan_max(vals));
        } else {
            assert(sample_val(vals[k]) == chan_max(vals));
        }
    }
}

/// Normalizes one channel: byte `i` of the result is exactly
/// [`norm_byte_at`]`(vals, i)` — the full-range rescaling for a live
/// channel, the midpoint byte for a degenerate one.
pub fn normalize_channel(vals: &Vec<Option<i64>>) -> (out: Vec<u8>)
    ensures
        out@.len() == vals@.len(),
        forall|i: int| 0 <= i < out@.len() ==> (#[trigger] out@[i]) as int == norm_byte_at(vals@, i),
{
    let n = vals.len();
    let mut out: Vec<u8> = Vec::new();
    if n == 0 {
        return out;
    }
    // Pass 1: track presence and the running minimum and maximum.
    let mut present: bool;
    let mut lo: i64 = 0;
    let mut hi: i64 = 0;
    match vals[0] {
        Some(v) => {
            present = true;
            lo = v;
            hi = v;
        },
        None => {
            present = false;
        },
    }
    proof {
        assert(vals@.take(1).len() == 1);
        assert(vals@.take(1)[0] == vals@[0]);
    }
    let mut i: usize = 1;
    while i < n
        invariant
            1 <= i <= n,
            n == vals@.len(),
            present <==> all_present(vals@.take(i as int)),
            present ==> lo == chan_min(vals@.take(i as int)) && hi == chan_max(
                vals@.take(i as int),
            ),
        decreases n - i,
    {
        let ghost prefix = vals@.take(i as int);
        let ghost extended = vals@.take(i as int + 1);
        proof {
            assert(extended.drop_last() =~= prefix);
            assert(extended.last() == vals@[i as int]);
        }
        match vals[i] {
            Some(v) => {
                if v < lo {
                    lo = v;
                }
                if v > hi {
                    hi = v;
                }
                proof {
                    if !all_present(prefix) {
                        let j = choose|j: int| 0 <= j < prefix.len() && !((#[trigger] prefix[j]) is Some);
                        assert(!(extended[j] is Some));
                    }
                }
            },
            None => {
                present = false;
                proof {
                    assert(!(extended[i as int] is Some));
                }
            },
        }
        i += 1;
    }
    proof {
        assert(vals@.take(n as int) =~= vals@);
    }
    // Pass 2: emit one byte per sample.
    let flat = (hi as i128) - (lo as i128) < EPSILON_MICROS as i128;
    let is_degenerate = !present || flat;
    proof {
        assert(is_degenerate == degenerate(vals@));
    }
    let mut j: usize = 0;
    while j < n
        invariant
            j <= n,
            n == vals@.len(),
            out@.len() == j,
            is_degenerate == degenerate(vals@),
            !is_degenerate ==> lo == chan_min(vals@) && hi == chan_max(vals@) && all_present(
                vals@,
            ),
            forall|k: int| 0 <= k < j ==> (#[trigger] out@[k]) as int == norm_byte_at(vals@, k),
        decreases n - j,
    {
        if is_degenerate {
            out.push(MIDPOINT_BYTE);
        } else {
            // The channel is all-present here, so the zero arm never runs;
            // either way the bound value reads as `sample_val`.
            let v: i64 = match vals[j] {
                Some(x) => x,
                None => 0,
            };
            proof {
                lemma_chan_min_le(vals@, j as int);
            }
            let diff: i128 = (v as i128) - (lo as i128);
            let num: u128 = (diff as u128) * 255;
            let den: u128 = ((hi as i128) - (lo as i128)) as u128;
            let quot: u128 = num / den;
            proof {
                assert(num as int == (v - lo) * 255);
                assert(num <= 255 * den) by {
                    assert(diff as int <= den as int);
                }
                lemma_div_is_ordered(num as int, 255 * (den as int), den as int);
                lemma_div_multiples_vanish(255, den as int);
                assert((den as int * 255) / (den as int) == 255);
                assert(quot <= 255);
                assert(quot as int == scaled_byte(sample_val(vals@[j as int]), lo as int, hi as int));
            }
            out.push(quot as u8);
        }
        j += 1;
    }
    out
}

/// The red channel of a sample buffer.
pub open spec fn chan_r(samples: Seq<RawSample>) -> Seq<Option<i64>> {
    samples.map_values(|s: RawSample| s.r)
}

/// The green channel of a sample buffer.
pub open spec fn chan_g(samples: Seq<RawSample>) -> Seq<Option<i64>> {
    samples.map_values(|s: RawSample| s.g)
}

/// The blue channel of a sample buffer.
pub open spec fn chan_b(samples: Seq<RawSample>) -> Seq<Option<i64>> {
    samples.map_values(|s: RawSample| s.b)
}

/// `pixels` is the rendering of `samples`: one pixel per sample, each
/// channel normalized independently over the whole buffer.
pub open spec fn renders(samples: Seq<RawSample>, pixels: Seq<Rgb>) -> bool {
    &&& pixels.len() == samples.len()
    &&& forall|i: int|
        0 <= i < samples.len() ==> {
            &&& (#[trigger] pixels[i]).r as int == norm_byte_at(chan_r(samples), i)
            &&& pixels[i].g as int == norm_byte_at(chan_g(samples), i)
            &&& pixels[i].b as int == norm_byte_at(chan_b(samples), i)
        }
}

fn split_channel_r(samples: &Vec<RawSample>) -> (out: Vec<Option<i64>>)
    ensures
        out@ =~= chan_r(samples@),
{
    let mut out: Vec<Option<i64>> = Vec::new();
    let mut i: usize = 0;
    while i < samples.len()
        invariant
            i <= samples.len(),
            out@.len() == i,
            forall|k: int| 0 <= k < i ==> #[trigger] out@[k] == samples@[k].r,
        decreases samples.len() - i,
    {
        out.push(samples[i].r);
        i += 1;
    }
    out
}

fn split_channel_g(samples: &Vec<RawSample>) -> (out: Vec<Option<i64>>)
    ensures
        out@ =~= chan_g(samples@),
{
    let mut out: Vec<Option<i64>> = Vec::new();
    let mut i: usize = 0;
    while i < samples.len()
        invariant
            i <= samples.len(),
            out@.len() == i,
            forall|k: int| 0 <= k < i ==> #[trigger] out@[k] == samples@[k].g,
        decreases samples.len() - i,
    {
        out.push(samples[i].g);
        i += 1;
    }
    out
}

fn split_channel_b(samples: &Vec<RawSample>) -> (out: Vec<Option<i64>>)
    ensures
        out@ =~= chan_b(samples@),
{
    let mut out: Vec<Option<i64>> = Vec::new();
    let mut i: usize = 0;
    while i < samples.len()
        invariant
            i <= samples.len(),
            out@.len() == i,
            forall|k: int| 0 <= k < i ==> #[trigger] out@[k] == samples@[k].b,
        decreases samples.len() - i,
    {
        out.push(samples[i].b);
        i += 1;
    }
    out
}

/// Renders the raw evaluation samples of one genome into a phenotype
/// image: each channel is normalized across the whole grid on its own, so
/// the result is exactly the [`renders`] relation. Fails only when the
/// sample buffer does not match the stated grid dimensions.
pub fn generate_image_from_samples(samples: &Vec<RawSample>, width: usize, height: usize) -> (result:
    Result<PhenotypeImage, RenderError>)
    ensures
        result is Ok <==> samples@.len() == width * height,
        result matches Ok(img) ==> {
            &&& img.wf()
            &&& img.width == width
            &&& img.height == height
            &&& renders(samples@, img.pixels@)
        },
{
    let n = samples.len();
    let matches_grid = match width.checked_mul(height) {
        Some(cells) => n == cells,
        None => false,
    };
    if !matches_grid {
        return Err(RenderError::SampleCountMismatch);
    }
    let r_bytes = normalize_channel(&split_channel_r(samples));
    let g_bytes = normalize_channel(&split_channel_g(samples));
    let b_bytes = normalize_channel(&split_channel_b(samples));
    let mut pixels: Vec<Rgb> = Vec::new();
    let mut i: usize = 0;
    while i < samples.len()
        invariant
            i <= samples.len(),
            pixels@.len() == i,
            r_bytes@.len() == samples@.len(),
            g_bytes@.len() == samples@.len(),
            b_bytes@.len() == samples@.len(),
            forall|k: int|
                0 <= k < r_bytes@.len() ==> (#[trigger] r_bytes@[k]) as int == norm_byte_at(
                    chan_r(samples@),
                    k,
                ),
            forall|k: int|
                0 <= k < g_bytes@.len() ==> (#[trigger] g_bytes@[k]) as int == norm_byte_at(
                    chan_g(samples@),
                    k,
                ),
            forall|k: int|
                0 <= k < b_bytes@.len() ==> (#[trigger] b_bytes@[k]) as int == norm_byte_at(
                    chan_b(samples@),
                    k,
                ),
            forall|k: int|
                0 <= k < i ==> {
                    &&& (#[trigger] pixels@[k]).r as int == norm_byte_at(chan_r(samples@), k)
                    &&& pixels@[k].g as int == norm_byte_at(chan_g(samples@), k)
                    &&& pixels@[k].b as int == norm_byte_at(chan_b(samples@), k)
                },
        decreases samples.len() - i,
    {
        pixels.push(Rgb { r: r_bytes[i], g: g_bytes[i], b: b_bytes[i] });
        i += 1;
    }
    Ok(PhenotypeImage { width, height, pixels })
}

/// Rendering is deterministic: the [`renders`] relation is functional in
/// its sample buffer, so two renders of the same samples are byte-for-byte
/// identical, whatever their order or history.
pub proof fn lemma_render_deterministic(samples: Seq<RawSample>, a: Seq<Rgb>, b: Seq<Rgb>)
    requires
        renders(samples, a),
        renders(samples, b),
    ensures
        a == b,
{
    assert forall|i: int| 0 <= i < a.len() implies a[i] == b[i] by {
        assert(a[i].r == b[i].r && a[i].g == b[i].g && a[i].b == b[i].b);
    }
    assert(a =~= b);
}

/// Every pixel of a degenerate channel is the midpoint byte.
pub proof fn lemma_degenerate_is_midpoint(vals: Seq<Option<i64>>, i: int)
    requires
        0 <= i < vals.len(),
        degenerate(vals),
    ensures
        norm_byte_at(vals, i) == MIDPOINT_BYTE,
{
}

/// A live channel spans the full byte range: its minimum raw sample maps
/// to byte 0 and its maximum to byte 255, and both occur somewhere in the
/// channel.
pub proof fn lemma_normalization_spans_range(vals: Seq<Option<i64>>)
    requires
        vals.len() >= 1,
        !degenerate(vals),
    ensures
        exists|i: int| 0 <= i < vals.len() && #[trigger] norm_byte_at(vals, i) == 0,
        exists|i: int| 0 <= i < vals.len() && #[trigger] norm_byte_at(vals, i) == 255,
        forall|i: int| 0 <= i < vals.len() ==> 0 <= #[trigger] norm_byte_at(vals, i) <= 255,
{
    let lo = chan_min(vals);
    let hi = chan_max(vals);
    lemma_chan_min_attained(vals);
    let i = choose|i: int| 0 <= i < vals.len() && sample_val(#[trigger] vals[i]) == lo;
    let j = choose|j: int| 0 <= j < vals.len() && sample_val(#[trigger] vals[j]) == hi;
    assert((0 * 255) as int == 0) by (nonlinear_arith);
    lemma_div_multiples_vanish(0, hi - lo);
    assert(scaled_byte(lo, lo, hi) == 0);
    assert(norm_byte_at(vals, i) == 0);
    lemma_div_multiples_vanish(255, hi - lo);
    assert(((hi - lo) * 255) / (hi - lo) == 255);
    assert(norm_byte_at(vals, j) == 255);
    assert forall|k: int| 0 <= k < vals.len() implies 0 <= #[trigger] norm_byte_at(vals, k)
        <= 255 by {
        lemma_chan_min_le(vals, k);
        let v = sample_val(vals[k]);
        lemma_div_pos_is_pos((v - lo) * 255, hi - lo);
        lemma_div_is_ordered((v - lo) * 255, 255 * (hi - lo), hi - lo);
        assert(((hi - lo) * 255) / (hi - lo) == 255);
    }
}

} // verus!
