//! Mesh synthesis: turning a phenotype image into a vertex list and a
//! triangle index buffer under one of four stitching topologies.
//!
//! Every vertex is one pixel of the image (its byte triple is later mapped
//! affinely to a 3D position by the rendering collaborator); the index
//! buffer is pure integer combinatorics and is specified exactly, entry by
//! entry, by the `*_index_at` functions below.

use vstd::prelude::*;

verus! {

use vstd::arithmetic::div_mod::{
    lemma_fundamental_div_mod, lemma_fundamental_div_mod_converse, lemma_mod_pos_bound,
    lemma_div_pos_is_pos, lemma_mod_self_0, lemma_small_mod,
};
use vstd::arithmetic::mul::lemma_mul_nonnegative;
use crate::generator::{PhenotypeImage, Rgb};
use crate::state::StitchingType;

/// A synthesized mesh: one vertex per pixel of the source image, in the same
/// row-major order, and a triangle-list index buffer into those vertices.
#[derive(Debug)]
pub struct SculptMeshData {
    pub vertices: Vec<Rgb>,
    pub indices: Vec<u32>,
}

/// Why mesh synthesis refused an image.
#[derive(Clone, Copy, Debug, PartialEq, Eq, Structural)]
pub enum MeshError {
    /// The pixel buffer does not hold `width * height` entries.
    MalformedImage,
    /// The grid is narrower or shorter than 2, so no quad can be formed.
    GridTooSmall,
    /// The grid has more cells than a `u32` index can address.
    GridTooLarge,
}

/// The six index-buffer entries of one quad, split into the triangles
/// `(a, b, c)` and `(c, b, d)` so the diagonal `b..c` is shared and the
/// winding is uniform; `r` selects the entry, `0 <= r < 6`.
pub open spec fn quad_entry(a: int, b: int, c: int, d: int, r: int) -> int {
    if r == 0 {
        a
    } else if r == 1 {
        b
    } else if r == 2 {
        c
    } else if r == 3 {
        c
    } else if r == 4 {
        b
    } else {
        d
    }
}

pub open spec fn plane_index_count(w: int, h: int) -> int {
    6 * ((w - 1) * (h - 1))
}

pub open spec fn cylinder_index_count(w: int, h: int) -> int {
    6 * (w * (h - 1))
}

pub open spec fn sphere_index_count(w: int, h: int) -> int {
    6 * (w * (h + 1))
}

pub open spec fn torus_index_count(w: int, h: int) -> int {
    6 * (w * h)
}

/// How many index-buffer entries each stitching mode emits on a `w` x `h`
/// grid: one quad (6 entries) per emitted cell.
pub open spec fn index_count(mode: StitchingType, w: int, h: int) -> int {
    match mode {
        StitchingType::Plane => plane_index_count(w, h),
        StitchingType::Sphere => sphere_index_count(w, h),
        StitchingType::Cylinder => cylinder_index_count(w, h),
        StitchingType::Torus => torus_index_count(w, h),
    }
}

/// Entry `k` of the plane index buffer: quad `k / 6` lies at column
/// `(k / 6) % (w - 1)` and row `(k / 6) / (w - 1)`; no edge wraps.
pub open spec fn plane_index_at(w: int, h: int, k: int) -> int {
    let q = k / 6;
    let r = k % 6;
    let qx = q % (w - 1);
    let qy = q / (w - 1);
    quad_entry(
        qy * w + qx,
        qy * w + qx + w,
        qy * w + qx + 1,
        qy * w + qx + w + 1,
        r,
    )
}

/// Entry `k` of a band of quads that wraps in x: quad `k / 6` lies at
/// column `(k / 6) % w` (its right edge wraps modulo `w`) and row
/// `(k / 6) / w`. The cylinder body is exactly this band.
pub open spec fn cylinder_index_at(w: int, h: int, k: int) -> int {
    let q = k / 6;
    let r = k % 6;
    let qx = q % w;
    let qy = q / w;
    quad_entry(
        qy * w + qx,
        qy * w + qx + w,
        qy * w + (qx + 1) % w,
        qy * w + w + (qx + 1) % w,
        r,
    )
}

/// Entry `k` of the sphere index buffer: a degenerate fan over row 0
/// (collapsed to vertex 0), then the cylinder body, then a degenerate fan
/// under row `h - 1` (collapsed to vertex `(h - 1) * w`).
pub open spec fn sphere_index_at(w: int, h: int, k: int) -> int {
    if k < 6 * w {
        let x = k / 6;
        let r = k % 6;
        quad_entry(0, w + x, 0, w + (x + 1) % w, r)
    } else if k < 6 * w + cylinder_index_count(w, h) {
        cylinder_index_at(w, h, k - 6 * w)
    } else {
        let k2 = k - 6 * w - cylinder_index_count(w, h);
        let x = k2 / 6;
        let r = k2 % 6;
        quad_entry((h - 2) * w + x, (h - 1) * w, (h - 2) * w + (x + 1) % w, (h - 1) * w, r)
    }
}

/// Entry `k` of the torus index buffer: like the cylinder band but emitted
/// for every row, with the row below row `h - 1` wrapping to row 0.
pub open spec fn torus_index_at(w: int, h: int, k: int) -> int {
    let q = k / 6;
    let r = k % 6;
    let qx = q % w;
    let qy = q / w;
    quad_entry(
        qy * w + qx,
        ((qy + 1) * w) % (h * w) + qx,
        qy * w + (qx + 1) % w,
        ((qy + 1) * w) % (h * w) + (qx + 1) % w,
        r,
    )
}

/// Entry `k` of the index buffer for the given stitching mode.
pub open spec fn mode_index_at(mode: StitchingType, w: int, h: int, k: int) -> int {
    match mode {
        StitchingType::Plane => plane_index_at(w, h, k),
        StitchingType::Sphere => sphere_index_at(w, h, k),
        StitchingType::Cylinder => cylinder_index_at(w, h, k),
        StitchingType::Torus => torus_index_at(w, h, k),
    }
}

/// Appends the six index entries of one quad: the triangles `(a, b, c)` and
/// `(c, b, d)`.
pub fn insert_quad(indices: &mut Vec<u32>, a: usize, b: usize, c: usize, d: usize)
    requires
        a <= u32::MAX,
        b <= u32::MAX,
        c <= u32::MAX,
        d <= u32::MAX,
    ensures
        final(indices)@ =~= old(indices)@ + seq![
            a as u32,
            b as u32,
            c as u32,
            c as u32,
            b as u32,
            d as u32,
        ],
{
    indices.push(a as u32);
    indices.push(b as u32);
    indices.push(c as u32);
    indices.push(c as u32);
    indices.push(b as u32);
    indices.push(d as u32);
}

/// Positions `6q`, `6q + 1`, ..., `6q + 5` decompose as quad `q`, entry `r`.
proof fn lemma_six_decompose(q: int, r: int)
    requires
        0 <= q,
        0 <= r < 6,
    ensures
        (6 * q + r) / 6 == q,
        (6 * q + r) % 6 == r,
{
    lemma_fundamental_div_mod_converse(6 * q + r, 6, q, r);
}

/// Row-major flattening round-trips: `(qy * cols + qx) / cols == qy` and
/// `(qy * cols + qx) % cols == qx`.
proof fn lemma_row_major(qy: int, qx: int, cols: int)
    requires
        0 <= qy,
        0 <= qx < cols,
    ensures
        (qy * cols + qx) / cols == qy,
        (qy * cols + qx) % cols == qx,
{
    lemma_fundamental_div_mod_converse(qy * cols + qx, cols, qy, qx);
}

fn plane_indices(w: usize, h: usize) -> (out: Vec<u32>)
    requires
        2 <= w,
        2 <= h,
        w * h <= u32::MAX,
    ensures
        out@.len() == plane_index_count(w as int, h as int),
        forall|k: int| 0 <= k < out@.len() ==> out@[k] as int == plane_index_at(w as int, h as int, k),
{
    let mut out: Vec<u32> = Vec::new();
    let mut y: usize = 0;
    while y < h - 1
        invariant
            2 <= w,
            2 <= h,
            w * h <= u32::MAX,
            y <= h - 1,
            out@.len() == 6 * (y * (w - 1)),
            forall|k: int|
                0 <= k < out@.len() ==> out@[k] as int == plane_index_at(w as int, h as int, k),
        decreases h - 1 - y,
    {
        let mut x: usize = 0;
        while x < w - 1
            invariant
                2 <= w,
                2 <= h,
                w * h <= u32::MAX,
                y < h - 1,
                x <= w - 1,
                out@.len() == 6 * (y * (w - 1) + x),
                forall|k: int|
                    0 <= k < out@.len() ==> out@[k] as int == plane_index_at(w as int, h as int, k),
            decreases w - 1 - x,
        {
            assert(y * w + x + w + 1 < w * h) by (nonlinear_arith)
                requires
                    2 <= w,
                    2 <= h,
                    y < h - 1,
                    x < w - 1,
            ;
            let ghost prev = out@;
            let ghost q: int = y as int * (w as int - 1) + x as int;
            insert_quad(&mut out, y * w + x, y * w + x + w, y * w + x + 1, y * w + x + w + 1);
            proof {
                lemma_mul_nonnegative(y as int, w as int - 1);
                assert forall|k: int| prev.len() <= k < out@.len() implies out@[k] as int
                    == plane_index_at(w as int, h as int, k) by {
                    let r = k - 6 * q;
                    lemma_six_decompose(q, r);
                    lemma_row_major(y as int, x as int, w as int - 1);
                }
                assert(out@.len() == 6 * (y * (w - 1) + x + 1));
            }
            x += 1;
        }
        proof {
            assert(y * (w - 1) + (w - 1) == (y + 1) * (w - 1)) by (nonlinear_arith);
        }
        y += 1;
    }
    proof {
        assert((h - 1) * (w - 1) == (w - 1) * (h - 1)) by (nonlinear_arith);
    }
    out
}

fn cylinder_indices(w: usize, h: usize) -> (out: Vec<u32>)
    requires
        2 <= w,
        2 <= h,
        w * h <= u32::MAX,
    ensures
        out@.len() == cylinder_index_count(w as int, h as int),
        forall|k: int|
            0 <= k < out@.len() ==> out@[k] as int == cylinder_index_at(w as int, h as int, k),
{
    let mut out: Vec<u32> = Vec::new();
    let mut y: usize = 0;
    while y < h - 1
        invariant
            2 <= w,
            2 <= h,
            w * h <= u32::MAX,
            y <= h - 1,
            out@.len() == 6 * (y * w),
            forall|k: int|
                0 <= k < out@.len() ==> out@[k] as int == cylinder_index_at(w as int, h as int, k),
        decreases h - 1 - y,
    {
        let mut x: usize = 0;
        while x < w
            invariant
                2 <= w,
                2 <= h,
                w * h <= u32::MAX,
                y < h - 1,
                x <= w,
                out@.len() == 6 * (y * w + x),
                forall|k: int|
                    0 <= k < out@.len() ==> out@[k] as int
                        == cylinder_index_at(w as int, h as int, k),
            decreases w - x,
        {
            assert(y * w + x + w < w * h && y * w + w + w <= w * h) by (nonlinear_arith)
                requires
                    2 <= w,
                    2 <= h,
                    y < h - 1,
                    x < w,
            ;
            let ghost prev = out@;
            let ghost q: int = y as int * w as int + x as int;
            insert_quad(
                &mut out,
                y * w + x,
                y * w + x + w,
                y * w + (x + 1) % w,
                y * w + w + (x + 1) % w,
            );
            proof {
                lemma_mul_nonnegative(y as int, w as int);
                assert forall|k: int| prev.len() <= k < out@.len() implies out@[k] as int
                    == cylinder_index_at(w as int, h as int, k) by {
                    let r = k - 6 * q;
                    lemma_six_decompose(q, r);
                    lemma_row_major(y as int, x as int, w as int);
                }
                assert(out@.len() == 6 * (y * w + x + 1));
            }
            x += 1;
        }
        proof {
            assert(y * w + w == (y + 1) * w) by (nonlinear_arith);
        }
        y += 1;
    }
    proof {
        assert((h - 1) * w == w * (h - 1)) by (nonlinear_arith);
    }
    out
}

fn torus_indices(w: usize, h: usize) -> (out: Vec<u32>)
    requires
        2 <= w,
        2 <= h,
        w * h <= u32::MAX,
    ensures
        out@.len() == torus_index_count(w as int, h as int),
        forall|k: int|
            0 <= k < out@.len() ==> out@[k] as int == torus_index_at(w as int, h as int, k),
{
    let mut out: Vec<u32> = Vec::new();
    let mut y: usize = 0;
    while y < h
        invariant
            2 <= w,
            2 <= h,
            w * h <= u32::MAX,
            y <= h,
            out@.len() == 6 * (y * w),
            forall|k: int|
                0 <= k < out@.len() ==> out@[k] as int == torus_index_at(w as int, h as int, k),
        decreases h - y,
    {
        let mut x: usize = 0;
        while x < w
            invariant
                2 <= w,
                2 <= h,
                w * h <= u32::MAX,
                y < h,
                x <= w,
                out@.len() == 6 * (y * w + x),
                forall|k: int|
                    0 <= k < out@.len() ==> out@[k] as int == torus_index_at(w as int, h as int, k),
            decreases w - x,
        {
            assert((y + 1) * w <= w * h && y * w + x < w * h && y * w + w <= w * h && h * w == w
                * h) by (nonlinear_arith)
                requires
                    2 <= w,
                    2 <= h,
                    y < h,
                    x < w,
            ;
            proof {
                lemma_mod_pos_bound((x + 1) as int, w as int);
            }
            let wrap_row = ((y + 1) * w) % (h * w);
            proof {
                if y + 1 < h {
                    assert((y + 1) * w < h * w && (y + 1) * w <= (h - 1) * w) by (nonlinear_arith)
                        requires
                            2 <= w,
                            y + 1 < h,
                    ;
                    lemma_small_mod(((y + 1) * w) as nat, (h * w) as nat);
                } else {
                    assert((y + 1) * w == h * w);
                    lemma_mod_self_0((h * w) as int);
                }
                assert(wrap_row <= (h - 1) * w);
                assert((h - 1) * w + w <= w * h) by (nonlinear_arith)
                    requires
                        2 <= h,
                        2 <= w,
                ;
            }
            let ghost prev = out@;
            let ghost q: int = y as int * w as int + x as int;
            insert_quad(
                &mut out,
                y * w + x,
                wrap_row + x,
                y * w + (x + 1) % w,
                wrap_row + (x + 1) % w,
            );
            proof {
                lemma_mul_nonnegative(y as int, w as int);
                assert forall|k: int| prev.len() <= k < out@.len() implies out@[k] as int
                    == torus_index_at(w as int, h as int, k) by {
                    let r = k - 6 * q;
                    lemma_six_decompose(q, r);
                    lemma_row_major(y as int, x as int, w as int);
                }
                assert(out@.len() == 6 * (y * w + x + 1));
            }
            x += 1;
        }
        proof {
            assert(y * w + w == (y + 1) * w) by (nonlinear_arith);
        }
        y += 1;
    }
    proof {
        assert(h * w == w * h) by (nonlinear_arith);
    }
    out
}

fn sphere_indices(w: usize, h: usize) -> (out: Vec<u32>)
    requires
        2 <= w,
        2 <= h,
        w * h <= u32::MAX,
    ensures
        out@.len() == sphere_index_count(w as int, h as int),
        forall|k: int|
            0 <= k < out@.len() ==> out@[k] as int == sphere_index_at(w as int, h as int, k),
{
    let mut out: Vec<u32> = Vec::new();

    // Bottom cap: a degenerate fan collapsing the ring of row 1 onto vertex 0.
    let mut x: usize = 0;
    while x < w
        invariant
            2 <= w,
            2 <= h,
            w * h <= u32::MAX,
            x <= w,
            out@.len() == 6 * x,
            forall|k: int|
                0 <= k < out@.len() ==> out@[k] as int == sphere_index_at(w as int, h as int, k),
        decreases w - x,
    {
        assert(w + x < w * h && w + w <= w * h) by (nonlinear_arith)
            requires
                2 <= w,
                2 <= h,
                x < w,
        ;
        proof {
            lemma_mod_pos_bound((x + 1) as int, w as int);
        }
        let ghost prev = out@;
        insert_quad(&mut out, 0, w + x, 0, w + (x + 1) % w);
        proof {
            assert forall|k: int| prev.len() <= k < out@.len() implies out@[k] as int
                == sphere_index_at(w as int, h as int, k) by {
                let r = k - 6 * x;
                lemma_six_decompose(x as int, r);
            }
        }
        x += 1;
    }

    // Body: the cylinder band of wrapped quads between consecutive rows.
    let mut y: usize = 0;
    while y < h - 1
        invariant
            2 <= w,
            2 <= h,
            w * h <= u32::MAX,
            y <= h - 1,
            out@.len() == 6 * w + 6 * (y * w),
            forall|k: int|
                0 <= k < out@.len() ==> out@[k] as int == sphere_index_at(w as int, h as int, k),
        decreases h - 1 - y,
    {
        let mut x2: usize = 0;
        while x2 < w
            invariant
                2 <= w,
                2 <= h,
                w * h <= u32::MAX,
                y < h - 1,
                x2 <= w,
                out@.len() == 6 * w + 6 * (y * w + x2),
                forall|k: int|
                    0 <= k < out@.len() ==> out@[k] as int
                        == sphere_index_at(w as int, h as int, k),
            decreases w - x2,
        {
            assert(y * w + x2 + w < w * h && y * w + w + w <= w * h && y * w + x2 < w * (h - 1))
                by (nonlinear_arith)
                requires
                    2 <= w,
                    2 <= h,
                    y < h - 1,
                    x2 < w,
            ;
            let ghost prev = out@;
            let ghost q: int = y as int * w as int + x2 as int;
            insert_quad(
                &mut out,
                y * w + x2,
                y * w + x2 + w,
                y * w + (x2 + 1) % w,
                y * w + w + (x2 + 1) % w,
            );
            proof {
                lemma_mul_nonnegative(y as int, w as int);
                assert forall|k: int| prev.len() <= k < out@.len() implies out@[k] as int
                    == sphere_index_at(w as int, h as int, k) by {
                    let r = k - (6 * w + 6 * q);
                    lemma_six_decompose(q, r);
                    lemma_row_major(y as int, x2 as int, w as int);
                    assert(k - 6 * w == 6 * q + r);
                }
                assert(out@.len() == 6 * w + 6 * (y * w + x2 + 1));
            }
            x2 += 1;
        }
        proof {
            assert(y * w + w == (y + 1) * w) by (nonlinear_arith);
        }
        y += 1;
    }

    // Top cap: a degenerate fan collapsing the ring of row h - 2 onto the
    // first vertex of row h - 1.
    proof {
        assert((h - 1) * w == w * (h - 1)) by (nonlinear_arith);
    }
    let mut x3: usize = 0;
    while x3 < w
        invariant
            2 <= w,
            2 <= h,
            w * h <= u32::MAX,
            x3 <= w,
            out@.len() == 6 * w + 6 * (w * (h - 1)) + 6 * x3,
            forall|k: int|
                0 <= k < out@.len() ==> out@[k] as int == sphere_index_at(w as int, h as int, k),
        decreases w - x3,
    {
        assert((h - 2) * w + x3 < w * h && (h - 2) * w + w < w * h) by (nonlinear_arith)
            requires
                2 <= w,
                2 <= h,
                x3 < w,
        ;
        let ghost prev = out@;
        insert_quad(
            &mut out,
            (h - 2) * w + x3,
            (h - 2) * w + w,
            (h - 2) * w + (x3 + 1) % w,
            (h - 2) * w + w,
        );
        proof {
            assert forall|k: int| prev.len() <= k < out@.len() implies out@[k] as int
                == sphere_index_at(w as int, h as int, k) by {
                let r = k - (6 * (w as int) + 6 * (w as int * (h as int - 1)) + 6 * x3 as int);
                lemma_six_decompose(x3 as int, r);
                assert(k - 6 * w - cylinder_index_count(w as int, h as int) == 6 * x3 + r);
                assert(6 * w <= k) by (nonlinear_arith)
                    requires
                        2 <= w,
                        2 <= h,
                        0 <= r,
                        k == 6 * (w as int) + 6 * (w as int * (h as int - 1)) + 6 * x3 as int + r,
                ;
                assert((h as int - 2) * w as int + w as int == (h as int - 1) * w as int)
                    by (nonlinear_arith);
            }
        }
        x3 += 1;
    }
    proof {
        assert(6 * w + 6 * (w * (h - 1)) + 6 * w == 6 * (w * (h + 1))) by (nonlinear_arith);
    }
    out
}

proof fn lemma_plane_index_in_range(w: int, h: int, k: int)
    requires
        2 <= w,
        2 <= h,
        0 <= k < plane_index_count(w, h),
    ensures
        0 <= plane_index_at(w, h, k) < w * h,
{
    let q = k / 6;
    let r = k % 6;
    lemma_fundamental_div_mod(k, 6);
    lemma_mod_pos_bound(k, 6);
    lemma_div_pos_is_pos(k, 6);
    assert(q < (w - 1) * (h - 1));
    let qx = q % (w - 1);
    let qy = q / (w - 1);
    lemma_mod_pos_bound(q, w - 1);
    lemma_fundamental_div_mod(q, w - 1);
    lemma_div_pos_is_pos(q, w - 1);
    assert(qy < h - 1) by (nonlinear_arith)
        requires
            2 <= w,
            q == (w - 1) * qy + qx,
            0 <= qx < w - 1,
            0 <= qy,
            q < (w - 1) * (h - 1),
    ;
    assert(qy * w + qx + w + 1 < w * h) by (nonlinear_arith)
        requires
            2 <= w,
            2 <= h,
            0 <= qy < h - 1,
            0 <= qx < w - 1,
    ;
    assert(0 <= qy * w) by (nonlinear_arith)
        requires
            0 <= qy,
            2 <= w,
    ;
}

proof fn lemma_cylinder_index_in_range(w: int, h: int, k: int)
    requires
        2 <= w,
        2 <= h,
        0 <= k < cylinder_index_count(w, h),
    ensures
        0 <= cylinder_index_at(w, h, k) < w * h,
{
    let q = k / 6;
    let r = k % 6;
    lemma_fundamental_div_mod(k, 6);
    lemma_mod_pos_bound(k, 6);
    lemma_div_pos_is_pos(k, 6);
    assert(q < w * (h - 1));
    let qx = q % w;
    let qy = q / w;
    lemma_mod_pos_bound(q, w);
    lemma_fundamental_div_mod(q, w);
    lemma_div_pos_is_pos(q, w);
    lemma_mod_pos_bound(qx + 1, w);
    assert(qy < h - 1) by (nonlinear_arith)
        requires
            2 <= w,
            q == w * qy + qx,
            0 <= qx < w,
            0 <= qy,
            q < w * (h - 1),
    ;
    assert(qy * w + w + (qx + 1) % w < w * h && qy * w + qx + w < w * h && 0 <= qy * w)
        by (nonlinear_arith)
        requires
            2 <= w,
            2 <= h,
            0 <= qy < h - 1,
            0 <= qx < w,
            0 <= (qx + 1) % w < w,
    ;
}

proof fn lemma_torus_index_in_range(w: int, h: int, k: int)
    requires
        2 <= w,
        2 <= h,
        0 <= k < torus_index_count(w, h),
    ensures
        0 <= torus_index_at(w, h, k) < w * h,
{
    let q = k / 6;
    let r = k % 6;
    lemma_fundamental_div_mod(k, 6);
    lemma_mod_pos_bound(k, 6);
    lemma_div_pos_is_pos(k, 6);
    assert(q < w * h);
    let qx = q % w;
    let qy = q / w;
    lemma_mod_pos_bound(q, w);
    lemma_fundamental_div_mod(q, w);
    lemma_div_pos_is_pos(q, w);
    lemma_mod_pos_bound(qx + 1, w);
    assert(qy < h) by (nonlinear_arith)
        requires
            2 <= w,
            q == w * qy + qx,
            0 <= qx < w,
            0 <= qy,
            q < w * h,
    ;
    let wrap = ((qy + 1) * w) % (h * w);
    if qy + 1 < h {
        assert((qy + 1) * w < h * w && (qy + 1) * w <= (h - 1) * w) by (nonlinear_arith)
            requires
                2 <= w,
                0 <= qy,
                qy + 1 < h,
        ;
        lemma_small_mod(((qy + 1) * w) as nat, (h * w) as nat);
    } else {
        lemma_mod_self_0(h * w);
    }
    assert(wrap <= (h - 1) * w);
    assert(qy * w + qx < w * h && qy * w + (qx + 1) % w < w * h && (h - 1) * w + (qx + 1) % w < w
        * h && (h - 1) * w + qx < w * h && 0 <= qy * w) by (nonlinear_arith)
        requires
            2 <= w,
            2 <= h,
            0 <= qy < h,
            0 <= qx < w,
            0 <= (qx + 1) % w < w,
    ;
}

proof fn lemma_sphere_index_in_range(w: int, h: int, k: int)
    requires
        2 <= w,
        2 <= h,
        0 <= k < sphere_index_count(w, h),
    ensures
        0 <= sphere_index_at(w, h, k) < w * h,
{
    if k < 6 * w {
        let x = k / 6;
        lemma_fundamental_div_mod(k, 6);
        lemma_mod_pos_bound(k, 6);
        lemma_div_pos_is_pos(k, 6);
        lemma_mod_pos_bound(x + 1, w);
        assert(w + x < w * h && w + (x + 1) % w < w * h) by (nonlinear_arith)
            requires
                2 <= w,
                2 <= h,
                0 <= x < w,
                0 <= (x + 1) % w < w,
        ;
    } else if k < 6 * w + cylinder_index_count(w, h) {
        lemma_cylinder_index_in_range(w, h, k - 6 * w);
    } else {
        assert(6 * w + 6 * (w * (h - 1)) + 6 * w == sphere_index_count(w, h)) by (nonlinear_arith);
        let k2 = k - 6 * w - cylinder_index_count(w, h);
        let x = k2 / 6;
        lemma_fundamental_div_mod(k2, 6);
        lemma_mod_pos_bound(k2, 6);
        lemma_div_pos_is_pos(k2, 6);
        lemma_mod_pos_bound(x + 1, w);
        assert((h - 2) * w + x < w * h && (h - 2) * w + (x + 1) % w < w * h && 0 <= (h - 2) * w
            && (h - 1) * w < w * h) by (nonlinear_arith)
            requires
                2 <= w,
                2 <= h,
                0 <= x < w,
                0 <= (x + 1) % w < w,
        ;
    }
}

/// Every entry of the index buffer addresses a vertex of the `w` x `h` grid,
/// whatever the stitching mode.
pub proof fn lemma_mode_index_in_range(mode: StitchingType, w: int, h: int, k: int)
    requires
        2 <= w,
        2 <= h,
        0 <= k < index_count(mode, w, h),
    ensures
        0 <= mode_index_at(mode, w, h, k) < w * h,
{
    match mode {
        StitchingType::Plane => lemma_plane_index_in_range(w, h, k),
        StitchingType::Sphere => lemma_sphere_index_in_range(w, h, k),
        StitchingType::Cylinder => lemma_cylinder_index_in_range(w, h, k),
        StitchingType::Torus => lemma_torus_index_in_range(w, h, k),
    }
}

/// Torus closure: the mesh has no orphan vertices. Vertex `v`'s own quad
/// begins with `v` itself, so entry `6 * v` of the torus index buffer is
/// `v`: every vertex of the grid appears in at least one triangle.
pub proof fn lemma_torus_no_orphan(w: int, h: int, v: int)
    requires
        2 <= w,
        2 <= h,
        0 <= v < w * h,
    ensures
        0 <= 6 * v < torus_index_count(w, h),
        torus_index_at(w, h, 6 * v) == v,
{
    lemma_six_decompose(v, 0);
    let qx = v % w;
    let qy = v / w;
    lemma_mod_pos_bound(v, w);
    lemma_fundamental_div_mod(v, w);
    lemma_div_pos_is_pos(v, w);
    assert(qy * w == w * qy) by (nonlinear_arith);
}

fn copy_pixels(pixels: &Vec<Rgb>) -> (out: Vec<Rgb>)
    ensures
        out@ =~= pixels@,
{
    let mut out: Vec<Rgb> = Vec::new();
    let mut i: usize = 0;
    while i < pixels.len()
        invariant
            i <= pixels.len(),
            out@ =~= pixels@.take(i as int),
        decreases pixels.len() - i,
    {
        out.push(pixels[i]);
        i += 1;
    }
    out
}

/// Synthesizes the mesh for an image under the given stitching mode: one
/// vertex per pixel (in the image's own row-major order) and the exact
/// index buffer that the mode's `*_index_at` specification describes.
///
/// Fails, rather than emitting degenerate geometry, when the pixel buffer
/// does not match the stated dimensions, when the grid is too small to form
/// a quad, or when a vertex index would not fit in a `u32`.
pub fn create_sculpt_mesh(image: &PhenotypeImage, stitching_type: StitchingType) -> (result: Result<
    SculptMeshData,
    MeshError,
>)
    ensures
        result is Ok <==> image.wf() && 2 <= image.width && 2 <= image.height && image.width
            * image.height <= u32::MAX,
        result == Err::<SculptMeshData, MeshError>(MeshError::MalformedImage) <==> !image.wf(),
        result == Err::<SculptMeshData, MeshError>(MeshError::GridTooSmall) <==> image.wf() && (
        image.width < 2 || image.height < 2),
        result == Err::<SculptMeshData, MeshError>(MeshError::GridTooLarge) <==> image.wf() && 2
            <= image.width && 2 <= image.height && image.width * image.height > u32::MAX,
        result matches Ok(mesh) ==> {
            &&& mesh.vertices@ == image.pixels@
            &&& mesh.vertices@.len() == image.width * image.height
            &&& mesh.indices@.len() == index_count(
                stitching_type,
                image.width as int,
                image.height as int,
            )
            &&& forall|k: int|
                0 <= k < mesh.indices@.len() ==> mesh.indices@[k] as int == mode_index_at(
                    stitching_type,
                    image.width as int,
                    image.height as int,
                    k,
                )
            &&& forall|k: int|
                0 <= k < mesh.indices@.len() ==> (mesh.indices@[k] as int) < image.width
                    * image.height
        },
{
    let w = image.width;
    let h = image.height;
    let well_formed = match w.checked_mul(h) {
        Some(cells) => image.pixels.len() == cells,
        None => false,
    };
    if !well_formed {
        return Err(MeshError::MalformedImage);
    }
    if w < 2 || h < 2 {
        return Err(MeshError::GridTooSmall);
    }
    if image.pixels.len() > u32::MAX as usize {
        return Err(MeshError::GridTooLarge);
    }
    let indices = match stitching_type {
        StitchingType::Plane => plane_indices(w, h),
        StitchingType::Sphere => sphere_indices(w, h),
        StitchingType::Cylinder => cylinder_indices(w, h),
        StitchingType::Torus => torus_indices(w, h),
    };
    let mesh = SculptMeshData { vertices: copy_pixels(&image.pixels), indices };
    proof {
        assert forall|k: int| 0 <= k < mesh.indices@.len() implies (mesh.indices@[k] as int)
            < image.width * image.height by {
            lemma_mode_index_in_range(stitching_type, w as int, h as int, k);
        }
    }
    Ok(mesh)
}

} // verus!
