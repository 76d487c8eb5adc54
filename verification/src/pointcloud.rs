//! Colored 3-D point clouds: one point and one color per source pixel, in
//! raster order, with a pose placing the cloud in a shared global frame, and
//! a single nearest-neighbor blending pass that nudges one cloud's depths
//! toward another's.

use vstd::prelude::*;

use crate::error::DepthError;
use crate::grid::ColorGrid;
use crate::grid::DepthGrid;
use crate::scalar::add_bits;
use crate::scalar::add_bits_of;
use crate::scalar::float_bits;
use crate::scalar::float_of_int;
use crate::scalar::mul_bits;
use crate::scalar::mul_bits_of;
use crate::scalar::sub_bits;
use crate::scalar::sub_bits_of;
use crate::scalar::canon;
use crate::scalar::canon_bits;
use crate::scalar::NEG_ZERO_BITS;
use crate::scalar::ONE_BITS;
use crate::scalar::ZERO_BITS;
use crate::spatial::nearest_all;
use crate::spatial::nearest_of;

verus! {

/// An affine transform from cloud-local coordinates to a shared global
/// frame: a 4 x 4 matrix of scalars, row-major, whose last row is expected
/// to read 0, 0, 0, 1.
#[derive(Clone, Copy)]
pub struct Pose {
    pub m: [u64; 16],
}

impl Pose {
    /// A pose from its sixteen row-major matrix cells.
    pub fn new(m: [u64; 16]) -> (r: Pose)
        ensures
            r.m@ == m@,
    {
        Pose { m }
    }

    /// The identity pose: ones down the diagonal, zeros elsewhere.
    pub fn identity() -> (r: Pose)
        ensures
            forall|i: int|
                0 <= i < 16 ==> r.m@[i] == (if i % 5 == 0 {
                    ONE_BITS
                } else {
                    ZERO_BITS
                }),
    {
        let m: [u64; 16] = [
            ONE_BITS,
            ZERO_BITS,
            ZERO_BITS,
            ZERO_BITS,
            ZERO_BITS,
            ONE_BITS,
            ZERO_BITS,
            ZERO_BITS,
            ZERO_BITS,
            ZERO_BITS,
            ONE_BITS,
            ZERO_BITS,
            ZERO_BITS,
            ZERO_BITS,
            ZERO_BITS,
            ONE_BITS,
        ];
        Pose { m }
    }
}

/// Where the affine transform whose row-major cells are `m` carries the
/// point `p`.
pub uninterp spec fn transformed_point(m: Seq<u64>, p: Seq<u64>) -> Seq<u64>;

/// Where the inverse of the affine transform whose row-major cells are `m`
/// carries the point `p`.
pub uninterp spec fn inv_transformed_point(m: Seq<u64>, p: Seq<u64>) -> Seq<u64>;

/// Whether the affine transform whose row-major cells are `m` can be
/// inverted.
pub uninterp spec fn pose_invertible(m: Seq<u64>) -> bool;

/// Relies on `nalgebra`'s `Transform::transform_point` over an `Affine3`
/// built from the matrix: up to the payload bits of NaN coordinates, which
/// the language leaves open, the image depends on the matrix and the point
/// alone.
#[verifier::external_body]
fn apply_pose_raw(m: &[u64; 16], p: &[u64; 3]) -> (r: [u64; 3])
    ensures
        seq![canon_bits(r@[0]), canon_bits(r@[1]), canon_bits(r@[2])] == transformed_point(
            m@,
            p@,
        ),
{
    let e = |b: u64| glam::DVec2::splat(bytemuck::cast(b)).x;
    let mat = nalgebra::Matrix4::from_fn(|i, j| e(m[i * 4 + j]));
    let t = nalgebra::Affine3::from_matrix_unchecked(mat);
    let q = t.transform_point(&nalgebra::Point3::new(e(p[0]), e(p[1]), e(p[2])));
    [bytemuck::cast(q.x), bytemuck::cast(q.y), bytemuck::cast(q.z)]
}

/// The image of `p` under the pose matrix `m`, with NaN coordinates
/// canonicalized.
fn apply_pose(m: &[u64; 16], p: &[u64; 3]) -> (r: [u64; 3])
    ensures
        r@ == transformed_point(m@, p@),
{
    let q = apply_pose_raw(m, p);
    let r = [canon(q[0]), canon(q[1]),
        canon(q[2])];
    proof {
        assert(r@ =~= seq![canon_bits(q@[0]), canon_bits(q@[1]), canon_bits(q@[2])]);
    }
    r
}

/// Relies on `nalgebra`'s `Transform::try_inverse` and
/// `Transform::transform_point` over an `Affine3` built from the matrix:
/// whether the matrix inverts, and (up to NaN payload bits) where its
/// inverse carries the point, depend on the matrix and the point alone.
#[verifier::external_body]
fn apply_pose_inverse_raw(m: &[u64; 16], p: &[u64; 3]) -> (r: Option<[u64; 3]>)
    ensures
        (r is Some) == pose_invertible(m@),
        r matches Some(q) ==> seq![canon_bits(q@[0]), canon_bits(q@[1]), canon_bits(q@[2])]
            == inv_transformed_point(m@, p@),
{
    let e = |b: u64| glam::DVec2::splat(bytemuck::cast(b)).x;
    let mat = nalgebra::Matrix4::from_fn(|i, j| e(m[i * 4 + j]));
    match nalgebra::Affine3::from_matrix_unchecked(mat).try_inverse() {
        Some(ti) => {
            let q = ti.transform_point(&nalgebra::Point3::new(e(p[0]), e(p[1]), e(p[2])));
            Some([bytemuck::cast(q.x), bytemuck::cast(q.y), bytemuck::cast(q.z)])
        },
        None => None,
    }
}

/// The image of `p` under the inverse of the pose matrix `m`, with NaN
/// coordinates canonicalized; `None` exactly when the matrix cannot be
/// inverted.
fn apply_pose_inverse(m: &[u64; 16], p: &[u64; 3]) -> (r: Option<[u64; 3]>)
    ensures
        (r is Some) == pose_invertible(m@),
        r matches Some(q) ==> q@ == inv_transformed_point(m@, p@),
{
    match apply_pose_inverse_raw(m, p) {
        Some(q) => {
            let c = [canon(q[0]), canon(q[1]),
                canon(q[2])];
            proof {
                assert(c@ =~= seq![canon_bits(q@[0]), canon_bits(q@[1]), canon_bits(q@[2])]);
            }
            Some(c)
        },
        None => None,
    }
}

/// A point cloud: one 3-D point and one color per source pixel, in raster
/// order, and the pose placing the cloud in the shared global frame.
pub struct PointCloud {
    pub points: Vec<[u64; 3]>,
    pub colors: Vec<[u8; 3]>,
    pub transform: Pose,
}

impl PointCloud {
    /// Points and colors stay parallel.
    pub open spec fn wf(self) -> bool {
        self.points@.len() == self.colors@.len()
    }

    /// Lifts a color grid and a depth grid into a cloud: for every pixel
    /// `(x, y)` in raster order, the point `(x, y, depth)` and the pixel's
    /// color; fails when the grids differ in width or height.
    pub fn new(rgb: &ColorGrid, depth: &DepthGrid, transform: Pose) -> (r: Result<
        PointCloud,
        DepthError,
    >)
        requires
            rgb.wf(),
            depth.wf(),
        ensures
            !(rgb.spec_width() == depth.spec_width() && rgb.spec_height() == depth.spec_height())
                ==> r == Err::<PointCloud, DepthError>(DepthError::DimensionMismatch),
            rgb.spec_width() == depth.spec_width() && rgb.spec_height() == depth.spec_height()
                ==> (r matches Ok(c) && c.wf() && c.points@.len() == depth.spec_width()
                * depth.spec_height() && c.colors@.len() == c.points@.len() && c.transform.m@
                == transform.m@ && (forall|i: int|
                0 <= i < c.points@.len() ==> c.points@[i]@ == seq![
                    float_of_int((i % (depth.spec_width() as int)) as u64),
                    float_of_int((i / (depth.spec_width() as int)) as u64),
                    depth.cells()[i],
                ]) && (forall|i: int|
                0 <= i < c.colors@.len() ==> c.colors@[i] == rgb.cells()[i])),
    {
        if rgb.width() != depth.width() || rgb.height() != depth.height() {
            return Err(DepthError::DimensionMismatch);
        }
        let w = depth.width();
        let h = depth.height();
        let n = depth.len();
        let mut points: Vec<[u64; 3]> = Vec::new();
        let mut colors: Vec<[u8; 3]> = Vec::new();
        let mut i: usize = 0;
        let mut x: usize = 0;
        let mut y: usize = 0;
        proof {
            assert(n as int == (w as int) * (h as int));
            assert(w == 0 ==> n == 0) by (nonlinear_arith)
                requires
                    n as int == (w as int) * (h as int),
            ;
        }
        while i < n
            invariant
                i <= n,
                n == depth.cells().len(),
                n == rgb.cells().len(),
                depth.wf(),
                rgb.wf(),
                w == depth.spec_width(),
                h == depth.spec_height(),
                w == rgb.spec_width(),
                h == rgb.spec_height(),
                i == y * w + x,
                x <= w,
                y <= h,
                w > 0 ==> x < w,
                w == 0 ==> n == 0,
                points@.len() == i,
                colors@.len() == i,
                forall|j: int|
                    0 <= j < i ==> points@[j]@ == seq![
                        float_of_int((j % (w as int)) as u64),
                        float_of_int((j / (w as int)) as u64),
                        depth.cells()[j],
                    ],
                forall|j: int| 0 <= j < i ==> colors@[j] == rgb.cells()[j],
            decreases n - i,
        {
            proof {
                assert(w > 0);
                vstd::arithmetic::div_mod::lemma_fundamental_div_mod_converse(
                    i as int,
                    w as int,
                    y as int,
                    x as int,
                );
            }
            let xf = float_bits(x as u64);
            let yf = float_bits(y as u64);
            let d = depth.cell(i);
            let c = rgb.cell(i);
            points.push([xf, yf, d]);
            colors.push(c);
            i += 1;
            x += 1;
            if x == w {
                proof {
                    lemma_raster_next_row(
                        x as int - 1,
                        y as int,
                        w as int,
                        h as int,
                        i as int - 1,
                        n as int,
                    );
                }
                x = 0;
                y += 1;
            }
        }
        Ok(PointCloud { points, colors, transform })
    }

    /// Every point carried through the given transform, in order; the cloud
    /// itself is left untouched.
    pub fn affine_applied(&self, transform: &Pose) -> (r: Vec<[u64; 3]>)
        ensures
            r@.len() == self.points@.len(),
            forall|i: int|
                0 <= i < r@.len() ==> r@[i]@ == transformed_point(
                    transform.m@,
                    self.points@[i]@,
                ),
    {
        let mut out: Vec<[u64; 3]> = Vec::new();
        let n = self.points.len();
        let mut i: usize = 0;
        while i < n
            invariant
                i <= n,
                n == self.points@.len(),
                out@.len() == i,
                forall|j: int|
                    0 <= j < i ==> out@[j]@ == transformed_point(
                        transform.m@,
                        self.points@[j]@,
                    ),
            decreases n - i,
        {
            let q = apply_pose(&transform.m, &self.points[i]);
            out.push(q);
            i += 1;
        }
        out
    }

    /// Every point carried through this cloud's own pose into the shared
    /// global frame.
    pub fn get_global_points(&self) -> (r: Vec<[u64; 3]>)
        ensures
            r@.len() == self.points@.len(),
            forall|i: int|
                0 <= i < r@.len() ==> r@[i]@ == transformed_point(
                    self.transform.m@,
                    self.points@[i]@,
                ),
    {
        let t = Pose { m: self.transform.m };
        self.affine_applied(&t)
    }
}

/// The reference points of `other`, carried into the global frame by
/// `other`'s pose and then into the local frame of the pose `pose`.
pub open spec fn local_reference(pose: Pose, other: PointCloud) -> Seq<Seq<u64>> {
    other.points@.map_values(
        |p: [u64; 3]| inv_transformed_point(pose.m@, transformed_point(other.transform.m@, p@)),
    )
}

/// The depth of the reference point nearest to `p`, with the reference
/// cloud `other` carried into the local frame of the pose `pose`.
pub open spec fn nearest_ref_z(pose: Pose, other: PointCloud, p: Seq<u64>) -> u64 {
    nearest_of(local_reference(pose, other), p)[2]
}

/// The blended depth: `z` itself at blend factor zero (either sign of
/// zero), the neighbor's depth `q` at blend factor one, and
/// `z * (1 - t) + t * q` in between.
pub open spec fn blended_z(z: u64, q: u64, t: u64) -> u64 {
    if t == ZERO_BITS || t == NEG_ZERO_BITS {
        z
    } else if t == ONE_BITS {
        q
    } else {
        add_bits_of(mul_bits_of(z, sub_bits_of(ONE_BITS, t)), mul_bits_of(t, q))
    }
}

impl PointCloud {
    /// One nearest-neighbor blending pass: carries `other`'s points into
    /// this cloud's local frame, finds each of this cloud's points its
    /// nearest reference point, and blends the point's depth toward the
    /// neighbor's by the factor `t`; the pose, the colors, and every
    /// point's column and row stay untouched. A factor of zero leaves the
    /// points unchanged; a factor of one adopts each neighbor's depth.
    /// Fails when `other` holds no points, and when this cloud's pose
    /// cannot be inverted to bring the reference points into its frame.
    pub fn approximate_to(&mut self, other: &PointCloud, t: u64) -> (r: Result<(), DepthError>)
        ensures
            final(self).colors@ == old(self).colors@,
            final(self).transform.m@ == old(self).transform.m@,
            final(self).points@.len() == old(self).points@.len(),
            other.points@.len() == 0 ==> r == Err::<(), DepthError>(DepthError::EmptyReferenceCloud)
                && final(self).points@ == old(self).points@,
            other.points@.len() > 0 && !pose_invertible(old(self).transform.m@) ==> r == Err::<
                (),
                DepthError,
            >(DepthError::SingularSystem) && final(self).points@ == old(self).points@,
            other.points@.len() > 0 && pose_invertible(old(self).transform.m@) ==> r == Ok::<
                (),
                DepthError,
            >(()) && forall|i: int|
                0 <= i < old(self).points@.len() ==> final(self).points@[i]@ == seq![
                    old(self).points@[i]@[0],
                    old(self).points@[i]@[1],
                    blended_z(
                        old(self).points@[i]@[2],
                        nearest_ref_z(old(self).transform, *other, old(self).points@[i]@),
                        t,
                    ),
                ],
            t == ZERO_BITS || t == NEG_ZERO_BITS ==> final(self).points@ == old(self).points@,
            other.points@.len() > 0 && pose_invertible(old(self).transform.m@) && t == ONE_BITS
                ==> forall|i: int|
                0 <= i < old(self).points@.len() ==> final(self).points@[i]@[2] == nearest_ref_z(
                    old(self).transform,
                    *other,
                    old(self).points@[i]@,
                ),
    {
        if other.points.len() == 0 {
            return Err(DepthError::EmptyReferenceCloud);
        }
        let og = other.get_global_points();
        let n_ref = og.len();
        let mut locals: Vec<[u64; 3]> = Vec::new();
        let mut i: usize = 0;
        while i < n_ref
            invariant
                i <= n_ref,
                n_ref == og@.len(),
                n_ref == other.points@.len(),
                self.points@ == old(self).points@,
                self.colors@ == old(self).colors@,
                self.transform == old(self).transform,
                forall|j: int|
                    0 <= j < n_ref ==> og@[j]@ == transformed_point(
                        other.transform.m@,
                        other.points@[j]@,
                    ),
                locals@.len() == i,
                i > 0 ==> pose_invertible(self.transform.m@),
                forall|j: int|
                    0 <= j < i ==> locals@[j]@ == inv_transformed_point(
                        self.transform.m@,
                        og@[j]@,
                    ),
            decreases n_ref - i,
        {
            match apply_pose_inverse(&self.transform.m, &og[i]) {
                Some(q) => {
                    locals.push(q);
                },
                None => {
                    return Err(DepthError::SingularSystem);
                },
            }
            i += 1;
        }
        proof {
            assert(locals@.map_values(|p: [u64; 3]| p@) =~= local_reference(
                old(self).transform,
                *other,
            ));
        }
        if t == ZERO_BITS || t == NEG_ZERO_BITS {
            proof {
                assert forall|i: int| 0 <= i < old(self).points@.len() implies old(
                    self,
                ).points@[i]@ == seq![
                    old(self).points@[i]@[0],
                    old(self).points@[i]@[1],
                    blended_z(
                        old(self).points@[i]@[2],
                        nearest_ref_z(old(self).transform, *other, old(self).points@[i]@),
                        t,
                    ),
                ] by {
                    assert(old(self).points@[i]@ =~= seq![
                        old(self).points@[i]@[0],
                        old(self).points@[i]@[1],
                        old(self).points@[i]@[2],
                    ]);
                }
            }
            return Ok(());
        }
        let nn = nearest_all(&locals, &self.points);
        let n_pts = self.points.len();
        let mut k: usize = 0;
        while k < n_pts
            invariant
                k <= n_pts,
                n_pts == old(self).points@.len(),
                self.points@.len() == n_pts,
                self.colors@ == old(self).colors@,
                self.transform == old(self).transform,
                t != ZERO_BITS,
                t != NEG_ZERO_BITS,
                nn@.len() == n_pts,
                forall|j: int|
                    0 <= j < n_pts ==> nn@[j]@ == nearest_of(
                        local_reference(old(self).transform, *other),
                        old(self).points@[j]@,
                    ),
                forall|j: int| k <= j < n_pts ==> self.points@[j] == old(self).points@[j],
                forall|j: int|
                    0 <= j < k ==> self.points@[j]@ == seq![
                        old(self).points@[j]@[0],
                        old(self).points@[j]@[1],
                        blended_z(
                            old(self).points@[j]@[2],
                            nearest_ref_z(old(self).transform, *other, old(self).points@[j]@),
                            t,
                        ),
                    ],
            decreases n_pts - k,
        {
            let p = self.points[k];
            let q = nn[k];
            let z = if t == ONE_BITS {
                q[2]
            } else {
                add_bits(mul_bits(p[2], sub_bits(ONE_BITS, t)), mul_bits(t, q[2]))
            };
            self.points.set(k, [p[0], p[1], z]);
            proof {
                assert(self.points@[k as int]@ =~= seq![p@[0], p@[1], z]);
            }
            k += 1;
        }
        Ok(())
    }
}

/// Finishing a row advances the raster walk to the start of the next one.
proof fn lemma_raster_next_row(x: int, y: int, w: int, h: int, i: int, n: int)
    by (nonlinear_arith)
    requires
        0 <= x,
        x + 1 == w,
        i == y * w + x,
        i + 1 <= n,
        n == w * h,
        0 <= y,
    ensures
        i + 1 == (y + 1) * w,
        y + 1 <= h,
{
}

} // verus!
