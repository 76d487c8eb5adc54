//! Depth calibration: a linear regression learned from the matched
//! landmarks of a source and a target view, mapping a source pixel's
//! (depth, row) pair to the expected horizontal coordinate in the target
//! view, then applied densely to every source pixel.

use vstd::prelude::*;

use nalgebra::Dyn;
use nalgebra::U2;

use crate::depth_view::matched_names;
use crate::depth_view::DepthView;
use crate::error::DepthError;
use crate::grid::lemma_raster_index_in_range;
use crate::grid::DepthGrid;
use crate::landmarks::lemma_get_some_iff_contains;
use crate::scalar::add_bits;
use crate::scalar::add_bits_of;
use crate::scalar::div_bits;
use crate::scalar::div_bits_of;
use crate::scalar::float_bits;
use crate::scalar::float_of_int;
use crate::scalar::mul_bits;
use crate::scalar::mul_bits_of;
use crate::scalar::sub_bits;
use crate::scalar::sub_bits_of;
use crate::scalar::ZERO_BITS;

verus! {

/// The singular-value cutoff handed to the least-squares solve: the bit
/// pattern of ten to the minus fourteenth.
pub const EPSILON_BITS: u64 = 0x3D06_849B_86A1_2B9B;

/// The learned linear correction: a weight for the pixel's depth, a weight
/// for its row, and a bias.
#[derive(Clone, Copy, Debug, PartialEq, Eq, Structural)]
pub struct ZModel {
    pub w_depth: u64,
    pub w_row: u64,
    pub bias: u64,
}

/// What the model predicts for a pixel holding depth `d` on the row whose
/// number reads `yf` as a scalar: `d * w_depth + yf * w_row + bias`.
pub open spec fn model_applied(m: ZModel, d: u64, yf: u64) -> u64 {
    add_bits_of(add_bits_of(mul_bits_of(d, m.w_depth), mul_bits_of(yf, m.w_row)), m.bias)
}

impl ZModel {
    /// Predicts the target coordinate for a pixel holding depth `d` on the
    /// row whose number reads `yf` as a scalar.
    pub fn apply(&self, d: u64, yf: u64) -> (r: u64)
        ensures
            r == model_applied(*self, d, yf),
    {
        add_bits(add_bits(mul_bits(d, self.w_depth), mul_bits(yf, self.w_row)), self.bias)
    }
}

/// The least-squares solution of the two-column system whose columns, target
/// values and singular-value cutoff are given; `None` when the solve cannot
/// produce one.
pub uninterp spec fn lstsq_of(
    col_depth: Seq<u64>,
    col_row: Seq<u64>,
    targets: Seq<u64>,
    eps: u64,
) -> Option<(u64, u64)>;

/// Relies on `lstsq::lstsq` over `nalgebra` matrices: the minimum-norm
/// least-squares solution depends on the design columns, the targets and the
/// cutoff alone. Every cell must lie in the solver's range, which keeps the
/// decomposition's intermediate values finite and the solve terminating.
#[verifier::external_body]
fn lstsq_raw(col_depth: &Vec<u64>, col_row: &Vec<u64>, targets: &Vec<u64>, eps: u64) -> (r: Option<
    [u64; 2],
>)
    requires
        col_depth@.len() == col_row@.len(),
        col_depth@.len() == targets@.len(),
        col_depth@.len() >= 1,
        all_in_solver_range(col_depth@),
        all_in_solver_range(col_row@),
        all_in_solver_range(targets@),
        in_solver_range(eps),
    ensures
        r matches Some(sol) ==> lstsq_of(col_depth@, col_row@, targets@, eps) == Some(
            (sol[0], sol[1]),
        ),
        r is None ==> lstsq_of(col_depth@, col_row@, targets@, eps) is None,
{
    let e = |b: &u64| glam::DVec2::splat(bytemuck::cast(*b)).x;
    let flat: Vec<_> = col_depth.iter().zip(col_row).flat_map(|(d, r)| [e(d), e(r)]).collect();
    let ys: Vec<_> = targets.iter().map(e).collect();
    let x = nalgebra::OMatrix::<_, Dyn, U2>::from_row_slice(&flat);
    let y = nalgebra::OVector::<_, Dyn>::from_row_slice(&ys);
    match lstsq::lstsq(&x, &y, e(&eps)) {
        Ok(f) => Some([bytemuck::cast(f.solution[0]), bytemuck::cast(f.solution[1])]),
        Err(_) => None,
    }
}

/// The sum of the scalars, accumulated left to right from zero.
pub open spec fn sum_bits_of(s: Seq<u64>) -> u64
    decreases s.len(),
{
    if s.len() == 0 {
        ZERO_BITS
    } else {
        add_bits_of(sum_bits_of(s.drop_last()), s.last())
    }
}

/// The mean of the scalars: their sum divided by their count.
pub open spec fn mean_bits_of(s: Seq<u64>) -> u64 {
    div_bits_of(sum_bits_of(s), float_of_int(s.len() as u64))
}

/// Every scalar with `m` subtracted.
pub open spec fn centered(s: Seq<u64>, m: u64) -> Seq<u64> {
    s.map_values(|x: u64| sub_bits_of(x, m))
}

/// Whether a scalar is safe to hand to the least-squares solver: finite,
/// with magnitude below two to the 201st (biased exponent at most 0x4C7).
/// Within that range every square, product and sum the solver's
/// singular-value decomposition forms stays finite, so no NaN can reach its
/// singular values and the solve returns.
pub open spec fn in_solver_range(b: u64) -> bool {
    (b >> 52) & 0x7FF < 0x4C8
}

/// Whether every scalar of the sequence is safe to hand to the solver.
pub open spec fn all_in_solver_range(s: Seq<u64>) -> bool {
    forall|i: int| 0 <= i < s.len() ==> in_solver_range(#[trigger] s[i])
}

/// Checks every scalar of a vector against the solver's range.
fn check_solver_range(v: &Vec<u64>) -> (r: bool)
    ensures
        r == all_in_solver_range(v@),
{
    let n = v.len();
    let mut i: usize = 0;
    while i < n
        invariant
            i <= n,
            n == v@.len(),
            forall|j: int| 0 <= j < i ==> in_solver_range(#[trigger] v@[j]),
        decreases n - i,
    {
        if (v[i] >> 52) & 0x7FF >= 0x4C8 {
            assert(!in_solver_range(v@[i as int]));
            return false;
        }
        i += 1;
    }
    true
}

impl DepthView {
    /// The column of the landmark filed under `n`, or zero when none is.
    pub open spec fn landmark_x(self, n: Seq<char>) -> usize {
        match self.features.spec_get(n) {
            Some(p) => p.0,
            None => 0,
        }
    }

    /// The row of the landmark filed under `n`, or zero when none is.
    pub open spec fn landmark_y(self, n: Seq<char>) -> usize {
        match self.features.spec_get(n) {
            Some(p) => p.1,
            None => 0,
        }
    }

    /// Whether a landmark of that name is filed and lies within the view.
    pub open spec fn landmark_in_bounds(self, n: Seq<char>) -> bool {
        &&& self.features.spec_get(n) is Some
        &&& self.landmark_x(n) < self.spec_width()
        &&& self.landmark_y(n) < self.spec_height()
    }

    /// The depth scalar stored at the landmark filed under `n`.
    pub open spec fn depth_at_landmark(self, n: Seq<char>) -> u64 {
        self.depth.spec_at(self.landmark_x(n) as int, self.landmark_y(n) as int)
    }
}

/// The depth read in `a` at each matched landmark, in order.
pub open spec fn design_depths(a: DepthView, ms: Seq<Seq<char>>) -> Seq<u64> {
    ms.map_values(|n: Seq<char>| a.depth_at_landmark(n))
}

/// Each matched landmark's row in `a`, as a scalar, in order.
pub open spec fn design_rows(a: DepthView, ms: Seq<Seq<char>>) -> Seq<u64> {
    ms.map_values(|n: Seq<char>| float_of_int(a.landmark_y(n) as u64))
}

/// Each matched landmark's column in `b`, as a scalar, in order.
pub open spec fn design_targets(b: DepthView, ms: Seq<Seq<char>>) -> Seq<u64> {
    ms.map_values(|n: Seq<char>| float_of_int(b.landmark_x(n) as u64))
}

/// The calibration model learned from `a` toward `b`, or the error that
/// calibration reports: no shared landmark names, fewer matched landmarks
/// than the two regression weights, a matched landmark outside `a`, a
/// centered design value outside the solver's range (NaN, infinite or
/// astronomically large), or a failed least-squares solve. The matched landmarks' depth and row columns
/// and target column are mean-centered, the centered system is solved by
/// least squares, and the bias is recovered from the means.
pub open spec fn zmatrix_of(a: DepthView, b: DepthView) -> Result<ZModel, DepthError> {
    let ms = matched_names(a, b);
    if ms.len() == 0 {
        Err(DepthError::NoMatchedLandmarks)
    } else if ms.len() < 2 {
        Err(DepthError::UnderdeterminedSystem)
    } else if exists|j: int| 0 <= j < ms.len() && !a.landmark_in_bounds(ms[j]) {
        Err(DepthError::BoundsError)
    } else {
        let depths = design_depths(a, ms);
        let rows = design_rows(a, ms);
        let targets = design_targets(b, ms);
        let md = mean_bits_of(depths);
        let mr = mean_bits_of(rows);
        let mt = mean_bits_of(targets);
        if !(all_in_solver_range(centered(depths, md)) && all_in_solver_range(centered(rows, mr))
            && all_in_solver_range(centered(targets, mt))) {
            Err(DepthError::SingularSystem)
        } else {
            match lstsq_of(centered(depths, md), centered(rows, mr), centered(targets, mt),
                EPSILON_BITS) {
                None => Err(DepthError::SingularSystem),
                Some(w) => Ok(
                    ZModel {
                        w_depth: w.0,
                        w_row: w.1,
                        bias: sub_bits_of(
                            mt,
                            add_bits_of(mul_bits_of(md, w.0), mul_bits_of(mr, w.1)),
                        ),
                    },
                ),
            }
        }
    }
}

/// The sum of a vector of scalars, accumulated left to right from zero.
fn sum_bits_vec(v: &Vec<u64>) -> (r: u64)
    ensures
        r == sum_bits_of(v@),
{
    let mut acc = ZERO_BITS;
    let n = v.len();
    let mut i: usize = 0;
    proof {
        assert(v@.take(0) =~= Seq::<u64>::empty());
    }
    while i < n
        invariant
            i <= n,
            n == v@.len(),
            acc == sum_bits_of(v@.take(i as int)),
        decreases n - i,
    {
        proof {
            assert(v@.take(i + 1 as int).drop_last() =~= v@.take(i as int));
            assert(v@.take(i + 1 as int).last() == v@[i as int]);
        }
        acc = add_bits(acc, v[i]);
        i += 1;
    }
    proof {
        assert(v@.take(n as int) =~= v@);
    }
    acc
}

/// Every scalar of a vector with `m` subtracted.
fn center_bits_vec(v: &Vec<u64>, m: u64) -> (r: Vec<u64>)
    ensures
        r@ == centered(v@, m),
{
    let mut out: Vec<u64> = Vec::new();
    let n = v.len();
    let mut i: usize = 0;
    while i < n
        invariant
            i <= n,
            n == v@.len(),
            out@.len() == i,
            forall|j: int| 0 <= j < i ==> out@[j] == sub_bits_of(v@[j], m),
        decreases n - i,
    {
        out.push(sub_bits(v[i], m));
        i += 1;
    }
    proof {
        assert(out@ =~= centered(v@, m));
    }
    out
}

impl DepthView {
    /// Learns the linear correction from this view toward `other` out of
    /// their matched landmarks: assembles each matched landmark's
    /// (depth, row) pair and its column in `other`, mean-centers the system,
    /// solves it by least squares, and recovers the bias from the means.
    pub fn get_zmatrix(&self, other: &DepthView) -> (r: Result<ZModel, DepthError>)
        requires
            self.wf(),
            other.wf(),
        ensures
            r == zmatrix_of(*self, *other),
    {
        let ghost ms = matched_names(*self, *other);
        let names = self.match_features(other);
        let n = names.len();
        if n == 0 {
            return Err(DepthError::NoMatchedLandmarks);
        }
        if n < 2 {
            return Err(DepthError::UnderdeterminedSystem);
        }
        let mut depths: Vec<u64> = Vec::new();
        let mut rows: Vec<u64> = Vec::new();
        let mut targets: Vec<u64> = Vec::new();
        let mut k: usize = 0;
        while k < n
            invariant
                k <= n,
                n == names@.len(),
                names@.map_values(|s: String| s@) == ms,
                ms == matched_names(*self, *other),
                self.wf(),
                other.wf(),
                2 <= n,
                depths@.len() == k,
                rows@.len() == k,
                targets@.len() == k,
                forall|j: int| 0 <= j < k ==> self.landmark_in_bounds(ms[j]),
                forall|j: int| 0 <= j < k ==> depths@[j] == self.depth_at_landmark(ms[j]),
                forall|j: int|
                    0 <= j < k ==> rows@[j] == float_of_int(self.landmark_y(ms[j]) as u64),
                forall|j: int|
                    0 <= j < k ==> targets@[j] == float_of_int(other.landmark_x(ms[j]) as u64),
            decreases n - k,
        {
            proof {
                assert(names@.map_values(|s: String| s@)[k as int] == ms[k as int]);
                assert(ms.contains(ms[k as int]));
                crate::depth_view::lemma_matched_both(*self, *other, ms[k as int]);
                lemma_get_some_iff_contains(self.features, ms[k as int]);
                lemma_get_some_iff_contains(other.features, ms[k as int]);
            }
            let name = &names[k];
            let sp = self.features.get(name);
            let tp = other.features.get(name);
            let (sx, sy) = match sp {
                Some(p) => p,
                None => {
                    proof {
                        assert(false);
                    }
                    (0, 0)
                },
            };
            let tx = match tp {
                Some(p) => p.0,
                None => {
                    proof {
                        assert(false);
                    }
                    0
                },
            };
            let d = match self.get_depth(sx, sy) {
                Ok(d) => d,
                Err(_) => {
                    proof {
                        assert(!self.landmark_in_bounds(ms[k as int]));
                    }
                    return Err(DepthError::BoundsError);
                },
            };
            depths.push(d);
            rows.push(float_bits(sy as u64));
            targets.push(float_bits(tx as u64));
            k += 1;
        }
        let sd = sum_bits_vec(&depths);
        let sr = sum_bits_vec(&rows);
        let st = sum_bits_vec(&targets);
        let cnt = float_bits(n as u64);
        let md = div_bits(sd, cnt);
        let mr = div_bits(sr, cnt);
        let mt = div_bits(st, cnt);
        let cd = center_bits_vec(&depths, md);
        let cr = center_bits_vec(&rows, mr);
        let ct = center_bits_vec(&targets, mt);
        proof {
            assert(depths@ =~= design_depths(*self, ms));
            assert(rows@ =~= design_rows(*self, ms));
            assert(targets@ =~= design_targets(*other, ms));
        }
        if !(check_solver_range(&cd) && check_solver_range(&cr) && check_solver_range(&ct)) {
            return Err(DepthError::SingularSystem);
        }
        proof {
            assert(((0x3D06_849B_86A1_2B9Bu64 >> 52) & 0x7FF) < 0x4C8) by (bit_vector);
            assert(in_solver_range(EPSILON_BITS));
        }
        match lstsq_raw(&cd, &cr, &ct, EPSILON_BITS) {
            None => Err(DepthError::SingularSystem),
            Some(sol) => {
                let bias = sub_bits(mt, add_bits(mul_bits(md, sol[0]), mul_bits(mr, sol[1])));
                Ok(ZModel { w_depth: sol[0], w_row: sol[1], bias })
            },
        }
    }

    /// Applies a learned model to every pixel of this view: the output grid
    /// shares this view's dimensions and holds, at `(y, x)`, the model's
    /// prediction for the depth stored at `(x, y)` and the row `y`.
    pub fn calibrate(&self, model: &ZModel) -> (g: DepthGrid)
        requires
            self.wf(),
        ensures
            g.wf(),
            g.spec_width() == self.spec_width(),
            g.spec_height() == self.spec_height(),
            forall|x: int, y: int|
                0 <= x < g.spec_width() && 0 <= y < g.spec_height() ==> g.spec_at(x, y)
                    == model_applied(*model, self.depth.spec_at(x, y), float_of_int(y as u64)),
    {
        let w = self.width();
        let h = self.height();
        let n = self.depth.len();
        let mut out: Vec<u64> = Vec::new();
        let mut i: usize = 0;
        let mut x: usize = 0;
        let mut y: usize = 0;
        proof {
            assert(n as int == (w as int) * (h as int));
            assert(w == 0 ==> n == 0) by (nonlinear_arith)
                requires
                    n as int == (w as int) * (h as int),
            ;
        }
        while i < n
            invariant
                i <= n,
                n == self.depth.cells().len(),
                self.wf(),
                w == self.spec_width(),
                h == self.spec_height(),
                i == y * w + x,
                x <= w,
                y <= h,
                w > 0 ==> x < w,
                w == 0 ==> n == 0,
                out@.len() == i,
                forall|xx: int, yy: int|
                    0 <= xx < w && 0 <= yy < h && yy * w + xx < i ==> out@[yy * w + xx]
                        == model_applied(
                        *model,
                        self.depth.spec_at(xx, yy),
                        float_of_int(yy as u64),
                    ),
            decreases n - i,
        {
            proof {
                assert(w > 0);
                lemma_grid_index_bounds(x as int, y as int, w as int, h as int, i as int, n as int);
            }
            let d = self.depth.cell(i);
            let yf = float_bits(y as u64);
            let v = model.apply(d, yf);
            out.push(v);
            proof {
                assert(self.depth.spec_at(x as int, y as int) == self.depth.cells()[i as int]);
                assert forall|xx: int, yy: int|
                    0 <= xx < w && 0 <= yy < h && yy * w + xx < i + 1 implies out@[yy * w + xx]
                        == model_applied(
                    *model,
                    self.depth.spec_at(xx, yy),
                    float_of_int(yy as u64),
                ) by {
                    if yy * w + xx == i {
                        lemma_raster_unique(xx, yy, x as int, y as int, w as int);
                    }
                }
            }
            i += 1;
            x += 1;
            if x == w {
                proof {
                    lemma_next_row(x as int - 1, y as int, w as int, h as int, i as int - 1, n as int);
                }
                x = 0;
                y += 1;
            }
        }
        let g = DepthGrid::from_parts(w, h, out);
        proof {
            assert forall|xx: int, yy: int|
                0 <= xx < w && 0 <= yy < h implies g.spec_at(xx, yy) == model_applied(
                *model,
                self.depth.spec_at(xx, yy),
                float_of_int(yy as u64),
            ) by {
                lemma_raster_index_in_range(xx, yy, w as int, h as int);
            }
        }
        g
    }

    /// Learns the correction toward `other` and applies it to every pixel of
    /// this view, yielding the corrected depth grid, or the calibration
    /// error when no model could be learned.
    pub fn calibrate_z_linear(&self, other: &DepthView) -> (r: Result<DepthGrid, DepthError>)
        requires
            self.wf(),
            other.wf(),
        ensures
            zmatrix_of(*self, *other) matches Err(e) ==> r == Err::<DepthGrid, DepthError>(e),
            zmatrix_of(*self, *other) matches Ok(m) ==> (r matches Ok(g) && g.wf()
                && g.spec_width() == self.spec_width() && g.spec_height() == self.spec_height()
                && forall|x: int, y: int|
                0 <= x < g.spec_width() && 0 <= y < g.spec_height() ==> g.spec_at(x, y)
                    == model_applied(m, self.depth.spec_at(x, y), float_of_int(y as u64))),
    {
        match self.get_zmatrix(other) {
            Err(e) => Err(e),
            Ok(m) => Ok(self.calibrate(&m)),
        }
    }
}

/// Calibration is content-determined: the learned model depends on the
/// views' landmark maps and the source depths, never on the order the
/// landmarks were filed.
pub proof fn lemma_zmatrix_content_determined(
    a: DepthView,
    a2: DepthView,
    b: DepthView,
    b2: DepthView,
)
    requires
        a.features.wf(),
        a2.features.wf(),
        forall|n: Seq<char>| a.features.spec_get(n) == a2.features.spec_get(n),
        forall|n: Seq<char>| b.features.spec_get(n) == b2.features.spec_get(n),
        a.depth == a2.depth,
    ensures
        zmatrix_of(a, b) == zmatrix_of(a2, b2),
{
    assert forall|n: Seq<char>|
        #[trigger] a.features.names().to_set().contains(n) == a2.features.names().to_set().contains(
            n,
        ) by {
        lemma_get_some_iff_contains(a.features, n);
        lemma_get_some_iff_contains(a2.features, n);
        assert(a.features.spec_get(n) == a2.features.spec_get(n));
    }
    assert(a.features.names().to_set() =~= a2.features.names().to_set());
    assert forall|n: Seq<char>|
        #[trigger] b.features.names().to_set().contains(n) == b2.features.names().to_set().contains(
            n,
        ) by {
        lemma_get_some_iff_contains(b.features, n);
        lemma_get_some_iff_contains(b2.features, n);
        assert(b.features.spec_get(n) == b2.features.spec_get(n));
    }
    assert(b.features.names().to_set() =~= b2.features.names().to_set());
    crate::depth_view::lemma_match_content_determined(a, a2, b, b2);
    let ms = matched_names(a, b);
    assert forall|j: int| 0 <= j < ms.len() implies #[trigger] a.depth_at_landmark(ms[j])
        == a2.depth_at_landmark(ms[j]) && a.landmark_y(ms[j]) == a2.landmark_y(ms[j])
        && b.landmark_x(ms[j]) == b2.landmark_x(ms[j]) && a.landmark_in_bounds(ms[j])
        == a2.landmark_in_bounds(ms[j]) by {
        assert(a.features.spec_get(ms[j]) == a2.features.spec_get(ms[j]));
        assert(b.features.spec_get(ms[j]) == b2.features.spec_get(ms[j]));
    }
    assert(design_depths(a, ms) =~= design_depths(a2, ms));
    assert(design_rows(a, ms) =~= design_rows(a2, ms));
    assert(design_targets(b, ms) =~= design_targets(b2, ms));
    if exists|j: int| 0 <= j < ms.len() && !a.landmark_in_bounds(ms[j]) {
        let j = choose|j: int| 0 <= j < ms.len() && !a.landmark_in_bounds(ms[j]);
        assert(!a2.landmark_in_bounds(ms[j]));
    }
    if exists|j: int| 0 <= j < ms.len() && !a2.landmark_in_bounds(ms[j]) {
        let j = choose|j: int| 0 <= j < ms.len() && !a2.landmark_in_bounds(ms[j]);
        assert(!a.landmark_in_bounds(ms[j]));
    }
}

/// Within the raster walk, the running pixel index stays inside the grid.
proof fn lemma_grid_index_bounds(x: int, y: int, w: int, h: int, i: int, n: int)
    by (nonlinear_arith)
    requires
        0 <= x < w,
        0 <= y,
        y <= h,
        i == y * w + x,
        0 <= i < n,
        n == w * h,
    ensures
        y < h,
{
}

/// Raster indices name pixels uniquely.
proof fn lemma_raster_unique(x1: int, y1: int, x2: int, y2: int, w: int)
    by (nonlinear_arith)
    requires
        0 <= x1 < w,
        0 <= x2 < w,
        0 <= y1,
        0 <= y2,
        y1 * w + x1 == y2 * w + x2,
    ensures
        x1 == x2,
        y1 == y2,
{
}

/// Finishing a row advances the raster walk to the start of the next one.
proof fn lemma_next_row(x: int, y: int, w: int, h: int, i: int, n: int)
    by (nonlinear_arith)
    requires
        0 <= x,
        x + 1 == w,
        i == y * w + x,
        i + 1 <= n,
        n == w * h,
        0 <= y,
    ensures
        i + 1 == (y + 1) * w,
        y + 1 <= h,
{
}

} // verus!
