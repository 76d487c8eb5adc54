use depthfuse::error::DepthError;
use depthfuse::grid::ColorGrid;
use depthfuse::grid::DepthGrid;
use depthfuse::pointcloud::Pose;
use depthfuse::pointcloud::PointCloud;

fn bits(v: f64) -> u64 {
    v.to_bits()
}

fn depth_grid(w: usize, h: usize, vals: &[f64]) -> DepthGrid {
    let data: Vec<u64> = vals.iter().map(|v| v.to_bits()).collect();
    DepthGrid::new(w, h, data).unwrap()
}

fn color_grid(w: usize, h: usize) -> ColorGrid {
    let data: Vec<[u8; 3]> = (0..w * h).map(|i| [i as u8, 100, 200]).collect();
    ColorGrid::new(w, h, data).unwrap()
}

fn pose(rows: [[f64; 4]; 4]) -> Pose {
    let mut m = [0u64; 16];
    for i in 0..4 {
        for j in 0..4 {
            m[i * 4 + j] = rows[i][j].to_bits();
        }
    }
    Pose::new(m)
}

fn point(p: &[u64; 3]) -> [f64; 3] {
    [
        f64::from_bits(p[0]),
        f64::from_bits(p[1]),
        f64::from_bits(p[2]),
    ]
}

fn cloud(w: usize, h: usize, vals: &[f64], t: Pose) -> PointCloud {
    PointCloud::new(&color_grid(w, h), &depth_grid(w, h, vals), t).unwrap()
}

/// A 2x2 view lifted with the identity pose produces the four points
/// (0,0,d00), (1,0,d10), (0,1,d01), (1,1,d11), in that raster order.
#[test]
fn build_two_by_two_raster_order() {
    let c = cloud(2, 2, &[5.0, 6.0, 7.0, 8.0], Pose::identity());
    assert_eq!(c.points.len(), 4);
    assert_eq!(c.colors.len(), 4);
    assert_eq!(point(&c.points[0]), [0.0, 0.0, 5.0]);
    assert_eq!(point(&c.points[1]), [1.0, 0.0, 6.0]);
    assert_eq!(point(&c.points[2]), [0.0, 1.0, 7.0]);
    assert_eq!(point(&c.points[3]), [1.0, 1.0, 8.0]);
}

/// Every pixel yields one point and one color: point i names pixel
/// (i mod width, i div width) and carries that pixel's color.
#[test]
fn build_counts_and_raster_indexing() {
    let w = 3;
    let h = 4;
    let vals: Vec<f64> = (0..w * h).map(|i| i as f64 * 0.5).collect();
    let c = cloud(w, h, &vals, Pose::identity());
    assert_eq!(c.points.len(), w * h);
    assert_eq!(c.colors.len(), w * h);
    for i in 0..w * h {
        let p = point(&c.points[i]);
        assert_eq!(p[0], (i % w) as f64);
        assert_eq!(p[1], (i / w) as f64);
        assert_eq!(p[2], vals[i]);
        assert_eq!(c.colors[i], [i as u8, 100, 200]);
    }
}

#[test]
fn build_rejects_dimension_mismatch() {
    let r = PointCloud::new(
        &color_grid(2, 2),
        &depth_grid(3, 2, &[0.0; 6]),
        Pose::identity(),
    );
    assert!(matches!(r, Err(DepthError::DimensionMismatch)));
}

/// A pure translation pose moves every global point by its offsets.
#[test]
fn global_points_translated() {
    let t = pose([
        [1.0, 0.0, 0.0, 10.0],
        [0.0, 1.0, 0.0, -2.0],
        [0.0, 0.0, 1.0, 0.5],
        [0.0, 0.0, 0.0, 1.0],
    ]);
    let c = cloud(2, 1, &[3.0, 4.0], t);
    let g = c.get_global_points();
    assert_eq!(g.len(), 2);
    assert_eq!(point(&g[0]), [10.0, -2.0, 3.5]);
    assert_eq!(point(&g[1]), [11.0, -2.0, 4.5]);
}

/// An axis-swapping pose (the side-view mount) exchanges x and z.
#[test]
fn affine_applied_swaps_axes() {
    let swap = pose([
        [0.0, 0.0, 1.0, 0.0],
        [0.0, 1.0, 0.0, 0.0],
        [1.0, 0.0, 0.0, 0.0],
        [0.0, 0.0, 0.0, 1.0],
    ]);
    let c = cloud(2, 1, &[7.0, 9.0], Pose::identity());
    let g = c.affine_applied(&swap);
    assert_eq!(point(&g[0]), [7.0, 0.0, 0.0]);
    assert_eq!(point(&g[1]), [9.0, 0.0, 1.0]);
    // The cloud itself is untouched.
    assert_eq!(point(&c.points[0]), [0.0, 0.0, 7.0]);
}

#[test]
fn blend_empty_reference_fails() {
    let mut c = cloud(1, 1, &[1.0], Pose::identity());
    let empty = cloud(0, 0, &[], Pose::identity());
    assert_eq!(
        c.approximate_to(&empty, bits(0.5)),
        Err(DepthError::EmptyReferenceCloud)
    );
    assert_eq!(point(&c.points[0]), [0.0, 0.0, 1.0]);
}

/// Blending with factor zero leaves every point unchanged.
#[test]
fn blend_zero_leaves_points() {
    let mut c = cloud(2, 2, &[1.0, 2.0, 3.0, 4.0], Pose::identity());
    let before: Vec<[f64; 3]> = c.points.iter().map(point).collect();
    let other = cloud(2, 2, &[9.0, 8.0, 7.0, 6.0], Pose::identity());
    c.approximate_to(&other, bits(0.0)).unwrap();
    let after: Vec<[f64; 3]> = c.points.iter().map(point).collect();
    assert_eq!(before, after);
}

/// Blending with factor one adopts each nearest neighbor's depth.
#[test]
fn blend_one_takes_nearest_depth() {
    let mut c = cloud(2, 1, &[0.0, 10.0], Pose::identity());
    // Reference points: (0,0,5) and (1,0,7).
    let other = cloud(2, 1, &[5.0, 7.0], Pose::identity());
    c.approximate_to(&other, bits(1.0)).unwrap();
    // (0,0,0): nearer to (0,0,5) (distance^2 25) than to (1,0,7) (50).
    assert_eq!(point(&c.points[0]), [0.0, 0.0, 5.0]);
    // (1,0,10): nearer to (1,0,7) (9) than to (0,0,5) (26).
    assert_eq!(point(&c.points[1]), [1.0, 0.0, 7.0]);
}

/// An intermediate factor interpolates depths and only depths.
#[test]
fn blend_half_interpolates_depth_only() {
    let mut c = cloud(1, 1, &[2.0], Pose::identity());
    let other = cloud(1, 1, &[6.0], Pose::identity());
    c.approximate_to(&other, bits(0.25)).unwrap();
    // z = 2 * 0.75 + 0.25 * 6 = 3; x and y stay.
    assert_eq!(point(&c.points[0]), [0.0, 0.0, 3.0]);
}

/// The reference cloud is carried through its own pose and back through the
/// blending cloud's inverse pose before the nearest-neighbor search.
#[test]
fn blend_respects_poses() {
    // Both clouds sit 100 apart on x in the global frame; in c's local
    // frame the reference point lands back at x = 0.
    let shift = |dx: f64| {
        pose([
            [1.0, 0.0, 0.0, dx],
            [0.0, 1.0, 0.0, 0.0],
            [0.0, 0.0, 1.0, 0.0],
            [0.0, 0.0, 0.0, 1.0],
        ])
    };
    // Reference points in their own frame: (0,0,3) and (1,0,0.5); both
    // clouds share the shift, so in c's local frame they come back to
    // (0,0,3) and (1,0,0.5). The query (0,0,0) is nearer to the second;
    // skipping either transform would pick the first instead.
    let mut c = cloud(1, 1, &[0.0], shift(100.0));
    let other = cloud(2, 1, &[3.0, 0.5], shift(100.0));
    c.approximate_to(&other, bits(1.0)).unwrap();
    assert_eq!(point(&c.points[0]), [0.0, 0.0, 0.5]);
}

/// Blending never touches colors or the pose.
#[test]
fn blend_keeps_colors_and_pose() {
    let mut c = cloud(2, 1, &[1.0, 2.0], Pose::identity());
    let colors_before = c.colors.clone();
    let pose_before = c.transform.m;
    let other = cloud(2, 1, &[3.0, 4.0], Pose::identity());
    c.approximate_to(&other, bits(0.5)).unwrap();
    assert_eq!(c.colors, colors_before);
    assert_eq!(c.transform.m, pose_before);
}

/// Blending with the negative-zero factor also leaves every point
/// unchanged.
#[test]
fn blend_negative_zero_leaves_points() {
    let mut c = cloud(2, 1, &[1.0, 2.0], Pose::identity());
    let before: Vec<[f64; 3]> = c.points.iter().map(point).collect();
    let other = cloud(2, 1, &[9.0, 8.0], Pose::identity());
    c.approximate_to(&other, bits(-0.0)).unwrap();
    let after: Vec<[f64; 3]> = c.points.iter().map(point).collect();
    assert_eq!(before, after);
}

/// A pose that cannot be inverted fails blending instead of diverging.
#[test]
fn blend_singular_pose_fails() {
    let mut c = cloud(1, 1, &[1.0], pose([[0.0; 4]; 4]));
    let other = cloud(1, 1, &[5.0], Pose::identity());
    assert_eq!(
        c.approximate_to(&other, bits(0.5)),
        Err(DepthError::SingularSystem)
    );
    assert_eq!(point(&c.points[0]), [0.0, 0.0, 1.0]);
}
