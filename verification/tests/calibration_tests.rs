use depthfuse::calibration::ZModel;
use depthfuse::calibration::EPSILON_BITS;
use depthfuse::depth_view::DepthView;
use depthfuse::error::DepthError;
use depthfuse::grid::ColorGrid;
use depthfuse::grid::DepthGrid;
use depthfuse::landmarks::Landmarks;

fn depth_grid(w: usize, h: usize, vals: &[f64]) -> DepthGrid {
    let data: Vec<u64> = vals.iter().map(|v| v.to_bits()).collect();
    DepthGrid::new(w, h, data).unwrap()
}

fn color_grid(w: usize, h: usize) -> ColorGrid {
    ColorGrid::new(w, h, vec![[0, 0, 0]; w * h]).unwrap()
}

fn view(w: usize, h: usize, vals: &[f64], marks: &[(&str, usize, usize)]) -> DepthView {
    let mut features = Landmarks::new();
    for (name, x, y) in marks {
        features.insert(name.to_string(), *x, *y);
    }
    DepthView::new(color_grid(w, h), depth_grid(w, h, vals), features).unwrap()
}

#[test]
fn epsilon_is_ten_to_minus_fourteen() {
    assert_eq!(f64::from_bits(EPSILON_BITS), 1e-14);
}

#[test]
fn no_matched_landmarks_fails() {
    let a = view(2, 2, &[1.0; 4], &[("nose", 0, 0), ("eye", 1, 1)]);
    let b = view(2, 2, &[1.0; 4], &[("chin", 0, 0), ("hair", 1, 0)]);
    assert_eq!(a.get_zmatrix(&b), Err(DepthError::NoMatchedLandmarks));
    assert!(matches!(
        a.calibrate_z_linear(&b),
        Err(DepthError::NoMatchedLandmarks)
    ));
}

#[test]
fn one_matched_landmark_is_underdetermined() {
    let a = view(2, 2, &[1.0; 4], &[("nose", 0, 0), ("eye", 1, 1)]);
    let b = view(2, 2, &[1.0; 4], &[("nose", 1, 1), ("hair", 1, 0)]);
    assert_eq!(a.get_zmatrix(&b), Err(DepthError::UnderdeterminedSystem));
}

#[test]
fn matched_landmark_outside_source_fails_bounds() {
    let a = view(
        2,
        2,
        &[1.0; 4],
        &[("nose", 0, 0), ("eye", 5, 0)], // "eye" lies outside the 2x2 view
    );
    let b = view(2, 2, &[1.0; 4], &[("nose", 1, 1), ("eye", 0, 1)]);
    assert_eq!(a.get_zmatrix(&b), Err(DepthError::BoundsError));
}

/// Two matched landmarks on one row, two model parameters: the learned
/// model reproduces both targets with zero residual.
#[test]
fn two_point_exact_model() {
    // Source depths: 10 at (0,0), 20 at (1,0).
    let a = view(
        2,
        1,
        &[10.0, 20.0],
        &[("a", 0, 0), ("b", 1, 0)],
    );
    // Targets: "a" maps to column 20, "b" to column 40 (rows irrelevant).
    let b = view(
        64,
        1,
        &[0.0; 64],
        &[("a", 20, 0), ("b", 40, 0)],
    );
    let m = a.get_zmatrix(&b).unwrap();
    let wd = f64::from_bits(m.w_depth);
    let wr = f64::from_bits(m.w_row);
    let bias = f64::from_bits(m.bias);
    let predict = |d: f64, row: f64| d * wd + row * wr + bias;
    assert!((predict(10.0, 0.0) - 20.0).abs() < 1e-9);
    assert!((predict(20.0, 0.0) - 40.0).abs() < 1e-9);
}

/// Calibrating a view against itself, with landmarks whose target column
/// equals depth plus row, recovers that relation with near-zero residual.
#[test]
fn self_calibration_near_zero_residual() {
    // Landmarks: column == depth + row at each landmark.
    let mut vals = vec![0.0; 8 * 3];
    vals[1 * 8 + 5] = 4.0; // (5,1): 4 + 1 == 5
    vals[2 * 8 + 7] = 5.0; // (7,2): 5 + 2 == 7
    vals[0 * 8 + 3] = 3.0; // (3,0): 3 + 0 == 3
    let v = view(
        8,
        3,
        &vals,
        &[("a", 5, 1), ("b", 7, 2), ("c", 3, 0)],
    );
    let m = v.get_zmatrix(&v).unwrap();
    let wd = f64::from_bits(m.w_depth);
    let wr = f64::from_bits(m.w_row);
    let bias = f64::from_bits(m.bias);
    for &(d, row, col) in &[(4.0, 1.0, 5.0), (5.0, 2.0, 7.0), (3.0, 0.0, 3.0)] {
        assert!((d * wd + row * wr + bias - col).abs() < 1e-9);
    }
}

/// The corrected grid shares the source's dimensions and every cell equals
/// the model applied to that cell's (depth, row) pair.
#[test]
fn calibrate_applies_model_to_every_cell() {
    let vals = [1.0, 2.0, 3.0, 4.0, 5.0, 6.0];
    let v = view(3, 2, &vals, &[]);
    let m = ZModel {
        w_depth: (2.0f64).to_bits(),
        w_row: (3.0f64).to_bits(),
        bias: (1.0f64).to_bits(),
    };
    let g = v.calibrate(&m);
    assert_eq!(g.width(), 3);
    assert_eq!(g.height(), 2);
    for y in 0..2 {
        for x in 0..3 {
            let d = vals[y * 3 + x];
            let expected = d * 2.0 + (y as f64) * 3.0 + 1.0;
            assert_eq!(g.at(x, y).unwrap(), expected.to_bits());
        }
    }
}

/// Model application through the model type matches the same arithmetic
/// done directly.
#[test]
fn model_apply_matches_direct_arithmetic() {
    let m = ZModel {
        w_depth: (0.5f64).to_bits(),
        w_row: (-2.0f64).to_bits(),
        bias: (7.25f64).to_bits(),
    };
    let r = m.apply((3.0f64).to_bits(), (4.0f64).to_bits());
    assert_eq!(f64::from_bits(r), 3.0 * 0.5 + 4.0 * (-2.0) + 7.25);
}

/// End to end: learning from two views and applying the model densely.
#[test]
fn calibrate_z_linear_end_to_end() {
    // Source: depths vary over two rows so the system has full rank.
    let vals = [10.0, 20.0, 30.0, 40.0];
    let a = view(
        2,
        2,
        &vals,
        &[("p", 0, 0), ("q", 1, 0), ("r", 0, 1)],
    );
    // Targets chosen on the plane col = 2*depth + 4*row + 1.
    let b = view(
        128,
        1,
        &[0.0; 128],
        &[("p", 21, 0), ("q", 41, 0), ("r", 65, 0)],
    );
    let m = a.get_zmatrix(&b).unwrap();
    let g = a.calibrate_z_linear(&b).unwrap();
    assert_eq!(g.width(), 2);
    assert_eq!(g.height(), 2);
    let wd = f64::from_bits(m.w_depth);
    let wr = f64::from_bits(m.w_row);
    let bias = f64::from_bits(m.bias);
    for y in 0..2 {
        for x in 0..2 {
            let d = vals[y * 2 + x];
            let expected = d * wd + (y as f64) * wr + bias;
            assert_eq!(g.at(x, y).unwrap(), expected.to_bits());
        }
    }
    // The model itself recovers the plane that generated the targets.
    assert!((wd - 2.0).abs() < 1e-9);
    assert!((wr - 4.0).abs() < 1e-9);
    assert!((bias - 1.0).abs() < 1e-9);
}

/// The learned model does not depend on the order the landmarks were filed.
#[test]
fn model_independent_of_insertion_order() {
    let vals = [10.0, 20.0, 30.0, 40.0];
    let marks: [(&str, usize, usize); 3] = [("p", 0, 0), ("q", 1, 0), ("r", 0, 1)];
    let rev: [(&str, usize, usize); 3] = [("r", 0, 1), ("q", 1, 0), ("p", 0, 0)];
    let a = view(2, 2, &vals, &marks);
    let a2 = view(2, 2, &vals, &rev);
    let b = view(128, 1, &[0.0; 128], &[("p", 21, 0), ("q", 41, 0), ("r", 65, 0)]);
    let b2 = view(128, 1, &[0.0; 128], &[("r", 65, 0), ("p", 21, 0), ("q", 41, 0)]);
    assert_eq!(a.get_zmatrix(&b).unwrap(), a2.get_zmatrix(&b2).unwrap());
}

/// A NaN depth at a matched landmark cannot be solved: the centered system
/// leaves the solver's range.
#[test]
fn nan_depth_fails_singular() {
    let mut vals = [1.0, 2.0, 3.0, 4.0];
    vals[0] = f64::NAN;
    let a = view(2, 2, &vals, &[("p", 0, 0), ("q", 1, 0), ("r", 0, 1)]);
    let b = view(64, 1, &[0.0; 64], &[("p", 5, 0), ("q", 7, 0), ("r", 9, 0)]);
    assert_eq!(a.get_zmatrix(&b), Err(DepthError::SingularSystem));
}

/// An astronomically large depth leaves the solver's range as well.
#[test]
fn huge_depth_fails_singular() {
    let vals = [1e200, 2.0, 3.0, 4.0];
    let a = view(2, 2, &vals, &[("p", 0, 0), ("q", 1, 0), ("r", 0, 1)]);
    let b = view(64, 1, &[0.0; 64], &[("p", 5, 0), ("q", 7, 0), ("r", 9, 0)]);
    assert_eq!(a.get_zmatrix(&b), Err(DepthError::SingularSystem));
}
