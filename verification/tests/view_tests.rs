use depthfuse::depth_view::DepthView;
use depthfuse::error::DepthError;
use depthfuse::grid::ColorGrid;
use depthfuse::grid::DepthGrid;
use depthfuse::landmarks::Landmarks;

fn bits(v: f64) -> u64 {
    v.to_bits()
}

fn depth_grid(w: usize, h: usize, vals: &[f64]) -> DepthGrid {
    let data: Vec<u64> = vals.iter().map(|v| v.to_bits()).collect();
    DepthGrid::new(w, h, data).unwrap()
}

fn color_grid(w: usize, h: usize) -> ColorGrid {
    let data: Vec<[u8; 3]> = (0..w * h).map(|i| [i as u8, 2 * i as u8, 7]).collect();
    ColorGrid::new(w, h, data).unwrap()
}

fn view(w: usize, h: usize, vals: &[f64], marks: &[(&str, usize, usize)]) -> DepthView {
    let mut features = Landmarks::new();
    for (name, x, y) in marks {
        features.insert(name.to_string(), *x, *y);
    }
    DepthView::new(color_grid(w, h), depth_grid(w, h, vals), features).unwrap()
}

#[test]
fn depth_round_trip() {
    let vals = [1.5, -2.0, 0.0, 3.25, 1e12, -0.5];
    let v = view(3, 2, &vals, &[]);
    for y in 0..2 {
        for x in 0..3 {
            assert_eq!(v.get_depth(x, y).unwrap(), vals[y * 3 + x].to_bits());
        }
    }
}

#[test]
fn depth_out_of_bounds() {
    let v = view(2, 2, &[1.0, 2.0, 3.0, 4.0], &[]);
    assert_eq!(v.get_depth(2, 0), Err(DepthError::BoundsError));
    assert_eq!(v.get_depth(0, 2), Err(DepthError::BoundsError));
    assert_eq!(v.get_depth(0, 1).unwrap(), bits(3.0));
}

#[test]
fn grid_rejects_wrong_cell_count() {
    let r = DepthGrid::new(2, 2, vec![0, 1, 2]);
    assert!(matches!(r, Err(DepthError::DimensionMismatch)));
    let c = ColorGrid::new(3, 1, vec![[0, 0, 0]; 2]);
    assert!(matches!(c, Err(DepthError::DimensionMismatch)));
}

#[test]
fn view_rejects_dimension_mismatch() {
    let rgb = color_grid(2, 2);
    let depth = depth_grid(3, 2, &[0.0; 6]);
    let r = DepthView::new(rgb, depth, Landmarks::new());
    assert!(matches!(r, Err(DepthError::DimensionMismatch)));
}

#[test]
fn landmark_lookup_and_replace() {
    let mut marks = Landmarks::new();
    marks.insert("nose".to_string(), 3, 4);
    marks.insert("eye".to_string(), 1, 2);
    assert_eq!(marks.len(), 2);
    assert_eq!(marks.get(&"nose".to_string()), Some((3, 4)));
    marks.insert("nose".to_string(), 5, 6);
    assert_eq!(marks.len(), 2);
    assert_eq!(marks.get(&"nose".to_string()), Some((5, 6)));
    assert_eq!(marks.get(&"chin".to_string()), None);
}

#[test]
fn match_features_is_symmetric_as_sets() {
    let a = view(4, 4, &[0.0; 16], &[("nose", 0, 0), ("eye", 1, 1), ("chin", 2, 2)]);
    let b = view(4, 4, &[0.0; 16], &[("hair", 3, 3), ("chin", 1, 0), ("nose", 2, 1)]);
    let mut ab = a.match_features(&b);
    let mut ba = b.match_features(&a);
    ab.sort();
    ba.sort();
    assert_eq!(ab, ba);
    assert_eq!(ab, vec!["chin".to_string(), "nose".to_string()]);
}

#[test]
fn match_features_disjoint_is_empty() {
    let a = view(2, 2, &[0.0; 4], &[("nose", 0, 0)]);
    let b = view(2, 2, &[0.0; 4], &[("chin", 1, 1)]);
    assert!(a.match_features(&b).is_empty());
}

#[test]
fn match_features_sorted_by_name() {
    let a = view(4, 4, &[0.0; 16], &[("c", 0, 0), ("a", 1, 1), ("b", 2, 2)]);
    let b = view(4, 4, &[0.0; 16], &[("a", 0, 0), ("b", 1, 1), ("c", 2, 2)]);
    assert_eq!(
        a.match_features(&b),
        vec!["a".to_string(), "b".to_string(), "c".to_string()]
    );
}

#[test]
fn match_features_independent_of_insertion_order() {
    let a = view(4, 4, &[0.0; 16], &[("nose", 0, 0), ("eye", 1, 1), ("chin", 2, 2)]);
    let a2 = view(4, 4, &[0.0; 16], &[("chin", 2, 2), ("nose", 0, 0), ("eye", 1, 1)]);
    let b = view(4, 4, &[0.0; 16], &[("eye", 0, 0), ("chin", 1, 0), ("hair", 2, 0)]);
    assert_eq!(a.match_features(&b), a2.match_features(&b));
}
