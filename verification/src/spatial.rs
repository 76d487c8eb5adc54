//! Nearest-neighbor lookup over a static set of 3-D points, through a k-d
//! tree.

use vstd::prelude::*;

verus! {

/// The item that the nearest-neighbor search reports for `q` among `items`
/// (each a 3-D point given by its coordinates' bit patterns): the nearest by
/// Euclidean distance, with ties broken by the search.
pub uninterp spec fn nearest_of(items: Seq<Seq<u64>>, q: Seq<u64>) -> Seq<u64>;

/// Relies on `kd_tree::KdTree::build_by_ordered_float` and
/// `KdTree::nearest` over double-precision 3-D points: the tree built over a
/// given item list is fixed, so the nearest item depends on the item list
/// and the query alone.
#[verifier::external_body]
pub(crate) fn nearest_all(items: &Vec<[u64; 3]>, queries: &Vec<[u64; 3]>) -> (r: Vec<[u64; 3]>)
    requires
        items@.len() >= 1,
    ensures
        r@.len() == queries@.len(),
        forall|i: int|
            0 <= i < r@.len() ==> r@[i]@ == nearest_of(
                items@.map_values(|p: [u64; 3]| p@),
                queries@[i]@,
            ),
{
    let e = |b: u64| glam::DVec2::splat(bytemuck::cast(b)).x;
    let pts: Vec<[_; 3]> = items.iter().map(|p| [e(p[0]), e(p[1]), e(p[2])]).collect();
    let tree = kd_tree::KdTree::build_by_ordered_float(pts);
    queries.iter().map(
        |q|
            {
                let m = tree.nearest(&[e(q[0]), e(q[1]), e(q[2])]).unwrap().item;
                [bytemuck::cast(m[0]), bytemuck::cast(m[1]), bytemuck::cast(m[2])]
            },
    ).collect()
}

} // verus!
