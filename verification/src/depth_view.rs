//! A view: a registered color and depth image pair with named pixel
//! landmarks. Color and depth always share dimensions.

use vstd::prelude::*;

use crate::error::DepthError;
use crate::grid::ColorGrid;
use crate::grid::DepthGrid;
use crate::landmarks::Landmarks;

verus! {

/// A color grid and a depth grid of identical dimensions, with named pixel
/// landmarks expected to mark the same physical points as other views'
/// landmarks of the same names.
pub struct DepthView {
    pub rgb: ColorGrid,
    pub depth: DepthGrid,
    pub features: Landmarks,
}

/// The landmark names that `a` and `b` share, in ascending name order
/// (the order `a`'s landmarks are kept in).
pub open spec fn matched_names(a: DepthView, b: DepthView) -> Seq<Seq<char>> {
    a.features.names().filter(|n: Seq<char>| b.features.names().contains(n))
}

impl DepthView {
    /// A view is well formed when its two grids agree pixel for pixel in
    /// extent and its landmark names are unique.
    pub open spec fn wf(self) -> bool {
        &&& self.rgb.wf()
        &&& self.depth.wf()
        &&& self.features.wf()
        &&& self.rgb.spec_width() == self.depth.spec_width()
        &&& self.rgb.spec_height() == self.depth.spec_height()
    }

    pub open spec fn spec_width(self) -> usize {
        self.depth.spec_width()
    }

    pub open spec fn spec_height(self) -> usize {
        self.depth.spec_height()
    }

    /// Registers a color grid, a depth grid and landmarks as one view; fails
    /// when the grids differ in width or height.
    pub fn new(rgb: ColorGrid, depth: DepthGrid, features: Landmarks) -> (r: Result<
        DepthView,
        DepthError,
    >)
        requires
            rgb.wf(),
            depth.wf(),
            features.wf(),
        ensures
            rgb.spec_width() == depth.spec_width() && rgb.spec_height() == depth.spec_height()
                ==> r == Ok::<DepthView, DepthError>(DepthView { rgb, depth, features }),
            !(rgb.spec_width() == depth.spec_width() && rgb.spec_height() == depth.spec_height())
                ==> r == Err::<DepthView, DepthError>(DepthError::DimensionMismatch),
            r matches Ok(v) ==> v.wf(),
    {
        if rgb.width() == depth.width() && rgb.height() == depth.height() {
            Ok(DepthView { rgb, depth, features })
        } else {
            Err(DepthError::DimensionMismatch)
        }
    }

    pub fn width(&self) -> (r: usize)
        ensures
            r == self.spec_width(),
    {
        self.depth.width()
    }

    pub fn height(&self) -> (r: usize)
        ensures
            r == self.spec_height(),
    {
        self.depth.height()
    }

    /// The depth scalar stored at pixel `(x, y)`; fails when the pixel lies
    /// outside the view.
    pub fn get_depth(&self, x: usize, y: usize) -> (r: Result<u64, DepthError>)
        requires
            self.wf(),
        ensures
            x < self.spec_width() && y < self.spec_height() ==> r == Ok::<u64, DepthError>(
                self.depth.spec_at(x as int, y as int),
            ),
            !(x < self.spec_width() && y < self.spec_height()) ==> r == Err::<u64, DepthError>(
                DepthError::BoundsError,
            ),
    {
        self.depth.at(x, y)
    }

    /// The landmark names present in both views, in ascending name order.
    pub fn match_features(&self, other: &DepthView) -> (r: Vec<String>)
        ensures
            r@.map_values(|s: String| s@) == matched_names(*self, *other),
    {
        let mut matched: Vec<String> = Vec::new();
        let n = self.features.len();
        let mut i: usize = 0;
        proof {
            assert(self.features.names().take(0) =~= Seq::<Seq<char>>::empty());
            assert(matched@.map_values(|s: String| s@) =~= Seq::<Seq<char>>::empty().filter(
                |n: Seq<char>| other.features.names().contains(n),
            ));
        }
        while i < n
            invariant
                i <= n,
                n == self.features.entries().len(),
                matched@.map_values(|s: String| s@) == self.features.names().take(i as int).filter(
                    |n: Seq<char>| other.features.names().contains(n),
                ),
            decreases n - i,
        {
            let ghost pred = |n: Seq<char>| other.features.names().contains(n);
            let ghost prefix = self.features.names().take(i as int);
            let entry = self.features.entry_at(i);
            proof {
                broadcast use Seq::lemma_filter_push;

                assert(self.features.names()[i as int] == entry.name@);
                assert(self.features.names().take(i + 1 as int) =~= prefix.push(entry.name@));
                assert(prefix.push(entry.name@).filter(pred) == if pred(entry.name@) {
                    prefix.filter(pred).push(entry.name@)
                } else {
                    prefix.filter(pred)
                });
            }
            if other.features.contains_name(&entry.name) {
                let ghost before = matched@.map_values(|s: String| s@);
                matched.push(entry.name.clone());
                proof {
                    assert(pred(entry.name@));
                    assert(matched@.map_values(|s: String| s@) =~= before.push(entry.name@));
                }
            } else {
                proof {
                    assert(!pred(entry.name@));
                }
            }
            i += 1;
        }
        proof {
            assert(self.features.names().take(n as int) =~= self.features.names());
        }
        matched
    }
}

/// Round trip: at every in-bounds pixel, a view reads back exactly the
/// value placed in the depth data its grid was built from.
pub proof fn lemma_depth_round_trip(v: DepthView, data: Seq<u64>, x: int, y: int)
    requires
        v.wf(),
        v.depth.cells() == data,
        0 <= x < v.spec_width(),
        0 <= y < v.spec_height(),
    ensures
        v.depth.spec_at(x, y) == data[y * v.spec_width() + x],
{
}

/// Landmark matching is symmetric: the two views agree on the set of shared
/// names, whichever view asks.
pub proof fn lemma_match_symmetric(a: DepthView, b: DepthView)
    ensures
        matched_names(a, b).to_set() == matched_names(b, a).to_set(),
{
    broadcast use vstd::seq_lib::group_filter_ensures;

    assert forall|n: Seq<char>| matched_names(a, b).to_set().contains(n) implies matched_names(
        b,
        a,
    ).to_set().contains(n) by {
        lemma_matched_both(a, b, n);
        lemma_both_matched(b, a, n);
    }
    assert forall|n: Seq<char>| matched_names(b, a).to_set().contains(n) implies matched_names(
        a,
        b,
    ).to_set().contains(n) by {
        lemma_matched_both(b, a, n);
        lemma_both_matched(a, b, n);
    }
    assert(matched_names(a, b).to_set() =~= matched_names(b, a).to_set());
}

/// A matched name occurs in both views' name lists.
pub proof fn lemma_matched_both(a: DepthView, b: DepthView, n: Seq<char>)
    requires
        matched_names(a, b).contains(n),
    ensures
        a.features.names().contains(n),
        b.features.names().contains(n),
{
    broadcast use vstd::seq_lib::group_filter_ensures;

    let pred = |m: Seq<char>| b.features.names().contains(m);
    assert(matched_names(a, b) == a.features.names().filter(pred));
    let i = choose|i: int|
        0 <= i < matched_names(a, b).len() && matched_names(a, b)[i] == n;
    assert(pred(matched_names(a, b)[i]));
    lemma_filter_elements(a.features.names(), pred, n);
}

/// A name that occurs in both views' name lists is matched.
pub proof fn lemma_both_matched(a: DepthView, b: DepthView, n: Seq<char>)
    requires
        a.features.names().contains(n),
        b.features.names().contains(n),
    ensures
        matched_names(a, b).contains(n),
{
    let pred = |m: Seq<char>| b.features.names().contains(m);
    assert(matched_names(a, b) == a.features.names().filter(pred));
    let i = choose|i: int|
        0 <= i < a.features.names().len() && a.features.names()[i] == n;
    Seq::lemma_filter_contains(a.features.names(), pred, i);
}

/// Matching is content-determined: two pairs of views holding the same
/// landmark name sets match the same name sequence, however their landmarks
/// were filed.
pub proof fn lemma_match_content_determined(
    a: DepthView,
    a2: DepthView,
    b: DepthView,
    b2: DepthView,
)
    requires
        a.features.wf(),
        a2.features.wf(),
        a.features.names().to_set() == a2.features.names().to_set(),
        b.features.names().to_set() == b2.features.names().to_set(),
    ensures
        matched_names(a, b) == matched_names(a2, b2),
{
    crate::landmarks::lemma_sorted_names_canonical(a.features.names(), a2.features.names());
    let p = |n: Seq<char>| b.features.names().contains(n);
    let q = |n: Seq<char>| b2.features.names().contains(n);
    assert forall|x: int| 0 <= x < a.features.names().len() implies p(a.features.names()[x]) == q(
        a.features.names()[x],
    ) by {
        let n = a.features.names()[x];
        assert(b.features.names().contains(n) == b.features.names().to_set().contains(n));
        assert(b2.features.names().contains(n) == b2.features.names().to_set().contains(n));
    }
    lemma_filter_congruence(a.features.names(), p, q);
    assert(matched_names(a, b) == a.features.names().filter(p));
    assert(matched_names(a2, b2) == a2.features.names().filter(q));
}

/// Two predicates that agree on a sequence's elements keep the same ones.
proof fn lemma_filter_congruence(
    s: Seq<Seq<char>>,
    p: spec_fn(Seq<char>) -> bool,
    q: spec_fn(Seq<char>) -> bool,
)
    requires
        forall|x: int| 0 <= x < s.len() ==> p(#[trigger] s[x]) == q(s[x]),
    ensures
        s.filter(p) == s.filter(q),
    decreases s.len(),
{
    reveal(Seq::filter);
    if s.len() > 0 {
        assert(forall|x: int| 0 <= x < s.drop_last().len() ==> s.drop_last()[x] == s[x]);
        lemma_filter_congruence(s.drop_last(), p, q);
        assert(p(s.last()) == q(s.last()));
    }
}

/// An element kept by a filter occurs in the unfiltered sequence.
proof fn lemma_filter_elements(s: Seq<Seq<char>>, pred: spec_fn(Seq<char>) -> bool, n: Seq<char>)
    requires
        s.filter(pred).contains(n),
    ensures
        s.contains(n),
    decreases s.len(),
{
    reveal(Seq::filter);
    if s.len() > 0 {
        let kept = s.filter(pred);
        let sub = s.drop_last().filter(pred);
        if pred(s.last()) && n == s.last() {
            assert(s[s.len() - 1] == n);
        } else {
            let i = choose|i: int| 0 <= i < kept.len() && kept[i] == n;
            if pred(s.last()) {
                assert(kept == sub.push(s.last()));
                assert(i < kept.len() - 1);
                assert(sub[i] == n);
            }
            assert(sub.contains(n));
            lemma_filter_elements(s.drop_last(), pred, n);
            let j = choose|j: int| 0 <= j < s.drop_last().len() && s.drop_last()[j] == n;
            assert(s[j] == n);
        }
    }
}

} // verus!
