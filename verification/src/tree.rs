//! The branch hierarchy and its distance-field evaluation: the recursive
//! tree of tapered segments, the point-to-segment distance policy, the
//! exhaustive nearest-branch search, and the branch and leaf shading.

use vstd::prelude::*;
use crate::vec2::{Vec2, in_range, dist_fp, line_dist_fp, lemma_distance_self_zero};
use crate::color::{coverage, coverage_spec};
use crate::fixed::COORD_MAX;

verus! {

/// A decorative leaf blob near the tips of the tree.
#[derive(Clone, Copy, PartialEq, Eq, Structural, Debug)]
pub struct Leaf {
    pub center: Vec2,
    pub radius: i64,
}

/// A leaf's fields are in range.
pub open spec fn leaf_wf(l: Leaf) -> bool {
    &&& in_range(l.center)
    &&& 0 < l.radius <= COORD_MAX
}

/// Coverage of `pos` by a leaf's disk: the smoothstep of the distance from
/// its center against its radius.
pub open spec fn leaf_shade_spec(l: Leaf, pos: Vec2) -> int {
    coverage_spec(dist_fp(l.center, pos), l.radius as int)
}

impl Leaf {
    /// Anti-aliased coverage of `pos` by this leaf's disk.
    pub fn shade(&self, pos: Vec2) -> (r: u8)
        requires
            leaf_wf(*self),
            in_range(pos),
        ensures
            r as int == leaf_shade_spec(*self, pos),
    {
        let d = self.center.distance(pos);
        coverage(d, self.radius)
    }
}

/// One branch segment and, recursively, the branches growing from its top.
pub struct Tree {
    pub base: Vec2,
    pub top: Vec2,
    pub length: i64,
    pub base_width: i64,
    pub top_width: i64,
    pub branches: Vec<Tree>,
}

/// The shading parameters of one branch node, copied out of the tree when
/// the nearest-branch search keeps it as the current best.
#[derive(Clone, Copy, PartialEq, Eq, Structural, Debug)]
pub struct BranchParams {
    pub top: Vec2,
    pub length: i64,
    pub base_width: i64,
    pub top_width: i64,
}

/// The shading parameters of a tree node.
pub open spec fn params_of(t: Tree) -> BranchParams {
    BranchParams { top: t.top, length: t.length, base_width: t.base_width, top_width: t.top_width }
}

/// Well-formed shading parameters: in-range endpoint, a positive tapering
/// width, and a length that a distance between in-range points can take.
pub open spec fn params_wf(b: BranchParams) -> bool {
    &&& in_range(b.top)
    &&& 0 < b.top_width <= b.base_width <= COORD_MAX
    &&& 0 <= b.length <= 2965821
}

/// One node's own fields are well formed: endpoints in range, the cached
/// length exactly the distance between them, widths tapering and positive.
pub open spec fn node_wf(t: Tree) -> bool {
    &&& in_range(t.base)
    &&& in_range(t.top)
    &&& t.length == dist_fp(t.base, t.top)
    &&& 0 < t.top_width <= t.base_width <= COORD_MAX
}

/// The whole tree is well formed, node by node.
pub open spec fn tree_wf(t: Tree) -> bool
    decreases t,
{
    &&& node_wf(t)
    &&& forall|i: int|
        0 <= i < t.branches@.len() ==> tree_wf(#[trigger] t.branches@[i])
}

/// Distance from a point to one branch segment, by the generator's policy:
/// where the point is closer to each endpoint than the endpoints are to one
/// another, the perpendicular distance to the segment's line; otherwise the
/// nearer endpoint.  (An approximation of the exact point-to-segment
/// distance, kept exactly as stated.)
pub open spec fn branch_dist_spec(t: Tree, pos: Vec2) -> int {
    if dist_fp(pos, t.base) < dist_fp(t.base, t.top) && dist_fp(pos, t.top) < dist_fp(
        t.top,
        t.base,
    ) {
        line_dist_fp(pos, t.base, t.top)
    } else if dist_fp(pos, t.base) < dist_fp(pos, t.top) {
        dist_fp(pos, t.base)
    } else {
        dist_fp(pos, t.top)
    }
}

/// The fold of the nearest-branch search over a sequence of subtrees, in
/// order: each root is compared against the best so far (strictly closer
/// wins), then its subtrees are searched, then the next sibling.
pub open spec fn closest_forest(s: Seq<Tree>, pos: Vec2, d: int, b: BranchParams) -> (
    int,
    BranchParams,
)
    decreases s,
{
    if s.len() == 0 {
        (d, b)
    } else {
        let c = s[0];
        let d1 = branch_dist_spec(c, pos);
        let best = if d1 < d {
            (d1, params_of(c))
        } else {
            (d, b)
        };
        let sub = closest_forest(c.branches@, pos, best.0, best.1);
        closest_forest(s.drop_first(), pos, sub.0, sub.1)
    }
}

/// The nearest-branch search below `t` (the node `t` itself is the caller's
/// concern), starting from the best distance and parameters so far.
pub open spec fn closest_in(t: Tree, pos: Vec2, d: int, b: BranchParams) -> (int, BranchParams)
    decreases t,
{
    closest_forest(t.branches@, pos, d, b)
}

/// The distance a branch yields is never negative.
pub proof fn lemma_branch_dist_nonneg(t: Tree, pos: Vec2)
    ensures
        branch_dist_spec(t, pos) >= 0,
{
    if dist_fp(pos, t.base) < dist_fp(t.base, t.top) && dist_fp(pos, t.top) < dist_fp(
        t.top,
        t.base,
    ) {
        vstd::arithmetic::div_mod::lemma_div_is_ordered(
            0,
            crate::fixed::abs_spec(crate::vec2::cross_val(pos, t.base, t.top)),
            dist_fp(t.base, t.top),
        );
    }
}

/// The nearest-branch fold only ever improves the best distance, and never
/// below zero.
pub proof fn lemma_closest_forest_bounds(s: Seq<Tree>, pos: Vec2, d: int, b: BranchParams)
    requires
        0 <= d,
    ensures
        0 <= closest_forest(s, pos, d, b).0 <= d,
    decreases s,
{
    if s.len() == 0 {
    } else {
        let c = s[0];
        let d1 = branch_dist_spec(c, pos);
        lemma_branch_dist_nonneg(c, pos);
        let best = if d1 < d {
            (d1, params_of(c))
        } else {
            (d, b)
        };
        lemma_closest_forest_bounds(c.branches@, pos, best.0, best.1);
        let sub = closest_forest(c.branches@, pos, best.0, best.1);
        lemma_closest_forest_bounds(s.drop_first(), pos, sub.0, sub.1);
    }
}

/// The nearest-branch fold hands back well-formed parameters whenever it
/// starts from some and the forest is well formed.
pub proof fn lemma_closest_forest_params(s: Seq<Tree>, pos: Vec2, d: int, b: BranchParams)
    requires
        forall|i: int| 0 <= i < s.len() ==> tree_wf(#[trigger] s[i]),
        params_wf(b),
    ensures
        params_wf(closest_forest(s, pos, d, b).1),
    decreases s,
{
    if s.len() == 0 {
    } else {
        let c = s[0];
        assert(tree_wf(c));
        let d1 = branch_dist_spec(c, pos);
        let best = if d1 < d {
            (d1, params_of(c))
        } else {
            (d, b)
        };
        assert(params_wf(best.1)) by {
            if d1 < d {
                crate::vec2::lemma_dist_fp_bounds(c.base, c.top);
            }
        }
        assert(forall|i: int| 0 <= i < c.branches@.len() ==> tree_wf(#[trigger] c.branches@[i]));
        lemma_closest_forest_params(c.branches@, pos, best.0, best.1);
        let sub = closest_forest(c.branches@, pos, best.0, best.1);
        assert(forall|i: int|
            0 <= i < s.drop_first().len() ==> tree_wf(#[trigger] s.drop_first()[i]));
        lemma_closest_forest_params(s.drop_first(), pos, sub.0, sub.1);
    }
}

/// The local half-width of a branch at a query point: the top width plus
/// the taper toward the base, proportional to the point's distance from the
/// branch's top (a degenerate zero-length branch shows its base width).
pub open spec fn edge_width_spec(b: BranchParams, pos: Vec2) -> int {
    if b.length >= 1 {
        b.top_width + (dist_fp(pos, b.top) * (b.base_width - b.top_width)) / (b.length as int)
    } else {
        b.base_width as int
    }
}

/// Coverage of `pos` by the whole tree: the smoothstep of the distance to
/// the nearest branch against that branch's local half-width.
pub open spec fn shade_spec(t: Tree, pos: Vec2) -> int {
    let d0 = branch_dist_spec(t, pos);
    let r = closest_in(t, pos, d0, params_of(t));
    coverage_spec(r.0, edge_width_spec(r.1, pos))
}

impl Tree {
    /// A single well-formed node with no children: the cached length is the
    /// distance between the endpoints.
    pub fn new(base: Vec2, top: Vec2, base_width: i64, top_width: i64) -> (r: Tree)
        requires
            in_range(base),
            in_range(top),
            0 < top_width <= base_width <= COORD_MAX,
        ensures
            tree_wf(r),
            r.base == base,
            r.top == top,
            r.base_width == base_width,
            r.top_width == top_width,
            r.length == dist_fp(base, top),
            r.branches@.len() == 0,
    {
        let length = base.distance(top);
        Tree { base, top, length, base_width, top_width, branches: Vec::new() }
    }

    /// Distance from `pos` to this node's segment, by the generator's
    /// policy (see `branch_dist_spec`).
    pub fn distance_from_branch(&self, pos: Vec2) -> (r: i64)
        requires
            in_range(self.base),
            in_range(self.top),
            in_range(pos),
        ensures
            r as int == branch_dist_spec(*self, pos),
            r >= 0,
    {
        let d_pb = pos.distance(self.base);
        let d_bt = self.base.distance(self.top);
        let d_pt = pos.distance(self.top);
        let d_tb = self.top.distance(self.base);
        if d_pb < d_bt && d_pt < d_tb {
            pos.distance_from_line(self.base, self.top)
        } else if d_pb < d_pt {
            d_pb
        } else {
            d_pt
        }
    }

    /// The exhaustive nearest-branch search below this node: every subtree
    /// is visited, a strictly smaller distance displaces the best so far.
    /// Exactly the fold `closest_in`.
    pub fn get_closest_branch_distance(&self, pos: Vec2, d: i64, br: BranchParams) -> (r: (
        i64,
        BranchParams,
    ))
        requires
            tree_wf(*self),
            in_range(pos),
            0 <= d,
        ensures
            (r.0 as int, r.1) == closest_in(*self, pos, d as int, br),
        decreases *self,
    {
        let mut cur_d = d;
        let mut cur_b = br;
        let n = self.branches.len();
        let ghost s = self.branches@;
        let ghost total = closest_forest(s, pos, d as int, br);
        proof {
            assert(s.skip(0) =~= s);
        }
        let mut i: usize = 0;
        while i < n
            invariant
                tree_wf(*self),
                in_range(pos),
                0 <= cur_d,
                n == s.len(),
                s == self.branches@,
                i <= n,
                closest_forest(s.skip(i as int), pos, cur_d as int, cur_b) == total,
            decreases n - i,
        {
            proof {
                assert(s.skip(i as int)[0] == s[i as int]);
                assert(tree_wf(s[i as int]));
            }
            let d1 = self.branches[i].distance_from_branch(pos);
            if d1 < cur_d {
                cur_d = d1;
                cur_b = BranchParams {
                    top: self.branches[i].top,
                    length: self.branches[i].length,
                    base_width: self.branches[i].base_width,
                    top_width: self.branches[i].top_width,
                };
            }
            proof {
                lemma_closest_forest_bounds(s[i as int].branches@, pos, cur_d as int, cur_b);
            }
            let sub = self.branches[i].get_closest_branch_distance(pos, cur_d, cur_b);
            proof {
                assert(s.skip(i as int).drop_first() =~= s.skip(i as int + 1));
            }
            cur_d = sub.0;
            cur_b = sub.1;
            i = i + 1;
        }
        proof {
            assert(s.skip(n as int) =~= Seq::<Tree>::empty());
        }
        (cur_d, cur_b)
    }

    /// Anti-aliased coverage of `pos` by the whole tree: the distance to
    /// the nearest branch, smoothed against that branch's local half-width.
    /// Exactly the value of `shade_spec`.
    pub fn shade(&self, pos: Vec2) -> (r: u8)
        requires
            tree_wf(*self),
            in_range(pos),
        ensures
            r as int == shade_spec(*self, pos),
    {
        let d0 = self.distance_from_branch(pos);
        let p0 = BranchParams {
            top: self.top,
            length: self.length,
            base_width: self.base_width,
            top_width: self.top_width,
        };
        proof {
            crate::vec2::lemma_dist_fp_bounds(self.base, self.top);
            assert(params_wf(p0));
            lemma_closest_forest_params(self.branches@, pos, d0 as int, p0);
            lemma_closest_forest_bounds(self.branches@, pos, d0 as int, p0);
        }
        let best = self.get_closest_branch_distance(pos, d0, p0);
        let d = best.0;
        let br = best.1;
        let dt = pos.distance(br.top);
        let e1: i64 = if br.length >= 1 {
            proof {
                assert(0 <= dt * (br.base_width - br.top_width) <= 2965821 * 1048576)
                    by (nonlinear_arith)
                    requires
                        0 <= dt <= 2965821,
                        0 <= br.base_width - br.top_width <= 1048576,
                ;
                vstd::arithmetic::div_mod::lemma_div_is_ordered(
                    0,
                    dt * (br.base_width - br.top_width),
                    br.length as int,
                );
                vstd::arithmetic::div_mod::lemma_div_is_ordered(
                    dt * (br.base_width - br.top_width),
                    2965821int * 1048576,
                    br.length as int,
                );
            }
            br.top_width + (dt * (br.base_width - br.top_width)) / br.length
        } else {
            br.base_width
        };
        coverage(d, e1)
    }
}

} // verus!
