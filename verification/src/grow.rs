//! Recursive stochastic growth of the branch hierarchy.
//!
//! Growth is a mathematical function of the starting node, the recursion
//! depth, the random stream's seed and the fan-out policy: the spec
//! functions here compute it over a ghost mirror of the tree, and
//! `Tree::create_branches` returns exactly that value.  A fixed seed
//! therefore reproduces a tree bit for bit.

use vstd::prelude::*;
use crate::vec2::{Vec2, in_range, dist_fp, rot_fp};
use crate::fixed::{div_trunc, clamp_spec, COORD_MAX};
use crate::rng::{TreeRng, rng_step, rng_unit_of};
use crate::tree::{Tree, Leaf, leaf_wf, tree_wf, node_wf};

verus! {

/// How many children a split produces: always two, or two to three drawn
/// from the stream.
#[derive(Clone, Copy, PartialEq, Eq, Structural, Debug)]
pub enum FanOut {
    Fixed2,
    TwoOrThree,
}

/// The number of fan-out choices a policy draws from.
pub open spec fn fan_choices(p: FanOut) -> int {
    match p {
        FanOut::Fixed2 => 1,
        FanOut::TwoOrThree => 2,
    }
}

/// The ghost mirror of a tree node: what `Tree` holds, with the children as
/// a sequence, so that spec code can build one.
#[verifier::ext_equal]
pub ghost struct GTree {
    pub base: Vec2,
    pub top: Vec2,
    pub length: i64,
    pub base_width: i64,
    pub top_width: i64,
    pub branches: Seq<GTree>,
}

impl Tree {
    /// The ghost mirror of this tree.
    pub open spec fn view(&self) -> GTree
        decreases *self,
    {
        GTree {
            base: self.base,
            top: self.top,
            length: self.length,
            base_width: self.base_width,
            top_width: self.top_width,
            branches: Seq::new(
                self.branches@.len(),
                |i: int|
                    if 0 <= i < self.branches@.len() {
                        self.branches@[i].view()
                    } else {
                        GTree {
                            base: Vec2 { x: 0, y: 0 },
                            top: Vec2 { x: 0, y: 0 },
                            length: 0,
                            base_width: 0,
                            top_width: 0,
                            branches: Seq::empty(),
                        }
                    },
            ),
        }
    }
}

/// A jitter factor drawn from the stream: uniform on `[0.75, 1.25)` in
/// fixed point.
pub open spec fn jitter_of(u: u64) -> int {
    192 + (u as int) / 2
}

/// The taper of a width one generation toward the tips: 60% of it, kept
/// positive.
pub open spec fn taper(w: int) -> int {
    let t = (w * 153) / 256;
    if t < 1 {
        1
    } else {
        t
    }
}

/// Where a child's top lands: the parent's direction scaled to 70%, rotated
/// by `theta` around the parent's top, clamped into the coordinate range.
pub open spec fn child_top(base: Vec2, top: Vec2, theta: int) -> Vec2 {
    let dir = Vec2 {
        x: div_trunc((top.x - base.x) * 179, 256) as i64,
        y: div_trunc((top.y - base.y) * 179, 256) as i64,
    };
    let rot = rot_fp(dir, theta);
    Vec2 {
        x: clamp_spec(top.x + rot.x, -COORD_MAX as int, COORD_MAX as int) as i64,
        y: clamp_spec(top.y + rot.y, -COORD_MAX as int, COORD_MAX as int) as i64,
    }
}

/// One whole growth step at a node: nothing at depth zero; otherwise a
/// drawn child count, a drawn angular spread, and the fold over the
/// children.  Returns the grown node, the leaves it emitted, and the
/// stream's state after it.
pub open spec fn spec_grow(g: GTree, depth: nat, rng: u64, policy: FanOut) -> (
    GTree,
    Seq<Leaf>,
    u64,
)
    decreases depth, 1int, 0int,
{
    if depth == 0 {
        (g, Seq::empty(), rng)
    } else {
        let s1 = rng_step(rng);
        let n = 2 + (rng_unit_of(s1) as int) % fan_choices(policy);
        let s2 = rng_step(s1);
        let ba = (804 * 15 * n * jitter_of(rng_unit_of(s2))) / 25600;
        spec_grow_children(g, depth, s2, policy, n, ba, 0)
    }
}

/// The fold of one growth step over the children still to be made, from
/// child `i` on: each draws its angle (and, within the last two levels, a
/// leaf radius), grows recursively, and is appended to the node.
pub open spec fn spec_grow_children(
    g: GTree,
    depth: nat,
    rng: u64,
    policy: FanOut,
    n: int,
    ba: int,
    i: int,
) -> (GTree, Seq<Leaf>, u64)
    decreases depth, 0int, (if n - i >= 0 { n - i } else { 0int }),
{
    if depth == 0 || i >= n {
        (g, Seq::empty(), rng)
    } else {
        let s3 = rng_step(rng);
        let theta_base = (i * ba) / (n - 1) - ba / 2;
        let theta = div_trunc(theta_base * jitter_of(rng_unit_of(s3)), 256);
        let ctop = child_top(g.base, g.top, theta);
        let emitted = if depth <= 2 {
            seq![Leaf { center: ctop, radius: (512 + 3 * rng_unit_of(rng_step(s3)) as int) as i64 }]
        } else {
            Seq::empty()
        };
        let s4 = if depth <= 2 {
            rng_step(s3)
        } else {
            s3
        };
        let child = GTree {
            base: g.top,
            top: ctop,
            length: dist_fp(g.top, ctop) as i64,
            base_width: g.top_width,
            top_width: taper(g.top_width as int) as i64,
            branches: Seq::empty(),
        };
        let grown = spec_grow(child, (depth - 1) as nat, s4, policy);
        let g1 = GTree { branches: g.branches.push(grown.0), ..g };
        let rest = spec_grow_children(g1, depth, grown.2, policy, n, ba, i + 1);
        (rest.0, emitted + grown.1 + rest.1, rest.2)
    }
}

impl Tree {
    /// One more generation of children per recursion level below this node,
    /// drawn from the stream: exactly the growth function `spec_grow` of
    /// the node, the depth, the stream's state and the policy.  Within the
    /// last two levels each new branch also emits a leaf at its top.
    #[verifier::rlimit(50)]
    pub fn create_branches(
        &mut self,
        leaves: &mut Vec<Leaf>,
        depth: u8,
        rng: &mut TreeRng,
        policy: FanOut,
    )
        requires
            tree_wf(*old(self)),
        ensures
            tree_wf(*final(self)),
            final(self).view() == spec_grow(
                old(self).view(),
                depth as nat,
                old(rng).state,
                policy,
            ).0,
            final(leaves)@ == old(leaves)@ + spec_grow(
                old(self).view(),
                depth as nat,
                old(rng).state,
                policy,
            ).1,
            final(rng).state == spec_grow(
                old(self).view(),
                depth as nat,
                old(rng).state,
                policy,
            ).2,
            forall|j: int|
                old(leaves)@.len() <= j < final(leaves)@.len() ==> leaf_wf(
                    #[trigger] final(leaves)@[j],
                ),
        decreases depth,
    {
        if depth == 0 {
            return ;
        }
        let un = rng.next_unit();
        let k: u64 = match policy {
            FanOut::Fixed2 => 1,
            FanOut::TwoOrThree => 2,
        };
        let n: u64 = 2 + un % k;
        let uj = rng.next_unit();
        let jitter: i64 = 192 + (uj / 2) as i64;
        proof {
            assert(0 <= (804 * 15 * (n as int)) * (jitter as int) <= 11541420) by (nonlinear_arith)
                requires
                    2 <= n <= 3,
                    192 <= jitter <= 319,
            ;
        }
        let ba: i64 = 804 * 15 * (n as i64) * jitter / 25600;
        let ghost g0 = self.view();
        let ghost l0 = leaves@;
        let ghost total = spec_grow_children(
            g0,
            depth as nat,
            rng.state,
            policy,
            n as int,
            ba as int,
            0,
        );
        proof {
            assert(total == spec_grow(old(self).view(), depth as nat, old(rng).state, policy));
        }
        let mut i: u64 = 0;
        while i < n
            invariant
                i <= n,
                2 <= n <= 3,
                n as int == 2 + (rng_unit_of(rng_step(old(rng).state)) as int) % fan_choices(
                    policy,
                ),
                0 <= ba <= 451,
                1 <= depth,
                tree_wf(*self),
                l0.len() <= leaves@.len(),
                forall|j: int|
                    l0.len() <= j < leaves@.len() ==> leaf_wf(#[trigger] leaves@[j]),
                spec_grow_children(
                    self.view(),
                    depth as nat,
                    rng.state,
                    policy,
                    n as int,
                    ba as int,
                    i as int,
                ).0 == total.0,
                l0 + total.1 == leaves@ + spec_grow_children(
                    self.view(),
                    depth as nat,
                    rng.state,
                    policy,
                    n as int,
                    ba as int,
                    i as int,
                ).1,
                spec_grow_children(
                    self.view(),
                    depth as nat,
                    rng.state,
                    policy,
                    n as int,
                    ba as int,
                    i as int,
                ).2 == total.2,
            decreases n - i,
        {
            let ghost v_start = self.view();
            let ghost r_start = rng.state;
            let ghost step = spec_grow_children(
                v_start,
                depth as nat,
                r_start,
                policy,
                n as int,
                ba as int,
                i as int,
            );
            let ut = rng.next_unit();
            let jitter2: i64 = 192 + (ut / 2) as i64;
            proof {
                assert(0 <= (i as int) * (ba as int) <= 1353) by (nonlinear_arith)
                    requires
                        0 <= i <= 3,
                        0 <= ba <= 451,
                ;
            }
            let tb: i64 = (i as i64) * ba / ((n as i64) - 1) - ba / 2;
            proof {
                assert(-500000 <= (tb as int) * (jitter2 as int) <= 500000) by (nonlinear_arith)
                    requires
                        -1353 <= tb <= 1353,
                        192 <= jitter2 <= 320,
                ;
            }
            let theta = crate::fixed::div_s(tb * jitter2, 256);
            let dir = self.top.sub(self.base).mul(179);
            let rot = dir.rotate(theta);
            let ctop = Vec2 {
                x: crate::fixed::clamp_i(self.top.x + rot.x, -COORD_MAX, COORD_MAX),
                y: crate::fixed::clamp_i(self.top.y + rot.y, -COORD_MAX, COORD_MAX),
            };
            if depth <= 2 {
                let ur = rng.next_unit();
                leaves.push(Leaf { center: ctop, radius: 512 + 3 * (ur as i64) });
            }
            let tw_scaled = self.top_width * 153 / 256;
            let tw2: i64 = if tw_scaled < 1 {
                1
            } else {
                tw_scaled
            };
            let blen = self.top.distance(ctop);
            let mut branch = Tree {
                base: self.top,
                top: ctop,
                length: blen,
                base_width: self.top_width,
                top_width: tw2,
                branches: Vec::new(),
            };
            proof {
                assert(branch.view().branches =~= Seq::<GTree>::empty());
                assert(tree_wf(branch));
            }
            branch.create_branches(leaves, depth - 1, rng, policy);
            let ghost pre = self.branches@;
            self.branches.push(branch);
            proof {
                assert(self.branches@ == pre.push(branch));
                assert(forall|q: int|
                    0 <= q < pre.len() ==> self.view().branches[q] == v_start.branches[q]);
                assert(self.view().branches[pre.len() as int] == branch.view());
            }
            proof {
                let s3 = rng_step(r_start);
                let theta_s = div_trunc(
                    ((i as int) * (ba as int) / (n as int - 1) - (ba as int) / 2) * jitter_of(
                        rng_unit_of(s3),
                    ),
                    256,
                );
                assert(theta as int == theta_s);
                let ctop_s = child_top(v_start.base, v_start.top, theta_s);
                assert(ctop == ctop_s);
                let child_s = GTree {
                    base: v_start.top,
                    top: ctop_s,
                    length: dist_fp(v_start.top, ctop_s) as i64,
                    base_width: v_start.top_width,
                    top_width: taper(v_start.top_width as int) as i64,
                    branches: Seq::empty(),
                };
                let grown = spec_grow(
                    child_s,
                    (depth - 1) as nat,
                    if depth <= 2 {
                        rng_step(s3)
                    } else {
                        s3
                    },
                    policy,
                );
                assert(branch.view() == grown.0);
                let g1 = GTree { branches: v_start.branches.push(grown.0), ..v_start };
                assert(self.view().branches =~= g1.branches);
                assert(self.view() =~= g1);
                assert(forall|q: int|
                    0 <= q < self.branches@.len() ==> tree_wf(#[trigger] self.branches@[q]));
            }
            i = i + 1;
        }
        proof {
            assert(l0 + total.1 == leaves@ + Seq::<Leaf>::empty());
            assert(leaves@ + Seq::<Leaf>::empty() =~= leaves@);
            assert(l0 + total.1 =~= leaves@);
        }
    }
}

/// The root node a generation run starts from.
pub open spec fn root_of(base: Vec2, top: Vec2, base_width: i64, top_width: i64) -> GTree {
    GTree {
        base,
        top,
        length: dist_fp(base, top) as i64,
        base_width,
        top_width,
        branches: Seq::empty(),
    }
}

/// A whole generation run: the grown tree and the leaves it emitted, as a
/// function of the trunk, the depth, the seed and the policy.
pub open spec fn spec_generate(
    base: Vec2,
    top: Vec2,
    base_width: i64,
    top_width: i64,
    max_depth: nat,
    seed: u64,
    policy: FanOut,
) -> (GTree, Seq<Leaf>, u64) {
    spec_grow(root_of(base, top, base_width, top_width), max_depth, seed, policy)
}

/// Builds a whole tree from a trunk segment: the root node, grown
/// `max_depth` generations from the stream, with the leaves it emitted.
/// Exactly the value of `spec_generate`.
pub fn generate(
    base: Vec2,
    top: Vec2,
    base_width: i64,
    top_width: i64,
    max_depth: u8,
    rng: &mut TreeRng,
    policy: FanOut,
) -> (r: (Tree, Vec<Leaf>))
    requires
        in_range(base),
        in_range(top),
        0 < top_width <= base_width <= COORD_MAX,
    ensures
        tree_wf(r.0),
        r.0.view() == spec_generate(
            base,
            top,
            base_width,
            top_width,
            max_depth as nat,
            old(rng).state,
            policy,
        ).0,
        r.1@ == spec_generate(
            base,
            top,
            base_width,
            top_width,
            max_depth as nat,
            old(rng).state,
            policy,
        ).1,
        final(rng).state == spec_generate(
            base,
            top,
            base_width,
            top_width,
            max_depth as nat,
            old(rng).state,
            policy,
        ).2,
        forall|j: int| 0 <= j < r.1@.len() ==> leaf_wf(#[trigger] r.1@[j]),
{
    let mut root = Tree::new(base, top, base_width, top_width);
    let mut leaves: Vec<Leaf> = Vec::new();
    proof {
        assert(root.view().branches =~= Seq::<GTree>::empty());
        assert(root.view() =~= root_of(base, top, base_width, top_width));
        assert(Seq::<Leaf>::empty() + spec_generate(
            base,
            top,
            base_width,
            top_width,
            max_depth as nat,
            rng.state,
            policy,
        ).1 =~= spec_generate(
            base,
            top,
            base_width,
            top_width,
            max_depth as nat,
            rng.state,
            policy,
        ).1);
    }
    root.create_branches(&mut leaves, max_depth, rng, policy);
    (root, leaves)
}

/// Structural equality of two trees: the same fields at every node, the
/// same children in the same order.
pub fn tree_eq(a: &Tree, b: &Tree) -> (r: bool)
    ensures
        r <==> a.view() == b.view(),
    decreases *a,
{
    if a.base.x != b.base.x || a.base.y != b.base.y || a.top.x != b.top.x || a.top.y != b.top.y
        || a.length != b.length || a.base_width != b.base_width || a.top_width != b.top_width {
        return false;
    }
    if a.branches.len() != b.branches.len() {
        proof {
            assert(a.view().branches.len() == a.branches@.len());
            assert(b.view().branches.len() == b.branches@.len());
        }
        return false;
    }
    let n = a.branches.len();
    let mut i: usize = 0;
    while i < n
        invariant
            i <= n,
            n == a.branches@.len(),
            n == b.branches@.len(),
            a.base == b.base,
            a.top == b.top,
            a.length == b.length,
            a.base_width == b.base_width,
            a.top_width == b.top_width,
            forall|j: int| 0 <= j < i ==> a.view().branches[j] == #[trigger] b.view().branches[j],
        decreases n - i,
    {
        if !tree_eq(&a.branches[i], &b.branches[i]) {
            proof {
                assert(a.view().branches[i as int] == a.branches@[i as int].view());
                assert(b.view().branches[i as int] == b.branches@[i as int].view());
            }
            return false;
        }
        i = i + 1;
    }
    proof {
        assert(a.view().branches =~= b.view().branches);
        assert(a.view() =~= b.view());
    }
    true
}

/// Growth is a function of the starting node, the depth, the seed and the
/// policy alone: two runs from equal inputs yield the same tree, the same
/// leaf list and the same final stream state.
pub proof fn lemma_generation_deterministic(
    g1: GTree,
    g2: GTree,
    depth: nat,
    seed1: u64,
    seed2: u64,
    p1: FanOut,
    p2: FanOut,
)
    requires
        g1 == g2,
        seed1 == seed2,
        p1 == p2,
    ensures
        spec_grow(g1, depth, seed1, p1) == spec_grow(g2, depth, seed2, p2),
{
}

/// Depth zero grows nothing: the node is returned as it stands, no leaf is
/// emitted, and the stream is not consumed.
pub proof fn lemma_grow_depth_zero(g: GTree, seed: u64, policy: FanOut)
    ensures
        spec_grow(g, 0, seed, policy) == (g, Seq::<Leaf>::empty(), seed),
{
}

/// Depth one under the fixed fan-out grows exactly two children on a
/// childless root, each itself childless, and emits exactly two leaves.
pub proof fn lemma_grow_depth_one(g: GTree, seed: u64)
    requires
        g.branches.len() == 0,
    ensures
        spec_grow(g, 1, seed, FanOut::Fixed2).0.branches.len() == 2,
        forall|i: int|
            0 <= i < 2 ==> #[trigger] spec_grow(
                g,
                1,
                seed,
                FanOut::Fixed2,
            ).0.branches[i].branches.len() == 0,
        spec_grow(g, 1, seed, FanOut::Fixed2).1.len() == 2,
{
    reveal_with_fuel(spec_grow_children, 4);
    let s1 = rng_step(seed);
    assert((rng_unit_of(s1) as int) % 1 == 0) by (nonlinear_arith);
    let n = 2 + (rng_unit_of(s1) as int) % fan_choices(FanOut::Fixed2);
    assert(n == 2);
    let s2 = rng_step(s1);
    let ba = (804 * 15 * n * jitter_of(rng_unit_of(s2))) / 25600;
    let r = spec_grow_children(g, 1, s2, FanOut::Fixed2, 2, ba, 0);
    assert(spec_grow(g, 1, seed, FanOut::Fixed2) == r);
    let r1 = spec_grow_children(g, 1, s2, FanOut::Fixed2, 2, ba, 0);
    assert(r1.0.branches.len() == 2);
    assert(r1.0.branches[0].branches.len() == 0);
    assert(r1.0.branches[1].branches.len() == 0);
    assert(r1.1.len() == 2);
}

} // verus!
