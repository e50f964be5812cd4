//! Per-pixel compositing and the raster driver: the background gradient,
//! the tree's shading as a black overlay, each leaf as a pink overlay, for
//! every pixel of a canvas.

use vstd::prelude::*;
use crate::vec2::{Vec2, in_range};
use crate::color::{
    Rgba8, rgba_view, blend_of, blend_over, background_scale, bg_scale_spec,
};
use crate::tree::{Tree, Leaf, leaf_wf, leaf_shade_spec, shade_spec, tree_wf};
use crate::fixed::COORD_MAX;

verus! {

/// The fold of alpha-over compositing of the leaves' pink overlays onto an
/// accumulated pixel, in leaf-list order.
pub open spec fn leaves_fold(c: (int, int, int, int), leaves: Seq<Leaf>, pos: Vec2) -> (
    int,
    int,
    int,
    int,
)
    decreases leaves.len(),
{
    if leaves.len() == 0 {
        c
    } else {
        leaves_fold(
            blend_of(c, (255, 183, 197, leaf_shade_spec(leaves[0], pos))),
            leaves.drop_first(),
            pos,
        )
    }
}

/// The color of one pixel: the radial background gray, the tree's coverage
/// composited over it in black, then every leaf's coverage in pink.
pub open spec fn get_color_spec(
    pos: Vec2,
    t: Tree,
    leaves: Seq<Leaf>,
    center: Vec2,
    width: int,
) -> (int, int, int, int) {
    let sc = bg_scale_spec(pos, center, width);
    let c0 = (sc, sc, sc, 255int);
    let c1 = blend_of(c0, (0, 0, 0, shade_spec(t, pos)));
    leaves_fold(c1, leaves, pos)
}

/// The color of the pixel at `pos`: exactly `get_color_spec`.
pub fn get_color(pos: Vec2, tree: &Tree, leaves: &Vec<Leaf>, center: Vec2, width: i64) -> (r:
    Rgba8)
    requires
        tree_wf(*tree),
        in_range(pos),
        in_range(center),
        2 <= width <= COORD_MAX,
        forall|j: int| 0 <= j < leaves@.len() ==> leaf_wf(#[trigger] leaves@[j]),
    ensures
        rgba_view(r) == get_color_spec(pos, *tree, leaves@, center, width as int),
{
    let sc = background_scale(pos, center, width);
    let mut color = Rgba8 { r: sc, g: sc, b: sc, a: 255 };
    let shade = tree.shade(pos);
    color = blend_over(color, Rgba8 { r: 0, g: 0, b: 0, a: shade });
    let ghost c1 = rgba_view(color);
    let ghost all = leaves@;
    let n = leaves.len();
    proof {
        assert(all.skip(0) =~= all);
    }
    let mut i: usize = 0;
    while i < n
        invariant
            i <= n,
            n == all.len(),
            all == leaves@,
            forall|j: int| 0 <= j < all.len() ==> leaf_wf(#[trigger] all[j]),
            in_range(pos),
            leaves_fold(rgba_view(color), all.skip(i as int), pos) == leaves_fold(c1, all, pos),
        decreases n - i,
    {
        proof {
            assert(all.skip(i as int)[0] == all[i as int]);
        }
        let a = leaves[i].shade(pos);
        color = blend_over(color, Rgba8 { r: 255, g: 183, b: 197, a });
        proof {
            assert(all.skip(i as int).drop_first() =~= all.skip(i as int + 1));
        }
        i = i + 1;
    }
    proof {
        assert(all.skip(n as int) =~= Seq::<Leaf>::empty());
    }
    color
}

/// The pixel colors of a whole canvas, row by row: for every integer pixel
/// coordinate, the color of the query point at that corner (no sub-pixel
/// offset), against a gradient centered at `center` for a canvas `width`
/// pixels wide.
pub fn render(
    width: u32,
    height: u32,
    tree: &Tree,
    leaves: &Vec<Leaf>,
    center: Vec2,
    width_fp: i64,
) -> (out: Vec<Rgba8>)
    requires
        tree_wf(*tree),
        in_range(center),
        2 <= width_fp <= COORD_MAX,
        width <= 4096,
        height <= 4096,
        forall|j: int| 0 <= j < leaves@.len() ==> leaf_wf(#[trigger] leaves@[j]),
    ensures
        out@.len() == width * height,
        forall|x: int, y: int|
            0 <= x < width && 0 <= y < height ==> rgba_view(
                #[trigger] out@[y * width + x],
            ) == get_color_spec(
                Vec2 { x: (256 * x) as i64, y: (256 * y) as i64 },
                *tree,
                leaves@,
                center,
                width_fp as int,
            ),
{
    let mut out: Vec<Rgba8> = Vec::new();
    let mut y: u32 = 0;
    while y < height
        invariant
            y <= height,
            width <= 4096,
            height <= 4096,
            2 <= width_fp <= COORD_MAX,
            tree_wf(*tree),
            in_range(center),
            forall|j: int| 0 <= j < leaves@.len() ==> leaf_wf(#[trigger] leaves@[j]),
            out@.len() == y * width,
            forall|px: int, py: int|
                0 <= px < width && 0 <= py < y ==> rgba_view(
                    #[trigger] out@[py * width + px],
                ) == get_color_spec(
                    Vec2 { x: (256 * px) as i64, y: (256 * py) as i64 },
                    *tree,
                    leaves@,
                    center,
                    width_fp as int,
                ),
        decreases height - y,
    {
        let mut x: u32 = 0;
        while x < width
            invariant
                x <= width,
                y < height,
                width <= 4096,
                height <= 4096,
                2 <= width_fp <= COORD_MAX,
                tree_wf(*tree),
                in_range(center),
                forall|j: int| 0 <= j < leaves@.len() ==> leaf_wf(#[trigger] leaves@[j]),
                out@.len() == y * width + x,
                forall|px: int, py: int|
                    0 <= px < width && 0 <= py < y ==> rgba_view(
                        #[trigger] out@[py * width + px],
                    ) == get_color_spec(
                        Vec2 { x: (256 * px) as i64, y: (256 * py) as i64 },
                        *tree,
                        leaves@,
                        center,
                        width_fp as int,
                    ),
                forall|px: int|
                    0 <= px < x ==> rgba_view(
                        #[trigger] out@[y * width + px],
                    ) == get_color_spec(
                        Vec2 { x: (256 * px) as i64, y: (256 * y) as i64 },
                        *tree,
                        leaves@,
                        center,
                        width_fp as int,
                    ),
            decreases width - x,
        {
            let pos = Vec2 { x: 256 * (x as i64), y: 256 * (y as i64) };
            let c = get_color(pos, tree, leaves, center, width_fp);
            out.push(c);
            proof {
                assert forall|py: int, px: int|
                    0 <= px < width && 0 <= py < y implies #[trigger] (py * (width as int) + px)
                    < (y as int) * (width as int) by {
                    assert(py * (width as int) <= (y - 1) * (width as int)) by (nonlinear_arith)
                        requires
                            py <= y - 1,
                            width >= 0,
                    ;
                    assert((y - 1) * (width as int) + (width as int) == (y as int) * (
                    width as int)) by (nonlinear_arith);
                }
            }
            x = x + 1;
        }
        proof {
            assert(((y as int) + 1) * (width as int) == (y as int) * (width as int) + (
            width as int)) by (nonlinear_arith);
        }
        y = y + 1;
    }
    out
}

} // verus!
