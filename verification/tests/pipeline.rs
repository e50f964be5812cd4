use fractal_tree::color::{background_scale, blend_over, coverage, Rgba8};
use fractal_tree::grow::{generate, tree_eq, FanOut};
use fractal_tree::render::get_color;
use fractal_tree::rng::TreeRng;
use fractal_tree::tree::{Leaf, Tree};
use fractal_tree::vec2::Vec2;

fn px(v: i64) -> i64 {
    v * 256
}

#[test]
fn distance_symmetric_and_zero() {
    let a = Vec2 { x: px(3), y: px(-7) };
    let b = Vec2 { x: px(41), y: px(12) };
    assert_eq!(a.distance(b), b.distance(a));
    assert_eq!(a.distance(a), 0);
    assert_eq!(b.distance(b), 0);
    let o = Vec2 { x: 0, y: 0 };
    let c = Vec2 { x: 3, y: 4 };
    assert_eq!(o.distance(c), 5);
}

#[test]
fn point_on_segment_distance_zero() {
    let t = Tree::new(
        Vec2 { x: px(10), y: px(50) },
        Vec2 { x: px(10), y: px(20) },
        2560,
        1536,
    );
    let on = Vec2 { x: px(10), y: px(35) };
    assert_eq!(t.distance_from_branch(on), 0);
    assert_eq!(t.distance_from_branch(t.base), 0);
    assert_eq!(t.distance_from_branch(t.top), 0);
}

#[test]
fn coverage_monotone_and_boundaries() {
    let e: i64 = 1536;
    assert_eq!(coverage(0, e), 255);
    assert_eq!(coverage(e, e), 255);
    assert_eq!(coverage(e + 512, e), 0);
    assert_eq!(coverage(e + 513, e), 0);
    assert_eq!(coverage(e + 256, e), 128);
    let mut prev: u8 = 255;
    let mut d: i64 = 0;
    while d <= e + 600 {
        let c = coverage(d, e);
        assert!(c <= prev);
        prev = c;
        d += 1;
    }
}

#[test]
fn generation_deterministic_for_seed() {
    let base = Vec2 { x: px(256), y: px(467) };
    let top = Vec2 { x: px(256), y: px(326) };
    let mut r1 = TreeRng::from_seed(7);
    let mut r2 = TreeRng::from_seed(7);
    let (t1, l1) = generate(base, top, 2560, 1536, 5, &mut r1, FanOut::TwoOrThree);
    let (t2, l2) = generate(base, top, 2560, 1536, 5, &mut r2, FanOut::TwoOrThree);
    assert!(tree_eq(&t1, &t2));
    assert_eq!(l1, l2);
    assert_eq!(r1.state, r2.state);
    let mut r3 = TreeRng::from_seed(8);
    let (t3, _) = generate(base, top, 2560, 1536, 5, &mut r3, FanOut::TwoOrThree);
    // another seed almost surely moves some coordinate
    assert!(!tree_eq(&t1, &t3));
}

#[test]
fn depth_zero_single_node() {
    let base = Vec2 { x: px(32), y: px(58) };
    let top = Vec2 { x: px(32), y: px(40) };
    let mut rng = TreeRng::from_seed(42);
    let (t, leaves) = generate(base, top, 2560, 1536, 0, &mut rng, FanOut::Fixed2);
    assert_eq!(t.branches.len(), 0);
    assert_eq!(leaves.len(), 0);
    assert_eq!(rng.state, 42);
}

#[test]
fn depth_one_two_terminal_children_two_leaves() {
    let base = Vec2 { x: px(32), y: px(58) };
    let top = Vec2 { x: px(32), y: px(40) };
    let mut rng = TreeRng::from_seed(42);
    let (t, leaves) = generate(base, top, 2560, 1536, 1, &mut rng, FanOut::Fixed2);
    assert_eq!(t.branches.len(), 2);
    for b in &t.branches {
        assert_eq!(b.branches.len(), 0);
        assert!(b.top_width <= b.base_width);
        assert!(b.top_width > 0);
    }
    assert_eq!(leaves.len(), 2);
}

#[test]
fn trunk_pixel_opaque_corner_transparent() {
    let base = Vec2 { x: px(32), y: px(58) };
    let top = Vec2 { x: px(32), y: px(40) };
    let mut rng = TreeRng::from_seed(42);
    let (t, _leaves) = generate(base, top, 2560, 1536, 2, &mut rng, FanOut::Fixed2);
    assert_eq!(t.shade(base), 255);
    assert_eq!(t.shade(Vec2 { x: 0, y: 0 }), 0);
}

#[test]
fn background_center_is_brightest() {
    let center = Vec2 { x: px(32), y: px(32) };
    assert_eq!(background_scale(center, center, px(64)), 255);
    let off = Vec2 { x: px(60), y: px(10) };
    assert!(background_scale(off, center, px(64)) < 255);
}

#[test]
fn blend_full_and_empty_alpha() {
    let bg = Rgba8 { r: 10, g: 20, b: 30, a: 255 };
    let black = Rgba8 { r: 0, g: 0, b: 0, a: 255 };
    let clear = Rgba8 { r: 9, g: 9, b: 9, a: 0 };
    assert_eq!(blend_over(bg, black), black);
    assert_eq!(blend_over(bg, clear), bg);
}

#[test]
fn leaf_tints_its_center_pixel() {
    let base = Vec2 { x: px(32), y: px(58) };
    let top = Vec2 { x: px(32), y: px(40) };
    let t = Tree::new(base, top, 2560, 1536);
    let leaf = Leaf { center: Vec2 { x: px(5), y: px(5) }, radius: px(3) };
    let leaves = vec![leaf];
    let center = Vec2 { x: px(32), y: px(32) };
    let c = get_color(leaf.center, &t, &leaves, center, px(64));
    assert_eq!((c.r, c.g, c.b, c.a), (255, 183, 197, 255));
    let trunk_pixel = get_color(base, &t, &leaves, center, px(64));
    assert_eq!((trunk_pixel.r, trunk_pixel.g, trunk_pixel.b, trunk_pixel.a), (0, 0, 0, 255));
}

#[test]
fn rotate_quarter_turn() {
    let v = Vec2 { x: 256, y: 0 };
    let r = v.rotate(402);
    assert_eq!(r.y, 256);
    assert!(r.x.abs() <= 8);
    let id = v.rotate(0);
    assert_eq!(id.x, 256);
    assert_eq!(id.y, 0);
}

#[test]
fn render_small_canvas() {
    let base = Vec2 { x: px(4), y: px(7) };
    let top = Vec2 { x: px(4), y: px(2) };
    let t = Tree::new(base, top, 512, 260);
    let leaves: Vec<Leaf> = vec![];
    let center = Vec2 { x: px(4), y: px(4) };
    let out = fractal_tree::render::render(8, 8, &t, &leaves, center, px(8));
    assert_eq!(out.len(), 64);
    let on_trunk = out[4 * 8 + 4];
    assert_eq!((on_trunk.r, on_trunk.g, on_trunk.b, on_trunk.a), (0, 0, 0, 255));
}
