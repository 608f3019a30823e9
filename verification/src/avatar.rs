//! Identicons: a 32-bit code drawn as a 3×3 grid of patches.
//!
//! Each patch is a polygon on a 5×5 grid, rasterized to a 15×15 monochrome
//! [`BitImage`] by the even-odd rule, with an outline of the same size. The
//! code picks the middle, side and corner patches, their turns and
//! inversions, and the fill colour.
use vstd::prelude::*;
use crate::base32::Base32;
use crate::html::{parse_url_host_kind, url_parsed_host, HostKind};
use crate::text::same_text;

verus! {

/// A 15×15 monochrome image: pixel `(x, y)` is bit `p = x + 15 y`, held in
/// bit `p` of `top` when `p <= 127` and in bit `p - 127` of `bottom` after
/// that.
#[derive(Clone, Copy, Debug, Default)]
pub struct BitImage {
    pub top: u128,
    pub bottom: u128,
}

/// Whether bit `k` of `w` is set.
pub open spec fn bit_of(w: u128, k: int) -> bool {
    (w >> (k as u128)) & 1 == 1
}

/// The positions that a [`BitImage`] can address.
pub open spec fn position_ok(p: int) -> bool {
    0 <= p <= 254
}

impl BitImage {
    /// Whether the bit at position `p` is set.
    pub open spec fn bit(self, p: int) -> bool {
        if p > 127 {
            bit_of(self.bottom, p - 127)
        } else {
            bit_of(self.top, p)
        }
    }

    /// The pixel at `(x, y)`.
    pub fn get(self, x: u32, y: u32) -> (r: bool)
        requires
            position_ok(x + 15 * y),
        ensures
            r == self.bit(x + 15 * y),
    {
        let p: u32 = x + y * 15;
        if p > 127 {
            let k: u32 = p - 127;
            let w = self.bottom;
            assert(((w >> (k as u128)) & 1 == 1) == (w & (1u128 << (k as u128)) != 0)) by (bit_vector)
                requires
                    k < 128,
            ;
            self.bottom & (1u128 << k) != 0
        } else {
            let w = self.top;
            assert(((w >> (p as u128)) & 1 == 1) == (w & (1u128 << (p as u128)) != 0)) by (bit_vector)
                requires
                    p < 128,
            ;
            self.top & (1u128 << p) != 0
        }
    }

    /// Sets the pixel at `(x, y)` to `bit`; every other position keeps its
    /// value.
    pub fn set(&mut self, x: u32, y: u32, bit: bool)
        requires
            position_ok(x + 15 * y),
        ensures
            final(self).bit(x + 15 * y) == bit,
            forall|q: int|
                position_ok(q) && q != x + 15 * y ==> #[trigger] final(self).bit(q) == old(
                    self,
                ).bit(q),
    {
        let p: u32 = x + y * 15;
        if p > 127 {
            let k: u32 = p - 127;
            let w = self.bottom;
            let n = if bit {
                w | (1u128 << k)
            } else {
                w & !(1u128 << k)
            };
            assert(bit_of(n, k as int) == bit) by {
                assert(((w | (1u128 << (k as u128))) >> (k as u128)) & 1 == 1) by (bit_vector)
                    requires
                        k < 128,
                ;
                assert(((w & !(1u128 << (k as u128))) >> (k as u128)) & 1 == 0) by (bit_vector)
                    requires
                        k < 128,
                ;
            }
            assert forall|j: u128| j < 128 && j != k ==> #[trigger] ((n >> j) & 1) == ((w >> j) & 1) by {
                if j < 128 && j != k {
                    if bit {
                        assert(((w | (1u128 << (k as u128))) >> j) & 1 == (w >> j) & 1) by (bit_vector)
                            requires
                                k < 128,
                                j < 128,
                                j != k,
                        ;
                    } else {
                        assert(((w & !(1u128 << (k as u128))) >> j) & 1 == (w >> j) & 1) by (bit_vector)
                            requires
                                k < 128,
                                j < 128,
                                j != k,
                        ;
                    }
                }
            }
            self.bottom = n;
            assert forall|q: int| position_ok(q) && q != p implies #[trigger] self.bit(q) == old(self).bit(q) by {
                if q > 127 {
                    assert(((n >> ((q - 127) as u128)) & 1) == ((w >> ((q - 127) as u128)) & 1));
                }
            }
        } else {
            let w = self.top;
            let n = if bit {
                w | (1u128 << p)
            } else {
                w & !(1u128 << p)
            };
            assert(bit_of(n, p as int) == bit) by {
                assert(((w | (1u128 << (p as u128))) >> (p as u128)) & 1 == 1) by (bit_vector)
                    requires
                        p < 128,
                ;
                assert(((w & !(1u128 << (p as u128))) >> (p as u128)) & 1 == 0) by (bit_vector)
                    requires
                        p < 128,
                ;
            }
            assert forall|j: u128| j < 128 && j != p ==> #[trigger] ((n >> j) & 1) == ((w >> j) & 1) by {
                if j < 128 && j != p {
                    if bit {
                        assert(((w | (1u128 << (p as u128))) >> j) & 1 == (w >> j) & 1) by (bit_vector)
                            requires
                                p < 128,
                                j < 128,
                                j != p,
                        ;
                    } else {
                        assert(((w & !(1u128 << (p as u128))) >> j) & 1 == (w >> j) & 1) by (bit_vector)
                            requires
                                p < 128,
                                j < 128,
                                j != p,
                        ;
                    }
                }
            }
            self.top = n;
            assert forall|q: int| position_ok(q) && q != p implies #[trigger] self.bit(q) == old(self).bit(q) by {
                if q <= 127 {
                    assert(((n >> (q as u128)) & 1) == ((w >> (q as u128)) & 1));
                }
            }
        }
    }
}

} // verus!

verus! {

pub open spec fn tdiv(a: int, b: int) -> int {
    if a >= 0 && b > 0 {
        a / b
    } else if a < 0 && b < 0 {
        (-a) / (-b)
    } else if a < 0 {
        -((-a) / b)
    } else {
        -(a / (-b))
    }
}

/// `a / b` rounded toward zero, as Rust divides integers.
fn trunc_div(a: i32, b: i32) -> (r: i32)
    requires
        -1000 < a < 1000,
        -1000 < b < 1000,
        b != 0,
    ensures
        r == tdiv(a as int, b as int),
{
    let ua: u32 = if a >= 0 {
        a as u32
    } else {
        (-a) as u32
    };
    let ub: u32 = if b >= 0 {
        b as u32
    } else {
        (-b) as u32
    };
    let q: u32 = ua / ub;
    assert(q <= 1000) by (nonlinear_arith)
        requires
            ua < 1000,
            ub >= 1,
            q == ua / ub,
    ;
    if (a >= 0) == (b > 0) {
        q as i32
    } else {
        -(q as i32)
    }
}

} // verus!

verus! {

/// The corners of patch `i`, as points `x + 5 y` of the 5×5 grid, in
/// drawing order. Patch 15 is drawn like patch 0 (and is inverted).
pub open spec fn patch_corners(i: int) -> Seq<u8> {
    if i == 0 || i == 15 {
        seq![0u8, 4, 24, 20]
    } else if i == 1 {
        seq![0u8, 4, 20]
    } else if i == 2 {
        seq![2u8, 24, 20]
    } else if i == 3 {
        seq![0u8, 2, 20, 22]
    } else if i == 4 {
        seq![2u8, 14, 22, 10]
    } else if i == 5 {
        seq![0u8, 14, 24, 22]
    } else if i == 6 {
        seq![2u8, 24, 22, 13, 11, 22, 20]
    } else if i == 7 {
        seq![0u8, 14, 22]
    } else if i == 8 {
        seq![6u8, 8, 18, 16]
    } else if i == 9 {
        seq![4u8, 20, 10, 12, 2]
    } else if i == 10 {
        seq![0u8, 2, 12, 10]
    } else if i == 11 {
        seq![10u8, 14, 22]
    } else if i == 12 {
        seq![20u8, 12, 24]
    } else if i == 13 {
        seq![10u8, 2, 12]
    } else {
        seq![0u8, 2, 10]
    }
}

fn patch_corners_exec(i: usize) -> (v: Vec<u8>)
    requires
        i < 16,
    ensures
        v@ == patch_corners(i as int),
{
    let v = if i == 0 || i == 15 {
        vec![0u8, 4, 24, 20]
    } else if i == 1 {
        vec![0u8, 4, 20]
    } else if i == 2 {
        vec![2u8, 24, 20]
    } else if i == 3 {
        vec![0u8, 2, 20, 22]
    } else if i == 4 {
        vec![2u8, 14, 22, 10]
    } else if i == 5 {
        vec![0u8, 14, 24, 22]
    } else if i == 6 {
        vec![2u8, 24, 22, 13, 11, 22, 20]
    } else if i == 7 {
        vec![0u8, 14, 22]
    } else if i == 8 {
        vec![6u8, 8, 18, 16]
    } else if i == 9 {
        vec![4u8, 20, 10, 12, 2]
    } else if i == 10 {
        vec![0u8, 2, 12, 10]
    } else if i == 11 {
        vec![10u8, 14, 22]
    } else if i == 12 {
        vec![20u8, 12, 24]
    } else if i == 13 {
        vec![10u8, 2, 12]
    } else {
        vec![0u8, 2, 10]
    };
    assert(v@ =~= patch_corners(i as int));
    v
}

/// A grid corner's coordinates on the 15×15 raster.
pub open spec fn corner_point(c: u8) -> (i32, i32) {
    (((c % 5) * 3) as i32, ((c / 5) * 3) as i32)
}

/// The polygon of patch `i` on the 15×15 raster.
pub open spec fn patch_path(i: int) -> Seq<(i32, i32)> {
    patch_corners(i).map_values(|c: u8| corner_point(c))
}

/// A polygon whose corners lie on the raster.
pub open spec fn path_ok(path: Seq<(i32, i32)>) -> bool {
    &&& path.len() >= 1
    &&& forall|k: int|
        0 <= k < path.len() ==> 0 <= (#[trigger] path[k]).0 <= 12 && 0 <= path[k].1 <= 12
}

fn patch_path_exec(i: usize) -> (v: Vec<(i32, i32)>)
    requires
        i < 16,
    ensures
        v@ == patch_path(i as int),
        path_ok(v@),
{
    let cs = patch_corners_exec(i);
    let mut v: Vec<(i32, i32)> = Vec::new();
    let mut k: usize = 0;
    while k < cs.len()
        invariant
            cs@ == patch_corners(i as int),
            k <= cs.len(),
            v@ == cs@.take(k as int).map_values(|c: u8| corner_point(c)),
        decreases cs.len() - k,
    {
        let c = cs[k];
        v.push((((c % 5) * 3) as i32, ((c / 5) * 3) as i32));
        assert(cs@.take(k + 1).map_values(|c: u8| corner_point(c)) =~= cs@.take(k as int).map_values(
            |c: u8| corner_point(c),
        ).push(corner_point(c)));
        k += 1;
    }
    assert(cs@.take(cs.len() as int) =~= cs@);
    assert(cs@.len() >= 1);
    v
}

/// Whether a ray from `(x, y)` to the right crosses the edge from `v` to
/// `w`, with the crossing's column rounded toward zero as Rust divides.
pub open spec fn crosses(x: int, y: int, v: (i32, i32), w: (i32, i32)) -> bool {
    ((v.1 > y) != (w.1 > y)) && x < v.0 + tdiv((w.0 - v.0) * (y - v.1), w.1 - v.1)
}

/// The edge that ends at corner `k` starts at the corner before it (the
/// last one, for the first).
pub open spec fn prev_corner(path: Seq<(i32, i32)>, k: int) -> (i32, i32) {
    if k == 0 {
        path.last()
    } else {
        path[k - 1]
    }
}

/// Whether a ray from `(x, y)` crosses an odd number of the first `n` edges.
pub open spec fn odd_crossings(x: int, y: int, path: Seq<(i32, i32)>, n: int) -> bool
    decreases n,
{
    if n <= 0 {
        false
    } else {
        odd_crossings(x, y, path, n - 1) != crosses(x, y, path[n - 1], prev_corner(path, n - 1))
    }
}

/// Whether `(x, y)` lies in the polygon `path` by the even-odd rule.
pub open spec fn in_path(x: int, y: int, path: Seq<(i32, i32)>) -> bool {
    odd_crossings(x, y, path, path.len() as int)
}

/// Whether `(x, y)` lies in the polygon `path` by the even-odd rule.
pub fn is_point_in_path(x: u8, y: u8, path: &Vec<(i32, i32)>) -> (r: bool)
    requires
        x <= 15,
        y <= 15,
        path_ok(path@),
    ensures
        r == in_path(x as int, y as int, path@),
{
    let num = path.len();
    let mut j: usize = num - 1;
    let mut c = false;
    let xi = x as i32;
    let yi = y as i32;
    let mut i: usize = 0;
    while i < num
        invariant
            num == path@.len(),
            path_ok(path@),
            xi == x,
            yi == y,
            x <= 15,
            y <= 15,
            i <= num,
            path@[j as int] == prev_corner(path@, i as int) || i == num,
            j < num,
            c == odd_crossings(x as int, y as int, path@, i as int),
        decreases num - i,
    {
        let (vx, vy) = path[i];
        let (wx, wy) = path[j];
        assert(path@[i as int] == (vx, vy));
        assert(path@[j as int] == (wx, wy));
        assert(0 <= vx <= 12 && 0 <= vy <= 12);
        assert(0 <= wx <= 12 && 0 <= wy <= 12);
        let mut hit = false;
        if (vy > yi) != (wy > yi) {
            assert(-200 < (wx - vx) * (yi - vy) < 200) by (nonlinear_arith)
                requires
                    -12 <= wx - vx <= 12,
                    -12 <= yi - vy <= 15,
            ;
            let q = trunc_div((wx - vx) * (yi - vy), wy - vy);
            hit = xi < vx + q;
        }
        if hit {
            c = !c;
        }
        j = i;
        i += 1;
    }
    c
}

} // verus!

verus! {

/// An image with no pixel set.
pub fn blank() -> (img: BitImage)
    ensures
        forall|q: int| position_ok(q) ==> !#[trigger] img.bit(q),
{
    assert(forall|k: u128| k < 128 ==> #[trigger] ((0u128 >> k) & 1) == 0) by (bit_vector);
    let img = BitImage { top: 0, bottom: 0 };
    assert forall|q: int| position_ok(q) implies !#[trigger] img.bit(q) by {
        if q > 127 {
            assert(((0u128 >> ((q - 127) as u128)) & 1) == 0);
        } else {
            assert(((0u128 >> (q as u128)) & 1) == 0);
        }
    }
    img
}

/// Whether raster position `p` (`x + 15 y`) is inside the polygon.
pub open spec fn shape_bit(path: Seq<(i32, i32)>, p: int) -> bool {
    0 <= p < 225 && in_path(p % 15, p / 15, path)
}

/// Rasterizes a polygon: each of the 225 pixels is set when it is inside.
pub fn generate_shape(path: &Vec<(i32, i32)>) -> (img: BitImage)
    requires
        path_ok(path@),
    ensures
        forall|q: int| position_ok(q) ==> #[trigger] img.bit(q) == shape_bit(path@, q),
{
    let mut img = blank();
    let mut p: u8 = 0;
    while p < 225
        invariant
            p <= 225,
            path_ok(path@),
            forall|q: int|
                position_ok(q) ==> #[trigger] img.bit(q) == (q < p && shape_bit(path@, q)),
        decreases 225 - p,
    {
        let x = p % 15;
        let y = p / 15;
        assert(x + 15 * y == p);
        if is_point_in_path(x, y, path) {
            img.set(x as u32, y as u32, true);
        }
        p += 1;
    }
    img
}

/// Where the outline of a pixel inside the polygon reaches sideways: to the
/// left when that neighbour is outside, else to the right when that one is.
pub open spec fn side_mark(path: Seq<(i32, i32)>, p: int) -> Option<int> {
    let x = p % 15;
    let y = p / 15;
    if x > 0 && !in_path(x - 1, y, path) {
        Some(p - 1)
    } else if x < 15 && !in_path(x + 1, y, path) {
        Some(p + 1)
    } else {
        None
    }
}

/// Where the outline of a pixel inside the polygon reaches vertically: up
/// when that neighbour is outside, else down when that one is.
pub open spec fn upright_mark(path: Seq<(i32, i32)>, p: int) -> Option<int> {
    let x = p % 15;
    let y = p / 15;
    if y > 0 && !in_path(x, y - 1, path) {
        Some(p - 15)
    } else if y < 15 && !in_path(x, y + 1, path) {
        Some(p + 15)
    } else {
        None
    }
}

/// Whether the outline drawn at pixel `p` sets position `q`: a pixel inside
/// the polygon next to one outside marks itself and that neighbour.
pub open spec fn marks(path: Seq<(i32, i32)>, p: int, q: int) -> bool {
    &&& in_path(p % 15, p / 15, path)
    &&& {
        ||| (side_mark(path, p) matches Some(m) && (q == p || q == m))
        ||| (upright_mark(path, p) matches Some(m) && (q == p || q == m))
    }
}

/// Whether position `q` is on the outline of the polygon.
pub open spec fn outline_bit(path: Seq<(i32, i32)>, q: int) -> bool {
    exists|p: int| 0 <= p < 225 && #[trigger] marks(path, p, q)
}

/// The outline of a polygon: every pixel inside it that borders one outside
/// is set together with that neighbour.
pub fn generate_outline(path: &Vec<(i32, i32)>) -> (img: BitImage)
    requires
        path_ok(path@),
    ensures
        forall|q: int| position_ok(q) ==> #[trigger] img.bit(q) == outline_bit(path@, q),
{
    let mut img = blank();
    let mut p: u8 = 0;
    while p < 225
        invariant
            p <= 225,
            path_ok(path@),
            forall|q: int|
                position_ok(q) ==> #[trigger] img.bit(q) == exists|pp: int|
                    0 <= pp < p && #[trigger] marks(path@, pp, q),
        decreases 225 - p,
    {
        let ghost before = img;
        let ghost pi = p as int;
        let x = p % 15;
        let y = p / 15;
        assert(x + 15 * y == p);
        assert(x == pi % 15 && y == pi / 15);
        if is_point_in_path(x, y, path) {
            if x > 0 && !is_point_in_path(x - 1, y, path) {
                img.set(x as u32, y as u32, true);
                img.set((x - 1) as u32, y as u32, true);
            } else if x < 15 && !is_point_in_path(x + 1, y, path) {
                img.set(x as u32, y as u32, true);
                img.set((x + 1) as u32, y as u32, true);
            }
            let ghost mid = img;
            if y > 0 && !is_point_in_path(x, y - 1, path) {
                img.set(x as u32, y as u32, true);
                img.set(x as u32, (y - 1) as u32, true);
            } else if y < 15 && !is_point_in_path(x, y + 1, path) {
                img.set(x as u32, y as u32, true);
                img.set(x as u32, (y + 1) as u32, true);
            }
            assert forall|q: int| position_ok(q) implies #[trigger] mid.bit(q) == (before.bit(q) || (
            side_mark(path@, pi) matches Some(m) && (q == pi || q == m))) by {}
            assert forall|q: int| position_ok(q) implies #[trigger] img.bit(q) == (mid.bit(q) || (
            upright_mark(path@, pi) matches Some(m) && (q == pi || q == m))) by {}
        }
        assert forall|q: int| position_ok(q) implies #[trigger] img.bit(q) == (before.bit(q)
            || marks(path@, pi, q)) by {}
        assert forall|q: int| position_ok(q) implies #[trigger] img.bit(q) == exists|pp: int|
            0 <= pp < p + 1 && #[trigger] marks(path@, pp, q) by {
            if marks(path@, pi, q) {
                assert(0 <= pi < p + 1 && marks(path@, pi, q));
            }
            if exists|pp: int| 0 <= pp < p + 1 && #[trigger] marks(path@, pp, q) {
                let pp = choose|pp: int| 0 <= pp < p + 1 && #[trigger] marks(path@, pp, q);
                if pp < p {
                    assert(before.bit(q));
                }
            }
        }
        p += 1;
    }
    img
}

} // verus!

verus! {

/// A colour.
#[derive(Clone, Copy, Debug, PartialEq, Eq, Structural)]
pub struct Rgb {
    pub r: u8,
    pub g: u8,
    pub b: u8,
}

/// An RGB image, stored row by row: pixel `(x, y)` is `pixels[y * width + x]`.
#[derive(Clone, Debug)]
pub struct Image {
    pub width: u32,
    pub height: u32,
    pub pixels: Vec<Rgb>,
}

/// The side of a rendered identicon, in pixels.
pub const AVATAR_SIZE: u32 = 53;

/// The pixel of a square identicon raster at index `i`.
pub open spec fn col(i: int) -> int {
    i % 53
}

pub open spec fn row(i: int) -> int {
    i / 53
}

/// Pixel `(x, y)` of a patch turned `turn` quarter turns reads pixel
/// `turned(turn, x, y)` of the patch's own raster.
pub open spec fn turned(turn: int, x: int, y: int) -> (int, int) {
    if turn == 0 {
        (x, y)
    } else if turn == 1 {
        (y, 14 - x)
    } else if turn == 2 {
        (14 - x, 14 - y)
    } else {
        (14 - y, x)
    }
}

/// The colour of pixel `(x, y)` of patch `k` drawn with `turn` quarter
/// turns: the stroke on the outline (when there is a stroke), else the fill
/// inside the polygon and the background outside it, the two swapped when
/// the patch is inverted.
pub open spec fn patch_pixel(
    k: int,
    turn: int,
    invert: bool,
    fill: Rgb,
    stroke: Option<Rgb>,
    background: Rgb,
    x: int,
    y: int,
) -> Rgb {
    let (sx, sy) = turned(turn, x, y);
    let p = sx + 15 * sy;
    let path = patch_path(k);
    if stroke is Some && outline_bit(path, p) {
        stroke->0
    } else if shape_bit(path, p) != invert {
        fill
    } else {
        background
    }
}

/// Whether a patch is drawn inverted: its own flag (only the last patch has
/// one) flips the inversion asked for.
pub open spec fn patch_inverted(k: int, invert: bool) -> bool {
    if k == 15 {
        !invert
    } else {
        invert
    }
}

/// The raster `img` with patch `patch` (taken modulo 16) drawn at `(x0, y0)`,
/// turned `turn` (modulo 4) quarter turns.
pub open spec fn draw_patch_spec(
    img: Seq<Rgb>,
    x0: int,
    y0: int,
    patch: int,
    turn: int,
    invert: bool,
    fill: Rgb,
    stroke: Option<Rgb>,
    background: Rgb,
) -> Seq<Rgb> {
    let k = patch % 16;
    Seq::new(
        img.len(),
        |i: int|
            if x0 <= col(i) < x0 + 15 && y0 <= row(i) < y0 + 15 {
                patch_pixel(
                    k,
                    turn % 4,
                    patch_inverted(k, invert),
                    fill,
                    stroke,
                    background,
                    col(i) - x0,
                    row(i) - y0,
                )
            } else {
                img[i]
            },
    )
}

/// The rasters of the 16 patches and of their outlines.
pub open spec fn tables_ok(shapes: Seq<BitImage>, outlines: Seq<BitImage>) -> bool {
    &&& shapes.len() == 16
    &&& outlines.len() == 16
    &&& forall|k: int, q: int|
        0 <= k < 16 && position_ok(q) ==> #[trigger] shapes[k].bit(q) == shape_bit(
            patch_path(k),
            q,
        )
    &&& forall|k: int, q: int|
        0 <= k < 16 && position_ok(q) ==> #[trigger] outlines[k].bit(q) == outline_bit(
            patch_path(k),
            q,
        )
}

/// Rasterizes the 16 patches and their outlines.
pub fn patch_tables() -> (res: (Vec<BitImage>, Vec<BitImage>))
    ensures
        tables_ok(res.0@, res.1@),
{
    let mut shapes: Vec<BitImage> = Vec::new();
    let mut outlines: Vec<BitImage> = Vec::new();
    let mut k: usize = 0;
    while k < 16
        invariant
            k <= 16,
            shapes@.len() == k,
            outlines@.len() == k,
            forall|j: int, q: int|
                0 <= j < k && position_ok(q) ==> #[trigger] shapes@[j].bit(q) == shape_bit(
                    patch_path(j),
                    q,
                ),
            forall|j: int, q: int|
                0 <= j < k && position_ok(q) ==> #[trigger] outlines@[j].bit(q) == outline_bit(
                    patch_path(j),
                    q,
                ),
        decreases 16 - k,
    {
        let path = patch_path_exec(k);
        shapes.push(generate_shape(&path));
        outlines.push(generate_outline(&path));
        k += 1;
    }
    (shapes, outlines)
}

/// The raster `img` with the first `t` pixels of a patch drawn at
/// `(x0, y0)`, pixel `(lx, ly)` of the patch being number `15 ly + lx`.
pub open spec fn drawn_prefix(
    img: Seq<Rgb>,
    x0: int,
    y0: int,
    k: int,
    turn: int,
    inverted: bool,
    fill: Rgb,
    stroke: Option<Rgb>,
    background: Rgb,
    t: int,
) -> Seq<Rgb> {
    Seq::new(
        img.len(),
        |i: int|
            if x0 <= col(i) < x0 + 15 && y0 <= row(i) < y0 + 15 && (row(i) - y0) * 15 + (col(i)
                - x0) < t {
                patch_pixel(k, turn, inverted, fill, stroke, background, col(i) - x0, row(i) - y0)
            } else {
                img[i]
            },
    )
}

#[verifier::spinoff_prover]
#[verifier::rlimit(40)]
proof fn lemma_drawn_step(
    img: Seq<Rgb>,
    x0: int,
    y0: int,
    k: int,
    turn: int,
    inverted: bool,
    fill: Rgb,
    stroke: Option<Rgb>,
    background: Rgb,
    t: int,
)
    requires
        img.len() == 53 * 53,
        0 <= x0,
        0 <= y0,
        x0 + 15 <= 53,
        y0 + 15 <= 53,
        0 <= t < 225,
    ensures
        ({
            let idx = (y0 + t / 15) * 53 + (x0 + t % 15);
            &&& 0 <= idx < 53 * 53
            &&& col(idx) == x0 + t % 15
            &&& row(idx) == y0 + t / 15
            &&& drawn_prefix(img, x0, y0, k, turn, inverted, fill, stroke, background, t + 1)
                == drawn_prefix(img, x0, y0, k, turn, inverted, fill, stroke, background, t).update(
                idx,
                patch_pixel(k, turn, inverted, fill, stroke, background, t % 15, t / 15),
            )
        }),
{
    let lx = t % 15;
    let ly = t / 15;
    let idx = (y0 + ly) * 53 + (x0 + lx);
    assert(col(idx) == x0 + lx && row(idx) == y0 + ly);
    let a = drawn_prefix(img, x0, y0, k, turn, inverted, fill, stroke, background, t + 1);
    let b = drawn_prefix(img, x0, y0, k, turn, inverted, fill, stroke, background, t).update(
        idx,
        patch_pixel(k, turn, inverted, fill, stroke, background, lx, ly),
    );
    assert forall|i: int| 0 <= i < a.len() implies a[i] == b[i] by {
        if i != idx {
            if x0 <= col(i) < x0 + 15 && y0 <= row(i) < y0 + 15 && (row(i) - y0) * 15 + (col(i)
                - x0) == t {
                assert(col(i) - x0 == lx && row(i) - y0 == ly);
                assert(i == row(i) * 53 + col(i));
            }
        }
    }
    assert(a =~= b);
}

/// Draws patch `patch` (taken modulo 16) at `(x, y)`, turned `turn` (modulo
/// 4) quarter turns, on a square identicon raster.
fn draw_patch(
    img: &mut Vec<Rgb>,
    tables: &(Vec<BitImage>, Vec<BitImage>),
    x: u32,
    y: u32,
    patch: u32,
    turn: u32,
    invert: bool,
    fill: Rgb,
    stroke: Option<Rgb>,
    background: Rgb,
)
    requires
        old(img)@.len() == 53 * 53,
        tables_ok(tables.0@, tables.1@),
        x + 15 <= 53,
        y + 15 <= 53,
    ensures
        final(img)@ == draw_patch_spec(
            old(img)@,
            x as int,
            y as int,
            patch as int,
            turn as int,
            invert,
            fill,
            stroke,
            background,
        ),
{
    let k = patch % 16;
    let turn = turn % 4;
    let inv = if k == 15 {
        !invert
    } else {
        invert
    };
    let ghost old_img = img@;
    let shape = tables.0[k as usize];
    let outline = tables.1[k as usize];
    let mut t: u32 = 0;
    assert(drawn_prefix(old_img, x as int, y as int, k as int, turn as int, inv, fill, stroke, background, 0) =~= old_img);
    while t < 225
        invariant
            t <= 225,
            k < 16,
            turn < 4,
            x + 15 <= 53,
            y + 15 <= 53,
            tables_ok(tables.0@, tables.1@),
            shape == tables.0@[k as int],
            outline == tables.1@[k as int],
            old_img.len() == 53 * 53,
            img@ == drawn_prefix(old_img, x as int, y as int, k as int, turn as int, inv, fill, stroke, background, t as int),
        decreases 225 - t,
    {
        let lx = t % 15;
        let ly = t / 15;
        let (sx, sy) = if turn == 0 {
            (lx, ly)
        } else if turn == 1 {
            (ly, 14 - lx)
        } else if turn == 2 {
            (14 - lx, 14 - ly)
        } else {
            (14 - ly, lx)
        };
        assert((sx as int, sy as int) == turned(turn as int, lx as int, ly as int));
        let on = shape.get(sx, sy);
        let color = match stroke {
            Some(s) if outline.get(sx, sy) => s,
            _ => if on != inv {
                fill
            } else {
                background
            },
        };
        assert(color == patch_pixel(k as int, turn as int, inv, fill, stroke, background, lx as int, ly as int));
        proof {
            lemma_drawn_step(old_img, x as int, y as int, k as int, turn as int, inv, fill, stroke, background, t as int);
        }
        let idx: usize = ((y + ly) * 53 + (x + lx)) as usize;
        img.set(idx, color);
        t += 1;
    }
    assert(drawn_prefix(old_img, x as int, y as int, k as int, turn as int, inv, fill, stroke, background, 225)
        =~= draw_patch_spec(old_img, x as int, y as int, patch as int, turn as int, invert, fill, stroke, background));
}
} // verus!

verus! {

/// The patch types that the middle can have.
pub open spec fn center_patch(i: int) -> u32 {
    if i == 0 {
        0
    } else if i == 1 {
        4
    } else if i == 2 {
        8
    } else {
        15
    }
}

/// The complementary colour.
pub open spec fn complementary(c: Rgb) -> Rgb {
    Rgb { r: (255 - c.r) as u8, g: (255 - c.g) as u8, b: (255 - c.b) as u8 }
}

/// The complementary colour.
pub fn get_complementary_color(c: Rgb) -> (r: Rgb)
    ensures
        r == complementary(c),
{
    Rgb { r: 255 - c.r, g: 255 - c.g, b: 255 - c.b }
}

/// The square of the distance between two colours.
pub open spec fn color_distance_squared(a: Rgb, b: Rgb) -> int {
    (a.r - b.r) * (a.r - b.r) + (a.g - b.g) * (a.g - b.g) + (a.b - b.b) * (a.b - b.b)
}

/// The square of the distance between two colours.
pub fn get_color_distance_squared(a: Rgb, b: Rgb) -> (d: u32)
    ensures
        d == color_distance_squared(a, b),
{
    let dr: i32 = a.r as i32 - b.r as i32;
    let dg: i32 = a.g as i32 - b.g as i32;
    let db: i32 = a.b as i32 - b.b as i32;
    assert(0 <= dr * dr <= 65025) by (nonlinear_arith)
        requires
            -255 <= dr <= 255,
    ;
    assert(0 <= dg * dg <= 65025) by (nonlinear_arith)
        requires
            -255 <= dg <= 255,
    ;
    assert(0 <= db * db <= 65025) by (nonlinear_arith)
        requires
            -255 <= db <= 255,
    ;
    (dr * dr + dg * dg + db * db) as u32
}

/// The white background.
pub open spec fn white() -> Rgb {
    Rgb { r: 255, g: 255, b: 255 }
}

/// The fill colour of a code: five bits each of red, green and blue.
pub open spec fn fill_of(code: u32) -> Rgb {
    Rgb {
        r: (((code >> 27u32) & 0x1f) << 3u32) as u8,
        g: (((code >> 21u32) & 0x1f) << 3u32) as u8,
        b: (((code >> 16u32) & 0x1f) << 3u32) as u8,
    }
}

/// The outline colour: the complement of the fill, when the fill is too
/// close to the white background (closer than 32, that is a squared
/// distance under 1024); no outline otherwise.
pub open spec fn stroke_of(code: u32) -> Option<Rgb> {
    if color_distance_squared(fill_of(code), white()) < 1024 {
        Some(complementary(fill_of(code)))
    } else {
        None
    }
}

/// The raster of an identicon: white, then the middle patch, the four side
/// patches clockwise from the top, and the four corner patches clockwise
/// from the top left, each turned one quarter more than the one before.
pub open spec fn avatar_raster(code: u32) -> Seq<Rgb> {
    let middle_type = center_patch((code & 3) as int);
    let middle_invert = ((code >> 2u32) & 1) != 0;
    let corner_type = (code >> 3u32) & 0xf;
    let corner_invert = ((code >> 7u32) & 1) != 0;
    let corner_turn = (code >> 8u32) & 3;
    let side_type = (code >> 10u32) & 0xf;
    let side_invert = ((code >> 14u32) & 1) != 0;
    let side_turn = (code >> 15u32) & 3;
    let fill = fill_of(code);
    let stroke = stroke_of(code);
    let bg = white();
    let s0 = Seq::new(53 * 53, |i: int| white());
    let s1 = draw_patch_spec(s0, 19, 19, middle_type as int, 0, middle_invert, fill, stroke, bg);
    let s2 = draw_patch_spec(s1, 19, 2, side_type as int, side_turn as int, side_invert, fill, stroke, bg);
    let s3 = draw_patch_spec(s2, 36, 19, side_type as int, side_turn + 1, side_invert, fill, stroke, bg);
    let s4 = draw_patch_spec(s3, 19, 36, side_type as int, side_turn + 2, side_invert, fill, stroke, bg);
    let s5 = draw_patch_spec(s4, 2, 19, side_type as int, side_turn + 3, side_invert, fill, stroke, bg);
    let s6 = draw_patch_spec(s5, 2, 2, corner_type as int, corner_turn as int, corner_invert, fill, stroke, bg);
    let s7 = draw_patch_spec(s6, 36, 2, corner_type as int, corner_turn + 1, corner_invert, fill, stroke, bg);
    let s8 = draw_patch_spec(s7, 36, 36, corner_type as int, corner_turn + 2, corner_invert, fill, stroke, bg);
    draw_patch_spec(s8, 2, 36, corner_type as int, corner_turn + 3, corner_invert, fill, stroke, bg)
}

/// The colour of pixel `(x, y)` of the identicon of `code`.
pub open spec fn avatar_pixel(code: u32, x: int, y: int) -> Rgb {
    avatar_raster(code)[y * 53 + x]
}

/// The column and row of a pixel's index.
proof fn lemma_col_row(x: int, y: int)
    requires
        0 <= x < 53,
        0 <= y < 53,
    ensures
        col(y * 53 + x) == x,
        row(y * 53 + x) == y,
        0 <= y * 53 + x < 53 * 53,
{
    vstd::arithmetic::div_mod::lemma_fundamental_div_mod_converse(y * 53 + x, 53, y, x);
    assert(y * 53 + x < 53 * 53) by (nonlinear_arith)
        requires
            0 <= x < 53,
            0 <= y < 53,
    ;
}

/// Turning a patch one quarter more reads pixel `(x, y)` where it read
/// `(y, 14 - x)` before.
proof fn lemma_turned_once_more(t: int, x: int, y: int)
    requires
        t >= 0,
    ensures
        turned((t + 1) % 4, x, y) == turned(t % 4, y, 14 - x),
{
}

/// Pixel `(x, y)` of a patch drawn at `(x0, y0)`, when no later patch covers
/// it.
proof fn lemma_patch_at(
    img: Seq<Rgb>,
    x0: int,
    y0: int,
    patch: int,
    turn: int,
    invert: bool,
    fill: Rgb,
    stroke: Option<Rgb>,
    background: Rgb,
    x: int,
    y: int,
)
    requires
        img.len() == 53 * 53,
        0 <= x0,
        0 <= y0,
        x0 + 15 <= 53,
        y0 + 15 <= 53,
        0 <= x < 15,
        0 <= y < 15,
    ensures
        draw_patch_spec(img, x0, y0, patch, turn, invert, fill, stroke, background)[(y0 + y) * 53
            + x0 + x] == patch_pixel(
            patch % 16,
            turn % 4,
            patch_inverted(patch % 16, invert),
            fill,
            stroke,
            background,
            x,
            y,
        ),
        draw_patch_spec(img, x0, y0, patch, turn, invert, fill, stroke, background).len() == 53
            * 53,
{
    lemma_col_row(x0 + x, y0 + y);
}

/// A patch drawn at `(x0, y0)` leaves a pixel outside its square as it was.
proof fn lemma_patch_elsewhere(
    img: Seq<Rgb>,
    x0: int,
    y0: int,
    patch: int,
    turn: int,
    invert: bool,
    fill: Rgb,
    stroke: Option<Rgb>,
    background: Rgb,
    px: int,
    py: int,
)
    requires
        img.len() == 53 * 53,
        0 <= px < 53,
        0 <= py < 53,
        !(x0 <= px < x0 + 15 && y0 <= py < y0 + 15),
    ensures
        draw_patch_spec(img, x0, y0, patch, turn, invert, fill, stroke, background)[py * 53 + px]
            == img[py * 53 + px],
        draw_patch_spec(img, x0, y0, patch, turn, invert, fill, stroke, background).len() == 53
            * 53,
{
    lemma_col_row(px, py);
}

/// The right side patch is the patch before it turned a quarter turn.
#[verifier::spinoff_prover]
#[verifier::rlimit(60)]
proof fn lemma_turn_right_side(code: u32, x: int, y: int)
    requires
        0 <= x < 15,
        0 <= y < 15,
    ensures
        avatar_pixel(code, 36 + x, 19 + y) == avatar_pixel(code, 19 + y, 2 + (14 - x)),
{
    let middle_type = center_patch((code & 3) as int);
    let middle_invert = ((code >> 2u32) & 1) != 0;
    let corner_type = (code >> 3u32) & 0xf;
    let corner_invert = ((code >> 7u32) & 1) != 0;
    let corner_turn = (code >> 8u32) & 3;
    let side_type = (code >> 10u32) & 0xf;
    let side_invert = ((code >> 14u32) & 1) != 0;
    let side_turn = (code >> 15u32) & 3;
    let fill = fill_of(code);
    let stroke = stroke_of(code);
    let bg = white();
    let s0 = Seq::new(53 * 53, |i: int| white());
    let s1 = draw_patch_spec(s0, 19, 19, middle_type as int, 0, middle_invert, fill, stroke, bg);
    let s2 = draw_patch_spec(s1, 19, 2, side_type as int, side_turn as int, side_invert, fill, stroke, bg);
    let s3 = draw_patch_spec(s2, 36, 19, side_type as int, side_turn + 1, side_invert, fill, stroke, bg);
    let s4 = draw_patch_spec(s3, 19, 36, side_type as int, side_turn + 2, side_invert, fill, stroke, bg);
    let s5 = draw_patch_spec(s4, 2, 19, side_type as int, side_turn + 3, side_invert, fill, stroke, bg);
    let s6 = draw_patch_spec(s5, 2, 2, corner_type as int, corner_turn as int, corner_invert, fill, stroke, bg);
    let s7 = draw_patch_spec(s6, 36, 2, corner_type as int, corner_turn + 1, corner_invert, fill, stroke, bg);
    let s8 = draw_patch_spec(s7, 36, 36, corner_type as int, corner_turn + 2, corner_invert, fill, stroke, bg);
    let s9 = draw_patch_spec(s8, 2, 36, corner_type as int, corner_turn + 3, corner_invert, fill, stroke, bg);
    assert(avatar_raster(code) == s9);
    lemma_turned_once_more(side_turn as int, x, y);
    lemma_patch_at(s2, 36, 19, side_type as int, side_turn + 1, side_invert, fill, stroke, bg, 36 + x - 36, 19 + y - 19);
    lemma_patch_elsewhere(s3, 19, 36, side_type as int, side_turn + 2, side_invert, fill, stroke, bg, 36 + x, 19 + y);
    lemma_patch_elsewhere(s4, 2, 19, side_type as int, side_turn + 3, side_invert, fill, stroke, bg, 36 + x, 19 + y);
    lemma_patch_elsewhere(s5, 2, 2, corner_type as int, corner_turn as int, corner_invert, fill, stroke, bg, 36 + x, 19 + y);
    lemma_patch_elsewhere(s6, 36, 2, corner_type as int, corner_turn + 1, corner_invert, fill, stroke, bg, 36 + x, 19 + y);
    lemma_patch_elsewhere(s7, 36, 36, corner_type as int, corner_turn + 2, corner_invert, fill, stroke, bg, 36 + x, 19 + y);
    lemma_patch_elsewhere(s8, 2, 36, corner_type as int, corner_turn + 3, corner_invert, fill, stroke, bg, 36 + x, 19 + y);
    lemma_patch_at(s1, 19, 2, side_type as int, side_turn as int, side_invert, fill, stroke, bg, 19 + y - 19, 2 + (14 - x) - 2);
    lemma_patch_elsewhere(s2, 36, 19, side_type as int, side_turn + 1, side_invert, fill, stroke, bg, 19 + y, 2 + (14 - x));
    lemma_patch_elsewhere(s3, 19, 36, side_type as int, side_turn + 2, side_invert, fill, stroke, bg, 19 + y, 2 + (14 - x));
    lemma_patch_elsewhere(s4, 2, 19, side_type as int, side_turn + 3, side_invert, fill, stroke, bg, 19 + y, 2 + (14 - x));
    lemma_patch_elsewhere(s5, 2, 2, corner_type as int, corner_turn as int, corner_invert, fill, stroke, bg, 19 + y, 2 + (14 - x));
    lemma_patch_elsewhere(s6, 36, 2, corner_type as int, corner_turn + 1, corner_invert, fill, stroke, bg, 19 + y, 2 + (14 - x));
    lemma_patch_elsewhere(s7, 36, 36, corner_type as int, corner_turn + 2, corner_invert, fill, stroke, bg, 19 + y, 2 + (14 - x));
    lemma_patch_elsewhere(s8, 2, 36, corner_type as int, corner_turn + 3, corner_invert, fill, stroke, bg, 19 + y, 2 + (14 - x));
}

/// The bottom side patch is the patch before it turned a quarter turn.
#[verifier::spinoff_prover]
#[verifier::rlimit(60)]
proof fn lemma_turn_bottom_side(code: u32, x: int, y: int)
    requires
        0 <= x < 15,
        0 <= y < 15,
    ensures
        avatar_pixel(code, 19 + x, 36 + y) == avatar_pixel(code, 36 + y, 19 + (14 - x)),
{
    let middle_type = center_patch((code & 3) as int);
    let middle_invert = ((code >> 2u32) & 1) != 0;
    let corner_type = (code >> 3u32) & 0xf;
    let corner_invert = ((code >> 7u32) & 1) != 0;
    let corner_turn = (code >> 8u32) & 3;
    let side_type = (code >> 10u32) & 0xf;
    let side_invert = ((code >> 14u32) & 1) != 0;
    let side_turn = (code >> 15u32) & 3;
    let fill = fill_of(code);
    let stroke = stroke_of(code);
    let bg = white();
    let s0 = Seq::new(53 * 53, |i: int| white());
    let s1 = draw_patch_spec(s0, 19, 19, middle_type as int, 0, middle_invert, fill, stroke, bg);
    let s2 = draw_patch_spec(s1, 19, 2, side_type as int, side_turn as int, side_invert, fill, stroke, bg);
    let s3 = draw_patch_spec(s2, 36, 19, side_type as int, side_turn + 1, side_invert, fill, stroke, bg);
    let s4 = draw_patch_spec(s3, 19, 36, side_type as int, side_turn + 2, side_invert, fill, stroke, bg);
    let s5 = draw_patch_spec(s4, 2, 19, side_type as int, side_turn + 3, side_invert, fill, stroke, bg);
    let s6 = draw_patch_spec(s5, 2, 2, corner_type as int, corner_turn as int, corner_invert, fill, stroke, bg);
    let s7 = draw_patch_spec(s6, 36, 2, corner_type as int, corner_turn + 1, corner_invert, fill, stroke, bg);
    let s8 = draw_patch_spec(s7, 36, 36, corner_type as int, corner_turn + 2, corner_invert, fill, stroke, bg);
    let s9 = draw_patch_spec(s8, 2, 36, corner_type as int, corner_turn + 3, corner_invert, fill, stroke, bg);
    assert(avatar_raster(code) == s9);
    lemma_turned_once_more(side_turn + 1, x, y);
    lemma_patch_at(s3, 19, 36, side_type as int, side_turn + 2, side_invert, fill, stroke, bg, 19 + x - 19, 36 + y - 36);
    lemma_patch_elsewhere(s4, 2, 19, side_type as int, side_turn + 3, side_invert, fill, stroke, bg, 19 + x, 36 + y);
    lemma_patch_elsewhere(s5, 2, 2, corner_type as int, corner_turn as int, corner_invert, fill, stroke, bg, 19 + x, 36 + y);
    lemma_patch_elsewhere(s6, 36, 2, corner_type as int, corner_turn + 1, corner_invert, fill, stroke, bg, 19 + x, 36 + y);
    lemma_patch_elsewhere(s7, 36, 36, corner_type as int, corner_turn + 2, corner_invert, fill, stroke, bg, 19 + x, 36 + y);
    lemma_patch_elsewhere(s8, 2, 36, corner_type as int, corner_turn + 3, corner_invert, fill, stroke, bg, 19 + x, 36 + y);
    lemma_patch_at(s2, 36, 19, side_type as int, side_turn + 1, side_invert, fill, stroke, bg, 36 + y - 36, 19 + (14 - x) - 19);
    lemma_patch_elsewhere(s3, 19, 36, side_type as int, side_turn + 2, side_invert, fill, stroke, bg, 36 + y, 19 + (14 - x));
    lemma_patch_elsewhere(s4, 2, 19, side_type as int, side_turn + 3, side_invert, fill, stroke, bg, 36 + y, 19 + (14 - x));
    lemma_patch_elsewhere(s5, 2, 2, corner_type as int, corner_turn as int, corner_invert, fill, stroke, bg, 36 + y, 19 + (14 - x));
    lemma_patch_elsewhere(s6, 36, 2, corner_type as int, corner_turn + 1, corner_invert, fill, stroke, bg, 36 + y, 19 + (14 - x));
    lemma_patch_elsewhere(s7, 36, 36, corner_type as int, corner_turn + 2, corner_invert, fill, stroke, bg, 36 + y, 19 + (14 - x));
    lemma_patch_elsewhere(s8, 2, 36, corner_type as int, corner_turn + 3, corner_invert, fill, stroke, bg, 36 + y, 19 + (14 - x));
}

/// The left side patch is the patch before it turned a quarter turn.
#[verifier::spinoff_prover]
#[verifier::rlimit(60)]
proof fn lemma_turn_left_side(code: u32, x: int, y: int)
    requires
        0 <= x < 15,
        0 <= y < 15,
    ensures
        avatar_pixel(code, 2 + x, 19 + y) == avatar_pixel(code, 19 + y, 36 + (14 - x)),
{
    let middle_type = center_patch((code & 3) as int);
    let middle_invert = ((code >> 2u32) & 1) != 0;
    let corner_type = (code >> 3u32) & 0xf;
    let corner_invert = ((code >> 7u32) & 1) != 0;
    let corner_turn = (code >> 8u32) & 3;
    let side_type = (code >> 10u32) & 0xf;
    let side_invert = ((code >> 14u32) & 1) != 0;
    let side_turn = (code >> 15u32) & 3;
    let fill = fill_of(code);
    let stroke = stroke_of(code);
    let bg = white();
    let s0 = Seq::new(53 * 53, |i: int| white());
    let s1 = draw_patch_spec(s0, 19, 19, middle_type as int, 0, middle_invert, fill, stroke, bg);
    let s2 = draw_patch_spec(s1, 19, 2, side_type as int, side_turn as int, side_invert, fill, stroke, bg);
    let s3 = draw_patch_spec(s2, 36, 19, side_type as int, side_turn + 1, side_invert, fill, stroke, bg);
    let s4 = draw_patch_spec(s3, 19, 36, side_type as int, side_turn + 2, side_invert, fill, stroke, bg);
    let s5 = draw_patch_spec(s4, 2, 19, side_type as int, side_turn + 3, side_invert, fill, stroke, bg);
    let s6 = draw_patch_spec(s5, 2, 2, corner_type as int, corner_turn as int, corner_invert, fill, stroke, bg);
    let s7 = draw_patch_spec(s6, 36, 2, corner_type as int, corner_turn + 1, corner_invert, fill, stroke, bg);
    let s8 = draw_patch_spec(s7, 36, 36, corner_type as int, corner_turn + 2, corner_invert, fill, stroke, bg);
    let s9 = draw_patch_spec(s8, 2, 36, corner_type as int, corner_turn + 3, corner_invert, fill, stroke, bg);
    assert(avatar_raster(code) == s9);
    lemma_turned_once_more(side_turn + 2, x, y);
    lemma_patch_at(s4, 2, 19, side_type as int, side_turn + 3, side_invert, fill, stroke, bg, 2 + x - 2, 19 + y - 19);
    lemma_patch_elsewhere(s5, 2, 2, corner_type as int, corner_turn as int, corner_invert, fill, stroke, bg, 2 + x, 19 + y);
    lemma_patch_elsewhere(s6, 36, 2, corner_type as int, corner_turn + 1, corner_invert, fill, stroke, bg, 2 + x, 19 + y);
    lemma_patch_elsewhere(s7, 36, 36, corner_type as int, corner_turn + 2, corner_invert, fill, stroke, bg, 2 + x, 19 + y);
    lemma_patch_elsewhere(s8, 2, 36, corner_type as int, corner_turn + 3, corner_invert, fill, stroke, bg, 2 + x, 19 + y);
    lemma_patch_at(s3, 19, 36, side_type as int, side_turn + 2, side_invert, fill, stroke, bg, 19 + y - 19, 36 + (14 - x) - 36);
    lemma_patch_elsewhere(s4, 2, 19, side_type as int, side_turn + 3, side_invert, fill, stroke, bg, 19 + y, 36 + (14 - x));
    lemma_patch_elsewhere(s5, 2, 2, corner_type as int, corner_turn as int, corner_invert, fill, stroke, bg, 19 + y, 36 + (14 - x));
    lemma_patch_elsewhere(s6, 36, 2, corner_type as int, corner_turn + 1, corner_invert, fill, stroke, bg, 19 + y, 36 + (14 - x));
    lemma_patch_elsewhere(s7, 36, 36, corner_type as int, corner_turn + 2, corner_invert, fill, stroke, bg, 19 + y, 36 + (14 - x));
    lemma_patch_elsewhere(s8, 2, 36, corner_type as int, corner_turn + 3, corner_invert, fill, stroke, bg, 19 + y, 36 + (14 - x));
}

/// The top right corner patch is the patch before it turned a quarter turn.
#[verifier::spinoff_prover]
#[verifier::rlimit(60)]
proof fn lemma_turn_top_right_corner(code: u32, x: int, y: int)
    requires
        0 <= x < 15,
        0 <= y < 15,
    ensures
        avatar_pixel(code, 36 + x, 2 + y) == avatar_pixel(code, 2 + y, 2 + (14 - x)),
{
    let middle_type = center_patch((code & 3) as int);
    let middle_invert = ((code >> 2u32) & 1) != 0;
    let corner_type = (code >> 3u32) & 0xf;
    let corner_invert = ((code >> 7u32) & 1) != 0;
    let corner_turn = (code >> 8u32) & 3;
    let side_type = (code >> 10u32) & 0xf;
    let side_invert = ((code >> 14u32) & 1) != 0;
    let side_turn = (code >> 15u32) & 3;
    let fill = fill_of(code);
    let stroke = stroke_of(code);
    let bg = white();
    let s0 = Seq::new(53 * 53, |i: int| white());
    let s1 = draw_patch_spec(s0, 19, 19, middle_type as int, 0, middle_invert, fill, stroke, bg);
    let s2 = draw_patch_spec(s1, 19, 2, side_type as int, side_turn as int, side_invert, fill, stroke, bg);
    let s3 = draw_patch_spec(s2, 36, 19, side_type as int, side_turn + 1, side_invert, fill, stroke, bg);
    let s4 = draw_patch_spec(s3, 19, 36, side_type as int, side_turn + 2, side_invert, fill, stroke, bg);
    let s5 = draw_patch_spec(s4, 2, 19, side_type as int, side_turn + 3, side_invert, fill, stroke, bg);
    let s6 = draw_patch_spec(s5, 2, 2, corner_type as int, corner_turn as int, corner_invert, fill, stroke, bg);
    let s7 = draw_patch_spec(s6, 36, 2, corner_type as int, corner_turn + 1, corner_invert, fill, stroke, bg);
    let s8 = draw_patch_spec(s7, 36, 36, corner_type as int, corner_turn + 2, corner_invert, fill, stroke, bg);
    let s9 = draw_patch_spec(s8, 2, 36, corner_type as int, corner_turn + 3, corner_invert, fill, stroke, bg);
    assert(avatar_raster(code) == s9);
    lemma_turned_once_more(corner_turn as int, x, y);
    lemma_patch_at(s6, 36, 2, corner_type as int, corner_turn + 1, corner_invert, fill, stroke, bg, 36 + x - 36, 2 + y - 2);
    lemma_patch_elsewhere(s7, 36, 36, corner_type as int, corner_turn + 2, corner_invert, fill, stroke, bg, 36 + x, 2 + y);
    lemma_patch_elsewhere(s8, 2, 36, corner_type as int, corner_turn + 3, corner_invert, fill, stroke, bg, 36 + x, 2 + y);
    lemma_patch_at(s5, 2, 2, corner_type as int, corner_turn as int, corner_invert, fill, stroke, bg, 2 + y - 2, 2 + (14 - x) - 2);
    lemma_patch_elsewhere(s6, 36, 2, corner_type as int, corner_turn + 1, corner_invert, fill, stroke, bg, 2 + y, 2 + (14 - x));
    lemma_patch_elsewhere(s7, 36, 36, corner_type as int, corner_turn + 2, corner_invert, fill, stroke, bg, 2 + y, 2 + (14 - x));
    lemma_patch_elsewhere(s8, 2, 36, corner_type as int, corner_turn + 3, corner_invert, fill, stroke, bg, 2 + y, 2 + (14 - x));
}

/// The bottom right corner patch is the patch before it turned a quarter turn.
#[verifier::spinoff_prover]
#[verifier::rlimit(60)]
proof fn lemma_turn_bottom_right_corner(code: u32, x: int, y: int)
    requires
        0 <= x < 15,
        0 <= y < 15,
    ensures
        avatar_pixel(code, 36 + x, 36 + y) == avatar_pixel(code, 36 + y, 2 + (14 - x)),
{
    let middle_type = center_patch((code & 3) as int);
    let middle_invert = ((code >> 2u32) & 1) != 0;
    let corner_type = (code >> 3u32) & 0xf;
    let corner_invert = ((code >> 7u32) & 1) != 0;
    let corner_turn = (code >> 8u32) & 3;
    let side_type = (code >> 10u32) & 0xf;
    let side_invert = ((code >> 14u32) & 1) != 0;
    let side_turn = (code >> 15u32) & 3;
    let fill = fill_of(code);
    let stroke = stroke_of(code);
    let bg = white();
    let s0 = Seq::new(53 * 53, |i: int| white());
    let s1 = draw_patch_spec(s0, 19, 19, middle_type as int, 0, middle_invert, fill, stroke, bg);
    let s2 = draw_patch_spec(s1, 19, 2, side_type as int, side_turn as int, side_invert, fill, stroke, bg);
    let s3 = draw_patch_spec(s2, 36, 19, side_type as int, side_turn + 1, side_invert, fill, stroke, bg);
    let s4 = draw_patch_spec(s3, 19, 36, side_type as int, side_turn + 2, side_invert, fill, stroke, bg);
    let s5 = draw_patch_spec(s4, 2, 19, side_type as int, side_turn + 3, side_invert, fill, stroke, bg);
    let s6 = draw_patch_spec(s5, 2, 2, corner_type as int, corner_turn as int, corner_invert, fill, stroke, bg);
    let s7 = draw_patch_spec(s6, 36, 2, corner_type as int, corner_turn + 1, corner_invert, fill, stroke, bg);
    let s8 = draw_patch_spec(s7, 36, 36, corner_type as int, corner_turn + 2, corner_invert, fill, stroke, bg);
    let s9 = draw_patch_spec(s8, 2, 36, corner_type as int, corner_turn + 3, corner_invert, fill, stroke, bg);
    assert(avatar_raster(code) == s9);
    lemma_turned_once_more(corner_turn + 1, x, y);
    lemma_patch_at(s7, 36, 36, corner_type as int, corner_turn + 2, corner_invert, fill, stroke, bg, 36 + x - 36, 36 + y - 36);
    lemma_patch_elsewhere(s8, 2, 36, corner_type as int, corner_turn + 3, corner_invert, fill, stroke, bg, 36 + x, 36 + y);
    lemma_patch_at(s6, 36, 2, corner_type as int, corner_turn + 1, corner_invert, fill, stroke, bg, 36 + y - 36, 2 + (14 - x) - 2);
    lemma_patch_elsewhere(s7, 36, 36, corner_type as int, corner_turn + 2, corner_invert, fill, stroke, bg, 36 + y, 2 + (14 - x));
    lemma_patch_elsewhere(s8, 2, 36, corner_type as int, corner_turn + 3, corner_invert, fill, stroke, bg, 36 + y, 2 + (14 - x));
}

/// The bottom left corner patch is the patch before it turned a quarter turn.
#[verifier::spinoff_prover]
#[verifier::rlimit(60)]
proof fn lemma_turn_bottom_left_corner(code: u32, x: int, y: int)
    requires
        0 <= x < 15,
        0 <= y < 15,
    ensures
        avatar_pixel(code, 2 + x, 36 + y) == avatar_pixel(code, 36 + y, 36 + (14 - x)),
{
    let middle_type = center_patch((code & 3) as int);
    let middle_invert = ((code >> 2u32) & 1) != 0;
    let corner_type = (code >> 3u32) & 0xf;
    let corner_invert = ((code >> 7u32) & 1) != 0;
    let corner_turn = (code >> 8u32) & 3;
    let side_type = (code >> 10u32) & 0xf;
    let side_invert = ((code >> 14u32) & 1) != 0;
    let side_turn = (code >> 15u32) & 3;
    let fill = fill_of(code);
    let stroke = stroke_of(code);
    let bg = white();
    let s0 = Seq::new(53 * 53, |i: int| white());
    let s1 = draw_patch_spec(s0, 19, 19, middle_type as int, 0, middle_invert, fill, stroke, bg);
    let s2 = draw_patch_spec(s1, 19, 2, side_type as int, side_turn as int, side_invert, fill, stroke, bg);
    let s3 = draw_patch_spec(s2, 36, 19, side_type as int, side_turn + 1, side_invert, fill, stroke, bg);
    let s4 = draw_patch_spec(s3, 19, 36, side_type as int, side_turn + 2, side_invert, fill, stroke, bg);
    let s5 = draw_patch_spec(s4, 2, 19, side_type as int, side_turn + 3, side_invert, fill, stroke, bg);
    let s6 = draw_patch_spec(s5, 2, 2, corner_type as int, corner_turn as int, corner_invert, fill, stroke, bg);
    let s7 = draw_patch_spec(s6, 36, 2, corner_type as int, corner_turn + 1, corner_invert, fill, stroke, bg);
    let s8 = draw_patch_spec(s7, 36, 36, corner_type as int, corner_turn + 2, corner_invert, fill, stroke, bg);
    let s9 = draw_patch_spec(s8, 2, 36, corner_type as int, corner_turn + 3, corner_invert, fill, stroke, bg);
    assert(avatar_raster(code) == s9);
    lemma_turned_once_more(corner_turn + 2, x, y);
    lemma_patch_at(s8, 2, 36, corner_type as int, corner_turn + 3, corner_invert, fill, stroke, bg, 2 + x - 2, 36 + y - 36);
    lemma_patch_at(s7, 36, 36, corner_type as int, corner_turn + 2, corner_invert, fill, stroke, bg, 36 + y - 36, 36 + (14 - x) - 36);
    lemma_patch_elsewhere(s8, 2, 36, corner_type as int, corner_turn + 3, corner_invert, fill, stroke, bg, 36 + y, 36 + (14 - x));
}

/// Round the middle, each side patch is the one before it (clockwise from
/// the top) turned one quarter turn further, and so is each corner patch
/// (clockwise from the top left): pixel `(x, y)` of a patch is pixel
/// `(y, 14 - x)` of the patch before it.
pub proof fn law_patches_turn_round(code: u32, x: int, y: int)
    requires
        0 <= x < 15,
        0 <= y < 15,
    ensures
        avatar_pixel(code, 36 + x, 19 + y) == avatar_pixel(code, 19 + y, 2 + (14 - x)),
        avatar_pixel(code, 19 + x, 36 + y) == avatar_pixel(code, 36 + y, 19 + (14 - x)),
        avatar_pixel(code, 2 + x, 19 + y) == avatar_pixel(code, 19 + y, 36 + (14 - x)),
        avatar_pixel(code, 36 + x, 2 + y) == avatar_pixel(code, 2 + y, 2 + (14 - x)),
        avatar_pixel(code, 36 + x, 36 + y) == avatar_pixel(code, 36 + y, 2 + (14 - x)),
        avatar_pixel(code, 2 + x, 36 + y) == avatar_pixel(code, 36 + y, 36 + (14 - x)),
{
    lemma_turn_right_side(code, x, y);
    lemma_turn_bottom_side(code, x, y);
    lemma_turn_left_side(code, x, y);
    lemma_turn_top_right_corner(code, x, y);
    lemma_turn_bottom_right_corner(code, x, y);
    lemma_turn_bottom_left_corner(code, x, y);
}

/// Draws the identicon of `code`, a 53×53 image.
pub fn render(code: u32) -> (img: Image)
    ensures
        img.width == 53,
        img.height == 53,
        img.pixels@ == avatar_raster(code),
        img.pixels@.len() == 53 * 53,
{
    let middle_type: u32 = if code & 3 == 0 {
        0
    } else if code & 3 == 1 {
        4
    } else if code & 3 == 2 {
        8
    } else {
        15
    };
    let middle_invert = ((code >> 2u32) & 1) != 0;
    let corner_type = (code >> 3u32) & 0xf;
    let corner_invert = ((code >> 7u32) & 1) != 0;
    let mut corner_turn = (code >> 8u32) & 3;
    let side_type = (code >> 10u32) & 0xf;
    let side_invert = ((code >> 14u32) & 1) != 0;
    let mut side_turn = (code >> 15u32) & 3;
    let blue = (code >> 16u32) & 0x1f;
    let green = (code >> 21u32) & 0x1f;
    let red = (code >> 27u32) & 0x1f;
    assert(code & 3 <= 3 && corner_turn <= 3 && side_turn <= 3) by (bit_vector)
        requires
            corner_turn == (code >> 8u32) & 3,
            side_turn == (code >> 15u32) & 3,
    ;
    assert(blue <= 31 && green <= 31 && red <= 31) by (bit_vector)
        requires
            blue == (code >> 16u32) & 0x1f,
            green == (code >> 21u32) & 0x1f,
            red == (code >> 27u32) & 0x1f,
    ;
    assert(((red << 3u32) as u8) as u32 == red << 3u32 && ((green << 3u32) as u8) as u32 == green
        << 3u32 && ((blue << 3u32) as u8) as u32 == blue << 3u32) by (bit_vector)
        requires
            blue <= 31,
            green <= 31,
            red <= 31,
    ;
    let background_color = Rgb { r: 255, g: 255, b: 255 };
    let fill_color = Rgb { r: (red << 3u32) as u8, g: (green << 3u32) as u8, b: (blue << 3u32) as u8 };
    let stroke_color = if get_color_distance_squared(fill_color, background_color) < 1024 {
        Some(get_complementary_color(fill_color))
    } else {
        None
    };
    let mut pixels: Vec<Rgb> = Vec::new();
    let mut i: usize = 0;
    while i < 53 * 53
        invariant
            i <= 53 * 53,
            pixels@ == Seq::new(i as nat, |j: int| white()),
        decreases 53 * 53 - i,
    {
        pixels.push(Rgb { r: 255, g: 255, b: 255 });
        assert(pixels@ =~= Seq::new((i + 1) as nat, |j: int| white()));
        i += 1;
    }
    let tables = patch_tables();
    let block_pos: u32 = 19;
    let block_pos_2: u32 = 36;
    draw_patch(&mut pixels, &tables, block_pos, block_pos, middle_type, 0, middle_invert,
        fill_color, stroke_color, background_color);
    draw_patch(&mut pixels, &tables, block_pos, 2, side_type, side_turn, side_invert,
        fill_color, stroke_color, background_color);
    side_turn += 1;
    draw_patch(&mut pixels, &tables, block_pos_2, block_pos, side_type, side_turn, side_invert,
        fill_color, stroke_color, background_color);
    side_turn += 1;
    draw_patch(&mut pixels, &tables, block_pos, block_pos_2, side_type, side_turn, side_invert,
        fill_color, stroke_color, background_color);
    side_turn += 1;
    draw_patch(&mut pixels, &tables, 2, block_pos, side_type, side_turn, side_invert,
        fill_color, stroke_color, background_color);
    draw_patch(&mut pixels, &tables, 2, 2, corner_type, corner_turn, corner_invert,
        fill_color, stroke_color, background_color);
    corner_turn += 1;
    draw_patch(&mut pixels, &tables, block_pos_2, 2, corner_type, corner_turn, corner_invert,
        fill_color, stroke_color, background_color);
    corner_turn += 1;
    draw_patch(&mut pixels, &tables, block_pos_2, block_pos_2, corner_type, corner_turn,
        corner_invert, fill_color, stroke_color, background_color);
    corner_turn += 1;
    draw_patch(&mut pixels, &tables, 2, block_pos_2, corner_type, corner_turn, corner_invert,
        fill_color, stroke_color, background_color);
    assert(fill_color == fill_of(code));
    assert(middle_type == center_patch((code & 3) as int));
    Image { width: 53, height: 53, pixels }
}

} // verus!

verus! {

/// The bytes of a raster: red, green and blue of each pixel, row by row.
pub open spec fn rgb_bytes(px: Seq<Rgb>) -> Seq<u8> {
    Seq::new(
        px.len() * 3,
        |i: int|
            {
                let c = px[i / 3];
                if i % 3 == 0 {
                    c.r
                } else if i % 3 == 1 {
                    c.g
                } else {
                    c.b
                }
            },
    )
}

/// What the `image` crate writes as the PNG file of a `width`×`height` RGB
/// raster with bytes `rgb`.
pub uninterp spec fn png_encoding(width: u32, height: u32, rgb: Seq<u8>) -> Seq<u8>;

/// Encodes an RGB raster as a PNG file with the `image` crate
/// (`ImageBuffer::from_raw`, then `DynamicImage::write_to` in PNG format).
/// The encoder's output is only named: the contract says that it is
/// [`png_encoding`] of the arguments.
#[verifier::external_body]
fn encode_png(width: u32, height: u32, rgb: Vec<u8>) -> (r: Vec<u8>)
    requires
        rgb@.len() == width * height * 3,
    ensures
        r@ == png_encoding(width, height, rgb@),
{
    let mut out: Vec<u8> = Vec::new();
    match image::RgbImage::from_raw(width, height, rgb) {
        Some(img) => match image::DynamicImage::ImageRgb8(img).write_to(
            &mut std::io::Cursor::new(&mut out),
            image::ImageFormat::Png,
        ) {
            Ok(()) => out,
            Err(_) => Vec::new(),
        },
        None => out,
    }
}

/// The PNG file of an image.
pub fn to_png(image: &Image) -> (r: Vec<u8>)
    requires
        image.pixels@.len() == image.width * image.height,
    ensures
        r@ == png_encoding(image.width, image.height, rgb_bytes(image.pixels@)),
{
    let mut bytes: Vec<u8> = Vec::new();
    let mut i: usize = 0;
    while i < image.pixels.len()
        invariant
            i <= image.pixels@.len(),
            bytes@ == rgb_bytes(image.pixels@.take(i as int)),
        decreases image.pixels.len() - i,
    {
        let c = image.pixels[i];
        bytes.push(c.r);
        bytes.push(c.g);
        bytes.push(c.b);
        assert(bytes@ =~= rgb_bytes(image.pixels@.take(i + 1)));
        i += 1;
    }
    assert(image.pixels@.take(i as int) =~= image.pixels@);
    assert(bytes@.len() == image.width * image.height * 3) by (nonlinear_arith)
        requires
            bytes@.len() == image.pixels@.len() * 3,
            image.pixels@.len() == image.width * image.height,
    ;
    encode_png(image.width, image.height, bytes)
}

/// A parsed host as the library holds it, viewed.
pub open spec fn host_view(h: Option<(HostKind, String)>) -> Option<(HostKind, Seq<char>)> {
    match h {
        Some((k, s)) => Some((k, s@)),
        None => None,
    }
}

/// Whether two parsed hosts are the same: both absent, or of one kind with
/// one text.
fn same_host(a: &Option<(HostKind, String)>, b: &Option<(HostKind, String)>) -> (r: bool)
    ensures
        r == (host_view(*a) == host_view(*b)),
{
    match (a, b) {
        (None, None) => true,
        (Some((ka, sa)), Some((kb, sb))) => *ka == *kb && same_text(sa.as_str(), sb.as_str()),
        _ => false,
    }
}

/// Whether an identicon may be served to a request that came from
/// `referrer`, for the site at `public_url`: a referrer that does not parse
/// as a URL is let through; one that parses must have the host of the
/// site's public URL (no host, where that URL has none or does not parse).
pub open spec fn referrer_allowed(referrer: Seq<char>, public_url: Seq<char>) -> bool {
    match url_parsed_host(referrer) {
        None => true,
        Some(h) => h == match url_parsed_host(public_url) {
            Some(p) => p,
            None => None,
        },
    }
}

/// Whether an identicon may be served to a request from `referrer` (see
/// [`referrer_allowed`]).
pub fn referrer_allows(referrer: &str, public_url: &str) -> (r: bool)
    ensures
        r == referrer_allowed(referrer@, public_url@),
{
    match parse_url_host_kind(referrer) {
        None => true,
        Some(h) => {
            let p = match parse_url_host_kind(public_url) {
                Some(p) => p,
                None => None,
            };
            same_host(&h, &p)
        },
    }
}

/// The identicon of the user `id` as a PNG file, for a request from
/// `referrer` to the site at `public_url`; `None` (the request is refused)
/// when [`referrer_allowed`] does not hold.
pub fn identicon_png(id: Base32, referrer: &str, public_url: &str) -> (r: Option<Vec<u8>>)
    ensures
        r is Some <==> referrer_allowed(referrer@, public_url@),
        r matches Some(p) ==> p@ == png_encoding(53, 53, rgb_bytes(avatar_raster(id@ as u32))),
{
    if !referrer_allows(referrer, public_url) {
        return None;
    }
    let img = render(id.into_u64() as u32);
    Some(to_png(&img))
}

} // verus!
