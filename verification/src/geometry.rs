//! Topology-aware placement geometry.
//!
//! Maps an abstract chunk coordinate to the world-space translation of the
//! chunk's origin, for a square grid and six hexagonal stagger variants.
//!
//! World translations of staggered layouts land on half-pixel positions, so
//! every translation here is expressed exactly in *half-pixel units*: a value
//! `h` stands for the world coordinate `h / 2`. The hexagonal packing factor
//! `0.75` is applied as multiply-then-floor (`floor(v * 3 / 4)`), matching the
//! truncation order the rendered layouts were built with.

use vstd::arithmetic::div_mod::lemma_fundamental_div_mod;
use vstd::arithmetic::div_mod::lemma_fundamental_div_mod_converse_div;
use vstd::prelude::*;

verus! {

/// Integer chunk coordinate in the (virtually infinite) grid.
#[derive(Clone, Copy, PartialEq, Eq, Structural, Hash, Debug)]
pub struct Point2 {
    pub x: i32,
    pub y: i32,
}

impl Point2 {
    pub fn new(x: i32, y: i32) -> (p: Point2)
        ensures
            p.x == x,
            p.y == y,
    {
        Point2 { x, y }
    }
}

/// A width/height pair, in tiles or pixels depending on context.
#[derive(Clone, Copy, PartialEq, Eq, Structural, Hash, Debug)]
pub struct Dimension2 {
    pub width: u32,
    pub height: u32,
}

impl Dimension2 {
    pub fn new(width: u32, height: u32) -> (d: Dimension2)
        ensures
            d.width == width,
            d.height == height,
    {
        Dimension2 { width, height }
    }
}

/// A width/height/depth triple.
#[derive(Clone, Copy, PartialEq, Eq, Structural, Hash, Debug)]
pub struct Dimension3 {
    pub width: u32,
    pub height: u32,
    pub depth: u32,
}

/// Either a flat or a volumetric dimension; only width and height take part
/// in placement.
#[derive(Clone, Copy, PartialEq, Eq, Structural, Debug)]
pub enum DimensionKind {
    Dimension2(Dimension2),
    Dimension3(Dimension3),
}

impl DimensionKind {
    pub open spec fn spec_width(self) -> u32 {
        match self {
            DimensionKind::Dimension2(d) => d.width,
            DimensionKind::Dimension3(d) => d.width,
        }
    }

    pub open spec fn spec_height(self) -> u32 {
        match self {
            DimensionKind::Dimension2(d) => d.height,
            DimensionKind::Dimension3(d) => d.height,
        }
    }

    pub fn width(&self) -> (w: u32)
        ensures
            w == self.spec_width(),
    {
        match self {
            DimensionKind::Dimension2(d) => d.width,
            DimensionKind::Dimension3(d) => d.width,
        }
    }

    pub fn height(&self) -> (h: u32)
        ensures
            h == self.spec_height(),
    {
        match self {
            DimensionKind::Dimension2(d) => d.height,
            DimensionKind::Dimension3(d) => d.height,
        }
    }
}

/// The grid layout family: square, or one of six hexagonal stagger variants.
#[derive(Clone, Copy, PartialEq, Eq, Structural, Debug)]
pub enum GridTopology {
    Square,
    HexX,
    HexY,
    HexEvenRows,
    HexOddRows,
    HexEvenCols,
    HexOddCols,
}

/// `floor(v * 0.75)` applied as multiply-then-floor: `floor(3 * v / 4)`.
/// (`/` on `int` rounds toward negative infinity for a positive divisor.)
pub open spec fn stagger(v: int) -> int {
    (3 * v) / 4
}

/// World x-translation of a chunk's origin, in half-pixel units.
pub open spec fn place_half_x(
    topology: GridTopology,
    p: Point2,
    tile: Dimension2,
    chunk: Dimension2,
) -> int {
    let x = p.x as int;
    let y = p.y as int;
    let tw = tile.width as int;
    let cw = chunk.width as int;
    let ch = chunk.height as int;
    match topology {
        GridTopology::HexX | GridTopology::HexEvenCols | GridTopology::HexOddCols => 2 * stagger(
            x * tw,
        ) * cw,
        GridTopology::HexY => 2 * x * tw * cw + y * ch * tw,
        GridTopology::Square | GridTopology::HexEvenRows | GridTopology::HexOddRows => 2 * x * tw
            * cw,
    }
}

/// World y-translation of a chunk's origin, in half-pixel units.
pub open spec fn place_half_y(
    topology: GridTopology,
    p: Point2,
    tile: Dimension2,
    chunk: Dimension2,
) -> int {
    let x = p.x as int;
    let y = p.y as int;
    let th = tile.height as int;
    let cw = chunk.width as int;
    let ch = chunk.height as int;
    match topology {
        GridTopology::HexY | GridTopology::HexEvenRows | GridTopology::HexOddRows => 2 * stagger(
            y * th,
        ) * ch,
        GridTopology::HexX => 2 * y * th * ch + x * cw * th,
        GridTopology::Square | GridTopology::HexEvenCols | GridTopology::HexOddCols => 2 * y * th
            * ch,
    }
}

/// World translation of a chunk's origin in half-pixel units; the z depth of a
/// rendered layer is its z-order index and is kept separately.
#[derive(Clone, Copy, PartialEq, Eq, Structural, Debug)]
pub struct Placement {
    pub half_x: i128,
    pub half_y: i128,
}

/// `-bound_a <= a <= bound_a` and `-bound_b <= b <= bound_b` bound the product.
proof fn lemma_mul_bound(a: int, b: int, bound_a: int, bound_b: int)
    by (nonlinear_arith)
    requires
        -bound_a <= a <= bound_a,
        -bound_b <= b <= bound_b,
        0 <= bound_a,
        0 <= bound_b,
    ensures
        -(bound_a * bound_b) <= a * b <= bound_a * bound_b,
{
}

/// Floor division of `w` by 4 (`/` on `int` is the flooring division here).
fn div4_floor(w: i128) -> (r: i128)
    requires
        -0x4000_0000_0000_0000_0000_0000_0000_0000 < w
            < 0x4000_0000_0000_0000_0000_0000_0000_0000,
    ensures
        r == w as int / 4,
{
    if w >= 0 {
        let q = ((w as u128) / 4) as i128;
        q
    } else {
        let m: u128 = (-w) as u128;
        let q = -(((m + 3) / 4) as i128);
        proof {
            let mi = m as int;
            lemma_fundamental_div_mod(mi + 3, 4);
            let q0 = (mi + 3) / 4;
            let r0 = (mi + 3) % 4;
            // -m == -q0 * 4 + (3 - r0), with 0 <= 3 - r0 < 4
            lemma_fundamental_div_mod_converse_div(-mi, 4, -q0, 3 - r0);
        }
        q
    }
}

/// Computes the world translation of chunk `p`'s origin, in half-pixel units,
/// for the given tile pixel dimensions and chunk dimensions in tiles.
pub fn placement(topology: GridTopology, p: Point2, tile: Dimension2, chunk: Dimension2) -> (t:
    Placement)
    ensures
        t.half_x == place_half_x(topology, p, tile, chunk),
        t.half_y == place_half_y(topology, p, tile, chunk),
{
    let x = p.x as i128;
    let y = p.y as i128;
    let tw = tile.width as i128;
    let th = tile.height as i128;
    let cw = chunk.width as i128;
    let ch = chunk.height as i128;
    let ghost xi = p.x as int;
    let ghost yi = p.y as int;
    let ghost twi = tile.width as int;
    let ghost thi = tile.height as int;
    let ghost cwi = chunk.width as int;
    let ghost chi = chunk.height as int;
    let half_x: i128 = match topology {
        GridTopology::HexX | GridTopology::HexEvenCols | GridTopology::HexOddCols => {
            proof {
                lemma_mul_bound(xi, twi, 0x8000_0000, 0xffff_ffff);
                lemma_stagger_bound(xi * twi, 0x8000_0000_0000_0000);
                lemma_mul_bound(
                    2 * stagger(xi * twi),
                    cwi,
                    0x3_0000_0000_0000_0002,
                    0xffff_ffff,
                );
            }
            let q = div4_floor(3 * (x * tw));
            2 * q * cw
        },
        GridTopology::HexY => {
            proof {
                lemma_mul_bound(2 * xi, twi, 0x1_0000_0000, 0xffff_ffff);
                lemma_mul_bound(2 * xi * twi, cwi, 0x1_0000_0000_0000_0000, 0xffff_ffff);
                lemma_mul_bound(yi, chi, 0x8000_0000, 0xffff_ffff);
                lemma_mul_bound(yi * chi, twi, 0x8000_0000_0000_0000, 0xffff_ffff);
            }
            2 * x * tw * cw + y * ch * tw
        },
        GridTopology::Square | GridTopology::HexEvenRows | GridTopology::HexOddRows => {
            proof {
                lemma_mul_bound(2 * xi, twi, 0x1_0000_0000, 0xffff_ffff);
                lemma_mul_bound(2 * xi * twi, cwi, 0x1_0000_0000_0000_0000, 0xffff_ffff);
            }
            2 * x * tw * cw
        },
    };
    let half_y: i128 = match topology {
        GridTopology::HexY | GridTopology::HexEvenRows | GridTopology::HexOddRows => {
            proof {
                lemma_mul_bound(yi, thi, 0x8000_0000, 0xffff_ffff);
                lemma_stagger_bound(yi * thi, 0x8000_0000_0000_0000);
                lemma_mul_bound(
                    2 * stagger(yi * thi),
                    chi,
                    0x3_0000_0000_0000_0002,
                    0xffff_ffff,
                );
            }
            let q = div4_floor(3 * (y * th));
            2 * q * ch
        },
        GridTopology::HexX => {
            proof {
                lemma_mul_bound(2 * yi, thi, 0x1_0000_0000, 0xffff_ffff);
                lemma_mul_bound(2 * yi * thi, chi, 0x1_0000_0000_0000_0000, 0xffff_ffff);
                lemma_mul_bound(xi, cwi, 0x8000_0000, 0xffff_ffff);
                lemma_mul_bound(xi * cwi, thi, 0x8000_0000_0000_0000, 0xffff_ffff);
            }
            2 * y * th * ch + x * cw * th
        },
        GridTopology::Square | GridTopology::HexEvenCols | GridTopology::HexOddCols => {
            proof {
                lemma_mul_bound(2 * yi, thi, 0x1_0000_0000, 0xffff_ffff);
                lemma_mul_bound(2 * yi * thi, chi, 0x1_0000_0000_0000_0000, 0xffff_ffff);
            }
            2 * y * th * ch
        },
    };
    Placement { half_x, half_y }
}

/// The stagger of a value bounded by `bound` stays within `3 * bound + 1`.
proof fn lemma_stagger_bound(v: int, bound: int)
    requires
        0 <= bound,
        -bound <= v <= bound,
    ensures
        -3 * bound - 1 <= stagger(v) <= 3 * bound,
{
    lemma_fundamental_div_mod(3 * v, 4);
}

/// Row bleed of the `HexX` layout: holding y fixed, moving one chunk along x
/// shifts the y-translation by half a chunk's pixel height, that is by
/// `chunk.width * tile.height` half-pixels.
pub proof fn lemma_hex_x_stagger(p1: Point2, p2: Point2, tile: Dimension2, chunk: Dimension2)
    by (nonlinear_arith)
    requires
        p2.x as int == p1.x as int + 1,
        p2.y == p1.y,
    ensures
        place_half_y(GridTopology::HexX, p2, tile, chunk) - place_half_y(
            GridTopology::HexX,
            p1,
            tile,
            chunk,
        ) == chunk.width as int * tile.height as int,
{
}

/// Column bleed of the `HexY` layout: holding x fixed, moving one chunk along
/// y shifts the x-translation by half a chunk's pixel width, that is by
/// `chunk.height * tile.width` half-pixels.
pub proof fn lemma_hex_y_stagger(p1: Point2, p2: Point2, tile: Dimension2, chunk: Dimension2)
    by (nonlinear_arith)
    requires
        p2.y as int == p1.y as int + 1,
        p2.x == p1.x,
    ensures
        place_half_x(GridTopology::HexY, p2, tile, chunk) - place_half_x(
            GridTopology::HexY,
            p1,
            tile,
            chunk,
        ) == chunk.height as int * tile.width as int,
{
}

} // verus!

