use crate::ivec2::{ivec2, IVec2};
use crate::texture::{in_grid, lin, position_fits, Texture};
use vstd::prelude::*;

verus! {

/// What a stencil of size `size` stores at the position of `(x, y)`, or `None`
/// when that position lies outside the storage.
pub open spec fn stored_at(size: IVec2, pixels: Seq<bool>, x: int, y: int) -> Option<bool> {
    let k = lin(size.x as int, x, y);
    if 0 <= k < pixels.len() {
        Some(pixels[k])
    } else {
        None
    }
}

/// Whether pixel `(x, y)` lies on the edge of a stencil: it is set, and one of
/// its four neighbours (looked up by storage position) is unset or missing.
pub open spec fn on_edge(size: IVec2, pixels: Seq<bool>, x: int, y: int) -> bool {
    &&& pixels[lin(size.x as int, x, y)]
    &&& {
        ||| stored_at(size, pixels, x - 1, y) != Some(true)
        ||| stored_at(size, pixels, x + 1, y) != Some(true)
        ||| stored_at(size, pixels, x, y - 1) != Some(true)
        ||| stored_at(size, pixels, x, y + 1) != Some(true)
    }
}

/// Whether the storage positions of the four neighbours of `p` are computed
/// without leaving `i32`.
pub open spec fn neighbours_fit(size: IVec2, p: IVec2) -> bool {
    let w = size.x as int;
    &&& position_fits(w, p.x - 1, p.y as int)
    &&& position_fits(w, p.x + 1, p.y as int)
    &&& position_fits(w, p.x as int, p.y - 1)
    &&& position_fits(w, p.x as int, p.y + 1)
}

/// Whether pixel `p` of the stencil is an edge pixel, where a distance field
/// starts at distance zero.
pub fn is_boundary(in_stencil: &Texture<bool>, p: IVec2) -> (r: bool)
    requires
        in_grid(in_stencil.size(), p.x as int, p.y as int),
        neighbours_fit(in_stencil.size(), p),
    ensures
        r == on_edge(in_stencil.size(), in_stencil.pixels(), p.x as int, p.y as int),
{
    let wh = in_stencil.wh();
    proof {
        assert(0 <= p.y * wh.x) by (nonlinear_arith)
            requires
                0 <= p.y,
                0 < wh.x,
        ;
        assert(p.y * wh.x + wh.x <= wh.x * wh.y) by (nonlinear_arith)
            requires
                p.y + 1 <= wh.y,
                0 < wh.x,
        ;
    }
    if !in_stencil.sample(p) {
        return false;
    }
    let neighbours = [
        ivec2(p.x - 1, p.y),
        ivec2(p.x + 1, p.y),
        ivec2(p.x, p.y - 1),
        ivec2(p.x, p.y + 1),
    ];
    let mut k: usize = 0;
    while k < 4
        invariant
            k <= 4,
            neighbours@[0].x == p.x - 1 && neighbours@[0].y == p.y,
            neighbours@[1].x == p.x + 1 && neighbours@[1].y == p.y,
            neighbours@[2].x == p.x && neighbours@[2].y == p.y - 1,
            neighbours@[3].x == p.x && neighbours@[3].y == p.y + 1,
            neighbours_fit(in_stencil.size(), p),
            in_stencil.pixels()[lin(in_stencil.size().x as int, p.x as int, p.y as int)],
            forall|m: int|
                0 <= m < k ==> stored_at(
                    in_stencil.size(),
                    in_stencil.pixels(),
                    neighbours@[m].x as int,
                    neighbours@[m].y as int,
                ) == Some(true),
        decreases 4 - k,
    {
        let s = in_stencil.sample_checked(neighbours[k]);
        if s.is_none() || s.unwrap() == false {
            return true;
        }
        k = k + 1;
    }
    false
}

/// Whether the neighbour `(x, y)` counts as outside a stencil: its storage
/// position lies outside the storage or holds an unset pixel.
pub open spec fn missing_or_unset(size: IVec2, pixels: Seq<bool>, x: int, y: int) -> bool {
    let k = lin(size.x as int, x, y);
    !(0 <= k < pixels.len() && pixels[k])
}

/// An unset pixel is never on the edge; a set pixel is on the edge as soon as
/// any one of its four neighbours (left, right, above, below) is unset or
/// outside the storage, and is not when all four are set.
pub proof fn lemma_edge_by_neighbours(size: IVec2, pixels: Seq<bool>, x: int, y: int)
    ensures
        !pixels[lin(size.x as int, x, y)] ==> !on_edge(size, pixels, x, y),
        pixels[lin(size.x as int, x, y)] && missing_or_unset(size, pixels, x - 1, y) ==> on_edge(size, pixels, x, y),
        pixels[lin(size.x as int, x, y)] && missing_or_unset(size, pixels, x + 1, y) ==> on_edge(size, pixels, x, y),
        pixels[lin(size.x as int, x, y)] && missing_or_unset(size, pixels, x, y - 1) ==> on_edge(size, pixels, x, y),
        pixels[lin(size.x as int, x, y)] && missing_or_unset(size, pixels, x, y + 1) ==> on_edge(size, pixels, x, y),
        !missing_or_unset(size, pixels, x - 1, y) && !missing_or_unset(size, pixels, x + 1, y)
            && !missing_or_unset(size, pixels, x, y - 1) && !missing_or_unset(size, pixels, x, y + 1)
            ==> !on_edge(size, pixels, x, y),
{
}

} // verus!
