//! The cube as a solid: where each facelet sits, which way it faces, and
//! where it goes when layers turn about an axis.

use crate::coord::{spec_facelet_of, Axis, Piece, Surface};
use vstd::prelude::*;

verus! {

/// A point or a direction of the cube's grid.
pub struct Vector(pub int, pub int, pub int);

impl Vector {
    /// The coordinate along `axis`.
    pub open spec fn along(self, axis: Axis) -> int {
        match axis {
            Axis::X => self.0,
            Axis::Y => self.1,
            Axis::Z => self.2,
        }
    }

    /// Whether the point is one of the 27 positions of the cube.
    pub open spec fn in_cube(self) -> bool {
        -1 <= self.0 <= 1 && -1 <= self.1 <= 1 && -1 <= self.2 <= 1
    }

    /// The piece at this position.
    pub open spec fn piece(self) -> Piece {
        Piece(self.0 as i8, self.1 as i8, self.2 as i8)
    }
}

/// The direction in which `surface` faces.
pub open spec fn normal_of(surface: Surface) -> Vector {
    match surface {
        Surface::R => Vector(1, 0, 0),
        Surface::L => Vector(-1, 0, 0),
        Surface::U => Vector(0, 1, 0),
        Surface::D => Vector(0, -1, 0),
        Surface::F => Vector(0, 0, 1),
        Surface::B => Vector(0, 0, -1),
    }
}

/// The surface that faces in direction `n`.
pub open spec fn surface_facing(n: Vector) -> Surface {
    if n.0 == 1 {
        Surface::R
    } else if n.0 == -1 {
        Surface::L
    } else if n.1 == 1 {
        Surface::U
    } else if n.1 == -1 {
        Surface::D
    } else if n.2 == 1 {
        Surface::F
    } else {
        Surface::B
    }
}

/// The position of the piece that carries facelet `f`.
pub open spec fn facelet_position(f: int) -> Vector {
    let i = (f % 9) / 3;
    let j = f % 3;
    match Surface::from_ordinal(f / 9) {
        Surface::R => Vector(1, j - 1, 1 - i),
        Surface::L => Vector(-1, 1 - i, j - 1),
        Surface::U => Vector(1 - i, 1, j - 1),
        Surface::D => Vector(j - 1, -1, 1 - i),
        Surface::F => Vector(j - 1, 1 - i, 1),
        Surface::B => Vector(1 - i, j - 1, -1),
    }
}

/// The direction in which facelet `f` faces.
pub open spec fn facelet_normal(f: int) -> Vector {
    normal_of(Surface::from_ordinal(f / 9))
}

/// The facelet at position `pos` that faces in direction `n`.
pub open spec fn facelet_at(pos: Vector, n: Vector) -> int {
    spec_facelet_of(pos.piece(), surface_facing(n))
}

/// `v` after `c` quarter turns about `axis`, clockwise as seen from the
/// positive end of the axis.
pub open spec fn rotate(axis: Axis, c: int, v: Vector) -> Vector {
    let q = c % 4;
    match axis {
        Axis::X => if q == 0 {
            v
        } else if q == 1 {
            Vector(v.0, v.2, -v.1)
        } else if q == 2 {
            Vector(v.0, -v.1, -v.2)
        } else {
            Vector(v.0, -v.2, v.1)
        },
        Axis::Y => if q == 0 {
            v
        } else if q == 1 {
            Vector(-v.2, v.1, v.0)
        } else if q == 2 {
            Vector(-v.0, v.1, -v.2)
        } else {
            Vector(v.2, v.1, -v.0)
        },
        Axis::Z => if q == 0 {
            v
        } else if q == 1 {
            Vector(v.1, -v.0, v.2)
        } else if q == 2 {
            Vector(-v.0, -v.1, v.2)
        } else {
            Vector(-v.1, v.0, v.2)
        },
    }
}

/// Quarter turns for each of the three layers along an axis: the layer at
/// -1, the layer at 0 and the layer at 1.
pub struct LayerTurns(pub int, pub int, pub int);

impl LayerTurns {
    /// The quarter turns of the layer at coordinate `k`.
    pub open spec fn at(self, k: int) -> int {
        if k == -1 {
            self.0
        } else if k == 0 {
            self.1
        } else {
            self.2
        }
    }

    /// The turns of `self` followed by those of `other`.
    pub open spec fn plus(self, other: LayerTurns) -> LayerTurns {
        LayerTurns(self.0 + other.0, self.1 + other.1, self.2 + other.2)
    }
}

/// Whether `mask` selects the layer at coordinate `k`: bit 0 stands for the
/// layer at -1, bit 1 for the layer at 0, bit 2 for the layer at 1.
pub open spec fn layer_selected(mask: u8, k: int) -> bool {
    if k == -1 {
        mask % 2 == 1
    } else if k == 0 {
        (mask / 2) % 2 == 1
    } else {
        (mask / 4) % 2 == 1
    }
}

/// `c` quarter turns for each layer that `mask` selects, none for the others.
pub open spec fn masked_turns(mask: u8, c: int) -> LayerTurns {
    LayerTurns(
        if layer_selected(mask, -1) { c } else { 0 },
        if layer_selected(mask, 0) { c } else { 0 },
        if layer_selected(mask, 1) { c } else { 0 },
    )
}

/// The facelet to which the sticker of facelet `f` moves when each layer
/// along `axis` makes its quarter turns.
pub open spec fn turn_layers(axis: Axis, turns: LayerTurns, f: int) -> int {
    let pos = facelet_position(f);
    let c = turns.at(pos.along(axis));
    facelet_at(rotate(axis, c, pos), rotate(axis, c, facelet_normal(f)))
}

/// Every facelet is the facelet at its own position and direction.
pub proof fn lemma_facelet_roundtrip(f: int)
    requires
        0 <= f < 54,
    ensures
        facelet_at(facelet_position(f), facelet_normal(f)) == f,
        facelet_position(f).in_cube(),
        facelet_position(f).piece().touches(Surface::from_ordinal(f / 9)),
{
}

/// A position and a direction of a facelet are those of its number.
pub proof fn lemma_sticker_roundtrip(pos: Vector, s: Surface)
    requires
        pos.in_cube(),
        pos.piece().touches(s),
    ensures
        0 <= facelet_at(pos, normal_of(s)) < 54,
        facelet_position(facelet_at(pos, normal_of(s))) == pos,
        facelet_normal(facelet_at(pos, normal_of(s))) == normal_of(s),
{
}

/// A turn takes a facelet's position and direction to those of a facelet
/// in the same layer.
pub proof fn lemma_rotate_sticker(axis: Axis, c: int, pos: Vector, s: Surface)
    requires
        pos.in_cube(),
        pos.piece().touches(s),
    ensures
        rotate(axis, c, pos).in_cube(),
        rotate(axis, c, pos).along(axis) == pos.along(axis),
        rotate(axis, c, pos).piece().touches(surface_facing(rotate(axis, c, normal_of(s)))),
        rotate(axis, c, normal_of(s)) == normal_of(surface_facing(rotate(axis, c, normal_of(s)))),
{
}

/// Quarter turns about one axis add up.
pub proof fn lemma_rotate_compose(axis: Axis, a: int, b: int, v: Vector)
    ensures
        rotate(axis, a, rotate(axis, b, v)) == rotate(axis, a + b, v),
{
}

/// Every turn takes facelets to facelets.
pub proof fn lemma_turn_layers_range(axis: Axis, turns: LayerTurns, f: int)
    requires
        0 <= f < 54,
    ensures
        0 <= turn_layers(axis, turns, f) < 54,
{
    lemma_facelet_roundtrip(f);
    let pos = facelet_position(f);
    let s = Surface::from_ordinal(f / 9);
    let c = turns.at(pos.along(axis));
    lemma_rotate_sticker(axis, c, pos, s);
    lemma_sticker_roundtrip(rotate(axis, c, pos), surface_facing(rotate(axis, c, normal_of(s))));
}

/// Turning the layers about an axis twice is turning each layer by the sum
/// of its quarter turns.
pub proof fn lemma_turn_layers_compose(axis: Axis, a: LayerTurns, b: LayerTurns, f: int)
    requires
        0 <= f < 54,
    ensures
        turn_layers(axis, a, turn_layers(axis, b, f)) == turn_layers(axis, b.plus(a), f),
{
    lemma_facelet_roundtrip(f);
    let pos = facelet_position(f);
    let s = Surface::from_ordinal(f / 9);
    let k = pos.along(axis);
    let cb = b.at(k);
    let ca = a.at(k);
    lemma_rotate_sticker(axis, cb, pos, s);
    let pos1 = rotate(axis, cb, pos);
    let s1 = surface_facing(rotate(axis, cb, normal_of(s)));
    lemma_sticker_roundtrip(pos1, s1);
    lemma_rotate_compose(axis, ca, cb, pos);
    lemma_rotate_compose(axis, ca, cb, normal_of(s));
}

/// Layers that make a multiple of four quarter turns leave every facelet
/// where it is.
pub proof fn lemma_turn_layers_full(axis: Axis, turns: LayerTurns, f: int)
    requires
        0 <= f < 54,
        turns.0 % 4 == 0,
        turns.1 % 4 == 0,
        turns.2 % 4 == 0,
    ensures
        turn_layers(axis, turns, f) == f,
{
    lemma_facelet_roundtrip(f);
}

/// Only the quarter turns modulo four matter.
pub proof fn lemma_turn_layers_mod(axis: Axis, a: LayerTurns, b: LayerTurns, f: int)
    requires
        a.0 % 4 == b.0 % 4,
        a.1 % 4 == b.1 % 4,
        a.2 % 4 == b.2 % 4,
    ensures
        turn_layers(axis, a, f) == turn_layers(axis, b, f),
{
}

} // verus!
