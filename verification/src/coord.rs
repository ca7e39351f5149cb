//! The cube's coordinate system: surfaces, pieces, facelet numbers and
//! the rotations that commands stand for.

use crate::{Command, Move};
use vstd::prelude::*;

verus! {

/// Surface of a cube or a piece.
#[derive(PartialEq, Eq, Structural, Clone, Copy, Debug, Hash)]
pub enum Surface {
    R,
    L,
    U,
    D,
    F,
    B,
}

/// The six surfaces, in the order of their ordinals.
pub const SURFACE_LIST: [Surface; 6] = [
    Surface::R,
    Surface::L,
    Surface::U,
    Surface::D,
    Surface::F,
    Surface::B,
];

impl Surface {
    /// The position of the surface in `SURFACE_LIST`.
    pub open spec fn ordinal(self) -> int {
        match self {
            Surface::R => 0,
            Surface::L => 1,
            Surface::U => 2,
            Surface::D => 3,
            Surface::F => 4,
            Surface::B => 5,
        }
    }

    /// The surface at position `n` of `SURFACE_LIST`.
    pub open spec fn from_ordinal(n: int) -> Surface {
        if n == 0 {
            Surface::R
        } else if n == 1 {
            Surface::L
        } else if n == 2 {
            Surface::U
        } else if n == 3 {
            Surface::D
        } else if n == 4 {
            Surface::F
        } else {
            Surface::B
        }
    }
}

/// Index of a position in a surface: the surface, the row and the column.
#[derive(PartialEq, Eq, Structural, Debug, Clone, Copy, Hash)]
pub struct SurfaceIndex(pub Surface, pub u8, pub u8);

/// The facelet number of row `i`, column `j` of `surface`.
pub open spec fn spec_surface_number(surface: Surface, i: int, j: int) -> int {
    9 * surface.ordinal() + 3 * i + j
}

/// The surface, row and column of facelet `k`.
pub open spec fn spec_surface_number_inv(k: int) -> SurfaceIndex {
    SurfaceIndex(Surface::from_ordinal(k / 9), ((k % 9) / 3) as u8, (k % 3) as u8)
}

/// Give unique index to a position in a surface.
pub fn surface_number(surface: Surface, i: u8, j: u8) -> (k: u8)
    requires
        i < 3,
        j < 3,
    ensures
        k == spec_surface_number(surface, i as int, j as int),
        k < 54,
        spec_surface_number_inv(k as int) == SurfaceIndex(surface, i, j),
{
    let n = surface as u8;
    9 * n + 3 * i + j
}

/// Inverse function of `surface_number`.
pub fn surface_number_inv(k: u8) -> (r: SurfaceIndex)
    requires
        k < 54,
    ensures
        r == spec_surface_number_inv(k as int),
        r.1 < 3,
        r.2 < 3,
        spec_surface_number(r.0, r.1 as int, r.2 as int) == k,
{
    let n = k / 9;
    let rest = k - 9 * n;
    let i = rest / 3;
    let j = rest - 3 * i;
    SurfaceIndex(SURFACE_LIST[n as usize], i, j)
}

/// The surface, row and column of a facelet give the facelet's number back.
pub proof fn lemma_surface_number_of_inv(k: int)
    requires
        0 <= k < 54,
    ensures
        ({
            let SurfaceIndex(surface, i, j) = spec_surface_number_inv(k);
            i < 3 && j < 3 && spec_surface_number(surface, i as int, j as int) == k
        }),
{
}

/// The number of a position on a surface gives the surface, the row and the
/// column back.
pub proof fn lemma_surface_number_inv_of(surface: Surface, i: int, j: int)
    requires
        0 <= i < 3,
        0 <= j < 3,
    ensures
        0 <= spec_surface_number(surface, i, j) < 54,
        spec_surface_number_inv(spec_surface_number(surface, i, j)) == SurfaceIndex(
            surface,
            i as u8,
            j as u8,
        ),
{
}

/// The index of the piece in range from (-1,-1,-1) to (1,1,1).
#[derive(Clone, Copy, Debug, PartialEq, Eq, Structural, Hash)]
pub struct Piece(pub i8, pub i8, pub i8);

impl Piece {
    /// Whether the three coordinates name one of the 27 positions of the cube.
    pub open spec fn in_cube(self) -> bool {
        -1 <= self.0 <= 1 && -1 <= self.1 <= 1 && -1 <= self.2 <= 1
    }

    /// Whether the piece has a facelet on `surface`.
    pub open spec fn touches(self, surface: Surface) -> bool {
        self.in_cube() && match surface {
            Surface::R => self.0 == 1,
            Surface::L => self.0 == -1,
            Surface::U => self.1 == 1,
            Surface::D => self.1 == -1,
            Surface::F => self.2 == 1,
            Surface::B => self.2 == -1,
        }
    }

    /// The row of `surface` in which the piece's facelet lies.
    pub open spec fn row_on(self, surface: Surface) -> int {
        match surface {
            Surface::R => 1 - self.2,
            Surface::L => 1 - self.1,
            Surface::U => 1 - self.0,
            Surface::D => 1 - self.2,
            Surface::F => 1 - self.1,
            Surface::B => 1 - self.0,
        }
    }

    /// The column of `surface` in which the piece's facelet lies.
    pub open spec fn column_on(self, surface: Surface) -> int {
        match surface {
            Surface::R => self.1 + 1,
            Surface::L => self.2 + 1,
            Surface::U => self.2 + 1,
            Surface::D => self.0 + 1,
            Surface::F => self.0 + 1,
            Surface::B => self.1 + 1,
        }
    }
}

/// Where on `surface` the facelet of `piece` lies, if the piece touches it.
pub open spec fn spec_surface_index_of(piece: Piece, surface: Surface) -> Option<SurfaceIndex> {
    if piece.touches(surface) {
        Some(SurfaceIndex(surface, piece.row_on(surface) as u8, piece.column_on(surface) as u8))
    } else {
        None
    }
}

/// Get the surface index of a surface of a piece.
pub fn surface_index_of(piece: Piece, surface: Surface) -> (r: Option<SurfaceIndex>)
    ensures
        r == spec_surface_index_of(piece, surface),
        r matches Some(idx) ==> idx.0 == surface && idx.1 < 3 && idx.2 < 3,
{
    let Piece(x, y, z) = piece;
    let pos: Option<(u8, u8)> = match (x, y, z, surface) {
        // x=-1
        (-1, -1, -1, Surface::L) => Some((2, 0)),
        (-1, -1, -1, Surface::D) => Some((2, 0)),
        (-1, -1, -1, Surface::B) => Some((2, 0)),
        (-1, -1, 0, Surface::L) => Some((2, 1)),
        (-1, -1, 0, Surface::D) => Some((1, 0)),
        (-1, -1, 1, Surface::L) => Some((2, 2)),
        (-1, -1, 1, Surface::F) => Some((2, 0)),
        (-1, -1, 1, Surface::D) => Some((0, 0)),
        (-1, 0, -1, Surface::L) => Some((1, 0)),
        (-1, 0, -1, Surface::B) => Some((2, 1)),
        (-1, 0, 0, Surface::L) => Some((1, 1)),
        (-1, 0, 1, Surface::L) => Some((1, 2)),
        (-1, 0, 1, Surface::F) => Some((1, 0)),
        (-1, 1, -1, Surface::B) => Some((2, 2)),
        (-1, 1, -1, Surface::L) => Some((0, 0)),
        (-1, 1, -1, Surface::U) => Some((2, 0)),
        (-1, 1, 0, Surface::U) => Some((2, 1)),
        (-1, 1, 0, Surface::L) => Some((0, 1)),
        (-1, 1, 1, Surface::L) => Some((0, 2)),
        (-1, 1, 1, Surface::U) => Some((2, 2)),
        (-1, 1, 1, Surface::F) => Some((0, 0)),
        // x=0
        (0, -1, -1, Surface::B) => Some((1, 0)),
        (0, -1, -1, Surface::D) => Some((2, 1)),
        (0, -1, 0, Surface::D) => Some((1, 1)),
        (0, -1, 1, Surface::D) => Some((0, 1)),
        (0, -1, 1, Surface::F) => Some((2, 1)),
        (0, 0, -1, Surface::B) => Some((1, 1)),
        (0, 0, 1, Surface::F) => Some((1, 1)),
        (0, 1, -1, Surface::B) => Some((1, 2)),
        (0, 1, -1, Surface::U) => Some((1, 0)),
        (0, 1, 0, Surface::U) => Some((1, 1)),
        (0, 1, 1, Surface::U) => Some((1, 2)),
        (0, 1, 1, Surface::F) => Some((0, 1)),
        // x=1
        (1, -1, -1, Surface::R) => Some((2, 0)),
        (1, -1, -1, Surface::B) => Some((0, 0)),
        (1, -1, -1, Surface::D) => Some((2, 2)),
        (1, -1, 0, Surface::R) => Some((1, 0)),
        (1, -1, 0, Surface::D) => Some((1, 2)),
        (1, -1, 1, Surface::R) => Some((0, 0)),
        (1, -1, 1, Surface::F) => Some((2, 2)),
        (1, -1, 1, Surface::D) => Some((0, 2)),
        (1, 0, -1, Surface::R) => Some((2, 1)),
        (1, 0, -1, Surface::B) => Some((0, 1)),
        (1, 0, 0, Surface::R) => Some((1, 1)),
        (1, 0, 1, Surface::R) => Some((0, 1)),
        (1, 0, 1, Surface::F) => Some((1, 2)),
        (1, 1, -1, Surface::R) => Some((2, 2)),
        (1, 1, -1, Surface::U) => Some((0, 0)),
        (1, 1, -1, Surface::B) => Some((0, 2)),
        (1, 1, 0, Surface::R) => Some((1, 2)),
        (1, 1, 0, Surface::U) => Some((0, 1)),
        (1, 1, 1, Surface::U) => Some((0, 2)),
        (1, 1, 1, Surface::R) => Some((0, 2)),
        (1, 1, 1, Surface::F) => Some((0, 2)),
        _ => None,
    };
    match pos {
        Some((i, j)) => Some(SurfaceIndex(surface, i, j)),
        None => None,
    }
}

/// The facelet number of the facelet that `piece` shows on `surface`.
pub open spec fn spec_facelet_of(piece: Piece, surface: Surface) -> int {
    spec_surface_number(surface, piece.row_on(surface), piece.column_on(surface))
}

/// No two facelets of the cube share a facelet number: a piece and a
/// surface that it touches are determined by the number of their facelet.
pub proof fn lemma_facelet_unique(
    piece: Piece,
    surface: Surface,
    other_piece: Piece,
    other_surface: Surface,
)
    requires
        piece.touches(surface),
        other_piece.touches(other_surface),
        spec_facelet_of(piece, surface) == spec_facelet_of(other_piece, other_surface),
    ensures
        piece == other_piece,
        surface == other_surface,
{
}

/// Two pairs of a piece and a surface that resolve to the same surface
/// index are the same pair.
pub proof fn lemma_surface_index_of_injective(
    piece: Piece,
    surface: Surface,
    other_piece: Piece,
    other_surface: Surface,
)
    requires
        spec_surface_index_of(piece, surface) is Some,
        spec_surface_index_of(piece, surface) == spec_surface_index_of(
            other_piece,
            other_surface,
        ),
    ensures
        piece == other_piece,
        surface == other_surface,
{
}

/// Rotation Axis
#[derive(PartialEq, Eq, Structural, Hash, Clone, Copy, Debug)]
pub enum Axis {
    X,
    Y,
    Z,
}

/// The index of the rotation plane.
/// (X|Y|Z, -1|0|1)
#[derive(PartialEq, Eq, Structural, Hash, Clone, Copy, Debug)]
pub struct RotationPlane(pub Axis, pub i8);

impl RotationPlane {
    /// Whether the plane is one of the three layers along its axis.
    pub open spec fn wf(self) -> bool {
        -1 <= self.1 <= 1
    }

    /// Whether `piece` lies in the plane.
    pub open spec fn holds(self, piece: Piece) -> bool {
        piece.in_cube() && match self.0 {
            Axis::X => piece.0 == self.1,
            Axis::Y => piece.1 == self.1,
            Axis::Z => piece.2 == self.1,
        }
    }
}

/// The nine pieces of `plane`: the two coordinates across the axis run from
/// -1 to 1, the one that comes first in (x, y, z) more slowly.
pub open spec fn spec_piece_group_of(plane: RotationPlane) -> Seq<Piece> {
    Seq::new(
        9,
        |n: int|
            {
                let a = (n / 3 - 1) as i8;
                let b = (n % 3 - 1) as i8;
                match plane.0 {
                    Axis::X => Piece(plane.1, a, b),
                    Axis::Y => Piece(a, plane.1, b),
                    Axis::Z => Piece(a, b, plane.1),
                }
            },
    )
}

/// The pieces of a plane are the pieces of the cube that lie in it.
pub proof fn lemma_piece_group_members(plane: RotationPlane, piece: Piece)
    requires
        plane.wf(),
    ensures
        plane.holds(piece) <==> spec_piece_group_of(plane).contains(piece),
{
    let group = spec_piece_group_of(plane);
    if plane.holds(piece) {
        let (a, b) = match plane.0 {
            Axis::X => (piece.1, piece.2),
            Axis::Y => (piece.0, piece.2),
            Axis::Z => (piece.0, piece.1),
        };
        let n = 3 * (a + 1) + (b + 1);
        assert(group[n] == piece);
    }
    if group.contains(piece) {
        let n = choose|n: int| 0 <= n < group.len() && group[n] == piece;
        assert(group[n] == piece);
    }
}

/// Nine pieces that is a member of rotation plane.
pub fn piece_group_of(plane: RotationPlane) -> (group: [Piece; 9])
    requires
        plane.wf(),
    ensures
        group@ == spec_piece_group_of(plane),
{
    let RotationPlane(axis, layer) = plane;
    let mut list = [Piece(0, 0, 0);9];
    let mut i: usize = 0;
    for a in -1..2i8
        invariant
            plane == RotationPlane(axis, layer),
            i == 3 * (a + 1),
            forall|n: int| 0 <= n < i ==> #[trigger] list@[n] == spec_piece_group_of(plane)[n],
    {
        for b in -1..2i8
            invariant
                plane == RotationPlane(axis, layer),
                -1 <= a < 2,
                i == 3 * (a + 1) + (b + 1),
                forall|n: int| 0 <= n < i ==> #[trigger] list@[n] == spec_piece_group_of(plane)[n],
        {
            list[i] = match axis {
                Axis::X => Piece(layer, a, b),
                Axis::Y => Piece(a, layer, b),
                Axis::Z => Piece(a, b, layer),
            };
            i += 1;
        }
    }
    proof {
        assert(list@ =~= spec_piece_group_of(plane));
    }
    list
}

/// The place of `plane` in the table of all planes.
pub open spec fn spec_plane_number(plane: RotationPlane) -> int {
    3 * (match plane.0 {
        Axis::X => 0int,
        Axis::Y => 1int,
        Axis::Z => 2int,
    }) + plane.1 + 1
}

/// The place of `plane` in the table of all planes.
pub fn plane_number(plane: RotationPlane) -> (n: usize)
    requires
        plane.wf(),
    ensures
        n == spec_plane_number(plane),
        n < 9,
{
    let RotationPlane(axis, layer) = plane;
    let base: usize = match axis {
        Axis::X => 0,
        Axis::Y => 3,
        Axis::Z => 6,
    };
    if layer == -1 {
        base
    } else if layer == 0 {
        base + 1
    } else {
        base + 2
    }
}

/// The table of the pieces of all nine planes, each at the place of its
/// plane.
pub fn create_plane_group() -> (table: Vec<[Piece; 9]>)
    ensures
        table@.len() == 9,
        forall|plane: RotationPlane|
            plane.wf() ==> (#[trigger] table@[spec_plane_number(plane)])@ == spec_piece_group_of(
                plane,
            ),
{
    let mut out: Vec<[Piece; 9]> = Vec::new();
    for x in -1..2i8
        invariant
            out@.len() == x + 1,
            forall|k: int|
                -1 <= k < x ==> (#[trigger] out@[k + 1])@ == spec_piece_group_of(
                    RotationPlane(Axis::X, k as i8),
                ),
    {
        out.push(piece_group_of(RotationPlane(Axis::X, x)));
    }
    for y in -1..2i8
        invariant
            out@.len() == 3 + y + 1,
            forall|k: int|
                -1 <= k < 2 ==> (#[trigger] out@[k + 1])@ == spec_piece_group_of(
                    RotationPlane(Axis::X, k as i8),
                ),
            forall|k: int|
                -1 <= k < y ==> (#[trigger] out@[3 + k + 1])@ == spec_piece_group_of(
                    RotationPlane(Axis::Y, k as i8),
                ),
    {
        out.push(piece_group_of(RotationPlane(Axis::Y, y)));
    }
    for z in -1..2i8
        invariant
            out@.len() == 6 + z + 1,
            forall|k: int|
                -1 <= k < 2 ==> (#[trigger] out@[k + 1])@ == spec_piece_group_of(
                    RotationPlane(Axis::X, k as i8),
                ),
            forall|k: int|
                -1 <= k < 2 ==> (#[trigger] out@[3 + k + 1])@ == spec_piece_group_of(
                    RotationPlane(Axis::Y, k as i8),
                ),
            forall|k: int|
                -1 <= k < z ==> (#[trigger] out@[6 + k + 1])@ == spec_piece_group_of(
                    RotationPlane(Axis::Z, k as i8),
                ),
    {
        out.push(piece_group_of(RotationPlane(Axis::Z, z)));
    }
    proof {
        assert forall|plane: RotationPlane| plane.wf() implies (#[trigger] out@[spec_plane_number(
            plane,
        )])@ == spec_piece_group_of(plane) by {
            let k = plane.1 as int;
            match plane.0 {
                Axis::X => {
                    assert(out@[k + 1]@ == spec_piece_group_of(RotationPlane(Axis::X, k as i8)));
                },
                Axis::Y => {
                    assert(out@[3 + k + 1]@ == spec_piece_group_of(
                        RotationPlane(Axis::Y, k as i8),
                    ));
                },
                Axis::Z => {
                    assert(out@[6 + k + 1]@ == spec_piece_group_of(
                        RotationPlane(Axis::Z, k as i8),
                    ));
                },
            }
        }
    }
    out
}

/// Representation of rotation corresponding to a `Command`: the axis, the
/// layers that turn (bit 0 for the layer at -1, bit 1 for the layer at 0,
/// bit 2 for the layer at 1) and the signed number of quarter turns.
#[derive(PartialEq, Eq, Structural, Hash, Clone, Copy, Debug)]
pub struct Rotation {
    pub axis: Axis,
    pub indices: u8,
    pub clockwise: i8,
}

impl Rotation {
    /// Whether `indices` selects layers of the cube only.
    pub open spec fn wf(self) -> bool {
        self.indices < 8
    }

    /// Makes the rotation `n` times as many quarter turns.
    fn repeat(&mut self, n: i8)
        requires
            i8::MIN <= old(self).clockwise * n <= i8::MAX,
        ensures
            final(self).clockwise == old(self).clockwise * n,
            final(self).axis == old(self).axis,
            final(self).indices == old(self).indices,
    {
        self.clockwise = self.clockwise * n;
    }
}

/// The rotation of the layers `indices` about `axis` by `clockwise`
/// quarter turns.
fn rot(axis: Axis, indices: u8, clockwise: i8) -> (r: Rotation)
    ensures
        r == (Rotation { axis, indices, clockwise }),
{
    Rotation { axis, indices, clockwise }
}

/// The rotation that a single application of `mov` stands for.
pub open spec fn spec_base_rotation(mov: Move) -> Rotation {
    match mov {
        Move::R => Rotation { axis: Axis::X, indices: 0b100, clockwise: 1 },
        Move::L => Rotation { axis: Axis::X, indices: 0b001, clockwise: -1i8 },
        Move::U => Rotation { axis: Axis::Y, indices: 0b100, clockwise: 1 },
        Move::D => Rotation { axis: Axis::Y, indices: 0b001, clockwise: -1i8 },
        Move::F => Rotation { axis: Axis::Z, indices: 0b100, clockwise: 1 },
        Move::B => Rotation { axis: Axis::Z, indices: 0b001, clockwise: -1i8 },
        Move::r => Rotation { axis: Axis::X, indices: 0b110, clockwise: 1 },
        Move::l => Rotation { axis: Axis::X, indices: 0b011, clockwise: -1i8 },
        Move::u => Rotation { axis: Axis::Y, indices: 0b110, clockwise: 1 },
        Move::d => Rotation { axis: Axis::Y, indices: 0b011, clockwise: -1i8 },
        Move::f => Rotation { axis: Axis::Z, indices: 0b110, clockwise: 1 },
        Move::b => Rotation { axis: Axis::Z, indices: 0b011, clockwise: -1i8 },
        Move::x => Rotation { axis: Axis::X, indices: 0b111, clockwise: 1 },
        Move::y => Rotation { axis: Axis::Y, indices: 0b111, clockwise: 1 },
        Move::z => Rotation { axis: Axis::Z, indices: 0b111, clockwise: 1 },
        Move::M => Rotation { axis: Axis::X, indices: 0b010, clockwise: -1i8 },
        Move::E => Rotation { axis: Axis::Y, indices: 0b010, clockwise: -1i8 },
        Move::S => Rotation { axis: Axis::Z, indices: 0b010, clockwise: 1 },
    }
}

/// The rotation that `c` stands for: that of its move, with as many
/// quarter turns as the command repeats it, counted forwards where the move
/// turns clockwise and backwards where it does not.
pub open spec fn spec_rotation_of(c: Command) -> Rotation {
    let base = spec_base_rotation(c.0);
    Rotation {
        axis: base.axis,
        indices: base.indices,
        clockwise: if base.clockwise == 1 {
            c.1
        } else {
            (-c.1) as i8
        },
    }
}

/// Whether the quarter turns of `c` fit the rotation's counter.
pub open spec fn rotation_fits(c: Command) -> bool {
    spec_base_rotation(c.0).clockwise == 1 || c.1 > i8::MIN
}

/// The quarter turns of a command are those of its move, times its
/// repetition.
pub proof fn lemma_rotation_of_clockwise(c: Command)
    requires
        rotation_fits(c),
    ensures
        spec_rotation_of(c).clockwise == spec_base_rotation(c.0).clockwise * c.1,
{
    let unit = spec_base_rotation(c.0).clockwise;
    let rep = c.1;
    assert(unit == 1 ==> unit * rep == rep) by (nonlinear_arith);
    assert(unit == -1 ==> unit * rep == -rep) by (nonlinear_arith);
}

/// Get rotation from a `Command`.
pub fn rotation_of(c: Command) -> (r: Rotation)
    requires
        rotation_fits(c),
    ensures
        r == spec_rotation_of(c),
        r.wf(),
{
    let mut r = match c.0 {
        Move::R => rot(Axis::X, 0b100, 1),
        Move::L => rot(Axis::X, 0b001, -1),
        Move::U => rot(Axis::Y, 0b100, 1),
        Move::D => rot(Axis::Y, 0b001, -1),
        Move::F => rot(Axis::Z, 0b100, 1),
        Move::B => rot(Axis::Z, 0b001, -1),
        Move::r => rot(Axis::X, 0b110, 1),
        Move::l => rot(Axis::X, 0b011, -1),
        Move::u => rot(Axis::Y, 0b110, 1),
        Move::d => rot(Axis::Y, 0b011, -1),
        Move::f => rot(Axis::Z, 0b110, 1),
        Move::b => rot(Axis::Z, 0b011, -1),
        Move::x => rot(Axis::X, 0b111, 1),
        Move::y => rot(Axis::Y, 0b111, 1),
        Move::z => rot(Axis::Z, 0b111, 1),
        Move::M => rot(Axis::X, 0b010, -1),
        Move::E => rot(Axis::Y, 0b010, -1),
        Move::S => rot(Axis::Z, 0b010, 1),
    };
    proof {
        lemma_rotation_of_clockwise(c);
    }
    r.repeat(c.1);
    r
}

} // verus!
