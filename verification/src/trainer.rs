//! Training the first two layers: problems made from the solution lists,
//! the solution shown as rotations on a cube that is never turned as a
//! whole, and the stickers that a problem does not ask about.

use crate::cfop::{F2L_LIST, OLL_LIST, PLL_LIST};
use crate::coord::{
    rotation_of, spec_facelet_of, spec_rotation_of, surface_index_of, surface_number, Axis,
    Piece, Rotation, Surface, SurfaceIndex, SURFACE_LIST,
};
use crate::draw_usize;
use crate::geometry::{
    facelet_position, layer_selected, lemma_facelet_roundtrip, lemma_rotate_sticker,
    lemma_sticker_roundtrip, lemma_turn_layers_range, masked_turns, normal_of, rotate,
    surface_facing, turn_layers, LayerTurns, Vector,
};
use crate::matrix::math::{
    compose, identity_seq, is_permutation, lemma_compose_associative, lemma_compose_identity,
    lemma_compose_permutation, PermutationMatrix,
};
use crate::matrix::{
    lemma_apply_all_concat, lemma_of_permutation, lemma_turn_seq_compose, lemma_turn_seq_full,
    lemma_turn_seq_index, lemma_turn_seq_permutation, of, spec_apply_all, spec_matof, spec_of,
    turn_seq,
};
use crate::parser::notation::{commands_valid, elem_valid, elems_valid, lemma_parse_sound};
use crate::parser::{parse, spec_parse, ParseError};
use crate::{
    elems_view, flatten, flattenable, lemma_flatten_inverted_group, repeated, reverse_primed,
    spec_flatten, Command, Elem, ElemView, Move,
};
use rand::distributions::{Distribution, WeightedIndex};
use std::collections::HashSet;
use vstd::prelude::*;

verus! {

/// A direction of the cube: an axis and the sign 1 or -1.
pub type Direction = (Axis, i8);

/// Every direction is taken to itself.
pub const NO_ROT: [(Direction, Direction); 3] = [
    ((Axis::X, 1), (Axis::X, 1)),
    ((Axis::Y, 1), (Axis::Y, 1)),
    ((Axis::Z, 1), (Axis::Z, 1)),
];

/// The directions after the whole cube was turned by the move `y`.
pub const Y_ROT: [(Direction, Direction); 3] = [
    ((Axis::X, 1), (Axis::Z, -1)),
    ((Axis::Y, 1), (Axis::Y, 1)),
    ((Axis::Z, 1), (Axis::X, 1)),
];

/// The direction opposite to `d`.
pub open spec fn spec_reverse(d: Direction) -> Direction {
    (d.0, (-d.1) as i8)
}

/// Whether `d` has the sign 1 or -1.
pub open spec fn is_direction(d: Direction) -> bool {
    d.1 == 1 || d.1 == -1
}

/// The direction opposite to `d`.
fn reverse(d: Direction) -> (r: Direction)
    requires
        is_direction(d),
    ensures
        r == spec_reverse(d),
        is_direction(r),
{
    (d.0, -d.1)
}

/// The lowest three bits of `x` in reverse order: bit 0 and bit 2 change
/// places.
pub open spec fn spec_rev3bits(x: u8) -> u8 {
    (4 * (x % 2) + 2 * ((x / 2) % 2) + (x / 4) % 2) as u8
}

/// The layers that `x` selects, counted from the other end.
pub fn rev3bits(x: u8) -> (ret: u8)
    ensures
        ret == spec_rev3bits(x),
        ret < 8,
        forall|k: int| -1 <= k <= 1 ==> #[trigger] layer_selected(ret, k) == layer_selected(x, -k),
{
    let mut ret: u8 = 0;
    for i in 0..3u8
        invariant
            i == 0 ==> ret == 0,
            i == 1 ==> ret == 4 * (x % 2),
            i == 2 ==> ret == 4 * (x % 2) + 2 * ((x / 2) % 2),
            i == 3 ==> ret == 4 * (x % 2) + 2 * ((x / 2) % 2) + (x / 4) % 2,
    {
        let ghost before = ret;
        if x & (1u8 << i) > 0 {
            ret |= 1u8 << (2 - i);
        }
        proof {
            assert(1u8 << 0u8 == 1 && 1u8 << 1u8 == 2 && 1u8 << 2u8 == 4) by (bit_vector);
            assert((x & 1 > 0) == (x % 2 == 1)) by (bit_vector);
            assert((x & 2 > 0) == ((x / 2) % 2 == 1)) by (bit_vector);
            assert((x & 4 > 0) == ((x / 4) % 2 == 1)) by (bit_vector);
            assert(0u8 | 4 == 4) by (bit_vector);
            assert(before == 0 || before == 4 ==> before | 2 == before + 2) by (bit_vector);
            assert(before == 0 || before == 2 || before == 4 || before == 6 ==> before | 1
                == before + 1) by (bit_vector);
        }
    }
    ret
}

/// How the directions of a cube that was turned as a whole lie: for the
/// positive direction of each axis, the direction in which it points now.
/// The negative directions point opposite.
#[derive(Clone, Copy, Debug, PartialEq, Eq)]
pub struct SwitchFaceMatrix {
    pub x: Direction,
    pub y: Direction,
    pub z: Direction,
}

impl SwitchFaceMatrix {
    /// Where the direction `d` points now.
    pub open spec fn image(self, d: Direction) -> Direction {
        let positive = match d.0 {
            Axis::X => self.x,
            Axis::Y => self.y,
            Axis::Z => self.z,
        };
        if d.1 == 1 {
            positive
        } else {
            spec_reverse(positive)
        }
    }

    /// Whether every direction points in a direction.
    pub open spec fn wf(self) -> bool {
        is_direction(self.x) && is_direction(self.y) && is_direction(self.z)
    }

    /// Whether no two directions point along the same axis.
    pub open spec fn one_to_one(self) -> bool {
        self.x.0 != self.y.0 && self.x.0 != self.z.0 && self.y.0 != self.z.0
    }

    /// The cube turned as `other` says and then as `self` says.
    pub open spec fn spec_apply(self, other: Self) -> Self {
        SwitchFaceMatrix {
            x: self.image(other.x),
            y: self.image(other.y),
            z: self.image(other.z),
        }
    }

    /// The direction that points in direction `d`.
    pub open spec fn source(self, d: Direction) -> Direction {
        let positive = if self.x.0 == d.0 {
            (Axis::X, self.x.1)
        } else if self.y.0 == d.0 {
            (Axis::Y, self.y.1)
        } else {
            (Axis::Z, self.z.1)
        };
        if d.1 == 1 {
            positive
        } else {
            spec_reverse(positive)
        }
    }

    /// The cube turned back.
    pub open spec fn spec_inv(self) -> Self {
        SwitchFaceMatrix {
            x: self.source((Axis::X, 1)),
            y: self.source((Axis::Y, 1)),
            z: self.source((Axis::Z, 1)),
        }
    }

    /// Whether `tbl` says of each axis where its positive or its negative
    /// direction points.
    pub open spec fn table_valid(tbl: [(Direction, Direction); 3]) -> bool {
        &&& forall|k: int|
            0 <= k < 3 ==> is_direction((#[trigger] tbl[k]).0) && is_direction(tbl[k].1)
        &&& exists|k: int| 0 <= k < 3 && (#[trigger] tbl[k]).0.0 == Axis::X
        &&& exists|k: int| 0 <= k < 3 && (#[trigger] tbl[k]).0.0 == Axis::Y
        &&& exists|k: int| 0 <= k < 3 && (#[trigger] tbl[k]).0.0 == Axis::Z
    }

    /// The directions as `tbl` names them.
    pub fn new(tbl: [(Direction, Direction); 3]) -> (m: Self)
        requires
            Self::table_valid(tbl),
        ensures
            m.wf(),
            forall|k: int|
                0 <= k < 3 ==> m.image((#[trigger] tbl[k]).0) == tbl[k].1 && m.image(
                    spec_reverse(tbl[k].0),
                ) == spec_reverse(tbl[k].1),
    {
        let mut m = SwitchFaceMatrix { x: (Axis::X, 1), y: (Axis::Y, 1), z: (Axis::Z, 1) };
        for k in 0..3usize
            invariant
                Self::table_valid(tbl),
                m.wf(),
                forall|j: int|
                    0 <= j < k && (forall|l: int| j < l < k ==> (#[trigger] tbl[l]).0.0
                        != tbl[j].0.0) ==> m.image((#[trigger] tbl[j]).0) == tbl[j].1,
        {
            let (a, b) = tbl[k];
            m.register(a, b);
        }
        proof {
            let x = choose|k: int| 0 <= k < 3 && (#[trigger] tbl[k]).0.0 == Axis::X;
            let y = choose|k: int| 0 <= k < 3 && (#[trigger] tbl[k]).0.0 == Axis::Y;
            let z = choose|k: int| 0 <= k < 3 && (#[trigger] tbl[k]).0.0 == Axis::Z;
            assert(tbl[0].0.0 != tbl[1].0.0 && tbl[0].0.0 != tbl[2].0.0 && tbl[1].0.0
                != tbl[2].0.0);
        }
        m
    }

    /// The cube turned back: each direction is taken to the direction that
    /// points to it.
    pub fn inv(self) -> (m: Self)
        requires
            self.wf(),
            self.one_to_one(),
        ensures
            m == self.spec_inv(),
            m.wf(),
            m.one_to_one(),
            forall|d: Direction| is_direction(d) ==> m.image(#[trigger] self.image(d)) == d,
            forall|d: Direction| is_direction(d) ==> self.image(#[trigger] m.image(d)) == d,
    {
        let mut m = SwitchFaceMatrix { x: (Axis::X, 1), y: (Axis::Y, 1), z: (Axis::Z, 1) };
        m.register(self.x, (Axis::X, 1));
        m.register(self.y, (Axis::Y, 1));
        m.register(self.z, (Axis::Z, 1));
        m
    }

    /// Lets the direction `a` point in direction `b`, and the direction
    /// opposite to `a` in the direction opposite to `b`.
    fn register(&mut self, a: Direction, b: Direction)
        requires
            old(self).wf(),
            is_direction(a),
            is_direction(b),
        ensures
            final(self).wf(),
            final(self).image(a) == b,
            final(self).image(spec_reverse(a)) == spec_reverse(b),
            forall|d: Direction| d.0 != a.0 ==> final(self).image(d) == old(self).image(d),
    {
        let positive = if a.1 == 1 {
            b
        } else {
            reverse(b)
        };
        match a.0 {
            Axis::X => {
                self.x = positive;
            },
            Axis::Y => {
                self.y = positive;
            },
            Axis::Z => {
                self.z = positive;
            },
        }
    }

    /// Where `d` points now.
    fn get(&self, d: Direction) -> (r: Direction)
        requires
            self.wf(),
            is_direction(d),
        ensures
            r == self.image(d),
            is_direction(r),
    {
        let positive = match d.0 {
            Axis::X => self.x,
            Axis::Y => self.y,
            Axis::Z => self.z,
        };
        if d.1 == 1 {
            positive
        } else {
            reverse(positive)
        }
    }

    /// The cube turned as `other` says and then as `self` says.
    pub fn apply(self, other: Self) -> (m: Self)
        requires
            self.wf(),
            other.wf(),
        ensures
            m == self.spec_apply(other),
            m.wf(),
            forall|d: Direction| is_direction(d) ==> #[trigger] m.image(d) == self.image(
                other.image(d),
            ),
            self.one_to_one() && other.one_to_one() ==> m.one_to_one(),
    {
        SwitchFaceMatrix {
            x: self.get(other.x),
            y: self.get(other.y),
            z: self.get(other.z),
        }
    }

    /// The rotation as it reads on the turned cube: its axis, its quarter
    /// turns and its layers.
    pub open spec fn spec_interpret(self, axis: Axis, clockwise: i8, indices: u8) -> (Axis, i8, u8) {
        let sign = if clockwise > 0 { 1i8 } else { -1i8 };
        let r = self.image((axis, sign));
        let rev = sign * r.1;
        (r.0, (rev * clockwise) as i8, if rev < 0 { spec_rev3bits(indices) } else { indices })
    }

    /// The rotation as it reads on the turned cube: its axis, its quarter
    /// turns and its layers.
    pub fn interpret(&self, axis: Axis, clockwise: i8, indices: u8) -> (r: (Axis, i8, u8))
        requires
            self.wf(),
            clockwise > i8::MIN,
        ensures
            r == self.spec_interpret(axis, clockwise, indices),
            r.1 == clockwise || r.1 == -clockwise,
            indices < 8 ==> r.2 < 8,
    {
        let sign: i8 = if clockwise > 0 { 1 } else { -1 };
        let r = self.get((axis, sign));
        proof {
            assert(sign * r.1 == 1 || sign * r.1 == -1) by (nonlinear_arith)
                requires
                    sign == 1 || sign == -1,
                    r.1 == 1 || r.1 == -1,
            ;
        }
        let rev = sign * r.1;
        proof {
            assert(rev * clockwise == clockwise || rev * clockwise == -clockwise)
                by (nonlinear_arith)
                requires
                    rev == 1 || rev == -1,
            ;
        }
        let indices = if rev < 0 {
            rev3bits(indices)
        } else {
            indices
        };
        (r.0, rev * clockwise, indices)
    }
}

impl std::ops::Mul for SwitchFaceMatrix {
    type Output = Self;

    /// The cube turned as `rhs` says and then as `self` says.
    fn mul(self, rhs: Self) -> (m: Self)
        ensures
            m.wf(),
            forall|d: Direction| is_direction(d) ==> #[trigger] m.image(d) == self.image(
                rhs.image(d),
            ),
            self.one_to_one() && rhs.one_to_one() ==> m.one_to_one(),
    {
        let m = self.apply(rhs);
        proof {
            assert(m == self.spec_apply(rhs));
        }
        m
    }
}

impl vstd::std_specs::ops::MulSpecImpl for SwitchFaceMatrix {
    open spec fn obeys_mul_spec() -> bool {
        true
    }

    open spec fn mul_req(self, rhs: Self) -> bool {
        self.wf() && rhs.wf()
    }

    open spec fn mul_spec(self, rhs: Self) -> Self {
        self.spec_apply(rhs)
    }
}

/// The rotations that show `seq` on a cube that is never turned as a
/// whole, when the directions of the cube lie as `m` says: a turn of the
/// whole cube by `y` or `y'` changes how the directions lie and shows
/// nothing, every other command shows as its rotation reads on the turned
/// cube.
pub open spec fn spec_y_interpret(seq: Seq<Command>, m: SwitchFaceMatrix) -> Seq<Rotation>
    decreases seq.len(),
{
    if seq.len() == 0 {
        Seq::empty()
    } else {
        let c = seq[0];
        let rest = seq.drop_first();
        if c == Command(Move::y, 1) {
            spec_y_interpret(rest, spec_y_rot().spec_apply(m))
        } else if c == Command(Move::y, -1i8) {
            spec_y_interpret(rest, spec_y_rot().spec_inv().spec_apply(m))
        } else {
            let rot = spec_rotation_of(c);
            let (axis, clockwise, indices) = m.spec_interpret(
                rot.axis,
                rot.clockwise,
                rot.indices,
            );
            seq![Rotation { axis, clockwise, indices }] + spec_y_interpret(rest, m)
        }
    }
}

/// How the directions lie on a cube that was not turned.
pub open spec fn spec_no_rot() -> SwitchFaceMatrix {
    SwitchFaceMatrix { x: (Axis::X, 1), y: (Axis::Y, 1), z: (Axis::Z, 1) }
}

/// How the directions lie on a cube that was turned by the move `y`.
pub open spec fn spec_y_rot() -> SwitchFaceMatrix {
    SwitchFaceMatrix { x: (Axis::Z, -1i8), y: (Axis::Y, 1), z: (Axis::X, 1) }
}

/// How the directions lie on a cube that was turned as a whole by `q`
/// quarter turns of the move `y`.
pub open spec fn spec_frame(q: int) -> SwitchFaceMatrix {
    if q % 4 == 0 {
        spec_no_rot()
    } else if q % 4 == 1 {
        spec_y_rot()
    } else if q % 4 == 2 {
        SwitchFaceMatrix { x: (Axis::X, -1i8), y: (Axis::Y, 1), z: (Axis::Z, -1i8) }
    } else {
        SwitchFaceMatrix { x: (Axis::Z, 1), y: (Axis::Y, 1), z: (Axis::X, -1i8) }
    }
}

/// The matrix of `q` quarter turns of the whole cube by the move `y`.
pub open spec fn spec_whole_y(q: int) -> Seq<u8> {
    turn_seq(Axis::Y, LayerTurns(-q, -q, -q))
}

/// How often `seq` turns the whole cube by `y`, a turn by `y'` counting
/// backwards.
pub open spec fn spec_net_y(seq: Seq<Command>) -> int
    decreases seq.len(),
{
    if seq.len() == 0 {
        0
    } else {
        spec_net_y(seq.drop_first()) + (if seq[0] == Command(Move::y, 1) {
            1int
        } else if seq[0] == Command(Move::y, -1i8) {
            -1int
        } else {
            0int
        })
    }
}

/// The matrix of the cube after the rotations of `rots` are made one after
/// another, the first one first, on a cube with the matrix `state`.
pub open spec fn spec_apply_rotations(rots: Seq<Rotation>, state: Seq<u8>) -> Seq<u8>
    decreases rots.len(),
{
    if rots.len() == 0 {
        state
    } else {
        compose(spec_of(rots.last()), spec_apply_rotations(rots.drop_last(), state))
    }
}

/// The quarter turns of each layer as they read on a cube that was turned
/// as a whole: counted the other way round, and from the other end, where
/// the axis points backwards now.
pub open spec fn spec_turns_read(turns: LayerTurns, backwards: bool) -> LayerTurns {
    if backwards {
        LayerTurns(-turns.2, -turns.1, -turns.0)
    } else {
        turns
    }
}

/// Turning layers and then the whole cube is turning the whole cube and
/// then the layers as they read on the turned cube.
proof fn lemma_turn_read(axis: Axis, turns: LayerTurns, q: int, f: int)
    requires
        0 <= f < 54,
    ensures
        ({
            let whole = LayerTurns(-q, -q, -q);
            let (read, sign) = spec_frame(q).image((axis, 1));
            turn_layers(Axis::Y, whole, turn_layers(axis, turns, f)) == turn_layers(
                read,
                spec_turns_read(turns, sign == -1),
                turn_layers(Axis::Y, whole, f),
            )
        }),
{
    let whole = LayerTurns(-q, -q, -q);
    let (read, sign) = spec_frame(q).image((axis, 1));
    lemma_facelet_roundtrip(f);
    let pos = facelet_position(f);
    let s = Surface::from_ordinal(f / 9);
    let c = turns.at(pos.along(axis));
    // Layers first.
    lemma_rotate_sticker(axis, c, pos, s);
    let pos1 = rotate(axis, c, pos);
    let s1 = surface_facing(rotate(axis, c, normal_of(s)));
    lemma_sticker_roundtrip(pos1, s1);
    // The whole cube first.
    lemma_rotate_sticker(Axis::Y, -q, pos, s);
    let pos2 = rotate(Axis::Y, -q, pos);
    let s2 = surface_facing(rotate(Axis::Y, -q, normal_of(s)));
    lemma_sticker_roundtrip(pos2, s2);
    lemma_rotate_read(axis, c, q, pos);
    lemma_rotate_read(axis, c, q, normal_of(s));
}

/// Quarter turns about an axis and then of the whole cube are quarter turns
/// of the whole cube and then about the axis as it reads on the turned
/// cube.
proof fn lemma_rotate_read(axis: Axis, c: int, q: int, v: Vector)
    ensures
        ({
            let (read, sign) = spec_frame(q).image((axis, 1));
            &&& rotate(Axis::Y, -q, rotate(axis, c, v)) == rotate(
                read,
                if sign == -1 { -c } else { c },
                rotate(Axis::Y, -q, v),
            )
            &&& rotate(Axis::Y, -q, v).along(read) == (if sign == -1 {
                -v.along(axis)
            } else {
                v.along(axis)
            })
        }),
{
}

/// The layers that a mask with its three bits reversed selects are those
/// that the mask selects, counted from the other end.
proof fn lemma_rev3bits_layers(x: u8, k: int)
    requires
        x < 8,
        -1 <= k <= 1,
    ensures
        spec_rev3bits(x) < 8,
        layer_selected(spec_rev3bits(x), k) == layer_selected(x, -k),
{
}

/// A rotation as it reads on a cube that was turned as a whole by `y`.
pub open spec fn spec_rotation_read(rot: Rotation, q: int) -> Rotation {
    let (axis, clockwise, indices) = spec_frame(q).spec_interpret(
        rot.axis,
        rot.clockwise,
        rot.indices,
    );
    Rotation { axis, clockwise, indices }
}

/// What a rotation reads as: about the axis to which its own axis points,
/// and the other way round and with its layers counted from the other end
/// where its own axis points backwards now.
proof fn lemma_rotation_read(rot: Rotation, q: int)
    requires
        rot.wf(),
        rot.clockwise > i8::MIN,
    ensures
        ({
            let (read, sign) = spec_frame(q).image((rot.axis, 1));
            let r = spec_rotation_read(rot, q);
            &&& r.wf()
            &&& r.axis == read
            &&& sign == 1 ==> r.clockwise == rot.clockwise && r.indices == rot.indices
            &&& sign == -1 ==> r.clockwise == -rot.clockwise && r.indices == spec_rev3bits(
                rot.indices,
            )
            &&& sign == 1 || sign == -1
        }),
{
    let m = spec_frame(q);
    let (read, sign) = m.image((rot.axis, 1));
    let dir: i8 = if rot.clockwise > 0 { 1i8 } else { -1i8 };
    let found = m.image((rot.axis, dir));
    assert(found.0 == read);
    assert(found.1 == (if dir == 1 { sign } else { (-sign) as i8 }));
    let rev = dir * found.1;
    assert(rev == sign) by (nonlinear_arith)
        requires
            dir == 1 || dir == -1,
            sign == 1 || sign == -1,
            found.1 == (if dir == 1 { sign as int } else { -sign }),
            rev == dir * found.1,
    ;
    assert(rev * rot.clockwise == (if sign == 1 { rot.clockwise as int } else { -rot.clockwise }))
        by (nonlinear_arith)
        requires
            rev == sign,
            sign == 1 || sign == -1,
    ;
    lemma_rev3bits_layers(rot.indices, 0);
}

/// A rotation and then a turn of the whole cube by `y` are the turn of the
/// whole cube and then the rotation as it reads on the turned cube.
pub proof fn lemma_of_read(rot: Rotation, q: int)
    requires
        rot.wf(),
        rot.clockwise > i8::MIN,
    ensures
        compose(spec_of(rot), spec_whole_y(q)) == compose(
            spec_whole_y(q),
            spec_of(spec_rotation_read(rot, q)),
        ),
{
    let whole = LayerTurns(-q, -q, -q);
    let turns = masked_turns(rot.indices, -(rot.clockwise as int));
    let r = spec_rotation_read(rot, q);
    let (read, sign) = spec_frame(q).image((rot.axis, 1));
    let turns_read = masked_turns(r.indices, -(r.clockwise as int));
    lemma_rotation_read(rot, q);
    lemma_rev3bits_layers(rot.indices, -1);
    lemma_rev3bits_layers(rot.indices, 0);
    lemma_rev3bits_layers(rot.indices, 1);
    assert(turns_read == spec_turns_read(turns, sign == -1));
    lemma_turn_seq_index(Axis::Y, whole);
    lemma_turn_seq_index(rot.axis, turns);
    lemma_turn_seq_index(read, turns_read);
    let left = compose(spec_of(rot), spec_whole_y(q));
    let right = compose(spec_whole_y(q), spec_of(r));
    assert forall|f: int| 0 <= f < 54 implies left[f] == right[f] by {
        lemma_turn_layers_range(rot.axis, turns, f);
        lemma_turn_layers_range(Axis::Y, whole, f);
        lemma_turn_read(rot.axis, turns, q, f);
    }
    assert(left =~= right);
}

/// Rotations made on a cube give a cube.
proof fn lemma_apply_rotations_permutation(rots: Seq<Rotation>, state: Seq<u8>)
    requires
        is_permutation(state),
    ensures
        is_permutation(spec_apply_rotations(rots, state)),
    decreases rots.len(),
{
    if rots.len() > 0 {
        lemma_apply_rotations_permutation(rots.drop_last(), state);
        lemma_of_permutation(rots.last());
        lemma_compose_permutation(
            spec_of(rots.last()),
            spec_apply_rotations(rots.drop_last(), state),
        );
    }
}

/// Making the rotations of `a` and then those of `b` is making those of
/// `a + b`.
proof fn lemma_apply_rotations_concat(a: Seq<Rotation>, b: Seq<Rotation>, state: Seq<u8>)
    ensures
        spec_apply_rotations(a + b, state) == spec_apply_rotations(
            b,
            spec_apply_rotations(a, state),
        ),
    decreases b.len(),
{
    if b.len() == 0 {
        assert(a + b =~= a);
    } else {
        assert((a + b).drop_last() =~= a + b.drop_last());
        assert((a + b).last() == b.last());
        lemma_apply_rotations_concat(a, b.drop_last(), state);
    }
}

/// How the directions lie after one more turn of the whole cube by `y`,
/// forwards or backwards.
#[verifier::rlimit(40)]
proof fn lemma_frame_step(step: int, q: int)
    requires
        step == 1 || step == -1,
    ensures
        spec_frame(q + step) == (if step == 1 {
            spec_y_rot().spec_apply(spec_frame(q))
        } else {
            spec_y_rot().spec_inv().spec_apply(spec_frame(q))
        }),
{
    let r = q % 4;
    assert((q + step) % 4 == (if step == 1 {
        if r == 3 { 0int } else { r + 1 }
    } else {
        if r == 0 { 3int } else { r - 1 }
    }));
}

/// The matrix of one more turn of the whole cube by `y`, forwards or
/// backwards, on a cube that was turned `q` times.
#[verifier::rlimit(40)]
proof fn lemma_whole_y_step(step: int, q: int)
    requires
        step == 1 || step == -1,
    ensures
        compose(spec_matof(Command(Move::y, step as i8)), spec_whole_y(q)) == spec_whole_y(
            q + step,
        ),
{
    let rot = spec_rotation_of(Command(Move::y, step as i8));
    assert(rot == Rotation { axis: Axis::Y, indices: 0b111, clockwise: step as i8 });
    let one = LayerTurns(-step, -step, -step);
    let done = LayerTurns(-q, -q, -q);
    assert(masked_turns(0b111, -(rot.clockwise as int)) == one);
    lemma_turn_seq_compose(Axis::Y, one, done);
    assert(one.plus(done) == LayerTurns(-(q + step), -(q + step), -(q + step)));
}

/// A command on a cube that was turned as a whole by `y` is the rotation as
/// which it reads, made before the cube was turned.
proof fn lemma_command_read(c: Command, q: int, state: Seq<u8>)
    requires
        is_permutation(state),
        c.1 > i8::MIN,
    ensures
        ({
            let read = spec_rotation_read(spec_rotation_of(c), q);
            &&& is_permutation(compose(spec_of(read), state))
            &&& compose(spec_matof(c), compose(spec_whole_y(q), state)) == compose(
                spec_whole_y(q),
                compose(spec_of(read), state),
            )
        }),
{
    let whole = spec_whole_y(q);
    let rot = spec_rotation_of(c);
    let read = spec_rotation_read(rot, q);
    lemma_of_permutation(rot);
    lemma_of_permutation(read);
    lemma_turn_seq_permutation(Axis::Y, LayerTurns(-q, -q, -q));
    lemma_of_read(rot, q);
    lemma_compose_associative(spec_matof(c), whole, state);
    lemma_compose_associative(whole, spec_of(read), state);
    lemma_compose_permutation(spec_of(read), state);
}

/// One command made on a cube.
proof fn lemma_apply_one(c: Command, state: Seq<u8>)
    ensures
        spec_apply_all(seq![c], state) == compose(spec_matof(c), state),
{
    assert(seq![c].drop_last() =~= Seq::<Command>::empty());
    reveal_with_fuel(spec_apply_all, 2);
}

/// One rotation made on a cube.
proof fn lemma_apply_one_rotation(rot: Rotation, state: Seq<u8>)
    ensures
        spec_apply_rotations(seq![rot], state) == compose(spec_of(rot), state),
{
    assert(seq![rot].drop_last() =~= Seq::<Rotation>::empty());
    reveal_with_fuel(spec_apply_rotations, 2);
}

/// On a cube that was turned as a whole by `q` quarter turns of `y`, the
/// commands of `seq` lead where the rotations that show them lead on the
/// cube before it was turned, but for the turns of the whole cube: those
/// of `seq` come on top of the `q`.
pub proof fn lemma_y_interpret_from(seq: Seq<Command>, q: int, state: Seq<u8>)
    requires
        is_permutation(state),
        forall|k: int| 0 <= k < seq.len() ==> (#[trigger] seq[k]).1 > i8::MIN,
    ensures
        spec_apply_all(seq, compose(spec_whole_y(q), state)) == compose(
            spec_whole_y(q + spec_net_y(seq)),
            spec_apply_rotations(spec_y_interpret(seq, spec_frame(q)), state),
        ),
    decreases seq.len(),
{
    let whole = spec_whole_y(q);
    if seq.len() > 0 {
        let c = seq[0];
        let rest = seq.drop_first();
        assert(seq =~= seq![c] + rest);
        lemma_apply_all_concat(seq![c], rest, compose(whole, state));
        lemma_apply_one(c, compose(whole, state));
        if c == Command(Move::y, 1) || c == Command(Move::y, -1i8) {
            let step: int = if c == Command(Move::y, 1) { 1 } else { -1 };
            lemma_whole_y_step(step, q);
            lemma_frame_step(step, q);
            lemma_of_permutation(spec_rotation_of(c));
            lemma_compose_associative(spec_matof(c), whole, state);
            lemma_y_interpret_from(rest, q + step, state);
        } else {
            let read = spec_rotation_read(spec_rotation_of(c), q);
            let shown = spec_y_interpret(rest, spec_frame(q));
            lemma_command_read(c, q, state);
            lemma_y_interpret_from(rest, q, compose(spec_of(read), state));
            lemma_apply_rotations_concat(seq![read], shown, state);
            lemma_apply_one_rotation(read, state);
        }
    }
}

/// The commands of a solution lead where the rotations that show it lead,
/// but for the turns of the whole cube that the solution makes.
pub proof fn lemma_y_interpret(seq: Seq<Command>, state: Seq<u8>)
    requires
        is_permutation(state),
        forall|k: int| 0 <= k < seq.len() ==> (#[trigger] seq[k]).1 > i8::MIN,
    ensures
        spec_apply_all(seq, state) == compose(
            spec_whole_y(spec_net_y(seq)),
            spec_apply_rotations(spec_y_interpret(seq, spec_no_rot()), state),
        ),
{
    lemma_turn_seq_full(Axis::Y, LayerTurns(0, 0, 0));
    lemma_compose_identity(state);
    lemma_y_interpret_from(seq, 0, state);
}

/// The rotations that show `seq` on a cube that is never turned as a
/// whole.
pub fn y_interpret(seq: Vec<Command>) -> (ret: Vec<Rotation>)
    requires
        forall|k: int| 0 <= k < seq@.len() ==> (#[trigger] seq@[k]).1 > i8::MIN,
    ensures
        ret@ == spec_y_interpret(seq@, spec_no_rot()),
        forall|k: int| 0 <= k < ret@.len() ==> (#[trigger] ret@[k]).wf(),
{
    let mut ret: Vec<Rotation> = Vec::new();
    let mut m = SwitchFaceMatrix::new(NO_ROT);
    proof {
        assert(NO_ROT[0].0.0 == Axis::X && NO_ROT[1].0.0 == Axis::Y && NO_ROT[2].0.0 == Axis::Z);
        assert(m.image(NO_ROT[0].0) == NO_ROT[0].1);
        assert(m.image(NO_ROT[1].0) == NO_ROT[1].1);
        assert(m.image(NO_ROT[2].0) == NO_ROT[2].1);
        assert(m == spec_no_rot());
        assert(seq@.skip(0) =~= seq@);
    }
    for n in 0..seq.len()
        invariant
            forall|k: int| 0 <= k < seq@.len() ==> (#[trigger] seq@[k]).1 > i8::MIN,
            forall|k: int| 0 <= k < ret@.len() ==> (#[trigger] ret@[k]).wf(),
            m.wf(),
            m.one_to_one(),
            ret@ + spec_y_interpret(seq@.skip(n as int), m) == spec_y_interpret(
                seq@,
                spec_no_rot(),
            ),
    {
        let x = seq[n];
        proof {
            assert(seq@.skip(n as int)[0] == x);
            assert(seq@.skip(n as int).drop_first() =~= seq@.skip(n + 1));
        }
        if x.0 == Move::y && x.1 == 1 {
            let op = y_rot();
            m = op * m;
        } else if x.0 == Move::y && x.1 == -1 {
            let op = y_rot().inv();
            m = op * m;
        } else {
            let rot = rotation_of(x);
            let (axis, clockwise, indices) = m.interpret(rot.axis, rot.clockwise, rot.indices);
            let new_rot = Rotation { axis, clockwise, indices };
            let ghost before = ret@;
            ret.push(new_rot);
            proof {
                let rest = spec_y_interpret(seq@.skip(n + 1), m);
                assert(before + (seq![new_rot] + rest) =~= ret@ + rest);
            }
        }
    }
    proof {
        assert(seq@.skip(seq@.len() as int) =~= Seq::<Command>::empty());
        assert(ret@ + Seq::<Rotation>::empty() =~= ret@);
    }
    ret
}

/// How the directions lie on a cube that was turned by the move `y`.
fn y_rot() -> (m: SwitchFaceMatrix)
    ensures
        m == spec_y_rot(),
        m.wf(),
        m.one_to_one(),
{
    let m = SwitchFaceMatrix::new(Y_ROT);
    proof {
        assert(Y_ROT[0].0.0 == Axis::X && Y_ROT[1].0.0 == Axis::Y && Y_ROT[2].0.0 == Axis::Z);
        assert(m.image(Y_ROT[0].0) == Y_ROT[0].1);
        assert(m.image(Y_ROT[1].0) == Y_ROT[1].1);
        assert(m.image(Y_ROT[2].0) == Y_ROT[2].1);
    }
    m
}

/// Flattening a move sequence that the notation can express gives commands
/// that the notation can express.
pub proof fn lemma_flatten_valid(elems: Seq<ElemView>)
    requires
        elems_valid(elems),
    ensures
        commands_valid(spec_flatten(elems)),
    decreases elems.len(),
{
    if elems.len() > 0 {
        let init = elems.drop_last();
        assert(elems_valid(init)) by {
            assert forall|k: int| 0 <= k < init.len() implies elem_valid(#[trigger] init[k]) by {
                assert(init[k] == elems[k]);
            }
        }
        lemma_flatten_valid(init);
        match elems.last() {
            ElemView::One(c) => {},
            ElemView::Group(cs, rep) => {
                if rep > 0 {
                    lemma_repeated_valid(cs, rep as nat);
                } else {
                    lemma_repeated_valid(reverse_primed(cs), (-rep) as nat);
                }
            },
        }
    }
}

/// Repeating commands that the notation can express gives such commands.
proof fn lemma_repeated_valid(cs: Seq<Command>, n: nat)
    requires
        commands_valid(cs),
    ensures
        commands_valid(repeated(cs, n)),
    decreases n,
{
    if n > 0 {
        lemma_repeated_valid(cs, (n - 1) as nat);
    }
}

/// Undoes on `m` the move sequence that `seq` stands for, and gives the
/// cube that comes of it together with the commands of the sequence.
pub fn apply_prime<'a>(m: PermutationMatrix, seq: &'a str) -> (r: Result<
    (PermutationMatrix, Vec<Command>),
    ParseError<'a>,
>)
    requires
        m.wf(),
    ensures
        match spec_parse(seq@) {
            Ok(elems) => {
                &&& r matches Ok((state, cs))
                &&& cs@ == spec_flatten(elems)
                &&& commands_valid(cs@)
                &&& state.wf()
                &&& state.inv_perm@ == spec_apply_all(reverse_primed(cs@), m.inv_perm@)
            },
            Err(at) => r matches Err(e) && e.rest@ == seq@.subrange(at, seq@.len() as int),
        },
{
    let elems = match parse(seq) {
        Ok((_, elems)) => elems,
        Err(e) => {
            return Err(e);
        },
    };
    proof {
        lemma_parse_sound(seq@);
        lemma_flatten_valid(elems_view(elems@));
        assert forall|k: int| 0 <= k < elems@.len() implies flattenable(#[trigger] elems@[k]@) by {
            assert(elem_valid(elems_view(elems@)[k]));
        }
    }
    let pll = flatten(elems);
    let mut copy: Vec<Command> = Vec::new();
    for n in 0..pll.len()
        invariant
            copy@ == pll@.take(n as int),
    {
        copy.push(pll[n]);
        proof {
            assert(pll@.take(n + 1) =~= pll@.take(n as int).push(pll@[n as int]));
        }
    }
    proof {
        assert(pll@.take(pll@.len() as int) =~= pll@);
    }
    let group = vec![Elem::Group(copy, -1)];
    proof {
        assert(group@[0]@ == ElemView::Group(pll@, -1i8));
        assert(elems_view(group@) =~= seq![ElemView::Group(pll@, -1i8)]);
        lemma_flatten_inverted_group(pll@);
    }
    let pll_prime = flatten(group);
    let mut state = m;
    for n in 0..pll_prime.len()
        invariant
            pll_prime@ == reverse_primed(pll@),
            commands_valid(pll@),
            state.wf(),
            state.inv_perm@ == spec_apply_all(pll_prime@.take(n as int), m.inv_perm@),
    {
        let x = pll_prime[n];
        proof {
            assert(pll@[pll@.len() - 1 - n].valid());
            assert(pll_prime@.take(n + 1).drop_last() =~= pll_prime@.take(n as int));
        }
        let op = of(rotation_of(x));
        state = op * state;
    }
    proof {
        assert(pll_prime@.take(pll_prime@.len() as int) =~= pll_prime@);
    }
    Ok((state, pll))
}

/// Whether a problem asks about the colour with the ordinal `color`: the
/// colour of the lower face, and the colours that show in the middle of the
/// right and of the front face.
pub open spec fn spec_allowed(inv_perm: Seq<u8>, color: int) -> bool {
    color == Surface::D.ordinal() || color == inv_perm[4] / 9 || color == inv_perm[40] / 9
}

/// Whether the scan for stickers to dim looks at `piece`: it looks at the
/// pieces with no negative coordinate.
pub open spec fn spec_scanned(piece: Piece) -> bool {
    0 <= piece.0 < 3 && 0 <= piece.1 < 3 && 0 <= piece.2 < 3
}

/// Whether the sticker that starts on facelet `k` is dimmed: its piece is
/// one that the scan looks at, and the piece has a sticker of a colour that
/// the problem does not ask about.
pub open spec fn spec_blacklisted(inv_perm: Seq<u8>, k: u8) -> bool {
    let p = facelet_position(k as int).piece();
    &&& k < 54
    &&& spec_scanned(p)
    &&& exists|s: Surface| #[trigger] p.touches(s) && !spec_allowed(inv_perm, s.ordinal())
}

/// Whether the scan has passed the piece of facelet `k` when it stands at
/// the piece (`x`, `y`, `z`).
spec fn scan_passed(k: u8, x: int, y: int, z: int) -> bool {
    let p = facelet_position(k as int);
    p.0 < x || (p.0 == x && (p.1 < y || (p.1 == y && p.2 < z)))
}

/// The facelets of `p`, one for each surface that it touches.
#[verifier::rlimit(40)]
fn facelets_of(p: Piece) -> (surfaces: Vec<u8>)
    ensures
        forall|k: u8| #[trigger]
            surfaces@.contains(k) <==> k < 54 && facelet_position(k as int).piece() == p,
        forall|s: Surface| #[trigger]
            p.touches(s) ==> surfaces@.contains(spec_facelet_of(p, s) as u8),
{
    let mut surfaces: Vec<u8> = Vec::new();
    for n in 0..6usize
        invariant
            forall|k: u8| #[trigger]
                surfaces@.contains(k) <==> k < 54 && k / 9 < n && facelet_position(
                    k as int,
                ).piece() == p,
    {
        let sur = SURFACE_LIST[n];
        let ghost before = surfaces@;
        let idx = surface_index_of(p, sur);
        if let Some(SurfaceIndex(s, i, j)) = idx {
            let k = surface_number(s, i, j);
            surfaces.push(k);
        }
        proof {
            assert forall|k: u8| #[trigger]
                surfaces@.contains(k) <==> k < 54 && k / 9 < n + 1 && facelet_position(
                    k as int,
                ).piece() == p by {
                if k < 54 {
                    lemma_facelet_roundtrip(k as int);
                }
                assert(before.contains(k) <==> k < 54 && k / 9 < n && facelet_position(
                    k as int,
                ).piece() == p);
                if idx is Some {
                    let f = spec_facelet_of(p, sur) as u8;
                    lemma_sticker_roundtrip(
                        Vector(p.0 as int, p.1 as int, p.2 as int),
                        sur,
                    );
                    assert(surfaces@ == before.push(f));
                    vstd::seq_lib::lemma_seq_contains_after_push(before, f, k);
                }
            }
        }
    }
    proof {
        assert forall|s: Surface| #[trigger] p.touches(s) implies surfaces@.contains(
            spec_facelet_of(p, s) as u8,
        ) by {
            lemma_sticker_roundtrip(Vector(p.0 as int, p.1 as int, p.2 as int), s);
        }
    }
    surfaces
}

/// The stickers to dim while the first two layers of `m` are trained.
pub fn calc_blacklist(m: &PermutationMatrix) -> (blacklist: HashSet<u8>)
    requires
        m.wf(),
    ensures
        forall|k: u8| blacklist@.contains(k) <==> spec_blacklisted(m.inv_perm@, k),
{
    broadcast use vstd::std_specs::hash::group_hash_axioms;

    let c0 = Surface::D as u8;
    let k1 = surface_number(Surface::R, 1, 1);
    let c1 = m.inv_perm[k1 as usize] / 9;
    let k2 = surface_number(Surface::F, 1, 1);
    let c2 = m.inv_perm[k2 as usize] / 9;
    let mut blacklist: HashSet<u8> = HashSet::new();
    for x in 0..3i8
        invariant
            c0 == 3 && c1 == m.inv_perm@[4] / 9 && c2 == m.inv_perm@[40] / 9,
            forall|k: u8|
                blacklist@.contains(k) <==> spec_blacklisted(m.inv_perm@, k) && scan_passed(
                    k,
                    x as int,
                    0,
                    0,
                ),
    {
        for y in 0..3i8
            invariant
                0 <= x < 3,
                c0 == 3 && c1 == m.inv_perm@[4] / 9 && c2 == m.inv_perm@[40] / 9,
                forall|k: u8|
                    blacklist@.contains(k) <==> spec_blacklisted(m.inv_perm@, k) && scan_passed(
                        k,
                        x as int,
                        y as int,
                        0,
                    ),
        {
            for z in 0..3i8
                invariant
                    0 <= x < 3,
                    0 <= y < 3,
                    c0 == 3 && c1 == m.inv_perm@[4] / 9 && c2 == m.inv_perm@[40] / 9,
                    forall|k: u8|
                        blacklist@.contains(k) <==> spec_blacklisted(m.inv_perm@, k)
                            && scan_passed(k, x as int, y as int, z as int),
            {
                let p = Piece(x, y, z);
                // list all valid surface numbers
                let surfaces = facelets_of(p);
                // check if every surfaces are allowed.
                let mut ok = true;
                for n in 0..surfaces.len()
                    invariant
                        c0 == 3 && c1 == m.inv_perm@[4] / 9 && c2 == m.inv_perm@[40] / 9,
                        ok <==> forall|j: int|
                            0 <= j < n ==> spec_allowed(m.inv_perm@, #[trigger] surfaces@[j] as int / 9),
                {
                    let c = surfaces[n] / 9;
                    if !(c == c0 || c == c1 || c == c2) {
                        ok = false;
                    }
                }
                let ghost before = blacklist@;
                if !ok {
                    for n in 0..surfaces.len()
                        invariant
                            forall|k: u8| #[trigger]
                                blacklist@.contains(k) <==> (before.contains(k) || surfaces@.take(
                                    n as int,
                                ).contains(k)),
                    {
                        let ghost earlier = blacklist@;
                        blacklist.insert(surfaces[n]);
                        proof {
                            broadcast use vstd::std_specs::hash::group_hash_axioms;

                            let k0 = surfaces@[n as int];
                            assert(blacklist@ == earlier.insert(k0));
                            assert(surfaces@.take(n + 1) =~= surfaces@.take(n as int).push(k0));
                            assert forall|k: u8| #[trigger]
                                blacklist@.contains(k) <==> (before.contains(k) || surfaces@.take(
                                    n + 1,
                                ).contains(k)) by {
                                assert(earlier.contains(k) <==> (before.contains(k)
                                    || surfaces@.take(n as int).contains(k)));
                                vstd::seq_lib::lemma_seq_contains_after_push(
                                    surfaces@.take(n as int),
                                    k0,
                                    k,
                                );
                            }
                        }
                    }
                    proof {
                        assert(surfaces@.take(surfaces@.len() as int) =~= surfaces@);
                    }
                }
                proof {
                    assert forall|k: u8|
                        blacklist@.contains(k) <==> spec_blacklisted(m.inv_perm@, k)
                            && scan_passed(k, x as int, y as int, z + 1) by {
                        assert(before.contains(k) <==> spec_blacklisted(m.inv_perm@, k)
                            && scan_passed(k, x as int, y as int, z as int));
                        if k < 54 && facelet_position(k as int).piece() == p {
                            lemma_facelet_roundtrip(k as int);
                            assert(surfaces@.contains(k));
                            if ok {
                                assert forall|s: Surface| #[trigger] p.touches(s) implies spec_allowed(
                                    m.inv_perm@,
                                    s.ordinal(),
                                ) by {
                                    let f = spec_facelet_of(p, s) as u8;
                                    assert(surfaces@.contains(f));
                                    let j = choose|j: int|
                                        0 <= j < surfaces@.len() && surfaces@[j] == f;
                                    assert(spec_allowed(m.inv_perm@, surfaces@[j] as int / 9));
                                }
                            } else {
                                let j = choose|j: int|
                                    0 <= j < surfaces@.len() && !spec_allowed(
                                        m.inv_perm@,
                                        #[trigger] surfaces@[j] as int / 9,
                                    );
                                let f = surfaces@[j];
                                assert(surfaces@.contains(f));
                                lemma_facelet_roundtrip(f as int);
                                assert(p.touches(Surface::from_ordinal(f as int / 9)));
                            }
                        } else {
                            assert(!surfaces@.contains(k));
                        }
                    }
                }
            }
        }
    }
    proof {
        assert forall|k: u8| blacklist@.contains(k) <==> spec_blacklisted(m.inv_perm@, k) by {
            if k < 54 {
                lemma_facelet_roundtrip(k as int);
            }
        }
    }
    blacklist
}

/// One problem of the training: a cube on which the first two layers wait
/// for their last pair, and the way to solve it.
pub struct Problem {
    /// The place of the problem in `F2L_LIST`.
    pub no: usize,
    /// The cube to solve.
    pub state: PermutationMatrix,
    /// The solution, as rotations of a cube that is never turned as a whole.
    pub solve: Vec<Rotation>,
    /// The solution in cube notation.
    pub solve_seq: String,
    /// Whether the solution was not asked for yet.
    pub ok: bool,
}

/// The cube that comes of `state` when the move sequence `text` is undone
/// on it.
pub open spec fn spec_undone(text: Seq<char>, state: Seq<u8>) -> Seq<u8> {
    spec_apply_all(reverse_primed(spec_flatten(spec_parse(text)->Ok_0)), state)
}

/// Whether the three solutions that make up problem `i` with the draw `x`
/// are move sequences.
pub open spec fn spec_problem_parses(i: usize, x: usize) -> bool {
    &&& spec_parse(PLL_LIST[x as int % 21].1@) is Ok
    &&& spec_parse(OLL_LIST[x as int % 57]@) is Ok
    &&& spec_parse(F2L_LIST[i as int]@) is Ok
}

/// Whether `p` is problem `i` as the draw `x` makes it: a solved cube on
/// which a solution of the last layer's permutation, one of its
/// orientation, both picked by `x`, and solution `i` of the first two
/// layers were undone one after another.
pub open spec fn spec_is_problem(p: Problem, i: usize, x: usize) -> bool {
    let f2l = F2L_LIST[i as int]@;
    &&& p.no == i
    &&& p.ok
    &&& p.solve_seq@ == f2l
    &&& p.state.wf()
    &&& p.state.inv_perm@ == spec_undone(
        f2l,
        spec_undone(
            OLL_LIST[x as int % 57]@,
            spec_undone(PLL_LIST[x as int % 21].1@, identity_seq()),
        ),
    )
    &&& p.solve@ == spec_y_interpret(spec_flatten(spec_parse(f2l)->Ok_0), spec_no_rot())
}

/// Problem `i` as the draw `x` makes it.
pub fn problem_of(i: usize, x: usize) -> (r: Option<Problem>)
    requires
        i < 41,
    ensures
        r is Some <==> spec_problem_parses(i, x),
        r matches Some(p) ==> spec_is_problem(p, i, x),
{
    let init_state = PermutationMatrix::identity();
    // PLL
    let pll = PLL_LIST[x % 21];
    let init_state = match apply_prime(init_state, pll.1) {
        Ok((state, _)) => state,
        Err(_) => {
            return None;
        },
    };
    // OLL
    let oll = OLL_LIST[x % 57];
    let init_state = match apply_prime(init_state, oll) {
        Ok((state, _)) => state,
        Err(_) => {
            return None;
        },
    };
    // F2L
    let f2l = F2L_LIST[i];
    let (init_state, solve) = match apply_prime(init_state, f2l) {
        Ok(pair) => pair,
        Err(_) => {
            return None;
        },
    };
    Some(
        Problem {
            no: i,
            state: init_state,
            solve: y_interpret(solve),
            solve_seq: f2l.to_owned(),
            ok: true,
        },
    )
}

/// Whether `r` is what making problem `i` with the draw `x` gives: the
/// problem, where the three solutions that the draw picks are move
/// sequences, and nothing where one of them is not.
pub open spec fn spec_problem_made(r: Option<Problem>, i: usize, x: usize) -> bool {
    &&& r is Some <==> spec_problem_parses(i, x)
    &&& r matches Some(p) ==> spec_is_problem(p, i, x)
}

/// Makes problem `i` with a draw of its own: what comes back is what some
/// draw gives. So the problem is made wherever every draw picks move
/// sequences.
pub fn make_problem(i: usize) -> (r: Option<Problem>)
    requires
        i < 41,
    ensures
        exists|x: usize| spec_problem_made(r, i, x),
        (forall|x: usize| spec_problem_parses(i, x)) ==> r is Some,
{
    let x = draw_usize();
    let r = problem_of(i, x);
    proof {
        assert(spec_problem_made(r, i, x));
    }
    r
}

/// What the user of the training asks for.
pub enum Msg {
    /// Show the solution of the problem.
    ShowSolve,
    /// Go on to another problem.
    Next,
}

/// The sum of `levels`.
pub open spec fn spec_total(levels: Seq<u64>) -> int
    decreases levels.len(),
{
    if levels.len() == 0 {
        0
    } else {
        spec_total(levels.drop_last()) + levels.last()
    }
}

/// The level of a problem after it was answered: one less where the
/// solution was not asked for, but not below zero, and one more where it
/// was.
pub open spec fn spec_next_level(level: u64, ok: bool) -> int {
    if ok {
        if level > 0 {
            level - 1
        } else {
            0
        }
    } else {
        level + 1
    }
}

/// Picks a problem at random, each with the chance that its level gives
/// it, with `rand::distributions::WeightedIndex::new` and its `sample` on
/// `rand::thread_rng`. `new` adds the levels up, for which their sum must
/// fit, and fails only where all levels are zero; `sample` gives a place in
/// the list of levels.
#[verifier::external_body]
fn sample_level(levels: &[u64; 41]) -> (r: Option<usize>)
    requires
        spec_total(levels@) <= u64::MAX,
    ensures
        r is None <==> spec_total(levels@) == 0,
        r matches Some(i) ==> i < 41,
{
    match WeightedIndex::new(levels) {
        Ok(dist) => Some(dist.sample(&mut rand::thread_rng())),
        Err(_) => None,
    }
}

/// The training: the problem at hand and, for each problem, a level that
/// says how often it should come up.
pub struct Trainer {
    pub cur_problem: Problem,
    pub diff_level: [u64; 41],
}

impl Trainer {
    /// Whether the problem at hand is a problem of the list.
    pub open spec fn wf(self) -> bool {
        self.cur_problem.no < 41 && self.cur_problem.state.wf()
    }

    /// Whether the next problem can be picked: the levels, with that of the
    /// problem at hand changed as its answer asks, have a sum that fits.
    pub open spec fn can_go_on(self) -> bool {
        let no = self.cur_problem.no as int;
        spec_total(self.diff_level@) - self.diff_level[no] + spec_next_level(
            self.diff_level[no],
            self.cur_problem.ok,
        ) <= u64::MAX
    }

    /// Starts the training with the problem that comes of `first`, every
    /// problem being on level three.
    pub fn create(first: Problem) -> (trainer: Self)
        requires
            first.no < 41,
            first.state.wf(),
        ensures
            trainer.wf(),
            trainer.cur_problem == first,
            forall|k: int| 0 <= k < 41 ==> #[trigger] trainer.diff_level[k] == 3,
    {
        Trainer { cur_problem: first, diff_level: [3;41] }
    }

    /// Whether the next problem can be picked.
    pub fn check_can_go_on(&self) -> (b: bool)
        requires
            self.wf(),
        ensures
            b == self.can_go_on(),
    {
        let mut total: u128 = 0;
        for n in 0..41usize
            invariant
                total == spec_total(self.diff_level@.take(n as int)),
                total <= n * u64::MAX,
        {
            proof {
                assert(self.diff_level@.take(n + 1).drop_last() =~= self.diff_level@.take(
                    n as int,
                ));
            }
            total = total + self.diff_level[n] as u128;
        }
        proof {
            assert(self.diff_level@.take(41) =~= self.diff_level@);
        }
        let level = self.diff_level[self.cur_problem.no];
        proof {
            lemma_total_bounds(self.diff_level@, self.cur_problem.no as int);
        }
        let next: u128 = if self.cur_problem.ok {
            if level > 0 {
                (level - 1) as u128
            } else {
                0
            }
        } else {
            level as u128 + 1
        };
        total - level as u128 + next <= u64::MAX as u128
    }

    /// Takes up what the user asks for. Asking for the solution marks the
    /// problem at hand. Going on changes the level of the problem at hand
    /// as its answer asks and picks the next problem by the levels; the
    /// first problem is taken where every level is zero.
    pub fn update(&mut self, msg: Msg) -> (render: bool)
        requires
            old(self).wf(),
            msg is Next ==> old(self).can_go_on(),
        ensures
            render,
            final(self).wf(),
            msg is ShowSolve ==> {
                &&& !final(self).cur_problem.ok
                &&& final(self).cur_problem.no == old(self).cur_problem.no
                &&& final(self).cur_problem.state == old(self).cur_problem.state
                &&& final(self).cur_problem.solve == old(self).cur_problem.solve
                &&& final(self).cur_problem.solve_seq == old(self).cur_problem.solve_seq
                &&& final(self).diff_level == old(self).diff_level
            },
            msg is Next ==> {
                let no = old(self).cur_problem.no as int;
                &&& final(self).diff_level@ == old(self).diff_level@.update(
                    no,
                    spec_next_level(old(self).diff_level[no], old(self).cur_problem.ok) as u64,
                )
                &&& final(self).cur_problem == old(self).cur_problem || exists|i: usize, x: usize|
                    i < 41 && (spec_total(final(self).diff_level@) == 0 ==> i == 0)
                        && spec_is_problem(final(self).cur_problem, i, x)
            },
    {
        match msg {
            Msg::ShowSolve => {
                if self.cur_problem.ok {
                    self.cur_problem.ok = false;
                }
            },
            Msg::Next => {
                let no = self.cur_problem.no;
                let ghost before = self.diff_level@;
                proof {
                    lemma_total_bounds(before, no as int);
                }
                let diff = self.diff_level[no];
                if self.cur_problem.ok {
                    if diff > 0 {
                        self.diff_level[no] = diff - 1;
                    }
                } else {
                    self.diff_level[no] = diff + 1;
                }
                proof {
                    assert(self.diff_level@ =~= before.update(
                        no as int,
                        spec_next_level(diff, self.cur_problem.ok) as u64,
                    ));
                    lemma_total_update(
                        before,
                        no as int,
                        spec_next_level(diff, self.cur_problem.ok) as u64,
                    );
                }
                let i = match sample_level(&self.diff_level) {
                    Some(x) => x,
                    None => 0,
                };
                match make_problem(i) {
                    Some(problem) => {
                        proof {
                            let x = choose|x: usize| spec_problem_made(Some(problem), i, x);
                            assert(spec_is_problem(problem, i, x));
                        }
                        self.cur_problem = problem;
                    },
                    None => {},
                }
            },
        }
        true
    }
}

/// A level is at most the sum of all levels.
proof fn lemma_total_bounds(levels: Seq<u64>, k: int)
    requires
        0 <= k < levels.len(),
    ensures
        0 <= levels[k] <= spec_total(levels),
        0 <= spec_total(levels.drop_last()),
    decreases levels.len(),
{
    lemma_total_nonnegative(levels.drop_last());
    if k < levels.len() - 1 {
        lemma_total_bounds(levels.drop_last(), k);
    }
}

/// A sum of levels is not negative.
proof fn lemma_total_nonnegative(levels: Seq<u64>)
    ensures
        0 <= spec_total(levels),
    decreases levels.len(),
{
    if levels.len() > 0 {
        lemma_total_nonnegative(levels.drop_last());
    }
}

/// Changing one level changes the sum by as much.
proof fn lemma_total_update(levels: Seq<u64>, k: int, level: u64)
    requires
        0 <= k < levels.len(),
    ensures
        spec_total(levels.update(k, level)) == spec_total(levels) - levels[k] + level,
    decreases levels.len(),
{
    let changed = levels.update(k, level);
    if k == levels.len() - 1 {
        assert(changed.drop_last() =~= levels.drop_last());
    } else {
        assert(changed.drop_last() =~= levels.drop_last().update(k, level));
        lemma_total_update(levels.drop_last(), k, level);
    }
}

} // verus!
