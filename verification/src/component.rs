//! What a view of the cube needs while it plays rotations: the colour of
//! each facelet, the pieces that a rotation carries, and the states between
//! which each turn leads.

use crate::coord::{
    lemma_piece_group_members, piece_group_of, spec_facelet_of, spec_piece_group_of,
    surface_index_of, surface_number, Axis, Piece, Rotation, RotationPlane, Surface,
    SurfaceIndex, SURFACE_LIST,
};
use crate::geometry::{facelet_position, layer_selected, lemma_facelet_roundtrip};
use crate::matrix::math::{compose, PermutationMatrix};
use crate::matrix::{lemma_layer_bit, of, spec_of};
use std::collections::{HashSet, VecDeque};
use vstd::prelude::*;

verus! {

/// What a view of the cube starts from: the state of the cube, the
/// rotations to play, and the stickers to dim.
pub struct Props {
    pub init_state: PermutationMatrix,
    pub command_list: Vec<Rotation>,
    pub blacklist: HashSet<u8>,
}

/// Whether the loops over the surfaces and the pieces have passed facelet
/// `k` when they stand at surface number `si` and piece (`x`, `y`, `z`).
spec fn passed(k: int, si: int, x: int, y: int, z: int) -> bool {
    let p = facelet_position(k);
    k / 9 < si || (k / 9 == si && (p.0 < x || (p.0 == x && (p.1 < y || (p.1 == y && p.2 < z)))))
}

/// The colour of each of the 54 facelets, given the colour of each of the
/// six surfaces.
pub fn make_color_list<T: Copy>(colors: [T; 6]) -> (out: [T; 54])
    ensures
        forall|k: int| 0 <= k < 54 ==> #[trigger] out[k] == colors[k / 9],
{
    let mut out = [colors[0];54];
    for si in 0..6usize
        invariant
            forall|k: int| 0 <= k < 54 && passed(k, si as int, -1, -1, -1) ==> #[trigger] out[k]
                == colors[k / 9],
    {
        let surface = SURFACE_LIST[si];
        for x in -1..2i8
            invariant
                0 <= si < 6,
                surface == Surface::from_ordinal(si as int),
                forall|k: int| 0 <= k < 54 && passed(k, si as int, x as int, -1, -1) ==> #[trigger] out[k]
                    == colors[k / 9],
        {
            for y in -1..2i8
                invariant
                    0 <= si < 6,
                    -1 <= x < 2,
                    surface == Surface::from_ordinal(si as int),
                    forall|k: int|
                        0 <= k < 54 && passed(k, si as int, x as int, y as int, -1)
                            ==> #[trigger] out[k] == colors[k / 9],
            {
                for z in -1..2i8
                    invariant
                        0 <= si < 6,
                        -1 <= x < 2,
                        -1 <= y < 2,
                        surface == Surface::from_ordinal(si as int),
                        forall|k: int|
                            0 <= k < 54 && passed(k, si as int, x as int, y as int, z as int)
                                ==> #[trigger] out[k] == colors[k / 9],
                {
                    let p = Piece(x, y, z);
                    if let Some(SurfaceIndex(s, i, j)) = surface_index_of(p, surface) {
                        let b = surface_number(s, i, j);
                        out[b as usize] = colors[surface as usize];
                    }
                    proof {
                        assert forall|k: int|
                            0 <= k < 54 && passed(
                                k,
                                si as int,
                                x as int,
                                y as int,
                                z + 1,
                            ) implies #[trigger] out[k] == colors[k / 9] by {
                            lemma_facelet_roundtrip(k);
                            if !passed(k, si as int, x as int, y as int, z as int) {
                                assert(facelet_position(k).piece() == p);
                                assert(k == spec_facelet_of(p, surface));
                            }
                        }
                    }
                }
            }
        }
    }
    out
}

/// Whether `rot` carries `piece` along.
pub open spec fn spec_carries(rot: Rotation, piece: Piece) -> bool {
    piece.in_cube() && layer_selected(
        rot.indices,
        match rot.axis {
            Axis::X => piece.0 as int,
            Axis::Y => piece.1 as int,
            Axis::Z => piece.2 as int,
        },
    )
}

/// Whether `rot` carries `piece` along in a layer below coordinate `bound`.
spec fn carries_below(rot: Rotation, piece: Piece, bound: int) -> bool {
    spec_carries(rot, piece) && match rot.axis {
        Axis::X => piece.0 < bound,
        Axis::Y => piece.1 < bound,
        Axis::Z => piece.2 < bound,
    }
}

/// The pieces that `rot` carries along: those of each layer that it
/// selects.
pub fn pieces_of(rot: Rotation) -> (pieces: Vec<Piece>)
    requires
        rot.wf(),
    ensures
        forall|p: Piece| #[trigger] pieces@.contains(p) <==> spec_carries(rot, p),
{
    let mut pieces: Vec<Piece> = Vec::new();
    for i in 0..3u8
        invariant
            rot.wf(),
            forall|p: Piece| #[trigger] pieces@.contains(p) <==> carries_below(rot, p, i - 1),
    {
        let bit = rot.indices & (1u8 << i);
        let ghost before = pieces@;
        let plane = RotationPlane(rot.axis, i as i8 - 1);
        proof {
            lemma_layer_bit(rot.indices, i);
        }
        if bit > 0 {
            let group = piece_group_of(plane);
            for n in 0..9usize
                invariant
                    group@ == spec_piece_group_of(plane),
                    pieces@ == before + group@.take(n as int),
            {
                pieces.push(group[n]);
                proof {
                    assert(group@.take(n + 1) =~= group@.take(n as int).push(group@[n as int]));
                }
            }
            proof {
                assert(group@.take(9) =~= group@);
                assert forall|p: Piece| #[trigger]
                    pieces@.contains(p) <==> carries_below(rot, p, i as int) by {
                    lemma_piece_group_members(plane, p);
                    vstd::seq_lib::lemma_seq_concat_contains_all_elements(before, group@, p);
                    assert(before.contains(p) <==> carries_below(rot, p, i - 1));
                }
            }
        } else {
            proof {
                assert forall|p: Piece| #[trigger]
                    pieces@.contains(p) <==> carries_below(rot, p, i as int) by {
                    assert(before.contains(p) <==> carries_below(rot, p, i - 1));
                }
            }
        }
    }
    proof {
        assert forall|p: Piece| #[trigger] pieces@.contains(p) <==> spec_carries(rot, p) by {
            assert(pieces@.contains(p) <==> carries_below(rot, p, 2));
        }
    }
    pieces
}

/// A cube that plays rotations one after another: the state that it shows,
/// the state that the turn under way leads to, the rotations to come, and
/// the stickers that are dimmed.
pub struct Playback {
    state: PermutationMatrix,
    next_state: PermutationMatrix,
    command_queue: VecDeque<Rotation>,
    blacklist: HashSet<u8>,
}

/// One turn to show: the pieces that turn, the axis, and the quarter turns.
pub struct Turn {
    pub pieces: Vec<Piece>,
    pub axis: Axis,
    pub clockwise: i8,
}

impl Props {
    /// Whether the state is a state of a cube and every rotation selects
    /// layers of the cube.
    pub open spec fn wf(self) -> bool {
        &&& self.init_state.wf()
        &&& forall|k: int|
            0 <= k < self.command_list@.len() ==> (#[trigger] self.command_list@[k]).wf()
    }

    /// Whether the state is a state of a cube and every rotation selects
    /// layers of the cube.
    pub fn is_wf(&self) -> (b: bool)
        ensures
            b == self.wf(),
    {
        if !self.init_state.is_wf() {
            return false;
        }
        for n in 0..self.command_list.len()
            invariant
                self.init_state.wf(),
                forall|k: int| 0 <= k < n ==> (#[trigger] self.command_list@[k]).wf(),
        {
            if self.command_list[n].indices >= 8 {
                return false;
            }
        }
        true
    }
}

impl Playback {
    /// Whether the states are states of a cube and every rotation to come
    /// selects layers of the cube.
    pub closed spec fn wf(self) -> bool {
        &&& self.state.wf()
        &&& self.next_state.wf()
        &&& forall|k: int|
            0 <= k < self.command_queue@.len() ==> (#[trigger] self.command_queue@[k]).wf()
    }

    /// The state that the cube shows.
    pub closed spec fn spec_state(self) -> PermutationMatrix {
        self.state
    }

    /// The state that the turn under way leads to.
    pub closed spec fn spec_next_state(self) -> PermutationMatrix {
        self.next_state
    }

    /// The rotations that are still to come.
    pub closed spec fn spec_queue(self) -> Seq<Rotation> {
        self.command_queue@
    }

    /// The stickers that are dimmed, each named by the facelet on which it
    /// started.
    pub closed spec fn spec_blacklist(self) -> Set<u8> {
        self.blacklist@
    }

    /// Starts as `props` say, with all of their rotations to come.
    pub fn new(props: Props) -> (playback: Self)
        requires
            props.wf(),
        ensures
            playback.wf(),
            playback.spec_state() == props.init_state,
            playback.spec_next_state() == props.init_state,
            playback.spec_queue() == props.command_list@,
            playback.spec_blacklist() == props.blacklist@,
    {
        let Props { init_state, command_list, blacklist } = props;
        let mut command_queue: VecDeque<Rotation> = VecDeque::new();
        for n in 0..command_list.len()
            invariant
                command_queue@ == command_list@.take(n as int),
        {
            command_queue.push_back(command_list[n]);
            proof {
                assert(command_list@.take(n + 1) =~= command_list@.take(n as int).push(
                    command_list@[n as int],
                ));
            }
        }
        proof {
            assert(command_list@.take(command_list@.len() as int) =~= command_list@);
        }
        Playback { state: init_state, next_state: init_state, command_queue, blacklist }
    }

    /// The state that the cube shows.
    pub fn state(&self) -> (m: PermutationMatrix)
        requires
            self.wf(),
        ensures
            m == self.spec_state(),
            m.wf(),
    {
        self.state
    }

    /// The sticker that shows on facelet `k`, named by the facelet on which
    /// it started, unless it is dimmed.
    pub fn sticker_at(&self, k: u8) -> (sticker: Option<u8>)
        requires
            self.wf(),
            k < 54,
        ensures
            sticker == (if self.spec_blacklist().contains(self.spec_state().inv_perm[k as int]) {
                None
            } else {
                Some(self.spec_state().inv_perm[k as int])
            }),
            sticker matches Some(origin) ==> origin < 54,
    {
        broadcast use vstd::std_specs::hash::group_hash_axioms;

        let origin = self.state.inv_perm[k as usize];
        if self.blacklist.contains(&origin) {
            None
        } else {
            Some(origin)
        }
    }

    /// Ends the turn under way and takes up the next rotation, if there is
    /// one: the cube then shows the state that the turn led to, and the
    /// next rotation leads on from there.
    pub fn advance(&mut self) -> (turn: Option<Turn>)
        requires
            old(self).wf(),
        ensures
            final(self).wf(),
            final(self).spec_blacklist() == old(self).spec_blacklist(),
            final(self).spec_state() == old(self).spec_next_state(),
            old(self).spec_queue().len() == 0 ==> turn is None && final(self).spec_next_state()
                == old(self).spec_next_state() && final(self).spec_queue() == old(
                self,
            ).spec_queue(),
            old(self).spec_queue().len() > 0 ==> {
                let rot = old(self).spec_queue()[0];
                &&& final(self).spec_queue() == old(self).spec_queue().drop_first()
                &&& final(self).spec_next_state().inv_perm@ == compose(
                    spec_of(rot),
                    old(self).spec_next_state().inv_perm@,
                )
                &&& turn matches Some(t)
                &&& t.axis == rot.axis
                &&& t.clockwise == rot.clockwise
                &&& forall|p: Piece| #[trigger] t.pieces@.contains(p) <==> spec_carries(rot, p)
            },
    {
        self.state = self.next_state;
        match self.command_queue.pop_front() {
            Some(rot) => {
                let pieces = pieces_of(rot);
                self.next_state = of(rot) * self.state;
                Some(Turn { pieces, axis: rot.axis, clockwise: rot.clockwise })
            },
            None => None,
        }
    }
}

} // verus!
