//! The nine quarter turns that are written down facelet by facelet: one
//! for each face and one for each middle slice. Each is a list of arrows,
//! and each is proved to move the stickers as the turning layer does.

use super::math::PermutationMatrix;
use super::{
    arrows_permutation, concat, edge_permutator, from_arrows, has_source,
    lemma_arrows_permutation, lemma_turn_seq_index, lemma_turn_seq_permutation, opposite,
    spec_edge_permutator, spec_surface_permutator, strips_valid, surface_permutator, turn_seq,
    Arrow, Strips,
};
use crate::coord::{Axis, Surface};
use crate::geometry::{masked_turns, turn_layers, LayerTurns};
use vstd::prelude::*;

verus! {

/// The strips that a quarter turn of the right face carries along.
pub const R_STRIPS: Strips = [
    (Surface::F, [(0, 2), (1, 2), (2, 2)]),
    (Surface::U, [(0, 0), (0, 1), (0, 2)]),
    (Surface::B, [(0, 0), (0, 1), (0, 2)]),
    (Surface::D, [(0, 2), (1, 2), (2, 2)]),
];

/// The strips that a quarter turn of the left face carries along.
pub const L_STRIPS: Strips = [
    (Surface::U, [(2, 2), (2, 1), (2, 0)]),
    (Surface::F, [(2, 0), (1, 0), (0, 0)]),
    (Surface::D, [(2, 0), (1, 0), (0, 0)]),
    (Surface::B, [(2, 2), (2, 1), (2, 0)]),
];

/// The strips that a quarter turn of the upper face carries along.
pub const U_STRIPS: Strips = [
    (Surface::F, [(0, 0), (0, 1), (0, 2)]),
    (Surface::L, [(0, 0), (0, 1), (0, 2)]),
    (Surface::B, [(0, 2), (1, 2), (2, 2)]),
    (Surface::R, [(0, 2), (1, 2), (2, 2)]),
];

/// The strips that a quarter turn of the lower face carries along.
pub const D_STRIPS: Strips = [
    (Surface::F, [(2, 2), (2, 1), (2, 0)]),
    (Surface::R, [(2, 0), (1, 0), (0, 0)]),
    (Surface::B, [(2, 0), (1, 0), (0, 0)]),
    (Surface::L, [(2, 2), (2, 1), (2, 0)]),
];

/// The strips that a quarter turn of the front face carries along.
pub const F_STRIPS: Strips = [
    (Surface::U, [(0, 2), (1, 2), (2, 2)]),
    (Surface::R, [(0, 0), (0, 1), (0, 2)]),
    (Surface::D, [(0, 0), (0, 1), (0, 2)]),
    (Surface::L, [(0, 2), (1, 2), (2, 2)]),
];

/// The strips that a quarter turn of the back face carries along.
pub const B_STRIPS: Strips = [
    (Surface::U, [(2, 0), (1, 0), (0, 0)]),
    (Surface::L, [(2, 0), (1, 0), (0, 0)]),
    (Surface::D, [(2, 2), (2, 1), (2, 0)]),
    (Surface::R, [(2, 2), (2, 1), (2, 0)]),
];

/// The strips that a quarter turn of the middle slice between the left and the right face carries along.
pub const M_STRIPS: Strips = [
    (Surface::U, [(1, 2), (1, 1), (1, 0)]),
    (Surface::F, [(2, 1), (1, 1), (0, 1)]),
    (Surface::D, [(2, 1), (1, 1), (0, 1)]),
    (Surface::B, [(1, 2), (1, 1), (1, 0)]),
];

/// The strips that a quarter turn of the middle slice between the upper and the lower face carries along.
pub const E_STRIPS: Strips = [
    (Surface::F, [(1, 2), (1, 1), (1, 0)]),
    (Surface::R, [(2, 1), (1, 1), (0, 1)]),
    (Surface::B, [(2, 1), (1, 1), (0, 1)]),
    (Surface::L, [(1, 2), (1, 1), (1, 0)]),
];

/// The strips that a quarter turn of the middle slice between the front and the back face carries along.
pub const S_STRIPS: Strips = [
    (Surface::R, [(1, 0), (1, 1), (1, 2)]),
    (Surface::D, [(1, 0), (1, 1), (1, 2)]),
    (Surface::L, [(0, 1), (1, 1), (2, 1)]),
    (Surface::U, [(0, 1), (1, 1), (2, 1)]),
];

/// Whether `bit` selects exactly one of the three layers.
pub open spec fn is_layer_bit(bit: u8) -> bool {
    bit == 0b001 || bit == 0b010 || bit == 0b100
}

/// The direction of the quarter turn of the layer `bit` about `axis` that is
/// written down as arrows: 1 for a clockwise turn, -1 for the other.
pub open spec fn spec_primitive_sign(axis: Axis, bit: u8) -> int {
    match axis {
        Axis::X => if bit == 0b100 { 1 } else { -1 },
        Axis::Y => if bit == 0b100 { 1 } else { -1 },
        Axis::Z => if bit == 0b001 { -1 } else { 1 },
    }
}

/// The arrows of the quarter turn of the layer `bit` about `axis`.
pub open spec fn spec_primitive_arrows(axis: Axis, bit: u8) -> Seq<Arrow> {
    match axis {
        Axis::X => if bit == 0b100 {
            spec_surface_permutator(Surface::R) + spec_edge_permutator(R_STRIPS)
        } else if bit == 0b001 {
            spec_surface_permutator(Surface::L) + spec_edge_permutator(L_STRIPS)
        } else {
            spec_edge_permutator(M_STRIPS)
        },
        Axis::Y => if bit == 0b100 {
            spec_surface_permutator(Surface::U) + spec_edge_permutator(U_STRIPS)
        } else if bit == 0b001 {
            spec_surface_permutator(Surface::D) + spec_edge_permutator(D_STRIPS)
        } else {
            spec_edge_permutator(E_STRIPS)
        },
        Axis::Z => if bit == 0b100 {
            spec_surface_permutator(Surface::F) + spec_edge_permutator(F_STRIPS)
        } else if bit == 0b001 {
            spec_surface_permutator(Surface::B) + spec_edge_permutator(B_STRIPS)
        } else {
            spec_edge_permutator(S_STRIPS)
        },
    }
}

/// None of the first twenty arrows starts at a facelet without a source.
proof fn lemma_sources_excluded(arrows: Seq<Arrow>, i: int)
    requires
        arrows.len() <= 20,
        !has_source(arrows, i),
    ensures
        forall|k: int| 0 <= k < arrows.len() ==> (#[trigger] arrows[k]).0 != i,
        arrows.len() > 0 ==> arrows[0].0 != i,
        arrows.len() > 1 ==> arrows[1].0 != i,
        arrows.len() > 2 ==> arrows[2].0 != i,
        arrows.len() > 3 ==> arrows[3].0 != i,
        arrows.len() > 4 ==> arrows[4].0 != i,
        arrows.len() > 5 ==> arrows[5].0 != i,
        arrows.len() > 6 ==> arrows[6].0 != i,
        arrows.len() > 7 ==> arrows[7].0 != i,
        arrows.len() > 8 ==> arrows[8].0 != i,
        arrows.len() > 9 ==> arrows[9].0 != i,
        arrows.len() > 10 ==> arrows[10].0 != i,
        arrows.len() > 11 ==> arrows[11].0 != i,
        arrows.len() > 12 ==> arrows[12].0 != i,
        arrows.len() > 13 ==> arrows[13].0 != i,
        arrows.len() > 14 ==> arrows[14].0 != i,
        arrows.len() > 15 ==> arrows[15].0 != i,
        arrows.len() > 16 ==> arrows[16].0 != i,
        arrows.len() > 17 ==> arrows[17].0 != i,
        arrows.len() > 18 ==> arrows[18].0 != i,
        arrows.len() > 19 ==> arrows[19].0 != i,
{
    assert forall|k: int| 0 <= k < arrows.len() implies (#[trigger] arrows[k]).0 != i by {
        if arrows[k].0 == i {
            assert(has_source(arrows, i));
        }
    }
}

/// Arrows that follow a turn, and that start at every facelet that the turn
/// moves, make up the turn.
proof fn lemma_arrows_turn(arrows: Seq<Arrow>, axis: Axis, turns: LayerTurns)
    requires
        forall|k: int|
            0 <= k < arrows.len() ==> (#[trigger] arrows[k]).0 < 54 && turn_layers(
                axis,
                turns,
                arrows[k].0 as int,
            ) == arrows[k].1,
        forall|i: int|
            0 <= i < 54 && !has_source(arrows, i) ==> #[trigger] turn_layers(axis, turns, i) == i,
    ensures
        arrows_permutation(arrows) == turn_seq(axis, turns),
{
    lemma_turn_seq_index(axis, turns);
    lemma_arrows_permutation(arrows, turn_seq(axis, turns));
}

/// The arrows of the right face, written out.
spec fn r_arrows() -> Seq<Arrow> {
    seq![
        Arrow(0, 2), Arrow(1, 5), Arrow(2, 8), Arrow(3, 1),
        Arrow(5, 7), Arrow(6, 0), Arrow(7, 3), Arrow(8, 6),
        Arrow(38, 18), Arrow(41, 19), Arrow(44, 20),
        Arrow(18, 45), Arrow(19, 46), Arrow(20, 47),
        Arrow(45, 29), Arrow(46, 32), Arrow(47, 35),
        Arrow(29, 38), Arrow(32, 41), Arrow(35, 44),
    ]
}

/// The arrows of the right face are those written out.
proof fn lemma_r_arrows()
    ensures
        strips_valid(R_STRIPS),
        spec_surface_permutator(Surface::R) + spec_edge_permutator(R_STRIPS) == r_arrows(),
{
    assert(spec_surface_permutator(Surface::R) + spec_edge_permutator(R_STRIPS) =~= r_arrows());
}

/// The arrows of the right face move the stickers as the turning layer does.
#[verifier::rlimit(40)]
proof fn lemma_r_turn()
    ensures
        arrows_permutation(r_arrows()) == turn_seq(Axis::X, masked_turns(0b100, 1)),
{
    let arrows = r_arrows();
    let turns = masked_turns(0b100, 1);
    assert forall|k: int| 0 <= k < arrows.len() implies (#[trigger] arrows[k]).0 < 54
        && turn_layers(Axis::X, turns, arrows[k].0 as int) == arrows[k].1 by {}
    assert forall|i: int| 0 <= i < 54 && !has_source(arrows, i) implies #[trigger] turn_layers(
        Axis::X,
        turns,
        i,
    ) == i by {
        lemma_sources_excluded(arrows, i);
    }
    lemma_arrows_turn(arrows, Axis::X, turns);
}

/// The arrows of the left face, written out.
spec fn l_arrows() -> Seq<Arrow> {
    seq![
        Arrow(9, 11), Arrow(10, 14), Arrow(11, 17), Arrow(12, 10),
        Arrow(14, 16), Arrow(15, 9), Arrow(16, 12), Arrow(17, 15),
        Arrow(26, 42), Arrow(25, 39), Arrow(24, 36),
        Arrow(42, 33), Arrow(39, 30), Arrow(36, 27),
        Arrow(33, 53), Arrow(30, 52), Arrow(27, 51),
        Arrow(53, 26), Arrow(52, 25), Arrow(51, 24),
    ]
}

/// The arrows of the left face are those written out.
proof fn lemma_l_arrows()
    ensures
        strips_valid(L_STRIPS),
        spec_surface_permutator(Surface::L) + spec_edge_permutator(L_STRIPS) == l_arrows(),
{
    assert(spec_surface_permutator(Surface::L) + spec_edge_permutator(L_STRIPS) =~= l_arrows());
}

/// The arrows of the left face move the stickers as the turning layer does.
#[verifier::rlimit(40)]
proof fn lemma_l_turn()
    ensures
        arrows_permutation(l_arrows()) == turn_seq(Axis::X, masked_turns(0b001, -1)),
{
    let arrows = l_arrows();
    let turns = masked_turns(0b001, -1);
    assert forall|k: int| 0 <= k < arrows.len() implies (#[trigger] arrows[k]).0 < 54
        && turn_layers(Axis::X, turns, arrows[k].0 as int) == arrows[k].1 by {}
    assert forall|i: int| 0 <= i < 54 && !has_source(arrows, i) implies #[trigger] turn_layers(
        Axis::X,
        turns,
        i,
    ) == i by {
        lemma_sources_excluded(arrows, i);
    }
    lemma_arrows_turn(arrows, Axis::X, turns);
}

/// The arrows of the upper face, written out.
spec fn u_arrows() -> Seq<Arrow> {
    seq![
        Arrow(18, 20), Arrow(19, 23), Arrow(20, 26), Arrow(21, 19),
        Arrow(23, 25), Arrow(24, 18), Arrow(25, 21), Arrow(26, 24),
        Arrow(36, 9), Arrow(37, 10), Arrow(38, 11),
        Arrow(9, 47), Arrow(10, 50), Arrow(11, 53),
        Arrow(47, 2), Arrow(50, 5), Arrow(53, 8),
        Arrow(2, 36), Arrow(5, 37), Arrow(8, 38),
    ]
}

/// The arrows of the upper face are those written out.
proof fn lemma_u_arrows()
    ensures
        strips_valid(U_STRIPS),
        spec_surface_permutator(Surface::U) + spec_edge_permutator(U_STRIPS) == u_arrows(),
{
    assert(spec_surface_permutator(Surface::U) + spec_edge_permutator(U_STRIPS) =~= u_arrows());
}

/// The arrows of the upper face move the stickers as the turning layer does.
#[verifier::rlimit(40)]
proof fn lemma_u_turn()
    ensures
        arrows_permutation(u_arrows()) == turn_seq(Axis::Y, masked_turns(0b100, 1)),
{
    let arrows = u_arrows();
    let turns = masked_turns(0b100, 1);
    assert forall|k: int| 0 <= k < arrows.len() implies (#[trigger] arrows[k]).0 < 54
        && turn_layers(Axis::Y, turns, arrows[k].0 as int) == arrows[k].1 by {}
    assert forall|i: int| 0 <= i < 54 && !has_source(arrows, i) implies #[trigger] turn_layers(
        Axis::Y,
        turns,
        i,
    ) == i by {
        lemma_sources_excluded(arrows, i);
    }
    lemma_arrows_turn(arrows, Axis::Y, turns);
}

/// The arrows of the lower face, written out.
spec fn d_arrows() -> Seq<Arrow> {
    seq![
        Arrow(27, 29), Arrow(28, 32), Arrow(29, 35), Arrow(30, 28),
        Arrow(32, 34), Arrow(33, 27), Arrow(34, 30), Arrow(35, 33),
        Arrow(44, 6), Arrow(43, 3), Arrow(42, 0),
        Arrow(6, 51), Arrow(3, 48), Arrow(0, 45),
        Arrow(51, 17), Arrow(48, 16), Arrow(45, 15),
        Arrow(17, 44), Arrow(16, 43), Arrow(15, 42),
    ]
}

/// The arrows of the lower face are those written out.
proof fn lemma_d_arrows()
    ensures
        strips_valid(D_STRIPS),
        spec_surface_permutator(Surface::D) + spec_edge_permutator(D_STRIPS) == d_arrows(),
{
    assert(spec_surface_permutator(Surface::D) + spec_edge_permutator(D_STRIPS) =~= d_arrows());
}

/// The arrows of the lower face move the stickers as the turning layer does.
#[verifier::rlimit(40)]
proof fn lemma_d_turn()
    ensures
        arrows_permutation(d_arrows()) == turn_seq(Axis::Y, masked_turns(0b001, -1)),
{
    let arrows = d_arrows();
    let turns = masked_turns(0b001, -1);
    assert forall|k: int| 0 <= k < arrows.len() implies (#[trigger] arrows[k]).0 < 54
        && turn_layers(Axis::Y, turns, arrows[k].0 as int) == arrows[k].1 by {}
    assert forall|i: int| 0 <= i < 54 && !has_source(arrows, i) implies #[trigger] turn_layers(
        Axis::Y,
        turns,
        i,
    ) == i by {
        lemma_sources_excluded(arrows, i);
    }
    lemma_arrows_turn(arrows, Axis::Y, turns);
}

/// The arrows of the front face, written out.
spec fn f_arrows() -> Seq<Arrow> {
    seq![
        Arrow(36, 38), Arrow(37, 41), Arrow(38, 44), Arrow(39, 37),
        Arrow(41, 43), Arrow(42, 36), Arrow(43, 39), Arrow(44, 42),
        Arrow(20, 0), Arrow(23, 1), Arrow(26, 2),
        Arrow(0, 27), Arrow(1, 28), Arrow(2, 29),
        Arrow(27, 11), Arrow(28, 14), Arrow(29, 17),
        Arrow(11, 20), Arrow(14, 23), Arrow(17, 26),
    ]
}

/// The arrows of the front face are those written out.
proof fn lemma_f_arrows()
    ensures
        strips_valid(F_STRIPS),
        spec_surface_permutator(Surface::F) + spec_edge_permutator(F_STRIPS) == f_arrows(),
{
    assert(spec_surface_permutator(Surface::F) + spec_edge_permutator(F_STRIPS) =~= f_arrows());
}

/// The arrows of the front face move the stickers as the turning layer does.
#[verifier::rlimit(40)]
proof fn lemma_f_turn()
    ensures
        arrows_permutation(f_arrows()) == turn_seq(Axis::Z, masked_turns(0b100, 1)),
{
    let arrows = f_arrows();
    let turns = masked_turns(0b100, 1);
    assert forall|k: int| 0 <= k < arrows.len() implies (#[trigger] arrows[k]).0 < 54
        && turn_layers(Axis::Z, turns, arrows[k].0 as int) == arrows[k].1 by {}
    assert forall|i: int| 0 <= i < 54 && !has_source(arrows, i) implies #[trigger] turn_layers(
        Axis::Z,
        turns,
        i,
    ) == i by {
        lemma_sources_excluded(arrows, i);
    }
    lemma_arrows_turn(arrows, Axis::Z, turns);
}

/// The arrows of the back face, written out.
spec fn b_arrows() -> Seq<Arrow> {
    seq![
        Arrow(45, 47), Arrow(46, 50), Arrow(47, 53), Arrow(48, 46),
        Arrow(50, 52), Arrow(51, 45), Arrow(52, 48), Arrow(53, 51),
        Arrow(24, 15), Arrow(21, 12), Arrow(18, 9),
        Arrow(15, 35), Arrow(12, 34), Arrow(9, 33),
        Arrow(35, 8), Arrow(34, 7), Arrow(33, 6),
        Arrow(8, 24), Arrow(7, 21), Arrow(6, 18),
    ]
}

/// The arrows of the back face are those written out.
proof fn lemma_b_arrows()
    ensures
        strips_valid(B_STRIPS),
        spec_surface_permutator(Surface::B) + spec_edge_permutator(B_STRIPS) == b_arrows(),
{
    assert(spec_surface_permutator(Surface::B) + spec_edge_permutator(B_STRIPS) =~= b_arrows());
}

/// The arrows of the back face move the stickers as the turning layer does.
#[verifier::rlimit(40)]
proof fn lemma_b_turn()
    ensures
        arrows_permutation(b_arrows()) == turn_seq(Axis::Z, masked_turns(0b001, -1)),
{
    let arrows = b_arrows();
    let turns = masked_turns(0b001, -1);
    assert forall|k: int| 0 <= k < arrows.len() implies (#[trigger] arrows[k]).0 < 54
        && turn_layers(Axis::Z, turns, arrows[k].0 as int) == arrows[k].1 by {}
    assert forall|i: int| 0 <= i < 54 && !has_source(arrows, i) implies #[trigger] turn_layers(
        Axis::Z,
        turns,
        i,
    ) == i by {
        lemma_sources_excluded(arrows, i);
    }
    lemma_arrows_turn(arrows, Axis::Z, turns);
}

/// The arrows of the middle slice between the left and the right face, written out.
spec fn m_arrows() -> Seq<Arrow> {
    seq![
        Arrow(23, 43), Arrow(22, 40), Arrow(21, 37),
        Arrow(43, 34), Arrow(40, 31), Arrow(37, 28),
        Arrow(34, 50), Arrow(31, 49), Arrow(28, 48),
        Arrow(50, 23), Arrow(49, 22), Arrow(48, 21),
    ]
}

/// The arrows of the middle slice between the left and the right face are those written out.
proof fn lemma_m_arrows()
    ensures
        strips_valid(M_STRIPS),
        spec_edge_permutator(M_STRIPS) == m_arrows(),
{
    assert(spec_edge_permutator(M_STRIPS) =~= m_arrows());
}

/// The arrows of the middle slice between the left and the right face move the stickers as the turning layer does.
#[verifier::rlimit(40)]
proof fn lemma_m_turn()
    ensures
        arrows_permutation(m_arrows()) == turn_seq(Axis::X, masked_turns(0b010, -1)),
{
    let arrows = m_arrows();
    let turns = masked_turns(0b010, -1);
    assert forall|k: int| 0 <= k < arrows.len() implies (#[trigger] arrows[k]).0 < 54
        && turn_layers(Axis::X, turns, arrows[k].0 as int) == arrows[k].1 by {}
    assert forall|i: int| 0 <= i < 54 && !has_source(arrows, i) implies #[trigger] turn_layers(
        Axis::X,
        turns,
        i,
    ) == i by {
        lemma_sources_excluded(arrows, i);
    }
    lemma_arrows_turn(arrows, Axis::X, turns);
}

/// The arrows of the middle slice between the upper and the lower face, written out.
spec fn e_arrows() -> Seq<Arrow> {
    seq![
        Arrow(41, 7), Arrow(40, 4), Arrow(39, 1),
        Arrow(7, 52), Arrow(4, 49), Arrow(1, 46),
        Arrow(52, 14), Arrow(49, 13), Arrow(46, 12),
        Arrow(14, 41), Arrow(13, 40), Arrow(12, 39),
    ]
}

/// The arrows of the middle slice between the upper and the lower face are those written out.
proof fn lemma_e_arrows()
    ensures
        strips_valid(E_STRIPS),
        spec_edge_permutator(E_STRIPS) == e_arrows(),
{
    assert(spec_edge_permutator(E_STRIPS) =~= e_arrows());
}

/// The arrows of the middle slice between the upper and the lower face move the stickers as the turning layer does.
#[verifier::rlimit(40)]
proof fn lemma_e_turn()
    ensures
        arrows_permutation(e_arrows()) == turn_seq(Axis::Y, masked_turns(0b010, -1)),
{
    let arrows = e_arrows();
    let turns = masked_turns(0b010, -1);
    assert forall|k: int| 0 <= k < arrows.len() implies (#[trigger] arrows[k]).0 < 54
        && turn_layers(Axis::Y, turns, arrows[k].0 as int) == arrows[k].1 by {}
    assert forall|i: int| 0 <= i < 54 && !has_source(arrows, i) implies #[trigger] turn_layers(
        Axis::Y,
        turns,
        i,
    ) == i by {
        lemma_sources_excluded(arrows, i);
    }
    lemma_arrows_turn(arrows, Axis::Y, turns);
}

/// The arrows of the middle slice between the front and the back face, written out.
spec fn s_arrows() -> Seq<Arrow> {
    seq![
        Arrow(3, 30), Arrow(4, 31), Arrow(5, 32),
        Arrow(30, 10), Arrow(31, 13), Arrow(32, 16),
        Arrow(10, 19), Arrow(13, 22), Arrow(16, 25),
        Arrow(19, 3), Arrow(22, 4), Arrow(25, 5),
    ]
}

/// The arrows of the middle slice between the front and the back face are those written out.
proof fn lemma_s_arrows()
    ensures
        strips_valid(S_STRIPS),
        spec_edge_permutator(S_STRIPS) == s_arrows(),
{
    assert(spec_edge_permutator(S_STRIPS) =~= s_arrows());
}

/// The arrows of the middle slice between the front and the back face move the stickers as the turning layer does.
#[verifier::rlimit(40)]
proof fn lemma_s_turn()
    ensures
        arrows_permutation(s_arrows()) == turn_seq(Axis::Z, masked_turns(0b010, 1)),
{
    let arrows = s_arrows();
    let turns = masked_turns(0b010, 1);
    assert forall|k: int| 0 <= k < arrows.len() implies (#[trigger] arrows[k]).0 < 54
        && turn_layers(Axis::Z, turns, arrows[k].0 as int) == arrows[k].1 by {}
    assert forall|i: int| 0 <= i < 54 && !has_source(arrows, i) implies #[trigger] turn_layers(
        Axis::Z,
        turns,
        i,
    ) == i by {
        lemma_sources_excluded(arrows, i);
    }
    lemma_arrows_turn(arrows, Axis::Z, turns);
}

/// The arrows of each written-down quarter turn move the stickers as the
/// turning layer does.
pub proof fn lemma_primitive_turn(axis: Axis, bit: u8)
    requires
        is_layer_bit(bit),
    ensures
        arrows_permutation(spec_primitive_arrows(axis, bit)) == turn_seq(
            axis,
            masked_turns(bit, spec_primitive_sign(axis, bit)),
        ),
        forall|k: int|
            0 <= k < spec_primitive_arrows(axis, bit).len() ==> (#[trigger] spec_primitive_arrows(
                axis,
                bit,
            )[k]).0 < 54,
{
    match axis {
        Axis::X => if bit == 0b100 {
            lemma_r_arrows();
            lemma_r_turn();
        } else if bit == 0b001 {
            lemma_l_arrows();
            lemma_l_turn();
        } else {
            lemma_m_arrows();
            lemma_m_turn();
        },
        Axis::Y => if bit == 0b100 {
            lemma_u_arrows();
            lemma_u_turn();
        } else if bit == 0b001 {
            lemma_d_arrows();
            lemma_d_turn();
        } else {
            lemma_e_arrows();
            lemma_e_turn();
        },
        Axis::Z => if bit == 0b100 {
            lemma_f_arrows();
            lemma_f_turn();
        } else if bit == 0b001 {
            lemma_b_arrows();
            lemma_b_turn();
        } else {
            lemma_s_arrows();
            lemma_s_turn();
        },
    }
}

/// The direction of the written-down quarter turn of the layer `bit` about
/// `axis`.
pub fn primitive_sign(axis: Axis, bit: u8) -> (s: i8)
    ensures
        s == spec_primitive_sign(axis, bit),
{
    match axis {
        Axis::X => if bit == 0b100 { 1 } else { -1 },
        Axis::Y => if bit == 0b100 { 1 } else { -1 },
        Axis::Z => if bit == 0b001 { -1 } else { 1 },
    }
}

/// The arrows of the quarter turn of the layer `bit` about `axis`.
fn primitive_arrows(axis: Axis, bit: u8) -> (v: Vec<Arrow>)
    requires
        is_layer_bit(bit),
    ensures
        v@ == spec_primitive_arrows(axis, bit),
{
    proof {
        lemma_r_arrows();
        lemma_l_arrows();
        lemma_m_arrows();
        lemma_u_arrows();
        lemma_d_arrows();
        lemma_e_arrows();
        lemma_f_arrows();
        lemma_b_arrows();
        lemma_s_arrows();
    }
    match axis {
        Axis::X => if bit == 0b100 {
            concat(surface_permutator(Surface::R), edge_permutator(R_STRIPS))
        } else if bit == 0b001 {
            concat(surface_permutator(Surface::L), edge_permutator(L_STRIPS))
        } else {
            edge_permutator(M_STRIPS)
        },
        Axis::Y => if bit == 0b100 {
            concat(surface_permutator(Surface::U), edge_permutator(U_STRIPS))
        } else if bit == 0b001 {
            concat(surface_permutator(Surface::D), edge_permutator(D_STRIPS))
        } else {
            edge_permutator(E_STRIPS)
        },
        Axis::Z => if bit == 0b100 {
            concat(surface_permutator(Surface::F), edge_permutator(F_STRIPS))
        } else if bit == 0b001 {
            concat(surface_permutator(Surface::B), edge_permutator(B_STRIPS))
        } else {
            edge_permutator(S_STRIPS)
        },
    }
}

/// The matrix of the written-down quarter turn of the layer `bit` about
/// `axis`.
pub fn primitive(axis: Axis, bit: u8) -> (m: PermutationMatrix)
    requires
        is_layer_bit(bit),
    ensures
        m.inv_perm@ == turn_seq(axis, masked_turns(bit, -spec_primitive_sign(axis, bit))),
        m.wf(),
{
    let arrows = primitive_arrows(axis, bit);
    proof {
        let turns = masked_turns(bit, spec_primitive_sign(axis, bit));
        lemma_primitive_turn(axis, bit);
        lemma_turn_seq_permutation(axis, turns);
        assert(opposite(turns) == masked_turns(bit, -spec_primitive_sign(axis, bit)));
    }
    from_arrows(arrows)
}

} // verus!
