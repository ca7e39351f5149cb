//! Cube's state is expressed as permutation matrix
//! and operations are matrix multiplications.

use crate::coord::{
    rotation_fits, rotation_of, spec_rotation_of, spec_surface_number, surface_number,
    surface_number_inv, Axis, Rotation, Surface, SurfaceIndex,
};
use crate::geometry::{
    layer_selected, lemma_turn_layers_compose, lemma_turn_layers_full, lemma_turn_layers_mod,
    lemma_turn_layers_range, masked_turns, turn_layers, LayerTurns,
};
use crate::{repeated, reverse_primed, Command, Move};
use vstd::arithmetic::div_mod::{lemma_mod_self_0, lemma_small_mod};
use vstd::prelude::*;

pub mod math;
pub mod primitive;

pub use math::{Permutation, PermutationMatrix};

use math::{
    compose, identity_seq, inverse, is_permutation, lemma_compose_identity, lemma_inverse_unique,
};

verus! {

/// Where the stickers go when each layer along `axis` makes its quarter
/// turns: the sequence holds at each facelet the facelet to which that
/// facelet's sticker moves.
pub open spec fn turn_seq(axis: Axis, turns: LayerTurns) -> Seq<u8> {
    Seq::new(54, |f: int| turn_layers(axis, turns, f) as u8)
}

/// No turns at all.
pub open spec fn no_turns() -> LayerTurns {
    LayerTurns(0, 0, 0)
}

/// The turns that undo `turns`.
pub open spec fn opposite(turns: LayerTurns) -> LayerTurns {
    LayerTurns(-turns.0, -turns.1, -turns.2)
}

/// What the sequence of a turn holds at each facelet.
pub proof fn lemma_turn_seq_index(axis: Axis, turns: LayerTurns)
    ensures
        turn_seq(axis, turns).len() == 54,
        forall|f: int|
            0 <= f < 54 ==> #[trigger] turn_seq(axis, turns)[f] == turn_layers(axis, turns, f),
{
    assert forall|f: int| 0 <= f < 54 implies #[trigger] turn_seq(axis, turns)[f] == turn_layers(
        axis,
        turns,
        f,
    ) by {
        lemma_turn_layers_range(axis, turns, f);
    }
}

/// One turn after another about the same axis is the turn by the quarter
/// turns added up.
pub proof fn lemma_turn_seq_compose(axis: Axis, a: LayerTurns, b: LayerTurns)
    ensures
        compose(turn_seq(axis, a), turn_seq(axis, b)) == turn_seq(axis, a.plus(b)),
{
    lemma_turn_seq_index(axis, a);
    lemma_turn_seq_index(axis, b);
    lemma_turn_seq_index(axis, a.plus(b));
    assert forall|f: int| 0 <= f < 54 implies compose(turn_seq(axis, a), turn_seq(axis, b))[f]
        == turn_seq(axis, a.plus(b))[f] by {
        lemma_turn_layers_range(axis, a, f);
        lemma_turn_layers_compose(axis, b, a, f);
    }
    assert(compose(turn_seq(axis, a), turn_seq(axis, b)) =~= turn_seq(axis, a.plus(b)));
}

/// Turns by multiples of four quarter turns leave every sticker where it
/// is.
pub proof fn lemma_turn_seq_full(axis: Axis, turns: LayerTurns)
    requires
        turns.0 % 4 == 0,
        turns.1 % 4 == 0,
        turns.2 % 4 == 0,
    ensures
        turn_seq(axis, turns) == identity_seq(),
{
    assert forall|f: int| 0 <= f < 54 implies turn_seq(axis, turns)[f] == identity_seq()[f] by {
        lemma_turn_layers_full(axis, turns, f);
    }
    assert(turn_seq(axis, turns) =~= identity_seq());
}

/// Turns that agree modulo four move the stickers alike.
pub proof fn lemma_turn_seq_mod(axis: Axis, a: LayerTurns, b: LayerTurns)
    requires
        a.0 % 4 == b.0 % 4,
        a.1 % 4 == b.1 % 4,
        a.2 % 4 == b.2 % 4,
    ensures
        turn_seq(axis, a) == turn_seq(axis, b),
{
    assert forall|f: int| 0 <= f < 54 implies turn_seq(axis, a)[f] == turn_seq(axis, b)[f] by {
        lemma_turn_layers_mod(axis, a, b, f);
    }
    assert(turn_seq(axis, a) =~= turn_seq(axis, b));
}

/// A turn permutes the facelets, and the opposite turn is its inverse.
pub proof fn lemma_turn_seq_permutation(axis: Axis, turns: LayerTurns)
    ensures
        is_permutation(turn_seq(axis, turns)),
        inverse(turn_seq(axis, turns)) == turn_seq(axis, opposite(turns)),
{
    let s = turn_seq(axis, turns);
    let t = turn_seq(axis, opposite(turns));
    lemma_turn_seq_index(axis, turns);
    lemma_turn_seq_index(axis, opposite(turns));
    lemma_turn_seq_compose(axis, turns, opposite(turns));
    lemma_turn_seq_full(axis, turns.plus(opposite(turns)));
    assert forall|f: int| 0 <= f < 54 implies #[trigger] s[f] < 54 && t[s[f] as int] == f by {
        lemma_turn_layers_range(axis, turns, f);
        assert(compose(s, t)[f] == identity_seq()[f]);
    }
    assert forall|i: int, j: int| 0 <= i < j < 54 implies #[trigger] s[i] != #[trigger] s[j] by {
        assert(t[s[i] as int] == i);
        assert(t[s[j] as int] == j);
    }
    lemma_inverse_unique(s, t);
}

/// The colour that shows at facelet `k` of a cube whose matrix holds `inv_perm`:
/// the surface where the sticker that lies there started.
pub open spec fn spec_color_at(inv_perm: Seq<u8>, k: int) -> Surface {
    Surface::from_ordinal(inv_perm[k] as int / 9)
}

/// Whether all of `positions` show the same colour: that of the first.
#[verifier::opaque]
pub open spec fn spec_same_color(inv_perm: Seq<u8>, positions: Seq<u8>) -> bool {
    forall|i: int|
        0 <= i < positions.len() ==> spec_color_at(inv_perm, #[trigger] positions[i] as int)
            == spec_color_at(inv_perm, positions[0] as int)
}

/// The place after `k` in a round of `n` places.
spec fn next(k: int, n: int) -> int {
    if k + 1 == n {
        0
    } else {
        k + 1
    }
}

/// Colours that agree from each place to the next agree with the first.
proof fn lemma_chain_of_equals(colors: Seq<Surface>, k: int)
    requires
        0 <= k < colors.len(),
        forall|i: int| 0 <= i < colors.len() - 1 ==> #[trigger] colors[i] == colors[i + 1],
    ensures
        colors[k] == colors[0],
    decreases k,
{
    if k > 0 {
        lemma_chain_of_equals(colors, k - 1);
        assert(colors[k - 1] == colors[k - 1 + 1]);
    }
}

/// Check if the colors on the given `positions` are the same.
pub fn same_color_check<const N: usize>(mat: &PermutationMatrix, positions: [u8; N]) -> (b: bool)
    requires
        mat.wf(),
        forall|i: int| 0 <= i < N ==> #[trigger] positions[i] < 54,
    ensures
        b == spec_same_color(mat.inv_perm@, positions@),
{
    let mut color_list: Vec<Surface> = Vec::new();
    for i in 0..N
        invariant
            mat.wf(),
            forall|k: int| 0 <= k < N ==> #[trigger] positions[k] < 54,
            color_list@.len() == i,
            forall|k: int|
                0 <= k < i ==> #[trigger] color_list@[k] == spec_color_at(
                    mat.inv_perm@,
                    positions[k] as int,
                ),
    {
        let pos = mat.inv_perm[positions[i] as usize];
        let SurfaceIndex(c, _, _) = surface_number_inv(pos);
        color_list.push(c);
    }
    let mut b = true;
    for i in 0..N
        invariant
            color_list@.len() == N,
            b == (forall|k: int| 0 <= k < i ==> #[trigger] color_list@[k] == color_list@[next(k, N as int)]),
    {
        proof {
            if i + 1 == N {
                lemma_mod_self_0(N as int);
            } else {
                lemma_small_mod((i + 1) as nat, N as nat);
            }
        }
        b = b && color_list[i] == color_list[(i + 1) % N];
    }
    proof {
        reveal(spec_same_color);
        let colors = color_list@;
        if b {
            assert forall|k: int| 0 <= k < colors.len() - 1 implies #[trigger] colors[k] == colors[k
                + 1] by {
                assert(colors[k] == colors[next(k, N as int)]);
            }
            assert forall|i: int| 0 <= i < N implies spec_color_at(
                mat.inv_perm@,
                #[trigger] positions[i] as int,
            ) == spec_color_at(mat.inv_perm@, positions[0] as int) by {
                lemma_chain_of_equals(colors, i);
            }
        } else {
            let k = choose|k: int| 0 <= k < N && #[trigger] colors[k] != colors[next(k, N as int)];
            let l = next(k, N as int);
            assert(colors[k] == spec_color_at(mat.inv_perm@, positions[k] as int));
            assert(colors[l] == spec_color_at(mat.inv_perm@, positions[l] as int));
        }
    }
    b
}

/// One step of a move: the sticker on facelet `.0` goes to facelet `.1`.
#[derive(Clone, Copy)]
pub struct Arrow(pub u8, pub u8);

/// The permutation that starts as the identity and takes, for each arrow in
/// turn, the arrow's source to its target.
pub open spec fn arrows_permutation(arrows: Seq<Arrow>) -> Seq<u8>
    decreases arrows.len(),
{
    if arrows.len() == 0 {
        identity_seq()
    } else {
        arrows_permutation(arrows.drop_last()).update(arrows.last().0 as int, arrows.last().1)
    }
}

/// Whether one of the arrows starts at facelet `i`.
pub open spec fn has_source(arrows: Seq<Arrow>, i: int) -> bool {
    exists|k: int| 0 <= k < arrows.len() && #[trigger] arrows[k].0 == i
}

/// Arrows that each follow `target`, and that start at every facelet that
/// `target` moves, make up `target`.
pub proof fn lemma_arrows_permutation(arrows: Seq<Arrow>, target: Seq<u8>)
    requires
        target.len() == 54,
        forall|k: int|
            0 <= k < arrows.len() ==> (#[trigger] arrows[k]).0 < 54 && target[arrows[k].0 as int]
                == arrows[k].1,
        forall|i: int| 0 <= i < 54 ==> #[trigger] target[i] == i || has_source(arrows, i),
    ensures
        arrows_permutation(arrows) == target,
{
    lemma_arrows_permutation_prefix(arrows, target, arrows.len() as int);
    assert(arrows.take(arrows.len() as int) =~= arrows);
    let p = arrows_permutation(arrows);
    assert forall|i: int| 0 <= i < 54 implies p[i] == target[i] by {
        if has_source(arrows, i) {
            let k = choose|k: int| 0 <= k < arrows.len() && #[trigger] arrows[k].0 == i;
            assert(has_source(arrows.take(arrows.len() as int), i));
        } else {
            assert(target[i] == i);
        }
    }
    assert(p =~= target);
}

/// The first `n` arrows take their sources where `target` takes them and
/// leave every other facelet where it is.
proof fn lemma_arrows_permutation_prefix(arrows: Seq<Arrow>, target: Seq<u8>, n: int)
    requires
        target.len() == 54,
        0 <= n <= arrows.len(),
        forall|k: int|
            0 <= k < arrows.len() ==> (#[trigger] arrows[k]).0 < 54 && target[arrows[k].0 as int]
                == arrows[k].1,
    ensures
        arrows_permutation(arrows.take(n)).len() == 54,
        forall|i: int|
            0 <= i < 54 ==> #[trigger] arrows_permutation(arrows.take(n))[i] == (if has_source(
                arrows.take(n),
                i,
            ) {
                target[i]
            } else {
                i as u8
            }),
    decreases n,
{
    let cur = arrows.take(n);
    if n == 0 {
        assert forall|i: int| 0 <= i < 54 implies !has_source(cur, i) by {}
    } else {
        let prev = arrows.take(n - 1);
        lemma_arrows_permutation_prefix(arrows, target, n - 1);
        assert(cur.drop_last() =~= prev);
        assert(cur.last() == arrows[n - 1]);
        let a = arrows[n - 1];
        assert forall|i: int| 0 <= i < 54 implies #[trigger] arrows_permutation(cur)[i] == (
        if has_source(cur, i) {
            target[i]
        } else {
            i as u8
        }) by {
            if i == a.0 {
                assert(cur[n - 1].0 == i);
            } else if has_source(prev, i) {
                let k = choose|k: int| 0 <= k < prev.len() && #[trigger] prev[k].0 == i;
                assert(cur[k].0 == i);
            } else if has_source(cur, i) {
                let k = choose|k: int| 0 <= k < cur.len() && #[trigger] cur[k].0 == i;
                assert(prev[k].0 == i);
            }
        }
    }
}

/// The arrows that turn the eight outer facelets of `mov` a quarter turn.
pub open spec fn spec_surface_permutator(mov: Surface) -> Seq<Arrow> {
    seq![
        spec_arrow(mov, 0, 0, mov, 0, 2),
        spec_arrow(mov, 0, 1, mov, 1, 2),
        spec_arrow(mov, 0, 2, mov, 2, 2),
        spec_arrow(mov, 1, 0, mov, 0, 1),
        spec_arrow(mov, 1, 2, mov, 2, 1),
        spec_arrow(mov, 2, 0, mov, 0, 0),
        spec_arrow(mov, 2, 1, mov, 1, 0),
        spec_arrow(mov, 2, 2, mov, 2, 0),
    ]
}

/// The arrow from row `i`, column `j` of `from` to row `k`, column `l` of `to`.
pub open spec fn spec_arrow(from: Surface, i: int, j: int, to: Surface, k: int, l: int) -> Arrow {
    Arrow(spec_surface_number(from, i, j) as u8, spec_surface_number(to, k, l) as u8)
}

/// The arrows that turn the eight outer facelets of `mov` a quarter turn.
fn surface_permutator(mov: Surface) -> (v: Vec<Arrow>)
    ensures
        v@ == spec_surface_permutator(mov),
{
    let v = vec![
        Arrow(surface_number(mov, 0, 0), surface_number(mov, 0, 2)),
        Arrow(surface_number(mov, 0, 1), surface_number(mov, 1, 2)),
        Arrow(surface_number(mov, 0, 2), surface_number(mov, 2, 2)),
        Arrow(surface_number(mov, 1, 0), surface_number(mov, 0, 1)),
        Arrow(surface_number(mov, 1, 2), surface_number(mov, 2, 1)),
        Arrow(surface_number(mov, 2, 0), surface_number(mov, 0, 0)),
        Arrow(surface_number(mov, 2, 1), surface_number(mov, 1, 0)),
        Arrow(surface_number(mov, 2, 2), surface_number(mov, 2, 0)),
    ];
    proof {
        assert(v@ =~= spec_surface_permutator(mov));
    }
    v
}

/// Four strips of three facelets each, one on each of four surfaces.
pub type Strips = [(Surface, [(u8, u8); 3]); 4];

/// Whether every row and column of `edges` lies on a surface.
pub open spec fn strips_valid(edges: Strips) -> bool {
    forall|k: int, i: int|
        0 <= k < 4 && 0 <= i < 3 ==> (#[trigger] edges[k].1[i]).0 < 3 && edges[k].1[i].1 < 3
}

/// The arrows that take each strip of `edges` to the next one, and the last
/// to the first.
pub open spec fn spec_edge_permutator(edges: Strips) -> Seq<Arrow> {
    Seq::new(
        12,
        |n: int|
            {
                let x = edges[n / 3];
                let y = edges[(n / 3 + 1) % 4];
                spec_arrow(
                    x.0,
                    x.1[n % 3].0 as int,
                    x.1[n % 3].1 as int,
                    y.0,
                    y.1[n % 3].0 as int,
                    y.1[n % 3].1 as int,
                )
            },
    )
}

/// The arrows that take each strip of `edges` to the next one, and the last
/// to the first.
fn edge_permutator(edges: Strips) -> (v: Vec<Arrow>)
    requires
        strips_valid(edges),
    ensures
        v@ == spec_edge_permutator(edges),
{
    let mut v: Vec<Arrow> = Vec::new();
    for k in 0..4usize
        invariant
            strips_valid(edges),
            v@.len() == 3 * k,
            forall|n: int| 0 <= n < 3 * k ==> #[trigger] v@[n] == spec_edge_permutator(edges)[n],
    {
        let (surface_x, edges_x) = edges[k];
        let (surface_y, edges_y) = edges[(k + 1) % 4];
        for i in 0..3usize
            invariant
                0 <= k < 4,
                strips_valid(edges),
                (surface_x, edges_x) == edges[k as int],
                (surface_y, edges_y) == edges[(k as int + 1) % 4],
                v@.len() == 3 * k + i,
                forall|n: int|
                    0 <= n < 3 * k + i ==> #[trigger] v@[n] == spec_edge_permutator(edges)[n],
        {
            assert(edges[k as int].1[i as int].0 < 3);
            assert(edges[(k as int + 1) % 4].1[i as int].0 < 3);
            v.push(
                Arrow(
                    surface_number(surface_x, edges_x[i].0, edges_x[i].1),
                    surface_number(surface_y, edges_y[i].0, edges_y[i].1),
                ),
            );
        }
    }
    proof {
        assert(v@ =~= spec_edge_permutator(edges));
    }
    v
}

/// The matrix of the move that takes the stickers along `arrows` and
/// leaves the others where they are.
fn from_arrows(arrows: Vec<Arrow>) -> (m: PermutationMatrix)
    requires
        forall|k: int| 0 <= k < arrows@.len() ==> (#[trigger] arrows@[k]).0 < 54,
        is_permutation(arrows_permutation(arrows@)),
    ensures
        m.inv_perm@ == inverse(arrows_permutation(arrows@)),
        m.wf(),
{
    let mut perm = [0u8; 54];
    for j in 0..54usize
        invariant
            forall|k: int| 0 <= k < j ==> #[trigger] perm@[k] == k,
    {
        perm[j] = j as u8;
    }
    assert(perm@ =~= identity_seq());
    for n in 0..arrows.len()
        invariant
            forall|k: int| 0 <= k < arrows@.len() ==> (#[trigger] arrows@[k]).0 < 54,
            perm@ == arrows_permutation(arrows@.take(n as int)),
    {
        let Arrow(from, to) = arrows[n];
        perm[from as usize] = to;
        proof {
            assert(arrows@.take(n + 1).drop_last() =~= arrows@.take(n as int));
        }
    }
    assert(arrows@.take(arrows@.len() as int) =~= arrows@);
    PermutationMatrix::op(Permutation::new(perm))
}

/// The arrows of `x`, then those of `y`.
fn concat(x: Vec<Arrow>, y: Vec<Arrow>) -> (v: Vec<Arrow>)
    ensures
        v@ == x@ + y@,
{
    let mut x = x;
    let mut y = y;
    x.append(&mut y);
    x
}

/// The matrix of `rot`: at each facelet it holds the facelet from which a
/// sticker arrives there when the layers that `rot` selects make their
/// quarter turns.
pub open spec fn spec_of(rot: Rotation) -> Seq<u8> {
    turn_seq(rot.axis, masked_turns(rot.indices, -(rot.clockwise as int)))
}

/// One quarter turn of a single layer, clockwise or not.
fn quarter_turn(axis: Axis, bit: u8, clockwise: i8) -> (m: PermutationMatrix)
    requires
        primitive::is_layer_bit(bit),
        clockwise == 1 || clockwise == -1,
    ensures
        m.inv_perm@ == turn_seq(axis, masked_turns(bit, -(clockwise as int))),
        m.wf(),
{
    let written = primitive::primitive(axis, bit);
    if clockwise == primitive::primitive_sign(axis, bit) {
        written
    } else {
        proof {
            let turns = masked_turns(bit, -primitive::spec_primitive_sign(axis, bit));
            lemma_turn_seq_permutation(axis, turns);
            assert(opposite(turns) == masked_turns(bit, -(clockwise as int)));
        }
        written.inv()
    }
}

/// Get permutation from a `Rotation`.
pub fn of(rot: Rotation) -> (m: PermutationMatrix)
    requires
        rot.wf(),
    ensures
        m.inv_perm@ == spec_of(rot),
        m.wf(),
{
    let Rotation { axis, indices, clockwise } = rot;
    let single = indices == 0b001 || indices == 0b010 || indices == 0b100;
    if single && (clockwise == 1 || clockwise == -1) {
        quarter_turn(axis, indices, clockwise)
    } else {
        let rep = (clockwise % 4 + 4) % 4;
        let mut m = PermutationMatrix::identity();
        let ghost mut done = no_turns();
        proof {
            lemma_turn_seq_full(axis, done);
        }
        for i in 0..3u8
            invariant
                indices < 8,
                0 <= rep < 4,
                rep as int == (clockwise as int) % 4,
                m.wf(),
                m.inv_perm@ == turn_seq(axis, done),
                done.0 == (if i > 0 && layer_selected(indices, -1) { -rep as int } else { 0 }),
                done.1 == (if i > 1 && layer_selected(indices, 0) { -rep as int } else { 0 }),
                done.2 == (if i > 2 && layer_selected(indices, 1) { -rep as int } else { 0 }),
        {
            let j = indices & (1u8 << i);
            proof {
                lemma_layer_bit(indices, i);
            }
            if j > 0 {
                let op = quarter_turn(axis, j, 1);
                let ghost before = done;
                for n in 0..rep
                    invariant
                        op.wf(),
                        op.inv_perm@ == turn_seq(axis, masked_turns(j, -1)),
                        m.wf(),
                        m.inv_perm@ == turn_seq(axis, done),
                        done == before.plus(masked_turns(j, -(n as int))),
                {
                    m = op * m;
                    proof {
                        lemma_turn_seq_compose(axis, masked_turns(j, -1), done);
                        done = masked_turns(j, -1).plus(done);
                    }
                }
            }
        }
        proof {
            lemma_turn_seq_mod(axis, done, masked_turns(indices, -(clockwise as int)));
        }
        m
    }
}

/// What the bit of layer `i` in `indices` says about the layer.
pub proof fn lemma_layer_bit(indices: u8, i: u8)
    requires
        indices < 8,
        i < 3,
    ensures
        indices & (1u8 << i) == 0 || indices & (1u8 << i) == 1u8 << i,
        1u8 << i == (if i == 0 { 1u8 } else if i == 1 { 2u8 } else { 4u8 }),
        (indices & (1u8 << i) > 0) == layer_selected(indices, i as int - 1),
{
    assert(indices & (1u8 << i) == 0 || indices & (1u8 << i) == 1u8 << i) by (bit_vector);
    assert(1u8 << i == (if i == 0 { 1u8 } else if i == 1 { 2u8 } else { 4u8 })) by (bit_vector)
        requires
            i < 3,
    ;
    assert((indices & 1 > 0) == (indices % 2 == 1)) by (bit_vector);
    assert((indices & 2 > 0) == ((indices / 2) % 2 == 1)) by (bit_vector);
    assert((indices & 4 > 0) == ((indices / 4) % 2 == 1)) by (bit_vector);
}

/// The rotation whose matrix stands at place `k` of the table of all
/// matrices: the axes follow one another, for each axis the eight choices
/// of layers, for each choice the quarter turns from none to three.
pub open spec fn spec_table_entry(k: int) -> Rotation {
    Rotation {
        axis: if k / 32 == 0 {
            Axis::X
        } else if k / 32 == 1 {
            Axis::Y
        } else {
            Axis::Z
        },
        indices: ((k / 4) % 8) as u8,
        clockwise: (k % 4) as i8,
    }
}

/// The rotation whose matrix stands at place `k` of the table.
fn table_entry(k: usize) -> (rot: Rotation)
    requires
        k < 96,
    ensures
        rot == spec_table_entry(k as int),
        rot.wf(),
{
    let axis = if k / 32 == 0 {
        Axis::X
    } else if k / 32 == 1 {
        Axis::Y
    } else {
        Axis::Z
    };
    Rotation { axis, indices: ((k / 4) % 8) as u8, clockwise: (k % 4) as i8 }
}

/// The place in the table of the rotation of the layers `indices` about
/// `axis` by `q` quarter turns.
proof fn lemma_table_entry(axis: Axis, indices: u8, q: int)
    requires
        indices < 8,
        0 <= q < 4,
    ensures
        ({
            let a = match axis {
                Axis::X => 0int,
                Axis::Y => 1int,
                Axis::Z => 2int,
            };
            let k = 32 * a + 4 * indices + q;
            0 <= k < 96 && spec_table_entry(k) == (Rotation { axis, indices, clockwise: q as i8 })
        }),
{
}

/// Rotations of the same layers about the same axis whose quarter turns
/// differ by a multiple of four have the same matrix.
#[verifier::rlimit(40)]
pub proof fn lemma_of_modulo(a: Rotation, b: Rotation)
    requires
        a.axis == b.axis,
        a.indices == b.indices,
        a.clockwise % 4 == b.clockwise % 4,
    ensures
        spec_of(a) == spec_of(b),
{
    lemma_turn_seq_mod(
        a.axis,
        masked_turns(a.indices, -(a.clockwise as int)),
        masked_turns(b.indices, -(b.clockwise as int)),
    );
}

/// The place in the table of the matrix of `rot`.
pub open spec fn spec_table_place(rot: Rotation) -> int {
    32 * (match rot.axis {
        Axis::X => 0int,
        Axis::Y => 1int,
        Axis::Z => 2int,
    }) + 4 * rot.indices + rot.clockwise % 4
}

/// At the place of a rotation stands a rotation with the same matrix.
proof fn lemma_table_place(rot: Rotation)
    requires
        rot.wf(),
    ensures
        0 <= spec_table_place(rot) < 96,
        spec_of(spec_table_entry(spec_table_place(rot))) == spec_of(rot),
{
    let q = rot.clockwise as int % 4;
    lemma_table_entry(rot.axis, rot.indices, q);
    let entry = Rotation { axis: rot.axis, indices: rot.indices, clockwise: q as i8 };
    assert(spec_table_entry(spec_table_place(rot)) == entry);
    lemma_of_modulo(entry, rot);
}

/// The matrices of all rotations, made once and looked up afterwards.
pub struct Cache {
    memo: Vec<PermutationMatrix>,
}

impl Cache {
    /// The table holds the matrix of each rotation at the rotation's place.
    #[verifier::type_invariant]
    spec fn valid(self) -> bool {
        &&& self.memo@.len() == 96
        &&& forall|k: int|
            0 <= k < 96 ==> (#[trigger] self.memo@[k]).inv_perm@ == spec_of(spec_table_entry(k))
    }

    /// What the table holds for `rot`.
    pub closed spec fn spec_get(self, rot: Rotation) -> Seq<u8> {
        self.memo@[spec_table_place(rot)].inv_perm@
    }

    /// Makes the matrix of every rotation: the new table holds for each
    /// rotation the matrix of that rotation.
    pub fn new() -> (cache: Self)
        ensures
            forall|rot: Rotation| rot.wf() ==> #[trigger] cache.spec_get(rot) == spec_of(rot),
    {
        let mut memo: Vec<PermutationMatrix> = Vec::new();
        for k in 0..96usize
            invariant
                memo@.len() == k,
                forall|j: int|
                    0 <= j < k ==> (#[trigger] memo@[j]).inv_perm@ == spec_of(spec_table_entry(j)),
        {
            memo.push(of(table_entry(k)));
        }
        let cache = Cache { memo };
        proof {
            assert forall|rot: Rotation| rot.wf() implies #[trigger] cache.spec_get(rot)
                == spec_of(rot) by {
                lemma_table_place(rot);
            }
        }
        cache
    }

    /// Looks up the matrix of `rot`.
    #[verifier::rlimit(40)]
    pub fn get(&self, rot: Rotation) -> (m: PermutationMatrix)
        requires
            rot.wf(),
        ensures
            m.inv_perm@ == self.spec_get(rot),
            m.inv_perm@ == spec_of(rot),
            m.wf(),
    {
        let Rotation { axis, indices, clockwise } = rot;
        let a: usize = match axis {
            Axis::X => 0,
            Axis::Y => 1,
            Axis::Z => 2,
        };
        let q = ((clockwise % 4 + 4) % 4) as usize;
        let k = 32 * a + 4 * (indices as usize) + q;
        proof {
            use_type_invariant(self);
            assert(q == clockwise as int % 4);
            assert(k == spec_table_place(rot));
            lemma_table_place(rot);
            lemma_of_permutation(rot);
        }
        self.memo[k]
    }
}

/// The matrix of the rotation that `c` stands for.
pub open spec fn spec_matof(c: Command) -> Seq<u8> {
    spec_of(spec_rotation_of(c))
}

/// Get permutation from a `Command`.
pub fn matof(c: Command) -> (m: PermutationMatrix)
    requires
        rotation_fits(c),
    ensures
        m.inv_perm@ == spec_matof(c),
        m.wf(),
{
    let rot = rotation_of(c);
    of(rot)
}

/// The matrix of every rotation is a permutation.
pub proof fn lemma_of_permutation(rot: Rotation)
    ensures
        is_permutation(spec_of(rot)),
{
    lemma_turn_seq_permutation(rot.axis, masked_turns(rot.indices, -(rot.clockwise as int)));
}

/// Two rotations of the same layers about the same axis, one made after
/// the other, are the rotation by the sum of their quarter turns.
#[verifier::rlimit(40)]
pub proof fn lemma_of_compose(axis: Axis, indices: u8, first: i8, second: i8, sum: i8)
    requires
        (first + second - sum) % 4 == 0,
    ensures
        compose(
            spec_of(Rotation { axis, indices, clockwise: second }),
            spec_of(Rotation { axis, indices, clockwise: first }),
        ) == spec_of(Rotation { axis, indices, clockwise: sum }),
{
    let a = masked_turns(indices, -(second as int));
    let b = masked_turns(indices, -(first as int));
    lemma_turn_seq_compose(axis, a, b);
    lemma_turn_seq_mod(axis, a.plus(b), masked_turns(indices, -(sum as int)));
}

/// A rotation by a multiple of four quarter turns leaves the cube as it is.
pub proof fn lemma_of_full_turn(rot: Rotation)
    requires
        rot.clockwise % 4 == 0,
    ensures
        spec_of(rot) == identity_seq(),
{
    lemma_turn_seq_full(rot.axis, masked_turns(rot.indices, -(rot.clockwise as int)));
}

/// Layers that turn one after another about the same axis, by the same
/// quarter turns, are the layers of both turning together: so a wide move
/// is a face and the slice beside it, and a move of the whole cube is all
/// three layers.
pub proof fn lemma_of_layers(axis: Axis, first: u8, second: u8, clockwise: i8)
    requires
        first < 8,
        second < 8,
        first & second == 0,
    ensures
        first | second < 8,
        compose(
            spec_of(Rotation { axis, indices: second, clockwise }),
            spec_of(Rotation { axis, indices: first, clockwise }),
        ) == spec_of(Rotation { axis, indices: first | second, clockwise }),
{
    let both = first | second;
    assert(both < 8 && (both % 2 == 1 <==> first % 2 == 1 || second % 2 == 1) && ((both / 2) % 2
        == 1 <==> (first / 2) % 2 == 1 || (second / 2) % 2 == 1) && ((both / 4) % 2 == 1 <==> (
    first / 4) % 2 == 1 || (second / 4) % 2 == 1)) by (bit_vector)
        requires
            first < 8,
            second < 8,
            both == first | second,
    ;
    assert(!(first % 2 == 1 && second % 2 == 1) && !((first / 2) % 2 == 1 && (second / 2) % 2
        == 1) && !((first / 4) % 2 == 1 && (second / 4) % 2 == 1)) by (bit_vector)
        requires
            first < 8,
            second < 8,
            first & second == 0,
    ;
    let a = masked_turns(second, -(clockwise as int));
    let b = masked_turns(first, -(clockwise as int));
    lemma_turn_seq_compose(axis, a, b);
    assert(a.plus(b) == masked_turns(both, -(clockwise as int)));
}

/// A command made after the same command primed, or before it, leaves the
/// cube as it is.
pub proof fn lemma_prime_cancels(c: Command)
    requires
        c.1 > i8::MIN,
    ensures
        compose(spec_matof(c.spec_prime()), spec_matof(c)) == identity_seq(),
        compose(spec_matof(c), spec_matof(c.spec_prime())) == identity_seq(),
{
    let r = spec_rotation_of(c);
    let p = spec_rotation_of(c.spec_prime());
    lemma_of_compose(r.axis, r.indices, r.clockwise, p.clockwise, 0);
    lemma_of_compose(r.axis, r.indices, p.clockwise, r.clockwise, 0);
    lemma_of_full_turn(Rotation { axis: r.axis, indices: r.indices, clockwise: 0 });
}

/// Every move is undone by the same move made backwards.
pub proof fn lemma_inverse_cancellation(mov: Move)
    ensures
        compose(spec_matof(Command(mov, -1i8)), spec_matof(Command(mov, 1))) == identity_seq(),
{
    lemma_prime_cancels(Command(mov, 1));
}

/// Every move made four times leaves the cube as it is.
pub proof fn lemma_quarter_turn_closure(mov: Move)
    ensures
        ({
            let m = spec_matof(Command(mov, 1));
            compose(m, compose(m, compose(m, m))) == identity_seq()
        }),
{
    let r = spec_rotation_of(Command(mov, 1));
    let c = r.clockwise;
    lemma_of_compose(r.axis, r.indices, c, c, (2 * c) as i8);
    lemma_of_compose(r.axis, r.indices, (2 * c) as i8, c, (3 * c) as i8);
    lemma_of_compose(r.axis, r.indices, (3 * c) as i8, c, (4 * c) as i8);
    lemma_of_full_turn(Rotation { axis: r.axis, indices: r.indices, clockwise: (4 * c) as i8 });
}

/// The matrix of the cube after the commands of `cs` are made one after
/// another, the first one first, on a cube with the matrix `state`.
pub open spec fn spec_apply_all(cs: Seq<Command>, state: Seq<u8>) -> Seq<u8>
    decreases cs.len(),
{
    if cs.len() == 0 {
        state
    } else {
        compose(spec_matof(cs.last()), spec_apply_all(cs.drop_last(), state))
    }
}

/// A command made `times` times on a cube that was left as it is turns the
/// layers of the command that often.
pub proof fn lemma_apply_repeated(c: Command, times: nat)
    ensures
        spec_apply_all(repeated(seq![c], times), identity_seq()) == turn_seq(
            spec_rotation_of(c).axis,
            masked_turns(spec_rotation_of(c).indices, -(spec_rotation_of(c).clockwise * times)),
        ),
    decreases times,
{
    let rot = spec_rotation_of(c);
    let one = seq![c];
    if times == 0 {
        lemma_turn_seq_full(rot.axis, masked_turns(rot.indices, 0));
    } else {
        let before = (times - 1) as nat;
        let done = masked_turns(rot.indices, -(rot.clockwise * before));
        let step = masked_turns(rot.indices, -(rot.clockwise as int));
        lemma_apply_repeated(c, before);
        lemma_apply_all_concat(repeated(one, before), one, identity_seq());
        assert(spec_apply_all(one, turn_seq(rot.axis, done)) == compose(
            spec_matof(c),
            turn_seq(rot.axis, done),
        )) by {
            assert(one.drop_last() =~= Seq::<Command>::empty());
            reveal_with_fuel(spec_apply_all, 2);
        }
        lemma_turn_seq_compose(rot.axis, step, done);
        assert(step.plus(done) == masked_turns(rot.indices, -(rot.clockwise * times))) by {
            assert(rot.clockwise * times == rot.clockwise * before + rot.clockwise)
                by (nonlinear_arith)
                requires
                    times == before + 1,
            ;
        }
    }
}

/// Commands made on a cube give a cube.
pub proof fn lemma_apply_all_permutation(cs: Seq<Command>, state: Seq<u8>)
    requires
        is_permutation(state),
    ensures
        is_permutation(spec_apply_all(cs, state)),
    decreases cs.len(),
{
    if cs.len() > 0 {
        lemma_apply_all_permutation(cs.drop_last(), state);
        lemma_of_permutation(spec_rotation_of(cs.last()));
        math::lemma_compose_permutation(
            spec_matof(cs.last()),
            spec_apply_all(cs.drop_last(), state),
        );
    }
}

/// Making the commands of `a` and then those of `b` is making those of
/// `a + b`.
pub proof fn lemma_apply_all_concat(a: Seq<Command>, b: Seq<Command>, state: Seq<u8>)
    ensures
        spec_apply_all(a + b, state) == spec_apply_all(b, spec_apply_all(a, state)),
    decreases b.len(),
{
    if b.len() == 0 {
        assert(a + b =~= a);
    } else {
        assert((a + b).drop_last() =~= a + b.drop_last());
        assert((a + b).last() == b.last());
        lemma_apply_all_concat(a, b.drop_last(), state);
    }
}

/// Commands made one after another, and then made again in reverse order,
/// each one primed, leave the cube as it was.
pub proof fn lemma_reverse_primed_undoes(cs: Seq<Command>, state: Seq<u8>)
    requires
        is_permutation(state),
        forall|k: int| 0 <= k < cs.len() ==> (#[trigger] cs[k]).1 > i8::MIN,
    ensures
        spec_apply_all(reverse_primed(cs), spec_apply_all(cs, state)) == state,
    decreases cs.len(),
{
    let back = reverse_primed(cs);
    if cs.len() == 0 {
        assert(back =~= Seq::<Command>::empty());
    } else {
        let c = cs.last();
        let init = cs.drop_last();
        let middle = spec_apply_all(init, state);
        let after = spec_apply_all(cs, state);
        assert(back =~= seq![c.spec_prime()] + reverse_primed(init));
        lemma_apply_all_concat(seq![c.spec_prime()], reverse_primed(init), after);
        assert(spec_apply_all(seq![c.spec_prime()], after) == middle) by {
            let one = seq![c.spec_prime()];
            assert(one.drop_last() =~= Seq::<Command>::empty());
            reveal_with_fuel(spec_apply_all, 2);
            assert(spec_apply_all(one, after) == compose(spec_matof(c.spec_prime()), after));
            lemma_apply_all_permutation(init, state);
            lemma_of_permutation(spec_rotation_of(c.spec_prime()));
            math::lemma_compose_associative(spec_matof(c.spec_prime()), spec_matof(c), middle);
            lemma_prime_cancels(c);
            lemma_compose_identity(middle);
        }
        lemma_reverse_primed_undoes(init, state);
    }
}

} // verus!
