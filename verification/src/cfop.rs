//! Collection of CFOP related tools.

use crate::coord::spec_rotation_of;
use crate::geometry::{facelet_position, masked_turns, turn_layers};
use crate::matrix::math::identity_seq;
use crate::matrix::{
    lemma_apply_repeated, lemma_turn_seq_full, lemma_turn_seq_index, same_color_check,
    spec_apply_all, spec_color_at, spec_same_color, turn_seq, PermutationMatrix,
};
use crate::{repeated, Command, Move};
use vstd::prelude::*;

verus! {

/// The facelets of the right face.
pub const R: [u8; 9] = [0, 1, 2, 3, 4, 5, 6, 7, 8];

/// The facelets of the left face.
pub const L: [u8; 9] = [9, 10, 11, 12, 13, 14, 15, 16, 17];

/// The facelets of the upper face.
pub const U: [u8; 9] = [18, 19, 20, 21, 22, 23, 24, 25, 26];

/// The facelets of the lower face.
pub const D: [u8; 9] = [27, 28, 29, 30, 31, 32, 33, 34, 35];

/// The facelets of the front face.
pub const F: [u8; 9] = [36, 37, 38, 39, 40, 41, 42, 43, 44];

/// The facelets of the back face.
pub const B: [u8; 9] = [45, 46, 47, 48, 49, 50, 51, 52, 53];

/// The facelets of the right face that lie in the lower two layers.
pub const R2: [u8; 6] = [0, 1, 3, 4, 6, 7];

/// The facelets of the left face that lie in the lower two layers.
pub const L2: [u8; 6] = [12, 13, 14, 15, 16, 17];

/// The facelets of the front face that lie in the lower two layers.
pub const F2: [u8; 6] = [39, 40, 41, 42, 43, 44];

/// The facelets of the back face that lie in the lower two layers.
pub const B2: [u8; 6] = [45, 46, 48, 49, 51, 52];

/// Whether each face of the cube shows a single colour.
pub open spec fn spec_solved(inv_perm: Seq<u8>) -> bool {
    &&& spec_same_color(inv_perm, U@)
    &&& spec_same_color(inv_perm, D@)
    &&& spec_same_color(inv_perm, F@)
    &&& spec_same_color(inv_perm, B@)
    &&& spec_same_color(inv_perm, R@)
    &&& spec_same_color(inv_perm, L@)
}

/// Whether the lower face shows a single colour, and so does each side
/// face on its lower two layers.
pub open spec fn spec_f2l_solved(inv_perm: Seq<u8>) -> bool {
    &&& spec_same_color(inv_perm, D@)
    &&& spec_same_color(inv_perm, F2@)
    &&& spec_same_color(inv_perm, B2@)
    &&& spec_same_color(inv_perm, R2@)
    &&& spec_same_color(inv_perm, L2@)
}

/// Whether the first two layers are solved and the upper face shows a
/// single colour.
pub open spec fn spec_oll_solved(inv_perm: Seq<u8>) -> bool {
    spec_same_color(inv_perm, U@) && spec_f2l_solved(inv_perm)
}

/// Check if the cube is solved.
pub fn solved(mat: &PermutationMatrix) -> (b: bool)
    requires
        mat.wf(),
    ensures
        b == spec_solved(mat.inv_perm@),
{
    same_color_check(mat, U) && same_color_check(mat, D) && same_color_check(mat, F)
        && same_color_check(mat, B) && same_color_check(mat, R) && same_color_check(mat, L)
}

/// Check if the F2L is solved.
pub fn f2l_solved(mat: &PermutationMatrix) -> (b: bool)
    requires
        mat.wf(),
    ensures
        b == spec_f2l_solved(mat.inv_perm@),
{
    same_color_check(mat, D) && same_color_check(mat, F2) && same_color_check(mat, B2)
        && same_color_check(mat, R2) && same_color_check(mat, L2)
}

/// Check if the OLL is solved.
pub fn oll_solved(mat: &PermutationMatrix) -> (b: bool)
    requires
        mat.wf(),
    ensures
        b == spec_oll_solved(mat.inv_perm@),
{
    same_color_check(mat, U) && f2l_solved(mat)
}

/// Whether facelet `k` lies in one of the lower two layers.
pub open spec fn in_lower_layers(k: int) -> bool {
    facelet_position(k).1 <= 0
}

/// The cube is solved where any two facelets of one surface show the same
/// colour.
pub proof fn lemma_solved_surfaces(inv_perm: Seq<u8>)
    ensures
        spec_solved(inv_perm) <==> forall|a: int, b: int|
            0 <= a < 54 && 0 <= b < 54 && a / 9 == b / 9 ==> #[trigger] spec_color_at(inv_perm, a)
                == #[trigger] spec_color_at(inv_perm, b),
{
    reveal(spec_same_color);
    let uniform = forall|a: int, b: int|
        0 <= a < 54 && 0 <= b < 54 && a / 9 == b / 9 ==> #[trigger] spec_color_at(inv_perm, a)
            == #[trigger] spec_color_at(inv_perm, b);
    if spec_solved(inv_perm) {
        assert forall|a: int, b: int| 0 <= a < 54 && 0 <= b < 54 && a / 9 == b / 9 implies #[trigger] spec_color_at(
            inv_perm,
            a,
        ) == #[trigger] spec_color_at(inv_perm, b) by {
            lemma_same_as_first(inv_perm, a);
            lemma_same_as_first(inv_perm, b);
        }
    }
    if uniform {
        assert forall|i: int| 0 <= i < 9 implies spec_color_at(inv_perm, #[trigger] R@[i] as int)
            == spec_color_at(inv_perm, R@[0] as int) by {}
        assert forall|i: int| 0 <= i < 9 implies spec_color_at(inv_perm, #[trigger] L@[i] as int)
            == spec_color_at(inv_perm, L@[0] as int) by {}
        assert forall|i: int| 0 <= i < 9 implies spec_color_at(inv_perm, #[trigger] U@[i] as int)
            == spec_color_at(inv_perm, U@[0] as int) by {}
        assert forall|i: int| 0 <= i < 9 implies spec_color_at(inv_perm, #[trigger] D@[i] as int)
            == spec_color_at(inv_perm, D@[0] as int) by {}
        assert forall|i: int| 0 <= i < 9 implies spec_color_at(inv_perm, #[trigger] F@[i] as int)
            == spec_color_at(inv_perm, F@[0] as int) by {}
        assert forall|i: int| 0 <= i < 9 implies spec_color_at(inv_perm, #[trigger] B@[i] as int)
            == spec_color_at(inv_perm, B@[0] as int) by {}
    }
}

/// On a solved cube every facelet shows the colour of the first facelet of
/// its surface.
proof fn lemma_same_as_first(inv_perm: Seq<u8>, a: int)
    requires
        spec_solved(inv_perm),
        0 <= a < 54,
    ensures
        spec_color_at(inv_perm, a) == spec_color_at(inv_perm, 9 * (a / 9)),
{
    reveal(spec_same_color);
    let i = a % 9;
    if a / 9 == 0 {
        assert(R@[i] == a && R@[0] == 0);
    } else if a / 9 == 1 {
        assert(L@[i] == a && L@[0] == 9);
    } else if a / 9 == 2 {
        assert(U@[i] == a && U@[0] == 18);
    } else if a / 9 == 3 {
        assert(D@[i] == a && D@[0] == 27);
    } else if a / 9 == 4 {
        assert(F@[i] == a && F@[0] == 36);
    } else {
        assert(B@[i] == a && B@[0] == 45);
    }
}

/// The facelets that the first two layers ask about are those of the lower
/// two layers: all of the lower face, none of the upper face, and six of
/// each other face.
pub proof fn lemma_lower_layers(k: int)
    requires
        0 <= k < 54,
    ensures
        in_lower_layers(k) <==> D@.contains(k as u8) || F2@.contains(k as u8) || B2@.contains(
            k as u8,
        ) || R2@.contains(k as u8) || L2@.contains(k as u8),
{
    let v = k as u8;
    if in_lower_layers(k) {
        if k / 9 == 0 {
            let i = 2 * ((k % 9) / 3) + k % 3;
            assert(R2@[i] == v);
        } else if k / 9 == 1 {
            assert(L2@[k - 12] == v);
        } else if k / 9 == 3 {
            assert(D@[k - 27] == v);
        } else if k / 9 == 4 {
            assert(F2@[k - 39] == v);
        } else {
            let i = 2 * ((k % 9) / 3) + k % 3;
            assert(B2@[i] == v);
        }
    }
    if D@.contains(v) {
        let i = choose|i: int| 0 <= i < D@.len() && D@[i] == v;
        assert(D@[i] == v);
    }
    if F2@.contains(v) {
        let i = choose|i: int| 0 <= i < F2@.len() && F2@[i] == v;
        assert(F2@[i] == v);
    }
    if B2@.contains(v) {
        let i = choose|i: int| 0 <= i < B2@.len() && B2@[i] == v;
        assert(B2@[i] == v);
    }
    if R2@.contains(v) {
        let i = choose|i: int| 0 <= i < R2@.len() && R2@[i] == v;
        assert(R2@[i] == v);
    }
    if L2@.contains(v) {
        let i = choose|i: int| 0 <= i < L2@.len() && L2@[i] == v;
        assert(L2@[i] == v);
    }
}

/// Whether `mov` is a quarter turn of one of the six faces.
pub open spec fn is_face_move(mov: Move) -> bool {
    mov == Move::R || mov == Move::L || mov == Move::U || mov == Move::D || mov == Move::F || mov
        == Move::B
}

/// The matrix of a cube on which `mov` was made `times` times.
pub open spec fn spec_turned(mov: Move, times: nat) -> Seq<u8> {
    spec_apply_all(repeated(seq![Command(mov, 1)], times), identity_seq())
}

/// The cube is solved before a quarter turn of a face is made, it is not
/// solved after the turn was made once, twice or three times, and it is
/// solved again after the fourth time.
pub proof fn lemma_solved_by_fourth_turn(mov: Move)
    requires
        is_face_move(mov),
    ensures
        spec_solved(spec_turned(mov, 0)),
        !spec_solved(spec_turned(mov, 1)),
        !spec_solved(spec_turned(mov, 2)),
        !spec_solved(spec_turned(mov, 3)),
        spec_solved(spec_turned(mov, 4)),
{
    let c = Command(mov, 1);
    let rot = spec_rotation_of(c);
    lemma_apply_repeated(c, 0);
    lemma_apply_repeated(c, 4);
    lemma_turn_seq_full(rot.axis, masked_turns(rot.indices, -(rot.clockwise * 0)));
    lemma_turn_seq_full(rot.axis, masked_turns(rot.indices, -(rot.clockwise * 4)));
    lemma_identity_solved();
    lemma_turned_face_unsolved(mov, 1);
    lemma_turned_face_unsolved(mov, 2);
    lemma_turned_face_unsolved(mov, 3);
}

/// A cube that was left as it is is solved.
pub proof fn lemma_identity_solved()
    ensures
        spec_solved(identity_seq()),
{
    reveal(spec_same_color);
}

/// A cube on which a face was turned once, twice or three times is not
/// solved.
#[verifier::rlimit(40)]
proof fn lemma_turned_face_unsolved(mov: Move, times: nat)
    requires
        is_face_move(mov),
        1 <= times <= 3,
    ensures
        !spec_solved(spec_turned(mov, times)),
{
    let c = Command(mov, 1);
    let rot = spec_rotation_of(c);
    let turns = masked_turns(rot.indices, -(rot.clockwise * times));
    let t = turn_seq(rot.axis, turns);
    lemma_apply_repeated(c, times);
    lemma_turn_seq_index(rot.axis, turns);
    let side = match mov {
        Move::R => U,
        Move::L => D,
        Move::U => F,
        Move::D => R,
        Move::F => R,
        _ => U,
    };
    let corner = side[0] as int;
    let center = side[4] as int;
    assert(-(rot.clockwise * times) == (if rot.clockwise == 1 { -times } else { times as int }))
        by (nonlinear_arith)
        requires
            rot.clockwise == 1 || rot.clockwise == -1,
    ;
    assert(t[center] == center);
    assert(t[corner] == turn_layers(rot.axis, turns, corner));
    assert(t[corner] as int / 9 != center / 9);
    assert(spec_color_at(t, center) != spec_color_at(t, corner));
    assert(!spec_same_color(t, side@)) by {
        reveal(spec_same_color);
    }
}

/// The list of F2L solutions. The problem numbers are from Tribox.
pub const F2L_LIST: [&'static str; 41] = [
    "URU'R'",
    "yU'L'UL",
    "yL'U'L",
    "RUR'",
    "U'RUR'U2RU'R'",
    "yUL'U'LU2'L'UL",
    "U'RU2R'U2RU'R'",
    "yUL'U2LU2'L'UL",
    "yUL'U'LU'L'U'L",
    "U'RUR'URUR'",
    "U'RU2'R'Uy'R'U'R",
    "yUL'U2LU'yLUL'",
    "yUL'ULU'L'U'L",
    "U'RU'RURUR'",
    "yL'ULU2yLUL'",
    "RU'R'U2y'R'U'R",
    "RU2'R'U'RUR'",
    "yL'U2LUL'U'L",
    "URU2'R'URU'R'",
    "yU'L'U2LU'L'UL",
    "U2RUR'URU'R'",
    "yL'ULU2'L'U'L",
    "URU'RU'RU'R'URU'R'",
    "yU'L'ULUL'ULU'L'UL",
    "yU'L'ULUy'RU'R'",
    "URU'R'U'yL'UL",
    "RU'R'URU'R'",
    "yL'ULU'L'UL",
    "R'FRF'URU'R",
    "RUR'U'RUR'",
    "U'R'FRF'RU'R'",
    "RUR'U'RUR'U'RUR'",
    "U'RU'R'U2RU'R'",
    "yUL'ULU2'L'UL",
    "U'RUR'Uy'R'U'R",
    "yUL'U'LU'yLUL'",
    "RU2'R'URU2'R'Uy'R'U'R",
    "RU'R'U'RUR'U2RU'R'",
    "RU'R'URU2'R'URU'R'",
    "RU'R'U'RU'R'Uy'R'U'R",
    "yL'ULUL'ULU'yLUL'",
];

/// The PLL solutions, each with the name of its case.
pub const PLL_LIST: [(&'static str, &'static str); 21] = [
    ("Ub", "(R2'U)(RUR')(U'R'U')(R'UR')"),
    ("Ua", "(RU'R)(URUR)(U'R'U'R2')"),
    ("Ab", "xR2'(D2RUR')(D2RU'R)x'"),
    ("Aa", "x(R'UR'D2)(RU'R'D2)R2x'"),
    ("Z", "(M2UM2U)M'(U2M2U2)M'"),
    ("H", "M2UM2U2M2UM2"),
    ("E", "x'(RU'R'D)(RUR'D')(RUR'D)(RU'R'D')x"),
    ("T", "(RUR'U')(R'FR2U'R'U')(RUR'F')"),
    ("V", "(R'UR'd')(R'F'R2U')(R'UR')(FRF)"),
    ("F", "(R'U'F')(RUR'U')(R'FR2U'R'U')(RUR'UR)"),
    ("Rb", "(R'U2RU2)(R'FRUR'U')(R'F'R2'U')"),
    ("Ra", "(RU'R'U')(RURD)(R'U'RD')(R'U2R')"),
    ("Jb", "(RUR'F')(RUR'U')(R'FR2U'R'U')"),
    ("Ja", "(UR'U)(L'U2RU'R'U2)RL"),
    ("Y", "(FRU'R'U')(RUR'F')(RUR'U')(R'FRF')"),
    ("Gd", "D'(RUR')U'D(R2U'RU')(R'UR'UR2)"),
    ("Gc", "(R2U'RU')(RUR'UR2)UD'(RU'R'D)"),
    ("Ga", "R2u(R'UR'U'R)u'R2y'(R'UR)"),
    ("Gb", "(R'U'R)yR2u(R'URU'R)u'R2"),
    ("Nb", "(R'URU')(R'F'U')(FRUR'F)(R'F'RU'R)"),
    ("Na", "(RUR'U)(RUR'F')(RUR'U')(R'FR2U'R'U2'RU'R')"),
];

/// The OLL solutions.
pub const OLL_LIST: [&'static str; 57] = [
    "RU2R2FRF'U2R'FRF'",
    "rUr'U2rU2R'U2RU'r'",
    "r'R2UR'UrU2r'UM'",
    "MU'rU2r'U'RU'R'M'",
    "l'U2LUL'Ul",
    "rU2R'U'RU'r'",
    "rUR'URU2r'",
    "l'U'LU'L'U2l",
    "RUR'U'R'FR2UR'U'F'",
    "RUR'UR'FRF'RU2R'",
    "rUR'UR'FRF'RU2r'",
    "M'R'U'RU'R'U2RU'Rr'",
    "FURU'R2F'RURU'R'",
    "R'FRUR'F'RFU'F'",
    "l'U'lL'U'LUl'Ul",
    "rUr'RUR'U'rU'r'",
    "FR'F'R2r'URU'R'U'M'",
    "rUR'URU2r2U'RU'R'U2r",
    "r'RURUR'U'M'R'FRF'",
    "rUR'U'M2URU'R'U'M'",
    "yRU2R'U'RUR'U'RU'R'",
    "RU2R2U'R2U'R2U2R",
    "R2DR'U2RD'R'U2R'",
    "rUR'U'r'FRF'",
    "yF'rUR'U'r'FR",
    "yRU2R'U'RU'R'",
    "RUR'URU2R'",
    "rUR'U'MURU'R'",
    "MURUR'U'R'FRF'M'",
    "y2FURU2R'U'RU2R'U'F'",
    "R'U'FURU'R'F'R",
    "SRUR'U'R'FRf'",
    "RUR'U'R'FRF'",
    "y2RUR2U'R'FRURU'F'",
    "RU2R2FRF'RU2R'",
    "y2L'U'LU'L'ULULF'L'F",
    "FRU'R'U'RUR'F'",
    "RUR'URU'R'U'R'FRF'",
    "yLF'L'U'LUFU'L'",
    "yR'FRUR'U'F'UR",
    "y2RUR'URU2R'FRUR'U'F'",
    "R'U'RU'R'U2RFRUR'U'F'",
    "f'L'U'LUf",
    "fRUR'U'f'",
    "FRUR'U'F'",
    "R'U'R'FRF'UR",
    "F'L'U'LUL'U'LUF",
    "FRUR'U'RUR'U'F'",
    "y2rU'r2Ur2Ur2U'r",
    "r'Ur2U'r2U'r2Ur'",
    "fRUR'U'RUR'U'f'",
    "RUR'URd'RU'R'F'",
    "r'U'RU'R'URU'R'U2r",
    "rUR'URU'R'URU2r'",
    "RU2R2U'RU'R'U2FRF'",
    "rUr'URU'R'URU'R'rU'r'",
    "RUR'U'M'URU'r'",
];

} // verus!
