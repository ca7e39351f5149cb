//! The state of a 3x3x3 cube as a permutation of its 54 facelets, the moves
//! of cube notation as permutation matrices, and a parser for the notation.

pub mod cfop;
pub mod component;
pub mod coord;
pub mod geometry;
pub mod matrix;
pub mod parser;
pub mod trainer;

use rand::Rng;
use vstd::prelude::*;

verus! {

/// One of the eighteen named turns of the cube.
#[allow(non_camel_case_types)]
#[derive(PartialEq, Eq, Structural, Hash, Clone, Copy, Debug)]
pub enum Move {
    R,
    L,
    F,
    B,
    U,
    D,
    r,
    l,
    f,
    b,
    u,
    d,
    M,
    E,
    S,
    x,
    y,
    z,
}

/// The eighteen moves.
pub const MOVE_LIST: [Move; 18] = [
    Move::R,
    Move::L,
    Move::U,
    Move::D,
    Move::F,
    Move::B,
    Move::r,
    Move::l,
    Move::u,
    Move::d,
    Move::f,
    Move::b,
    Move::M,
    Move::E,
    Move::S,
    Move::x,
    Move::y,
    Move::z,
];

/// Representation of Cube Notation.
///
/// Example:
/// - R2 is represented as a pair of rotation and repetition (R,2).
/// - R' is represented as (R,-1).
///
/// The notation has the repetitions -2, -1, 1 and 2 only.
#[derive(Clone, Copy, Debug, PartialEq, Eq, Structural)]
pub struct Command(pub Move, pub i8);

impl Command {
    /// Whether the repetition is one that the notation can express.
    pub open spec fn valid(self) -> bool {
        self.1 == 1 || self.1 == 2 || self.1 == -1 || self.1 == -2
    }

    /// The command that undoes `self`: the same move, repeated the other
    /// way round.
    pub open spec fn spec_prime(self) -> Command {
        Command(self.0, (-self.1) as i8)
    }

    /// The command that undoes `self`.
    pub fn prime(self) -> (r: Self)
        requires
            self.1 > i8::MIN,
        ensures
            r == self.spec_prime(),
            r.0 == self.0,
            r.1 == -self.1,
    {
        Command(self.0, -self.1)
    }
}

/// One element of a move sequence: a single command, or commands in
/// parentheses with a repetition of the whole.
#[derive(Debug, PartialEq, Eq)]
pub enum Elem {
    One(Command),
    Group(Vec<Command>, i8),
}

/// What an `Elem` holds, as plain values.
pub enum ElemView {
    One(Command),
    Group(Seq<Command>, i8),
}

impl View for Elem {
    type V = ElemView;

    open spec fn view(&self) -> ElemView {
        match self {
            Elem::One(c) => ElemView::One(*c),
            Elem::Group(cs, rep) => ElemView::Group(cs@, *rep),
        }
    }
}

/// The views of the elements of `elems`.
pub open spec fn elems_view(elems: Seq<Elem>) -> Seq<ElemView> {
    elems.map_values(|e: Elem| e@)
}

/// The commands of `cs` in reverse order, each one primed.
pub open spec fn reverse_primed(cs: Seq<Command>) -> Seq<Command> {
    Seq::new(cs.len(), |i: int| cs[cs.len() - 1 - i].spec_prime())
}

/// `cs` written `n` times in a row.
pub open spec fn repeated(cs: Seq<Command>, n: nat) -> Seq<Command>
    decreases n,
{
    if n == 0 {
        Seq::empty()
    } else {
        repeated(cs, (n - 1) as nat) + cs
    }
}

/// The commands that one element stands for.
pub open spec fn spec_flatten_elem(e: ElemView) -> Seq<Command> {
    match e {
        ElemView::One(c) => seq![c],
        ElemView::Group(cs, rep) => if rep > 0 {
            repeated(cs, rep as nat)
        } else {
            repeated(reverse_primed(cs), (-rep) as nat)
        },
    }
}

/// The commands that a sequence of elements stands for.
pub open spec fn spec_flatten(elems: Seq<ElemView>) -> Seq<Command>
    decreases elems.len(),
{
    if elems.len() == 0 {
        Seq::empty()
    } else {
        spec_flatten(elems.drop_last()) + spec_flatten_elem(elems.last())
    }
}

/// Whether the repetitions in `e` can be negated where flattening negates
/// them.
pub open spec fn flattenable(e: ElemView) -> bool {
    match e {
        ElemView::One(_) => true,
        ElemView::Group(cs, rep) => rep < 0 ==> rep > i8::MIN && forall|k: int|
            0 <= k < cs.len() ==> (#[trigger] cs[k]).1 > i8::MIN,
    }
}

/// Turn a move sequence into a sequence without parentheses.
pub fn flatten(elems: Vec<Elem>) -> (v: Vec<Command>)
    requires
        forall|k: int| 0 <= k < elems@.len() ==> flattenable(#[trigger] elems@[k]@),
    ensures
        v@ == spec_flatten(elems_view(elems@)),
{
    let mut v: Vec<Command> = Vec::new();
    for n in 0..elems.len()
        invariant
            forall|k: int| 0 <= k < elems@.len() ==> flattenable(#[trigger] elems@[k]@),
            v@ == spec_flatten(elems_view(elems@).take(n as int)),
    {
        let ghost before = v@;
        proof {
            let views = elems_view(elems@);
            assert(views.take(n + 1).drop_last() =~= views.take(n as int));
            assert(views.take(n + 1).last() == elems@[n as int]@);
        }
        match &elems[n] {
            Elem::One(c) => {
                v.push(*c);
                proof {
                    assert(v@ =~= before + seq![*c]);
                }
            },
            Elem::Group(cs, rep) => {
                assert(elems@[n as int]@ == ElemView::Group(cs@, *rep));
                if *rep > 0 {
                    for t in 0..*rep
                        invariant
                            0 <= t,
                            v@ == before + repeated(cs@, t as nat),
                    {
                        let ghost round = v@;
                        for i in 0..cs.len()
                            invariant
                                v@ == round + cs@.take(i as int),
                        {
                            v.push(cs[i]);
                            proof {
                                assert(cs@.take(i + 1) =~= cs@.take(i as int).push(cs@[i as int]));
                            }
                        }
                        proof {
                            assert(cs@.take(cs@.len() as int) =~= cs@);
                            assert(v@ =~= before + repeated(cs@, (t + 1) as nat));
                        }
                    }
                } else {
                    let rep: i8 = -*rep;
                    let ghost rev = reverse_primed(cs@);
                    for t in 0..rep
                        invariant
                            0 <= t,
                            rev == reverse_primed(cs@),
                            rep > 0 ==> forall|k: int|
                                0 <= k < cs@.len() ==> (#[trigger] cs@[k]).1 > i8::MIN,
                            v@ == before + repeated(rev, t as nat),
                    {
                        let ghost round = v@;
                        let len = cs.len();
                        for i in 0..len
                            invariant
                                len == cs@.len(),
                                rev == reverse_primed(cs@),
                                forall|k: int|
                                    0 <= k < cs@.len() ==> (#[trigger] cs@[k]).1 > i8::MIN,
                                v@ == round + rev.take(i as int),
                        {
                            v.push(cs[len - 1 - i].prime());
                            proof {
                                assert(rev.take(i + 1) =~= rev.take(i as int).push(rev[i as int]));
                            }
                        }
                        proof {
                            assert(rev.take(rev.len() as int) =~= rev);
                            assert(v@ =~= before + repeated(rev, (t + 1) as nat));
                        }
                    }
                }
            },
        }
    }
    proof {
        let views = elems_view(elems@);
        assert(views.take(elems@.len() as int) =~= views);
    }
    v
}

/// A group that is repeated once backwards stands for its commands in
/// reverse order, each one primed.
pub proof fn lemma_flatten_inverted_group(cs: Seq<Command>)
    ensures
        spec_flatten(seq![ElemView::Group(cs, -1i8)]) == reverse_primed(cs),
{
    let elems = seq![ElemView::Group(cs, -1i8)];
    let rev = reverse_primed(cs);
    reveal_with_fuel(spec_flatten, 2);
    reveal_with_fuel(repeated, 2);
    assert(elems.drop_last() =~= Seq::<ElemView>::empty());
    assert(repeated(rev, 1) =~= rev);
    assert(spec_flatten(elems) =~= rev);
}

/// The command that two random draws stand for. The first picks the move
/// out of `MOVE_LIST`. The remainder of the second by four picks the
/// repetition: a double turn where it is odd, a single turn where it is
/// even, and the turn goes backwards where it is two or three.
pub open spec fn spec_command_of_draws(mov: usize, ran: i64) -> Command {
    let low = ran as int % 4;
    let rep: i8 = if low % 2 == 1 { 2 } else { 1 };
    Command(MOVE_LIST[mov as int % 18], if low >= 2 { (-rep) as i8 } else { rep })
}

/// The command of a scramble that two random draws stand for.
pub fn command_of_draws(mov: usize, ran: i64) -> (c: Command)
    ensures
        c == spec_command_of_draws(mov, ran),
        c.valid(),
{
    let mov = MOVE_LIST[mov % 18];
    let low = (ran % 4 + 4) % 4;
    let rep: i8 = if low % 2 == 1 { 2 } else { 1 };
    Command(mov, if low >= 2 { -rep } else { rep })
}

/// Draws a number from `rand::thread_rng` with `Rng::gen`. Nothing is
/// claimed of the number: every `usize` may come back.
#[verifier::external_body]
pub(crate) fn draw_usize() -> usize {
    rand::thread_rng().gen()
}

/// Draws a number from `rand::thread_rng` with `Rng::gen`. Nothing is
/// claimed of the number: every `i64` may come back.
#[verifier::external_body]
fn draw_i64() -> i64 {
    rand::thread_rng().gen()
}

/// Generate a scramble sequence: `n` commands, each with a move drawn from
/// all eighteen and a repetition drawn from -2, -1, 1 and 2.
pub fn random(n: usize) -> (v: Vec<Command>)
    ensures
        v@.len() == n,
        forall|k: int| 0 <= k < n ==> (#[trigger] v@[k]).valid(),
{
    let mut v: Vec<Command> = Vec::new();
    for i in 0..n
        invariant
            v@.len() == i,
            forall|k: int| 0 <= k < i ==> (#[trigger] v@[k]).valid(),
    {
        let mov = draw_usize();
        let ran = draw_i64();
        v.push(command_of_draws(mov, ran));
    }
    v
}

} // verus!
