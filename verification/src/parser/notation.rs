//! The notation of a move sequence, written out, and the proof that
//! parsing undoes writing and writing undoes parsing.

use super::{
    holds_at, lemma_parse_elem_advances, spec_move_of, spec_parse, spec_parse_command,
    spec_parse_commands, spec_parse_elem, spec_parse_elems, spec_parse_rep,
};
use crate::{Command, ElemView, Move};
use vstd::prelude::*;

verus! {

/// The letter that names `mov`.
pub open spec fn spec_letter_of(mov: Move) -> char {
    match mov {
        Move::R => 'R',
        Move::L => 'L',
        Move::U => 'U',
        Move::D => 'D',
        Move::F => 'F',
        Move::B => 'B',
        Move::r => 'r',
        Move::l => 'l',
        Move::u => 'u',
        Move::d => 'd',
        Move::f => 'f',
        Move::b => 'b',
        Move::M => 'M',
        Move::E => 'E',
        Move::S => 'S',
        Move::x => 'x',
        Move::y => 'y',
        Move::z => 'z',
    }
}

/// Whether `rep` is a repetition that the notation can express.
pub open spec fn valid_rep(rep: i8) -> bool {
    rep == 1 || rep == 2 || rep == -1 || rep == -2
}

/// The suffix that stands for the repetition `rep`.
pub open spec fn rep_notation(rep: i8) -> Seq<char> {
    if rep == 1 {
        seq![]
    } else if rep == 2 {
        seq!['2']
    } else if rep == -1 {
        seq!['\'']
    } else {
        seq!['2', '\'']
    }
}

/// The notation of one command: its letter and its repetition.
pub open spec fn command_notation(c: Command) -> Seq<char> {
    seq![spec_letter_of(c.0)] + rep_notation(c.1)
}

/// The notation of commands that follow one another.
pub open spec fn commands_notation(cs: Seq<Command>) -> Seq<char>
    decreases cs.len(),
{
    if cs.len() == 0 {
        seq![]
    } else {
        command_notation(cs[0]) + commands_notation(cs.drop_first())
    }
}

/// The notation of one element.
pub open spec fn elem_notation(e: ElemView) -> Seq<char> {
    match e {
        ElemView::One(c) => command_notation(c),
        ElemView::Group(cs, rep) => seq!['('] + commands_notation(cs) + seq![')'] + rep_notation(
            rep,
        ),
    }
}

/// The notation of a move sequence.
pub open spec fn notation(elems: Seq<ElemView>) -> Seq<char>
    decreases elems.len(),
{
    if elems.len() == 0 {
        seq![]
    } else {
        elem_notation(elems[0]) + notation(elems.drop_first())
    }
}

/// Whether every command of `cs` has a repetition that the notation can
/// express.
pub open spec fn commands_valid(cs: Seq<Command>) -> bool {
    forall|k: int| 0 <= k < cs.len() ==> (#[trigger] cs[k]).valid()
}

/// Whether `e` can be written in the notation: its repetitions can be
/// expressed, and a group holds a command.
pub open spec fn elem_valid(e: ElemView) -> bool {
    match e {
        ElemView::One(c) => c.valid(),
        ElemView::Group(cs, rep) => cs.len() > 0 && valid_rep(rep) && commands_valid(cs),
    }
}

/// Whether every element of `elems` can be written in the notation.
pub open spec fn elems_valid(elems: Seq<ElemView>) -> bool {
    forall|k: int| 0 <= k < elems.len() ==> elem_valid(#[trigger] elems[k])
}

/// Whether `t` stands in `s` from position `pos` on.
pub open spec fn written_at(s: Seq<char>, pos: int, t: Seq<char>) -> bool {
    0 <= pos && pos + t.len() <= s.len() && s.subrange(pos, pos + t.len()) == t
}

/// Whether a repetition that is written before `pos` ends there: no `2`
/// and no `'` follows.
pub open spec fn rep_ends_at(s: Seq<char>, pos: int) -> bool {
    !holds_at(s, pos, '2') && !holds_at(s, pos, '\'')
}

/// A text that is written at a position has its characters there.
proof fn lemma_written_at_index(s: Seq<char>, pos: int, t: Seq<char>, k: int)
    requires
        written_at(s, pos, t),
        0 <= k < t.len(),
    ensures
        s[pos + k] == t[k],
{
    assert(s.subrange(pos, pos + t.len())[k] == t[k]);
}

/// One text after another is written at a position where the first one is
/// written and the second one follows it.
proof fn lemma_written_at_concat(s: Seq<char>, pos: int, a: Seq<char>, b: Seq<char>)
    requires
        0 <= pos,
    ensures
        written_at(s, pos, a + b) <==> written_at(s, pos, a) && written_at(s, pos + a.len(), b),
{
    if written_at(s, pos, a + b) {
        assert(s.subrange(pos, pos + a.len()) =~= (a + b).subrange(0, a.len() as int)) by {
            assert forall|k: int| 0 <= k < a.len() implies s[pos + k] == (a + b)[k] by {
                lemma_written_at_index(s, pos, a + b, k);
            }
        }
        assert((a + b).subrange(0, a.len() as int) =~= a);
        assert(s.subrange(pos + a.len(), pos + a.len() + b.len()) =~= b) by {
            assert forall|k: int| 0 <= k < b.len() implies s[pos + a.len() + k] == b[k] by {
                lemma_written_at_index(s, pos, a + b, a.len() + k);
            }
        }
    }
    if written_at(s, pos, a) && written_at(s, pos + a.len(), b) {
        assert(s.subrange(pos, pos + (a + b).len()) =~= a + b) by {
            assert forall|k: int| 0 <= k < (a + b).len() implies s[pos + k] == (a + b)[k] by {
                if k < a.len() {
                    lemma_written_at_index(s, pos, a, k);
                } else {
                    lemma_written_at_index(s, pos + a.len(), b, k - a.len());
                }
            }
        }
    }
}

/// Every letter of a move is read as that move, and every character that
/// is read as a move is that move's letter.
pub proof fn lemma_letter_roundtrip()
    ensures
        forall|m: Move| spec_move_of(#[trigger] spec_letter_of(m)) == Some(m),
        forall|c: char|
            (#[trigger] spec_move_of(c)) is Some ==> spec_letter_of(spec_move_of(c)->0) == c,
{
}

/// What is read as a repetition is the notation of that repetition.
proof fn lemma_rep_sound(s: Seq<char>, pos: int)
    requires
        0 <= pos <= s.len(),
    ensures
        ({
            let (rep, next) = spec_parse_rep(s, pos);
            valid_rep(rep) && pos <= next <= s.len() && s.subrange(pos, next) == rep_notation(rep)
        }),
{
    let (rep, next) = spec_parse_rep(s, pos);
    assert(s.subrange(pos, next) =~= rep_notation(rep));
}

/// The notation of a repetition is read as that repetition.
proof fn lemma_rep_complete(s: Seq<char>, pos: int, rep: i8)
    requires
        valid_rep(rep),
        written_at(s, pos, rep_notation(rep)),
        rep_ends_at(s, pos + rep_notation(rep).len()),
    ensures
        spec_parse_rep(s, pos) == (rep, pos + rep_notation(rep).len()),
{
    let t = rep_notation(rep);
    if t.len() > 0 {
        lemma_written_at_index(s, pos, t, 0);
    }
    if t.len() > 1 {
        lemma_written_at_index(s, pos, t, 1);
    }
}

/// What is read as a command is the notation of that command.
proof fn lemma_command_sound(s: Seq<char>, pos: int)
    requires
        spec_parse_command(s, pos) is Some,
    ensures
        ({
            let (c, next) = spec_parse_command(s, pos)->0;
            c.valid() && pos < next <= s.len() && s.subrange(pos, next) == command_notation(c)
        }),
{
    let (c, next) = spec_parse_command(s, pos)->0;
    lemma_letter_roundtrip();
    lemma_rep_sound(s, pos + 1);
    assert(s.subrange(pos, next) =~= seq![s[pos]] + s.subrange(pos + 1, next));
}

/// The notation of a command is read as that command.
proof fn lemma_command_complete(s: Seq<char>, pos: int, c: Command)
    requires
        c.valid(),
        written_at(s, pos, command_notation(c)),
        rep_ends_at(s, pos + command_notation(c).len()),
    ensures
        spec_parse_command(s, pos) == Some((c, pos + command_notation(c).len())),
{
    lemma_letter_roundtrip();
    lemma_written_at_concat(s, pos, seq![spec_letter_of(c.0)], rep_notation(c.1));
    lemma_written_at_index(s, pos, seq![spec_letter_of(c.0)], 0);
    lemma_rep_complete(s, pos + 1, c.1);
}

/// What is read as commands is the notation of those commands.
proof fn lemma_commands_sound(s: Seq<char>, pos: int)
    requires
        0 <= pos <= s.len(),
    ensures
        ({
            let (cs, end) = spec_parse_commands(s, pos);
            commands_valid(cs) && pos <= end <= s.len() && s.subrange(pos, end)
                == commands_notation(cs)
        }),
    decreases s.len() - pos,
{
    let (cs, end) = spec_parse_commands(s, pos);
    match spec_parse_command(s, pos) {
        Some((c, next)) => {
            lemma_command_sound(s, pos);
            lemma_commands_sound(s, next);
            let (rest, _) = spec_parse_commands(s, next);
            assert(cs.drop_first() =~= rest);
            assert(s.subrange(pos, end) =~= s.subrange(pos, next) + s.subrange(next, end));
        },
        None => {
            assert(s.subrange(pos, end) =~= commands_notation(cs));
        },
    }
}

/// The notation of commands, with something after it that starts no
/// command and continues no repetition, is read as those commands.
proof fn lemma_commands_complete(s: Seq<char>, pos: int, cs: Seq<Command>)
    requires
        commands_valid(cs),
        written_at(s, pos, commands_notation(cs)),
        rep_ends_at(s, pos + commands_notation(cs).len()),
        spec_parse_command(s, pos + commands_notation(cs).len()) is None,
    ensures
        spec_parse_commands(s, pos) == (cs, pos + commands_notation(cs).len()),
    decreases cs.len(),
{
    if cs.len() == 0 {
    } else {
        let c = cs[0];
        let rest = cs.drop_first();
        let next = pos + command_notation(c).len();
        lemma_written_at_concat(s, pos, command_notation(c), commands_notation(rest));
        lemma_commands_start(s, next, rest);
        lemma_command_complete(s, pos, c);
        assert(commands_valid(rest)) by {
            assert forall|k: int| 0 <= k < rest.len() implies (#[trigger] rest[k]).valid() by {
                assert(rest[k] == cs[k + 1]);
            }
        }
        lemma_commands_complete(s, next, rest);
        assert(seq![c] + rest =~= cs);
    }
}

/// Where the notation of commands is written, and what follows it
/// continues no repetition, no repetition continues at its start.
proof fn lemma_commands_start(s: Seq<char>, pos: int, cs: Seq<Command>)
    requires
        written_at(s, pos, commands_notation(cs)),
        rep_ends_at(s, pos + commands_notation(cs).len()),
    ensures
        rep_ends_at(s, pos),
{
    if cs.len() > 0 {
        let first = command_notation(cs[0]);
        lemma_written_at_concat(s, pos, first, commands_notation(cs.drop_first()));
        lemma_written_at_index(s, pos, first, 0);
    }
}

/// What is read as an element is the notation of that element.
proof fn lemma_elem_sound(s: Seq<char>, pos: int)
    requires
        spec_parse_elem(s, pos) is Some,
    ensures
        ({
            let (e, next) = spec_parse_elem(s, pos)->0;
            elem_valid(e) && pos < next <= s.len() && s.subrange(pos, next) == elem_notation(e)
        }),
{
    let (e, next) = spec_parse_elem(s, pos)->0;
    lemma_parse_elem_advances(s, pos);
    match spec_parse_command(s, pos) {
        Some(_) => {
            lemma_command_sound(s, pos);
        },
        None => {
            let (cs, close) = spec_parse_commands(s, pos + 1);
            lemma_commands_sound(s, pos + 1);
            lemma_rep_sound(s, close + 1);
            assert(s.subrange(pos, next) =~= seq!['('] + s.subrange(pos + 1, close) + seq![')']
                + s.subrange(close + 1, next));
        },
    }
}

/// The notation of an element, with nothing after it that continues a
/// repetition, is read as that element.
proof fn lemma_elem_complete(s: Seq<char>, pos: int, e: ElemView)
    requires
        elem_valid(e),
        written_at(s, pos, elem_notation(e)),
        rep_ends_at(s, pos + elem_notation(e).len()),
    ensures
        spec_parse_elem(s, pos) == Some((e, pos + elem_notation(e).len())),
{
    match e {
        ElemView::One(c) => {
            lemma_command_complete(s, pos, c);
        },
        ElemView::Group(cs, rep) => {
            let inner = commands_notation(cs);
            let close = pos + 1 + inner.len();
            lemma_written_at_concat(
                s,
                pos,
                seq!['('] + inner + seq![')'],
                rep_notation(rep),
            );
            lemma_written_at_concat(s, pos, seq!['('] + inner, seq![')']);
            lemma_written_at_concat(s, pos, seq!['('], inner);
            lemma_written_at_index(s, pos, seq!['('], 0);
            lemma_written_at_index(s, close, seq![')'], 0);
            lemma_commands_complete(s, pos + 1, cs);
            lemma_rep_complete(s, close + 1, rep);
        },
    }
}

/// What is read as elements is the notation of those elements.
proof fn lemma_elems_sound(s: Seq<char>, pos: int)
    requires
        0 <= pos <= s.len(),
    ensures
        ({
            let (elems, end) = spec_parse_elems(s, pos);
            elems_valid(elems) && pos <= end <= s.len() && s.subrange(pos, end) == notation(elems)
        }),
    decreases s.len() - pos,
{
    let (elems, end) = spec_parse_elems(s, pos);
    match spec_parse_elem(s, pos) {
        Some((e, next)) => {
            lemma_elem_sound(s, pos);
            lemma_elems_sound(s, next);
            let (rest, _) = spec_parse_elems(s, next);
            assert(elems.drop_first() =~= rest);
            assert(s.subrange(pos, end) =~= s.subrange(pos, next) + s.subrange(next, end));
        },
        None => {
            assert(s.subrange(pos, end) =~= notation(elems));
        },
    }
}

/// Where the notation of elements ends a text, no repetition continues at
/// its start.
proof fn lemma_elems_start(s: Seq<char>, pos: int, elems: Seq<ElemView>)
    requires
        written_at(s, pos, notation(elems)),
        pos + notation(elems).len() == s.len(),
    ensures
        rep_ends_at(s, pos),
{
    if elems.len() > 0 {
        let first = elem_notation(elems[0]);
        lemma_written_at_concat(s, pos, first, notation(elems.drop_first()));
        match elems[0] {
            ElemView::One(c) => {
                lemma_written_at_index(s, pos, first, 0);
            },
            ElemView::Group(cs, rep) => {
                lemma_written_at_index(s, pos, first, 0);
            },
        }
    }
}

/// The notation of elements at the end of a text is read as those
/// elements.
proof fn lemma_elems_complete(s: Seq<char>, pos: int, elems: Seq<ElemView>)
    requires
        elems_valid(elems),
        written_at(s, pos, notation(elems)),
        pos + notation(elems).len() == s.len(),
    ensures
        spec_parse_elems(s, pos) == (elems, s.len() as int),
    decreases elems.len(),
{
    if elems.len() == 0 {
    } else {
        let e = elems[0];
        let rest = elems.drop_first();
        let next = pos + elem_notation(e).len();
        lemma_written_at_concat(s, pos, elem_notation(e), notation(rest));
        lemma_elems_start(s, next, rest);
        lemma_elem_complete(s, pos, e);
        assert(elems_valid(rest)) by {
            assert forall|k: int| 0 <= k < rest.len() implies elem_valid(#[trigger] rest[k]) by {
                assert(rest[k] == elems[k + 1]);
            }
        }
        lemma_elems_complete(s, next, rest);
        assert(seq![e] + rest =~= elems);
    }
}

/// A text that is read as a move sequence is the notation of that
/// sequence, and the sequence is one that the notation can express.
pub proof fn lemma_parse_sound(s: Seq<char>)
    requires
        spec_parse(s) is Ok,
    ensures
        elems_valid(spec_parse(s)->Ok_0),
        notation(spec_parse(s)->Ok_0) == s,
{
    lemma_elems_sound(s, 0);
    assert(s.subrange(0, s.len() as int) =~= s);
}

/// The notation of every move sequence that the notation can express is
/// read as that sequence.
pub proof fn lemma_parse_complete(elems: Seq<ElemView>)
    requires
        elems_valid(elems),
    ensures
        spec_parse(notation(elems)) == Ok::<Seq<ElemView>, int>(elems),
{
    let s = notation(elems);
    assert(s.subrange(0, s.len() as int) =~= s);
    lemma_elems_complete(s, 0, elems);
}

} // verus!
