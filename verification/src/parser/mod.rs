//! Parse rotation sequence like (RUR')U'(R'FR)F'
//!
//! Syntax:
//! - Move -> R|L|U|D|F|B| ...
//! - Double -> 2 | ε
//! - Prime -> ' | ε
//! - Rep -> Double Prime
//! - Command -> Move Rep
//! - Group -> ( Command+ ) Rep
//! - Elem -> Command | Group
//! - Seq -> Elem*

use crate::{Command, Elem, ElemView, Move};
use vstd::prelude::*;
use vstd::std_specs::iter::IteratorSpec;
use vstd::string::StrSliceExecFns;

pub mod notation;

verus! {

/// The move that the letter `c` names, if it names one.
pub open spec fn spec_move_of(c: char) -> Option<Move> {
    if c == 'R' {
        Some(Move::R)
    } else if c == 'L' {
        Some(Move::L)
    } else if c == 'U' {
        Some(Move::U)
    } else if c == 'D' {
        Some(Move::D)
    } else if c == 'F' {
        Some(Move::F)
    } else if c == 'B' {
        Some(Move::B)
    } else if c == 'r' {
        Some(Move::r)
    } else if c == 'l' {
        Some(Move::l)
    } else if c == 'u' {
        Some(Move::u)
    } else if c == 'd' {
        Some(Move::d)
    } else if c == 'f' {
        Some(Move::f)
    } else if c == 'b' {
        Some(Move::b)
    } else if c == 'M' {
        Some(Move::M)
    } else if c == 'E' {
        Some(Move::E)
    } else if c == 'S' {
        Some(Move::S)
    } else if c == 'x' {
        Some(Move::x)
    } else if c == 'y' {
        Some(Move::y)
    } else if c == 'z' {
        Some(Move::z)
    } else {
        None
    }
}

/// Whether `s` holds the character `c` at position `pos`.
pub open spec fn holds_at(s: Seq<char>, pos: int, c: char) -> bool {
    0 <= pos < s.len() && s[pos] == c
}

/// The repetition written at `pos` and the position after it: no suffix
/// stands for 1, `2` for 2, `'` for -1 and `2'` for -2.
pub open spec fn spec_parse_rep(s: Seq<char>, pos: int) -> (i8, int) {
    let double = holds_at(s, pos, '2');
    let after = if double { pos + 1 } else { pos };
    let prime = holds_at(s, after, '\'');
    (
        if double {
            if prime { -2i8 } else { 2i8 }
        } else {
            if prime { -1i8 } else { 1i8 }
        },
        if prime { after + 1 } else { after },
    )
}

/// The command written at `pos` and the position after it, if a command is
/// written there.
pub open spec fn spec_parse_command(s: Seq<char>, pos: int) -> Option<(Command, int)> {
    if 0 <= pos < s.len() && spec_move_of(s[pos]) is Some {
        let (rep, next) = spec_parse_rep(s, pos + 1);
        Some((Command(spec_move_of(s[pos])->0, rep), next))
    } else {
        None
    }
}

/// The commands written one after another from `pos` on, as many as there
/// are, and the position after them.
pub open spec fn spec_parse_commands(s: Seq<char>, pos: int) -> (Seq<Command>, int)
    decreases s.len() - pos,
{
    match spec_parse_command(s, pos) {
        Some((c, next)) => {
            let (rest, end) = spec_parse_commands(s, next);
            (seq![c] + rest, end)
        },
        None => (Seq::empty(), pos),
    }
}

/// The group written at `pos` and the position after it, if a group is
/// written there: one command or more in parentheses and a repetition.
pub open spec fn spec_parse_group(s: Seq<char>, pos: int) -> Option<(ElemView, int)> {
    if holds_at(s, pos, '(') {
        let (cs, close) = spec_parse_commands(s, pos + 1);
        if cs.len() > 0 && holds_at(s, close, ')') {
            let (rep, next) = spec_parse_rep(s, close + 1);
            Some((ElemView::Group(cs, rep), next))
        } else {
            None
        }
    } else {
        None
    }
}

/// The element written at `pos` and the position after it, if an element
/// is written there.
pub open spec fn spec_parse_elem(s: Seq<char>, pos: int) -> Option<(ElemView, int)> {
    match spec_parse_command(s, pos) {
        Some((c, next)) => Some((ElemView::One(c), next)),
        None => spec_parse_group(s, pos),
    }
}

/// What is written at `pos` ends after `pos` and within `s`.
pub proof fn lemma_parse_elem_advances(s: Seq<char>, pos: int)
    requires
        spec_parse_elem(s, pos) is Some,
    ensures
        ({
            let (_, next) = spec_parse_elem(s, pos)->0;
            pos < next <= s.len()
        }),
{
    if spec_parse_command(s, pos) is None {
        lemma_parse_commands_end(s, pos + 1);
    }
}

/// The commands from `pos` on end at or after `pos` and within `s`.
pub proof fn lemma_parse_commands_end(s: Seq<char>, pos: int)
    requires
        0 <= pos <= s.len(),
    ensures
        pos <= spec_parse_commands(s, pos).1 <= s.len(),
    decreases s.len() - pos,
{
    match spec_parse_command(s, pos) {
        Some((c, next)) => {
            lemma_parse_commands_end(s, next);
        },
        None => {},
    }
}

/// The elements written one after another from `pos` on, as many as there
/// are, and the position after them.
pub open spec fn spec_parse_elems(s: Seq<char>, pos: int) -> (Seq<ElemView>, int)
    decreases s.len() - pos,
{
    match spec_parse_elem(s, pos) {
        Some((e, next)) => {
            proof {
                lemma_parse_elem_advances(s, pos);
            }
            let (rest, end) = spec_parse_elems(s, next);
            (seq![e] + rest, end)
        },
        None => (Seq::empty(), pos),
    }
}

/// The elements that `s` stands for, if all of `s` is a sequence of
/// elements; otherwise the position at which no further element is
/// written.
pub open spec fn spec_parse(s: Seq<char>) -> Result<Seq<ElemView>, int> {
    let (elems, end) = spec_parse_elems(s, 0);
    if end == s.len() {
        Ok(elems)
    } else {
        Err(end)
    }
}

/// Why a text is no move sequence: the part of it, from the first
/// character on that starts no further element.
#[derive(Debug, Clone, Copy, PartialEq, Eq)]
pub struct ParseError<'a> {
    pub rest: &'a str,
}

/// The move that the letter `c` names.
fn parse_move(c: char) -> (r: Option<Move>)
    ensures
        r == spec_move_of(c),
{
    match c {
        'R' => Some(Move::R),
        'L' => Some(Move::L),
        'U' => Some(Move::U),
        'D' => Some(Move::D),
        'F' => Some(Move::F),
        'B' => Some(Move::B),
        'r' => Some(Move::r),
        'l' => Some(Move::l),
        'u' => Some(Move::u),
        'd' => Some(Move::d),
        'f' => Some(Move::f),
        'b' => Some(Move::b),
        'M' => Some(Move::M),
        'E' => Some(Move::E),
        'S' => Some(Move::S),
        'x' => Some(Move::x),
        'y' => Some(Move::y),
        'z' => Some(Move::z),
        _ => None,
    }
}

/// Whether a `2` stands at `pos`.
fn parse_double(s: &Vec<char>, pos: usize) -> (r: bool)
    ensures
        r == holds_at(s@, pos as int, '2'),
{
    pos < s.len() && s[pos] == '2'
}

/// Whether a `'` stands at `pos`.
fn parse_prime(s: &Vec<char>, pos: usize) -> (r: bool)
    ensures
        r == holds_at(s@, pos as int, '\''),
{
    pos < s.len() && s[pos] == '\''
}

/// The repetition written at `pos` and the position after it.
fn parse_rep(s: &Vec<char>, pos: usize) -> (r: (i8, usize))
    requires
        pos <= s@.len(),
    ensures
        (r.0, r.1 as int) == spec_parse_rep(s@, pos as int),
        pos <= r.1 <= s@.len(),
{
    proof {
        assert(s@.len() == s.len());
    }
    let double = parse_double(s, pos);
    let after = if double { pos + 1 } else { pos };
    let prime = parse_prime(s, after);
    let mut rep: i8 = 1;
    if double {
        rep = 2;
    }
    if prime {
        rep = rep * -1;
    }
    (rep, if prime { after + 1 } else { after })
}

/// The command written at `pos` and the position after it.
fn parse_command(s: &Vec<char>, pos: usize) -> (r: Option<(Command, usize)>)
    requires
        pos <= s@.len(),
    ensures
        match r {
            Some((c, next)) => spec_parse_command(s@, pos as int) == Some((c, next as int)) && pos
                < next <= s@.len(),
            None => spec_parse_command(s@, pos as int) is None,
        },
{
    if pos >= s.len() {
        return None;
    }
    match parse_move(s[pos]) {
        Some(mov) => {
            let (rep, next) = parse_rep(s, pos + 1);
            Some((Command(mov, rep), next))
        },
        None => None,
    }
}

/// The group written at `pos` and the position after it.
fn parse_group(s: &Vec<char>, pos: usize) -> (r: Option<((Vec<Command>, i8), usize)>)
    requires
        pos <= s@.len(),
    ensures
        match r {
            Some(((cs, rep), next)) => spec_parse_group(s@, pos as int) == Some(
                (ElemView::Group(cs@, rep), next as int),
            ) && pos < next <= s@.len(),
            None => spec_parse_group(s@, pos as int) is None,
        },
{
    if !(pos < s.len() && s[pos] == '(') {
        return None;
    }
    let mut cs: Vec<Command> = Vec::new();
    let mut cur = pos + 1;
    loop
        invariant
            pos < cur <= s@.len(),
            ({
                let (rest, end) = spec_parse_commands(s@, cur as int);
                spec_parse_commands(s@, pos + 1) == (cs@ + rest, end)
            }),
        ensures
            spec_parse_commands(s@, pos + 1) == (cs@, cur as int),
        decreases s@.len() - cur,
    {
        match parse_command(s, cur) {
            Some((c, next)) => {
                proof {
                    let (rest, end) = spec_parse_commands(s@, next as int);
                    assert(cs@ + (seq![c] + rest) =~= cs@.push(c) + rest);
                }
                cs.push(c);
                cur = next;
            },
            None => {
                proof {
                    assert(cs@ + Seq::<Command>::empty() =~= cs@);
                }
                break ;
            },
        }
    }
    if cs.len() == 0 || !(cur < s.len() && s[cur] == ')') {
        return None;
    }
    let (rep, next) = parse_rep(s, cur + 1);
    Some(((cs, rep), next))
}

/// The element written at `pos` and the position after it.
fn parse_elem(s: &Vec<char>, pos: usize) -> (r: Option<(Elem, usize)>)
    requires
        pos <= s@.len(),
    ensures
        match r {
            Some((e, next)) => spec_parse_elem(s@, pos as int) == Some((e@, next as int)) && pos
                < next <= s@.len(),
            None => spec_parse_elem(s@, pos as int) is None,
        },
{
    match parse_command(s, pos) {
        Some((c, next)) => Some((Elem::One(c), next)),
        None => match parse_group(s, pos) {
            Some(((cs, rep), next)) => Some((Elem::Group(cs, rep), next)),
            None => None,
        },
    }
}

/// The characters of `i`, one by one.
fn characters(i: &str) -> (v: Vec<char>)
    ensures
        v@ == i@,
{
    let mut v: Vec<char> = Vec::new();
    let mut it = i.chars();
    loop
        invariant
            v@ + it.remaining() == i@,
            it.obeys_prophetic_iter_laws(),
            it.decrease() is Some,
        ensures
            v@ == i@,
        decreases it.decrease()->0,
    {
        let ghost before = it;
        match it.next() {
            Some(c) => {
                proof {
                    broadcast use vstd::string::next_postcondition;
                    assert(v@.push(c) + before.remaining().drop_first() =~= v@
                        + before.remaining());
                }
                v.push(c);
            },
            None => {
                proof {
                    broadcast use vstd::string::next_postcondition;
                    assert(v@ + Seq::<char>::empty() =~= v@);
                }
                break ;
            },
        }
    }
    v
}

/// The elements of `s`, if `s` is a move sequence from its first to its
/// last character; they come with the rest of the input, which is empty.
pub fn parse<'a>(i: &'a str) -> (r: Result<(&'a str, Vec<Elem>), ParseError<'a>>)
    ensures
        match spec_parse(i@) {
            Ok(elems) => r is Ok && r->Ok_0.0@.len() == 0 && crate::elems_view(r->Ok_0.1@)
                == elems,
            Err(at) => r is Err && 0 <= at < i@.len() && r->Err_0.rest@ == i@.subrange(
                at,
                i@.len() as int,
            ),
        },
        r matches Ok((_, elems)) ==> notation::elems_valid(crate::elems_view(elems@))
            && notation::notation(crate::elems_view(elems@)) == i@,
{
    proof {
        if spec_parse(i@) is Ok {
            notation::lemma_parse_sound(i@);
        }
    }
    let s = characters(i);
    let mut elems: Vec<Elem> = Vec::new();
    let mut pos: usize = 0;
    loop
        invariant
            s@ == i@,
            pos <= s@.len(),
            ({
                let (rest, end) = spec_parse_elems(s@, pos as int);
                spec_parse_elems(s@, 0) == (crate::elems_view(elems@) + rest, end)
            }),
        ensures
            spec_parse_elems(s@, 0) == (crate::elems_view(elems@), pos as int),
        decreases s@.len() - pos,
    {
        match parse_elem(&s, pos) {
            Some((e, next)) => {
                proof {
                    let (rest, end) = spec_parse_elems(s@, next as int);
                    let views = crate::elems_view(elems@);
                    assert(views + (seq![e@] + rest) =~= crate::elems_view(elems@.push(e)) + rest);
                }
                elems.push(e);
                pos = next;
            },
            None => {
                proof {
                    let views = crate::elems_view(elems@);
                    assert(views + Seq::<ElemView>::empty() =~= views);
                }
                break ;
            },
        }
    }
    let n = s.len();
    if pos == n {
        Ok((i.substring_char(n, n), elems))
    } else {
        Err(ParseError { rest: i.substring_char(pos, n) })
    }
}

} // verus!
