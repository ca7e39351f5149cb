use nom::branch::alt;
use nom::character::complete::{char, one_of};
use nom::combinator::all_consuming;
use nom::multi::{many0, many1, many_m_n};
use nom::sequence::{delimited, pair};
use nom::IResult;
use rubikmaster::cfop::{F2L_LIST, OLL_LIST, PLL_LIST};
use rubikmaster::parser::parse;
use rubikmaster::Elem::{Group, One};
use rubikmaster::Move::R;
use rubikmaster::{command_of_draws, flatten, random, Command, Elem, Move, MOVE_LIST};

#[test]
fn test_flatten() {
    let e = Elem::Group(vec![Command(Move::U, 1), Command(Move::R, 1)], -1);
    let f = flatten(vec![e]);
    assert_eq!(f, vec![Command(Move::R, -1), Command(Move::U, -1)]);
}

#[test]
fn test_parse() {
    assert_eq!(parse("").unwrap().1, vec![]);
    assert_eq!(parse("R").unwrap().1, vec![One(Command(R, 1))]);
    assert_eq!(parse("R2'").unwrap().1, vec![One(Command(R, -2))]);
    assert!(parse("R'2").is_err());
    assert_eq!(
        parse("(RR')'").unwrap().1,
        vec![Group(vec![Command(R, 1), Command(R, -1)], -1)]
    );
    assert!(parse("RUR'U'").is_ok());
    assert!(parse("R2D(R'U2R)D'(R'U2R')").is_ok());
    assert!(parse("(RU')(RU)2(RU')R'U'R2").is_ok());
    assert!(parse("(R2'U)(RUR')(U'R'U')(R'UR')").is_ok());
    assert!(parse("RNA").is_err());
}

#[test]
fn flatten_keeps_single_commands() {
    let elems = vec![One(Command(Move::F, 2)), One(Command(Move::x, -1))];
    assert_eq!(flatten(elems), vec![Command(Move::F, 2), Command(Move::x, -1)]);
    assert_eq!(flatten(vec![]), vec![]);
}

#[test]
fn flatten_repeats_groups_in_order() {
    let cs = vec![Command(Move::R, 1), Command(Move::U, -1), Command(Move::F, 2)];
    assert_eq!(flatten(vec![Group(cs.clone(), 1)]), cs);
    let twice = flatten(vec![Group(cs.clone(), 2)]);
    assert_eq!(twice, [cs.clone(), cs.clone()].concat());
    let thrice = flatten(vec![Group(cs.clone(), 3)]);
    assert_eq!(thrice.len(), 9);
    assert_eq!(thrice[6..], cs[..]);
}

#[test]
fn flatten_inverts_groups_that_repeat_backwards() {
    let cs = vec![Command(Move::R, 1), Command(Move::U, -1), Command(Move::F, 2)];
    let back = vec![Command(Move::F, -2), Command(Move::U, 1), Command(Move::R, -1)];
    assert_eq!(flatten(vec![Group(cs.clone(), -1)]), back);
    assert_eq!(
        flatten(vec![Group(cs.clone(), -2)]),
        [back.clone(), back.clone()].concat()
    );
    assert_eq!(flatten(vec![Group(cs.clone(), 0)]), vec![]);
    assert_eq!(flatten(vec![Group(vec![], -1)]), vec![]);
}

#[test]
fn flatten_joins_the_elements() {
    let elems = vec![
        One(Command(Move::R, 1)),
        Group(vec![Command(Move::U, 1), Command(Move::F, 1)], -1),
        One(Command(Move::D, 2)),
        Group(vec![Command(Move::L, -1)], 2),
    ];
    assert_eq!(
        flatten(elems),
        vec![
            Command(Move::R, 1),
            Command(Move::F, -1),
            Command(Move::U, -1),
            Command(Move::D, 2),
            Command(Move::L, -1),
            Command(Move::L, -1),
        ]
    );
}

#[test]
fn prime_negates_the_repetition() {
    assert_eq!(Command(Move::R, 1).prime(), Command(Move::R, -1));
    assert_eq!(Command(Move::z, -2).prime(), Command(Move::z, 2));
    assert_eq!(Command(Move::M, 127).prime(), Command(Move::M, -127));
    assert_eq!(Command(Move::M, 2).prime().prime(), Command(Move::M, 2));
}

#[test]
fn every_letter_names_its_move() {
    let letters = "RLUDFBrludfbMESxyz";
    let moves = [
        Move::R,
        Move::L,
        Move::U,
        Move::D,
        Move::F,
        Move::B,
        Move::r,
        Move::l,
        Move::u,
        Move::d,
        Move::f,
        Move::b,
        Move::M,
        Move::E,
        Move::S,
        Move::x,
        Move::y,
        Move::z,
    ];
    let parsed = parse(letters).unwrap();
    assert_eq!(parsed.0, "");
    assert_eq!(parsed.1.len(), 18);
    for (k, mov) in moves.iter().enumerate() {
        assert_eq!(parsed.1[k], One(Command(*mov, 1)));
    }
    assert_eq!(MOVE_LIST.len(), 18);
    for mov in moves {
        assert!(MOVE_LIST.contains(&mov));
    }
}

#[test]
fn repetitions_are_read() {
    assert_eq!(parse("U").unwrap().1, vec![One(Command(Move::U, 1))]);
    assert_eq!(parse("U2").unwrap().1, vec![One(Command(Move::U, 2))]);
    assert_eq!(parse("U'").unwrap().1, vec![One(Command(Move::U, -1))]);
    assert_eq!(parse("U2'").unwrap().1, vec![One(Command(Move::U, -2))]);
    let group = vec![Command(Move::R, 1), Command(Move::U, 2)];
    assert_eq!(parse("(RU2)").unwrap().1, vec![Group(group.clone(), 1)]);
    assert_eq!(parse("(RU2)2").unwrap().1, vec![Group(group.clone(), 2)]);
    assert_eq!(parse("(RU2)'").unwrap().1, vec![Group(group.clone(), -1)]);
    assert_eq!(parse("(RU2)2'").unwrap().1, vec![Group(group.clone(), -2)]);
    assert_eq!(
        parse("(RUR'U')2").unwrap().1,
        vec![Group(
            vec![
                Command(Move::R, 1),
                Command(Move::U, 1),
                Command(Move::R, -1),
                Command(Move::U, -1)
            ],
            2
        )]
    );
}

#[test]
fn failures_carry_the_rest_of_the_text() {
    assert_eq!(parse("RNA").unwrap_err().rest, "NA");
    assert_eq!(parse("R'2").unwrap_err().rest, "2");
    assert_eq!(parse("R22").unwrap_err().rest, "2");
    assert_eq!(parse("R''").unwrap_err().rest, "'");
    assert_eq!(parse("RU(R").unwrap_err().rest, "(R");
    assert_eq!(parse("()").unwrap_err().rest, "()");
    assert_eq!(parse("R)").unwrap_err().rest, ")");
    assert_eq!(parse("((R))").unwrap_err().rest, "((R))");
    assert_eq!(parse("(R(U))").unwrap_err().rest, "(R(U))");
    assert_eq!(parse(" R").unwrap_err().rest, " R");
    assert_eq!(parse("R U").unwrap_err().rest, " U");
    assert_eq!(parse("2").unwrap_err().rest, "2");
    assert_eq!(parse("'").unwrap_err().rest, "'");
    assert_eq!(parse("RÜR").unwrap_err().rest, "ÜR");
    assert_eq!(parse("回R").unwrap_err().rest, "回R");
    assert_eq!(parse("(RU)2'x").unwrap().1.len(), 2);
}

fn parse_move(i: &str) -> IResult<&str, Move> {
    nom::combinator::map(one_of("RLUDFBrludfbMESxyz"), |c| match c {
        'R' => Move::R,
        'L' => Move::L,
        'U' => Move::U,
        'D' => Move::D,
        'F' => Move::F,
        'B' => Move::B,
        'r' => Move::r,
        'l' => Move::l,
        'u' => Move::u,
        'd' => Move::d,
        'f' => Move::f,
        'b' => Move::b,
        'M' => Move::M,
        'E' => Move::E,
        'S' => Move::S,
        'x' => Move::x,
        'y' => Move::y,
        'z' => Move::z,
        _ => unreachable!(),
    })(i)
}

fn parse_double(i: &str) -> IResult<&str, bool> {
    nom::combinator::map(many_m_n(0, 1, char('2')), |v| v.len() > 0)(i)
}

fn parse_prime(i: &str) -> IResult<&str, bool> {
    nom::combinator::map(many_m_n(0, 1, char('\'')), |v| v.len() > 0)(i)
}

fn parse_rep(i: &str) -> IResult<&str, i8> {
    nom::combinator::map(pair(parse_double, parse_prime), |(double, prime)| {
        let mut rep = 1;
        if double {
            rep = 2;
        }
        if prime {
            rep *= -1;
        }
        rep
    })(i)
}

fn parse_command(i: &str) -> IResult<&str, Command> {
    let f = pair(parse_move, parse_rep);
    nom::combinator::map(f, |(mov, rep)| Command(mov, rep))(i)
}

fn parse_group(i: &str) -> IResult<&str, (Vec<Command>, i8)> {
    let open = char('(');
    let commands = many1(parse_command);
    let close = char(')');
    let f = delimited(open, commands, close);
    pair(f, parse_rep)(i)
}

fn parse_elem(i: &str) -> IResult<&str, Elem> {
    let one = nom::combinator::map(parse_command, |x| Elem::One(x));
    let group = nom::combinator::map(parse_group, |(xs, rep)| Elem::Group(xs, rep));
    alt((one, group))(i)
}

/// The grammar written with parser combinators, to hold the parser against.
fn parse_with_combinators(i: &str) -> Result<Vec<Elem>, String> {
    let p = many0(parse_elem);
    match all_consuming(p)(i) {
        Ok((_, elems)) => Ok(elems),
        Err(nom::Err::Error(e)) | Err(nom::Err::Failure(e)) => Err(e.input.to_string()),
        Err(nom::Err::Incomplete(_)) => unreachable!(),
    }
}

fn agrees_with_combinators(text: &str) {
    let ours = match parse(text) {
        Ok((rest, elems)) => {
            assert_eq!(rest, "");
            Ok(elems)
        }
        Err(e) => Err(e.rest.to_string()),
    };
    assert_eq!(ours, parse_with_combinators(text), "on {:?}", text);
}

#[test]
fn parser_agrees_with_the_grammar_on_the_solution_lists() {
    for seq in F2L_LIST {
        agrees_with_combinators(seq);
    }
    for seq in OLL_LIST {
        agrees_with_combinators(seq);
    }
    for (_, seq) in PLL_LIST {
        agrees_with_combinators(seq);
    }
}

#[test]
fn parser_agrees_with_the_grammar_on_arbitrary_texts() {
    let alphabet: Vec<char> = "RLUxyMb2'()N R2'(".chars().collect();
    let mut state: u64 = 99;
    for _ in 0..5000 {
        let mut text = String::new();
        state = state
            .wrapping_mul(6364136223846793005)
            .wrapping_add(1442695040888963407);
        let len = (state >> 33) % 12;
        for _ in 0..len {
            state = state
                .wrapping_mul(6364136223846793005)
                .wrapping_add(1442695040888963407);
            text.push(alphabet[((state >> 33) % alphabet.len() as u64) as usize]);
        }
        agrees_with_combinators(&text);
    }
}

fn write_rep(rep: i8) -> &'static str {
    match rep {
        1 => "",
        2 => "2",
        -1 => "'",
        -2 => "2'",
        _ => unreachable!(),
    }
}

fn write_letter(mov: Move) -> char {
    let letters: Vec<char> = "RLUDFBrludfbMESxyz".chars().collect();
    letters[MOVE_LIST.iter().position(|m| *m == mov).unwrap()]
}

fn write(elems: &[Elem]) -> String {
    let mut text = String::new();
    for e in elems {
        match e {
            One(c) => {
                text.push(write_letter(c.0));
                text.push_str(write_rep(c.1));
            }
            Group(cs, rep) => {
                text.push('(');
                for c in cs {
                    text.push(write_letter(c.0));
                    text.push_str(write_rep(c.1));
                }
                text.push(')');
                text.push_str(write_rep(*rep));
            }
        }
    }
    text
}

#[test]
fn parsing_undoes_writing() {
    let reps = [1, 2, -1, -2];
    let mut state: u64 = 3;
    let mut next = move |n: u64| {
        state = state
            .wrapping_mul(6364136223846793005)
            .wrapping_add(1442695040888963407);
        ((state >> 33) % n) as usize
    };
    for _ in 0..500 {
        let mut elems = vec![];
        for _ in 0..next(8) {
            if next(3) == 0 {
                let cs = (0..next(4) + 1)
                    .map(|_| Command(MOVE_LIST[next(18)], reps[next(4)]))
                    .collect();
                elems.push(Group(cs, reps[next(4)]));
            } else {
                elems.push(One(Command(MOVE_LIST[next(18)], reps[next(4)])));
            }
        }
        let text = write(&elems);
        assert_eq!(parse(&text).unwrap().1, elems);
    }
    for seq in F2L_LIST {
        assert_eq!(write(&parse(seq).unwrap().1), seq);
    }
}

#[test]
fn draws_pick_the_move_and_the_repetition() {
    assert_eq!(command_of_draws(0, 0), Command(Move::R, 1));
    assert_eq!(command_of_draws(1, 1), Command(Move::L, 2));
    assert_eq!(command_of_draws(2, 2), Command(Move::U, -1));
    assert_eq!(command_of_draws(3, 3), Command(Move::D, -2));
    assert_eq!(command_of_draws(17, 4), Command(Move::z, 1));
    assert_eq!(command_of_draws(18, 5), Command(Move::R, 2));
    assert_eq!(command_of_draws(35, -1), Command(Move::z, -2));
    assert_eq!(command_of_draws(12, -2), Command(Move::M, -1));
    assert_eq!(command_of_draws(13, -3), Command(Move::E, 2));
    assert_eq!(command_of_draws(14, -4), Command(Move::S, 1));
    assert_eq!(command_of_draws(usize::MAX, i64::MAX).1, -2);
    assert_eq!(command_of_draws(usize::MAX, i64::MIN).1, 1);
    assert_eq!(
        command_of_draws(usize::MAX, 0).0,
        MOVE_LIST[usize::MAX % 18]
    );
}

#[test]
fn scramble_has_the_length_asked_for() {
    assert_eq!(random(0), vec![]);
    for n in [1, 2, 17, 1000] {
        let v = random(n);
        assert_eq!(v.len(), n);
        for Command(_, rep) in v {
            assert!([-2, -1, 1, 2].contains(&rep));
        }
    }
    // Two long scrambles that agree would show a source that repeats itself.
    assert_ne!(random(100), random(100));
}
