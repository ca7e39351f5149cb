use rubikmaster::cfop::{f2l_solved, oll_solved, solved, F2L_LIST, OLL_LIST, PLL_LIST};
use rubikmaster::coord::{rotation_of, Axis, Rotation};
use rubikmaster::matrix::{matof, of, PermutationMatrix};
use rubikmaster::parser::parse;
use rubikmaster::trainer::{
    apply_prime, calc_blacklist, make_problem, problem_of, rev3bits, y_interpret, Msg,
    SwitchFaceMatrix, Trainer, NO_ROT, Y_ROT,
};
use rubikmaster::{flatten, Command, Move};

#[test]
fn switch_face_mat_mul() {
    let id = SwitchFaceMatrix::new(NO_ROT);
    let m1 = SwitchFaceMatrix::new(Y_ROT);
    let m2 = m1.clone().inv();
    let m3 = m2.clone() * m1.clone();
    let m4 = m1 * id.clone();
    let m5 = m2 * id;
    assert_eq!(m3, id);
    assert_eq!(m4, m1);
    assert_eq!(m5, m2);
}

#[test]
fn test_rev3bits() {
    assert_eq!(rev3bits(0b100), 0b001);
    assert_eq!(rev3bits(0b110), 0b011);
    assert_eq!(rev3bits(0b101), 0b101);
}

#[test]
fn reversing_three_bits_twice_changes_nothing() {
    let expected = [0b000, 0b100, 0b010, 0b110, 0b001, 0b101, 0b011, 0b111];
    for x in 0..8u8 {
        assert_eq!(rev3bits(x), expected[x as usize]);
        assert_eq!(rev3bits(rev3bits(x)), x);
    }
    assert_eq!(rev3bits(0b1111_1001), 0b100);
}

#[test]
fn directions_turn_with_the_cube() {
    let y = SwitchFaceMatrix::new(Y_ROT);
    assert_eq!(y.x, (Axis::Z, -1));
    assert_eq!(y.y, (Axis::Y, 1));
    assert_eq!(y.z, (Axis::X, 1));
    let back = y.inv();
    assert_eq!(back.x, (Axis::Z, 1));
    assert_eq!(back.y, (Axis::Y, 1));
    assert_eq!(back.z, (Axis::X, -1));
    let twice = y * y;
    assert_eq!(twice.x, (Axis::X, -1));
    assert_eq!(twice.z, (Axis::Z, -1));
    assert_eq!(twice * twice, SwitchFaceMatrix::new(NO_ROT));
    assert_eq!(y.apply(back), SwitchFaceMatrix::new(NO_ROT));
    let named = SwitchFaceMatrix::new([
        ((Axis::Z, -1), (Axis::Y, 1)),
        ((Axis::X, 1), (Axis::Z, 1)),
        ((Axis::Y, -1), (Axis::X, 1)),
    ]);
    assert_eq!(named.z, (Axis::Y, -1));
    assert_eq!(named.x, (Axis::Z, 1));
    assert_eq!(named.y, (Axis::X, -1));
}

#[test]
fn rotations_read_on_the_turned_cube() {
    let id = SwitchFaceMatrix::new(NO_ROT);
    assert_eq!(id.interpret(Axis::X, 1, 0b100), (Axis::X, 1, 0b100));
    assert_eq!(id.interpret(Axis::Z, -2, 0b011), (Axis::Z, -2, 0b011));
    let y = SwitchFaceMatrix::new(Y_ROT);
    // What was the right face is now the back face.
    assert_eq!(y.interpret(Axis::X, 1, 0b100), (Axis::Z, -1, 0b001));
    assert_eq!(y.interpret(Axis::X, -1, 0b001), (Axis::Z, 1, 0b100));
    assert_eq!(y.interpret(Axis::Z, 1, 0b110), (Axis::X, 1, 0b110));
    assert_eq!(y.interpret(Axis::Y, 2, 0b100), (Axis::Y, 2, 0b100));
    assert_eq!(y.interpret(Axis::X, 2, 0b110), (Axis::Z, -2, 0b011));
}

#[test]
fn turns_of_the_whole_cube_are_taken_out_of_a_solution() {
    let plain = y_interpret(vec![Command(Move::R, 1), Command(Move::U, -1)]);
    assert_eq!(
        plain,
        vec![
            Rotation { axis: Axis::X, indices: 0b100, clockwise: 1 },
            Rotation { axis: Axis::Y, indices: 0b100, clockwise: -1 },
        ]
    );
    let turned = y_interpret(vec![
        Command(Move::y, 1),
        Command(Move::R, 1),
        Command(Move::y, -1),
        Command(Move::R, 1),
        Command(Move::y, 2),
    ]);
    assert_eq!(
        turned,
        vec![
            Rotation { axis: Axis::Z, indices: 0b001, clockwise: -1 },
            Rotation { axis: Axis::X, indices: 0b100, clockwise: 1 },
            Rotation { axis: Axis::Y, indices: 0b111, clockwise: 2 },
        ]
    );
    assert_eq!(y_interpret(vec![]), vec![]);
}

#[test]
fn solution_without_whole_cube_turns_solves_the_same_layers() {
    for (i, seq) in F2L_LIST.iter().enumerate() {
        let (state, solve) = apply_prime(PermutationMatrix::identity(), seq).unwrap();
        assert_eq!(solve, flatten(parse(seq).unwrap().1), "problem {}", i);
        // The commands as written solve the cube up to a turn of the whole.
        let mut by_commands = state;
        for c in &solve {
            by_commands = matof(*c) * by_commands;
        }
        assert_eq!(by_commands, PermutationMatrix::identity());
        // The rotations leave the cube as it lies: its lower two layers are
        // solved where they were.
        let mut by_rotations = state;
        for rot in y_interpret(solve.clone()) {
            by_rotations = of(rot) * by_rotations;
        }
        assert!(f2l_solved(&by_rotations), "problem {}", i);
        // The two differ by the turns of the whole cube that the solution
        // makes.
        let mut net: i8 = 0;
        for c in &solve {
            if *c == Command(Move::y, 1) {
                net += 1;
            } else if *c == Command(Move::y, -1) {
                net -= 1;
            }
        }
        let whole = of(Rotation { axis: Axis::Y, indices: 0b111, clockwise: net });
        assert_eq!(by_commands, whole * by_rotations, "problem {}", i);
    }
}

#[test]
fn rotations_and_commands_differ_by_the_turns_of_the_whole_cube() {
    let seq = vec![
        Command(Move::R, 1),
        Command(Move::y, 1),
        Command(Move::f, -1),
        Command(Move::y, 1),
        Command(Move::M, 2),
        Command(Move::y, -1),
        Command(Move::x, 1),
        Command(Move::y, 2),
        Command(Move::y, 1),
        Command(Move::y, 1),
        Command(Move::L, -2),
        Command(Move::u, 3),
    ];
    let start = matof(Command(Move::D, 1));
    let mut by_commands = start;
    for c in &seq {
        by_commands = matof(*c) * by_commands;
    }
    let mut by_rotations = start;
    for rot in y_interpret(seq) {
        by_rotations = of(rot) * by_rotations;
    }
    let whole = of(Rotation { axis: Axis::Y, indices: 0b111, clockwise: 3 });
    assert_eq!(by_commands, whole * by_rotations);
}

#[test]
fn undoing_a_solution_leaves_its_problem() {
    let id = PermutationMatrix::identity();
    let (state, cs) = apply_prime(id, "RU").unwrap();
    assert_eq!(cs, vec![Command(Move::R, 1), Command(Move::U, 1)]);
    assert_eq!(state, matof(Command(Move::R, -1)) * matof(Command(Move::U, -1)));
    let (state, cs) = apply_prime(matof(Command(Move::F, 1)), "(RU)'").unwrap();
    assert_eq!(cs, vec![Command(Move::U, -1), Command(Move::R, -1)]);
    assert_eq!(
        state,
        matof(Command(Move::U, 1)) * matof(Command(Move::R, 1)) * matof(Command(Move::F, 1))
    );
    assert_eq!(apply_prime(id, "").unwrap(), (id, vec![]));
    assert_eq!(apply_prime(id, "RQ").unwrap_err().rest, "Q");
}

#[test]
fn stickers_of_other_colours_are_dimmed() {
    let id = PermutationMatrix::identity();
    let list = calc_blacklist(&id);
    // On a cube that lies as it was made, the colours asked about are those
    // of the lower, the right and the front face. Of the pieces with no
    // negative coordinate, those with a sticker on the upper face are dimmed.
    let mut expected: Vec<u8> = vec![22, 5, 19, 37, 23, 2, 20, 38];
    expected.sort();
    let mut got: Vec<u8> = list.into_iter().collect();
    got.sort();
    assert_eq!(got, expected);

    let turned = matof(Command(Move::x, 1));
    let list = calc_blacklist(&turned);
    assert!(list.iter().all(|k| *k < 54));
    let y = matof(Command(Move::y, 1));
    let mut got: Vec<u8> = calc_blacklist(&y).into_iter().collect();
    got.sort();
    // Now the right face shows the back colour and the front face the right
    // colour: front stickers are dimmed as well.
    assert!(got.contains(&40));
    assert!(got.contains(&4) == false);
}

#[test]
fn problem_is_made_of_three_undone_solutions() {
    for (i, x) in [(0, 0), (28, 5), (40, 1234567), (7, usize::MAX)] {
        let p = problem_of(i, x).unwrap();
        assert_eq!(p.no, i);
        assert!(p.ok);
        assert_eq!(p.solve_seq, F2L_LIST[i]);
        let id = PermutationMatrix::identity();
        let s = apply_prime(id, PLL_LIST[x % 21].1).unwrap().0;
        let s = apply_prime(s, OLL_LIST[x % 57]).unwrap().0;
        let (s, cs) = apply_prime(s, F2L_LIST[i]).unwrap();
        assert_eq!(p.state, s);
        assert_eq!(p.solve, y_interpret(cs));
        assert!(!f2l_solved(&p.state));
        assert!(!solved(&p.state));
        let mut m = p.state;
        for rot in &p.solve {
            m = of(*rot) * m;
        }
        assert!(f2l_solved(&m));
        assert!(!oll_solved(&m));
    }
    let p = make_problem(12).unwrap();
    assert_eq!(p.no, 12);
    assert_eq!(p.solve_seq, F2L_LIST[12]);
}

#[test]
fn training_follows_the_levels() {
    let mut trainer = Trainer::create(problem_of(28, 0).unwrap());
    assert_eq!(trainer.diff_level, [3; 41]);
    assert_eq!(trainer.cur_problem.no, 28);

    assert!(trainer.update(Msg::ShowSolve));
    assert!(!trainer.cur_problem.ok);
    assert_eq!(trainer.cur_problem.no, 28);
    assert_eq!(trainer.diff_level, [3; 41]);
    assert!(trainer.update(Msg::ShowSolve));
    assert!(!trainer.cur_problem.ok);

    assert!(trainer.check_can_go_on());
    assert!(trainer.update(Msg::Next));
    assert_eq!(trainer.diff_level[28], 4);
    assert!(trainer.cur_problem.ok);
    assert!(trainer.cur_problem.no < 41);

    let no = trainer.cur_problem.no;
    let before = trainer.diff_level[no];
    assert!(trainer.update(Msg::Next));
    assert_eq!(trainer.diff_level[no], before - 1);
}

#[test]
fn only_problems_with_a_level_come_up() {
    for only in [0, 7, 40] {
        let mut trainer = Trainer::create(problem_of(3, 1).unwrap());
        trainer.diff_level = [0; 41];
        trainer.diff_level[only] = 5;
        // The level falls with every answer; as long as it is not zero, no
        // other problem can come up.
        for level in [5, 4, 3, 2, 1] {
            assert!(trainer.check_can_go_on());
            trainer.update(Msg::Next);
            assert_eq!(trainer.cur_problem.no, only);
            assert_eq!(trainer.diff_level[only], level);
        }
        trainer.update(Msg::Next);
        assert_eq!(trainer.diff_level, [0; 41]);
        assert_eq!(trainer.cur_problem.no, 0);
    }
    // With every level at zero the first problem comes up.
    let mut trainer = Trainer::create(problem_of(3, 1).unwrap());
    trainer.diff_level = [0; 41];
    trainer.update(Msg::Next);
    assert_eq!(trainer.cur_problem.no, 0);
    assert_eq!(trainer.diff_level, [0; 41]);
}

#[test]
fn levels_that_do_not_add_up_stop_the_training() {
    let mut trainer = Trainer::create(problem_of(3, 1).unwrap());
    trainer.diff_level = [u64::MAX / 41; 41];
    assert!(trainer.check_can_go_on());
    trainer.diff_level[0] += u64::MAX % 41;
    trainer.cur_problem.ok = false;
    assert!(!trainer.check_can_go_on());
    trainer.cur_problem.ok = true;
    assert!(trainer.check_can_go_on());
    trainer.diff_level = [u64::MAX; 41];
    assert!(!trainer.check_can_go_on());
}

#[test]
fn every_problem_of_the_list_is_made() {
    // Every entry of the three lists is a move sequence, so whatever is
    // drawn, the problem comes.
    for i in 0..41 {
        for _ in 0..5 {
            let p = make_problem(i).unwrap();
            assert_eq!(p.no, i);
            assert!(p.ok);
            assert_eq!(p.solve_seq, F2L_LIST[i]);
            assert!(p.state.is_wf());
        }
        for x in 0..57 {
            assert!(problem_of(i, x).is_some());
        }
    }
}
