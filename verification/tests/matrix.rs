use rubikmaster::coord::{rotation_of, surface_number, Axis, Rotation, Surface};
use rubikmaster::matrix::{matof, of, same_color_check, Cache, Permutation, PermutationMatrix};
use rubikmaster::{Command, Move, MOVE_LIST};

/// A sequence of numbers that looks random and is the same in every run.
struct Sequence(u64);

impl Sequence {
    fn next(&mut self) -> u64 {
        self.0 = self
            .0
            .wrapping_mul(6364136223846793005)
            .wrapping_add(1442695040888963407);
        self.0 >> 33
    }

    fn permutation(&mut self) -> [u8; 54] {
        let mut perm = [0u8; 54];
        for i in 0..54 {
            perm[i] = i as u8;
        }
        for i in (1..54).rev() {
            let j = (self.next() % (i as u64 + 1)) as usize;
            perm.swap(i, j);
        }
        perm
    }

    fn command(&mut self, max_rep: u64) -> Command {
        let mov = MOVE_LIST[(self.next() % 18) as usize];
        let rep = (self.next() % max_rep) as i8 + 1;
        Command(mov, rep)
    }
}

fn to_mat(v: [u8; 54]) -> PermutationMatrix {
    PermutationMatrix::op(Permutation::new(v))
}

#[test]
fn test_same_color_check() {
    let mut m = PermutationMatrix::identity();
    let c = matof(Command(Move::R, 1));
    m = c * m;

    for _ in 0..1000 {
        let l = [
            (Surface::U, 0, 0),
            (Surface::U, 0, 1),
            (Surface::U, 0, 2),
            (Surface::F, 0, 0),
            (Surface::F, 0, 1),
            (Surface::F, 1, 0),
            (Surface::F, 1, 1),
            (Surface::F, 2, 0),
            (Surface::F, 2, 1),
        ];
        let mut list = [0; 9];
        for k in 0..9 {
            let (sur, i, j) = l[k];
            list[k] = surface_number(sur, i, j);
        }
        assert!(same_color_check(&m, list));
        m = matof(Command(Move::x, 1)) * m;
    }
}

#[test]
fn test_cancel() {
    for mov in MOVE_LIST {
        let f = matof(Command(mov, 1));
        let g = matof(Command(mov, -1));
        assert_ne!(f, g);
        assert_eq!(g * f, PermutationMatrix::identity());
    }
}

#[test]
fn test_4times() {
    for mov in MOVE_LIST {
        let f = matof(Command(mov, 4));
        assert_eq!(f, PermutationMatrix::identity());
    }
}

#[test]
fn test_sexy_move_6times() {
    let mut sexy = PermutationMatrix::identity();
    for com in [
        matof(Command(Move::R, 1)),
        matof(Command(Move::U, 1)),
        matof(Command(Move::R, -1)),
        matof(Command(Move::U, -1)),
    ] {
        sexy = com * sexy;
    }
    let mut mat = PermutationMatrix::identity();
    for _ in 0..6 {
        mat = sexy * mat;
    }
    assert_eq!(mat, PermutationMatrix::identity());
}

#[test]
fn test_counter_rot() {
    let mut seq = Sequence(7);
    for round in 0..4 {
        let len = 500 + 125 * round;
        let v: Vec<Command> = (0..len).map(|_| seq.command(3)).collect();
        let mut rev = v.clone();
        rev.reverse();

        let mut mat = PermutationMatrix::identity();
        for c in v {
            mat = matof(c) * mat;
        }
        for c in rev {
            mat = matof(c.prime()) * mat;
        }
        assert_eq!(mat, PermutationMatrix::identity());
    }
}

#[test]
fn test_inv() {
    let mut seq = Sequence(11);
    for _ in 0..200 {
        let mat = to_mat(seq.permutation());
        let inv = mat.inv();
        assert_eq!(inv * mat, PermutationMatrix::identity());
        assert_eq!(mat * inv, PermutationMatrix::identity());
    }
}

#[test]
fn test_mul_ref() {
    let mut seq = Sequence(13);
    for _ in 0..200 {
        let x = seq.permutation();
        let y = seq.permutation();
        let z0 = to_mat(x) * to_mat(y);
        // The permutation of the product takes `i` where `x` takes what `y`
        // makes of it.
        let mut z = [0u8; 54];
        for i in 0..54 {
            z[i] = x[y[i] as usize];
        }
        assert_eq!(z0, to_mat(z));
    }
}

#[test]
fn test_inv_ref() {
    let mut seq = Sequence(17);
    for _ in 0..200 {
        let v = seq.permutation();
        let x_inv = to_mat(v).inv();
        let mut w = [0u8; 54];
        for i in 0..54 {
            w[v[i] as usize] = i as u8;
        }
        assert_eq!(x_inv, to_mat(w));
        // The matrix holds the inverse of its permutation.
        assert_eq!(to_mat(v).inv_perm, w);
        assert_eq!(x_inv.inv_perm, v);
    }
}

#[test]
fn multiplication_is_associative_with_identity_as_unit() {
    let mut seq = Sequence(19);
    let id = PermutationMatrix::identity();
    for _ in 0..100 {
        let a = to_mat(seq.permutation());
        let b = to_mat(seq.permutation());
        let c = to_mat(seq.permutation());
        assert_eq!((a * b) * c, a * (b * c));
        assert_eq!(a * id, a);
        assert_eq!(id * a, a);
        assert_eq!(a.apply(b), a * b);
    }
}

#[test]
fn product_gathers_through_the_left_factor() {
    let mut seq = Sequence(23);
    let a = to_mat(seq.permutation());
    let b = to_mat(seq.permutation());
    let c = a * b;
    for i in 0..54 {
        assert_eq!(c.inv_perm[i], b.inv_perm[a.inv_perm[i] as usize]);
    }
}

#[test]
fn identity_holds_every_facelet_in_its_place() {
    let id = PermutationMatrix::identity();
    for i in 0..54 {
        assert_eq!(id.inv_perm[i], i as u8);
    }
    assert!(id.is_wf());
    let p = Permutation::identity();
    for i in 0..54u8 {
        assert_eq!(p[i], i);
    }
    assert_eq!(p, Permutation::identity().inv());
}

#[test]
fn validity_of_permutations_is_checked() {
    let mut seq = Sequence(29);
    let good = seq.permutation();
    assert!(Permutation::is_valid(&good));
    let mut twice = good;
    twice[10] = twice[20];
    assert!(!Permutation::is_valid(&twice));
    let mut large = good;
    large[0] = 54;
    assert!(!Permutation::is_valid(&large));
    assert!(!PermutationMatrix { inv_perm: twice }.is_wf());
    assert!(PermutationMatrix { inv_perm: good }.is_wf());
    let p = Permutation::new(good);
    for i in 0..54u8 {
        assert_eq!(p[i], good[i as usize]);
        assert_eq!(p.inv()[good[i as usize]], i);
    }
}

#[test]
fn right_turn_moves_the_stickers_of_its_arrows() {
    let r = matof(Command(Move::R, 1));
    // Each pair names a facelet and the facelet where its sticker goes.
    let arrows = [
        (0, 2),
        (1, 5),
        (2, 8),
        (3, 1),
        (5, 7),
        (6, 0),
        (7, 3),
        (8, 6),
        (38, 18),
        (41, 19),
        (44, 20),
        (18, 45),
        (19, 46),
        (20, 47),
        (45, 29),
        (46, 32),
        (47, 35),
        (29, 38),
        (32, 41),
        (35, 44),
    ];
    let mut expected = [0u8; 54];
    for i in 0..54 {
        expected[i] = i as u8;
    }
    for (from, to) in arrows {
        expected[to] = from as u8;
    }
    assert_eq!(r.inv_perm, expected);
}

#[test]
fn slice_turn_moves_twelve_stickers() {
    let m = matof(Command(Move::M, 1));
    let moved = (0..54).filter(|&i| m.inv_perm[i] != i as u8).count();
    assert_eq!(moved, 12);
    // The sticker in the middle of the upper face goes to the front face.
    assert_eq!(m.inv_perm[40], 22);
    let f = matof(Command(Move::F, 1));
    let moved = (0..54).filter(|&i| f.inv_perm[i] != i as u8).count();
    assert_eq!(moved, 20);
}

#[test]
fn wide_turns_are_a_face_and_the_slice_beside_it() {
    let pairs = [
        (Move::r, Command(Move::R, 1), Command(Move::M, -1)),
        (Move::l, Command(Move::L, 1), Command(Move::M, 1)),
        (Move::u, Command(Move::U, 1), Command(Move::E, -1)),
        (Move::d, Command(Move::D, 1), Command(Move::E, 1)),
        (Move::f, Command(Move::F, 1), Command(Move::S, 1)),
        (Move::b, Command(Move::B, 1), Command(Move::S, -1)),
    ];
    for (wide, face, slice) in pairs {
        for rep in [1, 2, -1, -2] {
            let all = matof(Command(wide, rep));
            let parts = matof(Command(face.0, face.1 * rep)) * matof(Command(slice.0, slice.1 * rep));
            assert_eq!(all, parts);
        }
    }
}

#[test]
fn turns_of_the_whole_cube_are_three_layers() {
    let x = matof(Command(Move::x, 1));
    let parts = matof(Command(Move::R, 1)) * matof(Command(Move::M, -1)) * matof(Command(Move::L, -1));
    assert_eq!(x, parts);
    let y = matof(Command(Move::y, 1));
    let parts = matof(Command(Move::U, 1)) * matof(Command(Move::E, -1)) * matof(Command(Move::D, -1));
    assert_eq!(y, parts);
    let z = matof(Command(Move::z, 1));
    let parts = matof(Command(Move::F, 1)) * matof(Command(Move::S, 1)) * matof(Command(Move::B, -1));
    assert_eq!(z, parts);
}

#[test]
fn quarter_turns_count_modulo_four() {
    for axis in [Axis::X, Axis::Y, Axis::Z] {
        for indices in 0..8u8 {
            let one = of(Rotation { axis, indices, clockwise: 1 });
            let mut power = PermutationMatrix::identity();
            for clockwise in 0..=12i8 {
                assert_eq!(of(Rotation { axis, indices, clockwise }), power);
                assert_eq!(of(Rotation { axis, indices, clockwise: -clockwise }), power.inv());
                power = one * power;
            }
            for clockwise in [i8::MIN, -127, 126, i8::MAX] {
                let m = of(Rotation { axis, indices, clockwise });
                let q = clockwise.rem_euclid(4);
                assert_eq!(m, of(Rotation { axis, indices, clockwise: q }));
            }
        }
    }
}

#[test]
fn no_layers_is_no_move() {
    for axis in [Axis::X, Axis::Y, Axis::Z] {
        for clockwise in [-2, -1, 0, 1, 2, 3] {
            let m = of(Rotation { axis, indices: 0, clockwise });
            assert_eq!(m, PermutationMatrix::identity());
        }
    }
}

#[test]
fn table_of_matrices_agrees_with_resolution() {
    let cache = Cache::new();
    for axis in [Axis::X, Axis::Y, Axis::Z] {
        for indices in 0..8u8 {
            for clockwise in [i8::MIN, -5, -4, -3, -2, -1, 0, 1, 2, 3, 4, 5, 6, i8::MAX] {
                let rot = Rotation { axis, indices, clockwise };
                assert_eq!(cache.get(rot), of(rot));
            }
        }
    }
    for mov in MOVE_LIST {
        for rep in [-2, -1, 1, 2] {
            let c = Command(mov, rep);
            assert_eq!(cache.get(rotation_of(c)), matof(c));
        }
    }
}

#[test]
fn same_color_check_compares_all_positions() {
    let id = PermutationMatrix::identity();
    assert!(same_color_check(&id, [0u8, 4, 8]));
    assert!(!same_color_check(&id, [0u8, 4, 9]));
    assert!(!same_color_check(&id, [9u8, 0, 4]));
    assert!(same_color_check(&id, [53u8]));
    assert!(same_color_check::<0>(&id, []));
    let r = matof(Command(Move::R, 1));
    // The right column of the upper face shows the colour of the front face.
    assert!(same_color_check(&r, [18u8, 19, 20, 36, 37, 39]));
    assert!(!same_color_check(&r, [18u8, 21]));
}
