use rubikmaster::cfop::{f2l_solved, oll_solved, solved, F2L_LIST, OLL_LIST, PLL_LIST};
use rubikmaster::coord::rotation_of;
use rubikmaster::matrix::{self, PermutationMatrix};
use rubikmaster::parser;
use rubikmaster::{flatten, Command, Move};

fn of(c: Command) -> PermutationMatrix {
    matrix::of(rotation_of(c))
}

#[test]
fn test_solved_no_effect() {
    let mut m = PermutationMatrix::identity();
    for mov in [Move::x, Move::y, Move::z] {
        let u = of(Command(mov, 1));
        for _ in 0..1000 {
            m = u * m;
            assert!(solved(&m));
        }
    }
}

#[test]
fn test_solved() {
    let mut m = PermutationMatrix::identity();
    for mov in [Move::U, Move::D, Move::F, Move::B, Move::R, Move::L] {
        let c = of(Command(mov, 1));
        assert!(solved(&m));
        m = c * m;
        assert!(!solved(&m));
        m = c * m;
        assert!(!solved(&m));
        m = c * m;
        assert!(!solved(&m));
        m = c * m;
        assert!(solved(&m));
    }
}

#[test]
fn test_f2l_solved_ux() {
    let mut m = PermutationMatrix::identity();
    let u = of(Command(Move::U, 1));
    m = u * m;
    assert!(oll_solved(&m));
    let x = of(Command(Move::x, 1));
    m = x * m;
    assert!(!oll_solved(&m));
}

#[test]
fn test_f2l_solved_fx() {
    let mut m = PermutationMatrix::identity();
    let f = of(Command(Move::F, 1));
    m = f * m;
    assert!(!oll_solved(&m));
    let x = of(Command(Move::x, 1));
    m = x * m;
    assert!(oll_solved(&m));
}

#[test]
fn test_f2l_solved_lz() {
    let mut m = PermutationMatrix::identity();
    let f = of(Command(Move::L, 1));
    m = f * m;
    assert!(!oll_solved(&m));
    let x = of(Command(Move::z, 1));
    m = x * m;
    assert!(oll_solved(&m));
}

#[test]
fn test_f2l_solved_xu() {
    let mut m = PermutationMatrix::identity();
    let f = of(Command(Move::x, 1));
    m = f * m;
    assert!(oll_solved(&m));
    let x = of(Command(Move::U, 1));
    m = x * m;
    assert!(oll_solved(&m));
}

#[test]
fn test_f2l_solved_no_effect() {
    let mut m = PermutationMatrix::identity();
    for mov in [Move::U, Move::d, Move::x, Move::y, Move::z] {
        let u = of(Command(mov, 1));
        for _ in 0..1000 {
            m = u * m;
            assert!(oll_solved(&m));
        }
    }
}

#[test]
fn test_f2l_solved_4times() {
    let mut m = PermutationMatrix::identity();
    for mov in [
        Move::D,
        Move::F,
        Move::B,
        Move::R,
        Move::L,
        Move::u,
        Move::f,
        Move::b,
        Move::r,
        Move::l,
    ] {
        let c = of(Command(mov, 1));
        assert!(oll_solved(&m));
        m = c * m;
        assert!(!oll_solved(&m));
        m = c * m;
        assert!(!oll_solved(&m));
        m = c * m;
        assert!(!oll_solved(&m));
        m = c * m;
        assert!(oll_solved(&m));
    }
}

#[test]
fn test_f2l_parse() {
    for seq in F2L_LIST {
        assert!(parser::parse(&seq).is_ok());
    }
}

#[test]
fn test_pll_list() {
    for (perm, seq) in PLL_LIST {
        println!("perm={}", perm);
        let mut m = PermutationMatrix::identity();
        let elems = parser::parse(&seq).unwrap().1;
        let cs = flatten(elems);
        for c in cs {
            m = of(c) * m;
        }
        m = m.inv();
        assert!(!solved(&m));
        assert!(oll_solved(&m));
    }
}

#[test]
fn test_oll_list() {
    let mut no = 0;
    for seq in OLL_LIST {
        no += 1;
        println!("OLL-{}", no);
        let mut m = PermutationMatrix::identity();
        let elems = parser::parse(&seq).unwrap().1;
        let cs = flatten(elems);
        for c in cs {
            m = of(c) * m;
        }
        m = m.inv();
        assert!(!solved(&m));
        assert!(f2l_solved(&m));
    }
}
