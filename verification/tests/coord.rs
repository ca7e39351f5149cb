use rubikmaster::coord::{
    create_plane_group, piece_group_of, plane_number, rotation_of, surface_index_of,
    surface_number, surface_number_inv, Axis, Piece, Rotation, RotationPlane, Surface,
    SurfaceIndex, SURFACE_LIST,
};
use rubikmaster::{Command, Move};
use std::collections::HashSet;

#[test]
fn test_pos() {
    assert_eq!(surface_number(Surface::F, 2, 2), 44);
    assert_eq!(surface_number_inv(44), SurfaceIndex(Surface::F, 2, 2));
}

#[test]
fn test_surface_index_of() {
    assert_eq!(
        surface_index_of(Piece(0, 1, -1), Surface::B),
        Some(SurfaceIndex(Surface::B, 1, 2))
    );
    assert_eq!(
        surface_index_of(Piece(0, 1, 1), Surface::F),
        Some(SurfaceIndex(Surface::F, 0, 1))
    );
}

#[test]
fn test_surface_index_of_no_dup() {
    let mut h = HashSet::new();
    for x in -1..=1 {
        for y in -1..=1 {
            for z in -1..=1 {
                for surface in SURFACE_LIST {
                    let a = surface_index_of(Piece(x, y, z), surface);
                    if let Some(a) = a {
                        if h.contains(&a) {
                            panic!("{:?} is duplicated", a);
                        }
                        h.insert(a);
                    }
                }
            }
        }
    }
}

#[test]
fn facelet_numbers_run_through_the_surfaces() {
    let mut k = 0;
    for surface in SURFACE_LIST {
        for i in 0..3 {
            for j in 0..3 {
                assert_eq!(surface_number(surface, i, j), k);
                assert_eq!(surface_number_inv(k), SurfaceIndex(surface, i, j));
                k += 1;
            }
        }
    }
    assert_eq!(k, 54);
    assert_eq!(surface_number(Surface::R, 0, 0), 0);
    assert_eq!(surface_number(Surface::L, 1, 2), 14);
    assert_eq!(surface_number(Surface::B, 2, 2), 53);
    assert_eq!(surface_number_inv(0), SurfaceIndex(Surface::R, 0, 0));
    assert_eq!(surface_number_inv(31), SurfaceIndex(Surface::D, 1, 1));
}

#[test]
fn pieces_touch_one_two_or_three_surfaces() {
    let mut seen = HashSet::new();
    for x in -1..=1i8 {
        for y in -1..=1i8 {
            for z in -1..=1i8 {
                let mut count = 0;
                for surface in SURFACE_LIST {
                    if let Some(SurfaceIndex(s, i, j)) = surface_index_of(Piece(x, y, z), surface) {
                        assert_eq!(s, surface);
                        assert!(seen.insert(surface_number(s, i, j)));
                        count += 1;
                    }
                }
                let outer = [x, y, z].iter().filter(|c| **c != 0).count();
                assert_eq!(count, outer);
            }
        }
    }
    assert_eq!(seen.len(), 54);
}

#[test]
fn pieces_outside_the_cube_touch_nothing() {
    for surface in SURFACE_LIST {
        assert_eq!(surface_index_of(Piece(0, 0, 0), surface), None);
        assert_eq!(surface_index_of(Piece(2, 0, 0), surface), None);
        assert_eq!(surface_index_of(Piece(1, -2, 1), surface), None);
        assert_eq!(surface_index_of(Piece(1, 1, i8::MIN), surface), None);
        assert_eq!(surface_index_of(Piece(i8::MAX, 1, 1), surface), None);
    }
    assert_eq!(surface_index_of(Piece(1, 1, 1), Surface::L), None);
    assert_eq!(surface_index_of(Piece(1, 0, 0), Surface::U), None);
}

#[test]
fn positions_on_a_surface_follow_the_coordinates() {
    assert_eq!(
        surface_index_of(Piece(1, -1, 1), Surface::R),
        Some(SurfaceIndex(Surface::R, 0, 0))
    );
    assert_eq!(
        surface_index_of(Piece(-1, 1, -1), Surface::L),
        Some(SurfaceIndex(Surface::L, 0, 0))
    );
    assert_eq!(
        surface_index_of(Piece(1, 1, -1), Surface::U),
        Some(SurfaceIndex(Surface::U, 0, 0))
    );
    assert_eq!(
        surface_index_of(Piece(-1, -1, 1), Surface::D),
        Some(SurfaceIndex(Surface::D, 0, 0))
    );
    assert_eq!(
        surface_index_of(Piece(-1, 1, 1), Surface::F),
        Some(SurfaceIndex(Surface::F, 0, 0))
    );
    assert_eq!(
        surface_index_of(Piece(1, -1, -1), Surface::B),
        Some(SurfaceIndex(Surface::B, 0, 0))
    );
    assert_eq!(
        surface_index_of(Piece(1, 0, -1), Surface::R),
        Some(SurfaceIndex(Surface::R, 2, 1))
    );
    assert_eq!(
        surface_index_of(Piece(0, -1, 1), Surface::D),
        Some(SurfaceIndex(Surface::D, 0, 1))
    );
}

#[test]
fn plane_holds_its_nine_pieces() {
    let group = piece_group_of(RotationPlane(Axis::X, 1));
    assert_eq!(
        group,
        [
            Piece(1, -1, -1),
            Piece(1, -1, 0),
            Piece(1, -1, 1),
            Piece(1, 0, -1),
            Piece(1, 0, 0),
            Piece(1, 0, 1),
            Piece(1, 1, -1),
            Piece(1, 1, 0),
            Piece(1, 1, 1),
        ]
    );
    let group = piece_group_of(RotationPlane(Axis::Y, 0));
    assert_eq!(group[0], Piece(-1, 0, -1));
    assert_eq!(group[1], Piece(-1, 0, 0));
    assert_eq!(group[3], Piece(0, 0, -1));
    assert_eq!(group[8], Piece(1, 0, 1));
    let group = piece_group_of(RotationPlane(Axis::Z, -1));
    assert_eq!(group[0], Piece(-1, -1, -1));
    assert_eq!(group[2], Piece(-1, 1, -1));
    assert_eq!(group[6], Piece(1, -1, -1));
    for axis in [Axis::X, Axis::Y, Axis::Z] {
        for layer in -1..=1 {
            let group = piece_group_of(RotationPlane(axis, layer));
            let set: HashSet<Piece> = group.iter().copied().collect();
            assert_eq!(set.len(), 9);
            for Piece(x, y, z) in group {
                let along = match axis {
                    Axis::X => x,
                    Axis::Y => y,
                    Axis::Z => z,
                };
                assert_eq!(along, layer);
                assert!([x, y, z].iter().all(|c| (-1..=1).contains(c)));
            }
        }
    }
}

#[test]
fn table_of_planes_holds_every_plane_at_its_place() {
    let table = create_plane_group();
    assert_eq!(table.len(), 9);
    let mut places = HashSet::new();
    for axis in [Axis::X, Axis::Y, Axis::Z] {
        for layer in -1..=1 {
            let plane = RotationPlane(axis, layer);
            assert_eq!(table[plane_number(plane)], piece_group_of(plane));
            assert!(places.insert(plane_number(plane)));
        }
    }
    assert_eq!(plane_number(RotationPlane(Axis::X, -1)), 0);
    assert_eq!(plane_number(RotationPlane(Axis::Y, 0)), 4);
    assert_eq!(plane_number(RotationPlane(Axis::Z, 1)), 8);
}

#[test]
fn every_move_has_its_rotation() {
    let table = [
        (Move::R, Axis::X, 0b100, 1),
        (Move::L, Axis::X, 0b001, -1),
        (Move::U, Axis::Y, 0b100, 1),
        (Move::D, Axis::Y, 0b001, -1),
        (Move::F, Axis::Z, 0b100, 1),
        (Move::B, Axis::Z, 0b001, -1),
        (Move::r, Axis::X, 0b110, 1),
        (Move::l, Axis::X, 0b011, -1),
        (Move::u, Axis::Y, 0b110, 1),
        (Move::d, Axis::Y, 0b011, -1),
        (Move::f, Axis::Z, 0b110, 1),
        (Move::b, Axis::Z, 0b011, -1),
        (Move::x, Axis::X, 0b111, 1),
        (Move::y, Axis::Y, 0b111, 1),
        (Move::z, Axis::Z, 0b111, 1),
        (Move::M, Axis::X, 0b010, -1),
        (Move::E, Axis::Y, 0b010, -1),
        (Move::S, Axis::Z, 0b010, 1),
    ];
    for (mov, axis, indices, clockwise) in table {
        for rep in [-127, -2, -1, 1, 2, 3, 4, 127] {
            assert_eq!(
                rotation_of(Command(mov, rep)),
                Rotation { axis, indices, clockwise: clockwise * rep }
            );
        }
    }
    assert_eq!(
        rotation_of(Command(Move::R, i8::MIN)),
        Rotation { axis: Axis::X, indices: 0b100, clockwise: i8::MIN }
    );
}
