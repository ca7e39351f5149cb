use rubikmaster::component::{make_color_list, pieces_of, Playback, Props};
use rubikmaster::coord::{rotation_of, Axis, Piece, Rotation};
use rubikmaster::matrix::{matof, of, PermutationMatrix};
use rubikmaster::{Command, Move};
use std::collections::HashSet;

#[test]
fn every_facelet_has_the_colour_of_its_surface() {
    let list = make_color_list(['r', 'l', 'u', 'd', 'f', 'b']);
    for k in 0..54 {
        assert_eq!(list[k], ['r', 'l', 'u', 'd', 'f', 'b'][k / 9]);
    }
    let list = make_color_list([(1.0, 0.5), (0.0, 0.0), (2.0, 1.0), (3.0, 0.0), (4.0, 4.0), (5.0, 1.5)]);
    assert_eq!(list[0], (1.0, 0.5));
    assert_eq!(list[9], (0.0, 0.0));
    assert_eq!(list[26], (2.0, 1.0));
    assert_eq!(list[53], (5.0, 1.5));
}

#[test]
fn rotation_carries_the_pieces_of_its_layers() {
    let pieces = pieces_of(rotation_of(Command(Move::R, 1)));
    assert_eq!(pieces.len(), 9);
    assert!(pieces.iter().all(|p| p.0 == 1));
    let pieces = pieces_of(rotation_of(Command(Move::d, 1)));
    assert_eq!(pieces.len(), 18);
    assert!(pieces.iter().all(|p| p.1 <= 0));
    let set: HashSet<Piece> = pieces.iter().copied().collect();
    assert_eq!(set.len(), 18);
    let pieces = pieces_of(rotation_of(Command(Move::z, 2)));
    let set: HashSet<Piece> = pieces.iter().copied().collect();
    assert_eq!(set.len(), 27);
    let pieces = pieces_of(rotation_of(Command(Move::S, -1)));
    assert!(pieces.contains(&Piece(0, 0, 0)));
    assert!(pieces.contains(&Piece(1, -1, 0)));
    assert!(!pieces.contains(&Piece(1, -1, 1)));
    assert!(pieces_of(Rotation { axis: Axis::X, indices: 0, clockwise: 1 }).is_empty());
    let pieces = pieces_of(Rotation { axis: Axis::X, indices: 0b101, clockwise: 1 });
    assert_eq!(pieces.len(), 18);
    assert!(pieces.iter().all(|p| p.0 != 0));
}

#[test]
fn playback_goes_from_turn_to_turn() {
    let start = matof(Command(Move::F, 1));
    let commands = [Command(Move::R, 1), Command(Move::U, -2)];
    let list: Vec<Rotation> = commands.iter().map(|c| rotation_of(*c)).collect();
    let props = Props {
        init_state: start,
        command_list: list,
        blacklist: [0u8, 45].into_iter().collect(),
    };
    assert!(props.is_wf());
    let mut playback = Playback::new(props);
    assert_eq!(playback.state(), start);
    // The front face was turned: the sticker of facelet 38 lies on facelet 44
    // now and that of facelet 26 on facelet 2. The stickers of the facelets 0
    // and 45 are dimmed where they lie, on the facelets 27 and 45.
    assert_eq!(playback.sticker_at(44), Some(38));
    assert_eq!(playback.sticker_at(2), Some(26));
    assert_eq!(playback.sticker_at(4), Some(4));
    assert_eq!(playback.sticker_at(45), None);
    assert_eq!(playback.sticker_at(27), None);
    assert_eq!(playback.sticker_at(0), Some(20));

    let turn = playback.advance().unwrap();
    assert_eq!(turn.axis, Axis::X);
    assert_eq!(turn.clockwise, 1);
    assert_eq!(turn.pieces.len(), 9);
    assert!(turn.pieces.iter().all(|p| p.0 == 1));
    assert_eq!(playback.state(), start);

    let turn = playback.advance().unwrap();
    assert_eq!(turn.axis, Axis::Y);
    assert_eq!(turn.clockwise, -2);
    assert!(turn.pieces.iter().all(|p| p.1 == 1));
    let after_first = of(rotation_of(commands[0])) * start;
    assert_eq!(playback.state(), after_first);

    assert!(playback.advance().is_none());
    let after_second = of(rotation_of(commands[1])) * after_first;
    assert_eq!(playback.state(), after_second);
    assert!(playback.advance().is_none());
    assert_eq!(playback.state(), after_second);
}

#[test]
fn playback_without_rotations_stays() {
    let props = Props {
        init_state: PermutationMatrix::identity(),
        command_list: vec![],
        blacklist: HashSet::new(),
    };
    let mut playback = Playback::new(props);
    assert!(playback.advance().is_none());
    assert_eq!(playback.state(), PermutationMatrix::identity());
    for k in 0..54 {
        assert_eq!(playback.sticker_at(k), Some(k));
    }
}

#[test]
fn properties_are_checked() {
    let good = Props {
        init_state: PermutationMatrix::identity(),
        command_list: vec![Rotation { axis: Axis::Z, indices: 7, clockwise: -3 }],
        blacklist: HashSet::new(),
    };
    assert!(good.is_wf());
    let layers = Props {
        init_state: PermutationMatrix::identity(),
        command_list: vec![
            Rotation { axis: Axis::Z, indices: 7, clockwise: -3 },
            Rotation { axis: Axis::Z, indices: 8, clockwise: 1 },
        ],
        blacklist: HashSet::new(),
    };
    assert!(!layers.is_wf());
    let state = Props {
        init_state: PermutationMatrix { inv_perm: [0; 54] },
        command_list: vec![],
        blacklist: HashSet::new(),
    };
    assert!(!state.is_wf());
}
