use redpiler::geometry::{BlockDirection, BlockFace, BlockPos};

#[test]
fn offset_moves_one_step_and_back() {
    let p = BlockPos::new(3, -7, 12);
    assert_eq!(p.offset(BlockFace::Top), BlockPos::new(3, -6, 12));
    assert_eq!(p.offset(BlockFace::Bottom), BlockPos::new(3, -8, 12));
    assert_eq!(p.offset(BlockFace::North), BlockPos::new(3, -7, 11));
    assert_eq!(p.offset(BlockFace::South), BlockPos::new(3, -7, 13));
    assert_eq!(p.offset(BlockFace::East), BlockPos::new(4, -7, 12));
    assert_eq!(p.offset(BlockFace::West), BlockPos::new(2, -7, 12));
    for face in BlockFace::values() {
        assert_eq!(p.offset(face).offset(face.opposite()), p);
    }
}

#[test]
fn keys_tell_positions_apart() {
    let p = BlockPos::new(1, 2, 3);
    assert_eq!(p.key(), (1, 2, 3));
    assert_ne!(p.key(), BlockPos::new(3, 2, 1).key());
}

#[test]
fn values_lists_every_face_once() {
    let faces = BlockFace::values();
    assert_eq!(
        faces,
        [BlockFace::Top, BlockFace::Bottom, BlockFace::North, BlockFace::South, BlockFace::East, BlockFace::West]
    );
    for (i, a) in faces.iter().enumerate() {
        for b in faces.iter().skip(i + 1) {
            assert_ne!(a, b);
        }
    }
}

#[test]
fn face_opposites_pair_up() {
    for face in BlockFace::values() {
        assert_ne!(face.opposite(), face);
        assert_eq!(face.opposite().opposite(), face);
        assert_eq!(face.opposite().is_horizontal(), face.is_horizontal());
    }
    assert!(!BlockFace::Top.is_horizontal());
    assert_eq!(BlockFace::East.unwrap_direction(), BlockDirection::East);
}

#[test]
fn direction_turns_undo_each_other() {
    let all = [BlockDirection::North, BlockDirection::East, BlockDirection::South, BlockDirection::West];
    assert_eq!(BlockDirection::North.rotate(), BlockDirection::East);
    assert_eq!(BlockDirection::North.rotate_ccw(), BlockDirection::West);
    for d in all {
        assert_eq!(d.rotate().rotate_ccw(), d);
        assert_eq!(d.rotate_ccw().rotate(), d);
        assert_eq!(d.rotate().rotate(), d.opposite());
        assert_eq!(d.opposite().block_face(), d.block_face().opposite());
        assert_eq!(d.block_face().unwrap_direction(), d);
    }
}

#[test]
fn sign_rotations_name_directions() {
    assert_eq!(BlockDirection::from_rotation(0), Some(BlockDirection::South));
    assert_eq!(BlockDirection::from_rotation(4), Some(BlockDirection::West));
    assert_eq!(BlockDirection::from_rotation(8), Some(BlockDirection::North));
    assert_eq!(BlockDirection::from_rotation(12), Some(BlockDirection::East));
    assert_eq!(BlockDirection::from_rotation(3), None);
}
