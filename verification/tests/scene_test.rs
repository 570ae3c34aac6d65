use phonon::scene::sampling::radical_inverse_digits;
use phonon::scene::scene::Scene;

#[test]
fn scene_commit_publishes_pending_meshes() {
    let mut scene = Scene::new();
    assert_eq!(0, scene.change_version());
    assert!(scene.static_meshes().is_empty());

    scene.add_static_mesh(7);
    scene.add_static_mesh(9);
    // Nothing is visible before a commit.
    assert!(scene.static_meshes().is_empty());

    scene.commit(&[]);
    assert_eq!(&[7, 9], scene.static_meshes());
    assert_eq!(1, scene.change_version());

    // A commit without changes keeps the version.
    scene.commit(&[]);
    assert_eq!(1, scene.change_version());
}

#[test]
fn scene_remove_bumps_version() {
    let mut scene = Scene::new();
    scene.add_static_mesh(1);
    scene.add_static_mesh(2);
    scene.add_static_mesh(1);
    scene.commit(&[]);
    assert_eq!(1, scene.change_version());

    scene.remove_static_mesh(1);
    scene.commit(&[]);
    assert_eq!(&[2], scene.static_meshes());
    // A removal is a change of the scene.
    assert_eq!(2, scene.change_version());
}

#[test]
fn scene_remove_undoes_add() {
    let mut scene = Scene::new();
    scene.add_static_mesh(3);
    scene.commit(&[]);
    scene.add_static_mesh(4);
    scene.remove_static_mesh(4);
    scene.commit(&[]);
    assert_eq!(&[3], scene.static_meshes());
}

#[test]
fn radical_inverse_digit_reversal() {
    // 6 = 110 in base 2, reversed 011 = 3.
    assert_eq!(Some((3, 3)), radical_inverse_digits(2, 6));
    // 5 = 12 in base 3, reversed 21 = 7.
    assert_eq!(Some((7, 2)), radical_inverse_digits(3, 5));
    assert_eq!(Some((0, 0)), radical_inverse_digits(5, 0));
    assert_eq!(Some((1, 1)), radical_inverse_digits(5, 1));
    // 1 = 1, 2 = 2 in base 5; 10 = 20 in base 5, reversed 02 = 2.
    assert_eq!(Some((2, 2)), radical_inverse_digits(5, 10));
    // The reversal of 2147483645 in base 3 needs more than 31 bits.
    assert_eq!(None, radical_inverse_digits(3, 2147483645));
}

use phonon::scene::static_mesh::front_face_index;

#[test]
fn back_faces_map_to_their_triangle() {
    assert_eq!(2, front_face_index(2, 3));
    assert_eq!(0, front_face_index(3, 3));
    assert_eq!(2, front_face_index(5, 3));
}

#[test]
fn radical_inverse_stays_below_one() {
    for p in [2i32, 3, 5] {
        for i in 0..200usize {
            let (reversed, digits) = radical_inverse_digits(p, i).unwrap();
            assert!(0 <= reversed);
            assert!((reversed as i64) < (p as i64).pow(digits));
        }
    }
}
