use gif_toolkit::fixtures::{paint, Shape};

#[test]
fn painted_rectangle_covers_its_half_open_ranges() {
    let shape = Shape::Rectangle { left: 1, right: 3, top: 0, bottom: 2 };
    let picture = paint(4, 3, shape, 7);
    assert_eq!(picture, vec![0, 7, 7, 0, 0, 7, 7, 0, 0, 0, 0, 0]);
    assert!(shape.contains(1, 0));
    assert!(shape.contains(2, 1));
    assert!(!shape.contains(3, 1));
    assert!(!shape.contains(1, 2));
    assert!(!shape.contains(0, 0));
}

#[test]
fn painted_rectangle_is_cut_at_the_edge() {
    let shape = Shape::Rectangle { left: 2, right: 100, top: 1, bottom: 100 };
    let picture = paint(3, 2, shape, 9);
    assert_eq!(picture, vec![0, 0, 0, 0, 0, 9]);
    let nothing = Shape::Rectangle { left: 2, right: 2, top: 0, bottom: 5 };
    assert_eq!(paint(3, 2, nothing, 9), vec![0; 6]);
}

#[test]
fn painted_disc_is_open_at_its_radius() {
    // radius 2 around (2, 2): distance squared below 4
    let shape = Shape::Disc { center_x: 2, center_y: 2, radius_squared: 4 };
    let picture = paint(5, 5, shape, 1);
    assert_eq!(
        picture,
        vec![
            0, 0, 0, 0, 0, //
            0, 1, 1, 1, 0, //
            0, 1, 1, 1, 0, //
            0, 1, 1, 1, 0, //
            0, 0, 0, 0, 0,
        ]
    );
}

#[test]
fn painted_disc_may_lie_off_the_picture() {
    let shape = Shape::Disc { center_x: -1, center_y: 0, radius_squared: 5 };
    let picture = paint(3, 2, shape, 4);
    // distances squared from (-1, 0): 1, 4, 9 in the first row; 2, 5, 10 in the second
    assert_eq!(picture, vec![4, 4, 0, 4, 0, 0]);
    let far = Shape::Disc { center_x: i32::MIN, center_y: i32::MAX, radius_squared: u32::MAX };
    assert_eq!(paint(2, 2, far, 4), vec![0; 4]);
}

#[test]
fn pictures_without_extent_are_empty() {
    let shape = Shape::Rectangle { left: 0, right: 10, top: 0, bottom: 10 };
    assert_eq!(paint(0, 5, shape, 1), Vec::<u8>::new());
    assert_eq!(paint(5, 0, shape, 1), Vec::<u8>::new());
}
