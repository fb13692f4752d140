use windex::drag::{MOVE_BUTTON, RESIZE_BUTTON};
use windex::layout::{center, shift, stretch};
use windex::{DragState, Geometry};

#[test]
fn move_button_carries_the_origin() {
    let g = Geometry { x: 10, y: 10, width: 100, height: 50 };
    let drag = DragState::new(MOVE_BUTTON, 5, 10, 10, g);
    assert_eq!(drag.target(30, 20), Geometry { x: 30, y: 20, width: 100, height: 50 });
    assert_eq!(drag.target(0, 5), Geometry { x: 0, y: 5, width: 100, height: 50 });
}

#[test]
fn resize_button_grows_the_size() {
    let g = Geometry { x: 10, y: 10, width: 100, height: 50 };
    let drag = DragState::new(RESIZE_BUTTON, 5, 200, 200, g);
    assert_eq!(drag.target(230, 190), Geometry { x: 10, y: 10, width: 130, height: 40 });
}

#[test]
fn resize_never_goes_below_one() {
    let g = Geometry { x: 0, y: 0, width: 1, height: 1 };
    let drag = DragState::new(RESIZE_BUTTON, 5, 100, 100, g);
    assert_eq!(drag.target(50, 20), Geometry { x: 0, y: 0, width: 1, height: 1 });
    assert_eq!(drag.target(i32::MIN, i32::MIN).width, 1);
    assert_eq!(drag.target(i32::MIN, i32::MIN).height, 1);
    let wide = DragState::new(RESIZE_BUTTON, 5, 100, 100, Geometry { x: 0, y: 0, width: 30, height: 40 });
    assert_eq!(wide.target(71, 61), Geometry { x: 0, y: 0, width: 1, height: 1 });
    assert_eq!(wide.target(72, 62), Geometry { x: 0, y: 0, width: 2, height: 2 });
}

#[test]
fn other_buttons_change_nothing_but_a_zero_size() {
    let g = Geometry { x: 3, y: 4, width: 0, height: 7 };
    let drag = DragState::new(2, 5, 0, 0, g);
    assert_eq!(drag.target(50, 60), Geometry { x: 3, y: 4, width: 1, height: 7 });
}

#[test]
fn shift_and_stretch_saturate() {
    assert_eq!(shift(i32::MAX, 0, 10), i32::MAX);
    assert_eq!(shift(i32::MIN, 10, 0), i32::MIN);
    assert_eq!(shift(5, i32::MAX, i32::MIN), i32::MIN);
    assert_eq!(shift(-7, 2, 12), 3);
    assert_eq!(stretch(u32::MAX, 0, 1), u32::MAX);
    assert_eq!(stretch(10, 0, -10), 1);
    assert_eq!(stretch(10, 0, -9), 1);
    assert_eq!(stretch(10, 0, -8), 2);
    assert_eq!(stretch(10, -5, 5), 20);
}

#[test]
fn center_is_half_of_what_is_left() {
    assert_eq!(center(1920, 800), 560);
    assert_eq!(center(1080, 600), 240);
    assert_eq!(center(100, 101), 0);
    assert_eq!(center(100, 103), -1);
    assert_eq!(center(100, 100), 0);
    assert_eq!(center(101, 100), 0);
    assert_eq!(center(0, u32::MAX), -2147483647);
    assert_eq!(center(i32::MIN, u32::MAX), i32::MIN);
    assert_eq!(center(i32::MAX, 0), 1073741823);
}
