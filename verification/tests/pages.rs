use redscript_dap::pages::{frames_range, variables_range};

#[test]
fn pages_of_frames() {
    assert_eq!(frames_range(None, None, 5), Some((0, 5)));
    assert_eq!(frames_range(Some(0), Some(0), 5), Some((0, 5)));
    assert_eq!(frames_range(None, Some(3), 5), Some((0, 3)));
    assert_eq!(frames_range(Some(2), Some(2), 5), Some((2, 4)));
    assert_eq!(frames_range(Some(2), Some(20), 5), Some((2, 5)));
    assert_eq!(frames_range(Some(2), None, 5), Some((2, 5)));
    assert_eq!(frames_range(Some(5), None, 5), Some((5, 5)));
    assert_eq!(frames_range(None, None, 0), Some((0, 0)));
}

#[test]
fn no_levels_behind_the_first_frame() {
    assert_eq!(frames_range(Some(2), Some(0), 5), Some((2, 2)));
}

#[test]
fn pages_of_frames_that_are_not_there() {
    assert_eq!(frames_range(Some(6), None, 5), None);
    assert_eq!(frames_range(Some(-1), None, 5), None);
    assert_eq!(frames_range(Some(i64::MIN), Some(1), 5), None);
}

#[test]
fn negative_levels() {
    assert_eq!(frames_range(None, Some(-3), 5), Some((0, 5)));
    assert_eq!(frames_range(Some(2), Some(-3), 5), Some((2, 5)));
    assert_eq!(frames_range(Some(3), Some(-3), 5), None);
}

#[test]
fn pages_of_variables() {
    assert_eq!(variables_range(None, None, 5), Some((0, 5)));
    assert_eq!(variables_range(Some(1), Some(2), 5), Some((1, 3)));
    assert_eq!(variables_range(Some(1), Some(0), 5), Some((1, 5)));
    assert_eq!(variables_range(Some(4), Some(10), 5), Some((4, 5)));
    assert_eq!(variables_range(Some(5), Some(1), 5), Some((5, 5)));
    assert_eq!(variables_range(None, Some(-1), 5), Some((0, 5)));
}

#[test]
fn pages_of_variables_that_are_not_there() {
    assert_eq!(variables_range(Some(6), None, 5), None);
    assert_eq!(variables_range(Some(-1), Some(1), 5), None);
    assert_eq!(variables_range(Some(1), Some(-1), 5), None);
}
