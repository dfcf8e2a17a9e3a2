use clicker_core::mouse::{
    get_button_flags, get_cursor_pos, make_input, send_clicks, smooth_move_schedule,
    smooth_move_stays,
    ButtonDirection, ClickStep, MouseButton, LEFTDOWN, LEFTUP, MIDDLEDOWN, MIDDLEUP, RIGHTDOWN,
    RIGHTUP,
};

#[test]
fn button_numbers_give_flags() {
    assert_eq!(get_button_flags(1), (0x0002, 0x0004));
    assert_eq!(get_button_flags(2), (0x0008, 0x0010));
    assert_eq!(get_button_flags(3), (0x0020, 0x0040));
    assert_eq!(get_button_flags(0), (LEFTDOWN, LEFTUP));
    assert_eq!(get_button_flags(-7), (LEFTDOWN, LEFTUP));
}

#[test]
fn flags_give_button_and_direction() {
    assert_eq!(make_input(LEFTDOWN, 0), (MouseButton::Left, ButtonDirection::Press));
    assert_eq!(make_input(LEFTUP, 0), (MouseButton::Left, ButtonDirection::Release));
    assert_eq!(make_input(RIGHTDOWN, 9), (MouseButton::Right, ButtonDirection::Press));
    assert_eq!(make_input(RIGHTUP, 0), (MouseButton::Right, ButtonDirection::Release));
    assert_eq!(make_input(MIDDLEDOWN, 0), (MouseButton::Middle, ButtonDirection::Press));
    assert_eq!(make_input(MIDDLEUP, 0), (MouseButton::Middle, ButtonDirection::Release));
    assert_eq!(make_input(0, 0), (MouseButton::Left, ButtonDirection::Release));
    // Right wins over middle.
    assert_eq!(make_input(RIGHTUP | MIDDLEDOWN, 0), (MouseButton::Right, ButtonDirection::Press));
}

#[test]
fn button_flags_press_and_release_the_same_button() {
    for (number, button) in [(1, MouseButton::Left), (2, MouseButton::Right), (3, MouseButton::Middle), (9, MouseButton::Left)] {
        let (down, up) = get_button_flags(number);
        assert_eq!(make_input(down, 0), (button, ButtonDirection::Press));
        assert_eq!(make_input(up, 0), (button, ButtonDirection::Release));
    }
}

#[test]
fn cursor_falls_back_to_origin() {
    assert_eq!(get_cursor_pos(Some((12, -3))), (12, -3));
    assert_eq!(get_cursor_pos(None), (0, 0));
}

#[test]
fn empty_run_stops() {
    assert_eq!(send_clicks(2, 4, 0, 0, false, 0, 0, true), ClickStep::Stop);
}

#[test]
fn quick_run_is_one_batch() {
    assert_eq!(send_clicks(2, 4, 5, 0, false, 0, 0, false), ClickStep::Batch { down: 2, up: 4, count: 5 });
    assert_eq!(send_clicks(2, 4, 5, 0, false, 0, 1, true), ClickStep::Stop);
}

#[test]
fn single_click_is_not_batched() {
    assert_eq!(
        send_clicks(2, 4, 1, 0, false, 0, 0, true),
        ClickStep::Click { down: 2, hold_ms: None, up: 4, pause_ms: None }
    );
}

#[test]
fn held_clicks_with_gap() {
    let step = |i: usize, running: bool| send_clicks(8, 16, 2, 50, true, 100, i, running);
    assert_eq!(step(0, true), ClickStep::Click { down: 8, hold_ms: Some(50), up: 16, pause_ms: Some(100) });
    assert_eq!(step(1, true), ClickStep::Click { down: 8, hold_ms: Some(50), up: 16, pause_ms: None });
    assert_eq!(step(2, true), ClickStep::Stop);
    assert_eq!(step(0, false), ClickStep::Stop);
}

#[test]
fn running_run_makes_count_clicks() {
    let mut clicks = 0;
    let mut index = 0;
    loop {
        match send_clicks(2, 4, 7, 1, false, 30, index, true) {
            ClickStep::Click { pause_ms, .. } => {
                assert_eq!(pause_ms, None);
                clicks += 1;
                index += 1;
            }
            ClickStep::Stop => break,
            ClickStep::Batch { .. } => panic!("a held run is not batched"),
        }
    }
    assert_eq!(clicks, 7);
}

#[test]
fn smooth_move_steps() {
    assert_eq!(smooth_move_schedule(0), None);
    assert_eq!(smooth_move_schedule(4), None);
    assert_eq!(smooth_move_schedule(5), Some((10, 0)));
    assert_eq!(smooth_move_schedule(12), Some((12, 1)));
    assert_eq!(smooth_move_schedule(100), Some((100, 1)));
    assert_eq!(smooth_move_schedule(1_000), Some((200, 5)));
}

#[test]
fn smooth_move_stays_only_at_the_same_point() {
    assert!(smooth_move_stays(5, -3, 5, -3));
    assert!(!smooth_move_stays(5, -3, 6, -3));
    assert!(!smooth_move_stays(5, -3, 5, -2));
    assert!(!smooth_move_stays(i32::MIN, 0, i32::MAX, 0));
}
