//! Mouse button flags, the input event they stand for, and the schedule of a
//! run of clicks.
use vstd::prelude::*;

verus! {

/// The flag of a left button press.
pub const LEFTDOWN: u32 = 0x0002;

/// The flag of a left button release.
pub const LEFTUP: u32 = 0x0004;

/// The flag of a right button press.
pub const RIGHTDOWN: u32 = 0x0008;

/// The flag of a right button release.
pub const RIGHTUP: u32 = 0x0010;

/// The flag of a middle button press.
pub const MIDDLEDOWN: u32 = 0x0020;

/// The flag of a middle button release.
pub const MIDDLEUP: u32 = 0x0040;

/// A mouse button.
#[derive(Clone, Copy, Debug, PartialEq, Eq, Structural)]
pub enum MouseButton {
    Left,
    Right,
    Middle,
}

/// Whether a button goes down or comes up.
#[derive(Clone, Copy, Debug, PartialEq, Eq, Structural)]
pub enum ButtonDirection {
    Press,
    Release,
}

/// The button and direction that the flags `flags` stand for: a right flag
/// means the right button, else a middle flag the middle one, else the left
/// one; a press flag means a press, else it is a release.
pub open spec fn input_for(flags: u32) -> (MouseButton, ButtonDirection) {
    (
        if flags & (RIGHTDOWN | RIGHTUP) != 0 {
            MouseButton::Right
        } else if flags & (MIDDLEDOWN | MIDDLEUP) != 0 {
            MouseButton::Middle
        } else {
            MouseButton::Left
        },
        if flags & (LEFTDOWN | RIGHTDOWN | MIDDLEDOWN) != 0 {
            ButtonDirection::Press
        } else {
            ButtonDirection::Release
        },
    )
}

/// The input event for the flags `flags`; the time stamp is not used.
pub fn make_input(flags: u32, _time: u32) -> (input: (MouseButton, ButtonDirection))
    ensures
        input == input_for(flags),
{
    let button = if flags & (RIGHTDOWN | RIGHTUP) != 0 {
        MouseButton::Right
    } else if flags & (MIDDLEDOWN | MIDDLEUP) != 0 {
        MouseButton::Middle
    } else {
        MouseButton::Left
    };
    let direction = if flags & (LEFTDOWN | RIGHTDOWN | MIDDLEDOWN) != 0 {
        ButtonDirection::Press
    } else {
        ButtonDirection::Release
    };
    (button, direction)
}

/// The press and release flags of a button number: 2 is the right button, 3
/// the middle one, any other number the left one.
pub open spec fn button_flags(button: i32) -> (u32, u32) {
    if button == 2 {
        (RIGHTDOWN, RIGHTUP)
    } else if button == 3 {
        (MIDDLEDOWN, MIDDLEUP)
    } else {
        (LEFTDOWN, LEFTUP)
    }
}

/// The press and release flags of the button numbered `button`.
pub fn get_button_flags(button: i32) -> (flags: (u32, u32))
    ensures
        flags == button_flags(button),
{
    match button {
        2 => (RIGHTDOWN, RIGHTUP),
        3 => (MIDDLEDOWN, MIDDLEUP),
        _ => (LEFTDOWN, LEFTUP),
    }
}

/// The button that a button number stands for.
pub open spec fn button_of(button: i32) -> MouseButton {
    if button == 2 {
        MouseButton::Right
    } else if button == 3 {
        MouseButton::Middle
    } else {
        MouseButton::Left
    }
}

/// The flags of a button number stand for a press and a release of that same
/// button.
pub proof fn lemma_button_flags_round_trip(button: i32)
    ensures
        input_for(button_flags(button).0) == (button_of(button), ButtonDirection::Press),
        input_for(button_flags(button).1) == (button_of(button), ButtonDirection::Release),
{
    assert(RIGHTDOWN & (RIGHTDOWN | RIGHTUP) != 0) by (bit_vector);
    assert(RIGHTDOWN & (LEFTDOWN | RIGHTDOWN | MIDDLEDOWN) != 0) by (bit_vector);
    assert(RIGHTUP & (RIGHTDOWN | RIGHTUP) != 0) by (bit_vector);
    assert(RIGHTUP & (LEFTDOWN | RIGHTDOWN | MIDDLEDOWN) == 0) by (bit_vector);
    assert(MIDDLEDOWN & (RIGHTDOWN | RIGHTUP) == 0) by (bit_vector);
    assert(MIDDLEDOWN & (MIDDLEDOWN | MIDDLEUP) != 0) by (bit_vector);
    assert(MIDDLEDOWN & (LEFTDOWN | RIGHTDOWN | MIDDLEDOWN) != 0) by (bit_vector);
    assert(MIDDLEUP & (RIGHTDOWN | RIGHTUP) == 0) by (bit_vector);
    assert(MIDDLEUP & (MIDDLEDOWN | MIDDLEUP) != 0) by (bit_vector);
    assert(MIDDLEUP & (LEFTDOWN | RIGHTDOWN | MIDDLEDOWN) == 0) by (bit_vector);
    assert(LEFTDOWN & (RIGHTDOWN | RIGHTUP) == 0) by (bit_vector);
    assert(LEFTDOWN & (MIDDLEDOWN | MIDDLEUP) == 0) by (bit_vector);
    assert(LEFTDOWN & (LEFTDOWN | RIGHTDOWN | MIDDLEDOWN) != 0) by (bit_vector);
    assert(LEFTUP & (RIGHTDOWN | RIGHTUP) == 0) by (bit_vector);
    assert(LEFTUP & (MIDDLEDOWN | MIDDLEUP) == 0) by (bit_vector);
    assert(LEFTUP & (LEFTDOWN | RIGHTDOWN | MIDDLEDOWN) == 0) by (bit_vector);
}

/// The cursor position given what reading it gave: the position read, or the
/// origin where it could not be read.
pub fn get_cursor_pos(position: Option<(i32, i32)>) -> (pos: (i32, i32))
    ensures
        pos == match position {
            Some(p) => p,
            None => (0i32, 0i32),
        },
{
    match position {
        Some(p) => p,
        None => (0, 0),
    }
}

// ---------------------------------------------------------------------------
// A run of clicks
// ---------------------------------------------------------------------------

/// What the clicker does next in a run of clicks.
#[derive(Clone, Copy, Debug, PartialEq, Eq, Structural)]
pub enum ClickStep {
    /// Send `count` presses and releases at once, and end the run.
    Batch { down: u32, up: u32, count: usize },
    /// Press, wait `hold_ms` if given, release, then wait `pause_ms` if given.
    Click { down: u32, hold_ms: Option<u32>, up: u32, pause_ms: Option<u32> },
    /// End the run.
    Stop,
}

/// Whether a run is sent as one batch: more than one click, no hold and no
/// gap between clicks.
pub open spec fn is_batch(count: usize, hold_ms: u32, use_double_click_gap: bool) -> bool {
    !use_double_click_gap && count > 1 && hold_ms == 0
}

/// The step at position `index` of a run of `count` clicks, where `running`
/// says whether the clicker is still on. An empty run stops at once; a batch
/// run sends its batch first and then stops; any other run makes click
/// `index` while the clicker is on and clicks remain, holding for `hold_ms`
/// where that is not zero and pausing for the double-click delay after each
/// click but the last where the gap is used and the delay is not zero.
pub open spec fn click_step(
    down: u32,
    up: u32,
    count: usize,
    hold_ms: u32,
    use_double_click_gap: bool,
    double_click_delay_ms: u32,
    index: usize,
    running: bool,
) -> ClickStep {
    if count == 0 {
        ClickStep::Stop
    } else if is_batch(count, hold_ms, use_double_click_gap) {
        if index == 0 {
            ClickStep::Batch { down, up, count }
        } else {
            ClickStep::Stop
        }
    } else if index >= count || !running {
        ClickStep::Stop
    } else {
        ClickStep::Click {
            down,
            hold_ms: if hold_ms > 0 {
                Some(hold_ms)
            } else {
                None
            },
            up,
            pause_ms: if index + 1 < count && use_double_click_gap && double_click_delay_ms > 0 {
                Some(double_click_delay_ms)
            } else {
                None
            },
        }
    }
}

/// The next step of a run of clicks, taken at position `index` (0 for the
/// first step, one more after each click) with `running` read just before.
pub fn send_clicks(
    down: u32,
    up: u32,
    count: usize,
    hold_ms: u32,
    use_double_click_gap: bool,
    double_click_delay_ms: u32,
    index: usize,
    running: bool,
) -> (step: ClickStep)
    ensures
        step == click_step(
            down,
            up,
            count,
            hold_ms,
            use_double_click_gap,
            double_click_delay_ms,
            index,
            running,
        ),
{
    if count == 0 {
        return ClickStep::Stop;
    }
    if !use_double_click_gap && count > 1 && hold_ms == 0 {
        if index == 0 {
            return ClickStep::Batch { down, up, count };
        }
        return ClickStep::Stop;
    }
    if index >= count || !running {
        return ClickStep::Stop;
    }
    let hold = if hold_ms > 0 {
        Some(hold_ms)
    } else {
        None
    };
    let pause = if index + 1 < count && use_double_click_gap && double_click_delay_ms > 0 {
        Some(double_click_delay_ms)
    } else {
        None
    };
    ClickStep::Click { down, hold_ms: hold, up, pause_ms: pause }
}

/// A run during which the clicker stays on makes exactly `count` clicks: a
/// batch run sends all `count` at the first step and stops; any other run
/// clicks at each of the positions `0..count`, pausing after none but the
/// earlier ones, and stops at position `count`.
pub proof fn lemma_run_makes_count_clicks(
    down: u32,
    up: u32,
    count: usize,
    hold_ms: u32,
    use_double_click_gap: bool,
    double_click_delay_ms: u32,
)
    ensures
        count > 0 && is_batch(count, hold_ms, use_double_click_gap) ==> click_step(
            down,
            up,
            count,
            hold_ms,
            use_double_click_gap,
            double_click_delay_ms,
            0,
            true,
        ) == (ClickStep::Batch { down, up, count }),
        !is_batch(count, hold_ms, use_double_click_gap) ==> forall|i: usize|
            i < count ==> (#[trigger] click_step(
                down,
                up,
                count,
                hold_ms,
                use_double_click_gap,
                double_click_delay_ms,
                i,
                true,
            ) matches ClickStep::Click { down: d, up: u, pause_ms: p, .. } && d == down && u
                == up && (i + 1 == count ==> p is None)),
        forall|i: usize|
            #![trigger click_step(down, up, count, hold_ms, use_double_click_gap, double_click_delay_ms, i, true)]
            (if is_batch(count, hold_ms, use_double_click_gap) { i > 0 } else { i >= count })
                ==> click_step(
                down,
                up,
                count,
                hold_ms,
                use_double_click_gap,
                double_click_delay_ms,
                i,
                true,
            ) == ClickStep::Stop,
{
}

/// A run stops for good once the clicker is off: with `running` false no step
/// makes a click.
pub proof fn lemma_stopped_run_does_not_click(
    down: u32,
    up: u32,
    count: usize,
    hold_ms: u32,
    use_double_click_gap: bool,
    double_click_delay_ms: u32,
    index: usize,
)
    ensures
        !(click_step(
            down,
            up,
            count,
            hold_ms,
            use_double_click_gap,
            double_click_delay_ms,
            index,
            false,
        ) is Click),
{
}

/// In a run with the double-click gap and a delay that is not zero, the
/// clicker waits the delay after every click but the last: every click but
/// the last is the same click, pausing for the delay; the last pauses for
/// nothing; and each click holds for `hold_ms` exactly where that is not zero.
pub proof fn lemma_gap_after_every_click_but_last(
    down: u32,
    up: u32,
    count: usize,
    hold_ms: u32,
    double_click_delay_ms: u32,
)
    requires
        double_click_delay_ms > 0,
    ensures
        forall|i: usize|
            i + 1 < count ==> (#[trigger] click_step(
                down,
                up,
                count,
                hold_ms,
                true,
                double_click_delay_ms,
                i,
                true,
            ) matches ClickStep::Click { pause_ms: p, .. } && p == Some(double_click_delay_ms)),
        forall|i: usize, j: usize|
            i + 1 < count && j + 1 < count ==> #[trigger] click_step(
                down,
                up,
                count,
                hold_ms,
                true,
                double_click_delay_ms,
                i,
                true,
            ) == #[trigger] click_step(
                down,
                up,
                count,
                hold_ms,
                true,
                double_click_delay_ms,
                j,
                true,
            ),
        count > 0 ==> (click_step(
            down,
            up,
            count,
            hold_ms,
            true,
            double_click_delay_ms,
            (count - 1) as usize,
            true,
        ) matches ClickStep::Click { down: d, hold_ms: h, up: u, pause_ms: p } && d == down && u
            == up && p is None && (h is Some <==> hold_ms > 0) && (h is Some ==> h == Some(
            hold_ms,
        ))),
        forall|i: usize|
            i < count ==> (#[trigger] click_step(
                down,
                up,
                count,
                hold_ms,
                true,
                double_click_delay_ms,
                i,
                true,
            ) matches ClickStep::Click { hold_ms: h, .. } && (h is Some <==> hold_ms > 0) && (
            h is Some ==> h == Some(hold_ms))),
{
}

// ---------------------------------------------------------------------------
// Smooth movement
// ---------------------------------------------------------------------------

/// The schedule of a smooth move lasting `duration_ms`: none (jump straight to
/// the end) under 5 ms, else the number of steps, the duration clamped to
/// 10..=200, and the wait between steps, the duration divided by that number.
pub open spec fn move_schedule(duration_ms: u64) -> Option<(usize, u64)> {
    if duration_ms < 5 {
        None
    } else {
        let d = duration_ms as usize;
        let steps: usize = if d < 10 {
            10
        } else if d > 200 {
            200
        } else {
            d
        };
        Some((steps, duration_ms / (steps as u64)))
    }
}

/// The number of steps of a smooth move lasting `duration_ms` and the wait
/// between them, or `None` where the move is a jump.
pub fn smooth_move_schedule(duration_ms: u64) -> (schedule: Option<(usize, u64)>)
    ensures
        schedule == move_schedule(duration_ms),
{
    if duration_ms < 5 {
        return None;
    }
    let d = duration_ms as usize;
    let steps: usize = if d < 10 {
        10
    } else if d > 200 {
        200
    } else {
        d
    };
    Some((steps, duration_ms / (steps as u64)))
}


/// Whether a smooth move from the start point to the end point stays put:
/// the points are the same, so they are less than one pixel apart.
pub fn smooth_move_stays(start_x: i32, start_y: i32, end_x: i32, end_y: i32) -> (stays: bool)
    ensures
        stays == (start_x == end_x && start_y == end_y),
{
    start_x == end_x && start_y == end_y
}

} // verus!
