//! The decisions of the hotkey listener: one step per poll of the keyboard,
//! and what a press or a release of the hotkey asks of the clicker.
use vstd::prelude::*;

verus! {

/// What the hotkey did since the previous poll.
#[derive(Clone, Copy, Debug, PartialEq, Eq, Structural)]
pub enum HotkeyEvent {
    Pressed,
    Released,
}

/// What one poll of the keyboard and of the listener's settings found.
#[derive(Clone, Copy, Debug, PartialEq, Eq, Structural)]
pub struct ListenerTick {
    /// Whether the registered hotkey is held now.
    pub currently_pressed: bool,
    /// Whether a new hotkey is being captured, which silences the listener.
    pub capture_active: bool,
    /// Whether the hotkey is ignored until it is first released.
    pub suppress_until_release: bool,
    /// The time, in milliseconds since the epoch, until which the hotkey is ignored.
    pub suppress_until_ms: u64,
    /// The time of the poll, in milliseconds since the epoch.
    pub now_ms: u64,
}

/// What the listener does after a poll.
#[derive(Clone, Copy, Debug, PartialEq, Eq, Structural)]
pub struct ListenerStep {
    /// Whether the hotkey counts as held for the next poll.
    pub was_pressed: bool,
    /// Whether the ignore-until-released flag is to be cleared.
    pub clear_release_suppression: bool,
    /// The press or release to act on, if any.
    pub event: Option<HotkeyEvent>,
}

/// One step of the listener, from whether the hotkey counted as held before
/// and what the poll found. While a capture is on, or before the suppression
/// time, the state follows the keys with no event. While the hotkey is ignored
/// until released, holding it keeps it counted as held; letting go clears the
/// flag and counts it as released, with no event. Otherwise a press is an
/// event when the hotkey goes down and a release when it comes up.
pub open spec fn listener_step(was_pressed: bool, tick: ListenerTick) -> ListenerStep {
    if tick.capture_active {
        ListenerStep {
            was_pressed: tick.currently_pressed,
            clear_release_suppression: false,
            event: None,
        }
    } else if tick.suppress_until_release {
        if tick.currently_pressed {
            ListenerStep { was_pressed: true, clear_release_suppression: false, event: None }
        } else {
            ListenerStep { was_pressed: false, clear_release_suppression: true, event: None }
        }
    } else if tick.now_ms < tick.suppress_until_ms {
        ListenerStep {
            was_pressed: tick.currently_pressed,
            clear_release_suppression: false,
            event: None,
        }
    } else {
        ListenerStep {
            was_pressed: tick.currently_pressed,
            clear_release_suppression: false,
            event: if tick.currently_pressed && !was_pressed {
                Some(HotkeyEvent::Pressed)
            } else if !tick.currently_pressed && was_pressed {
                Some(HotkeyEvent::Released)
            } else {
                None
            },
        }
    }
}

/// One step of the hotkey listener.
pub fn hotkey_listener_step(was_pressed: bool, tick: ListenerTick) -> (step: ListenerStep)
    ensures
        step == listener_step(was_pressed, tick),
{
    if tick.capture_active {
        return ListenerStep {
            was_pressed: tick.currently_pressed,
            clear_release_suppression: false,
            event: None,
        };
    }
    if tick.suppress_until_release {
        if tick.currently_pressed {
            return ListenerStep {
                was_pressed: true,
                clear_release_suppression: false,
                event: None,
            };
        }
        return ListenerStep { was_pressed: false, clear_release_suppression: true, event: None };
    }
    if tick.now_ms < tick.suppress_until_ms {
        return ListenerStep {
            was_pressed: tick.currently_pressed,
            clear_release_suppression: false,
            event: None,
        };
    }
    let event = if tick.currently_pressed && !was_pressed {
        Some(HotkeyEvent::Pressed)
    } else if !tick.currently_pressed && was_pressed {
        Some(HotkeyEvent::Released)
    } else {
        None
    };
    ListenerStep { was_pressed: tick.currently_pressed, clear_release_suppression: false, event }
}

/// Two presses are never reported in a row: after a step that reports a
/// press, the next step, whatever its poll finds, does not report another.
pub proof fn lemma_no_double_press(was_pressed: bool, first: ListenerTick, second: ListenerTick)
    requires
        listener_step(was_pressed, first).event == Some(HotkeyEvent::Pressed),
    ensures
        listener_step(listener_step(was_pressed, first).was_pressed, second).event != Some(
            HotkeyEvent::Pressed,
        ),
{
}

/// Two releases are never reported in a row.
pub proof fn lemma_no_double_release(was_pressed: bool, first: ListenerTick, second: ListenerTick)
    requires
        listener_step(was_pressed, first).event == Some(HotkeyEvent::Released),
    ensures
        listener_step(listener_step(was_pressed, first).was_pressed, second).event != Some(
            HotkeyEvent::Released,
        ),
{
}

/// A hotkey held across its registration is not reported: while the hotkey is
/// ignored until released and stays held, every step keeps it held and quiet,
/// and the step that sees it let go clears the flag without an event.
pub proof fn lemma_registration_hold_is_quiet(was_pressed: bool, tick: ListenerTick)
    requires
        tick.suppress_until_release,
        !tick.capture_active,
    ensures
        listener_step(was_pressed, tick).event is None,
        listener_step(was_pressed, tick).clear_release_suppression == !tick.currently_pressed,
        listener_step(was_pressed, tick).was_pressed == tick.currently_pressed,
{
}

/// A poll as the listener sees it while it alone writes the ignore-until-
/// released flag: the flag is the listener's own, whatever `tick` holds.
pub open spec fn with_release_flag(tick: ListenerTick, suppressed: bool) -> ListenerTick {
    ListenerTick { suppress_until_release: suppressed, ..tick }
}

/// The events of a run of polls, from whether the hotkey counted as held and
/// whether it is ignored until released; each step clears the flag where it
/// says so.
pub open spec fn run_events(was_pressed: bool, suppressed: bool, polls: Seq<ListenerTick>) -> Seq<
    Option<HotkeyEvent>,
>
    decreases polls.len(),
{
    if polls.len() == 0 {
        Seq::empty()
    } else {
        let step = listener_step(was_pressed, with_release_flag(polls[0], suppressed));
        seq![step.event] + run_events(
            step.was_pressed,
            suppressed && !step.clear_release_suppression,
            polls.drop_first(),
        )
    }
}

proof fn lemma_run_events_len(was_pressed: bool, suppressed: bool, polls: Seq<ListenerTick>)
    ensures
        run_events(was_pressed, suppressed, polls).len() == polls.len(),
    decreases polls.len(),
{
    if polls.len() > 0 {
        let step = listener_step(was_pressed, with_release_flag(polls[0], suppressed));
        lemma_run_events_len(
            step.was_pressed,
            suppressed && !step.clear_release_suppression,
            polls.drop_first(),
        );
    }
}

/// A press reported in a run of polls comes from a poll outside a capture, at
/// or after the suppression time, that finds the hotkey held.
proof fn lemma_press_poll(was_pressed: bool, suppressed: bool, polls: Seq<ListenerTick>, k: int)
    requires
        0 <= k < polls.len(),
        run_events(was_pressed, suppressed, polls)[k] == Some(HotkeyEvent::Pressed),
    ensures
        polls[k].currently_pressed,
        !polls[k].capture_active,
        polls[k].now_ms >= polls[k].suppress_until_ms,
    decreases polls.len(),
{
    let step = listener_step(was_pressed, with_release_flag(polls[0], suppressed));
    let flag = suppressed && !step.clear_release_suppression;
    let rest = run_events(step.was_pressed, flag, polls.drop_first());
    assert(run_events(was_pressed, suppressed, polls) == seq![step.event] + rest);
    lemma_run_events_len(step.was_pressed, flag, polls.drop_first());
    if k > 0 {
        assert((seq![step.event] + rest)[k] == rest[k - 1]);
        lemma_press_poll(step.was_pressed, flag, polls.drop_first(), k - 1);
        assert(polls[k] == polls.drop_first()[k - 1]);
    } else {
        assert((seq![step.event] + rest)[0] == step.event);
    }
}

/// After a registration, which sets the ignore-until-released flag, no press
/// is reported until a poll outside a capture has seen the hotkey released:
/// in a run of polls from the flag set, every reported press comes after such
/// a poll, and from a later poll outside a capture, at or after the
/// suppression time, that finds the hotkey held. The key press used to
/// register a hotkey therefore never fires it.
pub proof fn lemma_no_press_before_release(was_pressed: bool, polls: Seq<ListenerTick>, k: int)
    requires
        0 <= k < polls.len(),
        run_events(was_pressed, true, polls)[k] == Some(HotkeyEvent::Pressed),
    ensures
        exists|j: int|
            0 <= j < k && !(#[trigger] polls[j]).capture_active && !polls[j].currently_pressed,
        polls[k].currently_pressed,
        !polls[k].capture_active,
        polls[k].now_ms >= polls[k].suppress_until_ms,
    decreases polls.len(),
{
    lemma_press_poll(was_pressed, true, polls, k);
    let step = listener_step(was_pressed, with_release_flag(polls[0], true));
    let rest = run_events(
        step.was_pressed,
        true && !step.clear_release_suppression,
        polls.drop_first(),
    );
    assert(run_events(was_pressed, true, polls) == seq![step.event] + rest);
    lemma_run_events_len(step.was_pressed, true && !step.clear_release_suppression, polls.drop_first());
    if polls[0].capture_active || polls[0].currently_pressed {
        assert(step.event is None);
        assert(!step.clear_release_suppression);
        assert((seq![step.event] + rest)[0] == step.event);
        assert(k > 0);
        assert((seq![step.event] + rest)[k] == rest[k - 1]);
        assert(rest[k - 1] == Some(HotkeyEvent::Pressed));
        lemma_no_press_before_release(step.was_pressed, polls.drop_first(), k - 1);
        let j = choose|j: int|
            0 <= j < k - 1 && !(#[trigger] polls.drop_first()[j]).capture_active
                && !polls.drop_first()[j].currently_pressed;
        assert(polls[j + 1] == polls.drop_first()[j]);
    } else {
        assert(step.event is None);
        assert((seq![step.event] + rest)[0] == step.event);
        assert(k > 0);
    }
}

/// Whatever the poll finds, the listener carries the key state it saw to the
/// next poll: the hotkey counts as held next time exactly when it was held.
pub proof fn lemma_step_keeps_key_state(was_pressed: bool, tick: ListenerTick)
    ensures
        listener_step(was_pressed, tick).was_pressed == tick.currently_pressed,
{
}

/// A poll during a capture, while the hotkey is ignored until released, or
/// before the suppression time reports nothing; any other poll reports a
/// press exactly when the hotkey goes down and a release exactly when it
/// comes up.
pub proof fn lemma_when_events_are_reported(was_pressed: bool, tick: ListenerTick)
    ensures
        (tick.capture_active || tick.suppress_until_release || tick.now_ms < tick.suppress_until_ms)
            ==> listener_step(was_pressed, tick).event is None,
        !(tick.capture_active || tick.suppress_until_release || tick.now_ms
            < tick.suppress_until_ms) ==> {
            &&& (listener_step(was_pressed, tick).event == Some(HotkeyEvent::Pressed) <==> (
            tick.currently_pressed && !was_pressed))
            &&& (listener_step(was_pressed, tick).event == Some(HotkeyEvent::Released) <==> (
            !tick.currently_pressed && was_pressed))
        },
        listener_step(was_pressed, tick).clear_release_suppression <==> (!tick.capture_active
            && tick.suppress_until_release && !tick.currently_pressed),
{
}

/// In a run of polls, a press is reported only by a poll that finds the
/// hotkey held after one that found it up (or, first, after it counted as
/// up), and a release only by a poll that finds it up after one that found it
/// held (or, first, after it counted as held).
pub proof fn lemma_events_are_edges(
    was_pressed: bool,
    suppressed: bool,
    polls: Seq<ListenerTick>,
    k: int,
)
    requires
        0 <= k < polls.len(),
    ensures
        run_events(was_pressed, suppressed, polls)[k] == Some(HotkeyEvent::Pressed) ==> (
        polls[k].currently_pressed && (if k == 0 {
            !was_pressed
        } else {
            !polls[k - 1].currently_pressed
        })),
        run_events(was_pressed, suppressed, polls)[k] == Some(HotkeyEvent::Released) ==> (
        !polls[k].currently_pressed && (if k == 0 {
            was_pressed
        } else {
            polls[k - 1].currently_pressed
        })),
    decreases polls.len(),
{
    let step = listener_step(was_pressed, with_release_flag(polls[0], suppressed));
    let flag = suppressed && !step.clear_release_suppression;
    let rest = run_events(step.was_pressed, flag, polls.drop_first());
    assert(run_events(was_pressed, suppressed, polls) == seq![step.event] + rest);
    lemma_run_events_len(step.was_pressed, flag, polls.drop_first());
    lemma_step_keeps_key_state(was_pressed, with_release_flag(polls[0], suppressed));
    if k > 0 {
        assert((seq![step.event] + rest)[k] == rest[k - 1]);
        lemma_events_are_edges(step.was_pressed, flag, polls.drop_first(), k - 1);
        assert(polls[k] == polls.drop_first()[k - 1]);
        if k > 1 {
            assert(polls[k - 1] == polls.drop_first()[k - 2]);
        }
    } else {
        assert((seq![step.event] + rest)[0] == step.event);
    }
}

/// What the clicker is asked to do.
pub enum ClickerCommand {
    /// Start clicking if stopped, stop if clicking.
    Toggle,
    /// Start clicking.
    Start,
    /// Stop clicking, giving the reason.
    Stop { reason: String },
}

/// What a press of the hotkey asks in the clicker mode `mode`: `Toggle` mode
/// toggles, `Hold` mode starts, any other mode nothing.
pub fn handle_hotkey_pressed(mode: &str) -> (command: Option<ClickerCommand>)
    ensures
        mode@ == "Toggle"@ ==> command matches Some(ClickerCommand::Toggle),
        mode@ != "Toggle"@ && mode@ == "Hold"@ ==> command matches Some(ClickerCommand::Start),
        mode@ != "Toggle"@ && mode@ != "Hold"@ ==> command is None,
{
    if crate::text::str_eq(mode, "Toggle") {
        Some(ClickerCommand::Toggle)
    } else if crate::text::str_eq(mode, "Hold") {
        Some(ClickerCommand::Start)
    } else {
        None
    }
}

/// What a release of the hotkey asks in the clicker mode `mode`: `Hold` mode
/// stops, giving the reason, any other mode nothing.
pub fn handle_hotkey_released(mode: &str) -> (command: Option<ClickerCommand>)
    ensures
        mode@ == "Hold"@ ==> (command matches Some(ClickerCommand::Stop { reason }) && reason@
            == "Stopped from hold hotkey"@),
        mode@ != "Hold"@ ==> command is None,
{
    if crate::text::str_eq(mode, "Hold") {
        Some(ClickerCommand::Stop { reason: "Stopped from hold hotkey".to_owned() })
    } else {
        None
    }
}

} // verus!
