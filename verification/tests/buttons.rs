use a2a2::buttons::{
    contains, gpio_pins, insert, map_event, read_mask, remove, ButtonCommand, ButtonEvent,
    ButtonState, BUTTON_COUNT, DEBOUNCE_MS, LONG_PRESS_MS,
};
use a2a2::time::Timestamp;

fn mask(index: usize) -> u8 {
    1 << index
}

fn start() -> Timestamp {
    Timestamp { nanos: 7_000_000_123 }
}

#[test]
fn short_press_emits_on_release_after_debounce() {
    let start = start();
    let mut state = ButtonState::new(0, start);

    assert!(state.update(mask(0), start).is_empty());
    assert!(state
        .update(mask(0), start.plus_millis(DEBOUNCE_MS + 1))
        .is_empty());
    assert!(state
        .update(0, start.plus_millis(DEBOUNCE_MS + 20))
        .is_empty());

    let events = state.update(0, start.plus_millis(DEBOUNCE_MS * 2 + 21));
    assert_eq!(events, vec![ButtonEvent::Short(0)]);
}

#[test]
fn long_press_emits_once_and_suppresses_short() {
    let start = start();
    let mut state = ButtonState::new(0, start);

    state.update(mask(3), start);
    state.update(mask(3), start.plus_millis(DEBOUNCE_MS + 1));

    let events = state.update(
        mask(3),
        start.plus_millis(DEBOUNCE_MS + LONG_PRESS_MS + 1),
    );
    assert_eq!(events, vec![ButtonEvent::Long(3)]);

    assert!(state
        .update(
            mask(3),
            start.plus_millis(DEBOUNCE_MS + LONG_PRESS_MS + 50)
        )
        .is_empty());
    state.update(
        0,
        start.plus_millis(DEBOUNCE_MS + LONG_PRESS_MS + 60),
    );
    assert!(state
        .update(
            0,
            start.plus_millis(DEBOUNCE_MS + LONG_PRESS_MS + 100)
        )
        .is_empty());
}

#[test]
fn hs_key4b_mapping_matches_requested_layout() {
    assert_eq!(
        map_event(ButtonEvent::Short(0)),
        Some(ButtonCommand::EnterRewindMode)
    );
    assert_eq!(
        map_event(ButtonEvent::Long(0)),
        Some(ButtonCommand::Previous)
    );
    assert_eq!(map_event(ButtonEvent::Short(1)), Some(ButtonCommand::Pause));
    assert_eq!(
        map_event(ButtonEvent::Long(1)),
        Some(ButtonCommand::Disconnect)
    );
    assert_eq!(map_event(ButtonEvent::Short(2)), Some(ButtonCommand::Play));
    assert_eq!(
        map_event(ButtonEvent::Long(2)),
        Some(ButtonCommand::ApprovePairing)
    );
    assert_eq!(
        map_event(ButtonEvent::Short(3)),
        Some(ButtonCommand::EnterFastForwardMode)
    );
    assert_eq!(map_event(ButtonEvent::Long(3)), Some(ButtonCommand::Next));
}

#[test]
fn unknown_buttons_map_to_nothing() {
    assert_eq!(map_event(ButtonEvent::Short(4)), None);
    assert_eq!(map_event(ButtonEvent::Long(usize::MAX)), None);
}

#[test]
fn a_level_counts_exactly_at_the_end_of_the_debounce_time() {
    let start = start();
    let mut state = ButtonState::new(mask(1), start);
    state.update(0, start.plus_millis(5));
    let due = start.plus_millis(5 + DEBOUNCE_MS);
    let early = Timestamp { nanos: due.nanos - 1 };
    assert!(state.update(0, early).is_empty());
    assert_eq!(state.update(0, due), vec![ButtonEvent::Short(1)]);
}

#[test]
fn bounces_restart_the_debounce_time() {
    let start = start();
    let mut state = ButtonState::new(0, start);
    for ms in 0..20u64 {
        let level = if ms % 2 == 0 { mask(2) } else { 0 };
        assert!(state.update(level, start.plus_millis(ms * 10)).is_empty());
    }
    assert!(state.update(0, start.plus_millis(1000)).is_empty());
}

#[test]
fn a_press_shorter_than_the_debounce_time_gives_nothing() {
    let start = start();
    let mut state = ButtonState::new(0, start);
    assert!(state.update(mask(0), start).is_empty());
    assert!(state.update(0, start.plus_millis(DEBOUNCE_MS - 1)).is_empty());
    assert!(state.update(0, start.plus_millis(500)).is_empty());
    assert!(state.update(0, start.plus_millis(5000)).is_empty());
}

#[test]
fn short_events_come_before_long_ones() {
    let start = start();
    let mut state = ButtonState::new(mask(0) | mask(1) | mask(3), start);
    let release = start.plus_millis(LONG_PRESS_MS - DEBOUNCE_MS);
    assert!(state.update(mask(0), release).is_empty());
    let events = state.update(mask(0), start.plus_millis(LONG_PRESS_MS));
    assert_eq!(
        events,
        vec![
            ButtonEvent::Short(1),
            ButtonEvent::Short(3),
            ButtonEvent::Long(0)
        ]
    );
}

#[test]
fn a_clock_that_steps_back_gives_no_long_press() {
    let start = start();
    let mut state = ButtonState::new(mask(0), start);
    assert!(state.update(mask(0), Timestamp { nanos: 0 }).is_empty());
    assert_eq!(
        state.update(mask(0), start.plus_millis(LONG_PRESS_MS)),
        vec![ButtonEvent::Long(0)]
    );
}

#[test]
fn masks_hold_single_buttons() {
    for index in 0..8usize {
        assert!(contains(mask(index), index));
        assert!(!contains(!mask(index), index));
        assert_eq!(insert(0, index), mask(index));
        assert_eq!(remove(255, index), !mask(index));
        assert_eq!(insert(0b1010_0101, index), 0b1010_0101 | mask(index));
    }
}

#[test]
fn low_lines_are_pressed_buttons() {
    assert_eq!(read_mask(&[false, false, false, false]), 0);
    assert_eq!(read_mask(&[true, false, false, true]), 0b1001);
    assert_eq!(read_mask(&[true; 4]), 0b1111);
}

#[test]
fn every_button_has_a_line() {
    assert_eq!(gpio_pins(), [17, 27, 22, 23]);
    assert_eq!(gpio_pins().len(), BUTTON_COUNT);
}

#[test]
fn polling_again_gives_nothing() {
    let start = start();
    let mut state = ButtonState::new(0b0100, start);
    let times = [0, 10, 45, 60, 100, 640, 650, 700, 740];
    let masks = [0b0100, 0b0101, 0b0101, 0b0001, 0b1001, 0b1001, 0b1011, 0, 0];
    for (ms, mask) in times.into_iter().zip(masks) {
        state.update(mask, start.plus_millis(ms));
        let before = format!("{state:?}");
        assert!(state.update(mask, start.plus_millis(ms)).is_empty());
        assert_eq!(format!("{state:?}"), before);
    }
}

#[test]
fn every_press_gives_one_event() {
    // A press that bounces at both ends, and is released after the length of a
    // long press, but before it has counted for so long.
    let bouncing = |release: &[u64]| {
        let start = start();
        let mut state = ButtonState::new(0, start);
        let mut events = Vec::new();
        for (ms, pressed) in [(0, true), (5, false), (9, true), (40, true), (300, true)] {
            let mask = if pressed { mask(1) } else { 0 };
            events.extend(state.update(mask, start.plus_millis(ms)));
        }
        events.extend(state.update(0, start.plus_millis(660)));
        events.extend(state.update(mask(1), start.plus_millis(665)));
        for ms in release {
            events.extend(state.update(0, start.plus_millis(*ms)));
        }
        events
    };
    assert_eq!(bouncing(&[670, 700, 800]), [ButtonEvent::Short(1)]);
    assert_eq!(bouncing(&[670, 695, 700, 800]), [ButtonEvent::Long(1)]);
}
