//! The four push buttons: debouncing, short and long presses, and what each
//! press asks for.
//!
//! A button is sampled at arbitrary times. A level counts once it has been
//! sampled unchanged for [`DEBOUNCE_MS`]. A press held for [`LONG_PRESS_MS`]
//! gives one long event; a press released before that gives one short event,
//! at its release.

use vstd::prelude::*;

use crate::time::{millis, Timestamp, NANOS_PER_MILLI};

verus! {

/// Number of buttons.
pub const BUTTON_COUNT: usize = 4;

/// Pause between two samples of the buttons, in milliseconds.
pub const POLL_MS: u64 = 10;

/// How long a level must stay unchanged before it counts, in milliseconds.
pub const DEBOUNCE_MS: u64 = 30;

/// How long a button must be held for a long press, in milliseconds.
pub const LONG_PRESS_MS: u64 = 650;

/// What a button press asks the bridge to do.
#[derive(Debug, Clone, Copy, PartialEq, Eq, Structural)]
pub enum ButtonCommand {
    EnterRewindMode,
    EnterFastForwardMode,
    Previous,
    Next,
    Pause,
    Disconnect,
    Play,
    ApprovePairing,
}

/// A completed press of the button with the given index.
#[derive(Debug, Clone, Copy, PartialEq, Eq, Structural)]
pub enum ButtonEvent {
    Short(usize),
    Long(usize),
}

/// The GPIO line of each button, by index.
pub fn gpio_pins() -> (pins: [u8; 4])
    ensures
        pins@ == seq![17u8, 27u8, 22u8, 23u8],
{
    [17, 27, 22, 23]
}

/// Whether bit `index` of a mask is set.
pub open spec fn has_bit(mask: u8, index: int) -> bool {
    mask & (1u8 << (index as u8)) != 0
}

/// Whether the mask holds the button.
pub fn contains(mask: u8, index: usize) -> (held: bool)
    requires
        index < 8,
    ensures
        held == has_bit(mask, index as int),
{
    mask & (1u8 << (index as u8)) != 0
}

/// The mask with the button added.
pub fn insert(mask: u8, index: usize) -> (with: u8)
    requires
        index < 8,
    ensures
        with == mask | (1u8 << (index as u8)),
        forall|other: int|
            0 <= other < 8 ==> (#[trigger] has_bit(with, other) <==> other == index || has_bit(
                mask,
                other,
            )),
{
    let with = mask | (1u8 << (index as u8));
    proof {
        let i = index as u8;
        assert forall|other: int| 0 <= other < 8 implies (#[trigger] has_bit(with, other) <==> other
            == index || has_bit(mask, other)) by {
            let j = other as u8;
            assert(((mask | (1u8 << i)) & (1u8 << j) != 0) == (i == j || mask & (1u8 << j) != 0))
                by (bit_vector)
                requires
                    i < 8,
                    j < 8,
            ;
        }
    }
    with
}

/// The mask with the button taken out.
pub fn remove(mask: u8, index: usize) -> (without: u8)
    requires
        index < 8,
    ensures
        without == mask & !(1u8 << (index as u8)),
        forall|other: int|
            0 <= other < 8 ==> (#[trigger] has_bit(without, other) <==> other != index && has_bit(
                mask,
                other,
            )),
{
    let without = mask & !(1u8 << (index as u8));
    proof {
        let i = index as u8;
        assert forall|other: int| 0 <= other < 8 implies (#[trigger] has_bit(without, other) <==> other
            != index && has_bit(mask, other)) by {
            let j = other as u8;
            assert(((mask & !(1u8 << i)) & (1u8 << j) != 0) == (i != j && mask & (1u8 << j) != 0))
                by (bit_vector)
                requires
                    i < 8,
                    j < 8,
            ;
        }
    }
    without
}

/// What is known of one button. Times are in nanoseconds.
pub struct Button {
    /// The level of the last sample.
    pub raw: bool,
    /// The debounced level.
    pub stable: bool,
    /// When the sampled level counts, if it has changed and not yet counted.
    pub due: Option<int>,
    /// Since when the debounced level has been pressed.
    pub pressed_at: Option<int>,
    /// Whether the current press has given its long event.
    pub long_sent: bool,
}

/// The debounce time in nanoseconds.
pub open spec fn debounce() -> int {
    millis(DEBOUNCE_MS as int)
}

/// The length of a long press in nanoseconds.
pub open spec fn long_press() -> int {
    millis(LONG_PRESS_MS as int)
}

impl Button {
    /// A button first seen at `now`: its level counts at once.
    pub open spec fn initial(pressed: bool, now: int) -> Button {
        Button {
            raw: pressed,
            stable: pressed,
            due: None,
            pressed_at: if pressed {
                Some(now)
            } else {
                None
            },
            long_sent: false,
        }
    }

    /// Takes in a sample: a change of level starts the debounce time anew.
    pub open spec fn sampled(self, pressed: bool, now: int) -> Button {
        Button {
            raw: pressed,
            due: if pressed != self.raw {
                Some(now + debounce())
            } else {
                self.due
            },
            ..self
        }
    }

    /// Whether the debounce time is over.
    pub open spec fn is_due(self, now: int) -> bool {
        self.due matches Some(due) && now >= due
    }

    /// Whether the end of the debounce time completes a short press.
    pub open spec fn gives_short(self, now: int) -> bool {
        self.is_due(now) && self.stable && !self.raw && !self.long_sent
    }

    /// Lets the sampled level count once the debounce time is over.
    pub open spec fn settled(self, now: int) -> Button {
        if !self.is_due(now) {
            self
        } else if self.raw == self.stable {
            Button { due: None, ..self }
        } else {
            Button {
                due: None,
                stable: self.raw,
                pressed_at: if self.raw {
                    Some(now)
                } else {
                    None
                },
                long_sent: false,
                ..self
            }
        }
    }

    /// Whether the press has now been held long enough for its long event.
    pub open spec fn gives_long(self, now: int) -> bool {
        &&& self.pressed_at matches Some(since)
        &&& now - since >= long_press()
        &&& !self.long_sent
    }

    /// Notes the long event, if there is one.
    pub open spec fn held(self, now: int) -> Button {
        Button { long_sent: self.long_sent || self.gives_long(now), ..self }
    }

    /// The button after one sample.
    pub open spec fn next(self, pressed: bool, now: int) -> Button {
        self.sampled(pressed, now).settled(now).held(now)
    }

    /// Whether one sample gives a short event.
    pub open spec fn emits_short(self, pressed: bool, now: int) -> bool {
        self.sampled(pressed, now).gives_short(now)
    }

    /// Whether one sample gives a long event.
    pub open spec fn emits_long(self, pressed: bool, now: int) -> bool {
        self.sampled(pressed, now).settled(now).gives_long(now)
    }
}

/// The short events of the first `count` buttons, by rising index.
pub open spec fn short_events(buttons: Seq<Button>, mask: u8, now: int, count: nat) -> Seq<
    ButtonEvent,
>
    decreases count,
{
    if count == 0 {
        seq![]
    } else {
        let index = count - 1;
        let before = short_events(buttons, mask, now, index as nat);
        if buttons[index].emits_short(has_bit(mask, index), now) {
            before.push(ButtonEvent::Short(index as usize))
        } else {
            before
        }
    }
}

/// The long events of the first `count` buttons, by rising index.
pub open spec fn long_events(buttons: Seq<Button>, mask: u8, now: int, count: nat) -> Seq<
    ButtonEvent,
>
    decreases count,
{
    if count == 0 {
        seq![]
    } else {
        let index = count - 1;
        let before = long_events(buttons, mask, now, index as nat);
        if buttons[index].emits_long(has_bit(mask, index), now) {
            before.push(ButtonEvent::Long(index as usize))
        } else {
            before
        }
    }
}

/// The state of all buttons.
#[derive(Debug)]
pub struct ButtonState {
    stable_mask: u8,
    raw_mask: u8,
    debounce_due: [Option<Timestamp>; 4],
    pressed_at: [Option<Timestamp>; 4],
    long_sent_mask: u8,
}

/// The point in time that an optional timestamp stands for.
pub open spec fn moment(at: Option<Timestamp>) -> Option<int> {
    match at {
        Some(t) => Some(t@),
        None => None,
    }
}

impl View for ButtonState {
    type V = Seq<Button>;

    closed spec fn view(&self) -> Seq<Button> {
        Seq::new(
            BUTTON_COUNT as nat,
            |index: int|
                Button {
                    raw: has_bit(self.raw_mask, index),
                    stable: has_bit(self.stable_mask, index),
                    due: moment(self.debounce_due@[index]),
                    pressed_at: moment(self.pressed_at@[index]),
                    long_sent: has_bit(self.long_sent_mask, index),
                },
        )
    }
}

impl ButtonState {
    /// The state when the buttons are first seen, with the given ones pressed.
    pub fn new(raw_mask: u8, now: Timestamp) -> (state: Self)
        ensures
            state@.len() == BUTTON_COUNT,
            forall|index: int|
                0 <= index < BUTTON_COUNT ==> #[trigger] state@[index] == Button::initial(
                    has_bit(raw_mask, index),
                    now@,
                ),
    {
        let mut pressed_at: [Option<Timestamp>; 4] = [None, None, None, None];
        for index in 0..BUTTON_COUNT
            invariant
                forall|i: int|
                    0 <= i < BUTTON_COUNT ==> #[trigger] pressed_at@[i] == (if i < index && has_bit(
                        raw_mask,
                        i,
                    ) {
                        Some(now)
                    } else {
                        None
                    }),
        {
            if contains(raw_mask, index) {
                pressed_at[index] = Some(now);
            }
        }
        proof {
            lemma_empty_mask();
        }
        ButtonState {
            stable_mask: raw_mask,
            raw_mask,
            debounce_due: [None, None, None, None],
            pressed_at,
            long_sent_mask: 0,
        }
    }

    /// Takes in a sample of all buttons, and returns the events that it
    /// completes: short ones first, then long ones, each by rising index.
    ///
    /// A change of level needs room on the clock for the debounce time.
    pub fn update(&mut self, raw_mask: u8, now: Timestamp) -> (events: Vec<ButtonEvent>)
        requires
            (exists|index: int|
                0 <= index < BUTTON_COUNT && has_bit(raw_mask, index) != (
                #[trigger] old(self)@[index]).raw) ==> now@ + debounce() <= u128::MAX,
        ensures
            final(self)@.len() == BUTTON_COUNT,
            forall|index: int|
                0 <= index < BUTTON_COUNT ==> #[trigger] final(self)@[index] == old(
                    self,
                )@[index].next(has_bit(raw_mask, index), now@),
            events@ == short_events(old(self)@, raw_mask, now@, BUTTON_COUNT as nat) + long_events(
                old(self)@,
                raw_mask,
                now@,
                BUTTON_COUNT as nat,
            ),
    {
        let mut events: Vec<ButtonEvent> = Vec::new();
        let ghost start = self@;

        for index in 0..BUTTON_COUNT
            invariant
                start == old(self)@,
                start.len() == BUTTON_COUNT,
                self.stable_mask == old(self).stable_mask,
                self.raw_mask == old(self).raw_mask,
                self.pressed_at == old(self).pressed_at,
                self.long_sent_mask == old(self).long_sent_mask,
                (exists|i: int|
                    0 <= i < BUTTON_COUNT && has_bit(raw_mask, i) != (#[trigger] start[i]).raw)
                    ==> now@ + debounce() <= u128::MAX,
                forall|i: int|
                    0 <= i < BUTTON_COUNT ==> moment(#[trigger] self.debounce_due@[i]) == (if i
                        < index {
                        start[i].sampled(has_bit(raw_mask, i), now@).due
                    } else {
                        start[i].due
                    }),
        {
            if contains(raw_mask, index) != contains(self.raw_mask, index) {
                assert(start[index as int].raw != has_bit(raw_mask, index as int));
                self.debounce_due[index] = Some(now.plus_millis(DEBOUNCE_MS));
            }
        }
        self.raw_mask = raw_mask;
        let ghost sampled = self@;

        for index in 0..BUTTON_COUNT
            invariant
                start.len() == BUTTON_COUNT,
                sampled.len() == BUTTON_COUNT,
                forall|i: int|
                    0 <= i < BUTTON_COUNT ==> #[trigger] sampled[i] == start[i].sampled(
                        has_bit(raw_mask, i),
                        now@,
                    ),
                self.raw_mask == raw_mask,
                forall|i: int|
                    0 <= i < BUTTON_COUNT ==> #[trigger] self@[i] == (if i < index {
                        sampled[i].settled(now@)
                    } else {
                        sampled[i]
                    }),
                events@ == short_events(start, raw_mask, now@, index as nat),
        {
            let ghost before = self@;
            assert(before[index as int] == sampled[index as int]);
            if let Some(due) = self.debounce_due[index] {
                if now.nanos >= due.nanos {
                    self.debounce_due[index] = None;
                    let pressed = contains(raw_mask, index);
                    let was_pressed = contains(self.stable_mask, index);
                    if pressed != was_pressed {
                        if pressed {
                            self.stable_mask = insert(self.stable_mask, index);
                            self.pressed_at[index] = Some(now);
                            self.long_sent_mask = remove(self.long_sent_mask, index);
                        } else {
                            self.stable_mask = remove(self.stable_mask, index);
                            self.pressed_at[index] = None;
                            if !contains(self.long_sent_mask, index) {
                                events.push(ButtonEvent::Short(index));
                            }
                            self.long_sent_mask = remove(self.long_sent_mask, index);
                        }
                    }
                }
            }
            assert(self@[index as int] == sampled[index as int].settled(now@));
            assert(forall|i: int|
                0 <= i < BUTTON_COUNT && i != index ==> #[trigger] self@[i] == before[i]);
        }
        let ghost settled = self@;
        let ghost shorts = events@;

        for index in 0..BUTTON_COUNT
            invariant
                start.len() == BUTTON_COUNT,
                forall|i: int|
                    0 <= i < BUTTON_COUNT ==> #[trigger] settled[i] == start[i].sampled(
                        has_bit(raw_mask, i),
                        now@,
                    ).settled(now@),
                forall|i: int|
                    0 <= i < BUTTON_COUNT ==> #[trigger] self@[i] == (if i < index {
                        settled[i].held(now@)
                    } else {
                        settled[i]
                    }),
                events@ == shorts + long_events(start, raw_mask, now@, index as nat),
        {
            let ghost before = self@;
            assert(before[index as int] == settled[index as int]);
            if let Some(pressed_at) = self.pressed_at[index] {
                if !contains(self.long_sent_mask, index) {
                    let held: u128 = if now.nanos >= pressed_at.nanos {
                        now.nanos - pressed_at.nanos
                    } else {
                        0
                    };
                    if held >= LONG_PRESS_MS as u128 * NANOS_PER_MILLI {
                        self.long_sent_mask = insert(self.long_sent_mask, index);
                        events.push(ButtonEvent::Long(index));
                    }
                }
            }
            assert(self@[index as int] == settled[index as int].held(now@));
            assert(forall|i: int|
                0 <= i < BUTTON_COUNT && i != index ==> #[trigger] self@[i] == before[i]);
        }
        events
    }
}

/// What an event asks for; nothing for a button that does not exist.
pub open spec fn command_for(event: ButtonEvent) -> Option<ButtonCommand> {
    match event {
        ButtonEvent::Short(index) => if index == 0 {
            Some(ButtonCommand::EnterRewindMode)
        } else if index == 1 {
            Some(ButtonCommand::Pause)
        } else if index == 2 {
            Some(ButtonCommand::Play)
        } else if index == 3 {
            Some(ButtonCommand::EnterFastForwardMode)
        } else {
            None
        },
        ButtonEvent::Long(index) => if index == 0 {
            Some(ButtonCommand::Previous)
        } else if index == 1 {
            Some(ButtonCommand::Disconnect)
        } else if index == 2 {
            Some(ButtonCommand::ApprovePairing)
        } else if index == 3 {
            Some(ButtonCommand::Next)
        } else {
            None
        },
    }
}

/// The command that an event stands for.
pub fn map_event(event: ButtonEvent) -> (command: Option<ButtonCommand>)
    ensures
        command == command_for(event),
{
    match event {
        ButtonEvent::Short(0) => Some(ButtonCommand::EnterRewindMode),
        ButtonEvent::Long(0) => Some(ButtonCommand::Previous),
        ButtonEvent::Short(1) => Some(ButtonCommand::Pause),
        ButtonEvent::Long(1) => Some(ButtonCommand::Disconnect),
        ButtonEvent::Short(2) => Some(ButtonCommand::Play),
        ButtonEvent::Long(2) => Some(ButtonCommand::ApprovePairing),
        ButtonEvent::Short(3) => Some(ButtonCommand::EnterFastForwardMode),
        ButtonEvent::Long(3) => Some(ButtonCommand::Next),
        _ => None,
    }
}

/// The mask of the buttons whose line is low. The lines are pulled up, so a
/// low line is a pressed button.
pub fn read_mask(low: &[bool; 4]) -> (mask: u8)
    ensures
        forall|index: int|
            0 <= index < 8 ==> (#[trigger] has_bit(mask, index) <==> index < BUTTON_COUNT
                && low@[index]),
{
    let mut mask: u8 = 0;
    proof {
        lemma_empty_mask();
    }
    for index in 0..BUTTON_COUNT
        invariant
            forall|i: int|
                0 <= i < 8 ==> (#[trigger] has_bit(mask, i) <==> i < index && low@[i]),
    {
        if low[index] {
            mask = insert(mask, index);
        }
    }
    mask
}

proof fn lemma_empty_mask()
    ensures
        forall|index: int| 0 <= index < 8 ==> !#[trigger] has_bit(0u8, index),
{
    assert forall|index: int| 0 <= index < 8 implies !#[trigger] has_bit(0u8, index) by {
        let i = index as u8;
        assert(0u8 & (1u8 << i) == 0) by (bit_vector);
    }
}

/// One sample of one button.
pub struct Sample {
    pub pressed: bool,
    pub at: int,
}

impl Button {
    /// A button at rest: released, with nothing outstanding.
    pub open spec fn at_rest(self) -> bool {
        self == Button::initial(false, 0)
    }

    /// A press is timed exactly while the debounced level is pressed, only a
    /// press can have given a long event, and a sampled level that does not
    /// count yet is due at some time.
    pub open spec fn consistent(self) -> bool {
        &&& self.stable <==> self.pressed_at is Some
        &&& self.long_sent ==> self.stable
        &&& self.raw != self.stable ==> self.due is Some
    }

    /// The button after a series of samples.
    pub open spec fn after(self, samples: Seq<Sample>) -> Button
        decreases samples.len(),
    {
        if samples.len() == 0 {
            self
        } else {
            self.after(samples.drop_last()).next(samples.last().pressed, samples.last().at)
        }
    }

    /// Whether sample `i` of a series gives a short event.
    pub open spec fn short_at(self, samples: Seq<Sample>, i: int) -> bool {
        self.after(samples.take(i)).emits_short(samples[i].pressed, samples[i].at)
    }

    /// Whether sample `i` of a series gives a long event.
    pub open spec fn long_at(self, samples: Seq<Sample>, i: int) -> bool {
        self.after(samples.take(i)).emits_long(samples[i].pressed, samples[i].at)
    }
}

impl Button {
    /// The number of events that the samples from `from` up to, but not with,
    /// `to` give.
    pub open spec fn event_count(self, samples: Seq<Sample>, from: int, to: int) -> nat
        decreases to - from,
    {
        if to <= from {
            0
        } else {
            let before = self.event_count(samples, from, to - 1);
            let short: nat = if self.short_at(samples, to - 1) {
                1
            } else {
                0
            };
            let long: nat = if self.long_at(samples, to - 1) {
                1
            } else {
                0
            };
            before + short + long
        }
    }

    /// Whether sample `a` of a series makes a press count, and sample `b` is
    /// the next one to make its release count.
    pub open spec fn is_press(self, samples: Seq<Sample>, a: int, b: int) -> bool {
        &&& 0 <= a < b < samples.len()
        &&& !self.after(samples.take(a)).stable
        &&& forall|k: int| a < k <= b ==> (#[trigger] self.after(samples.take(k))).stable
        &&& !self.after(samples.take(b + 1)).stable
    }
}

/// Samples at the given times, all of the same level.
pub open spec fn level_samples(pressed: bool, times: Seq<int>) -> Seq<Sample> {
    times.map_values(|at: int| Sample { pressed, at })
}

/// Times that never run backwards.
pub open spec fn in_order(times: Seq<int>) -> bool {
    forall|i: int, j: int| 0 <= i <= j < times.len() ==> times[i] <= times[j]
}

/// A button starts out consistent, and every sample keeps it so.
pub proof fn law_samples_keep_consistency(button: Button, pressed: bool, now: int)
    requires
        button.consistent(),
    ensures
        Button::initial(pressed, now).consistent(),
        button.next(pressed, now).consistent(),
        button.next(pressed, now).raw == pressed,
{
}

/// A second sample of the same level at the same instant changes nothing, and
/// gives no event.
pub proof fn law_sampling_again_changes_nothing(button: Button, pressed: bool, now: int)
    ensures
        button.next(pressed, now).next(pressed, now) == button.next(pressed, now),
        !button.next(pressed, now).emits_short(pressed, now),
        !button.next(pressed, now).emits_long(pressed, now),
{
}

/// Polling all buttons again at the same instant with the same mask gives no
/// event.
pub proof fn law_polling_again_gives_no_event(
    buttons: Seq<Button>,
    polled: Seq<Button>,
    mask: u8,
    now: int,
    count: nat,
)
    requires
        count <= polled.len(),
        forall|i: int|
            0 <= i < count ==> #[trigger] polled[i] == buttons[i].next(has_bit(mask, i), now),
    ensures
        short_events(polled, mask, now, count) + long_events(polled, mask, now, count) == Seq::<
            ButtonEvent,
        >::empty(),
        forall|i: int|
            0 <= i < count ==> (#[trigger] polled[i]).next(has_bit(mask, i), now) == polled[i],
    decreases count,
{
    assert forall|i: int| 0 <= i < count implies (#[trigger] polled[i]).next(has_bit(mask, i), now)
        == polled[i] by {
        law_sampling_again_changes_nothing(buttons[i], has_bit(mask, i), now);
    }
    if count > 0 {
        let last = count - 1;
        law_polling_again_gives_no_event(buttons, polled, mask, now, last as nat);
        law_sampling_again_changes_nothing(buttons[last], has_bit(mask, last), now);
        assert(polled[last] == buttons[last].next(has_bit(mask, last), now));
        let earlier = short_events(polled, mask, now, last as nat) + long_events(
            polled,
            mask,
            now,
            last as nat,
        );
        assert(earlier.len() == 0);
    }
}

/// The events of one poll are those of its buttons: each button's short and
/// long event is among them exactly if its sample gives one.
pub proof fn law_poll_gives_the_events_of_its_buttons(
    buttons: Seq<Button>,
    mask: u8,
    now: int,
    count: nat,
    index: usize,
)
    requires
        count <= usize::MAX,
    ensures
        short_events(buttons, mask, now, count).to_multiset().count(ButtonEvent::Short(index)) == (
        if index < count && buttons[index as int].emits_short(has_bit(mask, index as int), now) {
            1nat
        } else {
            0nat
        }),
        short_events(buttons, mask, now, count).to_multiset().count(ButtonEvent::Long(index)) == 0,
        long_events(buttons, mask, now, count).to_multiset().count(ButtonEvent::Long(index)) == (
        if index < count && buttons[index as int].emits_long(has_bit(mask, index as int), now) {
            1nat
        } else {
            0nat
        }),
        long_events(buttons, mask, now, count).to_multiset().count(ButtonEvent::Short(index)) == 0,
    decreases count,
{
    let shorts = short_events(buttons, mask, now, count);
    let longs = long_events(buttons, mask, now, count);
    shorts.to_multiset_ensures();
    longs.to_multiset_ensures();
    if count > 0 {
        let last = (count - 1) as nat;
        law_poll_gives_the_events_of_its_buttons(buttons, mask, now, last, index);
        vstd::seq_lib::to_multiset_build(
            short_events(buttons, mask, now, last),
            ButtonEvent::Short(last as usize),
        );
        vstd::seq_lib::to_multiset_build(
            long_events(buttons, mask, now, last),
            ButtonEvent::Long(last as usize),
        );
    }
}

/// One sample gives at most one event of a button.
pub proof fn law_one_event_per_sample(button: Button, pressed: bool, now: int)
    requires
        button.consistent(),
    ensures
        !(button.emits_short(pressed, now) && button.emits_long(pressed, now)),
{
}

/// A short event comes with the release, and only once the released level has
/// lasted through the debounce time.
pub proof fn law_short_event_is_a_release(button: Button, pressed: bool, now: int)
    requires
        button.emits_short(pressed, now),
    ensures
        !pressed,
        !button.raw,
        button.stable,
        !button.next(pressed, now).stable,
        button.due matches Some(due) && due <= now,
{
}

/// After a long event, the press gives no further event: neither another long
/// one while it lasts, nor a short one at its release.
pub proof fn law_long_press_gives_no_other_event(
    button: Button,
    pressed: bool,
    now: int,
    later: Seq<Sample>,
    i: int,
)
    requires
        button.consistent(),
        button.emits_long(pressed, now),
        0 <= i < later.len(),
        forall|k: int|
            0 <= k <= i ==> (#[trigger] button.next(pressed, now).after(later.take(k))).stable,
    ensures
        !button.next(pressed, now).short_at(later, i),
        !button.next(pressed, now).long_at(later, i),
        button.next(pressed, now).after(later.take(i)).long_sent,
    decreases i,
{
    let first = button.next(pressed, now);
    if i == 0 {
        assert(later.take(0) =~= Seq::<Sample>::empty());
        assert(first.after(later.take(0)) == first);
    } else {
        law_long_press_gives_no_other_event(button, pressed, now, later, i - 1);
        assert(later.take(i).drop_last() =~= later.take(i - 1));
        assert(first.after(later.take(i)).stable);
    }
}

/// Where the debounced level waits for its due time, the sampled level has not
/// changed since the sample from which that time runs.
proof fn lemma_due_dates_from_a_change(button: Button, samples: Seq<Sample>)
    requires
        button.due is None,
    ensures
        button.after(samples).due matches Some(due) ==> exists|k: int|
            #![trigger samples[k]]
            0 <= k < samples.len() && due == samples[k].at + debounce() && (forall|j: int|
                k <= j < samples.len() ==> (#[trigger] samples[j]).pressed == button.after(
                    samples,
                ).raw),
    decreases samples.len(),
{
    if samples.len() > 0 {
        let shorter = samples.drop_last();
        lemma_due_dates_from_a_change(button, shorter);
        let before = button.after(shorter);
        let last = samples.last();
        if button.after(samples).due is Some {
            let due = button.after(samples).due->0;
            if last.pressed != before.raw {
                assert(samples[samples.len() - 1] == last);
            } else {
                let k = choose|k: int|
                    #![trigger shorter[k]]
                    0 <= k < shorter.len() && due == shorter[k].at + debounce() && (forall|j: int|
                        k <= j < shorter.len() ==> (#[trigger] shorter[j]).pressed == before.raw);
                assert(samples[k] == shorter[k]);
                assert forall|j: int| k <= j < samples.len() implies (
                #[trigger] samples[j]).pressed == button.after(samples).raw by {
                    if j < shorter.len() {
                        assert(samples[j] == shorter[j]);
                    }
                }
            }
        }
    }
}

/// Bounces do not count: when a sample changes the debounced level, the level
/// has been sampled unchanged for at least the debounce time.
pub proof fn law_level_counts_after_debounce(button: Button, samples: Seq<Sample>)
    requires
        button.due is None,
        samples.len() > 0,
        button.after(samples).stable != button.after(samples.drop_last()).stable,
    ensures
        exists|k: int|
            #![trigger samples[k]]
            0 <= k < samples.len() - 1 && samples.last().at - samples[k].at >= debounce() && (
            forall|j: int|
                k <= j < samples.len() ==> (#[trigger] samples[j]).pressed == button.after(
                    samples,
                ).stable),
{
    let shorter = samples.drop_last();
    lemma_due_dates_from_a_change(button, shorter);
    let before = button.after(shorter);
    let due = before.due->0;
    let k = choose|k: int|
        #![trigger shorter[k]]
        0 <= k < shorter.len() && due == shorter[k].at + debounce() && (forall|j: int|
            k <= j < shorter.len() ==> (#[trigger] shorter[j]).pressed == before.raw);
    assert(samples[k] == shorter[k]);
    assert forall|j: int| k <= j < samples.len() implies (#[trigger] samples[j]).pressed
        == button.after(samples).stable by {
        if j < shorter.len() {
            assert(samples[j] == shorter[j]);
        }
    }
}

/// How a press from rest proceeds, while it is too short for a long event.
proof fn lemma_press(button: Button, down: Seq<int>, settled: int, count: int)
    requires
        button.at_rest(),
        in_order(down),
        0 < settled < down.len(),
        down[settled] >= down[0] + debounce(),
        down[settled - 1] < down[0] + debounce(),
        0 < count <= down.len(),
    ensures
        button.after(level_samples(true, down.take(count))) == (Button {
            raw: true,
            stable: count > settled,
            due: if count > settled {
                None
            } else {
                Some(down[0] + debounce())
            },
            pressed_at: if count > settled {
                Some(down[settled])
            } else {
                None
            },
            long_sent: count > settled && down[count - 1] - down[settled] >= long_press(),
        }),
    decreases count,
{
    let samples = level_samples(true, down.take(count));
    assert(samples.drop_last() =~= level_samples(true, down.take(count - 1)));
    assert(samples.last() == Sample { pressed: true, at: down[count - 1] });
    if count > 1 {
        lemma_press(button, down, settled, count - 1);
        assert(down[count - 2] <= down[count - 1]);
        if count - 1 < settled {
            assert(down[count - 1] <= down[settled - 1]);
        }
    } else {
        assert(samples.drop_last() =~= Seq::<Sample>::empty());
        assert(button.after(samples.drop_last()) == button);
    }
}

/// A press that is held gives exactly one event, a long one, at the first
/// sample that finds it held long enough; it counts as held from the sample
/// `settled`, the first after the debounce time.
pub proof fn law_held_press_gives_one_long_event(
    button: Button,
    down: Seq<int>,
    settled: int,
    i: int,
)
    requires
        button.at_rest(),
        in_order(down),
        0 < settled < down.len(),
        down[settled] >= down[0] + debounce(),
        down[settled - 1] < down[0] + debounce(),
        0 <= i < down.len(),
    ensures
        !button.short_at(level_samples(true, down), i),
        button.long_at(level_samples(true, down), i) <==> i > settled && down[i] - down[settled]
            >= long_press() && down[i - 1] - down[settled] < long_press(),
{
    let samples = level_samples(true, down);
    assert(samples.take(i) =~= level_samples(true, down.take(i)));
    if i > 0 {
        lemma_press(button, down, settled, i);
        assert(down[i - 1] <= down[i]);
        if i < settled {
            assert(down[i] <= down[settled - 1]);
        }
    } else {
        assert(samples.take(0) =~= Seq::<Sample>::empty());
        assert(button.after(samples.take(0)) == button);
    }
}

/// How a short press ends: the released level waits out its debounce time.
proof fn lemma_release(button: Button, down: Seq<int>, settled: int, up: Seq<int>, count: int)
    requires
        button.at_rest(),
        in_order(down + up),
        0 < settled < down.len(),
        down[settled] >= down[0] + debounce(),
        down[settled - 1] < down[0] + debounce(),
        0 < up.len(),
        up[0] - down[0] < long_press(),
        0 < count <= up.len(),
    ensures
        button.after(level_samples(true, down) + level_samples(false, up.take(count))) == (if up[count
            - 1] < up[0] + debounce() {
            Button {
                raw: false,
                stable: true,
                due: Some(up[0] + debounce()),
                pressed_at: Some(down[settled]),
                long_sent: false,
            }
        } else {
            Button::initial(false, 0)
        }),
    decreases count,
{
    let all = down + up;
    assert(in_order(down)) by {
        assert forall|i: int, j: int| 0 <= i <= j < down.len() implies down[i] <= down[j] by {
            assert(all[i] == down[i] && all[j] == down[j]);
        }
    }
    let samples = level_samples(true, down) + level_samples(false, up.take(count));
    assert(samples.drop_last() =~= level_samples(true, down) + level_samples(
        false,
        up.take(count - 1),
    ));
    assert(samples.last() == Sample { pressed: false, at: up[count - 1] });
    assert(all[down.len() as int] == up[0]);
    assert(all[settled] == down[settled]);
    assert(all[down.len() - 1] == down[down.len() - 1]);
    if count > 1 {
        lemma_release(button, down, settled, up, count - 1);
        assert(all[down.len() + count - 2] == up[count - 2]);
        assert(all[down.len() + count - 1] == up[count - 1]);
    } else {
        lemma_press(button, down, settled, down.len() as int);
        assert(down.take(down.len() as int) =~= down);
        assert(samples.drop_last() =~= level_samples(true, down));
    }
}

/// A press that counted, and was released before the length of a long press,
/// gives exactly one event: a short one, at the first sample that finds the
/// release to have lasted through the debounce time.
pub proof fn law_short_press_gives_one_short_event(
    button: Button,
    down: Seq<int>,
    settled: int,
    up: Seq<int>,
    i: int,
)
    requires
        button.at_rest(),
        in_order(down + up),
        0 < settled < down.len(),
        down[settled] >= down[0] + debounce(),
        down[settled - 1] < down[0] + debounce(),
        0 < up.len(),
        up[0] - down[0] < long_press(),
        0 <= i < down.len() + up.len(),
    ensures
        !button.long_at(level_samples(true, down) + level_samples(false, up), i),
        button.short_at(level_samples(true, down) + level_samples(false, up), i) <==> i
            > down.len() && up[i - down.len()] >= up[0] + debounce() && up[i - down.len() - 1]
            < up[0] + debounce(),
{
    let all = down + up;
    let samples = level_samples(true, down) + level_samples(false, up);
    assert(forall|k: int| 0 <= k < down.len() ==> all[k] == down[k]);
    assert(in_order(down)) by {
        assert forall|j: int, k: int| 0 <= j <= k < down.len() implies down[j] <= down[k] by {
            assert(all[j] == down[j] && all[k] == down[k]);
        }
    }
    assert(all[down.len() as int] == up[0]);
    if i < down.len() {
        law_held_press_gives_one_long_event(button, down, settled, i);
        assert(samples.take(i) =~= level_samples(true, down).take(i));
        assert(samples[i] == level_samples(true, down)[i]);
        assert(all[i] <= all[down.len() as int]);
    } else {
        let j = i - down.len();
        assert(samples.take(i) =~= level_samples(true, down) + level_samples(false, up.take(j)));
        assert(all[i] == up[j]);
        if j > 0 {
            lemma_release(button, down, settled, up, j);
            assert(all[i - 1] == up[j - 1]);
        } else {
            lemma_press(button, down, settled, down.len() as int);
            assert(down.take(down.len() as int) =~= down);
            assert(samples.take(i) =~= level_samples(true, down));
            assert(all[i - 1] == down[down.len() - 1]);
        }
    }
}

/// While a press counts and is not released, it gives at most its long event.
proof fn lemma_press_so_far(button: Button, samples: Seq<Sample>, a: int, b: int, k: int)
    requires
        button.is_press(samples, a, b),
        a < k <= b,
    ensures
        button.event_count(samples, a, k) == (if button.after(samples.take(k)).long_sent {
            1nat
        } else {
            0nat
        }),
        forall|i: int| a <= i < k ==> !#[trigger] button.short_at(samples, i),
    decreases k,
{
    let before = button.after(samples.take(k - 1));
    assert(samples.take(k).drop_last() =~= samples.take(k - 1));
    assert(button.after(samples.take(k)) == before.next(
        samples[k - 1].pressed,
        samples[k - 1].at,
    ));
    assert(button.after(samples.take(k)).stable);
    if k == a + 1 {
        assert(button.event_count(samples, a, a) == 0);
    } else {
        lemma_press_so_far(button, samples, a, b, k - 1);
        assert(before.stable);
    }
}

/// Every press that counts gives exactly one event by the time its release
/// counts, whatever bounces come with it: either one long event before the
/// release counts, or one short event when it does.
pub proof fn law_every_press_gives_one_event(button: Button, samples: Seq<Sample>, a: int, b: int)
    requires
        button.is_press(samples, a, b),
    ensures
        button.event_count(samples, a, b + 1) == 1,
        forall|i: int| a <= i < b ==> !#[trigger] button.short_at(samples, i),
        !button.long_at(samples, b),
        button.short_at(samples, b) <==> button.event_count(samples, a, b) == 0,
{
    lemma_press_so_far(button, samples, a, b, b);
    let before = button.after(samples.take(b));
    assert(samples.take(b + 1).drop_last() =~= samples.take(b));
    assert(button.after(samples.take(b + 1)) == before.next(samples[b].pressed, samples[b].at));
    assert(before.stable);
    assert(button.event_count(samples, a, b + 1) == button.event_count(samples, a, b) + (
    if button.short_at(samples, b) {
        1nat
    } else {
        0nat
    }) + (if button.long_at(samples, b) {
        1nat
    } else {
        0nat
    }));
}

/// A press from rest counts at the first sample that finds it to have lasted for
/// 30 milliseconds, and not before.
pub proof fn law_press_counts_after_thirty_milliseconds(pressed_at: int, now: int)
    ensures
        Button::initial(false, 0).next(true, pressed_at).next(true, now).stable <==> now
            - pressed_at >= 30_000_000,
        !Button::initial(false, 0).next(true, pressed_at).stable,
{
}

/// A press that counts gives its long event at the first sample 650 milliseconds
/// after it began to count, and not before.
pub proof fn law_long_press_takes_650_milliseconds(button: Button, since: int, now: int)
    requires
        button.pressed_at == Some(since),
        button.raw,
        button.due is None,
        !button.long_sent,
    ensures
        button.emits_long(true, now) <==> now - since >= 650_000_000,
        button.next(true, now).long_sent <==> now - since >= 650_000_000,
{
}

/// The buttons are sampled often enough for three samples in the debounce time.
pub proof fn law_buttons_are_sampled_often()
    ensures
        3 * POLL_MS == 30,
        DEBOUNCE_MS == 3 * POLL_MS,
        LONG_PRESS_MS == 65 * POLL_MS,
{
}

/// Each press of each button asks for something of its own, and buttons that do
/// not exist ask for nothing.
pub proof fn law_each_press_has_its_command(event: ButtonEvent, other: ButtonEvent)
    ensures
        command_for(event) is Some <==> (match event {
            ButtonEvent::Short(index) => index < 4,
            ButtonEvent::Long(index) => index < 4,
        }),
        command_for(event) is Some && command_for(event) == command_for(other) ==> event == other,
        command_for(event) == Some(ButtonCommand::ApprovePairing) <==> event == ButtonEvent::Long(
            2,
        ),
        command_for(event) == Some(ButtonCommand::Disconnect) <==> event == ButtonEvent::Long(1),
{
}

} // verus!
