//! Pairing: when the pairing agent's prompts are answered.
//!
//! The agent runs `bluetoothctl` and reads what it prints. A prompt that asks
//! for consent is answered only with the user's approval, given by a button: at
//! once where the approval is still open, or else when the button comes.

use vstd::prelude::*;

use crate::command::{command_line, decode_lossy, CommandLine};
use crate::text::{self, chars_of, contains, to_ascii_lowercase};

verus! {

/// How long the button's approval stays open, in milliseconds.
pub const PAIRING_APPROVAL_WINDOW_MS: u64 = 45_000;

/// The transcript is cut once it is longer than this, in bytes.
pub const TRANSCRIPT_LIMIT: usize = 4096;

/// What a cut transcript keeps at most, in bytes.
pub const TRANSCRIPT_KEEP: usize = 2048;

/// Milliseconds since the Unix epoch: zero where the clock stands before it,
/// and the largest value where it has run past that.
pub open spec fn epoch_millis(since_epoch: Option<u128>) -> u64 {
    match since_epoch {
        None => 0,
        Some(millis) => if millis <= u64::MAX {
            millis as u64
        } else {
            u64::MAX
        },
    }
}

/// Milliseconds since the Unix epoch: zero where the clock stands before it,
/// and the largest value where it has run past that.
pub fn now_millis(since_epoch: Option<u128>) -> (now: u64)
    ensures
        now == epoch_millis(since_epoch),
{
    match since_epoch {
        None => 0,
        Some(millis) => if millis <= u64::MAX as u128 {
            millis as u64
        } else {
            u64::MAX
        },
    }
}

/// Whether a transcript shows a prompt that asks for consent.
pub open spec fn asks_for_consent(transcript: Seq<char>) -> bool {
    let text = text::lowercase(transcript);
    ||| text::occurs(text, "(yes/no"@)
    ||| text::occurs(text, "[yes/no"@)
    ||| text::occurs(text, "[y/n"@)
}

/// Whether a transcript shows a prompt that asks for consent.
pub fn bluetooth_agent_needs_yes(transcript: &str) -> (asks: bool)
    ensures
        asks == asks_for_consent(transcript@),
{
    let text = to_ascii_lowercase(transcript);
    contains(text.as_str(), "(yes/no") || contains(text.as_str(), "[yes/no") || contains(
        text.as_str(),
        "[y/n",
    )
}

/// The length of a text in UTF-8, in bytes.
pub open spec fn byte_len(text: Seq<char>) -> int {
    vstd::utf8::encode_utf8(text).len() as int
}

/// The length of one character in UTF-8, in bytes.
pub open spec fn char_bytes(c: char) -> int {
    vstd::utf8::encode_scalar(c as u32).len() as int
}

/// The length of one character in UTF-8, in bytes.
fn char_width(c: char) -> (width: usize)
    ensures
        width == char_bytes(c),
        1 <= width <= 4,
{
    let value: u32 = c as u32;
    proof {
        vstd::utf8::char_is_scalar(c);
    }
    if value < 0x80 {
        1
    } else if value < 0x800 {
        2
    } else if value < 0x10000 {
        3
    } else {
        4
    }
}

/// Lengths add up.
pub proof fn lemma_byte_len_concat(a: Seq<char>, b: Seq<char>)
    ensures
        byte_len(a + b) == byte_len(a) + byte_len(b),
    decreases a.len(),
{
    if a.len() == 0 {
        assert(a + b =~= b);
    } else {
        lemma_byte_len_concat(a.drop_first(), b);
        assert((a + b).drop_first() =~= a.drop_first() + b);
        assert((a + b)[0] == a[0]);
    }
}

/// One more character adds its own length.
proof fn lemma_byte_len_push(text: Seq<char>, i: int)
    requires
        0 <= i < text.len(),
    ensures
        byte_len(text.take(i + 1)) == byte_len(text.take(i)) + char_bytes(text[i]),
        byte_len(text.take(i + 1)) <= byte_len(text),
{
    let one = seq![text[i]];
    assert(text.take(i + 1) =~= text.take(i) + one);
    lemma_byte_len_concat(text.take(i), one);
    assert(one.drop_first() =~= Seq::<char>::empty());
    assert(vstd::utf8::encode_utf8(one) =~= vstd::utf8::encode_scalar(text[i] as u32)
        + vstd::utf8::encode_utf8(Seq::<char>::empty()));
    assert(text =~= text.take(i + 1) + text.skip(i + 1));
    lemma_byte_len_concat(text.take(i + 1), text.skip(i + 1));
}

/// Whether character `i` is the first that begins at byte `offset` or later.
pub open spec fn first_from_byte(text: Seq<char>, offset: int, i: int) -> bool {
    &&& 0 <= i < text.len()
    &&& byte_len(text.take(i)) >= offset
    &&& forall|j: int| 0 <= j < i ==> byte_len(#[trigger] text.take(j)) < offset
}

/// Whether `kept` is what a transcript is cut to: all of it up to
/// [`TRANSCRIPT_LIMIT`] bytes, and of a longer one the characters that begin in
/// its last [`TRANSCRIPT_KEEP`] bytes.
pub open spec fn is_cut(transcript: Seq<char>, kept: Seq<char>) -> bool {
    if byte_len(transcript) <= TRANSCRIPT_LIMIT {
        kept == transcript
    } else {
        exists|i: int|
            #![trigger transcript.skip(i)]
            first_from_byte(transcript, byte_len(transcript) - TRANSCRIPT_KEEP, i) && kept
                == transcript.skip(i)
    }
}

/// What a transcript is cut to.
pub open spec fn cut(transcript: Seq<char>) -> Seq<char> {
    choose|kept: Seq<char>| is_cut(transcript, kept)
}

/// There is one way to cut a transcript.
pub proof fn lemma_cut(transcript: Seq<char>, kept: Seq<char>)
    requires
        is_cut(transcript, kept),
    ensures
        cut(transcript) == kept,
{
    let other = cut(transcript);
    assert(is_cut(transcript, other));
    if byte_len(transcript) > TRANSCRIPT_LIMIT {
        let offset = byte_len(transcript) - TRANSCRIPT_KEEP;
        let i = choose|i: int|
            #![trigger transcript.skip(i)]
            first_from_byte(transcript, offset, i) && kept == transcript.skip(i);
        let j = choose|j: int|
            #![trigger transcript.skip(j)]
            first_from_byte(transcript, offset, j) && other == transcript.skip(j);
        if i < j {
            assert(byte_len(transcript.take(i)) < offset);
        } else if j < i {
            assert(byte_len(transcript.take(j)) < offset);
        }
    }
}

/// Cuts a transcript that has grown too long.
pub fn cut_transcript(transcript: &str) -> (kept: String)
    ensures
        kept@ == cut(transcript@),
        is_cut(transcript@, kept@),
{
    let total: usize = transcript.as_bytes().len();
    assert(total == byte_len(transcript@));
    if total <= TRANSCRIPT_LIMIT {
        proof {
            lemma_cut(transcript@, transcript@);
        }
        return transcript.to_owned();
    }
    let offset: usize = total - TRANSCRIPT_KEEP;
    let chars = chars_of(transcript);
    let count: usize = chars.len();
    let mut at: usize = 0;
    let mut i: usize = 0;
    assert(chars@.take(0) =~= Seq::<char>::empty());
    while at < offset
        invariant
            chars@ == transcript@,
            total == byte_len(chars@),
            offset == total - TRANSCRIPT_KEEP,
            i <= chars@.len() == count,
            at == byte_len(chars@.take(i as int)),
            at < offset + 4,
            forall|j: int| 0 <= j < i ==> byte_len(#[trigger] chars@.take(j)) < offset,
        decreases chars@.len() - i,
    {
        proof {
            if i == chars@.len() {
                assert(chars@.take(i as int) =~= chars@);
            }
            lemma_byte_len_push(chars@, i as int);
        }
        at = at + char_width(chars[i]);
        i = i + 1;
    }
    proof {
        if i == chars@.len() {
            assert(chars@.take(i as int) =~= chars@);
        }
        assert(first_from_byte(transcript@, offset as int, i as int));
    }
    let kept = transcript.substring_char(i, count);
    proof {
        assert(kept@ =~= transcript@.skip(i as int));
        lemma_cut(transcript@, kept@);
    }
    kept.to_owned()
}

/// A cut transcript is the end of the transcript, and is never longer than the
/// limit; where something was cut off, no more than the last bytes are left.
pub proof fn law_cut_transcript_is_a_short_end(transcript: Seq<char>, kept: Seq<char>)
    requires
        is_cut(transcript, kept),
    ensures
        kept.len() <= transcript.len(),
        kept == transcript.skip(transcript.len() - kept.len()),
        byte_len(kept) <= TRANSCRIPT_LIMIT,
        byte_len(transcript) > TRANSCRIPT_LIMIT ==> byte_len(kept) <= TRANSCRIPT_KEEP,
{
    if byte_len(transcript) <= TRANSCRIPT_LIMIT {
        assert(transcript.skip(0) =~= transcript);
    } else {
        let offset = byte_len(transcript) - TRANSCRIPT_KEEP;
        let i = choose|i: int|
            #![trigger transcript.skip(i)]
            first_from_byte(transcript, offset, i) && kept == transcript.skip(i);
        assert(transcript =~= transcript.take(i) + transcript.skip(i));
        lemma_byte_len_concat(transcript.take(i), transcript.skip(i));
    }
}

/// Approvals and open prompts, as all parts of the agent see them.
#[derive(Debug, Clone, Copy)]
pub struct PairingApprovals {
    /// Until when the button's approval is open, in milliseconds since the
    /// epoch.
    pub approved_until_ms: u64,
    /// Whether a prompt waits for the button.
    pub pending: bool,
    /// How many prompts have been answered, modulo the range of the type.
    pub answered: usize,
}

/// The next count of answers.
pub open spec fn bumped(answered: usize) -> usize {
    if answered == usize::MAX {
        0
    } else {
        (answered + 1) as usize
    }
}

impl Default for PairingApprovals {
    /// No approval has been given and no prompt has been seen.
    fn default() -> (approvals: Self)
        ensures
            approvals == (PairingApprovals { approved_until_ms: 0, pending: false, answered: 0 }),
    {
        PairingApprovals { approved_until_ms: 0, pending: false, answered: 0 }
    }
}

/// What a press of the approval button brings about.
#[derive(Debug, Clone, Copy, PartialEq, Eq, Structural)]
pub struct Approval {
    /// Until when the approval is open, in milliseconds since the epoch.
    pub expires_at_ms: u64,
    /// Whether a waiting prompt is to be answered now.
    pub answer_now: bool,
}

/// The end of a window, held to the range of the clock.
pub open spec fn window_end(now_ms: u64, duration_ms: u64) -> u64 {
    if now_ms + duration_ms <= u64::MAX {
        (now_ms + duration_ms) as u64
    } else {
        u64::MAX
    }
}

impl PairingApprovals {
    /// Whether a prompt may be answered without further ado.
    pub fn is_open(&self, now_ms: u64) -> (open: bool)
        ensures
            open == (now_ms <= self.approved_until_ms),
    {
        now_ms <= self.approved_until_ms
    }

    /// Opens the approval for some time, and returns its end.
    pub fn open_window(&mut self, now_ms: u64, duration_ms: u64) -> (expires_at: u64)
        ensures
            expires_at == window_end(now_ms, duration_ms),
            *final(self) == (PairingApprovals { approved_until_ms: expires_at, ..*old(self) }),
    {
        let expires_at = now_ms.saturating_add(duration_ms);
        self.approved_until_ms = expires_at;
        expires_at
    }

    /// Notes that a prompt has been answered.
    pub fn mark_answered(&mut self)
        ensures
            *final(self) == AgentEvent::Answered.applied(*old(self)),
    {
        self.pending = false;
        self.answered = self.answered.wrapping_add(1);
    }

    /// Takes in whether an answer that the button asked for could be written.
    /// Where it could not, nothing counts as answered.
    pub fn answer_written(&mut self, written: bool)
        ensures
            *final(self) == (if written {
                AgentEvent::Answered.applied(*old(self))
            } else {
                *old(self)
            }),
    {
        if written {
            self.mark_answered();
        }
    }

    /// The button was pressed: the approval is open from now on, and a prompt
    /// that waits is to be answered. Whether the answer could be written,
    /// [`PairingApprovals::answer_written`] takes in.
    pub fn approve_next_pairing_prompt(&mut self, now_ms: u64) -> (approval: Approval)
        ensures
            approval.expires_at_ms == window_end(now_ms, PAIRING_APPROVAL_WINDOW_MS),
            approval.answer_now == old(self).pending,
            *final(self) == AgentEvent::Button(now_ms).applied(*old(self)),
    {
        let expires_at_ms = self.open_window(now_ms, PAIRING_APPROVAL_WINDOW_MS);
        let answer_now = self.pending;
        self.pending = false;
        Approval { expires_at_ms, answer_now }
    }
}

/// What the reader of the agent's output does next.
#[derive(Debug, Clone, Copy, PartialEq, Eq, Structural)]
pub enum ReaderAction {
    /// It reads on.
    Listen,
    /// It answers the prompt, and reports back with
    /// [`AgentReader::answer_written`].
    Approve,
    /// It reads on: a new prompt waits for the button.
    AwaitButton,
}

/// Why a reader got nothing to read.
#[derive(Debug, Clone, Copy, PartialEq, Eq, Structural)]
pub enum ReadEnd {
    /// The agent has closed the stream.
    Closed,
    /// The reading was interrupted.
    Interrupted,
    /// The reading failed otherwise.
    Failed,
}

/// Whether a reader goes on that got nothing to read: only after an
/// interruption.
pub fn reader_goes_on(end: ReadEnd) -> (go_on: bool)
    ensures
        go_on == (end is Interrupted),
{
    match end {
        ReadEnd::Interrupted => true,
        _ => false,
    }
}

/// A reader of one of the agent's output streams.
#[derive(Debug)]
pub struct AgentReader {
    transcript: String,
    last_answered: usize,
}

/// What a reader has seen since the last answer that it knows of.
pub struct ReaderView {
    pub transcript: Seq<char>,
    pub last_answered: usize,
}

impl View for AgentReader {
    type V = ReaderView;

    closed spec fn view(&self) -> ReaderView {
        ReaderView { transcript: self.transcript@, last_answered: self.last_answered }
    }
}

impl ReaderView {
    /// The transcript after more text: an answer in the meantime makes what
    /// was seen before it void.
    pub open spec fn extended(self, text: Seq<char>, answered: usize) -> ReaderView {
        ReaderView {
            transcript: cut(
                if answered == self.last_answered {
                    self.transcript + text
                } else {
                    text
                },
            ),
            last_answered: answered,
        }
    }
}

/// What a transcript leads to, given the approvals.
pub open spec fn reaction(
    transcript: Seq<char>,
    approvals: PairingApprovals,
    now_ms: u64,
) -> ReaderAction {
    if !asks_for_consent(transcript) || approvals.pending {
        ReaderAction::Listen
    } else if now_ms <= approvals.approved_until_ms {
        ReaderAction::Approve
    } else {
        ReaderAction::AwaitButton
    }
}

impl AgentReader {
    /// A reader that has seen nothing yet, and knows of the given answers.
    pub fn new(answered: usize) -> (reader: Self)
        ensures
            reader@ == (ReaderView { transcript: Seq::empty(), last_answered: answered }),
    {
        AgentReader { transcript: String::new(), last_answered: answered }
    }

    /// Takes in text that the agent printed.
    pub fn read_text(
        &mut self,
        text: &str,
        approvals: &mut PairingApprovals,
        now_ms: u64,
    ) -> (action: ReaderAction)
        ensures
            final(self)@ == old(self)@.extended(text@, old(approvals).answered),
            action == reaction(final(self)@.transcript, *old(approvals), now_ms),
            *final(approvals) == AgentEvent::Read(action).applied(*old(approvals)),
    {
        if approvals.answered != self.last_answered {
            self.transcript = String::new();
            self.last_answered = approvals.answered;
        }
        let mut longer = self.transcript.clone();
        longer.append(text);
        assert(old(approvals).answered != old(self)@.last_answered ==> longer@ =~= text@);
        self.transcript = cut_transcript(longer.as_str());
        if !bluetooth_agent_needs_yes(self.transcript.as_str()) || approvals.pending {
            return ReaderAction::Listen;
        }
        if approvals.is_open(now_ms) {
            ReaderAction::Approve
        } else {
            approvals.pending = true;
            ReaderAction::AwaitButton
        }
    }

    /// Takes in bytes that the agent printed.
    pub fn read(
        &mut self,
        bytes: &[u8],
        approvals: &mut PairingApprovals,
        now_ms: u64,
    ) -> (action: ReaderAction)
        ensures
            final(self)@ == old(self)@.extended(
                crate::command::lossy_text(bytes@),
                old(approvals).answered,
            ),
            action == reaction(final(self)@.transcript, *old(approvals), now_ms),
            *final(approvals) == AgentEvent::Read(action).applied(*old(approvals)),
            vstd::utf8::valid_utf8(bytes@) ==> final(self)@ == old(self)@.extended(
                vstd::utf8::decode_utf8(bytes@),
                old(approvals).answered,
            ),
    {
        let text = decode_lossy(bytes);
        self.read_text(text.as_str(), approvals, now_ms)
    }

    /// Notes that the reader's answer has been written.
    pub fn approved(&mut self, approvals: &mut PairingApprovals)
        ensures
            *final(approvals) == AgentEvent::Answered.applied(*old(approvals)),
            final(self)@ == (ReaderView {
                transcript: Seq::empty(),
                last_answered: final(approvals).answered,
            }),
    {
        approvals.mark_answered();
        self.transcript = String::new();
        self.last_answered = approvals.answered;
    }

    /// Takes in whether the reader's answer could be written, and returns
    /// whether the reader goes on: where the answer could not be written it
    /// stops, and nothing counts as answered.
    pub fn answer_written(&mut self, written: bool, approvals: &mut PairingApprovals) -> (go_on:
        bool)
        ensures
            go_on == written,
            *final(approvals) == (if written {
                AgentEvent::Answered.applied(*old(approvals))
            } else {
                *old(approvals)
            }),
            final(self)@ == (if written {
                ReaderView {
                    transcript: Seq::empty(),
                    last_answered: final(approvals).answered,
                }
            } else {
                old(self)@
            }),
    {
        if written {
            self.approved(approvals);
        }
        written
    }
}

/// One step of setting the agent up.
#[derive(Debug)]
pub enum AgentStep {
    /// Text to write to the agent.
    Send(String),
    /// A pause, in milliseconds.
    Pause(u64),
}

/// One step of setting the agent up, with its text.
pub enum AgentStepView {
    Send(Seq<char>),
    Pause(u64),
}

impl View for AgentStep {
    type V = AgentStepView;

    open spec fn view(&self) -> AgentStepView {
        match self {
            AgentStep::Send(text) => AgentStepView::Send(text@),
            AgentStep::Pause(ms) => AgentStepView::Pause(*ms),
        }
    }
}

/// The command that runs the agent: `bluetoothctl` on a pseudo-terminal.
pub fn agent_command() -> (command: CommandLine)
    ensures
        command@.program == "script"@,
        command@.args == seq![
            "--quiet"@,
            "--return"@,
            "--flush"@,
            "--echo"@,
            "never"@,
            "--command"@,
            "bluetoothctl"@,
            "/dev/null"@,
        ],
{
    let command = command_line(
        "script",
        &[
            "--quiet",
            "--return",
            "--flush",
            "--echo",
            "never",
            "--command",
            "bluetoothctl",
            "/dev/null",
        ],
    );
    assert(command@.args =~= seq![
        "--quiet"@,
        "--return"@,
        "--flush"@,
        "--echo"@,
        "never"@,
        "--command"@,
        "bluetoothctl"@,
        "/dev/null"@,
    ]);
    command
}

/// How the agent is set up: registered anew, as one that can ask for consent,
/// and with the adapter open for pairing.
pub fn agent_script() -> (steps: Vec<AgentStep>)
    ensures
        script_view(steps@) == seq![
            AgentStepView::Send("agent off\n"@),
            AgentStepView::Pause(200),
            AgentStepView::Send("agent DisplayYesNo\n"@),
            AgentStepView::Pause(200),
            AgentStepView::Send("default-agent\npairable on\ndiscoverable on\n"@),
            AgentStepView::Pause(500),
        ],
{
    let mut steps: Vec<AgentStep> = Vec::new();
    steps.push(AgentStep::Send("agent off\n".to_owned()));
    steps.push(AgentStep::Pause(200));
    steps.push(AgentStep::Send("agent DisplayYesNo\n".to_owned()));
    steps.push(AgentStep::Pause(200));
    steps.push(AgentStep::Send("default-agent\npairable on\ndiscoverable on\n".to_owned()));
    steps.push(AgentStep::Pause(500));
    assert(script_view(steps@) =~= seq![
        AgentStepView::Send("agent off\n"@),
        AgentStepView::Pause(200),
        AgentStepView::Send("agent DisplayYesNo\n"@),
        AgentStepView::Pause(200),
        AgentStepView::Send("default-agent\npairable on\ndiscoverable on\n"@),
        AgentStepView::Pause(500),
    ]);
    steps
}

/// The views of the steps of a script.
pub open spec fn script_view(script: Seq<AgentStep>) -> Seq<AgentStepView> {
    script.map_values(|step: AgentStep| step@)
}

/// Whether the agent has come up, given with which status it has exited, if it
/// has.
pub fn agent_outcome(exit: Option<&str>) -> (outcome: Result<(), String>)
    ensures
        match outcome {
            Ok(_) => exit is None,
            Err(message) => exit matches Some(status) && message@
                == "bluetoothctl pairing agent exited early: "@ + status@,
        },
{
    match exit {
        None => Ok(()),
        Some(status) => Err(
            "bluetoothctl pairing agent exited early: ".to_owned().concat(status),
        ),
    }
}

/// How far the start of the agent has come.
#[derive(Debug)]
pub enum AgentProgress {
    /// The step with this index is to be taken.
    Step(usize),
    /// The script is over: see whether the agent still runs.
    CheckExit,
    /// The agent could not be started.
    Failed(String),
    /// The agent runs.
    Running,
}

/// How far the start of the agent has come, with the message as text.
#[verifier::ext_equal]
pub enum AgentProgressView {
    Step(int),
    CheckExit,
    Failed(Seq<char>),
    Running,
}

impl View for AgentProgress {
    type V = AgentProgressView;

    open spec fn view(&self) -> AgentProgressView {
        match self {
            AgentProgress::Step(i) => AgentProgressView::Step(*i as int),
            AgentProgress::CheckExit => AgentProgressView::CheckExit,
            AgentProgress::Failed(message) => AgentProgressView::Failed(message@),
            AgentProgress::Running => AgentProgressView::Running,
        }
    }
}

/// What a step of the start has led to.
#[derive(Debug)]
pub enum AgentStartEvent {
    /// The text was written, or the pause is over.
    Done,
    /// The text could not be written, or the exit not be asked for, with the
    /// reason.
    Failed(String),
    /// Whether the agent has exited, and with which status.
    Exit(Option<String>),
}

impl AgentProgressView {
    /// The step with this index comes next, where there is one.
    pub open spec fn at(i: int, script: Seq<AgentStepView>) -> AgentProgressView {
        if i < script.len() {
            AgentProgressView::Step(i)
        } else {
            AgentProgressView::CheckExit
        }
    }

    /// How far the start is after an event: the first failure ends it. An event
    /// that does not belong to the step changes nothing.
    pub open spec fn next(
        self,
        script: Seq<AgentStepView>,
        event: AgentStartEvent,
    ) -> AgentProgressView {
        match (self, event) {
            (AgentProgressView::Step(i), AgentStartEvent::Done) => AgentProgressView::at(
                i + 1,
                script,
            ),
            (
                AgentProgressView::Step(_) | AgentProgressView::CheckExit,
                AgentStartEvent::Failed(reason),
            ) => AgentProgressView::Failed(reason@),
            (AgentProgressView::CheckExit, AgentStartEvent::Exit(None)) => {
                AgentProgressView::Running
            },
            (AgentProgressView::CheckExit, AgentStartEvent::Exit(Some(status))) => {
                AgentProgressView::Failed("bluetoothctl pairing agent exited early: "@ + status@)
            },
            _ => self,
        }
    }

    /// How far the start is after a series of events.
    pub open spec fn after(
        self,
        script: Seq<AgentStepView>,
        events: Seq<AgentStartEvent>,
    ) -> AgentProgressView
        decreases events.len(),
    {
        if events.len() == 0 {
            self
        } else {
            self.after(script, events.drop_last()).next(script, events.last())
        }
    }
}

/// How far the start of the agent is at its beginning.
pub fn agent_first(script: &[AgentStep]) -> (progress: AgentProgress)
    ensures
        progress@ == AgentProgressView::at(0, script_view(script@)),
        progress matches AgentProgress::Step(i) ==> i < script@.len(),
{
    if script.len() == 0 {
        AgentProgress::CheckExit
    } else {
        AgentProgress::Step(0)
    }
}

/// How far the start of the agent is after an event.
pub fn agent_next(
    progress: AgentProgress,
    script: &[AgentStep],
    event: &AgentStartEvent,
) -> (next: AgentProgress)
    requires
        progress matches AgentProgress::Step(i) ==> i < script@.len(),
    ensures
        next@ == progress@.next(script_view(script@), *event),
        next matches AgentProgress::Step(i) ==> i < script@.len(),
{
    let count: usize = script.len();
    match (progress, event) {
        (AgentProgress::Step(i), AgentStartEvent::Done) => {
            if i + 1 < count {
                AgentProgress::Step(i + 1)
            } else {
                AgentProgress::CheckExit
            }
        },
        (AgentProgress::Step(_), AgentStartEvent::Failed(reason)) => AgentProgress::Failed(
            reason.clone(),
        ),
        (AgentProgress::CheckExit, AgentStartEvent::Failed(reason)) => AgentProgress::Failed(
            reason.clone(),
        ),
        (AgentProgress::CheckExit, AgentStartEvent::Exit(exit)) => {
            let status = match exit {
                Some(status) => Some(status.as_str()),
                None => None,
            };
            match agent_outcome(status) {
                Ok(_) => AgentProgress::Running,
                Err(message) => AgentProgress::Failed(message),
            }
        },
        (other, _) => other,
    }
}

/// As long as nothing fails, the steps are taken in order, and the exit is
/// asked for after the last.
pub proof fn law_agent_steps_are_taken_in_order(
    script: Seq<AgentStepView>,
    events: Seq<AgentStartEvent>,
)
    requires
        events.len() <= script.len(),
        forall|j: int| 0 <= j < events.len() ==> (#[trigger] events[j]) is Done,
    ensures
        AgentProgressView::at(0, script).after(script, events) == AgentProgressView::at(
            events.len() as int,
            script,
        ),
    decreases events.len(),
{
    if events.len() > 0 {
        let before = events.drop_last();
        assert forall|j: int| 0 <= j < before.len() implies (#[trigger] before[j]) is Done by {
            assert(events[j] is Done);
        }
        law_agent_steps_are_taken_in_order(script, before);
        assert(events[events.len() - 1] is Done);
    }
}

/// The first failure ends the start of the agent with its reason, whatever
/// would come after it.
pub proof fn law_first_failure_ends_the_start(
    script: Seq<AgentStepView>,
    events: Seq<AgentStartEvent>,
    k: int,
)
    requires
        0 <= k <= script.len(),
        k < events.len(),
        forall|j: int| 0 <= j < k ==> (#[trigger] events[j]) is Done,
        events[k] is Failed,
    ensures
        AgentProgressView::at(0, script).after(script, events) == AgentProgressView::Failed(
            events[k]->Failed_0@,
        ),
    decreases events.len(),
{
    let before = events.drop_last();
    assert forall|j: int| 0 <= j < k implies (#[trigger] before[j]) is Done by {
        assert(events[j] is Done);
    }
    if k == events.len() - 1 {
        law_agent_steps_are_taken_in_order(script, before);
    } else {
        law_first_failure_ends_the_start(script, before, k);
    }
}

/// Once every step has been taken, the agent runs exactly if it has not exited
/// by then.
pub proof fn law_agent_runs_if_it_has_not_exited(
    script: Seq<AgentStepView>,
    events: Seq<AgentStartEvent>,
    exit: Option<String>,
)
    requires
        events.len() == script.len(),
        forall|j: int| 0 <= j < events.len() ==> (#[trigger] events[j]) is Done,
    ensures
        AgentProgressView::at(0, script).after(
            script,
            events.push(AgentStartEvent::Exit(exit)),
        ) is Running <==> exit is None,
{
    law_agent_steps_are_taken_in_order(script, events);
    assert(events.push(AgentStartEvent::Exit(exit)).drop_last() =~= events);
}

/// The answer that approves a prompt.
pub fn approval_answer() -> (text: String)
    ensures
        text@ == "yes\n"@,
{
    "yes\n".to_owned()
}

/// What can happen to the approvals.
pub enum AgentEvent {
    /// The approval button was pressed at this time.
    Button(u64),
    /// A reader took in text and reacted to it.
    Read(ReaderAction),
    /// An answer has been written.
    Answered,
}

impl AgentEvent {
    /// The approvals after the event.
    pub open spec fn applied(self, approvals: PairingApprovals) -> PairingApprovals {
        match self {
            AgentEvent::Button(now_ms) => PairingApprovals {
                approved_until_ms: window_end(now_ms, PAIRING_APPROVAL_WINDOW_MS),
                pending: false,
                ..approvals
            },
            AgentEvent::Read(action) => PairingApprovals {
                pending: approvals.pending || action == ReaderAction::AwaitButton,
                ..approvals
            },
            AgentEvent::Answered => PairingApprovals {
                pending: false,
                answered: bumped(approvals.answered),
                ..approvals
            },
        }
    }
}

/// The approvals after a series of events, from none at all.
pub open spec fn approvals_after(events: Seq<AgentEvent>) -> PairingApprovals
    decreases events.len(),
{
    if events.len() == 0 {
        PairingApprovals { approved_until_ms: 0, pending: false, answered: 0 }
    } else {
        events.last().applied(approvals_after(events.drop_last()))
    }
}

/// An approval that is open was opened by the button.
proof fn lemma_window_comes_from_a_button(events: Seq<AgentEvent>)
    requires
        approvals_after(events).approved_until_ms > 0,
    ensures
        exists|i: int|
            #![trigger events[i]]
            0 <= i < events.len() && events[i] is Button && approvals_after(events).approved_until_ms
                == window_end(events[i]->Button_0, PAIRING_APPROVAL_WINDOW_MS),
    decreases events.len(),
{
    if events.len() > 0 {
        let shorter = events.drop_last();
        if events.last() is Button {
            assert(events[events.len() - 1] is Button);
        } else {
            lemma_window_comes_from_a_button(shorter);
            let i = choose|i: int|
                #![trigger shorter[i]]
                0 <= i < shorter.len() && shorter[i] is Button && approvals_after(
                    shorter,
                ).approved_until_ms == window_end(
                    shorter[i]->Button_0,
                    PAIRING_APPROVAL_WINDOW_MS,
                );
            assert(events[i] == shorter[i]);
        }
    }
}

/// No prompt is answered of itself: whenever a reader answers one, the button
/// was pressed before, and its approval has not run out. (Where no approval was
/// ever given, the epoch itself, which a clock that stands before it also
/// gives, is left out.)
pub proof fn law_answers_need_the_button(
    events: Seq<AgentEvent>,
    transcript: Seq<char>,
    now_ms: u64,
)
    requires
        now_ms > 0 || approvals_after(events).approved_until_ms > 0,
        reaction(transcript, approvals_after(events), now_ms) == ReaderAction::Approve,
    ensures
        asks_for_consent(transcript),
        exists|i: int|
            #![trigger events[i]]
            0 <= i < events.len() && events[i] is Button && now_ms <= events[i]->Button_0
                + PAIRING_APPROVAL_WINDOW_MS,
{
    lemma_window_comes_from_a_button(events);
    let i = choose|i: int|
        #![trigger events[i]]
        0 <= i < events.len() && events[i] is Button && approvals_after(events).approved_until_ms
            == window_end(events[i]->Button_0, PAIRING_APPROVAL_WINDOW_MS);
    assert(now_ms <= events[i]->Button_0 + PAIRING_APPROVAL_WINDOW_MS);
}

/// While a prompt waits for the button, no reader answers or reports another.
pub proof fn law_waiting_prompt_waits_for_the_button(
    transcript: Seq<char>,
    approvals: PairingApprovals,
    now_ms: u64,
)
    requires
        approvals.pending,
    ensures
        reaction(transcript, approvals, now_ms) == ReaderAction::Listen,
        AgentEvent::Read(reaction(transcript, approvals, now_ms)).applied(approvals) == approvals,
{
}

/// A prompt that comes while the button's approval is open is answered at once;
/// one that comes later waits.
pub proof fn law_approval_window(
    transcript: Seq<char>,
    approvals: PairingApprovals,
    pressed_at: u64,
    now_ms: u64,
)
    requires
        asks_for_consent(transcript),
    ensures
        reaction(transcript, AgentEvent::Button(pressed_at).applied(approvals), now_ms) == (if now_ms
            <= pressed_at + PAIRING_APPROVAL_WINDOW_MS {
            ReaderAction::Approve
        } else {
            ReaderAction::AwaitButton
        }),
{
}

/// Once a prompt has been answered, by whichever reader, no reader reacts to
/// what it had seen before: its transcript starts anew with its next text.
pub proof fn law_answer_voids_the_transcripts(
    reader: ReaderView,
    approvals: PairingApprovals,
    text: Seq<char>,
)
    requires
        reader.last_answered == approvals.answered,
    ensures
        reader.extended(text, AgentEvent::Answered.applied(approvals).answered).transcript == cut(
            text,
        ),
{
}

/// A prompt is recognised wherever it stands, and in whatever case its letters
/// are written.
pub proof fn law_prompts_are_recognised(before: Seq<char>, prompt: Seq<char>, after: Seq<char>)
    requires
        ({
            let low = text::lowercase(prompt);
            low == "(yes/no"@ || low == "[yes/no"@ || low == "[y/n"@
        }),
    ensures
        asks_for_consent(before + prompt + after),
        asks_for_consent(before + text::uppercase(prompt) + after),
{
    text::law_middle_is_a_part(before, prompt, after);
    text::law_parts_occur_in_lower_case(before + prompt + after, prompt);
    let upper = text::uppercase(prompt);
    text::law_case_is_changed_by_character(prompt, Seq::empty(), ' ');
    text::law_middle_is_a_part(before, upper, after);
    text::law_parts_occur_in_lower_case(before + upper + after, upper);
}

/// Nothing else is taken for a prompt.
pub proof fn law_only_prompts_are_recognised(transcript: Seq<char>)
    requires
        asks_for_consent(transcript),
    ensures
        exists|i: int, j: int|
            #![trigger transcript.subrange(i, j)]
            0 <= i <= j <= transcript.len() && ({
                let low = text::lowercase(transcript.subrange(i, j));
                low == "(yes/no"@ || low == "[yes/no"@ || low == "[y/n"@
            }),
{
    let low = text::lowercase(transcript);
    let part = if text::occurs(low, "(yes/no"@) {
        "(yes/no"@
    } else if text::occurs(low, "[yes/no"@) {
        "[yes/no"@
    } else {
        "[y/n"@
    };
    let i = choose|i: int| text::occurs_at(low, part, i);
    let j = i + part.len();
    assert(text::occurs_at(low, part, i));
    assert(text::lowercase(transcript.subrange(i, j)) =~= low.subrange(i, j));
}

/// Without a prompt a reader only listens. A prompt that comes without an open
/// approval, while none waits, waits for the button; the button ends its wait,
/// and opens the approval for 45 seconds.
pub proof fn law_prompts_wait_for_the_button(
    transcript: Seq<char>,
    approvals: PairingApprovals,
    now_ms: u64,
    pressed_at: u64,
)
    ensures
        !asks_for_consent(transcript) ==> reaction(transcript, approvals, now_ms)
            == ReaderAction::Listen,
        asks_for_consent(transcript) && !approvals.pending ==> (reaction(
            transcript,
            approvals,
            now_ms,
        ) == ReaderAction::AwaitButton <==> now_ms > approvals.approved_until_ms),
        AgentEvent::Read(ReaderAction::AwaitButton).applied(approvals).pending,
        !AgentEvent::Button(pressed_at).applied(approvals).pending,
        pressed_at + 45_000 <= u64::MAX ==> AgentEvent::Button(pressed_at).applied(
            approvals,
        ).approved_until_ms == pressed_at + 45_000,
        pressed_at + 45_000 > u64::MAX ==> AgentEvent::Button(pressed_at).applied(
            approvals,
        ).approved_until_ms == u64::MAX,
{
}

/// Each event changes its own part of the approvals: reading neither opens nor
/// counts anything, the button counts nothing, and an answer opens nothing but
/// is always counted and ends the wait.
pub proof fn law_events_keep_to_their_part(
    approvals: PairingApprovals,
    action: ReaderAction,
    pressed_at: u64,
)
    ensures
        ({
            let read = AgentEvent::Read(action).applied(approvals);
            let pressed = AgentEvent::Button(pressed_at).applied(approvals);
            let answered = AgentEvent::Answered.applied(approvals);
            &&& read.approved_until_ms == approvals.approved_until_ms
            &&& read.answered == approvals.answered
            &&& action != ReaderAction::AwaitButton ==> read.pending == approvals.pending
            &&& pressed.answered == approvals.answered
            &&& answered.approved_until_ms == approvals.approved_until_ms
            &&& answered.answered != approvals.answered
            &&& !answered.pending
            &&& approvals.answered < usize::MAX ==> answered.answered == approvals.answered + 1
        }),
{
}

/// As long as no prompt is answered, what a reader takes in is gathered, so that
/// a prompt is seen that comes in several parts; the reader always knows the
/// answers that there have been.
pub proof fn law_text_is_gathered(reader: ReaderView, text: Seq<char>, answered: usize)
    ensures
        reader.extended(text, answered).last_answered == answered,
        answered == reader.last_answered && byte_len(reader.transcript + text) <= 4096
            ==> reader.extended(text, answered).transcript == reader.transcript + text,
        answered != reader.last_answered && byte_len(text) <= 4096 ==> reader.extended(
            text,
            answered,
        ).transcript == text,
{
    if byte_len(reader.transcript + text) <= 4096 {
        lemma_cut(reader.transcript + text, reader.transcript + text);
    }
    if byte_len(text) <= 4096 {
        lemma_cut(text, text);
    }
}

/// A character takes at most four bytes.
proof fn lemma_char_bytes(c: char)
    ensures
        1 <= char_bytes(c) <= 4,
{
    vstd::utf8::char_is_scalar(c);
}

/// A cut transcript keeps as much of the end as there is room for: the
/// character that was cut off last would have made it too long.
pub proof fn law_cut_transcript_keeps_what_fits(transcript: Seq<char>, kept: Seq<char>)
    requires
        is_cut(transcript, kept),
        byte_len(transcript) > 4096,
    ensures
        2044 < byte_len(kept) <= 2048,
{
    let offset = byte_len(transcript) - TRANSCRIPT_KEEP;
    let i = choose|i: int|
        #![trigger transcript.skip(i)]
        first_from_byte(transcript, offset, i) && kept == transcript.skip(i);
    assert(transcript =~= transcript.take(i) + transcript.skip(i));
    lemma_byte_len_concat(transcript.take(i), transcript.skip(i));
    if i > 0 {
        lemma_byte_len_push(transcript, i - 1);
        lemma_char_bytes(transcript[i - 1]);
        assert(byte_len(transcript.take(i - 1)) < offset);
    } else {
        assert(transcript.take(0) =~= Seq::<char>::empty());
        assert(byte_len(transcript.take(0)) == 0);
    }
}

/// The clock tells every time that it can hold as it is, and never runs
/// backwards.
pub proof fn law_clock_tells_the_time(millis: u64, a: u128, b: u128)
    ensures
        epoch_millis(Some(millis as u128)) == millis,
        epoch_millis(None) == 0,
        a <= b ==> epoch_millis(Some(a)) <= epoch_millis(Some(b)),
        a > u64::MAX ==> epoch_millis(Some(a)) == u64::MAX,
{
}

} // verus!
