use a2a2::bluetooth::pairing::{
    agent_command, agent_first, agent_next, agent_outcome, agent_script, approval_answer,
    bluetooth_agent_needs_yes, cut_transcript, now_millis, reader_goes_on, AgentProgress,
    AgentReader, AgentStartEvent, AgentStep, Approval, PairingApprovals, ReadEnd, ReaderAction,
    PAIRING_APPROVAL_WINDOW_MS,
};

const PROMPT: &str = "[agent] Confirm passkey 123456 (yes/no): ";

#[test]
fn prompts_are_recognised_in_any_case() {
    assert!(bluetooth_agent_needs_yes("Authorize service (Yes/No): "));
    assert!(bluetooth_agent_needs_yes("accept pairing [YES/NO]"));
    assert!(bluetooth_agent_needs_yes("continue? [Y/n]"));
    assert!(!bluetooth_agent_needs_yes("yes/no"));
    assert!(!bluetooth_agent_needs_yes("(yes / no)"));
    assert!(!bluetooth_agent_needs_yes(""));
}

#[test]
fn the_clock_is_held_to_its_range() {
    assert_eq!(now_millis(None), 0);
    assert_eq!(now_millis(Some(1_700_000_000_123)), 1_700_000_000_123);
    assert_eq!(now_millis(Some(u64::MAX as u128)), u64::MAX);
    assert_eq!(now_millis(Some(u64::MAX as u128 + 1)), u64::MAX);
}

#[test]
fn a_window_is_open_up_to_its_end() {
    let mut approvals = PairingApprovals::default();
    assert!(!approvals.is_open(1));
    assert_eq!(approvals.open_window(1000, 50), 1050);
    assert!(approvals.is_open(1050));
    assert!(!approvals.is_open(1051));
    assert_eq!(approvals.open_window(u64::MAX - 1, 50), u64::MAX);
    assert!(approvals.is_open(u64::MAX));
}

#[test]
fn answers_are_counted_around() {
    let mut approvals = PairingApprovals {
        approved_until_ms: 9,
        pending: true,
        answered: usize::MAX,
    };
    approvals.mark_answered();
    assert!(!approvals.pending);
    assert_eq!(approvals.answered, 0);
    assert_eq!(approvals.approved_until_ms, 9);
}

#[test]
fn a_prompt_waits_for_the_button() {
    let mut approvals = PairingApprovals::default();
    let mut reader = AgentReader::new(approvals.answered);
    assert_eq!(
        reader.read(b"hello\n", &mut approvals, 10),
        ReaderAction::Listen
    );
    assert_eq!(
        reader.read(PROMPT.as_bytes(), &mut approvals, 20),
        ReaderAction::AwaitButton
    );
    assert!(approvals.pending);
    assert_eq!(
        reader.read(b"still here", &mut approvals, 30),
        ReaderAction::Listen
    );

    let approval = approvals.approve_next_pairing_prompt(40);
    assert_eq!(
        approval,
        Approval {
            expires_at_ms: 40 + PAIRING_APPROVAL_WINDOW_MS,
            answer_now: true
        }
    );
    assert!(!approvals.pending);
    approvals.mark_answered();
    assert_eq!(
        reader.read(b"done\n", &mut approvals, 50),
        ReaderAction::Listen
    );
}

#[test]
fn an_open_approval_answers_at_once() {
    let mut approvals = PairingApprovals::default();
    let mut reader = AgentReader::new(approvals.answered);
    let approval = approvals.approve_next_pairing_prompt(1000);
    assert!(!approval.answer_now);
    assert_eq!(approval.expires_at_ms, 46_000);
    assert_eq!(
        reader.read(PROMPT.as_bytes(), &mut approvals, 46_000),
        ReaderAction::Approve
    );
    reader.approved(&mut approvals);
    assert_eq!(approvals.answered, 1);
    assert_eq!(
        reader.read(b"\n", &mut approvals, 46_000),
        ReaderAction::Listen
    );
}

#[test]
fn an_approval_runs_out() {
    let mut approvals = PairingApprovals::default();
    let mut reader = AgentReader::new(approvals.answered);
    approvals.approve_next_pairing_prompt(1000);
    assert_eq!(
        reader.read(PROMPT.as_bytes(), &mut approvals, 46_001),
        ReaderAction::AwaitButton
    );
}

#[test]
fn an_answer_voids_what_the_other_reader_saw() {
    let mut approvals = PairingApprovals::default();
    let mut first = AgentReader::new(approvals.answered);
    let mut second = AgentReader::new(approvals.answered);
    assert_eq!(
        first.read(PROMPT.as_bytes(), &mut approvals, 10),
        ReaderAction::AwaitButton
    );
    assert_eq!(
        second.read(PROMPT.as_bytes(), &mut approvals, 11),
        ReaderAction::Listen
    );
    approvals.approve_next_pairing_prompt(12);
    first.approved(&mut approvals);
    assert_eq!(
        second.read(b"paired\n", &mut approvals, 13),
        ReaderAction::Listen
    );
    assert_eq!(
        second.read(b"again (yes/no", &mut approvals, 14),
        ReaderAction::Approve
    );
}

#[test]
fn prompts_are_found_across_reads() {
    let mut approvals = PairingApprovals::default();
    let mut reader = AgentReader::new(approvals.answered);
    assert_eq!(
        reader.read(b"Confirm (yes", &mut approvals, 10),
        ReaderAction::Listen
    );
    assert_eq!(
        reader.read(b"/no): ", &mut approvals, 10),
        ReaderAction::AwaitButton
    );
}

#[test]
fn invalid_bytes_are_replaced() {
    let mut approvals = PairingApprovals::default();
    let mut reader = AgentReader::new(approvals.answered);
    assert_eq!(
        reader.read(b"\xff\xfe[y/\xffn", &mut approvals, 10),
        ReaderAction::Listen
    );
    assert_eq!(
        reader.read(b"\xc3\xa9 [Y/N \xff", &mut approvals, 10),
        ReaderAction::AwaitButton
    );
}

#[test]
fn a_prompt_far_back_is_forgotten() {
    let mut approvals = PairingApprovals {
        approved_until_ms: 0,
        pending: true,
        answered: 0,
    };
    let mut reader = AgentReader::new(0);
    reader.read(PROMPT.as_bytes(), &mut approvals, 10);
    reader.read_text(&"x".repeat(5000), &mut approvals, 10);
    approvals.pending = false;
    assert_eq!(
        reader.read(b"", &mut approvals, 10),
        ReaderAction::Listen
    );
}

#[test]
fn long_transcripts_keep_their_end() {
    let limit = "a".repeat(4096);
    assert_eq!(cut_transcript(&limit), limit);
    let longer = format!("b{limit}");
    assert_eq!(cut_transcript(&longer), "a".repeat(2048));

    // Two bytes each: the byte at which the kept part would begin is the
    // second of a character, so the part begins with the next one.
    let wide = format!("x{}", "é".repeat(2048));
    assert_eq!(wide.len(), 4097);
    assert_eq!(cut_transcript(&wide), "é".repeat(1024));
    let odd = format!("xy{}", "é".repeat(2048));
    assert_eq!(cut_transcript(&odd), "é".repeat(1024));
    let mixed = format!("{}z", "é".repeat(2048));
    assert_eq!(cut_transcript(&mixed), format!("{}z", "é".repeat(1023)));
}

#[test]
fn the_agent_is_set_up_in_order() {
    let command = agent_command();
    assert_eq!(command.program, "script");
    assert_eq!(
        command.args,
        [
            "--quiet",
            "--return",
            "--flush",
            "--echo",
            "never",
            "--command",
            "bluetoothctl",
            "/dev/null"
        ]
    );
    let steps = agent_script();
    assert_eq!(steps.len(), 6);
    assert!(matches!(&steps[0], AgentStep::Send(text) if text == "agent off\n"));
    assert!(matches!(steps[1], AgentStep::Pause(200)));
    assert!(matches!(&steps[2], AgentStep::Send(text) if text == "agent DisplayYesNo\n"));
    assert!(matches!(steps[3], AgentStep::Pause(200)));
    assert!(matches!(
        &steps[4],
        AgentStep::Send(text) if text == "default-agent\npairable on\ndiscoverable on\n"
    ));
    assert!(matches!(steps[5], AgentStep::Pause(500)));
    assert_eq!(approval_answer(), "yes\n");
}

#[test]
fn an_agent_that_exits_early_has_not_started() {
    assert_eq!(agent_outcome(None), Ok(()));
    assert_eq!(
        agent_outcome(Some("exit status: 1")),
        Err("bluetoothctl pairing agent exited early: exit status: 1".to_string())
    );
}

fn start_agent(answer: impl Fn(Option<usize>) -> AgentStartEvent) -> (usize, Result<(), String>) {
    let script = agent_script();
    let mut progress = agent_first(&script);
    let mut taken = 0;
    loop {
        let event = match &progress {
            AgentProgress::Step(index) => {
                assert_eq!(*index, taken);
                taken += 1;
                answer(Some(*index))
            }
            AgentProgress::CheckExit => answer(None),
            AgentProgress::Failed(message) => return (taken, Err(message.clone())),
            AgentProgress::Running => return (taken, Ok(())),
        };
        progress = agent_next(progress, &script, &event);
    }
}

#[test]
fn the_agent_starts_step_by_step() {
    let running = |step| match step {
        Some(_) => AgentStartEvent::Done,
        None => AgentStartEvent::Exit(None),
    };
    assert_eq!(start_agent(running), (6, Ok(())));
    let exits = |step| match step {
        Some(_) => AgentStartEvent::Done,
        None => AgentStartEvent::Exit(Some("signal: 9".to_string())),
    };
    assert_eq!(
        start_agent(exits),
        (
            6,
            Err("bluetoothctl pairing agent exited early: signal: 9".to_string())
        )
    );
    let broken = |step| match step {
        Some(2) => AgentStartEvent::Failed("broken pipe".to_string()),
        _ => AgentStartEvent::Done,
    };
    assert_eq!(start_agent(broken), (3, Err("broken pipe".to_string())));
    let unknown = |step| match step {
        Some(_) => AgentStartEvent::Done,
        None => AgentStartEvent::Failed("no child".to_string()),
    };
    assert_eq!(start_agent(unknown), (6, Err("no child".to_string())));
    let early = agent_next(
        AgentProgress::Step(0),
        &agent_script(),
        &AgentStartEvent::Exit(None),
    );
    assert!(matches!(early, AgentProgress::Step(0)));
}

#[test]
fn a_reader_that_cannot_answer_stops() {
    let mut approvals = PairingApprovals::default();
    approvals.approve_next_pairing_prompt(1000);
    let mut reader = AgentReader::new(approvals.answered);
    assert_eq!(
        reader.read(PROMPT.as_bytes(), &mut approvals, 1001),
        ReaderAction::Approve
    );
    assert!(!reader.answer_written(false, &mut approvals));
    assert_eq!(approvals.answered, 0);
    assert_eq!(
        reader.read(b"", &mut approvals, 1002),
        ReaderAction::Approve
    );
    assert!(reader.answer_written(true, &mut approvals));
    assert_eq!(approvals.answered, 1);
    assert_eq!(
        reader.read(b"", &mut approvals, 1003),
        ReaderAction::Listen
    );
}

#[test]
fn an_answer_of_the_button_counts_once_written() {
    let mut approvals = PairingApprovals {
        approved_until_ms: 0,
        pending: true,
        answered: 3,
    };
    assert!(approvals.approve_next_pairing_prompt(5).answer_now);
    approvals.answer_written(false);
    assert_eq!((approvals.pending, approvals.answered), (false, 3));
    approvals.answer_written(true);
    assert_eq!((approvals.pending, approvals.answered), (false, 4));
}

#[test]
fn a_reader_goes_on_only_after_an_interruption() {
    assert!(reader_goes_on(ReadEnd::Interrupted));
    assert!(!reader_goes_on(ReadEnd::Closed));
    assert!(!reader_goes_on(ReadEnd::Failed));
}
