use a2a2::airplay::{
    collapse_group_matches, device_matches, discover, discover_outcome, select_airplay_target,
    AirPlayTarget, Device, ScanOutcome,
};
use a2a2::avrcp::MediaCommand;
use a2a2::bluetooth::devices::PlayerMethod;
use a2a2::bluetooth::{ComponentStatus, SetupIssue, SystemSetup};
use a2a2::buttons::ButtonCommand;
use a2a2::cli::{
    dispatch, doctor_notice, log_level, parse_bt_class, run_refusal, Action, Build, Command,
    DiscoverArgs, DoctorArgs, LogLevel, RunArgs,
};
use a2a2::command::CommandOutput;
use a2a2::config::{
    config_source, AudioQuality, Config, ConfigFile, ConfigSource, DEFAULT_BT_CLASS,
};
use a2a2::control::{
    apply_button_command, apply_media_command, apply_waiting_button_command, event_loop,
    ButtonAction, LoopAction, LoopEvent, MediaAction,
};
use a2a2::doctor::{
    adapter_command, adapter_report, airplay_diagnosis, airplay_report, component_status, describe_adapter, obstacle,
    ready_to_run, setup_report,
};
use a2a2::run::{run, RunState, Step, StepEvent};
use a2a2::stream::{CaptureEvent, CaptureShared, SendOutcome};

fn device(name: &str) -> Device {
    Device {
        name: name.to_string(),
        model: "AudioAccessory5,1".to_string(),
        mac: "A0:B1:C2:D3:E4:F5".to_string(),
        socket_addr: Some("192.168.1.20:7000".to_string()),
        addresses: vec!["192.168.1.20".to_string(), "fe80::1".to_string()],
        group_id: None,
        is_group_leader: false,
        group_public_name: None,
        supports_airplay2: true,
        supports_raop: true,
    }
}

fn member(name: &str, group: u64, leader: bool) -> Device {
    Device {
        group_id: Some(group),
        is_group_leader: leader,
        group_public_name: Some("Living Room".to_string()),
        ..device(name)
    }
}

#[test]
fn devices_match_by_any_trait() {
    let lamp = member("Kitchen", 1, false);
    for needle in [
        "kitchen", "KITCH", "accessory5", "living room", "a0:b1", "168.1.2", "FE80::", "",
    ] {
        assert!(device_matches(&lamp, needle), "{needle}");
    }
    for needle in ["bedroom", "7000", "living-room", "kitchen "] {
        assert!(!device_matches(&lamp, needle), "{needle}");
    }
    assert!(!device_matches(&device("Kitchen"), "living"));
}

#[test]
fn one_match_is_the_target() {
    let devices = [device("Kitchen"), device("Bedroom")];
    let target = select_airplay_target(&devices, "BED");
    assert!(matches!(target, Ok(AirPlayTarget::Single(1))));
}

#[test]
fn no_match_is_an_error() {
    let devices = [device("Kitchen")];
    let Err(error) = select_airplay_target(&devices, "attic") else {
        panic!("a match");
    };
    assert_eq!(error.message(), "no AirPlay device matched 'attic'");
}

#[test]
fn several_matches_are_ambiguous() {
    let devices = [device("Zoe"), device("Bath"), member("Adam", 3, true)];
    let Err(error) = select_airplay_target(&devices, "accessory") else {
        panic!("a match");
    };
    assert_eq!(
        error.message(),
        "AirPlay match 'accessory' is ambiguous: Zoe, Bath, Adam"
    );
    let devices = [member("One", 1, false), member("Two", 2, false)];
    assert!(select_airplay_target(&devices, "living").is_err());
}

#[test]
fn a_group_is_the_target_with_its_leader_first() {
    let devices = [
        member("b", 7, false),
        device("Kitchen"),
        member("a", 7, false),
        member("z", 7, true),
        member("a", 7, false),
        member("B", 7, false),
    ];
    let Ok(AirPlayTarget::Group(order)) = select_airplay_target(&devices, "living") else {
        panic!("no group");
    };
    assert_eq!(order, [3, 5, 2, 4, 0]);

    let mut sorted = vec![0usize, 2, 3, 4, 5];
    sorted.sort_by(|a, b| {
        let (a, b) = (&devices[*a], &devices[*b]);
        b.is_group_leader
            .cmp(&a.is_group_leader)
            .then_with(|| a.name.cmp(&b.name))
    });
    assert_eq!(order, sorted);
    assert_eq!(collapse_group_matches(&devices, &[0]), None);
    assert_eq!(collapse_group_matches(&devices, &[]), None);
    assert_eq!(collapse_group_matches(&devices, &[0, 1]), None);
    assert_eq!(collapse_group_matches(&devices, &[0, 2]), Some(vec![2, 0]));
}

#[test]
fn group_names_sort_as_strings_do() {
    let names = ["é", "e", "ea", "E", "", "z", "🎵", "\u{ffff}"];
    let devices: Vec<Device> = names.iter().map(|name| member(name, 1, false)).collect();
    let all: Vec<usize> = (0..names.len()).collect();
    let Some(order) = collapse_group_matches(&devices, &all) else {
        panic!("no group");
    };
    let ordered: Vec<&str> = order.iter().map(|i| names[*i]).collect();
    let mut sorted = names;
    sorted.sort();
    assert_eq!(ordered, sorted);
}

#[test]
fn discovery_is_listed() {
    assert_eq!(discover(&[]), ["No AirPlay devices found."]);
    let devices = [
        device("A"),
        Device {
            supports_airplay2: false,
            socket_addr: None,
            ..device("B")
        },
        Device {
            supports_airplay2: false,
            supports_raop: false,
            ..device("C")
        },
    ];
    assert_eq!(
        discover(&devices),
        [
            "A\tAudioAccessory5,1\t192.168.1.20:7000\tAirPlay2",
            "B\tAudioAccessory5,1\t<no address>\tRAOP",
            "C\tAudioAccessory5,1\t192.168.1.20:7000\tunknown",
        ]
    );
}

#[test]
fn classes_are_read() {
    assert_eq!(parse_bt_class(" 0x240414 "), Ok(0x240414));
    assert_eq!(parse_bt_class("0XFF"), Ok(255));
    assert_eq!(parse_bt_class("2360340"), Ok(2360340));
    assert_eq!(parse_bt_class("+7"), Ok(7));
    let error = |detail: &str| Err(format!("invalid Bluetooth class: {detail}"));
    assert_eq!(
        parse_bt_class("  "),
        error("cannot parse integer from empty string")
    );
    assert_eq!(
        parse_bt_class("0x"),
        error("cannot parse integer from empty string")
    );
    assert_eq!(parse_bt_class("ff"), error("invalid digit found in string"));
    assert_eq!(
        parse_bt_class("0x100000000"),
        error("number too large to fit in target type")
    );
}

#[test]
fn written_classes_are_read_back() {
    for class in [0u32, 1, DEFAULT_BT_CLASS, u32::MAX] {
        let text = a2a2::bluetooth::adapter::format_bt_class(class);
        assert_eq!(parse_bt_class(&text), Ok(class));
    }
}

#[test]
fn verbosity_raises_the_log_level() {
    assert_eq!(log_level(0), LogLevel::Info);
    assert_eq!(log_level(1), LogLevel::Debug);
    assert_eq!(log_level(2), LogLevel::Trace);
    assert_eq!(log_level(255), LogLevel::Trace);
}

fn no_args() -> RunArgs {
    RunArgs {
        airplay_match: None,
        pin: None,
        bt_alias: None,
        bt_class: None,
        discoverable: false,
        no_discoverable: false,
        hd_audio: false,
        standard_audio: false,
        render_delay_ms: None,
        airplay_discovery_secs: None,
        bluetooth_wait_secs: None,
    }
}

#[test]
fn defaults_are_as_documented() {
    let config = Config::default();
    assert_eq!(config.airplay_match, None);
    assert_eq!(config.pin, "3939");
    assert_eq!(config.bt_alias, "a2a2 Bridge");
    assert_eq!(config.bt_class, 0x240414);
    assert!(config.discoverable);
    assert!(!config.hd_audio);
    assert_eq!(f32::from_bits(config.airplay_volume_bits), 0.20);
    assert!(!config.sync_bluetooth_volume);
    assert_eq!(config.render_delay_ms, 350);
    assert_eq!(config.airplay_discovery_secs, 5);
    assert_eq!(config.bluetooth_wait_secs, 0);
}

#[test]
fn empty_arguments_change_nothing() {
    let before = format!("{:?}", Config::default());
    let after = format!("{:?}", Config::default().merge_run_args(no_args()));
    assert_eq!(before, after);
}

#[test]
fn arguments_override_the_configuration() {
    let args = RunArgs {
        airplay_match: Some("Kitchen".to_string()),
        pin: Some("1234".to_string()),
        bt_alias: Some("Alias".to_string()),
        bt_class: Some(9),
        no_discoverable: true,
        hd_audio: true,
        render_delay_ms: Some(10),
        airplay_discovery_secs: Some(11),
        bluetooth_wait_secs: Some(12),
        ..no_args()
    };
    let config = Config::default().merge_run_args(args.clone());
    assert_eq!(config.airplay_match.as_deref(), Some("Kitchen"));
    assert_eq!(config.pin, "1234");
    assert_eq!(config.bt_alias, "Alias");
    assert_eq!(config.bt_class, 9);
    assert!(!config.discoverable);
    assert!(config.hd_audio);
    assert_eq!(f32::from_bits(config.airplay_volume_bits), 0.20);
    assert_eq!(config.render_delay_ms, 10);
    assert_eq!(config.airplay_discovery_secs, 11);
    assert_eq!(config.bluetooth_wait_secs, 12);
    assert_eq!(config.target(), Ok("Kitchen".to_string()));
    let once = format!("{config:?}");
    assert_eq!(format!("{:?}", config.merge_run_args(args)), once);
}

#[test]
fn off_prevails_over_on() {
    let args = RunArgs {
        discoverable: true,
        no_discoverable: true,
        hd_audio: true,
        standard_audio: true,
        ..no_args()
    };
    let config = Config::default().merge_run_args(args);
    assert!(!config.discoverable);
    assert!(!config.hd_audio);
    let hidden = Config {
        discoverable: false,
        ..Config::default()
    };
    let args = RunArgs {
        discoverable: true,
        ..no_args()
    };
    assert!(hidden.merge_run_args(args).discoverable);
}

#[test]
fn a_target_is_needed() {
    assert_eq!(
        Config::default().target(),
        Err("set --airplay-match or A2A2_AIRPLAY_MATCH".to_string())
    );
}

#[test]
fn the_first_configuration_file_counts() {
    let source = config_source;
    assert_eq!(source(Some(true), true, None, true), ConfigSource::Named);
    assert_eq!(
        source(Some(false), true, Some(true), true),
        ConfigSource::Defaults
    );
    assert_eq!(
        source(None, true, Some(true), true),
        ConfigSource::Local
    );
    assert_eq!(source(None, false, Some(true), true), ConfigSource::User);
    assert_eq!(
        source(None, false, Some(false), true),
        ConfigSource::System
    );
    assert_eq!(
        source(None, false, Some(false), false),
        ConfigSource::Defaults
    );
    assert_eq!(source(None, false, None, true), ConfigSource::Defaults);
    assert_eq!(ConfigSource::Local.path(), Some("a2a2.toml"));
    assert_eq!(
        ConfigSource::User.path(),
        Some(".config/a2a2/config.toml")
    );
    assert_eq!(ConfigSource::System.path(), Some("/etc/a2a2.toml"));
    assert_eq!(ConfigSource::Named.path(), None);
    assert_eq!(ConfigSource::Defaults.path(), None);
}

#[test]
fn the_command_line_comes_before_the_file() {
    let file = || Config {
        airplay_match: Some("file".to_string()),
        ..Config::default()
    };
    let doctor = |text: Option<&str>| {
        Command::Doctor(DoctorArgs {
            airplay_match: text.map(String::from),
        })
    };
    assert!(
        matches!(dispatch(doctor(None), file()), Action::Doctor(Some(text)) if text == "file")
    );
    assert!(
        matches!(dispatch(doctor(Some("x")), file()), Action::Doctor(Some(text)) if text == "x")
    );
    let discover = Command::Discover(DiscoverArgs { timeout_secs: 8 });
    assert!(matches!(dispatch(discover, file()), Action::Discover(8)));
    let run = Command::Run(RunArgs {
        pin: Some("1".to_string()),
        ..no_args()
    });
    let Action::Run(config) = dispatch(run, file()) else {
        panic!("no run");
    };
    assert_eq!(config.pin, "1");
    assert_eq!(config.airplay_match.as_deref(), Some("file"));
}

#[test]
fn media_commands_reach_airplay() {
    assert_eq!(
        apply_media_command(MediaCommand::Play, false),
        MediaAction::Resume
    );
    assert_eq!(
        apply_media_command(MediaCommand::Pause, false),
        MediaAction::Pause
    );
    assert_eq!(
        apply_media_command(MediaCommand::Stop, true),
        MediaAction::Stop
    );
    assert_eq!(
        apply_media_command(MediaCommand::Volume(5), true),
        MediaAction::SetVolume(5)
    );
    assert_eq!(
        apply_media_command(MediaCommand::Volume(5), false),
        MediaAction::IgnoreVolume(5)
    );
}

#[test]
fn button_commands_reach_their_sides() {
    let player = ButtonAction::Player;
    let cases = [
        (
            ButtonCommand::EnterRewindMode,
            vec![player(PlayerMethod::Rewind)],
        ),
        (
            ButtonCommand::EnterFastForwardMode,
            vec![player(PlayerMethod::FastForward)],
        ),
        (
            ButtonCommand::Previous,
            vec![player(PlayerMethod::Previous)],
        ),
        (ButtonCommand::Next, vec![player(PlayerMethod::Next)]),
        (
            ButtonCommand::Pause,
            vec![player(PlayerMethod::Pause), ButtonAction::PauseAirPlay],
        ),
        (ButtonCommand::Disconnect, vec![ButtonAction::Disconnect]),
        (
            ButtonCommand::Play,
            vec![player(PlayerMethod::Play), ButtonAction::ResumeAirPlay],
        ),
        (
            ButtonCommand::ApprovePairing,
            vec![ButtonAction::ApprovePairing],
        ),
    ];
    for (command, actions) in cases {
        if let Some(action) = apply_waiting_button_command(command) {
            assert_eq!(actions, [action]);
        }
        assert_eq!(apply_button_command(command), actions);
    }
    assert_eq!(apply_waiting_button_command(ButtonCommand::Play), None);
    assert_eq!(
        apply_waiting_button_command(ButtonCommand::Disconnect),
        Some(ButtonAction::Disconnect)
    );
}

#[test]
fn the_bridge_ends_on_failures() {
    let feedback = |error: Option<&str>, capture_failed| LoopEvent::Feedback {
        error: error.map(String::from),
        capture_failed,
    };
    assert!(matches!(
        event_loop(LoopEvent::Shutdown, true),
        LoopAction::Finish
    ));
    assert!(matches!(
        event_loop(feedback(None, false), true),
        LoopAction::Continue
    ));
    assert!(matches!(
        event_loop(feedback(Some("lost"), true), true),
        LoopAction::Fail(text) if text == "AirPlay feedback failed: lost"
    ));
    assert!(matches!(
        event_loop(feedback(None, true), true),
        LoopAction::Fail(text) if text == "Bluetooth capture failed"
    ));
    assert!(matches!(
        event_loop(LoopEvent::Statistics, true),
        LoopAction::Report
    ));
    assert!(matches!(
        event_loop(LoopEvent::Media(MediaCommand::Volume(3)), true),
        LoopAction::Media(MediaAction::SetVolume(3))
    ));
    assert!(matches!(
        event_loop(LoopEvent::Button(ButtonCommand::Disconnect), true),
        LoopAction::Buttons(actions) if actions == [ButtonAction::Disconnect]
    ));
}

#[test]
fn frames_are_accounted_for() {
    let frame = |outcome| CaptureEvent::Frame {
        level: 321,
        sample_count: 7,
        outcome,
    };
    let mut shared = CaptureShared::default();
    assert!(shared.on_event(frame(SendOutcome::Sent)));
    assert!(shared.on_event(frame(SendOutcome::Full)));
    assert!(shared.on_event(CaptureEvent::Timeout));
    assert!(shared.on_event(frame(SendOutcome::Sent)));
    assert_eq!(shared.sent_frames, 2);
    assert_eq!(shared.dropped_frames, 1);
    assert_eq!(shared.samples, 9);
    assert_eq!(shared.audio_level, 321);
    assert!(!shared.failed && !shared.stop);

    for event in [
        frame(SendOutcome::Disconnected),
        frame(SendOutcome::Failed),
        CaptureEvent::Failed,
    ] {
        let mut shared = CaptureShared::default();
        assert!(!shared.on_event(event));
        assert!(shared.failed);
    }
}

#[test]
fn counters_run_over() {
    let mut shared = CaptureShared {
        samples: u64::MAX,
        dropped_frames: u64::MAX,
        ..CaptureShared::default()
    };
    shared.on_event(CaptureEvent::Frame {
        level: 0,
        sample_count: 4,
        outcome: SendOutcome::Full,
    });
    assert_eq!(shared.samples, 1);
    assert_eq!(shared.dropped_frames, 0);
}

#[test]
fn the_setup_is_reported() {
    let status = SystemSetup::check(ComponentStatus::Running, ComponentStatus::Running);
    assert_eq!(
        setup_report(&status),
        ["BlueZ:   ok", "BlueALSA: ok", "Bluetooth audio stack: ready"]
    );
    assert!(ready_to_run(&status).is_ok());

    let mut status = SystemSetup::check(ComponentStatus::Running, ComponentStatus::NotRunning);
    status.issues.push(SetupIssue {
        description: "odd".to_string(),
        fix_command: None,
    });
    assert_eq!(
        setup_report(&status),
        [
            "BlueZ:   ok",
            "BlueALSA: installed, not running",
            "Bluetooth audio stack: not ready",
            "  - BlueALSA service is not running (sudo systemctl start bluealsa-a2a2)",
            "  - odd"
        ]
    );
    let Err(reasons) = ready_to_run(&status) else {
        panic!("ready");
    };
    assert_eq!(
        reasons.obstacles,
        [
            "BlueALSA service is not running; suggested fix: sudo systemctl start bluealsa-a2a2",
            "odd"
        ]
    );
    assert_eq!(reasons.message, "Bluetooth audio stack is not ready");
    assert_eq!(obstacle(&status.issues[1]), "odd");
    assert_eq!(
        component_status(ComponentStatus::NotInstalled),
        "not installed"
    );
    assert_eq!(component_status(ComponentStatus::Unknown), "unknown");
}

#[test]
fn the_adapter_is_reported() {
    let text = "Controller AA:BB:CC:DD:EE:FF (public) \n\tName: x\n\tAlias: My Bridge \n\tAlias: y\n";
    assert_eq!(
        describe_adapter(text),
        "Controller AA:BB:CC:DD:EE:FF (public) alias=My Bridge "
    );
    assert_eq!(
        describe_adapter("nothing"),
        "Controller <unknown> alias=<unknown>"
    );
    let output = |success| CommandOutput {
        success,
        stdout: b"  Controller X\xff\nAlias: y".to_vec(),
        stderr: b" no controller \n".to_vec(),
    };
    assert_eq!(
        adapter_report(&Ok(output(true))),
        "Bluetooth adapter: Controller X\u{fffd} alias=y"
    );
    assert_eq!(
        adapter_report(&Ok(output(false))),
        "Bluetooth adapter: no controller"
    );
    assert_eq!(
        adapter_report(&Err("not found".to_string())),
        "Bluetooth adapter: not found"
    );
    assert_eq!(adapter_command().args, ["show"]);
}

#[test]
fn airplay_devices_are_reported() {
    let devices = [
        device("A"),
        Device {
            socket_addr: None,
            ..device("B")
        },
    ];
    assert_eq!(
        airplay_report(&devices, &Some("b".to_string()))[2],
        "  - B (no address) [match]"
    );
    assert_eq!(
        airplay_report(&devices, &None),
        [
            "AirPlay discovery:",
            "  - A (192.168.1.20:7000)",
            "  - B (no address)"
        ]
    );
    assert_eq!(
        airplay_report(&[], &None),
        ["AirPlay discovery: no devices found"]
    );
}

const COURSE: [Step; 20] = [
    Step::ReadTarget,
    Step::CheckSetup,
    Step::ConfigureAdapter,
    Step::StartPairingAgent,
    Step::StartButtons,
    Step::CreateClient,
    Step::Discover,
    Step::SelectTarget,
    Step::Connect,
    Step::SetVolume,
    Step::AwaitSource,
    Step::StartCapture,
    Step::SpawnCapture,
    Step::StartStream,
    Step::EventLoop,
    Step::StopCapture,
    Step::StopMonitor,
    Step::StopStream,
    Step::Disconnect,
    Step::Finished,
];

const OPTIONAL: [Step; 7] = [
    Step::StartButtons,
    Step::SetVolume,
    Step::EventLoop,
    Step::StopCapture,
    Step::StopMonitor,
    Step::StopStream,
    Step::Disconnect,
];

#[test]
fn steps_are_taken_in_order() {
    let mut state = RunState::start();
    for step in COURSE {
        assert_eq!(state.step, step);
        state = run(state, StepEvent::Done);
    }
    assert_eq!(state.step, Step::Finished);
    assert!(!state.group && !state.loop_failed);
}

#[test]
fn failures_of_needed_steps_break_the_course_off() {
    let mut state = RunState::start();
    for (place, step) in COURSE.into_iter().enumerate() {
        let failed = run(state, StepEvent::Failed);
        if step == Step::Finished {
            assert_eq!(failed.step, Step::Finished);
        } else if OPTIONAL.contains(&step) {
            assert_eq!(failed.step, COURSE[place + 1]);
            assert_eq!(failed.loop_failed, step == Step::EventLoop);
            assert_eq!(failed.failed(), step == Step::EventLoop);
        } else {
            assert_eq!(failed.step, Step::GivenUp);
            assert!(failed.failed() && !state.failed());
            assert_eq!(run(failed, StepEvent::Done), failed);
        }
        state = run(state, StepEvent::Done);
    }
}

#[test]
fn a_group_is_streamed_to_as_a_group() {
    let mut state = RunState::start();
    let mut words = Vec::new();
    while state.step != Step::Finished {
        words.push(state.failure_context().unwrap_or("-"));
        state = run(state, StepEvent::Selected { group: true });
    }
    assert!(state.group);
    assert_eq!(
        words,
        [
            "-",
            "-",
            "configure Bluetooth adapter",
            "start Bluetooth pairing agent",
            "GPIO buttons are unavailable",
            "create AirPlay client",
            "discover AirPlay devices",
            "-",
            "connect to AirPlay group target",
            "failed to set initial AirPlay volume",
            "wait for Bluetooth A2DP source",
            "start BlueALSA capture",
            "spawn Bluetooth capture thread",
            "start AirPlay group live stream",
            "-",
            "Bluetooth capture thread panicked",
            "-",
            "failed to stop AirPlay stream cleanly",
            "failed to disconnect AirPlay session cleanly",
        ]
    );
    let single = RunState {
        group: false,
        step: Step::Connect,
        ..state
    };
    assert_eq!(single.failure_context(), Some("connect to AirPlay target"));
    let single = RunState {
        step: Step::StartStream,
        ..single
    };
    assert_eq!(single.failure_context(), Some("start AirPlay live stream"));
}

#[test]
fn classes_are_read_in_every_form() {
    for class in [0u32, 7, 0xabcdef, 0x240414, u32::MAX] {
        for text in [
            format!("0x{class:x}"),
            format!("0x{class:X}"),
            format!("0X{class:08x}"),
            format!("0X{class:012X}"),
            format!("{class}"),
            format!("{class:015}"),
        ] {
            assert_eq!(parse_bt_class(&text), Ok(class), "{text}");
            let spaced = format!("\t \u{a0}{text}\u{2003}\n");
            assert_eq!(parse_bt_class(&spaced), Ok(class), "{spaced}");
        }
    }
}

#[test]
fn parts_of_a_matching_text_match() {
    let lamp = member("Kitchen", 1, false);
    let text = "ING ROOM";
    assert!(device_matches(&lamp, text));
    for from in 0..=text.len() {
        for to in from..=text.len() {
            assert!(device_matches(&lamp, &text[from..to]));
        }
    }
}

#[test]
fn builds_without_the_bridge_say_so() {
    assert_eq!(run_refusal(Build::Bridge), None);
    assert_eq!(
        run_refusal(Build::WithoutBridge),
        Some("a2a2 run requires a bridge build; rebuild with --features bridge")
    );
    assert_eq!(
        run_refusal(Build::OtherSystem),
        Some("a2a2 run is Linux-only; deploy it to the Raspberry Pi")
    );
    assert_eq!(doctor_notice(Build::Bridge), None);
    assert_eq!(
        doctor_notice(Build::WithoutBridge),
        Some("Bluetooth bridge checks are disabled in this build; rebuild with --features bridge.")
    );
    assert_eq!(
        doctor_notice(Build::OtherSystem),
        Some("Bluetooth bridge runtime is Linux-only; build/run it on the Raspberry Pi.")
    );
}

#[test]
fn the_quality_follows_the_configuration() {
    let config = Config::default();
    assert_eq!(config.audio_quality(), AudioQuality::Standard);
    let config = Config {
        hd_audio: true,
        ..config
    };
    assert_eq!(config.audio_quality(), AudioQuality::Hd);
}

#[test]
fn a_search_without_a_browser_fails() {
    let message = "create AirPlay service browser".to_string();
    assert_eq!(
        discover_outcome(&ScanOutcome::NoBrowser),
        Err(message.clone())
    );
    assert_eq!(
        airplay_diagnosis(&ScanOutcome::NoBrowser, &None),
        Err(message)
    );
}

#[test]
fn a_failed_search_ends_only_the_listing_in_an_error() {
    assert_eq!(
        discover_outcome(&ScanOutcome::Failed),
        Err("discover AirPlay devices".to_string())
    );
    assert_eq!(
        airplay_diagnosis(&ScanOutcome::Failed, &Some("a".to_string())),
        Ok(vec![])
    );
}

#[test]
fn a_search_shows_what_it_found() {
    let found = || ScanOutcome::Found(vec![device("A")]);
    assert_eq!(discover_outcome(&found()), Ok(discover(&[device("A")])));
    let wanted = Some("a".to_string());
    assert_eq!(
        airplay_diagnosis(&found(), &wanted),
        Ok(vec![
            "AirPlay discovery:".to_string(),
            "  - A (192.168.1.20:7000) [match]".to_string()
        ])
    );
    assert_eq!(
        airplay_diagnosis(&ScanOutcome::Found(vec![]), &None),
        Ok(vec!["AirPlay discovery: no devices found".to_string()])
    );
}

#[test]
fn a_configuration_file_is_held_to_its_content() {
    let shown = |file| Config::load("x.toml", file).map(|config| format!("{config:?}"));
    let default = format!("{:?}", Config::default());
    assert_eq!(shown(ConfigFile::Absent), Ok(default));
    assert_eq!(
        shown(ConfigFile::Unreadable),
        Err("read config file x.toml".to_string())
    );
    assert_eq!(
        shown(ConfigFile::Invalid),
        Err("parse config file x.toml".to_string())
    );
    let held = Config {
        pin: "1".to_string(),
        ..Config::default()
    };
    let expected = format!("{held:?}");
    assert_eq!(shown(ConfigFile::Holds(held)), Ok(expected));
}
