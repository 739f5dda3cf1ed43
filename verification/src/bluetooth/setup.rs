//! System setup verification for Bluetooth audio.
//!
//! Whether the required system components (BlueZ, BlueALSA) are installed and
//! running, by the outcome of a series of commands.

use vstd::prelude::*;

use crate::command::{command_line, CommandLine};
use crate::number::{self, to_decimal};
use crate::text;

verus! {

/// Status of a system component.
#[derive(Debug, Clone, Copy, PartialEq, Eq, Structural)]
pub enum ComponentStatus {
    /// Component is installed and running.
    Running,
    /// Component is installed but not running.
    NotRunning,
    /// Component is not installed.
    NotInstalled,
    /// Unable to determine status.
    Unknown,
}

/// A single setup issue with suggested fix.
#[derive(Debug, Clone)]
pub struct SetupIssue {
    /// Description of the issue.
    pub description: String,
    /// Suggested command to fix the issue.
    pub fix_command: Option<String>,
}

/// A setup issue, with its texts.
pub struct IssueView {
    pub description: Seq<char>,
    pub fix_command: Option<Seq<char>>,
}

impl View for SetupIssue {
    type V = IssueView;

    open spec fn view(&self) -> IssueView {
        IssueView {
            description: self.description@,
            fix_command: text::opt_string(self.fix_command),
        }
    }
}

/// Overall system setup status.
#[derive(Debug, Clone)]
pub struct SetupStatus {
    /// BlueZ daemon status.
    pub bluez: ComponentStatus,
    /// BlueALSA daemon status.
    pub bluealsa: ComponentStatus,
    /// List of issues found.
    pub issues: Vec<SetupIssue>,
    /// Whether the system is ready for Bluetooth audio.
    pub ready: bool,
}

impl SetupStatus {
    /// Get a summary message for the status.
    pub fn summary(&self) -> (text: String)
        ensures
            text@ == (if self.ready {
                "System is ready for Bluetooth audio"@
            } else {
                number::decimal(self.issues@.len() as int) + " issue(s) found"@
            }),
    {
        if self.ready {
            "System is ready for Bluetooth audio".to_owned()
        } else {
            to_decimal(self.issues.len() as u64).concat(" issue(s) found")
        }
    }
}

/// What is wrong with BlueZ.
pub open spec fn bluez_issues(status: ComponentStatus) -> Seq<IssueView> {
    match status {
        ComponentStatus::Running => seq![],
        ComponentStatus::NotInstalled => seq![
            IssueView {
                description: "BlueZ is not installed"@,
                fix_command: Some("sudo apt install bluez"@),
            },
        ],
        ComponentStatus::NotRunning => seq![
            IssueView {
                description: "Bluetooth service is not running"@,
                fix_command: Some("sudo systemctl start bluetooth"@),
            },
        ],
        ComponentStatus::Unknown => seq![
            IssueView {
                description: "BlueZ status unknown"@,
                fix_command: Some("sudo systemctl status bluetooth"@),
            },
        ],
    }
}

/// What is wrong with BlueALSA.
pub open spec fn bluealsa_issues(status: ComponentStatus) -> Seq<IssueView> {
    match status {
        ComponentStatus::Running => seq![],
        ComponentStatus::NotInstalled => seq![
            IssueView {
                description: "BlueALSA is not installed"@,
                fix_command: Some("sudo apt install bluez-alsa-utils"@),
            },
        ],
        ComponentStatus::NotRunning => seq![
            IssueView {
                description: "BlueALSA service is not running"@,
                fix_command: Some("sudo systemctl start bluealsa-a2a2"@),
            },
        ],
        ComponentStatus::Unknown => seq![
            IssueView {
                description: "BlueALSA status unknown"@,
                fix_command: Some("sudo systemctl status bluealsa-a2a2"@),
            },
        ],
    }
}

/// The texts of a list of issues.
pub open spec fn issue_views(issues: Seq<SetupIssue>) -> Seq<IssueView> {
    issues.map_values(|issue: SetupIssue| issue@)
}

/// An issue with a suggested command.
fn issue(description: &str, fix: &str) -> (issue: SetupIssue)
    ensures
        issue@ == (IssueView { description: description@, fix_command: Some(fix@) }),
{
    SetupIssue { description: description.to_owned(), fix_command: Some(fix.to_owned()) }
}

/// System setup verification.
pub struct SystemSetup;

impl SystemSetup {
    /// The overall status, given the status of the two components.
    pub fn check(bluez: ComponentStatus, bluealsa: ComponentStatus) -> (status: SetupStatus)
        ensures
            status.bluez == bluez,
            status.bluealsa == bluealsa,
            status.ready == (bluez == ComponentStatus::Running && bluealsa == ComponentStatus::Running),
            issue_views(status.issues@) == bluez_issues(bluez) + bluealsa_issues(bluealsa),
    {
        let mut issues: Vec<SetupIssue> = Vec::new();
        match bluez {
            ComponentStatus::Running => {},
            ComponentStatus::NotInstalled => {
                issues.push(issue("BlueZ is not installed", "sudo apt install bluez"));
            },
            ComponentStatus::NotRunning => {
                issues.push(
                    issue("Bluetooth service is not running", "sudo systemctl start bluetooth"),
                );
            },
            ComponentStatus::Unknown => {
                issues.push(issue("BlueZ status unknown", "sudo systemctl status bluetooth"));
            },
        }
        match bluealsa {
            ComponentStatus::Running => {},
            ComponentStatus::NotInstalled => {
                issues.push(issue("BlueALSA is not installed", "sudo apt install bluez-alsa-utils"));
            },
            ComponentStatus::NotRunning => {
                issues.push(
                    issue("BlueALSA service is not running", "sudo systemctl start bluealsa-a2a2"),
                );
            },
            ComponentStatus::Unknown => {
                issues.push(
                    issue("BlueALSA status unknown", "sudo systemctl status bluealsa-a2a2"),
                );
            },
        }
        assert(issue_views(issues@) =~= bluez_issues(bluez) + bluealsa_issues(bluealsa));
        let ready = bluez == ComponentStatus::Running && bluealsa == ComponentStatus::Running;
        SetupStatus { bluez, bluealsa, issues, ready }
    }
}

/// A command whose success tells something about the setup.
#[derive(Debug, Clone, Copy, PartialEq, Eq, Structural)]
pub enum Probe {
    /// Is `bluetoothctl` there?
    BluetoothctlTool,
    /// Does the Bluetooth service run?
    BluetoothService,
    /// Is `bluealsa` there?
    BluealsaTool,
    /// Is `bluealsactl` there?
    BluealsactlTool,
    /// Is `bluealsa-aplay` there?
    BluealsaAplayTool,
    /// Does the distribution's BlueALSA service run?
    BluealsaService,
    /// Does the bridge's own BlueALSA service run?
    BluealsaBridgeService,
    /// Does a BlueALSA process run?
    BluealsaProcess,
}

impl Probe {
    /// The program and the arguments of the command.
    pub open spec fn command_text(self) -> Seq<Seq<char>> {
        match self {
            Probe::BluetoothctlTool => seq!["which"@, "bluetoothctl"@],
            Probe::BluetoothService => seq!["systemctl"@, "is-active"@, "--quiet"@, "bluetooth"@],
            Probe::BluealsaTool => seq!["which"@, "bluealsa"@],
            Probe::BluealsactlTool => seq!["which"@, "bluealsactl"@],
            Probe::BluealsaAplayTool => seq!["which"@, "bluealsa-aplay"@],
            Probe::BluealsaService => seq!["systemctl"@, "is-active"@, "--quiet"@, "bluealsa"@],
            Probe::BluealsaBridgeService => seq![
                "systemctl"@,
                "is-active"@,
                "--quiet"@,
                "bluealsa-a2a2"@,
            ],
            Probe::BluealsaProcess => seq!["pgrep"@, "-x"@, "bluealsa"@],
        }
    }

    /// The command to run.
    pub fn command(self) -> (command: CommandLine)
        ensures
            seq![command@.program] + command@.args == self.command_text(),
    {
        let command = match self {
            Probe::BluetoothctlTool => command_line("which", &["bluetoothctl"]),
            Probe::BluetoothService => command_line(
                "systemctl",
                &["is-active", "--quiet", "bluetooth"],
            ),
            Probe::BluealsaTool => command_line("which", &["bluealsa"]),
            Probe::BluealsactlTool => command_line("which", &["bluealsactl"]),
            Probe::BluealsaAplayTool => command_line("which", &["bluealsa-aplay"]),
            Probe::BluealsaService => command_line(
                "systemctl",
                &["is-active", "--quiet", "bluealsa"],
            ),
            Probe::BluealsaBridgeService => command_line(
                "systemctl",
                &["is-active", "--quiet", "bluealsa-a2a2"],
            ),
            Probe::BluealsaProcess => command_line("pgrep", &["-x", "bluealsa"]),
        };
        assert(seq![command@.program] + command@.args =~= self.command_text());
        command
    }
}

/// How far the verification has come: the command to run next, if any, and what
/// is known of the components. A component not yet decided is unknown.
#[derive(Debug, Clone, Copy, PartialEq, Eq, Structural)]
pub struct SetupCheck {
    pub next: Option<Probe>,
    pub bluez: ComponentStatus,
    pub bluealsa: ComponentStatus,
}

impl SetupCheck {
    /// Nothing has been tried yet.
    pub open spec fn initial() -> SetupCheck {
        SetupCheck {
            next: Some(Probe::BluetoothctlTool),
            bluez: ComponentStatus::Unknown,
            bluealsa: ComponentStatus::Unknown,
        }
    }

    /// BlueZ has been decided; BlueALSA follows.
    pub open spec fn bluez_is(self, status: ComponentStatus) -> SetupCheck {
        SetupCheck { next: Some(Probe::BluealsaTool), bluez: status, ..self }
    }

    /// BlueALSA has been decided; nothing follows.
    pub open spec fn bluealsa_is(self, status: ComponentStatus) -> SetupCheck {
        SetupCheck { next: None, bluealsa: status, ..self }
    }

    /// The next command.
    pub open spec fn go_on_with(self, probe: Probe) -> SetupCheck {
        SetupCheck { next: Some(probe), ..self }
    }

    /// How far the verification is after the outcome of its command. The first
    /// tool that is there, and the first service that runs, suffice.
    pub open spec fn after(self, success: bool) -> SetupCheck {
        match self.next {
            None => self,
            Some(Probe::BluetoothctlTool) => if success {
                self.go_on_with(Probe::BluetoothService)
            } else {
                self.bluez_is(ComponentStatus::NotInstalled)
            },
            Some(Probe::BluetoothService) => self.bluez_is(
                if success {
                    ComponentStatus::Running
                } else {
                    ComponentStatus::NotRunning
                },
            ),
            Some(Probe::BluealsaTool) => self.go_on_with(
                if success {
                    Probe::BluealsaService
                } else {
                    Probe::BluealsactlTool
                },
            ),
            Some(Probe::BluealsactlTool) => self.go_on_with(
                if success {
                    Probe::BluealsaService
                } else {
                    Probe::BluealsaAplayTool
                },
            ),
            Some(Probe::BluealsaAplayTool) => if success {
                self.go_on_with(Probe::BluealsaService)
            } else {
                self.bluealsa_is(ComponentStatus::NotInstalled)
            },
            Some(Probe::BluealsaService) => if success {
                self.bluealsa_is(ComponentStatus::Running)
            } else {
                self.go_on_with(Probe::BluealsaBridgeService)
            },
            Some(Probe::BluealsaBridgeService) => if success {
                self.bluealsa_is(ComponentStatus::Running)
            } else {
                self.go_on_with(Probe::BluealsaProcess)
            },
            Some(Probe::BluealsaProcess) => self.bluealsa_is(
                if success {
                    ComponentStatus::Running
                } else {
                    ComponentStatus::NotRunning
                },
            ),
        }
    }

    /// Begins the verification.
    pub fn start() -> (check: SetupCheck)
        ensures
            check == SetupCheck::initial(),
    {
        SetupCheck {
            next: Some(Probe::BluetoothctlTool),
            bluez: ComponentStatus::Unknown,
            bluealsa: ComponentStatus::Unknown,
        }
    }

    /// Takes in the outcome of the command. A command that could not be run at
    /// all counts as one that failed.
    pub fn record(self, success: bool) -> (check: SetupCheck)
        ensures
            check == self.after(success),
    {
        let mut check = self;
        match self.next {
            None => {},
            Some(Probe::BluetoothctlTool) => {
                if success {
                    check.next = Some(Probe::BluetoothService);
                } else {
                    check.bluez = ComponentStatus::NotInstalled;
                    check.next = Some(Probe::BluealsaTool);
                }
            },
            Some(Probe::BluetoothService) => {
                check.bluez = if success {
                    ComponentStatus::Running
                } else {
                    ComponentStatus::NotRunning
                };
                check.next = Some(Probe::BluealsaTool);
            },
            Some(Probe::BluealsaTool) => {
                check.next = if success {
                    Some(Probe::BluealsaService)
                } else {
                    Some(Probe::BluealsactlTool)
                };
            },
            Some(Probe::BluealsactlTool) => {
                check.next = if success {
                    Some(Probe::BluealsaService)
                } else {
                    Some(Probe::BluealsaAplayTool)
                };
            },
            Some(Probe::BluealsaAplayTool) => {
                if success {
                    check.next = Some(Probe::BluealsaService);
                } else {
                    check.bluealsa = ComponentStatus::NotInstalled;
                    check.next = None;
                }
            },
            Some(Probe::BluealsaService) => {
                if success {
                    check.bluealsa = ComponentStatus::Running;
                    check.next = None;
                } else {
                    check.next = Some(Probe::BluealsaBridgeService);
                }
            },
            Some(Probe::BluealsaBridgeService) => {
                if success {
                    check.bluealsa = ComponentStatus::Running;
                    check.next = None;
                } else {
                    check.next = Some(Probe::BluealsaProcess);
                }
            },
            Some(Probe::BluealsaProcess) => {
                check.bluealsa = if success {
                    ComponentStatus::Running
                } else {
                    ComponentStatus::NotRunning
                };
                check.next = None;
            },
        }
        check
    }
}

/// The status of a component.
pub open spec fn component(installed: bool, running: bool) -> ComponentStatus {
    if !installed {
        ComponentStatus::NotInstalled
    } else if running {
        ComponentStatus::Running
    } else {
        ComponentStatus::NotRunning
    }
}

/// How far the verification is after some commands, each with the outcome that
/// `answers` gives for it.
pub open spec fn verified(answers: spec_fn(Probe) -> bool, commands: nat) -> SetupCheck
    decreases commands,
{
    if commands == 0 {
        SetupCheck::initial()
    } else {
        let before = verified(answers, (commands - 1) as nat);
        match before.next {
            Some(probe) => before.after(answers(probe)),
            None => before,
        }
    }
}

/// The verification ends after eight commands at most, and decides both
/// components. BlueZ is installed with its tool and runs with its service;
/// BlueALSA is installed with any of its tools, and runs with either service or
/// with its process.
pub proof fn law_verification_decides(answers: spec_fn(Probe) -> bool)
    ensures
        verified(answers, 8) == (SetupCheck {
            next: None,
            bluez: component(
                answers(Probe::BluetoothctlTool),
                answers(Probe::BluetoothService),
            ),
            bluealsa: component(
                answers(Probe::BluealsaTool) || answers(Probe::BluealsactlTool) || answers(
                    Probe::BluealsaAplayTool,
                ),
                answers(Probe::BluealsaService) || answers(Probe::BluealsaBridgeService) || answers(
                    Probe::BluealsaProcess,
                ),
            ),
        }),
{
    reveal_with_fuel(verified, 9);
}

/// The system is ready exactly if there is no issue.
pub proof fn law_ready_means_no_issue(bluez: ComponentStatus, bluealsa: ComponentStatus)
    ensures
        (bluez_issues(bluez) + bluealsa_issues(bluealsa)).len() == 0 <==> bluez
            == ComponentStatus::Running && bluealsa == ComponentStatus::Running,
{
}

/// Each component that does not run has one issue, with a way to mend it, and
/// one that runs has none; the issues of BlueZ come first.
pub proof fn law_each_component_has_its_issue(bluez: ComponentStatus, bluealsa: ComponentStatus)
    ensures
        bluez_issues(bluez).len() == (if bluez == ComponentStatus::Running {
            0nat
        } else {
            1nat
        }),
        bluealsa_issues(bluealsa).len() == (if bluealsa == ComponentStatus::Running {
            0nat
        } else {
            1nat
        }),
        bluez != ComponentStatus::Running ==> bluez_issues(bluez)[0].fix_command is Some,
        bluealsa != ComponentStatus::Running ==> bluealsa_issues(bluealsa)[0].fix_command is Some,
{
}

} // verus!
