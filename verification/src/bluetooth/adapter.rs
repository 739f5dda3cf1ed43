//! Setting the Bluetooth adapter up.

use vstd::prelude::*;

use crate::command::{command_line, succeeded, CommandLine, CommandOutput, CommandText};
use crate::number::{self, pad_with_zeros, write_number};
use crate::split::{self, lines};
use crate::text::{self, find, starts_with, trim, trim_start};

verus! {

/// One step of setting the adapter up.
#[derive(Debug)]
pub enum AdapterStep {
    /// Run this command; the setup ends in an error if it fails.
    Run(CommandLine),
    /// Set the class of every adapter; a failure is only reported.
    SetClass,
}

/// One step of setting the adapter up, with its texts.
pub enum AdapterStepView {
    Run(Seq<Seq<char>>),
    SetClass,
}

impl View for AdapterStep {
    type V = AdapterStepView;

    open spec fn view(&self) -> AdapterStepView {
        match self {
            AdapterStep::Run(command) => AdapterStepView::Run(
                seq![command@.program] + command@.args,
            ),
            AdapterStep::SetClass => AdapterStepView::SetClass,
        }
    }
}

/// A `bluetoothctl` command with two arguments.
pub open spec fn bluetoothctl(first: Seq<char>, second: Seq<char>) -> AdapterStepView {
    AdapterStepView::Run(seq!["bluetoothctl"@, first, second])
}

/// How the adapter is set up: powered, named and classed, and where wanted open
/// for discovery and pairing without a time limit.
pub open spec fn adapter_plan(alias: Seq<char>, discoverable: bool) -> Seq<AdapterStepView> {
    let always = seq![
        bluetoothctl("power"@, "on"@),
        bluetoothctl("system-alias"@, alias),
        AdapterStepView::SetClass,
    ];
    if discoverable {
        always + seq![
            bluetoothctl("discoverable-timeout"@, "0"@),
            bluetoothctl("discoverable"@, "on"@),
            bluetoothctl("pairable"@, "on"@),
        ]
    } else {
        always
    }
}

/// A step that runs `bluetoothctl`.
fn bluetoothctl_step(first: &str, second: &str) -> (step: AdapterStep)
    ensures
        step@ == bluetoothctl(first@, second@),
{
    let command = command_line("bluetoothctl", &[first, second]);
    assert(seq![command@.program] + command@.args =~= seq!["bluetoothctl"@, first@, second@]);
    AdapterStep::Run(command)
}

/// The steps that set the adapter up, in order.
pub fn configure_bluetooth_adapter(alias: &str, discoverable: bool) -> (steps: Vec<AdapterStep>)
    ensures
        plan_view(steps@) == adapter_plan(alias@, discoverable),
{
    let mut steps: Vec<AdapterStep> = Vec::new();
    steps.push(bluetoothctl_step("power", "on"));
    steps.push(bluetoothctl_step("system-alias", alias));
    steps.push(AdapterStep::SetClass);
    if discoverable {
        steps.push(bluetoothctl_step("discoverable-timeout", "0"));
        steps.push(bluetoothctl_step("discoverable", "on"));
        steps.push(bluetoothctl_step("pairable", "on"));
    }
    assert(plan_view(steps@) =~= adapter_plan(alias@, discoverable));
    steps
}

/// What is said of a `bluetoothctl` command that failed: its complaint, or
/// where it made none what it printed.
pub open spec fn failure_text(output: CommandOutput) -> Seq<char> {
    "bluetoothctl failed: "@ + (if output.complaint().len() == 0 {
        text::trimmed(output.printed())
    } else {
        output.complaint()
    })
}

/// The outcome of a `bluetoothctl` command.
pub fn run_bluetoothctl(output: &CommandOutput) -> (outcome: Result<(), String>)
    ensures
        match outcome {
            Ok(_) => output.success,
            Err(message) => !output.success && message@ == failure_text(*output),
        },
{
    if output.success {
        return Ok(());
    }
    let complaint = output.stderr_text();
    let mut message = "bluetoothctl failed: ".to_owned();
    if complaint.as_str().is_empty() {
        let printed = output.stdout_text();
        message.append(trim(printed.as_str()));
    } else {
        message.append(complaint.as_str());
    }
    Err(message)
}

/// How far the setup of the adapter has come.
#[derive(Debug)]
pub enum AdapterProgress {
    /// The step with this index is to be taken.
    Step(usize),
    /// A command has failed: the rest is not tried.
    Failed(String),
    /// The adapter is set up.
    Finished,
}

/// How far the setup has come, with the message as text.
#[verifier::ext_equal]
pub enum ProgressView {
    Step(int),
    Failed(Seq<char>),
    Finished,
}

impl View for AdapterProgress {
    type V = ProgressView;

    open spec fn view(&self) -> ProgressView {
        match self {
            AdapterProgress::Step(i) => ProgressView::Step(*i as int),
            AdapterProgress::Failed(message) => ProgressView::Failed(message@),
            AdapterProgress::Finished => ProgressView::Finished,
        }
    }
}

/// Whether the setup goes on after a step: setting the class never stops it.
pub open spec fn goes_on(step: AdapterStepView, output: Result<CommandOutput, String>) -> bool {
    step is SetClass || succeeded(output)
}

/// What is said of a `bluetoothctl` command that failed or could not be
/// started.
pub open spec fn step_failure(output: Result<CommandOutput, String>) -> Seq<char> {
    match output {
        Ok(output) => failure_text(output),
        Err(error) => error@,
    }
}

impl ProgressView {
    /// The step with this index comes next, where there is one.
    pub open spec fn at(i: int, plan: Seq<AdapterStepView>) -> ProgressView {
        if i < plan.len() {
            ProgressView::Step(i)
        } else {
            ProgressView::Finished
        }
    }

    /// How far the setup is after the command of this step: the first failure
    /// ends it.
    pub open spec fn next(
        self,
        plan: Seq<AdapterStepView>,
        output: Result<CommandOutput, String>,
    ) -> ProgressView {
        match self {
            ProgressView::Step(i) => if goes_on(plan[i], output) {
                ProgressView::at(i + 1, plan)
            } else {
                ProgressView::Failed(step_failure(output))
            },
            _ => self,
        }
    }

    /// How far the setup is after a series of commands.
    pub open spec fn after(
        self,
        plan: Seq<AdapterStepView>,
        outputs: Seq<Result<CommandOutput, String>>,
    ) -> ProgressView
        decreases outputs.len(),
    {
        if outputs.len() == 0 {
            self
        } else {
            self.after(plan, outputs.drop_last()).next(plan, outputs.last())
        }
    }
}

/// The views of the steps of a plan.
pub open spec fn plan_view(plan: Seq<AdapterStep>) -> Seq<AdapterStepView> {
    plan.map_values(|step: AdapterStep| step@)
}

/// How far the setup is at its beginning.
pub fn adapter_first(plan: &[AdapterStep]) -> (progress: AdapterProgress)
    ensures
        progress@ == ProgressView::at(0, plan_view(plan@)),
        progress matches AdapterProgress::Step(i) ==> i < plan@.len(),
{
    if plan.len() == 0 {
        AdapterProgress::Finished
    } else {
        AdapterProgress::Step(0)
    }
}

/// How far the setup is after a step: `output` is what the step's command left
/// behind, or why it could not be started. For the class this is the command
/// that lists the adapters, and it makes no difference.
pub fn adapter_next(
    progress: AdapterProgress,
    plan: &[AdapterStep],
    output: &Result<CommandOutput, String>,
) -> (next: AdapterProgress)
    requires
        progress matches AdapterProgress::Step(i) ==> i < plan@.len(),
    ensures
        next@ == progress@.next(plan_view(plan@), *output),
        next matches AdapterProgress::Step(i) ==> i < plan@.len(),
{
    match progress {
        AdapterProgress::Step(i) => {
            let outcome = match &plan[i] {
                AdapterStep::SetClass => Ok(()),
                AdapterStep::Run(_) => match output {
                    Ok(output) => run_bluetoothctl(output),
                    Err(error) => Err(error.clone()),
                },
            };
            match outcome {
                Ok(_) => {
                    if i + 1 < plan.len() {
                        AdapterProgress::Step(i + 1)
                    } else {
                        AdapterProgress::Finished
                    }
                },
                Err(message) => AdapterProgress::Failed(message),
            }
        },
        other => other,
    }
}

impl AdapterProgress {
    /// The outcome of the setup, once it is over.
    pub fn outcome(self) -> (outcome: Option<Result<(), String>>)
        ensures
            match outcome {
                Some(Ok(_)) => self@ is Finished,
                Some(Err(message)) => self@ == ProgressView::Failed(message@),
                None => self@ is Step,
            },
    {
        match self {
            AdapterProgress::Step(_) => None,
            AdapterProgress::Failed(message) => Some(Err(message)),
            AdapterProgress::Finished => Some(Ok(())),
        }
    }
}

/// As long as every command succeeds, the steps are taken in order.
pub proof fn law_setup_steps_are_taken_in_order(
    plan: Seq<AdapterStepView>,
    outputs: Seq<Result<CommandOutput, String>>,
)
    requires
        outputs.len() <= plan.len(),
        forall|j: int| 0 <= j < outputs.len() ==> goes_on(plan[j], #[trigger] outputs[j]),
    ensures
        ProgressView::at(0, plan).after(plan, outputs) == ProgressView::at(
            outputs.len() as int,
            plan,
        ),
    decreases outputs.len(),
{
    if outputs.len() > 0 {
        let before = outputs.drop_last();
        assert forall|j: int| 0 <= j < before.len() implies goes_on(plan[j], #[trigger] before[j]) by {
            assert(goes_on(plan[j], outputs[j]));
        }
        law_setup_steps_are_taken_in_order(plan, before);
        assert(goes_on(plan[outputs.len() - 1], outputs[outputs.len() - 1]));
    }
}

/// The first command that fails ends the setup with an error that tells why,
/// whatever would come after it.
pub proof fn law_first_failure_ends_the_setup(
    plan: Seq<AdapterStepView>,
    outputs: Seq<Result<CommandOutput, String>>,
    k: int,
)
    requires
        0 <= k < plan.len(),
        k < outputs.len(),
        forall|j: int| 0 <= j < k ==> goes_on(plan[j], #[trigger] outputs[j]),
        !goes_on(plan[k], outputs[k]),
    ensures
        ProgressView::at(0, plan).after(plan, outputs) == ProgressView::Failed(
            step_failure(outputs[k]),
        ),
    decreases outputs.len(),
{
    let before = outputs.drop_last();
    assert forall|j: int| 0 <= j < k implies goes_on(plan[j], #[trigger] before[j]) by {
        assert(goes_on(plan[j], outputs[j]));
    }
    if k == outputs.len() - 1 {
        law_setup_steps_are_taken_in_order(plan, before);
    } else {
        law_first_failure_ends_the_setup(plan, before, k);
    }
}

/// The first step from `i` on after which the setup does not go on.
pub open spec fn first_stop(
    plan: Seq<AdapterStepView>,
    outputs: Seq<Result<CommandOutput, String>>,
    i: int,
) -> int
    decreases outputs.len() - i,
{
    if i >= outputs.len() || !goes_on(plan[i], outputs[i]) {
        i
    } else {
        first_stop(plan, outputs, i + 1)
    }
}

/// Where the setup does not go on after every step, there is a first such step.
proof fn lemma_first_stop(
    plan: Seq<AdapterStepView>,
    outputs: Seq<Result<CommandOutput, String>>,
    i: int,
)
    requires
        0 <= i <= outputs.len(),
        forall|j: int| 0 <= j < i ==> goes_on(plan[j], #[trigger] outputs[j]),
        exists|j: int| 0 <= j < outputs.len() && !goes_on(plan[j], #[trigger] outputs[j]),
    ensures
        0 <= first_stop(plan, outputs, i) < outputs.len(),
        !goes_on(
            plan[first_stop(plan, outputs, i)],
            outputs[first_stop(plan, outputs, i)],
        ),
        forall|j: int|
            0 <= j < first_stop(plan, outputs, i) ==> goes_on(plan[j], #[trigger] outputs[j]),
    decreases outputs.len() - i,
{
    if i < outputs.len() && goes_on(plan[i], outputs[i]) {
        lemma_first_stop(plan, outputs, i + 1);
    }
}

/// The setup ends well exactly if every command of the plan succeeds; whether
/// the class could be set makes no difference.
pub proof fn law_setup_ends_well_if_all_commands_succeed(
    plan: Seq<AdapterStepView>,
    outputs: Seq<Result<CommandOutput, String>>,
)
    requires
        outputs.len() == plan.len(),
    ensures
        ProgressView::at(0, plan).after(plan, outputs) is Finished <==> forall|j: int|
            0 <= j < outputs.len() ==> (plan[j] is SetClass || succeeded(#[trigger] outputs[j])),
{
    if forall|j: int| 0 <= j < outputs.len() ==> goes_on(plan[j], #[trigger] outputs[j]) {
        law_setup_steps_are_taken_in_order(plan, outputs);
    } else {
        lemma_first_stop(plan, outputs, 0);
        law_first_failure_ends_the_setup(plan, outputs, first_stop(plan, outputs, 0));
    }
}

/// A device class as text: hexadecimal, with at least six digits.
pub open spec fn class_text(bt_class: u32) -> Seq<char> {
    "0x"@ + number::zero_padded(number::numeral(bt_class as nat, 16), 6)
}

/// A device class as text.
pub fn format_bt_class(bt_class: u32) -> (text: String)
    ensures
        text@ == class_text(bt_class),
{
    let digits = write_number(bt_class as u64, 16);
    let padded = pad_with_zeros(digits.as_str(), 6);
    "0x".to_owned().concat(padded.as_str())
}

/// The adapter that a line of `hciconfig` names: what stands before its first
/// colon, if that begins with `hci`.
pub open spec fn adapter_in_line(line: Seq<char>) -> Option<Seq<char>> {
    let rest = text::trimmed_start(line);
    match text::position(rest, ":"@) {
        Some(i) => if text::begins_with(rest.take(i), "hci"@) {
            Some(rest.take(i))
        } else {
            None
        },
        None => None,
    }
}

/// The adapters that the lines name, in order.
pub open spec fn adapters_in_lines(lines: Seq<Seq<char>>) -> Seq<Seq<char>>
    decreases lines.len(),
{
    if lines.len() == 0 {
        Seq::empty()
    } else {
        let before = adapters_in_lines(lines.drop_last());
        match adapter_in_line(lines.last()) {
            Some(name) => before.push(name),
            None => before,
        }
    }
}

/// The adapter that a line of `hciconfig` names.
fn adapter_of(line: &str) -> (name: Option<String>)
    ensures
        text::opt_string(name) == adapter_in_line(line@),
{
    let rest = trim_start(line);
    match find(rest, ":") {
        Some(i) => {
            let name = rest.substring_char(0, i);
            assert(name@ =~= rest@.take(i as int));
            if starts_with(name, "hci") {
                Some(name.to_owned())
            } else {
                None
            }
        },
        None => None,
    }
}

/// The adapters that `hciconfig` lists in its output, in order.
pub fn adapters_in(listing: &str) -> (names: Vec<String>)
    ensures
        split::views(names@) == adapters_in_lines(split::lines_of(listing@)),
{
    let list = lines(listing);
    let ghost all = split::lines_of(listing@);
    let mut names: Vec<String> = Vec::new();
    for i in 0..list.len()
        invariant
            all == split::views(list@),
            split::views(names@) =~= adapters_in_lines(all.take(i as int)),
    {
        let ghost before = names@;
        assert(all.take(i + 1).drop_last() =~= all.take(i as int));
        assert(all[i as int] == list@[i as int]@);
        if let Some(name) = adapter_of(list[i].as_str()) {
            let ghost text = name@;
            names.push(name);
            assert(split::views(names@) =~= split::views(before).push(text));
        }
    }
    assert(all.take(all.len() as int) =~= all);
    names
}

/// The command that lists the adapters.
pub fn adapter_listing_command() -> (command: CommandLine)
    ensures
        command@.program == "hciconfig"@,
        command@.args == Seq::<Seq<char>>::empty(),
{
    let command = command_line("hciconfig", &[]);
    assert(command@.args =~= Seq::<Seq<char>>::empty());
    command
}

/// The adapters to set the class of, given what [`adapter_listing_command`]
/// left behind; or, if it failed, its complaint.
pub fn set_bluetooth_class(output: &CommandOutput) -> (adapters: Result<Vec<String>, String>)
    ensures
        match adapters {
            Ok(names) => output.success && split::views(names@) == adapters_in_lines(
                split::lines_of(output.printed()),
            ),
            Err(complaint) => !output.success && complaint@ == output.complaint(),
        },
{
    if output.success {
        let listing = output.stdout_text();
        Ok(adapters_in(listing.as_str()))
    } else {
        Err(output.stderr_text())
    }
}

/// The texts of the command that sets the class of an adapter.
pub open spec fn class_call(adapter: Seq<char>, bt_class: u32) -> CommandText {
    CommandText { program: "hciconfig"@, args: seq![adapter, "class"@, class_text(bt_class)] }
}

/// The command that sets the class of an adapter.
pub fn class_command(adapter: &str, bt_class: u32) -> (command: CommandLine)
    ensures
        command@ == class_call(adapter@, bt_class),
{
    let class = format_bt_class(bt_class);
    let command = command_line("hciconfig", &[adapter, "class", class.as_str()]);
    assert(command@.args =~= seq![adapter@, "class"@, class_text(bt_class)]);
    command
}

/// The adapters whose class is set, given what [`adapter_listing_command`] left
/// behind or why it could not be started: none where it has not succeeded.
pub open spec fn adapters_to_class(listing: Result<CommandOutput, String>) -> Seq<Seq<char>> {
    if succeeded(listing) {
        adapters_in_lines(split::lines_of(listing->Ok_0.printed()))
    } else {
        Seq::empty()
    }
}

/// The commands that set the class, one for each adapter, in order; none where
/// the adapters could not be listed. Every one of them is run, whatever becomes
/// of those before it.
pub fn class_commands(listing: &Result<CommandOutput, String>, bt_class: u32) -> (commands: Vec<
    CommandLine,
>)
    ensures
        commands@.map_values(|command: CommandLine| command@) == adapters_to_class(
            *listing,
        ).map_values(|adapter: Seq<char>| class_call(adapter, bt_class)),
{
    let mut commands: Vec<CommandLine> = Vec::new();
    let ghost all = adapters_to_class(*listing).map_values(
        |adapter: Seq<char>| class_call(adapter, bt_class),
    );
    let adapters = match listing {
        Ok(output) => match set_bluetooth_class(output) {
            Ok(adapters) => adapters,
            Err(_) => Vec::new(),
        },
        Err(_) => Vec::new(),
    };
    assert(split::views(adapters@) =~= adapters_to_class(*listing));
    for i in 0..adapters.len()
        invariant
            split::views(adapters@) == adapters_to_class(*listing),
            all == adapters_to_class(*listing).map_values(
                |adapter: Seq<char>| class_call(adapter, bt_class),
            ),
            commands@.map_values(|command: CommandLine| command@) =~= all.take(i as int),
    {
        let ghost before = commands@;
        assert(adapters_to_class(*listing)[i as int] == adapters@[i as int]@);
        commands.push(class_command(adapters[i].as_str(), bt_class));
        assert(commands@.map_values(|command: CommandLine| command@) =~= before.map_values(
            |command: CommandLine| command@,
        ).push(all[i as int]));
    }
    assert(all.take(adapters@.len() as int) =~= all);
    commands
}

/// An adapter is what stands before the first colon of its line, whatever white
/// space stands before it and whatever follows the colon.
pub proof fn law_adapter_stands_before_the_colon(
    blank: Seq<char>,
    number: Seq<char>,
    rest: Seq<char>,
)
    requires
        text::is_blank(blank),
        !number.contains(':'),
    ensures
        adapter_in_line(blank + ("hci"@ + number + seq![':'] + rest)) == Some("hci"@ + number),
{
    reveal_strlit("hci");
    reveal_strlit(":");
    let name = "hci"@ + number;
    let line = name + seq![':'] + rest;
    let at = name.len() as int;
    assert(":"@ =~= seq![':']);
    assert(line.first() == 'h');
    text::law_leading_space_is_taken_off(blank, line);
    assert(line.subrange(at, at + 1) =~= ":"@);
    assert forall|j: int| 0 <= j < at implies !text::occurs_at(line, ":"@, j) by {
        if text::occurs_at(line, ":"@, j) {
            assert(line.subrange(j, j + 1)[0] == ':');
            assert(name[j] == ':');
            if j >= 3 {
                assert(number[j - 3] == ':');
            }
        }
    }
    assert(text::first_at(line, ":"@, at));
    text::lemma_position(line, ":"@, at);
    assert(line.take(at) =~= name);
    assert(name.subrange(0, 3) =~= "hci"@);
}

/// Only a name that begins with `hci` and stands before a colon is taken for an
/// adapter.
pub proof fn law_adapters_begin_with_hci(line: Seq<char>)
    ensures
        adapter_in_line(line) matches Some(name) ==> {
            &&& text::begins_with(name, "hci"@)
            &&& !name.contains(':')
            &&& text::begins_with(text::trimmed_start(line), name + seq![':'])
        },
        !line.contains(':') ==> adapter_in_line(line) is None,
{
    reveal_strlit(":");
    assert(":"@ =~= seq![':']);
    let rest = text::trimmed_start(line);
    text::law_position_is_the_first(rest, ":"@);
    text::law_trimmed_start_has_lost_its_space(line);
    if adapter_in_line(line) is Some {
        let i = text::position(rest, ":"@)->0;
        let name = rest.take(i);
        assert(rest.skip(i).take(1)[0] == ':');
        assert(rest[i] == ':');
        if name.contains(':') {
            let j = choose|j: int| 0 <= j < name.len() && name[j] == ':';
            assert(rest.skip(j).take(1) =~= ":"@);
        }
        assert(rest.subrange(0, i + 1) =~= name + seq![':']);
        let k = choose|k: int|
            #![trigger line.take(k)]
            0 <= k <= line.len() && text::is_blank(line.take(k)) && rest == line.skip(k);
        assert(line[k + i] == ':');
        assert(line.contains(':'));
    }
}

/// The adapters of two listings, one after the other, are those of the first and
/// those of the second; a line names one adapter or none.
pub proof fn law_adapters_add_up(a: Seq<Seq<char>>, b: Seq<Seq<char>>, line: Seq<char>)
    ensures
        adapters_in_lines(a + b) == adapters_in_lines(a) + adapters_in_lines(b),
        adapters_in_lines(seq![line]) == (match adapter_in_line(line) {
            Some(name) => seq![name],
            None => Seq::empty(),
        }),
    decreases b.len(),
{
    assert(seq![line].drop_last() =~= Seq::<Seq<char>>::empty());
    assert(adapters_in_lines(seq![line].drop_last()) =~= Seq::<Seq<char>>::empty());
    assert(adapters_in_lines(seq![line]) =~= (match adapter_in_line(line) {
        Some(name) => seq![name],
        None => Seq::<Seq<char>>::empty(),
    }));
    if b.len() == 0 {
        assert(a + b =~= a);
        assert(adapters_in_lines(a) + adapters_in_lines(b) =~= adapters_in_lines(a));
    } else {
        law_adapters_add_up(a, b.drop_last(), line);
        assert((a + b).drop_last() =~= a + b.drop_last());
        assert((a + b).last() == b.last());
        assert(adapters_in_lines(a + b) =~= adapters_in_lines(a) + adapters_in_lines(b));
    }
}

/// The class is set on the adapters that were listed, and on none where they
/// could not be.
pub proof fn law_class_needs_a_listing(listing: Result<CommandOutput, String>)
    ensures
        listing is Err ==> adapters_to_class(listing).len() == 0,
        listing matches Ok(output) ==> adapters_to_class(listing) == (if output.success {
            adapters_in_lines(split::lines_of(output.printed()))
        } else {
            Seq::empty()
        }),
{
}

/// The setup that opens the adapter begins as the one that does not, and gives
/// it the alias as it is; different aliases make different setups.
pub proof fn law_plans_differ_in_what_is_wanted(alias: Seq<char>, other: Seq<char>)
    ensures
        adapter_plan(alias, false) == adapter_plan(alias, true).take(
            adapter_plan(alias, false).len() as int,
        ),
        adapter_plan(alias, true).len() == adapter_plan(alias, false).len() + 3,
        adapter_plan(alias, false).contains(
            AdapterStepView::Run(seq!["bluetoothctl"@, "system-alias"@, alias]),
        ),
        adapter_plan(alias, false).contains(AdapterStepView::SetClass),
        adapter_plan(alias, true) == adapter_plan(other, true) <==> alias == other,
{
    let closed = adapter_plan(alias, false);
    assert(closed =~= adapter_plan(alias, true).take(closed.len() as int));
    assert(closed[1] == AdapterStepView::Run(seq!["bluetoothctl"@, "system-alias"@, alias]));
    assert(closed[2] == AdapterStepView::SetClass);
    if adapter_plan(alias, true) == adapter_plan(other, true) {
        let a = adapter_plan(alias, true)[1];
        let b = adapter_plan(other, true)[1];
        assert(a->Run_0[2] == alias && b->Run_0[2] == other);
    }
}

/// A failed command is told by its complaint where it made one, whatever it
/// printed besides, and by what it printed otherwise.
pub proof fn law_complaints_come_first(output: CommandOutput)
    ensures
        output.complaint().len() > 0 ==> failure_text(output) == "bluetoothctl failed: "@
            + output.complaint(),
        output.complaint().len() == 0 ==> failure_text(output) == "bluetoothctl failed: "@
            + text::trimmed(output.printed()),
{
}

/// A class is written with at least six digits after `0x`, and different classes
/// are written differently.
pub proof fn law_classes_are_written_apart(bt_class: u32, other: u32)
    ensures
        class_text(bt_class).len() >= 8,
        text::begins_with(class_text(bt_class), "0x"@),
        class_text(bt_class) == class_text(other) <==> bt_class == other,
{
    reveal_strlit("0x");
    let digits = number::zero_padded(number::numeral(bt_class as nat, 16), 6);
    let others = number::zero_padded(number::numeral(other as nat, 16), 6);
    lemma_padded_width(number::numeral(bt_class as nat, 16), 6);
    text::law_prefix_is_taken_off("0x"@, digits);
    text::law_prefix_is_taken_off("0x"@, others);
    number::law_written_numbers_are_read_back(bt_class as nat, 16, 6);
    number::law_written_numbers_are_read_back(other as nat, 16, 6);
}

/// Filling up reaches the width.
proof fn lemma_padded_width(text: Seq<char>, width: int)
    ensures
        number::zero_padded(text, width).len() >= width,
    decreases width - text.len(),
{
    if text.len() < width {
        lemma_padded_width(seq!['0'] + text, width);
    }
}

} // verus!
