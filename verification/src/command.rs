//! Commands of the system, and what they print.

use vstd::prelude::*;

use crate::split;
use crate::text::{self, trim};

verus! {

/// The text that `String::from_utf8_lossy` makes of bytes.
pub uninterp spec fn lossy_text(bytes: Seq<u8>) -> Seq<char>;

/// Decodes bytes with `String::from_utf8_lossy`. Valid UTF-8 is decoded as it
/// stands; which characters stand for invalid bytes is left to the name
/// [`lossy_text`].
#[verifier::external_body]
pub(crate) fn decode_lossy(bytes: &[u8]) -> (text: String)
    ensures
        text@ == lossy_text(bytes@),
        vstd::utf8::valid_utf8(bytes@) ==> text@ == vstd::utf8::decode_utf8(bytes@),
{
    String::from_utf8_lossy(bytes).into_owned()
}

/// What a finished command left behind.
#[derive(Debug)]
pub struct CommandOutput {
    /// Whether the command exited successfully.
    pub success: bool,
    /// What it wrote to its standard output.
    pub stdout: Vec<u8>,
    /// What it wrote to its standard error.
    pub stderr: Vec<u8>,
}

impl CommandOutput {
    /// The standard output as text.
    pub open spec fn printed(self) -> Seq<char> {
        lossy_text(self.stdout@)
    }

    /// The standard error as text, without surrounding white space.
    pub open spec fn complaint(self) -> Seq<char> {
        text::trimmed(lossy_text(self.stderr@))
    }

    /// The standard output as text.
    pub fn stdout_text(&self) -> (text: String)
        ensures
            text@ == self.printed(),
            vstd::utf8::valid_utf8(self.stdout@) ==> text@ == vstd::utf8::decode_utf8(
                self.stdout@,
            ),
    {
        decode_lossy(&self.stdout)
    }

    /// The standard error as text, without surrounding white space.
    pub fn stderr_text(&self) -> (text: String)
        ensures
            text@ == self.complaint(),
            vstd::utf8::valid_utf8(self.stderr@) ==> text@ == text::trimmed(
                vstd::utf8::decode_utf8(self.stderr@),
            ),
    {
        let text = decode_lossy(&self.stderr);
        trim(text.as_str()).to_owned()
    }
}

/// Whether a command could be started and has succeeded, given what it left
/// behind or why it could not be started.
pub open spec fn succeeded(output: Result<CommandOutput, String>) -> bool {
    output matches Ok(left) && left.success
}

/// The first command from `i` on that has not succeeded.
pub open spec fn first_failure(outputs: Seq<Result<CommandOutput, String>>, i: int) -> int
    decreases outputs.len() - i,
{
    if i >= outputs.len() || !succeeded(outputs[i]) {
        i
    } else {
        first_failure(outputs, i + 1)
    }
}

/// Where not all commands have succeeded, there is a first that has not.
pub proof fn lemma_first_failure(outputs: Seq<Result<CommandOutput, String>>, i: int)
    requires
        0 <= i <= outputs.len(),
        forall|j: int| 0 <= j < i ==> succeeded(#[trigger] outputs[j]),
        exists|j: int| 0 <= j < outputs.len() && !succeeded(#[trigger] outputs[j]),
    ensures
        0 <= first_failure(outputs, i) < outputs.len(),
        !succeeded(outputs[first_failure(outputs, i)]),
        forall|j: int| 0 <= j < first_failure(outputs, i) ==> succeeded(#[trigger] outputs[j]),
    decreases outputs.len() - i,
{
    if i < outputs.len() && succeeded(outputs[i]) {
        lemma_first_failure(outputs, i + 1);
    }
}

/// A command to run: a program and its arguments.
#[derive(Debug)]
pub struct CommandLine {
    pub program: String,
    pub args: Vec<String>,
}

/// The texts of a command to run.
pub struct CommandText {
    pub program: Seq<char>,
    pub args: Seq<Seq<char>>,
}

impl View for CommandLine {
    type V = CommandText;

    open spec fn view(&self) -> CommandText {
        CommandText { program: self.program@, args: split::views(self.args@) }
    }
}

/// The texts of a list of string slices.
pub open spec fn str_views(list: Seq<&str>) -> Seq<Seq<char>> {
    list.map_values(|s: &str| s@)
}

/// Puts a command together.
pub fn command_line(program: &str, args: &[&str]) -> (command: CommandLine)
    ensures
        command@ == (CommandText { program: program@, args: str_views(args@) }),
{
    let mut list: Vec<String> = Vec::new();
    for i in 0..args.len()
        invariant
            split::views(list@) =~= str_views(args@).take(i as int),
    {
        let ghost before = list@;
        list.push(args[i].to_owned());
        assert(split::views(list@) =~= split::views(before).push(args@[i as int]@));
    }
    assert(str_views(args@).take(args@.len() as int) =~= str_views(args@));
    CommandLine { program: program.to_owned(), args: list }
}

/// A command that could not be started has not succeeded, and one that could has
/// if it says so.
pub proof fn law_success_needs_a_start(output: Result<CommandOutput, String>)
    ensures
        output is Err ==> !succeeded(output),
        output matches Ok(left) ==> succeeded(output) == left.success,
{
}

/// A complaint neither begins nor ends with white space, and is part of what was
/// written.
pub proof fn law_complaints_are_trimmed(output: CommandOutput)
    ensures
        output.complaint().len() > 0 ==> !text::is_space(output.complaint().first())
            && !text::is_space(output.complaint().last()),
        text::occurs(lossy_text(output.stderr@), output.complaint()),
{
    let written = lossy_text(output.stderr@);
    text::law_trimmed_has_lost_its_space(written);
    let (i, j) = choose|i: int, j: int|
        #![trigger written.take(i), written.skip(j)]
        0 <= i <= j <= written.len() && text::is_blank(written.take(i)) && text::is_blank(
            written.skip(j),
        ) && text::trimmed(written) == written.subrange(i, j);
    assert(text::occurs_at(written, output.complaint(), i));
}

} // verus!
