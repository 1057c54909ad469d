//! Commands: what is run, how it is shown, and what it printed.
use vstd::prelude::*;
use vstd::utf8::{decode_utf8, valid_utf8};

use crate::style::{
    bold, bold_text, cyan, cyan_text, dim, dim_text, green, green_text, law_escape_sequences, red,
    red_text, reset, reset_text, yellow, yellow_text,
};
use crate::text::{
    blank_char, chars, join, join_of, law_join, law_trim_takes_white_space_off, text, texts, trim,
    trim_of,
};

verus! {

/// A program with its arguments.
pub struct Command {
    pub program: String,
    pub args: Vec<String>,
}

/// A program with its arguments.
pub struct CommandView {
    pub program: Seq<char>,
    pub args: Seq<Seq<char>>,
}

impl CommandView {
    /// The command with one more argument.
    pub open spec fn with(self, arg: Seq<char>) -> CommandView {
        CommandView { program: self.program, args: self.args.push(arg) }
    }
}

/// A program without arguments.
pub open spec fn plain_command(program: Seq<char>) -> CommandView {
    CommandView { program, args: Seq::empty() }
}

impl View for Command {
    type V = CommandView;

    open spec fn view(&self) -> CommandView {
        CommandView { program: self.program@, args: texts(self.args@) }
    }
}

impl Command {
    /// A program without arguments.
    pub fn new(program: &str) -> (c: Command)
        ensures
            c@ == plain_command(program@),
    {
        let c = Command { program: program.to_owned(), args: Vec::new() };
        assert(texts(c.args@) == Seq::<Seq<char>>::empty());
        c
    }

    /// The command with one more argument.
    pub fn arg(self, arg: &str) -> (c: Command)
        ensures
            c@ == self@.with(arg@),
    {
        let mut args = self.args;
        args.push(arg.to_owned());
        assert(texts(args@) == texts(self.args@).push(arg@));
        Command { program: self.program, args }
    }

    /// A copy of the command.
    pub fn copy(&self) -> (c: Command)
        ensures
            c@ == self@,
    {
        let mut c = Command::new(self.program.as_str());
        let mut i: usize = 0;
        while i < self.args.len()
            invariant
                i <= self.args.len(),
                c@.program == self@.program,
                c@.args == texts(self.args@).take(i as int),
            decreases self.args.len() - i,
        {
            c = c.arg(self.args[i].as_str());
            assert(texts(self.args@).take(i + 1) == texts(self.args@).take(i as int).push(
                self.args@[i as int]@,
            ));
            i += 1;
        }
        assert(texts(self.args@).take(i as int) == texts(self.args@));
        c
    }
}

// ---------- looking for a program ----------

/// The shell script that succeeds exactly when `program` can be run.
pub open spec fn lookup_script(program: Seq<char>) -> Seq<char> {
    "command -v "@ + program + " >/dev/null 2>&1"@
}

/// The command that succeeds exactly when `program` can be run.
pub open spec fn lookup_command(program: Seq<char>) -> CommandView {
    plain_command("sh"@).with("-c"@).with(lookup_script(program))
}

/// The command that succeeds exactly when `program` can be run.
pub fn command_exists(program: &str) -> (c: Command)
    ensures
        c@ == lookup_command(program@),
{
    let script = "command -v ".to_owned().concat(program).concat(" >/dev/null 2>&1");
    Command::new("sh").arg("-c").arg(script.as_str())
}

// ---------- what a command printed ----------

/// What `String::from_utf8_lossy` makes of bytes.
pub uninterp spec fn lossy_text(bytes: Seq<u8>) -> Seq<char>;

/// `String::from_utf8_lossy`: the text that the bytes encode, when they are valid UTF-8,
/// and else a text in which replacement characters stand for what is not. Where those
/// stand is left unsaid.
#[verifier::external_body]
fn from_utf8_lossy(bytes: &[u8]) -> (s: String)
    ensures
        s@ == lossy_text(bytes@),
        valid_utf8(bytes@) ==> s@ == decode_utf8(bytes@),
{
    String::from_utf8_lossy(bytes).into_owned()
}

/// A text without the white space around it, unless nothing is left of it.
pub open spec fn captured_of(s: Seq<char>) -> Option<Seq<char>> {
    if trim_of(s).len() == 0 {
        None
    } else {
        Some(trim_of(s))
    }
}

/// The texts of an optional string.
pub open spec fn opt_text(s: Option<String>) -> Option<Seq<char>> {
    match s {
        Some(t) => Some(t@),
        None => None,
    }
}

/// A text without the white space around it, unless nothing is left of it.
pub fn captured(s: &str) -> (out: Option<String>)
    ensures
        opt_text(out) == captured_of(s@),
{
    let all = chars(s);
    let t = trim(all.as_slice());
    if t.len() == 0 {
        None
    } else {
        Some(text(t))
    }
}

/// What a command printed, from the bytes of its standard output: nothing if it could not
/// be run, or if it printed white space alone.
pub fn run_captured(stdout: Option<&[u8]>) -> (out: Option<String>)
    ensures
        opt_text(out) == match stdout {
            Some(bytes) => captured_of(lossy_text(bytes@)),
            None => None,
        },
        stdout matches Some(bytes) ==> valid_utf8(bytes@) ==> opt_text(out) == captured_of(
            decode_utf8(bytes@),
        ),
{
    match stdout {
        Some(bytes) => {
            let s = from_utf8_lossy(bytes);
            captured(s.as_str())
        },
        None => None,
    }
}

// ---------- cleanup steps ----------

/// A cleanup command: whether it needs root, why it is run, and whether its
/// progress lines collapse into a counter.
pub struct Step {
    pub sudo: bool,
    pub command: Command,
    pub why: String,
    pub filter_deleting: bool,
}

/// A cleanup command.
pub struct StepView {
    pub sudo: bool,
    pub command: CommandView,
    pub why: Seq<char>,
    pub filter_deleting: bool,
}

impl View for Step {
    type V = StepView;

    open spec fn view(&self) -> StepView {
        StepView {
            sudo: self.sudo,
            command: self.command@,
            why: self.why@,
            filter_deleting: self.filter_deleting,
        }
    }
}

/// The command that a step runs: under `sudo` if it needs root.
pub open spec fn command_line_of(step: StepView) -> CommandView {
    if step.sudo {
        CommandView { program: "sudo"@, args: seq![step.command.program] + step.command.args }
    } else {
        step.command
    }
}

/// The words of a command, as one line.
pub open spec fn rendered_of(c: CommandView) -> Seq<char> {
    join_of(seq![c.program] + c.args, " "@)
}

/// What a dry run says of a step.
pub open spec fn step_preview(color: bool, step: StepView) -> Seq<char> {
    yellow_text(color) + "[dry-run]"@ + reset_text(color) + " "@ + rendered_of(
        command_line_of(step),
    ) + "\n          "@ + dim_text(color) + "("@ + step.why + ")"@ + reset_text(color) + "\n"@
}

/// What is said before a step is run.
pub open spec fn step_header(color: bool, step: StepView) -> Seq<char> {
    "\n"@ + cyan_text(color) + "->"@ + reset_text(color) + " "@ + bold_text(color) + rendered_of(
        command_line_of(step),
    ) + reset_text(color) + "  "@ + dim_text(color) + "("@ + step.why + ")"@ + reset_text(color)
        + "\n"@
}

/// How a step ended.
pub enum Outcome {
    /// The command succeeded.
    Success,
    /// The command ended with this other exit status.
    Exited(String),
    /// The command could not be run, for this reason.
    Failed(String),
}

/// What is said after a step was run.
pub open spec fn outcome_text(color: bool, outcome: Outcome) -> Seq<char> {
    match outcome {
        Outcome::Success => "   "@ + green_text(color) + "ok"@ + reset_text(color) + "\n"@,
        Outcome::Exited(status) => "   "@ + red_text(color) + "exited with "@ + status@
            + reset_text(color) + "\n"@,
        Outcome::Failed(error) => "   "@ + red_text(color) + "failed to run: "@ + error@
            + reset_text(color) + "\n"@,
    }
}

impl Step {
    /// The command that the step runs: under `sudo` if it needs root.
    pub fn command_line(&self) -> (c: Command)
        ensures
            c@ == command_line_of(self@),
    {
        if self.sudo {
            let mut c = Command::new("sudo").arg(self.command.program.as_str());
            let mut i: usize = 0;
            let ghost first = seq![self.command.program@];
            assert(first + texts(self.command.args@).take(0) == first);
            while i < self.command.args.len()
                invariant
                    i <= self.command.args.len(),
                    c@.program == "sudo"@,
                    c@.args == first + texts(self.command.args@).take(i as int),
                decreases self.command.args.len() - i,
            {
                c = c.arg(self.command.args[i].as_str());
                proof {
                    let all = texts(self.command.args@);
                    assert(all.take(i + 1) == all.take(i as int).push(all[i as int]));
                    assert((first + all.take(i as int)).push(all[i as int]) == first + all.take(
                        i + 1,
                    ));
                }
                i += 1;
            }
            assert(texts(self.command.args@).take(i as int) == texts(self.command.args@));
            c
        } else {
            self.command.copy()
        }
    }

    /// What a dry run says of the step.
    pub fn preview(&self, color: bool) -> (s: String)
        ensures
            s@ == step_preview(color, self@),
    {
        let line = rendered(&self.command_line());
        yellow(color).concat("[dry-run]").concat(reset(color).as_str()).concat(" ").concat(
            line.as_str(),
        ).concat("\n          ").concat(dim(color).as_str()).concat("(").concat(
            self.why.as_str(),
        ).concat(")").concat(reset(color).as_str()).concat("\n")
    }

    /// What is said before the step is run.
    pub fn header(&self, color: bool) -> (s: String)
        ensures
            s@ == step_header(color, self@),
    {
        let line = rendered(&self.command_line());
        "\n".to_owned().concat(cyan(color).as_str()).concat("->").concat(
            reset(color).as_str(),
        ).concat(" ").concat(bold(color).as_str()).concat(line.as_str()).concat(
            reset(color).as_str(),
        ).concat("  ").concat(dim(color).as_str()).concat("(").concat(self.why.as_str()).concat(
            ")",
        ).concat(reset(color).as_str()).concat("\n")
    }
}

/// The words of a command, as one line.
pub fn rendered(c: &Command) -> (s: String)
    ensures
        s@ == rendered_of(c@),
{
    let mut parts: Vec<String> = Vec::new();
    parts.push(c.program.clone());
    let mut i: usize = 0;
    let ghost first = seq![c.program@];
    assert(texts(parts@) == first + texts(c.args@).take(0));
    while i < c.args.len()
        invariant
            i <= c.args.len(),
            texts(parts@) == first + texts(c.args@).take(i as int),
        decreases c.args.len() - i,
    {
        let word = c.args[i].clone();
        proof {
            let all = texts(c.args@);
            assert(texts(parts@.push(word)) == texts(parts@).push(all[i as int]));
            assert((first + all.take(i as int)).push(all[i as int]) == first + all.take(i + 1));
        }
        parts.push(word);
        i += 1;
    }
    assert(texts(c.args@).take(i as int) == texts(c.args@));
    join(&parts, " ")
}

/// What is said after a step was run.
pub fn outcome_line(color: bool, outcome: &Outcome) -> (s: String)
    ensures
        s@ == outcome_text(color, *outcome),
{
    match outcome {
        Outcome::Success => "   ".to_owned().concat(green(color).as_str()).concat("ok").concat(
            reset(color).as_str(),
        ).concat("\n"),
        Outcome::Exited(status) => "   ".to_owned().concat(red(color).as_str()).concat(
            "exited with ",
        ).concat(status.as_str()).concat(reset(color).as_str()).concat("\n"),
        Outcome::Failed(error) => "   ".to_owned().concat(red(color).as_str()).concat(
            "failed to run: ",
        ).concat(error.as_str()).concat(reset(color).as_str()).concat("\n"),
    }
}

// ---------- what is run and said ----------

/// A step that needs root runs its command under `sudo`, with the program and its arguments
/// in the same order behind it; any other step runs its command as it is.
pub proof fn law_sudo(step: StepView)
    ensures
        step.sudo ==> command_line_of(step).program == "sudo"@ && command_line_of(step).args.len()
            == step.command.args.len() + 1 && command_line_of(step).args[0] == step.command.program
            && forall|i: int|
            0 <= i < step.command.args.len() ==> #[trigger] step.command.args[i]
                == command_line_of(step).args[i + 1],
        !step.sudo ==> command_line_of(step) == step.command,
{
}

/// A command is shown as its words with single spaces between them.
pub proof fn law_rendered(c: CommandView, arg: Seq<char>)
    ensures
        rendered_of(plain_command(c.program)) == c.program,
        rendered_of(c.with(arg)) == rendered_of(c) + " "@ + arg,
{
    let words = seq![c.program] + c.args;
    law_join(seq![c.program], Seq::empty(), " "@);
    assert(seq![c.program] + Seq::<Seq<char>>::empty() == seq![c.program]);
    assert(seq![c.program] + c.args.push(arg) == words + seq![arg]);
    law_join(words, seq![arg], " "@);
    law_join(seq![arg], Seq::empty(), " "@);
}

/// What is said of a step and of how it ended, without colour.
pub proof fn law_plain_words_on_steps(step: StepView, status: String, error: String)
    ensures
        step_preview(false, step) == "[dry-run]"@ + " "@ + rendered_of(command_line_of(step))
            + "\n          "@ + "("@ + step.why + ")"@ + "\n"@,
        step_header(false, step) == "\n"@ + "->"@ + " "@ + rendered_of(command_line_of(step))
            + "  "@ + "("@ + step.why + ")"@ + "\n"@,
        outcome_text(false, Outcome::Success) == "   "@ + "ok"@ + "\n"@,
        outcome_text(false, Outcome::Exited(status)) == "   "@ + "exited with "@ + status@
            + "\n"@,
        outcome_text(false, Outcome::Failed(error)) == "   "@ + "failed to run: "@ + error@
            + "\n"@,
{
}

/// What is said of a step and of how it ended, in colour: success in green, any other end in
/// red.
pub proof fn law_colored_words_on_steps(step: StepView, status: String, error: String)
    ensures
        step_preview(true, step) == "\x1b[33m"@ + "[dry-run]"@ + "\x1b[0m"@ + " "@ + rendered_of(
            command_line_of(step),
        ) + "\n          "@ + "\x1b[2m"@ + "("@ + step.why + ")"@ + "\x1b[0m"@ + "\n"@,
        step_header(true, step) == "\n"@ + "\x1b[36m"@ + "->"@ + "\x1b[0m"@ + " "@ + "\x1b[1m"@
            + rendered_of(command_line_of(step)) + "\x1b[0m"@ + "  "@ + "\x1b[2m"@ + "("@ + step.why
            + ")"@ + "\x1b[0m"@ + "\n"@,
        outcome_text(true, Outcome::Success) == "   "@ + "\x1b[32m"@ + "ok"@ + "\x1b[0m"@ + "\n"@,
        outcome_text(true, Outcome::Exited(status)) == "   "@ + "\x1b[31m"@ + "exited with "@
            + status@ + "\x1b[0m"@ + "\n"@,
        outcome_text(true, Outcome::Failed(error)) == "   "@ + "\x1b[31m"@ + "failed to run: "@
            + error@ + "\x1b[0m"@ + "\n"@,
{
    law_escape_sequences();
}

/// What is kept of the output of a command is the output without the white space around it;
/// of white space alone nothing is kept.
pub proof fn law_captured(a: Seq<char>, t: Seq<char>, b: Seq<char>)
    requires
        forall|i: int| 0 <= i < a.len() ==> blank_char(#[trigger] a[i]),
        forall|i: int| 0 <= i < b.len() ==> blank_char(#[trigger] b[i]),
        t.len() > 0 ==> !blank_char(t[0]) && !blank_char(t.last()),
    ensures
        captured_of(a + t + b) == if t.len() == 0 {
            None
        } else {
            Some(t)
        },
{
    law_trim_takes_white_space_off(a, t, b);
}

} // verus!
