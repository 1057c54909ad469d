//! Scripts: what a run of the program does, operation by operation.
use vstd::prelude::*;

use crate::command::{Command, CommandView, Step, StepView};
use crate::numbers::{decimal, decimal_of};
use crate::report::{
    count_generations, generation_count, generations_text, largest, largest_text,
    print_generation_count, section, section_text,
};
use crate::text::{chars, indent, indent_of};

verus! {

/// A file or directory.
pub enum Place {
    /// The one with this path.
    At(String),
    /// The one with this path below the home directory.
    Home(String),
}

/// A file or directory.
pub enum PlaceView {
    At(Seq<char>),
    Home(Seq<char>),
}

impl View for Place {
    type V = PlaceView;

    open spec fn view(&self) -> PlaceView {
        match self {
            Place::At(path) => PlaceView::At(path@),
            Place::Home(path) => PlaceView::Home(path@),
        }
    }
}

/// The path of a place. A slash parts the home directory from what is below it, unless
/// the home directory is empty or ends with one.
pub open spec fn place_text(home: Seq<char>, place: PlaceView) -> Seq<char> {
    match place {
        PlaceView::At(path) => path,
        PlaceView::Home(path) => if home.len() == 0 {
            path
        } else if home.last() == '/' {
            home + path
        } else {
            home + "/"@ + path
        },
    }
}

impl Place {
    /// A copy of the place.
    pub fn copy(&self) -> (p: Place)
        ensures
            p@ == self@,
    {
        match self {
            Place::At(path) => Place::At(path.clone()),
            Place::Home(path) => Place::Home(path.clone()),
        }
    }

    /// The path of the place.
    pub fn path(&self, home: &str) -> (s: String)
        ensures
            s@ == place_text(home@, self@),
    {
        match self {
            Place::At(path) => path.clone(),
            Place::Home(path) => {
                let all = chars(home);
                if all.len() == 0 {
                    path.clone()
                } else if all[all.len() - 1] == '/' {
                    home.to_owned().concat(path.as_str())
                } else {
                    home.to_owned().concat("/").concat(path.as_str())
                }
            },
        }
    }
}

/// What operations depend on.
pub enum Guard {
    /// This program can be run.
    Installed(String),
    /// This file or directory exists.
    Present(Place),
}

/// What operations depend on.
pub enum GuardView {
    Installed(Seq<char>),
    Present(PlaceView),
}

impl View for Guard {
    type V = GuardView;

    open spec fn view(&self) -> GuardView {
        match self {
            Guard::Installed(program) => GuardView::Installed(program@),
            Guard::Present(place) => GuardView::Present(place@),
        }
    }
}

/// How the output of a command is shown.
pub enum Show {
    /// On one line, between these texts.
    Inline { before: String, after: String },
    /// After this text, with every line set in.
    Indented { before: String },
    /// As the number of generations of a profile.
    Generations { label: String, profile: String },
    /// As the number of its lines, between these texts.
    Counted { before: String, after: String },
    /// As this many of its lines, those with the largest sizes.
    Largest(usize),
    /// As the stray roots that it lists, each with its age.
    Roots,
}

/// How the output of a command is shown.
pub enum ShowView {
    Inline { before: Seq<char>, after: Seq<char> },
    Indented { before: Seq<char> },
    Generations { label: Seq<char>, profile: Seq<char> },
    Counted { before: Seq<char>, after: Seq<char> },
    Largest(usize),
    Roots,
}

impl View for Show {
    type V = ShowView;

    open spec fn view(&self) -> ShowView {
        match self {
            Show::Inline { before, after } => ShowView::Inline { before: before@, after: after@ },
            Show::Indented { before } => ShowView::Indented { before: before@ },
            Show::Generations { label, profile } => ShowView::Generations {
                label: label@,
                profile: profile@,
            },
            Show::Counted { before, after } => ShowView::Counted { before: before@, after: after@ },
            Show::Largest(limit) => ShowView::Largest(*limit),
            Show::Roots => ShowView::Roots,
        }
    }
}

/// How the output of a command is shown. Of a command without output only generations
/// are reported: that there are none. Roots are shown one by one, not here.
pub open spec fn shown_text(show: ShowView, out: Option<Seq<char>>) -> Seq<char> {
    match (show, out) {
        (ShowView::Inline { before, after }, Some(o)) => before + o + after + "\n"@,
        (ShowView::Indented { before }, Some(o)) => before + indent_of(o) + "\n"@,
        (ShowView::Generations { label, profile }, _) => generations_text(label, profile, out),
        (ShowView::Counted { before, after }, Some(o)) => before + decimal_of(generation_count(o))
            + after + "\n"@,
        (ShowView::Largest(limit), Some(o)) => largest_text(o, limit as nat),
        _ => Seq::empty(),
    }
}

impl Show {
    /// How the output of a command is shown.
    pub fn shown(&self, out: &Option<String>) -> (s: String)
        ensures
            s@ == shown_text(
                self@,
                match *out {
                    Some(o) => Some(o@),
                    None => None,
                },
            ),
    {
        match (self, out) {
            (Show::Inline { before, after }, Some(o)) => before.clone().concat(o.as_str()).concat(
                after.as_str(),
            ).concat("\n"),
            (Show::Indented { before }, Some(o)) => before.clone().concat(
                indent(o.as_str()).as_str(),
            ).concat("\n"),
            (Show::Generations { label, profile }, Some(o)) => print_generation_count(
                label.as_str(),
                profile.as_str(),
                Some(o.as_str()),
            ),
            (Show::Generations { label, profile }, None) => print_generation_count(
                label.as_str(),
                profile.as_str(),
                None,
            ),
            (Show::Counted { before, after }, Some(o)) => {
                let n = decimal(count_generations(o.as_str()));
                before.clone().concat(n.as_str()).concat(after.as_str()).concat("\n")
            },
            (Show::Largest(limit), Some(o)) => largest(o.as_str(), *limit),
            _ => String::new(),
        }
    }
}

/// An operation of a script.
pub enum Op {
    /// Print this text.
    Say(String),
    /// Leave out the next `span` operations, and print a text in their place, unless the
    /// guard holds.
    When { guard: Guard, span: usize, otherwise: String },
    /// Run a command and show its output.
    Report { command: Command, show: Show },
    /// Report how many boot entries there are.
    BootEntries,
    /// Run a cleanup command.
    Step(Step),
    /// Remove the stray roots under the home directory.
    SweepRoots,
    /// Delete everything in a directory.
    Empty { label: String, place: Place },
    /// Note the size of the store.
    MeasureBefore,
    /// Report how the size of the store has changed.
    MeasureAfter,
}

/// An operation of a script.
pub enum OpView {
    Say(Seq<char>),
    When { guard: GuardView, span: usize, otherwise: Seq<char> },
    Report { command: CommandView, show: ShowView },
    BootEntries,
    Step(StepView),
    SweepRoots,
    Empty { label: Seq<char>, place: PlaceView },
    MeasureBefore,
    MeasureAfter,
}

impl View for Op {
    type V = OpView;

    open spec fn view(&self) -> OpView {
        match self {
            Op::Say(text) => OpView::Say(text@),
            Op::When { guard, span, otherwise } => OpView::When {
                guard: guard@,
                span: *span,
                otherwise: otherwise@,
            },
            Op::Report { command, show } => OpView::Report { command: command@, show: show@ },
            Op::BootEntries => OpView::BootEntries,
            Op::Step(step) => OpView::Step(step@),
            Op::SweepRoots => OpView::SweepRoots,
            Op::Empty { label, place } => OpView::Empty { label: label@, place: place@ },
            Op::MeasureBefore => OpView::MeasureBefore,
            Op::MeasureAfter => OpView::MeasureAfter,
        }
    }
}

/// A list of operations.
pub struct Script {
    pub ops: Vec<Op>,
}

/// The views of a row of operations.
pub open spec fn op_views(ops: Seq<Op>) -> Seq<OpView> {
    ops.map_values(|op: Op| op@)
}

impl View for Script {
    type V = Seq<OpView>;

    open spec fn view(&self) -> Seq<OpView> {
        op_views(self.ops@)
    }
}

/// Whether no operation leaves out more operations than follow it.
pub open spec fn spans_fit(ops: Seq<OpView>) -> bool {
    forall|i: int|
        0 <= i < ops.len() ==> (#[trigger] ops[i] matches OpView::When { span, .. } ==> i + 1 + span
            <= ops.len())
}

impl Script {
    /// The script that does nothing.
    pub fn new() -> (s: Script)
        ensures
            s@ == Seq::<OpView>::empty(),
    {
        let s = Script { ops: Vec::new() };
        assert(s@ == Seq::<OpView>::empty());
        s
    }

    /// Appends an operation.
    pub fn add(&mut self, op: Op)
        ensures
            final(self)@ == old(self)@.push(op@),
    {
        self.ops.push(op);
        assert(op_views(self.ops@) == op_views(old(self).ops@).push(op@));
    }
}

impl Script {
    /// Appends the operations of another script.
    pub fn extend(&mut self, other: Script)
        ensures
            final(self)@ == old(self)@ + other@,
    {
        let mut ops = other.ops;
        let ghost all = ops@;
        self.ops.append(&mut ops);
        assert(op_views(self.ops@) == op_views(old(self).ops@) + op_views(all));
    }
}

/// Two scripts whose spans fit make one whose spans fit.
pub proof fn lemma_spans_fit_joined(a: Seq<OpView>, b: Seq<OpView>)
    requires
        spans_fit(a),
        spans_fit(b),
    ensures
        spans_fit(a + b),
{
    let ops = a + b;
    assert forall|i: int| 0 <= i < ops.len() implies (#[trigger] ops[i] matches OpView::When {
        span,
        ..
    } ==> i + 1 + span <= ops.len()) by {
        if i < a.len() {
            assert(ops[i] == a[i]);
        } else {
            assert(ops[i] == b[i - a.len()]);
        }
    }
}

// ---------- common operations ----------

/// A heading.
pub open spec fn heading_of(color: bool, title: Seq<char>) -> OpView {
    OpView::Say(section_text(color, title))
}

/// A command whose output is shown on one line, between two texts.
pub open spec fn inline_of(command: CommandView, before: Seq<char>, after: Seq<char>) -> OpView {
    OpView::Report { command, show: ShowView::Inline { before, after } }
}

/// A command whose output is shown after a text, with every line set in.
pub open spec fn indented_of(command: CommandView, before: Seq<char>) -> OpView {
    OpView::Report { command, show: ShowView::Indented { before } }
}

/// The next operations, only if a program can be run.
pub open spec fn if_installed(program: Seq<char>, span: usize, otherwise: Seq<char>) -> OpView {
    OpView::When { guard: GuardView::Installed(program), span, otherwise }
}

/// The next operation, only if a file or directory exists.
pub open spec fn if_present(path: Seq<char>) -> OpView {
    OpView::When { guard: GuardView::Present(PlaceView::At(path)), span: 1, otherwise: Seq::empty() }
}

impl Op {
    /// A heading.
    pub fn heading(color: bool, title: &str) -> (op: Op)
        ensures
            op@ == heading_of(color, title@),
    {
        Op::Say(section(color, title))
    }

    /// A command whose output is shown on one line, between two texts.
    pub fn inline(command: Command, before: &str, after: &str) -> (op: Op)
        ensures
            op@ == inline_of(command@, before@, after@),
    {
        Op::Report {
            command,
            show: Show::Inline { before: before.to_owned(), after: after.to_owned() },
        }
    }

    /// A command whose output is shown after a text, with every line set in.
    pub fn indented(command: Command, before: &str) -> (op: Op)
        ensures
            op@ == indented_of(command@, before@),
    {
        Op::Report { command, show: Show::Indented { before: before.to_owned() } }
    }

    /// The next operations, only if a program can be run.
    pub fn if_installed(program: &str, span: usize, otherwise: &str) -> (op: Op)
        ensures
            op@ == if_installed(program@, span, otherwise@),
    {
        Op::When {
            guard: Guard::Installed(program.to_owned()),
            span,
            otherwise: otherwise.to_owned(),
        }
    }

    /// The next operation, only if a file or directory exists.
    pub fn if_present(path: &str) -> (op: Op)
        ensures
            op@ == if_present(path@),
    {
        Op::When {
            guard: Guard::Present(Place::At(path.to_owned())),
            span: 1,
            otherwise: String::new(),
        }
    }
}

/// The path of what lies below the home directory: home, a slash and the path, with no
/// second slash where home ends with one, and no slash where home is empty. Any other path
/// is what it is.
pub proof fn law_place(home: Seq<char>, path: Seq<char>)
    ensures
        place_text(home, PlaceView::At(path)) == path,
        place_text(Seq::empty(), PlaceView::Home(path)) == path,
        place_text(home.push('/'), PlaceView::Home(path)) == home.push('/') + path,
        home.len() > 0 && home.last() != '/' ==> place_text(home, PlaceView::Home(path))
            == home.push('/') + path,
{
    reveal_strlit("/");
    assert(home + "/"@ == home.push('/'));
}

/// How the output of a command is shown: on one line between two texts, set in after a text,
/// as a count of its lines between two texts, or as its largest lines. Of a command without
/// output nothing is shown, but that a profile has no generations is.
pub proof fn law_shown(before: Seq<char>, after: Seq<char>, out: Seq<char>, limit: usize)
    ensures
        shown_text(ShowView::Inline { before, after }, Some(out)) == before + out + after + "\n"@,
        shown_text(ShowView::Indented { before }, Some(out)) == before + indent_of(out) + "\n"@,
        shown_text(ShowView::Counted { before, after }, Some(out)) == before + decimal_of(
            generation_count(out),
        ) + after + "\n"@,
        shown_text(ShowView::Largest(limit), Some(out)) == largest_text(out, limit as nat),
        shown_text(ShowView::Inline { before, after }, None) == Seq::<char>::empty(),
        shown_text(ShowView::Indented { before }, None) == Seq::<char>::empty(),
        shown_text(ShowView::Counted { before, after }, None) == Seq::<char>::empty(),
        shown_text(ShowView::Largest(limit), None) == Seq::<char>::empty(),
        shown_text(ShowView::Generations { label: before, profile: after }, None) == "  "@ + before
            + ": none found (profile: "@ + after + ")\n"@,
{
}

} // verus!
