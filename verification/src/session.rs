//! Sessions: a script being carried out.
//!
//! A session touches nothing itself. It says what to print and asks for one thing at a
//! time; whoever runs it does that thing and hands back what came of it. In a dry run
//! a session asks only for what changes nothing.
use vstd::prelude::*;

use crate::cleanup::{
    empty_header_line, empty_header_text, empty_preview_line, empty_preview_text, emptied_line,
    emptied_text, fate_line, fate_text, no_roots_line, no_roots_text, root_preview_line,
    root_preview_text, store_change_line, store_change_text, unreadable_line, unreadable_text,
    RootFate,
};
use crate::command::{
    command_exists, command_line_of, lookup_command, opt_text, outcome_line, outcome_text,
    plain_command, step_header, step_preview, Command, CommandView, Outcome,
};
use crate::numbers::{decimal, decimal_of};
use crate::report::{age_text, describe_age, LinkAge};
use crate::roots::{find_home_roots, home_roots};
use crate::script::{
    place_text, shown_text, spans_fit, Guard, GuardView, Op, OpView, Place, PlaceView, Script, Show,
    ShowView,
};
use crate::text::texts;

verus! {

// ---------- questions and answers ----------

/// What a session asks for.
pub enum Ask {
    /// Run this command and say whether it succeeded.
    Succeeds(Command),
    /// Run this command and hand back what it printed.
    Capture(Command),
    /// Say whether this file or directory exists.
    Present(Place),
    /// Say when this link was last changed.
    Age(String),
    /// Say what stands at this path.
    Link(String),
    /// Remove the link at this path.
    Unlink(String),
    /// Open this directory for reading.
    OpenDir(Place),
    /// Read the next entry of the open directory.
    NextEntry,
    /// Remove the entry that was read last: with all that is in it, or as a file.
    RemoveEntry { tree: bool },
    /// Run this command and pass its output on, with or without the filter.
    Run { command: Command, filter_deleting: bool },
    /// Nothing: the session is over.
    Finished,
}

/// What a session asks for.
pub enum AskView {
    Succeeds(CommandView),
    Capture(CommandView),
    Present(PlaceView),
    Age(Seq<char>),
    Link(Seq<char>),
    Unlink(Seq<char>),
    OpenDir(PlaceView),
    NextEntry,
    RemoveEntry { tree: bool },
    Run { command: CommandView, filter_deleting: bool },
    Finished,
}

impl View for Ask {
    type V = AskView;

    open spec fn view(&self) -> AskView {
        match self {
            Ask::Succeeds(command) => AskView::Succeeds(command@),
            Ask::Capture(command) => AskView::Capture(command@),
            Ask::Present(place) => AskView::Present(place@),
            Ask::Age(path) => AskView::Age(path@),
            Ask::Link(path) => AskView::Link(path@),
            Ask::Unlink(path) => AskView::Unlink(path@),
            Ask::OpenDir(place) => AskView::OpenDir(place@),
            Ask::NextEntry => AskView::NextEntry,
            Ask::RemoveEntry { tree } => AskView::RemoveEntry { tree: *tree },
            Ask::Run { command, filter_deleting } => AskView::Run {
                command: command@,
                filter_deleting: *filter_deleting,
            },
            Ask::Finished => AskView::Finished,
        }
    }
}

/// What stands at a path.
pub enum LinkState {
    /// A symbolic link.
    Symlink,
    /// Something else.
    Other,
    /// Nothing that can be looked at.
    Gone,
}

/// An entry of a directory.
pub enum Entry {
    /// There are no more entries.
    End,
    /// The entry could not be read.
    Unreadable,
    /// An entry: whether it is, or leads to, a directory, and whether it is a symbolic link.
    Found { is_dir: bool, is_symlink: bool },
}

/// What came of what a session asked for.
pub enum Reply {
    /// Whether something holds, or was done.
    Answer(bool),
    /// What a command printed.
    Output(Option<String>),
    /// When a link was last changed.
    Age(LinkAge),
    /// What stands at a path.
    Link(LinkState),
    /// That something was done, or why it was not.
    Tried(Result<(), String>),
    /// An entry of a directory.
    Entry(Entry),
    /// How a command ended.
    Ran(Outcome),
}

// ---------- sessions ----------

/// What a session waits for.
#[derive(Clone, Copy, PartialEq, Eq, Structural)]
pub enum Phase {
    /// To be begun.
    Idle,
    /// Whether a guard holds.
    Guard,
    /// The output of a command to be shown.
    Report,
    /// The age of a stray root.
    Age,
    /// The directory of boot entries to be opened.
    OpenBoot,
    /// A boot entry.
    Boot,
    /// A cleanup command to end.
    Run,
    /// The list of garbage collector roots.
    Roots,
    /// What stands at the path of a stray root.
    Link,
    /// A stray root to be removed.
    Unlink,
    /// Whether the directory to be emptied exists.
    Check,
    /// The directory to be emptied to be opened.
    Open,
    /// An entry of the directory to be emptied.
    Walk,
    /// An entry to be removed.
    Remove,
    /// The size of the store before the cleanup.
    Before,
    /// The size of the store after the cleanup.
    After,
    /// Nothing any more.
    Finished,
}

/// A script being carried out.
pub struct Session {
    color: bool,
    dry_run: bool,
    home: String,
    script: Script,
    pc: usize,
    phase: Phase,
    roots: Vec<String>,
    next: usize,
    count: u64,
    before: Option<String>,
}

/// The state of a session: its settings, its script and the position in it, what it waits
/// for, the stray roots and which of them is next, how many entries were counted, and the
/// size of the store before the cleanup.
pub struct SessionView {
    pub color: bool,
    pub dry_run: bool,
    pub home: Seq<char>,
    pub ops: Seq<OpView>,
    pub pc: nat,
    pub phase: Phase,
    pub roots: Seq<Seq<char>>,
    pub next: nat,
    pub count: nat,
    pub before: Option<Seq<char>>,
}

impl View for Session {
    type V = SessionView;

    closed spec fn view(&self) -> SessionView {
        SessionView {
            color: self.color,
            dry_run: self.dry_run,
            home: self.home@,
            ops: self.script@,
            pc: self.pc as nat,
            phase: self.phase,
            roots: texts(self.roots@),
            next: self.next as nat,
            count: self.count as nat,
            before: opt_text(self.before),
        }
    }
}

/// What to print, and what to do next.
pub struct Turn {
    pub text: String,
    pub ask: Ask,
}

/// The session after a turn, what to print, and what to do next.
pub struct TurnView {
    pub session: SessionView,
    pub text: Seq<char>,
    pub ask: AskView,
}

/// A turn with a text printed before it.
pub open spec fn say(text: Seq<char>, turn: TurnView) -> TurnView {
    TurnView { session: turn.session, text: text + turn.text, ask: turn.ask }
}

/// The command that tells the size of the store.
pub open spec fn store_size_command() -> CommandView {
    plain_command("du"@).with("-sh"@).with("/nix/store"@)
}

/// The command that lists the live garbage collector roots.
pub open spec fn roots_command() -> CommandView {
    plain_command("nix-store"@).with("--gc"@).with("--print-roots"@)
}

/// The directory of boot entries.
pub open spec fn boot_dir() -> PlaceView {
    PlaceView::At("/boot/loader/entries"@)
}

/// How a guard is checked.
pub open spec fn guard_ask(guard: GuardView) -> AskView {
    match guard {
        GuardView::Installed(program) => AskView::Succeeds(lookup_command(program)),
        GuardView::Present(place) => AskView::Present(place),
    }
}

/// What a report says when there are no stray roots.
pub open spec fn no_stray_text(home: Seq<char>) -> Seq<char> {
    "  none found under "@ + home + "\n"@
}

/// What a report says of a stray root.
pub open spec fn stray_text(root: Seq<char>, age: LinkAge) -> Seq<char> {
    "  "@ + root + " ("@ + age_text(age) + ")\n"@
}

/// What a report says after the last stray root.
pub open spec fn stray_note() -> Seq<char> {
    "  -> `nix-reaper clean` removes every one of these, regardless of age\n"@
}

/// What a report says when boot entries are found.
pub open spec fn boot_entries_text(n: nat) -> Seq<char> {
    "  systemd-boot entries: "@ + decimal_of(n)
        + " (each pins a kernel+initrd generation alive)\n"@
        + "  set `boot.loader.systemd-boot.configurationLimit = 5;` (or similar) to stop these piling up\n"@
}

/// What a report says when there is no directory of boot entries.
pub open spec fn no_boot_entries_text() -> Seq<char> {
    "  no /boot/loader/entries — probably GRUB\n"@
        + "  set `boot.loader.grub.configurationLimit = 5;` in your config\n"@
}

/// What a dry run says of the stray roots.
pub open spec fn root_previews(color: bool, roots: Seq<Seq<char>>) -> Seq<char>
    decreases roots.len(),
{
    if roots.len() == 0 {
        Seq::empty()
    } else {
        root_previews(color, roots.drop_last()) + root_preview_text(color, roots.last())
    }
}

/// What became of a root, from the attempt to remove it.
pub open spec fn fate_of(tried: Result<(), String>) -> RootFate {
    match tried {
        Ok(_) => RootFate::Removed,
        Err(error) => RootFate::Refused(error),
    }
}

impl SessionView {
    /// The session waiting in `phase` at operation `pc`.
    pub open spec fn at(self, pc: nat, phase: Phase) -> SessionView {
        SessionView { pc, phase, ..self }
    }

    /// The session with these stray roots, none of them looked at.
    pub open spec fn with_roots(self, roots: Seq<Seq<char>>) -> SessionView {
        SessionView { roots, next: 0, ..self }
    }

    /// The turn that asks for something and waits in `phase`.
    pub open spec fn asking(self, phase: Phase, ask: AskView) -> TurnView {
        TurnView { session: self.at(self.pc, phase), text: Seq::empty(), ask }
    }

    /// The turn that begins operation `pc`.
    pub open spec fn enter(self, pc: nat) -> TurnView
        decreases self.ops.len() - pc,
    {
        let here = self.at(pc, self.phase);
        if pc >= self.ops.len() {
            here.asking(Phase::Finished, AskView::Finished)
        } else {
            match self.ops[pc as int] {
                OpView::Say(text) => say(text, self.enter(pc + 1)),
                OpView::When { guard, .. } => here.asking(Phase::Guard, guard_ask(guard)),
                OpView::Report { command, .. } => here.asking(
                    Phase::Report,
                    AskView::Capture(command),
                ),
                OpView::BootEntries => here.asking(Phase::OpenBoot, AskView::OpenDir(boot_dir())),
                OpView::Step(step) => if self.dry_run {
                    say(step_preview(self.color, step), self.enter(pc + 1))
                } else {
                    say(
                        step_header(self.color, step),
                        here.asking(
                            Phase::Run,
                            AskView::Run {
                                command: command_line_of(step),
                                filter_deleting: step.filter_deleting,
                            },
                        ),
                    )
                },
                OpView::SweepRoots => here.asking(Phase::Roots, AskView::Capture(roots_command())),
                OpView::Empty { place, .. } => here.asking(Phase::Check, AskView::Present(place)),
                OpView::MeasureBefore => here.asking(
                    Phase::Before,
                    AskView::Capture(store_size_command()),
                ),
                OpView::MeasureAfter => if self.before is Some {
                    here.asking(Phase::After, AskView::Capture(store_size_command()))
                } else {
                    self.enter(pc + 1)
                },
            }
        }
    }

    /// The turn that begins the next operation.
    pub open spec fn proceed(self) -> TurnView {
        self.enter(self.pc + 1)
    }

    /// The turn that looks at the next stray root, or begins the next operation after the
    /// last one.
    pub open spec fn next_root(self) -> TurnView {
        let after = SessionView { next: self.next + 1, ..self };
        if self.next + 1 < self.roots.len() {
            if self.phase == Phase::Age {
                after.asking(Phase::Age, AskView::Age(self.roots[(self.next + 1) as int]))
            } else {
                after.asking(Phase::Link, AskView::Link(self.roots[(self.next + 1) as int]))
            }
        } else if self.phase == Phase::Age {
            say(stray_note(), after.proceed())
        } else {
            after.proceed()
        }
    }

    /// Whether the session waits for replies of this kind. An entry can be counted only
    /// while the count fits in 64 bits.
    pub open spec fn accepts(self, reply: Reply) -> bool {
        match (self.phase, reply) {
            (Phase::Guard, Reply::Answer(_)) => true,
            (Phase::Report, Reply::Output(_)) => true,
            (Phase::Age, Reply::Age(_)) => true,
            (Phase::OpenBoot, Reply::Tried(_)) => true,
            (Phase::Boot, Reply::Entry(Entry::Found { .. })) => self.count < u64::MAX,
            (Phase::Boot, Reply::Entry(_)) => true,
            (Phase::Run, Reply::Ran(_)) => true,
            (Phase::Roots, Reply::Output(_)) => true,
            (Phase::Link, Reply::Link(_)) => true,
            (Phase::Unlink, Reply::Tried(_)) => true,
            (Phase::Check, Reply::Answer(_)) => true,
            (Phase::Open, Reply::Tried(_)) => true,
            (Phase::Walk, Reply::Entry(_)) => true,
            (Phase::Remove, Reply::Answer(done)) => done ==> self.count < u64::MAX,
            (Phase::Before, Reply::Output(_)) => true,
            (Phase::After, Reply::Output(_)) => true,
            _ => false,
        }
    }

    /// The operation that the session is at.
    pub open spec fn op(self) -> OpView {
        self.ops[self.pc as int]
    }

    /// The turn that takes a reply in.
    pub open spec fn resumed(self, reply: Reply) -> TurnView {
        match (self.phase, reply) {
            (Phase::Guard, Reply::Answer(holds)) => self.guarded(holds),
            (Phase::Report, Reply::Output(out)) => self.reported(self.op()->show, opt_text(out)),
            (Phase::Age, Reply::Age(age)) => self.aged(age),
            (Phase::OpenBoot, Reply::Tried(tried)) => self.boot_opened(tried),
            (Phase::Boot, Reply::Entry(entry)) => self.boot_entry(entry),
            (Phase::Run, Reply::Ran(outcome)) => self.ran(outcome),
            (Phase::Roots, Reply::Output(out)) => self.swept(home_roots(opt_text(out), self.home)),
            (Phase::Link, Reply::Link(state)) => self.linked(state),
            (Phase::Unlink, Reply::Tried(tried)) => self.root_done(fate_of(tried)),
            (Phase::Check, Reply::Answer(exists)) => self.checked(exists),
            (Phase::Open, Reply::Tried(tried)) => self.opened(tried),
            (Phase::Walk, Reply::Entry(entry)) => self.walked(entry),
            (Phase::Remove, Reply::Answer(done)) => self.removed(done),
            (Phase::Before, Reply::Output(out)) => self.measured_before(opt_text(out)),
            (Phase::After, Reply::Output(out)) => self.measured_after(opt_text(out)),
            _ => self.asking(Phase::Finished, AskView::Finished),
        }
    }

    /// The turn that begins what a guard protects, or leaves it out.
    pub open spec fn guarded(self, holds: bool) -> TurnView {
        if holds {
            self.proceed()
        } else {
            say(self.op()->otherwise, self.enter(self.pc + 1 + self.op()->span as nat))
        }
    }

    /// The turn that shows the output of a command.
    pub open spec fn reported(self, show: ShowView, out: Option<Seq<char>>) -> TurnView {
        if show is Roots {
            let roots = home_roots(out, self.home);
            let listed = self.with_roots(roots);
            if roots.len() == 0 {
                say(no_stray_text(self.home), listed.proceed())
            } else {
                listed.asking(Phase::Age, AskView::Age(roots[0]))
            }
        } else {
            say(shown_text(show, out), self.proceed())
        }
    }

    /// The turn that reports a stray root.
    pub open spec fn aged(self, age: LinkAge) -> TurnView {
        say(stray_text(self.roots[self.next as int], age), self.next_root())
    }

    /// The turn that sets out to count boot entries, or says that there are none.
    pub open spec fn boot_opened(self, tried: Result<(), String>) -> TurnView {
        match tried {
            Ok(_) => SessionView { count: 0, ..self }.asking(Phase::Boot, AskView::NextEntry),
            Err(_) => say(no_boot_entries_text(), self.proceed()),
        }
    }

    /// The turn that counts a boot entry, or says how many there are.
    pub open spec fn boot_entry(self, entry: Entry) -> TurnView {
        match entry {
            Entry::End => say(boot_entries_text(self.count), self.proceed()),
            Entry::Unreadable => self.asking(Phase::Boot, AskView::NextEntry),
            Entry::Found { .. } => SessionView { count: self.count + 1, ..self }.asking(
                Phase::Boot,
                AskView::NextEntry,
            ),
        }
    }

    /// The turn that says how a cleanup command ended.
    pub open spec fn ran(self, outcome: Outcome) -> TurnView {
        say(outcome_text(self.color, outcome), self.proceed())
    }

    /// The turn that sets out to remove stray roots, or says what would be removed.
    pub open spec fn swept(self, roots: Seq<Seq<char>>) -> TurnView {
        let listed = self.with_roots(roots);
        if roots.len() == 0 {
            say(no_roots_text(self.home), listed.proceed())
        } else if self.dry_run {
            say(root_previews(self.color, roots), listed.proceed())
        } else {
            listed.asking(Phase::Link, AskView::Link(roots[0]))
        }
    }

    /// The turn that removes what stands at the path of a stray root, if it is a symbolic link.
    pub open spec fn linked(self, state: LinkState) -> TurnView {
        match state {
            LinkState::Symlink => self.asking(
                Phase::Unlink,
                AskView::Unlink(self.roots[self.next as int]),
            ),
            LinkState::Other => self.root_done(RootFate::NotSymlink),
            LinkState::Gone => self.root_done(RootFate::Gone),
        }
    }

    /// The turn that says what became of a stray root.
    pub open spec fn root_done(self, fate: RootFate) -> TurnView {
        say(fate_text(self.color, self.roots[self.next as int], fate), self.next_root())
    }

    /// The turn that sets out to empty a directory, or says that it would be emptied.
    pub open spec fn checked(self, exists: bool) -> TurnView {
        let label = self.op()->label;
        let place = self.op()->place;
        let dir = place_text(self.home, place);
        if !exists {
            self.proceed()
        } else if self.dry_run {
            say(empty_preview_text(self.color, label, dir), self.proceed())
        } else {
            say(
                empty_header_text(self.color, label, dir),
                self.asking(Phase::Open, AskView::OpenDir(place)),
            )
        }
    }

    /// The turn that reads the first entry of a directory to be emptied, or says why it
    /// cannot be read.
    pub open spec fn opened(self, tried: Result<(), String>) -> TurnView {
        match tried {
            Ok(_) => SessionView { count: 0, ..self }.asking(Phase::Walk, AskView::NextEntry),
            Err(error) => say(
                unreadable_text(self.color, place_text(self.home, self.op()->place), error@),
                self.proceed(),
            ),
        }
    }

    /// The turn that removes an entry, or says how many were removed.
    pub open spec fn walked(self, entry: Entry) -> TurnView {
        match entry {
            Entry::End => say(emptied_text(self.color, self.count), self.proceed()),
            Entry::Unreadable => self.asking(Phase::Walk, AskView::NextEntry),
            Entry::Found { is_dir, is_symlink } => self.asking(
                Phase::Remove,
                AskView::RemoveEntry { tree: is_dir && !is_symlink },
            ),
        }
    }

    /// The turn that counts an entry that was removed, and reads the next one.
    pub open spec fn removed(self, done: bool) -> TurnView {
        let count = if done {
            self.count + 1
        } else {
            self.count
        };
        SessionView { count, ..self }.asking(Phase::Walk, AskView::NextEntry)
    }

    /// The turn that notes the size of the store.
    pub open spec fn measured_before(self, out: Option<Seq<char>>) -> TurnView {
        SessionView { before: out, ..self }.proceed()
    }

    /// The turn that says how the size of the store has changed, if both sizes are known.
    pub open spec fn measured_after(self, out: Option<Seq<char>>) -> TurnView {
        match (self.before, out) {
            (Some(before), Some(after)) => say(
                store_change_text(self.color, before, after),
                self.proceed(),
            ),
            _ => self.proceed(),
        }
    }

    /// Whether the phase fits the operation that the session is at, and a dry run is not
    /// amid anything that changes something.
    pub open spec fn wf(self) -> bool {
        &&& spans_fit(self.ops)
        &&& self.pc <= self.ops.len()
        &&& self.phase != Phase::Idle && self.phase != Phase::Finished ==> self.pc < self.ops.len()
        &&& self.dry_run ==> !self.phase.changes()
        &&& match self.phase {
            Phase::Idle => self.pc == 0,
            Phase::Finished => true,
            Phase::Guard => self.ops[self.pc as int] is When,
            Phase::Report => self.ops[self.pc as int] is Report,
            Phase::Age => self.ops[self.pc as int] is Report && self.next < self.roots.len(),
            Phase::OpenBoot | Phase::Boot => self.ops[self.pc as int] is BootEntries,
            Phase::Run => self.ops[self.pc as int] is Step,
            Phase::Roots => self.ops[self.pc as int] is SweepRoots,
            Phase::Link | Phase::Unlink => self.ops[self.pc as int] is SweepRoots && self.next
                < self.roots.len(),
            Phase::Check | Phase::Open | Phase::Walk | Phase::Remove =>
                self.ops[self.pc as int] is Empty,
            Phase::Before => self.ops[self.pc as int] is MeasureBefore,
            Phase::After => self.ops[self.pc as int] is MeasureAfter,
        }
    }
}

impl Phase {
    /// Whether the session is amid a change: a command, a link or a directory.
    pub open spec fn changes(self) -> bool {
        match self {
            Phase::Run | Phase::Link | Phase::Unlink | Phase::Open | Phase::Walk | Phase::Remove =>
                true,
            _ => false,
        }
    }
}

// ---------- carrying a session out ----------

/// The state of a session that has not begun.
pub open spec fn fresh(script: Seq<OpView>, home: Seq<char>, color: bool, dry_run: bool) -> SessionView {
    SessionView {
        color,
        dry_run,
        home,
        ops: script,
        pc: 0,
        phase: Phase::Idle,
        roots: Seq::empty(),
        next: 0,
        count: 0,
        before: None,
    }
}

/// Whether a turn was carried out: the session is in its state, and the text and the
/// question are its own.
pub open spec fn is_turn(session: SessionView, turn: Turn, expected: TurnView) -> bool {
    &&& session == expected.session
    &&& turn.text@ == expected.text
    &&& turn.ask@ == expected.ask
}

/// How an operation begins does not depend on what was waited for before.
pub proof fn lemma_enter_from(s: SessionView, at: nat, phase: Phase, pc: nat)
    ensures
        s.at(at, phase).enter(pc) == s.enter(pc),
    decreases s.ops.len() - pc,
{
    if pc < s.ops.len() {
        lemma_enter_from(s, at, phase, pc + 1);
    }
}

impl Session {
    /// A session that has not begun.
    pub fn new(script: Script, home: &str, color: bool, dry_run: bool) -> (s: Session)
        requires
            spans_fit(script@),
        ensures
            s@ == fresh(script@, home@, color, dry_run),
            s@.wf(),
    {
        let s = Session {
            color,
            dry_run,
            home: home.to_owned(),
            script,
            pc: 0,
            phase: Phase::Idle,
            roots: Vec::new(),
            next: 0,
            count: 0,
            before: None,
        };
        assert(texts(s.roots@) == Seq::<Seq<char>>::empty());
        s
    }

    /// Begins the session.
    pub fn begin(&mut self) -> (turn: Turn)
        requires
            old(self)@.wf(),
            old(self)@.phase == Phase::Idle,
        ensures
            final(self)@.wf(),
            is_turn(final(self)@, turn, old(self)@.enter(0)),
    {
        let turn = self.enter(String::new());
        assert(Seq::<char>::empty() + self@.enter(0).text == self@.enter(0).text);
        turn
    }

    /// Waits in `phase` for what is asked.
    fn waiting(&mut self, phase: Phase, text: String, ask: Ask) -> (turn: Turn)
        ensures
            final(self)@ == old(self)@.at(old(self)@.pc, phase),
            turn.text == text,
            turn.ask == ask,
    {
        self.phase = phase;
        Turn { text, ask }
    }

    /// Begins the operation that the session is at, after printing `said`.
    fn enter(&mut self, said: String) -> (turn: Turn)
        requires
            spans_fit(old(self)@.ops),
            old(self)@.pc <= old(self)@.ops.len(),
        ensures
            final(self)@.wf(),
            is_turn(final(self)@, turn, say(said@, old(self)@.enter(old(self)@.pc))),
        decreases old(self)@.ops.len() - old(self)@.pc,
    {
        proof {
            assert(said@ + Seq::<char>::empty() == said@);
        }
        if self.pc >= self.script.ops.len() {
            return self.waiting(Phase::Finished, said, Ask::Finished);
        }
        let ghost op = self.script.ops@[self.pc as int]@;
        assert(self@.ops[self@.pc as int] == op);
        match &self.script.ops[self.pc] {
            Op::Say(text) => {
                let ghost piece = text@;
                let more = said.concat(text.as_str());
                let ghost rest = self@.enter(self@.pc + 1);
                proof {
                    assert(said@ + piece + rest.text == said@ + (piece + rest.text));
                }
                proof {
                    lemma_enter_from(self@, self@.pc + 1, self@.phase, self@.pc + 1);
                }
                self.pc = self.pc + 1;
                self.enter(more)
            },
            Op::When { guard, .. } => {
                let ask = match guard {
                    Guard::Installed(program) => Ask::Succeeds(command_exists(program.as_str())),
                    Guard::Present(place) => Ask::Present(place.copy()),
                };
                self.waiting(Phase::Guard, said, ask)
            },
            Op::Report { command, .. } => {
                let ask = Ask::Capture(command.copy());
                self.waiting(Phase::Report, said, ask)
            },
            Op::BootEntries => {
                let ask = Ask::OpenDir(Place::At("/boot/loader/entries".to_owned()));
                self.waiting(Phase::OpenBoot, said, ask)
            },
            Op::Step(step) => {
                if self.dry_run {
                    let ghost piece = step_preview(self.color, step@);
                    let more = said.concat(step.preview(self.color).as_str());
                    let ghost rest = self@.enter(self@.pc + 1);
                    proof {
                        assert(said@ + piece + rest.text == said@ + (piece + rest.text));
                    }
                    proof {
                        lemma_enter_from(self@, self@.pc + 1, self@.phase, self@.pc + 1);
                    }
                    self.pc = self.pc + 1;
                    self.enter(more)
                } else {
                    let ghost piece = step_header(self.color, step@);
                    let more = said.concat(step.header(self.color).as_str());
                    let ask = Ask::Run {
                        command: step.command_line(),
                        filter_deleting: step.filter_deleting,
                    };
                    proof {
                        assert(piece + Seq::<char>::empty() == piece);
                    }
                    self.waiting(Phase::Run, more, ask)
                }
            },
            Op::SweepRoots => {
                let ask = Ask::Capture(query_roots());
                self.waiting(Phase::Roots, said, ask)
            },
            Op::Empty { place, .. } => {
                let ask = Ask::Present(place.copy());
                self.waiting(Phase::Check, said, ask)
            },
            Op::MeasureBefore => {
                let ask = Ask::Capture(measure_store());
                self.waiting(Phase::Before, said, ask)
            },
            Op::MeasureAfter => {
                if self.before.is_some() {
                    let ask = Ask::Capture(measure_store());
                    self.waiting(Phase::After, said, ask)
                } else {
                    proof {
                        lemma_enter_from(self@, self@.pc + 1, self@.phase, self@.pc + 1);
                    }
                    self.pc = self.pc + 1;
                    self.enter(said)
                }
            },
        }
    }
}

impl Session {
    /// Begins the next operation, after printing `said`.
    fn go_on(&mut self, said: String) -> (turn: Turn)
        requires
            spans_fit(old(self)@.ops),
            old(self)@.pc < old(self)@.ops.len(),
        ensures
            final(self)@.wf(),
            is_turn(final(self)@, turn, say(said@, old(self)@.proceed())),
    {
        proof {
            lemma_enter_from(self@, self@.pc + 1, self@.phase, self@.pc + 1);
        }
        assert(self@.ops.len() == self.script.ops.len());
        self.pc = self.pc + 1;
        self.enter(said)
    }

    /// Begins the next operation.
    fn proceed(&mut self) -> (turn: Turn)
        requires
            spans_fit(old(self)@.ops),
            old(self)@.pc < old(self)@.ops.len(),
        ensures
            final(self)@.wf(),
            is_turn(final(self)@, turn, old(self)@.proceed()),
    {
        let ghost text = self@.proceed().text;
        assert(Seq::<char>::empty() + text == text);
        self.go_on(String::new())
    }

    /// Looks at the next stray root, or begins the next operation after the last one,
    /// after printing `said`.
    fn go_to_next_root(&mut self, said: String) -> (turn: Turn)
        requires
            old(self)@.wf(),
            old(self)@.phase == Phase::Age || old(self)@.phase == Phase::Link || old(self)@.phase
                == Phase::Unlink,
        ensures
            final(self)@.wf(),
            is_turn(final(self)@, turn, say(said@, old(self)@.next_root())),
    {
        let age = self.phase == Phase::Age;
        assert(self@.roots.len() == self.roots.len());
        let at = self.next + 1;
        self.next = at;
        proof {
            assert(said@ + Seq::<char>::empty() == said@);
        }
        if at < self.roots.len() {
            let root = self.roots[at].clone();
            if age {
                self.waiting(Phase::Age, said, Ask::Age(root))
            } else {
                self.waiting(Phase::Link, said, Ask::Link(root))
            }
        } else if age {
            let more = said.concat(
                "  -> `nix-reaper clean` removes every one of these, regardless of age\n",
            );
            let ghost rest = self@.proceed().text;
            assert(said@ + stray_note() + rest == said@ + (stray_note() + rest));
            self.go_on(more)
        } else {
            self.go_on(said)
        }
    }

    /// Begins what a guard protects, or leaves it out.
    fn guarded(&mut self, holds: bool) -> (turn: Turn)
        requires
            old(self)@.wf(),
            old(self)@.phase == Phase::Guard,
        ensures
            final(self)@.wf(),
            is_turn(final(self)@, turn, old(self)@.guarded(holds)),
    {
        if holds {
            return self.proceed();
        }
        let ghost op = self.script.ops@[self.pc as int]@;
        assert(self@.op() == op);
        assert(self@.ops.len() == self.script.ops.len());
        assert(self@.ops[self@.pc as int] is When);
        let (span, said) = match &self.script.ops[self.pc] {
            Op::When { span, otherwise, .. } => (*span, otherwise.clone()),
            _ => (0, String::new()),
        };
        assert(self@.pc + 1 + span <= self@.ops.len());
        let at = self.pc + 1 + span;
        proof {
            lemma_enter_from(self@, at as nat, self@.phase, at as nat);
        }
        self.pc = at;
        self.enter(said)
    }

    /// Shows the output of a command.
    fn reported(&mut self, out: Option<String>) -> (turn: Turn)
        requires
            old(self)@.wf(),
            old(self)@.phase == Phase::Report,
        ensures
            final(self)@.wf(),
            is_turn(
                final(self)@,
                turn,
                old(self)@.reported(old(self)@.op()->show, opt_text(out)),
            ),
    {
        let ghost op = self.script.ops@[self.pc as int]@;
        assert(self@.op() == op);
        let said = match &self.script.ops[self.pc] {
            Op::Report { show: Show::Roots, .. } => None,
            Op::Report { show, .. } => Some(show.shown(&out)),
            _ => None,
        };
        match said {
            Some(text) => self.go_on(text),
            None => {
                self.list_roots(&out);
                if self.roots.len() == 0 {
                    let text = "  none found under ".to_owned().concat(self.home.as_str()).concat(
                        "\n",
                    );
                    self.go_on(text)
                } else {
                    let root = self.roots[0].clone();
                    self.waiting(Phase::Age, String::new(), Ask::Age(root))
                }
            },
        }
    }

    /// Notes the stray roots that the output of a command lists.
    fn list_roots(&mut self, out: &Option<String>)
        ensures
            final(self)@ == old(self)@.with_roots(home_roots(opt_text(*out), old(self)@.home)),
    {
        let report = match out {
            Some(text) => Some(text.as_str()),
            None => None,
        };
        self.roots = find_home_roots(report, self.home.as_str());
        self.next = 0;
    }

    /// Reports a stray root.
    fn aged(&mut self, age: LinkAge) -> (turn: Turn)
        requires
            old(self)@.wf(),
            old(self)@.phase == Phase::Age,
        ensures
            final(self)@.wf(),
            is_turn(final(self)@, turn, old(self)@.aged(age)),
    {
        let said = "  ".to_owned().concat(self.roots[self.next].as_str()).concat(" (").concat(
            describe_age(&age).as_str(),
        ).concat(")\n");
        self.go_to_next_root(said)
    }

    /// Sets out to count boot entries, or says that there are none.
    fn boot_opened(&mut self, tried: Result<(), String>) -> (turn: Turn)
        requires
            old(self)@.wf(),
            old(self)@.phase == Phase::OpenBoot,
        ensures
            final(self)@.wf(),
            is_turn(final(self)@, turn, old(self)@.boot_opened(tried)),
    {
        match tried {
            Ok(_) => {
                self.count = 0;
                self.waiting(Phase::Boot, String::new(), Ask::NextEntry)
            },
            Err(_) => {
                let said = "  no /boot/loader/entries — probably GRUB\n".to_owned().concat(
                    "  set `boot.loader.grub.configurationLimit = 5;` in your config\n",
                );
                self.go_on(said)
            },
        }
    }

    /// Counts a boot entry, or says how many there are.
    fn boot_entry(&mut self, entry: Entry) -> (turn: Turn)
        requires
            old(self)@.wf(),
            old(self)@.phase == Phase::Boot,
            entry is Found ==> old(self)@.count < u64::MAX,
        ensures
            final(self)@.wf(),
            is_turn(final(self)@, turn, old(self)@.boot_entry(entry)),
    {
        match entry {
            Entry::End => {
                let said = "  systemd-boot entries: ".to_owned().concat(
                    decimal(self.count).as_str(),
                ).concat(" (each pins a kernel+initrd generation alive)\n").concat(
                    "  set `boot.loader.systemd-boot.configurationLimit = 5;` (or similar) to stop these piling up\n",
                );
                self.go_on(said)
            },
            Entry::Unreadable => self.waiting(Phase::Boot, String::new(), Ask::NextEntry),
            Entry::Found { .. } => {
                self.count = self.count + 1;
                self.waiting(Phase::Boot, String::new(), Ask::NextEntry)
            },
        }
    }

    /// Says how a cleanup command ended.
    fn ran(&mut self, outcome: Outcome) -> (turn: Turn)
        requires
            old(self)@.wf(),
            old(self)@.phase == Phase::Run,
        ensures
            final(self)@.wf(),
            is_turn(final(self)@, turn, old(self)@.ran(outcome)),
    {
        let said = outcome_line(self.color, &outcome);
        self.go_on(said)
    }

    /// Sets out to remove the stray roots, or says which would be removed.
    fn swept(&mut self, out: Option<String>) -> (turn: Turn)
        requires
            old(self)@.wf(),
            old(self)@.phase == Phase::Roots,
        ensures
            final(self)@.wf(),
            is_turn(
                final(self)@,
                turn,
                old(self)@.swept(home_roots(opt_text(out), old(self)@.home)),
            ),
    {
        self.list_roots(&out);
        if self.roots.len() == 0 {
            let said = no_roots_line(self.home.as_str());
            self.go_on(said)
        } else if self.dry_run {
            let mut said = String::new();
            let mut i: usize = 0;
            let ghost roots = self@.roots;
            while i < self.roots.len()
                invariant
                    i <= self.roots.len(),
                    roots == texts(self.roots@),
                    said@ == root_previews(self.color, roots.take(i as int)),
                decreases self.roots.len() - i,
            {
                said = said.concat(root_preview_line(self.color, self.roots[i].as_str()).as_str());
                assert(roots.take(i + 1).drop_last() == roots.take(i as int));
                i += 1;
            }
            assert(roots.take(i as int) == roots);
            self.go_on(said)
        } else {
            let root = self.roots[0].clone();
            self.waiting(Phase::Link, String::new(), Ask::Link(root))
        }
    }

    /// Removes what stands at the path of a stray root, if it is a symbolic link.
    fn linked(&mut self, state: LinkState) -> (turn: Turn)
        requires
            old(self)@.wf(),
            old(self)@.phase == Phase::Link,
        ensures
            final(self)@.wf(),
            is_turn(final(self)@, turn, old(self)@.linked(state)),
    {
        match state {
            LinkState::Symlink => {
                let root = self.roots[self.next].clone();
                self.waiting(Phase::Unlink, String::new(), Ask::Unlink(root))
            },
            LinkState::Other => self.root_done(RootFate::NotSymlink),
            LinkState::Gone => self.root_done(RootFate::Gone),
        }
    }

    /// Says what became of the stray root that was looked at.
    fn root_done(&mut self, fate: RootFate) -> (turn: Turn)
        requires
            old(self)@.wf(),
            old(self)@.phase == Phase::Link || old(self)@.phase == Phase::Unlink,
        ensures
            final(self)@.wf(),
            is_turn(final(self)@, turn, old(self)@.root_done(fate)),
    {
        let said = fate_line(self.color, self.roots[self.next].as_str(), &fate);
        self.go_to_next_root(said)
    }

    /// The directory that the session is to empty, with its label.
    fn dir_to_empty(&self) -> (dir: (String, Place))
        requires
            self@.pc < self@.ops.len(),
            self@.op() is Empty,
        ensures
            self@.op() == (OpView::Empty { label: dir.0@, place: dir.1@ }),
    {
        let ghost op = self.script.ops@[self.pc as int]@;
        assert(self@.op() == op);
        match &self.script.ops[self.pc] {
            Op::Empty { label, place } => (label.clone(), place.copy()),
            _ => (String::new(), Place::At(String::new())),
        }
    }

    /// Sets out to empty a directory, or says that it would be emptied.
    fn checked(&mut self, exists: bool) -> (turn: Turn)
        requires
            old(self)@.wf(),
            old(self)@.phase == Phase::Check,
        ensures
            final(self)@.wf(),
            is_turn(final(self)@, turn, old(self)@.checked(exists)),
    {
        if !exists {
            return self.proceed();
        }
        let (label, place) = self.dir_to_empty();
        let path = place.path(self.home.as_str());
        if self.dry_run {
            let said = empty_preview_line(self.color, label.as_str(), path.as_str());
            self.go_on(said)
        } else {
            let said = empty_header_line(self.color, label.as_str(), path.as_str());
            assert(said@ + Seq::<char>::empty() == said@);
            self.waiting(Phase::Open, said, Ask::OpenDir(place))
        }
    }

    /// Reads the first entry of a directory to be emptied, or says why it cannot be read.
    fn opened(&mut self, tried: Result<(), String>) -> (turn: Turn)
        requires
            old(self)@.wf(),
            old(self)@.phase == Phase::Open,
        ensures
            final(self)@.wf(),
            is_turn(final(self)@, turn, old(self)@.opened(tried)),
    {
        match tried {
            Ok(_) => {
                self.count = 0;
                self.waiting(Phase::Walk, String::new(), Ask::NextEntry)
            },
            Err(error) => {
                let (_, place) = self.dir_to_empty();
                let said = unreadable_line(
                    self.color,
                    place.path(self.home.as_str()).as_str(),
                    error.as_str(),
                );
                self.go_on(said)
            },
        }
    }

    /// Removes an entry, or says how many were removed.
    fn walked(&mut self, entry: Entry) -> (turn: Turn)
        requires
            old(self)@.wf(),
            old(self)@.phase == Phase::Walk,
        ensures
            final(self)@.wf(),
            is_turn(final(self)@, turn, old(self)@.walked(entry)),
    {
        match entry {
            Entry::End => {
                let said = emptied_line(self.color, self.count);
                self.go_on(said)
            },
            Entry::Unreadable => self.waiting(Phase::Walk, String::new(), Ask::NextEntry),
            Entry::Found { is_dir, is_symlink } => self.waiting(
                Phase::Remove,
                String::new(),
                Ask::RemoveEntry { tree: is_dir && !is_symlink },
            ),
        }
    }

    /// Counts an entry that was removed, and reads the next one.
    fn removed(&mut self, done: bool) -> (turn: Turn)
        requires
            old(self)@.wf(),
            old(self)@.phase == Phase::Remove,
            done ==> old(self)@.count < u64::MAX,
        ensures
            final(self)@.wf(),
            is_turn(final(self)@, turn, old(self)@.removed(done)),
    {
        if done {
            self.count = self.count + 1;
        }
        self.waiting(Phase::Walk, String::new(), Ask::NextEntry)
    }

    /// Notes the size of the store.
    fn measured_before(&mut self, out: Option<String>) -> (turn: Turn)
        requires
            old(self)@.wf(),
            old(self)@.phase == Phase::Before,
        ensures
            final(self)@.wf(),
            is_turn(final(self)@, turn, old(self)@.measured_before(opt_text(out))),
    {
        self.before = out;
        self.proceed()
    }

    /// Says how the size of the store has changed, if both sizes are known.
    fn measured_after(&mut self, out: Option<String>) -> (turn: Turn)
        requires
            old(self)@.wf(),
            old(self)@.phase == Phase::After,
        ensures
            final(self)@.wf(),
            is_turn(final(self)@, turn, old(self)@.measured_after(opt_text(out))),
    {
        let said = match (&self.before, &out) {
            (Some(before), Some(after)) => Some(
                store_change_line(self.color, before.as_str(), after.as_str()),
            ),
            _ => None,
        };
        match said {
            Some(text) => self.go_on(text),
            None => self.proceed(),
        }
    }

    /// Whether the session waits for such a reply.
    pub fn can_resume(&self, reply: &Reply) -> (b: bool)
        ensures
            b == self@.accepts(*reply),
    {
        match (self.phase, reply) {
            (Phase::Guard, Reply::Answer(_)) => true,
            (Phase::Report, Reply::Output(_)) => true,
            (Phase::Age, Reply::Age(_)) => true,
            (Phase::OpenBoot, Reply::Tried(_)) => true,
            (Phase::Boot, Reply::Entry(Entry::Found { .. })) => self.count < u64::MAX,
            (Phase::Boot, Reply::Entry(_)) => true,
            (Phase::Run, Reply::Ran(_)) => true,
            (Phase::Roots, Reply::Output(_)) => true,
            (Phase::Link, Reply::Link(_)) => true,
            (Phase::Unlink, Reply::Tried(_)) => true,
            (Phase::Check, Reply::Answer(_)) => true,
            (Phase::Open, Reply::Tried(_)) => true,
            (Phase::Walk, Reply::Entry(_)) => true,
            (Phase::Remove, Reply::Answer(done)) => !*done || self.count < u64::MAX,
            (Phase::Before, Reply::Output(_)) => true,
            (Phase::After, Reply::Output(_)) => true,
            _ => false,
        }
    }

    /// Takes in what came of what the session asked for.
    pub fn resume(&mut self, reply: Reply) -> (turn: Turn)
        requires
            old(self)@.wf(),
            old(self)@.accepts(reply),
        ensures
            final(self)@.wf(),
            is_turn(final(self)@, turn, old(self)@.resumed(reply)),
    {
        match (self.phase, reply) {
            (Phase::Guard, Reply::Answer(holds)) => self.guarded(holds),
            (Phase::Report, Reply::Output(out)) => self.reported(out),
            (Phase::Age, Reply::Age(age)) => self.aged(age),
            (Phase::OpenBoot, Reply::Tried(tried)) => self.boot_opened(tried),
            (Phase::Boot, Reply::Entry(entry)) => self.boot_entry(entry),
            (Phase::Run, Reply::Ran(outcome)) => self.ran(outcome),
            (Phase::Roots, Reply::Output(out)) => self.swept(out),
            (Phase::Link, Reply::Link(state)) => self.linked(state),
            (Phase::Unlink, Reply::Tried(tried)) => match tried {
                Ok(_) => self.root_done(RootFate::Removed),
                Err(error) => self.root_done(RootFate::Refused(error)),
            },
            (Phase::Check, Reply::Answer(exists)) => self.checked(exists),
            (Phase::Open, Reply::Tried(tried)) => self.opened(tried),
            (Phase::Walk, Reply::Entry(entry)) => self.walked(entry),
            (Phase::Remove, Reply::Answer(done)) => self.removed(done),
            (Phase::Before, Reply::Output(out)) => self.measured_before(out),
            (Phase::After, Reply::Output(out)) => self.measured_after(out),
            _ => self.waiting(Phase::Finished, String::new(), Ask::Finished),
        }
    }
}

fn measure_store() -> (c: Command)
    ensures
        c@ == store_size_command(),
{
    Command::new("du").arg("-sh").arg("/nix/store")
}

fn query_roots() -> (c: Command)
    ensures
        c@ == roots_command(),
{
    Command::new("nix-store").arg("--gc").arg("--print-roots")
}

} // verus!
