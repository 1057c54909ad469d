//! What a session says on a given machine.
//!
//! The whole text of a status report, of a cleanup and of a dry run is told from what the
//! machine answers: the output of each query, how each command ends, what stands at the path
//! of each stray root, and what becomes of each directory.
use vstd::prelude::*;

use crate::clean;
use crate::clean::clean_script;
use crate::cleanup::{
    empty_header_text, empty_preview_text, emptied_text, fate_text, no_roots_text,
    root_preview_text, store_change_text, unreadable_text, RootFate,
};
use crate::command::{
    command_line_of, lookup_command, opt_text, outcome_text, rendered_of, step_header, step_preview,
    CommandView, Outcome, StepView,
};
use crate::conduct::{
    command, holds, lemma_parts_are_simple, lemma_regrouped, lemma_simple_joined,
    lemma_status_parts_are_simple, lookup, simple, truthful, Machine,
};
use crate::numbers::decimal_of;
use crate::report::{
    age_text, generation_count, generations_text, largest_text, section_text, LinkAge,
};
use crate::roots::home_roots;
use crate::runs::{asks, follows, in_order, is_fresh, law_runs_stay_in_order, run};
use crate::script::{place_text, shown_text, GuardView, OpView, PlaceView, ShowView};
use crate::session::{
    boot_dir, boot_entries_text, fate_of, fresh, no_boot_entries_text, no_stray_text,
    root_previews, roots_command, say, stray_note, stray_text, AskView, Entry, LinkState, Phase,
    Reply, SessionView, TurnView,
};
use crate::status;
use crate::status::status_script;
use crate::style::{
    bold_text, cyan_text, dim_text, green_text, red_text, reset_text, yellow_text,
};
use crate::text::indent_of;

verus! {

/// What a session learns: the machine, what each query prints, how old each stray root is,
/// how many boot entries there are if they can be read, the size of the store before and
/// after a cleanup, how each cleanup command ends, what stands at the path of each stray root
/// and whether it could be removed, and, of each directory that is emptied, whether it could
/// be read and how many entries were removed.
pub struct Facts {
    pub machine: Machine,
    pub output: spec_fn(CommandView) -> Option<Seq<char>>,
    pub age: spec_fn(Seq<char>) -> LinkAge,
    pub entries: Option<nat>,
    pub size_before: Option<Seq<char>>,
    pub size_after: Option<Seq<char>>,
    pub outcome: spec_fn(CommandView) -> Outcome,
    pub link: spec_fn(Seq<char>) -> LinkState,
    pub unlinked: spec_fn(Seq<char>) -> Result<(), String>,
    pub opened: spec_fn(PlaceView) -> Result<(), String>,
    pub removed: spec_fn(PlaceView) -> nat,
}

/// How a session speaks: in colour or not, of what would be done or of what is done, and of
/// whose home directory.
pub struct Voice {
    pub color: bool,
    pub dry_run: bool,
    pub home: Seq<char>,
}

/// How a session speaks.
pub open spec fn voice(s: SessionView) -> Voice {
    Voice { color: s.color, dry_run: s.dry_run, home: s.home }
}

/// Whether the output that is handed back is the one that the facts give.
pub open spec fn output_fits(f: Facts, phase: Phase, c: CommandView, out: Option<Seq<char>>) -> bool {
    out == if phase == Phase::Before {
        f.size_before
    } else if phase == Phase::After {
        f.size_after
    } else {
        (f.output)(c)
    }
}

/// Whether a reply to a question is the one that the facts give.
pub open spec fn faithful(f: Facts, s: SessionView, ask: AskView, reply: Reply) -> bool {
    &&& truthful(f.machine, s, ask, reply)
    &&& ask matches AskView::Capture(c) ==> (reply matches Reply::Output(out) && output_fits(
        f,
        s.phase,
        c,
        opt_text(out),
    ))
    &&& ask matches AskView::Age(path) ==> reply == Reply::Age((f.age)(path))
    &&& ask matches AskView::Link(path) ==> reply == Reply::Link((f.link)(path))
    &&& ask matches AskView::Unlink(path) ==> reply == Reply::Tried((f.unlinked)(path))
    &&& ask matches AskView::Run { command, .. } ==> reply == Reply::Ran((f.outcome)(command))
    &&& ask matches AskView::OpenDir(place) ==> (reply matches Reply::Tried(tried) && if place
        == boot_dir() && s.phase == Phase::OpenBoot {
        tried is Ok == f.entries is Some
    } else {
        tried == (f.opened)(place)
    })
    &&& ask is NextEntry && reply == Reply::Entry(Entry::End) ==> if s.phase == Phase::Boot {
        f.entries == Some(s.count)
    } else {
        (f.removed)(s.op()->place) == s.count
    }
}

/// Whether all replies to a session are those that the facts give.
#[verifier::opaque]
pub open spec fn by_facts(f: Facts, s: SessionView, replies: Seq<Reply>) -> bool
    decreases replies.len(),
{
    replies.len() > 0 ==> {
        let before = run(s, replies.drop_last());
        by_facts(f, s, replies.drop_last()) && faithful(
            f,
            before.session,
            before.ask,
            replies.last(),
        )
    }
}

// ---------- what an operation says ----------

/// The stray roots from number `n` on, each with its age.
pub open spec fn ages_from(f: Facts, roots: Seq<Seq<char>>, n: nat) -> Seq<char>
    decreases roots.len() - n,
{
    if n >= roots.len() {
        Seq::empty()
    } else {
        stray_text(roots[n as int], (f.age)(roots[n as int])) + ages_from(f, roots, n + 1)
    }
}

/// What is said of stray roots in a report.
pub open spec fn roots_told(f: Facts, home: Seq<char>, roots: Seq<Seq<char>>) -> Seq<char> {
    if roots.len() == 0 {
        no_stray_text(home)
    } else {
        ages_from(f, roots, 0) + stray_note()
    }
}

/// What is said of the output of a command.
pub open spec fn output_told(f: Facts, home: Seq<char>, c: CommandView, show: ShowView) -> Seq<
    char,
> {
    if show is Roots {
        roots_told(f, home, home_roots((f.output)(c), home))
    } else {
        shown_text(show, (f.output)(c))
    }
}

/// What is said of boot entries.
pub open spec fn boot_told(f: Facts) -> Seq<char> {
    match f.entries {
        Some(n) => boot_entries_text(n),
        None => no_boot_entries_text(),
    }
}

/// What is said of a cleanup command.
pub open spec fn step_told(f: Facts, v: Voice, step: StepView) -> Seq<char> {
    if v.dry_run {
        step_preview(v.color, step)
    } else {
        step_header(v.color, step) + outcome_text(v.color, (f.outcome)(command_line_of(step)))
    }
}

/// What becomes of a stray root.
pub open spec fn root_fate(f: Facts, root: Seq<char>) -> RootFate {
    match (f.link)(root) {
        LinkState::Symlink => fate_of((f.unlinked)(root)),
        LinkState::Other => RootFate::NotSymlink,
        LinkState::Gone => RootFate::Gone,
    }
}

/// What becomes of the stray roots from number `n` on.
pub open spec fn fates_from(f: Facts, color: bool, roots: Seq<Seq<char>>, n: nat) -> Seq<char>
    decreases roots.len() - n,
{
    if n >= roots.len() {
        Seq::empty()
    } else {
        fate_text(color, roots[n as int], root_fate(f, roots[n as int])) + fates_from(
            f,
            color,
            roots,
            n + 1,
        )
    }
}

/// What is said of stray roots in a cleanup.
pub open spec fn sweep_told(f: Facts, v: Voice, roots: Seq<Seq<char>>) -> Seq<char> {
    if roots.len() == 0 {
        no_roots_text(v.home)
    } else if v.dry_run {
        root_previews(v.color, roots)
    } else {
        fates_from(f, v.color, roots, 0)
    }
}

/// What is said of a directory once it was tried to open it.
pub open spec fn opened_told(f: Facts, v: Voice, place: PlaceView) -> Seq<char> {
    match (f.opened)(place) {
        Ok(_) => emptied_text(v.color, (f.removed)(place)),
        Err(error) => unreadable_text(v.color, place_text(v.home, place), error@),
    }
}

/// What is said of a directory that is to be emptied.
pub open spec fn empty_told(f: Facts, v: Voice, label: Seq<char>, place: PlaceView) -> Seq<char> {
    if !(f.machine.present)(place) {
        Seq::empty()
    } else if v.dry_run {
        empty_preview_text(v.color, label, place_text(v.home, place))
    } else {
        empty_header_text(v.color, label, place_text(v.home, place)) + opened_told(f, v, place)
    }
}

/// What is said of the size of the store after a cleanup.
pub open spec fn change_told(f: Facts, v: Voice, noted: Option<Seq<char>>) -> Seq<char> {
    match (noted, f.size_after) {
        (Some(before), Some(after)) => store_change_text(v.color, before, after),
        _ => Seq::empty(),
    }
}

/// What a script says from operation `pc` on, where `noted` is the size of the store that was
/// noted, if one was.
#[verifier::opaque]
pub open spec fn told(
    f: Facts,
    v: Voice,
    noted: Option<Seq<char>>,
    ops: Seq<OpView>,
    pc: nat,
) -> Seq<char>
    decreases
            if pc < ops.len() {
                ops.len() - pc
            } else {
                0
            },
{
    if pc >= ops.len() {
        Seq::empty()
    } else {
        let rest = told(f, v, noted, ops, pc + 1);
        match ops[pc as int] {
            OpView::Say(text) => text + rest,
            OpView::When { guard, span, otherwise } => if holds(f.machine, guard) {
                rest
            } else {
                otherwise + told(f, v, noted, ops, pc + 1 + span as nat)
            },
            OpView::Report { command, show } => output_told(f, v.home, command, show) + rest,
            OpView::BootEntries => boot_told(f) + rest,
            OpView::Step(step) => step_told(f, v, step) + rest,
            OpView::SweepRoots => sweep_told(
                f,
                v,
                home_roots((f.output)(roots_command()), v.home),
            ) + rest,
            OpView::Empty { label, place } => empty_told(f, v, label, place) + rest,
            OpView::MeasureBefore => told(f, v, f.size_before, ops, pc + 1),
            OpView::MeasureAfter => change_told(f, v, noted) + rest,
        }
    }
}

/// What a session has yet to say.
pub open spec fn yet_to_tell(f: Facts, t: SessionView) -> Seq<char> {
    let v = voice(t);
    let rest = told(f, v, t.before, t.ops, t.pc + 1);
    match t.phase {
        Phase::Guard => if holds(f.machine, t.op()->guard) {
            rest
        } else {
            t.op()->otherwise + told(f, v, t.before, t.ops, t.pc + 1 + t.op()->span as nat)
        },
        Phase::Report => output_told(f, t.home, t.op()->command, t.op()->show) + rest,
        Phase::Age => ages_from(f, t.roots, t.next) + stray_note() + rest,
        Phase::OpenBoot | Phase::Boot => boot_told(f) + rest,
        Phase::Run => outcome_text(
            t.color,
            (f.outcome)(command_line_of(t.op()->Step_0)),
        ) + rest,
        Phase::Roots => sweep_told(f, v, home_roots((f.output)(roots_command()), t.home)) + rest,
        Phase::Link => fates_from(f, t.color, t.roots, t.next) + rest,
        Phase::Unlink => fate_text(
            t.color,
            t.roots[t.next as int],
            fate_of((f.unlinked)(t.roots[t.next as int])),
        ) + fates_from(f, t.color, t.roots, t.next + 1) + rest,
        Phase::Check => empty_told(f, v, t.op()->label, t.op()->place) + rest,
        Phase::Open => opened_told(f, v, t.op()->place) + rest,
        Phase::Walk | Phase::Remove => emptied_text(t.color, (f.removed)(t.op()->place)) + rest,
        Phase::Before => told(f, v, f.size_before, t.ops, t.pc + 1),
        Phase::After => change_told(f, v, t.before) + rest,
        _ => Seq::empty(),
    }
}

// ---------- what a session says ----------

/// An operation that is begun with a question, and without words.
proof fn lemma_waiting_tells(f: Facts, s: SessionView, pc: nat)
    requires
        pc < s.ops.len(),
        !(s.ops[pc as int] is Say),
        !(s.ops[pc as int] is Step),
        s.ops[pc as int] is MeasureAfter ==> s.before is Some,
    ensures
        s.enter(pc).text + yet_to_tell(f, s.enter(pc).session) == told(
            f,
            voice(s),
            s.before,
            s.ops,
            pc,
        ),
{
    reveal_with_fuel(told, 1);
    let here = s.enter(pc);
    lemma_silent(yet_to_tell(f, here.session));
    assert(here.text == Seq::<char>::empty());
    assert(yet_to_tell(f, here.session) == told(f, voice(s), s.before, s.ops, pc));
}

/// A cleanup command.
proof fn lemma_running_tells(f: Facts, s: SessionView, pc: nat)
    requires
        pc < s.ops.len(),
        s.ops[pc as int] is Step,
        !s.dry_run,
    ensures
        s.enter(pc).text + yet_to_tell(f, s.enter(pc).session) == told(
            f,
            voice(s),
            s.before,
            s.ops,
            pc,
        ),
{
    reveal_with_fuel(told, 1);
    let step = s.ops[pc as int]->Step_0;
    let text = step_header(s.color, step);
    let end = outcome_text(s.color, (f.outcome)(command_line_of(step)));
    let last = told(f, voice(s), s.before, s.ops, pc + 1);
    assert(text + Seq::<char>::empty() == text);
    assert(text + (end + last) == (text + end) + last);
}

proof fn lemma_enter_tells(f: Facts, s: SessionView, pc: nat)
    requires
        pc <= s.ops.len(),
    ensures
        s.enter(pc).text + yet_to_tell(f, s.enter(pc).session) == told(
            f,
            voice(s),
            s.before,
            s.ops,
            pc,
        ),
    decreases s.ops.len() - pc,
{
    if pc < s.ops.len() {
        let op = s.ops[pc as int];
        if op is Say || op is Step && s.dry_run || op is MeasureAfter && s.before is None {
            lemma_enter_tells(f, s, pc + 1);
            lemma_passing_tells(f, s, pc);
        } else if op is Step {
            lemma_running_tells(f, s, pc);
        } else {
            lemma_waiting_tells(f, s, pc);
        }
    } else {
        reveal_with_fuel(told, 1);
    }
}

/// An operation that a session passes over without a question.
proof fn lemma_passing_tells(f: Facts, s: SessionView, pc: nat)
    requires
        pc < s.ops.len(),
        s.ops[pc as int] is Say || s.ops[pc as int] is Step && s.dry_run || s.ops[pc as int] is
            MeasureAfter && s.before is None,
        s.enter(pc + 1).text + yet_to_tell(f, s.enter(pc + 1).session) == told(
            f,
            voice(s),
            s.before,
            s.ops,
            pc + 1,
        ),
    ensures
        s.enter(pc).text + yet_to_tell(f, s.enter(pc).session) == told(
            f,
            voice(s),
            s.before,
            s.ops,
            pc,
        ),
{
    reveal_with_fuel(told, 1);
    let rest = s.enter(pc + 1);
    let more = yet_to_tell(f, rest.session);
    match s.ops[pc as int] {
        OpView::Say(text) => {
            assert((text + rest.text) + more == text + (rest.text + more));
        },
        OpView::Step(step) => {
            let text = step_preview(s.color, step);
            assert((text + rest.text) + more == text + (rest.text + more));
        },
        _ => {
            lemma_silent(told(f, voice(s), s.before, s.ops, pc + 1));
        },
    }
}

/// A turn that says `words` and begins the operation `pc`.
proof fn lemma_said_and_entered(f: Facts, words: Seq<char>, from: SessionView, pc: nat)
    requires
        pc <= from.ops.len(),
    ensures
        say(words, from.enter(pc)).text + yet_to_tell(f, say(words, from.enter(pc)).session)
            == words + told(f, voice(from), from.before, from.ops, pc),
        from.enter(pc).text + yet_to_tell(f, from.enter(pc).session) == told(
            f,
            voice(from),
            from.before,
            from.ops,
            pc,
        ),
{
    lemma_enter_tells(f, from, pc);
    let t = from.enter(pc);
    let more = yet_to_tell(f, t.session);
    assert((words + t.text) + more == words + (t.text + more));
}

/// A turn that says nothing.
proof fn lemma_silent(more: Seq<char>)
    ensures
        Seq::<char>::empty() + more == more,
{
}

proof fn lemma_guard_tells(f: Facts, s: SessionView, answer: bool)
    requires
        s.wf(),
        s.phase == Phase::Guard,
        answer == holds(f.machine, s.op()->guard),
    ensures
        s.guarded(answer).text + yet_to_tell(f, s.guarded(answer).session) == yet_to_tell(f, s),
{
    assert(s.ops[s.pc as int] is When);
    lemma_said_and_entered(f, Seq::empty(), s, s.pc + 1);
    lemma_said_and_entered(f, s.op()->otherwise, s, s.pc + 1 + s.op()->span as nat);
}

proof fn lemma_report_tells(f: Facts, s: SessionView, out: Option<Seq<char>>)
    requires
        s.wf(),
        s.phase == Phase::Report,
        out == (f.output)(s.op()->command),
    ensures
        s.reported(s.op()->show, out).text + yet_to_tell(
            f,
            s.reported(s.op()->show, out).session,
        ) == yet_to_tell(f, s),
{
    let show = s.op()->show;
    let roots = home_roots(out, s.home);
    let listed = s.with_roots(roots);
    if show is Roots {
        if roots.len() == 0 {
            lemma_said_and_entered(f, no_stray_text(s.home), listed, s.pc + 1);
        } else {
            let turn = s.reported(show, out);
            lemma_silent(yet_to_tell(f, turn.session));
        }
    } else {
        lemma_said_and_entered(f, shown_text(show, out), s, s.pc + 1);
    }
}

proof fn lemma_age_tells(f: Facts, s: SessionView)
    requires
        s.wf(),
        s.phase == Phase::Age,
    ensures
        s.aged((f.age)(s.roots[s.next as int])).text + yet_to_tell(
            f,
            s.aged((f.age)(s.roots[s.next as int])).session,
        ) == yet_to_tell(f, s),
{
    let root = s.roots[s.next as int];
    let said = stray_text(root, (f.age)(root));
    let after = SessionView { next: s.next + 1, ..s };
    let rest = told(f, voice(s), s.before, s.ops, s.pc + 1);
    let later = ages_from(f, s.roots, s.next + 1);
    assert(ages_from(f, s.roots, s.next) == said + later);
    assert((said + later) + stray_note() + rest == said + (later + stray_note() + rest));
    if s.next + 1 < s.roots.len() {
        assert(said + Seq::<char>::empty() == said);
    } else {
        assert(later == Seq::<char>::empty());
        assert(later + stray_note() == stray_note());
        lemma_said_and_entered(f, said + stray_note(), after, s.pc + 1);
        let turn = after.proceed();
        assert(said + (stray_note() + turn.text) == (said + stray_note()) + turn.text);
        assert((said + stray_note()) + rest == said + (stray_note() + rest));
    }
}

proof fn lemma_boot_tells(f: Facts, s: SessionView, reply: Reply)
    requires
        s.wf(),
        s.accepts(reply),
        s.phase == Phase::OpenBoot || s.phase == Phase::Boot,
        s.phase == Phase::OpenBoot ==> (reply matches Reply::Tried(tried) && tried is Ok
            == f.entries is Some),
        s.phase == Phase::Boot && reply == Reply::Entry(Entry::End) ==> f.entries == Some(s.count),
    ensures
        s.resumed(reply).text + yet_to_tell(f, s.resumed(reply).session) == yet_to_tell(f, s),
{
    lemma_said_and_entered(f, no_boot_entries_text(), s, s.pc + 1);
    lemma_said_and_entered(f, boot_entries_text(s.count), s, s.pc + 1);
    lemma_silent(yet_to_tell(f, s));
    match reply {
        Reply::Tried(tried) => {
            assert(s.resumed(reply) == s.boot_opened(tried));
        },
        Reply::Entry(entry) => {
            assert(s.resumed(reply) == s.boot_entry(entry));
        },
        _ => {},
    }
}

proof fn lemma_sweep_tells(f: Facts, s: SessionView)
    requires
        s.wf(),
        s.phase == Phase::Roots,
    ensures
        ({
            let turn = s.swept(home_roots((f.output)(roots_command()), s.home));
            turn.text + yet_to_tell(f, turn.session) == yet_to_tell(f, s)
        }),
{
    let roots = home_roots((f.output)(roots_command()), s.home);
    let listed = s.with_roots(roots);
    if roots.len() == 0 {
        lemma_said_and_entered(f, no_roots_text(s.home), listed, s.pc + 1);
    } else if s.dry_run {
        lemma_said_and_entered(f, root_previews(s.color, roots), listed, s.pc + 1);
    } else {
        lemma_silent(yet_to_tell(f, s.swept(roots).session));
    }
}

/// The turn that says what became of a root, and goes on to the next one.
proof fn lemma_root_done_tells(f: Facts, s: SessionView, fate: RootFate)
    requires
        s.wf(),
        s.phase == Phase::Link || s.phase == Phase::Unlink,
    ensures
        s.root_done(fate).text + yet_to_tell(f, s.root_done(fate).session) == fate_text(
            s.color,
            s.roots[s.next as int],
            fate,
        ) + fates_from(f, s.color, s.roots, s.next + 1) + told(
            f,
            voice(s),
            s.before,
            s.ops,
            s.pc + 1,
        ),
{
    let said = fate_text(s.color, s.roots[s.next as int], fate);
    let later = fates_from(f, s.color, s.roots, s.next + 1);
    let rest = told(f, voice(s), s.before, s.ops, s.pc + 1);
    let after = SessionView { next: s.next + 1, ..s };
    assert(said + later + rest == said + (later + rest));
    if s.next + 1 < s.roots.len() {
        assert(said + Seq::<char>::empty() == said);
    } else {
        assert(later == Seq::<char>::empty());
        assert(said + later == said);
        lemma_said_and_entered(f, said, after, s.pc + 1);
    }
}

proof fn lemma_link_tells(f: Facts, s: SessionView)
    requires
        s.wf(),
        s.phase == Phase::Link,
    ensures
        ({
            let turn = s.linked((f.link)(s.roots[s.next as int]));
            turn.text + yet_to_tell(f, turn.session) == yet_to_tell(f, s)
        }),
{
    let root = s.roots[s.next as int];
    match (f.link)(root) {
        LinkState::Symlink => {
            lemma_silent(yet_to_tell(f, s.linked(LinkState::Symlink).session));
        },
        LinkState::Other => {
            lemma_root_done_tells(f, s, RootFate::NotSymlink);
        },
        LinkState::Gone => {
            lemma_root_done_tells(f, s, RootFate::Gone);
        },
    }
}

proof fn lemma_emptying_tells(f: Facts, s: SessionView, reply: Reply)
    requires
        s.wf(),
        s.accepts(reply),
        s.phase == Phase::Check || s.phase == Phase::Open || s.phase == Phase::Walk || s.phase
            == Phase::Remove,
        s.phase == Phase::Check ==> reply == Reply::Answer((f.machine.present)(s.op()->place)),
        s.phase == Phase::Open ==> reply == Reply::Tried((f.opened)(s.op()->place)),
        s.phase == Phase::Walk && reply == Reply::Entry(Entry::End) ==> (f.removed)(s.op()->place)
            == s.count,
    ensures
        s.resumed(reply).text + yet_to_tell(f, s.resumed(reply).session) == yet_to_tell(f, s),
{
    let label = s.op()->label;
    let place = s.op()->place;
    let dir = place_text(s.home, place);
    let rest = told(f, voice(s), s.before, s.ops, s.pc + 1);
    lemma_silent(rest);
    lemma_silent(yet_to_tell(f, s.resumed(reply).session));
    match (s.phase, reply) {
        (Phase::Check, Reply::Answer(exists)) => {
            assert(s.resumed(reply) == s.checked(exists));
            if !exists {
                lemma_said_and_entered(f, Seq::empty(), s, s.pc + 1);
            } else if s.dry_run {
                lemma_said_and_entered(f, empty_preview_text(s.color, label, dir), s, s.pc + 1);
            } else {
                let header = empty_header_text(s.color, label, dir);
                let more = opened_told(f, voice(s), place);
                assert(header + Seq::<char>::empty() == header);
                assert(header + (more + rest) == (header + more) + rest);
            }
        },
        (Phase::Open, Reply::Tried(tried)) => {
            assert(s.resumed(reply) == s.opened(tried));
            if let Err(error) = tried {
                lemma_said_and_entered(f, unreadable_text(s.color, dir, error@), s, s.pc + 1);
            }
        },
        (Phase::Walk, Reply::Entry(entry)) => {
            assert(s.resumed(reply) == s.walked(entry));
            lemma_said_and_entered(f, emptied_text(s.color, s.count), s, s.pc + 1);
        },
        (Phase::Remove, Reply::Answer(done)) => {
            assert(s.resumed(reply) == s.removed(done));
        },
        _ => {},
    }
}

proof fn lemma_measuring_tells(f: Facts, s: SessionView, out: Option<Seq<char>>)
    requires
        s.wf(),
        s.phase == Phase::Before || s.phase == Phase::After,
        s.phase == Phase::Before ==> out == f.size_before,
        s.phase == Phase::After ==> out == f.size_after,
    ensures
        s.phase == Phase::Before ==> s.measured_before(out).text + yet_to_tell(
            f,
            s.measured_before(out).session,
        ) == yet_to_tell(f, s),
        s.phase == Phase::After ==> s.measured_after(out).text + yet_to_tell(
            f,
            s.measured_after(out).session,
        ) == yet_to_tell(f, s),
{
    if s.phase == Phase::Before {
        let noted = SessionView { before: out, ..s };
        lemma_said_and_entered(f, Seq::empty(), noted, s.pc + 1);
    } else {
        lemma_silent(told(f, voice(s), s.before, s.ops, s.pc + 1));
        lemma_said_and_entered(f, change_told(f, voice(s), s.before), s, s.pc + 1);
    }
}

#[verifier::rlimit(40)]
proof fn lemma_reply_tells(f: Facts, s: SessionView, ask: AskView, reply: Reply)
    requires
        s.wf(),
        asks(s, ask),
        s.accepts(reply),
        faithful(f, s, ask, reply),
    ensures
        s.resumed(reply).text + yet_to_tell(f, s.resumed(reply).session) == yet_to_tell(f, s),
{
    match (s.phase, reply) {
        (Phase::Guard, Reply::Answer(answer)) => {
            lemma_guard_tells(f, s, answer);
        },
        (Phase::Report, Reply::Output(out)) => {
            lemma_report_tells(f, s, opt_text(out));
        },
        (Phase::Age, Reply::Age(_)) => {
            lemma_age_tells(f, s);
        },
        (Phase::OpenBoot, Reply::Tried(_)) => {
            lemma_boot_tells(f, s, reply);
        },
        (Phase::Boot, Reply::Entry(_)) => {
            lemma_boot_tells(f, s, reply);
        },
        (Phase::Run, Reply::Ran(outcome)) => {
            lemma_said_and_entered(f, outcome_text(s.color, outcome), s, s.pc + 1);
        },
        (Phase::Roots, Reply::Output(_)) => {
            lemma_sweep_tells(f, s);
        },
        (Phase::Link, Reply::Link(_)) => {
            lemma_link_tells(f, s);
        },
        (Phase::Unlink, Reply::Tried(tried)) => {
            lemma_root_done_tells(f, s, fate_of(tried));
        },
        (Phase::Before, Reply::Output(out)) => {
            lemma_measuring_tells(f, s, opt_text(out));
        },
        (Phase::After, Reply::Output(out)) => {
            lemma_measuring_tells(f, s, opt_text(out));
        },
        _ => {
            lemma_emptying_tells(f, s, reply);
        },
    }
}

/// What a session has said so far, and what it has yet to say, is what its script says.
#[verifier::rlimit(40)]
pub proof fn law_text_of_a_run(f: Facts, s: SessionView, replies: Seq<Reply>)
    requires
        is_fresh(s),
        follows(s, replies),
        by_facts(f, s, replies),
    ensures
        run(s, replies).text + yet_to_tell(f, run(s, replies).session) == told(
            f,
            voice(s),
            None,
            s.ops,
            0,
        ),
    decreases replies.len(),
{
    reveal_with_fuel(run, 1);
    reveal_with_fuel(follows, 1);
    reveal_with_fuel(by_facts, 1);
    if replies.len() == 0 {
        lemma_enter_tells(f, s, 0);
    } else {
        let past = replies.drop_last();
        law_text_of_a_run(f, s, past);
        law_runs_stay_in_order(s, past);
        lemma_run_tells(f, s, run(s, past), replies.last());
    }
}

proof fn lemma_run_tells(f: Facts, s: SessionView, before: TurnView, reply: Reply)
    requires
        in_order(s, before),
        before.session.accepts(reply),
        faithful(f, before.session, before.ask, reply),
        before.text + yet_to_tell(f, before.session) == told(f, voice(s), None, s.ops, 0),
    ensures
        (before.text + before.session.resumed(reply).text) + yet_to_tell(
            f,
            before.session.resumed(reply).session,
        ) == told(f, voice(s), None, s.ops, 0),
{
    let turn = before.session.resumed(reply);
    lemma_reply_tells(f, before.session, before.ask, reply);
    let more = yet_to_tell(f, turn.session);
    assert((before.text + turn.text) + more == before.text + (turn.text + more));
}

// ---------- scripts one after the other ----------

proof fn lemma_told_behind(
    f: Facts,
    v: Voice,
    noted: Option<Seq<char>>,
    a: Seq<OpView>,
    b: Seq<OpView>,
    pc: nat,
)
    ensures
        told(f, v, noted, a + b, a.len() + pc) == told(f, v, noted, b, pc),
    decreases
            if pc < b.len() {
                b.len() - pc
            } else {
                0
            },
{
    reveal_with_fuel(told, 1);
    if pc < b.len() {
        assert((a + b)[(a.len() + pc) as int] == b[pc as int]);
        lemma_told_behind(f, v, noted, a, b, pc + 1);
        lemma_told_behind(f, v, f.size_before, a, b, pc + 1);
        if let OpView::When { span, .. } = b[pc as int] {
            lemma_told_behind(f, v, noted, a, b, pc + 1 + span as nat);
        }
    }
}

/// Two scripts one after the other say what the one says and then what the other says.
proof fn lemma_told_joined(
    f: Facts,
    v: Voice,
    noted: Option<Seq<char>>,
    a: Seq<OpView>,
    b: Seq<OpView>,
    pc: nat,
)
    requires
        simple(a),
        pc <= a.len(),
    ensures
        told(f, v, noted, a + b, pc) == told(f, v, noted, a, pc) + told(f, v, noted, b, 0),
    decreases a.len() - pc,
{
    reveal_with_fuel(told, 1);
    let end = told(f, v, noted, b, 0);
    if pc == a.len() {
        lemma_told_behind(f, v, noted, a, b, 0);
        lemma_silent(end);
    } else {
        assert((a + b)[pc as int] == a[pc as int]);
        lemma_told_joined(f, v, noted, a, b, pc + 1);
        let rest = told(f, v, noted, a, pc + 1);
        match a[pc as int] {
            OpView::Say(text) => {
                lemma_regroup(text, rest, end);
            },
            OpView::When { span, otherwise, .. } => {
                lemma_told_joined(f, v, noted, a, b, pc + 1 + span as nat);
                lemma_regroup(otherwise, told(f, v, noted, a, pc + 1 + span as nat), end);
            },
            OpView::Report { command, show } => {
                lemma_regroup(output_told(f, v.home, command, show), rest, end);
            },
            OpView::BootEntries => {
                lemma_regroup(boot_told(f), rest, end);
            },
            OpView::Step(step) => {
                lemma_regroup(step_told(f, v, step), rest, end);
            },
            OpView::SweepRoots => {
                lemma_regroup(
                    sweep_told(f, v, home_roots((f.output)(roots_command()), v.home)),
                    rest,
                    end,
                );
            },
            OpView::Empty { label, place } => {
                lemma_regroup(empty_told(f, v, label, place), rest, end);
            },
            OpView::MeasureAfter => {
                lemma_regroup(change_told(f, v, noted), rest, end);
            },
            OpView::MeasureBefore => {
                assert(!(a[pc as int] is MeasureBefore));
            },
        }
    }
}

proof fn lemma_regroup(a: Seq<char>, b: Seq<char>, c: Seq<char>)
    ensures
        a + (b + c) == (a + b) + c,
{
}

proof fn lemma_told_at_end(
    f: Facts,
    v: Voice,
    noted: Option<Seq<char>>,
    ops: Seq<OpView>,
    pc: nat,
)
    requires
        pc >= ops.len(),
    ensures
        told(f, v, noted, ops, pc) == Seq::<char>::empty(),
{
    reveal_with_fuel(told, 1);
}

proof fn lemma_told_said(
    f: Facts,
    v: Voice,
    noted: Option<Seq<char>>,
    ops: Seq<OpView>,
    pc: nat,
    text: Seq<char>,
)
    requires
        pc < ops.len(),
        ops[pc as int] == OpView::Say(text),
    ensures
        told(f, v, noted, ops, pc) == text + told(f, v, noted, ops, pc + 1),
{
    reveal_with_fuel(told, 1);
}

proof fn lemma_told_output(
    f: Facts,
    v: Voice,
    noted: Option<Seq<char>>,
    ops: Seq<OpView>,
    pc: nat,
    words: Seq<Seq<char>>,
    text: Seq<char>,
)
    requires
        pc < ops.len(),
        ops[pc as int] matches OpView::Report { command: c, show } && c.program == words[0]
            && c.args =~= words.skip(1) && output_told(f, v.home, command(words), show) == text,
    ensures
        told(f, v, noted, ops, pc) == text + told(f, v, noted, ops, pc + 1),
{
    reveal_with_fuel(told, 1);
}

proof fn lemma_told_boot(f: Facts, v: Voice, noted: Option<Seq<char>>, ops: Seq<OpView>, pc: nat)
    requires
        pc < ops.len(),
        ops[pc as int] is BootEntries,
    ensures
        told(f, v, noted, ops, pc) == boot_told(f) + told(f, v, noted, ops, pc + 1),
{
    reveal_with_fuel(told, 1);
}

proof fn lemma_told_guarded(
    f: Facts,
    v: Voice,
    noted: Option<Seq<char>>,
    ops: Seq<OpView>,
    pc: nat,
    guard: GuardView,
    span: usize,
    text: Seq<char>,
    other: Seq<char>,
)
    requires
        pc < ops.len(),
        ops[pc as int] == (OpView::When { guard, span, otherwise: other }),
        told(f, v, noted, ops, pc + 1) == text + told(f, v, noted, ops, pc + 1 + span as nat),
    ensures
        told(f, v, noted, ops, pc) == (if holds(f.machine, guard) {
            text
        } else {
            other
        }) + told(f, v, noted, ops, pc + 1 + span as nat),
{
    reveal_with_fuel(told, 1);
}

proof fn lemma_found(f: Facts, program: Seq<char>)
    ensures
        holds(f.machine, GuardView::Installed(program)) == found(f, program),
{
    assert(lookup_command(program).args == lookup(program).args);
}

// ---------- the words ----------

/// What a query prints.
pub open spec fn printed_by(f: Facts, words: Seq<Seq<char>>) -> Option<Seq<char>> {
    (f.output)(command(words))
}

/// Whether a program is found.
pub open spec fn found(f: Facts, program: Seq<char>) -> bool {
    (f.machine.succeeds)(lookup(program))
}

/// An output on a line, between two texts; nothing if there is none.
pub open spec fn on_a_line(before: Seq<char>, out: Option<Seq<char>>, after: Seq<char>) -> Seq<
    char,
> {
    match out {
        Some(o) => before + o + after + "\n"@,
        None => Seq::empty(),
    }
}

/// An output with every line set in, after a text; nothing if there is none.
pub open spec fn set_in(before: Seq<char>, out: Option<Seq<char>>) -> Seq<char> {
    match out {
        Some(o) => before + indent_of(o) + "\n"@,
        None => Seq::empty(),
    }
}

/// The number of lines of an output that are not blank, between two texts; nothing if there
/// is no output.
pub open spec fn counted(before: Seq<char>, out: Option<Seq<char>>, after: Seq<char>) -> Seq<char> {
    match out {
        Some(o) => before + decimal_of(generation_count(o)) + after + "\n"@,
        None => Seq::empty(),
    }
}

/// The stray roots, each on a line with its age, and what becomes of them; or that there
/// are none.
pub open spec fn stray_told(f: Facts, home: Seq<char>, roots: Seq<Seq<char>>) -> Seq<char> {
    if roots.len() == 0 {
        "  none found under "@ + home + "\n"@
    } else {
        Seq::new(
            roots.len(),
            |i: int| "  "@ + roots[i] + " ("@ + age_text((f.age)(roots[i])) + ")\n"@,
        ).flatten()
            + "  -> `nix-reaper clean` removes every one of these, regardless of age\n"@
    }
}

/// A cleanup command: what it is and why it is run, and, unless this is a dry run, how it
/// ended.
pub open spec fn run_told(f: Facts, v: Voice, words: Seq<Seq<char>>, why: Seq<char>) -> Seq<char> {
    let shown = rendered_of(command(words));
    if v.dry_run {
        yellow_text(v.color) + "[dry-run]"@ + reset_text(v.color) + " "@ + shown + "\n          "@
            + dim_text(v.color) + "("@ + why + ")"@ + reset_text(v.color) + "\n"@
    } else {
        ("\n"@ + cyan_text(v.color) + "->"@ + reset_text(v.color) + " "@ + bold_text(v.color) + shown
            + reset_text(v.color) + "  "@ + dim_text(v.color) + "("@ + why + ")"@ + reset_text(
            v.color,
        ) + "\n"@) + outcome_text(v.color, (f.outcome)(command(words)))
    }
}

/// A directory below the home directory: nothing if it does not exist, in a dry run that it
/// would be emptied, and else that it is being emptied, and how many entries were removed or
/// why it could not be read.
pub open spec fn dir_told(f: Facts, v: Voice, label: Seq<char>, path: Seq<char>) -> Seq<char> {
    let place = PlaceView::Home(path);
    let dir = place_text(v.home, place);
    if !(f.machine.present)(place) {
        Seq::empty()
    } else if v.dry_run {
        empty_preview_text(v.color, label, dir)
    } else {
        empty_header_text(v.color, label, dir) + match (f.opened)(place) {
            Ok(_) => emptied_text(v.color, (f.removed)(place)),
            Err(error) => unreadable_text(v.color, dir, error@),
        }
    }
}

/// The stray roots: that there are none, in a dry run each with what would be done, and else
/// each with what became of it.
pub open spec fn swept_told(f: Facts, v: Voice, roots: Seq<Seq<char>>) -> Seq<char> {
    if roots.len() == 0 {
        no_roots_text(v.home)
    } else if v.dry_run {
        Seq::new(roots.len(), |i: int| root_preview_text(v.color, roots[i])).flatten()
    } else {
        Seq::new(
            roots.len(),
            |i: int|
                fate_text(
                    v.color,
                    roots[i],
                    match ((f.link)(roots[i]), (f.unlinked)(roots[i])) {
                        (LinkState::Symlink, Ok(_)) => RootFate::Removed,
                        (LinkState::Symlink, Err(error)) => RootFate::Refused(error),
                        (LinkState::Other, _) => RootFate::NotSymlink,
                        (LinkState::Gone, _) => RootFate::Gone,
                    },
                ),
        ).flatten()
    }
}

proof fn lemma_ages(f: Facts, roots: Seq<Seq<char>>, n: nat)
    requires
        n <= roots.len(),
    ensures
        ages_from(f, roots, n) == Seq::new(
            (roots.len() - n) as nat,
            |i: int| "  "@ + roots[n + i] + " ("@ + age_text((f.age)(roots[n + i])) + ")\n"@,
        ).flatten(),
    decreases roots.len() - n,
{
    let all = Seq::new(
        (roots.len() - n) as nat,
        |i: int| "  "@ + roots[n + i] + " ("@ + age_text((f.age)(roots[n + i])) + ")\n"@,
    );
    if n < roots.len() {
        lemma_ages(f, roots, n + 1);
        assert(all.drop_first() == Seq::new(
            (roots.len() - (n + 1)) as nat,
            |i: int|
                "  "@ + roots[n + 1 + i] + " ("@ + age_text((f.age)(roots[n + 1 + i])) + ")\n"@,
        ));
        assert(all.first() == stray_text(roots[n as int], (f.age)(roots[n as int])));
    }
}

proof fn lemma_stray_told(f: Facts, home: Seq<char>, roots: Seq<Seq<char>>)
    ensures
        roots_told(f, home, roots) == stray_told(f, home, roots),
{
    lemma_ages(f, roots, 0);
    assert(Seq::new(
        (roots.len() - 0) as nat,
        |i: int| "  "@ + roots[0 + i] + " ("@ + age_text((f.age)(roots[0 + i])) + ")\n"@,
    ) == Seq::new(
        roots.len(),
        |i: int| "  "@ + roots[i] + " ("@ + age_text((f.age)(roots[i])) + ")\n"@,
    ));
}

proof fn lemma_fates(f: Facts, color: bool, roots: Seq<Seq<char>>, n: nat)
    requires
        n <= roots.len(),
    ensures
        fates_from(f, color, roots, n) == Seq::new(
            (roots.len() - n) as nat,
            |i: int| fate_text(color, roots[n + i], root_fate(f, roots[n + i])),
        ).flatten(),
    decreases roots.len() - n,
{
    let all = Seq::new(
        (roots.len() - n) as nat,
        |i: int| fate_text(color, roots[n + i], root_fate(f, roots[n + i])),
    );
    if n < roots.len() {
        lemma_fates(f, color, roots, n + 1);
        assert(all.drop_first() == Seq::new(
            (roots.len() - (n + 1)) as nat,
            |i: int| fate_text(color, roots[n + 1 + i], root_fate(f, roots[n + 1 + i])),
        ));
        assert(all.first() == fate_text(color, roots[n as int], root_fate(f, roots[n as int])));
    }
}

proof fn lemma_previews(color: bool, roots: Seq<Seq<char>>)
    ensures
        root_previews(color, roots) == Seq::new(
            roots.len(),
            |i: int| root_preview_text(color, roots[i]),
        ).flatten(),
    decreases roots.len(),
{
    let all = Seq::new(roots.len(), |i: int| root_preview_text(color, roots[i]));
    if roots.len() > 0 {
        let rest = roots.drop_last();
        let some = Seq::new(rest.len(), |i: int| root_preview_text(color, rest[i]));
        lemma_previews(color, rest);
        some.lemma_flatten_push(root_preview_text(color, roots.last()));
        assert(all == some.push(root_preview_text(color, roots.last())));
    }
}

proof fn lemma_swept_told(f: Facts, v: Voice, roots: Seq<Seq<char>>)
    ensures
        sweep_told(f, v, roots) == swept_told(f, v, roots),
{
    lemma_previews(v.color, roots);
    lemma_fates(f, v.color, roots, 0);
    let each = |i: int|
        fate_text(
            v.color,
            roots[i],
            match ((f.link)(roots[i]), (f.unlinked)(roots[i])) {
                (LinkState::Symlink, Ok(_)) => RootFate::Removed,
                (LinkState::Symlink, Err(error)) => RootFate::Refused(error),
                (LinkState::Other, _) => RootFate::NotSymlink,
                (LinkState::Gone, _) => RootFate::Gone,
            },
        );
    assert(Seq::new(
        (roots.len() - 0) as nat,
        |i: int| fate_text(v.color, roots[0 + i], root_fate(f, roots[0 + i])),
    ) == Seq::new(roots.len(), each));
}

proof fn lemma_told_run(
    f: Facts,
    v: Voice,
    noted: Option<Seq<char>>,
    ops: Seq<OpView>,
    pc: nat,
    words: Seq<Seq<char>>,
    why: Seq<char>,
)
    requires
        pc < ops.len(),
        ops[pc as int] matches OpView::Step(step) && step.why == why && command_line_of(
            step,
        ).program == words[0] && command_line_of(step).args =~= words.skip(1),
    ensures
        told(f, v, noted, ops, pc) == run_told(f, v, words, why) + told(f, v, noted, ops, pc + 1),
{
    reveal_with_fuel(told, 1);
    assert(command_line_of(ops[pc as int]->Step_0) == command(words));
}

proof fn lemma_told_dir(
    f: Facts,
    v: Voice,
    noted: Option<Seq<char>>,
    ops: Seq<OpView>,
    pc: nat,
    label: Seq<char>,
    path: Seq<char>,
)
    requires
        pc < ops.len(),
        ops[pc as int] == (OpView::Empty { label, place: PlaceView::Home(path) }),
    ensures
        told(f, v, noted, ops, pc) == dir_told(f, v, label, path) + told(f, v, noted, ops, pc + 1),
{
    reveal_with_fuel(told, 1);
}

proof fn lemma_told_sweep(f: Facts, v: Voice, noted: Option<Seq<char>>, ops: Seq<OpView>, pc: nat)
    requires
        pc < ops.len(),
        ops[pc as int] is SweepRoots,
    ensures
        told(f, v, noted, ops, pc) == swept_told(
            f,
            v,
            home_roots(printed_by(f, seq!["nix-store"@, "--gc"@, "--print-roots"@]), v.home),
        ) + told(f, v, noted, ops, pc + 1),
{
    reveal_with_fuel(told, 1);
    let words = seq!["nix-store"@, "--gc"@, "--print-roots"@];
    assert(roots_command().args == command(words).args);
    lemma_swept_told(f, v, home_roots(printed_by(f, words), v.home));
}

/// What a report says of the Nix store.
pub open spec fn store_words(f: Facts, v: Voice) -> Seq<char> {
    section_text(v.color, "Nix store"@)
        + on_a_line("  size on disk: "@, printed_by(f, seq!["du"@, "-sh"@, "/nix/store"@]), ""@)
        + set_in(""@, printed_by(f, seq!["df"@, "-h"@, "/nix/store"@]))
}

#[verifier::rlimit(40)]
proof fn lemma_store_told(f: Facts, v: Voice, noted: Option<Seq<char>>)
    ensures
        told(f, v, noted, status::store_part(v.color), 0) == store_words(f, v),
{
    let ops = status::store_part(v.color);
    let t0 = section_text(v.color, "Nix store"@);
    let t1 = on_a_line("  size on disk: "@, printed_by(f, seq!["du"@, "-sh"@, "/nix/store"@]), ""@);
    let t2 = set_in(""@, printed_by(f, seq!["df"@, "-h"@, "/nix/store"@]));
    lemma_told_at_end(f, v, noted, ops, 3);
    lemma_told_output(f, v, noted, ops, 2, seq!["df"@, "-h"@, "/nix/store"@], t2);
    lemma_told_output(f, v, noted, ops, 1, seq!["du"@, "-sh"@, "/nix/store"@], t1);
    lemma_told_said(f, v, noted, ops, 0, t0);
    lemma_row_of_3(t0, t1, t2);
}

/// What a report says of generations.
pub open spec fn generations_words(f: Facts, v: Voice) -> Seq<char> {
    section_text(v.color, "Generations (clean deletes ALL of these except the current one)"@)
        + generations_text(
            "system profile"@,
            "/nix/var/nix/profiles/system"@,
            printed_by(
                f,
                seq!["nix-env"@, "-p"@, "/nix/var/nix/profiles/system"@, "--list-generations"@],
            ),
        )
        + generations_text(
            "your user profile"@,
            v.home + "/.nix-profile"@,
            printed_by(
                f,
                seq!["nix-env"@, "-p"@, v.home + "/.nix-profile"@, "--list-generations"@],
            ),
        )
        + (
            if found(f, "home-manager"@) {
                counted(
                    "  home-manager: "@,
                    printed_by(f, seq!["home-manager"@, "generations"@]),
                    " generation(s)"@,
                )
            } else { "  home-manager: not installed, skipping\n"@ }
        )
}

#[verifier::rlimit(40)]
proof fn lemma_generations_told(f: Facts, v: Voice, noted: Option<Seq<char>>)
    ensures
        told(f, v, noted, status::generations_part(v.color, v.home), 0) == generations_words(f, v),
{
    let ops = status::generations_part(v.color, v.home);
    let t0 = section_text(
        v.color,
        "Generations (clean deletes ALL of these except the current one)"@,
    );
    let t1 = generations_text(
        "system profile"@,
        "/nix/var/nix/profiles/system"@,
        printed_by(
            f,
            seq!["nix-env"@, "-p"@, "/nix/var/nix/profiles/system"@, "--list-generations"@],
        ),
    );
    let t2 = generations_text(
        "your user profile"@,
        v.home + "/.nix-profile"@,
        printed_by(f, seq!["nix-env"@, "-p"@, v.home + "/.nix-profile"@, "--list-generations"@]),
    );
    let t4 = counted(
        "  home-manager: "@,
        printed_by(f, seq!["home-manager"@, "generations"@]),
        " generation(s)"@,
    );
    lemma_told_at_end(f, v, noted, ops, 5);
    lemma_told_output(f, v, noted, ops, 4, seq!["home-manager"@, "generations"@], t4);
    let g3 = GuardView::Installed("home-manager"@);
    lemma_found(f, "home-manager"@);
    lemma_told_guarded(
        f,
        v,
        noted,
        ops,
        3,
        g3,
        1,
        t4,
        "  home-manager: not installed, skipping\n"@,
    );
    let t3 = if found(f, "home-manager"@) { t4 } else {
        "  home-manager: not installed, skipping\n"@
    };
    lemma_told_output(
        f,
        v,
        noted,
        ops,
        2,
        seq!["nix-env"@, "-p"@, v.home + "/.nix-profile"@, "--list-generations"@],
        t2,
    );
    lemma_told_output(
        f,
        v,
        noted,
        ops,
        1,
        seq!["nix-env"@, "-p"@, "/nix/var/nix/profiles/system"@, "--list-generations"@],
        t1,
    );
    lemma_told_said(f, v, noted, ops, 0, t0);
    lemma_row_of_4(t0, t1, t2, t3);
}

/// What a report says of boot entries.
pub open spec fn boot_words(f: Facts, v: Voice) -> Seq<char> {
    section_text(v.color, "Boot entries (clean does NOT touch these — see note below)"@)
        + (
            match f.entries {
                Some(n) => "  systemd-boot entries: "@
                    + decimal_of(n)
                    + " (each pins a kernel+initrd generation alive)\n"@
                    + "  set `boot.loader.systemd-boot.configurationLimit = 5;` (or similar) to stop these piling up\n"@,
                None => "  no /boot/loader/entries — probably GRUB\n"@
                    + "  set `boot.loader.grub.configurationLimit = 5;` in your config\n"@,
            }
        )
        + (
            "  "@
                + yellow_text(v.color)
                + "not auto-deleted:"@
                + reset_text(v.color)
                + " pruning boot entries by hand risks an unbootable system; the configurationLimit option is the real fix, not a cleanup pass.\n"@
        )
}

#[verifier::rlimit(40)]
proof fn lemma_boot_told(f: Facts, v: Voice, noted: Option<Seq<char>>)
    ensures
        told(f, v, noted, status::boot_part(v.color), 0) == boot_words(f, v),
{
    let ops = status::boot_part(v.color);
    let t0 = section_text(v.color, "Boot entries (clean does NOT touch these — see note below)"@);
    let t1 = (
        match f.entries {
            Some(n) => "  systemd-boot entries: "@
                + decimal_of(n)
                + " (each pins a kernel+initrd generation alive)\n"@
                + "  set `boot.loader.systemd-boot.configurationLimit = 5;` (or similar) to stop these piling up\n"@,
            None => "  no /boot/loader/entries — probably GRUB\n"@
                + "  set `boot.loader.grub.configurationLimit = 5;` in your config\n"@,
        }
    );
    let t2 = (
        "  "@
            + yellow_text(v.color)
            + "not auto-deleted:"@
            + reset_text(v.color)
            + " pruning boot entries by hand risks an unbootable system; the configurationLimit option is the real fix, not a cleanup pass.\n"@
    );
    lemma_told_at_end(f, v, noted, ops, 3);
    lemma_told_said(f, v, noted, ops, 2, t2);
    lemma_told_boot(f, v, noted, ops, 1);
    lemma_told_said(f, v, noted, ops, 0, t0);
    lemma_row_of_3(t0, t1, t2);
}

/// What a report says of the largest paths of the running system.
pub open spec fn closure_words(f: Facts, v: Voice) -> Seq<char> {
    section_text(v.color, "Biggest paths in your current system closure"@)
        + (
            match printed_by(f, seq!["nix"@, "path-info"@, "-rS"@, "/run/current-system"@]) {
                Some(out) => largest_text(out, 15),
                None => Seq::<char>::empty(),
            }
        )
}

#[verifier::rlimit(40)]
proof fn lemma_closure_told(f: Facts, v: Voice, noted: Option<Seq<char>>)
    ensures
        told(f, v, noted, status::closure_part(v.color), 0) == closure_words(f, v),
{
    let ops = status::closure_part(v.color);
    let t0 = section_text(v.color, "Biggest paths in your current system closure"@);
    let t1 = (
        match printed_by(f, seq!["nix"@, "path-info"@, "-rS"@, "/run/current-system"@]) {
            Some(out) => largest_text(out, 15),
            None => Seq::<char>::empty(),
        }
    );
    lemma_told_at_end(f, v, noted, ops, 2);
    lemma_told_output(
        f,
        v,
        noted,
        ops,
        1,
        seq!["nix"@, "path-info"@, "-rS"@, "/run/current-system"@],
        t1,
    );
    lemma_told_said(f, v, noted, ops, 0, t0);
    lemma_row_of_2(t0, t1);
}

/// What a report says of stray roots.
pub open spec fn roots_words(f: Facts, v: Voice) -> Seq<char> {
    section_text(
        v.color,
        "Stray build results / dev-shell roots pinning old store paths (ALL get nuked, any age)"@,
    )
        + stray_told(
            f,
            v.home,
            home_roots(printed_by(f, seq!["nix-store"@, "--gc"@, "--print-roots"@]), v.home),
        )
}

#[verifier::rlimit(40)]
proof fn lemma_roots_told(f: Facts, v: Voice, noted: Option<Seq<char>>)
    ensures
        told(f, v, noted, status::roots_part(v.color), 0) == roots_words(f, v),
{
    let ops = status::roots_part(v.color);
    let t0 = section_text(
        v.color,
        "Stray build results / dev-shell roots pinning old store paths (ALL get nuked, any age)"@,
    );
    let t1 = stray_told(
        f,
        v.home,
        home_roots(printed_by(f, seq!["nix-store"@, "--gc"@, "--print-roots"@]), v.home),
    );
    lemma_told_at_end(f, v, noted, ops, 2);
    lemma_stray_told(
        f,
        v.home,
        home_roots(printed_by(f, seq!["nix-store"@, "--gc"@, "--print-roots"@]), v.home),
    );
    lemma_told_output(f, v, noted, ops, 1, seq!["nix-store"@, "--gc"@, "--print-roots"@], t1);
    lemma_told_said(f, v, noted, ops, 0, t0);
    lemma_row_of_2(t0, t1);
}

/// What a report says of containers and of the journal.
pub open spec fn services_words(f: Facts, v: Voice) -> Seq<char> {
    section_text(v.color, "Non-Nix disk hogs (ALL get nuked)"@)
        + (
            if found(f, "docker"@) {
                set_in(""@, printed_by(f, seq!["docker"@, "system"@, "df"@]))
            } else { Seq::<char>::empty() }
        )
        + (
            if found(f, "podman"@) {
                set_in(""@, printed_by(f, seq!["podman"@, "system"@, "df"@]))
            } else { Seq::<char>::empty() }
        )
        + on_a_line("  "@, printed_by(f, seq!["journalctl"@, "--disk-usage"@]), ""@)
}

#[verifier::rlimit(40)]
proof fn lemma_services_told(f: Facts, v: Voice, noted: Option<Seq<char>>)
    ensures
        told(f, v, noted, status::services_part(v.color), 0) == services_words(f, v),
{
    reveal_strlit("");
    assert(""@ == Seq::<char>::empty());
    let ops = status::services_part(v.color);
    let t0 = section_text(v.color, "Non-Nix disk hogs (ALL get nuked)"@);
    let t2 = set_in(""@, printed_by(f, seq!["docker"@, "system"@, "df"@]));
    let t4 = set_in(""@, printed_by(f, seq!["podman"@, "system"@, "df"@]));
    let t5 = on_a_line("  "@, printed_by(f, seq!["journalctl"@, "--disk-usage"@]), ""@);
    lemma_told_at_end(f, v, noted, ops, 6);
    lemma_told_output(f, v, noted, ops, 5, seq!["journalctl"@, "--disk-usage"@], t5);
    lemma_told_output(f, v, noted, ops, 4, seq!["podman"@, "system"@, "df"@], t4);
    let g3 = GuardView::Installed("podman"@);
    lemma_found(f, "podman"@);
    lemma_told_guarded(f, v, noted, ops, 3, g3, 1, t4, ""@);
    let t3 = if found(f, "podman"@) { t4 } else { Seq::<char>::empty() };
    lemma_told_output(f, v, noted, ops, 2, seq!["docker"@, "system"@, "df"@], t2);
    let g1 = GuardView::Installed("docker"@);
    lemma_found(f, "docker"@);
    lemma_told_guarded(f, v, noted, ops, 1, g1, 1, t2, ""@);
    let t1 = if found(f, "docker"@) { t2 } else { Seq::<char>::empty() };
    lemma_told_said(f, v, noted, ops, 0, t0);
    lemma_row_of_4(t0, t1, t3, t5);
}

/// What a report says of caches and of the trash.
pub open spec fn caches_words(f: Facts, v: Voice) -> Seq<char> {
    on_a_line(
        "  ~/.cache: "@,
        printed_by(f, seq!["du"@, "-sh"@, v.home + "/.cache"@]),
        "  (clean empties this completely)"@,
    )
        + (
            if (f.machine.present)(PlaceView::At(v.home + "/.local/share/Trash"@)) {
                on_a_line(
                    "  ~/.local/share/Trash: "@,
                    printed_by(f, seq!["du"@, "-sh"@, v.home + "/.local/share/Trash"@]),
                    "  (clean empties this completely)"@,
                )
            } else { Seq::<char>::empty() }
        )
}

#[verifier::rlimit(40)]
proof fn lemma_caches_told(f: Facts, v: Voice, noted: Option<Seq<char>>)
    ensures
        told(f, v, noted, status::caches_part(v.home), 0) == caches_words(f, v),
{
    let ops = status::caches_part(v.home);
    let t0 = on_a_line(
        "  ~/.cache: "@,
        printed_by(f, seq!["du"@, "-sh"@, v.home + "/.cache"@]),
        "  (clean empties this completely)"@,
    );
    let t2 = on_a_line(
        "  ~/.local/share/Trash: "@,
        printed_by(f, seq!["du"@, "-sh"@, v.home + "/.local/share/Trash"@]),
        "  (clean empties this completely)"@,
    );
    lemma_told_at_end(f, v, noted, ops, 3);
    lemma_told_output(
        f,
        v,
        noted,
        ops,
        2,
        seq!["du"@, "-sh"@, v.home + "/.local/share/Trash"@],
        t2,
    );
    let g1 = GuardView::Present(PlaceView::At(v.home + "/.local/share/Trash"@));
    lemma_told_guarded(f, v, noted, ops, 1, g1, 1, t2, Seq::<char>::empty());
    let t1 = if holds(f.machine, g1) { t2 } else { Seq::<char>::empty() };
    lemma_told_output(f, v, noted, ops, 0, seq!["du"@, "-sh"@, v.home + "/.cache"@], t0);
    lemma_row_of_2(t0, t1);
}

/// What a report says of development tools and of core dumps.
pub open spec fn tools_words(f: Facts, v: Voice) -> Seq<char> {
    (
        if found(f, "cargo"@) {
            on_a_line(
                "  ~/.cargo/registry: "@,
                printed_by(f, seq!["du"@, "-sh"@, v.home + "/.cargo/registry"@]),
                "  (clean nukes cache+src)"@,
            )
        } else { Seq::<char>::empty() }
    )
        + (
            if found(f, "npm"@) {
                set_in(
                    "  npm cache: "@,
                    printed_by(f, seq!["du"@, "-sh"@, v.home + "/.npm/_cacache"@]),
                )
            } else { Seq::<char>::empty() }
        )
        + (
            if found(f, "go"@) {
                on_a_line(
                    "  ~/.cache/go-build: "@,
                    printed_by(f, seq!["du"@, "-sh"@, v.home + "/.cache/go-build"@]),
                    "  (clean nukes this)"@,
                )
            } else { Seq::<char>::empty() }
        )
        + (
            if (f.machine.present)(PlaceView::At("/var/lib/systemd/coredump"@)) {
                on_a_line(
                    "  /var/lib/systemd/coredump: "@,
                    printed_by(f, seq!["du"@, "-sh"@, "/var/lib/systemd/coredump"@]),
                    "  (clean nukes this)"@,
                )
            } else { Seq::<char>::empty() }
        )
}

#[verifier::rlimit(40)]
proof fn lemma_tools_told(f: Facts, v: Voice, noted: Option<Seq<char>>)
    ensures
        told(f, v, noted, status::tools_part(v.home), 0) == tools_words(f, v),
{
    reveal_strlit("");
    assert(""@ == Seq::<char>::empty());
    let ops = status::tools_part(v.home);
    let t1 = on_a_line(
        "  ~/.cargo/registry: "@,
        printed_by(f, seq!["du"@, "-sh"@, v.home + "/.cargo/registry"@]),
        "  (clean nukes cache+src)"@,
    );
    let t3 = set_in(
        "  npm cache: "@,
        printed_by(f, seq!["du"@, "-sh"@, v.home + "/.npm/_cacache"@]),
    );
    let t5 = on_a_line(
        "  ~/.cache/go-build: "@,
        printed_by(f, seq!["du"@, "-sh"@, v.home + "/.cache/go-build"@]),
        "  (clean nukes this)"@,
    );
    let t7 = on_a_line(
        "  /var/lib/systemd/coredump: "@,
        printed_by(f, seq!["du"@, "-sh"@, "/var/lib/systemd/coredump"@]),
        "  (clean nukes this)"@,
    );
    lemma_told_at_end(f, v, noted, ops, 8);
    lemma_told_output(f, v, noted, ops, 7, seq!["du"@, "-sh"@, "/var/lib/systemd/coredump"@], t7);
    let g6 = GuardView::Present(PlaceView::At("/var/lib/systemd/coredump"@));
    lemma_told_guarded(f, v, noted, ops, 6, g6, 1, t7, Seq::<char>::empty());
    let t6 = if holds(f.machine, g6) { t7 } else { Seq::<char>::empty() };
    lemma_told_output(f, v, noted, ops, 5, seq!["du"@, "-sh"@, v.home + "/.cache/go-build"@], t5);
    let g4 = GuardView::Installed("go"@);
    lemma_found(f, "go"@);
    lemma_told_guarded(f, v, noted, ops, 4, g4, 1, t5, ""@);
    let t4 = if found(f, "go"@) { t5 } else { Seq::<char>::empty() };
    lemma_told_output(f, v, noted, ops, 3, seq!["du"@, "-sh"@, v.home + "/.npm/_cacache"@], t3);
    let g2 = GuardView::Installed("npm"@);
    lemma_found(f, "npm"@);
    lemma_told_guarded(f, v, noted, ops, 2, g2, 1, t3, ""@);
    let t2 = if found(f, "npm"@) { t3 } else { Seq::<char>::empty() };
    lemma_told_output(f, v, noted, ops, 1, seq!["du"@, "-sh"@, v.home + "/.cargo/registry"@], t1);
    let g0 = GuardView::Installed("cargo"@);
    lemma_found(f, "cargo"@);
    lemma_told_guarded(f, v, noted, ops, 0, g0, 1, t1, ""@);
    let t0 = if found(f, "cargo"@) { t1 } else { Seq::<char>::empty() };
    lemma_row_of_4(t0, t2, t4, t6);
}

/// What a report says in the end.
pub open spec fn closing_words(f: Facts, v: Voice) -> Seq<char> {
    "\nRun `nix-reaper clean --dry-run` to preview the full nuke, or `nix-reaper clean` to just do it.\n"@
}

#[verifier::rlimit(40)]
proof fn lemma_closing_told(f: Facts, v: Voice, noted: Option<Seq<char>>)
    ensures
        told(f, v, noted, status::closing_part(), 0) == closing_words(f, v),
{
    let ops = status::closing_part();
    let t0 = "\nRun `nix-reaper clean --dry-run` to preview the full nuke, or `nix-reaper clean` to just do it.\n"@;
    lemma_told_at_end(f, v, noted, ops, 1);
    lemma_told_said(f, v, noted, ops, 0, t0);
}

/// What a cleanup says of old generations.
pub open spec fn clean_generations_words(f: Facts, v: Voice) -> Seq<char> {
    run_told(
        f,
        v,
        seq![
            "sudo"@,
            "nix-env"@,
            "-p"@,
            "/nix/var/nix/profiles/system"@,
            "--delete-generations"@,
            "old"@,
        ],
        "delete every system generation except the one currently in use"@,
    )
        + run_told(
            f,
            v,
            seq!["nix-env"@, "--delete-generations"@, "old"@],
            "delete every generation of your own user profile except the current one"@,
        )
        + (
            if found(f, "home-manager"@) {
                run_told(
                    f,
                    v,
                    seq!["home-manager"@, "expire-generations"@, "-1 seconds"@],
                    "expire every home-manager generation older than right now"@,
                )
            } else { Seq::<char>::empty() }
        )
}

#[verifier::rlimit(40)]
proof fn lemma_clean_generations_told(f: Facts, v: Voice, noted: Option<Seq<char>>)
    ensures
        told(f, v, noted, clean::generations_part(), 0) == clean_generations_words(f, v),
{
    reveal_strlit("");
    assert(""@ == Seq::<char>::empty());
    let ops = clean::generations_part();
    let t0 = run_told(
        f,
        v,
        seq![
            "sudo"@,
            "nix-env"@,
            "-p"@,
            "/nix/var/nix/profiles/system"@,
            "--delete-generations"@,
            "old"@,
        ],
        "delete every system generation except the one currently in use"@,
    );
    let t1 = run_told(
        f,
        v,
        seq!["nix-env"@, "--delete-generations"@, "old"@],
        "delete every generation of your own user profile except the current one"@,
    );
    let t3 = run_told(
        f,
        v,
        seq!["home-manager"@, "expire-generations"@, "-1 seconds"@],
        "expire every home-manager generation older than right now"@,
    );
    lemma_told_at_end(f, v, noted, ops, 4);
    lemma_told_run(
        f,
        v,
        noted,
        ops,
        3,
        seq!["home-manager"@, "expire-generations"@, "-1 seconds"@],
        "expire every home-manager generation older than right now"@,
    );
    let g2 = GuardView::Installed("home-manager"@);
    lemma_found(f, "home-manager"@);
    lemma_told_guarded(f, v, noted, ops, 2, g2, 1, t3, ""@);
    let t2 = if found(f, "home-manager"@) { t3 } else { Seq::<char>::empty() };
    lemma_told_run(
        f,
        v,
        noted,
        ops,
        1,
        seq!["nix-env"@, "--delete-generations"@, "old"@],
        "delete every generation of your own user profile except the current one"@,
    );
    lemma_told_run(
        f,
        v,
        noted,
        ops,
        0,
        seq![
            "sudo"@,
            "nix-env"@,
            "-p"@,
            "/nix/var/nix/profiles/system"@,
            "--delete-generations"@,
            "old"@,
        ],
        "delete every system generation except the one currently in use"@,
    );
    lemma_row_of_3(t0, t1, t2);
}

/// What a cleanup says of the store.
pub open spec fn clean_store_words(f: Facts, v: Voice) -> Seq<char> {
    run_told(
        f,
        v,
        seq!["nix-collect-garbage"@, "-d"@],
        "delete everything no longer reachable from a live generation (add sudo yourself if this errors on permissions)"@,
    )
        + run_told(
            f,
            v,
            seq!["nix"@, "store"@, "optimise"@],
            "hardlink duplicate files inside the store (saves space, deletes nothing reachable)"@,
        )
}

#[verifier::rlimit(40)]
proof fn lemma_clean_store_told(f: Facts, v: Voice, noted: Option<Seq<char>>)
    ensures
        told(f, v, noted, clean::store_part(), 0) == clean_store_words(f, v),
{
    let ops = clean::store_part();
    let t0 = run_told(
        f,
        v,
        seq!["nix-collect-garbage"@, "-d"@],
        "delete everything no longer reachable from a live generation (add sudo yourself if this errors on permissions)"@,
    );
    let t1 = run_told(
        f,
        v,
        seq!["nix"@, "store"@, "optimise"@],
        "hardlink duplicate files inside the store (saves space, deletes nothing reachable)"@,
    );
    lemma_told_at_end(f, v, noted, ops, 2);
    lemma_told_run(
        f,
        v,
        noted,
        ops,
        1,
        seq!["nix"@, "store"@, "optimise"@],
        "hardlink duplicate files inside the store (saves space, deletes nothing reachable)"@,
    );
    lemma_told_run(
        f,
        v,
        noted,
        ops,
        0,
        seq!["nix-collect-garbage"@, "-d"@],
        "delete everything no longer reachable from a live generation (add sudo yourself if this errors on permissions)"@,
    );
    lemma_row_of_2(t0, t1);
}

/// What a cleanup says of containers.
pub open spec fn clean_containers_words(f: Facts, v: Voice) -> Seq<char> {
    (
        if found(f, "docker"@) {
            run_told(
                f,
                v,
                seq!["docker"@, "system"@, "prune"@, "-af"@, "--volumes"@],
                "remove every unused docker image, stopped container, and unused volume"@,
            )
                + run_told(
                    f,
                    v,
                    seq!["docker"@, "builder"@, "prune"@, "-af"@],
                    "wipe the docker buildx/BuildKit cache"@,
                )
        } else { Seq::<char>::empty() }
    )
        + (
            if found(f, "podman"@) {
                run_told(
                    f,
                    v,
                    seq!["podman"@, "system"@, "prune"@, "-af"@, "--volumes"@],
                    "remove every unused podman image, stopped container, and unused volume"@,
                )
                    + run_told(
                        f,
                        v,
                        seq!["podman"@, "image"@, "prune"@, "-af"@],
                        "remove every dangling/unused podman image"@,
                    )
            } else { Seq::<char>::empty() }
        )
}

#[verifier::rlimit(40)]
proof fn lemma_clean_containers_told(f: Facts, v: Voice, noted: Option<Seq<char>>)
    ensures
        told(f, v, noted, clean::containers_part(), 0) == clean_containers_words(f, v),
{
    reveal_strlit("");
    assert(""@ == Seq::<char>::empty());
    let ops = clean::containers_part();
    let t1 = run_told(
        f,
        v,
        seq!["docker"@, "system"@, "prune"@, "-af"@, "--volumes"@],
        "remove every unused docker image, stopped container, and unused volume"@,
    );
    let t2 = run_told(
        f,
        v,
        seq!["docker"@, "builder"@, "prune"@, "-af"@],
        "wipe the docker buildx/BuildKit cache"@,
    );
    let t4 = run_told(
        f,
        v,
        seq!["podman"@, "system"@, "prune"@, "-af"@, "--volumes"@],
        "remove every unused podman image, stopped container, and unused volume"@,
    );
    let t5 = run_told(
        f,
        v,
        seq!["podman"@, "image"@, "prune"@, "-af"@],
        "remove every dangling/unused podman image"@,
    );
    lemma_told_at_end(f, v, noted, ops, 6);
    lemma_told_run(
        f,
        v,
        noted,
        ops,
        5,
        seq!["podman"@, "image"@, "prune"@, "-af"@],
        "remove every dangling/unused podman image"@,
    );
    lemma_told_run(
        f,
        v,
        noted,
        ops,
        4,
        seq!["podman"@, "system"@, "prune"@, "-af"@, "--volumes"@],
        "remove every unused podman image, stopped container, and unused volume"@,
    );
    let r3 = told(f, v, noted, ops, 6);
    assert(told(f, v, noted, ops, 4) == (t4 + t5) + r3);
    let g3 = GuardView::Installed("podman"@);
    lemma_found(f, "podman"@);
    lemma_told_guarded(f, v, noted, ops, 3, g3, 2, t4 + t5, ""@);
    let t3 = if found(f, "podman"@) { t4 + t5 } else { Seq::<char>::empty() };
    lemma_told_run(
        f,
        v,
        noted,
        ops,
        2,
        seq!["docker"@, "builder"@, "prune"@, "-af"@],
        "wipe the docker buildx/BuildKit cache"@,
    );
    lemma_told_run(
        f,
        v,
        noted,
        ops,
        1,
        seq!["docker"@, "system"@, "prune"@, "-af"@, "--volumes"@],
        "remove every unused docker image, stopped container, and unused volume"@,
    );
    let r0 = told(f, v, noted, ops, 3);
    assert(told(f, v, noted, ops, 1) == (t1 + t2) + r0);
    let g0 = GuardView::Installed("docker"@);
    lemma_found(f, "docker"@);
    lemma_told_guarded(f, v, noted, ops, 0, g0, 2, t1 + t2, ""@);
    let t0 = if found(f, "docker"@) { t1 + t2 } else { Seq::<char>::empty() };
    lemma_row_of_2(t0, t3);
}

/// What a cleanup says of stray roots, caches, the trash and core dumps.
pub open spec fn clean_leftovers_words(f: Facts, v: Voice) -> Seq<char> {
    swept_told(
        f,
        v,
        home_roots(printed_by(f, seq!["nix-store"@, "--gc"@, "--print-roots"@]), v.home),
    )
        + dir_told(f, v, "~/.cache"@, ".cache"@)
        + dir_told(f, v, "~/.local/share/Trash"@, ".local/share/Trash"@)
        + (
            if (f.machine.present)(PlaceView::At("/var/lib/systemd/coredump"@)) {
                run_told(
                    f,
                    v,
                    seq![
                        "sudo"@,
                        "find"@,
                        "/var/lib/systemd/coredump"@,
                        "-mindepth"@,
                        "1"@,
                        "-delete"@,
                    ],
                    "delete every stored systemd coredump"@,
                )
            } else { Seq::<char>::empty() }
        )
}

#[verifier::rlimit(40)]
proof fn lemma_clean_leftovers_told(f: Facts, v: Voice, noted: Option<Seq<char>>)
    ensures
        told(f, v, noted, clean::leftovers_part(), 0) == clean_leftovers_words(f, v),
{
    let ops = clean::leftovers_part();
    let t0 = swept_told(
        f,
        v,
        home_roots(printed_by(f, seq!["nix-store"@, "--gc"@, "--print-roots"@]), v.home),
    );
    let t1 = dir_told(f, v, "~/.cache"@, ".cache"@);
    let t2 = dir_told(f, v, "~/.local/share/Trash"@, ".local/share/Trash"@);
    let t4 = run_told(
        f,
        v,
        seq!["sudo"@, "find"@, "/var/lib/systemd/coredump"@, "-mindepth"@, "1"@, "-delete"@],
        "delete every stored systemd coredump"@,
    );
    lemma_told_at_end(f, v, noted, ops, 5);
    lemma_told_run(
        f,
        v,
        noted,
        ops,
        4,
        seq!["sudo"@, "find"@, "/var/lib/systemd/coredump"@, "-mindepth"@, "1"@, "-delete"@],
        "delete every stored systemd coredump"@,
    );
    let g3 = GuardView::Present(PlaceView::At("/var/lib/systemd/coredump"@));
    lemma_told_guarded(f, v, noted, ops, 3, g3, 1, t4, Seq::<char>::empty());
    let t3 = if holds(f.machine, g3) { t4 } else { Seq::<char>::empty() };
    lemma_told_dir(f, v, noted, ops, 2, "~/.local/share/Trash"@, ".local/share/Trash"@);
    lemma_told_dir(f, v, noted, ops, 1, "~/.cache"@, ".cache"@);
    lemma_told_sweep(f, v, noted, ops, 0);
    lemma_row_of_4(t0, t1, t2, t3);
}

/// What a cleanup says of the caches of development tools.
pub open spec fn clean_tools_words(f: Facts, v: Voice) -> Seq<char> {
    (
        if found(f, "cargo"@) {
            dir_told(f, v, "~/.cargo/registry/cache"@, ".cargo/registry/cache"@)
                + dir_told(f, v, "~/.cargo/registry/src"@, ".cargo/registry/src"@)
        } else { Seq::<char>::empty() }
    )
        + (
            if found(f, "npm"@) {
                run_told(
                    f,
                    v,
                    seq!["npm"@, "cache"@, "clean"@, "--force"@],
                    "wipe the entire npm cache"@,
                )
            } else { Seq::<char>::empty() }
        )
        + (
            if found(f, "go"@) {
                dir_told(f, v, "~/.cache/go-build"@, ".cache/go-build"@)
            } else { Seq::<char>::empty() }
        )
}

#[verifier::rlimit(40)]
proof fn lemma_clean_tools_told(f: Facts, v: Voice, noted: Option<Seq<char>>)
    ensures
        told(f, v, noted, clean::tools_part(), 0) == clean_tools_words(f, v),
{
    reveal_strlit("");
    assert(""@ == Seq::<char>::empty());
    let ops = clean::tools_part();
    let t1 = dir_told(f, v, "~/.cargo/registry/cache"@, ".cargo/registry/cache"@);
    let t2 = dir_told(f, v, "~/.cargo/registry/src"@, ".cargo/registry/src"@);
    let t4 = run_told(
        f,
        v,
        seq!["npm"@, "cache"@, "clean"@, "--force"@],
        "wipe the entire npm cache"@,
    );
    let t6 = dir_told(f, v, "~/.cache/go-build"@, ".cache/go-build"@);
    lemma_told_at_end(f, v, noted, ops, 7);
    lemma_told_dir(f, v, noted, ops, 6, "~/.cache/go-build"@, ".cache/go-build"@);
    let g5 = GuardView::Installed("go"@);
    lemma_found(f, "go"@);
    lemma_told_guarded(f, v, noted, ops, 5, g5, 1, t6, ""@);
    let t5 = if found(f, "go"@) { t6 } else { Seq::<char>::empty() };
    lemma_told_run(
        f,
        v,
        noted,
        ops,
        4,
        seq!["npm"@, "cache"@, "clean"@, "--force"@],
        "wipe the entire npm cache"@,
    );
    let g3 = GuardView::Installed("npm"@);
    lemma_found(f, "npm"@);
    lemma_told_guarded(f, v, noted, ops, 3, g3, 1, t4, ""@);
    let t3 = if found(f, "npm"@) { t4 } else { Seq::<char>::empty() };
    lemma_told_dir(f, v, noted, ops, 2, "~/.cargo/registry/src"@, ".cargo/registry/src"@);
    lemma_told_dir(f, v, noted, ops, 1, "~/.cargo/registry/cache"@, ".cargo/registry/cache"@);
    let r0 = told(f, v, noted, ops, 3);
    assert(told(f, v, noted, ops, 1) == (t1 + t2) + r0);
    let g0 = GuardView::Installed("cargo"@);
    lemma_found(f, "cargo"@);
    lemma_told_guarded(f, v, noted, ops, 0, g0, 2, t1 + t2, ""@);
    let t0 = if found(f, "cargo"@) { t1 + t2 } else { Seq::<char>::empty() };
    lemma_row_of_3(t0, t3, t5);
}

proof fn lemma_row_of_2(a: Seq<char>, b: Seq<char>)
    ensures
        a + (b + Seq::<char>::empty()) == a + b,
{
    assert(b + Seq::<char>::empty() == b);
}

proof fn lemma_row_of_3(a: Seq<char>, b: Seq<char>, c: Seq<char>)
    ensures
        a + (b + (c + Seq::<char>::empty())) == a + b + c,
{
    lemma_regroup(a, b, c + Seq::<char>::empty());
    assert(c + Seq::<char>::empty() == c);
}

proof fn lemma_row_of_4(a: Seq<char>, b: Seq<char>, c: Seq<char>, d: Seq<char>)
    ensures
        a + (b + (c + (d + Seq::<char>::empty()))) == a + b + c + d,
{
    lemma_regroup(a, b, c + (d + Seq::<char>::empty()));
    lemma_regroup(a + b, c, d + Seq::<char>::empty());
    assert(d + Seq::<char>::empty() == d);
}

proof fn lemma_status_told(f: Facts, v: Voice)
    ensures
        told(f, v, None, status_script(v.color, v.home), 0)
            == told(f, v, None, status::store_part(v.color), 0)
                + told(f, v, None, status::generations_part(v.color, v.home), 0)
                + told(f, v, None, status::boot_part(v.color), 0)
                + told(f, v, None, status::closure_part(v.color), 0)
                + told(f, v, None, status::roots_part(v.color), 0)
                + told(f, v, None, status::services_part(v.color), 0)
                + told(f, v, None, status::caches_part(v.home), 0)
                + told(f, v, None, status::tools_part(v.home), 0)
                + told(f, v, None, status::closing_part(), 0),
{
    let a = status::store_part(v.color);
    let b = status::generations_part(v.color, v.home);
    let c = status::boot_part(v.color);
    let d = status::closure_part(v.color);
    let e = status::roots_part(v.color);
    let g = status::services_part(v.color);
    let h = status::caches_part(v.home);
    let i = status::tools_part(v.home);
    let j = status::closing_part();
    lemma_status_parts_are_simple(v.color, v.home);
    lemma_simple_joined(a, b);
    lemma_simple_joined(a + b, c);
    lemma_simple_joined(a + b + c, d);
    lemma_simple_joined(a + b + c + d, e);
    lemma_simple_joined(a + b + c + d + e, g);
    lemma_simple_joined(a + b + c + d + e + g, h);
    lemma_simple_joined(a + b + c + d + e + g + h, i);
    lemma_told_joined(f, v, None, a, b, 0);
    lemma_told_joined(f, v, None, a + b, c, 0);
    lemma_told_joined(f, v, None, a + b + c, d, 0);
    lemma_told_joined(f, v, None, a + b + c + d, e, 0);
    lemma_told_joined(f, v, None, a + b + c + d + e, g, 0);
    lemma_told_joined(f, v, None, a + b + c + d + e + g, h, 0);
    lemma_told_joined(f, v, None, a + b + c + d + e + g + h, i, 0);
    lemma_told_joined(f, v, None, a + b + c + d + e + g + h + i, j, 0);
}

/// The whole text of a finished status report, from what the machine answers: what each
/// query printed, under its heading and in its order, and nothing of what was not found.
#[verifier::rlimit(40)]
pub proof fn law_text_of_a_report(f: Facts, s: SessionView, replies: Seq<Reply>)
    requires
        s == fresh(status_script(s.color, s.home), s.home, s.color, false),
        follows(s, replies),
        by_facts(f, s, replies),
        run(s, replies).ask is Finished,
    ensures
        ({
            let v = voice(s);
            run(s, replies).text
                == store_words(f, v)
                    + generations_words(f, v)
                    + boot_words(f, v)
                    + closure_words(f, v)
                    + roots_words(f, v)
                    + services_words(f, v)
                    + caches_words(f, v)
                    + tools_words(f, v)
                    + closing_words(f, v)
        }),
{
    let v = voice(s);
    status::lemma_status_spans_fit(s.color, s.home);
    law_runs_stay_in_order(s, replies);
    law_text_of_a_run(f, s, replies);
    assert(run(s, replies).text + Seq::<char>::empty() == run(s, replies).text);
    lemma_status_told(f, v);
    lemma_store_told(f, v, None);
    lemma_generations_told(f, v, None);
    lemma_boot_told(f, v, None);
    lemma_closure_told(f, v, None);
    lemma_roots_told(f, v, None);
    lemma_services_told(f, v, None);
    lemma_caches_told(f, v, None);
    lemma_tools_told(f, v, None);
    lemma_closing_told(f, v, None);
}

/// What a cleanup says of the journal.
pub open spec fn clean_journal_words(f: Facts, v: Voice, journal: Seq<char>) -> Seq<char> {
    (
        if clean::journal_off(journal) { Seq::<char>::empty() } else {
            run_told(
                f,
                v,
                seq!["sudo"@, "journalctl"@, "--vacuum-time="@ + journal],
                "shrink the systemd journal down to the last "@ + journal,
            )
        }
    )
}

proof fn lemma_clean_journal_told(
    f: Facts,
    v: Voice,
    noted: Option<Seq<char>>,
    journal: Seq<char>,
)
    ensures
        told(f, v, noted, clean::journal_part(journal), 0) == clean_journal_words(f, v, journal),
{
    let ops = clean::journal_part(journal);
    if clean::journal_off(journal) {
        lemma_told_at_end(f, v, noted, ops, 0);
    } else {
        lemma_told_at_end(f, v, noted, ops, 1);
        lemma_told_run(
            f,
            v,
            noted,
            ops,
            0,
            seq!["sudo"@, "journalctl"@, "--vacuum-time="@ + journal],
            "shrink the systemd journal down to the last "@ + journal,
        );
    }
}

/// The opening words of a cleanup.
pub open spec fn opening_told(color: bool, dry_run: bool) -> Seq<char> {
    if dry_run {
        yellow_text(color) + "DRY RUN"@ + reset_text(color)
            + " — nothing will actually change. Drop --dry-run once this plan looks right.\n\n"@
    } else {
        red_text(color) + bold_text(color) + ">>> NUKING <<<"@ + reset_text(color) + "\n\n"@
    }
}

/// The closing words of a cleanup, after how the size of the store has changed, if both sizes
/// are known.
pub open spec fn ending_told(f: Facts, color: bool, dry_run: bool) -> Seq<char> {
    if dry_run {
        "\n"@ + dim_text(color)
            + "Looks right? Re-run the same command without --dry-run to actually do it."@
            + reset_text(color) + "\n"@
    } else {
        (match (f.size_before, f.size_after) {
            (Some(before), Some(after)) => store_change_text(color, before, after),
            _ => Seq::empty(),
        }) + ("\n"@ + green_text(color) + bold_text(color) + ">>> DONE <<<"@ + reset_text(color)
            + "\n"@)
    }
}

proof fn lemma_ending_told(f: Facts, v: Voice)
    ensures
        told(f, v, f.size_before, clean::ending_part(v.color, v.dry_run), 0) == ending_told(
            f,
            v.color,
            v.dry_run,
        ),
{
    let ops = clean::ending_part(v.color, v.dry_run);
    let noted = f.size_before;
    if v.dry_run {
        lemma_told_at_end(f, v, noted, ops, 1);
        lemma_told_said(f, v, noted, ops, 0, ops[0]->Say_0);
    } else {
        lemma_told_at_end(f, v, noted, ops, 2);
        lemma_told_said(f, v, noted, ops, 1, ops[1]->Say_0);
        reveal_with_fuel(told, 1);
        assert(told(f, v, noted, ops, 0) == change_told(f, v, noted) + told(f, v, noted, ops, 1));
    }
}

proof fn lemma_opening_told(f: Facts, v: Voice, first: Seq<OpView>, rest: Seq<OpView>)
    requires
        first.len() == 2,
        first[0] is Say,
        first[1] is MeasureBefore,
    ensures
        told(f, v, None, first + rest, 0) == first[0]->Say_0 + told(f, v, f.size_before, rest, 0),
{
    let ops = first + rest;
    reveal_with_fuel(told, 1);
    assert(ops[0] == first[0] && ops[1] == first[1]);
    assert(told(f, v, None, ops, 0) == first[0]->Say_0 + told(f, v, None, ops, 1));
    assert(told(f, v, None, ops, 1) == told(f, v, f.size_before, ops, 2));
    lemma_told_behind(f, v, f.size_before, first, rest, 0);
}

proof fn lemma_clean_joined(
    f: Facts,
    v: Voice,
    first: Seq<OpView>,
    a: Seq<OpView>,
    b: Seq<OpView>,
    c: Seq<OpView>,
    d: Seq<OpView>,
    e: Seq<OpView>,
    g: Seq<OpView>,
    h: Seq<OpView>,
)
    requires
        first.len() == 2,
        first[0] is Say,
        first[1] is MeasureBefore,
        simple(a),
        simple(b),
        simple(c),
        simple(d),
        simple(e),
        simple(g),
    ensures
        told(f, v, None, first + a + b + c + d + e + g + h, 0) == first[0]->Say_0 + told(
            f,
            v,
            f.size_before,
            a,
            0,
        ) + told(f, v, f.size_before, b, 0) + told(f, v, f.size_before, c, 0) + told(
            f,
            v,
            f.size_before,
            d,
            0,
        ) + told(f, v, f.size_before, e, 0) + told(f, v, f.size_before, g, 0) + told(
            f,
            v,
            f.size_before,
            h,
            0,
        ),
{
    let n = f.size_before;
    lemma_regrouped(first, a, b, c, d, e, g, h);
    lemma_opening_told(f, v, first, a + (b + (c + (d + (e + (g + h))))));
    lemma_told_joined(f, v, n, g, h, 0);
    lemma_told_joined(f, v, n, e, g + h, 0);
    lemma_told_joined(f, v, n, d, e + (g + h), 0);
    lemma_told_joined(f, v, n, c, d + (e + (g + h)), 0);
    lemma_told_joined(f, v, n, b, c + (d + (e + (g + h))), 0);
    lemma_told_joined(f, v, n, a, b + (c + (d + (e + (g + h)))), 0);
    lemma_regrouped(
        first[0]->Say_0,
        told(f, v, n, a, 0),
        told(f, v, n, b, 0),
        told(f, v, n, c, 0),
        told(f, v, n, d, 0),
        told(f, v, n, e, 0),
        told(f, v, n, g, 0),
        told(f, v, n, h, 0),
    );
}

/// What a cleanup says, in order: the opening words, what is said of each command, of the
/// stray roots and of each directory, and the closing words.
pub open spec fn cleanup_words(f: Facts, v: Voice, journal: Seq<char>) -> Seq<char> {
    opening_told(v.color, v.dry_run) + clean_generations_words(f, v) + clean_store_words(f, v)
        + clean_journal_words(f, v, journal) + clean_containers_words(f, v)
        + clean_leftovers_words(f, v) + clean_tools_words(f, v) + ending_told(
        f,
        v.color,
        v.dry_run,
    )
}

#[verifier::rlimit(40)]
proof fn lemma_cleanup_told(f: Facts, v: Voice, journal: Seq<char>)
    ensures
        told(f, v, None, clean_script(v.color, v.dry_run, journal), 0) == cleanup_words(
            f,
            v,
            journal,
        ),
{
    let n = f.size_before;
    lemma_parts_are_simple(journal);
    lemma_clean_joined(
        f,
        v,
        clean::opening_part(v.color, v.dry_run),
        clean::generations_part(),
        clean::store_part(),
        clean::journal_part(journal),
        clean::containers_part(),
        clean::leftovers_part(),
        clean::tools_part(),
        clean::ending_part(v.color, v.dry_run),
    );
    lemma_clean_generations_told(f, v, n);
    lemma_clean_store_told(f, v, n);
    lemma_clean_journal_told(f, v, n, journal);
    lemma_clean_containers_told(f, v, n);
    lemma_clean_leftovers_told(f, v, n);
    lemma_clean_tools_told(f, v, n);
    lemma_ending_told(f, v);
}

/// The whole text of a finished cleanup, or of a finished dry run of one, from what the
/// machine answers.
#[verifier::rlimit(40)]
pub proof fn law_text_of_a_cleanup(
    f: Facts,
    journal: Seq<char>,
    s: SessionView,
    replies: Seq<Reply>,
)
    requires
        s == fresh(clean_script(s.color, s.dry_run, journal), s.home, s.color, s.dry_run),
        follows(s, replies),
        by_facts(f, s, replies),
        run(s, replies).ask is Finished,
    ensures
        run(s, replies).text == cleanup_words(f, voice(s), journal),
{
    clean::lemma_clean_spans_fit(s.color, s.dry_run, journal);
    law_runs_stay_in_order(s, replies);
    law_text_of_a_run(f, s, replies);
    assert(run(s, replies).text + Seq::<char>::empty() == run(s, replies).text);
    lemma_cleanup_told(f, voice(s), journal);
}

} // verus!
