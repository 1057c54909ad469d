//! What a dry run shows is what a cleanup runs.
//!
//! A dry run and a real run of one cleanup are two sessions over nearly the same script.
//! The commands that the one prints and those that the other runs are compared here, over
//! whole runs and for every reply.
use vstd::prelude::*;

use crate::clean;
use crate::clean::clean_script;
use crate::cleanup::{
    empty_preview_text, emptied_text, fate_text, no_roots_text, store_change_text, unreadable_text,
    RootFate,
};
use crate::command::{
    command_line_of, opt_text, outcome_text, step_preview, CommandView, StepView,
};
use crate::roots::home_roots;
use crate::runs::{follows, in_order, is_fresh, law_runs_stay_in_order, run};
use crate::script::{place_text, shown_text, OpView};
use crate::session::{
    boot_entries_text, fate_of, fresh, no_boot_entries_text, no_stray_text, root_previews, say,
    stray_note, stray_text, AskView, Entry, LinkState, Phase, Reply, SessionView, TurnView,
};

verus! {

// ---------- what a dry run prints ----------

/// A piece of what a dry run prints: words, or the preview of a step.
pub enum Piece {
    Words(Seq<char>),
    Preview(StepView),
}

/// The text of a piece.
pub open spec fn piece_text(color: bool, piece: Piece) -> Seq<char> {
    match piece {
        Piece::Words(text) => text,
        Piece::Preview(step) => step_preview(color, step),
    }
}

/// The text of several pieces.
pub open spec fn pieces_text(color: bool, pieces: Seq<Piece>) -> Seq<char>
    decreases pieces.len(),
{
    if pieces.len() == 0 {
        Seq::empty()
    } else {
        piece_text(color, pieces.first()) + pieces_text(color, pieces.drop_first())
    }
}

/// The commands whose previews are among the pieces, in order.
pub open spec fn previewed(pieces: Seq<Piece>) -> Seq<CommandView>
    decreases pieces.len(),
{
    if pieces.len() == 0 {
        Seq::empty()
    } else {
        (match pieces.first() {
            Piece::Words(_) => Seq::empty(),
            Piece::Preview(step) => Seq::empty().push(command_line_of(step)),
        }) + previewed(pieces.drop_first())
    }
}

/// What a dry run prints for an operation that it passes over without asking anything.
pub open spec fn piece_of(op: OpView) -> Piece {
    match op {
        OpView::Say(text) => Piece::Words(text),
        OpView::Step(step) => Piece::Preview(step),
        _ => Piece::Words(Seq::empty()),
    }
}

/// What a dry run prints for the operations from `i` up to `j`.
pub open spec fn passed(ops: Seq<OpView>, i: nat, j: nat) -> Seq<Piece> {
    Seq::new((j - i) as nat, |k: int| piece_of(ops[i + k]))
}

/// Where a session goes on once it is done with the operation that it is at: at the next
/// one, or, where a guard does not hold, behind what the guard protects.
pub open spec fn goes_on_at(s: SessionView, reply: Reply) -> nat {
    if s.phase == Phase::Guard && reply == Reply::Answer(false) {
        s.pc + 1 + s.op()->span as nat
    } else {
        s.pc + 1
    }
}

/// What a dry run prints on a reply: words about the operation that it is at and, if it is
/// done with that one, what the operations that it passes over give.
#[verifier::opaque]
pub open spec fn replied(s: SessionView, reply: Reply) -> Seq<Piece> {
    let turn = s.resumed(reply);
    let rest = if turn.session.pc == s.pc {
        Seq::empty()
    } else {
        passed(s.ops, goes_on_at(s, reply), turn.session.pc)
    };
    let words = turn.text.take(turn.text.len() - pieces_text(s.color, rest).len());
    Seq::empty().push(Piece::Words(words)) + rest
}

/// What a dry run has printed after these replies.
#[verifier::opaque]
pub open spec fn printed(s: SessionView, replies: Seq<Reply>) -> Seq<Piece>
    decreases replies.len(),
{
    if replies.len() == 0 {
        passed(s.ops, 0, run(s, replies).session.pc)
    } else {
        printed(s, replies.drop_last()) + replied(
            run(s, replies.drop_last()).session,
            replies.last(),
        )
    }
}

proof fn lemma_pieces_joined(color: bool, a: Seq<Piece>, b: Seq<Piece>)
    ensures
        pieces_text(color, a + b) == pieces_text(color, a) + pieces_text(color, b),
        previewed(a + b) == previewed(a) + previewed(b),
    decreases a.len(),
{
    if a.len() == 0 {
        assert(a + b == b);
    } else {
        assert((a + b).drop_first() == a.drop_first() + b);
        assert((a + b).first() == a.first());
        lemma_pieces_joined(color, a.drop_first(), b);
    }
}

proof fn lemma_words(color: bool, words: Seq<char>)
    ensures
        pieces_text(color, Seq::empty().push(Piece::Words(words))) == words,
        previewed(Seq::empty().push(Piece::Words(words))) == Seq::<CommandView>::empty(),
{
    let one = Seq::empty().push(Piece::Words(words));
    assert(one.drop_first() == Seq::<Piece>::empty());
    assert(one.first() == Piece::Words(words));
    reveal_with_fuel(pieces_text, 2);
    reveal_with_fuel(previewed, 2);
}

// ---------- what a cleanup runs ----------

/// The command that is to be run, if one is.
pub open spec fn asked_command(ask: AskView) -> Seq<CommandView> {
    match ask {
        AskView::Run { command, .. } => Seq::empty().push(command),
        _ => Seq::empty(),
    }
}

/// The commands that a session has run, or waits for, after these replies, in order.
#[verifier::opaque]
pub open spec fn commands_run(s: SessionView, replies: Seq<Reply>) -> Seq<CommandView>
    decreases replies.len(),
{
    if replies.len() == 0 {
        asked_command(run(s, replies).ask)
    } else {
        commands_run(s, replies.drop_last()) + asked_command(run(s, replies).ask)
    }
}

// ---------- what is planned ----------

/// The commands of the steps of a script from operation `pc` on, if the guard at each
/// operation holds as `answers` says.
pub open spec fn planned(ops: Seq<OpView>, answers: spec_fn(nat) -> bool, pc: nat) -> Seq<
    CommandView,
>
    decreases
            if pc < ops.len() {
                ops.len() - pc
            } else {
                0
            },
{
    if pc >= ops.len() {
        Seq::empty()
    } else {
        match ops[pc as int] {
            OpView::When { span, .. } => planned(
                ops,
                answers,
                if answers(pc) {
                    pc + 1
                } else {
                    pc + 1 + span as nat
                },
            ),
            OpView::Step(step) => Seq::empty().push(command_line_of(step)) + planned(
                ops,
                answers,
                pc + 1,
            ),
            _ => planned(ops, answers, pc + 1),
        }
    }
}

/// Whether the guard at each operation was said to hold as `answers` says.
#[verifier::opaque]
pub open spec fn answered(s: SessionView, replies: Seq<Reply>, answers: spec_fn(nat) -> bool) -> bool
    decreases replies.len(),
{
    replies.len() > 0 ==> {
        let before = run(s, replies.drop_last()).session;
        answered(s, replies.drop_last(), answers) && (before.phase == Phase::Guard
            ==> replies.last() == Reply::Answer(answers(before.pc)))
    }
}

/// The operation from which on nothing was shown or run yet.
pub open spec fn ahead(s: SessionView) -> nat {
    if s.phase == Phase::Run {
        s.pc + 1
    } else {
        s.pc
    }
}

proof fn lemma_enter_shows(s: SessionView, answers: spec_fn(nat) -> bool, pc: nat)
    requires
        s.dry_run,
        pc <= s.ops.len(),
    ensures
        pc <= s.enter(pc).session.pc,
        s.enter(pc).text == pieces_text(s.color, passed(s.ops, pc, s.enter(pc).session.pc)),
        previewed(passed(s.ops, pc, s.enter(pc).session.pc)) + planned(
            s.ops,
            answers,
            s.enter(pc).session.pc,
        ) == planned(s.ops, answers, pc),
    decreases s.ops.len() - pc,
{
    let end = s.enter(pc).session.pc;
    if pc < s.ops.len() {
        lemma_enter_shows(s, answers, pc + 1);
        if end == pc {
            assert(passed(s.ops, pc, end) == Seq::<Piece>::empty());
        } else {
            let all = passed(s.ops, pc, end);
            assert(all.drop_first() == passed(s.ops, pc + 1, end));
            assert(all.first() == piece_of(s.ops[pc as int]));
            if let OpView::Step(step) = s.ops[pc as int] {
                let first = Seq::empty().push(command_line_of(step));
                let shown = previewed(passed(s.ops, pc + 1, end));
                let rest = planned(s.ops, answers, end);
                assert((first + shown) + rest == first + (shown + rest));
            }
        }
    } else {
        assert(passed(s.ops, pc, end) == Seq::<Piece>::empty());
    }
}

proof fn lemma_enter_runs(s: SessionView, answers: spec_fn(nat) -> bool, pc: nat)
    requires
        !s.dry_run,
        pc <= s.ops.len(),
    ensures
        pc <= s.enter(pc).session.pc,
        asked_command(s.enter(pc).ask) + planned(s.ops, answers, ahead(s.enter(pc).session))
            == planned(s.ops, answers, pc),
    decreases s.ops.len() - pc,
{
    if pc < s.ops.len() {
        lemma_enter_runs(s, answers, pc + 1);
    }
}

// ---------- how a session goes on ----------

/// Whether a session, on a reply, prints `words` and begins the operation at which it is to
/// go on, with nothing changed but what it has noted.
pub open spec fn leaves(s: SessionView, reply: Reply, words: Seq<char>, from: SessionView) -> bool {
    &&& s.resumed(reply) == say(words, from.enter(goes_on_at(s, reply)))
    &&& from.ops == s.ops
    &&& from.color == s.color
    &&& from.dry_run == s.dry_run
    &&& from.before == match (s.phase, reply) {
        (Phase::Before, Reply::Output(out)) => opt_text(out),
        _ => s.before,
    }
    &&& !(s.phase == Phase::Check && reply == Reply::Answer(true) && !s.dry_run)
}

/// Whether a session, on a reply, still waits at the operation that it is at, and asks about
/// no more than a link, an entry or, where it is to empty a directory, that directory.
pub open spec fn stays(s: SessionView, reply: Reply) -> bool {
    let turn = s.resumed(reply);
    &&& turn.session.pc == s.pc
    &&& turn.session.before == s.before
    &&& turn.session.phase != Phase::Guard
    &&& s.phase != Phase::Run
    &&& s.phase != Phase::Guard
    &&& s.phase != Phase::Before
    &&& if s.phase == Phase::Check {
        &&& reply == Reply::Answer(true)
        &&& !s.dry_run
        &&& turn.session.phase == Phase::Open
        &&& turn.ask == AskView::OpenDir(s.op()->place)
    } else {
        &&& turn.session.phase != Phase::Check
        &&& turn.session.phase != Phase::Before
        &&& turn.ask is Age || turn.ask is Link || turn.ask is Unlink || turn.ask is NextEntry
            || turn.ask is RemoveEntry
    }
}

/// Whether a session, on a reply, does the one or the other.
pub open spec fn leaves_or_stays(s: SessionView, reply: Reply) -> bool {
    stays(s, reply) || exists|words: Seq<char>, from: SessionView| leaves(s, reply, words, from)
}

proof fn lemma_said_nothing(turn: TurnView)
    ensures
        say(Seq::empty(), turn) == turn,
{
    assert(Seq::<char>::empty() + turn.text == turn.text);
}

proof fn lemma_next_root_leaves(s: SessionView, reply: Reply, words: Seq<char>)
    requires
        s.wf(),
        s.phase == Phase::Age || s.phase == Phase::Link || s.phase == Phase::Unlink,
        s.resumed(reply) == say(words, s.next_root()),
    ensures
        leaves_or_stays(s, reply),
{
    let after = SessionView { next: s.next + 1, ..s };
    if s.next + 1 >= s.roots.len() {
        if s.phase == Phase::Age {
            let turn = after.proceed();
            assert(words + (stray_note() + turn.text) == (words + stray_note()) + turn.text);
            assert(leaves(s, reply, words + stray_note(), after));
        } else {
            assert(leaves(s, reply, words, after));
        }
    }
}

proof fn lemma_guard_leaves(s: SessionView, holds: bool)
    requires
        s.wf(),
        s.phase == Phase::Guard,
    ensures
        leaves_or_stays(s, Reply::Answer(holds)),
{
    let reply = Reply::Answer(holds);
    if holds {
        lemma_said_nothing(s.proceed());
        assert(leaves(s, reply, Seq::empty(), s));
    } else {
        assert(leaves(s, reply, s.op()->otherwise, s));
    }
}

proof fn lemma_report_leaves(s: SessionView, reply: Reply, out: Option<Seq<char>>)
    requires
        s.wf(),
        s.phase == Phase::Report,
        s.resumed(reply) == s.reported(s.op()->show, out),
    ensures
        leaves_or_stays(s, reply),
{
    let listed = s.with_roots(home_roots(out, s.home));
    if s.op()->show is Roots {
        if home_roots(out, s.home).len() == 0 {
            assert(leaves(s, reply, no_stray_text(s.home), listed));
        }
    } else {
        assert(leaves(s, reply, shown_text(s.op()->show, out), s));
    }
}

proof fn lemma_sweep_leaves(s: SessionView, reply: Reply, roots: Seq<Seq<char>>)
    requires
        s.wf(),
        s.phase == Phase::Roots,
        s.resumed(reply) == s.swept(roots),
    ensures
        leaves_or_stays(s, reply),
{
    let listed = s.with_roots(roots);
    if roots.len() == 0 {
        assert(leaves(s, reply, no_roots_text(s.home), listed));
    } else if s.dry_run {
        assert(leaves(s, reply, root_previews(s.color, roots), listed));
    }
}

proof fn lemma_boot_leaves(s: SessionView, reply: Reply)
    requires
        s.wf(),
        s.accepts(reply),
        s.phase == Phase::OpenBoot || s.phase == Phase::Boot,
    ensures
        leaves_or_stays(s, reply),
{
    match reply {
        Reply::Tried(Err(_)) => {
            assert(leaves(s, reply, no_boot_entries_text(), s));
        },
        Reply::Entry(Entry::End) => {
            assert(leaves(s, reply, boot_entries_text(s.count), s));
        },
        _ => {
            assert(stays(s, reply));
        },
    }
}

#[verifier::rlimit(40)]
proof fn lemma_emptying_leaves(s: SessionView, reply: Reply)
    requires
        s.wf(),
        s.accepts(reply),
        s.phase == Phase::Check || s.phase == Phase::Open || s.phase == Phase::Walk || s.phase
            == Phase::Remove,
    ensures
        leaves_or_stays(s, reply),
{
    let dir = place_text(s.home, s.op()->place);
    match reply {
        Reply::Answer(exists) if s.phase == Phase::Check => {
            if !exists {
                lemma_said_nothing(s.proceed());
                assert(leaves(s, reply, Seq::empty(), s));
            } else if s.dry_run {
                assert(leaves(s, reply, empty_preview_text(s.color, s.op()->label, dir), s));
            } else {
                assert(stays(s, reply));
            }
        },
        Reply::Tried(Err(error)) => {
            assert(leaves(s, reply, unreadable_text(s.color, dir, error@), s));
        },
        Reply::Entry(Entry::End) => {
            assert(leaves(s, reply, emptied_text(s.color, s.count), s));
        },
        _ => {
            assert(stays(s, reply));
        },
    }
}

proof fn lemma_measuring_leaves(s: SessionView, reply: Reply, out: Option<Seq<char>>)
    requires
        s.wf(),
        reply matches Reply::Output(o) && opt_text(o) == out,
        s.phase == Phase::Before && s.resumed(reply) == s.measured_before(out) || s.phase
            == Phase::After && s.resumed(reply) == s.measured_after(out),
    ensures
        leaves_or_stays(s, reply),
{
    if s.phase == Phase::Before {
        let noted = SessionView { before: out, ..s };
        lemma_said_nothing(noted.proceed());
        assert(leaves(s, reply, Seq::empty(), noted));
    } else {
        match (s.before, out) {
            (Some(before), Some(after)) => {
                assert(leaves(s, reply, store_change_text(s.color, before, after), s));
            },
            _ => {
                lemma_said_nothing(s.proceed());
                assert(leaves(s, reply, Seq::empty(), s));
            },
        }
    }
}

proof fn lemma_linked_leaves(s: SessionView, state: LinkState)
    requires
        s.wf(),
        s.phase == Phase::Link,
    ensures
        leaves_or_stays(s, Reply::Link(state)),
{
    let reply = Reply::Link(state);
    let root = s.roots[s.next as int];
    match state {
        LinkState::Symlink => {
            assert(stays(s, reply));
        },
        LinkState::Other => {
            lemma_next_root_leaves(s, reply, fate_text(s.color, root, RootFate::NotSymlink));
        },
        LinkState::Gone => {
            lemma_next_root_leaves(s, reply, fate_text(s.color, root, RootFate::Gone));
        },
    }
}

#[verifier::rlimit(40)]
pub proof fn lemma_leaves_or_stays(s: SessionView, reply: Reply)
    requires
        s.wf(),
        s.accepts(reply),
    ensures
        leaves_or_stays(s, reply),
{
    let root = s.roots[s.next as int];
    match (s.phase, reply) {
        (Phase::Guard, Reply::Answer(holds)) => {
            lemma_guard_leaves(s, holds);
        },
        (Phase::Report, Reply::Output(out)) => {
            lemma_report_leaves(s, reply, opt_text(out));
        },
        (Phase::Roots, Reply::Output(out)) => {
            lemma_sweep_leaves(s, reply, home_roots(opt_text(out), s.home));
        },
        (Phase::Age, Reply::Age(age)) => {
            lemma_next_root_leaves(s, reply, stray_text(root, age));
        },
        (Phase::Link, Reply::Link(state)) => {
            lemma_linked_leaves(s, state);
        },
        (Phase::Unlink, Reply::Tried(tried)) => {
            lemma_next_root_leaves(s, reply, fate_text(s.color, root, fate_of(tried)));
        },
        (Phase::Run, Reply::Ran(outcome)) => {
            assert(leaves(s, reply, outcome_text(s.color, outcome), s));
        },
        (Phase::OpenBoot | Phase::Boot, _) => {
            lemma_boot_leaves(s, reply);
        },
        (Phase::Before | Phase::After, Reply::Output(out)) => {
            lemma_measuring_leaves(s, reply, opt_text(out));
        },
        _ => {
            lemma_emptying_leaves(s, reply);
        },
    }
}

// ---------- what every reply keeps ----------

/// Whether a reply is the one that `answers` gives, where the session waits on a guard.
spec fn fits(s: SessionView, reply: Reply, answers: spec_fn(nat) -> bool) -> bool {
    s.phase == Phase::Guard ==> reply == Reply::Answer(answers(s.pc))
}

proof fn lemma_planned_goes_on(s: SessionView, reply: Reply, answers: spec_fn(nat) -> bool)
    requires
        s.wf(),
        s.accepts(reply),
        fits(s, reply, answers),
    ensures
        s.pc < goes_on_at(s, reply) <= s.ops.len(),
        planned(s.ops, answers, ahead(s)) == planned(s.ops, answers, goes_on_at(s, reply)),
{
}

#[verifier::rlimit(40)]
proof fn lemma_reply_shows(s: SessionView, reply: Reply, answers: spec_fn(nat) -> bool)
    requires
        s.wf(),
        s.dry_run,
        s.accepts(reply),
        fits(s, reply, answers),
    ensures
        pieces_text(s.color, replied(s, reply)) == s.resumed(reply).text,
        previewed(replied(s, reply)) + planned(s.ops, answers, s.resumed(reply).session.pc)
            == planned(s.ops, answers, s.pc),
{
    reveal(replied);
    let turn = s.resumed(reply);
    let goal = goes_on_at(s, reply);
    lemma_leaves_or_stays(s, reply);
    lemma_planned_goes_on(s, reply, answers);
    if !stays(s, reply) {
        let (words, from) = choose|words: Seq<char>, from: SessionView|
            leaves(s, reply, words, from);
        lemma_enter_shows(from, answers, goal);
        let rest = passed(s.ops, goal, turn.session.pc);
        assert(turn.text.take(turn.text.len() - pieces_text(s.color, rest).len()) == words);
        lemma_words(s.color, words);
        lemma_pieces_joined(s.color, Seq::empty().push(Piece::Words(words)), rest);
        assert(Seq::<CommandView>::empty() + previewed(rest) == previewed(rest));
    } else {
        let rest = Seq::<Piece>::empty();
        assert(turn.text.take(turn.text.len() as int) == turn.text);
        lemma_words(s.color, turn.text);
        lemma_pieces_joined(s.color, Seq::empty().push(Piece::Words(turn.text)), rest);
    }
}

proof fn lemma_reply_runs(s: SessionView, reply: Reply, answers: spec_fn(nat) -> bool)
    requires
        s.wf(),
        !s.dry_run,
        s.accepts(reply),
        fits(s, reply, answers),
        s.resumed(reply).session.phase == Phase::Run ==> s.resumed(reply).ask is Run,
    ensures
        asked_command(s.resumed(reply).ask) + planned(
            s.ops,
            answers,
            ahead(s.resumed(reply).session),
        ) == planned(s.ops, answers, ahead(s)),
{
    lemma_leaves_or_stays(s, reply);
    lemma_planned_goes_on(s, reply, answers);
    if !stays(s, reply) {
        let (words, from) = choose|words: Seq<char>, from: SessionView|
            leaves(s, reply, words, from);
        lemma_enter_runs(from, answers, goes_on_at(s, reply));
    }
}

// ---------- whole runs ----------

/// The pieces that a dry run prints make up its text; the commands previewed so far and
/// those that lie ahead are all those that are planned.
#[verifier::rlimit(40)]
pub proof fn law_dry_run_shows_what_is_planned(
    s: SessionView,
    replies: Seq<Reply>,
    answers: spec_fn(nat) -> bool,
)
    requires
        is_fresh(s),
        s.dry_run,
        follows(s, replies),
        answered(s, replies, answers),
    ensures
        run(s, replies).text == pieces_text(s.color, printed(s, replies)),
        previewed(printed(s, replies)) + planned(s.ops, answers, run(s, replies).session.pc)
            == planned(s.ops, answers, 0),
    decreases replies.len(),
{
    reveal_with_fuel(run, 1);
    reveal_with_fuel(follows, 1);
    reveal_with_fuel(answered, 1);
    reveal_with_fuel(printed, 1);
    if replies.len() == 0 {
        lemma_enter_shows(s, answers, 0);
    } else {
        let past = replies.drop_last();
        law_dry_run_shows_what_is_planned(s, past, answers);
        law_runs_stay_in_order(s, past);
        lemma_run_shows(s, run(s, past), printed(s, past), replies.last(), answers);
    }
}

proof fn lemma_run_shows(
    s: SessionView,
    before: TurnView,
    pieces: Seq<Piece>,
    reply: Reply,
    answers: spec_fn(nat) -> bool,
)
    requires
        in_order(s, before),
        s.dry_run,
        before.session.accepts(reply),
        fits(before.session, reply, answers),
        before.text == pieces_text(s.color, pieces),
        previewed(pieces) + planned(s.ops, answers, before.session.pc) == planned(
            s.ops,
            answers,
            0,
        ),
    ensures
        before.text + before.session.resumed(reply).text == pieces_text(
            s.color,
            pieces + replied(before.session, reply),
        ),
        previewed(pieces + replied(before.session, reply)) + planned(
            s.ops,
            answers,
            before.session.resumed(reply).session.pc,
        ) == planned(s.ops, answers, 0),
{
    let turn = before.session.resumed(reply);
    lemma_reply_shows(before.session, reply, answers);
    lemma_pieces_joined(s.color, pieces, replied(before.session, reply));
    let shown = previewed(pieces);
    let more = previewed(replied(before.session, reply));
    let rest = planned(s.ops, answers, turn.session.pc);
    assert((shown + more) + rest == shown + (more + rest));
}

/// The commands that a cleanup has run so far and those that lie ahead are all those that
/// are planned.
#[verifier::rlimit(40)]
pub proof fn law_cleanup_runs_what_is_planned(
    s: SessionView,
    replies: Seq<Reply>,
    answers: spec_fn(nat) -> bool,
)
    requires
        is_fresh(s),
        !s.dry_run,
        follows(s, replies),
        answered(s, replies, answers),
    ensures
        commands_run(s, replies) + planned(s.ops, answers, ahead(run(s, replies).session))
            == planned(s.ops, answers, 0),
    decreases replies.len(),
{
    reveal_with_fuel(run, 1);
    reveal_with_fuel(follows, 1);
    reveal_with_fuel(answered, 1);
    reveal_with_fuel(commands_run, 1);
    if replies.len() == 0 {
        lemma_enter_runs(s, answers, 0);
    } else {
        let past = replies.drop_last();
        law_cleanup_runs_what_is_planned(s, past, answers);
        law_runs_stay_in_order(s, past);
        law_runs_stay_in_order(s, replies);
        lemma_run_runs(s, run(s, past), commands_run(s, past), replies.last(), answers);
    }
}

proof fn lemma_run_runs(
    s: SessionView,
    before: TurnView,
    done: Seq<CommandView>,
    reply: Reply,
    answers: spec_fn(nat) -> bool,
)
    requires
        in_order(s, before),
        in_order(s, say(before.text, before.session.resumed(reply))),
        !s.dry_run,
        before.session.accepts(reply),
        fits(before.session, reply, answers),
        done + planned(s.ops, answers, ahead(before.session)) == planned(s.ops, answers, 0),
    ensures
        (done + asked_command(before.session.resumed(reply).ask)) + planned(
            s.ops,
            answers,
            ahead(before.session.resumed(reply).session),
        ) == planned(s.ops, answers, 0),
{
    let turn = before.session.resumed(reply);
    lemma_reply_runs(before.session, reply, answers);
    let more = asked_command(turn.ask);
    let rest = planned(s.ops, answers, ahead(turn.session));
    assert((done + more) + rest == done + (more + rest));
}

// ---------- the two runs of a cleanup ----------

/// Whether an operation neither is a step nor guards any.
spec fn plans_nothing(op: OpView) -> bool {
    !(op is Step) && !(op is When)
}

proof fn lemma_nothing_planned(
    ops: Seq<OpView>,
    answers: spec_fn(nat) -> bool,
    n: nat,
    pc: nat,
)
    requires
        n <= pc,
        forall|i: int| n <= i < ops.len() ==> plans_nothing(#[trigger] ops[i]),
    ensures
        planned(ops, answers, pc) == Seq::<CommandView>::empty(),
    decreases
            if pc < ops.len() {
                ops.len() - pc
            } else {
                0
            },
{
    if pc < ops.len() {
        assert(plans_nothing(ops[pc as int]));
        lemma_nothing_planned(ops, answers, n, pc + 1);
    }
}

/// Two scripts that agree on their first `n` operations, but for some that plan nothing,
/// and plan nothing after them, plan the same.
proof fn lemma_same_plan(
    a: Seq<OpView>,
    b: Seq<OpView>,
    answers: spec_fn(nat) -> bool,
    n: nat,
    pc: nat,
)
    requires
        n <= a.len(),
        n <= b.len(),
        forall|i: int|
            0 <= i < n ==> #[trigger] a[i] == #[trigger] b[i] || plans_nothing(a[i])
                && plans_nothing(b[i]),
        forall|i: int| n <= i < a.len() ==> plans_nothing(#[trigger] a[i]),
        forall|i: int| n <= i < b.len() ==> plans_nothing(#[trigger] b[i]),
    ensures
        planned(a, answers, pc) == planned(b, answers, pc),
    decreases
            if pc < n {
                n - pc
            } else {
                0
            },
{
    if pc >= n {
        lemma_nothing_planned(a, answers, n, pc);
        lemma_nothing_planned(b, answers, n, pc);
    } else {
        assert(a[pc as int] == b[pc as int] || plans_nothing(a[pc as int]) && plans_nothing(
            b[pc as int],
        ));
        lemma_same_plan(a, b, answers, n, pc + 1);
        if let OpView::When { span, .. } = a[pc as int] {
            lemma_same_plan(a, b, answers, n, pc + 1 + span as nat);
        }
    }
}

proof fn lemma_cleanups_plan_the_same(
    a_color: bool,
    b_color: bool,
    journal: Seq<char>,
    answers: spec_fn(nat) -> bool,
)
    ensures
        planned(clean_script(a_color, true, journal), answers, 0) == planned(
            clean_script(b_color, false, journal),
            answers,
            0,
        ),
{
    let plan = clean::generations_part() + clean::store_part() + clean::journal_part(journal)
        + clean::containers_part() + clean::leftovers_part() + clean::tools_part();
    lemma_same_plan_between(
        clean::opening_part(a_color, true),
        clean::opening_part(b_color, false),
        plan,
        clean::ending_part(a_color, true),
        clean::ending_part(b_color, false),
        answers,
    );
    assert((clean::opening_part(a_color, true) + plan) + clean::ending_part(a_color, true)
        == clean_script(a_color, true, journal));
    assert((clean::opening_part(b_color, false) + plan) + clean::ending_part(b_color, false)
        == clean_script(b_color, false, journal));
}

proof fn lemma_same_plan_between(
    a_opening: Seq<OpView>,
    b_opening: Seq<OpView>,
    plan: Seq<OpView>,
    a_ending: Seq<OpView>,
    b_ending: Seq<OpView>,
    answers: spec_fn(nat) -> bool,
)
    requires
        a_opening.len() == b_opening.len(),
        forall|i: int| 0 <= i < a_opening.len() ==> plans_nothing(#[trigger] a_opening[i]),
        forall|i: int| 0 <= i < b_opening.len() ==> plans_nothing(#[trigger] b_opening[i]),
        forall|i: int| 0 <= i < a_ending.len() ==> plans_nothing(#[trigger] a_ending[i]),
        forall|i: int| 0 <= i < b_ending.len() ==> plans_nothing(#[trigger] b_ending[i]),
    ensures
        planned((a_opening + plan) + a_ending, answers, 0) == planned(
            (b_opening + plan) + b_ending,
            answers,
            0,
        ),
{
    let a = (a_opening + plan) + a_ending;
    let b = (b_opening + plan) + b_ending;
    let n = a_opening.len() + plan.len();
    assert forall|i: int| 0 <= i < n implies #[trigger] a[i] == #[trigger] b[i] || plans_nothing(
        a[i],
    ) && plans_nothing(b[i]) by {
        if i < a_opening.len() {
            assert(a[i] == a_opening[i]);
            assert(b[i] == b_opening[i]);
        }
    }
    assert forall|i: int| n <= i < a.len() implies plans_nothing(#[trigger] a[i]) by {
        assert(a[i] == a_ending[i - n]);
    }
    assert forall|i: int| n <= i < b.len() implies plans_nothing(#[trigger] b[i]) by {
        assert(b[i] == b_ending[i - n]);
    }
    lemma_same_plan(a, b, answers, n, 0);
}

/// What a dry run shows is what a cleanup runs: when both have come to their end and each
/// guard held, or did not hold, in both, the commands whose previews the dry run has
/// printed are those that the cleanup has run, each with the same arguments and in the
/// same order. What else the dry run has printed are words, among them those on the
/// directories and links that are removed without a command.
pub proof fn law_dry_run_shows_what_runs(
    journal: Seq<char>,
    dry: SessionView,
    dry_replies: Seq<Reply>,
    cleanup: SessionView,
    replies: Seq<Reply>,
    answers: spec_fn(nat) -> bool,
)
    requires
        dry == fresh(clean_script(dry.color, true, journal), dry.home, dry.color, true),
        follows(dry, dry_replies),
        run(dry, dry_replies).ask is Finished,
        answered(dry, dry_replies, answers),
        cleanup == fresh(
            clean_script(cleanup.color, false, journal),
            cleanup.home,
            cleanup.color,
            false,
        ),
        follows(cleanup, replies),
        run(cleanup, replies).ask is Finished,
        answered(cleanup, replies, answers),
    ensures
        run(dry, dry_replies).text == pieces_text(dry.color, printed(dry, dry_replies)),
        previewed(printed(dry, dry_replies)) == commands_run(cleanup, replies),
{
    clean::lemma_clean_spans_fit(dry.color, true, journal);
    clean::lemma_clean_spans_fit(cleanup.color, false, journal);
    law_runs_stay_in_order(dry, dry_replies);
    law_runs_stay_in_order(cleanup, replies);
    law_dry_run_shows_what_is_planned(dry, dry_replies, answers);
    law_cleanup_runs_what_is_planned(cleanup, replies, answers);
    lemma_cleanups_plan_the_same(dry.color, cleanup.color, journal, answers);
    let shown = previewed(printed(dry, dry_replies));
    assert(shown + Seq::<CommandView>::empty() == shown);
    let done = commands_run(cleanup, replies);
    assert(done + Seq::<CommandView>::empty() == done);
}

} // verus!
