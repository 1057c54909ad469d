//! What a session asks for on a given machine.
//!
//! Which programs are installed and which files exist decides what a session does. Here
//! every question of a run, and every command that is run, is told from that.
use vstd::prelude::*;

use crate::clean;
use crate::clean::clean_script;
use crate::command::{command_line_of, lookup_command, opt_text, CommandView};
use crate::plan::{
    answered, asked_command, commands_run, goes_on_at, law_dry_run_shows_what_is_planned, leaves,
    lemma_leaves_or_stays, pieces_text, planned, previewed, printed, stays,
};
use crate::runs::{follows, in_order, is_fresh, law_runs_stay_in_order, run};
use crate::script::{lemma_spans_fit_joined, spans_fit, GuardView, OpView, PlaceView};
use crate::session::{
    boot_dir, fresh, guard_ask, roots_command, say, store_size_command, AskView, Phase, Reply,
    SessionView, TurnView,
};
use crate::status;
use crate::status::status_script;

verus! {

/// What decides which way a session goes: which commands succeed, which files and
/// directories exist, and whether the size of the store is known at the beginning.
pub struct Machine {
    pub succeeds: spec_fn(CommandView) -> bool,
    pub present: spec_fn(PlaceView) -> bool,
    pub measured: bool,
}

/// Whether a reply to a question is the one that a machine gives.
pub open spec fn truthful(m: Machine, s: SessionView, ask: AskView, reply: Reply) -> bool {
    &&& ask matches AskView::Succeeds(command) ==> reply == Reply::Answer((m.succeeds)(command))
    &&& ask matches AskView::Present(place) ==> reply == Reply::Answer((m.present)(place))
    &&& s.phase == Phase::Before ==> (reply matches Reply::Output(out) && out is Some == m.measured)
}

/// Whether all replies to a session are those that a machine gives.
#[verifier::opaque]
pub open spec fn on_machine(m: Machine, s: SessionView, replies: Seq<Reply>) -> bool
    decreases replies.len(),
{
    replies.len() > 0 ==> {
        let before = run(s, replies.drop_last());
        on_machine(m, s, replies.drop_last()) && truthful(
            m,
            before.session,
            before.ask,
            replies.last(),
        )
    }
}

/// A question, unless it is about a single link or an entry of a directory.
pub open spec fn question(ask: AskView) -> Seq<AskView> {
    match ask {
        AskView::Succeeds(_) | AskView::Capture(_) | AskView::Present(_) | AskView::OpenDir(_)
        | AskView::Run { .. } => Seq::empty().push(ask),
        _ => Seq::empty(),
    }
}

/// The questions that a session has asked, in order, but for those about single links and
/// entries of directories.
#[verifier::opaque]
pub open spec fn questions(s: SessionView, replies: Seq<Reply>) -> Seq<AskView>
    decreases replies.len(),
{
    if replies.len() == 0 {
        question(run(s, replies).ask)
    } else {
        questions(s, replies.drop_last()) + question(run(s, replies).ask)
    }
}

// ---------- what a script asks for ----------

/// Whether a guard holds on a machine.
pub open spec fn holds(m: Machine, guard: GuardView) -> bool {
    match guard {
        GuardView::Installed(program) => (m.succeeds)(lookup_command(program)),
        GuardView::Present(place) => (m.present)(place),
    }
}

/// What the emptying of a directory asks for once the directory is known to exist.
pub open spec fn opening(m: Machine, dry_run: bool, place: PlaceView) -> Seq<AskView> {
    if (m.present)(place) && !dry_run {
        Seq::empty().push(AskView::OpenDir(place))
    } else {
        Seq::empty()
    }
}

/// The questions that a script asks on a machine from operation `pc` on, where `noted` says
/// whether a size of the store was noted.
#[verifier::opaque]
pub open spec fn asked(m: Machine, ops: Seq<OpView>, dry_run: bool, noted: bool, pc: nat) -> Seq<
    AskView,
>
    decreases
            if pc < ops.len() {
                ops.len() - pc
            } else {
                0
            },
{
    if pc >= ops.len() {
        Seq::empty()
    } else {
        let rest = asked(m, ops, dry_run, noted, pc + 1);
        match ops[pc as int] {
            OpView::Say(_) => rest,
            OpView::When { guard, span, .. } => Seq::empty().push(guard_ask(guard)) + if holds(
                m,
                guard,
            ) {
                rest
            } else {
                asked(m, ops, dry_run, noted, pc + 1 + span as nat)
            },
            OpView::Report { command, .. } => Seq::empty().push(AskView::Capture(command)) + rest,
            OpView::BootEntries => Seq::empty().push(AskView::OpenDir(boot_dir())) + rest,
            OpView::Step(step) => if dry_run {
                rest
            } else {
                Seq::empty().push(
                    AskView::Run {
                        command: command_line_of(step),
                        filter_deleting: step.filter_deleting,
                    },
                ) + rest
            },
            OpView::SweepRoots => Seq::empty().push(AskView::Capture(roots_command())) + rest,
            OpView::Empty { place, .. } => Seq::empty().push(AskView::Present(place)) + opening(
                m,
                dry_run,
                place,
            ) + rest,
            OpView::MeasureBefore => Seq::empty().push(AskView::Capture(store_size_command()))
                + asked(m, ops, dry_run, m.measured, pc + 1),
            OpView::MeasureAfter => if noted {
                Seq::empty().push(AskView::Capture(store_size_command())) + rest
            } else {
                rest
            },
        }
    }
}

/// The questions that lie ahead of a session on a machine.
pub open spec fn ahead(m: Machine, t: SessionView) -> Seq<AskView> {
    let rest = asked(m, t.ops, t.dry_run, t.before is Some, t.pc + 1);
    match t.phase {
        Phase::Finished => Seq::empty(),
        Phase::Guard => if holds(m, t.op()->guard) {
            rest
        } else {
            asked(m, t.ops, t.dry_run, t.before is Some, t.pc + 1 + t.op()->span as nat)
        },
        Phase::Before => asked(m, t.ops, t.dry_run, m.measured, t.pc + 1),
        Phase::Check => opening(m, t.dry_run, t.op()->place) + rest,
        _ => rest,
    }
}

proof fn lemma_enter_asks(m: Machine, s: SessionView, pc: nat)
    requires
        pc <= s.ops.len(),
    ensures
        question(s.enter(pc).ask) + ahead(m, s.enter(pc).session) == asked(
            m,
            s.ops,
            s.dry_run,
            s.before is Some,
            pc,
        ),
        pc <= s.enter(pc).session.pc,
    decreases s.ops.len() - pc,
{
    reveal_with_fuel(asked, 1);
    if pc < s.ops.len() {
        lemma_enter_asks(m, s, pc + 1);
        if let OpView::Empty { place, .. } = s.ops[pc as int] {
            let one = Seq::empty().push(AskView::Present(place));
            let rest = asked(m, s.ops, s.dry_run, s.before is Some, pc + 1);
            assert(one + opening(m, s.dry_run, place) + rest == one + (opening(m, s.dry_run, place)
                + rest));
        }
    }
}

proof fn lemma_ahead_goes_on(m: Machine, s: SessionView, ask: AskView, reply: Reply)
    requires
        in_order(s, TurnView { session: s, text: Seq::empty(), ask }),
        s.accepts(reply),
        truthful(m, s, ask, reply),
    ensures
        s.pc < goes_on_at(s, reply) <= s.ops.len(),
        !(s.phase == Phase::Check && reply == Reply::Answer(true) && !s.dry_run) ==> ahead(m, s)
            == asked(
            m,
            s.ops,
            s.dry_run,
            match (s.phase, reply) {
                (Phase::Before, Reply::Output(out)) => opt_text(out) is Some,
                _ => s.before is Some,
            },
            goes_on_at(s, reply),
        ),
{
    reveal_with_fuel(asked, 1);
    if s.phase == Phase::Check {
        let rest = asked(m, s.ops, s.dry_run, s.before is Some, s.pc + 1);
        assert(Seq::<AskView>::empty() + rest == rest);
    }
}

proof fn lemma_reply_asks(m: Machine, s: SessionView, ask: AskView, reply: Reply)
    requires
        in_order(s, TurnView { session: s, text: Seq::empty(), ask }),
        s.accepts(reply),
        truthful(m, s, ask, reply),
        s.resumed(reply).session.phase == Phase::Finished ==> s.resumed(reply).ask is Finished,
        s.resumed(reply).session.ops == s.ops,
        s.resumed(reply).session.dry_run == s.dry_run,
    ensures
        question(s.resumed(reply).ask) + ahead(m, s.resumed(reply).session) == ahead(m, s),
{
    reveal_with_fuel(asked, 1);
    lemma_leaves_or_stays(s, reply);
    lemma_ahead_goes_on(m, s, ask, reply);
    if stays(s, reply) {
        lemma_staying_asks(m, s, reply);
    } else {
        let (words, from) = choose|words: Seq<char>, from: SessionView|
            leaves(s, reply, words, from);
        lemma_enter_asks(m, from, goes_on_at(s, reply));
    }
}

proof fn lemma_staying_asks(m: Machine, s: SessionView, reply: Reply)
    requires
        s.wf(),
        stays(s, reply),
        s.phase == Phase::Check ==> (m.present)(s.op()->place),
        s.phase != Phase::Finished,
        s.resumed(reply).session.phase != Phase::Finished,
        s.resumed(reply).session.ops == s.ops,
        s.resumed(reply).session.dry_run == s.dry_run,
    ensures
        question(s.resumed(reply).ask) + ahead(m, s.resumed(reply).session) == ahead(m, s),
{
    let rest = asked(m, s.ops, s.dry_run, s.before is Some, s.pc + 1);
    assert(Seq::<AskView>::empty() + rest == rest);
}

/// The questions that a session has asked so far, and those that lie ahead of it on the
/// machine, are those that its script asks on that machine.
#[verifier::rlimit(40)]
pub proof fn law_questions_of_a_run(m: Machine, s: SessionView, replies: Seq<Reply>)
    requires
        is_fresh(s),
        follows(s, replies),
        on_machine(m, s, replies),
    ensures
        questions(s, replies) + ahead(m, run(s, replies).session) == asked(
            m,
            s.ops,
            s.dry_run,
            false,
            0,
        ),
    decreases replies.len(),
{
    reveal_with_fuel(asked, 1);
    reveal_with_fuel(run, 1);
    reveal_with_fuel(follows, 1);
    reveal_with_fuel(on_machine, 1);
    reveal_with_fuel(questions, 1);
    if replies.len() == 0 {
        lemma_enter_asks(m, s, 0);
    } else {
        let past = replies.drop_last();
        law_questions_of_a_run(m, s, past);
        law_runs_stay_in_order(s, past);
        law_runs_stay_in_order(s, replies);
        lemma_run_asks(m, s, run(s, past), questions(s, past), replies.last());
    }
}

proof fn lemma_run_asks(
    m: Machine,
    s: SessionView,
    before: TurnView,
    made: Seq<AskView>,
    reply: Reply,
)
    requires
        in_order(s, before),
        in_order(s, say(before.text, before.session.resumed(reply))),
        before.session.accepts(reply),
        truthful(m, before.session, before.ask, reply),
        made + ahead(m, before.session) == asked(m, s.ops, s.dry_run, false, 0),
    ensures
        (made + question(before.session.resumed(reply).ask)) + ahead(
            m,
            before.session.resumed(reply).session,
        ) == asked(m, s.ops, s.dry_run, false, 0),
{
    let turn = before.session.resumed(reply);
    lemma_reply_asks(m, before.session, before.ask, reply);
    let more = question(turn.ask);
    let rest = ahead(m, turn.session);
    assert((made + more) + rest == made + (more + rest));
}

proof fn lemma_asked_behind(
    m: Machine,
    a: Seq<OpView>,
    b: Seq<OpView>,
    dry_run: bool,
    noted: bool,
    pc: nat,
)
    ensures
        asked(m, a + b, dry_run, noted, a.len() + pc) == asked(m, b, dry_run, noted, pc),
    decreases
            if pc < b.len() {
                b.len() - pc
            } else {
                0
            },
{
    reveal_with_fuel(asked, 1);
    if pc < b.len() {
        assert((a + b)[(a.len() + pc) as int] == b[pc as int]);
        lemma_asked_behind(m, a, b, dry_run, noted, pc + 1);
        lemma_asked_behind(m, a, b, dry_run, m.measured, pc + 1);
        if let OpView::When { span, .. } = b[pc as int] {
            lemma_asked_behind(m, a, b, dry_run, noted, pc + 1 + span as nat);
        }
    }
}

/// Whether a script neither measures the store nor leaves out more than its own operations.
pub open spec fn simple(ops: Seq<OpView>) -> bool {
    &&& spans_fit(ops)
    &&& forall|i: int| 0 <= i < ops.len() ==> !(#[trigger] ops[i] is MeasureBefore)
}

/// Two scripts one after the other ask what the one asks and then what the other asks.
proof fn lemma_asked_joined(
    m: Machine,
    a: Seq<OpView>,
    b: Seq<OpView>,
    dry_run: bool,
    noted: bool,
    pc: nat,
)
    requires
        simple(a),
        pc <= a.len(),
    ensures
        asked(m, a + b, dry_run, noted, pc) == asked(m, a, dry_run, noted, pc) + asked(
            m,
            b,
            dry_run,
            noted,
            0,
        ),
    decreases a.len() - pc,
{
    reveal_with_fuel(asked, 1);
    let end = asked(m, b, dry_run, noted, 0);
    if pc == a.len() {
        lemma_asked_behind(m, a, b, dry_run, noted, 0);
        assert(Seq::<AskView>::empty() + end == end);
    } else {
        let op = a[pc as int];
        assert((a + b)[pc as int] == op);
        lemma_asked_joined(m, a, b, dry_run, noted, pc + 1);
        let rest = asked(m, a, dry_run, noted, pc + 1);
        match op {
            OpView::When { guard, span, .. } => {
                lemma_asked_joined(m, a, b, dry_run, noted, pc + 1 + span as nat);
                let one = Seq::empty().push(guard_ask(guard));
                let other = asked(m, a, dry_run, noted, pc + 1 + span as nat);
                assert(one + (rest + end) == (one + rest) + end);
                assert(one + (other + end) == (one + other) + end);
            },
            OpView::Report { command, .. } => {
                let one = Seq::empty().push(AskView::Capture(command));
                assert(one + (rest + end) == (one + rest) + end);
            },
            OpView::BootEntries => {
                let one = Seq::empty().push(AskView::OpenDir(boot_dir()));
                assert(one + (rest + end) == (one + rest) + end);
            },
            OpView::Step(step) => {
                let one = Seq::empty().push(
                    AskView::Run {
                        command: command_line_of(step),
                        filter_deleting: step.filter_deleting,
                    },
                );
                assert(one + (rest + end) == (one + rest) + end);
            },
            OpView::SweepRoots => {
                let one = Seq::empty().push(AskView::Capture(roots_command()));
                assert(one + (rest + end) == (one + rest) + end);
            },
            OpView::Empty { place, .. } => {
                let one = Seq::empty().push(AskView::Present(place)) + opening(m, dry_run, place);
                assert(one + (rest + end) == (one + rest) + end);
            },
            OpView::MeasureAfter => {
                let one = Seq::empty().push(AskView::Capture(store_size_command()));
                assert(one + (rest + end) == (one + rest) + end);
            },
            _ => {},
        }
    }
}

// ---------- the questions of a cleanup ----------

/// The command that is written as these words.
pub open spec fn command(words: Seq<Seq<char>>) -> CommandView {
    CommandView { program: words[0], args: words.skip(1) }
}

/// The command that looks for a program.
pub open spec fn lookup(program: Seq<char>) -> CommandView {
    command(seq!["sh"@, "-c"@, "command -v "@ + program + " >/dev/null 2>&1"@])
}

/// The question for the output of a command.
pub open spec fn query(words: Seq<Seq<char>>) -> Seq<AskView> {
    seq![AskView::Capture(command(words))]
}

/// A cleanup command being run, unless this is a dry run.
pub open spec fn runs(dry_run: bool, words: Seq<Seq<char>>, filter_deleting: bool) -> Seq<AskView> {
    if dry_run {
        Seq::empty()
    } else {
        seq![AskView::Run { command: command(words), filter_deleting }]
    }
}

/// The question whether a program is installed and, if it is, what follows.
pub open spec fn if_found(m: Machine, program: Seq<char>, more: Seq<AskView>) -> Seq<AskView> {
    seq![AskView::Succeeds(lookup(program))] + if (m.succeeds)(lookup(program)) {
        more
    } else {
        Seq::empty()
    }
}

/// The question whether a file or directory exists and, if it does, what follows.
pub open spec fn if_there(m: Machine, place: PlaceView, more: Seq<AskView>) -> Seq<AskView> {
    seq![AskView::Present(place)] + if (m.present)(place) {
        more
    } else {
        Seq::empty()
    }
}

/// A directory below the home directory being emptied, unless this is a dry run.
pub open spec fn empties(m: Machine, dry_run: bool, path: Seq<char>) -> Seq<AskView> {
    if_there(
        m,
        PlaceView::Home(path),
        if dry_run {
            Seq::empty()
        } else {
            seq![AskView::OpenDir(PlaceView::Home(path))]
        },
    )
}

proof fn lemma_lookup(program: Seq<char>)
    ensures
        lookup_command(program) == lookup(program),
{
    assert(lookup_command(program).args == lookup(program).args);
}

proof fn lemma_empties(m: Machine, dry_run: bool, path: Seq<char>)
    ensures
        Seq::empty().push(AskView::Present(PlaceView::Home(path))) + opening(
            m,
            dry_run,
            PlaceView::Home(path),
        ) == empties(m, dry_run, path),
{
}

proof fn lemma_asked_at_end(m: Machine, ops: Seq<OpView>, dry_run: bool, noted: bool, pc: nat)
    requires
        pc >= ops.len(),
    ensures
        asked(m, ops, dry_run, noted, pc) == Seq::<AskView>::empty(),
{
    reveal_with_fuel(asked, 1);
}

/// A step asks for its command to be run, unless this is a dry run.
proof fn lemma_step_asked(
    m: Machine,
    ops: Seq<OpView>,
    dry_run: bool,
    noted: bool,
    pc: nat,
    words: Seq<Seq<char>>,
    filter_deleting: bool,
)
    requires
        pc < ops.len(),
        ops[pc as int] matches OpView::Step(step) && step.filter_deleting == filter_deleting
            && command_line_of(step).program == words[0] && command_line_of(step).args
            =~= words.skip(1),
    ensures
        asked(m, ops, dry_run, noted, pc) == runs(dry_run, words, filter_deleting) + asked(
            m,
            ops,
            dry_run,
            noted,
            pc + 1,
        ),
{
    reveal_with_fuel(asked, 1);
    let rest = asked(m, ops, dry_run, noted, pc + 1);
    assert(Seq::<AskView>::empty() + rest == rest);
    assert(Seq::empty().push(
        AskView::Run { command: command(words), filter_deleting },
    ) == seq![AskView::Run { command: command(words), filter_deleting }]);
}

/// A guard asks whether a program is installed; where it is not, what it protects is left out.
proof fn lemma_guard_asked(
    m: Machine,
    ops: Seq<OpView>,
    dry_run: bool,
    noted: bool,
    pc: nat,
    program: Seq<char>,
    more: Seq<AskView>,
    rest: Seq<AskView>,
)
    requires
        pc < ops.len(),
        ops[pc as int] matches OpView::When { guard: GuardView::Installed(p), span, .. } && p
            == program && asked(m, ops, dry_run, noted, pc + 1 + span as nat) == rest,
        asked(m, ops, dry_run, noted, pc + 1) == more + rest,
    ensures
        asked(m, ops, dry_run, noted, pc) == if_found(m, program, more) + rest,
{
    reveal_with_fuel(asked, 1);
    lemma_lookup(program);
    assert(Seq::<AskView>::empty() + rest == rest);
    let one = seq![AskView::Succeeds(lookup(program))];
    assert(Seq::empty().push(AskView::Succeeds(lookup(program))) == one);
    assert(one + (more + rest) == (one + more) + rest);
    assert(one + Seq::<AskView>::empty() == one);
}

/// The emptying of a directory.
proof fn lemma_empty_asked(
    m: Machine,
    ops: Seq<OpView>,
    dry_run: bool,
    noted: bool,
    pc: nat,
    path: Seq<char>,
)
    requires
        pc < ops.len(),
        ops[pc as int] matches OpView::Empty { place: PlaceView::Home(p), .. } && p == path,
    ensures
        asked(m, ops, dry_run, noted, pc) == empties(m, dry_run, path) + asked(
            m,
            ops,
            dry_run,
            noted,
            pc + 1,
        ),
{
    reveal_with_fuel(asked, 1);
    lemma_empties(m, dry_run, path);
}

/// What is asked for old generations to be cleaned up.
pub open spec fn generations_questions(m: Machine, dry_run: bool) -> Seq<AskView> {
    runs(
        dry_run,
        seq![
            "sudo"@,
            "nix-env"@,
            "-p"@,
            "/nix/var/nix/profiles/system"@,
            "--delete-generations"@,
            "old"@,
        ],
        false,
    )
        + runs(dry_run, seq!["nix-env"@, "--delete-generations"@, "old"@], false)
        + if_found(
            m,
            "home-manager"@,
            runs(dry_run, seq!["home-manager"@, "expire-generations"@, "-1 seconds"@], false),
        )
}

proof fn lemma_generations_asked(m: Machine, dry_run: bool, noted: bool)
    ensures
        asked(m, clean::generations_part(), dry_run, noted, 0) == generations_questions(m, dry_run),
{
    let ops = clean::generations_part();
    let none = Seq::<AskView>::empty();
    assert(ops.len() == 4);
    lemma_asked_at_end(m, ops, dry_run, noted, 4);
    lemma_step_asked(
        m,
        ops,
        dry_run,
        noted,
        3,
        seq!["home-manager"@, "expire-generations"@, "-1 seconds"@],
        false,
    );
    lemma_guard_asked(
        m,
        ops,
        dry_run,
        noted,
        2,
        "home-manager"@,
        runs(dry_run, seq!["home-manager"@, "expire-generations"@, "-1 seconds"@], false),
        none,
    );
    lemma_step_asked(
        m,
        ops,
        dry_run,
        noted,
        1,
        seq!["nix-env"@, "--delete-generations"@, "old"@],
        false,
    );
    lemma_step_asked(
        m,
        ops,
        dry_run,
        noted,
        0,
        seq![
            "sudo"@,
            "nix-env"@,
            "-p"@,
            "/nix/var/nix/profiles/system"@,
            "--delete-generations"@,
            "old"@,
        ],
        false,
    );
}

/// What is asked for the store to be cleaned up.
pub open spec fn store_questions(dry_run: bool) -> Seq<AskView> {
    runs(dry_run, seq!["nix-collect-garbage"@, "-d"@], true)
        + runs(dry_run, seq!["nix"@, "store"@, "optimise"@], false)
}

proof fn lemma_store_asked(m: Machine, dry_run: bool, noted: bool)
    ensures
        asked(m, clean::store_part(), dry_run, noted, 0) == store_questions(dry_run),
{
    let ops = clean::store_part();
    assert(ops.len() == 2);
    lemma_asked_at_end(m, ops, dry_run, noted, 2);
    lemma_step_asked(m, ops, dry_run, noted, 1, seq!["nix"@, "store"@, "optimise"@], false);
    lemma_step_asked(m, ops, dry_run, noted, 0, seq!["nix-collect-garbage"@, "-d"@], true);
}

/// What is asked for the journal to be cleaned up.
pub open spec fn journal_questions(journal: Seq<char>, dry_run: bool) -> Seq<AskView> {
    if clean::journal_off(journal) {
        Seq::empty()
    } else {
        runs(dry_run, seq!["sudo"@, "journalctl"@, "--vacuum-time="@ + journal], false)
    }
}

proof fn lemma_journal_asked(m: Machine, journal: Seq<char>, dry_run: bool, noted: bool)
    ensures
        asked(m, clean::journal_part(journal), dry_run, noted, 0)
            == journal_questions(journal, dry_run),
{
    reveal_with_fuel(asked, 1);
    let ops = clean::journal_part(journal);
    if !clean::journal_off(journal) {
        lemma_asked_at_end(m, ops, dry_run, noted, 1);
        lemma_step_asked(
            m,
            ops,
            dry_run,
            noted,
            0,
            seq!["sudo"@, "journalctl"@, "--vacuum-time="@ + journal],
            false,
        );
    }
}

/// What is asked for containers to be cleaned up.
pub open spec fn containers_questions(m: Machine, dry_run: bool) -> Seq<AskView> {
    if_found(
        m,
        "docker"@,
        runs(dry_run, seq!["docker"@, "system"@, "prune"@, "-af"@, "--volumes"@], false)
            + runs(dry_run, seq!["docker"@, "builder"@, "prune"@, "-af"@], false),
    )
        + if_found(
            m,
            "podman"@,
            runs(dry_run, seq!["podman"@, "system"@, "prune"@, "-af"@, "--volumes"@], false)
                + runs(dry_run, seq!["podman"@, "image"@, "prune"@, "-af"@], false),
        )
}

proof fn lemma_containers_asked(m: Machine, dry_run: bool, noted: bool)
    ensures
        asked(m, clean::containers_part(), dry_run, noted, 0) == containers_questions(m, dry_run),
{
    let ops = clean::containers_part();
    let none = Seq::<AskView>::empty();
    assert(ops.len() == 6);
    lemma_asked_at_end(m, ops, dry_run, noted, 6);
    lemma_step_asked(m, ops, dry_run, noted, 5, seq!["podman"@, "image"@, "prune"@, "-af"@], false);
    lemma_step_asked(
        m,
        ops,
        dry_run,
        noted,
        4,
        seq!["podman"@, "system"@, "prune"@, "-af"@, "--volumes"@],
        false,
    );
    let podman = runs(dry_run, seq!["podman"@, "system"@, "prune"@, "-af"@, "--volumes"@], false)
        + runs(dry_run, seq!["podman"@, "image"@, "prune"@, "-af"@], false);
    assert(asked(m, ops, dry_run, noted, 4) == podman + none);
    lemma_guard_asked(m, ops, dry_run, noted, 3, "podman"@, podman, none);
    let rest = asked(m, ops, dry_run, noted, 3);
    lemma_step_asked(
        m,
        ops,
        dry_run,
        noted,
        2,
        seq!["docker"@, "builder"@, "prune"@, "-af"@],
        false,
    );
    lemma_step_asked(
        m,
        ops,
        dry_run,
        noted,
        1,
        seq!["docker"@, "system"@, "prune"@, "-af"@, "--volumes"@],
        false,
    );
    let docker = runs(dry_run, seq!["docker"@, "system"@, "prune"@, "-af"@, "--volumes"@], false)
        + runs(dry_run, seq!["docker"@, "builder"@, "prune"@, "-af"@], false);
    assert(asked(m, ops, dry_run, noted, 1) == docker + rest);
    lemma_guard_asked(m, ops, dry_run, noted, 0, "docker"@, docker, rest);
}

/// What is asked for stray roots, caches, the trash and core dumps to be cleaned up.
pub open spec fn leftovers_questions(m: Machine, dry_run: bool) -> Seq<AskView> {
    query(seq!["nix-store"@, "--gc"@, "--print-roots"@])
        + empties(m, dry_run, ".cache"@)
        + empties(m, dry_run, ".local/share/Trash"@)
        + if_there(
            m,
            PlaceView::At("/var/lib/systemd/coredump"@),
            runs(
                dry_run,
                seq![
                    "sudo"@,
                    "find"@,
                    "/var/lib/systemd/coredump"@,
                    "-mindepth"@,
                    "1"@,
                    "-delete"@,
                ],
                false,
            ),
        )
}

proof fn lemma_leftovers_asked(m: Machine, dry_run: bool, noted: bool)
    ensures
        asked(m, clean::leftovers_part(), dry_run, noted, 0) == leftovers_questions(m, dry_run),
{
    reveal_with_fuel(asked, 1);
    let ops = clean::leftovers_part();
    assert(ops.len() == 5);
    lemma_asked_at_end(m, ops, dry_run, noted, 5);
    lemma_step_asked(
        m,
        ops,
        dry_run,
        noted,
        4,
        seq!["sudo"@, "find"@, "/var/lib/systemd/coredump"@, "-mindepth"@, "1"@, "-delete"@],
        false,
    );
    let dumps = runs(
        dry_run,
        seq!["sudo"@, "find"@, "/var/lib/systemd/coredump"@, "-mindepth"@, "1"@, "-delete"@],
        false,
    );
    let there = PlaceView::At("/var/lib/systemd/coredump"@);
    assert(asked(m, ops, dry_run, noted, 4) == dumps);
    assert(asked(m, ops, dry_run, noted, 3) == if_there(m, there, dumps));
    lemma_empty_asked(m, ops, dry_run, noted, 2, ".local/share/Trash"@);
    lemma_empty_asked(m, ops, dry_run, noted, 1, ".cache"@);
    let roots = seq!["nix-store"@, "--gc"@, "--print-roots"@];
    assert(roots_command().args == command(roots).args);
    assert(asked(m, ops, dry_run, noted, 0) == query(roots) + asked(m, ops, dry_run, noted, 1));
}

/// What is asked for the caches of development tools to be cleaned up.
pub open spec fn tools_questions(m: Machine, dry_run: bool) -> Seq<AskView> {
    if_found(
        m,
        "cargo"@,
        empties(m, dry_run, ".cargo/registry/cache"@) + empties(m, dry_run, ".cargo/registry/src"@),
    )
        + if_found(m, "npm"@, runs(dry_run, seq!["npm"@, "cache"@, "clean"@, "--force"@], false))
        + if_found(m, "go"@, empties(m, dry_run, ".cache/go-build"@))
}

proof fn lemma_tools_asked(m: Machine, dry_run: bool, noted: bool)
    ensures
        asked(m, clean::tools_part(), dry_run, noted, 0) == tools_questions(m, dry_run),
{
    let ops = clean::tools_part();
    let none = Seq::<AskView>::empty();
    assert(ops.len() == 7);
    lemma_asked_at_end(m, ops, dry_run, noted, 7);
    lemma_empty_asked(m, ops, dry_run, noted, 6, ".cache/go-build"@);
    let go = empties(m, dry_run, ".cache/go-build"@);
    lemma_guard_asked(m, ops, dry_run, noted, 5, "go"@, go, none);
    let last = if_found(m, "go"@, go);
    assert(last + none == last);
    lemma_step_asked(
        m,
        ops,
        dry_run,
        noted,
        4,
        seq!["npm"@, "cache"@, "clean"@, "--force"@],
        false,
    );
    lemma_guard_asked(
        m,
        ops,
        dry_run,
        noted,
        3,
        "npm"@,
        runs(dry_run, seq!["npm"@, "cache"@, "clean"@, "--force"@], false),
        last,
    );
    let rest = asked(m, ops, dry_run, noted, 3);
    lemma_empty_asked(m, ops, dry_run, noted, 2, ".cargo/registry/src"@);
    lemma_empty_asked(m, ops, dry_run, noted, 1, ".cargo/registry/cache"@);
    let one = empties(m, dry_run, ".cargo/registry/cache"@);
    let other = empties(m, dry_run, ".cargo/registry/src"@);
    let cargo = one + other;
    lemma_three(one, other, rest);
    lemma_guard_asked(m, ops, dry_run, noted, 0, "cargo"@, cargo, rest);
    let npm = runs(dry_run, seq!["npm"@, "cache"@, "clean"@, "--force"@], false);
    lemma_three(if_found(m, "cargo"@, cargo), if_found(m, "npm"@, npm), last);
}

proof fn lemma_three<T>(a: Seq<T>, b: Seq<T>, c: Seq<T>)
    ensures
        a + (b + c) == (a + b) + c,
{
}

proof fn lemma_ending_asked(m: Machine, color: bool, last_words: bool, dry_run: bool, noted: bool)
    ensures
        asked(m, clean::ending_part(color, last_words), dry_run, noted, 0)
            == if last_words || !noted {
            Seq::empty()
        } else {
            query(seq!["du"@, "-sh"@, "/nix/store"@])
        },
{
    reveal_with_fuel(asked, 1);
    let ops = clean::ending_part(color, last_words);
    let words = seq!["du"@, "-sh"@, "/nix/store"@];
    assert(store_size_command().args == command(words).args);
    if last_words {
        assert(asked(m, ops, dry_run, noted, 1) == Seq::<AskView>::empty());
    } else {
        assert(asked(m, ops, dry_run, noted, 2) == Seq::<AskView>::empty());
        assert(asked(m, ops, dry_run, noted, 1) == Seq::<AskView>::empty());
        assert(asked(m, ops, dry_run, noted, 0) == if noted {
            query(words)
        } else {
            Seq::empty()
        });
    }
}

/// The parts of a cleanup one after the other, where `last_words` says whether its script is
/// that of a dry run.
proof fn lemma_clean_asked(
    m: Machine,
    color: bool,
    last_words: bool,
    journal: Seq<char>,
    dry_run: bool,
)
    ensures
        asked(m, clean_script(color, last_words, journal), dry_run, false, 0) == query(
            seq!["du"@, "-sh"@, "/nix/store"@],
        ) + asked(m, clean::generations_part(), dry_run, m.measured, 0) + asked(
            m,
            clean::store_part(),
            dry_run,
            m.measured,
            0,
        ) + asked(m, clean::journal_part(journal), dry_run, m.measured, 0) + asked(
            m,
            clean::containers_part(),
            dry_run,
            m.measured,
            0,
        ) + asked(m, clean::leftovers_part(), dry_run, m.measured, 0) + asked(
            m,
            clean::tools_part(),
            dry_run,
            m.measured,
            0,
        ) + asked(m, clean::ending_part(color, last_words), dry_run, m.measured, 0),
{
    lemma_parts_are_simple(journal);
    lemma_joined_behind_opening(
        m,
        clean::opening_part(color, last_words),
        clean::generations_part(),
        clean::store_part(),
        clean::journal_part(journal),
        clean::containers_part(),
        clean::leftovers_part(),
        clean::tools_part(),
        clean::ending_part(color, last_words),
        dry_run,
    );
}

pub proof fn lemma_parts_are_simple(journal: Seq<char>)
    ensures
        simple(clean::generations_part()),
        simple(clean::store_part()),
        simple(clean::journal_part(journal)),
        simple(clean::containers_part()),
        simple(clean::leftovers_part()),
        simple(clean::tools_part()),
{
}

proof fn lemma_joined_behind_opening(
    m: Machine,
    first: Seq<OpView>,
    a: Seq<OpView>,
    b: Seq<OpView>,
    c: Seq<OpView>,
    d: Seq<OpView>,
    e: Seq<OpView>,
    f: Seq<OpView>,
    g: Seq<OpView>,
    dry_run: bool,
)
    requires
        first.len() == 2,
        first[0] is Say,
        first[1] is MeasureBefore,
        simple(a),
        simple(b),
        simple(c),
        simple(d),
        simple(e),
        simple(f),
    ensures
        asked(m, first + a + b + c + d + e + f + g, dry_run, false, 0) == query(
            seq!["du"@, "-sh"@, "/nix/store"@],
        ) + asked(m, a, dry_run, m.measured, 0) + asked(m, b, dry_run, m.measured, 0) + asked(
            m,
            c,
            dry_run,
            m.measured,
            0,
        ) + asked(m, d, dry_run, m.measured, 0) + asked(m, e, dry_run, m.measured, 0) + asked(
            m,
            f,
            dry_run,
            m.measured,
            0,
        ) + asked(m, g, dry_run, m.measured, 0),
{
    let known = m.measured;
    let rest = a + (b + (c + (d + (e + (f + g)))));
    lemma_regrouped(first, a, b, c, d, e, f, g);
    lemma_six_joined(m, a, b, c, d, e, f, g, dry_run, known);
    lemma_behind_opening(m, first, rest, dry_run);
    lemma_regrouped(
        query(seq!["du"@, "-sh"@, "/nix/store"@]),
        asked(m, a, dry_run, known, 0),
        asked(m, b, dry_run, known, 0),
        asked(m, c, dry_run, known, 0),
        asked(m, d, dry_run, known, 0),
        asked(m, e, dry_run, known, 0),
        asked(m, f, dry_run, known, 0),
        asked(m, g, dry_run, known, 0),
    );
}

proof fn lemma_behind_opening(m: Machine, first: Seq<OpView>, rest: Seq<OpView>, dry_run: bool)
    requires
        first.len() == 2,
        first[0] is Say,
        first[1] is MeasureBefore,
    ensures
        asked(m, first + rest, dry_run, false, 0) == query(seq!["du"@, "-sh"@, "/nix/store"@])
            + asked(m, rest, dry_run, m.measured, 0),
{
    reveal_with_fuel(asked, 1);
    let ops = first + rest;
    lemma_asked_behind(m, first, rest, dry_run, m.measured, 0);
    let words = seq!["du"@, "-sh"@, "/nix/store"@];
    assert(store_size_command().args == command(words).args);
    assert(ops[0] == first[0] && ops[1] == first[1]);
    assert(asked(m, ops, dry_run, false, 1) == query(words) + asked(
        m,
        ops,
        dry_run,
        m.measured,
        2,
    ));
    assert(asked(m, ops, dry_run, false, 0) == asked(m, ops, dry_run, false, 1));
}

pub proof fn lemma_regrouped<T>(
    x: Seq<T>,
    a: Seq<T>,
    b: Seq<T>,
    c: Seq<T>,
    d: Seq<T>,
    e: Seq<T>,
    f: Seq<T>,
    g: Seq<T>,
)
    ensures
        x + (a + (b + (c + (d + (e + (f + g)))))) == x + a + b + c + d + e + f + g,
{
    assert(x + (a + (b + (c + (d + (e + (f + g)))))) == x + a + (b + (c + (d + (e + (f + g))))));
    let y = x + a + b;
    assert(x + a + (b + (c + (d + (e + (f + g))))) == y + (c + (d + (e + (f + g)))));
    assert(y + (c + (d + (e + (f + g)))) == y + c + (d + (e + (f + g))));
    let z = y + c + d;
    assert(y + c + (d + (e + (f + g))) == z + (e + (f + g)));
    assert(z + (e + (f + g)) == z + e + (f + g));
    assert(z + e + (f + g) == z + e + f + g);
}

proof fn lemma_six_joined(
    m: Machine,
    a: Seq<OpView>,
    b: Seq<OpView>,
    c: Seq<OpView>,
    d: Seq<OpView>,
    e: Seq<OpView>,
    f: Seq<OpView>,
    g: Seq<OpView>,
    dry_run: bool,
    noted: bool,
)
    requires
        simple(a),
        simple(b),
        simple(c),
        simple(d),
        simple(e),
        simple(f),
    ensures
        asked(m, a + (b + (c + (d + (e + (f + g))))), dry_run, noted, 0) == asked(
            m,
            a,
            dry_run,
            noted,
            0,
        ) + (asked(m, b, dry_run, noted, 0) + (asked(m, c, dry_run, noted, 0) + (asked(
            m,
            d,
            dry_run,
            noted,
            0,
        ) + (asked(m, e, dry_run, noted, 0) + (asked(m, f, dry_run, noted, 0) + asked(
            m,
            g,
            dry_run,
            noted,
            0,
        )))))),
{
    lemma_asked_joined(m, f, g, dry_run, noted, 0);
    lemma_asked_joined(m, e, f + g, dry_run, noted, 0);
    lemma_asked_joined(m, d, e + (f + g), dry_run, noted, 0);
    lemma_asked_joined(m, c, d + (e + (f + g)), dry_run, noted, 0);
    lemma_asked_joined(m, b, c + (d + (e + (f + g))), dry_run, noted, 0);
    lemma_asked_joined(m, a, b + (c + (d + (e + (f + g)))), dry_run, noted, 0);
}

/// What a cleanup asks for, in order: the size of the store, what cleans up each part, and
/// the size of the store again if it was known before.
pub open spec fn cleanup_questions(m: Machine, journal: Seq<char>, dry_run: bool) -> Seq<AskView> {
    query(seq!["du"@, "-sh"@, "/nix/store"@]) + generations_questions(m, dry_run)
        + store_questions(dry_run) + journal_questions(journal, dry_run) + containers_questions(
        m,
        dry_run,
    ) + leftovers_questions(m, dry_run) + tools_questions(m, dry_run) + if dry_run || !m.measured {
        Seq::empty()
    } else {
        query(seq!["du"@, "-sh"@, "/nix/store"@])
    }
}

proof fn lemma_cleanup_questions(m: Machine, color: bool, journal: Seq<char>, dry_run: bool)
    ensures
        asked(m, clean_script(color, dry_run, journal), dry_run, false, 0) == cleanup_questions(
            m,
            journal,
            dry_run,
        ),
{
    let known = m.measured;
    lemma_clean_asked(m, color, dry_run, journal, dry_run);
    lemma_generations_asked(m, dry_run, known);
    lemma_store_asked(m, dry_run, known);
    lemma_journal_asked(m, journal, dry_run, known);
    lemma_containers_asked(m, dry_run, known);
    lemma_leftovers_asked(m, dry_run, known);
    lemma_tools_asked(m, dry_run, known);
    lemma_ending_asked(m, color, dry_run, dry_run, known);
}

/// All that a finished cleanup, or a finished dry run of one, has asked for, in order: each
/// tool is looked for by itself and cleaned up exactly if it is found, and a directory is
/// emptied exactly if it exists. Only questions on single links and entries are left out.
pub proof fn law_questions_of_a_cleanup(
    m: Machine,
    journal: Seq<char>,
    s: SessionView,
    replies: Seq<Reply>,
)
    requires
        s == fresh(clean_script(s.color, s.dry_run, journal), s.home, s.color, s.dry_run),
        follows(s, replies),
        on_machine(m, s, replies),
        run(s, replies).ask is Finished,
    ensures
        questions(s, replies) == cleanup_questions(m, journal, s.dry_run),
{
    clean::lemma_clean_spans_fit(s.color, s.dry_run, journal);
    law_runs_stay_in_order(s, replies);
    law_questions_of_a_run(m, s, replies);
    assert(questions(s, replies) + Seq::<AskView>::empty() == questions(s, replies));
    lemma_cleanup_questions(m, s.color, journal, s.dry_run);
}

// ---------- the commands of a cleanup ----------

/// The commands that are to be run, of several questions.
pub open spec fn commands_in(asks: Seq<AskView>) -> Seq<CommandView>
    decreases asks.len(),
{
    if asks.len() == 0 {
        Seq::empty()
    } else {
        commands_in(asks.drop_last()) + asked_command(asks.last())
    }
}

/// The one command that is written as these words.
pub open spec fn one(words: Seq<Seq<char>>) -> Seq<CommandView> {
    seq![command(words)]
}

proof fn lemma_commands_joined(a: Seq<AskView>, b: Seq<AskView>)
    ensures
        commands_in(a + b) == commands_in(a) + commands_in(b),
    decreases b.len(),
{
    if b.len() == 0 {
        assert(a + b == a);
    } else {
        assert((a + b).drop_last() == a + b.drop_last());
        assert((a + b).last() == b.last());
        lemma_commands_joined(a, b.drop_last());
    }
}

proof fn lemma_commands_in_one(ask: AskView)
    ensures
        commands_in(Seq::empty().push(ask)) == asked_command(ask),
        commands_in(seq![ask]) == asked_command(ask),
        commands_in(Seq::empty()) == Seq::<CommandView>::empty(),
{
    let none = Seq::<AskView>::empty();
    assert(none.push(ask).drop_last() == none);
    assert(seq![ask] == none.push(ask));
    assert(commands_in(none) == Seq::<CommandView>::empty());
    assert(Seq::<CommandView>::empty() + asked_command(ask) == asked_command(ask));
}

proof fn lemma_commands_run(s: SessionView, replies: Seq<Reply>)
    ensures
        commands_run(s, replies) == commands_in(questions(s, replies)),
    decreases replies.len(),
{
    reveal_with_fuel(commands_run, 1);
    reveal_with_fuel(questions, 1);
    let ask = run(s, replies).ask;
    lemma_commands_in_one(ask);
    if replies.len() > 0 {
        lemma_commands_run(s, replies.drop_last());
        lemma_commands_joined(questions(s, replies.drop_last()), question(ask));
    }
}

proof fn lemma_commands_of_parts(words: Seq<Seq<char>>, filter: bool)
    ensures
        commands_in(runs(false, words, filter)) == one(words),
        commands_in(query(words)) == Seq::<CommandView>::empty(),
{
    lemma_commands_in_one(AskView::Run { command: command(words), filter_deleting: filter });
    lemma_commands_in_one(AskView::Capture(command(words)));
    assert(Seq::empty().push(command(words)) == one(words));
}

proof fn lemma_commands_if_found(m: Machine, program: Seq<char>, more: Seq<AskView>)
    ensures
        commands_in(if_found(m, program, more)) == if (m.succeeds)(lookup(program)) {
            commands_in(more)
        } else {
            Seq::empty()
        },
{
    let ask = AskView::Succeeds(lookup(program));
    lemma_commands_in_one(ask);
    lemma_commands_joined(seq![ask], more);
    lemma_commands_joined(seq![ask], Seq::empty());
    assert(Seq::<CommandView>::empty() + commands_in(more) == commands_in(more));
}

proof fn lemma_commands_if_there(m: Machine, place: PlaceView, more: Seq<AskView>)
    ensures
        commands_in(if_there(m, place, more)) == if (m.present)(place) {
            commands_in(more)
        } else {
            Seq::empty()
        },
{
    let ask = AskView::Present(place);
    lemma_commands_in_one(ask);
    lemma_commands_joined(seq![ask], more);
    lemma_commands_joined(seq![ask], Seq::empty());
    assert(Seq::<CommandView>::empty() + commands_in(more) == commands_in(more));
}

proof fn lemma_commands_empties(m: Machine, path: Seq<char>)
    ensures
        commands_in(empties(m, false, path)) == Seq::<CommandView>::empty(),
{
    let place = PlaceView::Home(path);
    lemma_commands_in_one(AskView::OpenDir(place));
    lemma_commands_if_there(m, place, seq![AskView::OpenDir(place)]);
}

/// The commands that clean up old generations.
pub open spec fn generations_commands(m: Machine) -> Seq<CommandView> {
    one(
        seq![
            "sudo"@,
            "nix-env"@,
            "-p"@,
            "/nix/var/nix/profiles/system"@,
            "--delete-generations"@,
            "old"@,
        ],
    )
        + one(seq!["nix-env"@, "--delete-generations"@, "old"@])
        + (
            if (m.succeeds)(lookup("home-manager"@)) {
                one(seq!["home-manager"@, "expire-generations"@, "-1 seconds"@])
            } else { Seq::<CommandView>::empty() }
        )
}

proof fn lemma_commands_of_generations(m: Machine, noted: bool)
    ensures
        commands_in(asked(m, clean::generations_part(), false, noted, 0))
            == generations_commands(m),
{
    lemma_generations_asked(m, false, noted);
    let a = runs(
        false,
        seq![
            "sudo"@,
            "nix-env"@,
            "-p"@,
            "/nix/var/nix/profiles/system"@,
            "--delete-generations"@,
            "old"@,
        ],
        false,
    );
    let b = runs(false, seq!["nix-env"@, "--delete-generations"@, "old"@], false);
    let c = runs(false, seq!["home-manager"@, "expire-generations"@, "-1 seconds"@], false);
    lemma_commands_of_parts(
        seq![
            "sudo"@,
            "nix-env"@,
            "-p"@,
            "/nix/var/nix/profiles/system"@,
            "--delete-generations"@,
            "old"@,
        ],
        false,
    );
    lemma_commands_of_parts(seq!["nix-env"@, "--delete-generations"@, "old"@], false);
    lemma_commands_of_parts(seq!["home-manager"@, "expire-generations"@, "-1 seconds"@], false);
    lemma_commands_if_found(m, "home-manager"@, c);
    lemma_commands_joined(a, b);
    lemma_commands_joined(a + b, if_found(m, "home-manager"@, c));
}

/// The commands that clean up the store.
pub open spec fn store_commands() -> Seq<CommandView> {
    one(seq!["nix-collect-garbage"@, "-d"@]) + one(seq!["nix"@, "store"@, "optimise"@])
}

proof fn lemma_commands_of_store(m: Machine, noted: bool)
    ensures
        commands_in(asked(m, clean::store_part(), false, noted, 0)) == store_commands(),
{
    lemma_store_asked(m, false, noted);
    let a = runs(false, seq!["nix-collect-garbage"@, "-d"@], true);
    let b = runs(false, seq!["nix"@, "store"@, "optimise"@], false);
    lemma_commands_of_parts(seq!["nix-collect-garbage"@, "-d"@], true);
    lemma_commands_of_parts(seq!["nix"@, "store"@, "optimise"@], false);
    lemma_commands_joined(a, b);
}

/// The commands that clean up the journal.
pub open spec fn journal_commands(journal: Seq<char>) -> Seq<CommandView> {
    if clean::journal_off(journal) { Seq::<CommandView>::empty() } else {
        one(seq!["sudo"@, "journalctl"@, "--vacuum-time="@ + journal])
    }
}

proof fn lemma_commands_of_journal(m: Machine, journal: Seq<char>, noted: bool)
    ensures
        commands_in(asked(m, clean::journal_part(journal), false, noted, 0))
            == journal_commands(journal),
{
    lemma_journal_asked(m, journal, false, noted);
    lemma_commands_in_one(AskView::Finished);
    lemma_commands_of_parts(seq!["sudo"@, "journalctl"@, "--vacuum-time="@ + journal], false);
}

/// The commands that clean up containers.
pub open spec fn containers_commands(m: Machine) -> Seq<CommandView> {
    (
        if (m.succeeds)(lookup("docker"@)) {
            one(seq!["docker"@, "system"@, "prune"@, "-af"@, "--volumes"@])
                + one(seq!["docker"@, "builder"@, "prune"@, "-af"@])
        } else { Seq::<CommandView>::empty() }
    )
        + (
            if (m.succeeds)(lookup("podman"@)) {
                one(seq!["podman"@, "system"@, "prune"@, "-af"@, "--volumes"@])
                    + one(seq!["podman"@, "image"@, "prune"@, "-af"@])
            } else { Seq::<CommandView>::empty() }
        )
}

proof fn lemma_commands_of_containers(m: Machine, noted: bool)
    ensures
        commands_in(asked(m, clean::containers_part(), false, noted, 0)) == containers_commands(m),
{
    lemma_containers_asked(m, false, noted);
    let a = runs(false, seq!["docker"@, "system"@, "prune"@, "-af"@, "--volumes"@], false);
    let b = runs(false, seq!["docker"@, "builder"@, "prune"@, "-af"@], false);
    let c = runs(false, seq!["podman"@, "system"@, "prune"@, "-af"@, "--volumes"@], false);
    let d = runs(false, seq!["podman"@, "image"@, "prune"@, "-af"@], false);
    lemma_commands_of_parts(seq!["docker"@, "system"@, "prune"@, "-af"@, "--volumes"@], false);
    lemma_commands_of_parts(seq!["docker"@, "builder"@, "prune"@, "-af"@], false);
    lemma_commands_of_parts(seq!["podman"@, "system"@, "prune"@, "-af"@, "--volumes"@], false);
    lemma_commands_of_parts(seq!["podman"@, "image"@, "prune"@, "-af"@], false);
    lemma_commands_joined(a, b);
    lemma_commands_joined(c, d);
    lemma_commands_if_found(m, "docker"@, a + b);
    lemma_commands_if_found(m, "podman"@, c + d);
    lemma_commands_joined(if_found(m, "docker"@, a + b), if_found(m, "podman"@, c + d));
}

/// The commands that clean up core dumps.
pub open spec fn leftovers_commands(m: Machine) -> Seq<CommandView> {
    if (m.present)(PlaceView::At("/var/lib/systemd/coredump"@)) {
        one(
            seq![
                "sudo"@,
                "find"@,
                "/var/lib/systemd/coredump"@,
                "-mindepth"@,
                "1"@,
                "-delete"@,
            ],
        )
    } else { Seq::<CommandView>::empty() }
}

proof fn lemma_commands_of_leftovers(m: Machine, noted: bool)
    ensures
        commands_in(asked(m, clean::leftovers_part(), false, noted, 0)) == leftovers_commands(m),
{
    lemma_leftovers_asked(m, false, noted);
    let roots = seq!["nix-store"@, "--gc"@, "--print-roots"@];
    let a = query(roots);
    let b = empties(m, false, ".cache"@);
    let c = empties(m, false, ".local/share/Trash"@);
    let there = PlaceView::At("/var/lib/systemd/coredump"@);
    let d = runs(
        false,
        seq!["sudo"@, "find"@, "/var/lib/systemd/coredump"@, "-mindepth"@, "1"@, "-delete"@],
        false,
    );
    lemma_commands_of_parts(roots, false);
    lemma_commands_of_parts(
        seq!["sudo"@, "find"@, "/var/lib/systemd/coredump"@, "-mindepth"@, "1"@, "-delete"@],
        false,
    );
    lemma_commands_empties(m, ".cache"@);
    lemma_commands_empties(m, ".local/share/Trash"@);
    lemma_commands_if_there(m, there, d);
    lemma_commands_joined(a, b);
    lemma_commands_joined(a + b, c);
    lemma_commands_joined(a + b + c, if_there(m, there, d));
    let none = Seq::<CommandView>::empty();
    assert(none + none + none == none);
    let found = commands_in(if_there(m, there, d));
    assert(none + found == found);
}

/// The commands that clean up the caches of development tools.
pub open spec fn tools_commands(m: Machine) -> Seq<CommandView> {
    if (m.succeeds)(lookup("npm"@)) {
        one(seq!["npm"@, "cache"@, "clean"@, "--force"@])
    } else { Seq::<CommandView>::empty() }
}

proof fn lemma_commands_of_tools(m: Machine, noted: bool)
    ensures
        commands_in(asked(m, clean::tools_part(), false, noted, 0)) == tools_commands(m),
{
    lemma_tools_asked(m, false, noted);
    let a = empties(m, false, ".cargo/registry/cache"@);
    let b = empties(m, false, ".cargo/registry/src"@);
    let c = runs(false, seq!["npm"@, "cache"@, "clean"@, "--force"@], false);
    let d = empties(m, false, ".cache/go-build"@);
    let none = Seq::<CommandView>::empty();
    lemma_commands_empties(m, ".cargo/registry/cache"@);
    lemma_commands_empties(m, ".cargo/registry/src"@);
    lemma_commands_empties(m, ".cache/go-build"@);
    lemma_commands_of_parts(seq!["npm"@, "cache"@, "clean"@, "--force"@], false);
    lemma_commands_joined(a, b);
    assert(none + none == none);
    lemma_commands_if_found(m, "cargo"@, a + b);
    lemma_commands_if_found(m, "npm"@, c);
    lemma_commands_if_found(m, "go"@, d);
    lemma_commands_joined(if_found(m, "cargo"@, a + b), if_found(m, "npm"@, c));
    lemma_commands_joined(
        if_found(m, "cargo"@, a + b) + if_found(m, "npm"@, c),
        if_found(m, "go"@, d),
    );
    let npm = commands_in(if_found(m, "npm"@, c));
    assert(none + npm + none == npm);
}

proof fn lemma_commands_of_clean(m: Machine, color: bool, last_words: bool, journal: Seq<char>)
    ensures
        commands_in(asked(m, clean_script(color, last_words, journal), false, false, 0))
            == commands_in(
            asked(m, clean::generations_part(), false, m.measured, 0),
        ) + commands_in(asked(m, clean::store_part(), false, m.measured, 0)) + commands_in(
            asked(m, clean::journal_part(journal), false, m.measured, 0),
        ) + commands_in(asked(m, clean::containers_part(), false, m.measured, 0)) + commands_in(
            asked(m, clean::leftovers_part(), false, m.measured, 0),
        ) + commands_in(asked(m, clean::tools_part(), false, m.measured, 0)),
{
    let known = m.measured;
    let du = seq!["du"@, "-sh"@, "/nix/store"@];
    lemma_clean_asked(m, color, last_words, journal, false);
    lemma_ending_asked(m, color, last_words, false, known);
    lemma_commands_of_parts(du, false);
    lemma_commands_in_one(AskView::Finished);
    lemma_commands_of_eight(
        query(du),
        asked(m, clean::generations_part(), false, known, 0),
        asked(m, clean::store_part(), false, known, 0),
        asked(m, clean::journal_part(journal), false, known, 0),
        asked(m, clean::containers_part(), false, known, 0),
        asked(m, clean::leftovers_part(), false, known, 0),
        asked(m, clean::tools_part(), false, known, 0),
        asked(m, clean::ending_part(color, last_words), false, known, 0),
    );
}

proof fn lemma_commands_of_eight(
    x: Seq<AskView>,
    a: Seq<AskView>,
    b: Seq<AskView>,
    c: Seq<AskView>,
    d: Seq<AskView>,
    e: Seq<AskView>,
    f: Seq<AskView>,
    g: Seq<AskView>,
)
    requires
        commands_in(x) == Seq::<CommandView>::empty(),
        commands_in(g) == Seq::<CommandView>::empty(),
    ensures
        commands_in(x + a + b + c + d + e + f + g) == commands_in(a) + commands_in(b) + commands_in(
            c,
        ) + commands_in(d) + commands_in(e) + commands_in(f),
{
    lemma_commands_joined(x, a);
    lemma_commands_joined(x + a, b);
    lemma_commands_joined(x + a + b, c);
    lemma_commands_joined(x + a + b + c, d);
    lemma_commands_joined(x + a + b + c + d, e);
    lemma_commands_joined(x + a + b + c + d + e, f);
    lemma_commands_joined(x + a + b + c + d + e + f, g);
    assert(Seq::<CommandView>::empty() + commands_in(a) == commands_in(a));
}

/// The commands that a finished cleanup has run, in order and with their arguments. What
/// belongs to a tool is run exactly if the lookup of that tool succeeds, whatever the
/// lookups of others give.
pub proof fn law_commands_of_a_cleanup(
    m: Machine,
    journal: Seq<char>,
    s: SessionView,
    replies: Seq<Reply>,
)
    requires
        s == fresh(clean_script(s.color, false, journal), s.home, s.color, false),
        follows(s, replies),
        on_machine(m, s, replies),
        run(s, replies).ask is Finished,
    ensures
        commands_run(s, replies)
            == generations_commands(m)
                + store_commands()
                + journal_commands(journal)
                + containers_commands(m)
                + leftovers_commands(m)
                + tools_commands(m),
{
    clean::lemma_clean_spans_fit(s.color, false, journal);
    law_runs_stay_in_order(s, replies);
    law_questions_of_a_run(m, s, replies);
    assert(questions(s, replies) + Seq::<AskView>::empty() == questions(s, replies));
    lemma_commands_run(s, replies);
    lemma_commands_of_clean(m, s.color, false, journal);
    lemma_commands_of_generations(m, m.measured);
    lemma_commands_of_store(m, m.measured);
    lemma_commands_of_journal(m, journal, m.measured);
    lemma_commands_of_containers(m, m.measured);
    lemma_commands_of_leftovers(m, m.measured);
    lemma_commands_of_tools(m, m.measured);
}

proof fn lemma_contains_joined<T>(a: Seq<T>, b: Seq<T>, x: T)
    ensures
        (a + b).contains(x) <==> a.contains(x) || b.contains(x),
{
    if a.contains(x) {
        let i = choose|i: int| 0 <= i < a.len() && a[i] == x;
        assert((a + b)[i] == x);
    }
    if b.contains(x) {
        let i = choose|i: int| 0 <= i < b.len() && b[i] == x;
        assert((a + b)[a.len() + i] == x);
    }
    if (a + b).contains(x) {
        let i = choose|i: int| 0 <= i < (a + b).len() && (a + b)[i] == x;
        if i < a.len() {
            assert(a[i] == x);
        } else {
            assert(b[i - a.len()] == x);
        }
    }
}

proof fn lemma_contains_one(words: Seq<Seq<char>>, x: CommandView)
    ensures
        one(words).contains(x) <==> command(words) == x,
        !Seq::<CommandView>::empty().contains(x),
{
    assert(one(words)[0] == command(words));
}

/// Which commands are among those of a cleanup.
proof fn lemma_commands_contain(m: Machine, journal: Seq<char>, x: CommandView)
    ensures
        (generations_commands(m) + store_commands() + journal_commands(journal)
            + containers_commands(m) + leftovers_commands(m) + tools_commands(m)).contains(x) <==> {
            ||| x
                == command(
                    seq![
                        "sudo"@,
                        "nix-env"@,
                        "-p"@,
                        "/nix/var/nix/profiles/system"@,
                        "--delete-generations"@,
                        "old"@,
                    ],
                )
            ||| x == command(seq!["nix-env"@, "--delete-generations"@, "old"@])
            ||| (m.succeeds)(lookup("home-manager"@)) && x
                == command(seq!["home-manager"@, "expire-generations"@, "-1 seconds"@])
            ||| x == command(seq!["nix-collect-garbage"@, "-d"@])
            ||| x == command(seq!["nix"@, "store"@, "optimise"@])
            ||| !clean::journal_off(journal) && x
                == command(seq!["sudo"@, "journalctl"@, "--vacuum-time="@ + journal])
            ||| (m.succeeds)(lookup("docker"@)) && x
                == command(seq!["docker"@, "system"@, "prune"@, "-af"@, "--volumes"@])
            ||| (m.succeeds)(lookup("docker"@)) && x
                == command(seq!["docker"@, "builder"@, "prune"@, "-af"@])
            ||| (m.succeeds)(lookup("podman"@)) && x
                == command(seq!["podman"@, "system"@, "prune"@, "-af"@, "--volumes"@])
            ||| (m.succeeds)(lookup("podman"@)) && x
                == command(seq!["podman"@, "image"@, "prune"@, "-af"@])
            ||| (m.present)(PlaceView::At("/var/lib/systemd/coredump"@)) && x
                == command(
                    seq![
                        "sudo"@,
                        "find"@,
                        "/var/lib/systemd/coredump"@,
                        "-mindepth"@,
                        "1"@,
                        "-delete"@,
                    ],
                )
            ||| (m.succeeds)(lookup("npm"@)) && x
                == command(seq!["npm"@, "cache"@, "clean"@, "--force"@])
        },
{
    lemma_contains_one(
        seq![
            "sudo"@,
            "nix-env"@,
            "-p"@,
            "/nix/var/nix/profiles/system"@,
            "--delete-generations"@,
            "old"@,
        ],
        x,
    );
    lemma_contains_one(seq!["nix-env"@, "--delete-generations"@, "old"@], x);
    lemma_contains_one(seq!["home-manager"@, "expire-generations"@, "-1 seconds"@], x);
    lemma_contains_one(seq!["nix-collect-garbage"@, "-d"@], x);
    lemma_contains_one(seq!["nix"@, "store"@, "optimise"@], x);
    lemma_contains_one(seq!["sudo"@, "journalctl"@, "--vacuum-time="@ + journal], x);
    lemma_contains_one(seq!["docker"@, "system"@, "prune"@, "-af"@, "--volumes"@], x);
    lemma_contains_one(seq!["docker"@, "builder"@, "prune"@, "-af"@], x);
    lemma_contains_one(seq!["podman"@, "system"@, "prune"@, "-af"@, "--volumes"@], x);
    lemma_contains_one(seq!["podman"@, "image"@, "prune"@, "-af"@], x);
    lemma_contains_one(
        seq!["sudo"@, "find"@, "/var/lib/systemd/coredump"@, "-mindepth"@, "1"@, "-delete"@],
        x,
    );
    lemma_contains_one(seq!["npm"@, "cache"@, "clean"@, "--force"@], x);
    let a = generations_commands(m);
    let b = store_commands();
    let c = journal_commands(journal);
    let d = containers_commands(m);
    let e = leftovers_commands(m);
    let f = tools_commands(m);
    lemma_contains_joined(a, b, x);
    lemma_contains_joined(a + b, c, x);
    lemma_contains_joined(a + b + c, d, x);
    lemma_contains_joined(a + b + c + d, e, x);
    lemma_contains_joined(a + b + c + d + e, f, x);
    let hm = if (m.succeeds)(lookup("home-manager"@)) {
        one(seq!["home-manager"@, "expire-generations"@, "-1 seconds"@])
    } else {
        Seq::empty()
    };
    lemma_contains_joined(
        one(
            seq![
                "sudo"@,
                "nix-env"@,
                "-p"@,
                "/nix/var/nix/profiles/system"@,
                "--delete-generations"@,
                "old"@,
            ],
        ),
        one(seq!["nix-env"@, "--delete-generations"@, "old"@]),
        x,
    );
    lemma_contains_joined(
        one(
            seq![
                "sudo"@,
                "nix-env"@,
                "-p"@,
                "/nix/var/nix/profiles/system"@,
                "--delete-generations"@,
                "old"@,
            ],
        )
            + one(seq!["nix-env"@, "--delete-generations"@, "old"@]),
        hm,
        x,
    );
    lemma_contains_joined(
        one(seq!["nix-collect-garbage"@, "-d"@]),
        one(seq!["nix"@, "store"@, "optimise"@]),
        x,
    );
    let docker = one(seq!["docker"@, "system"@, "prune"@, "-af"@, "--volumes"@])
        + one(seq!["docker"@, "builder"@, "prune"@, "-af"@]);
    let podman = one(seq!["podman"@, "system"@, "prune"@, "-af"@, "--volumes"@])
        + one(seq!["podman"@, "image"@, "prune"@, "-af"@]);
    lemma_contains_joined(
        one(seq!["docker"@, "system"@, "prune"@, "-af"@, "--volumes"@]),
        one(seq!["docker"@, "builder"@, "prune"@, "-af"@]),
        x,
    );
    lemma_contains_joined(
        one(seq!["podman"@, "system"@, "prune"@, "-af"@, "--volumes"@]),
        one(seq!["podman"@, "image"@, "prune"@, "-af"@]),
        x,
    );
    let none = Seq::<CommandView>::empty();
    lemma_contains_joined(
        if (m.succeeds)(lookup("docker"@)) {
            docker
        } else {
            none
        },
        if (m.succeeds)(lookup("podman"@)) {
            podman
        } else {
            none
        },
        x,
    );
}

/// The words by which the commands of a cleanup are told apart.
proof fn lemma_words_apart()
    ensures
        "sudo"@ != "nix-env"@,
        "sudo"@ != "home-manager"@,
        "sudo"@ != "nix-collect-garbage"@,
        "sudo"@ != "nix"@,
        "sudo"@ != "docker"@,
        "sudo"@ != "podman"@,
        "sudo"@ != "npm"@,
        "nix-env"@ != "home-manager"@,
        "nix-env"@ != "nix-collect-garbage"@,
        "nix-env"@ != "nix"@,
        "nix-env"@ != "docker"@,
        "nix-env"@ != "podman"@,
        "nix-env"@ != "npm"@,
        "home-manager"@ != "nix-collect-garbage"@,
        "home-manager"@ != "nix"@,
        "home-manager"@ != "docker"@,
        "home-manager"@ != "podman"@,
        "home-manager"@ != "npm"@,
        "nix-collect-garbage"@ != "nix"@,
        "nix-collect-garbage"@ != "docker"@,
        "nix-collect-garbage"@ != "podman"@,
        "nix-collect-garbage"@ != "npm"@,
        "nix"@ != "docker"@,
        "nix"@ != "podman"@,
        "nix"@ != "npm"@,
        "docker"@ != "podman"@,
        "docker"@ != "npm"@,
        "podman"@ != "npm"@,
        "nix-env"@ != "journalctl"@,
        "nix-env"@ != "find"@,
        "journalctl"@ != "find"@,
{
    reveal_strlit("docker");
    reveal_strlit("find");
    reveal_strlit("home-manager");
    reveal_strlit("journalctl");
    reveal_strlit("nix");
    reveal_strlit("nix-collect-garbage");
    reveal_strlit("nix-env");
    reveal_strlit("npm");
    reveal_strlit("podman");
    reveal_strlit("sudo");
    assert("docker"@.len() == 6 && "docker"@[0] == 'd');
    assert("find"@.len() == 4 && "find"@[0] == 'f');
    assert("home-manager"@.len() == 12 && "home-manager"@[0] == 'h');
    assert("journalctl"@.len() == 10 && "journalctl"@[0] == 'j');
    assert("nix"@.len() == 3 && "nix"@[0] == 'n');
    assert("nix-collect-garbage"@.len() == 19 && "nix-collect-garbage"@[0] == 'n');
    assert("nix-env"@.len() == 7 && "nix-env"@[0] == 'n');
    assert("npm"@.len() == 3 && "npm"@[0] == 'n');
    assert("nix"@[1] == 'i' && "npm"@[1] == 'p');
    assert("podman"@.len() == 6 && "podman"@[0] == 'p');
    assert("sudo"@.len() == 4 && "sudo"@[0] == 's');
}

/// Each tool is cleaned up by itself: in a finished cleanup the commands of a tool are among
/// those that were run exactly if the lookup of that very tool succeeds, whatever else is
/// installed. Core dumps are deleted exactly if their directory exists, and the journal is
/// shrunk exactly if it is not to be left alone. What depends on no tool is always run.
pub proof fn law_each_tool_by_itself(
    m: Machine,
    journal: Seq<char>,
    s: SessionView,
    replies: Seq<Reply>,
)
    requires
        s == fresh(clean_script(s.color, false, journal), s.home, s.color, false),
        follows(s, replies),
        on_machine(m, s, replies),
        run(s, replies).ask is Finished,
    ensures
        commands_run(s, replies).contains(
            command(
                seq![
                    "sudo"@,
                    "nix-env"@,
                    "-p"@,
                    "/nix/var/nix/profiles/system"@,
                    "--delete-generations"@,
                    "old"@,
                ],
            ),
        ),
        commands_run(s, replies).contains(
            command(seq!["nix-env"@, "--delete-generations"@, "old"@]),
        ),
        commands_run(s, replies).contains(
            command(seq!["home-manager"@, "expire-generations"@, "-1 seconds"@]),
        ) <==> (m.succeeds)(lookup("home-manager"@)),
        commands_run(s, replies).contains(command(seq!["nix-collect-garbage"@, "-d"@])),
        commands_run(s, replies).contains(command(seq!["nix"@, "store"@, "optimise"@])),
        commands_run(s, replies).contains(
            command(seq!["sudo"@, "journalctl"@, "--vacuum-time="@ + journal]),
        ) <==> !clean::journal_off(journal),
        commands_run(s, replies).contains(
            command(seq!["docker"@, "system"@, "prune"@, "-af"@, "--volumes"@]),
        ) <==> (m.succeeds)(lookup("docker"@)),
        commands_run(s, replies).contains(
            command(seq!["docker"@, "builder"@, "prune"@, "-af"@]),
        ) <==> (m.succeeds)(lookup("docker"@)),
        commands_run(s, replies).contains(
            command(seq!["podman"@, "system"@, "prune"@, "-af"@, "--volumes"@]),
        ) <==> (m.succeeds)(lookup("podman"@)),
        commands_run(s, replies).contains(
            command(seq!["podman"@, "image"@, "prune"@, "-af"@]),
        ) <==> (m.succeeds)(lookup("podman"@)),
        commands_run(s, replies).contains(
            command(
                seq![
                    "sudo"@,
                    "find"@,
                    "/var/lib/systemd/coredump"@,
                    "-mindepth"@,
                    "1"@,
                    "-delete"@,
                ],
            ),
        ) <==> (m.present)(PlaceView::At("/var/lib/systemd/coredump"@)),
        commands_run(s, replies).contains(
            command(seq!["npm"@, "cache"@, "clean"@, "--force"@]),
        ) <==> (m.succeeds)(lookup("npm"@)),
{
    law_commands_of_a_cleanup(m, journal, s, replies);
    lemma_words_apart();
    lemma_commands_contain(
        m,
        journal,
        command(
            seq![
                "sudo"@,
                "nix-env"@,
                "-p"@,
                "/nix/var/nix/profiles/system"@,
                "--delete-generations"@,
                "old"@,
            ],
        ),
    );
    lemma_commands_contain(m, journal, command(seq!["nix-env"@, "--delete-generations"@, "old"@]));
    lemma_commands_contain(
        m,
        journal,
        command(seq!["home-manager"@, "expire-generations"@, "-1 seconds"@]),
    );
    lemma_commands_contain(m, journal, command(seq!["nix-collect-garbage"@, "-d"@]));
    lemma_commands_contain(m, journal, command(seq!["nix"@, "store"@, "optimise"@]));
    lemma_commands_contain(
        m,
        journal,
        command(seq!["sudo"@, "journalctl"@, "--vacuum-time="@ + journal]),
    );
    lemma_commands_contain(
        m,
        journal,
        command(seq!["docker"@, "system"@, "prune"@, "-af"@, "--volumes"@]),
    );
    lemma_commands_contain(m, journal, command(seq!["docker"@, "builder"@, "prune"@, "-af"@]));
    lemma_commands_contain(
        m,
        journal,
        command(seq!["podman"@, "system"@, "prune"@, "-af"@, "--volumes"@]),
    );
    lemma_commands_contain(m, journal, command(seq!["podman"@, "image"@, "prune"@, "-af"@]));
    lemma_commands_contain(
        m,
        journal,
        command(
            seq!["sudo"@, "find"@, "/var/lib/systemd/coredump"@, "-mindepth"@, "1"@, "-delete"@],
        ),
    );
    lemma_commands_contain(m, journal, command(seq!["npm"@, "cache"@, "clean"@, "--force"@]));
    lemma_which_command(
        seq![
            "sudo"@,
            "nix-env"@,
            "-p"@,
            "/nix/var/nix/profiles/system"@,
            "--delete-generations"@,
            "old"@,
        ],
        command(
            seq![
                "sudo"@,
                "nix-env"@,
                "-p"@,
                "/nix/var/nix/profiles/system"@,
                "--delete-generations"@,
                "old"@,
            ],
        ),
    );
    lemma_which_command(
        seq!["nix-env"@, "--delete-generations"@, "old"@],
        command(seq!["nix-env"@, "--delete-generations"@, "old"@]),
    );
    lemma_which_command(
        seq!["home-manager"@, "expire-generations"@, "-1 seconds"@],
        command(seq!["home-manager"@, "expire-generations"@, "-1 seconds"@]),
    );
    lemma_which_command(
        seq!["nix-collect-garbage"@, "-d"@],
        command(seq!["nix-collect-garbage"@, "-d"@]),
    );
    lemma_which_command(
        seq!["nix"@, "store"@, "optimise"@],
        command(seq!["nix"@, "store"@, "optimise"@]),
    );
    lemma_which_command(
        seq!["sudo"@, "journalctl"@, "--vacuum-time="@ + journal],
        command(seq!["sudo"@, "journalctl"@, "--vacuum-time="@ + journal]),
    );
    lemma_which_command(
        seq!["docker"@, "system"@, "prune"@, "-af"@, "--volumes"@],
        command(seq!["docker"@, "system"@, "prune"@, "-af"@, "--volumes"@]),
    );
    lemma_which_command(
        seq!["docker"@, "builder"@, "prune"@, "-af"@],
        command(seq!["docker"@, "builder"@, "prune"@, "-af"@]),
    );
    lemma_which_command(
        seq!["podman"@, "system"@, "prune"@, "-af"@, "--volumes"@],
        command(seq!["podman"@, "system"@, "prune"@, "-af"@, "--volumes"@]),
    );
    lemma_which_command(
        seq!["podman"@, "image"@, "prune"@, "-af"@],
        command(seq!["podman"@, "image"@, "prune"@, "-af"@]),
    );
    lemma_which_command(
        seq!["sudo"@, "find"@, "/var/lib/systemd/coredump"@, "-mindepth"@, "1"@, "-delete"@],
        command(
            seq!["sudo"@, "find"@, "/var/lib/systemd/coredump"@, "-mindepth"@, "1"@, "-delete"@],
        ),
    );
    lemma_which_command(
        seq!["npm"@, "cache"@, "clean"@, "--force"@],
        command(seq!["npm"@, "cache"@, "clean"@, "--force"@]),
    );
}

/// Which command a row of words is.
proof fn lemma_which_command(words: Seq<Seq<char>>, x: CommandView)
    requires
        x == command(words),
        words.len() > 1,
    ensures
        x.program == words[0],
        x.args.len() == words.len() - 1,
        x.args[0] == words[1],
{
}

/// Which guards of a script hold on a machine, by their place in the script.
spec fn answers_on(m: Machine, ops: Seq<OpView>) -> spec_fn(nat) -> bool {
    |pc: nat| holds(m, ops[pc as int]->guard)
}

proof fn lemma_planned_on(m: Machine, ops: Seq<OpView>, noted: bool, pc: nat)
    ensures
        planned(ops, answers_on(m, ops), pc) == commands_in(asked(m, ops, false, noted, pc)),
    decreases
            if pc < ops.len() {
                ops.len() - pc
            } else {
                0
            },
{
    reveal_with_fuel(asked, 1);
    lemma_commands_in_one(AskView::Finished);
    if pc < ops.len() {
        lemma_planned_on(m, ops, noted, pc + 1);
        lemma_planned_on(m, ops, m.measured, pc + 1);
        let rest = asked(m, ops, false, noted, pc + 1);
        let none = Seq::<CommandView>::empty();
        assert(none + commands_in(rest) == commands_in(rest));
        match ops[pc as int] {
            OpView::When { guard, span, .. } => {
                let at = pc + 1 + span as nat;
                lemma_planned_on(m, ops, noted, at);
                let other = asked(m, ops, false, noted, at);
                assert(none + commands_in(other) == commands_in(other));
                lemma_commands_in_one(guard_ask(guard));
                lemma_commands_joined(Seq::empty().push(guard_ask(guard)), rest);
                lemma_commands_joined(Seq::empty().push(guard_ask(guard)), other);
            },
            OpView::Report { command, .. } => {
                lemma_commands_in_one(AskView::Capture(command));
                lemma_commands_joined(Seq::empty().push(AskView::Capture(command)), rest);
            },
            OpView::BootEntries => {
                lemma_commands_in_one(AskView::OpenDir(boot_dir()));
                lemma_commands_joined(Seq::empty().push(AskView::OpenDir(boot_dir())), rest);
            },
            OpView::Step(step) => {
                let ask = AskView::Run {
                    command: command_line_of(step),
                    filter_deleting: step.filter_deleting,
                };
                lemma_commands_in_one(ask);
                lemma_commands_joined(Seq::empty().push(ask), rest);
            },
            OpView::SweepRoots => {
                lemma_commands_in_one(AskView::Capture(roots_command()));
                lemma_commands_joined(Seq::empty().push(AskView::Capture(roots_command())), rest);
            },
            OpView::Empty { place, .. } => {
                let one = Seq::empty().push(AskView::Present(place));
                lemma_commands_in_one(AskView::Present(place));
                lemma_commands_in_one(AskView::OpenDir(place));
                lemma_commands_joined(one, opening(m, false, place));
                lemma_commands_joined(one + opening(m, false, place), rest);
                assert(none + none == none);
            },
            OpView::MeasureBefore | OpView::MeasureAfter => {
                let one = Seq::empty().push(AskView::Capture(store_size_command()));
                let other = asked(m, ops, false, m.measured, pc + 1);
                assert(none + commands_in(other) == commands_in(other));
                lemma_commands_in_one(AskView::Capture(store_size_command()));
                lemma_commands_joined(one, rest);
                lemma_commands_joined(one, other);
            },
            OpView::Say(_) => {},
        }
    }
}

proof fn lemma_answered_on(m: Machine, s: SessionView, replies: Seq<Reply>)
    requires
        is_fresh(s),
        follows(s, replies),
        on_machine(m, s, replies),
    ensures
        answered(s, replies, answers_on(m, s.ops)),
    decreases replies.len(),
{
    reveal_with_fuel(follows, 1);
    reveal_with_fuel(on_machine, 1);
    reveal_with_fuel(answered, 1);
    if replies.len() > 0 {
        let past = replies.drop_last();
        lemma_answered_on(m, s, past);
        law_runs_stay_in_order(s, past);
        let before = run(s, past);
        if before.session.phase == Phase::Guard {
            assert(before.ask == guard_ask(before.session.op()->guard));
        }
    }
}

/// The commands that a finished dry run has previewed, in order and with their arguments:
/// those that a cleanup runs on the same machine.
pub proof fn law_previews_of_a_dry_run(
    m: Machine,
    journal: Seq<char>,
    s: SessionView,
    replies: Seq<Reply>,
)
    requires
        s == fresh(clean_script(s.color, true, journal), s.home, s.color, true),
        follows(s, replies),
        on_machine(m, s, replies),
        run(s, replies).ask is Finished,
    ensures
        run(s, replies).text == pieces_text(s.color, printed(s, replies)),
        previewed(printed(s, replies))
            == generations_commands(m)
                + store_commands()
                + journal_commands(journal)
                + containers_commands(m)
                + leftovers_commands(m)
                + tools_commands(m),
{
    clean::lemma_clean_spans_fit(s.color, true, journal);
    law_runs_stay_in_order(s, replies);
    lemma_answered_on(m, s, replies);
    let answers = answers_on(m, s.ops);
    law_dry_run_shows_what_is_planned(s, replies, answers);
    let shown = previewed(printed(s, replies));
    assert(shown + Seq::<CommandView>::empty() == shown);
    lemma_planned_on(m, s.ops, false, 0);
    lemma_commands_of_clean(m, s.color, true, journal);
    lemma_commands_of_generations(m, m.measured);
    lemma_commands_of_store(m, m.measured);
    lemma_commands_of_journal(m, journal, m.measured);
    lemma_commands_of_containers(m, m.measured);
    lemma_commands_of_leftovers(m, m.measured);
    lemma_commands_of_tools(m, m.measured);
}

// ---------- the questions of a status report ----------

proof fn lemma_say_asked(m: Machine, ops: Seq<OpView>, dry_run: bool, noted: bool, pc: nat)
    requires
        pc < ops.len(),
        ops[pc as int] is Say,
    ensures
        asked(m, ops, dry_run, noted, pc) == asked(m, ops, dry_run, noted, pc + 1),
{
    reveal_with_fuel(asked, 1);
}

/// A command whose output is shown.
proof fn lemma_query_asked(
    m: Machine,
    ops: Seq<OpView>,
    dry_run: bool,
    noted: bool,
    pc: nat,
    words: Seq<Seq<char>>,
)
    requires
        pc < ops.len(),
        ops[pc as int] matches OpView::Report { command: c, .. } && c.program == words[0] && c.args
            =~= words.skip(1),
    ensures
        asked(m, ops, dry_run, noted, pc) == query(words) + asked(m, ops, dry_run, noted, pc + 1),
{
    reveal_with_fuel(asked, 1);
    assert(Seq::empty().push(AskView::Capture(command(words))) == query(words));
}

/// A guard asks whether a file exists; where it does not, what it protects is left out.
proof fn lemma_there_asked(
    m: Machine,
    ops: Seq<OpView>,
    dry_run: bool,
    noted: bool,
    pc: nat,
    path: Seq<char>,
    more: Seq<AskView>,
    rest: Seq<AskView>,
)
    requires
        pc < ops.len(),
        ops[pc as int] matches OpView::When {
            guard: GuardView::Present(PlaceView::At(p)),
            span,
            ..
        } && p == path && asked(m, ops, dry_run, noted, pc + 1 + span as nat) == rest,
        asked(m, ops, dry_run, noted, pc + 1) == more + rest,
    ensures
        asked(m, ops, dry_run, noted, pc) == if_there(m, PlaceView::At(path), more) + rest,
{
    reveal_with_fuel(asked, 1);
    let one = seq![AskView::Present(PlaceView::At(path))];
    assert(Seq::empty().push(AskView::Present(PlaceView::At(path))) == one);
    assert(Seq::<AskView>::empty() + rest == rest);
    assert(one + (more + rest) == (one + more) + rest);
    assert(one + Seq::<AskView>::empty() == one);
}

/// What a report asks on the Nix store.
pub open spec fn status_store_questions() -> Seq<AskView> {
    query(seq!["du"@, "-sh"@, "/nix/store"@]) + query(seq!["df"@, "-h"@, "/nix/store"@])
}

proof fn lemma_status_store_asked(m: Machine, color: bool, dry_run: bool, noted: bool)
    ensures
        asked(m, status::store_part(color), dry_run, noted, 0) == status_store_questions(),
{
    let ops = status::store_part(color);
    assert(ops.len() == 3);
    lemma_asked_at_end(m, ops, dry_run, noted, 3);
    lemma_query_asked(m, ops, dry_run, noted, 2, seq!["df"@, "-h"@, "/nix/store"@]);
    lemma_query_asked(m, ops, dry_run, noted, 1, seq!["du"@, "-sh"@, "/nix/store"@]);
    lemma_say_asked(m, ops, dry_run, noted, 0);
}

/// What a report asks on generations.
pub open spec fn status_generations_questions(m: Machine, home: Seq<char>) -> Seq<AskView> {
    query(seq!["nix-env"@, "-p"@, "/nix/var/nix/profiles/system"@, "--list-generations"@])
        + query(seq!["nix-env"@, "-p"@, home + "/.nix-profile"@, "--list-generations"@])
        + if_found(m, "home-manager"@, query(seq!["home-manager"@, "generations"@]))
}

proof fn lemma_status_generations_asked(
    m: Machine,
    color: bool,
    home: Seq<char>,
    dry_run: bool,
    noted: bool,
)
    ensures
        asked(m, status::generations_part(color, home), dry_run, noted, 0)
            == status_generations_questions(m, home),
{
    let ops = status::generations_part(color, home);
    let none = Seq::<AskView>::empty();
    assert(ops.len() == 5);
    lemma_asked_at_end(m, ops, dry_run, noted, 5);
    lemma_query_asked(m, ops, dry_run, noted, 4, seq!["home-manager"@, "generations"@]);
    lemma_guard_asked(
        m,
        ops,
        dry_run,
        noted,
        3,
        "home-manager"@,
        query(seq!["home-manager"@, "generations"@]),
        none,
    );
    lemma_query_asked(
        m,
        ops,
        dry_run,
        noted,
        2,
        seq!["nix-env"@, "-p"@, home + "/.nix-profile"@, "--list-generations"@],
    );
    lemma_query_asked(
        m,
        ops,
        dry_run,
        noted,
        1,
        seq!["nix-env"@, "-p"@, "/nix/var/nix/profiles/system"@, "--list-generations"@],
    );
    lemma_say_asked(m, ops, dry_run, noted, 0);
}

/// What a report asks on boot entries.
pub open spec fn status_boot_questions() -> Seq<AskView> {
    seq![AskView::OpenDir(PlaceView::At("/boot/loader/entries"@))]
}

proof fn lemma_status_boot_asked(m: Machine, color: bool, dry_run: bool, noted: bool)
    ensures
        asked(m, status::boot_part(color), dry_run, noted, 0) == status_boot_questions(),
{
    let ops = status::boot_part(color);
    assert(ops.len() == 3);
    lemma_asked_at_end(m, ops, dry_run, noted, 3);
    lemma_say_asked(m, ops, dry_run, noted, 2);
    lemma_say_asked(m, ops, dry_run, noted, 0);
    reveal_with_fuel(asked, 1);
    assert(
        asked(m, ops, dry_run, noted, 1)
            == seq![AskView::OpenDir(PlaceView::At("/boot/loader/entries"@))]
    );
}

/// What a report asks on the largest paths of the running system.
pub open spec fn status_closure_questions() -> Seq<AskView> {
    query(seq!["nix"@, "path-info"@, "-rS"@, "/run/current-system"@])
}

proof fn lemma_status_closure_asked(m: Machine, color: bool, dry_run: bool, noted: bool)
    ensures
        asked(m, status::closure_part(color), dry_run, noted, 0) == status_closure_questions(),
{
    let ops = status::closure_part(color);
    assert(ops.len() == 2);
    lemma_asked_at_end(m, ops, dry_run, noted, 2);
    lemma_query_asked(
        m,
        ops,
        dry_run,
        noted,
        1,
        seq!["nix"@, "path-info"@, "-rS"@, "/run/current-system"@],
    );
    lemma_say_asked(m, ops, dry_run, noted, 0);
}

/// What a report asks on stray roots.
pub open spec fn status_roots_questions() -> Seq<AskView> {
    query(seq!["nix-store"@, "--gc"@, "--print-roots"@])
}

proof fn lemma_status_roots_asked(m: Machine, color: bool, dry_run: bool, noted: bool)
    ensures
        asked(m, status::roots_part(color), dry_run, noted, 0) == status_roots_questions(),
{
    let ops = status::roots_part(color);
    assert(ops.len() == 2);
    lemma_asked_at_end(m, ops, dry_run, noted, 2);
    lemma_query_asked(m, ops, dry_run, noted, 1, seq!["nix-store"@, "--gc"@, "--print-roots"@]);
    lemma_say_asked(m, ops, dry_run, noted, 0);
}

/// What a report asks on containers and on the journal.
pub open spec fn status_services_questions(m: Machine) -> Seq<AskView> {
    if_found(m, "docker"@, query(seq!["docker"@, "system"@, "df"@]))
        + if_found(m, "podman"@, query(seq!["podman"@, "system"@, "df"@]))
        + query(seq!["journalctl"@, "--disk-usage"@])
}

proof fn lemma_status_services_asked(m: Machine, color: bool, dry_run: bool, noted: bool)
    ensures
        asked(m, status::services_part(color), dry_run, noted, 0) == status_services_questions(m),
{
    let ops = status::services_part(color);
    assert(ops.len() == 6);
    lemma_asked_at_end(m, ops, dry_run, noted, 6);
    lemma_query_asked(m, ops, dry_run, noted, 5, seq!["journalctl"@, "--disk-usage"@]);
    let last = asked(m, ops, dry_run, noted, 5);
    lemma_query_asked(m, ops, dry_run, noted, 4, seq!["podman"@, "system"@, "df"@]);
    lemma_guard_asked(
        m,
        ops,
        dry_run,
        noted,
        3,
        "podman"@,
        query(seq!["podman"@, "system"@, "df"@]),
        last,
    );
    let rest = asked(m, ops, dry_run, noted, 3);
    lemma_query_asked(m, ops, dry_run, noted, 2, seq!["docker"@, "system"@, "df"@]);
    lemma_guard_asked(
        m,
        ops,
        dry_run,
        noted,
        1,
        "docker"@,
        query(seq!["docker"@, "system"@, "df"@]),
        rest,
    );
    lemma_say_asked(m, ops, dry_run, noted, 0);
}

/// What a report asks on caches and on the trash.
pub open spec fn status_caches_questions(m: Machine, home: Seq<char>) -> Seq<AskView> {
    query(seq!["du"@, "-sh"@, home + "/.cache"@])
        + if_there(
            m,
            PlaceView::At(home + "/.local/share/Trash"@),
            query(seq!["du"@, "-sh"@, home + "/.local/share/Trash"@]),
        )
}

proof fn lemma_status_caches_asked(m: Machine, home: Seq<char>, dry_run: bool, noted: bool)
    ensures
        asked(m, status::caches_part(home), dry_run, noted, 0) == status_caches_questions(m, home),
{
    let ops = status::caches_part(home);
    let none = Seq::<AskView>::empty();
    assert(ops.len() == 3);
    lemma_asked_at_end(m, ops, dry_run, noted, 3);
    lemma_query_asked(
        m,
        ops,
        dry_run,
        noted,
        2,
        seq!["du"@, "-sh"@, home + "/.local/share/Trash"@],
    );
    lemma_there_asked(
        m,
        ops,
        dry_run,
        noted,
        1,
        home + "/.local/share/Trash"@,
        query(seq!["du"@, "-sh"@, home + "/.local/share/Trash"@]),
        none,
    );
    lemma_query_asked(m, ops, dry_run, noted, 0, seq!["du"@, "-sh"@, home + "/.cache"@]);
}

/// What a report asks on development tools and on core dumps.
pub open spec fn status_tools_questions(m: Machine, home: Seq<char>) -> Seq<AskView> {
    if_found(m, "cargo"@, query(seq!["du"@, "-sh"@, home + "/.cargo/registry"@]))
        + if_found(m, "npm"@, query(seq!["du"@, "-sh"@, home + "/.npm/_cacache"@]))
        + if_found(m, "go"@, query(seq!["du"@, "-sh"@, home + "/.cache/go-build"@]))
        + if_there(
            m,
            PlaceView::At("/var/lib/systemd/coredump"@),
            query(seq!["du"@, "-sh"@, "/var/lib/systemd/coredump"@]),
        )
}

proof fn lemma_status_tools_asked(m: Machine, home: Seq<char>, dry_run: bool, noted: bool)
    ensures
        asked(m, status::tools_part(home), dry_run, noted, 0) == status_tools_questions(m, home),
{
    let ops = status::tools_part(home);
    let none = Seq::<AskView>::empty();
    assert(ops.len() == 8);
    lemma_asked_at_end(m, ops, dry_run, noted, 8);
    lemma_query_asked(m, ops, dry_run, noted, 7, seq!["du"@, "-sh"@, "/var/lib/systemd/coredump"@]);
    lemma_there_asked(
        m,
        ops,
        dry_run,
        noted,
        6,
        "/var/lib/systemd/coredump"@,
        query(seq!["du"@, "-sh"@, "/var/lib/systemd/coredump"@]),
        none,
    );
    let dumps = if_there(
        m,
        PlaceView::At("/var/lib/systemd/coredump"@),
        query(seq!["du"@, "-sh"@, "/var/lib/systemd/coredump"@]),
    );
    assert(dumps + none == dumps);
    lemma_query_asked(m, ops, dry_run, noted, 5, seq!["du"@, "-sh"@, home + "/.cache/go-build"@]);
    lemma_guard_asked(
        m,
        ops,
        dry_run,
        noted,
        4,
        "go"@,
        query(seq!["du"@, "-sh"@, home + "/.cache/go-build"@]),
        dumps,
    );
    let go = asked(m, ops, dry_run, noted, 4);
    lemma_query_asked(m, ops, dry_run, noted, 3, seq!["du"@, "-sh"@, home + "/.npm/_cacache"@]);
    lemma_guard_asked(
        m,
        ops,
        dry_run,
        noted,
        2,
        "npm"@,
        query(seq!["du"@, "-sh"@, home + "/.npm/_cacache"@]),
        go,
    );
    let npm = asked(m, ops, dry_run, noted, 2);
    lemma_query_asked(m, ops, dry_run, noted, 1, seq!["du"@, "-sh"@, home + "/.cargo/registry"@]);
    let cargo = query(seq!["du"@, "-sh"@, home + "/.cargo/registry"@]);
    lemma_guard_asked(m, ops, dry_run, noted, 0, "cargo"@, cargo, npm);
    let one = if_found(m, "cargo"@, cargo);
    let two = if_found(m, "npm"@, query(seq!["du"@, "-sh"@, home + "/.npm/_cacache"@]));
    let three = if_found(m, "go"@, query(seq!["du"@, "-sh"@, home + "/.cache/go-build"@]));
    lemma_three(two, three, dumps);
    lemma_three(one, two + three, dumps);
    lemma_three(one, two, three);
}

pub proof fn lemma_status_parts_are_simple(color: bool, home: Seq<char>)
    ensures
        simple(status::store_part(color)),
        simple(status::generations_part(color, home)),
        simple(status::boot_part(color)),
        simple(status::closure_part(color)),
        simple(status::roots_part(color)),
        simple(status::services_part(color)),
        simple(status::caches_part(home)),
        simple(status::tools_part(home)),
{
}

proof fn lemma_status_asked(m: Machine, color: bool, home: Seq<char>)
    ensures
        asked(m, status_script(color, home), false, false, 0) == asked(
            m,
            status::store_part(color),
            false,
            false,
            0,
        ) + asked(m, status::generations_part(color, home), false, false, 0) + asked(
            m,
            status::boot_part(color),
            false,
            false,
            0,
        ) + asked(m, status::closure_part(color), false, false, 0) + asked(
            m,
            status::roots_part(color),
            false,
            false,
            0,
        ) + asked(m, status::services_part(color), false, false, 0) + asked(
            m,
            status::caches_part(home),
            false,
            false,
            0,
        ) + asked(m, status::tools_part(home), false, false, 0),
{
    let a = status::store_part(color);
    let b = status::generations_part(color, home);
    let c = status::boot_part(color);
    let d = status::closure_part(color);
    let e = status::roots_part(color);
    let f = status::services_part(color);
    let g = status::caches_part(home);
    let h = status::tools_part(home);
    let i = status::closing_part();
    lemma_status_parts_are_simple(color, home);
    lemma_say_asked(m, i, false, false, 0);
    lemma_asked_at_end(m, i, false, false, 1);
    lemma_nine_joined(m, a, b, c, d, e, f, g, h, i);
}

proof fn lemma_nine_joined(
    m: Machine,
    a: Seq<OpView>,
    b: Seq<OpView>,
    c: Seq<OpView>,
    d: Seq<OpView>,
    e: Seq<OpView>,
    f: Seq<OpView>,
    g: Seq<OpView>,
    h: Seq<OpView>,
    i: Seq<OpView>,
)
    requires
        simple(a),
        simple(b),
        simple(c),
        simple(d),
        simple(e),
        simple(f),
        simple(g),
        simple(h),
        asked(m, i, false, false, 0) == Seq::<AskView>::empty(),
    ensures
        asked(m, a + b + c + d + e + f + g + h + i, false, false, 0) == asked(
            m,
            a,
            false,
            false,
            0,
        ) + asked(m, b, false, false, 0) + asked(m, c, false, false, 0) + asked(
            m,
            d,
            false,
            false,
            0,
        ) + asked(m, e, false, false, 0) + asked(m, f, false, false, 0) + asked(
            m,
            g,
            false,
            false,
            0,
        ) + asked(m, h, false, false, 0),
{
    lemma_simple_joined(a, b);
    lemma_simple_joined(a + b, c);
    lemma_simple_joined(a + b + c, d);
    lemma_simple_joined(a + b + c + d, e);
    lemma_simple_joined(a + b + c + d + e, f);
    lemma_simple_joined(a + b + c + d + e + f, g);
    lemma_simple_joined(a + b + c + d + e + f + g, h);
    lemma_asked_joined(m, a, b, false, false, 0);
    lemma_asked_joined(m, a + b, c, false, false, 0);
    lemma_asked_joined(m, a + b + c, d, false, false, 0);
    lemma_asked_joined(m, a + b + c + d, e, false, false, 0);
    lemma_asked_joined(m, a + b + c + d + e, f, false, false, 0);
    lemma_asked_joined(m, a + b + c + d + e + f, g, false, false, 0);
    lemma_asked_joined(m, a + b + c + d + e + f + g, h, false, false, 0);
    lemma_asked_joined(m, a + b + c + d + e + f + g + h, i, false, false, 0);
}

pub proof fn lemma_simple_joined(a: Seq<OpView>, b: Seq<OpView>)
    requires
        simple(a),
        simple(b),
    ensures
        simple(a + b),
{
    lemma_spans_fit_joined(a, b);
}

/// All that a finished status report has asked for, in order: the sizes of the store, of the
/// caches and of the trash, the generations, the boot entries, the closure of the running
/// system, the live roots, and what containers and the journal take up. What belongs to a
/// tool is asked for exactly if that tool is found.
pub proof fn law_questions_of_a_report(m: Machine, s: SessionView, replies: Seq<Reply>)
    requires
        s == fresh(status_script(s.color, s.home), s.home, s.color, false),
        follows(s, replies),
        on_machine(m, s, replies),
        run(s, replies).ask is Finished,
    ensures
        ({
            let home = s.home;
            questions(s, replies)
                == status_store_questions()
                    + status_generations_questions(m, home)
                    + status_boot_questions()
                    + status_closure_questions()
                    + status_roots_questions()
                    + status_services_questions(m)
                    + status_caches_questions(m, home)
                    + status_tools_questions(m, home)
        }),
{
    status::lemma_status_spans_fit(s.color, s.home);
    law_runs_stay_in_order(s, replies);
    law_questions_of_a_run(m, s, replies);
    assert(questions(s, replies) + Seq::<AskView>::empty() == questions(s, replies));
    lemma_status_asked(m, s.color, s.home);
    lemma_status_store_asked(m, s.color, false, false);
    lemma_status_generations_asked(m, s.color, s.home, false, false);
    lemma_status_boot_asked(m, s.color, false, false);
    lemma_status_closure_asked(m, s.color, false, false);
    lemma_status_roots_asked(m, s.color, false, false);
    lemma_status_services_asked(m, s.color, false, false);
    lemma_status_caches_asked(m, s.home, false, false);
    lemma_status_tools_asked(m, s.home, false, false);
}

} // verus!
