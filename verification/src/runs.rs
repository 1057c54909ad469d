//! What holds of every run of a session.
use vstd::prelude::*;

use crate::clean;
use crate::clean::clean_script;
use crate::cleanup::{emptied_text, RootFate};
use crate::command::{
    command_line_of, lookup_command, opt_text, rendered_of, step_preview, CommandView,
};
use crate::numbers::decimal_of;
use crate::roots::{home_roots, is_stray, law_roots_are_stray};
use crate::script::{spans_fit, GuardView, OpView};
use crate::session::{
    boot_dir, fate_of, fresh, guard_ask, lemma_enter_from, roots_command, say, store_size_command,
    AskView, Entry, LinkState, Phase, Reply, SessionView, TurnView,
};
use crate::status;
use crate::status::{is_query, status_script};
use crate::style::{dim_text, reset_text, yellow_text};

verus! {

/// Where a session has come to after these replies, with all that was printed.
#[verifier::opaque]
pub open spec fn run(s: SessionView, replies: Seq<Reply>) -> TurnView
    decreases replies.len(),
{
    if replies.len() == 0 {
        s.enter(0)
    } else {
        let before = run(s, replies.drop_last());
        say(before.text, before.session.resumed(replies.last()))
    }
}

/// Whether each reply is one that the session was waiting for.
#[verifier::opaque]
pub open spec fn follows(s: SessionView, replies: Seq<Reply>) -> bool
    decreases replies.len(),
{
    replies.len() > 0 ==> follows(s, replies.drop_last()) && run(
        s,
        replies.drop_last(),
    ).session.accepts(replies.last())
}

/// Whether a session has not begun.
pub open spec fn is_fresh(s: SessionView) -> bool {
    s == fresh(s.ops, s.home, s.color, s.dry_run) && spans_fit(s.ops)
}

// ---------- what every turn keeps ----------

/// Whether the stray roots that a session has noted stem from a report.
pub open spec fn roots_reported(s: SessionView) -> bool {
    exists|out: Option<Seq<char>>| s.roots == #[trigger] home_roots(out, s.home)
}

/// Whether a question is the one that the session waits on.
pub open spec fn asks(s: SessionView, ask: AskView) -> bool {
    match s.phase {
        Phase::Idle => false,
        Phase::Guard => ask == guard_ask(s.op()->guard),
        Phase::Report => ask == AskView::Capture(s.op()->command),
        Phase::Age => ask == AskView::Age(s.roots[s.next as int]),
        Phase::OpenBoot => ask == AskView::OpenDir(boot_dir()),
        Phase::Boot | Phase::Walk => ask == AskView::NextEntry,
        Phase::Run => ask == (AskView::Run {
            command: command_line_of(s.op()->Step_0),
            filter_deleting: s.op()->Step_0.filter_deleting,
        }),
        Phase::Roots => ask == AskView::Capture(roots_command()),
        Phase::Link => ask == AskView::Link(s.roots[s.next as int]),
        Phase::Unlink => ask == AskView::Unlink(s.roots[s.next as int]),
        Phase::Check => ask == AskView::Present(s.op()->place),
        Phase::Open => ask == AskView::OpenDir(s.op()->place),
        Phase::Remove => ask is RemoveEntry,
        Phase::Before | Phase::After => ask == AskView::Capture(store_size_command()),
        Phase::Finished => ask == AskView::Finished && s.pc == s.ops.len(),
    }
}

/// Whether a turn leaves the session in order: its settings and script as they were,
/// and waiting on the question that is asked.
pub open spec fn in_order(s: SessionView, turn: TurnView) -> bool {
    &&& turn.session.wf()
    &&& turn.session.ops == s.ops
    &&& turn.session.home == s.home
    &&& turn.session.color == s.color
    &&& turn.session.dry_run == s.dry_run
    &&& roots_reported(turn.session)
    &&& asks(turn.session, turn.ask)
}

proof fn lemma_enter(s: SessionView, pc: nat)
    requires
        spans_fit(s.ops),
        pc <= s.ops.len(),
    ensures
        s.enter(pc).session == s.at(s.enter(pc).session.pc, s.enter(pc).session.phase),
        s.enter(pc).session.wf(),
        asks(s.enter(pc).session, s.enter(pc).ask),
    decreases s.ops.len() - pc,
{
    if pc < s.ops.len() {
        lemma_enter(s, pc + 1);
    }
}

proof fn lemma_enter_in_order(s: SessionView, pc: nat)
    requires
        spans_fit(s.ops),
        pc <= s.ops.len(),
        roots_reported(s),
    ensures
        in_order(s, s.enter(pc)),
        s.enter(pc).session.roots == s.roots,
{
    lemma_enter(s, pc);
    lemma_same_roots(s, s.enter(pc).session);
}

proof fn lemma_same_roots(s: SessionView, t: SessionView)
    requires
        roots_reported(s),
        t.roots == s.roots,
        t.home == s.home,
    ensures
        roots_reported(t),
{
    let out = choose|out: Option<Seq<char>>| s.roots == #[trigger] home_roots(out, s.home);
    assert(t.roots == home_roots(out, t.home));
}

proof fn lemma_listed(s: SessionView, out: Option<Seq<char>>)
    requires
        s.wf(),
        s.pc < s.ops.len(),
    ensures
        roots_reported(s.with_roots(home_roots(out, s.home))),
        in_order(s, s.with_roots(home_roots(out, s.home)).proceed()),
{
    let listed = s.with_roots(home_roots(out, s.home));
    assert(listed.roots == home_roots(out, listed.home));
    lemma_enter_in_order(listed, s.pc + 1);
}

proof fn lemma_next_root_in_order(s: SessionView)
    requires
        s.wf(),
        roots_reported(s),
        s.phase == Phase::Age || s.phase == Phase::Link || s.phase == Phase::Unlink,
    ensures
        in_order(s, s.next_root()),
{
    let after = SessionView { next: s.next + 1, ..s };
    lemma_same_roots(s, after);
    lemma_enter_in_order(after, s.pc + 1);
    if s.next + 1 < s.roots.len() {
        lemma_same_roots(s, s.next_root().session);
    }
}

proof fn lemma_guarded_in_order(s: SessionView, holds: bool)
    requires
        s.wf(),
        roots_reported(s),
        s.phase == Phase::Guard,
    ensures
        in_order(s, s.guarded(holds)),
{
    assert(s.ops[s.pc as int] is When);
    lemma_enter_in_order(s, s.pc + 1);
    lemma_enter_in_order(s, s.pc + 1 + s.op()->span as nat);
}

proof fn lemma_reported_in_order(s: SessionView, out: Option<Seq<char>>)
    requires
        s.wf(),
        roots_reported(s),
        s.phase == Phase::Report,
    ensures
        in_order(s, s.reported(s.op()->show, out)),
{
    lemma_enter_in_order(s, s.pc + 1);
    lemma_listed(s, out);
    let listed = s.with_roots(home_roots(out, s.home));
    lemma_same_roots(listed, listed.at(s.pc, Phase::Age));
}

proof fn lemma_swept_in_order(s: SessionView, out: Option<Seq<char>>)
    requires
        s.wf(),
        roots_reported(s),
        s.phase == Phase::Roots,
    ensures
        in_order(s, s.swept(home_roots(out, s.home))),
{
    lemma_listed(s, out);
    let listed = s.with_roots(home_roots(out, s.home));
    lemma_same_roots(listed, listed.at(s.pc, Phase::Link));
}

proof fn lemma_linked_in_order(s: SessionView, state: LinkState)
    requires
        s.wf(),
        roots_reported(s),
        s.phase == Phase::Link,
    ensures
        in_order(s, s.linked(state)),
{
    lemma_next_root_in_order(s);
    lemma_same_roots(s, s.at(s.pc, Phase::Unlink));
}

proof fn lemma_boot_in_order(s: SessionView, tried: Result<(), String>, entry: Entry)
    requires
        s.wf(),
        roots_reported(s),
    ensures
        s.phase == Phase::OpenBoot ==> in_order(s, s.boot_opened(tried)),
        s.phase == Phase::Boot ==> in_order(s, s.boot_entry(entry)),
{
    if s.phase == Phase::OpenBoot {
        lemma_enter_in_order(s, s.pc + 1);
        lemma_same_roots(s, s.boot_opened(tried).session);
    } else if s.phase == Phase::Boot {
        lemma_enter_in_order(s, s.pc + 1);
        lemma_same_roots(s, s.boot_entry(entry).session);
    }
}

proof fn lemma_emptying_in_order(
    s: SessionView,
    answer: bool,
    tried: Result<(), String>,
    entry: Entry,
)
    requires
        s.wf(),
        roots_reported(s),
    ensures
        s.phase == Phase::Check ==> in_order(s, s.checked(answer)),
        s.phase == Phase::Open ==> in_order(s, s.opened(tried)),
        s.phase == Phase::Walk ==> in_order(s, s.walked(entry)),
        s.phase == Phase::Remove ==> in_order(s, s.removed(answer)),
{
    if s.phase == Phase::Check {
        lemma_enter_in_order(s, s.pc + 1);
        lemma_same_roots(s, s.checked(answer).session);
    } else if s.phase == Phase::Open {
        lemma_enter_in_order(s, s.pc + 1);
        lemma_same_roots(s, s.opened(tried).session);
    } else if s.phase == Phase::Walk {
        lemma_enter_in_order(s, s.pc + 1);
        lemma_same_roots(s, s.walked(entry).session);
    } else if s.phase == Phase::Remove {
        lemma_same_roots(s, s.removed(answer).session);
    }
}

proof fn lemma_measured_in_order(s: SessionView, out: Option<Seq<char>>)
    requires
        s.wf(),
        roots_reported(s),
    ensures
        s.phase == Phase::Before ==> in_order(s, s.measured_before(out)),
        s.phase == Phase::After ==> in_order(s, s.measured_after(out)),
{
    if s.phase == Phase::Before {
        let noted = SessionView { before: out, ..s };
        lemma_same_roots(s, noted);
        lemma_enter_in_order(noted, s.pc + 1);
    } else if s.phase == Phase::After {
        lemma_enter_in_order(s, s.pc + 1);
    }
}

proof fn lemma_resumed_in_order(s: SessionView, reply: Reply)
    requires
        s.wf(),
        roots_reported(s),
        s.accepts(reply),
    ensures
        in_order(s, s.resumed(reply)),
{
    match (s.phase, reply) {
        (Phase::Guard, Reply::Answer(holds)) => {
            lemma_guarded_in_order(s, holds);
        },
        (Phase::Report, Reply::Output(out)) => {
            lemma_reported_in_order(s, opt_text(out));
        },
        (Phase::Roots, Reply::Output(out)) => {
            lemma_swept_in_order(s, opt_text(out));
        },
        (Phase::Age, Reply::Age(_)) => {
            lemma_next_root_in_order(s);
        },
        (Phase::Link, Reply::Link(state)) => {
            lemma_linked_in_order(s, state);
        },
        (Phase::Unlink, Reply::Tried(_)) => {
            lemma_next_root_in_order(s);
        },
        (Phase::OpenBoot, Reply::Tried(tried)) => {
            lemma_boot_in_order(s, tried, Entry::End);
        },
        (Phase::Boot, Reply::Entry(entry)) => {
            lemma_boot_in_order(s, Ok(()), entry);
        },
        (Phase::Run, Reply::Ran(_)) => {
            lemma_enter_in_order(s, s.pc + 1);
        },
        (Phase::Check, Reply::Answer(exists)) => {
            lemma_emptying_in_order(s, exists, Ok(()), Entry::End);
        },
        (Phase::Open, Reply::Tried(tried)) => {
            lemma_emptying_in_order(s, true, tried, Entry::End);
        },
        (Phase::Walk, Reply::Entry(entry)) => {
            lemma_emptying_in_order(s, true, Ok(()), entry);
        },
        (Phase::Remove, Reply::Answer(done)) => {
            lemma_emptying_in_order(s, done, Ok(()), Entry::End);
        },
        (Phase::Before, Reply::Output(out)) => {
            lemma_measured_in_order(s, opt_text(out));
        },
        (Phase::After, Reply::Output(out)) => {
            lemma_measured_in_order(s, opt_text(out));
        },
        _ => {},
    }
}

/// After any replies that it was waiting for, a session is in order.
pub proof fn law_runs_stay_in_order(s: SessionView, replies: Seq<Reply>)
    requires
        is_fresh(s),
        follows(s, replies),
    ensures
        in_order(s, run(s, replies)),
    decreases replies.len(),
{
    reveal_with_fuel(run, 1);
    reveal_with_fuel(follows, 1);
    if replies.len() == 0 {
        assert(s.roots == home_roots(None, s.home));
        lemma_enter_in_order(s, 0);
    } else {
        law_runs_stay_in_order(s, replies.drop_last());
        lemma_resumed_in_order(run(s, replies.drop_last()).session, replies.last());
    }
}

/// A session that is over has gone through its whole script.
pub proof fn law_nothing_is_left_out(s: SessionView, replies: Seq<Reply>)
    requires
        is_fresh(s),
        follows(s, replies),
        run(s, replies).ask is Finished,
    ensures
        run(s, replies).session.pc == s.ops.len(),
{
    law_runs_stay_in_order(s, replies);
}

// ---------- what is left alone ----------

/// Whether a command only looks for a program.
pub open spec fn is_lookup(c: CommandView) -> bool {
    exists|program: Seq<char>| c == #[trigger] lookup_command(program)
}

/// Whether to do what is asked can change anything: a cleanup command is run, a link or an
/// entry of a directory is removed, or a command is run for its output or its success that
/// is none of the known queries.
pub open spec fn ask_changes(ask: AskView) -> bool {
    match ask {
        AskView::Run { .. } | AskView::Unlink(_) | AskView::RemoveEntry { .. } => true,
        AskView::Capture(command) => !is_query(command),
        AskView::Succeeds(command) => !is_lookup(command),
        _ => false,
    }
}

/// Whether an operation shows the output of a command that is none of the known queries.
pub open spec fn reports_more(op: OpView) -> bool {
    op matches OpView::Report { command, .. } && !is_query(command)
}

/// Whether an operation can change anything.
pub open spec fn op_changes(op: OpView) -> bool {
    op is Step || op is SweepRoots || op is Empty || reports_more(op)
}

/// Whether no operation of a script can change anything.
pub open spec fn only_looks(ops: Seq<OpView>) -> bool {
    forall|i: int| 0 <= i < ops.len() ==> !op_changes(#[trigger] ops[i])
}

/// Whether a script shows the output of queries alone.
pub open spec fn reports_queries(ops: Seq<OpView>) -> bool {
    forall|i: int| 0 <= i < ops.len() ==> !reports_more(#[trigger] ops[i])
}

/// What a session in order asks for beside a change is a query, a look for a program, or
/// the output of a command that the script names.
proof fn lemma_captures_are_queries(s: SessionView, turn: TurnView)
    requires
        in_order(s, turn),
        turn.session.pc < s.ops.len() ==> !reports_more(turn.session.op()),
    ensures
        turn.ask matches AskView::Capture(command) ==> is_query(command),
        turn.ask matches AskView::Succeeds(command) ==> is_lookup(command),
{
    let t = turn.session;
    assert(store_size_command() == status::du("/nix/store"@));
    assert(is_query(store_size_command())) by {
        assert(store_size_command().args[1] == "/nix/store"@);
    }
    if t.phase == Phase::Guard {
        if let GuardView::Installed(program) = t.op()->guard {
            assert(turn.ask == AskView::Succeeds(lookup_command(program)));
        }
    }
}

/// A dry run of a script that reports queries alone changes nothing, whatever it is told.
pub proof fn law_dry_run_changes_nothing(s: SessionView, replies: Seq<Reply>)
    requires
        is_fresh(s),
        s.dry_run,
        reports_queries(s.ops),
        follows(s, replies),
    ensures
        !ask_changes(run(s, replies).ask),
{
    law_runs_stay_in_order(s, replies);
    let t = run(s, replies).session;
    if t.pc < t.ops.len() {
        assert(!reports_more(t.ops[t.pc as int]));
    }
    lemma_captures_are_queries(s, run(s, replies));
}

/// A script of operations that only look changes nothing, whatever its session is told.
pub proof fn law_looking_changes_nothing(s: SessionView, replies: Seq<Reply>)
    requires
        is_fresh(s),
        only_looks(s.ops),
        follows(s, replies),
    ensures
        !ask_changes(run(s, replies).ask),
{
    law_runs_stay_in_order(s, replies);
    let t = run(s, replies).session;
    if t.pc < t.ops.len() {
        assert(!op_changes(t.ops[t.pc as int]));
    }
    lemma_captures_are_queries(s, run(s, replies));
}

proof fn lemma_only_looks_joined(a: Seq<OpView>, b: Seq<OpView>)
    requires
        only_looks(a),
        only_looks(b),
    ensures
        only_looks(a + b),
{
    let ops = a + b;
    assert forall|i: int| 0 <= i < ops.len() implies !op_changes(#[trigger] ops[i]) by {
        if i < a.len() {
            assert(ops[i] == a[i]);
        } else {
            assert(ops[i] == b[i - a.len()]);
        }
    }
}

proof fn lemma_du_is_query(path: Seq<char>)
    ensures
        is_query(status::du(path)),
{
    assert(status::du(path).args[1] == path);
}

proof fn lemma_list_generations_is_query(profile: Seq<char>)
    ensures
        is_query(status::list_generations(profile)),
{
    assert(status::list_generations(profile).args[1] == profile);
}

proof fn lemma_status_parts_only_look(color: bool, home: Seq<char>)
    ensures
        only_looks(status::store_part(color)),
        only_looks(status::generations_part(color, home)),
        only_looks(status::boot_part(color)),
        only_looks(status::closure_part(color)),
        only_looks(status::roots_part(color)),
        only_looks(status::services_part(color)),
        only_looks(status::caches_part(home)),
        only_looks(status::closing_part()),
{
    lemma_du_is_query("/nix/store"@);
    lemma_list_generations_is_query("/nix/var/nix/profiles/system"@);
    lemma_list_generations_is_query(home + "/.nix-profile"@);
    lemma_du_is_query(home + "/.cache"@);
    lemma_du_is_query(home + "/.local/share/Trash"@);
}

proof fn lemma_status_tools_only_look(home: Seq<char>)
    ensures
        only_looks(status::tools_part(home)),
{
    lemma_du_is_query(home + "/.cargo/registry"@);
    lemma_du_is_query(home + "/.npm/_cacache"@);
    lemma_du_is_query(home + "/.cache/go-build"@);
    lemma_du_is_query("/var/lib/systemd/coredump"@);
}

proof fn lemma_status_only_looks(color: bool, home: Seq<char>)
    ensures
        only_looks(status_script(color, home)),
{
    let a = status::store_part(color);
    let b = a + status::generations_part(color, home);
    let c = b + status::boot_part(color);
    let d = c + status::closure_part(color);
    let e = d + status::roots_part(color);
    let f = e + status::services_part(color);
    let g = f + status::caches_part(home);
    let h = g + status::tools_part(home);
    lemma_status_parts_only_look(color, home);
    lemma_status_tools_only_look(home);
    lemma_only_looks_joined(a, status::generations_part(color, home));
    lemma_only_looks_joined(b, status::boot_part(color));
    lemma_only_looks_joined(c, status::closure_part(color));
    lemma_only_looks_joined(d, status::roots_part(color));
    lemma_only_looks_joined(e, status::services_part(color));
    lemma_only_looks_joined(f, status::caches_part(home));
    lemma_only_looks_joined(g, status::tools_part(home));
    lemma_only_looks_joined(h, status::closing_part());
}

/// A status report is read-only: no cleanup command is run, nothing is removed, and every
/// command that is run is one of the known queries or looks for a program.
pub proof fn law_status_changes_nothing(color: bool, home: Seq<char>, replies: Seq<Reply>)
    requires
        follows(fresh(status_script(color, home), home, color, false), replies),
    ensures
        !ask_changes(run(fresh(status_script(color, home), home, color, false), replies).ask),
{
    status::lemma_status_spans_fit(color, home);
    lemma_status_only_looks(color, home);
    law_looking_changes_nothing(fresh(status_script(color, home), home, color, false), replies);
}

// ---------- what a cleanup touches ----------

/// Whether a script opens directories below the home directory alone, and shows the output
/// of no command.
pub open spec fn stays_at_home(ops: Seq<OpView>) -> bool {
    forall|i: int|
        0 <= i < ops.len() ==> !(#[trigger] ops[i] is BootEntries) && !(ops[i] is Report) && (
        ops[i] matches OpView::Empty { place, .. } ==> place is Home)
}

proof fn lemma_stays_at_home_joined(a: Seq<OpView>, b: Seq<OpView>)
    requires
        stays_at_home(a),
        stays_at_home(b),
    ensures
        stays_at_home(a + b),
{
    let ops = a + b;
    assert forall|i: int| 0 <= i < ops.len() implies !(#[trigger] ops[i] is BootEntries)
        && !(ops[i] is Report) && (ops[i] matches OpView::Empty { place, .. } ==> place is Home) by {
        if i < a.len() {
            assert(ops[i] == a[i]);
        } else {
            assert(ops[i] == b[i - a.len()]);
        }
    }
}

proof fn lemma_clean_stays_at_home(color: bool, dry_run: bool, journal: Seq<char>)
    ensures
        stays_at_home(clean_script(color, dry_run, journal)),
{
    let a = clean::opening_part(color, dry_run);
    let b = a + clean::generations_part();
    let c = b + clean::store_part();
    let d = c + clean::journal_part(journal);
    let e = d + clean::containers_part();
    let f = e + clean::leftovers_part();
    let g = f + clean::tools_part();
    lemma_stays_at_home_joined(a, clean::generations_part());
    lemma_stays_at_home_joined(b, clean::store_part());
    lemma_stays_at_home_joined(c, clean::journal_part(journal));
    lemma_stays_at_home_joined(d, clean::containers_part());
    lemma_stays_at_home_joined(e, clean::leftovers_part());
    lemma_stays_at_home_joined(f, clean::tools_part());
    lemma_stays_at_home_joined(g, clean::ending_part(color, dry_run));
}

/// A cleanup opens, and so empties, only directories below the home directory. Boot
/// entries are not among them.
pub proof fn law_clean_leaves_boot_entries_alone(
    color: bool,
    dry_run: bool,
    journal: Seq<char>,
    home: Seq<char>,
    replies: Seq<Reply>,
)
    requires
        follows(fresh(clean_script(color, dry_run, journal), home, color, dry_run), replies),
    ensures
        run(fresh(clean_script(color, dry_run, journal), home, color, dry_run), replies).ask
            matches AskView::OpenDir(place) ==> place is Home && place != boot_dir(),
{
    let s = fresh(clean_script(color, dry_run, journal), home, color, dry_run);
    clean::lemma_clean_spans_fit(color, dry_run, journal);
    lemma_clean_stays_at_home(color, dry_run, journal);
    law_runs_stay_in_order(s, replies);
    let t = run(s, replies).session;
    if t.pc < t.ops.len() {
        assert(!(t.ops[t.pc as int] is BootEntries));
    }
}

/// A dry run of a cleanup changes nothing, whatever it is told.
pub proof fn law_clean_dry_run_changes_nothing(
    color: bool,
    journal: Seq<char>,
    home: Seq<char>,
    replies: Seq<Reply>,
)
    requires
        follows(fresh(clean_script(color, true, journal), home, color, true), replies),
    ensures
        !ask_changes(run(fresh(clean_script(color, true, journal), home, color, true), replies).ask),
{
    let s = fresh(clean_script(color, true, journal), home, color, true);
    clean::lemma_clean_spans_fit(color, true, journal);
    lemma_clean_stays_at_home(color, true, journal);
    assert forall|i: int| 0 <= i < s.ops.len() implies !reports_more(#[trigger] s.ops[i]) by {
        assert(!(s.ops[i] is BootEntries));
    }
    law_dry_run_changes_nothing(s, replies);
}

/// A cleanup and its dry run go through the same operations, but for the opening and the
/// closing words and the second look at the size of the store.
pub proof fn law_dry_run_shows_the_plan(color: bool, journal: Seq<char>)
    ensures
        exists|plan: Seq<OpView>| #[trigger]
            (clean::opening_part(color, true) + plan) + clean::ending_part(color, true)
                == clean_script(color, true, journal) && #[trigger] (clean::opening_part(
                color,
                false,
            ) + plan) + clean::ending_part(color, false) == clean_script(color, false, journal),
{
    let plan = clean::generations_part() + clean::store_part() + clean::journal_part(journal)
        + clean::containers_part() + clean::leftovers_part() + clean::tools_part();
    assert((clean::opening_part(color, true) + plan) + clean::ending_part(color, true)
        == clean_script(color, true, journal));
    assert((clean::opening_part(color, false) + plan) + clean::ending_part(color, false)
        == clean_script(color, false, journal));
}

/// The command line that a dry run prints for a step is the one that a cleanup runs.
pub proof fn law_preview_is_what_runs(s: SessionView, t: SessionView, pc: nat)
    requires
        pc < s.ops.len(),
        s.ops == t.ops,
        s.ops[pc as int] is Step,
        s.dry_run,
        !t.dry_run,
    ensures
        s.enter(pc).text == step_preview(s.color, s.ops[pc as int]->Step_0) + s.enter(pc + 1).text,
        t.enter(pc).ask matches AskView::Run { command, .. } && step_preview(
            s.color,
            s.ops[pc as int]->Step_0,
        ) == yellow_text(s.color) + "[dry-run]"@ + reset_text(s.color) + " "@ + rendered_of(command)
            + "\n          "@ + dim_text(s.color) + "("@ + s.ops[pc as int]->Step_0.why + ")"@
            + reset_text(s.color) + "\n"@,
{
}

// ---------- what a cleanup removes ----------

proof fn lemma_enter_asks(s: SessionView, pc: nat)
    ensures
        !(s.enter(pc).ask is Unlink),
        !(s.enter(pc).ask is RemoveEntry),
    decreases s.ops.len() - pc,
{
    if pc < s.ops.len() {
        lemma_enter_asks(s, pc + 1);
    }
}

proof fn lemma_resumed_asks(s: SessionView, reply: Reply)
    requires
        s.wf(),
        s.accepts(reply),
    ensures
        s.resumed(reply).ask is Unlink ==> s.phase == Phase::Link && reply == Reply::Link(
            LinkState::Symlink,
        ),
        s.resumed(reply).ask matches AskView::RemoveEntry { tree } ==> s.phase == Phase::Walk && (
        reply matches Reply::Entry(Entry::Found { is_dir, is_symlink }) && tree == (is_dir
            && !is_symlink)),
{
    let after = SessionView { next: s.next + 1, ..s };
    lemma_enter_asks(s, s.pc + 1);
    lemma_enter_asks(after, s.pc + 1);
    match (s.phase, reply) {
        (Phase::Guard, Reply::Answer(_)) => {
            lemma_enter_asks(s, s.pc + 1 + s.op()->span as nat);
        },
        (Phase::Report, Reply::Output(out)) => {
            lemma_enter_asks(s.with_roots(home_roots(opt_text(out), s.home)), s.pc + 1);
        },
        (Phase::Roots, Reply::Output(out)) => {
            lemma_enter_asks(s.with_roots(home_roots(opt_text(out), s.home)), s.pc + 1);
        },
        (Phase::Before, Reply::Output(out)) => {
            lemma_enter_asks(SessionView { before: opt_text(out), ..s }, s.pc + 1);
        },
        _ => {},
    }
}

/// Only stray roots that were just found to be symbolic links are removed: the session has
/// asked what stands at that very path, and was told that it is a symbolic link.
pub proof fn law_only_symlinks_are_unlinked(s: SessionView, replies: Seq<Reply>)
    requires
        is_fresh(s),
        follows(s, replies),
        run(s, replies).ask is Unlink,
    ensures
        replies.len() > 0,
        replies.last() == Reply::Link(LinkState::Symlink),
        run(s, replies.drop_last()).ask == AskView::Link(run(s, replies).ask->Unlink_0),
        is_stray(run(s, replies).ask->Unlink_0, s.home),
{
    reveal_with_fuel(run, 1);
    reveal_with_fuel(follows, 1);
    law_runs_stay_in_order(s, replies);
    if replies.len() == 0 {
        lemma_enter_asks(s, 0);
    } else {
        let before = run(s, replies.drop_last());
        law_runs_stay_in_order(s, replies.drop_last());
        lemma_resumed_asks(before.session, replies.last());
        let t = run(s, replies).session;
        let out = choose|out: Option<Seq<char>>| t.roots == #[trigger] home_roots(out, t.home);
        assert(out is Some);
        law_roots_are_stray(out->0, s.home, t.next as int);
    }
}

/// Entries are removed only from a directory that is being emptied, one after it was read,
/// and together with all that is in them only if they are directories and no symbolic
/// links.
pub proof fn law_links_are_not_followed(s: SessionView, replies: Seq<Reply>)
    requires
        is_fresh(s),
        follows(s, replies),
        run(s, replies).ask is RemoveEntry,
    ensures
        replies.len() > 0,
        run(s, replies.drop_last()).ask == AskView::NextEntry,
        replies.last() matches Reply::Entry(Entry::Found { is_dir, is_symlink }) && run(
            s,
            replies,
        ).ask->tree == (is_dir && !is_symlink),
        run(s, replies).session.op() is Empty,
{
    reveal_with_fuel(run, 1);
    reveal_with_fuel(follows, 1);
    law_runs_stay_in_order(s, replies);
    if replies.len() == 0 {
        lemma_enter_asks(s, 0);
    } else {
        law_runs_stay_in_order(s, replies.drop_last());
        lemma_resumed_asks(run(s, replies.drop_last()).session, replies.last());
    }
}

/// What a session is told of one stray root: what stands at its path, and, if that is a
/// symbolic link, whether it was removed.
pub struct RootReply {
    pub state: LinkState,
    pub tried: Result<(), String>,
}

/// The turn after a session was told of one stray root.
#[verifier::opaque]
pub open spec fn root_handled(s: SessionView, told: RootReply) -> TurnView {
    if told.state is Symlink {
        s.resumed(Reply::Link(told.state)).session.resumed(Reply::Tried(told.tried))
    } else {
        s.resumed(Reply::Link(told.state))
    }
}

/// The turn after a session was told of several stray roots.
pub open spec fn roots_handled(start: TurnView, told: Seq<RootReply>) -> TurnView
    decreases told.len(),
{
    if told.len() == 0 {
        start
    } else {
        root_handled(roots_handled(start, told.drop_last()).session, told.last())
    }
}

proof fn lemma_root_handled(t: SessionView, told: RootReply)
    requires
        t.phase == Phase::Link,
        t.next < t.roots.len(),
    ensures
        ({
            let after = SessionView { next: t.next + 1, ..t };
            if t.next + 1 < t.roots.len() {
                &&& root_handled(t, told).ask == AskView::Link(t.roots[t.next + 1int])
                &&& root_handled(t, told).session == after
            } else {
                root_handled(t, told).session == after.enter(t.pc + 1).session
            }
        }),
{
    reveal(root_handled);
    let after = SessionView { next: t.next + 1, ..t };
    lemma_enter_from(after, t.pc, Phase::Unlink, t.pc + 1);
    match told.state {
        LinkState::Symlink => {
            let u = t.at(t.pc, Phase::Unlink);
            assert(t.linked(told.state).session == u);
            assert(root_handled(t, told) == u.root_done(fate_of(told.tried)));
        },
        LinkState::Other => {
            assert(root_handled(t, told) == t.root_done(RootFate::NotSymlink));
        },
        LinkState::Gone => {
            assert(root_handled(t, told) == t.root_done(RootFate::Gone));
        },
    }
}

/// The session about to look at the stray root with this number.
pub open spec fn before_root(s: SessionView, roots: Seq<Seq<char>>, n: nat) -> SessionView {
    SessionView { next: n, ..s.with_roots(roots).at(s.pc, Phase::Link) }
}

/// A cleanup looks at every stray root that is listed, one after the other, whatever
/// becomes of those before it, and goes on with the script only after the last one.
pub proof fn law_every_root_is_looked_at(s: SessionView, out: Option<String>, told: Seq<RootReply>)
    requires
        s.wf(),
        s.phase == Phase::Roots,
        !s.dry_run,
        home_roots(opt_text(out), s.home).len() > 0,
        told.len() <= home_roots(opt_text(out), s.home).len(),
    ensures
        ({
            let roots = home_roots(opt_text(out), s.home);
            let turn = roots_handled(s.resumed(Reply::Output(out)), told);
            if told.len() < roots.len() {
                &&& turn.ask == AskView::Link(roots[told.len() as int])
                &&& turn.session == before_root(s, roots, told.len())
            } else {
                turn.session == before_root(s, roots, told.len()).proceed().session
            }
        }),
{
    let roots = home_roots(opt_text(out), s.home);
    assert(s.resumed(Reply::Output(out)) == s.swept(roots));
    lemma_roots_handled(s, roots, told);
}

proof fn lemma_roots_handled(s: SessionView, roots: Seq<Seq<char>>, told: Seq<RootReply>)
    requires
        !s.dry_run,
        roots.len() > 0,
        told.len() <= roots.len(),
    ensures
        ({
            let turn = roots_handled(s.swept(roots), told);
            if told.len() < roots.len() {
                &&& turn.ask == AskView::Link(roots[told.len() as int])
                &&& turn.session == before_root(s, roots, told.len())
            } else {
                turn.session == before_root(s, roots, told.len()).proceed().session
            }
        }),
    decreases told.len(),
{
    if told.len() > 0 {
        let n = (told.len() - 1) as nat;
        lemma_roots_handled(s, roots, told.drop_last());
        lemma_root_handled(before_root(s, roots, n), told.last());
        assert(SessionView { next: n + 1, ..before_root(s, roots, n) } == before_root(
            s,
            roots,
            n + 1,
        ));
    }
}

/// What a session is told of one entry of a directory that it empties: what it is, and,
/// if it could be read, whether it was removed.
pub struct EntryReply {
    pub entry: Entry,
    pub removed: bool,
}

/// Whether an entry was removed.
pub open spec fn was_removed(told: EntryReply) -> bool {
    told.entry is Found && told.removed
}

/// The turn after a session was told of one entry.
#[verifier::opaque]
pub open spec fn entry_handled(s: SessionView, told: EntryReply) -> TurnView {
    if told.entry is Found {
        s.resumed(Reply::Entry(told.entry)).session.resumed(Reply::Answer(told.removed))
    } else {
        s.resumed(Reply::Entry(told.entry))
    }
}

/// The turn after a session was told of several entries.
pub open spec fn entries_handled(start: TurnView, told: Seq<EntryReply>) -> TurnView
    decreases told.len(),
{
    if told.len() == 0 {
        start
    } else {
        entry_handled(entries_handled(start, told.drop_last()).session, told.last())
    }
}

/// The session amid emptying a directory, after this many entries were removed.
pub open spec fn emptying(s: SessionView, removed: nat) -> SessionView {
    SessionView { count: removed, ..s.at(s.pc, Phase::Walk) }
}

/// The number of entries that were removed.
pub open spec fn removals(told: Seq<EntryReply>) -> nat {
    told.filter(|t: EntryReply| was_removed(t)).len()
}

proof fn lemma_entry_handled(s: SessionView, removed: nat, told: EntryReply)
    requires
        !(told.entry is End),
    ensures
        entry_handled(emptying(s, removed), told).ask == AskView::NextEntry,
        entry_handled(emptying(s, removed), told).session == emptying(
            s,
            if was_removed(told) {
                removed + 1
            } else {
                removed
            },
        ),
{
    reveal(entry_handled);
    let t = emptying(s, removed);
    if told.entry is Found {
        let u = t.at(t.pc, Phase::Remove);
        assert(t.walked(told.entry).session == u);
        assert(entry_handled(t, told) == u.removed(told.removed));
    } else {
        assert(entry_handled(t, told) == t.walked(told.entry));
    }
}

proof fn lemma_removals(told: Seq<EntryReply>)
    ensures
        told.len() == 0 ==> removals(told) == 0,
        told.len() > 0 ==> removals(told) == removals(told.drop_last()) + if was_removed(
            told.last(),
        ) {
            1nat
        } else {
            0nat
        },
{
    reveal(Seq::filter);
}

/// A cleanup goes through all entries of a directory, whatever becomes of those before, and
/// in the end says how many of them were removed.
pub proof fn law_entries_are_counted(s: SessionView, told: Seq<EntryReply>)
    requires
        s.wf(),
        s.phase == Phase::Open,
        forall|i: int| 0 <= i < told.len() ==> !((#[trigger] told[i]).entry is End),
    ensures
        ({
            let turn = entries_handled(s.resumed(Reply::Tried(Ok(()))), told);
            &&& turn.ask == AskView::NextEntry
            &&& turn.session == emptying(s, removals(told))
        }),
        emptying(s, removals(told)).resumed(Reply::Entry(Entry::End)).text == emptied_text(
            s.color,
            removals(told),
        ) + emptying(s, removals(told)).proceed().text,
{
    let done = emptying(s, removals(told));
    assert(done.resumed(Reply::Entry(Entry::End)) == done.walked(Entry::End));
    assert(s.resumed(Reply::Tried(Ok(()))) == s.opened(Ok(())));
    lemma_entries_handled(s, s.opened(Ok(())), told);
}

proof fn lemma_entries_handled(s: SessionView, start: TurnView, told: Seq<EntryReply>)
    requires
        start.ask == AskView::NextEntry,
        start.session == emptying(s, 0),
        forall|i: int| 0 <= i < told.len() ==> !((#[trigger] told[i]).entry is End),
    ensures
        entries_handled(start, told).ask == AskView::NextEntry,
        entries_handled(start, told).session == emptying(s, removals(told)),
    decreases told.len(),
{
    lemma_removals(told);
    if told.len() > 0 {
        let rest = told.drop_last();
        assert forall|i: int| 0 <= i < rest.len() implies !((#[trigger] rest[i]).entry is End) by {
            assert(rest[i] == told[i]);
        }
        lemma_entries_handled(s, start, rest);
        assert(!(told[told.len() - 1].entry is End));
        lemma_entry_handled(s, removals(rest), told.last());
    }
}

// ---------- boot entries ----------

/// The turn after a session was told of several boot entries.
pub open spec fn boot_entries_handled(start: TurnView, told: Seq<Entry>) -> TurnView
    decreases told.len(),
{
    if told.len() == 0 {
        start
    } else {
        boot_entries_handled(start, told.drop_last()).session.resumed(Reply::Entry(told.last()))
    }
}

/// The number of entries that could be read.
pub open spec fn readable(told: Seq<Entry>) -> nat {
    told.filter(|e: Entry| e is Found).len()
}

/// The session amid counting boot entries, after this many were counted.
pub open spec fn counting(s: SessionView, n: nat) -> SessionView {
    SessionView { count: n, ..s.at(s.pc, Phase::Boot) }
}

proof fn lemma_boot_entry_handled(s: SessionView, n: nat, entry: Entry)
    requires
        !(entry is End),
    ensures
        counting(s, n).resumed(Reply::Entry(entry)).ask == AskView::NextEntry,
        counting(s, n).resumed(Reply::Entry(entry)).session == counting(
            s,
            if entry is Found {
                n + 1
            } else {
                n
            },
        ),
{
    let t = counting(s, n);
    assert(t.resumed(Reply::Entry(entry)) == t.boot_entry(entry));
}

proof fn lemma_boot_entries_handled(s: SessionView, start: TurnView, told: Seq<Entry>)
    requires
        start.ask == AskView::NextEntry,
        start.session == counting(s, 0),
        forall|i: int| 0 <= i < told.len() ==> !(#[trigger] told[i] is End),
    ensures
        boot_entries_handled(start, told).ask == AskView::NextEntry,
        boot_entries_handled(start, told).session == counting(s, readable(told)),
    decreases told.len(),
{
    reveal(Seq::filter);
    if told.len() > 0 {
        let rest = told.drop_last();
        assert forall|i: int| 0 <= i < rest.len() implies !(#[trigger] rest[i] is End) by {
            assert(rest[i] == told[i]);
        }
        lemma_boot_entries_handled(s, start, rest);
        assert(!(told[told.len() - 1] is End));
        lemma_boot_entry_handled(s, readable(rest), told.last());
    }
}

/// A report counts the boot entries that can be read, files and directories and links alike,
/// and in the end says how many there are.
pub proof fn law_boot_entries_are_counted(s: SessionView, told: Seq<Entry>)
    requires
        s.wf(),
        s.phase == Phase::OpenBoot,
        forall|i: int| 0 <= i < told.len() ==> !(#[trigger] told[i] is End),
    ensures
        ({
            let turn = boot_entries_handled(s.resumed(Reply::Tried(Ok(()))), told);
            &&& turn.ask == AskView::NextEntry
            &&& turn.session == counting(s, readable(told))
            &&& turn.session.resumed(Reply::Entry(Entry::End)).text == (
            "  systemd-boot entries: "@ + decimal_of(readable(told))
                + " (each pins a kernel+initrd generation alive)\n"@
                + "  set `boot.loader.systemd-boot.configurationLimit = 5;` (or similar) to stop these piling up\n"@)
                + turn.session.proceed().text
        }),
{
    assert(s.resumed(Reply::Tried(Ok(()))) == s.boot_opened(Ok(())));
    lemma_boot_entries_handled(s, s.boot_opened(Ok(())), told);
    lemma_boot_entries_told(counting(s, readable(told)));
}

proof fn lemma_boot_entries_told(t: SessionView)
    requires
        t.phase == Phase::Boot,
    ensures
        t.resumed(Reply::Entry(Entry::End)).text == ("  systemd-boot entries: "@ + decimal_of(
            t.count,
        ) + " (each pins a kernel+initrd generation alive)\n"@
            + "  set `boot.loader.systemd-boot.configurationLimit = 5;` (or similar) to stop these piling up\n"@)
            + t.proceed().text,
{
    assert(t.resumed(Reply::Entry(Entry::End)) == t.boot_entry(Entry::End));
}

// ---------- which replies are taken ----------

/// Whether a reply is of the kind that a question asks for.
pub open spec fn answers(ask: AskView, reply: Reply) -> bool {
    match ask {
        AskView::Succeeds(_) | AskView::Present(_) | AskView::RemoveEntry { .. } => reply is Answer,
        AskView::Capture(_) => reply is Output,
        AskView::Age(_) => reply is Age,
        AskView::Link(_) => reply is Link,
        AskView::Unlink(_) | AskView::OpenDir(_) => reply is Tried,
        AskView::NextEntry => reply is Entry,
        AskView::Run { .. } => reply is Ran,
        AskView::Finished => false,
    }
}

/// A session takes every reply of the kind that it has asked for, as long as it has not
/// counted as many entries as fit in 64 bits, and takes no other reply.
pub proof fn law_replies_are_taken(s: SessionView, replies: Seq<Reply>, reply: Reply)
    requires
        is_fresh(s),
        follows(s, replies),
        run(s, replies).session.count < u64::MAX,
    ensures
        run(s, replies).session.accepts(reply) <==> answers(run(s, replies).ask, reply),
{
    law_runs_stay_in_order(s, replies);
    let t = run(s, replies).session;
    if t.phase == Phase::Guard {
        assert(run(s, replies).ask == guard_ask(t.op()->guard));
    }
}

} // verus!
