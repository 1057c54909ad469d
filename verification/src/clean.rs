//! The cleanup: everything old goes, the current generation stays.
use vstd::prelude::*;

use crate::command::{plain_command, Command, CommandView, Step, StepView};
use crate::script::{
    if_installed, if_present, lemma_spans_fit_joined, spans_fit, Op, OpView, Place, PlaceView,
    Script,
};
use crate::session::{fresh, Phase, Session, SessionView};
use crate::style::{
    bold, bold_text, dim, dim_text, green, green_text, red, red_text, reset, reset_text, yellow,
    yellow_text,
};
use crate::text::chars;

verus! {

/// How a cleanup is asked for.
pub struct CleanArgs {
    /// Only say what would be done.
    pub dry_run: bool,
    /// Keep only journal entries younger than this; `off` leaves the journal alone.
    pub journal: String,
    /// Has no effect.
    pub all: bool,
}

// ---------- the journal ----------

/// The lowercase of `c`, as far as it is a letter from `a` to `z`. Besides the capitals
/// from `A` to `Z` this concerns the Kelvin sign, whose lowercase is `k`.
pub open spec fn lower(c: char) -> char {
    if 'A' as u32 <= c as u32 <= 'Z' as u32 {
        (c as u32 + 32) as char
    } else if c as u32 == 0x212a {
        'k'
    } else {
        c
    }
}

/// Whether the lowercase of `s` is `word`, a word in the letters from `a` to `z`.
pub open spec fn is_word(s: Seq<char>, word: Seq<char>) -> bool {
    s.map_values(|c: char| lower(c)) == word
}

/// Whether the journal is to be left alone.
pub open spec fn journal_off(journal: Seq<char>) -> bool {
    is_word(journal, "off"@) || is_word(journal, "none"@) || is_word(journal, "skip"@)
}

fn lower_char(c: char) -> (l: char)
    ensures
        l == lower(c),
{
    let n = c as u32;
    if 'A' as u32 <= n && n <= 'Z' as u32 {
        (n as u8 + 32) as char
    } else if n == 0x212a {
        'k'
    } else {
        c
    }
}

fn lowers_to(s: &Vec<char>, word: &str) -> (b: bool)
    ensures
        b == is_word(s@, word@),
{
    let w = chars(word);
    let ghost lowered = s@.map_values(|c: char| lower(c));
    if s.len() != w.len() {
        assert(lowered.len() != w@.len());
        return false;
    }
    let mut i: usize = 0;
    while i < s.len()
        invariant
            i <= s.len() == w.len(),
            w@ == word@,
            lowered == s@.map_values(|c: char| lower(c)),
            forall|j: int| 0 <= j < i ==> #[trigger] lowered[j] == w@[j],
        decreases s.len() - i,
    {
        if lower_char(s[i]) != w[i] {
            assert(lowered[i as int] != w@[i as int]);
            return false;
        }
        i += 1;
    }
    assert(lowered == w@);
    true
}

/// Whether the journal is to be left alone.
pub fn is_journal_off(journal: &str) -> (b: bool)
    ensures
        b == journal_off(journal@),
{
    let s = chars(journal);
    lowers_to(&s, "off") || lowers_to(&s, "none") || lowers_to(&s, "skip")
}

// ---------- the parts of a cleanup ----------

/// A cleanup command.
pub open spec fn step_of(sudo: bool, command: CommandView, why: Seq<char>, filter_deleting: bool) -> OpView {
    OpView::Step(StepView { sudo, command, why, filter_deleting })
}

/// A directory below the home directory that is emptied.
pub open spec fn empty_of(label: Seq<char>, path: Seq<char>) -> OpView {
    OpView::Empty { label, place: PlaceView::Home(path) }
}

/// The opening words, and a look at the size of the store.
pub open spec fn opening_part(color: bool, dry_run: bool) -> Seq<OpView> {
    Seq::<OpView>::empty().push(
        OpView::Say(
            if dry_run {
                yellow_text(color) + "DRY RUN"@ + reset_text(color)
                    + " — nothing will actually change. Drop --dry-run once this plan looks right.\n\n"@
            } else {
                red_text(color) + bold_text(color) + ">>> NUKING <<<"@ + reset_text(color)
                    + "\n\n"@
            },
        ),
    ).push(OpView::MeasureBefore)
}

/// Old generations: of the system, of the user, and of home-manager.
pub open spec fn generations_part() -> Seq<OpView> {
    Seq::<OpView>::empty().push(
        step_of(
            true,
            plain_command("nix-env"@).with("-p"@).with("/nix/var/nix/profiles/system"@).with(
                "--delete-generations"@,
            ).with("old"@),
            "delete every system generation except the one currently in use"@,
            false,
        ),
    ).push(
        step_of(
            false,
            plain_command("nix-env"@).with("--delete-generations"@).with("old"@),
            "delete every generation of your own user profile except the current one"@,
            false,
        ),
    ).push(if_installed("home-manager"@, 1, ""@)).push(
        step_of(
            false,
            plain_command("home-manager"@).with("expire-generations"@).with("-1 seconds"@),
            "expire every home-manager generation older than right now"@,
            false,
        ),
    )
}

/// The store: what no live generation reaches, and duplicate files.
pub open spec fn store_part() -> Seq<OpView> {
    Seq::<OpView>::empty().push(
        step_of(
            false,
            plain_command("nix-collect-garbage"@).with("-d"@),
            "delete everything no longer reachable from a live generation (add sudo yourself if this errors on permissions)"@,
            true,
        ),
    ).push(
        step_of(
            false,
            plain_command("nix"@).with("store"@).with("optimise"@),
            "hardlink duplicate files inside the store (saves space, deletes nothing reachable)"@,
            false,
        ),
    )
}

/// The journal, unless it is to be left alone.
pub open spec fn journal_part(journal: Seq<char>) -> Seq<OpView> {
    if journal_off(journal) {
        Seq::empty()
    } else {
        Seq::<OpView>::empty().push(
            step_of(
                true,
                plain_command("journalctl"@).with("--vacuum-time="@ + journal),
                "shrink the systemd journal down to the last "@ + journal,
                false,
            ),
        )
    }
}

/// Containers: images, containers, volumes and build caches.
pub open spec fn containers_part() -> Seq<OpView> {
    Seq::<OpView>::empty().push(if_installed("docker"@, 2, ""@)).push(
        step_of(
            false,
            plain_command("docker"@).with("system"@).with("prune"@).with("-af"@).with("--volumes"@),
            "remove every unused docker image, stopped container, and unused volume"@,
            false,
        ),
    ).push(
        step_of(
            false,
            plain_command("docker"@).with("builder"@).with("prune"@).with("-af"@),
            "wipe the docker buildx/BuildKit cache"@,
            false,
        ),
    ).push(if_installed("podman"@, 2, ""@)).push(
        step_of(
            false,
            plain_command("podman"@).with("system"@).with("prune"@).with("-af"@).with("--volumes"@),
            "remove every unused podman image, stopped container, and unused volume"@,
            false,
        ),
    ).push(
        step_of(
            false,
            plain_command("podman"@).with("image"@).with("prune"@).with("-af"@),
            "remove every dangling/unused podman image"@,
            false,
        ),
    )
}

/// Stray roots, caches, the trash and core dumps.
pub open spec fn leftovers_part() -> Seq<OpView> {
    Seq::<OpView>::empty().push(OpView::SweepRoots).push(
        empty_of("~/.cache"@, ".cache"@),
    ).push(empty_of("~/.local/share/Trash"@, ".local/share/Trash"@)).push(
        if_present("/var/lib/systemd/coredump"@),
    ).push(
        step_of(
            true,
            plain_command("find"@).with("/var/lib/systemd/coredump"@).with("-mindepth"@).with(
                "1"@,
            ).with("-delete"@),
            "delete every stored systemd coredump"@,
            false,
        ),
    )
}

/// The caches of development tools.
pub open spec fn tools_part() -> Seq<OpView> {
    Seq::<OpView>::empty().push(if_installed("cargo"@, 2, ""@)).push(
        empty_of("~/.cargo/registry/cache"@, ".cargo/registry/cache"@),
    ).push(empty_of("~/.cargo/registry/src"@, ".cargo/registry/src"@)).push(
        if_installed("npm"@, 1, ""@),
    ).push(
        step_of(
            false,
            plain_command("npm"@).with("cache"@).with("clean"@).with("--force"@),
            "wipe the entire npm cache"@,
            false,
        ),
    ).push(if_installed("go"@, 1, ""@)).push(empty_of("~/.cache/go-build"@, ".cache/go-build"@))
}

/// The closing words, after a look at how the size of the store has changed.
pub open spec fn ending_part(color: bool, dry_run: bool) -> Seq<OpView> {
    if dry_run {
        Seq::<OpView>::empty().push(
            OpView::Say(
                "\n"@ + dim_text(color)
                    + "Looks right? Re-run the same command without --dry-run to actually do it."@
                    + reset_text(color) + "\n"@,
            ),
        )
    } else {
        Seq::<OpView>::empty().push(OpView::MeasureAfter).push(
            OpView::Say(
                "\n"@ + green_text(color) + bold_text(color) + ">>> DONE <<<"@ + reset_text(color)
                    + "\n"@,
            ),
        )
    }
}

/// The whole cleanup.
pub open spec fn clean_script(color: bool, dry_run: bool, journal: Seq<char>) -> Seq<OpView> {
    opening_part(color, dry_run) + generations_part() + store_part() + journal_part(journal)
        + containers_part() + leftovers_part() + tools_part() + ending_part(color, dry_run)
}

// ---------- putting the cleanup together ----------

fn step(part: &mut Script, sudo: bool, command: Command, why: &str, filter_deleting: bool)
    ensures
        final(part)@ == old(part)@.push(step_of(sudo, command@, why@, filter_deleting)),
{
    part.add(Op::Step(Step { sudo, command, why: why.to_owned(), filter_deleting }));
}

fn nuke_dir_contents(part: &mut Script, label: &str, path: &str)
    ensures
        final(part)@ == old(part)@.push(empty_of(label@, path@)),
{
    part.add(Op::Empty { label: label.to_owned(), place: Place::Home(path.to_owned()) });
}

fn opening(color: bool, dry_run: bool) -> (part: Script)
    ensures
        part@ == opening_part(color, dry_run),
{
    let mut part = Script::new();
    let words = if dry_run {
        yellow(color).concat("DRY RUN").concat(reset(color).as_str()).concat(
            " — nothing will actually change. Drop --dry-run once this plan looks right.\n\n",
        )
    } else {
        red(color).concat(bold(color).as_str()).concat(">>> NUKING <<<").concat(
            reset(color).as_str(),
        ).concat("\n\n")
    };
    part.add(Op::Say(words));
    part.add(Op::MeasureBefore);
    part
}

fn generations() -> (part: Script)
    ensures
        part@ == generations_part(),
{
    let mut part = Script::new();
    step(
        &mut part,
        true,
        Command::new("nix-env").arg("-p").arg("/nix/var/nix/profiles/system").arg(
            "--delete-generations",
        ).arg("old"),
        "delete every system generation except the one currently in use",
        false,
    );
    step(
        &mut part,
        false,
        Command::new("nix-env").arg("--delete-generations").arg("old"),
        "delete every generation of your own user profile except the current one",
        false,
    );
    part.add(Op::if_installed("home-manager", 1, ""));
    step(
        &mut part,
        false,
        Command::new("home-manager").arg("expire-generations").arg("-1 seconds"),
        "expire every home-manager generation older than right now",
        false,
    );
    part
}

fn store() -> (part: Script)
    ensures
        part@ == store_part(),
{
    let mut part = Script::new();
    step(
        &mut part,
        false,
        Command::new("nix-collect-garbage").arg("-d"),
        "delete everything no longer reachable from a live generation (add sudo yourself if this errors on permissions)",
        true,
    );
    step(
        &mut part,
        false,
        Command::new("nix").arg("store").arg("optimise"),
        "hardlink duplicate files inside the store (saves space, deletes nothing reachable)",
        false,
    );
    part
}

fn journal_cleanup(journal: &str) -> (part: Script)
    ensures
        part@ == journal_part(journal@),
{
    let mut part = Script::new();
    if !is_journal_off(journal) {
        let flag = "--vacuum-time=".to_owned().concat(journal);
        let why = "shrink the systemd journal down to the last ".to_owned().concat(journal);
        step(
            &mut part,
            true,
            Command::new("journalctl").arg(flag.as_str()),
            why.as_str(),
            false,
        );
    }
    part
}

fn containers() -> (part: Script)
    ensures
        part@ == containers_part(),
{
    let mut part = Script::new();
    part.add(Op::if_installed("docker", 2, ""));
    step(
        &mut part,
        false,
        Command::new("docker").arg("system").arg("prune").arg("-af").arg("--volumes"),
        "remove every unused docker image, stopped container, and unused volume",
        false,
    );
    step(
        &mut part,
        false,
        Command::new("docker").arg("builder").arg("prune").arg("-af"),
        "wipe the docker buildx/BuildKit cache",
        false,
    );
    part.add(Op::if_installed("podman", 2, ""));
    step(
        &mut part,
        false,
        Command::new("podman").arg("system").arg("prune").arg("-af").arg("--volumes"),
        "remove every unused podman image, stopped container, and unused volume",
        false,
    );
    step(
        &mut part,
        false,
        Command::new("podman").arg("image").arg("prune").arg("-af"),
        "remove every dangling/unused podman image",
        false,
    );
    part
}

fn leftovers() -> (part: Script)
    ensures
        part@ == leftovers_part(),
{
    let mut part = Script::new();
    part.add(Op::SweepRoots);
    nuke_dir_contents(&mut part, "~/.cache", ".cache");
    nuke_dir_contents(&mut part, "~/.local/share/Trash", ".local/share/Trash");
    // `find -mindepth 1 -delete` empties the directory and leaves it standing.
    part.add(Op::if_present("/var/lib/systemd/coredump"));
    step(
        &mut part,
        true,
        Command::new("find").arg("/var/lib/systemd/coredump").arg("-mindepth").arg("1").arg(
            "-delete",
        ),
        "delete every stored systemd coredump",
        false,
    );
    part
}

fn tools() -> (part: Script)
    ensures
        part@ == tools_part(),
{
    let mut part = Script::new();
    part.add(Op::if_installed("cargo", 2, ""));
    nuke_dir_contents(&mut part, "~/.cargo/registry/cache", ".cargo/registry/cache");
    nuke_dir_contents(&mut part, "~/.cargo/registry/src", ".cargo/registry/src");
    part.add(Op::if_installed("npm", 1, ""));
    step(
        &mut part,
        false,
        Command::new("npm").arg("cache").arg("clean").arg("--force"),
        "wipe the entire npm cache",
        false,
    );
    part.add(Op::if_installed("go", 1, ""));
    nuke_dir_contents(&mut part, "~/.cache/go-build", ".cache/go-build");
    part
}

fn ending(color: bool, dry_run: bool) -> (part: Script)
    ensures
        part@ == ending_part(color, dry_run),
{
    let mut part = Script::new();
    if dry_run {
        let words = "\n".to_owned().concat(dim(color).as_str()).concat(
            "Looks right? Re-run the same command without --dry-run to actually do it.",
        ).concat(reset(color).as_str()).concat("\n");
        part.add(Op::Say(words));
    } else {
        part.add(Op::MeasureAfter);
        let words = "\n".to_owned().concat(green(color).as_str()).concat(
            bold(color).as_str(),
        ).concat(">>> DONE <<<").concat(reset(color).as_str()).concat("\n");
        part.add(Op::Say(words));
    }
    part
}

pub proof fn lemma_clean_spans_fit(color: bool, dry_run: bool, journal: Seq<char>)
    ensures
        spans_fit(clean_script(color, dry_run, journal)),
{
    let a = opening_part(color, dry_run);
    let b = a + generations_part();
    let c = b + store_part();
    let d = c + journal_part(journal);
    let e = d + containers_part();
    let f = e + leftovers_part();
    let g = f + tools_part();
    lemma_spans_fit_joined(a, generations_part());
    lemma_spans_fit_joined(b, store_part());
    lemma_spans_fit_joined(c, journal_part(journal));
    lemma_spans_fit_joined(d, containers_part());
    lemma_spans_fit_joined(e, leftovers_part());
    lemma_spans_fit_joined(f, tools_part());
    lemma_spans_fit_joined(g, ending_part(color, dry_run));
}

/// The session that a cleanup begins with.
pub open spec fn cleaning(args: CleanArgs, home: Seq<char>, color: bool) -> SessionView {
    fresh(clean_script(color, args.dry_run, args.journal@), home, color, args.dry_run)
}

/// How a cleanup is asked for decides only whether it is a dry run and what becomes of the
/// journal: the third setting has no effect.
pub proof fn law_settings(args: CleanArgs, all: bool, home: Seq<char>, color: bool)
    ensures
        cleaning(CleanArgs { all, ..args }, home, color) == cleaning(args, home, color),
        cleaning(args, home, color).dry_run == args.dry_run,
        cleaning(args, home, color).home == home,
        cleaning(args, home, color).color == color,
        cleaning(args, home, color).ops == clean_script(color, args.dry_run, args.journal@),
        cleaning(args, home, color).phase == Phase::Idle,
        cleaning(args, home, color).pc == 0,
{
}

/// The session that cleans up, or says what a cleanup would do.
pub fn clean(args: &CleanArgs, home: &str, color: bool) -> (session: Session)
    ensures
        session@ == fresh(
            clean_script(color, args.dry_run, args.journal@),
            home@,
            color,
            args.dry_run,
        ),
        session@ == cleaning(*args, home@, color),
        session@.wf(),
{
    let mut script = opening(color, args.dry_run);
    script.extend(generations());
    script.extend(store());
    script.extend(journal_cleanup(args.journal.as_str()));
    script.extend(containers());
    script.extend(leftovers());
    script.extend(tools());
    script.extend(ending(color, args.dry_run));
    proof {
        lemma_clean_spans_fit(color, args.dry_run, args.journal@);
    }
    Session::new(script, home, color, args.dry_run)
}

// ---------- what the journal setting does ----------

/// Whether an operation runs `journalctl`.
pub open spec fn runs_journalctl(op: OpView) -> bool {
    op matches OpView::Step(step) && step.command.program == "journalctl"@
}

/// Whether no operation of a script runs `journalctl`.
pub open spec fn leaves_journal(ops: Seq<OpView>) -> bool {
    forall|i: int| 0 <= i < ops.len() ==> !runs_journalctl(#[trigger] ops[i])
}

proof fn lemma_leaves_journal_joined(a: Seq<OpView>, b: Seq<OpView>)
    requires
        leaves_journal(a),
        leaves_journal(b),
    ensures
        leaves_journal(a + b),
{
    let ops = a + b;
    assert forall|i: int| 0 <= i < ops.len() implies !runs_journalctl(#[trigger] ops[i]) by {
        if i < a.len() {
            assert(ops[i] == a[i]);
        } else {
            assert(ops[i] == b[i - a.len()]);
        }
    }
}

proof fn lemma_parts_leave_journal(color: bool, dry_run: bool)
    ensures
        leaves_journal(opening_part(color, dry_run)),
        leaves_journal(generations_part()),
        leaves_journal(store_part()),
        leaves_journal(containers_part()),
        leaves_journal(leftovers_part()),
        leaves_journal(tools_part()),
        leaves_journal(ending_part(color, dry_run)),
{
    reveal_strlit("journalctl");
    reveal_strlit("nix-env");
    reveal_strlit("home-manager");
    reveal_strlit("nix-collect-garbage");
    reveal_strlit("nix");
    reveal_strlit("docker");
    reveal_strlit("podman");
    reveal_strlit("find");
    reveal_strlit("npm");
    assert("journalctl"@.len() == 10);
    assert("nix-env"@.len() == 7 && "home-manager"@.len() == 12 && "nix-collect-garbage"@.len() == 19
        && "nix"@.len() == 3 && "docker"@.len() == 6 && "podman"@.len() == 6 && "find"@.len() == 4
        && "npm"@.len() == 3);
}

/// With the journal off, no operation of a cleanup runs `journalctl`. Else one does, as
/// root, to keep only what is younger than the given time, and no other.
pub proof fn law_journal_setting(color: bool, dry_run: bool, journal: Seq<char>)
    ensures
        journal_off(journal) ==> leaves_journal(clean_script(color, dry_run, journal)),
        !journal_off(journal) ==> exists|k: int|
            0 <= k < clean_script(color, dry_run, journal).len() && #[trigger] clean_script(
                color,
                dry_run,
                journal,
            )[k] == step_of(
                true,
                plain_command("journalctl"@).with("--vacuum-time="@ + journal),
                "shrink the systemd journal down to the last "@ + journal,
                false,
            ) && forall|i: int|
                0 <= i < clean_script(color, dry_run, journal).len() && i != k
                    ==> !runs_journalctl(#[trigger] clean_script(color, dry_run, journal)[i]),
{
    let before = opening_part(color, dry_run) + generations_part() + store_part();
    let after = containers_part() + leftovers_part() + tools_part() + ending_part(color, dry_run);
    let ops = clean_script(color, dry_run, journal);
    lemma_parts_leave_journal(color, dry_run);
    lemma_leaves_journal_joined(opening_part(color, dry_run), generations_part());
    lemma_leaves_journal_joined(opening_part(color, dry_run) + generations_part(), store_part());
    lemma_leaves_journal_joined(containers_part(), leftovers_part());
    lemma_leaves_journal_joined(containers_part() + leftovers_part(), tools_part());
    lemma_leaves_journal_joined(
        containers_part() + leftovers_part() + tools_part(),
        ending_part(color, dry_run),
    );
    assert(ops == before + journal_part(journal) + after);
    if journal_off(journal) {
        lemma_leaves_journal_joined(before, journal_part(journal));
        lemma_leaves_journal_joined(before + journal_part(journal), after);
    } else {
        let k = before.len() as int;
        assert(ops[k] == journal_part(journal)[0]);
        assert forall|i: int| 0 <= i < ops.len() && i != k implies !runs_journalctl(
            #[trigger] ops[i],
        ) by {
            if i < k {
                assert(ops[i] == before[i]);
            } else {
                assert(ops[i] == after[i - k - 1]);
            }
        }
    }
}

/// The journal is left alone for three words, in small or large letters: `off`, `none` and
/// `skip`. The Kelvin sign counts as a `K`. No other setting leaves it alone.
pub proof fn law_journal_words(journal: Seq<char>)
    ensures
        journal_off(journal) <==> {
            ||| journal.len() == 3 && (journal[0] == 'o' || journal[0] == 'O') && (journal[1] == 'f'
                || journal[1] == 'F') && (journal[2] == 'f' || journal[2] == 'F')
            ||| journal.len() == 4 && (journal[0] == 'n' || journal[0] == 'N') && (journal[1] == 'o'
                || journal[1] == 'O') && (journal[2] == 'n' || journal[2] == 'N') && (journal[3]
                == 'e' || journal[3] == 'E')
            ||| journal.len() == 4 && (journal[0] == 's' || journal[0] == 'S') && (journal[1] == 'k'
                || journal[1] == 'K' || journal[1] == '\u{212a}') && (journal[2] == 'i'
                || journal[2] == 'I') && (journal[3] == 'p' || journal[3] == 'P')
        },
{
    let low = journal.map_values(|c: char| lower(c));
    reveal_strlit("off");
    reveal_strlit("none");
    reveal_strlit("skip");
    assert("off"@.len() == 3 && "none"@.len() == 4 && "skip"@.len() == 4);
    assert(low.len() == journal.len());
    assert(forall|i: int| 0 <= i < low.len() ==> #[trigger] low[i] == lower(journal[i]));
    if journal.len() == 3 {
        lemma_letter(journal[0]);
        lemma_letter(journal[1]);
        lemma_letter(journal[2]);
        assert(low == "off"@ <==> low[0] == 'o' && low[1] == 'f' && low[2] == 'f') by {
            if low[0] == 'o' && low[1] == 'f' && low[2] == 'f' {
                assert(low == "off"@);
            }
        }
    } else if journal.len() == 4 {
        lemma_letter(journal[0]);
        lemma_letter(journal[1]);
        lemma_letter(journal[2]);
        lemma_letter(journal[3]);
        assert(low == "none"@ <==> low[0] == 'n' && low[1] == 'o' && low[2] == 'n' && low[3] == 'e')
            by {
            if low[0] == 'n' && low[1] == 'o' && low[2] == 'n' && low[3] == 'e' {
                assert(low == "none"@);
            }
        }
        assert(low == "skip"@ <==> low[0] == 's' && low[1] == 'k' && low[2] == 'i' && low[3] == 'p')
            by {
            if low[0] == 's' && low[1] == 'k' && low[2] == 'i' && low[3] == 'p' {
                assert(low == "skip"@);
            }
        }
    }
}

proof fn lemma_letter(c: char)
    ensures
        lower(c) == 'o' <==> c == 'o' || c == 'O',
        lower(c) == 'f' <==> c == 'f' || c == 'F',
        lower(c) == 'n' <==> c == 'n' || c == 'N',
        lower(c) == 'e' <==> c == 'e' || c == 'E',
        lower(c) == 's' <==> c == 's' || c == 'S',
        lower(c) == 'k' <==> c == 'k' || c == 'K' || c == '\u{212a}',
        lower(c) == 'i' <==> c == 'i' || c == 'I',
        lower(c) == 'p' <==> c == 'p' || c == 'P',
{
    if 'A' as u32 <= c as u32 <= 'Z' as u32 {
        let l = lower(c);
        assert(l as u32 == c as u32 + 32);
    }
}

} // verus!
