//! The status report: what takes up space, and what a cleanup would do about it.
use vstd::prelude::*;

use crate::command::{plain_command, Command, CommandView};
use crate::script::{
    heading_of, if_installed, if_present, indented_of, inline_of, lemma_spans_fit_joined, spans_fit,
    Op, OpView, Script, Show, ShowView,
};
use crate::session::{fresh, roots_command, store_size_command, Session};
use crate::style::{reset, reset_text, yellow, yellow_text};

verus! {

/// The size of a directory.
pub open spec fn du(path: Seq<char>) -> CommandView {
    plain_command("du"@).with("-sh"@).with(path)
}

/// The listing of the generations of a profile.
pub open spec fn list_generations(profile: Seq<char>) -> CommandView {
    plain_command("nix-env"@).with("-p"@).with(profile).with("--list-generations"@)
}

/// The queries that change nothing: sizes of directories and of the file system, the
/// generations of a profile and of home-manager, the closure of the running system, the
/// live garbage collector roots, and how much containers and the journal take up.
pub open spec fn is_query(c: CommandView) -> bool {
    ||| c == du(c.args[1])
    ||| c == plain_command("df"@).with("-h"@).with("/nix/store"@)
    ||| c == list_generations(c.args[1])
    ||| c == plain_command("home-manager"@).with("generations"@)
    ||| c == plain_command("nix"@).with("path-info"@).with("-rS"@).with("/run/current-system"@)
    ||| c == roots_command()
    ||| c == plain_command("docker"@).with("system"@).with("df"@)
    ||| c == plain_command("podman"@).with("system"@).with("df"@)
    ||| c == plain_command("journalctl"@).with("--disk-usage"@)
}

/// The report on the generations of a profile.
pub open spec fn generations_of(label: Seq<char>, profile: Seq<char>) -> OpView {
    OpView::Report {
        command: list_generations(profile),
        show: ShowView::Generations { label, profile },
    }
}

/// The part on the Nix store.
pub open spec fn store_part(color: bool) -> Seq<OpView> {
    Seq::<OpView>::empty().push(heading_of(color, "Nix store"@)).push(
        inline_of(store_size_command(), "  size on disk: "@, ""@),
    ).push(indented_of(plain_command("df"@).with("-h"@).with("/nix/store"@), ""@))
}

/// The part on generations.
pub open spec fn generations_part(color: bool, home: Seq<char>) -> Seq<OpView> {
    Seq::<OpView>::empty().push(
        heading_of(color, "Generations (clean deletes ALL of these except the current one)"@),
    ).push(generations_of("system profile"@, "/nix/var/nix/profiles/system"@)).push(
        generations_of("your user profile"@, home + "/.nix-profile"@),
    ).push(
        if_installed("home-manager"@, 1, "  home-manager: not installed, skipping\n"@),
    ).push(
        OpView::Report {
            command: plain_command("home-manager"@).with("generations"@),
            show: ShowView::Counted { before: "  home-manager: "@, after: " generation(s)"@ },
        },
    )
}

/// The note that boot entries are left alone.
pub open spec fn boot_note(color: bool) -> Seq<char> {
    "  "@ + yellow_text(color) + "not auto-deleted:"@ + reset_text(color)
        + " pruning boot entries by hand risks an unbootable system; the configurationLimit option is the real fix, not a cleanup pass.\n"@
}

/// The part on boot entries.
pub open spec fn boot_part(color: bool) -> Seq<OpView> {
    Seq::<OpView>::empty().push(
        heading_of(color, "Boot entries (clean does NOT touch these — see note below)"@),
    ).push(OpView::BootEntries).push(OpView::Say(boot_note(color)))
}

/// The part on the largest paths of the running system.
pub open spec fn closure_part(color: bool) -> Seq<OpView> {
    Seq::<OpView>::empty().push(
        heading_of(color, "Biggest paths in your current system closure"@),
    ).push(
        OpView::Report {
            command: plain_command("nix"@).with("path-info"@).with("-rS"@).with(
                "/run/current-system"@,
            ),
            show: ShowView::Largest(15),
        },
    )
}

/// The part on stray roots.
pub open spec fn roots_part(color: bool) -> Seq<OpView> {
    Seq::<OpView>::empty().push(
        heading_of(
            color,
            "Stray build results / dev-shell roots pinning old store paths (ALL get nuked, any age)"@,
        ),
    ).push(OpView::Report { command: roots_command(), show: ShowView::Roots })
}

/// The part on containers and the journal.
pub open spec fn services_part(color: bool) -> Seq<OpView> {
    Seq::<OpView>::empty().push(heading_of(color, "Non-Nix disk hogs (ALL get nuked)"@)).push(
        if_installed("docker"@, 1, ""@),
    ).push(indented_of(plain_command("docker"@).with("system"@).with("df"@), ""@)).push(
        if_installed("podman"@, 1, ""@),
    ).push(indented_of(plain_command("podman"@).with("system"@).with("df"@), ""@)).push(
        inline_of(plain_command("journalctl"@).with("--disk-usage"@), "  "@, ""@),
    )
}

/// The part on caches and the trash.
pub open spec fn caches_part(home: Seq<char>) -> Seq<OpView> {
    Seq::<OpView>::empty().push(
        inline_of(du(home + "/.cache"@), "  ~/.cache: "@, "  (clean empties this completely)"@),
    ).push(if_present(home + "/.local/share/Trash"@)).push(
        inline_of(
            du(home + "/.local/share/Trash"@),
            "  ~/.local/share/Trash: "@,
            "  (clean empties this completely)"@,
        ),
    )
}

/// The part on development tools and core dumps.
pub open spec fn tools_part(home: Seq<char>) -> Seq<OpView> {
    Seq::<OpView>::empty().push(if_installed("cargo"@, 1, ""@)).push(
        inline_of(
            du(home + "/.cargo/registry"@),
            "  ~/.cargo/registry: "@,
            "  (clean nukes cache+src)"@,
        ),
    ).push(if_installed("npm"@, 1, ""@)).push(
        indented_of(du(home + "/.npm/_cacache"@), "  npm cache: "@),
    ).push(if_installed("go"@, 1, ""@)).push(
        inline_of(
            du(home + "/.cache/go-build"@),
            "  ~/.cache/go-build: "@,
            "  (clean nukes this)"@,
        ),
    ).push(if_present("/var/lib/systemd/coredump"@)).push(
        inline_of(
            du("/var/lib/systemd/coredump"@),
            "  /var/lib/systemd/coredump: "@,
            "  (clean nukes this)"@,
        ),
    )
}

/// The closing words.
pub open spec fn closing_part() -> Seq<OpView> {
    Seq::<OpView>::empty().push(
        OpView::Say(
            "\nRun `nix-reaper clean --dry-run` to preview the full nuke, or `nix-reaper clean` to just do it.\n"@,
        ),
    )
}

/// The whole report.
pub open spec fn status_script(color: bool, home: Seq<char>) -> Seq<OpView> {
    store_part(color) + generations_part(color, home) + boot_part(color) + closure_part(color)
        + roots_part(color) + services_part(color) + caches_part(home) + tools_part(home)
        + closing_part()
}

// ---------- putting the report together ----------

fn add_du(part: &mut Script, path: &str, before: &str, after: &str)
    ensures
        final(part)@ == old(part)@.push(inline_of(du(path@), before@, after@)),
{
    part.add(Op::inline(Command::new("du").arg("-sh").arg(path), before, after));
}

fn add_generations(part: &mut Script, label: &str, profile: &str)
    ensures
        final(part)@ == old(part)@.push(generations_of(label@, profile@)),
{
    part.add(
        Op::Report {
            command: Command::new("nix-env").arg("-p").arg(profile).arg("--list-generations"),
            show: Show::Generations { label: label.to_owned(), profile: profile.to_owned() },
        },
    );
}

fn store(color: bool) -> (part: Script)
    ensures
        part@ == store_part(color),
{
    let mut part = Script::new();
    part.add(Op::heading(color, "Nix store"));
    add_du(&mut part, "/nix/store", "  size on disk: ", "");
    part.add(Op::indented(Command::new("df").arg("-h").arg("/nix/store"), ""));
    part
}

fn generations(color: bool, home: &str) -> (part: Script)
    ensures
        part@ == generations_part(color, home@),
{
    let mut part = Script::new();
    part.add(
        Op::heading(color, "Generations (clean deletes ALL of these except the current one)"),
    );
    add_generations(&mut part, "system profile", "/nix/var/nix/profiles/system");
    add_generations(
        &mut part,
        "your user profile",
        home.to_owned().concat("/.nix-profile").as_str(),
    );
    part.add(
        Op::if_installed("home-manager", 1, "  home-manager: not installed, skipping\n"),
    );
    part.add(
        Op::Report {
            command: Command::new("home-manager").arg("generations"),
            show: Show::Counted {
                before: "  home-manager: ".to_owned(),
                after: " generation(s)".to_owned(),
            },
        },
    );
    part
}

fn boot(color: bool) -> (part: Script)
    ensures
        part@ == boot_part(color),
{
    let mut part = Script::new();
    part.add(Op::heading(color, "Boot entries (clean does NOT touch these — see note below)"));
    part.add(Op::BootEntries);
    let note = "  ".to_owned().concat(yellow(color).as_str()).concat("not auto-deleted:").concat(
        reset(color).as_str(),
    ).concat(
        " pruning boot entries by hand risks an unbootable system; the configurationLimit option is the real fix, not a cleanup pass.\n",
    );
    part.add(Op::Say(note));
    part
}

fn closure(color: bool) -> (part: Script)
    ensures
        part@ == closure_part(color),
{
    let mut part = Script::new();
    part.add(Op::heading(color, "Biggest paths in your current system closure"));
    part.add(
        Op::Report {
            command: Command::new("nix").arg("path-info").arg("-rS").arg("/run/current-system"),
            show: Show::Largest(15),
        },
    );
    part
}

fn roots(color: bool) -> (part: Script)
    ensures
        part@ == roots_part(color),
{
    let mut part = Script::new();
    part.add(
        Op::heading(
            color,
            "Stray build results / dev-shell roots pinning old store paths (ALL get nuked, any age)",
        ),
    );
    part.add(
        Op::Report {
            command: Command::new("nix-store").arg("--gc").arg("--print-roots"),
            show: Show::Roots,
        },
    );
    part
}

fn services(color: bool) -> (part: Script)
    ensures
        part@ == services_part(color),
{
    let mut part = Script::new();
    part.add(Op::heading(color, "Non-Nix disk hogs (ALL get nuked)"));
    part.add(Op::if_installed("docker", 1, ""));
    part.add(Op::indented(Command::new("docker").arg("system").arg("df"), ""));
    part.add(Op::if_installed("podman", 1, ""));
    part.add(Op::indented(Command::new("podman").arg("system").arg("df"), ""));
    part.add(Op::inline(Command::new("journalctl").arg("--disk-usage"), "  ", ""));
    part
}

fn caches(home: &str) -> (part: Script)
    ensures
        part@ == caches_part(home@),
{
    let mut part = Script::new();
    let cache = home.to_owned().concat("/.cache");
    add_du(&mut part, cache.as_str(), "  ~/.cache: ", "  (clean empties this completely)");
    let trash = home.to_owned().concat("/.local/share/Trash");
    part.add(Op::if_present(trash.as_str()));
    add_du(
        &mut part,
        trash.as_str(),
        "  ~/.local/share/Trash: ",
        "  (clean empties this completely)",
    );
    part
}

fn tools(home: &str) -> (part: Script)
    ensures
        part@ == tools_part(home@),
{
    let mut part = Script::new();
    let registry = home.to_owned().concat("/.cargo/registry");
    part.add(Op::if_installed("cargo", 1, ""));
    add_du(&mut part, registry.as_str(), "  ~/.cargo/registry: ", "  (clean nukes cache+src)");
    part.add(Op::if_installed("npm", 1, ""));
    let npm_cache = home.to_owned().concat("/.npm/_cacache");
    part.add(
        Op::indented(Command::new("du").arg("-sh").arg(npm_cache.as_str()), "  npm cache: "),
    );
    let go_build = home.to_owned().concat("/.cache/go-build");
    part.add(Op::if_installed("go", 1, ""));
    add_du(&mut part, go_build.as_str(), "  ~/.cache/go-build: ", "  (clean nukes this)");
    part.add(Op::if_present("/var/lib/systemd/coredump"));
    add_du(
        &mut part,
        "/var/lib/systemd/coredump",
        "  /var/lib/systemd/coredump: ",
        "  (clean nukes this)",
    );
    part
}

pub proof fn lemma_status_spans_fit(color: bool, home: Seq<char>)
    ensures
        spans_fit(status_script(color, home)),
{
    let a = store_part(color);
    let b = a + generations_part(color, home);
    let c = b + boot_part(color);
    let d = c + closure_part(color);
    let e = d + roots_part(color);
    let f = e + services_part(color);
    let g = f + caches_part(home);
    let h = g + tools_part(home);
    lemma_spans_fit_joined(a, generations_part(color, home));
    lemma_spans_fit_joined(b, boot_part(color));
    lemma_spans_fit_joined(c, closure_part(color));
    lemma_spans_fit_joined(d, roots_part(color));
    lemma_spans_fit_joined(e, services_part(color));
    lemma_spans_fit_joined(f, caches_part(home));
    lemma_spans_fit_joined(g, tools_part(home));
    lemma_spans_fit_joined(h, closing_part());
}

/// The session that reports what takes up space.
pub fn status(home: &str, color: bool) -> (session: Session)
    ensures
        session@ == fresh(status_script(color, home@), home@, color, false),
        session@.wf(),
{
    let mut script = store(color);
    script.extend(generations(color, home));
    script.extend(boot(color));
    script.extend(closure(color));
    script.extend(roots(color));
    script.extend(services(color));
    script.extend(caches(home));
    script.extend(tools(home));
    let mut closing = Script::new();
    closing.add(
        Op::Say(
            "\nRun `nix-reaper clean --dry-run` to preview the full nuke, or `nix-reaper clean` to just do it.\n".to_owned(),
        ),
    );
    script.extend(closing);
    proof {
        lemma_status_spans_fit(color, home@);
    }
    Session::new(script, home, color, false)
}

} // verus!
