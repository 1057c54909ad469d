use nix_reaper::clean::{clean, is_journal_off, CleanArgs};
use nix_reaper::cleanup::{fate_line, no_roots_line, unreadable_line, RootFate};
use nix_reaper::command::{rendered, Outcome};
use nix_reaper::report::LinkAge;
use nix_reaper::script::Place;
use nix_reaper::session::{Ask, Entry, LinkState, Reply, Session};
use nix_reaper::status::status;

/// A machine that a session is run on.
struct Machine {
    installed: Vec<&'static str>,
    present: Vec<&'static str>,
    outputs: Vec<(&'static str, &'static str)>,
    links: Vec<(&'static str, bool)>,
    entries: Vec<Entry>,
    readable: bool,
    removable: bool,
}

fn bare() -> Machine {
    Machine {
        installed: vec![],
        present: vec![],
        outputs: vec![],
        links: vec![],
        entries: vec![],
        readable: true,
        removable: true,
    }
}

/// Whether a command only asks for something.
fn is_query(line: &str) -> bool {
    line.starts_with("du -sh ")
        || line.ends_with(" --list-generations")
        || [
            "df -h /nix/store",
            "home-manager generations",
            "nix path-info -rS /run/current-system",
            ROOTS,
            "docker system df",
            "podman system df",
            "journalctl --disk-usage",
        ]
        .contains(&line)
}

/// Runs a session and returns all that it prints and all that it changes.
fn drive(mut session: Session, home: &str, mut m: Machine) -> (String, Vec<String>) {
    let mut out = String::new();
    let mut changes = Vec::new();
    let mut turn = session.begin();
    loop {
        out.push_str(&turn.text);
        let reply = match turn.ask {
            Ask::Succeeds(c) => {
                assert_eq!(c.program, "sh");
                Reply::Answer(m.installed.iter().any(|p| c.args[1].starts_with(&format!("command -v {} ", p))))
            }
            Ask::Capture(c) => {
                let line = rendered(&c);
                assert!(is_query(&line), "{}", line);
                let found = m.outputs.iter().find(|(k, _)| *k == line);
                Reply::Output(found.map(|(_, v)| v.to_string()))
            }
            Ask::Present(p) => {
                let path = p.path(home);
                Reply::Answer(m.present.contains(&path.as_str()))
            }
            Ask::Age(_) => Reply::Age(LinkAge::Seconds(86400 * 3)),
            Ask::Link(p) => Reply::Link(match m.links.iter().find(|(k, _)| *k == p) {
                Some((_, true)) => LinkState::Symlink,
                Some((_, false)) => LinkState::Other,
                None => LinkState::Gone,
            }),
            Ask::Unlink(p) => {
                changes.push(format!("unlink {}", p));
                Reply::Tried(if m.removable { Ok(()) } else { Err("denied".to_string()) })
            }
            Ask::OpenDir(_) => {
                Reply::Tried(if m.readable { Ok(()) } else { Err("unreadable".to_string()) })
            }
            Ask::NextEntry => {
                Reply::Entry(if m.entries.is_empty() { Entry::End } else { m.entries.remove(0) })
            }
            Ask::RemoveEntry { tree } => {
                changes.push(format!("remove tree={}", tree));
                Reply::Answer(m.removable)
            }
            Ask::Run { command, filter_deleting } => {
                changes.push(format!("run {} {}", rendered(&command), filter_deleting));
                Reply::Ran(Outcome::Success)
            }
            Ask::Finished => return (out, changes),
        };
        assert!(session.can_resume(&reply));
        turn = session.resume(reply);
    }
}

fn args(dry_run: bool, journal: &str) -> CleanArgs {
    CleanArgs { dry_run, journal: journal.to_string(), all: false }
}

const ROOTS: &str = "nix-store --gc --print-roots";

#[test]
fn the_journal_is_left_alone_on_request() {
    for word in ["off", "OFF", "Off", "none", "None", "skip", "SKIP", "s\u{212a}ip"] {
        assert!(is_journal_off(word), "{:?}", word);
    }
    for word in ["", "o", "offf", " off", "1s", "no", "ſkip"] {
        assert!(!is_journal_off(word), "{:?}", word);
    }
    for ch in '\0'..=char::MAX {
        for word in [format!("{}ff", ch), format!("no{}e", ch), format!("s{}ip", ch), format!("ski{}", ch)] {
            let want = matches!(word.to_lowercase().as_str(), "off" | "none" | "skip");
            assert_eq!(is_journal_off(&word), want, "{:?}", word);
        }
    }
}

#[test]
fn a_dry_run_on_a_bare_machine() {
    let (out, changes) = drive(clean(&args(true, "1s"), "/home/al", false), "/home/al", bare());
    assert!(changes.is_empty());
    assert_eq!(
        out,
        "DRY RUN — nothing will actually change. Drop --dry-run once this plan looks right.\n\n\
         [dry-run] sudo nix-env -p /nix/var/nix/profiles/system --delete-generations old\n          \
         (delete every system generation except the one currently in use)\n\
         [dry-run] nix-env --delete-generations old\n          \
         (delete every generation of your own user profile except the current one)\n\
         [dry-run] nix-collect-garbage -d\n          \
         (delete everything no longer reachable from a live generation (add sudo yourself if this errors on permissions))\n\
         [dry-run] nix store optimise\n          \
         (hardlink duplicate files inside the store (saves space, deletes nothing reachable))\n\
         [dry-run] sudo journalctl --vacuum-time=1s\n          \
         (shrink the systemd journal down to the last 1s)\n\
         [roots] none found under /home/al\n\
         \nLooks right? Re-run the same command without --dry-run to actually do it.\n"
    );
}

fn full() -> Machine {
    Machine {
        installed: vec!["home-manager", "docker", "podman", "cargo", "npm", "go"],
        present: vec![
            "/home/al/.cache",
            "/home/al/.local/share/Trash",
            "/var/lib/systemd/coredump",
            "/home/al/.cargo/registry/cache",
            "/home/al/.cargo/registry/src",
            "/home/al/.cache/go-build",
        ],
        outputs: vec![
            ("du -sh /nix/store", "9G\t/nix/store"),
            (ROOTS, "/home/al/r -> /nix/store/a\n/home/al/d -> /nix/store/b\n/home/al/g -> /nix/store/c"),
        ],
        links: vec![("/home/al/r", true), ("/home/al/d", false)],
        entries: vec![],
        readable: true,
        removable: true,
    }
}

#[test]
fn a_dry_run_changes_nothing_on_a_full_machine() {
    let (out, changes) = drive(clean(&args(true, "off"), "/home/al", false), "/home/al", full());
    assert!(changes.is_empty());
    assert!(!out.contains("journalctl"));
    assert!(!out.contains("nix store size"));
    assert!(out.contains("[dry-run] home-manager expire-generations -1 seconds\n"));
    assert!(out.contains("[dry-run] docker system prune -af --volumes\n"));
    assert!(out.contains("[dry-run] docker builder prune -af\n"));
    assert!(out.contains("[dry-run] podman image prune -af\n"));
    assert!(out.contains(
        "[dry-run] rm /home/al/d   (project directory stays, only the pinning symlink goes)\n\
         [dry-run] rm /home/al/g   (project directory stays, only the pinning symlink goes)\n\
         [dry-run] rm /home/al/r   (project directory stays, only the pinning symlink goes)\n\
         [dry-run] rm -rf /home/al/.cache/*   (~/.cache)\n\
         [dry-run] rm -rf /home/al/.local/share/Trash/*   (~/.local/share/Trash)\n\
         [dry-run] sudo find /var/lib/systemd/coredump -mindepth 1 -delete\n"
    ));
    assert!(out.contains("[dry-run] rm -rf /home/al/.cargo/registry/src/*   (~/.cargo/registry/src)\n"));
    assert!(out.contains("[dry-run] npm cache clean --force\n"));
    assert!(out.contains("[dry-run] rm -rf /home/al/.cache/go-build/*   (~/.cache/go-build)\n"));
}

#[test]
fn a_cleanup_runs_what_its_dry_run_shows() {
    let (_, changes) = drive(clean(&args(false, "2d"), "/home/al", false), "/home/al", full());
    assert_eq!(
        changes,
        [
            "run sudo nix-env -p /nix/var/nix/profiles/system --delete-generations old false",
            "run nix-env --delete-generations old false",
            "run home-manager expire-generations -1 seconds false",
            "run nix-collect-garbage -d true",
            "run nix store optimise false",
            "run sudo journalctl --vacuum-time=2d false",
            "run docker system prune -af --volumes false",
            "run docker builder prune -af false",
            "run podman system prune -af --volumes false",
            "run podman image prune -af false",
            "unlink /home/al/r",
            "run sudo find /var/lib/systemd/coredump -mindepth 1 -delete false",
            "run npm cache clean --force false",
        ]
    );
    let (plan, _) = drive(clean(&args(true, "2d"), "/home/al", false), "/home/al", full());
    let shown: Vec<&str> = plan.lines().filter_map(|l| l.strip_prefix("[dry-run] ")).filter(|l| !l.starts_with("rm ")).collect();
    let run: Vec<&str> = changes.iter().filter_map(|c| c.strip_prefix("run ")).map(|c| c.rsplit_once(' ').unwrap().0).collect();
    assert_eq!(shown, run);
}

#[test]
fn a_cleanup_tells_what_became_of_everything() {
    let (out, _) = drive(clean(&args(false, "off"), "/home/al", false), "/home/al", full());
    assert!(out.starts_with(
        ">>> NUKING <<<\n\n\n\
         -> sudo nix-env -p /nix/var/nix/profiles/system --delete-generations old  \
         (delete every system generation except the one currently in use)\n   ok\n"
    ));
    assert!(out.contains(
        "skipping /home/al/d (not a symlink, leaving it alone)\n\
         skipping /home/al/g (already gone)\n\
         removed /home/al/r\n\
         \n-> nuking ~/.cache  (/home/al/.cache)\n   ok — removed 0 entries\n"
    ));
    assert!(out.ends_with(
        "\nnix store size: 9G\t/nix/store -> 9G\t/nix/store\n\n>>> DONE <<<\n"
    ));
}

#[test]
fn the_size_of_the_store_is_told_only_if_it_is_known() {
    let (out, _) = drive(clean(&args(false, "off"), "/home/al", true), "/home/al", bare());
    assert!(!out.contains("nix store size"));
    assert!(out.starts_with("\x1b[31m\x1b[1m>>> NUKING <<<\x1b[0m\n\n"));
    assert!(out.ends_with("\n\x1b[32m\x1b[1m>>> DONE <<<\x1b[0m\n"));
}

#[test]
fn links_in_a_directory_are_removed_as_links() {
    let mut m = bare();
    m.present = vec!["/home/al/.cache"];
    m.entries = vec![
        Entry::Found { is_dir: true, is_symlink: false },
        Entry::Unreadable,
        Entry::Found { is_dir: true, is_symlink: true },
        Entry::Found { is_dir: false, is_symlink: false },
    ];
    let (out, changes) = drive(clean(&args(false, "off"), "/home/al", false), "/home/al", m);
    let removed: Vec<&String> = changes.iter().filter(|c| c.starts_with("remove")).collect();
    assert_eq!(removed, ["remove tree=true", "remove tree=false", "remove tree=false"]);
    assert!(out.contains("   ok — removed 3 entries\n"));
}

#[test]
fn what_cannot_be_removed_is_told() {
    let mut m = full();
    m.removable = false;
    m.entries = vec![Entry::Found { is_dir: false, is_symlink: false }];
    let (out, _) = drive(clean(&args(false, "off"), "/home/al", false), "/home/al", m);
    assert!(out.contains("could not remove /home/al/r: denied\n"));
    assert!(out.contains("   ok — removed 0 entries\n"));

    let mut m = full();
    m.readable = false;
    let (out, _) = drive(clean(&args(false, "off"), "/home/al", false), "/home/al", m);
    assert!(out.contains("   couldn't read /home/al/.cache: unreadable\n"));
}

#[test]
fn the_old_flag_for_everything_has_no_effect() {
    let mut with = args(true, "1s");
    with.all = true;
    assert_eq!(
        drive(clean(&with, "/home/al", false), "/home/al", full()),
        drive(clean(&args(true, "1s"), "/home/al", false), "/home/al", full())
    );
}

#[test]
fn a_status_report_on_a_bare_machine() {
    let mut m = bare();
    m.readable = false;
    let (out, changes) = drive(status("/home/al", false), "/home/al", m);
    assert!(changes.is_empty());
    assert_eq!(
        out,
        "\n── Nix store ──\n\
         \n── Generations (clean deletes ALL of these except the current one) ──\n  \
         system profile: none found (profile: /nix/var/nix/profiles/system)\n  \
         your user profile: none found (profile: /home/al/.nix-profile)\n  \
         home-manager: not installed, skipping\n\
         \n── Boot entries (clean does NOT touch these — see note below) ──\n  \
         no /boot/loader/entries — probably GRUB\n  \
         set `boot.loader.grub.configurationLimit = 5;` in your config\n  \
         not auto-deleted: pruning boot entries by hand risks an unbootable system; the configurationLimit option is the real fix, not a cleanup pass.\n\
         \n── Biggest paths in your current system closure ──\n\
         \n── Stray build results / dev-shell roots pinning old store paths (ALL get nuked, any age) ──\n  \
         none found under /home/al\n\
         \n── Non-Nix disk hogs (ALL get nuked) ──\n\
         \nRun `nix-reaper clean --dry-run` to preview the full nuke, or `nix-reaper clean` to just do it.\n"
    );
}

#[test]
fn a_status_report_on_a_full_machine() {
    let mut m = full();
    m.entries = vec![
        Entry::Found { is_dir: false, is_symlink: false },
        Entry::Unreadable,
        Entry::Found { is_dir: false, is_symlink: false },
    ];
    m.outputs.push(("df -h /nix/store", "Filesystem\n/dev/sda"));
    m.outputs.push(("nix-env -p /nix/var/nix/profiles/system --list-generations", "1\n2"));
    m.outputs.push(("home-manager generations", "a\n\nb\nc"));
    m.outputs.push(("nix path-info -rS /run/current-system", "/x 1\n/y 2"));
    m.outputs.push(("docker system df", "D\nE"));
    m.outputs.push(("podman system df", "P"));
    m.outputs.push(("journalctl --disk-usage", "J"));
    m.outputs.push(("du -sh /home/al/.cache", "1G"));
    m.outputs.push(("du -sh /home/al/.cargo/registry", "2G"));
    m.outputs.push(("du -sh /home/al/.npm/_cacache", "6G"));
    m.outputs.push(("du -sh /home/al/.cache/go-build", "3G"));
    m.outputs.push(("du -sh /var/lib/systemd/coredump", "4G"));
    m.present.push("/home/al/.local/share/Trash");
    m.outputs.push(("du -sh /home/al/.local/share/Trash", "5G"));
    let (out, changes) = drive(status("/home/al", false), "/home/al", m);
    assert!(changes.is_empty());
    for part in [
        "  size on disk: 9G\t/nix/store\n  Filesystem\n  /dev/sda\n",
        "  system profile: 2 generation(s)  (profile: /nix/var/nix/profiles/system)\n",
        "  home-manager: 3 generation(s)\n",
        "  systemd-boot entries: 2 (each pins a kernel+initrd generation alive)\n  set `boot.loader.systemd-boot.configurationLimit = 5;` (or similar) to stop these piling up\n",
        "closure ──\n  /y 2\n  /x 1\n",
        "  /home/al/d (3d old)\n  /home/al/g (3d old)\n  /home/al/r (3d old)\n  -> `nix-reaper clean` removes every one of these, regardless of age\n",
        "(ALL get nuked) ──\n  D\n  E\n  P\n  J\n  ~/.cache: 1G  (clean empties this completely)\n  ~/.local/share/Trash: 5G  (clean empties this completely)\n  ~/.cargo/registry: 2G  (clean nukes cache+src)\n  npm cache:   6G\n  ~/.cache/go-build: 3G  (clean nukes this)\n  /var/lib/systemd/coredump: 4G  (clean nukes this)\n",
    ] {
        assert!(out.contains(part), "{:?} in {:?}", part, out);
    }
}

#[test]
fn a_session_takes_only_the_reply_that_it_waits_for() {
    let mut session = clean(&args(true, "1s"), "/home/al", false);
    assert!(!session.can_resume(&Reply::Answer(true)));
    session.begin();
    assert!(!session.can_resume(&Reply::Answer(true)));
    assert!(!session.can_resume(&Reply::Link(LinkState::Symlink)));
    assert!(session.can_resume(&Reply::Output(None)));
}

#[test]
fn places_below_home_are_joined_with_a_slash() {
    let p = Place::Home(".cache".to_string());
    assert_eq!(p.path("/home/al"), "/home/al/.cache");
    assert_eq!(p.path("/"), "/.cache");
    assert_eq!(p.path(""), ".cache");
    assert_eq!(Place::At("/x".to_string()).path("/home/al"), "/x");
}

#[test]
fn cleanup_lines_are_styled() {
    assert_eq!(no_roots_line("/h"), "[roots] none found under /h\n");
    assert_eq!(fate_line(true, "/r", &RootFate::Removed), "\x1b[32mremoved\x1b[0m /r\n");
    assert_eq!(
        fate_line(true, "/r", &RootFate::Refused("e".to_string())),
        "\x1b[31mcould not remove /r: e\x1b[0m\n"
    );
    assert_eq!(unreadable_line(true, "/d", "e"), "   \x1b[31mcouldn't read /d: e\x1b[0m\n");
}
