use nix_reaper::command::{
    captured, command_exists, outcome_line, rendered, run_captured, Command, Outcome, Step,
};
use nix_reaper::progress::{clear_progress_line, line_kind, LineKind, Progress};
use nix_reaper::report::{
    count_generations, describe_age, largest, print_generation_count, section, LinkAge,
};

#[test]
fn sections_have_headings() {
    assert_eq!(section(false, "Nix store"), "\n── Nix store ──\n");
    assert_eq!(section(true, "x"), "\n\x1b[1m\x1b[36m── x ──\x1b[0m\n");
}

#[test]
fn generations_are_the_lines_that_are_not_blank() {
    assert_eq!(count_generations("1 a\n\n  \n2 b\n"), 2);
    assert_eq!(count_generations(""), 0);
    assert_eq!(
        print_generation_count("system profile", "/p", Some("1\n2\n3")),
        "  system profile: 3 generation(s)  (profile: /p)\n"
    );
    assert_eq!(print_generation_count("x", "/p", None), "  x: none found (profile: /p)\n");
    assert_eq!(print_generation_count("x", "/p", Some("")), "  x: none found (profile: /p)\n");
}

#[test]
fn ages_are_whole_days() {
    assert_eq!(describe_age(&LinkAge::Seconds(0)), "0d old");
    assert_eq!(describe_age(&LinkAge::Seconds(86399)), "0d old");
    assert_eq!(describe_age(&LinkAge::Seconds(86400)), "1d old");
    assert_eq!(describe_age(&LinkAge::Seconds(86400 * 40 + 5)), "40d old");
    assert_eq!(describe_age(&LinkAge::Ahead), "0d old");
    assert_eq!(describe_age(&LinkAge::Gone), "target gone, will be pruned on next gc");
}

#[test]
fn the_largest_lines_come_first() {
    let listing = "/a 5\n/b 100\n/c\n/d -3\n/e 100\n/f 7 x";
    assert_eq!(largest(listing, 3), "  /e 100\n  /b 100\n  /a 5\n");
    assert_eq!(
        largest(listing, 15),
        "  /e 100\n  /b 100\n  /a 5\n  /f 7 x\n  /c\n  /d -3\n"
    );
    assert_eq!(largest(listing, 0), "");
    assert_eq!(largest("", 15), "");
}

#[test]
fn the_order_by_size_is_that_of_a_stable_sort_reversed() {
    let listing = "p 3\nq 1\nr 3\ns 99999999999999999999\nt -1\nu 0\nv\n\nw +2";
    let mut want: Vec<&str> = listing.lines().collect();
    want.sort_by_key(|l| l.split_whitespace().last().and_then(|n| n.parse::<i64>().ok()).unwrap_or(0));
    want.reverse();
    let want: String = want.iter().map(|l| format!("  {}\n", l)).collect();
    assert_eq!(largest(listing, 100), want);
}

#[test]
fn captured_output_is_trimmed() {
    assert_eq!(captured("  a b \n"), Some("a b".to_string()));
    assert_eq!(captured(" \n\t"), None);
    assert_eq!(run_captured(None), None);
    assert_eq!(run_captured(Some(b"")), None);
    assert_eq!(run_captured(Some(b"\n 12G\t/nix/store \n")), Some("12G\t/nix/store".to_string()));
    assert_eq!(run_captured(Some("é\n".as_bytes())), Some("é".to_string()));
    assert_eq!(run_captured(Some(b"a\xffb")), Some("a\u{fffd}b".to_string()));
}

#[test]
fn programs_are_looked_up_by_the_shell() {
    let c = command_exists("npm");
    assert_eq!(c.program, "sh");
    assert_eq!(c.args, ["-c", "command -v npm >/dev/null 2>&1"]);
}

fn optimise(sudo: bool) -> Step {
    Step {
        sudo,
        command: Command::new("nix").arg("store").arg("optimise"),
        why: "because".to_string(),
        filter_deleting: false,
    }
}

#[test]
fn steps_run_under_sudo_when_they_need_root() {
    let plain = optimise(false).command_line();
    assert_eq!(plain.program, "nix");
    assert_eq!(plain.args, ["store", "optimise"]);
    assert_eq!(rendered(&plain), "nix store optimise");
    let root = optimise(true).command_line();
    assert_eq!(root.program, "sudo");
    assert_eq!(root.args, ["nix", "store", "optimise"]);
    assert_eq!(rendered(&Command::new("x")), "x");
}

#[test]
fn steps_are_announced() {
    assert_eq!(
        optimise(true).preview(false),
        "[dry-run] sudo nix store optimise\n          (because)\n"
    );
    assert_eq!(optimise(false).header(false), "\n-> nix store optimise  (because)\n");
    assert_eq!(
        optimise(false).header(true),
        "\n\x1b[36m->\x1b[0m \x1b[1mnix store optimise\x1b[0m  \x1b[2m(because)\x1b[0m\n"
    );
}

#[test]
fn outcomes_are_told() {
    assert_eq!(outcome_line(false, &Outcome::Success), "   ok\n");
    assert_eq!(
        outcome_line(false, &Outcome::Exited("exit status: 1".to_string())),
        "   exited with exit status: 1\n"
    );
    assert_eq!(outcome_line(true, &Outcome::Failed("no".to_string())), "   \x1b[31mfailed to run: no\x1b[0m\n");
}

#[test]
fn lines_are_told_apart() {
    assert!(matches!(line_kind(true, "deleting '/nix/store/a'"), LineKind::Deleting));
    assert!(matches!(line_kind(false, "deleting '/nix/store/a'"), LineKind::Other));
    assert!(matches!(line_kind(true, " \t"), LineKind::Blank));
    assert!(matches!(line_kind(true, "3 store paths deleted, 1 MiB freed"), LineKind::Summary));
    assert!(matches!(line_kind(false, "3 store paths deleted"), LineKind::Other));
    assert!(matches!(line_kind(true, "finding garbage collector roots..."), LineKind::Chatter));
    assert!(matches!(line_kind(true, "deleting garbage..."), LineKind::Chatter));
    assert!(matches!(line_kind(true, "removing stale temporary roots file '/x'"), LineKind::Chatter));
    assert!(matches!(line_kind(true, "error: x"), LineKind::Other));
}

#[test]
fn the_progress_line_is_cleared_with_spaces() {
    assert_eq!(clear_progress_line(), format!("\r{:width$}\r", "", width = 64));
}

#[test]
fn deletions_collapse_into_a_counter() {
    let mut p = Progress::new();
    assert_eq!(p.stream_filtered(true, "deleting garbage...", false), "");
    assert_eq!(
        p.stream_filtered(true, "deleting '/nix/store/a'", false),
        "\r   ⠙ clearing store paths... 1 removed"
    );
    assert_eq!(
        p.stream_filtered(true, "deleting '/nix/store/b'", true),
        "\r   \x1b[36m⠹\x1b[0m \x1b[2mclearing store paths...\x1b[0m \x1b[1m2\x1b[0m removed"
    );
    assert!(p.shown);
    assert_eq!(
        p.stream_filtered(true, "warning: x", false),
        format!("{}   warning: x\n", clear_progress_line())
    );
    assert!(!p.shown);
    assert_eq!(p.stream_filtered(true, "", false), "");
    assert_eq!(
        p.stream_filtered(true, "2 store paths deleted, 1 MiB freed", true),
        "   \x1b[32m2 store paths deleted, 1 MiB freed\x1b[0m\n"
    );
    assert_eq!(p.finish(false), "");
    assert_eq!((p.deleted, p.frame), (2, 2));
}

#[test]
fn the_spinner_comes_round() {
    let frames = ["⠙", "⠹", "⠸", "⠼", "⠴", "⠦", "⠧", "⠇", "⠏", "⠋", "⠙"];
    let mut p = Progress::new();
    for (i, f) in frames.iter().enumerate() {
        let want = format!("\r   {} clearing store paths... {} removed", f, i + 1);
        assert_eq!(p.stream_filtered(true, "deleting 'x", false), want);
    }
    assert_eq!(
        p.finish(false),
        format!("{}   deleted 11 store paths\n", clear_progress_line())
    );
    assert_eq!(p.finish(false), "");
}

#[test]
fn without_the_filter_lines_pass() {
    let mut p = Progress::new();
    assert_eq!(p.stream_filtered(false, "deleting '/nix/store/a'", false), "   deleting '/nix/store/a'\n");
    assert_eq!(p.stream_filtered(false, "   ", false), "");
    assert_eq!((p.deleted, p.shown), (0, false));
}

/// Takes in the lines of a text and returns all that is written for them.
fn stream(p: &mut Progress, text: &str) -> String {
    text.lines().map(|l| p.stream_filtered(true, l, false)).collect()
}

#[test]
fn output_may_come_in_parts() {
    let first = "finding garbage collector roots...\ndeleting '/nix/store/a'\r\n";
    let second = "deleting '/nix/store/b'\n\nwarning: x";
    let (mut whole, mut parts) = (Progress::new(), Progress::new());
    let at_once = stream(&mut whole, &format!("{}{}", first, second));
    let one = stream(&mut parts, first);
    let other = stream(&mut parts, second);
    assert_eq!(at_once, format!("{}{}", one, other));
    assert_eq!(
        at_once,
        format!(
            "\r   ⠙ clearing store paths... 1 removed\r   ⠹ clearing store paths... 2 removed{}   warning: x\n",
            clear_progress_line()
        )
    );
    assert_eq!((whole.deleted, whole.frame, whole.shown), (2, 2, false));
    assert_eq!((parts.deleted, parts.frame, parts.shown), (2, 2, false));
}

#[test]
fn the_counter_reaches_its_end() {
    let mut p = Progress { deleted: u64::MAX - 1, frame: 0, shown: false };
    assert_eq!(p.stream_filtered(true, "warning: x", false), "   warning: x\n");
    assert_eq!(
        p.stream_filtered(true, "deleting '/nix/store/a'", false),
        "\r   ⠙ clearing store paths... 18446744073709551615 removed"
    );
    assert_eq!(p.stream_filtered(true, "warning: y", false).ends_with("   warning: y\n"), true);
    assert_eq!(p.deleted, u64::MAX);
}
