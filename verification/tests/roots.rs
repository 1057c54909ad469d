use nix_reaper::paths::{is_before, is_same, split_path};
use nix_reaper::roots::find_home_roots;
use std::path::PathBuf;

const PATHS: [&str; 24] = [
    "", "/", ".", "..", "./a", "a/.", "a", "a/", "a//b", "a/b", "/a", "/a/", "//a", "/./a", "/a/../b", "/a/b",
    "/a-b", "/a/b/c", "...", "./", "a.b", "/é", "/z", "/\u{1f600}",
];

fn c(s: &str) -> Vec<char> {
    s.chars().collect()
}

#[test]
fn paths_are_ordered_by_components() {
    for a in PATHS {
        for b in PATHS {
            let (x, y) = (split_path(&c(a)), split_path(&c(b)));
            assert_eq!(is_before(&x, &y), PathBuf::from(a) < PathBuf::from(b), "{:?} {:?}", a, b);
            assert_eq!(is_same(&x, &y), PathBuf::from(a) == PathBuf::from(b), "{:?} {:?}", a, b);
        }
    }
}

#[test]
fn no_report_means_no_roots() {
    assert!(find_home_roots(None, "/home/al").is_empty());
    assert!(find_home_roots(Some("nothing here"), "/home/al").is_empty());
}

#[test]
fn roots_are_found_on_both_sides() {
    let report = "/home/al/p/result -> /nix/store/abc\n\
                  /nix/var/nix/gcroots/auto/x -> /home/al/q/.direnv/flake\n\
                  /proc/12/maps -> /nix/store/def\n\
                  /proc/12/exe -> /home/al/bin\n\
                  /home/bo/result -> /nix/store/ghi\n\
                  {censored} -> /nix/store/jkl";
    assert_eq!(
        find_home_roots(Some(report), "/home/al"),
        ["/home/al/bin", "/home/al/p/result", "/home/al/q/.direnv/flake"]
    );
}

#[test]
fn roots_are_sorted_and_listed_once() {
    let report = "/home/al/b -> /nix/store/1\n\
                  /home/al/a-b -> /nix/store/2\r\n\
                  /home/al/a/b -> /nix/store/3\n\
                  /home/al//b -> /nix/store/4\n\
                    /home/al/b/   ->   /nix/store/5\n\
                  /home/al/a -> /home/al/b";
    let roots = find_home_roots(Some(report), "/home/al");
    assert_eq!(roots, ["/home/al/a", "/home/al/a/b", "/home/al/a-b", "/home/al/b"]);

    let mut want: Vec<PathBuf> = ["/home/al/b", "/home/al/a-b", "/home/al/a/b", "/home/al//b", "/home/al/b/", "/home/al/a", "/home/al/b"]
        .iter()
        .map(PathBuf::from)
        .collect();
    want.sort();
    want.dedup();
    assert_eq!(roots.iter().map(PathBuf::from).collect::<Vec<_>>(), want);
}

#[test]
fn store_and_process_paths_are_no_roots_even_at_home() {
    for home in ["/nix/store", "/proc/", "/nix/var/nix/gcroots", "/"] {
        let report = "/nix/store/a -> /nix/store/b\n/proc/1/exe -> /nix/var/nix/gcroots/auto/x";
        assert!(find_home_roots(Some(report), home).is_empty());
    }
    assert_eq!(find_home_roots(Some("/tmp/r -> /nix/store/b"), "/"), ["/tmp/r"]);
}

#[test]
fn a_longer_name_than_home_is_not_under_it() {
    assert!(find_home_roots(Some("/home/alice/result -> /nix/store/x1-foo"), "/home/al").is_empty());
    assert!(find_home_roots(Some("/home/al.old/r -> /home/al-2/r"), "/home/al").is_empty());
    assert_eq!(
        find_home_roots(Some("/home/al/r -> /home/alice/r\n/home/al -> /nix/store/y"), "/home/al"),
        ["/home/al", "/home/al/r"]
    );
}

#[test]
fn home_may_end_with_a_slash_or_a_dot() {
    assert_eq!(find_home_roots(Some("/home/al/r -> /nix/store/x"), "/home/al/"), ["/home/al/r"]);
    assert_eq!(find_home_roots(Some("/home/al/.direnv/p -> /nix/store/x"), "/home/al/."), ["/home/al/.direnv/p"]);
    assert_eq!(find_home_roots(Some("/home/al/r -> /nix/store/x"), ""), ["/home/al/r"]);
}
