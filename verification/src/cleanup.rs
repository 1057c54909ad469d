//! What a cleanup says of the links and directories that it removes.
use vstd::prelude::*;

use crate::numbers::{decimal, decimal_of};
use crate::style::{
    bold, bold_text, cyan, cyan_text, dim, dim_text, green, green_text, law_escape_sequences, red,
    red_text, reset, reset_text, yellow, yellow_text,
};

verus! {

// ---------- stray roots ----------

/// What a cleanup says when there are no stray roots.
pub open spec fn no_roots_text(home: Seq<char>) -> Seq<char> {
    "[roots] none found under "@ + home + "\n"@
}

/// What a cleanup says when there are no stray roots.
pub fn no_roots_line(home: &str) -> (s: String)
    ensures
        s@ == no_roots_text(home@),
{
    "[roots] none found under ".to_owned().concat(home).concat("\n")
}

/// What a dry run says of a stray root.
pub open spec fn root_preview_text(color: bool, root: Seq<char>) -> Seq<char> {
    yellow_text(color) + "[dry-run]"@ + reset_text(color) + " rm "@ + root
        + "   (project directory stays, only the pinning symlink goes)\n"@
}

/// What a dry run says of a stray root.
pub fn root_preview_line(color: bool, root: &str) -> (s: String)
    ensures
        s@ == root_preview_text(color, root@),
{
    yellow(color).concat("[dry-run]").concat(reset(color).as_str()).concat(" rm ").concat(
        root,
    ).concat("   (project directory stays, only the pinning symlink goes)\n")
}

/// What became of a stray root.
pub enum RootFate {
    /// The link was removed.
    Removed,
    /// The link could not be removed, for this reason.
    Refused(String),
    /// What stands there is not a symbolic link.
    NotSymlink,
    /// Nothing stands there.
    Gone,
}

/// What a cleanup says of what became of a stray root.
pub open spec fn fate_text(color: bool, root: Seq<char>, fate: RootFate) -> Seq<char> {
    match fate {
        RootFate::Removed => green_text(color) + "removed"@ + reset_text(color) + " "@ + root
            + "\n"@,
        RootFate::Refused(error) => red_text(color) + "could not remove "@ + root + ": "@ + error@
            + reset_text(color) + "\n"@,
        RootFate::NotSymlink => "skipping "@ + root + " (not a symlink, leaving it alone)\n"@,
        RootFate::Gone => "skipping "@ + root + " (already gone)\n"@,
    }
}

/// What a cleanup says of what became of a stray root.
pub fn fate_line(color: bool, root: &str, fate: &RootFate) -> (s: String)
    ensures
        s@ == fate_text(color, root@, *fate),
{
    match fate {
        RootFate::Removed => green(color).concat("removed").concat(reset(color).as_str()).concat(
            " ",
        ).concat(root).concat("\n"),
        RootFate::Refused(error) => red(color).concat("could not remove ").concat(root).concat(
            ": ",
        ).concat(error.as_str()).concat(reset(color).as_str()).concat("\n"),
        RootFate::NotSymlink => "skipping ".to_owned().concat(root).concat(
            " (not a symlink, leaving it alone)\n",
        ),
        RootFate::Gone => "skipping ".to_owned().concat(root).concat(" (already gone)\n"),
    }
}

// ---------- directories ----------

/// What a dry run says of a directory that would be emptied.
pub open spec fn empty_preview_text(color: bool, label: Seq<char>, dir: Seq<char>) -> Seq<char> {
    yellow_text(color) + "[dry-run]"@ + reset_text(color) + " rm -rf "@ + dir + "/*   ("@ + label
        + ")\n"@
}

/// What a dry run says of a directory that would be emptied.
pub fn empty_preview_line(color: bool, label: &str, dir: &str) -> (s: String)
    ensures
        s@ == empty_preview_text(color, label@, dir@),
{
    yellow(color).concat("[dry-run]").concat(reset(color).as_str()).concat(" rm -rf ").concat(
        dir,
    ).concat("/*   (").concat(label).concat(")\n")
}

/// What is said before a directory is emptied.
pub open spec fn empty_header_text(color: bool, label: Seq<char>, dir: Seq<char>) -> Seq<char> {
    "\n"@ + cyan_text(color) + "->"@ + reset_text(color) + " "@ + bold_text(color) + "nuking "@
        + label + reset_text(color) + "  "@ + dim_text(color) + "("@ + dir + ")"@ + reset_text(
        color,
    ) + "\n"@
}

/// What is said before a directory is emptied.
pub fn empty_header_line(color: bool, label: &str, dir: &str) -> (s: String)
    ensures
        s@ == empty_header_text(color, label@, dir@),
{
    "\n".to_owned().concat(cyan(color).as_str()).concat("->").concat(reset(color).as_str()).concat(
        " ",
    ).concat(bold(color).as_str()).concat("nuking ").concat(label).concat(
        reset(color).as_str(),
    ).concat("  ").concat(dim(color).as_str()).concat("(").concat(dir).concat(")").concat(
        reset(color).as_str(),
    ).concat("\n")
}

/// What is said of a directory that cannot be read.
pub open spec fn unreadable_text(color: bool, dir: Seq<char>, error: Seq<char>) -> Seq<char> {
    "   "@ + red_text(color) + "couldn't read "@ + dir + ": "@ + error + reset_text(color) + "\n"@
}

/// What is said of a directory that cannot be read.
pub fn unreadable_line(color: bool, dir: &str, error: &str) -> (s: String)
    ensures
        s@ == unreadable_text(color, dir@, error@),
{
    "   ".to_owned().concat(red(color).as_str()).concat("couldn't read ").concat(dir).concat(
        ": ",
    ).concat(error).concat(reset(color).as_str()).concat("\n")
}

/// What is said after a directory was emptied.
pub open spec fn emptied_text(color: bool, removed: nat) -> Seq<char> {
    "   "@ + green_text(color) + "ok"@ + reset_text(color) + " — removed "@ + decimal_of(removed)
        + " entries\n"@
}

/// What is said after a directory was emptied.
pub fn emptied_line(color: bool, removed: u64) -> (s: String)
    ensures
        s@ == emptied_text(color, removed as nat),
{
    let n = decimal(removed);
    "   ".to_owned().concat(green(color).as_str()).concat("ok").concat(
        reset(color).as_str(),
    ).concat(" — removed ").concat(n.as_str()).concat(" entries\n")
}

// ---------- the store ----------

/// How the size of the store has changed.
pub open spec fn store_change_text(color: bool, before: Seq<char>, after: Seq<char>) -> Seq<char> {
    "\n"@ + bold_text(color) + "nix store size:"@ + reset_text(color) + " "@ + before + " -> "@
        + green_text(color) + after + reset_text(color) + "\n"@
}

/// How the size of the store has changed.
pub fn store_change_line(color: bool, before: &str, after: &str) -> (s: String)
    ensures
        s@ == store_change_text(color, before@, after@),
{
    "\n".to_owned().concat(bold(color).as_str()).concat("nix store size:").concat(
        reset(color).as_str(),
    ).concat(" ").concat(before).concat(" -> ").concat(green(color).as_str()).concat(after).concat(
        reset(color).as_str(),
    ).concat("\n")
}

// ---------- the words, with and without colour ----------

/// What is said of stray roots, without colour: every word and every character of the path
/// and of the reason.
pub proof fn law_plain_words_on_roots(home: Seq<char>, root: Seq<char>, error: String)
    ensures
        no_roots_text(home) == "[roots] none found under "@ + home + "\n"@,
        root_preview_text(false, root) == "[dry-run]"@ + " rm "@ + root
            + "   (project directory stays, only the pinning symlink goes)\n"@,
        fate_text(false, root, RootFate::Removed) == "removed"@ + " "@ + root + "\n"@,
        fate_text(false, root, RootFate::Refused(error)) == "could not remove "@ + root + ": "@
            + error@ + "\n"@,
        fate_text(false, root, RootFate::NotSymlink) == "skipping "@ + root
            + " (not a symlink, leaving it alone)\n"@,
        fate_text(false, root, RootFate::Gone) == "skipping "@ + root + " (already gone)\n"@,
{
}

/// What is said of stray roots, in colour: previews are marked in yellow, what was removed
/// in green, and what was refused in red; what is left alone is told as without colour.
pub proof fn law_colored_words_on_roots(root: Seq<char>, error: String)
    ensures
        root_preview_text(true, root) == "\x1b[33m"@ + "[dry-run]"@ + "\x1b[0m"@ + " rm "@ + root
            + "   (project directory stays, only the pinning symlink goes)\n"@,
        fate_text(true, root, RootFate::Removed) == "\x1b[32m"@ + "removed"@ + "\x1b[0m"@ + " "@
            + root + "\n"@,
        fate_text(true, root, RootFate::Refused(error)) == "\x1b[31m"@ + "could not remove "@ + root
            + ": "@ + error@ + "\x1b[0m"@ + "\n"@,
        fate_text(true, root, RootFate::NotSymlink) == fate_text(false, root, RootFate::NotSymlink),
        fate_text(true, root, RootFate::Gone) == fate_text(false, root, RootFate::Gone),
{
    law_escape_sequences();
}

/// What is said of directories and of the store, without colour.
pub proof fn law_plain_words_on_directories(
    label: Seq<char>,
    dir: Seq<char>,
    error: Seq<char>,
    removed: nat,
    before: Seq<char>,
    after: Seq<char>,
)
    ensures
        empty_preview_text(false, label, dir) == "[dry-run]"@ + " rm -rf "@ + dir + "/*   ("@ + label
            + ")\n"@,
        empty_header_text(false, label, dir) == "\n"@ + "->"@ + " "@ + "nuking "@ + label + "  "@
            + "("@ + dir + ")"@ + "\n"@,
        unreadable_text(false, dir, error) == "   "@ + "couldn't read "@ + dir + ": "@ + error
            + "\n"@,
        emptied_text(false, removed) == "   "@ + "ok"@ + " — removed "@ + decimal_of(removed)
            + " entries\n"@,
        store_change_text(false, before, after) == "\n"@ + "nix store size:"@ + " "@ + before
            + " -> "@ + after + "\n"@,
{
}

/// What is said of directories and of the store, in colour.
pub proof fn law_colored_words_on_directories(
    label: Seq<char>,
    dir: Seq<char>,
    error: Seq<char>,
    removed: nat,
    before: Seq<char>,
    after: Seq<char>,
)
    ensures
        empty_preview_text(true, label, dir) == "\x1b[33m"@ + "[dry-run]"@ + "\x1b[0m"@ + " rm -rf "@
            + dir + "/*   ("@ + label + ")\n"@,
        empty_header_text(true, label, dir) == "\n"@ + "\x1b[36m"@ + "->"@ + "\x1b[0m"@ + " "@
            + "\x1b[1m"@ + "nuking "@ + label + "\x1b[0m"@ + "  "@ + "\x1b[2m"@ + "("@ + dir + ")"@
            + "\x1b[0m"@ + "\n"@,
        unreadable_text(true, dir, error) == "   "@ + "\x1b[31m"@ + "couldn't read "@ + dir + ": "@
            + error + "\x1b[0m"@ + "\n"@,
        emptied_text(true, removed) == "   "@ + "\x1b[32m"@ + "ok"@ + "\x1b[0m"@ + " — removed "@
            + decimal_of(removed) + " entries\n"@,
        store_change_text(true, before, after) == "\n"@ + "\x1b[1m"@ + "nix store size:"@
            + "\x1b[0m"@ + " "@ + before + " -> "@ + "\x1b[32m"@ + after + "\x1b[0m"@ + "\n"@,
{
    law_escape_sequences();
}

} // verus!
