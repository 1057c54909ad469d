//! The live progress of a command that is being run.
//!
//! Garbage collection prints a line for each store path that it deletes. Those lines
//! collapse into one spinner line with a counter, which is rewritten in place and
//! cleared before anything else is printed.
use vstd::prelude::*;

use crate::numbers::{decimal, decimal_of};
use crate::style::{
    bold, bold_text, cyan, cyan_text, dim, dim_text, green, green_text, reset, reset_text,
};
use crate::text::{
    blank_char, chars, contains, is_blank_line, is_blank_text, law_lines_joined, law_occurrences,
    lines_of, occurs, starts, starts_with,
};

verus! {

/// How many store paths were deleted so far, which frame of the spinner was last drawn,
/// and whether the spinner line is on the screen.
pub struct Progress {
    pub deleted: u64,
    pub frame: usize,
    pub shown: bool,
}

/// What a line of output is.
pub enum LineKind {
    /// A store path is being deleted.
    Deleting,
    /// White space alone.
    Blank,
    /// The summary of a garbage collection.
    Summary,
    /// A routine message of a garbage collection.
    Chatter,
    /// Anything else.
    Other,
}

/// What a line of output is. Garbage collection is looked for only on request.
pub open spec fn kind_of(filter_deleting: bool, line: Seq<char>) -> LineKind {
    if filter_deleting && starts(line, "deleting '"@) {
        LineKind::Deleting
    } else if is_blank_text(line) {
        LineKind::Blank
    } else if filter_deleting && occurs(line, "store paths deleted"@) {
        LineKind::Summary
    } else if filter_deleting && (starts(line, "finding garbage collector roots"@) || starts(
        line,
        "deleting garbage"@,
    ) || starts(line, "removing stale temporary roots file"@)) {
        LineKind::Chatter
    } else {
        LineKind::Other
    }
}

/// The frames of the spinner.
pub open spec fn spinner(frame: int) -> Seq<char> {
    if frame == 0 {
        "⠋"@
    } else if frame == 1 {
        "⠙"@
    } else if frame == 2 {
        "⠹"@
    } else if frame == 3 {
        "⠸"@
    } else if frame == 4 {
        "⠼"@
    } else if frame == 5 {
        "⠴"@
    } else if frame == 6 {
        "⠦"@
    } else if frame == 7 {
        "⠧"@
    } else if frame == 8 {
        "⠇"@
    } else {
        "⠏"@
    }
}

/// The row of `n` spaces.
pub open spec fn spaces(n: nat) -> Seq<char> {
    Seq::new(n, |i: int| ' ')
}

/// What clears the spinner line: spaces over it, and the cursor at its start.
pub open spec fn clear_text() -> Seq<char> {
    "\r"@ + spaces(64) + "\r"@
}

/// The spinner line.
pub open spec fn spinner_text(color: bool, frame: int, deleted: nat) -> Seq<char> {
    "\r   "@ + cyan_text(color) + spinner(frame) + reset_text(color) + " "@ + dim_text(color)
        + "clearing store paths..."@ + reset_text(color) + " "@ + bold_text(color) + decimal_of(
        deleted,
    ) + reset_text(color) + " removed"@
}

impl Progress {
    /// The frame is one of the spinner's ten.
    pub open spec fn wf(self) -> bool {
        self.frame < 10
    }

    /// The progress after a line of output.
    pub open spec fn after(self, filter_deleting: bool, line: Seq<char>) -> Progress {
        if kind_of(filter_deleting, line) is Deleting {
            Progress {
                deleted: (self.deleted + 1) as u64,
                frame: ((self.frame + 1) % 10) as usize,
                shown: true,
            }
        } else {
            Progress { deleted: self.deleted, frame: self.frame, shown: false }
        }
    }

    /// What is written to the terminal for a line of output.
    pub open spec fn written(self, filter_deleting: bool, line: Seq<char>, color: bool) -> Seq<
        char,
    > {
        let next = self.after(filter_deleting, line);
        let cleared = if self.shown {
            clear_text()
        } else {
            Seq::empty()
        };
        match kind_of(filter_deleting, line) {
            LineKind::Deleting => spinner_text(color, next.frame as int, next.deleted as nat),
            LineKind::Blank => cleared,
            LineKind::Chatter => cleared,
            LineKind::Summary => cleared + "   "@ + green_text(color) + line + reset_text(color)
                + "\n"@,
            LineKind::Other => cleared + "   "@ + line + "\n"@,
        }
    }

    /// What is written to the terminal when the command has ended.
    pub open spec fn closing(self, color: bool) -> Seq<char> {
        if self.shown {
            clear_text() + "   "@ + green_text(color) + "deleted "@ + decimal_of(
                self.deleted as nat,
            ) + " store paths"@ + reset_text(color) + "\n"@
        } else {
            Seq::empty()
        }
    }

    /// The progress of a command that has printed nothing yet.
    pub fn new() -> (p: Progress)
        ensures
            p == (Progress { deleted: 0, frame: 0, shown: false }),
            p.wf(),
    {
        Progress { deleted: 0, frame: 0, shown: false }
    }

    /// Takes in a line of output and returns what to write to the terminal for it.
    pub fn stream_filtered(&mut self, filter_deleting: bool, line: &str, color: bool) -> (s: String)
        requires
            old(self).wf(),
            kind_of(filter_deleting, line@) is Deleting ==> old(self).deleted < u64::MAX,
        ensures
            final(self).wf(),
            *final(self) == old(self).after(filter_deleting, line@),
            s@ == old(self).written(filter_deleting, line@, color),
    {
        match line_kind(filter_deleting, line) {
            LineKind::Deleting => {
                self.deleted = self.deleted + 1;
                self.frame = (self.frame + 1) % 10;
                self.shown = true;
                let n = decimal(self.deleted);
                "\r   ".to_owned().concat(cyan(color).as_str()).concat(
                    spinner_frame(self.frame),
                ).concat(reset(color).as_str()).concat(" ").concat(dim(color).as_str()).concat(
                    "clearing store paths...",
                ).concat(reset(color).as_str()).concat(" ").concat(bold(color).as_str()).concat(
                    n.as_str(),
                ).concat(reset(color).as_str()).concat(" removed")
            },
            LineKind::Blank => self.clear(),
            LineKind::Chatter => self.clear(),
            LineKind::Summary => self.clear().concat("   ").concat(green(color).as_str()).concat(
                line,
            ).concat(reset(color).as_str()).concat("\n"),
            LineKind::Other => self.clear().concat("   ").concat(line).concat("\n"),
        }
    }

    /// Takes the spinner line off the screen.
    fn clear(&mut self) -> (s: String)
        ensures
            *final(self) == (Progress {
                deleted: old(self).deleted,
                frame: old(self).frame,
                shown: false,
            }),
            s@ == if old(self).shown {
                clear_text()
            } else {
                Seq::empty()
            },
    {
        if self.shown {
            self.shown = false;
            clear_progress_line()
        } else {
            String::new()
        }
    }

    /// Takes in that the command has ended and returns what to write to the terminal.
    pub fn finish(&mut self, color: bool) -> (s: String)
        requires
            old(self).wf(),
        ensures
            final(self).wf(),
            *final(self) == (Progress {
                deleted: old(self).deleted,
                frame: old(self).frame,
                shown: false,
            }),
            s@ == old(self).closing(color),
    {
        if self.shown {
            self.shown = false;
            let n = decimal(self.deleted);
            clear_progress_line().concat("   ").concat(green(color).as_str()).concat(
                "deleted ",
            ).concat(n.as_str()).concat(" store paths").concat(reset(color).as_str()).concat("\n")
        } else {
            String::new()
        }
    }
}

/// What a line of output is. Garbage collection is looked for only on request.
pub fn line_kind(filter_deleting: bool, line: &str) -> (kind: LineKind)
    ensures
        kind == kind_of(filter_deleting, line@),
{
    let all = chars(line);
    let s = all.as_slice();
    if filter_deleting && starts_with(s, "deleting '") {
        LineKind::Deleting
    } else if is_blank_line(s) {
        LineKind::Blank
    } else if filter_deleting && contains(s, "store paths deleted") {
        LineKind::Summary
    } else if filter_deleting && (starts_with(s, "finding garbage collector roots") || starts_with(
        s,
        "deleting garbage",
    ) || starts_with(s, "removing stale temporary roots file")) {
        LineKind::Chatter
    } else {
        LineKind::Other
    }
}

fn spinner_frame(frame: usize) -> (s: &'static str)
    requires
        frame < 10,
    ensures
        s@ == spinner(frame as int),
{
    if frame == 0 {
        "⠋"
    } else if frame == 1 {
        "⠙"
    } else if frame == 2 {
        "⠹"
    } else if frame == 3 {
        "⠸"
    } else if frame == 4 {
        "⠼"
    } else if frame == 5 {
        "⠴"
    } else if frame == 6 {
        "⠦"
    } else if frame == 7 {
        "⠧"
    } else if frame == 8 {
        "⠇"
    } else {
        "⠏"
    }
}

/// What clears the spinner line.
pub fn clear_progress_line() -> (s: String)
    ensures
        s@ == clear_text(),
{
    let mut row = String::new();
    let mut i: usize = 0;
    while i < 64
        invariant
            i <= 64,
            row@ == spaces(i as nat),
        decreases 64 - i,
    {
        row.push(' ');
        assert(spaces(i as nat).push(' ') == spaces((i + 1) as nat));
        i += 1;
    }
    "\r".to_owned().concat(row.as_str()).concat("\r")
}

// ---------- what holds of every run ----------

/// The progress after several lines of output.
pub open spec fn after_lines(p: Progress, filter_deleting: bool, lines: Seq<Seq<char>>) -> Progress
    decreases lines.len(),
{
    if lines.len() == 0 {
        p
    } else {
        after_lines(p, filter_deleting, lines.drop_last()).after(filter_deleting, lines.last())
    }
}

/// What is written to the terminal for several lines of output.
pub open spec fn written_lines(
    p: Progress,
    filter_deleting: bool,
    lines: Seq<Seq<char>>,
    color: bool,
) -> Seq<char>
    decreases lines.len(),
{
    if lines.len() == 0 {
        Seq::empty()
    } else {
        written_lines(p, filter_deleting, lines.drop_last(), color) + after_lines(
            p,
            filter_deleting,
            lines.drop_last(),
        ).written(filter_deleting, lines.last(), color)
    }
}

/// Two runs of lines one after the other lead to the same progress, and to the same text on
/// the terminal, as all the lines at once.
pub proof fn law_lines_one_after_the_other(
    p: Progress,
    filter_deleting: bool,
    a: Seq<Seq<char>>,
    b: Seq<Seq<char>>,
    color: bool,
)
    ensures
        after_lines(p, filter_deleting, a + b) == after_lines(
            after_lines(p, filter_deleting, a),
            filter_deleting,
            b,
        ),
        written_lines(p, filter_deleting, a + b, color) == written_lines(
            p,
            filter_deleting,
            a,
            color,
        ) + written_lines(after_lines(p, filter_deleting, a), filter_deleting, b, color),
    decreases b.len(),
{
    if b.len() == 0 {
        assert(a + b == a);
    } else {
        assert((a + b).drop_last() == a + b.drop_last());
        assert((a + b).last() == b.last());
        law_lines_one_after_the_other(p, filter_deleting, a, b.drop_last(), color);
    }
}

/// A text that ends with a line feed and a text after it lead to the same progress, and to
/// the same text on the terminal, as both at once.
pub proof fn law_outputs_one_after_the_other(
    p: Progress,
    filter_deleting: bool,
    x: Seq<char>,
    y: Seq<char>,
    color: bool,
)
    requires
        x.len() == 0 || x.last() == '\n',
    ensures
        after_lines(p, filter_deleting, lines_of(x + y)) == after_lines(
            after_lines(p, filter_deleting, lines_of(x)),
            filter_deleting,
            lines_of(y),
        ),
        written_lines(p, filter_deleting, lines_of(x + y), color) == written_lines(
            p,
            filter_deleting,
            lines_of(x),
            color,
        ) + written_lines(
            after_lines(p, filter_deleting, lines_of(x)),
            filter_deleting,
            lines_of(y),
            color,
        ),
{
    law_lines_joined(x, y);
    law_lines_one_after_the_other(p, filter_deleting, lines_of(x), lines_of(y), color);
}

/// The lines that announce that a store path is being deleted.
pub open spec fn deletions(lines: Seq<Seq<char>>) -> Seq<Seq<char>> {
    lines.filter(|l: Seq<char>| starts(l, "deleting '"@))
}

/// The counter is the number of store paths whose deletion was announced, whatever else
/// was printed in between; the spinner has moved on by one frame for each of them, and its
/// line is on the screen exactly when the last line announced a deletion. With no filter
/// the counter stands still.
pub proof fn law_counter(p: Progress, filter_deleting: bool, lines: Seq<Seq<char>>)
    requires
        p.wf(),
        p.deleted + (if filter_deleting {
            deletions(lines).len()
        } else {
            0
        }) <= u64::MAX,
    ensures
        after_lines(p, filter_deleting, lines).wf(),
        after_lines(p, filter_deleting, lines).deleted == p.deleted + if filter_deleting {
            deletions(lines).len()
        } else {
            0
        },
        after_lines(p, filter_deleting, lines).frame == (p.frame + if filter_deleting {
            deletions(lines).len()
        } else {
            0
        }) % 10,
        deletions(lines).len() <= lines.len(),
        lines.len() > 0 ==> after_lines(p, filter_deleting, lines).shown == (filter_deleting
            && starts(lines.last(), "deleting '"@)),
    decreases lines.len(),
{
    reveal(Seq::filter);
    if lines.len() > 0 {
        law_counter(p, filter_deleting, lines.drop_last());
    }
}

/// With the filter, what is written for a deletion does not depend on the path that is
/// deleted: the lines themselves are never printed.
pub proof fn law_deletions_are_not_printed(p: Progress, a: Seq<char>, b: Seq<char>, color: bool)
    requires
        starts(a, "deleting '"@),
        starts(b, "deleting '"@),
    ensures
        p.written(true, a, color) == p.written(true, b, color),
        p.written(true, a, color) == spinner_text(
            color,
            p.after(true, a).frame as int,
            p.after(true, a).deleted as nat,
        ),
{
}

/// A line that is neither a deletion, nor blank, nor routine chatter is printed, and it
/// ends what is written for it; the summary of a garbage collection is printed in green.
pub proof fn law_other_lines_are_printed(
    p: Progress,
    filter_deleting: bool,
    line: Seq<char>,
    color: bool,
)
    requires
        kind_of(filter_deleting, line) is Summary || kind_of(filter_deleting, line) is Other,
    ensures
        p.written(filter_deleting, line, color) == (if p.shown {
            clear_text()
        } else {
            Seq::empty()
        }) + (if kind_of(filter_deleting, line) is Summary {
            "   "@ + green_text(color) + line + reset_text(color) + "\n"@
        } else {
            "   "@ + line + "\n"@
        }),
{
    let cleared = if p.shown {
        clear_text()
    } else {
        Seq::empty()
    };
    assert(cleared + "   "@ + line + "\n"@ == cleared + ("   "@ + line + "\n"@));
    assert(cleared + "   "@ + green_text(color) + line + reset_text(color) + "\n"@ == cleared + (
    "   "@ + green_text(color) + line + reset_text(color) + "\n"@));
}

/// Without the filter every line that is not blank is printed as it is.
pub proof fn law_without_filter(p: Progress, line: Seq<char>, color: bool)
    requires
        !p.shown,
        !is_blank_text(line),
    ensures
        p.written(false, line, color) == "   "@ + line + "\n"@,
{
    assert(Seq::<char>::empty() + "   "@ == "   "@);
}

// ---------- what is written for which line ----------

/// What takes a spinner line off the screen, if one is there: a row of sixty-four spaces over
/// it, from the start of the line and back to it.
pub open spec fn wipe(shown: bool) -> Seq<char> {
    if shown {
        seq!['\r'] + Seq::new(64, |i: int| ' ') + seq!['\r']
    } else {
        Seq::empty()
    }
}

proof fn lemma_wipe(shown: bool)
    ensures
        (if shown {
            clear_text()
        } else {
            Seq::empty()
        }) == wipe(shown),
{
    reveal_strlit("\r");
    assert("\r"@ == seq!['\r']);
}

proof fn lemma_not_blank(line: Seq<char>)
    requires
        exists|i: int| 0 <= i < line.len() && !blank_char(#[trigger] line[i]),
    ensures
        !is_blank_text(line),
{
}

proof fn lemma_green(line: Seq<char>)
    ensures
        "   "@ + green_text(true) + line + reset_text(true) + "\n"@ == "   \x1b[32m"@ + line
            + "\x1b[0m\n"@,
        "   "@ + green_text(false) + line + reset_text(false) + "\n"@ == "   "@ + line + "\n"@,
{
    reveal_strlit("   ");
    reveal_strlit("\x1b[");
    reveal_strlit("32");
    reveal_strlit("0");
    reveal_strlit("m");
    reveal_strlit("\n");
    reveal_strlit("   \x1b[32m");
    reveal_strlit("\x1b[0m\n");
    assert("   "@ + green_text(true) == "   \x1b[32m"@);
    assert(reset_text(true) + "\n"@ == "\x1b[0m\n"@);
    let a = "   "@ + green_text(true);
    assert(a + line + reset_text(true) + "\n"@ == a + line + (reset_text(true) + "\n"@));
    assert("   "@ + green_text(false) == "   "@);
    assert("   "@ + line + reset_text(false) == "   "@ + line);
}

/// With the filter, a line that holds anything but white space is printed, unless it
/// announces the deletion of a store path or begins like one of the three routine messages
/// of a garbage collection. It is printed as it is, set in by three spaces; a line that
/// tells how many store paths were deleted is printed in green.
pub proof fn law_everything_else_is_printed(p: Progress, line: Seq<char>, color: bool)
    requires
        exists|i: int| 0 <= i < line.len() && !blank_char(#[trigger] line[i]),
        !"deleting '"@.is_prefix_of(line),
        !"finding garbage collector roots"@.is_prefix_of(line),
        !"deleting garbage"@.is_prefix_of(line),
        !"removing stale temporary roots file"@.is_prefix_of(line),
    ensures
        p.written(true, line, color) == wipe(p.shown) + if color && exists|a: Seq<char>, b: Seq<char>|
            line == #[trigger] (a + "store paths deleted"@ + b) {
            "   \x1b[32m"@ + line + "\x1b[0m\n"@
        } else {
            "   "@ + line + "\n"@
        },
        p.after(true, line) == (Progress { shown: false, ..p }),
{
    lemma_wipe(p.shown);
    lemma_not_blank(line);
    law_occurrences(line, "deleting '"@);
    law_occurrences(line, "finding garbage collector roots"@);
    law_occurrences(line, "deleting garbage"@);
    law_occurrences(line, "removing stale temporary roots file"@);
    law_occurrences(line, "store paths deleted"@);
    lemma_green(line);
    law_other_lines_are_printed(p, true, line, color);
}

/// With the filter, a line that tells how many store paths were deleted is printed even if
/// it begins like a routine message.
pub proof fn law_summaries_are_printed(p: Progress, a: Seq<char>, b: Seq<char>, color: bool)
    requires
        !"deleting '"@.is_prefix_of(a + "store paths deleted"@ + b),
    ensures
        ({
            let line = a + "store paths deleted"@ + b;
            p.written(true, line, color) == wipe(p.shown) + if color {
                "   \x1b[32m"@ + line + "\x1b[0m\n"@
            } else {
                "   "@ + line + "\n"@
            }
        }),
{
    let line = a + "store paths deleted"@ + b;
    lemma_wipe(p.shown);
    law_occurrences(line, "deleting '"@);
    law_occurrences(line, "store paths deleted"@);
    reveal_strlit("store paths deleted");
    assert(line[a.len() as int] == "store paths deleted"@[0]);
    assert(!blank_char('s'));
    assert(!blank_char(line[a.len() as int]));
    lemma_not_blank(line);
    lemma_green(line);
    law_other_lines_are_printed(p, true, line, color);
}

/// With the filter, the three routine messages of a garbage collection are dropped, but for
/// the spinner line being taken off the screen.
pub proof fn law_chatter_is_dropped(p: Progress, line: Seq<char>, color: bool)
    requires
        "finding garbage collector roots"@.is_prefix_of(line) || "deleting garbage"@.is_prefix_of(
            line,
        ) || "removing stale temporary roots file"@.is_prefix_of(line),
        forall|a: Seq<char>, b: Seq<char>| line != #[trigger] (a + "store paths deleted"@ + b),
    ensures
        p.written(true, line, color) == wipe(p.shown),
        p.after(true, line) == (Progress { shown: false, ..p }),
{
    lemma_wipe(p.shown);
    law_occurrences(line, "deleting '"@);
    law_occurrences(line, "finding garbage collector roots"@);
    law_occurrences(line, "deleting garbage"@);
    law_occurrences(line, "removing stale temporary roots file"@);
    law_occurrences(line, "store paths deleted"@);
    reveal_strlit("deleting '");
    reveal_strlit("deleting garbage");
    reveal_strlit("finding garbage collector roots");
    reveal_strlit("removing stale temporary roots file");
    if "deleting '"@.is_prefix_of(line) {
        assert(line[0] == "deleting '"@[0]);
        assert(line[9] == "deleting '"@[9]);
        if "deleting garbage"@.is_prefix_of(line) {
            assert(line[9] == "deleting garbage"@[9]);
        } else if "finding garbage collector roots"@.is_prefix_of(line) {
            assert(line[0] == "finding garbage collector roots"@[0]);
        } else {
            assert(line[0] == "removing stale temporary roots file"@[0]);
        }
    }
}

/// Without the filter every line is printed as it is, set in by three spaces. White space
/// alone is never printed, with or without the filter.
pub proof fn law_lines_without_filter(p: Progress, line: Seq<char>, color: bool)
    ensures
        (exists|i: int| 0 <= i < line.len() && !blank_char(#[trigger] line[i])) ==> p.written(
            false,
            line,
            color,
        ) == wipe(p.shown) + ("   "@ + line + "\n"@),
        (forall|i: int| 0 <= i < line.len() ==> blank_char(#[trigger] line[i])) ==> p.written(
            false,
            line,
            color,
        ) == wipe(p.shown) && p.written(true, line, color) == wipe(p.shown),
        p.after(false, line) == (Progress { shown: false, ..p }),
{
    lemma_wipe(p.shown);
    if exists|i: int| 0 <= i < line.len() && !blank_char(#[trigger] line[i]) {
        lemma_not_blank(line);
        law_other_lines_are_printed(p, false, line, color);
    } else {
        reveal_strlit("deleting '");
        if starts(line, "deleting '"@) {
            law_occurrences(line, "deleting '"@);
            assert(line[0] == "deleting '"@[0]);
            assert(!blank_char('d'));
            assert(blank_char(line[0]));
        }
    }
}

/// With the filter, a line that announces the deletion of a store path counts one more, and
/// the spinner line is drawn again with its next frame and the new count.
pub proof fn law_deletions_are_counted(p: Progress, path: Seq<char>)
    requires
        p.frame < 10,
        p.deleted < u64::MAX,
    ensures
        ({
            let line = "deleting '"@ + path;
            let next = p.after(true, line);
            let spin = "⠋⠙⠹⠸⠼⠴⠦⠧⠇⠏"@.subrange(next.frame as int, next.frame + 1);
            &&& next.deleted == p.deleted + 1
            &&& next.frame == if p.frame == 9 {
                0
            } else {
                p.frame + 1
            }
            &&& next.shown
            &&& p.written(true, line, false) == "\r   "@ + spin + " clearing store paths... "@
                + decimal_of(p.deleted as nat + 1) + " removed"@
            &&& p.written(true, line, true) == "\r   \x1b[36m"@ + spin
                + "\x1b[0m \x1b[2mclearing store paths...\x1b[0m \x1b[1m"@ + decimal_of(
                p.deleted as nat + 1,
            ) + "\x1b[0m removed"@
        }),
{
    let line = "deleting '"@ + path;
    law_occurrences(line, "deleting '"@);
    assert(line.take("deleting '"@.len() as int) == "deleting '"@);
    let next = p.after(true, line);
    lemma_spinner(next.frame as int);
    lemma_spinner_text(spinner(next.frame as int), decimal_of(p.deleted as nat + 1));
}

proof fn lemma_spinner(frame: int)
    requires
        0 <= frame < 10,
    ensures
        spinner(frame) == "⠋⠙⠹⠸⠼⠴⠦⠧⠇⠏"@.subrange(frame, frame + 1),
{
    reveal_strlit("⠋⠙⠹⠸⠼⠴⠦⠧⠇⠏");
    reveal_strlit("⠋");
    reveal_strlit("⠙");
    reveal_strlit("⠹");
    reveal_strlit("⠸");
    reveal_strlit("⠼");
    reveal_strlit("⠴");
    reveal_strlit("⠦");
    reveal_strlit("⠧");
    reveal_strlit("⠇");
    reveal_strlit("⠏");
    let all = "⠋⠙⠹⠸⠼⠴⠦⠧⠇⠏"@;
    assert(all[0] == "⠋"@[0] && all[1] == "⠙"@[0] && all[2] == "⠹"@[0] && all[3] == "⠸"@[0]
        && all[4] == "⠼"@[0]);
    assert(all[5] == "⠴"@[0] && all[6] == "⠦"@[0] && all[7] == "⠧"@[0] && all[8] == "⠇"@[0]
        && all[9] == "⠏"@[0]);
    assert(all.subrange(frame, frame + 1) == seq![all[frame]]);
    assert(spinner(frame) == seq![all[frame]]);
}

proof fn lemma_spinner_text(spin: Seq<char>, n: Seq<char>)
    ensures
        "\r   "@ + cyan_text(false) + spin + reset_text(false) + " "@ + dim_text(false)
            + "clearing store paths..."@ + reset_text(false) + " "@ + bold_text(false) + n
            + reset_text(false) + " removed"@ == "\r   "@ + spin + " clearing store paths... "@ + n
            + " removed"@,
        "\r   "@ + cyan_text(true) + spin + reset_text(true) + " "@ + dim_text(true)
            + "clearing store paths..."@ + reset_text(true) + " "@ + bold_text(true) + n
            + reset_text(true) + " removed"@ == "\r   \x1b[36m"@ + spin
            + "\x1b[0m \x1b[2mclearing store paths...\x1b[0m \x1b[1m"@ + n
            + "\x1b[0m removed"@,
{
    reveal_strlit("\r   ");
    reveal_strlit(" ");
    reveal_strlit("clearing store paths...");
    reveal_strlit(" removed");
    reveal_strlit(" clearing store paths... ");
    reveal_strlit("\x1b[");
    reveal_strlit("36");
    reveal_strlit("2");
    reveal_strlit("1");
    reveal_strlit("0");
    reveal_strlit("m");
    reveal_strlit("\r   \x1b[36m");
    reveal_strlit("\x1b[0m \x1b[2mclearing store paths...\x1b[0m \x1b[1m");
    reveal_strlit("\x1b[0m removed");
    assert(" "@ + "clearing store paths..."@ + " "@ == " clearing store paths... "@);
    assert("\r   "@ + cyan_text(true) == "\r   \x1b[36m"@);
    assert(reset_text(true) + " "@ + dim_text(true) + "clearing store paths..."@ + reset_text(true)
        + " "@ + bold_text(true) == "\x1b[0m \x1b[2mclearing store paths...\x1b[0m \x1b[1m"@);
    assert(reset_text(true) + " removed"@ == "\x1b[0m removed"@);
    let a = "\r   "@ + cyan_text(true) + spin;
    let b = reset_text(true) + " "@ + dim_text(true) + "clearing store paths..."@ + reset_text(true)
        + " "@ + bold_text(true);
    assert(a + reset_text(true) + " "@ + dim_text(true) + "clearing store paths..."@ + reset_text(
        true,
    ) + " "@ + bold_text(true) + n + reset_text(true) + " removed"@ == a + b + n + (reset_text(true)
        + " removed"@));
}

/// When a command has ended, a spinner line that is still on the screen gives way to the
/// number of store paths that were deleted; else nothing is written.
pub proof fn law_closing(p: Progress)
    ensures
        !p.shown ==> p.closing(true) == Seq::<char>::empty() && p.closing(false) == Seq::<
            char,
        >::empty(),
        p.shown ==> p.closing(false) == wipe(true) + ("   deleted "@ + decimal_of(p.deleted as nat)
            + " store paths\n"@),
        p.shown ==> p.closing(true) == wipe(true) + ("   \x1b[32mdeleted "@ + decimal_of(
            p.deleted as nat,
        ) + " store paths\x1b[0m\n"@),
{
    lemma_wipe(true);
    let n = decimal_of(p.deleted as nat);
    reveal_strlit("   ");
    reveal_strlit("deleted ");
    reveal_strlit(" store paths");
    reveal_strlit("\n");
    reveal_strlit("   deleted ");
    reveal_strlit(" store paths\n");
    reveal_strlit("\x1b[");
    reveal_strlit("32");
    reveal_strlit("0");
    reveal_strlit("m");
    reveal_strlit("   \x1b[32mdeleted ");
    reveal_strlit(" store paths\x1b[0m\n");
    assert("   "@ + "deleted "@ == "   deleted "@);
    assert(" store paths"@ + "\n"@ == " store paths\n"@);
    assert("   "@ + green_text(true) + "deleted "@ == "   \x1b[32mdeleted "@);
    assert(" store paths"@ + reset_text(true) + "\n"@ == " store paths\x1b[0m\n"@);
    let w = clear_text();
    assert(w + "   "@ + green_text(false) + "deleted "@ + n + " store paths"@ + reset_text(false)
        + "\n"@ == w + (("   "@ + "deleted "@) + n + (" store paths"@ + "\n"@)));
    assert(w + "   "@ + green_text(true) + "deleted "@ + n + " store paths"@ + reset_text(true)
        + "\n"@ == w + (("   "@ + green_text(true) + "deleted "@) + n + (" store paths"@
        + reset_text(true) + "\n"@)));
}

} // verus!
