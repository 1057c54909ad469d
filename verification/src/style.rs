//! Terminal styling: the ANSI escape sequences around highlighted words.
//!
//! Styling is off when the output is not a terminal; every function here then
//! returns the empty string, so that logs and files hold plain text.
use vstd::prelude::*;

verus! {

/// The escape sequence that selects the style `code`, or nothing without colour.
pub open spec fn col_text(color: bool, code: Seq<char>) -> Seq<char> {
    if color {
        "\x1b["@ + code + "m"@
    } else {
        Seq::empty()
    }
}

/// The escape sequence that selects the style `code`, or nothing without colour.
pub fn col(color: bool, code: &str) -> (s: String)
    ensures
        s@ == col_text(color, code@),
{
    if color {
        "\x1b[".to_owned().concat(code).concat("m")
    } else {
        String::new()
    }
}

/// Back to plain text.
pub open spec fn reset_text(color: bool) -> Seq<char> {
    col_text(color, "0"@)
}

/// Back to plain text.
pub fn reset(color: bool) -> (s: String)
    ensures
        s@ == reset_text(color),
{
    col(color, "0")
}

/// Bold.
pub open spec fn bold_text(color: bool) -> Seq<char> {
    col_text(color, "1"@)
}

/// Bold.
pub fn bold(color: bool) -> (s: String)
    ensures
        s@ == bold_text(color),
{
    col(color, "1")
}

/// Dim.
pub open spec fn dim_text(color: bool) -> Seq<char> {
    col_text(color, "2"@)
}

/// Dim.
pub fn dim(color: bool) -> (s: String)
    ensures
        s@ == dim_text(color),
{
    col(color, "2")
}

/// Red.
pub open spec fn red_text(color: bool) -> Seq<char> {
    col_text(color, "31"@)
}

/// Red.
pub fn red(color: bool) -> (s: String)
    ensures
        s@ == red_text(color),
{
    col(color, "31")
}

/// Green.
pub open spec fn green_text(color: bool) -> Seq<char> {
    col_text(color, "32"@)
}

/// Green.
pub fn green(color: bool) -> (s: String)
    ensures
        s@ == green_text(color),
{
    col(color, "32")
}

/// Yellow.
pub open spec fn yellow_text(color: bool) -> Seq<char> {
    col_text(color, "33"@)
}

/// Yellow.
pub fn yellow(color: bool) -> (s: String)
    ensures
        s@ == yellow_text(color),
{
    col(color, "33")
}

/// Cyan.
pub open spec fn cyan_text(color: bool) -> Seq<char> {
    col_text(color, "36"@)
}

/// Cyan.
pub fn cyan(color: bool) -> (s: String)
    ensures
        s@ == cyan_text(color),
{
    col(color, "36")
}

/// Without colour no style writes anything, so that what is printed holds no escape
/// sequence of a style.
pub proof fn law_plain_without_color(code: Seq<char>)
    ensures
        col_text(false, code) == Seq::<char>::empty(),
        reset_text(false) == Seq::<char>::empty(),
        bold_text(false) == Seq::<char>::empty(),
        dim_text(false) == Seq::<char>::empty(),
        red_text(false) == Seq::<char>::empty(),
        green_text(false) == Seq::<char>::empty(),
        yellow_text(false) == Seq::<char>::empty(),
        cyan_text(false) == Seq::<char>::empty(),
{
}

/// The escape sequences: bold, dim, red, green, yellow and cyan are selected by their
/// numbers, and number zero goes back to plain text.
pub proof fn law_escape_sequences()
    ensures
        reset_text(true) == "\x1b[0m"@,
        bold_text(true) == "\x1b[1m"@,
        dim_text(true) == "\x1b[2m"@,
        red_text(true) == "\x1b[31m"@,
        green_text(true) == "\x1b[32m"@,
        yellow_text(true) == "\x1b[33m"@,
        cyan_text(true) == "\x1b[36m"@,
{
    reveal_strlit("\x1b[");
    reveal_strlit("m");
    reveal_strlit("0");
    reveal_strlit("1");
    reveal_strlit("2");
    reveal_strlit("31");
    reveal_strlit("32");
    reveal_strlit("33");
    reveal_strlit("36");
    reveal_strlit("\x1b[0m");
    reveal_strlit("\x1b[1m");
    reveal_strlit("\x1b[2m");
    reveal_strlit("\x1b[31m");
    reveal_strlit("\x1b[32m");
    reveal_strlit("\x1b[33m");
    reveal_strlit("\x1b[36m");
}

} // verus!
