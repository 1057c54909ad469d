//! The parts of a status report: headings, counts, ages and the largest paths.
use vstd::prelude::*;

use crate::numbers::{
    decimal, decimal_of, i64_of, last_word, last_word_of, law_last_word,
    law_reading_undoes_writing, parse_i64, tail_word,
};
use crate::sorting::{
    is_ranking, law_sort_is_stable, law_sort_keeps_items, law_sort_orders, law_sort_permutes,
    lemma_place, of_rank,
    stable_sort, tie,
};
use crate::style::{bold, bold_text, cyan, cyan_text, law_escape_sequences, reset, reset_text};
use crate::text::{
    blank_char, chars, first_of, is_blank_line, is_blank_text, law_lines_joined, law_one_line,
    lemma_first_of, lemma_first_of_first, lines, lines_of, slices, text, trim_end_of,
    without_return,
};

verus! {

// ---------- headings ----------

/// The heading of a section of the report.
pub open spec fn section_text(color: bool, title: Seq<char>) -> Seq<char> {
    "\n"@ + bold_text(color) + cyan_text(color) + "── "@ + title + " ──"@ + reset_text(color)
        + "\n"@
}

/// The heading of a section of the report.
pub fn section(color: bool, title: &str) -> (s: String)
    ensures
        s@ == section_text(color, title@),
{
    "\n".to_owned().concat(bold(color).as_str()).concat(cyan(color).as_str()).concat("── ").concat(
        title,
    ).concat(" ──").concat(reset(color).as_str()).concat("\n")
}

// ---------- generations ----------

/// The lines that are not blank: one for each generation.
pub open spec fn filled_lines(rows: Seq<Seq<char>>) -> Seq<Seq<char>> {
    rows.filter(|l: Seq<char>| !is_blank_text(l))
}

/// The number of generations that a listing holds.
pub open spec fn generation_count(listing: Seq<char>) -> nat {
    filled_lines(lines_of(listing)).len()
}

/// The number of generations that a listing holds.
pub fn count_generations(listing: &str) -> (n: u64)
    ensures
        n == generation_count(listing@),
{
    let all = chars(listing);
    let ls = lines(all.as_slice());
    let ghost rows = lines_of(listing@);
    let mut n: u64 = 0;
    let mut i: usize = 0;
    assert(filled_lines(rows.take(0)).len() == 0) by {
        reveal(Seq::filter);
    }
    while i < ls.len()
        invariant
            i <= ls.len(),
            rows == slices(ls@),
            n <= i,
            n == filled_lines(rows.take(i as int)).len(),
        decreases ls.len() - i,
    {
        let blank = is_blank_line(ls[i]);
        proof {
            reveal(Seq::filter);
            assert(rows.take(i + 1).drop_last() == rows.take(i as int));
            assert(rows[i as int] == ls@[i as int]@);
        }
        if !blank {
            n += 1;
        }
        i += 1;
    }
    assert(rows.take(i as int) == rows);
    n
}

/// The line on the generations of a profile, from the listing of the profile.
pub open spec fn generations_text(
    label: Seq<char>,
    profile: Seq<char>,
    listing: Option<Seq<char>>,
) -> Seq<char> {
    match listing {
        Some(out) => if out.len() > 0 {
            "  "@ + label + ": "@ + decimal_of(generation_count(out))
                + " generation(s)  (profile: "@ + profile + ")\n"@
        } else {
            "  "@ + label + ": none found (profile: "@ + profile + ")\n"@
        },
        None => "  "@ + label + ": none found (profile: "@ + profile + ")\n"@,
    }
}

/// The line on the generations of a profile, from the listing of the profile.
pub fn print_generation_count(label: &str, profile: &str, listing: Option<&str>) -> (s: String)
    ensures
        s@ == generations_text(
            label@,
            profile@,
            match listing {
                Some(out) => Some(out@),
                None => None,
            },
        ),
{
    if let Some(out) = listing {
        if !out.is_empty() {
            let n = decimal(count_generations(out));
            return "  ".to_owned().concat(label).concat(": ").concat(n.as_str()).concat(
                " generation(s)  (profile: ",
            ).concat(profile).concat(")\n");
        }
    }
    "  ".to_owned().concat(label).concat(": none found (profile: ").concat(profile).concat(")\n")
}

// ---------- ages ----------

/// When a link was last changed, as far as that is known.
pub enum LinkAge {
    /// The link cannot be looked at.
    Gone,
    /// The link is dated in the future.
    Ahead,
    /// The link was changed this many seconds ago.
    Seconds(u64),
}

/// How the age of a link is described: in whole days.
pub open spec fn age_text(age: LinkAge) -> Seq<char> {
    match age {
        LinkAge::Gone => "target gone, will be pruned on next gc"@,
        LinkAge::Ahead => decimal_of(0) + "d old"@,
        LinkAge::Seconds(n) => decimal_of((n / 86400) as nat) + "d old"@,
    }
}

/// How the age of a link is described: in whole days.
pub fn describe_age(age: &LinkAge) -> (s: String)
    ensures
        s@ == age_text(*age),
{
    match age {
        LinkAge::Gone => "target gone, will be pruned on next gc".to_owned(),
        LinkAge::Ahead => decimal(0).concat("d old"),
        LinkAge::Seconds(n) => decimal(*n / 86400).concat("d old"),
    }
}

// ---------- the largest paths ----------

/// The size at the end of a line, or zero if the line does not end with an integer.
pub open spec fn size_of_line(line: Seq<char>) -> i64 {
    match last_word_of(line) {
        Some(word) => match i64_of(word) {
            Some(n) => n,
            None => 0,
        },
        None => 0,
    }
}

/// The order of lines by the size at their end.
pub open spec fn size_order() -> spec_fn(Seq<char>, Seq<char>) -> bool {
    |a: Seq<char>, b: Seq<char>| size_of_line(a) < size_of_line(b)
}

/// The lines of a listing, largest size first. Of lines of one size the later goes first.
pub open spec fn by_size(listing: Seq<char>) -> Seq<Seq<char>> {
    stable_sort(lines_of(listing), size_order()).reverse()
}

/// At most `limit` items from the front of a row.
pub open spec fn at_most(row: Seq<Seq<char>>, limit: nat) -> Seq<Seq<char>> {
    if row.len() <= limit {
        row
    } else {
        row.take(limit as int)
    }
}

/// Each item of a row on a line of its own, set in by two spaces.
pub open spec fn rows_text(row: Seq<Seq<char>>) -> Seq<char>
    decreases row.len(),
{
    if row.len() == 0 {
        Seq::empty()
    } else {
        rows_text(row.drop_last()) + "  "@ + row.last() + "\n"@
    }
}

/// The `limit` largest lines of a listing, largest first.
pub open spec fn largest_text(listing: Seq<char>, limit: nat) -> Seq<char> {
    rows_text(at_most(by_size(listing), limit))
}

fn line_size(line: &[char]) -> (n: i64)
    ensures
        n == size_of_line(line@),
{
    match last_word(line) {
        Some(word) => match parse_i64(word) {
            Some(n) => n,
            None => 0,
        },
        None => 0,
    }
}

/// The `limit` largest lines of a listing, largest first.
pub fn largest(listing: &str, limit: usize) -> (s: String)
    ensures
        s@ == largest_text(listing@, limit as nat),
{
    let all = chars(listing);
    let ls = lines(all.as_slice());
    let ghost rows = lines_of(listing@);
    let mut row: Vec<&[char]> = Vec::new();
    let mut sizes: Vec<i64> = Vec::new();
    let mut i: usize = 0;
    assert(slices(row@) == Seq::<Seq<char>>::empty());
    while i < ls.len()
        invariant
            i <= ls.len(),
            rows == slices(ls@),
            row.len() == sizes.len(),
            forall|j: int| 0 <= j < row.len() ==> sizes@[j] == size_of_line(#[trigger] row@[j]@),
            slices(row@) == stable_sort(rows.take(i as int), size_order()),
        decreases ls.len() - i,
    {
        let line = ls[i];
        let size = line_size(line);
        let mut k: usize = row.len();
        let ghost before = slices(row@);
        while k > 0 && size < sizes[k - 1]
            invariant
                k <= row.len() == sizes.len(),
                before == slices(row@),
                size == size_of_line(line@),
                forall|j: int| 0 <= j < row.len() ==> sizes@[j] == size_of_line(
                    #[trigger] row@[j]@,
                ),
                forall|j: int| k <= j < before.len() ==> size_order()(line@, #[trigger] before[j]),
            decreases k,
        {
            assert(before[k - 1] == row@[k - 1]@);
            k -= 1;
        }
        proof {
            if k > 0 {
                assert(before[k - 1] == row@[k - 1]@);
            }
            lemma_place(before, line@, size_order(), k as int);
            assert(slices(row@.insert(k as int, line)) == before.insert(k as int, line@));
            assert(rows.take(i + 1).drop_last() == rows.take(i as int));
            assert(rows.take(i + 1).last() == line@);
        }
        row.insert(k, line);
        sizes.insert(k, size);
        i += 1;
    }
    assert(rows.take(i as int) == rows);
    let ghost sorted = slices(row@);
    let ghost shown = at_most(by_size(listing@), limit as nat);
    let mut s = String::new();
    let mut n: usize = 0;
    while n < row.len() && n < limit
        invariant
            n <= row.len(),
            n <= limit,
            sorted == slices(row@),
            shown == at_most(sorted.reverse(), limit as nat),
            s@ == rows_text(shown.take(n as int)),
        decreases row.len() - n,
    {
        let line = row[row.len() - 1 - n];
        s.append("  ");
        s.append(text(line).as_str());
        s.append("\n");
        proof {
            assert(shown[n as int] == sorted[sorted.len() - 1 - n]);
            assert(shown.take(n + 1).drop_last() == shown.take(n as int));
            assert(shown.take(n + 1).last() == line@);
        }
        n += 1;
    }
    assert(shown.take(n as int) == shown);
    s
}

proof fn lemma_size_ranking()
    ensures
        is_ranking(size_order()),
{
    let before = size_order();
    assert forall|a: Seq<char>, b: Seq<char>, c: Seq<char>| #[trigger]
        tie(a, b, before) && #[trigger] tie(b, c, before) implies tie(a, c, before) by {
        assert(size_of_line(a) == size_of_line(b) == size_of_line(c));
    }
}

proof fn lemma_of_rank_reversed(s: Seq<Seq<char>>, x: Seq<char>)
    ensures
        of_rank(s.reverse(), x, size_order()) == of_rank(s, x, size_order()).reverse(),
    decreases s.len(),
{
    let same = |y: Seq<char>| tie(x, y, size_order());
    reveal(Seq::filter);
    if s.len() > 0 {
        let rest = s.drop_last();
        let e = seq![s.last()];
        lemma_of_rank_reversed(rest, x);
        assert(s.reverse() == e + rest.reverse());
        Seq::filter_distributes_over_add(e, rest.reverse(), same);
        assert(e.drop_last() == Seq::<Seq<char>>::empty());
        assert(e.drop_last().filter(same) == Seq::<Seq<char>>::empty());
        if same(s.last()) {
            assert(e.filter(same) == e);
            assert(rest.filter(same).push(s.last()).reverse() == e + rest.filter(same).reverse());
        } else {
            assert(e.filter(same) == Seq::<Seq<char>>::empty());
            assert(Seq::<Seq<char>>::empty() + rest.reverse().filter(same) == rest.reverse().filter(
                same,
            ));
        }
    } else {
        assert(s.reverse() == s);
        assert(s.filter(same).reverse() == s.filter(same));
    }
}

/// Lines of one size stand in the opposite order of the listing.
pub proof fn law_by_size_turns_ties_round(listing: Seq<char>, line: Seq<char>)
    ensures
        of_rank(by_size(listing), line, size_order()) == of_rank(
            lines_of(listing),
            line,
            size_order(),
        ).reverse(),
{
    lemma_size_ranking();
    law_sort_is_stable(lines_of(listing), size_order(), line);
    lemma_of_rank_reversed(stable_sort(lines_of(listing), size_order()), line);
}

/// The lines of a listing by size are the lines of the listing, and no line is larger
/// than one before it.
pub proof fn law_by_size(listing: Seq<char>)
    ensures
        by_size(listing).to_multiset() == lines_of(listing).to_multiset(),
        by_size(listing).len() == lines_of(listing).len(),
        forall|i: int, j: int|
            0 <= i < j < by_size(listing).len() ==> size_of_line(#[trigger] by_size(listing)[i])
                >= size_of_line(#[trigger] by_size(listing)[j]),
{
    let sorted = stable_sort(lines_of(listing), size_order());
    let rev = by_size(listing);
    lemma_size_ranking();
    law_sort_keeps_items(lines_of(listing), size_order());
    law_sort_orders(lines_of(listing), size_order());
    sorted.lemma_reverse_to_multiset();
    assert forall|i: int, j: int| 0 <= i < j < rev.len() implies size_of_line(#[trigger] rev[i])
        >= size_of_line(#[trigger] rev[j]) by {
        let n = sorted.len();
        assert(rev[i] == sorted[n - 1 - i]);
        assert(rev[j] == sorted[n - 1 - j]);
        assert(!size_order()(sorted[n - 1 - i], sorted[n - 1 - j]));
    }
}

// ---------- what the counts and the list of sizes say ----------

proof fn lemma_filled_joined(a: Seq<Seq<char>>, b: Seq<Seq<char>>)
    ensures
        filled_lines(a + b) == filled_lines(a) + filled_lines(b),
{
    Seq::filter_distributes_over_add(a, b, |l: Seq<char>| !is_blank_text(l));
}

proof fn lemma_filled_one(l: Seq<char>)
    ensures
        filled_lines(seq![l]).len() == if is_blank_text(l) {
            0nat
        } else {
            1nat
        },
{
    reveal(Seq::filter);
    let one = seq![l];
    assert(one.drop_last() == Seq::<Seq<char>>::empty());
    assert(filled_lines(Seq::<Seq<char>>::empty()) == Seq::<Seq<char>>::empty());
    assert(filled_lines(one.drop_last()) == Seq::<Seq<char>>::empty());
    assert(one.last() == l);
}

proof fn lemma_blank_without_return(x: Seq<char>)
    ensures
        is_blank_text(without_return(x)) == is_blank_text(x),
{
    let y = without_return(x);
    if x.len() > 0 && x.last() == '\r' {
        assert(y == x.drop_last());
        if is_blank_text(y) {
            assert forall|i: int| 0 <= i < x.len() implies blank_char(#[trigger] x[i]) by {
                if i < y.len() {
                    assert(x[i] == y[i]);
                }
            }
        }
        if is_blank_text(x) {
            assert forall|i: int| 0 <= i < y.len() implies blank_char(#[trigger] y[i]) by {
                assert(x[i] == y[i]);
            }
        }
    }
}

proof fn lemma_count_with_line_feed(a: Seq<char>)
    ensures
        generation_count(a.push('\n')) == generation_count(a),
    decreases a.len(),
{
    let s = a.push('\n');
    let n = first_of(a, '\n') as int;
    lemma_first_of_first(a, '\n');
    assert forall|j: int| 0 <= j < n implies s[j] != '\n' by {
        assert(s[j] == a[j]);
    }
    lemma_first_of(s, '\n', n);
    assert(s.take(n) == a.take(n));
    let head = without_return(a.take(n));
    if n < a.len() {
        let rest = a.skip(n + 1);
        assert(s.skip(n + 1) == rest.push('\n'));
        lemma_count_with_line_feed(rest);
        lemma_filled_joined(seq![head], lines_of(rest));
        lemma_filled_joined(seq![head], lines_of(rest.push('\n')));
    } else {
        assert(a.take(n) == a);
        assert(s.skip(n + 1) == Seq::<char>::empty());
        law_one_line(Seq::empty());
        assert(lines_of(s) == seq![head]);
        lemma_filled_one(head);
        lemma_blank_without_return(a);
        if a.len() == 0 {
            assert(filled_lines(lines_of(a)) == Seq::<Seq<char>>::empty()) by {
                reveal(Seq::filter);
            }
        } else {
            lemma_filled_one(a);
        }
    }
}

/// The generations of two listings with a line feed between them are those of the one and
/// those of the other.
pub proof fn law_generations_add_up(a: Seq<char>, b: Seq<char>)
    ensures
        generation_count(a.push('\n') + b) == generation_count(a) + generation_count(b),
{
    law_lines_joined(a.push('\n'), b);
    lemma_filled_joined(lines_of(a.push('\n')), lines_of(b));
    lemma_count_with_line_feed(a);
}

/// A single line is one generation if it holds a character that is not white space, wherever
/// in the line, and none if it does not.
pub proof fn law_generation_on_a_line(line: Seq<char>)
    requires
        forall|i: int| 0 <= i < line.len() ==> line[i] != '\n',
    ensures
        (exists|i: int| 0 <= i < line.len() && !blank_char(#[trigger] line[i]))
            ==> generation_count(line) == 1,
        (forall|i: int| 0 <= i < line.len() ==> blank_char(#[trigger] line[i]))
            ==> generation_count(line) == 0,
{
    law_one_line(line);
    if line.len() == 0 {
        reveal(Seq::filter);
    } else {
        lemma_filled_one(line);
    }
}

/// The line on a profile names its number of generations, the label and the profile. Without
/// a listing, or with an empty one, it says that there are none.
pub proof fn law_generations_line(label: Seq<char>, profile: Seq<char>, listing: Seq<char>)
    ensures
        listing.len() > 0 ==> generations_text(label, profile, Some(listing)) == "  "@ + label
            + ": "@ + decimal_of(generation_count(listing)) + " generation(s)  (profile: "@
            + profile + ")\n"@,
        generations_text(label, profile, None) == "  "@ + label + ": none found (profile: "@
            + profile + ")\n"@,
        generations_text(label, profile, Some(Seq::empty())) == generations_text(
            label,
            profile,
            None,
        ),
{
}

/// The age of a link is told in whole days of 86400 seconds, rounded down. A link dated in
/// the future is told to be as old as one of this moment.
pub proof fn law_age_in_days(days: nat, seconds: nat)
    requires
        seconds < 24 * 60 * 60,
        days * 86400 + seconds <= u64::MAX,
    ensures
        age_text(LinkAge::Seconds((days * 86400 + seconds) as u64)) == decimal_of(days) + "d old"@,
        age_text(LinkAge::Ahead) == age_text(LinkAge::Seconds(0)),
        age_text(LinkAge::Gone) == "target gone, will be pruned on next gc"@,
{
    let n = days * 86400 + seconds;
    assert(n / 86400 == days);
}

/// Whether `word` is the last word of a line: white space alone follows it, and white space
/// or nothing goes before it.
pub open spec fn last_on(line: Seq<char>, word: Seq<char>) -> bool {
    &&& word.len() > 0
    &&& forall|i: int| 0 <= i < word.len() ==> !blank_char(#[trigger] word[i])
    &&& exists|a: Seq<char>, b: Seq<char>|
        line == #[trigger] (a + word + b) && (a.len() > 0 ==> blank_char(a.last())) && (forall|
            i: int,
        |
            0 <= i < b.len() ==> blank_char(#[trigger] b[i]))
}

proof fn lemma_size_of_last_word(line: Seq<char>, word: Seq<char>)
    requires
        last_on(line, word),
    ensures
        last_word_of(line) == Some(word),
        size_of_line(line) == match i64_of(word) {
            Some(n) => n,
            None => 0,
        },
{
    let (a, b) = choose|a: Seq<char>, b: Seq<char>|
        line == #[trigger] (a + word + b) && (a.len() > 0 ==> blank_char(a.last())) && (forall|
            i: int,
        |
            0 <= i < b.len() ==> blank_char(#[trigger] b[i]));
    law_last_word(a, word, b);
}

/// Whether a line ends with an integer of 64 bits, and that is `n`; a line that ends with
/// none counts as if it ended with zero.
pub open spec fn ends_with_size(line: Seq<char>, n: i64) -> bool {
    ||| exists|word: Seq<char>| #[trigger] last_on(line, word) && i64_of(word) == Some(n)
    ||| n == 0 && forall|word: Seq<char>| #[trigger] last_on(line, word) ==> i64_of(word) is None
}

proof fn lemma_last_word_is_last(line: Seq<char>)
    ensures
        last_word_of(line) matches Some(word) ==> last_on(line, word),
{
    let t = trim_end_of(line);
    lemma_trim_end_parts(line);
    if t.len() > 0 {
        let word = tail_word(t);
        lemma_tail_word_parts(t);
        let a = t.take(t.len() - word.len());
        let b = line.skip(t.len() as int);
        assert(line == a + word + b);
    }
}

proof fn lemma_trim_end_parts(s: Seq<char>)
    ensures
        trim_end_of(s).len() <= s.len(),
        trim_end_of(s) == s.take(trim_end_of(s).len() as int),
        trim_end_of(s).len() > 0 ==> !blank_char(trim_end_of(s).last()),
        forall|i: int|
            0 <= i < s.skip(trim_end_of(s).len() as int).len() ==> blank_char(
                #[trigger] s.skip(trim_end_of(s).len() as int)[i],
            ),
    decreases s.len(),
{
    let t = trim_end_of(s);
    if s.len() > 0 && blank_char(s.last()) {
        let rest = s.drop_last();
        lemma_trim_end_parts(rest);
        assert(rest.take(t.len() as int) == s.take(t.len() as int));
        assert forall|i: int| 0 <= i < s.skip(t.len() as int).len() implies blank_char(
            #[trigger] s.skip(t.len() as int)[i],
        ) by {
            if i < s.len() - 1 - t.len() {
                assert(rest.skip(t.len() as int)[i] == s[t.len() + i]);
            }
        }
    } else {
        assert(s.take(s.len() as int) == s);
    }
}

proof fn lemma_tail_word_parts(t: Seq<char>)
    ensures
        tail_word(t).len() <= t.len(),
        t == t.take(t.len() - tail_word(t).len()) + tail_word(t),
        t.len() > 0 && !blank_char(t.last()) ==> tail_word(t).len() > 0,
        forall|i: int| 0 <= i < tail_word(t).len() ==> !blank_char(#[trigger] tail_word(t)[i]),
        tail_word(t).len() < t.len() ==> blank_char(t[t.len() - tail_word(t).len() - 1]),
    decreases t.len(),
{
    let w = tail_word(t);
    if t.len() > 0 && !blank_char(t.last()) {
        let rest = t.drop_last();
        lemma_tail_word_parts(rest);
        let v = tail_word(rest);
        assert(t.take(t.len() - w.len()) == rest.take(rest.len() - v.len()));
        assert(t == rest.push(t.last()));
        assert((rest.take(rest.len() - v.len()) + v).push(t.last()) == rest.take(
            rest.len() - v.len(),
        ) + w);
    } else {
        assert(t.take(t.len() as int) + w == t);
    }
}

proof fn lemma_ends_with_size(line: Seq<char>, n: i64)
    ensures
        ends_with_size(line, n) <==> size_of_line(line) == n,
{
    lemma_last_word_is_last(line);
    assert forall|word: Seq<char>| #[trigger] last_on(line, word) implies last_word_of(line)
        == Some(word) by {
        lemma_size_of_last_word(line, word);
    }
    if let Some(word) = last_word_of(line) {
        assert(last_on(line, word));
    }
}

/// The list of the largest lines: some order of all lines of the listing, of which the first
/// `limit` are shown, each set in by two spaces. Of two lines the one that ends with the
/// larger integer goes first, and of two that end with the same integer the one that stands
/// later in the listing.
pub proof fn law_largest_lines(listing: Seq<char>, limit: nat) -> (order: Seq<int>)
    ensures
        order.len() == lines_of(listing).len(),
        forall|i: int| 0 <= i < order.len() ==> 0 <= #[trigger] order[i] < order.len(),
        order.no_duplicates(),
        largest_text(listing, limit) == Seq::new(
            if limit < order.len() {
                limit
            } else {
                order.len()
            },
            |i: int| "  "@ + lines_of(listing)[order[i]] + "\n"@,
        ).flatten(),
        forall|i: int, j: int, m: i64, n: i64|
            0 <= i < j < order.len() && #[trigger] ends_with_size(lines_of(listing)[order[i]], m)
                && #[trigger] ends_with_size(lines_of(listing)[order[j]], n) ==> m >= n && (m == n
                ==> order[i] > order[j]),
{
    let rows = lines_of(listing);
    lemma_size_ranking();
    let r = law_sort_permutes(rows, size_order());
    let order = r.reverse();
    let all = by_size(listing);
    assert(all == Seq::new(rows.len(), |i: int| rows[order[i]]));
    assert forall|i: int| 0 <= i < order.len() implies 0 <= #[trigger] order[i] < order.len() by {
        assert(order[i] == r[r.len() - 1 - i]);
    }
    assert(order.no_duplicates());
    let shown = at_most(all, limit);
    lemma_rows_text(shown);
    assert(shown.map_values(|l: Seq<char>| "  "@ + l + "\n"@) == Seq::new(
        if limit < order.len() {
            limit
        } else {
            order.len()
        },
        |i: int| "  "@ + rows[order[i]] + "\n"@,
    ));
    assert forall|i: int, j: int, m: i64, n: i64|
        0 <= i < j < order.len() && #[trigger] ends_with_size(rows[order[i]], m)
            && #[trigger] ends_with_size(rows[order[j]], n) implies m >= n && (m == n ==> order[i]
        > order[j]) by {
        let a = r.len() - 1 - i;
        let b = r.len() - 1 - j;
        assert(order[i] == r[a] && order[j] == r[b]);
        lemma_ends_with_size(rows[r[a]], m);
        lemma_ends_with_size(rows[r[b]], n);
        assert(!size_order()(rows[r[a]], rows[r[b]]));
    }
    order
}

proof fn lemma_rows_text(row: Seq<Seq<char>>)
    ensures
        rows_text(row) == row.map_values(|l: Seq<char>| "  "@ + l + "\n"@).flatten(),
    decreases row.len(),
{
    let f = |l: Seq<char>| "  "@ + l + "\n"@;
    if row.len() > 0 {
        let rest = row.drop_last();
        lemma_rows_text(rest);
        rest.map_values(f).lemma_flatten_push(f(row.last()));
        assert(row.map_values(f) == rest.map_values(f).push(f(row.last())));
        let before = rows_text(rest);
        assert(before + "  "@ + row.last() + "\n"@ == before + ("  "@ + row.last() + "\n"@));
    }
}

/// Of two lines that end with the decimal notations of two sizes, the one with the larger
/// size goes first, and if only one of them is shown it is that one.
pub proof fn law_larger_sizes_first(
    listing: Seq<char>,
    limit: nat,
    p: int,
    q: int,
    m: nat,
    n: nat,
) -> (order: Seq<int>)
    requires
        0 <= p < lines_of(listing).len(),
        0 <= q < lines_of(listing).len(),
        n < m <= i64::MAX,
        last_on(lines_of(listing)[p], decimal_of(m)),
        last_on(lines_of(listing)[q], decimal_of(n)),
    ensures
        largest_text(listing, limit) == Seq::new(
            if limit < order.len() {
                limit
            } else {
                order.len()
            },
            |i: int| "  "@ + lines_of(listing)[order[i]] + "\n"@,
        ).flatten(),
        order.len() == lines_of(listing).len(),
        order.no_duplicates(),
        exists|i: int, j: int|
            0 <= i < j < order.len() && #[trigger] order[i] == p && #[trigger] order[j] == q,
{
    let rows = lines_of(listing);
    let order = law_largest_lines(listing, limit);
    law_reading_undoes_writing(m);
    law_reading_undoes_writing(n);
    assert(ends_with_size(rows[p], m as i64));
    assert(ends_with_size(rows[q], n as i64));
    lemma_positions_covered(order, p);
    lemma_positions_covered(order, q);
    let i = choose|i: int| 0 <= i < order.len() && order[i] == p;
    let j = choose|j: int| 0 <= j < order.len() && order[j] == q;
    if i == j {
        lemma_ends_with_size(rows[p], m as i64);
        lemma_ends_with_size(rows[p], n as i64);
    } else if j < i {
        assert(ends_with_size(rows[order[j]], n as i64) && ends_with_size(
            rows[order[i]],
            m as i64,
        ));
    }
    order
}

proof fn lemma_positions_covered(order: Seq<int>, p: int)
    requires
        order.no_duplicates(),
        forall|i: int| 0 <= i < order.len() ==> 0 <= #[trigger] order[i] < order.len(),
        0 <= p < order.len(),
    ensures
        exists|i: int| 0 <= i < order.len() && order[i] == p,
{
    let n = order.len() as int;
    if !order.contains(p) {
        let all = vstd::set_lib::set_int_range(0, n);
        vstd::set_lib::lemma_int_range(0, n);
        order.unique_seq_to_set();
        let held = order.to_set();
        assert forall|x: int| held.contains(x) implies all.remove(p).contains(x) by {
            let i = choose|i: int| 0 <= i < order.len() && order[i] == x;
            assert(order[i] == x);
        }
        vstd::set_lib::lemma_len_subset(held, all.remove(p));
    }
}

/// A heading stands on a line of its own after an empty one, between two rules.
pub proof fn law_heading(title: Seq<char>)
    ensures
        section_text(false, title) == "\n"@ + "── "@ + title + " ──"@ + "\n"@,
        section_text(true, title) == "\n"@ + "\x1b[1m"@ + "\x1b[36m"@ + "── "@ + title + " ──"@
            + "\x1b[0m"@ + "\n"@,
{
    law_escape_sequences();
}

} // verus!
