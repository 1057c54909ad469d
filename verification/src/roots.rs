//! Stray garbage collector roots under the home directory.
//!
//! `nix-store --gc --print-roots` lists the live roots, one to a line, as a link
//! and the store path that it keeps alive. The links under the home directory
//! are build results and development shells that somebody left behind.
use vstd::prelude::*;

use crate::paths::{
    component_views, components, continues, goes_on, is_before, is_same, law_continuation_lies_under,
    law_path_order, lies_under, path_before, same_path, split_path, Component,
};
use crate::sorting::{
    ascending, is_ranking, law_sort_is_stable, law_sort_orders, lemma_first_of_rank,
    lemma_of_rank_push, lemma_place, lemma_sort_contains, of_rank, place, stable_sort, tie,
};
use crate::text::{
    blank_char, chars, law_line_is_listed, law_lines_stand_in_the_text, law_occurrences,
    law_split_at_the_first, law_trim_takes_white_space_off, law_trimmed_parts, lemma_split_parts,
    lines, lines_of, slices, split_once, split_once_of, starts, starts_with, text, texts, trim, trim_of,
};

verus! {

/// Whether one side of a line is a stray root: it begins with the home directory and goes
/// on below it, and is neither a running process, nor Nix's own link, nor a store path.
pub open spec fn is_stray(side: Seq<char>, home: Seq<char>) -> bool {
    &&& !starts(side, "/proc/"@)
    &&& !starts(side, "/nix/var/nix/gcroots"@)
    &&& !starts(side, "/nix/store"@)
    &&& starts(side, home)
    &&& continues(side, home)
}

/// One side of a line, if it is a stray root.
pub open spec fn stray_side(side: Seq<char>, home: Seq<char>) -> Seq<Seq<char>> {
    if is_stray(side, home) {
        seq![side]
    } else {
        Seq::empty()
    }
}

/// The stray roots on one line of the report.
pub open spec fn stray_on_line(line: Seq<char>, home: Seq<char>) -> Seq<Seq<char>> {
    match split_once_of(line, " -> "@) {
        Some((a, b)) => stray_side(trim_of(a), home) + stray_side(trim_of(b), home),
        None => Seq::empty(),
    }
}

/// The stray roots on the lines of the report, in the order of the report.
pub open spec fn stray_on_lines(lines: Seq<Seq<char>>, home: Seq<char>) -> Seq<Seq<char>>
    decreases lines.len(),
{
    if lines.len() == 0 {
        Seq::empty()
    } else {
        stray_on_lines(lines.drop_last(), home) + stray_on_line(lines.last(), home)
    }
}

/// The order of paths.
pub open spec fn path_order() -> spec_fn(Seq<char>, Seq<char>) -> bool {
    |a: Seq<char>, b: Seq<char>| path_before(a, b)
}

/// `row` without the paths that are the same as the path before them.
pub open spec fn without_repeats(row: Seq<Seq<char>>) -> Seq<Seq<char>>
    decreases row.len(),
{
    if row.len() < 2 {
        row
    } else {
        let kept = without_repeats(row.drop_last());
        if same_path(kept.last(), row.last()) {
            kept
        } else {
            kept.push(row.last())
        }
    }
}

/// The stray roots that a report lists, each once and in the order of paths. Of several
/// spellings of one path the first in the report is kept.
pub open spec fn home_roots(report: Option<Seq<char>>, home: Seq<char>) -> Seq<Seq<char>> {
    match report {
        Some(t) => without_repeats(stable_sort(stray_on_lines(lines_of(t), home), path_order())),
        None => Seq::empty(),
    }
}

/// Whether `keys` holds the components of the paths in `row`.
spec fn keyed(row: Seq<&[char]>, keys: Seq<Vec<Component>>) -> bool {
    &&& row.len() == keys.len()
    &&& forall|i: int|
        0 <= i < row.len() ==> component_views(#[trigger] keys[i]@) == components(row[i]@)
}

/// Sets `side` into the sorted row of paths.
fn insert_path<'a>(row: &mut Vec<&'a [char]>, keys: &mut Vec<Vec<Component>>, side: &'a [char])
    requires
        keyed(old(row)@, old(keys)@),
    ensures
        keyed(final(row)@, final(keys)@),
        slices(final(row)@) == place(slices(old(row)@), side@, path_order()),
{
    let key = split_path(side);
    let mut k: usize = row.len();
    let ghost before = slices(row@);
    while k > 0 && is_before(&key, &keys[k - 1])
        invariant
            k <= row.len(),
            keyed(row@, keys@),
            before == slices(row@),
            component_views(key@) == components(side@),
            forall|j: int| k <= j < before.len() ==> path_order()(side@, #[trigger] before[j]),
        decreases k,
    {
        k -= 1;
    }
    proof {
        lemma_place(before, side@, path_order(), k as int);
        assert(slices(row@.insert(k as int, side)) == before.insert(k as int, side@));
    }
    row.insert(k, side);
    keys.insert(k, key);
    proof {
        assert forall|i: int| 0 <= i < row.len() implies component_views(#[trigger] keys@[i]@)
            == components(row@[i]@) by {
            if i < k {
                assert(keys@[i] == old(keys)@[i]);
            } else if i > k {
                assert(keys@[i] == old(keys)@[i - 1]);
            }
        }
    }
}

/// The stray garbage collector roots under `home` that a report of live roots lists.
/// There are none when there is no report.
pub fn find_home_roots(report: Option<&str>, home: &str) -> (roots: Vec<String>)
    ensures
        texts(roots@) == home_roots(
            match report {
                Some(t) => Some(t@),
                None => None,
            },
            home@,
        ),
{
    let mut out: Vec<String> = Vec::new();
    let all = match report {
        Some(t) => chars(t),
        None => {
            assert(texts(out@) == Seq::<Seq<char>>::empty());
            return out;
        },
    };
    let ls = lines(all.as_slice());
    let ghost rows = lines_of(all@);
    let mut row: Vec<&[char]> = Vec::new();
    let mut keys: Vec<Vec<Component>> = Vec::new();
    let mut i: usize = 0;
    assert(slices(row@) == Seq::<Seq<char>>::empty());
    while i < ls.len()
        invariant
            i <= ls.len(),
            slices(ls@) == rows,
            keyed(row@, keys@),
            slices(row@) == stable_sort(stray_on_lines(rows.take(i as int), home@), path_order()),
        decreases ls.len() - i,
    {
        let line = ls[i];
        let ghost found = stray_on_lines(rows.take(i as int), home@);
        proof {
            assert(rows.take(i + 1).drop_last() == rows.take(i as int));
            assert(rows[i as int] == line@);
        }
        match split_once(line, " -> ") {
            Some((a, b)) => {
                let left = trim(a);
                let right = trim(b);
                if is_stray_root(left, home) {
                    insert_path(&mut row, &mut keys, left);
                }
                let ghost found_left = found + stray_side(left@, home@);
                proof {
                    assert(found.push(left@).drop_last() == found);
                    assert(found + seq![left@] == found.push(left@));
                    assert(found + Seq::<Seq<char>>::empty() == found);
                    assert(slices(row@) == stable_sort(found_left, path_order()));
                }
                if is_stray_root(right, home) {
                    insert_path(&mut row, &mut keys, right);
                }
                proof {
                    assert(found_left.push(right@).drop_last() == found_left);
                    assert(found_left + seq![right@] == found_left.push(right@));
                    assert(found_left + Seq::<Seq<char>>::empty() == found_left);
                    assert(found + (stray_side(left@, home@) + stray_side(right@, home@))
                        == found_left + stray_side(right@, home@));
                    assert(slices(row@) == stable_sort(
                        found_left + stray_side(right@, home@),
                        path_order(),
                    ));
                    assert(stray_on_lines(rows.take(i + 1), home@) == found + stray_on_line(
                        line@,
                        home@,
                    ));
                }
            },
            None => {
                assert(found + Seq::<Seq<char>>::empty() == found);
            },
        }
        i += 1;
    }
    assert(rows.take(i as int) == rows);
    let ghost sorted = slices(row@);
    let mut last: usize = 0;
    let mut k: usize = 0;
    while k < row.len()
        invariant
            k <= row.len(),
            keyed(row@, keys@),
            sorted == slices(row@),
            texts(out@) == without_repeats(sorted.take(k as int)),
            k == 0 ==> out.len() == 0,
            k > 0 ==> last < k && out.len() > 0 && out@.last()@ == sorted[last as int],
        decreases row.len() - k,
    {
        let ghost seen = sorted.take(k as int);
        proof {
            assert(sorted.take(k + 1).drop_last() == seen);
            assert(sorted[k as int] == row@[k as int]@);
            if k > 0 {
                assert(sorted[last as int] == row@[last as int]@);
                assert(texts(out@).last() == out@.last()@);
            }
        }
        if k == 0 || !is_same(&keys[last], &keys[k]) {
            let path = text(row[k]);
            assert(texts(out@.push(path)) == texts(out@).push(sorted[k as int]));
            out.push(path);
            last = k;
            if k == 0 {
                assert(texts(out@) == sorted.take(1));
            }
        }
        k += 1;
    }
    assert(sorted.take(k as int) == sorted);
    out
}

fn is_stray_root(side: &[char], home: &str) -> (b: bool)
    ensures
        b == is_stray(side@, home@),
{
    !starts_with(side, "/proc/") && !starts_with(side, "/nix/var/nix/gcroots") && !starts_with(
        side,
        "/nix/store",
    ) && starts_with(side, home) && goes_on(side, chars(home).as_slice())
}

// ---------- what the list of roots is ----------

proof fn lemma_path_ranking()
    ensures
        is_ranking(path_order()),
{
    let before = path_order();
    assert forall|a: Seq<char>| !#[trigger] before(a, a) by {
        law_path_order(a, a, a);
    }
    assert forall|a: Seq<char>, b: Seq<char>, c: Seq<char>| #[trigger]
        before(a, b) && #[trigger] before(b, c) implies before(a, c) by {
        law_path_order(a, b, c);
    }
    assert forall|a: Seq<char>, b: Seq<char>, c: Seq<char>| #[trigger]
        tie(a, b, before) && #[trigger] tie(b, c, before) implies tie(a, c, before) by {
        law_path_order(a, b, c);
        law_path_order(b, c, c);
        law_path_order(a, a, a);
        assert(components(a) == components(c));
    }
}

proof fn lemma_without_repeats(row: Seq<Seq<char>>)
    requires
        ascending(row, path_order()),
    ensures
        row.len() > 0 ==> without_repeats(row).len() > 0 && same_path(
            without_repeats(row).last(),
            row.last(),
        ),
        forall|i: int, j: int|
            0 <= i < j < without_repeats(row).len() ==> path_before(
                #[trigger] without_repeats(row)[i],
                #[trigger] without_repeats(row)[j],
            ),
        forall|i: int|
            0 <= i < without_repeats(row).len() ==> row.contains(
                #[trigger] without_repeats(row)[i],
            ),
    decreases row.len(),
{
    let r = without_repeats(row);
    if row.len() < 2 {
        if row.len() == 1 {
            assert(row.contains(r[0]));
        }
    } else {
        let rest = row.drop_last();
        let kept = without_repeats(rest);
        let x = row.last();
        assert forall|i: int, j: int| 0 <= i < j < rest.len() implies !path_order()(
            #[trigger] rest[j],
            #[trigger] rest[i],
        ) by {
            assert(rest[j] == row[j] && rest[i] == row[i]);
        }
        lemma_without_repeats(rest);
        let y = rest.last();
        assert(!path_order()(row[row.len() - 1], row[row.len() - 2]));
        law_path_order(x, y, x);
        law_path_order(y, x, x);
        // every path kept so far goes before x, unless the last one is x itself
        assert forall|i: int, j: int| 0 <= i < j < r.len() implies path_before(
            #[trigger] r[i],
            #[trigger] r[j],
        ) by {
            if j < kept.len() {
                assert(r[i] == kept[i] && r[j] == kept[j]);
            } else {
                assert(components(kept.last()) == components(y));
                assert(path_before(kept.last(), x));
                if i < kept.len() - 1 {
                    assert(path_before(kept[i], kept[kept.len() - 1]));
                    law_path_order(kept[i], kept.last(), x);
                }
            }
        }
        assert forall|i: int| 0 <= i < r.len() implies row.contains(#[trigger] r[i]) by {
            if i < kept.len() {
                assert(r[i] == kept[i]);
                assert(rest.contains(kept[i]));
                let k = choose|k: int| 0 <= k < rest.len() && rest[k] == kept[i];
                assert(row[k] == kept[i]);
            } else {
                assert(row[row.len() - 1] == x);
            }
        }
    }
}

proof fn lemma_repeat_is_kept(row: Seq<Seq<char>>, k: int) -> (i: int)
    requires
        0 <= k < row.len(),
    ensures
        0 <= i < without_repeats(row).len(),
        same_path(without_repeats(row)[i], row[k]),
        k == row.len() - 1 ==> i == without_repeats(row).len() - 1,
    decreases row.len(),
{
    if row.len() < 2 {
        k
    } else {
        let rest = row.drop_last();
        let last = lemma_repeat_is_kept(rest, rest.len() - 1);
        if k < rest.len() {
            lemma_repeat_is_kept(rest, k)
        } else {
            without_repeats(row).len() - 1
        }
    }
}

proof fn lemma_stray_on_lines(rows: Seq<Seq<char>>, home: Seq<char>, side: Seq<char>)
    ensures
        stray_on_lines(rows, home).contains(side) <==> exists|k: int|
            0 <= k < rows.len() && stray_on_line(#[trigger] rows[k], home).contains(side),
    decreases rows.len(),
{
    if rows.len() > 0 {
        let rest = rows.drop_last();
        let a = stray_on_lines(rest, home);
        let b = stray_on_line(rows.last(), home);
        lemma_stray_on_lines(rest, home, side);
        if (a + b).contains(side) {
            let i = choose|i: int| 0 <= i < (a + b).len() && (a + b)[i] == side;
            if i < a.len() {
                assert(a[i] == side);
                let k = choose|k: int|
                    0 <= k < rest.len() && stray_on_line(#[trigger] rest[k], home).contains(side);
                assert(rows[k] == rest[k]);
            } else {
                assert(b[i - a.len()] == side);
                assert(stray_on_line(rows[rows.len() - 1], home).contains(side));
            }
        }
        if exists|k: int|
            0 <= k < rows.len() && stray_on_line(#[trigger] rows[k], home).contains(side) {
            let k = choose|k: int|
                0 <= k < rows.len() && stray_on_line(#[trigger] rows[k], home).contains(side);
            if k < rest.len() {
                assert(rest[k] == rows[k]);
                assert(a.contains(side));
                let i = choose|i: int| 0 <= i < a.len() && a[i] == side;
                assert((a + b)[i] == side);
            } else {
                let i = choose|i: int| 0 <= i < b.len() && b[i] == side;
                assert((a + b)[a.len() + i] == side);
            }
        }
    }
}

/// The roots are listed in the order of paths, and no path is listed twice.
pub proof fn law_roots_in_order(report: Option<Seq<char>>, home: Seq<char>, i: int, j: int)
    requires
        0 <= i < j < home_roots(report, home).len(),
    ensures
        path_before(home_roots(report, home)[i], home_roots(report, home)[j]),
        !same_path(home_roots(report, home)[i], home_roots(report, home)[j]),
{
    let found = stray_on_lines(lines_of(report->0), home);
    lemma_path_ranking();
    law_sort_orders(found, path_order());
    lemma_without_repeats(stable_sort(found, path_order()));
    let a = home_roots(report, home)[i];
    let b = home_roots(report, home)[j];
    law_path_order(a, a, b);
}

/// Every root listed stands on a line of the report as a stray root: it is below the home
/// directory and is no process, no link of Nix's own and no store path.
pub proof fn law_roots_are_stray(report: Seq<char>, home: Seq<char>, i: int)
    requires
        0 <= i < home_roots(Some(report), home).len(),
    ensures
        is_stray(home_roots(Some(report), home)[i], home),
        exists|k: int|
            0 <= k < lines_of(report).len() && stray_on_line(
                #[trigger] lines_of(report)[k],
                home,
            ).contains(home_roots(Some(report), home)[i]),
{
    let found = stray_on_lines(lines_of(report), home);
    let sorted = stable_sort(found, path_order());
    let root = home_roots(Some(report), home)[i];
    lemma_path_ranking();
    law_sort_orders(found, path_order());
    lemma_without_repeats(sorted);
    assert(sorted.contains(root));
    lemma_sort_contains(found, path_order(), root);
    lemma_stray_on_lines(lines_of(report), home, root);
    let k = choose|k: int|
        0 <= k < lines_of(report).len() && stray_on_line(
            #[trigger] lines_of(report)[k],
            home,
        ).contains(root);
    lemma_stray_on_line(lines_of(report)[k], home, root);
}

proof fn lemma_stray_on_line(line: Seq<char>, home: Seq<char>, side: Seq<char>)
    requires
        stray_on_line(line, home).contains(side),
    ensures
        is_stray(side, home),
{
    if let Some((a, b)) = split_once_of(line, " -> "@) {
        let x = stray_side(trim_of(a), home);
        let y = stray_side(trim_of(b), home);
        let i = choose|i: int| 0 <= i < (x + y).len() && (x + y)[i] == side;
        if i < x.len() {
            assert(x[i] == side);
        } else {
            assert(y[i - x.len()] == side);
        }
    }
}

/// Every stray root on a line of the report is listed, under this or another spelling,
/// whatever its age.
pub proof fn law_every_stray_root_is_listed(
    report: Seq<char>,
    home: Seq<char>,
    k: int,
    side: Seq<char>,
)
    requires
        0 <= k < lines_of(report).len(),
        stray_on_line(lines_of(report)[k], home).contains(side),
    ensures
        exists|i: int|
            0 <= i < home_roots(Some(report), home).len() && same_path(
                #[trigger] home_roots(Some(report), home)[i],
                side,
            ),
{
    let found = stray_on_lines(lines_of(report), home);
    let sorted = stable_sort(found, path_order());
    lemma_stray_on_lines(lines_of(report), home, side);
    lemma_sort_contains(found, path_order(), side);
    let j = choose|j: int| 0 <= j < sorted.len() && sorted[j] == side;
    let i = lemma_repeat_is_kept(sorted, j);
    assert(same_path(home_roots(Some(report), home)[i], side));
}

proof fn lemma_same_path_is_tie(a: Seq<char>, b: Seq<char>)
    ensures
        tie(a, b, path_order()) == same_path(a, b),
{
    law_path_order(a, b, a);
    law_path_order(b, a, b);
}

proof fn lemma_first_is_kept(row: Seq<Seq<char>>, i: int)
    requires
        ascending(row, path_order()),
        0 <= i < without_repeats(row).len(),
    ensures
        of_rank(row, without_repeats(row)[i], path_order()).len() > 0,
        of_rank(row, without_repeats(row)[i], path_order())[0] == without_repeats(row)[i],
    decreases row.len(),
{
    let x = without_repeats(row)[i];
    lemma_same_path_is_tie(x, x);
    let m = lemma_first_of_rank(row, x, path_order());
    if row.len() >= 2 {
        let rest = row.drop_last();
        let kept = without_repeats(rest);
        assert forall|k: int, j: int| 0 <= k < j < rest.len() implies !path_order()(
            #[trigger] rest[j],
            #[trigger] rest[k],
        ) by {
            assert(rest[j] == row[j] && rest[k] == row[k]);
        }
        lemma_of_rank_push(rest, row.last(), path_order(), x);
        assert(rest.push(row.last()) == row);
        if i < kept.len() {
            assert(kept[i] == x);
            lemma_first_is_kept(rest, i);
        } else {
            let n = lemma_first_of_rank(rest, x, path_order());
            lemma_without_repeats(rest);
            if n < rest.len() {
                let y = rest.last();
                lemma_same_path_is_tie(x, rest[n]);
                assert(!path_order()(row[row.len() - 1], row[row.len() - 2]));
                assert(n < rest.len() - 1 ==> !path_order()(rest[rest.len() - 1], rest[n]));
                law_path_order(x, y, x);
                law_path_order(rest[n], rest[n], y);
                assert(components(rest[n]) == components(x));
                assert(components(kept.last()) == components(y));
            }
        }
    } else {
        assert(row[0] == x);
    }
}

/// Of several spellings of one path, the one listed is the first in the report.
pub proof fn law_first_spelling_is_listed(report: Seq<char>, home: Seq<char>, i: int)
    requires
        0 <= i < home_roots(Some(report), home).len(),
    ensures
        exists|m: int|
            0 <= m < stray_on_lines(lines_of(report), home).len() && #[trigger] stray_on_lines(
                lines_of(report),
                home,
            )[m] == home_roots(Some(report), home)[i] && forall|n: int|
                0 <= n < m ==> !same_path(
                    home_roots(Some(report), home)[i],
                    #[trigger] stray_on_lines(lines_of(report), home)[n],
                ),
{
    let found = stray_on_lines(lines_of(report), home);
    let sorted = stable_sort(found, path_order());
    let root = home_roots(Some(report), home)[i];
    lemma_path_ranking();
    law_sort_orders(found, path_order());
    lemma_first_is_kept(sorted, i);
    law_sort_is_stable(found, path_order(), root);
    let m = lemma_first_of_rank(found, root, path_order());
    assert(found[m] == root);
    assert forall|n: int| 0 <= n < m implies !same_path(root, #[trigger] found[n]) by {
        lemma_same_path_is_tie(root, found[n]);
    }
}

/// Every root listed lies under the home directory.
pub proof fn law_roots_lie_under_home(report: Seq<char>, home: Seq<char>, i: int)
    requires
        0 <= i < home_roots(Some(report), home).len(),
    ensures
        lies_under(home_roots(Some(report), home)[i], home),
{
    let root = home_roots(Some(report), home)[i];
    law_roots_are_stray(report, home, i);
    assert(home.is_prefix_of(root)) by {
        assert forall|j: int| 0 <= j < home.len() implies home[j] == root[j] by {
            assert(root.subrange(0, home.len() as int)[j] == root[j]);
        }
    }
    law_continuation_lies_under(root, home);
}

// ---------- the list of roots, from the characters of the report ----------

/// Whether a row of characters holds white space alone.
spec fn white(s: Seq<char>) -> bool {
    forall|i: int| 0 <= i < s.len() ==> blank_char(#[trigger] s[i])
}

/// Whether a path that stands on one side of an arrow is to be listed: it is home itself or
/// goes on below it, and begins like no process, no link of Nix's own and no store path.
pub open spec fn wanted(side: Seq<char>, home: Seq<char>) -> bool {
    &&& home.is_prefix_of(side)
    &&& side.len() == home.len() || side[home.len() as int] == '/' || home.len() == 0 || home.last()
        == '/'
    &&& !"/proc/"@.is_prefix_of(side)
    &&& !"/nix/var/nix/gcroots"@.is_prefix_of(side)
    &&& !"/nix/store"@.is_prefix_of(side)
}

proof fn lemma_wanted_is_stray(side: Seq<char>, home: Seq<char>)
    requires
        wanted(side, home),
    ensures
        is_stray(side, home),
{
    law_occurrences(side, "/proc/"@);
    law_occurrences(side, "/nix/var/nix/gcroots"@);
    law_occurrences(side, "/nix/store"@);
    law_occurrences(side, home);
}

proof fn lemma_side_is_listed(
    report: Seq<char>,
    home: Seq<char>,
    k: int,
    left: Seq<char>,
    right: Seq<char>,
    side: Seq<char>,
)
    requires
        0 <= k < lines_of(report).len(),
        lines_of(report)[k] == left + " -> "@ + right,
        forall|n: int|
            0 <= n < left.len() ==> #[trigger] (left + " -> "@ + right).subrange(n, n + 4)
                != " -> "@,
        trim_of(left) == side || trim_of(right) == side,
        wanted(side, home),
    ensures
        exists|i: int|
            0 <= i < home_roots(Some(report), home).len() && components(
                #[trigger] home_roots(Some(report), home)[i],
            ) == components(side),
{
    let line = lines_of(report)[k];
    reveal_strlit(" -> ");
    assert(" -> "@.len() == 4);
    law_split_at_the_first(left, " -> "@, right);
    lemma_wanted_is_stray(side, home);
    let x = stray_side(trim_of(left), home);
    let y = stray_side(trim_of(right), home);
    if trim_of(left) == side {
        assert((x + y)[0] == side);
    } else {
        assert((x + y)[x.len() as int] == side);
    }
    assert(stray_on_line(line, home).contains(side));
    law_every_stray_root_is_listed(report, home, k, side);
    let i = choose|i: int|
        0 <= i < home_roots(Some(report), home).len() && same_path(
            #[trigger] home_roots(Some(report), home)[i],
            side,
        );
    assert(components(home_roots(Some(report), home)[i]) == components(side));
}

/// Whatever path under the home directory stands, with or without white space around it,
/// before the first arrow of a line of the report is listed, unless it begins like a
/// process, a link of Nix's own or a store path: the list holds a path with the same
/// components.
pub proof fn law_links_are_listed(
    before: Seq<char>,
    lead: Seq<char>,
    side: Seq<char>,
    trail: Seq<char>,
    rest: Seq<char>,
    after: Seq<char>,
    home: Seq<char>,
)
    requires
        before.len() == 0 || before.last() == '\n',
        after.len() == 0 || after[0] == '\n',
        forall|i: int| 0 <= i < (lead + side + trail).len() ==> (lead + side + trail)[i] != '\n',
        forall|i: int| 0 <= i < rest.len() ==> rest[i] != '\n',
        forall|i: int| 0 <= i < lead.len() ==> blank_char(#[trigger] lead[i]),
        forall|i: int| 0 <= i < trail.len() ==> blank_char(#[trigger] trail[i]),
        side.len() > 0 ==> !blank_char(side[0]) && !blank_char(side.last()),
        forall|n: int|
            0 <= n < (lead + side + trail).len() ==> #[trigger] ((lead + side + trail) + " -> "@
                + rest).subrange(n, n + 4) != " -> "@,
        wanted(side, home),
    ensures
        ({
            let report = before + ((lead + side + trail) + " -> "@ + rest) + after;
            exists|i: int|
                0 <= i < home_roots(Some(report), home).len() && components(
                    #[trigger] home_roots(Some(report), home)[i],
                ) == components(side)
        }),
{
    let left = lead + side + trail;
    let line = left + " -> "@ + rest;
    let report = before + line + after;
    reveal_strlit(" -> ");
    assert(" -> "@.len() == 4);
    assert forall|i: int| 0 <= i < line.len() implies line[i] != '\n' by {
        if i < left.len() {
            assert(line[i] == left[i]);
        } else if i < left.len() + 4 {
            assert(line[i] == " -> "@[i - left.len()]);
        } else {
            assert(line[i] == rest[i - left.len() - 4]);
        }
    }
    let k = law_line_is_listed(before, line, after);
    let right = if after.len() > 0 && line.last() == '\r' {
        rest.drop_last()
    } else {
        rest
    };
    if after.len() > 0 && line.last() == '\r' {
        if rest.len() == 0 {
            assert(line.last() == " -> "@[3]);
        }
        assert(line.drop_last() == left + " -> "@ + right);
    }
    let row = left + " -> "@ + right;
    assert(lines_of(report)[k] == row);
    assert forall|n: int| 0 <= n < left.len() implies #[trigger] row.subrange(n, n + 4)
        != " -> "@ by {
        assert(line.subrange(n, n + 4) != " -> "@);
        assert(row.subrange(n, n + 4) == line.subrange(n, n + 4));
    }
    law_trim_takes_white_space_off(lead, side, trail);
    lemma_side_is_listed(report, home, k, left, right, side);
}

/// The same holds of what stands behind the first arrow of a line.
pub proof fn law_targets_are_listed(
    before: Seq<char>,
    left: Seq<char>,
    lead: Seq<char>,
    side: Seq<char>,
    trail: Seq<char>,
    after: Seq<char>,
    home: Seq<char>,
)
    requires
        before.len() == 0 || before.last() == '\n',
        after.len() == 0 || after[0] == '\n',
        forall|i: int| 0 <= i < left.len() ==> left[i] != '\n',
        forall|i: int| 0 <= i < (lead + side + trail).len() ==> (lead + side + trail)[i] != '\n',
        forall|i: int| 0 <= i < lead.len() ==> blank_char(#[trigger] lead[i]),
        forall|i: int| 0 <= i < trail.len() ==> blank_char(#[trigger] trail[i]),
        side.len() > 0,
        !blank_char(side[0]),
        !blank_char(side.last()),
        forall|n: int|
            0 <= n < left.len() ==> #[trigger] (left + " -> "@ + (lead + side + trail)).subrange(
                n,
                n + 4,
            ) != " -> "@,
        wanted(side, home),
    ensures
        ({
            let report = before + (left + " -> "@ + (lead + side + trail)) + after;
            exists|i: int|
                0 <= i < home_roots(Some(report), home).len() && components(
                    #[trigger] home_roots(Some(report), home)[i],
                ) == components(side)
        }),
{
    let rest = lead + side + trail;
    let line = left + " -> "@ + rest;
    let report = before + line + after;
    reveal_strlit(" -> ");
    assert(" -> "@.len() == 4);
    assert forall|i: int| 0 <= i < line.len() implies line[i] != '\n' by {
        if i < left.len() {
            assert(line[i] == left[i]);
        } else if i < left.len() + 4 {
            assert(line[i] == " -> "@[i - left.len()]);
        } else {
            assert(line[i] == rest[i - left.len() - 4]);
        }
    }
    let k = law_line_is_listed(before, line, after);
    let end = if after.len() > 0 && line.last() == '\r' {
        trail.drop_last()
    } else {
        trail
    };
    let right = lead + side + end;
    assert(white(end)) by {
        assert forall|i: int| 0 <= i < end.len() implies blank_char(#[trigger] end[i]) by {
            assert(end[i] == trail[i]);
        }
    }
    if after.len() > 0 && line.last() == '\r' {
        assert(blank_char('\r'));
        if trail.len() == 0 {
            assert(line.last() == side.last());
        }
        assert(line.drop_last() == left + " -> "@ + right);
    }
    let row = left + " -> "@ + right;
    assert(lines_of(report)[k] == row);
    assert forall|n: int| 0 <= n < left.len() implies #[trigger] row.subrange(n, n + 4)
        != " -> "@ by {
        assert(line.subrange(n, n + 4) != " -> "@);
        assert(row.subrange(n, n + 4) == line.subrange(n, n + 4));
    }
    law_trim_takes_white_space_off(lead, side, end);
    lemma_side_is_listed(report, home, k, left, right, side);
}

/// Nothing else is listed: every root listed stands in the report next to an arrow, with
/// nothing but white space between them, begins with the home directory, and begins like no
/// process, no link of Nix's own and no store path.
pub proof fn law_nothing_else_is_listed(report: Seq<char>, home: Seq<char>, i: int)
    requires
        0 <= i < home_roots(Some(report), home).len(),
    ensures
        ({
            let root = home_roots(Some(report), home)[i];
            &&& home.is_prefix_of(root)
            &&& !"/proc/"@.is_prefix_of(root)
            &&& !"/nix/var/nix/gcroots"@.is_prefix_of(root)
            &&& !"/nix/store"@.is_prefix_of(root)
            &&& exists|a: Seq<char>, w: Seq<char>, b: Seq<char>|
                #![trigger next_to_arrow(report, root, a, w, b)]
                next_to_arrow(report, root, a, w, b)
        }),
{
    let root = home_roots(Some(report), home)[i];
    law_roots_are_stray(report, home, i);
    law_occurrences(root, "/proc/"@);
    law_occurrences(root, "/nix/var/nix/gcroots"@);
    law_occurrences(root, "/nix/store"@);
    law_occurrences(root, home);
    let k = choose|k: int|
        0 <= k < lines_of(report).len() && stray_on_line(
            #[trigger] lines_of(report)[k],
            home,
        ).contains(root);
    lemma_root_next_to_arrow(report, home, k, root);
}

proof fn lemma_root_next_to_arrow(report: Seq<char>, home: Seq<char>, k: int, root: Seq<char>)
    requires
        0 <= k < lines_of(report).len(),
        stray_on_line(lines_of(report)[k], home).contains(root),
    ensures
        exists|a: Seq<char>, w: Seq<char>, b: Seq<char>|
            #![trigger next_to_arrow(report, root, a, w, b)]
            next_to_arrow(report, root, a, w, b),
{
    let line = lines_of(report)[k];
    law_lines_stand_in_the_text(report, k);
    let (c, d) = choose|c: Seq<char>, d: Seq<char>| report == #[trigger] (c + line + d);
    lemma_split_parts(line, " -> "@);
    let (left, right) = split_once_of(line, " -> "@)->0;
    let x = stray_side(trim_of(left), home);
    let y = stray_side(trim_of(right), home);
    let j = choose|j: int| 0 <= j < (x + y).len() && (x + y)[j] == root;
    if j < x.len() {
        assert(x[j] == root);
        let (a, w) = law_trimmed_parts(left);
        lemma_before_arrow(c, a, root, w, right, d);
        assert(next_to_arrow(report, root, c + a, w, right + d));
    } else {
        assert(y[j - x.len()] == root);
        let (w, b) = law_trimmed_parts(right);
        lemma_behind_arrow(c, left, w, root, b, d);
        assert(next_to_arrow(report, root, c + left, w, b + d));
    }
}

proof fn lemma_before_arrow(
    c: Seq<char>,
    a: Seq<char>,
    root: Seq<char>,
    w: Seq<char>,
    right: Seq<char>,
    d: Seq<char>,
)
    ensures
        c + ((a + root + w) + " -> "@ + right) + d == (c + a) + root + w + " -> "@ + (right + d),
{
}

proof fn lemma_behind_arrow(
    c: Seq<char>,
    left: Seq<char>,
    w: Seq<char>,
    root: Seq<char>,
    b: Seq<char>,
    d: Seq<char>,
)
    ensures
        c + (left + " -> "@ + (w + root + b)) + d == (c + left) + " -> "@ + w + root + (b + d),
{
}

/// Whether a path stands in a text before or behind an arrow, with white space between them.
pub open spec fn next_to_arrow(
    report: Seq<char>,
    path: Seq<char>,
    a: Seq<char>,
    w: Seq<char>,
    b: Seq<char>,
) -> bool {
    &&& forall|i: int| 0 <= i < w.len() ==> blank_char(#[trigger] w[i])
    &&& report == a + path + w + " -> "@ + b || report == a + " -> "@ + w + path + b
}

} // verus!
