//! Text: the character-level operations that reports are read and written with.
//!
//! A text is a sequence of characters. Scanning works on slices of characters,
//! and results become strings only where they are shown or kept.
use vstd::prelude::*;
use vstd::slice::slice_subrange;

verus! {

/// `String::push` appends one character to the end of the string.
pub assume_specification[ String::push ](s: &mut String, c: char)
    ensures
        final(s)@ == old(s)@.push(c),
;

/// The texts of a list of strings.
pub open spec fn texts(list: Seq<String>) -> Seq<Seq<char>> {
    list.map_values(|s: String| s@)
}

/// The texts of a list of character slices.
pub open spec fn slices(list: Seq<&[char]>) -> Seq<Seq<char>> {
    list.map_values(|s: &[char]| s@)
}

/// The characters of a string.
pub fn chars(s: &str) -> (v: Vec<char>)
    ensures
        v@ == s@,
{
    let mut v: Vec<char> = Vec::new();
    for c in it: s.chars()
        invariant
            v@ == it.seq().take(it.index() as int),
            it.seq() == s@,
    {
        v.push(c);
    }
    v
}

/// The string made of the given characters.
pub fn text(s: &[char]) -> (t: String)
    ensures
        t@ == s@,
{
    let mut t = String::new();
    let mut i: usize = 0;
    while i < s.len()
        invariant
            i <= s.len(),
            t@ == s@.take(i as int),
        decreases s.len() - i,
    {
        t.push(s[i]);
        i += 1;
    }
    assert(s@.take(i as int) == s@);
    t
}

// ---------- white space ----------

/// The characters with the Unicode property White_Space.
pub open spec fn blank_char(c: char) -> bool {
    let n = c as u32;
    ||| 0x9 <= n <= 0xd
    ||| n == 0x20 || n == 0x85 || n == 0xa0 || n == 0x1680
    ||| 0x2000 <= n <= 0x200a
    ||| n == 0x2028 || n == 0x2029 || n == 0x202f || n == 0x205f || n == 0x3000
}

/// Whether `c` has the Unicode property White_Space.
pub fn is_blank(c: char) -> (b: bool)
    ensures
        b == blank_char(c),
{
    let n = c as u32;
    (0x9 <= n && n <= 0xd) || n == 0x20 || n == 0x85 || n == 0xa0 || n == 0x1680 || (0x2000 <= n
        && n <= 0x200a) || n == 0x2028 || n == 0x2029 || n == 0x202f || n == 0x205f || n == 0x3000
}

/// `s` without its leading white space.
pub open spec fn trim_start_of(s: Seq<char>) -> Seq<char>
    decreases s.len(),
{
    if s.len() > 0 && blank_char(s[0]) {
        trim_start_of(s.skip(1))
    } else {
        s
    }
}

/// `s` without its trailing white space.
pub open spec fn trim_end_of(s: Seq<char>) -> Seq<char>
    decreases s.len(),
{
    if s.len() > 0 && blank_char(s.last()) {
        trim_end_of(s.drop_last())
    } else {
        s
    }
}

/// `s` without its leading and trailing white space.
pub open spec fn trim_of(s: Seq<char>) -> Seq<char> {
    trim_end_of(trim_start_of(s))
}

/// Whether `s` holds white space alone.
pub open spec fn is_blank_text(s: Seq<char>) -> bool {
    forall|i: int| 0 <= i < s.len() ==> blank_char(#[trigger] s[i])
}

fn trim_start<'a>(s: &'a [char]) -> (t: &'a [char])
    ensures
        t@ == trim_start_of(s@),
{
    let mut i: usize = 0;
    assert(s@.skip(0) == s@);
    while i < s.len() && is_blank(s[i])
        invariant
            i <= s.len(),
            trim_start_of(s@) == trim_start_of(s@.skip(i as int)),
        decreases s.len() - i,
    {
        assert(s@.skip(i as int).skip(1) == s@.skip(i + 1));
        i += 1;
    }
    assert(s@.skip(i as int) == s@.subrange(i as int, s@.len() as int));
    slice_subrange(s, i, s.len())
}

fn trim_end<'a>(s: &'a [char]) -> (t: &'a [char])
    ensures
        t@ == trim_end_of(s@),
{
    let mut n: usize = s.len();
    assert(s@.take(n as int) == s@);
    while n > 0 && is_blank(s[n - 1])
        invariant
            n <= s.len(),
            trim_end_of(s@) == trim_end_of(s@.take(n as int)),
        decreases n,
    {
        assert(s@.take(n as int).drop_last() == s@.take(n - 1));
        n -= 1;
    }
    assert(s@.take(n as int) == s@.subrange(0, n as int));
    slice_subrange(s, 0, n)
}

/// `s` without its leading and trailing white space.
pub fn trim<'a>(s: &'a [char]) -> (t: &'a [char])
    ensures
        t@ == trim_of(s@),
{
    trim_end(trim_start(s))
}

proof fn lemma_trim_start_blank(s: Seq<char>)
    ensures
        trim_start_of(s).len() == 0 <==> is_blank_text(s),
        trim_start_of(s).len() > 0 ==> !blank_char(trim_start_of(s)[0]),
    decreases s.len(),
{
    if s.len() > 0 && blank_char(s[0]) {
        let rest = s.skip(1);
        lemma_trim_start_blank(rest);
        assert(is_blank_text(s) ==> is_blank_text(rest));
        if is_blank_text(rest) {
            assert forall|i: int| 0 <= i < s.len() implies blank_char(#[trigger] s[i]) by {
                if i > 0 {
                    assert(rest[i - 1] == s[i]);
                }
            }
        }
    } else if s.len() > 0 {
        assert(!blank_char(s[0]));
    }
}

proof fn lemma_trim_end_blank(s: Seq<char>)
    ensures
        trim_end_of(s).len() == 0 <==> is_blank_text(s),
        trim_end_of(s).len() > 0 ==> !blank_char(trim_end_of(s).last()),
        trim_end_of(s).len() <= s.len(),
        trim_end_of(s) == s.take(trim_end_of(s).len() as int),
    decreases s.len(),
{
    if s.len() > 0 && blank_char(s.last()) {
        let rest = s.drop_last();
        lemma_trim_end_blank(rest);
        assert(rest.take(trim_end_of(s).len() as int) == s.take(trim_end_of(s).len() as int));
        assert(is_blank_text(s) ==> is_blank_text(rest));
        if is_blank_text(rest) {
            assert forall|i: int| 0 <= i < s.len() implies blank_char(#[trigger] s[i]) by {
                if i < s.len() - 1 {
                    assert(rest[i] == s[i]);
                }
            }
        }
    } else {
        assert(s.take(s.len() as int) == s);
        if s.len() > 0 {
            assert(!blank_char(s[s.len() - 1]));
        }
    }
}

/// Trimming leaves nothing of a text exactly when the text is blank, and what it
/// leaves of any other text begins and ends with a character that is not white space.
pub proof fn law_trim(s: Seq<char>)
    ensures
        trim_of(s).len() == 0 <==> is_blank_text(s),
        trim_of(s).len() > 0 ==> !blank_char(trim_of(s)[0]) && !blank_char(trim_of(s).last()),
{
    let t = trim_start_of(s);
    lemma_trim_start_blank(s);
    lemma_trim_end_blank(t);
    if t.len() > 0 {
        assert(!is_blank_text(t));
    }
}

/// Whether `s` holds white space alone.
pub fn is_blank_line(s: &[char]) -> (b: bool)
    ensures
        b == is_blank_text(s@),
{
    let mut i: usize = 0;
    while i < s.len()
        invariant
            i <= s.len(),
            forall|j: int| 0 <= j < i ==> blank_char(#[trigger] s@[j]),
        decreases s.len() - i,
    {
        if !is_blank(s[i]) {
            return false;
        }
        i += 1;
    }
    true
}

// ---------- prefixes and occurrences ----------

/// Whether `s` begins with `p`.
pub open spec fn starts(s: Seq<char>, p: Seq<char>) -> bool {
    occurs_at(s, p, 0)
}

/// Whether `p` stands in `s` at position `i`.
pub open spec fn occurs_at(s: Seq<char>, p: Seq<char>, i: int) -> bool {
    &&& 0 <= i
    &&& i + p.len() <= s.len()
    &&& s.subrange(i, i + p.len()) == p
}

/// Whether `p` stands somewhere in `s`.
pub open spec fn occurs(s: Seq<char>, p: Seq<char>) -> bool {
    exists|i: int| occurs_at(s, p, i)
}

/// The first position at or after `i` at which `p` stands in `s`.
pub open spec fn find_from(s: Seq<char>, p: Seq<char>, i: int) -> Option<int>
    decreases s.len() + 1 - i,
{
    if i + p.len() > s.len() {
        None
    } else if occurs_at(s, p, i) {
        Some(i)
    } else {
        find_from(s, p, i + 1)
    }
}

/// What stands before and after the first `p` in `s`, if there is one.
pub open spec fn split_once_of(s: Seq<char>, p: Seq<char>) -> Option<(Seq<char>, Seq<char>)> {
    match find_from(s, p, 0) {
        Some(i) => Some((s.take(i), s.skip(i + p.len()))),
        None => None,
    }
}

/// Whether `p` stands in `s` at position `i`.
fn stands_at(s: &[char], p: &[char], i: usize) -> (b: bool)
    requires
        i <= s.len(),
    ensures
        b == occurs_at(s@, p@, i as int),
{
    if p.len() > s.len() - i {
        return false;
    }
    let mut k: usize = 0;
    while k < p.len()
        invariant
            k <= p.len(),
            i + p.len() <= s.len(),
            forall|j: int| 0 <= j < k ==> #[trigger] p@[j] == s@[i + j],
        decreases p.len() - k,
    {
        if s[i + k] != p[k] {
            assert(s@.subrange(i as int, i + p.len())[k as int] == s@[i + k]);
            return false;
        }
        k += 1;
    }
    assert(s@.subrange(i as int, i + p.len()) == p@);
    true
}

/// Whether `s` begins with `p`.
pub fn starts_with(s: &[char], p: &str) -> (b: bool)
    ensures
        b == starts(s@, p@),
{
    let pattern = chars(p);
    stands_at(s, pattern.as_slice(), 0)
}

fn find(s: &[char], p: &[char]) -> (at: Option<usize>)
    ensures
        match at {
            Some(i) => find_from(s@, p@, 0) == Some(i as int) && occurs_at(s@, p@, i as int),
            None => find_from(s@, p@, 0) == None::<int> && !occurs(s@, p@),
        },
{
    let mut i: usize = 0;
    while p.len() <= s.len() - i
        invariant
            i <= s.len(),
            find_from(s@, p@, 0) == find_from(s@, p@, i as int),
            forall|j: int| 0 <= j < i ==> !#[trigger] occurs_at(s@, p@, j),
        decreases s.len() - i,
    {
        if stands_at(s, p, i) {
            return Some(i);
        }
        if i == s.len() {
            assert(s@.subrange(i as int, i as int) == p@);
        }
        i += 1;
    }
    None
}

/// Whether `p` stands somewhere in `s`.
pub fn contains(s: &[char], p: &str) -> (b: bool)
    ensures
        b == occurs(s@, p@),
{
    let pattern = chars(p);
    find(s, pattern.as_slice()).is_some()
}

/// What stands before and after the first `p` in `s`, if there is one.
pub fn split_once<'a>(s: &'a [char], p: &str) -> (parts: Option<(&'a [char], &'a [char])>)
    ensures
        match parts {
            Some((a, b)) => split_once_of(s@, p@) == Some((a@, b@)),
            None => split_once_of(s@, p@) == None::<(Seq<char>, Seq<char>)>,
        },
{
    let pattern = chars(p);
    let n = s.len();
    match find(s, pattern.as_slice()) {
        Some(i) => {
            let j = i + pattern.len();
            assert(s@.subrange(0, i as int) == s@.take(i as int));
            assert(s@.subrange(j as int, s@.len() as int) == s@.skip(j as int));
            Some((slice_subrange(s, 0, i), slice_subrange(s, j, n)))
        },
        None => None,
    }
}

// ---------- lines ----------

/// The position of the first `c` in `s`, or the length of `s`.
pub open spec fn first_of(s: Seq<char>, c: char) -> nat
    decreases s.len(),
{
    if s.len() == 0 || s[0] == c {
        0
    } else {
        1 + first_of(s.skip(1), c)
    }
}

/// A line without the carriage return before its line feed.
pub open spec fn without_return(s: Seq<char>) -> Seq<char> {
    if s.len() > 0 && s.last() == '\r' {
        s.drop_last()
    } else {
        s
    }
}

/// The lines of `s`. Each ends at a line feed, which is left out together with a
/// carriage return before it; what follows the last line feed is a line if it is not empty.
pub open spec fn lines_of(s: Seq<char>) -> Seq<Seq<char>>
    decreases s.len(),
{
    let n = first_of(s, '\n') as int;
    if s.len() == 0 {
        Seq::empty()
    } else if n >= s.len() {
        seq![s]
    } else {
        seq![without_return(s.take(n))] + lines_of(s.skip(n + 1))
    }
}

pub proof fn lemma_first_of(s: Seq<char>, c: char, n: int)
    requires
        0 <= n <= s.len(),
        forall|j: int| 0 <= j < n ==> s[j] != c,
        n < s.len() ==> s[n] == c,
    ensures
        first_of(s, c) == n,
    decreases s.len(),
{
    if n > 0 {
        assert forall|j: int| 0 <= j < n - 1 implies s.skip(1)[j] != c by {
            assert(s.skip(1)[j] == s[j + 1]);
        }
        lemma_first_of(s.skip(1), c, n - 1);
    }
}

proof fn lemma_first_of_is_first(s: Seq<char>, c: char, at: int)
    requires
        0 <= at < s.len(),
        s[at] == c,
    ensures
        first_of(s, c) <= at,
        s[first_of(s, c) as int] == c,
        forall|j: int| 0 <= j < first_of(s, c) ==> s[j] != c,
    decreases s.len(),
{
    if s[0] != c {
        assert(s.skip(1)[at - 1] == c);
        lemma_first_of_is_first(s.skip(1), c, at - 1);
        assert(s.skip(1)[first_of(s.skip(1), c) as int] == s[first_of(s, c) as int]);
        assert forall|j: int| 0 <= j < first_of(s, c) implies s[j] != c by {
            if j > 0 {
                assert(s.skip(1)[j - 1] == s[j]);
            }
        }
    }
}

/// A text that ends with a line feed, and another after it: their lines are those of the
/// one, followed by those of the other.
pub proof fn law_lines_joined(x: Seq<char>, y: Seq<char>)
    requires
        x.len() == 0 || x.last() == '\n',
    ensures
        lines_of(x + y) == lines_of(x) + lines_of(y),
    decreases x.len(),
{
    if x.len() == 0 {
        assert(x + y == y);
    } else {
        let n = first_of(x, '\n') as int;
        lemma_first_of_is_first(x, '\n', x.len() - 1);
        assert((x + y)[n] == x[n]);
        assert forall|j: int| 0 <= j < n implies (x + y)[j] != '\n' by {
            assert((x + y)[j] == x[j]);
        }
        lemma_first_of(x + y, '\n', n);
        assert((x + y).take(n) == x.take(n));
        assert((x + y).skip(n + 1) == x.skip(n + 1) + y);
        if n + 1 < x.len() {
            assert(x.skip(n + 1).last() == x.last());
        }
        law_lines_joined(x.skip(n + 1), y);
    }
}

/// Up to its first `c` a text holds none.
pub proof fn lemma_first_of_first(s: Seq<char>, c: char)
    ensures
        first_of(s, c) <= s.len(),
        first_of(s, c) < s.len() ==> s[first_of(s, c) as int] == c,
        forall|j: int| 0 <= j < first_of(s, c) ==> s[j] != c,
    decreases s.len(),
{
    if s.len() > 0 && s[0] != c {
        lemma_first_of_first(s.skip(1), c);
        assert forall|j: int| 0 <= j < first_of(s, c) implies s[j] != c by {
            if j > 0 {
                assert(s.skip(1)[j - 1] == s[j]);
            }
        }
    }
}

/// The lines of `s`.
pub fn lines<'a>(s: &'a [char]) -> (out: Vec<&'a [char]>)
    ensures
        slices(out@) == lines_of(s@),
{
    let mut out: Vec<&'a [char]> = Vec::new();
    let mut start: usize = 0;
    let mut i: usize = 0;
    assert(s@.skip(0) == s@);
    assert(slices(out@) + lines_of(s@.skip(0)) == lines_of(s@));
    while i < s.len()
        invariant
            start <= i <= s.len(),
            forall|j: int| start <= j < i ==> s@[j] != '\n',
            slices(out@) + lines_of(s@.skip(start as int)) == lines_of(s@),
        decreases s.len() - i,
    {
        if s[i] == '\n' {
            let end: usize = if i > start && s[i - 1] == '\r' {
                i - 1
            } else {
                i
            };
            let line = slice_subrange(s, start, end);
            proof {
                let rest = s@.skip(start as int);
                let n = i - start;
                lemma_first_of(rest, '\n', n);
                assert(rest.skip(n + 1) == s@.skip(i + 1));
                if end < i {
                    assert(rest.take(n).last() == '\r');
                    assert(rest.take(n).drop_last() == line@);
                } else {
                    assert(rest.take(n) == line@);
                    if n > 0 {
                        assert(rest.take(n).last() == s@[i - 1]);
                    }
                }
                assert(without_return(rest.take(n)) == line@);
                assert(slices(out@.push(line)) == slices(out@).push(line@));
                assert(slices(out@) + (seq![line@] + lines_of(s@.skip(i + 1))) == slices(out@).push(
                    line@,
                ) + lines_of(s@.skip(i + 1)));
            }
            out.push(line);
            start = i + 1;
        }
        i += 1;
    }
    let ghost rest = s@.skip(start as int);
    if start < s.len() {
        let line = slice_subrange(s, start, s.len());
        proof {
            lemma_first_of(rest, '\n', rest.len() as int);
            assert(line@ == rest);
            assert(slices(out@.push(line)) == slices(out@) + seq![rest]);
        }
        out.push(line);
    } else {
        assert(slices(out@) + lines_of(rest) == slices(out@));
    }
    out
}

// ---------- joining and indenting ----------

/// The parts one after another, with `sep` between two of them.
pub open spec fn join_of(parts: Seq<Seq<char>>, sep: Seq<char>) -> Seq<char>
    decreases parts.len(),
{
    if parts.len() == 0 {
        Seq::empty()
    } else if parts.len() == 1 {
        parts[0]
    } else {
        join_of(parts.drop_last(), sep) + sep + parts.last()
    }
}

/// The parts one after another, with `sep` between two of them.
pub fn join(parts: &Vec<String>, sep: &str) -> (s: String)
    ensures
        s@ == join_of(texts(parts@), sep@),
{
    let mut s = String::new();
    let mut i: usize = 0;
    while i < parts.len()
        invariant
            i <= parts.len(),
            s@ == join_of(texts(parts@).take(i as int), sep@),
        decreases parts.len() - i,
    {
        if i > 0 {
            s.append(sep);
        }
        s.append(parts[i].as_str());
        proof {
            let all = texts(parts@);
            assert(all.take(i + 1).drop_last() == all.take(i as int));
            assert(all.take(i + 1).last() == parts@[i as int]@);
            if i == 0 {
                assert(join_of(all.take(0), sep@) == Seq::<char>::empty());
                assert(s@ == all.take(1)[0]);
            }
        }
        i += 1;
    }
    assert(texts(parts@).take(i as int) == texts(parts@));
    s
}

/// Every line of `s` set in by two spaces.
pub open spec fn indent_of(s: Seq<char>) -> Seq<char> {
    join_of(lines_of(s).map_values(|l: Seq<char>| "  "@ + l), "\n"@)
}

/// Every line of `s` set in by two spaces.
pub fn indent(s: &str) -> (t: String)
    ensures
        t@ == indent_of(s@),
{
    let all = chars(s);
    let ls = lines(all.as_slice());
    let mut out: Vec<String> = Vec::new();
    let mut i: usize = 0;
    while i < ls.len()
        invariant
            i <= ls.len(),
            out.len() == i,
            forall|j: int| 0 <= j < i ==> (#[trigger] out@[j])@ == "  "@ + ls@[j]@,
        decreases ls.len() - i,
    {
        out.push("  ".to_owned().concat(text(ls[i]).as_str()));
        i += 1;
    }
    proof {
        assert(texts(out@) =~= lines_of(s@).map_values(|l: Seq<char>| "  "@ + l)) by {
            assert forall|j: int| 0 <= j < out.len() implies texts(out@)[j] == "  "@ + lines_of(
                s@,
            )[j] by {
                assert(slices(ls@)[j] == ls@[j]@);
                assert(out@[j]@ == "  "@ + ls@[j]@);
            }
        }
    }
    join(&out, "\n")
}

// ---------- what the operations on text do ----------

/// White space is: the tab, line feed, vertical tab, form feed, carriage return and space;
/// the next line, the no-break space, the Ogham space mark; the spaces from en quad to hair
/// space; the line and paragraph separators; the narrow no-break, medium mathematical and
/// ideographic spaces. Nothing else is.
pub proof fn law_white_space(c: char)
    ensures
        blank_char(c) <==> (c == '\t' || c == '\n' || c == '\u{b}' || c == '\u{c}' || c == '\r' || c
            == ' ' || c == '\u{85}' || c == '\u{a0}' || c == '\u{1680}' || c == '\u{2000}' || c
            == '\u{2001}' || c == '\u{2002}' || c == '\u{2003}' || c == '\u{2004}' || c
            == '\u{2005}' || c == '\u{2006}' || c == '\u{2007}' || c == '\u{2008}' || c
            == '\u{2009}' || c == '\u{200a}' || c == '\u{2028}' || c == '\u{2029}' || c
            == '\u{202f}' || c == '\u{205f}' || c == '\u{3000}'),
{
}

pub proof fn lemma_trim_end_of_blank_end(s: Seq<char>, b: Seq<char>)
    requires
        is_blank_text(b),
    ensures
        trim_end_of(s + b) == trim_end_of(s),
    decreases b.len(),
{
    if b.len() == 0 {
        assert(s + b == s);
    } else {
        assert(blank_char(b[b.len() - 1]));
        assert((s + b).last() == b.last());
        assert((s + b).drop_last() == s + b.drop_last());
        assert forall|i: int| 0 <= i < b.drop_last().len() implies blank_char(
            #[trigger] b.drop_last()[i],
        ) by {
            assert(b.drop_last()[i] == b[i]);
        }
        lemma_trim_end_of_blank_end(s, b.drop_last());
    }
}

proof fn lemma_trim_start_of_blank_start(a: Seq<char>, s: Seq<char>)
    requires
        is_blank_text(a),
    ensures
        trim_start_of(a + s) == trim_start_of(s),
    decreases a.len(),
{
    if a.len() == 0 {
        assert(a + s == s);
    } else {
        assert(blank_char(a[0]));
        assert((a + s)[0] == a[0]);
        assert((a + s).skip(1) == a.skip(1) + s);
        assert forall|i: int| 0 <= i < a.skip(1).len() implies blank_char(
            #[trigger] a.skip(1)[i],
        ) by {
            assert(a.skip(1)[i] == a[i + 1]);
        }
        lemma_trim_start_of_blank_start(a.skip(1), s);
    }
}

/// Trimming takes off the white space around a text, all of it and nothing else: white
/// space, then a text that neither begins nor ends with white space, then white space,
/// become that text.
pub proof fn law_trim_takes_white_space_off(a: Seq<char>, t: Seq<char>, b: Seq<char>)
    requires
        forall|i: int| 0 <= i < a.len() ==> blank_char(#[trigger] a[i]),
        forall|i: int| 0 <= i < b.len() ==> blank_char(#[trigger] b[i]),
        t.len() > 0 ==> !blank_char(t[0]) && !blank_char(t.last()),
    ensures
        trim_of(a + t + b) == t,
{
    assert(a + t + b == a + (t + b));
    lemma_trim_start_of_blank_start(a, t + b);
    if t.len() > 0 {
        assert((t + b)[0] == t[0]);
        assert(trim_start_of(t + b) == t + b);
        lemma_trim_end_of_blank_end(t, b);
        assert(trim_end_of(t) == t);
    } else {
        assert(t + b == b);
        lemma_trim_start_blank(b);
        assert(is_blank_text(b));
        let left = trim_start_of(b);
        assert(left.len() == 0);
        assert(trim_end_of(left) == left);
    }
}

/// What trimming takes off is white space.
pub proof fn law_trimmed_parts(s: Seq<char>) -> (parts: (Seq<char>, Seq<char>))
    ensures
        s == parts.0 + trim_of(s) + parts.1,
        forall|i: int| 0 <= i < parts.0.len() ==> blank_char(#[trigger] parts.0[i]),
        forall|i: int| 0 <= i < parts.1.len() ==> blank_char(#[trigger] parts.1[i]),
    decreases s.len(),
{
    if s.len() > 0 && blank_char(s[0]) {
        let (a, b) = law_trimmed_parts(s.skip(1));
        let c = seq![s[0]] + a;
        assert(s == seq![s[0]] + s.skip(1));
        assert(c + trim_of(s) + b == seq![s[0]] + (a + trim_of(s) + b));
        assert forall|i: int| 0 <= i < c.len() implies blank_char(#[trigger] c[i]) by {
            if i > 0 {
                assert(c[i] == a[i - 1]);
            }
        }
        (c, b)
    } else if s.len() > 0 && blank_char(s.last()) {
        let t = s.drop_last();
        if t.len() == 0 {
            assert(s[0] == s.last());
        }
        assert(t[0] == s[0]);
        let (a, b) = law_trimmed_parts(t);
        let c = b.push(s.last());
        assert(s == t.push(s.last()));
        assert(a + trim_of(s) + c == (a + trim_of(s) + b).push(s.last()));
        assert forall|i: int| 0 <= i < c.len() implies blank_char(#[trigger] c[i]) by {
            if i < b.len() {
                assert(c[i] == b[i]);
            }
        }
        (a, c)
    } else {
        let none = Seq::<char>::empty();
        assert(s == none + s + none);
        (none, none)
    }
}

/// A text begins with `p` exactly when it is `p` and something after it; `p` stands in a
/// text exactly when the text is something, `p`, and something after it.
pub proof fn law_occurrences(s: Seq<char>, p: Seq<char>)
    ensures
        starts(s, p) <==> p.is_prefix_of(s),
        occurs(s, p) <==> exists|a: Seq<char>, b: Seq<char>| s == #[trigger] (a + p + b),
{
    if starts(s, p) {
        assert(s.take(p.len() as int) == s.subrange(0, p.len() as int));
    }
    if p.is_prefix_of(s) {
        assert(s.subrange(0, p.len() as int) == p);
    }
    if occurs(s, p) {
        let i = choose|i: int| occurs_at(s, p, i);
        let a = s.take(i);
        let b = s.skip(i + p.len());
        assert(s == a + s.subrange(i, i + p.len()) + b);
        assert(s == a + p + b);
    }
    if exists|a: Seq<char>, b: Seq<char>| s == #[trigger] (a + p + b) {
        let (a, b) = choose|a: Seq<char>, b: Seq<char>| s == #[trigger] (a + p + b);
        assert(s.subrange(a.len() as int, (a.len() + p.len()) as int) == p);
        assert(occurs_at(s, p, a.len() as int));
    }
}

proof fn lemma_find_from(s: Seq<char>, p: Seq<char>, i: int, at: int)
    requires
        0 <= i <= at,
        forall|k: int| i <= k < at ==> !#[trigger] occurs_at(s, p, k),
        occurs_at(s, p, at),
    ensures
        find_from(s, p, i) == Some(at),
    decreases at - i,
{
    if i < at {
        assert(!occurs_at(s, p, i));
        lemma_find_from(s, p, i + 1, at);
    }
}

proof fn lemma_find_from_none(s: Seq<char>, p: Seq<char>, i: int)
    requires
        0 <= i,
        !occurs(s, p),
    ensures
        find_from(s, p, i) == None::<int>,
    decreases s.len() + 1 - i,
{
    if i + p.len() <= s.len() {
        assert(!occurs_at(s, p, i));
        lemma_find_from_none(s, p, i + 1);
    }
}

proof fn lemma_found(s: Seq<char>, p: Seq<char>, i: int)
    requires
        0 <= i,
    ensures
        find_from(s, p, i) matches Some(at) ==> i <= at && occurs_at(s, p, at),
    decreases s.len() + 1 - i,
{
    if i + p.len() <= s.len() && !occurs_at(s, p, i) {
        lemma_found(s, p, i + 1);
    }
}

/// The parts that a text is split into make up the text, with `p` between them.
pub proof fn lemma_split_parts(s: Seq<char>, p: Seq<char>)
    ensures
        split_once_of(s, p) matches Some((a, b)) ==> s == a + p + b,
{
    lemma_found(s, p, 0);
    if let Some(i) = find_from(s, p, 0) {
        assert(s == s.take(i) + s.subrange(i, i + p.len()) + s.skip(i + p.len()));
    }
}

/// A text is split at the first `p`: where `a + p + b` holds `p` nowhere before the end of
/// `a`, its parts are `a` and `b`.
pub proof fn law_split_at_the_first(a: Seq<char>, p: Seq<char>, b: Seq<char>)
    requires
        forall|k: int|
            0 <= k < a.len() ==> #[trigger] (a + p + b).subrange(k, k + p.len()) != p,
    ensures
        split_once_of(a + p + b, p) == Some((a, b)),
{
    let s = a + p + b;
    assert(s.subrange(a.len() as int, (a.len() + p.len()) as int) == p);
    assert forall|k: int| 0 <= k < a.len() implies !#[trigger] occurs_at(s, p, k) by {
        assert(s.subrange(k, k + p.len()) != p);
    }
    lemma_find_from(s, p, 0, a.len() as int);
    assert(s.take(a.len() as int) == a);
    assert(s.skip((a.len() + p.len()) as int) == b);
}

/// A text that does not hold `p` is not split.
pub proof fn law_split_nowhere(s: Seq<char>, p: Seq<char>)
    requires
        forall|a: Seq<char>, b: Seq<char>| s != #[trigger] (a + p + b),
    ensures
        split_once_of(s, p) == None::<(Seq<char>, Seq<char>)>,
{
    law_occurrences(s, p);
    lemma_find_from_none(s, p, 0);
}

/// A row of characters without a line feed is one line, whether or not a line feed ends it,
/// unless it is empty and nothing ends it. A carriage return counts as part of the line
/// feed after it.
pub proof fn law_one_line(x: Seq<char>)
    requires
        forall|i: int| 0 <= i < x.len() ==> x[i] != '\n',
    ensures
        lines_of(x) == if x.len() == 0 {
            Seq::<Seq<char>>::empty()
        } else {
            seq![x]
        },
        x.len() == 0 || x.last() != '\r' ==> lines_of(x.push('\n')) == seq![x],
        lines_of(x.push('\r').push('\n')) == seq![x],
{
    let n = x.len() as int;
    lemma_first_of(x, '\n', n);
    let y = x.push('\n');
    lemma_first_of(y, '\n', n);
    assert(y.take(n) == x);
    assert(y.skip(n + 1) == Seq::<char>::empty());
    let z = x.push('\r').push('\n');
    lemma_first_of(z, '\n', n + 1);
    assert(z.take(n + 1) == x.push('\r'));
    assert(x.push('\r').drop_last() == x);
    assert(z.skip(n + 2) == Seq::<char>::empty());
    assert(lines_of(Seq::<char>::empty()) == Seq::<Seq<char>>::empty());
    assert(seq![x] + Seq::<Seq<char>>::empty() == seq![x]);
}

proof fn lemma_lines_nonempty(s: Seq<char>)
    requires
        s.len() > 0,
    ensures
        lines_of(s).len() > 0,
{
}

/// Parts joined in two groups: the groups are joined by one separator more. A single part
/// is left as it is.
pub proof fn law_join(a: Seq<Seq<char>>, b: Seq<Seq<char>>, sep: Seq<char>)
    ensures
        a.len() > 0 && b.len() > 0 ==> join_of(a + b, sep) == join_of(a, sep) + sep + join_of(
            b,
            sep,
        ),
        a.len() == 1 ==> join_of(a, sep) == a[0],
        a.len() == 0 ==> join_of(a, sep) == Seq::<char>::empty(),
    decreases b.len(),
{
    if a.len() > 0 && b.len() > 0 {
        assert((a + b).drop_last() == a + b.drop_last());
        assert((a + b).last() == b.last());
        if b.len() == 1 {
            assert(a + b.drop_last() == a);
        } else {
            law_join(a, b.drop_last(), sep);
            let x = join_of(a, sep);
            let y = join_of(b.drop_last(), sep);
            assert((x + sep + y) + sep + b.last() == x + sep + (y + sep + b.last()));
        }
    }
}

/// Setting a text in: a single line gets two spaces in front of it, and texts of one or more
/// lines are set in each by itself, with a line feed between them.
pub proof fn law_indent(x: Seq<char>, y: Seq<char>)
    ensures
        x.len() > 0 && (forall|i: int| 0 <= i < x.len() ==> x[i] != '\n') ==> indent_of(x)
            == "  "@ + x,
        (forall|i: int| 0 <= i < x.len() ==> x[i] != '\n') && (x.len() == 0 || x.last() != '\r')
            ==> indent_of(x.push('\n')) == "  "@ + x,
        y.len() > 0 ==> indent_of(x.push('\n') + y) == indent_of(x.push('\n')) + "\n"@ + indent_of(
            y,
        ),
{
    let set_in = |l: Seq<char>| "  "@ + l;
    if forall|i: int| 0 <= i < x.len() ==> x[i] != '\n' {
        law_one_line(x);
        law_join(lines_of(x).map_values(set_in), Seq::empty(), "\n"@);
        law_join(lines_of(x.push('\n')).map_values(set_in), Seq::empty(), "\n"@);
    }
    if y.len() > 0 {
        let a = lines_of(x.push('\n'));
        let b = lines_of(y);
        law_lines_joined(x.push('\n'), y);
        lemma_lines_nonempty(x.push('\n'));
        lemma_lines_nonempty(y);
        assert((a + b).map_values(set_in) == a.map_values(set_in) + b.map_values(set_in));
        law_join(a.map_values(set_in), b.map_values(set_in), "\n"@);
    }
}

/// A line of a text is a row of characters without a line feed that begins at the start of
/// the text or after a line feed, and ends at the end of the text or before one. Every such
/// row is among the lines, without the carriage return that may stand before the line feed.
pub proof fn law_line_is_listed(before: Seq<char>, line: Seq<char>, after: Seq<char>) -> (k: int)
    requires
        before.len() == 0 || before.last() == '\n',
        after.len() == 0 || after[0] == '\n',
        line.len() > 0,
        forall|i: int| 0 <= i < line.len() ==> line[i] != '\n',
    ensures
        0 <= k < lines_of(before + line + after).len(),
        lines_of(before + line + after)[k] == if after.len() > 0 && line.last() == '\r' {
            line.drop_last()
        } else {
            line
        },
{
    let text = before + line + after;
    assert(text == before + (line + after));
    law_lines_joined(before, line + after);
    law_one_line(line);
    if after.len() == 0 {
        assert(line + after == line);
    } else {
        let rest = after.skip(1);
        assert(line + after == line.push('\n') + rest);
        law_lines_joined(line.push('\n'), rest);
        if line.last() == '\r' {
            assert(line.drop_last().push('\r') == line);
            law_one_line(line.drop_last());
        }
    }
    lines_of(before).len() as int
}

/// Every line stands in the text.
pub proof fn law_lines_stand_in_the_text(s: Seq<char>, k: int)
    requires
        0 <= k < lines_of(s).len(),
    ensures
        exists|a: Seq<char>, b: Seq<char>| s == #[trigger] (a + lines_of(s)[k] + b),
        forall|i: int| 0 <= i < lines_of(s)[k].len() ==> lines_of(s)[k][i] != '\n',
    decreases s.len(),
{
    let n = first_of(s, '\n') as int;
    lemma_first_of_first(s, '\n');
    if n >= s.len() {
        assert(lines_of(s)[k] == s);
        assert(s == Seq::<char>::empty() + lines_of(s)[k] + Seq::<char>::empty());
    } else {
        let head = without_return(s.take(n));
        let rest = s.skip(n + 1);
        if k == 0 {
            assert(lines_of(s)[0] == head);
            assert(s == Seq::<char>::empty() + lines_of(s)[k] + s.skip(head.len() as int));
        } else {
            let line = lines_of(rest)[k - 1];
            law_lines_stand_in_the_text(rest, k - 1);
            assert(lines_of(s)[k] == line);
            let (a, b) = choose|a: Seq<char>, b: Seq<char>| rest == #[trigger] (a + line + b);
            let c = s.take(n + 1) + a;
            assert(s == s.take(n + 1) + rest);
            assert(s.take(n + 1) + (a + line + b) == c + line + b);
            assert(s == c + lines_of(s)[k] + b);
        }
    }
}

} // verus!
