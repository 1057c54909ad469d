//! Numbers in text: writing counts, and reading the size at the end of a line.
use vstd::prelude::*;
use vstd::slice::slice_subrange;

use crate::text::{blank_char, is_blank, lemma_trim_end_of_blank_end, trim_end_of};

verus! {

// ---------- writing ----------

/// The decimal digit `d`.
pub open spec fn digit_of(d: nat) -> char {
    ('0' as u32 + d) as char
}

/// The decimal notation of `n`, without leading zeros.
pub open spec fn decimal_of(n: nat) -> Seq<char>
    decreases n,
{
    if n < 10 {
        seq![digit_of(n)]
    } else {
        decimal_of(n / 10).push(digit_of(n % 10))
    }
}

fn digit(d: u64) -> (c: char)
    requires
        d < 10,
    ensures
        c == digit_of(d as nat),
{
    (48u8 + d as u8) as char
}

/// The decimal notation of `n`.
pub fn decimal(n: u64) -> (s: String)
    ensures
        s@ == decimal_of(n as nat),
    decreases n,
{
    if n < 10 {
        let mut s = String::new();
        s.push(digit(n));
        assert(s@ == seq![digit_of(n as nat)]);
        s
    } else {
        let mut s = decimal(n / 10);
        s.push(digit(n % 10));
        s
    }
}

// ---------- reading ----------

/// Whether `c` is a decimal digit.
pub open spec fn is_digit(c: char) -> bool {
    '0' as u32 <= c as u32 <= '9' as u32
}

/// The value of the digit `c`.
pub open spec fn digit_value(c: char) -> nat {
    if is_digit(c) {
        (c as u32 - '0' as u32) as nat
    } else {
        0
    }
}

/// The number that a row of digits stands for.
pub open spec fn digits_value(s: Seq<char>) -> nat
    decreases s.len(),
{
    if s.len() == 0 {
        0
    } else {
        10 * digits_value(s.drop_last()) + digit_value(s.last())
    }
}

/// Whether `s` is a row of one or more digits.
pub open spec fn is_digits(s: Seq<char>) -> bool {
    &&& s.len() > 0
    &&& forall|i: int| 0 <= i < s.len() ==> is_digit(#[trigger] s[i])
}

/// The integer that `s` is written for: one or more digits, after at most one sign.
pub open spec fn integer_of(s: Seq<char>) -> Option<int> {
    let signed = s.len() > 0 && (s[0] == '+' || s[0] == '-');
    let body = if signed {
        s.skip(1)
    } else {
        s
    };
    if !is_digits(body) {
        None
    } else if signed && s[0] == '-' {
        Some(-digits_value(body))
    } else {
        Some(digits_value(body) as int)
    }
}

/// The integer that `s` is written for, if it fits in 64 bits.
pub open spec fn i64_of(s: Seq<char>) -> Option<i64> {
    match integer_of(s) {
        Some(v) => if i64::MIN <= v <= i64::MAX {
            Some(v as i64)
        } else {
            None
        },
        None => None,
    }
}

proof fn lemma_prefix_value(s: Seq<char>, k: int)
    requires
        0 <= k <= s.len(),
    ensures
        digits_value(s.take(k)) <= digits_value(s),
    decreases s.len(),
{
    if k == s.len() {
        assert(s.take(k) == s);
    } else {
        lemma_prefix_value(s.drop_last(), k);
        assert(s.drop_last().take(k) == s.take(k));
    }
}

/// The value of a row of digits, if it is at most 2^63.
fn magnitude(s: &[char]) -> (value: Option<u64>)
    ensures
        match value {
            Some(v) => is_digits(s@) && v == digits_value(s@) && v <= 0x8000_0000_0000_0000,
            None => !is_digits(s@) || digits_value(s@) > 0x8000_0000_0000_0000,
        },
{
    if s.len() == 0 {
        return None;
    }
    let mut acc: u64 = 0;
    let mut i: usize = 0;
    while i < s.len()
        invariant
            i <= s.len(),
            acc <= 0x8000_0000_0000_0000,
            acc == digits_value(s@.take(i as int)),
            forall|j: int| 0 <= j < i ==> is_digit(#[trigger] s@[j]),
        decreases s.len() - i,
    {
        let c = s[i];
        if (c as u32) < '0' as u32 || c as u32 > '9' as u32 {
            assert(!is_digit(s@[i as int]));
            return None;
        }
        proof {
            assert(s@.take(i + 1).drop_last() == s@.take(i as int));
            assert(s@.take(i + 1).last() == c);
            lemma_prefix_value(s@, i + 1);
        }
        let d = (c as u32 - '0' as u32) as u64;
        if acc > 922_337_203_685_477_580 {
            return None;
        }
        acc = acc * 10 + d;
        if acc > 0x8000_0000_0000_0000 {
            return None;
        }
        i += 1;
    }
    assert(s@.take(i as int) == s@);
    Some(acc)
}

/// The integer that `s` is written for, if it fits in 64 bits.
pub fn parse_i64(s: &[char]) -> (value: Option<i64>)
    ensures
        value == i64_of(s@),
{
    let signed = s.len() > 0 && (s[0] == '+' || s[0] == '-');
    let body = if signed {
        slice_subrange(s, 1, s.len())
    } else {
        s
    };
    assert(signed ==> body@ == s@.skip(1));
    match magnitude(body) {
        None => None,
        Some(v) => {
            if signed && s[0] == '-' {
                if v == 0x8000_0000_0000_0000 {
                    Some(i64::MIN)
                } else {
                    Some(-(v as i64))
                }
            } else if v < 0x8000_0000_0000_0000 {
                Some(v as i64)
            } else {
                None
            }
        },
    }
}

// ---------- the last word of a line ----------

/// The longest end of `s` without white space.
pub open spec fn tail_word(s: Seq<char>) -> Seq<char>
    decreases s.len(),
{
    if s.len() == 0 || blank_char(s.last()) {
        Seq::empty()
    } else {
        tail_word(s.drop_last()).push(s.last())
    }
}

/// The last of the words that white space parts `s` into, if there is one.
pub open spec fn last_word_of(s: Seq<char>) -> Option<Seq<char>> {
    let t = trim_end_of(s);
    if t.len() == 0 {
        None
    } else {
        Some(tail_word(t))
    }
}

/// The last of the words that white space parts `s` into, if there is one.
pub fn last_word<'a>(s: &'a [char]) -> (word: Option<&'a [char]>)
    ensures
        match word {
            Some(w) => last_word_of(s@) == Some(w@),
            None => last_word_of(s@) == None::<Seq<char>>,
        },
{
    let mut n: usize = s.len();
    assert(s@.take(n as int) == s@);
    while n > 0 && is_blank(s[n - 1])
        invariant
            n <= s.len(),
            trim_end_of(s@) == trim_end_of(s@.take(n as int)),
        decreases n,
    {
        assert(s@.take(n as int).drop_last() == s@.take(n - 1));
        n -= 1;
    }
    let ghost t = s@.take(n as int);
    if n == 0 {
        return None;
    }
    let mut k: usize = n;
    assert(tail_word(t.take(k as int)) + t.skip(k as int) == tail_word(t)) by {
        assert(t.take(n as int) == t);
    }
    while k > 0 && !is_blank(s[k - 1])
        invariant
            k <= n <= s.len(),
            t == s@.take(n as int),
            tail_word(t.take(k as int)) + t.skip(k as int) == tail_word(t),
        decreases k,
    {
        proof {
            let u = t.take(k as int);
            assert(u.drop_last() == t.take(k - 1));
            assert(tail_word(u.drop_last()).push(u.last()) + t.skip(k as int) == tail_word(
                u.drop_last(),
            ) + t.skip(k - 1));
        }
        k -= 1;
    }
    proof {
        assert(tail_word(t.take(k as int)) == Seq::<char>::empty());
        assert(tail_word(t) == t.skip(k as int));
        assert(t.skip(k as int) == s@.subrange(k as int, n as int));
    }
    Some(slice_subrange(s, k, n))
}

// ---------- what is written and read ----------

/// The decimal notation of a number below ten is its digit; that of a larger number is the
/// notation of its tens with the digit of its ones behind.
pub proof fn law_decimal(tens: nat, ones: nat)
    requires
        ones < 10,
    ensures
        decimal_of(ones) == seq!["0123456789"@[ones as int]],
        tens > 0 ==> decimal_of(10 * tens + ones) == decimal_of(tens).push(
            "0123456789"@[ones as int],
        ),
{
    reveal_strlit("0123456789");
    let n = 10 * tens + ones;
    assert(n / 10 == tens && n % 10 == ones);
    assert(digit_of(ones) == "0123456789"@[ones as int]);
}

proof fn lemma_decimal_reads(n: nat)
    ensures
        is_digits(decimal_of(n)),
        digits_value(decimal_of(n)) == n,
        decimal_of(n)[0] == '0' ==> n == 0,
    decreases n,
{
    let s = decimal_of(n);
    if n < 10 {
        assert(s.drop_last() == Seq::<char>::empty());
        assert(digits_value(s.drop_last()) == 0);
        assert(digit_value(s.last()) == n);
    } else {
        let t = decimal_of(n / 10);
        lemma_decimal_reads(n / 10);
        assert(s.drop_last() == t);
        assert(digit_value(s.last()) == n % 10);
        assert(s[0] == t[0]);
        assert forall|i: int| 0 <= i < s.len() implies is_digit(#[trigger] s[i]) by {
            if i < t.len() {
                assert(s[i] == t[i]);
            }
        }
    }
}

/// What is read is what was written: the decimal notation of a number stands for that
/// number, with `-` in front for its negative, and with `+` in front for the number again,
/// as long as it fits in 64 bits, and for nothing if it does not.
pub proof fn law_reading_undoes_writing(n: nat)
    ensures
        i64_of(decimal_of(n)) == if n <= 0x7fff_ffff_ffff_ffff {
            Some(n as i64)
        } else {
            None
        },
        i64_of(seq!['+'] + decimal_of(n)) == if n <= 0x7fff_ffff_ffff_ffff {
            Some(n as i64)
        } else {
            None
        },
        i64_of(seq!['-'] + decimal_of(n)) == if n <= 0x8000_0000_0000_0000 {
            Some((-n) as i64)
        } else {
            None
        },
{
    let s = decimal_of(n);
    lemma_decimal_reads(n);
    assert(is_digit(s[0]));
    assert((seq!['+'] + s).skip(1) == s);
    assert((seq!['-'] + s).skip(1) == s);
}

proof fn lemma_leading_zero(s: Seq<char>)
    ensures
        digits_value(seq!['0'] + s) == digits_value(s),
    decreases s.len(),
{
    let t = seq!['0'] + s;
    if s.len() == 0 {
        assert(t.drop_last() == Seq::<char>::empty());
        assert(digits_value(t.drop_last()) == 0);
        assert(t.last() == '0');
    } else {
        assert(t.drop_last() == seq!['0'] + s.drop_last());
        lemma_leading_zero(s.drop_last());
    }
}

/// Zeros in front of a row of digits do not change what is read.
pub proof fn law_leading_zeros(s: Seq<char>)
    requires
        s.len() > 0,
        forall|i: int| 0 <= i < s.len() ==> "0123456789"@.contains(#[trigger] s[i]),
    ensures
        i64_of(seq!['0'] + s) == i64_of(s),
        i64_of(seq!['-'] + (seq!['0'] + s)) == i64_of(seq!['-'] + s),
        i64_of(seq!['+'] + (seq!['0'] + s)) == i64_of(seq!['+'] + s),
{
    let t = seq!['0'] + s;
    assert((seq!['-'] + t).skip(1) == t && (seq!['-'] + s).skip(1) == s);
    assert((seq!['+'] + t).skip(1) == t && (seq!['+'] + s).skip(1) == s);
    reveal_strlit("0123456789");
    assert forall|i: int| 0 <= i < s.len() implies is_digit(#[trigger] s[i]) by {
        assert("0123456789"@.contains(s[i]));
    }
    assert forall|i: int| 0 <= i < t.len() implies is_digit(#[trigger] t[i]) by {
        if i > 0 {
            assert(t[i] == s[i - 1]);
        }
    }
    assert(is_digit(s[0]));
    lemma_leading_zero(s);
}

proof fn lemma_digits(c: char)
    ensures
        is_digit(c) <==> "0123456789"@.contains(c),
{
    let all = "0123456789"@;
    reveal_strlit("0123456789");
    assert(all[0] == '0' && all[1] == '1' && all[2] == '2' && all[3] == '3' && all[4] == '4');
    assert(all[5] == '5' && all[6] == '6' && all[7] == '7' && all[8] == '8' && all[9] == '9');
    if is_digit(c) {
        assert(c == '0' || c == '1' || c == '2' || c == '3' || c == '4' || c == '5' || c == '6' || c
            == '7' || c == '8' || c == '9');
    }
}

/// A text with a character that is neither a digit nor a sign in front stands for no
/// number, and neither does a text without digits.
pub proof fn law_only_digits_are_read(s: Seq<char>, i: int)
    requires
        0 <= i < s.len(),
        !"0123456789"@.contains(s[i]),
        i > 0 || s.len() == 1 || s[0] != '+' && s[0] != '-',
    ensures
        i64_of(s) == None::<i64>,
        i64_of(Seq::<char>::empty()) == None::<i64>,
{
    lemma_digits(s[i]);
    let signed = s[0] == '+' || s[0] == '-';
    if signed && i > 0 {
        assert(s.skip(1)[i - 1] == s[i]);
    }
}

proof fn lemma_tail_word(a: Seq<char>, w: Seq<char>)
    requires
        a.len() > 0 ==> blank_char(a.last()),
        forall|i: int| 0 <= i < w.len() ==> !blank_char(#[trigger] w[i]),
    ensures
        tail_word(a + w) == w,
    decreases w.len(),
{
    if w.len() == 0 {
        assert(a + w == a);
    } else {
        let v = w.drop_last();
        assert((a + w).drop_last() == a + v);
        assert((a + w).last() == w[w.len() - 1]);
        assert forall|i: int| 0 <= i < v.len() implies !blank_char(#[trigger] v[i]) by {
            assert(v[i] == w[i]);
        }
        lemma_tail_word(a, v);
        assert(v.push(w.last()) == w);
    }
}

/// The last word of a text is the last row of characters that are not white space, whatever
/// white space follows and whatever stands before the white space in front of it. A text of
/// white space alone has none.
pub proof fn law_last_word(a: Seq<char>, w: Seq<char>, b: Seq<char>)
    requires
        a.len() > 0 ==> blank_char(a.last()),
        forall|i: int| 0 <= i < w.len() ==> !blank_char(#[trigger] w[i]),
        forall|i: int| 0 <= i < b.len() ==> blank_char(#[trigger] b[i]),
    ensures
        w.len() > 0 ==> last_word_of(a + w + b) == Some(w),
        last_word_of(b) == None::<Seq<char>>,
{
    lemma_trim_end_of_blank_end(a + w, b);
    lemma_trim_end_of_blank_end(Seq::empty(), b);
    assert(Seq::<char>::empty() + b == b);
    lemma_tail_word(a, w);
    if w.len() > 0 {
        assert((a + w).last() == w[w.len() - 1]);
        assert(trim_end_of(a + w) == a + w);
    }
}

} // verus!
