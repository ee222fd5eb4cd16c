//! Decimal digits and dotted strings: the spec-level vocabulary shared by the
//! version parser and the legacy comparator, together with the exec helpers
//! that scan a string for a dot or a run of digits.

use vstd::prelude::*;

verus! {

/// Whether `c` is an ASCII decimal digit.
pub open spec fn is_digit_char(c: char) -> bool {
    48 <= c as u32 && c as u32 <= 57
}

/// The numeric value of an ASCII digit character.
pub open spec fn digit_val(c: char) -> int {
    c as u32 - 48
}

/// The ASCII digit character for a value below ten.
pub open spec fn digit_char(d: int) -> char {
    if d == 0 { '0' }
    else if d == 1 { '1' }
    else if d == 2 { '2' }
    else if d == 3 { '3' }
    else if d == 4 { '4' }
    else if d == 5 { '5' }
    else if d == 6 { '6' }
    else if d == 7 { '7' }
    else if d == 8 { '8' }
    else { '9' }
}

/// Whether every character of `s` is an ASCII digit.
pub open spec fn all_digits(s: Seq<char>) -> bool {
    forall|i: int| 0 <= i < s.len() ==> is_digit_char(#[trigger] s[i])
}

/// The value of a sequence of ASCII digits read as a decimal number
/// (the empty sequence reads as zero).
pub open spec fn dec_value(s: Seq<char>) -> int
    decreases s.len(),
{
    if s.len() == 0 {
        0
    } else {
        dec_value(s.drop_last()) * 10 + digit_val(s.last())
    }
}

/// The canonical decimal rendering of a non-negative number: no sign, no
/// leading zeros (except for the single digit of zero itself).
pub open spec fn dec_digits(n: int) -> Seq<char>
    decreases n,
{
    if n < 10 {
        seq![digit_char(n)]
    } else {
        dec_digits(n / 10).push(digit_char(n % 10))
    }
}

/// The index of the first `.` in `s`, or `s.len()` if there is none.
pub open spec fn first_dot(s: Seq<char>) -> int
    decreases s.len(),
{
    if s.len() == 0 {
        0
    } else if s[0] == '.' {
        0
    } else {
        1 + first_dot(s.skip(1))
    }
}

/// The length of the longest leading run of ASCII digits in `s`.
pub open spec fn digit_run(s: Seq<char>) -> int
    decreases s.len(),
{
    if s.len() == 0 || !is_digit_char(s[0]) {
        0
    } else {
        1 + digit_run(s.skip(1))
    }
}

/// `first_dot(s)` is the unique position with no dot before it that either
/// sits on a dot or is the end of the sequence.
pub proof fn lemma_first_dot(s: Seq<char>)
    ensures
        0 <= first_dot(s) <= s.len(),
        forall|j: int| 0 <= j < first_dot(s) ==> s[j] != '.',
        first_dot(s) < s.len() ==> s[first_dot(s)] == '.',
    decreases s.len(),
{
    if s.len() == 0 {
    } else if s[0] == '.' {
    } else {
        lemma_first_dot(s.skip(1));
        assert forall|j: int| 0 <= j < first_dot(s) implies s[j] != '.' by {
            if j > 0 {
                assert(s.skip(1)[j - 1] == s[j]);
            }
        }
        if first_dot(s) < s.len() {
            assert(s.skip(1)[first_dot(s) - 1] == s[first_dot(s)]);
        }
    }
}

/// `digit_run(s)` is the unique position with only digits before it that
/// either sits on a non-digit or is the end of the sequence.
pub proof fn lemma_digit_run(s: Seq<char>)
    ensures
        0 <= digit_run(s) <= s.len(),
        forall|j: int| 0 <= j < digit_run(s) ==> is_digit_char(#[trigger] s[j]),
        digit_run(s) < s.len() ==> !is_digit_char(s[digit_run(s)]),
    decreases s.len(),
{
    if s.len() == 0 || !is_digit_char(s[0]) {
    } else {
        lemma_digit_run(s.skip(1));
        assert forall|j: int| 0 <= j < digit_run(s) implies is_digit_char(#[trigger] s[j]) by {
            if j > 0 {
                assert(s.skip(1)[j - 1] == s[j]);
            }
        }
        if digit_run(s) < s.len() {
            assert(s.skip(1)[digit_run(s) - 1] == s[digit_run(s)]);
        }
    }
}

/// Reading one more digit multiplies the value so far by ten and adds it.
pub proof fn lemma_dec_value_snoc(s: Seq<char>, i: int)
    requires
        0 <= i < s.len(),
    ensures
        dec_value(s.take(i + 1)) == dec_value(s.take(i)) * 10 + digit_val(s[i]),
{
    assert(s.take(i + 1).drop_last() =~= s.take(i));
    assert(s.take(i + 1).last() == s[i]);
}

/// Extending a non-negative prefix by digits can only grow its value.
pub proof fn lemma_dec_value_grows(s: Seq<char>, i: int, k: int)
    requires
        0 <= i <= k <= s.len(),
        dec_value(s.take(i)) >= 0,
        forall|j: int| i <= j < k ==> is_digit_char(#[trigger] s[j]),
    ensures
        dec_value(s.take(k)) >= dec_value(s.take(i)),
    decreases k - i,
{
    if i < k {
        lemma_dec_value_snoc(s, i);
        lemma_dec_value_grows(s, i + 1, k);
    }
}

/// The canonical decimal rendering of a non-negative number is a non-empty
/// digit string that reads back as that number.
pub proof fn lemma_dec_digits(n: int)
    requires
        n >= 0,
    ensures
        dec_digits(n).len() >= 1,
        all_digits(dec_digits(n)),
        dec_value(dec_digits(n)) == n,
    decreases n,
{
    if n < 10 {
        assert(dec_value(dec_digits(n)) == dec_value(seq![digit_char(n)].drop_last()) * 10
            + digit_val(seq![digit_char(n)].last()));
        assert(seq![digit_char(n)].drop_last() =~= Seq::<char>::empty());
    } else {
        lemma_dec_digits(n / 10);
        let d = dec_digits(n / 10);
        assert(dec_digits(n) == d.push(digit_char(n % 10)));
        assert(d.push(digit_char(n % 10)).drop_last() =~= d);
        assert(all_digits(dec_digits(n)));
        assert(dec_value(dec_digits(n)) == dec_value(d) * 10 + digit_val(digit_char(n % 10)));
    }
}

/// The one-character string for a digit value below ten.
fn digit_str(d: u16) -> (r: &'static str)
    requires
        d < 10,
    ensures
        r@ == seq![digit_char(d as int)],
{
    proof {
        reveal_strlit("0");
        reveal_strlit("1");
        reveal_strlit("2");
        reveal_strlit("3");
        reveal_strlit("4");
        reveal_strlit("5");
        reveal_strlit("6");
        reveal_strlit("7");
        reveal_strlit("8");
        reveal_strlit("9");
    }
    let r: &'static str = if d == 0 {
        "0"
    } else if d == 1 {
        "1"
    } else if d == 2 {
        "2"
    } else if d == 3 {
        "3"
    } else if d == 4 {
        "4"
    } else if d == 5 {
        "5"
    } else if d == 6 {
        "6"
    } else if d == 7 {
        "7"
    } else if d == 8 {
        "8"
    } else {
        "9"
    };
    proof {
        assert(r@ =~= seq![digit_char(d as int)]);
    }
    r
}

/// Renders a 16-bit number in decimal, with no sign and no leading zeros.
pub fn u16_to_decimal(n: u16) -> (r: String)
    ensures
        r@ == dec_digits(n as int),
    decreases n,
{
    if n < 10 {
        digit_str(n).to_owned()
    } else {
        let mut r = u16_to_decimal(n / 10);
        r.append(digit_str(n % 10));
        proof {
            assert(r@ =~= dec_digits((n / 10) as int).push(digit_char((n % 10) as int)));
        }
        r
    }
}

/// Scans `s` for its first `.`, returning its position, or the length of `s`
/// if it holds none.
pub fn find_first_dot(s: &str) -> (i: usize)
    ensures
        i as int == first_dot(s@),
        i as int <= s@.len(),
{
    let n = s.unicode_len();
    let mut i: usize = 0;
    loop
        invariant_except_break
            0 <= i <= n,
            n == s@.len(),
            forall|j: int| 0 <= j < i ==> s@[j] != '.',
        ensures
            0 <= i <= n,
            n == s@.len(),
            forall|j: int| 0 <= j < i ==> s@[j] != '.',
            i < n ==> s@[i as int] == '.',
        decreases n - i,
    {
        if i == n {
            break;
        }
        if s.get_char(i) == '.' {
            break;
        }
        i = i + 1;
    }
    proof {
        lemma_first_dot(s@);
    }
    i
}

/// Scans `s` for the end of its longest leading run of ASCII digits.
pub fn find_digit_run(s: &str) -> (k: usize)
    ensures
        k as int == digit_run(s@),
        k as int <= s@.len(),
{
    let n = s.unicode_len();
    let mut k: usize = 0;
    loop
        invariant_except_break
            0 <= k <= n,
            n == s@.len(),
            forall|j: int| 0 <= j < k ==> is_digit_char(#[trigger] s@[j]),
        ensures
            0 <= k <= n,
            n == s@.len(),
            forall|j: int| 0 <= j < k ==> is_digit_char(#[trigger] s@[j]),
            k < n ==> !is_digit_char(s@[k as int]),
        decreases n - k,
    {
        if k == n {
            break;
        }
        let u = s.get_char(k) as u32;
        if u < 48 || u > 57 {
            break;
        }
        k = k + 1;
    }
    proof {
        lemma_digit_run(s@);
    }
    k
}

} // verus!
