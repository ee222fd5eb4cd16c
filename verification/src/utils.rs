//! The legacy comparator: a standalone positional comparison of two purely
//! numeric dotted version strings, independent of the `Version` type. It has
//! no concept of a build suffix.

use vstd::prelude::*;

use crate::digits::all_digits;
use crate::digits::dec_value;
use crate::digits::find_digit_run;
use crate::digits::find_first_dot;
use crate::digits::first_dot;
use crate::digits::is_digit_char;
use crate::digits::lemma_dec_value_grows;
use crate::digits::lemma_dec_value_snoc;
use crate::digits::lemma_digit_run;
use std::cmp::Ordering;

verus! {

/// One segment as the legacy comparator accepts it: non-empty, all digits,
/// and a value that fits in 32 bits.
pub open spec fn numeric_segment(s: Seq<char>) -> bool {
    &&& s.len() > 0
    &&& all_digits(s)
    &&& dec_value(s) <= u32::MAX as int
}

/// A string the legacy comparator is contractually valid for: at most three
/// dot-separated segments, each numeric. With fewer than three dots the last
/// segment runs to the end; a third dot would leave a non-numeric tail.
pub open spec fn valid_numeric_version(s: Seq<char>) -> bool {
    let d1 = first_dot(s);
    &&& numeric_segment(s.take(d1))
    &&& (d1 < s.len() ==> {
        let r1 = s.skip(d1 + 1);
        let d2 = first_dot(r1);
        &&& numeric_segment(r1.take(d2))
        &&& (d2 < r1.len() ==> numeric_segment(r1.skip(d2 + 1)))
    })
}

/// The three positional values of a numeric dotted string; a missing
/// position reads as zero.
pub open spec fn numeric_triple(s: Seq<char>) -> (int, int, int) {
    let d1 = first_dot(s);
    let v1 = dec_value(s.take(d1));
    if d1 == s.len() {
        (v1, 0, 0)
    } else {
        let r1 = s.skip(d1 + 1);
        let d2 = first_dot(r1);
        let v2 = dec_value(r1.take(d2));
        if d2 == r1.len() {
            (v1, v2, 0)
        } else {
            (v1, v2, dec_value(r1.skip(d2 + 1)))
        }
    }
}

/// The legacy ordering: compare the two triples position by position, left
/// to right, deciding at the first position where they differ.
pub open spec fn spec_comp_version(a: Seq<char>, b: Seq<char>) -> Ordering {
    let ta = numeric_triple(a);
    let tb = numeric_triple(b);
    if ta.0 != tb.0 {
        if ta.0 < tb.0 {
            Ordering::Less
        } else {
            Ordering::Greater
        }
    } else if ta.1 != tb.1 {
        if ta.1 < tb.1 {
            Ordering::Less
        } else {
            Ordering::Greater
        }
    } else if ta.2 != tb.2 {
        if ta.2 < tb.2 {
            Ordering::Less
        } else {
            Ordering::Greater
        }
    } else {
        Ordering::Equal
    }
}

/// Decides whether one segment is numeric as the legacy comparator demands.
fn is_numeric_segment(seg: &str) -> (b: bool)
    ensures
        b == numeric_segment(seg@),
{
    let n = seg.unicode_len();
    if n == 0 {
        return false;
    }
    let k = find_digit_run(seg);
    proof {
        lemma_digit_run(seg@);
    }
    if k < n {
        // A non-digit stands somewhere in the segment.
        return false;
    }
    let mut val: u64 = 0;
    let mut i: usize = 0;
    proof {
        assert(seg@.take(0) =~= Seq::<char>::empty());
    }
    while i < n
        invariant
            0 <= i <= n,
            n == seg@.len(),
            all_digits(seg@),
            val == dec_value(seg@.take(i as int)),
            val <= u32::MAX,
        decreases n - i,
    {
        let u = seg.get_char(i) as u32;
        proof {
            assert(is_digit_char(seg@[i as int]));
            lemma_dec_value_snoc(seg@, i as int);
        }
        val = val * 10 + ((u - 48) as u64);
        i = i + 1;
        if val > u32::MAX as u64 {
            proof {
                lemma_dec_value_grows(seg@, i as int, n as int);
                assert(seg@.take(n as int) =~= seg@);
            }
            return false;
        }
    }
    proof {
        assert(seg@.take(n as int) =~= seg@);
    }
    true
}

/// Decides at the boundary whether the legacy comparator accepts a string:
/// at most three dot-separated segments, each non-empty, purely numeric and
/// within the 32-bit range. Callers check this before `comp_version`.
pub fn is_numeric_version(s: &str) -> (b: bool)
    ensures
        b == valid_numeric_version(s@),
{
    let n = s.unicode_len();
    let d1 = find_first_dot(s);
    let seg1 = s.substring_char(0, d1);
    proof {
        assert(seg1@ =~= s@.take(d1 as int));
    }
    if !is_numeric_segment(seg1) {
        return false;
    }
    if d1 == n {
        return true;
    }
    let r1 = s.substring_char(d1 + 1, n);
    proof {
        assert(r1@ =~= s@.skip(d1 + 1));
    }
    let n1 = r1.unicode_len();
    let d2 = find_first_dot(r1);
    let seg2 = r1.substring_char(0, d2);
    proof {
        assert(seg2@ =~= r1@.take(d2 as int));
    }
    if !is_numeric_segment(seg2) {
        return false;
    }
    if d2 == n1 {
        return true;
    }
    let seg3 = r1.substring_char(d2 + 1, n1);
    proof {
        assert(seg3@ =~= r1@.skip(d2 + 1));
    }
    is_numeric_segment(seg3)
}

/// Reads a whole numeric segment as a 32-bit value.
fn parse_u32_seg(seg: &str) -> (r: u32)
    requires
        numeric_segment(seg@),
    ensures
        r as int == dec_value(seg@),
{
    let n = seg.unicode_len();
    let mut val: u64 = 0;
    let mut i: usize = 0;
    proof {
        assert(seg@.take(0) =~= Seq::<char>::empty());
    }
    while i < n
        invariant
            0 <= i <= n,
            n == seg@.len(),
            numeric_segment(seg@),
            val == dec_value(seg@.take(i as int)),
            val <= u32::MAX,
        decreases n - i,
    {
        let u = seg.get_char(i) as u32;
        proof {
            assert(is_digit_char(seg@[i as int]));
            lemma_dec_value_snoc(seg@, i as int);
        }
        val = val * 10 + ((u - 48) as u64);
        i = i + 1;
        proof {
            lemma_dec_value_grows(seg@, i as int, n as int);
            assert(seg@.take(n as int) =~= seg@);
        }
    }
    proof {
        assert(seg@.take(n as int) =~= seg@);
    }
    val as u32
}

/// Splits a numeric dotted string into its three positional values, missing
/// positions reading as zero.
fn numeric_parts(s: &str) -> (r: (u32, u32, u32))
    requires
        valid_numeric_version(s@),
    ensures
        r.0 as int == numeric_triple(s@).0,
        r.1 as int == numeric_triple(s@).1,
        r.2 as int == numeric_triple(s@).2,
{
    let n = s.unicode_len();
    let d1 = find_first_dot(s);
    let seg1 = s.substring_char(0, d1);
    proof {
        assert(seg1@ =~= s@.take(d1 as int));
    }
    let v1 = parse_u32_seg(seg1);
    if d1 == n {
        return (v1, 0, 0);
    }
    let r1 = s.substring_char(d1 + 1, n);
    proof {
        assert(r1@ =~= s@.skip(d1 + 1));
    }
    let n1 = r1.unicode_len();
    let d2 = find_first_dot(r1);
    let seg2 = r1.substring_char(0, d2);
    proof {
        assert(seg2@ =~= r1@.take(d2 as int));
    }
    let v2 = parse_u32_seg(seg2);
    if d2 == n1 {
        return (v1, v2, 0);
    }
    let seg3 = r1.substring_char(d2 + 1, n1);
    proof {
        assert(seg3@ =~= r1@.skip(d2 + 1));
    }
    let v3 = parse_u32_seg(seg3);
    (v1, v2, v3)
}

/// Compares two version strings of at most three dot-separated, purely
/// numeric segments, position by position, a missing position reading as
/// zero. The contract is deliberately narrow: the precondition states
/// exactly the numeric dotted shape, and callers must pre-validate.
pub fn comp_version(ver1: &str, ver2: &str) -> (r: Ordering)
    requires
        valid_numeric_version(ver1@),
        valid_numeric_version(ver2@),
    ensures
        r == spec_comp_version(ver1@, ver2@),
{
    let a = numeric_parts(ver1);
    let b = numeric_parts(ver2);
    if a.0 != b.0 {
        if a.0 < b.0 {
            Ordering::Less
        } else {
            Ordering::Greater
        }
    } else if a.1 != b.1 {
        if a.1 < b.1 {
            Ordering::Less
        } else {
            Ordering::Greater
        }
    } else if a.2 != b.2 {
        if a.2 < b.2 {
            Ordering::Less
        } else {
            Ordering::Greater
        }
    } else {
        Ordering::Equal
    }
}

} // verus!
