//! Character-level text helpers: decimal numerals in both directions and
//! conversions between strings and character sequences.

use vstd::prelude::*;

verus! {

/// Appends `c` to `s` through `String::push`.
#[verifier::external_body]
pub(crate) fn push_char(s: &mut String, c: char)
    ensures
        final(s)@ == old(s)@.push(c),
{
    s.push(c);
}

/// Removes and returns the last character of `s` through `String::pop`.
#[verifier::external_body]
pub(crate) fn pop_char(s: &mut String) -> (r: Option<char>)
    ensures
        old(s)@.len() == 0 ==> r is None && final(s)@ == old(s)@,
        old(s)@.len() > 0 ==> r == Some(old(s)@.last()) && final(s)@ == old(s)@.drop_last(),
{
    s.pop()
}

/// The characters of `s`, in order.
pub fn chars_of(s: &str) -> (cs: Vec<char>)
    ensures
        cs@ == s@,
{
    let n = s.unicode_len();
    let mut cs: Vec<char> = Vec::new();
    let mut i: usize = 0;
    while i < n
        invariant
            n == s@.len(),
            i <= n,
            cs@ == s@.subrange(0, i as int),
        decreases n - i,
    {
        cs.push(s.get_char(i));
        i = i + 1;
        proof {
            assert(cs@ =~= s@.subrange(0, i as int));
        }
    }
    proof {
        assert(s@.subrange(0, n as int) =~= s@);
    }
    cs
}

/// A string holding exactly the characters `cs`.
pub fn string_of(cs: &[char]) -> (s: String)
    ensures
        s@ == cs@,
{
    let mut s = String::new();
    let mut i: usize = 0;
    while i < cs.len()
        invariant
            i <= cs@.len(),
            s@ == cs@.subrange(0, i as int),
        decreases cs@.len() - i,
    {
        push_char(&mut s, cs[i]);
        i = i + 1;
        proof {
            assert(s@ =~= cs@.subrange(0, i as int));
        }
    }
    proof {
        assert(cs@.subrange(0, cs@.len() as int) =~= cs@);
    }
    s
}

pub open spec fn is_ascii_digit(c: char) -> bool {
    '0' <= c && c <= '9'
}

pub open spec fn digit_value(c: char) -> nat {
    (c as int - '0' as int) as nat
}

pub open spec fn all_digits(s: Seq<char>) -> bool {
    forall|i: int| 0 <= i < s.len() ==> is_ascii_digit(#[trigger] s[i])
}

/// The number a string of decimal digits denotes.
pub open spec fn decimal_value(s: Seq<char>) -> nat
    decreases s.len(),
{
    if s.len() == 0 {
        0
    } else {
        decimal_value(s.drop_last()) * 10 + digit_value(s.last())
    }
}

/// What parsing `s` as a `usize` gives: an optional leading `+`, then one
/// or more ASCII digits whose value fits in a `usize`.
pub open spec fn parsed_usize(s: Seq<char>) -> Option<usize> {
    let digits = if s.len() > 0 && s[0] == '+' {
        s.drop_first()
    } else {
        s
    };
    if digits.len() > 0 && all_digits(digits) && decimal_value(digits) <= usize::MAX {
        Some(decimal_value(digits) as usize)
    } else {
        None
    }
}

proof fn lemma_decimal_prefix_bound(s: Seq<char>, k: int)
    requires
        0 <= k <= s.len(),
        all_digits(s),
    ensures
        decimal_value(s.subrange(0, k)) <= decimal_value(s),
    decreases s.len(),
{
    if k < s.len() {
        assert(s.drop_last() =~= s.subrange(0, s.len() - 1));
        lemma_decimal_prefix_bound(s.drop_last(), k);
        assert(s.drop_last().subrange(0, k) =~= s.subrange(0, k));
    } else {
        assert(s.subrange(0, k) =~= s);
    }
}

/// Parses `s` as a decimal `usize` the way `str::parse::<usize>` does.
pub fn parse_usize(s: &[char]) -> (r: Option<usize>)
    ensures
        r == parsed_usize(s@),
{
    let start: usize = if s.len() > 0 && s[0] == '+' { 1 } else { 0 };
    let ghost digits = s@.subrange(start as int, s@.len() as int);
    proof {
        if start == 1 {
            assert(digits =~= s@.drop_first());
        } else {
            assert(digits =~= s@);
        }
    }
    if start >= s.len() {
        return None;
    }
    let mut value: usize = 0;
    let mut i: usize = start;
    while i < s.len()
        invariant
            start <= i <= s@.len(),
            digits == s@.subrange(start as int, s@.len() as int),
            digits == (if s@.len() > 0 && s@[0] == '+' { s@.drop_first() } else { s@ }),
            all_digits(s@.subrange(start as int, i as int)),
            value == decimal_value(s@.subrange(start as int, i as int)),
        decreases s@.len() - i,
    {
        let c = s[i];
        let ghost before = s@.subrange(start as int, i as int);
        let ghost after = s@.subrange(start as int, i + 1);
        proof {
            assert(after.drop_last() =~= before);
            assert(after.last() == c);
        }
        if c < '0' || c > '9' {
            proof {
                assert(digits[i - start] == c);
                assert(!is_ascii_digit(digits[i - start]));
                assert(!all_digits(digits));
                assert(parsed_usize(s@) is None);
            }
            return None;
        }
        let d = (c as u32 - '0' as u32) as usize;
        if value > (usize::MAX - d) / 10 {
            proof {
                assert(decimal_value(after) > usize::MAX) by (nonlinear_arith)
                    requires
                        value > (usize::MAX - d) / 10,
                        decimal_value(after) == value * 10 + d,
                        d <= 9,
                ;
                if all_digits(digits) {
                    lemma_decimal_prefix_bound(digits, i + 1 - start);
                    assert(digits.subrange(0, i + 1 - start) =~= after);
                    assert(decimal_value(digits) > usize::MAX);
                }
                assert(parsed_usize(s@) is None);
            }
            return None;
        }
        value = value * 10 + d;
        i = i + 1;
        proof {
            assert(all_digits(s@.subrange(start as int, i as int))) by {
                assert forall|j: int| 0 <= j < after.len() implies is_ascii_digit(#[trigger] after[j]) by {
                    if j < before.len() {
                        assert(after[j] == before[j]);
                    }
                }
            }
        }
    }
    proof {
        assert(s@.subrange(start as int, s@.len() as int) =~= digits);
    }
    Some(value)
}

/// The decimal numeral of `n`, most significant digit first, without
/// leading zeros (zero is written `0`).
pub open spec fn decimal_digits(n: nat) -> Seq<char>
    decreases n,
{
    if n < 10 {
        seq![(n + '0' as nat) as char]
    } else {
        decimal_digits(n / 10).push(((n % 10) + '0' as nat) as char)
    }
}

/// Writes `n` in decimal, as the `Display` of unsigned integers does.
pub fn decimal_string(n: u64) -> (s: String)
    ensures
        s@ == decimal_digits(n as nat),
{
    let mut rev: Vec<char> = Vec::new();
    let mut m: u64 = n;
    let ghost mut done: Seq<char> = Seq::empty();
    while m >= 10
        invariant
            m <= n,
            decimal_digits(n as nat) == decimal_digits(m as nat) + done,
            rev@ == done.reverse(),
        decreases m,
    {
        let c = char_of_digit(m % 10);
        proof {
            assert(decimal_digits(m as nat) == decimal_digits((m / 10) as nat).push(c));
            assert(decimal_digits((m / 10) as nat) + seq![c] + done =~= decimal_digits(
                (m / 10) as nat,
            ) + (seq![c] + done));
            done = seq![c] + done;
            assert(rev@.push(c) =~= done.reverse());
        }
        rev.push(c);
        m = m / 10;
    }
    let c = char_of_digit(m);
    rev.push(c);
    proof {
        assert(decimal_digits(m as nat) =~= seq![c]);
        done = seq![c] + done;
        assert(rev@ =~= done.reverse());
    }
    let mut out: Vec<char> = Vec::new();
    let mut i: usize = rev.len();
    while i > 0
        invariant
            i <= rev@.len(),
            out@ == rev@.subrange(i as int, rev@.len() as int).reverse(),
        decreases i,
    {
        i = i - 1;
        out.push(rev[i]);
        proof {
            assert(out@ =~= rev@.subrange(i as int, rev@.len() as int).reverse());
        }
    }
    proof {
        assert(rev@.subrange(0, rev@.len() as int) =~= rev@);
        assert(done.reverse().reverse() =~= done);
    }
    string_of(&out)
}

fn char_of_digit(d: u64) -> (c: char)
    requires
        d < 10,
    ensures
        c == (d + '0' as nat) as char,
        is_ascii_digit(c),
{
    if d == 0 { '0' }
    else if d == 1 { '1' }
    else if d == 2 { '2' }
    else if d == 3 { '3' }
    else if d == 4 { '4' }
    else if d == 5 { '5' }
    else if d == 6 { '6' }
    else if d == 7 { '7' }
    else if d == 8 { '8' }
    else { '9' }
}

} // verus!
