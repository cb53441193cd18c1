//! Text helpers: the decimal rendering and parsing of integers, splitting on a
//! separator, and the calls into `std` whose behaviour vstd does not describe.

use vstd::prelude::*;
use vstd::string::*;

verus! {

/// The character of a decimal digit `d` (`0 <= d < 10`).
pub open spec fn digit_char(d: nat) -> char {
    (48 + d) as char
}

/// Base-ten digits of `n`, most significant first, without leading zeros.
pub open spec fn decimal_digits(n: nat) -> Seq<char>
    decreases n,
{
    if n < 10 {
        seq![digit_char(n)]
    } else {
        decimal_digits(n / 10).push(digit_char(n % 10))
    }
}

/// How `Display` writes an integer: its digits, after a `-` when it is negative.
pub open spec fn decimal_text(n: int) -> Seq<char> {
    if n < 0 {
        seq!['-'] + decimal_digits((-n) as nat)
    } else {
        decimal_digits(n as nat)
    }
}

/// Whether `c` is one of the ASCII digits `0` to `9`.
pub open spec fn is_decimal_digit(c: char) -> bool {
    '0' <= c <= '9'
}

/// The number that a string of ASCII digits denotes in base ten.
pub open spec fn digits_value(s: Seq<char>) -> nat
    decreases s.len(),
{
    if s.len() == 0 {
        0
    } else {
        digits_value(s.drop_last()) * 10 + ((s.last() as int) - 48) as nat
    }
}

/// What `str::parse::<usize>` accepts: an optional `+`, then one or more ASCII
/// digits whose value fits in a `usize`; anything else is an error (`None`).
pub open spec fn parsed_usize(s: Seq<char>) -> Option<usize> {
    let digits = if s.len() > 0 && s[0] == '+' {
        s.drop_first()
    } else {
        s
    };
    if digits.len() > 0 && (forall|i: int| 0 <= i < digits.len() ==> is_decimal_digit(#[trigger] digits[i]))
        && digits_value(digits) <= usize::MAX {
        Some(digits_value(digits) as usize)
    } else {
        None
    }
}

/// Index of the first `sep` in `s`, or `s.len()` when there is none.
pub open spec fn first_sep(s: Seq<char>, sep: char) -> nat
    decreases s.len(),
{
    if s.len() == 0 {
        0
    } else if s[0] == sep {
        0
    } else {
        1 + first_sep(s.drop_first(), sep)
    }
}

/// The pieces of `s` between occurrences of `sep`, as `str::split` with a `char`
/// pattern yields them: `n` separators give `n + 1` pieces, empty ones included.
pub open spec fn split_on(s: Seq<char>, sep: char) -> Seq<Seq<char>>
    decreases s.len(),
{
    let k = first_sep(s, sep);
    if k < s.len() {
        seq![s.take(k as int)] + split_on(s.skip(k + 1int), sep)
    } else {
        seq![s]
    }
}

/// `first_sep` lies within `s`, points at a separator when below `s.len()`, and
/// no separator comes before it.
pub proof fn lemma_first_sep(s: Seq<char>, sep: char)
    ensures
        first_sep(s, sep) <= s.len(),
        first_sep(s, sep) < s.len() ==> s[first_sep(s, sep) as int] == sep,
        forall|i: int| 0 <= i < first_sep(s, sep) ==> s[i] != sep,
    decreases s.len(),
{
    if s.len() > 0 && s[0] != sep {
        lemma_first_sep(s.drop_first(), sep);
        assert forall|i: int| 0 <= i < first_sep(s, sep) implies s[i] != sep by {
            if i > 0 {
                assert(s[i] == s.drop_first()[i - 1]);
            }
        }
    }
}

/// A position with no separator before it, at a separator or at the end, is
/// `first_sep`.
pub proof fn lemma_first_sep_unique(s: Seq<char>, sep: char, k: int)
    requires
        0 <= k <= s.len(),
        k < s.len() ==> s[k] == sep,
        forall|i: int| 0 <= i < k ==> s[i] != sep,
    ensures
        first_sep(s, sep) == k,
    decreases s.len(),
{
    if s.len() > 0 && k > 0 {
        assert(s[0] != sep);
        assert forall|i: int| 0 <= i < k - 1 implies s.drop_first()[i] != sep by {
            assert(s.drop_first()[i] == s[i + 1]);
        }
        lemma_first_sep_unique(s.drop_first(), sep, k - 1);
    }
}

/// Renders an `i64` with `ToString`, that is through its `Display` impl.
/// Claimed: the result is the base-ten digits of the value without leading
/// zeros, after a `-` when it is negative.
#[verifier::external_body]
pub(crate) fn i64_to_string(n: i64) -> (text: String)
    ensures
        text@ == decimal_text(n as int),
{
    n.to_string()
}

/// Renders a `u32` with `ToString`, that is through its `Display` impl.
/// Claimed: the result is the base-ten digits of the value without leading zeros.
#[verifier::external_body]
pub(crate) fn u32_to_string(n: u32) -> (text: String)
    ensures
        text@ == decimal_text(n as int),
{
    n.to_string()
}

/// Calls `str::parse::<usize>` and keeps the value of an `Ok`.
/// Claimed: it succeeds exactly on an optional `+` followed by one or more ASCII
/// digits whose value fits in a `usize`, and gives that value (`parsed_usize`).
#[verifier::external_body]
pub(crate) fn parse_usize(s: &str) -> (value: Option<usize>)
    ensures
        value == parsed_usize(s@),
{
    s.parse::<usize>().ok()
}

/// What `str::to_lowercase` makes of a character sequence (Unicode lowercase
/// mapping, which takes tables to state).
pub uninterp spec fn lowercase(s: Seq<char>) -> Seq<char>;

/// Calls `str::to_lowercase`.
/// Claimed: the result depends on the characters of `s` alone; what it is stays
/// unsaid beyond the name `lowercase`.
#[verifier::external_body]
pub(crate) fn to_lowercase(s: &str) -> (lowered: String)
    ensures
        lowered@ == lowercase(s@),
{
    s.to_lowercase()
}

/// Character index of the first `sep` in `s`, or the number of characters of `s`
/// when it holds none.
pub fn first_sep_index(s: &str, sep: char) -> (k: usize)
    ensures
        k == first_sep(s@, sep),
{
    let n: usize = s.unicode_len();
    let mut i: usize = 0;
    while i < n
        invariant
            n == s@.len(),
            i <= n,
            forall|j: int| 0 <= j < i ==> s@[j] != sep,
        decreases n - i,
    {
        if s.get_char(i) == sep {
            proof {
                lemma_first_sep_unique(s@, sep, i as int);
            }
            return i;
        }
        i = i + 1;
    }
    proof {
        lemma_first_sep_unique(s@, sep, n as int);
    }
    n
}

} // verus!
