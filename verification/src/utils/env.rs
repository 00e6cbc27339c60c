//! Reading settings that came as text.

use vstd::prelude::*;
use vstd::string::*;
use crate::grid::utility::utility::digit_of;

verus! {

/// The number that the decimal digits `s` stand for.
pub open spec fn decimal_value(s: Seq<char>) -> int
    decreases s.len(),
{
    if s.len() == 0 {
        0
    } else {
        decimal_value(s.drop_last()) * 10 + digit_of(s.last()).unwrap()
    }
}

/// Whether `s` is a number in decimal: at least one digit and nothing
/// else.
pub open spec fn is_decimal(s: Seq<char>) -> bool {
    s.len() > 0 && forall|i: int| 0 <= i < s.len() ==> digit_of(#[trigger] s[i]).is_some()
}

/// Returns the truth value that `s` names; `s` must be `true` or `false`.
pub fn str_to_bool(s: String) -> (value: bool)
    requires
        s@ == "true"@ || s@ == "false"@,
    ensures
        value == (s@ == "true"@),
{
    proof {
        reveal_strlit("true");
        reveal_strlit("false");
    }
    s.as_str().unicode_len() == 4
}

/// Returns the decimal digit that `c` is.
fn digit(c: char) -> (v: Option<u32>)
    ensures
        match v {
            Some(n) => digit_of(c) == Some(n as int) && n <= 9,
            None => digit_of(c).is_none(),
        },
{
    match c {
        '0' => Some(0),
        '1' => Some(1),
        '2' => Some(2),
        '3' => Some(3),
        '4' => Some(4),
        '5' => Some(5),
        '6' => Some(6),
        '7' => Some(7),
        '8' => Some(8),
        '9' => Some(9),
        _ => None,
    }
}

/// The value of the first digits of a number is no greater than the value
/// of all of them.
pub proof fn lemma_decimal_value_grows(s: Seq<char>, n: int)
    requires
        0 <= n <= s.len(),
        forall|i: int| 0 <= i < s.len() ==> digit_of(#[trigger] s[i]).is_some(),
    ensures
        0 <= decimal_value(s.subrange(0, n)) <= decimal_value(s),
    decreases s.len() - n,
{
    if n < s.len() {
        lemma_decimal_value_grows(s, n + 1);
        assert(s.subrange(0, n + 1).drop_last() =~= s.subrange(0, n));
        lemma_decimal_value_nonnegative(s.subrange(0, n));
    } else {
        assert(s.subrange(0, n) =~= s);
        lemma_decimal_value_nonnegative(s);
    }
}

/// The value of digits is not negative.
pub proof fn lemma_decimal_value_nonnegative(s: Seq<char>)
    requires
        forall|i: int| 0 <= i < s.len() ==> digit_of(#[trigger] s[i]).is_some(),
    ensures
        0 <= decimal_value(s),
    decreases s.len(),
{
    if s.len() > 0 {
        lemma_decimal_value_nonnegative(s.drop_last());
    }
}

/// The digits of a number: the text without the plus sign that it may
/// begin with.
pub open spec fn unsigned_part(s: Seq<char>) -> Seq<char> {
    if s.len() > 0 && s[0] == '+' {
        s.subrange(1, s.len() as int)
    } else {
        s
    }
}

/// Returns the number that `s` gives in decimal; `s` must be digits alone,
/// or a plus sign and digits, and the number must fit.
pub fn str_to_u32(s: String) -> (value: u32)
    requires
        is_decimal(unsigned_part(s@)),
        decimal_value(unsigned_part(s@)) <= u32::MAX,
    ensures
        value == decimal_value(unsigned_part(s@)),
{
    let text = s.as_str();
    let len = text.unicode_len();
    let start: usize = if len > 0 && text.get_char(0) == '+' {
        1
    } else {
        0
    };
    let ghost digits = unsigned_part(s@);
    let mut value: u32 = 0;
    let mut i: usize = start;
    assert(digits.subrange(0, 0) =~= Seq::<char>::empty());
    while i < len
        invariant
            start <= i <= len,
            len == s@.len(),
            text@ == s@,
            digits == unsigned_part(s@),
            digits.len() == len - start,
            forall|k: int| 0 <= k < digits.len() ==> #[trigger] digits[k] == s@[k + start],
            is_decimal(digits),
            decimal_value(digits) <= u32::MAX,
            value == decimal_value(digits.subrange(0, i - start)),
        decreases len - i,
    {
        assert(digits[i - start] == s@[i as int]);
        assert(digit_of(digits[i - start]).is_some());
        let d = digit(text.get_char(i)).unwrap();
        proof {
            assert(digits.subrange(0, i - start + 1).drop_last() =~= digits.subrange(
                0,
                i - start,
            ));
            lemma_decimal_value_grows(digits, i - start + 1);
        }
        value = value * 10 + d;
        i += 1;
    }
    assert(digits.subrange(0, len - start) =~= digits);
    value
}

} // verus!
