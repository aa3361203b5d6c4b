//! Small pieces of text.
use vstd::prelude::*;
use vstd::string::is_ascii;

verus! {

/// The hexadecimal digits of `n`, lower case, most significant first, without leading zeros.
pub open spec fn hex_digits(n: nat) -> Seq<char>
    decreases n,
{
    if n < 16 {
        seq!["0123456789abcdef"@[n as int]]
    } else {
        hex_digits(n / 16).push("0123456789abcdef"@[(n % 16) as int])
    }
}

/// Writes `n` in hexadecimal.
pub fn hex(n: u16) -> (s: String)
    ensures
        s@ == hex_digits(n as nat),
    decreases n,
{
    let digits = "0123456789abcdef";
    proof {
        reveal_strlit("0123456789abcdef");
    }
    let low: usize = (n % 16) as usize;
    assert(is_ascii(digits));
    let last = digits.substring_ascii(low, low + 1);
    assert(last@ =~= seq![digits@[low as int]]);
    if n < 16 {
        last.to_owned()
    } else {
        let mut s = hex(n / 16);
        s.append(last);
        assert(s@ =~= hex_digits((n / 16) as nat).push(digits@[low as int]));
        s
    }
}

/// Whether two strings are the same.
pub fn same_text(a: &str, b: &str) -> (same: bool)
    ensures
        same == (a@ == b@),
{
    a.to_owned() == b.to_owned()
}

/// What a hexadecimal digit, lower case, stands for; -1 for anything else.
pub open spec fn digit_value(c: char) -> int {
    if '0' <= c <= '9' {
        c as int - '0' as int
    } else if 'a' <= c <= 'f' {
        c as int - 'a' as int + 10
    } else {
        -1
    }
}

/// The number that hexadecimal digits stand for, the last one counting once and each before it
/// sixteen times as much as the one behind it.
pub open spec fn hex_value(s: Seq<char>) -> int
    decreases s.len(),
{
    if s.len() == 0 {
        0
    } else {
        16 * hex_value(s.drop_last()) + digit_value(s.last())
    }
}

/// A number in hexadecimal reads back as that number. It has lower-case digits only, at least one,
/// and the first is a zero only where it is the only one.
pub proof fn law_hexadecimal_reads_back(n: nat)
    ensures
        hex_value(hex_digits(n)) == n,
        hex_digits(n).len() > 0,
        forall|k: int|
            0 <= k < hex_digits(n).len() ==> 0 <= digit_value(#[trigger] hex_digits(n)[k]) < 16,
        hex_digits(n)[0] == '0' ==> n == 0 && hex_digits(n).len() == 1,
    decreases n,
{
    reveal_strlit("0123456789abcdef");
    let digits = "0123456789abcdef"@;
    assert forall|d: int| 0 <= d < 16 implies digit_value(#[trigger] digits[d]) == d by {
    }
    assert(forall|d: int| 0 < d < 16 ==> #[trigger] digits[d] != '0');
    let s = hex_digits(n);
    if n < 16 {
        assert(s.drop_last() =~= Seq::empty());
        reveal_with_fuel(hex_value, 2);
        assert(digit_value(digits[n as int]) == n);
        assert(s[0] == digits[n as int]);
    } else {
        law_hexadecimal_reads_back(n / 16);
        let front = hex_digits(n / 16);
        assert(s.drop_last() =~= front);
        assert(digit_value(digits[(n % 16) as int]) == n % 16);
        assert(s[0] == front[0]);
        assert forall|k: int| 0 <= k < s.len() implies 0 <= digit_value(#[trigger] s[k]) < 16 by {
            if k < front.len() {
                assert(s[k] == front[k]);
            }
        }
    }
}

} // verus!
