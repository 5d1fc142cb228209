//! Decimal digit strings: rendering a `u64` as its decimal representation and
//! parsing a digit string back into a `u64`.  Process identifiers travel
//! through the persisted registry in this form.

use vstd::prelude::*;
use vstd::string::StringExecFns;

verus! {

/// Is `c` one of the ten decimal digit characters?
pub open spec fn is_digit(c: char) -> bool {
    '0' as u32 <= c as u32 && c as u32 <= '9' as u32
}

/// The numeric value of a digit character (meaningful only when `is_digit(c)`).
pub open spec fn digit_val(c: char) -> int {
    c as u32 - '0' as u32
}

/// The digit character for a value below ten.
pub open spec fn digit_char(d: int) -> char {
    if d == 0 {
        '0'
    } else if d == 1 {
        '1'
    } else if d == 2 {
        '2'
    } else if d == 3 {
        '3'
    } else if d == 4 {
        '4'
    } else if d == 5 {
        '5'
    } else if d == 6 {
        '6'
    } else if d == 7 {
        '7'
    } else if d == 8 {
        '8'
    } else {
        '9'
    }
}

/// Does `s` consist of decimal digits only?
pub open spec fn all_digits(s: Seq<char>) -> bool {
    forall|i: int| 0 <= i < s.len() ==> is_digit(s[i])
}

/// The number denoted by a digit string, most significant digit first.
pub open spec fn digits_val(s: Seq<char>) -> int
    decreases s.len(),
{
    if s.len() == 0 {
        0
    } else {
        digits_val(s.drop_last()) * 10 + digit_val(s.last())
    }
}

/// The decimal representation of `n`: no sign, no leading zero (except for
/// `n == 0`, which is written `"0"`).
pub open spec fn u64_dec_spec(n: nat) -> Seq<char>
    decreases n,
{
    if n < 10 {
        seq![digit_char(n as int)]
    } else {
        u64_dec_spec(n / 10) + seq![digit_char((n % 10) as int)]
    }
}

/// What parsing a digit string yields: the denoted number, provided the
/// string is non-empty, holds digits only, and the number fits in a `u64`;
/// nothing otherwise.
pub open spec fn parse_u64_spec(s: Seq<char>) -> Option<u64> {
    if s.len() > 0 && all_digits(s) && digits_val(s) <= u64::MAX {
        Some(digits_val(s) as u64)
    } else {
        None
    }
}

/// The decimal representation consists of digits and is never empty.
pub proof fn lemma_dec_digits(n: nat)
    ensures
        all_digits(u64_dec_spec(n)),
        u64_dec_spec(n).len() >= 1,
    decreases n,
{
    if n >= 10 {
        lemma_dec_digits(n / 10);
        let s = u64_dec_spec(n);
        assert forall|i: int| 0 <= i < s.len() implies is_digit(s[i]) by {
            if i < s.len() - 1 {
                assert(s[i] == u64_dec_spec(n / 10)[i]);
            }
        }
    }
}

/// Parsing the decimal representation of `n` gives back `n`.
pub proof fn lemma_dec_val(n: nat)
    ensures
        digits_val(u64_dec_spec(n)) == n,
    decreases n,
{
    if n < 10 {
        let s = u64_dec_spec(n);
        assert(s.drop_last() =~= Seq::<char>::empty());
        assert(digits_val(Seq::<char>::empty()) == 0);
        assert(digits_val(s) == digit_val(digit_char(n as int)));
        assert(digit_val(digit_char(n as int)) == n);
    } else {
        lemma_dec_val(n / 10);
        let s = u64_dec_spec(n);
        let prefix = u64_dec_spec(n / 10);
        assert(s.drop_last() =~= prefix);
        assert(digits_val(s) == digits_val(prefix) * 10 + digit_val(digit_char((n % 10) as int)));
        vstd::arithmetic::div_mod::lemma_fundamental_div_mod(n as int, 10);
    }
}

/// Appending digits never lowers the denoted value.
proof fn lemma_digits_val_grows(s: Seq<char>, i: int)
    requires
        all_digits(s),
        0 <= i <= s.len(),
    ensures
        digits_val(s.take(i)) <= digits_val(s),
        digits_val(s) >= 0,
    decreases s.len() - i,
{
    if i == s.len() {
        assert(s.take(i) =~= s);
        lemma_digits_val_nonneg(s);
    } else {
        lemma_digits_val_grows(s, i + 1);
        lemma_digits_val_nonneg(s.take(i));
        assert(s.take(i + 1).drop_last() =~= s.take(i));
        assert(digits_val(s.take(i + 1)) == digits_val(s.take(i)) * 10 + digit_val(s[i]));
        assert(digits_val(s.take(i)) * 10 >= digits_val(s.take(i))) by (nonlinear_arith)
            requires digits_val(s.take(i)) >= 0;
    }
}

/// A digit string denotes a non-negative number.
proof fn lemma_digits_val_nonneg(s: Seq<char>)
    requires
        all_digits(s),
    ensures
        digits_val(s) >= 0,
    decreases s.len(),
{
    if s.len() > 0 {
        lemma_digits_val_nonneg(s.drop_last());
        assert(digits_val(s.drop_last()) * 10 >= 0) by (nonlinear_arith)
            requires digits_val(s.drop_last()) >= 0;
    }
}

/// The decimal digit `d` as a one-character string slice.
fn digit_str(d: u64) -> (s: &'static str)
    requires
        d < 10,
    ensures
        s@ =~= seq![digit_char(d as int)],
{
    proof {
        reveal_strlit("0");
        reveal_strlit("1");
        reveal_strlit("2");
        reveal_strlit("3");
        reveal_strlit("4");
        reveal_strlit("5");
        reveal_strlit("6");
        reveal_strlit("7");
        reveal_strlit("8");
        reveal_strlit("9");
    }
    if d == 0 {
        "0"
    } else if d == 1 {
        "1"
    } else if d == 2 {
        "2"
    } else if d == 3 {
        "3"
    } else if d == 4 {
        "4"
    } else if d == 5 {
        "5"
    } else if d == 6 {
        "6"
    } else if d == 7 {
        "7"
    } else if d == 8 {
        "8"
    } else {
        "9"
    }
}

/// Render `n` in decimal.
pub fn u64_to_string(n: u64) -> (s: String)
    ensures
        s@ == u64_dec_spec(n as nat),
    decreases n,
{
    if n < 10 {
        digit_str(n).to_owned()
    } else {
        let mut s = u64_to_string(n / 10);
        s.append(digit_str(n % 10));
        s
    }
}

/// Parse a decimal digit string into a `u64`; `None` when the string is
/// empty, holds a non-digit, or denotes a number above `u64::MAX`.
pub fn parse_u64(s: &str) -> (r: Option<u64>)
    ensures
        r == parse_u64_spec(s@),
{
    let n = s.unicode_len();
    if n == 0 {
        return None;
    }
    let mut val: u64 = 0;
    let mut i: usize = 0;
    while i < n
        invariant
            0 <= i <= n,
            n == s@.len(),
            all_digits(s@.take(i as int)),
            val == digits_val(s@.take(i as int)),
        decreases n - i,
    {
        let c = s.get_char(i);
        let u = c as u32;
        if u < 48 || u > 57 {
            assert(!is_digit(s@[i as int]));
            return None;
        }
        let d = (u - 48) as u64;
        proof {
            assert(s@.take(i as int + 1).drop_last() =~= s@.take(i as int));
            assert(digits_val(s@.take(i as int + 1)) == val * 10 + d);
        }
        if val > (u64::MAX - d) / 10 {
            proof {
                lemma_overflow_bound(val as int, d as int);
                if all_digits(s@) {
                    lemma_digits_val_grows(s@, i as int + 1);
                    assert(digits_val(s@) > u64::MAX);
                }
            }
            return None;
        }
        proof {
            lemma_no_overflow_bound(val as int, d as int);
        }
        val = val * 10 + d;
        i = i + 1;
    }
    proof {
        assert(s@.take(n as int) =~= s@);
    }
    Some(val)
}

/// If `v` exceeds `(u64::MAX - d) / 10` then `v * 10 + d` exceeds `u64::MAX`.
proof fn lemma_overflow_bound(v: int, d: int)
    requires
        0 <= d <= 9,
        0 <= v,
        v > (u64::MAX - d) / 10,
    ensures
        v * 10 + d > u64::MAX,
{
    let q = (u64::MAX - d) / 10;
    vstd::arithmetic::div_mod::lemma_fundamental_div_mod(u64::MAX - d, 10);
    assert(v >= q + 1);
    assert(v * 10 >= (q + 1) * 10) by (nonlinear_arith)
        requires v >= q + 1;
}

/// If `v` is at most `(u64::MAX - d) / 10` then `v * 10 + d` fits in a `u64`.
proof fn lemma_no_overflow_bound(v: int, d: int)
    requires
        0 <= d <= 9,
        0 <= v,
        v <= (u64::MAX - d) / 10,
    ensures
        v * 10 + d <= u64::MAX,
{
    let q = (u64::MAX - d) / 10;
    vstd::arithmetic::div_mod::lemma_fundamental_div_mod(u64::MAX - d, 10);
    assert(v * 10 <= q * 10) by (nonlinear_arith)
        requires 0 <= v <= q;
}

} // verus!
