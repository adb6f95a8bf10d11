//! Small string-building helpers with exact specifications.
use vstd::prelude::*;

verus! {

/// `true` or `false`, as `bool` displays.
pub open spec fn bool_text(b: bool) -> Seq<char> {
    if b {
        "true"@
    } else {
        "false"@
    }
}

/// Append `true` or `false`.
pub fn push_bool(s: &mut String, b: bool)
    ensures
        final(s)@ == old(s)@ + bool_text(b),
{
    if b {
        s.append("true");
    } else {
        s.append("false");
    }
}

/// The one-character literal for a decimal digit.
pub open spec fn digit_lit(d: nat) -> Seq<char> {
    if d == 0 {
        "0"@
    } else if d == 1 {
        "1"@
    } else if d == 2 {
        "2"@
    } else if d == 3 {
        "3"@
    } else if d == 4 {
        "4"@
    } else if d == 5 {
        "5"@
    } else if d == 6 {
        "6"@
    } else if d == 7 {
        "7"@
    } else if d == 8 {
        "8"@
    } else {
        "9"@
    }
}

/// Decimal rendering of a natural number, without leading zeros.
pub open spec fn decimal(n: nat) -> Seq<char>
    decreases n,
{
    if n < 10 {
        digit_lit(n)
    } else {
        decimal(n / 10) + digit_lit(n % 10)
    }
}

/// The literal of one decimal digit.
pub fn digit_str(d: u8) -> (r: &'static str)
    requires
        d < 10,
    ensures
        r@ == digit_lit(d as nat),
{
    if d == 0 {
        "0"
    } else if d == 1 {
        "1"
    } else if d == 2 {
        "2"
    } else if d == 3 {
        "3"
    } else if d == 4 {
        "4"
    } else if d == 5 {
        "5"
    } else if d == 6 {
        "6"
    } else if d == 7 {
        "7"
    } else if d == 8 {
        "8"
    } else {
        "9"
    }
}

/// Append the decimal rendering of a byte value.
pub fn push_decimal_u8(s: &mut String, n: u8)
    ensures
        final(s)@ == old(s)@ + decimal(n as nat),
{
    proof {
        reveal_with_fuel(decimal, 3);
    }
    if n >= 100 {
        s.append(digit_str(n / 100));
        s.append(digit_str((n / 10) % 10));
        s.append(digit_str(n % 10));
        assert(decimal(n as nat) =~= digit_lit((n / 100) as nat) + digit_lit(((n / 10) % 10) as nat)
            + digit_lit((n % 10) as nat));
    } else if n >= 10 {
        s.append(digit_str(n / 10));
        s.append(digit_str(n % 10));
    } else {
        s.append(digit_str(n));
    }
}

/// Every digit literal is one character long.
pub proof fn lemma_digit_len(d: nat)
    ensures
        digit_lit(d).len() == 1,
{
    reveal_strlit("0");
    reveal_strlit("1");
    reveal_strlit("2");
    reveal_strlit("3");
    reveal_strlit("4");
    reveal_strlit("5");
    reveal_strlit("6");
    reveal_strlit("7");
    reveal_strlit("8");
    reveal_strlit("9");
}

/// Append the decimal rendering of a 64-bit value.
pub fn push_decimal_u64(s: &mut String, n: u64)
    ensures
        final(s)@ == old(s)@ + decimal(n as nat),
    decreases n,
{
    if n >= 10 {
        push_decimal_u64(s, n / 10);
    }
    s.append(digit_str((n % 10) as u8));
    proof {
        if n >= 10 {
            assert(decimal(n as nat) == decimal((n / 10) as nat) + digit_lit((n % 10) as nat));
        }
    }
}

/// Ten to the power `k`.
pub open spec fn pow10(k: nat) -> nat
    decreases k,
{
    if k == 0 {
        1
    } else {
        10 * pow10((k - 1) as nat)
    }
}

/// Number of digits of the decimal rendering.
pub fn decimal_len(n: u64) -> (r: usize)
    ensures
        r == decimal(n as nat).len(),
        forall|k: nat| k >= 1 && n < #[trigger] pow10(k) ==> r <= k,
        r <= 20,
    decreases n,
{
    proof {
        lemma_digit_len((n % 10) as nat);
        lemma_digit_len(n as nat);
        reveal_with_fuel(pow10, 21);
        assert(pow10(20) == 100000000000000000000);
    }
    if n >= 10 {
        let r0 = decimal_len(n / 10);
        proof {
            assert forall|k: nat| k >= 1 && n < #[trigger] pow10(k) implies r0 + 1 <= k by {
                if k == 1 {
                    assert(pow10(1) == 10 * pow10(0));
                } else {
                    assert(pow10(k) == 10 * pow10((k - 1) as nat));
                    assert(n / 10 < pow10((k - 1) as nat));
                }
            }
            assert(n < pow10(20));
        }
        r0 + 1
    } else {
        proof {
            
        }
        1
    }
}

/// `k` zero characters.
pub open spec fn zeros(k: nat) -> Seq<char>
    decreases k,
{
    if k == 0 {
        Seq::empty()
    } else {
        zeros((k - 1) as nat) + "0"@
    }
}

/// Append `k` zero characters.
pub fn push_zeros(s: &mut String, k: usize)
    ensures
        final(s)@ == old(s)@ + zeros(k as nat),
{
    let mut i: usize = 0;
    while i < k
        invariant
            i <= k,
            s@ == old(s)@ + zeros(i as nat),
        decreases k - i,
    {
        s.append("0");
        i = i + 1;
        proof {
            assert(zeros(i as nat) == zeros((i - 1) as nat) + "0"@);
        }
    }
}

/// Rendering of a signed value as `{}` formats it.
pub open spec fn signed_decimal(n: int) -> Seq<char> {
    if n < 0 {
        "-"@ + decimal((-n) as nat)
    } else {
        decimal(n as nat)
    }
}

/// Rendering of a signed value as `{:0w$}` formats it: a minus sign first
/// when negative, then zeros up to the width `w` (sign included), then the
/// digits.
pub open spec fn signed_zero_padded(n: int, w: nat) -> Seq<char> {
    let digits = decimal(if n < 0 { (-n) as nat } else { n as nat });
    let sign_len: nat = if n < 0 { 1 } else { 0 };
    let pad: nat = if digits.len() + sign_len < w { (w - digits.len() - sign_len) as nat } else { 0 };
    if n < 0 {
        "-"@ + zeros(pad) + digits
    } else {
        zeros(pad) + digits
    }
}

fn magnitude(n: i64) -> (r: u64)
    ensures
        r as int == if n < 0 { -n } else { n as int },
{
    if n < 0 {
        if n == i64::MIN {
            9223372036854775808u64
        } else {
            (-n) as u64
        }
    } else {
        n as u64
    }
}

/// Append a signed value as `{}` formats it.
pub fn push_signed_decimal(s: &mut String, n: i64)
    ensures
        final(s)@ == old(s)@ + signed_decimal(n as int),
{
    let m = magnitude(n);
    if n < 0 {
        s.append("-");
        push_decimal_u64(s, m);
        proof {
            assert(old(s)@ + ("-"@ + decimal(m as nat)) =~= old(s)@ + "-"@ + decimal(m as nat));
        }
    } else {
        push_decimal_u64(s, m);
    }
}

/// Append a signed value as `{:0w$}` formats it.
pub fn push_signed_zero_padded(s: &mut String, n: i64, w: usize)
    ensures
        final(s)@ == old(s)@ + signed_zero_padded(n as int, w as nat),
{
    let m = magnitude(n);
    let digits = decimal_len(m);
    let sign_len: usize = if n < 0 { 1 } else { 0 };
    let pad: usize = if digits + sign_len < w { w - digits - sign_len } else { 0 };
    let ghost start = s@;
    if n < 0 {
        s.append("-");
    }
    push_zeros(s, pad);
    push_decimal_u64(s, m);
    proof {
        if n < 0 {
            assert(s@ =~= start + ("-"@ + zeros(pad as nat) + decimal(m as nat)));
        } else {
            assert(s@ =~= start + (zeros(pad as nat) + decimal(m as nat)));
        }
    }
}

} // verus!
