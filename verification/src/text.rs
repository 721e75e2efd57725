//! Decimal rendering of integers into strings.

use vstd::prelude::*;
use vstd::string::StringExecFns;

verus! {

/// The character of a decimal digit.
pub open spec fn digit_char(d: int) -> char {
    if d == 0 {
        '0'
    } else if d == 1 {
        '1'
    } else if d == 2 {
        '2'
    } else if d == 3 {
        '3'
    } else if d == 4 {
        '4'
    } else if d == 5 {
        '5'
    } else if d == 6 {
        '6'
    } else if d == 7 {
        '7'
    } else if d == 8 {
        '8'
    } else {
        '9'
    }
}

/// Decimal digits of `n`, most significant first, without leading zeros.
pub open spec fn decimal(n: nat) -> Seq<char>
    decreases n,
{
    if n < 10 {
        seq![digit_char(n as int)]
    } else {
        decimal(n / 10) + seq![digit_char((n % 10) as int)]
    }
}

/// Decimal digits of `n`, left-padded with zeros to at least `width` characters.
pub open spec fn decimal_padded(n: nat, width: nat) -> Seq<char> {
    let d = decimal(n);
    if d.len() >= width {
        d
    } else {
        Seq::new((width - d.len()) as nat, |i: int| '0') + d
    }
}

/// The one-character string of digit `d`.
fn digit_str(d: u8) -> (s: &'static str)
    requires
        d < 10,
    ensures
        s@ == seq![digit_char(d as int)],
{
    if d == 0 {
        proof {
            reveal_strlit("0");
        }
        "0"
    } else if d == 1 {
        proof {
            reveal_strlit("1");
        }
        "1"
    } else if d == 2 {
        proof {
            reveal_strlit("2");
        }
        "2"
    } else if d == 3 {
        proof {
            reveal_strlit("3");
        }
        "3"
    } else if d == 4 {
        proof {
            reveal_strlit("4");
        }
        "4"
    } else if d == 5 {
        proof {
            reveal_strlit("5");
        }
        "5"
    } else if d == 6 {
        proof {
            reveal_strlit("6");
        }
        "6"
    } else if d == 7 {
        proof {
            reveal_strlit("7");
        }
        "7"
    } else if d == 8 {
        proof {
            reveal_strlit("8");
        }
        "8"
    } else {
        proof {
            reveal_strlit("9");
        }
        "9"
    }
}

/// Digits of `m` still to be produced; none once `m` reached zero after the first digit.
spec fn digits_left(m: nat, started: bool) -> Seq<char> {
    if m == 0 && started {
        Seq::empty()
    } else {
        decimal(m)
    }
}

/// Append the decimal digits of `n`, zero-padded to at least `width` characters.
pub fn push_decimal(s: &mut String, n: u64, width: usize)
    ensures
        final(s)@ == old(s)@ + decimal_padded(n as nat, width as nat),
{
    // Collect digits least significant first
    let mut digits: Vec<u8> = Vec::new();
    let mut m = n;
    let ghost mut rest: Seq<char> = Seq::empty();
    loop
        invariant_except_break
            digits@.len() > 0 ==> m != 0,
        invariant
            forall|k: int| 0 <= k < digits@.len() ==> #[trigger] digits@[k] < 10,
            decimal(n as nat) == digits_left(m as nat, digits@.len() > 0) + rest,
            rest.len() == digits@.len(),
            digits@.len() == 0 ==> m == n,
            forall|k: int|
                0 <= k < digits@.len() ==> rest[rest.len() - 1 - k] == digit_char(
                    #[trigger] digits@[k] as int,
                ),
        ensures
            decimal(n as nat) == rest,
            rest.len() == digits@.len(),
            forall|k: int| 0 <= k < digits@.len() ==> #[trigger] digits@[k] < 10,
            forall|k: int|
                0 <= k < digits@.len() ==> rest[rest.len() - 1 - k] == digit_char(
                    #[trigger] digits@[k] as int,
                ),
        decreases m,
    {
        let d = (m % 10) as u8;
        let ghost old_m = m;
        let ghost old_rest = rest;
        proof {
            assert(digits_left(m as nat, digits@.len() > 0) == decimal(m as nat));
            if m >= 10 {
                assert(decimal(m as nat) == decimal((m / 10) as nat) + seq![digit_char((m % 10) as int)]);
            } else {
                assert(decimal(m as nat) == seq![digit_char(m as int)]);
            }
            rest = seq![digit_char(d as int)] + rest;
        }
        digits.push(d);
        m = m / 10;
        proof {
            assert forall|k: int|
                0 <= k < digits@.len() implies rest[rest.len() - 1 - k] == digit_char(
                #[trigger] digits@[k] as int,
            ) by {
                if k < digits@.len() - 1 {
                    assert(rest[rest.len() - 1 - k] == old_rest[old_rest.len() - 1 - k]);
                }
            }
            if old_m < 10 {
                assert(digits_left(m as nat, true) =~= Seq::<char>::empty());
                assert(decimal(n as nat) =~= digits_left(m as nat, true) + rest);
            } else {
                assert(decimal(n as nat) =~= digits_left(m as nat, true) + rest);
            }
        }
        if m == 0 {
            assert(rest =~= digits_left(m as nat, true) + rest);
            break;
        }
    }
    // Zero padding
    let mut pad = width;
    let ghost start = s@;
    let mut written: usize = 0;
    let ndigits = digits.len();
    if pad > ndigits {
        pad = pad - ndigits;
    } else {
        pad = 0;
    }
    while written < pad
        invariant
            written <= pad,
            s@ == start + Seq::new(written as nat, |i: int| '0'),
        decreases pad - written,
    {
        proof {
            reveal_strlit("0");
        }
        s.append("0");
        written += 1;
        assert(s@ =~= start + Seq::new(written as nat, |i: int| '0'));
    }
    let ghost padded = s@;
    // Digits, most significant first
    let mut k = ndigits;
    while k > 0
        invariant
            k <= ndigits,
            ndigits == digits@.len(),
            forall|j: int| 0 <= j < digits@.len() ==> #[trigger] digits@[j] < 10,
            rest.len() == ndigits,
            forall|j: int|
                0 <= j < digits@.len() ==> rest[rest.len() - 1 - j] == digit_char(
                    #[trigger] digits@[j] as int,
                ),
            s@ == padded + rest.subrange(0, (ndigits - k) as int),
        decreases k,
    {
        k -= 1;
        let ds = digit_str(digits[k]);
        s.append(ds);
        assert(s@ =~= padded + rest.subrange(0, (ndigits - k) as int));
    }
    assert(rest.subrange(0, ndigits as int) =~= rest);
    assert(s@ =~= old(s)@ + decimal_padded(n as nat, width as nat));
}

} // verus!
