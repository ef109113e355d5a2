//! Decimal numerals: parsing the index argument of a command, and rendering
//! an index for status messages and listings.

use vstd::prelude::*;
use crate::errors::HarpoonError;

verus! {

/// The character that writes the decimal digit `d`.
pub open spec fn digit_char(d: nat) -> char {
    if d == 0 {
        '0'
    } else if d == 1 {
        '1'
    } else if d == 2 {
        '2'
    } else if d == 3 {
        '3'
    } else if d == 4 {
        '4'
    } else if d == 5 {
        '5'
    } else if d == 6 {
        '6'
    } else if d == 7 {
        '7'
    } else if d == 8 {
        '8'
    } else {
        '9'
    }
}

/// The value of a decimal digit character; 10 marks a non-digit.
pub open spec fn digit_val(c: char) -> nat {
    if c == '0' {
        0
    } else if c == '1' {
        1
    } else if c == '2' {
        2
    } else if c == '3' {
        3
    } else if c == '4' {
        4
    } else if c == '5' {
        5
    } else if c == '6' {
        6
    } else if c == '7' {
        7
    } else if c == '8' {
        8
    } else if c == '9' {
        9
    } else {
        10
    }
}

/// Whether `c` is a decimal digit.
pub open spec fn is_digit(c: char) -> bool {
    digit_val(c) < 10
}

/// Whether every character of `s` is a decimal digit.
pub open spec fn all_digits(s: Seq<char>) -> bool {
    forall|i: int| 0 <= i < s.len() ==> is_digit(s[i])
}

/// The number a string of decimal digits denotes.
pub open spec fn dec_val(s: Seq<char>) -> nat
    decreases s.len(),
{
    if s.len() == 0 {
        0
    } else {
        dec_val(s.drop_last()) * 10 + digit_val(s.last())
    }
}

/// The decimal numeral that writes `n`, without leading zeros.
pub open spec fn dec_str_of(n: nat) -> Seq<char>
    decreases n,
{
    if n < 10 {
        seq![digit_char(n)]
    } else {
        dec_str_of(n / 10) + seq![digit_char(n % 10)]
    }
}

/// The digits of an index argument: an optional single leading plus sign is
/// not part of the numeral.
pub open spec fn digits_of_arg(s: Seq<char>) -> Seq<char> {
    if s.len() > 0 && s[0] == '+' {
        s.drop_first()
    } else {
        s
    }
}

/// Whether `s` is a well-formed index argument, as an unsigned integer
/// parse reads one: an optional leading plus sign, then at least one
/// decimal digit, denoting a value that fits a `usize`.
pub open spec fn valid_index(s: Seq<char>) -> bool {
    digits_of_arg(s).len() > 0 && all_digits(digits_of_arg(s)) && dec_val(digits_of_arg(s))
        <= usize::MAX
}

/// The index a well-formed index argument denotes.
pub open spec fn spec_index(s: Seq<char>) -> usize {
    dec_val(digits_of_arg(s)) as usize
}

/// A digit string's value only grows as more digits are read.
proof fn lemma_dec_val_prefix(s: Seq<char>, i: int)
    requires
        0 <= i <= s.len(),
    ensures
        dec_val(s.take(i)) <= dec_val(s),
    decreases s.len() - i,
{
    if i == s.len() {
        assert(s.take(i) =~= s);
    } else {
        assert(s.take(i + 1).drop_last() =~= s.take(i));
        assert(dec_val(s.take(i + 1)) == dec_val(s.take(i)) * 10 + digit_val(s.take(i + 1).last()));
        lemma_dec_val_prefix(s, i + 1);
    }
}

/// The value of a decimal digit character; `None` for a non-digit.
fn digit_of(c: char) -> (r: Option<usize>)
    ensures
        match r {
            Some(d) => is_digit(c) && d == digit_val(c),
            None => !is_digit(c),
        },
{
    match c {
        '0' => Some(0),
        '1' => Some(1),
        '2' => Some(2),
        '3' => Some(3),
        '4' => Some(4),
        '5' => Some(5),
        '6' => Some(6),
        '7' => Some(7),
        '8' => Some(8),
        '9' => Some(9),
        _ => None,
    }
}

/// Reads the index argument of a command: a missing argument is
/// `MissingArgument`; anything but a decimal numeral (optionally preceded
/// by a plus sign) whose value fits a `usize` is `InvalidIndex`; otherwise
/// the denoted value.
pub fn index(arg: Option<&String>) -> (r: Result<usize, HarpoonError>)
    ensures
        match arg {
            None => r == Err::<usize, HarpoonError>(HarpoonError::MissingArgument),
            Some(s) => if valid_index(s@) {
                r == Ok::<usize, HarpoonError>(spec_index(s@))
            } else {
                r == Err::<usize, HarpoonError>(HarpoonError::InvalidIndex)
            },
        },
{
    let s = match arg {
        None => {
            return Err(HarpoonError::MissingArgument);
        },
        Some(s) => s,
    };
    let st = s.as_str();
    let n = st.unicode_len();
    let start: usize = if n > 0 && st.get_char(0) == '+' {
        1
    } else {
        0
    };
    let ghost d = digits_of_arg(s@);
    proof {
        assert(d =~= s@.subrange(start as int, n as int));
    }
    if n == start {
        return Err(HarpoonError::InvalidIndex);
    }
    let mut acc: usize = 0;
    let mut i: usize = start;
    while i < n
        invariant
            arg == Some(s),
            start <= i <= n,
            n == s@.len(),
            st@ == s@,
            d == digits_of_arg(s@),
            d == s@.subrange(start as int, n as int),
            all_digits(d.take(i - start)),
            acc == dec_val(d.take(i - start)),
        decreases n - i,
    {
        let c = st.get_char(i);
        proof {
            assert(d[i - start] == s@[i as int]);
            assert(d.take(i - start + 1).drop_last() =~= d.take(i - start));
            assert(d.take(i - start + 1).last() == d[i - start]);
        }
        let dv = match digit_of(c) {
            None => {
                assert(!is_digit(d[i - start]));
                return Err(HarpoonError::InvalidIndex);
            },
            Some(dv) => dv,
        };
        let next = match acc.checked_mul(10) {
            None => {
                proof {
                    assert(dec_val(d.take(i - start + 1)) == dec_val(d.take(i - start)) * 10
                        + digit_val(d[i - start]));
                    lemma_dec_val_prefix(d, i - start + 1);
                    assert(dec_val(d) > usize::MAX);
                }
                return Err(HarpoonError::InvalidIndex);
            },
            Some(m) => match m.checked_add(dv) {
                None => {
                    proof {
                        assert(dec_val(d.take(i - start + 1)) == dec_val(d.take(i - start)) * 10
                            + digit_val(d[i - start]));
                        lemma_dec_val_prefix(d, i - start + 1);
                        assert(dec_val(d) > usize::MAX);
                    }
                    return Err(HarpoonError::InvalidIndex);
                },
                Some(a) => a,
            },
        };
        acc = next;
        i += 1;
    }
    proof {
        assert(d.take(n - start) =~= d);
    }
    Ok(acc)
}

/// Law: a rendered numeral denotes the number it was rendered from: its
/// characters are all digits and they parse back to the same value.
pub proof fn lemma_numeral_round_trip(n: nat)
    ensures
        all_digits(dec_str_of(n)),
        dec_val(dec_str_of(n)) == n,
    decreases n,
{
    if n < 10 {
        let s = dec_str_of(n);
        assert(s =~= seq![digit_char(n)]);
        assert(s.drop_last() =~= Seq::<char>::empty());
        assert(digit_val(digit_char(n)) == n);
        assert(dec_val(s) == dec_val(s.drop_last()) * 10 + digit_val(s.last()));
        assert(is_digit(s[0]));
    } else {
        lemma_numeral_round_trip(n / 10);
        let s = dec_str_of(n);
        assert(s.drop_last() =~= dec_str_of(n / 10));
        assert(s.last() == digit_char(n % 10));
        assert(digit_val(digit_char(n % 10)) == n % 10);
        assert(dec_val(s) == dec_val(s.drop_last()) * 10 + digit_val(s.last()));
        assert((n / 10) * 10 + n % 10 == n) by (nonlinear_arith);
        assert forall|i: int| 0 <= i < s.len() implies is_digit(s[i]) by {
            if i < s.len() - 1 {
                assert(s[i] == dec_str_of(n / 10)[i]);
            } else {
                assert(s[i] == s.last());
            }
        }
    }
}

/// The single-character string that writes the digit `d`.
fn digit_str(d: usize) -> (r: &'static str)
    requires
        d < 10,
    ensures
        r@ == seq![digit_char(d as nat)],
{
    match d {
        0 => {
            proof {
                reveal_strlit("0");
                assert("0"@ =~= seq![digit_char(0)]);
            }
            "0"
        },
        1 => {
            proof {
                reveal_strlit("1");
                assert("1"@ =~= seq![digit_char(1)]);
            }
            "1"
        },
        2 => {
            proof {
                reveal_strlit("2");
                assert("2"@ =~= seq![digit_char(2)]);
            }
            "2"
        },
        3 => {
            proof {
                reveal_strlit("3");
                assert("3"@ =~= seq![digit_char(3)]);
            }
            "3"
        },
        4 => {
            proof {
                reveal_strlit("4");
                assert("4"@ =~= seq![digit_char(4)]);
            }
            "4"
        },
        5 => {
            proof {
                reveal_strlit("5");
                assert("5"@ =~= seq![digit_char(5)]);
            }
            "5"
        },
        6 => {
            proof {
                reveal_strlit("6");
                assert("6"@ =~= seq![digit_char(6)]);
            }
            "6"
        },
        7 => {
            proof {
                reveal_strlit("7");
                assert("7"@ =~= seq![digit_char(7)]);
            }
            "7"
        },
        8 => {
            proof {
                reveal_strlit("8");
                assert("8"@ =~= seq![digit_char(8)]);
            }
            "8"
        },
        _ => {
            proof {
                reveal_strlit("9");
                assert("9"@ =~= seq![digit_char(9)]);
            }
            "9"
        },
    }
}

/// Writes `n` as a decimal numeral.
pub fn usize_string(n: usize) -> (r: String)
    ensures
        r@ == dec_str_of(n as nat),
    decreases n,
{
    if n < 10 {
        String::from_str(digit_str(n))
    } else {
        let mut s = usize_string(n / 10);
        s.append(digit_str(n % 10));
        s
    }
}

} // verus!
