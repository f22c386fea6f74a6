//! Decimal formatting of machine integers, specified exactly: the emitted
//! characters are the decimal digits of the number, most significant first.

use vstd::prelude::*;
use vstd::string::StringExecFns;

verus! {

/// The character for one decimal digit.
pub open spec fn digit_char(d: int) -> char {
    if d == 0 {
        '0'
    } else if d == 1 {
        '1'
    } else if d == 2 {
        '2'
    } else if d == 3 {
        '3'
    } else if d == 4 {
        '4'
    } else if d == 5 {
        '5'
    } else if d == 6 {
        '6'
    } else if d == 7 {
        '7'
    } else if d == 8 {
        '8'
    } else {
        '9'
    }
}

/// The decimal digits of a nonnegative number, most significant first.
pub open spec fn dec_digits(n: int) -> Seq<char>
    decreases n,
{
    if n < 10 {
        seq![digit_char(n)]
    } else {
        dec_digits(n / 10).push(digit_char(n % 10))
    }
}

/// The decimal spelling of a possibly negative number.
pub open spec fn dec_int(n: int) -> Seq<char> {
    if n < 0 {
        seq!['-'] + dec_digits(-n)
    } else {
        dec_digits(n)
    }
}

/// The decimal digit character for an executable digit.
fn digit_char_exec(d: usize) -> (c: char)
    requires
        d < 10,
    ensures
        c == digit_char(d as int),
{
    if d == 0 {
        '0'
    } else if d == 1 {
        '1'
    } else if d == 2 {
        '2'
    } else if d == 3 {
        '3'
    } else if d == 4 {
        '4'
    } else if d == 5 {
        '5'
    } else if d == 6 {
        '6'
    } else if d == 7 {
        '7'
    } else if d == 8 {
        '8'
    } else {
        '9'
    }
}

/// Writes `n` in decimal.
#[verifier::loop_isolation(false)]
pub fn usize_to_string(n: usize) -> (s: String)
    ensures
        s@ == dec_digits(n as int),
{
    let mut rev: Vec<char> = Vec::new();
    let mut m = n;
    loop
        invariant
            ({
                let done = seq![digit_char(m as int)] + rev@.reverse();
                m < 10 ==> dec_digits(n as int) == done
            }),
            ({
                let partial = dec_digits(m as int) + rev@.reverse();
                m >= 10 ==> dec_digits(n as int) == partial
            }),
        decreases m,
    {
        let d = m % 10;
        let c = digit_char_exec(d);
        let ghost rev0 = rev@;
        rev.push(c);
        proof {
            assert(rev@.reverse() =~= seq![c] + rev0.reverse());
        }
        if m < 10 {
            break ;
        }
        proof {
            assert(dec_digits(m as int) == dec_digits(m as int / 10).push(
                digit_char(m as int % 10),
            ));
            assert(dec_digits(m as int / 10).push(digit_char(m as int % 10)) + rev0.reverse()
                =~= dec_digits(m as int / 10) + (seq![digit_char(m as int % 10)]
                + rev0.reverse()));
        }
        m = m / 10;
        proof {
            if m < 10 {
                assert(dec_digits(n as int) == seq![digit_char(m as int)] + rev@.reverse());
            }
        }
    }
    let mut s = String::new();
    let len = rev.len();
    let mut i: usize = 0;
    while i < len
        invariant
            i <= len,
            len == rev@.len(),
            s@ == rev@.reverse().take(i as int),
        decreases len - i,
    {
        let c = rev[len - 1 - i];
        crate::tokeniser::push_char(&mut s, c);
        proof {
            assert(rev@.reverse()[i as int] == rev@[len - 1 - i]);
            assert(s@ =~= rev@.reverse().take(i as int + 1));
        }
        i += 1;
    }
    proof {
        assert(rev@.reverse().take(len as int) =~= rev@.reverse());
    }
    s
}

/// Writes `n` in decimal, with a leading minus sign when negative.
pub fn isize_to_string(n: isize) -> (s: String)
    ensures
        s@ == dec_int(n as int),
{
    if n >= 0 {
        usize_to_string(n as usize)
    } else {
        let wide: i128 = n as i128;
        let mag: usize = (-wide) as usize;
        proof {
            assert(mag as int == -(n as int));
        }
        let mut s = String::new();
        crate::tokeniser::push_char(&mut s, '-');
        let digits = usize_to_string(mag);
        s.append(digits.as_str());
        proof {
            assert(s@ =~= seq!['-'] + dec_digits(-(n as int)));
        }
        s
    }
}

} // verus!
