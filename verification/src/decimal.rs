//! Decimal rendering of machine integers, the building block of every
//! textual rendering in this crate that has to show a number.
use vstd::prelude::*;
use vstd::string::*;

verus! {

/// The decimal digit character for one digit value.
pub open spec fn dec_digit(d: int) -> char {
    if d == 0 {
        '0'
    } else if d == 1 {
        '1'
    } else if d == 2 {
        '2'
    } else if d == 3 {
        '3'
    } else if d == 4 {
        '4'
    } else if d == 5 {
        '5'
    } else if d == 6 {
        '6'
    } else if d == 7 {
        '7'
    } else if d == 8 {
        '8'
    } else {
        '9'
    }
}

/// The decimal rendering of a natural number, most significant digit first,
/// with no leading zeroes (and `0` rendered as one digit).
pub open spec fn dec_nat(n: nat) -> Seq<char>
    decreases n,
{
    if n < 10 {
        seq![dec_digit(n as int)]
    } else {
        dec_nat(n / 10).push(dec_digit((n % 10) as int))
    }
}

/// The decimal rendering of an integer: a minus sign for negative values,
/// then the magnitude's digits.
pub open spec fn dec_int(v: int) -> Seq<char> {
    if v < 0 {
        seq!['-'] + dec_nat((-v) as nat)
    } else {
        dec_nat(v as nat)
    }
}

/// The digit characters of a least-significant-first digit table, rendered
/// most significant first.
spec fn digits_chars(d: Seq<u32>) -> Seq<char>
    decreases d.len(),
{
    if d.len() == 0 {
        Seq::empty()
    } else {
        seq![dec_digit(d.last() as int)] + digits_chars(d.drop_last())
    }
}

proof fn lemma_digits_chars_index(d: Seq<u32>)
    ensures
        digits_chars(d).len() == d.len(),
        forall|k: int|
            0 <= k < d.len() ==> digits_chars(d)[k] == dec_digit(d[d.len() - 1 - k] as int),
    decreases d.len(),
{
    if d.len() > 0 {
        lemma_digits_chars_index(d.drop_last());
    }
}

/// The one-character string of one decimal digit.
fn digit_str(d: u32) -> (r: &'static str)
    requires
        d < 10,
    ensures
        r@ == seq![dec_digit(d as int)],
{
    proof {
        reveal_strlit("0");
        reveal_strlit("1");
        reveal_strlit("2");
        reveal_strlit("3");
        reveal_strlit("4");
        reveal_strlit("5");
        reveal_strlit("6");
        reveal_strlit("7");
        reveal_strlit("8");
        reveal_strlit("9");
    }
    match d {
        0 => "0",
        1 => "1",
        2 => "2",
        3 => "3",
        4 => "4",
        5 => "5",
        6 => "6",
        7 => "7",
        8 => "8",
        _ => "9",
    }
}

/// Renders a natural number in decimal, most significant digit first.
pub fn u32_to_string(n: u32) -> (r: String)
    ensures
        r@ == dec_nat(n as nat),
{
    let mut digits: Vec<u32> = Vec::new();
    let mut m: u32 = n;
    loop
        invariant_except_break
            dec_nat(n as nat) == dec_nat(m as nat) + digits_chars(digits@),
            forall|j: int| 0 <= j < digits@.len() ==> digits@[j] < 10,
        ensures
            dec_nat(n as nat) == digits_chars(digits@),
            forall|j: int| 0 <= j < digits@.len() ==> digits@[j] < 10,
        decreases m,
    {
        let ghost pre_m = m as nat;
        let ghost pre_d = digits@;
        let dig = m % 10;
        digits.push(dig);
        m = m / 10;
        proof {
            assert(digits@.drop_last() =~= pre_d);
            assert(digits_chars(digits@) == seq![dec_digit(dig as int)] + digits_chars(pre_d));
            if pre_m < 10 {
                assert(dec_nat(pre_m) == seq![dec_digit(dig as int)]);
            } else {
                assert(dec_nat(pre_m) == dec_nat(pre_m / 10).push(dec_digit((pre_m % 10) as int)));
                assert(dec_nat(pre_m / 10).push(dec_digit(dig as int)) =~= dec_nat(pre_m / 10)
                    + seq![dec_digit(dig as int)]);
            }
            assert(dec_nat(n as nat) =~= dec_nat(m as nat) + digits_chars(digits@) || m == 0);
            if m == 0 {
                assert(dec_nat(n as nat) =~= digits_chars(digits@));
            }
        }
        if m == 0 {
            break ;
        }
    }
    proof {
        lemma_digits_chars_index(digits@);
    }
    let mut s = String::new();
    let mut i: usize = digits.len();
    while i > 0
        invariant
            i <= digits@.len(),
            forall|j: int| 0 <= j < digits@.len() ==> digits@[j] < 10,
            digits_chars(digits@).len() == digits@.len(),
            forall|k: int|
                0 <= k < digits@.len() ==> digits_chars(digits@)[k] == dec_digit(
                    digits@[digits@.len() - 1 - k] as int,
                ),
            s@ =~= digits_chars(digits@).subrange(0, digits@.len() - i),
        decreases i,
    {
        i -= 1;
        s.append(digit_str(digits[i]));
        proof {
            assert(s@ =~= digits_chars(digits@).subrange(0, digits@.len() - i));
        }
    }
    proof {
        assert(s@ =~= digits_chars(digits@));
    }
    s
}

/// Renders an integer in decimal: a minus sign for negative values, then
/// the magnitude.
pub fn i32_to_string(v: i32) -> (r: String)
    ensures
        r@ == dec_int(v as int),
{
    if v >= 0 {
        u32_to_string(v as u32)
    } else {
        let mag: u32 = if v == i32::MIN {
            2147483648u32
        } else {
            (-v) as u32
        };
        proof {
            reveal_strlit("-");
        }
        let mut s = String::from_str("-");
        let t = u32_to_string(mag);
        s.append(t.as_str());
        proof {
            assert(s@ =~= seq!['-'] + dec_nat(mag as nat));
        }
        s
    }
}

} // verus!
