//! Decimal rendering of the numeric quantities that appear in the report.

use vstd::prelude::*;
use vstd::string::StringExecFns;

verus! {

/// The character for one decimal digit.
pub open spec fn digit_char(d: int) -> char {
    if d == 0 {
        '0'
    } else if d == 1 {
        '1'
    } else if d == 2 {
        '2'
    } else if d == 3 {
        '3'
    } else if d == 4 {
        '4'
    } else if d == 5 {
        '5'
    } else if d == 6 {
        '6'
    } else if d == 7 {
        '7'
    } else if d == 8 {
        '8'
    } else {
        '9'
    }
}

/// The decimal rendering of a natural number, most significant digit first,
/// without leading zeroes (except for the number zero itself).
pub open spec fn dec_str(n: nat) -> Seq<char>
    decreases n,
{
    if n < 10 {
        seq![digit_char(n as int)]
    } else {
        dec_str(n / 10) + seq![digit_char((n % 10) as int)]
    }
}

/// The decimal rendering of an integer: a minus sign in front of the
/// magnitude when the value is negative.
pub open spec fn int_str(v: int) -> Seq<char> {
    if v < 0 {
        seq!['-'] + dec_str((-v) as nat)
    } else {
        dec_str(v as nat)
    }
}

fn digit_str(d: u128) -> (s: &'static str)
    requires
        d < 10,
    ensures
        s@ == seq![digit_char(d as int)],
{
    let s: &'static str = if d == 0 {
        "0"
    } else if d == 1 {
        "1"
    } else if d == 2 {
        "2"
    } else if d == 3 {
        "3"
    } else if d == 4 {
        "4"
    } else if d == 5 {
        "5"
    } else if d == 6 {
        "6"
    } else if d == 7 {
        "7"
    } else if d == 8 {
        "8"
    } else {
        "9"
    };
    proof {
        reveal_strlit("0");
        reveal_strlit("1");
        reveal_strlit("2");
        reveal_strlit("3");
        reveal_strlit("4");
        reveal_strlit("5");
        reveal_strlit("6");
        reveal_strlit("7");
        reveal_strlit("8");
        reveal_strlit("9");
        assert(s@ =~= seq![digit_char(d as int)]);
    }
    s
}

/// Appends the decimal rendering of `n` to `s`.
pub fn push_u128_dec(s: &mut String, n: u128)
    ensures
        final(s)@ == old(s)@ + dec_str(n as nat),
    decreases n,
{
    if n >= 10 {
        push_u128_dec(s, n / 10);
        s.append(digit_str(n % 10));
        proof {
            assert(s@ =~= old(s)@ + dec_str(n as nat));
        }
    } else {
        s.append(digit_str(n));
        proof {
            assert(s@ =~= old(s)@ + dec_str(n as nat));
        }
    }
}

/// The decimal rendering of a `u64` as an owned string.
pub fn u64_string(n: u64) -> (s: String)
    ensures
        s@ == dec_str(n as nat),
{
    let mut s = String::new();
    push_u128_dec(&mut s, n as u128);
    proof {
        assert(s@ =~= dec_str(n as nat));
    }
    s
}

/// The decimal rendering of a `usize` as an owned string.
pub fn usize_string(n: usize) -> (s: String)
    ensures
        s@ == dec_str(n as nat),
{
    let mut s = String::new();
    push_u128_dec(&mut s, n as u128);
    proof {
        assert(s@ =~= dec_str(n as nat));
    }
    s
}

/// The decimal rendering of an `i64`, with a leading minus sign when negative.
pub fn i64_string(n: i64) -> (s: String)
    ensures
        s@ == int_str(n as int),
{
    let mut s = String::new();
    if n < 0 {
        s.append("-");
        let m: u128 = (-(n as i128)) as u128;
        push_u128_dec(&mut s, m);
        proof {
            reveal_strlit("-");
            assert(s@ =~= int_str(n as int));
        }
    } else {
        push_u128_dec(&mut s, n as u128);
        proof {
            assert(s@ =~= int_str(n as int));
        }
    }
    s
}

/// The magnitude of `num / den` in hundredths of the unit: `|num| / den`
/// scaled by 10000 and rounded to the nearest whole hundredth, halves
/// rounding up.
pub open spec fn ratio_magnitude_hundredths(num: int, den: int) -> int
    recommends
        den > 0,
{
    let m = if num < 0 {
        -num
    } else {
        num
    };
    (20000 * m + den) / (2 * den)
}

/// The rendering of `num / den` as a percentage with two decimal places:
/// the magnitude rounded to hundredths, with a minus sign taken from the
/// exact ratio, so a negative ratio keeps its sign even where its magnitude
/// rounds to zero (`-0.00%`).
pub open spec fn ratio_percent_str(num: int, den: int) -> Seq<char> {
    let m = ratio_magnitude_hundredths(num, den);
    (if num < 0 {
        seq!['-']
    } else {
        Seq::<char>::empty()
    }) + dec_str((m / 100) as nat) + seq!['.'] + seq![
        digit_char(m / 10 % 10),
        digit_char(m % 10),
    ] + seq!['%']
}

proof fn lemma_dec_str_leading_digit(n: nat)
    ensures
        dec_str(n).len() >= 1,
        dec_str(n)[0] != '-',
    decreases n,
{
    if n >= 10 {
        lemma_dec_str_leading_digit(n / 10);
    }
}

proof fn lemma_ratio_magnitude_nonneg_range(num: int, den: int)
    requires
        den > 0,
        0 <= num <= den,
    ensures
        0 <= ratio_magnitude_hundredths(num, den) <= 10000,
{
    let d2 = 2 * den;
    vstd::arithmetic::div_mod::lemma_div_is_ordered(0, 20000 * num + den, d2);
    vstd::arithmetic::div_mod::lemma_div_is_ordered(20000 * num + den, 20001 * den, d2);
    vstd::arithmetic::div_mod::lemma_fundamental_div_mod_converse(20001 * den, d2, 10000, den);
}

/// Law: as long as a strategy's output is no larger than the document, its
/// size-reduction percentage lies in `[0, 100]` and its cell carries no
/// sign. Any expanding strategy's cell is rendered negative — the sign
/// comes from the exact ratio, so it shows even where the magnitude rounds
/// to zero hundredths — and the magnitude is never clamped: from half a
/// hundredth of a percent of expansion on it is non-zero.
pub proof fn lemma_reduction_percent_range(out_size: int, doc_size: int)
    requires
        doc_size > 0,
        out_size >= 0,
    ensures
        out_size <= doc_size ==> 0 <= ratio_magnitude_hundredths(
            doc_size - out_size,
            doc_size,
        ) <= 10000,
        out_size <= doc_size ==> ratio_percent_str(doc_size - out_size, doc_size)[0] != '-',
        out_size > doc_size ==> ratio_percent_str(doc_size - out_size, doc_size)[0] == '-',
        out_size > doc_size && 20000 * (out_size - doc_size) >= doc_size
            ==> ratio_magnitude_hundredths(doc_size - out_size, doc_size) >= 1,
{
    let num = doc_size - out_size;
    let m = ratio_magnitude_hundredths(num, doc_size);
    lemma_dec_str_leading_digit((m / 100) as nat);
    if out_size <= doc_size {
        lemma_ratio_magnitude_nonneg_range(num, doc_size);
        assert(ratio_percent_str(num, doc_size)[0] == dec_str((m / 100) as nat)[0]);
    } else {
        assert(ratio_percent_str(num, doc_size)[0] == '-');
        if 20000 * (out_size - doc_size) >= doc_size {
            let d2 = 2 * doc_size;
            vstd::arithmetic::div_mod::lemma_div_is_ordered(
                d2,
                20000 * (out_size - doc_size) + doc_size,
                d2,
            );
            vstd::arithmetic::div_mod::lemma_fundamental_div_mod_converse(d2, d2, 1, 0);
        }
    }
}

/// Renders `num / den` as a percentage with two decimal places, the sign
/// taken from the exact ratio as [`ratio_percent_str`] states.
pub fn ratio_percent_string(num: i128, den: usize) -> (s: String)
    requires
        den > 0,
        -0x400000000000000000 <= num <= 0x400000000000000000,
    ensures
        s@ == ratio_percent_str(num as int, den as int),
{
    let mut s = String::new();
    let m: u128 = if num < 0 {
        s.append("-");
        (-num) as u128
    } else {
        num as u128
    };
    let d: u128 = den as u128;
    let q: u128 = (20000 * m + d) / (2 * d);
    push_u128_dec(&mut s, q / 100);
    s.append(".");
    s.append(digit_str(q / 10 % 10));
    s.append(digit_str(q % 10));
    s.append("%");
    proof {
        reveal_strlit("-");
        reveal_strlit(".");
        reveal_strlit("%");
        assert(s@ =~= ratio_percent_str(num as int, den as int));
    }
    s
}

} // verus!
