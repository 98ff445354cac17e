//! Numbers written out in decimal, for the messages and commands that the
//! library words.

use vstd::prelude::*;

verus! {

/// The character that writes the digit `d`.
pub open spec fn digit_char(d: nat) -> char {
    (('0' as u8) + d) as u8 as char
}

/// The decimal digits of `n`, most significant first, without leading zeros.
pub open spec fn decimal_digits(n: nat) -> Seq<char>
    decreases n,
{
    if n < 10 {
        seq![digit_char(n)]
    } else {
        decimal_digits(n / 10).push(digit_char(n % 10))
    }
}

/// `n` in decimal, with a minus sign in front where it is negative.
pub open spec fn decimal(n: int) -> Seq<char> {
    if n < 0 {
        seq!['-'] + decimal_digits((-n) as nat)
    } else {
        decimal_digits(n as nat)
    }
}

/// The characters of the digits of `digits`, taken from the last to the first.
spec fn reversed(digits: Seq<u8>) -> Seq<char> {
    Seq::new(digits.len(), |i: int| digit_char(digits[digits.len() - 1 - i] as nat))
}

fn digit_text(d: u8) -> (text: &'static str)
    requires
        d < 10,
    ensures
        text@ == seq![digit_char(d as nat)],
{
    proof {
        reveal_strlit("0");
        reveal_strlit("1");
        reveal_strlit("2");
        reveal_strlit("3");
        reveal_strlit("4");
        reveal_strlit("5");
        reveal_strlit("6");
        reveal_strlit("7");
        reveal_strlit("8");
        reveal_strlit("9");
    }
    let text = match d {
        0 => "0",
        1 => "1",
        2 => "2",
        3 => "3",
        4 => "4",
        5 => "5",
        6 => "6",
        7 => "7",
        8 => "8",
        _ => "9",
    };
    assert(text@ =~= seq![digit_char(d as nat)]);
    text
}

/// std's `String::push`: the text afterwards is the text before with the one
/// character `c` added at its end. Believed of std, not proved.
#[verifier::external_body]
pub(crate) fn push_char(text: &mut String, c: char)
    ensures
        final(text)@ == old(text)@.push(c),
{
    text.push(c);
}

/// Appends `n` in decimal to `text`.
pub(crate) fn push_decimal(text: &mut String, n: u64)
    ensures
        final(text)@ == old(text)@ + decimal_digits(n as nat),
{
    let mut digits: Vec<u8> = Vec::new();
    let mut rest: u64 = n;
    while rest >= 10
        invariant
            decimal_digits(n as nat) == decimal_digits(rest as nat) + reversed(digits@),
            forall|i: int| 0 <= i < digits@.len() ==> digits@[i] < 10,
        decreases rest,
    {
        proof {
            let more = digits@.push((rest % 10) as u8);
            assert(reversed(more) =~= seq![digit_char((rest % 10) as nat)] + reversed(digits@));
            assert(decimal_digits(rest as nat) + reversed(digits@) =~= decimal_digits(
                (rest / 10) as nat,
            ) + reversed(more));
        }
        digits.push((rest % 10) as u8);
        rest = rest / 10;
    }
    proof {
        let more = digits@.push(rest as u8);
        assert(reversed(more) =~= decimal_digits(rest as nat) + reversed(digits@));
    }
    digits.push(rest as u8);

    let ghost start = text@;
    let mut i: usize = digits.len();
    while i > 0
        invariant
            i <= digits@.len(),
            forall|i: int| 0 <= i < digits@.len() ==> digits@[i] < 10,
            text@ == start + reversed(digits@).take(digits@.len() - i),
        decreases i,
    {
        i = i - 1;
        text.append(digit_text(digits[i]));
        assert(text@ =~= start + reversed(digits@).take(digits@.len() - i));
    }
    assert(reversed(digits@).take(digits@.len() as int) == reversed(digits@));
}

/// Appends `n` in decimal to `text`, with a minus sign where it is negative.
pub(crate) fn push_signed_decimal(text: &mut String, n: i64)
    ensures
        final(text)@ == old(text)@ + decimal(n as int),
{
    if n < 0 {
        proof {
            reveal_strlit("-");
        }
        text.append("-");
        let magnitude: u64 = (-(n + 1)) as u64 + 1;
        push_decimal(text, magnitude);
        assert(text@ =~= old(text)@ + decimal(n as int));
    } else {
        push_decimal(text, n as u64);
    }
}

} // verus!
