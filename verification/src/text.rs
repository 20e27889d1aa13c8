//! Decimal text and the splitting of text at colons.

use vstd::prelude::*;
use vstd::string::StringExecFns;

verus! {

pub open spec fn digit_char(digit: nat) -> char {
    if digit == 0 {
        '0'
    } else if digit == 1 {
        '1'
    } else if digit == 2 {
        '2'
    } else if digit == 3 {
        '3'
    } else if digit == 4 {
        '4'
    } else if digit == 5 {
        '5'
    } else if digit == 6 {
        '6'
    } else if digit == 7 {
        '7'
    } else if digit == 8 {
        '8'
    } else {
        '9'
    }
}

/// The decimal digits of `value`, most significant first, without leading zeros.
pub open spec fn decimal(value: nat) -> Seq<char>
    decreases value,
{
    if value < 10 {
        seq![digit_char(value)]
    } else {
        decimal(value / 10).push(digit_char(value % 10))
    }
}

fn digit_text(digit: u128) -> (r: &'static str)
    requires
        digit < 10,
    ensures
        r@ == seq![digit_char(digit as nat)],
{
    proof {
        reveal_strlit("0");
        reveal_strlit("1");
        reveal_strlit("2");
        reveal_strlit("3");
        reveal_strlit("4");
        reveal_strlit("5");
        reveal_strlit("6");
        reveal_strlit("7");
        reveal_strlit("8");
        reveal_strlit("9");
    }
    let text: &'static str = if digit == 0 {
        "0"
    } else if digit == 1 {
        "1"
    } else if digit == 2 {
        "2"
    } else if digit == 3 {
        "3"
    } else if digit == 4 {
        "4"
    } else if digit == 5 {
        "5"
    } else if digit == 6 {
        "6"
    } else if digit == 7 {
        "7"
    } else if digit == 8 {
        "8"
    } else {
        "9"
    };
    assert(text@ =~= seq![digit_char(digit as nat)]);
    text
}

/// Writes a number in decimal.
pub fn decimal_text(value: u128) -> (r: String)
    ensures
        r@ == decimal(value as nat),
    decreases value,
{
    if value < 10 {
        String::from_str(digit_text(value))
    } else {
        let mut text = decimal_text(value / 10);
        let ghost head = text@;
        text.append(digit_text(value % 10));
        assert(text@ =~= head.push(digit_char((value % 10) as nat)));
        text
    }
}

/// Joins two pieces of text.
pub fn concat(a: &str, b: &str) -> (r: String)
    ensures
        r@ == a@ + b@,
{
    let mut text = String::from_str(a);
    text.append(b);
    text
}

proof fn lemma_digit_char(a: nat, b: nat)
    requires
        a < 10,
        b < 10,
    ensures
        digit_char(a) == digit_char(b) ==> a == b,
        digit_char(a) != ':',
        digit_char(a) != 'u',
{
}

pub proof fn lemma_decimal_digits(value: nat)
    ensures
        decimal(value).len() > 0,
        !decimal(value).contains(':'),
        decimal(value)[0] != 'u',
    decreases value,
{
    if value >= 10 {
        lemma_decimal_digits(value / 10);
        lemma_digit_char(value % 10, 0);
        let head = decimal(value / 10);
        let all = decimal(value);
        assert forall|i: int| 0 <= i < all.len() implies all[i] != ':' by {
            if i < head.len() {
                assert(head[i] == all[i]);
                assert(head.contains(head[i]));
            }
        }
        assert(all[0] == head[0]);
    } else {
        lemma_digit_char(value, 0);
    }
}

/// Different numbers have different decimal texts.
pub proof fn decimal_is_injective(a: nat, b: nat)
    ensures
        decimal(a) == decimal(b) ==> a == b,
    decreases a,
{
    if decimal(a) == decimal(b) {
        lemma_decimal_digits(a);
        lemma_decimal_digits(b);
        lemma_digit_char(a % 10, b % 10);
        if a < 10 && b >= 10 {
            lemma_decimal_digits(b / 10);
            assert(decimal(b).len() > 1);
        } else if a >= 10 && b < 10 {
            lemma_decimal_digits(a / 10);
            assert(decimal(a).len() > 1);
        } else if a >= 10 {
            assert(decimal(a).last() == digit_char(a % 10));
            assert(decimal(b).last() == digit_char(b % 10));
            assert(decimal(a).drop_last() =~= decimal(a / 10));
            assert(decimal(b).drop_last() =~= decimal(b / 10));
            decimal_is_injective(a / 10, b / 10);
        } else {
            assert(decimal(a)[0] == digit_char(a));
            assert(decimal(b)[0] == digit_char(b));
            lemma_digit_char(a, b);
        }
    }
}

/// Text in front of a colon is determined by the whole when it holds none itself.
pub proof fn lemma_split_at_colon(a: Seq<char>, x: Seq<char>, b: Seq<char>, y: Seq<char>)
    requires
        !a.contains(':'),
        !b.contains(':'),
        a.push(':') + x == b.push(':') + y,
    ensures
        a == b,
        x == y,
{
    let left = a.push(':') + x;
    let right = b.push(':') + y;
    if a.len() < b.len() {
        assert(left[a.len() as int] == ':');
        assert(right[a.len() as int] == b[a.len() as int]);
        assert(b.contains(':'));
    } else if b.len() < a.len() {
        assert(right[b.len() as int] == ':');
        assert(left[b.len() as int] == a[b.len() as int]);
        assert(a.contains(':'));
    }
    assert forall|i: int| 0 <= i < a.len() implies a[i] == b[i] by {
        assert(left[i] == a[i]);
        assert(right[i] == b[i]);
    }
    assert(a =~= b);
    assert(left.len() == a.len() + 1 + x.len());
    assert(right.len() == b.len() + 1 + y.len());
    assert(x.len() == y.len());
    assert forall|i: int| 0 <= i < x.len() implies x[i] == y[i] by {
        assert(left[a.len() + 1 + i] == x[i]);
        assert(right[b.len() + 1 + i] == y[i]);
    }
    assert(x =~= y);
}

/// Decimal digits are the characters from `0` on, and a number of several digits is written as
/// the number without its last digit, followed by that digit.
pub proof fn numbers_are_written_in_decimal(value: nat, digit: nat)
    requires
        digit < 10,
    ensures
        decimal(digit) == seq![digit_char(digit)],
        digit_char(digit) as int == 48 + digit,
        value > 0 ==> decimal(10 * value + digit) == decimal(value).push(digit_char(digit)),
{
    assert((10 * value + digit) % 10 == digit);
    assert((10 * value + digit) / 10 == value);
}

} // verus!
