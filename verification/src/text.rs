//! Text building shared by the messages of the other modules.
use vstd::prelude::*;

verus! {

/// The decimal digit `d`.
pub open spec fn digit(d: u8) -> Seq<char> {
    match d {
        0 => "0"@,
        1 => "1"@,
        2 => "2"@,
        3 => "3"@,
        4 => "4"@,
        5 => "5"@,
        6 => "6"@,
        7 => "7"@,
        8 => "8"@,
        _ => "9"@,
    }
}

/// `n` in decimal, without leading zeros.
pub open spec fn decimal(n: nat) -> Seq<char>
    decreases n,
{
    if n < 10 {
        digit(n as u8)
    } else {
        decimal(n / 10) + digit((n % 10) as u8)
    }
}

fn digit_text(d: u8) -> (r: &'static str)
    requires
        d < 10,
    ensures
        r@ == digit(d),
{
    match d {
        0 => "0",
        1 => "1",
        2 => "2",
        3 => "3",
        4 => "4",
        5 => "5",
        6 => "6",
        7 => "7",
        8 => "8",
        _ => "9",
    }
}

/// Renders `n` in decimal.
pub fn decimal_text(n: u128) -> (r: String)
    ensures
        r@ == decimal(n as nat),
    decreases n,
{
    if n < 10 {
        digit_text(n as u8).to_owned()
    } else {
        decimal_text(n / 10).concat(digit_text((n % 10) as u8))
    }
}

/// `n` in decimal, with a minus sign where it is negative.
pub open spec fn signed_decimal(n: int) -> Seq<char> {
    if n < 0 {
        "-"@ + decimal((-n) as nat)
    } else {
        decimal(n as nat)
    }
}

/// Renders `n` in decimal.
pub fn signed_decimal_text(n: i64) -> (r: String)
    ensures
        r@ == signed_decimal(n as int),
{
    if n < 0 {
        "-".to_owned().concat(decimal_text((-(n as i128)) as u128).as_str())
    } else {
        decimal_text(n as u128)
    }
}

/// A digit is one character, as far from `'0'` as its value.
pub proof fn digit_is_one_character(d: u8)
    requires
        d < 10,
    ensures
        digit(d).len() == 1,
        digit(d)[0] as u32 == '0' as u32 + d,
{
    reveal_strlit("0");
    reveal_strlit("1");
    reveal_strlit("2");
    reveal_strlit("3");
    reveal_strlit("4");
    reveal_strlit("5");
    reveal_strlit("6");
    reveal_strlit("7");
    reveal_strlit("8");
    reveal_strlit("9");
}

/// The number that decimal digits stand for, the most significant first.
pub open spec fn read_decimal(digits: Seq<char>) -> int
    decreases digits.len(),
{
    if digits.len() == 0 {
        0
    } else {
        10 * read_decimal(digits.drop_last()) + (digits.last() as u32 - '0' as u32)
    }
}

/// Reading a number in decimal gives it back; it consists of digits, the first of which is zero
/// for zero alone.
pub proof fn decimal_reads_back(n: nat)
    ensures
        read_decimal(decimal(n)) == n,
        decimal(n).len() > 0,
        forall|i: int|
            0 <= i < decimal(n).len() ==> '0' as u32 <= (#[trigger] decimal(n)[i]) as u32 <= '9' as u32,
        n > 0 ==> decimal(n)[0] as u32 != '0' as u32,
        n == 0 ==> decimal(n).len() == 1,
    decreases n,
{
    if n < 10 {
        digit_is_one_character(n as u8);
        reveal_with_fuel(read_decimal, 2);
    } else {
        decimal_reads_back(n / 10);
        digit_is_one_character((n % 10) as u8);
        assert(decimal(n).drop_last() =~= decimal(n / 10));
    }
}

/// A negative number has a minus sign in front of its decimal digits, and no other number has one.
pub proof fn sign_comes_first(n: int)
    ensures
        n < 0 ==> signed_decimal(n)[0] == '-' && read_decimal(signed_decimal(n).skip(1)) == -n,
        n >= 0 ==> read_decimal(signed_decimal(n)) == n && signed_decimal(n)[0] != '-',
{
    reveal_strlit("-");
    if n < 0 {
        decimal_reads_back((-n) as nat);
        assert(signed_decimal(n).skip(1) =~= decimal((-n) as nat));
    } else {
        decimal_reads_back(n as nat);
    }
}

} // verus!
