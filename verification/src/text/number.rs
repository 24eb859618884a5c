//! Decimal numerals.

use vstd::prelude::*;
use crate::text::chars::from_chars;

verus! {

/// The character of one decimal digit.
pub open spec fn digit(d: nat) -> char {
    ((48 + d) as u8) as char
}

/// The decimal numeral of `n`, without leading zeros.
pub open spec fn decimal(n: nat) -> Seq<char>
    decreases n,
{
    if n < 10 {
        seq![digit(n)]
    } else {
        decimal(n / 10).push(digit(n % 10))
    }
}

/// The decimal numeral of a number that may be negative.
pub open spec fn signed_decimal(n: int) -> Seq<char> {
    if n < 0 {
        seq!['-'] + decimal((-n) as nat)
    } else {
        decimal(n as nat)
    }
}

/// The decimal numeral of `n` as characters.
pub fn decimal_chars(n: u128) -> (r: Vec<char>)
    ensures
        r@ == decimal(n as nat),
    decreases n,
{
    if n < 10 {
        let mut v: Vec<char> = Vec::new();
        v.push((48 + n as u8) as char);
        v
    } else {
        let mut v = decimal_chars(n / 10);
        v.push((48 + (n % 10) as u8) as char);
        v
    }
}

/// The decimal numeral of `n`.
pub fn show_u128(n: u128) -> (r: String)
    ensures
        r@ == decimal(n as nat),
{
    let v = decimal_chars(n);
    from_chars(v.as_slice())
}

/// The decimal numeral of `n`.
pub fn show_u64(n: u64) -> (r: String)
    ensures
        r@ == decimal(n as nat),
{
    show_u128(n as u128)
}

/// The decimal numeral of `n`.
pub fn show_usize(n: usize) -> (r: String)
    ensures
        r@ == decimal(n as nat),
{
    show_u64(n as u64)
}

/// The decimal numeral of `n`, with a sign if it is negative.
pub fn show_i64(n: i64) -> (r: String)
    ensures
        r@ == signed_decimal(n as int),
{
    if n < 0 {
        let m: u128 = (-(n as i128)) as u128;
        let d = decimal_chars(m);
        let mut v: Vec<char> = Vec::new();
        v.push('-');
        crate::text::chars::push_all(&mut v, d.as_slice());
        assert(v@ == signed_decimal(n as int));
        from_chars(v.as_slice())
    } else {
        show_u64(n as u64)
    }
}

/// The number that decimal digits stand for.
pub open spec fn value_of(digits: Seq<char>) -> int
    decreases digits.len(),
{
    if digits.len() == 0 {
        0
    } else {
        value_of(digits.drop_last()) * 10 + (digits.last() as int - '0' as int)
    }
}

proof fn lemma_decimal_value(n: nat)
    ensures
        value_of(decimal(n)) == n,
        decimal(n).len() > 0,
        forall|i: int| 0 <= i < decimal(n).len() ==> '0' <= #[trigger] decimal(n)[i] <= '9',
        n > 0 ==> decimal(n)[0] != '0',
    decreases n,
{
    if n < 10 {
        assert(decimal(n).drop_last() == Seq::<char>::empty());
        assert(value_of(Seq::<char>::empty()) == 0);
    } else {
        lemma_decimal_value(n / 10);
        assert(decimal(n).drop_last() == decimal(n / 10));
    }
}

/// A numeral is made of digits, does not begin with a zero unless it is one
/// digit, and stands for the number.
pub proof fn numeral_stands_for_its_number(n: u128, r: String)
    requires
        call_ensures(show_u128, (n,), r),
    ensures
        value_of(r@) == n,
        r@.len() > 0,
        forall|i: int| 0 <= i < r@.len() ==> '0' <= #[trigger] r@[i] <= '9',
        n > 0 ==> r@[0] != '0',
        n == 0 ==> r@ == seq!['0'],
{
    lemma_decimal_value(n as nat);
}

/// A numeral with a sign has one exactly where the number is negative.
pub proof fn signed_numeral_stands_for_its_number(n: i64, r: String)
    requires
        call_ensures(show_i64, (n,), r),
    ensures
        n >= 0 ==> value_of(r@) == n && r@[0] != '-',
        n < 0 ==> r@.len() > 1 && r@[0] == '-' && value_of(r@.skip(1)) == -n,
{
    if n < 0 {
        lemma_decimal_value((-n) as nat);
        assert(signed_decimal(n as int).skip(1) == decimal((-n) as nat));
    } else {
        lemma_decimal_value(n as nat);
    }
}

/// All forms of one number have the same numeral.
pub proof fn numerals_agree(n: u64, a: String, b: String, c: String)
    requires
        call_ensures(show_u64, (n,), a),
        call_ensures(show_u128, (n as u128,), b),
        n <= usize::MAX,
        call_ensures(show_usize, (n as usize,), c),
    ensures
        a@ == b@,
        a@ == c@,
{
}

} // verus!
