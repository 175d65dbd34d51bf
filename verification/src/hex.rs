//! Hexadecimal numbers, as the protocol reads and writes them.
use vstd::prelude::*;

verus! {

/// `b` is one of the digits `0` to `9`, `a` to `f` or `A` to `F`.
pub open spec fn is_hex(b: u8) -> bool {
    0x30 <= b <= 0x39 || 0x41 <= b <= 0x46 || 0x61 <= b <= 0x66
}

/// `nom::is_hex_digit` tells whether a byte is an ASCII hexadecimal digit:
/// `0` to `9`, `a` to `f` or `A` to `F`.
pub assume_specification[ nom::is_hex_digit ](chr: u8) -> (r: bool)
    ensures
        r == is_hex(chr),
;

/// The value of a hexadecimal digit.
pub open spec fn digit_value(b: u8) -> nat {
    if b <= 0x39 {
        (b - 0x30) as nat
    } else if b <= 0x46 {
        (b - 0x37) as nat
    } else {
        (b - 0x57) as nat
    }
}

/// The number that a row of hexadecimal digits stands for, the most
/// significant digit first.
pub open spec fn hex_number(digits: Seq<u8>) -> nat
    decreases digits.len(),
{
    if digits.len() == 0 {
        0
    } else {
        16 * hex_number(digits.drop_last()) + digit_value(digits.last())
    }
}

/// The lower-case hexadecimal digit with the value `n`.
pub open spec fn lower_digit(n: nat) -> u8 {
    if n < 10 {
        (0x30 + n) as u8
    } else {
        (0x57 + n) as u8
    }
}

/// The number `n` in lower-case hexadecimal, without leading zeros.
pub open spec fn lower_hex(n: nat) -> Seq<u8>
    decreases n,
{
    if n < 16 {
        seq![lower_digit(n)]
    } else {
        lower_hex(n / 16).push(lower_digit(n % 16))
    }
}

/// The byte `b` as two lower-case hexadecimal digits.
pub open spec fn lower_hex_byte(b: u8) -> Seq<u8> {
    seq![lower_digit((b / 16) as nat), lower_digit((b % 16) as nat)]
}

/// Each byte of `bytes` as two lower-case hexadecimal digits.
pub open spec fn lower_hex_bytes(bytes: Seq<u8>) -> Seq<u8>
    decreases bytes.len(),
{
    if bytes.len() == 0 {
        seq![]
    } else {
        lower_hex_bytes(bytes.drop_last()) + lower_hex_byte(bytes.last())
    }
}

/// The value of a hexadecimal digit.
pub fn value_of_digit(b: u8) -> (v: u8)
    requires
        is_hex(b),
    ensures
        v == digit_value(b),
        v < 16,
{
    if b <= 0x39 {
        b - 0x30
    } else if b <= 0x46 {
        b - 0x37
    } else {
        b - 0x57
    }
}

/// The number that a row of hexadecimal digits stands for, where it fits.
pub fn number_of_digits(digits: &[u8]) -> (v: Option<u64>)
    requires
        forall|j: int| 0 <= j < digits@.len() ==> is_hex(#[trigger] digits@[j]),
    ensures
        v is Some <==> hex_number(digits@) <= u64::MAX,
        v matches Some(n) ==> n == hex_number(digits@),
{
    let mut value: Option<u64> = Some(0);
    let mut k: usize = 0;
    assert(digits@.take(0) =~= seq![]);
    while k < digits.len()
        invariant
            k <= digits@.len(),
            forall|j: int| 0 <= j < digits@.len() ==> is_hex(#[trigger] digits@[j]),
            value is Some <==> hex_number(digits@.take(k as int)) <= u64::MAX,
            value matches Some(n) ==> n == hex_number(digits@.take(k as int)),
        decreases digits.len() - k,
    {
        let d: u8 = value_of_digit(digits[k]);
        assert(digits@.take(k + 1).drop_last() =~= digits@.take(k as int));
        assert(digits@.take(k + 1).last() == digits@[k as int]);
        value =
        match value {
            None => None,
            Some(n) => match n.checked_mul(16) {
                None => None,
                Some(m) => m.checked_add(d as u64),
            },
        };
        k += 1;
    }
    assert(digits@.take(k as int) =~= digits@);
    value
}

/// The lower-case hexadecimal digit with the value `n`.
pub fn digit_of_value(n: u8) -> (b: u8)
    requires
        n < 16,
    ensures
        b == lower_digit(n as nat),
{
    if n < 10 {
        0x30 + n
    } else {
        0x57 + n
    }
}

/// The number `n` in lower-case hexadecimal, without leading zeros.
pub fn hex_of(n: u64) -> (digits: Vec<u8>)
    ensures
        digits@ == lower_hex(n as nat),
    decreases n,
{
    if n < 16 {
        let mut digits: Vec<u8> = Vec::new();
        digits.push(digit_of_value(n as u8));
        digits
    } else {
        let mut digits: Vec<u8> = hex_of(n / 16);
        digits.push(digit_of_value((n % 16) as u8));
        digits
    }
}

/// The byte `b` as two lower-case hexadecimal digits.
pub fn hex_of_byte(b: u8) -> (digits: Vec<u8>)
    ensures
        digits@ == lower_hex_byte(b),
{
    let mut digits: Vec<u8> = Vec::new();
    digits.push(digit_of_value(b / 16));
    digits.push(digit_of_value(b % 16));
    digits
}

/// The digit for a value is a digit, with that value.
pub proof fn lower_digit_value(n: nat)
    requires
        n < 16,
    ensures
        is_hex(lower_digit(n)),
        digit_value(lower_digit(n)) == n,
{
}

/// Reading a number back from its hexadecimal digits gives the number.
pub proof fn lower_hex_number(n: nat)
    ensures
        hex_number(lower_hex(n)) == n,
        lower_hex(n).len() > 0,
        forall|j: int| 0 <= j < lower_hex(n).len() ==> is_hex(#[trigger] lower_hex(n)[j]),
    decreases n,
{
    lower_digit_value(n % 16);
    if n < 16 {
        let digits = seq![lower_digit(n)];
        assert(digits.drop_last() =~= seq![]);
        assert(hex_number(digits.drop_last()) == 0);
    } else {
        lower_hex_number(n / 16);
        assert(lower_hex(n).drop_last() =~= lower_hex(n / 16));
    }
}

/// No number but 0 starts with the digit 0.
pub proof fn lower_hex_starts(n: nat)
    requires
        n > 0,
    ensures
        lower_hex(n).len() > 0,
        lower_hex(n)[0] != 0x30,
    decreases n,
{
    if n >= 16 {
        lower_hex_starts(n / 16);
    }
}

} // verus!
