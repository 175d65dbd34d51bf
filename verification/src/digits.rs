//! What rows of digits stand for, and that they are read as that, in whatever
//! way a client writes them.
use vstd::arithmetic::power::pow;
use vstd::prelude::*;
use crate::combine::{many1, more, run_ends};
use crate::grammar;
use crate::hex::{
    digit_value, hex_number, is_hex, lower_digit_value, lower_hex, lower_hex_byte, lower_hex_bytes,
    lower_hex_number, lower_hex_starts,
};
use crate::laws::{ends_bytes, ends_number};
use crate::lists::all_digits;
use crate::outcome::Parsed;

verus! {

/// `digits` are hexadecimal digits, and stand for the number `n`.
pub open spec fn spells(digits: Seq<u8>, n: nat) -> bool {
    all_digits(digits) && hex_number(digits) == n
}

/// `digits` are two hexadecimal digits for each byte of `bytes`, and stand for it.
pub open spec fn spells_bytes(digits: Seq<u8>, bytes: Seq<u8>) -> bool {
    &&& digits.len() == 2 * bytes.len()
    &&& forall|j: int|
        0 <= j < bytes.len() ==> spells(
            digits.subrange(2 * j, 2 * j + 2),
            #[trigger] bytes[j] as nat,
        )
}

/// The digits `0` to `9` count up from 0, and the letters count on from 10, in
/// either case.
pub proof fn digits_count_up(n: nat)
    ensures
        n < 10 ==> is_hex((0x30 + n) as u8) && digit_value((0x30 + n) as u8) == n,
        n < 6 ==> is_hex((0x61 + n) as u8) && digit_value((0x61 + n) as u8) == 10 + n,
        n < 6 ==> is_hex((0x41 + n) as u8) && digit_value((0x41 + n) as u8) == 10 + n,
{
}

/// A digit is below 16, and two digits with the same value are the same, but
/// that one may be the capital of the other.
pub proof fn digits_told_apart(a: u8, b: u8)
    requires
        is_hex(a),
        is_hex(b),
    ensures
        digit_value(a) < 16,
        digit_value(a) == digit_value(b) ==> a == b || a - b == 32 || b - a == 32,
{
}

/// A digit alone stands for its value.
pub proof fn number_of_one_digit(d: u8)
    ensures
        hex_number(seq![d]) == digit_value(d),
{
    assert(seq![d].drop_last() =~= seq![]);
    assert(hex_number(Seq::<u8>::empty()) == 0);
}

/// Digits in front of others count for 16 times as much with each of those.
pub proof fn number_in_parts(a: Seq<u8>, b: Seq<u8>)
    ensures
        hex_number(a + b) == hex_number(a) * pow(16, b.len()) + hex_number(b),
    decreases b.len(),
{
    reveal(pow);
    if b.len() == 0 {
        assert(a + b =~= a);
    } else {
        assert((a + b).drop_last() =~= a + b.drop_last());
        assert((a + b).last() == b.last());
        number_in_parts(a, b.drop_last());
        let x = hex_number(a) as int;
        let p = pow(16, (b.len() - 1) as nat);
        let y = hex_number(b.drop_last()) as int;
        assert(16 * (x * p + y) == x * (16 * p) + 16 * y) by (nonlinear_arith);
    }
}

/// Two digits stand for 16 times the first one and the second one.
pub proof fn two_digits(a: u8, b: u8)
    ensures
        hex_number(seq![a, b]) == 16 * digit_value(a) + digit_value(b),
{
    assert(seq![a, b].drop_last() =~= seq![a]);
    number_of_one_digit(a);
}

/// A number is read from its digits, whichever they are: capital or small, with
/// zeros in front or without.
pub proof fn number_read(digits: Seq<u8>, n: u64, rest: Seq<u8>)
    requires
        spells(digits, n as nat),
        ends_number(rest),
    ensures
        grammar::hex_value(digits + rest) == Parsed::Done(rest, n),
{
    reveal(grammar::hex_value);
    let s = digits + rest;
    let p = grammar::hex_digits();
    assert forall|j: int| 0 <= j < digits.len() implies p(#[trigger] s[j]) by {
        assert(s[j] == digits[j]);
    }
    run_ends(s, p, digits.len() as int);
    assert(s.take(digits.len() as int) =~= digits);
    assert(s.skip(digits.len() as int) =~= rest);
}

/// A number is written in digits that stand for it, with no zeros in front.
pub proof fn number_written(n: nat)
    ensures
        spells(lower_hex(n), n),
        n > 0 ==> lower_hex(n)[0] != 0x30,
{
    lower_hex_number(n);
    if n > 0 {
        lower_hex_starts(n);
    }
}

/// A byte is written in two digits that stand for it.
pub proof fn byte_written(b: u8)
    ensures
        lower_hex_byte(b).len() == 2,
        spells(lower_hex_byte(b), b as nat),
{
    lower_digit_value((b / 16) as nat);
    lower_digit_value((b % 16) as nat);
    let d = lower_hex_byte(b);
    two_digits(d[0], d[1]);
    assert(d =~= seq![d[0], d[1]]);
}

/// Bytes are written in digits that stand for them.
pub proof fn bytes_written(bytes: Seq<u8>)
    ensures
        spells_bytes(lower_hex_bytes(bytes), bytes),
    decreases bytes.len(),
{
    if bytes.len() > 0 {
        let front = bytes.drop_last();
        let digits = lower_hex_bytes(bytes);
        bytes_written(front);
        byte_written(bytes.last());
        assert forall|j: int| 0 <= j < bytes.len() implies spells(
            digits.subrange(2 * j, 2 * j + 2),
            #[trigger] bytes[j] as nat,
        ) by {
            if j < front.len() {
                assert(front[j] == bytes[j]);
                assert(digits.subrange(2 * j, 2 * j + 2) =~= lower_hex_bytes(front).subrange(
                    2 * j,
                    2 * j + 2,
                ));
            } else {
                assert(digits.subrange(2 * j, 2 * j + 2) =~= lower_hex_byte(bytes.last()));
            }
        }
    }
}

/// No byte of `digits` is a capital letter.
pub open spec fn small(digits: Seq<u8>) -> bool {
    forall|j: int| 0 <= j < digits.len() ==> !(0x41 <= #[trigger] digits[j] <= 0x5a)
}

/// Numbers and bytes are written in small letters.
pub proof fn written_small(n: nat, b: u8)
    ensures
        small(lower_hex(n)),
        small(lower_hex_byte(b)),
    decreases n,
{
    if n >= 16 {
        written_small(n / 16, b);
    }
}

/// Rows of bytes are written in small letters.
pub proof fn bytes_written_small(bytes: Seq<u8>)
    ensures
        small(lower_hex_bytes(bytes)),
    decreases bytes.len(),
{
    if bytes.len() > 0 {
        bytes_written_small(bytes.drop_last());
        written_small(0, bytes.last());
    }
}

/// A byte is read from its two digits.
pub proof fn byte_read(digits: Seq<u8>, b: u8, rest: Seq<u8>)
    requires
        digits.len() == 2,
        spells(digits, b as nat),
    ensures
        grammar::hex_byte(digits + rest) == Parsed::Done(rest, b),
{
    reveal(grammar::hex_byte);
    reveal(grammar::hex_digit);
    let s = digits + rest;
    assert(is_hex(digits[0]) && is_hex(digits[1]));
    assert(s[0] == digits[0]);
    assert(s.skip(1)[0] == digits[1]);
    assert(s.skip(1).skip(1) =~= rest);
    two_digits(digits[0], digits[1]);
    assert(digits =~= seq![digits[0], digits[1]]);
}

/// The digits of some bytes are those of the first one and those of the others.
pub(crate) proof fn first_of_bytes(digits: Seq<u8>, bytes: Seq<u8>)
    requires
        bytes.len() > 0,
        spells_bytes(digits, bytes),
    ensures
        digits.subrange(0, 2).len() == 2,
        spells(digits.subrange(0, 2), bytes[0] as nat),
        spells_bytes(digits.skip(2), bytes.skip(1)),
        digits == digits.subrange(0, 2) + digits.skip(2),
{
    let (left, others) = (digits.skip(2), bytes.skip(1));
    assert(spells(digits.subrange(0, 2), bytes[0] as nat));
    assert(digits =~= digits.subrange(0, 2) + left);
    assert forall|j: int| 0 <= j < others.len() implies spells(
        left.subrange(2 * j, 2 * j + 2),
        #[trigger] others[j] as nat,
    ) by {
        assert(others[j] == bytes[j + 1]);
        assert(left.subrange(2 * j, 2 * j + 2) =~= digits.subrange(2 * (j + 1), 2 * (j + 1) + 2));
    }
}

/// Behind a byte in hexadecimal, any number of bytes is read from their digits.
proof fn more_bytes_read(digits: Seq<u8>, bytes: Seq<u8>, rest: Seq<u8>)
    requires
        spells_bytes(digits, bytes),
        ends_bytes(rest),
    ensures
        more(digits + rest, grammar::hex_bytes()) == Parsed::Done(rest, bytes),
    decreases bytes.len(),
{
    let p = grammar::hex_bytes();
    let s = digits + rest;
    if bytes.len() == 0 {
        assert(s =~= rest);
        assert(bytes =~= seq![]);
        if rest.len() > 0 {
            reveal(grammar::hex_byte);
            reveal(grammar::hex_digit);
            assert(p(s) is Error);
        }
    } else {
        first_of_bytes(digits, bytes);
        let left = digits.skip(2) + rest;
        assert(s =~= digits.subrange(0, 2) + left);
        byte_read(digits.subrange(0, 2), bytes[0], left);
        more_bytes_read(digits.skip(2), bytes.skip(1), rest);
        assert(seq![bytes[0]] + bytes.skip(1) =~= bytes);
    }
}

/// Bytes are read from their digits, whichever they are.
pub proof fn bytes_read(digits: Seq<u8>, bytes: Seq<u8>, rest: Seq<u8>)
    requires
        bytes.len() > 0,
        spells_bytes(digits, bytes),
        ends_bytes(rest),
    ensures
        grammar::hex_byte_sequence(digits + rest) == Parsed::Done(rest, bytes),
{
    reveal(grammar::hex_byte_sequence);
    first_of_bytes(digits, bytes);
    let left = digits.skip(2) + rest;
    assert(digits + rest =~= digits.subrange(0, 2) + left);
    byte_read(digits.subrange(0, 2), bytes[0], left);
    more_bytes_read(digits.skip(2), bytes.skip(1), rest);
    assert(seq![bytes[0]] + bytes.skip(1) =~= bytes);
    assert(many1(digits + rest, grammar::hex_bytes()) == Parsed::Done(rest, bytes));
}

/// Digits that stand for some bytes stand for no others.
pub proof fn bytes_told_apart(digits: Seq<u8>, a: Seq<u8>, b: Seq<u8>)
    requires
        spells_bytes(digits, a),
        spells_bytes(digits, b),
    ensures
        a == b,
{
    assert forall|j: int| 0 <= j < a.len() implies a[j] == b[j] by {
        assert(hex_number(digits.subrange(2 * j, 2 * j + 2)) == a[j] as nat);
        assert(hex_number(digits.subrange(2 * j, 2 * j + 2)) == b[j] as nat);
    }
    assert(a =~= b);
}

} // verus!
