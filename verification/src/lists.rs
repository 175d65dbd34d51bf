//! What the lists of a breakpoint can be read from.
use vstd::prelude::*;
use vstd::utf8::encode_utf8;
use crate::combine::{many1, more, run, run_holds, tag, tag_found, take};
use crate::defined::{numbers_fit, parse_command_list_settled, parse_condition_list_settled};
use crate::grammar;
use crate::hex::{hex_number, is_hex};
use crate::outcome::Parsed;

verus! {

/// At least one hexadecimal digit, and nothing else.
pub open spec fn all_digits(digits: Seq<u8>) -> bool {
    digits.len() > 0 && forall|j: int| 0 <= j < digits.len() ==> is_hex(#[trigger] digits[j])
}

/// `digits` give the length of `e`.  A machine that counts in fewer than 64 bits
/// takes the low bits of the number for the length.
pub open spec fn gives_length(digits: Seq<u8>, e: Seq<u8>) -> bool {
    &&& all_digits(digits)
    &&& hex_number(digits) <= u64::MAX
    &&& e.len() == (hex_number(digits) as u64) as usize
    &&& hex_number(digits) <= usize::MAX ==> e.len() == hex_number(digits)
}

/// An expression behind the digits of its length.
pub open spec fn measured(digits: Seq<u8>, e: Seq<u8>) -> Seq<u8> {
    encode_utf8("X"@) + (digits + (encode_utf8(","@) + e))
}

/// Expressions one behind the other, each behind the digits of its length.
pub open spec fn all_measured(lengths: Seq<Seq<u8>>, list: Seq<Seq<u8>>) -> Seq<u8>
    decreases list.len(),
{
    if list.len() == 0 {
        seq![]
    } else {
        measured(lengths[0], list[0]) + all_measured(lengths.skip(1), list.skip(1))
    }
}

/// `lengths` give the lengths of the expressions of a list.
pub open spec fn give_lengths(lengths: Seq<Seq<u8>>, list: Seq<Seq<u8>>) -> bool {
    &&& lengths.len() == list.len()
    &&& forall|j: int| 0 <= j < list.len() ==> gives_length(#[trigger] lengths[j], list[j])
}

/// What a number was read from: its digits.
pub(crate) proof fn number_shape(s: Seq<u8>, rest: Seq<u8>, n: u64) -> (digits: Seq<u8>)
    requires
        grammar::hex_value(s) == Parsed::Done(rest, n),
    ensures
        s == digits + rest,
        all_digits(digits),
        hex_number(digits) == n,
{
    reveal(grammar::hex_value);
    let p = grammar::hex_digits();
    let k = run(s, p) as int;
    run_holds(s, p);
    let digits = s.take(k);
    assert(s =~= digits + s.skip(k));
    assert forall|j: int| 0 <= j < digits.len() implies is_hex(#[trigger] digits[j]) by {
        assert(p(s[j]));
    }
    digits
}

/// What an expression was read from.
proof fn expression_shape(s: Seq<u8>, rest: Seq<u8>, e: Seq<u8>) -> (digits: Seq<u8>)
    requires
        grammar::parse_cond_or_command_expression(s) == Parsed::Done(rest, e),
    ensures
        s == measured(digits, e) + rest,
        gives_length(digits, e),
{
    reveal(grammar::parse_cond_or_command_expression);
    reveal(take);
    tag_found(s, "X"@);
    let s1 = tag(s, "X"@)->Done_0;
    let (s2, len) = (grammar::hex_value(s1)->Done_0, grammar::hex_value(s1)->Done_1);
    let digits = number_shape(s1, s2, len);
    tag_found(s2, ","@);
    let s3 = tag(s2, ","@)->Done_0;
    assert(s3 =~= e + rest);
    assert(s =~= measured(digits, e) + rest);
    digits
}

/// What a row of expressions was read from.
proof fn row_shape(s: Seq<u8>, rest: Seq<u8>, list: Seq<Seq<u8>>) -> (lengths: Seq<Seq<u8>>)
    requires
        more(s, grammar::expressions()) == Parsed::Done(rest, list),
    ensures
        s == all_measured(lengths, list) + rest,
        give_lengths(lengths, list),
    decreases s.len(),
{
    let p = grammar::expressions();
    if list.len() == 0 {
        assert(s == rest) by {
            if s.len() > 0 {
                if let Parsed::Done(left, e) = p(s) {
                    if left.len() < s.len() {
                        assert(more(left, p) is Done);
                        assert((seq![e] + more(left, p)->Done_1).len() > 0);
                    }
                }
            }
        }
        let none: Seq<Seq<u8>> = seq![];
        assert(s =~= all_measured(none, list) + rest);
        none
    } else {
        let (left, e) = (p(s)->Done_0, p(s)->Done_1);
        let items = more(left, p)->Done_1;
        assert(list == seq![e] + items);
        let digits = expression_shape(s, left, e);
        let others = row_shape(left, rest, items);
        one_more(digits, e, others, items);
        assert(s =~= all_measured(seq![digits] + others, list) + rest);
        seq![digits] + others
    }
}

/// One more expression in front of a row of them.
proof fn one_more(digits: Seq<u8>, e: Seq<u8>, lengths: Seq<Seq<u8>>, list: Seq<Seq<u8>>)
    requires
        gives_length(digits, e),
        give_lengths(lengths, list),
    ensures
        give_lengths(seq![digits] + lengths, seq![e] + list),
        all_measured(seq![digits] + lengths, seq![e] + list) == measured(digits, e) + all_measured(
            lengths,
            list,
        ),
{
    let (a, b) = (seq![digits] + lengths, seq![e] + list);
    assert(a.skip(1) =~= lengths);
    assert(b.skip(1) =~= list);
    assert forall|j: int| 0 <= j < b.len() implies gives_length(#[trigger] a[j], b[j]) by {
        if j > 0 {
            assert(a[j] == lengths[j - 1]);
            assert(b[j] == list[j - 1]);
        }
    }
}

/// What at least one expression was read from.
pub(crate) proof fn list_shape(s: Seq<u8>, rest: Seq<u8>, list: Seq<Seq<u8>>) -> (lengths: Seq<
    Seq<u8>,
>)
    requires
        many1(s, grammar::expressions()) == Parsed::Done(rest, list),
    ensures
        s == all_measured(lengths, list) + rest,
        give_lengths(lengths, list),
        list.len() > 0,
{
    let p = grammar::expressions();
    let (left, e) = (p(s)->Done_0, p(s)->Done_1);
    let items = more(left, p)->Done_1;
    assert(list == seq![e] + items);
    let digits = expression_shape(s, left, e);
    let others = row_shape(left, rest, items);
    one_more(digits, e, others, items);
    assert(s =~= all_measured(seq![digits] + others, list) + rest);
    seq![digits] + others
}

/// Where all numbers fit, looking for conditions never fails.  Where none are
/// found, nothing is taken from the input.  Where some are found, there is at
/// least one, and the input is a `;`, the conditions, each behind its length,
/// and what is left over.
pub proof fn conditions_read(s: Seq<u8>)
    requires
        numbers_fit(s),
    ensures
        match grammar::maybe_condition_list(s) {
            Parsed::Done(rest, None) => rest == s,
            Parsed::Done(rest, Some(list)) => list.len() > 0 && exists|lengths: Seq<Seq<u8>>|
                #[trigger] give_lengths(lengths, list) && s == encode_utf8(";"@) + all_measured(
                    lengths,
                    list,
                ) + rest,
            _ => false,
        },
{
    reveal(grammar::maybe_condition_list);
    reveal(grammar::parse_condition_list);
    parse_condition_list_settled(s);
    if let Parsed::Done(rest, list) = grammar::parse_condition_list(s) {
        tag_found(s, ";"@);
        let s1 = tag(s, ";"@)->Done_0;
        let lengths = list_shape(s1, rest, list);
        assert(s =~= encode_utf8(";"@) + all_measured(lengths, list) + rest);
    }
}

/// `flag` is a persistence flag with a `,` behind it, or nothing.
pub open spec fn is_flag(flag: Seq<u8>) -> bool {
    flag.len() == 0 || exists|digits: Seq<u8>| #[trigger]
        all_digits(digits) && flag == digits + encode_utf8(","@)
}

/// Where all numbers fit, there is an outcome for looking for commands.  Where
/// none are found, nothing is taken from the input.  Where some are found, there
/// is at least one, and the input is `;cmds`, perhaps a flag, the commands, each
/// behind its length, and what is left over.
pub proof fn commands_read(s: Seq<u8>)
    requires
        numbers_fit(s),
    ensures
        match grammar::maybe_command_list(s) {
            Parsed::Done(rest, None) => rest == s,
            Parsed::Done(rest, Some(list)) => list.len() > 0 && exists|
                flag: Seq<u8>,
                lengths: Seq<Seq<u8>>,
            | #[trigger]
                is_flag(flag) && #[trigger] give_lengths(lengths, list) && s == encode_utf8(
                    ";cmds"@,
                ) + flag + all_measured(lengths, list) + rest,
            Parsed::Error(_) => true,
            _ => false,
        },
{
    reveal(grammar::maybe_command_list);
    reveal(grammar::parse_command_list);
    parse_command_list_settled(s);
    if let Parsed::Done(rest, list) = grammar::parse_command_list(s) {
        tag_found(s, ";cmds"@);
        let s1 = tag(s, ";cmds"@)->Done_0;
        let (flag, lengths) = command_shape(s1, rest, list);
        assert(s =~= encode_utf8(";cmds"@) + flag + all_measured(lengths, list) + rest);
    }
}

/// What commands were read from, behind `;cmds`.
proof fn command_shape(s: Seq<u8>, rest: Seq<u8>, list: Seq<Seq<u8>>) -> (r: (
    Seq<u8>,
    Seq<Seq<u8>>,
))
    requires
        grammar::command_expressions(s) == Parsed::Done(rest, list),
    ensures
        s == r.0 + all_measured(r.1, list) + rest,
        is_flag(r.0),
        give_lengths(r.1, list),
        list.len() > 0,
{
    reveal(grammar::command_expressions);
    if grammar::persistent_expressions(s) is Done {
        reveal(grammar::persistent_expressions);
        let (s1, n) = (grammar::hex_value(s)->Done_0, grammar::hex_value(s)->Done_1);
        let digits = number_shape(s, s1, n);
        tag_found(s1, ","@);
        let s2 = tag(s1, ","@)->Done_0;
        let lengths = list_shape(s2, rest, list);
        let flag = digits + encode_utf8(","@);
        assert(all_digits(digits));
        assert(s =~= flag + all_measured(lengths, list) + rest);
        (flag, lengths)
    } else {
        let lengths = list_shape(s, rest, list);
        let flag = Seq::<u8>::empty();
        assert(s =~= flag + all_measured(lengths, list) + rest);
        (flag, lengths)
    }
}

} // verus!
