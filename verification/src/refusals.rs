//! What is not read, and why: where the input is refused, where it is too short,
//! and where there is no outcome.
use vstd::prelude::*;
use vstd::utf8::{encode_utf8, is_ascii_chars_encode_utf8};
use crate::combine::{many1, more, one_byte, run_ends, tag, tag_accepts, tag_refuses};
use crate::digits::{byte_read, first_of_bytes, number_read, spells, spells_bytes};
use crate::exchanges::two_numbers;
use crate::forms::z_head_read;
use crate::grammar;
use crate::hex::{hex_number, is_hex};
use crate::laws::ends_number;
use crate::lists::all_digits;
use crate::model::{CommandView, Id, QueryView, ThreadId, ZAction, ZType};
use crate::outcome::{ErrorKind, Needed, Parsed};
use crate::queries::passed_over;
use crate::requests::{
    first_byte_decides, punctuation, query_refused, tag_at_end, word_leads,
};

verus! {

/// A number needs a digit: without input one byte is asked for, and anything
/// that starts with something else is refused.
pub proof fn number_refused(s: Seq<u8>)
    requires
        ends_number(s),
    ensures
        grammar::hex_value(s) == if s.len() == 0 {
            Parsed::<u64>::Incomplete(Needed::Size(1))
        } else {
            Parsed::<u64>::Error(ErrorKind::TakeWhile1)
        },
{
    reveal(grammar::hex_value);
    run_ends(s, grammar::hex_digits(), 0);
}

/// There is no outcome for a number of more than 64 bits.
pub proof fn number_too_large(digits: Seq<u8>, rest: Seq<u8>)
    requires
        all_digits(digits),
        hex_number(digits) > u64::MAX,
        ends_number(rest),
    ensures
        grammar::hex_value(digits + rest) is Undefined,
{
    reveal(grammar::hex_value);
    let s = digits + rest;
    let p = grammar::hex_digits();
    assert forall|j: int| 0 <= j < digits.len() implies p(#[trigger] s[j]) by {
        assert(s[j] == digits[j]);
    }
    run_ends(s, p, digits.len() as int);
    assert(s.take(digits.len() as int) =~= digits);
}

/// A byte needs two digits: where the input ends too early, as many bytes are
/// asked for as there have to be, and anything else is refused.
pub proof fn byte_refused(s: Seq<u8>)
    requires
        s.len() < 2 || !is_hex(s[0]) || !is_hex(s[1]),
    ensures
        grammar::hex_byte(s) == if s.len() == 0 {
            Parsed::<u8>::Incomplete(Needed::Size(1))
        } else if s.len() == 1 && is_hex(s[0]) {
            Parsed::<u8>::Incomplete(Needed::Size(2))
        } else {
            Parsed::<u8>::Error(ErrorKind::OneOf)
        },
{
    reveal(grammar::hex_byte);
    reveal(grammar::hex_digit);
    if s.len() > 1 {
        assert(s.skip(1)[0] == s[1]);
    }
}

/// One digit is read as it is, and anything else is refused.
pub proof fn digit_read(s: Seq<u8>)
    ensures
        grammar::hex_digit(s) == if s.len() == 0 {
            Parsed::<char>::Incomplete(Needed::Size(1))
        } else if is_hex(s[0]) {
            Parsed::Done(s.skip(1), s[0] as char)
        } else {
            Parsed::<char>::Error(ErrorKind::OneOf)
        },
{
    reveal(grammar::hex_digit);
}

/// Behind some bytes, half a byte at the end of the input asks for the rest of it.
proof fn more_cut_off(h: Seq<u8>, bytes: Seq<u8>, d: u8)
    requires
        spells_bytes(h, bytes),
        is_hex(d),
        h.len() + 2 <= usize::MAX,
    ensures
        more(h + seq![d], grammar::hex_bytes()) == Parsed::<Seq<u8>>::Incomplete(
            Needed::Size((h.len() + 2) as usize),
        ),
    decreases bytes.len(),
{
    let p = grammar::hex_bytes();
    let s = h + seq![d];
    if bytes.len() == 0 {
        assert(s =~= seq![d]);
        byte_refused(s);
        assert(p(s) == Parsed::<u8>::Incomplete(Needed::Size(2)));
    } else {
        first_of_bytes(h, bytes);
        let left = h.skip(2) + seq![d];
        assert(s =~= h.subrange(0, 2) + left);
        byte_read(h.subrange(0, 2), bytes[0], left);
        more_cut_off(h.skip(2), bytes.skip(1), d);
        assert(p(s) == Parsed::Done(left, bytes[0]));
    }
}

/// Half a byte at the end of the input asks for the rest of it.
pub proof fn bytes_cut_off(h: Seq<u8>, bytes: Seq<u8>, d: u8)
    requires
        spells_bytes(h, bytes),
        is_hex(d),
        h.len() + 2 <= usize::MAX,
    ensures
        grammar::hex_byte_sequence(h + seq![d]) == Parsed::<Seq<u8>>::Incomplete(
            Needed::Size((h.len() + 2) as usize),
        ),
{
    reveal(grammar::hex_byte_sequence);
    let p = grammar::hex_bytes();
    let s = h + seq![d];
    if bytes.len() == 0 {
        assert(s =~= seq![d]);
        byte_refused(s);
        assert(p(s) == Parsed::<u8>::Incomplete(Needed::Size(2)));
    } else {
        first_of_bytes(h, bytes);
        let left = h.skip(2) + seq![d];
        assert(s =~= h.subrange(0, 2) + left);
        byte_read(h.subrange(0, 2), bytes[0], left);
        more_cut_off(h.skip(2), bytes.skip(1), d);
        assert(p(s) == Parsed::Done(left, bytes[0]));
    }
    assert(many1(s, p) is Incomplete);
}

/// Bytes need at least one byte.
pub proof fn bytes_refused(s: Seq<u8>)
    requires
        s.len() == 0 || !is_hex(s[0]) || s.len() > 1 && !is_hex(s[1]),
    ensures
        grammar::hex_byte_sequence(s) == if s.len() == 0 {
            Parsed::<Seq<u8>>::Incomplete(Needed::Size(1))
        } else {
            Parsed::<Seq<u8>>::Error(ErrorKind::Many1)
        },
{
    reveal(grammar::hex_byte_sequence);
    byte_refused(s);
    assert(grammar::hex_bytes()(s) == grammar::hex_byte(s));
}

/// An id starts with a digit or a `-`, and a thread may start with a `p`;
/// anything else is refused.
pub proof fn thread_refused(s: Seq<u8>)
    requires
        s.len() > 0 ==> !is_hex(s[0]) && s[0] != 0x2d && s[0] != 0x70,
    ensures
        grammar::parse_thread_id_element(s) == Parsed::<Id>::Error(ErrorKind::Alt),
        grammar::parse_thread_id(s) == Parsed::<ThreadId>::Error(ErrorKind::Alt),
{
    reveal_strlit("0");
    reveal_strlit("-1");
    reveal_strlit("p");
    number_refused(s);
    if s.len() > 0 {
        tag_refuses(s, "0"@);
        tag_refuses(s, "-1"@);
        tag_refuses(s, "p"@);
    } else {
        one_byte("0"@);
        is_ascii_chars_encode_utf8("-1"@);
        one_byte("p"@);
        tag_at_end("0"@);
        tag_at_end("-1"@);
        tag_at_end("p"@);
        assert(s =~= Seq::<u8>::empty());
    }
    assert(grammar::parse_thread_id_element(s) == Parsed::<Id>::Error(ErrorKind::Alt)) by {
        reveal(grammar::parse_thread_id_element);
        reveal(grammar::id_number);
    }
    reveal(grammar::parse_thread_id);
    reveal(grammar::process_and_thread);
    reveal(grammar::process_alone);
}

/// Nothing but a `z` or a `Z` is the letter of such a packet, and nothing but `0`
/// to `4` is its digit.
pub proof fn z_refused(s: Seq<u8>)
    ensures
        s.len() == 0 || s[0] != 0x5a && s[0] != 0x7a ==> grammar::parse_z_action(s) == Parsed::<
            ZAction,
        >::Error(ErrorKind::Alt),
        s.len() == 0 || s[0] < 0x30 || s[0] > 0x34 ==> grammar::parse_z_type(s) == Parsed::<
            ZType,
        >::Error(ErrorKind::Alt),
{
    reveal_strlit("z");
    reveal_strlit("Z");
    reveal_strlit("0");
    reveal_strlit("1");
    reveal_strlit("2");
    reveal_strlit("3");
    reveal_strlit("4");
    if s.len() == 0 {
        assert(s =~= Seq::<u8>::empty());
        one_byte("z"@);
        one_byte("Z"@);
        one_byte("0"@);
        one_byte("1"@);
        one_byte("2"@);
        one_byte("3"@);
        one_byte("4"@);
        tag_at_end("z"@);
        tag_at_end("Z"@);
        tag_at_end("0"@);
        tag_at_end("1"@);
        tag_at_end("2"@);
        tag_at_end("3"@);
        tag_at_end("4"@);
    } else {
        if s[0] != 0x5a && s[0] != 0x7a {
            tag_refuses(s, "z"@);
            tag_refuses(s, "Z"@);
        }
        if s[0] < 0x30 || s[0] > 0x34 {
            tag_refuses(s, "0"@);
            tag_refuses(s, "1"@);
            tag_refuses(s, "2"@);
            tag_refuses(s, "3"@);
            tag_refuses(s, "4"@);
        }
    }
    reveal(grammar::parse_z_action);
    reveal(grammar::parse_z_type);
}

/// Without data one byte is asked for, and what starts with none of the letters
/// that commands start with is refused.
pub proof fn command_refused(s: Seq<u8>)
    requires
        s.len() > 0 ==> !encode_utf8("!?DgscGHkmMpPqQrRTvXzZ"@).contains(s[0]),
    ensures
        grammar::command(s) == if s.len() == 0 {
            Parsed::<CommandView>::Incomplete(Needed::Size(1))
        } else {
            Parsed::<CommandView>::Error(ErrorKind::Alt)
        },
{
    first_byte_decides(s);
    if s.len() > 0 {
        no_letter(s[0]);
    }
}

/// A byte that is none of the letters that commands start with is not any of
/// them.
pub(crate) proof fn no_letter(b: u8)
    requires
        !encode_utf8("!?DgscGHkmMpPqQrRTvXzZ"@).contains(b),
    ensures
        b != 0x21 && b != 0x3f && b != 0x44 && b != 0x67 && b != 0x73 && b != 0x63 && b != 0x47,
        b != 0x48 && b != 0x6b && b != 0x6d && b != 0x4d && b != 0x70 && b != 0x50 && b != 0x71,
        b != 0x51 && b != 0x72 && b != 0x52 && b != 0x54 && b != 0x76 && b != 0x58 && b != 0x7a,
        b != 0x5a,
{
    let letters = "!?DgscGHkmMpPqQrRTvXzZ"@;
    reveal_strlit("!?DgscGHkmMpPqQrRTvXzZ");
    is_ascii_chars_encode_utf8(letters);
    assert forall|j: int| 0 <= j < letters.len() implies b != #[trigger] letters[j] as u8 by {
        assert(encode_utf8(letters)[j] == letters[j] as u8);
        assert(encode_utf8(letters).contains(encode_utf8(letters)[j]));
    }
    assert(letters[0] == '!' && letters[1] == '?' && letters[2] == 'D' && letters[3] == 'g');
    assert(letters[4] == 's' && letters[5] == 'c' && letters[6] == 'G' && letters[7] == 'H');
    assert(letters[8] == 'k' && letters[9] == 'm' && letters[10] == 'M' && letters[11] == 'p');
    assert(letters[12] == 'P' && letters[13] == 'q' && letters[14] == 'Q');
    assert(letters[15] == 'r' && letters[16] == 'R' && letters[17] == 'T');
    assert(letters[18] == 'v' && letters[19] == 'X');
    assert(letters[20] == 'z' && letters[21] == 'Z');
}

/// Nothing but what starts with `q` or `Q` is a query or a setting.
pub proof fn no_query(s: Seq<u8>)
    requires
        s.len() > 0,
        s[0] != 0x71 && s[0] != 0x51,
    ensures
        grammar::query(s) == Parsed::<QueryView>::Error(ErrorKind::Alt),
{
    query_refused(s);
    reveal(grammar::query);
}

/// There is no outcome for a breakpoint with something behind it that starts
/// neither with a digit, which would belong to its kind, nor with a `;`.
pub proof fn breakpoint_tail_undefined(
    da: Seq<u8>,
    addr: u64,
    dk: Seq<u8>,
    kind: u64,
    rest: Seq<u8>,
)
    requires
        spells(da, addr as nat),
        spells(dk, kind as nat),
        rest.len() > 0,
        ends_number(rest),
        rest[0] != 0x3b,
    ensures
        grammar::command(two_numbers("Z0,"@, da, ","@, dk, rest)) is Undefined,
        grammar::command(two_numbers("Z1,"@, da, ","@, dk, rest)) is Undefined,
{
    reveal_strlit("Z0,");
    reveal_strlit("Z1,");
    let soft = ZType::SoftwareBreakpoint;
    let hard = ZType::HardwareBreakpoint;
    z_head_read("Z0,"@, ZAction::Insert, soft, da, addr, dk, kind, rest);
    z_head_read("Z1,"@, ZAction::Insert, hard, da, addr, dk, kind, rest);
    reveal(grammar::parse_z_packet);
    reveal(grammar::insert_command);
    assert(grammar::parse_cond_and_command_list(rest) is Error) by {
        reveal(grammar::parse_cond_and_command_list);
        reveal(grammar::maybe_condition_list);
        reveal(grammar::parse_condition_list);
        reveal(grammar::maybe_command_list);
        reveal(grammar::parse_command_list);
        reveal_strlit(";");
        reveal_strlit(";cmds");
        tag_refuses(rest, ";"@);
        tag_refuses(rest, ";cmds"@);
    }
}

/// There is no outcome for a packet of which the first number is of more than 64
/// bits.
pub proof fn large_numbers_undefined(digits: Seq<u8>, rest: Seq<u8>)
    requires
        all_digits(digits),
        hex_number(digits) > u64::MAX,
        ends_number(rest),
    ensures
        grammar::command(encode_utf8("p"@) + (digits + rest)) is Undefined,
        grammar::command(encode_utf8("P"@) + (digits + rest)) is Undefined,
        grammar::command(encode_utf8("m"@) + (digits + rest)) is Undefined,
        grammar::command(encode_utf8("D;"@) + (digits + rest)) is Undefined,
        grammar::command(encode_utf8("vKill;"@) + (digits + rest)) is Undefined,
{
    let s1 = digits + rest;
    number_too_large(digits, rest);
    reveal_strlit("p");
    reveal_strlit("P");
    reveal_strlit("m");
    reveal_strlit("D;");
    reveal_strlit("vKill;");
    reveal_strlit("vCtrlC");
    word_leads("p"@, s1);
    word_leads("P"@, s1);
    word_leads("m"@, s1);
    word_leads("D;"@, s1);
    word_leads("vKill;"@, s1);
    passed_over("vKill;"@, s1, "vCtrlC"@, 1);
    reveal(grammar::read_register);
    reveal(grammar::write_register);
    reveal(grammar::read_memory);
    reveal(grammar::parse_d_packet);
    reveal(grammar::detached_process);
    reveal(grammar::v_command);
    reveal(grammar::killed_process);
}

/// A checksum is two bytes: fewer are not enough, and two that are neither two
/// digits nor a plus sign and a digit are refused.
pub proof fn checksum_refused(s: Seq<u8>)
    requires
        s.len() < 2 || !is_hex(s[1]) || !is_hex(s[0]) && s[0] != 0x2b,
    ensures
        grammar::checksum(s) == if s.len() < 2 {
            Parsed::<u8>::Incomplete(Needed::Size(2))
        } else {
            Parsed::<u8>::Error(ErrorKind::MapRes)
        },
{
    reveal(grammar::checksum);
}

/// A text of which only the front part is there asks for as many bytes as it has,
/// and an input that differs from it is refused.
pub proof fn text_refused(s: Seq<u8>, t: Seq<char>)
    requires
        !encode_utf8(t).is_prefix_of(s),
    ensures
        tag(s, t) == if s.is_prefix_of(encode_utf8(t)) {
            Parsed::<()>::Incomplete(Needed::Size(encode_utf8(t).len() as usize))
        } else {
            Parsed::<()>::Error(ErrorKind::Tag)
        },
{
    reveal(tag);
}

/// A request to read memory that ends behind its address, or behind the `,`, asks
/// for one more byte.  One to write memory is refused there: a packet is whole.
pub proof fn memory_cut_off(da: Seq<u8>, address: u64)
    requires
        spells(da, address as nat),
        da.len() + 3 <= usize::MAX,
    ensures
        grammar::read_memory(encode_utf8("m"@) + da) == Parsed::<(u64, u64)>::Incomplete(
            Needed::Size((da.len() + 2) as usize),
        ),
        grammar::read_memory(encode_utf8("m"@) + (da + encode_utf8(","@))) == Parsed::<
            (u64, u64),
        >::Incomplete(Needed::Size((da.len() + 3) as usize)),
        grammar::write_memory(encode_utf8("M"@) + da) == Parsed::<(u64, u64, Seq<u8>)>::Error(
            ErrorKind::Complete,
        ),
        grammar::write_memory_binary(encode_utf8("X"@) + da) == Parsed::<
            (u64, u64, Seq<u8>),
        >::Error(ErrorKind::Complete),
{
    let none = Seq::<u8>::empty();
    let comma = encode_utf8(","@);
    punctuation();
    reveal_strlit("m");
    reveal_strlit("M");
    reveal_strlit("X");
    one_byte("m"@);
    one_byte("M"@);
    one_byte("X"@);
    assert(da + none =~= da);
    assert(comma + none =~= comma);
    number_read(da, address, none);
    number_read(da, address, comma);
    number_refused(none);
    text_refused(none, ","@);
    assert(none.is_prefix_of(comma));
    tag_accepts(","@, none);
    tag_accepts("m"@, da);
    tag_accepts("m"@, da + comma);
    tag_accepts("M"@, da);
    tag_accepts("X"@, da);
    reveal(grammar::read_memory);
    reveal(grammar::write_memory);
    reveal(grammar::write_memory_binary);
    reveal(grammar::memory_write);
}

} // verus!
