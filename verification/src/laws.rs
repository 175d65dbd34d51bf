//! What holds of the protocol engine as a whole.
use vstd::prelude::*;
use vstd::utf8::{encode_utf8, is_ascii_chars, is_ascii_chars_encode_utf8};
use vstd::arithmetic::power::{lemma_pow_increases, pow};
use crate::combine::{
    free_of, is_not, more, one_byte, run, run_ends, run_holds, tag, tag_accepts, tag_refuses, take,
};
use crate::grammar;
use crate::hex::{
    hex_number, is_hex, lower_digit, lower_digit_value, lower_hex, lower_hex_byte, lower_hex_bytes,
    lower_hex_number, lower_hex_starts,
};
use crate::model::{Id, PacketView, ThreadId};
use crate::outcome::{skipped_is_tail, tail_of, tail_of_tail, ErrorKind, Needed, Parsed};
use crate::response::{id_text, thread_id_text};
use crate::writer::{byte_sum_adds, sum_from};

verus! {

pub(crate) proof fn dollar_and_hash()
    ensures
        encode_utf8("$"@) == seq![0x24u8],
        encode_utf8("#"@) == seq![0x23u8],
{
    reveal_strlit("$");
    reveal_strlit("#");
    one_byte("$"@);
    one_byte("#"@);
}

/// The bytes of a packet with any two digits for a checksum.
pub open spec fn wire(data: Seq<u8>, sum: u8) -> Seq<u8> {
    encode_utf8("$"@) + data + encode_utf8("#"@) + lower_hex_byte(sum)
}

/// The data of a packet ends at the first `#`.
pub(crate) proof fn data_ends(data: Seq<u8>, rest: Seq<u8>)
    requires
        !data.contains(0x23u8),
        rest.len() > 0 ==> rest[0] == 0x23,
    ensures
        grammar::packet_data(data + rest) == Parsed::Done(rest, data),
{
    reveal(grammar::packet_data);
    reveal(is_not);
    dollar_and_hash();
    let s = data + rest;
    let p = free_of("#"@);
    assert forall|j: int| 0 <= j < data.len() implies p(#[trigger] s[j]) by {
        assert(s[j] == data[j]);
        assert(data.contains(data[j]));
    }
    if rest.len() > 0 {
        assert(encode_utf8("#"@)[0] == s[data.len() as int]);
        assert(!p(s[data.len() as int]));
    }
    run_ends(s, p, data.len() as int);
    assert(s.skip(data.len() as int) =~= rest);
    assert(s.take(data.len() as int) =~= data);
    if data.len() == 0 {
        assert(s =~= rest);
        assert(data =~= seq![]);
    }
}

/// The two digits of a byte are read back as a checksum.
proof fn checksum_read_back(sum: u8, rest: Seq<u8>)
    ensures
        grammar::checksum(lower_hex_byte(sum) + rest) == Parsed::Done(rest, sum),
{
    reveal(grammar::checksum);
    let s = lower_hex_byte(sum) + rest;
    lower_digit_value((sum / 16) as nat);
    lower_digit_value((sum % 16) as nat);
    assert(s[0] == lower_digit((sum / 16) as nat));
    assert(s[1] == lower_digit((sum % 16) as nat));
    assert(s.skip(2) =~= rest);
}

/// A packet is read back as it was sent, whatever its checksum says, and what
/// follows it is left alone.
pub proof fn packet_read_back(data: Seq<u8>, sum: u8, rest: Seq<u8>)
    requires
        !data.contains(0x23u8),
    ensures
        grammar::packet_or_response(wire(data, sum) + rest) == Parsed::Done(
            rest,
            PacketView::Data(data, sum),
        ),
{
    reveal(grammar::packet);
    reveal(grammar::packet_or_response);
    dollar_and_hash();
    let s3 = lower_hex_byte(sum) + rest;
    let s2 = encode_utf8("#"@) + s3;
    let s1 = data + s2;
    let s = wire(data, sum) + rest;
    assert(s =~= encode_utf8("$"@) + s1);
    tag_accepts("$"@, s1);
    data_ends(data, s2);
    tag_accepts("#"@, s3);
    checksum_read_back(sum, rest);
}

/// Some part of a packet is not a packet yet: more bytes are asked for.  Up to
/// the `#` one more byte is asked for; from there on, the whole packet.
pub proof fn packet_front_incomplete(data: Seq<u8>, sum: u8, k: int)
    requires
        !data.contains(0x23u8),
        0 <= k < wire(data, sum).len() <= usize::MAX,
    ensures
        grammar::packet_or_response(wire(data, sum).take(k)) == Parsed::<PacketView>::Incomplete(
            Needed::Size(
                if k <= data.len() + 1 {
                    (k + 1) as usize
                } else {
                    wire(data, sum).len() as usize
                },
            ),
        ),
{
    reveal(grammar::packet);
    reveal(grammar::packet_or_response);
    reveal(grammar::checksum);
    dollar_and_hash();
    let s = wire(data, sum).take(k);
    if k == 0 {
        reveal(tag);
        assert(s =~= seq![]);
        assert(s.is_prefix_of(encode_utf8("$"@)));
        assert(!encode_utf8("$"@).is_prefix_of(s));
    } else if k <= data.len() + 1 {
        let front = data.take(k - 1);
        let none = Seq::<u8>::empty();
        assert(s =~= encode_utf8("$"@) + front);
        assert(front + none =~= front);
        assert forall|j: int| 0 <= j < front.len() implies front[j] != 0x23 by {
            assert(front[j] == data[j]);
            assert(data.contains(data[j]));
        }
        tag_accepts("$"@, front);
        data_ends(front, none);
        assert(tag(none, "#"@) == Parsed::<()>::Incomplete(Needed::Size(1))) by {
            reveal(tag);
            assert(none.is_prefix_of(encode_utf8("#"@)));
            assert(!encode_utf8("#"@).is_prefix_of(none));
        }
    } else {
        let s3 = lower_hex_byte(sum).take(k - data.len() - 2);
        let s2 = encode_utf8("#"@) + s3;
        let s1 = data + s2;
        assert(s =~= encode_utf8("$"@) + s1);
        tag_accepts("$"@, s1);
        data_ends(data, s2);
        tag_accepts("#"@, s3);
    }
}

/// Bytes that follow do not change what a text is taken for, once that is settled.
proof fn tag_settled(s: Seq<u8>, more: Seq<u8>, t: Seq<char>)
    ensures
        tag(s, t) matches Parsed::Done(rest, _) ==> tag(s + more, t) == Parsed::Done(
            rest + more,
            (),
        ),
        tag(s, t) is Error ==> tag(s + more, t) == tag(s, t),
{
    reveal(tag);
    let e = encode_utf8(t);
    let l = s + more;
    if e.is_prefix_of(s) {
        assert(l.subrange(0, e.len() as int) =~= s.subrange(0, e.len() as int));
        assert(l.skip(e.len() as int) =~= s.skip(e.len() as int) + more);
    } else if !s.is_prefix_of(e) {
        if e.is_prefix_of(l) {
            if e.len() <= s.len() {
                assert(s.subrange(0, e.len() as int) =~= l.subrange(0, e.len() as int));
            } else {
                assert(e.subrange(0, s.len() as int) =~= l.subrange(0, s.len() as int));
                assert(l.subrange(0, s.len() as int) =~= s);
            }
        }
        if l.is_prefix_of(e) {
            assert(e.subrange(0, s.len() as int) =~= e.subrange(0, l.len() as int).subrange(
                0,
                s.len() as int,
            ));
            assert(l.subrange(0, s.len() as int) =~= s);
        }
    }
}

/// Once the front of an input is a packet, or cannot become one, bytes that
/// follow change nothing about that.
pub proof fn packet_settled(s: Seq<u8>, more: Seq<u8>)
    ensures
        grammar::packet_or_response(s) matches Parsed::Done(rest, p)
            ==> grammar::packet_or_response(s + more) == Parsed::Done(rest + more, p),
        grammar::packet_or_response(s) is Error ==> grammar::packet_or_response(s + more)
            == grammar::packet_or_response(s),
{
    reveal(grammar::packet_or_response);
    data_packet_settled(s, more);
    tag_settled(s, more, "+"@);
    tag_settled(s, more, "-"@);
    tag_settled(s, more, "\x03"@);
}

proof fn data_packet_settled(s: Seq<u8>, more: Seq<u8>)
    ensures
        grammar::packet(s) matches Parsed::Done(rest, p) ==> grammar::packet(s + more)
            == Parsed::Done(rest + more, p),
        grammar::packet(s) is Error ==> grammar::packet(s + more) is Error,
{
    reveal(grammar::packet);
    reveal(grammar::checksum);
    tag_settled(s, more, "$"@);
    if let Parsed::Done(s1, _) = tag(s, "$"@) {
        let (data, s2) = data_splits(s1);
        data_ends(data, s2);
        if s2.len() > 0 {
            assert(s1 + more =~= data + (s2 + more));
            data_ends(data, s2 + more);
            tag_settled(s2, more, "#"@);
            if let Parsed::Done(s3, _) = tag(s2, "#"@) {
                if s3.len() >= 2 {
                    assert((s3 + more).skip(2) =~= s3.skip(2) + more);
                }
            }
            assert(!(tag(s2, "#"@) is Error)) by {
                dollar_and_hash();
                let s3 = s2.skip(1);
                assert(s2 =~= encode_utf8("#"@) + s3);
                tag_accepts("#"@, s3);
            }
        } else {
            dollar_and_hash();
            reveal(tag);
            assert(s2.is_prefix_of(encode_utf8("#"@)));
            assert(!encode_utf8("#"@).is_prefix_of(s2));
        }
    }
}

/// Every input is some bytes without a `#`, and then nothing or a `#`.
pub(crate) proof fn data_splits(s: Seq<u8>) -> (r: (Seq<u8>, Seq<u8>))
    ensures
        s == r.0 + r.1,
        !r.0.contains(0x23u8),
        r.1.len() > 0 ==> r.1[0] == 0x23,
{
    dollar_and_hash();
    let p = free_of("#"@);
    run_holds(s, p);
    let n = run(s, p) as int;
    let data = s.take(n);
    let rest = s.skip(n);
    assert(s =~= data + rest);
    if data.contains(0x23u8) {
        let j = choose|j: int| 0 <= j < data.len() && data[j] == 0x23u8;
        assert(p(s[j]));
        assert(encode_utf8("#"@)[0] == s[j]);
        assert(encode_utf8("#"@).contains(s[j]));
    }
    if rest.len() > 0 {
        assert(!p(s[n]));
        assert(rest[0] == s[n]);
    }
    (data, rest)
}

/// The data of a packet that was read has no `#` in it, and the packet takes
/// up four bytes more than its data; any other packet takes up one byte.  So
/// reading always goes forward.  What is left over is a tail of the input.
pub proof fn packet_extent(s: Seq<u8>)
    ensures
        grammar::packet_or_response(s) matches Parsed::Done(rest, p) ==> match p {
            PacketView::Data(data, _) => !data.contains(0x23u8) && s.len() == data.len() + 4
                + rest.len(),
            _ => s.len() == 1 + rest.len(),
        },
        grammar::packet_or_response(s) matches Parsed::Done(rest, _) ==> tail_of(rest, s),
{
    broadcast use {tail_of_tail, skipped_is_tail};

    reveal(grammar::packet_or_response);
    reveal(grammar::packet);
    reveal(grammar::checksum);
    reveal(tag);
    dollar_and_hash();
    reveal_strlit("+");
    reveal_strlit("-");
    reveal_strlit("\x03");
    one_byte("+"@);
    one_byte("-"@);
    one_byte("\x03"@);
    if let Parsed::Done(s1, _) = tag(s, "$"@) {
        let (data, s2) = data_splits(s1);
        data_ends(data, s2);
        assert(s2 =~= s1.skip(data.len() as int));
    }
}

/// `rest` does not go on with a hexadecimal digit.
pub open spec fn ends_number(rest: Seq<u8>) -> bool {
    rest.len() > 0 ==> !is_hex(rest[0])
}

/// `rest` does not go on with two hexadecimal digits, nor could it if it were longer.
pub open spec fn ends_bytes(rest: Seq<u8>) -> bool {
    rest.len() > 0 && is_hex(rest[0]) ==> rest.len() > 1 && !is_hex(rest[1])
}

/// A number in hexadecimal is read back.
pub proof fn number_read_back(n: u64, rest: Seq<u8>)
    requires
        ends_number(rest),
    ensures
        grammar::hex_value(lower_hex(n as nat) + rest) == Parsed::Done(rest, n),
{
    reveal(grammar::hex_value);
    let digits = lower_hex(n as nat);
    let s = digits + rest;
    lower_hex_number(n as nat);
    let p = grammar::hex_digits();
    assert forall|j: int| 0 <= j < digits.len() implies p(#[trigger] s[j]) by {
        assert(s[j] == digits[j]);
    }
    run_ends(s, p, digits.len() as int);
    assert(s.take(digits.len() as int) =~= digits);
    assert(s.skip(digits.len() as int) =~= rest);
}

/// A row of digits stands for a number below the power of 16 for its length.
proof fn hex_number_bound(digits: Seq<u8>)
    requires
        forall|j: int| 0 <= j < digits.len() ==> is_hex(#[trigger] digits[j]),
    ensures
        hex_number(digits) < pow(16, digits.len()),
    decreases digits.len(),
{
    reveal(pow);
    if digits.len() > 0 {
        let front = digits.drop_last();
        assert forall|j: int| 0 <= j < front.len() implies is_hex(#[trigger] front[j]) by {
            assert(front[j] == digits[j]);
        }
        hex_number_bound(front);
        assert(is_hex(digits[digits.len() - 1]));
    }
}

/// A number of at most 16 digits fits: there is an outcome for it.
pub proof fn short_number_defined(s: Seq<u8>)
    requires
        run(s, grammar::hex_digits()) <= 16,
    ensures
        !(grammar::hex_value(s) is Undefined),
{
    reveal(grammar::hex_value);
    let p = grammar::hex_digits();
    let n = run(s, p);
    run_holds(s, p);
    let digits = s.take(n as int);
    assert forall|j: int| 0 <= j < digits.len() implies is_hex(#[trigger] digits[j]) by {
        assert(p(s[j]));
    }
    hex_number_bound(digits);
    lemma_pow_increases(16, n, 16);
    assert(pow(16, 16) == 0x1_0000_0000_0000_0000) by {
        reveal_with_fuel(pow, 17);
    }
}

/// A byte in hexadecimal is read back.
proof fn byte_read_back(b: u8, rest: Seq<u8>)
    ensures
        grammar::hex_byte(lower_hex_byte(b) + rest) == Parsed::Done(rest, b),
{
    reveal(grammar::hex_byte);
    reveal(grammar::hex_digit);
    let s = lower_hex_byte(b) + rest;
    lower_digit_value((b / 16) as nat);
    lower_digit_value((b % 16) as nat);
    assert(s[0] == lower_digit((b / 16) as nat));
    assert(s.skip(1)[0] == lower_digit((b % 16) as nat));
    assert(s.skip(1).skip(1) =~= rest);
}

/// The digits of a row of bytes start with those of its first byte.
proof fn lower_hex_bytes_front(bytes: Seq<u8>)
    requires
        bytes.len() > 0,
    ensures
        lower_hex_bytes(bytes) == lower_hex_byte(bytes[0]) + lower_hex_bytes(bytes.skip(1)),
    decreases bytes.len(),
{
    let tail = bytes.skip(1);
    if bytes.len() == 1 {
        assert(bytes.drop_last() =~= seq![]);
        assert(tail =~= seq![]);
        assert(lower_hex_bytes(bytes.drop_last()) =~= seq![]);
        assert(lower_hex_bytes(tail) =~= seq![]);
        assert(seq![] + lower_hex_byte(bytes[0]) =~= lower_hex_byte(bytes[0]) + seq![]);
    } else {
        let front = bytes.drop_last();
        lower_hex_bytes_front(front);
        assert(front.skip(1) =~= tail.drop_last());
        assert(tail.last() == bytes.last());
        assert(lower_hex_byte(bytes[0]) + lower_hex_bytes(tail.drop_last()) + lower_hex_byte(
            bytes.last(),
        ) =~= lower_hex_byte(bytes[0]) + (lower_hex_bytes(tail.drop_last()) + lower_hex_byte(
            bytes.last(),
        )));
    }
}

/// Behind a byte in hexadecimal, any number of bytes in hexadecimal is read back.
proof fn more_bytes_read_back(bytes: Seq<u8>, rest: Seq<u8>)
    requires
        ends_bytes(rest),
    ensures
        more(lower_hex_bytes(bytes) + rest, grammar::hex_bytes()) == Parsed::Done(rest, bytes),
    decreases bytes.len(),
{
    let p = grammar::hex_bytes();
    let s = lower_hex_bytes(bytes) + rest;
    if bytes.len() == 0 {
        assert(s =~= rest);
        assert(bytes =~= seq![]);
        if rest.len() > 0 {
            reveal(grammar::hex_byte);
            reveal(grammar::hex_digit);
            assert(p(s) is Error);
        }
    } else {
        lower_hex_bytes_front(bytes);
        let left = lower_hex_bytes(bytes.skip(1)) + rest;
        assert(s =~= lower_hex_byte(bytes[0]) + left);
        byte_read_back(bytes[0], left);
        more_bytes_read_back(bytes.skip(1), rest);
        assert(seq![bytes[0]] + bytes.skip(1) =~= bytes);
    }
}

/// Bytes in hexadecimal are read back.
pub proof fn bytes_read_back(bytes: Seq<u8>, rest: Seq<u8>)
    requires
        bytes.len() > 0,
        ends_bytes(rest),
    ensures
        grammar::hex_byte_sequence(lower_hex_bytes(bytes) + rest) == Parsed::Done(rest, bytes),
{
    reveal(grammar::hex_byte_sequence);
    lower_hex_bytes_front(bytes);
    let left = lower_hex_bytes(bytes.skip(1)) + rest;
    assert(lower_hex_bytes(bytes) + rest =~= lower_hex_byte(bytes[0]) + left);
    byte_read_back(bytes[0], left);
    more_bytes_read_back(bytes.skip(1), rest);
    assert(seq![bytes[0]] + bytes.skip(1) =~= bytes);
}

/// `id` is an id as it may occur: a number is neither 0 nor -1.
pub open spec fn valid_id(id: Id) -> bool {
    id matches Id::Id(num) ==> 0 < num < u32::MAX
}

/// A thread of which both ids may occur.
pub open spec fn valid_thread(id: ThreadId) -> bool {
    valid_id(id.pid) && valid_id(id.tid)
}

/// A number other than 0 is read as the id that its low 32 bits are, unless no
/// process or thread has that id.
pub proof fn number_read_as_id(n: u64, rest: Seq<u8>)
    requires
        n > 0,
        ends_number(rest),
    ensures
        grammar::parse_thread_id_element(lower_hex(n as nat) + rest) == if grammar::no_id(n) {
            Parsed::Error(ErrorKind::Alt)
        } else {
            Parsed::Done(rest, Id::Id(n as u32))
        },
{
    reveal(grammar::parse_thread_id_element);
    reveal(grammar::id_number);
    reveal_strlit("0");
    reveal_strlit("-1");
    let s = lower_hex(n as nat) + rest;
    lower_hex_number(n as nat);
    lower_hex_starts(n as nat);
    assert(s[0] == lower_hex(n as nat)[0]);
    tag_refuses(s, "0"@);
    tag_refuses(s, "-1"@);
    number_read_back(n, rest);
}

/// An id is read back.
proof fn id_read_back(id: Id, rest: Seq<u8>)
    requires
        valid_id(id),
        id is Id ==> ends_number(rest),
    ensures
        grammar::parse_thread_id_element(id_text(id) + rest) == Parsed::Done(rest, id),
{
    reveal_strlit("0");
    reveal_strlit("-1");
    let s = id_text(id) + rest;
    match id {
        Id::Any => {
            reveal(grammar::parse_thread_id_element);
            tag_accepts("0"@, rest);
        },
        Id::All => {
            reveal(grammar::parse_thread_id_element);
            is_ascii_chars_encode_utf8("-1"@);
            assert(s[0] == "-1"@[0] as u8);
            tag_refuses(s, "0"@);
            tag_accepts("-1"@, rest);
        },
        Id::Id(num) => number_read_as_id(num as u64, rest),
    }
}

/// Nothing that starts with a `p` is an id by itself.
pub(crate) proof fn p_is_no_id(rest: Seq<u8>)
    ensures
        grammar::parse_thread_id_element(encode_utf8("p"@) + rest) is Error,
{
    reveal(grammar::parse_thread_id_element);
    reveal(grammar::id_number);
    reveal(grammar::hex_value);
    reveal_strlit("p");
    reveal_strlit("0");
    reveal_strlit("-1");
    one_byte("p"@);
    let s = encode_utf8("p"@) + rest;
    assert(s[0] == 0x70);
    tag_refuses(s, "0"@);
    tag_refuses(s, "-1"@);
    run_ends(s, grammar::hex_digits(), 0);
}

/// A thread that there cannot be is refused together with its process: it is
/// not taken for all threads of the process.
pub proof fn refused_thread_does_not_widen(pid: Id, n: u64, rest: Seq<u8>)
    requires
        valid_id(pid),
        n > 0,
        grammar::no_id(n),
        ends_number(rest),
    ensures
        grammar::parse_thread_id(
            encode_utf8("p"@) + (id_text(pid) + (encode_utf8("."@) + (lower_hex(n as nat) + rest))),
        ) == Parsed::<ThreadId>::Error(ErrorKind::Alt),
{
    reveal(grammar::parse_thread_id);
    reveal(grammar::process_and_thread);
    reveal(grammar::process_alone);
    reveal(grammar::names_no_thread);
    reveal_strlit(".");
    one_byte("."@);
    let s3 = lower_hex(n as nat) + rest;
    let s2 = encode_utf8("."@) + s3;
    let s1 = id_text(pid) + s2;
    p_is_no_id(s1);
    tag_accepts("p"@, s1);
    assert(s2[0] == 0x2e);
    id_read_back(pid, s2);
    tag_accepts("."@, s3);
    number_read_as_id(n, rest);
    number_read_back(n, rest);
}

/// A thread is read back.
pub proof fn thread_id_read_back(id: ThreadId, rest: Seq<u8>)
    requires
        valid_thread(id),
        id.tid is Id ==> ends_number(rest),
    ensures
        grammar::parse_thread_id(thread_id_text(id) + rest) == Parsed::Done(rest, id),
{
    reveal(grammar::parse_thread_id);
    reveal(grammar::process_and_thread);
    reveal_strlit(".");
    one_byte("."@);
    let s3 = id_text(id.tid) + rest;
    let s2 = encode_utf8("."@) + s3;
    let s1 = id_text(id.pid) + s2;
    assert(thread_id_text(id) + rest =~= encode_utf8("p"@) + s1);
    p_is_no_id(s1);
    tag_accepts("p"@, s1);
    assert(s2[0] == 0x2e);
    id_read_back(id.pid, s2);
    tag_accepts("."@, s3);
    id_read_back(id.tid, rest);
}

/// An id that was read may occur.
proof fn read_id_valid(s: Seq<u8>)
    ensures
        grammar::parse_thread_id_element(s) matches Parsed::Done(_, id) ==> valid_id(id),
{
    reveal(grammar::parse_thread_id_element);
    reveal(grammar::id_number);
}

/// Whatever is read as a thread is one that may occur: each id is any, all, or,
/// in 32 bits, a number that is neither 0 nor -1.
pub proof fn read_thread_valid(s: Seq<u8>)
    ensures
        grammar::parse_thread_id(s) matches Parsed::Done(_, id) ==> valid_thread(id),
{
    reveal(grammar::parse_thread_id);
    reveal(grammar::process_and_thread);
    reveal(grammar::process_alone);
    read_id_valid(s);
    if let Parsed::Done(s1, _) = tag(s, "p"@) {
        read_id_valid(s1);
        if let Parsed::Done(s2, _) = grammar::parse_thread_id_element(s1) {
            if let Parsed::Done(s3, _) = tag(s2, "."@) {
                read_id_valid(s3);
            }
        }
    }
}

/// A byte that cannot stand for itself in binary data: `#`, `$`, `}` or `*`.
pub open spec fn is_special(b: u8) -> bool {
    b == 0x23 || b == 0x24 || b == 0x7d || b == 0x2a
}

/// A byte as it stands in binary data.
pub open spec fn escaped_byte(b: u8) -> Seq<u8> {
    if is_special(b) {
        seq![0x7du8, b ^ 0x20]
    } else {
        seq![b]
    }
}

/// Bytes as they stand in binary data.
pub open spec fn escaped(bytes: Seq<u8>) -> Seq<u8>
    decreases bytes.len(),
{
    if bytes.len() == 0 {
        seq![]
    } else {
        escaped_byte(bytes[0]) + escaped(bytes.skip(1))
    }
}

proof fn escape_is_brace()
    ensures
        encode_utf8("}"@) == seq![0x7du8],
        is_ascii_chars("}"@),
        "}"@.len() == 1,
        "}"@[0] as u8 == 0x7d,
{
    reveal_strlit("}");
    one_byte("}"@);
}

/// A byte of binary data is read back.
proof fn escaped_byte_read_back(b: u8, rest: Seq<u8>)
    ensures
        grammar::binary_byte(escaped_byte(b) + rest) == Parsed::Done(rest, b),
{
    reveal(grammar::binary_byte);
    reveal(take);
    escape_is_brace();
    let s = escaped_byte(b) + rest;
    if is_special(b) {
        let s1 = seq![b ^ 0x20] + rest;
        assert(s =~= encode_utf8("}"@) + s1);
        tag_accepts("}"@, s1);
        assert(s1.skip(1) =~= rest);
        assert(s1.take(1)[0] == b ^ 0x20);
        assert((b ^ 0x20) ^ 0x20 == b) by (bit_vector);
    } else {
        assert(s[0] == b);
        tag_refuses(s, "}"@);
        assert(s.skip(1) =~= rest);
        assert(s.take(1)[0] == b);
    }
}

/// Behind a byte of binary data, any number of them is read back.
proof fn more_escaped_read_back(bytes: Seq<u8>)
    ensures
        more(escaped(bytes), grammar::binary_bytes()) == Parsed::Done(Seq::<u8>::empty(), bytes),
    decreases bytes.len(),
{
    if bytes.len() == 0 {
        assert(bytes =~= seq![]);
    } else {
        let left = escaped(bytes.skip(1));
        escaped_byte_read_back(bytes[0], left);
        more_escaped_read_back(bytes.skip(1));
        assert(seq![bytes[0]] + bytes.skip(1) =~= bytes);
    }
}

/// Binary data is read back.
pub proof fn binary_read_back(bytes: Seq<u8>)
    requires
        bytes.len() > 0,
    ensures
        grammar::binary_byte_sequence(escaped(bytes)) == Parsed::Done(Seq::<u8>::empty(), bytes),
{
    reveal(grammar::binary_byte_sequence);
    let left = escaped(bytes.skip(1));
    escaped_byte_read_back(bytes[0], left);
    more_escaped_read_back(bytes.skip(1));
    assert(seq![bytes[0]] + bytes.skip(1) =~= bytes);
}

/// A checksum can be taken in parts.
pub proof fn checksum_in_parts(x: Seq<u8>, y: Seq<u8>, init: u8)
    ensures
        sum_from(x + y, init) == sum_from(y, sum_from(x, init)),
{
    byte_sum_adds(x, y);
}

} // verus!
