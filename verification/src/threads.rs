//! The texts that processes and threads go by, and what is read from them.
use vstd::prelude::*;
use vstd::utf8::{encode_utf8, is_ascii_chars_encode_utf8};
use crate::combine::{one_byte, run_ends, tag_accepts, tag_refuses};
use crate::digits::{number_read, number_written, spells};
use crate::grammar;
use crate::hex::{hex_number, is_hex};
use crate::laws::{ends_number, p_is_no_id, valid_id, valid_thread};
use crate::lists::all_digits;
use crate::model::{Id, ThreadId};
use crate::outcome::{ErrorKind, Parsed};
use crate::requests::{last_thread, tag_at_end};
use crate::response::{id_text, thread_id_text};

verus! {

/// A client may write `text` for `id`: `0` for any, `-1` for all, and for a
/// number digits that do not start with a zero, of which the low 32 bits are
/// that number.
pub open spec fn names(text: Seq<u8>, id: Id) -> bool {
    match id {
        Id::Any => text == encode_utf8("0"@),
        Id::All => text == encode_utf8("-1"@),
        Id::Id(num) => {
            &&& all_digits(text)
            &&& text[0] != 0x30
            &&& hex_number(text) <= u64::MAX
            &&& hex_number(text) % 0x1_0000_0000 == num
            &&& 0 < num < 0xffff_ffff
        },
    }
}

/// `rest` may stand behind the text of `id`: a digit would be taken for one of
/// the number.
pub open spec fn ends_id(id: Id, rest: Seq<u8>) -> bool {
    id is Id ==> ends_number(rest)
}

/// What an id is written as may be written for it.
pub proof fn id_named(id: Id)
    requires
        valid_id(id),
    ensures
        names(id_text(id), id),
{
    if let Id::Id(num) = id {
        number_written(num as nat);
    }
}

/// The low 32 bits of a number are what is left of it when divided by 2 to the 32.
pub(crate) proof fn low_bits(n: u64)
    ensures
        n as u32 == n % 0x1_0000_0000,
{
    assert(n as u32 == n % 0x1_0000_0000u64) by (bit_vector);
}

/// Digits that do not start with a zero are read as a number.
proof fn digits_read_as_id(digits: Seq<u8>, n: u64, rest: Seq<u8>)
    requires
        spells(digits, n as nat),
        digits[0] != 0x30,
        ends_number(rest),
    ensures
        grammar::parse_thread_id_element(digits + rest) == if grammar::no_id(n) {
            Parsed::Error(ErrorKind::Alt)
        } else {
            Parsed::Done(rest, Id::Id(n as u32))
        },
{
    reveal(grammar::parse_thread_id_element);
    reveal(grammar::id_number);
    reveal_strlit("0");
    reveal_strlit("-1");
    let s = digits + rest;
    assert(s[0] == digits[0]);
    assert(is_hex(digits[0]));
    tag_refuses(s, "0"@);
    tag_refuses(s, "-1"@);
    number_read(digits, n, rest);
}

/// An id is read from each text that a client may write for it.
pub proof fn id_read(text: Seq<u8>, id: Id, rest: Seq<u8>)
    requires
        names(text, id),
        ends_id(id, rest),
    ensures
        grammar::parse_thread_id_element(text + rest) == Parsed::Done(rest, id),
{
    reveal_strlit("0");
    reveal_strlit("-1");
    match id {
        Id::Any => {
            reveal(grammar::parse_thread_id_element);
            tag_accepts("0"@, rest);
        },
        Id::All => {
            reveal(grammar::parse_thread_id_element);
            is_ascii_chars_encode_utf8("-1"@);
            let s = text + rest;
            assert(s[0] == "-1"@[0] as u8);
            tag_refuses(s, "0"@);
            tag_accepts("-1"@, rest);
        },
        Id::Id(num) => {
            let n = hex_number(text) as u64;
            low_bits(n);
            digits_read_as_id(text, n, rest);
        },
    }
}

/// A number of which the low 32 bits are 0 or -1 is no id, nor is it one behind
/// a `p`.
pub proof fn no_id_refused(digits: Seq<u8>, n: u64, rest: Seq<u8>)
    requires
        spells(digits, n as nat),
        digits[0] != 0x30,
        n % 0x1_0000_0000 == 0 || n % 0x1_0000_0000 == 0xffff_ffff,
        ends_number(rest),
    ensures
        grammar::parse_thread_id(digits + rest) == Parsed::<ThreadId>::Error(ErrorKind::Alt),
        grammar::parse_thread_id(encode_utf8("p"@) + (digits + rest)) == Parsed::<ThreadId>::Error(
            ErrorKind::Alt,
        ),
{
    reveal(grammar::parse_thread_id);
    reveal(grammar::process_and_thread);
    reveal(grammar::process_alone);
    let s = digits + rest;
    low_bits(n);
    digits_read_as_id(digits, n, rest);
    reveal_strlit("p");
    assert(s[0] == digits[0] && is_hex(digits[0]));
    tag_refuses(s, "p"@);
    p_is_no_id(s);
    tag_accepts("p"@, s);
}

/// An id alone is a process, with any of its threads.
pub proof fn process_read(text: Seq<u8>, id: Id, rest: Seq<u8>)
    requires
        names(text, id),
        ends_id(id, rest),
    ensures
        grammar::parse_thread_id(text + rest) == Parsed::Done(
            rest,
            ThreadId { pid: id, tid: Id::Any },
        ),
{
    reveal(grammar::parse_thread_id);
    id_read(text, id, rest);
}

/// An id behind a `p`, with no `.` behind it, is a process, with all of its threads.
pub proof fn whole_process_read(text: Seq<u8>, id: Id, rest: Seq<u8>)
    requires
        names(text, id),
        ends_id(id, rest),
        rest.len() > 0 ==> rest[0] != 0x2e,
    ensures
        grammar::parse_thread_id(encode_utf8("p"@) + (text + rest)) == Parsed::Done(
            rest,
            ThreadId { pid: id, tid: Id::All },
        ),
{
    reveal(grammar::parse_thread_id);
    reveal(grammar::process_and_thread);
    reveal(grammar::process_alone);
    reveal(grammar::names_no_thread);
    let s1 = text + rest;
    p_is_no_id(s1);
    tag_accepts("p"@, s1);
    id_read(text, id, rest);
    reveal_strlit(".");
    one_byte("."@);
    if rest.len() > 0 {
        tag_refuses(rest, "."@);
    } else {
        tag_at_end("."@);
        assert(rest =~= Seq::<u8>::empty());
    }
}

/// The same where the `.` has nothing behind it that an id could start with.
pub proof fn dangling_dot_read(text: Seq<u8>, id: Id, rest: Seq<u8>)
    requires
        names(text, id),
        rest.len() > 0 ==> !is_hex(rest[0]) && rest[0] != 0x2d,
    ensures
        grammar::parse_thread_id(
            encode_utf8("p"@) + (text + (encode_utf8("."@) + rest)),
        ) == Parsed::Done(encode_utf8("."@) + rest, ThreadId { pid: id, tid: Id::All }),
{
    reveal(grammar::parse_thread_id);
    reveal(grammar::process_and_thread);
    reveal(grammar::process_alone);
    reveal(grammar::names_no_thread);
    reveal_strlit(".");
    one_byte("."@);
    let s2 = encode_utf8("."@) + rest;
    let s1 = text + s2;
    p_is_no_id(s1);
    tag_accepts("p"@, s1);
    assert(s2[0] == 0x2e);
    id_read(text, id, s2);
    tag_accepts("."@, rest);
    reveal(grammar::hex_value);
    run_ends(rest, grammar::hex_digits(), 0);
    assert(grammar::parse_thread_id_element(rest) is Error) by {
        reveal(grammar::parse_thread_id_element);
        reveal(grammar::id_number);
        reveal_strlit("0");
        reveal_strlit("-1");
        if rest.len() > 0 {
            tag_refuses(rest, "0"@);
            tag_refuses(rest, "-1"@);
        } else {
            one_byte("0"@);
            is_ascii_chars_encode_utf8("-1"@);
            tag_at_end("0"@);
            tag_at_end("-1"@);
            assert(rest =~= Seq::<u8>::empty());
        }
    }
}

/// A `p`, an id, a `.` and an id are a thread of a process.
pub proof fn thread_read(p: Seq<u8>, pid: Id, t: Seq<u8>, tid: Id, rest: Seq<u8>)
    requires
        names(p, pid),
        names(t, tid),
        ends_id(tid, rest),
    ensures
        grammar::parse_thread_id(
            encode_utf8("p"@) + (p + (encode_utf8("."@) + (t + rest))),
        ) == Parsed::Done(rest, ThreadId { pid, tid }),
{
    reveal(grammar::parse_thread_id);
    reveal(grammar::process_and_thread);
    reveal_strlit(".");
    one_byte("."@);
    let s3 = t + rest;
    let s2 = encode_utf8("."@) + s3;
    let s1 = p + s2;
    p_is_no_id(s1);
    tag_accepts("p"@, s1);
    assert(s2[0] == 0x2e);
    id_read(p, pid, s2);
    tag_accepts("."@, s3);
    id_read(t, tid, rest);
}

/// An id as it is written, alone, is read as that process with any of its
/// threads, and behind a `p` as that process with all of its threads.
pub proof fn short_forms_read_back(id: Id, rest: Seq<u8>)
    requires
        valid_id(id),
        ends_id(id, rest),
    ensures
        grammar::parse_thread_id(id_text(id) + rest) == Parsed::Done(
            rest,
            ThreadId { pid: id, tid: Id::Any },
        ),
        (rest.len() > 0 ==> rest[0] != 0x2e) ==> grammar::parse_thread_id(
            encode_utf8("p"@) + (id_text(id) + rest),
        ) == Parsed::Done(rest, ThreadId { pid: id, tid: Id::All }),
{
    id_named(id);
    process_read(id_text(id), id, rest);
    if rest.len() > 0 ==> rest[0] != 0x2e {
        whole_process_read(id_text(id), id, rest);
    }
}

/// A client may write `text` for a thread, with `rest` behind it: a process alone,
/// or behind a `p` a process, with a `.` and a thread or without.
pub open spec fn writes_thread(text: Seq<u8>, id: ThreadId, rest: Seq<u8>) -> bool {
    ||| id.tid == Id::Any && names(text, id.pid) && ends_id(id.pid, rest)
    ||| id.tid == Id::All && (rest.len() > 0 ==> rest[0] != 0x2e) && ends_id(id.pid, rest)
        && exists|p: Seq<u8>| #[trigger] names(p, id.pid) && text == encode_utf8("p"@) + p
    ||| ends_id(id.tid, rest) && exists|p: Seq<u8>, t: Seq<u8>| #[trigger]
        names(p, id.pid) && #[trigger] names(t, id.tid) && text == encode_utf8("p"@) + p
            + encode_utf8("."@) + t
}

/// A thread is read from each text that a client may write for it.
pub proof fn thread_form_read(text: Seq<u8>, id: ThreadId, rest: Seq<u8>)
    requires
        writes_thread(text, id, rest),
    ensures
        grammar::parse_thread_id(text + rest) == Parsed::Done(rest, id),
{
    if id.tid == Id::Any && names(text, id.pid) && ends_id(id.pid, rest) {
        process_read(text, id.pid, rest);
    } else if id.tid == Id::All && (rest.len() > 0 ==> rest[0] != 0x2e) && ends_id(id.pid, rest)
        && exists|p: Seq<u8>| #[trigger] names(p, id.pid) && text == encode_utf8("p"@) + p {
        let p = choose|p: Seq<u8>| #[trigger] names(p, id.pid) && text == encode_utf8("p"@) + p;
        whole_process_read(p, id.pid, rest);
        assert(text + rest =~= encode_utf8("p"@) + (p + rest));
    } else {
        let (p, t) = choose|p: Seq<u8>, t: Seq<u8>| #[trigger]
            names(p, id.pid) && #[trigger] names(t, id.tid) && text == encode_utf8("p"@) + p
                + encode_utf8("."@) + t;
        thread_read(p, id.pid, t, id.tid, rest);
        assert(text + rest =~= encode_utf8("p"@) + (p + (encode_utf8("."@) + (t + rest))));
    }
}

/// What a thread is written as may be written for it.
pub proof fn thread_written(id: ThreadId, rest: Seq<u8>)
    requires
        valid_thread(id),
        ends_id(id.tid, rest),
    ensures
        writes_thread(thread_id_text(id), id, rest),
{
    id_named(id.pid);
    id_named(id.tid);
    assert(names(id_text(id.pid), id.pid) && names(id_text(id.tid), id.tid));
}

/// Two different threads are never written alike.
pub proof fn threads_told_apart(a: ThreadId, b: ThreadId)
    requires
        valid_thread(a),
        valid_thread(b),
        thread_id_text(a) == thread_id_text(b),
    ensures
        a == b,
{
    last_thread(a);
    last_thread(b);
}

} // verus!
