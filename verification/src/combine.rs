//! The building blocks of the grammar: what each one means on a byte
//! sequence, and a scanning function that does it.
use vstd::prelude::*;
use vstd::slice::slice_subrange;
use vstd::utf8::{encode_utf8, is_ascii_chars, is_ascii_chars_encode_utf8};
use crate::outcome::{
    completed, leaves_tail, parsed, skipped_is_tail, tail_of, tail_of_tail, whole_is_tail, within,
    ErrorKind, Needed, Parsed, Step, Stop,
};

verus! {

broadcast use {tail_of_tail, skipped_is_tail};

/// The length of the longest run of bytes at the front of `s` of which `p` holds.
pub open spec fn run(s: Seq<u8>, p: spec_fn(u8) -> bool) -> nat
    decreases s.len(),
{
    if s.len() > 0 && p(s[0]) {
        1 + run(s.skip(1), p)
    } else {
        0
    }
}

/// A run ends at the first byte of which `p` does not hold.
pub proof fn run_ends(s: Seq<u8>, p: spec_fn(u8) -> bool, k: int)
    requires
        0 <= k <= s.len(),
        forall|j: int| 0 <= j < k ==> p(#[trigger] s[j]),
        k < s.len() ==> !p(s[k]),
    ensures
        run(s, p) == k,
    decreases k,
{
    if k > 0 {
        assert(p(s[0]));
        let t = s.skip(1);
        assert forall|j: int| 0 <= j < k - 1 implies p(#[trigger] t[j]) by {
            assert(t[j] == s[j + 1]);
        }
        run_ends(t, p, k - 1);
    }
}

/// What a run is: `p` holds of its bytes, and not of the one behind it.
pub proof fn run_holds(s: Seq<u8>, p: spec_fn(u8) -> bool)
    ensures
        run(s, p) <= s.len(),
        forall|j: int| 0 <= j < run(s, p) ==> p(#[trigger] s[j]),
        run(s, p) < s.len() ==> !p(s[run(s, p) as int]),
    decreases s.len(),
{
    if s.len() > 0 && p(s[0]) {
        let t = s.skip(1);
        run_holds(t, p);
        assert forall|j: int| 0 <= j < run(s, p) implies p(#[trigger] s[j]) by {
            if j > 0 {
                assert(t[j - 1] == s[j]);
            }
        }
    }
}

/// The text `t`.
#[verifier::opaque]
pub open spec fn tag(s: Seq<u8>, t: Seq<char>) -> Parsed<()> {
    let t = encode_utf8(t);
    if t.is_prefix_of(s) {
        Parsed::Done(s.skip(t.len() as int), ())
    } else if s.is_prefix_of(t) {
        Parsed::Incomplete(Needed::Size(t.len() as usize))
    } else {
        Parsed::Error(ErrorKind::Tag)
    }
}

/// A text at the front of an input is found there.
pub proof fn tag_accepts(t: Seq<char>, rest: Seq<u8>)
    ensures
        tag(encode_utf8(t) + rest, t) == Parsed::Done(rest, ()),
{
    reveal(tag);
    let s = encode_utf8(t) + rest;
    assert(encode_utf8(t) =~= s.subrange(0, encode_utf8(t).len() as int));
    assert(s.skip(encode_utf8(t).len() as int) =~= rest);
}

/// Where a text is found, the input is the text and what is left over.
pub proof fn tag_found(s: Seq<u8>, t: Seq<char>)
    ensures
        tag(s, t) matches Parsed::Done(rest, _) ==> s == encode_utf8(t) + rest,
{
    reveal(tag);
    let e = encode_utf8(t);
    if e.is_prefix_of(s) {
        assert(s =~= e + s.skip(e.len() as int));
    }
}

/// A text is refused where the input starts with another byte.
pub proof fn tag_refuses(s: Seq<u8>, t: Seq<char>)
    requires
        t.len() > 0,
        '\0' <= t[0] <= '\u{7f}',
        s.len() > 0,
        s[0] != t[0] as u8,
    ensures
        tag(s, t) == Parsed::<()>::Error(ErrorKind::Tag),
{
    reveal(tag);
    let e = encode_utf8(t);
    let first = seq![t[0]];
    is_ascii_chars_encode_utf8(first);
    reveal_with_fuel(encode_utf8, 2);
    assert(first.drop_first() =~= seq![]);
    assert(encode_utf8(first)[0] == t[0] as u8);
    assert(e[0] == t[0] as u8);
    if e.is_prefix_of(s) {
        assert(s.subrange(0, e.len() as int)[0] == s[0]);
    }
    if s.is_prefix_of(e) {
        assert(e.subrange(0, s.len() as int)[0] == e[0]);
    }
}

/// An ASCII text is refused where the input has another byte at some place.
pub proof fn tag_refuses_at(s: Seq<u8>, t: Seq<char>, k: int)
    requires
        is_ascii_chars(t),
        0 <= k < t.len(),
        k < s.len(),
        s[k] != t[k] as u8,
    ensures
        tag(s, t) == Parsed::<()>::Error(ErrorKind::Tag),
{
    reveal(tag);
    is_ascii_chars_encode_utf8(t);
    let e = encode_utf8(t);
    assert(e[k] == t[k] as u8);
    if e.is_prefix_of(s) {
        assert(s.subrange(0, e.len() as int)[k] == s[k]);
    }
    if s.is_prefix_of(e) {
        assert(e.subrange(0, s.len() as int)[k] == e[k]);
    }
}

/// A text of one ASCII character is one byte.
pub proof fn one_byte(t: Seq<char>)
    requires
        t.len() == 1,
        is_ascii_chars(t),
    ensures
        encode_utf8(t) == seq![t[0] as u8],
{
    is_ascii_chars_encode_utf8(t);
    assert(encode_utf8(t) =~= seq![t[0] as u8]);
}

/// The bytes that are none of those in the text `stops`.
pub open spec fn free_of(stops: Seq<char>) -> spec_fn(u8) -> bool {
    |b: u8| !encode_utf8(stops).contains(b)
}

/// All bytes up to the first one that occurs in the text `stops`.  On an input
/// that starts with such a byte this is refused; on an empty input it finds
/// nothing, and succeeds.
#[verifier::opaque]
pub open spec fn is_not(s: Seq<u8>, stops: Seq<char>) -> Parsed<Seq<u8>> {
    let n = run(s, free_of(stops));
    if n == 0 && s.len() > 0 {
        Parsed::Error(ErrorKind::IsNot)
    } else {
        Parsed::Done(s.skip(n as int), s.take(n as int))
    }
}

/// The next `n` bytes.
#[verifier::opaque]
pub open spec fn take(s: Seq<u8>, n: nat) -> Parsed<Seq<u8>> {
    if s.len() < n {
        Parsed::Incomplete(Needed::Size(n as usize))
    } else {
        Parsed::Done(s.skip(n as int), s.take(n as int))
    }
}

/// As many `p` as there are, until the input ends or `p` is refused.
pub open spec fn many0<T>(s: Seq<u8>, p: spec_fn(Seq<u8>) -> Parsed<T>) -> Parsed<Seq<T>>
    decreases s.len(),
{
    if s.len() == 0 {
        Parsed::Done(s, seq![])
    } else {
        match p(s) {
            Parsed::Error(_) => Parsed::Done(s, seq![]),
            Parsed::Incomplete(needed) => Parsed::Incomplete(needed),
            Parsed::Undefined => Parsed::Undefined,
            Parsed::Done(rest, v) => if rest.len() >= s.len() {
                Parsed::Error(ErrorKind::Many0)
            } else {
                many0(rest, p).after(seq![v], s.len() - rest.len())
            },
        }
    }
}

impl<T> Parsed<Seq<T>> {
    /// The outcome for a list, at position `k` of an input, of which the items
    /// `head` stand in front of that position.
    pub open spec fn after(self, head: Seq<T>, k: int) -> Parsed<Seq<T>> {
        match self {
            Parsed::Done(rest, items) => Parsed::Done(rest, head + items),
            _ => self.at(k),
        }
    }
}

/// The items that follow the first one in a row of `p`.
pub open spec fn more<T>(s: Seq<u8>, p: spec_fn(Seq<u8>) -> Parsed<T>) -> Parsed<Seq<T>>
    decreases s.len(),
{
    if s.len() == 0 {
        Parsed::Done(s, seq![])
    } else {
        match p(s) {
            Parsed::Error(_) => Parsed::Done(s, seq![]),
            Parsed::Incomplete(needed) => Parsed::Incomplete(needed),
            Parsed::Undefined => Parsed::Undefined,
            Parsed::Done(rest, v) => if rest.len() >= s.len() {
                Parsed::Done(s, seq![])
            } else {
                more(rest, p).after(seq![v], s.len() - rest.len())
            },
        }
    }
}

/// A row of at least one `p`.
pub open spec fn many1<T>(s: Seq<u8>, p: spec_fn(Seq<u8>) -> Parsed<T>) -> Parsed<Seq<T>> {
    match p(s) {
        Parsed::Error(_) => Parsed::Error(ErrorKind::Many1),
        Parsed::Incomplete(needed) => Parsed::Incomplete(needed),
        Parsed::Undefined => Parsed::Undefined,
        Parsed::Done(rest, v) => more(rest, p).after(seq![v], s.len() - rest.len()),
    }
}

/// The items of a list that follow the first one, each with a separator, the
/// text `sep`, in front of it.  A separator without an item behind it is left
/// over.
pub open spec fn separated<T>(
    s: Seq<u8>,
    sep: Seq<char>,
    p: spec_fn(Seq<u8>) -> Parsed<T>,
) -> Parsed<Seq<T>>
    decreases s.len(),
{
    match tag(s, sep).completed() {
        Parsed::Done(mid, _) => match p(mid).completed() {
            Parsed::Done(rest, v) => if mid.len() >= s.len() || rest.len() >= mid.len() {
                Parsed::Done(s, seq![])
            } else {
                separated(rest, sep, p).after(seq![v], s.len() - rest.len())
            },
            Parsed::Undefined => Parsed::Undefined,
            _ => Parsed::Done(s, seq![]),
        },
        _ => Parsed::Done(s, seq![]),
    }
}

/// A list of `p`, separated by the text `sep`, on a complete input.
pub open spec fn separated_list<T>(
    s: Seq<u8>,
    sep: Seq<char>,
    p: spec_fn(Seq<u8>) -> Parsed<T>,
) -> Parsed<Seq<T>> {
    match p(s).completed() {
        Parsed::Done(rest, v) => if rest.len() >= s.len() {
            Parsed::Error(ErrorKind::SeparatedList)
        } else {
            separated(rest, sep, p).after(seq![v], s.len() - rest.len())
        },
        Parsed::Undefined => Parsed::Undefined,
        _ => Parsed::Done(s, seq![]),
    }
}

/// A list of at least one `p`, separated by the text `sep`, on a complete input.
pub open spec fn separated_nonempty_list<T>(
    s: Seq<u8>,
    sep: Seq<char>,
    p: spec_fn(Seq<u8>) -> Parsed<T>,
) -> Parsed<Seq<T>> {
    match p(s).completed() {
        Parsed::Done(rest, v) => if rest.len() >= s.len() {
            Parsed::Error(ErrorKind::SeparatedNonEmptyList)
        } else {
            separated(rest, sep, p).after(seq![v], s.len() - rest.len())
        },
        Parsed::Undefined => Parsed::Undefined,
        Parsed::Error(kind) => Parsed::Error(kind),
        Parsed::Incomplete(needed) => Parsed::Incomplete(needed),
    }
}

/// What is left of `i` behind its first `k` bytes.
pub fn rest_from<'a>(i: &'a [u8], k: usize) -> (rest: &'a [u8])
    requires
        k <= i@.len(),
    ensures
        rest@ == i@.skip(k as int),
        tail_of(rest@, i@),
{
    assert(i@.skip(k as int) =~= i@.subrange(k as int, i@.len() as int));
    slice_subrange(i, k, i.len())
}

/// The first `k` bytes of `i`.
pub fn front_of<'a>(i: &'a [u8], k: usize) -> (front: &'a [u8])
    requires
        k <= i@.len(),
    ensures
        front@ == i@.take(k as int),
        front.deep_view() == i@.take(k as int),
{
    assert(i@.take(k as int) =~= i@.subrange(0, k as int));
    let front = slice_subrange(i, 0, k);
    assert(front.deep_view() =~= front@);
    front
}

/// Finds the text `t`.
pub fn scan_tag<'a>(i: &'a [u8], t: &str) -> (r: Step<'a, ()>)
    ensures
        parsed(r) == tag(i@, t@),
        leaves_tail(r, i@),
{
    proof {
        reveal(tag);
    }
    let text = t.as_bytes();
    let mut k: usize = 0;
    while k < text.len() && k < i.len()
        invariant
            text@ == encode_utf8(t@),
            k <= text@.len(),
            k <= i@.len(),
            forall|j: int| 0 <= j < k ==> i@[j] == text@[j],
        decreases text.len() - k,
    {
        if i[k] != text[k] {
            proof {
                reveal(tag);
            }
            assert(i@[k as int] != text@[k as int]);
            assert(!text@.is_prefix_of(i@));
            assert(!i@.is_prefix_of(text@));
            return Err(Stop::Error(ErrorKind::Tag));
        }
        k += 1;
    }
    if k == text.len() {
        Ok((rest_from(i, k), ()))
    } else {
        assert(i@.is_prefix_of(text@));
        Err(Stop::Incomplete(Needed::Size(text.len())))
    }
}

/// Finds the bytes up to the first one that occurs in `stops`.
pub fn scan_is_not<'a>(i: &'a [u8], stops: &str) -> (r: Step<'a, &'a [u8]>)
    ensures
        parsed(r) == is_not(i@, stops@),
        leaves_tail(r, i@),
        r matches Ok((_, front)) ==> front@ == front.deep_view(),
{
    proof {
        reveal(is_not);
    }
    let ghost p = free_of(stops@);
    let stops = stops.as_bytes();
    let mut k: usize = 0;
    while k < i.len() && !stops_at(stops, i[k])
        invariant
            k <= i@.len(),
            p == (|b: u8| !stops@.contains(b)),
            forall|j: int| 0 <= j < k ==> p(#[trigger] i@[j]),
        decreases i.len() - k,
    {
        k += 1;
    }
    proof {
        run_ends(i@, p, k as int);
    }
    if k == 0 && i.len() > 0 {
        Err(Stop::Error(ErrorKind::IsNot))
    } else {
        Ok((rest_from(i, k), front_of(i, k)))
    }
}

/// Whether `b` is one of the bytes of `stops`.
fn stops_at(stops: &[u8], b: u8) -> (found: bool)
    ensures
        found == stops@.contains(b),
{
    let mut k: usize = 0;
    while k < stops.len()
        invariant
            k <= stops@.len(),
            forall|j: int| 0 <= j < k ==> stops@[j] != b,
        decreases stops.len() - k,
    {
        if stops[k] == b {
            return true;
        }
        k += 1;
    }
    false
}

/// Finds the next `n` bytes.
pub fn scan_take<'a>(i: &'a [u8], n: usize) -> (r: Step<'a, &'a [u8]>)
    ensures
        parsed(r) == take(i@, n as nat),
        leaves_tail(r, i@),
        r matches Ok((_, front)) ==> front@ == front.deep_view(),
        r matches Ok((_, front)) ==> front@.len() == n,
{
    proof {
        reveal(take);
    }
    if i.len() < n {
        Err(Stop::Incomplete(Needed::Size(n)))
    } else {
        Ok((rest_from(i, n), front_of(i, n)))
    }
}

/// `f` is a scanning function for `p`.
pub open spec fn scans<'a, T: DeepView, F: Fn(&'a [u8]) -> Step<'a, T>>(
    f: F,
    p: spec_fn(Seq<u8>) -> Parsed<T::V>,
) -> bool {
    &&& forall|i: &'a [u8]| #[trigger] call_requires(f, (i,))
    &&& forall|i: &'a [u8], r: Step<'a, T>| #[trigger]
        call_ensures(f, (i,), r) ==> parsed(r) == p(i@) && leaves_tail(r, i@)
}

/// Putting the items `a`, found in front of `k`, and then the items `b`, found
/// in front of `j`, before a list is putting both before it at once.
proof fn after_after<T>(r: Parsed<Seq<T>>, a: Seq<T>, k: int, b: Seq<T>, j: int)
    requires
        k >= 0,
        j >= 0,
    ensures
        r.after(a, k).after(b, j) == r.after(b + a, j + k),
{
    if let Parsed::Done(_, items) = r {
        assert(b + (a + items) =~= (b + a) + items);
    }
}

/// One more item at the end of a list of items, seen through their views.
proof fn pushed<T: DeepView>(items: Seq<T>, v: T, out: Vec<T>)
    requires
        out@ == items.push(v),
    ensures
        out.deep_view() == Seq::new(items.len(), |j: int| items[j].deep_view()) + seq![
            v.deep_view(),
        ],
{
    assert(out.deep_view() =~= Seq::new(items.len(), |j: int| items[j].deep_view()) + seq![
        v.deep_view(),
    ]);
}

/// Finds as many items as there are, each with `f`.
pub fn scan_many0<'a, T: DeepView, F: Fn(&'a [u8]) -> Step<'a, T>>(
    i: &'a [u8],
    f: F,
    Ghost(p): Ghost<spec_fn(Seq<u8>) -> Parsed<T::V>>,
) -> (r: Step<'a, Vec<T>>)
    requires
        scans(f, p),
    ensures
        parsed(r) == many0(i@, p),
        leaves_tail(r, i@),
{
    let mut out: Vec<T> = Vec::new();
    let mut at: &'a [u8] = i;
    proof {
        whole_is_tail(i@);
        assert(out.deep_view() =~= seq![]);
        empty_after(many0(i@, p));
    }
    while at.len() > 0
        invariant
            scans(f, p),
            tail_of(at@, i@),
            many0(i@, p) == many0(at@, p).after(out.deep_view(), i@.len() - at@.len()),
        decreases at@.len(),
    {
        match within(i, at, f(at)) {
            Ok((rest, v)) => {
                if rest.len() >= at.len() {
                    return Err(Stop::Error(ErrorKind::Many0));
                }
                let ghost before = out@;
                let ghost seen = out.deep_view();
                proof {
                    after_after(
                        many0(rest@, p),
                        seq![v.deep_view()],
                        at@.len() - rest@.len(),
                        seen,
                        i@.len() - at@.len(),
                    );
                }
                out.push(v);
                proof {
                    pushed(before, v, out);
                    assert(seen =~= Seq::new(before.len(), |j: int| before[j].deep_view()));
                }
                at = rest;
            },
            Err(Stop::Error(_)) => {
                assert(out.deep_view() + seq![] =~= out.deep_view());
                return Ok((at, out));
            },
            Err(e) => {
                return Err(e);
            },
        }
    }
    assert(out.deep_view() + seq![] =~= out.deep_view());
    Ok((at, out))
}

/// No items before a list leave it as it is.
proof fn empty_after<T>(r: Parsed<Seq<T>>)
    ensures
        r.after(seq![], 0) == r,
{
    if let Parsed::Done(_, items) = r {
        assert(seq![] + items =~= items);
    }
}

/// The items that follow the first one, which is `first` and ends where `from` starts.
fn scan_more<'a, T: DeepView, F: Fn(&'a [u8]) -> Step<'a, T>>(
    i: &'a [u8],
    from: &'a [u8],
    first: T,
    f: F,
    Ghost(p): Ghost<spec_fn(Seq<u8>) -> Parsed<T::V>>,
) -> (r: Step<'a, Vec<T>>)
    requires
        scans(f, p),
        tail_of(from@, i@),
    ensures
        parsed(r) == more(from@, p).after(seq![first.deep_view()], i@.len() - from@.len()),
        leaves_tail(r, i@),
{
    let ghost head = seq![first.deep_view()];
    let ghost whole = more(from@, p).after(head, i@.len() - from@.len());
    let mut out: Vec<T> = Vec::new();
    out.push(first);
    let mut at: &'a [u8] = from;
    proof {
        assert(out.deep_view() =~= head);
    }
    while at.len() > 0
        invariant
            scans(f, p),
            tail_of(at@, i@),
            whole == more(from@, p).after(seq![first.deep_view()], i@.len() - from@.len()),
            whole == more(at@, p).after(out.deep_view(), i@.len() - at@.len()),
        ensures
            whole == Parsed::Done(at@, out.deep_view()),
        decreases at@.len(),
    {
        match within(i, at, f(at)) {
            Ok((rest, v)) => {
                if rest.len() >= at.len() {
                    assert(out.deep_view() + seq![] =~= out.deep_view());
                    break ;
                }
                let ghost before = out@;
                let ghost seen = out.deep_view();
                proof {
                    after_after(
                        more(rest@, p),
                        seq![v.deep_view()],
                        at@.len() - rest@.len(),
                        seen,
                        i@.len() - at@.len(),
                    );
                }
                out.push(v);
                proof {
                    pushed(before, v, out);
                    assert(seen =~= Seq::new(before.len(), |j: int| before[j].deep_view()));
                }
                at = rest;
            },
            Err(Stop::Error(_)) => {
                assert(out.deep_view() + seq![] =~= out.deep_view());
                break ;
            },
            Err(e) => {
                return Err(e);
            },
        }
    }
    Ok((at, out))
}

/// Finds a row of at least one item, each with `f`.
pub fn scan_many1<'a, T: DeepView, F: Fn(&'a [u8]) -> Step<'a, T>>(
    i: &'a [u8],
    f: F,
    Ghost(p): Ghost<spec_fn(Seq<u8>) -> Parsed<T::V>>,
) -> (r: Step<'a, Vec<T>>)
    requires
        scans(f, p),
    ensures
        parsed(r) == many1(i@, p),
        leaves_tail(r, i@),
{
    match f(i) {
        Ok((rest, v)) => scan_more(i, rest, v, f, Ghost(p)),
        Err(Stop::Error(_)) => Err(Stop::Error(ErrorKind::Many1)),
        Err(e) => Err(e),
    }
}

/// The items of a list that follow the first one, which is `first` and ends
/// where `from` starts.
fn scan_separated<'a, T: DeepView, F: Fn(&'a [u8]) -> Step<'a, T>>(
    i: &'a [u8],
    from: &'a [u8],
    first: T,
    sep: &str,
    f: F,
    Ghost(p): Ghost<spec_fn(Seq<u8>) -> Parsed<T::V>>,
) -> (r: Step<'a, Vec<T>>)
    requires
        scans(f, p),
        tail_of(from@, i@),
    ensures
        parsed(r) == separated(from@, sep@, p).after(
            seq![first.deep_view()],
            i@.len() - from@.len(),
        ),
        leaves_tail(r, i@),
{
    let ghost head = seq![first.deep_view()];
    let ghost whole = separated(from@, sep@, p).after(head, i@.len() - from@.len());
    let mut out: Vec<T> = Vec::new();
    out.push(first);
    let mut at: &'a [u8] = from;
    proof {
        assert(out.deep_view() =~= head);
    }
    loop
        invariant
            scans(f, p),
            tail_of(at@, i@),
            whole == separated(from@, sep@, p).after(
                seq![first.deep_view()],
                i@.len() - from@.len(),
            ),
            whole == separated(at@, sep@, p).after(out.deep_view(), i@.len() - at@.len()),
        ensures
            whole == Parsed::Done(at@, out.deep_view()),
        decreases at@.len(),
    {
        proof {
            assert(out.deep_view() + seq![] =~= out.deep_view());
        }
        let mid = match scan_tag(at, sep) {
            Ok((mid, _)) => mid,
            Err(_) => {
                break ;
            },
        };
        match f(mid) {
            Ok((rest, v)) => {
                if mid.len() >= at.len() || rest.len() >= mid.len() {
                    break ;
                }
                let ghost before = out@;
                let ghost seen = out.deep_view();
                proof {
                    after_after(
                        separated(rest@, sep@, p),
                        seq![v.deep_view()],
                        at@.len() - rest@.len(),
                        seen,
                        i@.len() - at@.len(),
                    );
                }
                out.push(v);
                proof {
                    pushed(before, v, out);
                    assert(seen =~= Seq::new(before.len(), |j: int| before[j].deep_view()));
                }
                at = rest;
            },
            Err(Stop::Undefined) => {
                return Err(Stop::Undefined);
            },
            Err(_) => {
                break ;
            },
        }
    }
    Ok((at, out))
}

/// Finds a list of items, each with `f`, separated by `sep`.
pub fn scan_separated_list<'a, T: DeepView, F: Fn(&'a [u8]) -> Step<'a, T>>(
    i: &'a [u8],
    sep: &str,
    f: F,
    Ghost(p): Ghost<spec_fn(Seq<u8>) -> Parsed<T::V>>,
) -> (r: Step<'a, Vec<T>>)
    requires
        scans(f, p),
    ensures
        parsed(r) == separated_list(i@, sep@, p),
        leaves_tail(r, i@),
{
    match f(i) {
        Ok((rest, v)) => if rest.len() >= i.len() {
            Err(Stop::Error(ErrorKind::SeparatedList))
        } else {
            scan_separated(i, rest, v, sep, f, Ghost(p))
        },
        Err(Stop::Undefined) => Err(Stop::Undefined),
        Err(_) => {
            let none: Vec<T> = Vec::new();
            proof {
                whole_is_tail(i@);
                assert(none.deep_view() =~= seq![]);
            }
            Ok((i, none))
        },
    }
}

/// Finds a list of at least one item, each with `f`, separated by `sep`.
pub fn scan_separated_nonempty_list<'a, T: DeepView, F: Fn(&'a [u8]) -> Step<'a, T>>(
    i: &'a [u8],
    sep: &str,
    f: F,
    Ghost(p): Ghost<spec_fn(Seq<u8>) -> Parsed<T::V>>,
) -> (r: Step<'a, Vec<T>>)
    requires
        scans(f, p),
    ensures
        parsed(r) == separated_nonempty_list(i@, sep@, p),
        leaves_tail(r, i@),
{
    match completed(f(i)) {
        Ok((rest, v)) => if rest.len() >= i.len() {
            Err(Stop::Error(ErrorKind::SeparatedNonEmptyList))
        } else {
            scan_separated(i, rest, v, sep, f, Ghost(p))
        },
        Err(e) => Err(e),
    }
}

} // verus!
