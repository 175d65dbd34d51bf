//! What a parser may come back with.
//!
//! Three types say the same thing at three levels.  [`Parsed`] is the
//! mathematical outcome that the grammar is written in.  [`Step`] is what the
//! scanning functions hand to each other.  [`IResult`] is what callers of the
//! library see.
use vstd::prelude::*;

verus! {

/// How many bytes an input would have to hold for a parser to go on.
#[derive(Clone, Copy, Debug, PartialEq, Eq, Structural)]
pub enum Needed {
    /// More bytes, without a known number.
    Unknown,
    /// The input has to be this long in all.
    Size(usize),
}

/// Why a parser refused an input.
#[derive(Clone, Copy, Debug, PartialEq, Eq, Structural)]
pub enum ErrorKind {
    /// The input does not start with the expected text.
    Tag,
    /// The bytes that were found do not stand for a value.
    MapRes,
    /// No alternative fits.
    Alt,
    /// The first byte is one that may not occur.
    IsNot,
    /// The first byte is not one of those that were expected.
    TakeWhile1,
    /// The byte is not one of the listed ones.
    OneOf,
    /// A repeated item consumed nothing.
    Many0,
    /// Not even one item was found.
    Many1,
    /// The first item of a list consumed nothing.
    SeparatedList,
    /// The first item of a list that may not be empty consumed nothing.
    SeparatedNonEmptyList,
    /// The input ended although it was said to be complete.
    Complete,
}

/// The result of a parser: the unparsed rest of the input with the value that
/// was found, or why there is none.
#[derive(Debug, PartialEq)]
pub enum IResult<I, O> {
    /// A value was found.
    Done(I, O),
    /// The input cannot be parsed.
    Error(ErrorKind),
    /// The input may be the start of something that can be parsed.
    Incomplete(Needed),
}

/// Why a scan ended without a value.
#[derive(Clone, Copy, Debug, PartialEq, Eq, Structural)]
pub enum Stop {
    /// The input cannot be parsed.
    Error(ErrorKind),
    /// The input may be the start of something that can be parsed.
    Incomplete(Needed),
    /// The input holds something for which the protocol engine has no answer,
    /// such as a number that does not fit.
    Undefined,
}

/// The result of a scan: the rest of the input and the value, or the reason to stop.
pub type Step<'a, T> = Result<(&'a [u8], T), Stop>;

/// The outcome of a parser on a byte sequence, as the grammar states it.
#[verifier::ext_equal]
pub enum Parsed<T> {
    Done(Seq<u8>, T),
    Error(ErrorKind),
    Incomplete(Needed),
    Undefined,
}

/// The outcome that a scan stands for.
pub open spec fn parsed<'a, T: DeepView>(r: Step<'a, T>) -> Parsed<T::V> {
    match r {
        Ok((rest, v)) => Parsed::Done(rest@, v.deep_view()),
        Err(Stop::Error(kind)) => Parsed::Error(kind),
        Err(Stop::Incomplete(needed)) => Parsed::Incomplete(needed),
        Err(Stop::Undefined) => Parsed::Undefined,
    }
}

impl<'a, T: DeepView> IResult<&'a [u8], T> {
    /// The outcome that a result stands for.
    pub open spec fn parsed(self) -> Parsed<T::V> {
        match self {
            IResult::Done(rest, v) => Parsed::Done(rest@, v.deep_view()),
            IResult::Error(kind) => Parsed::Error(kind),
            IResult::Incomplete(needed) => Parsed::Incomplete(needed),
        }
    }
}

/// `rest` is what is left of `s` when some bytes are taken from its front.
pub open spec fn tail_of(rest: Seq<u8>, s: Seq<u8>) -> bool {
    rest.len() <= s.len() && rest == s.skip(s.len() - rest.len())
}

/// Wherever a scan of `s` succeeds, what it leaves over is a tail of `s`.
pub open spec fn leaves_tail<'a, T>(r: Step<'a, T>, s: Seq<u8>) -> bool {
    r matches Ok((rest, _)) ==> tail_of(rest@, s)
}

pub broadcast proof fn tail_of_tail(a: Seq<u8>, b: Seq<u8>, c: Seq<u8>)
    requires
        #[trigger] tail_of(a, b),
        #[trigger] tail_of(b, c),
    ensures
        tail_of(a, c),
{
    assert(a =~= c.skip(c.len() - a.len()));
}

pub broadcast proof fn skipped_is_tail(s: Seq<u8>, k: int)
    requires
        0 <= k <= s.len(),
    ensures
        tail_of(#[trigger] s.skip(k), s),
{
}

pub proof fn whole_is_tail(s: Seq<u8>)
    ensures
        tail_of(s, s),
{
    assert(s =~= s.skip(0));
}

/// A size that was counted from position `k` of an input, counted from the
/// input's start.
pub open spec fn counted_from(needed: Needed, k: int) -> Needed {
    match needed {
        Needed::Size(n) if n + k <= usize::MAX => Needed::Size((n + k) as usize),
        _ => Needed::Unknown,
    }
}

impl<T> Parsed<T> {
    /// The outcome of a parser that ran at position `k` of an input, as an
    /// outcome on the whole input.
    pub open spec fn at(self, k: int) -> Parsed<T> {
        match self {
            Parsed::Incomplete(needed) => Parsed::Incomplete(counted_from(needed, k)),
            _ => self,
        }
    }

    /// On the input `s`: this, and behind it what `next` finds in the rest.
    pub open spec fn followed_by<U>(
        self,
        s: Seq<u8>,
        next: spec_fn(T, Seq<u8>) -> Parsed<U>,
    ) -> Parsed<U> {
        match self {
            Parsed::Done(rest, v) => next(v, rest).at(s.len() - rest.len()),
            Parsed::Error(kind) => Parsed::Error(kind),
            Parsed::Incomplete(needed) => Parsed::Incomplete(needed),
            Parsed::Undefined => Parsed::Undefined,
        }
    }

    /// The same outcome with the value put through `f`.
    pub open spec fn mapped<U>(self, f: spec_fn(T) -> U) -> Parsed<U> {
        match self {
            Parsed::Done(rest, v) => Parsed::Done(rest, f(v)),
            Parsed::Error(kind) => Parsed::Error(kind),
            Parsed::Incomplete(needed) => Parsed::Incomplete(needed),
            Parsed::Undefined => Parsed::Undefined,
        }
    }

    /// The outcome where no more input is to come.
    pub open spec fn completed(self) -> Parsed<T> {
        match self {
            Parsed::Incomplete(_) => Parsed::Error(ErrorKind::Complete),
            _ => self,
        }
    }

    /// This, or `other` where this is refused.
    pub open spec fn or(self, other: Parsed<T>) -> Parsed<T> {
        match self {
            Parsed::Error(_) => other,
            _ => self,
        }
    }

    /// This, or a refusal for want of an alternative.
    pub open spec fn or_none(self) -> Parsed<T> {
        self.or(Parsed::Error(ErrorKind::Alt))
    }
}

/// A scan that ran on `rest`, the tail of `whole`, as a scan of `whole`.
pub fn within<'a, T: DeepView>(whole: &[u8], rest: &[u8], r: Step<'a, T>) -> (out: Step<'a, T>)
    requires
        rest@.len() <= whole@.len(),
    ensures
        r is Ok ==> out == r,
        parsed(out) == parsed(r).at(whole@.len() - rest@.len()),
{
    match r {
        Err(Stop::Incomplete(Needed::Size(n))) => {
            let k: usize = whole.len() - rest.len();
            match n.checked_add(k) {
                Some(m) => Err(Stop::Incomplete(Needed::Size(m))),
                None => Err(Stop::Incomplete(Needed::Unknown)),
            }
        },
        r => r,
    }
}

/// A scan of an input that is known to be complete.
pub fn completed<'a, T: DeepView>(r: Step<'a, T>) -> (out: Step<'a, T>)
    ensures
        r is Ok ==> out == r,
        parsed(out) == parsed(r).completed(),
{
    match r {
        Err(Stop::Incomplete(_)) => Err(Stop::Error(ErrorKind::Complete)),
        r => r,
    }
}

/// Whether a scan was refused, so that another alternative is to be tried.
pub fn refused<'a, T: DeepView>(r: &Step<'a, T>) -> (b: bool)
    ensures
        b == (parsed(*r) is Error),
{
    matches!(r, Err(Stop::Error(_)))
}

/// Hands the outcome of a scan to a caller.
pub fn finish<'a, T: DeepView>(r: Step<'a, T>) -> (out: IResult<&'a [u8], T>)
    requires
        parsed(r) != Parsed::<T::V>::Undefined,
    ensures
        out.parsed() == parsed(r),
        out matches IResult::Done(rest, v) ==> r == Ok::<_, Stop>((rest, v)),
{
    match r {
        Ok((rest, v)) => IResult::Done(rest, v),
        Err(Stop::Error(kind)) => IResult::Error(kind),
        Err(Stop::Incomplete(needed)) => IResult::Incomplete(needed),
        Err(Stop::Undefined) => vstd::pervasive::unreached(),
    }
}

} // verus!
