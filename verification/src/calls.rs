//! Calls of the handler, one by one.
//!
//! The methods of a handler take it by a shared reference, so nothing that they
//! say of it tells how often they were called.  Here the handler stands in a
//! private field.  A method can be called only by handing it over, as a function
//! that can be called once, and each such call is put on record.
use vstd::prelude::*;

verus! {

/// A method of the handler.
pub enum Method {
    QuerySupportedFeatures,
    Attached,
    Detach,
    Kill,
    PingThread,
    ReadMemory,
    WriteMemory,
    ReadRegister,
    WriteRegister,
    ReadGeneralRegisters,
    WriteGeneralRegisters,
    CurrentThread,
    SetCurrentThread,
    SearchMemory,
    HaltReason,
    Invoke,
    SetAddressRandomization,
    CatchSyscalls,
    SetPassSignals,
    SetProgramSignals,
    ThreadInfo,
    InsertSoftwareBreakpoint,
    InsertHardwareBreakpoint,
    InsertWriteWatchpoint,
    InsertReadWatchpoint,
    InsertAccessWatchpoint,
    RemoveSoftwareBreakpoint,
    RemoveHardwareBreakpoint,
    RemoveWriteWatchpoint,
    RemoveReadWatchpoint,
    RemoveAccessWatchpoint,
    Step,
    Cont,
}

/// A handler, and a record of the methods of it that were called.
pub struct Asked<'h, H> {
    handler: &'h H,
    made: Ghost<Seq<Method>>,
}

impl<'h, H> Asked<'h, H> {
    /// The handler.
    pub closed spec fn handler(self) -> &'h H {
        self.handler
    }

    /// The methods that were called, in their order.
    pub closed spec fn made(self) -> Seq<Method> {
        self.made@
    }

    /// A handler of which no method was called yet.
    pub fn new(handler: &'h H) -> (asked: Asked<'h, H>)
        ensures
            asked.handler() == handler,
            asked.made() == Seq::<Method>::empty(),
    {
        Asked { handler, made: Ghost(Seq::empty()) }
    }

    /// Calls a method of the handler that takes nothing else.
    pub fn ask<R, F: FnOnce(&'h H) -> R>(
        &mut self,
        f: F,
        Ghost(method): Ghost<Method>,
    ) -> (r: R)
        requires
            call_requires(f, (old(self).handler(),)),
        ensures
            call_ensures(f, (old(self).handler(),), r),
            final(self).handler() == old(self).handler(),
            final(self).made() == old(self).made().push(method),
    {
        let r = f(self.handler);
        self.made = Ghost(self.made@.push(method));
        r
    }

    /// Calls a method of the handler with one argument.
    pub fn ask_with<A, R, F: FnOnce(&'h H, A) -> R>(
        &mut self,
        f: F,
        a: A,
        Ghost(method): Ghost<Method>,
    ) -> (r: R)
        requires
            call_requires(f, (old(self).handler(), a)),
        ensures
            call_ensures(f, (old(self).handler(), a), r),
            final(self).handler() == old(self).handler(),
            final(self).made() == old(self).made().push(method),
    {
        let r = f(self.handler, a);
        self.made = Ghost(self.made@.push(method));
        r
    }

    /// Calls a method of the handler with two arguments.
    pub fn ask_with_two<A, B, R, F: FnOnce(&'h H, A, B) -> R>(
        &mut self,
        f: F,
        a: A,
        b: B,
        Ghost(method): Ghost<Method>,
    ) -> (r: R)
        requires
            call_requires(f, (old(self).handler(), a, b)),
        ensures
            call_ensures(f, (old(self).handler(), a, b), r),
            final(self).handler() == old(self).handler(),
            final(self).made() == old(self).made().push(method),
    {
        let r = f(self.handler, a, b);
        self.made = Ghost(self.made@.push(method));
        r
    }

    /// Calls a method of the handler with three arguments.
    pub fn ask_with_three<A, B, C, R, F: FnOnce(&'h H, A, B, C) -> R>(
        &mut self,
        f: F,
        a: A,
        b: B,
        c: C,
        Ghost(method): Ghost<Method>,
    ) -> (r: R)
        requires
            call_requires(f, (old(self).handler(), a, b, c)),
        ensures
            call_ensures(f, (old(self).handler(), a, b, c), r),
            final(self).handler() == old(self).handler(),
            final(self).made() == old(self).made().push(method),
    {
        let r = f(self.handler, a, b, c);
        self.made = Ghost(self.made@.push(method));
        r
    }
}

} // verus!
