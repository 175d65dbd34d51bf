//! What a server has to provide.
use vstd::prelude::*;
use crate::model::{Breakpoint, MemoryRegion, ThreadId, Watchpoint};

verus! {

/// An error as returned by a `Handler` method.
pub enum Error {
    /// A plain error.  The meaning of the value is not defined by the
    /// protocol.  Different values can therefore be used by a handler
    /// for debugging purposes.
    Error(u8),
    /// The request is not implemented.  Note that, in some cases, the
    /// protocol implementation tells the client that a feature is implemented;
    /// if the handler method then returns `Unimplemented`, the client will
    /// be confused.  So, normally it is best either to not implement
    /// a `Handler` method, or to return `Error` from implementations.
    Unimplemented,
}

/// The `qAttached` packet lets the client distinguish between
/// attached and created processes, so that it knows whether to send a
/// detach request when disconnecting.
#[derive(Clone, Copy, Debug)]
pub enum ProcessType {
    /// The process already existed and was attached to.
    Attached,
    /// The process was created by the server.
    Created,
}

/// The possible reasons for a thread to stop.
#[derive(Clone, Copy, Debug)]
pub enum StopReason {
    /// Process stopped due to a signal.
    Signal(u8),
    /// The process with the given PID exited with the given status.
    Exited(u64, u8),
    /// The process with the given PID terminated due to the given
    /// signal.
    ExitedWithSignal(u64, u8),
    /// The indicated thread exited with the given status.
    ThreadExited(ThreadId, u64),
    /// There are no remaining resumed threads.
    NoMoreThreads,
}

/// This trait should be implemented by servers.  Methods in the trait
/// generally default to returning `Error::Unimplemented`; but some
/// exceptions are noted below.  Methods that must be implemented in
/// order for the server to work at all do not have a default
/// implementation.
pub trait Handler {
    /// Return a vector of additional features supported by this handler.
    /// Note that there currently is no way to override the built-in
    /// features that are always handled by the protocol
    /// implementation.
    fn query_supported_features(&self) -> (r: Vec<String>)
        default_ensures
            r@ == Seq::<String>::empty(),
    {
        Vec::new()
    }

    /// Indicate whether the process in question already existed, and
    /// was attached to; or whether it was created by this server.
    fn attached(&self, _pid: Option<u64>) -> Result<ProcessType, Error>;

    /// Detach from the process.
    fn detach(&self, _pid: Option<u64>) -> (r: Result<(), Error>)
        default_ensures
            r == Err::<(), Error>(Error::Unimplemented),
    {
        Err(Error::Unimplemented)
    }

    /// Kill the indicated process.  If no process is given, then the
    /// precise effect is unspecified; but killing any or all
    /// processes, or even rebooting an entire bare-metal target,
    /// would be appropriate.
    fn kill(&self, _pid: Option<u64>) -> (r: Result<(), Error>)
        default_ensures
            r == Err::<(), Error>(Error::Unimplemented),
    {
        Err(Error::Unimplemented)
    }

    /// Check whether the indicated thread is alive.  If alive, return
    /// `()`.  Otherwise, return an error.
    fn ping_thread(&self, _id: ThreadId) -> (r: Result<(), Error>)
        default_ensures
            r == Err::<(), Error>(Error::Unimplemented),
    {
        Err(Error::Unimplemented)
    }

    /// Read a memory region.
    fn read_memory(&self, _region: MemoryRegion) -> (r: Result<Vec<u8>, Error>)
        default_ensures
            r == Err::<Vec<u8>, Error>(Error::Unimplemented),
    {
        Err(Error::Unimplemented)
    }

    /// Write the provided bytes to memory at the given address.
    fn write_memory(&self, _address: u64, _bytes: &[u8]) -> (r: Result<(), Error>)
        default_ensures
            r == Err::<(), Error>(Error::Unimplemented),
    {
        Err(Error::Unimplemented)
    }

    /// Read the contents of the indicated register.  The results
    /// should be in target byte order.  Note that a value-based API
    /// is not provided here because on some architectures, there are
    /// registers wider than ordinary integer types.
    fn read_register(&self, _register: u64) -> (r: Result<Vec<u8>, Error>)
        default_ensures
            r == Err::<Vec<u8>, Error>(Error::Unimplemented),
    {
        Err(Error::Unimplemented)
    }

    /// Set the contents of the indicated register to the given
    /// contents.  The contents are in target byte order.  Note that a
    /// value-based API is not provided here because on some
    /// architectures, there are registers wider than ordinary integer
    /// types.
    fn write_register(&self, _register: u64, _contents: &[u8]) -> (r: Result<(), Error>)
        default_ensures
            r == Err::<(), Error>(Error::Unimplemented),
    {
        Err(Error::Unimplemented)
    }

    /// Return the general registers.  The registers are returned as a
    /// vector of bytes, with the registers appearing contiguously in
    /// a target-specific order, with the bytes laid out in the target
    /// byte order.
    fn read_general_registers(&self) -> (r: Result<Vec<u8>, Error>)
        default_ensures
            r == Err::<Vec<u8>, Error>(Error::Unimplemented),
    {
        Err(Error::Unimplemented)
    }

    /// Write the general registers.  The registers are specified as a
    /// vector of bytes, with the registers appearing contiguously in
    /// a target-specific order, with the bytes laid out in the target
    /// byte order.
    fn write_general_registers(&self, _contents: &[u8]) -> (r: Result<(), Error>)
        default_ensures
            r == Err::<(), Error>(Error::Unimplemented),
    {
        Err(Error::Unimplemented)
    }

    /// Return the identifier of the current thread.
    fn current_thread(&self) -> (r: Result<Option<ThreadId>, Error>)
        default_ensures
            r == Ok::<Option<ThreadId>, Error>(None),
    {
        Ok(None)
    }

    /// Set the current thread for future operations.
    fn set_current_thread(&self, _id: ThreadId) -> (r: Result<(), Error>)
        default_ensures
            r == Err::<(), Error>(Error::Unimplemented),
    {
        Err(Error::Unimplemented)
    }

    /// Search memory.  The search begins at the given address, and
    /// ends after length bytes have been searched.  If the provided
    /// bytes are not seen, `None` should be returned; otherwise, the
    /// address at which the bytes were found should be returned.
    fn search_memory(&self, _address: u64, _length: u64, _bytes: &[u8]) -> (r: Result<
        Option<u64>,
        Error,
    >)
        default_ensures
            r == Err::<Option<u64>, Error>(Error::Unimplemented),
    {
        Err(Error::Unimplemented)
    }

    /// Return the reason that the inferior has halted.
    fn halt_reason(&self) -> Result<StopReason, Error>;

    /// Invoke a command.  The command is just a sequence of bytes
    /// (typically ASCII characters), to be interpreted by the server
    /// in any way it likes.  The result is output to send back to the
    /// client.  This is used to implement gdb's `monitor` command.
    fn invoke(&self, _command: &[u8]) -> (r: Result<String, Error>)
        default_ensures
            r == Err::<String, Error>(Error::Unimplemented),
    {
        Err(Error::Unimplemented)
    }

    /// Enable or disable address space randomization.  This setting
    /// should be used when launching a new process.
    fn set_address_randomization(&self, _enable: bool) -> (r: Result<(), Error>)
        default_ensures
            r == Err::<(), Error>(Error::Unimplemented),
    {
        Err(Error::Unimplemented)
    }

    /// Start or stop catching syscalls.  If the argument is `None`, then
    /// stop catching syscalls.  Otherwise, start catching syscalls.
    /// If any syscalls are specified, then only those need be caught;
    /// however, it is ok to report syscall stops that aren't in the
    /// list if that is convenient.
    fn catch_syscalls(&self, _syscalls: Option<Vec<u64>>) -> (r: Result<(), Error>)
        default_ensures
            r == Err::<(), Error>(Error::Unimplemented),
    {
        Err(Error::Unimplemented)
    }

    /// Set the list of "pass signals".  A signal marked as a pass
    /// signal can be delivered to the inferior.  No stopping or
    /// notification of the client is required.
    fn set_pass_signals(&self, _signals: Vec<u64>) -> (r: Result<(), Error>)
        default_ensures
            r == Ok::<(), Error>(()),
    {
        Ok(())
    }

    /// Set the list of "program signals".  A signal marked as a
    /// program signal can be delivered to the inferior; other signals
    /// should be silently discarded.
    fn set_program_signals(&self, _signals: Vec<u64>) -> (r: Result<(), Error>)
        default_ensures
            r == Ok::<(), Error>(()),
    {
        Ok(())
    }

    /// Return information about a given thread.  The returned
    /// information is just a string description that can be presented
    /// to the user.
    fn thread_info(&self, _thread: ThreadId) -> (r: Result<String, Error>)
        default_ensures
            r == Err::<String, Error>(Error::Unimplemented),
    {
        Err(Error::Unimplemented)
    }

    /// Insert a software breakpoint.
    fn insert_software_breakpoint(&self, _breakpoint: Breakpoint) -> (r: Result<(), Error>)
        default_ensures
            r == Err::<(), Error>(Error::Unimplemented),
    {
        Err(Error::Unimplemented)
    }

    /// Insert a hardware breakpoint.
    fn insert_hardware_breakpoint(&self, _breakpoint: Breakpoint) -> (r: Result<(), Error>)
        default_ensures
            r == Err::<(), Error>(Error::Unimplemented),
    {
        Err(Error::Unimplemented)
    }

    /// Insert a write watchpoint.
    fn insert_write_watchpoint(&self, _watchpoint: Watchpoint) -> (r: Result<(), Error>)
        default_ensures
            r == Err::<(), Error>(Error::Unimplemented),
    {
        Err(Error::Unimplemented)
    }

    /// Insert a read watchpoint.
    fn insert_read_watchpoint(&self, _watchpoint: Watchpoint) -> (r: Result<(), Error>)
        default_ensures
            r == Err::<(), Error>(Error::Unimplemented),
    {
        Err(Error::Unimplemented)
    }

    /// Insert an access watchpoint.
    fn insert_access_watchpoint(&self, _watchpoint: Watchpoint) -> (r: Result<(), Error>)
        default_ensures
            r == Err::<(), Error>(Error::Unimplemented),
    {
        Err(Error::Unimplemented)
    }

    /// Remove a software breakpoint.
    fn remove_software_breakpoint(&self, _breakpoint: Breakpoint) -> (r: Result<(), Error>)
        default_ensures
            r == Err::<(), Error>(Error::Unimplemented),
    {
        Err(Error::Unimplemented)
    }

    /// Remove a hardware breakpoint.
    fn remove_hardware_breakpoint(&self, _breakpoint: Breakpoint) -> (r: Result<(), Error>)
        default_ensures
            r == Err::<(), Error>(Error::Unimplemented),
    {
        Err(Error::Unimplemented)
    }

    /// Remove a write watchpoint.
    fn remove_write_watchpoint(&self, _watchpoint: Watchpoint) -> (r: Result<(), Error>)
        default_ensures
            r == Err::<(), Error>(Error::Unimplemented),
    {
        Err(Error::Unimplemented)
    }

    /// Remove a read watchpoint.
    fn remove_read_watchpoint(&self, _watchpoint: Watchpoint) -> (r: Result<(), Error>)
        default_ensures
            r == Err::<(), Error>(Error::Unimplemented),
    {
        Err(Error::Unimplemented)
    }

    /// Remove an access watchpoint.
    fn remove_access_watchpoint(&self, _watchpoint: Watchpoint) -> (r: Result<(), Error>)
        default_ensures
            r == Err::<(), Error>(Error::Unimplemented),
    {
        Err(Error::Unimplemented)
    }

    /// Step
    fn step(&self) -> (r: Result<StopReason, Error>)
        default_ensures
            r == Err::<StopReason, Error>(Error::Unimplemented),
    {
        Err(Error::Unimplemented)
    }

    /// continue
    fn cont(&self) -> (r: Result<StopReason, Error>)
        default_ensures
            r == Err::<StopReason, Error>(Error::Unimplemented),
    {
        Err(Error::Unimplemented)
    }
}

} // verus!
