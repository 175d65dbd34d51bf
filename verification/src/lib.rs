//! An implementation of the server side of the GDB Remote Serial
//! Protocol -- the protocol used by GDB and LLDB to talk to remote
//! targets.
//!
//! This library attempts to hide many of the protocol warts from
//! server implementations.  It is also mildly opinionated, in that it
//! implements certain features itself and requires users of the
//! library to conform.  For example, it unconditionally implements
//! the multiprocess and non-stop modes.
//!
//! ## Protocol Documentation
//!
//! * [Documentation of the protocol](https://sourceware.org/gdb/onlinedocs/gdb/Remote-Protocol.html)
//! * [LLDB extensions](https://github.com/llvm-mirror/lldb/blob/master/docs/lldb-gdb-remote.txt)
pub mod bare;
pub mod calls;
pub mod combine;
pub mod defined;
pub mod digits;
pub mod exchanges;
pub mod forms;
pub mod grammar;
pub mod handler;
pub mod hex;
pub mod laws;
pub mod lists;
pub mod model;
pub mod outcome;
pub mod packets;
pub mod parse;
pub mod queries;
pub mod refusals;
pub mod replies;
pub mod requests;
pub mod response;
pub mod scan;
pub mod server;
pub mod sessions;
pub mod shapes;
pub mod text;
pub mod threads;
pub mod told;
pub mod writer;

pub use crate::handler::{Error, Handler, ProcessType, StopReason};
pub use crate::model::{Breakpoint, Bytecode, Id, MemoryRegion, ThreadId, Watchpoint};
