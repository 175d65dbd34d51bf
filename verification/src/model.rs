//! The things that packets speak of, and a mathematical view of each.
use vstd::prelude::*;

verus! {

/// A packet as it stands on the wire.
#[derive(Debug, PartialEq, Eq)]
pub enum Packet {
    /// The last packet was received.
    Ack,
    /// The last packet was not received intact.
    Nack,
    /// A request to interrupt the target.
    Interrupt,
    /// A command, with the checksum that was sent along with it.
    Data(Vec<u8>, u8),
}

/// A feature of the client that this library has a name for.
#[allow(non_camel_case_types)]
#[derive(Copy, Clone, Debug, PartialEq)]
pub enum GDBFeature {
    multiprocess,
    xmlRegisters,
    qRelocInsn,
    swbreak,
    hwbreak,
    fork_events,
    vfork_events,
    exec_events,
    vContSupported,
    // these are not listed in the docs but GDB sends them
    no_resumed,
    QThreadEvents,
}

/// The name of a feature.
#[derive(Clone, Debug, PartialEq)]
pub enum Known<'a> {
    /// A feature with a name of its own.
    Yes(GDBFeature),
    /// Any other feature, as it was spelled.
    No(&'a str),
}

/// What the client says of a feature.
#[derive(Clone, Debug, PartialEq)]
pub enum FeatureSupported<'a> {
    /// The feature is supported.
    Yes,
    /// The feature is not supported.
    No,
    /// The client does not know yet.
    Maybe,
    /// The feature is supported, with this value.
    Value(&'a str),
}

/// A feature and what the client says of it.
#[derive(Clone, Debug, PartialEq)]
pub struct GDBFeatureSupported<'a>(pub Known<'a>, pub FeatureSupported<'a>);

/// A request for, or a change of, something other than the inferior's state.
#[derive(Clone, Debug, PartialEq)]
pub enum Query<'a> {
    /// Return the attached state of the indicated process.
    Attached(Option<u64>),
    /// Return the current thread ID.
    CurrentThread,
    /// Search memory for some bytes.
    SearchMemory { address: u64, length: u64, bytes: Vec<u8> },
    /// Tell the remote stub about features supported by gdb, and query the stub for features
    /// it supports.
    SupportedFeatures(Vec<GDBFeatureSupported<'a>>),
    /// Disable acknowledgments.
    StartNoAckMode,
    /// Invoke a command on the server.  The server defines commands
    /// and how to parse them.
    Invoke(Vec<u8>),
    /// Enable or disable address space randomization.
    AddressRandomization(bool),
    /// Enable or disable catching of syscalls.
    CatchSyscalls(Option<Vec<u64>>),
    /// Set the list of pass signals.
    PassSignals(Vec<u64>),
    /// Set the list of program signals.
    ProgramSignals(Vec<u64>),
    /// Get a string description of a thread.
    ThreadInfo(ThreadId),
}

/// Part of a process id.
#[derive(Clone, Copy, Debug, PartialEq)]
pub enum Id {
    /// A process or thread id.  This value may not be 0 or -1.
    Id(u32),
    /// A special form meaning all processes or all threads of a given
    /// process.
    All,
    /// A special form meaning any process or any thread of a given
    /// process.
    Any,
}

/// A thread identifier.  In the RSP this is just a numeric handle
/// that is passed across the wire.  It needn't correspond to any real
/// thread or process id (though obviously it may be more convenient
/// when it does).
#[derive(Clone, Copy, Debug, PartialEq)]
pub struct ThreadId {
    /// The process id.
    pub pid: Id,
    /// The thread id.
    pub tid: Id,
}

/// A descriptor for a watchpoint.  The particular semantics of the watchpoint
/// (watching memory for read or write access) are addressed elsewhere.
#[derive(Clone, Copy, Debug, PartialEq)]
pub struct Watchpoint {
    /// The address.
    pub addr: u64,
    /// The number of bytes covered.
    pub n_bytes: u64,
}

impl Watchpoint {
    /// A descriptor with these fields.
    pub fn new(addr: u64, n_bytes: u64) -> (w: Watchpoint)
        ensures
            w.addr == addr,
            w.n_bytes == n_bytes,
    {
        Watchpoint { addr, n_bytes }
    }
}

/// Target-specific bytecode.
#[derive(Clone, Debug, PartialEq)]
pub struct Bytecode {
    /// The bytecodes.
    pub bytecode: Vec<u8>,
}

/// A descriptor for a breakpoint.  The particular implementation technique
/// of the breakpoint, hardware or software, is handled elsewhere.
#[derive(Clone, Debug, PartialEq)]
pub struct Breakpoint {
    /// The address.
    pub addr: u64,
    /// The kind of breakpoint.  This field is generally 0 and its
    /// interpretation is target-specific.  A typical use of it is for
    /// targets that support multiple execution modes (e.g. ARM/Thumb);
    /// different values for this field would identify the kind of code
    /// region in which the breakpoint is being inserted.
    pub kind: u64,
    /// An optional list of target-specific bytecodes representing
    /// conditions.  Each condition should be evaluated by the target when
    /// the breakpoint is hit to determine whether the hit should be reported
    /// back to the debugger.
    pub conditions: Option<Vec<Bytecode>>,
    /// An optional list of target-specific bytecodes representing commands.
    /// These commands should be evaluated when a breakpoint is hit; any
    /// results are not reported back to the debugger.
    pub commands: Option<Vec<Bytecode>>,
}

impl Breakpoint {
    /// A descriptor with these fields.
    pub fn new(
        addr: u64,
        kind: u64,
        conditions: Option<Vec<Bytecode>>,
        commands: Option<Vec<Bytecode>>,
    ) -> (b: Breakpoint)
        ensures
            b.addr == addr,
            b.kind == kind,
            b.conditions == conditions,
            b.commands == commands,
    {
        Breakpoint { addr, kind, conditions, commands }
    }
}

/// A descriptor for a region of memory.
#[derive(Clone, Debug, PartialEq)]
pub struct MemoryRegion {
    /// The base address.
    pub address: u64,
    /// The length.
    pub length: u64,
}

impl MemoryRegion {
    /// A descriptor with these fields.
    pub fn new(address: u64, length: u64) -> (m: MemoryRegion)
        ensures
            m.address == address,
            m.length == length,
    {
        MemoryRegion { address, length }
    }
}

/// GDB remote protocol commands, as defined in (the GDB documentation)[1]
/// [1]: https://sourceware.org/gdb/onlinedocs/gdb/Packets.html#Packets
#[derive(Clone, Debug, PartialEq)]
pub enum Command<'a> {
    /// Detach from a process or from all processes.
    Detach(Option<u64>),
    /// Enable extended mode.
    EnableExtendedMode,
    /// Indicate the reason the target halted.
    TargetHaltReason,
    /// Read general registers.
    ReadGeneralRegisters,
    /// Write general registers.
    WriteGeneralRegisters(Vec<u8>),
    /// Read a single register.
    ReadRegister(u64),
    /// Write a single register.
    WriteRegister(u64, Vec<u8>),
    /// Kill request.  The argument is the optional PID, provided when the vKill
    /// packet was used, and None when the k packet was used.
    Kill(Option<u64>),
    /// Read specified region of memory.
    ReadMemory(MemoryRegion),
    /// Write specified region of memory.
    WriteMemory(MemoryRegion, Vec<u8>),
    /// A query, or a setting.
    Query(Query<'a>),
    /// Reset the target.
    Reset,
    /// Ask whether a thread is alive.
    PingThread(ThreadId),
    /// Interrupt the target.
    CtrlC,
    /// Some other `v` command.
    UnknownVCommand,
    /// Set the current thread for future commands, such as `ReadRegister`.
    SetCurrentThread(ThreadId),
    /// Insert a software breakpoint.
    InsertSoftwareBreakpoint(Breakpoint),
    /// Insert a hardware breakpoint
    InsertHardwareBreakpoint(Breakpoint),
    /// Insert a write watchpoint.
    InsertWriteWatchpoint(Watchpoint),
    /// Insert a read watchpoint.
    InsertReadWatchpoint(Watchpoint),
    /// Insert an access watchpoint.
    InsertAccessWatchpoint(Watchpoint),
    /// Remove a software breakpoint.
    RemoveSoftwareBreakpoint(Breakpoint),
    /// Remove a hardware breakpoint.
    RemoveHardwareBreakpoint(Breakpoint),
    /// Remove a write watchpoint.
    RemoveWriteWatchpoint(Watchpoint),
    /// Remove a read watchpoint.
    RemoveReadWatchpoint(Watchpoint),
    /// Remove an access watchpoint.
    RemoveAccessWatchpoint(Watchpoint),
    /// Execute one instruction.
    Step,
    /// Resume the target.
    Continue,
}

/// What a `Z` or `z` packet asks for.
#[derive(Copy, Clone, Debug, PartialEq)]
pub enum ZAction {
    Insert,
    Remove,
}

/// What a `Z` or `z` packet is about.
#[derive(Copy, Clone, Debug, PartialEq)]
pub enum ZType {
    SoftwareBreakpoint,
    HardwareBreakpoint,
    WriteWatchpoint,
    ReadWatchpoint,
    AccessWatchpoint,
}

/// The view of a [`Packet`].
#[verifier::ext_equal]
pub enum PacketView {
    Ack,
    Nack,
    Interrupt,
    Data(Seq<u8>, u8),
}

/// The view of a [`Known`].
#[verifier::ext_equal]
pub enum KnownView {
    Yes(GDBFeature),
    No(Seq<char>),
}

/// The view of a [`FeatureSupported`].
#[verifier::ext_equal]
pub enum FeatureSupportedView {
    Yes,
    No,
    Maybe,
    Value(Seq<char>),
}

/// The view of a [`GDBFeatureSupported`].
#[verifier::ext_equal]
pub struct GDBFeatureSupportedView(pub KnownView, pub FeatureSupportedView);

/// The view of a [`Query`].
#[verifier::ext_equal]
pub enum QueryView {
    Attached(Option<u64>),
    CurrentThread,
    SearchMemory { address: u64, length: u64, bytes: Seq<u8> },
    SupportedFeatures(Seq<GDBFeatureSupportedView>),
    StartNoAckMode,
    Invoke(Seq<u8>),
    AddressRandomization(bool),
    CatchSyscalls(Option<Seq<u64>>),
    PassSignals(Seq<u64>),
    ProgramSignals(Seq<u64>),
    ThreadInfo(ThreadId),
}

/// The view of a [`Breakpoint`]; each bytecode is its bytes.
#[verifier::ext_equal]
pub struct BreakpointView {
    pub addr: u64,
    pub kind: u64,
    pub conditions: Option<Seq<Seq<u8>>>,
    pub commands: Option<Seq<Seq<u8>>>,
}

/// The view of a [`Command`].
#[verifier::ext_equal]
pub enum CommandView {
    Detach(Option<u64>),
    EnableExtendedMode,
    TargetHaltReason,
    ReadGeneralRegisters,
    WriteGeneralRegisters(Seq<u8>),
    ReadRegister(u64),
    WriteRegister(u64, Seq<u8>),
    Kill(Option<u64>),
    ReadMemory(MemoryRegion),
    WriteMemory(MemoryRegion, Seq<u8>),
    Query(QueryView),
    Reset,
    PingThread(ThreadId),
    CtrlC,
    UnknownVCommand,
    SetCurrentThread(ThreadId),
    InsertSoftwareBreakpoint(BreakpointView),
    InsertHardwareBreakpoint(BreakpointView),
    InsertWriteWatchpoint(Watchpoint),
    InsertReadWatchpoint(Watchpoint),
    InsertAccessWatchpoint(Watchpoint),
    RemoveSoftwareBreakpoint(BreakpointView),
    RemoveHardwareBreakpoint(BreakpointView),
    RemoveWriteWatchpoint(Watchpoint),
    RemoveReadWatchpoint(Watchpoint),
    RemoveAccessWatchpoint(Watchpoint),
    Step,
    Continue,
}

impl DeepView for Packet {
    type V = PacketView;

    open spec fn deep_view(&self) -> PacketView {
        match *self {
            Packet::Ack => PacketView::Ack,
            Packet::Nack => PacketView::Nack,
            Packet::Interrupt => PacketView::Interrupt,
            Packet::Data(data, checksum) => PacketView::Data(data@, checksum),
        }
    }
}

impl<'a> DeepView for Known<'a> {
    type V = KnownView;

    open spec fn deep_view(&self) -> KnownView {
        match *self {
            Known::Yes(feature) => KnownView::Yes(feature),
            Known::No(name) => KnownView::No(name@),
        }
    }
}

impl<'a> DeepView for FeatureSupported<'a> {
    type V = FeatureSupportedView;

    open spec fn deep_view(&self) -> FeatureSupportedView {
        match *self {
            FeatureSupported::Yes => FeatureSupportedView::Yes,
            FeatureSupported::No => FeatureSupportedView::No,
            FeatureSupported::Maybe => FeatureSupportedView::Maybe,
            FeatureSupported::Value(value) => FeatureSupportedView::Value(value@),
        }
    }
}

impl<'a> DeepView for GDBFeatureSupported<'a> {
    type V = GDBFeatureSupportedView;

    open spec fn deep_view(&self) -> GDBFeatureSupportedView {
        GDBFeatureSupportedView(self.0.deep_view(), self.1.deep_view())
    }
}

impl<'a> DeepView for Query<'a> {
    type V = QueryView;

    open spec fn deep_view(&self) -> QueryView {
        match *self {
            Query::Attached(pid) => QueryView::Attached(pid),
            Query::CurrentThread => QueryView::CurrentThread,
            Query::SearchMemory { address, length, bytes } => QueryView::SearchMemory {
                address,
                length,
                bytes: bytes@,
            },
            Query::SupportedFeatures(features) => QueryView::SupportedFeatures(
                features.deep_view(),
            ),
            Query::StartNoAckMode => QueryView::StartNoAckMode,
            Query::Invoke(bytes) => QueryView::Invoke(bytes@),
            Query::AddressRandomization(on) => QueryView::AddressRandomization(on),
            Query::CatchSyscalls(Some(calls)) => QueryView::CatchSyscalls(Some(calls@)),
            Query::CatchSyscalls(None) => QueryView::CatchSyscalls(None),
            Query::PassSignals(signals) => QueryView::PassSignals(signals@),
            Query::ProgramSignals(signals) => QueryView::ProgramSignals(signals@),
            Query::ThreadInfo(id) => QueryView::ThreadInfo(id),
        }
    }
}

impl DeepView for Id {
    type V = Id;

    open spec fn deep_view(&self) -> Id {
        *self
    }
}

impl DeepView for ThreadId {
    type V = ThreadId;

    open spec fn deep_view(&self) -> ThreadId {
        *self
    }
}

impl DeepView for Bytecode {
    type V = Seq<u8>;

    open spec fn deep_view(&self) -> Seq<u8> {
        self.bytecode@
    }
}

impl DeepView for Breakpoint {
    type V = BreakpointView;

    open spec fn deep_view(&self) -> BreakpointView {
        BreakpointView {
            addr: self.addr,
            kind: self.kind,
            conditions: self.conditions.deep_view(),
            commands: self.commands.deep_view(),
        }
    }
}

impl DeepView for ZAction {
    type V = ZAction;

    open spec fn deep_view(&self) -> ZAction {
        *self
    }
}

impl DeepView for ZType {
    type V = ZType;

    open spec fn deep_view(&self) -> ZType {
        *self
    }
}

impl<'a> DeepView for Command<'a> {
    type V = CommandView;

    open spec fn deep_view(&self) -> CommandView {
        match *self {
            Command::Detach(pid) => CommandView::Detach(pid),
            Command::EnableExtendedMode => CommandView::EnableExtendedMode,
            Command::TargetHaltReason => CommandView::TargetHaltReason,
            Command::ReadGeneralRegisters => CommandView::ReadGeneralRegisters,
            Command::WriteGeneralRegisters(bytes) => CommandView::WriteGeneralRegisters(bytes@),
            Command::ReadRegister(regno) => CommandView::ReadRegister(regno),
            Command::WriteRegister(regno, bytes) => CommandView::WriteRegister(regno, bytes@),
            Command::Kill(pid) => CommandView::Kill(pid),
            Command::ReadMemory(region) => CommandView::ReadMemory(region),
            Command::WriteMemory(region, bytes) => CommandView::WriteMemory(region, bytes@),
            Command::Query(query) => CommandView::Query(query.deep_view()),
            Command::Reset => CommandView::Reset,
            Command::PingThread(id) => CommandView::PingThread(id),
            Command::CtrlC => CommandView::CtrlC,
            Command::UnknownVCommand => CommandView::UnknownVCommand,
            Command::SetCurrentThread(id) => CommandView::SetCurrentThread(id),
            Command::InsertSoftwareBreakpoint(b) => CommandView::InsertSoftwareBreakpoint(
                b.deep_view(),
            ),
            Command::InsertHardwareBreakpoint(b) => CommandView::InsertHardwareBreakpoint(
                b.deep_view(),
            ),
            Command::InsertWriteWatchpoint(w) => CommandView::InsertWriteWatchpoint(w),
            Command::InsertReadWatchpoint(w) => CommandView::InsertReadWatchpoint(w),
            Command::InsertAccessWatchpoint(w) => CommandView::InsertAccessWatchpoint(w),
            Command::RemoveSoftwareBreakpoint(b) => CommandView::RemoveSoftwareBreakpoint(
                b.deep_view(),
            ),
            Command::RemoveHardwareBreakpoint(b) => CommandView::RemoveHardwareBreakpoint(
                b.deep_view(),
            ),
            Command::RemoveWriteWatchpoint(w) => CommandView::RemoveWriteWatchpoint(w),
            Command::RemoveReadWatchpoint(w) => CommandView::RemoveReadWatchpoint(w),
            Command::RemoveAccessWatchpoint(w) => CommandView::RemoveAccessWatchpoint(w),
            Command::Step => CommandView::Step,
            Command::Continue => CommandView::Continue,
        }
    }
}

/// The view of bytes is the bytes.
pub broadcast proof fn bytes_deep_view(v: Vec<u8>)
    ensures
        #[trigger] v.deep_view() == v@,
{
    assert(v.deep_view() =~= v@);
}

/// The view of numbers is the numbers.
pub broadcast proof fn numbers_deep_view(v: Vec<u64>)
    ensures
        #[trigger] v.deep_view() == v@,
{
    assert(v.deep_view() =~= v@);
}

} // verus!
