//! What a server does of itself: the handler that implements nothing which it
//! does not have to, and what a client gets from it.
use vstd::prelude::*;
use vstd::utf8::encode_utf8;
use crate::exchanges::{features_in_order, texts_behind};
use crate::grammar;
use crate::handler::{Error, Handler, ProcessType, StopReason};
use crate::hex::lower_hex_byte;
use crate::model::{CommandView, QueryView};
use crate::outcome::Parsed;
use crate::response::Response;
use crate::server::{answers, reported_features, Outcome};
use crate::told::reply_to;

verus! {

/// A handler that leaves to the trait whatever the trait provides, and does not
/// support the rest.
pub struct Bare;

impl Handler for Bare {
    fn attached(&self, _pid: Option<u64>) -> (r: Result<ProcessType, Error>)
        ensures
            r == Err::<ProcessType, Error>(Error::Unimplemented),
    {
        Err(Error::Unimplemented)
    }

    fn halt_reason(&self) -> (r: Result<StopReason, Error>)
        ensures
            r == Err::<StopReason, Error>(Error::Unimplemented),
    {
        Err(Error::Unimplemented)
    }
}

/// A command that is done without any help of the handler, or that its handler
/// need not do anything about.
pub open spec fn granted(command: CommandView) -> bool {
    match command {
        CommandView::EnableExtendedMode => true,
        CommandView::Query(QueryView::StartNoAckMode) => true,
        CommandView::Query(QueryView::CurrentThread) => true,
        CommandView::Query(QueryView::PassSignals(_)) => true,
        CommandView::Query(QueryView::ProgramSignals(_)) => true,
        _ => false,
    }
}

/// A handler that overrides nothing supports nothing but what is done without
/// its help: the client is told `OK` to what is granted, the size of a packet if
/// it asks what is supported, that its length is wrong if it is, and to anything
/// else nothing.
pub proof fn bare_handler_supports_nothing(
    handler: &Bare,
    data: Seq<u8>,
    rest: Seq<u8>,
    command: CommandView,
    outcome: Outcome,
)
    requires
        grammar::command(data) == Parsed::Done(rest, command),
        answers(handler, data, outcome),
    ensures
        reply_to(outcome) == match command {
            CommandView::Query(QueryView::SupportedFeatures(_)) => encode_utf8(
                "PacketSize=65536"@,
            ),
            CommandView::WriteMemory(region, bytes) => if region.length as usize == bytes.len() {
                seq![]
            } else {
                encode_utf8("E"@) + seq![0x30u8, 0x31u8]
            },
            _ => if granted(command) {
                encode_utf8("OK"@)
            } else {
                seq![]
            },
        },
{
    match command {
        CommandView::Query(QueryView::SupportedFeatures(_)) => {
            let extra = choose|extra: Vec<String>| #[trigger]
                call_ensures(Bare::query_supported_features, (handler,), extra) && (
                outcome matches Ok(Response::String(text)) && text@ == reported_features(
                    extra.deep_view(),
                ));
            assert(extra.deep_view() =~= seq![]);
            features_in_order(seq![]);
            assert(texts_behind(seq![]) =~= seq![]);
            assert("PacketSize=65536"@ + texts_behind(seq![]) =~= "PacketSize=65536"@);
        },
        CommandView::WriteMemory(region, bytes) => {
            if region.length as usize != bytes.len() {
                assert(lower_hex_byte(1) =~= seq![0x30u8, 0x31u8]);
            }
        },
        _ => {},
    }
}

} // verus!
