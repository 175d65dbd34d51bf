//! Text in packets.
use vstd::prelude::*;
use vstd::utf8::{decode_utf8, encode_utf8, encode_utf8_decode_utf8, valid_utf8};
use crate::model::{GDBFeature, Known, KnownView};

verus! {

/// `core::str::from_utf8` takes a byte slice for text where it is valid UTF-8,
/// and refuses it otherwise.  The text has exactly the bytes of the slice.
#[verifier::external_body]
fn str_of_bytes<'a>(bytes: &'a [u8]) -> (text: Option<&'a str>)
    ensures
        text is Some <==> valid_utf8(bytes@),
        text matches Some(s) ==> encode_utf8(s@) == bytes@,
{
    core::str::from_utf8(bytes).ok()
}

/// The text that a byte slice encodes.
pub fn text_of<'a>(bytes: &'a [u8]) -> (text: Option<&'a str>)
    ensures
        text is Some <==> valid_utf8(bytes@),
        text matches Some(s) ==> s@ == decode_utf8(bytes@),
{
    let text = str_of_bytes(bytes);
    proof {
        if let Some(s) = text {
            encode_utf8_decode_utf8(s@);
        }
    }
    text
}

/// Whether two texts are the same.
pub fn same_text(a: &str, b: &str) -> (same: bool)
    ensures
        same == (a@ == b@),
{
    let x = a.as_bytes();
    let y = b.as_bytes();
    proof {
        encode_utf8_decode_utf8(a@);
        encode_utf8_decode_utf8(b@);
    }
    if x.len() != y.len() {
        return false;
    }
    let mut k: usize = 0;
    while k < x.len()
        invariant
            x@ == encode_utf8(a@),
            y@ == encode_utf8(b@),
            x@.len() == y@.len(),
            k <= x@.len(),
            forall|j: int| 0 <= j < k ==> x@[j] == y@[j],
        decreases x.len() - k,
    {
        if x[k] != y[k] {
            assert(x@[k as int] != y@[k as int]);
            return false;
        }
        k += 1;
    }
    assert(x@ =~= y@);
    true
}

/// The feature that goes by a name, if there is one.
pub open spec fn feature_named(name: Seq<char>) -> Option<GDBFeature> {
    if name == "multiprocess"@ {
        Some(GDBFeature::multiprocess)
    } else if name == "xmlRegisters"@ {
        Some(GDBFeature::xmlRegisters)
    } else if name == "qRelocInsn"@ {
        Some(GDBFeature::qRelocInsn)
    } else if name == "swbreak"@ {
        Some(GDBFeature::swbreak)
    } else if name == "hwbreak"@ {
        Some(GDBFeature::hwbreak)
    } else if name == "fork-events"@ {
        Some(GDBFeature::fork_events)
    } else if name == "vfork-events"@ {
        Some(GDBFeature::vfork_events)
    } else if name == "exec-events"@ {
        Some(GDBFeature::exec_events)
    } else if name == "vContSupported"@ {
        Some(GDBFeature::vContSupported)
    } else if name == "no-resumed"@ {
        Some(GDBFeature::no_resumed)
    } else if name == "QThreadEvents"@ {
        Some(GDBFeature::QThreadEvents)
    } else {
        None
    }
}

/// The feature that goes by a name, or the name itself.
pub open spec fn known(name: Seq<char>) -> KnownView {
    match feature_named(name) {
        Some(feature) => KnownView::Yes(feature),
        None => KnownView::No(name),
    }
}

impl GDBFeature {
    /// The feature that goes by a name, if there is one.
    pub fn from_str(name: &str) -> (feature: Option<GDBFeature>)
        ensures
            feature == feature_named(name@),
    {
        if same_text(name, "multiprocess") {
            Some(GDBFeature::multiprocess)
        } else if same_text(name, "xmlRegisters") {
            Some(GDBFeature::xmlRegisters)
        } else if same_text(name, "qRelocInsn") {
            Some(GDBFeature::qRelocInsn)
        } else if same_text(name, "swbreak") {
            Some(GDBFeature::swbreak)
        } else if same_text(name, "hwbreak") {
            Some(GDBFeature::hwbreak)
        } else if same_text(name, "fork-events") {
            Some(GDBFeature::fork_events)
        } else if same_text(name, "vfork-events") {
            Some(GDBFeature::vfork_events)
        } else if same_text(name, "exec-events") {
            Some(GDBFeature::exec_events)
        } else if same_text(name, "vContSupported") {
            Some(GDBFeature::vContSupported)
        } else if same_text(name, "no-resumed") {
            Some(GDBFeature::no_resumed)
        } else if same_text(name, "QThreadEvents") {
            Some(GDBFeature::QThreadEvents)
        } else {
            None
        }
    }
}

impl<'a> Known<'a> {
    /// The feature that goes by a name, or the name itself.
    pub fn named(name: &'a str) -> (k: Known<'a>)
        ensures
            k.deep_view() == known(name@),
    {
        match GDBFeature::from_str(name) {
            Some(feature) => Known::Yes(feature),
            None => Known::No(name),
        }
    }
}

} // verus!
