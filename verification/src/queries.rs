//! What a client writes for a query, and that the query is read back from it.
use vstd::prelude::*;
use vstd::utf8::{
    encode_utf8, encode_utf8_decode_utf8, encode_utf8_valid_utf8, is_ascii_chars,
    is_ascii_chars_encode_utf8,
};
use crate::combine::{
    free_of, is_not, run_ends, separated, separated_list, tag, tag_accepts, tag_refuses_at,
};
use crate::grammar;
use crate::hex::{lower_hex, lower_hex_bytes};
use crate::laws::{number_read_back, valid_thread};
use crate::model::{
    FeatureSupportedView, GDBFeature, GDBFeatureSupportedView, KnownView, QueryView, ThreadId,
};
use crate::outcome::{ErrorKind, Parsed};
use crate::requests::{
    further_text, last_bytes, last_number, last_thread, numbers_read_back, numbers_text,
    punctuation, row_read_back, tag_at_end,
};
use crate::response::thread_id_text;
use crate::text::{feature_named, known};

verus! {

/// The name that a feature goes by.
pub open spec fn feature_name(feature: GDBFeature) -> Seq<char> {
    match feature {
        GDBFeature::multiprocess => "multiprocess"@,
        GDBFeature::xmlRegisters => "xmlRegisters"@,
        GDBFeature::qRelocInsn => "qRelocInsn"@,
        GDBFeature::swbreak => "swbreak"@,
        GDBFeature::hwbreak => "hwbreak"@,
        GDBFeature::fork_events => "fork-events"@,
        GDBFeature::vfork_events => "vfork-events"@,
        GDBFeature::exec_events => "exec-events"@,
        GDBFeature::vContSupported => "vContSupported"@,
        GDBFeature::no_resumed => "no-resumed"@,
        GDBFeature::QThreadEvents => "QThreadEvents"@,
    }
}

/// The name of a feature as it is written.
pub open spec fn name_text(name: KnownView) -> Seq<char> {
    match name {
        KnownView::Yes(feature) => feature_name(feature),
        KnownView::No(text) => text,
    }
}

/// A feature and what is said of it.
pub open spec fn feature_text(f: GDBFeatureSupportedView) -> Seq<u8> {
    encode_utf8(name_text(f.0)) + match f.1 {
        FeatureSupportedView::Yes => seq![0x2bu8],
        FeatureSupportedView::No => seq![0x2du8],
        FeatureSupportedView::Maybe => seq![0x3fu8],
        FeatureSupportedView::Value(value) => encode_utf8("="@) + encode_utf8(value),
    }
}

/// A feature that can be read back.  A name holds neither `;` nor `=`, and is
/// not another name for a feature with a name of its own.  A value holds no
/// `;` and ends in neither `+` nor `-`; the feature that has it has a name.
pub open spec fn valid_feature(f: GDBFeatureSupportedView) -> bool {
    &&& f.0 matches KnownView::No(name) ==> {
        &&& feature_named(name) is None
        &&& !encode_utf8(name).contains(0x3bu8)
        &&& !encode_utf8(name).contains(0x3du8)
    }
    &&& match f.1 {
        FeatureSupportedView::Yes => true,
        FeatureSupportedView::No => true,
        FeatureSupportedView::Maybe => false,
        FeatureSupportedView::Value(value) => {
            let bytes = encode_utf8(value);
            &&& name_text(f.0).len() > 0
            &&& !bytes.contains(0x3bu8)
            &&& bytes.len() > 0 ==> bytes.last() != 0x2b && bytes.last() != 0x2d
        },
    }
}

/// The features of a list that follow the first one.
pub open spec fn further_features_text(list: Seq<GDBFeatureSupportedView>) -> Seq<u8>
    decreases list.len(),
{
    if list.len() == 0 {
        seq![]
    } else {
        encode_utf8(";"@) + (feature_text(list[0]) + further_features_text(list.skip(1)))
    }
}

/// The features of a list, with a `;` between them.
pub open spec fn features_text(list: Seq<GDBFeatureSupportedView>) -> Seq<u8> {
    if list.len() == 0 {
        seq![]
    } else {
        feature_text(list[0]) + further_features_text(list.skip(1))
    }
}

/// A feature is found by its name.
proof fn feature_found(feature: GDBFeature)
    ensures
        feature_named(feature_name(feature)) == Some(feature),
{
    reveal_strlit("multiprocess");
    reveal_strlit("xmlRegisters");
    reveal_strlit("qRelocInsn");
    reveal_strlit("swbreak");
    reveal_strlit("hwbreak");
    reveal_strlit("fork-events");
    reveal_strlit("vfork-events");
    reveal_strlit("exec-events");
    reveal_strlit("vContSupported");
    reveal_strlit("no-resumed");
    reveal_strlit("QThreadEvents");
    // No two names have the same length and the same first character.
    assert("multiprocess"@[0] != "xmlRegisters"@[0]);
    assert("multiprocess"@[0] != "vfork-events"@[0]);
    assert("xmlRegisters"@[0] != "vfork-events"@[0]);
    assert("qRelocInsn"@[0] != "no-resumed"@[0]);
    assert("swbreak"@[0] != "hwbreak"@[0]);
    assert("fork-events"@[0] != "exec-events"@[0]);
    assert("multiprocess"@.len() == 12);
    assert("xmlRegisters"@.len() == 12);
    assert("qRelocInsn"@.len() == 10);
    assert("swbreak"@.len() == 7);
    assert("hwbreak"@.len() == 7);
    assert("fork-events"@.len() == 11);
    assert("vfork-events"@.len() == 12);
    assert("exec-events"@.len() == 11);
    assert("vContSupported"@.len() == 14);
    assert("no-resumed"@.len() == 10);
    assert("QThreadEvents"@.len() == 13);
}

/// Each feature goes by its name, and nothing else does.
pub proof fn features_by_name(name: Seq<char>)
    ensures
        feature_named("multiprocess"@) == Some(GDBFeature::multiprocess),
        feature_named("xmlRegisters"@) == Some(GDBFeature::xmlRegisters),
        feature_named("qRelocInsn"@) == Some(GDBFeature::qRelocInsn),
        feature_named("swbreak"@) == Some(GDBFeature::swbreak),
        feature_named("hwbreak"@) == Some(GDBFeature::hwbreak),
        feature_named("fork-events"@) == Some(GDBFeature::fork_events),
        feature_named("vfork-events"@) == Some(GDBFeature::vfork_events),
        feature_named("exec-events"@) == Some(GDBFeature::exec_events),
        feature_named("vContSupported"@) == Some(GDBFeature::vContSupported),
        feature_named("no-resumed"@) == Some(GDBFeature::no_resumed),
        feature_named("QThreadEvents"@) == Some(GDBFeature::QThreadEvents),
        feature_named(name) matches Some(feature) ==> name == feature_name(feature),
        feature_named(name) is None ==> known(name) == KnownView::No(name),
{
    feature_found(GDBFeature::multiprocess);
    feature_found(GDBFeature::xmlRegisters);
    feature_found(GDBFeature::qRelocInsn);
    feature_found(GDBFeature::swbreak);
    feature_found(GDBFeature::hwbreak);
    feature_found(GDBFeature::fork_events);
    feature_found(GDBFeature::vfork_events);
    feature_found(GDBFeature::exec_events);
    feature_found(GDBFeature::vContSupported);
    feature_found(GDBFeature::no_resumed);
    feature_found(GDBFeature::QThreadEvents);
}

/// The name of a feature can be written as it is.
proof fn feature_name_plain(feature: GDBFeature)
    ensures
        is_ascii_chars(feature_name(feature)),
        feature_name(feature).len() > 0,
        forall|j: int|
            0 <= j < feature_name(feature).len() ==> #[trigger] feature_name(feature)[j] != ';'
                && feature_name(feature)[j] != '=',
{
    match feature {
        GDBFeature::multiprocess => {
            reveal_strlit("multiprocess");
        },
        GDBFeature::xmlRegisters => {
            reveal_strlit("xmlRegisters");
        },
        GDBFeature::qRelocInsn => {
            reveal_strlit("qRelocInsn");
        },
        GDBFeature::swbreak => {
            reveal_strlit("swbreak");
        },
        GDBFeature::hwbreak => {
            reveal_strlit("hwbreak");
        },
        GDBFeature::fork_events => {
            reveal_strlit("fork-events");
        },
        GDBFeature::vfork_events => {
            reveal_strlit("vfork-events");
        },
        GDBFeature::exec_events => {
            reveal_strlit("exec-events");
        },
        GDBFeature::vContSupported => {
            reveal_strlit("vContSupported");
        },
        GDBFeature::no_resumed => {
            reveal_strlit("no-resumed");
        },
        GDBFeature::QThreadEvents => {
            reveal_strlit("QThreadEvents");
        },
    }
}

/// The name of a feature that can be read back: its bytes hold neither `;` nor
/// `=`, and it names that feature.
proof fn valid_name(f: GDBFeatureSupportedView)
    requires
        valid_feature(f),
    ensures
        !encode_utf8(name_text(f.0)).contains(0x3bu8),
        !encode_utf8(name_text(f.0)).contains(0x3du8),
        known(name_text(f.0)) == f.0,
{
    if let KnownView::Yes(feature) = f.0 {
        feature_found(feature);
        feature_name_plain(feature);
        let name = feature_name(feature);
        is_ascii_chars_encode_utf8(name);
        let bytes = encode_utf8(name);
        assert forall|j: int| 0 <= j < bytes.len() implies bytes[j] != 0x3b && bytes[j] != 0x3d by {
            assert(bytes[j] == name[j] as u8);
            assert(name[j] != ';' && name[j] != '=');
        }
    }
}

/// The two bytes that a name ends at.
proof fn name_stops()
    ensures
        encode_utf8(";="@) == seq![0x3bu8, 0x3du8],
{
    reveal_strlit(";=");
    is_ascii_chars_encode_utf8(";="@);
    assert(encode_utf8(";="@) =~= seq![0x3bu8, 0x3du8]);
}

/// A name is read back, up to the end of the input or a `=`.
proof fn name_read_back(name: Seq<char>, rest: Seq<u8>)
    requires
        !encode_utf8(name).contains(0x3bu8),
        !encode_utf8(name).contains(0x3du8),
        rest.len() > 0 ==> rest[0] == 0x3d && encode_utf8(name).len() > 0,
    ensures
        grammar::gdbfeature(encode_utf8(name) + rest) == Parsed::Done(rest, known(name)),
{
    reveal(grammar::gdbfeature);
    reveal(is_not);
    name_stops();
    let bytes = encode_utf8(name);
    let s = bytes + rest;
    let p = free_of(";="@);
    let stops = seq![0x3bu8, 0x3du8];
    assert(stops[1] == 0x3d);
    assert forall|j: int| 0 <= j < bytes.len() implies p(#[trigger] s[j]) by {
        assert(s[j] == bytes[j]);
        assert(bytes.contains(bytes[j]));
    }
    run_ends(s, p, bytes.len() as int);
    assert(s.skip(bytes.len() as int) =~= rest);
    assert(s.take(bytes.len() as int) =~= bytes);
    encode_utf8_valid_utf8(name);
    encode_utf8_decode_utf8(name);
}

/// A value is read back.
proof fn value_read_back(value: Seq<char>)
    requires
        !encode_utf8(value).contains(0x3bu8),
    ensures
        grammar::as_text(is_not(encode_utf8(value), ";"@)) == Parsed::Done(
            Seq::<u8>::empty(),
            value,
        ),
{
    reveal(is_not);
    punctuation();
    let s = encode_utf8(value);
    let p = free_of(";"@);
    assert forall|j: int| 0 <= j < s.len() implies p(#[trigger] s[j]) by {
        assert(s.contains(s[j]));
    }
    run_ends(s, p, s.len() as int);
    assert(s.skip(s.len() as int) =~= Seq::<u8>::empty());
    assert(s.take(s.len() as int) =~= s);
    encode_utf8_valid_utf8(value);
    encode_utf8_decode_utf8(value);
}

/// What is said of a feature is read back.
proof fn clause_read_back(f: GDBFeatureSupportedView)
    requires
        valid_feature(f),
    ensures
        grammar::feature_clause(feature_text(f)) == Parsed::Done(Seq::<u8>::empty(), f),
        feature_text(f).len() > 0,
        !feature_text(f).contains(0x3bu8),
{
    reveal(grammar::feature_clause);
    punctuation();
    valid_name(f);
    let none = Seq::<u8>::empty();
    let name = encode_utf8(name_text(f.0));
    let text = feature_text(f);
    match f.1 {
        FeatureSupportedView::Value(value) => {
            let bytes = encode_utf8(value);
            let s1 = encode_utf8("="@) + bytes;
            assert(text == name + s1);
            assert(name.len() > 0) by {
                reveal_with_fuel(encode_utf8, 1);
            }
            assert(text.last() == if bytes.len() > 0 { bytes.last() } else { 0x3d });
            name_read_back(name_text(f.0), s1);
            tag_accepts("="@, bytes);
            value_read_back(value);
        },
        _ => {
            assert(text.drop_last() =~= name + none);
            name_read_back(name_text(f.0), none);
        },
    }
}

/// A feature is read back, up to the end of the input or a `;`.
pub proof fn feature_read_back(f: GDBFeatureSupportedView, rest: Seq<u8>)
    requires
        valid_feature(f),
        rest.len() > 0 ==> rest[0] == 0x3b,
    ensures
        grammar::gdbfeaturesupported(feature_text(f) + rest) == Parsed::Done(rest, f),
{
    reveal(grammar::gdbfeaturesupported);
    reveal(is_not);
    punctuation();
    clause_read_back(f);
    let text = feature_text(f);
    let s = text + rest;
    let p = free_of(";"@);
    let stops = seq![0x3bu8];
    assert(stops[0] == 0x3b);
    assert forall|j: int| 0 <= j < text.len() implies p(#[trigger] s[j]) by {
        assert(s[j] == text[j]);
        assert(text.contains(text[j]));
    }
    run_ends(s, p, text.len() as int);
    assert(s.skip(text.len() as int) =~= rest);
    assert(s.take(text.len() as int) =~= text);
}

/// The features of a list that follow the first one are read back.
proof fn further_features_read_back(list: Seq<GDBFeatureSupportedView>)
    requires
        forall|j: int| 0 <= j < list.len() ==> valid_feature(#[trigger] list[j]),
    ensures
        separated(further_features_text(list), ";"@, grammar::features()) == Parsed::Done(
            Seq::<u8>::empty(),
            list,
        ),
    decreases list.len(),
{
    punctuation();
    if list.len() == 0 {
        tag_at_end(";"@);
        assert(list =~= seq![]);
        assert(further_features_text(list) =~= Seq::<u8>::empty());
    } else {
        let left = further_features_text(list.skip(1));
        let mid = feature_text(list[0]) + left;
        assert forall|j: int| 0 <= j < list.skip(1).len() implies valid_feature(
            #[trigger] list.skip(1)[j],
        ) by {
            assert(list.skip(1)[j] == list[j + 1]);
        }
        further_features_read_back(list.skip(1));
        tag_accepts(";"@, mid);
        assert(left.len() > 0 ==> left[0] == 0x3b);
        feature_read_back(list[0], left);
        clause_read_back(list[0]);
        assert(grammar::features()(mid) == Parsed::Done(left, list[0]));
        assert(seq![list[0]] + list.skip(1) =~= list);
    }
}

/// A list of features is read back.
pub proof fn features_read_back(list: Seq<GDBFeatureSupportedView>)
    requires
        forall|j: int| 0 <= j < list.len() ==> valid_feature(#[trigger] list[j]),
    ensures
        separated_list(features_text(list), ";"@, grammar::features()) == Parsed::Done(
            Seq::<u8>::empty(),
            list,
        ),
{
    punctuation();
    let s = features_text(list);
    if list.len() == 0 {
        reveal(grammar::gdbfeaturesupported);
        reveal(grammar::feature_clause);
        reveal(is_not);
        assert(s =~= Seq::<u8>::empty());
        assert(s.take(0) =~= s);
        assert(list =~= seq![]);
        assert(grammar::features()(s) is Incomplete);
    } else {
        let left = further_features_text(list.skip(1));
        assert forall|j: int| 0 <= j < list.skip(1).len() implies valid_feature(
            #[trigger] list.skip(1)[j],
        ) by {
            assert(list.skip(1)[j] == list[j + 1]);
        }
        further_features_read_back(list.skip(1));
        assert(left.len() > 0 ==> left[0] == 0x3b);
        feature_read_back(list[0], left);
        clause_read_back(list[0]);
        assert(grammar::features()(s) == Parsed::Done(left, list[0]));
        assert(seq![list[0]] + list.skip(1) =~= list);
    }
}

/// A query or a setting, as a client writes it.
pub open spec fn query_text(query: QueryView) -> Seq<u8> {
    match query {
        QueryView::Attached(None) => encode_utf8("qAttached"@),
        QueryView::Attached(Some(pid)) => encode_utf8("qAttached:"@) + lower_hex(pid as nat),
        QueryView::CurrentThread => encode_utf8("qC"@),
        QueryView::SearchMemory { address, length, bytes } => encode_utf8("qSearch:memory:"@) + (
        lower_hex(address as nat) + (encode_utf8(";"@) + (lower_hex(length as nat) + (
        encode_utf8(";"@) + lower_hex_bytes(bytes))))),
        QueryView::SupportedFeatures(list) => encode_utf8("qSupported"@) + (encode_utf8(":"@)
            + features_text(list)),
        QueryView::StartNoAckMode => encode_utf8("QStartNoAckMode"@),
        QueryView::Invoke(bytes) => encode_utf8("qRcmd,"@) + lower_hex_bytes(bytes),
        QueryView::AddressRandomization(true) => encode_utf8("QDisableRandomization:0"@),
        QueryView::AddressRandomization(false) => encode_utf8("QDisableRandomization:1"@),
        QueryView::CatchSyscalls(None) => encode_utf8("QCatchSyscalls:0"@),
        QueryView::CatchSyscalls(Some(calls)) => encode_utf8("QCatchSyscalls:1"@) + further_text(
            calls,
        ),
        QueryView::PassSignals(signals) => encode_utf8("QPassSignals:"@) + numbers_text(signals),
        QueryView::ProgramSignals(signals) => encode_utf8("QProgramSignals:"@) + numbers_text(
            signals,
        ),
        QueryView::ThreadInfo(id) => encode_utf8("qThreadExtraInfo,"@) + thread_id_text(id),
    }
}

/// A query that can be read back: bytes and lists of signals are not empty,
/// and ids and features are valid.
pub open spec fn valid_query(query: QueryView) -> bool {
    match query {
        QueryView::SearchMemory { bytes, .. } => bytes.len() > 0,
        QueryView::SupportedFeatures(list) => forall|j: int|
            0 <= j < list.len() ==> valid_feature(#[trigger] list[j]),
        QueryView::Invoke(bytes) => bytes.len() > 0,
        QueryView::PassSignals(signals) => signals.len() > 0,
        QueryView::ProgramSignals(signals) => signals.len() > 0,
        QueryView::ThreadInfo(id) => valid_thread(id),
        _ => true,
    }
}

/// An input that starts with the text `l` does not start with a text that
/// differs from it at some place.
pub(crate) proof fn passed_over(l: Seq<char>, rest: Seq<u8>, a: Seq<char>, k: int)
    requires
        is_ascii_chars(l),
        is_ascii_chars(a),
        0 <= k < l.len(),
        k < a.len(),
        l[k] != a[k],
    ensures
        tag(encode_utf8(l) + rest, a) == Parsed::<()>::Error(ErrorKind::Tag),
{
    is_ascii_chars_encode_utf8(l);
    let s = encode_utf8(l) + rest;
    assert(s[k] == l[k] as u8);
    tag_refuses_at(s, a, k);
}

/// What a client writes for a query is read as that query.
spec fn reads_back(query: QueryView) -> bool {
    grammar::query(query_text(query)) == Parsed::Done(Seq::<u8>::empty(), query)
}

/// The texts that queries and settings start with, in the order in which they
/// are tried.
pub open spec fn query_words() -> Seq<Seq<char>> {
    seq![
        "qC"@,
        "qSupported"@,
        "qRcmd,"@,
        "qSearch:memory:"@,
        "QStartNoAckMode"@,
        "qAttached:"@,
        "qAttached"@,
        "QDisableRandomization:0"@,
        "QDisableRandomization:1"@,
        "QCatchSyscalls:0"@,
        "QCatchSyscalls:1"@,
        "QPassSignals:"@,
        "QProgramSignals:"@,
        "qThreadExtraInfo,"@,
    ]
}

/// Where the text `t` is not found, `r` is refused.
pub open spec fn leads<T>(s: Seq<u8>, t: Seq<char>, r: Parsed<T>) -> bool {
    tag(s, t).completed() is Error ==> r.completed() is Error
}

/// A query that has its own part of the grammar is refused where the text that
/// it starts with is not found.
pub(crate) proof fn words_lead(s: Seq<u8>)
    ensures
        leads(s, "qSupported"@, grammar::supported_features(s)),
        leads(s, "qRcmd,"@, grammar::invoked_command(s)),
        leads(s, "qSearch:memory:"@, grammar::q_search_memory(s)),
        leads(s, "qAttached:"@, grammar::attached_process(s)),
        leads(s, "QCatchSyscalls:1"@, grammar::caught_syscalls(s)),
        leads(s, "QPassSignals:"@, grammar::pass_signals(s)),
        leads(s, "QProgramSignals:"@, grammar::program_signals(s)),
        leads(s, "qThreadExtraInfo,"@, grammar::described_thread(s)),
{
    reveal(grammar::supported_features);
    reveal(grammar::invoked_command);
    reveal(grammar::q_search_memory);
    reveal(grammar::attached_process);
    reveal(grammar::caught_syscalls);
    reveal(grammar::pass_signals);
    reveal(grammar::program_signals);
    reveal(grammar::described_thread);
}

/// No text that is tried earlier is found where the `n`-th one stands.  The one
/// text that is the front part of an earlier one is found where the input ends
/// behind it.
proof fn earlier_refused(n: int, rest: Seq<u8>)
    requires
        0 <= n < query_words().len(),
        n == 6 ==> rest.len() == 0,
    ensures
        ({
            let s = encode_utf8(query_words()[n]) + rest;
            &&& s.len() > 0
            &&& tag(s, query_words()[n]) == Parsed::Done(rest, ())
            &&& forall|j: int|
                0 <= j < n ==> tag(s, #[trigger] query_words()[j]).completed() is Error
        }),
{
    reveal_strlit("qC");
    reveal_strlit("qSupported");
    reveal_strlit("qRcmd,");
    reveal_strlit("qSearch:memory:");
    reveal_strlit("QStartNoAckMode");
    reveal_strlit("qAttached:");
    reveal_strlit("qAttached");
    reveal_strlit("QDisableRandomization:0");
    reveal_strlit("QDisableRandomization:1");
    reveal_strlit("QCatchSyscalls:0");
    reveal_strlit("QCatchSyscalls:1");
    reveal_strlit("QPassSignals:");
    reveal_strlit("QProgramSignals:");
    reveal_strlit("qThreadExtraInfo,");
    let l = query_words()[n];
    let s = encode_utf8(l) + rest;
    assert(is_ascii_chars(l));
    is_ascii_chars_encode_utf8(l);
    tag_accepts(l, rest);
    assert forall|j: int| 0 <= j < n implies tag(
        s,
        #[trigger] query_words()[j],
    ).completed() is Error by {
        let a = query_words()[j];
        assert(is_ascii_chars(a));
        if l[0] != a[0] {
            passed_over(l, rest, a, 0);
        } else if l[1] != a[1] {
            passed_over(l, rest, a, 1);
        } else if l[2] != a[2] {
            passed_over(l, rest, a, 2);
        } else if n == 6 {
            assert(j == 5);
            assert(tag(s, a) is Incomplete) by {
                reveal(tag);
                is_ascii_chars_encode_utf8(a);
                let long = encode_utf8(a);
                assert forall|k: int| 0 <= k < s.len() implies s[k] == long[k] by {
                    assert(l[k] as u8 == encode_utf8(l)[k]);
                    assert(a[k] as u8 == long[k]);
                }
                assert(s =~= long.subrange(0, s.len() as int));
            }
        } else {
            passed_over(l, rest, a, l.len() - 1);
        }
    }
}

/// Where the `n`-th text stands, it is found, and every query that is tried
/// earlier is refused.
pub(crate) proof fn query_chosen(n: int, rest: Seq<u8>)
    requires
        0 <= n < query_words().len(),
        n == 6 ==> rest.len() == 0,
    ensures
        ({
            let s = encode_utf8(query_words()[n]) + rest;
            &&& s.len() > 0
            &&& tag(s, query_words()[n]) == Parsed::Done(rest, ())
            &&& n > 0 ==> tag(s, "qC"@).completed() is Error
            &&& n > 1 ==> grammar::supported_features(s).completed() is Error
            &&& n > 2 ==> grammar::invoked_command(s).completed() is Error
            &&& n > 3 ==> grammar::q_search_memory(s).completed() is Error
            &&& n > 4 ==> tag(s, "QStartNoAckMode"@).completed() is Error
            &&& n > 5 ==> grammar::attached_process(s).completed() is Error
            &&& n > 6 ==> tag(s, "qAttached"@).completed() is Error
            &&& n > 7 ==> tag(s, "QDisableRandomization:0"@).completed() is Error
            &&& n > 8 ==> tag(s, "QDisableRandomization:1"@).completed() is Error
            &&& n > 9 ==> tag(s, "QCatchSyscalls:0"@).completed() is Error
            &&& n > 10 ==> grammar::caught_syscalls(s).completed() is Error
            &&& n > 11 ==> grammar::pass_signals(s).completed() is Error
            &&& n > 12 ==> grammar::program_signals(s).completed() is Error
        }),
{
    let s = encode_utf8(query_words()[n]) + rest;
    earlier_refused(n, rest);
    words_lead(s);
    assert(query_words()[0] == "qC"@);
    assert(query_words()[1] == "qSupported"@);
    assert(query_words()[2] == "qRcmd,"@);
    assert(query_words()[3] == "qSearch:memory:"@);
    assert(query_words()[4] == "QStartNoAckMode"@);
    assert(query_words()[5] == "qAttached:"@);
    assert(query_words()[6] == "qAttached"@);
    assert(query_words()[7] == "QDisableRandomization:0"@);
    assert(query_words()[8] == "QDisableRandomization:1"@);
    assert(query_words()[9] == "QCatchSyscalls:0"@);
    assert(query_words()[10] == "QCatchSyscalls:1"@);
    assert(query_words()[11] == "QPassSignals:"@);
    assert(query_words()[12] == "QProgramSignals:"@);
    assert(query_words()[13] == "qThreadExtraInfo,"@);
}

/// A query that is a text and nothing else is read back.
proof fn word_read_back(query: QueryView)
    requires
        query == QueryView::Attached(None) || query is CurrentThread || query is StartNoAckMode
            || query is AddressRandomization || query == QueryView::CatchSyscalls(None),
    ensures
        reads_back(query),
        query_text(query).len() > 0,
{
    let none = Seq::<u8>::empty();
    let n: int = match query {
        QueryView::CurrentThread => 0,
        QueryView::StartNoAckMode => 4,
        QueryView::Attached(_) => 6,
        QueryView::AddressRandomization(true) => 7,
        QueryView::AddressRandomization(false) => 8,
        _ => 9,
    };
    query_chosen(n, none);
    assert(query_text(query) =~= encode_utf8(query_words()[n]) + none);
    reveal(grammar::query);
}

proof fn features_query_read_back(list: Seq<GDBFeatureSupportedView>)
    requires
        forall|j: int| 0 <= j < list.len() ==> valid_feature(#[trigger] list[j]),
    ensures
        reads_back(QueryView::SupportedFeatures(list)),
        query_text(QueryView::SupportedFeatures(list)).len() > 0,
{
    query_chosen(1, encode_utf8(":"@) + features_text(list));
    reveal(grammar::supported_features);
    tag_accepts(":"@, features_text(list));
    features_read_back(list);
    reveal(grammar::query);
}

proof fn invoke_read_back(bytes: Seq<u8>)
    requires
        bytes.len() > 0,
    ensures
        reads_back(QueryView::Invoke(bytes)),
        query_text(QueryView::Invoke(bytes)).len() > 0,
{
    query_chosen(2, lower_hex_bytes(bytes));
    reveal(grammar::invoked_command);
    last_bytes(bytes);
    reveal(grammar::query);
}

proof fn search_read_back(address: u64, length: u64, bytes: Seq<u8>)
    requires
        bytes.len() > 0,
    ensures
        reads_back(QueryView::SearchMemory { address, length, bytes }),
        query_text(QueryView::SearchMemory { address, length, bytes }).len() > 0,
{
    punctuation();
    let s5 = lower_hex_bytes(bytes);
    let s4 = encode_utf8(";"@) + s5;
    let s3 = lower_hex(length as nat) + s4;
    let s2 = encode_utf8(";"@) + s3;
    query_chosen(3, lower_hex(address as nat) + s2);
    reveal(grammar::q_search_memory);
    assert(s2[0] == 0x3b);
    number_read_back(address, s2);
    tag_accepts(";"@, s3);
    assert(s4[0] == 0x3b);
    number_read_back(length, s4);
    tag_accepts(";"@, s5);
    last_bytes(bytes);
    reveal(grammar::query);
}

proof fn attached_read_back(pid: u64)
    ensures
        reads_back(QueryView::Attached(Some(pid))),
        query_text(QueryView::Attached(Some(pid))).len() > 0,
{
    query_chosen(5, lower_hex(pid as nat));
    reveal(grammar::attached_process);
    last_number(pid);
    reveal(grammar::query);
}

proof fn syscalls_read_back(calls: Seq<u64>)
    ensures
        reads_back(QueryView::CatchSyscalls(Some(calls))),
        query_text(QueryView::CatchSyscalls(Some(calls))).len() > 0,
{
    query_chosen(10, further_text(calls));
    reveal(grammar::caught_syscalls);
    row_read_back(calls);
    reveal(grammar::query);
}

proof fn pass_signals_read_back(signals: Seq<u64>)
    requires
        signals.len() > 0,
    ensures
        reads_back(QueryView::PassSignals(signals)),
        query_text(QueryView::PassSignals(signals)).len() > 0,
{
    query_chosen(11, numbers_text(signals));
    reveal(grammar::pass_signals);
    numbers_read_back(signals);
    reveal(grammar::query);
}

proof fn program_signals_read_back(signals: Seq<u64>)
    requires
        signals.len() > 0,
    ensures
        reads_back(QueryView::ProgramSignals(signals)),
        query_text(QueryView::ProgramSignals(signals)).len() > 0,
{
    query_chosen(12, numbers_text(signals));
    reveal(grammar::program_signals);
    numbers_read_back(signals);
    reveal(grammar::query);
}

proof fn thread_info_read_back(id: ThreadId)
    requires
        valid_thread(id),
    ensures
        reads_back(QueryView::ThreadInfo(id)),
        query_text(QueryView::ThreadInfo(id)).len() > 0,
{
    query_chosen(13, thread_id_text(id));
    reveal(grammar::described_thread);
    last_thread(id);
    reveal(grammar::query);
}

/// A query or a setting is read back.
pub proof fn query_read_back(query: QueryView)
    requires
        valid_query(query),
    ensures
        grammar::query(query_text(query)) == Parsed::Done(Seq::<u8>::empty(), query),
        query_text(query).len() > 0,
{
    match query {
        QueryView::Attached(None) => word_read_back(query),
        QueryView::Attached(Some(pid)) => attached_read_back(pid),
        QueryView::CurrentThread => word_read_back(query),
        QueryView::SearchMemory { address, length, bytes } => search_read_back(
            address,
            length,
            bytes,
        ),
        QueryView::SupportedFeatures(list) => features_query_read_back(list),
        QueryView::StartNoAckMode => word_read_back(query),
        QueryView::Invoke(bytes) => invoke_read_back(bytes),
        QueryView::AddressRandomization(_) => word_read_back(query),
        QueryView::CatchSyscalls(None) => word_read_back(query),
        QueryView::CatchSyscalls(Some(calls)) => syscalls_read_back(calls),
        QueryView::PassSignals(signals) => pass_signals_read_back(signals),
        QueryView::ProgramSignals(signals) => program_signals_read_back(signals),
        QueryView::ThreadInfo(id) => thread_info_read_back(id),
    }
}

} // verus!
