//! What an open asks for, and when.
//!
//! Each law speaks of the request, of the outcomes that an open was told, and of what it asks
//! for then.

use crate::database;
use crate::files::EntryKind;
use crate::open;
use crate::open::{EffectView, RequestView, StateView};
use crate::open_laws;
use crate::open_types::{Bitness, OpenEvent, OpenNext, OpenPhase, OpenQuery, StepView};
use crate::output::OutputFacts;
use crate::path;
use crate::text;
use vstd::prelude::*;

verus! {

/// How IDA counts the bits of a database.
pub open spec fn reported_bits(is_64bit: bool, is_32bit_exactly: bool) -> u32 {
    if is_64bit {
        64
    } else if is_32bit_exactly {
        32
    } else {
        16
    }
}

/// Whether an outcome says that every segment and the database took `bitness`.
pub open spec fn confirms_bitness(event: OpenEvent<Seq<char>>, bitness: Bitness) -> bool {
    event matches OpenEvent::BitnessSet { refused: None, is_64bit, is_32bit_exactly }
        && match bitness {
        Bitness::Bits16 => reported_bits(is_64bit, is_32bit_exactly) == 16,
        Bitness::Bits32 => reported_bits(is_64bit, is_32bit_exactly) == 32,
        Bitness::Bits64 => reported_bits(is_64bit, is_32bit_exactly) == 64,
    }
}

/// Whether an outcome says that the database starts at `entry_point`.
pub open spec fn confirms_entry_point(event: OpenEvent<Seq<char>>, entry_point: u64) -> bool {
    event == OpenEvent::<Seq<char>>::StartAddress(Some(entry_point))
}

/// What a step that asks for something asks for, given where the open stands and what it was
/// told.
spec fn asks_rightly(
    s: StateView,
    event: OpenEvent<Seq<char>>,
    next: (StateView, StepView),
) -> bool {
    next.1.next matches OpenNext::Ask(query) ==> match query {
        OpenQuery::AcquireLock { .. } => false,
        OpenQuery::OpenRaw(raw) => {
            &&& raw.path == s.path
            &&& raw.output == s.lock_target
            &&& raw.auto_analyse <==> s.auto_analyse && s.raw_target.bitness is None
                && s.raw_target.entry_point is None
            &&& raw.file_type == s.file_type
            &&& raw.processor == s.raw_target.processor
            &&& raw.base_address == s.raw_target.base_address
            &&& raw.entry_point == s.raw_target.entry_point
            &&& raw.args == s.init_args
            &&& raw.save
            &&& !s.is_idb
            &&& s.candidate is Some ==> s.rebuild
        },
        OpenQuery::OpenExisting { path, args, save } => {
            &&& args == s.init_args
            &&& save <==> s.candidate is None || event is InputHashed || event is RecordedLocated
                || s.phase is OpeningExisting
            &&& path == s.lock_target || (event matches OpenEvent::OpenError {
                unpacked_exists: true,
                ..
            } && database::is_packed(s.style, s.lock_target) && path == path::with_extension(
                s.style,
                s.lock_target,
                "id0"@,
            ))
            &&& event is OpenError ==> path != s.lock_target || path == path::with_extension(
                s.style,
                s.lock_target,
                "id0"@,
            )
        },
        OpenQuery::ReadProvenance => event is Opened,
        OpenQuery::CheckCancelled => true,
        OpenQuery::HashInput { path } => path == s.path && event is NotCancelled,
        OpenQuery::LocateRecorded { recorded, input } => {
            &&& input == s.path
            &&& s.phase matches OpenPhase::HashingInput { recorded_path, .. } && recorded
                == text::trimmed(recorded_path, true)
            &&& recorded.len() > 0
            &&& event is InputHashed
        },
        OpenQuery::DetectLock { path, reason } => {
            ||| event matches OpenEvent::OpenError { reason: told, .. } && reason == told && path
                == s.lock_target
            ||| s.phase matches OpenPhase::DetectingLock { reason: told } && reason == told && path
                == s.path
        },
        OpenQuery::SetBitness { bits } => event is Opened && s.raw_target.bitness == Some(
            if bits == 64 {
                Bitness::Bits64
            } else if bits == 32 {
                Bitness::Bits32
            } else {
                Bitness::Bits16
            },
        ) && (bits == 16 || bits == 32 || bits == 64),
        OpenQuery::ProbeEntryPoint { address } => {
            &&& s.raw_target.entry_point == Some(address)
            &&& match s.raw_target.bitness {
                Some(bitness) => confirms_bitness(event, bitness),
                None => event is Opened,
            }
        },
        OpenQuery::SetEntryPoint { address } => {
            &&& s.raw_target.entry_point == Some(address)
            &&& event matches OpenEvent::EntryPointProbed { in_segment: true, start } && start
                != Some(address)
        },
        OpenQuery::ReadStartAddress => {
            ||| event == OpenEvent::<Seq<char>>::EntryPointSet(true)
            ||| event == (OpenEvent::<Seq<char>>::EntryPointProbed {
                in_segment: true,
                start: s.raw_target.entry_point,
            })
        },
        OpenQuery::WaitForAnalysis => s.auto_analyse && match s.raw_target.entry_point {
            Some(address) => confirms_entry_point(event, address),
            None => s.raw_target.bitness matches Some(bitness) && confirms_bitness(event, bitness),
        },
        OpenQuery::ProbeDebugInfo { path } => s.phase is CancelBeforeDebugInfo
            && match s.debug_info_path {
            Some(given) => path == given,
            None => database::dsym_expected(
                s.style,
                if s.is_idb {
                    database::base_input(s.style, s.path)
                } else {
                    s.path
                },
            ) == Some(path),
        },
        OpenQuery::LoadDebugInfo { path, verbose } => if s.phase is CancelBeforeDsym {
            s.dsym == Some(path) && !verbose
        } else {
            &&& s.phase == (OpenPhase::ProbingDebugInfo { path })
            &&& event == OpenEvent::<Seq<char>>::DebugInfoProbed(true)
            &&& verbose == s.debug_info_verbose
        },
    }
}

proof fn lemma_judging_step_asks(s: StateView, event: OpenEvent<Seq<char>>)
    requires
        open::open_inv(s),
        open::answers(s.phase, event),
        s.phase is Locking || open::judges_candidate(s.phase),
    ensures
        asks_rightly(s, event, open::judging_step(s, event)),
{
}

proof fn lemma_opening_step_asks(s: StateView, event: OpenEvent<Seq<char>>)
    requires
        open::open_inv(s),
        open::answers(s.phase, event),
        !(s.phase is Locking || open::judges_candidate(s.phase) || open::holds_database(s.phase)),
    ensures
        asks_rightly(s, event, open::opening_step(s, event)),
{
}

proof fn lemma_raw_target_step_asks(s: StateView, event: OpenEvent<Seq<char>>)
    requires
        open::open_inv(s),
        open::answers(s.phase, event),
        open::holds_database(s.phase) && !open::is_set_up(s.phase),
    ensures
        asks_rightly(s, event, open::raw_target_step(s, event)),
{
}

proof fn lemma_debug_info_step_asks(s: StateView, event: OpenEvent<Seq<char>>)
    requires
        open::open_inv(s),
        open::answers(s.phase, event),
        open::is_set_up(s.phase),
    ensures
        asks_rightly(s, event, open::debug_info_step(s, event)),
{
}

proof fn lemma_step_asks(s: StateView, event: OpenEvent<Seq<char>>)
    requires
        open::open_inv(s),
        open::answers(s.phase, event),
    ensures
        asks_rightly(s, event, open::step(s, event)),
{
    if s.phase is Locking || open::judges_candidate(s.phase) {
        lemma_judging_step_asks(s, event);
    } else if open::is_set_up(s.phase) {
        lemma_debug_info_step_asks(s, event);
    } else if open::holds_database(s.phase) {
        lemma_raw_target_step_asks(s, event);
    } else {
        lemma_opening_step_asks(s, event);
    }
}

/// Whether one of the outcomes says that `bitness` was taken.
pub open spec fn bitness_was_confirmed(told: Set<OpenEvent<Seq<char>>>, bitness: Bitness) -> bool {
    exists|event: OpenEvent<Seq<char>>| #[trigger]
        told.contains(event) && confirms_bitness(event, bitness)
}

/// Whether one of the outcomes gives `hash` as the recorded hash of the input.
pub open spec fn hash_was_recorded(told: Set<OpenEvent<Seq<char>>>, hash: Seq<u8>) -> bool {
    exists|event: OpenEvent<Seq<char>>| #[trigger]
        told.contains(event) && (event matches OpenEvent::Provenance { hash: recorded, .. }
            && recorded@ == hash)
}

/// Whether one of the outcomes gives `hash` as the hash of the input.
pub open spec fn hash_was_computed(told: Set<OpenEvent<Seq<char>>>, hash: Seq<u8>) -> bool {
    exists|event: OpenEvent<Seq<char>>| #[trigger]
        told.contains(event) && (event matches OpenEvent::InputHashed(computed) && computed@
            == hash)
}

/// Whether one of the outcomes is a failure to open for `reason`.
pub open spec fn open_failed_for(told: Set<OpenEvent<Seq<char>>>, reason: Seq<char>) -> bool {
    exists|event: OpenEvent<Seq<char>>| #[trigger]
        told.contains(event) && (event matches OpenEvent::OpenError { reason: given, .. } && given
            == reason)
}

/// The file that requested debug information is read from.
spec fn is_requested_debug_info(s: StateView, path: Seq<char>) -> bool {
    match s.debug_info_path {
        Some(given) => path == given,
        None => database::dsym_expected(
            s.style,
            if s.is_idb {
                database::base_input(s.style, s.path)
            } else {
                s.path
            },
        ) == Some(path),
    }
}

/// What an open was told of the address size, the entry point and the analysis.
spec fn remembers_set_up(s: StateView, told: Set<OpenEvent<Seq<char>>>) -> bool {
    let past_bitness = open::holds_database(s.phase) && s.phase !is SettingBitness;
    let past_entry_point = open::is_set_up(s.phase) || s.phase is WaitingForAnalysis;
    &&& past_bitness && s.raw_target.bitness is Some ==> bitness_was_confirmed(
        told,
        s.raw_target.bitness->0,
    )
    &&& past_entry_point && s.raw_target.entry_point is Some ==> told.contains(
        OpenEvent::StartAddress(s.raw_target.entry_point),
    )
    &&& open::is_set_up(s.phase) && s.auto_analyse && (s.raw_target.bitness is Some
        || s.raw_target.entry_point is Some) ==> told.contains(OpenEvent::AnalysisEnded(true))
}

/// What an open was told on the way to where it stands.
spec fn remembers_phase(s: StateView, told: Set<OpenEvent<Seq<char>>>) -> bool {
    match s.phase {
        OpenPhase::CancelAfterProvenance { recorded_hash, recorded_path } => {
            &&& told.contains(OpenEvent::Provenance { hash: recorded_hash, path: recorded_path })
            &&& hash_was_recorded(told, recorded_hash@)
        },
        OpenPhase::HashingInput { recorded_hash, recorded_path } => {
            &&& told.contains(OpenEvent::Provenance { hash: recorded_hash, path: recorded_path })
            &&& hash_was_recorded(told, recorded_hash@)
        },
        OpenPhase::LocatingRecorded { recorded_hash, input_hash } => {
            &&& hash_was_recorded(told, recorded_hash@)
            &&& hash_was_computed(told, input_hash@)
        },
        OpenPhase::DetectingLock { reason } => open_failed_for(told, reason),
        OpenPhase::DetectingInputLock { reason } => open_failed_for(told, reason)
            && told.contains(OpenEvent::NoLockDetected),
        _ => true,
    }
}

/// What an open was told on the way to the debug information.
spec fn remembers_search(s: StateView, told: Set<OpenEvent<Seq<char>>>) -> bool {
    match s.phase {
        OpenPhase::CancelBeforeDebugInfo => s.load_debug_info,
        OpenPhase::ProbingDebugInfo { path } => s.load_debug_info && is_requested_debug_info(
            s,
            path,
        ),
        OpenPhase::LoadingDebugInfo { path } => s.load_debug_info && is_requested_debug_info(
            s,
            path,
        ) && told.contains(OpenEvent::DebugInfoProbed(true)),
        OpenPhase::CancelBeforeDsym => !s.load_debug_info,
        OpenPhase::LoadingDsym => !s.load_debug_info,
        _ => true,
    }
}

/// What an open was told of what it makes known.
spec fn remembers_outcome(s: StateView, told: Set<OpenEvent<Seq<char>>>) -> bool {
    &&& s.reused ==> exists|hash: Seq<u8>| #[trigger]
        hash_was_recorded(told, hash) && hash_was_computed(told, hash) && database::is_recorded(
            hash,
        )
    &&& match s.debug_info {
        Some(load) => {
            &&& s.load_debug_info
            &&& s.phase is CancelAtEnd || s.phase is Finished
            &&& is_requested_debug_info(s, load.path)
            &&& load.loaded ==> told.contains(OpenEvent::DebugInfoLoaded(true)) && load.error is None
            &&& !load.loaded ==> {
                ||| told.contains(OpenEvent::DebugInfoProbed(false))
                ||| told.contains(OpenEvent::DebugInfoLoaded(false))
                ||| load.error is Some && told.contains(
                    OpenEvent::DebugInfoFailed(load.error->0),
                )
            }
            &&& !load.loaded ==> load.error is Some
        },
        None => s.phase is CancelAtEnd && s.load_debug_info ==> s.debug_info_path is None
            && database::dsym_expected(
            s.style,
            if s.is_idb {
                database::base_input(s.style, s.path)
            } else {
                s.path
            },
        ) is None,
    }
}

spec fn remembers(s: StateView, told: Set<OpenEvent<Seq<char>>>) -> bool {
    remembers_set_up(s, told) && remembers_phase(s, told) && remembers_search(s, told)
        && remembers_outcome(s, told)
}

proof fn lemma_told_grows(told: Set<OpenEvent<Seq<char>>>, event: OpenEvent<Seq<char>>)
    ensures
        told.insert(event).contains(event),
        forall|e: OpenEvent<Seq<char>>| #[trigger]
            told.contains(e) ==> told.insert(event).contains(e),
        forall|b: Bitness| #[trigger]
            bitness_was_confirmed(told, b) ==> bitness_was_confirmed(told.insert(event), b),
        forall|h: Seq<u8>| #[trigger]
            hash_was_recorded(told, h) ==> hash_was_recorded(told.insert(event), h),
        forall|h: Seq<u8>| #[trigger]
            hash_was_computed(told, h) ==> hash_was_computed(told.insert(event), h),
        forall|r: Seq<char>| #[trigger]
            open_failed_for(told, r) ==> open_failed_for(told.insert(event), r),
        forall|b: Bitness|
            confirms_bitness(event, b) ==> #[trigger] bitness_was_confirmed(told.insert(event), b),
        event matches OpenEvent::Provenance { hash, .. } ==> hash_was_recorded(
            told.insert(event),
            hash@,
        ),
        event matches OpenEvent::InputHashed(hash) ==> hash_was_computed(
            told.insert(event),
            hash@,
        ),
        event matches OpenEvent::OpenError { reason, .. } ==> open_failed_for(
            told.insert(event),
            reason,
        ),
{
    assert forall|b: Bitness| #[trigger] bitness_was_confirmed(told, b) implies bitness_was_confirmed(
        told.insert(event),
        b,
    ) by {
        let e = choose|e: OpenEvent<Seq<char>>| #[trigger]
            told.contains(e) && confirms_bitness(e, b);
        assert(told.insert(event).contains(e));
    }
    assert forall|h: Seq<u8>| #[trigger] hash_was_recorded(told, h) implies hash_was_recorded(
        told.insert(event),
        h,
    ) by {
        let e = choose|e: OpenEvent<Seq<char>>| #[trigger]
            told.contains(e) && (e matches OpenEvent::Provenance { hash: recorded, .. }
                && recorded@ == h);
        assert(told.insert(event).contains(e));
    }
    assert forall|h: Seq<u8>| #[trigger] hash_was_computed(told, h) implies hash_was_computed(
        told.insert(event),
        h,
    ) by {
        let e = choose|e: OpenEvent<Seq<char>>| #[trigger]
            told.contains(e) && (e matches OpenEvent::InputHashed(computed) && computed@ == h);
        assert(told.insert(event).contains(e));
    }
    assert forall|r: Seq<char>| #[trigger] open_failed_for(told, r) implies open_failed_for(
        told.insert(event),
        r,
    ) by {
        let e = choose|e: OpenEvent<Seq<char>>| #[trigger]
            told.contains(e) && (e matches OpenEvent::OpenError { reason: given, .. } && given
                == r);
        assert(told.insert(event).contains(e));
    }
    assert(told.insert(event).contains(event));
}

proof fn lemma_judging_remembers(
    s: StateView,
    event: OpenEvent<Seq<char>>,
    told: Set<OpenEvent<Seq<char>>>,
)
    requires
        open::open_inv(s),
        open::answers(s.phase, event),
        s.phase is Locking || open::judges_candidate(s.phase),
        remembers(s, told),
    ensures
        remembers(open::judging_step(s, event).0, told.insert(event)),
{
    lemma_told_grows(told, event);
}

proof fn lemma_opening_remembers(
    s: StateView,
    event: OpenEvent<Seq<char>>,
    told: Set<OpenEvent<Seq<char>>>,
)
    requires
        open::open_inv(s),
        open::answers(s.phase, event),
        !(s.phase is Locking || open::judges_candidate(s.phase) || open::holds_database(s.phase)),
        remembers(s, told),
    ensures
        remembers(open::opening_step(s, event).0, told.insert(event)),
{
    lemma_told_grows(told, event);
}

proof fn lemma_raw_target_remembers(
    s: StateView,
    event: OpenEvent<Seq<char>>,
    told: Set<OpenEvent<Seq<char>>>,
)
    requires
        open::open_inv(s),
        open::answers(s.phase, event),
        open::holds_database(s.phase) && !open::is_set_up(s.phase),
        remembers(s, told),
    ensures
        remembers(open::raw_target_step(s, event).0, told.insert(event)),
{
    lemma_told_grows(told, event);
}

proof fn lemma_debug_info_remembers_set_up(
    s: StateView,
    event: OpenEvent<Seq<char>>,
    told: Set<OpenEvent<Seq<char>>>,
)
    requires
        open::open_inv(s),
        open::answers(s.phase, event),
        open::is_set_up(s.phase),
        remembers(s, told),
    ensures
        remembers_set_up(open::debug_info_step(s, event).0, told.insert(event)),
{
    lemma_told_grows(told, event);
}

proof fn lemma_debug_info_remembers_phase(
    s: StateView,
    event: OpenEvent<Seq<char>>,
    told: Set<OpenEvent<Seq<char>>>,
)
    requires
        open::open_inv(s),
        open::answers(s.phase, event),
        open::is_set_up(s.phase),
        remembers_phase(s, told),
    ensures
        remembers_phase(open::debug_info_step(s, event).0, told.insert(event)),
{
}

proof fn lemma_debug_info_remembers_search(
    s: StateView,
    event: OpenEvent<Seq<char>>,
    told: Set<OpenEvent<Seq<char>>>,
)
    requires
        open::open_inv(s),
        open::answers(s.phase, event),
        open::is_set_up(s.phase),
        remembers_search(s, told),
    ensures
        remembers_search(open::debug_info_step(s, event).0, told.insert(event)),
{
    assert(told.insert(event).contains(event));
}

proof fn lemma_debug_info_remembers_outcome(
    s: StateView,
    event: OpenEvent<Seq<char>>,
    told: Set<OpenEvent<Seq<char>>>,
)
    requires
        open::open_inv(s),
        open::answers(s.phase, event),
        open::is_set_up(s.phase),
        remembers(s, told),
    ensures
        remembers_outcome(open::debug_info_step(s, event).0, told.insert(event)),
{
    lemma_told_grows(told, event);
}

proof fn lemma_step_remembers(
    s: StateView,
    event: OpenEvent<Seq<char>>,
    told: Set<OpenEvent<Seq<char>>>,
)
    requires
        open::open_inv(s),
        open::answers(s.phase, event),
        remembers(s, told),
    ensures
        remembers(open::step(s, event).0, told.insert(event)),
{
    if s.phase is Locking || open::judges_candidate(s.phase) {
        lemma_judging_remembers(s, event, told);
    } else if open::is_set_up(s.phase) {
        lemma_debug_info_remembers_set_up(s, event, told);
        lemma_debug_info_remembers_phase(s, event, told);
        lemma_debug_info_remembers_search(s, event, told);
        lemma_debug_info_remembers_outcome(s, event, told);
    } else if open::holds_database(s.phase) {
        lemma_raw_target_remembers(s, event, told);
    } else {
        lemma_opening_remembers(s, event, told);
    }
}

/// What was told with the last outcome is that outcome, and what was told before.
proof fn lemma_told(events: Seq<OpenEvent<Seq<char>>>)
    requires
        events.len() > 0,
    ensures
        events.to_set() == events.drop_last().to_set().insert(events.last()),
        forall|e: OpenEvent<Seq<char>>| #[trigger]
            events.to_set().contains(e) <==> events.contains(e),
{
    assert(events == events.drop_last().push(events.last()));
    assert forall|e: OpenEvent<Seq<char>>| events.contains(e) implies events.drop_last().contains(
        e,
    ) || e == events.last() by {
        let i = choose|i: int| 0 <= i < events.len() && events[i] == e;
        if i < events.len() - 1 {
            assert(events.drop_last()[i] == e);
        }
    }
    assert forall|e: OpenEvent<Seq<char>>| events.drop_last().contains(e) implies events.contains(
        e,
    ) by {
        let i = choose|i: int| 0 <= i < events.drop_last().len() && events.drop_last()[i] == e;
        assert(events[i] == e);
    }
    assert(events.contains(events.last())) by {
        assert(events[events.len() - 1] == events.last());
    }
    assert(events.to_set() =~= events.drop_last().to_set().insert(events.last()));
}

proof fn lemma_run_remembers(
    request: RequestView,
    files: spec_fn(Seq<char>) -> EntryKind,
    facts: OutputFacts<Seq<char>>,
    events: Seq<OpenEvent<Seq<char>>>,
)
    requires
        open::open_refusal(request, files, facts) is None,
        open_laws::is_run(open::initial(request, files), events),
    ensures
        ({
            let start = open::initial(request, files);
            let s = open_laws::run(start, events).0;
            &&& open::open_inv(s)
            &&& open_laws::same_request(start, s)
            &&& remembers(s, events.to_set())
        }),
    decreases events.len(),
{
    let start = open::initial(request, files);
    open_laws::what_is_taken_is_given_back(request, files, facts, events);
    if events.len() > 0 {
        open_laws::every_open_hands_out_what_it_locked(request, files, facts, events);
        lemma_run_remembers(request, files, facts, events.drop_last());
        let before = open_laws::run(start, events.drop_last()).0;
        lemma_step_remembers(before, events.last(), events.drop_last().to_set());
        lemma_told(events);
    }
}

/// The database that a request is for: the one that it names, or the output for a raw input.
pub open spec fn target(request: RequestView) -> Seq<char> {
    if database::is_database(request.style, request.path) {
        request.path
    } else {
        match request.idb_out {
            Some(output) => output,
            None => request.path + ".i64"@,
        }
    }
}

/// Whether `args` start IDA without its user interface, and with `extra`.
pub open spec fn are_arguments(args: Seq<Seq<char>>, extra: Seq<Seq<char>>) -> bool {
    &&& args.contains("-A"@)
    &&& args == extra || !extra.contains("-A"@) && args == seq!["-A"@] + extra
}

/// Whether `used` is what `given` says between its white space, where it says anything.
pub open spec fn is_what_was_given(used: Option<Seq<char>>, given: Option<Seq<char>>) -> bool {
    match (given, used) {
        (Some(whole), Some(part)) => part.len() > 0 && part == text::trimmed(whole, false),
        (Some(whole), None) => text::trimmed(whole, false).len() == 0,
        (None, used) => used is None,
    }
}

/// Whether `event` says how `query` went.
pub open spec fn is_outcome_of(query: open::QueryView, event: OpenEvent<Seq<char>>) -> bool {
    match event {
        OpenEvent::LockAcquired => query is AcquireLock,
        OpenEvent::LockRefused(_) => query is AcquireLock,
        OpenEvent::Opened => query is OpenExisting || query is OpenRaw,
        OpenEvent::OpenError { .. } => query is OpenExisting || query is OpenRaw,
        OpenEvent::BaseAddressRejected(_) => query is OpenRaw,
        OpenEvent::Provenance { .. } => query is ReadProvenance,
        OpenEvent::NotCancelled => query is CheckCancelled,
        OpenEvent::Cancelled(_) => query is CheckCancelled,
        OpenEvent::InputHashed(_) => query is HashInput,
        OpenEvent::InputUnreadable(_) => query is HashInput,
        OpenEvent::RecordedLocated { .. } => query is LocateRecorded,
        OpenEvent::LockDetected(_) => query is DetectLock,
        OpenEvent::NoLockDetected => query is DetectLock,
        OpenEvent::BitnessSet { .. } => query is SetBitness,
        OpenEvent::EntryPointProbed { .. } => query is ProbeEntryPoint,
        OpenEvent::EntryPointSet(_) => query is SetEntryPoint,
        OpenEvent::StartAddress(_) => query is ReadStartAddress,
        OpenEvent::AnalysisEnded(_) => query is WaitForAnalysis,
        OpenEvent::DebugInfoProbed(_) => query is ProbeDebugInfo,
        OpenEvent::DebugInfoLoaded(_) => query is LoadDebugInfo,
        OpenEvent::DebugInfoFailed(_) => query is LoadDebugInfo,
    }
}

/// Whether an open that asked for `query` waits for its outcome in `phase`.
spec fn waits_for(phase: OpenPhase<Seq<char>>, query: open::QueryView) -> bool {
    match phase {
        OpenPhase::Locking => query is AcquireLock,
        OpenPhase::OpeningCandidate => query is OpenExisting,
        OpenPhase::OpeningUnpackedCandidate => query is OpenExisting,
        OpenPhase::ReadingProvenance => query is ReadProvenance,
        OpenPhase::CancelAfterProvenance { .. } => query is CheckCancelled,
        OpenPhase::HashingInput { .. } => query is HashInput,
        OpenPhase::LocatingRecorded { .. } => query is LocateRecorded,
        OpenPhase::OpeningExisting => query is OpenExisting,
        OpenPhase::OpeningUnpacked => query is OpenExisting,
        OpenPhase::OpeningRaw => query is OpenRaw,
        OpenPhase::DetectingLock { .. } => query is DetectLock,
        OpenPhase::DetectingInputLock { .. } => query is DetectLock,
        OpenPhase::SettingBitness => query is SetBitness,
        OpenPhase::ProbingEntryPoint => query is ProbeEntryPoint,
        OpenPhase::SettingEntryPoint => query is SetEntryPoint,
        OpenPhase::ConfirmingEntryPoint => query is ReadStartAddress,
        OpenPhase::WaitingForAnalysis => query is WaitForAnalysis,
        OpenPhase::CancelAfterOpen => query is CheckCancelled,
        OpenPhase::CancelBeforeDebugInfo => query is CheckCancelled,
        OpenPhase::ProbingDebugInfo { path } => query == (OpenQuery::<
            Seq<char>,
            Seq<Seq<char>>,
        >::ProbeDebugInfo { path }),
        OpenPhase::LoadingDebugInfo { .. } => query is LoadDebugInfo,
        OpenPhase::CancelBeforeDsym => query is CheckCancelled,
        OpenPhase::LoadingDsym => query is LoadDebugInfo,
        OpenPhase::CancelAtEnd => query is CheckCancelled,
        OpenPhase::Finished => false,
    }
}

/// Whether a step waits for what it asks for, and for nothing where it asks for nothing.
spec fn waits_rightly(next: (StateView, StepView)) -> bool {
    match next.1.next {
        OpenNext::Ask(query) => waits_for(next.0.phase, query),
        _ => next.0.phase is Finished,
    }
}

proof fn lemma_judging_step_waits(s: StateView, event: OpenEvent<Seq<char>>)
    requires
        open::answers(s.phase, event),
        s.phase is Locking || open::judges_candidate(s.phase),
    ensures
        waits_rightly(open::judging_step(s, event)),
{
}

proof fn lemma_opening_step_waits(s: StateView, event: OpenEvent<Seq<char>>)
    requires
        open::answers(s.phase, event),
        !(s.phase is Locking || open::judges_candidate(s.phase) || open::holds_database(s.phase)),
    ensures
        waits_rightly(open::opening_step(s, event)),
{
}

proof fn lemma_raw_target_step_waits(s: StateView, event: OpenEvent<Seq<char>>)
    requires
        open::answers(s.phase, event),
        open::holds_database(s.phase) && !open::is_set_up(s.phase),
    ensures
        waits_rightly(open::raw_target_step(s, event)),
{
}

proof fn lemma_debug_info_step_waits(s: StateView, event: OpenEvent<Seq<char>>)
    requires
        open::answers(s.phase, event),
        open::is_set_up(s.phase),
    ensures
        waits_rightly(open::debug_info_step(s, event)),
{
}

proof fn lemma_step_waits(s: StateView, event: OpenEvent<Seq<char>>)
    requires
        open::answers(s.phase, event),
    ensures
        waits_rightly(open::step(s, event)),
{
    if s.phase is Locking || open::judges_candidate(s.phase) {
        lemma_judging_step_waits(s, event);
    } else if open::is_set_up(s.phase) {
        lemma_debug_info_step_waits(s, event);
    } else if open::holds_database(s.phase) {
        lemma_raw_target_step_waits(s, event);
    } else {
        lemma_opening_step_waits(s, event);
    }
}

proof fn lemma_waiting_for_outcomes(
    phase: OpenPhase<Seq<char>>,
    query: open::QueryView,
    told: OpenEvent<Seq<char>>,
)
    requires
        waits_for(phase, query),
    ensures
        open::answers(phase, told) <==> is_outcome_of(query, told),
{
}

/// After every step an open can be told exactly the outcomes of what it just asked for, and
/// nothing once it has ended.
pub proof fn an_open_waits_for_what_it_asked_for(
    s: StateView,
    event: OpenEvent<Seq<char>>,
    told: OpenEvent<Seq<char>>,
)
    requires
        open::answers(s.phase, event),
    ensures
        open::answers(open::step(s, event).0.phase, told) <==> (open::step(
            s,
            event,
        ).1.next matches OpenNext::Ask(query) && is_outcome_of(query, told)),
{
    let (after, step) = open::step(s, event);
    lemma_step_waits(s, event);
    if let OpenNext::Ask(query) = step.next {
        lemma_waiting_for_outcomes(after.phase, query, told);
    }
}

/// The first thing that an open asks for is the lock on the database that it is for. Stale locks
/// on that database and on the input are removed before, on request only.
pub proof fn an_open_starts_with_its_lock(
    request: RequestView,
    files: spec_fn(Seq<char>) -> EntryKind,
    told: OpenEvent<Seq<char>>,
)
    ensures
        ({
            let start = open::initial(request, files);
            let step = open::first_step(request, start);
            &&& step.next == OpenNext::<Seq<char>, Seq<Seq<char>>>::Ask(
                OpenQuery::AcquireLock { path: target(request) },
            )
            &&& open::answers(start.phase, told) <==> told is LockAcquired || told is LockRefused
            &&& if request.force {
                step.effects == seq![
                    EffectView::CleanStaleLocks { paths: seq![target(request), request.path] },
                ]
            } else {
                step.effects == Seq::<EffectView>::empty()
            }
        }),
{
    let start = open::initial(request, files);
    if request.force {
        assert(open::first_step(request, start).effects =~= seq![
            EffectView::CleanStaleLocks { paths: seq![target(request), request.path] },
        ]);
    }
}

/// A database is handed out only after a last look whether the open was cancelled.
pub proof fn nothing_is_handed_out_unasked(s: StateView, event: OpenEvent<Seq<char>>)
    requires
        open::open_inv(s),
        open::answers(s.phase, event),
    ensures
        open::step(s, event).1.next is Done <==> s.phase is CancelAtEnd && event is NotCancelled,
{
}

/// A raw input is opened as the request says. IDA analyses it at once only where the request
/// asks for analysis, and for no address size and no entry point that is still to be set.
pub proof fn a_raw_input_is_opened_as_asked_for(
    request: RequestView,
    files: spec_fn(Seq<char>) -> EntryKind,
    facts: OutputFacts<Seq<char>>,
    events: Seq<OpenEvent<Seq<char>>>,
)
    requires
        open::open_refusal(request, files, facts) is None,
        open_laws::is_run(open::initial(request, files), events),
        events.len() > 0,
    ensures
        open_laws::outcome(open::initial(request, files), events) matches OpenNext::Ask(
            OpenQuery::OpenRaw(raw),
        ) ==> {
            &&& raw.auto_analyse <==> request.auto_analyse && request.raw_target.bitness is None
                && request.raw_target.entry_point is None
            &&& raw.path == request.path
            &&& raw.output == target(request)
            &&& is_what_was_given(raw.file_type, request.file_type)
            &&& raw.processor == request.raw_target.processor
            &&& raw.base_address == request.raw_target.base_address
            &&& raw.entry_point == request.raw_target.entry_point
            &&& are_arguments(raw.args, request.extra_args)
            &&& raw.save
            &&& !database::is_database(request.style, request.path)
        },
{
    let start = open::initial(request, files);
    lemma_run_remembers(request, files, facts, events.drop_last());
    lemma_step_asks(open_laws::run(start, events.drop_last()).0, events.last());
    assert((seq!["-A"@] + request.extra_args)[0] == "-A"@);
}

/// No analysis is asked for, neither with a raw input nor of its database, and no database is
/// handed out, before the address size and the entry point that the request asks for were set
/// and confirmed; and none is handed out before the analysis that waited for them was completed.
pub proof fn analysis_waits_for_what_was_asked_for(
    request: RequestView,
    files: spec_fn(Seq<char>) -> EntryKind,
    facts: OutputFacts<Seq<char>>,
    events: Seq<OpenEvent<Seq<char>>>,
)
    requires
        open::open_refusal(request, files, facts) is None,
        open_laws::is_run(open::initial(request, files), events),
        events.len() > 0,
    ensures
        ({
            let next = open_laws::outcome(open::initial(request, files), events);
            let analyses = next matches OpenNext::Ask(query) && (query is WaitForAnalysis || (
            query matches OpenQuery::OpenRaw(raw) && raw.auto_analyse));
            &&& analyses ==> request.auto_analyse
            &&& analyses || next is Done ==> {
                &&& request.raw_target.bitness matches Some(bitness) ==> bitness_was_confirmed(
                    events.to_set(),
                    bitness,
                )
                &&& request.raw_target.entry_point matches Some(address) ==> events.contains(
                    OpenEvent::StartAddress(Some(address)),
                )
            }
            &&& next is Done && request.auto_analyse && (request.raw_target.bitness is Some
                || request.raw_target.entry_point is Some) ==> events.contains(
                OpenEvent::AnalysisEnded(true),
            )
        }),
{
    let start = open::initial(request, files);
    let before = open_laws::run(start, events.drop_last()).0;
    lemma_run_remembers(request, files, facts, events.drop_last());
    lemma_run_remembers(request, files, facts, events);
    lemma_step_asks(before, events.last());
    nothing_is_handed_out_unasked(before, events.last());
    lemma_told(events);
    lemma_told_grows(events.drop_last().to_set(), events.last());
}

/// The hash that a candidate is judged by is the hash of the file that the request names. The
/// path that is compared with it is the one that the candidate records, without its padding.
pub proof fn a_candidate_is_compared_with_the_input(
    request: RequestView,
    files: spec_fn(Seq<char>) -> EntryKind,
    facts: OutputFacts<Seq<char>>,
    events: Seq<OpenEvent<Seq<char>>>,
)
    requires
        open::open_refusal(request, files, facts) is None,
        open_laws::is_run(open::initial(request, files), events),
        events.len() > 0,
    ensures
        ({
            let next = open_laws::outcome(open::initial(request, files), events);
            &&& next matches OpenNext::Ask(OpenQuery::HashInput { path }) ==> path == request.path
            &&& next matches OpenNext::Ask(OpenQuery::LocateRecorded { recorded, input }) ==> {
                &&& input == request.path
                &&& exists|event: OpenEvent<Seq<char>>| #[trigger]
                    events.contains(event) && (event matches OpenEvent::Provenance { path, .. }
                        && recorded == text::trimmed(path, true))
                &&& recorded.len() > 0
            }
        }),
{
    let start = open::initial(request, files);
    let before = open_laws::run(start, events.drop_last()).0;
    lemma_run_remembers(request, files, facts, events.drop_last());
    lemma_step_asks(before, events.last());
    lemma_told(events);
    lemma_told_grows(events.drop_last().to_set(), events.last());
}

/// An existing database is opened where it is locked, or beside it in its unpacked form once it
/// did not open, and with the arguments of the request. In the place of a raw input one is
/// opened for good only where nobody asked to rebuild it and it records the hash of the input.
pub proof fn an_existing_database_is_opened_where_it_is_locked(
    request: RequestView,
    files: spec_fn(Seq<char>) -> EntryKind,
    facts: OutputFacts<Seq<char>>,
    events: Seq<OpenEvent<Seq<char>>>,
)
    requires
        open::open_refusal(request, files, facts) is None,
        open_laws::is_run(open::initial(request, files), events),
        events.len() > 0,
    ensures
        open_laws::outcome(open::initial(request, files), events) matches OpenNext::Ask(
            OpenQuery::OpenExisting { path, args, save },
        ) ==> {
            &&& are_arguments(args, request.extra_args)
            &&& path == target(request) || {
                &&& database::is_packed(request.style, target(request))
                &&& path == path::with_extension(request.style, target(request), "id0"@)
                &&& exists|event: OpenEvent<Seq<char>>| #[trigger]
                    events.contains(event) && (event matches OpenEvent::OpenError {
                        unpacked_exists: true,
                        ..
                    })
            }
            &&& !database::is_database(request.style, request.path) && save ==> {
                &&& !request.rebuild
                &&& exists|hash: Seq<u8>| #[trigger]
                    hash_was_recorded(events.to_set(), hash) && hash_was_computed(
                        events.to_set(),
                        hash,
                    ) && !(forall|i: int| 0 <= i < hash.len() ==> hash[i] == 0)
            }
        },
{
    let start = open::initial(request, files);
    let before = open_laws::run(start, events.drop_last()).0;
    lemma_run_remembers(request, files, facts, events.drop_last());
    lemma_step_asks(before, events.last());
    lemma_run_remembers(request, files, facts, events);
    assert((seq!["-A"@] + request.extra_args)[0] == "-A"@);
    open_laws::a_candidate_is_not_changed_by_looking_at_it(before, events.last());
    an_open_waits_for_what_it_asked_for(before, events.last(), OpenEvent::Opened);
    lemma_told(events);
    lemma_told_grows(events.drop_last().to_set(), events.last());
}

/// Debug information is loaded from the file that the request is for. What was asked for comes
/// from the given file, else from the dSYM bundle of the input, and only where that file was
/// just found. What was not asked for comes from the dSYM bundle of a raw input that has no
/// database yet, where its file exists.
pub proof fn debug_info_is_loaded_from_a_file_that_was_found(
    request: RequestView,
    files: spec_fn(Seq<char>) -> EntryKind,
    facts: OutputFacts<Seq<char>>,
    events: Seq<OpenEvent<Seq<char>>>,
)
    requires
        open::open_refusal(request, files, facts) is None,
        open_laws::is_run(open::initial(request, files), events),
        events.len() > 0,
    ensures
        ({
            let start = open::initial(request, files);
            open_laws::outcome(start, events) matches OpenNext::Ask(
                OpenQuery::LoadDebugInfo { path, verbose },
            ) ==> if request.load_debug_info {
                &&& events.last() == OpenEvent::<Seq<char>>::DebugInfoProbed(true)
                &&& events.len() > 1
                &&& open_laws::outcome(start, events.drop_last()) == OpenNext::<
                    Seq<char>,
                    Seq<Seq<char>>,
                >::Ask(OpenQuery::ProbeDebugInfo { path })
                &&& verbose == request.debug_info_verbose
            } else {
                &&& database::dsym_expected(request.style, request.path) == Some(path)
                &&& files(path) != EntryKind::Missing
                &&& !verbose
                &&& !database::is_database(request.style, request.path)
                &&& files(target(request)) == EntryKind::Missing
            }
        }),
{
    let start = open::initial(request, files);
    let before = open_laws::run(start, events.drop_last()).0;
    lemma_run_remembers(request, files, facts, events.drop_last());
    lemma_step_asks(before, events.last());
    if events.len() > 1 {
        let earlier = events.drop_last();
        assert(open_laws::is_run(start, earlier));
        lemma_step_waits(open_laws::run(start, earlier.drop_last()).0, earlier.last());
    }
}

/// Requested debug information is looked for in the given file, else in the dSYM bundle of the
/// input: that of the raw input, or of the file that the database is named after.
pub proof fn requested_debug_info_is_looked_for_where_it_was_asked_for(
    request: RequestView,
    files: spec_fn(Seq<char>) -> EntryKind,
    facts: OutputFacts<Seq<char>>,
    events: Seq<OpenEvent<Seq<char>>>,
)
    requires
        open::open_refusal(request, files, facts) is None,
        open_laws::is_run(open::initial(request, files), events),
        events.len() > 0,
    ensures
        open_laws::outcome(open::initial(request, files), events) matches OpenNext::Ask(
            OpenQuery::ProbeDebugInfo { path },
        ) ==> {
            let input = if database::is_database(request.style, request.path) {
                database::base_input(request.style, request.path)
            } else {
                request.path
            };
            &&& request.load_debug_info
            &&& is_what_was_given(Some(path), request.debug_info_path) || (is_what_was_given(
                None,
                request.debug_info_path,
            ) && database::dsym_expected(request.style, input) == Some(path))
        },
{
    let start = open::initial(request, files);
    let before = open_laws::run(start, events.drop_last()).0;
    lemma_run_remembers(request, files, facts, events.drop_last());
    lemma_step_asks(before, events.last());
    lemma_told(events);
    lemma_told_grows(events.drop_last().to_set(), events.last());
}

/// The address size and the entry point that are set are those of the request. The entry point
/// is set only at an address that a segment holds, after the address size was confirmed, and
/// only where IDA does not start there already.
pub proof fn what_is_set_is_what_was_asked_for(
    request: RequestView,
    files: spec_fn(Seq<char>) -> EntryKind,
    facts: OutputFacts<Seq<char>>,
    events: Seq<OpenEvent<Seq<char>>>,
)
    requires
        open::open_refusal(request, files, facts) is None,
        open_laws::is_run(open::initial(request, files), events),
        events.len() > 0,
    ensures
        ({
            let next = open_laws::outcome(open::initial(request, files), events);
            let confirmed = request.raw_target.bitness matches Some(bitness)
                ==> bitness_was_confirmed(events.to_set(), bitness);
            &&& next matches OpenNext::Ask(OpenQuery::SetBitness { bits }) ==> {
                match request.raw_target.bitness {
                    Some(Bitness::Bits16) => bits == 16,
                    Some(Bitness::Bits32) => bits == 32,
                    Some(Bitness::Bits64) => bits == 64,
                    None => false,
                }
            }
            &&& next matches OpenNext::Ask(OpenQuery::ProbeEntryPoint { address }) ==> {
                request.raw_target.entry_point == Some(address) && confirmed
            }
            &&& next matches OpenNext::Ask(OpenQuery::SetEntryPoint { address }) ==> {
                &&& request.raw_target.entry_point == Some(address)
                &&& confirmed
                &&& events.last() matches OpenEvent::EntryPointProbed { in_segment: true, start }
                    && start != Some(address)
            }
            &&& next matches OpenNext::Ask(OpenQuery::ReadStartAddress) ==> {
                &&& confirmed
                &&& request.raw_target.entry_point is Some
                &&& events.last() == OpenEvent::<Seq<char>>::EntryPointSet(true) || events.last()
                    == (OpenEvent::<Seq<char>>::EntryPointProbed {
                    in_segment: true,
                    start: request.raw_target.entry_point,
                })
            }
        }),
{
    let start = open::initial(request, files);
    let before = open_laws::run(start, events.drop_last()).0;
    lemma_run_remembers(request, files, facts, events.drop_last());
    lemma_step_asks(before, events.last());
    lemma_told(events);
    lemma_told_grows(events.drop_last().to_set(), events.last());
}

/// A lock is looked for only where the database did not open, and for the reason of that: first
/// at the database, and where there is none at the input.
pub proof fn a_lock_is_looked_for_where_the_open_failed(
    request: RequestView,
    files: spec_fn(Seq<char>) -> EntryKind,
    facts: OutputFacts<Seq<char>>,
    events: Seq<OpenEvent<Seq<char>>>,
)
    requires
        open::open_refusal(request, files, facts) is None,
        open_laws::is_run(open::initial(request, files), events),
        events.len() > 0,
    ensures
        open_laws::outcome(open::initial(request, files), events) matches OpenNext::Ask(
            OpenQuery::DetectLock { path, reason },
        ) ==> {
            &&& open_failed_for(events.to_set(), reason)
            &&& events.last() is OpenError ==> path == target(request)
            &&& events.last() !is OpenError ==> path == request.path && events.last()
                is NoLockDetected
        },
{
    let start = open::initial(request, files);
    let before = open_laws::run(start, events.drop_last()).0;
    lemma_run_remembers(request, files, facts, events.drop_last());
    lemma_step_asks(before, events.last());
    lemma_told(events);
    lemma_told_grows(events.drop_last().to_set(), events.last());
}

/// An open that hands out a database reports the debug information that was asked for, and no
/// other: the file that it was looked for in, and whether it was loaded from there, with the
/// reason where it was not. It reports none where none was asked for, or where the input has no
/// name to look for a dSYM bundle by.
pub proof fn an_open_reports_the_requested_debug_info(
    request: RequestView,
    files: spec_fn(Seq<char>) -> EntryKind,
    facts: OutputFacts<Seq<char>>,
    events: Seq<OpenEvent<Seq<char>>>,
)
    requires
        open::open_refusal(request, files, facts) is None,
        open_laws::is_run(open::initial(request, files), events),
        events.len() > 0,
    ensures
        open_laws::outcome(open::initial(request, files), events) matches OpenNext::Done {
            debug_info,
            ..
        } ==> {
            let input = if database::is_database(request.style, request.path) {
                database::base_input(request.style, request.path)
            } else {
                request.path
            };
            match debug_info {
                Some(load) => {
                    &&& request.load_debug_info
                    &&& is_what_was_given(Some(load.path), request.debug_info_path) || (
                    is_what_was_given(None, request.debug_info_path) && database::dsym_expected(
                        request.style,
                        input,
                    ) == Some(load.path))
                    &&& load.loaded <==> load.error is None
                    &&& load.loaded ==> events.contains(OpenEvent::DebugInfoLoaded(true))
                    &&& !load.loaded ==> {
                        ||| events.contains(OpenEvent::DebugInfoProbed(false))
                        ||| events.contains(OpenEvent::DebugInfoLoaded(false))
                        ||| events.contains(OpenEvent::DebugInfoFailed(load.error->0))
                    }
                },
                None => request.load_debug_info ==> is_what_was_given(
                    None,
                    request.debug_info_path,
                ) && database::dsym_expected(request.style, input) is None,
            }
        },
{
    let start = open::initial(request, files);
    let before = open_laws::run(start, events.drop_last()).0;
    lemma_run_remembers(request, files, facts, events.drop_last());
    nothing_is_handed_out_unasked(before, events.last());
    lemma_told(events);
    lemma_told_grows(events.drop_last().to_set(), events.last());
}

} // verus!
