//! What an open makes of the outcomes that it is told.

use crate::database;
use crate::error::ToolError;
use crate::files;
use crate::files::EntryKind;
use crate::number;
use crate::open;
use crate::open::{EffectView, RequestView, StateView};
use crate::open_asks;
use crate::open_types::{
    DebugInfoLoad, OpenEffect, OpenEvent, OpenNext, OpenPhase, OpenProgress, OpenQuery, StepView,
};
use crate::output::OutputFacts;
use crate::path;
use crate::text;
use vstd::prelude::*;

verus! {

/// Whether a database for a raw input may be used: it records the hash of the input, or it
/// records its path and is to be replaced.
pub open spec fn may_be_used(
    rebuild: bool,
    recorded_hash: Seq<u8>,
    input_hash: Seq<u8>,
    path_matches: bool,
) -> bool {
    ||| recorded_hash == input_hash && !(forall|i: int|
        0 <= i < recorded_hash.len() ==> recorded_hash[i] == 0)
    ||| rebuild && path_matches
}

/// Whether an outcome ends the open: what is needed was refused, or differs from what was asked
/// for, or forbids to go on.
pub open spec fn is_reason_to_fail(s: StateView, event: OpenEvent<Seq<char>>) -> bool {
    match event {
        OpenEvent::LockRefused(_) => true,
        OpenEvent::Cancelled(_) => true,
        OpenEvent::InputUnreadable(_) => true,
        OpenEvent::BaseAddressRejected(_) => true,
        OpenEvent::LockDetected(_) => true,
        OpenEvent::NoLockDetected => s.phase is DetectingInputLock,
        OpenEvent::OpenError { unpacked_exists, .. } => s.phase is OpeningUnpackedCandidate || (
        s.phase is OpeningCandidate && !(unpacked_exists && database::is_packed(
            s.style,
            s.lock_target,
        ))),
        OpenEvent::BitnessSet { .. } => !open_asks::confirms_bitness(
            event,
            s.raw_target.bitness->0,
        ),
        OpenEvent::EntryPointProbed { in_segment, .. } => !in_segment,
        OpenEvent::EntryPointSet(accepted) => !accepted,
        OpenEvent::StartAddress(start) => start != s.raw_target.entry_point,
        OpenEvent::AnalysisEnded(completed) => !completed,
        OpenEvent::InputHashed(input_hash) => s.phase matches OpenPhase::HashingInput {
            recorded_hash,
            recorded_path,
        } && text::trimmed(recorded_path, true).len() == 0 && !may_be_used(
            s.rebuild,
            recorded_hash@,
            input_hash@,
            false,
        ),
        OpenEvent::RecordedLocated { expanded, input_canonical, expanded_canonical } =>
            s.phase matches OpenPhase::LocatingRecorded { recorded_hash, input_hash }
            && !may_be_used(
            s.rebuild,
            recorded_hash@,
            input_hash@,
            files::same_file(s.style, s.path, expanded, input_canonical, expanded_canonical),
        ),
        _ => false,
    }
}

proof fn lemma_judging_step_fails(s: StateView, event: OpenEvent<Seq<char>>)
    requires
        open::open_inv(s),
        open::answers(s.phase, event),
        s.phase is Locking || open::judges_candidate(s.phase),
    ensures
        open::judging_step(s, event).1.next is Failed <==> is_reason_to_fail(s, event),
{
}

proof fn lemma_opening_step_fails(s: StateView, event: OpenEvent<Seq<char>>)
    requires
        open::open_inv(s),
        open::answers(s.phase, event),
        !(s.phase is Locking || open::judges_candidate(s.phase) || open::holds_database(s.phase)),
    ensures
        open::opening_step(s, event).1.next is Failed <==> is_reason_to_fail(s, event),
{
}

proof fn lemma_raw_target_step_fails(s: StateView, event: OpenEvent<Seq<char>>)
    requires
        open::open_inv(s),
        open::answers(s.phase, event),
        open::holds_database(s.phase) && !open::is_set_up(s.phase),
    ensures
        open::raw_target_step(s, event).1.next is Failed <==> is_reason_to_fail(s, event),
{
}

proof fn lemma_debug_info_step_fails(s: StateView, event: OpenEvent<Seq<char>>)
    requires
        open::open_inv(s),
        open::answers(s.phase, event),
        open::is_set_up(s.phase),
    ensures
        open::debug_info_step(s, event).1.next is Failed <==> is_reason_to_fail(s, event),
{
}

/// An open fails exactly where it is told a reason to.
pub proof fn an_open_fails_for_a_reason(s: StateView, event: OpenEvent<Seq<char>>)
    requires
        open::open_inv(s),
        open::answers(s.phase, event),
    ensures
        open::step(s, event).1.next is Failed <==> is_reason_to_fail(s, event),
{
    if s.phase is Locking || open::judges_candidate(s.phase) {
        lemma_judging_step_fails(s, event);
    } else if open::is_set_up(s.phase) {
        lemma_debug_info_step_fails(s, event);
    } else if open::holds_database(s.phase) {
        lemma_raw_target_step_fails(s, event);
    } else {
        lemma_opening_step_fails(s, event);
    }
}

/// Whether `error` passes on what the failure is due to.
pub open spec fn tells_the_reason(
    s: StateView,
    event: OpenEvent<Seq<char>>,
    error: ToolError<Seq<char>>,
) -> bool {
    match event {
        OpenEvent::LockRefused(reason) => error == reason,
        OpenEvent::Cancelled(reason) => error == reason,
        OpenEvent::InputUnreadable(reason) => error == reason,
        OpenEvent::BaseAddressRejected(reason) => error == ToolError::InvalidParams(reason),
        OpenEvent::LockDetected(found) => error == ToolError::DatabaseLocked(found),
        OpenEvent::NoLockDetected => s.phase matches OpenPhase::DetectingInputLock { reason }
            && error == ToolError::OpenFailed(s.lock_target + ": "@ + reason),
        OpenEvent::OpenError { reason, .. } => error matches ToolError::OpenFailed(said)
            && text::has_part(said, s.lock_target) && text::has_part(said, reason),
        OpenEvent::InputHashed(_) => error matches ToolError::InvalidParams(said)
            && text::has_part(said, s.lock_target),
        OpenEvent::RecordedLocated { .. } => error matches ToolError::InvalidParams(said)
            && text::has_part(said, s.lock_target),
        OpenEvent::BitnessSet { refused: Some(segment), .. } => {
            error matches ToolError::OpenFailed(said) && text::has_part(
                said,
                number::address_text(segment as nat),
            )
        },
        OpenEvent::EntryPointProbed { .. } => error matches ToolError::OpenFailed(said)
            && text::has_part(said, number::address_text(s.raw_target.entry_point->0 as nat)),
        OpenEvent::EntryPointSet(_) => error matches ToolError::OpenFailed(said)
            && text::has_part(said, number::address_text(s.raw_target.entry_point->0 as nat)),
        OpenEvent::StartAddress(_) => error matches ToolError::OpenFailed(said)
            && text::has_part(said, number::address_text(s.raw_target.entry_point->0 as nat)),
        _ => error is OpenFailed,
    }
}

spec fn fails_rightly(
    s: StateView,
    event: OpenEvent<Seq<char>>,
    next: (StateView, StepView),
) -> bool {
    next.1.next matches OpenNext::Failed(error) ==> tells_the_reason(s, event, error)
}

proof fn lemma_judging_step_tells(s: StateView, event: OpenEvent<Seq<char>>)
    requires
        open::open_inv(s),
        open::answers(s.phase, event),
        s.phase is Locking || open::judges_candidate(s.phase),
    ensures
        fails_rightly(s, event, open::judging_step(s, event)),
{
    text::a_part_of_a_part_is_found();
}

proof fn lemma_opening_step_tells(s: StateView, event: OpenEvent<Seq<char>>)
    requires
        open::open_inv(s),
        open::answers(s.phase, event),
        !(s.phase is Locking || open::judges_candidate(s.phase) || open::holds_database(s.phase)),
    ensures
        fails_rightly(s, event, open::opening_step(s, event)),
{
}

proof fn lemma_raw_target_step_tells(s: StateView, event: OpenEvent<Seq<char>>)
    requires
        open::open_inv(s),
        open::answers(s.phase, event),
        open::holds_database(s.phase) && !open::is_set_up(s.phase),
    ensures
        fails_rightly(s, event, open::raw_target_step(s, event)),
{
    text::a_part_of_a_part_is_found();
}

proof fn lemma_debug_info_step_tells(s: StateView, event: OpenEvent<Seq<char>>)
    requires
        open::open_inv(s),
        open::answers(s.phase, event),
        open::is_set_up(s.phase),
    ensures
        fails_rightly(s, event, open::debug_info_step(s, event)),
{
}

proof fn lemma_step_tells(s: StateView, event: OpenEvent<Seq<char>>)
    requires
        open::open_inv(s),
        open::answers(s.phase, event),
    ensures
        fails_rightly(s, event, open::step(s, event)),
{
    if s.phase is Locking || open::judges_candidate(s.phase) {
        lemma_judging_step_tells(s, event);
    } else if open::is_set_up(s.phase) {
        lemma_debug_info_step_tells(s, event);
    } else if open::holds_database(s.phase) {
        lemma_raw_target_step_tells(s, event);
    } else {
        lemma_opening_step_tells(s, event);
    }
}

/// An open that fails tells the reason: the refusal or cancellation itself, or an error of the
/// right kind that names the database, the segment or the entry point that it is about.
pub proof fn a_failed_open_tells_the_reason(s: StateView, event: OpenEvent<Seq<char>>)
    requires
        open::open_inv(s),
        open::answers(s.phase, event),
    ensures
        open::step(s, event).1.next matches OpenNext::Failed(error) ==> tells_the_reason(
            s,
            event,
            error,
        ),
{
    lemma_step_tells(s, event);
}

/// Whether a step does `effect`, given where the open stands, what it was told and how it goes
/// on.
pub open spec fn is_due(
    s: StateView,
    event: OpenEvent<Seq<char>>,
    next: OpenNext<Seq<char>, Seq<Seq<char>>>,
    effect: EffectView,
) -> bool {
    let gives_up = next is Failed;
    let did_not_open = event is OpenError && (next matches OpenNext::Ask(query) && query
        is DetectLock);
    let goes_on_open = s.phase is CancelAfterOpen && event is NotCancelled;
    match effect {
        OpenEffect::CleanStaleLocks { .. } => false,
        OpenEffect::CloseCandidate => event is Provenance,
        OpenEffect::CloseDatabase => gives_up && s.database_open,
        OpenEffect::ReleaseLock => s.lock_held && (gives_up || did_not_open),
        OpenEffect::RemoveArtifacts { paths } => {
            &&& paths == database::artifacts(s.style, s.lock_target)
            &&& !s.is_idb && !s.reused
            &&& (gives_up && s.database_open) || (did_not_open && s.phase is OpeningRaw)
        },
        OpenEffect::KeepOpen => next is Done,
        OpenEffect::Announce(OpenProgress::OpeningExisting) => event !is OpenError && (
        next matches OpenNext::Ask(OpenQuery::OpenExisting { save: true, .. })),
        OpenEffect::Announce(OpenProgress::OpeningRawAndAnalysing) => s.auto_analyse && (
        next matches OpenNext::Ask(OpenQuery::OpenRaw(_))),
        OpenEffect::Announce(OpenProgress::OpeningRaw) => !s.auto_analyse && (
        next matches OpenNext::Ask(OpenQuery::OpenRaw(_))),
        OpenEffect::Announce(OpenProgress::Analysing) => goes_on_open && !s.is_idb
            && s.auto_analyse,
        OpenEffect::Announce(OpenProgress::LoadingDebugInfo) => goes_on_open && s.load_debug_info,
        OpenEffect::Announce(OpenProgress::LoadingDsym) => goes_on_open && !s.load_debug_info
            && s.dsym is Some,
    }
}

/// When an effect takes place among the others of a step.
pub open spec fn turn(effect: EffectView) -> nat {
    match effect {
        OpenEffect::CloseCandidate => 0,
        OpenEffect::CloseDatabase => 0,
        OpenEffect::ReleaseLock => 1,
        OpenEffect::RemoveArtifacts { .. } => 2,
        OpenEffect::Announce(OpenProgress::Analysing) => 0,
        _ => 1,
    }
}

spec fn acts_rightly(
    s: StateView,
    event: OpenEvent<Seq<char>>,
    next: (StateView, StepView),
) -> bool {
    let effects = next.1.effects;
    &&& forall|effect: EffectView| #[trigger]
        effects.contains(effect) <==> is_due(s, event, next.1.next, effect)
    &&& forall|i: int, j: int|
        0 <= i < j < effects.len() ==> turn(#[trigger] effects[i]) < turn(#[trigger] effects[j])
}

proof fn lemma_effects_contain()
    ensures
        forall|effect: EffectView| !#[trigger] Seq::<EffectView>::empty().contains(effect),
        forall|effects: Seq<EffectView>, last: EffectView, effect: EffectView| #[trigger]
            effects.push(last).contains(effect) <==> effects.contains(effect) || effect == last,
{
    assert forall|effects: Seq<EffectView>, last: EffectView, effect: EffectView| #[trigger]
        effects.push(last).contains(effect) <==> effects.contains(effect) || effect == last by {
        let all = effects.push(last);
        if effects.contains(effect) {
            let i = choose|i: int| 0 <= i < effects.len() && effects[i] == effect;
            assert(all[i] == effect);
        }
        assert(all[effects.len() as int] == last);
        if all.contains(effect) && effect != last {
            let i = choose|i: int| 0 <= i < all.len() && all[i] == effect;
            assert(effects[i] == effect);
        }
    }
}

proof fn lemma_judging_step_acts(s: StateView, event: OpenEvent<Seq<char>>)
    requires
        open::open_inv(s),
        open::answers(s.phase, event),
        s.phase is Locking || open::judges_candidate(s.phase),
    ensures
        acts_rightly(s, event, open::judging_step(s, event)),
{
    lemma_effects_contain();
}

proof fn lemma_opening_step_acts(s: StateView, event: OpenEvent<Seq<char>>)
    requires
        open::open_inv(s),
        open::answers(s.phase, event),
        !(s.phase is Locking || open::judges_candidate(s.phase) || open::holds_database(s.phase)),
    ensures
        acts_rightly(s, event, open::opening_step(s, event)),
{
    lemma_effects_contain();
}

proof fn lemma_raw_target_step_acts(s: StateView, event: OpenEvent<Seq<char>>)
    requires
        open::open_inv(s),
        open::answers(s.phase, event),
        open::holds_database(s.phase) && !open::is_set_up(s.phase),
    ensures
        acts_rightly(s, event, open::raw_target_step(s, event)),
{
    lemma_effects_contain();
}

proof fn lemma_debug_info_step_acts(s: StateView, event: OpenEvent<Seq<char>>)
    requires
        open::open_inv(s),
        open::answers(s.phase, event),
        open::is_set_up(s.phase),
    ensures
        acts_rightly(s, event, open::debug_info_step(s, event)),
{
    lemma_effects_contain();
}

proof fn lemma_step_acts(s: StateView, event: OpenEvent<Seq<char>>)
    requires
        open::open_inv(s),
        open::answers(s.phase, event),
    ensures
        acts_rightly(s, event, open::step(s, event)),
{
    if s.phase is Locking || open::judges_candidate(s.phase) {
        lemma_judging_step_acts(s, event);
    } else if open::is_set_up(s.phase) {
        lemma_debug_info_step_acts(s, event);
    } else if open::holds_database(s.phase) {
        lemma_raw_target_step_acts(s, event);
    } else {
        lemma_opening_step_acts(s, event);
    }
}

/// What a step does is exactly what is due, and each thing once: databases are closed before
/// the lock is given back, and the files of a database that the open made go last.
pub proof fn every_step_does_what_is_due(
    s: StateView,
    event: OpenEvent<Seq<char>>,
    effect: EffectView,
    i: int,
    j: int,
)
    requires
        open::open_inv(s),
        open::answers(s.phase, event),
    ensures
        ({
            let step = open::step(s, event).1;
            &&& step.effects.contains(effect) <==> is_due(s, event, step.next, effect)
            &&& 0 <= i < j < step.effects.len() ==> turn(step.effects[i]) < turn(step.effects[j])
        }),
{
    lemma_step_acts(s, event);
}

/// Nothing that was asked for is left out: once the database is open its address size is set,
/// then its entry point, and then the analysis is waited for that waited for them.
pub proof fn what_was_asked_for_is_set_up(s: StateView, event: OpenEvent<Seq<char>>)
    requires
        open::open_inv(s),
        open::answers(s.phase, event),
        !is_reason_to_fail(s, event),
    ensures
        ({
            let next = open::step(s, event).1.next;
            let opened = event is Opened && !open::judges_candidate(s.phase);
            let entry_is_due = if s.raw_target.bitness is Some {
                event is BitnessSet
            } else {
                opened
            };
            let analysis_is_due = if s.raw_target.entry_point is Some {
                event is StartAddress
            } else {
                entry_is_due
            };
            &&& opened && s.raw_target.bitness is Some ==> (next matches OpenNext::Ask(query)
                && query is SetBitness)
            &&& entry_is_due && s.raw_target.entry_point is Some ==> (
            next matches OpenNext::Ask(query) && query is ProbeEntryPoint)
            &&& event matches OpenEvent::EntryPointProbed { start, .. } ==> (
            next matches OpenNext::Ask(query) && if start == s.raw_target.entry_point {
                query is ReadStartAddress
            } else {
                query is SetEntryPoint
            })
            &&& event is EntryPointSet ==> (next matches OpenNext::Ask(query) && query
                is ReadStartAddress)
            &&& analysis_is_due && s.auto_analyse && (s.raw_target.bitness is Some
                || s.raw_target.entry_point is Some) ==> (next matches OpenNext::Ask(query)
                && query is WaitForAnalysis)
            &&& analysis_is_due && !(s.auto_analyse && (s.raw_target.bitness is Some
                || s.raw_target.entry_point is Some)) ==> (next matches OpenNext::Ask(query)
                && query is CheckCancelled)
            &&& event is AnalysisEnded ==> (next matches OpenNext::Ask(query) && query
                is CheckCancelled)
        }),
{
}

/// How a load of requested debug information went is kept as it was told, and nothing else
/// changes what is kept.
pub proof fn a_load_is_recorded_as_it_went(s: StateView, event: OpenEvent<Seq<char>>)
    requires
        open::open_inv(s),
        open::answers(s.phase, event),
    ensures
        ({
            let after = open::step(s, event).0.debug_info;
            match (s.phase, event) {
                (OpenPhase::ProbingDebugInfo { path }, OpenEvent::DebugInfoProbed(false)) => {
                    after == Some(
                        DebugInfoLoad {
                            path,
                            loaded: false,
                            error: Some("debug info not found"@),
                        },
                    )
                },
                (OpenPhase::LoadingDebugInfo { path }, OpenEvent::DebugInfoLoaded(true)) => {
                    after == Some(DebugInfoLoad { path, loaded: true, error: None })
                },
                (OpenPhase::LoadingDebugInfo { path }, OpenEvent::DebugInfoLoaded(false)) => {
                    after == Some(
                        DebugInfoLoad { path, loaded: false, error: Some("load returned false"@) },
                    )
                },
                (OpenPhase::LoadingDebugInfo { path }, OpenEvent::DebugInfoFailed(reason)) => {
                    after == Some(DebugInfoLoad { path, loaded: false, error: Some(reason) })
                },
                _ => after == s.debug_info,
            }
        }),
{
}

/// Requested debug information is looked for in every database that was opened, unless its
/// input has no name. Where none was requested, the dSYM bundle that was found is loaded; and
/// where there is none either, the open is done.
pub proof fn debug_info_is_not_forgotten(s: StateView)
    requires
        open::open_inv(s),
        s.phase is CancelAfterOpen,
    ensures
        ({
            let go_on = OpenEvent::<Seq<char>>::NotCancelled;
            let before = open::step(s, go_on).0;
            let (after, step) = open::step(before, go_on);
            &&& open::answers(before.phase, go_on)
            &&& s.load_debug_info && (s.debug_info_path is Some || path::file_name(
                s.style,
                if s.is_idb {
                    database::base_input(s.style, s.path)
                } else {
                    s.path
                },
            ) is Some) ==> (step.next matches OpenNext::Ask(query) && query is ProbeDebugInfo)
            &&& !s.load_debug_info && s.dsym is Some ==> (step.next matches OpenNext::Ask(query)
                && query is LoadDebugInfo)
            &&& !s.load_debug_info && s.dsym is None ==> step.next is Done
        }),
{
}

/// A file with debug information that was found is loaded, and every search and load, however it
/// went, leads to the end of the open: after a last look whether it was cancelled, the database
/// is handed out.
pub proof fn a_missing_debug_info_does_not_stop_an_open(s: StateView, event: OpenEvent<Seq<char>>)
    requires
        open::open_inv(s),
        open::answers(s.phase, event),
        event is DebugInfoProbed || event is DebugInfoLoaded || event is DebugInfoFailed,
    ensures
        ({
            let (after, step) = open::step(s, event);
            let go_on = OpenEvent::<Seq<char>>::NotCancelled;
            if event == OpenEvent::<Seq<char>>::DebugInfoProbed(true) {
                step.next matches OpenNext::Ask(query) && query is LoadDebugInfo
            } else {
                &&& step.next matches OpenNext::Ask(query) && query is CheckCancelled
                &&& open::answers(after.phase, go_on)
                &&& open::step(after, go_on).1.next == (OpenNext::<Seq<char>, Seq<Seq<char>>>::Done {
                    path: s.opened_path,
                    debug_info: after.debug_info,
                })
            }
        }),
{
}

/// What is handed out is where the database was opened: in its unpacked form where that is what
/// was opened, and at the locked path otherwise.
pub proof fn a_database_is_known_by_where_it_was_opened(s: StateView, event: OpenEvent<Seq<char>>)
    requires
        open::open_inv(s),
        open::answers(s.phase, event),
    ensures
        ({
            let (after, step) = open::step(s, event);
            &&& event is Opened && s.phase is OpeningUnpacked ==> after.opened_path
                == path::with_extension(s.style, s.lock_target, "id0"@)
            &&& event is Opened && (s.phase is OpeningRaw || s.phase is OpeningExisting)
                ==> after.opened_path == s.lock_target
            &&& open::holds_database(s.phase) ==> after.opened_path == s.opened_path
            &&& step.next matches OpenNext::Done { path, debug_info } ==> path == s.opened_path
                && debug_info == s.debug_info
        }),
{
}

/// A database that cannot be opened packed is tried unpacked where it is there, both when it is
/// only looked at and when it is opened for good. Otherwise an open that only looks at it fails,
/// and one for good looks for the lock that may be the reason.
pub proof fn an_unpacked_database_is_tried(s: StateView, event: OpenEvent<Seq<char>>)
    requires
        open::open_inv(s),
        open::answers(s.phase, event),
        event is OpenError,
    ensures
        ({
            let next = open::step(s, event).1.next;
            if event->OpenError_unpacked_exists && database::is_packed(s.style, s.lock_target) && (
            s.phase is OpeningExisting || s.phase is OpeningCandidate) {
                next == OpenNext::<Seq<char>, Seq<Seq<char>>>::Ask(
                    OpenQuery::OpenExisting {
                        path: path::with_extension(s.style, s.lock_target, "id0"@),
                        args: s.init_args,
                        save: s.phase is OpeningExisting,
                    },
                )
            } else if open::judges_candidate(s.phase) {
                next is Failed
            } else {
                next == OpenNext::<Seq<char>, Seq<Seq<char>>>::Ask(
                    OpenQuery::DetectLock {
                        path: s.lock_target,
                        reason: event->OpenError_reason,
                    },
                )
            }
        }),
{
}

/// How an open of a raw input goes on that finds a database at its output, once that database
/// gave the hash and the path of its input, the input gave its own hash, and a recorded path was
/// located. The database is reused where its hash is the one of the input; where it is to be
/// rebuilt, it is replaced if its hash or its path is the one of the input; and in every other
/// case the open fails.
pub proof fn a_database_for_a_raw_input_is_judged_by_its_provenance(
    request: RequestView,
    files: spec_fn(Seq<char>) -> EntryKind,
    facts: OutputFacts<Seq<char>>,
    hash: [u8; 32],
    recorded: Seq<char>,
    input_hash: [u8; 32],
    expanded: Seq<char>,
    input_canonical: Option<Seq<char>>,
    expanded_canonical: Option<Seq<char>>,
)
    requires
        open::open_refusal(request, files, facts) is None,
        !database::is_database(request.style, request.path),
        files(open_asks::target(request)) != EntryKind::Missing,
    ensures
        ({
            let target = open_asks::target(request);
            let (s1, locked) = open::step(open::initial(request, files), OpenEvent::LockAcquired);
            let (s2, opened) = open::step(s1, OpenEvent::Opened);
            let (s3, read) = open::step(s2, OpenEvent::Provenance { hash, path: recorded });
            let (s4, checked) = open::step(s3, OpenEvent::NotCancelled);
            let (s5, hashed) = open::step(s4, OpenEvent::InputHashed(input_hash));
            let (s6, found) = open::step(
                s5,
                OpenEvent::RecordedLocated { expanded, input_canonical, expanded_canonical },
            );
            let names_a_path = text::trimmed(recorded, true).len() > 0;
            let judged = if names_a_path {
                found
            } else {
                hashed
            };
            let same_hash = hash@ == input_hash@ && !(forall|i: int|
                0 <= i < 32 ==> #[trigger] hash[i] == 0);
            let same_path = names_a_path && files::same_file(
                request.style,
                request.path,
                expanded,
                input_canonical,
                expanded_canonical,
            );
            &&& locked.next matches OpenNext::Ask(
                OpenQuery::OpenExisting { path, save: false, .. },
            ) && path == target
            &&& opened.next == OpenNext::<Seq<char>, Seq<Seq<char>>>::Ask(
                OpenQuery::ReadProvenance,
            )
            &&& read.next == OpenNext::<Seq<char>, Seq<Seq<char>>>::Ask(OpenQuery::CheckCancelled)
            &&& checked.next == OpenNext::<Seq<char>, Seq<Seq<char>>>::Ask(
                OpenQuery::HashInput { path: request.path },
            )
            &&& names_a_path ==> hashed.next == OpenNext::<Seq<char>, Seq<Seq<char>>>::Ask(
                OpenQuery::LocateRecorded {
                    recorded: text::trimmed(recorded, true),
                    input: request.path,
                },
            )
            &&& if request.rebuild && (same_hash || same_path) {
                judged.next matches OpenNext::Ask(OpenQuery::OpenRaw(raw)) && raw.path
                    == request.path && raw.output == target
            } else if !request.rebuild && same_hash {
                judged.next matches OpenNext::Ask(
                    OpenQuery::OpenExisting { path, save: true, .. },
                ) && path == target
            } else {
                judged.next matches OpenNext::Failed(error) && error is InvalidParams
            }
        }),
{
    let s0 = open::initial(request, files);
    let (s1, locked) = open::step(s0, OpenEvent::LockAcquired);
    assert(s1.phase is OpeningCandidate);
    let (s2, opened) = open::step(s1, OpenEvent::Opened);
    assert(s2.phase is ReadingProvenance);
    let (s3, read) = open::step(s2, OpenEvent::Provenance { hash, path: recorded });
    assert(s3.phase is CancelAfterProvenance);
    let (s4, checked) = open::step(s3, OpenEvent::NotCancelled);
    assert(s4.phase is HashingInput);
    assert(database::is_recorded(hash@) <==> !(forall|i: int|
        0 <= i < 32 ==> #[trigger] hash[i] == 0));
}

/// An open of a raw input for which no database is there yet goes straight to the input, and one
/// of a database to that database.
pub proof fn without_a_database_the_input_is_opened(
    request: RequestView,
    files: spec_fn(Seq<char>) -> EntryKind,
    facts: OutputFacts<Seq<char>>,
)
    requires
        open::open_refusal(request, files, facts) is None,
    ensures
        ({
            let target = open_asks::target(request);
            let locked = open::step(open::initial(request, files), OpenEvent::LockAcquired).1;
            let present = files(target) != EntryKind::Missing || (database::is_packed(
                request.style,
                target,
            ) && files(path::with_extension(request.style, target, "id0"@))
                != EntryKind::Missing);
            if database::is_database(request.style, request.path) {
                locked.next matches OpenNext::Ask(
                    OpenQuery::OpenExisting { path, save: true, .. },
                ) && path == request.path
            } else if present {
                locked.next matches OpenNext::Ask(
                    OpenQuery::OpenExisting { path, save: false, .. },
                ) && path == target
            } else {
                locked.next matches OpenNext::Ask(OpenQuery::OpenRaw(raw)) && raw.path
                    == request.path && raw.output == target
            }
        }),
{
}

/// A dSYM bundle is loaded unasked only beside a raw input that has no database yet, and it is
/// loaded wherever its file is there.
pub proof fn a_dsym_bundle_is_found_beside_a_new_input(
    request: RequestView,
    files: spec_fn(Seq<char>) -> EntryKind,
)
    ensures
        ({
            let target = open_asks::target(request);
            let present = files(target) != EntryKind::Missing || (database::is_packed(
                request.style,
                target,
            ) && files(path::with_extension(request.style, target, "id0"@))
                != EntryKind::Missing);
            match open::initial(request, files).dsym {
                Some(dsym) => {
                    &&& !database::is_database(request.style, request.path) && !present
                    &&& database::dsym_expected(request.style, request.path) == Some(dsym)
                    &&& files(dsym) != EntryKind::Missing
                },
                None => {
                    ||| database::is_database(request.style, request.path)
                    ||| present
                    ||| database::dsym_expected(request.style, request.path) is None
                    ||| files(database::dsym_expected(request.style, request.path)->0)
                        == EntryKind::Missing
                },
            }
        }),
{
}

} // verus!
