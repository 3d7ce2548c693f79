//! Opening a database or a raw input.
//!
//! An open is a sequence of steps. Each step may do something (`OpenEffect`) and then either
//! asks for something (`OpenQuery`), whose outcome (`OpenEvent`) decides the next step, or
//! ends the open.

use crate::database;
use crate::database::{
    base_input_path_for_database, database_artifact_paths, database_bitness,
    database_paths_match, dsym_expected_path_for_binary, dsym_path_for_binary,
    existing_idb_for_raw_open, existing_raw_idb_action, has_ida_database_extension,
    hash_is_recorded, idb_path_for_raw_binary, init_database_args, non_empty_trimmed,
    recorded_path_text, unpacked_id0_path, ExistingRawIdbAction,
};
use crate::error::ToolError;
use crate::files;
use crate::files::{paths_refer_to_same_file, EntryKind, FileFacts};
use crate::number;
use crate::number::{hex_address, number_text};
use crate::open_types;
use crate::open_types::{
    Bitness, DebugInfoLoad, OpenEffect, OpenEvent, OpenNext, OpenPhase, OpenProgress, OpenQuery,
    OpenRequest, OpenState, OpenStep, RawBinaryTarget, RawOpen, StepView,
};
use crate::output;
use crate::output::{validate_raw_idb_output, OutputFacts};
use crate::text;
use crate::text::{concat2, concat3, copy_text, copy_texts};
use vstd::prelude::*;
use vstd::string::*;

verus! {

/// The view of an open's state.
pub type StateView = OpenState<Seq<char>, Seq<Seq<char>>>;

/// The view of an effect.
pub type EffectView = OpenEffect<Seq<Seq<char>>>;

/// The view of a query.
pub type QueryView = OpenQuery<Seq<char>, Seq<Seq<char>>>;

/// The view of a request.
pub type RequestView = OpenRequest<Seq<char>, Seq<Seq<char>>>;

/// Asks for something, and waits in `phase` for its outcome.
pub open spec fn asking(
    s: StateView,
    phase: OpenPhase<Seq<char>>,
    effects: Seq<EffectView>,
    query: QueryView,
) -> (StateView, StepView) {
    (OpenState { phase, ..s }, StepView { effects, next: OpenNext::Ask(query) })
}

/// Whether the open makes a new database, and so owns the files at its output.
pub open spec fn creates_database(s: StateView) -> bool {
    !s.is_idb && !s.reused
}

/// What gives back everything that an open holds: databases first, then the lock, and the
/// files of a database that it made last.
pub open spec fn cleanup(s: StateView) -> Seq<EffectView> {
    let none = Seq::<EffectView>::empty();
    let candidate = if s.candidate_open {
        none.push(OpenEffect::CloseCandidate)
    } else {
        none
    };
    let closed = if s.database_open {
        candidate.push(OpenEffect::CloseDatabase)
    } else {
        candidate
    };
    let released = if s.lock_held {
        closed.push(OpenEffect::ReleaseLock)
    } else {
        closed
    };
    if s.database_open && creates_database(s) {
        released.push(
            OpenEffect::RemoveArtifacts { paths: database::artifacts(s.style, s.opened_path) },
        )
    } else {
        released
    }
}

/// Gives everything back and fails.
pub open spec fn failing(s: StateView, error: ToolError<Seq<char>>) -> (StateView, StepView) {
    (
        OpenState {
            phase: OpenPhase::Finished,
            lock_held: false,
            candidate_open: false,
            database_open: false,
            ..s
        },
        StepView { effects: cleanup(s), next: OpenNext::Failed(error) },
    )
}

/// How a raw input is opened. Analysis waits where the address size or the entry point is
/// still to be set.
pub open spec fn raw_open(s: StateView) -> RawOpen<Seq<char>, Seq<Seq<char>>> {
    RawOpen {
        path: s.path,
        output: s.lock_target,
        auto_analyse: s.auto_analyse && s.raw_target.bitness is None
            && s.raw_target.entry_point is None,
        file_type: s.file_type,
        processor: s.raw_target.processor,
        base_address: s.raw_target.base_address,
        entry_point: s.raw_target.entry_point,
        args: s.init_args,
        save: true,
    }
}

/// Goes on to open the database, or the raw input where there is none to open.
pub open spec fn opening(s: StateView) -> (StateView, StepView) {
    let none = Seq::<EffectView>::empty();
    if creates_database(s) {
        asking(
            OpenState { opened_path: s.lock_target, ..s },
            OpenPhase::OpeningRaw,
            none.push(
                OpenEffect::Announce(
                    if s.auto_analyse {
                        OpenProgress::OpeningRawAndAnalysing
                    } else {
                        OpenProgress::OpeningRaw
                    },
                ),
            ),
            OpenQuery::OpenRaw(raw_open(s)),
        )
    } else {
        let path = if s.reused {
            s.candidate->0
        } else {
            s.path
        };
        asking(
            OpenState { opened_path: path, ..s },
            OpenPhase::OpeningExisting,
            none.push(OpenEffect::Announce(OpenProgress::OpeningExisting)),
            OpenQuery::OpenExisting { path, args: s.init_args, save: true },
        )
    }
}

/// Goes on once the lock is held: an existing database for a raw input is looked at first.
pub open spec fn after_lock(s: StateView) -> (StateView, StepView) {
    match s.candidate {
        Some(candidate) => asking(
            s,
            OpenPhase::OpeningCandidate,
            Seq::empty(),
            OpenQuery::OpenExisting { path: candidate, args: s.init_args, save: false },
        ),
        None => opening(s),
    }
}

/// Why an existing database cannot be judged.
pub open spec fn unreadable_candidate(
    candidate: Seq<char>,
    reason: Seq<char>,
) -> ToolError<Seq<char>> {
    ToolError::OpenFailed(
        "refusing to reuse or overwrite "@ + candidate
            + " because its input provenance could not be read: "@ + reason,
    )
}

/// Why an existing database is neither reused nor overwritten.
pub open spec fn provenance_refusal(
    rebuild: bool,
    path_matches: bool,
    hash_recorded: bool,
    candidate: Seq<char>,
    input: Seq<char>,
) -> ToolError<Seq<char>> {
    ToolError::InvalidParams(
        if !rebuild && path_matches && hash_recorded {
            candidate
                + " was created from this input path, but its recorded SHA-256 does not match the current file; retry with rebuild=true to replace stale analysis"@
        } else if !rebuild && path_matches {
            candidate
                + " has no recorded input SHA-256 and cannot be reused automatically; retry with rebuild=true to replace it because its recorded input path matches"@
        } else {
            "refusing to "@ + (if rebuild {
                "overwrite"@
            } else {
                "reuse"@
            }) + " "@ + candidate + " because it is not provenance-matched to "@ + input
                + "; choose a different idb_out or remove the candidate after verifying it"@
        },
    )
}

/// Decides on an existing database, once its provenance is known.
pub open spec fn judging(
    s: StateView,
    recorded_hash: [u8; 32],
    input_hash: [u8; 32],
    path_matches: bool,
) -> (StateView, StepView) {
    match database::raw_idb_action(s.rebuild, recorded_hash@, input_hash@, path_matches) {
        Some(ExistingRawIdbAction::Reuse) => opening(OpenState { reused: true, ..s }),
        Some(ExistingRawIdbAction::Rebuild) => opening(s),
        None => failing(
            s,
            provenance_refusal(
                s.rebuild,
                path_matches,
                database::is_recorded(recorded_hash@),
                s.candidate->0,
                s.path,
            ),
        ),
    }
}

/// The database could not be opened: the lock goes back, files that the attempt left behind
/// are removed, and a lock is looked for as the reason.
pub open spec fn open_failing(s: StateView, reason: Seq<char>) -> (StateView, StepView) {
    let released = Seq::<EffectView>::empty().push(OpenEffect::ReleaseLock);
    asking(
        OpenState { lock_held: false, ..s },
        OpenPhase::DetectingLock { reason },
        if creates_database(s) {
            released.push(
                OpenEffect::RemoveArtifacts { paths: database::artifacts(s.style, s.opened_path) },
            )
        } else {
            released
        },
        OpenQuery::DetectLock { path: s.opened_path, reason },
    )
}

/// Goes on once the database is open: the address size of a raw input is set first.
pub open spec fn after_open(s: StateView) -> (StateView, StepView) {
    match s.raw_target.bitness {
        Some(bitness) => asking(
            s,
            OpenPhase::SettingBitness,
            Seq::empty(),
            OpenQuery::SetBitness { bits: bitness.count() },
        ),
        None => after_bitness(s),
    }
}

/// Goes on with the entry point of a raw input.
pub open spec fn after_bitness(s: StateView) -> (StateView, StepView) {
    match s.raw_target.entry_point {
        Some(address) => asking(
            s,
            OpenPhase::ProbingEntryPoint,
            Seq::empty(),
            OpenQuery::ProbeEntryPoint { address },
        ),
        None => after_entry_point(s),
    }
}

/// Goes on with the analysis that had to wait for the address size or the entry point.
pub open spec fn after_entry_point(s: StateView) -> (StateView, StepView) {
    if s.auto_analyse && (s.raw_target.bitness is Some || s.raw_target.entry_point is Some) {
        asking(s, OpenPhase::WaitingForAnalysis, Seq::empty(), OpenQuery::WaitForAnalysis)
    } else {
        after_analysis(s)
    }
}

/// Goes on once nothing more is to be set up.
pub open spec fn after_analysis(s: StateView) -> (StateView, StepView) {
    asking(s, OpenPhase::CancelAfterOpen, Seq::empty(), OpenQuery::CheckCancelled)
}

/// Goes on to debug information: what was asked for, else the dSYM bundle beside a raw input
/// that had no database yet.
pub open spec fn before_debug_info(s: StateView) -> (StateView, StepView) {
    let none = Seq::<EffectView>::empty();
    let announced = if !s.is_idb && s.auto_analyse {
        none.push(OpenEffect::Announce(OpenProgress::Analysing))
    } else {
        none
    };
    if s.load_debug_info {
        asking(
            s,
            OpenPhase::CancelBeforeDebugInfo,
            announced.push(OpenEffect::Announce(OpenProgress::LoadingDebugInfo)),
            OpenQuery::CheckCancelled,
        )
    } else if s.dsym is Some {
        asking(
            s,
            OpenPhase::CancelBeforeDsym,
            announced.push(OpenEffect::Announce(OpenProgress::LoadingDsym)),
            OpenQuery::CheckCancelled,
        )
    } else {
        asking(s, OpenPhase::CancelAtEnd, announced, OpenQuery::CheckCancelled)
    }
}

/// The file that requested debug information is looked for in.
pub open spec fn debug_info_source(s: StateView) -> Option<Seq<char>> {
    match s.debug_info_path {
        Some(path) => Some(path),
        None => database::dsym_expected(
            s.style,
            if s.is_idb {
                database::base_input(s.style, s.path)
            } else {
                s.path
            },
        ),
    }
}

/// Goes on to the end.
pub open spec fn ending(s: StateView) -> (StateView, StepView) {
    asking(s, OpenPhase::CancelAtEnd, Seq::empty(), OpenQuery::CheckCancelled)
}

/// Records how the load of requested debug information went, and goes on to the end.
pub open spec fn recording(
    s: StateView,
    path: Seq<char>,
    loaded: bool,
    error: Option<Seq<char>>,
) -> (StateView, StepView) {
    ending(OpenState { debug_info: Some(DebugInfoLoad { path, loaded, error }), ..s })
}

/// The open is done.
pub open spec fn finishing(s: StateView) -> (StateView, StepView) {
    (
        OpenState { phase: OpenPhase::Finished, ..s },
        StepView {
            effects: Seq::<EffectView>::empty().push(OpenEffect::KeepOpen),
            next: OpenNext::Done { path: s.opened_path, debug_info: s.debug_info },
        },
    )
}

/// Why the address size of a raw input was not set; nothing where it was.
pub open spec fn bitness_refusal(
    bitness: Bitness,
    refused: Option<u64>,
    is_64bit: bool,
    is_32bit_exactly: bool,
) -> Option<ToolError<Seq<char>>> {
    let actual: u32 = if is_64bit {
        64
    } else if is_32bit_exactly {
        32
    } else {
        16
    };
    match refused {
        Some(segment) => Some(
            ToolError::OpenFailed(
                "failed to set "@ + number::digits(bitness.count() as nat, 10)
                    + "-bit addressing for segment at "@ + number::address_text(segment as nat),
            ),
        ),
        None => if actual != bitness.count() {
            Some(
                ToolError::OpenFailed(
                    "IDA reported "@ + number::digits(actual as nat, 10)
                        + "-bit after requesting "@ + number::digits(bitness.count() as nat, 10)
                        + "-bit raw input mode"@,
                ),
            )
        } else {
            None
        },
    }
}

/// Whether `event` is an outcome of what was asked for in `phase`.
pub open spec fn answers(phase: OpenPhase<Seq<char>>, event: OpenEvent<Seq<char>>) -> bool {
    match phase {
        OpenPhase::Locking => event is LockAcquired || event is LockRefused,
        OpenPhase::OpeningCandidate => event is Opened || event is OpenError,
        OpenPhase::OpeningUnpackedCandidate => event is Opened || event is OpenError,
        OpenPhase::ReadingProvenance => event is Provenance,
        OpenPhase::CancelAfterProvenance { .. } => event is NotCancelled || event is Cancelled,
        OpenPhase::HashingInput { .. } => event is InputHashed || event is InputUnreadable,
        OpenPhase::LocatingRecorded { .. } => event is RecordedLocated,
        OpenPhase::OpeningExisting => event is Opened || event is OpenError,
        OpenPhase::OpeningUnpacked => event is Opened || event is OpenError,
        OpenPhase::OpeningRaw => event is Opened || event is OpenError
            || event is BaseAddressRejected,
        OpenPhase::DetectingLock { .. } => event is LockDetected || event is NoLockDetected,
        OpenPhase::DetectingInputLock { .. } => event is LockDetected || event is NoLockDetected,
        OpenPhase::SettingBitness => event is BitnessSet,
        OpenPhase::ProbingEntryPoint => event is EntryPointProbed,
        OpenPhase::SettingEntryPoint => event is EntryPointSet,
        OpenPhase::ConfirmingEntryPoint => event is StartAddress,
        OpenPhase::WaitingForAnalysis => event is AnalysisEnded,
        OpenPhase::CancelAfterOpen => event is NotCancelled || event is Cancelled,
        OpenPhase::CancelBeforeDebugInfo => event is NotCancelled || event is Cancelled,
        OpenPhase::ProbingDebugInfo { .. } => event is DebugInfoProbed,
        OpenPhase::LoadingDebugInfo { .. } => event is DebugInfoLoaded || event is DebugInfoFailed,
        OpenPhase::CancelBeforeDsym => event is NotCancelled || event is Cancelled,
        OpenPhase::LoadingDsym => event is DebugInfoLoaded || event is DebugInfoFailed,
        OpenPhase::CancelAtEnd => event is NotCancelled || event is Cancelled,
        OpenPhase::Finished => false,
    }
}

/// The step that an outcome leads to while the lock is taken and an existing database is judged.
pub open spec fn judging_step(s: StateView, event: OpenEvent<Seq<char>>) -> (StateView, StepView) {
    let none = Seq::<EffectView>::empty();
    match (s.phase, event) {
        (OpenPhase::Locking, OpenEvent::LockAcquired) => after_lock(
            OpenState { lock_held: true, ..s },
        ),
        (OpenPhase::Locking, OpenEvent::LockRefused(error)) => failing(s, error),
        (OpenPhase::OpeningCandidate, OpenEvent::OpenError { reason, unpacked_exists }) => {
            match database::unpacked_id0(s.style, s.candidate->0) {
                Some(id0) if unpacked_exists => asking(
                    s,
                    OpenPhase::OpeningUnpackedCandidate,
                    none,
                    OpenQuery::OpenExisting { path: id0, args: s.init_args, save: false },
                ),
                _ => failing(s, unreadable_candidate(s.candidate->0, reason)),
            }
        },
        (OpenPhase::OpeningUnpackedCandidate, OpenEvent::OpenError { reason, .. }) => failing(
            s,
            unreadable_candidate(s.candidate->0, reason),
        ),
        (OpenPhase::OpeningCandidate, _) => asking(
            OpenState { candidate_open: true, ..s },
            OpenPhase::ReadingProvenance,
            none,
            OpenQuery::ReadProvenance,
        ),
        (OpenPhase::OpeningUnpackedCandidate, _) => asking(
            OpenState { candidate_open: true, ..s },
            OpenPhase::ReadingProvenance,
            none,
            OpenQuery::ReadProvenance,
        ),
        (OpenPhase::ReadingProvenance, OpenEvent::Provenance { hash, path }) => asking(
            OpenState { candidate_open: false, ..s },
            OpenPhase::CancelAfterProvenance { recorded_hash: hash, recorded_path: path },
            none.push(OpenEffect::CloseCandidate),
            OpenQuery::CheckCancelled,
        ),
        (_, OpenEvent::Cancelled(error)) => failing(s, error),
        (OpenPhase::CancelAfterProvenance { recorded_hash, recorded_path }, _) => asking(
            s,
            OpenPhase::HashingInput { recorded_hash, recorded_path },
            none,
            OpenQuery::HashInput { path: s.path },
        ),
        (OpenPhase::HashingInput { .. }, OpenEvent::InputUnreadable(error)) => failing(s, error),
        (
            OpenPhase::HashingInput { recorded_hash, recorded_path },
            OpenEvent::InputHashed(input_hash),
        ) => {
            let recorded = text::trimmed(recorded_path, true);
            if recorded.len() > 0 {
                asking(
                    s,
                    OpenPhase::LocatingRecorded { recorded_hash, input_hash },
                    none,
                    OpenQuery::LocateRecorded { recorded, input: s.path },
                )
            } else {
                judging(s, recorded_hash, input_hash, false)
            }
        },
        (
            OpenPhase::LocatingRecorded { recorded_hash, input_hash },
            OpenEvent::RecordedLocated { expanded, input_canonical, expanded_canonical },
        ) => judging(
            s,
            recorded_hash,
            input_hash,
            files::same_file(s.style, s.path, expanded, input_canonical, expanded_canonical),
        ),
        _ => finishing(s),
    }
}

/// The step that an outcome leads to while the database is opened.
pub open spec fn opening_step(s: StateView, event: OpenEvent<Seq<char>>) -> (StateView, StepView) {
    let none = Seq::<EffectView>::empty();
    match (s.phase, event) {
        (OpenPhase::OpeningExisting, OpenEvent::OpenError { reason, unpacked_exists }) => {
            match database::unpacked_id0(s.style, s.opened_path) {
                Some(id0) if unpacked_exists => asking(
                    s,
                    OpenPhase::OpeningUnpacked,
                    none,
                    OpenQuery::OpenExisting { path: id0, args: s.init_args, save: true },
                ),
                _ => open_failing(s, reason),
            }
        },
        (OpenPhase::OpeningUnpacked, OpenEvent::OpenError { reason, .. }) => open_failing(
            s,
            reason,
        ),
        (OpenPhase::OpeningRaw, OpenEvent::OpenError { reason, .. }) => open_failing(s, reason),
        (OpenPhase::OpeningRaw, OpenEvent::BaseAddressRejected(reason)) => failing(
            s,
            ToolError::InvalidParams(reason),
        ),
        (OpenPhase::OpeningUnpacked, _) => after_open(
            OpenState {
                database_open: true,
                opened_path: database::unpacked_id0(s.style, s.opened_path)->0,
                ..s
            },
        ),
        (OpenPhase::OpeningExisting, _) => after_open(OpenState { database_open: true, ..s }),
        (OpenPhase::OpeningRaw, _) => after_open(OpenState { database_open: true, ..s }),
        (_, OpenEvent::LockDetected(found)) => failing(s, ToolError::DatabaseLocked(found)),
        (OpenPhase::DetectingLock { reason }, _) => asking(
            s,
            OpenPhase::DetectingInputLock { reason },
            none,
            OpenQuery::DetectLock { path: s.path, reason },
        ),
        (OpenPhase::DetectingInputLock { reason }, _) => failing(
            s,
            ToolError::OpenFailed(s.opened_path + ": "@ + reason),
        ),
        _ => finishing(s),
    }
}

/// The step that an outcome leads to while what was asked for a raw input is set up.
pub open spec fn raw_target_step(s: StateView, event: OpenEvent<Seq<char>>) -> (StateView, StepView) {
    let none = Seq::<EffectView>::empty();
    match (s.phase, event) {
        (
            OpenPhase::SettingBitness,
            OpenEvent::BitnessSet { refused, is_64bit, is_32bit_exactly },
        ) => {
            match bitness_refusal(s.raw_target.bitness->0, refused, is_64bit, is_32bit_exactly) {
                Some(error) => failing(s, error),
                None => after_bitness(s),
            }
        },
        (OpenPhase::ProbingEntryPoint, OpenEvent::EntryPointProbed { in_segment, start }) => {
            let address = s.raw_target.entry_point->0;
            if !in_segment {
                failing(
                    s,
                    ToolError::OpenFailed(
                        "raw entry point "@ + number::address_text(address as nat)
                            + " is outside every loaded segment"@,
                    ),
                )
            } else if start != Some(address) {
                asking(
                    s,
                    OpenPhase::SettingEntryPoint,
                    none,
                    OpenQuery::SetEntryPoint { address },
                )
            } else {
                asking(s, OpenPhase::ConfirmingEntryPoint, none, OpenQuery::ReadStartAddress)
            }
        },
        (OpenPhase::SettingEntryPoint, OpenEvent::EntryPointSet(accepted)) => if accepted {
            asking(s, OpenPhase::ConfirmingEntryPoint, none, OpenQuery::ReadStartAddress)
        } else {
            failing(
                s,
                ToolError::OpenFailed(
                    "IDA refused raw entry point "@ + number::address_text(
                        s.raw_target.entry_point->0 as nat,
                    ),
                ),
            )
        },
        (OpenPhase::ConfirmingEntryPoint, OpenEvent::StartAddress(start)) => if start
            == s.raw_target.entry_point {
            after_entry_point(s)
        } else {
            failing(
                s,
                ToolError::OpenFailed(
                    "IDA did not retain requested raw entry point "@ + number::address_text(
                        s.raw_target.entry_point->0 as nat,
                    ),
                ),
            )
        },
        (OpenPhase::WaitingForAnalysis, OpenEvent::AnalysisEnded(completed)) => if completed {
            after_analysis(s)
        } else {
            failing(
                s,
                ToolError::OpenFailed(
                    "IDA auto-analysis did not complete after raw target configuration"@,
                ),
            )
        },
        _ => finishing(s),
    }
}

/// The step that an outcome leads to once the database is set up.
pub open spec fn debug_info_step(s: StateView, event: OpenEvent<Seq<char>>) -> (StateView, StepView) {
    let none = Seq::<EffectView>::empty();
    match (s.phase, event) {
        (_, OpenEvent::Cancelled(error)) => failing(s, error),
        (OpenPhase::CancelAfterOpen, _) => before_debug_info(s),
        (OpenPhase::CancelBeforeDebugInfo, _) => match debug_info_source(s) {
            Some(path) => asking(
                s,
                OpenPhase::ProbingDebugInfo { path },
                none,
                OpenQuery::ProbeDebugInfo { path },
            ),
            None => ending(s),
        },
        (OpenPhase::ProbingDebugInfo { path }, OpenEvent::DebugInfoProbed(present)) => if present {
            asking(
                s,
                OpenPhase::LoadingDebugInfo { path },
                none,
                OpenQuery::LoadDebugInfo { path, verbose: s.debug_info_verbose },
            )
        } else {
            recording(s, path, false, Some("debug info not found"@))
        },
        (OpenPhase::LoadingDebugInfo { path }, OpenEvent::DebugInfoLoaded(loaded)) => recording(
            s,
            path,
            loaded,
            if loaded {
                None
            } else {
                Some("load returned false"@)
            },
        ),
        (OpenPhase::LoadingDebugInfo { path }, OpenEvent::DebugInfoFailed(reason)) => recording(
            s,
            path,
            false,
            Some(reason),
        ),
        (OpenPhase::CancelBeforeDsym, _) => asking(
            s,
            OpenPhase::LoadingDsym,
            none,
            OpenQuery::LoadDebugInfo { path: s.dsym->0, verbose: false },
        ),
        (OpenPhase::LoadingDsym, _) => ending(s),
        _ => finishing(s),
    }
}

/// The step that an outcome leads to.
pub open spec fn step(s: StateView, event: OpenEvent<Seq<char>>) -> (StateView, StepView) {
    if s.phase is Locking || judges_candidate(s.phase) {
        judging_step(s, event)
    } else if is_set_up(s.phase) {
        debug_info_step(s, event)
    } else if holds_database(s.phase) {
        raw_target_step(s, event)
    } else {
        opening_step(s, event)
    }
}

/// Whether the lock is held while `phase` waits for its outcome.
pub open spec fn holds_lock(phase: OpenPhase<Seq<char>>) -> bool {
    !(phase is Locking || phase is DetectingLock || phase is DetectingInputLock
        || phase is Finished)
}

/// Whether the database is open while `phase` waits for its outcome.
pub open spec fn holds_database(phase: OpenPhase<Seq<char>>) -> bool {
    ||| phase is SettingBitness
    ||| phase is ProbingEntryPoint
    ||| phase is SettingEntryPoint
    ||| phase is ConfirmingEntryPoint
    ||| phase is WaitingForAnalysis
    ||| is_set_up(phase)
}

/// Whether the database is set up while `phase` waits for its outcome.
pub open spec fn is_set_up(phase: OpenPhase<Seq<char>>) -> bool {
    ||| phase is CancelAfterOpen
    ||| phase is CancelBeforeDebugInfo
    ||| phase is ProbingDebugInfo
    ||| phase is LoadingDebugInfo
    ||| phase is CancelBeforeDsym
    ||| phase is LoadingDsym
    ||| phase is CancelAtEnd
}

/// Whether an existing database is being judged in `phase`.
pub open spec fn judges_candidate(phase: OpenPhase<Seq<char>>) -> bool {
    ||| phase is OpeningCandidate
    ||| phase is OpeningUnpackedCandidate
    ||| phase is ReadingProvenance
    ||| phase is CancelAfterProvenance
    ||| phase is HashingInput
    ||| phase is LocatingRecorded
}

/// What an open never changes: a database is locked itself and a candidate is what is locked,
/// options for raw inputs come with no existing database that is kept, and only a candidate
/// that is not to be rebuilt is reused.
pub open spec fn request_inv(s: StateView) -> bool {
    &&& s.is_idb == database::is_database(s.style, s.path)
    &&& s.is_idb ==> s.lock_target == s.path
    &&& s.candidate is Some ==> s.candidate->0 == s.lock_target
    &&& s.is_idb ==> s.candidate is None && s.dsym is None && s.raw_target.asks_nothing()
    &&& s.candidate is Some && !s.rebuild ==> s.raw_target.asks_nothing()
    &&& s.reused ==> s.candidate is Some && !s.rebuild
}

/// What is held and known while an open waits for an outcome.
pub open spec fn phase_inv(s: StateView) -> bool {
    &&& s.phase !is Finished ==> {
        &&& s.lock_held == holds_lock(s.phase)
        &&& s.candidate_open == (s.phase is ReadingProvenance)
        &&& s.database_open == holds_database(s.phase)
    }
    &&& s.phase is Locking ==> !s.reused
    &&& judges_candidate(s.phase) ==> s.candidate is Some && !s.reused
    &&& s.phase is OpeningRaw ==> creates_database(s)
    &&& s.phase is OpeningExisting ==> !creates_database(s)
    &&& s.phase is OpeningUnpacked ==> !creates_database(s) && database::unpacked_id0(
        s.style,
        s.opened_path,
    ) is Some
    &&& s.phase is SettingBitness ==> s.raw_target.bitness is Some
    &&& (s.phase is ProbingEntryPoint || s.phase is SettingEntryPoint
        || s.phase is ConfirmingEntryPoint) ==> s.raw_target.entry_point is Some
    &&& (s.phase is CancelBeforeDsym || s.phase is LoadingDsym) ==> s.dsym is Some
    &&& (s.phase is OpeningExisting || s.phase is OpeningUnpacked || s.phase is OpeningRaw
        || s.phase is DetectingLock || s.phase is DetectingInputLock) ==> s.opened_path
        == s.lock_target
    &&& holds_database(s.phase) ==> opens_what_is_locked(s)
}

/// The database that is opened is the one that is locked; one that exists may be opened in its
/// unpacked form.
pub open spec fn opens_what_is_locked(s: StateView) -> bool {
    ||| s.opened_path == s.lock_target
    ||| !creates_database(s) && database::unpacked_id0(s.style, s.lock_target) == Some(
        s.opened_path,
    )
}

/// What holds of an open at every step.
pub open spec fn open_inv(s: StateView) -> bool {
    request_inv(s) && phase_inv(s)
}

/// Why an open is refused before anything is touched; nothing where it may go on.
pub open spec fn open_refusal(
    request: RequestView,
    files: spec_fn(Seq<char>) -> EntryKind,
    facts: OutputFacts<Seq<char>>,
) -> Option<ToolError<Seq<char>>> {
    let is_idb = database::is_database(request.style, request.path);
    let out = database::raw_output(request.path, request.idb_out);
    if files(request.path) == EntryKind::Missing {
        Some(ToolError::InvalidPath("File not found: "@ + request.path))
    } else if is_idb && !request.raw_target.asks_nothing() {
        Some(
            ToolError::InvalidParams(
                "processor, bitness, base_address, and entry_point apply only to a newly-created raw-input database"@,
            ),
        )
    } else if request.raw_target.base_address is Some && request.raw_target.base_address->0 % 16
        != 0 {
        Some(
            ToolError::InvalidParams(
                "raw base address "@ + number::address_text(
                    request.raw_target.base_address->0 as nat,
                ) + " must be 16-byte aligned"@,
            ),
        )
    } else if is_idb {
        None
    } else if output::output_refusal(request.style, request.path, out, files, facts) is Some {
        output::output_refusal(request.style, request.path, out, files, facts)
    } else if database::output_exists(request.style, out, files) && !request.rebuild
        && !request.raw_target.asks_nothing() {
        Some(
            ToolError::InvalidParams(
                "raw target options cannot change an existing database; set rebuild=true to recreate it"@,
            ),
        )
    } else {
        None
    }
}

/// The state that an open starts in.
pub open spec fn initial(
    request: RequestView,
    files: spec_fn(Seq<char>) -> EntryKind,
) -> StateView {
    let is_idb = database::is_database(request.style, request.path);
    let out = database::raw_output(request.path, request.idb_out);
    let exists = database::output_exists(request.style, out, files);
    OpenState {
        style: request.style,
        path: request.path,
        is_idb,
        rebuild: request.rebuild,
        auto_analyse: request.auto_analyse,
        load_debug_info: request.load_debug_info,
        debug_info_path: database::given_text(request.debug_info_path),
        debug_info_verbose: request.debug_info_verbose,
        file_type: database::given_text(request.file_type),
        raw_target: request.raw_target,
        init_args: database::init_args(request.extra_args),
        lock_target: if is_idb {
            request.path
        } else {
            out
        },
        candidate: if !is_idb && exists {
            Some(out)
        } else {
            None
        },
        dsym: if is_idb || exists {
            None
        } else {
            database::if_present(database::dsym_expected(request.style, request.path), files)
        },
        reused: false,
        opened_path: request.path,
        debug_info: None,
        lock_held: false,
        candidate_open: false,
        database_open: false,
        phase: OpenPhase::Locking,
    }
}

/// The first step of an open: on request, stale locks are removed; then the lock is asked for.
pub open spec fn first_step(request: RequestView, s: StateView) -> StepView {
    StepView {
        effects: if request.force {
            Seq::<EffectView>::empty().push(
                OpenEffect::CleanStaleLocks { paths: seq![s.lock_target, request.path] },
            )
        } else {
            Seq::empty()
        },
        next: OpenNext::Ask(OpenQuery::AcquireLock { path: s.lock_target }),
    }
}

/// An open in progress.
pub struct OpenSession {
    state: OpenState,
}

impl View for OpenSession {
    type V = StateView;

    closed spec fn view(&self) -> StateView {
        self.state@
    }
}

/// How an open starts.
pub enum OpenStart {
    Refused(ToolError),
    /// The database that is asked for is open already, at this path.
    AlreadyOpen(String),
    Started { session: OpenSession, step: OpenStep },
}

/// The view of how an open starts.
pub enum StartView {
    Refused(ToolError<Seq<char>>),
    AlreadyOpen(Seq<char>),
    Started { session: StateView, step: StepView },
}

impl View for OpenStart {
    type V = StartView;

    open spec fn view(&self) -> StartView {
        match self {
            OpenStart::Refused(error) => StartView::Refused(error@),
            OpenStart::AlreadyOpen(path) => StartView::AlreadyOpen(path@),
            OpenStart::Started { session, step } => StartView::Started {
                session: session@,
                step: step@,
            },
        }
    }
}

/// How an open starts. A cancelled one is refused. Where a database is open, it is handed out
/// if it is the one that is asked for, and nothing else can be opened.
pub open spec fn starting(
    request: RequestView,
    cancelled: Option<ToolError<Seq<char>>>,
    open_path: Option<Seq<char>>,
    files: spec_fn(Seq<char>) -> EntryKind,
    facts: OutputFacts<Seq<char>>,
) -> StartView {
    match (cancelled, open_path) {
        (Some(error), _) => StartView::Refused(error),
        (None, Some(current)) => if database::names_same_database(
            request.style,
            current,
            request.path,
        ) {
            StartView::AlreadyOpen(current)
        } else {
            StartView::Refused(ToolError::DatabaseAlreadyOpen(current))
        },
        (None, None) => match open_refusal(request, files, facts) {
            Some(error) => StartView::Refused(error),
            None => StartView::Started {
                session: initial(request, files),
                step: first_step(request, initial(request, files)),
            },
        },
    }
}

/// The view of an error, where there is one.
pub open spec fn error_view(error: Option<ToolError>) -> Option<ToolError<Seq<char>>> {
    match error {
        Some(error) => Some(error@),
        None => None,
    }
}

/// The paths that a start looks at, besides the directory that the output goes into.
pub open spec fn inspected(request: RequestView) -> Seq<Seq<char>> {
    let out = database::raw_output(request.path, request.idb_out);
    let files = seq![request.path] + database::artifacts(request.style, out);
    match database::dsym_expected(request.style, request.path) {
        Some(dsym) => files.push(dsym),
        None => files,
    }
}

/// An open after a step.
pub struct OpenTurn {
    pub session: OpenSession,
    pub step: OpenStep,
}

fn no_effects() -> (r: Vec<OpenEffect>)
    ensures
        open_types::effects_view(r@) == Seq::<EffectView>::empty(),
{
    let r: Vec<OpenEffect> = Vec::new();
    assert(open_types::effects_view(r@) =~= Seq::<EffectView>::empty());
    r
}

fn with_effect(effects: Vec<OpenEffect>, effect: OpenEffect) -> (r: Vec<OpenEffect>)
    ensures
        open_types::effects_view(r@) == open_types::effects_view(effects@).push(effect@),
{
    let mut r = effects;
    let ghost before = r@;
    r.push(effect);
    assert(open_types::effects_view(r@) =~= open_types::effects_view(before).push(effect@));
    r
}

fn ask(
    state: OpenState,
    phase: OpenPhase,
    effects: Vec<OpenEffect>,
    query: OpenQuery,
) -> (r: (OpenState, OpenStep))
    ensures
        (r.0@, r.1@) == asking(state@, phase@, open_types::effects_view(effects@), query@),
{
    let mut s = state;
    s.phase = phase;
    (s, OpenStep { effects, next: OpenNext::Ask(query) })
}

fn fail(state: OpenState, error: ToolError) -> (r: (OpenState, OpenStep))
    ensures
        (r.0@, r.1@) == failing(state@, error@),
{
    let mut s = state;
    let mut effects = no_effects();
    if s.candidate_open {
        effects = with_effect(effects, OpenEffect::CloseCandidate);
    }
    if s.database_open {
        effects = with_effect(effects, OpenEffect::CloseDatabase);
    }
    if s.lock_held {
        effects = with_effect(effects, OpenEffect::ReleaseLock);
    }
    if s.database_open && !s.is_idb && !s.reused {
        effects = with_effect(
            effects,
            OpenEffect::RemoveArtifacts {
                paths: database_artifact_paths(s.style, s.opened_path.as_str()),
            },
        );
    }
    s.phase = OpenPhase::Finished;
    s.lock_held = false;
    s.candidate_open = false;
    s.database_open = false;
    (s, OpenStep { effects, next: OpenNext::Failed(error) })
}

fn go_open(state: OpenState) -> (r: (OpenState, OpenStep))
    requires
        state.reused ==> state.candidate is Some,
    ensures
        (r.0@, r.1@) == opening(state@),
{
    let mut s = state;
    if !s.is_idb && !s.reused {
        let raw = RawOpen {
            path: s.path.clone(),
            output: s.lock_target.clone(),
            auto_analyse: s.auto_analyse && s.raw_target.bitness.is_none()
                && s.raw_target.entry_point.is_none(),
            file_type: copy_text(&s.file_type),
            processor: copy_text(&s.raw_target.processor),
            base_address: s.raw_target.base_address,
            entry_point: s.raw_target.entry_point,
            args: copy_texts(&s.init_args),
            save: true,
        };
        let progress = if s.auto_analyse {
            OpenProgress::OpeningRawAndAnalysing
        } else {
            OpenProgress::OpeningRaw
        };
        s.opened_path = s.lock_target.clone();
        ask(
            s,
            OpenPhase::OpeningRaw,
            with_effect(no_effects(), OpenEffect::Announce(progress)),
            OpenQuery::OpenRaw(raw),
        )
    } else {
        let path = match &s.candidate {
            Some(candidate) => if s.reused {
                candidate.clone()
            } else {
                s.path.clone()
            },
            None => s.path.clone(),
        };
        s.opened_path = path.clone();
        let args = copy_texts(&s.init_args);
        ask(
            s,
            OpenPhase::OpeningExisting,
            with_effect(no_effects(), OpenEffect::Announce(OpenProgress::OpeningExisting)),
            OpenQuery::OpenExisting { path, args, save: true },
        )
    }
}

/// Why an existing database is neither reused nor overwritten.
fn refuse_candidate(
    rebuild: bool,
    path_matches: bool,
    hash_recorded: bool,
    candidate: &str,
    input: &str,
) -> (r: ToolError)
    ensures
        r@ == provenance_refusal(rebuild, path_matches, hash_recorded, candidate@, input@),
{
    if !rebuild && path_matches {
        if hash_recorded {
            ToolError::InvalidParams(
                concat2(
                    candidate,
                    " was created from this input path, but its recorded SHA-256 does not match the current file; retry with rebuild=true to replace stale analysis",
                ),
            )
        } else {
            ToolError::InvalidParams(
                concat2(
                    candidate,
                    " has no recorded input SHA-256 and cannot be reused automatically; retry with rebuild=true to replace it because its recorded input path matches",
                ),
            )
        }
    } else {
        let mut message = concat3(
            "refusing to ",
            if rebuild {
                "overwrite"
            } else {
                "reuse"
            },
            " ",
        );
        message.append(candidate);
        message.append(" because it is not provenance-matched to ");
        message.append(input);
        message.append("; choose a different idb_out or remove the candidate after verifying it");
        ToolError::InvalidParams(message)
    }
}

fn judge(
    state: OpenState,
    recorded_hash: [u8; 32],
    input_hash: [u8; 32],
    path_matches: bool,
) -> (r: (OpenState, OpenStep))
    requires
        state.candidate is Some,
    ensures
        (r.0@, r.1@) == judging(state@, recorded_hash, input_hash, path_matches),
{
    let mut s = state;
    match existing_raw_idb_action(s.rebuild, &recorded_hash, &input_hash, path_matches) {
        Some(ExistingRawIdbAction::Reuse) => {
            s.reused = true;
            go_open(s)
        },
        Some(ExistingRawIdbAction::Rebuild) => go_open(s),
        None => {
            let recorded = hash_is_recorded(&recorded_hash);
            let error = match &s.candidate {
                Some(candidate) => refuse_candidate(
                    s.rebuild,
                    path_matches,
                    recorded,
                    candidate.as_str(),
                    s.path.as_str(),
                ),
                None => ToolError::NoDatabaseOpen,
            };
            fail(s, error)
        },
    }
}

fn open_failed(state: OpenState, reason: String) -> (r: (OpenState, OpenStep))
    ensures
        (r.0@, r.1@) == open_failing(state@, reason@),
{
    let mut s = state;
    let mut effects = with_effect(no_effects(), OpenEffect::ReleaseLock);
    if !s.is_idb && !s.reused {
        effects = with_effect(
            effects,
            OpenEffect::RemoveArtifacts {
                paths: database_artifact_paths(s.style, s.opened_path.as_str()),
            },
        );
    }
    s.lock_held = false;
    let path = s.opened_path.clone();
    ask(
        s,
        OpenPhase::DetectingLock { reason: reason.clone() },
        effects,
        OpenQuery::DetectLock { path, reason },
    )
}

fn go_analysis(state: OpenState) -> (r: (OpenState, OpenStep))
    ensures
        (r.0@, r.1@) == after_entry_point(state@),
{
    if state.auto_analyse && (state.raw_target.bitness.is_some()
        || state.raw_target.entry_point.is_some()) {
        ask(state, OpenPhase::WaitingForAnalysis, no_effects(), OpenQuery::WaitForAnalysis)
    } else {
        ask(state, OpenPhase::CancelAfterOpen, no_effects(), OpenQuery::CheckCancelled)
    }
}

fn go_entry_point(state: OpenState) -> (r: (OpenState, OpenStep))
    ensures
        (r.0@, r.1@) == after_bitness(state@),
{
    match state.raw_target.entry_point {
        Some(address) => ask(
            state,
            OpenPhase::ProbingEntryPoint,
            no_effects(),
            OpenQuery::ProbeEntryPoint { address },
        ),
        None => go_analysis(state),
    }
}

fn go_bitness(state: OpenState) -> (r: (OpenState, OpenStep))
    ensures
        (r.0@, r.1@) == after_open(state@),
{
    match state.raw_target.bitness {
        Some(bitness) => ask(
            state,
            OpenPhase::SettingBitness,
            no_effects(),
            OpenQuery::SetBitness { bits: bitness.bits() },
        ),
        None => go_entry_point(state),
    }
}

fn go_debug_info(state: OpenState) -> (r: (OpenState, OpenStep))
    ensures
        (r.0@, r.1@) == before_debug_info(state@),
{
    let mut effects = no_effects();
    if !state.is_idb && state.auto_analyse {
        effects = with_effect(effects, OpenEffect::Announce(OpenProgress::Analysing));
    }
    if state.load_debug_info {
        let effects = with_effect(effects, OpenEffect::Announce(OpenProgress::LoadingDebugInfo));
        ask(state, OpenPhase::CancelBeforeDebugInfo, effects, OpenQuery::CheckCancelled)
    } else if state.dsym.is_some() {
        let effects = with_effect(effects, OpenEffect::Announce(OpenProgress::LoadingDsym));
        ask(state, OpenPhase::CancelBeforeDsym, effects, OpenQuery::CheckCancelled)
    } else {
        ask(state, OpenPhase::CancelAtEnd, effects, OpenQuery::CheckCancelled)
    }
}

fn go_end(state: OpenState) -> (r: (OpenState, OpenStep))
    ensures
        (r.0@, r.1@) == ending(state@),
{
    ask(state, OpenPhase::CancelAtEnd, no_effects(), OpenQuery::CheckCancelled)
}

fn record(state: OpenState, path: String, loaded: bool, error: Option<String>) -> (r: (
    OpenState,
    OpenStep,
))
    ensures
        (r.0@, r.1@) == recording(state@, path@, loaded, error.deep_view()),
{
    let mut s = state;
    s.debug_info = Some(DebugInfoLoad { path, loaded, error });
    go_end(s)
}

fn finish(state: OpenState) -> (r: (OpenState, OpenStep))
    ensures
        (r.0@, r.1@) == finishing(state@),
{
    let mut s = state;
    let path = s.opened_path.clone();
    let debug_info = match &s.debug_info {
        Some(load) => Some(
            DebugInfoLoad {
                path: load.path.clone(),
                loaded: load.loaded,
                error: copy_text(&load.error),
            },
        ),
        None => None,
    };
    s.phase = OpenPhase::Finished;
    (
        s,
        OpenStep {
            effects: with_effect(no_effects(), OpenEffect::KeepOpen),
            next: OpenNext::Done { path, debug_info },
        },
    )
}

/// Judges how setting the address size of a raw input went: every segment must take it, and
/// the database must then have it.
pub fn configure_raw_bitness(
    bitness: Bitness,
    refused: Option<u64>,
    is_64bit: bool,
    is_32bit_exactly: bool,
) -> (r: Result<(), ToolError>)
    ensures
        match bitness_refusal(bitness, refused, is_64bit, is_32bit_exactly) {
            Some(error) => r is Err && r->Err_0@ == error,
            None => r is Ok,
        },
{
    let wanted = number_text(bitness.bits() as u64, 10);
    if let Some(segment) = refused {
        let mut message = concat3(
            "failed to set ",
            wanted.as_str(),
            "-bit addressing for segment at ",
        );
        message.append(hex_address(segment).as_str());
        return Err(ToolError::OpenFailed(message));
    }
    let actual = database_bitness(is_64bit, is_32bit_exactly);
    if actual != bitness.bits() {
        let mut message = concat3(
            "IDA reported ",
            number_text(actual as u64, 10).as_str(),
            "-bit after requesting ",
        );
        message.append(wanted.as_str());
        message.append("-bit raw input mode");
        return Err(ToolError::OpenFailed(message));
    }
    Ok(())
}

proof fn lemma_opening_inv(s: StateView)
    requires
        request_inv(s),
        s.lock_held && !s.candidate_open && !s.database_open,
    ensures
        open_inv(opening(s).0),
{
}

proof fn lemma_judging_inv(
    s: StateView,
    recorded_hash: [u8; 32],
    input_hash: [u8; 32],
    path_matches: bool,
)
    requires
        request_inv(s),
        s.lock_held && !s.candidate_open && !s.database_open,
        s.candidate is Some && !s.reused,
    ensures
        open_inv(judging(s, recorded_hash, input_hash, path_matches).0),
{
    lemma_opening_inv(s);
    if !s.rebuild {
        lemma_opening_inv(OpenState { reused: true, ..s });
    }
}

proof fn lemma_after_open_inv(s: StateView)
    requires
        request_inv(s),
        s.lock_held && !s.candidate_open && s.database_open,
        opens_what_is_locked(s),
    ensures
        open_inv(after_open(s).0),
        open_inv(after_bitness(s).0),
        open_inv(after_entry_point(s).0),
        open_inv(after_analysis(s).0),
        open_inv(before_debug_info(s).0),
        open_inv(ending(s).0),
{
}

proof fn lemma_judging_step_inv(s: StateView, event: OpenEvent<Seq<char>>)
    requires
        open_inv(s),
        answers(s.phase, event),
        s.phase is Locking || judges_candidate(s.phase),
    ensures
        open_inv(judging_step(s, event).0),
{
    match s.phase {
        OpenPhase::Locking => {
            lemma_opening_inv(OpenState { lock_held: true, ..s });
        },
        OpenPhase::HashingInput { recorded_hash, .. } => {
            if event is InputHashed {
                lemma_judging_inv(s, recorded_hash, event->InputHashed_0, false);
            }
        },
        OpenPhase::LocatingRecorded { recorded_hash, input_hash } => {
            lemma_judging_inv(s, recorded_hash, input_hash, true);
            lemma_judging_inv(s, recorded_hash, input_hash, false);
        },
        _ => {},
    }
}

proof fn lemma_opening_step_inv(s: StateView, event: OpenEvent<Seq<char>>)
    requires
        open_inv(s),
        answers(s.phase, event),
        !(s.phase is Locking || judges_candidate(s.phase) || holds_database(s.phase)),
    ensures
        open_inv(opening_step(s, event).0),
{
    match s.phase {
        OpenPhase::OpeningUnpacked => {
            lemma_after_open_inv(
                OpenState {
                    database_open: true,
                    opened_path: database::unpacked_id0(s.style, s.opened_path)->0,
                    ..s
                },
            );
        },
        OpenPhase::OpeningExisting => {
            lemma_after_open_inv(OpenState { database_open: true, ..s });
        },
        OpenPhase::OpeningRaw => {
            lemma_after_open_inv(OpenState { database_open: true, ..s });
        },
        _ => {},
    }
}

proof fn lemma_raw_target_step_inv(s: StateView, event: OpenEvent<Seq<char>>)
    requires
        open_inv(s),
        answers(s.phase, event),
        holds_database(s.phase) && !is_set_up(s.phase),
    ensures
        open_inv(raw_target_step(s, event).0),
{
    lemma_after_open_inv(s);
}

proof fn lemma_debug_info_step_inv(s: StateView, event: OpenEvent<Seq<char>>)
    requires
        open_inv(s),
        answers(s.phase, event),
        is_set_up(s.phase),
    ensures
        open_inv(debug_info_step(s, event).0),
{
    lemma_after_open_inv(s);
}

/// Every step of an open keeps what holds of it.
pub proof fn every_step_keeps_the_invariant(s: StateView, event: OpenEvent<Seq<char>>)
    requires
        open_inv(s),
        answers(s.phase, event),
    ensures
        open_inv(step(s, event).0),
{
    if s.phase is Locking || judges_candidate(s.phase) {
        lemma_judging_step_inv(s, event);
    } else if is_set_up(s.phase) {
        lemma_debug_info_step_inv(s, event);
    } else if holds_database(s.phase) {
        lemma_raw_target_step_inv(s, event);
    } else {
        lemma_opening_step_inv(s, event);
    }
}

/// An open that is not refused starts with what holds of it at every step.
pub proof fn every_open_starts_with_the_invariant(
    request: RequestView,
    files: spec_fn(Seq<char>) -> EntryKind,
    facts: OutputFacts<Seq<char>>,
)
    requires
        open_refusal(request, files, facts) is None,
    ensures
        open_inv(initial(request, files)),
{
}

/// An optional argument without the white space around it; nothing where only that is left.
fn trimmed_text(value: &Option<String>) -> (r: Option<String>)
    ensures
        r.deep_view() == database::given_text(value.deep_view()),
{
    let value = match value {
        Some(text) => Some(text.as_str()),
        None => None,
    };
    match non_empty_trimmed(value) {
        Some(text) => Some(text.to_owned()),
        None => None,
    }
}

/// The output for a raw input: the one that was asked for, else the generated path.
pub fn raw_output_path(request: &OpenRequest) -> (r: String)
    ensures
        r@ == database::raw_output(request@.path, request@.idb_out),
{
    match &request.idb_out {
        Some(output) => output.clone(),
        None => idb_path_for_raw_binary(request.path.as_str()),
    }
}

/// The existing database for a raw input.
fn raw_candidate(request: &OpenRequest, files: &FileFacts) -> (r: Option<String>)
    ensures
        r.deep_view() == if database::output_exists(
            request.style,
            database::raw_output(request@.path, request@.idb_out),
            files@,
        ) {
            Some(database::raw_output(request@.path, request@.idb_out))
        } else {
            None
        },
{
    let explicit = match &request.idb_out {
        Some(output) => Some(output.as_str()),
        None => None,
    };
    existing_idb_for_raw_open(request.style, request.path.as_str(), explicit, files)
}

/// The paths that `handle_open` is to be told about.
pub fn open_inspection_paths(request: &OpenRequest) -> (r: Vec<String>)
    ensures
        r.deep_view() == inspected(request@),
{
    let out = raw_output_path(request);
    let mut r: Vec<String> = Vec::new();
    r.push(request.path.clone());
    let mut artifacts = database_artifact_paths(request.style, out.as_str());
    let ghost parts = artifacts.deep_view();
    r.append(&mut artifacts);
    assert(r.deep_view() =~= seq![request@.path] + parts);
    if let Some(dsym) = dsym_expected_path_for_binary(request.style, request.path.as_str()) {
        let ghost before = r.deep_view();
        r.push(dsym);
        assert(r.deep_view() =~= before.push(dsym@));
    }
    r
}

/// Why an open is refused before anything is touched.
fn check_request(request: &OpenRequest, files: &FileFacts, facts: &OutputFacts) -> (r: Option<
    ToolError,
>)
    ensures
        error_view(r) == open_refusal(request@, files@, facts@),
{
    let path = request.path.as_str();
    if !files.has_entry(path) {
        return Some(ToolError::InvalidPath(concat2("File not found: ", path)));
    }
    let is_idb = has_ida_database_extension(request.style, path);
    if is_idb && !request.raw_target.is_empty() {
        return Some(
            ToolError::InvalidParams(
                "processor, bitness, base_address, and entry_point apply only to a newly-created raw-input database".to_owned(),
            ),
        );
    }
    if let Some(base_address) = request.raw_target.base_address {
        if base_address % 16 != 0 {
            return Some(
                ToolError::InvalidParams(
                    concat3(
                        "raw base address ",
                        hex_address(base_address).as_str(),
                        " must be 16-byte aligned",
                    ),
                ),
            );
        }
    }
    if is_idb {
        return None;
    }
    let out = raw_output_path(request);
    if let Err(error) = validate_raw_idb_output(request.style, path, out.as_str(), files, facts) {
        return Some(error);
    }
    if raw_candidate(request, files).is_some() && !request.rebuild && !request.raw_target.is_empty() {
        return Some(
            ToolError::InvalidParams(
                "raw target options cannot change an existing database; set rebuild=true to recreate it".to_owned(),
            ),
        );
    }
    None
}

/// Starts to open the database or the raw input that is asked for. `cancelled` is why the
/// request was cancelled, `open_path` the path of the open database; `files` tells of
/// `open_inspection_paths`, `facts` of the input and the output.
pub fn handle_open(
    request: OpenRequest,
    cancelled: Option<ToolError>,
    open_path: Option<String>,
    files: &FileFacts,
    facts: &OutputFacts,
) -> (r: OpenStart)
    ensures
        r@ == starting(
            request@,
            error_view(cancelled),
            open_path.deep_view(),
            files@,
            facts@,
        ),
{
    if let Some(error) = cancelled {
        return OpenStart::Refused(error);
    }
    if let Some(current) = open_path {
        if database_paths_match(request.style, current.as_str(), request.path.as_str()) {
            return OpenStart::AlreadyOpen(current);
        }
        return OpenStart::Refused(ToolError::DatabaseAlreadyOpen(current));
    }
    if let Some(error) = check_request(&request, files, facts) {
        return OpenStart::Refused(error);
    }
    let is_idb = has_ida_database_extension(request.style, request.path.as_str());
    let candidate = if is_idb {
        None
    } else {
        raw_candidate(&request, files)
    };
    let dsym = if is_idb || candidate.is_some() {
        None
    } else {
        dsym_path_for_binary(request.style, request.path.as_str(), files)
    };
    let lock_target = if is_idb {
        request.path.clone()
    } else {
        raw_output_path(&request)
    };
    let mut effects = no_effects();
    if request.force {
        let mut paths: Vec<String> = Vec::new();
        paths.push(lock_target.clone());
        paths.push(request.path.clone());
        assert(paths.deep_view() =~= seq![lock_target@, request.path@]);
        effects = with_effect(effects, OpenEffect::CleanStaleLocks { paths });
    }
    let step = OpenStep {
        effects,
        next: OpenNext::Ask(OpenQuery::AcquireLock { path: lock_target.clone() }),
    };
    let state = OpenState {
        style: request.style,
        path: request.path.clone(),
        is_idb,
        rebuild: request.rebuild,
        auto_analyse: request.auto_analyse,
        load_debug_info: request.load_debug_info,
        debug_info_path: trimmed_text(&request.debug_info_path),
        debug_info_verbose: request.debug_info_verbose,
        file_type: trimmed_text(&request.file_type),
        raw_target: RawBinaryTarget {
            processor: copy_text(&request.raw_target.processor),
            bitness: request.raw_target.bitness,
            base_address: request.raw_target.base_address,
            entry_point: request.raw_target.entry_point,
        },
        init_args: init_database_args(request.extra_args.as_slice()),
        lock_target,
        candidate,
        dsym,
        reused: false,
        opened_path: request.path.clone(),
        debug_info: None,
        lock_held: false,
        candidate_open: false,
        database_open: false,
        phase: OpenPhase::Locking,
    };
    proof {
        every_open_starts_with_the_invariant(request@, files@, facts@);
        assert(state@ == initial(request@, files@));
    }
    OpenStart::Started { session: OpenSession { state }, step }
}

impl OpenSession {
    #[verifier::type_invariant]
    spec fn inv(self) -> bool {
        open_inv(self.state@)
    }

    /// Whether `event` is an outcome of what was asked for last.
    pub fn accepts(&self, event: &OpenEvent) -> (r: bool)
        ensures
            r == answers(self@.phase, event@),
    {
        match (&self.state.phase, event) {
            (OpenPhase::Locking, OpenEvent::LockAcquired) => true,
            (OpenPhase::Locking, OpenEvent::LockRefused(_)) => true,
            (OpenPhase::OpeningCandidate, OpenEvent::Opened) => true,
            (OpenPhase::OpeningCandidate, OpenEvent::OpenError { .. }) => true,
            (OpenPhase::OpeningUnpackedCandidate, OpenEvent::Opened) => true,
            (OpenPhase::OpeningUnpackedCandidate, OpenEvent::OpenError { .. }) => true,
            (OpenPhase::ReadingProvenance, OpenEvent::Provenance { .. }) => true,
            (OpenPhase::CancelAfterProvenance { .. }, OpenEvent::NotCancelled) => true,
            (OpenPhase::CancelAfterProvenance { .. }, OpenEvent::Cancelled(_)) => true,
            (OpenPhase::HashingInput { .. }, OpenEvent::InputHashed(_)) => true,
            (OpenPhase::HashingInput { .. }, OpenEvent::InputUnreadable(_)) => true,
            (OpenPhase::LocatingRecorded { .. }, OpenEvent::RecordedLocated { .. }) => true,
            (OpenPhase::OpeningExisting, OpenEvent::Opened) => true,
            (OpenPhase::OpeningExisting, OpenEvent::OpenError { .. }) => true,
            (OpenPhase::OpeningUnpacked, OpenEvent::Opened) => true,
            (OpenPhase::OpeningUnpacked, OpenEvent::OpenError { .. }) => true,
            (OpenPhase::OpeningRaw, OpenEvent::Opened) => true,
            (OpenPhase::OpeningRaw, OpenEvent::OpenError { .. }) => true,
            (OpenPhase::OpeningRaw, OpenEvent::BaseAddressRejected(_)) => true,
            (OpenPhase::DetectingLock { .. }, OpenEvent::LockDetected(_)) => true,
            (OpenPhase::DetectingLock { .. }, OpenEvent::NoLockDetected) => true,
            (OpenPhase::DetectingInputLock { .. }, OpenEvent::LockDetected(_)) => true,
            (OpenPhase::DetectingInputLock { .. }, OpenEvent::NoLockDetected) => true,
            (OpenPhase::SettingBitness, OpenEvent::BitnessSet { .. }) => true,
            (OpenPhase::ProbingEntryPoint, OpenEvent::EntryPointProbed { .. }) => true,
            (OpenPhase::SettingEntryPoint, OpenEvent::EntryPointSet(_)) => true,
            (OpenPhase::ConfirmingEntryPoint, OpenEvent::StartAddress(_)) => true,
            (OpenPhase::WaitingForAnalysis, OpenEvent::AnalysisEnded(_)) => true,
            (OpenPhase::CancelAfterOpen, OpenEvent::NotCancelled) => true,
            (OpenPhase::CancelAfterOpen, OpenEvent::Cancelled(_)) => true,
            (OpenPhase::CancelBeforeDebugInfo, OpenEvent::NotCancelled) => true,
            (OpenPhase::CancelBeforeDebugInfo, OpenEvent::Cancelled(_)) => true,
            (OpenPhase::ProbingDebugInfo { .. }, OpenEvent::DebugInfoProbed(_)) => true,
            (OpenPhase::LoadingDebugInfo { .. }, OpenEvent::DebugInfoLoaded(_)) => true,
            (OpenPhase::LoadingDebugInfo { .. }, OpenEvent::DebugInfoFailed(_)) => true,
            (OpenPhase::CancelBeforeDsym, OpenEvent::NotCancelled) => true,
            (OpenPhase::CancelBeforeDsym, OpenEvent::Cancelled(_)) => true,
            (OpenPhase::LoadingDsym, OpenEvent::DebugInfoLoaded(_)) => true,
            (OpenPhase::LoadingDsym, OpenEvent::DebugInfoFailed(_)) => true,
            (OpenPhase::CancelAtEnd, OpenEvent::NotCancelled) => true,
            (OpenPhase::CancelAtEnd, OpenEvent::Cancelled(_)) => true,
            _ => false,
        }
    }

    /// The next step, given the outcome of what was asked for last.
    pub fn advance(self, event: OpenEvent) -> (turn: OpenTurn)
        requires
            answers(self@.phase, event@),
        ensures
            (turn.session@, turn.step@) == step(self@, event@),
            open_inv(turn.session@),
    {
        proof {
            use_type_invariant(&self);
            every_step_keeps_the_invariant(self@, event@);
        }
        let (state, step) = advance_state(self.state, event);
        OpenTurn { session: OpenSession { state }, step }
    }
}

/// A candidate that is open: its provenance is read next.
fn read_provenance(state: OpenState) -> (r: (OpenState, OpenStep))
    ensures
        (r.0@, r.1@) == asking(
            OpenState { candidate_open: true, ..state@ },
            OpenPhase::ReadingProvenance,
            Seq::empty(),
            OpenQuery::ReadProvenance,
        ),
{
    let mut s = state;
    s.candidate_open = true;
    ask(s, OpenPhase::ReadingProvenance, no_effects(), OpenQuery::ReadProvenance)
}

/// A candidate whose provenance cannot be read.
fn refuse_unreadable(state: OpenState, reason: String) -> (r: (OpenState, OpenStep))
    requires
        state.candidate is Some,
    ensures
        (r.0@, r.1@) == failing(
            state@,
            unreadable_candidate(state@.candidate->0, reason@),
        ),
{
    let mut message = "refusing to reuse or overwrite ".to_owned();
    if let Some(candidate) = &state.candidate {
        message.append(candidate.as_str());
    }
    message.append(" because its input provenance could not be read: ");
    message.append(reason.as_str());
    fail(state, ToolError::OpenFailed(message))
}

/// The address that the entry point of a raw input is to be set to.
fn entry_address(state: &OpenState) -> (r: u64)
    requires
        state.raw_target.entry_point is Some,
    ensures
        Some(r) == state.raw_target.entry_point,
{
    match state.raw_target.entry_point {
        Some(address) => address,
        None => 0,
    }
}

/// The next step while the lock is taken and an existing database is judged.
fn advance_judging(state: OpenState, event: OpenEvent) -> (r: (OpenState, OpenStep))
    requires
        open_inv(state@),
        answers(state@.phase, event@),
        state@.phase is Locking || judges_candidate(state@.phase),
    ensures
        (r.0@, r.1@) == judging_step(state@, event@),
{
    let mut s = state;
    let mut phase = OpenPhase::Finished;
    std::mem::swap(&mut phase, &mut s.phase);
    match (phase, event) {
        (OpenPhase::Locking, OpenEvent::LockAcquired) => {
            s.lock_held = true;
            match &s.candidate {
                Some(candidate) => {
                    let path = candidate.clone();
                    let args = copy_texts(&s.init_args);
                    ask(
                        s,
                        OpenPhase::OpeningCandidate,
                        no_effects(),
                        OpenQuery::OpenExisting { path, args, save: false },
                    )
                },
                None => go_open(s),
            }
        },
        (OpenPhase::Locking, OpenEvent::LockRefused(error)) => fail(s, error),
        (OpenPhase::OpeningCandidate, OpenEvent::OpenError { reason, unpacked_exists }) => {
            let unpacked = match &s.candidate {
                Some(candidate) => if unpacked_exists {
                    unpacked_id0_path(s.style, candidate.as_str())
                } else {
                    None
                },
                None => None,
            };
            match unpacked {
                Some(path) => {
                    let args = copy_texts(&s.init_args);
                    ask(
                        s,
                        OpenPhase::OpeningUnpackedCandidate,
                        no_effects(),
                        OpenQuery::OpenExisting { path, args, save: false },
                    )
                },
                None => refuse_unreadable(s, reason),
            }
        },
        (OpenPhase::OpeningUnpackedCandidate, OpenEvent::OpenError { reason, .. }) =>
            refuse_unreadable(s, reason),
        (OpenPhase::OpeningCandidate, _) => read_provenance(s),
        (OpenPhase::OpeningUnpackedCandidate, _) => read_provenance(s),
        (OpenPhase::ReadingProvenance, OpenEvent::Provenance { hash, path }) => {
            s.candidate_open = false;
            ask(
                s,
                OpenPhase::CancelAfterProvenance { recorded_hash: hash, recorded_path: path },
                with_effect(no_effects(), OpenEffect::CloseCandidate),
                OpenQuery::CheckCancelled,
            )
        },
        (_, OpenEvent::Cancelled(error)) => fail(s, error),
        (OpenPhase::CancelAfterProvenance { recorded_hash, recorded_path }, _) => {
            let path = s.path.clone();
            ask(
                s,
                OpenPhase::HashingInput { recorded_hash, recorded_path },
                no_effects(),
                OpenQuery::HashInput { path },
            )
        },
        (OpenPhase::HashingInput { .. }, OpenEvent::InputUnreadable(error)) => fail(s, error),
        (
            OpenPhase::HashingInput { recorded_hash, recorded_path },
            OpenEvent::InputHashed(input_hash),
        ) => {
            let recorded = recorded_path_text(recorded_path.as_str());
            if recorded.is_empty() {
                judge(s, recorded_hash, input_hash, false)
            } else {
                let input = s.path.clone();
                ask(
                    s,
                    OpenPhase::LocatingRecorded { recorded_hash, input_hash },
                    no_effects(),
                    OpenQuery::LocateRecorded { recorded: recorded.to_owned(), input },
                )
            }
        },
        (
            OpenPhase::LocatingRecorded { recorded_hash, input_hash },
            OpenEvent::RecordedLocated { expanded, input_canonical, expanded_canonical },
        ) => {
            let path_matches = paths_refer_to_same_file(
                s.style,
                s.path.as_str(),
                expanded.as_str(),
                &input_canonical,
                &expanded_canonical,
            );
            judge(s, recorded_hash, input_hash, path_matches)
        },
        _ => finish(s),
    }
}

/// The next step while the database is opened.
fn advance_opening(state: OpenState, event: OpenEvent) -> (r: (OpenState, OpenStep))
    requires
        open_inv(state@),
        answers(state@.phase, event@),
        !(state@.phase is Locking || judges_candidate(state@.phase) || holds_database(state@.phase)),
    ensures
        (r.0@, r.1@) == opening_step(state@, event@),
{
    let mut s = state;
    let mut phase = OpenPhase::Finished;
    std::mem::swap(&mut phase, &mut s.phase);
    match (phase, event) {
        (OpenPhase::OpeningExisting, OpenEvent::OpenError { reason, unpacked_exists }) => {
            let unpacked = if unpacked_exists {
                unpacked_id0_path(s.style, s.opened_path.as_str())
            } else {
                None
            };
            match unpacked {
                Some(path) => {
                    let args = copy_texts(&s.init_args);
                    ask(
                        s,
                        OpenPhase::OpeningUnpacked,
                        no_effects(),
                        OpenQuery::OpenExisting { path, args, save: true },
                    )
                },
                None => open_failed(s, reason),
            }
        },
        (OpenPhase::OpeningUnpacked, OpenEvent::OpenError { reason, .. }) => open_failed(
            s,
            reason,
        ),
        (OpenPhase::OpeningRaw, OpenEvent::OpenError { reason, .. }) => open_failed(s, reason),
        (OpenPhase::OpeningRaw, OpenEvent::BaseAddressRejected(reason)) => fail(
            s,
            ToolError::InvalidParams(reason),
        ),
        (OpenPhase::OpeningUnpacked, _) => {
            s.database_open = true;
            if let Some(id0) = unpacked_id0_path(s.style, s.opened_path.as_str()) {
                s.opened_path = id0;
            }
            go_bitness(s)
        },
        (OpenPhase::OpeningExisting, _) => {
            s.database_open = true;
            go_bitness(s)
        },
        (OpenPhase::OpeningRaw, _) => {
            s.database_open = true;
            go_bitness(s)
        },
        (_, OpenEvent::LockDetected(found)) => fail(s, ToolError::DatabaseLocked(found)),
        (OpenPhase::DetectingLock { reason }, _) => {
            let path = s.path.clone();
            ask(
                s,
                OpenPhase::DetectingInputLock { reason: reason.clone() },
                no_effects(),
                OpenQuery::DetectLock { path, reason },
            )
        },
        (OpenPhase::DetectingInputLock { reason }, _) => {
            let message = concat3(s.opened_path.as_str(), ": ", reason.as_str());
            fail(s, ToolError::OpenFailed(message))
        },
        _ => finish(s),
    }
}

/// The next step while what was asked for a raw input is set up.
fn advance_raw_target(state: OpenState, event: OpenEvent) -> (r: (OpenState, OpenStep))
    requires
        open_inv(state@),
        answers(state@.phase, event@),
        holds_database(state@.phase) && !is_set_up(state@.phase),
    ensures
        (r.0@, r.1@) == raw_target_step(state@, event@),
{
    let mut s = state;
    let mut phase = OpenPhase::Finished;
    std::mem::swap(&mut phase, &mut s.phase);
    match (phase, event) {
        (
            OpenPhase::SettingBitness,
            OpenEvent::BitnessSet { refused, is_64bit, is_32bit_exactly },
        ) => {
            let outcome = match s.raw_target.bitness {
                Some(bitness) => configure_raw_bitness(
                    bitness,
                    refused,
                    is_64bit,
                    is_32bit_exactly,
                ),
                None => Ok(()),
            };
            match outcome {
                Ok(()) => go_entry_point(s),
                Err(error) => fail(s, error),
            }
        },
        (OpenPhase::ProbingEntryPoint, OpenEvent::EntryPointProbed { in_segment, start }) => {
            let address = entry_address(&s);
            let set = match start {
                Some(start) => start == address,
                None => false,
            };
            if !in_segment {
                let message = concat3(
                    "raw entry point ",
                    hex_address(address).as_str(),
                    " is outside every loaded segment",
                );
                fail(s, ToolError::OpenFailed(message))
            } else if !set {
                ask(
                    s,
                    OpenPhase::SettingEntryPoint,
                    no_effects(),
                    OpenQuery::SetEntryPoint { address },
                )
            } else {
                ask(s, OpenPhase::ConfirmingEntryPoint, no_effects(), OpenQuery::ReadStartAddress)
            }
        },
        (OpenPhase::SettingEntryPoint, OpenEvent::EntryPointSet(accepted)) => {
            if accepted {
                ask(s, OpenPhase::ConfirmingEntryPoint, no_effects(), OpenQuery::ReadStartAddress)
            } else {
                let shown = hex_address(entry_address(&s));
                fail(
                    s,
                    ToolError::OpenFailed(
                        concat2("IDA refused raw entry point ", shown.as_str()),
                    ),
                )
            }
        },
        (OpenPhase::ConfirmingEntryPoint, OpenEvent::StartAddress(start)) => {
            let address = entry_address(&s);
            let kept = match start {
                Some(start) => start == address,
                None => false,
            };
            if kept {
                go_analysis(s)
            } else {
                let shown = hex_address(address);
                fail(
                    s,
                    ToolError::OpenFailed(
                        concat2(
                            "IDA did not retain requested raw entry point ",
                            shown.as_str(),
                        ),
                    ),
                )
            }
        },
        (OpenPhase::WaitingForAnalysis, OpenEvent::AnalysisEnded(completed)) => {
            if completed {
                ask(s, OpenPhase::CancelAfterOpen, no_effects(), OpenQuery::CheckCancelled)
            } else {
                fail(
                    s,
                    ToolError::OpenFailed(
                        "IDA auto-analysis did not complete after raw target configuration".to_owned(),
                    ),
                )
            }
        },
        _ => finish(s),
    }
}

/// The next step once the database is set up.
fn advance_debug_info(state: OpenState, event: OpenEvent) -> (r: (OpenState, OpenStep))
    requires
        open_inv(state@),
        answers(state@.phase, event@),
        is_set_up(state@.phase),
    ensures
        (r.0@, r.1@) == debug_info_step(state@, event@),
{
    let mut s = state;
    let mut phase = OpenPhase::Finished;
    std::mem::swap(&mut phase, &mut s.phase);
    match (phase, event) {
        (_, OpenEvent::Cancelled(error)) => fail(s, error),
        (OpenPhase::CancelAfterOpen, _) => go_debug_info(s),
        (OpenPhase::CancelBeforeDebugInfo, _) => {
            let source = match &s.debug_info_path {
                Some(path) => Some(path.clone()),
                None => if s.is_idb {
                    let base = base_input_path_for_database(s.style, s.path.as_str());
                    dsym_expected_path_for_binary(s.style, base.as_str())
                } else {
                    dsym_expected_path_for_binary(s.style, s.path.as_str())
                },
            };
            match source {
                Some(path) => ask(
                    s,
                    OpenPhase::ProbingDebugInfo { path: path.clone() },
                    no_effects(),
                    OpenQuery::ProbeDebugInfo { path },
                ),
                None => go_end(s),
            }
        },
        (OpenPhase::ProbingDebugInfo { path }, OpenEvent::DebugInfoProbed(present)) => {
            if present {
                let verbose = s.debug_info_verbose;
                ask(
                    s,
                    OpenPhase::LoadingDebugInfo { path: path.clone() },
                    no_effects(),
                    OpenQuery::LoadDebugInfo { path, verbose },
                )
            } else {
                record(s, path, false, Some("debug info not found".to_owned()))
            }
        },
        (OpenPhase::LoadingDebugInfo { path }, OpenEvent::DebugInfoLoaded(loaded)) => {
            let error = if loaded {
                None
            } else {
                Some("load returned false".to_owned())
            };
            record(s, path, loaded, error)
        },
        (OpenPhase::LoadingDebugInfo { path }, OpenEvent::DebugInfoFailed(reason)) => record(
            s,
            path,
            false,
            Some(reason),
        ),
        (OpenPhase::CancelBeforeDsym, _) => {
            let path = match &s.dsym {
                Some(path) => path.clone(),
                None => String::new(),
            };
            ask(
                s,
                OpenPhase::LoadingDsym,
                no_effects(),
                OpenQuery::LoadDebugInfo { path, verbose: false },
            )
        },
        (OpenPhase::LoadingDsym, _) => go_end(s),
        _ => finish(s),
    }
}

fn advance_state(state: OpenState, event: OpenEvent) -> (r: (OpenState, OpenStep))
    requires
        open_inv(state@),
        answers(state@.phase, event@),
    ensures
        (r.0@, r.1@) == step(state@, event@),
{
    match &state.phase {
        OpenPhase::Locking => advance_judging(state, event),
        OpenPhase::OpeningCandidate => advance_judging(state, event),
        OpenPhase::OpeningUnpackedCandidate => advance_judging(state, event),
        OpenPhase::ReadingProvenance => advance_judging(state, event),
        OpenPhase::CancelAfterProvenance { .. } => advance_judging(state, event),
        OpenPhase::HashingInput { .. } => advance_judging(state, event),
        OpenPhase::LocatingRecorded { .. } => advance_judging(state, event),
        OpenPhase::SettingBitness => advance_raw_target(state, event),
        OpenPhase::ProbingEntryPoint => advance_raw_target(state, event),
        OpenPhase::SettingEntryPoint => advance_raw_target(state, event),
        OpenPhase::ConfirmingEntryPoint => advance_raw_target(state, event),
        OpenPhase::WaitingForAnalysis => advance_raw_target(state, event),
        OpenPhase::CancelAfterOpen => advance_debug_info(state, event),
        OpenPhase::CancelBeforeDebugInfo => advance_debug_info(state, event),
        OpenPhase::ProbingDebugInfo { .. } => advance_debug_info(state, event),
        OpenPhase::LoadingDebugInfo { .. } => advance_debug_info(state, event),
        OpenPhase::CancelBeforeDsym => advance_debug_info(state, event),
        OpenPhase::LoadingDsym => advance_debug_info(state, event),
        OpenPhase::CancelAtEnd => advance_debug_info(state, event),
        _ => advance_opening(state, event),
    }
}

} // verus!
