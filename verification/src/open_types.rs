//! What an open of a database is asked for, asks for, and is told.
//!
//! Each type is generic in the text that it holds: `String` and `Vec<String>` at run time,
//! `Seq<char>` and `Seq<Seq<char>>` in the views that contracts speak of.

use crate::error::ToolError;
use crate::path::PathStyle;
use vstd::prelude::*;

verus! {

/// Address size that a raw input can be opened with.
#[derive(Debug, Clone, Copy, PartialEq, Eq, Structural)]
pub enum Bitness {
    Bits16,
    Bits32,
    Bits64,
}

impl Bitness {
    /// The number of bits.
    pub open spec fn count(self) -> u32 {
        match self {
            Bitness::Bits16 => 16,
            Bitness::Bits32 => 32,
            Bitness::Bits64 => 64,
        }
    }

    /// The number of bits.
    pub fn bits(self) -> (r: u32)
        ensures
            r == self.count(),
    {
        match self {
            Bitness::Bits16 => 16,
            Bitness::Bits32 => 32,
            Bitness::Bits64 => 64,
        }
    }
}

/// How a raw input is to be loaded.
#[derive(Debug, Clone)]
pub struct RawBinaryTarget<T = String> {
    pub processor: Option<T>,
    pub bitness: Option<Bitness>,
    pub base_address: Option<u64>,
    pub entry_point: Option<u64>,
}

impl<T> RawBinaryTarget<T> {
    /// Whether nothing is asked for.
    pub open spec fn asks_nothing(self) -> bool {
        self.processor is None && self.bitness is None && self.base_address is None
            && self.entry_point is None
    }

    /// Whether nothing is asked for.
    pub fn is_empty(&self) -> (r: bool)
        ensures
            r == self.asks_nothing(),
    {
        self.processor.is_none() && self.bitness.is_none() && self.base_address.is_none()
            && self.entry_point.is_none()
    }
}

impl View for RawBinaryTarget<String> {
    type V = RawBinaryTarget<Seq<char>>;

    open spec fn view(&self) -> RawBinaryTarget<Seq<char>> {
        RawBinaryTarget {
            processor: self.processor.deep_view(),
            bitness: self.bitness,
            base_address: self.base_address,
            entry_point: self.entry_point,
        }
    }
}

/// A request to open a database or a raw input. `path` and `idb_out` are expanded.
#[derive(Debug, Clone)]
pub struct OpenRequest<T = String, L = Vec<String>> {
    /// The platform whose rules the paths follow.
    pub style: PathStyle,
    pub path: T,
    pub load_debug_info: bool,
    pub debug_info_path: Option<T>,
    pub debug_info_verbose: bool,
    pub force: bool,
    pub rebuild: bool,
    pub file_type: Option<T>,
    pub auto_analyse: bool,
    pub raw_target: RawBinaryTarget<T>,
    pub extra_args: L,
    pub idb_out: Option<T>,
}

impl View for OpenRequest<String, Vec<String>> {
    type V = OpenRequest<Seq<char>, Seq<Seq<char>>>;

    open spec fn view(&self) -> OpenRequest<Seq<char>, Seq<Seq<char>>> {
        OpenRequest {
            style: self.style,
            path: self.path@,
            load_debug_info: self.load_debug_info,
            debug_info_path: self.debug_info_path.deep_view(),
            debug_info_verbose: self.debug_info_verbose,
            force: self.force,
            rebuild: self.rebuild,
            file_type: self.file_type.deep_view(),
            auto_analyse: self.auto_analyse,
            raw_target: self.raw_target@,
            extra_args: self.extra_args.deep_view(),
            idb_out: self.idb_out.deep_view(),
        }
    }
}

/// How a load of debug information went.
#[derive(Debug, Clone)]
pub struct DebugInfoLoad<T = String> {
    pub path: T,
    pub loaded: bool,
    pub error: Option<T>,
}

impl View for DebugInfoLoad<String> {
    type V = DebugInfoLoad<Seq<char>>;

    open spec fn view(&self) -> DebugInfoLoad<Seq<char>> {
        DebugInfoLoad {
            path: self.path@,
            loaded: self.loaded,
            error: self.error.deep_view(),
        }
    }
}

/// The view of a debug information record, where there is one.
pub open spec fn load_view(load: Option<DebugInfoLoad>) -> Option<DebugInfoLoad<Seq<char>>> {
    match load {
        Some(load) => Some(load@),
        None => None,
    }
}

/// What an open is about to do.
#[derive(Debug, Clone, Copy, PartialEq, Eq, Structural)]
pub enum OpenProgress {
    OpeningExisting,
    OpeningRawAndAnalysing,
    OpeningRaw,
    Analysing,
    LoadingDebugInfo,
    LoadingDsym,
}

impl OpenProgress {
    /// What is announced.
    pub open spec fn text(self) -> Seq<char> {
        match self {
            OpenProgress::OpeningExisting => "Opening existing IDA database"@,
            OpenProgress::OpeningRawAndAnalysing =>
                "Opening raw binary and waiting for initial auto-analysis"@,
            OpenProgress::OpeningRaw => "Opening raw binary"@,
            OpenProgress::Analysing =>
                "Raw binary open finished; collecting post-open analysis state"@,
            OpenProgress::LoadingDebugInfo => "Loading requested debug information"@,
            OpenProgress::LoadingDsym => "Loading sibling dSYM debug information"@,
        }
    }

    /// What is announced.
    pub fn message(self) -> (r: &'static str)
        ensures
            r@ == self.text(),
    {
        match self {
            OpenProgress::OpeningExisting => "Opening existing IDA database",
            OpenProgress::OpeningRawAndAnalysing =>
                "Opening raw binary and waiting for initial auto-analysis",
            OpenProgress::OpeningRaw => "Opening raw binary",
            OpenProgress::Analysing =>
                "Raw binary open finished; collecting post-open analysis state",
            OpenProgress::LoadingDebugInfo => "Loading requested debug information",
            OpenProgress::LoadingDsym => "Loading sibling dSYM debug information",
        }
    }

    /// The phase that the announcement belongs to.
    pub open spec fn phase_text(self) -> Seq<char> {
        match self {
            OpenProgress::OpeningExisting => "opening"@,
            OpenProgress::OpeningRawAndAnalysing => "opening"@,
            OpenProgress::OpeningRaw => "opening"@,
            OpenProgress::Analysing => "analyzing"@,
            OpenProgress::LoadingDebugInfo => "loading_debug_info"@,
            OpenProgress::LoadingDsym => "loading_debug_info"@,
        }
    }

    /// The phase that the announcement belongs to.
    pub fn phase(self) -> (r: &'static str)
        ensures
            r@ == self.phase_text(),
    {
        match self {
            OpenProgress::OpeningExisting => "opening",
            OpenProgress::OpeningRawAndAnalysing => "opening",
            OpenProgress::OpeningRaw => "opening",
            OpenProgress::Analysing => "analyzing",
            OpenProgress::LoadingDebugInfo => "loading_debug_info",
            OpenProgress::LoadingDsym => "loading_debug_info",
        }
    }
}

/// Something to be done that has no answer.
#[derive(Debug, Clone)]
pub enum OpenEffect<L = Vec<String>> {
    /// Remove stale lock files beside these paths.
    CleanStaleLocks { paths: L },
    /// Close the database that was opened to look at its provenance.
    CloseCandidate,
    /// Close the database.
    CloseDatabase,
    /// Give the lock back.
    ReleaseLock,
    /// Remove these files where they exist.
    RemoveArtifacts { paths: L },
    /// Report progress.
    Announce(OpenProgress),
    /// Keep the database and the lock: the open succeeded.
    KeepOpen,
}

impl View for OpenEffect<Vec<String>> {
    type V = OpenEffect<Seq<Seq<char>>>;

    open spec fn view(&self) -> OpenEffect<Seq<Seq<char>>> {
        match self {
            OpenEffect::CleanStaleLocks { paths } => OpenEffect::CleanStaleLocks {
                paths: paths.deep_view(),
            },
            OpenEffect::CloseCandidate => OpenEffect::CloseCandidate,
            OpenEffect::CloseDatabase => OpenEffect::CloseDatabase,
            OpenEffect::ReleaseLock => OpenEffect::ReleaseLock,
            OpenEffect::RemoveArtifacts { paths } => OpenEffect::RemoveArtifacts {
                paths: paths.deep_view(),
            },
            OpenEffect::Announce(progress) => OpenEffect::Announce(*progress),
            OpenEffect::KeepOpen => OpenEffect::KeepOpen,
        }
    }
}

/// The views of a list of effects.
pub open spec fn effects_view(effects: Seq<OpenEffect>) -> Seq<OpenEffect<Seq<Seq<char>>>> {
    effects.map_values(|effect: OpenEffect| effect@)
}

/// How a raw input is opened.
#[derive(Debug, Clone)]
pub struct RawOpen<T = String, L = Vec<String>> {
    pub path: T,
    pub output: T,
    pub auto_analyse: bool,
    pub file_type: Option<T>,
    pub processor: Option<T>,
    pub base_address: Option<u64>,
    pub entry_point: Option<u64>,
    pub args: L,
    pub save: bool,
}

impl View for RawOpen<String, Vec<String>> {
    type V = RawOpen<Seq<char>, Seq<Seq<char>>>;

    open spec fn view(&self) -> RawOpen<Seq<char>, Seq<Seq<char>>> {
        RawOpen {
            path: self.path@,
            output: self.output@,
            auto_analyse: self.auto_analyse,
            file_type: self.file_type.deep_view(),
            processor: self.processor.deep_view(),
            base_address: self.base_address,
            entry_point: self.entry_point,
            args: self.args.deep_view(),
            save: self.save,
        }
    }
}

/// Something to be done whose outcome decides how the open goes on.
#[derive(Debug, Clone)]
pub enum OpenQuery<T = String, L = Vec<String>> {
    AcquireLock { path: T },
    /// Open an existing database without analysis.
    OpenExisting { path: T, args: L, save: bool },
    /// Read the recorded input hash and input path of the candidate.
    ReadProvenance,
    CheckCancelled,
    HashInput { path: T },
    /// Expand the recorded path, and find the canonical forms of it and of the input.
    LocateRecorded { recorded: T, input: T },
    OpenRaw(RawOpen<T, L>),
    /// Find out whether the failure to open is due to a lock on the database at `path`.
    DetectLock { path: T, reason: T },
    /// Set the address size of the database and of its segments, up to the first that refuses.
    SetBitness { bits: u32 },
    /// Find out whether a segment holds the address, and which start address is set.
    ProbeEntryPoint { address: u64 },
    SetEntryPoint { address: u64 },
    ReadStartAddress,
    WaitForAnalysis,
    /// Find out whether the file exists.
    ProbeDebugInfo { path: T },
    LoadDebugInfo { path: T, verbose: bool },
}

impl View for OpenQuery<String, Vec<String>> {
    type V = OpenQuery<Seq<char>, Seq<Seq<char>>>;

    open spec fn view(&self) -> OpenQuery<Seq<char>, Seq<Seq<char>>> {
        match self {
            OpenQuery::AcquireLock { path } => OpenQuery::AcquireLock { path: path@ },
            OpenQuery::OpenExisting { path, args, save } => OpenQuery::OpenExisting {
                path: path@,
                args: args.deep_view(),
                save: *save,
            },
            OpenQuery::ReadProvenance => OpenQuery::ReadProvenance,
            OpenQuery::CheckCancelled => OpenQuery::CheckCancelled,
            OpenQuery::HashInput { path } => OpenQuery::HashInput { path: path@ },
            OpenQuery::LocateRecorded { recorded, input } => OpenQuery::LocateRecorded {
                recorded: recorded@,
                input: input@,
            },
            OpenQuery::OpenRaw(raw) => OpenQuery::OpenRaw(raw@),
            OpenQuery::DetectLock { path, reason } => OpenQuery::DetectLock {
                path: path@,
                reason: reason@,
            },
            OpenQuery::SetBitness { bits } => OpenQuery::SetBitness { bits: *bits },
            OpenQuery::ProbeEntryPoint { address } => OpenQuery::ProbeEntryPoint {
                address: *address,
            },
            OpenQuery::SetEntryPoint { address } => OpenQuery::SetEntryPoint { address: *address },
            OpenQuery::ReadStartAddress => OpenQuery::ReadStartAddress,
            OpenQuery::WaitForAnalysis => OpenQuery::WaitForAnalysis,
            OpenQuery::ProbeDebugInfo { path } => OpenQuery::ProbeDebugInfo { path: path@ },
            OpenQuery::LoadDebugInfo { path, verbose } => OpenQuery::LoadDebugInfo {
                path: path@,
                verbose: *verbose,
            },
        }
    }
}

/// The outcome of what an open asked for.
#[derive(Debug, Clone)]
pub enum OpenEvent<T = String> {
    LockAcquired,
    LockRefused(ToolError<T>),
    Opened,
    /// An open failed; whether an unpacked form stands beside the database.
    OpenError { reason: T, unpacked_exists: bool },
    /// IDA does not take the base address.
    BaseAddressRejected(T),
    /// The recorded input hash, all zero where there is none, and the recorded input path.
    Provenance { hash: [u8; 32], path: T },
    NotCancelled,
    Cancelled(ToolError<T>),
    InputHashed([u8; 32]),
    InputUnreadable(ToolError<T>),
    RecordedLocated { expanded: T, input_canonical: Option<T>, expanded_canonical: Option<T> },
    LockDetected(T),
    NoLockDetected,
    /// The first segment that refused the address size, and what IDA then says of the database.
    BitnessSet { refused: Option<u64>, is_64bit: bool, is_32bit_exactly: bool },
    EntryPointProbed { in_segment: bool, start: Option<u64> },
    EntryPointSet(bool),
    StartAddress(Option<u64>),
    /// Whether analysis was completed.
    AnalysisEnded(bool),
    DebugInfoProbed(bool),
    DebugInfoLoaded(bool),
    DebugInfoFailed(T),
}

impl View for OpenEvent<String> {
    type V = OpenEvent<Seq<char>>;

    open spec fn view(&self) -> OpenEvent<Seq<char>> {
        match self {
            OpenEvent::LockAcquired => OpenEvent::LockAcquired,
            OpenEvent::LockRefused(error) => OpenEvent::LockRefused(error@),
            OpenEvent::Opened => OpenEvent::Opened,
            OpenEvent::OpenError { reason, unpacked_exists } => OpenEvent::OpenError {
                reason: reason@,
                unpacked_exists: *unpacked_exists,
            },
            OpenEvent::BaseAddressRejected(reason) => OpenEvent::BaseAddressRejected(reason@),
            OpenEvent::Provenance { hash, path } => OpenEvent::Provenance {
                hash: *hash,
                path: path@,
            },
            OpenEvent::NotCancelled => OpenEvent::NotCancelled,
            OpenEvent::Cancelled(error) => OpenEvent::Cancelled(error@),
            OpenEvent::InputHashed(hash) => OpenEvent::InputHashed(*hash),
            OpenEvent::InputUnreadable(error) => OpenEvent::InputUnreadable(error@),
            OpenEvent::RecordedLocated { expanded, input_canonical, expanded_canonical } =>
                OpenEvent::RecordedLocated {
                expanded: expanded@,
                input_canonical: input_canonical.deep_view(),
                expanded_canonical: expanded_canonical.deep_view(),
            },
            OpenEvent::LockDetected(text) => OpenEvent::LockDetected(text@),
            OpenEvent::NoLockDetected => OpenEvent::NoLockDetected,
            OpenEvent::BitnessSet { refused, is_64bit, is_32bit_exactly } =>
                OpenEvent::BitnessSet {
                refused: *refused,
                is_64bit: *is_64bit,
                is_32bit_exactly: *is_32bit_exactly,
            },
            OpenEvent::EntryPointProbed { in_segment, start } => OpenEvent::EntryPointProbed {
                in_segment: *in_segment,
                start: *start,
            },
            OpenEvent::EntryPointSet(accepted) => OpenEvent::EntryPointSet(*accepted),
            OpenEvent::StartAddress(start) => OpenEvent::StartAddress(*start),
            OpenEvent::AnalysisEnded(completed) => OpenEvent::AnalysisEnded(*completed),
            OpenEvent::DebugInfoProbed(present) => OpenEvent::DebugInfoProbed(*present),
            OpenEvent::DebugInfoLoaded(loaded) => OpenEvent::DebugInfoLoaded(*loaded),
            OpenEvent::DebugInfoFailed(reason) => OpenEvent::DebugInfoFailed(reason@),
        }
    }
}

/// How an open goes on.
#[derive(Debug, Clone)]
pub enum OpenNext<T = String, L = Vec<String>> {
    /// Something is asked for.
    Ask(OpenQuery<T, L>),
    /// The database at `path` is open.
    Done { path: T, debug_info: Option<DebugInfoLoad<T>> },
    Failed(ToolError<T>),
}

impl View for OpenNext<String, Vec<String>> {
    type V = OpenNext<Seq<char>, Seq<Seq<char>>>;

    open spec fn view(&self) -> OpenNext<Seq<char>, Seq<Seq<char>>> {
        match self {
            OpenNext::Ask(query) => OpenNext::Ask(query@),
            OpenNext::Done { path, debug_info } => OpenNext::Done {
                path: path@,
                debug_info: load_view(*debug_info),
            },
            OpenNext::Failed(error) => OpenNext::Failed(error@),
        }
    }
}

/// What is done at one step of an open, in order, and how it goes on then.
#[derive(Debug, Clone)]
pub struct OpenStep {
    pub effects: Vec<OpenEffect>,
    pub next: OpenNext,
}

/// The view of a step.
pub struct StepView {
    pub effects: Seq<OpenEffect<Seq<Seq<char>>>>,
    pub next: OpenNext<Seq<char>, Seq<Seq<char>>>,
}

impl View for OpenStep {
    type V = StepView;

    open spec fn view(&self) -> StepView {
        StepView { effects: effects_view(self.effects@), next: self.next@ }
    }
}

/// Where an open stands: what it has asked for and not been told yet.
#[derive(Debug, Clone)]
pub enum OpenPhase<T = String> {
    Locking,
    OpeningCandidate,
    OpeningUnpackedCandidate,
    ReadingProvenance,
    CancelAfterProvenance { recorded_hash: [u8; 32], recorded_path: T },
    HashingInput { recorded_hash: [u8; 32], recorded_path: T },
    LocatingRecorded { recorded_hash: [u8; 32], input_hash: [u8; 32] },
    OpeningExisting,
    OpeningUnpacked,
    OpeningRaw,
    DetectingLock { reason: T },
    DetectingInputLock { reason: T },
    SettingBitness,
    ProbingEntryPoint,
    SettingEntryPoint,
    ConfirmingEntryPoint,
    WaitingForAnalysis,
    CancelAfterOpen,
    CancelBeforeDebugInfo,
    ProbingDebugInfo { path: T },
    LoadingDebugInfo { path: T },
    CancelBeforeDsym,
    LoadingDsym,
    CancelAtEnd,
    Finished,
}

impl View for OpenPhase<String> {
    type V = OpenPhase<Seq<char>>;

    open spec fn view(&self) -> OpenPhase<Seq<char>> {
        match self {
            OpenPhase::Locking => OpenPhase::Locking,
            OpenPhase::OpeningCandidate => OpenPhase::OpeningCandidate,
            OpenPhase::OpeningUnpackedCandidate => OpenPhase::OpeningUnpackedCandidate,
            OpenPhase::ReadingProvenance => OpenPhase::ReadingProvenance,
            OpenPhase::CancelAfterProvenance { recorded_hash, recorded_path } =>
                OpenPhase::CancelAfterProvenance {
                recorded_hash: *recorded_hash,
                recorded_path: recorded_path@,
            },
            OpenPhase::HashingInput { recorded_hash, recorded_path } => OpenPhase::HashingInput {
                recorded_hash: *recorded_hash,
                recorded_path: recorded_path@,
            },
            OpenPhase::LocatingRecorded { recorded_hash, input_hash } =>
                OpenPhase::LocatingRecorded {
                recorded_hash: *recorded_hash,
                input_hash: *input_hash,
            },
            OpenPhase::OpeningExisting => OpenPhase::OpeningExisting,
            OpenPhase::OpeningUnpacked => OpenPhase::OpeningUnpacked,
            OpenPhase::OpeningRaw => OpenPhase::OpeningRaw,
            OpenPhase::DetectingLock { reason } => OpenPhase::DetectingLock { reason: reason@ },
            OpenPhase::DetectingInputLock { reason } => OpenPhase::DetectingInputLock {
                reason: reason@,
            },
            OpenPhase::SettingBitness => OpenPhase::SettingBitness,
            OpenPhase::ProbingEntryPoint => OpenPhase::ProbingEntryPoint,
            OpenPhase::SettingEntryPoint => OpenPhase::SettingEntryPoint,
            OpenPhase::ConfirmingEntryPoint => OpenPhase::ConfirmingEntryPoint,
            OpenPhase::WaitingForAnalysis => OpenPhase::WaitingForAnalysis,
            OpenPhase::CancelAfterOpen => OpenPhase::CancelAfterOpen,
            OpenPhase::CancelBeforeDebugInfo => OpenPhase::CancelBeforeDebugInfo,
            OpenPhase::ProbingDebugInfo { path } => OpenPhase::ProbingDebugInfo { path: path@ },
            OpenPhase::LoadingDebugInfo { path } => OpenPhase::LoadingDebugInfo { path: path@ },
            OpenPhase::CancelBeforeDsym => OpenPhase::CancelBeforeDsym,
            OpenPhase::LoadingDsym => OpenPhase::LoadingDsym,
            OpenPhase::CancelAtEnd => OpenPhase::CancelAtEnd,
            OpenPhase::Finished => OpenPhase::Finished,
        }
    }
}

/// What an open knows and holds.
#[derive(Debug, Clone)]
pub struct OpenState<T = String, L = Vec<String>> {
    /// The platform whose rules the paths follow.
    pub style: PathStyle,
    /// The path that was asked for.
    pub path: T,
    /// Whether it names a database rather than a raw input.
    pub is_idb: bool,
    pub rebuild: bool,
    pub auto_analyse: bool,
    pub load_debug_info: bool,
    pub debug_info_path: Option<T>,
    pub debug_info_verbose: bool,
    pub file_type: Option<T>,
    pub raw_target: RawBinaryTarget<T>,
    pub init_args: L,
    /// The database that the lock is taken for: the output for a raw input.
    pub lock_target: T,
    /// An existing database for a raw input.
    pub candidate: Option<T>,
    /// The dSYM file beside a raw input that has no database yet.
    pub dsym: Option<T>,
    /// The candidate was found to stem from the input, and is opened in its place.
    pub reused: bool,
    /// The database that is opened.
    pub opened_path: T,
    pub debug_info: Option<DebugInfoLoad<T>>,
    pub lock_held: bool,
    pub candidate_open: bool,
    pub database_open: bool,
    pub phase: OpenPhase<T>,
}

impl View for OpenState<String, Vec<String>> {
    type V = OpenState<Seq<char>, Seq<Seq<char>>>;

    open spec fn view(&self) -> OpenState<Seq<char>, Seq<Seq<char>>> {
        OpenState {
            style: self.style,
            path: self.path@,
            is_idb: self.is_idb,
            rebuild: self.rebuild,
            auto_analyse: self.auto_analyse,
            load_debug_info: self.load_debug_info,
            debug_info_path: self.debug_info_path.deep_view(),
            debug_info_verbose: self.debug_info_verbose,
            file_type: self.file_type.deep_view(),
            raw_target: self.raw_target@,
            init_args: self.init_args.deep_view(),
            lock_target: self.lock_target@,
            candidate: self.candidate.deep_view(),
            dsym: self.dsym.deep_view(),
            reused: self.reused,
            opened_path: self.opened_path@,
            debug_info: load_view(self.debug_info),
            lock_held: self.lock_held,
            candidate_open: self.candidate_open,
            database_open: self.database_open,
            phase: self.phase@,
        }
    }
}

} // verus!
