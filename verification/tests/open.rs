use ida_mcp::error::ToolError;
use ida_mcp::files::{EntryKind, FileFacts, PathFact};
use ida_mcp::open::{
    configure_raw_bitness, handle_open, open_inspection_paths, OpenSession, OpenStart,
};
use ida_mcp::open_types::{
    Bitness, OpenEffect, OpenEvent, OpenNext, OpenProgress, OpenQuery, OpenRequest, OpenStep,
    RawBinaryTarget,
};
use ida_mcp::output::{OutputFacts, ParentState};
use ida_mcp::path::PathStyle;

const INPUT_HASH: [u8; 32] = [0x11; 32];
const OTHER_HASH: [u8; 32] = [0x22; 32];
const NO_HASH: [u8; 32] = [0; 32];

fn request(path: &str) -> OpenRequest {
    OpenRequest {
        style: PathStyle::Unix,
        path: path.to_string(),
        load_debug_info: false,
        debug_info_path: None,
        debug_info_verbose: false,
        force: false,
        rebuild: false,
        file_type: None,
        auto_analyse: true,
        raw_target: RawBinaryTarget {
            processor: None,
            bitness: None,
            base_address: None,
            entry_point: None,
        },
        extra_args: Vec::new(),
        idb_out: None,
    }
}

fn files(paths: &[&str]) -> FileFacts {
    FileFacts {
        entries: paths
            .iter()
            .map(|path| PathFact {
                path: path.to_string(),
                kind: EntryKind::File,
            })
            .collect(),
    }
}

fn facts() -> OutputFacts {
    OutputFacts {
        input_canonical: None,
        output_canonical: None,
        parent: ParentState::Writable,
    }
}

fn start(request: OpenRequest, paths: &[&str]) -> OpenStart {
    handle_open(request, None, None, &files(paths), &facts())
}

fn started(request: OpenRequest, paths: &[&str]) -> (OpenSession, OpenStep) {
    match start(request, paths) {
        OpenStart::Started { session, step } => (session, step),
        OpenStart::Refused(error) => panic!("refused: {error:?}"),
        OpenStart::AlreadyOpen(path) => panic!("open: {path}"),
    }
}

fn refusal(request: OpenRequest, paths: &[&str]) -> ToolError {
    match start(request, paths) {
        OpenStart::Refused(error) => error,
        _ => panic!("not refused"),
    }
}

/// Feeds `events` to an open; the names of all effects, and how it goes on after the last.
fn drive(
    (mut session, mut step): (OpenSession, OpenStep),
    events: Vec<OpenEvent>,
) -> (Vec<String>, OpenNext) {
    let mut effects: Vec<String> = Vec::new();
    effects.extend(step.effects.iter().map(|effect| format!("{effect:?}")));
    for event in events {
        assert!(session.accepts(&event), "{event:?} after {:?}", step.next);
        let turn = session.advance(event);
        session = turn.session;
        step = turn.step;
        effects.extend(step.effects.iter().map(|effect| format!("{effect:?}")));
    }
    (effects, step.next)
}

fn failure(next: OpenNext) -> ToolError {
    match next {
        OpenNext::Failed(error) => error,
        other => panic!("{other:?}"),
    }
}

fn open_error(unpacked_exists: bool) -> OpenEvent {
    OpenEvent::OpenError {
        reason: "no license".to_string(),
        unpacked_exists,
    }
}

fn cancelled() -> OpenEvent {
    OpenEvent::Cancelled(ToolError::Cancelled("stop".to_string()))
}

/// The events up to the decision on an existing database whose recorded path is located.
fn judged(hash: [u8; 32], expanded: &str) -> Vec<OpenEvent> {
    vec![
        OpenEvent::LockAcquired,
        OpenEvent::Opened,
        OpenEvent::Provenance {
            hash,
            path: "/d/a.bin\0".to_string(),
        },
        OpenEvent::NotCancelled,
        OpenEvent::InputHashed(INPUT_HASH),
        OpenEvent::RecordedLocated {
            expanded: expanded.to_string(),
            input_canonical: None,
            expanded_canonical: None,
        },
    ]
}

#[test]
fn an_existing_database_is_opened_under_its_own_lock() {
    let (effects, next) = drive(
        started(request("/d/a.i64"), &["/d/a.i64"]),
        vec![OpenEvent::LockAcquired],
    );
    assert_eq!(effects, vec!["Announce(OpeningExisting)"]);
    match next {
        OpenNext::Ask(OpenQuery::OpenExisting { path, args, save }) => {
            assert_eq!(path, "/d/a.i64");
            assert_eq!(args, vec!["-A"]);
            assert!(save);
        }
        other => panic!("{other:?}"),
    }
}

#[test]
fn an_open_that_succeeds_keeps_what_it_opened() {
    let (effects, next) = drive(
        started(request("/d/a.i64"), &["/d/a.i64"]),
        vec![
            OpenEvent::LockAcquired,
            OpenEvent::Opened,
            OpenEvent::NotCancelled,
            OpenEvent::NotCancelled,
        ],
    );
    assert_eq!(effects, vec!["Announce(OpeningExisting)", "KeepOpen"]);
    match next {
        OpenNext::Done { path, debug_info } => {
            assert_eq!(path, "/d/a.i64");
            assert!(debug_info.is_none());
        }
        other => panic!("{other:?}"),
    }
}

#[test]
fn a_packed_database_that_cannot_be_opened_is_tried_unpacked() {
    let (_, next) = drive(
        started(request("/d/a.i64"), &["/d/a.i64"]),
        vec![
            OpenEvent::LockAcquired,
            open_error(true),
            OpenEvent::Opened,
            OpenEvent::NotCancelled,
            OpenEvent::NotCancelled,
        ],
    );
    match next {
        OpenNext::Done { path, .. } => assert_eq!(path, "/d/a.id0"),
        other => panic!("{other:?}"),
    }
}

#[test]
fn a_database_that_cannot_be_opened_is_checked_for_a_lock() {
    let (effects, next) = drive(
        started(request("/d/a.i64"), &["/d/a.i64"]),
        vec![OpenEvent::LockAcquired, open_error(false)],
    );
    assert_eq!(effects, vec!["Announce(OpeningExisting)", "ReleaseLock"]);
    assert!(matches!(next, OpenNext::Ask(OpenQuery::DetectLock { .. })));

    let (_, next) = drive(
        started(request("/d/a.i64"), &["/d/a.i64"]),
        vec![
            OpenEvent::LockAcquired,
            open_error(false),
            OpenEvent::NoLockDetected,
            OpenEvent::LockDetected("held by 12".to_string()),
        ],
    );
    assert_eq!(
        failure(next),
        ToolError::DatabaseLocked("held by 12".to_string())
    );

    let (_, next) = drive(
        started(request("/d/a.i64"), &["/d/a.i64"]),
        vec![
            OpenEvent::LockAcquired,
            open_error(false),
            OpenEvent::NoLockDetected,
            OpenEvent::NoLockDetected,
        ],
    );
    assert_eq!(
        failure(next),
        ToolError::OpenFailed("/d/a.i64: no license".to_string())
    );
}

#[test]
fn a_raw_input_is_opened_into_its_output() {
    let mut request = request("/d/a.bin");
    request.file_type = Some(" pe ".to_string());
    request.extra_args = vec!["-Sx.py".to_string()];
    request.raw_target.base_address = Some(0x1000);
    request.raw_target.processor = Some("arm".to_string());
    let (effects, next) = drive(started(request, &["/d/a.bin"]), vec![OpenEvent::LockAcquired]);
    assert_eq!(effects, vec!["Announce(OpeningRawAndAnalysing)"]);
    match next {
        OpenNext::Ask(OpenQuery::OpenRaw(raw)) => {
            assert_eq!(raw.path, "/d/a.bin");
            assert_eq!(raw.output, "/d/a.bin.i64");
            assert!(raw.auto_analyse);
            assert_eq!(raw.file_type, Some("pe".to_string()));
            assert_eq!(raw.processor, Some("arm".to_string()));
            assert_eq!(raw.base_address, Some(0x1000));
            assert_eq!(raw.entry_point, None);
            assert_eq!(raw.args, vec!["-A", "-Sx.py"]);
            assert!(raw.save);
        }
        other => panic!("{other:?}"),
    }
}

#[test]
fn a_raw_open_that_fails_removes_what_it_wrote() {
    let artifacts = "RemoveArtifacts { paths: [\"/d/a.bin.i64\", \"/d/a.bin.id0\", \"/d/a.bin.id1\", \"/d/a.bin.id2\", \"/d/a.bin.nam\", \"/d/a.bin.til\"] }";
    let (effects, _) = drive(
        started(request("/d/a.bin"), &["/d/a.bin"]),
        vec![OpenEvent::LockAcquired, open_error(true)],
    );
    assert_eq!(
        effects,
        vec!["Announce(OpeningRawAndAnalysing)", "ReleaseLock", artifacts]
    );

    let (effects, next) = drive(
        started(request("/d/a.bin"), &["/d/a.bin"]),
        vec![OpenEvent::LockAcquired, OpenEvent::Opened, cancelled()],
    );
    assert_eq!(
        effects,
        vec![
            "Announce(OpeningRawAndAnalysing)",
            "CloseDatabase",
            "ReleaseLock",
            artifacts
        ]
    );
    assert_eq!(failure(next), ToolError::Cancelled("stop".to_string()));
}

#[test]
fn a_rejected_base_address_is_a_bad_argument() {
    let mut request = request("/d/a.bin");
    request.raw_target.base_address = Some(0x10);
    let (effects, next) = drive(
        started(request, &["/d/a.bin"]),
        vec![
            OpenEvent::LockAcquired,
            OpenEvent::BaseAddressRejected("too high".to_string()),
        ],
    );
    assert_eq!(
        effects,
        vec!["Announce(OpeningRawAndAnalysing)", "ReleaseLock"]
    );
    assert_eq!(
        failure(next),
        ToolError::InvalidParams("too high".to_string())
    );
}

#[test]
fn a_refused_lock_ends_the_open() {
    let (effects, next) = drive(
        started(request("/d/a.i64"), &["/d/a.i64"]),
        vec![OpenEvent::LockRefused(ToolError::DatabaseLocked(
            "pid 7".to_string(),
        ))],
    );
    assert!(effects.is_empty());
    assert_eq!(failure(next), ToolError::DatabaseLocked("pid 7".to_string()));
}

#[test]
fn stale_locks_are_cleaned_on_request() {
    let mut forced = request("/d/a.bin");
    forced.force = true;
    let (effects, next) = drive(started(forced, &["/d/a.bin"]), Vec::new());
    assert_eq!(
        effects,
        vec!["CleanStaleLocks { paths: [\"/d/a.bin.i64\", \"/d/a.bin\"] }"]
    );
    match next {
        OpenNext::Ask(OpenQuery::AcquireLock { path }) => assert_eq!(path, "/d/a.bin.i64"),
        other => panic!("{other:?}"),
    }
}

#[test]
fn a_candidate_is_looked_at_without_saving() {
    let (_, next) = drive(
        started(request("/d/a.bin"), &["/d/a.bin", "/d/a.bin.i64"]),
        vec![OpenEvent::LockAcquired],
    );
    match next {
        OpenNext::Ask(OpenQuery::OpenExisting { path, save, .. }) => {
            assert_eq!(path, "/d/a.bin.i64");
            assert!(!save);
        }
        other => panic!("{other:?}"),
    }
}

#[test]
fn a_candidate_with_the_hash_of_the_input_is_reused() {
    let (effects, next) = drive(
        started(request("/d/a.bin"), &["/d/a.bin", "/d/a.bin.i64"]),
        judged(INPUT_HASH, "/elsewhere"),
    );
    assert_eq!(effects, vec!["CloseCandidate", "Announce(OpeningExisting)"]);
    match next {
        OpenNext::Ask(OpenQuery::OpenExisting { path, save, .. }) => {
            assert_eq!(path, "/d/a.bin.i64");
            assert!(save);
        }
        other => panic!("{other:?}"),
    }
}

#[test]
fn a_reused_database_is_never_removed() {
    let mut events = judged(INPUT_HASH, "/elsewhere");
    events.push(OpenEvent::Opened);
    events.push(cancelled());
    let (effects, _) = drive(
        started(request("/d/a.bin"), &["/d/a.bin", "/d/a.bin.i64"]),
        events,
    );
    assert_eq!(
        effects,
        vec![
            "CloseCandidate",
            "Announce(OpeningExisting)",
            "CloseDatabase",
            "ReleaseLock"
        ]
    );
}

#[test]
fn a_stale_candidate_is_refused_and_kept() {
    let run = |hash, expanded: &str, rebuild| {
        let mut request = request("/d/a.bin");
        request.rebuild = rebuild;
        let (effects, next) = drive(
            started(request, &["/d/a.bin", "/d/a.bin.i64"]),
            judged(hash, expanded),
        );
        assert_eq!(effects, vec!["CloseCandidate", "ReleaseLock"]);
        failure(next)
    };
    assert_eq!(
        run(OTHER_HASH, "/d/a.bin", false),
        ToolError::InvalidParams("/d/a.bin.i64 was created from this input path, but its recorded SHA-256 does not match the current file; retry with rebuild=true to replace stale analysis".to_string())
    );
    assert_eq!(
        run(NO_HASH, "/d/a.bin", false),
        ToolError::InvalidParams("/d/a.bin.i64 has no recorded input SHA-256 and cannot be reused automatically; retry with rebuild=true to replace it because its recorded input path matches".to_string())
    );
    assert_eq!(
        run(OTHER_HASH, "/d/b.bin", false),
        ToolError::InvalidParams("refusing to reuse /d/a.bin.i64 because it is not provenance-matched to /d/a.bin; choose a different idb_out or remove the candidate after verifying it".to_string())
    );
    assert_eq!(
        run(OTHER_HASH, "/d/b.bin", true),
        ToolError::InvalidParams("refusing to overwrite /d/a.bin.i64 because it is not provenance-matched to /d/a.bin; choose a different idb_out or remove the candidate after verifying it".to_string())
    );
}

#[test]
fn a_rebuild_overwrites_a_candidate_of_the_same_input() {
    let mut request = request("/d/a.bin");
    request.rebuild = true;
    request.auto_analyse = false;
    let (effects, next) = drive(
        started(request, &["/d/a.bin", "/d/a.bin.i64"]),
        judged(OTHER_HASH, "/d/a.bin"),
    );
    assert_eq!(effects, vec!["CloseCandidate", "Announce(OpeningRaw)"]);
    match next {
        OpenNext::Ask(OpenQuery::OpenRaw(raw)) => {
            assert_eq!(raw.output, "/d/a.bin.i64");
            assert!(!raw.auto_analyse);
        }
        other => panic!("{other:?}"),
    }
}

#[test]
fn a_candidate_without_a_recorded_path_is_judged_by_its_hash() {
    let (_, next) = drive(
        started(request("/d/a.bin"), &["/d/a.bin", "/d/a.bin.i64"]),
        vec![
            OpenEvent::LockAcquired,
            OpenEvent::Opened,
            OpenEvent::Provenance {
                hash: INPUT_HASH,
                path: " \0".to_string(),
            },
            OpenEvent::NotCancelled,
            OpenEvent::InputHashed(INPUT_HASH),
        ],
    );
    assert!(matches!(
        next,
        OpenNext::Ask(OpenQuery::OpenExisting { save: true, .. })
    ));
}

#[test]
fn an_unreadable_candidate_is_neither_reused_nor_overwritten() {
    let (effects, next) = drive(
        started(request("/d/a.bin"), &["/d/a.bin", "/d/a.bin.i64"]),
        vec![OpenEvent::LockAcquired, open_error(true), open_error(false)],
    );
    assert_eq!(effects, vec!["ReleaseLock"]);
    assert_eq!(
        failure(next),
        ToolError::OpenFailed("refusing to reuse or overwrite /d/a.bin.i64 because its input provenance could not be read: no license".to_string())
    );

    let unreadable = ToolError::OpenFailed("failed to read input".to_string());
    let (effects, next) = drive(
        started(request("/d/a.bin"), &["/d/a.bin", "/d/a.bin.i64"]),
        vec![
            OpenEvent::LockAcquired,
            OpenEvent::Opened,
            OpenEvent::Provenance {
                hash: INPUT_HASH,
                path: String::new(),
            },
            OpenEvent::NotCancelled,
            OpenEvent::InputUnreadable(unreadable.clone()),
        ],
    );
    assert_eq!(effects, vec!["CloseCandidate", "ReleaseLock"]);
    assert_eq!(failure(next), unreadable);
}

fn raw_target(bitness: Option<Bitness>, entry_point: Option<u64>) -> OpenRequest {
    let mut request = request("/d/a.bin");
    request.raw_target.bitness = bitness;
    request.raw_target.entry_point = entry_point;
    request
}

#[test]
fn raw_options_are_set_before_analysis() {
    let (_, next) = drive(
        started(
            raw_target(Some(Bitness::Bits32), Some(0x401000)),
            &["/d/a.bin"],
        ),
        vec![
            OpenEvent::LockAcquired,
            OpenEvent::Opened,
            OpenEvent::BitnessSet {
                refused: None,
                is_64bit: false,
                is_32bit_exactly: true,
            },
            OpenEvent::EntryPointProbed {
                in_segment: true,
                start: None,
            },
            OpenEvent::EntryPointSet(true),
            OpenEvent::StartAddress(Some(0x401000)),
        ],
    );
    assert!(matches!(next, OpenNext::Ask(OpenQuery::WaitForAnalysis)));

    let (_, next) = drive(
        started(raw_target(None, Some(0x401000)), &["/d/a.bin"]),
        vec![
            OpenEvent::LockAcquired,
            OpenEvent::Opened,
            OpenEvent::EntryPointProbed {
                in_segment: true,
                start: Some(0x401000),
            },
            OpenEvent::StartAddress(Some(0x401000)),
            OpenEvent::AnalysisEnded(false),
        ],
    );
    assert_eq!(
        failure(next),
        ToolError::OpenFailed(
            "IDA auto-analysis did not complete after raw target configuration".to_string()
        )
    );
}

#[test]
fn an_entry_point_must_be_taken_and_kept() {
    let run = |events: Vec<OpenEvent>| {
        let mut all = vec![OpenEvent::LockAcquired, OpenEvent::Opened];
        all.extend(events);
        let (effects, next) = drive(started(raw_target(None, Some(0x10)), &["/d/a.bin"]), all);
        assert!(effects[effects.len() - 1].starts_with("RemoveArtifacts"));
        failure(next)
    };
    let probed = |in_segment| OpenEvent::EntryPointProbed {
        in_segment,
        start: None,
    };
    assert_eq!(
        run(vec![probed(false)]),
        ToolError::OpenFailed("raw entry point 0x10 is outside every loaded segment".to_string())
    );
    assert_eq!(
        run(vec![probed(true), OpenEvent::EntryPointSet(false)]),
        ToolError::OpenFailed("IDA refused raw entry point 0x10".to_string())
    );
    assert_eq!(
        run(vec![
            probed(true),
            OpenEvent::EntryPointSet(true),
            OpenEvent::StartAddress(Some(0x20))
        ]),
        ToolError::OpenFailed("IDA did not retain requested raw entry point 0x10".to_string())
    );
}

#[test]
fn the_address_size_must_be_taken_and_kept() {
    assert_eq!(configure_raw_bitness(Bitness::Bits16, None, false, false), Ok(()));
    assert_eq!(configure_raw_bitness(Bitness::Bits64, None, true, false), Ok(()));
    assert_eq!(
        configure_raw_bitness(Bitness::Bits32, Some(0x1000), false, true),
        Err(ToolError::OpenFailed(
            "failed to set 32-bit addressing for segment at 0x1000".to_string()
        ))
    );
    assert_eq!(
        configure_raw_bitness(Bitness::Bits32, None, true, false),
        Err(ToolError::OpenFailed(
            "IDA reported 64-bit after requesting 32-bit raw input mode".to_string()
        ))
    );
}

#[test]
fn requested_debug_info_is_reported() {
    let run = |path: &str, debug_info_path: Option<&str>, events: Vec<OpenEvent>| {
        let mut request = request(path);
        request.load_debug_info = true;
        request.debug_info_path = debug_info_path.map(|path| path.to_string());
        let mut all = vec![
            OpenEvent::LockAcquired,
            OpenEvent::Opened,
            OpenEvent::NotCancelled,
            OpenEvent::NotCancelled,
        ];
        all.extend(events);
        all.push(OpenEvent::NotCancelled);
        match drive(started(request, &[path]), all).1 {
            OpenNext::Done { debug_info, .. } => {
                let load = debug_info.expect("debug info");
                (load.path, load.loaded, load.error)
            }
            other => panic!("{other:?}"),
        }
    };
    assert_eq!(
        run(
            "/d/app.i64",
            Some("  "),
            vec![OpenEvent::DebugInfoProbed(false)]
        ),
        (
            "/d/app.dSYM/Contents/Resources/DWARF/app".to_string(),
            false,
            Some("debug info not found".to_string())
        )
    );
    assert_eq!(
        run(
            "/d/app",
            Some(" /x.dbg "),
            vec![
                OpenEvent::DebugInfoProbed(true),
                OpenEvent::DebugInfoLoaded(true)
            ]
        ),
        ("/x.dbg".to_string(), true, None)
    );
    assert_eq!(
        run(
            "/d/app",
            None,
            vec![
                OpenEvent::DebugInfoProbed(true),
                OpenEvent::DebugInfoLoaded(false)
            ]
        ),
        (
            "/d/app.dSYM/Contents/Resources/DWARF/app".to_string(),
            false,
            Some("load returned false".to_string())
        )
    );
    assert_eq!(
        run(
            "/d/app",
            None,
            vec![
                OpenEvent::DebugInfoProbed(true),
                OpenEvent::DebugInfoFailed("bad dwarf".to_string())
            ]
        )
        .2,
        Some("bad dwarf".to_string())
    );
}

#[test]
fn a_sibling_dsym_is_loaded_quietly() {
    let dsym = "/d/app.dSYM/Contents/Resources/DWARF/app";
    let (effects, next) = drive(
        started(request("/d/app"), &["/d/app", dsym]),
        vec![
            OpenEvent::LockAcquired,
            OpenEvent::Opened,
            OpenEvent::NotCancelled,
            OpenEvent::NotCancelled,
            OpenEvent::DebugInfoFailed("bad dwarf".to_string()),
            OpenEvent::NotCancelled,
        ],
    );
    assert_eq!(
        effects,
        vec![
            "Announce(OpeningRawAndAnalysing)",
            "Announce(Analysing)",
            "Announce(LoadingDsym)",
            "KeepOpen"
        ]
    );
    match next {
        OpenNext::Done { path, debug_info } => {
            assert_eq!(path, "/d/app.i64");
            assert!(debug_info.is_none());
        }
        other => panic!("{other:?}"),
    }
}

#[test]
fn bad_requests_are_refused_before_anything_is_touched() {
    assert_eq!(
        refusal(request("/d/none"), &[]),
        ToolError::InvalidPath("File not found: /d/none".to_string())
    );

    let mut database = request("/d/a.i64");
    database.raw_target.entry_point = Some(0);
    assert_eq!(
        refusal(database, &["/d/a.i64"]),
        ToolError::InvalidParams("processor, bitness, base_address, and entry_point apply only to a newly-created raw-input database".to_string())
    );

    let mut unaligned = request("/d/a.bin");
    unaligned.raw_target.base_address = Some(0x1008);
    assert_eq!(
        refusal(unaligned, &["/d/a.bin"]),
        ToolError::InvalidParams("raw base address 0x1008 must be 16-byte aligned".to_string())
    );

    let mut elsewhere = request("/d/a.bin");
    elsewhere.idb_out = Some("/d/out".to_string());
    assert_eq!(
        refusal(elsewhere, &["/d/a.bin"]),
        ToolError::InvalidParams("idb_out must end in .i64 or .idb: /d/out".to_string())
    );

    assert_eq!(
        refusal(
            raw_target(Some(Bitness::Bits64), None),
            &["/d/a.bin", "/d/a.bin.i64"]
        ),
        ToolError::InvalidParams("raw target options cannot change an existing database; set rebuild=true to recreate it".to_string())
    );
}

#[test]
fn a_second_open_gets_the_open_database_or_none() {
    let open = |path: &str, current: &str| {
        handle_open(
            request(path),
            None,
            Some(current.to_string()),
            &files(&[]),
            &facts(),
        )
    };
    assert!(matches!(
        open("/d/a.bin", "/d/a.bin.i64"),
        OpenStart::AlreadyOpen(path) if path == "/d/a.bin.i64"
    ));
    assert!(matches!(
        open("/d/b.bin", "/d/a.bin.i64"),
        OpenStart::Refused(ToolError::DatabaseAlreadyOpen(path)) if path == "/d/a.bin.i64"
    ));
    assert!(matches!(
        handle_open(
            request("/d/a.bin"),
            Some(ToolError::Cancelled("stop".to_string())),
            Some("/d/a.bin.i64".to_string()),
            &files(&[]),
            &facts(),
        ),
        OpenStart::Refused(ToolError::Cancelled(text)) if text == "stop"
    ));
}

#[test]
fn an_open_looks_at_its_input_its_output_and_the_dsym_bundle() {
    assert_eq!(
        open_inspection_paths(&request("/d/app")),
        vec![
            "/d/app",
            "/d/app.i64",
            "/d/app.id0",
            "/d/app.id1",
            "/d/app.id2",
            "/d/app.nam",
            "/d/app.til",
            "/d/app.dSYM/Contents/Resources/DWARF/app",
        ]
    );
}

#[test]
fn an_outcome_that_was_not_asked_for_is_not_accepted() {
    let (session, _) = started(request("/d/a.i64"), &["/d/a.i64"]);
    assert!(session.accepts(&OpenEvent::LockAcquired));
    assert!(!session.accepts(&OpenEvent::Opened));
    assert!(!session.accepts(&OpenEvent::NotCancelled));
    let turn = session.advance(OpenEvent::LockRefused(ToolError::NoDatabaseOpen));
    assert!(!turn.session.accepts(&OpenEvent::LockAcquired));
}

#[test]
fn progress_is_announced_in_words() {
    assert_eq!(
        OpenProgress::OpeningRawAndAnalysing.message(),
        "Opening raw binary and waiting for initial auto-analysis"
    );
    assert_eq!(OpenProgress::OpeningRawAndAnalysing.phase(), "opening");
    assert_eq!(OpenProgress::Analysing.phase(), "analyzing");
    assert_eq!(
        OpenProgress::LoadingDsym.message(),
        "Loading sibling dSYM debug information"
    );
    assert_eq!(OpenProgress::LoadingDsym.phase(), "loading_debug_info");
    assert!(matches!(
        OpenEffect::<Vec<String>>::Announce(OpenProgress::OpeningRaw),
        OpenEffect::Announce(progress) if progress.message() == "Opening raw binary"
    ));
}

#[test]
fn a_raw_input_and_its_database_ask_for_the_same_lock() {
    let lock = |path: &str| match drive(started(request(path), &[path]), Vec::new()).1 {
        OpenNext::Ask(OpenQuery::AcquireLock { path }) => path,
        other => panic!("{other:?}"),
    };
    assert_eq!(lock("/d/a.bin"), "/d/a.bin.i64");
    assert_eq!(lock("/d/a.bin"), lock("/d/a.bin.i64"));
}

#[test]
fn what_was_opened_is_found_open_again() {
    for path in ["/d/a.bin", "/d/a.i64", "/d/a.id0"] {
        let opened = match drive(
            started(request(path), &[path]),
            vec![
                OpenEvent::LockAcquired,
                OpenEvent::Opened,
                OpenEvent::NotCancelled,
                OpenEvent::NotCancelled,
            ],
        )
        .1
        {
            OpenNext::Done { path, .. } => path,
            other => panic!("{other:?}"),
        };
        assert!(matches!(
            handle_open(request(path), None, Some(opened), &files(&[]), &facts()),
            OpenStart::AlreadyOpen(_)
        ));
    }
}

#[test]
fn a_start_depends_on_the_inspected_paths_only() {
    let names = |paths: &[&str]| {
        let (effects, next) = drive(started(request("/d/app"), paths), Vec::new());
        (effects, format!("{next:?}"))
    };
    assert_eq!(
        names(&["/d/app"]),
        names(&["/d/other", "/d/app", "/d/app.idb", "/d/unrelated.nam"])
    );
}

#[test]
fn a_windows_input_is_opened_into_its_output() {
    let mut windows = request("C:\\d\\app");
    windows.style = PathStyle::Windows;
    assert_eq!(
        open_inspection_paths(&windows),
        vec![
            "C:\\d\\app",
            "C:\\d\\app.i64",
            "C:\\d\\app.id0",
            "C:\\d\\app.id1",
            "C:\\d\\app.id2",
            "C:\\d\\app.nam",
            "C:\\d\\app.til",
            "C:\\d\\app.dSYM\\Contents\\Resources\\DWARF\\app",
        ]
    );
    let again = windows.clone();
    let (_, next) = drive(
        started(windows, &["C:\\d\\app"]),
        vec![OpenEvent::LockAcquired],
    );
    match next {
        OpenNext::Ask(OpenQuery::OpenRaw(raw)) => assert_eq!(raw.output, "C:\\d\\app.i64"),
        other => panic!("{other:?}"),
    }
    assert!(matches!(
        handle_open(
            again,
            None,
            Some("c:/d/app.i64".to_string()),
            &files(&[]),
            &facts()
        ),
        OpenStart::AlreadyOpen(_)
    ));
}

#[test]
fn an_open_that_fails_never_keeps_the_database() {
    let (effects, next) = drive(
        started(request("/d/a.i64"), &["/d/a.i64"]),
        vec![OpenEvent::LockAcquired, OpenEvent::Opened, cancelled()],
    );
    assert!(matches!(next, OpenNext::Failed(_)));
    assert!(!effects.contains(&"KeepOpen".to_string()));
}
