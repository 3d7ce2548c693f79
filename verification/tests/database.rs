use ida_mcp::database::{
    base_input_path_for_database, database_artifact_paths, database_bitness, database_paths_match,
    dsym_expected_path_for_binary, dsym_path_for_binary, existing_idb_for_raw_binary,
    existing_idb_for_raw_open, existing_raw_idb_action, has_ida_database_extension,
    idb_path_for_raw_binary, ida_database_output_exists, init_database_args, non_empty_trimmed,
    recorded_input_path_matches, unpacked_id0_path, ExistingRawIdbAction,
};
use ida_mcp::digest::{sha256_file, InputHasher, InputRead};
use ida_mcp::error::ToolError;
use ida_mcp::files::{paths_refer_to_same_file, EntryKind, FileFacts, PathFact};
use ida_mcp::output::{output_parent, validate_raw_idb_output, OutputFacts, ParentState};
use ida_mcp::path::PathStyle;

const UNIX: PathStyle = PathStyle::Unix;

fn found(entries: &[(&str, EntryKind)]) -> FileFacts {
    FileFacts {
        entries: entries
            .iter()
            .map(|(path, kind)| PathFact {
                path: path.to_string(),
                kind: *kind,
            })
            .collect(),
    }
}

fn output_facts(input: &str, output: Option<&str>, parent: ParentState) -> OutputFacts {
    OutputFacts {
        input_canonical: Some(input.to_string()),
        output_canonical: output.map(|output| output.to_string()),
        parent,
    }
}

#[test]
fn empty_optional_open_strings_are_ignored() {
    assert_eq!(non_empty_trimmed(None), None);
    assert_eq!(non_empty_trimmed(Some("")), None);
    assert_eq!(non_empty_trimmed(Some("  \t  ")), None);
    assert_eq!(non_empty_trimmed(Some(" pe ")), Some("pe"));
}

#[test]
fn init_database_args_preserves_user_args() {
    let args = init_database_args(&["-Sscript.py".to_string(), "-Tpe".to_string()]);
    assert!(args.iter().any(|arg| arg == "-Sscript.py"));
    assert!(args.iter().any(|arg| arg == "-Tpe"));
}

#[test]
fn database_paths_match_treats_packed_and_unpacked_as_same_database() {
    let packed = "/tmp/sample.i64";
    let unpacked = "/tmp/sample.id0";
    let legacy = "/tmp/sample.idb";
    let packed_upper = "/tmp/sample.I64";

    assert!(database_paths_match(UNIX, packed, unpacked));
    assert!(database_paths_match(UNIX, unpacked, packed));
    assert!(database_paths_match(UNIX, legacy, unpacked));
    assert!(database_paths_match(UNIX, unpacked, legacy));
    assert!(database_paths_match(UNIX, packed_upper, unpacked));
    assert!(!database_paths_match(UNIX, packed, legacy));
}

#[test]
fn database_paths_match_treats_raw_input_and_generated_i64_as_same_database() {
    let raw = "/tmp/testA.exe";
    let generated = "/tmp/testA.exe.i64";
    let replaced_extension = "/tmp/testA.i64";

    assert!(database_paths_match(UNIX, generated, raw));
    assert!(database_paths_match(UNIX, raw, generated));
    assert!(!database_paths_match(UNIX, raw, replaced_extension));
}

#[test]
fn has_ida_database_extension_only_matches_real_database_extensions() {
    assert!(has_ida_database_extension(UNIX, "/tmp/a.i64"));
    assert!(has_ida_database_extension(UNIX, "/tmp/a.IDB"));
    assert!(!has_ida_database_extension(UNIX, "/tmp/a.exe"));
}

#[test]
fn idb_path_for_raw_binary_appends_i64_to_full_path() {
    assert_eq!(idb_path_for_raw_binary("/tmp/sample"), "/tmp/sample.i64");
    assert_eq!(
        idb_path_for_raw_binary("/tmp/com.apple.driver.AppleDAPF"),
        "/tmp/com.apple.driver.AppleDAPF.i64"
    );
    assert_eq!(
        idb_path_for_raw_binary("/tmp/kernelcache.release.iphone"),
        "/tmp/kernelcache.release.iphone.i64"
    );
}

#[test]
fn base_input_path_for_database_strips_supported_database_extensions() {
    assert_eq!(base_input_path_for_database(UNIX, "/tmp/sample.i64"), "/tmp/sample");
    assert_eq!(base_input_path_for_database(UNIX, "/tmp/sample.idb"), "/tmp/sample");
    assert_eq!(base_input_path_for_database(UNIX, "/tmp/sample.id0"), "/tmp/sample");
    assert_eq!(
        base_input_path_for_database(UNIX, "/tmp/sample.bin"),
        "/tmp/sample.bin"
    );
}

#[test]
fn init_database_args_injects_non_interactive_flag_once() {
    let args = init_database_args(&[]);
    assert_eq!(args, vec!["-A".to_string()]);

    let args = init_database_args(&["-A".to_string(), "-Tpe".to_string()]);
    assert_eq!(args.iter().filter(|arg| arg.as_str() == "-A").count(), 1);
}

#[test]
fn existing_raw_idb_requires_hash_match_for_reuse() {
    let input_hash = [0x11; 32];
    let other_hash = [0x22; 32];
    let missing_hash = [0; 32];

    assert_eq!(
        existing_raw_idb_action(false, &input_hash, &input_hash, false),
        Some(ExistingRawIdbAction::Reuse)
    );
    assert_eq!(
        existing_raw_idb_action(false, &other_hash, &input_hash, true),
        None,
        "recorded path alone must not authorize automatic reuse"
    );
    assert_eq!(
        existing_raw_idb_action(false, &missing_hash, &input_hash, true),
        None,
        "missing IDA hashes must never authorize automatic reuse"
    );
}

#[test]
fn rebuild_only_overwrites_provenance_matched_database() {
    let input_hash = [0x11; 32];
    let other_hash = [0x22; 32];
    let missing_hash = [0; 32];

    assert_eq!(
        existing_raw_idb_action(true, &input_hash, &input_hash, false),
        Some(ExistingRawIdbAction::Rebuild)
    );
    assert_eq!(
        existing_raw_idb_action(true, &other_hash, &input_hash, true),
        Some(ExistingRawIdbAction::Rebuild),
        "a recorded input-path match authorizes rebuilding changed input"
    );
    assert_eq!(
        existing_raw_idb_action(true, &missing_hash, &input_hash, true),
        Some(ExistingRawIdbAction::Rebuild)
    );
    assert_eq!(
        existing_raw_idb_action(true, &other_hash, &input_hash, false),
        None
    );
}

#[test]
fn existing_idb_for_raw_binary_detects_generated_database_without_replacing_extension() {
    let raw = "/tmp/ida-mcp-test/testA.exe";
    let generated = "/tmp/ida-mcp-test/testA.exe.i64";
    let replaced_extension = "/tmp/ida-mcp-test/testA.i64";

    let before = found(&[(raw, EntryKind::File), (replaced_extension, EntryKind::File)]);
    assert_eq!(existing_idb_for_raw_binary(UNIX, raw, &before), None);

    let after = found(&[
        (raw, EntryKind::File),
        (replaced_extension, EntryKind::File),
        (generated, EntryKind::File),
    ]);
    assert_eq!(
        existing_idb_for_raw_binary(UNIX, raw, &after),
        Some(generated.to_string())
    );
}

#[test]
fn explicit_idb_out_does_not_reuse_default_generated_database() {
    let raw = "/tmp/ida-mcp-test/dyld_shared_cache_arm64e";
    let generated = "/tmp/ida-mcp-test/dyld_shared_cache_arm64e.i64";
    let explicit = "/tmp/ida-mcp-test/explicit-output.i64";

    let before = found(&[(raw, EntryKind::File), (generated, EntryKind::File)]);
    assert_eq!(existing_idb_for_raw_open(UNIX, raw, Some(explicit), &before), None);

    let after = found(&[
        (raw, EntryKind::File),
        (generated, EntryKind::File),
        (explicit, EntryKind::File),
    ]);
    assert_eq!(
        existing_idb_for_raw_open(UNIX, raw, Some(explicit), &after),
        Some(explicit.to_string())
    );
    assert_eq!(
        existing_idb_for_raw_open(UNIX, raw, None, &before),
        Some(generated.to_string())
    );
}

#[test]
fn explicit_idb_out_detects_an_unpacked_database() {
    let raw = "/tmp/ida-mcp-unpacked/sample.bin";
    let explicit = "/tmp/ida-mcp-unpacked/explicit.i64";
    let unpacked = "/tmp/ida-mcp-unpacked/explicit.id0";
    let files = found(&[(raw, EntryKind::File), (unpacked, EntryKind::File)]);

    assert_eq!(
        existing_idb_for_raw_open(UNIX, raw, Some(explicit), &files),
        Some(explicit.to_string())
    );
}

#[test]
fn recorded_input_path_ignores_a_trailing_c_terminator() {
    let input = "/tmp/ida-mcp-recorded/sample.bin";
    let recorded = format!("{}\0", input);
    assert!(recorded_input_path_matches(
        UNIX,
        input,
        &recorded,
        input,
        &Some(input.to_string()),
        &Some(input.to_string())
    ));
}

#[test]
fn raw_idb_output_requires_safe_database_path() {
    let dir = "/tmp/ida-mcp-validate";
    let raw = format!("{dir}/sample.bin");
    let files = found(&[(raw.as_str(), EntryKind::File)]);
    let writable = output_facts(&raw, None, ParentState::Writable);

    assert!(validate_raw_idb_output(UNIX, &raw, &format!("{dir}/sample.i64"), &files, &writable).is_ok());
    assert!(validate_raw_idb_output(UNIX, &raw, &format!("{dir}/sample.IDB"), &files, &writable).is_ok());
    assert!(validate_raw_idb_output(
        UNIX,
        &raw,
        &raw,
        &files,
        &output_facts(&raw, Some(raw.as_str()), ParentState::Writable)
    )
    .is_err());
    assert!(validate_raw_idb_output(UNIX, &raw, &format!("{dir}/sample.txt"), &files, &writable).is_err());
    assert!(validate_raw_idb_output(
        UNIX,
        &raw,
        &format!("{dir}/missing/sample.i64"),
        &files,
        &output_facts(
            &raw,
            None,
            ParentState::Unavailable("No such file or directory (os error 2)".to_string())
        )
    )
    .is_err());
}

#[test]
fn raw_idb_output_rejects_orphaned_sidecars() {
    let raw = "/tmp/ida-mcp-orphaned/sample.bin";
    let output = "/tmp/ida-mcp-orphaned/sample.i64";
    let files = found(&[
        (raw, EntryKind::File),
        ("/tmp/ida-mcp-orphaned/sample.nam", EntryKind::File),
    ]);

    let error = validate_raw_idb_output(
        UNIX,
        raw,
        output,
        &files,
        &output_facts(raw, None, ParentState::Writable),
    )
    .expect_err("orphaned IDA sidecar must reject a new output");
    assert!(error
        .message()
        .expect("the error has a message")
        .contains("orphaned pre-existing"));
    assert_eq!(
        error,
        ToolError::InvalidParams(
            "idb_out has an orphaned pre-existing database artifact (/tmp/ida-mcp-orphaned/sample.nam); choose another output path or remove the artifact after verifying it"
                .to_string()
        )
    );
}

#[test]
fn input_hash_is_streamed_as_sha256() {
    let abc = [
        0xba, 0x78, 0x16, 0xbf, 0x8f, 0x01, 0xcf, 0xea, 0x41, 0x41, 0x40, 0xde, 0x5d, 0xae, 0x22,
        0x23, 0xb0, 0x03, 0x61, 0xa3, 0x96, 0x17, 0x7a, 0x9c, 0xb4, 0x10, 0xff, 0x61, 0xf2, 0x00,
        0x15, 0xad,
    ];
    let (hasher, more) = InputHasher::new().absorb(b"abc");
    assert!(more);
    let (hasher, more) = hasher.absorb(b"");
    assert!(!more);
    assert_eq!(
        sha256_file("/tmp/sample.bin", InputRead::Complete(hasher)).expect("hash input"),
        abc
    );

    let (hasher, _) = InputHasher::new().absorb(b"a");
    let (hasher, _) = hasher.absorb(b"bc");
    assert_eq!(hasher.taken(), 3);
    assert_eq!(hasher.finish(), abc);
}

#[test]
fn empty_input_has_the_hash_of_nothing() {
    assert_eq!(
        InputHasher::new().finish(),
        [
            0xe3, 0xb0, 0xc4, 0x42, 0x98, 0xfc, 0x1c, 0x14, 0x9a, 0xfb, 0xf4, 0xc8, 0x99, 0x6f,
            0xb9, 0x24, 0x27, 0xae, 0x41, 0xe4, 0x64, 0x9b, 0x93, 0x4c, 0xa4, 0x95, 0x99, 0x1b,
            0x78, 0x52, 0xb8, 0x55,
        ]
    );
}

#[test]
fn an_unreadable_input_is_reported_with_its_path() {
    assert_eq!(
        sha256_file("/tmp/x", InputRead::Unopened("no such file".to_string())),
        Err(ToolError::OpenFailed(
            "failed to read input for SHA-256 verification (/tmp/x): no such file".to_string()
        ))
    );
    assert_eq!(
        sha256_file("/tmp/x", InputRead::Failed("is a directory".to_string())),
        Err(ToolError::OpenFailed(
            "failed while hashing input (/tmp/x): is a directory".to_string()
        ))
    );
}

#[test]
fn each_unsafe_output_is_refused_for_its_own_reason() {
    let raw = "/d/sample.bin";
    let files = found(&[
        (raw, EntryKind::File),
        ("/d/dir.i64", EntryKind::Other),
        ("/d/parts.id0", EntryKind::Other),
        ("/d/taken.i64", EntryKind::File),
        ("/d/taken.nam", EntryKind::File),
    ]);
    let check = |output: &str, canonical: Option<&str>, parent: ParentState| {
        validate_raw_idb_output(UNIX, raw, output, &files, &output_facts(raw, canonical, parent))
    };
    let params = |text: &str| Err(ToolError::InvalidParams(text.to_string()));
    let path = |text: &str| Err(ToolError::InvalidPath(text.to_string()));

    assert_eq!(
        check("/d/out", None, ParentState::Writable),
        params("idb_out must end in .i64 or .idb: /d/out")
    );
    assert_eq!(
        check("/d/out.id0", None, ParentState::Writable),
        params("idb_out must end in .i64 or .idb: /d/out.id0")
    );
    assert_eq!(
        check("/d/link.i64", Some(raw), ParentState::Writable),
        params("idb_out must not refer to the raw input file")
    );
    assert_eq!(
        check("/d/dir.i64", Some("/d/dir.i64"), ParentState::Writable),
        path("idb_out is not a file: /d/dir.i64")
    );
    assert_eq!(
        check("/d/parts.i64", None, ParentState::Writable),
        path("unpacked idb_out artifact is not a file: /d/parts.id0")
    );
    assert_eq!(
        check("/d/new.i64", None, ParentState::Unavailable("gone".to_string())),
        path("idb_out parent is unavailable (/d): gone")
    );
    assert_eq!(
        check("/d/new.i64", None, ParentState::NotDirectory),
        path("idb_out parent is not a directory: /d")
    );
    assert_eq!(
        check("/d/new.i64", None, ParentState::ReadOnly),
        path("idb_out parent is read-only: /d")
    );
    assert_eq!(
        check("/d/taken.i64", Some("/d/taken.i64"), ParentState::Writable),
        Ok(())
    );
    assert_eq!(output_parent(UNIX, "new.i64"), ".");
    assert_eq!(output_parent(UNIX, "/new.i64"), "/");
}

#[test]
fn dsym_bundles_are_looked_for_beside_the_binary() {
    let expected = "/tmp/app.dSYM/Contents/Resources/DWARF/app";
    assert_eq!(
        dsym_expected_path_for_binary(UNIX, "/tmp/app"),
        Some(expected.to_string())
    );
    assert_eq!(dsym_expected_path_for_binary(UNIX, "/"), None);
    assert_eq!(dsym_expected_path_for_binary(UNIX, ".."), None);
    assert_eq!(dsym_path_for_binary(UNIX, "/tmp/app", &found(&[])), None);
    assert_eq!(
        dsym_path_for_binary(UNIX, "/tmp/app", &found(&[(expected, EntryKind::Other)])),
        Some(expected.to_string())
    );
}

#[test]
fn a_database_consists_of_its_packed_file_and_its_parts() {
    assert_eq!(
        database_artifact_paths(UNIX, "/tmp/a.i64"),
        vec![
            "/tmp/a.i64",
            "/tmp/a.id0",
            "/tmp/a.id1",
            "/tmp/a.id2",
            "/tmp/a.nam",
            "/tmp/a.til",
        ]
    );
}

#[test]
fn only_packed_databases_have_an_unpacked_form() {
    assert_eq!(unpacked_id0_path(UNIX, "/tmp/a.I64"), Some("/tmp/a.id0".to_string()));
    assert_eq!(unpacked_id0_path(UNIX, "/tmp/a.idb"), Some("/tmp/a.id0".to_string()));
    assert_eq!(unpacked_id0_path(UNIX, "/tmp/a.id0"), None);
    assert_eq!(unpacked_id0_path(UNIX, "/tmp/a"), None);
    assert_eq!(unpacked_id0_path(UNIX, "/tmp/.i64"), None);
}

#[test]
fn an_output_exists_packed_or_unpacked() {
    let packed = found(&[("/tmp/a.i64", EntryKind::File)]);
    let unpacked = found(&[("/tmp/a.id0", EntryKind::File)]);
    assert!(ida_database_output_exists(UNIX, "/tmp/a.i64", &packed));
    assert!(ida_database_output_exists(UNIX, "/tmp/a.i64", &unpacked));
    assert!(!ida_database_output_exists(UNIX, "/tmp/b.i64", &unpacked));
}

#[test]
fn a_generated_database_leads_back_to_its_input() {
    let generated = idb_path_for_raw_binary("/tmp/sample.exe");
    assert_eq!(base_input_path_for_database(UNIX, &generated), "/tmp/sample.exe");
}

#[test]
fn files_are_the_same_by_their_canonical_forms() {
    let canonical = |path: &str| Some(path.to_string());
    assert!(paths_refer_to_same_file(
        UNIX,
        "/a",
        "/b",
        &canonical("/c"),
        &canonical("/c")
    ));
    assert!(!paths_refer_to_same_file(
        UNIX,
        "/a",
        "/a",
        &canonical("/c"),
        &canonical("/d")
    ));
    assert!(paths_refer_to_same_file(UNIX, "/a/./b", "/a/b/", &None, &canonical("/d")));
    assert!(!paths_refer_to_same_file(UNIX, "/a", "/b", &None, &None));
}

#[test]
fn a_recorded_path_of_padding_matches_nothing() {
    assert!(!recorded_input_path_matches(UNIX, "/a", " \0\0 ", "", &None, &None));
    assert!(!recorded_input_path_matches(UNIX, "", " \0\0 ", "", &None, &None));
    assert!(!recorded_input_path_matches(UNIX, "/a", "/b\0", "/b", &None, &None));
}

#[test]
fn bitness_falls_back_to_sixteen_bits() {
    assert_eq!(database_bitness(true, false), 64);
    assert_eq!(database_bitness(true, true), 64);
    assert_eq!(database_bitness(false, true), 32);
    assert_eq!(database_bitness(false, false), 16);
}

#[test]
fn windows_databases_are_told_by_their_file_names() {
    let windows = PathStyle::Windows;
    assert!(has_ida_database_extension(windows, "C:\\d\\a.I64"));
    assert!(!has_ida_database_extension(windows, "C:\\d\\.i64"));
    assert!(database_paths_match(windows, "C:\\d\\a.i64", "C:/d/a.id0"));
    assert_eq!(output_parent(windows, "C:\\d\\o.i64"), "C:\\d");
    assert_eq!(output_parent(windows, "o.i64"), ".");
    assert_eq!(
        dsym_expected_path_for_binary(windows, "C:\\d\\app"),
        Some("C:\\d\\app.dSYM\\Contents\\Resources\\DWARF\\app".to_string())
    );
}

#[test]
fn verbatim_windows_paths_name_databases_by_their_file_names() {
    let windows = PathStyle::Windows;
    assert_eq!(unpacked_id0_path(windows, "\\\\?\\UNC\\s\\h.i64"), None);
    assert_eq!(
        unpacked_id0_path(windows, "\\\\?\\UNC\\s\\h\\a.i64"),
        Some("\\\\?\\UNC\\s\\h\\a.id0".to_string())
    );
    assert!(database_paths_match(
        windows,
        "\\\\?\\c:\\x",
        "\\\\?\\C:\\x"
    ));
    assert!(paths_refer_to_same_file(
        windows,
        "\\\\?\\c:\\x",
        "\\\\?\\C:\\x",
        &None,
        &None
    ));
    assert_eq!(
        dsym_expected_path_for_binary(windows, "\\\\?\\C:\\\\d\\app"),
        Some("\\\\?\\C:\\d\\app.dSYM\\Contents\\Resources\\DWARF\\app".to_string())
    );
}
