//! Rules for IDA databases and the files that belong to them.

use crate::files;
use crate::files::{paths_refer_to_same_file, EntryKind, FileFacts};
use crate::path;
use crate::path::{
    path_file_name, path_has_extension, path_join, path_with_extension, paths_equal, PathStyle,
};
use crate::text;
use crate::text::{concat2, text_eq, trim_padding};
use vstd::prelude::*;
use vstd::string::*;

verus! {

/// The bitness of a database: 64 where IDA says so, 32 where it says exactly that, else 16.
pub fn database_bitness(is_64bit: bool, is_32bit_exactly: bool) -> (bits: u32)
    ensures
        bits == if is_64bit {
            64u32
        } else if is_32bit_exactly {
            32u32
        } else {
            16u32
        },
{
    if is_64bit {
        64
    } else if is_32bit_exactly {
        32
    } else {
        16
    }
}

/// The path of the DWARF file in the dSYM bundle beside `path`.
pub open spec fn dsym_expected(style: PathStyle, path: Seq<char>) -> Option<Seq<char>> {
    match path::file_name(style, path) {
        Some(name) => {
            let contents = path::joined(style, path + ".dSYM"@, "Contents"@);
            let resources = path::joined(style, contents, "Resources"@);
            let dwarf = path::joined(style, resources, "DWARF"@);
            Some(path::joined(style, dwarf, name))
        },
        None => None,
    }
}

/// The path of the DWARF file in the dSYM bundle beside `path`, whether or not it exists.
pub fn dsym_expected_path_for_binary(style: PathStyle, path: &str) -> (r: Option<String>)
    ensures
        r.deep_view() == dsym_expected(style, path@),
{
    match path_file_name(style, path) {
        Some(name) => {
            let root = concat2(path, ".dSYM");
            let contents = path_join(style, root.as_str(), "Contents");
            let resources = path_join(style, contents.as_str(), "Resources");
            let dwarf = path_join(style, resources.as_str(), "DWARF");
            Some(path_join(style, dwarf.as_str(), name))
        },
        None => None,
    }
}

/// `candidate` where it exists.
pub open spec fn if_present(
    candidate: Option<Seq<char>>,
    files: spec_fn(Seq<char>) -> EntryKind,
) -> Option<Seq<char>> {
    match candidate {
        Some(found) if files(found) != EntryKind::Missing => Some(found),
        _ => None,
    }
}

/// The path of the DWARF file in the dSYM bundle beside `path`, where it exists.
pub fn dsym_path_for_binary(style: PathStyle, path: &str, files: &FileFacts) -> (r: Option<String>)
    ensures
        r.deep_view() == if_present(dsym_expected(style, path@), files@),
{
    match dsym_expected_path_for_binary(style, path) {
        Some(found) => if files.has_entry(found.as_str()) {
            Some(found)
        } else {
            None
        },
        None => None,
    }
}

/// Whether `path` names a packed database: `.i64` or `.idb`, in any case.
pub open spec fn is_packed(style: PathStyle, path: Seq<char>) -> bool {
    path::has_extension(style, path, "i64"@) || path::has_extension(style, path, "idb"@)
}

/// Whether `path` names a database, packed or unpacked: `.i64`, `.idb` or `.id0`, in any case.
pub open spec fn is_database(style: PathStyle, path: Seq<char>) -> bool {
    is_packed(style, path) || path::has_extension(style, path, "id0"@)
}

/// The first file of the unpacked form of a packed database.
pub open spec fn unpacked_id0(style: PathStyle, path: Seq<char>) -> Option<Seq<char>> {
    if is_packed(style, path) {
        Some(path::with_extension(style, path, "id0"@))
    } else {
        None
    }
}

/// The database that IDA makes for a raw input file.
pub open spec fn generated_idb(path: Seq<char>) -> Seq<char> {
    path + ".i64"@
}

/// Whether `path` names a packed database.
pub fn has_packed_extension(style: PathStyle, path: &str) -> (r: bool)
    ensures
        r == is_packed(style, path@),
{
    path_has_extension(style, path, "i64") || path_has_extension(style, path, "idb")
}

/// The `.id0` path beside a packed database.
pub fn unpacked_id0_path(style: PathStyle, path: &str) -> (r: Option<String>)
    ensures
        r.deep_view() == unpacked_id0(style, path@),
{
    if has_packed_extension(style, path) {
        Some(path_with_extension(style, path, "id0"))
    } else {
        None
    }
}

/// The database path for a raw input file: `.i64` after the whole path.
pub fn idb_path_for_raw_binary(path: &str) -> (r: String)
    ensures
        r@ == generated_idb(path@),
{
    concat2(path, ".i64")
}

/// Whether a database stands at `output`, packed or unpacked.
pub open spec fn output_exists(
    style: PathStyle,
    output: Seq<char>,
    files: spec_fn(Seq<char>) -> EntryKind,
) -> bool {
    files(output) != EntryKind::Missing || if_present(unpacked_id0(style, output), files) is Some
}

/// Whether a database stands at `output`, packed or unpacked.
pub fn ida_database_output_exists(style: PathStyle, output: &str, files: &FileFacts) -> (r: bool)
    ensures
        r == output_exists(style, output@, files@),
{
    if files.has_entry(output) {
        return true;
    }
    match unpacked_id0_path(style, output) {
        Some(id0) => files.has_entry(id0.as_str()),
        None => false,
    }
}

/// The database generated for the raw input `path`, where it exists.
pub fn existing_idb_for_raw_binary(style: PathStyle, path: &str, files: &FileFacts) -> (r: Option<
    String,
>)
    ensures
        r.deep_view() == if output_exists(style, generated_idb(path@), files@) {
            Some(generated_idb(path@))
        } else {
            None
        },
{
    let idb_path = idb_path_for_raw_binary(path);
    if ida_database_output_exists(style, idb_path.as_str(), files) {
        Some(idb_path)
    } else {
        None
    }
}

/// Where the database of a raw input goes: the output that was asked for, else the generated
/// path.
pub open spec fn raw_output(path: Seq<char>, explicit: Option<Seq<char>>) -> Seq<char> {
    match explicit {
        Some(output) => output,
        None => generated_idb(path),
    }
}

/// The database that an open of the raw input `path` finds, where it exists. With an output
/// asked for, only that one is looked at.
pub fn existing_idb_for_raw_open(
    style: PathStyle,
    path: &str,
    explicit_idb_out: Option<&str>,
    files: &FileFacts,
) -> (r: Option<String>)
    ensures
        r.deep_view() == if output_exists(
            style,
            raw_output(path@, explicit_idb_out.deep_view()),
            files@,
        ) {
            Some(raw_output(path@, explicit_idb_out.deep_view()))
        } else {
            None
        },
{
    match explicit_idb_out {
        Some(output) => if ida_database_output_exists(style, output, files) {
            Some(output.to_owned())
        } else {
            None
        },
        None => existing_idb_for_raw_binary(style, path, files),
    }
}

/// The files that a database at `output` consists of: the packed file and its unpacked parts.
pub open spec fn artifacts(style: PathStyle, output: Seq<char>) -> Seq<Seq<char>> {
    seq![
        output,
        path::with_extension(style, output, "id0"@),
        path::with_extension(style, output, "id1"@),
        path::with_extension(style, output, "id2"@),
        path::with_extension(style, output, "nam"@),
        path::with_extension(style, output, "til"@),
    ]
}

/// The files that a database at `output` consists of.
pub fn database_artifact_paths(style: PathStyle, output: &str) -> (r: Vec<String>)
    ensures
        r.deep_view() == artifacts(style, output@),
{
    let mut candidates: Vec<String> = Vec::new();
    candidates.push(output.to_owned());
    candidates.push(path_with_extension(style, output, "id0"));
    candidates.push(path_with_extension(style, output, "id1"));
    candidates.push(path_with_extension(style, output, "id2"));
    candidates.push(path_with_extension(style, output, "nam"));
    candidates.push(path_with_extension(style, output, "til"));
    assert(candidates.deep_view() =~= artifacts(style, output@));
    candidates
}

/// Whether `path` names an IDA database.
pub fn has_ida_database_extension(style: PathStyle, path: &str) -> (r: bool)
    ensures
        r == is_database(style, path@),
{
    has_packed_extension(style, path) || path_has_extension(style, path, "id0")
}

/// Whether `database` is the one that is generated for the raw input `raw`.
pub open spec fn is_generated_for(style: PathStyle, raw: Seq<char>, database: Seq<char>) -> bool {
    !is_database(style, raw) && path::same_path(style, generated_idb(raw), database)
}

/// Whether `database` is the one that is generated for the raw input `raw`.
pub fn raw_input_matches_generated_database(style: PathStyle, raw: &str, database: &str) -> (r:
    bool)
    ensures
        r == is_generated_for(style, raw@, database@),
{
    !has_ida_database_extension(style, raw) && paths_equal(
        style,
        idb_path_for_raw_binary(raw).as_str(),
        database,
    )
}

/// The input file that a database was made from, by name: the path without the database
/// extension.
pub open spec fn base_input(style: PathStyle, path: Seq<char>) -> Seq<char> {
    if is_database(style, path) {
        path::with_extension(style, path, Seq::empty())
    } else {
        path
    }
}

/// The input file that a database was made from, by name.
pub fn base_input_path_for_database(style: PathStyle, path: &str) -> (r: String)
    ensures
        r@ == base_input(style, path@),
{
    if has_ida_database_extension(style, path) {
        let r = path_with_extension(style, path, "");
        proof {
            reveal_strlit("");
            assert(""@ =~= Seq::<char>::empty());
        }
        r
    } else {
        path.to_owned()
    }
}

/// Whether `unpacked` is the unpacked form of `packed`.
pub open spec fn is_unpacked_of(style: PathStyle, unpacked: Seq<char>, packed: Seq<char>) -> bool {
    unpacked_id0(style, packed) matches Some(id0) && path::same_path(style, id0, unpacked)
}

/// Two paths name the same database: the same path, a packed database and its unpacked form,
/// or a raw input and the database generated for it.
pub open spec fn names_same_database(
    style: PathStyle,
    current: Seq<char>,
    requested: Seq<char>,
) -> bool {
    ||| path::same_path(style, current, requested)
    ||| is_unpacked_of(style, requested, current)
    ||| is_unpacked_of(style, current, requested)
    ||| is_generated_for(style, requested, current)
    ||| is_generated_for(style, current, requested)
}

fn unpacked_matches(style: PathStyle, unpacked: &str, packed: &str) -> (r: bool)
    ensures
        r == is_unpacked_of(style, unpacked@, packed@),
{
    match unpacked_id0_path(style, packed) {
        Some(id0) => paths_equal(style, id0.as_str(), unpacked),
        None => false,
    }
}

/// Whether two paths name the same database.
pub fn database_paths_match(style: PathStyle, current: &str, requested: &str) -> (r: bool)
    ensures
        r == names_same_database(style, current@, requested@),
{
    paths_equal(style, current, requested) || unpacked_matches(style, requested, current)
        || unpacked_matches(style, current, requested)
        || raw_input_matches_generated_database(style, requested, current)
        || raw_input_matches_generated_database(style, current, requested)
}

/// An optional argument that counts only where it holds more than white space.
pub open spec fn given_text(value: Option<Seq<char>>) -> Option<Seq<char>> {
    match value {
        Some(text) if text::trimmed(text, false).len() > 0 => Some(text::trimmed(text, false)),
        _ => None,
    }
}

/// An optional argument without the white space around it; nothing where only that is left.
pub fn non_empty_trimmed(value: Option<&str>) -> (r: Option<&str>)
    ensures
        r.deep_view() == given_text(value.deep_view()),
{
    match value {
        Some(text) => {
            let kept = trim_padding(text, false);
            if kept.is_empty() {
                None
            } else {
                Some(kept)
            }
        },
        None => None,
    }
}

/// The arguments that IDA is started with: those given, after `-A` where it is not among them.
pub open spec fn init_args(extra: Seq<Seq<char>>) -> Seq<Seq<char>> {
    if extra.contains("-A"@) {
        extra
    } else {
        seq!["-A"@] + extra
    }
}

/// The arguments that IDA is started with: those given, after `-A` where it is not among them.
pub fn init_database_args(extra_args: &[String]) -> (r: Vec<String>)
    ensures
        r.deep_view() == init_args(extra_args.deep_view()),
{
    let ghost extra = extra_args.deep_view();
    let mut given = false;
    let mut i: usize = 0;
    while i < extra_args.len()
        invariant
            i <= extra_args.len(),
            extra == extra_args.deep_view(),
            given == extra.take(i as int).contains("-A"@),
        decreases extra_args.len() - i,
    {
        let ghost before = extra.take(i as int);
        let ghost after = extra.take(i + 1);
        let here = text_eq(extra_args[i].as_str(), "-A");
        proof {
            assert(after =~= before.push(extra[i as int]));
            assert(after[i as int] == extra[i as int]);
            if before.contains("-A"@) {
                let k = choose|k: int| 0 <= k < before.len() && before[k] == "-A"@;
                assert(after[k] == "-A"@);
            }
            if after.contains("-A"@) && !here {
                let k = choose|k: int| 0 <= k < after.len() && after[k] == "-A"@;
                assert(before[k] == "-A"@);
            }
        }
        if here {
            given = true;
        }
        i = i + 1;
    }
    assert(extra.take(extra.len() as int) =~= extra);
    let mut args: Vec<String> = Vec::new();
    if !given {
        args.push("-A".to_owned());
    }
    let ghost first = args.deep_view();
    assert(first =~= if given { Seq::<Seq<char>>::empty() } else { seq!["-A"@] });
    let mut j: usize = 0;
    while j < extra_args.len()
        invariant
            j <= extra_args.len(),
            extra == extra_args.deep_view(),
            args.deep_view() =~= first + extra.take(j as int),
        decreases extra_args.len() - j,
    {
        let ghost so_far = args.deep_view();
        args.push(extra_args[j].clone());
        assert(args.deep_view() =~= so_far.push(extra[j as int]));
        j = j + 1;
    }
    assert(args.deep_view() =~= init_args(extra));
    args
}

/// What is done with a database that stands where a raw input's database would go.
#[derive(Debug, Clone, Copy, PartialEq, Eq, Structural)]
pub enum ExistingRawIdbAction {
    Reuse,
    Rebuild,
}

/// Whether a hash was recorded at all.
pub open spec fn is_recorded(hash: Seq<u8>) -> bool {
    exists|i: int| 0 <= i < hash.len() && hash[i] != 0
}

/// What is done with an existing database: reuse needs a recorded hash that is the input's;
/// a rebuild needs that, or a recorded input path that is the input's.
pub open spec fn raw_idb_action(
    rebuild: bool,
    recorded_hash: Seq<u8>,
    input_hash: Seq<u8>,
    recorded_path_matches: bool,
) -> Option<ExistingRawIdbAction> {
    let hash_matches = is_recorded(recorded_hash) && recorded_hash == input_hash;
    if !rebuild && hash_matches {
        Some(ExistingRawIdbAction::Reuse)
    } else if rebuild && (hash_matches || recorded_path_matches) {
        Some(ExistingRawIdbAction::Rebuild)
    } else {
        None
    }
}

/// Whether a hash was recorded at all.
pub fn hash_is_recorded(hash: &[u8; 32]) -> (r: bool)
    ensures
        r == is_recorded(hash@),
{
    let mut i: usize = 0;
    while i < 32
        invariant
            i <= 32,
            forall|j: int| 0 <= j < i ==> hash@[j] == 0,
        decreases 32 - i,
    {
        if hash[i] != 0 {
            assert(hash@[i as int] != 0);
            return true;
        }
        i = i + 1;
    }
    false
}

fn hashes_equal(left: &[u8; 32], right: &[u8; 32]) -> (r: bool)
    ensures
        r == (left@ == right@),
{
    let mut i: usize = 0;
    while i < 32
        invariant
            i <= 32,
            forall|j: int| 0 <= j < i ==> left@[j] == right@[j],
        decreases 32 - i,
    {
        if left[i] != right[i] {
            assert(left@[i as int] != right@[i as int]);
            return false;
        }
        i = i + 1;
    }
    assert(left@ =~= right@);
    true
}

/// What is done with an existing database, or nothing where it may be neither reused nor
/// overwritten.
pub fn existing_raw_idb_action(
    rebuild: bool,
    recorded_hash: &[u8; 32],
    input_hash: &[u8; 32],
    recorded_path_matches: bool,
) -> (r: Option<ExistingRawIdbAction>)
    ensures
        r == raw_idb_action(rebuild, recorded_hash@, input_hash@, recorded_path_matches),
{
    let hash_matches = hash_is_recorded(recorded_hash) && hashes_equal(recorded_hash, input_hash);
    if !rebuild && hash_matches {
        Some(ExistingRawIdbAction::Reuse)
    } else if rebuild && (hash_matches || recorded_path_matches) {
        Some(ExistingRawIdbAction::Rebuild)
    } else {
        None
    }
}

/// The recorded input path without white space and C terminators around it.
pub fn recorded_path_text(recorded: &str) -> (r: &str)
    ensures
        r@ == text::trimmed(recorded@, true),
{
    trim_padding(recorded, true)
}

/// Whether the input path that a database recorded is `input`. `expanded` is the path that
/// the recorded text stands for once the padding around it is dropped.
pub fn recorded_input_path_matches(
    style: PathStyle,
    input: &str,
    recorded: &str,
    expanded: &str,
    input_canonical: &Option<String>,
    expanded_canonical: &Option<String>,
) -> (r: bool)
    ensures
        r == (text::trimmed(recorded@, true).len() > 0 && files::same_file(
            style,
            input@,
            expanded@,
            input_canonical.deep_view(),
            expanded_canonical.deep_view(),
        )),
{
    !recorded_path_text(recorded).is_empty() && paths_refer_to_same_file(
        style,
        input,
        expanded,
        input_canonical,
        expanded_canonical,
    )
}

/// Naming the same database is mutual, and every path names the same database as itself.
pub proof fn naming_the_same_database_is_mutual(
    style: PathStyle,
    current: Seq<char>,
    requested: Seq<char>,
)
    ensures
        names_same_database(style, current, requested) == names_same_database(
            style,
            requested,
            current,
        ),
        names_same_database(style, current, current),
{
}

/// A packed database and its unpacked form name the same database and the same input file.
pub proof fn packed_and_unpacked_are_one_database(style: PathStyle, packed: Seq<char>)
    requires
        is_packed(style, packed),
    ensures
        unpacked_id0(style, packed) matches Some(id0) && {
            &&& names_same_database(style, packed, id0)
            &&& is_database(style, id0)
            &&& !is_packed(style, id0)
            &&& base_input(style, id0) == base_input(style, packed)
        },
{
    reveal_strlit("i64");
    reveal_strlit("idb");
    reveal_strlit("id0");
    path::lemma_with_extension(style, packed, "id0"@);
    let id0 = path::with_extension(style, packed, "id0"@);
    let e = path::extension(style, id0)->0;
    assert(e == "id0"@);
    assert(text::ascii_lower(e[0]) == 'i');
    assert(text::ascii_lower(e[1]) == 'd' && text::ascii_lower(e[2]) == '0');
    assert(text::ascii_lower("i64"@[1]) == '6');
    assert(text::ascii_lower("idb"@[2]) == 'b');
}

/// The database generated for a raw input is a database, names the same database as the
/// input, and leads back to it.
pub proof fn generated_database_leads_back_to_its_input(style: PathStyle, raw: Seq<char>)
    requires
        raw.len() > path::body_start(style, raw),
        !path::is_separator(path::rules_of(style, raw), raw.last()),
    ensures
        is_packed(style, generated_idb(raw)),
        base_input(style, generated_idb(raw)) == raw,
        !is_database(style, raw) ==> names_same_database(style, raw, generated_idb(raw)),
{
    reveal_strlit(".i64");
    reveal_strlit("i64");
    assert(generated_idb(raw) =~= raw + seq!['.'] + "i64"@);
    path::lemma_prefix_bounds(style, raw);
    path::lemma_append_extension(style, raw, "i64"@);
}

/// With an output asked for, the database generated beside the input plays no part in
/// whether a database is found.
pub proof fn explicit_output_ignores_the_generated_database(
    style: PathStyle,
    path: Seq<char>,
    explicit: Seq<char>,
    files: spec_fn(Seq<char>) -> EntryKind,
    other_files: spec_fn(Seq<char>) -> EntryKind,
)
    requires
        files(explicit) == other_files(explicit),
        unpacked_id0(style, explicit) matches Some(id0) ==> files(id0) == other_files(id0),
    ensures
        raw_output(path, Some(explicit)) == explicit,
        output_exists(style, raw_output(path, Some(explicit)), files) == output_exists(
            style,
            raw_output(path, Some(explicit)),
            other_files,
        ),
{
}

/// The arguments for IDA hold `-A`, keep what was given in its order, add nothing but one
/// `-A`, and stay as they are when they are passed through once more.
pub proof fn init_args_add_the_flag_once(extra: Seq<Seq<char>>)
    ensures
        init_args(extra).contains("-A"@),
        init_args(extra).len() <= extra.len() + 1,
        init_args(extra).skip(init_args(extra).len() - extra.len()) == extra,
        init_args(init_args(extra)) == init_args(extra),
{
    let all = init_args(extra);
    if !extra.contains("-A"@) {
        assert(all[0] == "-A"@);
        assert(all.skip(1) =~= extra);
    } else {
        assert(all.skip(0) =~= extra);
    }
}

/// A database is reused only when its recorded hash is the input's: neither a matching path
/// nor a missing hash is enough.
pub proof fn reuse_needs_the_hash_of_the_input(
    rebuild: bool,
    recorded_hash: Seq<u8>,
    input_hash: Seq<u8>,
    recorded_path_matches: bool,
)
    ensures
        raw_idb_action(rebuild, recorded_hash, input_hash, recorded_path_matches) == Some(
            ExistingRawIdbAction::Reuse,
        ) <==> !rebuild && is_recorded(recorded_hash) && recorded_hash == input_hash,
{
}

/// A database is overwritten only on request, and only when its recorded hash or path is the
/// input's.
pub proof fn overwriting_needs_provenance(
    rebuild: bool,
    recorded_hash: Seq<u8>,
    input_hash: Seq<u8>,
    recorded_path_matches: bool,
)
    ensures
        raw_idb_action(rebuild, recorded_hash, input_hash, recorded_path_matches) == Some(
            ExistingRawIdbAction::Rebuild,
        ) <==> rebuild && (recorded_path_matches || (is_recorded(recorded_hash) && recorded_hash
            == input_hash)),
{
}

/// White space and C terminators around a recorded input path are padding, and never part of
/// the path.
pub proof fn padding_is_no_part_of_a_recorded_path(
    before: Seq<char>,
    recorded: Seq<char>,
    after: Seq<char>,
)
    requires
        forall|i: int| 0 <= i < before.len() ==> text::is_padding(#[trigger] before[i], true),
        forall|i: int| 0 <= i < after.len() ==> text::is_padding(#[trigger] after[i], true),
    ensures
        text::trimmed(before + recorded + after, true) == text::trimmed(recorded, true),
{
    text::padding_is_trimmed(before, recorded, after, true);
}

/// Where `path` is not verbatim and its file name does not read as a path with a drive, the
/// dSYM bundle is `path` with `.dSYM` behind it, and the DWARF file lies in its inner
/// directories under the name of the binary.
pub proof fn a_dsym_bundle_stands_beside_its_binary(style: PathStyle, path: Seq<char>)
    requires
        !path::is_verbatim(style, path),
        path::file_name(style, path) matches Some(name) && path::prefix_len(style, name) == 0,
    ensures
        ({
            let name = path::file_name(style, path)->0;
            let sep = seq![path::main_separator(style)];
            dsym_expected(style, path) == Some(
                path + ".dSYM"@ + sep + "Contents"@ + sep + "Resources"@ + sep + "DWARF"@ + sep
                    + name,
            )
        }),
{
    reveal_strlit(".dSYM");
    reveal_strlit("Contents");
    reveal_strlit("Resources");
    reveal_strlit("DWARF");
    let name = path::file_name(style, path)->0;
    let sep = seq![path::main_separator(style)];
    path::lemma_name_start(style, path);
    let bundle = path + ".dSYM"@;
    assert(bundle.last() == 'M');
    assert(!path::is_verbatim(style, bundle)) by {
        if path::is_verbatim(style, bundle) {
            assert(bundle[0] == '\\' && bundle[1] == '\\' && bundle[2] == '?' && bundle[3]
                == '\\');
            if path.len() >= 4 {
                assert(path[0] == bundle[0] && path[1] == bundle[1] && path[2] == bundle[2]
                    && path[3] == bundle[3]);
            } else {
                assert(bundle[path.len() as int] == '.');
            }
        }
    }
    path::lemma_joined_plain(style, bundle, "Contents"@);
    let contents = bundle + sep + "Contents"@;
    assert(contents.last() == 's');
    path::lemma_joined_plain(style, contents, "Resources"@);
    let resources = contents + sep + "Resources"@;
    assert(resources.last() == 's');
    path::lemma_joined_plain(style, resources, "DWARF"@);
    let dwarf = resources + sep + "DWARF"@;
    assert(dwarf.last() == 'F');
    path::lemma_joined_plain(style, dwarf, name);
}

/// What a database is called by: `i64` or `idb` where it is packed, `id0` too where it may be
/// unpacked, in any case.
pub proof fn a_database_is_told_by_its_extension(
    style: PathStyle,
    dir: Seq<char>,
    stem: Seq<char>,
    ext: Seq<char>,
)
    requires
        path::leads_to_name(style, dir, stem + seq!['.'] + ext),
        stem.len() > 0,
        !ext.contains('.'),
    ensures
        ({
            let p = dir + (stem + seq!['.'] + ext);
            let packed = text::same_ignoring_case(ext, seq!['i', '6', '4'])
                || text::same_ignoring_case(ext, seq!['i', 'd', 'b']);
            &&& is_packed(style, p) <==> packed
            &&& is_database(style, p) <==> packed || text::same_ignoring_case(
                ext,
                seq!['i', 'd', '0'],
            )
        }),
{
    lemma_extensions();
    path::an_extension_follows_the_last_dot(style, dir, stem, ext, Seq::empty());
}

proof fn lemma_extensions()
    ensures
        "i64"@ == seq!['i', '6', '4'],
        "idb"@ == seq!['i', 'd', 'b'],
        "id0"@ == seq!['i', 'd', '0'],
        "id1"@ == seq!['i', 'd', '1'],
        "id2"@ == seq!['i', 'd', '2'],
        "nam"@ == seq!['n', 'a', 'm'],
        "til"@ == seq!['t', 'i', 'l'],
{
    reveal_strlit("i64");
    reveal_strlit("idb");
    reveal_strlit("id0");
    reveal_strlit("id1");
    reveal_strlit("id2");
    reveal_strlit("nam");
    reveal_strlit("til");
    assert("i64"@ =~= seq!['i', '6', '4']);
    assert("idb"@ =~= seq!['i', 'd', 'b']);
    assert("id0"@ =~= seq!['i', 'd', '0']);
    assert("id1"@ =~= seq!['i', 'd', '1']);
    assert("id2"@ =~= seq!['i', 'd', '2']);
    assert("nam"@ =~= seq!['n', 'a', 'm']);
    assert("til"@ =~= seq!['t', 'i', 'l']);
}

/// A name without an extension, or with another one, is that of a raw input.
pub proof fn a_name_without_a_dot_is_no_database(
    style: PathStyle,
    dir: Seq<char>,
    name: Seq<char>,
)
    requires
        path::leads_to_name(style, dir, name),
        !name.drop_first().contains('.'),
    ensures
        !is_database(style, dir + name),
        unpacked_id0(style, dir + name) is None,
        base_input(style, dir + name) == dir + name,
{
    path::a_name_without_a_dot_has_no_extension(style, dir, name, Seq::empty());
}

/// The files of a database are the packed file and the five parts of its unpacked form, which
/// differ from it in the extension alone; the unpacked form is known by its `id0` part. A
/// database is named after its input.
pub proof fn the_parts_of_a_database_differ_in_their_extension(
    style: PathStyle,
    dir: Seq<char>,
    stem: Seq<char>,
    ext: Seq<char>,
)
    requires
        path::leads_to_name(style, dir, stem + seq!['.'] + ext),
        stem.len() > 0,
        !ext.contains('.'),
    ensures
        ({
            let p = dir + (stem + seq!['.'] + ext);
            let named = dir + stem;
            &&& artifacts(style, p) == seq![
                p,
                named + seq!['.', 'i', 'd', '0'],
                named + seq!['.', 'i', 'd', '1'],
                named + seq!['.', 'i', 'd', '2'],
                named + seq!['.', 'n', 'a', 'm'],
                named + seq!['.', 't', 'i', 'l'],
            ]
            &&& unpacked_id0(style, p) == if is_packed(style, p) {
                Some(named + seq!['.', 'i', 'd', '0'])
            } else {
                None
            }
            &&& base_input(style, p) == if is_database(style, p) {
                named
            } else {
                p
            }
        }),
{
    let p = dir + (stem + seq!['.'] + ext);
    let named = dir + stem;
    lemma_extensions();
    path::an_extension_follows_the_last_dot(style, dir, stem, ext, "id0"@);
    path::an_extension_follows_the_last_dot(style, dir, stem, ext, "id1"@);
    path::an_extension_follows_the_last_dot(style, dir, stem, ext, "id2"@);
    path::an_extension_follows_the_last_dot(style, dir, stem, ext, "nam"@);
    path::an_extension_follows_the_last_dot(style, dir, stem, ext, "til"@);
    path::an_extension_follows_the_last_dot(style, dir, stem, ext, Seq::empty());
    assert(seq!['.'] + "id0"@ =~= seq!['.', 'i', 'd', '0']);
    assert(seq!['.'] + "id1"@ =~= seq!['.', 'i', 'd', '1']);
    assert(seq!['.'] + "id2"@ =~= seq!['.', 'i', 'd', '2']);
    assert(seq!['.'] + "nam"@ =~= seq!['.', 'n', 'a', 'm']);
    assert(seq!['.'] + "til"@ =~= seq!['.', 't', 'i', 'l']);
    assert(named + Seq::<char>::empty() =~= named);
}

/// Two packed databases are one only where their paths are the same, and a raw input and a
/// database only where the database is the input with `.i64` behind its whole path.
pub proof fn different_databases_are_not_mixed_up(
    style: PathStyle,
    dir: Seq<char>,
    stem: Seq<char>,
    ext: Seq<char>,
    other_dir: Seq<char>,
    other_stem: Seq<char>,
    other_ext: Seq<char>,
)
    requires
        path::leads_to_name(style, dir, stem + seq!['.'] + ext),
        path::leads_to_name(style, other_dir, other_stem + seq!['.'] + other_ext),
        stem.len() > 0 && other_stem.len() > 0,
        !ext.contains('.') && !other_ext.contains('.'),
    ensures
        ({
            let a = dir + (stem + seq!['.'] + ext);
            let b = other_dir + (other_stem + seq!['.'] + other_ext);
            &&& is_packed(style, a) && is_packed(style, b) ==> (names_same_database(style, a, b)
                <==> path::same_path(style, a, b))
            &&& !is_database(style, a) && is_packed(style, b) ==> (names_same_database(style, a, b)
                <==> path::same_path(style, a + seq!['.', 'i', '6', '4'], b))
        }),
{
    let a = dir + (stem + seq!['.'] + ext);
    let b = other_dir + (other_stem + seq!['.'] + other_ext);
    lemma_extensions();
    reveal_strlit(".i64");
    assert(".i64"@ =~= seq!['.', 'i', '6', '4']);
    a_database_is_told_by_its_extension(style, dir, stem, ext);
    a_database_is_told_by_its_extension(style, other_dir, other_stem, other_ext);
    the_parts_of_a_database_differ_in_their_extension(style, dir, stem, ext);
    the_parts_of_a_database_differ_in_their_extension(style, other_dir, other_stem, other_ext);
    if is_packed(style, a) && is_packed(style, b) {
        lemma_packed_is_not_unpacked(style, a, b);
        lemma_packed_is_not_unpacked(style, b, a);
    } else if !is_database(style, a) && is_packed(style, b) {
        packed_and_unpacked_are_one_database(style, b);
        let id0 = unpacked_id0(style, b)->0;
        path::an_extension_follows_the_last_dot(style, dir, stem, ext, Seq::empty());
        if path::same_path(style, a, b) {
            path::lemma_same_path_same_extension(style, a, b);
        }
        if path::same_path(style, id0, a) {
            path::lemma_same_path_same_extension(style, id0, a);
        }
    }
}

proof fn lemma_packed_is_not_unpacked(style: PathStyle, packed: Seq<char>, other: Seq<char>)
    requires
        is_packed(style, packed),
        is_packed(style, other),
    ensures
        !is_unpacked_of(style, other, packed),
{
    let id0 = path::with_extension(style, packed, "id0"@);
    packed_and_unpacked_are_one_database(style, packed);
    if path::same_path(style, id0, other) {
        path::lemma_same_path_same_extension(style, id0, other);
    }
}

/// What was given counts without the white space around it, and white space alone counts for
/// nothing.
pub proof fn white_space_is_not_given(before: Seq<char>, given: Seq<char>, after: Seq<char>)
    requires
        forall|i: int| 0 <= i < before.len() ==> text::is_space(#[trigger] before[i]),
        forall|i: int| 0 <= i < after.len() ==> text::is_space(#[trigger] after[i]),
        given.len() > 0 ==> !text::is_space(given[0]) && !text::is_space(given.last()),
    ensures
        given_text(Some(before + given + after)) == if given.len() > 0 {
            Some(given)
        } else {
            None
        },
        given_text(None) is None,
{
    text::padding_is_trimmed(before, given, after, false);
    assert(text::trim_front(given, false) == given);
    assert(text::trim_back(given, false) == given);
}

} // verus!
