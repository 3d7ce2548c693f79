//! Where the database of a raw input may be written.

use crate::database;
use crate::database::{
    database_artifact_paths, has_packed_extension, ida_database_output_exists, unpacked_id0_path,
};
use crate::error::ToolError;
use crate::files;
use crate::files::{paths_refer_to_same_file, EntryKind, FileFacts};
use crate::path;
use crate::path::{path_parent, PathStyle};
use crate::text;
use crate::text::{concat2, concat3};
use vstd::prelude::*;
use vstd::string::*;

verus! {

/// What is known of the directory that an output goes into.
#[derive(Debug, Clone)]
pub enum ParentState<T = String> {
    /// It cannot be read, for the reason given.
    Unavailable(T),
    NotDirectory,
    ReadOnly,
    Writable,
}

/// What is known of a raw input and of the output for it.
#[derive(Debug, Clone)]
pub struct OutputFacts<T = String> {
    pub input_canonical: Option<T>,
    pub output_canonical: Option<T>,
    pub parent: ParentState<T>,
}

impl View for ParentState<String> {
    type V = ParentState<Seq<char>>;

    open spec fn view(&self) -> ParentState<Seq<char>> {
        match self {
            ParentState::Unavailable(reason) => ParentState::Unavailable(reason@),
            ParentState::NotDirectory => ParentState::NotDirectory,
            ParentState::ReadOnly => ParentState::ReadOnly,
            ParentState::Writable => ParentState::Writable,
        }
    }
}

impl View for OutputFacts<String> {
    type V = OutputFacts<Seq<char>>;

    open spec fn view(&self) -> OutputFacts<Seq<char>> {
        OutputFacts {
            input_canonical: self.input_canonical.deep_view(),
            output_canonical: self.output_canonical.deep_view(),
            parent: self.parent@,
        }
    }
}

/// The directory that `output` goes into.
pub open spec fn parent_directory(style: PathStyle, output: Seq<char>) -> Seq<char> {
    match path::parent(style, output) {
        Some(parent) if parent.len() > 0 => parent,
        _ => "."@,
    }
}

/// The directory that `output` goes into: the current one where the path names none.
pub fn output_parent(style: PathStyle, output: &str) -> (r: &str)
    ensures
        r@ == parent_directory(style, output@),
{
    match path_parent(style, output) {
        Some(parent) => if parent.is_empty() {
            "."
        } else {
            parent
        },
        None => ".",
    }
}

/// The first of `paths` at which something stands.
pub open spec fn first_present(
    paths: Seq<Seq<char>>,
    files: spec_fn(Seq<char>) -> EntryKind,
) -> Option<Seq<char>>
    decreases paths.len(),
{
    if paths.len() == 0 {
        None
    } else if files(paths[0]) != EntryKind::Missing {
        Some(paths[0])
    } else {
        first_present(paths.drop_first(), files)
    }
}

/// A part of an unpacked database that stands at `output` without a database there.
pub open spec fn orphan(
    style: PathStyle,
    output: Seq<char>,
    files: spec_fn(Seq<char>) -> EntryKind,
) -> Option<Seq<char>> {
    if database::output_exists(style, output, files) {
        None
    } else {
        first_present(database::artifacts(style, output).skip(1), files)
    }
}

/// Why `output` may not take the database of `input`; nothing where it may.
pub open spec fn output_refusal(
    style: PathStyle,
    input: Seq<char>,
    output: Seq<char>,
    files: spec_fn(Seq<char>) -> EntryKind,
    facts: OutputFacts<Seq<char>>,
) -> Option<ToolError<Seq<char>>> {
    if !database::is_packed(style, output) {
        Some(ToolError::InvalidParams("idb_out must end in .i64 or .idb: "@ + output))
    } else if files::same_file(style, input, output, facts.input_canonical, facts.output_canonical) {
        Some(ToolError::InvalidParams("idb_out must not refer to the raw input file"@))
    } else if files(output) == EntryKind::Other {
        Some(ToolError::InvalidPath("idb_out is not a file: "@ + output))
    } else if files(database::unpacked_id0(style, output)->0) == EntryKind::Other {
        Some(
            ToolError::InvalidPath(
                "unpacked idb_out artifact is not a file: "@ + database::unpacked_id0(style, output)->0,
            ),
        )
    } else if orphan(style, output, files) is Some {
        Some(
            ToolError::InvalidParams(
                "idb_out has an orphaned pre-existing database artifact ("@ + orphan(
                    style,
                    output,
                    files,
                )->0
                    + "); choose another output path or remove the artifact after verifying it"@,
            ),
        )
    } else {
        match facts.parent {
            ParentState::Unavailable(reason) => Some(
                ToolError::InvalidPath(
                    "idb_out parent is unavailable ("@ + parent_directory(style, output) + "): "@ + reason,
                ),
            ),
            ParentState::NotDirectory => Some(
                ToolError::InvalidPath(
                    "idb_out parent is not a directory: "@ + parent_directory(style, output),
                ),
            ),
            ParentState::ReadOnly => Some(
                ToolError::InvalidPath("idb_out parent is read-only: "@ + parent_directory(style, output)),
            ),
            ParentState::Writable => None,
        }
    }
}

fn find_present(paths: &Vec<String>, from: usize, files: &FileFacts) -> (r: Option<String>)
    requires
        from <= paths.len(),
    ensures
        r.deep_view() == first_present(paths.deep_view().skip(from as int), files@),
{
    let ghost all = paths.deep_view();
    let mut i: usize = from;
    while i < paths.len()
        invariant
            from <= i <= paths.len(),
            all == paths.deep_view(),
            first_present(all.skip(from as int), files@) == first_present(
                all.skip(i as int),
                files@,
            ),
        decreases paths.len() - i,
    {
        let ghost rest = all.skip(i as int);
        assert(rest[0] == paths@[i as int]@);
        if files.has_entry(paths[i].as_str()) {
            return Some(paths[i].clone());
        }
        assert(rest.drop_first() =~= all.skip(i + 1));
        i = i + 1;
    }
    None
}

fn find_orphan(style: PathStyle, output: &str, files: &FileFacts) -> (r: Option<String>)
    ensures
        r.deep_view() == orphan(style, output@, files@),
{
    if ida_database_output_exists(style, output, files) {
        return None;
    }
    let candidates = database_artifact_paths(style, output);
    find_present(&candidates, 1, files)
}

/// Accepts `output` for the database of `input`, or says why not: it must be a database path
/// other than the input, hold a file or nothing, have no orphaned parts beside it, and lie in
/// a directory that can be written.
pub fn validate_raw_idb_output(
    style: PathStyle,
    input: &str,
    output: &str,
    files: &FileFacts,
    facts: &OutputFacts,
) -> (r: Result<(), ToolError>)
    ensures
        match output_refusal(style, input@, output@, files@, facts@) {
            Some(error) => r is Err && r->Err_0@ == error,
            None => r is Ok,
        },
{
    if !has_packed_extension(style, output) {
        return Err(
            ToolError::InvalidParams(concat2("idb_out must end in .i64 or .idb: ", output)),
        );
    }
    if paths_refer_to_same_file(style, input, output, &facts.input_canonical, &facts.output_canonical) {
        return Err(
            ToolError::InvalidParams("idb_out must not refer to the raw input file".to_owned()),
        );
    }
    if files.kind(output) == EntryKind::Other {
        return Err(ToolError::InvalidPath(concat2("idb_out is not a file: ", output)));
    }
    if let Some(id0) = unpacked_id0_path(style, output) {
        if files.kind(id0.as_str()) == EntryKind::Other {
            return Err(
                ToolError::InvalidPath(
                    concat2("unpacked idb_out artifact is not a file: ", id0.as_str()),
                ),
            );
        }
    }
    if let Some(part) = find_orphan(style, output, files) {
        return Err(
            ToolError::InvalidParams(
                concat3(
                    "idb_out has an orphaned pre-existing database artifact (",
                    part.as_str(),
                    "); choose another output path or remove the artifact after verifying it",
                ),
            ),
        );
    }
    let parent = output_parent(style, output);
    match &facts.parent {
        ParentState::Unavailable(reason) => {
            let mut message = concat3("idb_out parent is unavailable (", parent, "): ");
            message.append(reason.as_str());
            Err(ToolError::InvalidPath(message))
        },
        ParentState::NotDirectory => Err(
            ToolError::InvalidPath(concat2("idb_out parent is not a directory: ", parent)),
        ),
        ParentState::ReadOnly => Err(
            ToolError::InvalidPath(concat2("idb_out parent is read-only: ", parent)),
        ),
        ParentState::Writable => Ok(()),
    }
}

/// `first_present` finds nothing exactly where nothing stands at any of the paths.
proof fn lemma_first_present(paths: Seq<Seq<char>>, files: spec_fn(Seq<char>) -> EntryKind)
    ensures
        first_present(paths, files) is None <==> forall|i: int|
            0 <= i < paths.len() ==> files(#[trigger] paths[i]) == EntryKind::Missing,
    decreases paths.len(),
{
    if paths.len() > 0 {
        let rest = paths.drop_first();
        lemma_first_present(rest, files);
        if first_present(paths, files) is None {
            assert forall|i: int| 0 <= i < paths.len() implies files(#[trigger] paths[i])
                == EntryKind::Missing by {
                if i > 0 {
                    assert(rest[i - 1] == paths[i]);
                }
            }
        } else if forall|i: int|
            0 <= i < paths.len() ==> files(#[trigger] paths[i]) == EntryKind::Missing {
            assert(files(paths[0]) == EntryKind::Missing);
            assert forall|i: int| 0 <= i < rest.len() implies files(#[trigger] rest[i])
                == EntryKind::Missing by {
                assert(rest[i] == paths[i + 1]);
            }
        }
    }
}

/// An output is accepted exactly when it is a packed database path that is not the input,
/// neither it nor its unpacked form is anything but a file, its directory can be written, and
/// either a database stands there or none of its parts does.
pub proof fn accepted_output_is_safe(
    style: PathStyle,
    input: Seq<char>,
    output: Seq<char>,
    files: spec_fn(Seq<char>) -> EntryKind,
    facts: OutputFacts<Seq<char>>,
)
    ensures
        output_refusal(style, input, output, files, facts) is None <==> {
            &&& database::is_packed(style, output)
            &&& !files::same_file(style, input, output, facts.input_canonical, facts.output_canonical)
            &&& files(output) != EntryKind::Other
            &&& files(database::unpacked_id0(style, output)->0) != EntryKind::Other
            &&& facts.parent == ParentState::<Seq<char>>::Writable
            &&& database::output_exists(style, output, files) || forall|i: int|
                0 <= i < database::artifacts(style, output).len() ==> files(
                    #[trigger] database::artifacts(style, output)[i],
                ) == EntryKind::Missing
        },
{
    let all = database::artifacts(style, output);
    let parts = all.skip(1);
    lemma_first_present(parts, files);
    if !database::output_exists(style, output, files) {
        if first_present(parts, files) is None {
            assert forall|i: int| 0 <= i < all.len() implies files(#[trigger] all[i])
                == EntryKind::Missing by {
                if i == 0 {
                    assert(all[0] == output);
                } else {
                    assert(parts[i - 1] == all[i]);
                }
            }
        } else if forall|i: int|
            0 <= i < all.len() ==> files(#[trigger] all[i]) == EntryKind::Missing {
            assert forall|i: int| 0 <= i < parts.len() implies files(#[trigger] parts[i])
                == EntryKind::Missing by {
                assert(parts[i] == all[i + 1]);
            }
        }
    }
}

proof fn lemma_first_present_is_first(
    paths: Seq<Seq<char>>,
    files: spec_fn(Seq<char>) -> EntryKind,
) -> (at: int)
    requires
        first_present(paths, files) is Some,
    ensures
        0 <= at < paths.len(),
        first_present(paths, files) == Some(paths[at]),
        files(paths[at]) != EntryKind::Missing,
        forall|i: int| 0 <= i < at ==> files(#[trigger] paths[i]) == EntryKind::Missing,
    decreases paths.len(),
{
    if files(paths[0]) != EntryKind::Missing {
        0
    } else {
        let rest = paths.drop_first();
        let at = lemma_first_present_is_first(rest, files) + 1;
        assert forall|i: int| 0 <= i < at implies files(#[trigger] paths[i])
            == EntryKind::Missing by {
            if i > 0 {
                assert(rest[i - 1] == paths[i]);
            }
        }
        at
    }
}

/// An orphaned part is one that is there while the database itself is not, neither packed nor
/// unpacked; of several, the first among the files of a database is named.
pub proof fn an_orphan_is_a_part_without_its_database(
    style: PathStyle,
    output: Seq<char>,
    files: spec_fn(Seq<char>) -> EntryKind,
) -> (at: int)
    requires
        orphan(style, output, files) is Some,
    ensures
        1 <= at < database::artifacts(style, output).len(),
        orphan(style, output, files) == Some(database::artifacts(style, output)[at]),
        files(database::artifacts(style, output)[at]) != EntryKind::Missing,
        forall|i: int|
            0 <= i < at ==> files(#[trigger] database::artifacts(style, output)[i])
                == EntryKind::Missing,
{
    let all = database::artifacts(style, output);
    let parts = all.skip(1);
    let at = lemma_first_present_is_first(parts, files) + 1;
    assert forall|i: int| 0 <= i < at implies files(#[trigger] all[i]) == EntryKind::Missing by {
        if i > 0 {
            assert(parts[i - 1] == all[i]);
        }
    }
    at
}

/// A refusal names the first thing that is wrong with an output: its extension, then that it is
/// the input, then what stands at it or at its unpacked form, then an orphaned part, and last the
/// directory. What cannot be a path for a database is a bad parameter, and so are the input and
/// an output with orphaned parts; what stands in the way on disk is a bad path.
pub proof fn a_refused_output_is_told_what_is_wrong(
    style: PathStyle,
    input: Seq<char>,
    output: Seq<char>,
    files: spec_fn(Seq<char>) -> EntryKind,
    facts: OutputFacts<Seq<char>>,
)
    ensures
        ({
            let refusal = output_refusal(style, input, output, files, facts);
            let is_input = files::same_file(
                style,
                input,
                output,
                facts.input_canonical,
                facts.output_canonical,
            );
            let id0 = path::with_extension(style, output, "id0"@);
            let names = |error: Option<ToolError<Seq<char>>>, part: Seq<char>|
                error matches Some(ToolError::InvalidPath(said)) && text::has_part(said, part);
            if !database::is_packed(style, output) {
                refusal matches Some(ToolError::InvalidParams(said)) && text::has_part(said, output)
            } else if is_input {
                refusal matches Some(ToolError::InvalidParams(_))
            } else if files(output) == EntryKind::Other {
                names(refusal, output)
            } else if files(id0) == EntryKind::Other {
                names(refusal, id0)
            } else if orphan(style, output, files) is Some {
                refusal matches Some(ToolError::InvalidParams(said)) && text::has_part(
                    said,
                    orphan(style, output, files)->0,
                )
            } else {
                match facts.parent {
                    ParentState::Writable => refusal is None,
                    ParentState::Unavailable(reason) => names(
                        refusal,
                        parent_directory(style, output),
                    ) && names(refusal, reason),
                    _ => names(refusal, parent_directory(style, output)),
                }
            }
        }),
{
    text::a_part_of_a_part_is_found();
}

/// An output goes into the directory before its name: what stands before the last `/`, the root
/// where that is all that stands there, and the current directory where nothing does.
pub proof fn an_output_goes_into_the_directory_before_its_name(dir: Seq<char>, name: Seq<char>)
    requires
        dir.len() > 1 && dir.last() != '/' && dir.last() != '.',
        name.len() > 0,
        name != seq!['.'] && name != seq!['.', '.'],
        !name.contains('/'),
    ensures
        parent_directory(PathStyle::Unix, dir + seq!['/'] + name) == dir,
        parent_directory(PathStyle::Unix, seq!['/'] + name) == seq!['/'],
        parent_directory(PathStyle::Unix, name) == seq!['.'],
{
    let style = PathStyle::Unix;
    let p = dir + seq!['/'] + name;
    assert(p[0] == dir[0]);
    assert((dir + seq!['/']).last() == '/');
    path::slashes_lead_to_names_on_unix(dir + seq!['/'], name);
    path::a_parent_is_what_stands_before_the_name(style, dir, '/', name);
    path::a_bare_name_has_an_empty_parent(name);
    reveal_strlit(".");
    assert("."@ =~= seq!['.']);
}

} // verus!
