//! Loading debug information into an open database.

use crate::database;
use crate::database::{base_input_path_for_database, dsym_path_for_binary};
use crate::error::ToolError;
use crate::files::{EntryKind, FileFacts};
use crate::json;
use crate::json::{empty_object, set_flag, set_text, JsonField};
use crate::path::PathStyle;
use crate::text::concat2;
use vstd::prelude::*;
use vstd::string::*;

verus! {

/// The file that debug information is loaded from: the one asked for, else the one in the dSYM
/// bundle beside the input of the open database. It must exist.
pub open spec fn debug_info_file(
    style: PathStyle,
    open_path: Option<Seq<char>>,
    path: Option<Seq<char>>,
    files: spec_fn(Seq<char>) -> EntryKind,
) -> Result<Seq<char>, ToolError<Seq<char>>> {
    match (open_path, path) {
        (None, _) => Err(ToolError::NoDatabaseOpen),
        (Some(_), Some(asked)) => if files(asked) != EntryKind::Missing {
            Ok(asked)
        } else {
            Err(ToolError::InvalidPath("File not found: "@ + asked))
        },
        (Some(open), None) => match database::if_present(
            database::dsym_expected(style, database::base_input(style, open)),
            files,
        ) {
            Some(found) => Ok(found),
            None => Err(ToolError::InvalidPath("No sibling .dSYM found"@)),
        },
    }
}

/// The file that debug information is loaded from, or why there is none. `open_path` is the
/// path of the open database.
pub fn debug_info_target(
    style: PathStyle,
    open_path: Option<&str>,
    path: Option<&str>,
    files: &FileFacts,
) -> (r: Result<String, ToolError>)
    ensures
        match debug_info_file(style, open_path.deep_view(), path.deep_view(), files@) {
            Ok(found) => r is Ok && r->Ok_0@ == found,
            Err(error) => r is Err && r->Err_0@ == error,
        },
{
    let open = match open_path {
        Some(open) => open,
        None => {
            return Err(ToolError::NoDatabaseOpen);
        },
    };
    let resolved = match path {
        Some(asked) => asked.to_owned(),
        None => {
            let base = base_input_path_for_database(style, open);
            match dsym_path_for_binary(style, base.as_str(), files) {
                Some(found) => found,
                None => {
                    return Err(ToolError::InvalidPath("No sibling .dSYM found".to_owned()));
                },
            }
        },
    };
    if !files.has_entry(resolved.as_str()) {
        return Err(ToolError::InvalidPath(concat2("File not found: ", resolved.as_str())));
    }
    Ok(resolved)
}

/// Answers a request to load debug information from `target`, given how the load went.
pub fn handle_load_debug_info(target: &str, loaded: Result<bool, ToolError>) -> (r: Result<
    serde_json::Value,
    ToolError,
>)
    ensures
        match loaded {
            Ok(loaded) => r is Ok && json::object_fields(r->Ok_0) == Some(
                Map::<Seq<char>, JsonField>::empty().insert(
                    "path"@,
                    JsonField::Text(target@),
                ).insert("loaded"@, JsonField::Flag(loaded)),
            ),
            Err(error) => r is Err && r->Err_0 == error,
        },
{
    match loaded {
        Ok(loaded) => {
            let mut result = empty_object();
            set_text(&mut result, "path", target);
            set_flag(&mut result, "loaded", loaded);
            Ok(result)
        },
        Err(error) => Err(error),
    }
}

/// Debug information is loaded only into an open database, and only from a file that is there:
/// the one that was asked for, and no other where one was; else that of the dSYM bundle beside
/// the input of the database.
pub proof fn debug_info_comes_from_a_file_that_is_there(
    style: PathStyle,
    open_path: Option<Seq<char>>,
    path: Option<Seq<char>>,
    files: spec_fn(Seq<char>) -> EntryKind,
)
    ensures
        ({
            let found = debug_info_file(style, open_path, path, files);
            let expected = match (path, open_path) {
                (Some(asked), _) => Some(asked),
                (None, Some(open)) => database::dsym_expected(
                    style,
                    database::base_input(style, open),
                ),
                (None, None) => None,
            };
            &&& found is Ok <==> open_path is Some && (expected matches Some(file) && files(file)
                != EntryKind::Missing)
            &&& found matches Ok(file) ==> expected == Some(file)
            &&& found matches Err(error) ==> if open_path is None {
                error is NoDatabaseOpen
            } else {
                error is InvalidPath
            }
        }),
{
}

} // verus!
