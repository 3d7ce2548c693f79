//! When an open starts, and when it is refused.

use crate::database;
use crate::error::ToolError;
use crate::files::EntryKind;
use crate::number;
use crate::open;
use crate::open::{RequestView, StartView};
use crate::open_asks;
use crate::output;
use crate::output::OutputFacts;
use crate::path;
use crate::text;
use vstd::prelude::*;

verus! {

/// Whether a request says how a raw input is to be loaded.
pub open spec fn has_raw_options(request: RequestView) -> bool {
    ||| request.raw_target.processor is Some
    ||| request.raw_target.bitness is Some
    ||| request.raw_target.base_address is Some
    ||| request.raw_target.entry_point is Some
}

/// Whether a database stands where a request wants one, packed or unpacked.
pub open spec fn target_is_there(
    request: RequestView,
    files: spec_fn(Seq<char>) -> EntryKind,
) -> bool {
    let target = open_asks::target(request);
    ||| files(target) != EntryKind::Missing
    ||| database::is_packed(request.style, target) && files(
        path::with_extension(request.style, target, "id0"@),
    ) != EntryKind::Missing
}

/// A request is refused for the first of these reasons that holds, and for no other: its file is
/// missing; it asks to load a database as a raw input; its base address is not a multiple of 16;
/// the output for its raw input cannot be used; or it asks to load the input of a database that
/// is there and is not to be rebuilt.
pub proof fn a_request_is_refused_for_a_reason(
    request: RequestView,
    files: spec_fn(Seq<char>) -> EntryKind,
    facts: OutputFacts<Seq<char>>,
)
    ensures
        ({
            let refusal = open::open_refusal(request, files, facts);
            let is_database = database::is_database(request.style, request.path);
            let output_refusal = output::output_refusal(
                request.style,
                request.path,
                open_asks::target(request),
                files,
                facts,
            );
            if files(request.path) == EntryKind::Missing {
                refusal matches Some(ToolError::InvalidPath(said)) && text::has_part(
                    said,
                    request.path,
                )
            } else if is_database && has_raw_options(request) {
                refusal matches Some(ToolError::InvalidParams(_))
            } else if request.raw_target.base_address matches Some(base) && base % 16 != 0 {
                refusal matches Some(ToolError::InvalidParams(said)) && text::has_part(
                    said,
                    number::address_text(request.raw_target.base_address->0 as nat),
                )
            } else if !is_database && output_refusal is Some {
                refusal == output_refusal
            } else if !is_database && target_is_there(request, files) && !request.rebuild
                && has_raw_options(request) {
                refusal matches Some(ToolError::InvalidParams(_))
            } else {
                refusal is None
            }
        }),
{
    text::a_part_of_a_part_is_found();
}

/// How an open starts is decided in this order: a cancelled one is refused with the reason for
/// that; where a database is open, it is handed out if it is the one that is asked for, and named
/// in the refusal if it is not; and a request that nothing speaks against starts.
pub proof fn an_open_starts_unless_something_speaks_against_it(
    request: RequestView,
    cancelled: Option<ToolError<Seq<char>>>,
    open_path: Option<Seq<char>>,
    files: spec_fn(Seq<char>) -> EntryKind,
    facts: OutputFacts<Seq<char>>,
)
    ensures
        ({
            let start = open::starting(request, cancelled, open_path, files, facts);
            let refusal = open::open_refusal(request, files, facts);
            &&& cancelled matches Some(error) ==> start == StartView::Refused(error)
            &&& cancelled is None ==> {
                &&& open_path matches Some(current) ==> if database::names_same_database(
                    request.style,
                    current,
                    request.path,
                ) {
                    start == StartView::AlreadyOpen(current)
                } else {
                    start == StartView::Refused(ToolError::DatabaseAlreadyOpen(current))
                }
                &&& open_path is None ==> {
                    &&& start is Started <==> refusal is None
                    &&& refusal matches Some(error) ==> start == StartView::Refused(error)
                }
            }
            &&& start matches StartView::Started { session, step } ==> {
                &&& session == open::initial(request, files)
                &&& step == open::first_step(request, session)
            }
        }),
{
}

/// An open starts with what the request says, and has nothing yet.
pub proof fn an_open_starts_with_what_was_asked_for(
    request: RequestView,
    files: spec_fn(Seq<char>) -> EntryKind,
)
    ensures
        ({
            let s = open::initial(request, files);
            let is_database = database::is_database(request.style, request.path);
            &&& s.style == request.style
            &&& s.path == request.path
            &&& s.is_idb == is_database
            &&& s.rebuild == request.rebuild
            &&& s.auto_analyse == request.auto_analyse
            &&& s.load_debug_info == request.load_debug_info
            &&& s.debug_info_verbose == request.debug_info_verbose
            &&& open_asks::is_what_was_given(s.debug_info_path, request.debug_info_path)
            &&& open_asks::is_what_was_given(s.file_type, request.file_type)
            &&& s.raw_target == request.raw_target
            &&& open_asks::are_arguments(s.init_args, request.extra_args)
            &&& s.lock_target == open_asks::target(request)
            &&& s.candidate is Some <==> !is_database && target_is_there(request, files)
            &&& s.candidate matches Some(candidate) ==> candidate == open_asks::target(request)
            &&& !s.reused && s.debug_info is None
            &&& !s.lock_held && !s.candidate_open && !s.database_open
        }),
{
    assert((seq!["-A"@] + request.extra_args)[0] == "-A"@);
}

} // verus!
