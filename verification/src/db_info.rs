//! What is reported of an open database.

use crate::database::database_bitness;
use crate::open_types;
use crate::open_types::DebugInfoLoad;
use vstd::prelude::*;

verus! {

/// What an open database says of itself. `A` is the state of its analysis.
#[derive(Debug, Clone)]
pub struct DatabaseFacts<A> {
    pub file_type: String,
    pub processor: String,
    pub is_64bit: bool,
    pub is_32bit_exactly: bool,
    pub function_count: usize,
    pub analysis_status: A,
}

/// What is reported of an open database.
#[derive(Debug, Clone)]
pub struct DbInfo<A> {
    pub path: String,
    pub file_type: String,
    pub processor: String,
    pub bits: u32,
    pub function_count: usize,
    pub debug_info: Option<DebugInfoLoad>,
    pub analysis_status: A,
}

/// Reports the database that is open at `path`.
pub fn build_db_info<A>(facts: DatabaseFacts<A>, path: &str, debug_info: Option<DebugInfoLoad>) -> (r:
    DbInfo<A>)
    ensures
        r.path@ == path@,
        r.file_type@ == facts.file_type@,
        r.processor@ == facts.processor@,
        r.bits == if facts.is_64bit {
            64u32
        } else if facts.is_32bit_exactly {
            32u32
        } else {
            16u32
        },
        r.function_count == facts.function_count,
        open_types::load_view(r.debug_info) == open_types::load_view(debug_info),
        r.analysis_status == facts.analysis_status,
{
    DbInfo {
        path: path.to_owned(),
        file_type: facts.file_type,
        processor: facts.processor,
        bits: database_bitness(facts.is_64bit, facts.is_32bit_exactly),
        function_count: facts.function_count,
        debug_info,
        analysis_status: facts.analysis_status,
    }
}

} // verus!
