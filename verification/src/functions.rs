//! Listing and finding the functions of a database.

use crate::number;
use crate::number::{hex_address, number_text, parse_address};
use crate::text;
use crate::text::{concat2, contains_text};
use vstd::prelude::*;
use vstd::string::*;

verus! {

/// A function as the database holds it.
#[derive(Debug, Clone)]
pub struct FunctionEntry<T = String> {
    pub start: u64,
    pub name: Option<T>,
    pub size: usize,
}

impl View for FunctionEntry<String> {
    type V = FunctionEntry<Seq<char>>;

    open spec fn view(&self) -> FunctionEntry<Seq<char>> {
        FunctionEntry { start: self.start, name: self.name.deep_view(), size: self.size }
    }
}

/// A function as it is reported.
#[derive(Debug, Clone)]
pub struct FunctionInfo<T = String> {
    pub address: T,
    pub name: T,
    pub size: usize,
}

impl View for FunctionInfo<String> {
    type V = FunctionInfo<Seq<char>>;

    open spec fn view(&self) -> FunctionInfo<Seq<char>> {
        FunctionInfo { address: self.address@, name: self.name@, size: self.size }
    }
}

/// A page of the functions of a database.
#[derive(Debug, Clone)]
pub struct FunctionListResult {
    pub functions: Vec<FunctionInfo>,
    pub total: usize,
    /// Where the next page starts, unless this is the last one.
    pub next_offset: Option<usize>,
}

/// The views of a list of functions.
pub open spec fn entries_view(entries: Seq<FunctionEntry>) -> Seq<FunctionEntry<Seq<char>>> {
    entries.map_values(|entry: FunctionEntry| entry@)
}

/// The views of a list of reported functions.
pub open spec fn infos_view(infos: Seq<FunctionInfo>) -> Seq<FunctionInfo<Seq<char>>> {
    infos.map_values(|info: FunctionInfo| info@)
}

/// How a function is reported: one without a name is named after its address.
pub open spec fn info_of(entry: FunctionEntry<Seq<char>>) -> FunctionInfo<Seq<char>> {
    FunctionInfo {
        address: number::address_text(entry.start as nat),
        name: match entry.name {
            Some(name) => name,
            None => "sub_"@ + number::digits(entry.start as nat, 16),
        },
        size: entry.size,
    }
}

/// The functions on the page of at most `limit` that starts at `offset`.
pub open spec fn page(
    entries: Seq<FunctionEntry<Seq<char>>>,
    offset: nat,
    limit: nat,
) -> Seq<FunctionInfo<Seq<char>>> {
    let rest = if offset < entries.len() {
        entries.skip(offset as int)
    } else {
        Seq::empty()
    };
    let shown = if limit < rest.len() {
        rest.take(limit as int)
    } else {
        rest
    };
    shown.map_values(|entry| info_of(entry))
}

/// Reports a function.
pub fn function_info(entry: &FunctionEntry) -> (r: FunctionInfo)
    ensures
        r@ == info_of(entry@),
{
    let name = match &entry.name {
        Some(name) => name.clone(),
        None => concat2("sub_", number_text(entry.start, 16).as_str()),
    };
    FunctionInfo { address: hex_address(entry.start), name, size: entry.size }
}

/// Lists at most `limit` functions from `offset` on. `total` is the number of functions that
/// the database reports.
pub fn list_functions(
    functions: &Vec<FunctionEntry>,
    total: usize,
    offset: usize,
    limit: usize,
) -> (r: FunctionListResult)
    ensures
        infos_view(r.functions@) == page(
            entries_view(functions@),
            offset as nat,
            limit as nat,
        ),
        r.total == total,
        r.next_offset == if offset + r.functions@.len() < total {
            Some((offset + r.functions@.len()) as usize)
        } else {
            None
        },
        total == functions@.len() ==> r.next_offset == if offset + limit < total {
            Some((offset + limit) as usize)
        } else {
            None
        },
{
    let ghost entries = entries_view(functions@);
    let mut listed: Vec<FunctionInfo> = Vec::new();
    let mut i: usize = offset;
    while i < functions.len() && listed.len() < limit
        invariant
            entries == entries_view(functions@),
            offset <= i,
            i > offset ==> i <= functions@.len(),
            listed@.len() == i - offset,
            listed@.len() <= limit,
            forall|k: int|
                0 <= k < listed@.len() ==> (#[trigger] listed@[k])@ == info_of(entries[offset + k]),
        decreases functions.len() - i,
    {
        listed.push(function_info(&functions[i]));
        i = i + 1;
    }
    assert(infos_view(listed@) =~= page(entries, offset as nat, limit as nat));
    let next_offset = if i < total {
        Some(i)
    } else {
        None
    };
    FunctionListResult { functions: listed, total, next_offset }
}

/// Whether the function has a name, and `name` occurs in it.
pub open spec fn is_named(entry: FunctionEntry<Seq<char>>, name: Seq<char>) -> bool {
    entry.name matches Some(own) && text::has_part(own, name)
}

/// The first function in whose name `name` occurs.
pub open spec fn resolved(entries: Seq<FunctionEntry<Seq<char>>>, name: Seq<char>) -> Option<
    FunctionEntry<Seq<char>>,
>
    decreases entries.len(),
{
    if entries.len() == 0 {
        None
    } else if is_named(entries[0], name) {
        Some(entries[0])
    } else {
        resolved(entries.drop_first(), name)
    }
}

/// Finds the first function in whose name `name` occurs.
pub fn resolve_function(functions: &Vec<FunctionEntry>, name: &str) -> (r: Result<
    FunctionInfo,
    String,
>)
    ensures
        match resolved(entries_view(functions@), name@) {
            Some(entry) => r is Ok && r->Ok_0@ == info_of(entry),
            None => r is Err && r->Err_0@ == "Function not found: "@ + name@,
        },
{
    let ghost entries = entries_view(functions@);
    let mut i: usize = 0;
    assert(entries.skip(0) =~= entries);
    while i < functions.len()
        invariant
            entries == entries_view(functions@),
            i <= functions.len(),
            resolved(entries, name@) == resolved(entries.skip(i as int), name@),
        decreases functions.len() - i,
    {
        let entry = &functions[i];
        assert(entries.skip(i as int)[0] == entry@);
        if let Some(own) = &entry.name {
            if contains_text(own.as_str(), name) {
                return Ok(function_info(entry));
            }
        }
        assert(entries.skip(i as int).drop_first() =~= entries.skip(i + 1));
        i = i + 1;
    }
    Err(concat2("Function not found: ", name))
}

/// Finds where the first function starts in whose name `name` occurs.
pub fn function_address(functions: &Vec<FunctionEntry>, name: &str) -> (r: Result<u64, String>)
    ensures
        match resolved(entries_view(functions@), name@) {
            Some(entry) => r == Ok::<u64, String>(entry.start),
            None => r is Err && r->Err_0@ == "Function not found: "@ + name@,
        },
{
    let info = resolve_function(functions, name)?;
    proof {
        let entry = resolved(entries_view(functions@), name@)->0;
        number::shown_address_reads_back(entry.start);
    }
    parse_address(info.address.as_str())
}

/// A function that was found is one of the database's, its name holds what was asked for, and
/// no function before it has such a name.
pub proof fn a_resolved_function_is_the_first_of_its_name(
    entries: Seq<FunctionEntry<Seq<char>>>,
    name: Seq<char>,
)
    ensures
        match resolved(entries, name) {
            Some(entry) => exists|i: int|
                0 <= i < entries.len() && #[trigger] entries[i] == entry && is_named(entry, name)
                    && forall|k: int| 0 <= k < i ==> !is_named(#[trigger] entries[k], name),
            None => forall|k: int|
                0 <= k < entries.len() ==> !is_named(#[trigger] entries[k], name),
        },
    decreases entries.len(),
{
    if entries.len() > 0 {
        let rest = entries.drop_first();
        a_resolved_function_is_the_first_of_its_name(rest, name);
        if is_named(entries[0], name) {
        } else {
            match resolved(rest, name) {
                Some(entry) => {
                    let i = choose|i: int|
                        0 <= i < rest.len() && #[trigger] rest[i] == entry && is_named(entry, name)
                            && forall|k: int| 0 <= k < i ==> !is_named(#[trigger] rest[k], name);
                    assert(entries[i + 1] == entry);
                    assert forall|k: int| 0 <= k < i + 1 implies !is_named(
                        #[trigger] entries[k],
                        name,
                    ) by {
                        if k > 0 {
                            assert(rest[k - 1] == entries[k]);
                        }
                    }
                },
                None => {
                    assert forall|k: int| 0 <= k < entries.len() implies !is_named(
                        #[trigger] entries[k],
                        name,
                    ) by {
                        if k > 0 {
                            assert(rest[k - 1] == entries[k]);
                        }
                    }
                },
            }
        }
    }
}

/// All pages of at most `limit` functions, from `offset` on.
pub open spec fn pages(
    entries: Seq<FunctionEntry<Seq<char>>>,
    offset: nat,
    limit: nat,
) -> Seq<FunctionInfo<Seq<char>>>
    decreases entries.len() - offset,
{
    if limit == 0 || offset >= entries.len() {
        Seq::empty()
    } else {
        page(entries, offset, limit) + pages(
            entries,
            offset + page(entries, offset, limit).len(),
            limit,
        )
    }
}

/// Going from page to page, each function is reported exactly once and in order, whatever the
/// size of a page.
pub proof fn pages_report_every_function_once(
    entries: Seq<FunctionEntry<Seq<char>>>,
    offset: nat,
    limit: nat,
)
    requires
        limit > 0,
        offset <= entries.len(),
    ensures
        pages(entries, offset, limit) == entries.skip(offset as int).map_values(
            |entry| info_of(entry),
        ),
    decreases entries.len() - offset,
{
    let whole = entries.skip(offset as int).map_values(|entry| info_of(entry));
    if offset < entries.len() {
        let here = page(entries, offset, limit);
        pages_report_every_function_once(entries, offset + here.len(), limit);
        assert(here + entries.skip((offset + here.len()) as int).map_values(
            |entry| info_of(entry),
        ) =~= whole);
    } else {
        assert(whole =~= Seq::empty());
    }
}

/// A function is found by any part of its name, wherever that part stands in it: where the name
/// of some function is `before + name + after`, a function is found, its own name has `name`
/// somewhere, and no name of an earlier function has.
pub proof fn a_function_is_found_by_any_part_of_its_name(
    entries: Seq<FunctionEntry<Seq<char>>>,
    at: int,
    before: Seq<char>,
    name: Seq<char>,
    after: Seq<char>,
) -> (found: int)
    requires
        0 <= at < entries.len(),
        entries[at].name == Some(before + name + after),
    ensures
        0 <= found <= at,
        resolved(entries, name) == Some(entries[found]),
        exists|x: Seq<char>, y: Seq<char>| entries[found].name == Some(#[trigger] (x + name + y)),
        forall|k: int, x: Seq<char>, y: Seq<char>|
            0 <= k < found ==> (#[trigger] entries[k]).name != Some(#[trigger] (x + name + y)),
{
    text::a_part_is_found_wherever_it_stands(before, name, after);
    a_resolved_function_is_the_first_of_its_name(entries, name);
    assert(is_named(entries[at], name));
    let entry = resolved(entries, name)->0;
    let found = choose|i: int|
        0 <= i < entries.len() && #[trigger] entries[i] == entry && is_named(entry, name)
            && forall|k: int| 0 <= k < i ==> !is_named(#[trigger] entries[k], name);
    let (x, y) = text::a_found_part_stands_in_the_text(entries[found].name->0, name);
    assert(entries[found].name == Some(x + name + y));
    assert forall|k: int, x: Seq<char>, y: Seq<char>| 0 <= k < found implies (
    #[trigger] entries[k]).name != Some(#[trigger] (x + name + y)) by {
        text::a_part_is_found_wherever_it_stands(x, name, y);
        assert(!is_named(entries[k], name));
    }
    found
}

/// A function that is found has `name` in its own name, and where none is found no function has.
pub proof fn only_a_part_of_the_name_finds_a_function(
    entries: Seq<FunctionEntry<Seq<char>>>,
    name: Seq<char>,
    at: int,
    before: Seq<char>,
    after: Seq<char>,
)
    requires
        0 <= at < entries.len(),
    ensures
        match resolved(entries, name) {
            Some(entry) => entries.contains(entry) && exists|x: Seq<char>, y: Seq<char>|
                entry.name == Some(#[trigger] (x + name + y)),
            None => entries[at].name != Some(before + name + after),
        },
{
    a_resolved_function_is_the_first_of_its_name(entries, name);
    match resolved(entries, name) {
        Some(entry) => {
            let (x, y) = text::a_found_part_stands_in_the_text(entry.name->0, name);
            assert(entry.name == Some(x + name + y));
        },
        None => {
            text::a_part_is_found_wherever_it_stands(before, name, after);
            assert(!is_named(entries[at], name));
        },
    }
}

/// A function is reported under its own name, or else after its address; the address that is
/// shown is where it starts, and the size is its own.
pub proof fn a_reported_function_is_the_one_in_the_database(entry: FunctionEntry<Seq<char>>)
    ensures
        number::address_value(info_of(entry).address) == Some(entry.start),
        entry.name matches Some(name) ==> info_of(entry).name == name,
        entry.name is None ==> "0x"@ + info_of(entry).name.skip(4) == info_of(entry).address
            && info_of(entry).name.take(4) == "sub_"@,
        info_of(entry).size == entry.size,
{
    number::shown_address_reads_back(entry.start);
    reveal_strlit("sub_");
    reveal_strlit("0x");
    if entry.name is None {
        let digits = number::digits(entry.start as nat, 16);
        assert(("sub_"@ + digits).skip(4) =~= digits);
        assert(("sub_"@ + digits).take(4) =~= "sub_"@);
    }
}

/// The functions on a page are those from its offset on, in their order: as many as the page
/// holds, or as many as are left.
pub proof fn a_page_starts_at_its_offset(
    entries: Seq<FunctionEntry<Seq<char>>>,
    offset: nat,
    limit: nat,
    at: int,
)
    ensures
        offset + limit <= entries.len() ==> page(entries, offset, limit).len() == limit,
        offset <= entries.len() < offset + limit ==> page(entries, offset, limit).len()
            == entries.len() - offset,
        entries.len() < offset ==> page(entries, offset, limit).len() == 0,
        0 <= at < page(entries, offset, limit).len() ==> page(entries, offset, limit)[at]
            == info_of(entries[offset + at]),
{
}

} // verus!
