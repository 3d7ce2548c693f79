//! What a probe of a database does, and in which order.

use crate::database;
use crate::database::{has_ida_database_extension, idb_path_for_raw_binary};
use crate::number;
use crate::number::{hex_address, parse_address};
use crate::path::PathStyle;
use crate::text;
use crate::text::concat2;
use vstd::prelude::*;
use vstd::string::*;

verus! {

/// What a probe is asked for. `path` is expanded.
#[derive(Debug, Clone)]
pub struct ProbeRequest<T = String> {
    /// The platform whose rules the paths follow.
    pub style: PathStyle,
    pub path: T,
    pub idb_out: Option<T>,
    pub auto_analyse: bool,
    /// List so many functions.
    pub list: Option<usize>,
    /// Find a function by name.
    pub resolve: Option<T>,
    /// Disassemble a function found by name.
    pub disasm_by_name: Option<T>,
    /// Disassemble at an address.
    pub disasm_addr: Option<T>,
    /// Decompile the function at an address.
    pub decompile_addr: Option<T>,
    /// How many lines to disassemble.
    pub count: usize,
}

impl View for ProbeRequest<String> {
    type V = ProbeRequest<Seq<char>>;

    open spec fn view(&self) -> ProbeRequest<Seq<char>> {
        ProbeRequest {
            style: self.style,
            path: self.path@,
            idb_out: self.idb_out.deep_view(),
            auto_analyse: self.auto_analyse,
            list: self.list,
            resolve: self.resolve.deep_view(),
            disasm_by_name: self.disasm_by_name.deep_view(),
            disasm_addr: self.disasm_addr.deep_view(),
            decompile_addr: self.decompile_addr.deep_view(),
            count: self.count,
        }
    }
}

/// How a probe opens its database.
#[derive(Debug, Clone)]
pub struct ProbeOpen {
    pub path: String,
    /// Where the database of a raw input goes.
    pub output: Option<String>,
    pub auto_analyse: bool,
    pub save: bool,
    pub args: Vec<String>,
}

/// The arguments that IDA is started with for a probe.
pub fn probe_init_database_args() -> (r: Vec<String>)
    ensures
        r.deep_view() == seq!["-A"@],
{
    let mut r: Vec<String> = Vec::new();
    r.push("-A".to_owned());
    assert(r.deep_view() =~= seq!["-A"@]);
    r
}

/// Whether a probe has its database analysed.
pub open spec fn analyses(request: ProbeRequest<Seq<char>>) -> bool {
    !database::is_database(request.style, request.path) || request.auto_analyse
}

/// Where the database goes that a probe makes, where it makes one.
pub open spec fn made_database(request: ProbeRequest<Seq<char>>) -> Option<Seq<char>> {
    if database::is_database(request.style, request.path) {
        None
    } else {
        Some(database::raw_output(request.path, request.idb_out))
    }
}

/// How a probe opens its database: a raw input is always analysed, and its database goes to
/// the output that was asked for, else to the generated path.
pub fn open_db_for_probe(request: &ProbeRequest) -> (r: ProbeOpen)
    ensures
        r.path@ == request@.path,
        r.output.deep_view() == made_database(request@),
        r.auto_analyse == analyses(request@),
        r.save,
        r.args.deep_view() == seq!["-A"@],
{
    let args = probe_init_database_args();
    if has_ida_database_extension(request.style, request.path.as_str()) {
        ProbeOpen {
            path: request.path.clone(),
            output: None,
            auto_analyse: request.auto_analyse,
            save: true,
            args,
        }
    } else {
        let output = match &request.idb_out {
            Some(output) => output.clone(),
            None => idb_path_for_raw_binary(request.path.as_str()),
        };
        ProbeOpen {
            path: request.path.clone(),
            output: Some(output),
            auto_analyse: true,
            save: true,
            args,
        }
    }
}

/// One thing that a probe does.
#[derive(Debug, Clone)]
pub enum ProbeTask<T = String> {
    List { limit: usize },
    Resolve { name: T },
    DisasmByName { name: T, count: usize },
    DisasmAt { address: u64, count: usize },
    Decompile { address: u64 },
    /// Fail for the reason given.
    Fail { reason: T },
}

impl View for ProbeTask<String> {
    type V = ProbeTask<Seq<char>>;

    open spec fn view(&self) -> ProbeTask<Seq<char>> {
        match self {
            ProbeTask::List { limit } => ProbeTask::List { limit: *limit },
            ProbeTask::Resolve { name } => ProbeTask::Resolve { name: name@ },
            ProbeTask::DisasmByName { name, count } => ProbeTask::DisasmByName {
                name: name@,
                count: *count,
            },
            ProbeTask::DisasmAt { address, count } => ProbeTask::DisasmAt {
                address: *address,
                count: *count,
            },
            ProbeTask::Decompile { address } => ProbeTask::Decompile { address: *address },
            ProbeTask::Fail { reason } => ProbeTask::Fail { reason: reason@ },
        }
    }
}

/// The views of a list of tasks.
pub open spec fn tasks_view(tasks: Seq<ProbeTask>) -> Seq<ProbeTask<Seq<char>>> {
    tasks.map_values(|task: ProbeTask| task@)
}

/// Fails because `s` is no address.
pub open spec fn bad_address(s: Seq<char>) -> ProbeTask<Seq<char>> {
    ProbeTask::Fail { reason: "Invalid address format: "@ + text::trimmed(s, false) }
}

/// What is left once names are dealt with: the address to decompile at.
pub open spec fn decompile_tasks(request: ProbeRequest<Seq<char>>) -> Seq<
    ProbeTask<Seq<char>>,
> {
    match request.decompile_addr {
        Some(s) => match number::address_value(s) {
            Some(address) => seq![ProbeTask::Decompile { address }],
            None => seq![bad_address(s)],
        },
        None => Seq::empty(),
    }
}

/// The addresses to disassemble and decompile at. Nothing follows one that cannot be read.
pub open spec fn address_tasks(request: ProbeRequest<Seq<char>>) -> Seq<ProbeTask<Seq<char>>> {
    match request.disasm_addr {
        Some(s) => match number::address_value(s) {
            Some(address) => seq![ProbeTask::DisasmAt { address, count: request.count }]
                + decompile_tasks(request),
            None => seq![bad_address(s)],
        },
        None => decompile_tasks(request),
    }
}

/// What a probe does, in order, once its database is open.
pub open spec fn plan(request: ProbeRequest<Seq<char>>) -> Seq<ProbeTask<Seq<char>>> {
    let none = Seq::<ProbeTask<Seq<char>>>::empty();
    let listed = match request.list {
        Some(limit) => none.push(ProbeTask::List { limit }),
        None => none,
    };
    let found = match request.resolve {
        Some(name) => listed.push(ProbeTask::Resolve { name }),
        None => listed,
    };
    let shown = match request.disasm_by_name {
        Some(name) => found.push(ProbeTask::DisasmByName { name, count: request.count }),
        None => found,
    };
    shown + address_tasks(request)
}

fn with_task(tasks: Vec<ProbeTask>, task: ProbeTask) -> (r: Vec<ProbeTask>)
    ensures
        tasks_view(r@) == tasks_view(tasks@).push(task@),
{
    let mut r = tasks;
    let ghost before = r@;
    r.push(task);
    assert(tasks_view(r@) =~= tasks_view(before).push(task@));
    r
}

/// What a probe does, in order, once its database is open.
pub fn probe_plan(request: &ProbeRequest) -> (r: Vec<ProbeTask>)
    ensures
        tasks_view(r@) == plan(request@),
{
    let mut tasks: Vec<ProbeTask> = Vec::new();
    assert(tasks_view(tasks@) =~= Seq::<ProbeTask<Seq<char>>>::empty());
    if let Some(limit) = request.list {
        tasks = with_task(tasks, ProbeTask::List { limit });
    }
    if let Some(name) = &request.resolve {
        tasks = with_task(tasks, ProbeTask::Resolve { name: name.clone() });
    }
    if let Some(name) = &request.disasm_by_name {
        tasks = with_task(
            tasks,
            ProbeTask::DisasmByName { name: name.clone(), count: request.count },
        );
    }
    let ghost named = tasks_view(tasks@);
    if let Some(s) = &request.disasm_addr {
        match parse_address(s.as_str()) {
            Ok(address) => {
                tasks = with_task(tasks, ProbeTask::DisasmAt { address, count: request.count });
            },
            Err(reason) => {
                let tasks = with_task(tasks, ProbeTask::Fail { reason });
                assert(tasks_view(tasks@) =~= plan(request@));
                return tasks;
            },
        }
    }
    if let Some(s) = &request.decompile_addr {
        match parse_address(s.as_str()) {
            Ok(address) => {
                tasks = with_task(tasks, ProbeTask::Decompile { address });
            },
            Err(reason) => {
                tasks = with_task(tasks, ProbeTask::Fail { reason });
            },
        }
    }
    assert(tasks_view(tasks@) =~= named + address_tasks(request@));
    tasks
}

/// How decompiling the function at an address went.
#[derive(Debug, Clone)]
pub enum Decompilation {
    NoFunction,
    NoDecompiler,
    Failed(String),
    Pseudocode(String),
}

/// The pseudocode of the function at `address`, or why there is none.
pub fn decompile_reply(address: u64, decompilation: Decompilation) -> (r: Result<String, String>)
    ensures
        match decompilation {
            Decompilation::NoFunction => r is Err && r->Err_0@
                == "Function not found at address "@ + number::address_text(address as nat),
            Decompilation::NoDecompiler => r is Err && r->Err_0@ == "Decompiler not available"@,
            Decompilation::Failed(reason) => r is Err && r->Err_0@ == "Decompile failed: "@
                + reason@,
            Decompilation::Pseudocode(code) => r is Ok && r->Ok_0@ == code@,
        },
{
    match decompilation {
        Decompilation::NoFunction => Err(
            concat2("Function not found at address ", hex_address(address).as_str()),
        ),
        Decompilation::NoDecompiler => Err("Decompiler not available".to_owned()),
        Decompilation::Failed(reason) => Err(concat2("Decompile failed: ", reason.as_str())),
        Decompilation::Pseudocode(code) => Ok(code),
    }
}

/// Nothing follows a failure, and a probe fails only where an address cannot be read.
pub proof fn a_probe_stops_at_the_first_bad_address(request: ProbeRequest<Seq<char>>, at: int)
    requires
        0 <= at < plan(request).len(),
        plan(request)[at] is Fail,
    ensures
        at == plan(request).len() - 1,
        ({
            ||| request.disasm_addr matches Some(s) && number::address_value(s) is None
            ||| request.decompile_addr matches Some(s) && number::address_value(s) is None
        }),
{
    let tail = address_tasks(request);
    let named = plan(request).len() - tail.len();
    assert(at < named ==> plan(request)[at] !is Fail);
    assert(at >= named ==> plan(request)[at] == tail[at - named]);
}

/// When a task is done among the others.
pub open spec fn turn(task: ProbeTask<Seq<char>>) -> nat {
    match task {
        ProbeTask::List { .. } => 0,
        ProbeTask::Resolve { .. } => 1,
        ProbeTask::DisasmByName { .. } => 2,
        ProbeTask::DisasmAt { .. } => 3,
        ProbeTask::Decompile { .. } => 4,
        ProbeTask::Fail { .. } => 5,
    }
}

/// Whether a request asks for `task`. An address that cannot be read is asked for in vain, and
/// so is what comes behind it.
pub open spec fn asks_for(request: ProbeRequest<Seq<char>>, task: ProbeTask<Seq<char>>) -> bool {
    let bad_disasm = request.disasm_addr matches Some(s) && number::address_value(s) is None;
    match task {
        ProbeTask::List { limit } => request.list == Some(limit),
        ProbeTask::Resolve { name } => request.resolve == Some(name),
        ProbeTask::DisasmByName { name, count } => request.disasm_by_name == Some(name) && count
            == request.count,
        ProbeTask::DisasmAt { address, count } => (request.disasm_addr matches Some(s)
            && number::address_value(s) == Some(address)) && count == request.count,
        ProbeTask::Decompile { address } => !bad_disasm && (request.decompile_addr matches Some(s)
            && number::address_value(s) == Some(address)),
        ProbeTask::Fail { reason } => if bad_disasm {
            reason == "Invalid address format: "@ + text::trimmed(request.disasm_addr->0, false)
        } else {
            (request.decompile_addr matches Some(s) && number::address_value(s) is None) && reason
                == "Invalid address format: "@ + text::trimmed(request.decompile_addr->0, false)
        },
    }
}

/// A probe does exactly what it is asked for, and each thing once: it lists, finds, disassembles
/// by name and by address, and decompiles, in this order.
pub proof fn a_probe_does_what_it_is_asked_for(
    request: ProbeRequest<Seq<char>>,
    task: ProbeTask<Seq<char>>,
    i: int,
    j: int,
)
    ensures
        plan(request).contains(task) <==> asks_for(request, task),
        0 <= i < j < plan(request).len() ==> turn(plan(request)[i]) < turn(plan(request)[j]),
{
    lemma_tasks_contain();
    lemma_decompile_tasks(request);
}

proof fn lemma_tasks_contain()
    ensures
        forall|task: ProbeTask<Seq<char>>| !#[trigger] Seq::<ProbeTask<Seq<char>>>::empty().contains(
            task,
        ),
        forall|tasks: Seq<ProbeTask<Seq<char>>>, last: ProbeTask<Seq<char>>, task: ProbeTask<Seq<char>>|
            #[trigger] tasks.push(last).contains(task) <==> tasks.contains(task) || task == last,
        forall|a: Seq<ProbeTask<Seq<char>>>, b: Seq<ProbeTask<Seq<char>>>, task: ProbeTask<Seq<char>>|
            #[trigger] (a + b).contains(task) <==> a.contains(task) || b.contains(task),
        forall|one: ProbeTask<Seq<char>>, task: ProbeTask<Seq<char>>| #[trigger]
            seq![one].contains(task) <==> task == one,
{
    assert forall|tasks: Seq<ProbeTask<Seq<char>>>, last: ProbeTask<Seq<char>>, task: ProbeTask<Seq<char>>|
        #[trigger] tasks.push(last).contains(task) <==> tasks.contains(task) || task == last by {
        let all = tasks.push(last);
        if tasks.contains(task) {
            let k = choose|k: int| 0 <= k < tasks.len() && tasks[k] == task;
            assert(all[k] == task);
        }
        assert(all[tasks.len() as int] == last);
        if all.contains(task) && task != last {
            let k = choose|k: int| 0 <= k < all.len() && all[k] == task;
            assert(tasks[k] == task);
        }
    }
    assert forall|a: Seq<ProbeTask<Seq<char>>>, b: Seq<ProbeTask<Seq<char>>>, task: ProbeTask<Seq<char>>|
        #[trigger] (a + b).contains(task) <==> a.contains(task) || b.contains(task) by {
        let all = a + b;
        if a.contains(task) {
            let k = choose|k: int| 0 <= k < a.len() && a[k] == task;
            assert(all[k] == task);
        }
        if b.contains(task) {
            let k = choose|k: int| 0 <= k < b.len() && b[k] == task;
            assert(all[a.len() + k] == task);
        }
        if all.contains(task) {
            let k = choose|k: int| 0 <= k < all.len() && all[k] == task;
            if k < a.len() {
                assert(a[k] == task);
            } else {
                assert(b[k - a.len()] == task);
            }
        }
    }
    assert forall|one: ProbeTask<Seq<char>>, task: ProbeTask<Seq<char>>| #[trigger]
        seq![one].contains(task) <==> task == one by {
        assert(seq![one][0] == one);
    }
}

proof fn lemma_decompile_tasks(request: ProbeRequest<Seq<char>>)
    ensures
        forall|i: int, j: int|
            0 <= i < j < address_tasks(request).len() ==> turn(#[trigger] address_tasks(request)[i])
                < turn(#[trigger] address_tasks(request)[j]),
        forall|i: int|
            0 <= i < address_tasks(request).len() ==> turn(#[trigger] address_tasks(request)[i])
                >= 3,
{
}

/// A probe of a raw input always analyses it, and makes a database for it: at the output that was
/// asked for, else with `.i64` behind the whole path. A probe of a database makes none, and
/// analyses it only where that was asked for.
pub proof fn a_probe_makes_databases_for_raw_inputs_only(request: ProbeRequest<Seq<char>>)
    ensures
        database::is_database(request.style, request.path) ==> made_database(request) is None
            && analyses(request) == request.auto_analyse,
        !database::is_database(request.style, request.path) ==> {
            &&& analyses(request)
            &&& request.idb_out is Some ==> made_database(request) == request.idb_out
            &&& request.idb_out is None ==> made_database(request) == Some(
                request.path + seq!['.', 'i', '6', '4'],
            )
        },
{
    reveal_strlit(".i64");
    assert(".i64"@ =~= seq!['.', 'i', '6', '4']);
}

} // verus!
