use ida_mcp::db_info::{build_db_info, DatabaseFacts};
use ida_mcp::debug_info::{debug_info_target, handle_load_debug_info};
use ida_mcp::disasm::{DisasmCursor, HeadFacts};
use ida_mcp::error::ToolError;
use ida_mcp::files::{EntryKind, FileFacts, PathFact};
use ida_mcp::functions::{function_address, list_functions, resolve_function, FunctionEntry};
use ida_mcp::open_types::DebugInfoLoad;
use ida_mcp::path::PathStyle;
use ida_mcp::probe::{
    decompile_reply, open_db_for_probe, probe_init_database_args, probe_plan, Decompilation,
    ProbeRequest,
};
use ida_mcp::script::{handle_run_script, ScriptOutput};

const UNIX: PathStyle = PathStyle::Unix;

fn script(error: Option<&str>) -> ScriptOutput {
    ScriptOutput {
        success: error.is_none(),
        stdout: "out\n".to_string(),
        stderr: "err".to_string(),
        error: error.map(|error| error.to_string()),
    }
}

#[test]
fn a_script_run_is_answered_with_its_output() {
    let value = handle_run_script(Some(Ok(script(None)))).expect("a reply");
    assert_eq!(
        value.to_string(),
        "{\"stderr\":\"err\",\"stdout\":\"out\\n\",\"success\":true}"
    );
    let value = handle_run_script(Some(Ok(script(Some("boom"))))).expect("a reply");
    assert_eq!(value.as_object().expect("an object").len(), 4);
    assert_eq!(value["success"], false);
    assert_eq!(value["stdout"], "out\n");
    assert_eq!(value["stderr"], "err");
    assert_eq!(value["error"], "boom");
}

#[test]
fn a_script_needs_an_open_database() {
    assert_eq!(handle_run_script(None), Err(ToolError::NoDatabaseOpen));
    let failed = ToolError::Ida("no python".to_string());
    assert_eq!(handle_run_script(Some(Err(failed.clone()))), Err(failed));
}

#[test]
fn loaded_debug_info_is_reported() {
    let value = handle_load_debug_info("/x.dbg", Ok(false)).expect("a reply");
    assert_eq!(value.to_string(), "{\"loaded\":false,\"path\":\"/x.dbg\"}");
    let failed = ToolError::Ida("bad dwarf".to_string());
    assert_eq!(
        handle_load_debug_info("/x.dbg", Err(failed.clone())),
        Err(failed)
    );
}

#[test]
fn debug_info_is_found_where_it_was_asked_for_or_beside_the_input() {
    let dsym = "/d/app.dSYM/Contents/Resources/DWARF/app";
    let files = FileFacts {
        entries: vec![PathFact {
            path: dsym.to_string(),
            kind: EntryKind::File,
        }],
    };
    let none = FileFacts {
        entries: Vec::new(),
    };
    assert_eq!(
        debug_info_target(UNIX, None, Some(dsym), &files),
        Err(ToolError::NoDatabaseOpen)
    );
    assert_eq!(
        debug_info_target(UNIX, Some("/d/app.i64"), None, &files),
        Ok(dsym.to_string())
    );
    assert_eq!(
        debug_info_target(UNIX, Some("/d/app.i64"), None, &none),
        Err(ToolError::InvalidPath("No sibling .dSYM found".to_string()))
    );
    assert_eq!(
        debug_info_target(UNIX, Some("/d/app.i64"), Some("/x"), &files),
        Err(ToolError::InvalidPath("File not found: /x".to_string()))
    );
    assert_eq!(
        debug_info_target(UNIX, Some("/d/other.i64"), Some(dsym), &files),
        Ok(dsym.to_string())
    );
}

#[test]
fn a_database_is_reported_with_its_address_size() {
    let info = build_db_info(
        DatabaseFacts {
            file_type: "ELF".to_string(),
            processor: "ARM".to_string(),
            is_64bit: false,
            is_32bit_exactly: true,
            function_count: 3,
            analysis_status: "idle",
        },
        "/d/a.i64",
        Some(DebugInfoLoad {
            path: "/x".to_string(),
            loaded: true,
            error: None,
        }),
    );
    assert_eq!(info.path, "/d/a.i64");
    assert_eq!(info.file_type, "ELF");
    assert_eq!(info.processor, "ARM");
    assert_eq!(info.bits, 32);
    assert_eq!(info.function_count, 3);
    assert_eq!(info.analysis_status, "idle");
    assert!(info.debug_info.expect("debug info").loaded);
}

fn function(start: u64, name: Option<&str>) -> FunctionEntry {
    FunctionEntry {
        start,
        name: name.map(|name| name.to_string()),
        size: 16,
    }
}

fn functions() -> Vec<FunctionEntry> {
    vec![
        function(0x1000, Some("start")),
        function(0x1010, None),
        function(0x1020, Some("main_loop")),
        function(0x1030, Some("main")),
    ]
}

#[test]
fn functions_are_listed_page_by_page() {
    let page = list_functions(&functions(), 4, 0, 2);
    assert_eq!(page.total, 4);
    assert_eq!(page.next_offset, Some(2));
    assert_eq!(page.functions.len(), 2);
    assert_eq!(page.functions[0].address, "0x1000");
    assert_eq!(page.functions[0].name, "start");
    assert_eq!(page.functions[0].size, 16);
    assert_eq!(page.functions[1].name, "sub_1010");

    let page = list_functions(&functions(), 4, 2, 100);
    assert_eq!(page.next_offset, None);
    assert_eq!(page.functions.len(), 2);
    assert_eq!(page.functions[1].name, "main");

    let page = list_functions(&functions(), 4, 9, 2);
    assert_eq!(page.next_offset, None);
    assert!(page.functions.is_empty());

    let page = list_functions(&functions(), 4, 1, 0);
    assert_eq!(page.next_offset, Some(1));
    assert!(page.functions.is_empty());
}

#[test]
fn pages_put_together_are_the_whole_list() {
    let mut names: Vec<String> = Vec::new();
    let mut offset = Some(0);
    while let Some(at) = offset {
        let page = list_functions(&functions(), 4, at, 3);
        names.extend(page.functions.into_iter().map(|function| function.name));
        offset = page.next_offset;
    }
    assert_eq!(names, vec!["start", "sub_1010", "main_loop", "main"]);
}

#[test]
fn the_first_function_whose_name_holds_the_text_is_found() {
    let found = resolve_function(&functions(), "main").expect("a function");
    assert_eq!(found.name, "main_loop");
    assert_eq!(found.address, "0x1020");
    assert_eq!(function_address(&functions(), "main"), Ok(0x1020));
    assert_eq!(
        resolve_function(&functions(), "sub_1010").map(|found| found.name),
        Err("Function not found: sub_1010".to_string())
    );
    assert_eq!(
        function_address(&functions(), "nope"),
        Err("Function not found: nope".to_string())
    );
}

fn head(line: Option<&str>, insn_len: Option<u64>, next_head: Option<u64>) -> HeadFacts {
    HeadFacts {
        line: line.map(|line| line.to_string()),
        insn_len,
        next_head,
    }
}

fn disassemble(
    start: u64,
    count: usize,
    heads: fn(u64) -> HeadFacts,
) -> Result<String, String> {
    let mut cursor = DisasmCursor::new(start, count);
    while let Some(address) = cursor.wanted() {
        cursor.feed(heads(address));
    }
    cursor.finish()
}

#[test]
fn disassembly_goes_from_instruction_to_instruction() {
    let heads = |address: u64| match address {
        0x10 => head(Some("push rbp"), Some(1), Some(0x90)),
        0x11 => head(Some("dd 5"), None, Some(0x18)),
        0x18 => head(Some("ret"), Some(1), None),
        _ => head(None, None, None),
    };
    assert_eq!(
        disassemble(0x10, 20, heads),
        Ok("0x10:\tpush rbp\n0x11:\tdd 5\n0x18:\tret".to_string())
    );
    assert_eq!(
        disassemble(0x10, 2, heads),
        Ok("0x10:\tpush rbp\n0x11:\tdd 5".to_string())
    );
    assert_eq!(
        disassemble(0x10, 0, heads),
        Err("Address out of range: 0x10".to_string())
    );
    assert_eq!(
        disassemble(0x99, 5, heads),
        Err("Address out of range: 0x99".to_string())
    );
}

#[test]
fn disassembly_never_goes_back() {
    let heads = |address: u64| head(Some("db 0"), None, Some(address));
    assert_eq!(disassemble(0x10, 5, heads), Ok("0x10:\tdb 0".to_string()));
    let heads = |_address: u64| head(Some("db 0"), None, None);
    assert_eq!(disassemble(0x10, 5, heads), Ok("0x10:\tdb 0".to_string()));
}

fn probe(path: &str) -> ProbeRequest {
    ProbeRequest {
        style: UNIX,
        path: path.to_string(),
        idb_out: None,
        auto_analyse: false,
        list: None,
        resolve: None,
        disasm_by_name: None,
        disasm_addr: None,
        decompile_addr: None,
        count: 20,
    }
}

#[test]
fn a_probe_analyses_raw_inputs_and_leaves_databases_alone() {
    let database = open_db_for_probe(&probe("/d/a.id0"));
    assert_eq!(database.path, "/d/a.id0");
    assert_eq!(database.output, None);
    assert!(!database.auto_analyse);
    assert!(database.save);
    assert_eq!(database.args, probe_init_database_args());
    assert_eq!(database.args, vec!["-A"]);

    let raw = open_db_for_probe(&probe("/d/a.bin"));
    assert_eq!(raw.output, Some("/d/a.bin.i64".to_string()));
    assert!(raw.auto_analyse);

    let mut elsewhere = probe("/d/a.bin");
    elsewhere.idb_out = Some("/x.i64".to_string());
    assert_eq!(
        open_db_for_probe(&elsewhere).output,
        Some("/x.i64".to_string())
    );
}

#[test]
fn a_probe_does_its_tasks_in_order() {
    let mut all = probe("/d/a.bin");
    all.list = Some(5);
    all.resolve = Some("a".to_string());
    all.disasm_by_name = Some("b".to_string());
    all.disasm_addr = Some("0x10".to_string());
    all.decompile_addr = Some("17".to_string());
    let names = |request: &ProbeRequest| {
        probe_plan(request)
            .iter()
            .map(|task| format!("{task:?}"))
            .collect::<Vec<String>>()
    };
    assert_eq!(
        names(&all),
        vec![
            "List { limit: 5 }",
            "Resolve { name: \"a\" }",
            "DisasmByName { name: \"b\", count: 20 }",
            "DisasmAt { address: 16, count: 20 }",
            "Decompile { address: 17 }",
        ]
    );
    assert!(names(&probe("/d/a.bin")).is_empty());

    all.disasm_addr = Some(" zz ".to_string());
    assert_eq!(
        names(&all)[3..],
        ["Fail { reason: \"Invalid address format: zz\" }"]
    );
    all.disasm_addr = None;
    all.decompile_addr = Some("0x".to_string());
    assert_eq!(
        names(&all)[3..],
        ["Fail { reason: \"Invalid address format: 0x\" }"]
    );
}

#[test]
fn decompilation_fails_for_a_stated_reason() {
    assert_eq!(
        decompile_reply(0x10, Decompilation::NoFunction),
        Err("Function not found at address 0x10".to_string())
    );
    assert_eq!(
        decompile_reply(0x10, Decompilation::NoDecompiler),
        Err("Decompiler not available".to_string())
    );
    assert_eq!(
        decompile_reply(0x10, Decompilation::Failed("timeout".to_string())),
        Err("Decompile failed: timeout".to_string())
    );
    assert_eq!(
        decompile_reply(0x10, Decompilation::Pseudocode("int f();".to_string())),
        Ok("int f();".to_string())
    );
}
