//! Answer to a request to run a Python script.

use crate::error::ToolError;
use crate::json;
use crate::json::{empty_object, set_flag, set_text, JsonField};
use vstd::prelude::*;

verus! {

/// What a script run gave.
#[derive(Debug, Clone)]
pub struct ScriptOutput {
    pub success: bool,
    pub stdout: String,
    pub stderr: String,
    pub error: Option<String>,
}

/// The entries of the answer to a script run: whether it succeeded, what it printed, and its
/// error where it has one.
pub open spec fn script_fields(output: ScriptOutput) -> Map<Seq<char>, JsonField> {
    let fields = Map::<Seq<char>, JsonField>::empty().insert(
        "success"@,
        JsonField::Flag(output.success),
    ).insert("stdout"@, JsonField::Text(output.stdout@)).insert(
        "stderr"@,
        JsonField::Text(output.stderr@),
    );
    match output.error {
        Some(error) => fields.insert("error"@, JsonField::Text(error@)),
        None => fields,
    }
}

/// Answers a request to run a script, given how the run went; nothing where no database is
/// open to run it in.
pub fn handle_run_script(run: Option<Result<ScriptOutput, ToolError>>) -> (r: Result<
    serde_json::Value,
    ToolError,
>)
    ensures
        match run {
            None => r is Err && r->Err_0@ == ToolError::<Seq<char>>::NoDatabaseOpen,
            Some(Err(error)) => r is Err && r->Err_0 == error,
            Some(Ok(output)) => r is Ok && json::object_fields(r->Ok_0) == Some(
                script_fields(output),
            ),
        },
{
    match run {
        None => Err(ToolError::NoDatabaseOpen),
        Some(Err(error)) => Err(error),
        Some(Ok(output)) => {
            let mut result = empty_object();
            set_flag(&mut result, "success", output.success);
            set_text(&mut result, "stdout", output.stdout.as_str());
            set_text(&mut result, "stderr", output.stderr.as_str());
            if let Some(error) = &output.error {
                set_text(&mut result, "error", error.as_str());
            }
            Ok(result)
        },
    }
}

/// The answer to a script run says whether it succeeded, what it printed on either stream, and
/// its error exactly where it has one; it says nothing else.
pub proof fn a_script_is_answered_with_what_it_gave(output: ScriptOutput, key: Seq<char>)
    ensures
        ({
            let fields = script_fields(output);
            &&& fields.dom().contains(key) <==> key == "success"@ || key == "stdout"@ || key
                == "stderr"@ || key == "error"@ && output.error is Some
            &&& fields["success"@] == JsonField::Flag(output.success)
            &&& fields["stdout"@] == JsonField::Text(output.stdout@)
            &&& fields["stderr"@] == JsonField::Text(output.stderr@)
            &&& output.error matches Some(error) ==> fields["error"@] == JsonField::Text(error@)
        }),
{
    reveal_strlit("success");
    reveal_strlit("stdout");
    reveal_strlit("stderr");
    reveal_strlit("error");
    assert("success"@[1] == 'u' && "stdout"@[1] == 't' && "stderr"@[1] == 't');
    assert("stdout"@[3] == 'o' && "stderr"@[3] == 'e');
    assert("error"@[0] == 'e');
}

} // verus!
