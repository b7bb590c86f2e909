//! Running a shell command: its validation, its environment and the text
//! reported for what it printed.
use vstd::prelude::*;

use crate::text::{concat, signed_decimal, signed_decimal_string};
use crate::util::{decode_lossy, expand_env_vars_impl, expanded, lossy_utf8, vars_view};

verus! {

pub const EXECUTE_CMD_TOOL_DESCRIPTION: &'static str = "
A tool for executing PowerShell commands.

WHEN TO USE THIS TOOL:
- Use only as a last-resort when no other available tool can accomplish the task

HOW TO USE:
- Provide the command to execute

FEATURES:

LIMITATIONS:
- Does not respect user's PowerShell profile

TIPS:
- Use the fileRead and fileWrite tools for reading and modifying files
";

pub const EXECUTE_CMD_SCHEMA: &'static str = r#"
{
    "type": "object",
    "properties": {
        "command": {
            "type": "string",
            "description": "Command to execute"
        }
    },
    "required": [
        "command"
    ]
}
"#;

/// A shell command to run.
#[derive(Debug, Clone)]
pub struct ExecuteCmd {
    pub command: String,
}

/// The environment variable that selects the shell.
pub const SHELL_ENV_VAR: &'static str = "AMAZON_Q_CHAT_SHELL";

/// The shell used when none is selected.
pub const DEFAULT_SHELL: &'static str = "pwsh";

/// The variable that identifies the agent to the programs it runs, and its
/// value.
pub const USER_AGENT_ENV_VAR: &'static str = "AWS_EXECUTION_ENV";
pub const USER_AGENT_APP_NAME: &'static str = "AmazonQ-For-CLI";

/// The variable that gives the agent's version, and its value.
pub const USER_AGENT_VERSION_KEY: &'static str = "Version";
pub const USER_AGENT_VERSION_VALUE: &'static str = "1.0.0";

/// The text reported for a finished command: its output, then its error
/// output after a blank line; when it printed nothing, its exit code.
pub open spec fn command_text(stdout: Seq<char>, stderr: Seq<char>, exit_code: i32) -> Seq<char> {
    let out = if stdout.len() == 0 && stderr.len() == 0 {
        Seq::empty()
    } else if stderr.len() == 0 {
        stdout
    } else if stdout.len() == 0 {
        stderr
    } else {
        stdout + "\n\n"@ + stderr
    };
    if out.len() == 0 {
        "Command exited with code "@ + signed_decimal(exit_code as int)
    } else {
        out
    }
}

/// The shell, selected by `SHELL_ENV_VAR` when it is set.
pub fn shell_name(selected: Option<String>) -> (r: String)
    ensures
        selected matches Some(s) ==> r@ == s@,
        selected is None ==> r@ == DEFAULT_SHELL@,
{
    match selected {
        Some(s) => s,
        None => DEFAULT_SHELL.to_owned(),
    }
}

impl ExecuteCmd {
    /// The command must not be empty.
    pub fn validate(&self) -> (r: Result<(), String>)
        ensures
            self.command@.len() == 0 ==> (r matches Err(m) && m@ == "Command must not be empty"@),
            self.command@.len() > 0 ==> r is Ok,
    {
        if self.command.as_str().is_empty() {
            Err("Command must not be empty".to_owned())
        } else {
            Ok(())
        }
    }

    /// The arguments handed to the shell: no profile, no prompts, and the
    /// command as one argument.
    pub fn shell_args(&self) -> (r: Vec<String>)
        ensures
            r@.len() == 4,
            r@[0]@ == "-NoProfile"@,
            r@[1]@ == "-NonInteractive"@,
            r@[2]@ == "-Command"@,
            r@[3]@ == self.command@,
    {
        vec![
            "-NoProfile".to_owned(),
            "-NonInteractive".to_owned(),
            "-Command".to_owned(),
            self.command.clone(),
        ]
    }

    /// The variables added to the command's environment: the agent's
    /// identity and version, with their placeholders expanded against
    /// `vars`.
    pub fn command_env(vars: &Vec<(String, String)>) -> (r: Vec<(String, String)>)
        ensures
            r@.len() == 2,
            r@[0].0@ == USER_AGENT_ENV_VAR@,
            r@[0].1@ == expanded(USER_AGENT_APP_NAME@, vars_view(vars@)),
            r@[1].0@ == USER_AGENT_VERSION_KEY@,
            r@[1].1@ == expanded(USER_AGENT_VERSION_VALUE@, vars_view(vars@)),
    {
        let mut env = vec![
            (USER_AGENT_ENV_VAR.to_owned(), USER_AGENT_APP_NAME.to_owned()),
            (USER_AGENT_VERSION_KEY.to_owned(), USER_AGENT_VERSION_VALUE.to_owned()),
        ];
        expand_env_vars_impl(&mut env, vars);
        env
    }
}

/// The text reported for a command that printed `stdout` and `stderr` and
/// exited with `exit_code`.
pub fn command_output_text(stdout: &str, stderr: &str, exit_code: i32) -> (r: String)
    ensures
        r@ == command_text(stdout@, stderr@, exit_code),
{
    let mut result = String::new();
    if !stdout.is_empty() {
        result.append(stdout);
    }
    if !stderr.is_empty() {
        if !result.as_str().is_empty() {
            result.append("\n\n");
        }
        result.append(stderr);
    }
    proof {
        reveal_strlit("\n\n");
        assert(Seq::<char>::empty() + stdout@ == stdout@);
        assert(Seq::<char>::empty() + stderr@ == stderr@);
    }
    if result.as_str().is_empty() {
        return concat("Command exited with code ", signed_decimal_string(exit_code as i64).as_str());
    }
    result
}

/// The text reported for a finished command from the raw bytes it
/// printed; a command without an exit code counts as exiting with -1.
pub fn command_output(stdout: &Vec<u8>, stderr: &Vec<u8>, exit_code: Option<i32>) -> (r: String)
    ensures
        r@ == command_text(
            lossy_utf8(stdout@),
            lossy_utf8(stderr@),
            match exit_code {
                Some(c) => c,
                None => -1i32,
            },
        ),
        vstd::utf8::valid_utf8(stdout@) ==> lossy_utf8(stdout@) == vstd::utf8::decode_utf8(stdout@),
        vstd::utf8::valid_utf8(stderr@) ==> lossy_utf8(stderr@) == vstd::utf8::decode_utf8(stderr@),
{
    let out = decode_lossy(stdout.as_slice());
    let err = decode_lossy(stderr.as_slice());
    let code = match exit_code {
        Some(c) => c,
        None => -1,
    };
    command_output_text(out.as_str(), err.as_str(), code)
}

} // verus!
