use serde_json::Value;
use skill_dynamic_context::command::{
    admit_command, check_updated_command, saturating_millis, tool_error_to_string,
    ApprovedCommand, CommandRequest, ExecApprovalRequest, ExecArgsRequest, HookToolName,
    PendingCommand, PostToolUseHookOutcome, PreToolUseHookResult, ReadyCommand,
    SandboxPermissions, ShellRuntimeBackend, ToolError, TurnEnvironment,
};
use skill_dynamic_context::env::EnvVars;
use skill_dynamic_context::json::{command_of_input, tool_input, tool_response};
use skill_dynamic_context::output::{CommandRunOutput, ExecToolCallOutput, StreamOutput};

const CHANGED: &str = "PreToolUse updatedInput is not supported for skill dynamic context";

fn request(command: &str) -> CommandRequest {
    CommandRequest {
        command: command.to_string(),
        timeout_seconds: 10,
        output_limit: 4,
    }
}

fn environment() -> Option<TurnEnvironment> {
    Some(TurnEnvironment {
        cwd: "/work/dir".to_string(),
    })
}

fn pending(command: &str) -> PendingCommand {
    match admit_command(request(command), environment()) {
        Ok(admitted) => admitted.identify("turn-7", 42),
        Err(error) => panic!("{error}"),
    }
}

fn approved(command: &str) -> ApprovedCommand {
    match pending(command).on_pre_tool_use(PreToolUseHookResult::Continue {
        updated_input: None,
    }) {
        Ok(approved) => approved,
        Err(error) => panic!("{error}"),
    }
}

fn exec_args(command: &str) -> Vec<String> {
    vec!["bash".to_string(), "-lc".to_string(), command.to_string()]
}

fn ready(command: &str) -> ReadyCommand {
    approved(command).with_exec_args("zsh".to_string(), exec_args(command))
}

fn shell_output(stdout: &str) -> ExecToolCallOutput {
    let stream = |text: &str| StreamOutput {
        text: text.to_string(),
        truncated_after_lines: None,
    };
    ExecToolCallOutput {
        exit_code: 0,
        stdout: stream(stdout),
        stderr: stream(""),
        aggregated_output: stream(stdout),
        timed_out: false,
    }
}

fn json(text: &str) -> Value {
    serde_json::from_str(text).expect("valid JSON")
}

fn vars(entries: &[(&str, &str)]) -> EnvVars {
    EnvVars::from_entries(
        &entries
            .iter()
            .map(|(name, value)| (name.to_string(), value.to_string()))
            .collect(),
    )
}

fn sorted(env: EnvVars) -> Vec<(String, String)> {
    let mut entries = env.into_entries();
    entries.sort();
    entries
}

fn pairs(entries: &[(&str, &str)]) -> Vec<(String, String)> {
    entries
        .iter()
        .map(|(name, value)| (name.to_string(), value.to_string()))
        .collect()
}

#[test]
fn blank_command_is_refused() {
    for command in ["", "  ", "\t\u{3000}"] {
        assert_eq!(
            admit_command(request(command), environment()).err(),
            Some("command is empty".to_string())
        );
        assert_eq!(
            admit_command(request(command), None).err(),
            Some("command is empty".to_string())
        );
    }
}

#[test]
fn command_without_environment_is_refused() {
    assert_eq!(
        admit_command(request("ls"), None).err(),
        Some("no execution environment is selected".to_string())
    );
    assert!(admit_command(request("ls"), environment()).is_ok());
}

#[test]
fn hooks_are_given_the_command_under_its_identifier() {
    let given = pending("git \"log\"").pre_tool_use_request();
    assert_eq!(given.tool_use_id, "skill-dynamic-context-turn-7-42");
    assert_eq!(given.tool_name, HookToolName::Bash);
    assert_eq!(given.tool_input, json(r#"{"command": "git \"log\""}"#));
}

#[test]
fn blocked_command_is_not_approved() {
    let blocked = PreToolUseHookResult::Blocked("not today".to_string());
    assert_eq!(
        pending("ls").on_pre_tool_use(blocked).err(),
        Some("not today".to_string())
    );
}

#[test]
fn unchanged_input_passes() {
    let command = pending("ls");
    let input = command.pre_tool_use_request().tool_input;
    assert!(command
        .on_pre_tool_use(PreToolUseHookResult::Continue {
            updated_input: Some(input),
        })
        .is_ok());
    assert!(pending("ls")
        .on_pre_tool_use(PreToolUseHookResult::Continue {
            updated_input: Some(json(r#"{"command": "ls", "other": 1}"#)),
        })
        .is_ok());
}

#[test]
fn changed_input_is_not_supported() {
    for input in [
        r#"{"command": "rm"}"#,
        r#"{"command": 3}"#,
        r#"{"cmd": "ls"}"#,
        r#"{"command": {"command": "ls"}}"#,
        r#"["ls"]"#,
        r#""ls""#,
        "null",
    ] {
        assert_eq!(
            pending("ls")
                .on_pre_tool_use(PreToolUseHookResult::Continue {
                    updated_input: Some(json(input)),
                })
                .err(),
            Some(CHANGED.to_string()),
            "{input}"
        );
    }
}

#[test]
fn updated_command_is_held_against_the_given_one() {
    let command = "ls".to_string();
    assert_eq!(
        check_updated_command(&command, Some("ls".to_string())),
        Ok(())
    );
    assert_eq!(
        check_updated_command(&command, Some("ls ".to_string())),
        Err(CHANGED.to_string())
    );
    assert_eq!(
        check_updated_command(&command, None),
        Err(CHANGED.to_string())
    );
}

#[test]
fn json_values_are_built_and_read() {
    assert_eq!(tool_input("a\nb"), json(r#"{"command": "a\nb"}"#));
    assert_eq!(tool_response("done"), json(r#""done""#));
    assert_eq!(
        command_of_input(&json(r#"{"x": 1, "command": "ls"}"#)),
        Some("ls".to_string())
    );
    assert_eq!(command_of_input(&tool_response("ls")), None);
    assert_eq!(command_of_input(&json(r#"{"command": null}"#)), None);
}

#[test]
fn shell_is_given_command_time_and_environment() {
    let shell = ready("ls").shell_request(
        vars(&[("PATH", "/bin"), ("TOKEN_NAME", "old")]),
        &vars(&[("TOKEN_NAME", "new"), ("EXTRA", "1")]),
        vars(&[("POLICY", "p"), ("EXTRA", "0")]),
    );
    assert_eq!(shell.tool_use_id, "skill-dynamic-context-turn-7-42");
    assert_eq!(shell.tool_name, "shell_command");
    assert_eq!(shell.backend, ShellRuntimeBackend::SkillDynamicContext);
    assert_eq!(shell.command, exec_args("ls"));
    assert_eq!(shell.shell_type, Some("zsh".to_string()));
    assert_eq!(shell.hook_command, "ls");
    assert_eq!(shell.cwd, "/work/dir");
    assert_eq!(shell.sandbox_permissions, SandboxPermissions::UseDefault);
    assert_eq!(shell.additional_permissions, None);
    assert!(!shell.additional_permissions_preapproved);
    assert_eq!(shell.timeout_ms, Some(10_000));
    assert_eq!(
        shell.justification,
        Some("run allowlisted skill dynamic context command".to_string())
    );
    assert_eq!(
        sorted(shell.env),
        pairs(&[("EXTRA", "1"), ("PATH", "/bin"), ("TOKEN_NAME", "new")])
    );
    assert_eq!(
        sorted(shell.explicit_env_overrides),
        pairs(&[("EXTRA", "1"), ("POLICY", "p"), ("TOKEN_NAME", "new")])
    );
}

#[test]
fn arguments_are_made_from_the_command_as_written() {
    for login in [true, false] {
        assert_eq!(
            approved(" git log ").exec_args_request(login),
            ExecArgsRequest {
                command: " git log ".to_string(),
                use_login_shell: login,
            }
        );
    }
}

#[test]
fn approval_is_asked_for_what_is_run() {
    let command = ready("ls");
    let approval = command.approval_request("/work");
    assert_eq!(
        approval,
        ExecApprovalRequest {
            command: exec_args("ls"),
            sandbox_cwd: "/work".to_string(),
            sandbox_permissions: SandboxPermissions::UseDefault,
            prefix_rule: None,
        }
    );
    let shell = command.shell_request(vars(&[]), &vars(&[]), vars(&[]));
    assert_eq!(shell.command, approval.command);
    assert_eq!(shell.sandbox_permissions, approval.sandbox_permissions);
}

#[test]
fn hooks_and_shell_see_one_command() {
    let command = pending(" ls ");
    let before = command.pre_tool_use_request();
    let command = command
        .on_pre_tool_use(PreToolUseHookResult::Continue {
            updated_input: None,
        })
        .unwrap_or_else(|error| panic!("{error}"))
        .with_exec_args("zsh".to_string(), exec_args(" ls "));
    let shell = command.shell_request(vars(&[]), &vars(&[]), vars(&[]));
    let after = command
        .on_shell(Ok(shell_output("")))
        .unwrap_or_else(|error| panic!("{error}"))
        .post_tool_use_request("");
    assert_eq!(before.tool_use_id, shell.tool_use_id);
    assert_eq!(after.tool_use_id, shell.tool_use_id);
    assert_eq!(before.tool_name, after.tool_name);
    assert_eq!(shell.hook_command, " ls ");
    assert_eq!(
        command_of_input(&before.tool_input),
        Some(" ls ".to_string())
    );
    assert_eq!(command_of_input(&after.tool_input), Some(" ls ".to_string()));
}

#[test]
fn environment_without_dependencies_is_what_it_was() {
    let shell = ready("ls").shell_request(
        vars(&[("A", "1")]),
        &EnvVars::new(),
        vars(&[("B", "2")]),
    );
    assert_eq!(sorted(shell.env), pairs(&[("A", "1")]));
    assert_eq!(sorted(shell.explicit_env_overrides), pairs(&[("B", "2")]));
}

#[test]
fn later_entry_takes_the_place_of_an_earlier_one() {
    let env = vars(&[("A", "1"), ("B", "2"), ("A", "3")]);
    assert_eq!(env.get(&"A".to_string()), Some("3".to_string()));
    assert_eq!(env.get(&"C".to_string()), None);
    let env = env.set("B".to_string(), "4".to_string());
    assert_eq!(sorted(env), pairs(&[("A", "3"), ("B", "4")]));
}

#[test]
fn milliseconds_stop_at_the_largest_number() {
    assert_eq!(saturating_millis(0), 0);
    assert_eq!(saturating_millis(120), 120_000);
    assert_eq!(saturating_millis(u64::MAX), u64::MAX);
    assert_eq!(
        saturating_millis(u64::MAX / 1000),
        u64::MAX / 1000 * 1000
    );
    assert_eq!(saturating_millis(u64::MAX / 1000 + 1), u64::MAX);
}

#[test]
fn error_of_the_shell_is_handed_on() {
    assert_eq!(
        tool_error_to_string(ToolError::Rejected("no".to_string())),
        "no"
    );
    assert_eq!(
        ready("ls")
            .on_shell(Err(ToolError::Failed("broken".to_string())))
            .err(),
        Some("broken".to_string())
    );
}

#[test]
fn output_is_kept_when_hooks_do_not_stop() {
    let executed = ready("ls")
        .on_shell(Ok(shell_output("123456")))
        .unwrap_or_else(|error| panic!("{error}"));
    let given = executed.post_tool_use_request("response");
    assert_eq!(given.tool_use_id, "skill-dynamic-context-turn-7-42");
    assert_eq!(given.tool_name, HookToolName::Bash);
    assert_eq!(given.tool_input, json(r#"{"command": "ls"}"#));
    assert_eq!(given.tool_response, Value::String("response".to_string()));
    let kept = executed.on_post_tool_use(PostToolUseHookOutcome {
        should_stop: false,
        feedback_message: Some("ignored".to_string()),
        stop_reason: None,
    });
    assert_eq!(
        kept,
        CommandRunOutput {
            exit_code: Some(0),
            stdout: "1234".to_string(),
            stderr: String::new(),
            truncated: true,
            timed_out: false,
            failure: None,
            hook_feedback: None,
        }
    );
}

#[test]
fn output_that_hooks_stop_is_withheld() {
    let cases = [
        (Some("feedback"), Some("reason"), "feedback"),
        (None, Some("reason"), "reason"),
        (None, None, "PostToolUse hook stopped dynamic context output"),
    ];
    for (feedback, reason, shown) in cases {
        let executed = ready("ls")
            .on_shell(Ok(shell_output("secret")))
            .unwrap_or_else(|error| panic!("{error}"));
        assert_eq!(
            executed.on_post_tool_use(PostToolUseHookOutcome {
                should_stop: true,
                feedback_message: feedback.map(str::to_string),
                stop_reason: reason.map(str::to_string),
            }),
            CommandRunOutput {
                exit_code: Some(0),
                stdout: String::new(),
                stderr: String::new(),
                truncated: false,
                timed_out: false,
                failure: None,
                hook_feedback: Some(shown.to_string()),
            }
        );
    }
}
