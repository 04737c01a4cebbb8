//! One command on its way through the hooks and the shell.
//!
//! The types of this module stand for the stages of that way, and each method
//! takes the command from one stage to the next: [`admit_command`] gives an
//! [`AdmittedCommand`], which becomes a [`PendingCommand`] with an identifier, an
//! [`ApprovedCommand`] once the hooks let it pass, a [`ReadyCommand`] with the
//! arguments that the user's shell makes of it, and an [`ExecutedCommand`] once the
//! shell has run it.

use crate::env::EnvVars;
use crate::expansion::string_views;
use crate::json::{
    command_of_input, input_command, is_json_string, is_tool_input, json_members, json_strings,
    tool_input, tool_response,
};
use crate::output::{
    command_run_output_from_exec, kept_output, law_ended_command_is_kept_as_it_ended, text_view,
    CommandRunOutput, ExecOutputView, ExecToolCallOutput, RunOutputView,
};
use crate::text::{
    append_decimal, decimal, is_blank, law_numeral_reads_as_its_number, text_is_blank,
};
use vstd::prelude::*;

verus! {

/// A command that is to be run.
#[derive(Debug, Clone, PartialEq, Eq)]
pub struct CommandRequest {
    pub command: String,
    /// How long the command may take.
    pub timeout_seconds: u64,
    /// How many characters of each output stream are kept.
    pub output_limit: usize,
}

/// What a [`CommandRequest`] stands for.
#[verifier::ext_equal]
pub struct RequestView {
    pub command: Seq<char>,
    pub timeout_seconds: u64,
    pub output_limit: usize,
}

impl View for CommandRequest {
    type V = RequestView;

    open spec fn view(&self) -> RequestView {
        RequestView {
            command: self.command@,
            timeout_seconds: self.timeout_seconds,
            output_limit: self.output_limit,
        }
    }
}

/// Why a command is not run.
pub open spec fn refusal(command: Seq<char>, environment_selected: bool) -> Option<Seq<char>> {
    if is_blank(command) {
        Some("command is empty"@)
    } else if !environment_selected {
        Some("no execution environment is selected"@)
    } else {
        None
    }
}

/// The identifier under which hooks and shell know a command.
pub open spec fn tool_use_id(turn_id: Seq<char>, serial: u64) -> Seq<char> {
    "skill-dynamic-context-"@ + turn_id + "-"@ + decimal(serial as nat)
}

/// The environment in which the commands of a turn are run.
#[derive(Debug, Clone, PartialEq, Eq)]
pub struct TurnEnvironment {
    /// The directory that commands start in.
    pub cwd: String,
}

/// A command that may be taken to the hooks.
pub struct AdmittedCommand {
    request: CommandRequest,
    environment: TurnEnvironment,
}

/// A command, and the directory that it is to start in.
#[verifier::ext_equal]
pub struct AdmittedView {
    pub request: RequestView,
    pub cwd: Seq<char>,
}

impl View for AdmittedCommand {
    type V = AdmittedView;

    closed spec fn view(&self) -> AdmittedView {
        AdmittedView { request: self.request@, cwd: self.environment.cwd@ }
    }
}

/// Admits a command to the environment that is selected, unless nothing stands in
/// the command or there is no environment to run it in.
pub fn admit_command(request: CommandRequest, environment: Option<TurnEnvironment>) -> (r: Result<
    AdmittedCommand,
    String,
>)
    ensures
        match r {
            Ok(admitted) => {
                &&& refusal(request.command@, environment is Some) is None
                &&& admitted@ == (AdmittedView { request: request@, cwd: environment->0.cwd@ })
            },
            Err(error) => refusal(request.command@, environment is Some) == Some(error@),
        },
{
    if text_is_blank(request.command.as_str()) {
        return Err(String::from_str("command is empty"));
    }
    match environment {
        Some(environment) => Ok(AdmittedCommand { request, environment }),
        None => Err(String::from_str("no execution environment is selected")),
    }
}

/// A command under its identifier, and the directory that it is to start in.
#[verifier::ext_equal]
pub struct CommandView {
    pub request: RequestView,
    pub tool_use_id: Seq<char>,
    pub cwd: Seq<char>,
}

/// A command that waits for the hooks that run before it.
pub struct PendingCommand {
    request: CommandRequest,
    tool_use_id: String,
    cwd: String,
}

impl View for PendingCommand {
    type V = CommandView;

    closed spec fn view(&self) -> CommandView {
        CommandView { request: self.request@, tool_use_id: self.tool_use_id@, cwd: self.cwd@ }
    }
}

impl AdmittedCommand {
    /// Gives the command its identifier: the `serial`th of the process, in the
    /// turn `turn_id`.
    pub fn identify(self, turn_id: &str, serial: u64) -> (r: PendingCommand)
        ensures
            r@ == (CommandView {
                request: self@.request,
                tool_use_id: tool_use_id(turn_id@, serial),
                cwd: self@.cwd,
            }),
    {
        let mut id = String::from_str("skill-dynamic-context-");
        id.append(turn_id);
        id.append("-");
        append_decimal(&mut id, serial);
        PendingCommand { request: self.request, tool_use_id: id, cwd: self.environment.cwd }
    }
}

/// The tool that hooks are told of.
#[derive(Debug, Clone, PartialEq, Eq)]
pub enum HookToolName {
    /// The tool that runs shell commands.
    Bash,
    /// A tool with a name of its own.
    Named(String),
}

/// What the hooks that run before a command are given.
pub struct PreToolUseRequest {
    pub tool_use_id: String,
    pub tool_name: HookToolName,
    pub tool_input: serde_json::Value,
}

/// Whether the hooks that run before a command are given what they are owed: its
/// identifier, the tool that runs shell commands, and an object with the command as
/// its one member.
pub open spec fn is_pre_tool_use_request(r: PreToolUseRequest, command: CommandView) -> bool {
    &&& r.tool_use_id@ == command.tool_use_id
    &&& r.tool_name == HookToolName::Bash
    &&& is_tool_input(r.tool_input, command.request.command)
}

/// What the hooks that run before a command decide.
pub enum PreToolUseHookResult {
    Blocked(String),
    Continue { updated_input: Option<serde_json::Value> },
}

/// Why a command does not pass the hooks that run before it: they block it, or
/// they hand back an input with another command. Nothing is said of one that
/// passes.
pub open spec fn hook_objection(
    command: Seq<char>,
    result: PreToolUseHookResult,
) -> Option<Seq<char>> {
    match result {
        PreToolUseHookResult::Blocked(message) => Some(message@),
        PreToolUseHookResult::Continue { updated_input: Some(input) } => changed_command_objection(
            command,
            input_command(input),
        ),
        PreToolUseHookResult::Continue { updated_input: None } => None,
    }
}

/// Why an input that the hooks hand back does not pass: its command is not the
/// one that they were given.
pub open spec fn changed_command_objection(
    command: Seq<char>,
    updated_command: Option<Seq<char>>,
) -> Option<Seq<char>> {
    if updated_command == Some(command) {
        None
    } else {
        Some("PreToolUse updatedInput is not supported for skill dynamic context"@)
    }
}

/// Holds the command of an input that the hooks hand back against the one that
/// they were given.
pub fn check_updated_command(command: &String, updated_command: Option<String>) -> (r: Result<
    (),
    String,
>)
    ensures
        match r {
            Ok(()) => changed_command_objection(command@, text_view(updated_command)) is None,
            Err(error) => changed_command_objection(command@, text_view(updated_command)) == Some(
                error@,
            ),
        },
{
    let unchanged = match updated_command {
        Some(updated) => updated == *command,
        None => false,
    };
    if unchanged {
        Ok(())
    } else {
        Err(
            String::from_str("PreToolUse updatedInput is not supported for skill dynamic context"),
        )
    }
}

/// A command that the shell may run.
pub struct ApprovedCommand {
    request: CommandRequest,
    tool_use_id: String,
    cwd: String,
}

impl View for ApprovedCommand {
    type V = CommandView;

    closed spec fn view(&self) -> CommandView {
        CommandView { request: self.request@, tool_use_id: self.tool_use_id@, cwd: self.cwd@ }
    }
}

impl PendingCommand {
    /// What the hooks that run before the command are given.
    pub fn pre_tool_use_request(&self) -> (r: PreToolUseRequest)
        ensures
            is_pre_tool_use_request(r, self@),
    {
        PreToolUseRequest {
            tool_use_id: self.tool_use_id.clone(),
            tool_name: HookToolName::Bash,
            tool_input: tool_input(self.request.command.as_str()),
        }
    }

    /// Takes up what the hooks decided.
    pub fn on_pre_tool_use(self, result: PreToolUseHookResult) -> (r: Result<
        ApprovedCommand,
        String,
    >)
        ensures
            match r {
                Ok(approved) => hook_objection(self@.request.command, result) is None && approved@
                    == self@,
                Err(error) => hook_objection(self@.request.command, result) == Some(error@),
            },
    {
        match result {
            PreToolUseHookResult::Blocked(message) => {
                return Err(message);
            },
            PreToolUseHookResult::Continue { updated_input: Some(input) } => {
                let updated = command_of_input(&input);
                match check_updated_command(&self.request.command, updated) {
                    Ok(()) => {},
                    Err(error) => {
                        return Err(error);
                    },
                }
            },
            PreToolUseHookResult::Continue { updated_input: None } => {},
        }
        Ok(
            ApprovedCommand {
                request: self.request,
                tool_use_id: self.tool_use_id,
                cwd: self.cwd,
            },
        )
    }
}

/// What the user's shell makes the arguments of a run from.
#[derive(Debug, Clone, PartialEq, Eq)]
pub struct ExecArgsRequest {
    /// The command as it is written in the skill.
    pub command: String,
    pub use_login_shell: bool,
}

/// A command with the type of the user's shell and the arguments that it is run
/// with.
#[verifier::ext_equal]
pub struct ReadyView {
    pub command: CommandView,
    pub shell_type: Seq<char>,
    pub exec_args: Seq<Seq<char>>,
}

/// A command that the shell is about to run.
pub struct ReadyCommand {
    request: CommandRequest,
    tool_use_id: String,
    cwd: String,
    shell_type: String,
    exec_args: Vec<String>,
}

impl View for ReadyCommand {
    type V = ReadyView;

    closed spec fn view(&self) -> ReadyView {
        ReadyView {
            command: CommandView {
                request: self.request@,
                tool_use_id: self.tool_use_id@,
                cwd: self.cwd@,
            },
            shell_type: self.shell_type@,
            exec_args: string_views(self.exec_args@),
        }
    }
}

impl ApprovedCommand {
    /// What the user's shell makes the arguments of the run from: the command as it
    /// is written, in a login shell where one is allowed.
    pub fn exec_args_request(&self, allow_login_shell: bool) -> (r: ExecArgsRequest)
        ensures
            r.command@ == self@.request.command,
            r.use_login_shell == allow_login_shell,
    {
        ExecArgsRequest {
            command: self.request.command.clone(),
            use_login_shell: allow_login_shell,
        }
    }

    /// Takes up the arguments that the user's shell, which is of the type
    /// `shell_type`, made of the command.
    pub fn with_exec_args(self, shell_type: String, exec_args: Vec<String>) -> (r: ReadyCommand)
        ensures
            r@ == (ReadyView {
                command: self@,
                shell_type: shell_type@,
                exec_args: string_views(exec_args@),
            }),
    {
        ReadyCommand {
            request: self.request,
            tool_use_id: self.tool_use_id,
            cwd: self.cwd,
            shell_type,
            exec_args,
        }
    }
}

/// What a run asks of the sandbox.
#[derive(Debug, Clone, Copy, PartialEq, Eq)]
pub enum SandboxPermissions {
    /// What the turn allows, and no more.
    UseDefault,
    /// To be run outside the sandbox.
    RequireEscalated,
    /// What the turn allows, and the permissions that are asked for beside it.
    WithAdditionalPermissions,
}

/// What runs a command for the shell tool.
#[derive(Debug, Clone, Copy, PartialEq, Eq)]
pub enum ShellRuntimeBackend {
    Generic,
    /// The backend for commands in skill texts.
    SkillDynamicContext,
}

/// What is asked before a run: whether it needs approval.
#[derive(Debug, Clone, PartialEq, Eq)]
pub struct ExecApprovalRequest {
    /// The arguments of the run.
    pub command: Vec<String>,
    /// The directory that the sandbox goes by.
    pub sandbox_cwd: String,
    pub sandbox_permissions: SandboxPermissions,
    /// A rule that the command is to be held against in place of the policy's own.
    pub prefix_rule: Option<Vec<String>>,
}

/// Whether approval is asked for just the run of a command, with what the sandbox
/// allows by default and under no rule of its own.
pub open spec fn is_approval_request(
    r: ExecApprovalRequest,
    ready: ReadyView,
    sandbox_cwd: Seq<char>,
) -> bool {
    &&& string_views(r.command@) == ready.exec_args
    &&& r.sandbox_cwd@ == sandbox_cwd
    &&& r.sandbox_permissions == SandboxPermissions::UseDefault
    &&& r.prefix_rule is None
}

/// What the shell is given.
pub struct ShellRequest {
    pub tool_use_id: String,
    /// The tool in whose name the command is run.
    pub tool_name: String,
    pub backend: ShellRuntimeBackend,
    /// The arguments of the run.
    pub command: Vec<String>,
    /// The type of the shell that made the arguments.
    pub shell_type: Option<String>,
    /// The command as it is written in the skill.
    pub hook_command: String,
    /// The directory that the command starts in.
    pub cwd: String,
    pub timeout_ms: Option<u64>,
    pub env: EnvVars,
    pub explicit_env_overrides: EnvVars,
    pub sandbox_permissions: SandboxPermissions,
    /// Permissions that are asked for beside those of the turn.
    pub additional_permissions: Option<Vec<String>>,
    /// Whether such permissions were approved before.
    pub additional_permissions_preapproved: bool,
    pub justification: Option<String>,
}

/// Whether the shell is given what it is owed. The command starts in the directory
/// of the environment that it was admitted to, with what the sandbox allows by
/// default and nothing beside it. It sees the variables of `env`, and over them
/// those of the skill's dependencies; these also count as set on purpose, over
/// those that the policy sets.
pub open spec fn is_shell_request(
    r: ShellRequest,
    ready: ReadyView,
    env: Map<Seq<char>, Seq<char>>,
    dependency_env: Map<Seq<char>, Seq<char>>,
    policy_env: Map<Seq<char>, Seq<char>>,
) -> bool {
    &&& r.tool_use_id@ == ready.command.tool_use_id
    &&& r.tool_name@ == "shell_command"@
    &&& r.backend == ShellRuntimeBackend::SkillDynamicContext
    &&& string_views(r.command@) == ready.exec_args
    &&& text_view(r.shell_type) == Some(ready.shell_type)
    &&& r.hook_command@ == ready.command.request.command
    &&& r.cwd@ == ready.command.cwd
    &&& r.timeout_ms == Some(millis(ready.command.request.timeout_seconds))
    &&& r.env@ == env.union_prefer_right(dependency_env)
    &&& r.explicit_env_overrides@ == policy_env.union_prefer_right(dependency_env)
    &&& r.sandbox_permissions == SandboxPermissions::UseDefault
    &&& r.additional_permissions is None
    &&& !r.additional_permissions_preapproved
    &&& text_view(r.justification) == Some("run allowlisted skill dynamic context command"@)
}

/// A time in milliseconds, or the longest one where it is too long for a `u64`.
pub open spec fn millis(seconds: u64) -> u64 {
    if seconds * 1000 > u64::MAX {
        u64::MAX
    } else {
        (seconds * 1000) as u64
    }
}

/// A time in milliseconds, or the longest one where it is too long for a `u64`.
pub fn saturating_millis(seconds: u64) -> (r: u64)
    ensures
        r == millis(seconds),
{
    if seconds > u64::MAX / 1000 {
        u64::MAX
    } else {
        seconds * 1000
    }
}

/// Why the shell did not run a command: it was turned down, or the run failed
/// with an error that reads as given.
#[derive(Debug, Clone, PartialEq, Eq)]
pub enum ToolError {
    Rejected(String),
    Failed(String),
}

/// How an error of the shell reads.
pub open spec fn tool_error_text(error: ToolError) -> Seq<char> {
    match error {
        ToolError::Rejected(message) => message@,
        ToolError::Failed(message) => message@,
    }
}

/// How an error of the shell reads.
pub fn tool_error_to_string(error: ToolError) -> (r: String)
    ensures
        r@ == tool_error_text(error),
{
    match error {
        ToolError::Rejected(message) => message,
        ToolError::Failed(message) => message,
    }
}

/// A command that the shell has run, and what it left behind.
pub struct ExecutedCommand {
    request: CommandRequest,
    tool_use_id: String,
    cwd: String,
    output: ExecToolCallOutput,
}

impl ExecutedCommand {
    /// The command and its identifier.
    pub closed spec fn command(&self) -> CommandView {
        CommandView { request: self.request@, tool_use_id: self.tool_use_id@, cwd: self.cwd@ }
    }

    /// What the command left behind.
    pub closed spec fn output(&self) -> ExecOutputView {
        self.output@
    }
}

impl ReadyCommand {
    /// What is asked before the run; the sandbox goes by the directory
    /// `sandbox_cwd`.
    pub fn approval_request(&self, sandbox_cwd: &str) -> (r: ExecApprovalRequest)
        ensures
            is_approval_request(r, self@, sandbox_cwd@),
    {
        let command = self.exec_args.clone();
        assert(string_views(command@) =~= string_views(self.exec_args@));
        ExecApprovalRequest {
            command,
            sandbox_cwd: String::from_str(sandbox_cwd),
            sandbox_permissions: SandboxPermissions::UseDefault,
            prefix_rule: None,
        }
    }

    /// What the shell is given.
    pub fn shell_request(
        &self,
        env: EnvVars,
        dependency_env: &EnvVars,
        policy_env: EnvVars,
    ) -> (r: ShellRequest)
        ensures
            is_shell_request(r, self@, env@, dependency_env@, policy_env@),
    {
        let command = self.exec_args.clone();
        assert(string_views(command@) =~= string_views(self.exec_args@));
        ShellRequest {
            tool_use_id: self.tool_use_id.clone(),
            tool_name: String::from_str("shell_command"),
            backend: ShellRuntimeBackend::SkillDynamicContext,
            command,
            shell_type: Some(self.shell_type.clone()),
            hook_command: self.request.command.clone(),
            cwd: self.cwd.clone(),
            timeout_ms: Some(saturating_millis(self.request.timeout_seconds)),
            env: env.extend(dependency_env),
            explicit_env_overrides: policy_env.extend(dependency_env),
            sandbox_permissions: SandboxPermissions::UseDefault,
            additional_permissions: None,
            additional_permissions_preapproved: false,
            justification: Some(String::from_str("run allowlisted skill dynamic context command")),
        }
    }

    /// Takes up what came of the run.
    pub fn on_shell(self, result: Result<ExecToolCallOutput, ToolError>) -> (r: Result<
        ExecutedCommand,
        String,
    >)
        ensures
            match (result, r) {
                (Ok(output), Ok(executed)) => executed.command() == self@.command
                    && executed.output() == output@,
                (Err(error), Err(text)) => text@ == tool_error_text(error),
                _ => false,
            },
    {
        match result {
            Ok(output) => Ok(
                ExecutedCommand {
                    request: self.request,
                    tool_use_id: self.tool_use_id,
                    cwd: self.cwd,
                    output,
                },
            ),
            Err(error) => Err(tool_error_to_string(error)),
        }
    }
}

/// What the hooks that run after a command are given.
pub struct PostToolUseRequest {
    pub tool_use_id: String,
    pub tool_name: HookToolName,
    pub tool_input: serde_json::Value,
    pub tool_response: serde_json::Value,
}

/// Whether the hooks that run after a command are given what they are owed: its
/// identifier, the tool that runs shell commands, the input that the hooks before
/// it were given, and the response as a string.
pub open spec fn is_post_tool_use_request(
    r: PostToolUseRequest,
    command: CommandView,
    response: Seq<char>,
) -> bool {
    &&& r.tool_use_id@ == command.tool_use_id
    &&& r.tool_name == HookToolName::Bash
    &&& is_tool_input(r.tool_input, command.request.command)
    &&& is_json_string(r.tool_response, response)
}

/// What the hooks that run after a command decide.
#[derive(Debug, Clone, PartialEq, Eq)]
pub struct PostToolUseHookOutcome {
    pub should_stop: bool,
    pub feedback_message: Option<String>,
    pub stop_reason: Option<String>,
}

/// What is shown in place of an output that the hooks hold back: their feedback,
/// else their reason, else a sentence of its own.
pub open spec fn stop_feedback(outcome: PostToolUseHookOutcome) -> Seq<char> {
    if outcome.feedback_message is Some {
        outcome.feedback_message->0@
    } else if outcome.stop_reason is Some {
        outcome.stop_reason->0@
    } else {
        "PostToolUse hook stopped dynamic context output"@
    }
}

/// What is kept of a command once the hooks have seen it.
pub open spec fn output_after_hooks(
    outcome: PostToolUseHookOutcome,
    output: ExecOutputView,
    output_limit: nat,
) -> RunOutputView {
    if outcome.should_stop {
        RunOutputView {
            exit_code: Some(0i32),
            stdout: Seq::empty(),
            stderr: Seq::empty(),
            truncated: false,
            timed_out: false,
            failure: None,
            hook_feedback: Some(stop_feedback(outcome)),
        }
    } else {
        kept_output(output, output_limit)
    }
}

impl ExecutedCommand {
    /// What the hooks that run after the command are given.
    pub fn post_tool_use_request(&self, response: &str) -> (r: PostToolUseRequest)
        ensures
            is_post_tool_use_request(r, self.command(), response@),
    {
        PostToolUseRequest {
            tool_use_id: self.tool_use_id.clone(),
            tool_name: HookToolName::Bash,
            tool_input: tool_input(self.request.command.as_str()),
            tool_response: tool_response(response),
        }
    }

    /// Takes up what the hooks decided.
    pub fn on_post_tool_use(self, outcome: PostToolUseHookOutcome) -> (r: CommandRunOutput)
        ensures
            r@ == output_after_hooks(
                outcome,
                self.output(),
                self.command().request.output_limit as nat,
            ),
    {
        if outcome.should_stop {
            let feedback = match outcome.feedback_message {
                Some(message) => message,
                None => match outcome.stop_reason {
                    Some(reason) => reason,
                    None => String::from_str("PostToolUse hook stopped dynamic context output"),
                },
            };
            return CommandRunOutput {
                exit_code: Some(0),
                stdout: String::new(),
                stderr: String::new(),
                truncated: false,
                timed_out: false,
                failure: None,
                hook_feedback: Some(feedback),
            };
        }
        command_run_output_from_exec(&self.output, self.request.output_limit)
    }
}

/// What comes of a command, given what the hooks and the shell have to say at its
/// stages.
pub open spec fn command_result(
    request: RequestView,
    environment_selected: bool,
    before: PreToolUseHookResult,
    shell: Result<ExecOutputView, Seq<char>>,
    after: PostToolUseHookOutcome,
) -> Result<RunOutputView, Seq<char>> {
    if refusal(request.command, environment_selected) is Some {
        Err(refusal(request.command, environment_selected)->0)
    } else if hook_objection(request.command, before) is Some {
        Err(hook_objection(request.command, before)->0)
    } else {
        match shell {
            Ok(output) => Ok(output_after_hooks(after, output, request.output_limit as nat)),
            Err(error) => Err(error),
        }
    }
}

/// A command to which the hooks object is answered with their objection, and
/// nothing that the shell would do with it matters.
pub proof fn law_objection_is_the_answer(
    request: RequestView,
    before: PreToolUseHookResult,
    shell: Result<ExecOutputView, Seq<char>>,
    after: PostToolUseHookOutcome,
)
    requires
        !is_blank(request.command),
        hook_objection(request.command, before) is Some,
    ensures
        command_result(request, true, before, shell, after) == Err::<RunOutputView, Seq<char>>(
            hook_objection(request.command, before)->0,
        ),
{
}

/// Something is kept only of a command that says something, that the hooks let
/// pass and that the shell has run; and of no stream more than the command was
/// granted.
pub proof fn law_kept_output_was_run(
    request: RequestView,
    environment_selected: bool,
    before: PreToolUseHookResult,
    shell: Result<ExecOutputView, Seq<char>>,
    after: PostToolUseHookOutcome,
)
    requires
        command_result(request, environment_selected, before, shell, after) is Ok,
    ensures
        ({
            let kept = command_result(request, environment_selected, before, shell, after)->Ok_0;
            &&& !is_blank(request.command)
            &&& environment_selected
            &&& hook_objection(request.command, before) is None
            &&& shell is Ok
            &&& kept.stdout.len() <= request.output_limit
            &&& kept.stderr.len() <= request.output_limit
        }),
{
}

/// Hooks that hand the input back as they were given it let the command pass.
pub proof fn law_unchanged_input_passes(command: Seq<char>, input: serde_json::Value)
    requires
        is_tool_input(input, command),
    ensures
        hook_objection(
            command,
            PreToolUseHookResult::Continue { updated_input: Some(input) },
        ) is None,
{
}

/// Hooks can change no command: one that passes is the command of the input that
/// they hand back, if they hand one back.
pub proof fn law_hooks_change_no_command(command: Seq<char>, input: serde_json::Value)
    requires
        hook_objection(
            command,
            PreToolUseHookResult::Continue { updated_input: Some(input) },
        ) is None,
    ensures
        input_command(input) == Some(command),
{
}

/// An output that the hooks hold back leaves no trace: what is kept is the same
/// for every output.
pub proof fn law_stopped_output_is_withheld(
    outcome: PostToolUseHookOutcome,
    one: ExecOutputView,
    other: ExecOutputView,
    one_limit: nat,
    other_limit: nat,
)
    requires
        outcome.should_stop,
    ensures
        output_after_hooks(outcome, one, one_limit) == output_after_hooks(
            outcome,
            other,
            other_limit,
        ),
{
}

/// The hooks before and after a command and the shell know it under one identifier,
/// and the command that the hooks are shown is the one that the shell is told of.
pub proof fn law_hooks_and_shell_see_one_command(
    before: PreToolUseRequest,
    shell: ShellRequest,
    after: PostToolUseRequest,
    ready: ReadyView,
    env: Map<Seq<char>, Seq<char>>,
    dependency_env: Map<Seq<char>, Seq<char>>,
    policy_env: Map<Seq<char>, Seq<char>>,
    response: Seq<char>,
)
    requires
        is_pre_tool_use_request(before, ready.command),
        is_shell_request(shell, ready, env, dependency_env, policy_env),
        is_post_tool_use_request(after, ready.command, response),
    ensures
        before.tool_use_id@ == shell.tool_use_id@,
        after.tool_use_id@ == shell.tool_use_id@,
        before.tool_name == after.tool_name,
        input_command(before.tool_input) == Some(shell.hook_command@),
        input_command(after.tool_input) == Some(shell.hook_command@),
{
}

/// Approval is asked for what is run: the same arguments, under the same
/// permissions, and no permission is used that was not asked for.
pub proof fn law_approval_is_asked_for_what_is_run(
    approval: ExecApprovalRequest,
    shell: ShellRequest,
    ready: ReadyView,
    sandbox_cwd: Seq<char>,
    env: Map<Seq<char>, Seq<char>>,
    dependency_env: Map<Seq<char>, Seq<char>>,
    policy_env: Map<Seq<char>, Seq<char>>,
)
    requires
        is_approval_request(approval, ready, sandbox_cwd),
        is_shell_request(shell, ready, env, dependency_env, policy_env),
    ensures
        string_views(shell.command@) == string_views(approval.command@),
        shell.sandbox_permissions == approval.sandbox_permissions,
        shell.additional_permissions is None,
        !shell.additional_permissions_preapproved,
{
}

/// The variables of the skill's dependencies reach the command, and every other
/// variable is what it was.
pub proof fn law_dependencies_reach_command(
    env: Map<Seq<char>, Seq<char>>,
    dependency_env: Map<Seq<char>, Seq<char>>,
    name: Seq<char>,
)
    ensures
        ({
            let seen = env.union_prefer_right(dependency_env);
            if dependency_env.contains_key(name) {
                seen.contains_key(name) && seen[name] == dependency_env[name]
            } else {
                seen.contains_key(name) == env.contains_key(name) && (env.contains_key(name)
                    ==> seen[name] == env[name])
            }
        }),
{
}

/// A command in which nothing but white space stands is refused, and else any
/// command where there is no environment to run it in; every other is admitted.
pub proof fn law_command_is_admitted_unless(command: Seq<char>)
    ensures
        is_blank(command) ==> refusal(command, true) == Some("command is empty"@) && refusal(
            command,
            false,
        ) == Some("command is empty"@),
        !is_blank(command) ==> refusal(command, false) == Some(
            "no execution environment is selected"@,
        ),
        !is_blank(command) ==> refusal(command, true) is None,
{
}

/// A command is known by the turn and its number in the process, and no two numbers
/// make one identifier.
pub proof fn law_identifier_names_turn_and_number(turn_id: Seq<char>, one: u64, other: u64)
    ensures
        tool_use_id(turn_id, one) == "skill-dynamic-context-"@ + turn_id + "-"@ + decimal(
            one as nat,
        ),
        tool_use_id(turn_id, one) == tool_use_id(turn_id, other) ==> one == other,
{
    let lead = "skill-dynamic-context-"@ + turn_id + "-"@;
    law_numeral_reads_as_its_number(one as nat);
    law_numeral_reads_as_its_number(other as nat);
    if tool_use_id(turn_id, one) == tool_use_id(turn_id, other) {
        assert(tool_use_id(turn_id, one).skip(lead.len() as int) =~= decimal(one as nat));
        assert(tool_use_id(turn_id, other).skip(lead.len() as int) =~= decimal(other as nat));
    }
}

/// Hooks that block a command give the answer to it, and hooks that hand no input
/// back let it pass. Of those that hand one back it passes just where the member
/// `command` of the input is the command.
pub proof fn law_hooks_decide(command: Seq<char>, message: String, input: serde_json::Value)
    ensures
        hook_objection(command, PreToolUseHookResult::Blocked(message)) == Some(message@),
        hook_objection(command, PreToolUseHookResult::Continue { updated_input: None }) is None,
        changed_command_objection(command, Some(command)) is None,
        changed_command_objection(command, None) == Some(
            "PreToolUse updatedInput is not supported for skill dynamic context"@,
        ),
        forall|other: Seq<char>|
            other != command ==> #[trigger] changed_command_objection(command, Some(other)) == Some(
                "PreToolUse updatedInput is not supported for skill dynamic context"@,
            ),
        input_command(input) == (if json_strings(input).contains_key(seq!["command"@]) {
            Some(json_strings(input)[seq!["command"@]])
        } else {
            None
        }),
        ({
            let objection = hook_objection(
                command,
                PreToolUseHookResult::Continue { updated_input: Some(input) },
            );
            let held = json_strings(input);
            let path = seq!["command"@];
            if held.contains_key(path) && held[path] == command {
                objection is None
            } else {
                objection == Some(
                    "PreToolUse updatedInput is not supported for skill dynamic context"@,
                )
            }
        }),
{
}

/// A time is handed on in milliseconds, and one that is too long for that as the
/// longest there is.
pub proof fn law_time_is_handed_on_in_milliseconds(seconds: u64)
    ensures
        seconds * 1000 <= u64::MAX ==> millis(seconds) == seconds * 1000,
        seconds * 1000 > u64::MAX ==> millis(seconds) == u64::MAX,
{
}

/// An error of the shell reads as the shell has it.
pub proof fn law_shell_error_reads_as_it_is(message: String)
    ensures
        tool_error_text(ToolError::Rejected(message)) == message@,
        tool_error_text(ToolError::Failed(message)) == message@,
{
}

/// What is kept of a command that the hooks stop is their feedback, else their
/// reason, else a sentence of its own, and nothing of the command.
pub proof fn law_stopped_command_leaves_feedback(
    outcome: PostToolUseHookOutcome,
    output: ExecOutputView,
    output_limit: nat,
)
    requires
        outcome.should_stop,
    ensures
        ({
            let kept = output_after_hooks(outcome, output, output_limit);
            &&& match (outcome.feedback_message, outcome.stop_reason) {
                (Some(feedback), _) => kept.hook_feedback == Some(feedback@),
                (None, Some(reason)) => kept.hook_feedback == Some(reason@),
                (None, None) => kept.hook_feedback == Some(
                    "PostToolUse hook stopped dynamic context output"@,
                ),
            }
            &&& kept.exit_code == Some(0i32)
            &&& kept.stdout.len() == 0
            &&& kept.stderr.len() == 0
            &&& !kept.truncated
            &&& !kept.timed_out
            &&& kept.failure is None
        }),
{
}

/// What is kept of a command that the hooks do not stop has the exit code and the
/// timeout mark of the shell, and the beginnings of both streams, whatever else the
/// hooks say.
pub proof fn law_command_is_kept_as_it_ended(
    outcome: PostToolUseHookOutcome,
    output: ExecOutputView,
    output_limit: nat,
)
    requires
        !outcome.should_stop,
    ensures
        ({
            let kept = output_after_hooks(outcome, output, output_limit);
            let out = output.stdout.text;
            let err = output.stderr.text;
            &&& kept.exit_code == Some(output.exit_code)
            &&& kept.timed_out == output.timed_out
            &&& kept.failure is None
            &&& kept.hook_feedback is None
            &&& kept.stdout == out.take(
                if out.len() < output_limit {
                    out.len() as int
                } else {
                    output_limit as int
                },
            )
            &&& kept.stderr == err.take(
                if err.len() < output_limit {
                    err.len() as int
                } else {
                    output_limit as int
                },
            )
            &&& !kept.truncated <==> out.len() <= output_limit && err.len() <= output_limit
                && output.stdout.truncated_after_lines is None
                && output.stderr.truncated_after_lines is None
                && output.aggregated_output.truncated_after_lines is None
        }),
{
    law_ended_command_is_kept_as_it_ended(output, output_limit);
    assert(output.stdout.text.take(output.stdout.text.len() as int) =~= output.stdout.text);
    assert(output.stderr.text.take(output.stderr.text.len() as int) =~= output.stderr.text);
}

/// A command that is admitted and that the hooks let pass comes to what the shell
/// made of it: its error, or its output with exit code and timeout mark as the
/// shell has them, unless the hooks stop it.
pub proof fn law_passed_command_comes_to_its_run(
    request: RequestView,
    output: ExecOutputView,
    error: Seq<char>,
    after: PostToolUseHookOutcome,
)
    requires
        !is_blank(request.command),
    ensures
        ({
            let before = PreToolUseHookResult::Continue { updated_input: None };
            let failed = command_result(request, true, before, Err(error), after);
            let ended = command_result(request, true, before, Ok(output), after);
            &&& failed == Err::<RunOutputView, Seq<char>>(error)
            &&& ended is Ok
            &&& !after.should_stop ==> ended->Ok_0.exit_code == Some(output.exit_code)
                && ended->Ok_0.timed_out == output.timed_out && ended->Ok_0.hook_feedback is None
                && ended->Ok_0.failure is None && ended->Ok_0.stdout.is_prefix_of(
                output.stdout.text,
            ) && ended->Ok_0.stderr.is_prefix_of(output.stderr.text)
            &&& !after.should_stop && output.stdout.text.len() <= request.output_limit
                ==> ended->Ok_0.stdout == output.stdout.text
            &&& after.should_stop ==> ended->Ok_0.hook_feedback is Some
        }),
{
    law_hooks_decide(request.command, arbitrary(), arbitrary());
    law_command_is_admitted_unless(request.command);
    if after.should_stop {
        law_stopped_command_leaves_feedback(after, output, request.output_limit as nat);
    } else {
        law_command_is_kept_as_it_ended(after, output, request.output_limit as nat);
    }
}

/// The hooks before a command are told of the shell tool, the command's identifier
/// and an object whose one member is the command.
pub proof fn law_hooks_before_are_told(r: PreToolUseRequest, command: CommandView)
    requires
        is_pre_tool_use_request(r, command),
    ensures
        r.tool_use_id@ == command.tool_use_id,
        r.tool_name == HookToolName::Bash,
        json_members(r.tool_input) == set!["command"@],
        json_strings(r.tool_input) == map![seq!["command"@] => command.request.command],
{
}

/// The hooks after a command are told what those before it were, and the response
/// as a string.
pub proof fn law_hooks_after_are_told(
    r: PostToolUseRequest,
    command: CommandView,
    response: Seq<char>,
)
    requires
        is_post_tool_use_request(r, command, response),
    ensures
        r.tool_use_id@ == command.tool_use_id,
        r.tool_name == HookToolName::Bash,
        json_members(r.tool_input) == set!["command"@],
        json_strings(r.tool_input) == map![seq!["command"@] => command.request.command],
        json_members(r.tool_response) == Set::<Seq<char>>::empty(),
        json_strings(r.tool_response) == map![Seq::<Seq<char>>::empty() => response],
{
}

/// Approval is asked for the very arguments, in the directory of the sandbox, with
/// what the sandbox allows by default.
pub proof fn law_approval_names_the_run(
    r: ExecApprovalRequest,
    ready: ReadyView,
    sandbox_cwd: Seq<char>,
)
    requires
        is_approval_request(r, ready, sandbox_cwd),
    ensures
        r.command@.len() == ready.exec_args.len(),
        forall|i: int| 0 <= i < ready.exec_args.len() ==> #[trigger] r.command@[i]@
            == ready.exec_args[i],
        r.sandbox_cwd@ == sandbox_cwd,
        r.sandbox_permissions == SandboxPermissions::UseDefault,
        r.prefix_rule is None,
{
    assert forall|i: int| 0 <= i < ready.exec_args.len() implies #[trigger] r.command@[i]@
        == ready.exec_args[i] by {
        assert(string_views(r.command@)[i] == r.command@[i]@);
    }
}

/// The shell is given the very arguments and the command, under its identifier, in
/// the directory of its environment, with its time in milliseconds and with what
/// the sandbox allows by default. A variable has the value that the skill's
/// dependencies give it, and else the one that it had.
pub proof fn law_shell_is_given_the_run(
    r: ShellRequest,
    ready: ReadyView,
    env: Map<Seq<char>, Seq<char>>,
    dependency_env: Map<Seq<char>, Seq<char>>,
    policy_env: Map<Seq<char>, Seq<char>>,
    name: Seq<char>,
)
    requires
        is_shell_request(r, ready, env, dependency_env, policy_env),
    ensures
        r.tool_use_id@ == ready.command.tool_use_id,
        r.tool_name@ == "shell_command"@,
        r.backend == ShellRuntimeBackend::SkillDynamicContext,
        r.command@.len() == ready.exec_args.len(),
        forall|i: int| 0 <= i < ready.exec_args.len() ==> #[trigger] r.command@[i]@
            == ready.exec_args[i],
        r.shell_type is Some && r.shell_type->0@ == ready.shell_type,
        r.hook_command@ == ready.command.request.command,
        r.cwd@ == ready.command.cwd,
        r.timeout_ms is Some,
        ready.command.request.timeout_seconds * 1000 <= u64::MAX ==> r.timeout_ms->0
            == ready.command.request.timeout_seconds * 1000,
        ready.command.request.timeout_seconds * 1000 > u64::MAX ==> r.timeout_ms->0 == u64::MAX,
        r.sandbox_permissions == SandboxPermissions::UseDefault,
        r.additional_permissions is None,
        !r.additional_permissions_preapproved,
        r.justification is Some && r.justification->0@
            == "run allowlisted skill dynamic context command"@,
        dependency_env.contains_key(name) ==> r.env@.contains_key(name) && r.env@[name]
            == dependency_env[name] && r.explicit_env_overrides@.contains_key(name)
            && r.explicit_env_overrides@[name] == dependency_env[name],
        !dependency_env.contains_key(name) ==> r.env@.contains_key(name) == env.contains_key(name)
            && (env.contains_key(name) ==> r.env@[name] == env[name]),
        !dependency_env.contains_key(name) ==> r.explicit_env_overrides@.contains_key(name)
            == policy_env.contains_key(name) && (policy_env.contains_key(name)
            ==> r.explicit_env_overrides@[name] == policy_env[name]),
{
    assert forall|i: int| 0 <= i < ready.exec_args.len() implies #[trigger] r.command@[i]@
        == ready.exec_args[i] by {
        assert(string_views(r.command@)[i] == r.command@[i]@);
    }
}

} // verus!
