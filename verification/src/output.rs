//! What a command leaves behind, and how much of it is kept.

use crate::text::{first_chars, take_chars_with_truncation};
use vstd::prelude::*;

verus! {

/// One output stream of a command, as the shell hands it over.
#[derive(Debug, Clone)]
pub struct StreamOutput {
    pub text: String,
    /// Set where the shell cut the stream, to the number of lines that it kept.
    pub truncated_after_lines: Option<u32>,
}

/// What the shell hands over once a command has ended.
#[derive(Debug, Clone)]
pub struct ExecToolCallOutput {
    pub exit_code: i32,
    pub stdout: StreamOutput,
    pub stderr: StreamOutput,
    pub aggregated_output: StreamOutput,
    pub timed_out: bool,
}

/// What is kept of a command that was run.
#[derive(Debug, Clone, PartialEq, Eq)]
pub struct CommandRunOutput {
    pub exit_code: Option<i32>,
    pub stdout: String,
    pub stderr: String,
    pub truncated: bool,
    pub timed_out: bool,
    pub failure: Option<String>,
    pub hook_feedback: Option<String>,
}

/// What a [`CommandRunOutput`] stands for.
#[verifier::ext_equal]
pub struct RunOutputView {
    pub exit_code: Option<i32>,
    pub stdout: Seq<char>,
    pub stderr: Seq<char>,
    pub truncated: bool,
    pub timed_out: bool,
    pub failure: Option<Seq<char>>,
    pub hook_feedback: Option<Seq<char>>,
}

/// The text of an optional string.
pub open spec fn text_view(text: Option<String>) -> Option<Seq<char>> {
    match text {
        Some(text) => Some(text@),
        None => None,
    }
}

impl View for CommandRunOutput {
    type V = RunOutputView;

    open spec fn view(&self) -> RunOutputView {
        RunOutputView {
            exit_code: self.exit_code,
            stdout: self.stdout@,
            stderr: self.stderr@,
            truncated: self.truncated,
            timed_out: self.timed_out,
            failure: text_view(self.failure),
            hook_feedback: text_view(self.hook_feedback),
        }
    }
}

/// What a [`StreamOutput`] stands for.
pub struct StreamView {
    pub text: Seq<char>,
    pub truncated_after_lines: Option<u32>,
}

impl View for StreamOutput {
    type V = StreamView;

    open spec fn view(&self) -> StreamView {
        StreamView { text: self.text@, truncated_after_lines: self.truncated_after_lines }
    }
}

/// What an [`ExecToolCallOutput`] stands for.
pub struct ExecOutputView {
    pub exit_code: i32,
    pub stdout: StreamView,
    pub stderr: StreamView,
    pub aggregated_output: StreamView,
    pub timed_out: bool,
}

impl View for ExecToolCallOutput {
    type V = ExecOutputView;

    open spec fn view(&self) -> ExecOutputView {
        ExecOutputView {
            exit_code: self.exit_code,
            stdout: self.stdout@,
            stderr: self.stderr@,
            aggregated_output: self.aggregated_output@,
            timed_out: self.timed_out,
        }
    }
}

/// What is kept of an ended command: its exit code, and of each stream no more
/// than `output_limit` characters. It counts as truncated where this or the
/// shell cut something off.
pub open spec fn kept_output(output: ExecOutputView, output_limit: nat) -> RunOutputView {
    RunOutputView {
        exit_code: Some(output.exit_code),
        stdout: first_chars(output.stdout.text, output_limit),
        stderr: first_chars(output.stderr.text, output_limit),
        truncated: {
            ||| output.stdout.text.len() > output_limit
            ||| output.stderr.text.len() > output_limit
            ||| output.stdout.truncated_after_lines is Some
            ||| output.stderr.truncated_after_lines is Some
            ||| output.aggregated_output.truncated_after_lines is Some
        },
        timed_out: output.timed_out,
        failure: None,
        hook_feedback: None,
    }
}

/// What is kept of an ended command.
pub fn command_run_output_from_exec(output: &ExecToolCallOutput, output_limit: usize) -> (r:
    CommandRunOutput)
    ensures
        r@ == kept_output(output@, output_limit as nat),
{
    let (stdout, stdout_truncated) = take_chars_with_truncation(
        output.stdout.text.as_str(),
        output_limit,
    );
    let (stderr, stderr_truncated) = take_chars_with_truncation(
        output.stderr.text.as_str(),
        output_limit,
    );
    let stream_truncated = output.stdout.truncated_after_lines.is_some()
        || output.stderr.truncated_after_lines.is_some()
        || output.aggregated_output.truncated_after_lines.is_some();
    CommandRunOutput {
        exit_code: Some(output.exit_code),
        stdout,
        stderr,
        truncated: stdout_truncated || stderr_truncated || stream_truncated,
        timed_out: output.timed_out,
        failure: None,
        hook_feedback: None,
    }
}

/// No stream is kept beyond the limit, and what is kept is a beginning of it; a
/// stream that was cut is marked.
pub proof fn law_output_is_bounded(output: ExecOutputView, output_limit: nat)
    ensures
        ({
            let kept = kept_output(output, output_limit);
            &&& kept.stdout.len() <= output_limit
            &&& kept.stderr.len() <= output_limit
            &&& kept.stdout.is_prefix_of(output.stdout.text)
            &&& kept.stderr.is_prefix_of(output.stderr.text)
            &&& !kept.truncated ==> kept.stdout == output.stdout.text && kept.stderr
                == output.stderr.text
        }),
{
}

/// What is kept of an ended command has the exit code and the timeout mark that the
/// shell handed over, and of each stream the beginning: all of it, or as many
/// characters as the limit. It is marked as truncated just where a stream is longer
/// than the limit or the shell cut one.
pub proof fn law_ended_command_is_kept_as_it_ended(output: ExecOutputView, output_limit: nat)
    ensures
        ({
            let kept = kept_output(output, output_limit);
            let out = output.stdout.text;
            let err = output.stderr.text;
            &&& kept.exit_code == Some(output.exit_code)
            &&& kept.timed_out == output.timed_out
            &&& kept.failure is None
            &&& kept.hook_feedback is None
            &&& out.len() <= output_limit ==> kept.stdout == out
            &&& out.len() > output_limit ==> kept.stdout == out.subrange(0, output_limit as int)
            &&& err.len() <= output_limit ==> kept.stderr == err
            &&& err.len() > output_limit ==> kept.stderr == err.subrange(0, output_limit as int)
            &&& out.len() > output_limit ==> kept.truncated
            &&& err.len() > output_limit ==> kept.truncated
            &&& output.stdout.truncated_after_lines is Some ==> kept.truncated
            &&& output.stderr.truncated_after_lines is Some ==> kept.truncated
            &&& output.aggregated_output.truncated_after_lines is Some ==> kept.truncated
            &&& kept.truncated && out.len() <= output_limit && err.len() <= output_limit
                ==> output.stdout.truncated_after_lines is Some
                || output.stderr.truncated_after_lines is Some
                || output.aggregated_output.truncated_after_lines is Some
        }),
{
}

/// What outputs stand for is what stands in them.
pub proof fn law_output_views_are_the_outputs(kept: CommandRunOutput, output: ExecToolCallOutput)
    ensures
        kept@.exit_code == kept.exit_code,
        kept@.stdout == kept.stdout@,
        kept@.stderr == kept.stderr@,
        kept@.truncated == kept.truncated,
        kept@.timed_out == kept.timed_out,
        kept@.failure is Some == kept.failure is Some,
        kept.failure is Some ==> kept@.failure->0 == kept.failure->0@,
        kept@.hook_feedback is Some == kept.hook_feedback is Some,
        kept.hook_feedback is Some ==> kept@.hook_feedback->0 == kept.hook_feedback->0@,
        output@.exit_code == output.exit_code,
        output@.timed_out == output.timed_out,
        output@.stdout.text == output.stdout.text@,
        output@.stderr.text == output.stderr.text@,
        output@.aggregated_output.text == output.aggregated_output.text@,
        output@.stdout.truncated_after_lines == output.stdout.truncated_after_lines,
        output@.stderr.truncated_after_lines == output.stderr.truncated_after_lines,
        output@.aggregated_output.truncated_after_lines
            == output.aggregated_output.truncated_after_lines,
{
}

} // verus!
