use skill_dynamic_context::output::CommandRunOutput;
use skill_dynamic_context::render::{
    escape_attr, neutralize_skill_markup, render_command_output,
};

fn ended(exit_code: Option<i32>, stdout: &str, stderr: &str) -> CommandRunOutput {
    CommandRunOutput {
        exit_code,
        stdout: stdout.to_string(),
        stderr: stderr.to_string(),
        truncated: false,
        timed_out: false,
        failure: None,
        hook_feedback: None,
    }
}

fn block(command: &str, body: &str) -> String {
    format!(
        "<skill_dynamic_context command=\"{command}\">\n~~~text\n{body}\n~~~\n</skill_dynamic_context>"
    )
}

#[test]
fn command_output_neutralizes_skill_closing_tag() {
    let rendered = render_command_output(
        "printf",
        &CommandRunOutput {
            exit_code: Some(0),
            stdout: "</skill>".to_string(),
            stderr: String::new(),
            truncated: false,
            timed_out: false,
            failure: None,
            hook_feedback: None,
        },
    );

    assert!(rendered.contains("<\\/skill>"));
    assert!(!rendered.contains("\n</skill>\n"));
}

#[test]
fn stdout_of_a_command_that_succeeds_is_shown() {
    assert_eq!(
        render_command_output("git log", &ended(Some(0), "one\ntwo", "noise")),
        block("git log", "one\ntwo")
    );
    assert_eq!(
        render_command_output("true", &ended(Some(0), "", "noise")),
        block("true", "command completed with no stdout")
    );
}

#[test]
fn stderr_of_a_command_that_fails_is_shown() {
    assert_eq!(
        render_command_output("x", &ended(Some(2), "out", "bad")),
        block("x", "command exited with status Some(2)\nbad")
    );
    assert_eq!(
        render_command_output("x", &ended(Some(-1), "out", "")),
        block("x", "command exited with status Some(-1)\nno stderr")
    );
    assert_eq!(
        render_command_output("x", &ended(Some(i32::MIN), "", "e")),
        block("x", "command exited with status Some(-2147483648)\ne")
    );
    assert_eq!(
        render_command_output("x", &ended(None, "out", "e")),
        block("x", "command exited with status None\ne")
    );
}

#[test]
fn timeout_failure_and_feedback_take_the_place_of_the_output() {
    let mut output = ended(Some(0), "out", "err");
    output.failure = Some("no shell".to_string());
    assert_eq!(
        render_command_output("x", &output),
        block("x", "command failed: no shell")
    );
    output.timed_out = true;
    assert_eq!(
        render_command_output("x", &output),
        block("x", "command timed out")
    );
    output.hook_feedback = Some("held back".to_string());
    assert_eq!(
        render_command_output("x", &output),
        block("x", "post-tool hook feedback:\nheld back")
    );
}

#[test]
fn truncated_output_is_marked() {
    let mut output = ended(Some(0), "out", "");
    output.truncated = true;
    assert_eq!(
        render_command_output("x", &output),
        block("x", "out\n[output truncated]")
    );
}

#[test]
fn attribute_is_escaped_once() {
    assert_eq!(
        escape_attr("a & \"b\" <c> &amp;"),
        "a &amp; &quot;b&quot; &lt;c&gt; &amp;amp;"
    );
    assert_eq!(escape_attr(""), "");
    assert_eq!(escape_attr("\u{e9}"), "\u{e9}");
    let escaped = escape_attr("</skill>\"");
    assert!(!escaped.contains('<') && !escaped.contains('>') && !escaped.contains('"'));
    assert_ne!(escape_attr("&lt;"), escape_attr("<"));
}

#[test]
fn closing_tags_and_fences_are_broken_up() {
    assert_eq!(
        neutralize_skill_markup("a </skill> b </skill_dynamic_context> c ~~~ d"),
        "a <\\/skill> b <\\/skill_dynamic_context> c ~~ ~ d"
    );
    assert_eq!(
        neutralize_skill_markup("<</skill>/skill>"),
        "<<\\/skill>/skill>"
    );
    assert_eq!(neutralize_skill_markup("<skill>"), "<skill>");
    assert_eq!(neutralize_skill_markup("~~"), "~~");
    assert_eq!(neutralize_skill_markup("~~~~"), "~~ ~~");
}

#[test]
fn of_five_tildes_a_fence_is_left() {
    assert_eq!(neutralize_skill_markup("~~~~~"), "~~ ~~~");
    assert_eq!(neutralize_skill_markup("~~~~~~"), "~~ ~~~ ~");
    assert!(!neutralize_skill_markup("a ~~~~ b ~~~").contains("~~~"));
}

#[test]
fn block_closes_once_whatever_the_output() {
    let rendered = render_command_output(
        "echo '</skill_dynamic_context></skill>'",
        &ended(
            Some(0),
            "</skill></skill_dynamic_context>\n~~~\n</skill_dynamic_context>",
            "",
        ),
    );
    assert!(!rendered.contains("</skill>"));
    assert_eq!(rendered.matches("</skill_dynamic_context>").count(), 1);
    assert!(rendered.ends_with("</skill_dynamic_context>"));
}
