//! The block of text that takes the place of a placeholder.

use crate::output::{CommandRunOutput, RunOutputView};
use crate::text::{append_signed_decimal, replace_all, replace_text, signed_decimal};
use vstd::prelude::*;

verus! {

/// How a character is written in an attribute value.
pub open spec fn escaped_char(c: char) -> Seq<char> {
    if c == '&' {
        "&amp;"@
    } else if c == '"' {
        "&quot;"@
    } else if c == '<' {
        "&lt;"@
    } else if c == '>' {
        "&gt;"@
    } else {
        seq![c]
    }
}

/// How a text is written in an attribute value: each character for itself.
pub open spec fn escaped(value: Seq<char>) -> Seq<char>
    decreases value.len(),
{
    if value.len() == 0 {
        Seq::empty()
    } else {
        escaped(value.drop_last()) + escaped_char(value.last())
    }
}

/// Writes a text so that it can stand in an attribute value.
pub fn escape_attr(value: &str) -> (r: String)
    ensures
        r@ == escaped(value@),
{
    let mut r = String::new();
    for c in it: value.chars()
        invariant
            r@ == escaped(value@.take(it.index())),
            it.seq() == value@,
    {
        let ghost before = r@;
        if c == '&' {
            r.append("&amp;");
        } else if c == '"' {
            r.append("&quot;");
        } else if c == '<' {
            r.append("&lt;");
        } else if c == '>' {
            r.append("&gt;");
        } else {
            r.push(c);
        }
        proof {
            let done = value@.take(it.index() + 1);
            assert(done.drop_last() =~= value@.take(it.index()));
            assert(r@ =~= before + escaped_char(c));
        }
    }
    assert(value@.take(value@.len() as int) =~= value@);
    r
}

/// A text in which the closing tags of a skill and of this block, and the marks
/// of a fence, are broken up.
pub open spec fn neutralized(value: Seq<char>) -> Seq<char> {
    replace_all(
        replace_all(
            replace_all(value, "</skill>"@, "<\\/skill>"@),
            "</skill_dynamic_context>"@,
            "<\\/skill_dynamic_context>"@,
        ),
        "~~~"@,
        "~~ ~"@,
    )
}

/// Breaks up what could close the skill, this block, or the fence in it.
pub fn neutralize_skill_markup(value: &str) -> (r: String)
    ensures
        r@ == neutralized(value@),
{
    proof {
        reveal_strlit("</skill>");
        reveal_strlit("</skill_dynamic_context>");
        reveal_strlit("~~~");
    }
    let skills = replace_text(value, "</skill>", "<\\/skill>");
    let blocks = replace_text(
        skills.as_str(),
        "</skill_dynamic_context>",
        "<\\/skill_dynamic_context>",
    );
    replace_text(blocks.as_str(), "~~~", "~~ ~")
}

/// How an exit code is shown.
pub open spec fn exit_code_text(exit_code: Option<i32>) -> Seq<char> {
    match exit_code {
        Some(code) => "Some("@ + signed_decimal(code as int) + ")"@,
        None => "None"@,
    }
}

/// Appends how an exit code is shown.
pub fn append_exit_code(s: &mut String, exit_code: Option<i32>)
    ensures
        final(s)@ == old(s)@ + exit_code_text(exit_code),
{
    match exit_code {
        Some(code) => {
            s.append("Some(");
            append_signed_decimal(s, code);
            s.append(")");
        },
        None => {
            s.append("None");
        },
    }
    assert(s@ =~= old(s)@ + exit_code_text(exit_code));
}

/// What is said of a command's outcome, before it is marked as truncated.
pub open spec fn outcome_text(output: RunOutputView) -> Seq<char> {
    if output.hook_feedback is Some {
        "post-tool hook feedback:\n"@ + output.hook_feedback->0
    } else if output.timed_out {
        "command timed out"@
    } else if output.failure is Some {
        "command failed: "@ + output.failure->0
    } else if output.exit_code == Some(0i32) {
        if output.stdout.len() == 0 {
            "command completed with no stdout"@
        } else {
            output.stdout
        }
    } else {
        let stderr = if output.stderr.len() == 0 {
            "no stderr"@
        } else {
            output.stderr
        };
        "command exited with status "@ + exit_code_text(output.exit_code) + "\n"@ + stderr
    }
}

/// What is said of a command's outcome.
pub open spec fn body_text(output: RunOutputView) -> Seq<char> {
    if output.truncated {
        outcome_text(output) + "\n[output truncated]"@
    } else {
        outcome_text(output)
    }
}

/// The block that takes the place of a placeholder.
pub open spec fn rendered_block(command: Seq<char>, output: RunOutputView) -> Seq<char> {
    "<skill_dynamic_context command=\""@ + escaped(command) + "\">\n~~~text\n"@ + neutralized(
        body_text(output),
    ) + "\n~~~\n</skill_dynamic_context>"@
}

/// What is said of a command's outcome.
fn outcome_body(output: &CommandRunOutput) -> (r: String)
    ensures
        r@ == body_text(output@),
{
    let mut body = String::new();
    if let Some(feedback) = &output.hook_feedback {
        body.append("post-tool hook feedback:\n");
        body.append(feedback.as_str());
    } else if output.timed_out {
        body.append("command timed out");
    } else if let Some(failure) = &output.failure {
        body.append("command failed: ");
        body.append(failure.as_str());
    } else if output.exit_code == Some(0) {
        if output.stdout.as_str().is_empty() {
            body.append("command completed with no stdout");
        } else {
            body.append(output.stdout.as_str());
        }
    } else {
        body.append("command exited with status ");
        append_exit_code(&mut body, output.exit_code);
        body.append("\n");
        if output.stderr.as_str().is_empty() {
            body.append("no stderr");
        } else {
            body.append(output.stderr.as_str());
        }
    }
    assert(body@ =~= outcome_text(output@));
    if output.truncated {
        body.append("\n[output truncated]");
    }
    body
}

/// Writes the block that takes the place of a placeholder.
pub fn render_command_output(command: &str, output: &CommandRunOutput) -> (r: String)
    ensures
        r@ == rendered_block(command@, output@),
{
    let body = outcome_body(output);
    let mut r = String::from_str("<skill_dynamic_context command=\"");
    r.append(escape_attr(command).as_str());
    r.append("\">\n~~~text\n");
    r.append(neutralize_skill_markup(body.as_str()).as_str());
    r.append("\n~~~\n</skill_dynamic_context>");
    r
}

} // verus!
