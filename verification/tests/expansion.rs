use skill_dynamic_context::command::CommandRequest;
use skill_dynamic_context::expansion::{
    expand_skill_contents, ContentsExpander, ExpansionStart, ExpansionStep, SkillContentsExpansion,
};
use skill_dynamic_context::output::CommandRunOutput;
use skill_dynamic_context::skill::{
    skill_allows_dynamic_context_execution, SkillDynamicContext, SkillMetadata, SkillScope,
};

fn skill(scope: SkillScope) -> SkillMetadata {
    SkillMetadata {
        name: "demo".to_string(),
        path: "skills/demo/SKILL.md".to_string(),
        scope,
    }
}

fn context(allowed: &[&str]) -> SkillDynamicContext {
    SkillDynamicContext {
        inline_command_placeholders: true,
        allowed_commands: allowed.iter().map(|c| c.to_string()).collect(),
        timeout_seconds: None,
        max_output_chars: None,
        max_total_output_chars: None,
        max_placeholders: None,
    }
}

fn ok(stdout: &str) -> Result<CommandRunOutput, String> {
    Ok(CommandRunOutput {
        exit_code: Some(0),
        stdout: stdout.to_string(),
        stderr: String::new(),
        truncated: false,
        timed_out: false,
        failure: None,
        hook_feedback: None,
    })
}

fn block(command: &str, body: &str) -> String {
    format!(
        "<skill_dynamic_context command=\"{command}\">\n~~~text\n{body}\n~~~\n</skill_dynamic_context>"
    )
}

fn start(contents: &str, context: &SkillDynamicContext) -> ContentsExpander {
    match expand_skill_contents(contents, &skill(SkillScope::Other), context, false, true) {
        ExpansionStart::Running(expander) => expander,
        ExpansionStart::Finished(_) => panic!("nothing to expand"),
    }
}

fn run(
    mut expander: ContentsExpander,
    elapsed: u128,
    mut respond: impl FnMut(&CommandRequest) -> Result<CommandRunOutput, String>,
) -> SkillContentsExpansion {
    loop {
        match expander.step(elapsed) {
            ExpansionStep::Finished(expansion) => return expansion,
            ExpansionStep::Skipped(next) => expander = next,
            ExpansionStep::Run(awaited) => {
                let result = respond(&awaited.request());
                expander = awaited.complete(result);
            }
        }
    }
}

#[test]
fn text_without_placeholders_is_left_without_a_word() {
    for trusted in [true, false] {
        match expand_skill_contents(
            "plain",
            &skill(SkillScope::Repo),
            &context(&[]),
            trusted,
            false,
        ) {
            ExpansionStart::Finished(expansion) => {
                assert_eq!(expansion.contents, "plain");
                assert!(expansion.warnings.is_empty());
            }
            ExpansionStart::Running(_) => panic!("nothing to run"),
        }
    }
}

#[test]
fn repo_skill_of_an_untrusted_project_is_not_expanded() {
    match expand_skill_contents(
        "!`ls`",
        &skill(SkillScope::Repo),
        &context(&["ls"]),
        false,
        true,
    ) {
        ExpansionStart::Finished(expansion) => {
            assert_eq!(expansion.contents, "!`ls`");
            assert_eq!(
                expansion.warnings,
                vec!["Skipping dynamic context for skill `demo` because repo-scoped dynamic context requires a trusted project."]
            );
        }
        ExpansionStart::Running(_) => panic!("must not run"),
    }
}

#[test]
fn scope_and_trust_decide() {
    assert!(skill_allows_dynamic_context_execution(
        &skill(SkillScope::Other),
        false
    ));
    assert!(skill_allows_dynamic_context_execution(
        &skill(SkillScope::Repo),
        true
    ));
    assert!(!skill_allows_dynamic_context_execution(
        &skill(SkillScope::Repo),
        false
    ));
}

#[test]
fn without_environment_nothing_is_expanded() {
    match expand_skill_contents(
        "!`ls`",
        &skill(SkillScope::Other),
        &context(&["ls"]),
        true,
        false,
    ) {
        ExpansionStart::Finished(expansion) => {
            assert_eq!(expansion.contents, "!`ls`");
            assert_eq!(
                expansion.warnings,
                vec!["Skipping dynamic context for skill `demo` because no execution environment is selected."]
            );
        }
        ExpansionStart::Running(_) => panic!("must not run"),
    }
}

#[test]
fn default_limits_are_granted() {
    let expander = start("!`ls`", &context(&["ls"]));
    match expander.step(0) {
        ExpansionStep::Run(awaited) => assert_eq!(
            awaited.request(),
            CommandRequest {
                command: "ls".to_string(),
                timeout_seconds: 10,
                output_limit: 20_000,
            }
        ),
        _ => panic!("the command is allowed"),
    }
}

#[test]
fn limits_of_the_skill_are_granted() {
    let mut context = context(&["ls"]);
    context.timeout_seconds = Some(500);
    context.max_output_chars = Some(70);
    context.max_total_output_chars = Some(60);
    let expander = start("!`ls`", &context);
    match expander.step(20_500_000_000) {
        ExpansionStep::Run(awaited) => assert_eq!(
            awaited.request(),
            CommandRequest {
                command: "ls".to_string(),
                timeout_seconds: 99,
                output_limit: 60,
            }
        ),
        _ => panic!("the command is allowed"),
    }
}

#[test]
fn last_second_is_granted_whole() {
    let expander = start("!`ls`", &context(&["ls"]));
    match expander.step(119_999_999_999) {
        ExpansionStep::Run(awaited) => assert_eq!(awaited.request().timeout_seconds, 1),
        _ => panic!("there is time left"),
    }
}

#[test]
fn expanded_placeholders_are_replaced() {
    let expansion = run(
        start("A !`a` B !`b` C", &context(&["a", "b"])),
        0,
        |request| ok(&format!("out {}", request.command)),
    );
    assert_eq!(
        expansion.contents,
        format!(
            "A {} B {} C",
            block("a", "out a"),
            block("b", "out b")
        )
    );
    assert!(expansion.warnings.is_empty());
}

#[test]
fn placeholders_beyond_the_limit_are_skipped() {
    let mut context = context(&["a"]);
    context.max_placeholders = Some(1);
    let expansion = run(start("!`a` !`a`", &context), 0, |_| ok("x"));
    assert_eq!(expansion.contents, format!("{} !`a`", block("a", "x")));
    assert_eq!(
        expansion.warnings,
        vec!["Skipped dynamic context command `a` in skill `demo` because max_placeholders was reached."]
    );
}

#[test]
fn commands_off_the_allowlist_are_skipped() {
    let expansion = run(start("!`a` !`b`", &context(&["b "])), 0, |_| {
        panic!("must not run")
    });
    assert_eq!(expansion.contents, "!`a` !`b`");
    assert_eq!(
        expansion.warnings,
        vec![
            "Skipped dynamic context command `a` in skill `demo` because it is not allowlisted.",
            "Skipped dynamic context command `b` in skill `demo` because it is not allowlisted.",
        ]
    );
}

#[test]
fn skipped_placeholder_counts_against_the_limit() {
    let mut context = context(&["b"]);
    context.max_placeholders = Some(1);
    let expansion = run(start("!`a` !`b`", &context), 0, |_| panic!("must not run"));
    assert_eq!(
        expansion.warnings,
        vec![
            "Skipped dynamic context command `a` in skill `demo` because it is not allowlisted.",
            "Skipped dynamic context command `b` in skill `demo` because max_placeholders was reached.",
        ]
    );
}

#[test]
fn output_for_the_text_is_used_up() {
    let mut context = context(&["a"]);
    let length = block("a", "12345").chars().count();
    context.max_total_output_chars = Some(length + 3);
    let mut limits = Vec::new();
    let expansion = run(start("!`a` !`a` !`a`", &context), 0, |request| {
        limits.push(request.output_limit);
        ok("12345")
    });
    assert_eq!(limits, vec![length + 3, 3]);
    assert_eq!(
        expansion.contents,
        format!("{0} {0} !`a`", block("a", "12345"))
    );
    assert_eq!(
        expansion.warnings,
        vec!["Skipped dynamic context command `a` in skill `demo` because max_total_output_chars was reached."]
    );
}

#[test]
fn time_for_the_text_is_used_up() {
    let expansion = run(start("!`a`", &context(&["a"])), 120_000_000_000, |_| {
        panic!("must not run")
    });
    assert_eq!(expansion.contents, "!`a`");
    assert_eq!(
        expansion.warnings,
        vec!["Skipped dynamic context command `a` in skill `demo` because the dynamic context runtime budget was reached."]
    );
}

#[test]
fn command_that_cannot_be_run_is_left_in_the_text() {
    let expansion = run(start("x !`a` y", &context(&["a"])), 0, |_| {
        Err("blocked by hook".to_string())
    });
    assert_eq!(expansion.contents, "x !`a` y");
    assert_eq!(
        expansion.warnings,
        vec!["Skipped dynamic context command `a` in skill `demo`: blocked by hook"]
    );
}

#[test]
fn outcome_is_warned_of_once() {
    let base = ok("x").expect("output");
    let cases = [
        (
            CommandRunOutput {
                timed_out: true,
                failure: Some("f".to_string()),
                exit_code: Some(1),
                truncated: true,
                ..base.clone()
            },
            "Dynamic context command `a` in skill `demo` timed out after 10s.",
        ),
        (
            CommandRunOutput {
                failure: Some("f".to_string()),
                exit_code: Some(1),
                truncated: true,
                ..base.clone()
            },
            "Dynamic context command `a` in skill `demo` failed: f",
        ),
        (
            CommandRunOutput {
                exit_code: Some(127),
                truncated: true,
                ..base.clone()
            },
            "Dynamic context command `a` in skill `demo` exited with status Some(127).",
        ),
        (
            CommandRunOutput {
                exit_code: None,
                ..base.clone()
            },
            "Dynamic context command `a` in skill `demo` exited with status None.",
        ),
        (
            CommandRunOutput {
                truncated: true,
                ..base.clone()
            },
            "Dynamic context command `a` in skill `demo` was truncated.",
        ),
    ];
    for (output, warning) in cases {
        let expansion = run(start("!`a`", &context(&["a"])), 0, |_| Ok(output.clone()));
        assert_eq!(expansion.warnings, vec![warning]);
        assert!(expansion.contents.starts_with("<skill_dynamic_context"));
    }
}

#[test]
fn every_placeholder_is_replaced_or_warned_of() {
    let mut turn = 0;
    let expansion = run(
        start("!`a` !`b` !`a` !`a`", &context(&["a"])),
        0,
        |_| {
            turn += 1;
            if turn == 2 {
                Err("no".to_string())
            } else {
                ok("x")
            }
        },
    );
    assert_eq!(expansion.warnings.len(), 2);
    assert_eq!(expansion.contents.matches("<skill_dynamic_context ").count(), 2);
    assert!(!expansion.contents.contains("</skill>"));
}

#[test]
fn blocks_and_warnings_come_in_the_order_of_the_text() {
    let mut turn = 0;
    let expansion = run(
        start("!`a` !`b` !`c` !`a` !`d`", &context(&["a", "c", "d"])),
        0,
        |request| {
            turn += 1;
            match turn {
                1 => ok("first").map(|output| CommandRunOutput {
                    truncated: true,
                    ..output
                }),
                2 => Err("no".to_string()),
                _ => ok(&format!("{} {turn}", request.command)),
            }
        },
    );
    assert_eq!(
        expansion.contents,
        format!(
            "{} !`b` !`c` {} {}",
            block("a", "first\n[output truncated]"),
            block("a", "a 3"),
            block("d", "d 4")
        )
    );
    assert_eq!(
        expansion.warnings,
        vec![
            "Dynamic context command `a` in skill `demo` was truncated.",
            "Skipped dynamic context command `b` in skill `demo` because it is not allowlisted.",
            "Skipped dynamic context command `c` in skill `demo`: no",
        ]
    );
}
