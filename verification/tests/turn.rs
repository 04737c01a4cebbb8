use skill_dynamic_context::injection::{
    expansion_target, MentionedSkill, SkillDynamicContextExpansion, SkillInjection,
};
use skill_dynamic_context::expansion::SkillContentsExpansion;
use skill_dynamic_context::output::CommandRunOutput;
use skill_dynamic_context::skill::{SkillDynamicContext, SkillMetadata, SkillScope};
use skill_dynamic_context::turn::{expand_skill_dynamic_contexts, TextStep, TurnStep};

fn mention(
    name: &str,
    path: &str,
    scope: SkillScope,
    allowed: Option<&[&str]>,
) -> MentionedSkill {
    MentionedSkill {
        skill: SkillMetadata {
            name: name.to_string(),
            path: path.to_string(),
            scope,
        },
        dynamic_context: allowed.map(|allowed| SkillDynamicContext {
            inline_command_placeholders: true,
            allowed_commands: allowed.iter().map(|c| c.to_string()).collect(),
            timeout_seconds: None,
            max_output_chars: None,
            max_total_output_chars: None,
            max_placeholders: None,
        }),
    }
}

fn injection(path: &str, contents: &str) -> SkillInjection {
    SkillInjection {
        name: format!("skill at {path}"),
        path: path.to_string(),
        contents: contents.to_string(),
    }
}

fn expand(
    injections: Vec<SkillInjection>,
    mentioned: Vec<MentionedSkill>,
    trusted: bool,
    environment: bool,
    mut shell: impl FnMut(&str) -> String,
) -> SkillDynamicContextExpansion {
    let mut turn = expand_skill_dynamic_contexts(injections, mentioned, trusted, environment);
    loop {
        let mut open = match turn.step() {
            TurnStep::Finished(expansion) => return expansion,
            TurnStep::Advanced(next) => {
                turn = next;
                continue;
            }
            TurnStep::Opened(open) => open,
        };
        turn = loop {
            match open.step(0) {
                TextStep::Closed(next) => break next,
                TextStep::Skipped(next) => open = next,
                TextStep::Run(awaited) => {
                    let stdout = shell(&awaited.request().command);
                    open = awaited.complete(Ok(CommandRunOutput {
                        exit_code: Some(0),
                        stdout,
                        stderr: String::new(),
                        truncated: false,
                        timed_out: false,
                        failure: None,
                        hook_feedback: None,
                    }));
                }
            }
        };
    }
}

#[test]
fn user_turn_expands_skill_dynamic_context() {
    let expansion = expand(
        vec![injection(
            "skills/dynamic/SKILL.md",
            "Dynamic value: !`printf dynamic-output`",
        )],
        vec![mention(
            "dynamic",
            "skills/dynamic/SKILL.md",
            SkillScope::Other,
            Some(&["printf dynamic-output"]),
        )],
        false,
        true,
        |command| {
            assert_eq!(command, "printf dynamic-output");
            "dynamic-output".to_string()
        },
    );
    let text = &expansion.items[0].contents;
    assert!(text.contains("<skill_dynamic_context command=\"printf dynamic-output\">"));
    assert!(text.contains("dynamic-output"));
    assert!(!text.contains("!`printf dynamic-output`"));
    assert!(expansion.warnings.is_empty());
}

#[test]
fn user_turn_skips_non_allowlisted_skill_dynamic_context() {
    let expansion = expand(
        vec![injection(
            "skills/dynamic-blocked/SKILL.md",
            "Dynamic value: !`printf blocked-output`",
        )],
        vec![mention(
            "dynamic-blocked",
            "skills/dynamic-blocked/SKILL.md",
            SkillScope::Other,
            Some(&["printf allowed-output"]),
        )],
        false,
        true,
        |_| panic!("must not run"),
    );
    let text = &expansion.items[0].contents;
    assert!(text.contains("!`printf blocked-output`"));
    assert!(!text.contains("<skill_dynamic_context"));
    assert!(!text.contains("allowed-output"));
    assert_eq!(expansion.warnings.len(), 1);
}

#[test]
fn user_turn_skips_repo_skill_dynamic_context_when_project_untrusted() {
    let expansion = expand(
        vec![injection(
            ".agents/skills/repo-dynamic/SKILL.md",
            "Repo dynamic value: !`printf repo-dynamic-output`",
        )],
        vec![mention(
            "repo-dynamic",
            ".agents/skills/repo-dynamic/SKILL.md",
            SkillScope::Repo,
            Some(&["printf repo-dynamic-output"]),
        )],
        false,
        true,
        |_| panic!("must not run"),
    );
    let text = &expansion.items[0].contents;
    assert!(text.contains("!`printf repo-dynamic-output`"));
    assert!(!text.contains("<skill_dynamic_context"));
    assert!(!text.contains("repo-dynamic-output\n~~~"));
}

#[test]
fn texts_keep_their_order_and_warnings_follow_it() {
    let expansion = expand(
        vec![
            injection("none", "!`a`"),
            injection("on", "1 !`a`"),
            injection("off", "2 !`a`"),
            injection("on", "3 !`b`"),
            injection("plain", "4 !`a`"),
        ],
        vec![
            mention("on", "on", SkillScope::Other, Some(&["a"])),
            mention("off", "off", SkillScope::Repo, Some(&["a"])),
            mention("plain", "plain", SkillScope::Other, None),
        ],
        false,
        true,
        |_| "x".to_string(),
    );
    assert_eq!(expansion.items.len(), 5);
    assert_eq!(expansion.items[0], injection("none", "!`a`"));
    assert!(expansion.items[1].contents.starts_with("1 <skill_dynamic_context"));
    assert_eq!(expansion.items[1].path, "on");
    assert_eq!(expansion.items[1].name, "skill at on");
    assert_eq!(expansion.items[2], injection("off", "2 !`a`"));
    assert_eq!(expansion.items[3], injection("on", "3 !`b`"));
    assert_eq!(expansion.items[4], injection("plain", "4 !`a`"));
    assert_eq!(
        expansion.warnings,
        vec![
            "Skipping dynamic context for skill `off` because repo-scoped dynamic context requires a trusted project.",
            "Skipped dynamic context command `b` in skill `on` because it is not allowlisted.",
        ]
    );
}

#[test]
fn last_mention_of_a_path_counts() {
    let first = mention("first", "p", SkillScope::Other, Some(&["a"]));
    let second = mention("second", "p", SkillScope::Other, None);
    let mut third = mention("third", "p", SkillScope::Other, Some(&["a"]));
    let text = injection("p", "!`a`");
    assert_eq!(expansion_target(&text, &vec![first.clone()]), Some(0));
    assert_eq!(
        expansion_target(&text, &vec![second.clone(), first.clone()]),
        Some(1)
    );
    assert_eq!(
        expansion_target(&text, &vec![first.clone(), second.clone()]),
        None
    );
    if let Some(context) = &mut third.dynamic_context {
        context.inline_command_placeholders = false;
    }
    assert_eq!(expansion_target(&text, &vec![first.clone(), third]), None);
    assert_eq!(expansion_target(&injection("q", ""), &vec![first]), None);
}

#[test]
fn without_environment_texts_are_kept() {
    let expansion = expand(
        vec![injection("p", "!`a`")],
        vec![mention("s", "p", SkillScope::Other, Some(&["a"]))],
        true,
        false,
        |_| panic!("must not run"),
    );
    assert_eq!(expansion.items, vec![injection("p", "!`a`")]);
    assert_eq!(
        expansion.warnings,
        vec!["Skipping dynamic context for skill `s` because no execution environment is selected."]
    );
}

#[test]
fn nothing_to_take_in_comes_to_nothing() {
    let expansion = expand(Vec::new(), Vec::new(), true, true, |_| String::new());
    assert!(expansion.items.is_empty());
    assert!(expansion.warnings.is_empty());
}

#[test]
fn recorded_texts_are_added_at_the_end() {
    let mut expansion = SkillDynamicContextExpansion::new();
    expansion.record(injection("a", "1"), None);
    expansion.record(
        injection("b", "2"),
        Some(SkillContentsExpansion {
            contents: "3".to_string(),
            warnings: vec!["w".to_string()],
        }),
    );
    assert_eq!(
        expansion.items,
        vec![injection("a", "1"), injection("b", "3")]
    );
    assert_eq!(expansion.warnings, vec!["w"]);
}
