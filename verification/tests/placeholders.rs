use skill_dynamic_context::dynamic_context::{
    collect_inline_command_placeholders, InlineCommandPlaceholder,
};

fn commands(text: &str) -> Vec<String> {
    collect_inline_command_placeholders(text)
        .into_iter()
        .map(|placeholder| placeholder.command)
        .collect()
}

#[test]
fn collects_inline_command_placeholders() {
    let placeholders = collect_inline_command_placeholders(
        "- Diff: !`gh pr diff`\n- Files: !`gh pr diff --name-only`",
    );

    assert_eq!(
        placeholders
            .into_iter()
            .map(|placeholder| placeholder.command)
            .collect::<Vec<_>>(),
        vec!["gh pr diff", "gh pr diff --name-only"]
    );
}

#[test]
fn ignores_multiline_placeholders() {
    let placeholders = collect_inline_command_placeholders("before !`unterminated\nafter`");

    assert!(placeholders.is_empty());
}

#[test]
fn offsets_are_those_of_the_whole_placeholder_in_bytes() {
    assert_eq!(
        collect_inline_command_placeholders("\u{e9} !`a\u{20ac}` x !`b`"),
        vec![
            InlineCommandPlaceholder {
                start: 3,
                end: 10,
                command: "a\u{20ac}".to_string(),
            },
            InlineCommandPlaceholder {
                start: 13,
                end: 17,
                command: "b".to_string(),
            },
        ]
    );
}

#[test]
fn text_without_placeholders_has_none() {
    assert!(commands("").is_empty());
    assert!(commands("!").is_empty());
    assert!(commands("`code` and ! alone").is_empty());
    assert!(commands("! `spaced`").is_empty());
}

#[test]
fn empty_command_is_left_out() {
    assert!(commands("!``").is_empty());
    assert_eq!(commands("!``!`x`"), vec!["x"]);
    assert_eq!(commands("!` `"), vec![" "]);
}

#[test]
fn unterminated_placeholder_loses_its_own_line_only() {
    assert_eq!(commands("!`open\n!`ok`"), vec!["ok"]);
    assert_eq!(commands("!`open\r!`ok`"), vec!["ok"]);
    assert!(commands("!`open").is_empty());
    assert!(commands("a !`").is_empty());
}

#[test]
fn line_break_parts_a_text() {
    let before = "x !`a` !`open";
    let after = "y !`b`";
    let mut expected = collect_inline_command_placeholders(before);
    for placeholder in collect_inline_command_placeholders(after) {
        expected.push(InlineCommandPlaceholder {
            start: placeholder.start + before.len() + 1,
            end: placeholder.end + before.len() + 1,
            command: placeholder.command,
        });
    }
    assert_eq!(
        collect_inline_command_placeholders(&format!("{before}\n{after}")),
        expected
    );
    assert_eq!(expected.len(), 2);
}

#[test]
fn opening_inside_a_placeholder_opens_none() {
    assert_eq!(commands("!`!`x`"), vec!["!"]);
    assert_eq!(commands("!!`x`"), vec!["x"]);
    assert_eq!(commands("!`a`!`b`"), vec!["a", "b"]);
}

#[test]
fn placeholder_stands_in_the_text_as_it_is_found() {
    let text = "\u{4e16} !`git log` \u{754c} !`ls -l`";
    let placeholders = collect_inline_command_placeholders(text);
    assert_eq!(placeholders.len(), 2);
    for placeholder in &placeholders {
        assert_eq!(
            &text[placeholder.start..placeholder.end],
            format!("!`{}`", placeholder.command)
        );
    }
    assert!(placeholders[0].end <= placeholders[1].start);
}
