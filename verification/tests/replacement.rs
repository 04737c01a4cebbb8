use skill_dynamic_context::dynamic_context::collect_inline_command_placeholders;
use skill_dynamic_context::replacement::apply_replacements;

#[test]
fn replacement_preserves_non_placeholder_text() {
    let contents = "before !`cmd` after";
    let placeholder = collect_inline_command_placeholders(contents)
        .into_iter()
        .next()
        .expect("placeholder");

    assert_eq!(
        apply_replacements(
            contents,
            &[(placeholder.start, placeholder.end, "OUT".into())]
        ),
        "before OUT after"
    );
}

#[test]
fn no_replacement_leaves_the_text() {
    assert_eq!(apply_replacements("as \u{e9} is", &[]), "as \u{e9} is");
    assert_eq!(apply_replacements("", &[]), "");
}

#[test]
fn several_replacements_are_made_in_order() {
    assert_eq!(
        apply_replacements(
            "0123456789",
            &[
                (0, 2, "a".to_string()),
                (2, 2, "b".to_string()),
                (5, 10, String::new()),
            ]
        ),
        "ab234"
    );
}

#[test]
fn multibyte_text_is_kept_around_a_replacement() {
    let contents = "\u{e9}!`x`\u{20ac}";
    assert_eq!(
        apply_replacements(contents, &[(2, 6, "\u{1f600}".to_string())]),
        "\u{e9}\u{1f600}\u{20ac}"
    );
}

#[test]
fn replacing_by_the_same_text_changes_nothing() {
    let contents = "a !`b` c !`d`";
    let replacements: Vec<(usize, usize, String)> = collect_inline_command_placeholders(contents)
        .into_iter()
        .map(|p| (p.start, p.end, contents[p.start..p.end].to_string()))
        .collect();
    assert_eq!(replacements.len(), 2);
    assert_eq!(apply_replacements(contents, &replacements), contents);
}

#[test]
fn end_before_start_takes_up_the_text_again() {
    assert_eq!(
        apply_replacements("abcdef", &[(4, 2, "-".to_string())]),
        "abcd-cdef"
    );
}
