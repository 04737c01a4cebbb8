use skill_dynamic_context::output::{
    command_run_output_from_exec, CommandRunOutput, ExecToolCallOutput, StreamOutput,
};
use skill_dynamic_context::text::{
    append_decimal, append_signed_decimal, char_is_white_space, take_chars,
    take_chars_with_truncation, text_is_blank,
};

fn stream(text: &str, truncated_after_lines: Option<u32>) -> StreamOutput {
    StreamOutput {
        text: text.to_string(),
        truncated_after_lines,
    }
}

#[test]
fn first_characters_are_taken() {
    assert_eq!(take_chars("h\u{e9}llo", 2), "h\u{e9}");
    assert_eq!(take_chars("ab", 5), "ab");
    assert_eq!(take_chars("ab", 0), "");
    assert_eq!(
        take_chars_with_truncation("abc", 3),
        ("abc".to_string(), false)
    );
    assert_eq!(
        take_chars_with_truncation("abcd", 3),
        ("abc".to_string(), true)
    );
    assert_eq!(take_chars_with_truncation("", 0), (String::new(), false));
}

#[test]
fn output_within_the_limit_is_kept_whole() {
    let output = ExecToolCallOutput {
        exit_code: 3,
        stdout: stream("out", None),
        stderr: stream("err", None),
        aggregated_output: stream("outerr", None),
        timed_out: true,
    };
    assert_eq!(
        command_run_output_from_exec(&output, 3),
        CommandRunOutput {
            exit_code: Some(3),
            stdout: "out".to_string(),
            stderr: "err".to_string(),
            truncated: false,
            timed_out: true,
            failure: None,
            hook_feedback: None,
        }
    );
}

#[test]
fn output_beyond_the_limit_is_cut_and_marked() {
    let output = ExecToolCallOutput {
        exit_code: 0,
        stdout: stream("o\u{20ac}ut", None),
        stderr: stream("e", None),
        aggregated_output: stream("", None),
        timed_out: false,
    };
    let kept = command_run_output_from_exec(&output, 2);
    assert_eq!(kept.stdout, "o\u{20ac}");
    assert_eq!(kept.stderr, "e");
    assert!(kept.truncated);
    let kept = command_run_output_from_exec(
        &ExecToolCallOutput {
            stderr: stream("long", None),
            stdout: stream("", None),
            ..output
        },
        2,
    );
    assert_eq!(kept.stderr, "lo");
    assert!(kept.truncated);
}

#[test]
fn output_that_the_shell_cut_is_marked() {
    for cut in 0..3 {
        let lines = |i: usize| if i == cut { Some(7) } else { None };
        let output = ExecToolCallOutput {
            exit_code: 0,
            stdout: stream("a", lines(0)),
            stderr: stream("b", lines(1)),
            aggregated_output: stream("ab", lines(2)),
            timed_out: false,
        };
        assert!(command_run_output_from_exec(&output, 100).truncated);
    }
}

#[test]
fn white_space_is_that_of_unicode() {
    for code in 0..=0x10ffffu32 {
        if let Some(c) = char::from_u32(code) {
            assert_eq!(char_is_white_space(c), c.is_whitespace(), "{code:x}");
        }
    }
}

#[test]
fn blank_texts_trim_to_nothing() {
    for text in ["", " ", "\t\n \u{3000}", " a ", "a", "\u{200b}", "\u{a0}x"] {
        assert_eq!(text_is_blank(text), text.trim().is_empty(), "{text:?}");
    }
}

#[test]
fn numerals_are_decimal() {
    for n in [0u64, 7, 10, 99, 100, 1234567890, u64::MAX] {
        let mut s = String::from("n=");
        append_decimal(&mut s, n);
        assert_eq!(s, format!("n={n}"));
    }
    for n in [0i32, 9, -1, -10, i32::MAX, i32::MIN] {
        let mut s = String::new();
        append_signed_decimal(&mut s, n);
        assert_eq!(s, n.to_string());
    }
}
