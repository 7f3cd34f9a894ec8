use add_pr_comment::pipeline::{
    contains_pipeline_command, neutralize_pipeline_commands, sanitize, sanitize_config,
};
use add_pr_comment::text::{chars_of, eq_ignore_ascii_case, push_decimal, str_eq, strip_controls};

#[test]
fn commands_are_found() {
    assert!(contains_pipeline_command("##vso[task.complete]"));
    assert!(contains_pipeline_command("a ###vso["));
    assert!(!contains_pipeline_command("##vs"));
    assert!(!contains_pipeline_command("# #vso[ vso["));
    assert!(!contains_pipeline_command(""));
}

#[test]
fn commands_are_quoted() {
    assert_eq!(neutralize_pipeline_commands("##vso[a]##vso[b]"), "`##vso[`a]`##vso[`b]");
    assert_eq!(neutralize_pipeline_commands("###vso[x"), "#`##vso[`x");
    assert_eq!(neutralize_pipeline_commands("plain ##vso text"), "plain ##vso text");
}

#[test]
fn commands_do_not_hide_behind_controls() {
    assert_eq!(sanitize_config("##\u{1}vso[x]\n"), "`##vso[`x]");
    assert_eq!(sanitize("##\u{7f}vso[x]\r\n\t"), "`##vso[`x]\r\n\t");
}

#[test]
fn clean_text_is_kept() {
    let text = "a <b> & \"c\" \u{e9}\n    indented\n";
    assert_eq!(sanitize(text), text);
    assert_eq!(sanitize_config("my-repo"), "my-repo");
}

#[test]
fn controls_are_those_of_the_standard_library() {
    for code in 0..0x300u32 {
        if let Some(c) = char::from_u32(code) {
            let text = c.to_string();
            let expected = if c.is_control() { "" } else { text.as_str() };
            assert_eq!(strip_controls(&text), expected);
        }
    }
}

#[test]
fn decimals_agree_with_the_standard_library() {
    for n in [0, 9, 10, -1, 123456789, i64::MAX, i64::MIN] {
        let mut out = "#".to_string();
        push_decimal(&mut out, n);
        assert_eq!(out, format!("#{}", n));
    }
}

#[test]
fn strings_are_told_apart() {
    assert_eq!(chars_of("a\u{e9}\u{1f600}"), vec!['a', '\u{e9}', '\u{1f600}']);
    assert!(str_eq("caf\u{e9}", "caf\u{e9}"));
    assert!(!str_eq("a", "ab"));
    assert!(!str_eq("ab", "aB"));
    assert!(eq_ignore_ascii_case("aZ-[", "Az-["));
    assert!(!eq_ignore_ascii_case("[", "{"));
    assert!(!eq_ignore_ascii_case("@", "`"));
}
