use kitchn::markup::{parse_structure, strip_tags};
use kitchn::processor::{expand_target, hook_report, split_lines, ApplyError, HookNotices};
use kitchn::config::DictionaryConfig;
use kitchn::dict::Dict;

#[test]
fn structure_parts() {
    assert_eq!(
        parse_structure("{tag} {scope}: {msg}!"),
        vec!["{tag}", " ", "{scope}", ": ", "{msg}", "!"]
    );
    assert_eq!(parse_structure("{icon}{msg}"), vec!["{icon}", "{msg}"]);
    assert_eq!(parse_structure("{nope}"), vec!["{nope}"]);
    assert!(parse_structure("").is_empty());
}

#[test]
fn tags_are_stripped() {
    assert_eq!(strip_tags("<bold>hi</bold> there"), "hi there");
    assert_eq!(strip_tags("a < b"), "a < b");
    assert_eq!(strip_tags("x <y> z <w"), "x  z <w");
    assert_eq!(strip_tags(""), "");
}

#[test]
fn lines_split() {
    assert_eq!(split_lines("a\nb\r\nc"), vec!["a", "b", "c"]);
    assert_eq!(split_lines("a\n"), vec!["a"]);
    assert_eq!(split_lines("\n\nx"), vec!["", "", "x"]);
    assert!(split_lines("").is_empty());
}

#[test]
fn home_expansion() {
    assert_eq!(expand_target("~/.config/x", Some("/home/u")).unwrap(), "/home/u/.config/x");
    assert_eq!(expand_target("/etc/~x", None).unwrap(), "/etc/~x");
    assert_eq!(
        expand_target("~/x", None).unwrap_err(),
        ApplyError::NoHome("~/x".to_string())
    );
}

#[test]
fn hook_notices_and_report() {
    let dict = DictionaryConfig { presets: Dict::new(), includes: None };
    let n = HookNotices::from_dictionary(&dict);
    assert_eq!(n.run.msg, "running hooks");
    assert_eq!(n.fail.level, "error");
    let (notes, ok) = hook_report(&n, "out1\nout2\n", "err\n", false);
    assert!(!ok);
    let msgs: Vec<(String, String)> = notes.iter().map(|x| (x.level.clone(), x.msg.clone())).collect();
    assert_eq!(
        msgs,
        vec![
            ("info".to_string(), "out1".to_string()),
            ("info".to_string(), "out2".to_string()),
            ("error".to_string(), "err".to_string()),
            ("error".to_string(), "hooks failed".to_string()),
        ]
    );
    let (notes, ok) = hook_report(&n, "", "", true);
    assert!(ok);
    assert_eq!(notes.len(), 1);
    assert_eq!(notes[0].msg, "hooks executed");
}

#[test]
fn test_processor_apply_hook_success() {
    let dict = DictionaryConfig { presets: Dict::new(), includes: None };
    let notices = HookNotices::from_dictionary(&dict);
    // the hook `true` exits with status zero and prints nothing
    let (report, ok) = hook_report(&notices, "", "", true);
    assert!(ok, "Hook should succeed");
    assert_eq!(report.last().unwrap().level, "success");
}

#[test]
fn test_processor_apply_hook_failure() {
    let dict = DictionaryConfig { presets: Dict::new(), includes: None };
    let notices = HookNotices::from_dictionary(&dict);
    // the hook `false` exits with a non-zero status and prints nothing
    let (report, ok) = hook_report(&notices, "", "", false);
    assert!(!ok, "Hook should fail");
    assert_eq!(report.len(), 1);
    assert_eq!(report[0].msg, "hooks failed");
}

#[test]
fn markup_spans() {
    use_spans(
        "simmering <primary>theme</primary> now",
        &[("simmering ", None), ("theme", Some("primary")), (" now", None)],
    );
    use_spans("a <b> c", &[("a ", None), ("<", None), ("b> c", None)]);
    use_spans("<bold>x</bold><i>y</i>", &[("x", Some("bold")), ("y", Some("i"))]);
    use_spans("x > y", &[("x > y", None)]);
    assert!(kitchn::markup::parse_markup("").is_empty());
}

fn use_spans(msg: &str, expected: &[(&str, Option<&str>)]) {
    let got: Vec<(String, Option<String>)> = kitchn::markup::parse_markup(msg)
        .into_iter()
        .map(|s| (s.text, s.style))
        .collect();
    let want: Vec<(String, Option<String>)> = expected
        .iter()
        .map(|(t, s)| (t.to_string(), s.map(|x| x.to_string())))
        .collect();
    assert_eq!(got, want);
}
