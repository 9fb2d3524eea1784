use kitchn::config::ConfigError;
use kitchn::document::{deep_merge, get, include_paths, layer, merged, Document};
use kitchn::parse::parse_document;

fn doc(text: &str) -> Document {
    parse_document(text, "test.toml").unwrap()
}

fn text_at<'a>(d: &'a Document, path: &[&str]) -> Option<&'a Document> {
    let mut cur = d;
    for k in path {
        cur = get(cur, k)?;
    }
    Some(cur)
}

fn as_str(d: Option<&Document>) -> Option<String> {
    match d {
        Some(Document::Str(s)) => Some(s.clone()),
        _ => None,
    }
}

fn as_int(d: Option<&Document>) -> Option<i64> {
    match d {
        Some(Document::Int(i)) => Some(*i),
        _ => None,
    }
}

const SAMPLE: &str = "include = [\"base.toml\"]\nname = \"x\"\n[colors]\nfg = \"#ffffff\"\nbg = \"#000000\"\n[nested.deep]\nlist = [1, 2]\nratio = 0.5\n";

#[test]
fn merge_with_itself_is_identity() {
    let a = doc(SAMPLE);
    let m = merged(doc(SAMPLE), doc(SAMPLE));
    assert_eq!(format!("{:?}", m), format!("{:?}", a));
}

#[test]
fn own_content_wins_over_include() {
    let base = doc("name = \"base\"\nkeep = 1\n[colors]\nfg = \"#111111\"\nonly_base = \"#222222\"\n");
    let own = doc("name = \"own\"\n[colors]\nfg = \"#333333\"\n");
    let r = layer(vec![base], own);
    assert_eq!(as_str(text_at(&r, &["name"])), Some("own".to_string()));
    assert_eq!(as_int(text_at(&r, &["keep"])), Some(1));
    assert_eq!(as_str(text_at(&r, &["colors", "fg"])), Some("#333333".to_string()));
    assert_eq!(as_str(text_at(&r, &["colors", "only_base"])), Some("#222222".to_string()));
}

#[test]
fn later_include_wins_and_sequences_are_replaced() {
    let a = doc("v = 1\nlist = [1, 2, 3]\n[t]\na = 1\n");
    let b = doc("v = 2\nlist = [9]\n[t]\nb = 2\n");
    let own = doc("other = true\n");
    let r = layer(vec![a, b], own);
    assert_eq!(as_int(text_at(&r, &["v"])), Some(2));
    match text_at(&r, &["list"]) {
        Some(Document::Array(xs)) => assert_eq!(xs.len(), 1),
        other => panic!("unexpected {:?}", other),
    }
    assert_eq!(as_int(text_at(&r, &["t", "a"])), Some(1));
    assert_eq!(as_int(text_at(&r, &["t", "b"])), Some(2));
}

#[test]
fn scalar_replaces_table_and_table_replaces_scalar() {
    let mut t = doc("a = 1\n[b]\nc = 2\n");
    deep_merge(&mut t, doc("b = \"flat\"\n"));
    assert_eq!(as_str(text_at(&t, &["b"])), Some("flat".to_string()));
    deep_merge(&mut t, doc("[a]\nz = 0\n"));
    assert_eq!(as_int(text_at(&t, &["a", "z"])), Some(0));
}

#[test]
fn no_includes_gives_own_content() {
    let r = layer(vec![], doc("k = \"v\"\n"));
    assert_eq!(as_str(text_at(&r, &["k"])), Some("v".to_string()));
}

#[test]
fn include_list_keeps_strings_in_order() {
    let d = doc("include = [\"a.toml\", 3, \"b.toml\"]\n");
    assert_eq!(include_paths(&d), vec!["a.toml".to_string(), "b.toml".to_string()]);
    assert!(include_paths(&doc("x = 1\n")).is_empty());
    assert!(include_paths(&doc("include = \"a.toml\"\n")).is_empty());
}

#[test]
fn parse_errors_name_the_path() {
    match parse_document("a = [", "broken.toml") {
        Err(ConfigError::Toml(path, _)) => assert_eq!(path, "broken.toml"),
        other => panic!("unexpected {:?}", other),
    }
}
