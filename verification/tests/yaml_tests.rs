use espanso_gui::espanso_yaml::{parse, serialize, MatchDocument, MatchPair};
use espanso_gui::EditError;

fn doc(pairs: &[(&str, &str)]) -> MatchDocument {
    let mut d = MatchDocument::new();
    for (t, r) in pairs {
        d.matches.push(MatchPair { trigger: t.to_string(), replace: r.to_string() });
    }
    d
}

fn assert_doc_eq(d: &MatchDocument, pairs: &[(&str, &str)]) {
    assert_eq!(d.matches.len(), pairs.len());
    for (i, (t, r)) in pairs.iter().enumerate() {
        assert_eq!(d.matches[i].trigger, *t);
        assert_eq!(d.matches[i].replace, *r);
    }
}

#[test]
fn serialize_empty_document() {
    let d = MatchDocument::new();
    assert_eq!(serialize(&d), "matches: []\n");
}

#[test]
fn serialize_two_pairs() {
    let d = doc(&[("hello", "world"), ("", "")]);
    assert_eq!(
        serialize(&d),
        "matches:\n- trigger: \"hello\"\n  replace: \"world\"\n- trigger: \"\"\n  replace: \"\"\n"
    );
}

#[test]
fn parse_empty_document() {
    let d = parse("matches: []\n").unwrap();
    assert_eq!(d.matches.len(), 0);
}

#[test]
fn parse_header_only_is_empty() {
    let d = parse("matches:\n").unwrap();
    assert_eq!(d.matches.len(), 0);
}

#[test]
fn round_trip_simple() {
    let d = doc(&[(":sig", "Best regards"), ("x", "y")]);
    let text = serialize(&d);
    let back = parse(&text).unwrap();
    assert_doc_eq(&back, &[(":sig", "Best regards"), ("x", "y")]);
}

#[test]
fn round_trip_escaped_values() {
    let pairs: &[(&str, &str)] = &[
        ("quote\"inside", "back\\slash"),
        ("multi\nline", "tab\there"),
        ("carriage\rreturn", "colon: and dash - "),
    ];
    let d = doc(pairs);
    let back = parse(&serialize(&d)).unwrap();
    assert_doc_eq(&back, pairs);
}

#[test]
fn round_trip_unicode_values() {
    let pairs: &[(&str, &str)] = &[(":ome", "\u{3a9}mega"), ("caf\u{e9}", "na\u{ef}ve")];
    let d = doc(pairs);
    let back = parse(&serialize(&d)).unwrap();
    assert_doc_eq(&back, pairs);
}

#[test]
fn serialize_after_parse_is_idempotent() {
    let text = "matches:\n- trigger: \"a\"\n  replace: \"b\"\n  note: whatever\n";
    let first = parse(text).unwrap();
    let emitted = serialize(&first);
    let second = parse(&emitted).unwrap();
    assert_doc_eq(&second, &[("a", "b")]);
    assert_eq!(serialize(&second), emitted);
}

#[test]
fn parse_ignores_unknown_pair_keys() {
    let text = "matches:\n- trigger: \"a\"\n  priority: 3\n  replace: \"b\"\n";
    let d = parse(text).unwrap();
    assert_doc_eq(&d, &[("a", "b")]);
}

#[test]
fn parse_defaults_missing_fields_to_empty() {
    let text = "matches:\n- trigger: \"only\"\n- replace: \"other\"\n";
    let d = parse(text).unwrap();
    assert_doc_eq(&d, &[("only", ""), ("", "other")]);
}

#[test]
fn parse_last_duplicate_key_wins() {
    let text = "matches:\n- trigger: \"first\"\n  trigger: \"second\"\n";
    let d = parse(text).unwrap();
    assert_doc_eq(&d, &[("second", "")]);
}

#[test]
fn parse_rejects_bad_header() {
    assert_eq!(parse("match:\n").unwrap_err(), EditError::Format);
    assert_eq!(parse("").unwrap_err(), EditError::Format);
    assert_eq!(parse("matches: [] extra\n").unwrap_err(), EditError::Format);
    assert_eq!(parse("matches: []\nleftover\n").unwrap_err(), EditError::Format);
}

#[test]
fn parse_accepts_missing_final_newline() {
    assert_eq!(parse("matches: []").unwrap().matches.len(), 0);
    let d = parse("matches:\n- trigger: \"a\"\n  replace: \"b\"").unwrap();
    assert_doc_eq(&d, &[("a", "b")]);
}

#[test]
fn parse_accepts_plain_scalars() {
    let text = "matches:\n- trigger: bare\n  replace: two words\n";
    let d = parse(text).unwrap();
    assert_doc_eq(&d, &[("bare", "two words")]);
}

#[test]
fn parse_accepts_indented_items() {
    // The displayed shape: items indented under the mapping key.
    let text = "matches:\n  - trigger: \"a\"\n    replace: \"b\"\n  - trigger: c\n    replace: d\n";
    let d = parse(text).unwrap();
    assert_doc_eq(&d, &[("a", "b"), ("c", "d")]);
}

#[test]
fn parse_skips_blank_lines() {
    let text = "matches:\n\n- trigger: \"a\"\n\n  replace: \"b\"\n\n";
    let d = parse(text).unwrap();
    assert_doc_eq(&d, &[("a", "b")]);
    assert_eq!(parse("matches: []\n\n").unwrap().matches.len(), 0);
}

#[test]
fn parse_empty_value_after_colon() {
    let text = "matches:\n- trigger:\n  replace: \"b\"\n";
    let d = parse(text).unwrap();
    assert_doc_eq(&d, &[("", "b")]);
}

#[test]
fn parse_plain_scalar_may_contain_colon() {
    let text = "matches:\n- trigger: a: b\n";
    let d = parse(text).unwrap();
    assert_doc_eq(&d, &[("a: b", "")]);
}

#[test]
fn parse_rejects_dangling_escape() {
    let text = "matches:\n- trigger: \"a\\\"\n";
    assert_eq!(parse(text).unwrap_err(), EditError::Format);
}

#[test]
fn parse_rejects_unknown_escape_code() {
    let text = "matches:\n- trigger: \"a\\qb\"\n";
    assert_eq!(parse(text).unwrap_err(), EditError::Format);
}

#[test]
fn parse_rejects_line_without_separator() {
    let text = "matches:\n- trigger \"a\"\n";
    assert_eq!(parse(text).unwrap_err(), EditError::Format);
}

#[test]
fn parse_rejects_item_before_dash() {
    let text = "matches:\n  replace: \"b\"\n";
    assert_eq!(parse(text).unwrap_err(), EditError::Format);
}

#[test]
fn document_equality_is_structural() {
    let a = doc(&[("t", "r")]);
    let b = doc(&[("t", "r")]);
    let c = doc(&[("t", "other")]);
    assert!(a.eq_doc(&b));
    assert!(!a.eq_doc(&c));
    assert!(a.eq_doc(&a.duplicate()));
}
