use vimwiki_markdown::{apply_commands, collect_directives, strip_directives, WikiError};

#[test]
fn directive_sets_parent_style() {
    let html = "<p>text '{parent style color:red}' more</p>";
    let out = apply_commands(html).unwrap();
    assert!(out.contains("style=\"color:red\""));
    assert!(!out.contains("'{parent"));
}

#[test]
fn directive_abbreviations_accepted() {
    let html = "<p>'{p s color:blue}'</p>";
    let out = apply_commands(html).unwrap();
    assert!(out.contains("style=\"color:blue\""));
}

#[test]
fn directive_marker_stripped_even_without_parent_change() {
    let html = "<p>a '{paren sty text-align:center}' b</p>";
    let out = apply_commands(html).unwrap();
    assert!(!out.contains("sty text-align"));
}

#[test]
fn directive_unknown_type_aborts() {
    let html = "<p>'{parent xyz data}'</p>";
    let err = apply_commands(html).unwrap_err();
    match err {
        WikiError::UnknownAttribute { ref token } => assert_eq!("xyz", token),
        _ => panic!("wrong error variant"),
    }
    assert_eq!("HTML attribute `xyz` unknown", err.message());
}

#[test]
fn directive_unknown_target_aborts() {
    let html = "<p>'{q style color:red}'</p>";
    let err = apply_commands(html).unwrap_err();
    match err {
        WikiError::UnknownTarget { ref token } => assert_eq!("q", token),
        _ => panic!("wrong error variant"),
    }
    assert_eq!("Element type `q` unknown", err.message());
}

#[test]
fn collect_directives_records_nodes() {
    let texts = vec![
        "plain".to_string(),
        "'{parent style color:red}'".to_string(),
    ];
    let dirs = collect_directives(&texts).unwrap();
    assert_eq!(1, dirs.len());
    assert_eq!(1, dirs[0].node);
    assert_eq!("style", dirs[0].attr);
    assert_eq!("color:red", dirs[0].value);
}

#[test]
fn collect_directives_first_marker_only() {
    let texts = vec!["'{p s one}' and '{p s two}'".to_string()];
    let dirs = collect_directives(&texts).unwrap();
    assert_eq!(1, dirs.len());
    assert_eq!("one", dirs[0].value);
}

#[test]
fn strip_directives_removes_all_markers() {
    let out = strip_directives("a'{p s x}'b'{parent style y}'c");
    assert_eq!("abc", out);
}

#[test]
fn strip_directives_keeps_plain_text() {
    assert_eq!("nothing here", strip_directives("nothing here"));
}

#[test]
fn apply_commands_is_deterministic() {
    // the DOM results are functions of the text and the records alone
    let html = "<p>a '{parent style color:red}' b</p><p>plain</p>";
    assert_eq!(apply_commands(html).unwrap(), apply_commands(html).unwrap());
}

#[test]
fn directive_unicode_whitespace_separates_tokens() {
    // any Unicode whitespace separates the marker's tokens
    let texts = vec!["'{parent\u{a0}style\u{a0}color:red}'".to_string()];
    let dirs = collect_directives(&texts).unwrap();
    assert_eq!(1, dirs.len());
    assert_eq!("color:red", dirs[0].value);
}
