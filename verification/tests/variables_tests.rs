use vimwiki_markdown::{preprocess_variables, VarStore, WikiError};

#[test]
fn preprocess_no_block_is_identity() {
    let text = "# A plain document\n\nNothing to substitute here.\n";
    assert_eq!(text, preprocess_variables(text).unwrap());
}

#[test]
fn preprocess_substitutes_pairs() {
    let text = "<'''name{John}age{30}'''>Hello '{Mr $name}' you are '{$age}'!";
    assert_eq!(
        "Hello '{Mr John}' you are '{30}'!",
        preprocess_variables(text).unwrap()
    );
}

#[test]
fn preprocess_block_is_stripped() {
    let text = "before <'''color{red}'''> after";
    assert_eq!("before  after", preprocess_variables(text).unwrap());
}

#[test]
fn preprocess_later_key_overwrites() {
    let text = "<'''k{a}k{b}'''>'{$k}'";
    assert_eq!("'{b}'", preprocess_variables(text).unwrap());
}

#[test]
fn preprocess_keeps_text_after_token() {
    let text = "<'''style{color:red}'''>'{parent s $style and more}'";
    assert_eq!(
        "'{parent s color:red and more}'",
        preprocess_variables(text).unwrap()
    );
}

#[test]
fn preprocess_undefined_variable_is_fatal() {
    let text = "no block here but a reference: '{$missing}'";
    let err = preprocess_variables(text).unwrap_err();
    match err {
        WikiError::UnresolvedVariable { ref name } => assert_eq!("missing", name),
        _ => panic!("wrong error variant"),
    }
    assert_eq!("Cannot find variable `missing`", err.message());
}

#[test]
fn preprocess_multiline_block() {
    let text = "<'''a{1}\nb{2}'''>\n'{$a}' '{$b}'";
    assert_eq!("\n'{1}' '{2}'", preprocess_variables(text).unwrap());
}

#[test]
fn preprocess_value_not_reexpanded() {
    // substitution is single-pass: a value holding another reference is
    // spliced in verbatim
    let text = "<'''outer{$inner}inner{x}'''>'{$outer}'";
    assert_eq!("'{$inner}'", preprocess_variables(text).unwrap());
}

#[test]
fn preprocess_skips_bare_dollar() {
    // a dollar with no name after it is passed over; the next one counts
    let text = "<'''c{5}'''>price '{a $ b $c}' end";
    assert_eq!("price '{a $ b 5}' end", preprocess_variables(text).unwrap());
}

#[test]
fn preprocess_name_may_hold_brace() {
    // the name runs to the first `}` that a quote closes
    let text = "<'''x}y{v}'''>'{$x}y}'";
    assert_eq!("'{v}'", preprocess_variables(text).unwrap());
}

#[test]
fn preprocess_undefined_brace_name() {
    let err = preprocess_variables("'{$a}b}'").unwrap_err();
    match err {
        WikiError::UnresolvedVariable { ref name } => assert_eq!("a}b", name),
        _ => panic!("wrong error variant"),
    }
}

#[test]
fn preprocess_unicode_whitespace_ends_name() {
    // a no-break space ends the name like any other whitespace
    let text = "<'''k{v}'''>'{$k\u{a0}tail}'";
    assert_eq!("'{v\u{a0}tail}'", preprocess_variables(text).unwrap());
}

#[test]
fn var_store_parse_matches_preprocess() {
    let mut store = VarStore::new();
    let text = "<'''k{v}'''>say '{$k}'";
    assert_eq!("say '{v}'", store.parse(text).unwrap());
}
