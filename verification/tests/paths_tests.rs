use vimwiki_markdown::{clean_path, handle_fragment, handle_spaces, relative_path};

#[test]
fn spaces_are_percent_encoded() {
    assert_eq!("a%20b%20c", handle_spaces("a b c"));
    assert_eq!("none", handle_spaces("none"));
    assert_eq!("", handle_spaces(""));
}

#[test]
fn spaces_encoding_is_idempotent() {
    let once = handle_spaces("foo with spaces.png");
    assert_eq!(once, handle_spaces(&once));
}

#[test]
fn clean_collapses_dots() {
    assert_eq!("/a/c", clean_path("/a/b/../c"));
    assert_eq!("a/b", clean_path("a/./b"));
    assert_eq!("a/b", clean_path("a//b"));
    assert_eq!("../a", clean_path("../a"));
    assert_eq!("/", clean_path("/.."));
    assert_eq!(".", clean_path(""));
    assert_eq!(".", clean_path("a/.."));
}

#[test]
fn clean_is_idempotent_on_examples() {
    for p in ["/a/b/../c", "a/./b", "../../x", "/", ".", "a/b/c/"] {
        let once = clean_path(p);
        assert_eq!(once, clean_path(&once));
    }
}

#[test]
fn clean_matches_reference_cleaner() {
    for p in ["/a/b/../c", "a/./b", "a//b", "../a", "/..", "", "a/..", "./x"] {
        let mine = clean_path(p);
        let theirs = path_clean::clean(p);
        assert_eq!(theirs.to_str().unwrap(), mine);
    }
}

#[test]
fn relative_path_walks_lexically() {
    assert_eq!(
        "../Document/foo.xyz",
        relative_path("/abs/path/to/Document/foo.xyz", "/abs/path/to/whatever")
    );
    assert_eq!("", relative_path("/a/b", "/a/b"));
}

#[test]
fn relative_path_matches_reference_differ() {
    let pairs = [
        ("/abs/path/to/Document/foo.xyz", "/abs/path/to/whatever"),
        ("/a/b/bar/../foo.png", "/a/b/site/bar"),
        ("/x/y", "/x/y/z"),
    ];
    for (p, b) in pairs {
        let mine = relative_path(p, b);
        let theirs = pathdiff::diff_paths(p, b).unwrap();
        assert_eq!(theirs.to_str().unwrap(), mine);
    }
}

#[test]
fn fragment_split_needs_exactly_one_hash() {
    let (p, f) = handle_fragment("page#sec");
    assert_eq!("page", p);
    assert_eq!(Some("sec".to_string()), f);
    let (p2, f2) = handle_fragment("page");
    assert_eq!("page", p2);
    assert_eq!(None, f2);
    let (p3, f3) = handle_fragment("a#b#c");
    assert_eq!("a#b#c", p3);
    assert_eq!(None, f3);
}
