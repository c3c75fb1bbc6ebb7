use vimwiki_markdown::{fix_link_classified, rewrite_links, VimWikiOptions, WikiError};

fn options() -> VimWikiOptions {
    let args = vec![
        "vimwiki-markdown-rs",
        "1",
        "markdown",
        "wiki",
        "/abs/path/to/vimwiki/site_html/bar/",
        "/abs/path/to/vimwiki/bar/mdfile.wiki",
        "css-file.css",
        "/abs/path/to/vimwiki/templates/",
        "template",
        ".tpl",
        "../",
        "-",
    ];
    let args: Vec<String> = args.iter().map(|s| s.to_string()).collect();
    VimWikiOptions::new(&args).unwrap()
}

#[test]
fn classified_wiki_page_round_trip() {
    let out = fix_link_classified("T", "page", "/a/b/bar/mdfile.wiki", "/a/b/site/bar/", true);
    assert_eq!("[T](page.html)", out);
}

#[test]
fn classified_wiki_page_with_fragment() {
    let out = fix_link_classified("T", "page#sec", "/a/b/bar/mdfile.wiki", "/a/b/site/bar/", true);
    assert_eq!("[T](page.html#sec)", out);
}

#[test]
fn classified_local_rebases_on_output_dir() {
    let out = fix_link_classified(
        "alt",
        "local:../foo.png",
        "/a/b/bar/mdfile.wiki",
        "/a/b/site/bar/",
        false,
    );
    assert_eq!("[alt](../../foo.png)", out);
}

#[test]
fn classified_file_forces_absolute() {
    let out = fix_link_classified(
        "alt",
        "file:../images/x.png",
        "/a/b/bar/mdfile.wiki",
        "/a/b/site/bar/",
        false,
    );
    assert_eq!("[alt](/a/b/images/x.png)", out);
}

#[test]
fn classified_plain_passes_through() {
    let out = fix_link_classified(
        "alt",
        "../foo.png",
        "/a/b/bar/mdfile.wiki",
        "/a/b/site/bar/",
        false,
    );
    assert_eq!("[alt](../foo.png)", out);
}

#[test]
fn rewrite_links_resolves_each_line() {
    let text = "see [x](local:../foo.png)\nand [y](file:z.png) too";
    let out = rewrite_links(
        text,
        "/a/b/bar/mdfile.wiki",
        "/a/b/site/bar/",
        "wiki",
    );
    assert_eq!("see [x](../../foo.png)\nand [y](/a/b/bar/z.png) too", out);
}

#[test]
fn rewrite_links_one_match_per_line() {
    // the link scanner is greedy within a line: the match runs from the
    // first bracket to the last closing parenthesis
    let text = "two on one line [a](b) [c](local:../d)";
    let out = rewrite_links(
        text,
        "/abs/path/to/vimwiki/bar/mdfile.wiki",
        "/abs/path/to/vimwiki/site_html/bar/",
        "wiki",
    );
    assert_eq!("two on one line [a](b) [c](../../d)", out);
}

#[test]
fn rewrite_links_keeps_plain_text() {
    let text = "no links at all";
    let out = rewrite_links(text, "/a/b/bar/f.wiki", "/a/b/site/", "wiki");
    assert_eq!(text, out);
}

#[test]
fn body_html_renders_markdown() {
    let out = options().get_body_html("# A Heading").unwrap();
    assert!(out.contains("<h1>"));
    assert!(out.contains("A Heading"));
}

#[test]
fn body_html_full_pipeline() {
    let text = "<'''c{color:red}'''># T\n\nbody '{parent style $c}' here";
    let out = options().get_body_html(text).unwrap();
    assert!(out.contains("style=\"color:red\""));
    assert!(!out.contains("'{parent"));
    assert!(!out.contains("<'''"));
}

#[test]
fn body_html_undefined_variable_fails() {
    let err = options().get_body_html("x '{$nope}' y").unwrap_err();
    match err {
        WikiError::UnresolvedVariable { ref name } => assert_eq!("nope", name),
        _ => panic!("wrong error variant"),
    }
}

#[test]
fn body_html_unknown_directive_fails() {
    let err = options().get_body_html("a '{parent xyz d}' b").unwrap_err();
    match err {
        WikiError::UnknownAttribute { ref token } => assert_eq!("xyz", token),
        _ => panic!("wrong error variant"),
    }
}

#[test]
fn classified_strips_one_leading_prefix() {
    // only the leading forcing prefix is stripped; a later occurrence is
    // part of the path
    let out = fix_link_classified(
        "a",
        "file:x/file:y",
        "/a/b/bar/mdfile.wiki",
        "/a/b/site/bar/",
        false,
    );
    assert_eq!("[a](/a/b/bar/x/file:y)", out);
}
