use vimwiki_markdown::{VimWikiCmdlineArgs, VimWikiOptions};

fn init_options() -> VimWikiOptions {
    let args = vec![
        "vimwiki-markdown-rs",
        "1",
        "markdown",
        "wiki",
        "/abs/path/to/vimwiki/site_html/bar/",
        "/abs/path/to/vimwiki/bar/mdfile.wiki",
        "css-file.css",
        "/abs/path/to/vimwiki/templates/",
        "template",
        ".tpl",
        "../",
        "-",
    ];
    let args: Vec<String> = args.iter().map(|s| s.to_string()).collect();
    VimWikiOptions::new(&args).unwrap()
}

fn init_cmdline_args() -> VimWikiCmdlineArgs {
    let args = vec![
        "vimwiki-markdown-rs",
        "1",
        "markdown",
        "wiki",
        "/abs/path/to/vimwiki/site_html/bar/",
        "/abs/path/to/vimwiki/bar/mdfile.wiki",
        "css-file.css",
        "/abs/path/to/vimwiki/templates/",
        "template",
        ".tpl",
        "../",
        "-",
    ];
    let args: Vec<String> = args.iter().map(|s| s.to_string()).collect();
    VimWikiCmdlineArgs::new(&args).unwrap()
}

#[test]
fn lib_options_correct() {
    init_options();
}

#[test]
#[should_panic(expected = "arguments from VimWiki do not match")]
fn lib_options_wrong_length() {
    let args = vec![""; 11];
    let args: Vec<String> = args.iter().map(|s| s.to_string()).collect();

    VimWikiOptions::new(&args).unwrap();
}

#[test]
#[should_panic(expected = "syntax has to be markdown")]
fn lib_options_not_markdown() {
    let args = vec![
        "vimwiki-markdown-rs",
        "1",
        "vimwiki", // has to be markdown
        "wiki",
        "/abs/path/to/vimwiki/site_html/bar/",
        "/abs/path/to/vimwiki/bar/mdfile.wiki",
        "css-file.css",
        "/abs/path/to/vimwiki/templates/",
        "template",
        ".tpl",
        "../",
        "-",
    ];
    let args: Vec<String> = args.iter().map(|s| s.to_string()).collect();

    VimWikiOptions::new(&args).unwrap();
}

#[test]
fn main_options_correct() {
    init_cmdline_args();
}

#[test]
#[should_panic(expected = "arguments from VimWiki do not match")]
fn main_options_wrong_length() {
    let args = vec![""; 11];
    let args: Vec<String> = args.iter().map(|s| s.to_string()).collect();

    VimWikiCmdlineArgs::new(&args).unwrap();
}

#[test]
#[should_panic(expected = "syntax has to be markdown")]
fn main_options_not_markdown() {
    let args = vec![
        "vimwiki-markdown-rs",
        "1",
        "vimwiki", // has to be markdown
        "wiki",
        "/abs/path/to/vimwiki/site_html/bar/",
        "/abs/path/to/vimwiki/bar/mdfile.wiki",
        "css-file.css",
        "/abs/path/to/vimwiki/templates/",
        "template",
        ".tpl",
        "../",
        "-",
    ];
    let args: Vec<String> = args.iter().map(|s| s.to_string()).collect();

    VimWikiCmdlineArgs::new(&args).unwrap();
}

#[test]
fn options_error_names_count() {
    let args = vec![""; 11];
    let args: Vec<String> = args.iter().map(|s| s.to_string()).collect();
    let err = VimWikiOptions::new(&args).unwrap_err();
    assert_eq!(
        "The amount of arguments from VimWiki do not match. You provided 11, but 12 are necessary",
        err
    );
}

#[test]
fn options_fields_carry_over() {
    let o = init_options();
    assert!(o.force);
    assert_eq!("markdown", o.syntax);
    assert_eq!("wiki", o.extension);
    assert_eq!("/abs/path/to/vimwiki/site_html/bar/", o.output_dir);
    assert_eq!("/abs/path/to/vimwiki/bar/mdfile.wiki", o.input_file);
    assert_eq!("css-file.css", o.css_file);
    assert_eq!("/abs/path/to/vimwiki/templates/template.tpl", o.template_file);
    assert_eq!("../", o.root_path);
}

#[test]
fn options_root_path_dash_default() {
    let args = vec![
        "vimwiki-markdown-rs",
        "0",
        "markdown",
        "wiki",
        "/out/",
        "/in/file.wiki",
        "css-file.css",
        "/tpl/",
        "template",
        ".tpl",
        "-",
        "-",
    ];
    let args: Vec<String> = args.iter().map(|s| s.to_string()).collect();
    let o = VimWikiOptions::new(&args).unwrap();
    assert_eq!("./", o.root_path);
    assert!(!o.force);
}

#[test]
fn options_output_filepath() {
    let o = init_options();
    assert_eq!(
        "/abs/path/to/vimwiki/site_html/bar/mdfile.html",
        o.output_filepath()
    );
    assert_eq!("mdfile", o.stem());
}
