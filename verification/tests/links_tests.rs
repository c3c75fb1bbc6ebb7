use regex::Regex;
use vimwiki_markdown::{fix_link, fix_link_vimwiki};

fn to_fix_link(link: &str) -> String {
    let input_file = "/abs/path/to/vimwiki/bar/mdfile.wiki";
    let output_dir = "/abs/path/to/vimwiki/site_html/bar/";
    let extension = "wiki";
    let re = Regex::new(r"\[(?P<title>.*)\]\((?P<uri>(.)*)\)").unwrap();
    let mut caps_it = re.captures_iter(link);
    let capture = caps_it.next();
    let (alt, uri) = match capture {
        Some(c) => (c["title"].to_string(), c["uri"].to_string()),
        None => ("".to_string(), "".to_string()),
    };
    fix_link(&alt, &uri, input_file, output_dir, extension)
}

fn to_fix_link_vimwiki(link: &str) -> String {
    let re = Regex::new(r"\[(?P<title>.*)\]\((?P<uri>(.)*)\)").unwrap();
    let mut caps_it = re.captures_iter(link);
    let capture = caps_it.next();
    let (alt, uri) = match capture {
        Some(c) => (c["title"].to_string(), c["uri"].to_string()),
        None => ("".to_string(), "".to_string()),
    };
    let uri = fix_link_vimwiki(&uri);
    format!("[{}]({})", alt, uri)
}

#[test]
fn fix_link_vimwiki_relative() {
    let link = "[Link Title](another_file)";
    assert_eq!("[Link Title](another_file.html)", to_fix_link_vimwiki(link));
}

#[test]
fn fix_link_vimwiki_relative_up() {
    let link = "[Link Title](../another_file)";
    assert_eq!(
        "[Link Title](../another_file.html)",
        to_fix_link_vimwiki(link)
    );
}

#[test]
fn fix_link_vimwiki_relative_with_ext() {
    let link = "[Link Title](another_file.wiki)";
    assert_eq!("[Link Title](another_file.html)", to_fix_link_vimwiki(link));
}

#[test]
fn fix_link_vimwiki_relative_fragment() {
    let link = "[Link Title](another_file#fragment)";
    assert_eq!(
        "[Link Title](another_file.html#fragment)",
        to_fix_link_vimwiki(link)
    );
}

#[test]
fn fix_link_relative() {
    // leave it unchanged as we force to use file: or local:
    let link = "[alt](../foo.png)";
    assert_eq!("[alt](../foo.png)", to_fix_link(link));
}

#[test]
fn fix_link_absolute() {
    let link = "[alt](/abs/path/to/vimwiki/images/foo.png)";
    assert_eq!(
        "[alt](/abs/path/to/vimwiki/images/foo.png)",
        to_fix_link(link)
    );
}

#[test]
fn fix_link_relative_local() {
    let link = "[alt](local:../foo.png)";
    assert_eq!("[alt](../../foo.png)", to_fix_link(link));
}

#[test]
fn fix_link_relative_local_title() {
    let link = "[alt](local:../foo.png \"Title\")";
    assert_eq!("[alt](../../foo.png \"Title\")", to_fix_link(link));
}

#[test]
fn fix_link_force_relative() {
    let link = "[alt](local:/abs/path/to/vimwiki/images/foo.png)";
    assert_eq!("[alt](../../images/foo.png)", to_fix_link(link));
}

#[test]
fn fix_link_force_relative_title() {
    let link = "[alt](local:/abs/path/to/vimwiki/images/foo.png \"Title\")";
    assert_eq!("[alt](../../images/foo.png \"Title\")", to_fix_link(link));
}

#[test]
fn fix_link_absolute_file() {
    let link = "[alt](file:/abs/path/to/vimwiki/images/foo.png)";
    assert_eq!(
        "[alt](/abs/path/to/vimwiki/images/foo.png)",
        to_fix_link(link)
    );
}

#[test]
fn fix_link_force_absolute() {
    let link = "[alt](file:../images/foo.png)";
    assert_eq!(
        "[alt](/abs/path/to/vimwiki/images/foo.png)",
        to_fix_link(link)
    );
}

#[test]
fn fix_link_spaces() {
    let link = "[alt](file:../images/foo with spaces.png)";
    assert_eq!(
        "[alt](/abs/path/to/vimwiki/images/foo%20with%20spaces.png)",
        to_fix_link(link)
    );
}

#[test]
fn fix_link_spaces_title() {
    let link = "[alt](file:../images/foo with spaces.png \"Title\")";
    assert_eq!(
        "[alt](/abs/path/to/vimwiki/images/foo%20with%20spaces.png \"Title\")",
        to_fix_link(link)
    );
}

#[test]
fn relative_paths() {
    let p1 = "/abs/path/to/Document/foo.xyz";
    let p2 = "/abs/path/to/whatever";
    assert_eq!(
        "../Document/foo.xyz",
        vimwiki_markdown::relative_path(p1, p2)
    );
}

#[test]
fn fix_link_vimwiki_collapses_separators() {
    // the directory part is rebuilt from its components, as the path
    // library's parent/join round trip has it
    assert_eq!("[T](a/b.html)", to_fix_link_vimwiki("[T](a//b.wiki)"));
    assert_eq!("[T](a/b.html)", to_fix_link_vimwiki("[T](a/./b.wiki)"));
    assert_eq!("[T](./b.html)", to_fix_link_vimwiki("[T](./b.wiki)"));
}
