//! Differential tests: the hand-verified scanners against regex oracles
//! built from the very expressions the marker grammars are written in.
use regex::{Captures, Regex};
use std::collections::HashMap;
use vimwiki_markdown::{fix_link, preprocess_variables, rewrite_links, strip_directives};

fn oracle_preprocess(input: &str) -> String {
    let re_def = Regex::new(r"<'''(?P<data>(.|\n)*)'''>").unwrap();
    let re_def_single = Regex::new(r"(?P<key>\S*?)\{(?P<value>[^}]*?)\}").unwrap();
    let re_var = Regex::new(r"'\{(?P<before>.*?)\$(?P<var>\S+?)(?P<after>(\s.*?\}|\}))'").unwrap();

    let mut map: HashMap<String, String> = HashMap::new();
    if let Some(c) = re_def.captures_iter(input).next() {
        for e in re_def_single.captures_iter(&c["data"]) {
            map.insert(e["key"].to_owned(), e["value"].to_owned());
        }
    }
    let cleaned = re_def.replace_all(input, "").to_string();
    re_var
        .replace_all(&cleaned, |caps: &Captures| {
            let val = map.get(&caps["var"]).expect("undefined variable");
            let before = &caps["before"];
            let after = &caps["after"][0..caps["after"].len() - 1];
            format!("'{{{}{}{}}}'", before, val, after)
        })
        .to_string()
}

fn oracle_strip(html: &str) -> String {
    let re_cmd = Regex::new(r"'\{(?P<element>\S+)\s+(?P<type>\S+)\s+(?P<data>.*?)\}'").unwrap();
    re_cmd.replace_all(html, "").to_string()
}

fn oracle_rewrite(text: &str, input_file: &str, output_dir: &str, extension: &str) -> String {
    let re = Regex::new(r"\[(?P<title>.*)\]\((?P<uri>(.)*)\)").unwrap();
    re.replace_all(text, |caps: &Captures| {
        fix_link(&caps["title"], &caps["uri"], input_file, output_dir, extension)
    })
    .to_string()
}

#[test]
fn variables_match_regex_oracle() {
    let docs = [
        "plain text, no markers at all",
        "<'''a{1}b{2}'''>x '{$a}' y '{$b}' z",
        "<'''name{John Doe}'''>Dear '{Mr $name esq}'.",
        "before <'''k{v}'''> after '{see $k here}' end",
        "<'''k{v}'''>'{$k}' and '{$k}' twice",
        "<'''outer{$inner}inner{x}'''>'{$outer}'",
        "<'''a{1}\nb{2}'''>\n'{$a}'-'{$b}'",
        "<'''  a{1}  b{2}  '''>'{$a}''{$b}'",
        "empty value <'''e{}'''> gives '{x $e y}'",
        "<'''k{v}'''>no references afterwards",
        "'{ not a reference, no dollar }'",
        "<'''c{5}'''>price '{a $ b $c}' end",
        "<'''v{x}'''>'{$ $v}' leading bare dollar",
        "<'''x}y{v}'''>'{$x}y}' brace in name",
        "<'''k{v}'''>'{$k\u{a0}tail}' wide space",
    ];
    for doc in docs {
        assert_eq!(
            oracle_preprocess(doc),
            preprocess_variables(doc).unwrap(),
            "document: {:?}",
            doc
        );
    }
}

#[test]
fn strip_matches_regex_oracle() {
    let docs = [
        "no markers",
        "a'{p s x}'b",
        "a'{parent style color:red}'b'{p st y}'c",
        "unclosed '{p s x",
        "'{p}' too short",
        "'{p s data with spaces}' tail",
        "nested quote '{p s it's}' here",
        "two '{p s a}''{p s b}'",
        "'{p  s   wide   gaps}'",
        "a'{p\u{a0}s\u{a0}x}'b",
    ];
    for doc in docs {
        assert_eq!(oracle_strip(doc), strip_directives(doc), "document: {:?}", doc);
    }
}

#[test]
fn links_match_regex_oracle() {
    let input_file = "/abs/path/to/vimwiki/bar/mdfile.wiki";
    let output_dir = "/abs/path/to/vimwiki/site_html/bar/";
    let docs = [
        "no links here",
        "one [alt](local:../foo.png) link",
        "absolute [a](/abs/x.png) stays",
        "file [a](file:../images/x.png) forced",
        "titled [a](local:../foo.png \"Title\") link",
        "two on one line [a](b) [c](local:../d)",
        "[x](local:../p.png)\n[y](file:q.png)",
        "spaces [a](file:img/a b.png)",
        "empty [](empty.png) alt",
        "fragmenty [a](x#y#z)",
    ];
    for doc in docs {
        assert_eq!(
            oracle_rewrite(doc, input_file, output_dir, "wiki"),
            rewrite_links(doc, input_file, output_dir, "wiki"),
            "document: {:?}",
            doc
        );
    }
}
