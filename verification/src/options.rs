//! The options handed over by the wiki plugin.
//!
//! The plugin invokes the converter with a fixed twelve-element argument
//! vector; parsing it is pure validation.  The syntax must be `markdown`,
//! and the template path is assembled from its directory, name and
//! extension.
use vstd::prelude::*;
use vstd::string::StringExecFns;
use crate::text::{find_last_match, last_match, lemma_last_match, str_chars};
use crate::paths::{seg_eq, slash_pat};

verus! {

/// The decimal rendering of a number.
pub open spec fn dec_spec(n: nat) -> Seq<char>
    decreases n,
{
    let d = seq![digit_char(n % 10)];
    if n < 10 {
        d
    } else {
        dec_spec(n / 10) + d
    }
}

pub open spec fn digit_char(d: nat) -> char {
    if d == 0 {
        '0'
    } else if d == 1 {
        '1'
    } else if d == 2 {
        '2'
    } else if d == 3 {
        '3'
    } else if d == 4 {
        '4'
    } else if d == 5 {
        '5'
    } else if d == 6 {
        '6'
    } else if d == 7 {
        '7'
    } else if d == 8 {
        '8'
    } else {
        '9'
    }
}

/// Relies on `Display` for `usize`: the number is rendered as its decimal
/// digits, most significant first.
#[verifier::external_body]
fn usize_to_string(n: usize) -> (r: String)
    ensures
        r@ == dec_spec(n as nat),
{
    format!("{}", n)
}

/// The error for an argument vector of the wrong size.
pub open spec fn arg_count_error(n: nat) -> Seq<char> {
    "The amount of arguments from VimWiki do not match. You provided "@ + dec_spec(n)
        + ", but 12 are necessary"@
}

/// The error for a document whose syntax is not markdown.
pub open spec fn syntax_error() -> Seq<char> {
    "The syntax has to be markdown"@
}

/// What a twelve-element argument vector means.
pub open spec fn args_ok(args: Seq<String>) -> bool {
    args.len() == 12 && args[2]@ == "markdown"@
}

/// The stem of the file the path names: its last segment without the
/// extension.
pub open spec fn stem_spec(p: Seq<char>) -> Seq<char> {
    let sl = last_match(p, slash_pat(), 0, p.len() as int);
    let d = last_match(p, seq!['.'], sl + 2, p.len() as int);
    if d == -1 {
        p.subrange(sl + 1, p.len() as int)
    } else {
        p.subrange(sl + 1, d)
    }
}

/// All options related to one conversion, as the wiki plugin supplies them.
#[derive(Debug)]
pub struct VimWikiOptions {
    pub force: bool,
    pub syntax: String,
    pub extension: String,
    pub output_dir: String,
    pub input_file: String,
    pub css_file: String,
    pub template_file: String,
    pub root_path: String,
}

/// The field values an accepted argument vector produces.
pub open spec fn fields_from_args(
    args: Seq<String>,
    force: bool,
    syntax: Seq<char>,
    extension: Seq<char>,
    output_dir: Seq<char>,
    input_file: Seq<char>,
    css_file: Seq<char>,
    template_file: Seq<char>,
    root_path: Seq<char>,
) -> bool {
    &&& force == (args[1]@ == "1"@)
    &&& syntax == args[2]@
    &&& extension == args[3]@
    &&& output_dir == args[4]@
    &&& input_file == args[5]@
    &&& css_file == args[6]@
    &&& template_file == args[7]@ + args[8]@ + args[9]@
    &&& root_path == (if args[10]@ == "-"@ && args[11]@ == "-"@ {
        "./"@
    } else {
        args[10]@
    })
}

impl VimWikiOptions {
    /// Creates options by parsing the plugin's argument vector: exactly
    /// twelve arguments, the third naming markdown; anything else is
    /// rejected with the matching message.
    pub fn new(args: &Vec<String>) -> (r: Result<VimWikiOptions, String>)
        ensures
            r is Ok <==> args_ok(args@),
            match r {
                Ok(o) => fields_from_args(
                    args@,
                    o.force,
                    o.syntax@,
                    o.extension@,
                    o.output_dir@,
                    o.input_file@,
                    o.css_file@,
                    o.template_file@,
                    o.root_path@,
                ),
                Err(e) => e@ == if args@.len() != 12 {
                    arg_count_error(args@.len())
                } else {
                    syntax_error()
                },
            },
    {
        if args.len() == 12 {
            let mut template_file = String::new();
            template_file.append(args[7].as_str());
            template_file.append(args[8].as_str());
            template_file.append(args[9].as_str());
            proof {
                assert(template_file@ =~= args@[7]@ + args@[8]@ + args@[9]@);
            }
            if str_eq(args[2].as_str(), "markdown") {
                let root_path = if str_eq(args[10].as_str(), "-") && str_eq(
                    args[11].as_str(),
                    "-",
                ) {
                    String::from_str("./")
                } else {
                    args[10].clone()
                };
                let options = VimWikiOptions {
                    force: str_eq(args[1].as_str(), "1"),
                    syntax: args[2].clone(),
                    extension: args[3].clone(),
                    output_dir: args[4].clone(),
                    input_file: args[5].clone(),
                    css_file: args[6].clone(),
                    template_file,
                    root_path,
                };
                Ok(options)
            } else {
                Err(String::from_str("The syntax has to be markdown"))
            }
        } else {
            let mut msg = String::from_str(
                "The amount of arguments from VimWiki do not match. You provided ",
            );
            msg.append(usize_to_string(args.len()).as_str());
            msg.append(", but 12 are necessary");
            Err(msg)
        }
    }

    /// The stem of the input document's file name.
    pub fn stem(&self) -> (r: String)
        ensures
            r@ == stem_spec(self.input_file@),
    {
        path_stem(&self.input_file)
    }

    /// The path of the published page: the stem under the output directory
    /// with the `.html` extension.
    pub fn output_filepath(&self) -> (r: String)
        ensures
            r@ == self.output_dir@ + stem_spec(self.input_file@) + ".html"@,
    {
        let mut out = self.output_dir.clone();
        out.append(self.stem().as_str());
        out.append(".html");
        out
    }
}

/// Compares two strings character for character.
fn str_eq(a: &str, b: &str) -> (r: bool)
    ensures
        r == (a@ == b@),
{
    let va = str_chars(a);
    let vb = str_chars(b);
    seg_eq(&va, &vb)
}

/// The stem of the file a path names, computed lexically.
fn path_stem(p: &String) -> (r: String)
    ensures
        r@ == stem_spec(p@),
{
    let v = str_chars(p.as_str());
    let mut slash: Vec<char> = Vec::new();
    slash.push('/');
    proof {
        assert(slash@ =~= slash_pat());
    }
    let mut dotp: Vec<char> = Vec::new();
    dotp.push('.');
    proof {
        assert(dotp@ =~= seq!['.']);
    }
    let sl = find_last_match(&v, &slash, 0, v.len());
    let ghost sli = last_match(v@, slash_pat(), 0, v@.len() as int);
    proof {
        lemma_last_match(v@, slash_pat(), 0, v@.len() as int);
    }
    let start: usize = match sl {
        Some(x) => x + 1,
        None => 0,
    };
    let d: Option<usize> = match sl {
        Some(x) => {
            if v.len() - x >= 2 {
                find_last_match(&v, &dotp, x + 2, v.len())
            } else {
                None
            }
        },
        None => {
            if v.len() >= 1 {
                find_last_match(&v, &dotp, 1, v.len())
            } else {
                None
            }
        },
    };
    proof {
        lemma_last_match(v@, seq!['.'], sli + 2, v@.len() as int);
    }
    let mut out: Vec<char> = Vec::new();
    match d {
        Some(dv) => {
            crate::text::append_sub(&mut out, &v, start, dv);
        },
        None => {
            crate::text::append_sub(&mut out, &v, start, v.len());
        },
    }
    proof {
        assert(out@ =~= stem_spec(p@));
    }
    crate::text::chars_to_string(&out)
}

/// The raw command-line arguments, in the plugin's convention.
#[derive(Debug)]
pub struct VimWikiCmdlineArgs {
    pub force: bool,
    pub syntax: String,
    pub extension: String,
    pub output_dir: String,
    pub input_file: String,
    pub css_file: String,
    pub template_file: String,
    pub root_path: String,
}

impl VimWikiCmdlineArgs {
    /// Parses the plugin's argument vector, under the same rules as
    /// `VimWikiOptions::new`.
    pub fn new(args: &Vec<String>) -> (r: Result<VimWikiCmdlineArgs, String>)
        ensures
            r is Ok <==> args_ok(args@),
            match r {
                Ok(o) => fields_from_args(
                    args@,
                    o.force,
                    o.syntax@,
                    o.extension@,
                    o.output_dir@,
                    o.input_file@,
                    o.css_file@,
                    o.template_file@,
                    o.root_path@,
                ),
                Err(e) => e@ == if args@.len() != 12 {
                    arg_count_error(args@.len())
                } else {
                    syntax_error()
                },
            },
    {
        match VimWikiOptions::new(args) {
            Ok(o) => Ok(
                VimWikiCmdlineArgs {
                    force: o.force,
                    syntax: o.syntax,
                    extension: o.extension,
                    output_dir: o.output_dir,
                    input_file: o.input_file,
                    css_file: o.css_file,
                    template_file: o.template_file,
                    root_path: o.root_path,
                },
            ),
            Err(e) => Err(e),
        }
    }
}

} // verus!
