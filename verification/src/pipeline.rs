//! The pipeline over one document: substitute variables, rewrite every
//! markdown link, render, and apply directives.
//!
//! The link scanner works line by line: a link match runs from a `[` to
//! the last `](` of its line that still leaves a closing `)`, exactly as
//! the rewriter consumes them.
use vstd::prelude::*;
use crate::errors::WikiError;
use crate::text::{
    append_sub, append_vec, chars_to_string, first_of_two, last_match, lemma_first_of_two,
    lemma_last_match, str_chars, find_of_two, find_last_match,
};
use crate::links::{
    fix_link, fix_rest_spec, fix_vimwiki_spec, frag_path, link_text, resolution_ctx_ok,
    vimwiki_target_ok,
};
use crate::options::VimWikiOptions;
use crate::paths::parent_dir_spec;
use crate::variables::preprocess_variables;
use crate::variables::preprocess_spec;
use crate::directives::{
    apply_commands, collect_from, dom_applied_of, dom_texts_of, outcome_records, strip_spec,
    DirectiveOutcome,
};
use pulldown_cmark::{html, Options, Parser};

verus! {

/// A markdown link anchored at the `[` in position `q`: the position of
/// its `](` and of its closing `)`.  Both lie on the line of `q`; the
/// `](` is the last one of the line that leaves a `)` behind it, and the
/// `)` is the last one of the line.
pub open spec fn link_at(s: Seq<char>, q: int) -> Option<(int, int)> {
    let le = first_of_two(s, q, '\n', '\n');
    let k = last_match(s, seq![')'], q + 1, le);
    if k == -1 {
        None
    } else {
        let j = last_match(s, seq![']', '('], q + 1, k - 1);
        if j == -1 {
            None
        } else {
            Some((j, k))
        }
    }
}

/// The first link match at or after `p`: the positions of its `[`, `](`
/// and `)`.
pub open spec fn find_link(s: Seq<char>, p: int) -> Option<(int, int, int)>
    decreases s.len() - p,
        via find_link_dec
{
    if !(0 <= p <= s.len()) {
        None
    } else {
        let q = first_of_two(s, p, '[', '[');
        if q == s.len() {
            None
        } else {
            match link_at(s, q) {
                Some((j, k)) => Some((q, j, k)),
                None => find_link(s, q + 1),
            }
        }
    }
}

#[via_fn]
proof fn find_link_dec(s: Seq<char>, p: int) {
    if 0 <= p <= s.len() {
        lemma_first_of_two(s, p, '[', '[');
    }
}

proof fn lemma_link_at(s: Seq<char>, q: int)
    requires
        0 <= q <= s.len(),
    ensures
        match link_at(s, q) {
            Some((j, k)) => q < j && j + 2 <= k && k < s.len(),
            None => true,
        },
{
    lemma_first_of_two(s, q, '\n', '\n');
    let le = first_of_two(s, q, '\n', '\n');
    lemma_last_match(s, seq![')'], q + 1, le);
    let k = last_match(s, seq![')'], q + 1, le);
    if k >= 0 {
        lemma_last_match(s, seq![']', '('], q + 1, k - 1);
    }
}

proof fn lemma_find_link(s: Seq<char>, p: int)
    requires
        0 <= p <= s.len(),
    ensures
        match find_link(s, p) {
            Some((q, j, k)) => p <= q < j && j + 2 <= k && k < s.len(),
            None => true,
        },
    decreases s.len() - p,
{
    let q = first_of_two(s, p, '[', '[');
    lemma_first_of_two(s, p, '[', '[');
    if q < s.len() {
        lemma_link_at(s, q);
        if link_at(s, q) is None {
            lemma_find_link(s, q + 1);
        }
    }
}

/// The document with every link match rewritten.  The classification of
/// each match in order is taken from `ch`: `true` resolves an internal
/// wiki page, `false` resolves against the context; the probe on disk
/// decides which holds at run time.
pub open spec fn rewrite_from(
    s: Seq<char>,
    p: int,
    ch: Seq<bool>,
    input_file: Seq<char>,
    output_dir: Seq<char>,
) -> Seq<char>
    decreases s.len() - p,
        via rewrite_from_dec
{
    if !(0 <= p <= s.len()) {
        Seq::empty()
    } else {
        match find_link(s, p) {
            None => s.subrange(p, s.len() as int),
            Some((q, j, k)) => {
                let title = s.subrange(q + 1, j);
                let uri = s.subrange(j + 2, k);
                let resolved = if ch.len() > 0 && ch[0] && vimwiki_target_ok(frag_path(uri)) {
                    fix_vimwiki_spec(uri)
                } else {
                    fix_rest_spec(uri, parent_dir_spec(input_file), output_dir)
                };
                s.subrange(p, q) + link_text(title, resolved) + rewrite_from(
                    s,
                    k + 1,
                    ch.drop_first(),
                    input_file,
                    output_dir,
                )
            },
        }
    }
}

#[via_fn]
proof fn rewrite_from_dec(
    s: Seq<char>,
    p: int,
    ch: Seq<bool>,
    input_file: Seq<char>,
    output_dir: Seq<char>,
) {
    if 0 <= p <= s.len() {
        lemma_find_link(s, p);
    }
}

/// Finds the first link match at or after `p`.
fn find_link_exec(t: &Vec<char>, p: usize) -> (r: Option<(usize, usize, usize)>)
    requires
        p <= t@.len(),
    ensures
        match r {
            Some((q, j, k)) => find_link(t@, p as int) == Some((q as int, j as int, k as int)),
            None => find_link(t@, p as int) is None,
        },
{
    let n = t.len();
    let mut close: Vec<char> = Vec::new();
    close.push(')');
    proof {
        assert(close@ =~= seq![')']);
    }
    let mut mid: Vec<char> = Vec::new();
    mid.push(']');
    mid.push('(');
    proof {
        assert(mid@ =~= seq![']', '(']);
    }
    let mut cur = p;
    loop
        invariant
            p <= cur <= t@.len(),
            find_link(t@, p as int) == find_link(t@, cur as int),
        decreases t@.len() - cur,
    {
        let q = find_of_two(t, cur, '[', '[');
        proof {
            lemma_first_of_two(t@, cur as int, '[', '[');
        }
        if q == n {
            return None;
        }
        let le = find_of_two(t, q, '\n', '\n');
        proof {
            lemma_first_of_two(t@, q as int, '\n', '\n');
        }
        let k = find_last_match(t, &close, q + 1, le);
        proof {
            lemma_last_match(t@, seq![')'], q + 1, le as int);
        }
        match k {
            Some(kv) => {
                let hi = if kv >= 1 {
                    kv - 1
                } else {
                    0
                };
                let lo = if q + 1 <= hi {
                    q + 1
                } else {
                    hi
                };
                let j = find_last_match(t, &mid, lo, hi);
                proof {
                    lemma_last_match(t@, seq![']', '('], q + 1, kv - 1);
                    if (q + 1) as int > kv - 1 {
                        assert(last_match(t@, seq![']', '('], q + 1, kv - 1) == -1);
                    }
                };
                match j {
                    Some(jv) => {
                        return Some((q, jv, kv));
                    },
                    None => {
                        cur = q + 1;
                    },
                }
            },
            None => {
                cur = q + 1;
            },
        }
    }
}

/// Rewrites every markdown link of the document against the resolution
/// context.  Each match is classified by the on-disk probe; whatever the
/// probe answered, the result is the document with every match resolved
/// one way or the other, in order.
pub fn rewrite_links(text: &str, input_file: &str, output_dir: &str, extension: &str) -> (r:
    String)
    requires
        resolution_ctx_ok(input_file@, output_dir@),
    ensures
        exists|ch: Seq<bool>|
            r@ == rewrite_from(text@, 0, ch, input_file@, output_dir@),
{
    let t = str_chars(text);
    let n = t.len();
    let ghost ifile = input_file@;
    let ghost odir = output_dir@;
    let mut out: Vec<char> = Vec::new();
    let mut p: usize = 0;
    let ghost mut chs: Seq<bool> = Seq::empty();
    proof {
        assert forall|ch2: Seq<bool>|
            rewrite_from(t@, 0, chs + ch2, ifile, odir) == out@ + rewrite_from(
                t@,
                0,
                ch2,
                ifile,
                odir,
            ) by {
            assert(chs + ch2 =~= ch2);
            assert(out@ + rewrite_from(t@, 0, ch2, ifile, odir) =~= rewrite_from(
                t@,
                0,
                ch2,
                ifile,
                odir,
            ));
        }
    }
    loop
        invariant
            p <= t@.len(),
            resolution_ctx_ok(ifile, odir),
            ifile == input_file@,
            odir == output_dir@,
            forall|ch2: Seq<bool>|
                rewrite_from(t@, 0, chs + ch2, ifile, odir) == out@ + rewrite_from(
                    t@,
                    p as int,
                    ch2,
                    ifile,
                    odir,
                ),
        decreases t@.len() - p,
    {
        match find_link_exec(&t, p) {
            None => {
                let ghost prev = out@;
                proof {
                    assert(rewrite_from(t@, 0, chs + Seq::<bool>::empty(), ifile, odir) == prev
                        + rewrite_from(t@, p as int, Seq::<bool>::empty(), ifile, odir));
                }
                append_sub(&mut out, &t, p, n);
                let s = chars_to_string(&out);
                proof {
                    assert(exists|ch: Seq<bool>| s@ == rewrite_from(t@, 0, ch, ifile, odir)) by {
                        assert(s@ == rewrite_from(t@, 0, chs + Seq::<bool>::empty(), ifile, odir));
                    }
                }
                return s;
            },
            Some((q, j, k)) => {
                proof {
                    lemma_find_link(t@, p as int);
                }
                let mut title: Vec<char> = Vec::new();
                append_sub(&mut title, &t, q + 1, j);
                let mut uri: Vec<char> = Vec::new();
                append_sub(&mut uri, &t, j + 2, k);
                proof {
                    assert(title@ =~= t@.subrange(q + 1, j as int));
                    assert(uri@ =~= t@.subrange(j + 2, k as int));
                }
                let title_s = chars_to_string(&title);
                let uri_s = chars_to_string(&uri);
                let fixed = fix_link(
                    title_s.as_str(),
                    uri_s.as_str(),
                    input_file,
                    output_dir,
                    extension,
                );
                let ghost b = fixed@ == link_text(title@, fix_vimwiki_spec(uri@))
                    && vimwiki_target_ok(frag_path(uri@));
                let fv = str_chars(fixed.as_str());
                let ghost prev = out@;
                let ghost chs_prev = chs;
                append_sub(&mut out, &t, p, q);
                append_vec(&mut out, &fv);
                proof {
                    chs = chs.push(b);
                    let resolved = if b {
                        fix_vimwiki_spec(uri@)
                    } else {
                        fix_rest_spec(uri@, parent_dir_spec(ifile), odir)
                    };
                    assert(fv@ == link_text(title@, resolved));
                    assert forall|ch2: Seq<bool>|
                        rewrite_from(t@, 0, chs + ch2, ifile, odir) == out@ + rewrite_from(
                            t@,
                            k + 1,
                            ch2,
                            ifile,
                            odir,
                        ) by {
                        let full = seq![b] + ch2;
                        assert(chs_prev + full =~= chs + ch2);
                        assert(rewrite_from(t@, 0, chs_prev + full, ifile, odir) == prev
                            + rewrite_from(t@, p as int, full, ifile, odir));
                        assert(full.drop_first() =~= ch2);
                        assert(full.len() > 0 && full[0] == b);
                        assert(rewrite_from(t@, p as int, full, ifile, odir) == t@.subrange(
                            p as int,
                            q as int,
                        ) + link_text(title@, resolved) + rewrite_from(
                            t@,
                            k + 1,
                            ch2,
                            ifile,
                            odir,
                        ));
                        assert(prev + (t@.subrange(p as int, q as int) + link_text(
                            title@,
                            resolved,
                        ) + rewrite_from(t@, k + 1, ch2, ifile, odir)) =~= (prev + t@.subrange(
                            p as int,
                            q as int,
                        ) + fv@) + rewrite_from(t@, k + 1, ch2, ifile, odir));
                    }
                }
                p = k + 1;
            },
        }
    }
}

/// Relies on pulldown-cmark's `Parser` and `push_html`: the rendered HTML
/// of the markdown text, with footnotes, tables, strikethrough and task
/// lists enabled.  The rendering depends on the text alone.
#[verifier::external_body]
fn get_html(markdown: String) -> (r: String)
    ensures
        r@ == rendered_html_of(markdown@),
{
    let mut html_out = String::with_capacity(markdown.len());
    let parser = Parser::new_ext(
        &markdown,
        Options::ENABLE_FOOTNOTES | Options::ENABLE_TABLES | Options::ENABLE_STRIKETHROUGH
            | Options::ENABLE_TASKLISTS,
    );
    html::push_html(&mut html_out, parser);
    html_out
}

pub uninterp spec fn rendered_html_of(md: Seq<char>) -> Seq<char>;

impl VimWikiOptions {
    /// The rendered document after the variable, link and render stages,
    /// for one sequence of link classifications.
    pub open spec fn staged_html(
        &self,
        text: Seq<char>,
        ch: Seq<bool>,
    ) -> Seq<char> {
        rendered_html_of(
            rewrite_from(preprocess_spec(text)->Ok_0, 0, ch, self.input_file@, self.output_dir@),
        )
    }

    /// Runs the whole pipeline over the document text: variables are
    /// substituted, links rewritten, the markdown rendered, and the
    /// directive markers applied and stripped.  An undefined variable is
    /// the one fatal condition of the variable stage; any other error
    /// names a directive token of the rendered document.  A success is the
    /// marker-strip of the mutated serialization of the rendered document,
    /// for the link classifications the probe chose.
    pub fn get_body_html(&self, text: &str) -> (r: Result<String, WikiError>)
        requires
            resolution_ctx_ok(self.input_file@, self.output_dir@),
        ensures
            match r {
                Ok(out) => preprocess_spec(text@) is Ok && (exists|ch: Seq<bool>|
                    {
                        let html = #[trigger] self.staged_html(text@, ch);
                        &&& collect_from(dom_texts_of(html), 0) is Records
                        &&& out@ == strip_spec(
                            dom_applied_of(
                                html,
                                outcome_records(collect_from(dom_texts_of(html), 0)),
                            ),
                        )
                    }),
                Err(e) => match e {
                    WikiError::UnresolvedVariable { name } => preprocess_spec(text@) == Err::<
                        Seq<char>,
                        Seq<char>,
                    >(name@),
                    WikiError::UnknownAttribute { token } => preprocess_spec(text@) is Ok && (
                    exists|ch: Seq<bool>|
                        collect_from(dom_texts_of(#[trigger] self.staged_html(text@, ch)), 0)
                            == DirectiveOutcome::BadAttribute(token@)),
                    WikiError::UnknownTarget { token } => preprocess_spec(text@) is Ok && (
                    exists|ch: Seq<bool>|
                        collect_from(dom_texts_of(#[trigger] self.staged_html(text@, ch)), 0)
                            == DirectiveOutcome::BadTarget(token@)),
                },
            },
    {
        let pre = match preprocess_variables(text) {
            Ok(v) => v,
            Err(e) => {
                return Err(e);
            },
        };
        let linked = rewrite_links(
            pre.as_str(),
            self.input_file.as_str(),
            self.output_dir.as_str(),
            self.extension.as_str(),
        );
        let ghost ch = choose|ch: Seq<bool>|
            linked@ == rewrite_from(pre@, 0, ch, self.input_file@, self.output_dir@);
        let html = get_html(linked);
        proof {
            assert(html@ == self.staged_html(text@, ch));
        }
        match apply_commands(html.as_str()) {
            Ok(out) => {
                proof {
                    let h2 = self.staged_html(text@, ch);
                    assert(collect_from(dom_texts_of(h2), 0) is Records && out@ == strip_spec(
                        dom_applied_of(h2, outcome_records(collect_from(dom_texts_of(h2), 0))),
                    ));
                }
                Ok(out)
            },
            Err(e) => {
                proof {
                    match &e {
                        WikiError::UnknownAttribute { token } => {
                            assert(collect_from(
                                dom_texts_of(self.staged_html(text@, ch)),
                                0,
                            ) == DirectiveOutcome::BadAttribute(token@));
                        },
                        WikiError::UnknownTarget { token } => {
                            assert(collect_from(
                                dom_texts_of(self.staged_html(text@, ch)),
                                0,
                            ) == DirectiveOutcome::BadTarget(token@));
                        },
                        WikiError::UnresolvedVariable { .. } => {
                        },
                    }
                }
                Err(e)
            },
        }
    }
}

} // verus!
