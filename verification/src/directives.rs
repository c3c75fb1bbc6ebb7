//! The directive applier.
//!
//! After rendering, text nodes may carry directive markers of the shape
//! `'{<target> <type> <data>}'`.  The first marker of a text node sets an
//! attribute on the node's parent element; the target and attribute tokens
//! come from two closed vocabularies, and any other token aborts the
//! document.  Whether or not a marker resolved, every marker is stripped
//! from the serialized output.
use vstd::prelude::*;
use vstd::string::StringExecFns;
use crate::errors::WikiError;
use crate::text::{
    append_sub, chars_to_string, find_match, first_match, lemma_first_match, nonspace_run_end, run_end_nonspace, run_end_space, space_run_end, str_chars,
};
use crate::paths::seg_eq;
use crate::variables::{close_pos, close_pos_exec, lemma_close_pos, ref_open};
use kuchiki::traits::TendrilSink;

verus! {

/// A directive marker anchored at the `'{` in position `i`: the end of the
/// target token, the bounds of the type token, and the bounds of the data.
pub open spec fn cmd_at(s: Seq<char>, i: int) -> Option<(int, int, int, int, int)> {
    let e = run_end_nonspace(s, i + 2);
    if e == i + 2 || e >= s.len() {
        None
    } else {
        let t0 = run_end_space(s, e);
        let t1 = run_end_nonspace(s, t0);
        if t1 == t0 || t1 >= s.len() {
            None
        } else {
            let d0 = run_end_space(s, t1);
            let w = close_pos(s, d0);
            if w == s.len() {
                None
            } else {
                Some((e, t0, t1, d0, w))
            }
        }
    }
}

/// The first directive marker at or after `p`: its start and the token
/// bounds of `cmd_at`.
pub open spec fn cmd_find(s: Seq<char>, p: int) -> Option<(int, int, int, int, int, int)>
    decreases s.len() - p,
        via cmd_find_dec
{
    if !(0 <= p <= s.len()) {
        None
    } else {
        let i = first_match(s, ref_open(), p);
        if i == s.len() {
            None
        } else {
            match cmd_at(s, i) {
                Some((e, t0, t1, d0, w)) => Some((i, e, t0, t1, d0, w)),
                None => cmd_find(s, i + 1),
            }
        }
    }
}

#[via_fn]
proof fn cmd_find_dec(s: Seq<char>, p: int) {
    if 0 <= p <= s.len() {
        lemma_first_match(s, ref_open(), p);
    }
}

proof fn lemma_cmd_at(s: Seq<char>, i: int)
    requires
        0 <= i,
        i + 2 <= s.len(),
    ensures
        match cmd_at(s, i) {
            Some((e, t0, t1, d0, w)) => i + 2 < e < s.len() && e <= t0 <= s.len() && t0 < t1
                && t1 < s.len() && t1 <= d0 <= s.len() && d0 <= w && w + 2 <= s.len(),
            None => true,
        },
{
    crate::text::lemma_run_end_nonspace(s, i + 2);
    let e = run_end_nonspace(s, i + 2);
    if i + 2 < e < s.len() {
        crate::text::lemma_run_end_space(s, e);
        let t0 = run_end_space(s, e);
        crate::text::lemma_run_end_nonspace(s, t0);
        let t1 = run_end_nonspace(s, t0);
        if t0 < t1 < s.len() {
            crate::text::lemma_run_end_space(s, t1);
            let d0 = run_end_space(s, t1);
            lemma_close_pos(s, d0);
        }
    }
}

proof fn lemma_cmd_find(s: Seq<char>, p: int)
    requires
        0 <= p <= s.len(),
    ensures
        match cmd_find(s, p) {
            Some((i, e, t0, t1, d0, w)) => p <= i && i + 2 < e && e <= t0 < t1 && t1 <= d0 <= w
                && w + 2 <= s.len(),
            None => true,
        },
    decreases s.len() - p,
{
    let i = first_match(s, ref_open(), p);
    lemma_first_match(s, ref_open(), p);
    if i < s.len() {
        lemma_cmd_at(s, i);
        if cmd_at(s, i) is None {
            lemma_cmd_find(s, i + 1);
        }
    }
}

/// The serialized document with every directive marker removed.
pub open spec fn strip_from(s: Seq<char>, p: int) -> Seq<char>
    decreases s.len() - p,
        via strip_from_dec
{
    if !(0 <= p <= s.len()) {
        Seq::empty()
    } else {
        match cmd_find(s, p) {
            None => s.subrange(p, s.len() as int),
            Some((i, e, t0, t1, d0, w)) => s.subrange(p, i) + strip_from(s, w + 2),
        }
    }
}

#[via_fn]
proof fn strip_from_dec(s: Seq<char>, p: int) {
    if 0 <= p <= s.len() {
        lemma_cmd_find(s, p);
    }
}

pub open spec fn strip_spec(s: Seq<char>) -> Seq<char> {
    strip_from(s, 0)
}

/// The tokens that resolve to the `style` attribute.
pub open spec fn style_token(t: Seq<char>) -> bool {
    ||| t == seq!['s']
    ||| t == seq!['s', 't']
    ||| t == seq!['s', 't', 'y']
    ||| t == seq!['s', 't', 'y', 'l']
    ||| t == seq!['s', 't', 'y', 'l', 'e']
}

/// The tokens that resolve to the parent element of the text node.
pub open spec fn parent_token(t: Seq<char>) -> bool {
    ||| t == seq!['p']
    ||| t == seq!['p', 'a']
    ||| t == seq!['p', 'a', 'r']
    ||| t == seq!['p', 'a', 'r', 'e']
    ||| t == seq!['p', 'a', 'r', 'e', 'n']
    ||| t == seq!['p', 'a', 'r', 'e', 'n', 't']
}

/// The first directive of a text node: its target, type and data tokens.
pub open spec fn text_directive(t: Seq<char>) -> Option<(Seq<char>, Seq<char>, Seq<char>)> {
    match cmd_find(t, 0) {
        None => None,
        Some((i, e, t0, t1, d0, w)) => Some(
            (t.subrange(i + 2, e), t.subrange(t0, t1), t.subrange(d0, w)),
        ),
    }
}

/// The attribute name every accepted attribute token resolves to.
pub open spec fn style_attr() -> Seq<char> {
    seq!['s', 't', 'y', 'l', 'e']
}

/// What scanning a list of text nodes yields: the mutation records
/// (text-node index, attribute name, value), or the first token outside
/// its vocabulary.
pub enum DirectiveOutcome {
    Records(Seq<(int, Seq<char>, Seq<char>)>),
    BadAttribute(Seq<char>),
    BadTarget(Seq<char>),
}

/// The records of an outcome; empty for the fatal outcomes.
pub open spec fn outcome_records(o: DirectiveOutcome) -> Seq<(int, Seq<char>, Seq<char>)> {
    match o {
        DirectiveOutcome::Records(r) => r,
        DirectiveOutcome::BadAttribute(t) => Seq::empty(),
        DirectiveOutcome::BadTarget(t) => Seq::empty(),
    }
}

/// Folds `text_directive` over the text nodes from `j` on: the attribute
/// token is validated first, then the target token, and the first bad
/// token aborts everything.
pub open spec fn collect_from(texts: Seq<Seq<char>>, j: int) -> DirectiveOutcome
    decreases texts.len() - j,
{
    if !(0 <= j < texts.len()) {
        DirectiveOutcome::Records(Seq::empty())
    } else {
        match text_directive(texts[j]) {
            None => collect_from(texts, j + 1),
            Some((el, ty, da)) => {
                if !style_token(ty) {
                    DirectiveOutcome::BadAttribute(ty)
                } else if !parent_token(el) {
                    DirectiveOutcome::BadTarget(el)
                } else {
                    match collect_from(texts, j + 1) {
                        DirectiveOutcome::Records(rest) => DirectiveOutcome::Records(
                            seq![(j, style_attr(), da)] + rest,
                        ),
                        other => other,
                    }
                }
            },
        }
    }
}

/// A mutation record: set the attribute on the parent element of the text
/// node with this index to this value.  The closed vocabulary admits only
/// the `style` attribute.
pub struct Directive {
    pub node: usize,
    pub attr: String,
    pub value: String,
}

/// The views of a record list.
pub open spec fn records_view(v: Seq<Directive>) -> Seq<(int, Seq<char>, Seq<char>)> {
    Seq::new(v.len(), |i: int| (v[i].node as int, v[i].attr@, v[i].value@))
}

/// The views of the text node contents.
pub open spec fn texts_view(v: Seq<String>) -> Seq<Seq<char>> {
    Seq::new(v.len(), |i: int| v[i]@)
}

/// Finds the first directive marker of one text node.
fn cmd_find_exec(t: &Vec<char>, p: usize) -> (r: Option<(usize, usize, usize, usize, usize,
    usize)>)
    requires
        p <= t@.len(),
    ensures
        match r {
            Some((i, e, t0, t1, d0, w)) => cmd_find(t@, p as int) == Some(
                (i as int, e as int, t0 as int, t1 as int, d0 as int, w as int),
            ),
            None => cmd_find(t@, p as int) is None,
        },
{
    let mut qo: Vec<char> = Vec::new();
    qo.push('\'');
    qo.push('{');
    proof {
        assert(qo@ =~= ref_open());
    }
    let mut cur = p;
    loop
        invariant
            p <= cur <= t@.len(),
            cmd_find(t@, p as int) == cmd_find(t@, cur as int),
        decreases t@.len() - cur,
    {
        let i = find_match(t, &qo, cur);
        proof {
            lemma_first_match(t@, ref_open(), cur as int);
        }
        if i == t.len() {
            return None;
        }
        match cmd_at_exec(t, i) {
            Some((e, t0, t1, d0, w)) => {
                return Some((i, e, t0, t1, d0, w));
            },
            None => {
                cur = i + 1;
            },
        }
    }
}

/// Tries to read a directive marker anchored at the `'{` in position `i`.
fn cmd_at_exec(t: &Vec<char>, i: usize) -> (r: Option<(usize, usize, usize, usize, usize)>)
    requires
        i + 2 <= t@.len(),
    ensures
        match r {
            Some((e, t0, t1, d0, w)) => cmd_at(t@, i as int) == Some(
                (e as int, t0 as int, t1 as int, d0 as int, w as int),
            ),
            None => cmd_at(t@, i as int) is None,
        },
{
    let n = t.len();
    let e = nonspace_run_end(t, i + 2);
    proof {
        crate::text::lemma_run_end_nonspace(t@, i + 2);
    }
    if e == i + 2 || e >= n {
        return None;
    }
    let t0 = space_run_end(t, e);
    proof {
        crate::text::lemma_run_end_space(t@, e as int);
    }
    let t1 = nonspace_run_end(t, t0);
    proof {
        crate::text::lemma_run_end_nonspace(t@, t0 as int);
    }
    if t1 == t0 || t1 >= n {
        return None;
    }
    let d0 = space_run_end(t, t1);
    proof {
        crate::text::lemma_run_end_space(t@, t1 as int);
    }
    let w = close_pos_exec(t, d0);
    proof {
        lemma_close_pos(t@, d0 as int);
    }
    if w == n {
        return None;
    }
    Some((e, t0, t1, d0, w))
}

fn style_candidates() -> (r: Vec<Vec<char>>)
    ensures
        r@.len() == 5,
        forall|t: Seq<char>| style_token(t) <==> exists|k: int| 0 <= k < 5 && r@[k]@ == t,
{
    let mut v: Vec<Vec<char>> = Vec::new();
    v.push(vec!['s']);
    v.push(vec!['s', 't']);
    v.push(vec!['s', 't', 'y']);
    v.push(vec!['s', 't', 'y', 'l']);
    v.push(vec!['s', 't', 'y', 'l', 'e']);
    proof {
        assert(v@[0]@ =~= seq!['s']);
        assert(v@[1]@ =~= seq!['s', 't']);
        assert(v@[2]@ =~= seq!['s', 't', 'y']);
        assert(v@[3]@ =~= seq!['s', 't', 'y', 'l']);
        assert(v@[4]@ =~= seq!['s', 't', 'y', 'l', 'e']);
        assert forall|t: Seq<char>| style_token(t) implies exists|k: int|
            0 <= k < 5 && v@[k]@ == t by {
            if t == seq!['s'] {
                assert(v@[0]@ == t);
            } else if t == seq!['s', 't'] {
                assert(v@[1]@ == t);
            } else if t == seq!['s', 't', 'y'] {
                assert(v@[2]@ == t);
            } else if t == seq!['s', 't', 'y', 'l'] {
                assert(v@[3]@ == t);
            } else {
                assert(v@[4]@ == t);
            }
        }
    }
    v
}

fn parent_candidates() -> (r: Vec<Vec<char>>)
    ensures
        r@.len() == 6,
        forall|t: Seq<char>| parent_token(t) <==> exists|k: int| 0 <= k < 6 && r@[k]@ == t,
{
    let mut v: Vec<Vec<char>> = Vec::new();
    v.push(vec!['p']);
    v.push(vec!['p', 'a']);
    v.push(vec!['p', 'a', 'r']);
    v.push(vec!['p', 'a', 'r', 'e']);
    v.push(vec!['p', 'a', 'r', 'e', 'n']);
    v.push(vec!['p', 'a', 'r', 'e', 'n', 't']);
    proof {
        assert(v@[0]@ =~= seq!['p']);
        assert(v@[1]@ =~= seq!['p', 'a']);
        assert(v@[2]@ =~= seq!['p', 'a', 'r']);
        assert(v@[3]@ =~= seq!['p', 'a', 'r', 'e']);
        assert(v@[4]@ =~= seq!['p', 'a', 'r', 'e', 'n']);
        assert(v@[5]@ =~= seq!['p', 'a', 'r', 'e', 'n', 't']);
        assert forall|t: Seq<char>| parent_token(t) implies exists|k: int|
            0 <= k < 6 && v@[k]@ == t by {
            if t == seq!['p'] {
                assert(v@[0]@ == t);
            } else if t == seq!['p', 'a'] {
                assert(v@[1]@ == t);
            } else if t == seq!['p', 'a', 'r'] {
                assert(v@[2]@ == t);
            } else if t == seq!['p', 'a', 'r', 'e'] {
                assert(v@[3]@ == t);
            } else if t == seq!['p', 'a', 'r', 'e', 'n'] {
                assert(v@[4]@ == t);
            } else {
                assert(v@[5]@ == t);
            }
        }
    }
    v
}

fn matches_any(t: &Vec<char>, cands: &Vec<Vec<char>>) -> (r: bool)
    ensures
        r == exists|k: int| 0 <= k < cands@.len() && cands@[k]@ == t@,
{
    let mut k: usize = 0;
    while k < cands.len()
        invariant
            k <= cands@.len(),
            forall|u: int| 0 <= u < k ==> cands@[u]@ != t@,
        decreases cands@.len() - k,
    {
        if seg_eq(&cands[k], t) {
            return true;
        }
        k += 1;
    }
    false
}

/// Scans the text nodes for directive markers and validates their tokens
/// against the closed vocabularies; the first unknown token aborts, the
/// attribute checked before the target.
pub fn collect_directives(texts: &Vec<String>) -> (r: Result<Vec<Directive>, WikiError>)
    ensures
        match r {
            Ok(ds) => collect_from(texts_view(texts@), 0) == DirectiveOutcome::Records(
                records_view(ds@),
            ),
            Err(e) => match e {
                WikiError::UnknownAttribute { token } => collect_from(texts_view(texts@), 0)
                    == DirectiveOutcome::BadAttribute(token@),
                WikiError::UnknownTarget { token } => collect_from(texts_view(texts@), 0)
                    == DirectiveOutcome::BadTarget(token@),
                WikiError::UnresolvedVariable { .. } => false,
            },
        },
{
    let styles = style_candidates();
    let parents = parent_candidates();
    let ghost tv = texts_view(texts@);
    let mut out: Vec<Directive> = Vec::new();
    let mut j: usize = 0;
    proof {
        assert(records_view(out@) =~= Seq::<(int, Seq<char>, Seq<char>)>::empty());
    }
    while j < texts.len()
        invariant
            j <= tv.len(),
            tv == texts_view(texts@),
            match collect_from(tv, j as int) {
                DirectiveOutcome::Records(rest) => collect_from(tv, 0)
                    == DirectiveOutcome::Records(records_view(out@) + rest),
                other => collect_from(tv, 0) == other,
            },
        decreases tv.len() - j,
    {
        let t = str_chars(texts[j].as_str());
        proof {
            assert(t@ == tv[j as int]);
        }
        match cmd_find_exec(&t, 0) {
            None => {
            },
            Some((i, e, t0, t1, d0, w)) => {
                proof {
                    lemma_cmd_find(t@, 0);
                }
                let mut el: Vec<char> = Vec::new();
                append_sub(&mut el, &t, i + 2, e);
                let mut ty: Vec<char> = Vec::new();
                append_sub(&mut ty, &t, t0, t1);
                let mut da: Vec<char> = Vec::new();
                append_sub(&mut da, &t, d0, w);
                proof {
                    assert(el@ =~= t@.subrange(i + 2, e as int));
                    assert(ty@ =~= t@.subrange(t0 as int, t1 as int));
                    assert(da@ =~= t@.subrange(d0 as int, w as int));
                }
                if !matches_any(&ty, &styles) {
                    let token = chars_to_string(&ty);
                    return Err(WikiError::UnknownAttribute { token });
                }
                if !matches_any(&el, &parents) {
                    let token = chars_to_string(&el);
                    return Err(WikiError::UnknownTarget { token });
                }
                let ghost prev = out@;
                let value = chars_to_string(&da);
                let attr = String::from_str("style");
                proof {
                    reveal_strlit("style");
                    assert(attr@ =~= style_attr());
                }
                out.push(Directive { node: j, attr, value });
                proof {
                    assert(records_view(out@) =~= records_view(prev).push(
                        (j as int, style_attr(), da@),
                    ));
                    match collect_from(tv, j + 1) {
                        DirectiveOutcome::Records(rest2) => {
                            assert((records_view(prev) + (seq![(j as int, style_attr(), da@)]
                                + rest2)) =~= (records_view(prev).push(
                                (j as int, style_attr(), da@),
                            ) + rest2));
                        },
                        _ => {
                        },
                    }
                }
            },
        }
        j += 1;
    }
    proof {
        assert(records_view(out@) + Seq::<(int, Seq<char>, Seq<char>)>::empty() =~= records_view(
            out@,
        ));
    }
    Ok(out)
}

/// Removes every directive marker from the serialized document.
pub fn strip_directives(html: &str) -> (r: String)
    ensures
        r@ == strip_spec(html@),
{
    let t = str_chars(html);
    let n = t.len();
    let mut out: Vec<char> = Vec::new();
    let mut p: usize = 0;
    proof {
        assert(Seq::<char>::empty() + strip_from(t@, 0) =~= strip_from(t@, 0));
    }
    loop
        invariant
            p <= t@.len(),
            strip_from(t@, 0) == out@ + strip_from(t@, p as int),
        decreases t@.len() - p,
    {
        match cmd_find_exec(&t, p) {
            None => {
                append_sub(&mut out, &t, p, n);
                return chars_to_string(&out);
            },
            Some((i, e, t0, t1, d0, w)) => {
                proof {
                    lemma_cmd_find(t@, p as int);
                }
                let ghost prev = out@;
                append_sub(&mut out, &t, p, i);
                proof {
                    assert((prev + t@.subrange(p as int, i as int)) + strip_from(t@, w + 2)
                        =~= prev + (t@.subrange(p as int, i as int) + strip_from(t@, w + 2)));
                }
                p = w + 2;
            },
        }
    }
}

/// The text-node contents of the document, as the HTML parser reads them,
/// in document order.  Parsing is deterministic, so they are a function of
/// the text alone.
pub uninterp spec fn dom_texts_of(html: Seq<char>) -> Seq<Seq<char>>;

/// The document re-parsed, mutated by the records, and serialized back.
/// Parsing, the ordered attribute map and serialization are deterministic,
/// so the result is a function of the text and the records alone.
pub uninterp spec fn dom_applied_of(
    html: Seq<char>,
    records: Seq<(int, Seq<char>, Seq<char>)>,
) -> Seq<char>;

/// Relies on kuchiki's `parse_html` and `descendants`: the contents of
/// every text node of the parsed document, in document order, named
/// `dom_texts_of`.
#[verifier::external_body]
fn dom_text_contents(html: &str) -> (r: Vec<String>)
    ensures
        texts_view(r@) == dom_texts_of(html@),
{
    let doc = kuchiki::parse_html().one(html);
    doc.descendants().filter_map(|n| n.as_text().map(|t| t.borrow().clone())).collect()
}

/// Relies on kuchiki's `parse_html`, `Attributes::insert` and its
/// serializer: the document re-parsed, each record in order setting its
/// attribute on the parent element of its text node (when that parent is
/// an element), and the tree serialized back; named `dom_applied_of`.
#[verifier::external_body]
fn dom_apply(html: &str, records: &Vec<Directive>) -> (r: String)
    ensures
        r@ == dom_applied_of(html@, records_view(records@)),
{
    let doc = kuchiki::parse_html().one(html);
    for rec in records.iter() {
        if let Some(node) = doc.descendants().filter(|n| n.as_text().is_some()).nth(rec.node) {
            if let Some(parent) = node.parent() {
                if let Some(el) = parent.as_element() {
                    el.attributes.borrow_mut().insert(rec.attr.as_str(), rec.value.clone());
                }
            }
        }
    }
    doc.to_string()
}

/// Applies the directive markers of the rendered document: every text
/// node's first marker sets its attribute on the node's parent element,
/// and the mutated tree is serialized with all markers stripped.  The
/// scan succeeds exactly when every marker's tokens are in the closed
/// vocabularies, and a success is exactly the marker-strip of the mutated
/// serialization.
pub fn apply_commands(html: &str) -> (r: Result<String, WikiError>)
    ensures
        r is Ok <==> collect_from(dom_texts_of(html@), 0) is Records,
        match r {
            Ok(out) => out@ == strip_spec(
                dom_applied_of(html@, outcome_records(collect_from(dom_texts_of(html@), 0))),
            ),
            Err(e) => match e {
                WikiError::UnknownAttribute { token } => collect_from(dom_texts_of(html@), 0)
                    == DirectiveOutcome::BadAttribute(token@),
                WikiError::UnknownTarget { token } => collect_from(dom_texts_of(html@), 0)
                    == DirectiveOutcome::BadTarget(token@),
                WikiError::UnresolvedVariable { .. } => false,
            },
        },
{
    let texts = dom_text_contents(html);
    match collect_directives(&texts) {
        Err(e) => Err(e),
        Ok(dirs) => {
            let applied = dom_apply(html, &dirs);
            Ok(strip_directives(applied.as_str()))
        },
    }
}

} // verus!
