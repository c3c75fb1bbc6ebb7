//! Crate-wide laws: what the preprocessing stages guarantee, stated over
//! the same spec functions the public contracts use.
use vstd::prelude::*;
use crate::text::match_at;
use crate::paths::{
    clean_path_spec, lemma_clean_idempotent, lemma_clean_nonspace, lemma_encode_identity,
    no_space_in,
};
use crate::links::{
    file_prefix, fix_rest_spec, local_prefix, next_title_split, starts_with, title_part,
    title_url,
};
use crate::variables::{
    block_open, block_close, block_span, clear_block, doc_map, find_ref, preprocess_spec,
    ref_close, ref_open, replace_from,
};
use crate::directives::{
    collect_from, style_token, text_directive, DirectiveOutcome,
};

verus! {

/// A document without a definition block and without a single reference
/// marker passes through variable preprocessing unchanged.
pub proof fn lemma_preprocess_identity(s: Seq<char>)
    requires
        block_span(s) is None,
        find_ref(s, 0) is None,
    ensures
        preprocess_spec(s) == Ok::<Seq<char>, Seq<char>>(s),
{
    assert(clear_block(s) == s);
    assert(s.subrange(0, s.len() as int) =~= s);
}

/// Every reference marker whose variable the store defines is substituted
/// in place: the text before the marker, the text around the `$name`
/// token, and the processed remainder are all preserved, and the stored
/// value stands where the token stood.
pub proof fn lemma_reference_substituted(
    s: Seq<char>,
    m: Map<Seq<char>, Seq<char>>,
    p: int,
    i: int,
    d: int,
    v: int,
    e: int,
)
    requires
        0 <= p <= s.len(),
        find_ref(s, p) == Some((i, d, v, e)),
        m.contains_key(s.subrange(d + 1, v)),
        replace_from(s, m, e) is Ok,
    ensures
        replace_from(s, m, p) == Ok::<Seq<char>, Seq<char>>(
            s.subrange(p, i) + ref_open() + s.subrange(i + 2, d) + m[s.subrange(d + 1, v)]
                + s.subrange(v, e - 2) + ref_close() + (replace_from(s, m, e) ->Ok_0),
        ),
{
}

/// Stripping the definition block removes exactly its span: from the first
/// block opener of the document to the end of the last closer.
pub proof fn lemma_block_stripped(s: Seq<char>, i: int, e: int)
    requires
        block_span(s) == Some((i, e)),
    ensures
        clear_block(s) == s.subrange(0, i) + s.subrange(e, s.len() as int),
        match_at(s, block_open(), i),
        match_at(s, block_close(), e - 4),
        forall|k: int| 0 <= k < i ==> !match_at(s, block_open(), k),
        forall|k: int| e - 3 <= k < s.len() ==> !match_at(s, block_close(), k),
{
    crate::text::lemma_first_match(s, block_open(), 0);
    let j = crate::text::last_match(s, block_close(), i + 4, s.len() as int);
    crate::text::lemma_last_match(s, block_close(), i + 4, s.len() as int);
}

/// The stripped document holds no definition block at all: the prefix
/// kept has no block opener, the suffix kept has no block closer, and the
/// seam is too narrow to hold an opener and a closer four positions
/// apart.
pub proof fn lemma_no_block_in_output(s: Seq<char>)
    requires
        block_span(s) is Some,
    ensures
        block_span(clear_block(s)) is None,
{
    let i = block_span(s)->Some_0.0;
    let e = block_span(s)->Some_0.1;
    let c = clear_block(s);
    crate::text::lemma_first_match(s, block_open(), 0);
    let j = crate::text::last_match(s, block_close(), i + 4, s.len() as int);
    crate::text::lemma_last_match(s, block_close(), i + 4, s.len() as int);
    if block_span(c) is Some {
        let a = crate::text::first_match(c, block_open(), 0);
        crate::text::lemma_first_match(c, block_open(), 0);
        let b = crate::text::last_match(c, block_close(), a + 4, c.len() as int);
        crate::text::lemma_last_match(c, block_close(), a + 4, c.len() as int);
        assert(match_at(c, block_open(), a));
        assert(match_at(c, block_close(), b));
        if a + 4 <= i {
            assert(match_at(s, block_open(), a)) by {
                assert(s.subrange(a, a + 4) =~= c.subrange(a, a + 4));
            }
            assert(false);
        }
        assert(b >= a + 4 >= i + 1);
        let k0 = e + b - i;
        assert(match_at(s, block_close(), k0)) by {
            assert(s.subrange(k0, k0 + 4) =~= c.subrange(b, b + 4));
        }
        assert(false);
    }
}

/// Whether the scan from `p` reaches only references the store defines.
pub open spec fn no_undefined_ref(s: Seq<char>, m: Map<Seq<char>, Seq<char>>, p: int) -> bool
    decreases s.len() - p,
        via no_undefined_ref_dec
{
    if !(0 <= p <= s.len()) {
        true
    } else {
        match find_ref(s, p) {
            None => true,
            Some((i, d, v, e)) => m.contains_key(s.subrange(d + 1, v)) && no_undefined_ref(
                s,
                m,
                e,
            ),
        }
    }
}

#[via_fn]
proof fn no_undefined_ref_dec(s: Seq<char>, m: Map<Seq<char>, Seq<char>>, p: int) {
    if 0 <= p <= s.len() {
        crate::variables::lemma_find_ref(s, p);
    }
}

/// Substitution succeeds exactly when every reference it reaches is
/// defined: an undefined variable is never passed through silently.
pub proof fn lemma_undefined_variable_fatal(s: Seq<char>, m: Map<Seq<char>, Seq<char>>, p: int)
    requires
        0 <= p <= s.len(),
    ensures
        replace_from(s, m, p) is Ok <==> no_undefined_ref(s, m, p),
    decreases s.len() - p,
{
    crate::variables::lemma_find_ref(s, p);
    match find_ref(s, p) {
        None => {
        },
        Some((i, d, v, e)) => {
            lemma_undefined_variable_fatal(s, m, e);
        },
    }
}

/// The position of the scan after `n` reference markers were processed;
/// the end of the text once the markers run out.
pub open spec fn scan_pos(s: Seq<char>, n: nat) -> int
    decreases n,
{
    if n == 0 {
        0
    } else {
        let p = scan_pos(s, (n - 1) as nat);
        if !(0 <= p <= s.len()) {
            s.len() as int
        } else {
            match find_ref(s, p) {
                Some((i, d, v, e)) => e,
                None => s.len() as int,
            }
        }
    }
}

/// The substituted text up to the `n`-th scan position: each reference
/// marker found so far spliced in place, and the marker-free tail once
/// the markers run out.  The undefined-variable case never contributes
/// under a successful run.
pub open spec fn subst_upto(s: Seq<char>, m: Map<Seq<char>, Seq<char>>, n: nat) -> Seq<char>
    decreases n,
{
    if n == 0 {
        Seq::empty()
    } else {
        let pre = subst_upto(s, m, (n - 1) as nat);
        let p = scan_pos(s, (n - 1) as nat);
        if !(0 <= p <= s.len()) {
            pre
        } else {
            match find_ref(s, p) {
                Some((i, d, v, e)) => pre + s.subrange(p, i) + ref_open() + s.subrange(i + 2, d)
                    + (if m.contains_key(s.subrange(d + 1, v)) {
                    m[s.subrange(d + 1, v)]
                } else {
                    Seq::empty()
                }) + s.subrange(v, e - 2) + ref_close(),
                None => pre + s.subrange(p, s.len() as int),
            }
        }
    }
}

/// Every reference marker, in scan order, is substituted: after any number
/// of markers the successful result decomposes into the spliced prefix so
/// far and the substituted remainder, each reached marker's variable being
/// defined.
pub proof fn lemma_every_reference_substituted(
    s: Seq<char>,
    m: Map<Seq<char>, Seq<char>>,
    n: nat,
)
    requires
        replace_from(s, m, 0) is Ok,
    ensures
        0 <= scan_pos(s, n) <= s.len(),
        replace_from(s, m, scan_pos(s, n)) is Ok,
        replace_from(s, m, 0)->Ok_0 == subst_upto(s, m, n) + (replace_from(
            s,
            m,
            scan_pos(s, n),
        )->Ok_0),
    decreases n,
{
    if n == 0 {
        assert(Seq::<char>::empty() + (replace_from(s, m, 0)->Ok_0) =~= replace_from(
            s,
            m,
            0,
        )->Ok_0);
    } else {
        lemma_every_reference_substituted(s, m, (n - 1) as nat);
        let p = scan_pos(s, (n - 1) as nat);
        let pre = subst_upto(s, m, (n - 1) as nat);
        crate::variables::lemma_find_ref(s, p);
        match find_ref(s, p) {
            None => {
                assert(replace_from(s, m, s.len() as int) == Ok::<Seq<char>, Seq<char>>(
                    s.subrange(s.len() as int, s.len() as int),
                ));
                assert((pre + s.subrange(p, s.len() as int)) + s.subrange(
                    s.len() as int,
                    s.len() as int,
                ) =~= pre + s.subrange(p, s.len() as int));
            },
            Some((i, d, v, e)) => {
                let var = s.subrange(d + 1, v);
                let piece = s.subrange(p, i) + ref_open() + s.subrange(i + 2, d) + m[var]
                    + s.subrange(v, e - 2) + ref_close();
                assert(m.contains_key(var) && replace_from(s, m, e) is Ok);
                assert(replace_from(s, m, p)->Ok_0 == piece + (replace_from(s, m, e)->Ok_0));
                assert(pre + (piece + (replace_from(s, m, e)->Ok_0)) =~= (pre + s.subrange(
                    p,
                    i,
                ) + ref_open() + s.subrange(i + 2, d) + m[var] + s.subrange(v, e - 2)
                    + ref_close()) + (replace_from(s, m, e)->Ok_0));
            },
        }
    }
}

/// The whole variable stage succeeds exactly when the stripped document
/// references only variables the block defined.
pub proof fn lemma_preprocess_total(s: Seq<char>)
    ensures
        preprocess_spec(s) is Ok <==> no_undefined_ref(clear_block(s), doc_map(s), 0),
{
    lemma_undefined_variable_fatal(clear_block(s), doc_map(s), 0);
}

proof fn lemma_records_propagate(texts: Seq<Seq<char>>, t: int, j: int)
    requires
        0 <= t <= j < texts.len(),
        collect_from(texts, t) is Records,
    ensures
        collect_from(texts, j) is Records,
    decreases j - t,
{
    if t < j {
        match text_directive(texts[t]) {
            None => {
            },
            Some((el, ty, da)) => {
            },
        }
        lemma_records_propagate(texts, t + 1, j);
    }
}

/// A directive whose attribute token is outside the closed vocabulary
/// always aborts the scan of the whole document, whatever the other text
/// nodes hold.
pub proof fn lemma_unknown_type_aborts(texts: Seq<Seq<char>>, j: int)
    requires
        0 <= j < texts.len(),
        text_directive(texts[j]) is Some,
        !style_token(text_directive(texts[j])->Some_0.1),
    ensures
        !(collect_from(texts, 0) is Records),
{
    if collect_from(texts, 0) is Records {
        lemma_records_propagate(texts, 0, j);
    }
}

proof fn lemma_no_space_no_title(s: Seq<char>, from: int)
    requires
        0 <= from <= s.len(),
        no_space_in(s),
    ensures
        next_title_split(s, from) == s.len(),
    decreases s.len() - from,
{
    if from < s.len() {
        lemma_no_space_no_title(s, from + 1);
    }
}

/// Resolving an already-resolved plain link a second time changes nothing:
/// on a target free of whitespace that carries no forcing prefix (and whose
/// resolution gains none), the non-internal resolution is idempotent.
pub proof fn lemma_resolution_idempotent(u: Seq<char>, input_dir: Seq<char>, output_dir: Seq<char>)
    requires
        no_space_in(u),
        !starts_with(u, file_prefix()),
        !starts_with(u, local_prefix()),
        !starts_with(fix_rest_spec(u, input_dir, output_dir), file_prefix()),
        !starts_with(fix_rest_spec(u, input_dir, output_dir), local_prefix()),
    ensures
        fix_rest_spec(fix_rest_spec(u, input_dir, output_dir), input_dir, output_dir)
            == fix_rest_spec(u, input_dir, output_dir),
{
    lemma_no_space_no_title(u, 0);
    assert(title_url(u) == u);
    assert(title_part(u) is None);
    lemma_clean_nonspace(u);
    assert(forall|k: int|
        0 <= k < clean_path_spec(u).len() ==> #[trigger] clean_path_spec(u)[k] != ' ');
    lemma_encode_identity(clean_path_spec(u));
    let r1 = fix_rest_spec(u, input_dir, output_dir);
    assert(r1 == clean_path_spec(u));
    assert(no_space_in(r1));
    lemma_no_space_no_title(r1, 0);
    assert(title_url(r1) == r1);
    assert(title_part(r1) is None);
    lemma_clean_nonspace(r1);
    assert(forall|k: int|
        0 <= k < clean_path_spec(r1).len() ==> #[trigger] clean_path_spec(r1)[k] != ' ');
    lemma_encode_identity(clean_path_spec(r1));
    lemma_clean_idempotent(u);
    assert(fix_rest_spec(r1, input_dir, output_dir) == clean_path_spec(clean_path_spec(u)));
}

} // verus!
