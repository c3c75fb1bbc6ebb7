//! The link classifier and rewriter.
//!
//! A markdown link target is classified as an internal wiki page (the target,
//! with its extension swapped for the configured wiki extension, exists
//! beside the source document), a forced-absolute `file:` reference, a
//! forced-relative `local:` reference, or a pass-through reference, and the
//! URI is rewritten accordingly.  The only filesystem access is the
//! existence probe, behind a trusted wrapper; everything after the probe is
//! verified for either outcome.
use vstd::prelude::*;
use crate::text::{
    append_sub, append_vec, chars_to_string, eq_at, find_last_match, find_match, first_match,
    is_space_char, last_match, lemma_first_match, lemma_last_match, lemma_run_end_space,
    match_at, run_end_space, space_char, str_chars,
};
use crate::paths::{
    clean_chars, clean_path_spec, diff_chars, diff_path_spec, dot_seg, dotdot_seg, encode_chars,
    encode_spaces, is_abs_path, join_chars, join_path, parent_dir_chars, parent_dir_spec,
    append_joined, copy_range, join_segs, path_segs, segs_from, segs_view, slash_pat, to_segs,
};

verus! {

pub open spec fn hash_pat() -> Seq<char> {
    seq!['#']
}

pub open spec fn file_prefix() -> Seq<char> {
    seq!['f', 'i', 'l', 'e', ':']
}

pub open spec fn local_prefix() -> Seq<char> {
    seq!['l', 'o', 'c', 'a', 'l', ':']
}

pub open spec fn html_ext() -> Seq<char> {
    seq!['.', 'h', 't', 'm', 'l']
}

/// The part of `s` before its fragment.  A fragment exists only when `s`
/// holds exactly one `#`; with none or several, the whole string is the path.
pub open spec fn frag_path(s: Seq<char>) -> Seq<char> {
    let h1 = first_match(s, hash_pat(), 0);
    if h1 == s.len() {
        s
    } else if first_match(s, hash_pat(), h1 + 1) == s.len() {
        s.subrange(0, h1)
    } else {
        s
    }
}

/// The fragment of `s`, when it holds exactly one `#`.
pub open spec fn frag_part(s: Seq<char>) -> Option<Seq<char>> {
    let h1 = first_match(s, hash_pat(), 0);
    if h1 == s.len() {
        None
    } else if first_match(s, hash_pat(), h1 + 1) == s.len() {
        Some(s.subrange(h1 + 1, s.len() as int))
    } else {
        None
    }
}

/// The last segment of a path (everything after the final separator).
pub open spec fn last_seg(p: Seq<char>) -> Seq<char> {
    p.subrange(last_match(p, slash_pat(), 0, p.len() as int) + 1, p.len() as int)
}

/// The target of an internal link must name a file: its last segment is
/// neither empty nor `.` nor `..`.
pub open spec fn vimwiki_target_ok(p: Seq<char>) -> bool {
    last_seg(p).len() > 0 && last_seg(p) != dot_seg() && last_seg(p) != dotdot_seg()
}

/// A segment with its extension removed.  A leading dot of the file name
/// does not open an extension.
pub open spec fn seg_stem(seg: Seq<char>) -> Seq<char> {
    let d = last_match(seg, dot_seg(), 1, seg.len() as int);
    if d == -1 {
        seg
    } else {
        seg.subrange(0, d)
    }
}

/// What the target keeps in front of its normalized segments: the root for
/// an absolute target, the current-directory mark when the target opens
/// with one.
pub open spec fn wiki_lead(p: Seq<char>) -> Seq<char> {
    if is_abs_path(p) {
        slash_pat()
    } else if p.len() >= 1 && p[0] == '.' && (p.len() == 1 || p[1] == '/') {
        seq!['.', '/']
    } else {
        Seq::empty()
    }
}

/// The target of an internal wiki link with its extension removed: the
/// directory part is re-assembled from its segments (empty and `.`
/// segments vanish) and the file name loses its extension.
pub open spec fn strip_ext(p: Seq<char>) -> Seq<char> {
    let segs = path_segs(p);
    if segs.len() == 0 {
        wiki_lead(p)
    } else {
        wiki_lead(p) + join_segs(segs.drop_last().push(seg_stem(segs.last())))
    }
}

/// The rewritten target of an internal wiki link: the extension is replaced
/// by `.html`, and a fragment is re-appended with its spaces encoded.
pub open spec fn fix_vimwiki_spec(uri: Seq<char>) -> Seq<char> {
    let p = frag_path(uri);
    match frag_part(uri) {
        Some(fr) => strip_ext(p) + html_ext() + hash_pat() + encode_spaces(fr),
        None => strip_ext(p) + html_ext(),
    }
}

/// A target whose last raw segment names a file contributes at least that
/// segment to the split.
proof fn lemma_target_segs(p: Seq<char>, i: int)
    requires
        vimwiki_target_ok(p),
        0 <= i <= last_match(p, slash_pat(), 0, p.len() as int) + 1,
    ensures
        segs_from(p, i).len() >= 1,
    decreases p.len() - i,
{
    let lm = last_match(p, slash_pat(), 0, p.len() as int);
    lemma_last_match(p, slash_pat(), 0, p.len() as int);
    crate::text::lemma_first_of_two(p, i, '/', '/');
    let k = crate::text::first_of_two(p, i, '/', '/');
    if i <= lm {
        assert(match_at(p, slash_pat(), lm)) by {
            assert(p.subrange(lm, lm + 1) =~= seq![p[lm]]);
        }
        assert(p[lm] == '/') by {
            assert(p.subrange(lm, lm + 1)[0] == p[lm]);
        }
        assert(k <= lm);
        lemma_target_segs(p, k + 1);
    } else {
        assert(i == lm + 1);
        assert(k == p.len()) by {
            if k < p.len() {
                assert(match_at(p, slash_pat(), k)) by {
                    assert(p.subrange(k, k + 1) =~= slash_pat());
                }
            }
        }
        assert(p.subrange(i, k) == last_seg(p));
    }
}

/// First position `>= from` that begins a whitespace run immediately
/// followed by a double quote; `s.len()` when there is none.
pub open spec fn next_title_split(s: Seq<char>, from: int) -> int
    decreases s.len() - from,
{
    if !(0 <= from < s.len()) {
        s.len() as int
    } else if is_space_char(s[from]) && run_end_space(s, from) < s.len() && s[run_end_space(
        s,
        from,
    )] == '"' {
        from
    } else {
        next_title_split(s, from + 1)
    }
}

proof fn lemma_next_title_split(s: Seq<char>, from: int)
    requires
        0 <= from <= s.len(),
    ensures
        from <= next_title_split(s, from) <= s.len(),
        next_title_split(s, from) < s.len() ==> {
            let m = next_title_split(s, from);
            is_space_char(s[m]) && run_end_space(s, m) < s.len() && s[run_end_space(s, m)] == '"'
        },
    decreases s.len() - from,
{
    if 0 <= from < s.len() && !(is_space_char(s[from]) && run_end_space(s, from) < s.len()
        && s[run_end_space(s, from)] == '"') {
        lemma_next_title_split(s, from + 1);
    }
}

/// The target part of a URI with an optional quoted title: the title split
/// applies only when exactly one whitespace-and-quote separator occurs.
pub open spec fn title_url(s: Seq<char>) -> Seq<char> {
    let m1 = next_title_split(s, 0);
    if m1 == s.len() {
        s
    } else if next_title_split(s, run_end_space(s, m1) + 1) == s.len() {
        s.subrange(0, m1)
    } else {
        s
    }
}

/// The title part of a URI, when the split applies: everything after the
/// opening quote, the quote itself not included.
pub open spec fn title_part(s: Seq<char>) -> Option<Seq<char>> {
    let m1 = next_title_split(s, 0);
    if m1 == s.len() {
        None
    } else if next_title_split(s, run_end_space(s, m1) + 1) == s.len() {
        Some(s.subrange(run_end_space(s, m1) + 1, s.len() as int))
    } else {
        None
    }
}

pub open spec fn starts_with(s: Seq<char>, pat: Seq<char>) -> bool {
    match_at(s, pat, 0)
}

/// No segment of `s` is `..`; lexical diffing against such a base is total.
pub open spec fn no_updirs(s: Seq<char>) -> bool {
    forall|i: int| 0 <= i < path_segs(s).len() ==> path_segs(s)[i] != dotdot_seg()
}

/// The rewritten target of a non-internal link.  A `file:` target is forced
/// absolute, a `local:` target is re-based onto the output directory, and a
/// bare target passes through; all three are lexically cleaned and
/// space-encoded, and a quoted title is re-attached.
pub open spec fn fix_rest_spec(uri: Seq<char>, input_dir: Seq<char>, output_dir: Seq<char>)
    -> Seq<char> {
    let url = title_url(uri);
    let core = if starts_with(url, file_prefix()) {
        let x = url.subrange(file_prefix().len() as int, url.len() as int);
        if is_abs_path(x) {
            x
        } else {
            join_path(input_dir, x)
        }
    } else if starts_with(url, local_prefix()) {
        let x = url.subrange(local_prefix().len() as int, url.len() as int);
        diff_path_spec(join_path(input_dir, x), output_dir)
    } else {
        url
    };
    let cleaned = encode_spaces(clean_path_spec(core));
    match title_part(uri) {
        Some(t) => cleaned + seq![' ', '"'] + t,
        None => cleaned,
    }
}

/// The rewritten markdown link, as the pipeline prints it.
pub open spec fn link_text(alt: Seq<char>, uri: Seq<char>) -> Seq<char> {
    seq!['['] + alt + seq![']', '('] + uri + seq![')']
}

/// The context every resolution shares.  The resolution model works over
/// absolute paths: the source document is an absolute file path, and the
/// output directory is absolute — the forced-relative branch is a lexical
/// diff between the two absolute paths.  The output directory holds no
/// `..` segment, which keeps that diff total; a `..` surviving to the
/// walk's first mismatch would leave it undefined.
pub open spec fn resolution_ctx_ok(input_file: Seq<char>, output_dir: Seq<char>) -> bool {
    &&& is_abs_path(input_file)
    &&& input_file.last() != '/'
    &&& is_abs_path(output_dir)
    &&& no_updirs(output_dir)
}

fn hash_vec() -> (r: Vec<char>)
    ensures
        r@ == hash_pat(),
{
    let mut v: Vec<char> = Vec::new();
    v.push('#');
    proof {
        assert(v@ =~= hash_pat());
    }
    v
}

/// Splits a URI on its single `#`, if it has exactly one.
fn frag_split(u: &Vec<char>) -> (r: (Vec<char>, Option<Vec<char>>))
    ensures
        r.0@ == frag_path(u@),
        match r.1 {
            Some(f) => frag_part(u@) == Some(f@),
            None => frag_part(u@) is None,
        },
{
    let pat = hash_vec();
    let h1 = find_match(u, &pat, 0);
    proof {
        lemma_first_match(u@, hash_pat(), 0);
    }
    if h1 == u.len() {
        let mut p: Vec<char> = Vec::new();
        append_vec(&mut p, u);
        proof {
            assert(p@ =~= u@);
        }
        return (p, None);
    }
    let h2 = find_match(u, &pat, h1 + 1);
    proof {
        lemma_first_match(u@, hash_pat(), h1 + 1);
    }
    if h2 == u.len() {
        let mut p: Vec<char> = Vec::new();
        append_sub(&mut p, u, 0, h1);
        let mut f: Vec<char> = Vec::new();
        append_sub(&mut f, u, h1 + 1, u.len());
        proof {
            assert(p@ =~= frag_path(u@));
            assert(f@ =~= u@.subrange(h1 + 1, u@.len() as int));
        }
        (p, Some(f))
    } else {
        let mut p: Vec<char> = Vec::new();
        append_vec(&mut p, u);
        proof {
            assert(p@ =~= u@);
        }
        (p, None)
    }
}

/// Splits a URI into its display path and optional fragment, as the
/// classifier sees them.
pub fn handle_fragment(uri: &str) -> (r: (String, Option<String>))
    ensures
        r.0@ == frag_path(uri@),
        match r.1 {
            Some(f) => frag_part(uri@) == Some(f@),
            None => frag_part(uri@) is None,
        },
{
    let u = str_chars(uri);
    let (p, f) = frag_split(&u);
    let ps = chars_to_string(&p);
    match f {
        Some(fv) => (ps, Some(chars_to_string(&fv))),
        None => (ps, None),
    }
}

/// Replaces the extension of the target with `.html` and re-appends an
/// encoded fragment, on the character level.
fn fix_vimwiki_chars(u: &Vec<char>) -> (r: Vec<char>)
    requires
        vimwiki_target_ok(frag_path(u@)),
    ensures
        r@ == fix_vimwiki_spec(u@),
{
    let (p, f) = frag_split(u);
    let mut dotp: Vec<char> = Vec::new();
    dotp.push('.');
    proof {
        assert(dotp@ =~= dot_seg());
    }
    let mut segs = to_segs(&p);
    let ghost sv = segs_view(segs@);
    proof {
        lemma_last_match(p@, slash_pat(), 0, p@.len() as int);
        lemma_target_segs(p@, 0);
    }
    let lastidx = segs.len() - 1;
    let d: Option<usize> = {
        let lastseg = &segs[lastidx];
        if lastseg.len() >= 2 {
            proof {
                lemma_last_match(lastseg@, dot_seg(), 1, lastseg@.len() as int);
            }
            find_last_match(lastseg, &dotp, 1, lastseg.len())
        } else {
            None
        }
    };
    let stem: Vec<char> = {
        let lastseg = &segs[lastidx];
        match d {
            Some(dv) => copy_range(lastseg, 0, dv),
            None => copy_range(lastseg, 0, lastseg.len()),
        }
    };
    proof {
        assert(stem@ =~= seg_stem(sv.last()));
    }
    segs.set(lastidx, stem);
    proof {
        assert(segs_view(segs@) =~= sv.drop_last().push(seg_stem(sv.last())));
    }
    let mut out: Vec<char> = Vec::new();
    if p.len() > 0 && p[0] == '/' {
        out.push('/');
        proof {
            assert(out@ =~= wiki_lead(p@));
        }
    } else if p.len() >= 1 && p[0] == '.' && (p.len() == 1 || p[1] == '/') {
        out.push('.');
        out.push('/');
        proof {
            assert(out@ =~= wiki_lead(p@));
        }
    } else {
        proof {
            assert(out@ =~= wiki_lead(p@));
        }
    }
    append_joined(&mut out, &segs);
    proof {
        assert(out@ =~= strip_ext(frag_path(u@)));
    }
    out.push('.');
    out.push('h');
    out.push('t');
    out.push('m');
    out.push('l');
    proof {
        assert(out@ =~= strip_ext(frag_path(u@)) + html_ext());
    }
    match f {
        Some(fv) => {
            out.push('#');
            let enc = encode_chars(&fv);
            append_vec(&mut out, &enc);
            proof {
                assert(out@ =~= strip_ext(frag_path(u@)) + html_ext() + hash_pat()
                    + encode_spaces(fv@));
            }
        },
        None => {
        },
    }
    out
}

/// Rewrites the target of an internal wiki link to its published `.html`
/// form, keeping any fragment with its spaces encoded.
pub fn fix_link_vimwiki(uri: &str) -> (r: String)
    requires
        vimwiki_target_ok(frag_path(uri@)),
    ensures
        r@ == fix_vimwiki_spec(uri@),
{
    let u = str_chars(uri);
    let out = fix_vimwiki_chars(&u);
    chars_to_string(&out)
}

/// Finds the title split of `u`: the start of the first whitespace run
/// followed by a quote.
fn find_title_split(u: &Vec<char>, from: usize) -> (r: usize)
    requires
        from <= u@.len(),
    ensures
        r == next_title_split(u@, from as int),
{
    let mut i = from;
    while i < u.len()
        invariant
            from <= i <= u@.len(),
            next_title_split(u@, from as int) == next_title_split(u@, i as int),
        decreases u@.len() - i,
    {
        if space_char(u[i]) {
            let mut e = i;
            while e < u.len() && space_char(u[e])
                invariant
                    i <= e <= u@.len(),
                    run_end_space(u@, i as int) == run_end_space(u@, e as int),
                decreases u@.len() - e,
            {
                e += 1;
            }
            proof {
                lemma_run_end_space(u@, i as int);
                assert(e as int == run_end_space(u@, i as int));
            }
            if e < u.len() && u[e] == '"' {
                return i;
            }
        }
        i += 1;
    }
    u.len()
}

/// Splits a URI into its target and optional quoted title.
fn title_split(u: &Vec<char>) -> (r: (Vec<char>, Option<Vec<char>>))
    ensures
        r.0@ == title_url(u@),
        match r.1 {
            Some(t) => title_part(u@) == Some(t@),
            None => title_part(u@) is None,
        },
{
    let m1 = find_title_split(u, 0);
    proof {
        lemma_next_title_split(u@, 0);
    }
    if m1 == u.len() {
        let mut p: Vec<char> = Vec::new();
        append_vec(&mut p, u);
        proof {
            assert(p@ =~= u@);
        }
        return (p, None);
    }
    let mut e = m1;
    while e < u.len() && space_char(u[e])
        invariant
            m1 <= e <= u@.len(),
            run_end_space(u@, m1 as int) == run_end_space(u@, e as int),
        decreases u@.len() - e,
    {
        e += 1;
    }
    proof {
        lemma_run_end_space(u@, m1 as int);
        assert(e as int == run_end_space(u@, m1 as int));
        assert(e < u@.len());
    }
    let m2 = find_title_split(u, e + 1);
    proof {
        lemma_next_title_split(u@, e + 1);
    }
    if m2 == u.len() {
        let mut p: Vec<char> = Vec::new();
        append_sub(&mut p, u, 0, m1);
        let mut t: Vec<char> = Vec::new();
        append_sub(&mut t, u, e + 1, u.len());
        proof {
            assert(p@ =~= u@.subrange(0, m1 as int));
            assert(t@ =~= u@.subrange(e + 1, u@.len() as int));
        }
        (p, Some(t))
    } else {
        let mut p: Vec<char> = Vec::new();
        append_vec(&mut p, u);
        proof {
            assert(p@ =~= u@);
        }
        (p, None)
    }
}

/// The characters of `u` after its first `n`.
fn skip_prefix(u: &Vec<char>, n: usize) -> (r: Vec<char>)
    requires
        n <= u@.len(),
    ensures
        r@ == u@.subrange(n as int, u@.len() as int),
{
    let mut out: Vec<char> = Vec::new();
    append_sub(&mut out, u, n, u.len());
    proof {
        assert(out@ =~= u@.subrange(n as int, u@.len() as int));
    }
    out
}

fn file_prefix_vec() -> (r: Vec<char>)
    ensures
        r@ == file_prefix(),
{
    let mut v: Vec<char> = Vec::new();
    v.push('f');
    v.push('i');
    v.push('l');
    v.push('e');
    v.push(':');
    proof {
        assert(v@ =~= file_prefix());
    }
    v
}

fn local_prefix_vec() -> (r: Vec<char>)
    ensures
        r@ == local_prefix(),
{
    let mut v: Vec<char> = Vec::new();
    v.push('l');
    v.push('o');
    v.push('c');
    v.push('a');
    v.push('l');
    v.push(':');
    proof {
        assert(v@ =~= local_prefix());
    }
    v
}

/// Rewrites a non-internal link target against the resolution context.
fn fix_rest_chars(u: &Vec<char>, input_dir: &Vec<char>, output_dir: &Vec<char>) -> (r: Vec<char>)
    requires
        is_abs_path(input_dir@),
        is_abs_path(output_dir@),
        no_updirs(output_dir@),
    ensures
        r@ == fix_rest_spec(u@, input_dir@, output_dir@),
{
    let (url, title) = title_split(u);
    let filep = file_prefix_vec();
    let localp = local_prefix_vec();
    let core: Vec<char> = if eq_at(&url, 0, &filep) {
        let x = skip_prefix(&url, filep.len());
        if x.len() > 0 && x[0] == '/' {
            x
        } else {
            join_chars(input_dir, &x)
        }
    } else if eq_at(&url, 0, &localp) {
        let x = skip_prefix(&url, localp.len());
        let joined = join_chars(input_dir, &x);
        diff_chars(&joined, output_dir)
    } else {
        url
    };
    let cleaned = clean_chars(&core);
    let mut out = encode_chars(&cleaned);
    match title {
        Some(t) => {
            out.push(' ');
            out.push('"');
            append_vec(&mut out, &t);
            proof {
                assert(out@ =~= encode_spaces(clean_path_spec(core@)) + seq![' ', '"'] + t@);
            }
            out
        },
        None => out,
    }
}

/// Relies on std's `Path::is_file`: whether a regular file exists at the
/// given path right now.  The answer depends on the disk, so nothing is
/// promised of it.
#[verifier::external_body]
fn probe_is_file(path: &Vec<char>) -> bool {
    let s: String = path.iter().collect();
    std::path::Path::new(&s).is_file()
}

/// Builds the probe path for classification: the target joined onto the
/// source directory, with the extension of its file name swapped for the
/// wiki extension.  Trailing separators are ignored and a name of `.` or
/// `..` carries no extension, as the platform's file-name lookup has it.
/// Only the probe reads the result, so no more is stated.
fn build_probe_path(p: &Vec<char>, input_dir: &Vec<char>, extension: &Vec<char>) -> Vec<char> {
    let joined = join_chars(input_dir, p);
    let mut end = joined.len();
    while end > 0 && joined[end - 1] == '/'
        invariant
            end <= joined@.len(),
        decreases end,
    {
        end -= 1;
    }
    if end == 0 {
        return joined;
    }
    let mut slash: Vec<char> = Vec::new();
    slash.push('/');
    proof {
        assert(slash@ =~= slash_pat());
    }
    let mut dotp: Vec<char> = Vec::new();
    dotp.push('.');
    proof {
        assert(dotp@ =~= dot_seg());
    }
    let sl = find_last_match(&joined, &slash, 0, end);
    proof {
        lemma_last_match(joined@, slash_pat(), 0, end as int);
    }
    let start: usize = match sl {
        Some(v) => v + 1,
        None => 0,
    };
    let n = end - start;
    if n == 0 || (n == 1 && joined[start] == '.') || (n == 2 && joined[start] == '.' && joined[
        start + 1
    ] == '.') {
        return joined;
    }
    let d: Option<usize> = if end - start >= 2 {
        proof {
            lemma_last_match(joined@, dot_seg(), start + 1, end as int);
        }
        find_last_match(&joined, &dotp, start + 1, end)
    } else {
        None
    };
    let mut out: Vec<char> = Vec::new();
    match d {
        Some(dv) => {
            append_sub(&mut out, &joined, 0, dv);
        },
        None => {
            append_sub(&mut out, &joined, 0, end);
        },
    }
    out.push('.');
    append_vec(&mut out, extension);
    out
}

/// Rewrites one link whose classification is already decided: `is_wiki`
/// true resolves an internal wiki page, false resolves the target against
/// the context.  An internal target that could not name a file falls back
/// to the non-internal branch.
pub fn fix_link_classified(
    alt: &str,
    uri: &str,
    input_file: &str,
    output_dir: &str,
    is_wiki: bool,
) -> (r: String)
    requires
        resolution_ctx_ok(input_file@, output_dir@),
    ensures
        r@ == link_text(
            alt@,
            if is_wiki && vimwiki_target_ok(frag_path(uri@)) {
                fix_vimwiki_spec(uri@)
            } else {
                fix_rest_spec(uri@, parent_dir_spec(input_file@), output_dir@)
            },
        ),
{
    let a = str_chars(alt);
    let u = str_chars(uri);
    let inf = str_chars(input_file);
    let outd = str_chars(output_dir);
    let input_dir = parent_dir_chars(&inf);
    proof {
        lemma_last_match(inf@, slash_pat(), 0, inf@.len() as int);
        assert(match_at(inf@, slash_pat(), 0)) by {
            assert(inf@.subrange(0, 1) =~= slash_pat());
        }
        assert(is_abs_path(parent_dir_spec(inf@))) by {
            let lm = last_match(inf@, slash_pat(), 0, inf@.len() as int);
            if lm > 0 {
                assert(parent_dir_spec(inf@)[0] == inf@[0]);
            }
        }
    }
    let target: Vec<char> = if is_wiki {
        let (p, _) = frag_split(&u);
        if seg_ok(&p) {
            fix_vimwiki_chars(&u)
        } else {
            fix_rest_chars(&u, &input_dir, &outd)
        }
    } else {
        fix_rest_chars(&u, &input_dir, &outd)
    };
    let mut out: Vec<char> = Vec::new();
    out.push('[');
    append_vec(&mut out, &a);
    out.push(']');
    out.push('(');
    append_vec(&mut out, &target);
    out.push(')');
    proof {
        assert(out@ =~= link_text(a@, target@));
    }
    chars_to_string(&out)
}

/// Whether a path's last segment can name a file.
fn seg_ok(p: &Vec<char>) -> (r: bool)
    ensures
        r == vimwiki_target_ok(p@),
{
    let mut slash: Vec<char> = Vec::new();
    slash.push('/');
    proof {
        assert(slash@ =~= slash_pat());
    }
    let sl = find_last_match(p, &slash, 0, p.len());
    proof {
        lemma_last_match(p@, slash_pat(), 0, p@.len() as int);
    }
    let start: usize = match sl {
        Some(v) => v + 1,
        None => 0,
    };
    let n = p.len() - start;
    if n == 0 {
        proof {
            assert(last_seg(p@) =~= p@.subrange(p@.len() as int, p@.len() as int));
        }
        return false;
    }
    if n == 1 && p[start] == '.' {
        proof {
            assert(last_seg(p@) =~= dot_seg());
        }
        return false;
    }
    if n == 2 && p[start] == '.' && p[start + 1] == '.' {
        proof {
            assert(last_seg(p@) =~= dotdot_seg());
        }
        return false;
    }
    proof {
        assert(last_seg(p@).len() == n);
        if last_seg(p@) == dot_seg() {
            assert(last_seg(p@)[0] == p@[start as int]);
            assert(false);
        }
        if last_seg(p@) == dotdot_seg() {
            assert(last_seg(p@)[0] == p@[start as int]);
            assert(last_seg(p@)[1] == p@[start + 1]);
            assert(false);
        }
    }
    true
}

/// Handles an input link split in `alt` and `uri` and returns a correct
/// markdown link: an existing wiki page beside the source document is
/// rewritten to its `.html` form, and every other target is resolved
/// against the context.  Whatever the probe answers, the result is one of
/// those two resolutions.
pub fn fix_link(
    alt: &str,
    uri: &str,
    input_file: &str,
    output_dir: &str,
    extension: &str,
) -> (r: String)
    requires
        resolution_ctx_ok(input_file@, output_dir@),
    ensures
        r@ == link_text(alt@, fix_vimwiki_spec(uri@)) && vimwiki_target_ok(frag_path(uri@))
            || r@ == link_text(alt@, fix_rest_spec(uri@, parent_dir_spec(input_file@), output_dir@)),
{
    let u = str_chars(uri);
    let inf = str_chars(input_file);
    let ext = str_chars(extension);
    let input_dir = parent_dir_chars(&inf);
    proof {
        assert(match_at(inf@, slash_pat(), 0)) by {
            assert(inf@.subrange(0, 1) =~= slash_pat());
        }
    }
    let (p, _) = frag_split(&u);
    let probe = build_probe_path(&p, &input_dir, &ext);
    let is_wiki = probe_is_file(&probe);
    fix_link_classified(alt, uri, input_file, output_dir, is_wiki)
}

} // verus!
