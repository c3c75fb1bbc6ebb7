//! The path normalizer: space encoding and lexical path algebra.
//!
//! Paths are handled purely as text.  A path is split into its segments
//! (empty segments and `.` segments are dropped, as the platform's component
//! iterator does), `..` segments are collapsed against a preceding real
//! segment, and paths can be joined and diffed lexically.  No function here
//! touches the filesystem.
use vstd::prelude::*;
use crate::text::{
    append_sub, append_vec, chars_to_string, first_of_two, last_match, lemma_first_of_two,
    lemma_last_match, str_chars, eq_at, find_last_match, match_at,
};

verus! {

pub open spec fn pct20() -> Seq<char> {
    seq!['%', '2', '0']
}

pub open spec fn dot_seg() -> Seq<char> {
    seq!['.']
}

pub open spec fn dotdot_seg() -> Seq<char> {
    seq!['.', '.']
}

pub open spec fn slash_pat() -> Seq<char> {
    seq!['/']
}

/// Every space character percent-encoded as `%20`, all else unchanged.
pub open spec fn encode_spaces(s: Seq<char>) -> Seq<char>
    decreases s.len(),
{
    if s.len() == 0 {
        Seq::empty()
    } else {
        encode_spaces(s.drop_last()) + (if s.last() == ' ' {
            pct20()
        } else {
            seq![s.last()]
        })
    }
}

pub open spec fn is_abs_path(s: Seq<char>) -> bool {
    s.len() > 0 && s[0] == '/'
}

/// The path segments of `s` starting at `i`: split on `/`, with empty and
/// `.` segments dropped.
pub open spec fn segs_from(s: Seq<char>, i: int) -> Seq<Seq<char>>
    decreases s.len() - i,
        via segs_from_dec
{
    if i < 0 || i >= s.len() {
        Seq::empty()
    } else {
        let k = first_of_two(s, i, '/', '/');
        let seg = s.subrange(i, k);
        let rest = if k < s.len() {
            segs_from(s, k + 1)
        } else {
            Seq::empty()
        };
        if seg.len() == 0 || seg == dot_seg() {
            rest
        } else {
            seq![seg] + rest
        }
    }
}

#[via_fn]
proof fn segs_from_dec(s: Seq<char>, i: int) {
    if 0 <= i < s.len() {
        lemma_first_of_two(s, i, '/', '/');
    }
}

pub open spec fn path_segs(s: Seq<char>) -> Seq<Seq<char>> {
    segs_from(s, 0)
}

/// Folds segments left to right, collapsing `..` against a preceding real
/// segment; against the root it vanishes, at the head of a relative path it
/// is kept.
pub open spec fn clean_stack(segs: Seq<Seq<char>>, abs: bool) -> Seq<Seq<char>>
    decreases segs.len(),
{
    if segs.len() == 0 {
        Seq::empty()
    } else {
        let pre = clean_stack(segs.drop_last(), abs);
        let last = segs.last();
        if last == dotdot_seg() {
            if pre.len() > 0 && pre.last() != dotdot_seg() {
                pre.drop_last()
            } else if pre.len() == 0 && abs {
                pre
            } else {
                pre.push(last)
            }
        } else {
            pre.push(last)
        }
    }
}

/// Segments joined with `/` separators.
pub open spec fn join_segs(segs: Seq<Seq<char>>) -> Seq<char>
    decreases segs.len(),
{
    if segs.len() == 0 {
        Seq::empty()
    } else if segs.len() == 1 {
        segs[0]
    } else {
        join_segs(segs.drop_last()) + slash_pat() + segs.last()
    }
}

/// Lexical cleaning of a path: `.` and duplicate separators vanish, `..` is
/// collapsed only against a preceding real segment.  An emptied relative
/// path becomes `.`, an emptied absolute path becomes `/`.
pub open spec fn clean_path_spec(s: Seq<char>) -> Seq<char> {
    let abs = is_abs_path(s);
    let kept = clean_stack(path_segs(s), abs);
    if abs {
        slash_pat() + join_segs(kept)
    } else if kept.len() == 0 {
        dot_seg()
    } else {
        join_segs(kept)
    }
}

/// `n` copies of the `..` segment.
pub open spec fn ups(n: int) -> Seq<Seq<char>> {
    if n > 0 {
        Seq::new(n as nat, |j: int| dotdot_seg())
    } else {
        Seq::empty()
    }
}

/// The lexical diff of two segment lists: the shared prefix is dropped, one
/// `..` is emitted for every remaining segment of the base, then the rest of
/// the target follows.
pub open spec fn diff_from(a: Seq<Seq<char>>, b: Seq<Seq<char>>, i: int) -> Seq<Seq<char>>
    decreases a.len() - i,
{
    if 0 <= i < a.len() && i < b.len() && a[i] == b[i] {
        diff_from(a, b, i + 1)
    } else {
        ups(b.len() - i) + (if 0 <= i <= a.len() {
            a.subrange(i, a.len() as int)
        } else {
            Seq::empty()
        })
    }
}

/// The path from `base` to `path`, both absolute, as produced by a lexical
/// component walk.
pub open spec fn diff_path_spec(path: Seq<char>, base: Seq<char>) -> Seq<char> {
    join_segs(diff_from(path_segs(path), path_segs(base), 0))
}

/// `rel` appended to `base` with a single separator; an absolute `rel`
/// replaces `base` entirely.
pub open spec fn join_path(base: Seq<char>, rel: Seq<char>) -> Seq<char> {
    if is_abs_path(rel) {
        rel
    } else if base.len() == 0 {
        rel
    } else if base.last() == '/' {
        base + rel
    } else {
        base + slash_pat() + rel
    }
}

/// The directory that holds the file named by the absolute path `s`.
pub open spec fn parent_dir_spec(s: Seq<char>) -> Seq<char> {
    let r = last_match(s, slash_pat(), 0, s.len() as int);
    if r <= 0 {
        slash_pat()
    } else {
        s.subrange(0, r)
    }
}

/// The views of a vector of segments.
pub open spec fn segs_view(v: Seq<Vec<char>>) -> Seq<Seq<char>> {
    Seq::new(v.len(), |i: int| v[i]@)
}

proof fn lemma_segs_view_push(v: Seq<Vec<char>>, x: Vec<char>)
    ensures
        segs_view(v.push(x)) == segs_view(v).push(x@),
{
    assert(segs_view(v.push(x)) =~= segs_view(v).push(x@));
}

proof fn lemma_segs_view_drop_last(v: Seq<Vec<char>>)
    requires
        v.len() > 0,
    ensures
        segs_view(v.drop_last()) == segs_view(v).drop_last(),
{
    assert(segs_view(v.drop_last()) =~= segs_view(v).drop_last());
}

/// Replaces every space of `v` with `%20`.
pub(crate) fn encode_chars(v: &Vec<char>) -> (r: Vec<char>)
    ensures
        r@ == encode_spaces(v@),
{
    let mut out: Vec<char> = Vec::new();
    let mut i: usize = 0;
    while i < v.len()
        invariant
            i <= v@.len(),
            out@ == encode_spaces(v@.take(i as int)),
        decreases v@.len() - i,
    {
        if v[i] == ' ' {
            out.push('%');
            out.push('2');
            out.push('0');
        } else {
            out.push(v[i]);
        }
        i += 1;
        proof {
            assert(v@.take(i as int).drop_last() =~= v@.take(i - 1));
            assert(out@ =~= encode_spaces(v@.take(i as int)));
        }
    }
    proof {
        assert(v@.take(v@.len() as int) =~= v@);
    }
    out
}

/// Percent-encodes the spaces of a path string.
pub fn handle_spaces(path: &str) -> (r: String)
    ensures
        r@ == encode_spaces(path@),
{
    let v = str_chars(path);
    let out = encode_chars(&v);
    chars_to_string(&out)
}

/// A space never survives encoding, and `%`, `2`, `0` are left alone, so
/// encoding an already encoded path changes nothing.
pub proof fn lemma_encode_no_space(s: Seq<char>)
    ensures
        forall|k: int| 0 <= k < encode_spaces(s).len() ==> encode_spaces(s)[k] != ' ',
    decreases s.len(),
{
    if s.len() > 0 {
        lemma_encode_no_space(s.drop_last());
        let pre = encode_spaces(s.drop_last());
        let tail: Seq<char> = if s.last() == ' ' {
            pct20()
        } else {
            seq![s.last()]
        };
        assert forall|k: int| 0 <= k < encode_spaces(s).len() implies encode_spaces(s)[k]
            != ' ' by {
            if k < pre.len() {
                assert(encode_spaces(s)[k] == pre[k]);
            } else {
                assert(encode_spaces(s)[k] == tail[k - pre.len()]);
            }
        }
    }
}

pub proof fn lemma_encode_identity(s: Seq<char>)
    requires
        forall|k: int| 0 <= k < s.len() ==> s[k] != ' ',
    ensures
        encode_spaces(s) == s,
    decreases s.len(),
{
    if s.len() > 0 {
        assert forall|k: int| 0 <= k < s.drop_last().len() implies s.drop_last()[k] != ' ' by {
            assert(s.drop_last()[k] == s[k]);
        }
        lemma_encode_identity(s.drop_last());
        assert(encode_spaces(s) =~= s);
    } else {
        assert(encode_spaces(s) =~= s);
    }
}

fn is_seg_dot(v: &Vec<char>, i: usize, j: usize) -> (r: bool)
    requires
        i <= j <= v@.len(),
    ensures
        r == (v@.subrange(i as int, j as int) == dot_seg()),
{
    if j - i == 1 && v[i] == '.' {
        proof {
            assert(v@.subrange(i as int, j as int) =~= dot_seg());
        }
        true
    } else {
        proof {
            if v@.subrange(i as int, j as int) == dot_seg() {
                assert(v@.subrange(i as int, j as int).len() == 1);
                assert(v@.subrange(i as int, j as int)[0] == v@[i as int]);
                assert(v@[i as int] == '.');
            }
        }
        false
    }
}

fn is_dotdot(v: &Vec<char>) -> (r: bool)
    ensures
        r == (v@ == dotdot_seg()),
{
    if v.len() == 2 && v[0] == '.' && v[1] == '.' {
        proof {
            assert(v@ =~= dotdot_seg());
        }
        true
    } else {
        proof {
            if v@ == dotdot_seg() {
                assert(v@.len() == 2 && v@[0] == '.' && v@[1] == '.');
            }
        }
        false
    }
}

pub(crate) fn copy_range(v: &Vec<char>, i: usize, j: usize) -> (r: Vec<char>)
    requires
        i <= j <= v@.len(),
    ensures
        r@ == v@.subrange(i as int, j as int),
{
    let mut out: Vec<char> = Vec::new();
    append_sub(&mut out, v, i, j);
    out
}

/// Splits `v` into its path segments.
#[verifier::rlimit(60)]
pub(crate) fn to_segs(v: &Vec<char>) -> (r: Vec<Vec<char>>)
    ensures
        segs_view(r@) == path_segs(v@),
{
    let mut out: Vec<Vec<char>> = Vec::new();
    let mut i: usize = 0;
    proof {
        assert(segs_view(out@) + segs_from(v@, 0) =~= segs_from(v@, 0));
    }
    while i < v.len()
        invariant
            i <= v@.len(),
            path_segs(v@) == segs_view(out@) + segs_from(v@, i as int),
        decreases v@.len() - i,
    {
        let ghost prev = out@;
        let mut k: usize = i;
        while k < v.len()
            invariant
                i <= k <= v@.len(),
                first_of_two(v@, i as int, '/', '/') == first_of_two(v@, k as int, '/', '/'),
            decreases v@.len() - k,
        {
            if v[k] == '/' {
                break;
            }
            k += 1;
        }
        proof {
            lemma_first_of_two(v@, i as int, '/', '/');
            assert(k as int == first_of_two(v@, i as int, '/', '/'));
        }
        if k > i && !is_seg_dot(v, i, k) {
            let seg = copy_range(v, i, k);
            out.push(seg);
            proof {
                lemma_segs_view_push(prev, out@.last());
            }
        }
        proof {
            if (k as int) < v@.len() {
                assert(segs_from(v@, i as int) == (if k == i || v@.subrange(
                    i as int,
                    k as int,
                ) == dot_seg() {
                    segs_from(v@, k + 1)
                } else {
                    seq![v@.subrange(i as int, k as int)] + segs_from(v@, k + 1)
                }));
            }
            assert(path_segs(v@) =~= segs_view(out@) + (if (k as int) < v@.len() {
                segs_from(v@, k + 1)
            } else {
                Seq::<Seq<char>>::empty()
            }));
        }
        if k < v.len() {
            i = k + 1;
        } else {
            i = v.len();
            proof {
                assert(segs_from(v@, v@.len() as int) =~= Seq::<Seq<char>>::empty());
            }
        }
    }
    proof {
        assert(segs_from(v@, i as int) =~= Seq::<Seq<char>>::empty());
        assert(path_segs(v@) =~= segs_view(out@));
    }
    out
}

/// Joins segments with `/`, appending to `out`.
pub(crate) fn append_joined(out: &mut Vec<char>, segs: &Vec<Vec<char>>)
    ensures
        final(out)@ == old(out)@ + join_segs(segs_view(segs@)),
{
    let ghost base = out@;
    let mut j: usize = 0;
    while j < segs.len()
        invariant
            j <= segs@.len(),
            out@ == base + join_segs(segs_view(segs@).take(j as int)),
        decreases segs@.len() - j,
    {
        if j > 0 {
            out.push('/');
        }
        append_vec(out, &segs[j]);
        j += 1;
        proof {
            let sv = segs_view(segs@);
            assert(sv.take(j as int).drop_last() =~= sv.take(j - 1));
            assert(sv.take(j as int).last() == sv[j - 1]);
            if j == 1 {
                assert(join_segs(sv.take(1)) == sv[0]);
            }
            assert(out@ =~= base + join_segs(sv.take(j as int)));
        }
    }
    proof {
        assert(segs_view(segs@).take(segs@.len() as int) =~= segs_view(segs@));
    }
}

/// Lexically cleans the path held in `v`.
pub(crate) fn clean_chars(v: &Vec<char>) -> (r: Vec<char>)
    ensures
        r@ == clean_path_spec(v@),
{
    let abs = v.len() > 0 && v[0] == '/';
    let segs = to_segs(v);
    let mut stack: Vec<Vec<char>> = Vec::new();
    let mut j: usize = 0;
    proof {
        assert(segs_view(segs@).take(0) =~= Seq::<Seq<char>>::empty());
        assert(segs_view(stack@) =~= Seq::<Seq<char>>::empty());
    }
    while j < segs.len()
        invariant
            j <= segs@.len(),
            segs_view(stack@) == clean_stack(segs_view(segs@).take(j as int), abs),
        decreases segs@.len() - j,
    {
        let ghost prev = stack@;
        if is_dotdot(&segs[j]) {
            let do_pop = if stack.len() > 0 {
                !is_dotdot(&stack[stack.len() - 1])
            } else {
                false
            };
            if do_pop {
                stack.pop();
                proof {
                    lemma_segs_view_drop_last(prev);
                }
            } else if stack.len() == 0 && abs {
                // `..` against the root vanishes
            } else {
                let seg = copy_range(&segs[j], 0, segs[j].len());
                proof {
                    assert(segs[j as int]@.subrange(0, segs[j as int]@.len() as int) =~= segs[
                        j as int
                    ]@);
                }
                stack.push(seg);
                proof {
                    lemma_segs_view_push(prev, stack@.last());
                }
            }
        } else {
            let seg = copy_range(&segs[j], 0, segs[j].len());
            proof {
                assert(segs[j as int]@.subrange(0, segs[j as int]@.len() as int) =~= segs[
                    j as int
                ]@);
            }
            stack.push(seg);
            proof {
                lemma_segs_view_push(prev, stack@.last());
            }
        }
        j += 1;
        proof {
            let sv = segs_view(segs@);
            assert(sv.take(j as int).drop_last() =~= sv.take(j - 1));
            assert(sv.take(j as int).last() == sv[j - 1]);
        }
    }
    proof {
        assert(segs_view(segs@).take(segs@.len() as int) =~= segs_view(segs@));
    }
    let mut out: Vec<char> = Vec::new();
    if abs {
        out.push('/');
        append_joined(&mut out, &stack);
    } else if stack.len() == 0 {
        out.push('.');
        proof {
            assert(out@ =~= dot_seg());
        }
    } else {
        append_joined(&mut out, &stack);
    }
    proof {
        assert(out@ =~= clean_path_spec(v@));
    }
    out
}

/// Lexically cleans a path string.
pub fn clean_path(path: &str) -> (r: String)
    ensures
        r@ == clean_path_spec(path@),
{
    let v = str_chars(path);
    let out = clean_chars(&v);
    chars_to_string(&out)
}

/// The path from `base` to `path`, built from the segment walk.
pub(crate) fn diff_chars(path: &Vec<char>, base: &Vec<char>) -> (r: Vec<char>)
    requires
        is_abs_path(path@),
        is_abs_path(base@),
    ensures
        r@ == diff_path_spec(path@, base@),
{
    let a = to_segs(path);
    let b = to_segs(base);
    let ghost av = segs_view(a@);
    let ghost bv = segs_view(b@);
    let mut i: usize = 0;
    while i < a.len() && i < b.len() && seg_eq(&a[i], &b[i])
        invariant
            i <= av.len(),
            i <= bv.len(),
            diff_from(av, bv, 0) == diff_from(av, bv, i as int),
        decreases av.len() - i,
    {
        i += 1;
    }
    let mut segs: Vec<Vec<char>> = Vec::new();
    let mut k: usize = i;
    proof {
        assert(segs_view(segs@) =~= Seq::<Seq<char>>::empty());
        assert(ups(bv.len() - i).take(0) =~= Seq::<Seq<char>>::empty());
    }
    while k < b.len()
        invariant
            i <= k <= bv.len() || (i > bv.len() && k == i),
            i <= av.len(),
            segs_view(segs@) == ups(bv.len() - i).take(k - i),
        decreases bv.len() - k,
    {
        let ghost prev = segs@;
        let mut dd: Vec<char> = Vec::new();
        dd.push('.');
        dd.push('.');
        proof {
            assert(dd@ =~= dotdot_seg());
        }
        segs.push(dd);
        k += 1;
        proof {
            lemma_segs_view_push(prev, segs@.last());
            assert(ups(bv.len() - i).take(k - i) =~= ups(bv.len() - i).take(k - i - 1).push(
                dotdot_seg(),
            ));
        }
    }
    proof {
        assert(segs_view(segs@) =~= ups(bv.len() - i));
    }
    let mut k2: usize = i;
    while k2 < a.len()
        invariant
            i <= k2 <= av.len() || (i > av.len() && k2 == i),
            segs_view(segs@) == ups(bv.len() - i) + av.subrange(i as int, k2 as int),
        decreases av.len() - k2,
    {
        let ghost prev = segs@;
        let seg = copy_range(&a[k2], 0, a[k2].len());
        proof {
            assert(a[k2 as int]@.subrange(0, a[k2 as int]@.len() as int) =~= a[k2 as int]@);
        }
        segs.push(seg);
        k2 += 1;
        proof {
            lemma_segs_view_push(prev, segs@.last());
            assert(ups(bv.len() - i) + av.subrange(i as int, k2 as int) =~= (ups(bv.len() - i)
                + av.subrange(i as int, k2 - 1)).push(av[k2 - 1]));
        }
    }
    proof {
        if i < av.len() && i < bv.len() && av[i as int] == bv[i as int] {
            assert(false);
        }
        assert(diff_from(av, bv, i as int) == ups(bv.len() - i) + av.subrange(
            i as int,
            av.len() as int,
        ));
        assert(segs_view(segs@) =~= diff_from(av, bv, 0));
    }
    let mut out: Vec<char> = Vec::new();
    append_joined(&mut out, &segs);
    out
}

pub(crate) fn seg_eq(x: &Vec<char>, y: &Vec<char>) -> (r: bool)
    ensures
        r == (x@ == y@),
{
    if x.len() != y.len() {
        proof {
            if x@ == y@ {
                assert(x@.len() == y@.len());
            }
        }
        return false;
    }
    let mut t: usize = 0;
    while t < x.len()
        invariant
            t <= x@.len(),
            x@.len() == y@.len(),
            forall|u: int| 0 <= u < t ==> x@[u] == y@[u],
        decreases x@.len() - t,
    {
        if x[t] != y[t] {
            return false;
        }
        t += 1;
    }
    proof {
        assert(x@ =~= y@);
    }
    true
}

/// The path from `base` to `path` (both absolute), as a string.
pub fn relative_path(path: &str, base: &str) -> (r: String)
    requires
        is_abs_path(path@),
        is_abs_path(base@),
    ensures
        r@ == diff_path_spec(path@, base@),
{
    let p = str_chars(path);
    let b = str_chars(base);
    let out = diff_chars(&p, &b);
    chars_to_string(&out)
}

/// The directory that holds the file named by the absolute path `v`.
pub(crate) fn parent_dir_chars(v: &Vec<char>) -> (r: Vec<char>)
    requires
        is_abs_path(v@),
    ensures
        r@ == parent_dir_spec(v@),
{
    let mut pat: Vec<char> = Vec::new();
    pat.push('/');
    proof {
        assert(pat@ =~= slash_pat());
    }
    let sl = find_last_match(v, &pat, 0, v.len());
    proof {
        lemma_last_match(v@, slash_pat(), 0, v@.len() as int);
        assert(match_at(v@, slash_pat(), 0)) by {
            assert(v@.subrange(0, 1) =~= slash_pat());
        }
    }
    match sl {
        Some(r) => {
            if r == 0 {
                let mut out: Vec<char> = Vec::new();
                out.push('/');
                proof {
                    assert(out@ =~= slash_pat());
                }
                out
            } else {
                copy_range(v, 0, r)
            }
        },
        None => {
            // unreachable: an absolute path starts with a separator
            let mut out: Vec<char> = Vec::new();
            out.push('/');
            proof {
                assert(out@ =~= slash_pat());
            }
            out
        },
    }
}

/// `rel` joined onto `base` with a single separator.
pub(crate) fn join_chars(base: &Vec<char>, rel: &Vec<char>) -> (r: Vec<char>)
    ensures
        r@ == join_path(base@, rel@),
{
    if rel.len() > 0 && rel[0] == '/' {
        copy_range(rel, 0, rel.len())
    } else if base.len() == 0 {
        copy_range(rel, 0, rel.len())
    } else {
        let mut out = copy_range(base, 0, base.len());
        if base[base.len() - 1] != '/' {
            out.push('/');
        }
        append_vec(&mut out, rel);
        proof {
            assert(base@.subrange(0, base@.len() as int) =~= base@);
            assert(rel@.subrange(0, rel@.len() as int) =~= rel@);
            if base@.last() == '/' {
                assert(out@ =~= base@ + rel@);
            } else {
                assert(out@ =~= base@ + slash_pat() + rel@);
            }
        }
        out
    }
}

/// No separator occurs in the segment.
pub open spec fn no_slash(t: Seq<char>) -> bool {
    forall|k: int| 0 <= k < t.len() ==> t[k] != '/'
}

/// A segment as the splitter produces them: nonempty, not `.`, and free of
/// separators.
pub open spec fn good_seg(t: Seq<char>) -> bool {
    t.len() > 0 && t != dot_seg() && no_slash(t)
}

/// No whitespace occurs in the text.
pub open spec fn no_space_in(t: Seq<char>) -> bool {
    forall|k: int| 0 <= k < t.len() ==> !crate::text::is_space_char(t[k])
}

proof fn lemma_fot_prefix(x: Seq<char>, y: Seq<char>, i: int)
    requires
        0 <= i <= x.len(),
    ensures
        first_of_two(x + slash_pat() + y, i, '/', '/') == (if first_of_two(x, i, '/', '/')
            < x.len() {
            first_of_two(x, i, '/', '/')
        } else {
            x.len() as int
        }),
    decreases x.len() - i,
{
    let s = x + slash_pat() + y;
    if i < x.len() {
        assert(s[i] == x[i]);
        if x[i] != '/' {
            lemma_fot_prefix(x, y, i + 1);
        }
    } else {
        assert(s[i] == '/');
    }
}

proof fn lemma_fot_suffix(a: Seq<char>, b: Seq<char>, j: int)
    requires
        a.len() <= j <= a.len() + b.len(),
    ensures
        first_of_two(a + b, j, '/', '/') == a.len() + first_of_two(b, j - a.len(), '/', '/'),
    decreases a.len() + b.len() - j,
{
    let s = a + b;
    if j < s.len() {
        assert(s[j] == b[j - a.len()]);
        if s[j] != '/' {
            lemma_fot_suffix(a, b, j + 1);
        }
    }
}

proof fn lemma_segs_suffix(a: Seq<char>, b: Seq<char>, j: int)
    requires
        a.len() <= j <= a.len() + b.len(),
    ensures
        segs_from(a + b, j) == segs_from(b, j - a.len()),
    decreases a.len() + b.len() - j,
{
    let s = a + b;
    if j < s.len() {
        lemma_fot_suffix(a, b, j);
        let k = first_of_two(s, j, '/', '/');
        lemma_first_of_two(s, j, '/', '/');
        lemma_first_of_two(b, j - a.len(), '/', '/');
        assert(s.subrange(j, k) =~= b.subrange(j - a.len(), k - a.len()));
        if k < s.len() {
            lemma_segs_suffix(a, b, k + 1);
        }
    }
}

proof fn lemma_segs_concat(x: Seq<char>, y: Seq<char>, i: int)
    requires
        0 <= i <= x.len(),
    ensures
        segs_from(x + slash_pat() + y, i) == segs_from(x, i) + path_segs(y),
    decreases x.len() - i,
{
    let s = x + slash_pat() + y;
    lemma_fot_prefix(x, y, i);
    let kx = first_of_two(x, i, '/', '/');
    lemma_first_of_two(x, i, '/', '/');
    lemma_first_of_two(s, i, '/', '/');
    if i == x.len() {
        assert(first_of_two(s, i, '/', '/') == x.len());
        assert(s.subrange(i, x.len() as int) =~= Seq::<char>::empty());
        assert((x + slash_pat() + y) =~= (x + slash_pat()) + y);
        lemma_segs_suffix(x + slash_pat(), y, x.len() as int + 1);
        assert(segs_from(s, i) == path_segs(y));
        assert(segs_from(x, i) + path_segs(y) =~= path_segs(y));
    } else if kx < x.len() {
        assert(s.subrange(i, kx) =~= x.subrange(i, kx));
        lemma_segs_concat(x, y, kx + 1);
        let seg = x.subrange(i, kx);
        if seg.len() == 0 || seg == dot_seg() {
        } else {
            assert(seq![seg] + (segs_from(x, kx + 1) + path_segs(y)) =~= (seq![seg]
                + segs_from(x, kx + 1)) + path_segs(y));
        }
    } else {
        // no separator left in x: the segment ends at the inserted slash
        assert(first_of_two(s, i, '/', '/') == x.len());
        assert(s.subrange(i, x.len() as int) =~= x.subrange(i, x.len() as int));
        assert((x + slash_pat() + y) =~= (x + slash_pat()) + y);
        lemma_segs_suffix(x + slash_pat(), y, x.len() as int + 1);
        let seg = x.subrange(i, x.len() as int);
        if seg.len() == 0 || seg == dot_seg() {
        } else {
            assert(seq![seg] + path_segs(y) =~= (seq![seg] + Seq::<Seq<char>>::empty())
                + path_segs(y));
            assert(seq![seg] + Seq::<Seq<char>>::empty() =~= seq![seg]);
        }
    }
}

proof fn lemma_segs_single(t: Seq<char>)
    requires
        good_seg(t),
    ensures
        path_segs(t) == seq![t],
{
    lemma_first_of_two(t, 0, '/', '/');
    assert(first_of_two(t, 0, '/', '/') == t.len());
    assert(t.subrange(0, t.len() as int) =~= t);
    assert(seq![t] + Seq::<Seq<char>>::empty() =~= seq![t]);
}

proof fn lemma_join_first(segs: Seq<Seq<char>>)
    requires
        segs.len() > 0,
        segs[0].len() > 0,
    ensures
        join_segs(segs).len() > 0,
        join_segs(segs)[0] == segs[0][0],
    decreases segs.len(),
{
    if segs.len() > 1 {
        assert(segs.drop_last()[0] == segs[0]);
        lemma_join_first(segs.drop_last());
    }
}

proof fn lemma_segs_join_roundtrip(segs: Seq<Seq<char>>)
    requires
        forall|j: int| 0 <= j < segs.len() ==> good_seg(#[trigger] segs[j]),
    ensures
        path_segs(join_segs(segs)) == segs,
    decreases segs.len(),
{
    if segs.len() == 0 {
        assert(path_segs(join_segs(segs)) =~= segs);
    } else if segs.len() == 1 {
        lemma_segs_single(segs[0]);
        assert(seq![segs[0]] =~= segs);
    } else {
        assert(forall|j: int|
            0 <= j < segs.drop_last().len() ==> good_seg(#[trigger] segs.drop_last()[j]));
        lemma_segs_join_roundtrip(segs.drop_last());
        lemma_segs_concat(join_segs(segs.drop_last()), segs.last(), 0);
        lemma_segs_single(segs.last());
        assert(segs.drop_last() + seq![segs.last()] =~= segs);
    }
}

proof fn lemma_segs_wf(s: Seq<char>, i: int)
    requires
        0 <= i <= s.len(),
    ensures
        forall|j: int| 0 <= j < segs_from(s, i).len() ==> good_seg(#[trigger] segs_from(s, i)[j]),
    decreases s.len() - i,
{
    if 0 <= i < s.len() {
        lemma_first_of_two(s, i, '/', '/');
        let k = first_of_two(s, i, '/', '/');
        let seg = s.subrange(i, k);
        if k < s.len() {
            lemma_segs_wf(s, k + 1);
        }
        assert forall|j: int| 0 <= j < segs_from(s, i).len() implies good_seg(
            #[trigger] segs_from(s, i)[j],
        ) by {
            if !(seg.len() == 0 || seg == dot_seg()) {
                if j == 0 {
                    assert(segs_from(s, i)[0] == seg);
                    assert(no_slash(seg));
                } else {
                    if k < s.len() {
                        assert(segs_from(s, i)[j] == segs_from(s, k + 1)[j - 1]);
                    }
                }
            } else {
                if k < s.len() {
                    assert(segs_from(s, i)[j] == segs_from(s, k + 1)[j]);
                }
            }
        }
    }
}

proof fn lemma_segs_nonspace(s: Seq<char>, i: int)
    requires
        0 <= i <= s.len(),
        no_space_in(s),
    ensures
        forall|j: int|
            0 <= j < segs_from(s, i).len() ==> no_space_in(#[trigger] segs_from(s, i)[j]),
    decreases s.len() - i,
{
    if 0 <= i < s.len() {
        lemma_first_of_two(s, i, '/', '/');
        let k = first_of_two(s, i, '/', '/');
        let seg = s.subrange(i, k);
        if k < s.len() {
            lemma_segs_nonspace(s, k + 1);
        }
        assert forall|j: int| 0 <= j < segs_from(s, i).len() implies no_space_in(
            #[trigger] segs_from(s, i)[j],
        ) by {
            if !(seg.len() == 0 || seg == dot_seg()) {
                if j == 0 {
                    assert(segs_from(s, i)[0] == seg);
                    assert(forall|c: int| 0 <= c < seg.len() ==> seg[c] == s[i + c]);
                } else {
                    if k < s.len() {
                        assert(segs_from(s, i)[j] == segs_from(s, k + 1)[j - 1]);
                    }
                }
            } else {
                if k < s.len() {
                    assert(segs_from(s, i)[j] == segs_from(s, k + 1)[j]);
                }
            }
        }
    }
}

proof fn lemma_clean_stack_elems(segs: Seq<Seq<char>>, abs: bool)
    ensures
        forall|j: int|
            0 <= j < clean_stack(segs, abs).len() ==> exists|u: int|
                0 <= u < segs.len() && #[trigger] clean_stack(segs, abs)[j] == segs[u],
    decreases segs.len(),
{
    if segs.len() > 0 {
        lemma_clean_stack_elems(segs.drop_last(), abs);
        let pre = clean_stack(segs.drop_last(), abs);
        let out = clean_stack(segs, abs);
        assert forall|j: int| 0 <= j < out.len() implies exists|u: int|
            0 <= u < segs.len() && #[trigger] out[j] == segs[u] by {
            if j < pre.len() && out[j] == pre[j] {
                let u = choose|u: int|
                    0 <= u < segs.drop_last().len() && pre[j] == segs.drop_last()[u];
                assert(out[j] == segs[u]);
            } else {
                assert(out[j] == segs[segs.len() - 1]);
            }
        }
    }
}

/// Whether `..` segments occur only as a leading run.
pub open spec fn updir_prefix(segs: Seq<Seq<char>>) -> bool {
    forall|j: int|
        0 < j < segs.len() && #[trigger] segs[j] == dotdot_seg() ==> segs[j - 1] == dotdot_seg()
}

proof fn lemma_clean_stack_shape(segs: Seq<Seq<char>>, abs: bool)
    ensures
        updir_prefix(clean_stack(segs, abs)),
        abs ==> forall|j: int|
            0 <= j < clean_stack(segs, abs).len() ==> #[trigger] clean_stack(segs, abs)[j]
                != dotdot_seg(),
    decreases segs.len(),
{
    if segs.len() > 0 {
        lemma_clean_stack_shape(segs.drop_last(), abs);
    }
}

proof fn lemma_all_updirs(segs: Seq<Seq<char>>, j: int)
    requires
        updir_prefix(segs),
        0 <= j < segs.len(),
        segs[j] == dotdot_seg(),
    ensures
        forall|u: int| 0 <= u <= j ==> segs[u] == dotdot_seg(),
    decreases j,
{
    if j > 0 {
        lemma_all_updirs(segs, j - 1);
    }
}

proof fn lemma_cleaned_fixpoint(segs: Seq<Seq<char>>, abs: bool)
    requires
        updir_prefix(segs),
        abs ==> forall|j: int| 0 <= j < segs.len() ==> #[trigger] segs[j] != dotdot_seg(),
    ensures
        clean_stack(segs, abs) == segs,
    decreases segs.len(),
{
    if segs.len() > 0 {
        assert(updir_prefix(segs.drop_last())) by {
            assert(forall|j: int|
                0 < j < segs.drop_last().len() ==> #[trigger] segs.drop_last()[j] == segs[j]
                    && segs.drop_last()[j - 1] == segs[j - 1]);
        }
        lemma_cleaned_fixpoint(segs.drop_last(), abs);
        let last = segs.last();
        if last == dotdot_seg() {
            lemma_all_updirs(segs, segs.len() - 1);
            if segs.len() > 1 {
                assert(segs.drop_last().last() == dotdot_seg());
            }
            assert(segs.drop_last().push(last) =~= segs);
        } else {
            assert(segs.drop_last().push(last) =~= segs);
        }
    }
}

proof fn lemma_join_nonspace(segs: Seq<Seq<char>>)
    requires
        forall|j: int| 0 <= j < segs.len() ==> no_space_in(#[trigger] segs[j]),
    ensures
        no_space_in(join_segs(segs)),
    decreases segs.len(),
{
    if segs.len() > 1 {
        assert(forall|j: int|
            0 <= j < segs.drop_last().len() ==> no_space_in(#[trigger] segs.drop_last()[j]));
        lemma_join_nonspace(segs.drop_last());
        let out = join_segs(segs);
        assert forall|k: int| 0 <= k < out.len() implies !crate::text::is_space_char(
            out[k],
        ) by {
            let pre = join_segs(segs.drop_last());
            if k < pre.len() {
                assert(out[k] == pre[k]);
            } else if k == pre.len() {
                assert(out[k] == '/');
            } else {
                assert(out[k] == segs.last()[k - pre.len() - 1]);
            }
        }
    }
}

/// A path without whitespace stays without whitespace through cleaning.
pub proof fn lemma_clean_nonspace(s: Seq<char>)
    requires
        no_space_in(s),
    ensures
        no_space_in(clean_path_spec(s)),
{
    let abs = is_abs_path(s);
    let kept = clean_stack(path_segs(s), abs);
    lemma_segs_nonspace(s, 0);
    lemma_clean_stack_elems(path_segs(s), abs);
    assert forall|j: int| 0 <= j < kept.len() implies no_space_in(#[trigger] kept[j]) by {
        let u = choose|u: int| 0 <= u < path_segs(s).len() && kept[j] == path_segs(s)[u];
    }
    lemma_join_nonspace(kept);
    let out = clean_path_spec(s);
    assert forall|k: int| 0 <= k < out.len() implies !crate::text::is_space_char(out[k]) by {
        if abs {
            if k == 0 {
                assert(out[k] == '/');
            } else {
                assert(out[k] == join_segs(kept)[k - 1]);
            }
        } else if kept.len() == 0 {
            assert(out[k] == '.');
        }
    }
}

/// Lexical cleaning is idempotent: a cleaned path cleans to itself.
pub proof fn lemma_clean_idempotent(s: Seq<char>)
    ensures
        clean_path_spec(clean_path_spec(s)) == clean_path_spec(s),
{
    let abs = is_abs_path(s);
    let kept = clean_stack(path_segs(s), abs);
    let out = clean_path_spec(s);
    lemma_segs_wf(s, 0);
    lemma_clean_stack_elems(path_segs(s), abs);
    assert forall|j: int| 0 <= j < kept.len() implies good_seg(#[trigger] kept[j]) by {
        let u = choose|u: int| 0 <= u < path_segs(s).len() && kept[j] == path_segs(s)[u];
    }
    lemma_clean_stack_shape(path_segs(s), abs);
    lemma_cleaned_fixpoint(kept, abs);
    if abs {
        lemma_segs_join_roundtrip(kept);
        lemma_segs_suffix(slash_pat(), join_segs(kept), 1);
        assert(out == slash_pat() + join_segs(kept));
        assert(out[0] == '/');
        assert(is_abs_path(out));
        assert(path_segs(out) == kept) by {
            assert(first_of_two(out, 0, '/', '/') == 0);
            assert(out.subrange(0, 0) =~= Seq::<char>::empty());
            assert(segs_from(out, 1) == segs_from(join_segs(kept), 0));
        }
        assert(clean_path_spec(out) == out);
    } else if kept.len() == 0 {
        assert(out == dot_seg());
        assert(!is_abs_path(out));
        assert(path_segs(out) =~= Seq::<Seq<char>>::empty()) by {
            lemma_first_of_two(out, 0, '/', '/');
            assert(first_of_two(out, 0, '/', '/') == 1);
            assert(out.subrange(0, 1) =~= dot_seg());
        }
        assert(clean_stack(path_segs(out), false) =~= Seq::<Seq<char>>::empty());
        assert(clean_path_spec(out) == out);
    } else {
        lemma_segs_join_roundtrip(kept);
        lemma_join_first(kept);
        assert(out == join_segs(kept));
        assert(out[0] == kept[0][0]);
        assert(!is_abs_path(out));
        assert(path_segs(out) == kept);
        assert(clean_path_spec(out) == out);
    }
}

} // verus!
