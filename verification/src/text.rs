//! Character-level scanning utilities shared by every stage of the pipeline.
//!
//! Documents are handled as vectors of characters; the spec functions here
//! describe first/last occurrences of patterns and runs of character classes,
//! and the exec functions compute them.
use vstd::prelude::*;
use vstd::string::StrSliceExecFns;

verus! {

/// The whitespace class used by the marker grammars: the Unicode
/// white-space characters.
pub open spec fn is_space_char(c: char) -> bool {
    ||| c == ' '
    ||| c == '\t'
    ||| c == '\n'
    ||| c == '\r'
    ||| c == '\u{b}'
    ||| c == '\u{c}'
    ||| c == '\u{85}'
    ||| c == '\u{a0}'
    ||| c == '\u{1680}'
    ||| ('\u{2000}' <= c && c <= '\u{200a}')
    ||| c == '\u{2028}'
    ||| c == '\u{2029}'
    ||| c == '\u{202f}'
    ||| c == '\u{205f}'
    ||| c == '\u{3000}'
}

pub fn space_char(c: char) -> (r: bool)
    ensures
        r == is_space_char(c),
{
    c == ' ' || c == '\t' || c == '\n' || c == '\r' || c == '\u{b}' || c == '\u{c}'
        || c == '\u{85}' || c == '\u{a0}' || c == '\u{1680}' || ('\u{2000}' <= c && c
        <= '\u{200a}') || c == '\u{2028}' || c == '\u{2029}' || c == '\u{202f}' || c
        == '\u{205f}' || c == '\u{3000}'
}

/// The pattern `pat` occurs in `s` starting at position `i`.
pub open spec fn match_at(s: Seq<char>, pat: Seq<char>, i: int) -> bool {
    0 <= i && i + pat.len() <= s.len() && s.subrange(i, i + pat.len()) == pat
}

/// First position `>= from` where `pat` occurs; `s.len()` when it does not.
pub open spec fn first_match(s: Seq<char>, pat: Seq<char>, from: int) -> int
    decreases s.len() - from,
{
    if from < 0 || from >= s.len() || from + pat.len() > s.len() {
        s.len() as int
    } else if match_at(s, pat, from) {
        from
    } else {
        first_match(s, pat, from + 1)
    }
}

pub proof fn lemma_first_match(s: Seq<char>, pat: Seq<char>, from: int)
    requires
        0 <= from <= s.len(),
    ensures
        from <= first_match(s, pat, from) <= s.len(),
        first_match(s, pat, from) < s.len() ==> match_at(s, pat, first_match(s, pat, from)),
        forall|k: int| from <= k < first_match(s, pat, from) ==> !match_at(s, pat, k),
    decreases s.len() - from,
{
    if from < s.len() && from + pat.len() <= s.len() && !match_at(s, pat, from) {
        lemma_first_match(s, pat, from + 1);
    }
    assert forall|k: int| from <= k < first_match(s, pat, from) implies !match_at(s, pat, k) by {
        if from >= s.len() || from + pat.len() > s.len() {
            assert(k + pat.len() > s.len());
        }
    }
}

/// Greatest position in `[lo, hi)` where `pat` occurs; `-1` when none does.
pub open spec fn last_match(s: Seq<char>, pat: Seq<char>, lo: int, hi: int) -> int
    decreases hi - lo,
{
    if hi <= lo {
        -1
    } else if match_at(s, pat, hi - 1) {
        hi - 1
    } else {
        last_match(s, pat, lo, hi - 1)
    }
}

pub proof fn lemma_last_match(s: Seq<char>, pat: Seq<char>, lo: int, hi: int)
    requires
        0 <= lo,
    ensures
        last_match(s, pat, lo, hi) == -1 || lo <= last_match(s, pat, lo, hi) < hi,
        last_match(s, pat, lo, hi) >= 0 ==> match_at(s, pat, last_match(s, pat, lo, hi)),
        forall|k: int| lo <= k < hi && last_match(s, pat, lo, hi) < k ==> !match_at(s, pat, k),
    decreases hi - lo,
{
    if hi > lo && !match_at(s, pat, hi - 1) {
        lemma_last_match(s, pat, lo, hi - 1);
    }
}

/// End of the run of non-whitespace characters that starts at `i`.
pub open spec fn run_end_nonspace(s: Seq<char>, i: int) -> int
    decreases s.len() - i,
{
    if 0 <= i < s.len() && !is_space_char(s[i]) {
        run_end_nonspace(s, i + 1)
    } else {
        i
    }
}

pub proof fn lemma_run_end_nonspace(s: Seq<char>, i: int)
    requires
        0 <= i <= s.len(),
    ensures
        i <= run_end_nonspace(s, i) <= s.len(),
        forall|k: int| i <= k < run_end_nonspace(s, i) ==> !is_space_char(s[k]),
        run_end_nonspace(s, i) < s.len() ==> is_space_char(s[run_end_nonspace(s, i)]),
    decreases s.len() - i,
{
    if 0 <= i < s.len() && !is_space_char(s[i]) {
        lemma_run_end_nonspace(s, i + 1);
    }
}

/// End of the run of whitespace characters that starts at `i`.
pub open spec fn run_end_space(s: Seq<char>, i: int) -> int
    decreases s.len() - i,
{
    if 0 <= i < s.len() && is_space_char(s[i]) {
        run_end_space(s, i + 1)
    } else {
        i
    }
}

pub proof fn lemma_run_end_space(s: Seq<char>, i: int)
    requires
        0 <= i <= s.len(),
    ensures
        i <= run_end_space(s, i) <= s.len(),
        forall|k: int| i <= k < run_end_space(s, i) ==> is_space_char(s[k]),
        run_end_space(s, i) < s.len() ==> !is_space_char(s[run_end_space(s, i)]),
    decreases s.len() - i,
{
    if 0 <= i < s.len() && is_space_char(s[i]) {
        lemma_run_end_space(s, i + 1);
    }
}

/// First position `>= from` holding `a`, `b`, or the end of `s`.
pub open spec fn first_of_two(s: Seq<char>, from: int, a: char, b: char) -> int
    decreases s.len() - from,
{
    if 0 <= from < s.len() && s[from] != a && s[from] != b {
        first_of_two(s, from + 1, a, b)
    } else if 0 <= from <= s.len() {
        from
    } else {
        s.len() as int
    }
}

pub proof fn lemma_first_of_two(s: Seq<char>, from: int, a: char, b: char)
    requires
        0 <= from <= s.len(),
    ensures
        from <= first_of_two(s, from, a, b) <= s.len(),
        forall|k: int|
            from <= k < first_of_two(s, from, a, b) ==> s[k] != a && s[k] != b,
        first_of_two(s, from, a, b) < s.len() ==> s[first_of_two(s, from, a, b)] == a
            || s[first_of_two(s, from, a, b)] == b,
    decreases s.len() - from,
{
    if 0 <= from < s.len() && s[from] != a && s[from] != b {
        lemma_first_of_two(s, from + 1, a, b);
    }
}

/// Compares the window of `s` at `i` against `pat`.
pub fn eq_at(s: &Vec<char>, i: usize, pat: &Vec<char>) -> (r: bool)
    requires
        i <= s@.len(),
    ensures
        r == match_at(s@, pat@, i as int),
{
    if pat.len() > s.len() - i {
        return false;
    }
    let mut k: usize = 0;
    while k < pat.len()
        invariant
            i + pat@.len() <= s@.len(),
            k <= pat@.len(),
            forall|t: int| 0 <= t < k ==> s@[i + t] == pat@[t],
        decreases pat@.len() - k,
    {
        if s[i + k] != pat[k] {
            proof {
                assert(s@.subrange(i as int, i + pat@.len())[k as int] != pat@[k as int]);
            }
            return false;
        }
        k += 1;
    }
    proof {
        assert(s@.subrange(i as int, i + pat@.len()) =~= pat@);
    }
    true
}

/// First occurrence of `pat` at or after `from`; `s.len()` when there is none.
pub fn find_match(s: &Vec<char>, pat: &Vec<char>, from: usize) -> (r: usize)
    requires
        from <= s@.len(),
    ensures
        r == first_match(s@, pat@, from as int),
{
    let mut i = from;
    while i < s.len()
        invariant
            from <= i <= s@.len(),
            first_match(s@, pat@, from as int) == first_match(s@, pat@, i as int),
        decreases s@.len() - i,
    {
        if eq_at(s, i, pat) {
            return i;
        }
        i += 1;
    }
    s.len()
}

/// Greatest occurrence of `pat` within `[lo, hi)`, or `None`.
pub fn find_last_match(s: &Vec<char>, pat: &Vec<char>, lo: usize, hi: usize) -> (r: Option<usize>)
    requires
        lo <= hi <= s@.len(),
    ensures
        match r {
            Some(v) => v == last_match(s@, pat@, lo as int, hi as int),
            None => last_match(s@, pat@, lo as int, hi as int) == -1,
        },
{
    let mut i = hi;
    while i > lo
        invariant
            lo <= i <= hi,
            last_match(s@, pat@, lo as int, hi as int) == last_match(s@, pat@, lo as int, i as int),
        decreases i,
    {
        if eq_at(s, i - 1, pat) {
            return Some(i - 1);
        }
        i -= 1;
    }
    None
}

/// Pushes `s[i..j]` onto the end of `out`.
pub fn append_sub(out: &mut Vec<char>, s: &Vec<char>, i: usize, j: usize)
    requires
        i <= j <= s@.len(),
    ensures
        final(out)@ == old(out)@ + s@.subrange(i as int, j as int),
{
    let mut k = i;
    while k < j
        invariant
            i <= k <= j,
            out@ == old(out)@ + s@.subrange(i as int, k as int),
        decreases j - k,
    {
        out.push(s[k]);
        k += 1;
        proof {
            assert(s@.subrange(i as int, k as int) =~= s@.subrange(i as int, k - 1).push(
                s@[k - 1],
            ));
        }
    }
    proof {
        assert(out@ =~= old(out)@ + s@.subrange(i as int, j as int));
    }
}

/// Pushes the whole of `s` onto the end of `out`.
pub fn append_vec(out: &mut Vec<char>, s: &Vec<char>)
    ensures
        final(out)@ == old(out)@ + s@,
{
    append_sub(out, s, 0, s.len());
    proof {
        assert(s@.subrange(0, s@.len() as int) =~= s@);
    }
}

/// The characters of `s`, in order.
pub fn str_chars(s: &str) -> (v: Vec<char>)
    ensures
        v@ == s@,
{
    let n = s.unicode_len();
    let mut v: Vec<char> = Vec::new();
    let mut i: usize = 0;
    while i < n
        invariant
            i <= n,
            n == s@.len(),
            v@ == s@.take(i as int),
        decreases n - i,
    {
        v.push(s.get_char(i));
        i += 1;
        proof {
            assert(s@.take(i as int) =~= s@.take(i - 1).push(s@[i - 1]));
        }
    }
    proof {
        assert(s@.take(n as int) =~= s@);
    }
    v
}

/// Relies on `Iterator::collect` for `String`: the characters are joined in
/// order into the resulting string.
#[verifier::external_body]
pub(crate) fn chars_to_string(v: &Vec<char>) -> (r: String)
    ensures
        r@ == v@,
{
    v.iter().collect()
}

/// Computes `first_of_two`.
pub fn find_of_two(s: &Vec<char>, from: usize, a: char, b: char) -> (r: usize)
    requires
        from <= s@.len(),
    ensures
        r == first_of_two(s@, from as int, a, b),
{
    let mut i = from;
    while i < s.len() && s[i] != a && s[i] != b
        invariant
            from <= i <= s@.len(),
            first_of_two(s@, from as int, a, b) == first_of_two(s@, i as int, a, b),
        decreases s@.len() - i,
    {
        i += 1;
    }
    i
}

/// Computes `run_end_nonspace`.
pub fn nonspace_run_end(s: &Vec<char>, from: usize) -> (r: usize)
    requires
        from <= s@.len(),
    ensures
        r == run_end_nonspace(s@, from as int),
{
    let mut i = from;
    while i < s.len() && !space_char(s[i])
        invariant
            from <= i <= s@.len(),
            run_end_nonspace(s@, from as int) == run_end_nonspace(s@, i as int),
        decreases s@.len() - i,
    {
        i += 1;
    }
    i
}

/// Computes `run_end_space`.
pub fn space_run_end(s: &Vec<char>, from: usize) -> (r: usize)
    requires
        from <= s@.len(),
    ensures
        r == run_end_space(s@, from as int),
{
    let mut i = from;
    while i < s.len() && space_char(s[i])
        invariant
            from <= i <= s@.len(),
            run_end_space(s@, from as int) == run_end_space(s@, i as int),
        decreases s@.len() - i,
    {
        i += 1;
    }
    i
}

} // verus!
