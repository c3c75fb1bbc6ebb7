//! The variable store.
//!
//! A document may hold one definition block, `<'''key{value}...'''>`.  Its
//! pairs are collected, the block is stripped, and every reference marker
//! `'{<before>$<name><after>}'` elsewhere in the text has its `$name` token
//! spliced out for the stored value.  A reference to an undefined variable
//! is fatal for the whole document.
use vstd::prelude::*;
use crate::errors::WikiError;
use crate::text::{
    append_sub, append_vec, chars_to_string, find_match, find_of_two, first_match, first_of_two,
    is_space_char, last_match, lemma_first_match, lemma_first_of_two, lemma_last_match, match_at,
    run_end_nonspace, space_char, str_chars,
};

verus! {

pub open spec fn block_open() -> Seq<char> {
    seq!['<', '\'', '\'', '\'']
}

pub open spec fn block_close() -> Seq<char> {
    seq!['\'', '\'', '\'', '>']
}

pub open spec fn lbrace_pat() -> Seq<char> {
    seq!['{']
}

pub open spec fn rbrace_pat() -> Seq<char> {
    seq!['}']
}

pub open spec fn ref_open() -> Seq<char> {
    seq!['\'', '{']
}

pub open spec fn ref_close() -> Seq<char> {
    seq!['}', '\'']
}

/// The definition block of a document: from the first `<'''` to the end of
/// the last `'''>` that follows it.
pub open spec fn block_span(s: Seq<char>) -> Option<(int, int)> {
    let i = first_match(s, block_open(), 0);
    if i == s.len() {
        None
    } else {
        let j = last_match(s, block_close(), i + 4, s.len() as int);
        if j == -1 {
            None
        } else {
            Some((i, j + 4))
        }
    }
}

/// The document with its definition block stripped.
pub open spec fn clear_block(s: Seq<char>) -> Seq<char> {
    match block_span(s) {
        Some((i, e)) => s.subrange(0, i) + s.subrange(e, s.len() as int),
        None => s,
    }
}

/// The start of the key that ends at the `{` in position `k`: keys run
/// back from their brace to the nearest whitespace.
pub open spec fn key_start(s: Seq<char>, p: int, k: int) -> int
    decreases k - p,
{
    if k <= p {
        p
    } else if is_space_char(s[k - 1]) {
        k
    } else {
        key_start(s, p, k - 1)
    }
}

/// The `key{value}` pairs of a definition block's contents, in order.
pub open spec fn pairs_from(s: Seq<char>, p: int) -> Seq<(Seq<char>, Seq<char>)>
    decreases s.len() - p,
        via pairs_from_dec
{
    if !(0 <= p <= s.len()) {
        Seq::empty()
    } else {
        let k = first_match(s, lbrace_pat(), p);
        if k == s.len() {
            Seq::empty()
        } else {
            let m = first_match(s, rbrace_pat(), k + 1);
            if m == s.len() {
                Seq::empty()
            } else {
                let q = key_start(s, p, k);
                seq![(s.subrange(q, k), s.subrange(k + 1, m))] + pairs_from(s, m + 1)
            }
        }
    }
}

#[via_fn]
proof fn pairs_from_dec(s: Seq<char>, p: int) {
    if 0 <= p <= s.len() {
        lemma_first_match(s, lbrace_pat(), p);
        let k = first_match(s, lbrace_pat(), p);
        if k < s.len() {
            lemma_first_match(s, rbrace_pat(), k + 1);
        }
    }
}

/// The pairs defined by the document's definition block, if it has one.
pub open spec fn block_pairs(s: Seq<char>) -> Seq<(Seq<char>, Seq<char>)> {
    match block_span(s) {
        Some((i, e)) => pairs_from(s.subrange(i + 4, e - 4), 0),
        None => Seq::empty(),
    }
}

/// The mapping a pair list builds: a later pair overwrites an earlier one.
pub open spec fn map_of(pairs: Seq<(Seq<char>, Seq<char>)>) -> Map<Seq<char>, Seq<char>>
    decreases pairs.len(),
{
    if pairs.len() == 0 {
        Map::empty()
    } else {
        map_of(pairs.drop_last()).insert(pairs.last().0, pairs.last().1)
    }
}

/// The store a whole document defines.
pub open spec fn doc_map(s: Seq<char>) -> Map<Seq<char>, Seq<char>> {
    map_of(block_pairs(s))
}

/// The closing `}` of a reference, scanning from `from`: the first `}`
/// immediately followed by `'`, with no newline on the way.
pub open spec fn close_pos(s: Seq<char>, from: int) -> int
    decreases s.len() - from,
{
    if !(0 <= from < s.len()) {
        s.len() as int
    } else if s[from] == '\n' {
        s.len() as int
    } else if s[from] == '}' && from + 1 < s.len() && s[from + 1] == '\'' {
        from
    } else {
        close_pos(s, from + 1)
    }
}

pub(crate) proof fn lemma_close_pos(s: Seq<char>, from: int)
    requires
        0 <= from <= s.len(),
    ensures
        from <= close_pos(s, from) <= s.len(),
        close_pos(s, from) < s.len() ==> s[close_pos(s, from)] == '}' && close_pos(s, from) + 1
            < s.len() && s[close_pos(s, from) + 1] == '\'',
    decreases s.len() - from,
{
    if 0 <= from < s.len() && s[from] != '\n' && !(s[from] == '}' && from + 1 < s.len() && s[from
        + 1] == '\'') {
        lemma_close_pos(s, from + 1);
    }
}

/// The name and marker end for the `$` in position `d`.  The name is a
/// run of non-whitespace characters after the dollar; it may hold `}`
/// characters, and ends at the first `}` directly followed by `'` within
/// the run.  When the run ends at whitespace instead, the marker closes at
/// the next `}` directly followed by `'` on the same line.
pub open spec fn dollar_at(s: Seq<char>, d: int) -> Option<(int, int)> {
    let r = run_end_nonspace(s, d + 1);
    if r == d + 1 {
        None
    } else {
        let w1 = close_pos(s, d + 2);
        if w1 < r {
            Some((w1, w1 + 2))
        } else if r < s.len() && is_space_char(s[r]) {
            let w = close_pos(s, r + 1);
            if w == s.len() {
                None
            } else {
                Some((r, w + 2))
            }
        } else {
            None
        }
    }
}

/// The first `$` at or after `pos` (and before the end of the line) that
/// opens a well-formed reference tail.
pub open spec fn next_dollar(s: Seq<char>, pos: int) -> Option<(int, int, int)>
    decreases s.len() - pos,
        via next_dollar_dec
{
    if !(0 <= pos <= s.len()) {
        None
    } else {
        let d = first_of_two(s, pos, '$', '\n');
        if d == s.len() || s[d] != '$' {
            None
        } else {
            match dollar_at(s, d) {
                Some((v, e)) => Some((d, v, e)),
                None => next_dollar(s, d + 1),
            }
        }
    }
}

#[via_fn]
proof fn next_dollar_dec(s: Seq<char>, pos: int) {
    if 0 <= pos <= s.len() {
        lemma_first_of_two(s, pos, '$', '\n');
    }
}

/// A reference marker anchored at the `'{` in position `i`: the dollar
/// position, the end of the variable name, and the end of the marker.
pub open spec fn ref_at(s: Seq<char>, i: int) -> Option<(int, int, int)> {
    next_dollar(s, i + 2)
}

/// The first reference marker at or after `p`: its start, dollar position,
/// name end, and end.
pub open spec fn find_ref(s: Seq<char>, p: int) -> Option<(int, int, int, int)>
    decreases s.len() - p,
        via find_ref_dec
{
    if !(0 <= p <= s.len()) {
        None
    } else {
        let i = first_match(s, ref_open(), p);
        if i == s.len() {
            None
        } else {
            match ref_at(s, i) {
                Some((d, v, e)) => Some((i, d, v, e)),
                None => find_ref(s, i + 1),
            }
        }
    }
}

#[via_fn]
proof fn find_ref_dec(s: Seq<char>, p: int) {
    if 0 <= p <= s.len() {
        lemma_first_match(s, ref_open(), p);
    }
}

proof fn lemma_next_dollar(s: Seq<char>, pos: int)
    requires
        0 <= pos <= s.len(),
    ensures
        match next_dollar(s, pos) {
            Some((d, v, e)) => pos <= d && d + 1 < v && v + 2 <= e && e <= s.len(),
            None => true,
        },
    decreases s.len() - pos,
{
    lemma_first_of_two(s, pos, '$', '\n');
    let d = first_of_two(s, pos, '$', '\n');
    if d < s.len() && s[d] == '$' {
        crate::text::lemma_run_end_nonspace(s, d + 1);
        let r = run_end_nonspace(s, d + 1);
        if r > d + 1 {
            lemma_close_pos(s, d + 2);
            if !(close_pos(s, d + 2) < r) && r < s.len() && is_space_char(s[r]) {
                lemma_close_pos(s, r + 1);
            }
        }
        if dollar_at(s, d) is None {
            lemma_next_dollar(s, d + 1);
        }
    }
}

proof fn lemma_ref_at(s: Seq<char>, i: int)
    requires
        0 <= i,
        i + 2 <= s.len(),
    ensures
        match ref_at(s, i) {
            Some((d, v, e)) => i + 2 <= d && d + 1 < v && v + 2 <= e && e <= s.len(),
            None => true,
        },
{
    lemma_next_dollar(s, i + 2);
}

pub proof fn lemma_find_ref(s: Seq<char>, p: int)
    requires
        0 <= p <= s.len(),
    ensures
        match find_ref(s, p) {
            Some((i, d, v, e)) => p <= i && i + 2 <= d && d + 1 < v && v + 2 <= e && e <= s.len(),
            None => true,
        },
    decreases s.len() - p,
{
    let i = first_match(s, ref_open(), p);
    lemma_first_match(s, ref_open(), p);
    if i < s.len() {
        lemma_ref_at(s, i);
        if ref_at(s, i) is None {
            lemma_find_ref(s, i + 1);
        }
    }
}

/// The text with every reference marker at or after `p` substituted, or
/// the first undefined variable name.
pub open spec fn replace_from(s: Seq<char>, m: Map<Seq<char>, Seq<char>>, p: int) -> Result<
    Seq<char>,
    Seq<char>,
>
    decreases s.len() - p,
        via replace_from_dec
{
    if !(0 <= p <= s.len()) {
        Err(Seq::empty())
    } else {
        match find_ref(s, p) {
            None => Ok(s.subrange(p, s.len() as int)),
            Some((i, d, v, e)) => {
                let var = s.subrange(d + 1, v);
                if !m.contains_key(var) {
                    Err(var)
                } else {
                    match replace_from(s, m, e) {
                        Ok(rest) => Ok(
                            s.subrange(p, i) + ref_open() + s.subrange(i + 2, d) + m[var]
                                + s.subrange(v, e - 2) + ref_close() + rest,
                        ),
                        Err(x) => Err(x),
                    }
                }
            },
        }
    }
}

#[via_fn]
proof fn replace_from_dec(s: Seq<char>, m: Map<Seq<char>, Seq<char>>, p: int) {
    if 0 <= p <= s.len() {
        lemma_find_ref(s, p);
    }
}

/// What variable preprocessing makes of a document under a given store.
pub open spec fn parse_result(s: Seq<char>, m: Map<Seq<char>, Seq<char>>) -> Result<
    Seq<char>,
    Seq<char>,
> {
    replace_from(clear_block(s), m, 0)
}

/// What `preprocess_variables` makes of a document.
pub open spec fn preprocess_spec(s: Seq<char>) -> Result<Seq<char>, Seq<char>> {
    replace_from(clear_block(s), doc_map(s), 0)
}

/// The views of a stored pair list.
pub open spec fn pairs_view(v: Seq<(Vec<char>, Vec<char>)>) -> Seq<(Seq<char>, Seq<char>)> {
    Seq::new(v.len(), |i: int| (v[i].0@, v[i].1@))
}

proof fn lemma_pairs_view_push(v: Seq<(Vec<char>, Vec<char>)>, x: (Vec<char>, Vec<char>))
    ensures
        pairs_view(v.push(x)) == pairs_view(v).push((x.0@, x.1@)),
{
    assert(pairs_view(v.push(x)) =~= pairs_view(v).push((x.0@, x.1@)));
}

fn block_open_vec() -> (r: Vec<char>)
    ensures
        r@ == block_open(),
{
    let mut v: Vec<char> = Vec::new();
    v.push('<');
    v.push('\'');
    v.push('\'');
    v.push('\'');
    proof {
        assert(v@ =~= block_open());
    }
    v
}

fn block_close_vec() -> (r: Vec<char>)
    ensures
        r@ == block_close(),
{
    let mut v: Vec<char> = Vec::new();
    v.push('\'');
    v.push('\'');
    v.push('\'');
    v.push('>');
    proof {
        assert(v@ =~= block_close());
    }
    v
}

fn ref_open_vec() -> (r: Vec<char>)
    ensures
        r@ == ref_open(),
{
    let mut v: Vec<char> = Vec::new();
    v.push('\'');
    v.push('{');
    proof {
        assert(v@ =~= ref_open());
    }
    v
}

/// Finds the document's definition block.
fn find_block(t: &Vec<char>) -> (r: Option<(usize, usize)>)
    ensures
        match r {
            Some((i, e)) => block_span(t@) == Some((i as int, e as int)) && i + 8 <= e
                && e <= t@.len(),
            None => block_span(t@) is None,
        },
{
    let open = block_open_vec();
    let close = block_close_vec();
    let i = find_match(t, &open, 0);
    proof {
        lemma_first_match(t@, block_open(), 0);
    }
    if i == t.len() {
        return None;
    }
    proof {
        assert(match_at(t@, block_open(), i as int));
    }
    let j = find_last_match_wrap(t, &close, i + 4, t.len());
    match j {
        Some(jv) => Some((i, jv + 4)),
        None => None,
    }
}

/// `find_last_match` with its bounds packaged for the block search.
fn find_last_match_wrap(t: &Vec<char>, pat: &Vec<char>, lo: usize, hi: usize) -> (r: Option<
    usize,
>)
    requires
        lo <= hi <= t@.len(),
    ensures
        match r {
            Some(v) => v == last_match(t@, pat@, lo as int, hi as int) && v + pat@.len()
                <= t@.len() && lo <= v < hi,
            None => last_match(t@, pat@, lo as int, hi as int) == -1,
        },
{
    let r = crate::text::find_last_match(t, pat, lo, hi);
    proof {
        lemma_last_match(t@, pat@, lo as int, hi as int);
    }
    r
}

/// A single definition store, filled from one document's block.
pub struct VarStore {
    pairs: Vec<(Vec<char>, Vec<char>)>,
}

impl VarStore {
    /// The pair list this store holds, in insertion order.
    pub closed spec fn pairs_seq(&self) -> Seq<(Seq<char>, Seq<char>)> {
        pairs_view(self.pairs@)
    }

    /// The mapping this store holds.
    pub open spec fn map_view(&self) -> Map<Seq<char>, Seq<char>> {
        map_of(self.pairs_seq())
    }

    /// An empty store.
    pub fn new() -> (r: Self)
        ensures
            r.pairs_seq() == Seq::<(Seq<char>, Seq<char>)>::empty(),
            r.map_view() == Map::<Seq<char>, Seq<char>>::empty(),
    {
        let s = VarStore { pairs: Vec::new() };
        proof {
            assert(pairs_view(s.pairs@) =~= Seq::<(Seq<char>, Seq<char>)>::empty());
        }
        s
    }

    /// Collects the `key{value}` pairs of the document's definition block
    /// into the store, later keys overwriting earlier ones.
    fn parse_variables(&mut self, t: &Vec<char>)
        ensures
            final(self).pairs_seq() == old(self).pairs_seq() + block_pairs(t@),
    {
        let blk = find_block(t);
        match blk {
            None => {
                proof {
                    assert(pairs_view(self.pairs@) + block_pairs(t@) =~= pairs_view(
                        self.pairs@,
                    ));
                }
            },
            Some((i, e)) => {
                let mut data: Vec<char> = Vec::new();
                append_sub(&mut data, t, i + 4, e - 4);
                proof {
                    assert(data@ =~= t@.subrange(i + 4, e - 4));
                }
                self.collect_pairs(&data);
            },
        }
    }

    /// Scans `key{value}` pairs from the block contents.
    fn collect_pairs(&mut self, d: &Vec<char>)
        ensures
            final(self).pairs_seq() == old(self).pairs_seq() + pairs_from(d@, 0),
    {
        let lb = lbrace_vec();
        let rb = rbrace_vec();
        let mut p: usize = 0;
        proof {
            assert(pairs_view(self.pairs@) + pairs_from(d@, 0) =~= pairs_view(old(self).pairs@)
                + pairs_from(d@, 0));
        }
        loop
            invariant
                p <= d@.len(),
                pairs_view(old(self).pairs@) + pairs_from(d@, 0) == pairs_view(self.pairs@)
                    + pairs_from(d@, p as int),
            decreases d@.len() - p,
        {
            let k = find_match(d, &lb, p);
            proof {
                lemma_first_match(d@, lbrace_pat(), p as int);
            }
            if k == d.len() {
                proof {
                    assert(pairs_view(self.pairs@) + pairs_from(d@, p as int) =~= pairs_view(
                        self.pairs@,
                    ));
                }
                return ;
            }
            let m = find_match(d, &rb, k + 1);
            proof {
                lemma_first_match(d@, rbrace_pat(), k + 1);
            }
            if m == d.len() {
                proof {
                    assert(pairs_view(self.pairs@) + pairs_from(d@, p as int) =~= pairs_view(
                        self.pairs@,
                    ));
                }
                return ;
            }
            let mut q = k;
            while q > p && !space_char(d[q - 1])
                invariant
                    p <= q <= k,
                    key_start(d@, p as int, k as int) == key_start(d@, p as int, q as int),
                decreases q,
            {
                q -= 1;
            }
            proof {
                assert(q as int == key_start(d@, p as int, k as int));
            }
            let mut key: Vec<char> = Vec::new();
            append_sub(&mut key, d, q, k);
            let mut val: Vec<char> = Vec::new();
            append_sub(&mut val, d, k + 1, m);
            let ghost prev = self.pairs@;
            self.pairs.push((key, val));
            proof {
                lemma_pairs_view_push(prev, self.pairs@.last());
                assert(key@ =~= d@.subrange(key_start(d@, p as int, k as int), k as int));
                assert(val@ =~= d@.subrange(k + 1, m as int));
                assert(pairs_view(old(self).pairs@) + pairs_from(d@, 0) =~= pairs_view(
                    self.pairs@,
                ) + pairs_from(d@, m + 1));
            }
            p = m + 1;
        }
    }

    /// Looks a name up in the store.
    fn lookup(&self, name: &Vec<char>) -> (r: Option<&Vec<char>>)
        ensures
            match r {
                Some(v) => self.map_view().contains_key(name@) && self.map_view()[name@] == v@,
                None => !self.map_view().contains_key(name@),
            },
    {
        let ghost pv = pairs_view(self.pairs@);
        let mut j = self.pairs.len();
        proof {
            assert(pv.take(self.pairs@.len() as int) =~= pv);
        }
        while j > 0
            invariant
                j <= self.pairs@.len(),
                map_of(pv).contains_key(name@) == map_of(pv.take(j as int)).contains_key(name@),
                map_of(pv).contains_key(name@) ==> map_of(pv)[name@] == map_of(
                    pv.take(j as int),
                )[name@],
            decreases j,
        {
            proof {
                assert(pv.take(j as int).drop_last() =~= pv.take(j - 1));
                assert(pv.take(j as int).last() == pv[j - 1]);
            }
            if crate::paths::seg_eq(&self.pairs[j - 1].0, name) {
                return Some(&self.pairs[j - 1].1);
            }
            j -= 1;
        }
        proof {
            assert(pv.take(0) =~= Seq::<(Seq<char>, Seq<char>)>::empty());
        }
        None
    }

    /// Strips the definition block from the document.
    fn clear_variables(&self, t: &Vec<char>) -> (r: Vec<char>)
        ensures
            r@ == clear_block(t@),
    {
        let blk = find_block(t);
        match blk {
            None => {
                let mut out: Vec<char> = Vec::new();
                append_vec(&mut out, t);
                proof {
                    assert(out@ =~= t@);
                }
                out
            },
            Some((i, e)) => {
                let mut out: Vec<char> = Vec::new();
                append_sub(&mut out, t, 0, i);
                append_sub(&mut out, t, e, t.len());
                proof {
                    assert(out@ =~= clear_block(t@));
                }
                out
            },
        }
    }

    /// Substitutes every reference marker from the store; the first
    /// undefined variable aborts the document.
    fn replace_variables(&self, t: &Vec<char>) -> (r: Result<String, WikiError>)
        ensures
            match r {
                Ok(v) => replace_from(t@, self.map_view(), 0) == Ok::<Seq<char>, Seq<char>>(v@),
                Err(e) => {
                    &&& e matches WikiError::UnresolvedVariable { name }
                    &&& replace_from(t@, self.map_view(), 0) == Err::<Seq<char>, Seq<char>>(
                        name@,
                    )
                },
            },
    {
        let ghost m = self.map_view();
        let mut out: Vec<char> = Vec::new();
        let mut p: usize = 0;
        proof {
            assert(Seq::<char>::empty() + t@.subrange(0, t@.len() as int) =~= t@.subrange(
                0,
                t@.len() as int,
            ));
        }
        loop
            invariant
                p <= t@.len(),
                match replace_from(t@, m, p as int) {
                    Ok(rest) => replace_from(t@, m, 0) == Ok::<Seq<char>, Seq<char>>(out@ + rest),
                    Err(x) => replace_from(t@, m, 0) == Err::<Seq<char>, Seq<char>>(x),
                },
            decreases t@.len() - p,
        {
            let fr = find_ref_exec(t, p);
            proof {
                lemma_find_ref(t@, p as int);
            }
            match fr {
                None => {
                    append_sub(&mut out, t, p, t.len());
                    let s = chars_to_string(&out);
                    return Ok(s);
                },
                Some((i, d, v, e)) => {
                    let mut name: Vec<char> = Vec::new();
                    append_sub(&mut name, t, d + 1, v);
                    proof {
                        assert(name@ =~= t@.subrange(d + 1, v as int));
                    }
                    match self.lookup(&name) {
                        None => {
                            let ns = chars_to_string(&name);
                            return Err(WikiError::UnresolvedVariable { name: ns });
                        },
                        Some(val) => {
                            let ghost prev = out@;
                            append_sub(&mut out, t, p, i);
                            out.push('\'');
                            out.push('{');
                            append_sub(&mut out, t, i + 2, d);
                            append_vec(&mut out, val);
                            append_sub(&mut out, t, v, e - 2);
                            out.push('}');
                            out.push('\'');
                            proof {
                                let piece = t@.subrange(p as int, i as int) + ref_open()
                                    + t@.subrange(i + 2, d as int) + m[name@] + t@.subrange(
                                    v as int,
                                    e - 2,
                                ) + ref_close();
                                assert(out@ =~= prev + piece);
                                match replace_from(t@, m, e as int) {
                                    Ok(rest2) => {
                                        assert((prev + piece) + rest2 =~= prev + (piece + rest2));
                                    },
                                    Err(_) => {
                                    },
                                }
                            }
                            p = e;
                        },
                    }
                },
            }
        }
    }

    /// Parses a document: fills the store from its definition block, strips
    /// the block, and substitutes every reference.
    pub fn parse(&mut self, input: &str) -> (r: Result<String, WikiError>)
        ensures
            final(self).pairs_seq() == old(self).pairs_seq() + block_pairs(input@),
            match r {
                Ok(v) => parse_result(input@, final(self).map_view()) == Ok::<Seq<char>, Seq<
                    char,
                >>(v@),
                Err(e) => {
                    &&& e matches WikiError::UnresolvedVariable { name }
                    &&& parse_result(input@, final(self).map_view()) == Err::<Seq<char>, Seq<
                        char,
                    >>(name@)
                },
            },
    {
        let t = str_chars(input);
        self.parse_variables(&t);
        let cleaned = self.clear_variables(&t);
        match self.replace_variables(&cleaned) {
            Ok(v) => Ok(v),
            Err(e) => Err(e),
        }
    }
}

fn lbrace_vec() -> (r: Vec<char>)
    ensures
        r@ == lbrace_pat(),
{
    let mut v: Vec<char> = Vec::new();
    v.push('{');
    proof {
        assert(v@ =~= lbrace_pat());
    }
    v
}

fn rbrace_vec() -> (r: Vec<char>)
    ensures
        r@ == rbrace_pat(),
{
    let mut v: Vec<char> = Vec::new();
    v.push('}');
    proof {
        assert(v@ =~= rbrace_pat());
    }
    v
}

/// Finds the first reference marker at or after `p`.
fn find_ref_exec(t: &Vec<char>, p: usize) -> (r: Option<(usize, usize, usize, usize)>)
    requires
        p <= t@.len(),
    ensures
        match r {
            Some((i, d, v, e)) => find_ref(t@, p as int) == Some((i as int, d as int, v as int,
            e as int)),
            None => find_ref(t@, p as int) is None,
        },
{
    let qo = ref_open_vec();
    let mut cur = p;
    loop
        invariant
            p <= cur <= t@.len(),
            find_ref(t@, p as int) == find_ref(t@, cur as int),
        decreases t@.len() - cur,
    {
        let i = find_match(t, &qo, cur);
        proof {
            lemma_first_match(t@, ref_open(), cur as int);
        }
        if i == t.len() {
            return None;
        }
        match ref_at_exec(t, i) {
            Some((d, v, e)) => {
                return Some((i, d, v, e));
            },
            None => {
                cur = i + 1;
            },
        }
    }
}

/// Tries to read a reference marker anchored at the `'{` in position `i`:
/// the dollars of the marker body are tried left to right.
fn ref_at_exec(t: &Vec<char>, i: usize) -> (r: Option<(usize, usize, usize)>)
    requires
        i + 2 <= t@.len(),
    ensures
        match r {
            Some((d, v, e)) => ref_at(t@, i as int) == Some((d as int, v as int, e as int)),
            None => ref_at(t@, i as int) is None,
        },
{
    let n = t.len();
    let mut pos: usize = i + 2;
    loop
        invariant
            i + 2 <= pos <= t@.len(),
            n == t@.len(),
            ref_at(t@, i as int) == next_dollar(t@, pos as int),
        decreases t@.len() - pos,
    {
        let d = find_of_two(t, pos, '$', '\n');
        proof {
            lemma_first_of_two(t@, pos as int, '$', '\n');
        }
        if d == n || t[d] != '$' {
            return None;
        }
        let r = crate::text::nonspace_run_end(t, d + 1);
        proof {
            crate::text::lemma_run_end_nonspace(t@, d + 1);
        }
        if r == d + 1 {
            pos = d + 1;
            continue;
        }
        let w1 = close_pos_exec(t, d + 2);
        proof {
            lemma_close_pos(t@, d + 2);
        }
        if w1 < r {
            return Some((d, w1, w1 + 2));
        }
        if r < n && space_char(t[r]) {
            let w = close_pos_exec(t, r + 1);
            proof {
                lemma_close_pos(t@, r + 1);
            }
            if w == n {
                pos = d + 1;
            } else {
                return Some((d, r, w + 2));
            }
        } else {
            pos = d + 1;
        }
    }
}

/// Scans for the closing `}` of a reference.
pub(crate) fn close_pos_exec(t: &Vec<char>, from: usize) -> (r: usize)
    requires
        from <= t@.len(),
    ensures
        r == close_pos(t@, from as int),
{
    let mut i = from;
    loop
        invariant
            from <= i <= t@.len(),
            close_pos(t@, from as int) == close_pos(t@, i as int),
        decreases t@.len() - i,
    {
        if i >= t.len() {
            return t.len();
        }
        if t[i] == '\n' {
            return t.len();
        }
        if t[i] == '}' && i + 1 < t.len() && t[i + 1] == '\'' {
            return i;
        }
        i += 1;
    }
}

/// Extracts the definition block of a document, strips it, and substitutes
/// every variable reference; a reference to an undefined variable is fatal.
pub fn preprocess_variables(markdown: &str) -> (r: Result<String, WikiError>)
    ensures
        match r {
            Ok(v) => preprocess_spec(markdown@) == Ok::<Seq<char>, Seq<char>>(v@),
            Err(e) => {
                &&& e matches WikiError::UnresolvedVariable { name }
                &&& preprocess_spec(markdown@) == Err::<Seq<char>, Seq<char>>(name@)
            },
        },
{
    let mut store = VarStore::new();
    let r = store.parse(markdown);
    proof {
        assert(store.pairs_seq() =~= block_pairs(markdown@));
    }
    r
}

/// The index of the last pair that defines the key; `-1` when none does.
pub open spec fn last_key_index(pairs: Seq<(Seq<char>, Seq<char>)>, k: Seq<char>) -> int
    decreases pairs.len(),
{
    if pairs.len() == 0 {
        -1
    } else if pairs.last().0 == k {
        pairs.len() - 1
    } else {
        last_key_index(pairs.drop_last(), k)
    }
}

/// The store maps exactly the keys some pair defines, each to the value of
/// its last definition: a later `key{value}` pair overwrites an earlier one.
pub proof fn lemma_store_last_wins(pairs: Seq<(Seq<char>, Seq<char>)>, k: Seq<char>)
    ensures
        map_of(pairs).contains_key(k) <==> last_key_index(pairs, k) >= 0,
        last_key_index(pairs, k) >= 0 ==> {
            let j = last_key_index(pairs, k);
            &&& j < pairs.len()
            &&& pairs[j].0 == k
            &&& map_of(pairs)[k] == pairs[j].1
            &&& forall|u: int| j < u < pairs.len() ==> (#[trigger] pairs[u]).0 != k
        },
    decreases pairs.len(),
{
    if pairs.len() > 0 {
        lemma_store_last_wins(pairs.drop_last(), k);
        if pairs.last().0 != k {
            let j = last_key_index(pairs.drop_last(), k);
            if j >= 0 {
                assert(pairs.drop_last()[j] == pairs[j]);
                assert forall|u: int| j < u < pairs.len() implies (#[trigger] pairs[u]).0
                    != k by {
                    if u < pairs.len() - 1 {
                        assert(pairs.drop_last()[u] == pairs[u]);
                        assert(pairs.drop_last()[u].0 != k);
                    } else {
                        assert(pairs[u] == pairs.last());
                    }
                }
            }
        }
    }
}

} // verus!
