//! The `LIKE` pattern match that the search filters clip contents with:
//! `%` stands for any run of characters, `_` for any one character, and
//! every other character matches itself, ASCII letters regardless of case.
use vstd::prelude::*;

verus! {

/// The code point of `c` with ASCII upper-case letters taken to lower case.
pub open spec fn fold_ascii(c: char) -> int {
    if 'A' <= c <= 'Z' {
        c as int + 32
    } else {
        c as int
    }
}

/// Whether pattern character `p` matches text character `t` literally,
/// ignoring the case of ASCII letters.
pub open spec fn same_letter(p: char, t: char) -> bool {
    fold_ascii(p) == fold_ascii(t)
}

/// Whether the text `t` matches the `LIKE` pattern `p` (no escape character).
pub open spec fn like_match(p: Seq<char>, t: Seq<char>) -> bool
    decreases p.len(), t.len(),
{
    if p.len() == 0 {
        t.len() == 0
    } else if p[0] == '%' {
        like_match(p.drop_first(), t) || (t.len() > 0 && like_match(p, t.drop_first()))
    } else {
        &&& t.len() > 0
        &&& (p[0] == '_' || same_letter(p[0], t[0]))
        &&& like_match(p.drop_first(), t.drop_first())
    }
}

/// The pattern `%query%`: `query` anywhere in the text.
pub open spec fn anywhere(query: Seq<char>) -> Seq<char> {
    seq!['%'] + query + seq!['%']
}

/// Whether `p` matches `t` literally, ignoring ASCII case.
pub fn same_letter_exec(p: char, t: char) -> (r: bool)
    ensures
        r == same_letter(p, t),
{
    let pu = p as u32;
    let tu = t as u32;
    let pf: u32 = if 'A' <= p && p <= 'Z' { pu + 32 } else { pu };
    let tf: u32 = if 'A' <= t && t <= 'Z' { tu + 32 } else { tu };
    pf == tf
}

/// Whether the text `t` matches the `LIKE` pattern `p`.
pub fn like_matches(p: &Vec<char>, t: &Vec<char>) -> (r: bool)
    ensures
        r == like_match(p@, t@),
{
    let n = p.len();
    let m = t.len();
    // For the pattern suffix `p[i..]`: `next[j]` tells whether `t[j..]`
    // matches it (for `j < m`), and `next_end` whether the empty rest does.
    let mut next: Vec<bool> = Vec::new();
    let mut next_end: bool = true;
    let mut j: usize = 0;
    while j < m
        invariant
            j <= m,
            m == t@.len(),
            next@.len() == j,
            forall|k: int| 0 <= k < j ==> !next@[k],
        decreases m - j,
    {
        next.push(false);
        j = j + 1;
    }
    assert(p@.skip(n as int).len() == 0);
    let mut i: usize = n;
    while i > 0
        invariant
            i <= n,
            n == p@.len(),
            m == t@.len(),
            next@.len() == m,
            next_end == like_match(p@.skip(i as int), t@.skip(m as int)),
            forall|k: int| 0 <= k < m ==> next@[k] == like_match(p@.skip(i as int), t@.skip(k)),
        decreases i,
    {
        i = i - 1;
        let pc = p[i];
        let ghost ps = p@.skip(i as int);
        assert(ps[0] == pc);
        assert(ps.drop_first() =~= p@.skip(i + 1));
        assert(t@.skip(m as int).len() == 0);
        let cur_end: bool = pc == '%' && next_end;
        assert(cur_end == like_match(ps, t@.skip(m as int)));
        let mut cur: Vec<bool> = Vec::new();
        let mut k: usize = 0;
        while k < m
            invariant
                k <= m,
                cur@.len() == k,
            decreases m - k,
        {
            cur.push(false);
            k = k + 1;
        }
        let mut jj: usize = m;
        while jj > 0
            invariant
                jj <= m,
                i < n,
                n == p@.len(),
                m == t@.len(),
                pc == p@[i as int],
                ps == p@.skip(i as int),
                ps.len() > 0,
                ps[0] == pc,
                ps.drop_first() == p@.skip(i + 1),
                next@.len() == m,
                cur@.len() == m,
                next_end == like_match(p@.skip(i + 1), t@.skip(m as int)),
                cur_end == like_match(ps, t@.skip(m as int)),
                forall|k: int| 0 <= k < m ==> next@[k] == like_match(p@.skip(i + 1), t@.skip(k)),
                forall|k: int| jj <= k < m ==> cur@[k] == like_match(ps, t@.skip(k)),
            decreases jj,
        {
            let j = jj - 1;
            let ghost ts = t@.skip(j as int);
            assert(ts.drop_first() =~= t@.skip(j + 1));
            assert(ts[0] == t@[j as int]);
            let next_after: bool = if j + 1 < m {
                next[j + 1]
            } else {
                next_end
            };
            let cur_after: bool = if j + 1 < m {
                cur[j + 1]
            } else {
                cur_end
            };
            assert(next_after == like_match(p@.skip(i + 1), t@.skip(j + 1)));
            assert(cur_after == like_match(ps, t@.skip(j + 1)));
            assert(next[j as int] == like_match(p@.skip(i + 1), ts));
            let v: bool = if pc == '%' {
                next[j] || cur_after
            } else {
                (pc == '_' || same_letter_exec(pc, t[j])) && next_after
            };
            assert(v == like_match(ps, ts));
            cur.set(j, v);
            jj = j;
        }
        next = cur;
        next_end = cur_end;
    }
    assert(p@.skip(0) =~= p@);
    assert(t@.skip(0) =~= t@);
    if m == 0 {
        next_end
    } else {
        next[0]
    }
}

/// A leading `%` lets the pattern skip any prefix of the text.
pub proof fn lemma_percent_skips(r: Seq<char>, a: Seq<char>, u: Seq<char>)
    requires
        like_match(r, u),
    ensures
        like_match(seq!['%'] + r, a + u),
    decreases a.len(),
{
    let p = seq!['%'] + r;
    assert(p[0] == '%');
    assert(p.drop_first() =~= r);
    if a.len() == 0 {
        assert(a + u =~= u);
        assert(like_match(p.drop_first(), a + u));
    } else {
        lemma_percent_skips(r, a.drop_first(), u);
        assert((a + u).drop_first() =~= a.drop_first() + u);
    }
}

/// A lone `%` matches any text.
pub proof fn lemma_percent_matches_all(t: Seq<char>)
    ensures
        like_match(seq!['%'], t),
    decreases t.len(),
{
    let p = seq!['%'];
    assert(p.len() == 1 && p[0] == '%');
    assert(p.drop_first() =~= Seq::<char>::empty());
    if t.len() > 0 {
        lemma_percent_matches_all(t.drop_first());
    } else {
        assert(like_match(p.drop_first(), t));
    }
}

/// Wildcard-free pattern characters match text characters one by one,
/// ignoring the case of ASCII letters.
pub proof fn lemma_literal_prefix(q: Seq<char>, u: Seq<char>, rest: Seq<char>, b: Seq<char>)
    requires
        q.len() == u.len(),
        forall|i: int| 0 <= i < q.len() ==> q[i] != '%' && q[i] != '_',
        forall|i: int| 0 <= i < q.len() ==> same_letter(#[trigger] q[i], u[i]),
        like_match(rest, b),
    ensures
        like_match(q + rest, u + b),
    decreases q.len(),
{
    if q.len() == 0 {
        assert(q + rest =~= rest);
        assert(u + b =~= b);
    } else {
        assert((q + rest)[0] == q[0]);
        assert((u + b)[0] == u[0]);
        assert((q + rest).drop_first() =~= q.drop_first() + rest);
        assert((u + b).drop_first() =~= u.drop_first() + b);
        assert forall|i: int| 0 <= i < q.drop_first().len() implies same_letter(
            #[trigger] q.drop_first()[i],
            u.drop_first()[i],
        ) by {
            assert(q.drop_first()[i] == q[i + 1]);
        }
        lemma_literal_prefix(q.drop_first(), u.drop_first(), rest, b);
    }
}

/// Search finds typed text: if the text holds `u` somewhere, and `u`
/// spells the query `q` up to the case of ASCII letters, then the text
/// matches `%q%`, as long as `q` holds no wildcard (`%` or `_`).
pub proof fn lemma_found_anywhere(q: Seq<char>, a: Seq<char>, u: Seq<char>, b: Seq<char>)
    requires
        q.len() == u.len(),
        forall|i: int| 0 <= i < q.len() ==> q[i] != '%' && q[i] != '_',
        forall|i: int| 0 <= i < q.len() ==> same_letter(#[trigger] q[i], u[i]),
    ensures
        like_match(anywhere(q), a + u + b),
{
    lemma_percent_matches_all(b);
    lemma_literal_prefix(q, u, seq!['%'], b);
    lemma_percent_skips(q + seq!['%'], a, u + b);
    assert(anywhere(q) =~= seq!['%'] + (q + seq!['%']));
    assert(a + u + b =~= a + (u + b));
}

/// A text that matches `%r` has a suffix that matches `r`; the answer is
/// where that suffix starts.
pub proof fn lemma_percent_suffix(r: Seq<char>, t: Seq<char>) -> (i: int)
    requires
        like_match(seq!['%'] + r, t),
    ensures
        0 <= i <= t.len(),
        like_match(r, t.skip(i)),
    decreases t.len(),
{
    let p = seq!['%'] + r;
    assert(p[0] == '%');
    assert(p.drop_first() =~= r);
    if like_match(r, t) {
        assert(t.skip(0) =~= t);
        0
    } else {
        let j = lemma_percent_suffix(r, t.drop_first());
        assert(t.drop_first().skip(j) =~= t.skip(j + 1));
        j + 1
    }
}

/// A text that matches `q` followed by `rest`, with `q` free of
/// wildcards, starts with `q` up to the case of ASCII letters.
pub proof fn lemma_literal_prefix_back(q: Seq<char>, rest: Seq<char>, u: Seq<char>)
    requires
        forall|i: int| 0 <= i < q.len() ==> q[i] != '%' && q[i] != '_',
        like_match(q + rest, u),
    ensures
        q.len() <= u.len(),
        forall|k: int| 0 <= k < q.len() ==> same_letter(#[trigger] q[k], u[k]),
    decreases q.len(),
{
    if q.len() > 0 {
        let p = q + rest;
        assert(p[0] == q[0]);
        assert(p.drop_first() =~= q.drop_first() + rest);
        let q1 = q.drop_first();
        assert forall|i: int| 0 <= i < q1.len() implies q1[i] != '%' && q1[i] != '_' by {
            assert(q1[i] == q[i + 1]);
        }
        lemma_literal_prefix_back(q1, rest, u.drop_first());
        assert forall|k: int| 0 <= k < q.len() implies same_letter(#[trigger] q[k], u[k]) by {
            if k > 0 {
                assert(q1[k - 1] == q[k]);
                assert(u.drop_first()[k - 1] == u[k]);
            }
        }
    }
}

/// Whether `q` occurs in `t` at position `i`, up to the case of ASCII
/// letters.
pub open spec fn found_at(q: Seq<char>, t: Seq<char>, i: int) -> bool {
    &&& 0 <= i
    &&& i + q.len() <= t.len()
    &&& forall|k: int| 0 <= k < q.len() ==> same_letter(#[trigger] q[k], t[i + k])
}

/// Search finds only typed text: if a text matches `%q%`, with `q` free
/// of wildcards (`%`, `_`), then `q` occurs in it at some position `i`,
/// up to the case of ASCII letters.
pub proof fn lemma_matches_only_where_found(q: Seq<char>, t: Seq<char>)
    requires
        forall|i: int| 0 <= i < q.len() ==> q[i] != '%' && q[i] != '_',
        like_match(anywhere(q), t),
    ensures
        exists|i: int| #[trigger] found_at(q, t, i),
{
    assert(anywhere(q) =~= seq!['%'] + (q + seq!['%']));
    let i = lemma_percent_suffix(q + seq!['%'], t);
    lemma_literal_prefix_back(q, seq!['%'], t.skip(i));
    assert forall|k: int| 0 <= k < q.len() implies same_letter(#[trigger] q[k], t[i + k]) by {
        assert(t.skip(i)[k] == t[i + k]);
    }
    assert(found_at(q, t, i));
}

} // verus!
