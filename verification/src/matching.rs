//! Matching a query against labels: the command palette's subsequence match,
//! the quick switcher's and session list's fuzzy filters, and the closed-session
//! search.
use fuzzy_matcher::skim::SkimMatcherV2;
use fuzzy_matcher::FuzzyMatcher;
use vstd::prelude::*;

use crate::text::{chars_of, push_char, push_str, string_of, trim_chars, trim_seq};
use crate::title::str_lowercase;

verus! {

/// Whether `q` occurs in `h` as a (not necessarily contiguous) subsequence,
/// matching each character of `q` at its first occurrence.
pub open spec fn is_subsequence(q: Seq<char>, h: Seq<char>) -> bool
    decreases q.len(), h.len(),
{
    if q.len() == 0 {
        true
    } else if h.len() == 0 {
        false
    } else if q[0] == h[0] {
        is_subsequence(q.drop_first(), h.drop_first())
    } else {
        is_subsequence(q, h.drop_first())
    }
}

/// Whether every character of `query` occurs in `haystack`, in order.
pub fn fuzzy_match(haystack: &str, query: &str) -> (b: bool)
    ensures
        b == is_subsequence(query@, haystack@),
        b <==> exists|p: Seq<int>| places_in(query@, haystack@, p),
{
    proof {
        lemma_match_iff_in_order(query@, haystack@);
    }
    let h = chars_of(haystack);
    let q = chars_of(query);
    let mut hi: usize = 0;
    let mut qi: usize = 0;
    assert(q@.skip(0) =~= q@);
    assert(h@.skip(0) =~= h@);
    while qi < q.len()
        invariant
            0 <= qi <= q.len(),
            0 <= hi <= h.len(),
            q@ == query@,
            h@ == haystack@,
            is_subsequence(q@, h@) == is_subsequence(q@.skip(qi as int), h@.skip(hi as int)),
        decreases q.len() - qi, h.len() - hi,
    {
        if hi >= h.len() {
            assert(h@.skip(hi as int).len() == 0);
            assert(q@.skip(qi as int).len() > 0);
            assert(!is_subsequence(q@.skip(qi as int), h@.skip(hi as int)));
            proof {
                lemma_match_iff_in_order(query@, haystack@);
            }
            return false;
        }
        assert(q@.skip(qi as int).drop_first() =~= q@.skip(qi + 1));
        assert(h@.skip(hi as int).drop_first() =~= h@.skip(hi + 1));
        if q[qi] == h[hi] {
            qi = qi + 1;
        }
        hi = hi + 1;
    }
    true
}

/// An empty query matches every haystack.
pub proof fn lemma_empty_query_matches(h: Seq<char>)
    ensures
        is_subsequence(Seq::empty(), h),
{
}

/// A match of a query is also a match of each of its prefixes.
pub proof fn lemma_prefix_of_match_matches(q: Seq<char>, h: Seq<char>, n: int)
    requires
        is_subsequence(q, h),
        0 <= n <= q.len(),
    ensures
        is_subsequence(q.take(n), h),
    decreases q.len(), h.len(),
{
    if n == 0 {
        return;
    }
    if h.len() == 0 {
        return;
    }
    if q[0] == h[0] {
        lemma_prefix_of_match_matches(q.drop_first(), h.drop_first(), n - 1);
        assert(q.take(n).drop_first() =~= q.drop_first().take(n - 1));
    } else {
        lemma_prefix_of_match_matches(q, h.drop_first(), n);
    }
}


/// `p` places the characters of `q` in `h`: at increasing positions of `h`,
/// each holding the character of `q` it places.
pub open spec fn places_in(q: Seq<char>, h: Seq<char>, p: Seq<int>) -> bool {
    &&& p.len() == q.len()
    &&& forall|k: int| 0 <= k < p.len() ==> 0 <= #[trigger] p[k] < h.len() && h[p[k]] == q[k]
    &&& forall|a: int, b: int| 0 <= a < b < p.len() ==> #[trigger] p[a] < #[trigger] p[b]
}

/// When the characters of `q` occur in `h` in order, at any increasing
/// positions, the query matches.
pub proof fn lemma_in_order_occurrence_matches(q: Seq<char>, h: Seq<char>, p: Seq<int>)
    requires
        places_in(q, h, p),
    ensures
        is_subsequence(q, h),
    decreases q.len(), h.len(),
{
    if q.len() == 0 {
        return;
    }
    assert(0 <= p[0] < h.len());
    if q[0] == h[0] {
        let p1 = Seq::new((p.len() - 1) as nat, |k: int| p[k + 1] - 1);
        assert forall|k: int| 0 <= k < p1.len() implies 0 <= #[trigger] p1[k] < h.drop_first().len()
            && h.drop_first()[p1[k]] == q.drop_first()[k] by {
            assert(p[0] < p[k + 1]);
        }
        assert forall|a: int, b: int| 0 <= a < b < p1.len() implies #[trigger] p1[a] < #[trigger] p1[b] by {
            assert(p[a + 1] < p[b + 1]);
        }
        lemma_in_order_occurrence_matches(q.drop_first(), h.drop_first(), p1);
    } else {
        assert(p[0] != 0);
        let p1 = Seq::new(p.len(), |k: int| p[k] - 1);
        assert forall|k: int| 0 <= k < p1.len() implies 0 <= #[trigger] p1[k] < h.drop_first().len()
            && h.drop_first()[p1[k]] == q[k] by {
            if k > 0 {
                assert(p[0] < p[k]);
            }
        }
        assert forall|a: int, b: int| 0 <= a < b < p1.len() implies #[trigger] p1[a] < #[trigger] p1[b] by {
            assert(p[a] < p[b]);
        }
        lemma_in_order_occurrence_matches(q, h.drop_first(), p1);
    }
}

/// A match places the query's characters in the haystack in order: there are
/// increasing positions of `h` holding the characters of `q`.
pub proof fn lemma_match_places_query(q: Seq<char>, h: Seq<char>) -> (p: Seq<int>)
    requires
        is_subsequence(q, h),
    ensures
        places_in(q, h, p),
    decreases q.len(), h.len(),
{
    if q.len() == 0 {
        Seq::empty()
    } else if q[0] == h[0] {
        let p1 = lemma_match_places_query(q.drop_first(), h.drop_first());
        let p = seq![0int] + Seq::new(p1.len(), |k: int| p1[k] + 1);
        assert forall|k: int| 0 <= k < p.len() implies 0 <= #[trigger] p[k] < h.len() && h[p[k]]
            == q[k] by {
            if k > 0 {
                assert(p[k] == p1[k - 1] + 1);
            }
        }
        assert forall|a: int, b: int| 0 <= a < b < p.len() implies #[trigger] p[a] < #[trigger] p[b] by {
            if a > 0 {
                assert(p1[a - 1] < p1[b - 1]);
            } else {
                assert(p1[b - 1] >= 0);
            }
        }
        p
    } else {
        let p1 = lemma_match_places_query(q, h.drop_first());
        let p = Seq::new(p1.len(), |k: int| p1[k] + 1);
        assert forall|k: int| 0 <= k < p.len() implies 0 <= #[trigger] p[k] < h.len() && h[p[k]]
            == q[k] by {
            assert(p[k] == p1[k] + 1);
        }
        assert forall|a: int, b: int| 0 <= a < b < p.len() implies #[trigger] p[a] < #[trigger] p[b] by {
            assert(p1[a] < p1[b]);
        }
        p
    }
}

/// The palette's match is exactly "the query's characters, spaces included,
/// occur in the haystack in order".
pub proof fn lemma_match_iff_in_order(q: Seq<char>, h: Seq<char>)
    ensures
        is_subsequence(q, h) <==> exists|p: Seq<int>| places_in(q, h, p),
{
    if is_subsequence(q, h) {
        let p = lemma_match_places_query(q, h);
        assert(places_in(q, h, p));
    }
    if exists|p: Seq<int>| places_in(q, h, p) {
        let p = choose|p: Seq<int>| places_in(q, h, p);
        lemma_in_order_occurrence_matches(q, h, p);
    }
}

// ── Skim fuzzy matching (fuzzy-matcher) ───────────────────────────────────────

/// An ASCII upper-case letter.
pub open spec fn is_ascii_upper(c: char) -> bool {
    'A' <= c && c <= 'Z'
}

/// `c` with ASCII upper-case letters lowered.
pub open spec fn ascii_lower(c: char) -> char {
    if is_ascii_upper(c) {
        ((c as u32) + 32) as char
    } else {
        c
    }
}

/// Character equality, ignoring ASCII case unless `case_sensitive`.
pub open spec fn chars_match(a: char, b: char, case_sensitive: bool) -> bool {
    if case_sensitive {
        a == b
    } else {
        ascii_lower(a) == ascii_lower(b)
    }
}

/// Whether `p` occurs in `c` in order under `chars_match`.
pub open spec fn subsequence_by(p: Seq<char>, c: Seq<char>, case_sensitive: bool) -> bool
    decreases p.len(), c.len(),
{
    if p.len() == 0 {
        true
    } else if c.len() == 0 {
        false
    } else if chars_match(c[0], p[0], case_sensitive) {
        subsequence_by(p.drop_first(), c.drop_first(), case_sensitive)
    } else {
        subsequence_by(p, c.drop_first(), case_sensitive)
    }
}

/// Whether the default skim matcher accepts `pattern` for `choice`: the pattern
/// must occur in order, ignoring ASCII case unless it holds an upper-case letter.
pub open spec fn skim_accepts(choice: Seq<char>, pattern: Seq<char>) -> bool {
    subsequence_by(pattern, choice, exists|i: int| 0 <= i < pattern.len() && is_ascii_upper(pattern[i]))
}

/// Calls `FuzzyMatcher::fuzzy_match` of `SkimMatcherV2::default()`. From the
/// crate's source (smart case, `cheap_matches`): it returns `Some` exactly when
/// the pattern occurs in the choice in order (ASCII case ignored unless the
/// pattern holds an upper-case ASCII letter), and `Some(0)` for an empty
/// pattern. Nothing is claimed of the score otherwise.
#[verifier::external_body]
fn skim_fuzzy_match(choice: &str, pattern: &str) -> (r: Option<i64>)
    ensures
        r is Some <==> skim_accepts(choice@, pattern@),
        pattern@.len() == 0 ==> r == Some(0i64),
{
    SkimMatcherV2::default().fuzzy_match(choice, pattern)
}

/// The quick switcher's query: the raw query trimmed and lower-cased.
pub fn switcher_query(raw: &str) -> (q: String)
    ensures
        q@ == str_lowercase(trim_seq(raw@)),
{
    let t = trim_chars(&chars_of(raw));
    let ts = string_of(&t);
    crate::title::lowercase(ts.as_str())
}

/// The text the quick switcher matches an entry against: `workspace label cwd`,
/// with `Other` for panes outside any workspace.
pub open spec fn switcher_haystack(ws_name: Option<Seq<char>>, label: Seq<char>, cwd: Seq<char>) -> Seq<char> {
    (match ws_name {
        Some(n) => n,
        None => "Other"@,
    }) + seq![' '] + label + seq![' '] + cwd
}

/// Whether a quick-switcher entry is shown for `query`: always for an empty
/// query, else when the skim matcher accepts the query for its haystack.
pub fn switcher_matches(ws_name: Option<&str>, label: &str, cwd: &str, query: &str) -> (b: bool)
    ensures
        b == (query@.len() == 0 || skim_accepts(
            switcher_haystack(crate::title::opt_view(ws_name), label@, cwd@),
            query@,
        )),
{
    if chars_of(query).len() == 0 {
        return true;
    }
    let mut hay = String::new();
    match ws_name {
        Some(n) => push_str(&mut hay, n),
        None => push_str(&mut hay, "Other"),
    }
    push_char(&mut hay, ' ');
    push_str(&mut hay, label);
    push_char(&mut hay, ' ');
    push_str(&mut hay, cwd);
    assert(hay@ =~= switcher_haystack(crate::title::opt_view(ws_name), label@, cwd@));
    skim_fuzzy_match(hay.as_str(), query).is_some()
}

/// Whether a session row is listed under the sidebar filter: always for an
/// empty filter, else when the skim matcher accepts the filter for its label.
pub fn session_row_visible(label: &str, filter: &str) -> (b: bool)
    ensures
        b == (filter@.len() == 0 || skim_accepts(label@, filter@)),
{
    if chars_of(filter).len() == 0 {
        return true;
    }
    skim_fuzzy_match(label, filter).is_some()
}

// ── Closed-session search ───────────────────────────────────────────────────

/// Whether `n` occurs in `h` as a contiguous substring.
pub open spec fn contains_seq(h: Seq<char>, n: Seq<char>) -> bool {
    exists|i: int| 0 <= i && i + n.len() <= h.len() && #[trigger] h.subrange(i, i + n.len()) == n
}

fn occurs_at(h: &Vec<char>, n: &Vec<char>, i: usize) -> (b: bool)
    requires
        i + n.len() <= h.len(),
    ensures
        b == (h@.subrange(i as int, i + n.len()) == n@),
{
    let mut k: usize = 0;
    while k < n.len()
        invariant
            0 <= k <= n.len(),
            i + n.len() <= h.len(),
            forall|j: int| 0 <= j < k ==> h@[i + j] == n@[j],
        decreases n.len() - k,
    {
        if h[i + k] != n[k] {
            assert(h@.subrange(i as int, i + n.len())[k as int] != n@[k as int]);
            return false;
        }
        k = k + 1;
    }
    assert(h@.subrange(i as int, i + n.len()) =~= n@);
    true
}

/// Whether `needle` occurs in `hay` (`str::contains`).
pub(crate) fn contains_str(hay: &str, needle: &str) -> (b: bool)
    ensures
        b == contains_seq(hay@, needle@),
{
    let h = chars_of(hay);
    let n = chars_of(needle);
    if n.len() > h.len() {
        return false;
    }
    let last = h.len() - n.len();
    let mut i: usize = 0;
    loop
        invariant
            n.len() <= h.len(),
            last == h.len() - n.len(),
            0 <= i <= last,
            h@ == hay@,
            n@ == needle@,
            forall|j: int| 0 <= j < i ==> #[trigger] h@.subrange(j, j + n@.len()) != n@,
        decreases last - i,
    {
        if occurs_at(&h, &n, i) {
            return true;
        }
        if i == last {
            assert forall|j: int| 0 <= j && j + n@.len() <= h@.len() implies #[trigger] h@.subrange(
                j,
                j + n@.len(),
            ) != n@ by {
                assert(j <= i);
            }
            return false;
        }
        i = i + 1;
    }
}

/// Whether a closed session is listed for the lower-cased query `query_lower`:
/// always for an empty query, else when the query occurs in the lower-cased
/// title, working directory, workspace name (empty when none) or shell name.
pub open spec fn closed_session_listed(
    query_lower: Seq<char>,
    title: Seq<char>,
    cwd: Seq<char>,
    workspace_name: Option<Seq<char>>,
    shell: Seq<char>,
) -> bool {
    query_lower.len() == 0 || contains_seq(str_lowercase(title), query_lower) || contains_seq(
        str_lowercase(cwd),
        query_lower,
    ) || contains_seq(
        str_lowercase(
            match workspace_name {
                Some(n) => n,
                None => Seq::empty(),
            },
        ),
        query_lower,
    ) || contains_seq(str_lowercase(shell), query_lower)
}

/// Whether a closed session is listed for the lower-cased query `query_lower`.
pub fn closed_session_matches(
    query_lower: &str,
    title: &str,
    cwd: &str,
    workspace_name: Option<&str>,
    shell: &str,
) -> (b: bool)
    ensures
        b == closed_session_listed(
            query_lower@,
            title@,
            cwd@,
            crate::title::opt_view(workspace_name),
            shell@,
        ),
{
    if chars_of(query_lower).len() == 0 {
        return true;
    }
    let ws = match workspace_name {
        Some(n) => n,
        None => "",
    };
    proof {
        reveal_strlit("");
    }
    assert(ws@ == (match crate::title::opt_view(workspace_name) {
        Some(n) => n,
        None => Seq::<char>::empty(),
    }));
    contains_str(crate::title::lowercase(title).as_str(), query_lower) || contains_str(
        crate::title::lowercase(cwd).as_str(),
        query_lower,
    ) || contains_str(crate::title::lowercase(ws).as_str(), query_lower) || contains_str(
        crate::title::lowercase(shell).as_str(),
        query_lower,
    )
}

} // verus!
