//! Case-insensitive subsequence matching of search queries against project paths.
use vstd::prelude::*;
use crate::text::chars_of;

verus! {

/// `idx` places each character of `q`, in order, at strictly increasing positions of `t`.
pub open spec fn embeds(q: Seq<char>, t: Seq<char>, idx: Seq<int>) -> bool {
    &&& idx.len() == q.len()
    &&& forall|i: int| 0 <= i < idx.len() ==> 0 <= #[trigger] idx[i] < t.len() && t[idx[i]] == q[i]
    &&& forall|i: int, j: int| 0 <= i < j < idx.len() ==> #[trigger] idx[i] < #[trigger] idx[j]
}

/// The characters of `q` occur in `t` in the same order (not necessarily adjacent).
pub open spec fn is_subsequence(q: Seq<char>, t: Seq<char>) -> bool {
    exists|idx: Seq<int>| #[trigger] embeds(q, t, idx)
}

/// The lowercase form of a string, as `str::to_lowercase` computes it.
pub uninterp spec fn spec_to_lowercase(s: Seq<char>) -> Seq<char>;

/// U+03A3, capital sigma: the one character whose lowercase form in
/// `str::to_lowercase` depends on its neighbours (it becomes final sigma at a word's
/// end).
pub open spec fn is_capital_sigma(c: char) -> bool {
    c == '\u{3a3}'
}

/// The text holds no capital sigma.
pub open spec fn has_no_sigma(s: Seq<char>) -> bool {
    forall|i: int| 0 <= i < s.len() ==> !is_capital_sigma(#[trigger] s[i])
}

/// The lowercase forms of the characters of `s`, each taken alone, joined in order.
pub open spec fn lowercase_each(s: Seq<char>) -> Seq<char>
    decreases s.len(),
{
    if s.len() == 0 {
        Seq::empty()
    } else {
        lowercase_each(s.drop_last()) + spec_to_lowercase(seq![s.last()])
    }
}

/// Every character is ASCII.
pub open spec fn is_ascii_text(s: Seq<char>) -> bool {
    forall|i: int| 0 <= i < s.len() ==> (#[trigger] s[i] as int) < 128
}

/// `c` with an ASCII capital letter made small.
pub open spec fn ascii_lower_char(c: char) -> char {
    if 'A' as int <= c as int <= 'Z' as int {
        ((c as int) + 32) as char
    } else {
        c
    }
}

/// `c` with an ASCII small letter made capital.
pub open spec fn ascii_upper_char(c: char) -> char {
    if 'a' as int <= c as int <= 'z' as int {
        ((c as int) - 32) as char
    } else {
        c
    }
}

/// `s` with its ASCII capital letters made small.
pub open spec fn ascii_lowercase(s: Seq<char>) -> Seq<char> {
    Seq::new(s.len(), |i: int| ascii_lower_char(s[i]))
}

/// `s` with its ASCII small letters made capital.
pub open spec fn ascii_uppercase(s: Seq<char>) -> Seq<char> {
    Seq::new(s.len(), |i: int| ascii_upper_char(s[i]))
}

/// Lowercases a string with `str::to_lowercase`.
///
/// The result is named by `spec_to_lowercase` (the Unicode lowercase mapping is not
/// written out). Stated of it: the empty string stays empty; text without capital
/// sigma is lowercased character by character (each character as it lowercases alone,
/// joined in order); and ASCII text has exactly its letters `A`-`Z` made `a`-`z`.
#[verifier::external_body]
fn to_lowercase(s: &str) -> (r: String)
    ensures
        r@ == spec_to_lowercase(s@),
        s@.len() == 0 ==> r@.len() == 0,
        has_no_sigma(s@) ==> r@ == lowercase_each(s@),
        is_ascii_text(s@) ==> r@ == ascii_lowercase(s@),
{
    s.to_lowercase()
}

/// Whether `query` fuzzy-matches `text`: ignoring case, the query's characters
/// occur in the text in order.
pub open spec fn fuzzy_matches(query: Seq<char>, text: Seq<char>) -> bool {
    is_subsequence(spec_to_lowercase(query), spec_to_lowercase(text))
}

proof fn lemma_embeds_prefix(q: Seq<char>, t: Seq<char>, idx: Seq<int>, n: int)
    requires
        embeds(q, t, idx),
        0 <= n <= q.len(),
    ensures
        embeds(q.take(n), t, idx.take(n)),
{
}

proof fn lemma_embeds_shorter_text(q: Seq<char>, t: Seq<char>, idx: Seq<int>, j: int)
    requires
        embeds(q, t, idx),
        0 <= j <= t.len(),
        forall|i: int| 0 <= i < idx.len() ==> #[trigger] idx[i] < j,
    ensures
        embeds(q, t.take(j), idx),
{
}

proof fn lemma_embeds_longer_text(q: Seq<char>, t: Seq<char>, idx: Seq<int>, j: int)
    requires
        embeds(q, t.take(j), idx),
        0 <= j <= t.len(),
    ensures
        embeds(q, t, idx),
{
}

/// A prefix of a subsequence is a subsequence.
pub proof fn lemma_subsequence_prefix(q: Seq<char>, t: Seq<char>, n: int)
    requires
        is_subsequence(q, t),
        0 <= n <= q.len(),
    ensures
        is_subsequence(q.take(n), t),
{
    let idx = choose|idx: Seq<int>| #[trigger] embeds(q, t, idx);
    lemma_embeds_prefix(q, t, idx, n);
}

/// Checks whether the characters of `query` occur in `text` in order, by a single
/// greedy scan of `text`.
pub fn subsequence_match(query: &str, text: &str) -> (r: bool)
    ensures
        r == is_subsequence(query@, text@),
{
    let q = chars_of(query);
    let t = chars_of(text);
    if q.len() == 0 {
        assert(embeds(q@, t@, Seq::<int>::empty()));
        return true;
    }
    let mut k: usize = 0;
    let mut j: usize = 0;
    let ghost mut idx: Seq<int> = Seq::empty();
    proof {
        assert(q@.take(0) =~= Seq::<char>::empty());
        assert(embeds(q@.take(0), t@.take(0), idx));
        if is_subsequence(q@.take(1), t@.take(0)) {
            let w = choose|w: Seq<int>| #[trigger] embeds(q@.take(1), t@.take(0), w);
            assert(q@.take(1).len() == 1);
            assert(t@.take(0).len() == 0);
            assert(0 <= w[0] < t@.take(0).len());
        }
    }
    while j < t.len()
        invariant
            q@ == query@,
            t@ == text@,
            0 < q@.len(),
            k < q@.len(),
            j <= t@.len(),
            embeds(q@.take(k as int), t@.take(j as int), idx),
            !is_subsequence(q@.take(k + 1), t@.take(j as int)),
        decreases t@.len() - j,
    {
        let ghost old_idx = idx;
        let ghost tj = t@.take(j + 1);
        if t[j] == q[k] {
            proof {
                idx = idx.push(j as int);
                assert(embeds(q@.take(k + 1), tj, idx));
            }
            if k == q.len() - 1 {
                proof {
                    assert(q@.take(k + 1) =~= q@);
                    lemma_embeds_longer_text(q@, t@, idx, j + 1);
                }
                return true;
            }
            proof {
                if is_subsequence(q@.take(k + 2), tj) {
                    let w = choose|w: Seq<int>| #[trigger] embeds(q@.take(k + 2), tj, w);
                    lemma_embeds_prefix(q@.take(k + 2), tj, w, k + 1);
                    assert(q@.take(k + 2).take(k + 1) =~= q@.take(k + 1));
                    let w1 = w.take(k + 1);
                    assert forall|i: int| 0 <= i < w1.len() implies #[trigger] w1[i] < j by {
                        if i < k { assert(w[i] < w[k as int]); }
                        assert(w[k as int] < w[k + 1]);
                    }
                    lemma_embeds_shorter_text(q@.take(k + 1), tj, w1, j as int);
                    assert(tj.take(j as int) =~= t@.take(j as int));
                    assert(is_subsequence(q@.take(k + 1), t@.take(j as int)));
                }
            }
            k = k + 1;
        } else {
            proof {
                if is_subsequence(q@.take(k + 1), tj) {
                    let w = choose|w: Seq<int>| #[trigger] embeds(q@.take(k + 1), tj, w);
                    if w[k as int] == j {
                        assert(tj[j as int] == q@[k as int]);
                        assert(false);
                    }
                    assert forall|i: int| 0 <= i < w.len() implies #[trigger] w[i] < j by {
                        if i < k {
                            assert(w[i] < w[k as int]);
                        }
                    }
                    lemma_embeds_shorter_text(q@.take(k + 1), tj, w, j as int);
                    assert(tj.take(j as int) =~= t@.take(j as int));
                    assert(is_subsequence(q@.take(k + 1), t@.take(j as int)));
                }
            }
        }
        j = j + 1;
    }
    proof {
        assert(t@.take(j as int) =~= t@);
        if is_subsequence(q@, t@) {
            lemma_subsequence_prefix(q@, t@, k + 1);
        }
    }
    false
}

/// Case-insensitive fuzzy match: true iff the lowercased query's characters occur,
/// in order, in the lowercased text. An empty query matches everything.
pub fn fuzzy_match(query: &str, text: &str) -> (r: bool)
    ensures
        r == fuzzy_matches(query@, text@),
        query@.len() == 0 ==> r,
        has_no_sigma(query@) && has_no_sigma(text@) ==> r == is_subsequence(
            lowercase_each(query@),
            lowercase_each(text@),
        ),
        is_ascii_text(query@) && is_ascii_text(text@) ==> r == is_subsequence(
            ascii_lowercase(query@),
            ascii_lowercase(text@),
        ),
{
    let q = to_lowercase(query);
    let t = to_lowercase(text);
    proof {
        if q@.len() == 0 {
            assert(embeds(q@, t@, Seq::<int>::empty()));
        }
    }
    subsequence_match(q.as_str(), t.as_str())
}

proof fn lemma_embedding_positions(q: Seq<char>, t: Seq<char>, idx: Seq<int>, i: int)
    requires
        embeds(q, t, idx),
        0 <= i < idx.len(),
    ensures
        i <= idx[i],
    decreases i,
{
    if i > 0 {
        lemma_embedding_positions(q, t, idx, i - 1);
        assert(idx[i - 1] < idx[i]);
    }
}

/// Every sequence is a subsequence of itself.
pub proof fn law_subsequence_reflexive(s: Seq<char>)
    ensures
        is_subsequence(s, s),
{
    let idx = Seq::new(s.len(), |i: int| i);
    assert(embeds(s, s, idx));
}

/// A subsequence is never longer than the sequence it occurs in.
pub proof fn law_subsequence_not_longer(q: Seq<char>, t: Seq<char>)
    requires
        is_subsequence(q, t),
    ensures
        q.len() <= t.len(),
{
    let idx = choose|idx: Seq<int>| #[trigger] embeds(q, t, idx);
    if q.len() > 0 {
        lemma_embedding_positions(q, t, idx, q.len() - 1);
    }
}

/// Being a subsequence is transitive.
pub proof fn law_subsequence_transitive(a: Seq<char>, b: Seq<char>, c: Seq<char>)
    requires
        is_subsequence(a, b),
        is_subsequence(b, c),
    ensures
        is_subsequence(a, c),
{
    let ia = choose|idx: Seq<int>| #[trigger] embeds(a, b, idx);
    let ib = choose|idx: Seq<int>| #[trigger] embeds(b, c, idx);
    let comp = Seq::new(a.len(), |i: int| ib[ia[i]]);
    assert forall|i: int, j: int| 0 <= i < j < comp.len() implies #[trigger] comp[i] < #[trigger] comp[j] by {
        assert(ia[i] < ia[j]);
    }
    assert(embeds(a, c, comp));
}

/// A subsequence of a text stays one when more text is appended.
pub proof fn law_subsequence_of_longer_text(q: Seq<char>, t: Seq<char>, more: Seq<char>)
    requires
        is_subsequence(q, t),
    ensures
        is_subsequence(q, t + more),
{
    let idx = choose|idx: Seq<int>| #[trigger] embeds(q, t, idx);
    assert(embeds(q, t + more, idx));
}

/// A subsequence of a text stays one when more text is put before and after it.
pub proof fn law_subsequence_of_surrounded_text(q: Seq<char>, t: Seq<char>, before: Seq<char>, after: Seq<char>)
    requires
        is_subsequence(q, t),
    ensures
        is_subsequence(q, before + t + after),
{
    let idx = choose|idx: Seq<int>| #[trigger] embeds(q, t, idx);
    let shifted = Seq::new(idx.len(), |i: int| idx[i] + before.len());
    let whole = before + t + after;
    assert forall|i: int| 0 <= i < shifted.len() implies 0 <= #[trigger] shifted[i] < whole.len()
        && whole[shifted[i]] == q[i] by {
        assert(whole[shifted[i]] == t[idx[i]]);
    }
    assert forall|i: int, j: int| 0 <= i < j < shifted.len() implies #[trigger] shifted[i] < #[trigger] shifted[j] by {
        assert(idx[i] < idx[j]);
    }
    assert(embeds(q, whole, shifted));
}

/// Any text fuzzy-matches itself.
pub proof fn law_fuzzy_match_reflexive(s: Seq<char>)
    ensures
        fuzzy_matches(s, s),
{
    law_subsequence_reflexive(spec_to_lowercase(s));
}

/// Case does not matter: queries with the same lowercase form match the same texts,
/// and texts with the same lowercase form are matched by the same queries.
pub proof fn law_fuzzy_match_ignores_case(q1: Seq<char>, q2: Seq<char>, t1: Seq<char>, t2: Seq<char>)
    requires
        spec_to_lowercase(q1) == spec_to_lowercase(q2),
        spec_to_lowercase(t1) == spec_to_lowercase(t2),
    ensures
        fuzzy_matches(q1, t1) == fuzzy_matches(q2, t2),
{
}

/// A query whose lowercase form is longer than the text's never matches.
pub proof fn law_fuzzy_match_longer_query_fails(q: Seq<char>, t: Seq<char>)
    requires
        spec_to_lowercase(q).len() > spec_to_lowercase(t).len(),
    ensures
        !fuzzy_matches(q, t),
{
    if fuzzy_matches(q, t) {
        law_subsequence_not_longer(spec_to_lowercase(q), spec_to_lowercase(t));
    }
}

/// Lowercasing character by character distributes over joined text.
pub proof fn law_lowercase_each_joins(a: Seq<char>, b: Seq<char>)
    ensures
        lowercase_each(a + b) == lowercase_each(a) + lowercase_each(b),
    decreases b.len(),
{
    if b.len() == 0 {
        assert(a + b =~= a);
        assert(lowercase_each(a) + lowercase_each(b) =~= lowercase_each(a));
    } else {
        assert((a + b).drop_last() =~= a + b.drop_last());
        assert((a + b).last() == b.last());
        law_lowercase_each_joins(a, b.drop_last());
        assert(lowercase_each(a) + lowercase_each(b.drop_last()) + spec_to_lowercase(seq![b.last()])
            =~= lowercase_each(a) + (lowercase_each(b.drop_last()) + spec_to_lowercase(seq![b.last()])));
    }
}

/// For text without capital sigma, a fuzzy match survives more text around the text
/// and a shorter prefix of the query.
pub proof fn law_fuzzy_match_monotone(
    q: Seq<char>,
    t: Seq<char>,
    before: Seq<char>,
    after: Seq<char>,
    k: int,
)
    requires
        is_subsequence(lowercase_each(q), lowercase_each(t)),
        0 <= k <= q.len(),
    ensures
        is_subsequence(lowercase_each(q), lowercase_each(before + t + after)),
        is_subsequence(lowercase_each(q.take(k)), lowercase_each(t)),
        has_no_sigma(q) && has_no_sigma(t) && has_no_sigma(before) && has_no_sigma(after) ==> has_no_sigma(
            before + t + after,
        ) && has_no_sigma(q.take(k)),
{
    law_lowercase_each_joins(before, t);
    law_lowercase_each_joins(before + t, after);
    law_subsequence_of_surrounded_text(lowercase_each(q), lowercase_each(t), lowercase_each(before), lowercase_each(after));
    assert(q =~= q.take(k) + q.skip(k));
    law_lowercase_each_joins(q.take(k), q.skip(k));
    let lq = lowercase_each(q);
    let n = lowercase_each(q.take(k)).len() as int;
    lemma_subsequence_prefix(lq, lowercase_each(t), n);
    assert(lq.take(n) =~= lowercase_each(q.take(k)));
    if has_no_sigma(q) && has_no_sigma(t) && has_no_sigma(before) && has_no_sigma(after) {
        let w = before + t + after;
        assert forall|i: int| 0 <= i < w.len() implies !is_capital_sigma(#[trigger] w[i]) by {
            if i < before.len() {
                assert(w[i] == before[i]);
            } else if i < before.len() + t.len() {
                assert(w[i] == t[i - before.len()]);
            } else {
                assert(w[i] == after[i - before.len() - t.len()]);
            }
        }
        assert forall|i: int| 0 <= i < q.take(k).len() implies !is_capital_sigma(#[trigger] q.take(k)[i]) by {
            assert(q.take(k)[i] == q[i]);
        }
    }
}

/// For ASCII text, letter case does not matter: making the query or the text capital,
/// or both small, gives the same match, and the changed text stays ASCII.
pub proof fn law_fuzzy_match_ascii_case(q: Seq<char>, t: Seq<char>)
    requires
        is_ascii_text(q),
        is_ascii_text(t),
    ensures
        is_ascii_text(ascii_uppercase(q)),
        is_ascii_text(ascii_uppercase(t)),
        is_ascii_text(ascii_lowercase(q)),
        is_ascii_text(ascii_lowercase(t)),
        is_subsequence(ascii_lowercase(ascii_uppercase(q)), ascii_lowercase(t)) == is_subsequence(
            ascii_lowercase(q),
            ascii_lowercase(t),
        ),
        is_subsequence(ascii_lowercase(q), ascii_lowercase(ascii_uppercase(t))) == is_subsequence(
            ascii_lowercase(q),
            ascii_lowercase(t),
        ),
        is_subsequence(ascii_lowercase(ascii_lowercase(q)), ascii_lowercase(ascii_lowercase(t)))
            == is_subsequence(ascii_lowercase(q), ascii_lowercase(t)),
{
    lemma_ascii_case_forms(q);
    lemma_ascii_case_forms(t);
}

proof fn lemma_ascii_case_forms(s: Seq<char>)
    requires
        is_ascii_text(s),
    ensures
        is_ascii_text(ascii_uppercase(s)),
        is_ascii_text(ascii_lowercase(s)),
        ascii_lowercase(ascii_uppercase(s)) == ascii_lowercase(s),
        ascii_lowercase(ascii_lowercase(s)) == ascii_lowercase(s),
{
    assert forall|i: int| 0 <= i < s.len() implies {
        &&& (#[trigger] ascii_uppercase(s)[i] as int) < 128
        &&& (ascii_lowercase(s)[i] as int) < 128
        &&& ascii_lower_char(ascii_upper_char(s[i])) == ascii_lower_char(s[i])
        &&& ascii_lower_char(ascii_lower_char(s[i])) == ascii_lower_char(s[i])
    } by {
        let c = s[i];
        assert((c as int) < 128);
        if 'a' as int <= c as int <= 'z' as int {
            assert((((c as int) - 32) as char) as int == (c as int) - 32);
        }
        if 'A' as int <= c as int <= 'Z' as int {
            assert((((c as int) + 32) as char) as int == (c as int) + 32);
        }
    }
    assert(ascii_lowercase(ascii_uppercase(s)) =~= ascii_lowercase(s));
    assert(ascii_lowercase(ascii_lowercase(s)) =~= ascii_lowercase(s));
}

} // verus!
