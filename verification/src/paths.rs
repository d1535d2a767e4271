//! Home-directory abbreviation and the add-mode path completion list.
use vstd::prelude::*;
use crate::text::{chars_of, has_prefix, lemma_split_concat, lemma_split_single, split_on, lex_le, lex_less, lex_lt, lemma_lex_total, lemma_lex_transitive, push_suffix, starts_with, string_of, views};

verus! {

broadcast use vstd::seq_lib::to_multiset_build, vstd::seq_lib::to_multiset_insert;

/// The most completion entries the add mode lists.
pub const MAX_SUGGESTIONS: usize = 20;

/// `path` with a leading `home` replaced by `~` (when `home` is not empty).
pub open spec fn collapsed(path: Seq<char>, home: Seq<char>) -> Seq<char> {
    if home.len() > 0 && has_prefix(path, home) {
        seq!['~'] + path.skip(home.len() as int)
    } else {
        path
    }
}

/// `path` with a leading `~/` or a lone `~` replaced by `home`.
pub open spec fn expanded(path: Seq<char>, home: Seq<char>) -> Seq<char> {
    if has_prefix(path, seq!['~', '/']) {
        home + path.skip(1)
    } else if path == seq!['~'] {
        home
    } else {
        path
    }
}

/// Abbreviates the home directory at the start of `path` as `~`.
pub fn tilde_collapse(path: &str, home: &str) -> (r: String)
    ensures
        r@ == collapsed(path@, home@),
{
    let p = chars_of(path);
    let h = chars_of(home);
    if h.len() > 0 && starts_with(&p, &h) {
        let mut out: Vec<char> = vec!['~'];
        push_suffix(&mut out, &p, h.len());
        string_of(out.as_slice())
    } else {
        string_of(p.as_slice())
    }
}

fn expand_chars(p: &Vec<char>, home: &str) -> (r: Vec<char>)
    ensures
        r@ == expanded(p@, home@),
{
    if p.len() >= 2 && p[0] == '~' && p[1] == '/' {
        assert(p@.take(2) =~= seq!['~', '/']);
        let mut out = chars_of(home);
        push_suffix(&mut out, p, 1);
        out
    } else if p.len() == 1 && p[0] == '~' {
        assert(p@ =~= seq!['~']);
        chars_of(home)
    } else {
        proof {
            if has_prefix(p@, seq!['~', '/']) {
                assert(p@[0] == p@.take(2)[0]);
                assert(p@[1] == p@.take(2)[1]);
            }
        }
        p.clone()
    }
}

/// Replaces a leading `~/` (or a lone `~`) with the home directory.
pub fn expand_tilde(path: &str, home: &str) -> (r: String)
    ensures
        r@ == expanded(path@, home@),
{
    let p = chars_of(path);
    let e = expand_chars(&p, home);
    string_of(e.as_slice())
}

/// The glob pattern that lists the directories completing `typed`: the expanded
/// text followed by `*` when it ends in `/`, or by `*/` otherwise.
pub open spec fn pattern_for(typed: Seq<char>, home: Seq<char>) -> Seq<char> {
    if typed.len() > 0 && typed.last() == '/' {
        expanded(typed, home) + seq!['*']
    } else {
        expanded(typed, home) + seq!['*', '/']
    }
}

/// The glob pattern for the add-mode completions of `typed`; none for empty input,
/// which lists nothing.
pub fn suggestion_pattern(typed: &str, home: &str) -> (r: Option<String>)
    ensures
        typed@.len() == 0 <==> r is None,
        r matches Some(p) ==> p@ == pattern_for(typed@, home@),
{
    let t = chars_of(typed);
    if t.len() == 0 {
        return None;
    }
    let mut e = expand_chars(&t, home);
    if t[t.len() - 1] == '/' {
        e.push('*');
    } else {
        e.push('*');
        e.push('/');
    }
    assert(e@ =~= pattern_for(typed@, home@));
    Some(string_of(e.as_slice()))
}

/// The sequence is in non-decreasing lexicographic order.
pub open spec fn sorted(s: Seq<Seq<char>>) -> bool {
    forall|i: int, j: int| 0 <= i < j < s.len() ==> lex_le(#[trigger] s[i], #[trigger] s[j])
}

proof fn lemma_views_insert(v: Seq<String>, p: int, x: String)
    requires
        0 <= p <= v.len(),
    ensures
        views(v.insert(p, x)) == views(v).insert(p, x@),
{
    assert(views(v.insert(p, x)) =~= views(v).insert(p, x@));
}

/// Sorts strings into lexicographic (code point) order by insertion.
pub fn sort_strings(v: &Vec<String>) -> (r: Vec<String>)
    ensures
        sorted(views(r@)),
        views(r@).to_multiset() == views(v@).to_multiset(),
{
    let mut out: Vec<String> = Vec::new();
    let mut i: usize = 0;
    assert(views(out@) =~= views(v@).take(0));
    while i < v.len()
        invariant
            i <= v@.len(),
            sorted(views(out@)),
            views(out@).to_multiset() == views(v@).take(i as int).to_multiset(),
        decreases v@.len() - i,
    {
        let x = v[i].clone();
        let cx = chars_of(x.as_str());
        let mut p: usize = 0;
        while p < out.len() && !lex_less(&cx, &chars_of(out[p].as_str()))
            invariant
                p <= out@.len(),
                cx@ == x@,
                forall|k: int| 0 <= k < p ==> !lex_lt(x@, #[trigger] views(out@)[k]),
            decreases out@.len() - p,
        {
            p += 1;
        }
        let ghost old_views = views(out@);
        proof {
            assert forall|k: int| 0 <= k < p implies lex_le(#[trigger] old_views[k], x@) by {
                if old_views[k] != x@ {
                    lemma_lex_total(old_views[k], x@);
                }
            }
            if p < out@.len() {
                assert(lex_lt(x@, old_views[p as int]));
                assert forall|k: int| p <= k < old_views.len() implies lex_lt(x@, #[trigger] old_views[k]) by {
                    if k > p {
                        assert(lex_le(old_views[p as int], old_views[k]));
                        if old_views[p as int] != old_views[k] {
                            lemma_lex_transitive(x@, old_views[p as int], old_views[k]);
                        }
                    }
                }
            }
        }
        let ghost old_out = out@;
        out.insert(p, x);
        proof {
            lemma_views_insert(old_out, p as int, v@[i as int]);
            let nv = views(out@);
            assert(nv == old_views.insert(p as int, x@));
            assert forall|a: int, b: int| 0 <= a < b < nv.len() implies lex_le(#[trigger] nv[a], #[trigger] nv[b]) by {
                if a < p && b < p {
                    assert(nv[a] == old_views[a] && nv[b] == old_views[b]);
                } else if a < p && b == p {
                    assert(nv[a] == old_views[a]);
                } else if a < p && b > p {
                    assert(nv[a] == old_views[a] && nv[b] == old_views[b - 1]);
                    if a < b - 1 {
                        assert(lex_le(old_views[a], old_views[b - 1]));
                    }
                } else if a == p {
                    assert(nv[b] == old_views[b - 1]);
                    assert(lex_lt(x@, old_views[b - 1]));
                } else {
                    assert(nv[a] == old_views[a - 1] && nv[b] == old_views[b - 1]);
                    assert(lex_le(old_views[a - 1], old_views[b - 1]));
                }
            }
            assert(views(v@).take(i + 1) =~= views(v@).take(i as int).push(x@));
        }
        i += 1;
    }
    assert(views(v@).take(v@.len() as int) =~= views(v@));
    out
}

/// The completion entries drawn from the directories `found` (in the order they were
/// found): the first `MAX_SUGGESTIONS` of them, each with the home directory
/// abbreviated.
pub open spec fn suggestion_entries(found: Seq<Seq<char>>, home: Seq<char>) -> Seq<Seq<char>> {
    let n = if found.len() < MAX_SUGGESTIONS { found.len() } else { MAX_SUGGESTIONS as nat };
    Seq::new(n, |i: int| collapsed(found[i], home))
}

/// Builds the completion list from the matching directories `found`: keeps the first
/// `MAX_SUGGESTIONS`, abbreviates the home directory, and sorts them.
pub fn collect_suggestions(found: &Vec<String>, home: &str) -> (r: Vec<String>)
    ensures
        r@.len() <= MAX_SUGGESTIONS,
        sorted(views(r@)),
        views(r@).to_multiset() == suggestion_entries(views(found@), home@).to_multiset(),
{
    let n: usize = if found.len() < MAX_SUGGESTIONS { found.len() } else { MAX_SUGGESTIONS };
    let mut entries: Vec<String> = Vec::new();
    let mut i: usize = 0;
    while i < n
        invariant
            n <= found@.len(),
            n == suggestion_entries(views(found@), home@).len(),
            i <= n,
            views(entries@) == suggestion_entries(views(found@), home@).take(i as int),
        decreases n - i,
    {
        let e = tilde_collapse(found[i].as_str(), home);
        let ghost before = entries@;
        entries.push(e);
        assert(views(entries@) =~= views(before).push(e@));
        assert(suggestion_entries(views(found@), home@).take(i + 1) =~= suggestion_entries(
            views(found@),
            home@,
        ).take(i as int).push(e@));
        i += 1;
    }
    assert(suggestion_entries(views(found@), home@).take(n as int) =~= suggestion_entries(
        views(found@),
        home@,
    ));
    let r = sort_strings(&entries);
    proof {
        views(r@).to_multiset_ensures();
        views(entries@).to_multiset_ensures();
        assert(views(r@).len() == r@.len());
    }
    r
}

/// Expanding an abbreviated path gives the path back when the path is the home
/// directory itself or lies under it.
pub proof fn law_expand_undoes_collapse(path: Seq<char>, home: Seq<char>)
    requires
        home.len() > 0,
        path == home || has_prefix(path, home + seq!['/']),
    ensures
        expanded(collapsed(path, home), home) == path,
{
    if path == home {
        assert(path.take(home.len() as int) =~= home);
        assert(path.skip(home.len() as int) =~= Seq::<char>::empty());
        assert(collapsed(path, home) =~= seq!['~']);
    } else {
        let hs = home + seq!['/'];
        assert(path.take(home.len() as int) =~= hs.take(home.len() as int));
        assert(hs.take(home.len() as int) =~= home);
        let c = collapsed(path, home);
        assert(c =~= seq!['~'] + path.skip(home.len() as int));
        assert(path[home.len() as int] == path.take(hs.len() as int)[home.len() as int]);
        assert(c.take(2) =~= seq!['~', '/']);
        assert(home + c.skip(1) =~= path);
    }
}

/// Abbreviating an expanded `~` or `~/...` path gives it back, for a non-empty home.
pub proof fn law_collapse_undoes_expand(path: Seq<char>, home: Seq<char>)
    requires
        home.len() > 0,
        path == seq!['~'] || has_prefix(path, seq!['~', '/']),
    ensures
        collapsed(expanded(path, home), home) == path,
{
    if has_prefix(path, seq!['~', '/']) {
        let e = home + path.skip(1);
        assert(e.take(home.len() as int) =~= home);
        assert(e.skip(home.len() as int) =~= path.skip(1));
        assert(path[0] == path.take(2)[0]);
        assert(seq!['~'] + path.skip(1) =~= path);
    } else {
        assert(home.take(home.len() as int) =~= home);
        assert(home.skip(home.len() as int) =~= Seq::<char>::empty());
        assert(seq!['~'] + home.skip(home.len() as int) =~= path);
    }
}

/// An absolute path stays absolute or becomes `~`-relative when abbreviated.
pub proof fn law_collapse_keeps_path_rooted(path: Seq<char>, home: Seq<char>)
    requires
        path.len() > 0,
        path[0] == '/',
    ensures
        collapsed(path, home).len() > 0,
        collapsed(path, home)[0] == '/' || collapsed(path, home)[0] == '~',
{
}

/// A path component that names something: not empty and not `.`.
pub open spec fn is_named_component(c: Seq<char>) -> bool {
    c.len() > 0 && c != seq!['.']
}

/// Keeps the components that name something.
pub open spec fn named() -> spec_fn(Seq<char>) -> bool {
    |c: Seq<char>| is_named_component(c)
}

/// The components of a `/`-separated path, leaving out empty ones and `.`.
pub open spec fn path_components(p: Seq<char>) -> Seq<Seq<char>> {
    split_on(p, '/').filter(named())
}

/// The name a project is listed under: the last component of its path, or the whole
/// path when it has no last component or that component is `..`.
pub open spec fn display_name_of(p: Seq<char>) -> Seq<char> {
    let c = path_components(p);
    if c.len() > 0 && c.last() != seq!['.', '.'] {
        c.last()
    } else {
        p
    }
}

proof fn lemma_filter_one(c: Seq<char>)
    ensures
        seq![c].filter(named()) == (if is_named_component(c) { seq![c] } else { Seq::<Seq<char>>::empty() }),
{
    reveal_with_fuel(Seq::filter, 2);
    assert(seq![c].drop_last() =~= Seq::<Seq<char>>::empty());
}

proof fn lemma_components_drop_slash(s: Seq<char>, end: int)
    requires
        0 < end <= s.len(),
        s[end - 1] == '/',
    ensures
        path_components(s.take(end)) == path_components(s.take(end - 1)),
{
    assert(s.take(end) =~= s.take(end - 1) + seq!['/'] + Seq::<char>::empty());
    lemma_split_concat(s.take(end - 1), Seq::empty(), '/');
    Seq::filter_distributes_over_add(split_on(s.take(end - 1), '/'), split_on(Seq::empty(), '/'), named());
    lemma_split_single(Seq::empty(), '/');
    lemma_filter_one(Seq::empty());
    assert(path_components(s.take(end)) == path_components(s.take(end - 1)) + Seq::<Seq<char>>::empty());
    assert(path_components(s.take(end - 1)) + Seq::<Seq<char>>::empty() =~= path_components(s.take(end - 1)));
}

proof fn lemma_components_last_piece(s: Seq<char>, start: int, end: int)
    requires
        0 <= start < end <= s.len(),
        forall|i: int| start <= i < end ==> s[i] != '/',
        start == 0 || s[start - 1] == '/',
    ensures
        path_components(s.take(end)) == path_components(s.take(start)) + seq![s.subrange(start, end)].filter(named()),
{
    let comp = s.subrange(start, end);
    lemma_split_single(comp, '/');
    if start == 0 {
        assert(s.take(end) =~= comp);
        lemma_split_single(s.take(0), '/');
        assert(s.take(0) =~= Seq::<char>::empty());
        lemma_filter_one(Seq::empty());
        assert(path_components(s.take(start)) =~= Seq::<Seq<char>>::empty());
        assert(Seq::<Seq<char>>::empty() + seq![comp].filter(named()) =~= seq![comp].filter(named()));
    } else {
        assert(s.take(end) =~= s.take(start - 1) + seq!['/'] + comp);
        lemma_split_concat(s.take(start - 1), comp, '/');
        Seq::filter_distributes_over_add(split_on(s.take(start - 1), '/'), split_on(comp, '/'), named());
        lemma_components_drop_slash(s, start);
    }
}

/// The name a project row shows for `path`.
pub fn display_name(path: &str) -> (r: String)
    ensures
        r@ == display_name_of(path@),
{
    let s = chars_of(path);
    let mut end: usize = s.len();
    assert(s@.take(end as int) =~= s@);
    loop
        invariant
            s@ == path@,
            end <= s@.len(),
            path_components(s@) == path_components(s@.take(end as int)),
        decreases end,
    {
        let ghost end0 = end;
        while end > 0 && s[end - 1] == '/'
            invariant
                s@ == path@,
                end <= end0,
                end <= s@.len(),
                path_components(s@) == path_components(s@.take(end as int)),
            decreases end,
        {
            proof {
                lemma_components_drop_slash(s@, end as int);
            }
            end -= 1;
        }
        if end == 0 {
            proof {
                assert(s@.take(0) =~= Seq::<char>::empty());
                lemma_split_single(Seq::empty(), '/');
                lemma_filter_one(Seq::empty());
            }
            return string_of(s.as_slice());
        }
        let mut start: usize = end - 1;
        while start > 0 && s[start - 1] != '/'
            invariant
                start < end <= s@.len(),
                forall|i: int| start <= i < end ==> s@[i] != '/',
            decreases start,
        {
            start -= 1;
        }
        let ghost comp = s@.subrange(start as int, end as int);
        proof {
            lemma_components_last_piece(s@, start as int, end as int);
            lemma_filter_one(comp);
        }
        let is_dot = end - start == 1 && s[start] == '.';
        if is_dot {
            assert(comp =~= seq!['.']);
            assert(path_components(s@.take(end as int)) =~= path_components(s@.take(start as int)));
            end = start;
        } else {
            proof {
                if comp == seq!['.'] {
                    assert(comp[0] == s@[start as int]);
                }
            }
            assert(path_components(s@) =~= path_components(s@.take(start as int)).push(comp));
            let mut name: Vec<char> = Vec::new();
            let mut i: usize = start;
            while i < end
                invariant
                    start <= i <= end <= s@.len(),
                    name@ == s@.subrange(start as int, i as int),
                decreases end - i,
            {
                name.push(s[i]);
                assert(s@.subrange(start as int, i + 1) =~= s@.subrange(start as int, i as int).push(s@[i as int]));
                i += 1;
            }
            let is_parent = end - start == 2 && s[start] == '.' && s[start + 1] == '.';
            proof {
                if comp == seq!['.', '.'] {
                    assert(comp[0] == s@[start as int] && comp[1] == s@[start + 1]);
                }
                if is_parent {
                    assert(comp =~= seq!['.', '.']);
                }
            }
            if is_parent {
                return string_of(s.as_slice());
            }
            return string_of(name.as_slice());
        }
    }
}

} // verus!
