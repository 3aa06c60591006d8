//! Tag names as the service accepts them: trimmed, never empty, in the order
//! given.

use vstd::prelude::*;
use crate::text::{contains_text, trim, trimmed, split_from, split_on, views, lemma_views_push, lemma_trimmed_idempotent};

verus! {

/// The tags that a list of raw names yields: each name trimmed, the empty
/// ones dropped, the order kept.
pub open spec fn tag_list(names: Seq<Seq<char>>) -> Seq<Seq<char>> {
    names.map_values(|p: Seq<char>| trimmed(p)).filter(|t: Seq<char>| t.len() > 0)
}

/// The tags of a comma-separated search string.
pub open spec fn search_terms_of(raw: Seq<char>) -> Seq<Seq<char>> {
    tag_list(split_on(raw, ','))
}

/// Cleaning one more name appends its trimmed form, unless that is empty.
proof fn lemma_tag_list_push(names: Seq<Seq<char>>, p: Seq<char>)
    ensures
        tag_list(names.push(p)) == if trimmed(p).len() > 0 {
            tag_list(names).push(trimmed(p))
        } else {
            tag_list(names)
        },
{
    let f = |p: Seq<char>| trimmed(p);
    let keep = |t: Seq<char>| t.len() > 0;
    assert(names.push(p).map_values(f) =~= names.map_values(f).push(trimmed(p)));
    names.map_values(f).lemma_filter_push(trimmed(p), keep);
}

/// Every tag that a list of names yields is non-empty and trimmed.
pub proof fn lemma_tags_are_clean(names: Seq<Seq<char>>)
    ensures
        forall|i: int|
            0 <= i < tag_list(names).len() ==> #[trigger] tag_list(names)[i].len() > 0
                && trimmed(tag_list(names)[i]) == tag_list(names)[i],
    decreases names.len(),
{
    if names.len() > 0 {
        let p = names.drop_last();
        let l = names.last();
        assert(p.push(l) =~= names);
        lemma_tags_are_clean(p);
        lemma_tag_list_push(p, l);
        lemma_trimmed_idempotent(l);
    } else {
        assert(tag_list(names) =~= Seq::empty()) by {
            reveal_with_fuel(Seq::filter, 1);
        }
    }
}

/// Cleaning a list of tags a second time changes nothing.
pub proof fn lemma_tag_list_idempotent(names: Seq<Seq<char>>)
    ensures
        tag_list(tag_list(names)) == tag_list(names),
    decreases names.len(),
{
    if names.len() > 0 {
        let p = names.drop_last();
        let l = names.last();
        assert(p.push(l) =~= names);
        lemma_tag_list_idempotent(p);
        lemma_tag_list_push(p, l);
        lemma_trimmed_idempotent(l);
        if trimmed(l).len() > 0 {
            lemma_tag_list_push(tag_list(p), trimmed(l));
        }
    } else {
        assert(tag_list(names) =~= Seq::empty()) by {
            reveal_with_fuel(Seq::filter, 1);
        }
        assert(tag_list(Seq::<Seq<char>>::empty()) =~= Seq::empty()) by {
            reveal_with_fuel(Seq::filter, 1);
        }
    }
}

/// The tags of a comma-separated search string: `"cat, funny"` gives
/// `cat` and `funny`.
pub fn parse_search_tags(raw: &str) -> (tags: Vec<String>)
    ensures
        views(tags@) == search_terms_of(raw@),
{
    let n = raw.unicode_len();
    let mut tags: Vec<String> = Vec::new();
    let mut start: usize = 0;
    let mut i: usize = 0;
    let ghost mut done: Seq<Seq<char>> = Seq::empty();
    assert(done + split_from(raw@, ',', 0, 0) =~= split_from(raw@, ',', 0, 0));
    while i < n
        invariant
            n == raw@.len(),
            start <= i <= n,
            split_on(raw@, ',') == done + split_from(raw@, ',', start as int, i as int),
            views(tags@) == tag_list(done),
        decreases n - i,
    {
        if raw.get_char(i) == ',' {
            let piece = raw.substring_char(start, i);
            let t = trim(piece);
            proof {
                lemma_tag_list_push(done, piece@);
                assert(done + split_from(raw@, ',', start as int, i as int) =~= done.push(piece@)
                    + split_from(raw@, ',', i + 1, i + 1));
            }
            if !t.as_str().is_empty() {
                proof { lemma_views_push(tags@, t); }
                tags.push(t);
            }
            proof { done = done.push(piece@); }
            start = i + 1;
        }
        i = i + 1;
    }
    let piece = raw.substring_char(start, n);
    let t = trim(piece);
    proof {
        lemma_tag_list_push(done, piece@);
        assert(done + split_from(raw@, ',', start as int, n as int) =~= done.push(piece@));
    }
    if !t.as_str().is_empty() {
        proof { lemma_views_push(tags@, t); }
        tags.push(t);
    }
    tags
}

/// The tags that a list of raw names yields: each trimmed, the empty ones
/// dropped, the order kept.
pub fn clean_tag_names(names: &Vec<String>) -> (tags: Vec<String>)
    ensures
        views(tags@) == tag_list(views(names@)),
{
    let mut tags: Vec<String> = Vec::new();
    let mut i: usize = 0;
    while i < names.len()
        invariant
            i <= names@.len(),
            views(tags@) == tag_list(views(names@.subrange(0, i as int))),
        decreases names@.len() - i,
    {
        let t = trim(names[i].as_str());
        proof {
            assert(views(names@.subrange(0, i + 1)) =~= views(names@.subrange(0, i as int)).push(
                names@[i as int]@,
            ));
            lemma_tag_list_push(views(names@.subrange(0, i as int)), names@[i as int]@);
        }
        if !t.as_str().is_empty() {
            proof { lemma_views_push(tags@, t); }
            tags.push(t);
        }
        i = i + 1;
    }
    assert(names@.subrange(0, names@.len() as int) =~= names@);
    tags
}

// ---------------------------------------------------------------------------
// Distinct names
// ---------------------------------------------------------------------------

/// The names of `s`, each once, in the order of their first occurrence.
pub open spec fn distinct_names(s: Seq<Seq<char>>) -> Seq<Seq<char>>
    decreases s.len(),
{
    if s.len() == 0 {
        Seq::empty()
    } else {
        let d = distinct_names(s.drop_last());
        if d.contains(s.last()) {
            d
        } else {
            d.push(s.last())
        }
    }
}

/// The distinct names hold the same names as `s`, each once.
pub proof fn lemma_distinct_names_shape(s: Seq<Seq<char>>)
    ensures
        distinct_names(s).no_duplicates(),
        forall|x: Seq<char>| distinct_names(s).contains(x) <==> s.contains(x),
    decreases s.len(),
{
    if s.len() > 0 {
        let p = s.drop_last();
        lemma_distinct_names_shape(p);
        let d = distinct_names(p);
        let l = s.last();
        let ds = distinct_names(s);
        assert(p.push(l) =~= s);
        assert forall|x: Seq<char>| s.contains(x) <==> (p.contains(x) || x == l) by {
            if s.contains(x) {
                let i = choose|i: int| 0 <= i < s.len() && s[i] == x;
                if i < s.len() - 1 {
                    assert(p[i] == x);
                }
            }
            if p.contains(x) {
                let i = choose|i: int| 0 <= i < p.len() && p[i] == x;
                assert(s[i] == x);
            }
            if x == l {
                assert(s[s.len() - 1] == x);
            }
        }
        if !d.contains(l) {
            assert(ds == d.push(l));
            assert forall|x: Seq<char>| ds.contains(x) <==> (d.contains(x) || x == l) by {
                if ds.contains(x) {
                    let i = choose|i: int| 0 <= i < ds.len() && ds[i] == x;
                    if i < d.len() {
                        assert(d[i] == x);
                    }
                }
                if d.contains(x) {
                    let i = choose|i: int| 0 <= i < d.len() && d[i] == x;
                    assert(ds[i] == x);
                }
                if x == l {
                    assert(ds[d.len() as int] == x);
                }
            }
            assert forall|a: int, b: int| 0 <= a < ds.len() && 0 <= b < ds.len() && a != b implies ds[a]
                != ds[b] by {
                if a < d.len() && b < d.len() {
                    assert(ds[a] == d[a] && ds[b] == d[b]);
                } else if a < d.len() {
                    assert(ds[a] == d[a]);
                    assert(d.contains(d[a]));
                } else if b < d.len() {
                    assert(ds[b] == d[b]);
                    assert(d.contains(d[b]));
                }
            }
        }
    }
}

proof fn lemma_distinct_names_of_distinct(s: Seq<Seq<char>>)
    requires
        s.no_duplicates(),
    ensures
        distinct_names(s) == s,
    decreases s.len(),
{
    if s.len() > 0 {
        let p = s.drop_last();
        assert(p.no_duplicates());
        lemma_distinct_names_of_distinct(p);
        assert(!p.contains(s.last()));
        assert(p.push(s.last()) =~= s);
    }
}

/// Dropping repeated names a second time changes nothing.
pub proof fn lemma_distinct_names_idempotent(s: Seq<Seq<char>>)
    ensures
        distinct_names(distinct_names(s)) == distinct_names(s),
{
    lemma_distinct_names_shape(s);
    lemma_distinct_names_of_distinct(distinct_names(s));
}

/// The names of `tags`, each once, in the order of their first occurrence.
pub fn distinct_tags(tags: &Vec<String>) -> (names: Vec<String>)
    ensures
        views(names@) == distinct_names(views(tags@)),
{
    let mut names: Vec<String> = Vec::new();
    let mut i: usize = 0;
    while i < tags.len()
        invariant
            i <= tags@.len(),
            views(names@) == distinct_names(views(tags@).subrange(0, i as int)),
        decreases tags@.len() - i,
    {
        let ghost prefix = views(tags@).subrange(0, i + 1);
        assert(prefix.drop_last() =~= views(tags@).subrange(0, i as int));
        assert(prefix.last() == tags@[i as int]@);
        if !contains_text(&names, tags[i].as_str()) {
            let t = tags[i].clone();
            proof { lemma_views_push(names@, t); }
            names.push(t);
        }
        i = i + 1;
    }
    assert(views(tags@).subrange(0, tags@.len() as int) =~= views(tags@));
    names
}

} // verus!
