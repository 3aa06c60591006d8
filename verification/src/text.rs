//! Text primitives over the character view of strings: Unicode whitespace,
//! trimming and splitting at a separator.

use vstd::prelude::*;

verus! {

/// The Unicode `White_Space` property, which `char::is_whitespace` and
/// `str::trim` use.
pub open spec fn is_white_space(c: char) -> bool {
    let n = c as u32;
    ||| 0x9 <= n <= 0xD
    ||| n == 0x20
    ||| n == 0x85
    ||| n == 0xA0
    ||| n == 0x1680
    ||| 0x2000 <= n <= 0x200A
    ||| n == 0x2028
    ||| n == 0x2029
    ||| n == 0x202F
    ||| n == 0x205F
    ||| n == 0x3000
}

/// Drops the leading whitespace.
pub open spec fn trim_start(s: Seq<char>) -> Seq<char>
    decreases s.len(),
{
    if s.len() > 0 && is_white_space(s[0]) {
        trim_start(s.drop_first())
    } else {
        s
    }
}

/// Drops the trailing whitespace.
pub open spec fn trim_end(s: Seq<char>) -> Seq<char>
    decreases s.len(),
{
    if s.len() > 0 && is_white_space(s.last()) {
        trim_end(s.drop_last())
    } else {
        s
    }
}

/// Drops the leading and the trailing whitespace.
pub open spec fn trimmed(s: Seq<char>) -> Seq<char> {
    trim_end(trim_start(s))
}

proof fn lemma_trim_start_clean(s: Seq<char>)
    ensures
        trim_start(s).len() > 0 ==> !is_white_space(trim_start(s)[0]),
    decreases s.len(),
{
    if s.len() > 0 && is_white_space(s[0]) {
        lemma_trim_start_clean(s.drop_first());
    }
}

proof fn lemma_trim_end_prefix(s: Seq<char>)
    ensures
        trim_end(s).len() <= s.len(),
        trim_end(s) == s.subrange(0, trim_end(s).len() as int),
        trim_end(s).len() > 0 ==> !is_white_space(trim_end(s).last()),
    decreases s.len(),
{
    if s.len() > 0 && is_white_space(s.last()) {
        lemma_trim_end_prefix(s.drop_last());
        assert(s.drop_last().subrange(0, trim_end(s).len() as int) =~= s.subrange(
            0,
            trim_end(s).len() as int,
        ));
    } else {
        assert(s.subrange(0, s.len() as int) =~= s);
    }
}

/// Trimming a trimmed text changes nothing.
pub proof fn lemma_trimmed_idempotent(s: Seq<char>)
    ensures
        trimmed(trimmed(s)) == trimmed(s),
        trimmed(s).len() > 0 ==> !is_white_space(trimmed(s)[0]) && !is_white_space(
            trimmed(s).last(),
        ),
{
    let t = trim_start(s);
    let u = trim_end(t);
    lemma_trim_start_clean(s);
    lemma_trim_end_prefix(t);
    if u.len() > 0 {
        assert(u[0] == t[0]);
    }
    assert(trim_start(u) == u);
    assert(trim_end(u) == u);
}

proof fn lemma_trim_start_suffix(s: Seq<char>)
    ensures
        trim_start(s).len() <= s.len(),
        trim_start(s) == s.subrange(s.len() - trim_start(s).len(), s.len() as int),
        forall|k: int| 0 <= k < s.len() - trim_start(s).len() ==> is_white_space(s[k]),
    decreases s.len(),
{
    if s.len() > 0 && is_white_space(s[0]) {
        let t = s.drop_first();
        lemma_trim_start_suffix(t);
        assert(t.subrange(t.len() - trim_start(t).len(), t.len() as int) =~= s.subrange(
            s.len() - trim_start(s).len(),
            s.len() as int,
        ));
        assert forall|k: int| 0 <= k < s.len() - trim_start(s).len() implies is_white_space(s[k]) by {
            if k > 0 {
                assert(s[k] == t[k - 1]);
            }
        }
    } else {
        assert(s.subrange(0, s.len() as int) =~= s);
    }
}

proof fn lemma_trim_end_white_suffix(s: Seq<char>)
    ensures
        forall|k: int| trim_end(s).len() <= k < s.len() ==> is_white_space(s[k]),
    decreases s.len(),
{
    if s.len() > 0 && is_white_space(s.last()) {
        let t = s.drop_last();
        lemma_trim_end_white_suffix(t);
        lemma_trim_end_prefix(t);
        assert forall|k: int| trim_end(s).len() <= k < s.len() implies is_white_space(s[k]) by {
            if k < s.len() - 1 {
                assert(s[k] == t[k]);
            }
        }
    }
}

/// Trimming removes whitespace at both ends and nothing else: the result is
/// a stretch of `s` that neither begins nor ends with whitespace, and all
/// that lies before or after it is whitespace.
pub proof fn lemma_trim_removes_only_outer_whitespace(s: Seq<char>)
    ensures
        exists|i: int, j: int|
            {
                &&& 0 <= i <= j <= s.len()
                &&& trimmed(s) == s.subrange(i, j)
                &&& forall|k: int| 0 <= k < i ==> is_white_space(#[trigger] s[k])
                &&& forall|k: int| j <= k < s.len() ==> is_white_space(#[trigger] s[k])
                &&& i < j ==> !is_white_space(s[i]) && !is_white_space(s[j - 1])
            },
{
    let t = trim_start(s);
    lemma_trim_start_suffix(s);
    lemma_trim_end_prefix(t);
    lemma_trim_end_white_suffix(t);
    lemma_trimmed_idempotent(s);
    let i = s.len() - t.len();
    let u = trim_end(t);
    let j = i + u.len();
    assert(u =~= s.subrange(i, j));
    assert forall|k: int| j <= k < s.len() implies is_white_space(#[trigger] s[k]) by {
        assert(s[k] == t[k - i]);
    }
    if i < j {
        assert(u[0] == s[i]);
        assert(u.last() == s[j - 1]);
    }
}

/// Whether `c` is whitespace.
pub fn is_white_space_char(c: char) -> (b: bool)
    ensures
        b == is_white_space(c),
{
    let n = c as u32;
    (0x9 <= n && n <= 0xD) || n == 0x20 || n == 0x85 || n == 0xA0 || n == 0x1680 || (0x2000
        <= n && n <= 0x200A) || n == 0x2028 || n == 0x2029 || n == 0x202F || n == 0x205F || n
        == 0x3000
}

/// A copy of `s` without its leading and trailing whitespace.
pub fn trim(s: &str) -> (t: String)
    ensures
        t@ == trimmed(s@),
{
    let n = s.unicode_len();
    let mut i: usize = 0;
    assert(s@.subrange(0, n as int) =~= s@);
    while i < n && is_white_space_char(s.get_char(i))
        invariant
            n == s@.len(),
            i <= n,
            trim_start(s@) == trim_start(s@.subrange(i as int, n as int)),
        decreases n - i,
    {
        assert(s@.subrange(i as int, n as int).drop_first() =~= s@.subrange(i + 1, n as int));
        i = i + 1;
    }
    assert(trim_start(s@) == s@.subrange(i as int, n as int));
    let mut j: usize = n;
    while j > i && is_white_space_char(s.get_char(j - 1))
        invariant
            n == s@.len(),
            i <= j <= n,
            trim_end(s@.subrange(i as int, n as int)) == trim_end(s@.subrange(i as int, j as int)),
        decreases j,
    {
        assert(s@.subrange(i as int, j as int).drop_last() =~= s@.subrange(i as int, j - 1));
        j = j - 1;
    }
    s.substring_char(i, j).to_owned()
}

/// The pieces of `s[start..]` between occurrences of `sep`, where the
/// current piece began at `start` and the scan has reached `i`.
pub open spec fn split_from(s: Seq<char>, sep: char, start: int, i: int) -> Seq<Seq<char>>
    decreases s.len() - i,
{
    if i >= s.len() {
        seq![s.subrange(start, s.len() as int)]
    } else if s[i] == sep {
        seq![s.subrange(start, i)] + split_from(s, sep, i + 1, i + 1)
    } else {
        split_from(s, sep, start, i + 1)
    }
}

/// The pieces of `s` between occurrences of `sep`, as `str::split` yields
/// them: empty pieces included, and one empty piece for an empty `s`.
pub open spec fn split_on(s: Seq<char>, sep: char) -> Seq<Seq<char>> {
    split_from(s, sep, 0, 0)
}

/// Whether `a` and `b` hold the same characters.
pub fn same_text(a: &str, b: &str) -> (r: bool)
    ensures
        r == (a@ == b@),
{
    let n = a.unicode_len();
    if n != b.unicode_len() {
        return false;
    }
    let mut i: usize = 0;
    while i < n
        invariant
            n == a@.len(),
            n == b@.len(),
            i <= n,
            forall|k: int| 0 <= k < i ==> a@[k] == b@[k],
        decreases n - i,
    {
        if a.get_char(i) != b.get_char(i) {
            return false;
        }
        i = i + 1;
    }
    assert(a@ =~= b@);
    true
}

/// Whether one of `v` holds the characters of `t`.
pub fn contains_text(v: &Vec<String>, t: &str) -> (r: bool)
    ensures
        r == views(v@).contains(t@),
{
    let mut i: usize = 0;
    while i < v.len()
        invariant
            i <= v@.len(),
            forall|k: int| 0 <= k < i ==> v@[k]@ != t@,
        decreases v@.len() - i,
    {
        if same_text(v[i].as_str(), t) {
            assert(views(v@)[i as int] == t@);
            return true;
        }
        i = i + 1;
    }
    assert forall|k: int| 0 <= k < views(v@).len() implies views(v@)[k] != t@ by {
        assert(views(v@)[k] == v@[k]@);
    }
    false
}

/// The pieces joined with `sep` between each two.
pub open spec fn joined(pieces: Seq<Seq<char>>, sep: char) -> Seq<char>
    decreases pieces.len(),
{
    if pieces.len() == 0 {
        Seq::empty()
    } else if pieces.len() == 1 {
        pieces[0]
    } else {
        pieces[0] + seq![sep] + joined(pieces.drop_first(), sep)
    }
}

/// Splitting from `start` gives back what it split: its pieces, joined with
/// the separator, are `s[start..]`.
pub proof fn lemma_split_from_joins(s: Seq<char>, sep: char, start: int, i: int)
    requires
        0 <= start <= i <= s.len(),
    ensures
        split_from(s, sep, start, i).len() > 0,
        joined(split_from(s, sep, start, i), sep) == s.subrange(start, s.len() as int),
    decreases s.len() - i,
{
    if i >= s.len() {
    } else if s[i] == sep {
        lemma_split_from_joins(s, sep, i + 1, i + 1);
        let rest = split_from(s, sep, i + 1, i + 1);
        let all = split_from(s, sep, start, i);
        assert(all.drop_first() =~= rest);
        assert(s.subrange(start, i) + seq![sep] + s.subrange(i + 1, s.len() as int) =~= s.subrange(
            start,
            s.len() as int,
        ));
    } else {
        lemma_split_from_joins(s, sep, start, i + 1);
    }
}

/// The character views of a sequence of strings.
pub open spec fn views(v: Seq<String>) -> Seq<Seq<char>> {
    v.map_values(|t: String| t@)
}

/// The views of a sequence with one more string end with its view.
pub proof fn lemma_views_push(v: Seq<String>, t: String)
    ensures
        views(v.push(t)) == views(v).push(t@),
{
    assert(views(v.push(t)) =~= views(v).push(t@));
}

} // verus!
