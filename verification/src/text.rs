//! Character-sequence primitives used by the hardware parsers: whitespace
//! trimming, prefix and substring search, pattern removal, line splitting and
//! token extraction, each with a specification over `Seq<char>`.
use vstd::prelude::*;

verus! {

/// The Unicode `White_Space` property, the notion of whitespace used by
/// `str::trim` and `str::split_whitespace`.
pub open spec fn is_ws(c: char) -> bool {
    let u = c as u32;
    ||| 0x09 <= u <= 0x0D
    ||| u == 0x20
    ||| u == 0x85
    ||| u == 0xA0
    ||| u == 0x1680
    ||| 0x2000 <= u <= 0x200A
    ||| u == 0x2028
    ||| u == 0x2029
    ||| u == 0x202F
    ||| u == 0x205F
    ||| u == 0x3000
}

/// Executable test for the Unicode `White_Space` property.
pub fn is_whitespace(c: char) -> (b: bool)
    ensures
        b == is_ws(c),
{
    let u = c as u32;
    (0x09 <= u && u <= 0x0D) || u == 0x20 || u == 0x85 || u == 0xA0 || u == 0x1680 || (0x2000
        <= u && u <= 0x200A) || u == 0x2028 || u == 0x2029 || u == 0x202F || u == 0x205F || u
        == 0x3000
}

/// `s` with its leading whitespace removed.
pub open spec fn trim_start(s: Seq<char>) -> Seq<char>
    decreases s.len(),
{
    if s.len() > 0 && is_ws(s[0]) {
        trim_start(s.drop_first())
    } else {
        s
    }
}

/// `s` with its trailing whitespace removed.
pub open spec fn trim_end(s: Seq<char>) -> Seq<char>
    decreases s.len(),
{
    if s.len() > 0 && is_ws(s.last()) {
        trim_end(s.drop_last())
    } else {
        s
    }
}

/// `s` with leading and trailing whitespace removed, as `str::trim` does.
pub open spec fn trim(s: Seq<char>) -> Seq<char> {
    trim_end(trim_start(s))
}

/// The characters of a string slice, in order.
pub fn chars_of(s: &str) -> (res: Vec<char>)
    ensures
        res@ == s@,
{
    let mut res: Vec<char> = Vec::new();
    for c in it: s.chars()
        invariant
            res@ == it.seq().take(it.index() as int),
    {
        res.push(c);
    }
    res
}

/// Builds a `String` holding exactly the given characters (`FromIterator<&char>`
/// for `String`, std).
#[verifier::external_body]
pub(crate) fn string_from_chars(v: &Vec<char>) -> (res: String)
    ensures
        res@ == v@,
{
    v.iter().collect()
}

/// Whether two character vectors hold the same characters.
pub fn eq_chars(a: &Vec<char>, b: &Vec<char>) -> (r: bool)
    ensures
        r == (a@ == b@),
{
    if a.len() != b.len() {
        return false;
    }
    let n = a.len();
    let mut i: usize = 0;
    while i < n
        invariant
            n == a.len(),
            n == b.len(),
            i <= n,
            forall|k: int| 0 <= k < i ==> a@[k] == b@[k],
        decreases n - i,
    {
        if a[i] != b[i] {
            return false;
        }
        i = i + 1;
    }
    assert(a@ =~= b@);
    true
}

/// Strings holding the given character sequences, in order.
pub fn strings_from(v: &Vec<Vec<char>>) -> (res: Vec<String>)
    ensures
        res@.map_values(|s: String| s@) == char_views(v@),
{
    let n = v.len();
    let mut res: Vec<String> = Vec::new();
    let mut i: usize = 0;
    while i < n
        invariant
            n == v.len(),
            i <= n,
            res@.map_values(|s: String| s@) == char_views(v@).take(i as int),
        decreases n - i,
    {
        let s = string_from_chars(&v[i]);
        let ghost before = res@.map_values(|s: String| s@);
        res.push(s);
        assert(res@.map_values(|s: String| s@) =~= before.push(v@[i as int]@));
        assert(char_views(v@).take(i + 1) =~= char_views(v@).take(i as int).push(v@[i as int]@));
        i = i + 1;
    }
    assert(char_views(v@).take(n as int) =~= char_views(v@));
    res
}

/// Appends every character of `src` to `dst`.
pub fn push_all(dst: &mut Vec<char>, src: &Vec<char>)
    ensures
        final(dst)@ == old(dst)@ + src@,
{
    let ghost start = dst@;
    let n = src.len();
    let mut i: usize = 0;
    while i < n
        invariant
            n == src.len(),
            i <= n,
            dst@ == start + src@.take(i as int),
        decreases n - i,
    {
        dst.push(src[i]);
        i = i + 1;
        assert(src@.take(i as int) =~= src@.take((i - 1) as int).push(src@[i - 1]));
    }
    assert(src@.take(n as int) =~= src@);
}

/// Concatenation of two character sequences into a fresh vector.
pub fn concat(a: &Vec<char>, b: &Vec<char>) -> (res: Vec<char>)
    ensures
        res@ == a@ + b@,
{
    let mut res: Vec<char> = Vec::new();
    push_all(&mut res, a);
    push_all(&mut res, b);
    assert(res@ =~= a@ + b@);
    res
}

/// A copy of `s[lo..hi]`.
pub fn slice_chars(s: &Vec<char>, lo: usize, hi: usize) -> (res: Vec<char>)
    requires
        lo <= hi <= s.len(),
    ensures
        res@ == s@.subrange(lo as int, hi as int),
{
    let mut res: Vec<char> = Vec::new();
    let mut i: usize = lo;
    while i < hi
        invariant
            lo <= i <= hi <= s.len(),
            res@ == s@.subrange(lo as int, i as int),
        decreases hi - i,
    {
        res.push(s[i]);
        i = i + 1;
        assert(res@ =~= s@.subrange(lo as int, i as int));
    }
    res
}

proof fn lemma_trim_start_step(s: Seq<char>, i: int)
    requires
        0 <= i < s.len(),
        is_ws(s[i]),
    ensures
        trim_start(s.subrange(i, s.len() as int)) == trim_start(s.subrange(i + 1, s.len() as int)),
{
    let t = s.subrange(i, s.len() as int);
    assert(t.drop_first() =~= s.subrange(i + 1, s.len() as int));
}

proof fn lemma_trim_end_step(s: Seq<char>, j: int)
    requires
        0 < j <= s.len(),
        is_ws(s[j - 1]),
    ensures
        trim_end(s.subrange(0, j)) == trim_end(s.subrange(0, j - 1)),
{
    let t = s.subrange(0, j);
    assert(t.drop_last() =~= s.subrange(0, j - 1));
}

/// Index of the first non-whitespace character of `s` (or its length).
fn trim_start_index(s: &Vec<char>) -> (i: usize)
    ensures
        i <= s.len(),
        trim_start(s@) == s@.subrange(i as int, s.len() as int),
{
    let n = s.len();
    let mut i: usize = 0;
    assert(s@.subrange(0, n as int) =~= s@);
    while i < n && is_whitespace(s[i])
        invariant
            n == s.len(),
            i <= n,
            trim_start(s@) == trim_start(s@.subrange(i as int, n as int)),
        decreases n - i,
    {
        proof {
            lemma_trim_start_step(s@, i as int);
        }
        i = i + 1;
    }
    i
}

/// `s` with leading and trailing whitespace removed.
pub fn trim_chars(s: &Vec<char>) -> (res: Vec<char>)
    ensures
        res@ == trim(s@),
{
    let i = trim_start_index(s);
    let t = slice_chars(s, i, s.len());
    let n = t.len();
    let mut j: usize = n;
    assert(t@.subrange(0, n as int) =~= t@);
    while j > 0 && is_whitespace(t[j - 1])
        invariant
            n == t.len(),
            j <= n,
            trim_end(t@) == trim_end(t@.subrange(0, j as int)),
        decreases j,
    {
        proof {
            lemma_trim_end_step(t@, j as int);
        }
        j = j - 1;
    }
    let res = slice_chars(&t, 0, j);
    res
}

/// `s` begins with `p`.
pub open spec fn has_prefix(s: Seq<char>, p: Seq<char>) -> bool {
    p.len() <= s.len() && s.subrange(0, p.len() as int) == p
}

/// `s[at..at + p.len()]` is `p`.
pub open spec fn occurs_at(s: Seq<char>, p: Seq<char>, at: int) -> bool {
    0 <= at && at + p.len() <= s.len() && s.subrange(at, at + p.len()) == p
}

/// Whether `p` occurs at offset `at` of `s`.
pub fn matches_at(s: &Vec<char>, p: &Vec<char>, at: usize) -> (b: bool)
    ensures
        b == occurs_at(s@, p@, at as int),
{
    if p.len() > s.len() || at > s.len() - p.len() {
        return false;
    }
    let m = p.len();
    let mut k: usize = 0;
    while k < m
        invariant
            m == p.len(),
            at + m <= s.len(),
            k <= m,
            forall|q: int| 0 <= q < k ==> s@[at + q] == p@[q],
        decreases m - k,
    {
        if s[at + k] != p[k] {
            assert(s@.subrange(at as int, at + m)[k as int] != p@[k as int]);
            return false;
        }
        k = k + 1;
    }
    assert(s@.subrange(at as int, at + m) =~= p@);
    true
}

/// Whether `s` begins with `p` (`str::starts_with`).
pub fn starts_with(s: &Vec<char>, p: &Vec<char>) -> (b: bool)
    ensures
        b == has_prefix(s@, p@),
{
    matches_at(s, p, 0)
}

/// Offset of the leftmost occurrence of `p` in `s` at or after `from`.
pub open spec fn find_from(s: Seq<char>, p: Seq<char>, from: int) -> Option<int>
    decreases s.len() + 1 - from,
{
    if from < 0 || from + p.len() > s.len() {
        None
    } else if occurs_at(s, p, from) {
        Some(from)
    } else {
        find_from(s, p, from + 1)
    }
}

/// `p` occurs somewhere in `s` (`str::contains` with a string pattern).
pub open spec fn has_substring(s: Seq<char>, p: Seq<char>) -> bool {
    find_from(s, p, 0) is Some
}

proof fn lemma_find_from_none(s: Seq<char>, p: Seq<char>, from: int)
    requires
        0 <= from,
        from + p.len() > s.len(),
    ensures
        find_from(s, p, from) is None,
{
}

/// Whether `p` occurs in `s`.
pub fn contains_chars(s: &Vec<char>, p: &Vec<char>) -> (b: bool)
    ensures
        b == has_substring(s@, p@),
{
    if p.len() > s.len() {
        return false;
    }
    let last = s.len() - p.len();
    let mut i: usize = 0;
    loop
        invariant
            last == s.len() - p.len(),
            p.len() <= s.len(),
            i <= last,
            find_from(s@, p@, 0) == find_from(s@, p@, i as int),
        decreases last - i,
    {
        if matches_at(s, p, i) {
            return true;
        }
        if i == last {
            proof {
                lemma_find_from_none(s@, p@, i + 1);
            }
            return false;
        }
        i = i + 1;
    }
}

/// Whether the character `c` occurs in `s`.
pub fn contains_char(s: &Vec<char>, c: char) -> (b: bool)
    ensures
        b == s@.contains(c),
{
    let n = s.len();
    let mut i: usize = 0;
    while i < n
        invariant
            n == s.len(),
            i <= n,
            forall|k: int| 0 <= k < i ==> s@[k] != c,
        decreases n - i,
    {
        if s[i] == c {
            return true;
        }
        i = i + 1;
    }
    false
}

/// `s` with every non-overlapping occurrence of `p` (scanned left to right)
/// deleted, which is `str::replace(p, "")` for a non-empty `p`.
pub open spec fn remove_all(s: Seq<char>, p: Seq<char>) -> Seq<char>
    decreases s.len(),
{
    if p.len() == 0 || s.len() < p.len() {
        s
    } else if s.subrange(0, p.len() as int) == p {
        remove_all(s.subrange(p.len() as int, s.len() as int), p)
    } else {
        seq![s[0]] + remove_all(s.drop_first(), p)
    }
}

/// Deletes every occurrence of the non-empty pattern `p` from `s`.
pub fn remove_all_chars(s: &Vec<char>, p: &Vec<char>) -> (res: Vec<char>)
    requires
        p.len() > 0,
    ensures
        res@ == remove_all(s@, p@),
{
    let n = s.len();
    let m = p.len();
    let mut res: Vec<char> = Vec::new();
    let mut i: usize = 0;
    assert(s@.subrange(0, n as int) =~= s@);
    while i < n
        invariant
            n == s.len(),
            m == p.len(),
            m > 0,
            i <= n,
            res@ + remove_all(s@.subrange(i as int, n as int), p@) == remove_all(s@, p@),
        decreases n - i,
    {
        let ghost t = s@.subrange(i as int, n as int);
        if matches_at(s, p, i) {
            proof {
                assert(t.subrange(0, m as int) =~= s@.subrange(i as int, i + m));
                assert(t.subrange(m as int, t.len() as int) =~= s@.subrange(i + m, n as int));
            }
            i = i + m;
        } else {
            proof {
                if t.len() >= m {
                    assert(t.subrange(0, m as int) =~= s@.subrange(i as int, i + m));
                }
                assert(t.drop_first() =~= s@.subrange(i + 1, n as int));
                assert(res@.push(s@[i as int]) + remove_all(t.drop_first(), p@) =~= res@ + (seq![
                    t[0],
                ] + remove_all(t.drop_first(), p@)));
            }
            res.push(s[i]);
            i = i + 1;
        }
    }
    assert(s@.subrange(n as int, n as int) =~= Seq::<char>::empty());
    assert(res@ + Seq::<char>::empty() =~= res@);
    res
}

/// The pieces of `s` between occurrences of `sep`, as `str::split(sep)`
/// produces them (always at least one piece).
pub open spec fn split_on(s: Seq<char>, sep: char) -> Seq<Seq<char>>
    decreases s.len(),
{
    if s.len() == 0 {
        seq![Seq::<char>::empty()]
    } else {
        let r = split_on(s.drop_last(), sep);
        if s.last() == sep {
            r.push(Seq::<char>::empty())
        } else {
            r.update(r.len() - 1, r.last().push(s.last()))
        }
    }
}

/// `split_on` yields at least one piece.
pub proof fn lemma_split_on_nonempty(s: Seq<char>, sep: char)
    ensures
        split_on(s, sep).len() >= 1,
    decreases s.len(),
{
    if s.len() > 0 {
        lemma_split_on_nonempty(s.drop_last(), sep);
    }
}

/// The views of a sequence of character vectors.
pub open spec fn char_views(v: Seq<Vec<char>>) -> Seq<Seq<char>> {
    v.map_values(|x: Vec<char>| x@)
}

/// Splits `s` at every occurrence of `sep`.
pub fn split_chars(s: &Vec<char>, sep: char) -> (res: Vec<Vec<char>>)
    ensures
        char_views(res@) == split_on(s@, sep),
{
    let n = s.len();
    let mut done: Vec<Vec<char>> = Vec::new();
    let mut cur: Vec<char> = Vec::new();
    let mut i: usize = 0;
    assert(s@.take(0) =~= Seq::<char>::empty());
    assert(char_views(done@).push(cur@) =~= seq![Seq::<char>::empty()]);
    while i < n
        invariant
            n == s.len(),
            i <= n,
            char_views(done@).push(cur@) == split_on(s@.take(i as int), sep),
        decreases n - i,
    {
        let ghost prev = s@.take(i as int);
        let ghost next = s@.take(i + 1);
        assert(next.drop_last() =~= prev);
        proof {
            lemma_split_on_nonempty(prev, sep);
        }
        let c = s[i];
        if c == sep {
            let ghost dv = char_views(done@);
            let ghost pv = cur@;
            let piece = cur;
            done.push(piece);
            cur = Vec::new();
            assert(char_views(done@) =~= dv.push(pv));
            assert(char_views(done@).push(cur@) =~= split_on(next, sep));
        } else {
            cur.push(c);
            assert(char_views(done@).push(cur@) =~= split_on(prev, sep).update(
                split_on(prev, sep).len() - 1,
                split_on(prev, sep).last().push(c),
            ));
        }
        i = i + 1;
    }
    assert(s@.take(n as int) =~= s@);
    done.push(cur);
    assert(char_views(done@) =~= split_on(s@, sep));
    done
}

/// `s` with its leading whitespace removed, then cut before the first
/// remaining whitespace character.
pub open spec fn take_until_ws(s: Seq<char>) -> Seq<char>
    decreases s.len(),
{
    if s.len() == 0 || is_ws(s[0]) {
        Seq::<char>::empty()
    } else {
        seq![s[0]] + take_until_ws(s.drop_first())
    }
}

/// The first whitespace-separated token of `s`, as
/// `str::split_whitespace().next()` returns it.
pub open spec fn first_token(s: Seq<char>) -> Option<Seq<char>> {
    let t = trim_start(s);
    if t.len() == 0 {
        None
    } else {
        Some(take_until_ws(t))
    }
}

/// The first whitespace-separated token of `s`, if any.
pub fn first_token_chars(s: &Vec<char>) -> (res: Option<Vec<char>>)
    ensures
        res matches Some(t) ==> first_token(s@) == Some(t@),
        res is None ==> first_token(s@) is None,
{
    let i = trim_start_index(s);
    let n = s.len();
    if i == n {
        return None;
    }
    let mut j: usize = i;
    let ghost t = s@.subrange(i as int, n as int);
    assert(s@.subrange(i as int, n as int) =~= t);
    while j < n && !is_whitespace(s[j])
        invariant
            i <= j <= n,
            n == s.len(),
            t == s@.subrange(i as int, n as int),
            take_until_ws(t) == s@.subrange(i as int, j as int) + take_until_ws(
                s@.subrange(j as int, n as int),
            ),
        decreases n - j,
    {
        let ghost u = s@.subrange(j as int, n as int);
        assert(u.drop_first() =~= s@.subrange(j + 1, n as int));
        assert(s@.subrange(i as int, j as int) + (seq![u[0]] + take_until_ws(u.drop_first()))
            =~= s@.subrange(i as int, j + 1) + take_until_ws(s@.subrange(j + 1, n as int)));
        j = j + 1;
    }
    assert(take_until_ws(s@.subrange(j as int, n as int)) =~= Seq::<char>::empty());
    assert(s@.subrange(i as int, j as int) + Seq::<char>::empty() =~= s@.subrange(
        i as int,
        j as int,
    ));
    Some(slice_chars(s, i, j))
}

/// Index of the first occurrence of `c` in `s`, if any.
pub open spec fn index_of(s: Seq<char>, c: char) -> Option<int>
    decreases s.len(),
{
    if s.len() == 0 {
        None
    } else if s[0] == c {
        Some(0)
    } else {
        match index_of(s.drop_first(), c) {
            Some(k) => Some(k + 1),
            None => None,
        }
    }
}

/// `index_of` finds the leftmost occurrence.
pub proof fn lemma_index_of(s: Seq<char>, c: char)
    ensures
        index_of(s, c) matches Some(k) ==> 0 <= k < s.len() && s[k] == c && forall|q: int|
            0 <= q < k ==> s[q] != c,
        index_of(s, c) is None ==> !s.contains(c),
    decreases s.len(),
{
    if s.len() > 0 {
        lemma_index_of(s.drop_first(), c);
        if s[0] != c {
            if index_of(s.drop_first(), c) is None {
                assert forall|q: int| 0 <= q < s.len() implies s[q] != c by {
                    if q > 0 {
                        assert(s.drop_first()[q - 1] == s[q]);
                    }
                }
            } else {
                let k = index_of(s.drop_first(), c)->0;
                assert forall|q: int| 0 <= q < k + 1 implies s[q] != c by {
                    if q > 0 {
                        assert(s.drop_first()[q - 1] == s[q]);
                    }
                }
            }
        }
    }
}

/// The part of `s` before and after the first `c`, as `str::split_once(c)`.
pub open spec fn split_once(s: Seq<char>, c: char) -> Option<(Seq<char>, Seq<char>)> {
    match index_of(s, c) {
        Some(k) => Some((s.subrange(0, k), s.subrange(k + 1, s.len() as int))),
        None => None,
    }
}

/// Splits `s` at the first occurrence of `c`.
pub fn split_once_chars(s: &Vec<char>, c: char) -> (res: Option<(Vec<char>, Vec<char>)>)
    ensures
        res matches Some(p) ==> split_once(s@, c) == Some((p.0@, p.1@)),
        res is None ==> split_once(s@, c) is None,
{
    proof {
        lemma_index_of(s@, c);
    }
    let n = s.len();
    let mut i: usize = 0;
    while i < n
        invariant
            n == s.len(),
            i <= n,
            forall|k: int| 0 <= k < i ==> s@[k] != c,
        decreases n - i,
    {
        if s[i] == c {
            assert(s@[i as int] == c);
            proof {
                lemma_index_of(s@, c);
                match index_of(s@, c) {
                    Some(k) => {
                        assert(k == i);
                    },
                    None => {
                        assert(s@.contains(c));
                    },
                }
            }
            let before = slice_chars(s, 0, i);
            let after = slice_chars(s, i + 1, n);
            return Some((before, after));
        }
        i = i + 1;
    }
    proof {
        if let Some(k) = index_of(s@, c) {
            assert(s@[k] == c);
        }
    }
    None
}

} // verus!
