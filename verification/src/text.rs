//! Character-level string helpers shared by the scope, ready and graph modules.
use vstd::prelude::*;

verus! {

/// Appends one character to a `String` (`String::push`); the contract claims
/// that the character is added at the end and nothing else changes.
#[verifier::external_body]
pub(crate) fn push_char(s: &mut String, c: char)
    ensures
        final(s)@ == old(s)@.push(c),
{
    s.push(c)
}

/// The characters of a string slice, in order.
pub fn chars_of(s: &str) -> (v: Vec<char>)
    ensures
        v@ == s@,
{
    let n = s.unicode_len();
    let mut v: Vec<char> = Vec::new();
    let mut i: usize = 0;
    while i < n
        invariant
            n == s@.len(),
            i <= n,
            v@ == s@.subrange(0, i as int),
        decreases n - i,
    {
        let c = s.get_char(i);
        v.push(c);
        i = i + 1;
        assert(v@ =~= s@.subrange(0, i as int));
    }
    assert(v@ =~= s@);
    v
}

/// Builds a `String` holding exactly the given characters.
pub fn string_of(v: &Vec<char>) -> (s: String)
    ensures
        s@ == v@,
{
    let mut s = String::new();
    let mut i: usize = 0;
    while i < v.len()
        invariant
            i <= v.len(),
            s@ == v@.subrange(0, i as int),
        decreases v.len() - i,
    {
        push_char(&mut s, v[i]);
        i = i + 1;
        assert(s@ =~= v@.subrange(0, i as int));
    }
    assert(s@ =~= v@);
    s
}

/// Equality of two character sequences.
pub fn chars_eq(a: &Vec<char>, b: &Vec<char>) -> (r: bool)
    ensures
        r == (a@ == b@),
{
    if a.len() != b.len() {
        return false;
    }
    let mut i: usize = 0;
    while i < a.len()
        invariant
            a.len() == b.len(),
            i <= a.len(),
            forall|k: int| 0 <= k < i ==> a@[k] == b@[k],
        decreases a.len() - i,
    {
        if a[i] != b[i] {
            return false;
        }
        i = i + 1;
    }
    assert(a@ =~= b@);
    true
}

/// Equality of two string slices, character by character.
pub fn str_eq(a: &str, b: &str) -> (r: bool)
    ensures
        r == (a@ == b@),
{
    let va = chars_of(a);
    let vb = chars_of(b);
    chars_eq(&va, &vb)
}

/// `p` is a prefix of `s`.
pub fn chars_starts_with(s: &Vec<char>, p: &Vec<char>) -> (r: bool)
    ensures
        r == p@.is_prefix_of(s@),
{
    if p.len() > s.len() {
        return false;
    }
    let mut i: usize = 0;
    while i < p.len()
        invariant
            p.len() <= s.len(),
            i <= p.len(),
            forall|k: int| 0 <= k < i ==> p@[k] == s@[k],
        decreases p.len() - i,
    {
        if p[i] != s[i] {
            return false;
        }
        i = i + 1;
    }
    assert(p@ =~= s@.subrange(0, p@.len() as int));
    true
}

/// A copy of `s` followed by the character `c`.
pub fn chars_push(s: &Vec<char>, c: char) -> (r: Vec<char>)
    ensures
        r@ == s@.push(c),
{
    let mut r = s.clone();
    r.push(c);
    r
}

/// The concatenation of two character sequences.
pub fn chars_concat(a: &Vec<char>, b: &Vec<char>) -> (r: Vec<char>)
    ensures
        r@ == a@ + b@,
{
    let mut r = a.clone();
    let mut i: usize = 0;
    while i < b.len()
        invariant
            i <= b.len(),
            r@ == a@ + b@.subrange(0, i as int),
        decreases b.len() - i,
    {
        r.push(b[i]);
        i = i + 1;
        assert(r@ =~= a@ + b@.subrange(0, i as int));
    }
    assert(b@.subrange(0, b@.len() as int) =~= b@);
    r
}

/// The characters `s[from..to]`.
pub fn chars_slice(s: &Vec<char>, from: usize, to: usize) -> (r: Vec<char>)
    requires
        from <= to <= s.len(),
    ensures
        r@ == s@.subrange(from as int, to as int),
{
    let mut r: Vec<char> = Vec::new();
    let mut i = from;
    while i < to
        invariant
            from <= i <= to <= s.len(),
            r@ == s@.subrange(from as int, i as int),
        decreases to - i,
    {
        r.push(s[i]);
        i = i + 1;
        assert(r@ =~= s@.subrange(from as int, i as int));
    }
    r
}

/// `c` occurs in `s`.
pub fn chars_contains(s: &Vec<char>, c: char) -> (r: bool)
    ensures
        r == s@.contains(c),
{
    let mut i: usize = 0;
    while i < s.len()
        invariant
            i <= s.len(),
            forall|k: int| 0 <= k < i ==> s@[k] != c,
        decreases s.len() - i,
    {
        if s[i] == c {
            assert(s@[i as int] == c);
            return true;
        }
        i = i + 1;
    }
    false
}

/// Membership of a string in a list of strings.
pub fn contains_string(list: &Vec<String>, s: &String) -> (r: bool)
    ensures
        r == exists|i: int| 0 <= i < list@.len() && #[trigger] list@[i]@ == s@,
{
    let mut i: usize = 0;
    while i < list.len()
        invariant
            i <= list.len(),
            forall|k: int| 0 <= k < i ==> #[trigger] list@[k]@ != s@,
        decreases list.len() - i,
    {
        if list[i] == *s {
            assert(list@[i as int]@ == s@);
            return true;
        }
        i = i + 1;
    }
    false
}

/// The views of a list of strings.
pub open spec fn views(list: Seq<String>) -> Seq<Seq<char>> {
    list.map_values(|s: String| s@)
}


/// Lexicographic order of character sequences by code point, the order of
/// `String`'s `Ord` (UTF-8 byte order agrees with code point order).
pub open spec fn lex_lt(a: Seq<char>, b: Seq<char>) -> bool
    decreases a.len(),
{
    if a.len() == 0 {
        b.len() > 0
    } else if b.len() == 0 {
        false
    } else if a[0] != b[0] {
        (a[0] as int) < (b[0] as int)
    } else {
        lex_lt(a.drop_first(), b.drop_first())
    }
}

/// Two different sequences are ordered one way or the other; none precedes itself.
pub proof fn lemma_lex_total(a: Seq<char>, b: Seq<char>)
    ensures
        a != b ==> lex_lt(a, b) || lex_lt(b, a),
        !lex_lt(a, a),
    decreases a.len(),
{
    if a.len() == 0 && b.len() == 0 {
        assert(a =~= b);
    }
    if a.len() > 0 && b.len() > 0 && a[0] == b[0] {
        lemma_lex_total(a.drop_first(), b.drop_first());
        if a != b {
            assert(a.drop_first() != b.drop_first()) by {
                if a.drop_first() == b.drop_first() {
                    assert forall|i: int| 0 <= i < a.len() implies a[i] == b[i] by {
                        if i > 0 {
                            assert(a[i] == a.drop_first()[i - 1]);
                            assert(b[i] == b.drop_first()[i - 1]);
                        }
                    }
                    assert(a =~= b);
                }
            }
        }
    }
    if a.len() > 0 {
        lemma_lex_total(a.drop_first(), a.drop_first());
    }
}

/// `a` precedes `b` in lexicographic order.
pub fn lex_less(a: &Vec<char>, b: &Vec<char>) -> (r: bool)
    ensures
        r == lex_lt(a@, b@),
{
    let mut i: usize = 0;
    assert(a@.skip(0) =~= a@);
    assert(b@.skip(0) =~= b@);
    while i < a.len() && i < b.len() && a[i] == b[i]
        invariant
            i <= a.len(),
            i <= b.len(),
            lex_lt(a@, b@) == lex_lt(a@.skip(i as int), b@.skip(i as int)),
        decreases a.len() - i,
    {
        proof {
            assert(a@.skip(i as int).drop_first() =~= a@.skip(i + 1));
            assert(b@.skip(i as int).drop_first() =~= b@.skip(i + 1));
        }
        i = i + 1;
    }
    if i == a.len() {
        i < b.len()
    } else if i == b.len() {
        false
    } else {
        a[i] < b[i]
    }
}

/// Consecutive entries increase strictly in lexicographic order.
pub open spec fn strictly_sorted(v: Seq<Seq<char>>) -> bool {
    forall|i: int| 0 <= i < v.len() - 1 ==> #[trigger] lex_lt(v[i], v[i + 1])
}

/// Inserts `x` into a strictly sorted list that does not hold it, keeping it sorted.
pub fn insert_sorted(out: &mut Vec<String>, x: String)
    requires
        strictly_sorted(views(old(out)@)),
        !views(old(out)@).contains(x@),
    ensures
        strictly_sorted(views(final(out)@)),
        views(final(out)@).len() == views(old(out)@).len() + 1,
        forall|y: Seq<char>| #[trigger] views(final(out)@).contains(y) <==> (views(old(out)@).contains(y) || y == x@),
{
    let xc = chars_of(x.as_str());
    let ghost old_v = views(out@);
    let mut p: usize = 0;
    while p < out.len()
        invariant
            p <= out@.len(),
            old_v == views(out@),
            xc@ == x@,
            strictly_sorted(old_v),
            !old_v.contains(x@),
            forall|k: int| 0 <= k < p ==> !lex_lt(x@, #[trigger] old_v[k]),
        ensures
            p <= out@.len(),
            old_v == views(out@),
            p < out@.len() ==> lex_lt(x@, old_v[p as int]),
            forall|k: int| 0 <= k < p ==> !lex_lt(x@, #[trigger] old_v[k]),
        decreases out.len() - p,
    {
        let yc = chars_of(out[p].as_str());
        assert(old_v[p as int] == out@[p as int]@);
        if lex_less(&xc, &yc) {
            break;
        }
        p = p + 1;
    }
    out.insert(p, x);
    proof {
        let nv = views(out@);
        assert(nv =~= old_v.insert(p as int, x@));
        assert forall|i: int| 0 <= i < nv.len() - 1 implies #[trigger] lex_lt(nv[i], nv[i + 1]) by {
            if i + 1 < p {
                assert(nv[i] == old_v[i] && nv[i + 1] == old_v[i + 1]);
            } else if i + 1 == p {
                assert(nv[i] == old_v[i] && nv[i + 1] == x@);
                assert(!lex_lt(x@, old_v[i]));
                assert(old_v[i] != x@) by {
                    assert(old_v.contains(old_v[i]));
                }
                lemma_lex_total(old_v[i], x@);
            } else if i == p {
                assert(nv[i] == x@ && nv[i + 1] == old_v[i]);
            } else {
                assert(nv[i] == old_v[i - 1] && nv[i + 1] == old_v[i]);
                assert(lex_lt(old_v[i - 1], old_v[(i - 1) + 1]));
            }
        }
        assert forall|y: Seq<char>| #[trigger] nv.contains(y) <==> (old_v.contains(y) || y == x@) by {
            if nv.contains(y) {
                let k = choose|k: int| 0 <= k < nv.len() && nv[k] == y;
                if k < p {
                    assert(old_v[k] == y);
                } else if k > p {
                    assert(old_v[k - 1] == y);
                }
            }
            if old_v.contains(y) {
                let k = choose|k: int| 0 <= k < old_v.len() && old_v[k] == y;
                if k < p {
                    assert(nv[k] == y);
                } else {
                    assert(nv[k + 1] == y);
                }
            }
            if y == x@ {
                assert(nv[p as int] == y);
            }
        }
    }
}


/// The pieces of `s` between the occurrences of `c` (one more piece than occurrences).
pub open spec fn split_on(s: Seq<char>, c: char) -> Seq<Seq<char>>
    decreases s.len(),
{
    if s.len() == 0 {
        seq![Seq::empty()]
    } else {
        let r = split_on(s.drop_last(), c);
        if s.last() == c {
            r.push(Seq::empty())
        } else {
            r.update(r.len() - 1, r.last().push(s.last()))
        }
    }
}

proof fn lemma_split_on_nonempty(s: Seq<char>, c: char)
    ensures
        split_on(s, c).len() >= 1,
    decreases s.len(),
{
    if s.len() > 0 {
        lemma_split_on_nonempty(s.drop_last(), c);
    }
}

/// `s` without one trailing `'\r'`.
pub open spec fn strip_cr(s: Seq<char>) -> Seq<char> {
    if s.len() > 0 && s.last() == '\r' {
        s.drop_last()
    } else {
        s
    }
}

/// The lines of `s` as `str::lines` gives them: split at `"\n"` or `"\r\n"`;
/// the final line ending is optional, and no empty line follows it.
pub open spec fn text_lines(s: Seq<char>) -> Seq<Seq<char>> {
    let pieces = split_on(s, '\n');
    let k = pieces.len() - 1;
    let ended = Seq::new(k as nat, |i: int| strip_cr(pieces[i]));
    if pieces[k].len() == 0 {
        ended
    } else {
        ended.push(pieces[k])
    }
}

/// The lines of a text (see [`text_lines`]).
pub fn lines_of(s: &Vec<char>) -> (r: Vec<Vec<char>>)
    ensures
        r@.len() == text_lines(s@).len(),
        forall|i: int| 0 <= i < r@.len() ==> (#[trigger] r@[i])@ == text_lines(s@)[i],
{
    let mut done: Vec<Vec<char>> = Vec::new();
    let mut cur: Vec<char> = Vec::new();
    let mut i: usize = 0;
    assert(s@.subrange(0, 0) =~= Seq::<char>::empty());
    while i < s.len()
        invariant
            i <= s@.len(),
            split_on(s@.subrange(0, i as int), '\n').len() == done@.len() + 1,
            forall|k: int| 0 <= k < done@.len() ==> (#[trigger] done@[k])@ == split_on(s@.subrange(0, i as int), '\n')[k],
            cur@ == split_on(s@.subrange(0, i as int), '\n').last(),
        decreases s.len() - i,
    {
        let ghost pre = s@.subrange(0, i as int);
        let ghost r = split_on(pre, '\n');
        proof {
            assert(s@.subrange(0, i + 1).drop_last() =~= pre);
            assert(s@.subrange(0, i + 1).last() == s@[i as int]);
        }
        if s[i] == '\n' {
            let ghost old_done = done@;
            done.push(cur);
            cur = Vec::new();
            proof {
                assert forall|k: int| 0 <= k < done@.len() implies (#[trigger] done@[k])@ == split_on(s@.subrange(0, i + 1), '\n')[k] by {
                    if k < old_done.len() {
                        assert(done@[k] == old_done[k]);
                    }
                }
                assert(cur@ =~= Seq::<char>::empty());
            }
        } else {
            cur.push(s[i]);
        }
        i = i + 1;
    }
    assert(s@.subrange(0, s@.len() as int) =~= s@);
    let ghost pieces = split_on(s@, '\n');
    let mut out: Vec<Vec<char>> = Vec::new();
    let mut k: usize = 0;
    while k < done.len()
        invariant
            k <= done@.len(),
            pieces.len() == done@.len() + 1,
            forall|j: int| 0 <= j < done@.len() ==> (#[trigger] done@[j])@ == pieces[j],
            out@.len() == k,
            forall|j: int| 0 <= j < k ==> (#[trigger] out@[j])@ == strip_cr(pieces[j]),
        decreases done.len() - k,
    {
        let piece = &done[k];
        let line = if piece.len() > 0 && piece[piece.len() - 1] == '\r' {
            chars_slice(piece, 0, piece.len() - 1)
        } else {
            piece.clone()
        };
        proof {
            if piece@.len() > 0 && piece@.last() == '\r' {
                assert(line@ =~= piece@.drop_last());
            }
        }
        out.push(line);
        k = k + 1;
    }
    if cur.len() > 0 {
        out.push(cur);
    }
    proof {
        let ended = Seq::new((pieces.len() - 1) as nat, |j: int| strip_cr(pieces[j]));
        if cur@.len() > 0 {
            assert forall|j: int| 0 <= j < out@.len() implies (#[trigger] out@[j])@ == text_lines(s@)[j] by {
                if j < ended.len() {
                    assert(text_lines(s@)[j] == ended[j]);
                } else {
                    assert(text_lines(s@)[j] == pieces[pieces.len() - 1]);
                }
            }
        } else {
            assert forall|j: int| 0 <= j < out@.len() implies (#[trigger] out@[j])@ == text_lines(s@)[j] by {
                assert(text_lines(s@)[j] == ended[j]);
            }
        }
    }
    out
}

/// `needle` occurs in `hay` starting at position `i`.
pub open spec fn occurs_at(hay: Seq<char>, needle: Seq<char>, i: int) -> bool {
    0 <= i && i + needle.len() <= hay.len() && hay.subrange(i, i + needle.len()) == needle
}

/// `needle` occurs somewhere in `hay` (`str::contains`).
pub open spec fn contains_sub(hay: Seq<char>, needle: Seq<char>) -> bool {
    exists|i: int| #[trigger] occurs_at(hay, needle, i)
}

/// The first position where `needle` occurs in `hay`, if any.
pub fn find_sub(hay: &Vec<char>, needle: &Vec<char>) -> (r: Option<usize>)
    ensures
        r matches Some(i) ==> occurs_at(hay@, needle@, i as int) && forall|j: int| 0 <= j < i ==> !#[trigger] occurs_at(hay@, needle@, j),
        r is None ==> !contains_sub(hay@, needle@),
{
    if needle.len() > hay.len() {
        return None;
    }
    let last = hay.len() - needle.len();
    let mut i: usize = 0;
    while i <= last
        invariant
            last == hay@.len() - needle@.len(),
            needle@.len() <= hay@.len(),
            i <= last,
            forall|j: int| 0 <= j < i ==> !#[trigger] occurs_at(hay@, needle@, j),
        decreases last - i,
    {
        let mut k: usize = 0;
        let mut same = true;
        while k < needle.len()
            invariant
                i <= last,
                last == hay@.len() - needle@.len(),
                needle@.len() <= hay@.len(),
                k <= needle@.len(),
                same == forall|m: int| 0 <= m < k ==> hay@[i + m] == needle@[m],
            decreases needle.len() - k,
        {
            let hn = hay.len();
            assert(i + k < hn);
            if hay[i + k] != needle[k] {
                same = false;
            }
            k = k + 1;
        }
        if same {
            assert(hay@.subrange(i as int, i + needle@.len()) =~= needle@);
            return Some(i);
        }
        proof {
            assert(!occurs_at(hay@, needle@, i as int)) by {
                if occurs_at(hay@, needle@, i as int) {
                    assert forall|m: int| 0 <= m < needle@.len() implies hay@[i + m] == needle@[m] by {
                        assert(hay@.subrange(i as int, i + needle@.len())[m] == hay@[i + m]);
                    }
                }
            }
        }
        if i == last {
            return None;
        }
        i = i + 1;
    }
    None
}

/// Whether `s` from position `i` on matches the SQL `LIKE` pattern `p` from
/// position `j` on: `%` matches any run of characters, `_` any one
/// character, `\` makes the character after it literal, and every other
/// character matches itself.
pub open spec fn like_from(s: Seq<char>, p: Seq<char>, i: int, j: int) -> bool
    decreases (s.len() - i) + (p.len() - j),
{
    if i < 0 || j < 0 || i > s.len() || j > p.len() {
        false
    } else if j == p.len() {
        i == s.len()
    } else if p[j] == '%' {
        like_from(s, p, i, j + 1) || (i < s.len() && like_from(s, p, i + 1, j))
    } else if p[j] == '\\' && j + 1 < p.len() {
        i < s.len() && s[i] == p[j + 1] && like_from(s, p, i + 1, j + 2)
    } else if p[j] == '_' {
        i < s.len() && like_from(s, p, i + 1, j + 1)
    } else {
        i < s.len() && s[i] == p[j] && like_from(s, p, i + 1, j + 1)
    }
}

fn falses(n: usize) -> (v: Vec<bool>)
    ensures
        v@.len() == n,
        forall|i: int| 0 <= i < n ==> !#[trigger] v@[i],
{
    let mut v: Vec<bool> = Vec::new();
    let mut k: usize = 0;
    while k < n
        invariant
            k <= n,
            v@.len() == k,
            forall|i: int| 0 <= i < k ==> !#[trigger] v@[i],
        decreases n - k,
    {
        v.push(false);
        k = k + 1;
    }
    v
}

/// Whether `s` matches the SQL `LIKE` pattern `p` (`s LIKE p`).
pub fn sql_like(s: &Vec<char>, p: &Vec<char>) -> (r: bool)
    ensures
        r == like_from(s@, p@, 0, 0),
{
    let n = s.len();
    let m = p.len();
    let mut col1 = falses(n);
    let mut end1 = true;
    let mut col2 = falses(n);
    let mut end2 = true;
    assert forall|i: int| 0 <= i < n implies col1@[i] == like_from(s@, p@, i, m as int) by {}
    let mut j = m;
    while j > 0
        invariant
            j <= m,
            n == s@.len(),
            m == p@.len(),
            col1@.len() == n,
            forall|i: int| 0 <= i < n ==> #[trigger] col1@[i] == like_from(s@, p@, i, j as int),
            end1 == like_from(s@, p@, n as int, j as int),
            j + 1 <= m ==> col2@.len() == n && end2 == like_from(s@, p@, n as int, j + 1) && forall|i: int|
                0 <= i < n ==> #[trigger] col2@[i] == like_from(s@, p@, i, j + 1),
        decreases j,
    {
        let jj = j - 1;
        let pc = p[jj];
        let mut cur = falses(n);
        let cur_end: bool;
        if pc == '%' {
            cur_end = end1;
            let mut i = n;
            let mut nextv = cur_end;
            while i > 0
                invariant
                    i <= n,
                    n == s@.len(),
                    m == p@.len(),
                    jj < m,
                    p@[jj as int] == '%',
                    cur@.len() == n,
                    col1@.len() == n,
                    forall|t: int| 0 <= t < n ==> #[trigger] col1@[t] == like_from(s@, p@, t, jj + 1),
                    nextv == like_from(s@, p@, i as int, jj as int),
                    forall|t: int| i <= t < n ==> #[trigger] cur@[t] == like_from(s@, p@, t, jj as int),
                decreases i,
            {
                i = i - 1;
                let v = col1[i] || nextv;
                cur.set(i, v);
                nextv = v;
            }
        } else if pc == '\\' && jj + 1 < m {
            cur_end = false;
            let q = p[jj + 1];
            let mut i: usize = 0;
            while i < n
                invariant
                    i <= n,
                    n == s@.len(),
                    m == p@.len(),
                    jj + 1 < m,
                    p@[jj as int] == '\\',
                    q == p@[jj + 1],
                    cur@.len() == n,
                    col2@.len() == n,
                    end2 == like_from(s@, p@, n as int, jj + 2),
                    forall|t: int| 0 <= t < n ==> #[trigger] col2@[t] == like_from(s@, p@, t, jj + 2),
                    forall|t: int| 0 <= t < i ==> #[trigger] cur@[t] == like_from(s@, p@, t, jj as int),
                decreases n - i,
            {
                let rest = if i + 1 < n { col2[i + 1] } else { end2 };
                cur.set(i, s[i] == q && rest);
                i = i + 1;
            }
        } else {
            cur_end = false;
            let mut i: usize = 0;
            while i < n
                invariant
                    i <= n,
                    n == s@.len(),
                    m == p@.len(),
                    jj < m,
                    pc == p@[jj as int],
                    pc != '%',
                    !(pc == '\\' && jj + 1 < m),
                    cur@.len() == n,
                    col1@.len() == n,
                    end1 == like_from(s@, p@, n as int, jj + 1),
                    forall|t: int| 0 <= t < n ==> #[trigger] col1@[t] == like_from(s@, p@, t, jj + 1),
                    forall|t: int| 0 <= t < i ==> #[trigger] cur@[t] == like_from(s@, p@, t, jj as int),
                decreases n - i,
            {
                let rest = if i + 1 < n { col1[i + 1] } else { end1 };
                let here = pc == '_' || s[i] == pc;
                cur.set(i, here && rest);
                i = i + 1;
            }
        }
        col2 = col1;
        end2 = end1;
        col1 = cur;
        end1 = cur_end;
        j = jj;
    }
    if n == 0 {
        end1
    } else {
        col1[0]
    }
}

} // verus!
