//! Write-scope prefix intersection.
//! Paths are treated as directory prefixes; a trailing `/` is normalized.
use vstd::prelude::*;
use crate::text::{chars_of, string_of, chars_eq, chars_starts_with, chars_push, chars_slice, views};

verus! {

/// Unicode `White_Space`, the set `char::is_whitespace` tests.
pub open spec fn is_white(c: char) -> bool {
    let u = c as u32;
    (0x09 <= u && u <= 0x0d) || u == 0x20 || u == 0x85 || u == 0xa0 || u == 0x1680 || (0x2000
        <= u && u <= 0x200a) || u == 0x2028 || u == 0x2029 || u == 0x202f || u == 0x205f || u
        == 0x3000
}

/// `s` without its leading white space.
pub open spec fn trim_start_white(s: Seq<char>) -> Seq<char>
    decreases s.len(),
{
    if s.len() > 0 && is_white(s[0]) {
        trim_start_white(s.drop_first())
    } else {
        s
    }
}

/// `s` without its trailing white space.
pub open spec fn trim_end_white(s: Seq<char>) -> Seq<char>
    decreases s.len(),
{
    if s.len() > 0 && is_white(s.last()) {
        trim_end_white(s.drop_last())
    } else {
        s
    }
}

/// `s` without white space at either end (`str::trim`).
pub open spec fn trim_white(s: Seq<char>) -> Seq<char> {
    trim_end_white(trim_start_white(s))
}

/// `s` with every leading `"./"` removed (`trim_start_matches("./")`).
pub open spec fn strip_dot_slash(s: Seq<char>) -> Seq<char>
    decreases s.len(),
{
    if s.len() >= 2 && s[0] == '.' && s[1] == '/' {
        strip_dot_slash(s.subrange(2, s.len() as int))
    } else {
        s
    }
}

/// `s` with every trailing `c` removed (`trim_end_matches(c)`).
pub open spec fn trim_end_char(s: Seq<char>, c: char) -> Seq<char>
    decreases s.len(),
{
    if s.len() > 0 && s.last() == c {
        trim_end_char(s.drop_last(), c)
    } else {
        s
    }
}

/// The comparison form of a scope: trimmed, then without leading `./`.
pub open spec fn normalized(s: Seq<char>) -> Seq<char> {
    strip_dot_slash(trim_white(s))
}

/// A scope read as a directory: it ends in `/`.
pub open spec fn as_dir(scope: Seq<char>) -> Seq<char> {
    if scope.len() > 0 && scope.last() == '/' {
        scope
    } else {
        scope.push('/')
    }
}

/// `path` lies under `scope` (both already normalized): the scope is empty,
/// equal to the path, a directory prefix of it, or the path is the scope
/// without its trailing slashes.
pub open spec fn under_scope(path: Seq<char>, scope: Seq<char>) -> bool {
    ||| scope.len() == 0
    ||| path == scope
    ||| as_dir(scope).is_prefix_of(path)
    ||| path == trim_end_char(scope, '/')
}

/// Two scopes overlap: either is empty after normalization, or one lies under the other.
pub open spec fn scopes_overlap(a: Seq<char>, b: Seq<char>) -> bool {
    let na = normalized(a);
    let nb = normalized(b);
    na.len() == 0 || nb.len() == 0 || under_scope(na, nb) || under_scope(nb, na)
}

/// `path` lies under one of `scopes`.
pub open spec fn path_in_scope_list(path: Seq<char>, scopes: Seq<Seq<char>>) -> bool {
    exists|i: int| 0 <= i < scopes.len() && under_scope(normalized(path), normalized(#[trigger] scopes[i]))
}

/// Some scope of `a` overlaps some scope of `b`.
pub open spec fn scope_lists_conflict(a: Seq<Seq<char>>, b: Seq<Seq<char>>) -> bool {
    exists|i: int, j: int|
        0 <= i < a.len() && 0 <= j < b.len() && scopes_overlap(#[trigger] a[i], #[trigger] b[j])
}

/// `char::is_whitespace`, written out over the `White_Space` code points.
pub fn is_white_char(c: char) -> (r: bool)
    ensures
        r == is_white(c),
{
    let u = c as u32;
    (0x09 <= u && u <= 0x0d) || u == 0x20 || u == 0x85 || u == 0xa0 || u == 0x1680 || (0x2000
        <= u && u <= 0x200a) || u == 0x2028 || u == 0x2029 || u == 0x202f || u == 0x205f || u
        == 0x3000
}

proof fn lemma_drop_first_subrange(s: Seq<char>, i: int)
    requires
        0 <= i < s.len(),
    ensures
        s.subrange(i, s.len() as int).drop_first() == s.subrange(i + 1, s.len() as int),
{
    assert(s.subrange(i, s.len() as int).drop_first() =~= s.subrange(i + 1, s.len() as int));
}

proof fn lemma_drop_last_subrange(s: Seq<char>, j: int)
    requires
        0 < j <= s.len(),
    ensures
        s.subrange(0, j).drop_last() == s.subrange(0, j - 1),
{
    assert(s.subrange(0, j).drop_last() =~= s.subrange(0, j - 1));
}

/// The chars of `s` after `str::trim`.
pub(crate) fn trim_chars(s: &Vec<char>) -> (r: Vec<char>)
    ensures
        r@ == trim_white(s@),
{
    let n = s.len();
    let mut i: usize = 0;
    assert(s@.subrange(0, n as int) =~= s@);
    while i < n && is_white_char(s[i])
        invariant
            n == s.len(),
            i <= n,
            trim_start_white(s@) == trim_start_white(s@.subrange(i as int, n as int)),
        decreases n - i,
    {
        proof {
            lemma_drop_first_subrange(s@, i as int);
        }
        i = i + 1;
    }
    let ghost front = s@.subrange(i as int, n as int);
    assert(trim_start_white(front) == front);
    let mut j: usize = n;
    assert(front.subrange(0, (j - i) as int) =~= front);
    while j > i && is_white_char(s[j - 1])
        invariant
            n == s.len(),
            i <= j <= n,
            front == s@.subrange(i as int, n as int),
            trim_end_white(front) == trim_end_white(s@.subrange(i as int, j as int)),
        decreases j,
    {
        proof {
            assert(s@.subrange(i as int, j as int).drop_last() =~= s@.subrange(
                i as int,
                j - 1,
            ));
        }
        j = j - 1;
    }
    chars_slice(s, i, j)
}

/// The chars of `s` with every leading `"./"` removed.
fn strip_dot_slash_chars(s: &Vec<char>) -> (r: Vec<char>)
    ensures
        r@ == strip_dot_slash(s@),
{
    let n = s.len();
    let mut i: usize = 0;
    assert(s@.subrange(0, n as int) =~= s@);
    while n >= 2 && i <= n - 2 && s[i] == '.' && s[i + 1] == '/'
        invariant
            n == s.len(),
            i <= n,
            strip_dot_slash(s@) == strip_dot_slash(s@.subrange(i as int, n as int)),
        decreases n - i,
    {
        proof {
            let t = s@.subrange(i as int, n as int);
            assert(t.subrange(2, t.len() as int) =~= s@.subrange(i + 2, n as int));
        }
        i = i + 2;
    }
    proof {
        let t = s@.subrange(i as int, n as int);
        if t.len() >= 2 {
            assert(t[0] == s@[i as int]);
            assert(t[1] == s@[i + 1]);
        }
    }
    chars_slice(s, i, n)
}

/// The chars of `s` with every trailing `c` removed.
fn trim_end_char_chars(s: &Vec<char>, c: char) -> (r: Vec<char>)
    ensures
        r@ == trim_end_char(s@, c),
{
    let n = s.len();
    let mut j: usize = n;
    assert(s@.subrange(0, n as int) =~= s@);
    while j > 0 && s[j - 1] == c
        invariant
            n == s.len(),
            j <= n,
            trim_end_char(s@, c) == trim_end_char(s@.subrange(0, j as int), c),
        decreases j,
    {
        proof {
            lemma_drop_last_subrange(s@, j as int);
        }
        j = j - 1;
    }
    chars_slice(s, 0, j)
}

fn normalize_chars(s: &Vec<char>) -> (r: Vec<char>)
    ensures
        r@ == normalized(s@),
{
    let t = trim_chars(s);
    strip_dot_slash_chars(&t)
}

/// The comparison form of a scope: surrounding white space trimmed, every leading `./` removed.
pub fn normalize_scope(s: &str) -> (r: String)
    ensures
        r@ == normalized(s@),
{
    let v = chars_of(s);
    let n = normalize_chars(&v);
    string_of(&n)
}

/// Whether `path` lies under `scope`; both already normalized.
fn path_under_scope(path: &Vec<char>, scope: &Vec<char>) -> (r: bool)
    ensures
        r == under_scope(path@, scope@),
{
    if scope.len() == 0 {
        return true;
    }
    if chars_eq(path, scope) {
        return true;
    }
    let dir = if scope[scope.len() - 1] == '/' {
        scope.clone()
    } else {
        chars_push(scope, '/')
    };
    assert(dir@ == as_dir(scope@));
    if chars_starts_with(path, &dir) {
        return true;
    }
    let bare = trim_end_char_chars(scope, '/');
    chars_eq(path, &bare)
}

/// Whether `path` lies under any of `scopes` (exactly, or below a directory prefix).
pub fn path_in_scopes(path: &str, scopes: &Vec<String>) -> (r: bool)
    ensures
        r == path_in_scope_list(path@, views(scopes@)),
{
    let p = normalize_chars(&chars_of(path));
    let mut i: usize = 0;
    while i < scopes.len()
        invariant
            i <= scopes.len(),
            p@ == normalized(path@),
            forall|k: int|
                0 <= k < i ==> !under_scope(normalized(path@), normalized(#[trigger] scopes@[k]@)),
        decreases scopes.len() - i,
    {
        let sc = normalize_chars(&chars_of(scopes[i].as_str()));
        if path_under_scope(&p, &sc) {
            assert(views(scopes@)[i as int] == scopes@[i as int]@);
            return true;
        }
        i = i + 1;
    }
    assert forall|k: int| 0 <= k < views(scopes@).len() implies !under_scope(
        normalized(path@),
        normalized(#[trigger] views(scopes@)[k]),
    ) by {
        assert(views(scopes@)[k] == scopes@[k]@);
    }
    false
}

/// Whether two scopes overlap: equal, or one a directory prefix of the other
/// (an empty scope overlaps everything).
pub fn scopes_prefix_intersect(a: &str, b: &str) -> (r: bool)
    ensures
        r == scopes_overlap(a@, b@),
{
    let na = normalize_chars(&chars_of(a));
    let nb = normalize_chars(&chars_of(b));
    if na.len() == 0 || nb.len() == 0 {
        return true;
    }
    path_under_scope(&na, &nb) || path_under_scope(&nb, &na)
}

/// Whether any scope of `a` overlaps any scope of `b`.
pub fn scopes_conflict(a: &Vec<String>, b: &Vec<String>) -> (r: bool)
    ensures
        r == scope_lists_conflict(views(a@), views(b@)),
{
    let ghost va = views(a@);
    let ghost vb = views(b@);
    let mut i: usize = 0;
    while i < a.len()
        invariant
            i <= a.len(),
            va == views(a@),
            vb == views(b@),
            forall|x: int, y: int|
                0 <= x < i && 0 <= y < b.len() ==> !scopes_overlap(
                    #[trigger] va[x],
                    #[trigger] vb[y],
                ),
        decreases a.len() - i,
    {
        let mut j: usize = 0;
        while j < b.len()
            invariant
                i < a.len(),
                j <= b.len(),
                va == views(a@),
                vb == views(b@),
                forall|x: int, y: int|
                    0 <= x < i && 0 <= y < b.len() ==> !scopes_overlap(
                        #[trigger] va[x],
                        #[trigger] vb[y],
                    ),
                forall|y: int| 0 <= y < j ==> !scopes_overlap(va[i as int], #[trigger] vb[y]),
            decreases b.len() - j,
        {
            if scopes_prefix_intersect(a[i].as_str(), b[j].as_str()) {
                assert(scopes_overlap(va[i as int], vb[j as int]));
                return true;
            }
            j = j + 1;
        }
        i = i + 1;
    }
    false
}

/// Scope overlap is symmetric, and so is conflict between two scope lists.
pub proof fn lemma_overlap_symmetric(a: Seq<char>, b: Seq<char>, xs: Seq<Seq<char>>, ys: Seq<Seq<char>>)
    ensures
        scopes_overlap(a, b) == scopes_overlap(b, a),
        scope_lists_conflict(xs, ys) == scope_lists_conflict(ys, xs),
{
    if scope_lists_conflict(xs, ys) {
        let (i, j) = choose|i: int, j: int|
            0 <= i < xs.len() && 0 <= j < ys.len() && scopes_overlap(#[trigger] xs[i], #[trigger] ys[j]);
        assert(scopes_overlap(ys[j], xs[i]));
    }
    if scope_lists_conflict(ys, xs) {
        let (i, j) = choose|i: int, j: int|
            0 <= i < ys.len() && 0 <= j < xs.len() && scopes_overlap(#[trigger] ys[i], #[trigger] xs[j]);
        assert(scopes_overlap(xs[j], ys[i]));
    }
}

/// Every scope overlaps itself, and a scope that is empty after normalization overlaps every scope.
pub proof fn lemma_overlap_reflexive(a: Seq<char>, b: Seq<char>)
    ensures
        scopes_overlap(a, a),
        normalized(a).len() == 0 ==> scopes_overlap(a, b),
{
}

/// A path under a directory scope: when the normalized path starts with the
/// normalized scope read as a directory, the two overlap and the path lies in any list holding the scope.
pub proof fn lemma_directory_prefix_overlaps(scope: Seq<char>, path: Seq<char>, scopes: Seq<Seq<char>>, k: int)
    requires
        as_dir(normalized(scope)).is_prefix_of(normalized(path)),
        0 <= k < scopes.len(),
        scopes[k] == scope,
    ensures
        scopes_overlap(scope, path),
        path_in_scope_list(path, scopes),
{
    assert(under_scope(normalized(path), normalized(scopes[k])));
}

/// Conflict between two scope lists does not depend on where the scopes stand:
/// when the scope at any position `i` of `a` overlaps the scope at any position
/// `j` of `b` (in particular when either, normalized and read as a directory, is a
/// prefix of the other), the lists conflict; and scopes added before or after
/// either list never take a conflict away.
pub proof fn lemma_conflict_any_positions(
    a: Seq<Seq<char>>,
    b: Seq<Seq<char>>,
    i: int,
    j: int,
    extra: Seq<Seq<char>>,
)
    requires
        0 <= i < a.len(),
        0 <= j < b.len(),
    ensures
        scopes_overlap(a[i], b[j]) ==> scope_lists_conflict(a, b),
        as_dir(normalized(a[i])).is_prefix_of(normalized(b[j])) ==> scope_lists_conflict(a, b),
        as_dir(normalized(b[j])).is_prefix_of(normalized(a[i])) ==> scope_lists_conflict(a, b),
        scope_lists_conflict(a, b) ==> scope_lists_conflict(extra + a, b),
        scope_lists_conflict(a, b) ==> scope_lists_conflict(a + extra, b),
        scope_lists_conflict(a, b) ==> scope_lists_conflict(a, extra + b),
        scope_lists_conflict(a, b) ==> scope_lists_conflict(a, b + extra),
{
    if as_dir(normalized(a[i])).is_prefix_of(normalized(b[j])) {
        assert(under_scope(normalized(b[j]), normalized(a[i])));
    }
    if as_dir(normalized(b[j])).is_prefix_of(normalized(a[i])) {
        assert(under_scope(normalized(a[i]), normalized(b[j])));
    }
    if scopes_overlap(a[i], b[j]) {
        assert(scopes_overlap(a[i], b[j]));
    }
    if scope_lists_conflict(a, b) {
        let (x, y) = choose|x: int, y: int|
            0 <= x < a.len() && 0 <= y < b.len() && scopes_overlap(#[trigger] a[x], #[trigger] b[y]);
        let n = extra.len() as int;
        assert((extra + a)[x + n] == a[x]);
        assert(scopes_overlap((extra + a)[x + n], b[y]));
        assert((a + extra)[x] == a[x]);
        assert(scopes_overlap((a + extra)[x], b[y]));
        assert((extra + b)[y + n] == b[y]);
        assert(scopes_overlap(a[x], (extra + b)[y + n]));
        assert((b + extra)[y] == b[y]);
        assert(scopes_overlap(a[x], (b + extra)[y]));
    }
}

} // verus!
