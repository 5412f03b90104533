//! The git working tree as the store sees it: porcelain status lines, their
//! partition against write scopes, and commit-log lookups.
use vstd::prelude::*;
use crate::text::{chars_of, chars_slice, lines_of, find_sub, string_of, str_eq, text_lines, occurs_at, contains_sub, views};
use crate::write_scope::{path_in_scopes, path_in_scope_list, scopes_conflict, scope_lists_conflict, trim_white, trim_chars};

verus! {

/// A git working tree.
#[derive(Debug, Clone)]
pub struct GitWorkspace {
    pub repo_path: String,
}

impl GitWorkspace {
    /// A workspace rooted at `repo_path`.
    pub fn new(repo_path: String) -> (r: Self)
        ensures
            r.repo_path@ == repo_path@,
    {
        GitWorkspace { repo_path }
    }

    /// The root of the working tree.
    pub fn path(&self) -> (r: &str)
        ensures
            r@ == self.repo_path@,
    {
        self.repo_path.as_str()
    }
}

/// One line of `git status --porcelain`.
#[derive(Debug, Clone, Default)]
pub struct StatusEntry {
    pub path: String,
    /// The two status letters, e.g. `" M"`, `"??"`, `"A "`.
    pub status: String,
}

/// Changed paths split by write scope.
#[derive(Debug, Clone, Default)]
pub struct ScopeDiff {
    pub in_scope: Vec<String>,
    pub out_scope: Vec<String>,
}

/// The first position where `needle` occurs in `hay`.
pub open spec fn first_occurrence(hay: Seq<char>, needle: Seq<char>) -> int {
    choose|i: int| #[trigger] occurs_at(hay, needle, i) && forall|j: int| 0 <= j < i ==> !#[trigger] occurs_at(hay, needle, j)
}

/// The path of a status line: after the status and a space, trimmed; for a
/// rename `a -> b`, the new name `b`.
pub open spec fn status_path(line: Seq<char>) -> Seq<char> {
    let p = trim_white(line.subrange(3, line.len() as int));
    if contains_sub(p, " -> "@) {
        p.subrange(first_occurrence(p, " -> "@) + 4, p.len() as int)
    } else {
        p
    }
}

/// The entries of the first `n` status lines; lines shorter than 4 characters are skipped.
pub open spec fn status_entries(lines: Seq<Seq<char>>, n: int) -> Seq<(Seq<char>, Seq<char>)>
    decreases n,
{
    if n <= 0 {
        Seq::empty()
    } else {
        let line = lines[n - 1];
        status_entries(lines, n - 1) + if line.len() < 4 {
            Seq::empty()
        } else {
            seq![(line.subrange(0, 2), status_path(line))]
        }
    }
}

/// Status and path of each entry.
pub open spec fn entry_views(v: Seq<StatusEntry>) -> Seq<(Seq<char>, Seq<char>)> {
    v.map_values(|e: StatusEntry| (e.status@, e.path@))
}

/// The entries listed by the output of `git status --porcelain -uall`.
pub fn parse_status_porcelain(out: &str) -> (r: Vec<StatusEntry>)
    ensures
        entry_views(r@) == status_entries(text_lines(out@), text_lines(out@).len() as int),
{
    let lines = lines_of(&chars_of(out));
    let ghost ls = text_lines(out@);
    let arrow = chars_of(" -> ");
    proof {
        reveal_strlit(" -> ");
        assert(arrow@.len() == 4);
    }
    let mut entries: Vec<StatusEntry> = Vec::new();
    assert(entry_views(entries@) =~= Seq::<(Seq<char>, Seq<char>)>::empty());
    let mut i: usize = 0;
    while i < lines.len()
        invariant
            i <= lines@.len(),
            lines@.len() == ls.len(),
            forall|k: int| 0 <= k < lines@.len() ==> (#[trigger] lines@[k])@ == ls[k],
            arrow@ == " -> "@,
            arrow@.len() == 4,
            entry_views(entries@) == status_entries(ls, i as int),
        decreases lines.len() - i,
    {
        let line = &lines[i];
        assert(line@ == ls[i as int]);
        if line.len() >= 4 {
            let status = string_of(&chars_slice(line, 0, 2));
            let rest = chars_slice(line, 3, line.len());
            let p = trim_chars(&rest);
            let path = match find_sub(&p, &arrow) {
                Some(k) => {
                    proof {
                        assert(occurs_at(p@, arrow@, k as int));
                        let f = first_occurrence(p@, " -> "@);
                        assert(occurs_at(p@, " -> "@, f) && forall|j: int| 0 <= j < f ==> !#[trigger] occurs_at(p@, " -> "@, j));
                        if f < k {
                        } else if f > k {
                        }
                        assert(f == k);
                    }
                    let pn = p.len();
                    assert(k + 4 <= pn);
                    chars_slice(&p, k + 4, pn)
                },
                None => p,
            };
            let e = StatusEntry { path: string_of(&path), status };
            let ghost before = entry_views(entries@);
            entries.push(e);
            assert(entry_views(entries@) =~= before.push((e.status@, e.path@)));
        }
        assert(entry_views(entries@) =~= status_entries(ls, i + 1));
        i = i + 1;
    }
    entries
}

/// The paths of the first `n` entries that lie in the write scope.
pub open spec fn in_scope_paths(entries: Seq<(Seq<char>, Seq<char>)>, ws: Seq<Seq<char>>, n: int) -> Seq<Seq<char>>
    decreases n,
{
    if n <= 0 {
        Seq::empty()
    } else {
        in_scope_paths(entries, ws, n - 1) + if path_in_scope_list(entries[n - 1].1, ws) {
            seq![entries[n - 1].1]
        } else {
            Seq::empty()
        }
    }
}

/// The path lies in one of the neighbours' scopes.
pub open spec fn under_neighbour(path: Seq<char>, neighbours: Seq<Seq<Seq<char>>>) -> bool {
    exists|k: int| 0 <= k < neighbours.len() && path_in_scope_list(path, #[trigger] neighbours[k])
}

/// The paths of the first `n` entries outside the write scope and outside every neighbour's scope.
pub open spec fn out_scope_paths(
    entries: Seq<(Seq<char>, Seq<char>)>,
    ws: Seq<Seq<char>>,
    neighbours: Seq<Seq<Seq<char>>>,
    n: int,
) -> Seq<Seq<char>>
    decreases n,
{
    if n <= 0 {
        Seq::empty()
    } else {
        let p = entries[n - 1].1;
        out_scope_paths(entries, ws, neighbours, n - 1) + if !path_in_scope_list(p, ws) && !under_neighbour(p, neighbours) {
            seq![p]
        } else {
            Seq::empty()
        }
    }
}

/// The scope lists of the neighbours, as sequences.
pub open spec fn scope_lists(v: Seq<Vec<String>>) -> Seq<Seq<Seq<char>>> {
    v.map_values(|s: Vec<String>| views(s@))
}

/// Whether `path` lies in one of the neighbours' scopes.
fn in_any_neighbour(path: &String, neighbours: &Vec<Vec<String>>) -> (r: bool)
    ensures
        r == under_neighbour(path@, scope_lists(neighbours@)),
{
    let mut k: usize = 0;
    while k < neighbours.len()
        invariant
            k <= neighbours@.len(),
            forall|j: int| 0 <= j < k ==> !path_in_scope_list(path@, #[trigger] scope_lists(neighbours@)[j]),
        decreases neighbours.len() - k,
    {
        assert(scope_lists(neighbours@)[k as int] == views(neighbours@[k as int]@));
        if path_in_scopes(path.as_str(), &neighbours[k]) {
            return true;
        }
        k = k + 1;
    }
    false
}

/// Splits changed paths into those in the task's write scope and those
/// outside it; paths inside a running neighbour's scope are ignored.
pub fn partition_entries(entries: &Vec<StatusEntry>, write_scope: &Vec<String>, neighbor_scopes: &Vec<Vec<String>>) -> (r: ScopeDiff)
    ensures
        views(r.in_scope@) == in_scope_paths(entry_views(entries@), views(write_scope@), entries@.len() as int),
        views(r.out_scope@) == out_scope_paths(
            entry_views(entries@),
            views(write_scope@),
            scope_lists(neighbor_scopes@),
            entries@.len() as int,
        ),
{
    let ghost ev = entry_views(entries@);
    let mut ins: Vec<String> = Vec::new();
    let mut outs: Vec<String> = Vec::new();
    assert(views(ins@) =~= Seq::<Seq<char>>::empty());
    assert(views(outs@) =~= Seq::<Seq<char>>::empty());
    let mut i: usize = 0;
    while i < entries.len()
        invariant
            i <= entries@.len(),
            ev == entry_views(entries@),
            views(ins@) == in_scope_paths(ev, views(write_scope@), i as int),
            views(outs@) == out_scope_paths(ev, views(write_scope@), scope_lists(neighbor_scopes@), i as int),
        decreases entries.len() - i,
    {
        let p = &entries[i].path;
        assert(ev[i as int].1 == p@);
        if path_in_scopes(p.as_str(), write_scope) {
            ins.push(p.clone());
        } else if !in_any_neighbour(p, neighbor_scopes) {
            outs.push(p.clone());
        }
        assert(views(ins@) =~= in_scope_paths(ev, views(write_scope@), i + 1));
        assert(views(outs@) =~= out_scope_paths(ev, views(write_scope@), scope_lists(neighbor_scopes@), i + 1));
        i = i + 1;
    }
    ScopeDiff { in_scope: ins, out_scope: outs }
}

/// The paths of the first `n` entries in the write scope whose status is (`untracked`) or is not `"??"`.
pub open spec fn wip_paths(entries: Seq<(Seq<char>, Seq<char>)>, ws: Seq<Seq<char>>, untracked: bool, n: int) -> Seq<Seq<char>>
    decreases n,
{
    if n <= 0 {
        Seq::empty()
    } else {
        let e = entries[n - 1];
        wip_paths(entries, ws, untracked, n - 1) + if path_in_scope_list(e.1, ws) && ((e.0 == "??"@) == untracked) {
            seq![e.1]
        } else {
            Seq::empty()
        }
    }
}

/// The work in progress inside a write scope: (modified paths, untracked paths).
pub fn split_work_in_progress(entries: &Vec<StatusEntry>, write_scope: &Vec<String>) -> (r: (Vec<String>, Vec<String>))
    ensures
        views(r.0@) == wip_paths(entry_views(entries@), views(write_scope@), false, entries@.len() as int),
        views(r.1@) == wip_paths(entry_views(entries@), views(write_scope@), true, entries@.len() as int),
{
    let ghost ev = entry_views(entries@);
    let mut modified: Vec<String> = Vec::new();
    let mut untracked: Vec<String> = Vec::new();
    assert(views(modified@) =~= Seq::<Seq<char>>::empty());
    assert(views(untracked@) =~= Seq::<Seq<char>>::empty());
    let mut i: usize = 0;
    while i < entries.len()
        invariant
            i <= entries@.len(),
            ev == entry_views(entries@),
            views(modified@) == wip_paths(ev, views(write_scope@), false, i as int),
            views(untracked@) == wip_paths(ev, views(write_scope@), true, i as int),
        decreases entries.len() - i,
    {
        let e = &entries[i];
        assert(ev[i as int] == (e.status@, e.path@));
        if path_in_scopes(e.path.as_str(), write_scope) {
            if str_eq(e.status.as_str(), "??") {
                untracked.push(e.path.clone());
            } else {
                modified.push(e.path.clone());
            }
        }
        assert(views(modified@) =~= wip_paths(ev, views(write_scope@), false, i + 1));
        assert(views(untracked@) =~= wip_paths(ev, views(write_scope@), true, i + 1));
        i = i + 1;
    }
    (modified, untracked)
}

/// Some line of `log` mentions `needle`.
pub open spec fn log_mentions(log: Seq<char>, needle: Seq<char>) -> bool {
    exists|i: int| 0 <= i < text_lines(log).len() && contains_sub(#[trigger] text_lines(log)[i], needle)
}

/// Whether a line of `git log --pretty=%s` output mentions `needle`.
pub fn log_contains(log: &str, needle: &str) -> (r: bool)
    ensures
        r == log_mentions(log@, needle@),
{
    let lines = lines_of(&chars_of(log));
    let nd = chars_of(needle);
    let mut i: usize = 0;
    while i < lines.len()
        invariant
            i <= lines@.len(),
            lines@.len() == text_lines(log@).len(),
            forall|k: int| 0 <= k < lines@.len() ==> (#[trigger] lines@[k])@ == text_lines(log@)[k],
            nd@ == needle@,
            forall|k: int| 0 <= k < i ==> !contains_sub(#[trigger] text_lines(log@)[k], needle@),
        decreases lines.len() - i,
    {
        assert(lines@[i as int]@ == text_lines(log@)[i as int]);
        if find_sub(&lines[i], &nd).is_some() {
            return true;
        }
        i = i + 1;
    }
    false
}

/// The hash of a `"<hash> <subject>"` log line whose subject mentions `needle`, if any.
pub open spec fn line_match(line: Seq<char>, needle: Seq<char>) -> Option<Seq<char>> {
    if line.contains(' ') {
        let sp = line.index_of_first(' ')->0;
        if contains_sub(line.subrange(sp + 1, line.len() as int), needle) {
            Some(line.subrange(0, sp))
        } else {
            None
        }
    } else {
        None
    }
}

/// The hash of the first of the first `n` lines that matches.
pub open spec fn first_commit_match(lines: Seq<Seq<char>>, needle: Seq<char>, n: int) -> Option<Seq<char>>
    decreases n,
{
    if n <= 0 {
        None
    } else {
        match first_commit_match(lines, needle, n - 1) {
            Some(h) => Some(h),
            None => line_match(lines[n - 1], needle),
        }
    }
}

/// The position of the first space in `line`, if any.
fn first_space(line: &Vec<char>) -> (r: Option<usize>)
    ensures
        r matches Some(k) ==> k < line@.len() && line@.contains(' ') && line@.index_of_first(' ') == Some(k as int),
        r is None ==> !line@.contains(' '),
{
    let mut k: usize = 0;
    while k < line.len()
        invariant
            k <= line@.len(),
            forall|j: int| 0 <= j < k ==> line@[j] != ' ',
        decreases line.len() - k,
    {
        if line[k] == ' ' {
            proof {
                line@.index_of_first_ensures(' ');
                assert(line@[k as int] == ' ');
                let f = line@.index_of_first(' ')->0;
                if f < k {
                } else if f > k {
                }
            }
            return Some(k);
        }
        k = k + 1;
    }
    None
}

/// In `git log --pretty="%H %s"` output, the hash of the first commit whose subject mentions `needle`.
pub fn find_commit_in_log(log: &str, needle: &str) -> (r: Option<String>)
    ensures
        r matches Some(h) ==> first_commit_match(text_lines(log@), needle@, text_lines(log@).len() as int) == Some(h@),
        r is None ==> first_commit_match(text_lines(log@), needle@, text_lines(log@).len() as int) is None,
{
    let lines = lines_of(&chars_of(log));
    let ghost ls = text_lines(log@);
    let nd = chars_of(needle);
    let mut i: usize = 0;
    while i < lines.len()
        invariant
            i <= lines@.len(),
            lines@.len() == ls.len(),
            forall|k: int| 0 <= k < lines@.len() ==> (#[trigger] lines@[k])@ == ls[k],
            nd@ == needle@,
            ls == text_lines(log@),
            first_commit_match(ls, needle@, i as int) is None,
        decreases lines.len() - i,
    {
        let line = &lines[i];
        assert(line@ == ls[i as int]);
        match first_space(line) {
            Some(sp) => {
                let msg = chars_slice(line, sp + 1, line.len());
                if find_sub(&msg, &nd).is_some() {
                    let h = string_of(&chars_slice(line, 0, sp));
                    assert(first_commit_match(ls, needle@, i + 1) == Some(h@));
                    proof {
                        lemma_first_match_stable(ls, needle@, i + 1, ls.len() as int);
                    }
                    assert(first_commit_match(ls, needle@, ls.len() as int) == Some(h@));
                    return Some(h);
                }
            },
            None => {},
        }
        i = i + 1;
    }
    None
}

proof fn lemma_first_match_stable(lines: Seq<Seq<char>>, needle: Seq<char>, a: int, b: int)
    requires
        0 <= a <= b,
        first_commit_match(lines, needle, a) is Some,
    ensures
        first_commit_match(lines, needle, b) == first_commit_match(lines, needle, a),
    decreases b - a,
{
    if b > a {
        lemma_first_match_stable(lines, needle, a, b - 1);
    }
}

/// Whether scope list `a` overlaps any of `others`.
pub fn any_scope_conflict(a: &Vec<String>, others: &Vec<Vec<String>>) -> (r: bool)
    ensures
        r == exists|k: int| 0 <= k < others@.len() && scope_lists_conflict(views(a@), #[trigger] scope_lists(others@)[k]),
{
    let mut k: usize = 0;
    while k < others.len()
        invariant
            k <= others@.len(),
            forall|j: int| 0 <= j < k ==> !scope_lists_conflict(views(a@), #[trigger] scope_lists(others@)[j]),
        decreases others.len() - k,
    {
        assert(scope_lists(others@)[k as int] == views(others@[k as int]@));
        if scopes_conflict(a, &others[k]) {
            return true;
        }
        k = k + 1;
    }
    false
}

proof fn lemma_out_scope_members(
    entries: Seq<(Seq<char>, Seq<char>)>,
    ws: Seq<Seq<char>>,
    neighbours: Seq<Seq<Seq<char>>>,
    n: int,
)
    requires
        n <= entries.len(),
    ensures
        forall|x: Seq<char>|
            #[trigger] out_scope_paths(entries, ws, neighbours, n).contains(x) ==> !path_in_scope_list(x, ws)
                && !under_neighbour(x, neighbours),
        forall|i: int|
            0 <= i < n && !path_in_scope_list(#[trigger] entries[i].1, ws) && !under_neighbour(entries[i].1, neighbours)
                ==> out_scope_paths(entries, ws, neighbours, n).contains(entries[i].1),
    decreases n,
{
    if n > 0 {
        lemma_out_scope_members(entries, ws, neighbours, n - 1);
        let prev = out_scope_paths(entries, ws, neighbours, n - 1);
        let cur = out_scope_paths(entries, ws, neighbours, n);
        let p = entries[n - 1].1;
        assert forall|x: Seq<char>| #[trigger] cur.contains(x) implies !path_in_scope_list(x, ws)
            && !under_neighbour(x, neighbours) by {
            let q = choose|q: int| 0 <= q < cur.len() && cur[q] == x;
            if q < prev.len() {
                assert(cur[q] == prev[q]);
                assert(prev.contains(x));
            } else {
                assert(x == p);
            }
        }
        assert forall|i: int|
            0 <= i < n && !path_in_scope_list(#[trigger] entries[i].1, ws) && !under_neighbour(entries[i].1, neighbours)
                implies cur.contains(entries[i].1) by {
            if i < n - 1 {
                let q = choose|q: int| 0 <= q < prev.len() && prev[q] == entries[i].1;
                assert(cur[q] == prev[q]);
            } else {
                assert(cur[prev.len() as int] == p);
            }
        }
    }
}

/// A changed path is reported as written out of scope exactly when it lies
/// neither in the task's write scope nor in the scope list of any neighbour, at
/// whatever position that list stands among the neighbours.
pub proof fn lemma_out_scope_exact(
    entries: Seq<(Seq<char>, Seq<char>)>,
    ws: Seq<Seq<char>>,
    neighbours: Seq<Seq<Seq<char>>>,
    x: Seq<char>,
    k: int,
)
    ensures
        out_scope_paths(entries, ws, neighbours, entries.len() as int).contains(x) ==> !path_in_scope_list(x, ws),
        out_scope_paths(entries, ws, neighbours, entries.len() as int).contains(x) && 0 <= k < neighbours.len()
            ==> !path_in_scope_list(x, neighbours[k]),
        (exists|i: int| 0 <= i < entries.len() && #[trigger] entries[i].1 == x) && !path_in_scope_list(x, ws)
            && (forall|j: int| 0 <= j < neighbours.len() ==> !path_in_scope_list(x, #[trigger] neighbours[j]))
            ==> out_scope_paths(entries, ws, neighbours, entries.len() as int).contains(x),
{
    lemma_out_scope_members(entries, ws, neighbours, entries.len() as int);
    if (exists|i: int| 0 <= i < entries.len() && #[trigger] entries[i].1 == x) && !path_in_scope_list(x, ws)
        && (forall|j: int| 0 <= j < neighbours.len() ==> !path_in_scope_list(x, #[trigger] neighbours[j])) {
        let i = choose|i: int| 0 <= i < entries.len() && #[trigger] entries[i].1 == x;
        assert(!under_neighbour(entries[i].1, neighbours));
    }
}

} // verus!
