use vstd::prelude::*;
use vstd::string::*;
use crate::pattern::{re_is_match, regex_match};
use crate::subprocesses::{detached, plan_for, Processes, StartPlan};
use crate::text::str_eq;

verus! {

/// The kinds of debounced change notification, as the dispatcher classifies
/// them. `Rename` stands for the rename's target path; `Other` covers every
/// notification that triggers nothing.
pub enum EventKind {
    NoticeWrite,
    NoticeRemove,
    Create,
    Write,
    Chmod,
    Remove,
    Rename,
    Other,
}

/// Index of the last `/` at or before position `i`, or -1 if there is none.
pub open spec fn last_slash_at(p: Seq<char>, i: int) -> int
    decreases i + 1,
{
    if i < 0 || i >= p.len() {
        -1
    } else if p[i] == '/' {
        i
    } else {
        last_slash_at(p, i - 1)
    }
}

/// The path without its final `/`-separated component: `root/foo/bar.txt`
/// gives `root/foo`, `/x` gives `/`; a single component or the bare root
/// has no parent. Paths are taken verbatim, with no trailing separator.
pub open spec fn parent_of_spec(p: Seq<char>) -> Option<Seq<char>> {
    let k = last_slash_at(p, p.len() - 1);
    if k < 0 {
        None
    } else if k == 0 {
        if p.len() == 1 {
            None
        } else {
            Some(p.subrange(0, 1))
        }
    } else {
        Some(p.subrange(0, k))
    }
}

proof fn lemma_last_slash(p: Seq<char>, i: int, k: int)
    requires
        i < p.len(),
        -1 <= k <= i,
        k >= 0 ==> p[k] == '/',
        k < 0 ==> (forall|j: int| 0 <= j <= i ==> p[j] != '/'),
        forall|j: int| k < j <= i ==> p[j] != '/',
    ensures
        last_slash_at(p, i) == k,
    decreases i + 1,
{
    if i >= 0 && i != k {
        lemma_last_slash(p, i - 1, k);
    }
}

/// The parent path, under the model of `parent_of_spec`.
pub fn parent_of(path: &str) -> (r: Option<String>)
    ensures
        match parent_of_spec(path@) {
            Some(pp) => r matches Some(s) && s@ == pp,
            None => r is None,
        },
{
    let n: usize = path.unicode_len();
    let mut i: usize = n;
    while i > 0
        invariant
            n == path@.len(),
            i <= n,
            forall|j: int| i <= j < n ==> path@[j] != '/',
        decreases i,
    {
        if path.get_char(i - 1) == '/' {
            let k = i - 1;
            proof {
                lemma_last_slash(path@, n as int - 1, k as int);
            }
            if k == 0 {
                if n == 1 {
                    return None;
                }
                let s = path.substring_char(0, 1);
                return Some(s.to_owned());
            }
            let s = path.substring_char(0, k);
            return Some(s.to_owned());
        }
        i -= 1;
    }
    proof {
        lemma_last_slash(path@, n as int - 1, -1);
    }
    None
}

/// Event classification: write-like kinds watch their own path, remove-like
/// kinds watch the parent of theirs, everything else is discarded.
pub open spec fn candidate_spec(kind: EventKind, path: Seq<char>) -> Option<Seq<char>> {
    match kind {
        EventKind::NoticeWrite => Some(path),
        EventKind::Create => Some(path),
        EventKind::Write => Some(path),
        EventKind::Chmod => Some(path),
        EventKind::Rename => Some(path),
        EventKind::Remove => parent_of_spec(path),
        EventKind::NoticeRemove => parent_of_spec(path),
        EventKind::Other => None,
    }
}

/// The path a notification asks to inspect, if any.
pub fn candidate_path(kind: &EventKind, path: &str) -> (r: Option<String>)
    ensures
        match candidate_spec(*kind, path@) {
            Some(c) => r matches Some(s) && s@ == c,
            None => r is None,
        },
{
    match kind {
        EventKind::NoticeWrite => Some(path.to_owned()),
        EventKind::Create => Some(path.to_owned()),
        EventKind::Write => Some(path.to_owned()),
        EventKind::Chmod => Some(path.to_owned()),
        EventKind::Rename => Some(path.to_owned()),
        EventKind::Remove => parent_of(path),
        EventKind::NoticeRemove => parent_of(path),
        EventKind::Other => None,
    }
}

/// Whether the configured ignore pattern discards this candidate path.
pub open spec fn ignored(ignore: Option<regex::Regex>, c: Seq<char>) -> bool {
    match ignore {
        Some(re) => regex_match(re, c),
        None => false,
    }
}

/// One notification up to the ignore check: the candidate path to resolve,
/// or nothing when the kind is irrelevant or the ignore pattern matches.
pub fn handle_event(kind: &EventKind, path: &str, ignore: &Option<regex::Regex>) -> (r: Option<
    String,
>)
    ensures
        match candidate_spec(*kind, path@) {
            None => r is None,
            Some(c) => if ignored(*ignore, c) {
                r is None
            } else {
                r matches Some(s) && s@ == c
            },
        },
{
    match candidate_path(kind, path) {
        Some(c) => match ignore {
            Some(re) => if re_is_match(re, c.as_str()) {
                None
            } else {
                Some(c)
            },
            None => Some(c),
        },
        None => None,
    }
}

/// Index of the first `/` at or after position `i`, or the length if there
/// is none.
pub open spec fn first_slash_at(s: Seq<char>, i: int) -> int
    decreases s.len() - i,
{
    if i < 0 || i >= s.len() {
        s.len() as int
    } else if s[i] == '/' {
        i
    } else {
        first_slash_at(s, i + 1)
    }
}

/// The path relative to the root: the whole remainder after the root and
/// one separator, or after the root itself when the root already ends in
/// `/`. None when the path does not lie under the root.
pub open spec fn strip_root(root: Seq<char>, p: Seq<char>) -> Option<Seq<char>> {
    if p == root {
        Some(Seq::empty())
    } else if root.len() > 0 && root.last() == '/' && p.len() > root.len() && p.subrange(
        0,
        root.len() as int,
    ) == root {
        Some(p.skip(root.len() as int))
    } else if p.len() > root.len() && p.subrange(0, root.len() as int) == root && p[root.len() as int]
        == '/' {
        Some(p.skip(root.len() as int + 1))
    } else {
        None
    }
}

/// The first `/`-separated component, if the text starts with one.
pub open spec fn first_component(s: Seq<char>) -> Option<Seq<char>> {
    if s.len() == 0 || first_slash_at(s, 0) == 0 {
        None
    } else {
        Some(s.subrange(0, first_slash_at(s, 0)))
    }
}

/// Event resolution: the target subdirectory a canonical path names, namely
/// the first component of the path relative to the canonical root.
pub open spec fn resolve_spec(root: Seq<char>, p: Seq<char>) -> Option<Seq<char>> {
    match strip_root(root, p) {
        Some(rem) => first_component(rem),
        None => None,
    }
}

proof fn lemma_first_slash(s: Seq<char>, i: int, k: int)
    requires
        0 <= i <= k <= s.len(),
        k == s.len() || s[k] == '/',
        forall|j: int| i <= j < k ==> s[j] != '/',
    ensures
        first_slash_at(s, i) == k,
    decreases k - i,
{
    if i < k {
        lemma_first_slash(s, i + 1, k);
    }
}

/// Does `path` start with all of `prefix`?
fn starts_with(path: &str, prefix: &str) -> (r: bool)
    ensures
        r == (path@.len() >= prefix@.len() && path@.subrange(0, prefix@.len() as int) == prefix@),
{
    let pl: usize = path.unicode_len();
    let rl: usize = prefix.unicode_len();
    if pl < rl {
        return false;
    }
    let mut i: usize = 0;
    while i < rl
        invariant
            pl == path@.len(),
            rl == prefix@.len(),
            rl <= pl,
            i <= rl,
            forall|j: int| 0 <= j < i ==> path@[j] == prefix@[j],
        decreases rl - i,
    {
        if path.get_char(i) != prefix.get_char(i) {
            proof {
                assert(path@.subrange(0, rl as int)[i as int] != prefix@[i as int]);
            }
            return false;
        }
        i += 1;
    }
    proof {
        assert(path@.subrange(0, rl as int) =~= prefix@);
    }
    true
}

/// The target name a canonical path resolves to under the canonical root,
/// under the model of `resolve_spec`.
pub fn resolve_target(path: &str, root: &str) -> (r: Option<String>)
    ensures
        match resolve_spec(root@, path@) {
            Some(n) => r matches Some(s) && s@ == n,
            None => r is None,
        },
{
    let pl: usize = path.unicode_len();
    let rl: usize = root.unicode_len();
    if str_eq(path, root) {
        return None;
    }
    if !starts_with(path, root) {
        return None;
    }
    if pl <= rl {
        proof {
            assert(path@ =~= root@);
        }
        return None;
    }
    let root_slashed = rl > 0 && root.get_char(rl - 1) == '/';
    let start: usize = if root_slashed {
        rl
    } else {
        rl + 1
    };
    if !root_slashed && path.get_char(rl) != '/' {
        return None;
    }
    let ghost rem = strip_root(root@, path@).unwrap();
    proof {
        assert(rem =~= path@.skip(start as int));
    }
    let mut k: usize = start;
    while k < pl && path.get_char(k) != '/'
        invariant
            pl == path@.len(),
            start <= k <= pl,
            forall|j: int| start <= j < k ==> path@[j] != '/',
        decreases pl - k,
    {
        k += 1;
    }
    proof {
        assert(k == pl || path@[k as int] == '/');
        assert forall|j: int| 0 <= j < k - start implies rem[j] != '/' by {
            assert(rem[j] == path@[start + j]);
        }
        if (k as int) < pl {
            assert(rem[k - start] == path@[k as int]);
        }
        lemma_first_slash(rem, 0, k as int - start as int);
    }
    if k == start {
        return None;
    }
    let s = path.substring_char(start, k);
    proof {
        assert(s@ =~= rem.subrange(0, k as int - start as int));
    }
    Some(s.to_owned())
}

/// The outcome of one resolved notification: a restart plan for a known
/// target, a diagnostic for an unknown one, or a diagnostic because the
/// path does not lie under the root. Only the restart touches the registry.
pub enum WatchOutcome {
    Restart(StartPlan, String),
    UnknownTarget(String),
    NotUnderRoot,
}

/// The watch dispatcher's step after canonicalization: resolve the
/// target name and, when it is supervised, detach its handle and plan the
/// terminate-then-spawn pair.
/// The registry changes only in that case, and only at that name.
pub fn dispatch_resolved(
    processes: &mut Processes,
    path: &str,
    root: &str,
    program: &str,
) -> (r: WatchOutcome)
    requires
        old(processes).wf(),
    ensures
        final(processes).wf(),
        final(processes).names() == old(processes).names(),
        match resolve_spec(root@, path@) {
            None => r is NotUnderRoot && final(processes)@ == old(processes)@,
            Some(n) => if old(processes)@.contains_key(n) {
                r matches WatchOutcome::Restart(plan, name) && name@ == n && plan_for(
                    old(processes)@[n],
                    n,
                    program@,
                    plan,
                ) && final(processes)@ == detached(old(processes)@, n)
            } else {
                r matches WatchOutcome::UnknownTarget(name) && name@ == n && final(processes)@
                    == old(processes)@
            },
        },
{
    match resolve_target(path, root) {
        None => WatchOutcome::NotUnderRoot,
        Some(name) => match processes.restart(name.as_str(), program) {
            Some(plan) => WatchOutcome::Restart(plan, name),
            None => WatchOutcome::UnknownTarget(name),
        },
    }
}

} // verus!
