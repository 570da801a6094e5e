use vstd::prelude::*;
use crate::text::{str_eq, subst, substitute};

verus! {

/// Ghost image of one supervised entity: ownership, working directory, and
/// the recorded handle token, if any.
pub struct SubView {
    pub uid: u32,
    pub gid: u32,
    pub dir: Seq<char>,
    pub process: Option<u64>,
}

/// One supervised subdirectory. `uid` and `gid` are captured once, at
/// bootstrap, from the subdirectory's ownership, and never change. `process`
/// records at most one live handle: a token the embedding maps to the real
/// operating-system child.
pub struct Subprocess {
    pub name: String,
    pub uid: u32,
    pub gid: u32,
    pub dir: String,
    pub process: Option<u64>,
}

impl View for Subprocess {
    type V = SubView;

    open spec fn view(&self) -> SubView {
        SubView { uid: self.uid, gid: self.gid, dir: self.dir@, process: self.process }
    }
}

/// Everything the embedding needs to spawn one child: run `sh -c command`
/// in `dir`, as `uid`:`gid`.
pub struct SpawnRequest {
    pub command: String,
    pub dir: String,
    pub uid: u32,
    pub gid: u32,
}

/// The process actions of one restart, in order: first terminate the old
/// handle if one is recorded, then spawn the new child.
pub struct StartPlan {
    pub terminate: Option<u64>,
    pub spawn: SpawnRequest,
}

/// The plan a restart of entity `v` (named `name`, under template `program`)
/// must produce: terminate exactly the recorded handle, then spawn the
/// placeholder-substituted command in the entity's directory, as its owner.
pub open spec fn plan_for(v: SubView, name: Seq<char>, program: Seq<char>, p: StartPlan) -> bool {
    &&& p.terminate == v.process
    &&& p.spawn.command@ == subst(program, name)
    &&& p.spawn.dir@ == v.dir
    &&& p.spawn.uid == v.uid
    &&& p.spawn.gid == v.gid
}

impl Subprocess {
    /// A fresh entity: no live handle yet.
    pub fn new(name: String, uid: u32, gid: u32, dir: String) -> (r: Subprocess)
        ensures
            r.name@ == name@,
            r@ == (SubView { uid, gid, dir: dir@, process: None }),
    {
        Subprocess { name, uid, gid, dir, process: None }
    }

    /// Begin a restart: detach the old handle (the caller must terminate it)
    /// and say what to spawn. No handle is recorded until `record` runs, so
    /// a failed spawn leaves the entity with no handle — never with two.
    pub fn start(&mut self, program: &str) -> (r: StartPlan)
        ensures
            plan_for(old(self)@, old(self).name@, program@, r),
            final(self).name@ == old(self).name@,
            final(self)@ == (SubView { process: None, ..old(self)@ }),
    {
        let terminate = self.process;
        self.process = None;
        let command = substitute(program, self.name.as_str());
        StartPlan {
            terminate,
            spawn: SpawnRequest { command, dir: self.dir.clone(), uid: self.uid, gid: self.gid },
        }
    }

    /// Record the handle of the child the embedding just spawned.
    pub fn record(&mut self, token: u64)
        ensures
            final(self).name@ == old(self).name@,
            final(self)@ == (SubView { process: Some(token), ..old(self)@ }),
    {
        self.process = Some(token);
    }
}

/// The registry: one entity per subdirectory, keyed by basename. It is built
/// once at bootstrap; afterwards entities are only mutated in place.
pub struct Processes {
    entries: Vec<Subprocess>,
}

impl View for Processes {
    type V = Map<Seq<char>, SubView>;

    closed spec fn view(&self) -> Map<Seq<char>, SubView> {
        Map::new(
            |n: Seq<char>| self.has_name(n),
            |n: Seq<char>| self.entries@[self.index_of(n)]@,
        )
    }
}

impl Processes {
    /// The supervised names, in bootstrap order.
    pub closed spec fn names(&self) -> Seq<Seq<char>> {
        self.entries@.map_values(|s: Subprocess| s.name@)
    }

    /// Basenames are unique keys.
    pub closed spec fn wf(&self) -> bool {
        forall|i: int, j: int|
            0 <= i < j < self.entries@.len() ==> self.entries@[i].name@ != self.entries@[j].name@
    }

    spec fn has_name(&self, n: Seq<char>) -> bool {
        exists|i: int| 0 <= i < self.entries@.len() && self.entries@[i].name@ == n
    }

    spec fn index_of(&self, n: Seq<char>) -> int {
        choose|i: int| 0 <= i < self.entries@.len() && self.entries@[i].name@ == n
    }

    proof fn lemma_at(&self, i: int)
        requires
            self.wf(),
            0 <= i < self.entries@.len(),
        ensures
            self@.contains_key(self.entries@[i].name@),
            self@[self.entries@[i].name@] == self.entries@[i]@,
            self.index_of(self.entries@[i].name@) == i,
    {
        let n = self.entries@[i].name@;
        assert(self.has_name(n));
        let j = self.index_of(n);
        assert(0 <= j < self.entries@.len() && self.entries@[j].name@ == n);
    }

    /// A mutation of the entity at index `i` that keeps its name shows up in
    /// the registry's map as one key updated.
    proof fn lemma_update(pre: Processes, post: Processes, i: int)
        requires
            pre.wf(),
            0 <= i < pre.entries@.len(),
            post.entries@.len() == pre.entries@.len(),
            forall|j: int|
                0 <= j < pre.entries@.len() && j != i ==> post.entries@[j] == pre.entries@[j],
            post.entries@[i].name@ == pre.entries@[i].name@,
        ensures
            post.wf(),
            post.names() == pre.names(),
            post@ == pre@.insert(pre.entries@[i].name@, post.entries@[i]@),
    {
        assert forall|j: int| 0 <= j < post.entries@.len() implies post.entries@[j].name@
            == pre.entries@[j].name@ by {}
        assert(post.names() =~= pre.names());
        assert(post.wf());
        let n0 = pre.entries@[i].name@;
        let m1 = pre@.insert(n0, post.entries@[i]@);
        assert forall|n: Seq<char>| post.has_name(n) implies pre.has_name(n) by {
            let k = choose|k: int|
                0 <= k < post.entries@.len() && post.entries@[k].name@ == n;
            assert(pre.entries@[k].name@ == n);
        }
        assert forall|n: Seq<char>| pre.has_name(n) implies post.has_name(n) by {
            let k = choose|k: int| 0 <= k < pre.entries@.len() && pre.entries@[k].name@ == n;
            assert(post.entries@[k].name@ == n);
        }
        assert forall|n: Seq<char>| #[trigger] post@.contains_key(n) implies post@[n] == m1[n] by {
            let k = post.index_of(n);
            post.lemma_at(k);
            pre.lemma_at(k);
            if k == i {
                assert(n == n0);
            } else {
                assert(pre.entries@[k].name@ != n0);
            }
        }
        assert(post@ =~= m1);
    }

    /// An empty registry.
    pub fn new() -> (r: Processes)
        ensures
            r.wf(),
            r@ == Map::<Seq<char>, SubView>::empty(),
            r.names() == Seq::<Seq<char>>::empty(),
    {
        let r = Processes { entries: Vec::new() };
        proof {
            assert(r@ =~= Map::<Seq<char>, SubView>::empty());
            assert(r.names() =~= Seq::<Seq<char>>::empty());
        }
        r
    }

    /// How many subdirectories are supervised.
    pub fn len(&self) -> (r: usize)
        ensures
            r == self.names().len(),
    {
        self.entries.len()
    }

    /// Add one entity at bootstrap. Callers keep the keys unique.
    pub fn insert(&mut self, sub: Subprocess)
        requires
            old(self).wf(),
            !old(self)@.contains_key(sub.name@),
        ensures
            final(self).wf(),
            final(self).names() == old(self).names().push(sub.name@),
            final(self)@ == old(self)@.insert(sub.name@, sub@),
    {
        proof {
            assert(!old(self).has_name(sub.name@));
        }
        let ghost pre = *self;
        self.entries.push(sub);
        proof {
            let post = *self;
            let len = pre.entries@.len() as int;
            assert(post.entries@ =~= pre.entries@.push(sub));
            assert forall|j: int| 0 <= j < len implies post.entries@[j] == pre.entries@[j] by {}
            assert(post.wf());
            assert(post.names() =~= pre.names().push(sub.name@));
            let m1 = pre@.insert(sub.name@, sub@);
            assert forall|n: Seq<char>| post.has_name(n) implies m1.contains_key(n) by {
                let k = choose|k: int|
                    0 <= k < post.entries@.len() && post.entries@[k].name@ == n;
                if k < len {
                    assert(pre.has_name(n));
                }
            }
            assert forall|n: Seq<char>| m1.contains_key(n) implies post.has_name(n) by {
                if n == sub.name@ {
                    assert(post.entries@[len].name@ == n);
                } else {
                    let k = choose|k: int|
                        0 <= k < pre.entries@.len() && pre.entries@[k].name@ == n;
                    assert(post.entries@[k].name@ == n);
                }
            }
            assert forall|n: Seq<char>| #[trigger] post@.contains_key(n) implies post@[n]
                == m1[n] by {
                let k = post.index_of(n);
                post.lemma_at(k);
                if k == len {
                    assert(n == sub.name@);
                } else {
                    assert(pre.entries@[k].name@ == n);
                    pre.lemma_at(k);
                    assert(n != sub.name@);
                }
            }
            assert(post@ =~= m1);
        }
    }

    fn position_of(&self, name: &str) -> (r: Option<usize>)
        requires
            self.wf(),
        ensures
            match r {
                Some(i) => i < self.entries@.len() && self.entries@[i as int].name@ == name@
                    && self@.contains_key(name@) && self@[name@] == self.entries@[i as int]@,
                None => !self@.contains_key(name@),
            },
    {
        let n = self.entries.len();
        let mut i: usize = 0;
        while i < n
            invariant
                self.wf(),
                n == self.entries@.len(),
                i <= n,
                forall|j: int| 0 <= j < i ==> self.entries@[j].name@ != name@,
            decreases n - i,
        {
            if str_eq(self.entries[i].name.as_str(), name) {
                proof {
                    self.lemma_at(i as int);
                }
                return Some(i);
            }
            i += 1;
        }
        proof {
            if self.has_name(name@) {
                let j = choose|j: int|
                    0 <= j < self.entries@.len() && self.entries@[j].name@ == name@;
                assert(false);
            }
        }
        None
    }

    /// Is `name` a supervised subdirectory?
    pub fn contains(&self, name: &str) -> (r: bool)
        requires
            self.wf(),
        ensures
            r == self@.contains_key(name@),
    {
        self.position_of(name).is_some()
    }

    /// The recorded handle token for `name`: None if the name is not
    /// supervised or no handle is recorded.
    pub fn handle_of(&self, name: &str) -> (r: Option<u64>)
        requires
            self.wf(),
        ensures
            r == if self@.contains_key(name@) {
                self@[name@].process
            } else {
                None::<u64>
            },
    {
        match self.position_of(name) {
            Some(i) => self.entries[i].process,
            None => None,
        }
    }

    /// The restart operation, up to the process actions: look the
    /// target up; if present, detach its handle and hand back the
    /// terminate-then-spawn plan; if absent, change nothing.
    pub fn restart(&mut self, name: &str, program: &str) -> (r: Option<StartPlan>)
        requires
            old(self).wf(),
        ensures
            final(self).wf(),
            final(self).names() == old(self).names(),
            r is Some <==> old(self)@.contains_key(name@),
            r is None ==> final(self)@ == old(self)@,
            r matches Some(plan) ==> plan_for(old(self)@[name@], name@, program@, plan)
                && final(self)@ == detached(old(self)@, name@),
    {
        let idx = self.position_of(name);
        match idx {
            Some(i) => {
                let ghost pre = *self;
                let sub = &mut self.entries[i];
                let plan = sub.start(program);
                proof {
                    Self::lemma_update(pre, *self, i as int);
                }
                Some(plan)
            },
            None => None,
        }
    }

    /// Record the handle of the child just spawned for `name`; reports
    /// whether the name is supervised.
    pub fn record_spawn(&mut self, name: &str, token: u64) -> (r: bool)
        requires
            old(self).wf(),
        ensures
            final(self).wf(),
            final(self).names() == old(self).names(),
            r == old(self)@.contains_key(name@),
            r ==> final(self)@ == recorded(old(self)@, name@, token),
            !r ==> final(self)@ == old(self)@,
    {
        let idx = self.position_of(name);
        match idx {
            Some(i) => {
                let ghost pre = *self;
                let sub = &mut self.entries[i];
                sub.record(token);
                proof {
                    Self::lemma_update(pre, *self, i as int);
                }
                true
            },
            None => false,
        }
    }

    /// The supervised names as owned strings, in bootstrap order.
    pub fn names_list(&self) -> (r: Vec<String>)
        ensures
            r.deep_view() == self.names(),
    {
        let n = self.entries.len();
        let mut out: Vec<String> = Vec::new();
        let mut i: usize = 0;
        while i < n
            invariant
                n == self.entries@.len(),
                i <= n,
                out.deep_view() =~= self.names().take(i as int),
            decreases n - i,
        {
            let ghost prevv = out@;
            let ghost prev = out.deep_view();
            let piece = self.entries[i].name.clone();
            proof {
                assert(piece == self.entries@[i as int].name);
                assert(prev.len() == prevv.len());
                assert(prev.len() == i as int);
            }
            out.push(piece);
            proof {
                assert(out@ == prevv.push(piece));
                assert(out@.len() == i + 1);
                assert forall|j: int| 0 <= j < out.deep_view().len() implies out.deep_view()[j]
                    == self.names().take(i + 1)[j] by {
                    assert(out.deep_view()[j] == out@[j].deep_view());
                    if j < i {
                        assert(out@[j] == prevv[j]);
                        assert(prev[j] == prevv[j].deep_view());
                        assert(prev[j] == self.names().take(i as int)[j]);
                    } else {
                        assert(out@[j] == piece);
                    }
                }
                assert(out.deep_view() =~= self.names().take(i + 1));
            }
            i += 1;
        }
        proof {
            assert(self.names().take(n as int) =~= self.names());
        }
        out
    }
}

/// One immediate entry of the root directory, as the scan read it: its
/// basename, whether it is a directory, its ownership, and its full path.
pub struct ScanEntry {
    pub name: String,
    pub is_dir: bool,
    pub uid: u32,
    pub gid: u32,
    pub dir: String,
}

/// The entity a directory entry bootstraps to: its ownership and path, no
/// handle recorded yet.
pub open spec fn entry_view(e: ScanEntry) -> SubView {
    SubView { uid: e.uid, gid: e.gid, dir: e.dir@, process: None }
}

/// The directory entries of a scan, in scan order.
pub open spec fn dir_entries(es: Seq<ScanEntry>) -> Seq<ScanEntry> {
    es.filter(|e: ScanEntry| e.is_dir)
}

/// The names of the directory entries, in scan order.
pub open spec fn dir_names(es: Seq<ScanEntry>) -> Seq<Seq<char>> {
    dir_entries(es).map_values(|e: ScanEntry| e.name@)
}

/// The non-directory entries of a scan, in scan order.
pub open spec fn es_not_dir(es: Seq<ScanEntry>) -> Seq<ScanEntry> {
    es.filter(|e: ScanEntry| !e.is_dir)
}

/// The names of the skipped non-directory entries, in scan order.
pub open spec fn skipped_names(es: Seq<ScanEntry>) -> Seq<Seq<char>> {
    es_not_dir(es).map_values(|e: ScanEntry| e.name@)
}

/// The registry a scan bootstraps to: one entity per directory entry.
pub open spec fn registry_of(es: Seq<ScanEntry>) -> Map<Seq<char>, SubView>
    decreases es.len(),
{
    if es.len() == 0 {
        Map::empty()
    } else if es.last().is_dir {
        registry_of(es.drop_last()).insert(es.last().name@, entry_view(es.last()))
    } else {
        registry_of(es.drop_last())
    }
}

/// A key stands in the bootstrapped registry exactly when some directory
/// entry carries that name.
pub proof fn lemma_registry_of_dom(es: Seq<ScanEntry>, n: Seq<char>)
    ensures
        registry_of(es).contains_key(n) <==> (exists|i: int|
            0 <= i < es.len() && es[i].is_dir && es[i].name@ == n),
    decreases es.len(),
{
    if es.len() > 0 {
        lemma_registry_of_dom(es.drop_last(), n);
        let last = es.len() - 1;
        if exists|i: int| 0 <= i < es.len() && es[i].is_dir && es[i].name@ == n {
            let i = choose|i: int| 0 <= i < es.len() && es[i].is_dir && es[i].name@ == n;
            if i < last {
                assert(es.drop_last()[i] == es[i]);
            }
        }
        if exists|i: int| 0 <= i < es.drop_last().len() && es.drop_last()[i].is_dir
            && es.drop_last()[i].name@ == n {
            let i = choose|i: int|
                0 <= i < es.drop_last().len() && es.drop_last()[i].is_dir
                    && es.drop_last()[i].name@ == n;
            assert(es[i] == es.drop_last()[i]);
        }
    }
}

/// The spawn a directory entry's initial start (and every later restart)
/// must request: the substituted command, in the entry's directory, as its
/// owner.
pub open spec fn spawn_matches(e: ScanEntry, program: Seq<char>, s: SpawnRequest) -> bool {
    &&& s.command@ == subst(program, e.name@)
    &&& s.dir@ == e.dir@
    &&& s.uid == e.uid
    &&& s.gid == e.gid
}

/// What bootstrap hands back: the registry, one spawn request per directory
/// entry in scan order, and the names of the skipped non-directory entries,
/// one diagnostic each.
pub struct Bootstrap {
    pub registry: Processes,
    pub spawns: Vec<SpawnRequest>,
    pub skipped: Vec<String>,
}

/// The bootstrap step, after the scan: skip non-directories with a
/// diagnostic; for each directory build one entity and plan its initial
/// spawn. Reading the root and each entry's ownership is the caller's step,
/// and any failure there aborts the run before this point.
pub fn start(entries: Vec<ScanEntry>, program: &str) -> (r: Bootstrap)
    requires
        forall|i: int, j: int|
            0 <= i < j < entries@.len() && entries@[i].is_dir && entries@[j].is_dir
                ==> entries@[i].name@ != entries@[j].name@,
    ensures
        r.registry.wf(),
        r.registry@ == registry_of(entries@),
        r.registry.names() == dir_names(entries@),
        r.spawns@.len() == dir_entries(entries@).len(),
        forall|k: int|
            0 <= k < r.spawns@.len() ==> spawn_matches(
                dir_entries(entries@)[k],
                program@,
                r.spawns@[k],
            ),
        r.skipped.deep_view() == skipped_names(entries@),
{
    let mut registry = Processes::new();
    let mut spawns: Vec<SpawnRequest> = Vec::new();
    let mut skipped: Vec<String> = Vec::new();
    let n = entries.len();
    let mut i: usize = 0;
    proof {
        reveal(Seq::filter);
        assert(entries@.take(0) =~= Seq::<ScanEntry>::empty());
    }
    while i < n
        invariant
            n == entries@.len(),
            i <= n,
            forall|a: int, b: int|
                0 <= a < b < entries@.len() && entries@[a].is_dir && entries@[b].is_dir
                    ==> entries@[a].name@ != entries@[b].name@,
            registry.wf(),
            registry@ == registry_of(entries@.take(i as int)),
            registry.names() == dir_names(entries@.take(i as int)),
            spawns@.len() == dir_entries(entries@.take(i as int)).len(),
            forall|k: int|
                0 <= k < spawns@.len() ==> spawn_matches(
                    dir_entries(entries@.take(i as int))[k],
                    program@,
                    spawns@[k],
                ),
            skipped.deep_view() == skipped_names(entries@.take(i as int)),
        decreases n - i,
    {
        let ghost pre = entries@.take(i as int);
        let ghost cur = entries@.take(i + 1);
        proof {
            reveal(Seq::filter);
            assert(cur.drop_last() =~= pre);
            assert(cur.last() == entries@[i as int]);
        }
        let e = &entries[i];
        if e.is_dir {
            let mut sub = Subprocess::new(e.name.clone(), e.uid, e.gid, e.dir.clone());
            proof {
                lemma_registry_of_dom(pre, sub.name@);
                if registry@.contains_key(sub.name@) {
                    let j = choose|j: int|
                        0 <= j < pre.len() && pre[j].is_dir && pre[j].name@ == sub.name@;
                    assert(entries@[j] == pre[j]);
                }
            }
            let plan = sub.start(program);
            registry.insert(sub);
            spawns.push(plan.spawn);
            proof {
                assert(registry_of(cur) == registry_of(pre).insert(
                    entries@[i as int].name@,
                    entry_view(entries@[i as int]),
                ));
                assert(sub@ == entry_view(entries@[i as int]));
                assert(registry@ =~= registry_of(cur));
                assert(dir_entries(cur) =~= dir_entries(pre).push(entries@[i as int]));
                assert(dir_names(cur) =~= dir_names(pre).push(entries@[i as int].name@));
                assert(registry.names() == dir_names(cur));
                assert(es_not_dir(cur) =~= es_not_dir(pre));
                assert(skipped.deep_view() == skipped_names(cur));
            }
        } else {
            let ghost prevv = skipped@;
            let ghost prev = skipped.deep_view();
            let name = e.name.clone();
            skipped.push(name);
            proof {
                assert(dir_entries(cur) =~= dir_entries(pre));
                assert(dir_names(cur) =~= dir_names(pre));
                assert(registry_of(cur) == registry_of(pre));
                let tail = es_not_dir(cur);
                assert(tail =~= es_not_dir(pre).push(entries@[i as int]));
                assert forall|j: int| 0 <= j < skipped.deep_view().len() implies
                    skipped.deep_view()[j] == skipped_names(cur)[j] by {
                    assert(skipped.deep_view()[j] == skipped@[j].deep_view());
                    if j < prev.len() {
                        assert(skipped@[j] == prevv[j]);
                        assert(prev[j] == prevv[j].deep_view());
                        assert(prev[j] == skipped_names(pre)[j]);
                    } else {
                        assert(skipped@[j] == entries@[i as int].name);
                    }
                }
                assert(skipped@ == prevv.push(entries@[i as int].name));
                assert(prev.len() == prevv.len());
                assert(prev == skipped_names(pre));
                assert(tail.len() == es_not_dir(pre).len() + 1);
                assert(skipped.deep_view().len() == skipped_names(cur).len());
                assert(skipped.deep_view() =~= skipped_names(cur));
            }
        }
        i += 1;
    }
    proof {
        assert(entries@.take(n as int) =~= entries@);
    }
    Bootstrap { registry, spawns, skipped }
}

/// The registry after a restart of `n` has detached that entity's handle:
/// what `Processes::restart` leaves behind for a supervised name.
pub open spec fn detached(m: Map<Seq<char>, SubView>, n: Seq<char>) -> Map<Seq<char>, SubView>
    recommends
        m.contains_key(n),
{
    m.insert(n, SubView { process: None, ..m[n] })
}

/// The registry after the spawn for `n` was recorded: what
/// `Processes::record_spawn` leaves behind for a supervised name.
pub open spec fn recorded(m: Map<Seq<char>, SubView>, n: Seq<char>, t: u64) -> Map<
    Seq<char>,
    SubView,
>
    recommends
        m.contains_key(n),
{
    m.insert(n, SubView { process: Some(t), ..m[n] })
}

/// A restart of a supervised target is one terminate-then-spawn pair that
/// leaves exactly one recorded handle, and two sequential restarts are
/// independent such pairs: after the first pair the target's one handle is
/// the first token, the second restart detaches exactly that token, and
/// after the second pair the one handle is the second token. At no point
/// does the target hold two handles, the set of supervised names never
/// changes, and no other entity is touched.
pub proof fn lemma_sequential_restarts(m: Map<Seq<char>, SubView>, n: Seq<char>, t1: u64, t2: u64)
    requires
        m.contains_key(n),
    ensures
        ({
            let d1 = detached(m, n);
            let r1 = recorded(d1, n, t1);
            let d2 = detached(r1, n);
            let r2 = recorded(d2, n, t2);
            &&& d1[n].process is None
            &&& r1[n].process == Some(t1)
            &&& d2[n].process is None
            &&& r2[n].process == Some(t2)
            &&& r1[n].uid == m[n].uid && r1[n].gid == m[n].gid && r1[n].dir == m[n].dir
            &&& r2[n].uid == m[n].uid && r2[n].gid == m[n].gid && r2[n].dir == m[n].dir
            &&& r2.dom() == m.dom()
            &&& forall|k: Seq<char>| m.contains_key(k) && k != n ==> r2[k] == m[k]
        }),
{
    assert(recorded(detached(m, n), n, t1).dom() =~= m.dom());
    assert(recorded(detached(recorded(detached(m, n), n, t1), n), n, t2).dom() =~= m.dom());
}

} // verus!

