//! The supervisor: it owns the configuration snapshot and the runner handles, and
//! reconciles them against a reloaded configuration.

use vstd::prelude::*;

use crate::config::{endpoints_equal, same_endpoint, Endpoint};
use crate::status::StatusMap;

verus! {

/// The pairs read as a map from name to value.
pub open spec fn pairs_map<V>(s: Seq<(String, V)>) -> Map<Seq<char>, V> {
    Map::new(
        |k: Seq<char>| exists|i: int| 0 <= i < s.len() && (#[trigger] s[i]).0@ == k,
        |k: Seq<char>| s[choose|i: int| 0 <= i < s.len() && (#[trigger] s[i]).0@ == k].1,
    )
}

/// No two pairs share a name.
pub open spec fn keys_unique<V>(s: Seq<(String, V)>) -> bool {
    forall|i: int, j: int| 0 <= i < j < s.len() ==> (#[trigger] s[i]).0@ != (#[trigger] s[j]).0@
}

pub proof fn lemma_pairs_map_at<V>(s: Seq<(String, V)>, j: int)
    requires
        keys_unique(s),
        0 <= j < s.len(),
    ensures
        pairs_map(s).contains_key(s[j].0@),
        pairs_map(s)[s[j].0@] == s[j].1,
{
    let k = s[j].0@;
    assert(exists|i: int| 0 <= i < s.len() && (#[trigger] s[i]).0@ == k);
    let c = choose|i: int| 0 <= i < s.len() && (#[trigger] s[i]).0@ == k;
    if c != j {
        if c < j {
            assert(s[c].0@ != s[j].0@);
        } else {
            assert(s[j].0@ != s[c].0@);
        }
    }
}

/// The names held by a list of texts.
pub open spec fn name_set(v: Seq<String>) -> Set<Seq<char>> {
    Set::new(|k: Seq<char>| exists|i: int| 0 <= i < v.len() && (#[trigger] v[i])@ == k)
}

proof fn lemma_name_set_push(v: Seq<String>, x: String)
    ensures
        name_set(v.push(x)) == name_set(v).insert(x@),
{
    let w = v.push(x);
    assert forall|k: Seq<char>| name_set(w).contains(k) <==> name_set(v).insert(x@).contains(k) by {
        if name_set(v).contains(k) {
            let c = choose|c: int| 0 <= c < v.len() && (#[trigger] v[c])@ == k;
            assert(w[c] == v[c]);
        }
        if name_set(w).contains(k) {
            let c = choose|c: int| 0 <= c < w.len() && (#[trigger] w[c])@ == k;
            if c < v.len() {
                assert(w[c] == v[c]);
            }
        }
        if k == x@ {
            assert(w[v.len() as int] == x);
        }
    }
    assert(name_set(w) =~= name_set(v).insert(x@));
}

/// Names configured before and not after.
pub open spec fn removed_set(old: Map<Seq<char>, Endpoint>, new: Map<Seq<char>, Endpoint>) -> Set<Seq<char>> {
    old.dom().difference(new.dom())
}

/// Names configured after and not before.
pub open spec fn added_set(old: Map<Seq<char>, Endpoint>, new: Map<Seq<char>, Endpoint>) -> Set<Seq<char>> {
    new.dom().difference(old.dom())
}

/// Names configured before and after, with a different descriptor.
pub open spec fn changed_set(old: Map<Seq<char>, Endpoint>, new: Map<Seq<char>, Endpoint>) -> Set<Seq<char>> {
    Set::new(
        |k: Seq<char>|
            old.dom().contains(k) && new.dom().contains(k) && !same_endpoint(old[k], new[k]),
    )
}

/// Names configured before and after, with the same descriptor.
pub open spec fn unchanged_set(old: Map<Seq<char>, Endpoint>, new: Map<Seq<char>, Endpoint>) -> Set<Seq<char>> {
    Set::new(
        |k: Seq<char>| old.dom().contains(k) && new.dom().contains(k) && same_endpoint(old[k], new[k]),
    )
}

/// The four parts of a reload together hold every name configured before or after,
/// and no name lies in two of them.
pub proof fn lemma_partition_exhaustive(old: Map<Seq<char>, Endpoint>, new: Map<Seq<char>, Endpoint>)
    ensures
        removed_set(old, new).union(added_set(old, new)).union(changed_set(old, new)).union(
            unchanged_set(old, new),
        ) == old.dom().union(new.dom()),
        removed_set(old, new).disjoint(added_set(old, new)),
        removed_set(old, new).disjoint(changed_set(old, new)),
        removed_set(old, new).disjoint(unchanged_set(old, new)),
        added_set(old, new).disjoint(changed_set(old, new)),
        added_set(old, new).disjoint(unchanged_set(old, new)),
        changed_set(old, new).disjoint(unchanged_set(old, new)),
{
    assert(removed_set(old, new).union(added_set(old, new)).union(changed_set(old, new)).union(
        unchanged_set(old, new),
    ) =~= old.dom().union(new.dom()));
}

/// How the names of the configuration move on a reload.
#[derive(Debug)]
pub struct ReloadPlan {
    pub removed: Vec<String>,
    pub added: Vec<String>,
    pub changed: Vec<String>,
    pub unchanged: Vec<String>,
}

/// Position of the pair named `name`.
pub fn find_name<V>(s: &Vec<(String, V)>, name: &String) -> (r: Option<usize>)
    ensures
        match r {
            Some(i) => i < s@.len() && s@[i as int].0@ == name@,
            None => forall|i: int| 0 <= i < s@.len() ==> (#[trigger] s@[i]).0@ != name@,
        },
{
    let mut i: usize = 0;
    while i < s.len()
        invariant
            i <= s@.len(),
            forall|k: int| 0 <= k < i ==> (#[trigger] s@[k]).0@ != name@,
        decreases s@.len() - i,
    {
        if String::eq(&s[i].0, name) {
            return Some(i);
        }
        i = i + 1;
    }
    None
}

/// Splits the names of `current` and `next` into removed, added, changed and unchanged ones.
pub fn plan_reload(current: &Vec<(String, Endpoint)>, next: &Vec<(String, Endpoint)>) -> (r: ReloadPlan)
    requires
        keys_unique(current@),
        keys_unique(next@),
    ensures
        name_set(r.removed@) == removed_set(pairs_map(current@), pairs_map(next@)),
        name_set(r.added@) == added_set(pairs_map(current@), pairs_map(next@)),
        name_set(r.changed@) == changed_set(pairs_map(current@), pairs_map(next@)),
        name_set(r.unchanged@) == unchanged_set(pairs_map(current@), pairs_map(next@)),
{
    let ghost om = pairs_map(current@);
    let ghost nm = pairs_map(next@);
    let mut removed: Vec<String> = Vec::new();
    let mut i: usize = 0;
    while i < current.len()
        invariant
            i <= current@.len(),
            om == pairs_map(current@),
            nm == pairs_map(next@),
            forall|m: int| 0 <= m < removed@.len() ==> removed_set(om, nm).contains(#[trigger] removed@[m]@),
            forall|j: int|
                0 <= j < i && !nm.dom().contains(#[trigger] current@[j].0@) ==> name_set(removed@).contains(
                    current@[j].0@,
                ),
        decreases current@.len() - i,
    {
        match find_name(next, &current[i].0) {
            Some(_) => {},
            None => {
                assert(!nm.dom().contains(current@[i as int].0@));
                assert(om.dom().contains(current@[i as int].0@));
                let ghost before = removed@;
                let x = current[i].0.clone();
                removed.push(x);
                proof {
                    lemma_name_set_push(before, x);
                }
                assert(removed@[removed@.len() - 1]@ == current@[i as int].0@);
            },
        }
        i = i + 1;
    }
    let mut added: Vec<String> = Vec::new();
    let mut changed: Vec<String> = Vec::new();
    let mut unchanged: Vec<String> = Vec::new();
    let mut j: usize = 0;
    while j < next.len()
        invariant
            j <= next@.len(),
            keys_unique(current@),
            keys_unique(next@),
            om == pairs_map(current@),
            nm == pairs_map(next@),
            forall|m: int| 0 <= m < added@.len() ==> added_set(om, nm).contains(#[trigger] added@[m]@),
            forall|m: int| 0 <= m < changed@.len() ==> changed_set(om, nm).contains(#[trigger] changed@[m]@),
            forall|m: int|
                0 <= m < unchanged@.len() ==> unchanged_set(om, nm).contains(#[trigger] unchanged@[m]@),
            forall|k: int|
                0 <= k < j ==> {
                    let n = (#[trigger] next@[k]).0@;
                    &&& added_set(om, nm).contains(n) ==> name_set(added@).contains(n)
                    &&& changed_set(om, nm).contains(n) ==> name_set(changed@).contains(n)
                    &&& unchanged_set(om, nm).contains(n) ==> name_set(unchanged@).contains(n)
                },
        decreases next@.len() - j,
    {
        proof {
            lemma_pairs_map_at(next@, j as int);
        }
        let ghost n = next@[j as int].0@;
        match find_name(current, &next[j].0) {
            Some(k) => {
                proof {
                    lemma_pairs_map_at(current@, k as int);
                }
                if endpoints_equal(&current[k].1, &next[j].1) {
                    let ghost before = unchanged@;
                    let x = next[j].0.clone();
                    unchanged.push(x);
                    proof {
                        lemma_name_set_push(before, x);
                    }
                    assert(unchanged@[unchanged@.len() - 1]@ == n);
                } else {
                    let ghost before = changed@;
                    let x = next[j].0.clone();
                    changed.push(x);
                    proof {
                        lemma_name_set_push(before, x);
                    }
                    assert(changed@[changed@.len() - 1]@ == n);
                }
            },
            None => {
                assert(!om.dom().contains(n));
                let ghost before = added@;
                let x = next[j].0.clone();
                added.push(x);
                proof {
                    lemma_name_set_push(before, x);
                }
                assert(added@[added@.len() - 1]@ == n);
            },
        }
        j = j + 1;
    }
    proof {
        assert forall|k: Seq<char>| removed_set(om, nm).contains(k) implies name_set(removed@).contains(k) by {
            let c = choose|c: int| 0 <= c < current@.len() && (#[trigger] current@[c]).0@ == k;
        }
        assert forall|k: Seq<char>| name_set(removed@).contains(k) implies removed_set(om, nm).contains(k) by {
            let c = choose|c: int| 0 <= c < removed@.len() && (#[trigger] removed@[c])@ == k;
        }
        assert(name_set(removed@) =~= removed_set(om, nm));
        assert forall|k: Seq<char>| nm.dom().contains(k) implies exists|c: int| 0 <= c < next@.len() && (#[trigger] next@[c]).0@ == k by {}
        assert forall|k: Seq<char>| name_set(added@).contains(k) implies added_set(om, nm).contains(k) by {
            let c = choose|c: int| 0 <= c < added@.len() && (#[trigger] added@[c])@ == k;
        }
        assert forall|k: Seq<char>| name_set(changed@).contains(k) implies changed_set(om, nm).contains(k) by {
            let c = choose|c: int| 0 <= c < changed@.len() && (#[trigger] changed@[c])@ == k;
        }
        assert forall|k: Seq<char>| name_set(unchanged@).contains(k) implies unchanged_set(om, nm).contains(k) by {
            let c = choose|c: int| 0 <= c < unchanged@.len() && (#[trigger] unchanged@[c])@ == k;
        }
        assert(name_set(added@) =~= added_set(om, nm));
        assert(name_set(changed@) =~= changed_set(om, nm));
        assert(name_set(unchanged@) =~= unchanged_set(om, nm));
    }
    ReloadPlan { removed, added, changed, unchanged }
}


/// A runner to start: its handle, its endpoint's name and descriptor.
#[derive(Debug)]
pub struct RunnerStart {
    pub id: u64,
    pub name: String,
    pub endpoint: Endpoint,
}

pub open spec fn start_names(s: Seq<RunnerStart>) -> Seq<String> {
    s.map_values(|r: RunnerStart| r.name)
}

/// No endpoint is named twice among the runners to start.
pub open spec fn starts_distinct(s: Seq<RunnerStart>) -> bool {
    forall|i: int, j: int| 0 <= i < j < s.len() ==> (#[trigger] s[i]).name@ != (#[trigger] s[j]).name@
}

/// What a reload asks of the caller: cancel the runners of `stop` (by endpoint name and
/// handle), start those of `start`, then check every endpoint of `sweep` once.
#[derive(Debug)]
pub struct ReloadActions {
    pub plan: ReloadPlan,
    pub stop: Vec<(String, u64)>,
    pub start: Vec<RunnerStart>,
    pub sweep: Vec<(String, Endpoint)>,
}

/// Owner of the configuration snapshot and of one runner handle per configured endpoint.
#[derive(Debug)]
pub struct Supervisor {
    endpoints: Vec<(String, Endpoint)>,
    runners: Vec<(String, u64)>,
    next_id: u64,
}

proof fn lemma_prefix_names(s: Seq<(String, Endpoint)>, j: int)
    requires
        0 <= j < s.len(),
    ensures
        pairs_map(s.subrange(0, j + 1)).dom() == pairs_map(s.subrange(0, j)).dom().insert(s[j].0@),
{
    let a = s.subrange(0, j);
    let b = s.subrange(0, j + 1);
    assert forall|k: Seq<char>| pairs_map(b).dom().contains(k) <==> pairs_map(a).dom().insert(s[j].0@).contains(k) by {
        if pairs_map(a).dom().contains(k) {
            let c = choose|c: int| 0 <= c < a.len() && (#[trigger] a[c]).0@ == k;
            assert(b[c] == a[c]);
        }
        if pairs_map(b).dom().contains(k) {
            let c = choose|c: int| 0 <= c < b.len() && (#[trigger] b[c]).0@ == k;
            if c < j {
                assert(b[c] == a[c]);
            }
        }
        if k == s[j].0@ {
            assert(b[j] == s[j]);
        }
    }
    assert(pairs_map(b).dom() =~= pairs_map(a).dom().insert(s[j].0@));
}

/// Different names hold different handles.
pub open spec fn handles_distinct(h: Map<Seq<char>, u64>) -> bool {
    forall|k1: Seq<char>, k2: Seq<char>|
        #[trigger] h.contains_key(k1) && #[trigger] h.contains_key(k2) && k1 != k2 ==> h[k1] != h[k2]
}

/// Pairs of `a` and `b` stand at the same positions under the same names.
pub open spec fn aligned<V, W>(a: Seq<(String, V)>, b: Seq<(String, W)>) -> bool {
    a.len() == b.len() && forall|m: int| 0 <= m < a.len() ==> (#[trigger] a[m]).0@ == b[m].0@
}

proof fn lemma_aligned_dom<V, W>(a: Seq<(String, V)>, b: Seq<(String, W)>)
    requires
        aligned(a, b),
    ensures
        pairs_map(a).dom() == pairs_map(b).dom(),
        keys_unique(b) ==> keys_unique(a),
{
    assert forall|k: Seq<char>| pairs_map(a).dom().contains(k) <==> pairs_map(b).dom().contains(k) by {
        if pairs_map(a).dom().contains(k) {
            let c = choose|c: int| 0 <= c < a.len() && (#[trigger] a[c]).0@ == k;
            assert(b[c].0@ == k);
        }
        if pairs_map(b).dom().contains(k) {
            let c = choose|c: int| 0 <= c < b.len() && (#[trigger] b[c]).0@ == k;
            assert(a[c].0@ == k);
        }
    }
    assert(pairs_map(a).dom() =~= pairs_map(b).dom());
    if keys_unique(b) {
        assert forall|i: int, j: int| 0 <= i < j < a.len() implies (#[trigger] a[i]).0@ != (#[trigger] a[j]).0@ by {
            assert(b[i].0@ != b[j].0@);
        }
    }
}

/// Names whose runner is cancelled on a reload.
pub open spec fn stopped_set(old: Map<Seq<char>, Endpoint>, new: Map<Seq<char>, Endpoint>) -> Set<Seq<char>> {
    removed_set(old, new).union(changed_set(old, new))
}

/// Names whose runner is started on a reload.
pub open spec fn started_set(old: Map<Seq<char>, Endpoint>, new: Map<Seq<char>, Endpoint>) -> Set<Seq<char>> {
    added_set(old, new).union(changed_set(old, new))
}

/// Two configurations hold the same names with the same descriptors.
pub open spec fn same_config(a: Map<Seq<char>, Endpoint>, b: Map<Seq<char>, Endpoint>) -> bool {
    a.dom() == b.dom() && forall|k: Seq<char>| #[trigger] a.contains_key(k) ==> same_endpoint(a[k], b[k])
}

proof fn lemma_pairs_dom_push<V>(s: Seq<(String, V)>, x: (String, V))
    ensures
        pairs_map(s.push(x)).dom() == pairs_map(s).dom().insert(x.0@),
{
    let w = s.push(x);
    assert forall|k: Seq<char>| pairs_map(w).dom().contains(k) <==> pairs_map(s).dom().insert(x.0@).contains(k) by {
        if pairs_map(s).dom().contains(k) {
            let c = choose|c: int| 0 <= c < s.len() && (#[trigger] s[c]).0@ == k;
            assert(w[c] == s[c]);
        }
        if pairs_map(w).dom().contains(k) {
            let c = choose|c: int| 0 <= c < w.len() && (#[trigger] w[c]).0@ == k;
            if c < s.len() {
                assert(w[c] == s[c]);
            }
        }
        if k == x.0@ {
            assert(w[s.len() as int] == x);
        }
    }
    assert(pairs_map(w).dom() =~= pairs_map(s).dom().insert(x.0@));
}

proof fn lemma_start_names_push(s: Seq<RunnerStart>, x: RunnerStart)
    ensures
        name_set(start_names(s.push(x))) == name_set(start_names(s)).insert(x.name@),
{
    assert(start_names(s.push(x)) =~= start_names(s).push(x.name));
    lemma_name_set_push(start_names(s), x.name);
}

/// Reconciling with a configuration equal to the snapshot keeps every runner handle,
/// cancels and starts nothing, and sweeps every endpoint exactly once.
pub proof fn lemma_reload_unchanged_config(old: Map<Seq<char>, Endpoint>, new: Map<Seq<char>, Endpoint>)
    requires
        same_config(old, new),
    ensures
        stopped_set(old, new) == Set::<Seq<char>>::empty(),
        started_set(old, new) == Set::<Seq<char>>::empty(),
        unchanged_set(old, new) == new.dom(),
{
    assert(stopped_set(old, new) =~= Set::<Seq<char>>::empty());
    assert(started_set(old, new) =~= Set::<Seq<char>>::empty());
    assert(unchanged_set(old, new) =~= new.dom());
}

/// Reconciling one handle per old name (dropping the handles of stopped names and giving
/// each started name a new one) leaves exactly one handle per name of the new
/// configuration, and none for a removed name.
pub proof fn lemma_single_runner_per_name(
    handles: Set<Seq<char>>,
    old: Map<Seq<char>, Endpoint>,
    new: Map<Seq<char>, Endpoint>,
)
    requires
        handles == old.dom(),
    ensures
        handles.difference(stopped_set(old, new)).union(started_set(old, new)) == new.dom(),
        removed_set(old, new).disjoint(
            handles.difference(stopped_set(old, new)).union(started_set(old, new)),
        ),
{
    assert(handles.difference(stopped_set(old, new)).union(started_set(old, new)) =~= new.dom());
}

impl Supervisor {
    /// The configuration snapshot, by name.
    pub closed spec fn config(&self) -> Map<Seq<char>, Endpoint> {
        pairs_map(self.endpoints@)
    }

    /// The runner handle of each configured endpoint.
    pub closed spec fn handles(&self) -> Map<Seq<char>, u64> {
        pairs_map(self.runners@)
    }

    /// Every handle given out so far is below this one.
    pub closed spec fn next_handle(&self) -> nat {
        self.next_id as nat
    }

    /// One handle per configured endpoint, each below `next_handle`, no two alike.
    pub closed spec fn wf(&self) -> bool {
        &&& keys_unique(self.endpoints@)
        &&& keys_unique(self.runners@)
        &&& self.handles().dom() == self.config().dom()
        &&& forall|k: Seq<char>| #[trigger] self.handles().contains_key(k) ==> self.handles()[k] < self.next_id
        &&& handles_distinct(self.handles())
    }

    /// A supervisor for `endpoints`, with the runners to start: one per endpoint.
    pub fn start(endpoints: Vec<(String, Endpoint)>) -> (r: (Supervisor, Vec<RunnerStart>))
        requires
            keys_unique(endpoints@),
            endpoints@.len() < u64::MAX,
        ensures
            r.0.wf(),
            r.0.config() == pairs_map(endpoints@),
            r.0.handles().dom() == pairs_map(endpoints@).dom(),
            handles_distinct(r.0.handles()),
            r.1@.len() == endpoints@.len(),
            starts_distinct(r.1@),
            name_set(start_names(r.1@)) == pairs_map(endpoints@).dom(),
            forall|i: int|
                0 <= i < r.1@.len() ==> {
                    &&& r.0.handles()[(#[trigger] r.1@[i]).name@] == r.1@[i].id
                    &&& same_endpoint(r.1@[i].endpoint, pairs_map(endpoints@)[r.1@[i].name@])
                },
    {
        let mut runners: Vec<(String, u64)> = Vec::new();
        let mut starts: Vec<RunnerStart> = Vec::new();
        let mut j: usize = 0;
        while j < endpoints.len()
            invariant
                j <= endpoints@.len(),
                endpoints@.len() < u64::MAX,
                keys_unique(endpoints@),
                runners@.len() == j,
                starts@.len() == j,
                forall|m: int|
                    0 <= m < j ==> {
                        &&& (#[trigger] runners@[m]).0@ == endpoints@[m].0@
                        &&& runners@[m].1 == m
                        &&& starts@[m].id == m
                        &&& starts@[m].name@ == endpoints@[m].0@
                        &&& same_endpoint(starts@[m].endpoint, endpoints@[m].1)
                    },
            decreases endpoints@.len() - j,
        {
            runners.push((endpoints[j].0.clone(), j as u64));
            starts.push(
                RunnerStart { id: j as u64, name: endpoints[j].0.clone(), endpoint: endpoints[j].1.duplicate() },
            );
            j = j + 1;
        }
        let sup = Supervisor { endpoints, runners, next_id: j as u64 };
        proof {
            assert(aligned(sup.runners@, sup.endpoints@));
            lemma_aligned_dom(sup.runners@, sup.endpoints@);
            assert forall|k: Seq<char>| #[trigger] sup.handles().contains_key(k) implies sup.handles()[k] < sup.next_id by {
                let c = choose|c: int| 0 <= c < sup.runners@.len() && (#[trigger] sup.runners@[c]).0@ == k;
                lemma_pairs_map_at(sup.runners@, c);
            }
            assert forall|k1: Seq<char>, k2: Seq<char>|
                #[trigger] sup.handles().contains_key(k1) && #[trigger] sup.handles().contains_key(k2) && k1 != k2
                implies sup.handles()[k1] != sup.handles()[k2] by {
                let c1 = choose|c: int| 0 <= c < sup.runners@.len() && (#[trigger] sup.runners@[c]).0@ == k1;
                let c2 = choose|c: int| 0 <= c < sup.runners@.len() && (#[trigger] sup.runners@[c]).0@ == k2;
                lemma_pairs_map_at(sup.runners@, c1);
                lemma_pairs_map_at(sup.runners@, c2);
            }
            assert forall|i: int| 0 <= i < starts@.len() implies {
                &&& sup.handles()[(#[trigger] starts@[i]).name@] == starts@[i].id
                &&& same_endpoint(starts@[i].endpoint, pairs_map(sup.endpoints@)[starts@[i].name@])
            } by {
                lemma_pairs_map_at(sup.runners@, i);
                lemma_pairs_map_at(sup.endpoints@, i);
            }
            let sn = start_names(starts@);
            assert forall|k: Seq<char>| name_set(sn).contains(k) <==> pairs_map(sup.endpoints@).dom().contains(k) by {
                if name_set(sn).contains(k) {
                    let c = choose|c: int| 0 <= c < sn.len() && (#[trigger] sn[c])@ == k;
                    assert(sup.runners@[c].0@ == sup.endpoints@[c].0@);
                    assert(sn[c] == starts@[c].name);
                    assert(sup.endpoints@[c].0@ == k);
                }
                if pairs_map(sup.endpoints@).dom().contains(k) {
                    let c = choose|c: int| 0 <= c < sup.endpoints@.len() && (#[trigger] sup.endpoints@[c]).0@ == k;
                    assert(sup.runners@[c].0@ == sup.endpoints@[c].0@);
                    assert(sn[c] == starts@[c].name);
                    assert(sn[c]@ == k);
                }
            }
            assert(name_set(sn) =~= pairs_map(sup.endpoints@).dom());
            assert forall|a: int, b: int| 0 <= a < b < starts@.len() implies (#[trigger] starts@[a]).name@
                != (#[trigger] starts@[b]).name@ by {
                assert(sup.runners@[a].0@ == sup.endpoints@[a].0@);
                assert(sup.runners@[b].0@ == sup.endpoints@[b].0@);
                assert(sup.endpoints@[a].0@ != sup.endpoints@[b].0@);
            }
        }
        (sup, starts)
    }
    /// Reconciles the runners with the reloaded configuration `next`: the runner of a
    /// removed or changed endpoint is cancelled and its outcome purged from `status`; a
    /// changed or added endpoint gets a runner with a fresh handle; an unchanged one keeps
    /// its runner. Every endpoint of `next` is then to be swept once, and `next` becomes the
    /// snapshot.
    pub fn apply_config_update(&mut self, next: Vec<(String, Endpoint)>, status: &mut StatusMap) -> (r:
        ReloadActions)
        requires
            old(self).wf(),
            keys_unique(next@),
            old(status).wf(),
            old(self).next_handle() + next@.len() <= u64::MAX,
        ensures
            final(self).wf(),
            final(self).config() == pairs_map(next@),
            final(self).handles().dom() == pairs_map(next@).dom(),
            handles_distinct(final(self).handles()),
            forall|k: Seq<char>|
                #[trigger] unchanged_set(old(self).config(), pairs_map(next@)).contains(k)
                    ==> final(self).handles()[k] == old(self).handles()[k],
            forall|k: Seq<char>|
                #[trigger] started_set(old(self).config(), pairs_map(next@)).contains(k)
                    ==> final(self).handles()[k] >= old(self).next_handle(),
            name_set(start_names(r.start@)) == started_set(old(self).config(), pairs_map(next@)),
            starts_distinct(r.start@),
            forall|i: int|
                0 <= i < r.start@.len() ==> {
                    &&& final(self).handles()[(#[trigger] r.start@[i]).name@] == r.start@[i].id
                    &&& same_endpoint(r.start@[i].endpoint, pairs_map(next@)[r.start@[i].name@])
                },
            forall|i: int|
                0 <= i < r.stop@.len() ==> {
                    &&& stopped_set(old(self).config(), pairs_map(next@)).contains((#[trigger] r.stop@[i]).0@)
                    &&& r.stop@[i].1 == old(self).handles()[r.stop@[i].0@]
                },
            pairs_map(r.stop@).dom() == stopped_set(old(self).config(), pairs_map(next@)),
            final(status).wf(),
            final(status)@ == old(status)@.remove_keys(stopped_set(old(self).config(), pairs_map(next@))),
            keys_unique(r.sweep@),
            pairs_map(r.sweep@).dom() == pairs_map(next@).dom(),
            forall|k: Seq<char>|
                #[trigger] pairs_map(next@).contains_key(k) ==> same_endpoint(pairs_map(r.sweep@)[k], pairs_map(next@)[k]),
            name_set(r.plan.removed@) == removed_set(old(self).config(), pairs_map(next@)),
            name_set(r.plan.added@) == added_set(old(self).config(), pairs_map(next@)),
            name_set(r.plan.changed@) == changed_set(old(self).config(), pairs_map(next@)),
            name_set(r.plan.unchanged@) == unchanged_set(old(self).config(), pairs_map(next@)),
            same_config(old(self).config(), pairs_map(next@)) ==> {
                &&& r.stop@.len() == 0
                &&& r.start@.len() == 0
                &&& final(self).handles() == old(self).handles()
            },
    {
        let ghost om = self.config();
        let ghost nm = pairs_map(next@);
        let ghost oh = self.handles();
        let ghost onext = self.next_id;
        let ghost ost = status@;
        let plan = plan_reload(&self.endpoints, &next);
        let mut stop: Vec<(String, u64)> = Vec::new();
        let ghost mut gone: Set<Seq<char>> = Set::empty();
        assert(ost.remove_keys(gone) =~= ost);
        assert(pairs_map(stop@).dom() =~= gone);
        let mut i: usize = 0;
        while i < self.runners.len()
            invariant
                i <= self.runners@.len(),
                self.wf(),
                om == self.config(),
                oh == self.handles(),
                nm == pairs_map(next@),
                status.wf(),
                status@ == ost.remove_keys(gone),
                gone.subset_of(removed_set(om, nm)),
                pairs_map(stop@).dom() == gone,
                forall|m: int|
                    0 <= m < i && removed_set(om, nm).contains(#[trigger] self.runners@[m].0@) ==> gone.contains(
                        self.runners@[m].0@,
                    ),
                forall|t: int|
                    0 <= t < stop@.len() ==> stopped_set(om, nm).contains((#[trigger] stop@[t]).0@) && stop@[t].1
                        == oh[stop@[t].0@],
            decreases self.runners@.len() - i,
        {
            if find_name(&next, &self.runners[i].0).is_none() {
                let ghost n = self.runners@[i as int].0@;
                proof {
                    lemma_pairs_map_at(self.runners@, i as int);
                    assert(!nm.dom().contains(n));
                    assert(removed_set(om, nm).contains(n));
                }
                let entry = (self.runners[i].0.clone(), self.runners[i].1);
                proof {
                    lemma_pairs_dom_push(stop@, entry);
                }
                stop.push(entry);
                status.remove(self.runners[i].0.as_str());
                proof {
                    assert(ost.remove_keys(gone).remove(n) =~= ost.remove_keys(gone.insert(n)));
                    gone = gone.insert(n);
                }
            }
            i = i + 1;
        }
        proof {
            assert forall|k: Seq<char>| removed_set(om, nm).contains(k) implies gone.contains(k) by {
                let c = choose|c: int| 0 <= c < self.runners@.len() && (#[trigger] self.runners@[c]).0@ == k;
            }
            assert(gone =~= removed_set(om, nm));
            assert(pairs_map(next@.subrange(0, 0)).dom() =~= Set::<Seq<char>>::empty());
            assert(gone =~= removed_set(om, nm).union(changed_set(om, nm).intersect(pairs_map(next@.subrange(0, 0)).dom())));
        }
        let mut runners: Vec<(String, u64)> = Vec::new();
        let mut start: Vec<RunnerStart> = Vec::new();
        let ghost mut start_pos: Seq<int> = Seq::empty();
        let mut sweep: Vec<(String, Endpoint)> = Vec::new();
        let mut id: u64 = self.next_id;
        let mut j: usize = 0;
        while j < next.len()
            invariant
                j <= next@.len(),
                self.wf(),
                om == self.config(),
                oh == self.handles(),
                onext == self.next_id,
                keys_unique(next@),
                nm == pairs_map(next@),
                onext + next@.len() <= u64::MAX,
                onext <= id <= onext + j,
                status.wf(),
                status@ == ost.remove_keys(gone),
                gone == removed_set(om, nm).union(changed_set(om, nm).intersect(pairs_map(next@.subrange(0, j as int)).dom())),
                pairs_map(stop@).dom() == gone,
                forall|t: int|
                    0 <= t < stop@.len() ==> stopped_set(om, nm).contains((#[trigger] stop@[t]).0@) && stop@[t].1
                        == oh[stop@[t].0@],
                runners@.len() == j,
                sweep@.len() == j,
                forall|m: int|
                    0 <= m < j ==> {
                        let n = (#[trigger] next@[m]).0@;
                        &&& runners@[m].0@ == n
                        &&& sweep@[m].0@ == n
                        &&& same_endpoint(sweep@[m].1, next@[m].1)
                        &&& unchanged_set(om, nm).contains(n) ==> runners@[m].1 == oh[n]
                        &&& !unchanged_set(om, nm).contains(n) ==> onext <= runners@[m].1 < id
                        &&& started_set(om, nm).contains(n) ==> name_set(start_names(start@)).contains(n)
                    },
                forall|m1: int, m2: int|
                    0 <= m1 < m2 < j && !unchanged_set(om, nm).contains(next@[m1].0@)
                        && !unchanged_set(om, nm).contains(next@[m2].0@) ==> (#[trigger] runners@[m1]).1
                        < (#[trigger] runners@[m2]).1,
                start_pos.len() == start@.len(),
                forall|t1: int, t2: int| 0 <= t1 < t2 < start@.len() ==> #[trigger] start_pos[t1] < #[trigger] start_pos[t2],
                forall|t: int|
                    0 <= t < start@.len() ==> {
                        let m = #[trigger] start_pos[t];
                        &&& 0 <= m < j
                        &&& next@[m].0@ == start@[t].name@
                        &&& runners@[m].1 == start@[t].id
                        &&& started_set(om, nm).contains(start@[t].name@)
                        &&& same_endpoint(start@[t].endpoint, next@[m].1)
                    },
            decreases next@.len() - j,
        {
            let ghost n = next@[j as int].0@;
            proof {
                lemma_pairs_map_at(next@, j as int);
                lemma_prefix_names(next@, j as int);
            }
            let ghost runners0 = runners@;
            let ghost start0 = start@;
            let ghost sweep0 = sweep@;
            match find_name(&self.endpoints, &next[j].0) {
                Some(k) => {
                    proof {
                        lemma_pairs_map_at(self.endpoints@, k as int);
                    }
                    let h: u64 = match find_name(&self.runners, &next[j].0) {
                        Some(q) => {
                            proof {
                                lemma_pairs_map_at(self.runners@, q as int);
                            }
                            self.runners[q].1
                        },
                        None => {
                            proof {
                                assert(oh.dom().contains(n));
                                let c = choose|c: int| 0 <= c < self.runners@.len() && (#[trigger] self.runners@[c]).0@ == n;
                                assert(self.runners@[c].0@ != n);
                            }
                            0
                        },
                    };
                    assert(h == oh[n]);
                    if endpoints_equal(&self.endpoints[k].1, &next[j].1) {
                        assert(unchanged_set(om, nm).contains(n));
                        runners.push((next[j].0.clone(), h));
                        proof {
                            assert(!changed_set(om, nm).contains(n));
                            assert(gone =~= removed_set(om, nm).union(changed_set(om, nm).intersect(pairs_map(next@.subrange(0, j + 1)).dom())));
                        }
                    } else {
                        assert(changed_set(om, nm).contains(n));
                        let entry = (next[j].0.clone(), h);
                        proof {
                            lemma_pairs_dom_push(stop@, entry);
                        }
                        stop.push(entry);
                        status.remove(next[j].0.as_str());
                        proof {
                            assert(ost.remove_keys(gone).remove(n) =~= ost.remove_keys(gone.insert(n)));
                            gone = gone.insert(n);
                            assert(gone =~= removed_set(om, nm).union(changed_set(om, nm).intersect(pairs_map(next@.subrange(0, j + 1)).dom())));
                        }
                        runners.push((next[j].0.clone(), id));
                        let st = RunnerStart { id, name: next[j].0.clone(), endpoint: next[j].1.duplicate() };
                        proof {
                            lemma_start_names_push(start@, st);
                            start_pos = start_pos.push(j as int);
                        }
                        start.push(st);
                        id = id + 1;
                    }
                },
                None => {
                    assert(!om.dom().contains(n));
                    assert(added_set(om, nm).contains(n));
                    proof {
                        assert(!changed_set(om, nm).contains(n));
                        assert(gone =~= removed_set(om, nm).union(changed_set(om, nm).intersect(pairs_map(next@.subrange(0, j + 1)).dom())));
                    }
                    runners.push((next[j].0.clone(), id));
                    let st = RunnerStart { id, name: next[j].0.clone(), endpoint: next[j].1.duplicate() };
                    proof {
                        lemma_start_names_push(start@, st);
                        start_pos = start_pos.push(j as int);
                    }
                    start.push(st);
                    id = id + 1;
                },
            }
            sweep.push((next[j].0.clone(), next[j].1.duplicate()));
            proof {
                assert forall|m: int| 0 <= m < j implies runners@[m] == runners0[m] && sweep@[m] == sweep0[m] by {}
                assert forall|t: int| 0 <= t < start0.len() implies start@[t] == start0[t] by {}
            }
            j = j + 1;
        }
        proof {
            assert(next@.subrange(0, j as int) =~= next@);
            assert(gone =~= stopped_set(om, nm));
        }
        let ghost fin = runners@;
        self.endpoints = next;
        self.runners = runners;
        self.next_id = id;
        proof {
            assert(aligned(fin, self.endpoints@));
            lemma_aligned_dom(fin, self.endpoints@);
            assert(aligned(sweep@, self.endpoints@));
            lemma_aligned_dom(sweep@, self.endpoints@);
            assert forall|k: Seq<char>| #[trigger] self.handles().contains_key(k) implies self.handles()[k] < self.next_id by {
                let c = choose|c: int| 0 <= c < fin.len() && (#[trigger] fin[c]).0@ == k;
                lemma_pairs_map_at(fin, c);
                assert(next@[c].0@ == k);
            }
            assert forall|k1: Seq<char>, k2: Seq<char>|
                #[trigger] self.handles().contains_key(k1) && #[trigger] self.handles().contains_key(k2) && k1 != k2
                implies self.handles()[k1] != self.handles()[k2] by {
                let c1 = choose|c: int| 0 <= c < fin.len() && (#[trigger] fin[c]).0@ == k1;
                let c2 = choose|c: int| 0 <= c < fin.len() && (#[trigger] fin[c]).0@ == k2;
                lemma_pairs_map_at(fin, c1);
                lemma_pairs_map_at(fin, c2);
                assert(next@[c1].0@ == k1);
                assert(next@[c2].0@ == k2);
                let u1 = unchanged_set(om, nm).contains(k1);
                let u2 = unchanged_set(om, nm).contains(k2);
                if u1 && u2 {
                    assert(oh.contains_key(k1) && oh.contains_key(k2));
                } else if u1 {
                    assert(oh.contains_key(k1));
                } else if u2 {
                    assert(oh.contains_key(k2));
                } else if c1 < c2 {
                    assert(fin[c1].1 < fin[c2].1);
                } else {
                    assert(fin[c2].1 < fin[c1].1);
                }
            }
            assert forall|k: Seq<char>| #[trigger] unchanged_set(om, nm).contains(k) implies self.handles()[k] == oh[k] by {
                let c = choose|c: int| 0 <= c < next@.len() && (#[trigger] next@[c]).0@ == k;
                lemma_pairs_map_at(fin, c);
            }
            assert forall|k: Seq<char>| #[trigger] started_set(om, nm).contains(k) implies self.handles()[k] >= onext by {
                let c = choose|c: int| 0 <= c < next@.len() && (#[trigger] next@[c]).0@ == k;
                lemma_pairs_map_at(fin, c);
            }
            assert forall|t: int| 0 <= t < start@.len() implies {
                &&& self.handles()[(#[trigger] start@[t]).name@] == start@[t].id
                &&& same_endpoint(start@[t].endpoint, nm[start@[t].name@])
            } by {
                let m = start_pos[t];
                lemma_pairs_map_at(fin, m);
                lemma_pairs_map_at(next@, m);
            }
            assert forall|k: Seq<char>| name_set(start_names(start@)).contains(k) <==> started_set(om, nm).contains(k) by {
                if name_set(start_names(start@)).contains(k) {
                    let c = choose|c: int| 0 <= c < start_names(start@).len() && (#[trigger] start_names(start@)[c])@ == k;
                    assert(start_names(start@)[c] == start@[c].name);
                    let m = start_pos[c];
                    assert(started_set(om, nm).contains(start@[c].name@));
                }
                if started_set(om, nm).contains(k) {
                    assert(nm.dom().contains(k));
                    let c = choose|c: int| 0 <= c < next@.len() && (#[trigger] next@[c]).0@ == k;
                    assert(name_set(start_names(start@)).contains(next@[c].0@));
                }
            }
            assert(name_set(start_names(start@)) =~= started_set(om, nm));
            assert forall|a: int, b: int| 0 <= a < b < start@.len() implies (#[trigger] start@[a]).name@
                != (#[trigger] start@[b]).name@ by {
                let pa = start_pos[a];
                let pb = start_pos[b];
                assert(next@[pa].0@ != next@[pb].0@);
            }

            assert forall|k: Seq<char>| #[trigger] nm.contains_key(k) implies same_endpoint(pairs_map(sweep@)[k], nm[k]) by {
                let c = choose|c: int| 0 <= c < next@.len() && (#[trigger] next@[c]).0@ == k;
                lemma_pairs_map_at(sweep@, c);
                lemma_pairs_map_at(next@, c);
            }
            if same_config(om, nm) {
                lemma_reload_unchanged_config(om, nm);
                if stop@.len() > 0 {
                    assert(stopped_set(om, nm).contains(stop@[0].0@));
                }
                if start@.len() > 0 {
                    let m = start_pos[0];
                    assert(started_set(om, nm).contains(start@[0].name@));
                }
                assert(self.handles() =~= oh);
            }
        }
        ReloadActions { plan, stop, start, sweep }
    }
}

/// Whether no two pairs share a name.
pub fn keys_are_unique<V>(s: &Vec<(String, V)>) -> (r: bool)
    ensures
        r == keys_unique(s@),
{
    let mut i: usize = 0;
    while i < s.len()
        invariant
            i <= s@.len(),
            forall|a: int, b: int| 0 <= a < b < s@.len() && a < i ==> (#[trigger] s@[a]).0@ != (#[trigger] s@[b]).0@,
        decreases s@.len() - i,
    {
        let mut j: usize = i + 1;
        while j < s.len()
            invariant
                i < s@.len(),
                i + 1 <= j <= s@.len(),
                forall|a: int, b: int| 0 <= a < b < s@.len() && a < i ==> (#[trigger] s@[a]).0@ != (#[trigger] s@[b]).0@,
                forall|b: int| i < b < j ==> s@[i as int].0@ != (#[trigger] s@[b]).0@,
            decreases s@.len() - j,
        {
            if String::eq(&s[i].0, &s[j].0) {
                return false;
            }
            j = j + 1;
        }
        i = i + 1;
    }
    true
}

impl Supervisor {
    /// The handle the next started runner receives.
    pub fn next_handle_value(&self) -> (r: u64)
        ensures
            r == self.next_handle(),
    {
        self.next_id
    }

    /// The configuration snapshot.
    pub fn endpoints(&self) -> (r: &Vec<(String, Endpoint)>)
        ensures
            pairs_map(r@) == self.config(),
    {
        &self.endpoints
    }
}

} // verus!
