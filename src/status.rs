//! The current-status map: the latest outcome of every live endpoint, and its
//! snapshot sorted by lowercase name.

use vstd::multiset::Multiset;
use vstd::prelude::*;

use crate::checker::{CheckResult, CheckResultView};
use crate::text::{chars_le, chars_of, lemma_lex_total, lemma_lex_trans, lex_le, lower_of, lowercase};

verus! {

broadcast use vstd::seq_lib::group_to_multiset_ensures, vstd::multiset::group_multiset_axioms;

/// The views of a sequence of results.
pub open spec fn views(s: Seq<CheckResult>) -> Seq<CheckResultView> {
    s.map_values(|r: CheckResult| r@)
}

/// The results are in non-decreasing order of their lowercase names.
pub open spec fn sorted_by_name(s: Seq<CheckResultView>) -> bool {
    forall|i: int, j: int|
        0 <= i < j < s.len() ==> lex_le(lower_of(#[trigger] s[i].name), lower_of(#[trigger] s[j].name))
}

/// Sorts results by lowercase name; the result holds the same results as the input.
pub fn sort_results(v: Vec<CheckResult>) -> (r: Vec<CheckResult>)
    ensures
        sorted_by_name(views(r@)),
        views(r@).to_multiset() == views(v@).to_multiset(),
{
    let ghost v0 = views(v@);
    let mut rest = v;
    let mut out: Vec<CheckResult> = Vec::new();
    let mut keys: Vec<Vec<char>> = Vec::new();
    assert(views(out@).to_multiset().add(views(rest@).to_multiset()) =~= v0.to_multiset());
    while rest.len() > 0
        invariant
            keys@.len() == out@.len(),
            forall|k: int| 0 <= k < keys@.len() ==> (#[trigger] keys@[k])@ == lower_of(out@[k].name@),
            sorted_by_name(views(out@)),
            views(out@).to_multiset().add(views(rest@).to_multiset()) == v0.to_multiset(),
        decreases rest@.len(),
    {
        let ghost rest0 = rest@;
        let x = rest.remove(0);
        assert(views(rest@) =~= views(rest0).remove(0));
        let key = chars_of(lowercase(x.name.as_str()).as_str());
        let mut p: usize = 0;
        while p < out.len()
            invariant
                p <= out@.len(),
                keys@.len() == out@.len(),
                forall|k: int| 0 <= k < p ==> lex_le((#[trigger] keys@[k])@, key@),
            ensures
                p <= out@.len(),
                forall|k: int| 0 <= k < p ==> lex_le((#[trigger] keys@[k])@, key@),
                p < out@.len() ==> !lex_le(keys@[p as int]@, key@),
            decreases out@.len() - p,
        {
            if !chars_le(&keys[p], &key) {
                break;
            }
            p = p + 1;
        }
        let ghost old_out = views(out@);
        let ghost old_keys = keys@;
        proof {
            if p < out@.len() {
                lemma_lex_total(keys@[p as int]@, key@);
            }
            assert forall|k: int| p <= k < out@.len() implies lex_le(key@, (#[trigger] keys@[k])@) by {
                if k > p {
                    assert(lex_le(lower_of(old_out[p as int].name), lower_of(old_out[k].name)));
                    lemma_lex_trans(key@, keys@[p as int]@, keys@[k]@);
                }
            }
        }
        out.insert(p, x);
        keys.insert(p, key);
        assert(views(out@) =~= old_out.insert(p as int, x@));
        proof {
            let nv = views(out@);
            assert forall|i: int, j: int| 0 <= i < j < nv.len() implies lex_le(
                lower_of(#[trigger] nv[i].name),
                lower_of(#[trigger] nv[j].name),
            ) by {
                assert(keys@[i]@ == lower_of(nv[i].name));
                assert(keys@[j]@ == lower_of(nv[j].name));
                if i < p && j < p {
                    assert(old_out[i] == nv[i] && old_out[j] == nv[j]);
                } else if i < p && j == p {
                    assert(lex_le(old_keys[i]@, key@));
                } else if i < p && j > p {
                    assert(old_out[i] == nv[i] && old_out[j - 1] == nv[j]);
                } else if i == p {
                    assert(lex_le(key@, old_keys[j - 1]@));
                } else {
                    assert(old_out[i - 1] == nv[i] && old_out[j - 1] == nv[j]);
                }
            }
            assert(views(out@).to_multiset() == old_out.to_multiset().insert(x@));
            assert(views(rest@).to_multiset() == views(rest0).to_multiset().remove(x@));
            assert(views(rest0)[0] == x@);
            assert(views(rest0).to_multiset().contains(x@));
            assert(views(out@).to_multiset().add(views(rest@).to_multiset()) =~= v0.to_multiset());
        }
    }
    assert(views(rest@).to_multiset() =~= Multiset::empty());
    assert(views(out@).to_multiset() =~= views(out@).to_multiset().add(views(rest@).to_multiset()));
    out
}


/// No two results share a name.
pub open spec fn names_distinct(s: Seq<CheckResultView>) -> bool {
    forall|i: int, j: int| 0 <= i < j < s.len() ==> (#[trigger] s[i]).name != (#[trigger] s[j]).name
}

/// The results read as a map from name to result.
pub open spec fn entry_map(s: Seq<CheckResultView>) -> Map<Seq<char>, CheckResultView> {
    Map::new(
        |k: Seq<char>| exists|i: int| 0 <= i < s.len() && (#[trigger] s[i]).name == k,
        |k: Seq<char>| s[choose|i: int| 0 <= i < s.len() && (#[trigger] s[i]).name == k],
    )
}

proof fn lemma_entry_map_at(s: Seq<CheckResultView>, j: int)
    requires
        names_distinct(s),
        0 <= j < s.len(),
    ensures
        entry_map(s).contains_key(s[j].name),
        entry_map(s)[s[j].name] == s[j],
{
    let k = s[j].name;
    assert(exists|i: int| 0 <= i < s.len() && (#[trigger] s[i]).name == k);
    let c = choose|i: int| 0 <= i < s.len() && (#[trigger] s[i]).name == k;
    if c != j {
        if c < j {
            assert(s[c].name != s[j].name);
        } else {
            assert(s[j].name != s[c].name);
        }
    }
}

proof fn lemma_insert_sorted(s: Seq<CheckResultView>, p: int, x: CheckResultView)
    requires
        sorted_by_name(s),
        0 <= p <= s.len(),
        forall|k: int| 0 <= k < p ==> lex_le(lower_of(#[trigger] s[k].name), lower_of(x.name)),
        p < s.len() ==> lex_le(lower_of(x.name), lower_of(s[p].name)),
    ensures
        sorted_by_name(s.insert(p, x)),
{
    let t = s.insert(p, x);
    assert forall|i: int, j: int| 0 <= i < j < t.len() implies lex_le(
        lower_of(#[trigger] t[i].name),
        lower_of(#[trigger] t[j].name),
    ) by {
        if i < p && j < p {
            assert(t[i] == s[i] && t[j] == s[j]);
        } else if i < p && j == p {
            assert(t[i] == s[i]);
        } else if i < p {
            assert(t[i] == s[i] && t[j] == s[j - 1]);
        } else if i == p {
            assert(t[j] == s[j - 1]);
            if j - 1 > p {
                assert(lex_le(lower_of(s[p].name), lower_of(s[j - 1].name)));
                lemma_lex_trans(lower_of(x.name), lower_of(s[p].name), lower_of(s[j - 1].name));
            }
        } else {
            assert(t[i] == s[i - 1] && t[j] == s[j - 1]);
        }
    }
}

/// The latest outcome of every live endpoint, at most one per name.
pub struct StatusMap {
    entries: Vec<CheckResult>,
}

impl View for StatusMap {
    type V = Map<Seq<char>, CheckResultView>;

    closed spec fn view(&self) -> Map<Seq<char>, CheckResultView> {
        entry_map(views(self.entries@))
    }
}

impl StatusMap {
    /// Names are distinct and entries stand in order of lowercase name.
    pub closed spec fn wf(&self) -> bool {
        &&& names_distinct(views(self.entries@))
        &&& sorted_by_name(views(self.entries@))
    }

    /// An empty map.
    pub fn new() -> (r: StatusMap)
        ensures
            r.wf(),
            r@ == Map::<Seq<char>, CheckResultView>::empty(),
    {
        let r = StatusMap { entries: Vec::new() };
        assert(r@ =~= Map::<Seq<char>, CheckResultView>::empty());
        r
    }

    fn index_of(&self, name: &str) -> (r: Option<usize>)
        ensures
            match r {
                Some(i) => i < self.entries@.len() && self.entries@[i as int].name@ == name@,
                None => forall|i: int| 0 <= i < self.entries@.len() ==> (#[trigger] self.entries@[i]).name@ != name@,
            },
    {
        let key = String::from_str(name);
        let mut i: usize = 0;
        while i < self.entries.len()
            invariant
                i <= self.entries@.len(),
                key@ == name@,
                forall|k: int| 0 <= k < i ==> (#[trigger] self.entries@[k]).name@ != name@,
            decreases self.entries@.len() - i,
        {
            if String::eq(&self.entries[i].name, &key) {
                return Some(i);
            }
            i = i + 1;
        }
        None
    }

    /// The latest outcome recorded for `name`.
    pub fn get(&self, name: &str) -> (r: Option<&CheckResult>)
        requires
            self.wf(),
        ensures
            match r {
                Some(x) => self@.contains_key(name@) && x@ == self@[name@],
                None => !self@.contains_key(name@),
            },
    {
        match self.index_of(name) {
            Some(i) => {
                proof {
                    lemma_entry_map_at(views(self.entries@), i as int);
                }
                Some(&self.entries[i])
            },
            None => {
                assert(!self@.contains_key(name@)) by {
                    if self@.contains_key(name@) {
                        let vs = views(self.entries@);
                        let c = choose|i: int| 0 <= i < vs.len() && (#[trigger] vs[i]).name == name@;
                        assert(self.entries@[c].name@ != name@);
                    }
                }
                None
            },
        }
    }

    /// Records `result` as the latest outcome of its endpoint, replacing any earlier one.
    pub fn record(&mut self, result: CheckResult)
        requires
            old(self).wf(),
        ensures
            final(self).wf(),
            final(self)@ == old(self)@.insert(result@.name, result@),
    {
        let ghost s = views(self.entries@);
        let ghost x = result@;
        match self.index_of(result.name.as_str()) {
            Some(i) => {
                let ghost t = s.update(i as int, x);
                proof {
                    assert forall|a: int, b: int| 0 <= a < b < t.len() implies (#[trigger] t[a]).name
                        != (#[trigger] t[b]).name by {
                        assert(s[a].name != s[b].name);
                    }
                    assert forall|a: int, b: int| 0 <= a < b < t.len() implies lex_le(
                        lower_of(#[trigger] t[a].name),
                        lower_of(#[trigger] t[b].name),
                    ) by {
                        assert(lex_le(lower_of(s[a].name), lower_of(s[b].name)));
                    }
                }
                self.entries.set(i, result);
                assert(views(self.entries@) =~= t);
                proof {
                    assert forall|k: Seq<char>| entry_map(t).contains_key(k) <==> entry_map(s).insert(x.name, x).contains_key(k) by {
                        if entry_map(s).contains_key(k) && k != x.name {
                            let c = choose|j: int| 0 <= j < s.len() && (#[trigger] s[j]).name == k;
                            assert(t[c].name == k);
                        }
                        if entry_map(t).contains_key(k) {
                            let c = choose|j: int| 0 <= j < t.len() && (#[trigger] t[j]).name == k;
                            if c != i {
                                assert(s[c].name == k);
                            }
                        }
                        assert(t[i as int].name == x.name);
                    }
                    assert forall|k: Seq<char>| entry_map(t).contains_key(k) implies entry_map(t)[k] == entry_map(s).insert(x.name, x)[k] by {
                        let c = choose|j: int| 0 <= j < t.len() && (#[trigger] t[j]).name == k;
                        lemma_entry_map_at(t, c);
                        if c != i {
                            lemma_entry_map_at(s, c);
                        }
                    }
                    assert(entry_map(t) =~= entry_map(s).insert(x.name, x));
                }
            },
            None => {
                let key = chars_of(lowercase(result.name.as_str()).as_str());
                let mut p: usize = 0;
                while p < self.entries.len()
                    invariant
                        p <= self.entries@.len(),
                        s == views(self.entries@),
                        key@ == lower_of(x.name),
                        forall|k: int| 0 <= k < p ==> lex_le(lower_of(#[trigger] s[k].name), key@),
                    ensures
                        p <= self.entries@.len(),
                        forall|k: int| 0 <= k < p ==> lex_le(lower_of(#[trigger] s[k].name), key@),
                        p < self.entries@.len() ==> !lex_le(lower_of(s[p as int].name), key@),
                    decreases self.entries@.len() - p,
                {
                    let k = chars_of(lowercase(self.entries[p].name.as_str()).as_str());
                    if !chars_le(&k, &key) {
                        break;
                    }
                    p = p + 1;
                }
                let ghost t = s.insert(p as int, x);
                proof {
                    if p < s.len() {
                        lemma_lex_total(lower_of(s[p as int].name), key@);
                    }
                    lemma_insert_sorted(s, p as int, x);
                    assert forall|a: int, b: int| 0 <= a < b < t.len() implies (#[trigger] t[a]).name
                        != (#[trigger] t[b]).name by {
                        if a < p && b < p {
                            assert(s[a].name != s[b].name);
                        } else if a < p && b > p {
                            assert(s[a].name != s[b - 1].name);
                        } else if a > p {
                            assert(s[a - 1].name != s[b - 1].name);
                        } else if a == p {
                            assert(self.entries@[b - 1].name@ != x.name);
                        } else {
                            assert(self.entries@[a].name@ != x.name);
                        }
                    }
                }
                self.entries.insert(p, result);
                assert(views(self.entries@) =~= t);
                proof {
                    assert forall|k: Seq<char>| entry_map(t).contains_key(k) <==> entry_map(s).insert(x.name, x).contains_key(k) by {
                        if entry_map(s).contains_key(k) {
                            let c = choose|j: int| 0 <= j < s.len() && (#[trigger] s[j]).name == k;
                            if c < p {
                                assert(t[c].name == k);
                            } else {
                                assert(t[c + 1].name == k);
                            }
                        }
                        if entry_map(t).contains_key(k) {
                            let c = choose|j: int| 0 <= j < t.len() && (#[trigger] t[j]).name == k;
                            if c < p {
                                assert(s[c].name == k);
                            } else if c > p {
                                assert(s[c - 1].name == k);
                            }
                        }
                        assert(t[p as int].name == x.name);
                    }
                    assert forall|k: Seq<char>| entry_map(t).contains_key(k) implies entry_map(t)[k] == entry_map(s).insert(x.name, x)[k] by {
                        let c = choose|j: int| 0 <= j < t.len() && (#[trigger] t[j]).name == k;
                        lemma_entry_map_at(t, c);
                        if c < p {
                            lemma_entry_map_at(s, c);
                        } else if c > p {
                            lemma_entry_map_at(s, c - 1);
                        }
                    }
                    assert(entry_map(t) =~= entry_map(s).insert(x.name, x));
                }
            },
        }
    }
    /// Forgets the outcome recorded for `name`, if any.
    pub fn remove(&mut self, name: &str)
        requires
            old(self).wf(),
        ensures
            final(self).wf(),
            final(self)@ == old(self)@.remove(name@),
    {
        let ghost s = views(self.entries@);
        match self.index_of(name) {
            Some(i) => {
                let ghost t = s.remove(i as int);
                proof {
                    assert forall|a: int, b: int| 0 <= a < b < t.len() implies (#[trigger] t[a]).name
                        != (#[trigger] t[b]).name by {
                        if a < i && b < i {
                            assert(s[a].name != s[b].name);
                        } else if a < i {
                            assert(s[a].name != s[b + 1].name);
                        } else {
                            assert(s[a + 1].name != s[b + 1].name);
                        }
                    }
                    assert forall|a: int, b: int| 0 <= a < b < t.len() implies lex_le(
                        lower_of(#[trigger] t[a].name),
                        lower_of(#[trigger] t[b].name),
                    ) by {
                        if a < i && b < i {
                            assert(lex_le(lower_of(s[a].name), lower_of(s[b].name)));
                        } else if a < i {
                            assert(lex_le(lower_of(s[a].name), lower_of(s[b + 1].name)));
                        } else {
                            assert(lex_le(lower_of(s[a + 1].name), lower_of(s[b + 1].name)));
                        }
                    }
                }
                self.entries.remove(i);
                assert(views(self.entries@) =~= t);
                proof {
                    assert forall|k: Seq<char>| entry_map(t).contains_key(k) <==> entry_map(s).remove(name@).contains_key(k) by {
                        if entry_map(s).contains_key(k) && k != name@ {
                            let c = choose|j: int| 0 <= j < s.len() && (#[trigger] s[j]).name == k;
                            if c < i {
                                assert(t[c].name == k);
                            } else {
                                assert(c != i);
                                assert(t[c - 1].name == k);
                            }
                        }
                        if entry_map(t).contains_key(k) {
                            let c = choose|j: int| 0 <= j < t.len() && (#[trigger] t[j]).name == k;
                            if c < i {
                                assert(s[c].name == k);
                                assert(s[c].name != s[i as int].name);
                            } else {
                                assert(s[c + 1].name == k);
                                assert(s[i as int].name != s[c + 1].name);
                            }
                        }
                    }
                    assert forall|k: Seq<char>| entry_map(t).contains_key(k) implies entry_map(t)[k] == entry_map(s).remove(name@)[k] by {
                        let c = choose|j: int| 0 <= j < t.len() && (#[trigger] t[j]).name == k;
                        lemma_entry_map_at(t, c);
                        if c < i {
                            lemma_entry_map_at(s, c);
                        } else {
                            lemma_entry_map_at(s, c + 1);
                        }
                    }
                    assert(entry_map(t) =~= entry_map(s).remove(name@));
                }
            },
            None => {
                proof {
                    assert forall|k: Seq<char>| entry_map(s).contains_key(k) implies k != name@ by {
                        let c = choose|j: int| 0 <= j < s.len() && (#[trigger] s[j]).name == k;
                        assert(self.entries@[c].name@ != name@);
                    }
                    assert(entry_map(s) =~= entry_map(s).remove(name@));
                }
            },
        }
    }

    /// Records each of `results` in order, as `record` does.
    pub fn record_all(&mut self, results: Vec<CheckResult>)
        requires
            old(self).wf(),
        ensures
            final(self).wf(),
            final(self)@ == recorded_all(old(self)@, views(results@)),
    {
        let ghost orig = results@;
        let ghost m0 = self@;
        assert(orig.len() == results.len());
        let mut rest = results;
        let mut k: usize = 0;
        assert(views(orig.subrange(0, 0)) =~= Seq::<CheckResultView>::empty());
        while rest.len() > 0
            invariant
                self.wf(),
                k <= orig.len(),
                orig.len() <= usize::MAX,
                rest@ == orig.subrange(k as int, orig.len() as int),
                self@ == recorded_all(m0, views(orig.subrange(0, k as int))),
            decreases rest@.len(),
        {
            let x = rest.remove(0);
            assert(x == orig[k as int]);
            self.record(x);
            assert(views(orig.subrange(0, k + 1)).drop_last() =~= views(orig.subrange(0, k as int)));
            assert(rest@ =~= orig.subrange(k + 1, orig.len() as int));
            k = k + 1;
        }
        assert(orig.subrange(0, k as int) =~= orig);
    }
}

/// The map after recording each of `s` in order.
pub open spec fn recorded_all(m: Map<Seq<char>, CheckResultView>, s: Seq<CheckResultView>) -> Map<
    Seq<char>,
    CheckResultView,
>
    decreases s.len(),
{
    if s.len() == 0 {
        m
    } else {
        recorded_all(m, s.drop_last()).insert(s.last().name, s.last())
    }
}

/// A snapshot of the current outcomes in non-decreasing order of lowercase name: each
/// recorded outcome exactly once.
pub fn get_sorted_results(state: &StatusMap) -> (r: Vec<CheckResult>)
    requires
        state.wf(),
    ensures
        sorted_by_name(views(r@)),
        names_distinct(views(r@)),
        entry_map(views(r@)) == state@,
{
    let mut out: Vec<CheckResult> = Vec::new();
    let mut i: usize = 0;
    while i < state.entries.len()
        invariant
            i <= state.entries@.len(),
            views(out@) == views(state.entries@.subrange(0, i as int)),
        decreases state.entries@.len() - i,
    {
        let ghost before = out@;
        let d = state.entries[i].duplicate();
        out.push(d);
        assert(out@ == before.push(d));
        assert(views(out@) =~= views(before).push(d@));
        assert(views(state.entries@.subrange(0, i + 1)) =~= views(state.entries@.subrange(0, i as int)).push(
            state.entries@[i as int]@,
        ));
        i = i + 1;
    }
    assert(state.entries@.subrange(0, i as int) =~= state.entries@);
    out
}

} // verus!
