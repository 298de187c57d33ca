//! The incremental object cache: classified ways, the nodes they reference,
//! and a per-node reference count, accumulated over one or more loads.

use vstd::prelude::*;
use std::collections::{BTreeMap, HashMap, HashSet};
use vstd::std_specs::iter::IteratorSpec;
use crate::error::Error;
use crate::graph_config::GraphConfig;
use crate::osm::{sorted_ids, sorted_keys, Node, Way};

verus! {

/// The concatenation of `lists`, in order.
pub open spec fn refs(lists: Seq<Seq<i64>>) -> Seq<i64>
    decreases lists.len(),
{
    if lists.len() == 0 {
        Seq::empty()
    } else {
        refs(lists.drop_last()) + lists.last()
    }
}

/// How many times `n` occurs in `s`.
pub open spec fn occurrences(s: Seq<i64>, n: i64) -> nat
    decreases s.len(),
{
    if s.len() == 0 {
        0
    } else {
        occurrences(s.drop_last(), n) + if s.last() == n { 1nat } else { 0nat }
    }
}

/// The node sequences of `ways`, in increasing way id order.
pub open spec fn node_lists(ways: Map<i64, Way>) -> Seq<Seq<i64>> {
    sorted_ids(ways.dom()).map_values(|k: i64| ways[k]@.nodes)
}

/// How many times node `n` is referenced by `ways`, counting repeats within a way.
pub open spec fn ref_count(ways: Map<i64, Way>, n: i64) -> nat {
    occurrences(refs(node_lists(ways)), n)
}

/// The reference count of every node that `ways` reference.
pub open spec fn ref_counts(ways: Map<i64, Way>) -> Map<i64, usize> {
    Map::new(|n: i64| ref_count(ways, n) > 0, |n: i64| ref_count(ways, n) as usize)
}

/// Objects of `new` are added to `old`; an id already in `old` keeps its object.
pub open spec fn merge_objects<V>(old: Map<i64, V>, new: Map<i64, V>) -> Map<i64, V> {
    new.union_prefer_right(old)
}

/// Counts of `new` are merged into `old` by taking, per node, the larger one.
pub open spec fn merge_counts(old: Map<i64, usize>, new: Map<i64, usize>) -> Map<i64, usize> {
    Map::new(
        |k: i64| old.contains_key(k) || new.contains_key(k),
        |k: i64|
            if old.contains_key(k) && new.contains_key(k) {
                if old[k] >= new[k] { old[k] } else { new[k] }
            } else if new.contains_key(k) {
                new[k]
            } else {
                old[k]
            },
    )
}

proof fn lemma_occurrences_push(s: Seq<i64>, x: i64, n: i64)
    ensures
        occurrences(s.push(x), n) == occurrences(s, n) + if x == n { 1nat } else { 0nat },
{
    assert(s.push(x).drop_last() =~= s);
}

proof fn lemma_occurrences_take(s: Seq<i64>, k: int, n: i64)
    requires
        0 <= k <= s.len(),
    ensures
        occurrences(s.take(k), n) <= occurrences(s, n),
    decreases s.len(),
{
    if k == s.len() {
        assert(s.take(k) =~= s);
    } else {
        assert(s.drop_last().take(k) =~= s.take(k));
        lemma_occurrences_take(s.drop_last(), k, n);
    }
}

proof fn lemma_refs_take_step(lists: Seq<Seq<i64>>, i: int)
    requires
        0 <= i < lists.len(),
    ensures
        refs(lists.take(i + 1)) == refs(lists.take(i)) + lists[i],
{
    assert(lists.take(i + 1).drop_last() =~= lists.take(i));
}

proof fn lemma_refs_prefix(lists: Seq<Seq<i64>>, i: int)
    requires
        0 <= i <= lists.len(),
    ensures
        refs(lists.take(i)).len() <= refs(lists).len(),
        refs(lists).take(refs(lists.take(i)).len() as int) == refs(lists.take(i)),
    decreases lists.len() - i,
{
    if i == lists.len() {
        assert(lists.take(i) =~= lists);
        assert(refs(lists).take(refs(lists).len() as int) =~= refs(lists));
    } else {
        lemma_refs_prefix(lists, i + 1);
        lemma_refs_take_step(lists, i);
        let a = refs(lists.take(i));
        let b = refs(lists.take(i + 1));
        assert(refs(lists).take(a.len() as int) =~= b.take(a.len() as int));
        assert(b.take(a.len() as int) =~= a);
    }
}

/// Counts, for each node, how many times the ways of `ways` reference it.
pub fn count_nodes(ways: &BTreeMap<i64, Way>) -> (r: Result<HashMap<i64, usize>, Error>)
    ensures
        match r {
            Ok(m) => m@ == ref_counts(ways@),
            Err(e) => e is NodeCountError && exists|n: i64| ref_count(ways@, n) > usize::MAX,
        },
{
    let ids = sorted_keys(ways);
    let ghost lists = node_lists(ways@);
    let mut map: HashMap<i64, usize> = HashMap::new();
    let mut i: usize = 0;
    while i < ids.len()
        invariant
            i <= ids.len(),
            ids@ == sorted_ids(ways@.dom()),
            ids@.to_set() == ways@.dom(),
            lists == node_lists(ways@),
            lists.len() == ids.len(),
            forall|n: i64|
                #![trigger map@.contains_key(n)]
                (map@.contains_key(n) <==> occurrences(refs(lists.take(i as int)), n) > 0) && (
                map@.contains_key(n) ==> map@[n] == occurrences(refs(lists.take(i as int)), n)),
        decreases ids.len() - i,
    {
        let id = ids[i];
        proof {
            assert(ids@.to_set().contains(id));
        }
        let way = match ways.get(&id) {
            Some(w) => w,
            None => { return Err(Error::MakeGraphError); },
        };
        assert(lists[i as int] == way@.nodes);
        let ghost before = refs(lists.take(i as int));
        let mut j: usize = 0;
        while j < way.nodes.len()
            invariant
                j <= way.nodes.len(),
                i < ids.len(),
                lists == node_lists(ways@),
                lists.len() == ids.len(),
                lists[i as int] == way@.nodes,
                before == refs(lists.take(i as int)),
                forall|n: i64|
                    #![trigger map@.contains_key(n)]
                    (map@.contains_key(n) <==> occurrences(before + way.nodes@.take(j as int), n) > 0)
                        && (map@.contains_key(n) ==> map@[n] == occurrences(
                        before + way.nodes@.take(j as int),
                        n,
                    )),
            decreases way.nodes.len() - j,
        {
            let n = way.nodes[j];
            let ghost seen = before + way.nodes@.take(j as int);
            assert(before + way.nodes@.take(j + 1) =~= seen.push(n));
            let c: usize = match map.get(&n) {
                Some(c) => *c,
                None => 0,
            };
            if c == usize::MAX {
                proof {
                    lemma_occurrences_push(seen, n, n);
                    lemma_refs_take_step(lists, i as int);
                    lemma_refs_prefix(lists, i + 1);
                    let full = refs(lists);
                    let p = seen.push(n);
                    let b = refs(lists.take(i + 1));
                    assert(b == before + way.nodes@);
                    assert(b.take(p.len() as int) =~= p);
                    assert(full.take(p.len() as int) =~= p);
                    lemma_occurrences_take(full, p.len() as int, n);
                    assert(ref_count(ways@, n) > usize::MAX);
                }
                return Err(Error::NodeCountError);
            }
            map.insert(n, c + 1);
            proof {
                assert forall|m: i64| #![trigger map@.contains_key(m)]
                    (map@.contains_key(m) <==> occurrences(seen.push(n), m) > 0) && (
                    map@.contains_key(m) ==> map@[m] == occurrences(seen.push(n), m)) by {
                    lemma_occurrences_push(seen, n, m);
                }
            }
            j += 1;
        }
        proof {
            assert(way.nodes@.take(j as int) =~= way.nodes@);
            lemma_refs_take_step(lists, i as int);
        }
        i += 1;
    }
    proof {
        assert(lists.take(i as int) =~= lists);
        assert(map@ =~= ref_counts(ways@));
    }
    Ok(map)
}

/// Adds the objects of `batch` whose ids `target` lacks.
fn merge_into<V>(target: &mut BTreeMap<i64, V>, batch: BTreeMap<i64, V>)
    ensures
        final(target)@ == merge_objects(old(target)@, batch@),
{
    let ids = sorted_keys(&batch);
    let ghost start = target@;
    let ghost all = batch@;
    let mut batch = batch;
    let mut i: usize = 0;
    while i < ids.len()
        invariant
            i <= ids.len(),
            crate::osm::strictly_increasing(ids@),
            ids@.to_set() == all.dom(),
            target@ == merge_objects(start, all.restrict(ids@.take(i as int).to_set())),
            batch@ == all.remove_keys(ids@.take(i as int).to_set()),
        decreases ids.len() - i,
    {
        let id = ids[i];
        proof {
            assert(ids@.to_set().contains(id));
            assert(!ids@.take(i as int).to_set().contains(id)) by {
                if ids@.take(i as int).to_set().contains(id) {
                    let k = choose|k: int| 0 <= k < i && ids@.take(i as int)[k] == id;
                    assert(ids@[k] < ids@[i as int]);
                }
            }
        }
        let ghost done = ids@.take(i as int).to_set();
        proof {
            let t0 = ids@.take(i as int);
            let t1 = ids@.take(i + 1);
            assert(t1 =~= t0.push(id));
            assert forall|x: i64| t1.contains(x) <==> done.insert(id).contains(x) by {
                if t1.contains(x) {
                    let k = choose|k: int| 0 <= k < t1.len() && t1[k] == x;
                    if k < t0.len() {
                        assert(t0[k] == x);
                    }
                }
                if done.contains(x) {
                    let k = choose|k: int| 0 <= k < t0.len() && t0[k] == x;
                    assert(t1[k] == x);
                }
                if x == id {
                    assert(t1[t0.len() as int] == x);
                }
            }
            assert(t1.to_set() =~= done.insert(id));
        }
        let present = target.contains_key(&id);
        let taken = batch.remove(&id);
        if !present {
            match taken {
                Some(v) => {
                    target.insert(id, v);
                },
                None => {},
            }
        }
        proof {
            assert(all.restrict(done.insert(id)) =~= all.restrict(done).insert(id, all[id]));
            assert(target@ =~= merge_objects(start, all.restrict(done.insert(id))));
            assert(batch@ =~= all.remove_keys(done.insert(id)));
        }
        i += 1;
    }
    proof {
        assert(ids@.take(i as int) =~= ids@);
        assert(all.restrict(all.dom()) =~= all);
    }
}

/// Merges `new` into `target`, keeping per node the larger count.
fn merge_max(target: &mut HashMap<i64, usize>, new: &HashMap<i64, usize>)
    ensures
        final(target)@ == merge_counts(old(target)@, new@),
{
    let ghost start = target@;
    let ghost keys = vstd::std_specs::hash::spec_keys_iter(new).remaining();
    for k in it: new.keys()
        invariant
            it.seq() == keys,
            keys.no_duplicates(),
            keys.unref().to_set() == new@.dom(),
            forall|x: i64| #![trigger target@.contains_key(x)]
                if keys.unref().take(it.index() as int).contains(x) {
                    target@.contains_key(x) && target@[x] == merge_counts(start, new@)[x]
                } else {
                    target@.contains_key(x) == start.contains_key(x) && (start.contains_key(x) ==> target@[x] == start[x])
                },
    {
        let key = *k;
        let ghost idx = it.index();
        proof {
            assert(keys.unref().to_set().contains(key)) by {
                assert(keys.unref()[idx as int] == key);
            }
            assert(!keys.unref().take(idx as int).contains(key)) by {
                if keys.unref().take(idx as int).contains(key) {
                    let t0 = keys.unref().take(idx as int);
                    let j = choose|j: int| 0 <= j < t0.len() && t0[j] == key;
                    assert(keys[j] == keys[idx as int]);
                }
            }
            assert(keys.unref().take(idx + 1) =~= keys.unref().take(idx as int).push(key));
        }
        let incoming: usize = match new.get(&key) {
            Some(v) => *v,
            None => 0,
        };
        let existing: Option<usize> = match target.get(&key) {
            Some(e) => Some(*e),
            None => None,
        };
        proof {
            assert(new@.contains_key(key));
            assert(new@[key] == incoming);
            assert(!keys.unref().take(idx as int).contains(key));
            assert(target@.contains_key(key) == start.contains_key(key));
        }
        let ghost before = target@;
        match existing {
            Some(e) => {
                if incoming > e {
                    target.insert(key, incoming);
                }
            },
            None => {
                target.insert(key, incoming);
            },
        }
        proof {
            let done = keys.unref().take(idx + 1);
            assert forall|x: i64| #![trigger target@.contains_key(x)]
                if done.contains(x) {
                    target@.contains_key(x) && target@[x] == merge_counts(start, new@)[x]
                } else {
                    target@.contains_key(x) == start.contains_key(x) && (start.contains_key(x) ==> target@[x] == start[x])
                } by {
                if x != key {
                    assert(before.contains_key(x) == target@.contains_key(x));
                    if done.contains(x) {
                        let j = choose|j: int| 0 <= j < done.len() && done[j] == x;
                        assert(keys.unref().take(idx as int)[j] == x);
                    } else {
                        if keys.unref().take(idx as int).contains(x) {
                            let t0 = keys.unref().take(idx as int);
                            let j = choose|j: int| 0 <= j < t0.len() && t0[j] == x;
                            assert(done[j] == x);
                        }
                    }
                    assert(before.contains_key(x) ==> target@[x] == before[x]);
                } else {
                    assert(done[idx as int] == key);
                    assert(new@.contains_key(x));
                }
            }
        }
    }
    proof {
        assert(keys.unref().take(keys.len() as int) =~= keys.unref());
        assert forall|x: i64| keys.unref().contains(x) <==> new@.contains_key(x) by {
            assert(keys.unref().to_set().contains(x) <==> keys.unref().contains(x));
        }
        assert(target@ =~= merge_counts(start, new@));
    }
}

/// Whether `w` references a node that is known and in `inside`.
pub open spec fn touches(w: Way, nodes: Map<i64, Node>, inside: Set<i64>) -> bool {
    exists|i: int|
        0 <= i < w@.nodes.len() && nodes.contains_key(#[trigger] w@.nodes[i]) && inside.contains(
            w@.nodes[i],
        )
}

/// Whether way `w` references a node that is known and in `inside`.
fn way_touches(w: &Way, nodes: &BTreeMap<i64, Node>, inside: &HashSet<i64>) -> (r: bool)
    ensures
        r == touches(*w, nodes@, inside@),
{
    let mut i: usize = 0;
    while i < w.nodes.len()
        invariant
            i <= w.nodes@.len(),
            forall|j: int| 0 <= j < i ==> !(nodes@.contains_key(#[trigger] w@.nodes[j]) && inside@.contains(w@.nodes[j])),
        decreases w.nodes@.len() - i,
    {
        let n = w.nodes[i];
        if nodes.contains_key(&n) && inside.contains(&n) {
            assert(nodes@.contains_key(w@.nodes[i as int]) && inside@.contains(w@.nodes[i as int]));
            return true;
        }
        i += 1;
    }
    false
}

/// The cache: the classification rules, the objects loaded so far (ways and
/// the nodes they reference, by id) and a reference count per node.
pub struct OSMCache {
    pub graph_config: GraphConfig,
    pub nodes: BTreeMap<i64, Node>,
    pub ways: BTreeMap<i64, Way>,
    pub node_count: HashMap<i64, usize>,
}

impl OSMCache {
    /// An empty cache bound to `gc`.
    pub fn new(gc: GraphConfig) -> (r: OSMCache)
        ensures
            r.graph_config == gc,
            r.nodes@ == Map::<i64, Node>::empty(),
            r.ways@ == Map::<i64, Way>::empty(),
            r.node_count@ == Map::<i64, usize>::empty(),
    {
        OSMCache {
            graph_config: gc,
            nodes: BTreeMap::new(),
            ways: BTreeMap::new(),
            node_count: HashMap::new(),
        }
    }

    /// Loads one extract: the selected ways and the nodes they reference.
    /// The ways' node references are counted; then objects with new ids are
    /// added, and the counts merged by taking the larger per node. When a
    /// count overflows nothing is changed.
    pub fn load(&mut self, nodes: BTreeMap<i64, Node>, ways: BTreeMap<i64, Way>) -> (r: Result<(), Error>)
        ensures
            final(self).graph_config == old(self).graph_config,
            match r {
                Ok(()) => {
                    &&& final(self).nodes@ == merge_objects(old(self).nodes@, nodes@)
                    &&& final(self).ways@ == merge_objects(old(self).ways@, ways@)
                    &&& final(self).node_count@ == merge_counts(old(self).node_count@, ref_counts(ways@))
                },
                Err(e) => {
                    &&& e is NodeCountError
                    &&& exists|n: i64| ref_count(ways@, n) > usize::MAX
                    &&& final(self).nodes@ == old(self).nodes@
                    &&& final(self).ways@ == old(self).ways@
                    &&& final(self).node_count@ == old(self).node_count@
                },
            },
    {
        let counts = match count_nodes(&ways) {
            Ok(c) => c,
            Err(e) => { return Err(e); },
        };
        merge_into(&mut self.nodes, nodes);
        merge_into(&mut self.ways, ways);
        merge_max(&mut self.node_count, &counts);
        Ok(())
    }

    /// The part of the cache inside a window, given by the ids of the nodes
    /// that lie in it: those known nodes, and the ways that reference one of
    /// them.
    pub fn window(&self, inside: &HashSet<i64>) -> (r: (BTreeMap<i64, Node>, BTreeMap<i64, Way>))
        ensures
            r.0@ == self.nodes@.restrict(inside@),
            forall|k: i64|
                #![trigger r.1@.contains_key(k)]
                r.1@.contains_key(k) <==> self.ways@.contains_key(k) && touches(self.ways@[k], self.nodes@, inside@),
            forall|k: i64| #![trigger r.1@[k]] r.1@.contains_key(k) ==> r.1@[k]@ == self.ways@[k]@,
    {
        let node_ids = sorted_keys(&self.nodes);
        let mut nodes: BTreeMap<i64, Node> = BTreeMap::new();
        let mut i: usize = 0;
        while i < node_ids.len()
            invariant
                i <= node_ids@.len(),
                node_ids@.to_set() == self.nodes@.dom(),
                nodes@ == self.nodes@.restrict(node_ids@.take(i as int).to_set().intersect(inside@)),
            decreases node_ids@.len() - i,
        {
            let id = node_ids[i];
            let ghost before = node_ids@.take(i as int).to_set();
            proof {
                assert(node_ids@.take(i + 1) =~= node_ids@.take(i as int).push(id));
                assert(node_ids@.take(i + 1).to_set() =~= before.insert(id)) by {
                    let t0 = node_ids@.take(i as int);
                    let t1 = node_ids@.take(i + 1);
                    assert forall|x: i64| t1.contains(x) <==> before.insert(id).contains(x) by {
                        if t1.contains(x) {
                            let k = choose|k: int| 0 <= k < t1.len() && t1[k] == x;
                            if k < t0.len() {
                                assert(t0[k] == x);
                            }
                        }
                        if before.contains(x) {
                            let k = choose|k: int| 0 <= k < t0.len() && t0[k] == x;
                            assert(t1[k] == x);
                        }
                        if x == id {
                            assert(t1[t0.len() as int] == x);
                        }
                    }
                }
                assert(node_ids@.to_set().contains(id));
            }
            if inside.contains(&id) {
                match self.nodes.get(&id) {
                    Some(n) => {
                        nodes.insert(id, *n);
                    },
                    None => {},
                }
            }
            proof {
                assert(nodes@ =~= self.nodes@.restrict(before.insert(id).intersect(inside@)));
            }
            i += 1;
        }
        proof {
            assert(node_ids@.take(i as int) =~= node_ids@);
            assert(self.nodes@.restrict(node_ids@.to_set().intersect(inside@)) =~= self.nodes@.restrict(inside@));
        }
        let way_ids = sorted_keys(&self.ways);
        let mut ways: BTreeMap<i64, Way> = BTreeMap::new();
        let mut j: usize = 0;
        while j < way_ids.len()
            invariant
                j <= way_ids@.len(),
                way_ids@.to_set() == self.ways@.dom(),
                forall|k: i64|
                    #![trigger ways@.contains_key(k)]
                    ways@.contains_key(k) <==> way_ids@.take(j as int).contains(k) && touches(
                        self.ways@[k],
                        self.nodes@,
                        inside@,
                    ),
                forall|k: i64| #![trigger ways@[k]] ways@.contains_key(k) ==> ways@[k]@ == self.ways@[k]@,
            decreases way_ids@.len() - j,
        {
            let id = way_ids[j];
            let ghost t0 = way_ids@.take(j as int);
            let ghost t1 = way_ids@.take(j + 1);
            proof {
                assert(way_ids@.to_set().contains(id));
                assert forall|x: i64| t1.contains(x) <==> (t0.contains(x) || x == id) by {
                    if t1.contains(x) {
                        let k = choose|k: int| 0 <= k < t1.len() && t1[k] == x;
                        if k < t0.len() {
                            assert(t0[k] == x);
                        }
                    }
                    if t0.contains(x) {
                        let k = choose|k: int| 0 <= k < t0.len() && t0[k] == x;
                        assert(t1[k] == x);
                    }
                    if x == id {
                        assert(t1[t0.len() as int] == x);
                    }
                }
            }
            match self.ways.get(&id) {
                Some(w) => {
                    if way_touches(w, &self.nodes, inside) {
                        ways.insert(id, w.clone());
                    }
                },
                None => {},
            }
            j += 1;
        }
        proof {
            assert(way_ids@.take(j as int) =~= way_ids@);
            assert forall|k: i64| way_ids@.contains(k) <==> self.ways@.contains_key(k) by {
                assert(way_ids@.to_set().contains(k) <==> way_ids@.contains(k));
            }
        }
        (nodes, ways)
    }

    /// The strict edges of the cached ways, in increasing way id order.
    pub fn make_graph(&self) -> (r: Result<Vec<crate::pbf_reader::Edge>, Error>)
        ensures
            match r {
                Ok(es) => crate::pbf_reader::entries_of(es@) == crate::pbf_reader::strict_graph(
                    sorted_ids(self.ways@.dom()),
                    self.nodes@,
                    self.ways@,
                    self.node_count@,
                ),
                Err(_) => false,
            },
    {
        crate::pbf_reader::make_graph(&self.nodes, &self.ways, &self.node_count)
    }
}

/// Loading the same extract a second time changes nothing: every object it
/// holds is already present, and each count it brings is already the maximum.
pub proof fn lemma_reload_changes_nothing(
    nodes0: Map<i64, Node>,
    ways0: Map<i64, Way>,
    counts0: Map<i64, usize>,
    nodes: Map<i64, Node>,
    ways: Map<i64, Way>,
)
    ensures
        merge_objects(merge_objects(nodes0, nodes), nodes) == merge_objects(nodes0, nodes),
        merge_objects(merge_objects(ways0, ways), ways) == merge_objects(ways0, ways),
        merge_counts(merge_counts(counts0, ref_counts(ways)), ref_counts(ways)) == merge_counts(
            counts0,
            ref_counts(ways),
        ),
{
    assert(merge_objects(merge_objects(nodes0, nodes), nodes) =~= merge_objects(nodes0, nodes));
    assert(merge_objects(merge_objects(ways0, ways), ways) =~= merge_objects(ways0, ways));
    let c = ref_counts(ways);
    assert(merge_counts(merge_counts(counts0, c), c) =~= merge_counts(counts0, c));
}

/// Loading two extracts with disjoint ids gives the same objects in either order.
pub proof fn lemma_disjoint_loads_commute<V>(objects: Map<i64, V>, a: Map<i64, V>, b: Map<i64, V>)
    requires
        a.dom().disjoint(b.dom()),
    ensures
        merge_objects(merge_objects(objects, a), b) == merge_objects(merge_objects(objects, b), a),
{
    assert forall|k: i64| !(a.dom().contains(k) && b.dom().contains(k)) by {
        if a.dom().contains(k) && b.dom().contains(k) {
            assert(a.dom().intersect(b.dom()).contains(k));
        }
    }
    assert(merge_objects(merge_objects(objects, a), b) =~= merge_objects(merge_objects(objects, b), a));
}

} // verus!
