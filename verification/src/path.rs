//! The path finder: a layered breadth-first search over the persisted edge
//! table. Each layer queries the edges leaving the current frontier and
//! records, for every page discovered for the first time, the predecessor
//! that discovered it — first discovery wins. Since the search proceeds
//! layer by layer, the first recorded predecessor chain backtracks along a
//! shortest path.
use vstd::prelude::*;

use crate::Page;

verus! {

/// One recorded discovery: `linked` was first reached from `pred` under the
/// displayed token, in layer `depth`.
pub struct PredEntry {
    pub linked: usize,
    pub pred: usize,
    pub display: String,
    pub depth: usize,
}

impl View for PredEntry {
    type V = (int, int, Seq<char>, int);

    open spec fn view(&self) -> (int, int, Seq<char>, int) {
        (self.linked as int, self.pred as int, self.display@, self.depth as int)
    }
}

/// The state of one search: the start page, the layer the frontier stands
/// in, every first-discovery record so far, and the frontier itself.
pub struct PathSearch {
    pub start: usize,
    pub depth: usize,
    pub preds: Vec<PredEntry>,
    pub frontier: Vec<usize>,
}

impl PathSearch {
    /// Whether a page id has a first-discovery record.
    pub open spec fn is_key(&self, id: int) -> bool {
        exists|a: int| 0 <= a < self.preds@.len() && (#[trigger] self.preds@[a]).linked == id
    }

    /// Whether a page id has a first-discovery record in layer `d`.
    pub open spec fn key_at_depth(&self, id: int, d: int) -> bool {
        exists|a: int|
            0 <= a < self.preds@.len() && (#[trigger] self.preds@[a]).linked == id
                && self.preds@[a].depth == d
    }

    /// Well-formedness: records are unique per page; every record's layer is
    /// within the search's; a first-layer record points back at the start
    /// and a deeper one at a record of the layer before it; and the frontier
    /// holds the start (before any layer ran) or the pages recorded in the
    /// current layer.
    pub open spec fn wf(&self) -> bool {
        &&& forall|a: int, b: int|
            0 <= a < b < self.preds@.len() ==> (#[trigger] self.preds@[a]).linked != (
            #[trigger] self.preds@[b]).linked
        &&& forall|a: int|
            0 <= a < self.preds@.len() ==> 1 <= (#[trigger] self.preds@[a]).depth
                <= self.depth
        &&& forall|a: int|
            0 <= a < self.preds@.len() && (#[trigger] self.preds@[a]).depth == 1
                ==> self.preds@[a].pred == self.start
        &&& forall|a: int|
            0 <= a < self.preds@.len() && (#[trigger] self.preds@[a]).depth > 1 ==> exists|b: int|
                0 <= b < self.preds@.len() && (#[trigger] self.preds@[b]).linked
                    == self.preds@[a].pred && self.preds@[b].depth == self.preds@[a].depth - 1
        &&& (if self.depth == 0 {
            self.frontier@ =~= seq![self.start]
        } else {
            forall|c: int|
                0 <= c < self.frontier@.len() ==> self.key_at_depth(
                    #[trigger] self.frontier@[c] as int,
                    self.depth as int,
                )
        })
        &&& forall|c: int, d: int|
            0 <= c < d < self.frontier@.len() ==> (#[trigger] self.frontier@[c]) != (
            #[trigger] self.frontier@[d])
    }

    /// Seeds a search at the start page: no records, the frontier is the
    /// start alone.
    pub fn new(start: usize) -> (r: PathSearch)
        ensures
            r.wf(),
            r.start == start,
            r.depth == 0,
            r.preds@.len() == 0,
            r.frontier@ == seq![start],
    {
        let mut frontier: Vec<usize> = Vec::new();
        frontier.push(start);
        proof {
            assert(frontier@ =~= seq![start]);
        }
        PathSearch { start, depth: 0, preds: Vec::new(), frontier }
    }

    /// The search failed: the frontier emptied without the end page being
    /// discovered, so no path exists in the explored graph.
    pub fn frontier_exhausted(&self) -> (r: bool)
        ensures
            r == (self.frontier@.len() == 0),
    {
        self.frontier.len() == 0
    }
}

/// The view of an edge-row vector handed back by storage.
pub open spec fn spec_edges_view(es: Seq<(usize, usize, String)>) -> Seq<(int, int, Seq<char>)> {
    es.map_values(|e: (usize, usize, String)| (e.0 as int, e.1 as int, e.2@))
}

/// The first-discovery records one layer's edge rows produce, walking the
/// rows in order: an edge into a page with no record yet yields the record
/// (page, linker, display, d); later edges into the same page yield nothing
/// — the first discovery wins.
pub open spec fn spec_layer_acc(
    edges: Seq<(int, int, Seq<char>)>,
    keys: Set<int>,
    d: int,
) -> Seq<(int, int, Seq<char>, int)>
    decreases edges.len(),
{
    if edges.len() == 0 {
        Seq::empty()
    } else {
        let e = edges.first();
        let rest = edges.drop_first();
        if !keys.contains(e.1) {
            seq![(e.1, e.0, e.2, d)] + spec_layer_acc(rest, keys.insert(e.1), d)
        } else {
            spec_layer_acc(rest, keys, d)
        }
    }
}

/// The recorded pages of a record sequence, in order.
pub open spec fn spec_layer_ids(recs: Seq<(int, int, Seq<char>, int)>) -> Seq<int> {
    recs.map_values(|t: (int, int, Seq<char>, int)| t.0)
}

fn find_pred(preds: &Vec<PredEntry>, id: usize) -> (r: Option<usize>)
    ensures
        (match r {
            Some(a) => a < preds@.len() && preds@[a as int].linked == id,
            None => forall|a: int| 0 <= a < preds@.len() ==> (#[trigger] preds@[a]).linked != id,
        }),
{
    let mut a: usize = 0;
    while a < preds.len()
        invariant
            a <= preds@.len(),
            forall|b: int| 0 <= b < a ==> (#[trigger] preds@[b]).linked != id,
        decreases preds@.len() - a,
    {
        if preds[a].linked == id {
            return Some(a);
        }
        a += 1;
    }
    None
}

impl PathSearch {
    /// Runs one layer: walks the edge rows queried for the current frontier
    /// in order, records the first discovery of every page not yet recorded,
    /// and makes those pages the next frontier. Returns whether the end
    /// page appeared among this layer's linked pages — the signal to stop
    /// expanding and backtrack.
    #[verifier::rlimit(100)]
    #[verifier::spinoff_prover]
    pub fn process_layer(&mut self, edges: &Vec<(usize, usize, String)>, end: usize) -> (found:
        bool)
        requires
            old(self).wf(),
            old(self).depth < usize::MAX,
            forall|i: int|
                0 <= i < edges@.len() ==> exists|c: int|
                    0 <= c < old(self).frontier@.len() && (#[trigger] edges@[i]).0 == old(
                        self,
                    ).frontier@[c],
        ensures
            final(self).wf(),
            final(self).start == old(self).start,
            final(self).depth == old(self).depth + 1,
            found == exists|i: int| 0 <= i < edges@.len() && (#[trigger] edges@[i]).1 == end,
            final(self).preds@.map_values(|e: PredEntry| e@) == old(self).preds@.map_values(
                |e: PredEntry| e@,
            ) + spec_layer_acc(
                spec_edges_view(edges@),
                Set::new(|x: int| old(self).is_key(x)),
                old(self).depth + 1,
            ),
            final(self).frontier@.map_values(|u: usize| u as int) == spec_layer_ids(
                spec_layer_acc(
                    spec_edges_view(edges@),
                    Set::new(|x: int| old(self).is_key(x)),
                    old(self).depth + 1,
                ),
            ),
    {
        let ghost ev = spec_edges_view(edges@);
        let ghost old_keys = Set::new(|x: int| old(self).is_key(x));
        let ghost base = old(self).preds@.map_values(|e: PredEntry| e@);
        let ghost d = old(self).depth + 1;
        let new_depth = self.depth + 1;
        let mut next: Vec<usize> = Vec::new();
        let mut found = false;
        let ghost keys = old_keys;
        let mut i: usize = 0;
        proof {
            assert(ev.skip(0) =~= ev);
            assert(self.preds@.map_values(|e: PredEntry| e@) =~= base + spec_layer_acc(
                ev.skip(0),
                keys,
                d,
            ).take(0));
        }
        while i < edges.len()
            invariant
                i <= edges@.len(),
                ev == spec_edges_view(edges@),
                ev.len() == edges@.len(),
                d == old(self).depth + 1,
                new_depth == d,
                self.start == old(self).start,
                self.depth == old(self).depth,
                old(self).wf(),
                base == old(self).preds@.map_values(|e: PredEntry| e@),
                old_keys == Set::new(|x: int| old(self).is_key(x)),
                forall|j: int|
                    0 <= j < edges@.len() ==> exists|c: int|
                        0 <= c < old(self).frontier@.len() && (#[trigger] edges@[j]).0 == old(
                            self,
                        ).frontier@[c],
                self.frontier@ == old(self).frontier@,
                found == exists|j: int| 0 <= j < i && (#[trigger] ev[j]).1 == end,
                self.preds@.map_values(|e: PredEntry| e@) + spec_layer_acc(
                    ev.skip(i as int),
                    keys,
                    d,
                ) == base + spec_layer_acc(ev, old_keys, d),
                next@.map_values(|u: usize| u as int) + spec_layer_ids(
                    spec_layer_acc(ev.skip(i as int), keys, d),
                ) == spec_layer_ids(spec_layer_acc(ev, old_keys, d)),
                forall|x: int| keys.contains(x) <==> self.is_key(x),
                forall|a: int, b: int|
                    0 <= a < b < self.preds@.len() ==> (#[trigger] self.preds@[a]).linked != (
                    #[trigger] self.preds@[b]).linked,
                self.preds@.len() >= old(self).preds@.len(),
                forall|a: int|
                    0 <= a < old(self).preds@.len() ==> #[trigger] self.preds@[a] == old(
                        self,
                    ).preds@[a],
                forall|a: int|
                    old(self).preds@.len() <= a < self.preds@.len() ==> (
                    #[trigger] self.preds@[a]).depth == d,
                forall|a: int|
                    0 <= a < self.preds@.len() ==> 1 <= (#[trigger] self.preds@[a]).depth <= d,
                forall|a: int|
                    0 <= a < self.preds@.len() && (#[trigger] self.preds@[a]).depth == 1
                        ==> self.preds@[a].pred == self.start,
                forall|a: int|
                    0 <= a < self.preds@.len() && (#[trigger] self.preds@[a]).depth > 1
                        ==> exists|b: int|
                        0 <= b < self.preds@.len() && (#[trigger] self.preds@[b]).linked
                            == self.preds@[a].pred && self.preds@[b].depth == self.preds@[a].depth
                            - 1,
                next@.len() == self.preds@.len() - old(self).preds@.len(),
                forall|c: int|
                    0 <= c < next@.len() ==> (#[trigger] next@[c]) == self.preds@[old(
                        self,
                    ).preds@.len() + c].linked,
            decreases edges@.len() - i,
        {
            let ghost old_preds = self.preds@;
            let ghost old_next = next@;
            let ghost old_seen = keys;
            proof {
                assert(ev.skip(i as int).first() == ev[i as int]);
                assert(ev.skip(i as int).drop_first() =~= ev.skip(i + 1));
                assert(ev[i as int] == (edges@[i as int].0 as int, edges@[i as int].1 as int, edges@[i as int].2@));
            }
            let linker = edges[i].0;
            let linked = edges[i].1;
            if linked == end {
                found = true;
            }
            match find_pred(&self.preds, linked) {
                None => {
                    proof {
                        assert(!old_seen.contains(linked as int));
                    }
                    self.preds.push(
                        PredEntry {
                            linked,
                            pred: linker,
                            display: edges[i].2.clone(),
                            depth: new_depth,
                        },
                    );
                    next.push(linked);
                    proof {
                        keys = keys.insert(linked as int);
                        let newv = (linked as int, linker as int, edges@[i as int].2@, d);
                        assert(self.preds@[self.preds@.len() - 1]@ == newv);
                        assert(self.preds@.map_values(|e: PredEntry| e@) =~= old_preds.map_values(
                            |e: PredEntry| e@,
                        ).push(newv));
                        assert(spec_layer_acc(ev.skip(i as int), old_seen, d) =~= seq![newv]
                            + spec_layer_acc(ev.skip(i + 1), keys, d));
                        assert(next@.map_values(|u: usize| u as int) =~= old_next.map_values(
                            |u: usize| u as int,
                        ).push(linked as int));
                        assert(spec_layer_ids(spec_layer_acc(ev.skip(i as int), old_seen, d))
                            =~= seq![newv.0] + spec_layer_ids(
                            spec_layer_acc(ev.skip(i + 1), keys, d),
                        ));
                        assert forall|x: int| keys.contains(x) implies self.is_key(x) by {
                            if x == linked as int {
                                assert(self.preds@[self.preds@.len() - 1].linked == linked);
                            } else {
                                let a = choose|a: int|
                                    0 <= a < old_preds.len() && (#[trigger] old_preds[a]).linked
                                        == x;
                                assert(self.preds@[a].linked == x);
                            }
                        }
                        let c = choose|c: int|
                            0 <= c < old(self).frontier@.len() && edges@[i as int].0 == old(
                                self,
                            ).frontier@[c];
                        if old(self).depth == 0 {
                            assert(old(self).frontier@[c] == old(self).start);
                            assert(self.preds@[self.preds@.len() - 1].pred == self.start);
                        } else {
                            assert(old(self).key_at_depth(
                                old(self).frontier@[c] as int,
                                old(self).depth as int,
                            ));
                            let a = choose|a: int|
                                0 <= a < old(self).preds@.len() && (#[trigger] old(
                                    self,
                                ).preds@[a]).linked == old(self).frontier@[c] as int && old(
                                    self,
                                ).preds@[a].depth == old(self).depth as int;
                            assert(self.preds@[a].linked == self.preds@[self.preds@.len()
                                - 1].pred && self.preds@[a].depth == d - 1);
                        }
                        assert forall|a: int|
                            0 <= a < self.preds@.len() && (#[trigger] self.preds@[a]).depth
                                > 1 implies exists|b: int|
                            0 <= b < self.preds@.len() && (#[trigger] self.preds@[b]).linked
                                == self.preds@[a].pred && self.preds@[b].depth
                                == self.preds@[a].depth - 1 by {
                            if a < old_preds.len() {
                                let b = choose|b: int|
                                    0 <= b < old_preds.len() && (#[trigger] old_preds[b]).linked
                                        == old_preds[a].pred && old_preds[b].depth
                                        == old_preds[a].depth - 1;
                                assert(self.preds@[b].linked == self.preds@[a].pred
                                    && self.preds@[b].depth == self.preds@[a].depth - 1);
                            } else {
                                assert(self.preds@[a].depth == d);
                                if old(self).depth != 0 {
                                    assert(old(self).key_at_depth(
                                        old(self).frontier@[c] as int,
                                        old(self).depth as int,
                                    ));
                                    let a2 = choose|a2: int|
                                        0 <= a2 < old(self).preds@.len() && (#[trigger] old(
                                            self,
                                        ).preds@[a2]).linked == old(self).frontier@[c] as int
                                            && old(self).preds@[a2].depth == old(
                                            self,
                                        ).depth as int;
                                    assert(self.preds@[a2].linked == self.preds@[a].pred
                                        && self.preds@[a2].depth == self.preds@[a].depth - 1);
                                }
                            }
                        }
                        assert forall|c2: int| 0 <= c2 < next@.len() implies (
                        #[trigger] next@[c2]) == self.preds@[old(self).preds@.len()
                            + c2].linked by {
                            if c2 < next@.len() - 1 {
                                assert(next@[c2] == old_next[c2]);
                                assert(old_preds[old(self).preds@.len() + c2]
                                    == self.preds@[old(self).preds@.len() + c2]);
                            }
                        }
                    }
                },
                Some(_) => {
                    proof {
                        assert(old_seen.contains(linked as int));
                        assert(spec_layer_acc(ev.skip(i as int), keys, d) == spec_layer_acc(
                            ev.skip(i + 1),
                            keys,
                            d,
                        ));
                    }
                },
            }
            i += 1;
        }
        let ghost final_preds = self.preds@;
        let ghost final_next = next@;
        self.depth = new_depth;
        self.frontier = next;
        proof {
            assert(self.preds@ == final_preds);
            assert(self.frontier@ == final_next);
        }
        proof {
            assert(forall|a: int, b: int|
                0 <= a < b < self.preds@.len() ==> (#[trigger] self.preds@[a]).linked != (
                #[trigger] self.preds@[b]).linked);
            assert(forall|a: int|
                0 <= a < self.preds@.len() ==> 1 <= (#[trigger] self.preds@[a]).depth
                    <= self.depth);
            assert(forall|a: int|
                0 <= a < self.preds@.len() && (#[trigger] self.preds@[a]).depth == 1
                    ==> self.preds@[a].pred == self.start);
            assert(forall|a: int|
                0 <= a < self.preds@.len() && (#[trigger] self.preds@[a]).depth > 1
                    ==> exists|b: int|
                    0 <= b < self.preds@.len() && (#[trigger] self.preds@[b]).linked
                        == self.preds@[a].pred && self.preds@[b].depth == self.preds@[a].depth
                        - 1);
            assert(self.depth != 0);
            assert forall|c: int| 0 <= c < self.frontier@.len() implies self.key_at_depth(
                #[trigger] self.frontier@[c] as int,
                self.depth as int,
            ) by {
                let a = old(self).preds@.len() + c;
                assert(final_next[c] == final_preds[a].linked);
                assert(final_preds[a].depth == d);
                assert(0 <= a < self.preds@.len() && self.preds@[a].linked
                    == self.frontier@[c] as int && self.preds@[a].depth == self.depth as int);
            }
            assert forall|c: int, d2: int|
                0 <= c < d2 < self.frontier@.len() implies (#[trigger] self.frontier@[c]) != (
            #[trigger] self.frontier@[d2]) by {
                let a = old(self).preds@.len() + c;
                let b = old(self).preds@.len() + d2;
                assert(final_next[c] == final_preds[a].linked);
                assert(final_next[d2] == final_preds[b].linked);
                assert(final_preds[a].linked != final_preds[b].linked);
            }
            assert(self.wf());
            assert(ev.skip(ev.len() as int) =~= Seq::<(int, int, Seq<char>)>::empty());
            assert(spec_layer_acc(ev.skip(ev.len() as int), keys, d) =~= Seq::<
                (int, int, Seq<char>, int),
            >::empty());
            assert(self.preds@.map_values(|e: PredEntry| e@) =~= base + spec_layer_acc(
                ev,
                old_keys,
                d,
            ));
            assert(self.frontier@.map_values(|u: usize| u as int) =~= spec_layer_ids(
                spec_layer_acc(ev, old_keys, d),
            ));
            if found {
                let j = choose|j: int| 0 <= j < ev.len() && (#[trigger] ev[j]).1 == end;
                assert(ev[j] == (edges@[j].0 as int, edges@[j].1 as int, edges@[j].2@));
                assert(edges@[j].1 == end);
            } else {
                assert forall|i2: int|
                    0 <= i2 < edges@.len() implies (#[trigger] edges@[i2]).1 != end by {
                    assert(ev[i2] == (edges@[i2].0 as int, edges@[i2].1 as int, edges@[i2].2@));
                    assert(ev[i2].1 != end);
                }
            }
        }
        found
    }

    /// Walks the first-discovery records back from the end page to the
    /// start and returns the path in travel order: the start first, the end
    /// last, each step's display beside the page it was followed from.
    /// `None` exactly when the end page is neither the start nor recorded.
    pub fn backtrack(&self, end: usize) -> (r: Option<Vec<(usize, String)>>)
        requires
            self.wf(),
        ensures
            (r is Some) <==> (end == self.start || self.is_key(end as int)),
            (match r {
                Some(p) => {
                    &&& p@.len() >= 1
                    &&& p@[0].0 == self.start
                    &&& p@[p@.len() - 1].0 == end
                    &&& forall|k: int|
                        1 <= k < p@.len() ==> exists|a: int|
                            0 <= a < self.preds@.len() && (#[trigger] self.preds@[a]).linked == (
                            #[trigger] p@[k]).0 && self.preds@[a].pred == p@[k - 1].0
                                && self.preds@[a].display@ == p@[k - 1].1@
                },
                None => true,
            }),
    {
        let mut back: Vec<(usize, String)> = Vec::new();
        back.push((end, String::new()));
        if end != self.start {
            let mut idx = match find_pred(&self.preds, end) {
                None => {
                    return None;
                },
                Some(a) => a,
            };
            loop
                invariant_except_break
                    idx < self.preds@.len(),
                    self.preds@[idx as int].linked == back@[back@.len() - 1].0,
                    back@[back@.len() - 1].0 != self.start,
                invariant
                    self.wf(),
                    back@.len() >= 1,
                    back@[0].0 == end,
                    forall|m: int|
                        0 <= m < back@.len() - 1 ==> exists|a: int|
                            0 <= a < self.preds@.len() && (#[trigger] self.preds@[a]).linked == (
                            #[trigger] back@[m]).0 && self.preds@[a].pred == back@[m + 1].0
                                && self.preds@[a].display@ == back@[m + 1].1@,
                ensures
                    back@.len() >= 1,
                    back@[0].0 == end,
                    back@[back@.len() - 1].0 == self.start,
                    forall|m: int|
                        0 <= m < back@.len() - 1 ==> exists|a: int|
                            0 <= a < self.preds@.len() && (#[trigger] self.preds@[a]).linked == (
                            #[trigger] back@[m]).0 && self.preds@[a].pred == back@[m + 1].0
                                && self.preds@[a].display@ == back@[m + 1].1@,
                decreases self.preds@[idx as int].depth,
            {
                let ghost old_back = back@;
                let ghost old_idx = idx as int;
                let pred = self.preds[idx].pred;
                let display = self.preds[idx].display.clone();
                back.push((pred, display));
                proof {
                    assert forall|m: int| 0 <= m < back@.len() - 1 implies exists|a: int|
                        0 <= a < self.preds@.len() && (#[trigger] self.preds@[a]).linked == (
                        #[trigger] back@[m]).0 && self.preds@[a].pred == back@[m + 1].0
                            && self.preds@[a].display@ == back@[m + 1].1@ by {
                        if m == back@.len() - 2 {
                            assert(self.preds@[old_idx].linked == back@[m].0 && self.preds@[
                            old_idx].pred == back@[m + 1].0 && self.preds@[old_idx].display@
                                == back@[m + 1].1@);
                        } else {
                            let a = choose|a: int|
                                0 <= a < self.preds@.len() && (#[trigger] self.preds@[a]).linked
                                    == old_back[m].0 && self.preds@[a].pred == old_back[m + 1].0
                                    && self.preds@[a].display@ == old_back[m + 1].1@;
                            assert(self.preds@[a].linked == back@[m].0 && self.preds@[a].pred
                                == back@[m + 1].0 && self.preds@[a].display@ == back@[m + 1].1@);
                        }
                    }
                }
                if pred == self.start {
                    break ;
                }
                proof {
                    assert(self.preds@[old_idx].depth != 1);
                    assert(self.preds@[old_idx].depth > 1);
                }
                match find_pred(&self.preds, pred) {
                    None => {
                        proof {
                            let b = choose|b: int|
                                0 <= b < self.preds@.len() && (#[trigger] self.preds@[b]).linked
                                    == self.preds@[old_idx].pred && self.preds@[b].depth
                                    == self.preds@[old_idx].depth - 1;
                            assert(false);
                        }
                        return None;
                    },
                    Some(a) => {
                        proof {
                            let b = choose|b: int|
                                0 <= b < self.preds@.len() && (#[trigger] self.preds@[b]).linked
                                    == self.preds@[old_idx].pred && self.preds@[b].depth
                                    == self.preds@[old_idx].depth - 1;
                            if b != a {
                                assert(self.preds@[b].linked == self.preds@[a as int].linked);
                                assert(false);
                            }
                            assert(self.preds@[a as int].depth == self.preds@[old_idx].depth - 1);
                        }
                        idx = a;
                    },
                }
            }
        }
        let mut path: Vec<(usize, String)> = Vec::new();
        let mut k = back.len();
        while k > 0
            invariant
                k <= back@.len(),
                path@.len() == back@.len() - k,
                forall|m: int|
                    0 <= m < path@.len() ==> (#[trigger] path@[m]).0 == back@[back@.len() - 1
                        - m].0 && path@[m].1@ == back@[back@.len() - 1 - m].1@,
            decreases k,
        {
            k -= 1;
            path.push((back[k].0, back[k].1.clone()));
        }
        proof {
            assert(path@.len() == back@.len());
            assert forall|m: int| 1 <= m < path@.len() implies exists|a: int|
                0 <= a < self.preds@.len() && (#[trigger] self.preds@[a]).linked == (
                #[trigger] path@[m]).0 && self.preds@[a].pred == path@[m - 1].0
                    && self.preds@[a].display@ == path@[m - 1].1@ by {
                let mb = back@.len() - 1 - m;
                assert(path@[m].0 == back@[mb].0 && path@[m].1@ == back@[mb].1@);
                assert(path@[m - 1].0 == back@[mb + 1].0 && path@[m - 1].1@ == back@[mb + 1].1@);
                let a = choose|a: int|
                    0 <= a < self.preds@.len() && (#[trigger] self.preds@[a]).linked == back@[
                    mb].0 && self.preds@[a].pred == back@[mb + 1].0 && self.preds@[a].display@
                        == back@[mb + 1].1@;
                assert(self.preds@[a].linked == path@[m].0 && self.preds@[a].pred == path@[m
                    - 1].0 && self.preds@[a].display@ == path@[m - 1].1@);
            }
        }
        Some(path)
    }
}

/// First-match title lookup in the id-to-title rows handed back by storage.
pub open spec fn spec_lookup_title(rows: Seq<(int, Seq<char>)>, id: int) -> Option<Seq<char>>
    decreases rows.len(),
{
    if rows.len() == 0 {
        None
    } else if rows.first().0 == id {
        Some(rows.first().1)
    } else {
        spec_lookup_title(rows.drop_first(), id)
    }
}

fn lookup_title(rows: &Vec<(usize, String)>, id: usize) -> (r: Option<String>)
    ensures
        (match r {
            Some(t) => spec_lookup_title(
                rows@.map_values(|e: (usize, String)| (e.0 as int, e.1@)),
                id as int,
            ) == Some(t@),
            None => spec_lookup_title(
                rows@.map_values(|e: (usize, String)| (e.0 as int, e.1@)),
                id as int,
            ) is None,
        }),
{
    let ghost rv = rows@.map_values(|e: (usize, String)| (e.0 as int, e.1@));
    let mut i: usize = 0;
    proof {
        assert(rv.skip(0) =~= rv);
    }
    while i < rows.len()
        invariant
            i <= rows@.len(),
            rv == rows@.map_values(|e: (usize, String)| (e.0 as int, e.1@)),
            rv.len() == rows@.len(),
            spec_lookup_title(rv, id as int) == spec_lookup_title(rv.skip(i as int), id as int),
        decreases rows@.len() - i,
    {
        proof {
            assert(rv.skip(i as int).first() == rv[i as int]);
            assert(rv.skip(i as int).drop_first() =~= rv.skip(i + 1));
        }
        if rows[i].0 == id {
            return Some(rows[i].1.clone());
        }
        i += 1;
    }
    proof {
        assert(rv.skip(rv.len() as int) =~= Seq::<(int, Seq<char>)>::empty());
    }
    None
}

/// Resolves a backtracked id path to titled pages through one final batch
/// lookup. `None` exactly when some path id has no title row.
pub fn resolve_titles(path: &Vec<(usize, String)>, rows: &Vec<(usize, String)>) -> (r: Option<
    Vec<(Page, String)>,
>)
    ensures
        (match r {
            Some(out) => {
                &&& out@.len() == path@.len()
                &&& forall|m: int|
                    0 <= m < out@.len() ==> (#[trigger] out@[m]).0.id == path@[m].0
                        && out@[m].1@ == path@[m].1@ && spec_lookup_title(
                        rows@.map_values(|e: (usize, String)| (e.0 as int, e.1@)),
                        path@[m].0 as int,
                    ) == Some(out@[m].0.title@)
            },
            None => exists|m: int|
                0 <= m < path@.len() && spec_lookup_title(
                    rows@.map_values(|e: (usize, String)| (e.0 as int, e.1@)),
                    (#[trigger] path@[m]).0 as int,
                ) is None,
        }),
{
    let mut out: Vec<(Page, String)> = Vec::new();
    let mut m: usize = 0;
    while m < path.len()
        invariant
            m <= path@.len(),
            out@.len() == m,
            forall|j: int|
                0 <= j < m ==> (#[trigger] out@[j]).0.id == path@[j].0 && out@[j].1@
                    == path@[j].1@ && spec_lookup_title(
                    rows@.map_values(|e: (usize, String)| (e.0 as int, e.1@)),
                    path@[j].0 as int,
                ) == Some(out@[j].0.title@),
        decreases path@.len() - m,
    {
        match lookup_title(rows, path[m].0) {
            Some(title) => {
                out.push((Page { id: path[m].0, title }, path[m].1.clone()));
            },
            None => {
                return None;
            },
        }
        m += 1;
    }
    Some(out)
}

} // verus!

verus! {

/// Splits the frontier's ids into chunks of a fixed size, in order, so that
/// each layer's edge query stays bounded.
pub fn chunks_of(ids: &Vec<usize>, size: usize) -> (r: Vec<Vec<usize>>)
    requires
        size > 0,
    ensures
        r@.map_values(|v: Vec<usize>| v@).flatten() == ids@,
        forall|j: int| 0 <= j < r@.len() ==> 0 < (#[trigger] r@[j])@.len() <= size,
{
    let mut out: Vec<Vec<usize>> = Vec::new();
    let mut i: usize = 0;
    proof {
        assert(out@.map_values(|v: Vec<usize>| v@).flatten() =~= ids@.take(0));
    }
    while i < ids.len()
        invariant
            i <= ids@.len(),
            size > 0,
            out@.map_values(|v: Vec<usize>| v@).flatten() == ids@.take(i as int),
            forall|j: int| 0 <= j < out@.len() ==> 0 < (#[trigger] out@[j])@.len() <= size,
        decreases ids@.len() - i,
    {
        let ghost old_out = out@;
        let end = if ids.len() - i > size {
            i + size
        } else {
            ids.len()
        };
        let mut chunk: Vec<usize> = Vec::new();
        let mut k = i;
        proof {
            assert(chunk@ =~= ids@.subrange(i as int, i as int));
        }
        while k < end
            invariant
                i <= k <= end,
                end <= ids@.len(),
                chunk@ == ids@.subrange(i as int, k as int),
            decreases end - k,
        {
            chunk.push(ids[k]);
            proof {
                assert(ids@.subrange(i as int, k + 1) =~= ids@.subrange(i as int, k as int).push(
                    ids@[k as int],
                ));
            }
            k += 1;
        }
        out.push(chunk);
        proof {
            assert(out@.map_values(|v: Vec<usize>| v@) =~= old_out.map_values(
                |v: Vec<usize>| v@,
            ).push(ids@.subrange(i as int, end as int)));
            old_out.map_values(|v: Vec<usize>| v@).lemma_flatten_push(
                ids@.subrange(i as int, end as int),
            );
            assert(old_out.map_values(|v: Vec<usize>| v@).push(
                ids@.subrange(i as int, end as int),
            ).flatten() =~= old_out.map_values(|v: Vec<usize>| v@).flatten() + ids@.subrange(
                i as int,
                end as int,
            ));
            assert(ids@.take(i as int) + ids@.subrange(i as int, end as int) =~= ids@.take(
                end as int,
            ));
        }
        i = end;
    }
    proof {
        assert(ids@.take(ids@.len() as int) =~= ids@);
    }
    out
}

} // verus!

verus! {

/// The position of the first edge into page `x` in a layer's result order.
pub open spec fn spec_first_edge_into(edges: Seq<(int, int, Seq<char>)>, x: int) -> int
    decreases edges.len(),
{
    if edges.len() == 0 {
        0
    } else if edges.first().1 == x {
        0
    } else {
        1 + spec_first_edge_into(edges.drop_first(), x)
    }
}

proof fn lemma_first_edge_into_bounds(edges: Seq<(int, int, Seq<char>)>, x: int)
    requires
        exists|i: int| 0 <= i < edges.len() && (#[trigger] edges[i]).1 == x,
    ensures
        0 <= spec_first_edge_into(edges, x) < edges.len(),
        edges[spec_first_edge_into(edges, x)].1 == x,
        forall|j: int| 0 <= j < spec_first_edge_into(edges, x) ==> (#[trigger] edges[j]).1 != x,
    decreases edges.len(),
{
    if edges.first().1 != x {
        let i = choose|i: int| 0 <= i < edges.len() && (#[trigger] edges[i]).1 == x;
        assert(edges.drop_first()[i - 1].1 == x);
        lemma_first_edge_into_bounds(edges.drop_first(), x);
        let f = spec_first_edge_into(edges, x);
        assert(edges[f] == edges.drop_first()[f - 1]);
        assert forall|j: int| 0 <= j < f implies (#[trigger] edges[j]).1 != x by {
            if j > 0 {
                assert(edges[j] == edges.drop_first()[j - 1]);
            }
        }
    }
}

/// No page already recorded before a layer gains a record in it.
proof fn lemma_layer_records_fresh(edges: Seq<(int, int, Seq<char>)>, keys: Set<int>, d: int)
    ensures
        forall|a: int|
            0 <= a < spec_layer_acc(edges, keys, d).len() ==> !keys.contains(
                (#[trigger] spec_layer_acc(edges, keys, d)[a]).0,
            ),
    decreases edges.len(),
{
    if edges.len() > 0 {
        let e = edges.first();
        let rest = edges.drop_first();
        let recs = spec_layer_acc(edges, keys, d);
        if !keys.contains(e.1) {
            lemma_layer_records_fresh(rest, keys.insert(e.1), d);
            let tail = spec_layer_acc(rest, keys.insert(e.1), d);
            assert forall|a: int| 0 <= a < recs.len() implies !keys.contains(
                (#[trigger] recs[a]).0,
            ) by {
                if a > 0 {
                    assert(recs[a] == tail[a - 1]);
                    assert(!keys.insert(e.1).contains(tail[a - 1].0));
                }
            }
        } else {
            lemma_layer_records_fresh(rest, keys, d);
            let tail = spec_layer_acc(rest, keys, d);
            assert(recs == tail);
            assert forall|a: int| 0 <= a < recs.len() implies !keys.contains(
                (#[trigger] recs[a]).0,
            ) by {
                assert(recs[a] == tail[a]);
            }
        }
    }
}

/// One layer records each page at most once.
pub proof fn lemma_layer_records_unique(edges: Seq<(int, int, Seq<char>)>, keys: Set<int>, d: int)
    ensures
        forall|a: int, b: int|
            0 <= a < b < spec_layer_acc(edges, keys, d).len() ==> (
            #[trigger] spec_layer_acc(edges, keys, d)[a]).0 != (
            #[trigger] spec_layer_acc(edges, keys, d)[b]).0,
    decreases edges.len(),
{
    if edges.len() > 0 {
        let e = edges.first();
        let rest = edges.drop_first();
        let recs = spec_layer_acc(edges, keys, d);
        if !keys.contains(e.1) {
            lemma_layer_records_unique(rest, keys.insert(e.1), d);
            lemma_layer_records_fresh(rest, keys.insert(e.1), d);
            let tail = spec_layer_acc(rest, keys.insert(e.1), d);
            assert forall|a: int, b: int| 0 <= a < b < recs.len() implies (
            #[trigger] recs[a]).0 != (#[trigger] recs[b]).0 by {
                if a == 0 {
                    assert(recs[b] == tail[b - 1]);
                    assert(!keys.insert(e.1).contains(tail[b - 1].0));
                } else {
                    assert(recs[a] == tail[a - 1] && recs[b] == tail[b - 1]);
                }
            }
        } else {
            lemma_layer_records_unique(rest, keys, d);
            let tail = spec_layer_acc(rest, keys, d);
            assert(recs == tail);
            assert forall|a: int, b: int| 0 <= a < b < recs.len() implies (
            #[trigger] recs[a]).0 != (#[trigger] recs[b]).0 by {
                assert(recs[a] == tail[a] && recs[b] == tail[b]);
            }
        }
    }
}

/// First discovery wins: when a layer's edges reach a page with no record
/// yet, the record the layer produces for it carries the linker and display
/// of the first such edge in the layer's result order — the recorded
/// predecessor is decided by processing order alone.
pub proof fn lemma_first_discovery_wins(
    edges: Seq<(int, int, Seq<char>)>,
    keys: Set<int>,
    d: int,
    x: int,
)
    requires
        !keys.contains(x),
        exists|i: int| 0 <= i < edges.len() && (#[trigger] edges[i]).1 == x,
    ensures
        exists|a: int|
            0 <= a < spec_layer_acc(edges, keys, d).len() && #[trigger] spec_layer_acc(
                edges,
                keys,
                d,
            )[a] == (
                x,
                edges[spec_first_edge_into(edges, x)].0,
                edges[spec_first_edge_into(edges, x)].2,
                d,
            ),
    decreases edges.len(),
{
    lemma_first_edge_into_bounds(edges, x);
    let e = edges.first();
    let rest = edges.drop_first();
    let recs = spec_layer_acc(edges, keys, d);
    let f = spec_first_edge_into(edges, x);
    if e.1 == x {
        assert(recs[0] == (x, e.0, e.2, d));
    } else {
        let i = choose|i: int| 0 <= i < edges.len() && (#[trigger] edges[i]).1 == x;
        assert(rest[i - 1].1 == x);
        let f2 = spec_first_edge_into(rest, x);
        assert(f == 1 + f2);
        assert(edges[f] == rest[f2]);
        if !keys.contains(e.1) {
            assert(!keys.insert(e.1).contains(x));
            lemma_first_discovery_wins(rest, keys.insert(e.1), d, x);
            let tail = spec_layer_acc(rest, keys.insert(e.1), d);
            let a = choose|a: int|
                0 <= a < tail.len() && #[trigger] tail[a] == (x, rest[f2].0, rest[f2].2, d);
            assert(recs[a + 1] == (x, edges[f].0, edges[f].2, d));
        } else {
            lemma_first_discovery_wins(rest, keys, d, x);
            let tail = spec_layer_acc(rest, keys, d);
            let a = choose|a: int|
                0 <= a < tail.len() && #[trigger] tail[a] == (x, rest[f2].0, rest[f2].2, d);
            assert(recs[a] == (x, edges[f].0, edges[f].2, d));
        }
    }
}

} // verus!
