//! The graph merger: reconciles one cycle's explored pages and resolved
//! links against the already-known aliases, partitions genuinely new pages
//! from rediscovered ones, and builds the page, alias and edge rows that the
//! cycle commits. Edges are deduplicated on the (linker, linked) pair and
//! alias insertion keeps the alias table a function from token to page id.
use vstd::prelude::*;

use crate::Page;

verus! {

/// A directed edge of the graph: the exploring page links to the linked
/// page, under the displayed raw token. Identity is the (linker, linked)
/// pair alone.
pub struct Link {
    pub linker: usize,
    pub linked: usize,
    pub display: String,
}

impl View for Link {
    type V = (int, int, Seq<char>);

    open spec fn view(&self) -> (int, int, Seq<char>) {
        (self.linker as int, self.linked as int, self.display@)
    }
}

/// The view of a (token, page) vector handed back by storage or the
/// resolver pool.
pub open spec fn spec_entries_view(v: Seq<(String, Page)>) -> Seq<(Seq<char>, (int, Seq<char>))> {
    v.map_values(|e: (String, Page)| (e.0@, e.1@))
}

/// The set of page ids in an id vector handed back by storage.
pub open spec fn spec_id_set(v: Seq<usize>) -> Set<int> {
    Set::new(|x: int| exists|i: int| 0 <= i < v.len() && v[i] as int == x)
}

/// First-match lookup in a token-to-id table.
pub open spec fn spec_lookup_alias(m: Seq<(Seq<char>, int)>, t: Seq<char>) -> Option<int>
    decreases m.len(),
{
    if m.len() == 0 {
        None
    } else if m.first().0 == t {
        Some(m.first().1)
    } else {
        spec_lookup_alias(m.drop_first(), t)
    }
}

/// The alias rows the merge inserts: one row per resolved link that carries
/// a valid page identity, in resolution order.
pub open spec fn spec_new_aliases(resolved: Seq<(Seq<char>, (int, Seq<char>))>) -> Seq<
    (Seq<char>, int),
>
    decreases resolved.len(),
{
    if resolved.len() == 0 {
        Seq::empty()
    } else {
        let e = resolved.first();
        let rest = spec_new_aliases(resolved.drop_first());
        if e.1.0 != 0 {
            seq![(e.0, e.1.0)] + rest
        } else {
            rest
        }
    }
}

/// The genuinely new pages the merge inserts: resolved pages whose id is
/// valid, absent from storage, and not already taken by an earlier resolved
/// entry — the first resolved spelling of an id supplies its title.
pub open spec fn spec_new_pages(
    resolved: Seq<(Seq<char>, (int, Seq<char>))>,
    existing: Set<int>,
    seen: Set<int>,
) -> Seq<(int, Seq<char>)>
    decreases resolved.len(),
{
    if resolved.len() == 0 {
        Seq::empty()
    } else {
        let e = resolved.first();
        let rest = resolved.drop_first();
        if e.1.0 != 0 && !existing.contains(e.1.0) && !seen.contains(e.1.0) {
            seq![e.1] + spec_new_pages(rest, existing, seen.insert(e.1.0))
        } else {
            spec_new_pages(rest, existing, seen)
        }
    }
}

fn contains_id(ids: &Vec<usize>, id: usize) -> (r: bool)
    ensures
        r == spec_id_set(ids@).contains(id as int),
{
    let mut i: usize = 0;
    while i < ids.len()
        invariant
            i <= ids@.len(),
            forall|j: int| 0 <= j < i ==> ids@[j] != id,
        decreases ids@.len() - i,
    {
        if ids[i] == id {
            assert(spec_id_set(ids@).contains(id as int));
            return true;
        }
        i += 1;
    }
    assert(!spec_id_set(ids@).contains(id as int));
    false
}

fn contains_page_id(pages: &Vec<Page>, id: usize) -> (r: bool)
    ensures
        r == exists|j: int| 0 <= j < pages@.len() && (#[trigger] pages@[j]).id == id,
{
    let mut i: usize = 0;
    while i < pages.len()
        invariant
            i <= pages@.len(),
            forall|j: int| 0 <= j < i ==> (#[trigger] pages@[j]).id != id,
        decreases pages@.len() - i,
    {
        if pages[i].id == id {
            return true;
        }
        i += 1;
    }
    false
}

/// Builds the alias rows of one merge: every resolved link with a valid
/// identity is aliased to its page id, rediscovered or new alike.
pub fn build_aliases(resolved: &Vec<(String, Page)>) -> (r: Vec<(String, usize)>)
    ensures
        r@.map_values(|e: (String, usize)| (e.0@, e.1 as int)) == spec_new_aliases(
            spec_entries_view(resolved@),
        ),
{
    let ghost rv = spec_entries_view(resolved@);
    let mut out: Vec<(String, usize)> = Vec::new();
    let mut i: usize = 0;
    proof {
        assert(rv.skip(0) =~= rv);
        assert(out@.map_values(|e: (String, usize)| (e.0@, e.1 as int)) =~= Seq::<
            (Seq<char>, int),
        >::empty());
        assert(spec_new_aliases(rv) =~= out@.map_values(|e: (String, usize)| (e.0@, e.1 as int))
            + spec_new_aliases(rv.skip(0)));
    }
    while i < resolved.len()
        invariant
            i <= resolved@.len(),
            rv == spec_entries_view(resolved@),
            rv.len() == resolved@.len(),
            spec_new_aliases(rv) == out@.map_values(|e: (String, usize)| (e.0@, e.1 as int))
                + spec_new_aliases(rv.skip(i as int)),
        decreases resolved@.len() - i,
    {
        let ghost old_out = out@;
        proof {
            assert(rv.skip(i as int).first() == rv[i as int]);
            assert(rv.skip(i as int).drop_first() =~= rv.skip(i + 1));
        }
        let entry = &resolved[i];
        if entry.1.id != 0 {
            out.push((entry.0.clone(), entry.1.id));
            proof {
                assert(out@.map_values(|e: (String, usize)| (e.0@, e.1 as int)) =~= old_out
                    .map_values(|e: (String, usize)| (e.0@, e.1 as int)).push(
                    (rv[i as int].0, rv[i as int].1.0),
                ));
                assert(spec_new_aliases(rv.skip(i as int)) =~= seq![
                    (rv[i as int].0, rv[i as int].1.0),
                ] + spec_new_aliases(rv.skip(i + 1)));
            }
        }
        i += 1;
    }
    proof {
        assert(rv.skip(rv.len() as int) =~= Seq::<(Seq<char>, (int, Seq<char>))>::empty());
        assert(spec_new_aliases(rv) =~= out@.map_values(|e: (String, usize)| (e.0@, e.1 as int)));
    }
    out
}

/// Builds the page rows of one merge: resolved pages deduplicated by id,
/// keeping only identities absent from storage. The first resolved spelling
/// of an id supplies its title.
pub fn build_new_pages(resolved: &Vec<(String, Page)>, existing_ids: &Vec<usize>) -> (r: Vec<Page>)
    ensures
        r@.map_values(|p: Page| p@) == spec_new_pages(
            spec_entries_view(resolved@),
            spec_id_set(existing_ids@),
            Set::empty(),
        ),
        forall|a: int, b: int| 0 <= a < b < r@.len() ==> (#[trigger] r@[a]).id != (#[trigger] r@[b]).id,
{
    let ghost rv = spec_entries_view(resolved@);
    let ghost existing = spec_id_set(existing_ids@);
    let mut out: Vec<Page> = Vec::new();
    let ghost seen = Set::<int>::empty();
    let mut i: usize = 0;
    proof {
        assert(rv.skip(0) =~= rv);
        assert(out@.map_values(|p: Page| p@) =~= Seq::<(int, Seq<char>)>::empty());
        assert(spec_new_pages(rv, existing, seen) =~= out@.map_values(|p: Page| p@)
            + spec_new_pages(rv.skip(0), existing, seen));
    }
    while i < resolved.len()
        invariant
            i <= resolved@.len(),
            rv == spec_entries_view(resolved@),
            rv.len() == resolved@.len(),
            existing == spec_id_set(existing_ids@),
            spec_new_pages(rv, existing, Set::empty()) == out@.map_values(|p: Page| p@)
                + spec_new_pages(rv.skip(i as int), existing, seen),
            forall|x: int|
                seen.contains(x) <==> exists|j: int|
                    0 <= j < out@.len() && (#[trigger] out@[j]).id == x,
            forall|a: int, b: int|
                0 <= a < b < out@.len() ==> (#[trigger] out@[a]).id != (#[trigger] out@[b]).id,
        decreases resolved@.len() - i,
    {
        let ghost old_out = out@;
        let ghost old_seen = seen;
        proof {
            assert(rv.skip(i as int).first() == rv[i as int]);
            assert(rv.skip(i as int).drop_first() =~= rv.skip(i + 1));
        }
        let entry = &resolved[i];
        let id = entry.1.id;
        if id != 0 && !contains_id(existing_ids, id) && !contains_page_id(&out, id) {
            proof {
                assert(!old_seen.contains(id as int));
            }
            out.push(entry.1.clone());
            proof {
                seen = seen.insert(id as int);
                assert(out@[out@.len() - 1]@ == rv[i as int].1);
                assert(out@.map_values(|p: Page| p@) =~= old_out.map_values(|p: Page| p@).push(
                    rv[i as int].1,
                ));
                assert(spec_new_pages(rv.skip(i as int), existing, old_seen) =~= seq![
                    rv[i as int].1,
                ] + spec_new_pages(rv.skip(i + 1), existing, seen));
                assert forall|x: int| seen.contains(x) implies exists|j: int|
                    0 <= j < out@.len() && (#[trigger] out@[j]).id == x by {
                    if x == id as int {
                        assert(out@[out@.len() - 1].id == x);
                    } else {
                        let j = choose|j: int|
                            0 <= j < old_out.len() && (#[trigger] old_out[j]).id == x;
                        assert(out@[j].id == x);
                    }
                }
            }
        } else {
            proof {
                if id != 0 && !existing.contains(id as int) {
                    assert(old_seen.contains(id as int));
                }
                assert(spec_new_pages(rv.skip(i as int), existing, seen) == spec_new_pages(
                    rv.skip(i + 1),
                    existing,
                    seen,
                ));
            }
        }
        i += 1;
    }
    proof {
        assert(rv.skip(rv.len() as int) =~= Seq::<(Seq<char>, (int, Seq<char>))>::empty());
        assert(spec_new_pages(rv, existing, Set::empty()) =~= out@.map_values(|p: Page| p@));
    }
    out
}

/// Distinctness of a token-to-id table's keys: what makes it a function
/// from alias to page id.
pub open spec fn spec_distinct_keys(m: Seq<(Seq<char>, int)>) -> bool {
    forall|a: int, b: int| 0 <= a < b < m.len() ==> (#[trigger] m[a]).0 != (#[trigger] m[b]).0
}

/// The alias table stays a function after a merge: when the already-known
/// aliases are distinct, the inserted aliases are distinct, and no inserted
/// alias is already known, every alias of the grown table is associated with
/// exactly one id.
pub proof fn lemma_alias_map_function(known: Seq<(Seq<char>, int)>, added: Seq<(Seq<char>, int)>)
    requires
        spec_distinct_keys(known),
        spec_distinct_keys(added),
        forall|a: int, b: int|
            0 <= a < known.len() && 0 <= b < added.len() ==> (#[trigger] known[a]).0 != (
            #[trigger] added[b]).0,
    ensures
        spec_distinct_keys(known + added),
{
    let all = known + added;
    assert forall|a: int, b: int| 0 <= a < b < all.len() implies (#[trigger] all[a]).0 != (
    #[trigger] all[b]).0 by {
        if a < known.len() && b < known.len() {
            assert(all[a] == known[a] && all[b] == known[b]);
        } else if a < known.len() {
            assert(all[a] == known[a] && all[b] == added[b - known.len()]);
        } else {
            assert(all[a] == added[a - known.len()] && all[b] == added[b - known.len()]);
        }
    }
}

/// Every alias built by a merge carries a token of the resolved input.
pub proof fn lemma_new_aliases_tokens(resolved: Seq<(Seq<char>, (int, Seq<char>))>)
    ensures
        forall|a: int|
            0 <= a < spec_new_aliases(resolved).len() ==> exists|j: int|
                0 <= j < resolved.len() && (#[trigger] spec_new_aliases(resolved)[a]).0
                    == resolved[j].0,
    decreases resolved.len(),
{
    if resolved.len() > 0 {
        let e = resolved.first();
        let rest = resolved.drop_first();
        lemma_new_aliases_tokens(rest);
        let tail = spec_new_aliases(rest);
        let whole = spec_new_aliases(resolved);
        assert forall|a: int| 0 <= a < whole.len() implies exists|j: int|
            0 <= j < resolved.len() && (#[trigger] whole[a]).0 == resolved[j].0 by {
            if e.1.0 != 0 && a == 0 {
                assert(whole[0].0 == resolved[0].0);
            } else {
                let at = if e.1.0 != 0 {
                    a - 1
                } else {
                    a
                };
                assert(whole[a] == tail[at]);
                let j = choose|j: int| 0 <= j < rest.len() && (#[trigger] tail[at]).0 == rest[j].0;
                assert(resolved[j + 1].0 == rest[j].0);
            }
        }
    }
}

/// The aliases built by one merge are distinct whenever the resolved tokens
/// are distinct — the resolver pool resolves each unknown token once.
pub proof fn lemma_new_aliases_distinct(resolved: Seq<(Seq<char>, (int, Seq<char>))>)
    requires
        forall|a: int, b: int|
            0 <= a < b < resolved.len() ==> (#[trigger] resolved[a]).0 != (
            #[trigger] resolved[b]).0,
    ensures
        spec_distinct_keys(spec_new_aliases(resolved)),
    decreases resolved.len(),
{
    if resolved.len() > 0 {
        let e = resolved.first();
        let rest = resolved.drop_first();
        assert(forall|a: int, b: int|
            0 <= a < b < rest.len() ==> (#[trigger] rest[a]).0 != (#[trigger] rest[b]).0);
        lemma_new_aliases_distinct(rest);
        lemma_new_aliases_tokens(rest);
        let tail = spec_new_aliases(rest);
        let whole = spec_new_aliases(resolved);
        if e.1.0 != 0 {
            assert(whole =~= seq![(e.0, e.1.0)] + tail);
            assert forall|a: int, b: int| 0 <= a < b < whole.len() implies (
            #[trigger] whole[a]).0 != (#[trigger] whole[b]).0 by {
                if a == 0 {
                    assert(whole[b] == tail[b - 1]);
                    let j = choose|j: int|
                        0 <= j < rest.len() && (#[trigger] tail[b - 1]).0 == rest[j].0;
                    assert(resolved[j + 1].0 == rest[j].0);
                    assert(resolved[0].0 != resolved[j + 1].0);
                } else {
                    assert(whole[a] == tail[a - 1] && whole[b] == tail[b - 1]);
                }
            }
        }
    }
}

} // verus!

verus! {

/// The view of one cycle's explored results: each page and its extracted
/// (token, display) pairs.
pub open spec fn spec_results_view(rs: Seq<(Page, Vec<(String, String)>)>) -> Seq<
    ((int, Seq<char>), Seq<(Seq<char>, Seq<char>)>),
> {
    rs.map_values(
        |r: (Page, Vec<(String, String)>)|
            (r.0@, r.1@.map_values(|p: (String, String)| (p.0@, p.1@))),
    )
}

/// The view of a token-to-id table.
pub open spec fn spec_table_view(m: Seq<(String, usize)>) -> Seq<(Seq<char>, int)> {
    m.map_values(|e: (String, usize)| (e.0@, e.1 as int))
}

/// The token-to-id map the edge build joins against: the already-known
/// aliases first, then the aliases of this cycle's resolved links.
pub open spec fn spec_alias_map(
    known: Seq<(Seq<char>, (int, Seq<char>))>,
    resolved: Seq<(Seq<char>, (int, Seq<char>))>,
) -> Seq<(Seq<char>, int)> {
    known.map_values(|e: (Seq<char>, (int, Seq<char>))| (e.0, e.1.0)) + spec_new_aliases(resolved)
}

/// The edges one explored page contributes, walking its tokens left to
/// right: a token the map resolves yields the edge (page, resolved id,
/// display) unless that pair was already recorded. Yields the edge sequence
/// and the grown set of recorded pairs.
pub open spec fn spec_page_edges_acc(
    linker: int,
    links: Seq<(Seq<char>, Seq<char>)>,
    amap: Seq<(Seq<char>, int)>,
    seen: Set<(int, int)>,
) -> (Seq<(int, int, Seq<char>)>, Set<(int, int)>)
    decreases links.len(),
{
    if links.len() == 0 {
        (Seq::empty(), seen)
    } else {
        let l = links.first();
        let rest = links.drop_first();
        match spec_lookup_alias(amap, l.0) {
            Some(id) => {
                if !seen.contains((linker, id)) {
                    let tail = spec_page_edges_acc(linker, rest, amap, seen.insert((linker, id)));
                    (seq![(linker, id, l.1)] + tail.0, tail.1)
                } else {
                    spec_page_edges_acc(linker, rest, amap, seen)
                }
            },
            None => spec_page_edges_acc(linker, rest, amap, seen),
        }
    }
}

/// The deduplicated edges of a whole cycle, page by page in result order.
pub open spec fn spec_merge_edges_acc(
    results: Seq<((int, Seq<char>), Seq<(Seq<char>, Seq<char>)>)>,
    amap: Seq<(Seq<char>, int)>,
    seen: Set<(int, int)>,
) -> Seq<(int, int, Seq<char>)>
    decreases results.len(),
{
    if results.len() == 0 {
        Seq::empty()
    } else {
        let pe = spec_page_edges_acc(results.first().0.0, results.first().1, amap, seen);
        pe.0 + spec_merge_edges_acc(results.drop_first(), amap, pe.1)
    }
}

fn lookup_alias(amap: &Vec<(String, usize)>, t: &String) -> (r: Option<usize>)
    ensures
        (match r {
            Some(id) => spec_lookup_alias(spec_table_view(amap@), t@) == Some(id as int),
            None => spec_lookup_alias(spec_table_view(amap@), t@) is None,
        }),
{
    let ghost mv = spec_table_view(amap@);
    let mut i: usize = 0;
    proof {
        assert(mv.skip(0) =~= mv);
    }
    while i < amap.len()
        invariant
            i <= amap@.len(),
            mv == spec_table_view(amap@),
            mv.len() == amap@.len(),
            spec_lookup_alias(mv, t@) == spec_lookup_alias(mv.skip(i as int), t@),
        decreases amap@.len() - i,
    {
        proof {
            assert(mv.skip(i as int).first() == mv[i as int]);
            assert(mv.skip(i as int).drop_first() =~= mv.skip(i + 1));
        }
        if amap[i].0.eq(t) {
            return Some(amap[i].1);
        }
        i += 1;
    }
    proof {
        assert(mv.skip(mv.len() as int) =~= Seq::<(Seq<char>, int)>::empty());
    }
    None
}

fn contains_edge(out: &Vec<Link>, linker: usize, linked: usize) -> (r: bool)
    ensures
        r == exists|j: int|
            0 <= j < out@.len() && (#[trigger] out@[j]).linker == linker && out@[j].linked
                == linked,
{
    let mut i: usize = 0;
    while i < out.len()
        invariant
            i <= out@.len(),
            forall|j: int|
                0 <= j < i ==> !((#[trigger] out@[j]).linker == linker && out@[j].linked
                    == linked),
        decreases out@.len() - i,
    {
        if out[i].linker == linker && out[i].linked == linked {
            return true;
        }
        i += 1;
    }
    false
}

/// Builds the deduplicated edge rows of one cycle by joining each explored
/// page's tokens against the alias map. No (linker, linked) pair repeats,
/// and the display text of a pair is the one of its first occurrence.
pub fn build_edges(results: &Vec<(Page, Vec<(String, String)>)>, amap: &Vec<(String, usize)>) -> (r:
    Vec<Link>)
    ensures
        r@.map_values(|l: Link| l@) == spec_merge_edges_acc(
            spec_results_view(results@),
            spec_table_view(amap@),
            Set::empty(),
        ),
        forall|a: int, b: int|
            0 <= a < b < r@.len() ==> !((#[trigger] r@[a]).linker == (#[trigger] r@[b]).linker
                && r@[a].linked == r@[b].linked),
        forall|j: int|
            0 <= j < r@.len() ==> exists|q: int|
                0 <= q < results@.len() && (#[trigger] r@[j]).linker == (
                #[trigger] results@[q]).0.id,
{
    let ghost rv = spec_results_view(results@);
    let ghost am = spec_table_view(amap@);
    let mut out: Vec<Link> = Vec::new();
    let ghost seen = Set::<(int, int)>::empty();
    let mut p: usize = 0;
    proof {
        assert(rv.skip(0) =~= rv);
        assert(out@.map_values(|l: Link| l@) =~= Seq::<(int, int, Seq<char>)>::empty());
        assert(spec_merge_edges_acc(rv, am, seen) =~= out@.map_values(|l: Link| l@)
            + spec_merge_edges_acc(rv.skip(0), am, seen));
    }
    while p < results.len()
        invariant
            p <= results@.len(),
            rv == spec_results_view(results@),
            rv.len() == results@.len(),
            am == spec_table_view(amap@),
            spec_merge_edges_acc(rv, am, Set::empty()) == out@.map_values(|l: Link| l@)
                + spec_merge_edges_acc(rv.skip(p as int), am, seen),
            forall|x: (int, int)|
                seen.contains(x) <==> exists|j: int|
                    0 <= j < out@.len() && ((#[trigger] out@[j]).linker as int,
                    out@[j].linked as int) == x,
            forall|a: int, b: int|
                0 <= a < b < out@.len() ==> !((#[trigger] out@[a]).linker == (
                #[trigger] out@[b]).linker && out@[a].linked == out@[b].linked),
            forall|j: int|
                0 <= j < out@.len() ==> exists|q: int|
                    0 <= q < results@.len() && (#[trigger] out@[j]).linker == (
                    #[trigger] results@[q]).0.id,
        decreases results@.len() - p,
    {
        proof {
            assert(rv.skip(p as int).first() == rv[p as int]);
            assert(rv.skip(p as int).drop_first() =~= rv.skip(p + 1));
        }
        let page_id = results[p].0.id;
        let links_len = results[p].1.len();
        let ghost links_v = rv[p as int].1;
        let mut k: usize = 0;
        proof {
            assert(links_v.skip(0) =~= links_v);
        }
        while k < links_len
            invariant
                k <= links_len,
                p < results@.len(),
                rv == spec_results_view(results@),
                rv.len() == results@.len(),
                am == spec_table_view(amap@),
                links_v == rv[p as int].1,
                links_len == links_v.len(),
                links_len == results@[p as int].1@.len(),
                page_id == results@[p as int].0.id,
                page_id as int == rv[p as int].0.0,
                spec_merge_edges_acc(rv, am, Set::empty()) == out@.map_values(|l: Link| l@)
                    + spec_page_edges_acc(page_id as int, links_v.skip(k as int), am, seen).0
                    + spec_merge_edges_acc(
                    rv.skip(p + 1),
                    am,
                    spec_page_edges_acc(page_id as int, links_v.skip(k as int), am, seen).1,
                ),
                forall|x: (int, int)|
                    seen.contains(x) <==> exists|j: int|
                        0 <= j < out@.len() && ((#[trigger] out@[j]).linker as int,
                        out@[j].linked as int) == x,
                forall|a: int, b: int|
                    0 <= a < b < out@.len() ==> !((#[trigger] out@[a]).linker == (
                    #[trigger] out@[b]).linker && out@[a].linked == out@[b].linked),
                forall|j: int|
                    0 <= j < out@.len() ==> exists|q: int|
                        0 <= q < results@.len() && (#[trigger] out@[j]).linker == (
                        #[trigger] results@[q]).0.id,
            decreases links_len - k,
        {
            let ghost old_out = out@;
            let ghost old_seen = seen;
            proof {
                assert(links_v.skip(k as int).first() == links_v[k as int]);
                assert(links_v.skip(k as int).drop_first() =~= links_v.skip(k + 1));
                assert(links_v[k as int] == (results@[p as int].1@[k as int].0@, results@[p as int].1@[k as int].1@));
            }
            let token = &results[p].1[k].0;
            match lookup_alias(amap, token) {
                Some(id) => {
                    if !contains_edge(&out, page_id, id) {
                        proof {
                            assert(!old_seen.contains((page_id as int, id as int)));
                        }
                        out.push(
                            Link { linker: page_id, linked: id, display: results[p].1[k].1.clone() },
                        );
                        proof {
                            seen = seen.insert((page_id as int, id as int));
                            assert(out@[out@.len() - 1]@ == (page_id as int, id as int, links_v[k as int].1));
                            assert(out@.map_values(|l: Link| l@) =~= old_out.map_values(
                                |l: Link| l@,
                            ).push((page_id as int, id as int, links_v[k as int].1)));
                            assert(spec_page_edges_acc(page_id as int, links_v.skip(k as int), am, old_seen).0
                                =~= seq![(page_id as int, id as int, links_v[k as int].1)]
                                + spec_page_edges_acc(page_id as int, links_v.skip(k + 1), am, seen).0);
                            assert(spec_page_edges_acc(page_id as int, links_v.skip(k as int), am, old_seen).1
                                == spec_page_edges_acc(page_id as int, links_v.skip(k + 1), am, seen).1);
                            assert forall|x: (int, int)| seen.contains(x) implies exists|j: int|
                                0 <= j < out@.len() && ((#[trigger] out@[j]).linker as int,
                                out@[j].linked as int) == x by {
                                if x == (page_id as int, id as int) {
                                    assert(((out@[out@.len() - 1]).linker as int,
                                    (out@[out@.len() - 1]).linked as int) == x);
                                } else {
                                    let j = choose|j: int|
                                        0 <= j < old_out.len() && ((#[trigger] old_out[j]).linker as int,
                                        old_out[j].linked as int) == x;
                                    assert(((out@[j]).linker as int, (out@[j]).linked as int) == x);
                                }
                            }
                            assert(exists|q: int|
                                0 <= q < results@.len() && (out@[out@.len() - 1]).linker == (
                                #[trigger] results@[q]).0.id) by {
                                assert((out@[out@.len() - 1]).linker == results@[p as int].0.id);
                            }
                        }
                    } else {
                        proof {
                            assert(old_seen.contains((page_id as int, id as int)));
                            assert(spec_page_edges_acc(page_id as int, links_v.skip(k as int), am, seen)
                                == spec_page_edges_acc(page_id as int, links_v.skip(k + 1), am, seen));
                        }
                    }
                },
                None => {
                    proof {
                        assert(spec_page_edges_acc(page_id as int, links_v.skip(k as int), am, seen)
                            == spec_page_edges_acc(page_id as int, links_v.skip(k + 1), am, seen));
                    }
                },
            }
            k += 1;
        }
        proof {
            assert(links_v.skip(links_v.len() as int) =~= Seq::<(Seq<char>, Seq<char>)>::empty());
            assert(spec_page_edges_acc(page_id as int, links_v.skip(links_len as int), am, seen).0
                =~= Seq::<(int, int, Seq<char>)>::empty());
        }
        p += 1;
    }
    proof {
        assert(rv.skip(rv.len() as int) =~= Seq::<((int, Seq<char>), Seq<(Seq<char>, Seq<char>)>)>::empty());
        assert(spec_merge_edges_acc(rv, am, Set::empty()) =~= out@.map_values(|l: Link| l@));
    }
    out
}

} // verus!

verus! {

/// The view of a (token, display) vector.
pub open spec fn spec_pairs_view(v: Seq<(String, String)>) -> Seq<(Seq<char>, Seq<char>)> {
    v.map_values(|p: (String, String)| (p.0@, p.1@))
}

/// The (linker, linked) identities of an edge sequence.
pub open spec fn spec_edge_keys(es: Seq<(int, int, Seq<char>)>) -> Set<(int, int)> {
    Set::new(
        |x: (int, int)|
            exists|i: int| 0 <= i < es.len() && ((#[trigger] es[i]).0, es[i].1) == x,
    )
}

/// What deleting a batch's stale edges leaves of the edge table: every edge
/// whose linker is outside the batch.
pub open spec fn spec_delete_stale(table: Set<(int, int)>, batch: Set<int>) -> Set<(int, int)> {
    Set::new(|e: (int, int)| table.contains(e) && !batch.contains(e.0))
}

/// One cycle's effect on the edge table: the batch's stale edges go, the
/// cycle's merged edges come.
pub open spec fn spec_commit_edges(
    table: Set<(int, int)>,
    batch: Set<int>,
    new_edges: Set<(int, int)>,
) -> Set<(int, int)> {
    spec_delete_stale(table, batch).union(new_edges)
}

/// Re-running a merge commit on the same input after a crash yields the same
/// final edge table, provided every merged edge's linker is in the batch
/// whose stale edges the re-run deletes first.
pub proof fn lemma_commit_idempotent(
    table: Set<(int, int)>,
    batch: Set<int>,
    new_edges: Set<(int, int)>,
)
    requires
        forall|e: (int, int)| new_edges.contains(e) ==> batch.contains(e.0),
    ensures
        spec_commit_edges(spec_commit_edges(table, batch, new_edges), batch, new_edges)
            == spec_commit_edges(table, batch, new_edges),
{
    let once = spec_commit_edges(table, batch, new_edges);
    let twice = spec_commit_edges(once, batch, new_edges);
    assert forall|e: (int, int)| twice.contains(e) <==> once.contains(e) by {
        if new_edges.contains(e) {
            assert(batch.contains(e.0));
        }
    }
    assert(twice =~= once);
}

/// Every edge a merge builds has its linker in the explored batch, in set
/// form: what ties one cycle's edges to the stale-edge deletion of a re-run.
pub proof fn lemma_edge_keys_in_batch(es: Seq<(int, int, Seq<char>)>, batch: Set<int>)
    requires
        forall|j: int| 0 <= j < es.len() ==> batch.contains((#[trigger] es[j]).0),
    ensures
        forall|e: (int, int)| spec_edge_keys(es).contains(e) ==> batch.contains(e.0),
{
    assert forall|e: (int, int)| spec_edge_keys(es).contains(e) implies batch.contains(e.0) by {
        let i = choose|i: int| 0 <= i < es.len() && ((#[trigger] es[i]).0, es[i].1) == e;
        assert(batch.contains(es[i].0));
    }
}

/// The distinct raw tokens one page's extracted pairs contribute, walking
/// left to right: a token not yet seen is kept, in order. Yields the token
/// sequence and the grown set of seen tokens.
pub open spec fn spec_page_tokens_acc(
    links: Seq<(Seq<char>, Seq<char>)>,
    seen: Set<Seq<char>>,
) -> (Seq<Seq<char>>, Set<Seq<char>>)
    decreases links.len(),
{
    if links.len() == 0 {
        (Seq::empty(), seen)
    } else {
        let t = links.first().0;
        let rest = links.drop_first();
        if !seen.contains(t) {
            let tail = spec_page_tokens_acc(rest, seen.insert(t));
            (seq![t] + tail.0, tail.1)
        } else {
            spec_page_tokens_acc(rest, seen)
        }
    }
}

/// The distinct raw tokens found across one cycle's explored pages, page by
/// page in result order, each token at its first occurrence.
pub open spec fn spec_batch_tokens_acc(
    rv: Seq<((int, Seq<char>), Seq<(Seq<char>, Seq<char>)>)>,
    seen: Set<Seq<char>>,
) -> Seq<Seq<char>>
    decreases rv.len(),
{
    if rv.len() == 0 {
        Seq::empty()
    } else {
        let pt = spec_page_tokens_acc(rv.first().1, seen);
        pt.0 + spec_batch_tokens_acc(rv.drop_first(), pt.1)
    }
}

fn contains_token(v: &Vec<String>, t: &String) -> (r: bool)
    ensures
        r == exists|j: int| 0 <= j < v@.len() && (#[trigger] v@[j])@ == t@,
{
    let mut j: usize = 0;
    while j < v.len()
        invariant
            j <= v@.len(),
            forall|i: int| 0 <= i < j ==> (#[trigger] v@[i])@ != t@,
        decreases v@.len() - j,
    {
        if v[j].eq(t) {
            return true;
        }
        j += 1;
    }
    false
}

/// Collects the distinct set of raw tokens across the whole batch, in first
/// occurrence order.
pub fn collect_batch_links(results: &Vec<(Page, Vec<(String, String)>)>) -> (r: Vec<String>)
    ensures
        r@.map_values(|s: String| s@) == spec_batch_tokens_acc(
            spec_results_view(results@),
            Set::empty(),
        ),
        forall|a: int, b: int|
            0 <= a < b < r@.len() ==> (#[trigger] r@[a])@ != (#[trigger] r@[b])@,
{
    let ghost rv = spec_results_view(results@);
    let mut out: Vec<String> = Vec::new();
    let ghost seen = Set::<Seq<char>>::empty();
    let mut p: usize = 0;
    proof {
        assert(rv.skip(0) =~= rv);
        assert(out@.map_values(|s: String| s@) =~= Seq::<Seq<char>>::empty());
        assert(spec_batch_tokens_acc(rv, seen) =~= out@.map_values(|s: String| s@)
            + spec_batch_tokens_acc(rv.skip(0), seen));
    }
    while p < results.len()
        invariant
            p <= results@.len(),
            rv == spec_results_view(results@),
            rv.len() == results@.len(),
            spec_batch_tokens_acc(rv, Set::empty()) == out@.map_values(|s: String| s@)
                + spec_batch_tokens_acc(rv.skip(p as int), seen),
            forall|t: Seq<char>|
                seen.contains(t) <==> exists|j: int|
                    0 <= j < out@.len() && (#[trigger] out@[j])@ == t,
            forall|a: int, b: int|
                0 <= a < b < out@.len() ==> (#[trigger] out@[a])@ != (#[trigger] out@[b])@,
        decreases results@.len() - p,
    {
        proof {
            assert(rv.skip(p as int).first() == rv[p as int]);
            assert(rv.skip(p as int).drop_first() =~= rv.skip(p + 1));
        }
        let links_len = results[p].1.len();
        let ghost links_v = rv[p as int].1;
        let mut k: usize = 0;
        proof {
            assert(links_v.skip(0) =~= links_v);
        }
        while k < links_len
            invariant
                k <= links_len,
                p < results@.len(),
                rv == spec_results_view(results@),
                rv.len() == results@.len(),
                links_v == rv[p as int].1,
                links_len == links_v.len(),
                links_len == results@[p as int].1@.len(),
                spec_batch_tokens_acc(rv, Set::empty()) == out@.map_values(|s: String| s@)
                    + spec_page_tokens_acc(links_v.skip(k as int), seen).0
                    + spec_batch_tokens_acc(
                    rv.skip(p + 1),
                    spec_page_tokens_acc(links_v.skip(k as int), seen).1,
                ),
                forall|t: Seq<char>|
                    seen.contains(t) <==> exists|j: int|
                        0 <= j < out@.len() && (#[trigger] out@[j])@ == t,
                forall|a: int, b: int|
                    0 <= a < b < out@.len() ==> (#[trigger] out@[a])@ != (#[trigger] out@[b])@,
            decreases links_len - k,
        {
            let ghost old_out = out@;
            let ghost old_seen = seen;
            proof {
                assert(links_v.skip(k as int).first() == links_v[k as int]);
                assert(links_v.skip(k as int).drop_first() =~= links_v.skip(k + 1));
                assert(links_v[k as int] == (results@[p as int].1@[k as int].0@, results@[p as int].1@[k as int].1@));
            }
            let token = &results[p].1[k].0;
            if !contains_token(&out, token) {
                proof {
                    assert(!old_seen.contains(token@));
                }
                out.push(token.clone());
                proof {
                    seen = seen.insert(out@[out@.len() - 1]@);
                    assert(out@[out@.len() - 1]@ == links_v[k as int].0);
                    assert(out@.map_values(|s: String| s@) =~= old_out.map_values(
                        |s: String| s@,
                    ).push(links_v[k as int].0));
                    assert(spec_page_tokens_acc(links_v.skip(k as int), old_seen).0 =~= seq![
                        links_v[k as int].0,
                    ] + spec_page_tokens_acc(links_v.skip(k + 1), seen).0);
                    assert(spec_page_tokens_acc(links_v.skip(k as int), old_seen).1
                        == spec_page_tokens_acc(links_v.skip(k + 1), seen).1);
                    assert forall|t: Seq<char>| seen.contains(t) implies exists|j: int|
                        0 <= j < out@.len() && (#[trigger] out@[j])@ == t by {
                        if t == out@[out@.len() - 1]@ {
                            assert(out@[out@.len() - 1]@ == t);
                        } else {
                            let j = choose|j: int|
                                0 <= j < old_out.len() && (#[trigger] old_out[j])@ == t;
                            assert(out@[j]@ == t);
                        }
                    }
                }
            } else {
                proof {
                    assert(old_seen.contains(token@));
                    assert(spec_page_tokens_acc(links_v.skip(k as int), seen)
                        == spec_page_tokens_acc(links_v.skip(k + 1), seen));
                }
            }
            k += 1;
        }
        proof {
            assert(links_v.skip(links_v.len() as int) =~= Seq::<(Seq<char>, Seq<char>)>::empty());
            assert(spec_page_tokens_acc(links_v.skip(links_len as int), seen).0 =~= Seq::<
                Seq<char>,
            >::empty());
        }
        p += 1;
    }
    proof {
        assert(rv.skip(rv.len() as int) =~= Seq::<
            ((int, Seq<char>), Seq<(Seq<char>, Seq<char>)>),
        >::empty());
        assert(spec_batch_tokens_acc(rv, Set::empty()) =~= out@.map_values(|s: String| s@));
    }
    out
}

/// The tokens a token-to-page table already knows.
pub open spec fn spec_alias_keys(known: Seq<(Seq<char>, (int, Seq<char>))>) -> Set<Seq<char>> {
    Set::new(
        |t: Seq<char>| exists|j: int| 0 <= j < known.len() && (#[trigger] known[j]).0 == t,
    )
}

/// The tokens of a batch that the known aliases do not cover, in order:
/// exactly these go to the resolver pool.
pub open spec fn spec_unknown_tokens(found: Seq<Seq<char>>, keys: Set<Seq<char>>) -> Seq<Seq<char>>
    decreases found.len(),
{
    if found.len() == 0 {
        Seq::empty()
    } else {
        let rest = spec_unknown_tokens(found.drop_first(), keys);
        if !keys.contains(found.first()) {
            seq![found.first()] + rest
        } else {
            rest
        }
    }
}

fn contains_alias(known: &Vec<(String, Page)>, t: &String) -> (r: bool)
    ensures
        r == spec_alias_keys(spec_entries_view(known@)).contains(t@),
{
    let ghost kv = spec_entries_view(known@);
    let mut j: usize = 0;
    while j < known.len()
        invariant
            j <= known@.len(),
            kv == spec_entries_view(known@),
            kv.len() == known@.len(),
            forall|i: int| 0 <= i < j ==> (#[trigger] kv[i]).0 != t@,
        decreases known@.len() - j,
    {
        if known[j].0.eq(t) {
            assert(kv[j as int].0 == t@);
            return true;
        }
        j += 1;
    }
    false
}

/// Filters a batch's tokens down to those that no known alias covers.
pub fn unknown_tokens(found: &Vec<String>, known: &Vec<(String, Page)>) -> (r: Vec<String>)
    ensures
        r@.map_values(|s: String| s@) == spec_unknown_tokens(
            found@.map_values(|s: String| s@),
            spec_alias_keys(spec_entries_view(known@)),
        ),
{
    let ghost fv = found@.map_values(|s: String| s@);
    let ghost keys = spec_alias_keys(spec_entries_view(known@));
    let mut out: Vec<String> = Vec::new();
    let mut i: usize = 0;
    proof {
        assert(fv.skip(0) =~= fv);
        assert(out@.map_values(|s: String| s@) =~= Seq::<Seq<char>>::empty());
        assert(spec_unknown_tokens(fv, keys) =~= out@.map_values(|s: String| s@)
            + spec_unknown_tokens(fv.skip(0), keys));
    }
    while i < found.len()
        invariant
            i <= found@.len(),
            fv == found@.map_values(|s: String| s@),
            fv.len() == found@.len(),
            keys == spec_alias_keys(spec_entries_view(known@)),
            spec_unknown_tokens(fv, keys) == out@.map_values(|s: String| s@)
                + spec_unknown_tokens(fv.skip(i as int), keys),
        decreases found@.len() - i,
    {
        let ghost old_out = out@;
        proof {
            assert(fv.skip(i as int).first() == fv[i as int]);
            assert(fv.skip(i as int).drop_first() =~= fv.skip(i + 1));
        }
        let token = &found[i];
        if !contains_alias(known, token) {
            out.push(token.clone());
            proof {
                assert(out@.map_values(|s: String| s@) =~= old_out.map_values(|s: String| s@).push(
                    fv[i as int],
                ));
                assert(spec_unknown_tokens(fv.skip(i as int), keys) =~= seq![fv[i as int]]
                    + spec_unknown_tokens(fv.skip(i + 1), keys));
            }
        } else {
            proof {
                assert(spec_unknown_tokens(fv.skip(i as int), keys) == spec_unknown_tokens(
                    fv.skip(i + 1),
                    keys,
                ));
            }
        }
        i += 1;
    }
    proof {
        assert(fv.skip(fv.len() as int) =~= Seq::<Seq<char>>::empty());
        assert(spec_unknown_tokens(fv, keys) =~= out@.map_values(|s: String| s@));
    }
    out
}

/// Builds the token-to-id table the edge build joins against: the known
/// aliases first, then the aliases of this cycle's resolved links.
pub fn build_alias_map(known: &Vec<(String, Page)>, new_aliases: &Vec<(String, usize)>) -> (r: Vec<
    (String, usize),
>)
    ensures
        spec_table_view(r@) == spec_entries_view(known@).map_values(
            |e: (Seq<char>, (int, Seq<char>))| (e.0, e.1.0),
        ) + spec_table_view(new_aliases@),
{
    let ghost km = spec_entries_view(known@).map_values(
        |e: (Seq<char>, (int, Seq<char>))| (e.0, e.1.0),
    );
    let mut out: Vec<(String, usize)> = Vec::new();
    let mut i: usize = 0;
    proof {
        assert(spec_table_view(out@) =~= km.take(0));
    }
    while i < known.len()
        invariant
            i <= known@.len(),
            km == spec_entries_view(known@).map_values(
                |e: (Seq<char>, (int, Seq<char>))| (e.0, e.1.0),
            ),
            km.len() == known@.len(),
            spec_table_view(out@) == km.take(i as int),
        decreases known@.len() - i,
    {
        let ghost old_out = out@;
        out.push((known[i].0.clone(), known[i].1.id));
        proof {
            assert(spec_entries_view(known@)[i as int] == (known@[i as int].0@, known@[i as int].1@));
            assert(km[i as int] == (known@[i as int].0@, known@[i as int].1.id as int));
            assert(spec_table_view(out@) =~= spec_table_view(old_out).push(
                (known@[i as int].0@, known@[i as int].1.id as int),
            ));
            assert(km.take(i + 1) =~= km.take(i as int).push(km[i as int]));
            assert(spec_table_view(out@) =~= km.take(i + 1));
        }
        i += 1;
    }
    proof {
        assert(km.take(km.len() as int) =~= km);
    }
    let ghost nm = spec_table_view(new_aliases@);
    let mut j: usize = 0;
    proof {
        assert(km + nm.take(0) =~= km);
    }
    while j < new_aliases.len()
        invariant
            j <= new_aliases@.len(),
            km == spec_entries_view(known@).map_values(
                |e: (Seq<char>, (int, Seq<char>))| (e.0, e.1.0),
            ),
            nm == spec_table_view(new_aliases@),
            nm.len() == new_aliases@.len(),
            spec_table_view(out@) == km + nm.take(j as int),
        decreases new_aliases@.len() - j,
    {
        let ghost old_out = out@;
        out.push((new_aliases[j].0.clone(), new_aliases[j].1));
        proof {
            assert(nm[j as int] == (new_aliases@[j as int].0@, new_aliases@[j as int].1 as int));
            assert(spec_table_view(out@) =~= spec_table_view(old_out).push(nm[j as int]));
            assert(nm.take(j + 1) =~= nm.take(j as int).push(nm[j as int]));
            assert(spec_table_view(out@) =~= km + nm.take(j + 1));
        }
        j += 1;
    }
    proof {
        assert(nm.take(nm.len() as int) =~= nm);
    }
    out
}

/// What one merge commits: the page rows, the alias rows, and the edge rows.
pub struct MergeOutput {
    pub new_pages: Vec<Page>,
    pub new_aliases: Vec<(String, usize)>,
    pub edges: Vec<Link>,
}

/// Runs one cycle's merge: builds the alias rows of every resolved link, the
/// deduplicated genuinely-new page rows, and the deduplicated edge rows
/// joined against known and resolved aliases together.
pub fn merge_batch(
    results: &Vec<(Page, Vec<(String, String)>)>,
    known: &Vec<(String, Page)>,
    resolved: &Vec<(String, Page)>,
    existing_ids: &Vec<usize>,
) -> (r: MergeOutput)
    ensures
        r.new_aliases@.map_values(|e: (String, usize)| (e.0@, e.1 as int)) == spec_new_aliases(
            spec_entries_view(resolved@),
        ),
        r.new_pages@.map_values(|p: Page| p@) == spec_new_pages(
            spec_entries_view(resolved@),
            spec_id_set(existing_ids@),
            Set::empty(),
        ),
        forall|a: int, b: int|
            0 <= a < b < r.new_pages@.len() ==> (#[trigger] r.new_pages@[a]).id != (
            #[trigger] r.new_pages@[b]).id,
        r.edges@.map_values(|l: Link| l@) == spec_merge_edges_acc(
            spec_results_view(results@),
            spec_alias_map(spec_entries_view(known@), spec_entries_view(resolved@)),
            Set::empty(),
        ),
        forall|a: int, b: int|
            0 <= a < b < r.edges@.len() ==> !((#[trigger] r.edges@[a]).linker == (
            #[trigger] r.edges@[b]).linker && r.edges@[a].linked == r.edges@[b].linked),
        forall|j: int|
            0 <= j < r.edges@.len() ==> exists|q: int|
                0 <= q < results@.len() && (#[trigger] r.edges@[j]).linker == (
                #[trigger] results@[q]).0.id,
{
    let new_aliases = build_aliases(resolved);
    let new_pages = build_new_pages(resolved, existing_ids);
    let amap = build_alias_map(known, &new_aliases);
    proof {
        assert(spec_table_view(amap@) == spec_alias_map(
            spec_entries_view(known@),
            spec_entries_view(resolved@),
        ));
    }
    let edges = build_edges(results, &amap);
    MergeOutput { new_pages, new_aliases, edges }
}

} // verus!

verus! {

fn clone_pairs(v: &Vec<(String, String)>) -> (r: Vec<(String, String)>)
    ensures
        r@.len() == v@.len(),
        spec_pairs_view(r@) == spec_pairs_view(v@),
{
    let mut out: Vec<(String, String)> = Vec::new();
    let mut i: usize = 0;
    proof {
        assert(spec_pairs_view(out@) =~= spec_pairs_view(v@).take(0));
    }
    while i < v.len()
        invariant
            i <= v@.len(),
            out@.len() == i,
            spec_pairs_view(out@) == spec_pairs_view(v@).take(i as int),
        decreases v@.len() - i,
    {
        let ghost old_out = out@;
        out.push((v[i].0.clone(), v[i].1.clone()));
        proof {
            assert(spec_pairs_view(out@) =~= spec_pairs_view(old_out).push(
                (v@[i as int].0@, v@[i as int].1@),
            ));
            assert(spec_pairs_view(v@).take(i + 1) =~= spec_pairs_view(v@).take(i as int).push(
                spec_pairs_view(v@)[i as int],
            ));
        }
        i += 1;
    }
    proof {
        assert(spec_pairs_view(v@).take(v@.len() as int) =~= spec_pairs_view(v@));
    }
    out
}

/// One cycle's split of its batch: the pages whose exploration produced
/// usable links, and the pages to be marked bugged.
pub struct CyclePartition {
    pub explored: Vec<(Page, Vec<(String, String)>)>,
    pub bugged: Vec<Page>,
}

/// The explored side of a batch's outcomes: the pages whose exploration
/// produced at least one usable link, in batch order, with their links.
pub open spec fn spec_explored_part(
    ov: Seq<((int, Seq<char>), Seq<(Seq<char>, Seq<char>)>)>,
) -> Seq<((int, Seq<char>), Seq<(Seq<char>, Seq<char>)>)>
    decreases ov.len(),
{
    if ov.len() == 0 {
        Seq::empty()
    } else {
        let rest = spec_explored_part(ov.drop_first());
        if ov.first().1.len() > 0 {
            seq![ov.first()] + rest
        } else {
            rest
        }
    }
}

/// The bugged side of a batch's outcomes: the pages whose exploration
/// produced no usable link, in batch order.
pub open spec fn spec_bugged_part(
    ov: Seq<((int, Seq<char>), Seq<(Seq<char>, Seq<char>)>)>,
) -> Seq<(int, Seq<char>)>
    decreases ov.len(),
{
    if ov.len() == 0 {
        Seq::empty()
    } else {
        let rest = spec_bugged_part(ov.drop_first());
        if ov.first().1.len() == 0 {
            seq![ov.first().0] + rest
        } else {
            rest
        }
    }
}

/// Splits a batch's explore outcomes: a page with usable links is explored,
/// a page without any is bugged.
pub fn partition_outcomes(outcomes: &Vec<(Page, Vec<(String, String)>)>) -> (r: CyclePartition)
    ensures
        spec_results_view(r.explored@) == spec_explored_part(spec_results_view(outcomes@)),
        r.bugged@.map_values(|p: Page| p@) == spec_bugged_part(spec_results_view(outcomes@)),
{
    let ghost ov = spec_results_view(outcomes@);
    let mut explored: Vec<(Page, Vec<(String, String)>)> = Vec::new();
    let mut bugged: Vec<Page> = Vec::new();
    let mut i: usize = 0;
    proof {
        assert(ov.skip(0) =~= ov);
        assert(spec_results_view(explored@) =~= Seq::<
            ((int, Seq<char>), Seq<(Seq<char>, Seq<char>)>),
        >::empty());
        assert(bugged@.map_values(|p: Page| p@) =~= Seq::<(int, Seq<char>)>::empty());
        assert(spec_explored_part(ov) =~= spec_results_view(explored@) + spec_explored_part(
            ov.skip(0),
        ));
        assert(spec_bugged_part(ov) =~= bugged@.map_values(|p: Page| p@) + spec_bugged_part(
            ov.skip(0),
        ));
    }
    while i < outcomes.len()
        invariant
            i <= outcomes@.len(),
            ov == spec_results_view(outcomes@),
            ov.len() == outcomes@.len(),
            spec_explored_part(ov) == spec_results_view(explored@) + spec_explored_part(
                ov.skip(i as int),
            ),
            spec_bugged_part(ov) == bugged@.map_values(|p: Page| p@) + spec_bugged_part(
                ov.skip(i as int),
            ),
        decreases outcomes@.len() - i,
    {
        let ghost old_explored = explored@;
        let ghost old_bugged = bugged@;
        proof {
            assert(ov.skip(i as int).first() == ov[i as int]);
            assert(ov.skip(i as int).drop_first() =~= ov.skip(i + 1));
        }
        let entry = &outcomes[i];
        if entry.1.len() > 0 {
            let links = clone_pairs(&entry.1);
            explored.push((entry.0.clone(), links));
            proof {
                assert(spec_results_view(explored@) =~= spec_results_view(old_explored).push(
                    ov[i as int],
                ));
                assert(spec_explored_part(ov.skip(i as int)) =~= seq![ov[i as int]]
                    + spec_explored_part(ov.skip(i + 1)));
                assert(spec_bugged_part(ov.skip(i as int)) == spec_bugged_part(ov.skip(i + 1)));
            }
        } else {
            bugged.push(entry.0.clone());
            proof {
                assert(bugged@.map_values(|p: Page| p@) =~= old_bugged.map_values(
                    |p: Page| p@,
                ).push(ov[i as int].0));
                assert(spec_bugged_part(ov.skip(i as int)) =~= seq![ov[i as int].0]
                    + spec_bugged_part(ov.skip(i + 1)));
                assert(spec_explored_part(ov.skip(i as int)) == spec_explored_part(
                    ov.skip(i + 1),
                ));
            }
        }
        i += 1;
    }
    proof {
        assert(ov.skip(ov.len() as int) =~= Seq::<
            ((int, Seq<char>), Seq<(Seq<char>, Seq<char>)>),
        >::empty());
        assert(spec_explored_part(ov) =~= spec_results_view(explored@));
        assert(spec_bugged_part(ov) =~= bugged@.map_values(|p: Page| p@));
    }
    CyclePartition { explored, bugged }
}

/// The page ids on the explored side of a partition.
pub open spec fn spec_part_ids(
    part: Seq<((int, Seq<char>), Seq<(Seq<char>, Seq<char>)>)>,
) -> Set<int> {
    Set::new(|x: int| exists|a: int| 0 <= a < part.len() && (#[trigger] part[a]).0.0 == x)
}

/// The page ids of a page sequence.
pub open spec fn spec_page_ids(pages: Seq<(int, Seq<char>)>) -> Set<int> {
    Set::new(|x: int| exists|a: int| 0 <= a < pages.len() && (#[trigger] pages[a]).0 == x)
}

proof fn lemma_explored_part_ids(ov: Seq<((int, Seq<char>), Seq<(Seq<char>, Seq<char>)>)>)
    ensures
        forall|x: int|
            spec_part_ids(spec_explored_part(ov)).contains(x) ==> exists|j: int|
                0 <= j < ov.len() && (#[trigger] ov[j]).0.0 == x,
    decreases ov.len(),
{
    if ov.len() > 0 {
        let rest = ov.drop_first();
        lemma_explored_part_ids(rest);
        let part = spec_explored_part(ov);
        assert forall|x: int| spec_part_ids(part).contains(x) implies exists|j: int|
            0 <= j < ov.len() && (#[trigger] ov[j]).0.0 == x by {
            let a = choose|a: int| 0 <= a < part.len() && (#[trigger] part[a]).0.0 == x;
            if ov.first().1.len() > 0 {
                if a == 0 {
                    assert(ov[0].0.0 == x);
                } else {
                    assert(part[a] == spec_explored_part(rest)[a - 1]);
                    assert(spec_part_ids(spec_explored_part(rest)).contains(x));
                    let j = choose|j: int| 0 <= j < rest.len() && (#[trigger] rest[j]).0.0 == x;
                    assert(ov[j + 1].0.0 == x);
                }
            } else {
                assert(part[a] == spec_explored_part(rest)[a]);
                assert(spec_part_ids(spec_explored_part(rest)).contains(x));
                let j = choose|j: int| 0 <= j < rest.len() && (#[trigger] rest[j]).0.0 == x;
                assert(ov[j + 1].0.0 == x);
            }
        }
    }
}

proof fn lemma_bugged_part_ids(ov: Seq<((int, Seq<char>), Seq<(Seq<char>, Seq<char>)>)>)
    ensures
        forall|x: int|
            spec_page_ids(spec_bugged_part(ov)).contains(x) ==> exists|j: int|
                0 <= j < ov.len() && (#[trigger] ov[j]).0.0 == x,
    decreases ov.len(),
{
    if ov.len() > 0 {
        let rest = ov.drop_first();
        lemma_bugged_part_ids(rest);
        let part = spec_bugged_part(ov);
        assert forall|x: int| spec_page_ids(part).contains(x) implies exists|j: int|
            0 <= j < ov.len() && (#[trigger] ov[j]).0.0 == x by {
            let a = choose|a: int| 0 <= a < part.len() && (#[trigger] part[a]).0 == x;
            if ov.first().1.len() == 0 {
                if a == 0 {
                    assert(ov[0].0.0 == x);
                } else {
                    assert(part[a] == spec_bugged_part(rest)[a - 1]);
                    assert(spec_page_ids(spec_bugged_part(rest)).contains(x));
                    let j = choose|j: int| 0 <= j < rest.len() && (#[trigger] rest[j]).0.0 == x;
                    assert(ov[j + 1].0.0 == x);
                }
            } else {
                assert(part[a] == spec_bugged_part(rest)[a]);
                assert(spec_page_ids(spec_bugged_part(rest)).contains(x));
                let j = choose|j: int| 0 <= j < rest.len() && (#[trigger] rest[j]).0.0 == x;
                assert(ov[j + 1].0.0 == x);
            }
        }
    }
}

/// For every page of a completed batch, exactly one of explored or bugged
/// holds afterward: the page's id is on the explored side exactly when its
/// exploration produced links, and on the bugged side exactly when it did
/// not — never both, never neither.
pub proof fn lemma_batch_exactly_one_status(
    ov: Seq<((int, Seq<char>), Seq<(Seq<char>, Seq<char>)>)>,
    j: int,
)
    requires
        0 <= j < ov.len(),
        forall|a: int, b: int|
            0 <= a < b < ov.len() ==> (#[trigger] ov[a]).0.0 != (#[trigger] ov[b]).0.0,
    ensures
        spec_part_ids(spec_explored_part(ov)).contains(ov[j].0.0) <==> ov[j].1.len() > 0,
        spec_page_ids(spec_bugged_part(ov)).contains(ov[j].0.0) <==> ov[j].1.len() == 0,
    decreases ov.len(),
{
    let rest = ov.drop_first();
    let epart = spec_explored_part(ov);
    let bpart = spec_bugged_part(ov);
    if j == 0 {
        lemma_explored_part_ids(rest);
        lemma_bugged_part_ids(rest);
        if ov.first().1.len() > 0 {
            assert(epart[0].0.0 == ov[0].0.0);
            assert(spec_part_ids(epart).contains(ov[0].0.0));
            if spec_page_ids(bpart).contains(ov[0].0.0) {
                assert(bpart == spec_bugged_part(rest));
                let j2 = choose|j2: int|
                    0 <= j2 < rest.len() && (#[trigger] rest[j2]).0.0 == ov[0].0.0;
                assert(ov[j2 + 1].0.0 == ov[0].0.0);
                assert(false);
            }
        } else {
            assert(bpart[0] == ov[0].0);
            assert(spec_page_ids(bpart).contains(ov[0].0.0));
            if spec_part_ids(epart).contains(ov[0].0.0) {
                assert(epart == spec_explored_part(rest));
                let j2 = choose|j2: int|
                    0 <= j2 < rest.len() && (#[trigger] rest[j2]).0.0 == ov[0].0.0;
                assert(ov[j2 + 1].0.0 == ov[0].0.0);
                assert(false);
            }
        }
    } else {
        assert(forall|a: int, b: int|
            0 <= a < b < rest.len() ==> (#[trigger] rest[a]).0.0 != (#[trigger] rest[b]).0.0);
        lemma_batch_exactly_one_status(rest, j - 1);
        assert(rest[j - 1] == ov[j]);
        let id = ov[j].0.0;
        let erest = spec_explored_part(rest);
        let brest = spec_bugged_part(rest);
        if ov.first().1.len() > 0 {
            assert(epart =~= seq![ov.first()] + erest);
            assert(bpart == brest);
            assert forall|x: int| spec_part_ids(erest).contains(x) implies spec_part_ids(
                epart,
            ).contains(x) by {
                let a = choose|a: int| 0 <= a < erest.len() && (#[trigger] erest[a]).0.0 == x;
                assert(epart[a + 1].0.0 == x);
            }
            if spec_part_ids(epart).contains(id) && !spec_part_ids(erest).contains(id) {
                let a = choose|a: int| 0 <= a < epart.len() && (#[trigger] epart[a]).0.0 == id;
                if a == 0 {
                    assert(ov[0].0.0 != ov[j].0.0);
                    assert(false);
                } else {
                    assert(epart[a] == erest[a - 1]);
                    assert(spec_part_ids(erest).contains(id));
                    assert(false);
                }
            }
        } else {
            assert(bpart =~= seq![ov.first().0] + brest);
            assert(epart == erest);
            assert forall|x: int| spec_page_ids(brest).contains(x) implies spec_page_ids(
                bpart,
            ).contains(x) by {
                let a = choose|a: int| 0 <= a < brest.len() && (#[trigger] brest[a]).0 == x;
                assert(bpart[a + 1].0 == x);
            }
            if spec_page_ids(bpart).contains(id) && !spec_page_ids(brest).contains(id) {
                let a = choose|a: int| 0 <= a < bpart.len() && (#[trigger] bpart[a]).0 == id;
                if a == 0 {
                    assert(ov[0].0.0 != ov[j].0.0);
                    assert(false);
                } else {
                    assert(bpart[a] == brest[a - 1]);
                    assert(spec_page_ids(brest).contains(id));
                    assert(false);
                }
            }
        }
    }
}

} // verus!
