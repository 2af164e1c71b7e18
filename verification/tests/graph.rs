// Tests for the graph merger, the query text builders and the path finder.
use wikicrawl::Page;
use wikicrawl::merge::Link;
use wikicrawl::merge::build_alias_map;
use wikicrawl::merge::build_aliases;
use wikicrawl::merge::collect_batch_links;
use wikicrawl::merge::merge_batch;
use wikicrawl::merge::partition_outcomes;
use wikicrawl::merge::unknown_tokens;
use wikicrawl::path::PathSearch;
use wikicrawl::path::chunks_of;
use wikicrawl::path::resolve_titles;
use wikicrawl::queries::delete_stale_links_query;
use wikicrawl::queries::insert_aliases_query;
use wikicrawl::queries::insert_links_query;
use wikicrawl::queries::insert_pages_query;
use wikicrawl::queries::mark_bugged_query;
use wikicrawl::queries::mark_explored_query;
use wikicrawl::queries::page_lookup_query;
use wikicrawl::queries::select_existing_ids_query;
use wikicrawl::queries::select_known_aliases_query;
use wikicrawl::queries::select_links_query;
use wikicrawl::queries::select_titles_query;
use wikicrawl::queries::select_unexplored_query;

fn page(id: usize, title: &str) -> Page {
    Page { id, title: String::from(title) }
}

fn pair(a: &str, b: &str) -> (String, String) {
    (String::from(a), String::from(b))
}

#[test]
fn alias_collision_yields_one_page_two_aliases_one_edge() {
    // One explored page whose two tokens resolve to the same new page.
    let results = vec![(page(1, "Start"), vec![pair("foo", "Foo"), pair("bar", "Bar")])];
    let known: Vec<(String, Page)> = Vec::new();
    let resolved = vec![
        (String::from("foo"), page(2, "Target")),
        (String::from("bar"), page(2, "Target")),
    ];
    let existing: Vec<usize> = Vec::new();
    let out = merge_batch(&results, &known, &resolved, &existing);
    assert_eq!(out.new_pages.len(), 1);
    assert_eq!(out.new_pages[0].id, 2);
    assert_eq!(out.new_pages[0].title, "Target");
    assert_eq!(out.new_aliases.len(), 2);
    assert_eq!(out.new_aliases[0], (String::from("foo"), 2));
    assert_eq!(out.new_aliases[1], (String::from("bar"), 2));
    assert_eq!(out.edges.len(), 1);
    assert_eq!(out.edges[0].linker, 1);
    assert_eq!(out.edges[0].linked, 2);
    assert_eq!(out.edges[0].display, "Foo");
}

#[test]
fn edges_dedup_on_linker_linked_across_spellings() {
    let results = vec![
        (page(1, "A"), vec![pair("foo", "Foo"), pair("bar", "Bar"), pair("baz", "Baz")]),
        (page(5, "B"), vec![pair("foo", "Foo2")]),
    ];
    let known = vec![(String::from("baz"), page(9, "Old"))];
    let resolved = vec![
        (String::from("foo"), page(2, "T")),
        (String::from("bar"), page(2, "T")),
    ];
    let existing: Vec<usize> = Vec::new();
    let out = merge_batch(&results, &known, &resolved, &existing);
    let keys: Vec<(usize, usize)> = out.edges.iter().map(|l| (l.linker, l.linked)).collect();
    assert_eq!(keys, vec![(1, 2), (1, 9), (5, 2)]);
    for a in 0..keys.len() {
        for b in (a + 1)..keys.len() {
            assert_ne!(keys[a], keys[b]);
        }
    }
}

#[test]
fn rediscovered_pages_are_not_inserted_again() {
    let results = vec![(page(1, "A"), vec![pair("foo", "Foo")])];
    let known: Vec<(String, Page)> = Vec::new();
    let resolved = vec![(String::from("foo"), page(2, "T"))];
    let existing = vec![2];
    let out = merge_batch(&results, &known, &resolved, &existing);
    assert_eq!(out.new_pages.len(), 0);
    assert_eq!(out.new_aliases.len(), 1);
    assert_eq!(out.edges.len(), 1);
    assert_eq!(out.edges[0].linked, 2);
}

#[test]
fn resolver_sentinel_id_is_dropped() {
    let results = vec![(page(1, "A"), vec![pair("foo", "Foo")])];
    let known: Vec<(String, Page)> = Vec::new();
    let resolved = vec![(String::from("foo"), page(0, "Bad"))];
    let existing: Vec<usize> = Vec::new();
    let out = merge_batch(&results, &known, &resolved, &existing);
    assert_eq!(out.new_pages.len(), 0);
    assert_eq!(out.new_aliases.len(), 0);
    assert_eq!(out.edges.len(), 0);
}

#[test]
fn merge_is_deterministic_on_same_input() {
    let results = vec![(page(1, "A"), vec![pair("foo", "Foo"), pair("bar", "Bar")])];
    let known = vec![(String::from("bar"), page(3, "Known"))];
    let resolved = vec![(String::from("foo"), page(2, "T"))];
    let existing: Vec<usize> = Vec::new();
    let once = merge_batch(&results, &known, &resolved, &existing);
    let twice = merge_batch(&results, &known, &resolved, &existing);
    let k1: Vec<(usize, usize, String)> =
        once.edges.iter().map(|l| (l.linker, l.linked, l.display.clone())).collect();
    let k2: Vec<(usize, usize, String)> =
        twice.edges.iter().map(|l| (l.linker, l.linked, l.display.clone())).collect();
    assert_eq!(k1, k2);
}

#[test]
fn collects_distinct_tokens_across_batch() {
    let results = vec![
        (page(1, "A"), vec![pair("foo", "x"), pair("bar", "y")]),
        (page(2, "B"), vec![pair("bar", "z"), pair("baz", "w")]),
    ];
    let tokens = collect_batch_links(&results);
    assert_eq!(tokens, vec!["foo", "bar", "baz"]);
}

#[test]
fn unknown_tokens_drop_known_aliases() {
    let found = vec![String::from("foo"), String::from("bar"), String::from("baz")];
    let known = vec![(String::from("bar"), page(3, "K"))];
    assert_eq!(unknown_tokens(&found, &known), vec!["foo", "baz"]);
}

#[test]
fn alias_map_prefers_known_entries() {
    let known = vec![(String::from("foo"), page(3, "K"))];
    let new_aliases = build_aliases(&vec![(String::from("bar"), page(4, "N"))]);
    let amap = build_alias_map(&known, &new_aliases);
    assert_eq!(amap, vec![(String::from("foo"), 3), (String::from("bar"), 4)]);
}

#[test]
fn batch_pages_split_into_exactly_one_status() {
    // Three explored pages; one produced no usable links and is bugged.
    let outcomes = vec![
        (page(1, "A"), vec![pair("foo", "x")]),
        (page(2, "B"), Vec::new()),
        (page(3, "C"), vec![pair("bar", "y")]),
    ];
    let split = partition_outcomes(&outcomes);
    assert_eq!(split.explored.len(), 2);
    assert_eq!(split.bugged.len(), 1);
    assert_eq!(split.explored[0].0.id, 1);
    assert_eq!(split.explored[1].0.id, 3);
    assert_eq!(split.bugged[0].id, 2);
    for e in split.explored.iter() {
        for b in split.bugged.iter() {
            assert_ne!(e.0.id, b.id);
        }
    }
}

#[test]
fn query_texts_are_exact() {
    assert_eq!(
        select_unexplored_query(10),
        "SELECT id, title FROM Pages WHERE explored = false AND bugged = false ORDER BY id ASC LIMIT 10;"
    );
    assert_eq!(
        delete_stale_links_query(&vec![1, 2]),
        "DELETE FROM Links WHERE linker IN (1, 2);"
    );
    assert_eq!(mark_bugged_query(&vec![4, 5]), "UPDATE Pages SET bugged = TRUE WHERE id IN (4,5);");
    assert_eq!(
        mark_explored_query(&vec![1, 3]),
        "UPDATE Pages SET explored = TRUE WHERE id IN (1, 3);"
    );
    assert_eq!(
        select_known_aliases_query(&vec![String::from("fo\"o"), String::from("bar")]),
        "SELECT Alias.alias, Pages.id, Pages.title FROM Pages JOIN Alias ON Pages.id = Alias.id WHERE alias IN (\"fo\"\"o\", \"bar\");"
    );
    assert_eq!(select_existing_ids_query(&vec![7]), "SELECT id FROM Pages WHERE id IN (7);");
    assert_eq!(
        insert_pages_query(&vec![page(5, "a\"b")]),
        "INSERT INTO Pages (id, title) VALUES (5, \"a\"\"b\");"
    );
    assert_eq!(
        insert_aliases_query(&vec![(String::from("foo"), 5)]),
        "INSERT INTO Alias (alias, id) VALUES (\"foo\",5);"
    );
    assert_eq!(
        insert_links_query(&vec![Link { linker: 1, linked: 2, display: String::from("D") }]),
        "INSERT INTO Links (linker, linked, display) VALUES (1,2,\"D\");"
    );
    assert_eq!(select_links_query(&vec![1, 2]), "SELECT * FROM Links WHERE linker IN (1,2);");
    assert_eq!(select_titles_query(&vec![3]), "SELECT id,title from Pages where id IN (3);");
}

#[test]
fn page_lookup_query_interpolates_escaped_title() {
    let q = page_lookup_query(&String::from("tour eiffel"));
    assert!(q.contains("WHERE MATCH(title) AGAINST ('tour eiffel' IN BOOLEAN MODE)"));
    assert!(q.contains("WHERE MATCH(alias) AGAINST ('tour eiffel' IN BOOLEAN MODE)"));
    assert!(q.contains("WHERE title = 'tour eiffel' OR alias = 'tour eiffel';"));
}

fn edge(a: usize, b: usize, d: &str) -> (usize, usize, String) {
    (a, b, String::from(d))
}

#[test]
fn direct_edge_in_same_layer_wins_over_two_step_path() {
    // start -> a -> end and start -> end: the one-edge path is returned.
    let mut search = PathSearch::new(1);
    let found = search.process_layer(&vec![edge(1, 2, "via"), edge(1, 3, "direct")], 3);
    assert!(found);
    let path = search.backtrack(3).expect("end page was discovered");
    let ids: Vec<usize> = path.iter().map(|p| p.0).collect();
    assert_eq!(ids, vec![1, 3]);
    assert_eq!(path[0].1, "direct");
}

#[test]
fn first_processed_predecessor_wins_in_a_layer() {
    // Two edges into the end from different linkers in the same layer: the
    // recorded predecessor is the first one in that layer's result set.
    let mut search = PathSearch::new(1);
    let found1 = search.process_layer(&vec![edge(1, 2, "x"), edge(1, 4, "y")], 9);
    assert!(!found1);
    let found2 = search.process_layer(&vec![edge(2, 9, "from2"), edge(4, 9, "from4")], 9);
    assert!(found2);
    let path = search.backtrack(9).expect("end page was discovered");
    let ids: Vec<usize> = path.iter().map(|p| p.0).collect();
    assert_eq!(ids, vec![1, 2, 9]);
    assert_eq!(path[0].1, "x");
    assert_eq!(path[1].1, "from2");
    assert_eq!(path[2].1, "");
}

#[test]
fn disconnected_search_empties_its_frontier() {
    // No edge ever reaches the end: the frontier empties and the search
    // reports no path instead of looping.
    let mut search = PathSearch::new(1);
    let mut rounds: usize = 0;
    let mut found = search.process_layer(&vec![edge(1, 2, "x")], 99);
    while !found && !search.frontier_exhausted() {
        // The frontier now holds only pages never seen before; with no new
        // edges it empties on the next layer.
        found = search.process_layer(&Vec::new(), 99);
        rounds += 1;
        assert!(rounds < 10);
    }
    assert!(!found);
    assert!(search.frontier_exhausted());
}

#[test]
fn backtrack_without_discovery_reports_no_path() {
    let search = PathSearch::new(1);
    assert!(search.backtrack(5).is_none());
}

#[test]
fn frontier_chunks_bound_query_size() {
    let chunks = chunks_of(&vec![1, 2, 3, 4, 5], 2);
    assert_eq!(chunks, vec![vec![1, 2], vec![3, 4], vec![5]]);
}

#[test]
fn titles_resolve_along_the_path() {
    let path = vec![(1, String::from("x")), (3, String::new())];
    let rows = vec![(1, String::from("One")), (3, String::from("Three"))];
    let out = resolve_titles(&path, &rows).expect("all ids have titles");
    assert_eq!(out.len(), 2);
    assert_eq!(out[0].0.id, 1);
    assert_eq!(out[0].0.title, "One");
    assert_eq!(out[0].1, "x");
    assert_eq!(out[1].0.title, "Three");
    let missing = resolve_titles(&path, &vec![(1, String::from("One"))]);
    assert!(missing.is_none());
}

#[test]
fn rerunning_a_merge_commit_leaves_the_edge_table_unchanged() {
    // The edge table modelled as its (linker, linked) pairs: a commit
    // deletes the batch's stale edges, then inserts the merged ones. A
    // re-run of the same merge after a crash lands on the same table.
    let results = vec![(page(1, "A"), vec![pair("foo", "Foo"), pair("bar", "Bar")])];
    let known = vec![(String::from("bar"), page(3, "Known"))];
    let resolved = vec![(String::from("foo"), page(2, "T"))];
    let existing: Vec<usize> = Vec::new();
    let merged = merge_batch(&results, &known, &resolved, &existing);
    let batch = vec![1usize];

    let commit = |table: &Vec<(usize, usize)>| -> Vec<(usize, usize)> {
        let mut t: Vec<(usize, usize)> =
            table.iter().cloned().filter(|e| !batch.contains(&e.0)).collect();
        for l in merged.edges.iter() {
            if !t.contains(&(l.linker, l.linked)) {
                t.push((l.linker, l.linked));
            }
        }
        t
    };

    // A stale half-written edge from the crashed run, and an unrelated one.
    let table = vec![(1usize, 7usize), (9usize, 1usize)];
    let once = commit(&table);
    let twice = commit(&once);
    assert_eq!(once, twice);
    assert!(once.contains(&(1, 2)));
    assert!(once.contains(&(1, 3)));
    assert!(once.contains(&(9, 1)));
    assert!(!once.contains(&(1, 7)));
}
