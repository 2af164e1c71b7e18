//! The query text the crawl pipeline and the path finder hand to storage:
//! frontier selection, stale-edge deletion, status marks, alias and
//! existence lookups, the batch inserts of pages, aliases and edges, the
//! per-layer edge selection, and the page lookup by name. Every builder's
//! contract gives the exact text, with tokens escaped for a double-quoted
//! literal.
use vstd::prelude::*;

use crate::Page;
use crate::format_link_for_mysql;
use crate::merge::Link;
use crate::spec_escape_mysql;
use crate::text::join_strings;
use crate::text::spec_decimal;
use crate::text::spec_join;
use crate::text::usize_to_string;

verus! {

/// The decimal forms of a list of page ids.
pub open spec fn spec_id_list(ids: Seq<usize>) -> Seq<Seq<char>> {
    ids.map_values(|u: usize| spec_decimal(u as int))
}

fn render_ids(ids: &Vec<usize>) -> (r: Vec<String>)
    ensures
        r@.map_values(|s: String| s@) == spec_id_list(ids@),
{
    let ghost target = spec_id_list(ids@);
    let mut out: Vec<String> = Vec::new();
    let mut i: usize = 0;
    proof {
        assert(out@.map_values(|s: String| s@) =~= target.take(0));
    }
    while i < ids.len()
        invariant
            i <= ids@.len(),
            target == spec_id_list(ids@),
            target.len() == ids@.len(),
            out@.map_values(|s: String| s@) == target.take(i as int),
        decreases ids@.len() - i,
    {
        let ghost old_out = out@;
        out.push(usize_to_string(ids[i]));
        proof {
            assert(out@.map_values(|s: String| s@) =~= old_out.map_values(|s: String| s@).push(
                target[i as int],
            ));
            assert(target.take(i + 1) =~= target.take(i as int).push(target[i as int]));
        }
        i += 1;
    }
    proof {
        assert(target.take(target.len() as int) =~= target);
    }
    out
}

/// A token as a double-quoted literal, with its content escaped.
pub open spec fn spec_quoted(t: Seq<char>) -> Seq<char> {
    "\""@ + spec_escape_mysql(t) + "\""@
}

pub open spec fn spec_quoted_list(links: Seq<String>) -> Seq<Seq<char>> {
    links.map_values(|s: String| spec_quoted(s@))
}

fn render_quoted_links(links: &Vec<String>) -> (r: Vec<String>)
    ensures
        r@.map_values(|s: String| s@) == spec_quoted_list(links@),
{
    let ghost target = spec_quoted_list(links@);
    let mut out: Vec<String> = Vec::new();
    let mut i: usize = 0;
    proof {
        assert(out@.map_values(|s: String| s@) =~= target.take(0));
    }
    while i < links.len()
        invariant
            i <= links@.len(),
            target == spec_quoted_list(links@),
            target.len() == links@.len(),
            out@.map_values(|s: String| s@) == target.take(i as int),
        decreases links@.len() - i,
    {
        let ghost old_out = out@;
        let mut row = String::new();
        row.append("\"");
        let escaped = format_link_for_mysql(&links[i]);
        row.append(escaped.as_str());
        row.append("\"");
        out.push(row);
        proof {
            assert(out@.map_values(|s: String| s@) =~= old_out.map_values(|s: String| s@).push(
                target[i as int],
            ));
            assert(target.take(i + 1) =~= target.take(i as int).push(target[i as int]));
        }
        i += 1;
    }
    proof {
        assert(target.take(target.len() as int) =~= target);
    }
    out
}

/// One page's insert row: its id and quoted escaped title.
pub open spec fn spec_page_row(p: (int, Seq<char>)) -> Seq<char> {
    "("@ + spec_decimal(p.0) + ", \""@ + spec_escape_mysql(p.1) + "\")"@
}

pub open spec fn spec_page_rows(pages: Seq<Page>) -> Seq<Seq<char>> {
    pages.map_values(|p: Page| spec_page_row(p@))
}

fn render_page_rows(pages: &Vec<Page>) -> (r: Vec<String>)
    ensures
        r@.map_values(|s: String| s@) == spec_page_rows(pages@),
{
    let ghost target = spec_page_rows(pages@);
    let mut out: Vec<String> = Vec::new();
    let mut i: usize = 0;
    proof {
        assert(out@.map_values(|s: String| s@) =~= target.take(0));
    }
    while i < pages.len()
        invariant
            i <= pages@.len(),
            target == spec_page_rows(pages@),
            target.len() == pages@.len(),
            out@.map_values(|s: String| s@) == target.take(i as int),
        decreases pages@.len() - i,
    {
        let ghost old_out = out@;
        let mut row = String::new();
        row.append("(");
        let id_str = usize_to_string(pages[i].id);
        row.append(id_str.as_str());
        row.append(", \"");
        let escaped = format_link_for_mysql(&pages[i].title);
        row.append(escaped.as_str());
        row.append("\")");
        out.push(row);
        proof {
            assert(out@.map_values(|s: String| s@) =~= old_out.map_values(|s: String| s@).push(
                target[i as int],
            ));
            assert(target.take(i + 1) =~= target.take(i as int).push(target[i as int]));
        }
        i += 1;
    }
    proof {
        assert(target.take(target.len() as int) =~= target);
    }
    out
}

/// One alias's insert row: its quoted escaped token and its page id.
pub open spec fn spec_alias_row(e: (Seq<char>, int)) -> Seq<char> {
    "(\""@ + spec_escape_mysql(e.0) + "\","@ + spec_decimal(e.1) + ")"@
}

pub open spec fn spec_alias_rows(aliases: Seq<(String, usize)>) -> Seq<Seq<char>> {
    aliases.map_values(|e: (String, usize)| spec_alias_row((e.0@, e.1 as int)))
}

fn render_alias_rows(aliases: &Vec<(String, usize)>) -> (r: Vec<String>)
    ensures
        r@.map_values(|s: String| s@) == spec_alias_rows(aliases@),
{
    let ghost target = spec_alias_rows(aliases@);
    let mut out: Vec<String> = Vec::new();
    let mut i: usize = 0;
    proof {
        assert(out@.map_values(|s: String| s@) =~= target.take(0));
    }
    while i < aliases.len()
        invariant
            i <= aliases@.len(),
            target == spec_alias_rows(aliases@),
            target.len() == aliases@.len(),
            out@.map_values(|s: String| s@) == target.take(i as int),
        decreases aliases@.len() - i,
    {
        let ghost old_out = out@;
        let mut row = String::new();
        row.append("(\"");
        let escaped = format_link_for_mysql(&aliases[i].0);
        row.append(escaped.as_str());
        row.append("\",");
        let id_str = usize_to_string(aliases[i].1);
        row.append(id_str.as_str());
        row.append(")");
        out.push(row);
        proof {
            assert(out@.map_values(|s: String| s@) =~= old_out.map_values(|s: String| s@).push(
                target[i as int],
            ));
            assert(target.take(i + 1) =~= target.take(i as int).push(target[i as int]));
        }
        i += 1;
    }
    proof {
        assert(target.take(target.len() as int) =~= target);
    }
    out
}

/// One edge's insert row: linker, linked, and the quoted escaped display.
pub open spec fn spec_link_row(l: (int, int, Seq<char>)) -> Seq<char> {
    "("@ + spec_decimal(l.0) + ","@ + spec_decimal(l.1) + ",\""@ + spec_escape_mysql(l.2)
        + "\")"@
}

pub open spec fn spec_link_rows(edges: Seq<Link>) -> Seq<Seq<char>> {
    edges.map_values(|l: Link| spec_link_row(l@))
}

fn render_link_rows(edges: &Vec<Link>) -> (r: Vec<String>)
    ensures
        r@.map_values(|s: String| s@) == spec_link_rows(edges@),
{
    let ghost target = spec_link_rows(edges@);
    let mut out: Vec<String> = Vec::new();
    let mut i: usize = 0;
    proof {
        assert(out@.map_values(|s: String| s@) =~= target.take(0));
    }
    while i < edges.len()
        invariant
            i <= edges@.len(),
            target == spec_link_rows(edges@),
            target.len() == edges@.len(),
            out@.map_values(|s: String| s@) == target.take(i as int),
        decreases edges@.len() - i,
    {
        let ghost old_out = out@;
        let mut row = String::new();
        row.append("(");
        let linker_str = usize_to_string(edges[i].linker);
        row.append(linker_str.as_str());
        row.append(",");
        let linked_str = usize_to_string(edges[i].linked);
        row.append(linked_str.as_str());
        row.append(",\"");
        let escaped = format_link_for_mysql(&edges[i].display);
        row.append(escaped.as_str());
        row.append("\")");
        out.push(row);
        proof {
            assert(out@.map_values(|s: String| s@) =~= old_out.map_values(|s: String| s@).push(
                target[i as int],
            ));
            assert(target.take(i + 1) =~= target.take(i as int).push(target[i as int]));
        }
        i += 1;
    }
    proof {
        assert(target.take(target.len() as int) =~= target);
    }
    out
}

/// Selects the next frontier batch: unexplored pages by ascending id, at
/// most `limit` of them.
pub fn select_unexplored_query(limit: usize) -> (r: String)
    ensures
        r@ == "SELECT id, title FROM Pages WHERE explored = false AND bugged = false ORDER BY id ASC LIMIT "@
            + spec_decimal(limit as int) + ";"@,
{
    let mut out = String::new();
    out.append(
        "SELECT id, title FROM Pages WHERE explored = false AND bugged = false ORDER BY id ASC LIMIT ",
    );
    let n = usize_to_string(limit);
    out.append(n.as_str());
    out.append(";");
    out
}

/// Deletes the edges a prior crashed run may have left for the batch.
pub fn delete_stale_links_query(ids: &Vec<usize>) -> (r: String)
    ensures
        r@ == "DELETE FROM Links WHERE linker IN ("@ + spec_join(spec_id_list(ids@), ", "@)
            + ");"@,
{
    let parts = render_ids(ids);
    let joined = join_strings(&parts, ", ");
    let mut out = String::new();
    out.append("DELETE FROM Links WHERE linker IN (");
    out.append(joined.as_str());
    out.append(");");
    out
}

/// Marks the batch's failed pages bugged.
pub fn mark_bugged_query(ids: &Vec<usize>) -> (r: String)
    ensures
        r@ == "UPDATE Pages SET bugged = TRUE WHERE id IN ("@ + spec_join(
            spec_id_list(ids@),
            ","@,
        ) + ");"@,
{
    let parts = render_ids(ids);
    let joined = join_strings(&parts, ",");
    let mut out = String::new();
    out.append("UPDATE Pages SET bugged = TRUE WHERE id IN (");
    out.append(joined.as_str());
    out.append(");");
    out
}

/// Marks the batch's merged pages explored.
pub fn mark_explored_query(ids: &Vec<usize>) -> (r: String)
    ensures
        r@ == "UPDATE Pages SET explored = TRUE WHERE id IN ("@ + spec_join(
            spec_id_list(ids@),
            ", "@,
        ) + ");"@,
{
    let parts = render_ids(ids);
    let joined = join_strings(&parts, ", ");
    let mut out = String::new();
    out.append("UPDATE Pages SET explored = TRUE WHERE id IN (");
    out.append(joined.as_str());
    out.append(");");
    out
}

/// Looks the batch's tokens up among the known aliases.
pub fn select_known_aliases_query(links: &Vec<String>) -> (r: String)
    ensures
        r@ == "SELECT Alias.alias, Pages.id, Pages.title FROM Pages JOIN Alias ON Pages.id = Alias.id WHERE alias IN ("@
            + spec_join(spec_quoted_list(links@), ", "@) + ");"@,
{
    let parts = render_quoted_links(links);
    let joined = join_strings(&parts, ", ");
    let mut out = String::new();
    out.append(
        "SELECT Alias.alias, Pages.id, Pages.title FROM Pages JOIN Alias ON Pages.id = Alias.id WHERE alias IN (",
    );
    out.append(joined.as_str());
    out.append(");");
    out
}

/// Asks which resolved page ids storage already holds.
pub fn select_existing_ids_query(ids: &Vec<usize>) -> (r: String)
    ensures
        r@ == "SELECT id FROM Pages WHERE id IN ("@ + spec_join(spec_id_list(ids@), ","@)
            + ");"@,
{
    let parts = render_ids(ids);
    let joined = join_strings(&parts, ",");
    let mut out = String::new();
    out.append("SELECT id FROM Pages WHERE id IN (");
    out.append(joined.as_str());
    out.append(");");
    out
}

/// Inserts the merge's genuinely new pages.
pub fn insert_pages_query(pages: &Vec<Page>) -> (r: String)
    ensures
        r@ == "INSERT INTO Pages (id, title) VALUES "@ + spec_join(spec_page_rows(pages@), ","@)
            + ";"@,
{
    let parts = render_page_rows(pages);
    let joined = join_strings(&parts, ",");
    let mut out = String::new();
    out.append("INSERT INTO Pages (id, title) VALUES ");
    out.append(joined.as_str());
    out.append(";");
    out
}

/// Inserts the merge's alias rows.
pub fn insert_aliases_query(aliases: &Vec<(String, usize)>) -> (r: String)
    ensures
        r@ == "INSERT INTO Alias (alias, id) VALUES "@ + spec_join(
            spec_alias_rows(aliases@),
            ","@,
        ) + ";"@,
{
    let parts = render_alias_rows(aliases);
    let joined = join_strings(&parts, ",");
    let mut out = String::new();
    out.append("INSERT INTO Alias (alias, id) VALUES ");
    out.append(joined.as_str());
    out.append(";");
    out
}

/// Inserts the merge's deduplicated edge rows.
pub fn insert_links_query(edges: &Vec<Link>) -> (r: String)
    ensures
        r@ == "INSERT INTO Links (linker, linked, display) VALUES "@ + spec_join(
            spec_link_rows(edges@),
            ", "@,
        ) + ";"@,
{
    let parts = render_link_rows(edges);
    let joined = join_strings(&parts, ", ");
    let mut out = String::new();
    out.append("INSERT INTO Links (linker, linked, display) VALUES ");
    out.append(joined.as_str());
    out.append(";");
    out
}

/// Selects the edges leaving one chunk of the path finder's frontier.
pub fn select_links_query(ids: &Vec<usize>) -> (r: String)
    ensures
        r@ == "SELECT * FROM Links WHERE linker IN ("@ + spec_join(spec_id_list(ids@), ","@)
            + ");"@,
{
    let parts = render_ids(ids);
    let joined = join_strings(&parts, ",");
    let mut out = String::new();
    out.append("SELECT * FROM Links WHERE linker IN (");
    out.append(joined.as_str());
    out.append(");");
    out
}

/// Resolves a backtracked path's ids to titles.
pub fn select_titles_query(ids: &Vec<usize>) -> (r: String)
    ensures
        r@ == "SELECT id,title from Pages where id IN ("@ + spec_join(spec_id_list(ids@), ","@)
            + ");"@,
{
    let parts = render_ids(ids);
    let joined = join_strings(&parts, ",");
    let mut out = String::new();
    out.append("SELECT id,title from Pages where id IN (");
    out.append(joined.as_str());
    out.append(");");
    out
}

/// Looks a normalized page query up by exact title or alias, through the
/// full-text index.
pub fn page_lookup_query(title: &String) -> (r: String)
    ensures
        r@ == "\nSELECT id, title\nFROM ( \n    ( \n        SELECT Pages.id, Pages.title, Alias.alias \n        FROM Pages \n        JOIN Alias ON Alias.id = Pages.id \n        WHERE MATCH(title) AGAINST ('"@
            + spec_escape_mysql(title@)
            + "' IN BOOLEAN MODE) \n    ) \n    UNION \n    ( \n        SELECT Pages.id, Pages.title, Alias.alias \n        FROM Pages \n        JOIN Alias ON Alias.id = Pages.id \n        WHERE MATCH(alias) AGAINST ('"@
            + spec_escape_mysql(title@) + "' IN BOOLEAN MODE) \n    ) \n) AS result \nWHERE title = '"@
            + spec_escape_mysql(title@) + "' OR alias = '"@ + spec_escape_mysql(title@)
            + "';"@,
{
    let escaped = format_link_for_mysql(title);
    let mut out = String::new();
    out.append(
        "\nSELECT id, title\nFROM ( \n    ( \n        SELECT Pages.id, Pages.title, Alias.alias \n        FROM Pages \n        JOIN Alias ON Alias.id = Pages.id \n        WHERE MATCH(title) AGAINST ('",
    );
    out.append(escaped.as_str());
    out.append(
        "' IN BOOLEAN MODE) \n    ) \n    UNION \n    ( \n        SELECT Pages.id, Pages.title, Alias.alias \n        FROM Pages \n        JOIN Alias ON Alias.id = Pages.id \n        WHERE MATCH(alias) AGAINST ('",
    );
    out.append(escaped.as_str());
    out.append("' IN BOOLEAN MODE) \n    ) \n) AS result \nWHERE title = '");
    out.append(escaped.as_str());
    out.append("' OR alias = '");
    out.append(escaped.as_str());
    out.append("';");
    out
}

} // verus!
