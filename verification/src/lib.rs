//! Incrementally builds a directed graph of an encyclopedia's pages and
//! hyperlinks: a crawl pipeline selects a frontier batch, fetches and parses
//! pages into raw link tokens, resolves tokens to canonical page identities,
//! and merges pages, aliases and edges into a relational store; a supervisor
//! drives repeated cycles with crash containment and a circuit breaker; and a
//! path finder runs a layered breadth-first search over the persisted edges.
//!
//! This crate holds the verified logic: token normalization and filtering,
//! the resolver's decision steps, the graph merge, the query text builders,
//! the search layers and backtracking, and the supervisor policy. The
//! unverified shell around it performs the network and database calls and
//! hands plain values in and out.
use vstd::prelude::*;

pub mod extract;
pub mod merge;
pub mod outside;
pub mod path;
pub mod queries;
pub mod resolve;
pub mod supervisor;
pub mod text;

verus! {

/// A page of the encyclopedia. Identity is the externally assigned `id`
/// alone: two values with the same `id` denote the same page even when the
/// recorded titles differ.
#[derive(Debug)]
pub struct Page {
    pub id: usize,
    pub title: String,
}

impl View for Page {
    type V = (int, Seq<char>);

    open spec fn view(&self) -> (int, Seq<char>) {
        (self.id as int, self.title@)
    }
}

impl PartialEq for Page {
    fn eq(&self, other: &Self) -> (r: bool) {
        self.id == other.id
    }
}

impl vstd::std_specs::cmp::PartialEqSpecImpl for Page {
    open spec fn obeys_eq_spec() -> bool {
        true
    }

    open spec fn eq_spec(&self, other: &Page) -> bool {
        self.id == other.id
    }
}

impl Clone for Page {
    fn clone(&self) -> (r: Self)
        ensures
            r.id == self.id,
            r.title@ == self.title@,
    {
        Page { id: self.id, title: self.title.clone() }
    }
}

/// Escaping of one character for a double-quoted literal in query text:
/// a backslash is doubled and a double quote is doubled.
pub open spec fn spec_escape_mysql_char(c: char) -> Seq<char> {
    if c == '\\' {
        seq!['\\', '\\']
    } else if c == '"' {
        seq!['"', '"']
    } else {
        seq![c]
    }
}

pub open spec fn spec_escape_mysql(s: Seq<char>) -> Seq<char>
    decreases s.len(),
{
    if s.len() == 0 {
        Seq::empty()
    } else {
        spec_escape_mysql_char(s.first()) + spec_escape_mysql(s.drop_first())
    }
}

/// Escapes a link token for inclusion in a double-quoted literal in query
/// text: backslashes and double quotes are doubled, all else is unchanged.
pub fn format_link_for_mysql(link: &String) -> (r: String)
    ensures
        r@ == spec_escape_mysql(link@),
{
    let s = link.as_str();
    let len = s.unicode_len();
    let mut out = String::new();
    let mut i: usize = 0;
    proof {
        assert(s@.skip(0) =~= s@);
        assert(out@ + spec_escape_mysql(s@) =~= spec_escape_mysql(s@));
    }
    while i < len
        invariant
            i <= len,
            len == s@.len(),
            spec_escape_mysql(s@) == out@ + spec_escape_mysql(s@.skip(i as int)),
        decreases len - i,
    {
        let c = s.get_char(i);
        if c == '\\' {
            out.push('\\');
            out.push('\\');
        } else if c == '"' {
            out.push('"');
            out.push('"');
        } else {
            out.push(c);
        }
        proof {
            assert(s@.skip(i as int).first() == s@[i as int]);
            assert(s@.skip(i as int).drop_first() =~= s@.skip(i + 1));
        }
        i += 1;
    }
    proof {
        assert(s@.skip(len as int) =~= Seq::<char>::empty());
        assert(out@ =~= out@ + spec_escape_mysql(s@.skip(len as int)));
    }
    out
}

/// Escaping of one character for the search endpoint's query string: `&`
/// becomes `%26` and `*` becomes `\*`.
pub open spec fn spec_escape_api_char(c: char) -> Seq<char> {
    if c == '&' {
        seq!['%', '2', '6']
    } else if c == '*' {
        seq!['\\', '*']
    } else {
        seq![c]
    }
}

pub open spec fn spec_escape_api(s: Seq<char>) -> Seq<char>
    decreases s.len(),
{
    if s.len() == 0 {
        Seq::empty()
    } else {
        spec_escape_api_char(s.first()) + spec_escape_api(s.drop_first())
    }
}

/// Escapes a raw link token for the search endpoint's transport: ampersands
/// are percent-encoded and asterisks are backslash-escaped.
pub fn format_url_for_api_reqwest(url: &str) -> (r: String)
    ensures
        r@ == spec_escape_api(url@),
{
    let len = url.unicode_len();
    let mut out = String::new();
    let mut i: usize = 0;
    proof {
        assert(url@.skip(0) =~= url@);
        assert(out@ + spec_escape_api(url@) =~= spec_escape_api(url@));
    }
    while i < len
        invariant
            i <= len,
            len == url@.len(),
            spec_escape_api(url@) == out@ + spec_escape_api(url@.skip(i as int)),
        decreases len - i,
    {
        let c = url.get_char(i);
        if c == '&' {
            out.push('%');
            out.push('2');
            out.push('6');
        } else if c == '*' {
            out.push('\\');
            out.push('*');
        } else {
            out.push(c);
        }
        proof {
            assert(url@.skip(i as int).first() == url@[i as int]);
            assert(url@.skip(i as int).drop_first() =~= url@.skip(i + 1));
        }
        i += 1;
    }
    proof {
        assert(url@.skip(len as int) =~= Seq::<char>::empty());
        assert(out@ =~= out@ + spec_escape_api(url@.skip(len as int)));
    }
    out
}

/// Escaping of one character for the scrape page's path: `?` becomes `%3F`.
pub open spec fn spec_escape_web_char(c: char) -> Seq<char> {
    if c == '?' {
        seq!['%', '3', 'F']
    } else {
        seq![c]
    }
}

pub open spec fn spec_escape_web(s: Seq<char>) -> Seq<char>
    decreases s.len(),
{
    if s.len() == 0 {
        Seq::empty()
    } else {
        spec_escape_web_char(s.first()) + spec_escape_web(s.drop_first())
    }
}

/// Escapes a raw link token for the scrape page's path: question marks are
/// percent-encoded.
pub fn format_url_for_reqwest(url: &str) -> (r: String)
    ensures
        r@ == spec_escape_web(url@),
{
    let len = url.unicode_len();
    let mut out = String::new();
    let mut i: usize = 0;
    proof {
        assert(url@.skip(0) =~= url@);
        assert(out@ + spec_escape_web(url@) =~= spec_escape_web(url@));
    }
    while i < len
        invariant
            i <= len,
            len == url@.len(),
            spec_escape_web(url@) == out@ + spec_escape_web(url@.skip(i as int)),
        decreases len - i,
    {
        let c = url.get_char(i);
        if c == '?' {
            out.push('%');
            out.push('3');
            out.push('F');
        } else {
            out.push(c);
        }
        proof {
            assert(url@.skip(i as int).first() == url@[i as int]);
            assert(url@.skip(i as int).drop_first() =~= url@.skip(i + 1));
        }
        i += 1;
    }
    proof {
        assert(url@.skip(len as int) =~= Seq::<char>::empty());
        assert(out@ =~= out@ + spec_escape_web(url@.skip(len as int)));
    }
    out
}

/// Escaping of one character inside the quoted title of a page's display
/// form: a double quote gains a preceding backslash.
pub open spec fn spec_escape_title_char(c: char) -> Seq<char> {
    if c == '"' {
        seq!['\\', '"']
    } else {
        seq![c]
    }
}

pub open spec fn spec_escape_title(s: Seq<char>) -> Seq<char>
    decreases s.len(),
{
    if s.len() == 0 {
        Seq::empty()
    } else {
        spec_escape_title_char(s.first()) + spec_escape_title(s.drop_first())
    }
}

/// The display form of a page: its id and title as one object-shaped line,
/// with double quotes in the title backslash-escaped.
pub open spec fn spec_page_display(p: Page) -> Seq<char> {
    "{ \"id\": "@ + crate::text::spec_decimal(p.id as int) + ", \"title\": \""@
        + spec_escape_title(p.title@) + "\" }"@
}

impl Page {
    /// Renders the page for progress reporting and path output.
    pub fn display_string(&self) -> (r: String)
        ensures
            r@ == spec_page_display(*self),
    {
        let mut out = String::new();
        out.append("{ \"id\": ");
        let id_str = crate::text::usize_to_string(self.id);
        out.append(id_str.as_str());
        out.append(", \"title\": \"");
        let title = self.title.as_str();
        let len = title.unicode_len();
        let ghost mid = out@;
        let mut i: usize = 0;
        proof {
            assert(title@.skip(0) =~= title@);
            assert(mid + spec_escape_title(title@) =~= out@ + spec_escape_title(title@));
        }
        while i < len
            invariant
                i <= len,
                len == title@.len(),
                mid + spec_escape_title(title@) == out@ + spec_escape_title(
                    title@.skip(i as int),
                ),
            decreases len - i,
        {
            let c = title.get_char(i);
            if c == '"' {
                out.push('\\');
                out.push('"');
            } else {
                out.push(c);
            }
            proof {
                assert(title@.skip(i as int).first() == title@[i as int]);
                assert(title@.skip(i as int).drop_first() =~= title@.skip(i + 1));
            }
            i += 1;
        }
        proof {
            assert(title@.skip(len as int) =~= Seq::<char>::empty());
            assert(out@ =~= out@ + spec_escape_title(title@.skip(len as int)));
        }
        out.append("\" }");
        out
    }
}

} // verus!
