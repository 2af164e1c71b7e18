//! Identity resolution: maps one raw link token to a canonical page. The
//! primary tier queries a search endpoint (skipped when the escaped token is
//! too long for it); a well-formed miss falls through to the secondary tier,
//! which scrapes the canonical identity out of a search page's metadata. A
//! response of unexpected shape is a fatal resolution error that aborts the
//! cycle rather than silently mis-resolving.
use vstd::prelude::*;

use crate::outside::api_captures;
use crate::outside::api_pattern;
use crate::outside::regex_captures_of;
use crate::outside::web_captures;
use crate::outside::web_pattern;
use crate::text::parse_usize;
use crate::text::spec_all_digits;
use crate::text::spec_contains_sub;
use crate::text::spec_digits_val;
use crate::text::spec_match_at;
use crate::text::spec_starts_with;
use crate::text::spec_ends_with;
use crate::text::spec_to_lower;
use crate::text::str_starts_with;
use crate::text::str_ends_with;
use crate::text::str_to_lower;
use crate::extract::fetch_is_transient;
use crate::extract::spec_transient_marker;
use crate::Page;
use crate::format_url_for_api_reqwest;
use crate::format_url_for_reqwest;
use crate::spec_escape_api;
use crate::spec_escape_web;

verus! {

/// The search endpoint's address for a token, with the token escaped for
/// that transport.
pub open spec fn spec_api_request_url(token: Seq<char>) -> Seq<char> {
    "https://fr.m.wikipedia.org/w/api.php?action=query&format=json&list=search&utf8=1&formatversion=2&srnamespace=0&srlimit=1&srsearch="@
        + spec_escape_api(token)
}

pub fn api_request_url(token: &str) -> (r: String)
    ensures
        r@ == spec_api_request_url(token@),
{
    let mut out = String::new();
    out.append(
        "https://fr.m.wikipedia.org/w/api.php?action=query&format=json&list=search&utf8=1&formatversion=2&srnamespace=0&srlimit=1&srsearch=",
    );
    let escaped = format_url_for_api_reqwest(token);
    out.append(escaped.as_str());
    out
}

/// The scrape page's address for a token, with the token escaped for a path
/// segment.
pub open spec fn spec_web_request_url(token: Seq<char>) -> Seq<char> {
    "https://fr.m.wikipedia.org/wiki/Spécial:Recherche/"@ + spec_escape_web(token)
}

pub fn web_request_url(token: &str) -> (r: String)
    ensures
        r@ == spec_web_request_url(token@),
{
    let mut out = String::new();
    out.append("https://fr.m.wikipedia.org/wiki/Spécial:Recherche/");
    let escaped = format_url_for_reqwest(token);
    out.append(escaped.as_str());
    out
}

/// The endpoint's length limitation: a token whose escaped form runs over 98
/// characters cannot be sent to the primary tier and goes straight to the
/// secondary one.
pub open spec fn spec_token_too_long(token: Seq<char>) -> bool {
    spec_escape_api(token).len() > 98
}

pub fn token_too_long(token: &str) -> (r: bool)
    ensures
        r == spec_token_too_long(token@),
{
    let escaped = format_url_for_api_reqwest(token);
    escaped.as_str().unicode_len() > 98
}

/// Undoing the response's quote escaping in a captured title: a backslash
/// followed by a double quote collapses to the double quote, scanning left
/// to right.
pub open spec fn spec_unescape_title(s: Seq<char>) -> Seq<char>
    decreases s.len(),
{
    if s.len() == 0 {
        Seq::empty()
    } else if s.len() >= 2 && s[0] == '\\' && s[1] == '"' {
        seq!['"'] + spec_unescape_title(s.skip(2))
    } else {
        seq![s[0]] + spec_unescape_title(s.skip(1))
    }
}

pub fn unescape_title(s: &str) -> (r: String)
    ensures
        r@ == spec_unescape_title(s@),
{
    let len = s.unicode_len();
    let mut out = String::new();
    let mut i: usize = 0;
    proof {
        assert(s@.skip(0) =~= s@);
        assert(out@ + spec_unescape_title(s@) =~= spec_unescape_title(s@));
    }
    while i < len
        invariant
            i <= len,
            len == s@.len(),
            spec_unescape_title(s@) == out@ + spec_unescape_title(s@.skip(i as int)),
        decreases len - i,
    {
        let c = s.get_char(i);
        proof {
            assert(s@.skip(i as int)[0] == s@[i as int]);
            if i + 1 < len {
                assert(s@.skip(i as int)[1] == s@[i + 1]);
            }
        }
        if i + 1 < len && c == '\\' && s.get_char(i + 1) == '"' {
            out.push('"');
            proof {
                assert(s@.skip(i as int).skip(2) =~= s@.skip(i + 2));
            }
            i += 2;
        } else {
            out.push(c);
            proof {
                assert(s@.skip(i as int).skip(1) =~= s@.skip(i + 1));
            }
            i += 1;
        }
    }
    proof {
        assert(s@.skip(i as int) =~= Seq::<char>::empty());
        assert(out@ =~= out@ + spec_unescape_title(s@.skip(i as int)));
    }
    out
}

/// The primary tier's transient condition: the response is not even the
/// start of a structured object.
pub open spec fn spec_api_transient(body: Seq<char>) -> bool {
    !spec_starts_with(body, "{"@)
}

/// The primary tier's well-formed miss: a complete response without the
/// expected header, or with an empty result list.
pub open spec fn spec_api_no_result(body: Seq<char>) -> bool {
    !spec_starts_with(body, "{\"batchcomplete\":true,"@) || spec_ends_with(
        body,
        "\"search\":[]}}"@,
    )
}

/// What one primary-tier response means for the token being resolved.
pub enum ApiStep {
    /// The response carries an upstream error: ask again after a cooldown.
    RetryAfterCooldown,
    /// A well-formed miss: fall through to the secondary tier.
    UseWebTier,
    /// The canonical identity was found.
    Resolved(Page),
    /// The response matches no known shape: a fatal resolution error.
    FatalMismatch,
}

/// Decides what a primary-tier response body means. The canonical title is
/// the captured group with its quote escaping undone; the id is the captured
/// digit group.
pub fn api_resolve_step(body: &str) -> (r: ApiStep)
    ensures
        (match r {
            ApiStep::RetryAfterCooldown => spec_api_transient(body@),
            ApiStep::UseWebTier => !spec_api_transient(body@) && spec_api_no_result(body@),
            ApiStep::Resolved(p) => {
                let m = regex_captures_of(api_pattern(), body@);
                &&& !spec_api_transient(body@)
                &&& !spec_api_no_result(body@)
                &&& m matches Some(g) && g.len() == 3 && p.title@ == spec_unescape_title(g[1])
                    && g[2].len() > 0 && spec_all_digits(g[2]) && p.id == spec_digits_val(g[2])
            },
            ApiStep::FatalMismatch => {
                let m = regex_captures_of(api_pattern(), body@);
                &&& !spec_api_transient(body@)
                &&& !spec_api_no_result(body@)
                &&& (m is None || (m matches Some(g) && g.len() == 3 && (g[2].len() == 0
                    || !spec_all_digits(g[2]) || spec_digits_val(g[2]) > usize::MAX)))
            },
        }),
{
    if !str_starts_with(body, "{") {
        return ApiStep::RetryAfterCooldown;
    }
    if !str_starts_with(body, "{\"batchcomplete\":true,") || str_ends_with(
        body,
        "\"search\":[]}}",
    ) {
        return ApiStep::UseWebTier;
    }
    match api_captures(body) {
        Some(capture) => {
            let (title_raw, id_raw) = capture;
            match parse_usize(id_raw.as_str()) {
                Some(id) => ApiStep::Resolved(Page { id, title: unescape_title(title_raw.as_str()) }),
                None => ApiStep::FatalMismatch,
            }
        },
        None => ApiStep::FatalMismatch,
    }
}

/// What one secondary-tier response means for the token being resolved.
pub enum WebStep {
    /// The response carries the transient marker: ask again after a cooldown.
    RetryAfterCooldown,
    /// The canonical identity was scraped out of the page metadata.
    Resolved(Page),
    /// The response matches no known shape: a fatal resolution error.
    FatalMismatch,
}

/// Decides what a secondary-tier response body means. The title group is
/// taken as captured; the id is the captured digit group.
pub fn web_resolve_step(body: &str) -> (r: WebStep)
    ensures
        (match r {
            WebStep::RetryAfterCooldown => spec_contains_sub(body@, spec_transient_marker()),
            WebStep::Resolved(p) => {
                let m = regex_captures_of(web_pattern(), body@);
                &&& !spec_contains_sub(body@, spec_transient_marker())
                &&& m matches Some(g) && g.len() == 3 && p.title@ == g[1] && g[2].len() > 0
                    && spec_all_digits(g[2]) && p.id == spec_digits_val(g[2])
            },
            WebStep::FatalMismatch => {
                let m = regex_captures_of(web_pattern(), body@);
                &&& !spec_contains_sub(body@, spec_transient_marker())
                &&& (m is None || (m matches Some(g) && g.len() == 3 && (g[2].len() == 0
                    || !spec_all_digits(g[2]) || spec_digits_val(g[2]) > usize::MAX)))
            },
        }),
{
    if fetch_is_transient(body) {
        return WebStep::RetryAfterCooldown;
    }
    match web_captures(body) {
        Some(capture) => {
            let (title, id_raw) = capture;
            match parse_usize(id_raw.as_str()) {
                Some(id) => WebStep::Resolved(Page { id, title }),
                None => WebStep::FatalMismatch,
            }
        },
        None => WebStep::FatalMismatch,
    }
}

/// The substring after the last occurrence of the path marker `wiki/`, or
/// the whole string when the marker does not occur.
pub open spec fn spec_after_last_wiki(s: Seq<char>) -> Seq<char> {
    if exists|i: int| spec_match_at(s, "wiki/"@, i) {
        let i = choose|i: int|
            spec_match_at(s, "wiki/"@, i) && forall|j: int| j > i ==> !spec_match_at(
                s,
                "wiki/"@,
                j,
            );
        s.skip(i + 5)
    } else {
        s
    }
}

/// A page query typed as an address is cut down to its page part: the text
/// after the last `wiki/`, with the search page's own prefix dropped when
/// present. Other queries are taken whole. The result is case-folded and
/// its trailing line-end character dropped.
pub open spec fn spec_normalize_page_query(s: Seq<char>) -> Seq<char> {
    let cut = if spec_starts_with(s, "http"@) {
        let t = spec_after_last_wiki(s);
        if spec_starts_with(t, "Spécial:Recherche/"@) {
            t.skip(18)
        } else {
            t
        }
    } else {
        s
    };
    let lowered = spec_to_lower(cut);
    if lowered.len() > 0 {
        lowered.drop_last()
    } else {
        lowered
    }
}

fn find_last_wiki(s: &str) -> (r: Option<usize>)
    ensures
        (match r {
            Some(i) => spec_match_at(s@, "wiki/"@, i as int) && forall|j: int|
                j > i ==> !spec_match_at(s@, "wiki/"@, j),
            None => forall|j: int| !spec_match_at(s@, "wiki/"@, j),
        }),
{
    let s_len = s.unicode_len();
    let p = "wiki/";
    let p_len = p.unicode_len();
    proof {
        vstd::prelude::reveal_strlit("wiki/");
    }
    if p_len > s_len {
        assert forall|j: int| !spec_match_at(s@, "wiki/"@, j) by {}
        return None;
    }
    let last = s_len - p_len;
    let mut best: Option<usize> = None;
    let mut i: usize = 0;
    while i <= last
        invariant
            i <= last + 1,
            last == s_len - p_len,
            s_len == s@.len(),
            p_len == p@.len(),
            p@ == "wiki/"@,
            1 <= p_len <= s_len,
            (match best {
                Some(b) => b < i && spec_match_at(s@, "wiki/"@, b as int) && forall|j: int|
                    b < j < i ==> !spec_match_at(s@, "wiki/"@, j),
                None => forall|j: int| j < i ==> !spec_match_at(s@, "wiki/"@, j),
            }),
        decreases last - i + 1,
    {
        if crate::text::str_match_at(s, p, i) {
            best = Some(i);
        }
        i += 1;
    }
    proof {
        assert forall|j: int| j > last implies !spec_match_at(s@, "wiki/"@, j) by {}
    }
    best
}

/// Cuts a typed page query down to the token looked up in storage.
pub fn normalize_page_query(input: &str) -> (r: String)
    ensures
        r@ == spec_normalize_page_query(input@),
{
    let len = input.unicode_len();
    proof {
        vstd::prelude::reveal_strlit("wiki/");
        vstd::prelude::reveal_strlit("Spécial:Recherche/");
    }
    let cut: &str = if str_starts_with(input, "http") {
        let t: &str = match find_last_wiki(input) {
            Some(i) => {
                let u = input.substring_char(i + 5, len);
                proof {
                    assert(spec_match_at(input@, "wiki/"@, i as int));
                    let c = choose|c: int|
                        spec_match_at(input@, "wiki/"@, c) && (forall|j: int|
                            j > c ==> !spec_match_at(input@, "wiki/"@, j));
                    if c < i {
                        assert(!spec_match_at(input@, "wiki/"@, i as int));
                    }
                    if i < c {
                        assert(!spec_match_at(input@, "wiki/"@, c));
                    }
                    assert(c == i);
                    assert(u@ =~= spec_after_last_wiki(input@));
                }
                u
            },
            None => {
                proof {
                    assert(spec_after_last_wiki(input@) == input@);
                }
                input
            },
        };
        assert(t@ == spec_after_last_wiki(input@));
        if str_starts_with(t, "Spécial:Recherche/") {
            let t_len = t.unicode_len();
            let u = t.substring_char(18, t_len);
            proof {
                assert(u@ =~= t@.skip(18));
            }
            u
        } else {
            t
        }
    } else {
        input
    };
    let lowered = str_to_lower(cut);
    let l_len = lowered.as_str().unicode_len();
    if l_len > 0 {
        let r = lowered.as_str().substring_char(0, l_len - 1);
        proof {
            assert(r@ =~= spec_to_lower(cut@).drop_last());
        }
        r.to_owned()
    } else {
        lowered
    }
}

} // verus!
