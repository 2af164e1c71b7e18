//! Link extraction: turns one fetched document into the page's outbound raw
//! link tokens. A fetched body either carries the upstream transient-failure
//! marker (the fetch is retried with a growing cooldown) or is parsed: every
//! internal link token is percent-decoded, case-folded, deduplicated and
//! dropped when its prefix names a non-article namespace.
use vstd::prelude::*;

use crate::outside::explore_captures;
use crate::outside::explore_pattern;
use crate::outside::percent_decode;
use crate::outside::percent_decoded_of;
use crate::outside::regex_all_captures_of;
use crate::text::spec_contains_sub;
use crate::text::spec_starts_with;
use crate::text::spec_to_lower;
use crate::text::str_contains_sub;
use crate::text::str_starts_with;
use crate::text::str_to_lower;
use crate::text::usize_to_string;

verus! {

/// The non-article namespace prefixes: a link token starting with one of
/// these is not an article and is dropped.
pub open spec fn spec_blocklist() -> Seq<Seq<char>> {
    seq![
        "média:"@,
        "spécial:"@,
        "discussion:"@,
        "utilisateur:"@,
        "discussion_utilisateur:"@,
        "wikipédia:"@,
        "discussion_wikipédia:"@,
        "fichier:"@,
        "discussion_fichier:"@,
        "mediawiki:"@,
        "discussion_mediawiki:"@,
        "modèle:"@,
        "discussion_modèle:"@,
        "aide:"@,
        "discussion_aide:"@,
        "catégorie:"@,
        "discussion_catégorie:"@,
        "portail:"@,
        "discussion_portail:"@,
        "projet:"@,
        "discussion_projet:"@,
        "référence:"@,
        "discussion_référence:"@,
        "timedtext:"@,
        "timedtext_talk:"@,
        "module:"@,
        "discussion_module:"@,
        "sujet:"@,
    ]
}

pub open spec fn spec_is_blocked(link: Seq<char>) -> bool {
    exists|k: int|
        0 <= k < spec_blocklist().len() && spec_starts_with(link, #[trigger] spec_blocklist()[k])
}

fn namespace_list() -> (r: Vec<&'static str>)
    ensures
        r@.len() == spec_blocklist().len(),
        forall|k: int| 0 <= k < r@.len() ==> (#[trigger] r@[k])@ == spec_blocklist()[k],
{
    let mut v: Vec<&'static str> = Vec::new();
    v.push("média:");
    v.push("spécial:");
    v.push("discussion:");
    v.push("utilisateur:");
    v.push("discussion_utilisateur:");
    v.push("wikipédia:");
    v.push("discussion_wikipédia:");
    v.push("fichier:");
    v.push("discussion_fichier:");
    v.push("mediawiki:");
    v.push("discussion_mediawiki:");
    v.push("modèle:");
    v.push("discussion_modèle:");
    v.push("aide:");
    v.push("discussion_aide:");
    v.push("catégorie:");
    v.push("discussion_catégorie:");
    v.push("portail:");
    v.push("discussion_portail:");
    v.push("projet:");
    v.push("discussion_projet:");
    v.push("référence:");
    v.push("discussion_référence:");
    v.push("timedtext:");
    v.push("timedtext_talk:");
    v.push("module:");
    v.push("discussion_module:");
    v.push("sujet:");
    v
}

/// Decides whether a link token's prefix names a non-article namespace.
pub fn is_blocked_link(link: &str) -> (r: bool)
    ensures
        r == spec_is_blocked(link@),
{
    let namespaces = namespace_list();
    let mut k: usize = 0;
    while k < namespaces.len()
        invariant
            k <= namespaces@.len(),
            namespaces@.len() == spec_blocklist().len(),
            forall|j: int|
                0 <= j < namespaces@.len() ==> (#[trigger] namespaces@[j])@ == spec_blocklist()[j],
            forall|j: int|
                0 <= j < k ==> !spec_starts_with(link@, #[trigger] spec_blocklist()[j]),
        decreases namespaces@.len() - k,
    {
        if str_starts_with(link, namespaces[k]) {
            return true;
        }
        k += 1;
    }
    false
}

/// The normalized form of one raw link token: percent-decoded, then
/// ASCII-case-folded; `None` when the decoded bytes are not valid text.
pub open spec fn spec_normalized_token(raw: Seq<char>) -> Option<Seq<char>> {
    match percent_decoded_of(raw) {
        Some(d) => Some(spec_to_lower(d)),
        None => None,
    }
}

/// Percent-decodes and case-folds one raw link token.
pub fn normalize_token(raw: &str) -> (r: Option<String>)
    ensures
        (match r {
            Some(t) => spec_normalized_token(raw@) == Some(t@),
            None => spec_normalized_token(raw@) is None,
        }),
{
    match percent_decode(raw) {
        Some(decoded) => Some(str_to_lower(decoded.as_str())),
        None => None,
    }
}

/// The extraction pipeline over the document's raw tokens, left to right:
/// a token that decodes, is not blocked after normalization, and whose
/// normalized form was not already seen contributes the pair (normalized
/// link, raw token); every other token is dropped. The first spelling of a
/// link wins.
pub open spec fn spec_extract_acc(raws: Seq<Seq<char>>, seen: Set<Seq<char>>) -> Seq<
    (Seq<char>, Seq<char>),
>
    decreases raws.len(),
{
    if raws.len() == 0 {
        Seq::empty()
    } else {
        let raw = raws.first();
        let rest = raws.drop_first();
        match spec_normalized_token(raw) {
            Some(link) => {
                if !spec_is_blocked(link) && !seen.contains(link) {
                    seq![(link, raw)] + spec_extract_acc(rest, seen.insert(link))
                } else {
                    spec_extract_acc(rest, seen)
                }
            },
            None => spec_extract_acc(rest, seen),
        }
    }
}

pub open spec fn spec_extract(raws: Seq<Seq<char>>) -> Seq<(Seq<char>, Seq<char>)> {
    spec_extract_acc(raws, Set::empty())
}

fn contains_link(out: &Vec<(String, String)>, link: &String) -> (r: bool)
    ensures
        r == exists|j: int| 0 <= j < out@.len() && (#[trigger] out@[j]).0@ == link@,
{
    let mut j: usize = 0;
    while j < out.len()
        invariant
            j <= out@.len(),
            forall|i: int| 0 <= i < j ==> (#[trigger] out@[i]).0@ != link@,
        decreases out@.len() - j,
    {
        if out[j].0.eq(link) {
            return true;
        }
        j += 1;
    }
    false
}

/// Runs the extraction pipeline over a vector of raw tokens.
pub fn extract_tokens(raws: Vec<String>) -> (r: Vec<(String, String)>)
    ensures
        r@.map_values(|p: (String, String)| (p.0@, p.1@)) == spec_extract(
            raws@.map_values(|t: String| t@),
        ),
{
    let ghost raw_views = raws@.map_values(|t: String| t@);
    let mut out: Vec<(String, String)> = Vec::new();
    let ghost seen = Set::<Seq<char>>::empty();
    let mut i: usize = 0;
    proof {
        assert(raw_views.skip(0) =~= raw_views);
        assert(out@.map_values(|p: (String, String)| (p.0@, p.1@)) =~= Seq::<
            (Seq<char>, Seq<char>),
        >::empty());
        assert(spec_extract(raw_views) =~= out@.map_values(|p: (String, String)| (p.0@, p.1@))
            + spec_extract_acc(raw_views.skip(0), seen));
    }
    while i < raws.len()
        invariant
            i <= raws@.len(),
            raw_views == raws@.map_values(|t: String| t@),
            raw_views.len() == raws@.len(),
            spec_extract(raw_views) == out@.map_values(|p: (String, String)| (p.0@, p.1@))
                + spec_extract_acc(raw_views.skip(i as int), seen),
            forall|l: Seq<char>|
                seen.contains(l) <==> exists|j: int|
                    0 <= j < out@.len() && (#[trigger] out@[j]).0@ == l,
        decreases raws@.len() - i,
    {
        let ghost old_out = out@;
        let ghost old_seen = seen;
        proof {
            assert(raw_views.skip(i as int).first() == raw_views[i as int]);
            assert(raw_views.skip(i as int).drop_first() =~= raw_views.skip(i + 1));
        }
        let raw = &raws[i];
        match normalize_token(raw.as_str()) {
            Some(link) => {
                if !is_blocked_link(link.as_str()) && !contains_link(&out, &link) {
                    proof {
                        assert(!old_seen.contains(link@));
                    }
                    out.push((link, raw.clone()));
                    proof {
                        seen = seen.insert(out@[out@.len() - 1].0@);
                        assert(out@.map_values(|p: (String, String)| (p.0@, p.1@)) =~= old_out
                            .map_values(|p: (String, String)| (p.0@, p.1@)).push(
                            (out@[out@.len() - 1].0@, out@[out@.len() - 1].1@),
                        ));
                        assert(spec_extract_acc(raw_views.skip(i as int), old_seen) =~= seq![
                            (out@[out@.len() - 1].0@, out@[out@.len() - 1].1@),
                        ] + spec_extract_acc(raw_views.skip(i + 1), seen));
                        assert(spec_extract(raw_views) =~= out@.map_values(
                            |p: (String, String)| (p.0@, p.1@),
                        ) + spec_extract_acc(raw_views.skip(i + 1), seen));
                        assert forall|l: Seq<char>| seen.contains(l) implies exists|j: int|
                            0 <= j < out@.len() && (#[trigger] out@[j]).0@ == l by {
                            if l == out@[out@.len() - 1].0@ {
                                assert(out@[out@.len() - 1].0@ == l);
                            } else {
                                let j = choose|j: int|
                                    0 <= j < old_out.len() && (#[trigger] old_out[j]).0@ == l;
                                assert(out@[j].0@ == l);
                            }
                        }
                    }
                } else {
                    proof {
                        if spec_is_blocked(link@) {
                        } else {
                            assert(old_seen.contains(link@));
                        }
                        assert(spec_extract_acc(raw_views.skip(i as int), seen)
                            == spec_extract_acc(raw_views.skip(i + 1), seen));
                    }
                }
            },
            None => {
                proof {
                    assert(spec_extract_acc(raw_views.skip(i as int), seen) == spec_extract_acc(
                        raw_views.skip(i + 1),
                        seen,
                    ));
                }
            },
        }
        i += 1;
    }
    proof {
        assert(raw_views.skip(raw_views.len() as int) =~= Seq::<Seq<char>>::empty());
        assert(spec_extract(raw_views) =~= out@.map_values(|p: (String, String)| (p.0@, p.1@)));
    }
    out
}

/// The upstream transient-failure marker in a fetched document.
pub open spec fn spec_transient_marker() -> Seq<char> {
    "<title>Wikimedia Error</title>"@
}

/// Decides whether a fetched body carries the transient-failure marker and
/// must be fetched again after a cooldown.
pub fn fetch_is_transient(body: &str) -> (r: bool)
    ensures
        r == spec_contains_sub(body@, spec_transient_marker()),
{
    str_contains_sub(body, "<title>Wikimedia Error</title>")
}

/// One step of exploring a page: either the body carries the transient
/// marker and the fetch is to be retried, or the body is parsed into the
/// page's deduplicated, filtered link tokens.
pub enum ExploreStep {
    RetryAfterCooldown,
    Parsed(Vec<(String, String)>),
}

/// Decides what a fetched body means for the page being explored.
pub fn explore_step(body: &str) -> (r: ExploreStep)
    ensures
        (match r {
            ExploreStep::RetryAfterCooldown => spec_contains_sub(body@, spec_transient_marker()),
            ExploreStep::Parsed(links) => !spec_contains_sub(body@, spec_transient_marker())
                && links@.map_values(|p: (String, String)| (p.0@, p.1@)) == spec_extract(
                regex_all_captures_of(explore_pattern(), body@).map_values(
                    |g: Seq<Seq<char>>| g[1],
                ),
            ),
        }),
{
    if fetch_is_transient(body) {
        ExploreStep::RetryAfterCooldown
    } else {
        let raws = explore_captures(body);
        let links = extract_tokens(raws);
        proof {
            assert(raws@.map_values(|t: String| t@) =~= regex_all_captures_of(
                explore_pattern(),
                body@,
            ).map_values(|g: Seq<Seq<char>>| g[1]));
        }
        ExploreStep::Parsed(links)
    }
}

/// The address a page is fetched from: the content source's page-by-id
/// query.
pub open spec fn spec_fetch_url(id: int) -> Seq<char> {
    "https://fr.m.wikipedia.org/?curid="@ + crate::text::spec_decimal(id)
}

pub fn fetch_url(page_id: usize) -> (r: String)
    ensures
        r@ == spec_fetch_url(page_id as int),
{
    let mut out = String::new();
    out.append("https://fr.m.wikipedia.org/?curid=");
    let id_str = usize_to_string(page_id);
    out.append(id_str.as_str());
    out
}

/// The cooldown, in seconds, slept before fetch attempt `attempt + 1` after
/// `attempt + 1` transient responses: the base cooldown plus one second per
/// attempt already made, saturating at the largest representable value.
pub open spec fn spec_retry_cooldown(base: u64, attempt: u64) -> int {
    if base + attempt + 1 <= u64::MAX {
        base + attempt + 1
    } else {
        u64::MAX as int
    }
}

pub fn retry_cooldown_secs(base: u64, attempt: u64) -> (r: u64)
    ensures
        r == spec_retry_cooldown(base, attempt),
{
    if attempt == u64::MAX || base > u64::MAX - (attempt + 1) {
        u64::MAX
    } else {
        base + attempt + 1
    }
}

} // verus!
