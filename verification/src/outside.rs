//! Trusted boundary to the outside crates that the pipeline's logic calls in
//! the middle of its work: regular-expression matching over fetched
//! documents and percent-decoding of link tokens. Each wrapper's contract
//! names the outside function it relies on; everything downstream of these
//! results is verified.
use vstd::prelude::*;

verus! {

/// The capture groups of the leftmost match of the given pattern in the
/// given text: group 0 is the whole match, and a group that does not
/// participate in the match is recorded as the empty sequence. `None` when
/// the pattern does not match. The result depends on the pattern and the
/// text alone.
pub uninterp spec fn regex_captures_of(pattern: Seq<char>, text: Seq<char>) -> Option<
    Seq<Seq<char>>,
>;

/// The capture groups of every non-overlapping match of the given pattern in
/// the given text, leftmost first, with groups recorded as in
/// `regex_captures_of`. The result depends on the pattern and the text
/// alone.
pub uninterp spec fn regex_all_captures_of(pattern: Seq<char>, text: Seq<char>) -> Seq<
    Seq<Seq<char>>,
>;

/// What percent-decoding a token yields under UTF-8 interpretation, or
/// `None` when the decoded bytes are not valid UTF-8. The result depends on
/// the token alone.
pub uninterp spec fn percent_decoded_of(s: Seq<char>) -> Option<Seq<char>>;

/// The pattern that picks the canonical title and page id out of the search
/// endpoint's structured response.
pub open spec fn api_pattern() -> Seq<char> {
    ",\"title\":\"(.+)\",\"pageid\":([0-9]+),"@
}

/// The pattern that picks the canonical title and revision id out of the
/// scrape page's embedded metadata.
pub open spec fn web_pattern() -> Seq<char> {
    "(?m)\"wgTitle\":\\n?\"(.*?)\",\\n?\"wgCurRevisionId\":\\n?[0-9]+,\\n?\"wgRevisionId\":\\n?([0-9]+),"@
}

/// The pattern that picks internal link tokens out of a fetched document.
pub open spec fn explore_pattern() -> Seq<char> {
    "(?m)\"\\/wiki\\/([^\"\\/]+?)(?:#.+?)?\"[ >]"@
}

/// The pattern that picks a storage error code out of an error message.
pub open spec fn error_code_pattern() -> Seq<char> {
    "(?m)ERROR ([0-9]+) "@
}

/// Relies on `regex::Regex::new` (on a fixed valid pattern) and
/// `regex::Regex::captures`: the leftmost match's title and page id groups
/// of the search endpoint's response, or `None` when the pattern does not
/// match.
#[verifier::external_body]
pub(crate) fn api_captures(body: &str) -> (r: Option<(String, String)>)
    ensures
        ({
            let m = regex_captures_of(api_pattern(), body@);
            match r {
                Some(p) => m matches Some(g) && g.len() == 3 && p.0@ == g[1] && p.1@ == g[2],
                None => m is None,
            }
        }),
{
    let re = regex::Regex::new(",\"title\":\"(.+)\",\"pageid\":([0-9]+),").unwrap();
    re.captures(body).map(
        |c|
            (
                c.get(1).map_or(String::new(), |m| m.as_str().to_string()),
                c.get(2).map_or(String::new(), |m| m.as_str().to_string()),
            ),
    )
}

/// Relies on `regex::Regex::new` (on a fixed valid pattern) and
/// `regex::Regex::captures`: the leftmost match's title and revision id
/// groups of the scrape page's metadata, or `None` when the pattern does not
/// match.
#[verifier::external_body]
pub(crate) fn web_captures(body: &str) -> (r: Option<(String, String)>)
    ensures
        ({
            let m = regex_captures_of(web_pattern(), body@);
            match r {
                Some(p) => m matches Some(g) && g.len() == 3 && p.0@ == g[1] && p.1@ == g[2],
                None => m is None,
            }
        }),
{
    let re = regex::Regex::new(
        "(?m)\"wgTitle\":\\n?\"(.*?)\",\\n?\"wgCurRevisionId\":\\n?[0-9]+,\\n?\"wgRevisionId\":\\n?([0-9]+),",
    ).unwrap();
    re.captures(body).map(
        |c|
            (
                c.get(1).map_or(String::new(), |m| m.as_str().to_string()),
                c.get(2).map_or(String::new(), |m| m.as_str().to_string()),
            ),
    )
}

/// Relies on `regex::Regex::new` (on a fixed valid pattern) and
/// `regex::Regex::captures`: the leftmost match's error code group of an
/// error message, or `None` when the pattern does not match.
#[verifier::external_body]
pub(crate) fn error_code_captures(message: &str) -> (r: Option<String>)
    ensures
        ({
            let m = regex_captures_of(error_code_pattern(), message@);
            match r {
                Some(code) => m matches Some(g) && g.len() == 2 && code@ == g[1],
                None => m is None,
            }
        }),
{
    let re = regex::Regex::new("(?m)ERROR ([0-9]+) ").unwrap();
    re.captures(message).map(|c| c.get(1).map_or(String::new(), |m| m.as_str().to_string()))
}

/// Relies on `regex::Regex::new` (on a fixed valid pattern) and
/// `regex::Regex::captures_iter`: the link token group of every match of the
/// internal-link pattern in a fetched document, leftmost first.
#[verifier::external_body]
pub(crate) fn explore_captures(body: &str) -> (r: Vec<String>)
    ensures
        r@.len() == regex_all_captures_of(explore_pattern(), body@).len(),
        forall|i: int|
            0 <= i < r@.len() ==> (#[trigger] r@[i])@ == regex_all_captures_of(
                explore_pattern(),
                body@,
            )[i][1] && regex_all_captures_of(explore_pattern(), body@)[i].len() == 2,
{
    let re = regex::Regex::new("(?m)\"\\/wiki\\/([^\"\\/]+?)(?:#.+?)?\"[ >]").unwrap();
    re.captures_iter(body).map(
        |c| c.get(1).map_or(String::new(), |m| m.as_str().to_string()),
    ).collect()
}

/// Relies on `urlencoding::decode`: percent-decoding with UTF-8
/// interpretation depends on the token alone, and a token without a percent
/// sign decodes to itself.
#[verifier::external_body]
pub(crate) fn percent_decode(s: &str) -> (r: Option<String>)
    ensures
        (match r {
            Some(t) => percent_decoded_of(s@) == Some(t@),
            None => percent_decoded_of(s@) is None,
        }),
        !s@.contains('%') ==> r is Some && r->0@ == s@,
{
    match urlencoding::decode(s) {
        Ok(t) => Some(t.into_owned()),
        Err(_) => None,
    }
}

} // verus!
