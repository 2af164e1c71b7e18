// Tests for the token pipeline: escaping, rendering, link extraction and
// the two-tier identity resolver, with the real matching and decoding
// crates linked.
use wikicrawl::Page;
use wikicrawl::extract::ExploreStep;
use wikicrawl::extract::explore_step;
use wikicrawl::extract::extract_tokens;
use wikicrawl::extract::fetch_is_transient;
use wikicrawl::extract::fetch_url;
use wikicrawl::extract::is_blocked_link;
use wikicrawl::extract::retry_cooldown_secs;
use wikicrawl::format_link_for_mysql;
use wikicrawl::format_url_for_api_reqwest;
use wikicrawl::format_url_for_reqwest;
use wikicrawl::resolve::ApiStep;
use wikicrawl::resolve::WebStep;
use wikicrawl::resolve::api_request_url;
use wikicrawl::resolve::api_resolve_step;
use wikicrawl::resolve::normalize_page_query;
use wikicrawl::resolve::token_too_long;
use wikicrawl::resolve::unescape_title;
use wikicrawl::resolve::web_request_url;
use wikicrawl::resolve::web_resolve_step;
use wikicrawl::text::parse_usize;
use wikicrawl::text::str_contains_sub;
use wikicrawl::text::str_to_lower;
use wikicrawl::text::usize_to_string;

#[test]
fn escapes_backslash_and_quote_for_storage() {
    assert_eq!(format_link_for_mysql(&String::from("a\"b\\c")), "a\"\"b\\\\c");
    assert_eq!(format_link_for_mysql(&String::from("plain")), "plain");
    assert_eq!(format_link_for_mysql(&String::from("")), "");
}

#[test]
fn escapes_ampersand_and_asterisk_for_search() {
    assert_eq!(format_url_for_api_reqwest("a&b*c"), "a%26b\\*c");
    assert_eq!(format_url_for_api_reqwest("tour"), "tour");
}

#[test]
fn escapes_question_mark_for_scrape_path() {
    assert_eq!(format_url_for_reqwest("a?b"), "a%3Fb");
    assert_eq!(format_url_for_reqwest("ab"), "ab");
}

#[test]
fn renders_page_with_quoted_title() {
    let p = Page { id: 7, title: String::from("He said \"hi\"") };
    assert_eq!(p.display_string(), "{ \"id\": 7, \"title\": \"He said \\\"hi\\\"\" }");
}

#[test]
fn renders_and_parses_decimals() {
    assert_eq!(usize_to_string(0), "0");
    assert_eq!(usize_to_string(907), "907");
    assert_eq!(parse_usize("42"), Some(42));
    assert_eq!(parse_usize(""), None);
    assert_eq!(parse_usize("4a2"), None);
    assert_eq!(parse_usize("99999999999999999999999999"), None);
}

#[test]
fn folds_ascii_case_only() {
    assert_eq!(str_to_lower("Tour_Eiffel"), "tour_eiffel");
    assert_eq!(str_to_lower("Été"), "Été");
    assert_eq!(str_to_lower("AbC"), "abc");
}

#[test]
fn finds_substrings() {
    assert!(str_contains_sub("abc<title>Wikimedia Error</title>xyz", "<title>Wikimedia Error</title>"));
    assert!(!str_contains_sub("abc", "abcd"));
    assert!(str_contains_sub("abc", ""));
}

#[test]
fn blocks_non_article_namespaces() {
    assert!(is_blocked_link("discussion:foo"));
    assert!(is_blocked_link("catégorie:bar"));
    assert!(!is_blocked_link("tour_eiffel"));
}

#[test]
fn extraction_decodes_folds_dedups_and_filters() {
    let raws = vec![
        String::from("Tour_Eiffel"),
        String::from("tour_eiffel"),
        String::from("Discussion:Foo"),
        String::from("Caf%C3%A9"),
    ];
    let out = extract_tokens(raws);
    assert_eq!(out.len(), 2);
    assert_eq!(out[0].0, "tour_eiffel");
    assert_eq!(out[0].1, "Tour_Eiffel");
    assert_eq!(out[1].0, "café");
    assert_eq!(out[1].1, "Caf%C3%A9");
}

#[test]
fn fetch_body_with_marker_is_transient() {
    assert!(fetch_is_transient("<html><title>Wikimedia Error</title></html>"));
    assert!(!fetch_is_transient("<html>fine</html>"));
}

#[test]
fn explore_parses_internal_links() {
    let body = "<a href=\"/wiki/Tour_Eiffel\" >x</a> <a href=\"/wiki/Foo#Section\" >y</a> <a href=\"/wiki/Discussion:Z\" >z</a>";
    match explore_step(body) {
        ExploreStep::Parsed(links) => {
            assert_eq!(links.len(), 2);
            assert_eq!(links[0].0, "tour_eiffel");
            assert_eq!(links[0].1, "Tour_Eiffel");
            assert_eq!(links[1].0, "foo");
            assert_eq!(links[1].1, "Foo");
        },
        ExploreStep::RetryAfterCooldown => panic!("body has no transient marker"),
    }
}

#[test]
fn explore_retries_on_transient_marker() {
    let body = "<title>Wikimedia Error</title>";
    assert!(matches!(explore_step(body), ExploreStep::RetryAfterCooldown));
}

#[test]
fn fetch_url_names_the_page_by_id() {
    assert_eq!(fetch_url(12), "https://fr.m.wikipedia.org/?curid=12");
}

#[test]
fn cooldown_grows_linearly_from_base() {
    assert_eq!(retry_cooldown_secs(3, 0), 4);
    assert_eq!(retry_cooldown_secs(3, 5), 9);
    assert_eq!(retry_cooldown_secs(u64::MAX, 1), u64::MAX);
}

#[test]
fn api_url_carries_escaped_token() {
    assert_eq!(
        api_request_url("a&b"),
        "https://fr.m.wikipedia.org/w/api.php?action=query&format=json&list=search&utf8=1&formatversion=2&srnamespace=0&srlimit=1&srsearch=a%26b"
    );
}

#[test]
fn web_url_carries_escaped_token() {
    assert_eq!(
        web_request_url("a?b"),
        "https://fr.m.wikipedia.org/wiki/Spécial:Recherche/a%3Fb"
    );
}

#[test]
fn long_tokens_skip_the_primary_tier() {
    let short = "a".repeat(98);
    let long = "a".repeat(99);
    assert!(!token_too_long(&short));
    assert!(token_too_long(&long));
    let amp = "&".repeat(40);
    assert!(token_too_long(&amp));
}

#[test]
fn unescapes_response_quotes() {
    assert_eq!(unescape_title("a\\\"b"), "a\"b");
    assert_eq!(unescape_title("plain"), "plain");
    assert_eq!(unescape_title("tail\\"), "tail\\");
}

#[test]
fn api_step_retries_on_non_object_body() {
    assert!(matches!(api_resolve_step("<html>error</html>"), ApiStep::RetryAfterCooldown));
}

#[test]
fn api_step_falls_through_on_empty_result() {
    let body = "{\"batchcomplete\":true,\"query\":{\"searchinfo\":{\"totalhits\":0},\"search\":[]}}";
    assert!(matches!(api_resolve_step(body), ApiStep::UseWebTier));
    let body2 = "{\"warnings\":{},\"query\":{}}";
    assert!(matches!(api_resolve_step(body2), ApiStep::UseWebTier));
}

#[test]
fn api_step_resolves_title_and_id() {
    let body = "{\"batchcomplete\":true,\"query\":{\"search\":[{\"ns\":0,\"title\":\"Tour Eiffel\",\"pageid\":1234,\"size\":10}]}}";
    match api_resolve_step(body) {
        ApiStep::Resolved(p) => {
            assert_eq!(p.id, 1234);
            assert_eq!(p.title, "Tour Eiffel");
        },
        _ => panic!("expected a resolved page"),
    }
}

#[test]
fn api_step_unescapes_quotes_in_title() {
    let body = "{\"batchcomplete\":true,\"query\":{\"search\":[{\"ns\":0,\"title\":\"a\\\"b\",\"pageid\":9,\"size\":10}]}}";
    match api_resolve_step(body) {
        ApiStep::Resolved(p) => {
            assert_eq!(p.id, 9);
            assert_eq!(p.title, "a\"b");
        },
        _ => panic!("expected a resolved page"),
    }
}

#[test]
fn api_step_fatal_on_unknown_shape() {
    let body = "{\"batchcomplete\":true,\"query\":{\"search\":[{\"ns\":0}]}}";
    assert!(matches!(api_resolve_step(body), ApiStep::FatalMismatch));
}

#[test]
fn web_step_scrapes_title_and_revision_id() {
    let body = "x\"wgTitle\":\"Foo\",\"wgCurRevisionId\":123,\"wgRevisionId\":456,y";
    match web_resolve_step(body) {
        WebStep::Resolved(p) => {
            assert_eq!(p.id, 456);
            assert_eq!(p.title, "Foo");
        },
        _ => panic!("expected a resolved page"),
    }
}

#[test]
fn web_step_retries_on_transient_marker() {
    assert!(matches!(
        web_resolve_step("<title>Wikimedia Error</title>"),
        WebStep::RetryAfterCooldown
    ));
}

#[test]
fn web_step_fatal_on_unknown_shape() {
    assert!(matches!(web_resolve_step("<html>nothing here</html>"), WebStep::FatalMismatch));
}

#[test]
fn normalizes_typed_addresses() {
    assert_eq!(normalize_page_query("https://fr.wikipedia.org/wiki/Tour_Eiffel\n"), "tour_eiffel");
    assert_eq!(
        normalize_page_query("https://fr.m.wikipedia.org/wiki/Spécial:Recherche/Foo\n"),
        "foo"
    );
    assert_eq!(normalize_page_query("Tour Eiffel\n"), "tour eiffel");
    assert_eq!(normalize_page_query("http-start-without-wiki\n"), "http-start-without-wiki");
}
