use browser_core::encode::{percent_decode, percent_encode};
use browser_core::resolve::resolve;
use browser_core::engines::{query_url, template};

#[test]
fn url_input_is_returned_unchanged_for_every_engine() {
    for i in 0..browser_core::engine_count() {
        assert_eq!(resolve("https://foo.bar/baz", i), "https://foo.bar/baz");
        assert_eq!(resolve("http://example.org/x?y=z", i), "http://example.org/x?y=z");
    }
}

#[test]
fn bare_host_gets_https_scheme() {
    for i in 0..browser_core::engine_count() {
        assert_eq!(resolve("example.com", i), "https://example.com");
        assert_eq!(resolve("sub.domain.co.uk/path", i), "https://sub.domain.co.uk/path");
    }
}

#[test]
fn query_goes_to_selected_engine() {
    assert_eq!(resolve("openai", 1), "https://duckduckgo.com/?q=openai");
    assert_eq!(resolve("openai", 0), "https://ecosia.org/search?q=openai");
    assert_eq!(resolve("rust tutorial", 3), "https://www.google.com/search?q=rust%20tutorial");
}

#[test]
fn input_with_dot_and_space_is_a_query() {
    assert_eq!(resolve("what is 2.5", 1), "https://duckduckgo.com/?q=what%20is%202.5");
}

#[test]
fn empty_input_searches_for_the_empty_string() {
    for i in 0..browser_core::engine_count() {
        assert_eq!(resolve("", i), template(i));
    }
}

#[test]
fn query_url_appends_encoded_text() {
    assert_eq!(query_url(1, "openai"), "https://duckduckgo.com/?q=openai");
    assert_eq!(query_url(6, "a&b=c"), "https://search.yahoo.com/search?q=a%26b%3Dc");
}

#[test]
fn percent_encode_exact_values() {
    assert_eq!(percent_encode("hello world"), "hello%20world");
    assert_eq!(percent_encode("a.b-c_d~e"), "a.b-c_d~e");
    assert_eq!(percent_encode("100%"), "100%25");
    assert_eq!(percent_encode("q?a=1&b=2"), "q%3Fa%3D1%26b%3D2");
    assert_eq!(percent_encode(""), "");
    assert_eq!(percent_encode("\u{e9}t\u{e9}"), "%C3%A9t%C3%A9");
}

#[test]
fn percent_encode_matches_urlencoding_crate() {
    let samples = [
        "openai",
        "hello world",
        "a/b?c=d&e#f",
        "caf\u{e9} au lait",
        "\u{2603} snow",
        "~tilde_and-dash.",
        "",
        "100% + 2 = ?",
    ];
    for s in samples {
        assert_eq!(percent_encode(s), urlencoding::encode(s).into_owned());
    }
}

#[test]
fn percent_decode_inverts_percent_encode() {
    let samples = ["openai", "hello world", "a/b?c=d&e#f", "caf\u{e9}", "\u{2603}", ""];
    for s in samples {
        let decoded = percent_decode(&percent_encode(s)).expect("encoded text decodes");
        assert_eq!(decoded, s.as_bytes().to_vec());
    }
}

#[test]
fn query_portion_of_search_url_decodes_back() {
    let input = "hello world & more";
    let url = resolve(input, 0);
    let prefix = template(0);
    let query = url.strip_prefix(&prefix).expect("search URL starts with the template");
    let decoded = percent_decode(query).expect("query portion decodes");
    assert_eq!(decoded, input.as_bytes().to_vec());
}

#[test]
fn percent_decode_rejects_malformed_escapes() {
    assert!(percent_decode("%").is_none());
    assert!(percent_decode("%2").is_none());
    assert!(percent_decode("%zz").is_none());
    assert!(percent_decode("caf\u{e9}").is_none());
    assert_eq!(percent_decode("%41%42c"), Some(b"ABc".to_vec()));
}
