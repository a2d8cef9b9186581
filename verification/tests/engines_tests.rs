use browser_core::engines::{engine_name, home_page, template};

#[test]
fn home_pages_are_bare_hosts() {
    assert_eq!(home_page(0), "https://ecosia.org");
    assert_eq!(home_page(1), "https://duckduckgo.com");
    assert_eq!(home_page(2), "https://search.brave.com");
    assert_eq!(home_page(3), "https://www.google.com");
    assert_eq!(home_page(4), "https://www.bing.com");
    assert_eq!(home_page(5), "https://kagi.com");
    assert_eq!(home_page(6), "https://search.yahoo.com");
}

#[test]
fn home_pages_have_no_path_query_or_trailing_slash() {
    for i in 0..browser_core::engine_count() {
        let h = home_page(i);
        let host = h.strip_prefix("https://").expect("home page keeps the https scheme");
        assert!(!host.is_empty());
        assert!(!host.contains('/'));
        assert!(!host.contains('?'));
        assert!(!host.contains('#'));
    }
}

#[test]
fn engine_names_in_registry_order() {
    let names = ["Ecosia", "DuckDuckGo", "Brave", "Google", "Bing", "Kagi", "Yahoo"];
    for (i, n) in names.iter().enumerate() {
        assert_eq!(engine_name(i), *n);
    }
}

#[test]
fn templates_in_registry_order() {
    assert_eq!(template(0), "https://ecosia.org/search?q=");
    assert_eq!(template(1), "https://duckduckgo.com/?q=");
    assert_eq!(template(6), "https://search.yahoo.com/search?q=");
}
