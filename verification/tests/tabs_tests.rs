use browser_core::tabs::Browser;

#[test]
fn new_browser_is_empty() {
    let b = Browser::new(0);
    assert_eq!(b.page_count(), 0);
    assert_eq!(b.current_index(), None);
    assert_eq!(b.current_tab_id(), None);
    assert_eq!(b.address_bar_text(), "");
}

#[test]
fn open_tab_returns_engine_home_page_and_becomes_current() {
    let mut b = Browser::new(0);
    let url = b.open_tab();
    assert_eq!(url, "https://ecosia.org");
    assert_eq!(b.page_count(), 1);
    assert_eq!(b.current_index(), Some(0));
    assert_eq!(b.current_tab_id(), Some(0));

    let mut b2 = Browser::new(1);
    assert_eq!(b2.open_tab(), "https://duckduckgo.com");
}

#[test]
fn close_current_tab_selects_a_remaining_tab_and_resyncs_address_bar() {
    let mut b = Browser::new(0);
    b.open_tab();
    b.open_tab();
    b.open_tab();
    assert_eq!(b.page_count(), 3);
    b.on_uri_changed(0, "https://a.example".to_string());
    b.on_uri_changed(1, "https://b.example".to_string());
    b.on_uri_changed(2, "https://c.example".to_string());
    b.switch_to(1);
    assert_eq!(b.address_bar_text(), "https://b.example");

    b.close_page(1);
    assert_eq!(b.page_count(), 2);
    assert_eq!(b.current_index(), Some(1));
    assert_eq!(b.current_tab_id(), Some(2));
    assert_eq!(b.tab_url(1), Some("https://c.example".to_string()));
    assert_eq!(b.address_bar_text(), "https://c.example");
}

#[test]
fn closing_the_last_remaining_tab_leaves_no_pages() {
    let mut b = Browser::new(0);
    b.open_tab();
    b.close_page(0);
    assert_eq!(b.page_count(), 0);
    assert_eq!(b.current_index(), None);
    assert_eq!(b.current_tab_id(), None);
}

#[test]
fn closing_out_of_range_does_nothing() {
    let mut b = Browser::new(0);
    b.open_tab();
    b.close_page(5);
    assert_eq!(b.page_count(), 1);
}

#[test]
fn background_uri_report_leaves_address_bar_until_switch() {
    let mut b = Browser::new(0);
    b.open_tab();
    b.open_tab();
    b.on_uri_changed(1, "https://front.example".to_string());
    assert_eq!(b.address_bar_text(), "https://front.example");

    b.on_uri_changed(0, "https://back.example".to_string());
    assert_eq!(b.address_bar_text(), "https://front.example");
    assert_eq!(b.tab_url(0), Some("https://back.example".to_string()));

    b.switch_to(0);
    assert_eq!(b.address_bar_text(), "https://back.example");
}

#[test]
fn uri_report_for_closed_tab_does_nothing() {
    let mut b = Browser::new(0);
    b.open_tab();
    b.on_uri_changed(42, "https://ghost.example".to_string());
    assert_eq!(b.tab_url(0), None);
    assert_eq!(b.address_bar_text(), "");
}

#[test]
fn title_report_changes_label_never_address_bar() {
    let mut b = Browser::new(0);
    b.open_tab();
    b.on_uri_changed(0, "https://a.example".to_string());
    b.on_title_changed(0, "A page".to_string());
    assert_eq!(b.tab_title(0), Some("A page".to_string()));
    assert_eq!(b.address_bar_text(), "https://a.example");
}

#[test]
fn settings_page_is_not_a_tab() {
    let mut b = Browser::new(0);
    b.open_tab();
    b.open_settings();
    assert_eq!(b.page_count(), 2);
    assert_eq!(b.current_index(), Some(1));
    assert_eq!(b.current_tab_id(), None);
    assert_eq!(b.submit("openai"), None);
    b.close_page(1);
    assert_eq!(b.page_count(), 1);
    assert_eq!(b.current_tab_id(), Some(0));
}

#[test]
fn submit_resolves_with_selected_engine() {
    let mut b = Browser::new(0);
    b.open_tab();
    b.select_engine(1);
    assert_eq!(b.submit("openai"), Some("https://duckduckgo.com/?q=openai".to_string()));
    assert_eq!(b.submit("example.com"), Some("https://example.com".to_string()));
    assert_eq!(b.submit("https://foo.bar/baz"), Some("https://foo.bar/baz".to_string()));
}

#[test]
fn select_engine_ignores_out_of_range() {
    let mut b = Browser::new(2);
    b.select_engine(99);
    assert_eq!(b.engine_index(), 2);
    b.select_engine(4);
    assert_eq!(b.engine_index(), 4);
}

#[test]
fn new_tab_title_before_any_report() {
    let mut b = Browser::new(0);
    b.open_tab();
    assert_eq!(b.tab_title(0), Some("New Tab".to_string()));
    assert_eq!(b.tab_url(0), None);
}
