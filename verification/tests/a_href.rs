use rdom_tui::a_href::{anchor_with_href, is_external_scheme, link_to_open, scheme_of};
use rdom_tui::dom::{Dom, NodeId};

fn anchor_dom(href: Option<&str>) -> (Dom, NodeId, NodeId) {
    let mut dom = Dom::new();
    let mut a = dom.create_element("a");
    if let Some(h) = href {
        a.set_attribute("href", h);
    }
    let t = dom.create_text_node("link");
    let ids = (a.id, t.id);
    a.append_child(t);
    dom.root.append_child(a);
    (dom, ids.0, ids.1)
}

#[test]
fn click_on_a_with_https_opens_via_opener() {
    let (dom, a, _) = anchor_dom(Some("https://example.com"));
    assert_eq!(link_to_open(&dom.root, a, false), Some("https://example.com".to_string()));
}

#[test]
fn each_external_scheme_opens() {
    for href in ["http://x", "https://x", "mailto:a@b", "tel:+1", "sms:+1", "ftp://x", "file:///tmp"] {
        let (dom, a, _) = anchor_dom(Some(href));
        assert_eq!(link_to_open(&dom.root, a, false), Some(href.to_string()), "{href} should have been opened");
    }
}

#[test]
fn click_on_a_with_relative_href_does_not_open() {
    let (dom, a, _) = anchor_dom(Some("/items/default"));
    assert_eq!(link_to_open(&dom.root, a, false), None);
}

#[test]
fn click_on_a_with_custom_scheme_does_not_open() {
    for href in ["tui://view/items", "app://home", "myapp://workspace/dev", "#section"] {
        let (dom, a, _) = anchor_dom(Some(href));
        assert_eq!(link_to_open(&dom.root, a, false), None, "{href} (internal) should not be opened by framework");
    }
}

#[test]
fn click_on_a_with_javascript_scheme_is_not_opened() {
    let (dom, a, _) = anchor_dom(Some("javascript:alert(1)"));
    assert_eq!(link_to_open(&dom.root, a, false), None);
}

#[test]
fn click_on_a_without_href_is_noop() {
    let (dom, a, _) = anchor_dom(None);
    assert_eq!(anchor_with_href(&dom.root, a), None);
    assert_eq!(link_to_open(&dom.root, a, false), None);
}

#[test]
fn prevent_default_on_click_blocks_opener() {
    let (dom, a, _) = anchor_dom(Some("https://example.com"));
    assert_eq!(link_to_open(&dom.root, a, true), None);
}

#[test]
fn click_on_text_inside_a_still_activates_anchor() {
    let (dom, a, t) = anchor_dom(Some("https://deep"));
    assert_eq!(anchor_with_href(&dom.root, t), Some(a));
    assert_eq!(link_to_open(&dom.root, t, false), Some("https://deep".to_string()));
}

#[test]
fn click_on_non_anchor_does_nothing() {
    let mut dom = Dom::new();
    let div = dom.create_element("div");
    let d = div.id;
    dom.root.append_child(div);
    assert_eq!(link_to_open(&dom.root, d, false), None);
}

#[test]
fn scheme_is_what_precedes_the_first_colon() {
    assert_eq!(scheme_of("https://x:1"), "https");
    assert_eq!(scheme_of("no-colon"), "");
    assert!(is_external_scheme("HTTPS"));
    assert!(is_external_scheme("data"));
    assert!(is_external_scheme("blob"));
    assert!(!is_external_scheme("javascript"));
}

#[test]
fn click_on_nested_element_inside_a_still_activates_anchor() {
    let mut dom = Dom::new();
    let mut a = dom.create_element("a");
    a.set_attribute("href", "https://nested");
    let mut span = dom.create_element("span");
    let t = dom.create_text_node("label");
    let (span_id, text_id) = (span.id, t.id);
    span.append_child(t);
    a.append_child(span);
    dom.root.append_child(a);
    assert_eq!(link_to_open(&dom.root, span_id, false), Some("https://nested".to_string()));
    assert_eq!(link_to_open(&dom.root, text_id, false), Some("https://nested".to_string()));
}
