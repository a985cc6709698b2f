use pkgscrape::conan::{apply_detail, extract_stub, normalize_name, stubs_from_listing, Conan, Item};

fn listing(entries: &[String]) -> String {
    format!("<div class=\"list-group\">{}</div>", entries.concat())
}

fn good_entry(name_html: &str, href: &str) -> String {
    format!("<a class=\"list-group-item\" href=\"{}\"><h3>{}</h3></a>", href, name_html)
}

#[test]
fn normalizes_artifact_heading_to_first_token() {
    assert_eq!(normalize_name("foo<!-- -->/<!-- -->bar extra"), "foo");
}

#[test]
fn plain_heading_stays() {
    assert_eq!(normalize_name("zlib"), "zlib");
}

#[test]
fn stub_carries_name_and_link() {
    let doc = listing(&[good_entry("foo<!-- -->/<!-- -->bar extra", "/center/recipes/foo")]);
    let stubs = stubs_from_listing(&doc);
    assert_eq!(stubs.len(), 1);
    assert_eq!(stubs[0].name, "foo");
    assert_eq!(stubs[0].href, "/center/recipes/foo");
    assert!(stubs[0].git.is_none());
    assert_eq!(stubs[0].description, "");
}

#[test]
fn entry_without_link_is_skipped() {
    let doc = listing(&["<div class=\"list-group-item\"><h3>x</h3></div>".to_string()]);
    assert_eq!(stubs_from_listing(&doc).len(), 0);
}

#[test]
fn entry_link_without_href_is_skipped() {
    let doc = listing(&["<a class=\"list-group-item\"><h3>x</h3></a>".to_string()]);
    assert_eq!(stubs_from_listing(&doc).len(), 0);
}

#[test]
fn entry_without_heading_is_skipped() {
    let doc = listing(&["<a class=\"list-group-item\" href=\"/x\"></a>".to_string()]);
    assert_eq!(stubs_from_listing(&doc).len(), 0);
}

#[test]
fn fragment_missing_both_fields_yields_no_stub() {
    assert!(extract_stub("<p>nothing here</p>").is_none());
}

#[test]
fn large_listing_loses_no_entry() {
    let mut entries = Vec::new();
    for i in 0..60 {
        if i % 12 == 0 {
            entries.push("<a class=\"list-group-item\"><h3>broken</h3></a>".to_string());
        } else {
            entries.push(good_entry(&format!("pkg{}", i), &format!("/center/recipes/pkg{}", i)));
        }
    }
    let stubs = stubs_from_listing(&listing(&entries));
    assert_eq!(stubs.len(), 55);
    let mut expect = Vec::new();
    for i in 0..60 {
        if i % 12 != 0 {
            expect.push(format!("pkg{}", i));
        }
    }
    let got: Vec<&str> = stubs.iter().map(|s| s.name.as_str()).collect();
    assert_eq!(got, expect.iter().map(|s| s.as_str()).collect::<Vec<&str>>());
}

fn fresh_item() -> Item {
    Item {
        name: "p".to_string(),
        href: "/center/recipes/p".to_string(),
        git: None,
        description: String::new(),
    }
}

#[test]
fn link_scan_last_match_wins() {
    let page = "<div>\
        <a href=\"https://github.com/a/first\">one</a>\
        <a href=\"https://conan.io/center\">site</a>\
        <a href=\"https://github.com/conan-io/conan\">both markers</a>\
        <a href=\"https://github.com/b/second\">two</a>\
        <a href=\"https://example.com\">other</a>\
        </div>";
    let mut item = fresh_item();
    apply_detail(&mut item, page);
    assert_eq!(item.git.as_deref(), Some("https://github.com/b/second"));
}

#[test]
fn link_scan_without_match_keeps_default() {
    let page = "<div><a href=\"https://example.com\">x</a><a>no href</a></div>";
    let mut item = fresh_item();
    apply_detail(&mut item, page);
    assert!(item.git.is_none());
    assert_eq!(item.name, "p");
    assert_eq!(item.href, "/center/recipes/p");
}

#[test]
fn detail_url_concatenates_base_and_href() {
    let cfg = Conan::new();
    assert_eq!(cfg.detail_url(&fresh_item()), "https://conan.io/center/recipes/p");
}

#[test]
fn default_configuration() {
    let cfg = Conan::new();
    assert_eq!(cfg.listing_url, "https://conan.io/center/recipes");
    assert_eq!(cfg.detail_base, "https://conan.io");
    assert_eq!(cfg.max_retries, 5);
    assert_eq!(cfg.pace_millis, 100);
    assert_eq!(cfg.retry_delay_millis, 500);
}
