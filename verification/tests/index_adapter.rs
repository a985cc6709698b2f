use pkgscrape::package::Package;
use pkgscrape::vcpkg::{Descriptions, Item, Vcpkg};

fn doc_with(items: Vec<Item>) -> Vcpkg {
    let mut doc = Vcpkg::new();
    doc.source = items;
    doc
}

fn entry(name: &str, homepage: Option<&str>, description: Option<Descriptions>) -> Item {
    Item {
        name: name.to_string(),
        homepage: homepage.map(|h| h.to_string()),
        description,
    }
}

fn same_packages(a: &[Package], b: &[Package]) -> bool {
    a.len() == b.len()
        && a.iter().zip(b.iter()).all(|(x, y)| {
            x.name == y.name && x.git == y.git && x.description == y.description
        })
}

#[test]
fn includes_github_homepage_exactly() {
    let doc = doc_with(vec![entry("zlib", Some("https://github.com/org/repo"), None)]);
    let out = doc.scrape();
    assert_eq!(out.len(), 1);
    assert_eq!(out[0].name, "zlib");
    assert_eq!(out[0].git.as_deref(), Some("https://github.com/org/repo"));
    assert_eq!(out[0].description, "");
}

#[test]
fn excludes_homepage_without_marker() {
    let doc = doc_with(vec![entry("x", Some("https://example.com/x"), None)]);
    assert_eq!(doc.scrape().len(), 0);
}

#[test]
fn skips_entry_without_homepage() {
    let doc = doc_with(vec![entry("x", None, None)]);
    assert_eq!(doc.scrape().len(), 0);
}

#[test]
fn description_list_joins_with_spaces() {
    let listed = doc_with(vec![entry(
        "a",
        Some("https://github.com/a/a"),
        Some(Descriptions::Arr(vec!["a".to_string(), "b".to_string()])),
    )]);
    let single = doc_with(vec![entry(
        "a",
        Some("https://github.com/a/a"),
        Some(Descriptions::Str("a b".to_string())),
    )]);
    let from_list = listed.scrape();
    let from_string = single.scrape();
    assert_eq!(from_list[0].description, "a b");
    assert_eq!(from_list[0].description, from_string[0].description);
}

#[test]
fn two_runs_agree() {
    let make = || {
        doc_with(vec![
            entry("c", Some("https://github.com/c/c"), None),
            entry("skip", Some("https://example.com"), None),
            entry("a", Some("https://github.com/a/a"), Some(Descriptions::Str("s".to_string()))),
        ])
    };
    let first = make().scrape();
    let second = make().scrape();
    assert!(same_packages(&first, &second));
}

#[test]
fn document_order_is_preserved() {
    let doc = doc_with(vec![
        entry("c", Some("https://github.com/c/c"), None),
        entry("a", Some("https://github.com/a/a"), None),
        entry("b", Some("https://github.com/b/b"), None),
    ]);
    let out = doc.scrape();
    let names: Vec<&str> = out.iter().map(|p| p.name.as_str()).collect();
    assert_eq!(names, vec!["c", "a", "b"]);
}

#[test]
fn empty_document_yields_nothing() {
    assert_eq!(Vcpkg::new().scrape().len(), 0);
}
