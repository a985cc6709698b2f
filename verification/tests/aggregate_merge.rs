use pkgscrape::aggregate::{contains_name, dedup_packages, merge_sources};
use pkgscrape::package::Package;

fn pkg(name: &str, git: Option<&str>, description: &str) -> Package {
    Package::new(name.to_string(), git.map(|g| g.to_string()), description.to_string())
}

#[test]
fn two_sources_one_zlib_first_record_wins() {
    let index_side = vec![pkg("zlib", Some("https://github.com/madler/zlib"), "from the index")];
    let listing_side = vec![pkg("zlib", Some("https://github.com/madler/zlib"), "from the listing")];
    let merged = merge_sources(&index_side, &listing_side);
    assert_eq!(merged.len(), 1);
    assert_eq!(merged[0].name, "zlib");
    assert_eq!(merged[0].description, "from the index");
}

#[test]
fn distinct_names_all_survive_in_order() {
    let a = vec![pkg("b", None, ""), pkg("a", None, "")];
    let b = vec![pkg("c", None, "")];
    let merged = merge_sources(&a, &b);
    let names: Vec<&str> = merged.iter().map(|p| p.name.as_str()).collect();
    assert_eq!(names, vec!["b", "a", "c"]);
}

#[test]
fn duplicates_within_one_list_are_dropped() {
    let list = vec![
        pkg("x", Some("https://github.com/x/1"), "first"),
        pkg("y", None, ""),
        pkg("x", Some("https://github.com/x/2"), "second"),
    ];
    let out = dedup_packages(&list);
    assert_eq!(out.len(), 2);
    assert_eq!(out[0].name, "x");
    assert_eq!(out[0].git.as_deref(), Some("https://github.com/x/1"));
    assert_eq!(out[0].description, "first");
    assert_eq!(out[1].name, "y");
}

#[test]
fn contains_name_finds_only_present_names() {
    let list = vec![pkg("x", None, ""), pkg("y", None, "")];
    assert!(contains_name(&list, "x"));
    assert!(contains_name(&list, "y"));
    assert!(!contains_name(&list, "z"));
}

#[test]
fn clone_copies_every_field() {
    let p = pkg("x", Some("https://github.com/x/x"), "d");
    let q = p.clone();
    assert_eq!(p.name, q.name);
    assert_eq!(p.git, q.git);
    assert_eq!(p.description, q.description);
}

#[test]
fn merging_empty_sources_yields_nothing() {
    let none: Vec<Package> = Vec::new();
    assert_eq!(merge_sources(&none, &none).len(), 0);
}
