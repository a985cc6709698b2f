//! The index-file source adapter: one JSON document, decoded into a flat
//! list of candidate entries, is filtered by a homepage predicate and mapped
//! to package records in document order. Fetching and decoding the document
//! happen outside the library; the adapter works on the decoded values.

use vstd::prelude::*;
use vstd::string::*;

use crate::package::{Package, PackageView};
use crate::text::{contains_seq, contains_sub, join_words, join_words_spec};

verus! {

/// A description as the index document encodes it: either one string or a
/// list of strings. Both shapes stand for one logical description text.
pub enum Descriptions {
    Arr(Vec<String>),
    Str(String),
}

/// Mathematical image of `Descriptions`.
pub enum DescriptionsView {
    Arr(Seq<Seq<char>>),
    Str(Seq<char>),
}

impl View for Descriptions {
    type V = DescriptionsView;

    open spec fn view(&self) -> DescriptionsView {
        match self {
            Descriptions::Arr(v) => DescriptionsView::Arr(v.deep_view()),
            Descriptions::Str(s) => DescriptionsView::Str(s@),
        }
    }
}

impl DeepView for Descriptions {
    type V = DescriptionsView;

    open spec fn deep_view(&self) -> DescriptionsView {
        self.view()
    }
}

/// One candidate entry of the index document.
pub struct Item {
    pub name: String,
    pub homepage: Option<String>,
    pub description: Option<Descriptions>,
}

/// Mathematical image of an index entry.
pub struct ItemView {
    pub name: Seq<char>,
    pub homepage: Option<Seq<char>>,
    pub description: Option<DescriptionsView>,
}

impl View for Item {
    type V = ItemView;

    open spec fn view(&self) -> ItemView {
        ItemView {
            name: self.name@,
            homepage: self.homepage.deep_view(),
            description: self.description.deep_view(),
        }
    }
}

impl DeepView for Item {
    type V = ItemView;

    open spec fn deep_view(&self) -> ItemView {
        self.view()
    }
}

/// The one logical description text of an encoded description: the string
/// itself, the list joined by single spaces, or empty when absent.
pub open spec fn description_text_spec(d: Option<DescriptionsView>) -> Seq<char> {
    match d {
        None => Seq::empty(),
        Some(DescriptionsView::Str(s)) => s,
        Some(DescriptionsView::Arr(v)) => join_words_spec(v),
    }
}

/// Normalizes an encoded description to its one logical text.
pub fn description_text(d: &Option<Descriptions>) -> (r: String)
    ensures
        r@ == description_text_spec(d.deep_view()),
{
    match d {
        None => String::new(),
        Some(Descriptions::Str(s)) => s.clone(),
        Some(Descriptions::Arr(v)) => join_words(v),
    }
}

/// The two description shapes agree: a list decodes to the same logical text
/// as the single string made of its words joined by spaces.
pub proof fn lemma_description_shapes_agree(v: Seq<Seq<char>>, s: Seq<char>)
    requires
        join_words_spec(v) == s,
    ensures
        description_text_spec(Some(DescriptionsView::Arr(v))) == description_text_spec(
            Some(DescriptionsView::Str(s)),
        ),
{
}

/// An entry is included exactly when it carries a homepage whose text
/// mentions the code-hosting marker.
pub open spec fn item_included(it: ItemView) -> bool {
    match it.homepage {
        Some(h) => contains_seq(h, "github"@),
        None => false,
    }
}

/// The package an included entry maps to: the homepage becomes the
/// repository link, kept exactly as the document gave it.
pub open spec fn package_of_item(it: ItemView) -> PackageView {
    PackageView {
        name: it.name,
        git: it.homepage,
        description: description_text_spec(it.description),
    }
}

/// The adapter's output: the included entries, mapped, in document order.
pub open spec fn filter_items_spec(items: Seq<ItemView>) -> Seq<PackageView>
    decreases items.len(),
{
    if items.len() == 0 {
        Seq::empty()
    } else {
        let rest = filter_items_spec(items.drop_last());
        if item_included(items.last()) {
            rest.push(package_of_item(items.last()))
        } else {
            rest
        }
    }
}

/// The index document as decoded: two header fields and the entry list.
pub struct Vcpkg {
    pub baseline: Option<String>,
    pub size: Option<usize>,
    pub source: Vec<Item>,
}

impl Vcpkg {
    /// An empty document: no header values, no entries.
    pub fn new() -> (r: Vcpkg)
        ensures
            r.baseline is None,
            r.size is None,
            r.source@.len() == 0,
    {
        Vcpkg { baseline: None, size: None, source: Vec::new() }
    }

    /// Filters the decoded entries: one package per entry whose homepage
    /// holds the code-hosting marker, in document order, with the homepage
    /// as the repository link and the description normalized to one text.
    pub fn scrape(&self) -> (r: Vec<Package>)
        ensures
            r.deep_view() == filter_items_spec(self.source.deep_view()),
    {
        let items = &self.source;
        let mut filtered: Vec<Package> = Vec::new();
        let mut i: usize = 0;
        proof {
            assert(filtered.deep_view() =~= filter_items_spec(
                items.deep_view().subrange(0, 0),
            ));
        }
        while i < items.len()
            invariant
                i <= items.len(),
                items.deep_view().len() == items.len(),
                filtered.deep_view() == filter_items_spec(
                    items.deep_view().subrange(0, i as int),
                ),
            decreases items.len() - i,
        {
            let it = &items[i];
            let included = match &it.homepage {
                Some(h) => contains_sub(h.as_str(), "github"),
                None => false,
            };
            let ghost pre = filtered.deep_view();
            if included {
                let git = match &it.homepage {
                    Some(h) => Some(h.clone()),
                    None => None,
                };
                let p = Package {
                    name: it.name.clone(),
                    git,
                    description: description_text(&it.description),
                };
                assert(p.deep_view() =~= package_of_item(items.deep_view()[i as int]));
                filtered.push(p);
                assert(filtered.deep_view() =~= pre.push(
                    package_of_item(items.deep_view()[i as int]),
                ));
            }
            proof {
                let full = items.deep_view();
                let post = full.subrange(0, i + 1);
                assert(post.drop_last() =~= full.subrange(0, i as int));
                assert(post.last() == full[i as int]);
                assert(item_included(full[i as int]) == included);
            }
            i += 1;
        }
        proof {
            assert(items.deep_view().subrange(0, items.deep_view().len() as int) =~= items
                .deep_view());
        }
        filtered
    }
}

/// The index-file adapter is deterministic: the same decoded document yields
/// the same packages in the same order, run after run.
pub proof fn lemma_index_adapter_deterministic(a: Seq<ItemView>, b: Seq<ItemView>)
    requires
        a == b,
    ensures
        filter_items_spec(a) == filter_items_spec(b),
{
}

/// Filter correctness: every included entry's package is in the output, and
/// everything in the output is the package of some included entry.
pub proof fn lemma_filter_correctness(items: Seq<ItemView>)
    ensures
        forall|j: int|
            0 <= j < items.len() && item_included(items[j]) ==> filter_items_spec(
                items,
            ).contains(package_of_item(items[j])),
        forall|p: PackageView|
            filter_items_spec(items).contains(p) ==> exists|j: int|
                0 <= j < items.len() && item_included(items[j]) && p == package_of_item(items[j]),
    decreases items.len(),
{
    if items.len() > 0 {
        let rest = items.drop_last();
        lemma_filter_correctness(rest);
        let f = filter_items_spec(items);
        let fr = filter_items_spec(rest);
        assert forall|j: int|
            0 <= j < items.len() && item_included(items[j]) implies f.contains(
            package_of_item(items[j]),
        ) by {
            if j < items.len() - 1 {
                assert(rest[j] == items[j]);
                assert(fr.contains(package_of_item(items[j])));
                let w = choose|k: int| 0 <= k < fr.len() && fr[k] == package_of_item(items[j]);
                assert(f[w] == package_of_item(items[j]));
            } else {
                assert(item_included(items.last()));
                assert(f.last() == package_of_item(items.last()));
            }
        }
        assert forall|p: PackageView| f.contains(p) implies exists|j: int|
            0 <= j < items.len() && item_included(items[j]) && p == package_of_item(
                items[j],
            ) by {
            let w = choose|k: int| 0 <= k < f.len() && f[k] == p;
            if w < fr.len() {
                assert(fr[w] == p);
                assert(fr.contains(p));
                let j = choose|j: int|
                    0 <= j < rest.len() && item_included(rest[j]) && p == package_of_item(rest[j]);
                assert(items[j] == rest[j]);
            } else {
                assert(p == package_of_item(items.last()));
                assert(item_included(items[items.len() - 1]));
            }
        }
    }
}

} // verus!
