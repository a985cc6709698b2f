//! The listing+detail source adapter: one listing page yields a bounded set
//! of entry fragments; each fragment yields a stub (name and detail link);
//! each stub's detail page is fetched — with bounded retries — and scanned
//! for a repository link. Fetching happens outside the library: the
//! functions here take page text (or a sequence of fetch outcomes) and are
//! verified against the extraction rules. HTML parsing and node selection
//! are done by an outside crate behind trusted wrappers.

use vstd::prelude::*;
use vstd::string::*;

use crate::package::{Package, PackageView};
use crate::retry::{attempts_all_failing, lemma_attempts_all_failing, RetryCounter};
use crate::text::{
    contains_seq, contains_sub, first_token, first_word, replace_all, replace_sub,
};

verus! {

/// The serialized markup of the nodes that `pattern` selects in `doc`, in
/// document order; absent exactly when `pattern` is not a valid selector.
pub uninterp spec fn selected_html_of(doc: Seq<char>, pattern: Seq<char>) -> Option<
    Seq<Seq<char>>,
>;

/// The `attr` attribute (absent where a node has none) of the nodes that
/// `pattern` selects in `doc`, in document order; absent exactly when
/// `pattern` is not a valid selector.
pub uninterp spec fn selected_attrs_of(doc: Seq<char>, pattern: Seq<char>, attr: Seq<char>) -> Option<
    Seq<Option<Seq<char>>>,
>;

/// The inner markup of the nodes that `pattern` selects in `doc`, in
/// document order; absent exactly when `pattern` is not a valid selector.
pub uninterp spec fn selected_inner_html_of(doc: Seq<char>, pattern: Seq<char>) -> Option<
    Seq<Seq<char>>,
>;

/// Relies on scraper::Html::parse_document, scraper::Selector::parse and
/// scraper::ElementRef::html: parsing builds a tree from the text alone, and
/// selection walks it in document order, so the serialized matches are a
/// function of text and pattern; `None` when the pattern is no valid
/// selector.
#[verifier::external_body]
fn select_html(doc: &str, pattern: &str) -> (r: Option<Vec<String>>)
    ensures
        r.deep_view() == selected_html_of(doc@, pattern@),
{
    match scraper::Selector::parse(pattern) {
        Ok(sel) => {
            let tree = scraper::Html::parse_document(doc);
            Some(tree.select(&sel).map(|e| e.html()).collect())
        },
        Err(_) => None,
    }
}

/// Relies on scraper::Html::parse_document, scraper::Selector::parse and
/// scraper::ElementRef::attr: the named attribute of each selected node is
/// a function of text, pattern and attribute name; `None` when the pattern
/// is no valid selector.
#[verifier::external_body]
fn select_attrs(doc: &str, pattern: &str, attr: &str) -> (r: Option<Vec<Option<String>>>)
    ensures
        r.deep_view() == selected_attrs_of(doc@, pattern@, attr@),
{
    match scraper::Selector::parse(pattern) {
        Ok(sel) => {
            let tree = scraper::Html::parse_document(doc);
            Some(tree.select(&sel).map(|e| e.attr(attr).map(|a| a.to_owned())).collect())
        },
        Err(_) => None,
    }
}

/// Relies on scraper::Html::parse_document, scraper::Selector::parse and
/// scraper::ElementRef::inner_html: the inner markup of the selected nodes
/// is a function of text and pattern; `None` when the pattern is no valid
/// selector.
#[verifier::external_body]
fn select_inner_html(doc: &str, pattern: &str) -> (r: Option<Vec<String>>)
    ensures
        r.deep_view() == selected_inner_html_of(doc@, pattern@),
{
    match scraper::Selector::parse(pattern) {
        Ok(sel) => {
            let tree = scraper::Html::parse_document(doc);
            Some(tree.select(&sel).map(|e| e.inner_html()).collect())
        },
        Err(_) => None,
    }
}

/// One candidate entry mid-pipeline: name and detail link from the listing,
/// repository link and description filled in from the detail page.
pub struct Item {
    pub name: String,
    pub href: String,
    pub git: Option<String>,
    pub description: String,
}

/// Mathematical image of an `Item`.
pub struct ItemView {
    pub name: Seq<char>,
    pub href: Seq<char>,
    pub git: Option<Seq<char>>,
    pub description: Seq<char>,
}

impl View for Item {
    type V = ItemView;

    open spec fn view(&self) -> ItemView {
        ItemView {
            name: self.name@,
            href: self.href@,
            git: self.git.deep_view(),
            description: self.description@,
        }
    }
}

impl DeepView for Item {
    type V = ItemView;

    open spec fn deep_view(&self) -> ItemView {
        self.view()
    }
}

/// The comment artifact that the listing's headings embed as a separator.
pub open spec fn artifact_marker() -> Seq<char> {
    "<!-- -->/<!-- -->"@
}

/// A raw heading text normalized to a name: every artifact marker replaced
/// by a space, then only the first space-separated token kept.
pub open spec fn normalized_name(raw: Seq<char>) -> Seq<char> {
    first_token(replace_all(raw, artifact_marker(), seq![' ']), ' ')
}

/// Normalizes a raw heading text to a package name.
pub fn normalize_name(raw: &str) -> (r: String)
    ensures
        r@ == normalized_name(raw@),
{
    proof {
        reveal_strlit("<!-- -->/<!-- -->");
        reveal_strlit(" ");
        assert(" "@ =~= seq![' ']);
    }
    let replaced = replace_sub(raw, "<!-- -->/<!-- -->", " ");
    first_word(replaced.as_str())
}

/// The first link's href of an entry fragment, when the fragment has a link
/// and the link has an href.
pub open spec fn first_href_of(frag: Seq<char>) -> Option<Seq<char>> {
    match selected_attrs_of(frag, "a"@, "href"@) {
        Some(hs) => if hs.len() > 0 {
            hs[0]
        } else {
            None
        },
        None => None,
    }
}

/// The first name heading's raw text of an entry fragment, when present.
pub open spec fn first_heading_of(frag: Seq<char>) -> Option<Seq<char>> {
    match selected_inner_html_of(frag, "a h3"@) {
        Some(ts) => if ts.len() > 0 {
            Some(ts[0])
        } else {
            None
        },
        None => None,
    }
}

/// The stub an entry fragment yields: present exactly when the required
/// link and name heading are found; the name normalized, the repository
/// link and description still at their defaults.
pub open spec fn stub_of(frag: Seq<char>) -> Option<ItemView> {
    match (first_href_of(frag), first_heading_of(frag)) {
        (Some(h), Some(t)) => Some(
            ItemView {
                name: normalized_name(t),
                href: h,
                git: None,
                description: Seq::empty(),
            },
        ),
        _ => None,
    }
}

/// Extracts the stub of one entry fragment; `None` when the required link
/// or name heading is missing (fatal to this entry alone).
pub fn extract_stub(frag: &str) -> (r: Option<Item>)
    ensures
        r.deep_view() == stub_of(frag@),
{
    let hrefs = match select_attrs(frag, "a", "href") {
        Some(hs) => hs,
        None => {
            return None;
        },
    };
    if hrefs.len() == 0 {
        return None;
    }
    let href = match &hrefs[0] {
        Some(h) => h.clone(),
        None => {
            assert(first_href_of(frag@) is None);
            return None;
        },
    };
    let heads = match select_inner_html(frag, "a h3") {
        Some(ts) => ts,
        None => {
            return None;
        },
    };
    if heads.len() == 0 {
        return None;
    }
    let name = normalize_name(heads[0].as_str());
    let item = Item { name, href, git: None, description: String::new() };
    assert(item.deep_view() =~= stub_of(frag@)->Some_0);
    Some(item)
}

/// The structural pattern of one listing entry.
pub open spec fn listing_pattern() -> Seq<char> {
    ".list-group .list-group-item"@
}

/// The stubs of a sequence of entry fragments, in order: one per fragment
/// whose required fields are present.
pub open spec fn stubs_of_fragments(frags: Seq<Seq<char>>) -> Seq<ItemView>
    decreases frags.len(),
{
    if frags.len() == 0 {
        Seq::empty()
    } else {
        let rest = stubs_of_fragments(frags.drop_last());
        match stub_of(frags.last()) {
            Some(it) => rest.push(it),
            None => rest,
        }
    }
}

/// The stubs of a whole listing page.
pub open spec fn listing_stubs(doc: Seq<char>) -> Seq<ItemView> {
    match selected_html_of(doc, listing_pattern()) {
        Some(frags) => stubs_of_fragments(frags),
        None => Seq::empty(),
    }
}

/// The number of fragments whose required fields are present.
pub open spec fn stub_count(frags: Seq<Seq<char>>) -> nat
    decreases frags.len(),
{
    if frags.len() == 0 {
        0
    } else {
        stub_count(frags.drop_last()) + if stub_of(frags.last()) is Some {
            1nat
        } else {
            0nat
        }
    }
}

/// No entry is lost and none is duplicated: the listing phase yields exactly
/// one stub per fragment whose required fields are present.
pub proof fn lemma_listing_no_loss(frags: Seq<Seq<char>>)
    ensures
        stubs_of_fragments(frags).len() == stub_count(frags),
    decreases frags.len(),
{
    if frags.len() > 0 {
        lemma_listing_no_loss(frags.drop_last());
    }
}

/// Phase one of the adapter: captures each listing entry's fragment and
/// extracts its stub; an entry missing its required link or name heading is
/// skipped, the others are kept in document order.
pub fn stubs_from_listing(doc: &str) -> (r: Vec<Item>)
    ensures
        r.deep_view() == listing_stubs(doc@),
{
    let frags = match select_html(doc, ".list-group .list-group-item") {
        Some(fs) => fs,
        None => {
            let empty: Vec<Item> = Vec::new();
            assert(empty.deep_view() =~= listing_stubs(doc@));
            return empty;
        },
    };
    let mut out: Vec<Item> = Vec::new();
    let mut i: usize = 0;
    proof {
        assert(out.deep_view() =~= stubs_of_fragments(frags.deep_view().subrange(0, 0)));
    }
    while i < frags.len()
        invariant
            i <= frags.len(),
            frags.deep_view().len() == frags.len(),
            frags.deep_view() == selected_html_of(doc@, listing_pattern())->Some_0,
            selected_html_of(doc@, listing_pattern()) is Some,
            out.deep_view() == stubs_of_fragments(frags.deep_view().subrange(0, i as int)),
        decreases frags.len() - i,
    {
        let ghost pre = out.deep_view();
        let stub = extract_stub(frags[i].as_str());
        match stub {
            Some(it) => {
                out.push(it);
                assert(out.deep_view() =~= pre.push(stub_of(frags.deep_view()[i as int])->Some_0));
            },
            None => {},
        }
        proof {
            let full = frags.deep_view();
            let post = full.subrange(0, i + 1);
            assert(post.drop_last() =~= full.subrange(0, i as int));
            assert(post.last() == full[i as int]);
        }
        i += 1;
    }
    proof {
        assert(frags.deep_view().subrange(0, frags.deep_view().len() as int) =~= frags.deep_view());
    }
    out
}

/// A link qualifies as a repository link when it mentions the code-hosting
/// marker and not the source site's own domain marker.
pub open spec fn repo_link_ok(l: Seq<char>) -> bool {
    contains_seq(l, "github"@) && !contains_seq(l, "conan"@)
}

/// The link-scan strategy's result: the last qualifying href on the page
/// wins; absent when no anchor qualifies.
pub open spec fn last_repo_link(hrefs: Seq<Option<Seq<char>>>) -> Option<Seq<char>>
    decreases hrefs.len(),
{
    if hrefs.len() == 0 {
        None
    } else {
        match hrefs.last() {
            Some(l) => if repo_link_ok(l) {
                Some(l)
            } else {
                last_repo_link(hrefs.drop_last())
            },
            None => last_repo_link(hrefs.drop_last()),
        }
    }
}

/// Whether a scanned href qualifies as a repository link at all.
pub open spec fn entry_qualifies(href: Option<Seq<char>>) -> bool {
    match href {
        Some(l) => repo_link_ok(l),
        None => false,
    }
}

/// Link-scan soundness, last match wins: whatever the scan yields mentions
/// the code-hosting marker and not the source site's own, stands among the
/// scanned hrefs, and no later href qualifies; when it yields nothing, no
/// href qualifies at all.
pub proof fn lemma_link_scan_sound(hrefs: Seq<Option<Seq<char>>>)
    ensures
        match last_repo_link(hrefs) {
            Some(l) => repo_link_ok(l) && exists|i: int|
                0 <= i < hrefs.len() && #[trigger] hrefs[i] == Some(l) && (forall|j: int|
                    i < j < hrefs.len() ==> !entry_qualifies(#[trigger] hrefs[j])),
            None => forall|j: int| 0 <= j < hrefs.len() ==> !entry_qualifies(#[trigger] hrefs[j]),
        },
    decreases hrefs.len(),
{
    if hrefs.len() > 0 {
        let rest = hrefs.drop_last();
        lemma_link_scan_sound(rest);
        let last = hrefs.last();
        assert(forall|j: int| 0 <= j < rest.len() ==> rest[j] == hrefs[j]);
        if entry_qualifies(last) {
            let i = hrefs.len() - 1;
            assert(hrefs[i] == Some(last->Some_0));
            assert(forall|j: int| i < j < hrefs.len() ==> !entry_qualifies(hrefs[j]));
        } else {
            assert(last_repo_link(hrefs) == last_repo_link(rest));
            match last_repo_link(rest) {
                Some(l) => {
                    let i = choose|i: int|
                        0 <= i < rest.len() && #[trigger] rest[i] == Some(l) && (forall|j: int|
                            i < j < rest.len() ==> !entry_qualifies(#[trigger] rest[j]));
                    assert(hrefs[i] == Some(l));
                    assert forall|j: int| i < j < hrefs.len() implies !entry_qualifies(
                        #[trigger] hrefs[j],
                    ) by {
                        if j < hrefs.len() - 1 {
                            assert(hrefs[j] == rest[j]);
                        }
                    }
                },
                None => {},
            }
        }
    }
}

/// Scans a list of anchor hrefs for the winning repository link.
pub fn pick_repo_link(hrefs: &Vec<Option<String>>) -> (r: Option<String>)
    ensures
        r.deep_view() == last_repo_link(hrefs.deep_view()),
{
    let mut found: Option<String> = None;
    let mut i: usize = 0;
    proof {
        assert(hrefs.deep_view().subrange(0, 0) =~= Seq::<Option<Seq<char>>>::empty());
    }
    while i < hrefs.len()
        invariant
            i <= hrefs.len(),
            hrefs.deep_view().len() == hrefs.len(),
            found.deep_view() == last_repo_link(hrefs.deep_view().subrange(0, i as int)),
        decreases hrefs.len() - i,
    {
        match &hrefs[i] {
            Some(l) => {
                if contains_sub(l.as_str(), "github") && !contains_sub(l.as_str(), "conan") {
                    found = Some(l.clone());
                }
            },
            None => {},
        }
        proof {
            let full = hrefs.deep_view();
            let post = full.subrange(0, i + 1);
            assert(post.drop_last() =~= full.subrange(0, i as int));
            assert(post.last() == full[i as int]);
        }
        i += 1;
    }
    proof {
        assert(hrefs.deep_view().subrange(0, hrefs.deep_view().len() as int) =~= hrefs.deep_view());
    }
    found
}

/// The repository link a detail page yields under the link-scan strategy.
pub open spec fn scanned_repo_link(page: Seq<char>) -> Option<Seq<char>> {
    match selected_attrs_of(page, "a"@, "href"@) {
        Some(hs) => last_repo_link(hs),
        None => None,
    }
}

/// Applies one successfully fetched detail page to an item: the repository
/// link is overwritten by the page's winning anchor, and kept as it was when
/// the page has none; the other fields stay.
pub fn apply_detail(item: &mut Item, page: &str)
    ensures
        final(item)@.name == old(item)@.name,
        final(item)@.href == old(item)@.href,
        final(item)@.description == old(item)@.description,
        final(item)@.git == match scanned_repo_link(page@) {
            Some(l) => Some(l),
            None => old(item)@.git,
        },
{
    match select_attrs(page, "a", "href") {
        Some(hs) => {
            match pick_repo_link(&hs) {
                Some(l) => {
                    item.git = Some(l);
                },
                None => {},
            }
        },
        None => {},
    }
}

/// The fetch attempts the detail procedure makes against `outcomes` — the
/// text each attempt would fetch, `None` a transient failure, anything past
/// the end failing too — from `count` recorded retries (attempt number and
/// recorded count advance together from a fresh counter): a successful
/// fetch ends the run; a failure books a retry while the maximum allows and
/// ends the run otherwise.
pub open spec fn detail_attempts(
    outcomes: Seq<Option<Seq<char>>>,
    count: nat,
    max: nat,
) -> nat
    decreases max - count,
{
    let head = if count < outcomes.len() {
        outcomes[count as int]
    } else {
        None
    };
    if head is Some {
        1
    } else if count < max {
        1 + detail_attempts(outcomes, (count + 1) as nat, max)
    } else {
        1
    }
}

/// The page text of the attempt that succeeds within the retry budget, if
/// any.
pub open spec fn detail_success(
    outcomes: Seq<Option<Seq<char>>>,
    count: nat,
    max: nat,
) -> Option<Seq<char>>
    decreases max - count,
{
    let head = if count < outcomes.len() {
        outcomes[count as int]
    } else {
        None
    };
    match head {
        Some(page) => Some(page),
        None => if count < max {
            detail_success(outcomes, (count + 1) as nat, max)
        } else {
            None
        },
    }
}

/// From `count` recorded retries the detail procedure makes at most
/// `max - count + 1` attempts, whatever the outcomes.
pub proof fn lemma_detail_attempts_bound(
    outcomes: Seq<Option<Seq<char>>>,
    count: nat,
    max: nat,
)
    requires
        count <= max,
    ensures
        detail_attempts(outcomes, count, max) <= max - count + 1,
    decreases max - count,
{
    if count < max {
        lemma_detail_attempts_bound(outcomes, (count + 1) as nat, max);
    }
}

/// Retry bound, exhaustion case: when every fetch fails, the detail
/// procedure performs exactly the attempts the retry accounting allows —
/// `max - count + 1` from `count` recorded retries, so `max + 1` from a
/// fresh counter — and yields no page.
pub proof fn lemma_detail_exhaustion(outcomes: Seq<Option<Seq<char>>>, count: nat, max: nat)
    requires
        count <= max,
        forall|i: int| 0 <= i < outcomes.len() ==> outcomes[i] is None,
    ensures
        detail_attempts(outcomes, count, max) == attempts_all_failing(count, max),
        detail_attempts(outcomes, count, max) == max - count + 1,
        detail_success(outcomes, count, max) is None,
    decreases max - count,
{
    lemma_attempts_all_failing(count, max);
    if count < max {
        lemma_detail_exhaustion(outcomes, (count + 1) as nat, max);
    }
}

/// Drives the detail procedure for one item against a sequence of fetch
/// outcomes, with a fresh per-worker retry counter: on the first success
/// within the retry budget the page is applied to the item; when the budget
/// is exhausted the item is abandoned unchanged. Returns the number of fetch
/// attempts, at most the maximum plus one.
pub fn run_detail(
    item: &mut Item,
    counter: &mut RetryCounter,
    outcomes: &Vec<Option<String>>,
) -> (attempts: usize)
    requires
        old(counter).wf(),
        old(counter).spec_max() < usize::MAX,
        old(counter).count_of(old(item)@.name) is None,
    ensures
        final(counter).wf(),
        attempts == detail_attempts(outcomes.deep_view(), 0, old(counter).spec_max()),
        attempts <= old(counter).spec_max() + 1,
        match detail_success(outcomes.deep_view(), 0, old(counter).spec_max()) {
            Some(page) => {
                &&& final(item)@.name == old(item)@.name
                &&& final(item)@.href == old(item)@.href
                &&& final(item)@.description == old(item)@.description
                &&& final(item)@.git == match scanned_repo_link(page) {
                    Some(l) => Some(l),
                    None => old(item)@.git,
                }
            },
            None => *final(item) == *old(item),
        },
{
    let ghost full = outcomes.deep_view();
    let ghost m = old(counter).spec_max();
    let ghost name = old(item)@.name;
    let mut attempts: usize = 0;
    proof {
        old(counter).lemma_max_positive();
    }
    loop
        invariant
            counter.wf(),
            counter.spec_max() == m,
            m == old(counter).spec_max(),
            1 <= m < usize::MAX,
            *item == *old(item),
            item@.name == name,
            full == outcomes.deep_view(),
            attempts <= m,
            match counter.count_of(name) {
                None => attempts == 0,
                Some(c) => c == attempts as nat,
            },
            detail_attempts(full, 0, m) == attempts + detail_attempts(full, attempts as nat, m),
            detail_success(full, 0, m) == detail_success(full, attempts as nat, m),
        decreases m - attempts,
    {
        let idx = attempts;
        if idx < outcomes.len() {
            match &outcomes[idx] {
                Some(page) => {
                    proof {
                        assert(full[idx as int] == Some(page@));
                        assert(detail_attempts(full, idx as nat, m) == 1);
                        assert(detail_success(full, idx as nat, m) == Some(page@));
                    }
                    apply_detail(item, page.as_str());
                    return idx + 1;
                },
                None => {
                    assert(full[idx as int] is None);
                },
            }
        }
        proof {
            if (idx as int) < full.len() {
                assert(full[idx as int] is None);
            }
        }
        let retry = counter.record_failure(item.name.as_str());
        if !retry {
            proof {
                assert(attempts == m);
                assert(detail_attempts(full, idx as nat, m) == 1);
                assert(detail_success(full, idx as nat, m) is None);
            }
            return idx + 1;
        }
        proof {
            assert((idx as nat) < m);
            assert(detail_attempts(full, idx as nat, m) == 1 + detail_attempts(
                full,
                (idx + 1) as nat,
                m,
            ));
            assert(detail_success(full, idx as nat, m) == detail_success(
                full,
                (idx + 1) as nat,
                m,
            ));
        }
        attempts = idx + 1;
        proof {
            lemma_detail_attempts_bound(full, attempts as nat, m);
        }
    }
}

/// The package a finished item maps to.
pub open spec fn package_of_detail_item(it: ItemView) -> PackageView {
    PackageView { name: it.name, git: it.git, description: it.description }
}

/// Phase three of the adapter: maps every finished item to a package, in the
/// order the items stand in.
pub fn finish_items(items: &Vec<Item>) -> (r: Vec<Package>)
    ensures
        r.deep_view() == items.deep_view().map_values(|it: ItemView| package_of_detail_item(it)),
{
    let mut out: Vec<Package> = Vec::new();
    let mut i: usize = 0;
    proof {
        assert(out.deep_view() =~= items.deep_view().subrange(0, 0).map_values(
            |it: ItemView| package_of_detail_item(it),
        ));
    }
    while i < items.len()
        invariant
            i <= items.len(),
            items.deep_view().len() == items.len(),
            out.deep_view() == items.deep_view().subrange(0, i as int).map_values(
                |it: ItemView| package_of_detail_item(it),
            ),
        decreases items.len() - i,
    {
        let it = &items[i];
        let git = match &it.git {
            Some(g) => Some(g.clone()),
            None => None,
        };
        let p = Package { name: it.name.clone(), git, description: it.description.clone() };
        let ghost pre = out.deep_view();
        out.push(p);
        proof {
            let full = items.deep_view();
            assert(out.deep_view() =~= pre.push(package_of_detail_item(full[i as int])));
            assert(full.subrange(0, i + 1).map_values(
                |it: ItemView| package_of_detail_item(it),
            ) =~= full.subrange(0, i as int).map_values(
                |it: ItemView| package_of_detail_item(it),
            ).push(package_of_detail_item(full[i as int])));
        }
        i += 1;
    }
    proof {
        assert(items.deep_view().subrange(0, items.deep_view().len() as int) =~= items.deep_view());
    }
    out
}

/// The listing+detail adapter's configuration: the fixed endpoints, the
/// retry maximum, and the two pacing delays, passed in at construction.
pub struct Conan {
    pub listing_url: String,
    pub detail_base: String,
    pub max_retries: usize,
    pub pace_millis: u64,
    pub retry_delay_millis: u64,
}

impl Conan {
    /// The documented defaults: the public listing endpoint, a maximum of
    /// five retries, a tenth of a second between dispatches and half a
    /// second before a retry.
    pub fn new() -> (r: Conan)
        ensures
            r.listing_url@ == "https://conan.io/center/recipes"@,
            r.detail_base@ == "https://conan.io"@,
            r.max_retries == 5,
            r.pace_millis == 100,
            r.retry_delay_millis == 500,
    {
        Conan {
            listing_url: "https://conan.io/center/recipes".to_owned(),
            detail_base: "https://conan.io".to_owned(),
            max_retries: 5,
            pace_millis: 100,
            retry_delay_millis: 500,
        }
    }

    /// The absolute detail-page address of one item: the fixed base origin
    /// followed by the item's relative link.
    pub fn detail_url(&self, item: &Item) -> (r: String)
        ensures
            r@ == self.detail_base@ + item@.href,
    {
        let mut r = self.detail_base.clone();
        r.append(item.href.as_str());
        r
    }
}

} // verus!
