//! The aggregator: merges the outputs of the selected source adapters into
//! one deduplicated collection. The deduplication identity is the package
//! name alone — the stricter of the two candidate keys — and the first
//! record inserted under a name wins; later records under the same name are
//! dropped whatever their other fields say.

use vstd::prelude::*;
use vstd::string::*;

use crate::package::{Package, PackageView};
use crate::text::str_eq;

verus! {

/// Some record in `s` carries the name `n`.
pub open spec fn name_in(s: Seq<PackageView>, n: Seq<char>) -> bool {
    exists|i: int| 0 <= i < s.len() && s[i].name == n
}

/// The deduplicated image of `s`: records kept in first-occurrence order,
/// one per name, the first record under each name winning.
pub open spec fn dedup_spec(s: Seq<PackageView>) -> Seq<PackageView>
    decreases s.len(),
{
    if s.len() == 0 {
        Seq::empty()
    } else {
        let d = dedup_spec(s.drop_last());
        if name_in(d, s.last().name) {
            d
        } else {
            d.push(s.last())
        }
    }
}

/// Whether some record of `ps` carries the name `name`.
pub fn contains_name(ps: &Vec<Package>, name: &str) -> (r: bool)
    ensures
        r == name_in(ps.deep_view(), name@),
{
    let mut i: usize = 0;
    while i < ps.len()
        invariant
            i <= ps.len(),
            ps.deep_view().len() == ps.len(),
            forall|k: int| 0 <= k < i ==> ps.deep_view()[k].name != name@,
        decreases ps.len() - i,
    {
        if str_eq(ps[i].name.as_str(), name) {
            assert(ps.deep_view()[i as int].name == name@);
            return true;
        }
        i += 1;
    }
    false
}

/// Deduplicates a collection of records by name, keeping the first record
/// under each name, in first-occurrence order.
pub fn dedup_packages(packages: &Vec<Package>) -> (r: Vec<Package>)
    ensures
        r.deep_view() == dedup_spec(packages.deep_view()),
{
    let mut out: Vec<Package> = Vec::new();
    let mut i: usize = 0;
    proof {
        assert(out.deep_view() =~= dedup_spec(packages.deep_view().subrange(0, 0)));
    }
    while i < packages.len()
        invariant
            i <= packages.len(),
            packages.deep_view().len() == packages.len(),
            out.deep_view() == dedup_spec(packages.deep_view().subrange(0, i as int)),
        decreases packages.len() - i,
    {
        let ghost pre = out.deep_view();
        if !contains_name(&out, packages[i].name.as_str()) {
            out.push(packages[i].clone());
            assert(out.deep_view() =~= pre.push(packages.deep_view()[i as int]));
        }
        proof {
            let full = packages.deep_view();
            let post = full.subrange(0, i + 1);
            assert(post.drop_last() =~= full.subrange(0, i as int));
            assert(post.last() == full[i as int]);
        }
        i += 1;
    }
    proof {
        assert(packages.deep_view().subrange(0, packages.deep_view().len() as int) =~= packages
            .deep_view());
    }
    out
}

/// Merges the outputs of two source adapters: the records of `a` followed by
/// those of `b`, deduplicated by name, first record winning.
pub fn merge_sources(a: &Vec<Package>, b: &Vec<Package>) -> (r: Vec<Package>)
    ensures
        r.deep_view() == dedup_spec(a.deep_view() + b.deep_view()),
{
    let mut combined: Vec<Package> = Vec::new();
    let mut i: usize = 0;
    while i < a.len()
        invariant
            i <= a.len(),
            a.deep_view().len() == a.len(),
            combined.deep_view() == a.deep_view().subrange(0, i as int),
        decreases a.len() - i,
    {
        let ghost pre = combined.deep_view();
        combined.push(a[i].clone());
        proof {
            assert(combined.deep_view() =~= pre.push(a.deep_view()[i as int]));
            assert(a.deep_view().subrange(0, i + 1) =~= a.deep_view().subrange(0, i as int).push(
                a.deep_view()[i as int],
            ));
        }
        i += 1;
    }
    proof {
        assert(a.deep_view().subrange(0, a.deep_view().len() as int) =~= a.deep_view());
    }
    let mut j: usize = 0;
    while j < b.len()
        invariant
            j <= b.len(),
            b.deep_view().len() == b.len(),
            combined.deep_view() == a.deep_view() + b.deep_view().subrange(0, j as int),
        decreases b.len() - j,
    {
        let ghost pre = combined.deep_view();
        combined.push(b[j].clone());
        proof {
            assert(combined.deep_view() =~= pre.push(b.deep_view()[j as int]));
            assert(a.deep_view() + b.deep_view().subrange(0, j + 1) =~= (a.deep_view()
                + b.deep_view().subrange(0, j as int)).push(b.deep_view()[j as int]));
        }
        j += 1;
    }
    proof {
        assert(a.deep_view() + b.deep_view().subrange(0, b.deep_view().len() as int) =~= a
            .deep_view() + b.deep_view());
    }
    dedup_packages(&combined)
}

/// No name stands twice in a deduplicated collection.
pub proof fn lemma_dedup_unique(s: Seq<PackageView>)
    ensures
        forall|i: int, j: int|
            0 <= i < j < dedup_spec(s).len() ==> dedup_spec(s)[i].name != dedup_spec(s)[j].name,
    decreases s.len(),
{
    if s.len() > 0 {
        lemma_dedup_unique(s.drop_last());
        let d = dedup_spec(s.drop_last());
        if !name_in(d, s.last().name) {
            assert forall|i: int, j: int|
                0 <= i < j < dedup_spec(s).len() implies dedup_spec(s)[i].name != dedup_spec(
                s,
            )[j].name by {
                if j == dedup_spec(s).len() - 1 {
                    assert(dedup_spec(s)[i] == d[i]);
                    assert(!(d[i].name == s.last().name));
                }
            }
        }
    }
}

/// A name survives deduplication exactly when some input record carries it,
/// and every deduplicated record is one of the input records.
pub proof fn lemma_dedup_names(s: Seq<PackageView>)
    ensures
        forall|n: Seq<char>| #[trigger] name_in(dedup_spec(s), n) <==> name_in(s, n),
        forall|i: int|
            0 <= i < dedup_spec(s).len() ==> exists|j: int|
                0 <= j < s.len() && s[j] == #[trigger] dedup_spec(s)[i],
    decreases s.len(),
{
    if s.len() > 0 {
        lemma_dedup_names(s.drop_last());
        let rest = s.drop_last();
        let d = dedup_spec(rest);
        let f = dedup_spec(s);
        assert forall|n: Seq<char>| #[trigger] name_in(f, n) implies name_in(s, n) by {
            let i = choose|i: int| 0 <= i < f.len() && f[i].name == n;
            if i < d.len() {
                assert(name_in(d, n));
                let j = choose|j: int| 0 <= j < rest.len() && rest[j].name == n;
                assert(s[j].name == n);
            } else {
                assert(f[i] == s.last());
                assert(s[s.len() - 1].name == n);
            }
        }
        assert forall|n: Seq<char>| name_in(s, n) implies #[trigger] name_in(f, n) by {
            let j = choose|j: int| 0 <= j < s.len() && s[j].name == n;
            if j < s.len() - 1 {
                assert(rest[j].name == n);
                assert(name_in(rest, n));
                assert(name_in(d, n));
                let i = choose|i: int| 0 <= i < d.len() && d[i].name == n;
                assert(f[i].name == n);
            } else {
                if name_in(d, n) {
                    let i = choose|i: int| 0 <= i < d.len() && d[i].name == n;
                    assert(f[i].name == n);
                } else {
                    assert(f[f.len() - 1].name == n);
                }
            }
        }
        assert forall|i: int| 0 <= i < f.len() implies exists|j: int|
            0 <= j < s.len() && s[j] == #[trigger] f[i] by {
            if i < d.len() {
                let j = choose|j: int| 0 <= j < rest.len() && rest[j] == d[i];
                assert(s[j] == f[i]);
            } else {
                assert(s[s.len() - 1] == f[i]);
            }
        }
    }
}

/// First record wins: every record that is the first of its name in the
/// input stands, unchanged, in the deduplicated output.
pub proof fn lemma_dedup_first_wins(s: Seq<PackageView>)
    ensures
        forall|j: int|
            0 <= j < s.len() && !name_in(s.subrange(0, j), s[j].name) ==> dedup_spec(s).contains(
                s[j],
            ),
    decreases s.len(),
{
    if s.len() > 0 {
        let rest = s.drop_last();
        lemma_dedup_first_wins(rest);
        lemma_dedup_names(rest);
        let d = dedup_spec(rest);
        let f = dedup_spec(s);
        assert forall|j: int|
            0 <= j < s.len() && !name_in(s.subrange(0, j), s[j].name) implies f.contains(
            s[j],
        ) by {
            if j < s.len() - 1 {
                assert(s.subrange(0, j) =~= rest.subrange(0, j));
                assert(rest[j] == s[j]);
                assert(d.contains(rest[j]));
                let i = choose|i: int| 0 <= i < d.len() && d[i] == rest[j];
                assert(f[i] == s[j]);
            } else {
                assert(s.subrange(0, j) =~= rest);
                assert(!name_in(rest, s[j].name));
                assert(!name_in(d, s[j].name));
                assert(f[f.len() - 1] == s[j]);
            }
        }
    }
}

} // verus!
