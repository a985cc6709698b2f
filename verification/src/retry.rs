//! Per-worker retry accounting for transient detail-page fetch failures.
//!
//! A `RetryCounter` is constructed fresh for each worker, so retry counts are
//! per item and never cross workers. A failure either grants another attempt
//! and records it, or — once the configured maximum is reached — tells the
//! worker to abandon the item with whatever partial data it holds.

use vstd::prelude::*;
use vstd::string::*;

use crate::text::str_eq;

verus! {

/// Retry bookkeeping: the configured maximum and, per item name, how many
/// retries that name has used so far.
pub struct RetryCounter {
    max: usize,
    entries: Vec<(String, usize)>,
}

impl RetryCounter {
    /// Internal shape: a maximum of at least one, no name twice, and every
    /// recorded count between one and the maximum.
    pub closed spec fn wf(&self) -> bool {
        &&& self.max >= 1
        &&& forall|i: int, j: int|
            0 <= i < j < self.entries@.len() ==> self.entries@[i].0@ != self.entries@[j].0@
        &&& forall|i: int|
            0 <= i < self.entries@.len() ==> 1 <= #[trigger] self.entries@[i].1 <= self.max
    }

    /// The configured maximum number of retries per item.
    pub closed spec fn spec_max(&self) -> nat {
        self.max as nat
    }

    /// Whether some retry has been recorded under `name`.
    pub closed spec fn has_name(&self, name: Seq<char>) -> bool {
        exists|k: int| 0 <= k < self.entries@.len() && self.entries@[k].0@ == name
    }

    /// The retries recorded under `name`; absent before the first failure.
    pub closed spec fn count_of(&self, name: Seq<char>) -> Option<nat> {
        if self.has_name(name) {
            let k = choose|k: int| 0 <= k < self.entries@.len() && self.entries@[k].0@ == name;
            Some(self.entries@[k].1 as nat)
        } else {
            None
        }
    }

    /// With unique names, the count under `name` is the one recorded at `i`.
    proof fn lemma_count_at(&self, name: Seq<char>, i: int)
        requires
            self.wf(),
            0 <= i < self.entries@.len(),
            self.entries@[i].0@ == name,
        ensures
            self.count_of(name) == Some(self.entries@[i].1 as nat),
    {
        assert(self.has_name(name));
        let k = choose|k: int| 0 <= k < self.entries@.len() && self.entries@[k].0@ == name;
        if k < i {
            assert(self.entries@[k].0@ != self.entries@[i].0@);
        } else if k > i {
            assert(self.entries@[i].0@ != self.entries@[k].0@);
        }
    }

    /// A name that stands at no entry has no count.
    proof fn lemma_count_absent(&self, name: Seq<char>)
        requires
            forall|k: int| 0 <= k < self.entries@.len() ==> self.entries@[k].0@ != name,
        ensures
            self.count_of(name) is None,
    {
        if self.has_name(name) {
            let k = choose|k: int| 0 <= k < self.entries@.len() && self.entries@[k].0@ == name;
            assert(false);
        }
    }

    /// A well-formed counter's maximum is at least one.
    pub proof fn lemma_max_positive(&self)
        requires
            self.wf(),
        ensures
            self.spec_max() >= 1,
    {
    }

    /// A recorded count never exceeds the configured maximum.
    pub proof fn lemma_counts_bounded(&self, name: Seq<char>)
        requires
            self.wf(),
        ensures
            match self.count_of(name) {
                Some(c) => 1 <= c <= self.spec_max(),
                None => true,
            },
    {
    }

    /// A fresh counter: nothing recorded yet.
    pub fn new(max: usize) -> (r: RetryCounter)
        requires
            max >= 1,
        ensures
            r.wf(),
            r.spec_max() == max,
            forall|n: Seq<char>| r.count_of(n) is None,
    {
        RetryCounter { max, entries: Vec::new() }
    }

    /// The configured maximum.
    pub fn max(&self) -> (r: usize)
        ensures
            r == self.spec_max(),
    {
        self.max
    }

    /// The retries recorded so far under `name`.
    pub fn retries_for(&self, name: &str) -> (r: Option<usize>)
        requires
            self.wf(),
        ensures
            match r {
                Some(c) => self.count_of(name@) == Some(c as nat),
                None => self.count_of(name@) is None,
            },
    {
        let n = self.entries.len();
        let mut i: usize = 0;
        while i < n
            invariant
                self.wf(),
                n == self.entries@.len(),
                i <= n,
                forall|k: int| 0 <= k < i ==> self.entries@[k].0@ != name@,
            decreases n - i,
        {
            if str_eq(self.entries[i].0.as_str(), name) {
                proof {
                    self.lemma_count_at(name@, i as int);
                }
                return Some(self.entries[i].1);
            }
            i += 1;
        }
        proof {
            self.lemma_count_absent(name@);
        }
        None
    }

    /// Books one fetch failure under `name` and decides: `true` grants one
    /// more attempt (the first failure books one retry, a later one books the
    /// next while the maximum is not yet used up); `false` means the maximum
    /// is exhausted and the item is to be abandoned, nothing changed.
    pub fn record_failure(&mut self, name: &str) -> (retry: bool)
        requires
            old(self).wf(),
        ensures
            final(self).wf(),
            final(self).spec_max() == old(self).spec_max(),
            match old(self).count_of(name@) {
                None => retry && final(self).count_of(name@) == Some(1nat),
                Some(c) => {
                    if c < old(self).spec_max() {
                        retry && final(self).count_of(name@) == Some((c + 1) as nat)
                    } else {
                        !retry && final(self).count_of(name@) == Some(c)
                    }
                },
            },
            forall|n: Seq<char>|
                n != name@ ==> #[trigger] final(self).count_of(n) == old(self).count_of(n),
    {
        let n = self.entries.len();
        let mut i: usize = 0;
        while i < n
            invariant
                *self == *old(self),
                self.wf(),
                n == self.entries@.len(),
                i <= n,
                forall|k: int| 0 <= k < i ==> self.entries@[k].0@ != name@,
            decreases n - i,
        {
            if str_eq(self.entries[i].0.as_str(), name) {
                let c = self.entries[i].1;
                proof {
                    self.lemma_count_at(name@, i as int);
                }
                if c < self.max {
                    self.entries[i].1 = c + 1;
                    proof {
                        let s_old = old(self).entries@;
                        let s_new = self.entries@;
                        assert(forall|k: int|
                            0 <= k < s_new.len() && k != i ==> s_new[k] == s_old[k]);
                        assert forall|k: int|
                            0 <= k < s_new.len() implies #[trigger] s_new[k].0@ == s_old[k].0@ by {
                        }
                        assert(self.wf());
                        self.lemma_count_at(name@, i as int);
                        assert forall|m: Seq<char>| m != name@ implies #[trigger] self.count_of(m)
                            == old(self).count_of(m) by {
                            if old(self).has_name(m) {
                                let k = choose|k: int|
                                    0 <= k < s_old.len() && s_old[k].0@ == m;
                                old(self).lemma_count_at(m, k);
                                self.lemma_count_at(m, k);
                            } else {
                                if self.has_name(m) {
                                    let k = choose|k: int|
                                        0 <= k < s_new.len() && s_new[k].0@ == m;
                                    assert(s_old[k].0@ == m);
                                    assert(old(self).has_name(m));
                                }
                                old(self).lemma_count_absent(m);
                                self.lemma_count_absent(m);
                            }
                        }
                    }
                    return true;
                } else {
                    return false;
                }
            }
            i += 1;
        }
        proof {
            self.lemma_count_absent(name@);
        }
        let ghost s_old = self.entries@;
        self.entries.push((name.to_owned(), 1));
        proof {
            let s_new = self.entries@;
            assert(s_new[s_new.len() - 1].0@ == name@);
            assert(forall|k: int| 0 <= k < s_old.len() ==> s_new[k] == s_old[k]);
            assert(self.wf());
            self.lemma_count_at(name@, s_new.len() - 1);
            assert forall|m: Seq<char>| m != name@ implies #[trigger] self.count_of(m) == old(
                self,
            ).count_of(m) by {
                if self.has_name(m) {
                    let k = choose|k: int| 0 <= k < s_new.len() && s_new[k].0@ == m;
                    assert(k < s_old.len());
                    old(self).lemma_count_at(m, k);
                    self.lemma_count_at(m, k);
                } else {
                    if old(self).has_name(m) {
                        let k = choose|k: int| 0 <= k < s_old.len() && s_old[k].0@ == m;
                        assert(s_new[k].0@ == m);
                        assert(self.has_name(m));
                    }
                    old(self).lemma_count_absent(m);
                    self.lemma_count_absent(m);
                }
            }
        }
        true
    }
}

/// The fetch attempts one worker makes for one item when every fetch fails,
/// counted from a state with `count` retries already recorded: one attempt,
/// then — while the maximum is not used up — the attempts after booking one
/// more retry.
pub open spec fn attempts_all_failing(count: nat, max: nat) -> nat
    decreases max - count,
{
    if count < max {
        1 + attempts_all_failing((count + 1) as nat, max)
    } else {
        1
    }
}

/// The fetch attempts a worker with a fresh counter makes for one item when
/// every fetch fails: the first attempt books one retry, the rest follow the
/// recorded count.
pub open spec fn attempts_from_fresh(max: nat) -> nat {
    1 + attempts_all_failing(1, max)
}

/// From `count` recorded retries, an all-failing run makes exactly
/// `max - count + 1` further attempts.
pub proof fn lemma_attempts_all_failing(count: nat, max: nat)
    requires
        count <= max,
    ensures
        attempts_all_failing(count, max) == max - count + 1,
    decreases max - count,
{
    if count < max {
        lemma_attempts_all_failing((count + 1) as nat, max);
    }
}

/// Retry bound: for any item, a worker with a fresh counter performs exactly
/// `max + 1` fetch attempts when every fetch fails — and hence at most
/// `max + 1` attempts on any run.
pub proof fn lemma_retry_bound(max: nat)
    requires
        max >= 1,
    ensures
        attempts_from_fresh(max) == max + 1,
{
    lemma_attempts_all_failing(1, max);
}

} // verus!
