//! The blocklist engine's membership set: a sorted, deduplicated vector of
//! 64-bit name fingerprints with binary-search lookup, and the merge step
//! that folds each source's fingerprints in with duplicate elimination.
//!
//! Fetching the sources is the embedder's job; it hands this module one
//! outcome per source. A refresh builds a new set aside and the embedder
//! installs it wholesale, so concurrent lookups see the old complete set
//! until the new one is complete. Entries accumulate across rounds and are
//! deduplicated; within one engine instance they do not expire.

use vstd::prelude::*;

use crate::fingerprint::fingerprint_spec;

verus! {

/// The set of values a fingerprint sequence holds.
pub open spec fn seq_fp_set(s: Seq<u64>) -> Set<u64> {
    Set::new(|fp: u64| s.contains(fp))
}

/// Strictly increasing: sorted with no duplicates.
pub open spec fn strictly_sorted(s: Seq<u64>) -> bool {
    forall|i: int, j: int| 0 <= i < j < s.len() ==> s[i] < s[j]
}

/// What one configured source contributed to a refresh round.
pub enum SourceOutcome {
    /// The source was fetched and parsed into these fingerprints.
    Fetched(Vec<u64>),
    /// The source failed: transport error, non-success status, or unusable
    /// content. It contributes nothing to this round.
    Failed,
}

/// The fingerprints one source outcome contributes.
pub open spec fn source_set(o: SourceOutcome) -> Set<u64> {
    match o {
        SourceOutcome::Fetched(v) => seq_fp_set(v@),
        SourceOutcome::Failed => Set::empty(),
    }
}

/// Everything the round's sources contributed, together.
pub open spec fn sources_union(rs: Seq<SourceOutcome>) -> Set<u64>
    decreases rs.len(),
{
    if rs.len() == 0 {
        Set::empty()
    } else {
        sources_union(rs.drop_last()).union(source_set(rs.last()))
    }
}

/// Per-source refresh observability: how many fingerprints the source
/// yielded, and how many of them were not yet in the set.
pub struct SourceReport {
    pub total: usize,
    pub fresh: usize,
}

/// One report per source, in the order the outcomes were applied.
pub struct RefreshReport {
    pub sources: Vec<SourceReport>,
}

/// The compact block set: membership of name fingerprints, nothing else.
pub struct Blacklist {
    set: Vec<u64>,
}

impl View for Blacklist {
    type V = Seq<u64>;

    closed spec fn view(&self) -> Seq<u64> {
        self.set@
    }
}

impl Blacklist {
    /// The backing store is always sorted and deduplicated.
    pub open spec fn wf(&self) -> bool {
        strictly_sorted(self@)
    }

    /// The membership this set answers.
    pub open spec fn model(&self) -> Set<u64> {
        seq_fp_set(self@)
    }

    /// The number of stored fingerprints.
    pub open spec fn spec_len(&self) -> nat {
        self@.len()
    }

    /// An empty block set.
    pub fn new() -> (r: Blacklist)
        ensures
            r.wf(),
            r.model() == Set::<u64>::empty(),
            r.spec_len() == 0,
    {
        let r = Blacklist { set: Vec::new() };
        proof {
            assert(r.model() =~= Set::<u64>::empty());
        }
        r
    }

    /// The number of stored fingerprints.
    pub fn len(&self) -> (r: usize)
        ensures
            r == self.spec_len(),
    {
        self.set.len()
    }

    /// An identical copy, built without touching `self`.
    pub fn duplicate(&self) -> (r: Blacklist)
        ensures
            r@ == self@,
    {
        let mut set: Vec<u64> = Vec::new();
        let mut i: usize = 0;
        while i < self.set.len()
            invariant
                i <= self.set@.len(),
                set@ == self.set@.take(i as int),
            decreases self.set@.len() - i,
        {
            set.push(self.set[i]);
            proof {
                assert(self.set@.take(i + 1) =~= self.set@.take(i as int).push(self.set@[i as int]));
            }
            i = i + 1;
        }
        proof {
            assert(self.set@.take(self.set@.len() as int) =~= self.set@);
        }
        Blacklist { set }
    }

    /// The first index whose fingerprint is not below `fp`, by binary
    /// search over the sorted store.
    fn lower_bound(&self, fp: u64) -> (pos: usize)
        requires
            self.wf(),
        ensures
            pos <= self.set@.len(),
            forall|i: int| 0 <= i < pos ==> self.set@[i] < fp,
            forall|i: int| pos <= i < self.set@.len() ==> fp <= self.set@[i],
    {
        let mut lo: usize = 0;
        let mut hi: usize = self.set.len();
        while lo < hi
            invariant
                lo <= hi <= self.set@.len(),
                self.wf(),
                forall|i: int| 0 <= i < lo ==> self.set@[i] < fp,
                forall|i: int| hi <= i < self.set@.len() ==> fp <= self.set@[i],
            decreases hi - lo,
        {
            let mid = lo + (hi - lo) / 2;
            if self.set[mid] < fp {
                lo = mid + 1;
            } else {
                hi = mid;
            }
        }
        lo
    }

    /// Membership of a fingerprint in the live set.
    pub fn contains_fp(&self, fp: u64) -> (r: bool)
        requires
            self.wf(),
        ensures
            r == self.model().contains(fp),
    {
        let pos = self.lower_bound(fp);
        if pos < self.set.len() && self.set[pos] == fp {
            proof {
                assert(self.set@.contains(fp)) by {
                    assert(self.set@[pos as int] == fp);
                }
            }
            true
        } else {
            proof {
                assert forall|i: int| 0 <= i < self.set@.len() implies self.set@[i] != fp by {
                    if i < pos {
                        assert(self.set@[i] < fp);
                    }
                }
            }
            false
        }
    }

    /// Membership of a name: normalize, fingerprint, binary search.
    pub fn is_blocked(&self, name: &Vec<u8>) -> (r: bool)
        requires
            self.wf(),
        ensures
            r == self.model().contains(fingerprint_spec(name@)),
    {
        let fp = crate::fingerprint::fingerprint(name);
        self.contains_fp(fp)
    }

    /// Fold one source's fingerprints into the set. A fingerprint already
    /// present is not re-inserted; the store stays sorted and deduplicated.
    pub fn merge_source(&mut self, fps: &Vec<u64>) -> (report: SourceReport)
        requires
            old(self).wf(),
        ensures
            final(self).wf(),
            final(self).model() == old(self).model().union(seq_fp_set(fps@)),
            report.total == fps@.len(),
            report.fresh == final(self).spec_len() - old(self).spec_len(),
            report.fresh <= report.total,
    {
        let ghost pre = *self;
        let mut k: usize = 0;
        let mut fresh: usize = 0;
        while k < fps.len()
            invariant
                k <= fps@.len(),
                self.wf(),
                self.model() == pre.model().union(seq_fp_set(fps@.take(k as int))),
                fresh <= k,
                self.spec_len() == pre.spec_len() + fresh,
            decreases fps@.len() - k,
        {
            let fp = fps[k];
            let pos = self.lower_bound(fp);
            let ghost before = self.set@;
            if pos < self.set.len() && self.set[pos] == fp {
                proof {
                    assert(self.set@.contains(fp)) by {
                        assert(self.set@[pos as int] == fp);
                    }
                    assert(self.model() =~= pre.model().union(seq_fp_set(fps@.take(k + 1)))) by {
                        lemma_take_one_more(fps@, k as int);
                    }
                }
            } else {
                self.set.insert(pos, fp);
                fresh = fresh + 1;
                proof {
                    lemma_sorted_insert(before, pos as int, fp);
                    assert(seq_fp_set(before.insert(pos as int, fp)) =~= seq_fp_set(before).insert(fp)) by {
                        lemma_insert_contains(before, pos as int, fp);
                    }
                    assert(self.model() =~= pre.model().union(seq_fp_set(fps@.take(k + 1)))) by {
                        lemma_take_one_more(fps@, k as int);
                    }
                }
            }
            k = k + 1;
        }
        proof {
            assert(fps@.take(fps@.len() as int) =~= fps@);
        }
        SourceReport { total: fps.len(), fresh }
    }

    /// Apply one refresh round: fold every fetched source in, let every
    /// failed source contribute zero entries, and report per source. The
    /// round itself always completes, whatever the outcomes were.
    pub fn apply_results(&mut self, results: &Vec<SourceOutcome>) -> (report: RefreshReport)
        requires
            old(self).wf(),
        ensures
            final(self).wf(),
            final(self).model() == old(self).model().union(sources_union(results@)),
            report.sources@.len() == results@.len(),
            forall|i: int| 0 <= i < results@.len() ==> (#[trigger] report.sources@[i]).total
                == source_total(results@[i]),
    {
        let ghost pre = *self;
        let mut sources: Vec<SourceReport> = Vec::new();
        let mut k: usize = 0;
        while k < results.len()
            invariant
                k <= results@.len(),
                self.wf(),
                self.model() == pre.model().union(sources_union(results@.take(k as int))),
                sources@.len() == k,
                forall|i: int| 0 <= i < k ==> (#[trigger] sources@[i]).total
                    == source_total(results@[i]),
            decreases results@.len() - k,
        {
            let ghost mid = self.model();
            match &results[k] {
                SourceOutcome::Fetched(fps) => {
                    let r = self.merge_source(fps);
                    sources.push(r);
                }
                SourceOutcome::Failed => {
                    sources.push(SourceReport { total: 0, fresh: 0 });
                    proof {
                        assert(self.model() =~= mid.union(source_set(results@[k as int])));
                    }
                }
            }
            proof {
                assert(results@.take(k + 1).drop_last() =~= results@.take(k as int));
                assert(results@.take(k + 1).last() == results@[k as int]);
                assert(self.model() =~= pre.model().union(sources_union(results@.take(k + 1))));
            }
            k = k + 1;
        }
        proof {
            assert(results@.take(results@.len() as int) =~= results@);
        }
        RefreshReport { sources }
    }

    /// Build the set a refresh round would install, without modifying the
    /// live one: the embedder swaps the result in wholesale once complete.
    pub fn rebuilt(&self, results: &Vec<SourceOutcome>) -> (r: (Blacklist, RefreshReport))
        requires
            self.wf(),
        ensures
            r.0.wf(),
            r.0.model() == self.model().union(sources_union(results@)),
            r.1.sources@.len() == results@.len(),
    {
        let mut fresh = self.duplicate();
        let report = fresh.apply_results(results);
        (fresh, report)
    }
}

/// How many fingerprints one outcome carried.
pub open spec fn source_total(o: SourceOutcome) -> nat {
    match o {
        SourceOutcome::Fetched(v) => v@.len(),
        SourceOutcome::Failed => 0,
    }
}

proof fn lemma_take_one_more(s: Seq<u64>, k: int)
    requires
        0 <= k < s.len(),
    ensures
        seq_fp_set(s.take(k + 1)) =~= seq_fp_set(s.take(k)).insert(s[k]),
{
    let a = s.take(k + 1);
    let b = s.take(k);
    assert forall|x: u64| a.contains(x) implies b.contains(x) || x == s[k] by {
        let i = choose|i: int| 0 <= i < a.len() && a[i] == x;
        if i < k {
            assert(b[i] == x);
        }
    }
    assert forall|x: u64| b.contains(x) implies a.contains(x) by {
        let i = choose|i: int| 0 <= i < b.len() && b[i] == x;
        assert(a[i] == x);
    }
    assert(a[k] == s[k]);
}

proof fn lemma_sorted_insert(s: Seq<u64>, pos: int, fp: u64)
    requires
        strictly_sorted(s),
        0 <= pos <= s.len(),
        forall|i: int| 0 <= i < pos ==> s[i] < fp,
        forall|i: int| pos <= i < s.len() ==> fp < s[i],
    ensures
        strictly_sorted(s.insert(pos, fp)),
{
    let t = s.insert(pos, fp);
    assert forall|i: int, j: int| 0 <= i < j < t.len() implies t[i] < t[j] by {
        assert(t[i] == if i < pos { s[i] } else if i == pos { fp } else { s[i - 1] });
        assert(t[j] == if j < pos { s[j] } else if j == pos { fp } else { s[j - 1] });
    }
}

proof fn lemma_insert_contains(s: Seq<u64>, pos: int, fp: u64)
    requires
        0 <= pos <= s.len(),
    ensures
        forall|x: u64| #[trigger] s.insert(pos, fp).contains(x) <==> (s.contains(x) || x == fp),
{
    let t = s.insert(pos, fp);
    assert forall|x: u64| t.contains(x) implies s.contains(x) || x == fp by {
        let i = choose|i: int| 0 <= i < t.len() && t[i] == x;
        if i < pos {
            assert(s[i] == x);
        } else if i > pos {
            assert(s[i - 1] == x);
        }
    }
    assert forall|x: u64| s.contains(x) || x == fp implies t.contains(x) by {
        if s.contains(x) {
            let i = choose|i: int| 0 <= i < s.len() && s[i] == x;
            if i < pos {
                assert(t[i] == x);
            } else {
                assert(t[i + 1] == x);
            }
        } else {
            assert(t[pos] == fp);
        }
    }
}

/// Membership after a refresh round, spelled out: a fingerprint is in the
/// union exactly when it was already present or some source yielded it.
pub proof fn lemma_refresh_membership(pre: Set<u64>, results: Seq<SourceOutcome>, fp: u64)
    ensures
        pre.union(sources_union(results)).contains(fp) <==> (pre.contains(fp) || exists|i: int|
            0 <= i < results.len() && source_set(#[trigger] results[i]).contains(fp)),
    decreases results.len(),
{
    if results.len() == 0 {
    } else {
        lemma_refresh_membership(pre, results.drop_last(), fp);
        if sources_union(results).contains(fp) && !pre.contains(fp) {
            if source_set(results.last()).contains(fp) {
                assert(source_set(results[results.len() - 1]).contains(fp));
            } else {
                let i = choose|i: int| 0 <= i < results.drop_last().len()
                    && source_set(#[trigger] results.drop_last()[i]).contains(fp);
                assert(source_set(results[i]).contains(fp));
            }
        }
        if exists|i: int| 0 <= i < results.len() && source_set(#[trigger] results[i]).contains(fp) {
            let i = choose|i: int| 0 <= i < results.len()
                && source_set(#[trigger] results[i]).contains(fp);
            if i < results.len() - 1 {
                assert(source_set(results.drop_last()[i]).contains(fp));
            }
        }
    }
}

/// Membership monotonicity under refresh: every fingerprint present before
/// a round is still present after it, and a fingerprint absent before that
/// no source yielded is absent after.
pub proof fn lemma_membership_monotone(pre: Set<u64>, results: Seq<SourceOutcome>, fp: u64)
    ensures
        pre.contains(fp) ==> pre.union(sources_union(results)).contains(fp),
        !pre.contains(fp) && (forall|i: int| 0 <= i < results.len()
            ==> !source_set(#[trigger] results[i]).contains(fp)) ==> !pre.union(
            sources_union(results),
        ).contains(fp),
{
    lemma_refresh_membership(pre, results, fp);
}

/// Source isolation: however source `k` fared, every fingerprint yielded
/// by any other source is in the refreshed set; and a round in which
/// source `k` failed installs exactly what the same round installs with
/// source `k` contributing nothing.
pub proof fn lemma_source_isolation(pre: Set<u64>, results: Seq<SourceOutcome>, k: int, fp: u64)
    requires
        0 <= k < results.len(),
    ensures
        (exists|i: int| 0 <= i < results.len() && i != k && source_set(#[trigger] results[i]).contains(fp))
            ==> pre.union(sources_union(results)).contains(fp),
        results[k] == SourceOutcome::Failed ==> pre.union(sources_union(results)) == pre.union(
            sources_union(results.update(k, SourceOutcome::Failed)),
        ),
{
    lemma_refresh_membership(pre, results, fp);
    if results[k] == SourceOutcome::Failed {
        assert(results.update(k, SourceOutcome::Failed) =~= results);
    }
}

/// No partial visibility: a lookup concurrent with a refresh observes the
/// old complete set or the new complete set. In the new one, everything
/// previously present and everything any source yielded is present
/// together; no observable state mixes part of the round in.
pub proof fn lemma_refresh_visibility(pre: Set<u64>, results: Seq<SourceOutcome>, observed: Set<u64>)
    requires
        observed == pre || observed == pre.union(sources_union(results)),
    ensures
        observed == pre || ((forall|fp: u64| pre.contains(fp) ==> observed.contains(fp))
            && (forall|i: int, fp: u64| 0 <= i < results.len()
                && #[trigger] source_set(results[i]).contains(fp) ==> observed.contains(fp))),
{
    if observed != pre {
        assert forall|i: int, fp: u64| 0 <= i < results.len()
            && #[trigger] source_set(results[i]).contains(fp) implies observed.contains(fp) by {
            lemma_refresh_membership(pre, results, fp);
        }
    }
}

} // verus!
