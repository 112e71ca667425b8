//! The zone-scoped router: a catalog mapping configured zone names to
//! handlers, dispatching each query to the zone whose name is the longest
//! suffix match of the query's owner name. Most specific zone wins, as in
//! DNS delegation; a query no configured zone covers is routed nowhere and
//! the caller answers with a refusal.
//!
//! Zone and query names here are normalized: lower-case with a trailing
//! dot.

use vstd::prelude::*;

use crate::bytes::bytes_eq;
use crate::name::DOT;

verus! {

/// A zone covers a query name when the zone name is a suffix of the query
/// name on a label boundary. The root zone `"."` covers every name.
pub open spec fn zone_matches(zone: Seq<u8>, q: Seq<u8>) -> bool {
    &&& zone.len() <= q.len()
    &&& q.skip(q.len() - zone.len()) == zone
    &&& (zone.len() == q.len() || zone == seq![DOT] || q[q.len() - zone.len() - 1] == DOT)
}

/// Whether a zone covers a query name.
pub fn matches_zone(zone: &Vec<u8>, q: &Vec<u8>) -> (r: bool)
    ensures
        r == zone_matches(zone@, q@),
{
    if zone.len() > q.len() {
        return false;
    }
    let off = q.len() - zone.len();
    let mut j: usize = 0;
    while j < zone.len()
        invariant
            j <= zone@.len(),
            off == q@.len() - zone@.len(),
            zone@.len() <= q@.len(),
            q@.len() <= usize::MAX,
            forall|t: int| 0 <= t < j ==> q@[off + t] == zone@[t],
        decreases zone@.len() - j,
    {
        if q[off + j] != zone[j] {
            proof {
                assert(q@.skip(off as int)[j as int] != zone@[j as int]);
            }
            return false;
        }
        j = j + 1;
    }
    proof {
        assert(q@.skip(off as int) =~= zone@);
    }
    if zone.len() == q.len() {
        true
    } else if zone.len() == 1 && zone[0] == DOT {
        proof {
            assert(zone@ =~= seq![DOT]);
        }
        true
    } else {
        proof {
            if zone@.len() != 1 {
                assert(zone@ != seq![DOT]);
            } else if zone@[0] != DOT {
                assert(zone@ != seq![DOT]);
            }
        }
        q[off - 1] == DOT
    }
}

/// The catalog of configured zones, each with its resolution handler.
pub struct Catalog<H> {
    entries: Vec<(Vec<u8>, H)>,
}

impl<H> Catalog<H> {
    /// The configured zone names, in insertion order.
    pub closed spec fn zones(&self) -> Seq<Seq<u8>> {
        self.entries@.map_values(|e: (Vec<u8>, H)| e.0@)
    }

    /// The configured handlers, positionally matching `zones`.
    pub closed spec fn handlers(&self) -> Seq<H> {
        self.entries@.map_values(|e: (Vec<u8>, H)| e.1)
    }

    /// The number of configured zones.
    pub open spec fn spec_len(&self) -> nat {
        self.zones().len()
    }

    /// No zone name is configured twice.
    pub open spec fn wf(&self) -> bool {
        forall|i: int, j: int| 0 <= i < j < self.zones().len()
            ==> self.zones()[i] != self.zones()[j]
    }

    /// An empty catalog.
    pub fn new() -> (r: Catalog<H>)
        ensures
            r.wf(),
            r.spec_len() == 0,
    {
        let r = Catalog { entries: Vec::new() };
        proof {
            assert(r.zones() =~= Seq::<Seq<u8>>::empty());
        }
        r
    }

    /// The number of configured zones.
    pub fn len(&self) -> (r: usize)
        ensures
            r == self.spec_len(),
    {
        self.entries.len()
    }

    fn find_zone(&self, zone: &Vec<u8>) -> (r: Option<usize>)
        ensures
            match r {
                Some(i) => i < self.spec_len() && self.zones()[i as int] == zone@,
                None => forall|j: int| 0 <= j < self.spec_len() ==> self.zones()[j] != zone@,
            },
    {
        let mut i: usize = 0;
        while i < self.entries.len()
            invariant
                i <= self.spec_len(),
                forall|j: int| 0 <= j < i ==> self.zones()[j] != zone@,
            decreases self.spec_len() - i,
        {
            if bytes_eq(&self.entries[i].0, zone) {
                proof {
                    assert(self.zones()[i as int] == self.entries@[i as int].0@);
                }
                return Some(i);
            }
            proof {
                assert(self.zones()[i as int] == self.entries@[i as int].0@);
            }
            i = i + 1;
        }
        None
    }

    /// Configure a zone: replace the handler of an already-configured zone
    /// name, or append a new zone.
    pub fn upsert(&mut self, zone: Vec<u8>, handler: H)
        requires
            old(self).wf(),
        ensures
            final(self).wf(),
            if old(self).zones().contains(zone@) {
                exists|i: int|
                    {
                        &&& 0 <= i < old(self).spec_len()
                        &&& old(self).zones()[i] == zone@
                        &&& final(self).zones() == old(self).zones()
                        &&& final(self).handlers() == old(self).handlers().update(i, handler)
                    }
            } else {
                &&& final(self).zones() == old(self).zones().push(zone@)
                &&& final(self).handlers() == old(self).handlers().push(handler)
            },
    {
        let ghost pre = *self;
        match self.find_zone(&zone) {
            Some(i) => {
                let mut e = self.entries.remove(i);
                e.1 = handler;
                self.entries.insert(i, e);
                proof {
                    assert(self.zones() =~= pre.zones());
                    assert(self.handlers() =~= pre.handlers().update(i as int, handler));
                    assert(pre.zones().contains(zone@)) by {
                        assert(pre.zones()[i as int] == zone@);
                    }
                }
            }
            None => {
                self.entries.push((zone, handler));
                proof {
                    assert(self.zones() =~= pre.zones().push(zone@));
                    assert(self.handlers() =~= pre.handlers().push(handler));
                    if pre.zones().contains(zone@) {
                        let i = choose|i: int| 0 <= i < pre.zones().len() && pre.zones()[i] == zone@;
                        assert(false);
                    }
                    assert forall|i: int, j: int| 0 <= i < j < self.zones().len() implies self.zones()[i]
                        != self.zones()[j] by {
                        if j == self.zones().len() - 1 {
                            assert(pre.zones()[i] != zone@);
                        }
                    }
                }
            }
        }
    }

    /// Route a query name to the handler of the most specific covering
    /// zone: the covering zone with the longest name. A query covered by
    /// no configured zone routes nowhere.
    pub fn route(&self, qname: &Vec<u8>) -> (r: Option<&H>)
        requires
            self.wf(),
        ensures
            match r {
                Some(h) => exists|i: int|
                    {
                        &&& 0 <= i < self.spec_len()
                        &&& #[trigger] zone_matches(self.zones()[i], qname@)
                        &&& *h == self.handlers()[i]
                        &&& forall|j: int|
                            0 <= j < self.spec_len() && zone_matches(
                                self.zones()[j],
                                qname@,
                            ) ==> self.zones()[j].len() <= self.zones()[i].len()
                    },
                None => forall|j: int|
                    0 <= j < self.spec_len() ==> !zone_matches(self.zones()[j], qname@),
            },
    {
        let mut best: Option<usize> = None;
        let mut k: usize = 0;
        while k < self.entries.len()
            invariant
                k <= self.spec_len(),
                match best {
                    Some(i) => {
                        &&& 0 <= i < k
                        &&& zone_matches(self.zones()[i as int], qname@)
                        &&& forall|j: int|
                            0 <= j < k && zone_matches(self.zones()[j], qname@)
                                ==> self.zones()[j].len() <= self.zones()[i as int].len()
                    },
                    None => forall|j: int| 0 <= j < k ==> !zone_matches(self.zones()[j], qname@),
                },
            decreases self.spec_len() - k,
        {
            proof {
                assert(self.zones()[k as int] == self.entries@[k as int].0@);
            }
            if matches_zone(&self.entries[k].0, qname) {
                let take_new = match best {
                    Some(i) => {
                        proof {
                            assert(self.zones()[i as int] == self.entries@[i as int].0@);
                        }
                        self.entries[i].0.len() < self.entries[k].0.len()
                    }
                    None => true,
                };
                if take_new {
                    best = Some(k);
                }
            }
            k = k + 1;
        }
        match best {
            Some(i) => {
                proof {
                    assert(self.handlers()[i as int] == self.entries@[i as int].1);
                }
                Some(&self.entries[i].1)
            }
            None => None,
        }
    }
}

} // verus!
