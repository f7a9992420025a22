//! The LRU cache of finished previews and its counters. The front of the
//! cache is the least recently used image; hits move an image to the back.

use vstd::prelude::*;

use super::super::model::DocumentId;
use super::model::{Key, PreviewAccounting, PreviewConfig, PreviewLease, PreviewSnapshot};

verus! {

/// Total charged capacity of a sequence of cached images.
pub open spec fn charges(s: Seq<PreviewLease>) -> nat
    decreases s.len(),
{
    if s.len() == 0 {
        0
    } else {
        charges(s.drop_last()) + s.last().0.charge() as nat
    }
}

/// The charges of two sequences add up.
pub proof fn charges_concat(a: Seq<PreviewLease>, b: Seq<PreviewLease>)
    ensures
        charges(a + b) == charges(a) + charges(b),
    decreases b.len(),
{
    if b.len() == 0 {
        assert(a + b =~= a);
    } else {
        charges_concat(a, b.drop_last());
        assert((a + b).drop_last() =~= a + b.drop_last());
    }
}

/// The charge of a single image.
pub proof fn lemma_charges_single(x: PreviewLease)
    ensures
        charges(seq![x]) == x.0.charge(),
{
    assert(seq![x].drop_last() =~= Seq::<PreviewLease>::empty());
    assert(charges(Seq::<PreviewLease>::empty()) == 0);
}

/// Whether an image belongs to the closed document (every image when `document` is `None`).
pub open spec fn targeted(entry: PreviewLease, document: Option<DocumentId>) -> bool {
    match document {
        None => true,
        Some(d) => entry.0.key().document == d,
    }
}

/// Saturating increment of a counter.
pub open spec fn bump(n: u64) -> u64 {
    if n == u64::MAX {
        n
    } else {
        (n + 1) as u64
    }
}

/// The cache and its counters.
pub struct State {
    cache: Vec<PreviewLease>,
    cache_bytes: u64,
    cache_hits: u64,
    coalesced_requests: u64,
    evictions: u64,
}

impl View for State {
    type V = Seq<PreviewLease>;

    /// The cached images, least recently used first.
    closed spec fn view(&self) -> Seq<PreviewLease> {
        self.cache@
    }
}

impl State {
    /// The charged capacity the cache reports.
    pub closed spec fn bytes(&self) -> u64 {
        self.cache_bytes
    }

    /// Hits, merged requests and capacity evictions counted so far.
    pub closed spec fn counters(&self) -> (u64, u64, u64) {
        (self.cache_hits, self.coalesced_requests, self.evictions)
    }

    /// The reported capacity is the sum of the cached images' charges.
    pub open spec fn wf(&self) -> bool {
        self.bytes() == charges(self@)
    }

    /// An empty cache with zero counters.
    pub fn new() -> (s: State)
        ensures
            s@ == Seq::<PreviewLease>::empty(),
            s.bytes() == 0,
            s.counters() == (0u64, 0u64, 0u64),
            s.wf(),
    {
        State {
            cache: Vec::new(),
            cache_bytes: 0,
            cache_hits: 0,
            coalesced_requests: 0,
            evictions: 0,
        }
    }

    /// The cache figures together with a sample of the preview ledger.
    pub fn snapshot(&self, resources: PreviewAccounting) -> (s: PreviewSnapshot)
        ensures
            s == (PreviewSnapshot {
                resources,
                cache_entries: self@.len() as usize,
                cache_bytes: self.bytes(),
                cache_hits: self.counters().0,
                coalesced_requests: self.counters().1,
                evictions: self.counters().2,
            }),
    {
        PreviewSnapshot {
            resources,
            cache_entries: self.cache.len(),
            cache_bytes: self.cache_bytes,
            cache_hits: self.cache_hits,
            coalesced_requests: self.coalesced_requests,
            evictions: self.evictions,
        }
    }

    /// Counts one request merged into a job already in flight.
    pub fn count_coalesced(&mut self)
        ensures
            final(self)@ == old(self)@,
            final(self).bytes() == old(self).bytes(),
            final(self).counters() == (old(self).counters().0, bump(old(self).counters().1), old(
                self,
            ).counters().2),
    {
        self.coalesced_requests = self.coalesced_requests.saturating_add(1);
    }

    /// A hit: the first image with `key` moves to the most recently used end
    /// and a copy of its reference is returned. A miss changes nothing.
    pub fn cached(&mut self, key: Key) -> (r: Option<PreviewLease>)
        requires
            old(self).wf(),
        ensures
            final(self).wf(),
            final(self).bytes() == old(self).bytes(),
            match r {
                None => {
                    &&& forall|i: int| 0 <= i < old(self)@.len() ==> #[trigger] old(self)@[i].0.key()
                        != key
                    &&& final(self)@ == old(self)@
                    &&& final(self).counters() == old(self).counters()
                },
                Some(image) => exists|i: int|
                    {
                        &&& 0 <= i < old(self)@.len()
                        &&& #[trigger] old(self)@[i] == image
                        &&& image.0.key() == key
                        &&& forall|j: int| 0 <= j < i ==> #[trigger] old(self)@[j].0.key() != key
                        &&& final(self)@ == old(self)@.remove(i).push(image)
                        &&& final(self).counters() == (bump(old(self).counters().0), old(
                            self,
                        ).counters().1, old(self).counters().2)
                    },
            },
    {
        let mut i: usize = 0;
        while i < self.cache.len()
            invariant
                i <= self.cache@.len(),
                self.cache@ == old(self)@,
                self.cache_bytes == old(self).bytes(),
                self.counters() == old(self).counters(),
                self.wf(),
                forall|j: int| 0 <= j < i ==> #[trigger] self.cache@[j].0.key() != key,
            decreases self.cache@.len() - i,
        {
            if self.cache[i].key() == key {
                let ghost before = self.cache@;
                let entry = self.cache.remove(i);
                let result = entry.share();
                self.cache.push(entry);
                self.cache_hits = self.cache_hits.saturating_add(1);
                proof {
                    assert(self.cache@ =~= before.remove(i as int).push(result));
                    let rest = before.remove(i as int);
                    assert(before =~= before.take(i as int) + seq![before[i as int]] + before.skip(
                        i + 1,
                    ));
                    assert(rest =~= before.take(i as int) + before.skip(i + 1));
                    charges_concat(before.take(i as int) + seq![before[i as int]], before.skip(i + 1));
                    charges_concat(before.take(i as int), seq![before[i as int]]);
                    charges_concat(before.take(i as int), before.skip(i + 1));
                    lemma_charges_single(before[i as int]);
                    assert(rest.push(result).drop_last() =~= rest);
                }
                return Some(result);
            }
            i = i + 1;
        }
        None
    }

    /// Evicts the least recently used image, if any, and counts the eviction.
    pub fn evict(&mut self) -> (r: Option<PreviewLease>)
        requires
            old(self).wf(),
        ensures
            final(self).wf(),
            match r {
                None => old(self)@.len() == 0 && final(self)@ == old(self)@ && final(self).counters()
                    == old(self).counters(),
                Some(image) => {
                    &&& old(self)@.len() > 0
                    &&& image == old(self)@[0]
                    &&& final(self)@ == old(self)@.skip(1)
                    &&& final(self).counters() == (old(self).counters().0, old(
                        self,
                    ).counters().1, bump(old(self).counters().2))
                },
            },
    {
        if self.cache.len() == 0 {
            return None;
        }
        let ghost before = self.cache@;
        let entry = self.cache.remove(0);
        proof {
            lemma_charges_skip_first(before);
            assert(self.cache@ =~= before.skip(1));
        }
        self.cache_bytes = self.cache_bytes - entry.charged_bytes();
        self.evictions = self.evictions.saturating_add(1);
        Some(entry)
    }

    /// Admits an image under the cache limits of `config`, evicting least
    /// recently used images until it fits; gives the evicted images back in
    /// eviction order. An image larger than the whole cache, or a disabled
    /// cache, admits nothing.
    pub fn insert(&mut self, image: &PreviewLease, config: PreviewConfig) -> (removed: Vec<
        PreviewLease,
    >)
        requires
            old(self).wf(),
        ensures
            final(self).wf(),
            if config.max_cache_entries == 0 || image.0.charge() > config.max_cache_bytes {
                &&& removed@.len() == 0
                &&& final(self)@ == old(self)@
                &&& final(self).counters() == old(self).counters()
            } else {
                &&& removed@ == old(self)@.take(removed@.len() as int)
                &&& final(self)@ == old(self)@.skip(removed@.len() as int).push(*image)
                &&& fits(old(self)@.skip(removed@.len() as int), image.0.charge(), config)
                &&& forall|k: int|
                    0 <= k < removed@.len() ==> !fits(
                        #[trigger] old(self)@.skip(k),
                        image.0.charge(),
                        config,
                    )
                &&& final(self).counters().0 == old(self).counters().0
                &&& final(self).counters().1 == old(self).counters().1
                &&& (final(self).counters().2 == old(self).counters().2 + removed@.len() || old(
                    self,
                ).counters().2 + removed@.len() > u64::MAX)
                &&& final(self)@.len() <= config.max_cache_entries
                &&& old(self).bytes() <= config.max_cache_bytes ==> final(self).bytes()
                    <= config.max_cache_bytes
            },
    {
        let mut removed: Vec<PreviewLease> = Vec::new();
        let charge = image.charged_bytes();
        if config.max_cache_entries == 0 || charge > config.max_cache_bytes {
            return removed;
        }
        let ghost start = self.cache@;
        let ghost counters0 = (self.cache_hits, self.coalesced_requests, self.evictions);
        let ghost bytes0 = self.cache_bytes;
        while self.cache.len() >= config.max_cache_entries || charge
            > config.max_cache_bytes.saturating_sub(self.cache_bytes)
            invariant
                self.wf(),
                charge == image.0.charge(),
                charge <= config.max_cache_bytes,
                config.max_cache_entries > 0,
                removed@ == start.take(removed@.len() as int),
                self.cache@ == start.skip(removed@.len() as int),
                removed@.len() <= start.len(),
                forall|k: int|
                    0 <= k < removed@.len() ==> !fits(#[trigger] start.skip(k), charge, config),
                self.counters().0 == counters0.0,
                self.counters().1 == counters0.1,
                self.counters().2 == counters0.2 + removed@.len() || counters0.2 + removed@.len()
                    > u64::MAX,
                bytes0 <= config.max_cache_bytes ==> self.bytes() <= config.max_cache_bytes,
            decreases self.cache@.len(),
        {
            proof {
                if self.cache@.len() == 0 {
                    assert(charges(self.cache@) == 0);
                }
            }
            let ghost n = removed@.len() as int;
            let ghost before = self.cache@;
            assert(!fits(start.skip(n), charge, config));
            match self.evict() {
                Some(entry) => {
                    removed.push(entry);
                    proof {
                        assert(before.skip(1) =~= start.skip(n + 1));
                        assert(removed@ =~= start.take(n + 1));
                        assert forall|k: int|
                            0 <= k < removed@.len() implies !fits(
                                #[trigger] start.skip(k),
                                charge,
                                config,
                            ) by {
                            if k == n {
                            }
                        }
                        lemma_charges_skip_first(before);
                    }
                },
                None => {
                    proof {
                        assert(false);
                    }
                },
            }
        }
        let ghost kept = self.cache@;
        self.cache_bytes = self.cache_bytes + charge;
        self.cache.push(image.share());
        proof {
            assert(self.cache@.drop_last() =~= kept);
        }
        removed
    }
}

/// The images of `s` that survive invalidating `document`, in order.
pub open spec fn kept(s: Seq<PreviewLease>, document: Option<DocumentId>) -> Seq<PreviewLease>
    decreases s.len(),
{
    if s.len() == 0 {
        s
    } else if targeted(s.last(), document) {
        kept(s.drop_last(), document)
    } else {
        kept(s.drop_last(), document).push(s.last())
    }
}

/// The images of `s` that invalidating `document` drops, in order.
pub open spec fn dropped(s: Seq<PreviewLease>, document: Option<DocumentId>) -> Seq<PreviewLease>
    decreases s.len(),
{
    if s.len() == 0 {
        s
    } else if targeted(s.last(), document) {
        dropped(s.drop_last(), document).push(s.last())
    } else {
        dropped(s.drop_last(), document)
    }
}

impl State {
    /// Drops every cached image of `document` (of every document when `None`)
    /// and gives them back for release outside the state lock; the other
    /// images keep their order. The counters do not count this as eviction.
    pub fn invalidate_cache(&mut self, document: Option<DocumentId>) -> (removed: Vec<
        PreviewLease,
    >)
        requires
            old(self).wf(),
        ensures
            final(self).wf(),
            final(self)@ == kept(old(self)@, document),
            removed@ == dropped(old(self)@, document),
            final(self).counters() == old(self).counters(),
    {
        let mut keep: Vec<PreviewLease> = Vec::new();
        let mut removed: Vec<PreviewLease> = Vec::new();
        let mut keep_bytes: u64 = 0;
        let mut i: usize = 0;
        while i < self.cache.len()
            invariant
                self.wf(),
                self.cache@ == old(self)@,
                self.counters() == old(self).counters(),
                i <= self.cache@.len(),
                keep@ == kept(self.cache@.take(i as int), document),
                removed@ == dropped(self.cache@.take(i as int), document),
                keep_bytes == charges(keep@),
                charges(keep@) + charges(removed@) == charges(self.cache@.take(i as int)),
                charges(self.cache@.take(i as int)) <= charges(self.cache@),
            decreases self.cache@.len() - i,
        {
            let entry = self.cache[i].share();
            proof {
                assert(self.cache@.take(i + 1).drop_last() =~= self.cache@.take(i as int));
                assert(self.cache@.take(i + 1).last() == entry);
                lemma_charges_prefix(self.cache@, i + 1);
            }
            let belongs = match document {
                None => true,
                Some(d) => entry.document_id() == d,
            };
            if belongs {
                removed.push(entry);
                proof {
                    assert(removed@.drop_last() =~= dropped(self.cache@.take(i as int), document));
                }
            } else {
                proof {
                    assert(keep@.push(entry).drop_last() =~= keep@);
                }
                keep_bytes = keep_bytes + entry.charged_bytes();
                keep.push(entry);
            }
            i = i + 1;
        }
        proof {
            assert(self.cache@.take(i as int) =~= self.cache@);
        }
        self.cache = keep;
        self.cache_bytes = keep_bytes;
        removed
    }
}

/// A prefix never holds more charge than the whole sequence.
pub proof fn lemma_charges_prefix(s: Seq<PreviewLease>, k: int)
    requires
        0 <= k <= s.len(),
    ensures
        charges(s.take(k)) <= charges(s),
    decreases s.len() - k,
{
    if k < s.len() {
        lemma_charges_prefix(s, k + 1);
        assert(s.take(k + 1).drop_last() =~= s.take(k));
    } else {
        assert(s.take(k) =~= s);
    }
}

/// Whether an image of `charge` bytes fits behind the images `s` under the
/// cache limits of `config`.
pub open spec fn fits(s: Seq<PreviewLease>, charge: u64, config: PreviewConfig) -> bool {
    &&& s.len() < config.max_cache_entries
    &&& charge <= (if charges(s) >= config.max_cache_bytes {
        0
    } else {
        config.max_cache_bytes - charges(s)
    })
}

/// Dropping the first image removes exactly its charge.
pub proof fn lemma_charges_skip_first(s: Seq<PreviewLease>)
    requires
        s.len() > 0,
    ensures
        charges(s) == s[0].0.charge() + charges(s.skip(1)),
{
    assert(s =~= seq![s[0]] + s.skip(1));
    charges_concat(seq![s[0]], s.skip(1));
    lemma_charges_single(s[0]);
}

} // verus!
