//! The cached, backpressured router.
//!
//! Each distinct routing key maps to a processing unit, constructed at most
//! once per key: the first lookup for a key starts a construction and later
//! lookups join it. Entries idle longer than the configured idle age are
//! evicted; an access refreshes an entry's idle clock. In-flight requests
//! are capped at a configured number, and a unit that is not
//! ready within the dispatch timeout fails fast instead of queuing.

use vstd::prelude::*;
use crate::ingress::{Http, HttpView};

verus! {

/// The bookkeeping of one cache entry: the identity of its constructed unit
/// and the time it was last used.
#[derive(Clone, Copy, Debug, PartialEq, Eq, Structural)]
pub struct EntryMeta {
    pub unit: u64,
    pub last_access: u64,
}

/// What a lookup observed: a fresh construction, or an existing entry.
#[derive(Clone, Copy, Debug, PartialEq, Eq, Structural)]
pub enum LookupOutcome {
    /// No entry existed: one was created and its construction started.
    Started(u64),
    /// An entry existed: its unit is shared, no construction starts.
    Joined(u64),
}

/// The mathematical state of the cache: keys, their bookkeeping, and the
/// next unit identity.
#[verifier::ext_equal]
pub ghost struct CacheModel {
    pub keys: Seq<HttpView>,
    pub metas: Seq<EntryMeta>,
    pub next_unit: u64,
}

pub open spec fn key_views(keys: Seq<Http>) -> Seq<HttpView> {
    Seq::new(keys.len(), |i: int| keys[i]@)
}

pub open spec fn cache_wf(c: CacheModel) -> bool {
    &&& c.keys.len() == c.metas.len()
    &&& forall|i: int, j: int| 0 <= i < j < c.keys.len() ==> c.keys[i] != c.keys[j]
}

pub open spec fn cache_has(c: CacheModel, k: HttpView) -> bool {
    exists|i: int| 0 <= i < c.keys.len() && c.keys[i] == k
}

pub open spec fn cache_idx(c: CacheModel, k: HttpView) -> int {
    choose|i: int| 0 <= i < c.keys.len() && c.keys[i] == k
}

proof fn lemma_cache_idx_is(c: CacheModel, k: HttpView, i: int)
    requires
        cache_wf(c),
        0 <= i < c.keys.len(),
        c.keys[i] == k,
    ensures
        cache_idx(c, k) == i,
{
    let j = cache_idx(c, k);
    assert(0 <= j < c.keys.len() && c.keys[j] == k);
}

/// One lookup: join the key's entry, refreshing its idle clock, or append a
/// fresh entry whose construction starts now.
pub open spec fn spec_cache_lookup(c: CacheModel, k: HttpView, now: u64) -> (CacheModel, LookupOutcome) {
    if cache_has(c, k) {
        let i = cache_idx(c, k);
        let m = c.metas[i];
        (
            CacheModel {
                keys: c.keys,
                metas: c.metas.update(i, EntryMeta { unit: m.unit, last_access: now }),
                next_unit: c.next_unit,
            },
            LookupOutcome::Joined(m.unit),
        )
    } else {
        (
            CacheModel {
                keys: c.keys.push(k),
                metas: c.metas.push(EntryMeta { unit: c.next_unit, last_access: now }),
                next_unit: (c.next_unit + 1) as u64,
            },
            LookupOutcome::Started(c.next_unit),
        )
    }
}

/// An entry stays when it has been used within the idle age.
pub open spec fn keep_entry(m: EntryMeta, now: u64, idle_age: u64) -> bool {
    now - m.last_access <= idle_age
}

/// Eviction: the entries used within the idle age, in order.
pub open spec fn spec_evict(c: CacheModel, now: u64, idle_age: u64) -> CacheModel
    decreases c.keys.len(),
{
    if c.keys.len() == 0 || c.keys.len() != c.metas.len() {
        CacheModel { keys: Seq::empty(), metas: Seq::empty(), next_unit: c.next_unit }
    } else {
        let rest = CacheModel {
            keys: c.keys.drop_last(),
            metas: c.metas.drop_last(),
            next_unit: c.next_unit,
        };
        let e = spec_evict(rest, now, idle_age);
        if keep_entry(c.metas.last(), now, idle_age) {
            CacheModel {
                keys: e.keys.push(c.keys.last()),
                metas: e.metas.push(c.metas.last()),
                next_unit: c.next_unit,
            }
        } else {
            e
        }
    }
}

/// Every kept entry survives eviction unchanged, everything surviving was
/// an entry, and well-formedness is preserved.
pub proof fn lemma_evict_membership(c: CacheModel, now: u64, idle_age: u64)
    requires
        cache_wf(c),
    ensures
        cache_wf(spec_evict(c, now, idle_age)),
        forall|i: int| 0 <= i < c.keys.len() && keep_entry(c.metas[i], now, idle_age)
            ==> exists|j: int| 0 <= j < spec_evict(c, now, idle_age).keys.len()
                && spec_evict(c, now, idle_age).keys[j] == c.keys[i]
                && spec_evict(c, now, idle_age).metas[j] == c.metas[i],
        forall|j: int| 0 <= j < spec_evict(c, now, idle_age).keys.len()
            ==> exists|i: int| 0 <= i < c.keys.len()
                && c.keys[i] == #[trigger] spec_evict(c, now, idle_age).keys[j]
                && c.metas[i] == spec_evict(c, now, idle_age).metas[j],
    decreases c.keys.len(),
{
    let e = spec_evict(c, now, idle_age);
    if c.keys.len() == 0 {
    } else {
        let rest = CacheModel {
            keys: c.keys.drop_last(),
            metas: c.metas.drop_last(),
            next_unit: c.next_unit,
        };
        let er = spec_evict(rest, now, idle_age);
        lemma_evict_membership(rest, now, idle_age);
        if keep_entry(c.metas.last(), now, idle_age) {
            assert forall|i: int, j: int| 0 <= i < j < e.keys.len() implies e.keys[i]
                != e.keys[j] by {
                if j == e.keys.len() - 1 {
                    assert(e.keys[i] == er.keys[i]);
                    let w = choose|w: int| 0 <= w < rest.keys.len()
                        && rest.keys[w] == er.keys[i] && rest.metas[w] == er.metas[i];
                    assert(c.keys[w] != c.keys[c.keys.len() - 1]);
                }
            }
            assert forall|i: int| 0 <= i < c.keys.len() && keep_entry(
                c.metas[i], now, idle_age,
            ) implies exists|j: int| 0 <= j < e.keys.len() && e.keys[j] == c.keys[i]
                && e.metas[j] == c.metas[i] by {
                if i == c.keys.len() - 1 {
                    assert(e.keys[e.keys.len() - 1] == c.keys[i]
                        && e.metas[e.keys.len() - 1] == c.metas[i]);
                } else {
                    assert(rest.keys[i] == c.keys[i] && rest.metas[i] == c.metas[i]);
                    let j = choose|j: int| 0 <= j < er.keys.len()
                        && er.keys[j] == rest.keys[i] && er.metas[j] == rest.metas[i];
                    assert(e.keys[j] == c.keys[i] && e.metas[j] == c.metas[i]);
                }
            }
            assert forall|j: int| 0 <= j < e.keys.len() implies exists|i: int|
                0 <= i < c.keys.len() && c.keys[i] == #[trigger] e.keys[j]
                && c.metas[i] == e.metas[j] by {
                if j == e.keys.len() - 1 {
                    assert(c.keys[c.keys.len() - 1] == e.keys[j]
                        && c.metas[c.keys.len() - 1] == e.metas[j]);
                } else {
                    let i = choose|i: int| 0 <= i < rest.keys.len()
                        && rest.keys[i] == er.keys[j] && rest.metas[i] == er.metas[j];
                    assert(c.keys[i] == e.keys[j] && c.metas[i] == e.metas[j]);
                }
            }
        } else {
            assert forall|i: int| 0 <= i < c.keys.len() && keep_entry(
                c.metas[i], now, idle_age,
            ) implies exists|j: int| 0 <= j < e.keys.len() && e.keys[j] == c.keys[i]
                && e.metas[j] == c.metas[i] by {
                assert(i < c.keys.len() - 1);
                assert(rest.keys[i] == c.keys[i] && rest.metas[i] == c.metas[i]);
            }
            assert forall|j: int| 0 <= j < e.keys.len() implies exists|i: int|
                0 <= i < c.keys.len() && c.keys[i] == #[trigger] e.keys[j]
                && c.metas[i] == e.metas[j] by {
                let i = choose|i: int| 0 <= i < rest.keys.len()
                    && rest.keys[i] == er.keys[j] && rest.metas[i] == er.metas[j];
                assert(c.keys[i] == e.keys[j] && c.metas[i] == e.metas[j]);
            }
        }
    }
}

/// The router: the cache, the admission counter, and the configuration.
pub struct Router {
    pub keys: Vec<Http>,
    pub metas: Vec<EntryMeta>,
    pub next_unit: u64,
    pub clock: u64,
    pub idle_age: u64,
    pub dispatch_timeout: u64,
    pub max_in_flight: u64,
    pub in_flight: u64,
}

/// The request was refused: the router already carries its maximum number of
/// in-flight requests.
#[derive(Clone, Copy, Debug, PartialEq, Eq, Structural)]
pub struct ConcurrencyLimited;

/// What a request waiting on a unit should do.
#[derive(Clone, Copy, Debug, PartialEq, Eq, Structural)]
pub enum DispatchDecision {
    /// The unit is ready: dispatch to it.
    Dispatch,
    /// The unit is not ready and the dispatch timeout has elapsed: fail
    /// fast rather than queue.
    FailFast,
    /// The unit is not ready but the timeout has not elapsed: keep waiting.
    Wait,
}

impl Router {
    pub open spec fn cache(self) -> CacheModel {
        CacheModel {
            keys: key_views(self.keys@),
            metas: self.metas@,
            next_unit: self.next_unit,
        }
    }

    pub open spec fn wf(self) -> bool {
        &&& cache_wf(self.cache())
        &&& forall|i: int| 0 <= i < self.metas@.len() ==> self.metas@[i].last_access
            <= self.clock
        &&& self.in_flight <= self.max_in_flight
    }

    pub fn new(idle_age: u64, dispatch_timeout: u64, max_in_flight: u64) -> (r: Router)
        ensures
            r.wf(),
            r.cache() == (CacheModel {
                keys: Seq::<HttpView>::empty(),
                metas: Seq::<EntryMeta>::empty(),
                next_unit: 0u64,
            }),
            r.clock == 0,
            r.idle_age == idle_age,
            r.dispatch_timeout == dispatch_timeout,
            r.max_in_flight == max_in_flight,
            r.in_flight == 0,
    {
        let r = Router {
            keys: Vec::new(),
            metas: Vec::new(),
            next_unit: 0,
            clock: 0,
            idle_age,
            dispatch_timeout,
            max_in_flight,
            in_flight: 0,
        };
        proof {
            assert(key_views(r.keys@) =~= Seq::<HttpView>::empty());
        }
        r
    }

    /// Looks a key up, joining its entry or starting the single
    /// construction for it. The access refreshes the entry's idle clock.
    #[verifier::loop_isolation(false)]
    pub fn lookup(&mut self, key: &Http, now: u64) -> (o: LookupOutcome)
        requires
            old(self).wf(),
            now >= old(self).clock,
            old(self).next_unit < u64::MAX,
        ensures
            final(self).wf(),
            (final(self).cache(), o) == spec_cache_lookup(old(self).cache(), key@, now),
            final(self).clock == now,
            final(self).idle_age == old(self).idle_age,
            final(self).dispatch_timeout == old(self).dispatch_timeout,
            final(self).max_in_flight == old(self).max_in_flight,
            final(self).in_flight == old(self).in_flight,
    {
        let ghost c0 = self.cache();
        let mut i: usize = 0;
        while i < self.keys.len()
            invariant
                *self == *old(self),
                i <= self.keys@.len(),
                forall|k: int| 0 <= k < i ==> c0.keys[k] != key@,
            decreases self.keys@.len() - i,
        {
            if self.keys[i].key_eq(key) {
                proof {
                    assert(c0.keys[i as int] == self.keys@[i as int]@);
                    lemma_cache_idx_is(c0, key@, i as int);
                }
                let unit = self.metas[i].unit;
                self.metas.set(i, EntryMeta { unit, last_access: now });
                self.clock = now;
                proof {
                    assert(self.cache().keys =~= c0.keys);
                    assert(self.cache() =~= spec_cache_lookup(c0, key@, now).0);
                }
                return LookupOutcome::Joined(unit);
            }
            proof {
                assert(c0.keys[i as int] == self.keys@[i as int]@);
            }
            i = i + 1;
        }
        proof {
            assert(!cache_has(c0, key@));
        }
        let unit = self.next_unit;
        self.keys.push(key.clone_key());
        self.metas.push(EntryMeta { unit, last_access: now });
        self.next_unit = self.next_unit + 1;
        self.clock = now;
        proof {
            assert(self.cache().keys =~= c0.keys.push(key@));
            assert(self.cache() =~= spec_cache_lookup(c0, key@, now).0);
        }
        LookupOutcome::Started(unit)
    }

    /// Removes every entry unused for longer than the idle age. Units whose
    /// entries are evicted are unaffected for holders of their identity:
    /// only the cache forgets them.
    #[verifier::loop_isolation(false)]
    pub fn evict_idle(&mut self, now: u64)
        requires
            old(self).wf(),
            now >= old(self).clock,
        ensures
            final(self).wf(),
            final(self).cache() == spec_evict(old(self).cache(), now, old(self).idle_age),
            final(self).clock == now,
            final(self).idle_age == old(self).idle_age,
            final(self).dispatch_timeout == old(self).dispatch_timeout,
            final(self).max_in_flight == old(self).max_in_flight,
            final(self).in_flight == old(self).in_flight,
    {
        let ghost c0 = self.cache();
        let ghost age = self.idle_age;
        proof {
            lemma_evict_membership(c0, now, age);
        }
        let mut i: usize = 0;
        while i < self.keys.len()
            invariant
                self.metas@.len() == self.keys@.len(),
                i <= self.keys@.len(),
                self.keys@.len() <= c0.keys.len(),
                self.next_unit == old(self).next_unit,
                self.clock == old(self).clock,
                self.idle_age == old(self).idle_age,
                self.dispatch_timeout == old(self).dispatch_timeout,
                self.max_in_flight == old(self).max_in_flight,
                self.in_flight == old(self).in_flight,
                key_views(self.keys@).subrange(i as int, self.keys@.len() as int)
                    =~= c0.keys.subrange(
                        i + c0.keys.len() - self.keys@.len(),
                        c0.keys.len() as int,
                    ),
                self.metas@.subrange(i as int, self.metas@.len() as int) =~= c0.metas.subrange(
                    i + c0.keys.len() - self.keys@.len(),
                    c0.keys.len() as int,
                ),
                (CacheModel {
                    keys: key_views(self.keys@).subrange(0, i as int),
                    metas: self.metas@.subrange(0, i as int),
                    next_unit: c0.next_unit,
                }) == spec_evict(
                    CacheModel {
                        keys: c0.keys.subrange(0, i + c0.keys.len() - self.keys@.len()),
                        metas: c0.metas.subrange(0, i + c0.keys.len() - self.keys@.len()),
                        next_unit: c0.next_unit,
                    },
                    now,
                    age,
                ),
            decreases self.keys@.len() - i,
        {
            let ghost j = i + c0.keys.len() - self.keys@.len();
            let ghost cj = CacheModel {
                keys: c0.keys.subrange(0, j),
                metas: c0.metas.subrange(0, j),
                next_unit: c0.next_unit,
            };
            let ghost cj1 = CacheModel {
                keys: c0.keys.subrange(0, j + 1),
                metas: c0.metas.subrange(0, j + 1),
                next_unit: c0.next_unit,
            };
            proof {
                assert(cj1.keys.drop_last() =~= cj.keys);
                assert(cj1.metas.drop_last() =~= cj.metas);
                assert(cj1.keys.last() == c0.keys[j]);
                assert(cj1.metas.last() == c0.metas[j]);
                assert(self.metas@.subrange(i as int, self.metas@.len() as int)[0]
                    == self.metas@[i as int]);
                assert(c0.metas.subrange(j, c0.keys.len() as int)[0] == c0.metas[j]);
                assert(self.metas@[i as int] == c0.metas[j]);
                assert(key_views(self.keys@).subrange(i as int, self.keys@.len() as int)[0]
                    == key_views(self.keys@)[i as int]);
                assert(c0.keys.subrange(j, c0.keys.len() as int)[0] == c0.keys[j]);
                assert(key_views(self.keys@)[i as int] == c0.keys[j]);
            }
            if now - self.metas[i].last_access > self.idle_age {
                let ghost ks = self.keys@;
                let ghost ms = self.metas@;
                self.keys.remove(i);
                self.metas.remove(i);
                proof {
                    assert(!keep_entry(c0.metas[j], now, age));
                    assert(spec_evict(cj1, now, age) == spec_evict(cj, now, age));
                    assert(key_views(self.keys@).subrange(0, i as int) =~= key_views(
                        ks,
                    ).subrange(0, i as int));
                    assert(self.metas@.subrange(0, i as int) =~= ms.subrange(0, i as int));
                    assert(key_views(self.keys@).subrange(i as int, self.keys@.len() as int)
                        =~= key_views(ks).subrange(i + 1, ks.len() as int));
                    assert(self.metas@.subrange(i as int, self.metas@.len() as int)
                        =~= ms.subrange(i + 1, ms.len() as int));
                    assert(key_views(ks).subrange(i + 1, ks.len() as int) =~= key_views(
                        ks,
                    ).subrange(i as int, ks.len() as int).subrange(1, ks.len() - i));
                    assert(c0.keys.subrange(j + 1, c0.keys.len() as int) =~= c0.keys.subrange(
                        j,
                        c0.keys.len() as int,
                    ).subrange(1, c0.keys.len() - j));
                    assert(key_views(ks).subrange(i + 1, ks.len() as int) =~= c0.keys.subrange(
                        j + 1,
                        c0.keys.len() as int,
                    ));
                    assert(ms.subrange(i + 1, ms.len() as int) =~= ms.subrange(
                        i as int,
                        ms.len() as int,
                    ).subrange(1, ms.len() - i));
                    assert(c0.metas.subrange(j + 1, c0.keys.len() as int) =~= c0.metas.subrange(
                        j,
                        c0.keys.len() as int,
                    ).subrange(1, c0.keys.len() - j));
                    assert(ms.subrange(i + 1, ms.len() as int) =~= c0.metas.subrange(
                        j + 1,
                        c0.keys.len() as int,
                    ));
                }
            } else {
                proof {
                    assert(keep_entry(c0.metas[j], now, age));
                    assert(key_views(self.keys@).subrange(0, i + 1) =~= key_views(
                        self.keys@,
                    ).subrange(0, i as int).push(c0.keys[j]));
                    assert(self.metas@.subrange(0, i + 1) =~= self.metas@.subrange(
                        0,
                        i as int,
                    ).push(c0.metas[j]));
                    assert(key_views(self.keys@).subrange(i + 1, self.keys@.len() as int)
                        =~= key_views(self.keys@).subrange(
                        i as int,
                        self.keys@.len() as int,
                    ).subrange(1, self.keys@.len() - i));
                    assert(c0.keys.subrange(j + 1, c0.keys.len() as int) =~= c0.keys.subrange(
                        j,
                        c0.keys.len() as int,
                    ).subrange(1, c0.keys.len() - j));
                    assert(key_views(self.keys@).subrange(i + 1, self.keys@.len() as int)
                        =~= c0.keys.subrange(j + 1, c0.keys.len() as int));
                    assert(self.metas@.subrange(i + 1, self.metas@.len() as int)
                        =~= self.metas@.subrange(
                        i as int,
                        self.metas@.len() as int,
                    ).subrange(1, self.metas@.len() - i));
                    assert(c0.metas.subrange(j + 1, c0.keys.len() as int) =~= c0.metas.subrange(
                        j,
                        c0.keys.len() as int,
                    ).subrange(1, c0.keys.len() - j));
                    assert(self.metas@.subrange(i + 1, self.metas@.len() as int)
                        =~= c0.metas.subrange(j + 1, c0.keys.len() as int));
                }
                i = i + 1;
            }
        }
        self.clock = now;
        proof {
            assert(c0.keys.subrange(0, c0.keys.len() as int) =~= c0.keys);
            assert(c0.metas.subrange(0, c0.metas.len() as int) =~= c0.metas);
            assert(key_views(self.keys@).subrange(0, self.keys@.len() as int) =~= key_views(
                self.keys@,
            ));
            assert(self.metas@.subrange(0, self.metas@.len() as int) =~= self.metas@);
            assert(self.cache() =~= spec_evict(c0, now, age));
            lemma_evict_membership(c0, now, age);
            assert forall|k: int| 0 <= k < self.metas@.len() implies self.metas@[k].last_access
                <= self.clock by {
                let w = choose|w: int| 0 <= w < c0.keys.len()
                    && c0.keys[w] == self.cache().keys[k] && c0.metas[w]
                    == self.cache().metas[k];
                assert(c0.metas[w].last_access <= old(self).clock);
            }
        }
    }

    /// Accepts one more in-flight request, or rejects it immediately when
    /// the cap is reached; rejected requests are never queued.
    pub fn acquire(&mut self) -> (r: Result<(), ConcurrencyLimited>)
        requires
            old(self).wf(),
        ensures
            final(self).wf(),
            old(self).in_flight < old(self).max_in_flight ==> (r is Ok
                && final(self).in_flight == old(self).in_flight + 1),
            old(self).in_flight >= old(self).max_in_flight ==> (r is Err
                && final(self).in_flight == old(self).in_flight),
            final(self).cache() == old(self).cache(),
            final(self).clock == old(self).clock,
            final(self).idle_age == old(self).idle_age,
            final(self).dispatch_timeout == old(self).dispatch_timeout,
            final(self).max_in_flight == old(self).max_in_flight,
    {
        if self.in_flight < self.max_in_flight {
            self.in_flight = self.in_flight + 1;
            Ok(())
        } else {
            Err(ConcurrencyLimited)
        }
    }

    /// Releases one in-flight request.
    pub fn release(&mut self)
        requires
            old(self).wf(),
            old(self).in_flight > 0,
        ensures
            final(self).wf(),
            final(self).in_flight == old(self).in_flight - 1,
            final(self).cache() == old(self).cache(),
            final(self).clock == old(self).clock,
            final(self).idle_age == old(self).idle_age,
            final(self).dispatch_timeout == old(self).dispatch_timeout,
            final(self).max_in_flight == old(self).max_in_flight,
    {
        self.in_flight = self.in_flight - 1;
    }
}

/// The fail-fast rule: a ready unit is dispatched to; one not ready within
/// the dispatch timeout fails the waiting request; otherwise the wait goes
/// on. The underlying construction is never cancelled by a fail-fast.
pub fn poll_dispatch(ready: bool, waited: u64, dispatch_timeout: u64) -> (r: DispatchDecision)
    ensures
        ready ==> r is Dispatch,
        !ready && waited >= dispatch_timeout ==> r is FailFast,
        !ready && waited < dispatch_timeout ==> r is Wait,
{
    if ready {
        DispatchDecision::Dispatch
    } else if waited >= dispatch_timeout {
        DispatchDecision::FailFast
    } else {
        DispatchDecision::Wait
    }
}

/// Looking the same key up twice, with any eviction between the accesses no
/// later than the idle age after the first, observes the same unit both
/// times, and the second lookup constructs nothing new: one construction
/// serves both.
pub proof fn lemma_lookup_idempotent(
    c0: CacheModel,
    k: HttpView,
    t1: u64,
    t2: u64,
    t3: u64,
    idle_age: u64,
)
    requires
        cache_wf(c0),
        c0.next_unit < u64::MAX,
        t1 <= t2,
        t2 - t1 <= idle_age,
        t2 <= t3,
    ensures
        ({
            let (c1, o1) = spec_cache_lookup(c0, k, t1);
            let c2 = spec_evict(c1, t2, idle_age);
            let (c3, o3) = spec_cache_lookup(c2, k, t3);
            &&& o3 matches LookupOutcome::Joined(u3) && u3 == match o1 {
                LookupOutcome::Started(u1) => u1,
                LookupOutcome::Joined(u1) => u1,
            }
            &&& c3.keys.len() == c2.keys.len()
        }),
{
    let (c1, o1) = spec_cache_lookup(c0, k, t1);
    let c2 = spec_evict(c1, t2, idle_age);
    let (c3, o3) = spec_cache_lookup(c2, k, t3);
    let u1 = match o1 {
        LookupOutcome::Started(u) => u,
        LookupOutcome::Joined(u) => u,
    };

    // c1 is well formed and holds an entry for k, used at t1, with unit u1.
    let i1: int;
    if cache_has(c0, k) {
        i1 = cache_idx(c0, k);
        assert(c1.keys[i1] == k);
        assert(c1.metas[i1] == (EntryMeta { unit: u1, last_access: t1 }));
        assert(cache_wf(c1));
    } else {
        i1 = c0.keys.len() as int;
        assert(c1.keys[i1] == k);
        assert(c1.metas[i1] == (EntryMeta { unit: u1, last_access: t1 }));
        assert forall|a: int, b: int| 0 <= a < b < c1.keys.len() implies c1.keys[a]
            != c1.keys[b] by {
            if b == i1 {
                assert(c1.keys[a] == c0.keys[a]);
                assert(!(c0.keys[a] == k));
            }
        }
    }

    // The entry survives eviction at t2 unchanged.
    lemma_evict_membership(c1, t2, idle_age);
    assert(keep_entry(c1.metas[i1], t2, idle_age));
    let i2 = choose|j: int| 0 <= j < c2.keys.len() && c2.keys[j] == c1.keys[i1]
        && c2.metas[j] == c1.metas[i1];
    assert(c2.keys[i2] == k);

    // The second lookup joins that same entry.
    assert(cache_has(c2, k));
    lemma_cache_idx_is(c2, k, i2);
    assert(o3 == LookupOutcome::Joined(u1));
    assert(c3.keys == c2.keys);
}

} // verus!
