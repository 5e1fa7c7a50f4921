//! Token buckets that bound how many requests an endpoint is sent.

use ratelimit_meter::DirectRateLimiter;
use std::num::NonZeroU32;
use std::time::Duration;
use vstd::prelude::*;

verus! {

/// Nanoseconds in one second.
pub const NANOS_PER_SEC: u64 = 1_000_000_000;

/// What is known of a token bucket: the number of cells that fill it, the nanoseconds in which a
/// full bucket drains, and the number of cells let in since it was made.
pub struct BucketView {
    pub capacity: nat,
    pub period: nat,
    pub granted: nat,
}

impl BucketView {
    /// The nanoseconds that one cell stays in the bucket.
    pub open spec fn interval(self) -> nat {
        self.period / self.capacity
    }

    /// Cells leave the bucket at one per second or faster.
    pub open spec fn drains(self) -> bool {
        0 < self.capacity && self.period <= self.capacity * NANOS_PER_SEC
    }

    /// `n` cells fit even if none of the cells let in so far has left the bucket.
    pub open spec fn surely_fits(self, n: nat) -> bool {
        (self.granted + n) * self.interval() <= self.period
    }

    /// `n` cells do not fit even if the bucket is empty.
    pub open spec fn never_fits(self, n: nat) -> bool {
        n * self.interval() > self.period
    }

    /// This bucket after `n` more cells were let in.
    pub open spec fn grant(self, n: nat) -> BucketView {
        BucketView { granted: self.granted + n, ..self }
    }
}

/// A leaky bucket of the `ratelimit_meter` crate, with that crate's own clock inside.
#[verifier::external_body]
pub struct Bucket {
    inner: DirectRateLimiter,
}

/// The parameters of a bucket, and the cells let into it since it was made.
pub uninterp spec fn bucket_state(bucket: Bucket) -> BucketView;

/// Calls `ratelimit_meter::DirectRateLimiter::new`, which makes a leaky bucket for `capacity` cells
/// that drains in `period_nanos` nanoseconds. No cell has been let into it.
#[verifier::external_body]
fn new_bucket(capacity: u32, period_nanos: u64) -> (bucket: Bucket)
    requires
        0 < capacity,
        period_nanos <= capacity * NANOS_PER_SEC,
    ensures
        bucket_state(bucket) == (BucketView {
            capacity: capacity as nat,
            period: period_nanos as nat,
            granted: 0,
        }),
{
    let capacity = NonZeroU32::new(capacity).unwrap();
    Bucket { inner: DirectRateLimiter::new(capacity, Duration::from_nanos(period_nanos)) }
}

/// Calls `ratelimit_meter::DirectRateLimiter::check_n`, which lets `n` cells into the bucket if
/// they fit beside those that have not drained yet, and otherwise leaves the bucket as it is. Each
/// cell takes up the bucket's period divided by its capacity, in whole nanoseconds, and the bucket
/// holds one period. How much has drained depends on the time: what fits beside every cell ever let
/// in is let in, and what does not fit into the empty bucket is not. Between the two the answer is
/// left open. The product of one cell's interval and `n` must not overflow a `Duration`, which the
/// bound on the interval rules out.
#[verifier::external_body]
fn check_bucket(bucket: &mut Bucket, n: u32) -> (granted: bool)
    requires
        bucket_state(*old(bucket)).drains(),
    ensures
        answered(bucket_state(*old(bucket)), n as nat, granted, bucket_state(*final(bucket))),
    no_unwind
{
    bucket.inner.check_n(n).is_ok()
}

/// The rate limiter of one endpoint.
pub struct RateLimiter {
    bucket: Bucket,
}

impl View for RateLimiter {
    type V = BucketView;

    closed spec fn view(&self) -> BucketView {
        bucket_state(self.bucket)
    }
}

impl RateLimiter {
    #[verifier::type_invariant]
    spec fn type_inv(self) -> bool {
        bucket_state(self.bucket).drains()
    }

    /// A limiter that holds `capacity` requests and forgets that many in `period_nanos`.
    pub fn new(capacity: u32, period_nanos: u64) -> (r: RateLimiter)
        requires
            0 < capacity,
            period_nanos <= capacity * NANOS_PER_SEC,
        ensures
            r@ == (BucketView {
                capacity: capacity as nat,
                period: period_nanos as nat,
                granted: 0,
            }),
    {
        RateLimiter { bucket: new_bucket(capacity, period_nanos) }
    }

    /// Asks the limiter to let `n` requests through, all or none.
    pub fn check_n(&mut self, n: u32) -> (granted: bool)
        ensures
            answered(old(self)@, n as nat, granted, final(self)@),
    {
        proof {
            use_type_invariant(&*self);
        }
        check_bucket(&mut self.bucket, n)
    }
}

/// `after` is the bucket `before` once it was asked for `n` cells and answered `granted`.
pub open spec fn answered(before: BucketView, n: nat, granted: bool, after: BucketView) -> bool {
    &&& after == if granted {
        before.grant(n)
    } else {
        before
    }
    &&& before.surely_fits(n) ==> granted
    &&& before.never_fits(n) ==> !granted
}

/// A rate limiter under the address of its endpoint.
struct LimiterEntry {
    url: String,
    limiter: RateLimiter,
}

/// The rate limiters of all endpoints, by address.
pub struct RateLimiters {
    entries: Vec<LimiterEntry>,
}

/// The bucket of the first entry for `url`.
spec fn lookup(entries: Seq<LimiterEntry>, url: Seq<char>) -> Option<BucketView>
    decreases entries.len(),
{
    if entries.len() == 0 {
        None
    } else if entries.first().url@ == url {
        Some(entries.first().limiter@)
    } else {
        lookup(entries.drop_first(), url)
    }
}

proof fn lemma_lookup_first(entries: Seq<LimiterEntry>, url: Seq<char>, i: int)
    requires
        0 <= i < entries.len(),
        entries[i].url@ == url,
        forall|k: int| 0 <= k < i ==> (#[trigger] entries[k]).url@ != url,
    ensures
        lookup(entries, url) == Some(entries[i].limiter@),
    decreases entries.len(),
{
    if i > 0 {
        assert(entries[0].url@ != url);
        lemma_lookup_first(entries.drop_first(), url, i - 1);
    }
}

proof fn lemma_lookup_absent(entries: Seq<LimiterEntry>, url: Seq<char>)
    requires
        forall|k: int| 0 <= k < entries.len() ==> (#[trigger] entries[k]).url@ != url,
    ensures
        lookup(entries, url) is None,
    decreases entries.len(),
{
    if entries.len() > 0 {
        assert(entries[0].url@ != url);
        lemma_lookup_absent(entries.drop_first(), url);
    }
}

proof fn lemma_lookup_remove(entries: Seq<LimiterEntry>, i: int, url: Seq<char>)
    requires
        0 <= i < entries.len(),
        entries[i].url@ != url,
    ensures
        lookup(entries.remove(i), url) == lookup(entries, url),
    decreases entries.len(),
{
    if i == 0 {
        assert(entries.remove(0) == entries.drop_first());
    } else {
        let shorter = entries.remove(i);
        assert(shorter.first() == entries.first());
        assert(shorter.drop_first() == entries.drop_first().remove(i - 1));
        lemma_lookup_remove(entries.drop_first(), i - 1, url);
    }
}

proof fn lemma_lookup_update(
    entries: Seq<LimiterEntry>,
    i: int,
    entry: LimiterEntry,
    url: Seq<char>,
)
    requires
        0 <= i < entries.len(),
        entries[i].url@ != url,
        entry.url@ != url,
    ensures
        lookup(entries.update(i, entry), url) == lookup(entries, url),
{
    let changed = entries.update(i, entry);
    lemma_lookup_remove(entries, i, url);
    lemma_lookup_remove(changed, i, url);
    assert(changed.remove(i) == entries.remove(i));
}

proof fn lemma_lookup_push(entries: Seq<LimiterEntry>, entry: LimiterEntry, url: Seq<char>)
    requires
        entry.url@ != url,
    ensures
        lookup(entries.push(entry), url) == lookup(entries, url),
{
    let longer = entries.push(entry);
    lemma_lookup_remove(longer, entries.len() as int, url);
    assert(longer.remove(entries.len() as int) == entries);
}

impl View for RateLimiters {
    type V = Map<Seq<char>, BucketView>;

    closed spec fn view(&self) -> Map<Seq<char>, BucketView> {
        Map::new(
            |url: Seq<char>| lookup(self.entries@, url) is Some,
            |url: Seq<char>| lookup(self.entries@, url)->0,
        )
    }
}

impl RateLimiters {
    /// No limiters.
    pub fn new() -> (r: RateLimiters)
        ensures
            r@ == Map::<Seq<char>, BucketView>::empty(),
    {
        RateLimiters { entries: Vec::new() }
    }

    /// The first entry for `url`.
    fn position(&self, url: &String) -> (r: Option<usize>)
        ensures
            match r {
                Some(i) => {
                    &&& i < self.entries@.len()
                    &&& self.entries@[i as int].url@ == url@
                    &&& forall|k: int| 0 <= k < i ==> (#[trigger] self.entries@[k]).url@ != url@
                },
                None => forall|i: int|
                    0 <= i < self.entries@.len() ==> (#[trigger] self.entries@[i]).url@ != url@,
            },
    {
        let mut i: usize = 0;
        while i < self.entries.len()
            invariant
                i <= self.entries@.len(),
                forall|k: int| 0 <= k < i ==> (#[trigger] self.entries@[k]).url@ != url@,
            decreases self.entries@.len() - i,
        {
            if self.entries[i].url == *url {
                return Some(i);
            }
            i = i + 1;
        }
        None
    }

    /// Puts `limiter` under the address `url`, in place of the one that was there.
    pub fn insert(&mut self, url: String, limiter: RateLimiter)
        ensures
            final(self)@ == old(self)@.insert(url@, limiter@),
    {
        let ghost before = self.entries@;
        match self.position(&url) {
            Some(i) => {
                self.entries[i].limiter = limiter;
                proof {
                    let after = self.entries@;
                    assert(after == before.update(i as int, after[i as int]));
                    lemma_lookup_first(after, url@, i as int);
                    assert forall|u: Seq<char>| u != url@ implies lookup(after, u) == lookup(
                        before,
                        u,
                    ) by {
                        lemma_lookup_update(before, i as int, after[i as int], u);
                    }
                }
            },
            None => {
                let entry = LimiterEntry { url, limiter };
                self.entries.push(entry);
                proof {
                    let after = self.entries@;
                    lemma_lookup_first(after, url@, before.len() as int);
                    assert forall|u: Seq<char>| u != url@ implies lookup(after, u) == lookup(
                        before,
                        u,
                    ) by {
                        lemma_lookup_push(before, entry, u);
                    }
                }
            },
        }
        assert(self@ =~= old(self)@.insert(url@, limiter@));
    }

    /// Removes the first entry for `url`.
    fn remove_first(&mut self, url: &String) -> (r: Option<RateLimiter>)
        ensures
            match r {
                Some(limiter) => {
                    &&& old(self)@.contains_key(url@)
                    &&& limiter@ == old(self)@[url@]
                    &&& final(self).entries@.len() < old(self).entries@.len()
                },
                None => !old(self)@.contains_key(url@) && *final(self) == *old(self),
            },
            final(self)@.remove(url@) == old(self)@.remove(url@),
    {
        let ghost before = self.entries@;
        match self.position(url) {
            Some(i) => {
                let entry = self.entries.remove(i);
                proof {
                    lemma_lookup_first(before, url@, i as int);
                    assert forall|u: Seq<char>| u != url@ implies lookup(self.entries@, u) == lookup(
                        before,
                        u,
                    ) by {
                        lemma_lookup_remove(before, i as int, u);
                    }
                    assert(self@.remove(url@) =~= old(self)@.remove(url@));
                }
                Some(entry.limiter)
            },
            None => {
                proof {
                    lemma_lookup_absent(before, url@);
                }
                None
            },
        }
    }

    /// Takes out the limiter under the address `url`.
    pub fn take(&mut self, url: &String) -> (r: Option<RateLimiter>)
        ensures
            match r {
                Some(limiter) => old(self)@.contains_key(url@) && limiter@ == old(self)@[url@],
                None => !old(self)@.contains_key(url@),
            },
            final(self)@ == old(self)@.remove(url@),
    {
        let taken = self.remove_first(url);
        let mut more: bool = taken.is_some();
        while more
            invariant
                self@.remove(url@) == old(self)@.remove(url@),
                !more ==> !self@.contains_key(url@),
            decreases
                    self.entries@.len() + if more {
                        1int
                    } else {
                        0
                    },
        {
            more = self.remove_first(url).is_some();
        }
        assert(self@ =~= self@.remove(url@));
        taken
    }

    /// Asks the limiter under the address `url` to let `n` requests through. There is no answer if
    /// there is no limiter.
    pub fn check_n(&mut self, url: &String, n: u32) -> (r: Option<bool>)
        ensures
            match r {
                Some(granted) => {
                    &&& old(self)@.contains_key(url@)
                    &&& final(self)@.contains_key(url@)
                    &&& answered(old(self)@[url@], n as nat, granted, final(self)@[url@])
                    &&& final(self)@ == old(self)@.insert(url@, final(self)@[url@])
                },
                None => !old(self)@.contains_key(url@) && final(self)@ == old(self)@,
            },
    {
        let ghost before = self.entries@;
        match self.position(url) {
            Some(i) => {
                let granted = self.entries[i].limiter.check_n(n);
                proof {
                    let after = self.entries@;
                    assert(after == before.update(i as int, after[i as int]));
                    lemma_lookup_first(before, url@, i as int);
                    lemma_lookup_first(after, url@, i as int);
                    assert forall|u: Seq<char>| u != url@ implies lookup(after, u) == lookup(
                        before,
                        u,
                    ) by {
                        lemma_lookup_update(before, i as int, after[i as int], u);
                    }
                    assert(self@ =~= old(self)@.insert(url@, self@[url@]));
                }
                Some(granted)
            },
            None => {
                proof {
                    lemma_lookup_absent(before, url@);
                }
                None
            },
        }
    }
}

} // verus!
