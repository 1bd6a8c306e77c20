use crate::grouped_stats::GroupedStats;
use crate::options::GroupBy;
use crate::request::Request;
use crate::stats::{
    lemma_counts_bounds, lemma_counts_push, lemma_stats_matches_wf, lemma_total_bytes_prefix_le,
    sizes_ok, stats_matches, total_bytes, Stats,
};
use std::collections::VecDeque;
use vstd::prelude::*;

verus! {

/// Eviction policy of a sliding window: retain at most a number of
/// records, or retain records younger than a number of seconds.
#[derive(Clone, Copy, PartialEq, Eq, Structural, Debug)]
pub enum StorageType {
    Requests(u64),
    Timed(u64),
}

/// What remains of `b` after popping from the front while more than `n`
/// records are held.
pub open spec fn keep_count(b: Seq<Request>, n: int) -> Seq<Request>
    decreases b.len(),
{
    if b.len() == 0 || b.len() <= n {
        b
    } else {
        keep_count(b.subrange(1, b.len() as int), n)
    }
}

/// What remains of `b` after popping from the front while the front
/// record's age at time `now` is at least `secs` seconds.
pub open spec fn keep_recent(b: Seq<Request>, now: int, secs: int) -> Seq<Request>
    decreases b.len(),
{
    if b.len() == 0 {
        b
    } else if now - b[0].time >= secs {
        keep_recent(b.subrange(1, b.len() as int), now, secs)
    } else {
        b
    }
}

/// What a cleanup pass leaves of `b` under policy `storage` at time `now`.
pub open spec fn evict(b: Seq<Request>, storage: StorageType, now: int) -> Seq<Request> {
    match storage {
        StorageType::Requests(n) => keep_count(b, n as int),
        StorageType::Timed(s) => keep_recent(b, now, s as int),
    }
}

proof fn lemma_keep_count_idem(b: Seq<Request>, n: int)
    ensures
        keep_count(keep_count(b, n), n) == keep_count(b, n),
    decreases b.len(),
{
    if b.len() > 0 && b.len() > n {
        lemma_keep_count_idem(b.subrange(1, b.len() as int), n);
    }
}

proof fn lemma_keep_recent_idem(b: Seq<Request>, now: int, secs: int)
    ensures
        keep_recent(keep_recent(b, now, secs), now, secs) == keep_recent(b, now, secs),
    decreases b.len(),
{
    if b.len() > 0 && now - b[0].time >= secs {
        lemma_keep_recent_idem(b.subrange(1, b.len() as int), now, secs);
    }
}

/// Law: a cleanup pass is idempotent.  Run twice with the same policy and
/// the same clock reading, and with no intervening push, the second pass
/// leaves the buffer exactly as the first did.
pub proof fn lemma_cleanup_idempotent(b: Seq<Request>, storage: StorageType, now: int)
    ensures
        evict(evict(b, storage, now), storage, now) == evict(b, storage, now),
{
    match storage {
        StorageType::Requests(n) => lemma_keep_count_idem(b, n as int),
        StorageType::Timed(s) => lemma_keep_recent_idem(b, now, s as int),
    }
}

/// The sliding window at the heart of the engine: a chronologically
/// ordered buffer of records, statistics that always aggregate exactly
/// the buffered records, and an optional one-level partition by group
/// key.
#[derive(Clone, Debug)]
pub struct RingBuffer {
    pub stats: Stats,
    pub buffer: VecDeque<Request>,
    pub grouped: Option<GroupedStats>,
}

impl View for RingBuffer {
    type V = Seq<Request>;

    open spec fn view(&self) -> Seq<Request> {
        self.buffer@
    }
}

impl RingBuffer {
    /// The window's invariant: statistics aggregate exactly the buffer,
    /// sizes are non-negative, and the partition (if any) tracks the
    /// buffer exactly.
    pub open spec fn wf(self) -> bool {
        &&& stats_matches(self.stats, self.buffer@)
        &&& sizes_ok(self.buffer@)
        &&& match self.grouped {
            Some(g) => g.wf_for(self.buffer@),
            None => true,
        }
    }

    /// A fresh window under the given policy.  `with_grouped` decides
    /// whether the window carries a partition; group windows themselves
    /// never do, so grouping stays one level deep.
    pub fn new(storage: &StorageType, with_grouped: bool, group_by: GroupBy) -> (r: Self)
        ensures
            r.wf(),
            r@ == Seq::<Request>::empty(),
            match r.grouped {
                Some(g) => with_grouped && g.group_by == group_by && g.buffer@.len() == 0,
                None => !with_grouped,
            },
    {
        let size = Self::size_from_options(storage);
        let capacity: u64 = if size > 1048576 {
            1048576
        } else {
            size
        };
        let buffer = VecDeque::with_capacity(capacity as usize);
        let grouped = if with_grouped {
            Some(GroupedStats::new(group_by))
        } else {
            None
        };
        RingBuffer { stats: Stats::new(), buffer, grouped }
    }

    /// Initial capacity hint derived from the policy; for an age policy a
    /// fixed throughput of ten records a second is assumed.  A hint only,
    /// never a correctness constraint.
    fn size_from_options(storage: &StorageType) -> (r: u64)
        ensures
            match *storage {
                StorageType::Requests(n) => r == n,
                StorageType::Timed(s) => r as int == (if s * 10 <= u64::MAX {
                    (s * 10) as int
                } else {
                    u64::MAX as int
                }),
            },
    {
        match storage {
            StorageType::Requests(size) => *size,
            StorageType::Timed(size) => match size.checked_mul(10) {
                Some(x) => x,
                None => u64::MAX,
            },
        }
    }

    /// Peek at the oldest record.
    pub fn first(&self) -> (r: Option<&Request>)
        ensures
            match r {
                Some(x) => self@.len() > 0 && *x == self@[0],
                None => self@.len() == 0,
            },
    {
        if self.buffer.len() == 0 {
            None
        } else {
            Some(&self.buffer[0])
        }
    }

    /// Append a record: account for it in the statistics, store it, and
    /// route it into the partition if one exists.
    pub fn push(&mut self, request: Request)
        requires
            old(self).wf(),
            request.size >= 0,
            old(self)@.len() < i64::MAX,
            total_bytes(old(self)@) + request.size <= i64::MAX,
        ensures
            final(self).wf(),
            final(self)@ == old(self)@.push(request),
            final(self).grouped is Some <==> old(self).grouped is Some,
    {
        let ghost b = self.buffer@;
        proof {
            lemma_stats_matches_wf(self.stats, b);
        }
        let dup = request.clone();
        self.stats.add_request(&request);
        self.buffer.push_back(dup);
        proof {
            lemma_counts_push(b, request);
        }
        let taken = self.grouped.take();
        match taken {
            Some(mut g) => {
                g.add(request, Ghost(b));
                self.grouped = Some(g);
            },
            None => {},
        }
    }

    /// Remove and return the oldest record, unaccounting for it in the
    /// statistics and in the partition.  Popping an empty window is a
    /// broken accounting invariant, so it is ruled out up front.
    pub fn pop(&mut self) -> (r: Option<Request>)
        requires
            old(self).wf(),
            old(self)@.len() > 0,
        ensures
            final(self).wf(),
            r == Some(old(self)@[0]),
            final(self)@ == old(self)@.subrange(1, old(self)@.len() as int),
            final(self).grouped is Some <==> old(self).grouped is Some,
    {
        let ghost b = self.buffer@;
        let ghost rest = b.subrange(1, b.len() as int);
        proof {
            lemma_stats_matches_wf(self.stats, b);
            assert(sizes_ok(rest)) by {
                assert(forall|i: int| 0 <= i < rest.len() ==> rest[i] == b[i + 1]);
            }
            lemma_counts_bounds(rest, crate::stats::class_of(b[0].status_code));
        }
        match self.buffer.pop_front() {
            Some(x) => {
                self.stats.remove_request(&x);
                let taken = self.grouped.take();
                match taken {
                    Some(mut g) => {
                        g.remove(x.clone(), Ghost(b));
                        self.grouped = Some(g);
                    },
                    None => {},
                }
                Some(x)
            },
            None => {
                proof {
                    assert(false);
                }
                None
            },
        }
    }

    /// The front record is old enough (or stale enough) to be evicted
    /// under an age limit of `secs` seconds at time `now`.
    fn needs_evict(&self, now: i64, secs: u64) -> (r: bool)
        ensures
            r == (self@.len() > 0 && now - self@[0].time >= secs),
    {
        if self.buffer.len() == 0 {
            false
        } else {
            (now as i128) - (self.buffer[0].time as i128) >= (secs as i128)
        }
    }

    /// Enforce the eviction policy against the given clock reading: pop
    /// until at most `n` records remain, or until the oldest record is
    /// younger than the age limit.
    pub fn cleanup_at(&mut self, storage: &StorageType, now: i64)
        requires
            old(self).wf(),
        ensures
            final(self).wf(),
            final(self)@ == evict(old(self)@, *storage, now as int),
            final(self).grouped is Some <==> old(self).grouped is Some,
    {
        let ghost b0 = self.buffer@;
        match storage {
            StorageType::Requests(n) => {
                while self.buffer.len() as u64 > *n
                    invariant
                        self.wf(),
                        keep_count(b0, *n as int) == keep_count(self.buffer@, *n as int),
                        self.grouped is Some <==> old(self).grouped is Some,
                    decreases self.buffer@.len(),
                {
                    self.pop();
                }
            },
            StorageType::Timed(s) => {
                while self.needs_evict(now, *s)
                    invariant
                        self.wf(),
                        keep_recent(b0, now as int, *s as int) == keep_recent(
                            self.buffer@,
                            now as int,
                            *s as int,
                        ),
                        self.grouped is Some <==> old(self).grouped is Some,
                    decreases self.buffer@.len(),
                {
                    self.pop();
                }
            },
        }
    }

    /// Enforce the eviction policy against the wall clock, read once for
    /// the whole pass.
    pub fn cleanup(&mut self, storage: &StorageType)
        requires
            old(self).wf(),
        ensures
            final(self).wf(),
            exists|now: int| final(self)@ == evict(old(self)@, *storage, now),
            final(self).grouped is Some <==> old(self).grouped is Some,
    {
        let now = now_epoch_seconds();
        self.cleanup_at(storage, now);
        proof {
            assert(final(self)@ == evict(old(self)@, *storage, now as int));
        }
    }

    /// Clear the partition, if there is one, and rebuild it from a full
    /// rescan of the buffer under the new group key.  Returns whether a
    /// partition existed.  The only whole-buffer operation; triggered by a
    /// group-key change, never on the ingest path.
    pub fn regroup(&mut self, group_by: GroupBy) -> (had: bool)
        requires
            old(self).wf(),
        ensures
            final(self).wf(),
            final(self)@ == old(self)@,
            final(self).stats == old(self).stats,
            had <==> old(self).grouped is Some,
            final(self).grouped is Some <==> old(self).grouped is Some,
            final(self).grouped matches Some(g) ==> g.group_by == group_by,
    {
        let taken = self.grouped.take();
        match taken {
            None => false,
            Some(mut g) => {
                g.group_by(group_by);
                let ghost b = self.buffer@;
                let n = self.buffer.len();
                let mut i: usize = 0;
                proof {
                    assert(b.subrange(0, 0) =~= Seq::<Request>::empty());
                }
                while i < n
                    invariant
                        i <= n,
                        n == self.buffer@.len(),
                        b == self.buffer@,
                        self.wf(),
                        self.grouped is None,
                        g.wf_for(b.subrange(0, i as int)),
                        g.group_by == group_by,
                    decreases n - i,
                {
                    let ghost prefix = b.subrange(0, i as int);
                    let r = self.buffer[i].clone();
                    proof {
                        assert(sizes_ok(prefix)) by {
                            assert(forall|j: int| 0 <= j < prefix.len() ==> prefix[j] == b[j]);
                        }
                        assert(b.subrange(0, i + 1) =~= prefix.push(b[i as int]));
                        lemma_counts_push(prefix, b[i as int]);
                        lemma_total_bytes_prefix_le(b, i + 1);
                    }
                    g.add(r, Ghost(prefix));
                    proof {
                        assert(g.wf_for(b.subrange(0, i + 1)));
                    }
                    i = i + 1;
                }
                proof {
                    assert(b.subrange(0, n as int) =~= b);
                }
                self.grouped = Some(g);
                true
            },
        }
    }
}

/// Relies on `chrono::Utc::now` and `chrono::DateTime::timestamp`: the
/// current wall-clock time as whole seconds since the Unix epoch.  Nothing
/// is assumed about the value; callers state what holds for every reading.
#[verifier::external_body]
fn now_epoch_seconds() -> i64 {
    chrono::Utc::now().timestamp()
}

/// Law: the window's global request counter always equals the number of
/// buffered records.
pub proof fn lemma_count_consistency(w: RingBuffer)
    requires
        w.wf(),
    ensures
        w.stats.global.requests == w@.len(),
{
}

/// Law: on an otherwise-empty window, a pop right after `push(r)` returns
/// exactly `r` and leaves the window empty with a zero request count.
/// `push` ensures the buffer becomes `w@.push(r)`; `pop` then returns the
/// front and leaves the rest, which this lemma pins down.
pub proof fn lemma_round_trip(w: RingBuffer, r: Request)
    requires
        w.wf(),
        w@.len() == 0,
    ensures
        w@.push(r)[0] == r,
        w@.push(r).subrange(1, 1) == w@,
        w.stats.global.requests == 0,
{
    assert(w@.push(r).subrange(1, 1) =~= w@);
}

} // verus!
