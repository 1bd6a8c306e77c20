use crate::request::Request;
use vstd::prelude::*;

verus! {

/// A request count together with a byte total: the smallest aggregation
/// unit of the engine.
#[derive(Clone, Copy, PartialEq, Eq, Structural, Debug)]
pub struct Counters {
    pub requests: i64,
    pub bytes: i64,
}

impl Counters {
    pub fn empty() -> (r: Self)
        ensures
            r.requests == 0,
            r.bytes == 0,
    {
        Self { requests: 0, bytes: 0 }
    }

    pub fn add_request(&mut self, request: &Request)
        requires
            old(self).requests < i64::MAX,
            i64::MIN <= old(self).bytes + request.size <= i64::MAX,
        ensures
            final(self).requests == old(self).requests + 1,
            final(self).bytes == old(self).bytes + request.size,
    {
        self.requests = self.requests + 1;
        self.bytes = self.bytes + request.size;
    }

    pub fn remove_request(&mut self, request: &Request)
        requires
            old(self).requests > i64::MIN,
            i64::MIN <= old(self).bytes - request.size <= i64::MAX,
        ensures
            final(self).requests == old(self).requests - 1,
            final(self).bytes == old(self).bytes - request.size,
    {
        self.requests = self.requests - 1;
        self.bytes = self.bytes - request.size;
    }
}

/// Status-code class of a record: 1 through 5 for 1xx through 5xx, and 0
/// for anything outside 100..=599.
pub open spec fn class_of(status: i64) -> int {
    if 100 <= status <= 199 {
        1
    } else if 200 <= status <= 299 {
        2
    } else if 300 <= status <= 399 {
        3
    } else if 400 <= status <= 499 {
        4
    } else if 500 <= status <= 599 {
        5
    } else {
        0
    }
}

/// Sum of the sizes of a sequence of records.
pub open spec fn total_bytes(b: Seq<Request>) -> int
    decreases b.len(),
{
    if b.len() == 0 {
        0
    } else {
        b[0].size + total_bytes(b.subrange(1, b.len() as int))
    }
}

/// How many records of `b` fall in status class `c`.
pub open spec fn class_count(b: Seq<Request>, c: int) -> int
    decreases b.len(),
{
    if b.len() == 0 {
        0
    } else {
        (if class_of(b[0].status_code) == c {
            1int
        } else {
            0int
        }) + class_count(b.subrange(1, b.len() as int), c)
    }
}

/// Byte total of the records of `b` that fall in status class `c`.
pub open spec fn class_bytes(b: Seq<Request>, c: int) -> int
    decreases b.len(),
{
    if b.len() == 0 {
        0
    } else {
        (if class_of(b[0].status_code) == c {
            b[0].size as int
        } else {
            0int
        }) + class_bytes(b.subrange(1, b.len() as int), c)
    }
}

/// Every record carries a non-negative size.
pub open spec fn sizes_ok(b: Seq<Request>) -> bool {
    forall|i: int| 0 <= i < b.len() ==> b[i].size >= 0
}

/// `s` is exactly the aggregate of the records `b`: the global counters
/// match the whole sequence and each of the six buckets matches its class.
pub open spec fn stats_matches(s: Stats, b: Seq<Request>) -> bool {
    &&& s.by_status_code@.len() == 6
    &&& s.global.requests == b.len()
    &&& s.global.bytes == total_bytes(b)
    &&& forall|c: int|
        0 <= c < 6 ==> (#[trigger] s.by_status_code@[c]).requests == class_count(b, c)
            && s.by_status_code@[c].bytes == class_bytes(b, c)
}

/// Appending a record changes each aggregate by exactly that record's
/// contribution.
pub proof fn lemma_counts_push(b: Seq<Request>, r: Request)
    ensures
        total_bytes(b.push(r)) == total_bytes(b) + r.size,
        forall|c: int|
            #[trigger] class_count(b.push(r), c) == class_count(b, c) + (if class_of(r.status_code)
                == c {
                1int
            } else {
                0int
            }),
        forall|c: int|
            #[trigger] class_bytes(b.push(r), c) == class_bytes(b, c) + (if class_of(r.status_code)
                == c {
                r.size as int
            } else {
                0int
            }),
    decreases b.len(),
{
    let p = b.push(r);
    if b.len() == 0 {
        assert(p.len() == 1);
        assert(p[0] == r);
        assert(p.subrange(1, 1) =~= Seq::<Request>::empty());
        assert(total_bytes(p) == p[0].size + total_bytes(p.subrange(1, 1)));
        assert(total_bytes(p.subrange(1, 1)) == 0);
        assert forall|c: int| #[trigger] class_count(p, c) == class_count(b, c) + (if class_of(
            r.status_code,
        ) == c {
            1int
        } else {
            0int
        }) by {
            assert(class_count(p.subrange(1, 1), c) == 0);
        }
        assert forall|c: int| #[trigger] class_bytes(p, c) == class_bytes(b, c) + (if class_of(
            r.status_code,
        ) == c {
            r.size as int
        } else {
            0int
        }) by {
            assert(class_bytes(p.subrange(1, 1), c) == 0);
        }
    } else {
        let rest = b.subrange(1, b.len() as int);
        assert(p[0] == b[0]);
        assert(p.subrange(1, p.len() as int) =~= rest.push(r));
        lemma_counts_push(rest, r);
        assert(total_bytes(p) == p[0].size + total_bytes(rest.push(r)));
        assert(total_bytes(b) == b[0].size + total_bytes(rest));
        assert forall|c: int| #[trigger] class_count(p, c) == class_count(b, c) + (if class_of(
            r.status_code,
        ) == c {
            1int
        } else {
            0int
        }) by {
            assert(class_count(p, c) == (if class_of(p[0].status_code) == c {
                1int
            } else {
                0int
            }) + class_count(rest.push(r), c));
        }
        assert forall|c: int| #[trigger] class_bytes(p, c) == class_bytes(b, c) + (if class_of(
            r.status_code,
        ) == c {
            r.size as int
        } else {
            0int
        }) by {
            assert(class_bytes(p, c) == (if class_of(p[0].status_code) == c {
                p[0].size as int
            } else {
                0int
            }) + class_bytes(rest.push(r), c));
        }
    }
}

/// Each aggregate is bounded by the whole: counts by the length, class
/// bytes by the byte total, and all are non-negative when sizes are.
pub proof fn lemma_counts_bounds(b: Seq<Request>, c: int)
    requires
        sizes_ok(b),
    ensures
        0 <= class_count(b, c) <= b.len(),
        0 <= total_bytes(b),
        0 <= class_bytes(b, c) <= total_bytes(b),
    decreases b.len(),
{
    if b.len() > 0 {
        let rest = b.subrange(1, b.len() as int);
        assert(sizes_ok(rest)) by {
            assert(forall|i: int| 0 <= i < rest.len() ==> rest[i] == b[i + 1]);
        }
        lemma_counts_bounds(rest, c);
    }
}

/// Summed over the six classes, the per-class aggregates give back the
/// global ones: every record lands in exactly one bucket.
pub proof fn lemma_class_sum(b: Seq<Request>)
    ensures
        class_count(b, 0) + class_count(b, 1) + class_count(b, 2) + class_count(b, 3) + class_count(
            b,
            4,
        ) + class_count(b, 5) == b.len(),
        class_bytes(b, 0) + class_bytes(b, 1) + class_bytes(b, 2) + class_bytes(b, 3) + class_bytes(
            b,
            4,
        ) + class_bytes(b, 5) == total_bytes(b),
    decreases b.len(),
{
    if b.len() > 0 {
        lemma_class_sum(b.subrange(1, b.len() as int));
        assert(0 <= class_of(b[0].status_code) < 6);
    }
}

/// With non-negative sizes, a prefix weighs no more than the whole.
pub proof fn lemma_total_bytes_prefix_le(b: Seq<Request>, k: int)
    requires
        sizes_ok(b),
        0 <= k <= b.len(),
    ensures
        total_bytes(b.subrange(0, k)) <= total_bytes(b),
    decreases b.len() - k,
{
    if k < b.len() {
        lemma_total_bytes_prefix_le(b, k + 1);
        assert(b.subrange(0, k + 1) =~= b.subrange(0, k).push(b[k]));
        lemma_counts_push(b.subrange(0, k), b[k]);
    } else {
        assert(b.subrange(0, k) =~= b);
    }
}

/// Process-wide statistics: one global pair of counters plus one bucket
/// per status-code class (index 0 collects codes outside 100..=599).
#[derive(Clone, Debug)]
pub struct Stats {
    pub global: Counters,
    pub by_status_code: Vec<Counters>,
}

impl Stats {
    /// Internal consistency of a statistics value on its own: six buckets,
    /// none negative, and the buckets sum to the global counters.
    pub open spec fn wf(self) -> bool {
        &&& self.by_status_code@.len() == 6
        &&& forall|c: int|
            0 <= c < 6 ==> (#[trigger] self.by_status_code@[c]).requests >= 0
                && self.by_status_code@[c].bytes >= 0
        &&& self.by_status_code@[0].requests + self.by_status_code@[1].requests
            + self.by_status_code@[2].requests + self.by_status_code@[3].requests
            + self.by_status_code@[4].requests + self.by_status_code@[5].requests
            == self.global.requests
        &&& self.by_status_code@[0].bytes + self.by_status_code@[1].bytes
            + self.by_status_code@[2].bytes + self.by_status_code@[3].bytes
            + self.by_status_code@[4].bytes + self.by_status_code@[5].bytes == self.global.bytes
    }

    pub fn new() -> (r: Self)
        ensures
            r.wf(),
            r.global.requests == 0,
            r.global.bytes == 0,
            stats_matches(r, Seq::<Request>::empty()),
    {
        let mut by_status_code: Vec<Counters> = Vec::new();
        by_status_code.push(Counters::empty());
        by_status_code.push(Counters::empty());
        by_status_code.push(Counters::empty());
        by_status_code.push(Counters::empty());
        by_status_code.push(Counters::empty());
        by_status_code.push(Counters::empty());
        Self { global: Counters::empty(), by_status_code }
    }

    pub fn add_request(&mut self, request: &Request)
        requires
            old(self).wf(),
            request.size >= 0,
            old(self).global.requests < i64::MAX,
            old(self).global.bytes + request.size <= i64::MAX,
        ensures
            final(self).wf(),
            final(self).global.requests == old(self).global.requests + 1,
            final(self).global.bytes == old(self).global.bytes + request.size,
            final(self).by_status_code@.len() == 6,
            final(self).by_status_code@[class_of(request.status_code)].requests == old(
                self,
            ).by_status_code@[class_of(request.status_code)].requests + 1,
            final(self).by_status_code@[class_of(request.status_code)].bytes == old(
                self,
            ).by_status_code@[class_of(request.status_code)].bytes + request.size,
            forall|c: int|
                0 <= c < 6 && c != class_of(request.status_code)
                    ==> #[trigger] final(self).by_status_code@[c] == old(self).by_status_code@[c],
    {
        self.global.add_request(request);
        let i = Self::status_code_stats_index_for_request(request);
        let mut bucket = self.by_status_code[i];
        bucket.add_request(request);
        self.by_status_code.set(i, bucket);
    }

    pub fn remove_request(&mut self, request: &Request)
        requires
            old(self).wf(),
            request.size >= 0,
            old(self).by_status_code@.len() == 6,
            old(self).by_status_code@[class_of(request.status_code)].requests >= 1,
            old(self).by_status_code@[class_of(request.status_code)].bytes >= request.size,
        ensures
            final(self).wf(),
            final(self).global.requests == old(self).global.requests - 1,
            final(self).global.bytes == old(self).global.bytes - request.size,
            final(self).by_status_code@.len() == 6,
            final(self).by_status_code@[class_of(request.status_code)].requests == old(
                self,
            ).by_status_code@[class_of(request.status_code)].requests - 1,
            final(self).by_status_code@[class_of(request.status_code)].bytes == old(
                self,
            ).by_status_code@[class_of(request.status_code)].bytes - request.size,
            forall|c: int|
                0 <= c < 6 && c != class_of(request.status_code)
                    ==> #[trigger] final(self).by_status_code@[c] == old(self).by_status_code@[c],
    {
        self.global.remove_request(request);
        let i = Self::status_code_stats_index_for_request(request);
        let mut bucket = self.by_status_code[i];
        bucket.remove_request(request);
        self.by_status_code.set(i, bucket);
    }

    fn status_code_stats_index_for_request(request: &Request) -> (i: usize)
        ensures
            i == class_of(request.status_code),
    {
        if 100 <= request.status_code && request.status_code <= 199 {
            1
        } else if 200 <= request.status_code && request.status_code <= 299 {
            2
        } else if 300 <= request.status_code && request.status_code <= 399 {
            3
        } else if 400 <= request.status_code && request.status_code <= 499 {
            4
        } else if 500 <= request.status_code && request.status_code <= 599 {
            5
        } else {
            0
        }
    }
}

/// Statistics that match a record sequence with non-negative sizes are
/// internally consistent.
pub proof fn lemma_stats_matches_wf(s: Stats, b: Seq<Request>)
    requires
        stats_matches(s, b),
        sizes_ok(b),
    ensures
        s.wf(),
{
    lemma_class_sum(b);
    assert forall|c: int| 0 <= c < 6 implies (#[trigger] s.by_status_code@[c]).requests >= 0
        && s.by_status_code@[c].bytes >= 0 by {
        lemma_counts_bounds(b, c);
    }
}

/// Summed bucket request counts equal the global request count whenever the
/// statistics match a window's record sequence.
pub proof fn lemma_bucket_consistency(s: Stats, b: Seq<Request>)
    requires
        stats_matches(s, b),
    ensures
        s.by_status_code@[0].requests + s.by_status_code@[1].requests
            + s.by_status_code@[2].requests + s.by_status_code@[3].requests
            + s.by_status_code@[4].requests + s.by_status_code@[5].requests == s.global.requests,
{
    lemma_class_sum(b);
}

} // verus!
