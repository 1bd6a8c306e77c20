use crate::options::{GroupBy, Order};
use crate::request::Request;
use crate::stats::{
    lemma_counts_bounds, lemma_counts_push, lemma_stats_matches_wf, sizes_ok, stats_matches,
    total_bytes, Stats,
};
use std::collections::VecDeque;
use vstd::prelude::*;

verus! {

/// The categorical value a record is grouped under: one variant per
/// grouping mode.
#[derive(PartialEq, Eq, Clone, Debug)]
pub enum GroupKey {
    IpAddress(String),
    Referer(String),
    StatusCode(i64),
    URI(String),
    Username(String),
}

/// The username a record is grouped under: the empty string when the log
/// line carried none.
pub open spec fn spec_username(r: Request) -> Seq<char> {
    match r.username {
        Some(u) => u@,
        None => Seq::<char>::empty(),
    }
}

/// Two keys name the same group: same variant, same payload (strings
/// compared by their characters).
pub open spec fn key_eqv(a: GroupKey, b: GroupKey) -> bool {
    match (a, b) {
        (GroupKey::IpAddress(x), GroupKey::IpAddress(y)) => x@ == y@,
        (GroupKey::Referer(x), GroupKey::Referer(y)) => x@ == y@,
        (GroupKey::StatusCode(x), GroupKey::StatusCode(y)) => x == y,
        (GroupKey::URI(x), GroupKey::URI(y)) => x@ == y@,
        (GroupKey::Username(x), GroupKey::Username(y)) => x@ == y@,
        _ => false,
    }
}

/// `k` is the group key of record `r` under mode `g`.
pub open spec fn key_matches(k: GroupKey, r: Request, g: GroupBy) -> bool {
    match g {
        GroupBy::IpAddress => match k {
            GroupKey::IpAddress(s) => s@ == r.ip_address@,
            _ => false,
        },
        GroupBy::Referer => match k {
            GroupKey::Referer(s) => s@ == r.referer@,
            _ => false,
        },
        GroupBy::StatusCode => match k {
            GroupKey::StatusCode(c) => c == r.status_code,
            _ => false,
        },
        GroupBy::URI => match k {
            GroupKey::URI(s) => s@ == r.uri@,
            _ => false,
        },
        GroupBy::Username => match k {
            GroupKey::Username(s) => s@ == spec_username(r),
            _ => false,
        },
    }
}

/// Keys that match the same record name the same group, and equivalent
/// keys match the same records.
pub proof fn lemma_key_eqv_matches(k1: GroupKey, k2: GroupKey, r: Request, g: GroupBy)
    ensures
        key_matches(k1, r, g) && key_matches(k2, r, g) ==> key_eqv(k1, k2),
        key_eqv(k1, k2) ==> (key_matches(k1, r, g) == key_matches(k2, r, g)),
{
}

/// The subsequence of `b` whose records are grouped under `k` in mode
/// `g`, in the order they stand in `b`.
pub open spec fn matching(b: Seq<Request>, k: GroupKey, g: GroupBy) -> Seq<Request>
    decreases b.len(),
{
    if b.len() == 0 {
        Seq::<Request>::empty()
    } else if key_matches(k, b[0], g) {
        seq![b[0]] + matching(b.subrange(1, b.len() as int), k, g)
    } else {
        matching(b.subrange(1, b.len() as int), k, g)
    }
}

/// Appending a record extends exactly the matching group and no other.
pub proof fn lemma_matching_push(b: Seq<Request>, r: Request, k: GroupKey, g: GroupBy)
    ensures
        matching(b.push(r), k, g) == (if key_matches(k, r, g) {
            matching(b, k, g).push(r)
        } else {
            matching(b, k, g)
        }),
    decreases b.len(),
{
    let p = b.push(r);
    if b.len() == 0 {
        assert(p[0] == r);
        assert(p.subrange(1, 1) =~= Seq::<Request>::empty());
        if key_matches(k, r, g) {
            assert(seq![r] + matching(p.subrange(1, 1), k, g) =~= Seq::<Request>::empty().push(r));
        }
    } else {
        let rest = b.subrange(1, b.len() as int);
        assert(p[0] == b[0]);
        assert(p.subrange(1, p.len() as int) =~= rest.push(r));
        lemma_matching_push(rest, r, k, g);
        if key_matches(k, b[0], g) {
            if key_matches(k, r, g) {
                assert(seq![b[0]] + matching(rest, k, g).push(r) =~= (seq![b[0]] + matching(
                    rest,
                    k,
                    g,
                )).push(r));
            }
        }
    }
}

/// A group is no longer and no heavier than the window it is cut from.
pub proof fn lemma_matching_sub(b: Seq<Request>, k: GroupKey, g: GroupBy)
    ensures
        matching(b, k, g).len() <= b.len(),
        sizes_ok(b) ==> sizes_ok(matching(b, k, g)),
        sizes_ok(b) ==> total_bytes(matching(b, k, g)) <= total_bytes(b),
    decreases b.len(),
{
    if b.len() == 0 {
    } else {
        let rest = b.subrange(1, b.len() as int);
        assert(sizes_ok(b) ==> sizes_ok(rest)) by {
            assert(forall|i: int| 0 <= i < rest.len() ==> rest[i] == b[i + 1]);
        }
        lemma_matching_sub(rest, k, g);
        if key_matches(k, b[0], g) {
            let m = seq![b[0]] + matching(rest, k, g);
            assert(m[0] == b[0]);
            assert(m.subrange(1, m.len() as int) =~= matching(rest, k, g));
            assert(total_bytes(m) == b[0].size + total_bytes(matching(rest, k, g)));
            if sizes_ok(b) {
                assert(sizes_ok(m)) by {
                    assert(forall|i: int|
                        1 <= i < m.len() ==> m[i] == matching(rest, k, g)[i - 1]);
                }
            }
            assert(total_bytes(b) == b[0].size + total_bytes(rest));
        } else {
            assert(total_bytes(b) == b[0].size + total_bytes(rest));
        }
    }
}

/// A group is empty exactly when no record of the window belongs to it.
pub proof fn lemma_matching_none(b: Seq<Request>, k: GroupKey, g: GroupBy)
    requires
        forall|i: int| 0 <= i < b.len() ==> !key_matches(k, #[trigger] b[i], g),
    ensures
        matching(b, k, g) == Seq::<Request>::empty(),
    decreases b.len(),
{
    if b.len() > 0 {
        let rest = b.subrange(1, b.len() as int);
        assert(forall|i: int| 0 <= i < rest.len() ==> rest[i] == b[i + 1]);
        lemma_matching_none(rest, k, g);
    }
}

/// A record of the window that belongs to a group keeps that group
/// non-empty.
pub proof fn lemma_matching_some(b: Seq<Request>, k: GroupKey, g: GroupBy, ri: int)
    requires
        0 <= ri < b.len(),
        key_matches(k, b[ri], g),
    ensures
        matching(b, k, g).len() > 0,
    decreases b.len(),
{
    if ri > 0 {
        let rest = b.subrange(1, b.len() as int);
        assert(rest[ri - 1] == b[ri]);
        lemma_matching_some(rest, k, g, ri - 1);
    }
}

impl Request {
    /// Total derivation of the group key of a record under a mode; a
    /// missing username maps to the empty string.
    pub fn group_key(&self, group_by: GroupBy) -> (r: GroupKey)
        ensures
            key_matches(r, *self, group_by),
    {
        match group_by {
            GroupBy::IpAddress => GroupKey::IpAddress(self.ip_address.clone()),
            GroupBy::Referer => GroupKey::Referer(self.referer.clone()),
            GroupBy::StatusCode => GroupKey::StatusCode(self.status_code),
            GroupBy::URI => GroupKey::URI(self.uri.clone()),
            GroupBy::Username => GroupKey::Username(
                match &self.username {
                    Some(u) => u.clone(),
                    None => String::new(),
                },
            ),
        }
    }
}

/// Executable key comparison, equivalent to `key_eqv`.
pub fn key_eq(a: &GroupKey, b: &GroupKey) -> (r: bool)
    ensures
        r == key_eqv(*a, *b),
{
    match (a, b) {
        (GroupKey::IpAddress(x), GroupKey::IpAddress(y)) => x.eq(y),
        (GroupKey::Referer(x), GroupKey::Referer(y)) => x.eq(y),
        (GroupKey::StatusCode(x), GroupKey::StatusCode(y)) => *x == *y,
        (GroupKey::URI(x), GroupKey::URI(y)) => x.eq(y),
        (GroupKey::Username(x), GroupKey::Username(y)) => x.eq(y),
        _ => false,
    }
}

/// One group's window: the records of the parent window that share a
/// key, with their own aggregate statistics.  A group window never has a
/// partition of its own, which makes a second grouping level structurally
/// impossible.
#[derive(Clone, Debug)]
pub struct GroupWindow {
    pub stats: Stats,
    pub buffer: VecDeque<Request>,
}

impl GroupWindow {
    /// The statistics are exactly the aggregate of the buffered records,
    /// and every record carries a non-negative size.
    pub open spec fn wf(self) -> bool {
        &&& stats_matches(self.stats, self.buffer@)
        &&& sizes_ok(self.buffer@)
    }

    pub fn new() -> (r: Self)
        ensures
            r.wf(),
            r.buffer@ == Seq::<Request>::empty(),
    {
        GroupWindow { stats: Stats::new(), buffer: VecDeque::new() }
    }

    /// Append a record and account for it.
    pub fn push(&mut self, request: Request)
        requires
            old(self).wf(),
            request.size >= 0,
            old(self).buffer@.len() < i64::MAX,
            total_bytes(old(self).buffer@) + request.size <= i64::MAX,
        ensures
            final(self).wf(),
            final(self).buffer@ == old(self).buffer@.push(request),
    {
        let ghost b = self.buffer@;
        proof {
            lemma_stats_matches_wf(self.stats, b);
        }
        self.stats.add_request(&request);
        self.buffer.push_back(request);
        proof {
            lemma_counts_push(b, request);
        }
    }

    /// Remove and return the oldest record, unaccounting for it.
    pub fn pop(&mut self) -> (r: Option<Request>)
        requires
            old(self).wf(),
            old(self).buffer@.len() > 0,
        ensures
            final(self).wf(),
            r == Some(old(self).buffer@[0]),
            final(self).buffer@ == old(self).buffer@.subrange(1, old(self).buffer@.len() as int),
    {
        let ghost b = self.buffer@;
        let ghost rest = b.subrange(1, b.len() as int);
        proof {
            lemma_stats_matches_wf(self.stats, b);
            assert(sizes_ok(rest)) by {
                assert(forall|i: int| 0 <= i < rest.len() ==> rest[i] == b[i + 1]);
            }
            lemma_counts_bounds(rest, crate::stats::class_of(b[0].status_code));
        }
        match self.buffer.pop_front() {
            Some(x) => {
                self.stats.remove_request(&x);
                Some(x)
            },
            None => {
                proof {
                    assert(false);
                }
                None
            },
        }
    }

    /// Peek at the oldest record.
    pub fn first(&self) -> (r: Option<&Request>)
        ensures
            match r {
                Some(x) => self.buffer@.len() > 0 && *x == self.buffer@[0],
                None => self.buffer@.len() == 0,
            },
    {
        if self.buffer.len() == 0 {
            None
        } else {
            Some(&self.buffer[0])
        }
    }

    /// Rank this group against another by the configured sort criterion,
    /// compared over the global counters.
    pub fn compare(&self, other: &GroupWindow, order: Order) -> (r: core::cmp::Ordering)
        ensures
            r == spec_compare(self.stats.global, other.stats.global, order),
    {
        let (x, y) = match order {
            Order::Requests => (self.stats.global.requests, other.stats.global.requests),
            Order::Size => (self.stats.global.bytes, other.stats.global.bytes),
        };
        if x < y {
            core::cmp::Ordering::Less
        } else if x == y {
            core::cmp::Ordering::Equal
        } else {
            core::cmp::Ordering::Greater
        }
    }
}

/// Ranking of two groups' counters under a sort criterion.
pub open spec fn spec_compare(a: crate::stats::Counters, b: crate::stats::Counters, order: Order) -> core::cmp::Ordering {
    let x = if order == Order::Requests {
        a.requests as int
    } else {
        a.bytes as int
    };
    let y = if order == Order::Requests {
        b.requests as int
    } else {
        b.bytes as int
    };
    if x < y {
        core::cmp::Ordering::Less
    } else if x == y {
        core::cmp::Ordering::Equal
    } else {
        core::cmp::Ordering::Greater
    }
}

/// One entry of a partition: a key and the group window holding exactly
/// the parent records grouped under that key.
#[derive(Clone, Debug)]
pub struct GroupEntry {
    pub key: GroupKey,
    pub window: GroupWindow,
}

/// Every record of `b` is grouped under the key of some entry of `es`.
pub open spec fn covers(es: Seq<GroupEntry>, b: Seq<Request>, g: GroupBy) -> bool {
    forall|ri: int|
        0 <= ri < b.len() ==> exists|i: int|
            0 <= i < es.len() && key_matches(es[i].key, #[trigger] b[ri], g)
}

/// A partition of a parent window by group key, kept incrementally
/// consistent with the parent's pushes and pops.
#[derive(Clone, Debug)]
pub struct GroupedStats {
    pub group_by: GroupBy,
    pub buffer: Vec<GroupEntry>,
}

impl GroupedStats {
    /// Consistency with a parent record sequence `b`: keys are pairwise
    /// distinct, each entry's window holds exactly the matching
    /// subsequence of `b` with consistent statistics, no entry is empty,
    /// and every record of `b` has an entry.
    pub open spec fn wf_for(self, b: Seq<Request>) -> bool {
        let es = self.buffer@;
        &&& forall|i: int, j: int|
            0 <= i < j < es.len() ==> !key_eqv(#[trigger] es[i].key, #[trigger] es[j].key)
        &&& forall|i: int| 0 <= i < es.len() ==> (#[trigger] es[i]).window.wf()
        &&& forall|i: int|
            0 <= i < es.len() ==> (#[trigger] es[i]).window.buffer@ == matching(
                b,
                es[i].key,
                self.group_by,
            )
        &&& forall|i: int| 0 <= i < es.len() ==> (#[trigger] es[i]).window.buffer@.len() > 0
        &&& covers(es, b, self.group_by)
    }

    pub fn new(group_by: GroupBy) -> (r: Self)
        ensures
            r.group_by == group_by,
            r.buffer@.len() == 0,
            r.wf_for(Seq::<Request>::empty()),
    {
        GroupedStats { group_by, buffer: Vec::new() }
    }

    /// Switch to a new grouping key; the existing partition no longer
    /// describes the parent under the new key, so it is cleared.
    pub fn group_by(&mut self, group_by: GroupBy)
        ensures
            final(self).group_by == group_by,
            final(self).buffer@.len() == 0,
            final(self).wf_for(Seq::<Request>::empty()),
    {
        self.buffer.clear();
        self.group_by = group_by;
    }

    /// Index of the entry equivalent to `key`, if one exists.
    fn find_index(&self, key: &GroupKey) -> (r: Option<usize>)
        ensures
            match r {
                Some(i) => 0 <= i < self.buffer@.len() && key_eqv(
                    self.buffer@[i as int].key,
                    *key,
                ),
                None => forall|j: int|
                    0 <= j < self.buffer@.len() ==> !key_eqv(
                        (#[trigger] self.buffer@[j]).key,
                        *key,
                    ),
            },
    {
        let n = self.buffer.len();
        let mut i: usize = 0;
        while i < n
            invariant
                n == self.buffer@.len(),
                i <= n,
                forall|j: int| 0 <= j < i ==> !key_eqv((#[trigger] self.buffer@[j]).key, *key),
            decreases n - i,
        {
            if key_eq(&self.buffer[i].key, key) {
                return Some(i);
            }
            i = i + 1;
        }
        None
    }

    /// Route a record pushed onto the parent into its group, creating the
    /// group if this is its first record.  `parent` is the parent's
    /// record sequence before the push.
    pub fn add(&mut self, request: Request, parent: Ghost<Seq<Request>>)
        requires
            old(self).wf_for(parent@),
            request.size >= 0,
            sizes_ok(parent@),
            parent@.len() < i64::MAX,
            total_bytes(parent@) + request.size <= i64::MAX,
        ensures
            final(self).wf_for(parent@.push(request)),
            final(self).group_by == old(self).group_by,
    {
        let ghost b = parent@;
        let ghost g = self.group_by;
        let ghost es0 = self.buffer@;
        let key = request.group_key(self.group_by);
        proof {
            assert forall|k: GroupKey| true implies matching(b.push(request), k, g) == (
            if key_matches(k, request, g) {
                matching(b, k, g).push(request)
            } else {
                matching(b, k, g)
            }) by {
                lemma_matching_push(b, request, k, g);
            }
        }
        match self.find_index(&key) {
            Some(i) => {
                proof {
                    lemma_key_eqv_matches(es0[i as int].key, key, request, g);
                    lemma_matching_sub(b, es0[i as int].key, g);
                    lemma_counts_bounds(b, 0);
                }
                let mut e = self.buffer.remove(i);
                e.window.push(request);
                self.buffer.insert(i, e);
                proof {
                    let es = self.buffer@;
                    assert(es =~= es0.update(i as int, e));
                    let p = b.push(request);
                    assert forall|j: int| 0 <= j < es.len() implies (#[trigger] es[j]).window.buffer@
                        == matching(p, es[j].key, g) by {
                        if j != i {
                            assert(es[j] == es0[j]);
                            lemma_key_eqv_matches(es0[j].key, key, request, g);
                        }
                    }
                    assert forall|ri: int| 0 <= ri < p.len() implies exists|i2: int|
                        0 <= i2 < es.len() && key_matches(es[i2].key, #[trigger] p[ri], g) by {
                        if ri < b.len() {
                            assert(p[ri] == b[ri]);
                            let j = choose|j: int|
                                0 <= j < es0.len() && key_matches(es0[j].key, b[ri], g);
                            assert(es[j].key == es0[j].key);
                            assert(key_matches(es[j].key, p[ri], g));
                        } else {
                            assert(p[ri] == request);
                            lemma_key_eqv_matches(es[i as int].key, key, request, g);
                            assert(key_matches(es[i as int].key, p[ri], g));
                        }
                    }
                }
            },
            None => {
                proof {
                    assert forall|ri: int| 0 <= ri < b.len() implies !key_matches(
                        key,
                        #[trigger] b[ri],
                        g,
                    ) by {
                        if key_matches(key, b[ri], g) {
                            let j = choose|j: int|
                                0 <= j < es0.len() && key_matches(es0[j].key, b[ri], g);
                            lemma_key_eqv_matches(es0[j].key, key, b[ri], g);
                        }
                    }
                    lemma_matching_none(b, key, g);
                    lemma_counts_bounds(b, 0);
                }
                let mut window = GroupWindow::new();
                window.push(request);
                self.buffer.push(GroupEntry { key, window });
                proof {
                    let es = self.buffer@;
                    let p = b.push(request);
                    let ghost n0 = es0.len() as int;
                    assert(es =~= es0.push(es[n0]));
                    assert forall|j: int| 0 <= j < es.len() implies (#[trigger] es[j]).window.buffer@
                        == matching(p, es[j].key, g) by {
                        if j < n0 {
                            assert(es[j] == es0[j]);
                            lemma_key_eqv_matches(es0[j].key, es[n0].key, request, g);
                        } else {
                            assert(es[j].window.buffer@ == Seq::<Request>::empty().push(request));
                        }
                    }
                    assert forall|ri: int| 0 <= ri < p.len() implies exists|i2: int|
                        0 <= i2 < es.len() && key_matches(es[i2].key, #[trigger] p[ri], g) by {
                        if ri < b.len() {
                            assert(p[ri] == b[ri]);
                            let j = choose|j: int|
                                0 <= j < es0.len() && key_matches(es0[j].key, b[ri], g);
                            assert(es[j].key == es0[j].key);
                            assert(key_matches(es[j].key, p[ri], g));
                        } else {
                            assert(p[ri] == request);
                            assert(key_matches(es[n0].key, p[ri], g));
                        }
                    }
                }
            },
        }
    }

    /// Unroute the record just popped from the front of the parent: pop
    /// the front of its group's window and drop the group if that empties
    /// it.  `parent` is the parent's record sequence before the pop.
    pub fn remove(&mut self, request: Request, parent: Ghost<Seq<Request>>)
        requires
            old(self).wf_for(parent@),
            parent@.len() > 0,
            request == parent@[0],
        ensures
            final(self).wf_for(parent@.subrange(1, parent@.len() as int)),
            final(self).group_by == old(self).group_by,
    {
        let ghost b = parent@;
        let ghost g = self.group_by;
        let ghost es0 = self.buffer@;
        let ghost bd = b.subrange(1, b.len() as int);
        let key = request.group_key(self.group_by);
        match self.find_index(&key) {
            Some(i) => {
                proof {
                    lemma_key_eqv_matches(es0[i as int].key, key, request, g);
                    assert(key_matches(es0[i as int].key, b[0], g));
                    assert(matching(b, es0[i as int].key, g) == seq![b[0]] + matching(
                        bd,
                        es0[i as int].key,
                        g,
                    ));
                    assert((seq![b[0]] + matching(bd, es0[i as int].key, g)).subrange(
                        1,
                        (seq![b[0]] + matching(bd, es0[i as int].key, g)).len() as int,
                    ) =~= matching(bd, es0[i as int].key, g));
                    assert forall|j: int|
                        0 <= j < es0.len() && j != i implies matching(bd, (#[trigger] es0[j]).key, g)
                        == matching(b, es0[j].key, g) by {
                        lemma_key_eqv_matches(es0[j].key, es0[i as int].key, b[0], g);
                        assert(!key_matches(es0[j].key, b[0], g));
                    }
                }
                let mut e = self.buffer.remove(i);
                e.window.pop();
                if e.window.first().is_some() {
                    self.buffer.insert(i, e);
                    proof {
                        let es = self.buffer@;
                        assert(es =~= es0.update(i as int, e));
                        assert forall|ri: int| 0 <= ri < bd.len() implies exists|i2: int|
                            0 <= i2 < es.len() && key_matches(es[i2].key, #[trigger] bd[ri], g) by {
                            assert(bd[ri] == b[ri + 1]);
                            let j = choose|j: int|
                                0 <= j < es0.len() && key_matches(es0[j].key, b[ri + 1], g);
                            assert(es[j].key == es0[j].key);
                            assert(key_matches(es[j].key, bd[ri], g));
                        }
                    }
                } else {
                    proof {
                        let es = self.buffer@;
                        assert(es =~= es0.remove(i as int));
                        assert(matching(bd, es0[i as int].key, g) == e.window.buffer@);
                        assert(matching(bd, es0[i as int].key, g).len() == 0);
                        assert forall|j1: int, j2: int| 0 <= j1 < j2 < es.len() implies !key_eqv(
                            (#[trigger] es[j1]).key,
                            (#[trigger] es[j2]).key,
                        ) by {
                            let o1 = if j1 < i { j1 } else { j1 + 1 };
                            let o2 = if j2 < i { j2 } else { j2 + 1 };
                            assert(es[j1] == es0[o1]);
                            assert(es[j2] == es0[o2]);
                        }
                        assert forall|ri: int| 0 <= ri < bd.len() implies exists|i2: int|
                            0 <= i2 < es.len() && key_matches(es[i2].key, #[trigger] bd[ri], g) by {
                            assert(bd[ri] == b[ri + 1]);
                            let j = choose|j: int|
                                0 <= j < es0.len() && key_matches(es0[j].key, b[ri + 1], g);
                            if j == i {
                                lemma_matching_some(bd, es0[i as int].key, g, ri);
                                assert(false);
                            } else if j < i {
                                assert(es[j] == es0[j]);
                                assert(key_matches(es[j].key, bd[ri], g));
                            } else {
                                assert(es[j - 1] == es0[j]);
                                assert(key_matches(es[j - 1].key, bd[ri], g));
                            }
                        }
                    }
                }
            },
            None => {
                proof {
                    let j = choose|j: int| 0 <= j < es0.len() && key_matches(es0[j].key, b[0], g);
                    lemma_key_eqv_matches(es0[j].key, key, b[0], g);
                    assert(false);
                }
            },
        }
    }

    /// The partition's entries, for ranking and display by a consumer.
    pub fn iter(&self) -> (r: &Vec<GroupEntry>)
        ensures
            *r == self.buffer,
    {
        &self.buffer
    }
}

/// Law: under a consistent partition, every record of the parent window
/// belongs to exactly one group entry, and no entry's window is empty.
pub proof fn lemma_partition_complete(gs: GroupedStats, b: Seq<Request>)
    requires
        gs.wf_for(b),
    ensures
        covers(gs.buffer@, b, gs.group_by),
        forall|ri: int, i: int, j: int|
            0 <= ri < b.len() && 0 <= i < gs.buffer@.len() && 0 <= j < gs.buffer@.len()
                && #[trigger] key_matches(gs.buffer@[i].key, b[ri], gs.group_by)
                && #[trigger] key_matches(gs.buffer@[j].key, b[ri], gs.group_by) ==> i == j,
        forall|i: int| 0 <= i < gs.buffer@.len() ==> (#[trigger] gs.buffer@[i]).window.buffer@.len() > 0,
{
    assert forall|ri: int, i: int, j: int|
        0 <= ri < b.len() && 0 <= i < gs.buffer@.len() && 0 <= j < gs.buffer@.len()
            && #[trigger] key_matches(gs.buffer@[i].key, b[ri], gs.group_by)
            && #[trigger] key_matches(gs.buffer@[j].key, b[ri], gs.group_by) implies i == j by {
        lemma_key_eqv_matches(gs.buffer@[i].key, gs.buffer@[j].key, b[ri], gs.group_by);
        if i < j {
            assert(!key_eqv(gs.buffer@[i].key, gs.buffer@[j].key));
        } else if j < i {
            assert(!key_eqv(gs.buffer@[j].key, gs.buffer@[i].key));
        }
    }
}

} // verus!
