use crate::request::Request;
use crate::ring_buffer::RingBuffer;
use crate::stats::{total_bytes, Stats};
use vstd::prelude::*;

verus! {

/// One step of the aggregator: account a freshly received record in the
/// process-wide all-time statistics and append it to the shared root
/// window.  The caller runs this once per record drained from the
/// ingestion channel, taking each resource's lock around its update.
pub fn aggregate_record(alltime_stats: &mut Stats, ring_buffer: &mut RingBuffer, request: Request)
    requires
        old(alltime_stats).wf(),
        old(ring_buffer).wf(),
        request.size >= 0,
        old(alltime_stats).global.requests < i64::MAX,
        old(alltime_stats).global.bytes + request.size <= i64::MAX,
        old(ring_buffer)@.len() < i64::MAX,
        total_bytes(old(ring_buffer)@) + request.size <= i64::MAX,
    ensures
        final(alltime_stats).wf(),
        final(ring_buffer).wf(),
        final(ring_buffer)@ == old(ring_buffer)@.push(request),
        final(alltime_stats).global.requests == old(alltime_stats).global.requests + 1,
        final(alltime_stats).global.bytes == old(alltime_stats).global.bytes + request.size,
{
    alltime_stats.add_request(&request);
    ring_buffer.push(request);
}

} // verus!
