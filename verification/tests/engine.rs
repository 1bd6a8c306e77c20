use apachetop::options::GroupBy;
use apachetop::request::{HttpMethod, HttpVersion, Request};
use apachetop::ring_buffer::{RingBuffer, StorageType};

fn record(time: i64, status: i64, size: i64, uri: &str) -> Request {
    Request {
        ip_address: String::from("10.0.0.1"),
        identd: None,
        username: None,
        time,
        method: HttpMethod::GET,
        uri: String::from(uri),
        http_version: HttpVersion::Http1_1,
        status_code: status,
        size,
        referer: String::from("-"),
        user_agent: String::from("test-agent"),
    }
}

#[test]
fn count_consistency_through_pushes_and_pops() {
    let st = StorageType::Requests(100);
    let mut w = RingBuffer::new(&st, false, GroupBy::URI);
    for i in 0..10 {
        w.push(record(i, 200, 10, "/a"));
        assert_eq!(w.stats.global.requests as usize, w.buffer.len());
    }
    for _ in 0..4 {
        w.pop();
        assert_eq!(w.stats.global.requests as usize, w.buffer.len());
    }
    assert_eq!(w.stats.global.requests, 6);
    assert_eq!(w.stats.global.bytes, 60);
}

#[test]
fn round_trip_returns_the_pushed_record() {
    let st = StorageType::Requests(10);
    let mut w = RingBuffer::new(&st, true, GroupBy::URI);
    let r = record(7, 201, 123, "/only");
    w.push(r.clone());
    let popped = w.pop().expect("window had one record");
    assert_eq!(popped, r);
    assert_eq!(w.buffer.len(), 0);
    assert_eq!(w.stats.global.requests, 0);
    assert_eq!(w.stats.global.bytes, 0);
}

#[test]
fn count_policy_keeps_the_three_newest() {
    let st = StorageType::Requests(3);
    let mut w = RingBuffer::new(&st, false, GroupBy::URI);
    for i in 1..=5 {
        w.push(record(i, 200, 1, &format!("/r{}", i)));
    }
    w.cleanup_at(&st, 1_000);
    assert_eq!(w.buffer.len(), 3);
    assert_eq!(w.buffer[0].uri, "/r3");
    assert_eq!(w.buffer[1].uri, "/r4");
    assert_eq!(w.buffer[2].uri, "/r5");
    assert_eq!(w.stats.global.requests, 3);
}

#[test]
fn duration_policy_keeps_only_fresh_records() {
    let now = 1_000_000;
    let st = StorageType::Timed(60);
    let mut w = RingBuffer::new(&st, false, GroupBy::URI);
    w.push(record(now - 120, 200, 5, "/old"));
    w.push(record(now - 70, 200, 5, "/older"));
    w.push(record(now - 10, 200, 5, "/fresh"));
    w.cleanup_at(&st, now);
    assert_eq!(w.buffer.len(), 1);
    assert_eq!(w.buffer[0].uri, "/fresh");
    assert_eq!(w.stats.global.requests, 1);
    assert_eq!(w.stats.global.bytes, 5);
}

#[test]
fn duration_policy_keeps_future_timestamped_records() {
    let now = 1_000_000;
    let st = StorageType::Timed(60);
    let mut w = RingBuffer::new(&st, false, GroupBy::URI);
    w.push(record(now + 500, 200, 5, "/future"));
    w.cleanup_at(&st, now);
    assert_eq!(w.buffer.len(), 1);
}

#[test]
fn duration_policy_trusts_buffer_order_not_timestamps() {
    // Eviction pops from the front and stops at the first fresh record,
    // so a stale record behind a fresh one survives a cleanup pass.
    let now = 1_000_000;
    let st = StorageType::Timed(60);
    let mut w = RingBuffer::new(&st, false, GroupBy::URI);
    w.push(record(now - 10, 200, 1, "/fresh"));
    w.push(record(now - 120, 200, 1, "/stale-behind-fresh"));
    w.cleanup_at(&st, now);
    assert_eq!(w.buffer.len(), 2);
}

#[test]
fn cleanup_twice_gives_the_same_buffer() {
    let now = 1_000_000;
    let st = StorageType::Timed(60);
    let mut w = RingBuffer::new(&st, false, GroupBy::URI);
    w.push(record(now - 90, 200, 1, "/a"));
    w.push(record(now - 80, 404, 2, "/b"));
    w.push(record(now - 5, 200, 3, "/c"));
    w.cleanup_at(&st, now);
    let after_first: Vec<String> = w.buffer.iter().map(|r| r.uri.clone()).collect();
    let stats_first = (w.stats.global.requests, w.stats.global.bytes);
    w.cleanup_at(&st, now);
    let after_second: Vec<String> = w.buffer.iter().map(|r| r.uri.clone()).collect();
    assert_eq!(after_first, after_second);
    assert_eq!(stats_first, (w.stats.global.requests, w.stats.global.bytes));

    let stc = StorageType::Requests(2);
    let mut c = RingBuffer::new(&stc, false, GroupBy::URI);
    for i in 0..5 {
        c.push(record(i, 200, 1, "/x"));
    }
    c.cleanup_at(&stc, now);
    let len_first = c.buffer.len();
    c.cleanup_at(&stc, now);
    assert_eq!(len_first, c.buffer.len());
    assert_eq!(c.buffer.len(), 2);
}

#[test]
fn cleanup_with_wall_clock_runs() {
    // Records stamped far in the future stay under an age policy whatever
    // the clock reads now.
    let st = StorageType::Timed(3600);
    let mut w = RingBuffer::new(&st, false, GroupBy::URI);
    w.push(record(i64::MAX - 10_000, 200, 1, "/future"));
    w.cleanup(&st);
    assert_eq!(w.buffer.len(), 1);
}

#[test]
fn first_peeks_at_the_oldest_record() {
    let st = StorageType::Requests(10);
    let mut w = RingBuffer::new(&st, false, GroupBy::URI);
    assert!(w.first().is_none());
    w.push(record(1, 200, 1, "/first"));
    w.push(record(2, 200, 1, "/second"));
    assert_eq!(w.first().unwrap().uri, "/first");
}

#[test]
fn parse_failure_sizes_default_to_zero_sized_records() {
    // A record whose size failed to parse carries zero bytes and still
    // counts as one request.
    let st = StorageType::Requests(10);
    let mut w = RingBuffer::new(&st, false, GroupBy::URI);
    w.push(record(1, 200, 0, "/no-size"));
    assert_eq!(w.stats.global.requests, 1);
    assert_eq!(w.stats.global.bytes, 0);
}
