use apachetop::options::GroupBy;
use apachetop::pipeline::aggregate_record;
use apachetop::request::{HttpMethod, HttpVersion, Request};
use apachetop::ring_buffer::{RingBuffer, StorageType};
use apachetop::stats::Stats;

fn record(time: i64, status: i64, size: i64, uri: &str) -> Request {
    Request {
        ip_address: String::from("10.0.0.1"),
        identd: None,
        username: None,
        time,
        method: HttpMethod::GET,
        uri: String::from(uri),
        http_version: HttpVersion::Http1_1,
        status_code: status,
        size,
        referer: String::from("-"),
        user_agent: String::from("test-agent"),
    }
}

#[test]
fn aggregator_drains_the_channel_exactly() {
    // Three producers feed one unbounded channel; the single aggregator
    // drains it after all senders are gone.  Whatever the interleaving of
    // sends, every record is counted exactly once.
    let (tx, rx) = crossbeam_channel::unbounded::<Request>();
    let producers = 3;
    let per_producer = 1000;
    for p in 0..producers {
        let tx = tx.clone();
        for i in 0..per_producer {
            let uri = format!("/p{}/r{}", p, i);
            tx.send(record((p * per_producer + i) as i64, 200, 1, &uri)).unwrap();
        }
    }
    drop(tx);

    let mut alltime = Stats::new();
    let st = StorageType::Requests(1_000_000);
    let mut window = RingBuffer::new(&st, true, GroupBy::URI);
    for r in rx.iter() {
        aggregate_record(&mut alltime, &mut window, r);
    }
    assert_eq!(alltime.global.requests, (producers * per_producer) as i64);
    assert_eq!(window.stats.global.requests, (producers * per_producer) as i64);
    assert_eq!(window.buffer.len(), (producers * per_producer) as usize);
}

#[test]
fn bucket_totals_always_sum_to_the_global_count() {
    let statuses = [99, 100, 150, 200, 301, 404, 500, 599, 600, 999, -5];
    let mut alltime = Stats::new();
    let st = StorageType::Requests(100);
    let mut window = RingBuffer::new(&st, true, GroupBy::StatusCode);
    for (i, s) in statuses.iter().enumerate() {
        aggregate_record(&mut alltime, &mut window, record(i as i64, *s, 2, "/x"));
        let bucket_sum: i64 = window.stats.by_status_code.iter().map(|c| c.requests).sum();
        assert_eq!(bucket_sum, window.stats.global.requests);
        let alltime_sum: i64 = alltime.by_status_code.iter().map(|c| c.requests).sum();
        assert_eq!(alltime_sum, alltime.global.requests);
    }
    // Codes outside 100..=599 land in bucket 0.
    assert_eq!(window.stats.by_status_code[0].requests, 4);
    assert_eq!(window.stats.by_status_code[1].requests, 2);
    assert_eq!(window.stats.by_status_code[2].requests, 1);
    assert_eq!(window.stats.by_status_code[3].requests, 1);
    assert_eq!(window.stats.by_status_code[4].requests, 1);
    assert_eq!(window.stats.by_status_code[5].requests, 2);
}

#[test]
fn stats_add_and_remove_are_exact_inverses() {
    let mut s = Stats::new();
    let r = record(1, 204, 77, "/inv");
    s.add_request(&r);
    assert_eq!(s.global.requests, 1);
    assert_eq!(s.global.bytes, 77);
    assert_eq!(s.by_status_code[2].requests, 1);
    assert_eq!(s.by_status_code[2].bytes, 77);
    s.remove_request(&r);
    assert_eq!(s.global.requests, 0);
    assert_eq!(s.global.bytes, 0);
    assert_eq!(s.by_status_code[2].requests, 0);
    assert_eq!(s.by_status_code[2].bytes, 0);
}

#[test]
fn counters_track_requests_and_bytes() {
    let mut c = apachetop::stats::Counters::empty();
    let r = record(1, 200, 10, "/c");
    c.add_request(&r);
    c.add_request(&r);
    assert_eq!(c.requests, 2);
    assert_eq!(c.bytes, 20);
    c.remove_request(&r);
    assert_eq!(c.requests, 1);
    assert_eq!(c.bytes, 10);
}

#[test]
fn alltime_stats_survive_window_eviction() {
    // The all-time statistics and the windowed view are independent: a
    // cleanup pass on the window never touches the all-time aggregate.
    let mut alltime = Stats::new();
    let st = StorageType::Requests(1);
    let mut window = RingBuffer::new(&st, false, GroupBy::URI);
    for i in 0..5 {
        aggregate_record(&mut alltime, &mut window, record(i, 200, 1, "/x"));
    }
    window.cleanup_at(&st, 1_000);
    assert_eq!(window.stats.global.requests, 1);
    assert_eq!(alltime.global.requests, 5);
}
