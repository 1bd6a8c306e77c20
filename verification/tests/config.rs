use apachetop::options::{ConfigError, GroupBy, Options, Order};
use apachetop::request::{HttpMethod, HttpVersion};
use apachetop::ring_buffer::StorageType;

fn options_with_size(size: &str) -> Options {
    Options::new(2000, Order::Requests, GroupBy::URI, String::from(size))
        .expect("non-empty size text")
}

#[test]
fn storage_type_without_suffix_counts_requests() {
    assert_eq!(options_with_size("100").storage_type(), Ok(StorageType::Requests(100)));
    assert_eq!(options_with_size("0").storage_type(), Ok(StorageType::Requests(0)));
}

#[test]
fn storage_type_suffixes_scale_to_seconds() {
    assert_eq!(options_with_size("5s").storage_type(), Ok(StorageType::Timed(5)));
    assert_eq!(options_with_size("2m").storage_type(), Ok(StorageType::Timed(120)));
    assert_eq!(options_with_size("1h").storage_type(), Ok(StorageType::Timed(3600)));
    assert_eq!(options_with_size("3d").storage_type(), Ok(StorageType::Timed(259200)));
}

#[test]
fn storage_type_trims_every_trailing_suffix_character() {
    // All trailing unit characters are trimmed; the very last one names
    // the unit.
    assert_eq!(options_with_size("5sm").storage_type(), Ok(StorageType::Timed(300)));
}

#[test]
fn storage_type_rejects_garbage() {
    assert_eq!(
        options_with_size("abc").storage_type(),
        Err(ConfigError::InvalidBufferSize)
    );
    assert_eq!(
        options_with_size("12x3").storage_type(),
        Err(ConfigError::InvalidBufferSize)
    );
    assert_eq!(
        options_with_size("s").storage_type(),
        Err(ConfigError::InvalidBufferSize)
    );
    assert_eq!(
        options_with_size("-5").storage_type(),
        Err(ConfigError::InvalidBufferSize)
    );
}

#[test]
fn storage_type_rejects_overflowing_values() {
    // Larger than u64::MAX.
    assert_eq!(
        options_with_size("99999999999999999999999").storage_type(),
        Err(ConfigError::InvalidBufferSize)
    );
    // Fits as a count but overflows once scaled to seconds.
    assert_eq!(
        options_with_size("18446744073709551615d").storage_type(),
        Err(ConfigError::InvalidBufferSize)
    );
    assert_eq!(
        options_with_size("18446744073709551615").storage_type(),
        Ok(StorageType::Requests(u64::MAX))
    );
}

#[test]
fn empty_buffer_size_is_rejected_at_construction() {
    match Options::new(2000, Order::Requests, GroupBy::URI, String::new()) {
        Err(ConfigError::EmptyBufferSize) => {}
        other => panic!("expected an empty-size error, got {:?}", other),
    }
}

#[test]
fn empty_buffer_size_is_rejected_at_time_of_use() {
    let o = Options {
        interval_ms: 2000,
        order: Order::Requests,
        group: GroupBy::URI,
        buffer_size: String::new(),
    };
    assert_eq!(o.storage_type(), Err(ConfigError::EmptyBufferSize));
}

#[test]
fn toggle_sort_flips_between_the_two_orders() {
    let mut o = options_with_size("1h");
    assert_eq!(o.order, Order::Requests);
    o.toggle_sort();
    assert_eq!(o.order, Order::Size);
    o.toggle_sort();
    assert_eq!(o.order, Order::Requests);
}

#[test]
fn toggle_group_cycles_through_all_five_modes() {
    let mut o = Options::new(2000, Order::Requests, GroupBy::IpAddress, String::from("1h"))
        .unwrap();
    assert_eq!(o.toggle_group(), GroupBy::Referer);
    assert_eq!(o.toggle_group(), GroupBy::StatusCode);
    assert_eq!(o.toggle_group(), GroupBy::URI);
    assert_eq!(o.toggle_group(), GroupBy::Username);
    assert_eq!(o.toggle_group(), GroupBy::IpAddress);
}

#[test]
fn order_from_str_only_leading_s_means_size() {
    assert_eq!(Order::from_str("size"), Order::Size);
    assert_eq!(Order::from_str("S"), Order::Size);
    assert_eq!(Order::from_str("requests"), Order::Requests);
    assert_eq!(Order::from_str("anything"), Order::Requests);
}

#[test]
fn group_by_from_str_named_modes_and_fallback() {
    assert_eq!(GroupBy::from_str("ip"), GroupBy::IpAddress);
    assert_eq!(GroupBy::from_str("referer"), GroupBy::Referer);
    assert_eq!(GroupBy::from_str("referrer"), GroupBy::Referer);
    assert_eq!(GroupBy::from_str("status"), GroupBy::StatusCode);
    assert_eq!(GroupBy::from_str("username"), GroupBy::Username);
    assert_eq!(GroupBy::from_str("uri"), GroupBy::URI);
    assert_eq!(GroupBy::from_str("whatever"), GroupBy::URI);
}

#[test]
fn group_by_labels_match_the_table_header() {
    assert_eq!(GroupBy::IpAddress.label(), "IP");
    assert_eq!(GroupBy::Referer.label(), "REFERER");
    assert_eq!(GroupBy::StatusCode.label(), "CODE");
    assert_eq!(GroupBy::URI.label(), "URI");
    assert_eq!(GroupBy::Username.label(), "USERNAME");
}

#[test]
fn http_method_from_str_recognizes_exact_spellings() {
    assert_eq!(HttpMethod::from_str("GET"), Some(HttpMethod::GET));
    assert_eq!(HttpMethod::from_str("POST"), Some(HttpMethod::POST));
    assert_eq!(HttpMethod::from_str("get"), None);
    assert_eq!(HttpMethod::from_str(""), None);
}

#[test]
fn http_version_from_str_recognizes_exact_spellings() {
    assert_eq!(HttpVersion::from_str("HTTP/1.1"), Some(HttpVersion::Http1_1));
    assert_eq!(HttpVersion::from_str("HTTP/2.0"), Some(HttpVersion::Http2_0));
    assert_eq!(HttpVersion::from_str("HTTP/1.2"), None);
}
