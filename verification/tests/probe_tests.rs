use loki_ariaforge::probe::{
    content_range_total, is_onion_target, needs_range_probe, settle_content_length, state_file_path,
    ONION_ARCHIVE_FALLBACK_LENGTH,
};

#[test]
fn onion_targets_go_through_tor() {
    assert!(is_onion_target("http://abcdefgh.onion/data.7z", false));
    assert!(!is_onion_target("https://example.com/data.7z", false));
    assert!(is_onion_target("https://example.com/data.7z", true));
}

#[test]
fn state_file_sits_beside_output() {
    assert_eq!(state_file_path("/home/u/file.bin"), "/home/u/file.bin.loki_state");
    assert_eq!(state_file_path(""), ".loki_state");
}

#[test]
fn range_probe_only_when_head_is_silent() {
    assert!(needs_range_probe(None));
    assert!(needs_range_probe(Some(0)));
    assert!(!needs_range_probe(Some(12)));
}

#[test]
fn content_range_total_is_read_after_last_slash() {
    assert_eq!(content_range_total("bytes 0-1/5000"), Some(5000));
    assert_eq!(content_range_total("bytes 0-1/*"), None);
    assert_eq!(content_range_total("12345"), Some(12345));
    assert_eq!(content_range_total("a/b/77"), Some(77));
    assert_eq!(content_range_total("bytes 0-1/"), None);
    assert_eq!(content_range_total("bytes 0-1/+9"), Some(9));
    assert_eq!(content_range_total("bytes 0-1/99999999999999999999"), None);
    for v in ["bytes 0-1/5000", "bytes 0-1/*", "x/1/2", "", "/", "bytes 0-1/-3"] {
        let expected = v.split('/').last().and_then(|s| s.parse::<u64>().ok());
        assert_eq!(content_range_total(v), expected, "{v}");
    }
}

#[test]
fn settled_length_prefers_head() {
    assert_eq!(settle_content_length(Some(900), Some("bytes 0-1/5000"), false, "http://x/a"), 900);
    assert_eq!(settle_content_length(Some(0), Some("bytes 0-1/5000"), false, "http://x/a"), 5000);
    assert_eq!(settle_content_length(None, Some("bytes 0-1/5000"), false, "http://x/a"), 5000);
    assert_eq!(settle_content_length(None, None, false, "http://x/a"), 0);
    assert_eq!(settle_content_length(None, Some("bytes 0-1/*"), false, "http://x/a"), 0);
}

#[test]
fn onion_archive_of_unknown_length_uses_fallback() {
    assert_eq!(settle_content_length(None, None, true, "http://y.onion/dump.7z"), ONION_ARCHIVE_FALLBACK_LENGTH);
    assert_eq!(settle_content_length(None, None, true, "http://y.onion/dump.zip"), 0);
    assert_eq!(settle_content_length(None, None, false, "http://y.com/dump.7z"), 0);
    assert_eq!(settle_content_length(Some(10), None, true, "http://y.onion/dump.7z"), 10);
    assert_eq!(ONION_ARCHIVE_FALLBACK_LENGTH, 52040670752);
}
