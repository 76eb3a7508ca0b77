use csv_ingest::config::{parse_seconds, Config, DEFAULT_POLL_INTERVAL_SECS};

#[test]
fn defaults() {
    let cfg = Config::from_values(None, None, None, None, None);
    assert_eq!(cfg.share_root, ".");
    assert_eq!(cfg.target_glob, "**/*.csv");
    assert_eq!(cfg.poll_interval_secs, 30);
    assert_eq!(cfg.db_path, "data/app.db");
    assert_eq!(cfg.log_level, "info");
    assert_eq!(DEFAULT_POLL_INTERVAL_SECS, 30);
}

#[test]
fn what_is_set_is_taken() {
    let cfg = Config::from_values(
        Some("/mnt/share".to_string()),
        Some("*.CSV".to_string()),
        Some("5".to_string()),
        Some("x.db".to_string()),
        Some("".to_string()),
    );
    assert_eq!(cfg.share_root, "/mnt/share");
    assert_eq!(cfg.target_glob, "*.CSV");
    assert_eq!(cfg.poll_interval_secs, 5);
    assert_eq!(cfg.db_path, "x.db");
    assert_eq!(cfg.log_level, "");
}

#[test]
fn an_interval_that_is_no_number_counts_as_not_set() {
    for bad in ["", " 5", "5 ", "-1", "5s", "1_000", "0x10", "+", "18446744073709551616", "٣"] {
        let cfg = Config::from_values(None, None, Some(bad.to_string()), None, None);
        assert_eq!(cfg.poll_interval_secs, 30, "{bad:?}");
    }
    let cfg = Config::from_values(None, None, Some("0".to_string()), None, None);
    assert_eq!(cfg.poll_interval_secs, 0);
}

#[test]
fn seconds_are_read_as_std_reads_them() {
    for text in [
        "0", "7", "30", "+30", "007", "18446744073709551615", "18446744073709551616",
        "18446744073709551620", "99999999999999999999999", "1844674407370955161", "", "+", "++1",
        "+-1", "-0", "1+", "1.5", "1e3", " 1", "1\n", "a", "١", "000000000000000000000000001",
        "+18446744073709551615", "18446744073709551609", "18446744073709551610",
    ] {
        assert_eq!(parse_seconds(text), text.parse::<u64>().ok(), "{text:?}");
    }
    assert_eq!(parse_seconds("18446744073709551615"), Some(u64::MAX));
    assert_eq!(parse_seconds("+30"), Some(30));
    assert_eq!(parse_seconds("18446744073709551616"), None);
}
