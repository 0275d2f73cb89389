use hyprlauncher::usage::UsageStats;

#[test]
fn counters_are_saved_as_sorted_lines() {
    let mut stats = UsageStats::new();
    for _ in 0..5 {
        stats.bump("a.desktop");
    }
    for _ in 0..3 {
        stats.bump("b.desktop");
    }
    assert_eq!(stats.serialize(), "3\tb.desktop\n5\ta.desktop");
    assert_eq!(UsageStats::new().serialize(), "");
}

#[test]
fn saved_counters_read_back_the_same() {
    let mut stats = UsageStats::new();
    for _ in 0..12 {
        stats.bump("code.desktop");
    }
    stats.bump("firefox.desktop");
    stats.bump("with\ttab.desktop");
    stats.bump("");
    let back = UsageStats::parse(&stats.serialize());
    assert_eq!(back.len(), 4);
    assert_eq!(back.count("code.desktop"), 12);
    assert_eq!(back.count("firefox.desktop"), 1);
    assert_eq!(back.count("with\ttab.desktop"), 1);
    assert_eq!(back.count(""), 1);
    assert_eq!(back.serialize(), stats.serialize());
}

#[test]
fn reading_skips_malformed_lines_and_keeps_the_last_count() {
    let stats = UsageStats::parse("7\tx.desktop\r\nnot a counter\n -1\ty.desktop\n 2 \tx.desktop\n+4\tz.desktop\n99999999999\tw\n");
    assert_eq!(stats.count("x.desktop"), 2);
    assert_eq!(stats.count("y.desktop"), 0);
    assert_eq!(stats.count("z.desktop"), 4);
    assert_eq!(stats.count("w"), 0);
    assert_eq!(stats.len(), 2);
}

#[test]
fn bumping_counts_from_zero() {
    let mut stats = UsageStats::default();
    assert_eq!(stats.len(), 0);
    stats.bump("a");
    stats.bump("b");
    stats.bump("a");
    assert_eq!(stats.count("a"), 2);
    assert_eq!(stats.count("b"), 1);
    assert_eq!(stats.count("c"), 0);
    assert_eq!(stats.len(), 2);
}
