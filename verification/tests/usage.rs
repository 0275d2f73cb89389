use hyprlauncher::usage::UsageStats;

#[test]
fn parses_and_counts_usage_lines() {
    let counts = UsageStats::parse("3\tfirefox.desktop\n12\tcode.desktop\nbasura\n");

    assert_eq!(counts.count("firefox.desktop"), 3);
    assert_eq!(counts.count("code.desktop"), 12);
    assert_eq!(counts.len(), 2);
}

#[test]
fn bump_increments_from_zero() {
    let mut stats = UsageStats::new();

    assert_eq!(stats.count("kitty.desktop"), 0);
    stats.bump("kitty.desktop");
    stats.bump("kitty.desktop");
    assert_eq!(stats.count("kitty.desktop"), 2);
}
