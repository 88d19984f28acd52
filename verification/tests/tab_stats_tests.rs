use aether_procs::decimal::{parse_u32, parse_u64};
use aether_procs::tab_stats::{
    epoch_millis_or_zero, is_temporary_file, stats_file_name, temporary_file_name, thread_id_from_link,
    triage_stats_file, unix_time_ms, ScriptTabStats, StatsEntry, STALE_MS,
};

fn sample(pid: u32, tid: u32, updated_ms: u64) -> ScriptTabStats {
    ScriptTabStats {
        pid,
        tid,
        webview_id: format!("wv-{pid}-{tid}"),
        url: "https://example.com/".to_owned(),
        js_heap_bytes: 4096,
        updated_ms,
    }
}

#[test]
fn stats_files_are_named_by_pid_and_tid() {
    assert_eq!(stats_file_name(4000000, 5000000), "4000000-5000000.json");
    assert_eq!(stats_file_name(0, 7), "0-7.json");
    assert_eq!(temporary_file_name(12, 34, 123), "12-34.123.tmp");
}

#[test]
fn temporary_files_are_recognized_by_extension() {
    assert!(is_temporary_file("12-34.123.tmp"));
    assert!(is_temporary_file(&temporary_file_name(1, 2, 0)));
    assert!(!is_temporary_file(&stats_file_name(1, 2)));
    assert!(!is_temporary_file(".tmp"));
    assert!(!is_temporary_file("tmp"));
    assert!(!is_temporary_file("a.tmpx"));
    assert!(is_temporary_file("..tmp"));
    assert!(!is_temporary_file(".."));
}

#[test]
fn triage_keeps_fresh_and_removes_stale_or_invalid() {
    let now = 1_000_000;
    match triage_stats_file(now, Some(sample(1, 2, now))) {
        StatsEntry::Keep(stats) => {
            assert_eq!(stats.pid, 1);
            assert_eq!(stats.js_heap_bytes, 4096);
        },
        StatsEntry::Remove => panic!("fresh stats should be kept"),
    }
    assert!(matches!(
        triage_stats_file(now, Some(sample(1, 2, now - STALE_MS - 1_000))),
        StatsEntry::Remove
    ));
    assert!(matches!(
        triage_stats_file(now, Some(sample(1, 2, now - STALE_MS))),
        StatsEntry::Keep(_)
    ));
    // a snapshot from the future is not stale
    assert!(matches!(
        triage_stats_file(now, Some(sample(1, 2, now + 50_000))),
        StatsEntry::Keep(_)
    ));
    assert!(matches!(triage_stats_file(now, None), StatsEntry::Remove));
}

#[test]
fn thread_id_comes_from_the_link_target() {
    assert_eq!(thread_id_from_link(Some("1234/task/5678"), 1234), 5678);
    assert_eq!(thread_id_from_link(Some("/proc/9/task/10/"), 9), 10);
    assert_eq!(thread_id_from_link(Some("1234/task/abc"), 1234), 1234);
    assert_eq!(thread_id_from_link(None, 77), 77);
}

#[test]
fn clock_reads_after_the_epoch() {
    // 2020-01-01 in milliseconds; the sandbox clock is later than that.
    assert!(unix_time_ms() > 1_577_836_800_000);
}

#[test]
fn decimal_numbers_parse_like_str_parse() {
    let chars = |s: &str| s.chars().collect::<Vec<char>>();
    assert_eq!(parse_u32(&chars("4294967295")), Some(u32::MAX));
    assert_eq!(parse_u32(&chars("4294967296")), None);
    assert_eq!(parse_u32(&chars("+17")), Some(17));
    assert_eq!(parse_u32(&chars("+")), None);
    assert_eq!(parse_u32(&chars("")), None);
    assert_eq!(parse_u32(&chars("-1")), None);
    assert_eq!(parse_u32(&chars("0012")), Some(12));
    assert_eq!(parse_u64(&chars("18446744073709551615")), Some(u64::MAX));
    assert_eq!(parse_u64(&chars("18446744073709551616")), None);
    for text in ["0", "7", "+9", "99999999999", "1 2", "x"] {
        assert_eq!(parse_u64(&chars(text)), text.parse::<u64>().ok());
    }
}

#[test]
fn temporary_files_match_std_extension() {
    for name in ["a.tmp", ".tmp", "..tmp", "x.y.tmp", "tmp", "a.tmp.json", "..", "a.TMP", "a..tmp"] {
        let std_tmp = std::path::Path::new("/dir")
            .join(name)
            .extension()
            .is_some_and(|extension| extension == "tmp");
        assert_eq!(is_temporary_file(name), std_tmp, "{name}");
    }
}

#[test]
fn epoch_millis_truncate_to_u64_or_read_zero_before_the_epoch() {
    assert_eq!(epoch_millis_or_zero(Some(5)), 5);
    assert_eq!(epoch_millis_or_zero(Some(1_700_000_000_123)), 1_700_000_000_123);
    assert_eq!(epoch_millis_or_zero(Some((1u128 << 64) + 7)), 7);
    assert_eq!(epoch_millis_or_zero(None), 0);
}
