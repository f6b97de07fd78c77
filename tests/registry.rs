use setup_center::identity::{
    creation_time_from_boot, filetime_to_unix_secs, is_pid_file_valid, parse_stat_start_ticks,
    parse_uptime_secs, RecordProbe,
};
use setup_center::record::{default_started_by, parse_record, render_record, ServiceRecord, StartedBy};
use setup_center::text::{parse_unsigned_in, trim_bounds};

fn rec(pid: u32, started_by: StartedBy, started_at: u64) -> ServiceRecord {
    ServiceRecord { pid, started_by, started_at }
}

#[test]
fn legacy_pid_parses_like_structured_record() {
    let legacy = parse_record(b"4821");
    let structured = parse_record(b"{\"pid\":4821,\"started_by\":\"self\",\"started_at\":0}");
    assert_eq!(legacy, Some(rec(4821, StartedBy::Supervisor, 0)));
    assert_eq!(legacy, structured);
    // identity verification is skipped for a record without a start time
    let r = legacy.unwrap();
    assert!(is_pid_file_valid(&r, true, Some(999_999)));
    assert!(is_pid_file_valid(&r, true, None));
    assert!(!is_pid_file_valid(&r, false, Some(0)));
}

#[test]
fn legacy_pid_with_whitespace_and_plus_sign() {
    assert_eq!(parse_record(b"  4821\n"), Some(rec(4821, StartedBy::Supervisor, 0)));
    assert_eq!(parse_record(b"+17"), Some(rec(17, StartedBy::Supervisor, 0)));
}

#[test]
fn zero_or_garbage_is_no_record() {
    assert_eq!(parse_record(b"0"), None);
    assert_eq!(parse_record(b""), None);
    assert_eq!(parse_record(b"   "), None);
    assert_eq!(parse_record(b"abc"), None);
    assert_eq!(parse_record(b"-5"), None);
    assert_eq!(parse_record(b"4294967296"), None);
    assert_eq!(parse_record(b"{\"pid\":0,\"started_by\":\"self\",\"started_at\":5}"), None);
    assert_eq!(parse_record(b"{\"started_by\":\"self\"}"), None);
    assert_eq!(parse_record(b"{\"pid\":12"), None);
}

#[test]
fn largest_legacy_pid() {
    assert_eq!(parse_record(b"4294967295"), Some(rec(u32::MAX, StartedBy::Supervisor, 0)));
}

#[test]
fn structured_record_members() {
    let text = b"{\n  \"pid\": 1234,\n  \"started_by\": \"external\",\n  \"started_at\": 1700000000\n}\n";
    assert_eq!(parse_record(text), Some(rec(1234, StartedBy::External, 1_700_000_000)));
    // defaults
    assert_eq!(parse_record(b"{\"pid\": 9}"), Some(rec(9, StartedBy::Supervisor, 0)));
    // markers of the supervisor's own launches
    assert_eq!(
        parse_record(b"{\"pid\": 9, \"started_by\": \"tauri\"}"),
        Some(rec(9, StartedBy::Supervisor, 0))
    );
    // other launchers are never owned
    assert_eq!(
        parse_record(b"{\"pid\": 9, \"started_by\": \"cli\"}"),
        Some(rec(9, StartedBy::External, 0))
    );
    // unknown members are ignored
    assert_eq!(
        parse_record(b"{\"port\": 18900, \"pid\": 9, \"ok\": true, \"note\": \"a\\\"b\", \"x\": null}"),
        Some(rec(9, StartedBy::Supervisor, 0))
    );
}

#[test]
fn structured_record_conflicts() {
    assert_eq!(parse_record(b"{\"pid\": 9, \"pid\": 10}"), None);
    assert_eq!(parse_record(b"{\"pid\": \"9\"}"), None);
    assert_eq!(parse_record(b"{\"pid\": 9, \"started_at\": null}"), None);
    assert_eq!(parse_record(b"{\"pid\": 9, \"started_by\": 1}"), None);
    assert_eq!(parse_record(b"{\"pid\": 4294967296}"), None);
    assert_eq!(parse_record(b"{\"pid\": 9} x"), None);
    assert_eq!(parse_record(b"{\"pid\": 9, \"flag\": yes}"), None);
}

#[test]
fn rendered_record_text_and_round_trip() {
    let r = rec(4821, StartedBy::Supervisor, 1_700_000_123);
    let out = render_record(&r);
    assert_eq!(
        String::from_utf8(out.clone()).unwrap(),
        "{\n  \"pid\": 4821,\n  \"started_by\": \"self\",\n  \"started_at\": 1700000123\n}\n"
    );
    assert_eq!(parse_record(&out), Some(r));
    let e = rec(7, StartedBy::External, 0);
    assert_eq!(parse_record(&render_record(&e)), Some(e));
    let m = rec(u32::MAX, StartedBy::Supervisor, u64::MAX);
    assert_eq!(parse_record(&render_record(&m)), Some(m));
}

#[test]
fn default_launcher_is_supervisor() {
    assert_eq!(default_started_by(), StartedBy::Supervisor);
}

#[test]
fn identity_tolerance_is_five_seconds() {
    let r = rec(77, StartedBy::Supervisor, 1000);
    assert!(is_pid_file_valid(&r, true, Some(1005)));
    assert!(is_pid_file_valid(&r, true, Some(995)));
    assert!(!is_pid_file_valid(&r, true, Some(1006)));
    assert!(!is_pid_file_valid(&r, true, Some(994)));
    // creation time unknown: liveness alone decides
    assert!(is_pid_file_valid(&r, true, None));
    assert!(!is_pid_file_valid(&r, false, None));
    let p = RecordProbe { record: r, alive: true, creation_time: Some(5000) };
    assert!(!setup_center::identity::probe_is_valid(&p));
}

#[test]
fn filetime_conversion() {
    // 2023-11-14T22:13:20Z = 1_700_000_000 s after the epoch
    let ft: u64 = 116_444_736_000_000_000 + 1_700_000_000 * 10_000_000 + 9_999_999;
    let high = (ft >> 32) as u32;
    let low = (ft & 0xffff_ffff) as u32;
    assert_eq!(filetime_to_unix_secs(high, low), Some(1_700_000_000));
    assert_eq!(filetime_to_unix_secs(0, 5), None);
}

#[test]
fn creation_time_from_uptime() {
    assert_eq!(creation_time_from_boot(10_000, 1_000, 25_000), Some(9_250));
    assert_eq!(creation_time_from_boot(10, 1_000, 250), Some(2));
    assert_eq!(creation_time_from_boot(u64::MAX, 0, 1_000), None);
}

#[test]
fn stat_start_time_field() {
    let stat = b"4821 (python (serve)) S 1 4821 4821 0 -1 4194560 100 0 0 0 5 3 0 0 20 0 4 0 123456 1000 200 18446744073709551615\n";
    assert_eq!(parse_stat_start_ticks(stat), Some(123_456));
    assert_eq!(parse_stat_start_ticks(b"4821 (python) S 1 2 3"), None);
    assert_eq!(parse_stat_start_ticks(b"no paren here"), None);
    assert_eq!(parse_stat_start_ticks(b"1 (x)"), None);
}

#[test]
fn uptime_whole_seconds() {
    assert_eq!(parse_uptime_secs(b"12345.67 54321.00\n"), Some(12_345));
    assert_eq!(parse_uptime_secs(b"42\n"), Some(42));
    assert_eq!(parse_uptime_secs(b"4.x 1"), None);
    assert_eq!(parse_uptime_secs(b""), None);
}

#[test]
fn trimming_and_numbers() {
    assert_eq!(trim_bounds(b"  ab \t"), (2, 4));
    assert_eq!(trim_bounds(b"   "), (3, 3));
    assert_eq!(parse_unsigned_in(b"x65535y", 1, 6, 65535), Some(65535));
    assert_eq!(parse_unsigned_in(b"x65536y", 1, 6, 65535), None);
    assert_eq!(parse_unsigned_in(b"+", 0, 1, 10), None);
}
