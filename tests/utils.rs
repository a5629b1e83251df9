use chrono::{TimeZone, Timelike, Utc};
use usn_journal_rs::utils::{
    filetime_to_systemtime, grow_name_buffer, parse_name_info, volume_path, UnixTime,
    INITIAL_NAME_INFO_LEN, MAX_NAME_INFO_LEN,
};

fn w(s: &str) -> Vec<u16> {
    s.encode_utf16().collect()
}

fn chrono_of(t: UnixTime) -> chrono::DateTime<Utc> {
    Utc.timestamp_opt(t.secs, t.nanos).single().expect("instant in range")
}

#[test]
fn filetime_to_systemtime_test() {
    // The Unix epoch.
    let unix_epoch = filetime_to_systemtime(116_444_736_000_000_000);
    assert_eq!(unix_epoch, UnixTime { secs: 0, nanos: 0 });

    // The Windows epoch, 11644473600 seconds before the Unix one.
    let windows_epoch = filetime_to_systemtime(0);
    assert_eq!(windows_epoch, UnixTime { secs: -11644473600, nanos: 0 });

    // 2020-01-01 00:00:00 UTC.
    let t2020 = filetime_to_systemtime(132_223_104_000_000_000);
    assert_eq!(t2020, UnixTime { secs: 1577836800, nanos: 0 });

    // 2023-07-15 12:30:45 UTC.
    let t2023 = filetime_to_systemtime(133_338_978_450_000_000);
    assert_eq!(t2023, UnixTime { secs: 1689424245, nanos: 0 });
}

#[test]
fn test_filetime_to_datetime() {
    // 132224440000000000 ticks: 1577970400 s after the Unix epoch.
    let result = chrono_of(filetime_to_systemtime(132224440000000000));
    let expected = Utc.with_ymd_and_hms(2020, 1, 2, 13, 6, 40).unwrap();
    assert_eq!(result, expected);

    // 2020-01-01 12:00:00 UTC.
    let result = chrono_of(filetime_to_systemtime(132223536000000000));
    let expected = Utc.with_ymd_and_hms(2020, 1, 1, 12, 0, 0).unwrap();
    assert_eq!(result, expected);

    // The Windows epoch.
    let result = chrono_of(filetime_to_systemtime(0));
    let expected = Utc.with_ymd_and_hms(1601, 1, 1, 0, 0, 0).unwrap();
    assert_eq!(result, expected);

    // The Unix epoch.
    let result = chrono_of(filetime_to_systemtime(116444736000000000));
    let expected = Utc.with_ymd_and_hms(1970, 1, 1, 0, 0, 0).unwrap();
    assert_eq!(result, expected);

    // Sub-second precision.
    let result = chrono_of(filetime_to_systemtime(132224440001234560));
    let expected = Utc
        .with_ymd_and_hms(2020, 1, 2, 13, 6, 40)
        .unwrap()
        .with_nanosecond(123456000)
        .unwrap();
    assert_eq!(result, expected);
}

#[test]
fn filetime_before_unix_epoch_rounds_down() {
    // One tick before the Unix epoch.
    let t = filetime_to_systemtime(116_444_735_999_999_999);
    assert_eq!(t, UnixTime { secs: -1, nanos: 999_999_900 });
    // A negative tick count stays exact.
    let t = filetime_to_systemtime(-1);
    assert_eq!(t, UnixTime { secs: -11644473601, nanos: 999_999_900 });
    let t = filetime_to_systemtime(i64::MIN);
    assert_eq!(t.nanos % 100, 0);
    assert!(t.nanos < 1_000_000_000);
    assert_eq!(
        t.secs as i128 * 10_000_000 + t.nanos as i128 / 100,
        i64::MIN as i128 - 116_444_736_000_000_000
    );
}

#[test]
fn filetime_sub_second_ticks() {
    let t = filetime_to_systemtime(116_444_736_000_000_001);
    assert_eq!(t, UnixTime { secs: 0, nanos: 100 });
    let t = filetime_to_systemtime(i64::MAX);
    assert_eq!(t.secs, 922337203685 - 11644473600);
    assert_eq!(t.nanos, 477_580_700);
}

#[test]
fn grow_name_buffer_doubles_up_to_the_limit() {
    assert_eq!(grow_name_buffer(INITIAL_NAME_INFO_LEN), Some(2 * INITIAL_NAME_INFO_LEN));
    assert_eq!(grow_name_buffer(0), Some(INITIAL_NAME_INFO_LEN));
    assert_eq!(grow_name_buffer(40000), Some(MAX_NAME_INFO_LEN));
    assert_eq!(grow_name_buffer(MAX_NAME_INFO_LEN - 1), Some(MAX_NAME_INFO_LEN));
    assert_eq!(grow_name_buffer(MAX_NAME_INFO_LEN), None);
    // The retries end: from the first size the limit is reached in a few steps.
    let mut n = INITIAL_NAME_INFO_LEN;
    let mut steps = 0;
    while let Some(next) = grow_name_buffer(n) {
        assert!(next > n);
        n = next;
        steps += 1;
    }
    assert_eq!(n, MAX_NAME_INFO_LEN);
    assert_eq!(steps, 7);
}

#[test]
fn volume_path_upper_cases_the_drive() {
    assert_eq!(volume_path('c' as u16, &w("\\Windows\\System32")), w("C:\\Windows\\System32"));
    assert_eq!(volume_path('D' as u16, &w("\\")), w("D:\\"));
    assert_eq!(volume_path('e' as u16, &w("data")), w("E:\\data"));
    assert_eq!(volume_path('e' as u16, &w("")), w("E:\\"));
}

#[test]
fn parse_name_info_reads_the_stated_length() {
    let name = w("\\Users\\José\\😀");
    let mut info = ((2 * name.len()) as u32).to_le_bytes().to_vec();
    for u in &name {
        info.extend_from_slice(&u.to_le_bytes());
    }
    // Unused room after the name is ignored.
    info.resize(info.len() + 10, 0xFF);
    assert_eq!(parse_name_info(&info), Some(name.clone()));
    // A buffer too short for the stated length, or for the length itself.
    assert_eq!(parse_name_info(&info[..4 + 2 * name.len() - 1]), None);
    assert_eq!(parse_name_info(&[1, 0, 0]), None);
    assert_eq!(parse_name_info(&[0, 0, 0, 0]), Some(Vec::new()));
}
