use akbox::official::OfficialNoticeClientError;
use akbox::official::OfficialNoticeFeedEntry;
use akbox::official::OfficialNoticeItem;
use akbox::official::ShanghaiDateTime;
use akbox::official::append_section_entries;
use akbox::official::build_shanghai_datetime;
use akbox::official::extract_flight_payloads;
use akbox::official::extract_notice_window;
use akbox::official::find_first_date_time;
use akbox::official::find_first_time_only;
use akbox::official::find_json_string_end;
use akbox::official::flight_payloads_scannable;
use akbox::official::format_datetime_optional;
use akbox::official::format_unix_timestamp_shanghai;
use akbox::official::is_initial_data_candidate;
use akbox::official::official_notice_url;
use akbox::official::parse_year_month_day_time;

fn published_2026() -> ShanghaiDateTime {
    ShanghaiDateTime { year: 2026, month: 3, day: 11, hour: 11, minute: 0, second: 0 }
}

fn chars(s: &str) -> Vec<char> {
    s.chars().collect()
}

fn item(cid: &str, display_time: i64, brief: &str) -> OfficialNoticeItem {
    OfficialNoticeItem {
        cid: cid.to_string(),
        tab: "0".to_string(),
        sticky: false,
        title: format!("公告{cid}"),
        author: "【明日方舟】运营组".to_string(),
        display_time,
        cover: String::new(),
        extra_cover: String::new(),
        brief: brief.to_string(),
    }
}

fn flight_page(payload: &str) -> String {
    let encoded = serde_json::to_string(&format!("d:{payload}")).unwrap();
    format!(
        "<html><body><script>self.__next_f = self.__next_f || []; self.__next_f.push([1,{encoded}])</script></body></html>"
    )
}

#[test]
fn activity_window_takes_the_publication_year() {
    let window = extract_notice_window(
        "一、「卫戍协议：盟约」限时活动开启关卡开放时间：03月14日 16:00 - 04月25日 03:59解锁条件：通关主线1-10",
        &published_2026(),
    );
    assert_eq!(window.0.as_deref(), Some("2026-03-14T16:00:00+08:00"));
    assert_eq!(window.1.as_deref(), Some("2026-04-25T03:59:00+08:00"));
}

#[test]
fn maintenance_window_ends_on_the_same_day() {
    let window = extract_notice_window(
        "感谢您对《明日方舟》的关注与支持。《明日方舟》计划将于2026年01月24日16:00 ~ 16:10期间进行服务器闪断更新。",
        &published_2026(),
    );
    assert_eq!(window.0.as_deref(), Some("2026-01-24T16:00:00+08:00"));
    assert_eq!(window.1.as_deref(), Some("2026-01-24T16:10:00+08:00"));
}

#[test]
fn stop_maintenance_window_with_explicit_year() {
    let window = extract_notice_window(
        "感谢您对《明日方舟》的关注与支持，《明日方舟》计划将于2026年03月14日16:00 ~ 17:00开启服务器停机维护。",
        &published_2026(),
    );
    assert_eq!(window.0.as_deref(), Some("2026-03-14T16:00:00+08:00"));
    assert_eq!(window.1.as_deref(), Some("2026-03-14T17:00:00+08:00"));
}

#[test]
fn brief_without_a_window_has_none() {
    let window = extract_notice_window("感谢大家一直以来对《明日方舟》的关注与支持。", &published_2026());
    assert_eq!(window, (None, None));
}

#[test]
fn impossible_dates_give_no_window() {
    let window = extract_notice_window("关卡开放时间：02月30日 16:00 - 03月01日 04:00", &published_2026());
    assert_eq!(window, (None, None));
}

#[test]
fn date_parsers_read_chinese_dates() {
    let m = parse_year_month_day_time(&chars("2026年01月24日16:00")).unwrap();
    assert_eq!((m.year, m.month, m.day, m.hour, m.minute), (2026, 1, 24, 16, 0));
    assert!(parse_year_month_day_time(&chars("26年01月24日16:00")).is_none());

    let m = find_first_date_time(&chars("开放：03月14日 16:00 起"), 2025).unwrap();
    assert_eq!((m.year, m.month, m.day, m.hour, m.minute), (2025, 3, 14, 16, 0));

    let t = find_first_time_only(&chars("至 17:30 结束")).unwrap();
    assert_eq!((t.hour, t.minute), (17, 30));
    assert!(find_first_time_only(&chars("没有时间")).is_none());
}

#[test]
fn leap_days_exist_only_in_leap_years() {
    assert!(build_shanghai_datetime(2024, 2, 29, 0, 0).is_some());
    assert!(build_shanghai_datetime(2026, 2, 29, 0, 0).is_none());
    assert!(build_shanghai_datetime(2026, 4, 31, 0, 0).is_none());
    assert!(build_shanghai_datetime(2026, 4, 30, 24, 0).is_none());
    let dt = build_shanghai_datetime(2000, 2, 29, 23, 59).unwrap();
    assert_eq!(format_datetime_optional(&dt).as_deref(), Some("2000-02-29T23:59:00+08:00"));
}

#[test]
fn unix_timestamps_format_in_shanghai_time() {
    match format_unix_timestamp_shanghai(1773457200) {
        Ok(text) => assert_eq!(text, "2026-03-14T11:00:00+08:00"),
        Err(_) => panic!("the timestamp is readable"),
    }
    match format_unix_timestamp_shanghai(-1) {
        Ok(text) => assert_eq!(text, "1970-01-01T07:59:59+08:00"),
        Err(_) => panic!("the timestamp is readable"),
    }
    assert!(matches!(
        format_unix_timestamp_shanghai(-377705203201),
        Err(OfficialNoticeClientError::InvalidTimestamp { .. })
    ));
}

#[test]
fn timestamps_before_the_first_representable_date_are_invalid() {
    assert!(matches!(
        format_unix_timestamp_shanghai(-377705116801),
        Err(OfficialNoticeClientError::InvalidTimestamp { .. })
    ));
    assert!(matches!(
        format_unix_timestamp_shanghai(-377705116800),
        Err(OfficialNoticeClientError::FormatTimestamp { .. })
    ));
    match format_unix_timestamp_shanghai(-62167248000) {
        Ok(text) => assert_eq!(text, "0000-01-01T00:00:00+08:00"),
        Err(_) => panic!("year zero formats"),
    }
}

#[test]
fn notice_url_and_initial_data_candidates() {
    assert_eq!(official_notice_url("7373"), "https://ak.hypergryph.com/news/7373");
    assert!(is_initial_data_candidate("d:[\"$\",{\"initialData\":{}}]"));
    assert!(!is_initial_data_candidate("e:{\"initialData\":1}"));
    assert!(!is_initial_data_candidate("d:{}"));
}

#[test]
fn flight_payloads_are_decoded_in_page_order() {
    let html = format!(
        "{}{}",
        flight_page("[\"$\",{\"initialData\":{}}]"),
        "<script>self.__next_f.push([1,\"x\\n\\u4e2d\"])</script>"
    );
    assert!(flight_payloads_scannable(&html));
    match extract_flight_payloads(&html) {
        Ok(payloads) => {
            assert_eq!(payloads, vec!["d:[\"$\",{\"initialData\":{}}]".to_string(), "x\n中".to_string()]);
        }
        Err(_) => panic!("the payloads are well formed"),
    }
}

#[test]
fn page_without_flight_payload_is_refused() {
    let html = "<html><body>nothing</body></html>";
    assert!(flight_payloads_scannable(html));
    assert!(matches!(extract_flight_payloads(html), Err(OfficialNoticeClientError::MissingFlightPayload)));
}

#[test]
fn unterminated_flight_payload_is_malformed() {
    let html = "<script>self.__next_f.push([1,\"abc</script>";
    assert!(flight_payloads_scannable(html));
    assert!(matches!(extract_flight_payloads(html), Err(OfficialNoticeClientError::MalformedFlightPayload)));
}

#[test]
fn json_string_end_skips_escaped_quotes() {
    let b = b"\"a\\\"b\" rest";
    assert_eq!(find_json_string_end(b, 0), Some(5));
    assert_eq!(find_json_string_end(b"\"open", 0), None);
}

#[test]
fn section_entries_skip_seen_notices_and_record_new_ids() {
    let mut notices: Vec<OfficialNoticeFeedEntry> = Vec::new();
    let mut seen = vec!["9697".to_string()];
    let items = vec![
        (item("7373", 1773457200, "计划将于2026年03月14日16:00 ~ 17:00开启服务器停机维护。"), serde_json::Value::Null),
        (item("9697", 1773198000, ""), serde_json::Value::Null),
        (item("7373", 1773457200, ""), serde_json::Value::Null),
    ];
    match append_section_entries(&mut notices, &mut seen, "notice", items) {
        Ok(()) => {}
        Err(_) => panic!("the timestamps are readable"),
    }
    assert_eq!(notices.len(), 1);
    assert_eq!(notices[0].notice_id, "7373");
    assert_eq!(notices[0].notice_type, "notice");
    assert_eq!(notices[0].published_at, "2026-03-14T11:00:00+08:00");
    assert_eq!(notices[0].start_at.as_deref(), Some("2026-03-14T16:00:00+08:00"));
    assert_eq!(notices[0].end_at.as_deref(), Some("2026-03-14T17:00:00+08:00"));
    assert_eq!(notices[0].source_url, "https://ak.hypergryph.com/news/7373");
    assert_eq!(seen, vec!["9697".to_string(), "7373".to_string()]);
}

#[test]
fn repeated_notices_are_skipped_before_their_time_is_read() {
    let mut notices: Vec<OfficialNoticeFeedEntry> = Vec::new();
    let mut seen = vec!["9697".to_string()];
    let items = vec![
        (item("9697", i64::MAX, ""), serde_json::Value::Null),
        (item("7373", 1773457200, ""), serde_json::Value::Null),
    ];
    match append_section_entries(&mut notices, &mut seen, "notice", items) {
        Ok(()) => {}
        Err(_) => panic!("the fresh timestamps are readable"),
    }
    assert_eq!(notices.len(), 1);
    assert_eq!(notices[0].notice_id, "7373");
    assert_eq!(seen, vec!["9697".to_string(), "7373".to_string()]);
}
