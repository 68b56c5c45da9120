use zk_4lw::mntr::{known_key, int_key, Response};
use zk_4lw::text::{same_text, split_entries};
use zk_4lw::{decode_reply, Client, Error, FourLetterWord, Mntr};

const MNTR: &str = "zk_version\t3.4.10\n\
zk_avg_latency\t0\n\
zk_max_latency\t22\n\
zk_min_latency\t0\n\
zk_packets_received\t434\n\
zk_packets_sent\t436\n\
zk_outstanding_requests\t0\n\
zk_server_state\tstandalone\n\
zk_znode_count\t28\n\
zk_watch_count\t16\n\
zk_ephemerals_count\t2\n\
zk_approximate_data_size\t923\n\
zk_open_file_descriptor_count\t28\n\
zk_max_file_descriptor_count\t1048576\n";

fn parse(text: &str) -> zk_4lw::Result<Response> {
    <Mntr as FourLetterWord>::parse_response(text)
}

fn missing_name(r: zk_4lw::Result<Response>) -> &'static str {
    match r {
        Err(Error::MissingField(name)) => name,
        other => panic!("expected a missing field, got {:?}", other),
    }
}

#[test]
fn parse_mntr_response() {
    let res = <Mntr as FourLetterWord>::parse_response(MNTR).unwrap();

    assert_eq!(res.zk_avg_latency, 0);
    assert_eq!(res.zk_max_latency, 22);
    assert_eq!(res.zk_min_latency, 0);
    assert_eq!(res.zk_packets_received, 434);
    assert_eq!(res.zk_packets_sent, 436);
    assert_eq!(res.zk_outstanding_requests, 0);
    assert_eq!(res.zk_server_state, String::from("standalone"));
    assert_eq!(res.zk_znode_count, 28);
    assert_eq!(res.zk_watch_count, 16);
    assert_eq!(res.zk_ephemerals_count, 2);
    assert_eq!(res.zk_approximate_data_size, 923);
    assert_eq!(res.zk_open_file_descriptor_count, Some(28));
    assert_eq!(res.zk_max_file_descriptor_count, Some(1048576));
}

#[test]
fn sample_reply_has_no_optional_followers_and_no_extras() {
    let res = parse(MNTR).unwrap();
    assert_eq!(res.zk_version, "3.4.10");
    assert_eq!(res.zk_followers, None);
    assert_eq!(res.zk_synced_followers, None);
    assert_eq!(res.zk_pending_syncs, None);
    assert!(res.zk_extras.is_empty());
}

#[test]
fn unknown_key_goes_to_extras() {
    let text = format!("{}zk_custom_metric\t7\n", MNTR);
    let res = parse(&text).unwrap();
    assert_eq!(res.zk_extras, vec![("zk_custom_metric".to_string(), "7".to_string())]);
}

#[test]
fn missing_znode_count_is_named() {
    let text: String = MNTR
        .lines()
        .filter(|l| !l.starts_with("zk_znode_count"))
        .map(|l| format!("{}\n", l))
        .collect();
    assert_eq!(missing_name(parse(&text)), "zk_znode_count");
}

#[test]
fn first_missing_field_in_field_order() {
    let text = "zk_server_state\tleader\nzk_avg_latency\t1\n";
    assert_eq!(missing_name(parse(text)), "zk_version");
    let text = "zk_version\t3.5\nzk_server_state\tleader\n";
    assert_eq!(missing_name(parse(text)), "zk_avg_latency");
}

#[test]
fn bad_counter_is_a_parse_error() {
    let text = MNTR.replace("zk_watch_count\t16", "zk_watch_count\tsixteen");
    assert!(matches!(parse(&text), Err(Error::Parse(_))));
    let text = MNTR.replace("zk_max_file_descriptor_count\t1048576", "zk_max_file_descriptor_count\t1.5");
    assert!(matches!(parse(&text), Err(Error::Parse(_))));
}

#[test]
fn counter_value_runs_to_end_of_line() {
    assert!(matches!(parse("zk_followers\t1\tx\n"), Err(Error::Parse(_))));
    assert_eq!(missing_name(parse("zk_followers\t\t5\n")), "zk_version");
    assert_eq!(missing_name(parse("zk_followers\t\t5\n\nzk_version\t3\n")), "zk_version");
    let text = MNTR.replace("zk_watch_count\t16", "zk_watch_count\t\t16");
    assert_eq!(parse(&text).unwrap().zk_watch_count, 16);
    let text = format!("{}zk_x\ta\tb\n", MNTR);
    assert_eq!(parse(&text).unwrap().zk_extras, vec![("zk_x".to_string(), "a\tb".to_string())]);
}

#[test]
fn bad_counter_wins_over_missing_field() {
    assert!(matches!(parse("zk_followers\tx\n"), Err(Error::Parse(_))));
}

#[test]
fn overwritten_bad_counter_still_fails() {
    let text = format!("zk_znode_count\tbad\n{}", MNTR);
    assert!(matches!(parse(&text), Err(Error::Parse(_))));
}

#[test]
fn counter_out_of_range_fails() {
    let text = MNTR.replace("zk_approximate_data_size\t923", "zk_approximate_data_size\t9223372036854775808");
    assert!(matches!(parse(&text), Err(Error::Parse(_))));
    let text = MNTR.replace("zk_approximate_data_size\t923", "zk_approximate_data_size\t-9223372036854775808");
    assert_eq!(parse(&text).unwrap().zk_approximate_data_size, i64::MIN);
}

#[test]
fn signed_counters() {
    let text = MNTR.replace("zk_avg_latency\t0", "zk_avg_latency\t-4").replace("zk_min_latency\t0", "zk_min_latency\t+9");
    let res = parse(&text).unwrap();
    assert_eq!(res.zk_avg_latency, -4);
    assert_eq!(res.zk_min_latency, 9);
}

#[test]
fn later_duplicate_wins() {
    let text = format!("{}zk_watch_count\t99\nzk_server_state\tfollower\nzk_custom\ta\nzk_custom\tb\n", MNTR);
    let res = parse(&text).unwrap();
    assert_eq!(res.zk_watch_count, 99);
    assert_eq!(res.zk_server_state, "follower");
    assert_eq!(res.zk_extras, vec![("zk_custom".to_string(), "b".to_string())]);
}

#[test]
fn parsing_twice_gives_equal_responses() {
    let text = format!("{}zk_followers\t3\nzk_a\t1\nzk_b\t2\n", MNTR);
    let a = parse(&text).unwrap();
    let b = parse(&text).unwrap();
    assert_eq!(format!("{:?}", a), format!("{:?}", b));
}

#[test]
fn values_and_keys_are_trimmed() {
    let text = MNTR
        .replace("zk_znode_count\t28", "  zk_znode_count \t  28  ")
        .replace("zk_server_state\tstandalone", "zk_server_state\t standalone\r");
    let res = parse(&text).unwrap();
    assert_eq!(res.zk_znode_count, 28);
    assert_eq!(res.zk_server_state, "standalone");
}

#[test]
fn text_after_second_tab_is_kept() {
    let text = MNTR.replace("zk_version\t3.4.10", "zk_version\t3.4.10\tbuilt today");
    assert_eq!(parse(&text).unwrap().zk_version, "3.4.10\tbuilt today");
}

#[test]
fn blank_line_before_required_fields_stops_parsing() {
    let text = format!("\n{}", MNTR);
    assert_eq!(missing_name(parse(&text)), "zk_version");
    let text = MNTR.replace("zk_server_state\tstandalone\n", "zk_server_state\tstandalone\n\n");
    assert_eq!(missing_name(parse(&text)), "zk_znode_count");
}

#[test]
fn line_without_tab_stops_parsing() {
    let text = MNTR.replace("zk_packets_sent\t436", "zk_packets_sent 436");
    assert_eq!(missing_name(parse(&text)), "zk_packets_sent");
}

#[test]
fn trailing_blank_line_is_harmless() {
    let text = format!("{}\n\nzk_followers\t4\n", MNTR);
    let res = parse(&text).unwrap();
    assert_eq!(res.zk_followers, None);
}

#[test]
fn empty_reply_misses_version() {
    assert_eq!(missing_name(parse("")), "zk_version");
}

#[test]
fn crlf_lines() {
    let text = MNTR.replace('\n', "\r\n");
    let res = parse(&text).unwrap();
    assert_eq!(res.zk_max_file_descriptor_count, Some(1048576));
}

#[test]
fn optional_fields_present() {
    let text = format!("{}zk_followers\t2\nzk_synced_followers\t1\nzk_pending_syncs\t0\n", MNTR);
    let res = parse(&text).unwrap();
    assert_eq!(res.zk_followers, Some(2));
    assert_eq!(res.zk_synced_followers, Some(1));
    assert_eq!(res.zk_pending_syncs, Some(0));
}

#[test]
fn entries_split_by_lines_and_tabs() {
    let es = split_entries("a\t1\n b \t 2 \tx\nc\n d\t4");
    assert_eq!(es, vec![("a".to_string(), "1".to_string()), ("b".to_string(), "2 \tx".to_string())]);
    assert!(split_entries("").is_empty());
    assert_eq!(split_entries("k\t"), vec![("k".to_string(), String::new())]);
}

#[test]
fn key_classes() {
    assert!(int_key("zk_followers"));
    assert!(!int_key("zk_version"));
    assert!(known_key("zk_version"));
    assert!(!known_key("zk_custom_metric"));
    assert!(same_text("zk", "zk"));
    assert!(!same_text("zk", "zk_"));
}

#[test]
fn command_text() {
    assert_eq!(<Mntr as FourLetterWord>::command(), "mntr");
}

#[test]
fn decode_reply_checks_utf8() {
    let res = decode_reply::<Mntr>(MNTR.as_bytes()).unwrap();
    assert_eq!(res.zk_packets_sent, 436);
    let mut bad = MNTR.as_bytes().to_vec();
    bad.push(0xff);
    assert!(matches!(decode_reply::<Mntr>(&bad), Err(Error::Utf8(_))));
}

#[test]
fn client_keeps_address() {
    let client = Client::new("localhost:2181");
    assert_eq!(client.addr(), "localhost:2181");
}

#[test]
fn errors_convert() {
    let e = "x".parse::<i64>().unwrap_err();
    assert!(matches!(Error::from(e), Error::Parse(_)));
    let io = std::io::Error::new(std::io::ErrorKind::Other, "closed");
    assert!(matches!(Error::from(io), Error::Io(_)));
}
