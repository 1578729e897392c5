use history_extract::history::{parse_listing, read_history, HistoryUnavailable};

fn ids_and_times(text: &str) -> Vec<(String, String)> {
    parse_listing(text)
        .records
        .into_iter()
        .map(|r| (r.id, r.timestamp))
        .collect()
}

#[test]
fn listing_with_malformed_line_yields_two_records() {
    let listing = parse_listing("a1 100\nb2 200\nc3");
    assert_eq!(listing.records.len(), 2);
    assert_eq!(listing.records[0].id, "a1");
    assert_eq!(listing.records[0].timestamp, "100");
    assert_eq!(listing.records[1].id, "b2");
    assert_eq!(listing.records[1].timestamp, "200");
    assert_eq!(listing.malformed, vec!["c3".to_string()]);
}

#[test]
fn blank_lines_are_skipped_silently() {
    let listing = parse_listing("\n  \na1 100\n\n\t\nb2 200\n");
    assert_eq!(listing.records.len(), 2);
    assert!(listing.malformed.is_empty());
}

#[test]
fn empty_listing_has_no_records() {
    let listing = parse_listing("");
    assert!(listing.records.is_empty());
    assert!(listing.malformed.is_empty());
}

#[test]
fn fields_split_at_first_whitespace_run() {
    assert_eq!(
        ids_and_times("  abc \t  1700000000  \r\nx y z\n"),
        vec![
            ("abc".to_string(), "1700000000".to_string()),
            ("x".to_string(), "y z".to_string()),
        ]
    );
}

#[test]
fn order_of_listing_is_kept() {
    let text = "c 3\na 1\nbad\nb 2\nc 3\n";
    let got = ids_and_times(text);
    let ids: Vec<&str> = got.iter().map(|p| p.0.as_str()).collect();
    assert_eq!(ids, vec!["c", "a", "b", "c"]);
    assert_eq!(parse_listing(text).malformed, vec!["bad".to_string()]);
}

#[test]
fn record_count_matches_well_formed_lines() {
    let mut text = String::new();
    for i in 0..40 {
        if i % 3 == 0 {
            text.push_str(&format!("broken{}\n", i));
        } else {
            text.push_str(&format!("id{} {}\n", i, 1000 + i));
        }
    }
    let listing = parse_listing(&text);
    assert_eq!(listing.records.len(), 26);
    assert_eq!(listing.malformed.len(), 14);
    assert_eq!(listing.records[0].id, "id1");
    assert_eq!(listing.records[25].timestamp, "1038");
}

#[test]
fn unicode_whitespace_separates_fields() {
    assert_eq!(
        ids_and_times("h\u{00A0}5\u{3000}"),
        vec![("h".to_string(), "5".to_string())]
    );
}

#[test]
fn failed_listing_command_aborts() {
    let r = read_history(false, b"a1 100\n".to_vec());
    assert_eq!(r.err(), Some(HistoryUnavailable::CommandFailed));
}

#[test]
fn listing_that_is_not_text_aborts() {
    let r = read_history(true, vec![b'a', b' ', 0xff, 0xfe, b'\n']);
    assert_eq!(r.err(), Some(HistoryUnavailable::NotText));
}

#[test]
fn successful_listing_is_parsed() {
    let listing = read_history(true, "é1 100\nb2 200\nc3\n".as_bytes().to_vec()).ok().unwrap();
    assert_eq!(listing.records.len(), 2);
    assert_eq!(listing.records[0].id, "é1");
    assert_eq!(listing.malformed.len(), 1);
}
