use std::io::BufRead;
use zonecfg_backup::zones::{
    find_zones, get_zonecfg, zone_records, EnumerateError, ExtractError, Extraction,
};

fn extraction(zone: &str, succeeded: bool, output: &[u8]) -> Extraction {
    Extraction { zone: zone.to_string(), succeeded, output: output.to_vec() }
}

#[test]
fn configuration_of_a_zone_is_what_the_command_printed() {
    assert_eq!(get_zonecfg(true, b"zonename: web\n"), Ok(b"zonename: web\n".to_vec()));
    assert_eq!(get_zonecfg(true, &[0xff, 0x00]), Ok(vec![0xff, 0x00]));
}

#[test]
fn a_failed_command_yields_no_configuration() {
    assert_eq!(get_zonecfg(false, b"zonename: web\n"), Err(ExtractError::CommandFailed));
    assert_eq!(get_zonecfg(false, b""), Err(ExtractError::CommandFailed));
}

#[test]
fn empty_output_yields_no_configuration() {
    assert_eq!(get_zonecfg(true, b""), Err(ExtractError::NoOutput));
}

#[test]
fn zones_are_listed_one_per_line() {
    assert_eq!(
        find_zones(true, b"global\nweb\ndb\n"),
        Ok(vec!["global".to_string(), "web".to_string(), "db".to_string()])
    );
}

#[test]
fn a_last_line_needs_no_line_feed() {
    assert_eq!(find_zones(true, b"global\nweb"), Ok(vec!["global".to_string(), "web".to_string()]));
}

#[test]
fn no_output_lists_no_zone() {
    assert_eq!(find_zones(true, b""), Ok(Vec::<String>::new()));
}

#[test]
fn empty_lines_are_lines() {
    assert_eq!(find_zones(true, b"\n"), Ok(vec!["".to_string()]));
    assert_eq!(
        find_zones(true, b"a\n\nb\n"),
        Ok(vec!["a".to_string(), "".to_string(), "b".to_string()])
    );
}

#[test]
fn a_carriage_return_before_the_line_feed_is_dropped() {
    assert_eq!(find_zones(true, b"a\r\nb\r\n"), Ok(vec!["a".to_string(), "b".to_string()]));
    assert_eq!(find_zones(true, b"a\r"), Ok(vec!["a\r".to_string()]));
    assert_eq!(find_zones(true, b"a\r\r\n"), Ok(vec!["a\r".to_string()]));
    assert_eq!(find_zones(true, b"\r\n"), Ok(vec!["".to_string()]));
}

#[test]
fn zone_names_may_be_any_unicode_text() {
    assert_eq!(
        find_zones(true, "zöne\n日本\n".as_bytes()),
        Ok(vec!["zöne".to_string(), "日本".to_string()])
    );
}

#[test]
fn a_failed_listing_is_an_error() {
    assert_eq!(find_zones(false, b"global\n"), Err(EnumerateError::CommandFailed));
    assert_eq!(find_zones(false, b""), Err(EnumerateError::CommandFailed));
    assert_eq!(find_zones(false, &[0xff]), Err(EnumerateError::CommandFailed));
}

#[test]
fn output_that_is_not_text_is_an_error() {
    assert_eq!(find_zones(true, &[0xff, b'\n']), Err(EnumerateError::NotText { line: 0 }));
    assert_eq!(
        find_zones(true, b"global\nw\xc3\nweb\n"),
        Err(EnumerateError::NotText { line: 1 })
    );
    assert_eq!(
        find_zones(true, b"a\nb\n\xe6\x97"),
        Err(EnumerateError::NotText { line: 2 })
    );
}

#[test]
fn the_first_bad_line_is_reported() {
    assert_eq!(
        find_zones(true, b"ok\n\xff\n\xfe\n"),
        Err(EnumerateError::NotText { line: 1 })
    );
}

#[test]
fn lines_are_split_as_std_splits_them() {
    let inputs: [&[u8]; 12] = [
        b"",
        b"\n",
        b"\n\n",
        b"a",
        b"a\n",
        b"a\nb",
        b"a\r\nb\r\n",
        b"\r",
        b"\r\n\r",
        b"a\rb\nc",
        b"global\nzone-1\nzone_2\n",
        "zöne\r\n\n日本".as_bytes(),
    ];
    for input in inputs {
        let expected: Vec<String> = input.lines().map(|line| line.unwrap()).collect();
        assert_eq!(find_zones(true, input), Ok(expected));
    }
}

#[test]
fn every_successful_extraction_becomes_a_record() {
    let sorted = zone_records(&vec![
        extraction("web", true, b"web config"),
        extraction("db", true, b"db config"),
    ]);
    assert_eq!(sorted.records.len(), 2);
    assert_eq!(sorted.records[0].identifier, "web");
    assert_eq!(sorted.records[0].config_bytes, b"web config".to_vec());
    assert_eq!(sorted.records[1].identifier, "db");
    assert_eq!(sorted.records[1].config_bytes, b"db config".to_vec());
    assert!(sorted.missing.is_empty());
}

#[test]
fn one_missing_zone_among_three_leaves_two_records() {
    let sorted = zone_records(&vec![
        extraction("web", true, b"web config"),
        extraction("gone", false, b""),
        extraction("db", true, b"db config"),
    ]);
    assert_eq!(sorted.records.len(), 2);
    assert_eq!(sorted.records[0].identifier, "web");
    assert_eq!(sorted.records[1].identifier, "db");
    assert_eq!(sorted.missing.len(), 1);
    assert_eq!(sorted.missing[0].zone, "gone");
    assert_eq!(sorted.missing[0].reason, ExtractError::CommandFailed);
}

#[test]
fn a_zone_without_output_is_missing() {
    let sorted = zone_records(&vec![
        extraction("quiet", true, b""),
        extraction("web", true, b"w"),
    ]);
    assert_eq!(sorted.records.len(), 1);
    assert_eq!(sorted.records[0].identifier, "web");
    assert_eq!(sorted.missing.len(), 1);
    assert_eq!(sorted.missing[0].zone, "quiet");
    assert_eq!(sorted.missing[0].reason, ExtractError::NoOutput);
}

#[test]
fn no_extraction_gives_no_record() {
    let sorted = zone_records(&Vec::new());
    assert!(sorted.records.is_empty());
    assert!(sorted.missing.is_empty());
}

#[test]
fn all_zones_may_be_missing() {
    let sorted = zone_records(&vec![
        extraction("a", false, b"text"),
        extraction("b", true, b""),
    ]);
    assert!(sorted.records.is_empty());
    assert_eq!(sorted.missing.len(), 2);
    assert_eq!(sorted.missing[0].zone, "a");
    assert_eq!(sorted.missing[1].zone, "b");
}
