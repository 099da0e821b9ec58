use snapshot_decay::command::ExitReport;
use snapshot_decay::discovery::{list_of_snaps, read_entry, DiscoveryError};
use snapshot_decay::order::sort_oldest_first;
use snapshot_decay::pattern::{attribute, first_token, STAMP_PATTERN};
use snapshot_decay::snapshot::{SnapState, Snapshot};

const OK: ExitReport = ExitReport::Exited(0);

fn lines(text: &[&str]) -> Vec<String> {
    text.iter().map(|l| l.to_string()).collect()
}

fn names(snaps: &[Snapshot]) -> Vec<String> {
    snaps.iter().map(|s| s.identifier().to_string()).collect()
}

fn listed(volume: &str, text: &[&str]) -> Vec<Snapshot> {
    match list_of_snaps(volume, &lines(text), OK) {
        Ok(snaps) => snaps,
        Err(_) => panic!("listing must be usable"),
    }
}

#[test]
fn output_is_oldest_first() {
    let snaps = listed(
        "storage/home",
        &[
            "NAME                         USED  AVAIL  REFER  MOUNTPOINT",
            "storage/home@20200301-1200   10K   -      1G     -",
            "storage/home@20190101-0000   10K   -      1G     -",
            "storage/home@20200301-1159   10K   -      1G     -",
            "storage/home@20210615-0830   10K   -      1G     -",
        ],
    );
    assert_eq!(
        names(&snaps),
        vec![
            "storage/home@20190101-0000",
            "storage/home@20200301-1159",
            "storage/home@20200301-1200",
            "storage/home@20210615-0830",
        ]
    );
    for pair in snaps.windows(2) {
        assert!(pair[0].created_at() <= pair[1].created_at());
    }
    assert_eq!(snaps[0].created_at(), 1_546_300_800);
    assert!(snaps.iter().all(|s| s.state() == SnapState::Exists));
}

#[test]
fn equal_times_keep_the_order_in_which_they_came() {
    let snaps = vec![
        Snapshot::at(5, "v@b".to_string()),
        Snapshot::at(1, "v@x".to_string()),
        Snapshot::at(5, "v@a".to_string()),
        Snapshot::at(9, "v@z".to_string()),
        Snapshot::at(5, "v@c".to_string()),
    ];
    assert_eq!(names(&sort_oldest_first(snaps)), vec!["v@x", "v@b", "v@a", "v@c", "v@z"]);
    assert!(sort_oldest_first(Vec::new()).is_empty());
}

#[test]
fn each_line_gives_its_own_record() {
    let snaps = listed("v", &["v@20200101-0000 1", "v@20190101-0000 1", "v@20200101-0000 2"]);
    assert_eq!(names(&snaps), vec!["v@20190101-0000", "v@20200101-0000", "v@20200101-0000"]);
}

#[test]
fn text_behind_the_timestamp_is_no_snapshot() {
    assert!(listed("storage/x", &["storage/x@20200101-0000extra 0 - 1K -"]).is_empty());
    assert!(listed("storage/x", &["storage/x@20200101-00000 0"]).is_empty());
    assert!(listed("storage/x", &["storage/x@20200101-0000@ 0"]).is_empty());
    assert!(listed("storage/x", &["storage/x@20200101-0000é 0"]).is_empty());
    // Its digits are not even read.
    assert!(listed("storage/x", &["storage/x@20201301-0000extra 0"]).is_empty());
    let snaps = listed(
        "storage/x",
        &["storage/x@20200102-0000x", "storage/x@20200101-0000", "storage/x@20200103-0000-1"],
    );
    assert_eq!(names(&snaps), vec!["storage/x@20200101-0000"]);
}

#[test]
fn child_volume_is_not_attributed_to_its_parent() {
    let text = [
        "storage/home/a@20200101-0000   1K  -  1K  -",
        "storage/home/a/child@20200101-0000   1K  -  1K  -",
        "storage/home/ab@20200102-0000   1K  -  1K  -",
        "storage/home@20200103-0000   1K  -  1K  -",
    ];
    assert_eq!(names(&listed("storage/home/a", &text)), vec!["storage/home/a@20200101-0000"]);
    assert_eq!(
        names(&listed("storage/home/a/child", &text)),
        vec!["storage/home/a/child@20200101-0000"]
    );
    assert!(listed("storage", &text).is_empty());
}

#[test]
fn lines_without_the_pattern_are_passed_over() {
    let snaps = listed(
        "storage/x",
        &[
            "NAME USED",
            "",
            "   ",
            "storage/x@notatimestamp  1K",
            "storage/x@2020010-0000  1K",
            "storage/x@202001011-0000  1K",
            "storage/x@20200101-000  1K",
            "storage/x@20200101-0000.bak  1K",
            "storage/x@20200101_0000  1K",
            "storage/x  1K",
            " storage/x@20200101-0000  1K",
            "storage/x@20200101-0000  1K",
        ],
    );
    assert_eq!(names(&snaps), vec!["storage/x@20200101-0000"]);
}

#[test]
fn pattern_match_with_invalid_timestamp_is_fatal() {
    let r = list_of_snaps(
        "storage/x",
        &lines(&["storage/x@20200101-0000 1K", "storage/x@20201301-0000 1K", "storage/x@20209901-0000"]),
        OK,
    );
    match r {
        Err(DiscoveryError::Timestamp(e)) => assert_eq!(e.identifier, "storage/x@20201301-0000"),
        _ => panic!("an invalid timestamp must fail the listing"),
    }
}

#[test]
fn invalid_timestamp_of_another_volume_is_ignored() {
    let snaps = listed("storage/x", &["storage/y@20201301-0000 1K", "storage/x@20200101-0000 1K"]);
    assert_eq!(names(&snaps), vec!["storage/x@20200101-0000"]);
}

#[test]
fn failed_listing_gives_no_list() {
    let text = lines(&["storage/x@20200101-0000 1K"]);
    for report in [ExitReport::Exited(1), ExitReport::NotStarted, ExitReport::Abnormal] {
        let r = list_of_snaps("storage/x", &text, report);
        assert!(matches!(r, Err(DiscoveryError::Listing(got)) if got == report));
    }
    let r = list_of_snaps("storage/x", &lines(&["storage/x@20201301-0000"]), ExitReport::Exited(2));
    assert!(matches!(r, Err(DiscoveryError::Listing(ExitReport::Exited(2)))));
}

#[test]
fn empty_listing_gives_empty_list() {
    assert!(listed("storage/x", &[]).is_empty());
}

#[test]
fn name_ends_at_the_first_blank() {
    let snaps = listed(
        "v",
        &["v@20200101-0000\n", "v@20200102-0000\t1K\n", "v@20200103-0000\r\n", "v@20200104-0000"],
    );
    assert_eq!(
        names(&snaps),
        vec!["v@20200101-0000", "v@20200102-0000", "v@20200103-0000", "v@20200104-0000"]
    );
}

#[test]
fn volume_may_hold_any_characters() {
    let snaps = listed("données/été", &["données/été@20200101-0000 1K", "données@20200101-0000 1K"]);
    assert_eq!(names(&snaps), vec!["données/été@20200101-0000"]);
}

#[test]
fn last_suffix_decides() {
    // The volume is all that stands before the suffix that ends the name.
    let text = ["v@20200101-0000@20210101-0000 1K"];
    assert!(listed("v", &text).is_empty());
    let snaps = listed("v@20200101-0000", &text);
    assert_eq!(names(&snaps), vec!["v@20200101-0000@20210101-0000"]);
    assert_eq!(snaps[0].created_at(), 1_609_459_200);
}

#[test]
fn read_entry_tells_the_cases_apart() {
    assert!(matches!(read_entry("v", "w@20200101-0000 1K"), Ok(None)));
    assert!(matches!(read_entry("v", "NAME"), Ok(None)));
    assert!(matches!(read_entry("v", "v@20200101-0000 1K"), Ok(Some(ref s))
        if s.identifier() == "v@20200101-0000" && s.created_at() == 1_577_836_800));
    assert!(matches!(read_entry("v", "v@20200132-0000 1K"), Err(DiscoveryError::Timestamp(_))));
    assert!(matches!(read_entry("v", "v@20200101-0000x 1K"), Ok(None)));
    assert!(matches!(read_entry("v", "v@20200132-0000x 1K"), Ok(None)));
    assert!(matches!(read_entry("v", "v@20200101-0000\n"), Ok(Some(ref s))
        if s.identifier() == "v@20200101-0000"));
}

#[test]
fn first_token_stops_at_blanks() {
    assert_eq!(first_token("abc def"), "abc");
    assert_eq!(first_token("abc"), "abc");
    assert_eq!(first_token(""), "");
    assert_eq!(first_token(" abc"), "");
    assert_eq!(first_token("a\tb"), "a");
    assert_eq!(first_token("a\nb"), "a");
    assert_eq!(first_token("a\u{0b}b"), "a");
    assert_eq!(first_token("a\u{0c}b"), "a");
    assert_eq!(first_token("a\rb"), "a");
    assert_eq!(first_token("é\u{a0}b c"), "é\u{a0}b");
}

#[test]
fn attribute_follows_the_span() {
    assert_eq!(attribute("v", "v@20200101-0000", Some((1, 15))), Some("20200101-0000"));
    assert_eq!(attribute("v/c", "v/c@20200101-0000", Some((3, 17))), Some("20200101-0000"));
    assert_eq!(attribute("", "@20200101-0000", Some((0, 14))), Some("20200101-0000"));
    assert_eq!(attribute("v", "v@99999999-9999", Some((1, 15))), Some("99999999-9999"));
    assert_eq!(attribute("é", "é@20200101-0000", Some((2, 16))), Some("20200101-0000"));
    assert_eq!(
        attribute("v@20200101-0000", "v@20200101-0000@20210101-0000", Some((15, 29))),
        Some("20210101-0000")
    );
}

#[test]
fn attribute_passes_over_other_volumes() {
    assert_eq!(attribute("v", "v@20200101-0000", None), None);
    assert_eq!(attribute("w", "v@20200101-0000", Some((1, 15))), None);
    assert_eq!(attribute("v", "xv@20200101-0000", Some((2, 16))), None);
    assert_eq!(attribute("v", "v/c@20200101-0000", Some((3, 17))), None);
    assert_eq!(attribute("v/c/d", "v/c@20200101-0000", Some((3, 17))), None);
    assert_eq!(attribute("", "v@20200101-0000", Some((1, 15))), None);
}

#[test]
fn attribute_passes_over_a_span_that_does_not_end_the_token() {
    assert_eq!(attribute("v", "v@20200101-0000x", Some((1, 15))), None);
    assert_eq!(attribute("v", "v@20200101-0000tail", Some((1, 15))), None);
    assert_eq!(attribute("v", "v@20200101-0000é", Some((1, 15))), None);
    assert_eq!(attribute("v", "v@20200101-0000@20210101-0000", Some((1, 15))), None);
    assert_eq!(attribute("v", "v@20200101-00000", Some((1, 15))), None);
}

#[test]
fn attribute_passes_over_a_span_that_holds_no_timestamp() {
    assert_eq!(attribute("v", "v@20200101-0000", Some((1, 16))), None);
    assert_eq!(attribute("v", "v@20200101-0000", Some((1, 14))), None);
    assert_eq!(attribute("v", "v@20200101-0000", Some((0, 14))), None);
    assert_eq!(attribute("v", "v@20200101-0000", Some((0, 15))), None);
    assert_eq!(attribute("v", "v@20200101-0000", Some((2, 15))), None);
    assert_eq!(attribute("v", "v@20200101-0000", Some((15, 15))), None);
    assert_eq!(attribute("v", "v@20200101-0000", Some((15, 1))), None);
    assert_eq!(attribute("v", "v@20200101-0000", Some((40, 54))), None);
    assert_eq!(attribute("v", "v@20200101-0000", Some((usize::MAX, usize::MAX))), None);
    assert_eq!(attribute("v", "v@2020010a-0000", Some((1, 15))), None);
    assert_eq!(attribute("v", "v#20200101-0000", Some((1, 15))), None);
    assert_eq!(attribute("v", "v@20200101+0000", Some((1, 15))), None);
    assert_eq!(attribute("v", "v@20200101-000/", Some((1, 15))), None);
    assert_eq!(attribute("v", "v@20200101-000:", Some((1, 15))), None);
    assert_eq!(attribute("v", "v@notatimestamp", Some((1, 15))), None);
    assert_eq!(attribute("é", "é@20200101-0000", Some((1, 15))), None);
    assert_eq!(attribute("v", "v@2020010é-000", Some((1, 15))), None);
    assert_eq!(attribute("v", "", Some((0, 0))), None);
}

#[test]
fn the_pattern_finds_only_the_suffix_that_ends_the_text() {
    let re = match regex::Regex::new(STAMP_PATTERN) {
        Ok(re) => re,
        Err(_) => panic!("the pattern must compile"),
    };
    let span = |text: &str| re.find(text).map(|m| (m.start(), m.end()));
    assert_eq!(span("v@20200101-0000"), Some((1, 15)));
    assert_eq!(span("@20200101-0000"), Some((0, 14)));
    assert_eq!(span("é@20200101-0000"), Some((2, 16)));
    assert_eq!(span("@20200101-0000@20210101-0000"), Some((14, 28)));
    assert_eq!(span("@@20200101-0000"), Some((1, 15)));
    assert_eq!(span("v@20200101-0000\n"), None);
    assert_eq!(span("v@20200101-0000\r\n"), None);
    assert_eq!(span("v@20200101-0000x"), None);
    assert_eq!(span("v@20200101-0000 "), None);
    assert_eq!(span("v@20200101-0000\nw@20200101-0000x"), None);
    assert_eq!(span("v@2020010-0000"), None);
    assert_eq!(span("v@20200101-000"), None);
    assert_eq!(span("v@20200101_0000"), None);
    assert_eq!(span("v@\u{0662}0200101-0000"), None);
    assert_eq!(span("v@\u{ff12}0200101-0000"), None);
    assert_eq!(span("20200101-0000"), None);
    assert_eq!(span(""), None);
}
