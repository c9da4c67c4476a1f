use frame_feed::scanner::{find_marker, scan, Scan, END_TAG, MARKER_LEAD, START_TAG};

#[test]
fn marker_bytes() {
    assert_eq!(MARKER_LEAD, 0xFF);
    assert_eq!(START_TAG, 0xD8);
    assert_eq!(END_TAG, 0xD9);
}

#[test]
fn scan_reports_frame_between_markers() {
    let buf: [u8; 8] = [0x00, 0xFF, 0xD8, 0x11, 0x22, 0xFF, 0xD9, 0x99];
    assert_eq!(scan(&buf), Scan::Frame { start: 1, end: 7 });
    assert_eq!(&buf[1..7], &[0xFF, 0xD8, 0x11, 0x22, 0xFF, 0xD9]);
}

#[test]
fn scan_of_nothing_finds_no_start() {
    assert_eq!(scan(&[]), Scan::NoStart);
}

#[test]
fn scan_of_one_lead_byte_finds_no_start() {
    assert_eq!(scan(&[0xFF]), Scan::NoStart);
}

#[test]
fn scan_of_plain_bytes_finds_no_start() {
    assert_eq!(scan(&[0x01, 0xD8, 0xFF, 0x00, 0xD9]), Scan::NoStart);
}

#[test]
fn scan_ignores_end_marker_without_start() {
    assert_eq!(scan(&[0x01, 0xFF, 0xD9, 0x02]), Scan::NoStart);
}

#[test]
fn scan_of_start_without_end_is_incomplete() {
    assert_eq!(scan(&[0x07, 0x07, 0xFF, 0xD8, 0x01, 0x02]), Scan::Incomplete { start: 2 });
}

#[test]
fn scan_of_bare_start_marker_is_incomplete() {
    assert_eq!(scan(&[0xFF, 0xD8]), Scan::Incomplete { start: 0 });
}

#[test]
fn scan_ignores_end_marker_before_start() {
    assert_eq!(scan(&[0xFF, 0xD9, 0xFF, 0xD8, 0x01]), Scan::Incomplete { start: 2 });
}

#[test]
fn scan_does_not_take_start_tag_for_end_of_marker() {
    // The end tag right after the start marker is not preceded by a lead byte.
    assert_eq!(scan(&[0xFF, 0xD8, 0xD9]), Scan::Incomplete { start: 0 });
}

#[test]
fn scan_of_frame_cut_in_its_end_marker_is_incomplete() {
    assert_eq!(scan(&[0xFF, 0xD8, 0x01, 0xFF]), Scan::Incomplete { start: 0 });
}

#[test]
fn scan_finds_smallest_frame() {
    assert_eq!(scan(&[0xFF, 0xD8, 0xFF, 0xD9]), Scan::Frame { start: 0, end: 4 });
}

#[test]
fn scan_takes_first_start_and_first_end() {
    let buf: [u8; 11] = [0xFF, 0xD8, 0x01, 0xFF, 0xD8, 0x02, 0xFF, 0xD9, 0x03, 0xFF, 0xD9];
    assert_eq!(scan(&buf), Scan::Frame { start: 0, end: 8 });
}

#[test]
fn scan_ends_frame_at_marker_pair_inside_its_data() {
    // Nothing between the markers is inspected: the pair FF D9 in the data
    // closes the frame.
    let buf: [u8; 9] = [0xFF, 0xD8, 0x10, 0xFF, 0xD9, 0x20, 0x30, 0xFF, 0xD9];
    assert_eq!(scan(&buf), Scan::Frame { start: 0, end: 5 });
}

#[test]
fn scan_handles_runs_of_lead_bytes() {
    let buf: [u8; 6] = [0xFF, 0xFF, 0xD8, 0xFF, 0xFF, 0xD9];
    assert_eq!(scan(&buf), Scan::Frame { start: 1, end: 6 });
}

#[test]
fn find_marker_returns_first_position() {
    let buf: [u8; 7] = [0x00, 0xFF, 0xD8, 0x00, 0xFF, 0xD8, 0x00];
    assert_eq!(find_marker(&buf, START_TAG, 0), Some(1));
    assert_eq!(find_marker(&buf, START_TAG, 1), Some(1));
    assert_eq!(find_marker(&buf, START_TAG, 2), Some(4));
    assert_eq!(find_marker(&buf, START_TAG, 5), None);
    assert_eq!(find_marker(&buf, END_TAG, 0), None);
}

#[test]
fn find_marker_needs_both_bytes_in_range() {
    let buf: [u8; 3] = [0x00, 0x00, 0xFF];
    assert_eq!(find_marker(&buf, START_TAG, 0), None);
    assert_eq!(find_marker(&buf, END_TAG, 2), None);
}

#[test]
fn find_marker_from_beyond_the_end_is_none() {
    let buf: [u8; 2] = [0xFF, 0xD8];
    assert_eq!(find_marker(&buf, START_TAG, 2), None);
    assert_eq!(find_marker(&buf, START_TAG, 100), None);
    assert_eq!(find_marker(&[], START_TAG, 0), None);
}
