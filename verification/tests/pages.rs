use rusttex::decoder::{Mode7BeebAscii, Mode7UTF8Ansi};
use rusttex::page::{render_page, try_render_page};

const SAMPLE: &[u8] = b"DE,Description\r\nPN,10000\r\nOL,1,Hello\r\nLN,next,page2.tti\r\nOL,2,World\r\nPN,10100\r\nOL,1,Other\r\n";

const LINE_END: &[u8] = b"\x1b[37;1m\x1b[40m\r\n";

#[test]
fn first_page_for_bbc() {
    let p = render_page(SAMPLE, -1, &Mode7BeebAscii::new());
    assert_eq!(p.output, vec![0xC8, 0xE5, 0xEC, 0xEC, 0xEF, 0xD7, 0xEF, 0xF2, 0xEC, 0xE4]);
    assert_eq!(p.navigation.start_page, 0x10000);
    assert!(p.navigation.uri.is_none());
    assert_eq!(p.navigation.links.len(), 1);
    assert_eq!(p.navigation.links.get(&"next".to_string()), Some(&"page2.tti".to_string()));
}

#[test]
fn first_page_for_utf8_terminal() {
    let p = render_page(SAMPLE, -1, &Mode7UTF8Ansi::new());
    let mut expected = b"Hello".to_vec();
    expected.extend_from_slice(LINE_END);
    expected.extend_from_slice(b"World");
    expected.extend_from_slice(LINE_END);
    assert_eq!(p.output, expected);
}

#[test]
fn requested_page_only() {
    let p = render_page(SAMPLE, 0x10100, &Mode7UTF8Ansi::new());
    // Line 1 does not follow line 2: a CR LF comes first.
    let mut expected = b"\r\nOther".to_vec();
    expected.extend_from_slice(LINE_END);
    assert_eq!(p.output, expected);
    assert_eq!(p.navigation.start_page, 0x10100);
    // Links are collected from every page that was read.
    assert_eq!(p.navigation.links.get(&"next".to_string()), Some(&"page2.tti".to_string()));
}

#[test]
fn missing_page_renders_nothing() {
    let p = render_page(SAMPLE, 5, &Mode7UTF8Ansi::new());
    assert!(p.output.is_empty());
    assert_eq!(p.navigation.start_page, -1);
}

#[test]
fn gap_between_lines_adds_blank_line() {
    let p = render_page(b"OL,1,A\r\nOL,3,B\r\nOL,4,C\r\n", -1, &Mode7BeebAscii::new());
    assert_eq!(p.output, vec![0xC1, 0x0D, 0x0A, 0xC2, 0xC3]);
    assert_eq!(p.navigation.start_page, -1);
}

#[test]
fn line_zero_is_not_shown() {
    let p = render_page(b"OL,0,Title\r\nOL,1,A\r\n", -1, &Mode7BeebAscii::new());
    assert_eq!(p.output, vec![0xC1]);
}

#[test]
fn double_height_line_is_sent_twice() {
    let p = render_page(b"OL,1,\x1bMBig\r\nOL,3,x\r\n", -1, &Mode7BeebAscii::new());
    // The double-height line takes lines 1 and 2, so line 3 follows without a gap.
    assert_eq!(p.output, vec![0x8D, 0xC2, 0xE9, 0xE7, 0x8D, 0xC2, 0xE9, 0xE7, 0xF8]);
}

#[test]
fn commas_after_the_second_belong_to_the_text() {
    let p = render_page(b"OL,1,a,b\r\n", -1, &Mode7BeebAscii::new());
    assert_eq!(p.output, vec![0xE1, 0xAC, 0xE2]);
}

#[test]
fn later_link_definition_wins() {
    let p = render_page(b"LN,x,one\r\nLN,x,two\r\nLN,y,three\r\n", -1, &Mode7BeebAscii::new());
    assert_eq!(p.navigation.links.len(), 2);
    assert_eq!(p.navigation.links.get(&"x".to_string()), Some(&"two".to_string()));
}

#[test]
fn unreadable_data_is_refused() {
    // A line whose last field has no room (no CR before the LF).
    assert!(try_render_page(b"OL,1,\n", -1, &Mode7BeebAscii::new()).is_none());
    // A command field that is not UTF-8.
    assert!(try_render_page(b"\xff\xfe,1,x\r\n", -1, &Mode7BeebAscii::new()).is_none());
    // A page number that is not UTF-8.
    assert!(try_render_page(b"PN,\xff\r\n", -1, &Mode7BeebAscii::new()).is_none());
    // An escaped byte that does not fit.
    assert!(try_render_page(b"OL,1,\x1b\xf0\r\n", -1, &Mode7BeebAscii::new()).is_none());
    // Line number overflow after a double-height line.
    assert!(try_render_page(b"OL,2147483647,\x1bM\r\n", -1, &Mode7BeebAscii::new()).is_none());
    // The same data in lines that are not shown is fine.
    assert!(try_render_page(b"OL,0,\x1b\xf0\r\n", -1, &Mode7BeebAscii::new()).is_some());
}

#[test]
fn rest_after_second_page_is_not_read() {
    // Scenario for the law: what follows the second page header cannot make the scan fail.
    let a = render_page(b"PN,1\r\nOL,1,A\r\nPN,2\r\n", -1, &Mode7BeebAscii::new());
    let b = try_render_page(b"PN,1\r\nOL,1,A\r\nPN,2\r\n\xff,\n", -1, &Mode7BeebAscii::new()).unwrap();
    assert_eq!(a.output, b.output);
    assert_eq!(a.navigation.start_page, 1);
    assert_eq!(b.navigation.start_page, 1);
}

#[test]
fn unparsable_page_number_keeps_previous() {
    let p = render_page(b"PN,zz\r\nOL,1,A\r\n", -1, &Mode7BeebAscii::new());
    assert_eq!(p.navigation.start_page, -1);
    assert_eq!(p.output, vec![0xC1]);
}

#[test]
fn data_without_newline_at_end() {
    let p = render_page(b"OL,1,A\r\nOL,2,B", -1, &Mode7BeebAscii::new());
    assert_eq!(p.output, vec![0xC1]);
}

#[test]
fn requested_page_number_is_kept() {
    let p = render_page(b"PN,10000\r\nOL,1,Hello\r\nPN,10100\r\nOL,1,Bye\r\n", 0x10000, &Mode7UTF8Ansi::new());
    let mut expected = b"Hello".to_vec();
    expected.extend_from_slice(LINE_END);
    assert_eq!(p.output, expected);
    assert_eq!(p.navigation.start_page, 0x10000);
}

fn joined(a: &[u8], line: &[u8]) -> Vec<u8> {
    let mut v = a.to_vec();
    v.extend_from_slice(line);
    v
}

#[test]
fn appended_link_line_changes_only_links() {
    let a: &[u8] = b"PN,1\r\nOL,1,A\r\n";
    let before = render_page(a, -1, &Mode7BeebAscii::new());
    let after = render_page(&joined(a, b"LN,k,t.tti\r\n"), -1, &Mode7BeebAscii::new());
    assert_eq!(after.output, before.output);
    assert_eq!(after.navigation.start_page, before.navigation.start_page);
    assert_eq!(before.navigation.links.len(), 0);
    assert_eq!(after.navigation.links.get(&"k".to_string()), Some(&"t.tti".to_string()));
}

#[test]
fn appended_line_of_other_page_shows_nothing() {
    let a: &[u8] = b"PN,1\r\nOL,1,A\r\nPN,2\r\nOL,1,B\r\nPN,3\r\n";
    let before = render_page(a, 2, &Mode7BeebAscii::new());
    let after = render_page(&joined(a, b"OL,2,C\r\n"), 2, &Mode7BeebAscii::new());
    // Line 1 of page 2 does not follow line 1 of page 1: a CR LF comes first.
    assert_eq!(before.output, vec![0x0D, 0x0A, 0xC2]);
    assert_eq!(after.output, before.output);
    assert_eq!(after.navigation.start_page, 2);
}

#[test]
fn appended_line_of_shown_page_adds_its_translation() {
    let a: &[u8] = b"PN,2\r\nOL,1,A\r\n";
    let next = render_page(&joined(a, b"OL,2,B\r\n"), 2, &Mode7BeebAscii::new());
    assert_eq!(next.output, vec![0xC1, 0xC2]);
    let later = render_page(&joined(a, b"OL,5,B\r\n"), 2, &Mode7BeebAscii::new());
    assert_eq!(later.output, vec![0xC1, 0x0D, 0x0A, 0xC2]);
}

#[test]
fn appended_page_header_sets_the_number() {
    let a: &[u8] = b"OL,1,A\r\n";
    let p = render_page(&joined(a, b"PN,1F\r\n"), 0x1F, &Mode7BeebAscii::new());
    assert_eq!(p.navigation.start_page, 0x1F);
    assert!(p.output.is_empty());
    let first = render_page(&joined(a, b"PN,1F\r\n"), -1, &Mode7BeebAscii::new());
    assert_eq!(first.navigation.start_page, 0x1F);
    assert_eq!(first.output, vec![0xC1]);
}

#[test]
fn second_page_header_ends_the_first_page() {
    let a: &[u8] = b"PN,1\r\nOL,1,A\r\nLN,x,y\r\n";
    let before = render_page(a, -1, &Mode7BeebAscii::new());
    let after = render_page(&joined(a, b"PN,2\r\nOL,2,B\r\nLN,z,w\r\n"), -1, &Mode7BeebAscii::new());
    assert_eq!(after.output, before.output);
    assert_eq!(after.navigation.start_page, 1);
    assert_eq!(after.navigation.links.len(), 1);
    assert!(after.navigation.links.get(&"z".to_string()).is_none());
}
