use na::directory::{Directory, FileMeta};
use na::format::{date, file_list, size, weekday, DateTime, Weekday};
use na::month::{month, month_to_string, Month};
use na::routes::requested_name;
use na::text::decimal_string;
use na::ui::render_ui;
use std::path::PathBuf;

fn meta(name: &str) -> FileMeta {
    FileMeta {
        name: name.to_string(),
        url: format!("/files/{}", name),
        size: 10,
        modified: "n/a".to_string(),
        modified_raw: 0,
    }
}

#[test]
fn month_names() {
    assert_eq!("Jan", month(Month::Jan));
    assert_eq!("Jun", month(Month::Jun));
    assert_eq!("Dec", month(Month::Dec));
}

#[test]
fn month_from_index_counts_from_zero() {
    assert_eq!(Ok(Month::Jan), Month::try_from(0));
    assert_eq!(Ok(Month::Feb), Month::try_from(1));
    assert_eq!(Ok(Month::Dec), Month::try_from(11));
    assert_eq!(Err(()), Month::try_from(12));
}

#[test]
fn month_numbers_count_from_one() {
    assert_eq!("Jan", month_to_string(1));
    assert_eq!("Dec", month_to_string(12));
    assert_eq!("--", month_to_string(0));
    assert_eq!("--", month_to_string(13));
}

#[test]
fn decimal_rendering() {
    assert_eq!("0", decimal_string(0));
    assert_eq!("7", decimal_string(7));
    assert_eq!("1234567890", decimal_string(1234567890));
    assert_eq!("18446744073709551615", decimal_string(u64::MAX));
}

#[test]
fn sizes_in_each_unit() {
    assert_eq!("0 b", size(0));
    assert_eq!("999 b", size(999));
    assert_eq!("1.0 Kb", size(1000));
    assert_eq!("1.5 Kb", size(1050));
    assert_eq!("999.99 Kb", size(999999));
    assert_eq!("1.23 Mb", size(1234567));
    assert_eq!("999.99 Mb", size(999999999));
    assert_eq!("5.0 Gb", size(5_000_000_000));
    assert_eq!("1.2 Gb", size(1_020_000_000));
}

#[test]
fn weekday_names() {
    assert_eq!("Mon", weekday(Weekday::Mon));
    assert_eq!("Sun", weekday(Weekday::Sun));
}

#[test]
fn dates_are_padded() {
    let d = DateTime { year: 2024, month: 3, day: 5, hour: 9, minute: 4, second: 0, weekday: Weekday::Tue };
    assert_eq!("Tue, Mar 05 2024  09:04:00", date(&d));
    let d = DateTime { year: 1999, month: 12, day: 31, hour: 23, minute: 59, second: 58, weekday: Weekday::Fri };
    assert_eq!("Fri, Dec 31 1999  23:59:58", date(&d));
    let d = DateTime { year: -44, month: 13, day: 15, hour: 0, minute: 0, second: 0, weekday: Weekday::Wed };
    assert_eq!("Wed, -- 15 -44  00:00:00", date(&d));
}

#[test]
fn plain_file_list() {
    assert_eq!("", file_list(&vec![]));
    let files = vec![meta("a.txt"), meta("b c.png")];
    assert_eq!("/files/a.txt\n/files/b c.png\n", file_list(&files));
}

#[test]
fn resources_are_found_by_name() {
    let dir = Directory::new(PathBuf::from("/srv/share"));
    let files = vec![meta("a.txt"), meta("b.txt"), meta("b.txt")];
    assert_eq!("b.txt", dir.get_resource("b.txt", &files).unwrap().name);
    assert!(std::ptr::eq(&files[1], dir.get_resource("b.txt", &files).unwrap()));
    assert!(dir.get_resource("c.txt", &files).is_none());
}

#[test]
fn available_names_are_numbered() {
    let dir = Directory::new(PathBuf::from("/srv/share"));
    let files = vec![meta("a.txt"), meta("a.txt (1)"), meta("b")];
    assert_eq!("c", dir.get_available_name("c", &files));
    assert_eq!("b (1)", dir.get_available_name("b", &files));
    assert_eq!("a.txt (2)", dir.get_available_name("a.txt", &files));
    assert_eq!("x", dir.get_available_name("x", &vec![]));
}

#[test]
fn full_path_joins_the_root() {
    let dir = Directory::new(PathBuf::from("/srv/share"));
    assert_eq!(PathBuf::from("/srv/share/a.txt"), dir.full_path("a.txt"));
}

#[test]
fn upload_page_lists_links() {
    let empty = render_ui(&vec![]);
    assert!(empty.starts_with("<!DOCTYPE html>\n<html>\n"));
    assert!(empty.ends_with("Files:</br></br>\n</body>\n</html>"));
    let page = render_ui(&vec![("/files/a".to_string(), "a".to_string())]);
    assert!(page.ends_with(
        "Files:</br></br>\n  <a href=\"/files/a\" target=\"_blank\">a</a></br>\n</body>\n</html>"
    ));
}

#[test]
fn request_paths_name_files() {
    assert_eq!(Some("foo bar.txt".to_string()), requested_name("/files/foo%20bar.txt"));
    assert_eq!(Some("100%".to_string()), requested_name("/files/100%"));
    assert_eq!(Some("a%zz".to_string()), requested_name("/files/a%zz"));
    assert_eq!(Some("x".to_string()), requested_name("/files/a%2Fx"));
    assert_eq!(Some("plain".to_string()), requested_name("plain"));
    assert_eq!(Some("".to_string()), requested_name("/files/"));
    assert_eq!(None, requested_name("/files/%ff"));
}
