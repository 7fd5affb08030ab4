use quickmd::assets::Assets;
use quickmd::scroll::{parse_scroll, push_dec};

#[test]
fn build_stages_under_the_directory() {
    let mut assets = Assets::init(String::from("/tmp/stage"));
    let (path, document) = assets.build("<h1>Hello</h1>\n", 0);
    assert_eq!(path, "/tmp/stage/page-0.html");
    assert!(document.contains("<h1>Hello</h1>"));
    assert!(document.starts_with("<!DOCTYPE html>"));
    assert!(document.ends_with("</body>\n</html>\n"));
}

#[test]
fn build_paths_are_distinct() {
    let mut assets = Assets::init(String::from("/tmp/stage"));
    let (first, _) = assets.build("<p>a</p>\n", 0);
    let (second, _) = assets.build("<p>a</p>\n", 0);
    let (third, _) = assets.build("<p>b</p>\n", 7);
    assert_eq!(first, "/tmp/stage/page-0.html");
    assert_eq!(second, "/tmp/stage/page-1.html");
    assert_eq!(third, "/tmp/stage/page-2.html");
    assert_ne!(first, second);
    assert_ne!(second, third);
}

#[test]
fn build_embeds_the_scroll_offset() {
    let mut assets = Assets::init(String::from("/d"));
    let (_, document) = assets.build("<p>x</p>\n", 420);
    assert!(document.contains("window.scrollTo(0, 420);"));
    let (_, document_zero) = assets.build("<p>x</p>\n", 0);
    assert!(document_zero.contains("window.scrollTo(0, 0);"));
}

#[test]
fn build_installs_the_title_side_channel() {
    let mut assets = Assets::init(String::from("/d"));
    let (_, document) = assets.build("<p>x</p>\n", 0);
    assert!(document.contains("document.title = window.pageYOffset;"));
}

#[test]
fn parse_scroll_reads_integer_titles() {
    assert_eq!(parse_scroll(Some("123")), 123);
    assert_eq!(parse_scroll(Some("0")), 0);
    assert_eq!(parse_scroll(Some("987654321")), 987654321);
}

#[test]
fn parse_scroll_takes_the_integer_part() {
    assert_eq!(parse_scroll(Some("123.75")), 123);
    assert_eq!(parse_scroll(Some("123.")), 123);
    assert_eq!(parse_scroll(Some("0.25")), 0);
}

#[test]
fn parse_scroll_defaults_to_zero() {
    assert_eq!(parse_scroll(None), 0);
    assert_eq!(parse_scroll(Some("")), 0);
    assert_eq!(parse_scroll(Some("Quickmd")), 0);
    assert_eq!(parse_scroll(Some("12a")), 0);
    assert_eq!(parse_scroll(Some("1.2.3")), 0);
    assert_eq!(parse_scroll(Some(".5")), 0);
    assert_eq!(parse_scroll(Some("12345678901234567890")), 0);
}

#[test]
fn scroll_offset_round_trips_through_text() {
    for offset in [0u64, 1, 9, 10, 99, 420, 98765, 9999999999999999999] {
        let mut title = String::new();
        push_dec(&mut title, offset);
        assert_eq!(parse_scroll(Some(&title)), offset);
    }
}
