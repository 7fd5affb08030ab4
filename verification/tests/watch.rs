use quickmd::assets::Assets;
use quickmd::background::{SourceRead, UpdateLoop, DEBOUNCE_MS};
use quickmd::markdown::render;
use quickmd::ui::{dispatch, file_uri, DispatchAction, Event};

#[test]
fn staged_paths_become_file_uris() {
    assert_eq!(file_uri("/tmp/stage/page-0.html"), "file:///tmp/stage/page-0.html");
}

#[test]
fn burst_of_changes_fires_once() {
    let mut w = UpdateLoop::new();
    let t0 = 1000;
    // Five raw signals inside one debounce window.
    for k in 0..5 {
        w.note_change(t0 + k * 10);
        assert!(!w.poll(t0 + k * 10 + 5));
    }
    let deadline = t0 + 40 + DEBOUNCE_MS;
    assert!(!w.poll(deadline - 1));
    let mut fires = 0;
    for k in 0..5 {
        if w.poll(deadline + k) {
            fires += 1;
        }
    }
    assert_eq!(fires, 1);
}

#[test]
fn poll_without_change_never_fires() {
    let mut w = UpdateLoop::new();
    assert!(!w.poll(0));
    assert!(!w.poll(u64::MAX));
}

#[test]
fn fresh_content_becomes_one_load_event() {
    let mut w = UpdateLoop::new();
    w.note_change(50);
    assert!(w.poll(50 + DEBOUNCE_MS));
    let ev = w.render_outcome(SourceRead::Content(String::from("# Hello")));
    match ev {
        Some(Event::LoadHtml(html)) => assert_eq!(html, "<h1>Hello</h1>\n"),
        _ => panic!("expected a LoadHtml event"),
    }
    assert!(w.watching);
}

#[test]
fn transient_read_failure_keeps_watching() {
    let mut w = UpdateLoop::new();
    w.note_change(50);
    assert!(w.poll(50 + DEBOUNCE_MS));
    assert!(w.render_outcome(SourceRead::TransientFailure).is_none());
    assert!(w.watching);
    // The recreated file's next change resumes normal re-rendering.
    w.note_change(1000);
    assert!(w.poll(1000 + DEBOUNCE_MS));
    let ev = w.render_outcome(SourceRead::Content(String::from("back")));
    match ev {
        Some(Event::LoadHtml(html)) => assert_eq!(html, "<p>back</p>\n"),
        _ => panic!("expected a LoadHtml event"),
    }
}

#[test]
fn gone_source_stops_the_watch() {
    let mut w = UpdateLoop::new();
    w.note_change(50);
    assert!(w.poll(50 + DEBOUNCE_MS));
    assert!(w.render_outcome(SourceRead::Gone).is_none());
    assert!(!w.watching);
    // Further signals are ignored once the watch has stopped.
    w.note_change(1000);
    assert!(!w.poll(u64::MAX - DEBOUNCE_MS));
}

#[test]
fn dispatch_load_stages_and_navigates() {
    let mut assets = Assets::init(String::from("/tmp/stage"));
    let event = Event::LoadHtml(render("# Hello"));
    match dispatch(&mut assets, event, None) {
        DispatchAction::Navigate(path, document) => {
            assert_eq!(path, "/tmp/stage/page-0.html");
            assert!(document.contains("<h1>Hello</h1>"));
            assert!(document.contains("window.scrollTo(0, 0);"));
        },
        DispatchAction::ReloadCurrent => panic!("expected a navigation"),
    }
    assert_eq!(assets.counter, 1);
}

#[test]
fn dispatch_reads_the_scroll_side_channel() {
    let mut assets = Assets::init(String::from("/tmp/stage"));
    let event = Event::LoadHtml(String::from("<p>x</p>\n"));
    match dispatch(&mut assets, event, Some("250.5")) {
        DispatchAction::Navigate(_, document) => {
            assert!(document.contains("window.scrollTo(0, 250);"));
        },
        DispatchAction::ReloadCurrent => panic!("expected a navigation"),
    }
}

#[test]
fn dispatch_reload_stages_nothing() {
    let mut assets = Assets::init(String::from("/tmp/stage"));
    match dispatch(&mut assets, Event::Reload, Some("250")) {
        DispatchAction::Navigate(_, _) => panic!("expected an in-place reload"),
        DispatchAction::ReloadCurrent => {},
    }
    assert_eq!(assets.counter, 0);
}

#[test]
fn edit_within_window_yields_one_updated_page() {
    // A session: the document is loaded, then edited twice in quick
    // succession; exactly one new page is staged and it holds both the old
    // heading and the new paragraph.
    let mut assets = Assets::init(String::from("/tmp/stage"));
    let mut w = UpdateLoop::new();

    let initial = Event::LoadHtml(render("# Hello"));
    let first_page = match dispatch(&mut assets, initial, None) {
        DispatchAction::Navigate(path, _) => path,
        DispatchAction::ReloadCurrent => panic!("expected a navigation"),
    };

    w.note_change(5000);
    w.note_change(5040);
    assert!(!w.poll(5100));
    let mut events = Vec::new();
    for k in 0..10 {
        if w.poll(5040 + DEBOUNCE_MS + k) {
            let ev = w.render_outcome(SourceRead::Content(String::from("# Hello\n\nWorld")));
            events.push(ev.expect("a fired poll with readable content yields an event"));
        }
    }
    assert_eq!(events.len(), 1);
    match dispatch(&mut assets, events.pop().unwrap(), Some("80")) {
        DispatchAction::Navigate(path, document) => {
            assert_ne!(path, first_page);
            assert!(document.contains("<h1>Hello</h1>"));
            assert!(document.contains("<p>World</p>"));
            assert!(document.contains("window.scrollTo(0, 80);"));
        },
        DispatchAction::ReloadCurrent => panic!("expected a navigation"),
    }
}
