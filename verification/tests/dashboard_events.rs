use proofsheet::dashboard::{App, FileStatus, InputAction, Phase};
use proofsheet::events::{process_sequential, scan_events, Event};
use proofsheet::scan::{AssetInput, AssetKind, DiscoveredAsset, ProbeData};

fn input(name: &str, index: usize, ok: bool) -> AssetInput {
    AssetInput {
        filename: name.to_string(),
        ext: "jpg".to_string(),
        kind: AssetKind::Image,
        index,
        file_size: Some(100),
        stat_error: String::new(),
        probe: if ok {
            ProbeData::Image { width: 4, height: 3, color_space: None, thumb_ok: true }
        } else {
            ProbeData::ImageFailed { message: format!("cannot decode '{}'", name) }
        },
    }
}

#[test]
fn scan_phase_announces_every_asset_then_the_total() {
    let assets = vec![
        DiscoveredAsset {
            path: "/in/a.jpg".to_string(),
            name: "a.jpg".to_string(),
            kind: AssetKind::Image,
            index: 0,
        },
        DiscoveredAsset {
            path: "/in/b.mp4".to_string(),
            name: "b.mp4".to_string(),
            kind: AssetKind::Video,
            index: 1,
        },
    ];
    let ev = scan_events(&assets);
    assert_eq!(ev.len(), 3);
    assert!(matches!(&ev[0], Event::AssetFound { filename, kind }
        if filename == "a.jpg" && *kind == AssetKind::Image));
    assert!(matches!(&ev[1], Event::AssetFound { filename, kind }
        if filename == "b.mp4" && *kind == AssetKind::Video));
    assert!(matches!(&ev[2], Event::ScanDone { total: 2 }));
}

#[test]
fn each_index_starts_before_it_finishes_and_appears_once() {
    let items = vec![input("a.jpg", 0, true), input("b.jpg", 1, false), input("c.jpg", 2, true)];
    let (ev, records, errors) = process_sequential(&items, false);
    assert_eq!(ev.len(), 6);
    assert!(matches!(ev[0], Event::Processing { index: 0 }));
    assert!(matches!(ev[1], Event::Processed { index: 0 }));
    assert!(matches!(ev[2], Event::Processing { index: 1 }));
    assert!(matches!(&ev[3], Event::Failed { index: 1, message } if message == "cannot decode 'b.jpg'"));
    assert!(matches!(ev[4], Event::Processing { index: 2 }));
    assert!(matches!(ev[5], Event::Processed { index: 2 }));
    assert_eq!(records.len(), 2);
    assert_eq!(errors.len(), 1);
}

fn drive(app: &mut App, events: Vec<Event>) {
    for e in events {
        app.handle_event(e);
    }
}

#[test]
fn the_reducer_follows_the_transition_table() {
    let mut app = App::new("Client", "2024-05-01", 4);
    assert_eq!(app.phase, Phase::Scanning);
    app.handle_event(Event::AssetFound { filename: "a.jpg".to_string(), kind: AssetKind::Image });
    app.handle_event(Event::AssetFound { filename: "b.mp4".to_string(), kind: AssetKind::Video });
    assert_eq!(app.phase, Phase::Scanning);
    assert_eq!(app.files.len(), 2);
    assert!(matches!(app.files[0].status, FileStatus::Pending));
    assert_eq!(app.total_found, 2);

    app.handle_event(Event::ScanDone { total: 2 });
    assert_eq!(app.phase, Phase::Processing);

    app.handle_event(Event::Processing { index: 0 });
    assert!(matches!(app.files[0].status, FileStatus::InProgress));

    app.handle_event(Event::Processed { index: 0 });
    assert!(matches!(app.files[0].status, FileStatus::Done));
    assert_eq!(app.processed_count, 1);
    assert_eq!(app.failed_count, 0);

    app.handle_event(Event::Processing { index: 1 });
    app.handle_event(Event::Failed { index: 1, message: "broken".to_string() });
    assert!(matches!(&app.files[1].status, FileStatus::Failed { message } if message == "broken"));
    assert_eq!(app.processed_count, 2);
    assert_eq!(app.failed_count, 1);

    app.handle_event(Event::Rendering);
    assert_eq!(app.phase, Phase::Rendering);

    app.handle_event(Event::Done { output: "out.pdf".to_string(), total: 2 });
    assert_eq!(app.phase, Phase::Complete);
    assert_eq!(app.output_path, "out.pdf");
}

#[test]
fn terminal_phases_ignore_late_events() {
    let mut app = App::new("C", "2024-01-01", 3);
    drive(
        &mut app,
        vec![
            Event::ScanDone { total: 0 },
            Event::Done { output: "out.pdf".to_string(), total: 0 },
        ],
    );
    assert_eq!(app.phase, Phase::Complete);
    app.handle_event(Event::Error { message: "late".to_string() });
    assert_eq!(app.phase, Phase::Complete);
    assert_eq!(app.error_msg, None);
    app.handle_event(Event::AssetFound { filename: "x.jpg".to_string(), kind: AssetKind::Image });
    assert_eq!(app.files.len(), 0);
}

#[test]
fn an_error_event_fails_the_run_from_any_phase() {
    let mut app = App::new("C", "2024-01-01", 3);
    app.handle_event(Event::Error { message: "boom".to_string() });
    assert_eq!(app.phase, Phase::Failed);
    assert_eq!(app.error_msg.as_deref(), Some("boom"));
}

#[test]
fn events_for_missing_rows_change_no_entry() {
    let mut app = App::new("C", "2024-01-01", 3);
    app.handle_event(Event::AssetFound { filename: "a.jpg".to_string(), kind: AssetKind::Image });
    app.handle_event(Event::ScanDone { total: 1 });
    app.handle_event(Event::Processed { index: 7 });
    assert!(matches!(app.files[0].status, FileStatus::Pending));
    assert_eq!(app.processed_count, 1);
}

#[test]
fn quitting_exits_everywhere_but_confirm_needs_a_terminal_phase() {
    let mut app = App::new("C", "2024-01-01", 3);
    assert!(app.handle_input(InputAction::Quit));
    assert!(!app.handle_input(InputAction::Confirm));
    app.handle_event(Event::Error { message: "x".to_string() });
    assert!(app.handle_input(InputAction::Confirm));
}

#[test]
fn scrolling_clamps_to_the_row_range() {
    let mut app = App::new("C", "2024-01-01", 3);
    assert!(!app.handle_input(InputAction::ScrollUp));
    assert_eq!(app.scroll, 0);
    app.handle_event(Event::AssetFound { filename: "a.jpg".to_string(), kind: AssetKind::Image });
    app.handle_event(Event::AssetFound { filename: "b.jpg".to_string(), kind: AssetKind::Image });
    assert!(!app.handle_input(InputAction::ScrollDown));
    assert_eq!(app.scroll, 1);
    assert!(!app.handle_input(InputAction::ScrollDown));
    assert_eq!(app.scroll, 1);
    assert!(!app.handle_input(InputAction::ScrollUp));
    assert_eq!(app.scroll, 0);
}

#[test]
fn the_visible_window_keeps_the_last_page_full() {
    let mut app = App::new("C", "2024-01-01", 3);
    for k in 0..10 {
        app.handle_event(Event::AssetFound {
            filename: format!("f{}.jpg", k),
            kind: AssetKind::Image,
        });
    }
    for _ in 0..9 {
        app.handle_input(InputAction::ScrollDown);
    }
    assert_eq!(app.scroll, 9);
    assert_eq!(app.visible_start(4), 6);
    assert_eq!(app.visible_start(20), 0);
}

#[test]
fn the_spinner_cycles_through_ten_frames() {
    let mut app = App::new("C", "2024-01-01", 3);
    let first = app.spinner();
    for _ in 0..2 {
        app.on_tick();
    }
    let second = app.spinner();
    assert_ne!(first, second);
    for _ in 0..18 {
        app.on_tick();
    }
    assert_eq!(app.spinner(), first);
}

#[test]
fn phase_labels_and_footer_hints_follow_the_phase() {
    let mut app = App::new("C", "2024-01-01", 3);
    assert_eq!(app.phase_label(), "Scanning...");
    assert_eq!(app.footer_hint(), " q: cancel  j/k: scroll ");
    app.handle_event(Event::ScanDone { total: 1 });
    assert_eq!(app.phase_label(), "Processing...");
    app.handle_event(Event::Rendering);
    assert_eq!(app.phase_label(), "Rendering PDF...");
    app.handle_event(Event::Done { output: "x.pdf".to_string(), total: 1 });
    assert_eq!(app.phase_label(), "Done");
    assert_eq!(app.footer_hint(), " q/Enter: exit  j/k: scroll ");
}

#[test]
fn progress_counts_in_whole_percent() {
    let mut app = App::new("C", "2024-01-01", 3);
    assert_eq!(app.progress_percent(), 0);
    for k in 0..4 {
        app.handle_event(Event::AssetFound {
            filename: format!("f{}.jpg", k),
            kind: AssetKind::Image,
        });
    }
    app.handle_event(Event::ScanDone { total: 4 });
    app.handle_event(Event::Processed { index: 0 });
    assert_eq!(app.progress_percent(), 25);
    assert_eq!(app.progress_label(), "1/4 processed");
    app.handle_event(Event::Processed { index: 1 });
    app.handle_event(Event::Processed { index: 2 });
    assert_eq!(app.progress_percent(), 75);
    app.handle_event(Event::Processed { index: 3 });
    assert_eq!(app.progress_percent(), 100);
}
