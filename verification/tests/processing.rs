use proofsheet::scan::{
    orientation_ops, process_one, process_all, thumb_name, parse_duration_secs, AssetInput,
    AssetKind, Orient, ProbeData, ProcessingOutcome,
};

fn image_input(name: &str, index: usize, size: Option<u64>, probe: ProbeData) -> AssetInput {
    AssetInput {
        filename: name.to_string(),
        ext: name.rsplit('.').next().unwrap_or("").to_string(),
        kind: AssetKind::Image,
        index,
        file_size: size,
        stat_error: format!("cannot stat '{}'", name),
        probe,
    }
}

fn good_image(name: &str, index: usize, w: u32, h: u32) -> AssetInput {
    image_input(
        name,
        index,
        Some(1000),
        ProbeData::Image { width: w, height: h, color_space: None, thumb_ok: true },
    )
}

fn bad_image(name: &str, index: usize) -> AssetInput {
    image_input(
        name,
        index,
        Some(1000),
        ProbeData::ImageFailed { message: format!("cannot decode '{}'", name) },
    )
}

#[test]
fn thumbnail_names_are_zero_padded_and_stable() {
    assert_eq!(thumb_name(0), "0000.jpg");
    assert_eq!(thumb_name(12), "0012.jpg");
    assert_eq!(thumb_name(999), "0999.jpg");
    assert_eq!(thumb_name(1000), "1000.jpg");
    assert_eq!(thumb_name(12345), "12345.jpg");
    assert_eq!(thumb_name(12), thumb_name(12));
}

#[test]
fn a_decodable_image_becomes_a_full_record() {
    let input = good_image("photo1.jpg", 0, 1920, 1080);
    match process_one(&input, true) {
        ProcessingOutcome::Success(a) => {
            assert_eq!(a.filename, "photo1.jpg");
            assert_eq!(a.kind, AssetKind::Image);
            assert_eq!(a.width, Some(1920));
            assert_eq!(a.height, Some(1080));
            assert_eq!(a.file_size, 1000);
            assert_eq!(a.format, "JPG");
            assert_eq!(a.thumbnail_name.as_deref(), Some("0000.jpg"));
            assert_eq!(a.resolution(), "1920x1080");
        }
        ProcessingOutcome::Failure(m) => panic!("unexpected failure: {}", m),
    }
}

#[test]
fn a_failed_thumbnail_write_degrades_to_no_thumbnail() {
    let input = image_input(
        "photo1.jpg",
        0,
        Some(1000),
        ProbeData::Image { width: 1920, height: 1080, color_space: None, thumb_ok: false },
    );
    match process_one(&input, true) {
        ProcessingOutcome::Success(a) => {
            assert_eq!(a.width, Some(1920));
            assert_eq!(a.thumbnail_name, None);
        }
        ProcessingOutcome::Failure(m) => {
            panic!("a thumbnail write failure must not fail the asset: {}", m)
        }
    }
}

#[test]
fn without_thumbnails_no_thumbnail_name_is_assigned() {
    let input = good_image("photo1.jpg", 3, 100, 100);
    match process_one(&input, false) {
        ProcessingOutcome::Success(a) => assert_eq!(a.thumbnail_name, None),
        ProcessingOutcome::Failure(m) => panic!("unexpected failure: {}", m),
    }
}

#[test]
fn a_stat_failure_is_fatal_to_the_asset() {
    let input = image_input(
        "gone.jpg",
        0,
        None,
        ProbeData::Image { width: 1, height: 1, color_space: None, thumb_ok: true },
    );
    match process_one(&input, true) {
        ProcessingOutcome::Failure(m) => assert_eq!(m, "cannot stat 'gone.jpg'"),
        ProcessingOutcome::Success(_) => panic!("stat failure must fail the asset"),
    }
}

#[test]
fn a_decode_failure_is_fatal_to_the_asset() {
    let input = bad_image("photo2.png", 1);
    match process_one(&input, true) {
        ProcessingOutcome::Failure(m) => assert_eq!(m, "cannot decode 'photo2.png'"),
        ProcessingOutcome::Success(_) => panic!("decode failure must fail the asset"),
    }
}

#[test]
fn video_probe_fields_degrade_gracefully() {
    let input = AssetInput {
        filename: "clip.mp4".to_string(),
        ext: "mp4".to_string(),
        kind: AssetKind::Video,
        index: 2,
        file_size: Some(5000),
        stat_error: String::new(),
        probe: ProbeData::Video {
            width: None,
            height: None,
            codec: None,
            duration: None,
            thumb_ok: false,
        },
    };
    match process_one(&input, true) {
        ProcessingOutcome::Success(a) => {
            assert_eq!(a.width, None);
            assert_eq!(a.codec, None);
            assert_eq!(a.duration_secs, None);
            assert_eq!(a.thumbnail_name, None);
            assert_eq!(a.resolution(), "\u{2014}");
        }
        ProcessingOutcome::Failure(m) => panic!("a bare video probe must not fail: {}", m),
    }
}

#[test]
fn probed_video_keeps_stream_fields_and_whole_seconds() {
    let input = AssetInput {
        filename: "clip.mp4".to_string(),
        ext: "mp4".to_string(),
        kind: AssetKind::Video,
        index: 2,
        file_size: Some(5000),
        stat_error: String::new(),
        probe: ProbeData::Video {
            width: Some(1280),
            height: Some(720),
            codec: Some("h264".to_string()),
            duration: Some("12.5".to_string()),
            thumb_ok: true,
        },
    };
    match process_one(&input, true) {
        ProcessingOutcome::Success(a) => {
            assert_eq!(a.resolution(), "1280x720");
            assert_eq!(a.codec.as_deref(), Some("h264"));
            assert_eq!(a.duration_secs, Some(12));
            assert_eq!(a.thumbnail_name.as_deref(), Some("0002.jpg"));
        }
        ProcessingOutcome::Failure(m) => panic!("unexpected failure: {}", m),
    }
}

#[test]
fn duration_grammar_accepts_decimals_and_rejects_noise() {
    assert_eq!(parse_duration_secs("12.5"), Some(12));
    assert_eq!(parse_duration_secs("0.9"), Some(0));
    assert_eq!(parse_duration_secs("007"), Some(7));
    assert_eq!(parse_duration_secs("90"), Some(90));
    assert_eq!(parse_duration_secs("12."), Some(12));
    assert_eq!(parse_duration_secs(""), None);
    assert_eq!(parse_duration_secs("abc"), None);
    assert_eq!(parse_duration_secs(".5"), None);
    assert_eq!(parse_duration_secs("12,5"), None);
    assert_eq!(parse_duration_secs("99999999999999999999999"), None);
}

#[test]
fn failures_are_isolated_and_counts_conserve() {
    let items = vec![
        good_image("photo1.jpg", 0, 1920, 1080),
        bad_image("photo2.png", 1),
        good_image("photo3.jpg", 2, 10, 10),
    ];
    let (records, errors) = process_all(&items, true);
    assert_eq!(records.len(), 2);
    assert_eq!(errors.len(), 1);
    assert_eq!(records.len() + errors.len(), items.len());
    assert_eq!(errors[0], "cannot decode 'photo2.png'");
    assert_eq!(records[0].filename, "photo1.jpg");
    assert_eq!(records[1].filename, "photo3.jpg");
}

#[test]
fn batch_output_order_is_natural_regardless_of_input_order() {
    let mut items = Vec::new();
    // hand the batch in a scrambled order: 49, 48, ..., 0
    for k in (0..50usize).rev() {
        items.push(good_image(&format!("shot{}.jpg", k), 49 - k, 10, 10));
    }
    let (records, errors) = process_all(&items, false);
    assert_eq!(errors.len(), 0);
    assert_eq!(records.len(), 50);
    for (k, r) in records.iter().enumerate() {
        assert_eq!(r.filename, format!("shot{}.jpg", k));
    }
}

#[test]
fn orientation_tags_map_to_the_documented_transforms() {
    assert_eq!(orientation_ops(1), Orient { quarter_turns: 0, flip_h: false, flip_v: false });
    assert_eq!(orientation_ops(2), Orient { quarter_turns: 0, flip_h: true, flip_v: false });
    assert_eq!(orientation_ops(3), Orient { quarter_turns: 2, flip_h: false, flip_v: false });
    assert_eq!(orientation_ops(4), Orient { quarter_turns: 0, flip_h: false, flip_v: true });
    assert_eq!(orientation_ops(5), Orient { quarter_turns: 1, flip_h: true, flip_v: false });
    assert_eq!(orientation_ops(6), Orient { quarter_turns: 1, flip_h: false, flip_v: false });
    assert_eq!(orientation_ops(7), Orient { quarter_turns: 3, flip_h: true, flip_v: false });
    assert_eq!(orientation_ops(8), Orient { quarter_turns: 3, flip_h: false, flip_v: false });
    assert_eq!(orientation_ops(0), Orient { quarter_turns: 0, flip_h: false, flip_v: false });
    assert_eq!(orientation_ops(99), Orient { quarter_turns: 0, flip_h: false, flip_v: false });
}

#[test]
fn a_mixed_batch_keeps_the_good_records_and_reports_the_bad() {
    let items = vec![
        good_image("photo1.jpg", 0, 1920, 1080),
        bad_image("photo2.png", 1),
        AssetInput {
            filename: "clip.mp4".to_string(),
            ext: "mp4".to_string(),
            kind: AssetKind::Video,
            index: 2,
            file_size: Some(9000),
            stat_error: String::new(),
            probe: ProbeData::Video {
                width: Some(1280),
                height: Some(720),
                codec: Some("h264".to_string()),
                duration: Some("12.5".to_string()),
                thumb_ok: true,
            },
        },
    ];
    let (records, errors) = process_all(&items, true);
    assert_eq!(records.len(), 2);
    assert_eq!(errors.len(), 1);
    assert!(errors[0].contains("photo2.png"));
    assert_eq!(records[0].filename, "clip.mp4");
    assert_eq!(records[0].resolution(), "1280x720");
    assert_eq!(records[0].codec.as_deref(), Some("h264"));
    assert_eq!(
        proofsheet::report::format_duration(records[0].duration_secs.unwrap()),
        "0:12"
    );
    assert_eq!(records[1].filename, "photo1.jpg");
    assert_eq!(records[1].resolution(), "1920x1080");
    let manifest = proofsheet::report::manifest_lines(&records);
    assert_eq!(manifest.len(), 2);
}
