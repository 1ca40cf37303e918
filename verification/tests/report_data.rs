use proofsheet::cli::Cli;
use proofsheet::report::{
    build_data, default_output_name, format_duration, manifest_lines, PdfConfig,
};
use proofsheet::scan::{Asset, AssetKind};

fn asset(name: &str, kind: AssetKind, w: Option<u32>, h: Option<u32>, size: u64) -> Asset {
    Asset {
        filename: name.to_string(),
        kind,
        width: w,
        height: h,
        file_size: size,
        format: "JPG".to_string(),
        color_space: None,
        duration_secs: None,
        codec: None,
        thumbnail_name: None,
    }
}

#[test]
fn durations_render_as_minutes_and_padded_seconds() {
    assert_eq!(format_duration(0), "0:00");
    assert_eq!(format_duration(12), "0:12");
    assert_eq!(format_duration(75), "1:15");
    assert_eq!(format_duration(3600), "60:00");
    assert_eq!(format_duration(61), "1:01");
}

#[test]
fn human_sizes_come_from_humansize_binary_units() {
    let a = asset("x.jpg", AssetKind::Image, None, None, 1048576);
    assert_eq!(a.human_size(), humansize::format_size(1048576u64, humansize::BINARY));
    let b = asset("y.jpg", AssetKind::Image, None, None, 999);
    assert_eq!(b.human_size(), humansize::format_size(999u64, humansize::BINARY));
    assert_ne!(a.human_size(), b.human_size());
}

#[test]
fn the_summary_counts_kinds_and_sums_sizes() {
    let assets = vec![
        asset("a.jpg", AssetKind::Image, Some(10), Some(20), 100),
        asset("b.mp4", AssetKind::Video, Some(1280), Some(720), 250),
        asset("c.jpg", AssetKind::Image, None, None, 50),
    ];
    let config = PdfConfig {
        client: "Studio".to_string(),
        title: Some("Spring".to_string()),
        date: "2024-04-01".to_string(),
        columns: 4,
        auto_orient: false,
    };
    let data = build_data(&assets, &config).unwrap();
    assert_eq!(data.client, "Studio");
    assert_eq!(data.title.as_deref(), Some("Spring"));
    assert_eq!(data.summary.total_files, 3);
    assert_eq!(data.summary.image_count, 2);
    assert_eq!(data.summary.video_count, 1);
    assert_eq!(
        data.summary.total_size,
        humansize::format_size(400u64, humansize::BINARY)
    );
    assert_eq!(data.assets.len(), 3);
    assert_eq!(data.assets[0].resolution, "10x20");
    assert_eq!(data.assets[1].kind, "Video");
    assert_eq!(data.assets[2].resolution, "\u{2014}");
}

#[test]
fn thumbnails_are_referenced_under_the_thumbs_directory() {
    let mut a = asset("a.jpg", AssetKind::Image, Some(1), Some(1), 10);
    a.thumbnail_name = Some("0000.jpg".to_string());
    let config = PdfConfig {
        client: "C".to_string(),
        title: None,
        date: "2024-01-01".to_string(),
        columns: 3,
        auto_orient: false,
    };
    let data = build_data(&vec![a], &config).unwrap();
    assert_eq!(data.assets[0].thumbnail.as_deref(), Some("thumbs/0000.jpg"));
}

#[test]
fn the_manifest_has_one_row_per_record() {
    let assets = vec![
        asset("photo1.jpg", AssetKind::Image, Some(1920), Some(1080), 1000),
        asset("clip.mp4", AssetKind::Video, Some(1280), Some(720), 2000),
    ];
    let lines = manifest_lines(&assets);
    assert_eq!(lines.len(), 2);
    let expected = format!(
        "photo1.jpg\tImage\t1920x1080\tJPG\t{}\t\u{2014}",
        humansize::format_size(1000u64, humansize::BINARY)
    );
    assert_eq!(lines[0], expected);
}

#[test]
fn the_default_output_name_slugs_the_client() {
    assert_eq!(
        default_output_name("My Client", "2024-01-02"),
        "my-client-delivery-2024-01-02.pdf"
    );
    assert_eq!(default_output_name("Studio", "2025-12-31"), "studio-delivery-2025-12-31.pdf");
}

#[test]
fn missing_client_defaults_to_delivery() {
    let cli = Cli {
        input: "/in".to_string(),
        client: None,
        title: None,
        date: None,
        columns: 4,
        output: None,
        manifest_only: false,
        dry_run: false,
        verbose: false,
        no_tui: false,
        auto_orient: false,
    };
    assert_eq!(cli.client_or_default(), "Delivery");
    assert!(cli.columns_ok());
    assert!(cli.use_dashboard());
}
