use note::db::queries::Note;
use note::routes::export::{
    chrono_now, days_to_ymd, export_format, iso_timestamp, markdown_document, markdown_filename,
    sanitize_title, ExportFormat,
};
use note::routes::notes::AppError;

#[test]
fn sanitize_title_basic() {
    assert_eq!(sanitize_title("Hello World"), "hello-world");
}

#[test]
fn sanitize_title_special_chars() {
    assert_eq!(
        sanitize_title("My Note! @#$ About Rust"),
        "my-note-about-rust"
    );
}

#[test]
fn sanitize_title_truncation() {
    let long = "a".repeat(100);
    let result = sanitize_title(&long);
    assert!(result.len() <= 50);
}

#[test]
fn sanitize_title_empty() {
    assert_eq!(sanitize_title(""), "");
}

#[test]
fn sanitize_title_leading_trailing_special() {
    assert_eq!(sanitize_title("---hello---"), "hello");
}

#[test]
fn chrono_now_format() {
    let now = chrono_now();
    assert!(now.ends_with('Z'));
    assert_eq!(now.len(), 20);
    assert_eq!(&now[4..5], "-");
    assert_eq!(&now[7..8], "-");
    assert_eq!(&now[10..11], "T");
}

#[test]
fn chrono_now_produces_valid_date() {
    let now = chrono_now();
    let year: u64 = now[..4].parse().unwrap();
    assert!(year >= 2024 && year <= 2030, "Year out of range: {}", year);
    let month: u64 = now[5..7].parse().unwrap();
    assert!(month >= 1 && month <= 12, "Month out of range: {}", month);
    let day: u64 = now[8..10].parse().unwrap();
    assert!(day >= 1 && day <= 31, "Day out of range: {}", day);
    let hours: u64 = now[11..13].parse().unwrap();
    assert!(hours < 24);
    let minutes: u64 = now[14..16].parse().unwrap();
    assert!(minutes < 60);
    let seconds: u64 = now[17..19].parse().unwrap();
    assert!(seconds < 60);
}

#[test]
fn days_to_ymd_known_dates() {
    assert_eq!(days_to_ymd(0), (1970, 1, 1));
    assert_eq!(days_to_ymd(10957), (2000, 1, 1));
    assert_eq!(days_to_ymd(19782), (2024, 2, 29));
}

#[test]
fn days_to_ymd_century_rules() {
    // 2100-02-28 and 2100-03-01: 2100 is not a leap year.
    assert_eq!(days_to_ymd(47540), (2100, 2, 28));
    assert_eq!(days_to_ymd(47541), (2100, 3, 1));
    // 1970-12-31 and 1972-02-29.
    assert_eq!(days_to_ymd(364), (1970, 12, 31));
    assert_eq!(days_to_ymd(789), (1972, 2, 29));
}

#[test]
fn iso_timestamp_of_known_instants() {
    assert_eq!(iso_timestamp(0), "1970-01-01T00:00:00Z");
    assert_eq!(iso_timestamp(951782400 + 3661), "2000-02-29T01:01:01Z");
}

#[test]
fn sanitize_title_cuts_at_fifty_without_trailing_dash() {
    let title = format!("{} {}", "a".repeat(49), "bcd");
    assert_eq!(sanitize_title(&title), "a".repeat(49));
    assert_eq!(sanitize_title("Ünïcode Tïtle"), "n-code-t-tle");
}

fn tagged_note() -> Note {
    Note {
        id: 7,
        content: "Body text".to_string(),
        content_type: "text".to_string(),
        source_type: "web".to_string(),
        source_url: None,
        title: Some("Say \"hi\"".to_string()),
        summary: None,
        created_at: "2026-02-08 12:00:00".to_string(),
        updated_at: "2026-02-08 12:00:00".to_string(),
        tags: vec!["a\"b".to_string(), "c".to_string()],
    }
}

#[test]
fn markdown_export_file_name_and_document() {
    let n = tagged_note();
    assert_eq!(markdown_filename(&n), "7-say-hi.md");
    assert_eq!(
        markdown_document(&n),
        "---\nid: 7\ntitle: \"Say \\\"hi\\\"\"\nsource_type: \"web\"\ntags: [\"a\\\"b\", \"c\"]\ncreated_at: \"2026-02-08\"\n---\n\nBody text"
    );
    let mut untitled = tagged_note();
    untitled.title = None;
    untitled.tags = vec![];
    untitled.created_at = "   ".to_string();
    assert_eq!(markdown_filename(&untitled), "7-untitled.md");
    assert_eq!(
        markdown_document(&untitled),
        "---\nid: 7\ntitle: \"\"\nsource_type: \"web\"\ntags: []\ncreated_at: \"   \"\n---\n\nBody text"
    );
    let mut empty_title = tagged_note();
    empty_title.title = Some(String::new());
    assert_eq!(markdown_filename(&empty_title), "7-untitled.md");
}

#[test]
fn export_formats() {
    assert!(matches!(export_format("json"), Ok(ExportFormat::Json)));
    assert!(matches!(export_format("markdown"), Ok(ExportFormat::Markdown)));
    match export_format("csv") {
        Err(AppError::BadRequest(m)) => assert_eq!(m, "Invalid format. Use 'json' or 'markdown'."),
        _ => panic!("csv should be refused"),
    }
}

#[test]
fn days_to_ymd_steps_to_the_next_calendar_day() {
    assert_eq!(days_to_ymd(0), (1970, 1, 1));
    assert_eq!(days_to_ymd(30), (1970, 1, 31));
    assert_eq!(days_to_ymd(31), (1970, 2, 1));
    assert_eq!(days_to_ymd(58), (1970, 2, 28));
    assert_eq!(days_to_ymd(59), (1970, 3, 1));
    assert_eq!(days_to_ymd(364), (1970, 12, 31));
    assert_eq!(days_to_ymd(365), (1971, 1, 1));
    assert_eq!(days_to_ymd(789), (1972, 2, 29));
    assert_eq!(days_to_ymd(790), (1972, 3, 1));
    assert_eq!(days_to_ymd(11016), (2000, 2, 29));
    assert_eq!(days_to_ymd(47540), (2100, 2, 28));
    assert_eq!(days_to_ymd(47541), (2100, 3, 1));
}

#[test]
fn sanitize_title_empty_and_idempotent() {
    assert_eq!(sanitize_title("!!! ???"), "");
    assert_eq!(sanitize_title("Ünïcode only"), "n-code-only");
    for t in ["Hello World", "  --a--b--  ", "My Note! @#$ About Rust", &"word ".repeat(30)] {
        let once = sanitize_title(t);
        assert_eq!(sanitize_title(&once), once);
    }
}
