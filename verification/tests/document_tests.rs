use std::io::{Cursor, Read};

use note::background::tts::gemini_audio_pcm;
use note::db::queries::Note;
use note::routes::audio::{build_podcast_feed, feed_link, FeedEpisode};
use note::routes::export::{
    export_markdown_zip, finish_archive, markdown_document, markdown_filename,
    write_markdown_entries, zip_new,
};
use note::routes::ingest::{clip_from_article, clip_page, AppError, ArticleParts};

fn note(id: i64, title: Option<&str>, content: &str) -> Note {
    Note {
        id,
        content: content.to_string(),
        content_type: "text".to_string(),
        source_type: "manual".to_string(),
        source_url: None,
        title: title.map(|t| t.to_string()),
        summary: None,
        created_at: "2026-02-08 12:00:00".to_string(),
        updated_at: "2026-02-08 12:00:00".to_string(),
        tags: vec!["rust".to_string()],
    }
}

fn read_entry(bytes: &[u8], name: &str) -> String {
    let mut archive = zip::ZipArchive::new(Cursor::new(bytes.to_vec())).unwrap();
    let mut file = archive.by_name(name).unwrap();
    let mut text = String::new();
    file.read_to_string(&mut text).unwrap();
    text
}

#[test]
fn clip_from_article_converts_html_to_markdown() {
    let parts = ArticleParts {
        title: "T".to_string(),
        html: "<p>Hello <strong>world</strong></p>".to_string(),
        byline: None,
        published: None,
    };
    let clip = match clip_from_article("https://example.com/a", parts) {
        Ok(c) => c,
        Err(_) => panic!("conversion failed"),
    };
    assert_eq!(clip.title, "T");
    assert!(clip
        .content
        .starts_with("# T\n\n> Clipped from [example.com](https://example.com/a)\n\n---\n\n"));
    assert!(clip.content.contains("Hello **world**"));
    assert!(!clip.content.contains("<p>"));
    assert_eq!(clip.word_count, clip.content.split_whitespace().count());
}

#[test]
fn clip_from_article_keeps_byline_and_date() {
    let parts = ArticleParts {
        title: "Post".to_string(),
        html: "<p>Text</p>".to_string(),
        byline: Some("Ann".to_string()),
        published: Some("2026-01-02".to_string()),
    };
    let clip = match clip_from_article("https://blog.example.org/p/1", parts) {
        Ok(c) => c,
        Err(_) => panic!("conversion failed"),
    };
    assert_eq!(
        clip.content,
        "# Post\n\n> Clipped from [blog.example.org](https://blog.example.org/p/1)\n> By Ann | Published 2026-01-02\n\n---\n\nText"
    );
}

#[test]
fn clip_page_refuses_empty_page() {
    let r = clip_page("<html><body></body></html>".to_string(), "https://example.com/");
    match r {
        Err(AppError::BadRequest(m)) => {
            assert_eq!(m, "Page does not appear to contain a readable article")
        }
        _ => panic!("expected a refusal"),
    }
}

#[test]
fn gemini_audio_pcm_decodes_inline_data() {
    let body = r#"{"candidates":[{"content":{"parts":[{"inlineData":{"mimeType":"audio/pcm","data":"AQID"}}]}}]}"#;
    assert_eq!(gemini_audio_pcm(body), Ok(vec![1u8, 2, 3]));
}

#[test]
fn gemini_audio_pcm_without_audio_field() {
    let body = r#"{"candidates":[{"content":{"parts":[{"text":"hi"}]}}]}"#;
    assert_eq!(
        gemini_audio_pcm(body),
        Err("No audio data in Gemini response".to_string())
    );
}

#[test]
fn gemini_audio_pcm_rejects_non_json() {
    let r = gemini_audio_pcm("not json");
    assert!(r.is_err());
    assert_ne!(r, Err("No audio data in Gemini response".to_string()));
}

#[test]
fn gemini_audio_pcm_rejects_bad_base64() {
    let body = r#"{"candidates":[{"content":{"parts":[{"inlineData":{"data":"!!!"}}]}}]}"#;
    assert!(gemini_audio_pcm(body).is_err());
}

fn episode(id: i64, title: &str, status: &str, duration: Option<u64>) -> FeedEpisode {
    FeedEpisode {
        id,
        title: title.to_string(),
        episode_type: "single".to_string(),
        status: status.to_string(),
        file_size_bytes: Some(1234),
        duration_secs: duration,
        created_at: "Mon, 01 Jan 2026 00:00:00 +0000".to_string(),
    }
}

#[test]
fn feed_link_joins_base() {
    assert_eq!(feed_link("http://h:1"), "http://h:1/api/podcast/feed.xml");
}

#[test]
fn podcast_feed_lists_complete_episodes_only() {
    let xml = build_podcast_feed(
        "http://h:1",
        vec![
            episode(7, "First episode", "complete", Some(65)),
            episode(8, "Still rendering", "pending", None),
            episode(9, "Second episode", "complete", None),
        ],
    );
    assert!(xml.contains("<title>NixonNote Podcast</title>"));
    assert!(xml.contains("http://h:1/api/podcast/feed.xml"));
    assert!(xml.contains("<title>First episode</title>"));
    assert!(xml.contains("<title>Second episode</title>"));
    assert!(!xml.contains("Still rendering"));
    assert!(xml.contains("http://h:1/api/audio/7/file"));
    assert!(xml.contains("nixonnote-episode-9"));
    assert!(xml.contains("<itunes:duration>1:05</itunes:duration>"));
    assert!(xml.contains("<itunes:episode>2</itunes:episode>"));
    assert!(xml.contains("<itunes:type>episodic</itunes:type>"));
    assert!(xml.contains("single episode"));
}

#[test]
fn markdown_zip_holds_one_file_per_note() {
    let notes = vec![note(1, Some("Hello World"), "first"), note(2, None, "second")];
    let bytes = match export_markdown_zip(&notes) {
        Ok(b) => b,
        Err(_) => panic!("export failed"),
    };
    assert_eq!(markdown_filename(&notes[0]), "1-hello-world.md");
    assert_eq!(markdown_filename(&notes[1]), "2-untitled.md");
    assert_eq!(read_entry(&bytes, "1-hello-world.md"), markdown_document(&notes[0]));
    assert_eq!(read_entry(&bytes, "2-untitled.md"), markdown_document(&notes[1]));
    let archive = zip::ZipArchive::new(Cursor::new(bytes)).unwrap();
    assert_eq!(archive.len(), 2);
}

#[test]
fn markdown_zip_files_are_deflated() {
    let notes = vec![note(4, Some("Packed"), &"text ".repeat(200)), note(5, None, "short")];
    let bytes = match export_markdown_zip(&notes) {
        Ok(b) => b,
        Err(_) => panic!("export failed"),
    };
    let mut archive = zip::ZipArchive::new(Cursor::new(bytes)).unwrap();
    for i in 0..archive.len() {
        let file = archive.by_index(i).unwrap();
        assert_eq!(file.compression(), zip::CompressionMethod::Deflated);
    }
}

#[test]
fn markdown_entries_refuse_duplicate_names() {
    let notes = vec![note(3, Some("Same"), "a"), note(3, Some("Same"), "b")];
    let mut w = zip_new();
    assert!(write_markdown_entries(&mut w, &notes).is_err());
}

#[test]
fn markdown_entries_then_finish() {
    let notes = vec![note(4, Some("Four"), "body four")];
    let mut w = zip_new();
    assert!(write_markdown_entries(&mut w, &notes).is_ok());
    let bytes = match finish_archive(w) {
        Ok(b) => b,
        Err(_) => panic!("finish failed"),
    };
    let text = read_entry(&bytes, "4-four.md");
    assert!(text.starts_with("---\nid: 4\ntitle: \"Four\"\n"));
    assert!(text.ends_with("body four"));
}
