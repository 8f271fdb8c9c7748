use note::db::queries::Note;
use note::routes::audio::{
    approx_date, check_episode_complete, check_has_notes, check_not_transcribing, check_tts_key,
    clean_title, content_range, default_content_mode, default_episode_type, derive_episode_title,
    derive_episode_title_on, episode_title, feed_items, format_duration, parse_range,
    podcast_base_url, range_span, resolve_tts_provider, resolve_tts_voice, title_from_content,
    truncate_title_words, tts_key_var, tts_voice_key, validate_generate_request, FeedEpisode,
    GenerateAudioRequest,
};
use note::routes::notes::AppError;

fn note(title: Option<&str>, content: &str) -> Note {
    Note {
        id: 1,
        content: content.to_string(),
        content_type: "text".to_string(),
        source_type: "web".to_string(),
        source_url: None,
        title: title.map(str::to_string),
        summary: None,
        created_at: "2026-01-01 00:00:00".to_string(),
        updated_at: "2026-01-01 00:00:00".to_string(),
        tags: vec![],
    }
}

fn bad_request_message(r: Result<(), AppError>) -> String {
    match r {
        Err(AppError::BadRequest(m)) => m,
        _ => panic!("expected a refusal"),
    }
}

#[test]
fn derive_episode_title_prefers_existing_note_title() {
    let notes = vec![note(Some("Existing AI Title"), "Raw note content")];

    assert_eq!(derive_episode_title("single", &notes), "Existing AI Title");
}

#[test]
fn derive_episode_title_falls_back_to_note_content() {
    let notes = vec![note(
        None,
        "Quarterly EBITDA update: margin expansion and cash flow notes. More detail here.",
    )];

    assert_eq!(
        derive_episode_title("single", &notes),
        "Quarterly EBITDA update: margin expansion and cash flow notes"
    );
}

#[test]
fn derive_episode_title_treats_blank_note_title_as_missing() {
    let notes = vec![note(Some("   "), "# Product launch checklist\n- Draft copy")];

    assert_eq!(
        derive_episode_title("single", &notes),
        "Product launch checklist"
    );
}

#[test]
fn derive_batch_episode_title_uses_content_fallback_for_first_note() {
    let notes = vec![
        note(None, "First useful note. Body"),
        note(Some("Second"), "Second body"),
    ];

    assert_eq!(
        derive_episode_title("batch", &notes),
        "First useful note + 1 more"
    );
}

#[test]
fn clean_title_rejects_blank_request_titles() {
    assert_eq!(clean_title("  \t  "), None);
    assert_eq!(
        clean_title("  Custom Episode  "),
        Some("Custom Episode".to_string())
    );
}

#[test]
fn defaults_of_generate_requests() {
    assert_eq!(default_episode_type(), "single");
    assert_eq!(default_content_mode(), "full");
}

#[test]
fn format_duration_with_and_without_hours() {
    assert_eq!(format_duration(0), "0:00");
    assert_eq!(format_duration(65), "1:05");
    assert_eq!(format_duration(3600), "1:00:00");
    assert_eq!(format_duration(3725), "1:02:05");
}

#[test]
fn approx_date_uses_thirty_day_months() {
    assert_eq!(approx_date(0), "1970-01-01");
    // 400 days: year 1971, day 35 of it: month 2, day 6.
    assert_eq!(approx_date(400 * 86400), "1971-02-06");
}

#[test]
fn digest_and_empty_titles() {
    assert_eq!(
        derive_episode_title_on("digest", &[], "2026-03-04"),
        "2026-03-04 Daily Digest"
    );
    assert_eq!(derive_episode_title_on("single", &[], ""), "Untitled Note");
    assert_eq!(derive_episode_title_on("batch", &[], ""), "Notes + 0 more");
    let digest = derive_episode_title("digest", &[]);
    assert!(digest.ends_with(" Daily Digest"));
}

#[test]
fn title_from_content_skips_pending_marker_and_cuts_words() {
    assert_eq!(
        title_from_content("\n  [Voice memo - transcribing...]\n* - Buy milk! now"),
        Some("Buy milk".to_string())
    );
    assert_eq!(title_from_content("   \n\t"), None);
    assert_eq!(
        truncate_title_words("one two  three\tfour", 3),
        "one two three"
    );
    assert_eq!(
        title_from_content("a b c d e f g h i j k l m"),
        Some("a b c d e f g h i j".to_string())
    );
}

#[test]
fn requested_title_wins_over_derived_one() {
    let notes = vec![note(Some("From note"), "x")];
    assert_eq!(
        episode_title(&Some("  Mine ".to_string()), "single", &notes),
        "Mine"
    );
    assert_eq!(episode_title(&Some("  ".to_string()), "single", &notes), "From note");
    assert_eq!(episode_title(&None, "single", &notes), "From note");
}

fn request(ids: Vec<i64>, episode_type: &str, content_mode: &str) -> GenerateAudioRequest {
    GenerateAudioRequest {
        note_ids: ids,
        episode_type: episode_type.to_string(),
        content_mode: content_mode.to_string(),
        title: None,
    }
}

#[test]
fn generate_request_validation_messages() {
    assert_eq!(
        bad_request_message(validate_generate_request(&request(vec![], "single", "full"))),
        "note_ids must not be empty"
    );
    assert_eq!(
        bad_request_message(validate_generate_request(&request(vec![1], "weekly", "full"))),
        "episode_type must be 'single', 'batch', or 'digest'"
    );
    assert_eq!(
        bad_request_message(validate_generate_request(&request(vec![1], "batch", "short"))),
        "content_mode must be 'full' or 'summary'"
    );
    assert_eq!(
        bad_request_message(validate_generate_request(&request(vec![1, 2], "single", "full"))),
        "single episode_type requires exactly 1 note_id"
    );
    assert!(validate_generate_request(&request(vec![], "digest", "summary")).is_ok());
    assert!(validate_generate_request(&request(vec![1, 2], "batch", "full")).is_ok());
    assert_eq!(bad_request_message(check_has_notes(&vec![])), "No notes found to convert");
    assert!(check_has_notes(&vec![3]).is_ok());
}

#[test]
fn pending_notes_are_refused_by_id() {
    let mut pending = note(None, "[Voice memo - transcribing...]");
    pending.id = 9;
    let notes = vec![note(None, "fine"), pending];
    assert_eq!(
        bad_request_message(check_not_transcribing(&notes)),
        "Note 9 is still being transcribed"
    );
    assert!(check_not_transcribing(&[note(None, "fine")]).is_ok());
}

#[test]
fn tts_settings_and_keys() {
    assert_eq!(resolve_tts_provider(None), "openai");
    assert_eq!(resolve_tts_provider(Some("gemini".to_string())), "gemini");
    assert_eq!(tts_voice_key("gemini"), "tts_voice_gemini");
    assert_eq!(resolve_tts_voice("gemini", None), "Kore");
    assert_eq!(resolve_tts_voice("elevenlabs", None), "N2lVS1wzUtoSnaSjtS9X");
    assert_eq!(resolve_tts_voice("other", None), "alloy");
    assert_eq!(resolve_tts_voice("gemini", Some("Puck".to_string())), "Puck");
    assert_eq!(tts_key_var("openai"), Some("OPENAI_API_KEY"));
    assert_eq!(tts_key_var("local"), None);
    assert_eq!(
        bad_request_message(check_tts_key("gemini", "")),
        "Gemini API key is not configured. Add GEMINI_API_KEY to enable TTS."
    );
    assert!(check_tts_key("gemini", "k").is_ok());
    assert!(check_tts_key("local", "").is_ok());
}

#[test]
fn episode_must_be_complete_to_serve() {
    assert!(check_episode_complete(3, "complete").is_ok());
    assert_eq!(
        bad_request_message(check_episode_complete(3, "pending")),
        "Episode 3 is not complete (status: pending)"
    );
}

#[test]
fn range_headers() {
    assert_eq!(parse_range("bytes=0-99", 1000), Some((0, 99)));
    assert_eq!(parse_range("bytes=100-", 1000), Some((100, 999)));
    assert_eq!(parse_range("bytes=5", 1000), Some((5, 999)));
    assert_eq!(parse_range("bytes=+7-x", 1000), Some((7, 999)));
    assert_eq!(parse_range("bytes=-5", 1000), None);
    assert_eq!(parse_range("items=0-1", 1000), None);
    assert_eq!(range_span(100, 5000, 1000), (999, 900));
    assert_eq!(range_span(0, 9, 1000), (9, 10));
    assert_eq!(content_range(0, 9, 1000), "bytes 0-9/1000");
}

#[test]
fn podcast_feed_items() {
    assert_eq!(podcast_base_url(None, None), "http://localhost:8999");
    assert_eq!(podcast_base_url(None, Some("1234".to_string())), "http://localhost:1234");
    assert_eq!(
        podcast_base_url(Some("https://n.example".to_string()), None),
        "https://n.example"
    );
    let eps = vec![
        FeedEpisode {
            id: 5,
            title: "Five".to_string(),
            episode_type: "single".to_string(),
            status: "complete".to_string(),
            file_size_bytes: Some(2048),
            duration_secs: Some(125),
            created_at: "2026-01-02".to_string(),
        },
        FeedEpisode {
            id: 4,
            title: "Four".to_string(),
            episode_type: "batch".to_string(),
            status: "failed".to_string(),
            file_size_bytes: None,
            duration_secs: None,
            created_at: "2026-01-01".to_string(),
        },
        FeedEpisode {
            id: 3,
            title: "Three".to_string(),
            episode_type: "digest".to_string(),
            status: "complete".to_string(),
            file_size_bytes: None,
            duration_secs: None,
            created_at: "2025-12-31".to_string(),
        },
    ];
    let items = feed_items("http://h", eps);
    assert_eq!(items.len(), 2);
    assert_eq!(items[0].title, "Five");
    assert_eq!(items[0].description, "single episode");
    assert_eq!(items[0].enclosure_url, "http://h/api/audio/5/file");
    assert_eq!(items[0].enclosure_length, "2048");
    assert_eq!(items[0].guid, "nixonnote-episode-5");
    assert_eq!(items[0].duration, Some("2:05".to_string()));
    assert_eq!(items[0].episode, "1");
    assert_eq!(items[1].title, "Three");
    assert_eq!(items[1].enclosure_length, "0");
    assert_eq!(items[1].duration, None);
    assert_eq!(items[1].episode, "2");
}
