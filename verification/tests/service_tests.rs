use note::auth_allows;
use note::background::auto_org::{
    api_error_message, has_ai_tag, organize_prompt, organize_result, AnswerBlock,
};
use note::background::embed::{embed_text, embedding_len_error};
use note::background::tts::{episode_voice, plan_episode_chunks, TtsProvider};
use note::db::queries::{
    embedding_dims_error, fts_query, names_for, placeholders, populate_tags, query_dims_error,
    values_for, Note,
};
use note::mcp::{cli_command, created_message, result_content, saved_message, CliCommand};
use note::routes::chat::{
    answer_prompt, build_context, default_limit, preview_content, source_note, sources_of,
    validate_message,
    LlmProvider,
};
use note::routes::chat_stream::{
    output_data, start_data, stream_error_message, stream_id, text_start_data, translate_event,
    StreamOutput,
};
use note::routes::notes::{
    filter_notes_by_excluded_tag, interaction_failure, merge_search_ids, notes_mode, random_limit, validate_batch_size,
    validate_content, AppError, NotesMode,
};
use note::routes::status::{keyed_service, server_config, whisper_status};
use note::routes::tags::{tag_notes_response, tag_query};
use note::routes::voice::{is_audio_field, pending_audio_name, voice_note_content, whisper_model_dir};

fn note(id: i64, title: Option<&str>, content: &str, tags: &[&str]) -> Note {
    Note {
        id,
        content: content.to_string(),
        content_type: "text".to_string(),
        source_type: "web".to_string(),
        source_url: None,
        title: title.map(str::to_string),
        summary: None,
        created_at: "2026-01-01 00:00:00".to_string(),
        updated_at: "2026-01-01 00:00:00".to_string(),
        tags: tags.iter().map(|t| t.to_string()).collect(),
    }
}

fn refusal<T>(r: Result<T, AppError>) -> String {
    match r {
        Err(AppError::BadRequest(m)) => m,
        _ => panic!("expected a refusal"),
    }
}

#[test]
fn access_token_checks() {
    assert!(auth_allows("", None));
    assert!(auth_allows("s3cret", Some("Bearer s3cret")));
    assert!(!auth_allows("s3cret", Some("Bearer s3cre")));
    assert!(!auth_allows("s3cret", Some("bearer s3cret")));
    assert!(!auth_allows("s3cret", None));
}

#[test]
fn note_validation() {
    assert_eq!(refusal(validate_content(" \t\n ")), "Content cannot be empty");
    assert!(validate_content("x").is_ok());
    assert_eq!(refusal(validate_batch_size(0)), "Empty notes array");
    assert_eq!(refusal(validate_batch_size(1001)), "Batch size exceeds 1000");
    assert!(validate_batch_size(1000).is_ok());
    assert!(matches!(notes_mode(&None), NotesMode::List));
    assert!(matches!(notes_mode(&Some("   ".to_string())), NotesMode::BlankQuery));
    assert!(matches!(notes_mode(&Some("rust".to_string())), NotesMode::Search));
    assert_eq!(random_limit(20), 5);
    assert_eq!(random_limit(3), 3);
}

#[test]
fn excluded_tag_filter_keeps_order() {
    let notes = vec![
        note(1, None, "a", &["x"]),
        note(2, None, "b", &["y", "hidden"]),
        note(3, None, "c", &[]),
    ];
    let kept = filter_notes_by_excluded_tag(notes, "hidden");
    let ids: Vec<i64> = kept.iter().map(|n| n.id).collect();
    assert_eq!(ids, vec![1, 3]);
}

#[test]
fn hybrid_search_ids_merge() {
    assert_eq!(merge_search_ids(&vec![3, 1, 7], &vec![7, 9, 2], 10), vec![9, 7, 3, 2, 1]);
    assert_eq!(merge_search_ids(&vec![3, 1, 7], &vec![7, 9, 2], 2), vec![9, 7]);
    assert_eq!(merge_search_ids(&vec![], &vec![], 5), Vec::<i64>::new());
    assert_eq!(merge_search_ids(&vec![4, 4], &vec![], -1), vec![4]);
}

#[test]
fn chat_context_and_previews() {
    assert_eq!(default_limit(), 5);
    assert_eq!(LlmProvider::default(), LlmProvider::Gemini);
    assert_eq!(refusal(validate_message("  ")), "Message cannot be empty");
    let mut n = note(4, Some("T"), "Body", &[]);
    n.summary = Some("S".to_string());
    let ctx = build_context(&[n.clone(), note(6, None, "Other", &[])]);
    assert_eq!(
        ctx,
        "Here are the relevant notes:\n\n--- Note 1 (ID: 4) ---\nTitle: T\nSummary: S\nContent: Body\n\n--- Note 2 (ID: 6) ---\nContent: Other\n\n"
    );
    let stream_ctx = note::routes::chat_stream::build_context(&[note(6, None, "Other", &[])]);
    assert_eq!(
        stream_ctx,
        "You have access to these relevant notes from the user's knowledge base:\n\n--- Note 1 (ID: 6) ---\nContent: Other\n\n\nWhen answering, cite note IDs when referencing specific information."
    );
    assert_eq!(
        answer_prompt("C", "Q"),
        "C\n\nUser question: Q\n\nPlease answer the question based on the notes above. Cite note IDs when referencing specific information."
    );
    assert_eq!(preview_content("abcdef", 3), "abc...");
    assert_eq!(preview_content("abc", 3), "abc");
    let s = source_note(&n);
    assert_eq!(s.id, 4);
    assert_eq!(s.title, Some("T".to_string()));
    assert_eq!(s.content_preview, "Body");
}

#[test]
fn chat_sources_follow_the_notes() {
    let long = "x".repeat(200);
    let notes = vec![note(9, Some("A"), &long, &[]), note(3, None, "short", &[])];
    let sources = sources_of(&notes);
    assert_eq!(sources.len(), 2);
    assert_eq!(sources[0].id, 9);
    assert_eq!(sources[0].title, Some("A".to_string()));
    assert_eq!(sources[0].content_preview, format!("{}...", "x".repeat(150)));
    assert_eq!(sources[1].id, 3);
    assert_eq!(sources[1].title, None);
    assert_eq!(sources[1].content_preview, "short");
    assert!(sources_of(&[]).is_empty());
}

#[test]
fn stream_events() {
    assert_eq!(
        stream_error_message(403, "403 Forbidden", ""),
        "Gemini API key is invalid or expired. Check your GEMINI_API_KEY configuration."
    );
    assert_eq!(
        stream_error_message(500, "500 Internal Server Error", "x"),
        "Gemini API error (500 Internal Server Error): x"
    );
    assert_eq!(stream_id("msg_", 1), "msg_1");
    assert_eq!(start_data("msg_1"), "{\"messageId\":\"msg_1\",\"type\":\"start\"}");
    assert_eq!(text_start_data("txt_2"), "{\"id\":\"txt_2\",\"type\":\"text-start\"}");
    let d = translate_event("content.delta", Some("a\"b\n".to_string()), false, "txt_2").unwrap();
    assert_eq!(
        output_data(&d),
        "{\"delta\":\"a\\\"b\\n\",\"id\":\"txt_2\",\"type\":\"text-delta\"}"
    );
    let e = translate_event("interaction.complete", None, true, "txt_2").unwrap();
    assert!(matches!(e, StreamOutput::TextEnd { .. }));
    assert_eq!(output_data(&e), "{\"id\":\"txt_2\",\"type\":\"text-end\"}");
    assert!(translate_event("interaction.complete", None, false, "t").is_none());
    assert!(translate_event("content.delta", None, false, "t").is_none());
    assert!(translate_event("other", Some("x".to_string()), true, "t").is_none());
}

#[test]
fn tag_listing_response() {
    assert_eq!(tag_query("rust"), "tag:rust");
    let r = tag_notes_response(vec![note(1, None, "a", &[])], "rust", 20);
    assert_eq!(r.count, 1);
    assert_eq!(r.query, Some("tag:rust".to_string()));
    assert_eq!(r.limit, 20);
    assert_eq!(r.offset, 0);
}

#[test]
fn status_reports() {
    let s = keyed_service("", "m".to_string());
    assert!(!s.configured && !s.healthy);
    let s = keyed_service("k", "m".to_string());
    assert!(s.configured && s.healthy);
    let w = whisper_status(false, None, None);
    assert_eq!(w.model_size, Some("medium".to_string()));
    assert_eq!(w.model_dir, Some("~/.cache/whisper".to_string()));
    let c = server_config(None, None, Some(String::new()), None);
    assert_eq!(c.port, "8999");
    assert_eq!(c.db_path, "note.db");
    assert!(!c.auth_enabled);
    assert_eq!(c.web_dir, "web/dist");
}

#[test]
fn voice_notes() {
    assert!(is_audio_field("file") && is_audio_field("audio") && !is_audio_field("name"));
    assert_eq!(voice_note_content(None), ("[Voice memo - transcribing...]".to_string(), true));
    assert_eq!(voice_note_content(Some("hi".to_string())), ("hi".to_string(), false));
    assert_eq!(pending_audio_name(12), "12.webm");
    assert_eq!(whisper_model_dir(None, Some("/home/a".to_string())), "/home/a/.cache/whisper");
}

#[test]
fn embedding_text_is_cut_at_a_character_boundary() {
    let mut n = note(1, Some("T"), "C", &[]);
    n.summary = Some("S".to_string());
    assert_eq!(embed_text(&n), "T\n\nC\n\nS");
    let long = note(2, None, &"é".repeat(9000), &[]);
    let t = embed_text(&long);
    assert_eq!(t.chars().count(), 8000);
    assert_eq!(t, format!("\n\n{}", "é".repeat(7998)));
    assert_eq!(embedding_len_error(768), None);
    assert_eq!(
        embedding_len_error(512),
        Some("Expected 768-dim embedding from Ollama, got 512".to_string())
    );
}

#[test]
fn organizing_answers() {
    assert!(has_ai_tag(&vec!["manual".to_string(), "ai".to_string()]));
    assert!(!has_ai_tag(&vec!["manual".to_string()]));
    assert_eq!(organize_prompt("x"), "Organize this note:\n\nx");
    let blocks = vec![
        AnswerBlock { is_tool_use: false, name: String::new(), title: None, summary: None, tags: None },
        AnswerBlock {
            is_tool_use: true,
            name: "organize_note".to_string(),
            title: Some("T".to_string()),
            summary: Some("S".to_string()),
            tags: Some(vec![Some("a".to_string()), None, Some("b".to_string())]),
        },
    ];
    let o = organize_result(&blocks).unwrap();
    assert_eq!(o.title, "T");
    assert_eq!(o.summary, "S");
    assert_eq!(o.tags, vec!["a".to_string(), "b".to_string()]);
    let missing = vec![AnswerBlock {
        is_tool_use: true,
        name: "organize_note".to_string(),
        title: Some("T".to_string()),
        summary: None,
        tags: Some(vec![Some("a".to_string())]),
    }];
    assert!(organize_result(&missing).is_none());
    assert_eq!(api_error_message("Anthropic", "401 Unauthorized", "b"), "Anthropic API error 401 Unauthorized: b");
}

#[test]
fn episode_planning() {
    let notes = vec![
        note(1, Some("One"), "First text.", &[]),
        note(2, None, "[Voice memo - transcribing...]", &[]),
        note(3, None, "Third text.", &[]),
    ];
    let chunks = plan_episode_chunks(&notes, "full", TtsProvider::OpenAi).unwrap();
    assert_eq!(chunks, vec!["First text.".to_string(), "Next note. Third text.".to_string()]);
    assert_eq!(episode_voice(TtsProvider::Gemini, &None), "Kore");
    assert_eq!(episode_voice(TtsProvider::Gemini, &Some("Puck".to_string())), "Puck");
}

#[test]
fn database_text() {
    assert_eq!(fts_query("gpt-m \"x\"  y"), "\"gpt-m\" \"x\" \"y\"");
    assert_eq!(fts_query("   "), "");
    assert_eq!(placeholders(0), "");
    assert_eq!(placeholders(3), "?,?,?");
    let rows = vec![(1, "a".to_string()), (2, "b".to_string()), (1, "c".to_string())];
    assert_eq!(names_for(&rows, 1), vec!["a".to_string(), "c".to_string()]);
    assert_eq!(values_for(&vec![(5, 10), (6, 11), (5, 12)], 5), vec![10, 12]);
    let notes = populate_tags(vec![note(1, None, "x", &[]), note(3, None, "y", &["keep"])], &rows);
    assert_eq!(notes[0].tags, vec!["a".to_string(), "c".to_string()]);
    assert_eq!(notes[1].tags, vec!["keep".to_string()]);
    assert_eq!(embedding_dims_error(768), None);
    assert_eq!(
        embedding_dims_error(3),
        Some("Embedding must be 768 dimensions, got 3".to_string())
    );
    assert_eq!(query_dims_error(768), None);
    assert_eq!(
        query_dims_error(1024),
        Some("Query embedding must be 768 dimensions, got 1024".to_string())
    );
}

#[test]
fn assistant_tools_and_command_line() {
    assert_eq!(result_content("short"), "short");
    assert_eq!(created_message(5), "Note #5 created successfully");
    assert_eq!(saved_message(5), "Saved note #5");
    assert!(matches!(
        cli_command(&vec!["--backfill-audio-titles".to_string()]),
        CliCommand::BackfillAudioTitles
    ));
    assert!(matches!(cli_command(&vec![" ".to_string()]), CliCommand::Usage));
    match cli_command(&vec!["buy".to_string(), "milk".to_string()]) {
        CliCommand::Capture(c) => assert_eq!(c, "buy milk"),
        _ => panic!("capture expected"),
    }
}

#[test]
fn interaction_failure_names_the_failure() {
    let aborted = interaction_failure(&deadpool_sqlite::InteractError::Aborted);
    assert_eq!(aborted.to_string(), "Database interaction error: Aborted");
    let panicked = interaction_failure(&deadpool_sqlite::InteractError::Panic(Box::new(1u8)));
    assert_eq!(panicked.to_string(), "Database interaction error: Panic");
}
