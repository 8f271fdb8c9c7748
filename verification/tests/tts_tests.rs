use note::background::tts::{
    audio_output_filename, chunk_file_name, chunk_text, classify_api_error, split_on_clauses,
    split_sentences, try_chunk_text, TtsProvider,
};

#[test]
fn provider_from_setting_supports_elevenlabs() {
    assert!(matches!(
        TtsProvider::from_setting("elevenlabs"),
        TtsProvider::ElevenLabs
    ));
}

#[test]
fn default_voice_for_elevenlabs_is_financial_strategist() {
    assert_eq!(
        TtsProvider::ElevenLabs.default_voice(),
        "N2lVS1wzUtoSnaSjtS9X"
    );
}

#[test]
fn elevenlabs_uses_larger_chunk_limit() {
    assert_eq!(TtsProvider::ElevenLabs.chunk_limit(), 5000);
}

#[test]
fn audio_output_filename_uses_descriptive_kebab_case_title_and_id() {
    assert_eq!(
        audio_output_filename("Q4 Market Analysis: EBITDA & QE", 42),
        "q4-market-analysis-ebitda-qe-42.mp3"
    );
}

#[test]
fn audio_output_filename_falls_back_to_episode_id_when_title_has_no_words() {
    assert_eq!(audio_output_filename("!!!", 42), "episode-42.mp3");
}

#[test]
fn audio_output_filename_truncates_long_titles_without_trailing_dash() {
    let filename = audio_output_filename(&"market ".repeat(30), 42);

    assert!(filename.ends_with("-42.mp3"));
    assert!(!filename.contains("--"));
    assert!(filename.len() <= 96);
}

#[test]
fn chunk_text_short() {
    let chunks = chunk_text("Hello world.", 4096);
    assert_eq!(chunks.len(), 1);
    assert_eq!(chunks[0], "Hello world.");
}

#[test]
fn chunk_text_splits_on_sentences() {
    let text = "First sentence. Second sentence. Third sentence.";
    let chunks = chunk_text(text, 30);
    assert!(chunks.len() >= 2);
    for chunk in &chunks {
        assert!(chunk.len() <= 30, "Chunk too long: {} chars", chunk.len());
    }
}

#[test]
fn chunk_text_empty() {
    let chunks = chunk_text("", 4096);
    assert_eq!(chunks.len(), 1);
}

#[test]
fn chunk_text_exactly_at_limit() {
    let text = "a".repeat(4096);
    let chunks = chunk_text(&text, 4096);
    assert_eq!(chunks.len(), 1);
}

#[test]
fn chunk_text_long_single_sentence() {
    let text = "a".repeat(8192);
    let chunks = chunk_text(&text, 4096);
    assert!(chunks.len() >= 2);
    for chunk in &chunks {
        assert!(chunk.len() <= 4096);
    }
}

#[test]
fn chunk_text_exactly_at_limit_preserves_content() {
    let text = "a".repeat(4096);
    let chunks = chunk_text(&text, 4096);
    assert_eq!(chunks.len(), 1);
    assert_eq!(chunks[0].len(), 4096);
    assert_eq!(chunks[0], text);
}

#[test]
fn chunk_text_with_exclamation_marks() {
    let text = "Wow! Amazing! Great work.";
    let chunks = chunk_text(text, 10);
    assert!(
        chunks.len() >= 2,
        "Exclamation marks should split sentences"
    );
}

#[test]
fn chunk_text_trailing_content_without_period() {
    let text = "First sentence. Some trailing content without period";
    let chunks = chunk_text(text, 30);
    let all_text: String = chunks.join("");
    assert!(
        all_text.contains("trailing"),
        "Trailing content must not be lost"
    );
}

#[test]
fn chunk_text_no_content_lost() {
    let text = "One sentence. Two sentence. Three sentence. Four sentence.";
    let chunks = chunk_text(text, 20);
    let reassembled: String = chunks.join("");
    for word in ["One", "Two", "Three", "Four"] {
        assert!(reassembled.contains(word), "Lost word: {}", word);
    }
}

#[test]
fn chunk_text_clause_splitting() {
    let text = format!(
        "{},{},{},{}.",
        "a".repeat(30),
        "b".repeat(30),
        "c".repeat(30),
        "d".repeat(30)
    );
    let chunks = chunk_text(&text, 40);
    assert!(chunks.len() >= 2);
    for chunk in &chunks {
        assert!(
            chunk.len() <= 40,
            "Chunk exceeded limit: {} chars",
            chunk.len()
        );
    }
}

#[test]
fn provider_defaults_and_limits() {
    assert!(matches!(TtsProvider::from_setting("gemini"), TtsProvider::Gemini));
    assert!(matches!(TtsProvider::from_setting("anything"), TtsProvider::OpenAi));
    assert_eq!(TtsProvider::OpenAi.default_voice(), "alloy");
    assert_eq!(TtsProvider::Gemini.default_voice(), "Kore");
    assert_eq!(TtsProvider::OpenAi.chunk_limit(), 4096);
    assert_eq!(TtsProvider::Gemini.chunk_limit(), 4096);
}

#[test]
fn split_sentences_keeps_terminators_and_tail() {
    assert_eq!(
        split_sentences("Hi. Yes! Ok? tail"),
        vec!["Hi.", " Yes!", " Ok?", " tail"]
    );
    assert!(split_sentences("").is_empty());
}

#[test]
fn split_on_clauses_packs_and_hard_splits() {
    assert_eq!(split_on_clauses("aaaa,bbbb,cc", 6), vec!["aaaa,", "bbbb,", "cc"]);
    assert_eq!(split_on_clauses("abcdefgh", 3), vec!["abc", "def", "gh"]);
}

#[test]
fn try_chunk_text_refuses_cut_inside_a_character() {
    // Three-byte characters cannot be cut every 4 bytes.
    let text = "€€€€€€";
    assert!(try_chunk_text(text, 4).is_none());
    assert_eq!(try_chunk_text("ab. cd.", 100).unwrap(), vec!["ab. cd."]);
}

#[test]
fn classify_api_error_messages() {
    assert_eq!(
        classify_api_error("OpenAI", 401, ""),
        "OpenAI API key is invalid or expired. Check your API key configuration."
    );
    assert_eq!(
        classify_api_error("Gemini", 402, ""),
        "Gemini account has no credits remaining. Add billing to your Gemini account."
    );
    assert_eq!(
        classify_api_error("ElevenLabs", 429, ""),
        "ElevenLabs rate limit exceeded. Try again in a few minutes."
    );
    assert_eq!(
        classify_api_error("OpenAI", 500, "boom"),
        "OpenAI TTS failed (500): boom"
    );
}

#[test]
fn chunk_file_names_drop_mp3_endings() {
    assert_eq!(chunk_file_name("talk-7.mp3", 2), "talk-7-chunk-2.mp3");
    assert_eq!(chunk_file_name("a.mp3.mp3", 0), "a-chunk-0.mp3");
}

#[test]
fn chunk_text_long_text_has_no_empty_chunk() {
    let text = format!("a.{}", " ".repeat(100));
    assert_eq!(chunk_text(&text, 50), vec!["a.".to_string()]);
    let text = "One. Two!   Three?    ".repeat(10);
    let chunks = chunk_text(&text, 12);
    assert!(!chunks.is_empty());
    for c in &chunks {
        assert!(!c.is_empty());
        assert!(c.len() <= 12);
    }
    assert_eq!(chunk_text("", 10), vec![String::new()]);
    assert_eq!(chunk_text("   ", 10), vec!["   ".to_string()]);
}
