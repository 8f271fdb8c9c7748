use note::routes::ingest::{
    already_clipped, article_blocks_to_markdown, bookmark_content, clean_clipped_markdown,
    clip_content, clip_tags, extract_video_id, fallback_video_title, fetch_failed,
    format_tweet_date, fxtwitter_api_url, is_link_farm_block, is_list_like_link_line,
    is_reference_heading, is_twitter_url, not_readable, parse_vtt, remove_trailing_link_farm,
    remove_trailing_reference_section, strip_vtt_tags, summarize_error, summary_prompt,
    truncate_text, tweet_note, tweet_tags, url_domain, validate_clip_url, word_count,
    youtube_content, AppError, Bookmark, FxArticleBlock, TweetView,
};

fn refusal(e: AppError) -> String {
    match e {
        AppError::BadRequest(m) => m,
        AppError::Internal(_) => panic!("expected a refusal"),
    }
}

#[test]
fn test_extract_video_id_standard_url() {
    let id = extract_video_id("https://www.youtube.com/watch?v=dQw4w9WgXcQ").unwrap();
    assert_eq!(id, "dQw4w9WgXcQ");
}

#[test]
fn test_extract_video_id_short_url() {
    let id = extract_video_id("https://youtu.be/dQw4w9WgXcQ").unwrap();
    assert_eq!(id, "dQw4w9WgXcQ");
}

#[test]
fn test_extract_video_id_short_url_with_params() {
    let id = extract_video_id("https://youtu.be/dQw4w9WgXcQ?t=42").unwrap();
    assert_eq!(id, "dQw4w9WgXcQ");
}

#[test]
fn test_extract_video_id_embed_url() {
    let id = extract_video_id("https://www.youtube.com/embed/dQw4w9WgXcQ").unwrap();
    assert_eq!(id, "dQw4w9WgXcQ");
}

#[test]
fn test_extract_video_id_mobile_url() {
    let id = extract_video_id("https://m.youtube.com/watch?v=dQw4w9WgXcQ").unwrap();
    assert_eq!(id, "dQw4w9WgXcQ");
}

#[test]
fn test_extract_video_id_with_extra_params() {
    let id = extract_video_id(
        "https://www.youtube.com/watch?v=dQw4w9WgXcQ&list=PLrAXtmErZgOeiKm4sgNOknGvNjby9efdf",
    )
    .unwrap();
    assert_eq!(id, "dQw4w9WgXcQ");
}

#[test]
fn test_extract_video_id_invalid_url() {
    let result = extract_video_id("https://example.com/article");
    assert!(result.is_err());
}

#[test]
fn test_extract_video_id_no_v_param() {
    let result = extract_video_id("https://www.youtube.com/watch?list=PLrAXtmErZg");
    assert!(result.is_err());
}

#[test]
fn extract_video_id_refusal_message_and_param_order() {
    match extract_video_id("https://example.com/article") {
        Err(e) => assert_eq!(refusal(e), "Could not extract video ID from URL"),
        Ok(_) => panic!("no id expected"),
    }
    assert_eq!(
        extract_video_id("https://www.youtube.com/watch?list=L&v=abc").unwrap(),
        "abc"
    );
    assert_eq!(
        extract_video_id("https://x.example/embed/zz?x=1").unwrap(),
        "zz"
    );
}

#[test]
fn test_clean_clipped_markdown_removes_works_cited_section() {
    let markdown = r#"Main argument paragraph.

## Works cited

1. [plastic-labs/honcho: Memory library](https://github.com/plastic-labs/honcho), accessed May 14, 2026
2. [Honcho Overview](https://docs.honcho.dev/), accessed May 14, 2026
"#;

    let cleaned = clean_clipped_markdown(markdown);

    assert!(cleaned.contains("Main argument paragraph."));
    assert!(!cleaned.contains("Works cited"));
    assert!(!cleaned.contains("plastic-labs/honcho"));
}

#[test]
fn test_clean_clipped_markdown_removes_trailing_link_farm() {
    let markdown = r#"Useful clipped article content.

1. [GitHub repo](https://github.com/example/repo)
2. [API docs](https://example.com/api)
3. [Related paper](https://arxiv.org/abs/1234.5678)
4. [Project page](https://example.com/project)
"#;

    let cleaned = clean_clipped_markdown(markdown);

    assert_eq!(cleaned, "Useful clipped article content.");
}

#[test]
fn test_clean_clipped_markdown_preserves_small_inline_links() {
    let markdown = "Read the [official docs](https://example.com) before deploying.\n\nThis is still useful.";

    let cleaned = clean_clipped_markdown(markdown);

    assert_eq!(cleaned, markdown);
}

#[test]
fn reference_headings_and_link_lines() {
    assert!(is_reference_heading("## References:"));
    assert!(is_reference_heading("  # External Links-"));
    assert!(!is_reference_heading("  # External Links -"));
    assert!(!is_reference_heading("## Referenced work"));
    assert!(is_list_like_link_line("  - [a](b)"));
    assert!(is_list_like_link_line("3 see https://x.y"));
    assert!(!is_list_like_link_line("plain https://x.y"));
    assert!(!is_list_like_link_line("- no link"));
    assert!(is_link_farm_block("- [a](b)\n\n- [c](d)\n- http://e\nnote"));
    assert!(!is_link_farm_block("- [a](b)\n- [c](d)"));
    assert!(!is_link_farm_block("- [a](b)\n- [c](d)\n- [e](f)\nx\ny\nz\nw"));
}

#[test]
fn removing_sections_and_farms() {
    assert_eq!(
        remove_trailing_reference_section("Text.\nMore.  \n# Sources\n- a"),
        "Text.\nMore."
    );
    assert_eq!(remove_trailing_reference_section("No refs\n"), "No refs\n");
    assert_eq!(
        remove_trailing_link_farm("Keep.\n\n- [a](b)\n- [c](d)\n- [e](f)\n"),
        "Keep."
    );
    assert_eq!(remove_trailing_link_farm("Only text.  "), "Only text.");
}

#[test]
fn test_parse_vtt_basic() {
    let vtt = r#"WEBVTT
Kind: captions
Language: en

00:00:00.000 --> 00:00:02.500
Hello world

00:00:02.500 --> 00:00:05.000
This is a test
"#;
    let result = parse_vtt(vtt);
    assert_eq!(result, "Hello world This is a test");
}

#[test]
fn test_parse_vtt_deduplicates() {
    let vtt = r#"WEBVTT

00:00:00.000 --> 00:00:02.000
Hello world

00:00:01.000 --> 00:00:03.000
Hello world

00:00:02.000 --> 00:00:04.000
Something new
"#;
    let result = parse_vtt(vtt);
    assert_eq!(result, "Hello world Something new");
}

#[test]
fn test_parse_vtt_strips_tags() {
    let vtt = r#"WEBVTT

00:00:00.000 --> 00:00:02.000
<c.colorE5E5E5>Hello</c> <c.colorCCCCCC>world</c>

00:00:02.000 --> 00:00:04.000
<b>Bold text</b>
"#;
    let result = parse_vtt(vtt);
    assert_eq!(result, "Hello world Bold text");
}

#[test]
fn test_parse_vtt_empty() {
    assert_eq!(parse_vtt("WEBVTT\n\n"), "");
}

#[test]
fn test_parse_vtt_real_auto_generated() {
    let vtt = r#"WEBVTT
Kind: captions
Language: en

00:00:00.030 --> 00:00:02.460 align:start position:0%
welcome<00:00:00.510> to<00:00:00.870> the<00:00:01.199> channel

00:00:02.460 --> 00:00:04.910 align:start position:0%
welcome to the channel
today<00:00:02.790> we<00:00:03.060> are<00:00:03.300> going<00:00:03.570> to

00:00:04.910 --> 00:00:07.000 align:start position:0%
today we are going to
talk<00:00:05.220> about<00:00:05.520> Rust
"#;
    let result = parse_vtt(vtt);
    assert_eq!(
        result,
        "welcome to the channel today we are going to talk about Rust"
    );
}

#[test]
fn parse_vtt_drops_notes_and_bare_timestamps() {
    let vtt = "WEBVTT\nNOTE hidden\n1\n00:00:01.000\nshown\n12345678901234567890123\n";
    assert_eq!(parse_vtt(vtt), "shown 12345678901234567890123");
}

#[test]
fn test_strip_vtt_tags() {
    assert_eq!(strip_vtt_tags("<c.colorE5E5E5>Hello</c>"), "Hello");
    assert_eq!(strip_vtt_tags("<b>Bold</b> text"), "Bold text");
    assert_eq!(strip_vtt_tags("No tags here"), "No tags here");
    assert_eq!(
        strip_vtt_tags("welcome<00:00:00.510> to<00:00:00.870> the"),
        "welcome to the"
    );
}

#[test]
fn test_is_twitter_url_x_com() {
    assert!(is_twitter_url("https://x.com/user/status/1234567890"));
    assert!(is_twitter_url(
        "https://x.com/Vtrivedy10/status/2023805578561060992"
    ));
}

#[test]
fn test_is_twitter_url_twitter_com() {
    assert!(is_twitter_url("https://twitter.com/user/status/1234567890"));
}

#[test]
fn test_is_twitter_url_case_insensitive() {
    assert!(is_twitter_url("https://X.COM/user/status/123"));
    assert!(is_twitter_url("https://Twitter.com/user/status/123"));
}

#[test]
fn test_is_twitter_url_rejects_non_tweet() {
    assert!(!is_twitter_url("https://x.com/user"));
    assert!(!is_twitter_url("https://example.com/status/123"));
    assert!(!is_twitter_url("https://youtube.com/watch?v=abc"));
}

#[test]
fn test_format_tweet_date_old_format() {
    assert_eq!(
        format_tweet_date("Wed Oct 09 14:30:00 +0000 2024"),
        "Oct 09 2024"
    );
}

#[test]
fn test_format_tweet_date_iso_format() {
    assert_eq!(format_tweet_date("2026-02-17T17:03:45.000Z"), "Feb 17 2026");
}

#[test]
fn test_format_tweet_date_fxtwitter_format() {
    assert_eq!(
        format_tweet_date("Tue Feb 17 17:03:45 +0000 2026"),
        "Feb 17 2026"
    );
}

#[test]
fn format_tweet_date_other_shapes() {
    assert_eq!(format_tweet_date("yesterday"), "yesterday");
    assert_eq!(format_tweet_date("2026-13-01T00:00"), "13 01 2026");
}

#[test]
fn test_truncate_text() {
    assert_eq!(truncate_text("short", 80), "short");
    let long = "a".repeat(100);
    let result = truncate_text(&long, 80);
    assert!(result.len() <= 84);
    assert!(result.ends_with("..."));
}

#[test]
fn truncate_text_trims_before_ellipsis() {
    assert_eq!(truncate_text("abc   def", 5), "abc...");
    assert_eq!(truncate_text("éééé", 3), "ééé...");
}

#[test]
fn truncate_text_counts_characters() {
    let text = "é".repeat(50);
    assert_eq!(truncate_text(&text, 80), text);
    assert_eq!(truncate_text(&"é".repeat(81), 80), format!("{}...", "é".repeat(80)));
}

#[test]
fn twitter_url_needs_a_twitter_host() {
    assert!(!is_twitter_url("https://netflix.com/title/status/1"));
    assert!(!is_twitter_url("https://notx.com/user/status/1"));
    assert!(is_twitter_url("http://twitter.com/a/status/9"));
}

#[test]
fn twitter_url_allows_subdomains_and_ports() {
    assert!(is_twitter_url("https://www.x.com/user/status/1"));
    assert!(is_twitter_url("https://mobile.twitter.com/user/status/1"));
    assert!(is_twitter_url("https://x.com:443/user/status/1"));
    assert!(is_twitter_url("https://Mobile.Twitter.com:8443/user/status/1"));
    assert!(!is_twitter_url("https://x.com.evil.org/user/status/1"));
    assert!(!is_twitter_url("https://www.x.com/user"));
}

#[test]
fn test_article_blocks_to_markdown_basic() {
    let blocks = vec![
        FxArticleBlock {
            text: Some("Introduction text".to_string()),
            block_type: Some("unstyled".to_string()),
        },
        FxArticleBlock {
            text: Some("Section Title".to_string()),
            block_type: Some("header-one".to_string()),
        },
        FxArticleBlock {
            text: Some("Body paragraph".to_string()),
            block_type: Some("unstyled".to_string()),
        },
    ];
    let result = article_blocks_to_markdown(&blocks);
    assert!(result.contains("Introduction text"));
    assert!(result.contains("## Section Title"));
    assert!(result.contains("Body paragraph"));
}

#[test]
fn test_article_blocks_to_markdown_lists() {
    let blocks = vec![
        FxArticleBlock {
            text: Some("First item".to_string()),
            block_type: Some("ordered-list-item".to_string()),
        },
        FxArticleBlock {
            text: Some("Second item".to_string()),
            block_type: Some("ordered-list-item".to_string()),
        },
        FxArticleBlock {
            text: Some("Bullet".to_string()),
            block_type: Some("unordered-list-item".to_string()),
        },
    ];
    let result = article_blocks_to_markdown(&blocks);
    assert!(result.contains("1. First item"));
    assert!(result.contains("1. Second item"));
    assert!(result.contains("- Bullet"));
}

#[test]
fn test_article_blocks_to_markdown_skips_atomic() {
    let blocks = vec![
        FxArticleBlock {
            text: Some("Before".to_string()),
            block_type: Some("unstyled".to_string()),
        },
        FxArticleBlock {
            text: Some(" ".to_string()),
            block_type: Some("atomic".to_string()),
        },
        FxArticleBlock {
            text: Some("After".to_string()),
            block_type: Some("unstyled".to_string()),
        },
    ];
    let result = article_blocks_to_markdown(&blocks);
    assert!(result.contains("Before"));
    assert!(result.contains("After"));
    assert!(!result.contains("atomic"));
}

#[test]
fn article_markdown_exact_text() {
    let blocks = vec![
        FxArticleBlock { text: Some("T".to_string()), block_type: Some("header-two".to_string()) },
        FxArticleBlock { text: None, block_type: None },
        FxArticleBlock { text: Some("q".to_string()), block_type: Some("blockquote".to_string()) },
    ];
    assert_eq!(article_blocks_to_markdown(&blocks), "### T\n\n> q\n");
}

#[test]
fn bookmark_and_video_notes() {
    let b = Bookmark {
        title: "Rust".to_string(),
        url: "https://www.rust-lang.org".to_string(),
        notes: Some("Official site".to_string()),
        tags: None,
    };
    assert_eq!(bookmark_content(&b), "Rust\n\nOfficial site");
    assert_eq!(fallback_video_title("abc"), "YouTube Video abc");
    assert_eq!(
        summary_prompt("T", "words"),
        "Please provide a concise summary of this YouTube video transcript.\n\nVideo Title: T\n\nTranscript:\nwords"
    );
    assert_eq!(
        youtube_content("T", &Some("S".to_string()), true, false, "u"),
        "# T\n\n## Summary\n\nS\n\n## Video\n\nu"
    );
    assert_eq!(
        youtube_content("T", &None, false, false, "u"),
        "# T\n\n*No transcript available for this video.*\n\n## Video\n\nu"
    );
    assert_eq!(
        youtube_content("T", &None, true, true, "u"),
        "# T\n\n*Transcript available but summarization failed. Check server logs for details.*\n\n## Video\n\nu"
    );
    assert_eq!(
        refusal(summarize_error("400 Bad Request", "nope")),
        "Gemini summarization failed (400 Bad Request): nope"
    );
}

#[test]
fn clipping_decisions_and_content() {
    assert!(validate_clip_url("https://a.b").is_ok());
    match validate_clip_url("not-a-valid-url") {
        Err(e) => assert_eq!(refusal(e), "URL must start with http:// or https://"),
        Ok(_) => panic!("refusal expected"),
    }
    assert_eq!(refusal(already_clipped(12)), "Article already clipped as note 12");
    assert_eq!(refusal(fetch_failed(404, Some("Not Found"))), "Failed to fetch article: 404 Not Found");
    assert_eq!(refusal(fetch_failed(599, None)), "Failed to fetch article: 599 Unknown");
    assert_eq!(refusal(not_readable()), "Page does not appear to contain a readable article");
    assert_eq!(url_domain("https://example.com/a/b"), "example.com");
    assert_eq!(url_domain("no-scheme"), "no-scheme");
    assert_eq!(
        clip_content("Title", "https://ex.com/p", &Some("Ann".to_string()), &None, "  body  "),
        "# Title\n\n> Clipped from [ex.com](https://ex.com/p)\n> By Ann\n\n---\n\nbody"
    );
    assert_eq!(word_count(" a b\n c "), 3);
    assert_eq!(clip_tags(None), vec!["web-clip".to_string()]);
    assert_eq!(clip_tags(Some(vec!["x".to_string()])), vec!["x".to_string()]);
}

#[test]
fn tweet_notes() {
    assert_eq!(
        fxtwitter_api_url("https://x.com/u/status/1"),
        "https://api.fxtwitter.com/u/status/1"
    );
    let t = TweetView {
        text: Some("Hello".to_string()),
        author_name: Some("Ann".to_string()),
        screen_name: Some("ann".to_string()),
        created_at: Some("2026-02-17T17:03:45.000Z".to_string()),
        likes: Some(3),
        replies: None,
        retweets: Some(1),
        article_title: None,
        article_blocks: None,
        photo_urls: Some(vec![Some("p.jpg".to_string()), None]),
    };
    let n = tweet_note(&t, "https://x.com/ann/status/9");
    assert_eq!(
        n.content,
        "# Ann (@ann)\n\n> Hello\n\n— [@ann](https://x.com/ann) · Feb 17 2026 · 3 likes · 1 retweets · [View on X](https://x.com/ann/status/9)\n\n![](p.jpg)\n"
    );
    assert_eq!(n.title, "@ann: Hello");
    assert_eq!(n.word_count, n.content.split_whitespace().count());
    assert_eq!(
        tweet_tags(Some(vec!["a".to_string()])),
        vec!["a".to_string(), "tweet".to_string()]
    );
    assert_eq!(tweet_tags(Some(vec!["tweet".to_string()])), vec!["tweet".to_string()]);
    assert_eq!(tweet_tags(None), vec!["tweet".to_string()]);
}
