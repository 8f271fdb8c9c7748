use note::background::auto_org::missing_fields_message;
use note::db::queries::Note;
use note::routes::chat::LlmProvider;
use note::routes::chat_stream::missing_key_error;
use note::routes::notes::{
    flatten_interact, notes_response, retrieval_step, AppError, NotesMode, Retrieval,
};

fn note(id: i64) -> Note {
    Note {
        id,
        content: "c".to_string(),
        content_type: "text".to_string(),
        source_type: "web".to_string(),
        source_url: None,
        title: None,
        summary: None,
        created_at: "2026-01-01 00:00:00".to_string(),
        updated_at: "2026-01-01 00:00:00".to_string(),
        tags: vec![],
    }
}

#[test]
fn missing_fields_message_names_the_model() {
    let name = format!("{:?}", LlmProvider::Claude);
    assert_eq!(
        missing_fields_message(&name),
        format!("{name} did not return all required fields (title, summary, tags)")
    );
}

#[test]
fn missing_key_error_names_the_variable() {
    match missing_key_error() {
        AppError::Internal(e) => assert_eq!(
            e.to_string(),
            "GEMINI_API_KEY environment variable is not set. Please configure the API key in your LaunchAgent plist."
        ),
        AppError::BadRequest(_) => panic!("expected a server-side error"),
    }
}

#[test]
fn retrieval_falls_back_to_full_text() {
    assert!(matches!(retrieval_step(false, vec![3, 2]), Retrieval::FullText));
    assert!(matches!(retrieval_step(true, vec![]), Retrieval::FullText));
    match retrieval_step(true, vec![9, 4]) {
        Retrieval::Vector(ids) => assert_eq!(ids, vec![9, 4]),
        Retrieval::FullText => panic!("expected vector results"),
    }
}

#[test]
fn notes_answer_counts_by_mode() {
    let listed = notes_response(NotesMode::List, vec![note(1), note(2)], None, 40, 20, 0);
    assert_eq!(listed.count, 40);
    assert!(listed.query.is_none());
    let blank = notes_response(NotesMode::BlankQuery, vec![note(1)], Some(" ".to_string()), 40, 20, 5);
    assert_eq!(blank.count, 1);
    assert!(blank.query.is_none());
    assert_eq!(blank.offset, 5);
    let found = notes_response(NotesMode::Search, vec![note(3)], Some("rust".to_string()), 40, 10, 0);
    assert_eq!(found.count, 1);
    assert_eq!(found.query, Some("rust".to_string()));
    assert_eq!(found.notes[0].id, 3);
}

#[test]
fn flatten_interact_names_the_failure() {
    let failed: Result<Result<i32, anyhow::Error>, deadpool_sqlite::InteractError> =
        Err(deadpool_sqlite::InteractError::Aborted);
    match flatten_interact(failed) {
        Err(e) => assert_eq!(e.to_string(), "Database interaction error: Aborted"),
        Ok(_) => panic!("expected an error"),
    }
    let ran: Result<Result<i32, anyhow::Error>, deadpool_sqlite::InteractError> = Ok(Ok(7));
    assert_eq!(flatten_interact(ran).unwrap(), 7);
}
