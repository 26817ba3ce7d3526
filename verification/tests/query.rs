use rag_gateway::query::{
    Query, DEFAULT_MODEL, DEFAULT_PAGE_COUNT, MODEL_VARIABLE, PAGES_VARIABLE,
};

#[test]
fn tool_is_given_model_pages_and_question() {
    let query = Query::new("What is 2+2?", "llama3", "1");
    assert_eq!(
        query.environment(),
        vec![
            ("AI_MODEL".to_string(), "llama3".to_string()),
            ("WIKI_PAGES".to_string(), "1".to_string()),
        ]
    );
    assert_eq!(query.stdin_text(), "What is 2+2?\n");
}

#[test]
fn names_and_defaults() {
    assert_eq!(MODEL_VARIABLE, "AI_MODEL");
    assert_eq!(PAGES_VARIABLE, "WIKI_PAGES");
    assert_eq!(DEFAULT_MODEL, "llama3");
    assert_eq!(DEFAULT_PAGE_COUNT, "1");
}

#[test]
fn new_keeps_the_parts_as_given() {
    let query = Query::new("why?", "mistral", "three");
    assert_eq!(
        query,
        Query {
            question: "why?".to_string(),
            model: "mistral".to_string(),
            page_count: "three".to_string(),
        }
    );
}

#[test]
fn form_without_fields_gets_the_defaults() {
    let query = Query::from_form(None, None, None);
    assert_eq!(query, Query::new("", "llama3", "1"));
}

#[test]
fn form_fields_win_over_the_defaults() {
    let query = Query::from_form(Some("why?"), Some("mistral"), Some("5"));
    assert_eq!(query, Query::new("why?", "mistral", "5"));
    let partly = Query::from_form(Some("why?"), None, Some("5"));
    assert_eq!(partly, Query::new("why?", "llama3", "5"));
    let empty = Query::from_form(Some(""), Some(""), Some(""));
    assert_eq!(empty, Query::new("", "", ""));
}

#[test]
fn page_count_is_not_judged() {
    let query = Query::new("q", "m", "not a number");
    assert_eq!(query.environment()[1], ("WIKI_PAGES".to_string(), "not a number".to_string()));
}

#[test]
fn empty_question_is_a_single_line_end() {
    assert_eq!(Query::new("", "m", "1").stdin_text(), "\n");
}

#[test]
fn question_is_written_as_it_is() {
    let query = Query::new("first\nsecond \u{00e9}", "m", "1");
    assert_eq!(query.stdin_text(), "first\nsecond \u{00e9}\n");
}
