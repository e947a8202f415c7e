use council::gateway::{
    build_user_message, collect_stage1_results, collect_stage2_results, interpret_chat_response,
    stage3_from_response, MessagePart,
};
use council::models::{ModelResponse, Usage};
use council::settings::{
    clear_openrouter_api_key, configured_api_key, get_chairman_model, get_council_models,
    set_chairman_model, set_council_models, set_openrouter_api_key, validate_models_request,
    Settings,
};
use council::storage::{
    add_assistant_message, add_user_message, conversation_metadata, get_conversation_path,
    new_conversation, sort_conversations_newest_first, str_lt, update_conversation_title,
};

#[test]
fn gateway_missing_content_and_counters_default() {
    let r = interpret_chat_response(None, true, Some(7), None, Some(9));
    assert_eq!(r.content, "");
    assert_eq!(
        r.usage,
        Some(Usage { prompt_tokens: 7, completion_tokens: 0, total_tokens: 9 })
    );
    let no_usage = interpret_chat_response(Some("hi".to_string()), false, None, None, None);
    assert_eq!(no_usage.content, "hi");
    assert!(no_usage.usage.is_none());
}

#[test]
fn gateway_oversized_counters_keep_low_bits() {
    let r = interpret_chat_response(None, true, Some(0x1_0000_0005), Some(3), Some(8));
    assert_eq!(r.usage.unwrap().prompt_tokens, 5);
}

#[test]
fn gateway_user_message_carries_text_then_images() {
    let file = |name: &str, file_type: &str| council::models::FileAttachment {
        name: name.to_string(),
        file_type: file_type.to_string(),
        size: 0,
        data: format!("data:{};base64,xyz", file_type),
    };
    let files = vec![
        file("a.png", "image/png"),
        file("b.txt", "text/plain"),
        file("c.jpg", "image/jpeg"),
    ];
    let parts = build_user_message("the question".to_string(), Some(&files));
    assert_eq!(parts.len(), 3);
    assert!(matches!(&parts[0], MessagePart::Text(t) if t == "the question"));
    assert!(matches!(&parts[1], MessagePart::ImageUrl(u) if u == "data:image/png;base64,xyz"));
    assert!(matches!(&parts[2], MessagePart::ImageUrl(u) if u == "data:image/jpeg;base64,xyz"));
    let text_only = build_user_message("plain".to_string(), None);
    assert_eq!(text_only.len(), 1);
}

#[test]
fn gateway_stage1_keeps_only_successes_in_order() {
    let responses = vec![
        (
            "m-a".to_string(),
            Some(ModelResponse { content: "alpha".to_string(), usage: None }),
        ),
        ("m-b".to_string(), None),
        (
            "m-c".to_string(),
            Some(ModelResponse { content: "gamma".to_string(), usage: None }),
        ),
    ];
    let results = collect_stage1_results(responses);
    assert_eq!(results.len(), 2);
    assert_eq!(results[0].model, "m-a");
    assert_eq!(results[0].response, "alpha");
    assert_eq!(results[1].model, "m-c");
}

#[test]
fn gateway_stage2_parses_each_verdict() {
    let responses = vec![(
        "m-a".to_string(),
        Some(ModelResponse {
            content: "FINAL RANKING:\n1. Response B\n2. Response A\n".to_string(),
            usage: None,
        }),
    )];
    let results = collect_stage2_results(responses);
    assert_eq!(results.len(), 1);
    assert_eq!(
        results[0].parsed_ranking,
        vec!["Response B".to_string(), "Response A".to_string()]
    );
    assert_eq!(results[0].ranking, "FINAL RANKING:\n1. Response B\n2. Response A\n");
}

#[test]
fn gateway_chairman_failure_degrades_to_sentinel() {
    let chairman = "big-model".to_string();
    let ok = stage3_from_response(
        &chairman,
        Some(ModelResponse { content: "final answer".to_string(), usage: None }),
    );
    assert_eq!(ok.model, "big-model");
    assert_eq!(ok.response, "final answer");
    let degraded = stage3_from_response(&chairman, None);
    assert_eq!(degraded.model, "big-model");
    assert_eq!(degraded.response, "Error: Unable to generate final synthesis.");
    assert!(degraded.usage.is_none());
}

#[test]
fn settings_defaults_apply_when_unset_or_empty() {
    let empty = Settings::default();
    let council = get_council_models(&empty);
    assert_eq!(council.len(), 8);
    assert_eq!(council[0], "openai/gpt-oss-20b:free");
    assert_eq!(get_chairman_model(&empty), "google/gemini-3-pro-preview");
    let blank = Settings {
        openrouter_api_key: None,
        council_models: Some(Vec::new()),
        chairman_model: Some(String::new()),
    };
    assert_eq!(get_council_models(&blank).len(), 8);
    assert_eq!(get_chairman_model(&blank), "google/gemini-3-pro-preview");
}

#[test]
fn settings_configured_values_override_defaults() {
    let mut s = Settings::default();
    set_council_models(&mut s, vec!["one".to_string(), "two".to_string()]);
    set_chairman_model(&mut s, "boss".to_string());
    assert_eq!(get_council_models(&s), vec!["one".to_string(), "two".to_string()]);
    assert_eq!(get_chairman_model(&s), "boss");
}

#[test]
fn settings_api_key_round_trip() {
    let mut s = Settings::default();
    assert!(configured_api_key(&s).is_none());
    set_openrouter_api_key(&mut s, "SECRET-REDACTED".to_string());
    assert_eq!(configured_api_key(&s).unwrap(), "SECRET-REDACTED");
    clear_openrouter_api_key(&mut s);
    assert!(configured_api_key(&s).is_none());
    set_openrouter_api_key(&mut s, String::new());
    assert!(configured_api_key(&s).is_none());
}

#[test]
fn settings_models_request_validation() {
    assert!(validate_models_request(&vec!["m".to_string()], &"c".to_string()));
    assert!(!validate_models_request(&Vec::new(), &"c".to_string()));
    assert!(!validate_models_request(&vec!["m".to_string()], &String::new()));
}

#[test]
fn storage_conversation_path_is_under_the_data_directory() {
    assert_eq!(get_conversation_path("abc-123"), "data/conversations/abc-123.json");
}

#[test]
fn storage_string_order_is_lexicographic() {
    assert!(str_lt("2024-01-01", "2024-01-02"));
    assert!(!str_lt("2024-01-02", "2024-01-01"));
    assert!(!str_lt("same", "same"));
    assert!(str_lt("abc", "abcd"));
    assert!(!str_lt("abcd", "abc"));
}

#[test]
fn storage_listing_sorts_newest_first_and_is_stable() {
    let entry = |id: &str, created: &str| council::models::ConversationMetadata {
        id: id.to_string(),
        created_at: created.to_string(),
        title: String::new(),
        message_count: 0,
    };
    let list = vec![
        entry("old", "2024-01-01T00:00:00Z"),
        entry("new", "2024-03-01T00:00:00Z"),
        entry("mid-a", "2024-02-01T00:00:00Z"),
        entry("mid-b", "2024-02-01T00:00:00Z"),
    ];
    let sorted = sort_conversations_newest_first(list);
    let ids: Vec<&str> = sorted.iter().map(|m| m.id.as_str()).collect();
    assert_eq!(ids, vec!["new", "mid-a", "mid-b", "old"]);
}

#[test]
fn storage_conversation_life_cycle() {
    let mut conv = new_conversation("id-1", "2024-01-01T00:00:00Z".to_string());
    assert_eq!(conv.title, "New Conversation");
    assert!(conv.messages.is_empty());
    add_user_message(&mut conv, "hello".to_string(), None);
    assert_eq!(conv.messages.len(), 1);
    assert_eq!(conv.messages[0].role, "user");
    assert_eq!(conv.messages[0].content.as_deref(), Some("hello"));
    add_assistant_message(
        &mut conv,
        Vec::new(),
        Vec::new(),
        council::models::Stage3Result {
            model: "chair".to_string(),
            response: "answer".to_string(),
            usage: None,
        },
        None,
    );
    assert_eq!(conv.messages.len(), 2);
    assert_eq!(conv.messages[1].role, "assistant");
    update_conversation_title(&mut conv, "Renamed".to_string());
    assert_eq!(conv.title, "Renamed");
    let meta = conversation_metadata(&conv);
    assert_eq!(meta.id, "id-1");
    assert_eq!(meta.message_count, 2);
    assert_eq!(meta.title, "Renamed");
}
