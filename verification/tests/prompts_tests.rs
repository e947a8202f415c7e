use council::models::{FileAttachment, Stage1Result, Stage2Result};
use council::prompts::{
    build_chairman_prompt, build_ranking_prompt, build_title_prompt, clean_title, compose_query,
    extract_text_from_files,
};

fn attachment(name: &str, file_type: &str, data: &str) -> FileAttachment {
    FileAttachment {
        name: name.to_string(),
        file_type: file_type.to_string(),
        size: data.len(),
        data: data.to_string(),
    }
}

#[test]
fn files_text_attachment_is_decoded_and_framed() {
    // "aGVsbG8=" is the standard base64 encoding of "hello".
    let files = vec![attachment("a.txt", "text/plain", "data:text/plain;base64,aGVsbG8=")];
    let text = extract_text_from_files(&files);
    assert_eq!(text, "\n\n--- File: a.txt ---\nhello\n--- End of a.txt ---");
}

#[test]
fn files_images_and_documents_are_skipped() {
    let files = vec![
        attachment("p.png", "image/png", "data:image/png;base64,aGVsbG8="),
        attachment("d.pdf", "application/pdf", "data:application/pdf;base64,aGVsbG8="),
    ];
    assert_eq!(extract_text_from_files(&files), "");
}

#[test]
fn files_without_base64_payload_are_skipped() {
    let files = vec![attachment("a.txt", "text/plain", "data:text/plain,plain-url")];
    assert_eq!(extract_text_from_files(&files), "");
}

#[test]
fn files_invalid_base64_is_skipped() {
    let files = vec![attachment("a.txt", "text/plain", "data:text/plain;base64,!!!!")];
    assert_eq!(extract_text_from_files(&files), "");
}

#[test]
fn files_non_utf8_contents_are_skipped() {
    // "/w==" decodes to the single byte 0xFF, which is not UTF-8.
    let files = vec![attachment("a.bin", "application/octet-stream", "data:;base64,/w==")];
    assert_eq!(extract_text_from_files(&files), "");
}

#[test]
fn files_two_attachments_are_joined_by_blank_lines() {
    let files = vec![
        attachment("a.txt", "text/plain", "data:;base64,aGVsbG8="),
        attachment("b.txt", "text/plain", "data:;base64,aGVsbG8="),
    ];
    let text = extract_text_from_files(&files);
    assert_eq!(
        text,
        "\n\n--- File: a.txt ---\nhello\n--- End of a.txt ---\n\n--- File: b.txt ---\nhello\n--- End of b.txt ---"
    );
}

#[test]
fn prompt_ranking_embeds_query_and_labeled_responses() {
    let s1 = vec![
        Stage1Result {
            model: "m-a".to_string(),
            response: "answer one".to_string(),
            usage: None,
        },
        Stage1Result {
            model: "m-b".to_string(),
            response: "answer two".to_string(),
            usage: None,
        },
    ];
    let prompt = build_ranking_prompt("What is the answer?", &s1);
    assert!(prompt.starts_with(
        "You are evaluating different responses to the following question:\n\nQuestion: What is the answer?"
    ));
    assert!(prompt.contains("Response A:\nanswer one"));
    assert!(prompt.contains("Response B:\nanswer two"));
    assert!(prompt.contains("FINAL RANKING:"));
    assert!(prompt.ends_with("Now provide your evaluation and ranking:"));
    // Model names never leak into the anonymized prompt.
    assert!(!prompt.contains("m-a"));
    assert!(!prompt.contains("m-b"));
}

#[test]
fn prompt_chairman_embeds_both_transcripts() {
    let s1 = vec![Stage1Result {
        model: "m-a".to_string(),
        response: "alpha".to_string(),
        usage: None,
    }];
    let s2 = vec![Stage2Result {
        model: "m-b".to_string(),
        ranking: "verdict text".to_string(),
        parsed_ranking: Vec::new(),
        usage: None,
    }];
    let prompt = build_chairman_prompt("Q?", &s1, &s2);
    assert!(prompt.contains("Original Question: Q?"));
    assert!(prompt.contains("Model: m-a\nResponse: alpha"));
    assert!(prompt.contains("Model: m-b\nRanking: verdict text"));
    assert!(prompt.ends_with("collective wisdom:"));
}

#[test]
fn prompt_title_wraps_the_query() {
    let prompt = build_title_prompt("Why is the sky blue?");
    assert!(prompt.contains("Question: Why is the sky blue?"));
    assert!(prompt.ends_with("Title:"));
}

#[test]
fn title_cleanup_trims_whitespace_and_quotes() {
    assert_eq!(clean_title("  \"Sky Color Question\"  "), "Sky Color Question");
    assert_eq!(clean_title("'Already short'"), "Already short");
    assert_eq!(clean_title("plain"), "plain");
}

#[test]
fn title_cleanup_truncates_overlong_titles() {
    let long = "a".repeat(60);
    let cleaned = clean_title(&long);
    assert_eq!(cleaned.len(), 50);
    assert_eq!(cleaned, format!("{}...", "a".repeat(47)));
    let exactly_fifty = "b".repeat(50);
    assert_eq!(clean_title(&exactly_fifty), exactly_fifty);
}

#[test]
fn query_composition_appends_file_text() {
    let files = vec![attachment("a.txt", "text/plain", "data:;base64,aGVsbG8=")];
    let composed = compose_query("What does it say?", Some(&files));
    assert_eq!(
        composed,
        "What does it say?\n\n--- File: a.txt ---\nhello\n--- End of a.txt ---"
    );
    assert_eq!(compose_query("bare question", None), "bare question");
}
