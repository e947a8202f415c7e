use council::ranking::parse_ranking_from_text;

#[test]
fn parser_marker_numbered_list() {
    let text = "Response B is weak.\nResponse C is great.\n\nFINAL RANKING:\n1. Response C\n2. Response A\n";
    let parsed = parse_ranking_from_text(text);
    assert_eq!(parsed, vec!["Response C".to_string(), "Response A".to_string()]);
}

#[test]
fn parser_bare_mentions_without_marker() {
    let text = "I think Response B is stronger than Response A overall.";
    let parsed = parse_ranking_from_text(text);
    assert_eq!(parsed, vec!["Response B".to_string(), "Response A".to_string()]);
}

#[test]
fn parser_marker_with_malformed_list_falls_back_to_bare() {
    let text = "FINAL RANKING:\nResponse C then Response A";
    let parsed = parse_ranking_from_text(text);
    assert_eq!(parsed, vec!["Response C".to_string(), "Response A".to_string()]);
}

#[test]
fn parser_numbered_entries_win_over_bare_mentions() {
    let text = "FINAL RANKING:\n1. Response B\nI also liked Response A";
    let parsed = parse_ranking_from_text(text);
    assert_eq!(parsed, vec!["Response B".to_string()]);
}

#[test]
fn parser_duplicates_are_kept() {
    let text = "FINAL RANKING:\n1. Response A\n2. Response A\n";
    let parsed = parse_ranking_from_text(text);
    assert_eq!(parsed, vec!["Response A".to_string(), "Response A".to_string()]);
}

#[test]
fn parser_multi_digit_numbers() {
    let text = "FINAL RANKING:\n9. Response X\n10. Response B\n";
    let parsed = parse_ranking_from_text(text);
    assert_eq!(parsed, vec!["Response X".to_string(), "Response B".to_string()]);
}

#[test]
fn parser_text_before_marker_is_ignored_for_numbered_entries() {
    let text = "1. Response D\nFINAL RANKING:\n1. Response C\n";
    let parsed = parse_ranking_from_text(text);
    assert_eq!(parsed, vec!["Response C".to_string()]);
}

#[test]
fn parser_empty_when_nothing_matches() {
    let parsed = parse_ranking_from_text("no verdict here at all");
    assert!(parsed.is_empty());
}

#[test]
fn parser_lowercase_letter_is_not_a_label() {
    let parsed = parse_ranking_from_text("FINAL RANKING:\n1. Response a\n");
    assert!(parsed.is_empty());
}

#[test]
fn parser_number_needs_a_digit_before_the_period() {
    let text = "FINAL RANKING:\nx. Response A\n";
    let parsed = parse_ranking_from_text(text);
    // No numbered entry exists, so the bare mention is still collected.
    assert_eq!(parsed, vec!["Response A".to_string()]);
}

#[test]
fn parser_only_first_marker_counts() {
    let text = "FINAL RANKING:\n1. Response B\nFINAL RANKING:\n1. Response C\n";
    let parsed = parse_ranking_from_text(text);
    assert_eq!(parsed, vec!["Response B".to_string(), "Response C".to_string()]);
}
