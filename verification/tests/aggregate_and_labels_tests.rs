use council::aggregate::calculate_aggregate_rankings;
use council::labels::{build_label_map, label_string};
use council::models::{Stage1Result, Stage2Result};

fn stage2(model: &str, parsed: Vec<&str>) -> Stage2Result {
    Stage2Result {
        model: model.to_string(),
        ranking: String::new(),
        parsed_ranking: parsed.into_iter().map(|s| s.to_string()).collect(),
        usage: None,
    }
}

fn label_map(pairs: Vec<(&str, &str)>) -> Vec<(String, String)> {
    pairs.into_iter().map(|(a, b)| (a.to_string(), b.to_string())).collect()
}

#[test]
fn aggregate_average_of_three_positions_is_exact() {
    let lm = label_map(vec![("Response A", "model-m")]);
    let s2 = vec![
        stage2("p1", vec!["Response A"]),
        stage2("p2", vec!["Response B", "Response A"]),
        stage2("p3", vec!["Response B", "Response C", "Response A"]),
    ];
    let out = calculate_aggregate_rankings(&s2, &lm);
    assert_eq!(out.len(), 1);
    assert_eq!(out[0].model, "model-m");
    assert_eq!(out[0].average_rank_hundredths, 200);
    assert_eq!(out[0].rankings_count, 3);
}

#[test]
fn aggregate_excludes_unranked_models_and_sorts_ascending() {
    let lm = label_map(vec![
        ("Response A", "m-first"),
        ("Response B", "m-second"),
        ("Response C", "m-never"),
    ]);
    let s2 = vec![
        stage2("p1", vec!["Response B", "Response A"]),
        stage2("p2", vec!["Response B", "Response A"]),
    ];
    let out = calculate_aggregate_rankings(&s2, &lm);
    assert_eq!(out.len(), 2);
    assert_eq!(out[0].model, "m-second");
    assert_eq!(out[0].average_rank_hundredths, 100);
    assert_eq!(out[1].model, "m-first");
    assert_eq!(out[1].average_rank_hundredths, 200);
    assert!(out.iter().all(|a| a.rankings_count >= 1));
    assert!(out.iter().all(|a| a.model != "m-never"));
}

#[test]
fn aggregate_rounds_half_up_to_hundredths() {
    // Eight positions summing to 15: the mean 1.875 rounds to 1.88.
    let lm = label_map(vec![("Response A", "m")]);
    let mut rankings = Vec::new();
    // Position 1 once, position 2 seven times: sum 15 over 8 rankings.
    rankings.push(stage2("p0", vec!["Response A"]));
    for k in 0..7 {
        rankings.push(stage2(&format!("p{}", k + 1), vec!["Response Z", "Response A"]));
    }
    let out = calculate_aggregate_rankings(&rankings, &lm);
    assert_eq!(out[0].average_rank_hundredths, 188);
    assert_eq!(out[0].rankings_count, 8);
}

#[test]
fn aggregate_truncates_a_third_down() {
    // Positions 1, 1, 2: the mean 4/3 rounds to 1.33.
    let lm = label_map(vec![("Response A", "m")]);
    let s2 = vec![
        stage2("p1", vec!["Response A"]),
        stage2("p2", vec!["Response A"]),
        stage2("p3", vec!["Response B", "Response A"]),
    ];
    let out = calculate_aggregate_rankings(&s2, &lm);
    assert_eq!(out[0].average_rank_hundredths, 133);
}

#[test]
fn aggregate_unknown_labels_are_dropped_but_keep_their_position() {
    // The unknown label at position 1 still pushes the known one to 2.
    let lm = label_map(vec![("Response A", "m")]);
    let s2 = vec![stage2("p1", vec!["Response Q", "Response A"])];
    let out = calculate_aggregate_rankings(&s2, &lm);
    assert_eq!(out.len(), 1);
    assert_eq!(out[0].average_rank_hundredths, 200);
}

#[test]
fn aggregate_ties_keep_first_seen_order() {
    let lm = label_map(vec![("Response A", "m-a"), ("Response B", "m-b")]);
    let s2 = vec![
        stage2("p1", vec!["Response A", "Response B"]),
        stage2("p2", vec!["Response B", "Response A"]),
    ];
    // Both average 1.50; m-a was recorded first.
    let out = calculate_aggregate_rankings(&s2, &lm);
    assert_eq!(out[0].model, "m-a");
    assert_eq!(out[1].model, "m-b");
    assert_eq!(out[0].average_rank_hundredths, 150);
    assert_eq!(out[1].average_rank_hundredths, 150);
}

fn stage1(model: &str) -> Stage1Result {
    Stage1Result { model: model.to_string(), response: "r".to_string(), usage: None }
}

#[test]
fn labels_five_models_get_distinct_letters() {
    let s1 = vec![stage1("m0"), stage1("m1"), stage1("m2"), stage1("m3"), stage1("m4")];
    let map = build_label_map(&s1);
    let keys: Vec<&str> = map.iter().map(|e| e.0.as_str()).collect();
    assert_eq!(
        keys,
        vec!["Response A", "Response B", "Response C", "Response D", "Response E"]
    );
    let values: Vec<&str> = map.iter().map(|e| e.1.as_str()).collect();
    assert_eq!(values, vec!["m0", "m1", "m2", "m3", "m4"]);
    for i in 0..map.len() {
        for j in 0..map.len() {
            if i != j {
                assert_ne!(map[i].0, map[j].0);
                assert_ne!(map[i].1, map[j].1);
            }
        }
    }
}

#[test]
fn labels_run_through_the_whole_alphabet() {
    assert_eq!(label_string(0), "Response A");
    assert_eq!(label_string(2), "Response C");
    assert_eq!(label_string(25), "Response Z");
}
