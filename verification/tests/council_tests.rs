use council::council::{
    empty_stage1_outcome, finish_council_run, guard_stage1, CouncilEvent, CouncilProgress,
};
use council::models::{Stage1Result, Stage2Result, Stage3Result, Usage};

fn usage(p: u32, c: u32, t: u32) -> Usage {
    Usage { prompt_tokens: p, completion_tokens: c, total_tokens: t }
}

#[test]
fn council_empty_stage1_short_circuits_to_degraded_outcome() {
    let out = empty_stage1_outcome();
    assert!(out.stage1.is_empty());
    assert!(out.stage2.is_empty());
    assert_eq!(out.stage3.model, "error");
    assert_eq!(out.stage3.response, "All models failed to respond. Please try again.");
    assert!(out.stage3.usage.is_none());
    assert!(out.metadata.label_to_model.is_none());
    assert!(out.metadata.aggregate_rankings.is_none());
    assert!(out.metadata.usage_summary.is_none());
}

#[test]
fn council_guard_lets_nonempty_stage1_proceed() {
    let stage1 = vec![Stage1Result {
        model: "m".to_string(),
        response: "r".to_string(),
        usage: None,
    }];
    match guard_stage1(stage1) {
        Ok(kept) => {
            assert_eq!(kept.len(), 1);
            assert_eq!(kept[0].model, "m");
        }
        Err(_) => panic!("one response must let the run proceed"),
    }
    match guard_stage1(Vec::new()) {
        Ok(_) => panic!("an empty first stage must short-circuit"),
        Err(out) => {
            assert!(out.stage2.is_empty());
            assert_eq!(out.stage3.model, "error");
        }
    }
}

#[test]
fn council_finish_assembles_metadata() {
    let stage1 = vec![
        Stage1Result {
            model: "m-a".to_string(),
            response: "alpha".to_string(),
            usage: Some(usage(1, 2, 3)),
        },
        Stage1Result {
            model: "m-b".to_string(),
            response: "beta".to_string(),
            usage: Some(usage(4, 5, 9)),
        },
    ];
    let stage2 = vec![Stage2Result {
        model: "m-a".to_string(),
        ranking: "FINAL RANKING:\n1. Response B\n2. Response A\n".to_string(),
        parsed_ranking: vec!["Response B".to_string(), "Response A".to_string()],
        usage: Some(usage(10, 10, 20)),
    }];
    let label_to_model = vec![
        ("Response A".to_string(), "m-a".to_string()),
        ("Response B".to_string(), "m-b".to_string()),
    ];
    let stage3 = Stage3Result {
        model: "chair".to_string(),
        response: "final".to_string(),
        usage: Some(usage(7, 7, 14)),
    };
    let out = finish_council_run(stage1, stage2, label_to_model.clone(), stage3)
        .expect("counters fit");
    let metadata = out.metadata;
    assert_eq!(metadata.label_to_model.unwrap(), label_to_model);
    let rankings = metadata.aggregate_rankings.unwrap();
    assert_eq!(rankings.len(), 2);
    assert_eq!(rankings[0].model, "m-b");
    assert_eq!(rankings[0].average_rank_hundredths, 100);
    assert_eq!(rankings[1].model, "m-a");
    assert_eq!(rankings[1].average_rank_hundredths, 200);
    let summary = metadata.usage_summary.unwrap();
    assert_eq!(summary.grand_total, usage(22, 24, 46));
    assert_eq!(out.stage3.model, "chair");
}

#[test]
fn council_event_protocol_happy_path_with_title() {
    let mut p = CouncilProgress::new();
    p.begin_stage1();
    p.complete_stage1();
    p.begin_stage2();
    p.complete_stage2();
    p.begin_stage3();
    p.complete_stage3();
    p.note_title();
    p.finish();
    assert_eq!(
        p.emitted,
        vec![
            CouncilEvent::Stage1Start,
            CouncilEvent::Stage1Complete,
            CouncilEvent::Stage2Start,
            CouncilEvent::Stage2Complete,
            CouncilEvent::Stage3Start,
            CouncilEvent::Stage3Complete,
            CouncilEvent::TitleComplete,
            CouncilEvent::Complete,
        ]
    );
}

#[test]
fn council_event_protocol_failure_terminates_with_error() {
    let mut p = CouncilProgress::new();
    p.begin_stage1();
    p.fail();
    assert_eq!(
        p.emitted,
        vec![CouncilEvent::Stage1Start, CouncilEvent::ErrorEvent]
    );
}
