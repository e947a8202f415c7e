use council::models::{Stage1Result, Stage2Result, Stage3Result, Usage};
use council::usage::{calculate_usage_summary, sum_usage};

fn usage(p: u32, c: u32, t: u32) -> Usage {
    Usage { prompt_tokens: p, completion_tokens: c, total_tokens: t }
}

fn s1(model: &str, u: Option<Usage>) -> Stage1Result {
    Stage1Result { model: model.to_string(), response: String::new(), usage: u }
}

fn s2(model: &str, u: Option<Usage>) -> Stage2Result {
    Stage2Result {
        model: model.to_string(),
        ranking: String::new(),
        parsed_ranking: Vec::new(),
        usage: u,
    }
}

fn s3(model: &str, u: Option<Usage>) -> Stage3Result {
    Stage3Result { model: model.to_string(), response: String::new(), usage: u }
}

#[test]
fn usage_sum_of_empty_list_is_zero() {
    let total = sum_usage(&Vec::new());
    assert_eq!(total.prompt_tokens, 0);
    assert_eq!(total.completion_tokens, 0);
    assert_eq!(total.total_tokens, 0);
}

#[test]
fn usage_absent_records_count_as_zero() {
    let total = sum_usage(&vec![Some(usage(1, 2, 3)), None, Some(usage(10, 20, 30))]);
    assert_eq!(total.prompt_tokens, 11);
    assert_eq!(total.completion_tokens, 22);
    assert_eq!(total.total_tokens, 33);
}

#[test]
fn usage_grand_total_is_elementwise_sum_of_stage_totals() {
    let stage1 = vec![s1("a", Some(usage(1, 2, 3))), s1("b", Some(usage(4, 5, 9)))];
    let stage2 = vec![s2("a", Some(usage(10, 20, 30))), s2("b", None)];
    let stage3 = s3("chair", Some(usage(100, 200, 300)));
    let summary = calculate_usage_summary(&stage1, &stage2, &stage3);
    assert_eq!(summary.stage1_total, usage(5, 7, 12));
    assert_eq!(summary.stage2_total, usage(10, 20, 30));
    assert_eq!(summary.stage3_total, usage(100, 200, 300));
    assert_eq!(
        summary.grand_total,
        usage(
            summary.stage1_total.prompt_tokens
                + summary.stage2_total.prompt_tokens
                + summary.stage3_total.prompt_tokens,
            summary.stage1_total.completion_tokens
                + summary.stage2_total.completion_tokens
                + summary.stage3_total.completion_tokens,
            summary.stage1_total.total_tokens
                + summary.stage2_total.total_tokens
                + summary.stage3_total.total_tokens,
        )
    );
    assert_eq!(summary.grand_total, usage(115, 227, 342));
}

#[test]
fn usage_by_model_accumulates_across_stages() {
    // The chairman is also a council member: its counters add up across
    // every stage it appears in.
    let stage1 = vec![s1("chair", Some(usage(1, 1, 2))), s1("other", Some(usage(5, 5, 10)))];
    let stage2 = vec![s2("chair", Some(usage(2, 2, 4)))];
    let stage3 = s3("chair", Some(usage(3, 3, 6)));
    let summary = calculate_usage_summary(&stage1, &stage2, &stage3);
    assert_eq!(summary.by_model.len(), 2);
    assert_eq!(summary.by_model[0].0, "chair");
    assert_eq!(summary.by_model[0].1, usage(6, 6, 12));
    assert_eq!(summary.by_model[1].0, "other");
    assert_eq!(summary.by_model[1].1, usage(5, 5, 10));
}

#[test]
fn usage_models_without_reported_usage_are_absent_from_by_model() {
    let stage1 = vec![s1("silent", None), s1("loud", Some(usage(1, 0, 1)))];
    let stage2 = vec![s2("silent", None)];
    let stage3 = s3("silent", None);
    let summary = calculate_usage_summary(&stage1, &stage2, &stage3);
    assert_eq!(summary.by_model.len(), 1);
    assert_eq!(summary.by_model[0].0, "loud");
}
