//! Usage accounting: summation of per-call token counters into per-stage
//! totals, a grand total, and a per-model table.

use vstd::prelude::*;
use crate::keyed::{find_key, lemma_find_key};
use crate::models::{Stage1Result, Stage2Result, Stage3Result, Usage, UsageSummary};

verus! {

/// The three token counters of an optional usage record, zero when absent.
pub open spec fn opt_counts(u: Option<Usage>) -> (int, int, int) {
    match u {
        Option::Some(x) => (
            x.prompt_tokens as int,
            x.completion_tokens as int,
            x.total_tokens as int,
        ),
        Option::None => (0, 0, 0),
    }
}

/// Componentwise sum of a sequence of optional usage records.
pub open spec fn sum_counts(us: Seq<Option<Usage>>) -> (int, int, int)
    decreases us.len(),
{
    if us.len() == 0 {
        (0, 0, 0)
    } else {
        let p = sum_counts(us.drop_last());
        let l = opt_counts(us.last());
        (p.0 + l.0, p.1 + l.1, p.2 + l.2)
    }
}

pub(crate) proof fn lemma_sum_counts_nonneg(us: Seq<Option<Usage>>)
    ensures
        sum_counts(us).0 >= 0,
        sum_counts(us).1 >= 0,
        sum_counts(us).2 >= 0,
    decreases us.len(),
{
    if us.len() > 0 {
        lemma_sum_counts_nonneg(us.drop_last());
    }
}

pub(crate) proof fn lemma_sum_counts_take_succ(us: Seq<Option<Usage>>, i: int)
    requires
        0 <= i < us.len(),
    ensures
        sum_counts(us.take(i + 1)).0 == sum_counts(us.take(i)).0 + opt_counts(us[i]).0,
        sum_counts(us.take(i + 1)).1 == sum_counts(us.take(i)).1 + opt_counts(us[i]).1,
        sum_counts(us.take(i + 1)).2 == sum_counts(us.take(i)).2 + opt_counts(us[i]).2,
{
    assert(us.take(i + 1).drop_last() =~= us.take(i));
    assert(us.take(i + 1).last() == us[i]);
}

pub(crate) proof fn lemma_sum_counts_take_le(us: Seq<Option<Usage>>, i: int)
    requires
        0 <= i <= us.len(),
    ensures
        sum_counts(us.take(i)).0 <= sum_counts(us).0,
        sum_counts(us.take(i)).1 <= sum_counts(us).1,
        sum_counts(us.take(i)).2 <= sum_counts(us).2,
    decreases us.len(),
{
    if i == us.len() {
        assert(us.take(i) =~= us);
    } else {
        lemma_sum_counts_take_le(us.drop_last(), i);
        assert(us.drop_last().take(i) =~= us.take(i));
        lemma_sum_counts_nonneg(us.drop_last());
    }
}

/// A sum of counters lies between zero and the record count times the
/// largest counter value.
pub(crate) proof fn lemma_sum_counts_bound(us: Seq<Option<Usage>>)
    ensures
        0 <= sum_counts(us).0 <= us.len() * 0xFFFF_FFFF,
        0 <= sum_counts(us).1 <= us.len() * 0xFFFF_FFFF,
        0 <= sum_counts(us).2 <= us.len() * 0xFFFF_FFFF,
    decreases us.len(),
{
    if us.len() == 0 {
        assert(us.len() * 0xFFFF_FFFF == 0) by (nonlinear_arith)
            requires
                us.len() == 0,
        ;
    } else {
        lemma_sum_counts_bound(us.drop_last());
        assert((us.len() - 1) * 0xFFFF_FFFF + 0xFFFF_FFFF == us.len() * 0xFFFF_FFFF)
            by (nonlinear_arith);
    }
}

/// Sums a sequence of optional usage records; absent records count as zero.
pub fn sum_usage(usages: &Vec<Option<Usage>>) -> (total: Usage)
    requires
        sum_counts(usages@).0 <= u32::MAX,
        sum_counts(usages@).1 <= u32::MAX,
        sum_counts(usages@).2 <= u32::MAX,
    ensures
        total.prompt_tokens == sum_counts(usages@).0,
        total.completion_tokens == sum_counts(usages@).1,
        total.total_tokens == sum_counts(usages@).2,
{
    let mut total = Usage::zero();
    let mut i: usize = 0;
    proof {
        assert(usages@.take(0) =~= Seq::<Option<Usage>>::empty());
    }
    while i < usages.len()
        invariant
            i <= usages@.len(),
            sum_counts(usages@).0 <= u32::MAX,
            sum_counts(usages@).1 <= u32::MAX,
            sum_counts(usages@).2 <= u32::MAX,
            total.prompt_tokens == sum_counts(usages@.take(i as int)).0,
            total.completion_tokens == sum_counts(usages@.take(i as int)).1,
            total.total_tokens == sum_counts(usages@.take(i as int)).2,
        decreases usages@.len() - i,
    {
        proof {
            lemma_sum_counts_take_succ(usages@, i as int);
            lemma_sum_counts_take_le(usages@, i as int + 1);
            lemma_sum_counts_nonneg(usages@.take(i as int));
        }
        match usages[i] {
            Option::Some(u) => {
                total = Usage {
                    prompt_tokens: total.prompt_tokens + u.prompt_tokens,
                    completion_tokens: total.completion_tokens + u.completion_tokens,
                    total_tokens: total.total_tokens + u.total_tokens,
                };
            },
            Option::None => {},
        }
        i = i + 1;
    }
    proof {
        assert(usages@.take(usages@.len() as int) =~= usages@);
    }
    total
}

/// The table after charging counters `u` to model `m`: the existing entry is
/// increased componentwise, or a new entry is appended.
pub open spec fn table_with(
    t: Seq<(Seq<char>, (int, int, int))>,
    m: Seq<char>,
    u: (int, int, int),
) -> Seq<(Seq<char>, (int, int, int))> {
    let i = find_key(t, m);
    if i < 0 {
        t.push((m, u))
    } else {
        t.update(i, (m, (t[i].1.0 + u.0, t[i].1.1 + u.1, t[i].1.2 + u.2)))
    }
}

/// The per-model table accumulated over a sequence of (model, usage)
/// contributions, in order; contributions without usage are skipped.
pub open spec fn table_of(cs: Seq<(Seq<char>, Option<Usage>)>) -> Seq<
    (Seq<char>, (int, int, int)),
>
    decreases cs.len(),
{
    if cs.len() == 0 {
        Seq::empty()
    } else {
        let prev = table_of(cs.drop_last());
        match cs.last().1 {
            Option::None => prev,
            Option::Some(u) => table_with(
                prev,
                cs.last().0,
                (u.prompt_tokens as int, u.completion_tokens as int, u.total_tokens as int),
            ),
        }
    }
}

/// The mathematical view of an executable per-model table.
pub open spec fn table_view(t: Seq<(String, Usage)>) -> Seq<(Seq<char>, (int, int, int))> {
    t.map_values(
        |e: (String, Usage)|
            (
                e.0@,
                (e.1.prompt_tokens as int, e.1.completion_tokens as int, e.1.total_tokens as int),
            ),
    )
}

/// The (model, usage) contributions of the first stage, in order.
pub open spec fn contribs1(s1: Seq<Stage1Result>) -> Seq<(Seq<char>, Option<Usage>)> {
    s1.map_values(|r: Stage1Result| (r.model@, r.usage))
}

/// The (model, usage) contributions of the second stage, in order.
pub open spec fn contribs2(s2: Seq<Stage2Result>) -> Seq<(Seq<char>, Option<Usage>)> {
    s2.map_values(|r: Stage2Result| (r.model@, r.usage))
}

/// The (model, usage) contributions of a whole run, in stage order.
pub open spec fn contribs(
    s1: Seq<Stage1Result>,
    s2: Seq<Stage2Result>,
    s3: Stage3Result,
) -> Seq<(Seq<char>, Option<Usage>)> {
    contribs1(s1) + contribs2(s2) + seq![(s3.model@, s3.usage)]
}

/// Charges `u` to `model` in the executable table, as `table_with` says.
#[verifier::loop_isolation(false)]
fn add_to_table(table: &mut Vec<(String, Usage)>, model: &String, u: Usage)
    requires
        forall|j: int|
            0 <= j < old(table)@.len() ==> old(table)@[j].1.prompt_tokens + u.prompt_tokens
                <= u32::MAX && old(table)@[j].1.completion_tokens + u.completion_tokens
                <= u32::MAX && old(table)@[j].1.total_tokens + u.total_tokens <= u32::MAX,
    ensures
        table_view(final(table)@) == table_with(
            table_view(old(table)@),
            model@,
            (u.prompt_tokens as int, u.completion_tokens as int, u.total_tokens as int),
        ),
{
    let ghost orig = table_view(old(table)@);
    let mut j: usize = 0;
    while j < table.len()
        invariant
            j <= table@.len(),
            table@ == old(table)@,
            forall|j2: int| 0 <= j2 < j ==> table@[j2].0@ != model@,
        decreases table@.len() - j,
    {
        let hit = table[j].0 == *model;
        if hit {
            let entry = &table[j];
            let updated = (
                entry.0.clone(),
                Usage {
                    prompt_tokens: entry.1.prompt_tokens + u.prompt_tokens,
                    completion_tokens: entry.1.completion_tokens + u.completion_tokens,
                    total_tokens: entry.1.total_tokens + u.total_tokens,
                },
            );
            table[j] = updated;
            proof {
                assert(find_key(orig, model@) == j as int) by {
                    lemma_find_key(orig, model@);
                    assert(forall|j2: int|
                        0 <= j2 < j ==> #[trigger] orig[j2].0 != model@);
                    assert(orig[j as int].0 == model@);
                };
                assert(table_view(table@) =~= table_with(
                    orig,
                    model@,
                    (u.prompt_tokens as int, u.completion_tokens as int, u.total_tokens as int),
                ));
            }
            return ;
        }
        j = j + 1;
    }
    table.push((model.clone(), u));
    proof {
        lemma_find_key(orig, model@);
        assert(find_key(orig, model@) == -1);
        assert(table_view(table@) =~= table_with(
            orig,
            model@,
            (u.prompt_tokens as int, u.completion_tokens as int, u.total_tokens as int),
        ));
    }
}

/// The three counters of one concrete usage record.
pub open spec fn u_counts(u: Usage) -> (int, int, int) {
    (u.prompt_tokens as int, u.completion_tokens as int, u.total_tokens as int)
}

/// The usage records of the first-stage results, in order.
pub open spec fn stage1_usages(rs: Seq<Stage1Result>) -> Seq<Option<Usage>> {
    rs.map_values(|r: Stage1Result| r.usage)
}

/// The usage records of the second-stage results, in order.
pub open spec fn stage2_usages(rs: Seq<Stage2Result>) -> Seq<Option<Usage>> {
    rs.map_values(|r: Stage2Result| r.usage)
}

/// The usage records of a contribution list, in order.
pub open spec fn contrib_usages(cs: Seq<(Seq<char>, Option<Usage>)>) -> Seq<Option<Usage>> {
    cs.map_values(|c: (Seq<char>, Option<Usage>)| c.1)
}

/// Componentwise sum of the counters of a contribution list.
pub open spec fn contrib_sum(cs: Seq<(Seq<char>, Option<Usage>)>) -> (int, int, int) {
    sum_counts(contrib_usages(cs))
}

/// Componentwise sum of every counter of the whole run.
pub open spec fn run_totals(
    s1: Seq<Stage1Result>,
    s2: Seq<Stage2Result>,
    s3: Stage3Result,
) -> (int, int, int) {
    let a = sum_counts(stage1_usages(s1));
    let b = sum_counts(stage2_usages(s2));
    let c = opt_counts(s3.usage);
    (a.0 + b.0 + c.0, a.1 + b.1 + c.1, a.2 + b.2 + c.2)
}

proof fn lemma_sum_counts_singleton(u: Option<Usage>)
    ensures
        sum_counts(seq![u]) == opt_counts(u),
{
    assert(seq![u].drop_last() =~= Seq::<Option<Usage>>::empty());
    assert(seq![u].last() == u);
    assert(sum_counts(Seq::<Option<Usage>>::empty()) == (0int, 0int, 0int));
}

proof fn lemma_sum_counts_concat(a: Seq<Option<Usage>>, b: Seq<Option<Usage>>)
    ensures
        sum_counts(a + b).0 == sum_counts(a).0 + sum_counts(b).0,
        sum_counts(a + b).1 == sum_counts(a).1 + sum_counts(b).1,
        sum_counts(a + b).2 == sum_counts(a).2 + sum_counts(b).2,
    decreases b.len(),
{
    if b.len() == 0 {
        assert(a + b =~= a);
    } else {
        lemma_sum_counts_concat(a, b.drop_last());
        assert((a + b).drop_last() =~= a + b.drop_last());
        assert((a + b).last() == b.last());
    }
}

/// Every entry of an accumulated table is componentwise non-negative and at
/// most the total of the contributions it was built from.
proof fn lemma_table_of_bounds(cs: Seq<(Seq<char>, Option<Usage>)>)
    ensures
        forall|j: int|
            0 <= j < table_of(cs).len() ==> {
                let e = #[trigger] table_of(cs)[j];
                0 <= e.1.0 <= contrib_sum(cs).0 && 0 <= e.1.1 <= contrib_sum(cs).1 && 0 <= e.1.2
                    <= contrib_sum(cs).2
            },
    decreases cs.len(),
{
    if cs.len() > 0 {
        lemma_table_of_bounds(cs.drop_last());
        lemma_sum_counts_nonneg(contrib_usages(cs.drop_last()));
        assert(contrib_usages(cs).drop_last() =~= contrib_usages(cs.drop_last()));
        assert(contrib_usages(cs).last() == cs.last().1);
        let prev = table_of(cs.drop_last());
        let ps = contrib_sum(cs.drop_last());
        let s = contrib_sum(cs);
        match cs.last().1 {
            Option::None => {
                assert(s == ps);
            },
            Option::Some(u) => {
                assert(s.0 == ps.0 + u.prompt_tokens as int);
                let i = find_key(prev, cs.last().0);
                if i >= 0 {
                    lemma_find_key(prev, cs.last().0);
                }
                let t = table_of(cs);
                assert forall|j: int| 0 <= j < t.len() implies {
                    let e = #[trigger] t[j];
                    0 <= e.1.0 <= s.0 && 0 <= e.1.1 <= s.1 && 0 <= e.1.2 <= s.2
                } by {
                    if i < 0 {
                        if j < prev.len() {
                            assert(t[j] == prev[j]);
                        } else {
                            assert(t[j] == (cs.last().0, u_counts(u)));
                        }
                    } else {
                        if j == i {
                            assert(t[j].1.0 == prev[i].1.0 + u.prompt_tokens as int);
                        } else {
                            assert(t[j] == prev[j]);
                        }
                    }
                }
            },
        }
    }
}

/// Extending the contribution list by one entry upserts that entry's usage
/// into the accumulated table.
proof fn lemma_table_of_step(cs: Seq<(Seq<char>, Option<Usage>)>, m: int)
    requires
        0 <= m < cs.len(),
    ensures
        table_of(cs.take(m + 1)) == match cs[m].1 {
            Option::None => table_of(cs.take(m)),
            Option::Some(u) => table_with(table_of(cs.take(m)), cs[m].0, u_counts(u)),
        },
{
    assert(cs.take(m + 1).drop_last() =~= cs.take(m));
    assert(cs.take(m + 1).last() == cs[m]);
}

/// Builds the per-model usage table of one run, processing contributions in
/// stage order.
#[verifier::loop_isolation(false)]
fn accumulate_by_model(
    stage1_results: &Vec<Stage1Result>,
    stage2_results: &Vec<Stage2Result>,
    stage3_result: &Stage3Result,
) -> (table: Vec<(String, Usage)>)
    requires
        run_totals(stage1_results@, stage2_results@, *stage3_result).0 <= u32::MAX,
        run_totals(stage1_results@, stage2_results@, *stage3_result).1 <= u32::MAX,
        run_totals(stage1_results@, stage2_results@, *stage3_result).2 <= u32::MAX,
    ensures
        table_view(table@) == table_of(contribs(stage1_results@, stage2_results@, *stage3_result)),
{
    let ghost cs = contribs(stage1_results@, stage2_results@, *stage3_result);
    let ghost us = contrib_usages(cs);
    proof {
        assert(us =~= stage1_usages(stage1_results@) + stage2_usages(stage2_results@) + seq![
            stage3_result.usage,
        ]);
        lemma_sum_counts_concat(
            stage1_usages(stage1_results@) + stage2_usages(stage2_results@),
            seq![stage3_result.usage],
        );
        lemma_sum_counts_concat(stage1_usages(stage1_results@), stage2_usages(stage2_results@));
        lemma_sum_counts_singleton(stage3_result.usage);
        assert(sum_counts(us).0 == run_totals(stage1_results@, stage2_results@, *stage3_result).0);
        assert(sum_counts(us).1 == run_totals(stage1_results@, stage2_results@, *stage3_result).1);
        assert(sum_counts(us).2 == run_totals(stage1_results@, stage2_results@, *stage3_result).2);
    }
    let mut table: Vec<(String, Usage)> = Vec::new();
    proof {
        assert(cs.take(0) =~= Seq::<(Seq<char>, Option<Usage>)>::empty());
        assert(table_view(table@) =~= table_of(cs.take(0)));
    }

    let n1 = stage1_results.len();
    let n2 = stage2_results.len();

    let mut i: usize = 0;
    while i < n1
        invariant
            i <= n1,
            table_view(table@) == table_of(cs.take(i as int)),
        decreases n1 - i,
    {
        let ghost m = i as int;
        proof {
            assert(cs[m] == (stage1_results@[m].model@, stage1_results@[m].usage));
        }
        match stage1_results[i].usage {
            Option::Some(u) => {
                proof {
                    charge_bounds(table@, cs, m, u);
                }
                add_to_table(&mut table, &stage1_results[i].model, u);
            },
            Option::None => {},
        }
        proof {
            lemma_table_of_step(cs, m);
        }
        i = i + 1;
    }

    let mut i: usize = 0;
    while i < n2
        invariant
            i <= n2,
            table_view(table@) == table_of(cs.take(n1 as int + i as int)),
        decreases n2 - i,
    {
        let ghost m = n1 as int + i as int;
        proof {
            assert(cs[m] == (stage2_results@[i as int].model@, stage2_results@[i as int].usage));
        }
        match stage2_results[i].usage {
            Option::Some(u) => {
                proof {
                    charge_bounds(table@, cs, m, u);
                }
                add_to_table(&mut table, &stage2_results[i].model, u);
            },
            Option::None => {},
        }
        proof {
            lemma_table_of_step(cs, m);
        }
        i = i + 1;
    }

    let ghost m = n1 as int + n2 as int;
    proof {
        assert(cs[m] == (stage3_result.model@, stage3_result.usage));
    }
    match stage3_result.usage {
        Option::Some(u) => {
            proof {
                charge_bounds(table@, cs, m, u);
            }
            add_to_table(&mut table, &stage3_result.model, u);
        },
        Option::None => {},
    }
    proof {
        lemma_table_of_step(cs, m);
        assert(cs.take(m + 1) =~= cs);
    }
    table
}

/// When the table reflects the first `m` contributions and the run's totals
/// fit in the counters, charging the next contribution cannot overflow any
/// table entry.
proof fn charge_bounds(t: Seq<(String, Usage)>, cs: Seq<(Seq<char>, Option<Usage>)>, m: int, u: Usage)
    requires
        0 <= m < cs.len(),
        cs[m].1 == Option::Some(u),
        table_view(t) == table_of(cs.take(m)),
        contrib_sum(cs).0 <= u32::MAX,
        contrib_sum(cs).1 <= u32::MAX,
        contrib_sum(cs).2 <= u32::MAX,
    ensures
        forall|j: int|
            0 <= j < t.len() ==> t[j].1.prompt_tokens + u.prompt_tokens <= u32::MAX
                && t[j].1.completion_tokens + u.completion_tokens <= u32::MAX
                && t[j].1.total_tokens + u.total_tokens <= u32::MAX,
{
    let us = contrib_usages(cs);
    lemma_table_of_bounds(cs.take(m));
    assert(contrib_usages(cs.take(m)) =~= us.take(m));
    lemma_sum_counts_take_succ(us, m);
    lemma_sum_counts_take_le(us, m + 1);
    assert(us[m] == cs[m].1);
    assert(opt_counts(us[m]) == u_counts(u));
    assert forall|j: int|
        0 <= j < t.len() implies t[j].1.prompt_tokens + u.prompt_tokens <= u32::MAX
            && t[j].1.completion_tokens + u.completion_tokens <= u32::MAX
            && t[j].1.total_tokens + u.total_tokens <= u32::MAX by {
        assert(table_view(t)[j] == table_of(cs.take(m))[j]);
        assert(table_view(t)[j].1.0 == t[j].1.prompt_tokens as int);
        assert(table_view(t)[j].1.1 == t[j].1.completion_tokens as int);
        assert(table_view(t)[j].1.2 == t[j].1.total_tokens as int);
    }
}

/// Sums the usage of every stage of one run: per-stage totals, their grand
/// total, and a per-model table keyed by model name in order of first
/// appearance (first stage first, then second stage, then the chairman).
pub fn calculate_usage_summary(
    stage1_results: &Vec<Stage1Result>,
    stage2_results: &Vec<Stage2Result>,
    stage3_result: &Stage3Result,
) -> (summary: UsageSummary)
    requires
        run_totals(stage1_results@, stage2_results@, *stage3_result).0 <= u32::MAX,
        run_totals(stage1_results@, stage2_results@, *stage3_result).1 <= u32::MAX,
        run_totals(stage1_results@, stage2_results@, *stage3_result).2 <= u32::MAX,
    ensures
        u_counts(summary.stage1_total) == sum_counts(stage1_usages(stage1_results@)),
        u_counts(summary.stage2_total) == sum_counts(stage2_usages(stage2_results@)),
        u_counts(summary.stage3_total) == opt_counts(stage3_result.usage),
        summary.grand_total.prompt_tokens == summary.stage1_total.prompt_tokens
            + summary.stage2_total.prompt_tokens + summary.stage3_total.prompt_tokens,
        summary.grand_total.completion_tokens == summary.stage1_total.completion_tokens
            + summary.stage2_total.completion_tokens + summary.stage3_total.completion_tokens,
        summary.grand_total.total_tokens == summary.stage1_total.total_tokens
            + summary.stage2_total.total_tokens + summary.stage3_total.total_tokens,
        table_view(summary.by_model@) == table_of(
            contribs(stage1_results@, stage2_results@, *stage3_result),
        ),
{
    let ghost cs = contribs(stage1_results@, stage2_results@, *stage3_result);
    let ghost totals = run_totals(stage1_results@, stage2_results@, *stage3_result);
    proof {
        lemma_sum_counts_nonneg(stage1_usages(stage1_results@));
        lemma_sum_counts_nonneg(stage2_usages(stage2_results@));
    }

    // Per-stage usage lists, then their totals.
    let mut stage1_usage_list: Vec<Option<Usage>> = Vec::new();
    let mut i: usize = 0;
    while i < stage1_results.len()
        invariant
            i <= stage1_results@.len(),
            stage1_usage_list@ =~= stage1_usages(stage1_results@.take(i as int)),
        decreases stage1_results@.len() - i,
    {
        stage1_usage_list.push(stage1_results[i].usage);
        proof {
            assert(stage1_usages(stage1_results@.take(i as int + 1)) =~= stage1_usages(
                stage1_results@.take(i as int),
            ).push(stage1_results@[i as int].usage));
        }
        i = i + 1;
    }
    proof {
        assert(stage1_results@.take(stage1_results@.len() as int) =~= stage1_results@);
    }

    let mut stage2_usage_list: Vec<Option<Usage>> = Vec::new();
    let mut i: usize = 0;
    while i < stage2_results.len()
        invariant
            i <= stage2_results@.len(),
            stage2_usage_list@ =~= stage2_usages(stage2_results@.take(i as int)),
        decreases stage2_results@.len() - i,
    {
        stage2_usage_list.push(stage2_results[i].usage);
        proof {
            assert(stage2_usages(stage2_results@.take(i as int + 1)) =~= stage2_usages(
                stage2_results@.take(i as int),
            ).push(stage2_results@[i as int].usage));
        }
        i = i + 1;
    }
    proof {
        assert(stage2_results@.take(stage2_results@.len() as int) =~= stage2_results@);
    }

    let mut stage3_usage_list: Vec<Option<Usage>> = Vec::new();
    stage3_usage_list.push(stage3_result.usage);
    proof {
        lemma_sum_counts_singleton(stage3_result.usage);
        assert(stage3_usage_list@ =~= seq![stage3_result.usage]);
        assert(sum_counts(stage3_usage_list@) == opt_counts(stage3_result.usage));
    }

    let stage1_total = sum_usage(&stage1_usage_list);
    let stage2_total = sum_usage(&stage2_usage_list);
    let stage3_total = sum_usage(&stage3_usage_list);

    let grand_total = Usage {
        prompt_tokens: stage1_total.prompt_tokens + stage2_total.prompt_tokens
            + stage3_total.prompt_tokens,
        completion_tokens: stage1_total.completion_tokens + stage2_total.completion_tokens
            + stage3_total.completion_tokens,
        total_tokens: stage1_total.total_tokens + stage2_total.total_tokens
            + stage3_total.total_tokens,
    };

    let by_model = accumulate_by_model(stage1_results, stage2_results, stage3_result);

    UsageSummary { stage1_total, stage2_total, stage3_total, grand_total, by_model }
}

} // verus!
