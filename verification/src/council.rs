//! The orchestrator's decisions: the empty-first-stage guard with its
//! degraded terminal result, the assembly of a finished run into the
//! composite outcome, and the ordered progress-event protocol a streaming
//! client observes.

use vstd::prelude::*;
use crate::aggregate::{
    aggregate_spec, calculate_aggregate_rankings, label_map_view, position_bound, rankings_view,
};
use crate::models::{MessageMetadata, Stage1Result, Stage2Result, Stage3Result};
use crate::usage::{
    calculate_usage_summary, contribs, lemma_sum_counts_bound, lemma_sum_counts_take_succ,
    opt_counts, run_totals, stage1_usages, stage2_usages, sum_counts, table_of, table_view,
    u_counts,
};

verus! {

/// Everything one council run produces.
pub struct CouncilOutcome {
    pub stage1: Vec<Stage1Result>,
    pub stage2: Vec<Stage2Result>,
    pub stage3: Stage3Result,
    pub metadata: MessageMetadata,
}

/// The degraded terminal result of a run whose first stage produced no
/// response at all: empty stages, a fixed apology under the model name
/// `error`, and no metadata.
pub fn empty_stage1_outcome() -> (out: CouncilOutcome)
    ensures
        out.stage1@.len() == 0,
        out.stage2@.len() == 0,
        out.stage3.model@ == "error"@,
        out.stage3.response@ == "All models failed to respond. Please try again."@,
        out.stage3.usage is None,
        out.metadata.label_to_model is None,
        out.metadata.aggregate_rankings is None,
        out.metadata.usage_summary is None,
{
    CouncilOutcome {
        stage1: Vec::new(),
        stage2: Vec::new(),
        stage3: Stage3Result {
            model: String::from_str("error"),
            response: String::from_str("All models failed to respond. Please try again."),
            usage: None,
        },
        metadata: MessageMetadata {
            label_to_model: None,
            aggregate_rankings: None,
            usage_summary: None,
        },
    }
}

/// The guard between the first and second stages of a synchronous run: an
/// empty first-stage result set short-circuits the run to the degraded
/// terminal outcome; any response at all lets the run proceed.
pub fn guard_stage1(stage1: Vec<Stage1Result>) -> (r: Result<Vec<Stage1Result>, CouncilOutcome>)
    ensures
        match r {
            Result::Ok(s1) => stage1@.len() > 0 && s1 == stage1,
            Result::Err(out) => {
                &&& stage1@.len() == 0
                &&& out.stage1@.len() == 0
                &&& out.stage2@.len() == 0
                &&& out.stage3.model@ == "error"@
                &&& out.stage3.response@ == "All models failed to respond. Please try again."@
                &&& out.stage3.usage is None
                &&& out.metadata.label_to_model is None
                &&& out.metadata.aggregate_rankings is None
                &&& out.metadata.usage_summary is None
            },
        },
{
    if stage1.len() == 0 {
        Err(empty_stage1_outcome())
    } else {
        Ok(stage1)
    }
}

/// Whether the run's token counters can be summed without exceeding the
/// 32-bit counters of a usage summary.
pub open spec fn usage_totals_fit(
    s1: Seq<Stage1Result>,
    s2: Seq<Stage2Result>,
    s3: Stage3Result,
) -> bool {
    run_totals(s1, s2, s3).0 <= u32::MAX && run_totals(s1, s2, s3).1 <= u32::MAX && run_totals(
        s1,
        s2,
        s3,
    ).2 <= u32::MAX
}

/// Whether every parsed ranking is short enough for position accounting.
pub open spec fn rankings_within_bound(s2: Seq<Stage2Result>) -> bool {
    forall|k: int| 0 <= k < s2.len() ==> (#[trigger] s2[k]).parsed_ranking@.len() <= position_bound()
}

/// Sums one stage's counters exactly, wide enough not to overflow.
#[verifier::loop_isolation(false)]
fn sum_stage_counters(usages: &Vec<Option<crate::models::Usage>>) -> (totals: (u128, u128, u128))
    ensures
        totals.0 == sum_counts(usages@).0,
        totals.1 == sum_counts(usages@).1,
        totals.2 == sum_counts(usages@).2,
{
    let mut a: u128 = 0;
    let mut b: u128 = 0;
    let mut c: u128 = 0;
    let n = usages.len();
    let mut i: usize = 0;
    proof {
        assert(usages@.take(0) =~= Seq::<Option<crate::models::Usage>>::empty());
    }
    while i < n
        invariant
            i <= n,
            n == usages@.len(),
            a == sum_counts(usages@.take(i as int)).0,
            b == sum_counts(usages@.take(i as int)).1,
            c == sum_counts(usages@.take(i as int)).2,
        decreases n - i,
    {
        proof {
            lemma_sum_counts_take_succ(usages@, i as int);
            lemma_sum_counts_bound(usages@.take(i as int));
            assert((i as int) * 0xFFFF_FFFF <= 0x1_0000_0000_0000_0000 * 0xFFFF_FFFF)
                by (nonlinear_arith)
                requires
                    i as int <= 0x1_0000_0000_0000_0000,
            ;
        }
        match usages[i] {
            Option::Some(u) => {
                a = a + (u.prompt_tokens as u128);
                b = b + (u.completion_tokens as u128);
                c = c + (u.total_tokens as u128);
            },
            Option::None => {},
        }
        i = i + 1;
    }
    proof {
        assert(usages@.take(n as int) =~= usages@);
    }
    (a, b, c)
}

/// Whether the run's counters fit the 32-bit totals of a usage summary.
#[verifier::loop_isolation(false)]
pub fn check_usage_totals(
    stage1_results: &Vec<Stage1Result>,
    stage2_results: &Vec<Stage2Result>,
    stage3_result: &Stage3Result,
) -> (ok: bool)
    ensures
        ok == usage_totals_fit(stage1_results@, stage2_results@, *stage3_result),
{
    let mut stage1_usage_list: Vec<Option<crate::models::Usage>> = Vec::new();
    let n1 = stage1_results.len();
    let mut i: usize = 0;
    while i < n1
        invariant
            i <= n1,
            stage1_usage_list@ =~= stage1_usages(stage1_results@.take(i as int)),
        decreases n1 - i,
    {
        stage1_usage_list.push(stage1_results[i].usage);
        proof {
            assert(stage1_usages(stage1_results@.take(i as int + 1)) =~= stage1_usages(
                stage1_results@.take(i as int),
            ).push(stage1_results@[i as int].usage));
        }
        i = i + 1;
    }
    proof {
        assert(stage1_results@.take(n1 as int) =~= stage1_results@);
    }
    let mut stage2_usage_list: Vec<Option<crate::models::Usage>> = Vec::new();
    let n2 = stage2_results.len();
    let mut i: usize = 0;
    while i < n2
        invariant
            i <= n2,
            stage2_usage_list@ =~= stage2_usages(stage2_results@.take(i as int)),
        decreases n2 - i,
    {
        stage2_usage_list.push(stage2_results[i].usage);
        proof {
            assert(stage2_usages(stage2_results@.take(i as int + 1)) =~= stage2_usages(
                stage2_results@.take(i as int),
            ).push(stage2_results@[i as int].usage));
        }
        i = i + 1;
    }
    proof {
        assert(stage2_results@.take(n2 as int) =~= stage2_results@);
    }
    let s1 = sum_stage_counters(&stage1_usage_list);
    let s2 = sum_stage_counters(&stage2_usage_list);
    let (c0, c1, c2) = match stage3_result.usage {
        Option::Some(u) => (
            u.prompt_tokens as u128,
            u.completion_tokens as u128,
            u.total_tokens as u128,
        ),
        Option::None => (0u128, 0u128, 0u128),
    };
    proof {
        lemma_sum_counts_bound(stage1_usage_list@);
        lemma_sum_counts_bound(stage2_usage_list@);
        assert((stage1_usage_list@.len() as int) * 0xFFFF_FFFF
            <= 0x1_0000_0000_0000_0000 * 0xFFFF_FFFF) by (nonlinear_arith)
            requires
                stage1_usage_list@.len() as int <= 0x1_0000_0000_0000_0000,
        ;
        assert((stage2_usage_list@.len() as int) * 0xFFFF_FFFF
            <= 0x1_0000_0000_0000_0000 * 0xFFFF_FFFF) by (nonlinear_arith)
            requires
                stage2_usage_list@.len() as int <= 0x1_0000_0000_0000_0000,
        ;
    }
    let max32: u128 = 0xFFFF_FFFF;
    s1.0 + s2.0 + c0 <= max32 && s1.1 + s2.1 + c1 <= max32 && s1.2 + s2.2 + c2 <= max32
}

/// Whether every parsed ranking is short enough for position accounting.
pub fn check_rankings_bound(stage2_results: &Vec<Stage2Result>) -> (ok: bool)
    ensures
        ok == rankings_within_bound(stage2_results@),
{
    let n = stage2_results.len();
    let mut i: usize = 0;
    while i < n
        invariant
            i <= n,
            n == stage2_results@.len(),
            forall|k: int|
                0 <= k < i ==> (#[trigger] stage2_results@[k]).parsed_ranking@.len()
                    <= position_bound(),
        decreases n - i,
    {
        if stage2_results[i].parsed_ranking.len() > 0xFFFF_FFFFusize {
            return false;
        }
        i = i + 1;
    }
    true
}

/// Assembles a finished run: the aggregate rankings, the usage summary, and
/// the metadata, next to the three stages' results. Succeeds exactly when
/// the run's counters fit the summary's counters and every parsed ranking
/// is short enough to account; a run whose numbers exceed those machine
/// bounds yields nothing.
pub fn finish_council_run(
    stage1: Vec<Stage1Result>,
    stage2: Vec<Stage2Result>,
    label_to_model: Vec<(String, String)>,
    stage3: Stage3Result,
) -> (out: Option<CouncilOutcome>)
    ensures
        out is Some <==> usage_totals_fit(stage1@, stage2@, stage3) && rankings_within_bound(
            stage2@,
        ),
        match out {
            Option::Some(o) => {
                &&& o.stage1 == stage1
                &&& o.stage2 == stage2
                &&& o.stage3 == stage3
                &&& o.metadata.label_to_model == Option::Some(label_to_model)
                &&& match o.metadata.aggregate_rankings {
                    Option::Some(ar) => rankings_view(ar@) == aggregate_spec(
                        stage2@,
                        label_map_view(label_to_model@),
                    ),
                    Option::None => false,
                }
                &&& match o.metadata.usage_summary {
                    Option::Some(us) => {
                        &&& u_counts(us.stage1_total) == sum_counts(stage1_usages(stage1@))
                        &&& u_counts(us.stage2_total) == sum_counts(stage2_usages(stage2@))
                        &&& u_counts(us.stage3_total) == opt_counts(stage3.usage)
                        &&& us.grand_total.prompt_tokens == us.stage1_total.prompt_tokens
                            + us.stage2_total.prompt_tokens + us.stage3_total.prompt_tokens
                        &&& us.grand_total.completion_tokens == us.stage1_total.completion_tokens
                            + us.stage2_total.completion_tokens + us.stage3_total.completion_tokens
                        &&& us.grand_total.total_tokens == us.stage1_total.total_tokens
                            + us.stage2_total.total_tokens + us.stage3_total.total_tokens
                        &&& table_view(us.by_model@) == table_of(
                            contribs(stage1@, stage2@, stage3),
                        )
                    },
                    Option::None => false,
                }
            },
            Option::None => true,
        },
{
    if !check_usage_totals(&stage1, &stage2, &stage3) {
        return None;
    }
    if !check_rankings_bound(&stage2) {
        return None;
    }
    let aggregate_rankings = calculate_aggregate_rankings(&stage2, &label_to_model);
    let usage_summary = calculate_usage_summary(&stage1, &stage2, &stage3);
    let metadata = MessageMetadata {
        label_to_model: Some(label_to_model),
        aggregate_rankings: Some(aggregate_rankings),
        usage_summary: Some(usage_summary),
    };
    Some(CouncilOutcome { stage1, stage2, stage3, metadata })
}

/// One progress event of the streaming protocol.
#[derive(Clone, Copy, Debug, PartialEq, Eq, Structural)]
pub enum CouncilEvent {
    Stage1Start,
    Stage1Complete,
    Stage2Start,
    Stage2Complete,
    Stage3Start,
    Stage3Complete,
    TitleComplete,
    ErrorEvent,
    Complete,
}

/// Where a streaming run stands.
#[derive(Clone, Copy, Debug, PartialEq, Eq, Structural)]
pub enum CouncilPhase {
    Idle,
    Stage1,
    Stage1Done,
    Stage2,
    Stage2Done,
    Stage3,
    Stage3Done,
    Ended,
}

/// The events a client has observed once a healthy run reaches `phase`:
/// each stage's start and completion in stage order, the optional title
/// event after the third stage, and the terminal marker.
pub open spec fn events_through(phase: CouncilPhase, title_done: bool) -> Seq<CouncilEvent> {
    match phase {
        CouncilPhase::Idle => Seq::<CouncilEvent>::empty(),
        CouncilPhase::Stage1 => seq![CouncilEvent::Stage1Start],
        CouncilPhase::Stage1Done => seq![CouncilEvent::Stage1Start, CouncilEvent::Stage1Complete],
        CouncilPhase::Stage2 => seq![
            CouncilEvent::Stage1Start,
            CouncilEvent::Stage1Complete,
            CouncilEvent::Stage2Start,
        ],
        CouncilPhase::Stage2Done => seq![
            CouncilEvent::Stage1Start,
            CouncilEvent::Stage1Complete,
            CouncilEvent::Stage2Start,
            CouncilEvent::Stage2Complete,
        ],
        CouncilPhase::Stage3 => seq![
            CouncilEvent::Stage1Start,
            CouncilEvent::Stage1Complete,
            CouncilEvent::Stage2Start,
            CouncilEvent::Stage2Complete,
            CouncilEvent::Stage3Start,
        ],
        CouncilPhase::Stage3Done => seq![
            CouncilEvent::Stage1Start,
            CouncilEvent::Stage1Complete,
            CouncilEvent::Stage2Start,
            CouncilEvent::Stage2Complete,
            CouncilEvent::Stage3Start,
            CouncilEvent::Stage3Complete,
        ] + if title_done {
            seq![CouncilEvent::TitleComplete]
        } else {
            Seq::<CouncilEvent>::empty()
        },
        CouncilPhase::Ended => seq![
            CouncilEvent::Stage1Start,
            CouncilEvent::Stage1Complete,
            CouncilEvent::Stage2Start,
            CouncilEvent::Stage2Complete,
            CouncilEvent::Stage3Start,
            CouncilEvent::Stage3Complete,
        ] + (if title_done {
            seq![CouncilEvent::TitleComplete]
        } else {
            Seq::<CouncilEvent>::empty()
        }) + seq![CouncilEvent::Complete],
    }
}

/// The progress ledger of one streaming run: the orchestrator is its sole
/// writer, and `emitted` is exactly what the client has been sent.
pub struct CouncilProgress {
    pub phase: CouncilPhase,
    pub failed: bool,
    pub title_done: bool,
    pub emitted: Vec<CouncilEvent>,
}

/// A healthy ledger has emitted exactly the events of its phase; a failed
/// one has ended, and its last event is the terminating error.
pub open spec fn progress_wf(p: CouncilProgress) -> bool {
    if !p.failed {
        p.emitted@ == events_through(p.phase, p.title_done) && (p.title_done ==> p.phase
            == CouncilPhase::Stage3Done || p.phase == CouncilPhase::Ended)
    } else {
        p.phase == CouncilPhase::Ended && p.emitted@.len() >= 1 && p.emitted@.last()
            == CouncilEvent::ErrorEvent
    }
}

impl CouncilProgress {
    /// A run that has emitted nothing yet.
    pub fn new() -> (p: CouncilProgress)
        ensures
            progress_wf(p),
            p.phase == CouncilPhase::Idle,
            !p.failed,
            !p.title_done,
            p.emitted@.len() == 0,
    {
        let p = CouncilProgress {
            phase: CouncilPhase::Idle,
            failed: false,
            title_done: false,
            emitted: Vec::new(),
        };
        proof {
            assert(p.emitted@ =~= events_through(CouncilPhase::Idle, false));
        }
        p
    }

    /// Enters the first stage, emitting its start event.
    pub fn begin_stage1(&mut self) -> (e: CouncilEvent)
        requires
            progress_wf(*old(self)),
            !old(self).failed,
            old(self).phase == CouncilPhase::Idle,
        ensures
            progress_wf(*final(self)),
            !final(self).failed,
            final(self).phase == CouncilPhase::Stage1,
            final(self).title_done == old(self).title_done,
            final(self).emitted@ == old(self).emitted@.push(e),
            e == CouncilEvent::Stage1Start,
    {
        self.phase = CouncilPhase::Stage1;
        self.emitted.push(CouncilEvent::Stage1Start);
        proof {
            assert(self.emitted@ =~= events_through(CouncilPhase::Stage1, self.title_done));
        }
        CouncilEvent::Stage1Start
    }

    /// Leaves the first stage, emitting its completion event.
    pub fn complete_stage1(&mut self) -> (e: CouncilEvent)
        requires
            progress_wf(*old(self)),
            !old(self).failed,
            old(self).phase == CouncilPhase::Stage1,
        ensures
            progress_wf(*final(self)),
            !final(self).failed,
            final(self).phase == CouncilPhase::Stage1Done,
            final(self).title_done == old(self).title_done,
            final(self).emitted@ == old(self).emitted@.push(e),
            e == CouncilEvent::Stage1Complete,
    {
        self.phase = CouncilPhase::Stage1Done;
        self.emitted.push(CouncilEvent::Stage1Complete);
        proof {
            assert(self.emitted@ =~= events_through(CouncilPhase::Stage1Done, self.title_done));
        }
        CouncilEvent::Stage1Complete
    }

    /// Enters the second stage, emitting its start event.
    pub fn begin_stage2(&mut self) -> (e: CouncilEvent)
        requires
            progress_wf(*old(self)),
            !old(self).failed,
            old(self).phase == CouncilPhase::Stage1Done,
        ensures
            progress_wf(*final(self)),
            !final(self).failed,
            final(self).phase == CouncilPhase::Stage2,
            final(self).title_done == old(self).title_done,
            final(self).emitted@ == old(self).emitted@.push(e),
            e == CouncilEvent::Stage2Start,
    {
        self.phase = CouncilPhase::Stage2;
        self.emitted.push(CouncilEvent::Stage2Start);
        proof {
            assert(self.emitted@ =~= events_through(CouncilPhase::Stage2, self.title_done));
        }
        CouncilEvent::Stage2Start
    }

    /// Leaves the second stage, emitting its completion event.
    pub fn complete_stage2(&mut self) -> (e: CouncilEvent)
        requires
            progress_wf(*old(self)),
            !old(self).failed,
            old(self).phase == CouncilPhase::Stage2,
        ensures
            progress_wf(*final(self)),
            !final(self).failed,
            final(self).phase == CouncilPhase::Stage2Done,
            final(self).title_done == old(self).title_done,
            final(self).emitted@ == old(self).emitted@.push(e),
            e == CouncilEvent::Stage2Complete,
    {
        self.phase = CouncilPhase::Stage2Done;
        self.emitted.push(CouncilEvent::Stage2Complete);
        proof {
            assert(self.emitted@ =~= events_through(CouncilPhase::Stage2Done, self.title_done));
        }
        CouncilEvent::Stage2Complete
    }

    /// Enters the third stage, emitting its start event.
    pub fn begin_stage3(&mut self) -> (e: CouncilEvent)
        requires
            progress_wf(*old(self)),
            !old(self).failed,
            old(self).phase == CouncilPhase::Stage2Done,
        ensures
            progress_wf(*final(self)),
            !final(self).failed,
            final(self).phase == CouncilPhase::Stage3,
            final(self).title_done == old(self).title_done,
            final(self).emitted@ == old(self).emitted@.push(e),
            e == CouncilEvent::Stage3Start,
    {
        self.phase = CouncilPhase::Stage3;
        self.emitted.push(CouncilEvent::Stage3Start);
        proof {
            assert(self.emitted@ =~= events_through(CouncilPhase::Stage3, self.title_done));
        }
        CouncilEvent::Stage3Start
    }

    /// Leaves the third stage, emitting its completion event.
    pub fn complete_stage3(&mut self) -> (e: CouncilEvent)
        requires
            progress_wf(*old(self)),
            !old(self).failed,
            old(self).phase == CouncilPhase::Stage3,
        ensures
            progress_wf(*final(self)),
            !final(self).failed,
            final(self).phase == CouncilPhase::Stage3Done,
            final(self).title_done == old(self).title_done,
            final(self).emitted@ == old(self).emitted@.push(e),
            e == CouncilEvent::Stage3Complete,
    {
        self.phase = CouncilPhase::Stage3Done;
        self.emitted.push(CouncilEvent::Stage3Complete);
        proof {
            assert(self.emitted@ =~= events_through(CouncilPhase::Stage3Done, self.title_done));
        }
        CouncilEvent::Stage3Complete
    }

    /// Records the joined title task, emitting its event. Happens at most
    /// once, after the third stage.
    pub fn note_title(&mut self) -> (e: CouncilEvent)
        requires
            progress_wf(*old(self)),
            !old(self).failed,
            old(self).phase == CouncilPhase::Stage3Done,
            !old(self).title_done,
        ensures
            progress_wf(*final(self)),
            !final(self).failed,
            final(self).phase == CouncilPhase::Stage3Done,
            final(self).title_done,
            final(self).emitted@ == old(self).emitted@.push(e),
            e == CouncilEvent::TitleComplete,
    {
        self.title_done = true;
        self.emitted.push(CouncilEvent::TitleComplete);
        proof {
            assert(self.emitted@ =~= events_through(CouncilPhase::Stage3Done, true));
        }
        CouncilEvent::TitleComplete
    }

    /// Ends a healthy run, emitting the terminal marker.
    pub fn finish(&mut self) -> (e: CouncilEvent)
        requires
            progress_wf(*old(self)),
            !old(self).failed,
            old(self).phase == CouncilPhase::Stage3Done,
        ensures
            progress_wf(*final(self)),
            !final(self).failed,
            final(self).phase == CouncilPhase::Ended,
            final(self).emitted@ == old(self).emitted@.push(e),
            e == CouncilEvent::Complete,
    {
        self.phase = CouncilPhase::Ended;
        self.emitted.push(CouncilEvent::Complete);
        proof {
            assert(self.emitted@ =~= events_through(CouncilPhase::Ended, self.title_done));
        }
        CouncilEvent::Complete
    }

    /// Ends the run on a failure, emitting the terminating error event.
    pub fn fail(&mut self) -> (e: CouncilEvent)
        requires
            progress_wf(*old(self)),
            old(self).phase != CouncilPhase::Ended,
        ensures
            progress_wf(*final(self)),
            final(self).failed,
            final(self).phase == CouncilPhase::Ended,
            final(self).emitted@ == old(self).emitted@.push(e),
            e == CouncilEvent::ErrorEvent,
    {
        self.phase = CouncilPhase::Ended;
        self.failed = true;
        self.emitted.push(CouncilEvent::ErrorEvent);
        CouncilEvent::ErrorEvent
    }
}

} // verus!
