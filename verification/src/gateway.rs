//! Interpretation of backend chat responses and assembly of per-stage
//! results. The network call itself is the caller's business; this module
//! turns what came back — or did not come back — into the data model.

use vstd::prelude::*;
use crate::models::{FileAttachment, ModelResponse, Stage1Result, Stage2Result, Stage3Result, Usage};
use crate::ranking::{parse_ranking_from_text, parse_ranking_spec};
use crate::textscan::{occurs_at, starts_with};

verus! {

/// One part of an outgoing user message: plain text, or an image carried as
/// its data URL.
#[derive(Clone, Debug)]
pub enum MessagePart {
    Text(String),
    ImageUrl(String),
}

/// The data URLs of the image attachments, in order.
pub open spec fn image_urls(files: Seq<FileAttachment>) -> Seq<Seq<char>>
    decreases files.len(),
{
    if files.len() == 0 {
        Seq::empty()
    } else {
        image_urls(files.drop_last()) + if occurs_at(files.last().file_type@, "image/"@, 0) {
            seq![files.last().data@]
        } else {
            Seq::empty()
        }
    }
}

/// Builds the typed parts of one user message: the query text first, then
/// one image part per image attachment, in attachment order. A message
/// without image parts is sent as plain text.
pub fn build_user_message(query_text: String, files: Option<&Vec<FileAttachment>>) -> (parts: Vec<
    MessagePart,
>)
    ensures
        parts@.len() == 1 + match files {
            Option::Some(fs) => image_urls(fs@).len(),
            Option::None => 0,
        },
        parts@[0] == MessagePart::Text(query_text),
        forall|i: int|
            1 <= i < parts@.len() ==> ((#[trigger] parts@[i]) matches MessagePart::ImageUrl(u)
                && u@ == match files {
                Option::Some(fs) => image_urls(fs@)[i - 1],
                Option::None => Seq::<char>::empty(),
            }),
{
    let mut parts: Vec<MessagePart> = Vec::new();
    parts.push(MessagePart::Text(query_text));
    match files {
        Option::Some(fs) => {
            let n = fs.len();
            let mut i: usize = 0;
            proof {
                assert(image_urls(fs@.take(0)) =~= Seq::<Seq<char>>::empty());
            }
            while i < n
                invariant
                    i <= n,
                    n == fs@.len(),
                    parts@.len() == 1 + image_urls(fs@.take(i as int)).len(),
                    parts@[0] == MessagePart::Text(query_text),
                    forall|k: int|
                        1 <= k < parts@.len() ==> ((#[trigger] parts@[k])
                            matches MessagePart::ImageUrl(u) && u@ == image_urls(
                            fs@.take(i as int),
                        )[k - 1]),
                decreases n - i,
            {
                if starts_with(fs[i].file_type.as_str(), "image/") {
                    parts.push(MessagePart::ImageUrl(fs[i].data.clone()));
                }
                proof {
                    assert(fs@.take(i as int + 1).drop_last() =~= fs@.take(i as int));
                    assert(fs@.take(i as int + 1).last() == fs@[i as int]);
                }
                i = i + 1;
            }
            proof {
                assert(fs@.take(n as int) =~= fs@);
            }
        },
        Option::None => {},
    }
    parts
}

/// A reported token count folded to the stored 32-bit counter: absent
/// counts become zero, larger ones keep their low 32 bits.
pub open spec fn counter_of(x: Option<u64>) -> u32 {
    (match x {
        Option::Some(v) => v,
        Option::None => 0,
    } % 0x1_0000_0000) as u32
}

/// Builds the interpreted response of one backend call: missing content is
/// the empty string; when a usage object was present, each missing counter
/// is zero.
pub fn interpret_chat_response(
    content: Option<String>,
    usage_present: bool,
    prompt_tokens: Option<u64>,
    completion_tokens: Option<u64>,
    total_tokens: Option<u64>,
) -> (r: ModelResponse)
    ensures
        r.content@ == match content {
            Option::Some(c) => c@,
            Option::None => Seq::<char>::empty(),
        },
        r.usage == if usage_present {
            Option::Some(
                Usage {
                    prompt_tokens: counter_of(prompt_tokens),
                    completion_tokens: counter_of(completion_tokens),
                    total_tokens: counter_of(total_tokens),
                },
            )
        } else {
            Option::None::<Usage>
        },
{
    let text = match content {
        Option::Some(c) => c,
        Option::None => String::new(),
    };
    let usage = if usage_present {
        Some(
            Usage {
                prompt_tokens: fold_counter(prompt_tokens),
                completion_tokens: fold_counter(completion_tokens),
                total_tokens: fold_counter(total_tokens),
            },
        )
    } else {
        None
    };
    ModelResponse { content: text, usage }
}

/// The low 32 bits of a reported counter, zero when absent.
fn fold_counter(x: Option<u64>) -> (r: u32)
    ensures
        r == counter_of(x),
{
    match x {
        Option::Some(v) => (v % 0x1_0000_0000u64) as u32,
        Option::None => 0,
    }
}

/// The successful calls of a fan-out, in issue order.
pub open spec fn successes(rs: Seq<(String, Option<ModelResponse>)>) -> Seq<(String, ModelResponse)>
    decreases rs.len(),
{
    if rs.len() == 0 {
        Seq::empty()
    } else {
        successes(rs.drop_last()) + match rs.last().1 {
            Option::Some(m) => seq![(rs.last().0, m)],
            Option::None => Seq::empty(),
        }
    }
}

/// Turns the fan-out answers of the first stage into its results: one per
/// successful call, in issue order; failed calls are omitted.
pub fn collect_stage1_results(responses: Vec<(String, Option<ModelResponse>)>) -> (results: Vec<
    Stage1Result,
>)
    ensures
        results@.len() == successes(responses@).len(),
        forall|i: int|
            0 <= i < results@.len() ==> {
                let r = #[trigger] results@[i];
                let s = successes(responses@)[i];
                r.model == s.0 && r.response == s.1.content && r.usage == s.1.usage
            },
{
    let mut results: Vec<Stage1Result> = Vec::new();
    let n = responses.len();
    let mut i: usize = 0;
    proof {
        assert(successes(responses@.take(0)) =~= Seq::<(String, ModelResponse)>::empty());
    }
    while i < n
        invariant
            i <= n,
            n == responses@.len(),
            results@.len() == successes(responses@.take(i as int)).len(),
            forall|k: int|
                0 <= k < results@.len() ==> {
                    let r = #[trigger] results@[k];
                    let s = successes(responses@.take(i as int))[k];
                    r.model == s.0 && r.response == s.1.content && r.usage == s.1.usage
                },
        decreases n - i,
    {
        match &responses[i].1 {
            Option::Some(m) => {
                results.push(
                    Stage1Result {
                        model: responses[i].0.clone(),
                        response: m.content.clone(),
                        usage: m.usage,
                    },
                );
            },
            Option::None => {},
        }
        proof {
            assert(responses@.take(i as int + 1).drop_last() =~= responses@.take(i as int));
            assert(responses@.take(i as int + 1).last() == responses@[i as int]);
        }
        i = i + 1;
    }
    proof {
        assert(responses@.take(n as int) =~= responses@);
    }
    results
}

/// Turns the fan-out answers of the second stage into its results: one per
/// successful call, in issue order, each with the label list parsed from
/// its verdict text.
pub fn collect_stage2_results(responses: Vec<(String, Option<ModelResponse>)>) -> (results: Vec<
    Stage2Result,
>)
    ensures
        results@.len() == successes(responses@).len(),
        forall|i: int|
            0 <= i < results@.len() ==> {
                let r = #[trigger] results@[i];
                let s = successes(responses@)[i];
                r.model == s.0 && r.ranking == s.1.content && r.parsed_ranking.deep_view()
                    == parse_ranking_spec(s.1.content@) && r.usage == s.1.usage
            },
{
    let mut results: Vec<Stage2Result> = Vec::new();
    let n = responses.len();
    let mut i: usize = 0;
    proof {
        assert(successes(responses@.take(0)) =~= Seq::<(String, ModelResponse)>::empty());
    }
    while i < n
        invariant
            i <= n,
            n == responses@.len(),
            results@.len() == successes(responses@.take(i as int)).len(),
            forall|k: int|
                0 <= k < results@.len() ==> {
                    let r = #[trigger] results@[k];
                    let s = successes(responses@.take(i as int))[k];
                    r.model == s.0 && r.ranking == s.1.content && r.parsed_ranking.deep_view()
                        == parse_ranking_spec(s.1.content@) && r.usage == s.1.usage
                },
        decreases n - i,
    {
        match &responses[i].1 {
            Option::Some(m) => {
                let parsed = parse_ranking_from_text(m.content.as_str());
                results.push(
                    Stage2Result {
                        model: responses[i].0.clone(),
                        ranking: m.content.clone(),
                        parsed_ranking: parsed,
                        usage: m.usage,
                    },
                );
            },
            Option::None => {},
        }
        proof {
            assert(responses@.take(i as int + 1).drop_last() =~= responses@.take(i as int));
            assert(responses@.take(i as int + 1).last() == responses@[i as int]);
        }
        i = i + 1;
    }
    proof {
        assert(responses@.take(n as int) =~= responses@);
    }
    results
}

/// The chairman's stage result: their answer on success, else the fixed
/// degraded message with no usage.
pub fn stage3_from_response(chairman_model: &String, response: Option<ModelResponse>) -> (r:
    Stage3Result)
    ensures
        r.model == *chairman_model,
        match response {
            Option::Some(m) => r.response == m.content && r.usage == m.usage,
            Option::None => r.response@ == "Error: Unable to generate final synthesis."@ && r.usage
                is None,
        },
{
    match response {
        Option::Some(m) => Stage3Result {
            model: chairman_model.clone(),
            response: m.content,
            usage: m.usage,
        },
        Option::None => Stage3Result {
            model: chairman_model.clone(),
            response: String::from_str("Error: Unable to generate final synthesis."),
            usage: None,
        },
    }
}

} // verus!
