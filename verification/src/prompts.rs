//! Prompt assembly for the three stages, extraction of text from attached
//! files, and cleanup of generated conversation titles.

use vstd::prelude::*;
use crate::models::{FileAttachment, Stage1Result, Stage2Result};
use crate::labels::label_key;
use crate::labels::label_string;
use crate::textscan::{find_pat_from, lemma_find_pat_from_props, occurs_at, find_pat, starts_with, str_eq};

verus! {

/// What base64's standard-alphabet engine decodes `s` to, or nothing when
/// `s` is not valid base64. The result depends on the characters alone.
pub uninterp spec fn base64_standard_decode(s: Seq<char>) -> Option<Seq<u8>>;

/// Relies on base64's `Engine::decode` with the `STANDARD` engine: the
/// result is a function of the input characters alone; a decode error is
/// reported as absence.
#[verifier::external_body]
fn decode_base64_standard(s: &str) -> (r: Option<Vec<u8>>)
    ensures
        match r {
            Option::Some(v) => base64_standard_decode(s@) == Option::Some(v@),
            Option::None => base64_standard_decode(s@) is None,
        },
{
    match base64::Engine::decode(&base64::engine::general_purpose::STANDARD, s) {
        Ok(v) => Some(v),
        Err(_) => None,
    }
}

/// Relies on `String::from_utf8`: it succeeds exactly on valid UTF-8 and
/// returns its decoding.
#[verifier::external_body]
fn utf8_to_string(bytes: Vec<u8>) -> (r: Option<String>)
    ensures
        match r {
            Option::Some(s) => vstd::utf8::valid_utf8(bytes@) && s@ == vstd::utf8::decode_utf8(
                bytes@,
            ),
            Option::None => !vstd::utf8::valid_utf8(bytes@),
        },
{
    match String::from_utf8(bytes) {
        Ok(s) => Some(s),
        Err(_) => None,
    }
}

/// Attachment types whose contents are not inlined as text: images and the
/// common opaque document formats.
pub open spec fn is_skipped_type(t: Seq<char>) -> bool {
    occurs_at(t, "image/"@, 0) || t == "application/pdf"@ || t == "application/msword"@ || t
        == "application/vnd.openxmlformats-officedocument.wordprocessingml.document"@
}

/// The base64 payload of a data URL: the segment between the first
/// `base64,` separator and the next one (or the end), when the separator is
/// present at all.
pub open spec fn data_url_payload(d: Seq<char>) -> Option<Seq<char>> {
    let a = find_pat_from(d, "base64,"@, 0);
    if a < 0 {
        Option::None
    } else {
        let start = a + "base64,"@.len();
        let b = find_pat_from(d, "base64,"@, start);
        let end = if b < 0 {
            d.len() as int
        } else {
            b
        };
        Option::Some(d.subrange(start, end))
    }
}

/// The framed text block of one attachment.
pub open spec fn file_entry(name: Seq<char>, content: Seq<char>) -> Seq<char> {
    "--- File: "@ + name + " ---\n"@ + content + "\n--- End of "@ + name + " ---"@
}

/// The inlined text of one attachment: nothing for skipped types, data URLs
/// without a base64 payload, undecodable payloads, or non-UTF-8 contents.
pub open spec fn file_text(f: FileAttachment) -> Option<Seq<char>> {
    if is_skipped_type(f.file_type@) {
        Option::None
    } else {
        match data_url_payload(f.data@) {
            Option::None => Option::None,
            Option::Some(seg) => match base64_standard_decode(seg) {
                Option::None => Option::None,
                Option::Some(bytes) => if vstd::utf8::valid_utf8(bytes) {
                    Option::Some(file_entry(f.name@, vstd::utf8::decode_utf8(bytes)))
                } else {
                    Option::None
                },
            },
        }
    }
}

/// The text blocks of the attachments that yield one, in order.
pub open spec fn files_texts(files: Seq<FileAttachment>) -> Seq<Seq<char>>
    decreases files.len(),
{
    if files.len() == 0 {
        Seq::empty()
    } else {
        files_texts(files.drop_last()) + match file_text(files.last()) {
            Option::Some(t) => seq![t],
            Option::None => Seq::empty(),
        }
    }
}

/// Text blocks joined by blank lines.
pub open spec fn joined_blocks(parts: Seq<Seq<char>>) -> Seq<char>
    decreases parts.len(),
{
    if parts.len() == 0 {
        Seq::empty()
    } else if parts.len() == 1 {
        parts[0]
    } else {
        joined_blocks(parts.drop_last()) + "\n\n"@ + parts.last()
    }
}

/// What `extract_text_from_files` returns: nothing when no attachment
/// yields text, else a blank line followed by the joined blocks.
pub open spec fn extract_spec(files: Seq<FileAttachment>) -> Seq<char> {
    let parts = files_texts(files);
    if parts.len() == 0 {
        Seq::empty()
    } else {
        "\n\n"@ + joined_blocks(parts)
    }
}

/// Whether the attachment's contents are skipped rather than inlined.
fn is_skipped_type_exec(t: &str) -> (r: bool)
    ensures
        r == is_skipped_type(t@),
{
    if starts_with(t, "image/") {
        return true;
    }
    if str_eq(t, "application/pdf") {
        return true;
    }
    if str_eq(t, "application/msword") {
        return true;
    }
    str_eq(t, "application/vnd.openxmlformats-officedocument.wordprocessingml.document")
}

/// The base64 payload of the attachment's data URL, if any.
fn data_url_payload_exec(d: &str) -> (r: Option<String>)
    ensures
        match r {
            Option::Some(seg) => data_url_payload(d@) == Option::Some(seg@),
            Option::None => data_url_payload(d@) is None,
        },
{
    proof {
        reveal_strlit("base64,");
    }
    match find_pat(d, "base64,", 0) {
        Option::Some(a) => {
            let n = d.unicode_len();
            proof {
                lemma_find_pat_from_props(d@, "base64,"@, 0);
                assert(a + 7 <= n);
            }
            let start = a + 7;
            let end = match find_pat(d, "base64,", start) {
                Option::Some(b) => {
                    proof {
                        lemma_find_pat_from_props(d@, "base64,"@, start as int);
                    }
                    b
                },
                Option::None => n,
            };
            Some(d.substring_char(start, end).to_owned())
        },
        Option::None => None,
    }
}

/// The inlined text block of one attachment, if it yields one.
fn file_text_exec(f: &FileAttachment) -> (r: Option<String>)
    ensures
        match r {
            Option::Some(t) => file_text(*f) == Option::Some(t@),
            Option::None => file_text(*f) is None,
        },
{
    if is_skipped_type_exec(f.file_type.as_str()) {
        return None;
    }
    let seg = match data_url_payload_exec(f.data.as_str()) {
        Option::Some(seg) => seg,
        Option::None => {
            return None;
        },
    };
    let bytes = match decode_base64_standard(seg.as_str()) {
        Option::Some(bytes) => bytes,
        Option::None => {
            return None;
        },
    };
    let content = match utf8_to_string(bytes) {
        Option::Some(content) => content,
        Option::None => {
            return None;
        },
    };
    let mut entry = String::from_str("--- File: ");
    entry.append(f.name.as_str());
    entry.append(" ---\n");
    entry.append(content.as_str());
    entry.append("\n--- End of ");
    entry.append(f.name.as_str());
    entry.append(" ---");
    proof {
        assert(entry@ =~= file_entry(f.name@, content@));
    }
    Some(entry)
}

/// Inlines the text of every eligible attachment, framed per file and
/// joined by blank lines; empty when no attachment yields text.
pub fn extract_text_from_files(files: &Vec<FileAttachment>) -> (r: String)
    ensures
        r@ == extract_spec(files@),
{
    let mut parts: Vec<String> = Vec::new();
    let n = files.len();
    let mut i: usize = 0;
    proof {
        assert(files@.take(0) =~= Seq::<FileAttachment>::empty());
        assert(parts.deep_view() =~= files_texts(files@.take(0)));
    }
    while i < n
        invariant
            i <= n,
            n == files@.len(),
            parts.deep_view() == files_texts(files@.take(i as int)),
        decreases n - i,
    {
        let ghost pre = parts.deep_view();
        match file_text_exec(&files[i]) {
            Option::Some(t) => {
                let ghost tv = t@;
                parts.push(t);
                proof {
                    assert(parts.deep_view() =~= pre.push(tv));
                }
            },
            Option::None => {},
        }
        proof {
            assert(files@.take(i as int + 1).drop_last() =~= files@.take(i as int));
            assert(files@.take(i as int + 1).last() == files@[i as int]);
            assert(parts.deep_view() =~= files_texts(files@.take(i as int + 1)));
        }
        i = i + 1;
    }
    proof {
        assert(files@.take(n as int) =~= files@);
    }
    if parts.len() == 0 {
        let r = String::new();
        return r;
    }
    let mut out = String::from_str("\n\n");
    let m = parts.len();
    let mut k: usize = 0;
    while k < m
        invariant
            k <= m,
            m == parts@.len(),
            m > 0,
            parts.deep_view() == files_texts(files@),
            k == 0 ==> out@ == "\n\n"@,
            k > 0 ==> out@ == "\n\n"@ + joined_blocks(parts.deep_view().take(k as int)),
        decreases m - k,
    {
        if k > 0 {
            out.append("\n\n");
        }
        out.append(parts[k].as_str());
        proof {
            let pv = parts.deep_view();
            assert(pv.take(k as int + 1).drop_last() =~= pv.take(k as int));
            assert(pv.take(k as int + 1).last() == pv[k as int]);
            assert(pv[k as int] == parts@[k as int]@);
            if k == 0 {
                assert(pv.take(1)[0] == pv[0]);
                assert(out@ =~= "\n\n"@ + joined_blocks(pv.take(1)));
            } else {
                assert(out@ =~= "\n\n"@ + joined_blocks(pv.take(k as int + 1)));
            }
        }
        k = k + 1;
    }
    proof {
        assert(parts.deep_view().take(m as int) =~= parts.deep_view());
    }
    out
}

/// The query text a stage sees: the user's question with any attachment
/// text appended.
pub open spec fn composed_query(q: Seq<char>, files: Option<Seq<FileAttachment>>) -> Seq<char> {
    match files {
        Option::Some(fs) => q + extract_spec(fs),
        Option::None => q,
    }
}

/// Appends the attachments' text to the user's question.
pub fn compose_query(user_query: &str, files: Option<&Vec<FileAttachment>>) -> (r: String)
    ensures
        r@ == composed_query(
            user_query@,
            match files {
                Option::Some(fs) => Option::Some(fs@),
                Option::None => Option::None,
            },
        ),
{
    let mut out = user_query.to_owned();
    match files {
        Option::Some(fs) => {
            let extra = extract_text_from_files(fs);
            out.append(extra.as_str());
        },
        Option::None => {},
    }
    out
}

/// One labelled line of the ranking prompt: the label of position `i`, a
/// colon, and that position's response.
pub open spec fn labeled_response(i: int, response: Seq<char>) -> Seq<char> {
    label_key(i) + ":\n"@ + response
}

/// The anonymized responses block of the ranking prompt, blank-line
/// separated, in label order.
pub open spec fn labeled_responses_text(s1: Seq<Stage1Result>) -> Seq<char>
    decreases s1.len(),
{
    if s1.len() == 0 {
        Seq::empty()
    } else if s1.len() == 1 {
        labeled_response(0, s1[0].response@)
    } else {
        labeled_responses_text(s1.drop_last()) + "\n\n"@ + labeled_response(
            s1.len() - 1,
            s1.last().response@,
        )
    }
}

/// The blind-ranking prompt built over the composed query and the labelled
/// first-stage responses.
pub open spec fn ranking_prompt_spec(q: Seq<char>, s1: Seq<Stage1Result>) -> Seq<char> {
    "You are evaluating different responses to the following question:\n\nQuestion: "@ + q
        + "\n\nHere are the responses from different models (anonymized):\n\n"@
        + labeled_responses_text(s1)
        + "\n\nYour task:\n1. First, evaluate each response individually. For each response, explain what it does well and what it does poorly.\n2. Then, at the very end of your response, provide a final ranking.\n\nIMPORTANT: Your final ranking MUST be formatted EXACTLY as follows:\n- Start with the line \"FINAL RANKING:\" (all caps, with colon)\n- Then list the responses from best to worst as a numbered list\n- Each line should be: number, period, space, then ONLY the response label (e.g., \"1. Response A\")\n- Do not add any other text or explanations in the ranking section\n\nExample of the correct format for your ENTIRE response:\n\nResponse A provides good detail on X but misses Y...\nResponse B is accurate but lacks depth on Z...\nResponse C offers the most comprehensive answer...\n\nFINAL RANKING:\n1. Response C\n2. Response A\n3. Response B\n\nNow provide your evaluation and ranking:"@
}

/// Builds the blind-ranking prompt for the given query and responses.
pub fn build_ranking_prompt(query_text: &str, stage1_results: &Vec<Stage1Result>) -> (r: String)
    requires
        stage1_results@.len() <= 26,
    ensures
        r@ == ranking_prompt_spec(query_text@, stage1_results@),
{
    let mut out = String::from_str(
        "You are evaluating different responses to the following question:\n\nQuestion: ",
    );
    out.append(query_text);
    out.append("\n\nHere are the responses from different models (anonymized):\n\n");
    let n = stage1_results.len();
    let mut i: usize = 0;
    let ghost header = "You are evaluating different responses to the following question:\n\nQuestion: "@
        + query_text@ + "\n\nHere are the responses from different models (anonymized):\n\n"@;
    proof {
        assert(out@ =~= header + labeled_responses_text(stage1_results@.take(0)));
    }
    while i < n
        invariant
            i <= n,
            n == stage1_results@.len(),
            n <= 26,
            out@ == header + labeled_responses_text(stage1_results@.take(i as int)),
        decreases n - i,
    {
        if i > 0 {
            out.append("\n\n");
        }
        let label = label_string(i);
        out.append(label.as_str());
        out.append(":\n");
        out.append(stage1_results[i].response.as_str());
        proof {
            let s1 = stage1_results@;
            assert(s1.take(i as int + 1).drop_last() =~= s1.take(i as int));
            assert(s1.take(i as int + 1).last() == s1[i as int]);
            if i == 0 {
                assert(s1.take(1)[0] == s1[0]);
                assert(out@ =~= header + labeled_responses_text(s1.take(1)));
            } else {
                assert(out@ =~= header + labeled_responses_text(s1.take(i as int + 1)));
            }
        }
        i = i + 1;
    }
    proof {
        assert(stage1_results@.take(n as int) =~= stage1_results@);
    }
    out.append(
        "\n\nYour task:\n1. First, evaluate each response individually. For each response, explain what it does well and what it does poorly.\n2. Then, at the very end of your response, provide a final ranking.\n\nIMPORTANT: Your final ranking MUST be formatted EXACTLY as follows:\n- Start with the line \"FINAL RANKING:\" (all caps, with colon)\n- Then list the responses from best to worst as a numbered list\n- Each line should be: number, period, space, then ONLY the response label (e.g., \"1. Response A\")\n- Do not add any other text or explanations in the ranking section\n\nExample of the correct format for your ENTIRE response:\n\nResponse A provides good detail on X but misses Y...\nResponse B is accurate but lacks depth on Z...\nResponse C offers the most comprehensive answer...\n\nFINAL RANKING:\n1. Response C\n2. Response A\n3. Response B\n\nNow provide your evaluation and ranking:",
    );
    proof {
        assert(out@ =~= ranking_prompt_spec(query_text@, stage1_results@));
    }
    out
}

/// One transcript line pair of the chairman prompt's first-stage block.
pub open spec fn stage1_line(model: Seq<char>, response: Seq<char>) -> Seq<char> {
    "Model: "@ + model + "\nResponse: "@ + response
}

/// One transcript line pair of the chairman prompt's second-stage block.
pub open spec fn stage2_line(model: Seq<char>, ranking: Seq<char>) -> Seq<char> {
    "Model: "@ + model + "\nRanking: "@ + ranking
}

/// The first-stage transcript block, blank-line separated.
pub open spec fn stage1_transcript(s1: Seq<Stage1Result>) -> Seq<char>
    decreases s1.len(),
{
    if s1.len() == 0 {
        Seq::empty()
    } else if s1.len() == 1 {
        stage1_line(s1[0].model@, s1[0].response@)
    } else {
        stage1_transcript(s1.drop_last()) + "\n\n"@ + stage1_line(
            s1.last().model@,
            s1.last().response@,
        )
    }
}

/// The second-stage transcript block, blank-line separated.
pub open spec fn stage2_transcript(s2: Seq<Stage2Result>) -> Seq<char>
    decreases s2.len(),
{
    if s2.len() == 0 {
        Seq::empty()
    } else if s2.len() == 1 {
        stage2_line(s2[0].model@, s2[0].ranking@)
    } else {
        stage2_transcript(s2.drop_last()) + "\n\n"@ + stage2_line(
            s2.last().model@,
            s2.last().ranking@,
        )
    }
}

/// The synthesis prompt handed to the chairman: the composed query and the
/// full transcripts of both stages.
pub open spec fn chairman_prompt_spec(
    q: Seq<char>,
    s1: Seq<Stage1Result>,
    s2: Seq<Stage2Result>,
) -> Seq<char> {
    "You are the Chairman of an LLM Council. Multiple AI models have provided responses to a user's question, and then ranked each other's responses.\n\nOriginal Question: "@
        + q + "\n\nSTAGE 1 - Individual Responses:\n"@ + stage1_transcript(s1)
        + "\n\nSTAGE 2 - Peer Rankings:\n"@ + stage2_transcript(s2)
        + "\n\nYour task as Chairman is to synthesize all of this information into a single, comprehensive, accurate answer to the user's original question. Consider:\n- The individual responses and their insights\n- The peer rankings and what they reveal about response quality\n- Any patterns of agreement or disagreement\n\nProvide a clear, well-reasoned final answer that represents the council's collective wisdom:"@
}

/// Builds the chairman's synthesis prompt.
pub fn build_chairman_prompt(
    query_text: &str,
    stage1_results: &Vec<Stage1Result>,
    stage2_results: &Vec<Stage2Result>,
) -> (r: String)
    ensures
        r@ == chairman_prompt_spec(query_text@, stage1_results@, stage2_results@),
{
    let mut out = String::from_str(
        "You are the Chairman of an LLM Council. Multiple AI models have provided responses to a user's question, and then ranked each other's responses.\n\nOriginal Question: ",
    );
    out.append(query_text);
    out.append("\n\nSTAGE 1 - Individual Responses:\n");
    let ghost header1 = out@;
    let n1 = stage1_results.len();
    let mut i: usize = 0;
    proof {
        assert(out@ =~= header1 + stage1_transcript(stage1_results@.take(0)));
    }
    while i < n1
        invariant
            i <= n1,
            n1 == stage1_results@.len(),
            out@ == header1 + stage1_transcript(stage1_results@.take(i as int)),
        decreases n1 - i,
    {
        if i > 0 {
            out.append("\n\n");
        }
        out.append("Model: ");
        out.append(stage1_results[i].model.as_str());
        out.append("\nResponse: ");
        out.append(stage1_results[i].response.as_str());
        proof {
            let s1 = stage1_results@;
            assert(s1.take(i as int + 1).drop_last() =~= s1.take(i as int));
            assert(s1.take(i as int + 1).last() == s1[i as int]);
            if i == 0 {
                assert(s1.take(1)[0] == s1[0]);
            }
            assert(out@ =~= header1 + stage1_transcript(s1.take(i as int + 1)));
        }
        i = i + 1;
    }
    proof {
        assert(stage1_results@.take(n1 as int) =~= stage1_results@);
    }
    out.append("\n\nSTAGE 2 - Peer Rankings:\n");
    let ghost header2 = out@;
    let n2 = stage2_results.len();
    let mut i: usize = 0;
    proof {
        assert(out@ =~= header2 + stage2_transcript(stage2_results@.take(0)));
    }
    while i < n2
        invariant
            i <= n2,
            n2 == stage2_results@.len(),
            out@ == header2 + stage2_transcript(stage2_results@.take(i as int)),
        decreases n2 - i,
    {
        if i > 0 {
            out.append("\n\n");
        }
        out.append("Model: ");
        out.append(stage2_results[i].model.as_str());
        out.append("\nRanking: ");
        out.append(stage2_results[i].ranking.as_str());
        proof {
            let s2 = stage2_results@;
            assert(s2.take(i as int + 1).drop_last() =~= s2.take(i as int));
            assert(s2.take(i as int + 1).last() == s2[i as int]);
            if i == 0 {
                assert(s2.take(1)[0] == s2[0]);
            }
            assert(out@ =~= header2 + stage2_transcript(s2.take(i as int + 1)));
        }
        i = i + 1;
    }
    proof {
        assert(stage2_results@.take(n2 as int) =~= stage2_results@);
    }
    out.append(
        "\n\nYour task as Chairman is to synthesize all of this information into a single, comprehensive, accurate answer to the user's original question. Consider:\n- The individual responses and their insights\n- The peer rankings and what they reveal about response quality\n- Any patterns of agreement or disagreement\n\nProvide a clear, well-reasoned final answer that represents the council's collective wisdom:",
    );
    proof {
        assert(out@ =~= chairman_prompt_spec(query_text@, stage1_results@, stage2_results@));
    }
    out
}

/// The prompt that asks for a short conversation title.
pub open spec fn title_prompt_spec(q: Seq<char>) -> Seq<char> {
    "Generate a very short title (3-5 words maximum) that summarizes the following question.\nThe title should be concise and descriptive. Do not use quotes or punctuation in the title.\n\nQuestion: "@
        + q + "\n\nTitle:"@
}

/// Builds the title-generation prompt.
pub fn build_title_prompt(user_query: &str) -> (r: String)
    ensures
        r@ == title_prompt_spec(user_query@),
{
    let mut out = String::from_str(
        "Generate a very short title (3-5 words maximum) that summarizes the following question.\nThe title should be concise and descriptive. Do not use quotes or punctuation in the title.\n\nQuestion: ",
    );
    out.append(user_query);
    out.append("\n\nTitle:");
    proof {
        assert(out@ =~= title_prompt_spec(user_query@));
    }
    out
}

/// A straight or single quote, stripped from the ends of a generated
/// title.
pub open spec fn is_quote_char(c: char) -> bool {
    c == '"' || c == '\''
}

/// `s` with its longest prefix of characters satisfying `p` removed.
pub open spec fn trim_front(s: Seq<char>, p: spec_fn(char) -> bool) -> Seq<char>
    decreases s.len(),
{
    if s.len() > 0 && p(s[0]) {
        trim_front(s.drop_first(), p)
    } else {
        s
    }
}

/// `s` with its longest suffix of characters satisfying `p` removed.
pub open spec fn trim_back(s: Seq<char>, p: spec_fn(char) -> bool) -> Seq<char>
    decreases s.len(),
{
    if s.len() > 0 && p(s.last()) {
        trim_back(s.drop_last(), p)
    } else {
        s
    }
}

proof fn lemma_trim_front_skip(s: Seq<char>, p: spec_fn(char) -> bool, k: int)
    requires
        0 <= k <= s.len(),
        forall|t: int| 0 <= t < k ==> p(s[t]),
        k < s.len() ==> !p(s[k]),
    ensures
        trim_front(s, p) == s.skip(k),
    decreases k,
{
    if k == 0 {
        assert(s.skip(0) =~= s);
    } else {
        let s2 = s.drop_first();
        assert(forall|t: int| 0 <= t < k - 1 ==> p(#[trigger] s2[t]));
        lemma_trim_front_skip(s2, p, k - 1);
        assert(s2.skip(k - 1) =~= s.skip(k));
    }
}

proof fn lemma_trim_back_take(s: Seq<char>, p: spec_fn(char) -> bool, k: int)
    requires
        0 <= k <= s.len(),
        forall|t: int| k <= t < s.len() ==> p(s[t]),
        k > 0 ==> !p(s[k - 1]),
    ensures
        trim_back(s, p) == s.take(k),
    decreases s.len(),
{
    if k == s.len() {
        assert(s.take(k) =~= s);
    } else {
        let s2 = s.drop_last();
        assert(forall|t: int| k <= t < s2.len() ==> p(#[trigger] s2[t]));
        lemma_trim_back_take(s2, p, k);
        assert(s2.take(k) =~= s.take(k));
    }
}

/// What cleaning a generated title yields: whitespace trimmed from both
/// ends, then quotes trimmed from both ends, and a title longer than 50
/// characters cut to its first 47 with an ellipsis.
pub open spec fn clean_title_spec(raw: Seq<char>) -> Seq<char> {
    let ws = trim_back(
        trim_front(raw, |c: char| crate::ranking::is_space_char(c)),
        |c: char| crate::ranking::is_space_char(c),
    );
    let t = trim_back(trim_front(ws, |c: char| is_quote_char(c)), |c: char| is_quote_char(c));
    if t.len() > 50 {
        t.take(47) + "..."@
    } else {
        t
    }
}

/// Whether `c` is a straight or single quote.
fn is_quote_exec(c: char) -> (r: bool)
    ensures
        r == is_quote_char(c),
{
    c == '"' || c == '\''
}

/// Cleans a model-generated title: trims surrounding whitespace and quotes
/// and cuts overlong titles to 47 characters plus an ellipsis.
#[verifier::loop_isolation(false)]
pub fn clean_title(raw: &str) -> (r: String)
    ensures
        r@ == clean_title_spec(raw@),
{
    let ghost s = raw@;
    let ghost pws = |c: char| crate::ranking::is_space_char(c);
    let ghost pq = |c: char| is_quote_char(c);
    let n = raw.unicode_len();
    let mut lo1: usize = 0;
    while lo1 < n && crate::ranking::is_space_exec(raw.get_char(lo1))
        invariant
            s == raw@,
            n == s.len(),
            lo1 <= n,
            forall|t: int| 0 <= t < lo1 ==> pws(s[t]),
        decreases n - lo1,
    {
        lo1 = lo1 + 1;
    }
    let mut hi1: usize = n;
    while hi1 > lo1 && crate::ranking::is_space_exec(raw.get_char(hi1 - 1))
        invariant
            s == raw@,
            n == s.len(),
            lo1 <= hi1 <= n,
            forall|t: int| 0 <= t < lo1 ==> pws(s[t]),
            forall|t: int| hi1 <= t < n ==> pws(s[t]),
            lo1 < n ==> !pws(s[lo1 as int]),
        decreases hi1,
    {
        hi1 = hi1 - 1;
    }
    let ghost ws = trim_back(trim_front(s, pws), pws);
    proof {
        lemma_trim_front_skip(s, pws, lo1 as int);
        let sk = s.skip(lo1 as int);
        assert(forall|t: int|
            hi1 - lo1 <= t < sk.len() ==> pws(#[trigger] sk[t]));
        if hi1 > lo1 {
            assert(!pws(sk[hi1 - lo1 - 1]));
        }
        lemma_trim_back_take(sk, pws, hi1 - lo1 as int);
        assert(ws =~= s.subrange(lo1 as int, hi1 as int));
    }
    let mut lo2: usize = lo1;
    while lo2 < hi1 && is_quote_exec(raw.get_char(lo2))
        invariant
            s == raw@,
            n == s.len(),
            lo1 <= lo2 <= hi1 <= n,
            forall|t: int| lo1 <= t < lo2 ==> pq(s[t]),
        decreases hi1 - lo2,
    {
        lo2 = lo2 + 1;
    }
    let mut hi2: usize = hi1;
    while hi2 > lo2 && is_quote_exec(raw.get_char(hi2 - 1))
        invariant
            s == raw@,
            n == s.len(),
            lo1 <= lo2 <= hi2 <= hi1 <= n,
            forall|t: int| lo1 <= t < lo2 ==> pq(s[t]),
            forall|t: int| hi2 <= t < hi1 ==> pq(s[t]),
            lo2 < hi1 ==> !pq(s[lo2 as int]),
        decreases hi2,
    {
        hi2 = hi2 - 1;
    }
    let ghost t_final = trim_back(trim_front(ws, pq), pq);
    proof {
        assert(forall|t: int| 0 <= t < lo2 - lo1 ==> pq(#[trigger] ws[t]));
        if lo2 - lo1 < ws.len() {
            assert(ws[lo2 - lo1 as int] == s[lo2 as int]);
        }
        lemma_trim_front_skip(ws, pq, lo2 - lo1 as int);
        let sk = ws.skip(lo2 - lo1 as int);
        assert(sk =~= s.subrange(lo2 as int, hi1 as int));
        assert(forall|t: int|
            hi2 - lo2 <= t < sk.len() ==> pq(#[trigger] sk[t]));
        if hi2 > lo2 {
            assert(!pq(sk[hi2 - lo2 - 1]));
        }
        lemma_trim_back_take(sk, pq, hi2 - lo2 as int);
        assert(t_final =~= s.subrange(lo2 as int, hi2 as int));
    }
    if hi2 - lo2 > 50 {
        let head = raw.substring_char(lo2, lo2 + 47);
        let r = head.to_owned().concat("...");
        proof {
            assert(t_final.take(47) =~= s.subrange(lo2 as int, lo2 as int + 47));
            assert(r@ =~= clean_title_spec(raw@));
        }
        r
    } else {
        let r = raw.substring_char(lo2, hi2).to_owned();
        proof {
            assert(r@ =~= clean_title_spec(raw@));
        }
        r
    }
}

} // verus!
