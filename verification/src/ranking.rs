//! Extraction of an ordered label list from a model's free-text ranking
//! verdict.
//!
//! The grammar is small: a ranking text should contain the marker line
//! `FINAL RANKING:` followed by a numbered list whose entries name a label as
//! `Response X`. Parsing looks for the marker, extracts the numbered entries
//! after it, and falls back to bare `Response X` occurrences (after the
//! marker, or over the whole text when there is no marker).

use vstd::prelude::*;
use vstd::assert_by_contradiction;
use crate::textscan::{find_pat_from, lemma_find_pat_from_props, matches_at, occurs_at, find_pat};

verus! {

/// The marker that introduces the ranking list.
pub open spec fn marker_text() -> Seq<char> {
    "FINAL RANKING:"@
}

/// The prefix of one label token.
pub open spec fn response_prefix() -> Seq<char> {
    "Response "@
}

/// An uppercase ASCII letter, the shape of a label.
pub open spec fn is_upper(c: char) -> bool {
    'A' <= c && c <= 'Z'
}

/// An ASCII decimal digit.
pub open spec fn is_digit_char(c: char) -> bool {
    '0' <= c && c <= '9'
}

/// The whitespace accepted between a list number and its label token.
pub open spec fn is_space_char(c: char) -> bool {
    c == ' ' || c == '\t' || c == '\n' || c == '\r' || c == '\u{b}' || c == '\u{c}'
}

/// A label token (`Response ` followed by an uppercase letter) starts at `i`.
pub open spec fn response_at(s: Seq<char>, i: int) -> bool {
    i + 10 <= s.len() && occurs_at(s, response_prefix(), i) && is_upper(s[i + 9])
}

/// The ten characters of the label token starting at `i`.
pub open spec fn response_token(s: Seq<char>, i: int) -> Seq<char> {
    s.subrange(i, i + 10)
}

/// A numbered-list introduction ends right before position `j`: a period at
/// `d` preceded by a digit, then only whitespace up to `j`, all of it at or
/// after position `from`.
pub open spec fn numbered_prefix_at(s: Seq<char>, from: int, j: int, d: int) -> bool {
    from + 1 <= d && d < j && j <= s.len() && s[d] == '.' && is_digit_char(s[d - 1]) && (forall|
        t: int,
    |
        d < t < j ==> is_space_char(s[t]))
}

/// The token at `j` is introduced by a numbered-list entry.
pub open spec fn numbered_at(s: Seq<char>, from: int, j: int) -> bool {
    exists|d: int| numbered_prefix_at(s, from, j, d)
}

/// The numbered label tokens of `s[from..]`, scanning from position `i`, in
/// order of appearance.
pub open spec fn numbered_tokens_from(s: Seq<char>, from: int, i: int) -> Seq<Seq<char>>
    decreases s.len() - i,
{
    if i < 0 || i >= s.len() {
        Seq::empty()
    } else {
        let rest = numbered_tokens_from(s, from, i + 1);
        if response_at(s, i) && numbered_at(s, from, i) {
            seq![response_token(s, i)] + rest
        } else {
            rest
        }
    }
}

/// The bare label tokens of `s`, scanning from position `i`, in order of
/// appearance.
pub open spec fn bare_tokens_from(s: Seq<char>, i: int) -> Seq<Seq<char>>
    decreases s.len() - i,
{
    if i < 0 || i >= s.len() {
        Seq::empty()
    } else {
        let rest = bare_tokens_from(s, i + 1);
        if response_at(s, i) {
            seq![response_token(s, i)] + rest
        } else {
            rest
        }
    }
}

/// The position of the first marker occurrence at or after `i`, or -1.
pub open spec fn marker_from(s: Seq<char>, i: int) -> int {
    find_pat_from(s, marker_text(), i)
}

/// The label tokens extracted from one ranking text: numbered entries after
/// the first marker; else bare tokens after the marker; else, with no marker
/// at all, bare tokens of the whole text.
pub open spec fn parse_ranking_spec(s: Seq<char>) -> Seq<Seq<char>> {
    let m = marker_from(s, 0);
    if m >= 0 {
        let numbered = numbered_tokens_from(s, m, m);
        if numbered.len() > 0 {
            numbered
        } else {
            bare_tokens_from(s, m)
        }
    } else {
        bare_tokens_from(s, 0)
    }
}

/// The position of the first `FINAL RANKING:` marker in `text`, if any.
fn find_marker(text: &str) -> (r: Option<usize>)
    ensures
        match r {
            Option::Some(m) => marker_from(text@, 0) == m as int,
            Option::None => marker_from(text@, 0) == -1,
        },
{
    proof {
        reveal_strlit("FINAL RANKING:");
    }
    find_pat(text, "FINAL RANKING:", 0)
}

/// Whether the token starting at `j` is introduced by a numbered-list entry
/// lying within `text[from..]`.
fn is_numbered(text: &str, from: usize, j: usize) -> (r: bool)
    requires
        from <= j,
        j <= text@.len(),
    ensures
        r <==> numbered_at(text@, from as int, j as int),
{
    let ghost s = text@;
    let text_len = text.unicode_len();
    // Walk back over whitespace.
    let mut t: usize = j;
    while t > from && is_space_exec(text.get_char(t - 1))
        invariant
            s == text@,
            from <= t <= j,
            text_len == s.len(),
            j <= s.len(),
            forall|u: int| t <= u < j ==> is_space_char(s[u]),
        decreases t,
    {
        t = t - 1;
    }
    if t == from {
        // Everything from `from` up to the token is whitespace: no period
        // can introduce it.
        proof {
            assert_by_contradiction!(!numbered_at(s, from as int, j as int), {
                let d = choose|d: int| numbered_prefix_at(s, from as int, j as int, d);
                assert(is_space_char(s[d]));
            });
        }
        return false;
    }
    let period = text.get_char(t - 1);
    if period != '.' {
        proof {
            assert_by_contradiction!(!numbered_at(s, from as int, j as int), {
                let d = choose|d: int| numbered_prefix_at(s, from as int, j as int, d);
                if d > t - 1 {
                    assert(is_space_char(s[d]));
                } else if d < t - 1 {
                    assert(is_space_char(s[t - 1]));
                }
            });
        }
        return false;
    }
    if t - 1 == from {
        proof {
            assert_by_contradiction!(!numbered_at(s, from as int, j as int), {
                let d = choose|d: int| numbered_prefix_at(s, from as int, j as int, d);
                if d > t - 1 {
                    assert(is_space_char(s[d]));
                }
            });
        }
        return false;
    }
    let digit = text.get_char(t - 2);
    let r = is_digit_exec(digit);
    proof {
        if r {
            assert(numbered_prefix_at(s, from as int, j as int, t - 1 as int));
        } else {
            assert_by_contradiction!(!numbered_at(s, from as int, j as int), {
                let d = choose|d: int| numbered_prefix_at(s, from as int, j as int, d);
                if d > t - 1 {
                    assert(is_space_char(s[d]));
                } else if d < t - 1 {
                    assert(is_space_char(s[t - 1]));
                }
            });
        }
    }
    r
}

/// Collects the numbered label tokens of `text[from..]`, in order.
#[verifier::loop_isolation(false)]
fn collect_numbered(text: &str, from: usize) -> (r: Vec<String>)
    requires
        from <= text@.len(),
    ensures
        r.deep_view() == numbered_tokens_from(text@, from as int, from as int),
{
    proof {
        reveal_strlit("Response ");
    }
    let n = text.unicode_len();
    let mut acc: Vec<String> = Vec::new();
    let mut j: usize = from;
    while j < n
        invariant
            from <= j <= n,
            numbered_tokens_from(text@, from as int, from as int) == acc.deep_view()
                + numbered_tokens_from(text@, from as int, j as int),
        decreases n - j,
    {
        let ghost jj = j as int;
        let ghost f = from as int;
        let ghost s = text@;
        let ghost rest = numbered_tokens_from(s, f, jj + 1);
        let hit = if n - j >= 10 {
            if matches_at(text, j, "Response ") {
                if is_upper_exec(text.get_char(j + 9)) {
                    is_numbered(text, from, j)
                } else {
                    false
                }
            } else {
                false
            }
        } else {
            false
        };
        proof {
            assert(hit == (response_at(s, jj) && numbered_at(s, f, jj)));
        }
        if hit {
            let tok = text.substring_char(j, j + 10).to_owned();
            let ghost old_acc = acc.deep_view();
            acc.push(tok);
            proof {
                assert(tok@ == response_token(s, jj));
                assert(acc.deep_view() =~= old_acc.push(tok@));
                assert(old_acc + (seq![response_token(s, jj)] + rest) =~= acc.deep_view() + rest);
            }
        }
        j = j + 1;
    }
    proof {
        assert(numbered_tokens_from(text@, from as int, n as int) =~= Seq::<Seq<char>>::empty());
        assert(acc.deep_view() + Seq::<Seq<char>>::empty() =~= acc.deep_view());
    }
    acc
}

/// Collects every bare label token of `text[from..]`, in order.
#[verifier::loop_isolation(false)]
fn collect_bare(text: &str, from: usize) -> (r: Vec<String>)
    requires
        from <= text@.len(),
    ensures
        r.deep_view() == bare_tokens_from(text@, from as int),
{
    proof {
        reveal_strlit("Response ");
    }
    let n = text.unicode_len();
    let mut acc: Vec<String> = Vec::new();
    let mut j: usize = from;
    while j < n
        invariant
            from <= j <= n,
            bare_tokens_from(text@, from as int) == acc.deep_view() + bare_tokens_from(
                text@,
                j as int,
            ),
        decreases n - j,
    {
        let ghost jj = j as int;
        let ghost s = text@;
        let ghost rest = bare_tokens_from(s, jj + 1);
        let hit = if n - j >= 10 {
            if matches_at(text, j, "Response ") {
                is_upper_exec(text.get_char(j + 9))
            } else {
                false
            }
        } else {
            false
        };
        proof {
            assert(hit == response_at(s, jj));
        }
        if hit {
            let tok = text.substring_char(j, j + 10).to_owned();
            let ghost old_acc = acc.deep_view();
            acc.push(tok);
            proof {
                assert(tok@ == response_token(s, jj));
                assert(acc.deep_view() =~= old_acc.push(tok@));
                assert(old_acc + (seq![response_token(s, jj)] + rest) =~= acc.deep_view() + rest);
            }
        }
        j = j + 1;
    }
    proof {
        assert(bare_tokens_from(text@, n as int) =~= Seq::<Seq<char>>::empty());
        assert(acc.deep_view() + Seq::<Seq<char>>::empty() =~= acc.deep_view());
    }
    acc
}

/// Extracts the ordered label list from one ranking text: the numbered
/// entries after the first `FINAL RANKING:` marker; failing that, bare
/// `Response X` mentions after the marker; with no marker, bare mentions
/// anywhere in the text.
pub fn parse_ranking_from_text(ranking_text: &str) -> (r: Vec<String>)
    ensures
        r.deep_view() == parse_ranking_spec(ranking_text@),
{
    match find_marker(ranking_text) {
        Option::Some(m) => {
            proof {
                lemma_find_pat_from_props(ranking_text@, marker_text(), 0);
            }
            let numbered = collect_numbered(ranking_text, m);
            if numbered.len() > 0 {
                proof {
                    assert(numbered.deep_view().len() == numbered@.len());
                }
                numbered
            } else {
                proof {
                    assert(numbered.deep_view().len() == numbered@.len());
                }
                collect_bare(ranking_text, m)
            }
        },
        Option::None => collect_bare(ranking_text, 0),
    }
}

/// A non-empty run of ASCII digits.
pub open spec fn digits_str(d: Seq<char>) -> bool {
    d.len() >= 1 && forall|t: int| 0 <= t < d.len() ==> is_digit_char(#[trigger] d[t])
}

/// One rendered entry of a well-formed ranking list: a newline, the list
/// number, a period and space, and the label token.
pub open spec fn list_entry(d: Seq<char>, l: char) -> Seq<char> {
    seq!['\n'] + d + ". Response "@ + seq![l]
}

/// The rendered body of a well-formed ranking list.
pub open spec fn ranking_body(entries: Seq<(Seq<char>, char)>) -> Seq<char>
    decreases entries.len(),
{
    if entries.len() == 0 {
        Seq::empty()
    } else {
        list_entry(entries[0].0, entries[0].1) + ranking_body(entries.drop_first())
    }
}

/// The label tokens a well-formed list names, in order.
pub open spec fn entry_tokens(entries: Seq<(Seq<char>, char)>) -> Seq<Seq<char>> {
    Seq::new(entries.len(), |k: int| response_prefix() + seq![entries[k].1])
}

/// No label token starts where the text does not read `Response `.
proof fn lemma_not_response_at(s: Seq<char>, q: int)
    requires
        0 <= q,
        q + 10 <= s.len() ==> s[q] != 'R' || s[q + 1] != 'e',
    ensures
        !response_at(s, q),
{
    reveal_strlit("Response ");
    if q + 10 <= s.len() && occurs_at(s, response_prefix(), q) {
        assert(s.subrange(q, q + 9)[0] == s[q]);
        assert(s.subrange(q, q + 9)[1] == s[q + 1]);
    }
}

/// A region without numbered label tokens contributes nothing to the scan.
proof fn lemma_no_tokens_region(s: Seq<char>, from: int, i: int, j: int)
    requires
        0 <= i <= j,
        forall|q: int| i <= q < j ==> !(response_at(s, q) && numbered_at(s, from, q)),
    ensures
        numbered_tokens_from(s, from, i) == numbered_tokens_from(s, from, j),
    decreases j - i,
{
    if i < j {
        lemma_no_tokens_region(s, from, i + 1, j);
    }
}

/// The character of `s` at offset `u` past `i` is the character of
/// `s.skip(i)` at `u`.
proof fn lemma_skip_index(s: Seq<char>, i: int, u: int)
    requires
        0 <= i,
        0 <= u,
        i + u < s.len(),
    ensures
        s.skip(i)[u] == s[i + u],
{
}

/// Scanning a region holding exactly the rendered entries (then a tail with
/// no label tokens) collects exactly the entries' tokens.
proof fn lemma_scan_entries(
    s: Seq<char>,
    from: int,
    i: int,
    entries: Seq<(Seq<char>, char)>,
    tail: Seq<char>,
)
    requires
        0 <= from < i <= s.len(),
        s.skip(i) == ranking_body(entries) + tail,
        forall|k: int|
            0 <= k < entries.len() ==> digits_str((#[trigger] entries[k]).0) && is_upper(
                entries[k].1,
            ),
        forall|u: int| 0 <= u < tail.len() ==> #[trigger] tail[u] != 'R',
        tail.len() > 0 ==> tail[0] == '\n',
    ensures
        numbered_tokens_from(s, from, i) == entry_tokens(entries),
    decreases entries.len(),
{
    reveal_strlit("Response ");
    reveal_strlit(". Response ");
    let body = ranking_body(entries);
    assert(s.len() == i + body.len() + tail.len()) by {
        assert(s.skip(i).len() == s.len() - i);
    }
    if entries.len() == 0 {
        assert(body.len() == 0);
        assert forall|q: int| i <= q < s.len() implies !(response_at(s, q) && numbered_at(
            s,
            from,
            q,
        )) by {
            lemma_skip_index(s, i, q - i);
            assert(s[q] == (body + tail)[q - i]);
            assert(s[q] == tail[q - i]);
            lemma_not_response_at(s, q);
        }
        lemma_no_tokens_region(s, from, i, s.len() as int);
        assert(numbered_tokens_from(s, from, s.len() as int) =~= Seq::<Seq<char>>::empty());
        assert(entry_tokens(entries) =~= Seq::<Seq<char>>::empty());
    } else {
        let d = entries[0].0;
        let l = entries[0].1;
        let e = list_entry(d, l);
        let rest = entries.drop_first();
        let dlen = d.len() as int;
        let q = i + 1 + dlen + 2;
        let iend = i + e.len();
        assert(e.len() == dlen + 13);
        assert(iend == q + 10);
        assert(body == e + ranking_body(rest));
        // The character of the region at offset `u` is the entry's.
        assert forall|u: int| 0 <= u < e.len() implies s[i + u] == e[u] by {
            lemma_skip_index(s, i, u);
            assert(s[i + u] == (body + tail)[u]);
            assert((body + tail)[u] == body[u]);
            assert(body[u] == e[u]);
        }
        // The entry's own characters, by position.
        assert(e[0] == '\n');
        assert(forall|u: int| 1 <= u < 1 + dlen ==> #[trigger] e[u] == d[u - 1]);
        assert forall|u: int| 1 + dlen <= u < 12 + dlen implies e[u] == ". Response "@[u - 1
            - dlen] by {
            assert((seq!['\n'] + d + ". Response "@)[u] == ". Response "@[u - 1 - dlen]);
        }
        assert(e[12 + dlen] == l);
        // No token starts before this entry's label token.
        assert forall|v: int| i <= v < q implies !(response_at(s, v) && numbered_at(
            s,
            from,
            v,
        )) by {
            assert(s[i + (v - i)] == e[v - i]);
            if v == i {
                assert(s[v] == '\n');
            } else if v < i + 1 + dlen {
                assert(is_digit_char(d[v - i - 1]));
                assert(s[v] == d[v - i - 1]);
            } else if v == i + 1 + dlen {
                assert(s[v] == ". Response "@[0]);
            } else {
                assert(s[v] == ". Response "@[1]);
            }
            lemma_not_response_at(s, v);
        }
        lemma_no_tokens_region(s, from, i, q);
        // The label token itself.
        assert forall|u: int| 0 <= u < 9 implies s[q + u] == response_prefix()[u] by {
            assert(s[i + (q + u - i)] == e[q + u - i]);
            assert(e[q + u - i] == ". Response "@[u + 2]);
            assert(response_prefix()[u] == ". Response "@[u + 2]);
        }
        assert(s[q + 9] == l) by {
            assert(s[i + (12 + dlen)] == e[12 + dlen]);
        }
        assert(response_at(s, q)) by {
            assert(s.subrange(q, q + 9) =~= response_prefix());
        }
        assert(numbered_at(s, from, q)) by {
            let dpos = i + 1 + dlen;
            assert(s[i + (dpos - i)] == e[dpos - i]);
            assert(s[dpos] == ". Response "@[0]);
            assert(s[i + (dpos - 1 - i)] == e[dpos - 1 - i]);
            assert(s[dpos - 1] == d[dlen - 1]);
            assert(is_digit_char(d[dlen - 1]));
            assert(s[i + (dpos + 1 - i)] == e[dpos + 1 - i]);
            assert(s[dpos + 1] == ". Response "@[1]);
            assert(is_space_char(s[dpos + 1]));
            assert(numbered_prefix_at(s, from, q, dpos));
        }
        assert(numbered_tokens_from(s, from, q) == seq![response_token(s, q)]
            + numbered_tokens_from(s, from, q + 1));
        assert(response_token(s, q) =~= response_prefix() + seq![l]);
        // No token starts inside the tail of this entry's label token.
        assert forall|v: int| q + 1 <= v < iend implies !(response_at(s, v) && numbered_at(
            s,
            from,
            v,
        )) by {
            if v < q + 9 {
                assert(s[v] == response_prefix()[v - q]);
                assert(forall|u: int|
                    0 <= u < 9 ==> #[trigger] response_prefix()[u] != 'R' || u == 0);
                lemma_not_response_at(s, v);
            } else {
                // The letter itself may be an `R`, but what follows is a
                // newline, the tail's start, or the end of the text.
                if v + 10 <= s.len() {
                    assert(v + 1 == iend);
                    lemma_skip_index(s, i, iend - i);
                    assert(s[iend] == (body + tail)[e.len() as int]);
                    if rest.len() > 0 {
                        assert((body + tail)[e.len() as int] == body[e.len() as int]);
                        assert(body[e.len() as int] == ranking_body(rest)[0]);
                        assert(ranking_body(rest) == list_entry(rest[0].0, rest[0].1)
                            + ranking_body(rest.drop_first()));
                        assert(ranking_body(rest)[0] == list_entry(rest[0].0, rest[0].1)[0]);
                        assert(list_entry(rest[0].0, rest[0].1)[0] == '\n');
                        assert(s[iend] == '\n');
                    } else {
                        assert(body.len() == e.len());
                        assert((body + tail)[e.len() as int] == tail[0]);
                        assert(s[iend] == '\n');
                    }
                    assert(s[v + 1] != 'e');
                }
                lemma_not_response_at(s, v);
            }
        }
        lemma_no_tokens_region(s, from, q + 1, iend);
        // Recurse over the remaining entries.
        assert forall|u: int| 0 <= u < s.len() - iend implies s.skip(iend)[u] == (ranking_body(
            rest,
        ) + tail)[u] by {
            lemma_skip_index(s, iend, u);
            lemma_skip_index(s, i, e.len() + u);
            assert(s[iend + u] == (body + tail)[e.len() + u]);
        }
        assert(s.skip(iend) =~= ranking_body(rest) + tail);
        assert forall|k: int|
            0 <= k < rest.len() implies digits_str((#[trigger] rest[k]).0) && is_upper(
            rest[k].1,
        ) by {
            assert(rest[k] == entries[k + 1]);
        }
        lemma_scan_entries(s, from, iend, rest, tail);
        assert(entry_tokens(entries) =~= seq![response_prefix() + seq![l]] + entry_tokens(rest))
            by {
            assert(forall|k: int|
                0 <= k < rest.len() ==> (#[trigger] rest[k]) == entries[k + 1]);
        }
        assert(numbered_tokens_from(s, from, i) == entry_tokens(entries));
    }
}

/// A text that carries a well-formed ranking list parses to exactly that
/// list's label tokens, in order: after any prefix free of the marker, the
/// marker line, then one entry per label (a newline, a list number, a
/// period and space, `Response` and the label's letter), then an optional
/// trailing rest that starts on a fresh line and names no label.
pub proof fn lemma_parse_well_formed_list(
    prefix: Seq<char>,
    entries: Seq<(Seq<char>, char)>,
    tail: Seq<char>,
)
    requires
        entries.len() >= 1,
        forall|k: int|
            0 <= k < entries.len() ==> digits_str((#[trigger] entries[k]).0) && is_upper(
                entries[k].1,
            ),
        forall|i: int|
            0 <= i < prefix.len() ==> !occurs_at(
                prefix + marker_text() + ranking_body(entries) + tail,
                marker_text(),
                i,
            ),
        forall|u: int| 0 <= u < tail.len() ==> #[trigger] tail[u] != 'R',
        tail.len() > 0 ==> tail[0] == '\n',
    ensures
        parse_ranking_spec(prefix + marker_text() + ranking_body(entries) + tail) == entry_tokens(
            entries,
        ),
{
    reveal_strlit("FINAL RANKING:");
    reveal_strlit("Response ");
    let s = prefix + marker_text() + ranking_body(entries) + tail;
    let m = prefix.len() as int;
    let body = ranking_body(entries);
    assert(s.len() == m + 14 + body.len() + tail.len());
    // The appended marker is the first occurrence of the marker.
    assert forall|u: int| 0 <= u < 14 implies s[m + u] == marker_text()[u] by {
        assert(((prefix + marker_text()) + body)[m + u] == (prefix + marker_text())[m + u]);
        assert((prefix + marker_text())[m + u] == marker_text()[u]);
        assert(s[m + u] == ((prefix + marker_text()) + body)[m + u]);
    }
    assert(occurs_at(s, marker_text(), m)) by {
        assert(s.subrange(m, m + 14) =~= marker_text());
    }
    lemma_first_occurrence(s, marker_text(), 0, m);
    assert(marker_from(s, 0) == m);
    // The scan region begins with the marker's own characters, which hold
    // no label token: its only `R` is followed by `A`.
    assert forall|v: int| m <= v < m + 14 implies !(response_at(s, v) && numbered_at(
        s,
        m,
        v,
    )) by {
        assert(s[m + (v - m)] == marker_text()[v - m]);
        if v - m == 6 {
            assert(s[m + 7] == marker_text()[7]);
            assert(s[v + 1] != 'e');
        } else {
            assert(s[v] != 'R');
        }
        lemma_not_response_at(s, v);
    }
    lemma_no_tokens_region(s, m, m, m + 14);
    // Past the marker lie exactly the rendered entries and the tail.
    assert forall|u: int| 0 <= u < s.len() - (m + 14) implies s.skip(m + 14)[u] == (body
        + tail)[u] by {
        lemma_skip_index(s, m + 14, u);
        assert(s[m + 14 + u] == ((prefix + marker_text()) + body + tail)[m + 14 + u]);
        assert((((prefix + marker_text()) + body) + tail)[m + 14 + u] == if m + 14 + u < (prefix
            + marker_text() + body).len() {
            ((prefix + marker_text()) + body)[m + 14 + u]
        } else {
            tail[u - body.len()]
        });
        if u < body.len() {
            assert(((prefix + marker_text()) + body)[m + 14 + u] == body[u]);
            assert((body + tail)[u] == body[u]);
        } else {
            assert((body + tail)[u] == tail[u - body.len()]);
        }
    }
    assert(s.skip(m + 14) =~= body + tail);
    lemma_scan_entries(s, m, m + 14, entries, tail);
    assert(numbered_tokens_from(s, m, m) == entry_tokens(entries));
    assert(entry_tokens(entries).len() >= 1);
}

/// One mention of a label in running text: some words without an `R`, then
/// the label token itself.
pub open spec fn mention(filler: Seq<char>, l: char) -> Seq<char> {
    filler + response_prefix() + seq![l]
}

/// A sequence of label mentions rendered one after the other.
pub open spec fn mentions_body(entries: Seq<(Seq<char>, char)>) -> Seq<char>
    decreases entries.len(),
{
    if entries.len() == 0 {
        Seq::empty()
    } else {
        mention(entries[0].0, entries[0].1) + mentions_body(entries.drop_first())
    }
}

/// The filler of each mention after the first neither holds an `R` nor
/// starts with an `e`, so that no stray label token can form around it.
pub open spec fn plain_fillers(entries: Seq<(Seq<char>, char)>) -> bool {
    forall|k: int|
        0 <= k < entries.len() ==> {
            let f = (#[trigger] entries[k]).0;
            is_upper(entries[k].1) && (forall|u: int| 0 <= u < f.len() ==> #[trigger] f[u] != 'R')
                && (k > 0 ==> f.len() == 0 || f[0] != 'e')
        }
}

/// Scanning a region holding exactly the rendered mentions (then a tail
/// that can form no label token) collects exactly the mentioned tokens.
proof fn lemma_scan_mentions(
    s: Seq<char>,
    i: int,
    entries: Seq<(Seq<char>, char)>,
    tail: Seq<char>,
)
    requires
        0 <= i <= s.len(),
        s.skip(i) == mentions_body(entries) + tail,
        plain_fillers(entries),
        forall|u: int| 0 <= u < tail.len() ==> #[trigger] tail[u] != 'R',
        tail.len() > 0 ==> tail[0] != 'e',
    ensures
        bare_tokens_from(s, i) == entry_tokens(entries),
    decreases entries.len(),
{
    reveal_strlit("Response ");
    let body = mentions_body(entries);
    assert(s.len() == i + body.len() + tail.len()) by {
        assert(s.skip(i).len() == s.len() - i);
    }
    if entries.len() == 0 {
        assert(body.len() == 0);
        assert forall|q: int| i <= q < s.len() implies !response_at(s, q) by {
            lemma_skip_index(s, i, q - i);
            assert(s[q] == (body + tail)[q - i]);
            assert(s[q] == tail[q - i]);
            lemma_not_response_at(s, q);
        }
        lemma_no_bare_tokens_region(s, i, s.len() as int);
        assert(bare_tokens_from(s, s.len() as int) =~= Seq::<Seq<char>>::empty());
        assert(entry_tokens(entries) =~= Seq::<Seq<char>>::empty());
    } else {
        let f = entries[0].0;
        let l = entries[0].1;
        let e = mention(f, l);
        let rest = entries.drop_first();
        let flen = f.len() as int;
        let q = i + flen;
        let iend = i + e.len();
        assert(e.len() == flen + 10);
        assert(iend == q + 10);
        assert(body == e + mentions_body(rest));
        assert forall|u: int| 0 <= u < e.len() implies s[i + u] == e[u] by {
            lemma_skip_index(s, i, u);
            assert(s[i + u] == (body + tail)[u]);
            assert((body + tail)[u] == body[u]);
            assert(body[u] == e[u]);
        }
        // No token starts inside the filler.
        assert forall|v: int| i <= v < q implies !response_at(s, v) by {
            assert(s[i + (v - i)] == e[v - i]);
            assert(e[v - i] == f[v - i]);
            lemma_not_response_at(s, v);
        }
        lemma_no_bare_tokens_region(s, i, q);
        // The label token itself.
        assert forall|u: int| 0 <= u < 9 implies s[q + u] == response_prefix()[u] by {
            assert(s[i + (flen + u)] == e[flen + u]);
            assert(e[flen + u] == (f + response_prefix())[flen + u]);
        }
        assert(s[q + 9] == l) by {
            assert(s[i + (flen + 9)] == e[flen + 9]);
        }
        assert(response_at(s, q)) by {
            assert(s.subrange(q, q + 9) =~= response_prefix());
        }
        assert(bare_tokens_from(s, q) == seq![response_token(s, q)] + bare_tokens_from(s, q + 1));
        assert(response_token(s, q) =~= response_prefix() + seq![l]);
        // No token starts inside the tail of the label token.
        assert forall|v: int| q + 1 <= v < iend implies !response_at(s, v) by {
            if v < q + 9 {
                assert(s[v] == response_prefix()[v - q]);
                assert(forall|u: int|
                    0 <= u < 9 ==> #[trigger] response_prefix()[u] != 'R' || u == 0);
                lemma_not_response_at(s, v);
            } else {
                // The letter itself may be an `R`, but what follows is the
                // next mention's filler or first letter, the tail, or the
                // end of the text, none of which reads `e`.
                if v + 10 <= s.len() {
                    assert(v + 1 == iend);
                    lemma_skip_index(s, i, iend - i);
                    assert(s[iend] == (body + tail)[e.len() as int]);
                    if rest.len() > 0 {
                        assert((body + tail)[e.len() as int] == body[e.len() as int]);
                        assert(body[e.len() as int] == mentions_body(rest)[0]);
                        assert(mentions_body(rest) == mention(rest[0].0, rest[0].1)
                            + mentions_body(rest.drop_first()));
                        assert(mentions_body(rest)[0] == mention(rest[0].0, rest[0].1)[0]);
                        assert(rest[0] == entries[1]);
                        if rest[0].0.len() > 0 {
                            assert(mention(rest[0].0, rest[0].1)[0] == rest[0].0[0]);
                            assert(s[iend] != 'e');
                        } else {
                            assert(mention(rest[0].0, rest[0].1)[0] == response_prefix()[0]);
                            assert(s[iend] == 'R');
                        }
                    } else {
                        assert(body.len() == e.len());
                        assert((body + tail)[e.len() as int] == tail[0]);
                        assert(s[iend] != 'e');
                    }
                    assert(s[v + 1] != 'e');
                }
                lemma_not_response_at(s, v);
            }
        }
        lemma_no_bare_tokens_region(s, q + 1, iend);
        // Recurse over the remaining mentions.
        assert forall|u: int| 0 <= u < s.len() - iend implies s.skip(iend)[u] == (mentions_body(
            rest,
        ) + tail)[u] by {
            lemma_skip_index(s, iend, u);
            lemma_skip_index(s, i, e.len() + u);
            assert(s[iend + u] == (body + tail)[e.len() + u]);
        }
        assert(s.skip(iend) =~= mentions_body(rest) + tail);
        assert(plain_fillers(rest)) by {
            assert(forall|k: int| 0 <= k < rest.len() ==> (#[trigger] rest[k]) == entries[k + 1]);
        }
        lemma_scan_mentions(s, iend, rest, tail);
        assert(entry_tokens(entries) =~= seq![response_prefix() + seq![l]] + entry_tokens(rest))
            by {
            assert(forall|k: int|
                0 <= k < rest.len() ==> (#[trigger] rest[k]) == entries[k + 1]);
        }
        assert(bare_tokens_from(s, i) == entry_tokens(entries));
    }
}

/// A region without label tokens contributes nothing to the bare scan.
proof fn lemma_no_bare_tokens_region(s: Seq<char>, i: int, j: int)
    requires
        0 <= i <= j,
        forall|q: int| i <= q < j ==> !response_at(s, q),
    ensures
        bare_tokens_from(s, i) == bare_tokens_from(s, j),
    decreases j - i,
{
    if i < j {
        lemma_no_bare_tokens_region(s, i + 1, j);
    }
}

/// A text without the ranking marker parses to its bare label mentions, in
/// order of appearance: each mention is some words (free of `R`, and past
/// the first mention not starting with `e`) followed by a label token; the
/// optional rest after the last mention can form no token either.
pub proof fn lemma_parse_bare_mentions(entries: Seq<(Seq<char>, char)>, tail: Seq<char>)
    requires
        plain_fillers(entries),
        forall|i: int|
            0 <= i < (mentions_body(entries) + tail).len() ==> !occurs_at(
                mentions_body(entries) + tail,
                marker_text(),
                i,
            ),
        forall|u: int| 0 <= u < tail.len() ==> #[trigger] tail[u] != 'R',
        tail.len() > 0 ==> tail[0] != 'e',
    ensures
        parse_ranking_spec(mentions_body(entries) + tail) == entry_tokens(entries),
{
    let s = mentions_body(entries) + tail;
    lemma_no_marker_anywhere(s, 0);
    assert(marker_from(s, 0) == -1);
    assert(s.skip(0) =~= s);
    lemma_scan_mentions(s, 0, entries, tail);
}

/// A text in which the marker occurs nowhere has no first occurrence.
proof fn lemma_no_marker_anywhere(s: Seq<char>, i: int)
    requires
        forall|j: int| 0 <= j < s.len() ==> !occurs_at(s, marker_text(), j),
        0 <= i,
    ensures
        marker_from(s, i) == -1,
    decreases s.len() - i,
{
    if !(i < 0 || i >= s.len() || i + marker_text().len() > s.len()) {
        lemma_no_marker_anywhere(s, i + 1);
    }
}

/// `find_pat_from` returns `m` when the pattern occurs at `m` and nowhere
/// earlier at or after the search start.
proof fn lemma_first_occurrence(s: Seq<char>, pat: Seq<char>, i: int, m: int)
    requires
        0 <= i <= m,
        occurs_at(s, pat, m),
        forall|j: int| i <= j < m ==> !occurs_at(s, pat, j),
        pat.len() > 0,
    ensures
        find_pat_from(s, pat, i) == m,
    decreases m - i,
{
    if i < m {
        lemma_first_occurrence(s, pat, i + 1, m);
    }
}

/// Whether `c` is an uppercase ASCII letter.
fn is_upper_exec(c: char) -> (r: bool)
    ensures
        r == is_upper(c),
{
    'A' <= c && c <= 'Z'
}

/// Whether `c` is an ASCII decimal digit.
fn is_digit_exec(c: char) -> (r: bool)
    ensures
        r == is_digit_char(c),
{
    '0' <= c && c <= '9'
}

/// Whether `c` is whitespace accepted inside a numbered entry.
pub(crate) fn is_space_exec(c: char) -> (r: bool)
    ensures
        r == is_space_char(c),
{
    c == ' ' || c == '\t' || c == '\n' || c == '\r' || c == '\u{b}' || c == '\u{c}'
}

} // verus!
