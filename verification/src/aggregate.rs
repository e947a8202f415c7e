//! Reduction of all parsed rankings into one average-position table: every
//! resolvable label occurrence contributes its 1-indexed position to the
//! named model; each model's positions are averaged (kept exact in
//! hundredths) and the result is sorted ascending by average, stably.

use vstd::prelude::*;
use vstd::arithmetic::div_mod::{lemma_div_pos_is_pos, lemma_multiply_divide_le};
use crate::keyed::{find_key, lemma_find_key};
use crate::models::{AggregateRanking, Stage2Result};

verus! {

/// The upper bound accepted for one parsed ranking's length, and hence for
/// any recorded position.
pub open spec fn position_bound() -> int {
    0xFFFF_FFFF
}

/// The (label, position) contributions of one parsed ranking, positions
/// counted from 1.
pub open spec fn label_positions(parsed: Seq<Seq<char>>) -> Seq<(Seq<char>, int)> {
    Seq::new(parsed.len(), |k: int| (parsed[k], k + 1))
}

/// The contributions of every parsed ranking, in order.
pub open spec fn all_position_contribs(rankings: Seq<Seq<Seq<char>>>) -> Seq<(Seq<char>, int)>
    decreases rankings.len(),
{
    if rankings.len() == 0 {
        Seq::empty()
    } else {
        all_position_contribs(rankings.drop_last()) + label_positions(rankings.last())
    }
}

/// The parsed label lists of the second-stage results, in order.
pub open spec fn parsed_rankings(s2: Seq<Stage2Result>) -> Seq<Seq<Seq<char>>> {
    s2.map_values(|r: Stage2Result| r.parsed_ranking.deep_view())
}

/// The label-to-model table seen mathematically.
pub open spec fn label_map_view(lm: Seq<(String, String)>) -> Seq<(Seq<char>, Seq<char>)> {
    lm.map_values(|e: (String, String)| (e.0@, e.1@))
}

/// The positions table after recording position `p` for model `m`.
pub open spec fn pos_record(
    t: Seq<(Seq<char>, Seq<int>)>,
    m: Seq<char>,
    p: int,
) -> Seq<(Seq<char>, Seq<int>)> {
    let i = find_key(t, m);
    if i < 0 {
        t.push((m, seq![p]))
    } else {
        t.update(i, (t[i].0, t[i].1.push(p)))
    }
}

/// The positions table accumulated over the contributions `cs`: each label
/// that resolves through `lm` appends its position to that model's list;
/// unresolvable labels are dropped.
pub open spec fn pos_table_of(
    cs: Seq<(Seq<char>, int)>,
    lm: Seq<(Seq<char>, Seq<char>)>,
) -> Seq<(Seq<char>, Seq<int>)>
    decreases cs.len(),
{
    if cs.len() == 0 {
        Seq::empty()
    } else {
        let prev = pos_table_of(cs.drop_last(), lm);
        let mi = find_key(lm, cs.last().0);
        if mi < 0 {
            prev
        } else {
            pos_record(prev, lm[mi].1, cs.last().1)
        }
    }
}

/// Sum of a sequence of positions.
pub open spec fn pos_sum(ps: Seq<int>) -> int
    decreases ps.len(),
{
    if ps.len() == 0 {
        0
    } else {
        pos_sum(ps.drop_last()) + ps.last()
    }
}

/// The average of `ps` scaled to hundredths and rounded to the nearest
/// hundredth, halves away from zero.
pub open spec fn avg_hundredths(ps: Seq<int>) -> int
    recommends
        ps.len() > 0,
{
    (200 * pos_sum(ps) + ps.len()) / (2 * ps.len() as int)
}

/// One aggregate line per model of the positions table, in table order.
pub open spec fn aggregate_entries(t: Seq<(Seq<char>, Seq<int>)>) -> Seq<(Seq<char>, int, int)> {
    t.map_values(|e: (Seq<char>, Seq<int>)| (e.0, avg_hundredths(e.1), e.1.len() as int))
}

/// Stable insertion of `e` into `t`: `e` goes before the first entry whose
/// average is strictly larger, after every earlier entry with an equal one.
pub open spec fn insert_by_avg(
    e: (Seq<char>, int, int),
    t: Seq<(Seq<char>, int, int)>,
) -> Seq<(Seq<char>, int, int)>
    decreases t.len(),
{
    if t.len() == 0 {
        seq![e]
    } else if e.1 < t[0].1 {
        seq![e] + t
    } else {
        seq![t[0]] + insert_by_avg(e, t.drop_first())
    }
}

/// Stable ascending sort of aggregate lines by average rank.
pub open spec fn sort_by_avg(t: Seq<(Seq<char>, int, int)>) -> Seq<(Seq<char>, int, int)>
    decreases t.len(),
{
    if t.len() == 0 {
        Seq::empty()
    } else {
        insert_by_avg(t.last(), sort_by_avg(t.drop_last()))
    }
}

/// What `calculate_aggregate_rankings` returns, as a mathematical value.
pub open spec fn aggregate_spec(
    s2: Seq<Stage2Result>,
    lm: Seq<(Seq<char>, Seq<char>)>,
) -> Seq<(Seq<char>, int, int)> {
    sort_by_avg(aggregate_entries(pos_table_of(all_position_contribs(parsed_rankings(s2)), lm)))
}

/// The mathematical view of the executable output.
pub open spec fn rankings_view(v: Seq<AggregateRanking>) -> Seq<(Seq<char>, int, int)> {
    v.map_values(
        |a: AggregateRanking|
            (a.model@, a.average_rank_hundredths as int, a.rankings_count as int),
    )
}

/// The mathematical view of an executable positions table.
pub open spec fn pos_table_view(t: Seq<(String, Vec<u64>)>) -> Seq<(Seq<char>, Seq<int>)> {
    t.map_values(|e: (String, Vec<u64>)| (e.0@, e.1@.map_values(|p: u64| p as int)))
}

/// Every list of an accumulated positions table is non-empty, and when all
/// contributed positions lie in [1, b], so do all recorded ones.
proof fn lemma_pos_table_bounds(cs: Seq<(Seq<char>, int)>, lm: Seq<(Seq<char>, Seq<char>)>, b: int)
    requires
        forall|k: int| 0 <= k < cs.len() ==> 1 <= (#[trigger] cs[k]).1 <= b,
    ensures
        forall|j: int|
            0 <= j < pos_table_of(cs, lm).len() ==> {
                let e = #[trigger] pos_table_of(cs, lm)[j];
                e.1.len() >= 1 && forall|q: int| 0 <= q < e.1.len() ==> 1 <= #[trigger] e.1[q] <= b
            },
    decreases cs.len(),
{
    if cs.len() > 0 {
        assert(forall|k: int|
            0 <= k < cs.drop_last().len() ==> 1 <= (#[trigger] cs.drop_last()[k]).1 <= b);
        lemma_pos_table_bounds(cs.drop_last(), lm, b);
        let prev = pos_table_of(cs.drop_last(), lm);
        let mi = find_key(lm, cs.last().0);
        if mi >= 0 {
            let p = cs.last().1;
            assert(cs[cs.len() - 1] == cs.last());
            let i = find_key(prev, lm[mi].1);
            if i >= 0 {
                lemma_find_key(prev, lm[mi].1);
                let t = pos_table_of(cs, lm);
                assert forall|j: int| 0 <= j < t.len() implies {
                    let e = #[trigger] t[j];
                    e.1.len() >= 1 && forall|q: int|
                        0 <= q < e.1.len() ==> 1 <= #[trigger] e.1[q] <= b
                } by {
                    if j == i {
                        assert(t[j].1 =~= prev[i].1.push(p));
                    } else {
                        assert(t[j] == prev[j]);
                    }
                }
            } else {
                let t = pos_table_of(cs, lm);
                assert forall|j: int| 0 <= j < t.len() implies {
                    let e = #[trigger] t[j];
                    e.1.len() >= 1 && forall|q: int|
                        0 <= q < e.1.len() ==> 1 <= #[trigger] e.1[q] <= b
                } by {
                    if j < prev.len() {
                        assert(t[j] == prev[j]);
                    } else {
                        assert(t[j] == (lm[mi].1, seq![p]));
                    }
                }
            }
        }
    }
}

/// Sums of positions lying in [1, b] lie between the count and count times b.
proof fn lemma_pos_sum_bound(ps: Seq<int>, b: int)
    requires
        forall|q: int| 0 <= q < ps.len() ==> 1 <= #[trigger] ps[q] <= b,
    ensures
        ps.len() <= pos_sum(ps) <= ps.len() * b,
    decreases ps.len(),
{
    if ps.len() == 0 {
        assert(ps.len() * b == 0) by (nonlinear_arith)
            requires
                ps.len() == 0,
        ;
    } else {
        assert(forall|q: int|
            0 <= q < ps.drop_last().len() ==> 1 <= #[trigger] ps.drop_last()[q] <= b);
        lemma_pos_sum_bound(ps.drop_last(), b);
        assert(ps.last() == ps[ps.len() - 1]);
        assert((ps.len() - 1) * b + b == ps.len() * b) by (nonlinear_arith);
    }
}

/// The scaled average of a non-empty list of positions in [1, b] lies in
/// [0, 100 * b + 1].
proof fn lemma_avg_fits(ps: Seq<int>, b: int)
    requires
        ps.len() > 0,
        0 <= b,
        forall|q: int| 0 <= q < ps.len() ==> 1 <= #[trigger] ps[q] <= b,
    ensures
        0 <= avg_hundredths(ps) <= 100 * b + 1,
{
    let s = pos_sum(ps);
    let c = ps.len() as int;
    lemma_pos_sum_bound(ps, b);
    assert(200 * s + c <= (2 * c) * (100 * b + 1)) by (nonlinear_arith)
        requires
            s <= c * b,
            1 <= c,
    ;
    lemma_multiply_divide_le(200 * s + c, 2 * c, 100 * b + 1);
    lemma_div_pos_is_pos(200 * s + c, 2 * c);
}

/// Looks `key` up in the label-to-model table, returning the index of its
/// first entry.
fn find_label_entry(lm: &Vec<(String, String)>, key: &String) -> (r: Option<usize>)
    ensures
        match r {
            Option::Some(i) => find_key(label_map_view(lm@), key@) == i as int,
            Option::None => find_key(label_map_view(lm@), key@) == -1,
        },
{
    let ghost v = label_map_view(lm@);
    let mut j: usize = 0;
    while j < lm.len()
        invariant
            j <= lm@.len(),
            v == label_map_view(lm@),
            forall|j2: int| 0 <= j2 < j ==> (#[trigger] v[j2]).0 != key@,
        decreases lm@.len() - j,
    {
        let hit = lm[j].0 == *key;
        if hit {
            proof {
                assert(v[j as int].0 == key@);
                lemma_find_key(v, key@);
            }
            return Some(j);
        }
        j = j + 1;
    }
    proof {
        lemma_find_key(v, key@);
    }
    None
}

/// Looks `model` up in the executable positions table.
fn find_pos_entry(t: &Vec<(String, Vec<u64>)>, model: &String) -> (r: Option<usize>)
    ensures
        match r {
            Option::Some(i) => find_key(pos_table_view(t@), model@) == i as int,
            Option::None => find_key(pos_table_view(t@), model@) == -1,
        },
{
    let ghost v = pos_table_view(t@);
    let mut j: usize = 0;
    while j < t.len()
        invariant
            j <= t@.len(),
            v == pos_table_view(t@),
            forall|j2: int| 0 <= j2 < j ==> (#[trigger] v[j2]).0 != model@,
        decreases t@.len() - j,
    {
        let hit = t[j].0 == *model;
        if hit {
            proof {
                assert(v[j as int].0 == model@);
                lemma_find_key(v, model@);
            }
            return Some(j);
        }
        j = j + 1;
    }
    proof {
        lemma_find_key(v, model@);
    }
    None
}

/// Builds the positions table for all second-stage results: each parsed
/// label that resolves through the label-to-model table records its
/// 1-indexed position under that model.
#[verifier::loop_isolation(false)]
fn build_positions_table(
    stage2_results: &Vec<Stage2Result>,
    label_to_model: &Vec<(String, String)>,
) -> (table: Vec<(String, Vec<u64>)>)
    requires
        forall|r: int|
            0 <= r < stage2_results@.len() ==> (#[trigger] stage2_results@[r]).parsed_ranking@.len()
                <= position_bound(),
    ensures
        pos_table_view(table@) == pos_table_of(
            all_position_contribs(parsed_rankings(stage2_results@)),
            label_map_view(label_to_model@),
        ),
{
    let ghost rankings = parsed_rankings(stage2_results@);
    let ghost lm = label_map_view(label_to_model@);
    let mut table: Vec<(String, Vec<u64>)> = Vec::new();
    proof {
        assert(all_position_contribs(rankings.take(0)) =~= Seq::<(Seq<char>, int)>::empty());
        assert(pos_table_view(table@) =~= pos_table_of(
            all_position_contribs(rankings.take(0)),
            lm,
        ));
    }
    let n = stage2_results.len();
    let mut i: usize = 0;
    while i < n
        invariant
            i <= n,
            pos_table_view(table@) == pos_table_of(all_position_contribs(rankings.take(i as int)), lm),
        decreases n - i,
    {
        let ghost done = all_position_contribs(rankings.take(i as int));
        let ghost parsed = rankings[i as int];
        proof {
            assert(parsed == stage2_results@[i as int].parsed_ranking.deep_view());
        }
        let parsed_len = stage2_results[i].parsed_ranking.len();
        let mut k: usize = 0;
        while k < parsed_len
            invariant
                k <= parsed_len,
                parsed_len == parsed.len(),
                parsed == stage2_results@[i as int].parsed_ranking.deep_view(),
                i < n,
                done == all_position_contribs(rankings.take(i as int)),
                pos_table_view(table@) == pos_table_of(
                    done + label_positions(parsed).take(k as int),
                    lm,
                ),
            decreases parsed_len - k,
        {
            let ghost cs_now = done + label_positions(parsed).take(k as int);
            let label = &stage2_results[i].parsed_ranking[k];
            proof {
                assert(label@ == parsed[k as int]);
            }
            let p: u64 = (k as u64) + 1;
            match find_label_entry(label_to_model, label) {
                Option::Some(mi) => {
                    proof {
                        lemma_find_key(lm, label@);
                    }
                    let model = &label_to_model[mi].1;
                    match find_pos_entry(&table, model) {
                        Option::Some(ti) => {
                            proof {
                                lemma_find_key(pos_table_view(table@), model@);
                            }
                            let key_clone = table[ti].0.clone();
                            let mut list = table[ti].1.clone();
                            proof {
                                assert(list@ =~= table@[ti as int].1@);
                            }
                            list.push(p);
                            let ghost old_view = pos_table_view(table@);
                            table[ti] = (key_clone, list);
                            proof {
                                assert(pos_table_view(table@) =~~= pos_record(
                                    old_view,
                                    model@,
                                    p as int,
                                ));
                            }
                        },
                        Option::None => {
                            let ghost old_view = pos_table_view(table@);
                            let mut list: Vec<u64> = Vec::new();
                            list.push(p);
                            table.push((model.clone(), list));
                            proof {
                                assert(pos_table_view(table@) =~~= pos_record(
                                    old_view,
                                    model@,
                                    p as int,
                                ));
                            }
                        },
                    }
                },
                Option::None => {},
            }
            proof {
                let c = (parsed[k as int], k as int + 1);
                assert(label_positions(parsed)[k as int] == c);
                assert(cs_now.push(c) =~= done + label_positions(parsed).take(k as int + 1));
                assert(cs_now.push(c).drop_last() =~= cs_now);
                assert(cs_now.push(c).last() == c);
                assert(pos_table_view(table@) == pos_table_of(cs_now.push(c), lm));
            }
            k = k + 1;
        }
        proof {
            assert(label_positions(parsed).take(parsed.len() as int) =~= label_positions(parsed));
            assert(rankings.take(i as int + 1).drop_last() =~= rankings.take(i as int));
            assert(rankings.take(i as int + 1).last() == parsed);
            assert(done + label_positions(parsed) =~= all_position_contribs(
                rankings.take(i as int + 1),
            ));
        }
        i = i + 1;
    }
    proof {
        assert(rankings.take(n as int) =~= rankings);
    }
    table
}

/// The scaled, rounded average of one model's recorded positions.
#[verifier::loop_isolation(false)]
fn entry_average(positions: &Vec<u64>) -> (avg: u64)
    requires
        positions@.len() > 0,
        forall|q: int|
            0 <= q < positions@.len() ==> 1 <= (#[trigger] positions@[q]) as int <= position_bound(),
    ensures
        avg as int == avg_hundredths(positions@.map_values(|p: u64| p as int)),
{
    let ghost ps = positions@.map_values(|p: u64| p as int);
    let n = positions.len();
    let mut sum: u128 = 0;
    let mut idx: usize = 0;
    while idx < n
        invariant
            idx <= n,
            n == positions@.len(),
            sum as int == pos_sum(ps.take(idx as int)),
        decreases n - idx,
    {
        proof {
            assert(forall|q: int|
                0 <= q < ps.take(idx as int + 1).len() ==> 1 <= #[trigger] ps.take(
                    idx as int + 1,
                )[q] <= position_bound());
            lemma_pos_sum_bound(ps.take(idx as int + 1), position_bound());
            assert(ps.take(idx as int + 1).drop_last() =~= ps.take(idx as int));
            assert(ps.take(idx as int + 1).last() == ps[idx as int]);
            assert((idx as int + 1) * position_bound() <= 0x1_0000_0000_0000_0000 * 0xFFFF_FFFF)
                by (nonlinear_arith)
                requires
                    idx as int + 1 <= 0x1_0000_0000_0000_0000,
            ;
        }
        sum = sum + (positions[idx] as u128);
        idx = idx + 1;
    }
    proof {
        assert(ps.take(n as int) =~= ps);
        lemma_pos_sum_bound(ps, position_bound());
        lemma_avg_fits(ps, position_bound());
        assert((n as int) * position_bound() <= 0x1_0000_0000_0000_0000 * 0xFFFF_FFFF)
            by (nonlinear_arith)
            requires
                n as int <= 0x1_0000_0000_0000_0000,
        ;
    }
    let count: u128 = n as u128;
    let avg_wide: u128 = (200 * sum + count) / (2 * count);
    avg_wide as u64
}

/// Ascending order by the average component.
pub open spec fn sorted_by_avg(t: Seq<(Seq<char>, int, int)>) -> bool {
    forall|i: int, j: int| 0 <= i <= j < t.len() ==> (#[trigger] t[i]).1 <= (#[trigger] t[j]).1
}

/// Inserting adds exactly the new line: every line of the result is the
/// inserted one or one of the table.
proof fn lemma_insert_by_avg_elems(e: (Seq<char>, int, int), t: Seq<(Seq<char>, int, int)>)
    ensures
        insert_by_avg(e, t).len() == t.len() + 1,
        forall|j: int|
            0 <= j < insert_by_avg(e, t).len() ==> (#[trigger] insert_by_avg(e, t)[j]) == e
                || exists|j2: int| 0 <= j2 < t.len() && (#[trigger] t[j2]) == insert_by_avg(e, t)[j],
    decreases t.len(),
{
    let ins = insert_by_avg(e, t);
    if t.len() == 0 {
        assert(ins[0] == e);
    } else if e.1 < t[0].1 {
        assert forall|j: int| 0 <= j < ins.len() implies (#[trigger] ins[j]) == e || exists|j2: int|
            0 <= j2 < t.len() && (#[trigger] t[j2]) == ins[j] by {
            if j > 0 {
                assert(t[j - 1] == ins[j]);
            }
        }
    } else {
        lemma_insert_by_avg_elems(e, t.drop_first());
        let ins2 = insert_by_avg(e, t.drop_first());
        assert forall|j: int| 0 <= j < ins.len() implies (#[trigger] ins[j]) == e || exists|j2: int|
            0 <= j2 < t.len() && (#[trigger] t[j2]) == ins[j] by {
            if j == 0 {
                assert(t[0] == ins[0]);
            } else {
                assert(ins[j] == ins2[j - 1]);
                if ins2[j - 1] == e {
                } else {
                    let j2 = choose|j2: int|
                        0 <= j2 < t.drop_first().len() && (#[trigger] t.drop_first()[j2]) == ins2[j
                            - 1];
                    assert(t[j2 + 1] == ins[j]);
                }
            }
        }
    }
}

/// Insertion keeps the table sorted.
proof fn lemma_insert_by_avg_sorted(e: (Seq<char>, int, int), t: Seq<(Seq<char>, int, int)>)
    requires
        sorted_by_avg(t),
    ensures
        sorted_by_avg(insert_by_avg(e, t)),
    decreases t.len(),
{
    let ins = insert_by_avg(e, t);
    if t.len() == 0 {
    } else if e.1 < t[0].1 {
        assert forall|i: int, j: int| 0 <= i <= j < ins.len() implies (#[trigger] ins[i]).1 <= (
        #[trigger] ins[j]).1 by {
            if i > 0 {
                assert(ins[i] == t[i - 1] && ins[j] == t[j - 1]);
            } else if j > 0 {
                assert(ins[j] == t[j - 1]);
                assert(t[0].1 <= t[j - 1].1);
            }
        }
    } else {
        let tr = t.drop_first();
        assert(sorted_by_avg(tr)) by {
            assert(forall|i: int, j: int|
                0 <= i <= j < tr.len() ==> (#[trigger] tr[i]).1 <= (#[trigger] tr[j]).1) by {
                assert(forall|i: int|
                    0 <= i < tr.len() ==> (#[trigger] tr[i]) == t[i + 1]);
            }
        }
        lemma_insert_by_avg_sorted(e, tr);
        lemma_insert_by_avg_elems(e, tr);
        let ins2 = insert_by_avg(e, tr);
        assert forall|j: int| 0 <= j < ins2.len() implies t[0].1 <= (#[trigger] ins2[j]).1 by {
            if ins2[j] == e {
            } else {
                let j2 = choose|j2: int| 0 <= j2 < tr.len() && (#[trigger] tr[j2]) == ins2[j];
                assert(tr[j2] == t[j2 + 1]);
            }
        }
        assert forall|i: int, j: int| 0 <= i <= j < ins.len() implies (#[trigger] ins[i]).1 <= (
        #[trigger] ins[j]).1 by {
            if i == 0 {
                if j > 0 {
                    assert(ins[j] == ins2[j - 1]);
                }
            } else {
                assert(ins[i] == ins2[i - 1] && ins[j] == ins2[j - 1]);
                assert(ins2[i - 1].1 <= ins2[j - 1].1);
            }
        }
    }
}

/// The aggregate output is sorted ascending by average rank.
pub proof fn lemma_sort_by_avg_sorted(t: Seq<(Seq<char>, int, int)>)
    ensures
        sorted_by_avg(sort_by_avg(t)),
    decreases t.len(),
{
    if t.len() > 0 {
        lemma_sort_by_avg_sorted(t.drop_last());
        lemma_insert_by_avg_sorted(t.last(), sort_by_avg(t.drop_last()));
    }
}

/// Sorting adds no line: every line of the sorted table is a line of the
/// unsorted one.
proof fn lemma_sort_by_avg_elems(t: Seq<(Seq<char>, int, int)>)
    ensures
        sort_by_avg(t).len() == t.len(),
        forall|j: int|
            0 <= j < sort_by_avg(t).len() ==> exists|j2: int|
                0 <= j2 < t.len() && (#[trigger] t[j2]) == (#[trigger] sort_by_avg(t)[j]),
    decreases t.len(),
{
    if t.len() > 0 {
        lemma_sort_by_avg_elems(t.drop_last());
        let st = sort_by_avg(t.drop_last());
        lemma_insert_by_avg_elems(t.last(), st);
        let ins = insert_by_avg(t.last(), st);
        assert forall|j: int| 0 <= j < ins.len() implies exists|j2: int|
            0 <= j2 < t.len() && (#[trigger] t[j2]) == (#[trigger] ins[j]) by {
            if ins[j] == t.last() {
                assert(t[t.len() - 1] == ins[j]);
            } else {
                let ja = choose|ja: int| 0 <= ja < st.len() && (#[trigger] st[ja]) == ins[j];
                let jb = choose|jb: int|
                    0 <= jb < t.drop_last().len() && (#[trigger] t.drop_last()[jb]) == st[ja];
                assert(t[jb] == ins[j]);
            }
        }
    }
}

/// Inserting before the first strictly-larger entry is what `insert_by_avg`
/// does.
proof fn lemma_insert_by_avg_at(
    e: (Seq<char>, int, int),
    t: Seq<(Seq<char>, int, int)>,
    k: int,
)
    requires
        0 <= k <= t.len(),
        forall|j: int| 0 <= j < k ==> (#[trigger] t[j]).1 <= e.1,
        k < t.len() ==> t[k].1 > e.1,
    ensures
        insert_by_avg(e, t) == t.take(k) + seq![e] + t.skip(k),
    decreases t.len(),
{
    if t.len() == 0 {
        assert(insert_by_avg(e, t) =~= t.take(k) + seq![e] + t.skip(k));
    } else if e.1 < t[0].1 {
        assert(k == 0);
        assert(t.skip(0) =~= t);
        assert(insert_by_avg(e, t) =~= t.take(0) + seq![e] + t.skip(0));
    } else {
        assert(t[0].1 <= e.1);
        assert(k >= 1);
        let tr = t.drop_first();
        assert(forall|j: int| 0 <= j < k - 1 ==> (#[trigger] tr[j]).1 <= e.1) by {
            assert(forall|j: int| 0 <= j < tr.len() ==> (#[trigger] tr[j]) == t[j + 1]);
        }
        assert(k - 1 < tr.len() ==> tr[k - 1].1 > e.1);
        lemma_insert_by_avg_at(e, tr, k - 1);
        assert(seq![t[0]] + (tr.take(k - 1) + seq![e] + tr.skip(k - 1)) =~= t.take(k) + seq![e]
            + t.skip(k));
    }
}

/// Sorts aggregate lines ascending by average rank, stably.
#[verifier::loop_isolation(false)]
fn sort_aggregates(lines: Vec<AggregateRanking>) -> (sorted: Vec<AggregateRanking>)
    ensures
        rankings_view(sorted@) == sort_by_avg(rankings_view(lines@)),
{
    let ghost v = rankings_view(lines@);
    let mut out: Vec<AggregateRanking> = Vec::new();
    proof {
        assert(rankings_view(lines@.take(0)) =~= Seq::<(Seq<char>, int, int)>::empty());
        assert(rankings_view(out@) =~= sort_by_avg(rankings_view(lines@.take(0))));
    }
    let n = lines.len();
    let mut i: usize = 0;
    while i < n
        invariant
            i <= n,
            n == lines@.len(),
            v == rankings_view(lines@),
            rankings_view(out@) == sort_by_avg(rankings_view(lines@.take(i as int))),
        decreases n - i,
    {
        let ghost sorted_pre = rankings_view(out@);
        let item = AggregateRanking {
            model: lines[i].model.clone(),
            average_rank_hundredths: lines[i].average_rank_hundredths,
            rankings_count: lines[i].rankings_count,
        };
        let ghost e = (item.model@, item.average_rank_hundredths as int, item.rankings_count as int);
        proof {
            assert(e == v[i as int]);
        }
        let mut idx: usize = 0;
        while idx < out.len() && out[idx].average_rank_hundredths <= item.average_rank_hundredths
            invariant
                idx <= out@.len(),
                rankings_view(out@) == sorted_pre,
                forall|j: int| 0 <= j < idx ==> (#[trigger] sorted_pre[j]).1 <= e.1,
            decreases out@.len() - idx,
        {
            proof {
                assert(sorted_pre[idx as int].1 == out@[idx as int].average_rank_hundredths as int);
            }
            idx = idx + 1;
        }
        proof {
            if idx < out@.len() {
                assert(sorted_pre[idx as int].1 == out@[idx as int].average_rank_hundredths as int);
            }
            lemma_insert_by_avg_at(e, sorted_pre, idx as int);
        }
        out.insert(idx, item);
        proof {
            assert(rankings_view(out@) =~= sorted_pre.take(idx as int) + seq![e] + sorted_pre.skip(
                idx as int,
            ));
            assert(rankings_view(lines@.take(i as int + 1)).drop_last() =~= rankings_view(
                lines@.take(i as int),
            ));
            assert(rankings_view(lines@.take(i as int + 1)).last() == e);
            assert(rankings_view(out@) == sort_by_avg(rankings_view(lines@.take(i as int + 1))));
        }
        i = i + 1;
    }
    proof {
        assert(lines@.take(n as int) =~= lines@);
    }
    out
}

/// Every contribution of rankings no longer than `b` has its position in
/// [1, b].
proof fn lemma_all_contribs_bounds(rankings: Seq<Seq<Seq<char>>>, b: int)
    requires
        forall|r: int| 0 <= r < rankings.len() ==> (#[trigger] rankings[r]).len() <= b,
    ensures
        forall|k: int|
            0 <= k < all_position_contribs(rankings).len() ==> 1 <= (
            #[trigger] all_position_contribs(rankings)[k]).1 <= b,
    decreases rankings.len(),
{
    if rankings.len() > 0 {
        assert(forall|r: int|
            0 <= r < rankings.drop_last().len() ==> (#[trigger] rankings.drop_last()[r]).len()
                <= b);
        lemma_all_contribs_bounds(rankings.drop_last(), b);
        let cs = all_position_contribs(rankings);
        let pre = all_position_contribs(rankings.drop_last());
        let lp = label_positions(rankings.last());
        assert forall|k: int| 0 <= k < cs.len() implies 1 <= (#[trigger] cs[k]).1 <= b by {
            if k < pre.len() {
                assert(cs[k] == pre[k]);
            } else {
                assert(cs[k] == lp[k - pre.len()]);
            }
        }
    }
}

/// Reduces all second-stage rankings to one aggregate line per model that
/// was ranked at least once, sorted ascending by average position. Models
/// never resolved from any parsed ranking do not appear.
pub fn calculate_aggregate_rankings(
    stage2_results: &Vec<Stage2Result>,
    label_to_model: &Vec<(String, String)>,
) -> (r: Vec<AggregateRanking>)
    requires
        forall|k: int|
            0 <= k < stage2_results@.len() ==> (#[trigger] stage2_results@[k]).parsed_ranking@.len()
                <= position_bound(),
    ensures
        rankings_view(r@) == aggregate_spec(stage2_results@, label_map_view(label_to_model@)),
{
    let ghost lm = label_map_view(label_to_model@);
    let ghost cs = all_position_contribs(parsed_rankings(stage2_results@));
    let table = build_positions_table(stage2_results, label_to_model);
    proof {
        assert(forall|k: int|
            0 <= k < parsed_rankings(stage2_results@).len() ==> (#[trigger] parsed_rankings(
                stage2_results@,
            )[k]).len() <= position_bound());
        lemma_all_contribs_bounds(parsed_rankings(stage2_results@), position_bound());
        lemma_pos_table_bounds(cs, lm, position_bound());
    }
    let mut lines: Vec<AggregateRanking> = Vec::new();
    proof {
        assert(rankings_view(lines@) =~= aggregate_entries(
            pos_table_view(table@.take(0)),
        ));
    }
    let n = table.len();
    let mut i: usize = 0;
    while i < n
        invariant
            i <= n,
            n == table@.len(),
            pos_table_view(table@) == pos_table_of(cs, lm),
            forall|j: int|
                0 <= j < pos_table_of(cs, lm).len() ==> {
                    let e = #[trigger] pos_table_of(cs, lm)[j];
                    e.1.len() >= 1 && forall|q: int|
                        0 <= q < e.1.len() ==> 1 <= #[trigger] e.1[q] <= position_bound()
                },
            rankings_view(lines@) == aggregate_entries(pos_table_view(table@.take(i as int))),
        decreases n - i,
    {
        let ghost tv = pos_table_view(table@);
        proof {
            assert(tv[i as int] == (table@[i as int].0@, table@[i as int].1@.map_values(
                |p: u64| p as int,
            )));
            assert(tv[i as int] == pos_table_of(cs, lm)[i as int]);
            assert(tv[i as int].1.len() >= 1);
            assert forall|q: int|
                0 <= q < table@[i as int].1@.len() implies 1 <= (
                #[trigger] table@[i as int].1@[q]) as int <= position_bound() by {
                assert(tv[i as int].1[q] == table@[i as int].1@[q] as int);
                assert(1 <= tv[i as int].1[q] <= position_bound());
            }
        }
        let avg = entry_average(&table[i].1);
        let line = AggregateRanking {
            model: table[i].0.clone(),
            average_rank_hundredths: avg,
            rankings_count: table[i].1.len(),
        };
        lines.push(line);
        proof {
            let pre = pos_table_view(table@.take(i as int));
            let post = pos_table_view(table@.take(i as int + 1));
            let entry = (table@[i as int].0@, table@[i as int].1@.map_values(|p: u64| p as int));
            assert(post =~~= pre.push(entry));
            let aline = (entry.0, avg_hundredths(entry.1), entry.1.len() as int);
            assert(aggregate_entries(post) =~~= aggregate_entries(pre).push(aline));
            assert(rankings_view(lines@) =~~= aggregate_entries(pre).push(aline));
        }
        i = i + 1;
    }
    proof {
        assert(table@.take(n as int) =~= table@);
    }
    sort_aggregates(lines)
}

/// No model without a recorded position appears in the aggregate output:
/// every line counts at least one ranking.
pub proof fn lemma_aggregate_counts_positive(s2: Seq<Stage2Result>, lm: Seq<(Seq<char>, Seq<char>)>)
    requires
        forall|k: int|
            0 <= k < s2.len() ==> (#[trigger] s2[k]).parsed_ranking@.len() <= position_bound(),
    ensures
        forall|j: int|
            0 <= j < aggregate_spec(s2, lm).len() ==> (#[trigger] aggregate_spec(s2, lm)[j]).2 >= 1,
{
    let cs = all_position_contribs(parsed_rankings(s2));
    assert(forall|k: int|
        0 <= k < parsed_rankings(s2).len() ==> (#[trigger] parsed_rankings(s2)[k]).len()
            <= position_bound());
    lemma_all_contribs_bounds(parsed_rankings(s2), position_bound());
    lemma_pos_table_bounds(cs, lm, position_bound());
    let entries = aggregate_entries(pos_table_of(cs, lm));
    assert(forall|j: int| 0 <= j < entries.len() ==> (#[trigger] entries[j]).2 >= 1);
    lemma_sort_by_avg_elems(entries);
    assert forall|j: int|
        0 <= j < aggregate_spec(s2, lm).len() implies (#[trigger] aggregate_spec(s2, lm)[j]).2
        >= 1 by {
        let j2 = choose|j2: int|
            0 <= j2 < entries.len() && (#[trigger] entries[j2]) == sort_by_avg(entries)[j];
    }
}

/// The aggregate output is sorted ascending by average rank.
pub proof fn lemma_aggregate_sorted(s2: Seq<Stage2Result>, lm: Seq<(Seq<char>, Seq<char>)>)
    ensures
        sorted_by_avg(aggregate_spec(s2, lm)),
{
    lemma_sort_by_avg_sorted(
        aggregate_entries(pos_table_of(all_position_contribs(parsed_rankings(s2)), lm)),
    );
}

} // verus!
