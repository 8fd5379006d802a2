//! Rules on the rated statistics, and the OR-groups that fold several of
//! their verdicts into one.

use vstd::prelude::*;
use vstd::string::*;
use crate::number::Decimal;
use crate::regulations::{
    above, below, conclude, exceeds, falls_short, is_above, is_below, is_over, is_under, reports,
    Category, CheckError,
};
use crate::specs::Car;
use crate::text::{join, joined, same_text, texts};

verus! {

/// Rules that cut across the statistics.
#[derive(Debug)]
pub struct Rules {
    /// The OR-groups, in the order in which they are applied. Each names
    /// verdicts of which one passing is enough.
    pub or: Option<Vec<Vec<String>>>,
}

/// Floors for the ratings, ceilings for the costs, and bounds on the model
/// year. A field left out is not checked.
#[derive(Debug)]
pub struct Stats {
    pub model_min_year: Option<usize>,
    pub model_max_year: Option<usize>,
    pub drivability: Option<Decimal>,
    pub sportiness: Option<Decimal>,
    pub reliability: Option<Decimal>,
    pub safety: Option<Decimal>,
    pub practicality: Option<Decimal>,
    pub comfort: Option<Decimal>,
    pub prestige: Option<Decimal>,
    pub offroad: Option<Decimal>,
    pub cost: Option<Decimal>,
    pub service_cost: Option<Decimal>,
    pub fuel_economy: Option<Decimal>,
}

/// A verdict as the contracts see it: a key and whether it passed.
pub struct Score {
    pub key: Seq<char>,
    pub passed: bool,
}

/// The verdict on one key: a statistic, or a group of them.
#[derive(Debug, Clone, PartialEq, Eq)]
pub struct Verdict {
    pub key: String,
    pub passed: bool,
}

impl View for Verdict {
    type V = Score;

    open spec fn view(&self) -> Score {
        Score { key: self.key@, passed: self.passed }
    }
}

/// The verdicts of a list, as the contracts see them.
pub open spec fn scores_of(v: Seq<Verdict>) -> Seq<Score> {
    v.map_values(|x: Verdict| x@)
}

/// The OR-groups of a list, as the contracts see them.
pub open spec fn groups_of(v: Seq<Vec<String>>) -> Seq<Seq<Seq<char>>> {
    v.map_values(|g: Vec<String>| texts(g@))
}

/// The OR-groups that optional rules declare; none when nothing is
/// declared.
pub open spec fn declared_groups(rules: Option<Rules>) -> Seq<Seq<Seq<char>>> {
    match rules {
        Some(Rules { or: Some(groups) }) => groups_of(groups@),
        _ => Seq::empty(),
    }
}

/// The verdict recorded under `key`, if there is one.
pub open spec fn lookup(scores: Seq<Score>, key: Seq<char>) -> Option<bool>
    decreases scores.len(),
{
    if scores.len() == 0 {
        None
    } else if scores[0].key == key {
        Some(scores[0].passed)
    } else {
        lookup(scores.drop_first(), key)
    }
}

/// The keys of the verdicts, in order.
pub open spec fn keys_of(scores: Seq<Score>) -> Seq<Seq<char>> {
    scores.map_values(|s: Score| s.key)
}

/// Whether a group can be applied: it has members, and each is the key of a
/// verdict.
pub open spec fn group_known(scores: Seq<Score>, group: Seq<Seq<char>>) -> bool {
    &&& group.len() > 0
    &&& forall|j: int| 0 <= j < group.len() ==> lookup(scores, #[trigger] group[j]) is Some
}

/// Whether one member of the group passed.
pub open spec fn group_passes(scores: Seq<Score>, group: Seq<Seq<char>>) -> bool {
    exists|j: int| 0 <= j < group.len() && lookup(scores, #[trigger] group[j]) == Some(true)
}

/// The key under which a group's verdict is recorded: its members joined
/// by a bar.
pub open spec fn group_name(group: Seq<Seq<char>>) -> Seq<char> {
    joined(group, "|"@)
}

/// Whether a verdict is replaced when `group` is applied: its key is a
/// member of the group, or the group's own name.
pub open spec fn consumed(group: Seq<Seq<char>>, key: Seq<char>) -> bool {
    group.contains(key) || key == group_name(group)
}

/// The verdicts that applying `group` leaves in place, in order.
pub open spec fn untouched(scores: Seq<Score>, group: Seq<Seq<char>>) -> Seq<Score>
    decreases scores.len(),
{
    if scores.len() == 0 {
        Seq::empty()
    } else if consumed(group, scores.last().key) {
        untouched(scores.drop_last(), group)
    } else {
        untouched(scores.drop_last(), group).push(scores.last())
    }
}

/// The verdicts after `group` is applied: its members leave, and one
/// verdict under the group's name follows the others. It passes if a
/// member passed.
pub open spec fn merged(scores: Seq<Score>, group: Seq<Seq<char>>) -> Seq<Score> {
    untouched(scores, group).push(
        Score { key: group_name(group), passed: group_passes(scores, group) },
    )
}

/// The verdicts after the groups from position `at` on are applied in
/// order, or the position of the first group that cannot be applied.
pub open spec fn reduced(scores: Seq<Score>, groups: Seq<Seq<Seq<char>>>, at: int) -> Result<
    Seq<Score>,
    int,
>
    decreases groups.len() - at,
{
    if at < 0 || at >= groups.len() {
        Ok(scores)
    } else if !group_known(scores, groups[at]) {
        Err(at)
    } else {
        reduced(merged(scores, groups[at]), groups, at + 1)
    }
}

/// The keys of the verdicts that did not pass, in order.
pub open spec fn failed_keys(scores: Seq<Score>) -> Seq<Seq<char>>
    decreases scores.len(),
{
    if scores.len() == 0 {
        Seq::empty()
    } else if scores.last().passed {
        failed_keys(scores.drop_last())
    } else {
        failed_keys(scores.drop_last()).push(scores.last().key)
    }
}

/// One verdict for each statistic, all passing: what a rulebook without
/// thresholds scores.
pub open spec fn blank_scores() -> Seq<Score> {
    Seq::<Score>::empty().push(Score { key: "model_min_year"@, passed: true }).push(
        Score { key: "model_max_year"@, passed: true },
    ).push(Score { key: "drivability"@, passed: true }).push(
        Score { key: "sportiness"@, passed: true },
    ).push(Score { key: "reliability"@, passed: true }).push(
        Score { key: "safety"@, passed: true },
    ).push(Score { key: "practicality"@, passed: true }).push(
        Score { key: "comfort"@, passed: true },
    ).push(Score { key: "prestige"@, passed: true }).push(
        Score { key: "offroad"@, passed: true },
    ).push(Score { key: "cost"@, passed: true }).push(
        Score { key: "service_cost"@, passed: true },
    ).push(Score { key: "fuel_economy"@, passed: true })
}

/// A key has a verdict exactly if it is among the keys.
pub proof fn lemma_lookup_known(scores: Seq<Score>, key: Seq<char>)
    ensures
        lookup(scores, key) is Some <==> keys_of(scores).contains(key),
    decreases scores.len(),
{
    let keys = keys_of(scores);
    if scores.len() == 0 {
    } else if scores[0].key == key {
        assert(keys[0] == key);
    } else {
        let rest = scores.drop_first();
        lemma_lookup_known(rest, key);
        assert(keys_of(rest) =~= keys.drop_first());
        if keys.contains(key) {
            let i = choose|i: int| 0 <= i < keys.len() && keys[i] == key;
            assert(keys.drop_first()[i - 1] == key);
        }
        if keys.drop_first().contains(key) {
            let i = choose|i: int| 0 <= i < keys.drop_first().len() && keys.drop_first()[i] == key;
            assert(keys[i + 1] == key);
        }
    }
}

proof fn lemma_untouched_keys(a: Seq<Score>, b: Seq<Score>, group: Seq<Seq<char>>)
    requires
        keys_of(a) == keys_of(b),
    ensures
        keys_of(untouched(a, group)) == keys_of(untouched(b, group)),
    decreases a.len(),
{
    assert(a.len() == keys_of(a).len());
    assert(b.len() == keys_of(b).len());
    if a.len() > 0 {
        assert(keys_of(a.drop_last()) =~= keys_of(a).drop_last());
        assert(keys_of(b.drop_last()) =~= keys_of(b).drop_last());
        lemma_untouched_keys(a.drop_last(), b.drop_last(), group);
        assert(a.last().key == keys_of(a).last());
        assert(b.last().key == keys_of(b).last());
        let ua = untouched(a.drop_last(), group);
        let ub = untouched(b.drop_last(), group);
        assert(keys_of(ua.push(a.last())) =~= keys_of(ua).push(a.last().key));
        assert(keys_of(ub.push(b.last())) =~= keys_of(ub).push(b.last().key));
    }
}

/// Whether the OR-groups can be applied, and the position of the first
/// that cannot, depend on the keys of the verdicts alone, not on which of
/// them passed: two lists of verdicts with the same keys fail at the same
/// group or are both reduced, and then to the same keys.
pub proof fn lemma_fault_depends_on_keys(
    a: Seq<Score>,
    b: Seq<Score>,
    groups: Seq<Seq<Seq<char>>>,
    at: int,
)
    requires
        keys_of(a) == keys_of(b),
    ensures
        match reduced(a, groups, at) {
            Ok(x) => reduced(b, groups, at) matches Ok(y) && keys_of(x) == keys_of(y),
            Err(i) => reduced(b, groups, at) matches Err(j) && i == j,
        },
    decreases groups.len() - at,
{
    if at < 0 || at >= groups.len() {
    } else {
        let group = groups[at];
        assert forall|j: int| 0 <= j < group.len() implies (lookup(a, #[trigger] group[j]) is Some
            <==> lookup(b, group[j]) is Some) by {
            lemma_lookup_known(a, group[j]);
            lemma_lookup_known(b, group[j]);
        }
        if group_known(a, group) {
            assert(group_known(b, group));
            lemma_untouched_keys(a, b, group);
            let ma = merged(a, group);
            let mb = merged(b, group);
            assert(keys_of(ma) =~= keys_of(untouched(a, group)).push(group_name(group)));
            assert(keys_of(mb) =~= keys_of(untouched(b, group)).push(group_name(group)));
            lemma_fault_depends_on_keys(ma, mb, groups, at + 1);
        } else {
            assert(!group_known(b, group));
        }
    }
}

proof fn lemma_untouched_has_no_consumed(scores: Seq<Score>, group: Seq<Seq<char>>, key: Seq<char>)
    requires
        consumed(group, key),
    ensures
        lookup(untouched(scores, group), key) is None,
    decreases scores.len(),
{
    if scores.len() > 0 {
        lemma_untouched_has_no_consumed(scores.drop_last(), group, key);
        let rest = untouched(scores.drop_last(), group);
        if !consumed(group, scores.last().key) {
            lemma_lookup_push(rest, scores.last(), key);
        }
    }
}

proof fn lemma_lookup_push(scores: Seq<Score>, last: Score, key: Seq<char>)
    ensures
        lookup(scores.push(last), key) == if lookup(scores, key) is Some {
            lookup(scores, key)
        } else if last.key == key {
            Some(last.passed)
        } else {
            None
        },
    decreases scores.len(),
{
    if scores.len() == 0 {
        assert(scores.push(last).drop_first() =~= scores);
    } else {
        assert(scores.push(last).drop_first() =~= scores.drop_first().push(last));
        lemma_lookup_push(scores.drop_first(), last, key);
    }
}

proof fn lemma_lookup_untouched(scores: Seq<Score>, group: Seq<Seq<char>>, key: Seq<char>)
    requires
        !consumed(group, key),
    ensures
        lookup(untouched(scores, group), key) == lookup(scores, key),
    decreases scores.len(),
{
    if scores.len() > 0 {
        let front = scores.drop_last();
        lemma_lookup_untouched(front, group, key);
        assert(scores =~= front.push(scores.last()));
        lemma_lookup_push(front, scores.last(), key);
        if !consumed(group, scores.last().key) {
            lemma_lookup_push(untouched(front, group), scores.last(), key);
        }
    }
}

/// What applying an OR-group does to the verdicts: the group's name holds
/// the combined verdict, which passes exactly if a member passed; the
/// members themselves have no verdict any more; every other key keeps its
/// verdict.
pub proof fn lemma_merged_verdicts(scores: Seq<Score>, group: Seq<Seq<char>>, key: Seq<char>)
    ensures
        lookup(merged(scores, group), group_name(group)) == Some(group_passes(scores, group)),
        consumed(group, key) && key != group_name(group) ==> lookup(merged(scores, group), key)
            is None,
        !consumed(group, key) ==> lookup(merged(scores, group), key) == lookup(scores, key),
{
    let name = group_name(group);
    let combined = Score { key: name, passed: group_passes(scores, group) };
    lemma_untouched_has_no_consumed(scores, group, name);
    lemma_lookup_push(untouched(scores, group), combined, name);
    lemma_lookup_push(untouched(scores, group), combined, key);
    if consumed(group, key) {
        lemma_untouched_has_no_consumed(scores, group, key);
    } else {
        lemma_lookup_untouched(scores, group, key);
    }
}

/// An OR-group of two scored keys can be applied, is recorded under the
/// two keys joined by a bar, and fails exactly if both keys failed: it
/// passes as soon as one of them passes.
pub proof fn lemma_pair_passes_if_either(scores: Seq<Score>, a: Seq<char>, b: Seq<char>)
    requires
        lookup(scores, a) is Some,
        lookup(scores, b) is Some,
    ensures
        group_known(scores, seq![a, b]),
        group_name(seq![a, b]) == a + "|"@ + b,
        lookup(merged(scores, seq![a, b]), a + "|"@ + b) == Some(
            lookup(scores, a)->0 || lookup(scores, b)->0,
        ),
{
    let group = seq![a, b];
    assert(group[0] == a && group[1] == b);
    assert(group.drop_last() =~= seq![a]);
    assert(joined(seq![a], "|"@) == a);
    assert(group_name(group) == a + "|"@ + b);
    lemma_merged_verdicts(scores, group, a);
    if lookup(scores, a) == Some(true) {
        assert(lookup(scores, group[0]) == Some(true));
    }
    if lookup(scores, b) == Some(true) {
        assert(lookup(scores, group[1]) == Some(true));
    }
}

/// Whether no two verdicts share a key.
pub open spec fn distinct_keys(scores: Seq<Score>) -> bool
    decreases scores.len(),
{
    scores.len() == 0 || (distinct_keys(scores.drop_last()) && lookup(
        scores.drop_last(),
        scores.last().key,
    ) is None)
}

/// Whether a text holds no bar.
pub open spec fn bar_free(s: Seq<char>) -> bool {
    forall|i: int| 0 <= i < s.len() ==> #[trigger] s[i] != '|'
}

/// Whether some group names `key` as a member.
pub open spec fn grouped(groups: Seq<Seq<Seq<char>>>, key: Seq<char>) -> bool {
    exists|i: int| 0 <= i < groups.len() && (#[trigger] groups[i]).contains(key)
}

/// Whether `key` is the name of a group none of whose members passed.
pub open spec fn failed_group(
    scores: Seq<Score>,
    groups: Seq<Seq<Seq<char>>>,
    key: Seq<char>,
) -> bool {
    exists|i: int|
        0 <= i < groups.len() && key == group_name(#[trigger] groups[i]) && !group_passes(
            scores,
            groups[i],
        )
}

/// The keys that flat groups leave reported: each key outside every group
/// whose verdict did not pass, and the name of each group none of whose
/// members passed.
pub open spec fn flat_reasons(scores: Seq<Score>, groups: Seq<Seq<Seq<char>>>) -> Set<Seq<char>> {
    Set::new(
        |key: Seq<char>|
            (lookup(scores, key) == Some(false) && !grouped(groups, key)) || failed_group(
                scores,
                groups,
                key,
            ),
    )
}

/// Whether the groups are flat over the verdicts: each has members, each
/// member is the key of a verdict, and no key is a member of two groups.
pub open spec fn flat_groups(scores: Seq<Score>, groups: Seq<Seq<Seq<char>>>) -> bool {
    &&& forall|i: int| 0 <= i < groups.len() ==> group_known(scores, #[trigger] groups[i])
    &&& forall|i: int, j: int, k: Seq<char>|
        #![trigger groups[i].contains(k), groups[j].contains(k)]
        0 <= i < groups.len() && 0 <= j < groups.len() && i != j ==> !(groups[i].contains(k)
            && groups[j].contains(k))
}

/// Whether the names of the groups keep apart: no name is a member or the
/// name of another group, and a name that is the key of a verdict is a
/// member of its own group.
spec fn names_apart(scores: Seq<Score>, groups: Seq<Seq<Seq<char>>>) -> bool {
    &&& forall|i: int, j: int|
        #![trigger groups[i], groups[j]]
        0 <= i < groups.len() && 0 <= j < groups.len() && i != j ==> !groups[j].contains(
            group_name(groups[i]),
        ) && group_name(groups[i]) != group_name(groups[j])
    &&& forall|i: int|
        0 <= i < groups.len() && lookup(scores, group_name(#[trigger] groups[i])) is Some
            ==> groups[i].contains(group_name(groups[i]))
}

/// Whether `k` is the name of one of the first `at` groups.
spec fn named_before(groups: Seq<Seq<Seq<char>>>, at: int, k: Seq<char>) -> bool {
    exists|j: int| 0 <= j < at && k == group_name(#[trigger] groups[j])
}

/// Whether `k` is a member of one of the first `at` groups.
spec fn grouped_before(groups: Seq<Seq<Seq<char>>>, at: int, k: Seq<char>) -> bool {
    exists|j: int| 0 <= j < at && (#[trigger] groups[j]).contains(k)
}

/// The verdict under `k` once the first `at` flat groups are applied.
spec fn expected(scores: Seq<Score>, groups: Seq<Seq<Seq<char>>>, at: int, k: Seq<char>) -> Option<
    bool,
> {
    if named_before(groups, at, k) {
        let j = choose|j: int| 0 <= j < at && k == group_name(#[trigger] groups[j]);
        Some(group_passes(scores, groups[j]))
    } else if grouped_before(groups, at, k) {
        None
    } else {
        lookup(scores, k)
    }
}

/// Whether `cur` is what the first `at` flat groups make of `scores`.
spec fn settled(
    scores: Seq<Score>,
    groups: Seq<Seq<Seq<char>>>,
    at: int,
    cur: Seq<Score>,
) -> bool {
    &&& distinct_keys(cur)
    &&& forall|k: Seq<char>| #[trigger] lookup(cur, k) == expected(scores, groups, at, k)
}

proof fn lemma_untouched_distinct(scores: Seq<Score>, group: Seq<Seq<char>>)
    requires
        distinct_keys(scores),
    ensures
        distinct_keys(untouched(scores, group)),
    decreases scores.len(),
{
    if scores.len() > 0 {
        let front = scores.drop_last();
        let last = scores.last();
        lemma_untouched_distinct(front, group);
        if !consumed(group, last.key) {
            lemma_lookup_untouched(front, group, last.key);
            assert(untouched(front, group).push(last).drop_last() =~= untouched(front, group));
        }
    }
}

proof fn lemma_merged_distinct(scores: Seq<Score>, group: Seq<Seq<char>>)
    requires
        distinct_keys(scores),
    ensures
        distinct_keys(merged(scores, group)),
{
    let rest = untouched(scores, group);
    lemma_untouched_distinct(scores, group);
    lemma_untouched_has_no_consumed(scores, group, group_name(group));
    assert(merged(scores, group).drop_last() =~= rest);
}

proof fn lemma_failed_keys_distinct(scores: Seq<Score>)
    requires
        distinct_keys(scores),
    ensures
        failed_keys(scores).no_duplicates(),
        forall|k: Seq<char>| #[trigger]
            failed_keys(scores).contains(k) <==> lookup(scores, k) == Some(false),
    decreases scores.len(),
{
    if scores.len() > 0 {
        let front = scores.drop_last();
        let last = scores.last();
        let before = failed_keys(front);
        lemma_failed_keys_distinct(front);
        assert(scores =~= front.push(last));
        assert forall|k: Seq<char>| #[trigger]
            failed_keys(scores).contains(k) <==> lookup(scores, k) == Some(false) by {
            lemma_lookup_push(front, last, k);
            assert(before.contains(k) <==> lookup(front, k) == Some(false));
            if !last.passed {
                let grown = before.push(last.key);
                assert(grown[before.len() as int] == last.key);
                if before.contains(k) {
                    let i = choose|i: int| 0 <= i < before.len() && before[i] == k;
                    assert(grown[i] == k);
                }
                if grown.contains(k) {
                    let i = choose|i: int| 0 <= i < grown.len() && grown[i] == k;
                    if i < before.len() {
                        assert(before[i] == k);
                    }
                }
            }
        }
        if !last.passed {
            assert(!before.contains(last.key));
            let grown = before.push(last.key);
            assert forall|i: int, j: int| 0 <= i < grown.len() && 0 <= j < grown.len() && i != j
                implies grown[i] != grown[j] by {
                if i < before.len() && j < before.len() {
                } else if i < before.len() {
                    assert(before.contains(before[i]));
                } else {
                    assert(before.contains(before[j]));
                }
            }
        }
    }
}

proof fn lemma_reduce_flat(
    scores: Seq<Score>,
    groups: Seq<Seq<Seq<char>>>,
    at: int,
    cur: Seq<Score>,
)
    requires
        0 <= at <= groups.len(),
        flat_groups(scores, groups),
        names_apart(scores, groups),
        settled(scores, groups, at, cur),
    ensures
        reduced(cur, groups, at) matches Ok(fin) && settled(scores, groups, groups.len() as int, fin),
    decreases groups.len() - at,
{
    if at < groups.len() {
        let g = groups[at];
        assert(group_known(scores, g));
        assert forall|j: int| 0 <= j < g.len() implies lookup(cur, #[trigger] g[j]) == lookup(
            scores,
            g[j],
        ) by {
            let m = g[j];
            assert(g.contains(m));
            assert(lookup(cur, m) == expected(scores, groups, at, m));
            if named_before(groups, at, m) {
                let i = choose|i: int| 0 <= i < at && m == group_name(#[trigger] groups[i]);
                assert(groups[at].contains(group_name(groups[i])));
            }
            if grouped_before(groups, at, m) {
                let i = choose|i: int| 0 <= i < at && (#[trigger] groups[i]).contains(m);
                assert(groups[at].contains(m));
            }
        }
        assert(group_known(cur, g));
        assert(group_passes(cur, g) == group_passes(scores, g)) by {
            if group_passes(cur, g) {
                let j = choose|j: int|
                    0 <= j < g.len() && lookup(cur, #[trigger] g[j]) == Some(true);
                assert(lookup(scores, g[j]) == Some(true));
            }
            if group_passes(scores, g) {
                let j = choose|j: int|
                    0 <= j < g.len() && lookup(scores, #[trigger] g[j]) == Some(true);
                assert(lookup(cur, g[j]) == Some(true));
            }
        }
        let next = merged(cur, g);
        lemma_merged_distinct(cur, g);
        assert forall|k: Seq<char>| #[trigger]
            lookup(next, k) == expected(scores, groups, at + 1, k) by {
            lemma_merged_verdicts(cur, g, k);
            assert(lookup(cur, k) == expected(scores, groups, at, k));
            if k == group_name(g) {
                assert(k == group_name(groups[at]));
                assert(named_before(groups, at + 1, k));
                let j = choose|j: int| 0 <= j < at + 1 && k == group_name(#[trigger] groups[j]);
                assert(j == at);
            } else if g.contains(k) {
                if named_before(groups, at + 1, k) {
                    let j = choose|j: int|
                        0 <= j < at + 1 && k == group_name(#[trigger] groups[j]);
                    assert(groups[at].contains(group_name(groups[j])));
                }
                assert(groups[at].contains(k));
                assert(grouped_before(groups, at + 1, k));
            } else {
                if named_before(groups, at + 1, k) {
                    let j = choose|j: int|
                        0 <= j < at + 1 && k == group_name(#[trigger] groups[j]);
                    assert(j < at);
                    assert(named_before(groups, at, k));
                    let i = choose|i: int| 0 <= i < at && k == group_name(#[trigger] groups[i]);
                    assert(i == j);
                }
                if named_before(groups, at, k) {
                    let i = choose|i: int| 0 <= i < at && k == group_name(#[trigger] groups[i]);
                    assert(named_before(groups, at + 1, k));
                }
                if grouped_before(groups, at + 1, k) {
                    let j = choose|j: int| 0 <= j < at + 1 && (#[trigger] groups[j]).contains(k);
                    assert(j < at);
                }
                if grouped_before(groups, at, k) {
                    let j = choose|j: int| 0 <= j < at && (#[trigger] groups[j]).contains(k);
                    assert(grouped_before(groups, at + 1, k));
                }
            }
        }
        lemma_reduce_flat(scores, groups, at + 1, next);
    }
}

/// What flat groups whose names keep apart make of verdicts with distinct
/// keys.
proof fn lemma_flat_groups(scores: Seq<Score>, groups: Seq<Seq<Seq<char>>>, key: Seq<char>)
    requires
        distinct_keys(scores),
        flat_groups(scores, groups),
        names_apart(scores, groups),
    ensures
        reduced(scores, groups, 0) matches Ok(fin) && failed_keys(fin).no_duplicates() && (
        failed_keys(fin).contains(key) <==> (lookup(scores, key) == Some(false) && !grouped(
            groups,
            key,
        )) || failed_group(scores, groups, key)),
{
    assert forall|k: Seq<char>| #[trigger] lookup(scores, k) == expected(scores, groups, 0, k) by {
    }
    lemma_reduce_flat(scores, groups, 0, scores);
    let fin = reduced(scores, groups, 0)->Ok_0;
    let n = groups.len() as int;
    lemma_failed_keys_distinct(fin);
    assert(lookup(fin, key) == expected(scores, groups, n, key));
    if named_before(groups, n, key) {
        let j = choose|j: int| 0 <= j < n && key == group_name(#[trigger] groups[j]);
        if failed_group(scores, groups, key) {
            let i = choose|i: int|
                0 <= i < groups.len() && key == group_name(#[trigger] groups[i]) && !group_passes(
                    scores,
                    groups[i],
                );
            assert(i == j);
        }
        if lookup(scores, key) is Some {
            assert(groups[j].contains(key));
        }
    } else {
        if failed_group(scores, groups, key) {
            let i = choose|i: int|
                0 <= i < groups.len() && key == group_name(#[trigger] groups[i]) && !group_passes(
                    scores,
                    groups[i],
                );
            assert(named_before(groups, n, key));
        }
        if grouped(groups, key) {
            let i = choose|i: int| 0 <= i < groups.len() && (#[trigger] groups[i]).contains(key);
            assert(grouped_before(groups, n, key));
        }
        if grouped_before(groups, n, key) {
            let i = choose|i: int| 0 <= i < n && (#[trigger] groups[i]).contains(key);
            assert(grouped(groups, key));
        }
    }
}

proof fn lemma_name_head(g: Seq<Seq<char>>)
    requires
        g.len() > 0,
        bar_free(g[0]),
    ensures
        group_name(g).len() >= g[0].len(),
        group_name(g).take(g[0].len() as int) == g[0],
        g.len() == 1 ==> group_name(g) == g[0],
        g.len() > 1 ==> group_name(g).len() > g[0].len() && group_name(g)[g[0].len() as int] == '|',
    decreases g.len(),
{
    reveal_strlit("|");
    let a = g[0];
    let n = group_name(g);
    if g.len() == 1 {
        assert(n.take(a.len() as int) =~= a);
    } else {
        let front = g.drop_last();
        assert(front[0] == a);
        lemma_name_head(front);
        let h = group_name(front);
        assert(n == h + "|"@ + g.last());
        if front.len() == 1 {
            assert(n[a.len() as int] == "|"@[0]);
        } else {
            assert(n[a.len() as int] == h[a.len() as int]);
        }
        assert(n.take(a.len() as int) =~= h.take(a.len() as int));
    }
}

proof fn lemma_names_differ(g: Seq<Seq<char>>, h: Seq<Seq<char>>)
    requires
        g.len() > 0,
        h.len() > 0,
        bar_free(g[0]),
        bar_free(h[0]),
        g[0] != h[0],
    ensures
        group_name(g) != group_name(h),
{
    lemma_name_head(g);
    lemma_name_head(h);
    let n = group_name(g);
    if n == group_name(h) {
        let a = g[0];
        let b = h[0];
        if a.len() == b.len() {
            assert(a == b);
        } else if a.len() < b.len() {
            assert(b[a.len() as int] == n.take(b.len() as int)[a.len() as int]);
            assert(g.len() > 1);
        } else {
            assert(a[b.len() as int] == n.take(a.len() as int)[b.len() as int]);
            assert(h.len() > 1);
        }
    }
}

proof fn lemma_names_apart(scores: Seq<Score>, groups: Seq<Seq<Seq<char>>>)
    requires
        flat_groups(scores, groups),
        forall|k: Seq<char>| lookup(scores, k) is Some ==> bar_free(k),
    ensures
        names_apart(scores, groups),
{
    assert forall|i: int| 0 <= i < groups.len() implies bar_free((#[trigger] groups[i])[0])
        && groups[i].len() > 0 && groups[i].contains(groups[i][0]) by {
        assert(group_known(scores, groups[i]));
        assert(lookup(scores, groups[i][0]) is Some);
    }
    assert forall|i: int, j: int|
        #![trigger groups[i], groups[j]]
        0 <= i < groups.len() && 0 <= j < groups.len() && i != j implies !groups[j].contains(
        group_name(groups[i]),
    ) && group_name(groups[i]) != group_name(groups[j]) by {
        let g = groups[i];
        let h = groups[j];
        let n = group_name(g);
        lemma_name_head(g);
        assert(g.contains(g[0]));
        assert(h.contains(h[0]));
        if h.contains(n) {
            let m = choose|m: int| 0 <= m < h.len() && h[m] == n;
            assert(group_known(scores, h));
            assert(lookup(scores, h[m]) is Some);
            assert(bar_free(n));
            assert(g.len() == 1);
            assert(g.contains(n));
        }
        if g[0] == h[0] {
            assert(groups[i].contains(g[0]) && groups[j].contains(g[0]));
        }
        lemma_names_differ(g, h);
    }
    assert forall|i: int|
        0 <= i < groups.len() && lookup(scores, group_name(#[trigger] groups[i])) is Some implies groups[i].contains(
        group_name(groups[i]),
    ) by {
        let g = groups[i];
        lemma_name_head(g);
        assert(bar_free(group_name(g)));
        assert(g.len() == 1);
        assert(g.contains(g[0]));
    }
}

proof fn lemma_distinct_by_keys(scores: Seq<Score>)
    requires
        keys_of(scores).no_duplicates(),
    ensures
        distinct_keys(scores),
    decreases scores.len(),
{
    if scores.len() > 0 {
        let keys = keys_of(scores);
        let front = scores.drop_last();
        assert(keys_of(front) =~= keys.drop_last());
        lemma_distinct_by_keys(front);
        lemma_lookup_known(front, scores.last().key);
        if keys_of(front).contains(scores.last().key) {
            let i = choose|i: int| 0 <= i < keys_of(front).len() && keys_of(front)[i] == scores.last().key;
            assert(keys[i] == keys[keys.len() - 1]);
        }
    }
}

/// The keys of the statistics differ from one another, and none holds a
/// bar.
#[verifier::rlimit(60)]
proof fn lemma_stat_keys()
    ensures
        keys_of(blank_scores()).no_duplicates(),
        forall|i: int|
            0 <= i < keys_of(blank_scores()).len() ==> bar_free(#[trigger] keys_of(blank_scores())[i]),
{
    let keys = keys_of(blank_scores());
    reveal_strlit("model_min_year");
    reveal_strlit("model_max_year");
    reveal_strlit("drivability");
    reveal_strlit("sportiness");
    reveal_strlit("reliability");
    reveal_strlit("safety");
    reveal_strlit("practicality");
    reveal_strlit("comfort");
    reveal_strlit("prestige");
    reveal_strlit("offroad");
    reveal_strlit("cost");
    reveal_strlit("service_cost");
    reveal_strlit("fuel_economy");
    assert(keys.len() == 13);
    assert(keys[0] == "model_min_year"@);
    assert(keys[1] == "model_max_year"@);
    assert(keys[2] == "drivability"@);
    assert(keys[3] == "sportiness"@);
    assert(keys[4] == "reliability"@);
    assert(keys[5] == "safety"@);
    assert(keys[6] == "practicality"@);
    assert(keys[7] == "comfort"@);
    assert(keys[8] == "prestige"@);
    assert(keys[9] == "offroad"@);
    assert(keys[10] == "cost"@);
    assert(keys[11] == "service_cost"@);
    assert(keys[12] == "fuel_economy"@);
    assert(bar_free("model_min_year"@));
    assert(bar_free("model_max_year"@));
    assert(bar_free("drivability"@));
    assert(bar_free("sportiness"@));
    assert(bar_free("reliability"@));
    assert(bar_free("safety"@));
    assert(bar_free("practicality"@));
    assert(bar_free("comfort"@));
    assert(bar_free("prestige"@));
    assert(bar_free("offroad"@));
    assert(bar_free("cost"@));
    assert(bar_free("service_cost"@));
    assert(bar_free("fuel_economy"@));
    assert("model_min_year"@[7] != "model_max_year"@[7]);
    assert("drivability"@[0] != "reliability"@[0]);
    assert("practicality"@[0] != "service_cost"@[0]);
    assert("practicality"@[0] != "fuel_economy"@[0]);
    assert("service_cost"@[0] != "fuel_economy"@[0]);
    assert("comfort"@[0] != "offroad"@[0]);
}

proof fn lemma_same_groups(
    scores: Seq<Score>,
    x: Seq<Seq<Seq<char>>>,
    y: Seq<Seq<Seq<char>>>,
    key: Seq<char>,
)
    requires
        x.to_set() == y.to_set(),
    ensures
        grouped(x, key) ==> grouped(y, key),
        failed_group(scores, x, key) ==> failed_group(scores, y, key),
{
    assert forall|i: int| 0 <= i < x.len() implies exists|j: int|
        0 <= j < y.len() && y[j] == #[trigger] x[i] by {
        assert(x.to_set().contains(x[i]));
        assert(y.contains(x[i]));
    }
    if grouped(x, key) {
        let i = choose|i: int| 0 <= i < x.len() && (#[trigger] x[i]).contains(key);
        let j = choose|j: int| 0 <= j < y.len() && y[j] == x[i];
        assert(y[j].contains(key));
    }
    if failed_group(scores, x, key) {
        let i = choose|i: int|
            0 <= i < x.len() && key == group_name(#[trigger] x[i]) && !group_passes(scores, x[i]);
        let j = choose|j: int| 0 <= j < y.len() && y[j] == x[i];
        assert(key == group_name(y[j]) && !group_passes(scores, y[j]));
    }
}

proof fn lemma_same_scores(
    a: Seq<Score>,
    b: Seq<Score>,
    groups: Seq<Seq<Seq<char>>>,
    key: Seq<char>,
)
    requires
        forall|k: Seq<char>| lookup(a, k) == lookup(b, k),
    ensures
        failed_group(a, groups, key) ==> failed_group(b, groups, key),
{
    if failed_group(a, groups, key) {
        let i = choose|i: int|
            0 <= i < groups.len() && key == group_name(#[trigger] groups[i]) && !group_passes(
                a,
                groups[i],
            );
        let g = groups[i];
        if group_passes(b, g) {
            let j = choose|j: int| 0 <= j < g.len() && lookup(b, #[trigger] g[j]) == Some(true);
            assert(lookup(a, g[j]) == Some(true));
        }
    }
}

/// The set of keys reported does not depend on the order in which the
/// verdicts were scored, nor on the order in which flat OR-groups are
/// declared. Two lists that record the same verdict under every key, each
/// key once and none holding a bar, and two lists of the same flat groups,
/// give the same set.
pub proof fn lemma_order_is_immaterial(
    a: Seq<Score>,
    b: Seq<Score>,
    x: Seq<Seq<Seq<char>>>,
    y: Seq<Seq<Seq<char>>>,
)
    requires
        distinct_keys(a),
        distinct_keys(b),
        forall|k: Seq<char>| lookup(a, k) == lookup(b, k),
        forall|k: Seq<char>| lookup(a, k) is Some ==> bar_free(k),
        flat_groups(a, x),
        flat_groups(a, y),
        x.to_set() == y.to_set(),
    ensures
        reduced(a, x, 0) matches Ok(p) && reduced(b, y, 0) matches Ok(q) && failed_keys(p).to_set()
            == failed_keys(q).to_set(),
{
    assert forall|i: int| 0 <= i < y.len() implies group_known(b, #[trigger] y[i]) by {
        let g = y[i];
        assert(group_known(a, g));
        assert forall|j: int| 0 <= j < g.len() implies lookup(b, #[trigger] g[j]) is Some by {
            assert(lookup(a, g[j]) is Some);
        }
    }
    assert forall|k: Seq<char>| lookup(b, k) is Some implies bar_free(k) by {
        assert(lookup(a, k) == lookup(b, k));
    }
    lemma_names_apart(a, x);
    lemma_names_apart(b, y);
    lemma_flat_groups(a, x, group_name(Seq::empty()));
    lemma_flat_groups(b, y, group_name(Seq::empty()));
    let p = reduced(a, x, 0)->Ok_0;
    let q = reduced(b, y, 0)->Ok_0;
    assert forall|k: Seq<char>| failed_keys(p).to_set().contains(k) == failed_keys(
        q,
    ).to_set().contains(k) by {
        lemma_flat_groups(a, x, k);
        lemma_flat_groups(b, y, k);
        lemma_same_groups(a, x, y, k);
        lemma_same_groups(a, y, x, k);
        lemma_same_scores(a, b, y, k);
        lemma_same_scores(b, a, y, k);
        assert(lookup(a, k) == lookup(b, k));
    }
    assert(failed_keys(p).to_set() =~= failed_keys(q).to_set());
}

proof fn lemma_lookup_skip(scores: Seq<Score>, key: Seq<char>, i: int)
    requires
        0 <= i <= scores.len(),
        forall|k: int| 0 <= k < i ==> (#[trigger] scores[k]).key != key,
    ensures
        lookup(scores, key) == lookup(scores.skip(i), key),
    decreases i,
{
    if i == 0 {
        assert(scores.skip(0) =~= scores);
    } else {
        assert(scores[0].key != key);
        lemma_lookup_skip(scores.drop_first(), key, i - 1);
        assert forall|k: int| 0 <= k < i - 1 implies (#[trigger] scores.drop_first()[k]).key
            != key by {
            assert(scores.drop_first()[k] == scores[k + 1]);
        }
        assert(scores.drop_first().skip(i - 1) =~= scores.skip(i));
    }
}

/// The verdict recorded under `key`, if there is one.
pub fn find(verdicts: &Vec<Verdict>, key: &str) -> (r: Option<bool>)
    ensures
        r == lookup(scores_of(verdicts@), key@),
{
    let ghost scores = scores_of(verdicts@);
    let mut i: usize = 0;
    while i < verdicts.len()
        invariant
            i <= verdicts.len(),
            scores == scores_of(verdicts@),
            forall|k: int| 0 <= k < i ==> (#[trigger] scores[k]).key != key@,
        decreases verdicts.len() - i,
    {
        if same_text(verdicts[i].key.as_str(), key) {
            proof {
                lemma_lookup_skip(scores, key@, i as int);
                assert(scores.skip(i as int)[0] == scores[i as int]);
            }
            return Some(verdicts[i].passed);
        }
        i += 1;
    }
    proof {
        lemma_lookup_skip(scores, key@, verdicts.len() as int);
    }
    None
}

/// Whether `key` is one of `names`.
pub fn is_listed(names: &Vec<String>, key: &str) -> (r: bool)
    ensures
        r == texts(names@).contains(key@),
{
    let mut i: usize = 0;
    while i < names.len()
        invariant
            i <= names.len(),
            forall|k: int| 0 <= k < i ==> texts(names@)[k] != key@,
        decreases names.len() - i,
    {
        if same_text(names[i].as_str(), key) {
            assert(texts(names@)[i as int] == key@);
            return true;
        }
        i += 1;
    }
    false
}

/// Applies one OR-group to the verdicts. `None`, with nothing computed,
/// when the group is empty or names a key without a verdict.
pub fn merge(verdicts: &Vec<Verdict>, group: &Vec<String>) -> (r: Option<Vec<Verdict>>)
    ensures
        r is Some <==> group_known(scores_of(verdicts@), texts(group@)),
        r matches Some(v) ==> scores_of(v@) == merged(scores_of(verdicts@), texts(group@)),
{
    let ghost scores = scores_of(verdicts@);
    let ghost members = texts(group@);
    if group.len() == 0 {
        return None;
    }
    let mut passes = false;
    let mut j: usize = 0;
    while j < group.len()
        invariant
            j <= group.len(),
            scores == scores_of(verdicts@),
            members == texts(group@),
            forall|k: int| 0 <= k < j ==> lookup(scores, #[trigger] members[k]) is Some,
            passes <==> exists|k: int|
                0 <= k < j && lookup(scores, #[trigger] members[k]) == Some(true),
        decreases group.len() - j,
    {
        match find(verdicts, group[j].as_str()) {
            None => {
                assert(lookup(scores, members[j as int]) is None);
                return None;
            },
            Some(p) => {
                assert(lookup(scores, members[j as int]) == Some(p));
                passes = passes || p;
            },
        }
        j += 1;
    }
    let name = join(group, "|");
    let mut out: Vec<Verdict> = Vec::new();
    let mut i: usize = 0;
    assert(scores.take(0) =~= Seq::<Score>::empty());
    assert(scores_of(out@) =~= Seq::<Score>::empty());
    while i < verdicts.len()
        invariant
            i <= verdicts.len(),
            scores == scores_of(verdicts@),
            members == texts(group@),
            name@ == group_name(members),
            scores_of(out@) == untouched(scores.take(i as int), members),
        decreases verdicts.len() - i,
    {
        let ghost before = out@;
        let v = &verdicts[i];
        proof {
            let next = scores.take(i + 1);
            assert(next.drop_last() =~= scores.take(i as int));
            assert(next.last() == verdicts@[i as int]@);
        }
        if !(is_listed(group, v.key.as_str()) || same_text(v.key.as_str(), name.as_str())) {
            out.push(Verdict { key: v.key.clone(), passed: v.passed });
            assert(scores_of(out@) =~= scores_of(before).push(verdicts@[i as int]@));
        }
        i += 1;
    }
    assert(scores.take(verdicts.len() as int) =~= scores);
    let ghost before = out@;
    out.push(Verdict { key: name, passed: passes });
    assert(scores_of(out@) =~= scores_of(before).push(
        Score { key: group_name(members), passed: group_passes(scores, members) },
    ));
    Some(out)
}

/// Applies the OR-groups in order. Fails with the position of the first
/// group that is empty or names a key without a verdict at its turn.
pub fn reduce(verdicts: Vec<Verdict>, groups: &Vec<Vec<String>>) -> (r: Result<Vec<Verdict>, usize>)
    ensures
        match reduced(scores_of(verdicts@), groups_of(groups@), 0) {
            Ok(scores) => r matches Ok(v) && scores_of(v@) == scores,
            Err(at) => r matches Err(k) && k == at,
        },
{
    let ghost start = scores_of(verdicts@);
    let ghost all = groups_of(groups@);
    let mut current = verdicts;
    let mut i: usize = 0;
    while i < groups.len()
        invariant
            i <= groups.len(),
            start == scores_of(verdicts@),
            all == groups_of(groups@),
            reduced(start, all, 0) == reduced(scores_of(current@), all, i as int),
        decreases groups.len() - i,
    {
        let ghost before = scores_of(current@);
        assert(all[i as int] == texts(groups@[i as int]@));
        match merge(&current, &groups[i]) {
            None => {
                assert(reduced(before, all, i as int) == Err::<Seq<Score>, int>(i as int));
                return Err(i);
            },
            Some(next) => {
                assert(reduced(before, all, i as int) == reduced(
                    scores_of(next@),
                    all,
                    i + 1,
                ));
                current = next;
            },
        }
        i += 1;
    }
    Ok(current)
}

/// The keys of the verdicts that did not pass, in order.
pub fn failed(verdicts: &Vec<Verdict>) -> (r: Vec<String>)
    ensures
        texts(r@) == failed_keys(scores_of(verdicts@)),
{
    let ghost scores = scores_of(verdicts@);
    let mut out: Vec<String> = Vec::new();
    let mut i: usize = 0;
    assert(scores.take(0) =~= Seq::<Score>::empty());
    assert(texts(out@) =~= Seq::<Seq<char>>::empty());
    while i < verdicts.len()
        invariant
            i <= verdicts.len(),
            scores == scores_of(verdicts@),
            texts(out@) == failed_keys(scores.take(i as int)),
        decreases verdicts.len() - i,
    {
        let ghost before = out@;
        proof {
            let next = scores.take(i + 1);
            assert(next.drop_last() =~= scores.take(i as int));
            assert(next.last() == verdicts@[i as int]@);
        }
        if !verdicts[i].passed {
            out.push(verdicts[i].key.clone());
            assert(texts(out@) =~= texts(before).push(verdicts@[i as int].key@));
        }
        i += 1;
    }
    assert(scores.take(verdicts.len() as int) =~= scores);
    out
}

/// Adds a verdict under a fixed key.
fn push_verdict(v: &mut Vec<Verdict>, key: &str, passed: bool)
    ensures
        scores_of(final(v)@) == scores_of(old(v)@).push(Score { key: key@, passed }),
{
    v.push(Verdict { key: String::from_str(key), passed });
    assert(scores_of(v@) =~= scores_of(old(v)@).push(Score { key: key@, passed }));
}

/// One passing verdict for each statistic.
pub fn blank_verdicts() -> (v: Vec<Verdict>)
    ensures
        scores_of(v@) == blank_scores(),
{
    let mut v: Vec<Verdict> = Vec::new();
    assert(scores_of(v@) =~= Seq::<Score>::empty());
    push_verdict(&mut v, "model_min_year", true);
    push_verdict(&mut v, "model_max_year", true);
    push_verdict(&mut v, "drivability", true);
    push_verdict(&mut v, "sportiness", true);
    push_verdict(&mut v, "reliability", true);
    push_verdict(&mut v, "safety", true);
    push_verdict(&mut v, "practicality", true);
    push_verdict(&mut v, "comfort", true);
    push_verdict(&mut v, "prestige", true);
    push_verdict(&mut v, "offroad", true);
    push_verdict(&mut v, "cost", true);
    push_verdict(&mut v, "service_cost", true);
    push_verdict(&mut v, "fuel_economy", true);
    v
}

impl Stats {
    /// One verdict for each statistic, in a fixed order: a
    /// rating passes unless it lies below its floor, a cost unless it lies
    /// above its ceiling, the model year unless it lies outside its bounds.
    pub open spec fn scores(&self, car: &Car) -> Seq<Score> {
        Seq::<Score>::empty().push(
            Score {
                key: "model_min_year"@,
                passed: !below(car.model_year as int, self.model_min_year),
            },
        ).push(
            Score {
                key: "model_max_year"@,
                passed: !above(car.model_year as int, self.model_max_year),
            },
        ).push(
            Score {
                key: "drivability"@,
                passed: !falls_short(car.drivability_rating, self.drivability),
            },
        ).push(
            Score {
                key: "sportiness"@,
                passed: !falls_short(car.sportiness_rating, self.sportiness),
            },
        ).push(
            Score {
                key: "reliability"@,
                passed: !falls_short(car.reliability_rating, self.reliability),
            },
        ).push(Score { key: "safety"@, passed: !falls_short(car.safety_rating, self.safety) }).push(
            Score {
                key: "practicality"@,
                passed: !falls_short(car.practicality_rating, self.practicality),
            },
        ).push(
            Score { key: "comfort"@, passed: !falls_short(car.comfort_rating, self.comfort) },
        ).push(
            Score { key: "prestige"@, passed: !falls_short(car.prestige_rating, self.prestige) },
        ).push(
            Score { key: "offroad"@, passed: !falls_short(car.offroad_rating, self.offroad) },
        ).push(Score { key: "cost"@, passed: !exceeds(car.cost, self.cost) }).push(
            Score { key: "service_cost"@, passed: !exceeds(car.service_cost, self.service_cost) },
        ).push(
            Score { key: "fuel_economy"@, passed: !exceeds(car.fuel_economy, self.fuel_economy) },
        )
    }

    /// The statistics are scored under the same keys whatever the record
    /// and the thresholds.
    pub proof fn lemma_scored_keys(&self, car: &Car)
        ensures
            keys_of(self.scores(car)) == keys_of(blank_scores()),
    {
        assert(keys_of(self.scores(car)) =~= keys_of(blank_scores()));
    }

    /// With flat OR-groups the statistics report each key at most once,
    /// and the keys reported are, as a set, the statistics outside every
    /// group that the record fails, and the names of the groups all of
    /// whose members it fails.
    pub proof fn lemma_flat_groups_reasons(&self, car: &Car, rules: &Option<Rules>)
        requires
            flat_groups(self.scores(car), declared_groups(*rules)),
        ensures
            self.verdicts(car, rules) matches Ok(fin) && failed_keys(fin).no_duplicates()
                && failed_keys(fin).to_set() == flat_reasons(
                self.scores(car),
                declared_groups(*rules),
            ),
    {
        let scores = self.scores(car);
        let groups = declared_groups(*rules);
        self.lemma_scored_keys(car);
        lemma_stat_keys();
        lemma_distinct_by_keys(scores);
        assert forall|k: Seq<char>| lookup(scores, k) is Some implies bar_free(k) by {
            lemma_lookup_known(scores, k);
            let i = choose|i: int| 0 <= i < keys_of(scores).len() && keys_of(scores)[i] == k;
            assert(bar_free(keys_of(blank_scores())[i]));
        }
        lemma_names_apart(scores, groups);
        let fin = reduced(scores, groups, 0)->Ok_0;
        assert forall|k: Seq<char>|
            failed_keys(fin).to_set().contains(k) == flat_reasons(scores, groups).contains(k) by {
            lemma_flat_groups(scores, groups, k);
        }
        lemma_flat_groups(scores, groups, group_name(Seq::empty()));
        assert(failed_keys(fin).to_set() =~= flat_reasons(scores, groups));
    }

    /// Two rulebooks that declare the same flat OR-groups, in whatever
    /// order, have the statistics report the same set of keys.
    pub proof fn lemma_group_order_is_immaterial(
        &self,
        car: &Car,
        one: &Option<Rules>,
        other: &Option<Rules>,
    )
        requires
            flat_groups(self.scores(car), declared_groups(*one)),
            flat_groups(self.scores(car), declared_groups(*other)),
            declared_groups(*one).to_set() == declared_groups(*other).to_set(),
        ensures
            self.verdicts(car, one) matches Ok(a) && self.verdicts(car, other) matches Ok(b)
                && failed_keys(a).to_set() == failed_keys(b).to_set(),
    {
        let scores = self.scores(car);
        let x = declared_groups(*one);
        let y = declared_groups(*other);
        self.lemma_flat_groups_reasons(car, one);
        self.lemma_flat_groups_reasons(car, other);
        assert forall|k: Seq<char>| flat_reasons(scores, x).contains(k) implies flat_reasons(
            scores,
            y,
        ).contains(k) by {
            lemma_same_groups(scores, x, y, k);
            lemma_same_groups(scores, y, x, k);
        }
        assert forall|k: Seq<char>| flat_reasons(scores, y).contains(k) implies flat_reasons(
            scores,
            x,
        ).contains(k) by {
            lemma_same_groups(scores, y, x, k);
            lemma_same_groups(scores, x, y, k);
        }
        assert(flat_reasons(scores, x) =~= flat_reasons(scores, y));
    }

    /// Scores every statistic of the record.
    pub fn score(&self, car: &Car) -> (v: Vec<Verdict>)
        ensures
            scores_of(v@) == self.scores(car),
    {
        let mut v: Vec<Verdict> = Vec::new();
        assert(scores_of(v@) =~= Seq::<Score>::empty());
        push_verdict(&mut v, "model_min_year", !is_below(car.model_year, self.model_min_year));
        push_verdict(
            &mut v,
            "model_max_year",
            !is_above(car.model_year as u128, self.model_max_year),
        );
        push_verdict(&mut v, "drivability", !is_under(car.drivability_rating, self.drivability));
        push_verdict(&mut v, "sportiness", !is_under(car.sportiness_rating, self.sportiness));
        push_verdict(&mut v, "reliability", !is_under(car.reliability_rating, self.reliability));
        push_verdict(&mut v, "safety", !is_under(car.safety_rating, self.safety));
        push_verdict(&mut v, "practicality", !is_under(car.practicality_rating, self.practicality));
        push_verdict(&mut v, "comfort", !is_under(car.comfort_rating, self.comfort));
        push_verdict(&mut v, "prestige", !is_under(car.prestige_rating, self.prestige));
        push_verdict(&mut v, "offroad", !is_under(car.offroad_rating, self.offroad));
        push_verdict(&mut v, "cost", !is_over(car.cost, self.cost));
        push_verdict(&mut v, "service_cost", !is_over(car.service_cost, self.service_cost));
        push_verdict(&mut v, "fuel_economy", !is_over(car.fuel_economy, self.fuel_economy));
        v
    }

    /// What the statistics check yields: the verdicts once the OR-groups
    /// are applied, or the position of the group that cannot be.
    pub open spec fn verdicts(&self, car: &Car, rules: &Option<Rules>) -> Result<Seq<Score>, int> {
        reduced(self.scores(car), declared_groups(*rules), 0)
    }

    /// Holds the record against the statistics rules. Every statistic is
    /// scored, the OR-groups are applied in order, and each verdict that
    /// did not pass is reported by its key. A group that cannot be applied
    /// is a fault of the rulebook and is reported as such, with its
    /// position.
    pub fn check_car(&self, car: &Car, rules: &Option<Rules>) -> (r: Result<(), CheckError>)
        ensures
            match self.verdicts(car, rules) {
                Ok(scores) => reports(r, Category::Stats, failed_keys(scores)),
                Err(at) => r matches Err(CheckError::ErrRules(k)) && k == at,
            },
    {
        let scored = self.score(car);
        let settled = match rules {
            Some(Rules { or: Some(groups) }) => {
                match reduce(scored, groups) {
                    Ok(v) => v,
                    Err(at) => {
                        return Err(CheckError::ErrRules(at));
                    },
                }
            },
            _ => scored,
        };
        conclude(Category::Stats, failed(&settled))
    }
}

} // verus!
