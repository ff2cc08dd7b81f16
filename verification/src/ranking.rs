//! Top-k ranking of per-class scores.

use vstd::prelude::*;
use vstd::set_lib::*;
use crate::text::texts;

verus! {

/// How many classes a ranking holds at most.
pub const TOP_K: usize = 5;

/// Class `a` comes before class `b`: its score is higher, or the scores are
/// equal and `a` is the smaller class id.
pub open spec fn outranks(scores: Seq<i32>, a: int, b: int) -> bool {
    scores[a] > scores[b] || (scores[a] == scores[b] && a < b)
}

/// `ids` holds the `k` best classes of `scores`, best first: every entry is
/// a class id, each entry outranks the entries after it, and every entry
/// outranks every class that is left out.
pub open spec fn is_top_ranking(scores: Seq<i32>, k: nat, ids: Seq<int>) -> bool {
    &&& ids.len() == k
    &&& forall|i: int| 0 <= i < k ==> 0 <= #[trigger] ids[i] < scores.len()
    &&& forall|i: int, j: int| 0 <= i < j < k ==> #[trigger] outranks(scores, ids[i], ids[j])
    &&& forall|i: int, c: int|
        0 <= i < k && 0 <= c < scores.len() && !ids.contains(c) ==> #[trigger] outranks(
            scores,
            ids[i],
            c,
        )
}

/// The class ids of a vector of indices, as integers.
pub open spec fn class_ids(v: Seq<usize>) -> Seq<int> {
    Seq::new(v.len(), |i: int| v[i] as int)
}

/// The length of the ranking of `n` classes cut at `limit`.
pub open spec fn ranking_len(limit: nat, n: nat) -> nat {
    if limit <= n {
        limit
    } else {
        n
    }
}

/// Fewer than `n` distinct class ids below `n` leave one of them out.
pub proof fn lemma_unused_class(ids: Seq<int>, n: nat)
    requires
        ids.no_duplicates(),
        ids.len() < n,
        forall|i: int| 0 <= i < ids.len() ==> 0 <= #[trigger] ids[i] < n,
    ensures
        exists|c: int| 0 <= c < n && !ids.contains(c),
{
    if forall|c: int| 0 <= c < n ==> ids.contains(c) {
        let all = set_int_range(0, n as int);
        lemma_int_range(0, n as int);
        vstd::seq_lib::seq_to_set_is_finite(ids);
        assert(all.subset_of(ids.to_set())) by {
            assert forall|c: int| all.contains(c) implies ids.to_set().contains(c) by {
                assert(ids.contains(c));
            }
        }
        lemma_len_subset(all, ids.to_set());
        ids.unique_seq_to_set();
        assert(false);
    }
}

/// The entries of a ranking are pairwise distinct.
pub proof fn lemma_ranking_distinct(scores: Seq<i32>, k: nat, ids: Seq<int>)
    requires
        is_top_ranking(scores, k, ids),
    ensures
        ids.no_duplicates(),
{
    assert forall|i: int, j: int| 0 <= i < ids.len() && 0 <= j < ids.len() && i != j implies ids[i]
        != ids[j] by {
        if i < j {
            assert(outranks(scores, ids[i], ids[j]));
        } else {
            assert(outranks(scores, ids[j], ids[i]));
        }
    }
}

fn comes_before(scores: &Vec<i32>, a: usize, b: usize) -> (r: bool)
    requires
        a < scores.len(),
        b < scores.len(),
    ensures
        r == outranks(scores@, a as int, b as int),
{
    scores[a] > scores[b] || (scores[a] == scores[b] && a < b)
}

/// The best class that is not among `ids` yet.
fn next_best(scores: &Vec<i32>, ids: &Vec<usize>) -> (best: usize)
    requires
        is_top_ranking(scores@, ids@.len(), class_ids(ids@)),
        ids@.len() < scores@.len(),
    ensures
        best < scores@.len(),
        !class_ids(ids@).contains(best as int),
        forall|c: int|
            0 <= c < scores@.len() && !class_ids(ids@).contains(c) && c != best ==> outranks(
                scores@,
                best as int,
                c,
            ),
{
    let ghost chosen = class_ids(ids@);
    let n = scores.len();
    let taken = ids.len();
    let mut found = false;
    let mut best: usize = 0;
    let mut c: usize = 0;
    while c < n
        invariant
            c <= n,
            n == scores@.len(),
            taken == ids@.len(),
            chosen == class_ids(ids@),
            is_top_ranking(scores@, chosen.len(), chosen),
            found ==> best < c && !chosen.contains(best as int),
            found ==> forall|d: int|
                0 <= d < c && !chosen.contains(d) && d != best ==> outranks(scores@, best as int, d),
            !found ==> forall|d: int| 0 <= d < c ==> chosen.contains(d),
        decreases n - c,
    {
        let free = if taken == 0 {
            true
        } else {
            let last = ids[taken - 1];
            assert(chosen[taken - 1] == last as int);
            comes_before(scores, last, c)
        };
        proof {
            if free {
                if chosen.contains(c as int) {
                    let i = choose|i: int| 0 <= i < chosen.len() && chosen[i] == c as int;
                    if i < taken - 1 {
                        assert(outranks(scores@, chosen[i], chosen[taken - 1]));
                    }
                    assert(false);
                }
            } else {
                if !chosen.contains(c as int) {
                    assert(outranks(scores@, chosen[taken - 1], c as int));
                    assert(false);
                }
            }
        }
        if free && (!found || comes_before(scores, c, best)) {
            best = c;
            found = true;
        }
        c += 1;
    }
    proof {
        if !found {
            lemma_ranking_distinct(scores@, chosen.len(), chosen);
            lemma_unused_class(chosen, n as nat);
            assert(false);
        }
    }
    best
}

/// Ranks the classes of `scores` and keeps the best `limit` of them, or all
/// where there are fewer: highest score first, equal scores in ascending
/// order of class id.
pub fn top_ranked(scores: &Vec<i32>, limit: usize) -> (ids: Vec<usize>)
    ensures
        is_top_ranking(
            scores@,
            ranking_len(limit as nat, scores@.len()),
            class_ids(ids@),
        ),
{
    let k = if limit <= scores.len() {
        limit
    } else {
        scores.len()
    };
    let mut ids: Vec<usize> = Vec::new();
    while ids.len() < k
        invariant
            ids@.len() <= k <= scores@.len(),
            is_top_ranking(scores@, ids@.len(), class_ids(ids@)),
        decreases k - ids.len(),
    {
        let best = next_best(scores, &ids);
        let ghost before = class_ids(ids@);
        ids.push(best);
        proof {
            let after = class_ids(ids@);
            assert(after =~= before.push(best as int));
            assert forall|i: int| 0 <= i < before.len() implies outranks(
                scores@,
                before[i],
                best as int,
            ) by {}
            assert forall|i: int, j: int| 0 <= i < j < after.len() implies #[trigger] outranks(
                scores@,
                after[i],
                after[j],
            ) by {
                if j < before.len() {
                    assert(after[i] == before[i] && after[j] == before[j]);
                } else {
                    assert(after[i] == before[i]);
                }
            }
            assert forall|i: int, c: int|
                0 <= i < after.len() && 0 <= c < scores@.len() && !after.contains(c) implies #[trigger] outranks(
                scores@,
                after[i],
                c,
            ) by {
                vstd::seq_lib::lemma_seq_contains_after_push(before, best as int, c);
                if i < before.len() {
                    assert(after[i] == before[i]);
                }
            }
        }
    }
    ids
}

/// Two rankings of the same scores agree on their first `upto` entries.
proof fn lemma_ranking_prefix(scores: Seq<i32>, k: nat, a: Seq<int>, b: Seq<int>, upto: nat)
    requires
        is_top_ranking(scores, k, a),
        is_top_ranking(scores, k, b),
        upto <= k,
    ensures
        forall|i: int| 0 <= i < upto ==> a[i] == b[i],
    decreases upto,
{
    if upto > 0 {
        let i = (upto - 1) as int;
        lemma_ranking_prefix(scores, k, a, b, i as nat);
        lemma_ranking_distinct(scores, k, a);
        lemma_ranking_distinct(scores, k, b);
        if a[i] != b[i] {
            if b.contains(a[i]) {
                let j = choose|j: int| 0 <= j < b.len() && b[j] == a[i];
                assert(j > i);
                assert(outranks(scores, b[i], b[j]));
            } else {
                assert(outranks(scores, b[i], a[i]));
            }
            if a.contains(b[i]) {
                let j = choose|j: int| 0 <= j < a.len() && a[j] == b[i];
                assert(j > i);
                assert(outranks(scores, a[i], a[j]));
            } else {
                assert(outranks(scores, a[i], b[i]));
            }
            assert(false);
        }
    }
}

/// Scores have one ranking of a given length only: what `is_top_ranking`
/// asks for leaves no choice.
pub proof fn lemma_ranking_unique(scores: Seq<i32>, k: nat, a: Seq<int>, b: Seq<int>)
    requires
        is_top_ranking(scores, k, a),
        is_top_ranking(scores, k, b),
    ensures
        a == b,
{
    lemma_ranking_prefix(scores, k, a, b, k);
    assert(a =~= b);
}

/// Down a ranking the scores never rise, and the class ids are pairwise
/// distinct and within the scores.
pub proof fn lemma_ranking_descends(scores: Seq<i32>, k: nat, ids: Seq<int>)
    requires
        is_top_ranking(scores, k, ids),
    ensures
        k <= scores.len(),
        ids.no_duplicates(),
        forall|i: int| 0 <= i < k ==> 0 <= #[trigger] ids[i] < scores.len(),
        forall|i: int, j: int| 0 <= i < j < k ==> scores[#[trigger] ids[i]] >= scores[#[trigger] ids[j]],
{
    lemma_ranking_distinct(scores, k, ids);
    assert forall|i: int, j: int| 0 <= i < j < k implies scores[#[trigger] ids[i]] >= scores[#[trigger] ids[j]] by {
        assert(outranks(scores, ids[i], ids[j]));
    }
    lemma_class_count(ids, scores.len());
}

/// Distinct class ids below `n` are at most `n` in number.
pub proof fn lemma_class_count(ids: Seq<int>, n: nat)
    requires
        ids.no_duplicates(),
        forall|i: int| 0 <= i < ids.len() ==> 0 <= #[trigger] ids[i] < n,
    ensures
        ids.len() <= n,
{
    let all = set_int_range(0, n as int);
    lemma_int_range(0, n as int);
    assert(ids.to_set().subset_of(all)) by {
        assert forall|c: int| ids.to_set().contains(c) implies all.contains(c) by {
            assert(ids.contains(c));
            let i = choose|i: int| 0 <= i < ids.len() && ids[i] == c;
            assert(0 <= ids[i] < n);
        }
    }
    lemma_len_subset(ids.to_set(), all);
    ids.unique_seq_to_set();
}

/// Where no two classes of a ranking have the same score, the scores fall
/// strictly from each entry to the next.
pub proof fn lemma_ranking_strictly_descends(scores: Seq<i32>, k: nat, ids: Seq<int>)
    requires
        is_top_ranking(scores, k, ids),
        forall|i: int, j: int| 0 <= i < j < k ==> scores[#[trigger] ids[i]] != scores[#[trigger] ids[j]],
    ensures
        forall|i: int, j: int| 0 <= i < j < k ==> scores[#[trigger] ids[i]] > scores[#[trigger] ids[j]],
{
    assert forall|i: int, j: int| 0 <= i < j < k implies scores[#[trigger] ids[i]] > scores[#[trigger] ids[j]] by {
        assert(outranks(scores, ids[i], ids[j]));
    }
}

/// One ranked class: its id, its label and its score.
#[derive(Debug)]
pub struct InferenceResult {
    pub class_id: usize,
    pub class_name: String,
    /// Relative confidence, in whole points; higher is more likely.
    pub probability: i32,
}

/// What an `InferenceResult` stands for.
pub struct RankedClass {
    pub class_id: int,
    pub class_name: Seq<char>,
    pub probability: int,
}

impl View for InferenceResult {
    type V = RankedClass;

    open spec fn view(&self) -> RankedClass {
        RankedClass {
            class_id: self.class_id as int,
            class_name: self.class_name@,
            probability: self.probability as int,
        }
    }
}

impl Clone for InferenceResult {
    fn clone(&self) -> (copy: Self)
        ensures
            copy@ == self@,
    {
        InferenceResult {
            class_id: self.class_id,
            class_name: self.class_name.clone(),
            probability: self.probability,
        }
    }
}

/// What a vector of results stands for.
pub open spec fn ranked_classes(results: Seq<InferenceResult>) -> Seq<RankedClass> {
    Seq::new(results.len(), |i: int| results[i]@)
}

/// The class ids of a sequence of ranked classes.
pub open spec fn ids_of(results: Seq<RankedClass>) -> Seq<int> {
    Seq::new(results.len(), |i: int| results[i].class_id)
}

/// How many classes have both a score and a label.
pub open spec fn known_classes(scores: Seq<i32>, labels: Seq<Seq<char>>) -> nat {
    if scores.len() <= labels.len() {
        scores.len()
    } else {
        labels.len()
    }
}

/// `results` is the ranking of the classes that have a score and a label,
/// cut at `TOP_K`, each entry with the label and the score of its class.
pub open spec fn is_ranked_results(
    scores: Seq<i32>,
    labels: Seq<Seq<char>>,
    results: Seq<RankedClass>,
) -> bool {
    let n = known_classes(scores, labels);
    &&& is_top_ranking(scores.take(n as int), ranking_len(TOP_K as nat, n), ids_of(results))
    &&& forall|i: int|
        0 <= i < results.len() ==> {
            let r = #[trigger] results[i];
            r.class_name == labels[r.class_id] && r.probability == scores[r.class_id]
        }
}

/// Ranks the classes by score and attaches to each of the best `TOP_K` the
/// label at the position of its class id.
pub fn rank_results(scores: &Vec<i32>, labels: &Vec<String>) -> (results: Vec<InferenceResult>)
    ensures
        is_ranked_results(scores@, texts(labels@), ranked_classes(results@)),
{
    let n = if scores.len() <= labels.len() {
        scores.len()
    } else {
        labels.len()
    };
    let mut known: Vec<i32> = Vec::new();
    let mut c: usize = 0;
    while c < n
        invariant
            c <= n <= scores.len(),
            known@ == scores@.take(c as int),
        decreases n - c,
    {
        known.push(scores[c]);
        c += 1;
        assert(known@ =~= scores@.take(c as int));
    }
    let ids = top_ranked(&known, TOP_K);
    let mut results: Vec<InferenceResult> = Vec::new();
    let mut i: usize = 0;
    while i < ids.len()
        invariant
            i <= ids.len(),
            n <= scores.len(),
            n <= labels.len(),
            known@ == scores@.take(n as int),
            is_top_ranking(known@, ranking_len(TOP_K as nat, n as nat), class_ids(ids@)),
            results@.len() == i,
            forall|j: int|
                0 <= j < i ==> {
                    let r = #[trigger] results@[j];
                    &&& r.class_id == ids@[j]
                    &&& r.class_name@ == labels@[r.class_id as int]@
                    &&& r.probability == scores@[r.class_id as int]
                },
        decreases ids.len() - i,
    {
        let class_id = ids[i];
        assert(0 <= class_ids(ids@)[i as int] < known@.len());
        results.push(
            InferenceResult {
                class_id,
                class_name: labels[class_id].clone(),
                probability: scores[class_id],
            },
        );
        i += 1;
    }
    proof {
        let ranked = ranked_classes(results@);
        assert(ids_of(ranked) =~= class_ids(ids@));
        assert forall|i: int| 0 <= i < ranked.len() implies {
            let r = #[trigger] ranked[i];
            r.class_name == texts(labels@)[r.class_id] && r.probability == scores@[r.class_id]
        } by {
            assert(ranked[i] == results@[i]@);
            assert(0 <= class_ids(ids@)[i] < known@.len());
        }
    }
    results
}

/// Of the results for as many scores as labels: there are `TOP_K` of them,
/// or one for each label where the labels are fewer; their class ids are
/// pairwise distinct and lie within the labels; their scores never rise, and
/// where no two of them are equal they fall strictly.
pub proof fn lemma_ranked_results_shape(
    scores: Seq<i32>,
    labels: Seq<Seq<char>>,
    results: Seq<RankedClass>,
)
    requires
        scores.len() == labels.len(),
        is_ranked_results(scores, labels, results),
    ensures
        results.len() == ranking_len(TOP_K as nat, labels.len()),
        forall|i: int| 0 <= i < results.len() ==> 0 <= (#[trigger] results[i]).class_id < labels.len(),
        forall|i: int, j: int|
            0 <= i < j < results.len() ==> (#[trigger] results[i]).class_id != (
            #[trigger] results[j]).class_id,
        forall|i: int, j: int|
            0 <= i < j < results.len() ==> (#[trigger] results[i]).probability >= (
            #[trigger] results[j]).probability,
        (forall|i: int, j: int|
            0 <= i < j < results.len() ==> (#[trigger] results[i]).probability != (
            #[trigger] results[j]).probability) ==> (forall|i: int, j: int|
            0 <= i < j < results.len() ==> (#[trigger] results[i]).probability > (
            #[trigger] results[j]).probability),
{
    let n = known_classes(scores, labels);
    let known = scores.take(n as int);
    let ids = ids_of(results);
    assert(known =~= scores);
    lemma_ranking_descends(known, ranking_len(TOP_K as nat, n), ids);
    assert forall|i: int| 0 <= i < results.len() implies 0 <= (#[trigger] results[i]).class_id
        < labels.len() by {
        assert(ids[i] == results[i].class_id);
    }
    assert forall|i: int, j: int| 0 <= i < j < results.len() implies (#[trigger] results[i]).class_id
        != (#[trigger] results[j]).class_id && results[i].probability >= results[j].probability by {
        assert(ids[i] == results[i].class_id);
        assert(ids[j] == results[j].class_id);
        assert(scores[ids[i]] >= scores[ids[j]]);
    }
}

/// The score that the mock model gives to class `c`: 100 for class 0 and
/// 15 less for each class after it, but never under 5.
pub open spec fn mock_score(c: int) -> int {
    if 100 - 15 * c >= 5 {
        100 - 15 * c
    } else {
        5
    }
}

/// The scores of the mock model for `count` classes.
pub open spec fn mock_score_seq(count: nat) -> Seq<i32> {
    Seq::new(count, |c: int| mock_score(c) as i32)
}

/// The scores of the mock model for `count` classes.
pub fn mock_scores(count: usize) -> (scores: Vec<i32>)
    ensures
        scores@ == mock_score_seq(count as nat),
{
    let mut scores: Vec<i32> = Vec::new();
    let mut c: usize = 0;
    while c < count
        invariant
            c <= count,
            scores@.len() == c,
            forall|d: int| 0 <= d < c ==> #[trigger] scores@[d] == mock_score(d),
        decreases count - c,
    {
        let score: i32 = if c <= 6 {
            100 - 15 * (c as i32)
        } else {
            5
        };
        scores.push(score);
        c += 1;
    }
    assert(scores@ =~= mock_score_seq(count as nat));
    scores
}

/// Scores that never rise from one class to the next rank their classes in
/// the order of the class ids.
pub proof fn lemma_descending_scores_rank_in_order(scores: Seq<i32>, k: nat)
    requires
        k <= scores.len(),
        forall|a: int, b: int| 0 <= a < b < scores.len() ==> scores[a] >= scores[b],
    ensures
        is_top_ranking(scores, k, Seq::new(k, |i: int| i)),
{
    let ids = Seq::new(k, |i: int| i);
    assert forall|i: int, c: int|
        0 <= i < k && 0 <= c < scores.len() && !ids.contains(c) implies #[trigger] outranks(
        scores,
        ids[i],
        c,
    ) by {
        if c < k {
            assert(ids[c] == c);
            assert(false);
        }
    }
}

} // verus!
