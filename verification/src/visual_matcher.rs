//! Matching of unassigned images against anchors: images whose number is known.
//! Similarities come in as numbers; here they are ranked, counted as votes for
//! the anchors' numbers, and turned into a decision.

use crate::collections;
use crate::embedding;
use crate::db::AssignmentRecord;
use crate::note;
use crate::note::Note;
use crate::paths;
use crate::paths::FilePath;
use crate::ranking;
use crate::score::Score;
use crate::sorter;
use crate::text;
use vstd::prelude::*;

verus! {

/// When an image may take over the number of the anchors it resembles.
#[derive(Debug)]
pub struct VisualMatcherConfig {
    pub model_name: String,
    pub top_k: usize,
    pub min_visual_similarity: Score,
    pub min_topk_agreement: Score,
    pub max_conflicting_anchor_similarity: Score,
    pub min_anchor_count: usize,
    pub min_confidence: Score,
    pub debug_logging: bool,
}

impl Default for VisualMatcherConfig {
    /// Five anchors, a similarity of 0.90, an agreement of 0.60, conflicts up to
    /// 0.88, two anchors at least, a confidence of 0.88.
    fn default() -> (config: Self)
        ensures
            config.model_name@ == embedding::MODEL_NAME@,
            config.top_k == 5,
            config.min_visual_similarity.bits == 0x3f66_6666,
            config.min_topk_agreement.bits == 0x3f19_999a,
            config.max_conflicting_anchor_similarity.bits == 0x3f61_47ae,
            config.min_anchor_count == 2,
            config.min_confidence.bits == 0x3f61_47ae,
            !config.debug_logging,
    {
        VisualMatcherConfig {
            model_name: text::owned(embedding::MODEL_NAME),
            top_k: 5,
            min_visual_similarity: Score { bits: 0x3f66_6666 },
            min_topk_agreement: Score { bits: 0x3f19_999a },
            max_conflicting_anchor_similarity: Score { bits: 0x3f61_47ae },
            min_anchor_count: 2,
            min_confidence: Score { bits: 0x3f61_47ae },
            debug_logging: false,
        }
    }
}

/// Counts over a run of visual matching.
#[derive(Clone, Copy, Debug)]
pub struct VisualMatchSummary {
    pub anchors: usize,
    pub candidates: usize,
    pub assigned: usize,
    pub ambiguous: usize,
    pub weak: usize,
}

/// An image whose number is known.
#[derive(Debug)]
pub struct AnchorEmbedding {
    pub image_id: i64,
    pub number: String,
    pub assignment_confidence: Score,
}

/// An image that still needs a number.
#[derive(Debug)]
pub struct CandidateEmbedding {
    pub image_id: i64,
    pub file_path: FilePath,
    pub status: String,
}

/// One of the anchors that an image resembles most.
#[derive(Debug)]
pub struct VisualMatchRecord {
    pub image_id: i64,
    pub matched_anchor_image_id: i64,
    pub matched_number: String,
    pub similarity: Score,
    pub rank: i32,
}

/// A number taken over from anchors.
#[derive(Debug)]
pub struct VisualAssignmentRecord {
    pub image_id: i64,
    pub final_number: String,
    pub confidence: Score,
    pub notes: Note,
    pub matches: Vec<VisualMatchRecord>,
}

/// What becomes of a candidate.
#[derive(Debug)]
pub enum VisualDecision {
    Assign(VisualAssignmentRecord),
    Ambiguous {
        image_id: i64,
        confidence: Score,
        notes: Note,
        matches: Vec<VisualMatchRecord>,
    },
    NeedsReview { image_id: i64, notes: Note, matches: Vec<VisualMatchRecord> },
}

/// An anchor, by its place in the list, and how similar it is.
#[derive(Clone, Copy, Debug, PartialEq, Eq, Structural)]
pub struct ScoredAnchor {
    pub anchor: usize,
    pub similarity: Score,
}

/// The anchors among the most similar ones that vote for a number: their places
/// in the ranking, the best similarity among them, and the best confidence with
/// which one of them got the number.
#[derive(Debug)]
pub struct NumberVote {
    pub number: String,
    pub members: Vec<usize>,
    pub best_similarity: Score,
    pub anchor_confidence: Score,
}

/// The most similar anchors and their votes.
#[derive(Debug)]
pub struct AnchorTally {
    pub scored: Vec<ScoredAnchor>,
    pub votes: Vec<NumberVote>,
}

/// What is computed from a vote: the mean similarity of its members, their
/// share of all votes, and the confidence that both give.
#[derive(Clone, Copy, Debug)]
pub struct VoteScores {
    pub average: Score,
    pub agreement: Score,
    pub confidence: Score,
}

/// The keys that anchors are ranked by.
pub open spec fn similarity_keys(similarities: Seq<Score>) -> Seq<ranking::Key> {
    Seq::new(similarities.len(), |i: int| (0usize, similarities[i].rank() as i64, 0i64))
}

/// How many anchors are looked at.
pub open spec fn kept(anchors: nat, top_k: usize) -> nat {
    let wanted: nat = if top_k == 0 {
        1
    } else {
        top_k as nat
    };
    if wanted < anchors {
        wanted
    } else {
        anchors
    }
}

/// `scored` holds the most similar anchors, the most similar first, equally
/// similar ones in the order of the list.
pub open spec fn is_top(scored: Seq<ScoredAnchor>, similarities: Seq<Score>, top_k: usize) -> bool {
    exists|order: Seq<usize>|
        {
            &&& #[trigger] ranking::is_ranking(order, similarity_keys(similarities))
            &&& scored.len() == kept(similarities.len(), top_k)
            &&& forall|p: int|
                0 <= p < scored.len() ==> (#[trigger] scored[p]).anchor == order[p]
                    && scored[p].similarity == similarities[order[p] as int]
        }
}

/// Ranks the anchors by similarity and keeps the first `top_k`, at least one.
pub fn scored_anchors(similarities: &Vec<Score>, top_k: usize) -> (scored: Vec<ScoredAnchor>)
    ensures
        is_top(scored@, similarities@, top_k),
{
    let mut keys: Vec<ranking::Key> = Vec::new();
    let mut i: usize = 0;
    while i < similarities.len()
        invariant
            i <= similarities@.len(),
            keys@ == similarity_keys(similarities@.take(i as int)),
        decreases similarities@.len() - i,
    {
        let key: i64 = similarities[i].order_rank();
        keys.push((0, key, 0));
        assert(keys@ =~= similarity_keys(similarities@.take(i + 1)));
        i += 1;
    }
    assert(similarities@.take(i as int) =~= similarities@);
    let order = ranking::rank_keys(&keys);
    let wanted: usize = if top_k == 0 {
        1
    } else {
        top_k
    };
    let mut scored: Vec<ScoredAnchor> = Vec::new();
    let mut p: usize = 0;
    while p < order.len() && p < wanted
        invariant
            p <= order@.len(),
            p <= wanted,
            ranking::is_ranking(order@, similarity_keys(similarities@)),
            scored@.len() == p,
            forall|q: int|
                0 <= q < p ==> (#[trigger] scored@[q]).anchor == order@[q]
                    && scored@[q].similarity == similarities@[order@[q] as int],
        decreases order@.len() - p,
    {
        let anchor: usize = order[p];
        scored.push(ScoredAnchor { anchor, similarity: similarities[anchor] });
        p += 1;
    }
    scored
}

/// The numbers of the ranked anchors.
pub open spec fn numbers_of(scored: Seq<ScoredAnchor>, anchors: Seq<AnchorEmbedding>) -> Seq<
    Seq<char>,
> {
    Seq::new(scored.len(), |p: int| anchors[scored[p].anchor as int].number@)
}

/// The numbers, each once, in the order in which they first occur.
pub open spec fn distinct(numbers: Seq<Seq<char>>) -> Seq<Seq<char>>
    decreases numbers.len(),
{
    if numbers.len() == 0 {
        Seq::empty()
    } else {
        let before = distinct(numbers.drop_last());
        if before.contains(numbers.last()) {
            before
        } else {
            before.push(numbers.last())
        }
    }
}

/// The places at which a number stands.
pub open spec fn places_of(numbers: Seq<Seq<char>>, number: Seq<char>) -> Seq<usize>
    decreases numbers.len(),
{
    if numbers.len() == 0 {
        Seq::empty()
    } else {
        let before = places_of(numbers.drop_last(), number);
        if numbers.last() == number {
            before.push((numbers.len() - 1) as usize)
        } else {
            before
        }
    }
}

/// The largest of the values that stand where the number stands, and of zero.
pub open spec fn best_of(numbers: Seq<Seq<char>>, values: Seq<Score>, number: Seq<char>) -> Score
    decreases numbers.len(),
{
    if numbers.len() == 0 {
        Score { bits: 0 }
    } else {
        let before = best_of(numbers.drop_last(), values, number);
        if numbers.last() == number {
            before.larger(values[numbers.len() - 1])
        } else {
            before
        }
    }
}

/// The similarities of the ranked anchors.
pub open spec fn similarities_of(scored: Seq<ScoredAnchor>) -> Seq<Score> {
    Seq::new(scored.len(), |p: int| scored[p].similarity)
}

/// The confidences of the ranked anchors.
pub open spec fn confidences_of(scored: Seq<ScoredAnchor>, anchors: Seq<AnchorEmbedding>) -> Seq<
    Score,
> {
    Seq::new(scored.len(), |p: int| anchors[scored[p].anchor as int].assignment_confidence)
}

/// A vote says all about its number.
pub open spec fn is_vote(
    vote: NumberVote,
    numbers: Seq<Seq<char>>,
    similarities: Seq<Score>,
    confidences: Seq<Score>,
    number: Seq<char>,
) -> bool {
    &&& vote.number@ == number
    &&& vote.members@ == places_of(numbers, number)
    &&& vote.best_similarity == best_of(numbers, similarities, number)
    &&& vote.anchor_confidence == best_of(numbers, confidences, number)
}

/// The votes are those of the numbers, each number once.
pub open spec fn are_votes(
    votes: Seq<NumberVote>,
    numbers: Seq<Seq<char>>,
    similarities: Seq<Score>,
    confidences: Seq<Score>,
) -> bool {
    &&& votes.len() == distinct(numbers).len()
    &&& forall|v: int|
        0 <= v < votes.len() ==> is_vote(
            #[trigger] votes[v],
            numbers,
            similarities,
            confidences,
            distinct(numbers)[v],
        )
}

/// The ranked anchors are anchors of the list.
pub open spec fn anchors_listed(scored: Seq<ScoredAnchor>, anchors: Seq<AnchorEmbedding>) -> bool {
    forall|p: int| 0 <= p < scored.len() ==> (#[trigger] scored[p]).anchor < anchors.len()
}

impl AnchorTally {
    /// The votes are those of the ranked anchors.
    pub open spec fn wf(&self, anchors: Seq<AnchorEmbedding>) -> bool {
        &&& anchors_listed(self.scored@, anchors)
        &&& are_votes(
            self.votes@,
            numbers_of(self.scored@, anchors),
            similarities_of(self.scored@),
            confidences_of(self.scored@, anchors),
        )
    }
}

proof fn lemma_distinct(numbers: Seq<Seq<char>>)
    ensures
        distinct(numbers).no_duplicates(),
        distinct(numbers).len() <= numbers.len(),
        numbers.len() > 0 ==> distinct(numbers).len() > 0,
        forall|n: Seq<char>| #[trigger] distinct(numbers).contains(n) <==> numbers.contains(n),
    decreases numbers.len(),
{
    if numbers.len() > 0 {
        let rest = numbers.drop_last();
        lemma_distinct(rest);
        let before = distinct(rest);
        let last = numbers.last();
        assert forall|n: Seq<char>| #[trigger] distinct(numbers).contains(n) <==> numbers.contains(
            n,
        ) by {
            if distinct(numbers).contains(n) {
                if before.contains(n) {
                    assert(rest.contains(n));
                    let k = choose|k: int| 0 <= k < rest.len() && rest[k] == n;
                    assert(numbers[k] == n);
                } else {
                    let k = choose|k: int|
                        0 <= k < distinct(numbers).len() && distinct(numbers)[k] == n;
                    if k < before.len() {
                        assert(before[k] == n);
                    }
                    assert(n == last);
                    assert(numbers[numbers.len() - 1] == n);
                }
            }
            if numbers.contains(n) {
                let k = choose|k: int| 0 <= k < numbers.len() && numbers[k] == n;
                if k < rest.len() {
                    assert(rest[k] == n);
                    assert(rest.contains(n));
                    assert(before.contains(n));
                    let b = choose|b: int| 0 <= b < before.len() && before[b] == n;
                    assert(distinct(numbers)[b] == n);
                } else if !before.contains(n) {
                    assert(distinct(numbers)[before.len() as int] == n);
                }
            }
        }
        if before.contains(last) {
            let b = choose|b: int| 0 <= b < before.len() && before[b] == last;
            assert(before[b] == last);
        }
    }
}

proof fn lemma_unseen(numbers: Seq<Seq<char>>, values: Seq<Score>, number: Seq<char>)
    requires
        !numbers.contains(number),
    ensures
        places_of(numbers, number) == Seq::<usize>::empty(),
        best_of(numbers, values, number) == (Score { bits: 0 }),
    decreases numbers.len(),
{
    if numbers.len() > 0 {
        let rest = numbers.drop_last();
        if rest.contains(number) {
            let k = choose|k: int| 0 <= k < rest.len() && rest[k] == number;
            assert(numbers[k] == number);
        }
        assert(numbers[numbers.len() - 1] != number);
        lemma_unseen(rest, values, number);
    }
}

/// Counts the ranked anchors as votes for their numbers.
pub fn count_votes(scored: Vec<ScoredAnchor>, anchors: &Vec<AnchorEmbedding>) -> (tally: AnchorTally)
    requires
        anchors_listed(scored@, anchors@),
    ensures
        tally.scored == scored,
        tally.wf(anchors@),
{
    let ghost numbers = numbers_of(scored@, anchors@);
    let ghost similarities = similarities_of(scored@);
    let ghost confidences = confidences_of(scored@, anchors@);
    let mut table = collections::positions_new();
    let mut votes: Vec<NumberVote> = Vec::new();
    let mut p: usize = 0;
    proof {
        assert(numbers.take(0) =~= Seq::<Seq<char>>::empty());
    }
    while p < scored.len()
        invariant
            p <= scored@.len(),
            anchors_listed(scored@, anchors@),
            numbers == numbers_of(scored@, anchors@),
            similarities == similarities_of(scored@),
            confidences == confidences_of(scored@, anchors@),
            are_votes(votes@, numbers.take(p as int), similarities, confidences),
            forall|n: Seq<char>|
                #![trigger collections::position_entries(table).dom().contains(n)]
                collections::position_entries(table).dom().contains(n) <==> distinct(
                    numbers.take(p as int),
                ).contains(n),
            forall|n: Seq<char>|
                #![trigger collections::position_entries(table)[n]]
                collections::position_entries(table).dom().contains(n) ==> {
                    let v = collections::position_entries(table)[n];
                    v < votes@.len() && distinct(numbers.take(p as int))[v as int] == n
                },
        decreases scored@.len() - p,
    {
        let anchor = &anchors[scored[p].anchor];
        let similarity = scored[p].similarity;
        let ghost old_votes = votes@;
        let ghost old_entries = collections::position_entries(table);
        let ghost before = numbers.take(p as int);
        let ghost now = numbers.take(p + 1);
        let ghost number = anchor.number@;
        proof {
            assert(now.drop_last() =~= before);
            assert(now.last() == number);
            lemma_distinct(before);
            lemma_distinct(now);
            assert(similarities[p as int] == similarity);
            assert(confidences[p as int] == anchor.assignment_confidence);
        }
        match collections::positions_get(&table, anchor.number.as_str()) {
            Some(v) => {
                proof {
                    assert(old_entries.dom().contains(number));
                    assert(old_entries[number] == v);
                    assert(v < votes@.len());
                    assert(distinct(before)[v as int] == number);
                    assert(is_vote(votes@[v as int], before, similarities, confidences, number));
                }
                let mut members: Vec<usize> = votes[v].members.clone();
                assert(members@ =~= old_votes[v as int].members@);
                members.push(p);
                let vote = NumberVote {
                    number: votes[v].number.clone(),
                    members,
                    best_similarity: votes[v].best_similarity.max_with(similarity),
                    anchor_confidence: votes[v].anchor_confidence.max_with(
                        anchor.assignment_confidence,
                    ),
                };
                votes.set(v, vote);
                proof {
                    assert(distinct(now) == distinct(before));
                    assert forall|u: int| 0 <= u < votes@.len() implies is_vote(
                        #[trigger] votes@[u],
                        now,
                        similarities,
                        confidences,
                        distinct(now)[u],
                    ) by {
                        if u != v {
                            assert(distinct(before)[u] != distinct(before)[v as int]);
                            assert(votes@[u] == old_votes[u]);
                            assert(is_vote(
                                old_votes[u],
                                before,
                                similarities,
                                confidences,
                                distinct(before)[u],
                            ));
                        }
                    }
                }
            },
            None => {
                proof {
                    assert(!old_entries.dom().contains(number));
                    assert(!distinct(before).contains(number));
                    assert(!before.contains(number));
                    lemma_unseen(before, similarities, number);
                    lemma_unseen(before, confidences, number);
                }
                let mut members: Vec<usize> = Vec::new();
                members.push(p);
                let none = Score { bits: 0 };
                let vote = NumberVote {
                    number: anchor.number.clone(),
                    members,
                    best_similarity: none.max_with(similarity),
                    anchor_confidence: none.max_with(anchor.assignment_confidence),
                };
                let v: usize = votes.len();
                votes.push(vote);
                collections::positions_insert(&mut table, anchor.number.clone(), v);
                proof {
                    assert(distinct(now) == distinct(before).push(number));
                    assert(members@ =~= Seq::<usize>::empty().push(p));
                    assert forall|u: int| 0 <= u < votes@.len() implies is_vote(
                        #[trigger] votes@[u],
                        now,
                        similarities,
                        confidences,
                        distinct(now)[u],
                    ) by {
                        if u < v {
                            assert(votes@[u] == old_votes[u]);
                            assert(is_vote(
                                old_votes[u],
                                before,
                                similarities,
                                confidences,
                                distinct(before)[u],
                            ));
                            assert(distinct(before)[u] != number) by {
                                assert(distinct(before).contains(distinct(before)[u]));
                            }
                        }
                    }
                    let entries = collections::position_entries(table);
                    assert forall|n: Seq<char>|
                        #![trigger entries.dom().contains(n)]
                        entries.dom().contains(n) <==> distinct(now).contains(n) by {
                        if entries.dom().contains(n) {
                            if n == number {
                                assert(distinct(now)[v as int] == n);
                            } else {
                                assert(old_entries.dom().contains(n));
                                assert(distinct(before).contains(n));
                                let b = choose|b: int|
                                    0 <= b < distinct(before).len() && distinct(before)[b] == n;
                                assert(distinct(now)[b] == n);
                            }
                        }
                        if distinct(now).contains(n) && n != number {
                            let b = choose|b: int|
                                0 <= b < distinct(now).len() && distinct(now)[b] == n;
                            assert(distinct(before)[b] == n);
                            assert(distinct(before).contains(n));
                            assert(old_entries.dom().contains(n));
                        }
                    }
                    assert forall|n: Seq<char>|
                        #![trigger entries[n]]
                        entries.dom().contains(n) implies {
                        let w = entries[n];
                        w < votes@.len() && distinct(now)[w as int] == n
                    } by {
                        if n != number {
                            assert(old_entries.dom().contains(n));
                            assert(entries[n] == old_entries[n]);
                        }
                    }
                }
            },
        }
        p += 1;
    }
    assert(numbers.take(p as int) =~= numbers);
    AnchorTally { scored, votes }
}

/// Ranks the anchors by their similarities and counts the votes of the nearest.
pub fn tally_anchors(
    similarities: &Vec<Score>,
    anchors: &Vec<AnchorEmbedding>,
    top_k: usize,
) -> (tally: AnchorTally)
    requires
        similarities@.len() == anchors@.len(),
    ensures
        is_top(tally.scored@, similarities@, top_k),
        tally.wf(anchors@),
        tally.scored@.len() == kept(anchors@.len(), top_k),
{
    let scored = scored_anchors(similarities, top_k);
    proof {
        let keys = similarity_keys(similarities@);
        let order = choose|order: Seq<usize>|
            #[trigger] ranking::is_ranking(order, keys) && scored@.len() == kept(
                similarities@.len(),
                top_k,
            ) && forall|p: int|
                0 <= p < scored@.len() ==> (#[trigger] scored@[p]).anchor == order[p]
                    && scored@[p].similarity == similarities@[order[p] as int];
        assert forall|p: int| 0 <= p < scored@.len() implies (#[trigger] scored@[p]).anchor
            < anchors@.len() by {
            assert(order[p] < keys.len());
        }
    }
    count_votes(scored, anchors)
}

/// The keys that numbers are ranked by: how many votes, then how similar on
/// the average, then how similar at best.
pub open spec fn vote_keys(votes: Seq<NumberVote>, scores: Seq<VoteScores>) -> Seq<ranking::Key> {
    Seq::new(
        votes.len(),
        |v: int|
            (
                votes[v].members.len(),
                scores[v].average.rank() as i64,
                votes[v].best_similarity.rank() as i64,
            ),
    )
}

/// The votes from the strongest to the weakest.
pub open spec fn ranked(votes: Seq<NumberVote>, scores: Seq<VoteScores>) -> Seq<usize> {
    choose|order: Seq<usize>| ranking::is_ranking(order, vote_keys(votes, scores))
}

/// Ranks the votes from the strongest to the weakest.
pub fn ranked_numbers(votes: &Vec<NumberVote>, scores: &Vec<VoteScores>) -> (order: Vec<usize>)
    requires
        scores@.len() == votes@.len(),
    ensures
        order@ == ranked(votes@, scores@),
        ranking::is_ranking(order@, vote_keys(votes@, scores@)),
{
    let mut keys: Vec<ranking::Key> = Vec::new();
    let mut v: usize = 0;
    while v < votes.len()
        invariant
            v <= votes@.len(),
            scores@.len() == votes@.len(),
            keys@ == vote_keys(votes@.take(v as int), scores@),
        decreases votes@.len() - v,
    {
        let count: usize = votes[v].members.len();
        let average: i64 = scores[v].average.order_rank();
        let best: i64 = votes[v].best_similarity.order_rank();
        keys.push((count, average, best));
        assert(keys@ =~= vote_keys(votes@.take(v + 1), scores@));
        v += 1;
    }
    assert(votes@.take(v as int) =~= votes@);
    let order = ranking::rank_keys(&keys);
    proof {
        ranking::ranking_is_unique(order@, ranked(votes@, scores@), vote_keys(votes@, scores@));
    }
    order
}

/// The place, among the first `upto` ranked votes, of the one that contradicts
/// the winner most: the most similar of the others, the last of equally similar
/// ones.
pub open spec fn rival(votes: Seq<NumberVote>, order: Seq<usize>, upto: nat) -> Option<int>
    decreases upto,
{
    if upto <= 1 {
        None
    } else {
        match rival(votes, order, (upto - 1) as nat) {
            None => Some(upto - 1),
            Some(q) => if votes[order[q] as int].best_similarity.rank() <= votes[order[upto
                - 1] as int].best_similarity.rank() {
                Some(upto - 1)
            } else {
                Some(q)
            },
        }
    }
}

/// The rival is the most similar of the votes that did not win, the last of equally similar
/// ones.
pub proof fn rival_is_strongest(votes: Seq<NumberVote>, order: Seq<usize>, upto: nat)
    ensures
        rival(votes, order, upto) is None <==> upto <= 1,
        rival(votes, order, upto) matches Some(q) ==> forall|p: int|
            q < p < upto ==> votes[#[trigger] order[p] as int].best_similarity.rank()
                < votes[order[q] as int].best_similarity.rank(),
        rival(votes, order, upto) matches Some(q) ==> 1 <= q < upto && forall|p: int|
            1 <= p < upto ==> votes[#[trigger] order[p] as int].best_similarity.rank()
                <= votes[order[q] as int].best_similarity.rank(),
    decreases upto,
{
    if upto > 1 {
        rival_is_strongest(votes, order, (upto - 1) as nat);
    }
}

/// Finds the vote that contradicts the winner most.
fn strongest_conflict(votes: &Vec<NumberVote>, order: &Vec<usize>) -> (found: Option<usize>)
    requires
        forall|p: int| 0 <= p < order@.len() ==> #[trigger] order@[p] < votes@.len(),
    ensures
        match found {
            None => rival(votes@, order@, order@.len()) is None,
            Some(q) => q < order@.len() && rival(votes@, order@, order@.len()) == Some(q as int),
        },
{
    let mut found: Option<usize> = None;
    let mut p: usize = 1;
    if order.len() <= 1 {
        return None;
    }
    while p < order.len()
        invariant
            1 <= p <= order@.len(),
            forall|i: int| 0 <= i < order@.len() ==> #[trigger] order@[i] < votes@.len(),
            match found {
                None => rival(votes@, order@, p as nat) is None,
                Some(q) => q < order@.len() && rival(votes@, order@, p as nat) == Some(q as int),
            },
        decreases order@.len() - p,
    {
        let best: i64 = votes[order[p]].best_similarity.order_rank();
        let replace = match found {
            None => true,
            Some(q) => votes[order[q]].best_similarity.order_rank() <= best,
        };
        if replace {
            found = Some(p);
        }
        p += 1;
    }
    found
}

/// The outcomes of the comparison with the anchors.
#[derive(Clone, Copy, Debug, PartialEq, Eq, Structural)]
pub enum Verdict {
    /// There is no anchor to compare with.
    NoAnchor,
    /// Not even the most similar anchor is similar enough.
    TooDissimilar,
    /// An anchor with another number is too similar.
    Contradicted,
    /// Too few of the anchors agree, and some have another number.
    Contested,
    /// Too few of the anchors agree.
    TooFewAgree,
    /// All in all the confidence is too low.
    TooUncertain,
    /// The number is taken over.
    Taken,
}

/// What the comparison comes to.
pub open spec fn verdict(
    tally: AnchorTally,
    scores: Seq<VoteScores>,
    config: VisualMatcherConfig,
) -> Verdict {
    let votes = tally.votes@;
    let order = ranked(votes, scores);
    let winner = order[0] as int;
    let other = rival(votes, order, order.len());
    if tally.scored@.len() == 0 {
        Verdict::NoAnchor
    } else if tally.scored@[0].similarity.lt(config.min_visual_similarity) {
        Verdict::TooDissimilar
    } else if other matches Some(q) && votes[order[q] as int].best_similarity.ge(
        config.max_conflicting_anchor_similarity,
    ) {
        Verdict::Contradicted
    } else if scores[winner].agreement.lt(config.min_topk_agreement) {
        if other is Some {
            Verdict::Contested
        } else {
            Verdict::TooFewAgree
        }
    } else if scores[winner].confidence.lt(config.min_confidence) {
        Verdict::TooUncertain
    } else {
        Verdict::Taken
    }
}

/// The records of the ranked anchors, numbered from one.
pub open spec fn are_matches(
    matches: Seq<VisualMatchRecord>,
    image_id: i64,
    scored: Seq<ScoredAnchor>,
    anchors: Seq<AnchorEmbedding>,
) -> bool {
    &&& matches.len() == scored.len()
    &&& forall|p: int|
        0 <= p < matches.len() ==> {
            let anchor = anchors[scored[p].anchor as int];
            &&& (#[trigger] matches[p]).image_id == image_id
            &&& matches[p].matched_anchor_image_id == anchor.image_id
            &&& matches[p].matched_number@ == anchor.number@
            &&& matches[p].similarity == scored[p].similarity
            &&& matches[p].rank == p + 1
        }
}

/// The records of the ranked anchors.
pub fn matches_from_scored(
    image_id: i64,
    scored: &Vec<ScoredAnchor>,
    anchors: &Vec<AnchorEmbedding>,
) -> (matches: Vec<VisualMatchRecord>)
    requires
        anchors_listed(scored@, anchors@),
        scored@.len() < 0x7fff_ffff,
    ensures
        are_matches(matches@, image_id, scored@, anchors@),
{
    let mut matches: Vec<VisualMatchRecord> = Vec::new();
    let mut p: usize = 0;
    while p < scored.len()
        invariant
            p <= scored@.len() < 0x7fff_ffff,
            anchors_listed(scored@, anchors@),
            are_matches(matches@, image_id, scored@.take(p as int), anchors@),
        decreases scored@.len() - p,
    {
        let anchor = &anchors[scored[p].anchor];
        let ghost before = matches@;
        matches.push(
            VisualMatchRecord {
                image_id,
                matched_anchor_image_id: anchor.image_id,
                matched_number: anchor.number.clone(),
                similarity: scored[p].similarity,
                rank: p as i32 + 1,
            },
        );
        proof {
            assert forall|q: int| 0 <= q < matches@.len() implies {
                let anchor = anchors@[scored@.take(p + 1)[q].anchor as int];
                &&& (#[trigger] matches@[q]).image_id == image_id
                &&& matches@[q].matched_anchor_image_id == anchor.image_id
                &&& matches@[q].matched_number@ == anchor.number@
                &&& matches@[q].similarity == scored@.take(p + 1)[q].similarity
                &&& matches@[q].rank == q + 1
            } by {
                if q < p {
                    assert(matches@[q] == before[q]);
                    assert(scored@.take(p + 1)[q] == scored@.take(p as int)[q]);
                }
            }
        }
        p += 1;
    }
    assert(scored@.take(p as int) =~= scored@);
    matches
}

/// The decision says what the comparison came to, and why.
pub open spec fn is_decision(
    decision: VisualDecision,
    candidate: CandidateEmbedding,
    anchors: Seq<AnchorEmbedding>,
    tally: AnchorTally,
    scores: Seq<VoteScores>,
    config: VisualMatcherConfig,
) -> bool {
    let votes = tally.votes@;
    let order = ranked(votes, scores);
    let winner = order[0] as int;
    let other = order[rival(votes, order, order.len())->0] as int;
    let id = candidate.image_id;
    let status = candidate.status@;
    match verdict(tally, scores, config) {
        Verdict::NoAnchor => decision matches VisualDecision::NeedsReview {
            image_id,
            notes,
            matches,
        } && image_id == id && are_matches(matches@, id, tally.scored@, anchors) && notes@ == seq![
            note::words("no anchors available after scoring"@),
        ],
        Verdict::TooDissimilar => decision matches VisualDecision::NeedsReview {
            image_id,
            notes,
            matches,
        } && image_id == id && are_matches(matches@, id, tally.scored@, anchors) && notes@ == seq![
            note::words("best visual similarity "@),
            note::fixed(tally.scored@[0].similarity, 3),
            note::words(" is below min_visual_similarity "@),
            note::fixed(config.min_visual_similarity, 3),
            note::words("; previous_status="@),
            note::words(status),
        ],
        Verdict::Contradicted => decision matches VisualDecision::Ambiguous {
            image_id,
            confidence,
            notes,
            matches,
        } && image_id == id && are_matches(matches@, id, tally.scored@, anchors) && confidence
            == votes[other].best_similarity && notes@ == seq![
            note::words("conflicting anchor number "@),
            note::words(votes[other].number@),
            note::words(" similarity "@),
            note::fixed(votes[other].best_similarity, 3),
            note::words(" exceeds max_conflicting_anchor_similarity "@),
            note::fixed(config.max_conflicting_anchor_similarity, 3),
            note::words("; winner="@),
            note::words(votes[winner].number@),
            note::words(" agreement="@),
            note::fixed(scores[winner].agreement, 2),
            note::words("; previous_status="@),
            note::words(status),
        ],
        Verdict::Contested => decision matches VisualDecision::Ambiguous {
            image_id,
            confidence,
            notes,
            matches,
        } && image_id == id && are_matches(matches@, id, tally.scored@, anchors) && confidence
            == votes[winner].best_similarity && notes@ == agreement_note(
            votes[winner].number@,
            scores[winner].agreement,
            config.min_topk_agreement,
            status,
        ),
        Verdict::TooFewAgree => decision matches VisualDecision::NeedsReview {
            image_id,
            notes,
            matches,
        } && image_id == id && are_matches(matches@, id, tally.scored@, anchors) && notes@
            == agreement_note(
            votes[winner].number@,
            scores[winner].agreement,
            config.min_topk_agreement,
            status,
        ),
        Verdict::TooUncertain => decision matches VisualDecision::NeedsReview {
            image_id,
            notes,
            matches,
        } && image_id == id && are_matches(matches@, id, tally.scored@, anchors) && notes@ == seq![
            note::words("visual confidence "@),
            note::fixed(scores[winner].confidence, 3),
            note::words(" is below min_confidence "@),
            note::fixed(config.min_confidence, 3),
            note::words("; winner="@),
            note::words(votes[winner].number@),
            note::words(" avg_similarity="@),
            note::fixed(scores[winner].average, 3),
            note::words(" agreement="@),
            note::fixed(scores[winner].agreement, 2),
            note::words("; previous_status="@),
            note::words(status),
        ],
        Verdict::Taken => decision matches VisualDecision::Assign(assignment)
            && assignment.image_id == id && are_matches(
            assignment.matches@,
            id,
            tally.scored@,
            anchors,
        ) && assignment.final_number@ == votes[winner].number@ && assignment.confidence
            == scores[winner].confidence && assignment.notes@ == seq![
            note::words("visual match from "@),
            note::words(text::decimal(tally.scored@.len())),
            note::words(" top anchors; avg_similarity="@),
            note::fixed(scores[winner].average, 3),
            note::words(", agreement="@),
            note::fixed(scores[winner].agreement, 2),
            note::words(", anchor_confidence="@),
            note::fixed(votes[winner].anchor_confidence, 3),
            note::words(", previous_status="@),
            note::words(status),
            note::words(", file="@),
            note::words(paths::shown(candidate.file_path@)),
        ],
    }
}

/// The remark on a number that too few anchors agree on.
pub open spec fn agreement_note(
    number: Seq<char>,
    agreement: Score,
    wanted: Score,
    status: Seq<char>,
) -> Seq<note::Saying> {
    seq![
        note::words("winner="@),
        note::words(number),
        note::words(" agreement "@),
        note::fixed(agreement, 2),
        note::words(" is below min_topk_agreement "@),
        note::fixed(wanted, 2),
        note::words("; previous_status="@),
        note::words(status),
    ]
}

fn write_agreement_note(number: &str, agreement: Score, wanted: Score, status: &str) -> (note: Note)
    ensures
        note@ == agreement_note(number@, agreement, wanted, status@),
{
    let mut note = Note::new();
    note.say("winner=");
    note.say(number);
    note.say(" agreement ");
    note.write(agreement, 2);
    note.say(" is below min_topk_agreement ");
    note.write(wanted, 2);
    note.say("; previous_status=");
    note.say(status);
    assert(note@ =~= agreement_note(number@, agreement, wanted, status@));
    note
}

/// Decides what becomes of a candidate, from the anchors that it resembles most.
pub fn evaluate_candidate(
    candidate: &CandidateEmbedding,
    anchors: &Vec<AnchorEmbedding>,
    tally: &AnchorTally,
    scores: &Vec<VoteScores>,
    config: &VisualMatcherConfig,
) -> (decision: VisualDecision)
    requires
        tally.wf(anchors@),
        scores@.len() == tally.votes@.len(),
        tally.scored@.len() < 0x7fff_ffff,
    ensures
        is_decision(decision, *candidate, anchors@, *tally, scores@, *config),
{
    let matches = matches_from_scored(candidate.image_id, &tally.scored, anchors);
    let image_id: i64 = candidate.image_id;
    let status = candidate.status.as_str();
    if tally.scored.len() == 0 {
        return VisualDecision::NeedsReview {
            image_id,
            notes: Note::of_text("no anchors available after scoring"),
            matches,
        };
    }
    let best = tally.scored[0].similarity;
    if best.is_below(config.min_visual_similarity) {
        let mut notes = Note::new();
        notes.say("best visual similarity ");
        notes.write(best, 3);
        notes.say(" is below min_visual_similarity ");
        notes.write(config.min_visual_similarity, 3);
        notes.say("; previous_status=");
        notes.say(status);
        proof {
            assert(notes@ =~= seq![
                note::words("best visual similarity "@),
                note::fixed(best, 3),
                note::words(" is below min_visual_similarity "@),
                note::fixed(config.min_visual_similarity, 3),
                note::words("; previous_status="@),
                note::words(status@),
            ]);
        }
        return VisualDecision::NeedsReview { image_id, notes, matches };
    }
    proof {
        lemma_distinct(numbers_of(tally.scored@, anchors@));
    }
    let order = ranked_numbers(&tally.votes, scores);
    let winner: usize = order[0];
    let vote = &tally.votes[winner];
    let agreement = scores[winner].agreement;
    let conflict = strongest_conflict(&tally.votes, &order);
    if let Some(q) = conflict {
        let other = &tally.votes[order[q]];
        if other.best_similarity.is_at_least(config.max_conflicting_anchor_similarity) {
            let mut notes = Note::new();
            notes.say("conflicting anchor number ");
            notes.say(other.number.as_str());
            notes.say(" similarity ");
            notes.write(other.best_similarity, 3);
            notes.say(" exceeds max_conflicting_anchor_similarity ");
            notes.write(config.max_conflicting_anchor_similarity, 3);
            notes.say("; winner=");
            notes.say(vote.number.as_str());
            notes.say(" agreement=");
            notes.write(agreement, 2);
            notes.say("; previous_status=");
            notes.say(status);
            proof {
                assert(notes@ =~= seq![
                    note::words("conflicting anchor number "@),
                    note::words(other.number@),
                    note::words(" similarity "@),
                    note::fixed(other.best_similarity, 3),
                    note::words(" exceeds max_conflicting_anchor_similarity "@),
                    note::fixed(config.max_conflicting_anchor_similarity, 3),
                    note::words("; winner="@),
                    note::words(vote.number@),
                    note::words(" agreement="@),
                    note::fixed(agreement, 2),
                    note::words("; previous_status="@),
                    note::words(status@),
                ]);
            }
            return VisualDecision::Ambiguous {
                image_id,
                confidence: other.best_similarity,
                notes,
                matches,
            };
        }
    }
    if agreement.is_below(config.min_topk_agreement) {
        let notes = write_agreement_note(
            vote.number.as_str(),
            agreement,
            config.min_topk_agreement,
            status,
        );
        return if conflict.is_some() {
            VisualDecision::Ambiguous { image_id, confidence: vote.best_similarity, notes, matches }
        } else {
            VisualDecision::NeedsReview { image_id, notes, matches }
        };
    }
    let average = scores[winner].average;
    let confidence = scores[winner].confidence;
    if confidence.is_below(config.min_confidence) {
        let mut notes = Note::new();
        notes.say("visual confidence ");
        notes.write(confidence, 3);
        notes.say(" is below min_confidence ");
        notes.write(config.min_confidence, 3);
        notes.say("; winner=");
        notes.say(vote.number.as_str());
        notes.say(" avg_similarity=");
        notes.write(average, 3);
        notes.say(" agreement=");
        notes.write(agreement, 2);
        notes.say("; previous_status=");
        notes.say(status);
        proof {
            assert(notes@ =~= seq![
                note::words("visual confidence "@),
                note::fixed(confidence, 3),
                note::words(" is below min_confidence "@),
                note::fixed(config.min_confidence, 3),
                note::words("; winner="@),
                note::words(vote.number@),
                note::words(" avg_similarity="@),
                note::fixed(average, 3),
                note::words(" agreement="@),
                note::fixed(agreement, 2),
                note::words("; previous_status="@),
                note::words(status@),
            ]);
        }
        return VisualDecision::NeedsReview { image_id, notes, matches };
    }
    let mut notes = Note::new();
    let count = text::decimal_text(tally.scored.len() as u64);
    let file = candidate.file_path.display_text();
    notes.say("visual match from ");
    notes.say(count.as_str());
    notes.say(" top anchors; avg_similarity=");
    notes.write(average, 3);
    notes.say(", agreement=");
    notes.write(agreement, 2);
    notes.say(", anchor_confidence=");
    notes.write(vote.anchor_confidence, 3);
    notes.say(", previous_status=");
    notes.say(status);
    notes.say(", file=");
    notes.say(file.as_str());
    proof {
        assert(notes@ =~= seq![
            note::words("visual match from "@),
            note::words(text::decimal(tally.scored@.len())),
            note::words(" top anchors; avg_similarity="@),
            note::fixed(average, 3),
            note::words(", agreement="@),
            note::fixed(agreement, 2),
            note::words(", anchor_confidence="@),
            note::fixed(vote.anchor_confidence, 3),
            note::words(", previous_status="@),
            note::words(status@),
            note::words(", file="@),
            note::words(paths::shown(candidate.file_path@)),
        ]);
    }
    VisualDecision::Assign(
        VisualAssignmentRecord {
            image_id,
            final_number: vote.number.clone(),
            confidence,
            notes,
            matches,
        },
    )
}

/// A candidate with the anchors that it resembles most and what was computed
/// from their votes.
#[derive(Debug)]
pub struct PreparedCandidate {
    pub candidate: CandidateEmbedding,
    pub tally: AnchorTally,
    pub scores: Vec<VoteScores>,
}

impl PreparedCandidate {
    /// The tally is one of these anchors, and its scores belong to it.
    pub open spec fn wf(&self, anchors: Seq<AnchorEmbedding>) -> bool {
        &&& self.tally.wf(anchors)
        &&& self.scores@.len() == self.tally.votes@.len()
        &&& self.tally.scored@.len() < 0x7fff_ffff
    }
}

/// The decisions on all candidates, and how many there were of each sort.
#[derive(Debug)]
pub struct VisualMatchRun {
    pub summary: VisualMatchSummary,
    pub decisions: Vec<VisualDecision>,
}

/// How many decisions assign a number.
pub open spec fn assigned_count(decisions: Seq<VisualDecision>) -> nat {
    decisions.filter(|d: VisualDecision| d is Assign).len()
}

/// How many decisions leave the number ambiguous.
pub open spec fn ambiguous_count(decisions: Seq<VisualDecision>) -> nat {
    decisions.filter(|d: VisualDecision| d is Ambiguous).len()
}

/// How many decisions leave the image for a person to look at.
pub open spec fn weak_count(decisions: Seq<VisualDecision>) -> nat {
    decisions.filter(|d: VisualDecision| d is NeedsReview).len()
}

/// Every decision is counted once.
pub proof fn decisions_are_counted_once(decisions: Seq<VisualDecision>)
    ensures
        assigned_count(decisions) + ambiguous_count(decisions) + weak_count(decisions)
            == decisions.len(),
    decreases decisions.len(),
{
    reveal(Seq::filter);
    if decisions.len() > 0 {
        decisions_are_counted_once(decisions.drop_last());
    }
}

/// Decides on every candidate. With fewer anchors than the configuration asks
/// for nothing is decided, and all candidates count as weak.
pub fn run_anchor_visual_matching(
    anchors: &Vec<AnchorEmbedding>,
    candidates: &Vec<PreparedCandidate>,
    config: &VisualMatcherConfig,
) -> (run: VisualMatchRun)
    requires
        forall|i: int| 0 <= i < candidates@.len() ==> (#[trigger] candidates@[i]).wf(anchors@),
    ensures
        run.summary.anchors == anchors@.len(),
        run.summary.candidates == candidates@.len(),
        anchors@.len() < config.min_anchor_count ==> {
            &&& run.decisions@.len() == 0
            &&& run.summary.assigned == 0
            &&& run.summary.ambiguous == 0
            &&& run.summary.weak == candidates@.len()
        },
        anchors@.len() >= config.min_anchor_count ==> {
            &&& run.decisions@.len() == candidates@.len()
            &&& forall|i: int|
                0 <= i < candidates@.len() ==> is_decision(
                    #[trigger] run.decisions@[i],
                    candidates@[i].candidate,
                    anchors@,
                    candidates@[i].tally,
                    candidates@[i].scores@,
                    *config,
                )
            &&& run.summary.assigned == assigned_count(run.decisions@)
            &&& run.summary.ambiguous == ambiguous_count(run.decisions@)
            &&& run.summary.weak == weak_count(run.decisions@)
        },
{
    let mut summary = VisualMatchSummary {
        anchors: anchors.len(),
        candidates: candidates.len(),
        assigned: 0,
        ambiguous: 0,
        weak: 0,
    };
    let mut decisions: Vec<VisualDecision> = Vec::new();
    proof {
        reveal(Seq::filter);
    }
    if anchors.len() < config.min_anchor_count {
        summary.weak = candidates.len();
        return VisualMatchRun { summary, decisions };
    }
    let mut i: usize = 0;
    while i < candidates.len()
        invariant
            i <= candidates@.len(),
            decisions@.len() == i,
            forall|j: int| 0 <= j < candidates@.len() ==> (#[trigger] candidates@[j]).wf(anchors@),
            forall|j: int|
                0 <= j < i ==> is_decision(
                    #[trigger] decisions@[j],
                    candidates@[j].candidate,
                    anchors@,
                    candidates@[j].tally,
                    candidates@[j].scores@,
                    *config,
                ),
            summary.anchors == anchors@.len(),
            summary.candidates == candidates@.len(),
            summary.assigned == assigned_count(decisions@),
            summary.ambiguous == ambiguous_count(decisions@),
            summary.weak == weak_count(decisions@),
        decreases candidates@.len() - i,
    {
        let prepared = &candidates[i];
        let ghost before = decisions@;
        proof {
            decisions_are_counted_once(before);
        }
        let decision = evaluate_candidate(
            &prepared.candidate,
            anchors,
            &prepared.tally,
            &prepared.scores,
            config,
        );
        match &decision {
            VisualDecision::Assign(_) => {
                summary.assigned += 1;
            },
            VisualDecision::Ambiguous { .. } => {
                summary.ambiguous += 1;
            },
            VisualDecision::NeedsReview { .. } => {
                summary.weak += 1;
            },
        }
        decisions.push(decision);
        proof {
            reveal(Seq::filter);
            assert(decisions@.drop_last() =~= before);
            assert(decisions@.last() == decision);
        }
        i += 1;
    }
    VisualMatchRun { summary, decisions }
}

proof fn lemma_first_has_most_votes(
    votes: Seq<NumberVote>,
    scores: Seq<VoteScores>,
    order: Seq<usize>,
    p: int,
)
    requires
        ranking::is_ranking(order, vote_keys(votes, scores)),
        0 < p < order.len(),
    ensures
        votes[order[p] as int].members@.len() <= votes[order[0] as int].members@.len(),
{
    let keys = vote_keys(votes, scores);
    assert(ranking::stands_before(keys, order[0] as int, order[p] as int));
    assert(keys[order[p] as int].0 == votes[order[p] as int].members.len());
    assert(keys[order[0] as int].0 == votes[order[0] as int].members.len());
}

proof fn lemma_best_is_number(numbers: Seq<Seq<char>>, values: Seq<Score>, number: Seq<char>)
    ensures
        !best_of(numbers, values, number).nan(),
    decreases numbers.len(),
{
    if numbers.len() > 0 {
        lemma_best_is_number(numbers.drop_last(), values, number);
    }
}

/// A number is taken over only where every threshold is met: the nearest anchor
/// is similar enough, enough anchors agree, none with another number is too
/// similar, no other number has more votes, and the confidence suffices. What is
/// taken over is the number of one of the nearest anchors.
pub proof fn taken_only_when_sure(
    decision: VisualDecision,
    candidate: CandidateEmbedding,
    anchors: Seq<AnchorEmbedding>,
    tally: AnchorTally,
    scores: Seq<VoteScores>,
    config: VisualMatcherConfig,
)
    requires
        tally.wf(anchors),
        scores.len() == tally.votes@.len(),
        is_decision(decision, candidate, anchors, tally, scores, config),
        decision is Assign,
    ensures
        decision->0.image_id == candidate.image_id,
        !tally.scored@[0].similarity.lt(config.min_visual_similarity),
        exists|v: int|
            0 <= v < tally.votes@.len() && {
                &&& (#[trigger] tally.votes@[v]).number@ == decision->0.final_number@
                &&& !scores[v].agreement.lt(config.min_topk_agreement)
                &&& !scores[v].confidence.lt(config.min_confidence)
                &&& decision->0.confidence == scores[v].confidence
                &&& forall|u: int|
                    0 <= u < tally.votes@.len() && u != v ==> !(
                    #[trigger] tally.votes@[u]).best_similarity.ge(
                        config.max_conflicting_anchor_similarity,
                    ) && tally.votes@[u].members@.len() <= tally.votes@[v].members@.len()
            },
        exists|p: int|
            0 <= p < tally.scored@.len() && anchors[(
            #[trigger] tally.scored@[p]).anchor as int].number@ == decision->0.final_number@,
{
    let votes = tally.votes@;
    let numbers = numbers_of(tally.scored@, anchors);
    let similarities = similarities_of(tally.scored@);
    let keys = vote_keys(votes, scores);
    assert(votes.len() == tally.votes.len());
    let some = ranking::ranking_exists(keys);
    let order = ranked(votes, scores);
    assert(ranking::is_ranking(order, keys));
    lemma_distinct(numbers);
    let winner = order[0] as int;
    assert(votes[winner].number@ == decision->0.final_number@);
    rival_is_strongest(votes, order, order.len());
    assert forall|u: int| 0 <= u < votes.len() && u != winner implies !(
    #[trigger] votes[u]).best_similarity.ge(config.max_conflicting_anchor_similarity)
        && votes[u].members@.len() <= votes[winner].members@.len() by {
        ranking::every_item_is_ranked(order, keys, u as usize);
        let p = choose|p: int| 0 <= p < order.len() && order[p] == u;
        assert(p >= 1);
        lemma_first_has_most_votes(votes, scores, order, p);
        let q = rival(votes, order, order.len())->0;
        let strongest = votes[order[q] as int].best_similarity;
        assert(votes[order[p] as int].best_similarity.rank() <= strongest.rank());
        assert(is_vote(votes[u], numbers, similarities, confidences_of(tally.scored@, anchors),
            distinct(numbers)[u]));
        assert(is_vote(votes[order[q] as int], numbers, similarities,
            confidences_of(tally.scored@, anchors), distinct(numbers)[order[q] as int]));
        lemma_best_is_number(numbers, similarities, distinct(numbers)[u]);
        lemma_best_is_number(numbers, similarities, distinct(numbers)[order[q] as int]);
        crate::score::rank_follows_value(votes[u].best_similarity, strongest);
    }
    let number = distinct(numbers)[winner];
    assert(is_vote(votes[winner], numbers, similarities, confidences_of(tally.scored@, anchors),
        number));
    assert(distinct(numbers).contains(number));
    let p = choose|p: int| 0 <= p < numbers.len() && numbers[p] == number;
    assert(anchors[tally.scored@[p].anchor as int].number@ == number);
}

/// What is recorded of a decision: a number that is taken over, as assigned by visual
/// match and without review; or that the evidence conflicts, as ambiguous, without a
/// number and for review. Of any other decision no assignment is recorded.
pub open spec fn is_recorded_as(decision: VisualDecision, record: Option<AssignmentRecord>) -> bool {
    match decision {
        VisualDecision::Assign(taken) => record matches Some(r) && {
            &&& text::optional_text(r.final_number) == Some(taken.final_number@)
            &&& r.assignment_method@ == "assigned_by_visual_match"@
            &&& r.confidence == taken.confidence
            &&& !r.needs_review
            &&& r.notes matches Some(n) && n@ == taken.notes@
        },
        VisualDecision::Ambiguous { image_id, confidence, notes, matches } => record matches Some(r)
            && {
            &&& r.final_number is None
            &&& r.assignment_method@ == "ambiguous"@
            &&& r.confidence == confidence
            &&& r.needs_review
            &&& r.notes matches Some(n) && n@ == notes@
        },
        VisualDecision::NeedsReview { image_id, notes, matches } => record is None,
    }
}

/// What is recorded of a decision.
pub fn assignment_for(decision: &VisualDecision) -> (record: Option<AssignmentRecord>)
    ensures
        is_recorded_as(*decision, record),
{
    match decision {
        VisualDecision::Assign(taken) => Some(
            AssignmentRecord {
                final_number: Some(taken.final_number.clone()),
                assignment_method: text::owned("assigned_by_visual_match"),
                confidence: taken.confidence,
                needs_review: false,
                notes: Some(taken.notes.clone()),
            },
        ),
        VisualDecision::Ambiguous { image_id, confidence, notes, matches } => Some(
            AssignmentRecord {
                final_number: None,
                assignment_method: text::owned("ambiguous"),
                confidence: *confidence,
                needs_review: true,
                notes: Some(notes.clone()),
            },
        ),
        VisualDecision::NeedsReview { image_id, notes, matches } => None,
    }
}

/// What is recorded of a decision is sorted accordingly: an image into the folder of the
/// number that it took over, one with conflicting evidence among the ambiguous ones. And
/// only the latter are to be reviewed.
pub proof fn recorded_decisions_have_folders(decision: VisualDecision, record: AssignmentRecord)
    requires
        is_recorded_as(decision, Some(record)),
    ensures
        record.needs_review <==> record.final_number is None,
        record.needs_review <==> decision is Ambiguous,
        sorter::folder_name(
            record.assignment_method@,
            text::optional_text(record.final_number),
        ) == (match text::optional_text(record.final_number) {
            Some(number) => number,
            None => "_ambiguous"@,
        }),
{
    reveal_strlit("assigned_by_visual_match");
    reveal_strlit("assigned_by_ocr");
    reveal_strlit("ambiguous");
}

/// What a list of matches says, up to the first `upto`.
pub open spec fn match_sayings(matches: Seq<VisualMatchRecord>, upto: nat) -> Seq<note::Saying>
    decreases upto,
{
    if upto == 0 {
        seq![note::words("top_k=["@)]
    } else {
        let record = matches[upto - 1];
        let start = if upto == 1 {
            match_sayings(matches, 0)
        } else {
            match_sayings(matches, (upto - 1) as nat).push(note::words(", "@))
        };
        start.push(note::words("#"@)).push(
            note::words(text::signed_decimal(record.rank as int)),
        ).push(note::words(" image="@)).push(
            note::words(text::signed_decimal(record.matched_anchor_image_id as int)),
        ).push(note::words(" number="@)).push(note::words(record.matched_number@)).push(
            note::words(" sim="@),
        ).push(note::fixed(record.similarity, 3))
    }
}

/// Lists matches for a log.
pub fn format_matches(matches: &Vec<VisualMatchRecord>) -> (note: Note)
    ensures
        note@ == match_sayings(matches@, matches@.len()).push(note::words("]"@)),
{
    let mut note = Note::of_text("top_k=[");
    let mut i: usize = 0;
    while i < matches.len()
        invariant
            i <= matches@.len(),
            note@ == match_sayings(matches@, i as nat),
        decreases matches@.len() - i,
    {
        if i > 0 {
            note.say(", ");
        }
        let record = &matches[i];
        let mut rank = String::new();
        text::push_signed(&mut rank, record.rank as i64);
        let mut image = String::new();
        text::push_signed(&mut image, record.matched_anchor_image_id);
        proof {
            assert(rank@ =~= text::signed_decimal(record.rank as int));
            assert(image@ =~= text::signed_decimal(record.matched_anchor_image_id as int));
        }
        note.say("#");
        note.say(rank.as_str());
        note.say(" image=");
        note.say(image.as_str());
        note.say(" number=");
        note.say(record.matched_number.as_str());
        note.say(" sim=");
        note.write(record.similarity, 3);
        i += 1;
    }
    note.say("]");
    note
}

/// The anchors that are looked at are the most similar ones, the most similar first and
/// equally similar ones in the order of the list: as many as were asked for, but at least
/// one, or all where there are fewer. No anchor that is left out is more similar than one of
/// them.
pub proof fn nearest_anchors_are_kept(
    scored: Seq<ScoredAnchor>,
    similarities: Seq<Score>,
    top_k: usize,
    p: int,
    other: usize,
)
    requires
        is_top(scored, similarities, top_k),
        0 <= p < scored.len(),
        other < similarities.len(),
    ensures
        scored.len() <= similarities.len(),
        scored.len() <= top_k || scored.len() == 1,
        scored.len() < top_k ==> scored.len() == similarities.len(),
        scored[p].anchor < similarities.len(),
        scored[p].similarity == similarities[scored[p].anchor as int],
        (forall|q: int| 0 <= q <= p ==> (#[trigger] scored[q]).anchor != other)
            ==> similarities[other as int].rank() < scored[p].similarity.rank() || (
        similarities[other as int].rank() == scored[p].similarity.rank() && scored[p].anchor
            < other),
        forall|q: int| 0 <= q < p ==> (#[trigger] scored[q]).anchor != scored[p].anchor,
{
    let keys = similarity_keys(similarities);
    let order = choose|order: Seq<usize>|
        #[trigger] ranking::is_ranking(order, keys) && scored.len() == kept(
            similarities.len(),
            top_k,
        ) && forall|q: int|
            0 <= q < scored.len() ==> (#[trigger] scored[q]).anchor == order[q]
                && scored[q].similarity == similarities[order[q] as int];
    assert(order[p] < keys.len());
    assert forall|q: int| 0 <= q < p implies (#[trigger] scored[q]).anchor != scored[p].anchor by {
        ranking::rankings_go_down(order, keys, q, p);
    }
    ranking::every_item_is_ranked(order, keys, other);
    let r = choose|r: int| 0 <= r < order.len() && order[r] == other;
    if r > p {
        ranking::rankings_go_down(order, keys, p, r);
        crate::score::every_pattern_has_its_rank(similarities[other as int], scored[p].similarity);
        crate::score::every_pattern_has_its_rank(scored[p].similarity, similarities[other as int]);
        assert(keys[other as int].1 == similarities[other as int].rank());
        assert(keys[scored[p].anchor as int].1 == scored[p].similarity.rank());
    } else {
        assert(scored[r].anchor == other);
    }
}

proof fn lemma_members(numbers: Seq<Seq<char>>, values: Seq<Score>, number: Seq<char>, p: int)
    requires
        0 <= p < numbers.len() <= usize::MAX,
    ensures
        places_of(numbers, number).contains(p as usize) <==> numbers[p] == number,
        forall|i: int|
            0 <= i < places_of(numbers, number).len() ==> (#[trigger] places_of(numbers, number)[i])
                < numbers.len(),
        forall|i: int, j: int|
            0 <= i < j < places_of(numbers, number).len() ==> (#[trigger] places_of(
                numbers,
                number,
            )[i]) < (#[trigger] places_of(numbers, number)[j]),
        !best_of(numbers, values, number).nan(),
        best_of(numbers, values, number).value() >= 0,
        numbers[p] == number && !values[p].nan() ==> best_of(numbers, values, number).value()
            >= values[p].value(),
    decreases numbers.len(),
{
    let rest = numbers.drop_last();
    let before = places_of(rest, number);
    let now = places_of(numbers, number);
    let last = (numbers.len() - 1) as usize;
    assert(Score { bits: 0 }.value() == 0) by {
        assert(crate::score::scaled(0) == 0);
    }
    if rest.len() > 0 {
        let seen = if p < rest.len() {
            p
        } else {
            0
        };
        lemma_members(rest, values, number, seen);
    } else {
        assert(before =~= Seq::<usize>::empty());
        assert(best_of(rest, values, number) == (Score { bits: 0 }));
    }
    crate::score::the_larger_is_above_both(best_of(rest, values, number), values[last as int]);
    if p < rest.len() {
        assert(rest[p] == numbers[p]);
        if before.contains(p as usize) {
            let i = choose|i: int| 0 <= i < before.len() && before[i] == p as usize;
            assert(now[i] == p as usize);
        }
        if now.contains(p as usize) {
            let i = choose|i: int| 0 <= i < now.len() && now[i] == p as usize;
            assert(i < before.len());
            assert(before[i] == p as usize);
        }
    } else if numbers.last() == number {
        assert(now[before.len() as int] == p as usize);
    }
}

proof fn lemma_best_is_reached(numbers: Seq<Seq<char>>, values: Seq<Score>, number: Seq<char>)
    ensures
        best_of(numbers, values, number) == (Score { bits: 0 }) || exists|p: int|
            0 <= p < numbers.len() && #[trigger] numbers[p] == number && values[p] == best_of(
                numbers,
                values,
                number,
            ),
    decreases numbers.len(),
{
    if numbers.len() > 0 {
        let rest = numbers.drop_last();
        lemma_best_is_reached(rest, values, number);
        let best = best_of(rest, values, number);
        if best != (Score { bits: 0 }) {
            let p = choose|p: int|
                0 <= p < rest.len() && #[trigger] rest[p] == number && values[p] == best;
            assert(numbers[p] == number);
        }
        assert(numbers[numbers.len() - 1] == numbers.last());
    }
}

/// Each of the anchors that are looked at votes for its own number and for no other one, and
/// for it once. A vote is as similar as the most similar anchor among its members, and as
/// sure as the surest one.
pub proof fn anchors_vote_for_their_numbers(
    tally: AnchorTally,
    anchors: Seq<AnchorEmbedding>,
    v: int,
    p: int,
)
    requires
        tally.wf(anchors),
        0 <= v < tally.votes@.len(),
        0 <= p < tally.scored@.len(),
    ensures
        ({
            let vote = tally.votes@[v];
            let anchor = anchors[tally.scored@[p].anchor as int];
            &&& vote.members@.contains(p as usize) <==> anchor.number@ == vote.number@
            &&& vote.members@.no_duplicates()
            &&& anchor.number@ == vote.number@ && !tally.scored@[p].similarity.nan()
                ==> vote.best_similarity.value() >= tally.scored@[p].similarity.value()
            &&& anchor.number@ == vote.number@ && !anchor.assignment_confidence.nan()
                ==> vote.anchor_confidence.value() >= anchor.assignment_confidence.value()
            &&& vote.best_similarity.bits == 0 || exists|q: int|
                0 <= q < tally.scored@.len() && (#[trigger] tally.scored@[q]).similarity
                    == vote.best_similarity && anchors[tally.scored@[q].anchor as int].number@
                    == vote.number@
            &&& vote.anchor_confidence.bits == 0 || exists|q: int|
                0 <= q < tally.scored@.len() && anchors[(
                #[trigger] tally.scored@[q]).anchor as int].assignment_confidence
                    == vote.anchor_confidence && anchors[tally.scored@[q].anchor as int].number@
                    == vote.number@
        }),
        exists|u: int|
            0 <= u < tally.votes@.len() && (#[trigger] tally.votes@[u]).number@
                == anchors[tally.scored@[p].anchor as int].number@,
        forall|u: int|
            0 <= u < tally.votes@.len() && u != v ==> (#[trigger] tally.votes@[u]).number@
                != tally.votes@[v].number@,
{
    let numbers = numbers_of(tally.scored@, anchors);
    let similarities = similarities_of(tally.scored@);
    let confidences = confidences_of(tally.scored@, anchors);
    let number = distinct(numbers)[v];
    assert(tally.scored@.len() == tally.scored.len());
    assert(is_vote(tally.votes@[v], numbers, similarities, confidences, number));
    lemma_distinct(numbers);
    lemma_members(numbers, similarities, number, p);
    lemma_members(numbers, confidences, number, p);
    lemma_best_is_reached(numbers, similarities, number);
    lemma_best_is_reached(numbers, confidences, number);
    let vote = tally.votes@[v];
    if vote.best_similarity.bits != 0 {
        let q = choose|q: int|
            0 <= q < numbers.len() && #[trigger] numbers[q] == number && similarities[q]
                == vote.best_similarity;
        assert(tally.scored@[q].similarity == vote.best_similarity);
    }
    if vote.anchor_confidence.bits != 0 {
        let q = choose|q: int|
            0 <= q < numbers.len() && #[trigger] numbers[q] == number && confidences[q]
                == vote.anchor_confidence;
        assert(anchors[tally.scored@[q].anchor as int].assignment_confidence
            == vote.anchor_confidence);
    }
    assert(numbers.contains(numbers[p]));
    assert(distinct(numbers).contains(numbers[p]));
    let u = choose|u: int| 0 <= u < distinct(numbers).len() && distinct(numbers)[u] == numbers[p];
    assert(is_vote(tally.votes@[u], numbers, similarities, confidences, distinct(numbers)[u]));
    assert(tally.votes@[u].number@ == numbers[p]);
    assert forall|u: int| 0 <= u < tally.votes@.len() && u != v implies (
    #[trigger] tally.votes@[u]).number@ != tally.votes@[v].number@ by {
        assert(is_vote(tally.votes@[u], numbers, similarities, confidences, distinct(numbers)[u]));
    }
}

/// The strongest vote has the most members; of those with as many, none is more similar on
/// the average, and of those with the same average none is more similar at best.
pub proof fn the_most_votes_win(votes: Seq<NumberVote>, scores: Seq<VoteScores>, other: usize)
    requires
        votes.len() <= usize::MAX,
        other < votes.len(),
    ensures
        ({
            let order = ranked(votes, scores);
            let winner = order[0] as int;
            let few = votes[other as int].members@.len();
            &&& order.len() == votes.len()
            &&& 0 <= winner < votes.len()
            &&& few <= votes[winner].members@.len()
            &&& few == votes[winner].members@.len() ==> {
                &&& scores[other as int].average.rank() <= scores[winner].average.rank()
                &&& scores[other as int].average.rank() == scores[winner].average.rank()
                    ==> votes[other as int].best_similarity.rank()
                    <= votes[winner].best_similarity.rank()
            }
        }),
{
    let keys = vote_keys(votes, scores);
    let some = ranking::ranking_exists(keys);
    let order = ranked(votes, scores);
    assert(ranking::is_ranking(order, keys));
    let winner = order[0] as int;
    ranking::every_item_is_ranked(order, keys, other);
    let r = choose|r: int| 0 <= r < order.len() && order[r] == other;
    crate::score::every_pattern_has_its_rank(scores[other as int].average, scores[winner].average);
    crate::score::every_pattern_has_its_rank(scores[winner].average, scores[other as int].average);
    crate::score::every_pattern_has_its_rank(
        votes[other as int].best_similarity,
        votes[winner].best_similarity,
    );
    crate::score::every_pattern_has_its_rank(
        votes[winner].best_similarity,
        votes[other as int].best_similarity,
    );
    if r > 0 {
        ranking::rankings_go_down(order, keys, 0, r);
    }
}

/// What becomes of a candidate whose anchors vote for one number more than for any other.
/// It takes over that number where the nearest anchor is similar enough, no anchor with
/// another number is too similar, enough anchors agree and the confidence suffices. It is
/// ambiguous where the nearest anchor is similar enough but an anchor with another number is
/// too similar, or too few anchors agree and there is another number at all. In every other
/// case it is left for review.
pub proof fn clear_winners_are_judged_by_the_thresholds(
    decision: VisualDecision,
    candidate: CandidateEmbedding,
    anchors: Seq<AnchorEmbedding>,
    tally: AnchorTally,
    scores: Seq<VoteScores>,
    config: VisualMatcherConfig,
    w: int,
)
    requires
        tally.wf(anchors),
        scores.len() == tally.votes@.len(),
        is_decision(decision, candidate, anchors, tally, scores, config),
        tally.scored@.len() > 0,
        0 <= w < tally.votes@.len(),
        forall|u: int|
            0 <= u < tally.votes@.len() && u != w ==> (#[trigger] tally.votes@[u]).members@.len()
                < tally.votes@[w].members@.len(),
    ensures
        ({
            let unlike = tally.scored@[0].similarity.lt(config.min_visual_similarity);
            let conflict = exists|u: int|
                0 <= u < tally.votes@.len() && u != w && (
                #[trigger] tally.votes@[u]).best_similarity.ge(
                    config.max_conflicting_anchor_similarity,
                );
            let few = scores[w].agreement.lt(config.min_topk_agreement);
            let unsure = scores[w].confidence.lt(config.min_confidence);
            let rivals = tally.votes@.len() > 1;
            &&& decision is Assign <==> !unlike && !conflict && !few && !unsure
            &&& decision is Ambiguous <==> !unlike && (conflict || (few && rivals))
            &&& decision is NeedsReview <==> unlike || (!conflict && ((few && !rivals) || (!few
                && unsure)))
            &&& decision matches VisualDecision::Assign(taken) ==> taken.final_number@
                == tally.votes@[w].number@ && taken.confidence == scores[w].confidence
                && taken.image_id == candidate.image_id
            &&& decision matches VisualDecision::Ambiguous { image_id, confidence, notes, matches }
                ==> image_id == candidate.image_id && (conflict ==> confidence.ge(
                config.max_conflicting_anchor_similarity,
            )) && (!conflict ==> confidence == tally.votes@[w].best_similarity)
            &&& decision matches VisualDecision::NeedsReview { image_id, notes, matches }
                ==> image_id == candidate.image_id
        }),
{
    let votes = tally.votes@;
    let numbers = numbers_of(tally.scored@, anchors);
    let similarities = similarities_of(tally.scored@);
    let confidences = confidences_of(tally.scored@, anchors);
    assert(votes.len() == tally.votes.len());
    the_most_votes_win(votes, scores, w as usize);
    let keys = vote_keys(votes, scores);
    let order = ranked(votes, scores);
    let some = ranking::ranking_exists(keys);
    assert(ranking::is_ranking(order, keys));
    assert(order[0] as int == w);
    rival_is_strongest(votes, order, order.len());
    let limit = config.max_conflicting_anchor_similarity;
    if order.len() > 1 {
        let q = rival(votes, order, order.len())->0;
        let strongest = order[q] as int;
        ranking::rankings_go_down(order, keys, 0, q);
        assert(is_vote(votes[strongest], numbers, similarities, confidences,
            distinct(numbers)[strongest]));
        lemma_best_is_number(numbers, similarities, distinct(numbers)[strongest]);
        assert forall|u: int| 0 <= u < votes.len() && u != w && (
        #[trigger] votes[u]).best_similarity.ge(limit) implies votes[strongest].best_similarity.ge(
            limit,
        ) by {
            ranking::every_item_is_ranked(order, keys, u as usize);
            let p = choose|p: int| 0 <= p < order.len() && order[p] == u;
            assert(votes[order[p] as int].best_similarity.rank()
                <= votes[strongest].best_similarity.rank());
            assert(is_vote(votes[u], numbers, similarities, confidences, distinct(numbers)[u]));
            lemma_best_is_number(numbers, similarities, distinct(numbers)[u]);
            crate::score::rank_follows_value(votes[u].best_similarity, votes[strongest].best_similarity);
            crate::score::rank_follows_value(votes[strongest].best_similarity, votes[u].best_similarity);
        }
        assert(votes[strongest].best_similarity.ge(limit) ==> exists|u: int|
            0 <= u < votes.len() && u != w && (#[trigger] votes[u]).best_similarity.ge(limit));
    }
}

/// A candidate that no anchor could be compared with is left for review.
pub proof fn nothing_is_decided_without_anchors(
    decision: VisualDecision,
    candidate: CandidateEmbedding,
    anchors: Seq<AnchorEmbedding>,
    tally: AnchorTally,
    scores: Seq<VoteScores>,
    config: VisualMatcherConfig,
)
    requires
        is_decision(decision, candidate, anchors, tally, scores, config),
        tally.scored@.len() == 0,
    ensures
        decision is NeedsReview,
{
}

/// The matches that are recorded are the anchors that were looked at, in that order, ranked
/// from one on, each with its own number and similarity.
pub proof fn matches_are_ranked_from_one(
    matches: Seq<VisualMatchRecord>,
    image_id: i64,
    scored: Seq<ScoredAnchor>,
    anchors: Seq<AnchorEmbedding>,
    p: int,
)
    requires
        are_matches(matches, image_id, scored, anchors),
        0 <= p < scored.len(),
    ensures
        matches.len() == scored.len(),
        matches[0].rank == 1,
        p > 0 ==> matches[p].rank == matches[p - 1].rank + 1,
        matches[p].image_id == image_id,
        matches[p].matched_anchor_image_id == anchors[scored[p].anchor as int].image_id,
        matches[p].matched_number@ == anchors[scored[p].anchor as int].number@,
        matches[p].similarity == scored[p].similarity,
{
}

/// One decision more is one more of its own sort, and of no other.
pub proof fn decisions_are_counted_by_sort(decisions: Seq<VisualDecision>, next: VisualDecision)
    ensures
        assigned_count(decisions.push(next)) == assigned_count(decisions) + (if next is Assign {
            1nat
        } else {
            0
        }),
        ambiguous_count(decisions.push(next)) == ambiguous_count(decisions) + (if next is Ambiguous {
            1nat
        } else {
            0
        }),
        weak_count(decisions.push(next)) == weak_count(decisions) + (if next is NeedsReview {
            1nat
        } else {
            0
        }),
        assigned_count(Seq::empty()) == 0,
        ambiguous_count(Seq::empty()) == 0,
        weak_count(Seq::empty()) == 0,
{
    reveal(Seq::filter);
    assert(decisions.push(next).drop_last() =~= decisions);
}

/// The remark on a number that too few anchors agree on tells the number, how many agree and
/// how many should, both with two places, and what the number would have been.
pub proof fn missing_agreement_is_remarked(
    number: Seq<char>,
    agreement: Score,
    wanted: Score,
    status: Seq<char>,
)
    ensures
        agreement_note(number, agreement, wanted, status) == seq![
            note::words("winner="@),
            note::words(number),
            note::words(" agreement "@),
            note::fixed(agreement, 2),
            note::words(" is below min_topk_agreement "@),
            note::fixed(wanted, 2),
            note::words("; previous_status="@),
            note::words(status),
        ],
{
}

/// A list of matches names each one with its rank, its image, its number and its similarity to
/// three places, and puts commas between them.
pub proof fn matches_are_listed_in_order(matches: Seq<VisualMatchRecord>, n: nat)
    requires
        n < matches.len(),
    ensures
        match_sayings(matches, 0) == seq![note::words("top_k=["@)],
        ({
            let record = matches[n as int];
            let said = seq![
                note::words("#"@),
                note::words(text::signed_decimal(record.rank as int)),
                note::words(" image="@),
                note::words(text::signed_decimal(record.matched_anchor_image_id as int)),
                note::words(" number="@),
                note::words(record.matched_number@),
                note::words(" sim="@),
                note::fixed(record.similarity, 3),
            ];
            &&& n == 0 ==> match_sayings(matches, n + 1) == seq![note::words("top_k=["@)] + said
            &&& n > 0 ==> match_sayings(matches, n + 1) == match_sayings(matches, n) + seq![
                note::words(", "@),
            ] + said
        }),
{
    reveal_with_fuel(match_sayings, 2);
}

/// Whatever number is ranked first among the votes, it is judged by the thresholds: it is
/// taken over where the nearest anchor is similar enough, the strongest vote for another
/// number is not too similar, enough anchors agree and the confidence suffices. Each decision
/// says why it came out as it did.
pub proof fn decisions_tell_why(
    decision: VisualDecision,
    candidate: CandidateEmbedding,
    anchors: Seq<AnchorEmbedding>,
    tally: AnchorTally,
    scores: Seq<VoteScores>,
    config: VisualMatcherConfig,
    w: int,
)
    requires
        is_decision(decision, candidate, anchors, tally, scores, config),
        ranked(tally.votes@, scores)[0] as int == w,
    ensures
        ({
            let unlike = tally.scored@[0].similarity.lt(config.min_visual_similarity);
            let few = scores[w].agreement.lt(config.min_topk_agreement);
            let unsure = scores[w].confidence.lt(config.min_confidence);
            let status = candidate.status@;
            let number = tally.votes@[w].number@;
            let missing = agreement_note(
                number,
                scores[w].agreement,
                config.min_topk_agreement,
                status,
            );
            &&& tally.scored@.len() == 0 ==> (decision matches VisualDecision::NeedsReview {
                notes,
                ..
            } && notes@ == seq![note::words("no anchors available after scoring"@)])
            &&& tally.scored@.len() > 0 && unlike ==> (
            decision matches VisualDecision::NeedsReview { notes, .. } && notes@ == seq![
                note::words("best visual similarity "@),
                note::fixed(tally.scored@[0].similarity, 3),
                note::words(" is below min_visual_similarity "@),
                note::fixed(config.min_visual_similarity, 3),
                note::words("; previous_status="@),
                note::words(status),
            ])
            &&& tally.scored@.len() > 0 && !unlike ==> (
            decision matches VisualDecision::NeedsReview { notes, .. } ==> (few || unsure) && (few
                ==> notes@ == missing) && (!few ==> notes@ == seq![
                note::words("visual confidence "@),
                note::fixed(scores[w].confidence, 3),
                note::words(" is below min_confidence "@),
                note::fixed(config.min_confidence, 3),
                note::words("; winner="@),
                note::words(number),
                note::words(" avg_similarity="@),
                note::fixed(scores[w].average, 3),
                note::words(" agreement="@),
                note::fixed(scores[w].agreement, 2),
                note::words("; previous_status="@),
                note::words(status),
            ]))
            &&& decision matches VisualDecision::Assign(taken) ==> !unlike && !few && !unsure
                && taken.final_number@ == number && taken.notes@ == seq![
                note::words("visual match from "@),
                note::words(text::decimal(tally.scored@.len())),
                note::words(" top anchors; avg_similarity="@),
                note::fixed(scores[w].average, 3),
                note::words(", agreement="@),
                note::fixed(scores[w].agreement, 2),
                note::words(", anchor_confidence="@),
                note::fixed(tally.votes@[w].anchor_confidence, 3),
                note::words(", previous_status="@),
                note::words(status),
                note::words(", file="@),
                note::words(paths::shown(candidate.file_path@)),
            ]
            &&& decision matches VisualDecision::Ambiguous { notes, confidence, .. } ==> !unlike
                && (notes@ == missing && few && confidence == tally.votes@[w].best_similarity
                || exists|u: int|
                (#[trigger] tally.votes@[u]).best_similarity.ge(
                    config.max_conflicting_anchor_similarity,
                ) && confidence == tally.votes@[u].best_similarity && notes@ == seq![
                    note::words("conflicting anchor number "@),
                    note::words(tally.votes@[u].number@),
                    note::words(" similarity "@),
                    note::fixed(tally.votes@[u].best_similarity, 3),
                    note::words(" exceeds max_conflicting_anchor_similarity "@),
                    note::fixed(config.max_conflicting_anchor_similarity, 3),
                    note::words("; winner="@),
                    note::words(number),
                    note::words(" agreement="@),
                    note::fixed(scores[w].agreement, 2),
                    note::words("; previous_status="@),
                    note::words(status),
                ])
        }),
{
    let votes = tally.votes@;
    let order = ranked(votes, scores);
    let other = order[rival(votes, order, order.len())->0] as int;
    assert(votes[other] == votes[other]);
}

/// Numbers stand in the order in which they first occur: one that occurs again changes
/// nothing, and a new one comes last.
pub proof fn numbers_stand_as_they_first_occur(numbers: Seq<Seq<char>>, next: Seq<char>)
    ensures
        numbers.contains(next) ==> distinct(numbers.push(next)) == distinct(numbers),
        !numbers.contains(next) ==> distinct(numbers.push(next)) == distinct(numbers).push(next),
        distinct(Seq::empty()).len() == 0,
{
    lemma_distinct(numbers);
    assert(numbers.push(next).drop_last() =~= numbers);
    assert(distinct(numbers).contains(next) <==> numbers.contains(next));
}

/// A number that is taken over is recorded with its confidence and its remark, as assigned by
/// visual match and not for review; conflicting evidence is recorded as ambiguous, without a
/// number and for review; and of a candidate that is left for review nothing is recorded.
pub proof fn decisions_are_recorded_by_sort(decision: VisualDecision, record: Option<AssignmentRecord>)
    requires
        is_recorded_as(decision, record),
    ensures
        record is None <==> decision is NeedsReview,
        decision matches VisualDecision::Assign(taken) ==> (record matches Some(r)
            && r.final_number is Some && r.final_number->0@ == taken.final_number@ && r.confidence
            == taken.confidence && !r.needs_review && r.assignment_method@
            == "assigned_by_visual_match"@ && r.notes is Some && r.notes->0@ == taken.notes@),
        decision matches VisualDecision::Ambiguous { confidence: found, notes: why, .. } ==> (
        record matches Some(r) && r.final_number is None && r.confidence == found && r.needs_review
            && r.assignment_method@ == "ambiguous"@ && r.notes is Some && r.notes->0@ == why@),
{
}

}
