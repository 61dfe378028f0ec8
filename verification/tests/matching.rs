use numera::note::Note;
use numera::paths::FilePath;
use numera::ranking::rank_keys;
use numera::score::Score;
use numera::visual_matcher::{
    assignment_for, evaluate_candidate, format_matches, matches_from_scored, ranked_numbers,
    run_anchor_visual_matching, scored_anchors, tally_anchors, AnchorEmbedding, CandidateEmbedding,
    PreparedCandidate, VisualAssignmentRecord, VisualDecision,
    VisualMatcherConfig, VoteScores,
};

fn score(v: f32) -> Score {
    Score { bits: v.to_bits() }
}

fn scores(values: &[f32]) -> Vec<Score> {
    values.iter().map(|v| score(*v)).collect()
}

fn said(note: &Note) -> String {
    let mut all = String::new();
    for part in &note.parts {
        match &part.number {
            Some(n) => all += &format!("{:.*}", n.places as usize, f32::from_bits(n.score.bits)),
            None => all += &part.words,
        }
    }
    all
}

fn anchors(numbers: &[&str]) -> Vec<AnchorEmbedding> {
    numbers
        .iter()
        .enumerate()
        .map(|(i, n)| AnchorEmbedding {
            image_id: 100 + i as i64,
            number: n.to_string(),
            assignment_confidence: score(0.5 + 0.1 * i as f32),
        })
        .collect()
}

fn candidate() -> CandidateEmbedding {
    CandidateEmbedding {
        image_id: 7,
        file_path: FilePath::parse(b"/in/a.jpg"),
        status: "needs_review".to_string(),
    }
}

fn vote(average: f32, agreement: f32, confidence: f32) -> VoteScores {
    VoteScores {
        average: score(average),
        agreement: score(agreement),
        confidence: score(confidence),
    }
}

/// The decision on a candidate that resembles anchors with these numbers by so
/// much, with what was computed from their votes.
fn decide(numbers: &[&str], similarities: &[f32], votes: Vec<VoteScores>) -> VisualDecision {
    let anchors = anchors(numbers);
    let tally = tally_anchors(&scores(similarities), &anchors, 5);
    assert_eq!(tally.votes.len(), votes.len());
    evaluate_candidate(&candidate(), &anchors, &tally, &votes, &VisualMatcherConfig::default())
}

#[test]
fn scores_are_compared_as_numbers() {
    assert!(score(0.1).is_below(score(0.2)));
    assert!(!score(-0.0).is_below(score(0.0)) && score(-0.0).is_at_least(score(0.0)));
    assert!(score(-2.0).is_below(score(-1.0)));
    assert!(!score(f32::NAN).is_below(score(1.0)) && !score(f32::NAN).is_at_least(score(1.0)));
    assert!(score(f32::NAN).is_nan() && !score(f32::INFINITY).is_finite());
    for pair in [-1.5f32, -0.0, 0.0, 1.0e-40, 0.3, 7.0].windows(2) {
        assert!(score(pair[0]).order_rank() <= score(pair[1]).order_rank());
    }
    assert_eq!(score(1.5).clamp_to(score(-1.0), score(1.0)), score(1.0));
    assert_eq!(score(-1.5).clamp_to(score(-1.0), score(1.0)), score(-1.0));
    assert_eq!(score(0.5).clamp_to(score(-1.0), score(1.0)), score(0.5));
    assert_eq!(score(0.5).max_with(score(0.25)), score(0.5));
    assert_eq!(score(f32::NAN).max_with(score(0.25)), score(0.25));
}

#[test]
fn equal_keys_keep_their_order() {
    assert_eq!(rank_keys(&vec![(1, 0, 0), (3, 0, 0), (3, 1, 0), (1, 0, 0)]), [2, 1, 0, 3]);
    assert!(rank_keys(&vec![]).is_empty());
}

#[test]
fn the_most_similar_anchors_come_first() {
    let top = |k| -> Vec<usize> {
        scored_anchors(&scores(&[0.5, 0.9, 0.7, 0.9]), k).iter().map(|s| s.anchor).collect()
    };
    assert_eq!(top(3), [1, 3, 2]);
    assert_eq!(top(0), [1]);
    assert_eq!(top(9), [1, 3, 2, 0]);
}

#[test]
fn anchors_vote_for_their_number() {
    let anchors = anchors(&["82", "7", "82"]);
    let tally = tally_anchors(&scores(&[0.8, 0.95, 0.9]), &anchors, 5);
    let numbers: Vec<&str> = tally.votes.iter().map(|v| v.number.as_str()).collect();
    assert_eq!(numbers, ["7", "82"]);
    assert_eq!(tally.votes[1].members, [1, 2]);
    assert_eq!(tally.votes[1].best_similarity, score(0.9));
    assert_eq!(tally.votes[1].anchor_confidence, score(0.5 + 0.1 * 2.0));
    let order =
        ranked_numbers(&tally.votes, &vec![vote(0.95, 0.33, 0.6), vote(0.85, 0.67, 0.8)]);
    assert_eq!(order, [1, 0]);
    let matches = matches_from_scored(7, &tally.scored, &anchors);
    assert_eq!(
        said(&format_matches(&matches)),
        "top_k=[#1 image=101 number=7 sim=0.950, #2 image=102 number=82 sim=0.900, \
         #3 image=100 number=82 sim=0.800]"
    );
    assert_eq!(said(&format_matches(&vec![])), "top_k=[]");
}

#[test]
fn clear_matches_are_taken_over() {
    match decide(&["82", "82"], &[0.95, 0.93], vec![vote(0.94, 1.0, 0.94)]) {
        VisualDecision::Assign(record) => {
            assert_eq!((record.image_id, record.final_number.as_str()), (7, "82"));
            assert_eq!(record.confidence, score(0.94));
            assert_eq!(record.matches.len(), 2);
            assert_eq!(record.matches[0].rank, 1);
            assert_eq!(
                said(&record.notes),
                "visual match from 2 top anchors; avg_similarity=0.940, agreement=1.00, \
                 anchor_confidence=0.600, previous_status=needs_review, file=/in/a.jpg"
            );
        }
        other => panic!("{:?}", other),
    }
}

/// What is said of a candidate that is left for review.
fn review(decision: VisualDecision) -> String {
    match decision {
        VisualDecision::NeedsReview { image_id, notes, .. } => {
            assert_eq!(image_id, 7);
            said(&notes)
        }
        other => panic!("{:?}", other),
    }
}

#[test]
fn weak_matches_are_left_for_review() {
    assert_eq!(review(decide(&[], &[], vec![])), "no anchors available after scoring");
    assert_eq!(
        review(decide(&["82"], &[0.5], vec![vote(0.5, 1.0, 0.5)])),
        "best visual similarity 0.500 is below min_visual_similarity 0.900; \
         previous_status=needs_review"
    );
    assert_eq!(
        review(decide(&["82", "82"], &[0.95, 0.7], vec![vote(0.825, 1.0, 0.8)])),
        "visual confidence 0.800 is below min_confidence 0.880; winner=82 avg_similarity=0.825 \
         agreement=1.00; previous_status=needs_review"
    );
    let few = review(decide(&["82"], &[0.95], vec![vote(0.95, 0.5, 0.9)]));
    assert!(few.contains("82") && few.contains("0.50"), "{}", few);
}

#[test]
fn contradicted_matches_are_ambiguous() {
    match decide(
        &["82", "7"],
        &[0.95, 0.9],
        vec![vote(0.95, 0.5, 0.9), vote(0.9, 0.5, 0.9)],
    ) {
        VisualDecision::Ambiguous { image_id, confidence, notes, matches } => {
            assert_eq!((image_id, confidence, matches.len()), (7, score(0.9), 2));
            assert_eq!(
                said(&notes),
                "conflicting anchor number 7 similarity 0.900 exceeds \
                 max_conflicting_anchor_similarity 0.880; winner=82 agreement=0.50; \
                 previous_status=needs_review"
            );
        }
        other => panic!("{:?}", other),
    }
    match decide(
        &["82", "7"],
        &[0.95, 0.8],
        vec![vote(0.95, 0.5, 0.9), vote(0.8, 0.5, 0.8)],
    ) {
        VisualDecision::Ambiguous { confidence, .. } => assert_eq!(confidence, score(0.95)),
        other => panic!("{:?}", other),
    }
}

#[test]
fn runs_need_anchors_and_count_decisions() {
    let config = VisualMatcherConfig::default();
    assert_eq!((config.top_k, config.min_anchor_count), (5, 2));
    assert_eq!(config.min_visual_similarity, score(0.90));
    assert_eq!(config.min_topk_agreement, score(0.60));
    assert_eq!(config.max_conflicting_anchor_similarity, score(0.88));
    assert_eq!(config.min_confidence, score(0.88));
    let prepare = |anchors: &Vec<AnchorEmbedding>, similarities: &[f32], votes| PreparedCandidate {
        candidate: candidate(),
        tally: tally_anchors(&scores(similarities), anchors, config.top_k),
        scores: votes,
    };
    let two = anchors(&["82", "7"]);
    let run = run_anchor_visual_matching(
        &two,
        &vec![
            prepare(&two, &[0.95, 0.1], vec![vote(0.95, 0.8, 0.9), vote(0.1, 0.2, 0.1)]),
            prepare(&two, &[0.95, 0.9], vec![vote(0.95, 0.5, 0.9), vote(0.9, 0.5, 0.9)]),
            prepare(&two, &[0.5, 0.4], vec![vote(0.5, 0.5, 0.5), vote(0.4, 0.5, 0.4)]),
        ],
        &config,
    );
    let s = run.summary;
    assert_eq!((s.anchors, s.candidates, s.assigned, s.ambiguous, s.weak), (2, 3, 1, 1, 1));
    assert_eq!(run.decisions.len(), 3);

    let one = anchors(&["82"]);
    let run = run_anchor_visual_matching(
        &one,
        &vec![prepare(&one, &[0.99], vec![vote(0.99, 1.0, 0.99)])],
        &config,
    );
    assert!(run.decisions.is_empty());
    assert_eq!((run.summary.candidates, run.summary.assigned, run.summary.weak), (1, 0, 1));
}

#[test]
fn decisions_are_recorded_by_method() {
    let taken = VisualDecision::Assign(VisualAssignmentRecord {
        image_id: 1,
        final_number: "82".to_string(),
        confidence: score(0.9),
        notes: Note::of_text("sure"),
        matches: Vec::new(),
    });
    let record = assignment_for(&taken).unwrap();
    assert_eq!(record.final_number.as_deref(), Some("82"));
    assert_eq!(record.assignment_method, "assigned_by_visual_match");
    assert_eq!((record.confidence, record.needs_review), (score(0.9), false));
    assert_eq!(record.notes.unwrap().parts[0].words, "sure");
    let unclear = VisualDecision::Ambiguous {
        image_id: 2,
        confidence: score(0.8),
        notes: Note::of_text("two numbers"),
        matches: Vec::new(),
    };
    let record = assignment_for(&unclear).unwrap();
    assert!(record.final_number.is_none() && record.needs_review);
    assert_eq!(record.assignment_method, "ambiguous");
    assert_eq!(record.confidence, score(0.8));
    let weak = VisualDecision::NeedsReview {
        image_id: 3,
        notes: Note::of_text("weak"),
        matches: Vec::new(),
    };
    assert!(assignment_for(&weak).is_none());
}
