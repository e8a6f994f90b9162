use speki::card::RecallGrade;
use speki::session::{
    IncSelect, IncSelection, Intent, RevSelect, ReviewAction, ReviewList, ReviewMode, ReviewSelection, UnfSelect,
    UnfSelection,
};

fn front_id(s: &ReviewList) -> Option<u32> {
    match s.mode {
        ReviewMode::Done => None,
        ReviewMode::Review(c) | ReviewMode::Pending(c) => Some(c.id),
        ReviewMode::Unfinished(u) => Some(u.id),
        ReviewMode::IncRead(m) => Some(m.id),
    }
}

#[test]
fn session_runs_unfinished_then_review_then_done() {
    let mut s = ReviewList::new(vec![3, 9], vec![], vec![7], vec![]);
    assert!(matches!(s.mode, ReviewMode::Unfinished(_)));
    assert_eq!(front_id(&s), Some(7));
    assert_eq!(s.handle(Intent::Finish, 100), ReviewAction::MakeFinished { id: 7 });
    assert!(matches!(s.mode, ReviewMode::Review(_)));
    assert_eq!(front_id(&s), Some(3));
    assert_eq!(s.handle(Intent::Reveal, 100), ReviewAction::Nothing);
    assert_eq!(
        s.handle(Intent::Grade(RecallGrade::Easy), 101),
        ReviewAction::RecordReview { id: 3, grade: RecallGrade::Easy, date: 101 }
    );
    assert_eq!(front_id(&s), Some(9));
    s.handle(Intent::Reveal, 102);
    assert_eq!(
        s.handle(Intent::Grade(RecallGrade::Failed), 103),
        ReviewAction::RecordReview { id: 9, grade: RecallGrade::Failed, date: 103 }
    );
    assert_eq!(s.mode, ReviewMode::Done);
    assert_eq!(s.handle(Intent::Finish, 104), ReviewAction::Nothing);
}

#[test]
fn grading_needs_a_revealed_answer() {
    let mut s = ReviewList::new(vec![3], vec![], vec![], vec![]);
    assert_eq!(s.handle(Intent::Grade(RecallGrade::Decent), 5), ReviewAction::Nothing);
    assert_eq!(front_id(&s), Some(3));
    assert!(matches!(s.mode, ReviewMode::Review(c) if !c.reveal));
    s.handle(Intent::Reveal, 5);
    assert!(matches!(s.mode, ReviewMode::Review(c) if c.reveal));
}

#[test]
fn categories_roll_over_in_fixed_order() {
    let mut s = ReviewList::new(vec![30], vec![10], vec![20], vec![40]);
    assert!(matches!(s.mode, ReviewMode::Pending(_)));
    assert_eq!(s.handle(Intent::Skip, 7), ReviewAction::MakeUnfinished { id: 10, skiptime: 7, skipduration: 1 });
    assert!(matches!(s.mode, ReviewMode::Unfinished(_)));
    assert_eq!(s.handle(Intent::Skip, 8), ReviewAction::SkipCard { id: 20, skiptime: 8 });
    assert!(matches!(s.mode, ReviewMode::Review(_)));
    assert_eq!(s.handle(Intent::Skip, 9), ReviewAction::Nothing);
    assert!(matches!(s.mode, ReviewMode::IncRead(_)));
    assert_eq!(s.handle(Intent::Skip, 10), ReviewAction::SkipInc { id: 40, skiptime: 10 });
    assert_eq!(s.mode, ReviewMode::Done);
}

#[test]
fn incread_complete_and_pending_finish() {
    let mut s = ReviewList::new(vec![], vec![1], vec![], vec![50]);
    assert_eq!(s.handle(Intent::Finish, 1), ReviewAction::MakeFinished { id: 1 });
    assert_eq!(s.handle(Intent::Finish, 2), ReviewAction::CompleteInc { id: 50 });
    assert_eq!(s.mode, ReviewMode::Done);
}

#[test]
fn empty_session_is_done() {
    let s = ReviewList::new(vec![], vec![], vec![], vec![]);
    assert_eq!(s.mode, ReviewMode::Done);
    assert_eq!(s.progress(), (1, 1));
    assert_eq!(s.remaining(), (0, 1));
}

#[test]
fn progress_grows_within_a_category() {
    let mut s = ReviewList::new(vec![1, 2, 3], vec![], vec![], vec![]);
    assert_eq!(s.progress(), (0, 3));
    assert_eq!(s.remaining(), (2, 3));
    s.handle(Intent::Skip, 0);
    assert_eq!(s.progress(), (1, 3));
    s.handle(Intent::Skip, 0);
    assert_eq!(s.progress(), (2, 3));
    s.handle(Intent::Skip, 0);
    assert_eq!(s.progress(), (1, 1));
}

#[test]
fn selection_flags_mark_exactly_the_focus() {
    let r = RevSelect::new(&ReviewSelection::Answer(false));
    assert!(r.answer && !r.question && !r.dependents && !r.dependencies);
    let u = UnfSelect::new(&UnfSelection::Complete);
    assert!(u.finish && !u.skip && !u.question && !u.answer && !u.dependents && !u.dependencies);
    let i = IncSelect::new(&IncSelection::Clozes(true));
    assert!(i.clozes && !i.source && !i.extracts && !i.skip && !i.complete);
}

#[test]
fn well_formedness_tracks_start_sizes() {
    let mut s = ReviewList::new(vec![1, 2], vec![], vec![], vec![]);
    assert!(s.is_well_formed());
    s.for_review.review_cards.push(3);
    s.for_review.review_cards.push(4);
    assert!(!s.is_well_formed());
}
