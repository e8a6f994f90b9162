use speki::card::{after_review, first_finished, next_stability, row2card, CardRow, CardType, RecallGrade, StoreError, TypeData};
use speki::deps::{check_acyclic, fill_dependencies, gate_review_queue, get_dependencies, get_dependents, DepPair};
use speki::card::Card;

fn row(cardtype: u32) -> CardRow {
    CardRow {
        id: 4,
        question: "q".to_string(),
        answer: "a".to_string(),
        frontaudio: Some("front.mp3".to_string()),
        backaudio: None,
        frontimage: None,
        backimage: None,
        cardtype,
        suspended: false,
        resolved: true,
        topic: 2,
        source: 0,
        position: 1,
        stability: Some(3),
        strength: Some(800),
        skiptime: None,
        skipduration: None,
    }
}

fn card(id: u32, data: TypeData, dependencies: Vec<u32>) -> Card {
    Card {
        id,
        question: String::new(),
        answer: String::new(),
        frontaudio: None,
        backaudio: None,
        frontimage: None,
        backimage: None,
        data,
        suspended: false,
        resolved: false,
        topic: 0,
        source: 0,
        position: 0,
        dependents: Vec::new(),
        dependencies,
    }
}

fn edge(dependent: u32, dependency: u32) -> DepPair {
    DepPair { dependent, dependency }
}

#[test]
fn cardtype_codes_round_trip() {
    for t in [CardType::Pending, CardType::Unfinished, CardType::Finished] {
        assert_eq!(CardType::from_code(t.code()), Ok(t));
    }
    assert_eq!(CardType::from_code(1), Ok(CardType::Unfinished));
    assert_eq!(CardType::from_code(3), Err(StoreError::InvariantViolation));
}

#[test]
fn row_decodes_into_typed_card() {
    let c = row2card(row(2)).unwrap();
    assert_eq!(c.id, 4);
    assert_eq!(c.cardtype(), CardType::Finished);
    assert_eq!(c.data, TypeData::Finished { stability: 3, strength: 800 });
    assert_eq!(c.frontaudio.as_deref(), Some("front.mp3"));
    assert!(c.resolved);
    assert!(c.dependencies.is_empty());
    let p = row2card(row(0)).unwrap();
    assert_eq!(p.data, TypeData::Pending);
}

#[test]
fn finished_row_with_zero_stability_is_an_invariant_violation() {
    let mut r = row(2);
    r.stability = Some(0);
    assert_eq!(row2card(r).err(), Some(StoreError::InvariantViolation));
}

#[test]
fn row_with_unknown_type_is_an_invariant_violation() {
    assert_eq!(row2card(row(7)).err(), Some(StoreError::InvariantViolation));
}

#[test]
fn row_without_its_type_columns_is_an_invariant_violation() {
    assert_eq!(row2card(row(1)).err(), Some(StoreError::InvariantViolation));
    let mut r = row(1);
    r.skiptime = Some(100);
    r.skipduration = Some(2);
    assert_eq!(row2card(r).unwrap().data, TypeData::Unfinished { skiptime: 100, skipduration: 2 });
}

#[test]
fn grades_decode_and_order_stability() {
    assert_eq!(RecallGrade::from(0), Some(RecallGrade::Blank));
    assert_eq!(RecallGrade::from(3), Some(RecallGrade::Easy));
    assert_eq!(RecallGrade::from(4), None);
    assert_eq!(RecallGrade::Decent.code(), 2);
    assert_eq!(next_stability(10, RecallGrade::Blank), 2);
    assert_eq!(next_stability(10, RecallGrade::Failed), 5);
    assert_eq!(next_stability(10, RecallGrade::Decent), 20);
    assert_eq!(next_stability(10, RecallGrade::Easy), 30);
    assert_eq!(next_stability(u32::MAX, RecallGrade::Easy), u32::MAX);
    assert_eq!(next_stability(1, RecallGrade::Failed), 1);
    assert_eq!(next_stability(2, RecallGrade::Blank), 1);
    assert_eq!(next_stability(0, RecallGrade::Decent), 1);
    assert_eq!(first_finished(), TypeData::Finished { stability: 1, strength: 1000 });
    assert_eq!(after_review(8, RecallGrade::Failed), TypeData::Finished { stability: 4, strength: 1000 });
}

#[test]
fn dependents_and_dependencies_are_inverse() {
    let edges = vec![edge(1, 2), edge(3, 2), edge(1, 4)];
    assert_eq!(get_dependents(&edges, 2), vec![1, 3]);
    assert_eq!(get_dependencies(&edges, 1), vec![2, 4]);
    for c in 0..6u32 {
        for d in 0..6u32 {
            assert_eq!(get_dependents(&edges, d).contains(&c), get_dependencies(&edges, c).contains(&d));
        }
    }
}

#[test]
fn fill_dependencies_attaches_both_sets() {
    let edges = vec![edge(1, 2), edge(3, 1)];
    let c = fill_dependencies(&edges, card(1, TypeData::Pending, Vec::new()));
    assert_eq!(c.dependencies, vec![2]);
    assert_eq!(c.dependents, vec![3]);
    assert_eq!(c.id, 1);
}

#[test]
fn gate_holds_back_unmet_prerequisites() {
    let fin = TypeData::Finished { stability: 1, strength: 1000 };
    let cards = vec![card(1, fin, Vec::new()), card(2, TypeData::Pending, Vec::new())];
    let candidates = vec![card(3, fin, vec![1]), card(4, fin, vec![2]), card(5, fin, vec![9])];
    assert_eq!(gate_review_queue(&candidates, &cards, true), vec![3]);
    assert_eq!(gate_review_queue(&candidates, &cards, false), vec![3, 4, 5]);
}

#[test]
fn cycles_are_rejected() {
    assert_eq!(check_acyclic(&vec![]), Ok(()));
    assert_eq!(check_acyclic(&vec![edge(1, 2), edge(2, 3), edge(1, 3), edge(4, 1)]), Ok(()));
    assert_eq!(check_acyclic(&vec![edge(3, 3)]), Err(StoreError::InvariantViolation));
    assert_eq!(check_acyclic(&vec![edge(1, 2), edge(2, 3), edge(3, 1)]), Err(StoreError::InvariantViolation));
    assert_eq!(check_acyclic(&vec![edge(5, 6), edge(1, 2), edge(2, 1)]), Err(StoreError::InvariantViolation));
}
