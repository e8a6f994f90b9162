use speki::card::{Card, CardType, TypeData};
use speki::query::{CardQuery, SqlValue};

const DAY: u32 = 86400;

fn card(id: u32, data: TypeData, topic: u32) -> Card {
    Card {
        id,
        question: format!("Question {}", id),
        answer: format!("Answer {}", id),
        frontaudio: None,
        backaudio: None,
        frontimage: None,
        backimage: None,
        data,
        suspended: false,
        resolved: false,
        topic,
        source: 0,
        position: id,
        dependents: Vec::new(),
        dependencies: Vec::new(),
    }
}

fn fixture() -> Vec<Card> {
    vec![
        card(1, TypeData::Pending, 1),
        card(2, TypeData::Unfinished { skiptime: 1_000_000, skipduration: 1 }, 2),
        card(3, TypeData::Finished { stability: 10, strength: 500 }, 3),
        card(4, TypeData::Finished { stability: 20, strength: 900 }, 1),
        card(5, TypeData::Finished { stability: 10, strength: 200 }, 2),
    ]
}

#[test]
fn topics_match_any_listed_topic() {
    let ids = CardQuery::new().topics(vec![1, 3]).fetch_card_ids(&fixture());
    assert_eq!(ids, vec![1, 3, 4]);
}

#[test]
fn unfinished_due_after_window() {
    let t: u32 = 10_000_000;
    let mut c = card(7, TypeData::Unfinished { skiptime: t - 2 * DAY, skipduration: 1 }, 1);
    let cards = vec![c.clone()];
    assert_eq!(CardQuery::new().unfinished_due(t).fetch_card_ids(&cards), vec![7]);
    c.data = TypeData::Unfinished { skiptime: t - 2 * DAY, skipduration: 3 };
    let cards = vec![c];
    assert_eq!(CardQuery::new().unfinished_due(t).fetch_card_ids(&cards), Vec::<u32>::new());
}

#[test]
fn strength_range_includes_both_bounds() {
    let cards = fixture();
    assert_eq!(CardQuery::new().strength((200, 500)).fetch_card_ids(&cards), vec![3, 5]);
    assert_eq!(CardQuery::new().strength((201, 499)).fetch_card_ids(&cards), Vec::<u32>::new());
}

#[test]
fn stability_bounds_exclude_their_value() {
    let cards = fixture();
    assert_eq!(CardQuery::new().minimum_stability(10).fetch_card_ids(&cards), vec![4]);
    assert_eq!(CardQuery::new().max_stability(20).fetch_card_ids(&cards), vec![3, 5]);
    assert_eq!(CardQuery::new().minimum_stability(9).fetch_card_ids(&cards), vec![3, 4, 5]);
}

#[test]
fn empty_query_selects_all() {
    assert_eq!(CardQuery::new().fetch_card_ids(&fixture()), vec![1, 2, 3, 4, 5]);
    assert_eq!(CardQuery::default().fetch_card_ids(&fixture()), vec![1, 2, 3, 4, 5]);
}

#[test]
fn predicates_are_conjunctive_in_any_order() {
    let cards = fixture();
    let a = CardQuery::new().finished(true).topics(vec![1, 2]).fetch_card_ids(&cards);
    let b = CardQuery::new().topics(vec![1, 2]).finished(true).fetch_card_ids(&cards);
    assert_eq!(a, vec![4, 5]);
    assert_eq!(a, b);
}

#[test]
fn conjunction_matches_each_predicate_checked_by_hand() {
    let cards = fixture();
    let q = || CardQuery::new().pending(false).max_position(5).suspended(false);
    let expected: Vec<u32> = cards
        .iter()
        .filter(|c| c.cardtype() != CardType::Pending && c.position < 5 && !c.suspended)
        .map(|c| c.id)
        .collect();
    assert_eq!(q().fetch_card_ids(&cards), expected);
    assert_eq!(expected, vec![2, 3, 4]);
}

#[test]
fn limit_caps_results() {
    let cards = fixture();
    assert_eq!(CardQuery::new().finished(true).limit(2).fetch_card_ids(&cards), vec![3, 4]);
    assert_eq!(CardQuery::new().limit(0).fetch_card_ids(&cards), Vec::<u32>::new());
    assert_eq!(CardQuery::new().limit(9).fetch_card_ids(&cards).len(), 5);
}

#[test]
fn contains_ignores_ascii_case_in_question_or_answer() {
    let mut cards = fixture();
    cards[0].question = "What is Rust?".to_string();
    cards[1].answer = "a RUSTY nail".to_string();
    let ids = CardQuery::new().contains("rust".to_string()).fetch_card_ids(&cards);
    assert_eq!(ids, vec![1, 2]);
    let none = CardQuery::new().contains("iron".to_string()).fetch_card_ids(&cards);
    assert!(none.is_empty());
    let all = CardQuery::new().contains(String::new()).fetch_card_ids(&cards);
    assert_eq!(all.len(), 5);
}

#[test]
fn cardtype_and_flags() {
    let mut cards = fixture();
    cards[2].suspended = true;
    cards[3].resolved = true;
    assert_eq!(CardQuery::new().cardtype(CardType::Finished).suspended(false).fetch_card_ids(&cards), vec![4, 5]);
    assert_eq!(CardQuery::new().resolved(true).fetch_card_ids(&cards), vec![4]);
    assert_eq!(CardQuery::new().unfinished(true).fetch_card_ids(&cards), vec![2]);
    assert_eq!(CardQuery::new().minimum_position(3).fetch_card_ids(&cards), vec![4, 5]);
}

#[test]
fn days_since_skip_bounds() {
    let now: u32 = 1_000_000 + 5 * DAY;
    let cards = fixture();
    assert_eq!(CardQuery::new().minimum_days_since_skip(6, now).fetch_card_ids(&cards), Vec::<u32>::new());
    assert_eq!(CardQuery::new().minimum_days_since_skip(5, now).fetch_card_ids(&cards), Vec::<u32>::new());
    assert_eq!(CardQuery::new().minimum_days_since_skip(4, now).fetch_card_ids(&cards), vec![2]);
    assert_eq!(CardQuery::new().max_days_since_skip(4, now).fetch_card_ids(&cards), Vec::<u32>::new());
    assert_eq!(CardQuery::new().max_days_since_skip(5, now).fetch_card_ids(&cards), Vec::<u32>::new());
    assert_eq!(CardQuery::new().max_days_since_skip(6, now).fetch_card_ids(&cards), vec![2]);
    let skipped_two_days_ago = vec![card(8, TypeData::Unfinished { skiptime: now - 2 * DAY, skipduration: 9 }, 1)];
    assert_eq!(CardQuery::new().minimum_days_since_skip(1, now).fetch_card_ids(&skipped_two_days_ago), vec![8]);
}

#[test]
fn source_and_carditems() {
    let mut cards = fixture();
    cards[4].source = 8;
    let items = CardQuery::new().source(8).fetch_carditems(&cards);
    assert_eq!(items.len(), 1);
    assert_eq!(items[0].id, 5);
    assert_eq!(items[0].question, "Question 5");
}

#[test]
fn compiled_query_is_parameterised() {
    let q = CardQuery::new().suspended(false).topics(vec![1, 3]).contains("x'y".to_string()).limit(10).make_query();
    assert_eq!(
        q.text,
        "SELECT cards.id, cards.question FROM cards LEFT OUTER JOIN finished_cards ON cards.id = finished_cards.id LEFT OUTER JOIN unfinished_cards ON cards.id = unfinished_cards.id WHERE suspended = ? AND topic IN (?, ?) AND (instr(lower(question), lower(?)) > 0 OR instr(lower(answer), lower(?)) > 0) ORDER BY cards.id LIMIT ?"
    );
    assert_eq!(q.params.len(), 6);
    assert!(matches!(q.params[0], SqlValue::Int(0)));
    assert!(matches!(q.params[1], SqlValue::Int(1)));
    assert!(matches!(q.params[2], SqlValue::Int(3)));
    assert!(matches!(&q.params[3], SqlValue::Text(s) if s == "x'y"));
    assert!(matches!(q.params[5], SqlValue::Int(10)));
}

#[test]
fn compiled_empty_query_has_no_where() {
    let q = CardQuery::new().make_query();
    assert!(!q.text.contains("WHERE"));
    assert!(q.text.ends_with("ORDER BY cards.id"));
    assert!(q.params.is_empty());
    let q = CardQuery::new().finished(false).unfinished_due(42).make_query();
    assert!(q.text.ends_with("WHERE cardtype != 2 AND ? - skiptime > skipduration * 86400 ORDER BY cards.id"));
    assert!(matches!(q.params[0], SqlValue::Int(42)));
}

#[test]
fn compiled_clauses_for_every_bound() {
    let q = CardQuery::new()
        .strength((100, 900))
        .minimum_stability(3)
        .max_stability(9)
        .minimum_position(1)
        .max_position(8)
        .minimum_days_since_skip(2, 500_000)
        .max_days_since_skip(4, 500_000)
        .source(6)
        .cardtype(CardType::Unfinished)
        .resolved(true)
        .pending(true)
        .make_query();
    assert!(q.text.ends_with(
        "WHERE strength BETWEEN ? AND ? AND stability > ? AND stability < ? AND position > ? AND position < ? AND skiptime < ? - ? * 86400 AND skiptime > ? - ? * 86400 AND source = ? AND cardtype = ? AND resolved = ? AND cardtype = 0 ORDER BY cards.id"
    ));
    let ints: Vec<i64> = q
        .params
        .iter()
        .map(|p| match p {
            SqlValue::Int(i) => *i,
            SqlValue::Text(_) => -1,
        })
        .collect();
    assert_eq!(ints, vec![100, 900, 3, 9, 1, 8, 500_000, 2, 500_000, 4, 6, 1, 1]);
}

#[test]
fn session_queues_select_due_cards() {
    let mut cards = fixture();
    cards[4].suspended = true;
    assert_eq!(CardQuery::review_queue().fetch_card_ids(&cards), vec![3, 4]);
    assert_eq!(CardQuery::pending_queue().fetch_card_ids(&cards), vec![1]);
    assert_eq!(CardQuery::unfinished_queue(1_000_000 + 86400 + 1).fetch_card_ids(&cards), vec![2]);
    assert_eq!(CardQuery::unfinished_queue(1_000_000 + 86400).fetch_card_ids(&cards), Vec::<u32>::new());
}
