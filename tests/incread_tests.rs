use speki::card::{Card, CardType, TypeData};
use speki::incread::{load_active_inc, load_extracts, load_inc_items, load_inc_title, IncItem};

const DAY: u32 = 86400;

fn item(id: u32, parent: u32, topic: u32, active: bool, skiptime: u32, skipduration: u32) -> IncItem {
    IncItem { id, parent, topic, source: format!("text {}", id), active, skiptime, skipduration }
}

#[test]
fn extract_inherits_parent_and_topic_and_is_listed() {
    let mut items = vec![item(5, 0, 7, true, 0, 1), item(6, 5, 7, true, 0, 1)];
    let e = items[0].extract(9, "marked".to_string(), 1000);
    assert_eq!(e.parent, 5);
    assert_eq!(e.topic, 7);
    assert_eq!(e.source, "marked");
    assert!(e.active);
    items.push(e);
    let ids: Vec<u32> = load_extracts(&items, 5).iter().map(|x| x.id).collect();
    assert_eq!(ids, vec![6, 9]);
    assert!(load_extracts(&items, 9).is_empty());
}

#[test]
fn cloze_is_pending_card_pointing_at_source() {
    let src = item(5, 0, 7, true, 0, 1);
    let c: Card = src.cloze(40, "The [...] sat".to_string(), "cat".to_string());
    assert_eq!(c.cardtype(), CardType::Pending);
    assert_eq!(c.source, 5);
    assert_eq!(c.topic, 7);
    let cards = vec![c];
    let clozes = src.clozes(&cards);
    assert_eq!(clozes.len(), 1);
    assert_eq!(clozes[0].id, 40);
    assert!(item(6, 5, 7, true, 0, 1).clozes(&cards).is_empty());
    assert_eq!(cards[0].data, TypeData::Pending);
}

#[test]
fn active_items_follow_the_postponement_window() {
    let now: u32 = 10 * DAY;
    let items = vec![
        item(1, 0, 1, true, now - 2 * DAY, 1),
        item(2, 0, 1, true, now - 2 * DAY, 3),
        item(3, 0, 1, false, 0, 0),
        item(4, 1, 1, true, now - DAY - 1, 1),
        item(5, 0, 1, true, now - DAY, 1),
    ];
    assert_eq!(load_active_inc(&items, now), vec![1]);
    assert!(items[0].is_due(now));
    assert!(!items[3].is_due(now));
    assert!(!items[4].is_due(now));
}

#[test]
fn skip_and_complete() {
    let now: u32 = 10 * DAY;
    let mut it = item(1, 0, 1, true, 0, 1);
    assert!(it.is_due(now));
    it.skip(now);
    assert_eq!(it.skiptime, now);
    assert!(!it.is_due(now + DAY));
    assert!(it.is_due(now + DAY + 1));
    it.complete();
    assert!(!it.active);
    assert!(!it.is_due(now + 5 * DAY));
}

#[test]
fn sources_by_topic() {
    let items = vec![item(1, 0, 1, true, 0, 1), item(2, 1, 1, true, 0, 1), item(3, 0, 2, true, 0, 1)];
    let ids: Vec<u32> = load_inc_items(&items, 1).iter().map(|x| x.id).collect();
    assert_eq!(ids, vec![1]);
    assert_eq!(load_inc_items(&items, 2)[0].text, "text 3");
}

#[test]
fn titles_cut_on_character_boundaries() {
    assert_eq!(load_inc_title(&"A long source text".to_string(), 6), "A long");
    assert_eq!(load_inc_title(&"Tiny".to_string(), 20), "Empty Source");
    assert_eq!(load_inc_title(&"Some text".to_string(), 3), "Empty Source");
    assert_eq!(load_inc_title(&"héllo wörld".to_string(), 6), "héllo");
    assert_eq!(load_inc_title(&"héllo wörld".to_string(), 9), "héllo w");
    assert_eq!(load_inc_title(&"héllo wörld".to_string(), 8), "héllo w");
}
