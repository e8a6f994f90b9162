use vstd::prelude::*;
use vstd::string::StringSliceAdditionalSpecFns;
use vstd::utf8::{encode_utf8, is_char_boundary, valid_utf8};

use crate::card::{
    postponement_elapsed, window_elapsed, Card, CardID, IncID, TopicID, TypeData,
};
use crate::query::{items_of, matching, CardFilter, CardItem, CardQuery};

verus! {

/// A piece of source text in the incremental-reading hierarchy: a source
/// when `parent` is 0, else an extract of the item `parent`.
#[derive(Clone, Debug)]
pub struct IncItem {
    pub id: IncID,
    pub parent: IncID,
    pub topic: TopicID,
    pub source: String,
    /// Cleared once the item is fully processed.
    pub active: bool,
    pub skiptime: u32,
    pub skipduration: u32,
}

/// An item as a list shows it.
#[derive(Clone, Debug)]
pub struct IncListItem {
    pub text: String,
    pub id: IncID,
}

/// The item is a top-level source, active, and its postponement has run
/// out at `now`.
pub open spec fn inc_due(item: IncItem, now: u32) -> bool {
    item.parent == 0 && item.active && window_elapsed(now, item.skiptime, item.skipduration)
}

/// The ids, in order, of the items due at `now`.
pub open spec fn due_ids(items: Seq<IncItem>, now: u32) -> Seq<IncID>
    decreases items.len(),
{
    if items.len() == 0 {
        Seq::empty()
    } else {
        let rest = due_ids(items.drop_last(), now);
        if inc_due(items.last(), now) {
            rest.push(items.last().id)
        } else {
            rest
        }
    }
}

/// The items, in order, whose parent is `parent`.
pub open spec fn children(items: Seq<IncItem>, parent: IncID) -> Seq<IncItem>
    decreases items.len(),
{
    if items.len() == 0 {
        Seq::empty()
    } else {
        let rest = children(items.drop_last(), parent);
        if items.last().parent == parent {
            rest.push(items.last())
        } else {
            rest
        }
    }
}

/// The top-level items, in order, filed under `topic`.
pub open spec fn sources_in(items: Seq<IncItem>, topic: TopicID) -> Seq<IncItem>
    decreases items.len(),
{
    if items.len() == 0 {
        Seq::empty()
    } else {
        let rest = sources_in(items.drop_last(), topic);
        if items.last().parent == 0 && items.last().topic == topic {
            rest.push(items.last())
        } else {
            rest
        }
    }
}

/// `list` shows the items of `items`, one for one, by id and text.
pub open spec fn listed(list: Seq<IncListItem>, items: Seq<IncItem>) -> bool {
    list.len() == items.len() && forall|k: int|
        0 <= k < list.len() ==> #[trigger] list[k].id == items[k].id && list[k].text@
            == items[k].source@
}

/// The item that an extract of `parent` with this id, text and time is.
pub open spec fn extract_spec(parent: IncItem, id: IncID, text: Seq<char>, now: u32, item: IncItem) -> bool {
    item.id == id && item.parent == parent.id && item.topic == parent.topic && item.source@ == text
        && item.active && item.skiptime == now && item.skipduration == 1
}

/// The ids of the items of `items` due at `now`.
pub fn load_active_inc(items: &Vec<IncItem>, now: u32) -> (r: Vec<IncID>)
    ensures
        r@ == due_ids(items@, now),
{
    let mut out: Vec<IncID> = Vec::new();
    let mut i: usize = 0;
    while i < items.len()
        invariant
            i <= items@.len(),
            out@ == due_ids(items@.take(i as int), now),
        decreases items@.len() - i,
    {
        assert(items@.take(i as int + 1).drop_last() =~= items@.take(i as int));
        if items[i].parent == 0 && items[i].active && postponement_elapsed(now, items[i].skiptime, items[i].skipduration) {
            out.push(items[i].id);
        }
        i = i + 1;
    }
    assert(items@.take(items@.len() as int) =~= items@);
    out
}

/// The direct extracts of the item `parent`.
pub fn load_extracts(items: &Vec<IncItem>, parent: IncID) -> (r: Vec<IncListItem>)
    ensures
        listed(r@, children(items@, parent)),
{
    let mut out: Vec<IncListItem> = Vec::new();
    let ghost sel: Seq<IncItem> = Seq::empty();
    let mut i: usize = 0;
    while i < items.len()
        invariant
            i <= items@.len(),
            sel == children(items@.take(i as int), parent),
            listed(out@, sel),
        decreases items@.len() - i,
    {
        assert(items@.take(i as int + 1).drop_last() =~= items@.take(i as int));
        if items[i].parent == parent {
            let ghost prev = out@;
            out.push(IncListItem { text: items[i].source.clone(), id: items[i].id });
            proof {
                sel = sel.push(items@[i as int]);
                assert forall|k: int| 0 <= k < out@.len() implies #[trigger] out@[k].id == sel[k].id
                    && out@[k].text@ == sel[k].source@ by {
                    if k < prev.len() {
                        assert(out@[k] == prev[k]);
                    }
                }
            }
        }
        i = i + 1;
    }
    assert(items@.take(items@.len() as int) =~= items@);
    out
}

/// The top-level items filed under `topic`.
pub fn load_inc_items(items: &Vec<IncItem>, topic: TopicID) -> (r: Vec<IncListItem>)
    ensures
        listed(r@, sources_in(items@, topic)),
{
    let mut out: Vec<IncListItem> = Vec::new();
    let ghost sel: Seq<IncItem> = Seq::empty();
    let mut i: usize = 0;
    while i < items.len()
        invariant
            i <= items@.len(),
            sel == sources_in(items@.take(i as int), topic),
            listed(out@, sel),
        decreases items@.len() - i,
    {
        assert(items@.take(i as int + 1).drop_last() =~= items@.take(i as int));
        if items[i].parent == 0 && items[i].topic == topic {
            let ghost prev = out@;
            out.push(IncListItem { text: items[i].source.clone(), id: items[i].id });
            proof {
                sel = sel.push(items@[i as int]);
                assert forall|k: int| 0 <= k < out@.len() implies #[trigger] out@[k].id == sel[k].id
                    && out@[k].text@ == sel[k].source@ by {
                    if k < prev.len() {
                        assert(out@[k] == prev[k]);
                    }
                }
            }
        }
        i = i + 1;
    }
    assert(items@.take(items@.len() as int) =~= items@);
    out
}

/// `n` is where a title of at most `max` bytes cuts the text `b`: the last
/// character boundary that fits.
pub open spec fn title_cut(b: Seq<u8>, max: int, n: int) -> bool {
    0 <= n <= max && n <= b.len() && is_char_boundary(b, n) && forall|m: int|
        n < m <= max && m <= b.len() ==> !is_char_boundary(b, m)
}

/// The title of an item's text: its longest prefix of at most `titlelen`
/// bytes that ends on a character boundary, or "Empty Source" when that
/// prefix has fewer than 5 bytes.
pub fn load_inc_title(text: &String, titlelen: u16) -> (r: String)
    ensures
        exists|n: int|
            title_cut(encode_utf8(text@), titlelen as int, n) && if n < 5 {
                r@ == "Empty Source"@
            } else {
                encode_utf8(r@) == encode_utf8(text@).take(n)
            },
{
    broadcast use vstd::utf8::is_char_boundary_start_end_of_seq, vstd::utf8::encode_utf8_valid_utf8;

    let s = text.as_str();
    let ghost b = encode_utf8(text@);
    assert(s.spec_bytes() == b);
    let len = s.as_bytes().len();
    let max: usize = if (titlelen as usize) < len {
        titlelen as usize
    } else {
        len
    };
    let mut n: usize = max;
    while !s.is_char_boundary(n)
        invariant
            n <= max,
            max <= titlelen,
            max <= b.len(),
            max as int == titlelen as int || max as int == b.len(),
            valid_utf8(b),
            s.spec_bytes() == b,
            forall|m: int| n < m <= max ==> !is_char_boundary(b, m),
        decreases n,
    {
        assert(n != 0);
        n = n - 1;
    }
    assert(title_cut(b, titlelen as int, n as int));
    let (head, _tail) = s.split_at(n);
    if head.len() < 5 {
        String::from_str("Empty Source")
    } else {
        assert(head.spec_bytes() =~= b.take(n as int));
        String::from_str(head)
    }
}

impl IncItem {
    /// Whether the item is a top-level source, active, and its postponement
    /// has run out at `now`.
    pub fn is_due(&self, now: u32) -> (r: bool)
        ensures
            r == inc_due(*self, now),
    {
        self.parent == 0 && self.active && postponement_elapsed(now, self.skiptime, self.skipduration)
    }

    /// A new extract of this item, under the id the store gives it: it
    /// inherits the topic, and first resurfaces a day after `now`.
    pub fn extract(&self, id: IncID, text: String, now: u32) -> (r: IncItem)
        ensures
            extract_spec(*self, id, text@, now, r),
            r.id != r.parent <==> id != self.id,
    {
        IncItem {
            id,
            parent: self.id,
            topic: self.topic,
            source: text,
            active: true,
            skiptime: now,
            skipduration: 1,
        }
    }

    /// A new pending card cut from this item, under the id the store gives it.
    pub fn cloze(&self, id: CardID, question: String, answer: String) -> (r: Card)
        ensures
            r.id == id,
            r.data == TypeData::Pending,
            r.source == self.id,
            r.topic == self.topic,
            r.question@ == question@,
            r.answer@ == answer@,
            !r.suspended,
            !r.resolved,
            r.dependents@.len() == 0,
            r.dependencies@.len() == 0,
    {
        Card {
            id,
            question,
            answer,
            frontaudio: None,
            backaudio: None,
            frontimage: None,
            backimage: None,
            data: TypeData::Pending,
            suspended: false,
            resolved: false,
            topic: self.topic,
            source: self.id,
            position: 0,
            dependents: Vec::new(),
            dependencies: Vec::new(),
        }
    }

    /// The cards cut from this item, through the query engine's source
    /// predicate.
    pub fn clozes(&self, cards: &Vec<Card>) -> (r: Vec<CardItem>)
        ensures
            items_of(r@, matching(seq![CardFilter::Source(self.id)], cards@)),
    {
        let q = CardQuery::new().source(self.id);
        assert(q@.0 =~= seq![CardFilter::Source(self.id)]);
        q.fetch_carditems(cards)
    }

    /// Postpones the item: it resurfaces once its duration has passed after `now`.
    pub fn skip(&mut self, now: u32)
        ensures
            *final(self) == (IncItem { skiptime: now, ..*old(self) }),
    {
        self.skiptime = now;
    }

    /// Marks the item as fully processed; its extracts and clozes are not
    /// touched.
    pub fn complete(&mut self)
        ensures
            *final(self) == (IncItem { active: false, ..*old(self) }),
    {
        self.active = false;
    }
}

/// An extract is listed among its parent's extracts once it is in the
/// collection.
pub proof fn lemma_extract_listed(items: Seq<IncItem>, parent: IncItem, id: IncID, text: Seq<char>, now: u32, x: IncItem)
    requires
        extract_spec(parent, id, text, now, x),
        items.contains(x),
    ensures
        children(items, parent.id).contains(x),
        x.parent == parent.id,
        x.topic == parent.topic,
    decreases items.len(),
{
    let rest = items.drop_last();
    if items.last() == x {
        assert(children(items, parent.id) == children(rest, parent.id).push(x));
        assert(children(items, parent.id)[children(rest, parent.id).len() as int] == x);
    } else {
        let k = choose|k: int| 0 <= k < items.len() && items[k] == x;
        assert(rest[k] == x);
        lemma_extract_listed(rest, parent, id, text, now, x);
        let cs = children(rest, parent.id);
        let j = choose|j: int| 0 <= j < cs.len() && cs[j] == x;
        if items.last().parent == parent.id {
            assert(children(items, parent.id)[j] == x);
        }
    }
}

} // verus!
