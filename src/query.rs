use vstd::prelude::*;
use vstd::utf8::encode_utf8;

use crate::card::{cardtype_code, postponement_elapsed, type_of, window_elapsed, Card, CardID, CardType, IncID, TopicID, TypeData, SECS_PER_DAY};

verus! {

/// One predicate over cards. Time-dependent predicates carry the time at
/// which the query was built.
#[derive(Clone, Debug)]
pub enum CardFilter {
    Suspended(bool),
    Resolved(bool),
    Finished(bool),
    Unfinished(bool),
    Pending(bool),
    Cardtype(CardType),
    /// Strength between the two bounds, both included.
    StrengthRange(u32, u32),
    /// Stability strictly above the bound.
    Minstability(u32),
    /// Stability strictly below the bound.
    Maxstability(u32),
    /// The text occurs in the question or the answer, ASCII case ignored.
    Contains(String),
    /// The topic is one of the listed ones.
    Topics(Vec<TopicID>),
    MinPosition(u32),
    MaxPosition(u32),
    /// An unfinished card skipped strictly more than `days` days before `now`.
    MinSkipDaysPassed { days: u32, now: u32 },
    /// An unfinished card skipped strictly less than `days` days before `now`.
    MaxSkipDaysPassed { days: u32, now: u32 },
    Source(IncID),
    /// An unfinished card whose postponement has run out at `now`.
    DueUnfinished { now: u32 },
}

/// ASCII letters folded to lower case; every other byte kept.
pub open spec fn fold_byte(b: u8) -> u8 {
    if 65 <= b && b <= 90 {
        (b + 32) as u8
    } else {
        b
    }
}

/// `needle` occurs in `hay` at byte offset `i`, ASCII case ignored.
pub open spec fn occurs_at(hay: Seq<u8>, needle: Seq<u8>, i: int) -> bool {
    0 <= i && i + needle.len() <= hay.len() && forall|j: int|
        0 <= j < needle.len() ==> #[trigger] fold_byte(hay[i + j]) == fold_byte(needle[j])
}

/// `needle` occurs somewhere in `hay`, ASCII case ignored.
pub open spec fn occurs_in(hay: Seq<u8>, needle: Seq<u8>) -> bool {
    exists|i: int| occurs_at(hay, needle, i)
}

/// The text occurs in the card's question or answer, ASCII case ignored.
pub open spec fn text_in_card(c: Card, s: Seq<char>) -> bool {
    occurs_in(encode_utf8(c.question@), encode_utf8(s)) || occurs_in(
        encode_utf8(c.answer@),
        encode_utf8(s),
    )
}

/// Whether one predicate holds of a card. A predicate on a field of another
/// card type than the card's own does not hold.
pub open spec fn filter_holds(f: CardFilter, c: Card) -> bool {
    match f {
        CardFilter::Suspended(v) => c.suspended == v,
        CardFilter::Resolved(v) => c.resolved == v,
        CardFilter::Finished(v) => (type_of(c.data) == CardType::Finished) == v,
        CardFilter::Unfinished(v) => (type_of(c.data) == CardType::Unfinished) == v,
        CardFilter::Pending(v) => (type_of(c.data) == CardType::Pending) == v,
        CardFilter::Cardtype(t) => type_of(c.data) == t,
        CardFilter::StrengthRange(lo, hi) => match c.data {
            TypeData::Finished { strength, .. } => lo <= strength && strength <= hi,
            _ => false,
        },
        CardFilter::Minstability(x) => match c.data {
            TypeData::Finished { stability, .. } => stability > x,
            _ => false,
        },
        CardFilter::Maxstability(x) => match c.data {
            TypeData::Finished { stability, .. } => stability < x,
            _ => false,
        },
        CardFilter::Contains(s) => text_in_card(c, s@),
        CardFilter::Topics(v) => v@.contains(c.topic),
        CardFilter::MinPosition(x) => c.position > x,
        CardFilter::MaxPosition(x) => c.position < x,
        CardFilter::MinSkipDaysPassed { days, now } => match c.data {
            TypeData::Unfinished { skiptime, .. } => now as int - skiptime as int > days as int
                * SECS_PER_DAY as int,
            _ => false,
        },
        CardFilter::MaxSkipDaysPassed { days, now } => match c.data {
            TypeData::Unfinished { skiptime, .. } => (now as int - skiptime as int) < days as int
                * SECS_PER_DAY as int,
            _ => false,
        },
        CardFilter::Source(id) => c.source == id,
        CardFilter::DueUnfinished { now } => match c.data {
            TypeData::Unfinished { skiptime, skipduration } => window_elapsed(
                now,
                skiptime,
                skipduration,
            ),
            _ => false,
        },
    }
}

/// Every predicate of the list holds of the card.
pub open spec fn all_hold(fs: Seq<CardFilter>, c: Card) -> bool {
    forall|i: int| 0 <= i < fs.len() ==> #[trigger] filter_holds(fs[i], c)
}

/// The cards, in order, of which every predicate holds.
pub open spec fn matching(fs: Seq<CardFilter>, cards: Seq<Card>) -> Seq<Card>
    decreases cards.len(),
{
    if cards.len() == 0 {
        Seq::empty()
    } else {
        let rest = matching(fs, cards.drop_last());
        if all_hold(fs, cards.last()) {
            rest.push(cards.last())
        } else {
            rest
        }
    }
}

/// The ids of a sequence of cards.
pub open spec fn ids_of(cards: Seq<Card>) -> Seq<CardID> {
    cards.map_values(|c: Card| c.id)
}

/// A sequence cut to at most `limit` elements, if a limit is set.
pub open spec fn limited<T>(s: Seq<T>, limit: Option<u32>) -> Seq<T> {
    match limit {
        Some(n) => if s.len() <= n {
            s
        } else {
            s.take(n as int)
        },
        None => s,
    }
}

/// Folds an ASCII upper-case letter to lower case.
fn fold(b: u8) -> (r: u8)
    ensures
        r == fold_byte(b),
{
    if 65 <= b && b <= 90 {
        b + 32
    } else {
        b
    }
}

/// Whether `needle` occurs in `hay`, ASCII case ignored.
pub fn bytes_occur(hay: &[u8], needle: &[u8]) -> (r: bool)
    ensures
        r == occurs_in(hay@, needle@),
{
    if needle.len() > hay.len() {
        assert forall|k: int| !occurs_at(hay@, needle@, k) by {}
        return false;
    }
    let hay_len: usize = hay.len();
    let last: usize = hay_len - needle.len();
    let mut i: usize = 0;
    loop
        invariant
            last == hay@.len() - needle@.len(),
            hay_len == hay@.len(),
            needle@.len() <= hay@.len(),
            i <= last,
            forall|k: int| 0 <= k < i ==> !occurs_at(hay@, needle@, k),
        decreases last - i,
    {
        let mut j: usize = 0;
        let mut same = true;
        while j < needle.len()
            invariant
                last == hay@.len() - needle@.len(),
                hay_len == hay@.len(),
                needle@.len() <= hay@.len(),
                i <= last,
                j <= needle@.len(),
                same ==> forall|jj: int| 0 <= jj < j ==> fold_byte(hay@[i + jj]) == fold_byte(needle@[jj]),
                !same ==> !occurs_at(hay@, needle@, i as int),
            decreases needle@.len() - j,
        {
            if fold(hay[i + j]) != fold(needle[j]) {
                same = false;
                assert(!(fold_byte(hay@[i + j as int]) == fold_byte(needle@[j as int])));
                j = needle.len();
            } else {
                j = j + 1;
            }
        }
        if same {
            assert(occurs_at(hay@, needle@, i as int));
            return true;
        }
        if i == last {
            assert forall|k: int| !occurs_at(hay@, needle@, k) by {
                if 0 <= k && k <= i {
                }
            }
            return false;
        }
        i = i + 1;
    }
}

/// Whether the text occurs in a string, ASCII case ignored.
fn text_occurs(hay: &String, needle: &String) -> (r: bool)
    ensures
        r == occurs_in(encode_utf8(hay@), encode_utf8(needle@)),
{
    let h = hay.as_str();
    let n = needle.as_str();
    bytes_occur(h.as_bytes(), n.as_bytes())
}

/// Whether the id is in the list.
fn id_listed(ids: &Vec<u32>, id: u32) -> (r: bool)
    ensures
        r == ids@.contains(id),
{
    let mut i: usize = 0;
    while i < ids.len()
        invariant
            i <= ids@.len(),
            forall|k: int| 0 <= k < i ==> ids@[k] != id,
        decreases ids@.len() - i,
    {
        if ids[i] == id {
            assert(ids@[i as int] == id);
            return true;
        }
        i = i + 1;
    }
    false
}

impl CardFilter {
    /// Whether this predicate holds of the card.
    pub fn holds(&self, c: &Card) -> (r: bool)
        ensures
            r == filter_holds(*self, *c),
    {
        match self {
            CardFilter::Suspended(v) => c.suspended == *v,
            CardFilter::Resolved(v) => c.resolved == *v,
            CardFilter::Finished(v) => (c.cardtype() == CardType::Finished) == *v,
            CardFilter::Unfinished(v) => (c.cardtype() == CardType::Unfinished) == *v,
            CardFilter::Pending(v) => (c.cardtype() == CardType::Pending) == *v,
            CardFilter::Cardtype(t) => c.cardtype() == *t,
            CardFilter::StrengthRange(lo, hi) => match c.data {
                TypeData::Finished { strength, .. } => *lo <= strength && strength <= *hi,
                _ => false,
            },
            CardFilter::Minstability(x) => match c.data {
                TypeData::Finished { stability, .. } => stability > *x,
                _ => false,
            },
            CardFilter::Maxstability(x) => match c.data {
                TypeData::Finished { stability, .. } => stability < *x,
                _ => false,
            },
            CardFilter::Contains(s) => text_occurs(&c.question, s) || text_occurs(&c.answer, s),
            CardFilter::Topics(v) => id_listed(v, c.topic),
            CardFilter::MinPosition(x) => c.position > *x,
            CardFilter::MaxPosition(x) => c.position < *x,
            CardFilter::MinSkipDaysPassed { days, now } => match c.data {
                TypeData::Unfinished { skiptime, .. } => {
                    let span: u64 = *days as u64 * SECS_PER_DAY;
                    span <= *now as u64 && (skiptime as u64) < *now as u64 - span
                },
                _ => false,
            },
            CardFilter::MaxSkipDaysPassed { days, now } => match c.data {
                TypeData::Unfinished { skiptime, .. } => {
                    let span: u64 = *days as u64 * SECS_PER_DAY;
                    span > *now as u64 || skiptime as u64 > *now as u64 - span
                },
                _ => false,
            },
            CardFilter::Source(id) => c.source == *id,
            CardFilter::DueUnfinished { now } => match c.data {
                TypeData::Unfinished { skiptime, skipduration } => postponement_elapsed(
                    *now,
                    skiptime,
                    skipduration,
                ),
                _ => false,
            },
        }
    }
}

/// Extending the input by one card extends the limited selection by that
/// card exactly when it matches and the limit leaves room.
proof fn lemma_limited_step(fs: Seq<CardFilter>, cards: Seq<Card>, i: int, lim: Option<u32>)
    requires
        0 <= i < cards.len(),
    ensures
        ({
            let before = limited(matching(fs, cards.take(i)), lim);
            let after = limited(matching(fs, cards.take(i + 1)), lim);
            let room = match lim {
                Some(n) => before.len() < n,
                None => true,
            };
            if all_hold(fs, cards[i]) && room {
                after == before.push(cards[i])
            } else {
                after == before
            }
        }),
{
    let pre = cards.take(i + 1);
    assert(pre.drop_last() =~= cards.take(i));
    assert(pre.last() == cards[i]);
    let m = matching(fs, cards.take(i));
    if all_hold(fs, cards[i]) {
        if let Some(n) = lim {
            if m.len() >= n {
                assert(m.push(cards[i]).take(n as int) =~= m.take(n as int));
            }
        }
    }
}

/// `items` lists the cards of `cards`, one for one, by id and question.
pub open spec fn items_of(items: Seq<CardItem>, cards: Seq<Card>) -> bool {
    items.len() == cards.len() && forall|k: int|
        0 <= k < items.len() ==> #[trigger] items[k].id == cards[k].id && items[k].question@
            == cards[k].question@
}

/// A value bound to one `?` placeholder of a query text.
#[derive(Clone, Debug)]
pub enum SqlValue {
    Int(i64),
    Text(String),
}

/// A query text with `?` placeholders and the values bound to them, in order.
pub struct SqlQuery {
    pub text: String,
    pub params: Vec<SqlValue>,
}

/// The store's value of a boolean column.
pub open spec fn bool_value(v: bool) -> SqlValue {
    SqlValue::Int(if v { 1 } else { 0 })
}

/// `n` placeholders separated by commas.
pub open spec fn placeholders(n: nat) -> Seq<char>
    decreases n,
{
    if n == 0 {
        Seq::empty()
    } else if n == 1 {
        "?"@
    } else {
        placeholders((n - 1) as nat) + ", ?"@
    }
}

/// The condition text of one predicate.
pub open spec fn clause_text(f: CardFilter) -> Seq<char> {
    match f {
        CardFilter::Suspended(_) => "suspended = ?"@,
        CardFilter::Resolved(_) => "resolved = ?"@,
        CardFilter::Finished(v) => if v {
            "cardtype = 2"@
        } else {
            "cardtype != 2"@
        },
        CardFilter::Unfinished(v) => if v {
            "cardtype = 1"@
        } else {
            "cardtype != 1"@
        },
        CardFilter::Pending(v) => if v {
            "cardtype = 0"@
        } else {
            "cardtype != 0"@
        },
        CardFilter::Cardtype(_) => "cardtype = ?"@,
        CardFilter::StrengthRange(_, _) => "strength BETWEEN ? AND ?"@,
        CardFilter::Minstability(_) => "stability > ?"@,
        CardFilter::Maxstability(_) => "stability < ?"@,
        CardFilter::Contains(_) => "(instr(lower(question), lower(?)) > 0 OR instr(lower(answer), lower(?)) > 0)"@,
        CardFilter::Topics(v) => "topic IN ("@ + placeholders(v@.len()) + ")"@,
        CardFilter::MinPosition(_) => "position > ?"@,
        CardFilter::MaxPosition(_) => "position < ?"@,
        CardFilter::MinSkipDaysPassed { .. } => "skiptime < ? - ? * 86400"@,
        CardFilter::MaxSkipDaysPassed { .. } => "skiptime > ? - ? * 86400"@,
        CardFilter::Source(_) => "source = ?"@,
        CardFilter::DueUnfinished { .. } => "? - skiptime > skipduration * 86400"@,
    }
}

/// The values bound to the placeholders of one predicate's condition.
pub open spec fn clause_params(f: CardFilter) -> Seq<SqlValue> {
    match f {
        CardFilter::Suspended(v) => seq![bool_value(v)],
        CardFilter::Resolved(v) => seq![bool_value(v)],
        CardFilter::Cardtype(t) => seq![SqlValue::Int(cardtype_code(t) as i64)],
        CardFilter::StrengthRange(lo, hi) => seq![SqlValue::Int(lo as i64), SqlValue::Int(hi as i64)],
        CardFilter::Minstability(x) => seq![SqlValue::Int(x as i64)],
        CardFilter::Maxstability(x) => seq![SqlValue::Int(x as i64)],
        CardFilter::Contains(s) => seq![SqlValue::Text(s), SqlValue::Text(s)],
        CardFilter::Topics(v) => v@.map_values(|id: TopicID| SqlValue::Int(id as i64)),
        CardFilter::MinPosition(x) => seq![SqlValue::Int(x as i64)],
        CardFilter::MaxPosition(x) => seq![SqlValue::Int(x as i64)],
        CardFilter::MinSkipDaysPassed { days, now } => seq![SqlValue::Int(now as i64), SqlValue::Int(days as i64)],
        CardFilter::MaxSkipDaysPassed { days, now } => seq![SqlValue::Int(now as i64), SqlValue::Int(days as i64)],
        CardFilter::Source(id) => seq![SqlValue::Int(id as i64)],
        CardFilter::DueUnfinished { now } => seq![SqlValue::Int(now as i64)],
        _ => Seq::empty(),
    }
}

/// The conditions of the predicates joined by `AND`.
pub open spec fn joined_text(fs: Seq<CardFilter>) -> Seq<char>
    decreases fs.len(),
{
    if fs.len() == 0 {
        Seq::empty()
    } else if fs.len() == 1 {
        clause_text(fs[0])
    } else {
        joined_text(fs.drop_last()) + " AND "@ + clause_text(fs.last())
    }
}

/// The values of all the predicates' placeholders, in order.
pub open spec fn joined_params(fs: Seq<CardFilter>) -> Seq<SqlValue>
    decreases fs.len(),
{
    if fs.len() == 0 {
        Seq::empty()
    } else {
        joined_params(fs.drop_last()) + clause_params(fs.last())
    }
}

/// The full query text: every card joined with its type extension, the
/// conditions, a fixed order, and the limit.
pub open spec fn query_text(fs: Seq<CardFilter>, limit: Option<u32>) -> Seq<char> {
    "SELECT cards.id, cards.question FROM cards LEFT OUTER JOIN finished_cards ON cards.id = finished_cards.id LEFT OUTER JOIN unfinished_cards ON cards.id = unfinished_cards.id"@
        + (if fs.len() == 0 {
        Seq::empty()
    } else {
        " WHERE "@ + joined_text(fs)
    }) + " ORDER BY cards.id"@ + (if limit is Some {
        " LIMIT ?"@
    } else {
        Seq::empty()
    })
}

/// The values bound to the full query's placeholders.
pub open spec fn query_params(fs: Seq<CardFilter>, limit: Option<u32>) -> Seq<SqlValue> {
    joined_params(fs) + match limit {
        Some(n) => seq![SqlValue::Int(n as i64)],
        None => Seq::empty(),
    }
}

/// Appends the condition of one predicate and its values.
fn write_clause(f: &CardFilter, text: &mut String, params: &mut Vec<SqlValue>)
    ensures
        final(text)@ == old(text)@ + clause_text(*f),
        final(params)@ == old(params)@ + clause_params(*f),
{
    let ghost p0 = params@;
    match f {
        CardFilter::Suspended(v) => {
            text.append("suspended = ?");
            params.push(SqlValue::Int(if *v { 1 } else { 0 }));
        },
        CardFilter::Resolved(v) => {
            text.append("resolved = ?");
            params.push(SqlValue::Int(if *v { 1 } else { 0 }));
        },
        CardFilter::Finished(v) => {
            if *v {
                text.append("cardtype = 2");
            } else {
                text.append("cardtype != 2");
            }
        },
        CardFilter::Unfinished(v) => {
            if *v {
                text.append("cardtype = 1");
            } else {
                text.append("cardtype != 1");
            }
        },
        CardFilter::Pending(v) => {
            if *v {
                text.append("cardtype = 0");
            } else {
                text.append("cardtype != 0");
            }
        },
        CardFilter::Cardtype(t) => {
            text.append("cardtype = ?");
            params.push(SqlValue::Int(t.code() as i64));
        },
        CardFilter::StrengthRange(lo, hi) => {
            text.append("strength BETWEEN ? AND ?");
            params.push(SqlValue::Int(*lo as i64));
            params.push(SqlValue::Int(*hi as i64));
        },
        CardFilter::Minstability(x) => {
            text.append("stability > ?");
            params.push(SqlValue::Int(*x as i64));
        },
        CardFilter::Maxstability(x) => {
            text.append("stability < ?");
            params.push(SqlValue::Int(*x as i64));
        },
        CardFilter::Contains(s) => {
            text.append("(instr(lower(question), lower(?)) > 0 OR instr(lower(answer), lower(?)) > 0)");
            params.push(SqlValue::Text(s.clone()));
            params.push(SqlValue::Text(s.clone()));
        },
        CardFilter::Topics(v) => {
            text.append("topic IN (");
            let mut i: usize = 0;
            while i < v.len()
                invariant
                    i <= v@.len(),
                    text@ == old(text)@ + "topic IN ("@ + placeholders(i as nat),
                    params@ == p0 + v@.take(i as int).map_values(|id: TopicID| SqlValue::Int(id as i64)),
                decreases v@.len() - i,
            {
                if i == 0 {
                    text.append("?");
                } else {
                    text.append(", ?");
                }
                params.push(SqlValue::Int(v[i] as i64));
                proof {
                    assert(v@.take(i + 1).map_values(|id: TopicID| SqlValue::Int(id as i64)) =~= v@.take(
                        i as int,
                    ).map_values(|id: TopicID| SqlValue::Int(id as i64)).push(SqlValue::Int(v@[i as int] as i64)));
                }
                i = i + 1;
            }
            text.append(")");
            assert(v@.take(v@.len() as int) =~= v@);
        },
        CardFilter::MinPosition(x) => {
            text.append("position > ?");
            params.push(SqlValue::Int(*x as i64));
        },
        CardFilter::MaxPosition(x) => {
            text.append("position < ?");
            params.push(SqlValue::Int(*x as i64));
        },
        CardFilter::MinSkipDaysPassed { days, now } => {
            text.append("skiptime < ? - ? * 86400");
            params.push(SqlValue::Int(*now as i64));
            params.push(SqlValue::Int(*days as i64));
        },
        CardFilter::MaxSkipDaysPassed { days, now } => {
            text.append("skiptime > ? - ? * 86400");
            params.push(SqlValue::Int(*now as i64));
            params.push(SqlValue::Int(*days as i64));
        },
        CardFilter::Source(id) => {
            text.append("source = ?");
            params.push(SqlValue::Int(*id as i64));
        },
        CardFilter::DueUnfinished { now } => {
            text.append("? - skiptime > skipduration * 86400");
            params.push(SqlValue::Int(*now as i64));
        },
    }
    assert(params@ =~= p0 + clause_params(*f));
}

/// Executing a query selects exactly the given cards of which every
/// predicate holds, and keeps their order.
pub proof fn lemma_query_round_trip(fs: Seq<CardFilter>, cards: Seq<Card>)
    ensures
        forall|c: Card| #[trigger]
            matching(fs, cards).contains(c) <==> (cards.contains(c) && all_hold(fs, c)),
        matching(fs, cards).len() <= cards.len(),
    decreases cards.len(),
{
    if cards.len() > 0 {
        let rest = cards.drop_last();
        lemma_query_round_trip(fs, rest);
        assert(cards =~= rest.push(cards.last()));
        assert forall|c: Card| #[trigger]
            matching(fs, cards).contains(c) <==> (cards.contains(c) && all_hold(fs, c)) by {
            if cards.contains(c) && c != cards.last() {
                let k = choose|k: int| 0 <= k < cards.len() && cards[k] == c;
                assert(rest[k] == c);
            }
            if rest.contains(c) {
                let k = choose|k: int| 0 <= k < rest.len() && rest[k] == c;
                assert(cards[k] == c);
            }
            if all_hold(fs, cards.last()) {
                assert(matching(fs, cards) == matching(fs, rest).push(cards.last()));
                if matching(fs, rest).contains(c) {
                    let k = choose|k: int| 0 <= k < matching(fs, rest).len() && matching(fs, rest)[k] == c;
                    assert(matching(fs, cards)[k] == c);
                }
                if matching(fs, cards).contains(c) && c != cards.last() {
                    let k = choose|k: int| 0 <= k < matching(fs, cards).len() && matching(fs, cards)[k] == c;
                    assert(matching(fs, rest)[k] == c);
                }
                assert(matching(fs, cards)[matching(fs, rest).len() as int] == cards.last());
            }
            assert(cards[cards.len() - 1] == cards.last());
        }
    }
}

/// An empty list of predicates selects every card.
pub proof fn lemma_no_filter_selects_all(cards: Seq<Card>)
    ensures
        matching(Seq::empty(), cards) == cards,
    decreases cards.len(),
{
    if cards.len() > 0 {
        lemma_no_filter_selects_all(cards.drop_last());
        assert(cards.drop_last().push(cards.last()) =~= cards);
    }
}

/// The order in which predicates are declared does not change the result:
/// two lists with the same predicates select the same cards.
pub proof fn lemma_declaration_order(fs1: Seq<CardFilter>, fs2: Seq<CardFilter>, cards: Seq<Card>)
    requires
        forall|f: CardFilter| fs1.contains(f) <==> fs2.contains(f),
    ensures
        matching(fs1, cards) == matching(fs2, cards),
    decreases cards.len(),
{
    if cards.len() > 0 {
        lemma_declaration_order(fs1, fs2, cards.drop_last());
        let c = cards.last();
        assert(all_hold(fs1, c) == all_hold(fs2, c)) by {
            if all_hold(fs1, c) {
                assert forall|i: int| 0 <= i < fs2.len() implies #[trigger] filter_holds(fs2[i], c) by {
                    assert(fs2.contains(fs2[i]));
                    let k = choose|k: int| 0 <= k < fs1.len() && fs1[k] == fs2[i];
                }
            }
            if all_hold(fs2, c) {
                assert forall|i: int| 0 <= i < fs1.len() implies #[trigger] filter_holds(fs1[i], c) by {
                    assert(fs1.contains(fs1[i]));
                    let k = choose|k: int| 0 <= k < fs2.len() && fs2[k] == fs1[i];
                }
            }
        }
    }
}

/// Both bounds of a strength range are included.
pub proof fn lemma_strength_range_inclusive(c: Card, lo: u32, hi: u32)
    requires
        lo <= hi,
        c.data is Finished,
        c.data->strength == lo || c.data->strength == hi,
    ensures
        filter_holds(CardFilter::StrengthRange(lo, hi), c),
{
}

/// A stability bound excludes cards whose stability equals it, from above
/// and from below.
pub proof fn lemma_stability_bounds_exclusive(c: Card, x: u32)
    requires
        c.data is Finished,
        c.data->stability == x,
    ensures
        !filter_holds(CardFilter::Minstability(x), c),
        !filter_holds(CardFilter::Maxstability(x), c),
{
}

/// A query with a limit returns at most that many cards, and the first
/// of the unlimited result.
pub proof fn lemma_limit_caps(fs: Seq<CardFilter>, cards: Seq<Card>, n: u32)
    ensures
        limited(matching(fs, cards), Some(n)).len() <= n,
        limited(matching(fs, cards), Some(n)) == matching(fs, cards).take(
            limited(matching(fs, cards), Some(n)).len() as int,
        ),
{
    assert(matching(fs, cards).take(matching(fs, cards).len() as int) =~= matching(fs, cards));
}

/// Strength, in thousandths, at or under which a finished card is due for
/// review.
pub const DUE_STRENGTH: u32 = 900;

/// When the cards have distinct ids, so does every selection of them.
pub proof fn lemma_selection_ids_distinct(fs: Seq<CardFilter>, cards: Seq<Card>)
    requires
        ids_of(cards).no_duplicates(),
    ensures
        ids_of(matching(fs, cards)).no_duplicates(),
    decreases cards.len(),
{
    if cards.len() > 0 {
        let rest = cards.drop_last();
        assert(ids_of(rest) =~= ids_of(cards).drop_last());
        assert(ids_of(rest).no_duplicates()) by {
            assert forall|i: int, j: int| 0 <= i < ids_of(rest).len() && 0 <= j < ids_of(rest).len() && i != j
                implies ids_of(rest)[i] != ids_of(rest)[j] by {
                assert(ids_of(rest)[i] == ids_of(cards)[i]);
                assert(ids_of(rest)[j] == ids_of(cards)[j]);
            }
        }
        lemma_selection_ids_distinct(fs, rest);
        let m = matching(fs, rest);
        if all_hold(fs, cards.last()) {
            lemma_query_round_trip(fs, rest);
            let last = cards.last();
            assert forall|k: int| 0 <= k < m.len() implies #[trigger] m[k].id != last.id by {
                assert(m.contains(m[k]));
                assert(rest.contains(m[k]));
                let j = choose|j: int| 0 <= j < rest.len() && rest[j] == m[k];
                assert(ids_of(cards)[j] == m[k].id);
                assert(ids_of(cards)[cards.len() - 1] == last.id);
            }
            assert(ids_of(m.push(last)) =~= ids_of(m).push(last.id));
            assert forall|i: int, j: int|
                0 <= i < ids_of(m.push(last)).len() && 0 <= j < ids_of(m.push(last)).len() && i != j
                implies ids_of(m.push(last))[i] != ids_of(m.push(last))[j] by {
                if i < m.len() && j < m.len() {
                    assert(ids_of(m)[i] != ids_of(m)[j]);
                } else if i < m.len() {
                    assert(m[i].id != last.id);
                } else if j < m.len() {
                    assert(m[j].id != last.id);
                }
            }
        }
    }
}

/// A query: predicates that must all hold, and an optional cap on the
/// number of results.
pub struct CardQuery {
    filters: Vec<CardFilter>,
    limit: Option<u32>,
}

/// A card as a list shows it.
#[derive(Clone, Debug)]
pub struct CardItem {
    pub question: String,
    pub id: CardID,
}

impl View for CardQuery {
    type V = (Seq<CardFilter>, Option<u32>);

    closed spec fn view(&self) -> (Seq<CardFilter>, Option<u32>) {
        (self.filters@, self.limit)
    }
}

impl Default for CardQuery {
    fn default() -> (r: Self)
        ensures
            r@.0.len() == 0,
            r@.1 is None,
    {
        CardQuery::new()
    }
}

impl CardQuery {
    /// The query that selects every card.
    pub fn new() -> (r: Self)
        ensures
            r@.0.len() == 0,
            r@.1 is None,
    {
        CardQuery { filters: Vec::new(), limit: None }
    }

    fn with(self, f: CardFilter) -> (r: Self)
        ensures
            r@ == (self@.0.push(f), self@.1),
    {
        let mut filters = self.filters;
        filters.push(f);
        CardQuery { filters, limit: self.limit }
    }

    pub fn suspended(self, val: bool) -> (r: Self)
        ensures
            r@ == (self@.0.push(CardFilter::Suspended(val)), self@.1),
    {
        self.with(CardFilter::Suspended(val))
    }

    pub fn resolved(self, val: bool) -> (r: Self)
        ensures
            r@ == (self@.0.push(CardFilter::Resolved(val)), self@.1),
    {
        self.with(CardFilter::Resolved(val))
    }

    pub fn finished(self, val: bool) -> (r: Self)
        ensures
            r@ == (self@.0.push(CardFilter::Finished(val)), self@.1),
    {
        self.with(CardFilter::Finished(val))
    }

    pub fn unfinished(self, val: bool) -> (r: Self)
        ensures
            r@ == (self@.0.push(CardFilter::Unfinished(val)), self@.1),
    {
        self.with(CardFilter::Unfinished(val))
    }

    pub fn pending(self, val: bool) -> (r: Self)
        ensures
            r@ == (self@.0.push(CardFilter::Pending(val)), self@.1),
    {
        self.with(CardFilter::Pending(val))
    }

    /// Strength between `val.0` and `val.1`, both included.
    pub fn strength(self, val: (u32, u32)) -> (r: Self)
        ensures
            r@ == (self@.0.push(CardFilter::StrengthRange(val.0, val.1)), self@.1),
    {
        self.with(CardFilter::StrengthRange(val.0, val.1))
    }

    /// Stability strictly greater than `val`.
    pub fn minimum_stability(self, val: u32) -> (r: Self)
        ensures
            r@ == (self@.0.push(CardFilter::Minstability(val)), self@.1),
    {
        self.with(CardFilter::Minstability(val))
    }

    /// Stability strictly less than `val`.
    pub fn max_stability(self, val: u32) -> (r: Self)
        ensures
            r@ == (self@.0.push(CardFilter::Maxstability(val)), self@.1),
    {
        self.with(CardFilter::Maxstability(val))
    }

    pub fn contains(self, val: String) -> (r: Self)
        ensures
            r@ == (self@.0.push(CardFilter::Contains(val)), self@.1),
    {
        self.with(CardFilter::Contains(val))
    }

    pub fn topics(self, val: Vec<TopicID>) -> (r: Self)
        ensures
            r@ == (self@.0.push(CardFilter::Topics(val)), self@.1),
    {
        self.with(CardFilter::Topics(val))
    }

    pub fn minimum_position(self, val: u32) -> (r: Self)
        ensures
            r@ == (self@.0.push(CardFilter::MinPosition(val)), self@.1),
    {
        self.with(CardFilter::MinPosition(val))
    }

    pub fn max_position(self, val: u32) -> (r: Self)
        ensures
            r@ == (self@.0.push(CardFilter::MaxPosition(val)), self@.1),
    {
        self.with(CardFilter::MaxPosition(val))
    }

    /// Unfinished cards skipped strictly more than `days` days before `now`.
    pub fn minimum_days_since_skip(self, days: u32, now: u32) -> (r: Self)
        ensures
            r@ == (self@.0.push(CardFilter::MinSkipDaysPassed { days, now }), self@.1),
    {
        self.with(CardFilter::MinSkipDaysPassed { days, now })
    }

    /// Unfinished cards skipped strictly less than `days` days before `now`.
    pub fn max_days_since_skip(self, days: u32, now: u32) -> (r: Self)
        ensures
            r@ == (self@.0.push(CardFilter::MaxSkipDaysPassed { days, now }), self@.1),
    {
        self.with(CardFilter::MaxSkipDaysPassed { days, now })
    }

    pub fn source(self, val: IncID) -> (r: Self)
        ensures
            r@ == (self@.0.push(CardFilter::Source(val)), self@.1),
    {
        self.with(CardFilter::Source(val))
    }

    /// Unfinished cards whose postponement has run out at `now`.
    pub fn unfinished_due(self, now: u32) -> (r: Self)
        ensures
            r@ == (self@.0.push(CardFilter::DueUnfinished { now }), self@.1),
    {
        self.with(CardFilter::DueUnfinished { now })
    }

    pub fn cardtype(self, val: CardType) -> (r: Self)
        ensures
            r@ == (self@.0.push(CardFilter::Cardtype(val)), self@.1),
    {
        self.with(CardFilter::Cardtype(val))
    }

    /// Caps the number of results at `val`.
    pub fn limit(self, val: u32) -> (r: Self)
        ensures
            r@ == (self@.0, Some(val)),
    {
        CardQuery { filters: self.filters, limit: Some(val) }
    }

    /// Compiles the query into one parameterised statement for the store;
    /// no value is written into the text.
    pub fn make_query(&self) -> (r: SqlQuery)
        ensures
            r.text@ == query_text(self@.0, self@.1),
            r.params@ == query_params(self@.0, self@.1),
    {
        let ghost fs = self@.0;
        let mut text = String::new();
        let mut params: Vec<SqlValue> = Vec::new();
        text.append(
            "SELECT cards.id, cards.question FROM cards LEFT OUTER JOIN finished_cards ON cards.id = finished_cards.id LEFT OUTER JOIN unfinished_cards ON cards.id = unfinished_cards.id",
        );
        let ghost base = text@;
        if self.filters.len() > 0 {
            text.append(" WHERE ");
        }
        let ghost head = text@;
        let mut i: usize = 0;
        while i < self.filters.len()
            invariant
                fs == self@.0,
                i <= fs.len(),
                head == base + (if fs.len() == 0 {
                    Seq::<char>::empty()
                } else {
                    " WHERE "@
                }),
                text@ == head + joined_text(fs.take(i as int)),
                params@ == joined_params(fs.take(i as int)),
            decreases fs.len() - i,
        {
            let ghost pre = fs.take(i as int + 1);
            assert(pre.drop_last() =~= fs.take(i as int));
            if i > 0 {
                text.append(" AND ");
            }
            write_clause(&self.filters[i], &mut text, &mut params);
            proof {
                if i == 0 {
                    assert(joined_text(fs.take(0)) =~= Seq::<char>::empty());
                }
                assert(text@ =~= head + joined_text(pre));
                assert(params@ =~= joined_params(pre));
            }
            i = i + 1;
        }
        assert(fs.take(fs.len() as int) =~= fs);
        text.append(" ORDER BY cards.id");
        match self.limit {
            Some(n) => {
                text.append(" LIMIT ?");
                params.push(SqlValue::Int(n as i64));
            },
            None => {},
        }
        assert(text@ =~= query_text(fs, self@.1));
        assert(params@ =~= query_params(fs, self@.1));
        SqlQuery { text, params }
    }

    /// The cards due for spaced repetition: finished, not suspended, and
    /// with a strength of at most `DUE_STRENGTH`.
    pub fn review_queue() -> (r: Self)
        ensures
            r@ == (
                seq![
                    CardFilter::Finished(true),
                    CardFilter::Suspended(false),
                    CardFilter::StrengthRange(0, DUE_STRENGTH),
                ],
                None::<u32>,
            ),
    {
        let r = CardQuery::new().finished(true).suspended(false).strength((0, DUE_STRENGTH));
        assert(r@.0 =~= seq![
            CardFilter::Finished(true),
            CardFilter::Suspended(false),
            CardFilter::StrengthRange(0, DUE_STRENGTH),
        ]);
        r
    }

    /// The pending cards awaiting triage that are not suspended.
    pub fn pending_queue() -> (r: Self)
        ensures
            r@ == (seq![CardFilter::Pending(true), CardFilter::Suspended(false)], None::<u32>),
    {
        let r = CardQuery::new().pending(true).suspended(false);
        assert(r@.0 =~= seq![CardFilter::Pending(true), CardFilter::Suspended(false)]);
        r
    }

    /// The unfinished cards, not suspended, whose postponement has run out
    /// at `now`.
    pub fn unfinished_queue(now: u32) -> (r: Self)
        ensures
            r@ == (seq![CardFilter::DueUnfinished { now }, CardFilter::Suspended(false)], None::<u32>),
    {
        let r = CardQuery::new().unfinished_due(now).suspended(false);
        assert(r@.0 =~= seq![CardFilter::DueUnfinished { now }, CardFilter::Suspended(false)]);
        r
    }

    /// Whether every predicate of the query holds of the card.
    pub fn admits(&self, c: &Card) -> (r: bool)
        ensures
            r == all_hold(self@.0, *c),
    {
        let mut i: usize = 0;
        while i < self.filters.len()
            invariant
                i <= self.filters@.len(),
                forall|k: int| 0 <= k < i ==> filter_holds(self.filters@[k], *c),
            decreases self.filters@.len() - i,
        {
            if !self.filters[i].holds(c) {
                return false;
            }
            i = i + 1;
        }
        true
    }

    /// The ids of the matching cards, in the order of `cards`, at most
    /// `limit` of them.
    pub fn fetch_card_ids(self, cards: &Vec<Card>) -> (r: Vec<CardID>)
        ensures
            r@ == ids_of(limited(matching(self@.0, cards@), self@.1)),
    {
        let ghost fs = self@.0;
        let mut out: Vec<CardID> = Vec::new();
        let ghost sel: Seq<Card> = Seq::empty();
        let mut i: usize = 0;
        while i < cards.len()
            invariant
                i <= cards@.len(),
                fs == self@.0,
                sel == limited(matching(fs, cards@.take(i as int)), self@.1),
                out@ == ids_of(sel),
            decreases cards@.len() - i,
        {
            proof {
                lemma_limited_step(fs, cards@, i as int, self@.1);
            }
            let room = match self.limit {
                Some(n) => out.len() < n as usize,
                None => true,
            };
            if room && self.admits(&cards[i]) {
                out.push(cards[i].id);
                proof {
                    sel = sel.push(cards@[i as int]);
                    assert(out@ =~= ids_of(sel));
                }
            }
            i = i + 1;
        }
        assert(cards@.take(cards@.len() as int) =~= cards@);
        out
    }

    /// The matching cards as list items, in the order of `cards`, at most
    /// `limit` of them.
    pub fn fetch_carditems(self, cards: &Vec<Card>) -> (r: Vec<CardItem>)
        ensures
            items_of(r@, limited(matching(self@.0, cards@), self@.1)),
    {
        let ghost fs = self@.0;
        let mut out: Vec<CardItem> = Vec::new();
        let ghost sel: Seq<Card> = Seq::empty();
        let mut i: usize = 0;
        while i < cards.len()
            invariant
                i <= cards@.len(),
                fs == self@.0,
                sel == limited(matching(fs, cards@.take(i as int)), self@.1),
                items_of(out@, sel),
            decreases cards@.len() - i,
        {
            proof {
                lemma_limited_step(fs, cards@, i as int, self@.1);
            }
            let room = match self.limit {
                Some(n) => out.len() < n as usize,
                None => true,
            };
            if room && self.admits(&cards[i]) {
                out.push(CardItem { question: cards[i].question.clone(), id: cards[i].id });
                proof {
                    sel = sel.push(cards@[i as int]);
                }
            }
            i = i + 1;
        }
        assert(cards@.take(cards@.len() as int) =~= cards@);
        assert(sel == limited(matching(self@.0, cards@), self@.1));
        out
    }
}

} // verus!
