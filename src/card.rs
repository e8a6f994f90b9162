use vstd::prelude::*;

verus! {

/// Identity of a card.
pub type CardID = u32;

/// Identity of a topic.
pub type TopicID = u32;

/// Identity of an incremental-reading item.
pub type IncID = u32;

/// Seconds in one day, the unit of every postponement duration.
pub const SECS_PER_DAY: u64 = 86400;

/// Errors that the store and the decoding of its rows report.
#[derive(Clone, Copy, Debug, PartialEq, Eq, Structural)]
pub enum StoreError {
    /// A referenced id is absent.
    NotFound,
    /// The connection or its lock failed.
    StoreUnavailable,
    /// Stored data breaks an invariant of the model.
    InvariantViolation,
}

/// Lifecycle stage of a card.
#[derive(Clone, Copy, Debug, PartialEq, Eq, Structural)]
pub enum CardType {
    Pending,
    Unfinished,
    Finished,
}

/// The store's integer code of a card type.
pub open spec fn cardtype_code(t: CardType) -> u32 {
    match t {
        CardType::Pending => 0,
        CardType::Unfinished => 1,
        CardType::Finished => 2,
    }
}

impl CardType {
    /// Decodes the store's integer code of a card type.
    pub fn from_code(code: u32) -> (r: Result<CardType, StoreError>)
        ensures
            code <= 2 ==> (r matches Ok(t) && cardtype_code(t) == code),
            code > 2 ==> r == Err::<CardType, StoreError>(StoreError::InvariantViolation),
    {
        match code {
            0 => Ok(CardType::Pending),
            1 => Ok(CardType::Unfinished),
            2 => Ok(CardType::Finished),
            _ => Err(StoreError::InvariantViolation),
        }
    }

    /// The store's integer code of this card type.
    pub fn code(&self) -> (r: u32)
        ensures
            r == cardtype_code(*self),
    {
        match self {
            CardType::Pending => 0,
            CardType::Unfinished => 1,
            CardType::Finished => 2,
        }
    }
}

/// The fields that belong to one card type only: a card carries exactly the
/// fields of its own type.
#[derive(Clone, Copy, Debug, PartialEq, Eq, Structural)]
pub enum TypeData {
    Pending,
    /// `skiptime` is the second of the last postponement, `skipduration` the
    /// number of days to wait after it.
    Unfinished { skiptime: u32, skipduration: u32 },
    /// `stability` in days, at least 1; `strength` in thousandths of
    /// certain recall.
    Finished { stability: u32, strength: u32 },
}

/// The card type that a set of type-specific fields belongs to.
pub open spec fn type_of(d: TypeData) -> CardType {
    match d {
        TypeData::Pending => CardType::Pending,
        TypeData::Unfinished { .. } => CardType::Unfinished,
        TypeData::Finished { .. } => CardType::Finished,
    }
}

/// Whether a postponement made at `skiptime` for `skipduration` days has
/// run out at `now` (all times in seconds).
pub open spec fn window_elapsed(now: u32, skiptime: u32, skipduration: u32) -> bool {
    now as int - skiptime as int > skipduration as int * SECS_PER_DAY as int
}

/// Computes `window_elapsed`: the time since the postponement exceeds its duration.
pub fn postponement_elapsed(now: u32, skiptime: u32, skipduration: u32) -> (r: bool)
    ensures
        r == window_elapsed(now, skiptime, skipduration),
{
    if now < skiptime {
        false
    } else {
        (now - skiptime) as u64 > skipduration as u64 * SECS_PER_DAY
    }
}

/// A card of the collection.
#[derive(Clone, Debug)]
pub struct Card {
    pub id: CardID,
    pub question: String,
    pub answer: String,
    pub frontaudio: Option<String>,
    pub backaudio: Option<String>,
    pub frontimage: Option<String>,
    pub backimage: Option<String>,
    pub data: TypeData,
    pub suspended: bool,
    pub resolved: bool,
    pub topic: TopicID,
    /// The incremental-reading item the card was cut from; 0 for none.
    pub source: IncID,
    /// Ordering position of the card among the cards.
    pub position: u32,
    /// Cards that require this card; filled by the dependency accessor.
    pub dependents: Vec<CardID>,
    /// Cards this card requires; filled by the dependency accessor.
    pub dependencies: Vec<CardID>,
}

impl Card {
    /// The card's lifecycle stage, read from the fields it carries.
    pub fn cardtype(&self) -> (r: CardType)
        ensures
            r == type_of(self.data),
    {
        match self.data {
            TypeData::Pending => CardType::Pending,
            TypeData::Unfinished { .. } => CardType::Unfinished,
            TypeData::Finished { .. } => CardType::Finished,
        }
    }
}

/// A card row as the store returns it: the `cards` columns, with the
/// columns of the type extension tables left-joined in.
#[derive(Clone, Debug)]
pub struct CardRow {
    pub id: CardID,
    pub question: String,
    pub answer: String,
    pub frontaudio: Option<String>,
    pub backaudio: Option<String>,
    pub frontimage: Option<String>,
    pub backimage: Option<String>,
    pub cardtype: u32,
    pub suspended: bool,
    pub resolved: bool,
    pub topic: TopicID,
    pub source: IncID,
    pub position: u32,
    pub stability: Option<u32>,
    pub strength: Option<u32>,
    pub skiptime: Option<u32>,
    pub skipduration: Option<u32>,
}

/// The type-specific fields that a row describes, if its type code is known
/// and the extension columns of that type are present.
pub open spec fn row_type_data(row: CardRow) -> Option<TypeData> {
    if row.cardtype == 0 {
        Some(TypeData::Pending)
    } else if row.cardtype == 1 {
        match (row.skiptime, row.skipduration) {
            (Some(t), Some(d)) => Some(TypeData::Unfinished { skiptime: t, skipduration: d }),
            _ => None,
        }
    } else if row.cardtype == 2 {
        match (row.stability, row.strength) {
            (Some(s), Some(g)) => if s >= 1 {
                Some(TypeData::Finished { stability: s, strength: g })
            } else {
                None
            },
            _ => None,
        }
    } else {
        None
    }
}

/// Decodes one store row into a bare card, with empty dependency lists.
/// An unknown type code, or a missing extension column of the card's type,
/// is an invariant violation.
pub fn row2card(row: CardRow) -> (r: Result<Card, StoreError>)
    ensures
        row_type_data(row) is None ==> r == Err::<Card, StoreError>(StoreError::InvariantViolation),
        row_type_data(row) matches Some(d) ==> (r matches Ok(c) && c.data == d && c.id == row.id
            && c.question@ == row.question@ && c.answer@ == row.answer@
            && c.suspended == row.suspended && c.resolved == row.resolved
            && c.topic == row.topic && c.source == row.source && c.position == row.position
            && c.frontaudio == row.frontaudio && c.backaudio == row.backaudio
            && c.frontimage == row.frontimage && c.backimage == row.backimage
            && c.dependents@.len() == 0 && c.dependencies@.len() == 0),
{
    let data = match CardType::from_code(row.cardtype) {
        Ok(CardType::Pending) => TypeData::Pending,
        Ok(CardType::Unfinished) => match (row.skiptime, row.skipduration) {
            (Some(t), Some(d)) => TypeData::Unfinished { skiptime: t, skipduration: d },
            _ => return Err(StoreError::InvariantViolation),
        },
        Ok(CardType::Finished) => match (row.stability, row.strength) {
            (Some(s), Some(g)) => {
                if s < 1 {
                    return Err(StoreError::InvariantViolation);
                }
                TypeData::Finished { stability: s, strength: g }
            },
            _ => return Err(StoreError::InvariantViolation),
        },
        Err(e) => return Err(e),
    };
    Ok(Card {
        id: row.id,
        question: row.question,
        answer: row.answer,
        frontaudio: row.frontaudio,
        backaudio: row.backaudio,
        frontimage: row.frontimage,
        backimage: row.backimage,
        data,
        suspended: row.suspended,
        resolved: row.resolved,
        topic: row.topic,
        source: row.source,
        position: row.position,
        dependents: Vec::new(),
        dependencies: Vec::new(),
    })
}

/// Every card carries the fields of exactly one card type, and that type is
/// the one it reports.
pub proof fn lemma_cardtype_exclusive(c: Card)
    ensures
        type_of(c.data) == CardType::Pending || type_of(c.data) == CardType::Unfinished
            || type_of(c.data) == CardType::Finished,
        type_of(c.data) == CardType::Pending ==> c.data is Pending,
        type_of(c.data) == CardType::Unfinished ==> c.data is Unfinished,
        type_of(c.data) == CardType::Finished ==> c.data is Finished,
        !(c.data is Pending && c.data is Unfinished),
        !(c.data is Unfinished && c.data is Finished),
        !(c.data is Pending && c.data is Finished),
{
}

/// How well a card was recalled.
#[derive(Clone, Copy, Debug, PartialEq, Eq, Structural)]
pub enum RecallGrade {
    /// Nothing was recalled.
    Blank,
    Failed,
    Decent,
    Easy,
}

/// The store's integer code of a grade; higher is easier.
pub open spec fn grade_code(g: RecallGrade) -> u32 {
    match g {
        RecallGrade::Blank => 0,
        RecallGrade::Failed => 1,
        RecallGrade::Decent => 2,
        RecallGrade::Easy => 3,
    }
}

/// A grade below `Decent` is a failed recall.
pub open spec fn is_fail(g: RecallGrade) -> bool {
    grade_code(g) < 2
}

/// The stability, in days, after a review with this grade: a failed recall
/// divides it, a successful one multiplies it; the result is kept between
/// 1 and `u32::MAX`, so a stability stays positive.
pub open spec fn stability_after(prev: u32, g: RecallGrade) -> u32 {
    let raw: int = match g {
        RecallGrade::Blank => prev as int / 4,
        RecallGrade::Failed => prev as int / 2,
        RecallGrade::Decent => prev as int * 2,
        RecallGrade::Easy => prev as int * 3,
    };
    if raw < 1 {
        1
    } else if raw > u32::MAX {
        u32::MAX
    } else {
        raw as u32
    }
}

impl RecallGrade {
    /// Decodes the store's integer code of a grade.
    pub fn from(code: u32) -> (r: Option<RecallGrade>)
        ensures
            code <= 3 ==> (r matches Some(g) && grade_code(g) == code),
            code > 3 ==> r is None,
    {
        match code {
            0 => Some(RecallGrade::Blank),
            1 => Some(RecallGrade::Failed),
            2 => Some(RecallGrade::Decent),
            3 => Some(RecallGrade::Easy),
            _ => None,
        }
    }

    /// The store's integer code of this grade.
    pub fn code(&self) -> (r: u32)
        ensures
            r == grade_code(*self),
    {
        match self {
            RecallGrade::Blank => 0,
            RecallGrade::Failed => 1,
            RecallGrade::Decent => 2,
            RecallGrade::Easy => 3,
        }
    }
}

/// The stability after a review with grade `g`.
pub fn next_stability(prev: u32, g: RecallGrade) -> (r: u32)
    ensures
        r == stability_after(prev, g),
{
    let raw = match g {
        RecallGrade::Blank => prev / 4,
        RecallGrade::Failed => prev / 2,
        RecallGrade::Decent => if prev > u32::MAX / 2 { u32::MAX } else { prev * 2 },
        RecallGrade::Easy => if prev > u32::MAX / 3 { u32::MAX } else { prev * 3 },
    };
    if raw < 1 {
        1
    } else {
        raw
    }
}

/// The stability, in days, of a card when it first becomes finished.
pub const INITIAL_STABILITY: u32 = 1;

/// The strength, in thousandths, right after a review: the card was just seen.
pub const FULL_STRENGTH: u32 = 1000;

/// The type-specific fields of a card that has just become finished.
pub fn first_finished() -> (r: TypeData)
    ensures
        r == (TypeData::Finished { stability: INITIAL_STABILITY, strength: FULL_STRENGTH }),
{
    TypeData::Finished { stability: INITIAL_STABILITY, strength: FULL_STRENGTH }
}

/// The type-specific fields of a finished card with stability `prev` right
/// after a review with grade `g`.
pub fn after_review(prev: u32, g: RecallGrade) -> (r: TypeData)
    ensures
        r == (TypeData::Finished { stability: stability_after(prev, g), strength: FULL_STRENGTH }),
{
    TypeData::Finished { stability: next_stability(prev, g), strength: FULL_STRENGTH }
}

/// A stability stays positive; a failed recall lowers any stability above
/// the floor of 1, a successful one never lowers it, and an easier grade
/// never gives a lower stability.
pub proof fn lemma_stability_policy(prev: u32, g1: RecallGrade, g2: RecallGrade)
    ensures
        stability_after(prev, g1) >= 1,
        is_fail(g1) && prev > 1 ==> stability_after(prev, g1) < prev,
        !is_fail(g1) ==> stability_after(prev, g1) >= prev,
        grade_code(g1) <= grade_code(g2) ==> stability_after(prev, g1) <= stability_after(prev, g2),
{
}

/// One entry of the append-only review log.
#[derive(Clone, Copy, Debug, PartialEq, Eq, Structural)]
pub struct Review {
    pub cid: CardID,
    pub grade: RecallGrade,
    /// Second of the review.
    pub date: u32,
    /// Milliseconds taken to answer.
    pub answertime: u32,
}

/// A topic of the topic tree; 0 is the root.
#[derive(Clone, Debug)]
pub struct Topic {
    pub id: TopicID,
    pub name: String,
    pub parent: TopicID,
    /// Position among its siblings.
    pub relpos: u32,
}

} // verus!
