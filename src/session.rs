use vstd::prelude::*;

use crate::card::{CardID, IncID, RecallGrade};

verus! {

/// Which region of a card under review has focus; `true` while it is edited.
#[derive(Clone, Copy, Debug, PartialEq, Eq, Structural)]
pub enum ReviewSelection {
    Question(bool),
    Answer(bool),
    Dependencies(bool),
    Dependents(bool),
}

/// Which region or button of an unfinished card has focus.
#[derive(Clone, Copy, Debug, PartialEq, Eq, Structural)]
pub enum UnfSelection {
    Question(bool),
    Answer(bool),
    Dependencies(bool),
    Dependents(bool),
    Skip,
    Complete,
}

/// Which region or button of an incremental-reading item has focus.
#[derive(Clone, Copy, Debug, PartialEq, Eq, Structural)]
pub enum IncSelection {
    Source(bool),
    Extracts(bool),
    Clozes(bool),
    Skip,
    Complete,
}

/// The focus of a card under review, one flag per region.
#[derive(Clone, Copy, Debug, PartialEq, Eq, Structural)]
pub struct RevSelect {
    pub question: bool,
    pub answer: bool,
    pub dependents: bool,
    pub dependencies: bool,
}

impl RevSelect {
    /// Exactly the flag of the selected region is set.
    pub fn new(choice: &ReviewSelection) -> (r: Self)
        ensures
            r.question == (choice is Question),
            r.answer == (choice is Answer),
            r.dependencies == (choice is Dependencies),
            r.dependents == (choice is Dependents),
    {
        let mut sel = RevSelect { question: false, answer: false, dependents: false, dependencies: false };
        match choice {
            ReviewSelection::Question(_) => sel.question = true,
            ReviewSelection::Answer(_) => sel.answer = true,
            ReviewSelection::Dependencies(_) => sel.dependencies = true,
            ReviewSelection::Dependents(_) => sel.dependents = true,
        }
        sel
    }
}

/// The focus of an unfinished card, one flag per region or button.
#[derive(Clone, Copy, Debug, PartialEq, Eq, Structural)]
pub struct UnfSelect {
    pub question: bool,
    pub answer: bool,
    pub dependents: bool,
    pub dependencies: bool,
    pub skip: bool,
    pub finish: bool,
}

impl UnfSelect {
    /// Exactly the flag of the selected region or button is set.
    pub fn new(choice: &UnfSelection) -> (r: Self)
        ensures
            r.question == (choice is Question),
            r.answer == (choice is Answer),
            r.dependencies == (choice is Dependencies),
            r.dependents == (choice is Dependents),
            r.skip == (choice is Skip),
            r.finish == (choice is Complete),
    {
        let mut sel = UnfSelect {
            question: false,
            answer: false,
            dependents: false,
            dependencies: false,
            skip: false,
            finish: false,
        };
        match choice {
            UnfSelection::Question(_) => sel.question = true,
            UnfSelection::Answer(_) => sel.answer = true,
            UnfSelection::Dependencies(_) => sel.dependencies = true,
            UnfSelection::Dependents(_) => sel.dependents = true,
            UnfSelection::Skip => sel.skip = true,
            UnfSelection::Complete => sel.finish = true,
        }
        sel
    }
}

/// The focus of an incremental-reading item, one flag per region or button.
#[derive(Clone, Copy, Debug, PartialEq, Eq, Structural)]
pub struct IncSelect {
    pub source: bool,
    pub extracts: bool,
    pub clozes: bool,
    pub skip: bool,
    pub complete: bool,
}

impl IncSelect {
    /// Exactly the flag of the selected region or button is set.
    pub fn new(choice: &IncSelection) -> (r: Self)
        ensures
            r.source == (choice is Source),
            r.extracts == (choice is Extracts),
            r.clozes == (choice is Clozes),
            r.skip == (choice is Skip),
            r.complete == (choice is Complete),
    {
        let mut sel = IncSelect { source: false, extracts: false, clozes: false, skip: false, complete: false };
        match choice {
            IncSelection::Source(_) => sel.source = true,
            IncSelection::Extracts(_) => sel.extracts = true,
            IncSelection::Clozes(_) => sel.clozes = true,
            IncSelection::Skip => sel.skip = true,
            IncSelection::Complete => sel.complete = true,
        }
        sel
    }
}

/// A card presented for review or triage.
#[derive(Clone, Copy, Debug, PartialEq, Eq, Structural)]
pub struct CardReview {
    pub id: CardID,
    /// Whether the answer is shown.
    pub reveal: bool,
    pub selection: ReviewSelection,
}

/// An unfinished card presented for completion.
#[derive(Clone, Copy, Debug, PartialEq, Eq, Structural)]
pub struct UnfCard {
    pub id: CardID,
    pub selection: UnfSelection,
}

/// An incremental-reading item presented for splitting.
#[derive(Clone, Copy, Debug, PartialEq, Eq, Structural)]
pub struct IncMode {
    pub id: IncID,
    pub selection: IncSelection,
}

/// The category the session is in, with the item in front.
#[derive(Clone, Copy, Debug, PartialEq, Eq, Structural)]
pub enum ReviewMode {
    Done,
    Review(CardReview),
    Pending(CardReview),
    Unfinished(UnfCard),
    IncRead(IncMode),
}

/// The items of each category not yet presented, front first.
#[derive(Clone, Debug)]
pub struct ForReview {
    pub review_cards: Vec<CardID>,
    pub pending_cards: Vec<CardID>,
    pub unfinished_cards: Vec<CardID>,
    pub active_increads: Vec<IncID>,
}

/// The size of each category's queue when the session started.
#[derive(Clone, Copy, Debug, PartialEq, Eq, Structural)]
pub struct StartQty {
    pub fin_qty: usize,
    pub pending_qty: usize,
    pub unf_qty: usize,
    pub inc_qty: usize,
}

/// A review session: the current category and item, the queues, and the
/// sizes the queues started with.
#[derive(Clone, Debug)]
pub struct ReviewList {
    pub mode: ReviewMode,
    pub for_review: ForReview,
    pub start_qty: StartQty,
}

/// What the user does with the item in front.
#[derive(Clone, Copy, Debug, PartialEq, Eq, Structural)]
pub enum Intent {
    /// Show the answer.
    Reveal,
    /// Rate the recall of a revealed card.
    Grade(RecallGrade),
    /// Put the item off.
    Skip,
    /// Accept the item as done.
    Finish,
}

/// Days that a pending card put off during triage waits before it
/// resurfaces as unfinished.
pub const FIRST_SKIP_DAYS: u32 = 1;

/// What the store must do after an intent.
#[derive(Clone, Copy, Debug, PartialEq, Eq, Structural)]
pub enum ReviewAction {
    Nothing,
    /// Log a review and update the card's stability and strength.
    RecordReview { id: CardID, grade: RecallGrade, date: u32 },
    /// Turn the card into a finished card.
    MakeFinished { id: CardID },
    /// Turn the pending card into an unfinished card skipped at `skiptime`
    /// for `skipduration` days.
    MakeUnfinished { id: CardID, skiptime: u32, skipduration: u32 },
    /// Restart the unfinished card's postponement at `skiptime`.
    SkipCard { id: CardID, skiptime: u32 },
    /// Restart the item's postponement at `skiptime`.
    SkipInc { id: IncID, skiptime: u32 },
    /// Deactivate the item.
    CompleteInc { id: IncID },
}

/// A card as it is first presented.
pub open spec fn fresh_review(id: CardID) -> CardReview {
    CardReview { id, reveal: false, selection: ReviewSelection::Question(false) }
}

/// An unfinished card as it is first presented.
pub open spec fn fresh_unf(id: CardID) -> UnfCard {
    UnfCard { id, selection: UnfSelection::Question(false) }
}

/// An item as it is first presented.
pub open spec fn fresh_inc(id: IncID) -> IncMode {
    IncMode { id, selection: IncSelection::Source(false) }
}

/// `f` is `o` with the front of the first non-empty queue, in the order
/// pending, unfinished, review, incremental reading, taken out and
/// presented; or `Done` with the queues unchanged when all are empty.
pub open spec fn advanced(o: ReviewList, f: ReviewList) -> bool {
    let (op, ou, or, oi) = (
        o.for_review.pending_cards@,
        o.for_review.unfinished_cards@,
        o.for_review.review_cards@,
        o.for_review.active_increads@,
    );
    let (fp, fu, fr, fi) = (
        f.for_review.pending_cards@,
        f.for_review.unfinished_cards@,
        f.for_review.review_cards@,
        f.for_review.active_increads@,
    );
    f.start_qty == o.start_qty && if op.len() > 0 {
        f.mode == ReviewMode::Pending(fresh_review(op[0])) && fp == op.drop_first() && fu == ou
            && fr == or && fi == oi
    } else if ou.len() > 0 {
        f.mode == ReviewMode::Unfinished(fresh_unf(ou[0])) && fp == op && fu == ou.drop_first()
            && fr == or && fi == oi
    } else if or.len() > 0 {
        f.mode == ReviewMode::Review(fresh_review(or[0])) && fp == op && fu == ou && fr
            == or.drop_first() && fi == oi
    } else if oi.len() > 0 {
        f.mode == ReviewMode::IncRead(fresh_inc(oi[0])) && fp == op && fu == ou && fr == or && fi
            == oi.drop_first()
    } else {
        f.mode == ReviewMode::Done && fp == op && fu == ou && fr == or && fi == oi
    }
}

/// Whether the mode presents an item of the category, as 0 or 1.
pub open spec fn in_pending(m: ReviewMode) -> int {
    if m is Pending { 1 } else { 0 }
}

pub open spec fn in_unfinished(m: ReviewMode) -> int {
    if m is Unfinished { 1 } else { 0 }
}

pub open spec fn in_review(m: ReviewMode) -> int {
    if m is Review { 1 } else { 0 }
}

pub open spec fn in_incread(m: ReviewMode) -> int {
    if m is IncRead { 1 } else { 0 }
}

/// No category holds more items, presented one included, than it started with.
pub open spec fn session_wf(s: ReviewList) -> bool {
    s.for_review.pending_cards@.len() + in_pending(s.mode) <= s.start_qty.pending_qty
        && s.for_review.unfinished_cards@.len() + in_unfinished(s.mode) <= s.start_qty.unf_qty
        && s.for_review.review_cards@.len() + in_review(s.mode) <= s.start_qty.fin_qty
        && s.for_review.active_increads@.len() + in_incread(s.mode) <= s.start_qty.inc_qty
}

/// Items of the current category dealt with, and the category's size at
/// the start; a finished session counts as one of one.
pub open spec fn progress_of(s: ReviewList) -> (int, int) {
    match s.mode {
        ReviewMode::Done => (1, 1),
        ReviewMode::Pending(_) => (
            s.start_qty.pending_qty - s.for_review.pending_cards@.len() - 1,
            s.start_qty.pending_qty as int,
        ),
        ReviewMode::Unfinished(_) => (
            s.start_qty.unf_qty - s.for_review.unfinished_cards@.len() - 1,
            s.start_qty.unf_qty as int,
        ),
        ReviewMode::Review(_) => (
            s.start_qty.fin_qty - s.for_review.review_cards@.len() - 1,
            s.start_qty.fin_qty as int,
        ),
        ReviewMode::IncRead(_) => (
            s.start_qty.inc_qty - s.for_review.active_increads@.len() - 1,
            s.start_qty.inc_qty as int,
        ),
    }
}

/// The two modes are of the same category.
pub open spec fn same_category(a: ReviewMode, b: ReviewMode) -> bool {
    (a is Done && b is Done) || (a is Review && b is Review) || (a is Pending && b is Pending) || (
    a is Unfinished && b is Unfinished) || (a is IncRead && b is IncRead)
}

/// Whether the intent deals with the item in front, so that the session
/// moves on.
pub open spec fn completes(m: ReviewMode, i: Intent) -> bool {
    match m {
        ReviewMode::Done => false,
        ReviewMode::Review(c) => (i is Grade && c.reveal) || i is Skip,
        ReviewMode::Pending(_) => i is Finish || i is Skip,
        ReviewMode::Unfinished(_) => i is Finish || i is Skip,
        ReviewMode::IncRead(_) => i is Finish || i is Skip,
    }
}

/// What the store must do when the intent meets the mode at `now`.
pub open spec fn action_of(m: ReviewMode, i: Intent, now: u32) -> ReviewAction {
    match (m, i) {
        (ReviewMode::Review(c), Intent::Grade(g)) => if c.reveal {
            ReviewAction::RecordReview { id: c.id, grade: g, date: now }
        } else {
            ReviewAction::Nothing
        },
        (ReviewMode::Pending(c), Intent::Finish) => ReviewAction::MakeFinished { id: c.id },
        (ReviewMode::Pending(c), Intent::Skip) => ReviewAction::MakeUnfinished {
                id: c.id,
                skiptime: now,
                skipduration: FIRST_SKIP_DAYS,
            },
        (ReviewMode::Unfinished(u), Intent::Finish) => ReviewAction::MakeFinished { id: u.id },
        (ReviewMode::Unfinished(u), Intent::Skip) => ReviewAction::SkipCard { id: u.id, skiptime: now },
        (ReviewMode::IncRead(m), Intent::Finish) => ReviewAction::CompleteInc { id: m.id },
        (ReviewMode::IncRead(m), Intent::Skip) => ReviewAction::SkipInc { id: m.id, skiptime: now },
        _ => ReviewAction::Nothing,
    }
}

/// The mode with the answer shown, where the mode presents a card.
pub open spec fn revealed(m: ReviewMode) -> ReviewMode {
    match m {
        ReviewMode::Review(c) => ReviewMode::Review(CardReview { reveal: true, ..c }),
        ReviewMode::Pending(c) => ReviewMode::Pending(CardReview { reveal: true, ..c }),
        _ => m,
    }
}

/// Whether `len` queued items, and one more if `shown`, fit in `start`.
fn fits(len: usize, shown: bool, start: usize) -> (r: bool)
    ensures
        r == (len + (if shown { 1int } else { 0int }) <= start),
{
    if shown {
        len < start
    } else {
        len <= start
    }
}

impl ReviewList {
    /// Starts a session over the given queues, presenting the first item.
    pub fn new(
        review_cards: Vec<CardID>,
        pending_cards: Vec<CardID>,
        unfinished_cards: Vec<CardID>,
        active_increads: Vec<IncID>,
    ) -> (r: Self)
        ensures
            r.start_qty == (StartQty {
                fin_qty: review_cards@.len() as usize,
                pending_qty: pending_cards@.len() as usize,
                unf_qty: unfinished_cards@.len() as usize,
                inc_qty: active_increads@.len() as usize,
            }),
            advanced(
                ReviewList {
                    mode: ReviewMode::Done,
                    for_review: ForReview { review_cards, pending_cards, unfinished_cards, active_increads },
                    start_qty: r.start_qty,
                },
                r,
            ),
            session_wf(r),
    {
        let start_qty = StartQty {
            fin_qty: review_cards.len(),
            pending_qty: pending_cards.len(),
            unf_qty: unfinished_cards.len(),
            inc_qty: active_increads.len(),
        };
        let mut s = ReviewList {
            mode: ReviewMode::Done,
            for_review: ForReview { review_cards, pending_cards, unfinished_cards, active_increads },
            start_qty,
        };
        s.advance();
        s
    }

    /// Presents the front of the first non-empty queue, or ends the session.
    pub fn advance(&mut self)
        ensures
            advanced(*old(self), *final(self)),
            session_wf(*old(self)) && old(self).mode is Done ==> session_wf(*final(self)),
    {
        if self.for_review.pending_cards.len() > 0 {
            let id = self.for_review.pending_cards.remove(0);
            self.mode = ReviewMode::Pending(
                CardReview { id, reveal: false, selection: ReviewSelection::Question(false) },
            );
        } else if self.for_review.unfinished_cards.len() > 0 {
            let id = self.for_review.unfinished_cards.remove(0);
            self.mode = ReviewMode::Unfinished(UnfCard { id, selection: UnfSelection::Question(false) });
        } else if self.for_review.review_cards.len() > 0 {
            let id = self.for_review.review_cards.remove(0);
            self.mode = ReviewMode::Review(
                CardReview { id, reveal: false, selection: ReviewSelection::Question(false) },
            );
        } else if self.for_review.active_increads.len() > 0 {
            let id = self.for_review.active_increads.remove(0);
            self.mode = ReviewMode::IncRead(IncMode { id, selection: IncSelection::Source(false) });
        } else {
            self.mode = ReviewMode::Done;
        }
    }

    /// Applies the user's intent to the item in front and says what the
    /// store must do; an intent that does not apply changes nothing.
    pub fn handle(&mut self, intent: Intent, now: u32) -> (r: ReviewAction)
        ensures
            r == action_of(old(self).mode, intent, now),
            completes(old(self).mode, intent) ==> advanced(
                ReviewList { mode: ReviewMode::Done, ..*old(self) },
                *final(self),
            ),
            !completes(old(self).mode, intent) && intent is Reveal ==> *final(self) == (ReviewList {
                mode: revealed(old(self).mode),
                ..*old(self)
            }),
            !completes(old(self).mode, intent) && !(intent is Reveal) ==> *final(self) == *old(self),
            session_wf(*old(self)) ==> session_wf(*final(self)),
    {
        let action = match (self.mode, intent) {
            (ReviewMode::Review(c), Intent::Grade(g)) => if c.reveal {
                ReviewAction::RecordReview { id: c.id, grade: g, date: now }
            } else {
                ReviewAction::Nothing
            },
            (ReviewMode::Pending(c), Intent::Finish) => ReviewAction::MakeFinished { id: c.id },
            (ReviewMode::Pending(c), Intent::Skip) => ReviewAction::MakeUnfinished {
                id: c.id,
                skiptime: now,
                skipduration: FIRST_SKIP_DAYS,
            },
            (ReviewMode::Unfinished(u), Intent::Finish) => ReviewAction::MakeFinished { id: u.id },
            (ReviewMode::Unfinished(u), Intent::Skip) => ReviewAction::SkipCard { id: u.id, skiptime: now },
            (ReviewMode::IncRead(m), Intent::Finish) => ReviewAction::CompleteInc { id: m.id },
            (ReviewMode::IncRead(m), Intent::Skip) => ReviewAction::SkipInc { id: m.id, skiptime: now },
            _ => ReviewAction::Nothing,
        };
        let moves_on = match (self.mode, intent) {
            (ReviewMode::Done, _) => false,
            (ReviewMode::Review(c), Intent::Grade(_)) => c.reveal,
            (_, Intent::Skip) => true,
            (ReviewMode::Review(_), Intent::Finish) => false,
            (_, Intent::Finish) => true,
            _ => false,
        };
        if moves_on {
            self.mode = ReviewMode::Done;
            self.advance();
        } else {
            match (self.mode, intent) {
                (ReviewMode::Review(c), Intent::Reveal) => {
                    self.mode = ReviewMode::Review(CardReview { reveal: true, ..c });
                },
                (ReviewMode::Pending(c), Intent::Reveal) => {
                    self.mode = ReviewMode::Pending(CardReview { reveal: true, ..c });
                },
                _ => {},
            }
        }
        action
    }

    /// Whether no category holds more items than it started with.
    pub fn is_well_formed(&self) -> (r: bool)
        ensures
            r == session_wf(*self),
    {
        let (p, u, v, i) = match self.mode {
            ReviewMode::Done => (false, false, false, false),
            ReviewMode::Pending(_) => (true, false, false, false),
            ReviewMode::Unfinished(_) => (false, true, false, false),
            ReviewMode::Review(_) => (false, false, true, false),
            ReviewMode::IncRead(_) => (false, false, false, true),
        };
        fits(self.for_review.pending_cards.len(), p, self.start_qty.pending_qty) && fits(
            self.for_review.unfinished_cards.len(),
            u,
            self.start_qty.unf_qty,
        ) && fits(self.for_review.review_cards.len(), v, self.start_qty.fin_qty) && fits(
            self.for_review.active_increads.len(),
            i,
            self.start_qty.inc_qty,
        )
    }

    /// Items of the current category still queued behind the one shown, and
    /// the category's size at the start.
    pub fn remaining(&self) -> (r: (usize, usize))
        ensures
            r.0 == remaining_of(*self).0,
            r.1 == remaining_of(*self).1,
    {
        match self.mode {
            ReviewMode::Done => (0, 1),
            ReviewMode::Pending(_) => (self.for_review.pending_cards.len(), self.start_qty.pending_qty),
            ReviewMode::Unfinished(_) => (self.for_review.unfinished_cards.len(), self.start_qty.unf_qty),
            ReviewMode::Review(_) => (self.for_review.review_cards.len(), self.start_qty.fin_qty),
            ReviewMode::IncRead(_) => (self.for_review.active_increads.len(), self.start_qty.inc_qty),
        }
    }

    /// Items of the current category dealt with, and the category's size at
    /// the start.
    pub fn progress(&self) -> (r: (usize, usize))
        requires
            session_wf(*self),
        ensures
            r.0 == progress_of(*self).0,
            r.1 == progress_of(*self).1,
    {
        match self.mode {
            ReviewMode::Done => (1, 1),
            ReviewMode::Pending(_) => (
                self.start_qty.pending_qty - self.for_review.pending_cards.len() - 1,
                self.start_qty.pending_qty,
            ),
            ReviewMode::Unfinished(_) => (
                self.start_qty.unf_qty - self.for_review.unfinished_cards.len() - 1,
                self.start_qty.unf_qty,
            ),
            ReviewMode::Review(_) => (
                self.start_qty.fin_qty - self.for_review.review_cards.len() - 1,
                self.start_qty.fin_qty,
            ),
            ReviewMode::IncRead(_) => (
                self.start_qty.inc_qty - self.for_review.active_increads.len() - 1,
                self.start_qty.inc_qty,
            ),
        }
    }
}

/// The items of the current category still queued behind the one shown,
/// and the category's size at the start; a finished session counts as none
/// of one.
pub open spec fn remaining_of(s: ReviewList) -> (int, int) {
    match s.mode {
        ReviewMode::Done => (0, 1),
        ReviewMode::Pending(_) => (s.for_review.pending_cards@.len() as int, s.start_qty.pending_qty as int),
        ReviewMode::Unfinished(_) => (
            s.for_review.unfinished_cards@.len() as int,
            s.start_qty.unf_qty as int,
        ),
        ReviewMode::Review(_) => (s.for_review.review_cards@.len() as int, s.start_qty.fin_qty as int),
        ReviewMode::IncRead(_) => (
            s.for_review.active_increads@.len() as int,
            s.start_qty.inc_qty as int,
        ),
    }
}

/// In a well-formed session fewer items remain queued in the current
/// category than it started with, and none remain once it is done.
pub proof fn lemma_remaining_bounded(s: ReviewList)
    requires
        session_wf(s),
    ensures
        0 <= remaining_of(s).0 < remaining_of(s).1,
        remaining_of(s).0 + progress_of(s).0 + 1 == remaining_of(s).1 || s.mode is Done,
{
}

/// In a well-formed session the share of the current category dealt with
/// lies between 0 and 1.
pub proof fn lemma_progress_bounded(s: ReviewList)
    requires
        session_wf(s),
    ensures
        0 <= progress_of(s).0 <= progress_of(s).1,
        progress_of(s).1 >= 1,
{
}

/// Moving on within one category deals with one more item of it: progress
/// grows by one and stays within its bound.
pub proof fn lemma_progress_advances(o: ReviewList, f: ReviewList)
    requires
        session_wf(o),
        advanced(ReviewList { mode: ReviewMode::Done, ..o }, f),
        same_category(o.mode, f.mode),
        !(o.mode is Done),
    ensures
        session_wf(f),
        progress_of(f).0 == progress_of(o).0 + 1,
        progress_of(f).1 == progress_of(o).1,
{
}

/// A session ends only when every queue is empty.
pub proof fn lemma_done_only_when_exhausted(o: ReviewList, f: ReviewList)
    requires
        advanced(o, f),
        f.mode is Done,
    ensures
        o.for_review.pending_cards@.len() == 0,
        o.for_review.unfinished_cards@.len() == 0,
        o.for_review.review_cards@.len() == 0,
        o.for_review.active_increads@.len() == 0,
{
}

} // verus!
