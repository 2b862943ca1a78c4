use vstd::prelude::*;
use crate::schedule::{Schedule, allowed_transition, review_schedule, reviewed, valid_review};
use crate::queue::{Deck, Entry, Item, build, build_queue, entry_of, make_entry};

verus! {

/// Why an operation of the engine failed. A failed operation changes nothing.
#[derive(PartialEq, Eq, Structural, Clone, Copy, Debug)]
pub enum CardsError {
    /// No deck of that name, or no card of that identifier in it.
    NotFound,
    /// The deck has handed out its last identifier.
    StoreUnavailable,
    /// The scheduler's result is not an acceptable outcome of a review.
    SchedulingFailure,
    /// Stored data names no valid state.
    InvalidState,
    /// A deck of that name exists already.
    AlreadyExists,
}

/// The review queue engine: the decks, the daily cap on New cards per deck,
/// the clock, the schedule of a new card, and the cached queue of cards due
/// for review, rebuilt after every change.
pub struct Cards {
    pub decks: Vec<Deck>,
    pub new_cards: u64,
    pub now: i64,
    pub midnight: i64,
    pub fresh: Schedule,
    pub cards: Vec<Entry>,
}

/// Whether `ds[i]` is the first deck named `name`.
pub open spec fn first_deck(ds: Seq<Deck>, name: Seq<char>, i: int) -> bool {
    0 <= i < ds.len() && ds[i].name@ == name && forall|j: int| 0 <= j < i ==> ds[j].name@ != name
}

pub open spec fn has_deck(ds: Seq<Deck>, name: Seq<char>) -> bool {
    exists|i: int| 0 <= i < ds.len() && ds[i].name@ == name
}

/// Whether `s[k]` is the first card with identifier `id`.
pub open spec fn first_item(s: Seq<Item>, id: i64, k: int) -> bool {
    0 <= k < s.len() && s[k].id == id && forall|j: int| 0 <= j < k ==> s[j].id != id
}

pub open spec fn has_item(s: Seq<Item>, id: i64) -> bool {
    exists|k: int| 0 <= k < s.len() && s[k].id == id
}

/// Whether the card `id` exists in the deck named `deck`.
pub open spec fn has_card(ds: Seq<Deck>, deck: Seq<char>, id: i64) -> bool {
    exists|i: int| first_deck(ds, deck, i) && has_item(ds[i].items@, id)
}

/// Whether `new` is `old` with deck `i` replaced by one of the given name,
/// next identifier and cards.
pub open spec fn deck_replaced(
    old: Seq<Deck>,
    new: Seq<Deck>,
    i: int,
    name: String,
    next_id: i64,
    items: Seq<Item>,
) -> bool {
    &&& new.len() == old.len()
    &&& forall|j: int| 0 <= j < old.len() && j != i ==> new[j] == old[j]
    &&& new[i].name == name
    &&& new[i].next_id == next_id
    &&& new[i].items@ == items
}

/// Every card of deck `d` has an identifier below the deck's next one.
pub open spec fn ids_below(d: Deck) -> bool {
    forall|k: int| 0 <= k < d.items@.len() ==> #[trigger] d.items@[k].id < d.next_id
}

pub open spec fn decks_ids_below(ds: Seq<Deck>) -> bool {
    forall|i: int| 0 <= i < ds.len() ==> ids_below(#[trigger] ds[i])
}

/// A card just created, with the schedule of a new card.
pub open spec fn fresh_item(id: i64, front: String, back: String, fresh: Schedule) -> Item {
    Item { id, front, back, schedule: fresh, first_studied_at: None }
}

/// Card `it` after a reset: the schedule of a new card, and no first study.
pub open spec fn reset_item(it: Item, fresh: Schedule) -> Item {
    Item { schedule: fresh, first_studied_at: None, ..it }
}

/// Card `it` after a review at `now` whose scheduler result is `next`; the
/// time of first study is set only where it was absent.
pub open spec fn review_item(it: Item, next: Schedule, now: i64) -> Item {
    Item {
        schedule: reviewed(it.schedule, next, now),
        first_studied_at: match it.first_studied_at {
            Some(t) => Some(t),
            None => Some(now),
        },
        ..it
    }
}

/// Card `it` with new faces.
pub open spec fn edited_item(it: Item, front: String, back: String) -> Item {
    Item { front, back, ..it }
}

/// The first card of the queue, or `Err(())` when the queue is empty.
pub open spec fn head(q: Seq<Entry>) -> Result<Entry, ()> {
    if q.len() == 0 {
        Err(())
    } else {
        Ok(q[0])
    }
}

fn find_deck(ds: &Vec<Deck>, name: &String) -> (r: Option<usize>)
    ensures
        match r {
            Some(i) => first_deck(ds@, name@, i as int),
            None => !has_deck(ds@, name@),
        },
{
    let mut i: usize = 0;
    while i < ds.len()
        invariant
            i <= ds.len(),
            forall|j: int| 0 <= j < i ==> ds@[j].name@ != name@,
        decreases ds.len() - i,
    {
        if ds[i].name == *name {
            return Some(i);
        }
        i = i + 1;
    }
    None
}

fn find_item(s: &Vec<Item>, id: i64) -> (r: Option<usize>)
    ensures
        match r {
            Some(k) => first_item(s@, id, k as int),
            None => !has_item(s@, id),
        },
{
    let mut k: usize = 0;
    while k < s.len()
        invariant
            k <= s.len(),
            forall|j: int| 0 <= j < k ==> s@[j].id != id,
        decreases s.len() - k,
    {
        if s[k].id == id {
            return Some(k);
        }
        k = k + 1;
    }
    None
}

/// Whether each deck's next identifier is above the identifiers of its
/// cards.
pub fn ids_fresh(decks: &Vec<Deck>) -> (r: bool)
    ensures
        r == decks_ids_below(decks@),
{
    let mut i: usize = 0;
    while i < decks.len()
        invariant
            i <= decks@.len(),
            forall|m: int| 0 <= m < i ==> ids_below(#[trigger] decks@[m]),
        decreases decks@.len() - i,
    {
        let d = &decks[i];
        let mut k: usize = 0;
        while k < d.items.len()
            invariant
                i < decks@.len(),
                d == decks@[i as int],
                k <= d.items@.len(),
                forall|j: int| 0 <= j < k ==> #[trigger] d.items@[j].id < d.next_id,
            decreases d.items@.len() - k,
        {
            if d.items[k].id >= d.next_id {
                assert(!ids_below(decks@[i as int]));
                return false;
            }
            k = k + 1;
        }
        i = i + 1;
    }
    true
}

impl Cards {
    /// The cached queue is the queue built from the decks, the cap and the
    /// clock.
    pub open spec fn wf(&self) -> bool {
        &&& self.cards@ == build(self.decks@, self.new_cards, self.now, self.midnight)
        &&& decks_ids_below(self.decks@)
    }

    /// An engine with no decks, a daily cap of `new_cards` New cards per deck,
    /// the clock at `now` with the last local midnight at `midnight`, and
    /// `fresh` as the schedule of every new or reset card.
    pub fn new(new_cards: u64, now: i64, midnight: i64, fresh: Schedule) -> (r: Cards)
        ensures
            r.wf(),
            r.decks@.len() == 0,
            r.cards@.len() == 0,
            r.new_cards == new_cards,
            r.now == now,
            r.midnight == midnight,
            r.fresh == fresh,
    {
        Cards { decks: Vec::new(), new_cards, now, midnight, fresh, cards: Vec::new() }
    }

    /// An engine over the decks `decks` as the store holds them, with the
    /// queue built from them. Each deck's next identifier must be above the
    /// identifiers of its cards (see `ids_fresh`).
    pub fn from_decks(decks: Vec<Deck>, new_cards: u64, now: i64, midnight: i64, fresh: Schedule) -> (r: Cards)
        requires
            decks_ids_below(decks@),
        ensures
            r.wf(),
            r.decks@ == decks@,
            r.new_cards == new_cards,
            r.now == now,
            r.midnight == midnight,
            r.fresh == fresh,
    {
        let cards = build_queue(&decks, new_cards, now, midnight);
        Cards { decks, new_cards, now, midnight, fresh, cards }
    }

    fn refresh(&mut self)
        requires
            decks_ids_below(old(self).decks@),
        ensures
            final(self).wf(),
            final(self).decks == old(self).decks,
            final(self).new_cards == old(self).new_cards,
            final(self).now == old(self).now,
            final(self).midnight == old(self).midnight,
            final(self).fresh == old(self).fresh,
    {
        self.cards = build_queue(&self.decks, self.new_cards, self.now, self.midnight);
    }

    /// The number of cards in the queue.
    pub fn card_count(&self) -> (r: usize)
        ensures
            r == self.cards@.len(),
    {
        self.cards.len()
    }

    /// The first card of the queue, or `Err(())` when none is due.
    pub fn current_card(&self) -> (r: Result<Entry, ()>)
        ensures
            r == head(self.cards@),
    {
        if self.cards.len() == 0 {
            Err(())
        } else {
            Ok(self.cards[0].copy())
        }
    }

    /// Sets the clock and rebuilds the queue.
    pub fn set_clock(&mut self, now: i64, midnight: i64)
        requires
            old(self).wf(),
        ensures
            final(self).wf(),
            final(self).now == now,
            final(self).midnight == midnight,
            final(self).decks == old(self).decks,
            final(self).new_cards == old(self).new_cards,
            final(self).fresh == old(self).fresh,
    {
        self.now = now;
        self.midnight = midnight;
        self.refresh();
    }

    /// Sets the daily cap on New cards per deck and rebuilds the queue.
    pub fn set_new_cards(&mut self, new_cards: u64)
        requires
            old(self).wf(),
        ensures
            final(self).wf(),
            final(self).new_cards == new_cards,
            final(self).decks == old(self).decks,
            final(self).now == old(self).now,
            final(self).midnight == old(self).midnight,
            final(self).fresh == old(self).fresh,
    {
        self.new_cards = new_cards;
        self.refresh();
    }

    /// Replaces card `k` of deck `i` by `it` and rebuilds the queue.
    fn replace_item(&mut self, i: usize, k: usize, it: Item)
        requires
            i < old(self).decks@.len(),
            k < old(self).decks@[i as int].items@.len(),
            decks_ids_below(old(self).decks@),
            it.id == old(self).decks@[i as int].items@[k as int].id,
        ensures
            deck_replaced(
                old(self).decks@,
                final(self).decks@,
                i as int,
                old(self).decks@[i as int].name,
                old(self).decks@[i as int].next_id,
                old(self).decks@[i as int].items@.update(k as int, it),
            ),
            final(self).wf(),
            final(self).new_cards == old(self).new_cards,
            final(self).now == old(self).now,
            final(self).midnight == old(self).midnight,
            final(self).fresh == old(self).fresh,
    {
        let ghost before = self.decks@;
        let mut d = self.decks.remove(i);
        d.items.set(k, it);
        self.decks.insert(i, d);
        assert(self.decks@ =~= before.update(i as int, d));
        assert(ids_below(self.decks@[i as int]));
        self.refresh();
    }

    /// Records a review of card `id` of deck `deck`, for which the scheduler
    /// proposed the schedule `card`, at the engine's clock, and rebuilds the
    /// queue. The previous state becomes the card's state before the review,
    /// the last review time becomes the clock, and the time of first study is
    /// set where it was absent.
    ///
    /// Fails with `NotFound` where there is no such card, and with
    /// `SchedulingFailure` where `card` does not follow an allowed transition
    /// from the card's state or carries no review log.
    pub fn update_card(&mut self, deck: String, id: i64, card: &Schedule) -> (r: Result<(), CardsError>)
        requires
            old(self).wf(),
        ensures
            final(self).wf(),
            final(self).new_cards == old(self).new_cards,
            final(self).now == old(self).now,
            final(self).midnight == old(self).midnight,
            final(self).fresh == old(self).fresh,
            !has_card(old(self).decks@, deck@, id) ==> r == Err::<(), CardsError>(CardsError::NotFound),
            r is Err ==> *final(self) == *old(self),
            has_card(old(self).decks@, deck@, id) ==> forall|i: int, k: int|
                first_deck(old(self).decks@, deck@, i) && first_item(old(self).decks@[i].items@, id, k) ==> {
                    let it = old(self).decks@[i].items@[k];
                    &&& (r is Ok <==> valid_review(it.schedule, *card))
                    &&& (r is Err ==> r == Err::<(), CardsError>(CardsError::SchedulingFailure))
                    &&& (r is Ok ==> deck_replaced(
                        old(self).decks@,
                        final(self).decks@,
                        i,
                        old(self).decks@[i].name,
                        old(self).decks@[i].next_id,
                        old(self).decks@[i].items@.update(k, review_item(it, *card, old(self).now)),
                    ))
                },
    {
        let i = match find_deck(&self.decks, &deck) {
            Some(i) => i,
            None => {
                return Err(CardsError::NotFound);
            },
        };
        let k = match find_item(&self.decks[i].items, id) {
            Some(k) => k,
            None => {
                proof {
                    assert forall|j: int| first_deck(self.decks@, deck@, j) implies !has_item(self.decks@[j].items@, id) by {
                        assert(j == i);
                    }
                }
                return Err(CardsError::NotFound);
            },
        };
        let cur = &self.decks[i].items[k];
        let sched = match review_schedule(cur.schedule, *card, self.now) {
            Some(s) => s,
            None => {
                return Err(CardsError::SchedulingFailure);
            },
        };
        let first = match cur.first_studied_at {
            Some(t) => Some(t),
            None => Some(self.now),
        };
        let it = Item {
            id: cur.id,
            front: cur.front.clone(),
            back: cur.back.clone(),
            schedule: sched,
            first_studied_at: first,
        };
        self.replace_item(i, k, it);
        Ok(())
    }

    /// Finds card `id` of deck `deck`: the positions of its deck and of the
    /// card, or `NotFound`.
    fn locate(&self, deck: &String, id: i64) -> (r: Result<(usize, usize), CardsError>)
        ensures
            match r {
                Ok((i, k)) => first_deck(self.decks@, deck@, i as int) && first_item(
                    self.decks@[i as int].items@,
                    id,
                    k as int,
                ),
                Err(e) => e == CardsError::NotFound && !has_card(self.decks@, deck@, id),
            },
    {
        let i = match find_deck(&self.decks, deck) {
            Some(i) => i,
            None => {
                return Err(CardsError::NotFound);
            },
        };
        match find_item(&self.decks[i].items, id) {
            Some(k) => Ok((i, k)),
            None => {
                proof {
                    assert forall|j: int| first_deck(self.decks@, deck@, j) implies !has_item(self.decks@[j].items@, id) by {
                        assert(j == i);
                    }
                }
                Err(CardsError::NotFound)
            },
        }
    }

    /// Adds a New card with faces `front` and `back` and the schedule of a new
    /// card to the deck named `deck`, rebuilds the queue, and returns the
    /// card's identifier: the deck's next identifier, which then moves on by
    /// one, so that no identifier is used twice.
    ///
    /// Fails with `NotFound` where there is no such deck, and with
    /// `StoreUnavailable` where the deck's identifiers are used up.
    pub fn new_card(&mut self, deck: String, front: String, back: String) -> (r: Result<i64, CardsError>)
        requires
            old(self).wf(),
        ensures
            final(self).wf(),
            final(self).new_cards == old(self).new_cards,
            final(self).now == old(self).now,
            final(self).midnight == old(self).midnight,
            final(self).fresh == old(self).fresh,
            !has_deck(old(self).decks@, deck@) ==> r == Err::<i64, CardsError>(CardsError::NotFound),
            r is Err ==> *final(self) == *old(self),
            forall|i: int| first_deck(old(self).decks@, deck@, i) ==> {
                let d = old(self).decks@[i];
                &&& (r is Ok <==> d.next_id < i64::MAX)
                &&& (r is Err ==> r == Err::<i64, CardsError>(CardsError::StoreUnavailable))
                &&& (r is Ok ==> !has_item(d.items@, d.next_id))
                &&& (r is Ok ==> r == Ok::<i64, CardsError>(d.next_id) && deck_replaced(
                    old(self).decks@,
                    final(self).decks@,
                    i,
                    d.name,
                    (d.next_id + 1) as i64,
                    d.items@.push(fresh_item(d.next_id, front, back, old(self).fresh)),
                ))
            },
    {
        let i = match find_deck(&self.decks, &deck) {
            Some(i) => i,
            None => {
                return Err(CardsError::NotFound);
            },
        };
        let id = self.decks[i].next_id;
        if id == i64::MAX {
            return Err(CardsError::StoreUnavailable);
        }
        let ghost before = self.decks@;
        let mut d = self.decks.remove(i);
        d.items.push(Item { id, front, back, schedule: self.fresh, first_studied_at: None });
        d.next_id = id + 1;
        self.decks.insert(i, d);
        assert(self.decks@ =~= before.update(i as int, d));
        self.refresh();
        Ok(id)
    }

    /// Replaces the faces of card `id` of deck `deck`; its schedule stays as
    /// it was. Rebuilds the queue. Fails with `NotFound` where there is no
    /// such card.
    pub fn edit_card(&mut self, deck: String, id: i64, front: String, back: String) -> (r: Result<(), CardsError>)
        requires
            old(self).wf(),
        ensures
            final(self).wf(),
            final(self).new_cards == old(self).new_cards,
            final(self).now == old(self).now,
            final(self).midnight == old(self).midnight,
            final(self).fresh == old(self).fresh,
            r is Err <==> !has_card(old(self).decks@, deck@, id),
            r is Err ==> r == Err::<(), CardsError>(CardsError::NotFound) && *final(self) == *old(self),
            forall|i: int, k: int|
                first_deck(old(self).decks@, deck@, i) && first_item(old(self).decks@[i].items@, id, k) ==>
                    deck_replaced(
                        old(self).decks@,
                        final(self).decks@,
                        i,
                        old(self).decks@[i].name,
                        old(self).decks@[i].next_id,
                        old(self).decks@[i].items@.update(k, edited_item(old(self).decks@[i].items@[k], front, back)),
                    ),
    {
        let (i, k) = match self.locate(&deck, id) {
            Ok(p) => p,
            Err(e) => {
                return Err(e);
            },
        };
        let cur = &self.decks[i].items[k];
        let it = Item {
            id: cur.id,
            front,
            back,
            schedule: cur.schedule,
            first_studied_at: cur.first_studied_at,
        };
        self.replace_item(i, k, it);
        Ok(())
    }

    /// Resets card `id` of deck `deck` to the schedule of a new card and
    /// clears its time of first study; its faces stay. Rebuilds the queue.
    /// Fails with `NotFound` where there is no such card.
    pub fn reset_card(&mut self, deck: String, id: i64) -> (r: Result<(), CardsError>)
        requires
            old(self).wf(),
        ensures
            final(self).wf(),
            final(self).new_cards == old(self).new_cards,
            final(self).now == old(self).now,
            final(self).midnight == old(self).midnight,
            final(self).fresh == old(self).fresh,
            r is Err <==> !has_card(old(self).decks@, deck@, id),
            r is Err ==> r == Err::<(), CardsError>(CardsError::NotFound) && *final(self) == *old(self),
            forall|i: int, k: int|
                first_deck(old(self).decks@, deck@, i) && first_item(old(self).decks@[i].items@, id, k) ==>
                    deck_replaced(
                        old(self).decks@,
                        final(self).decks@,
                        i,
                        old(self).decks@[i].name,
                        old(self).decks@[i].next_id,
                        old(self).decks@[i].items@.update(k, reset_item(old(self).decks@[i].items@[k], old(self).fresh)),
                    ),
    {
        let (i, k) = match self.locate(&deck, id) {
            Ok(p) => p,
            Err(e) => {
                return Err(e);
            },
        };
        let cur = &self.decks[i].items[k];
        let it = Item {
            id: cur.id,
            front: cur.front.clone(),
            back: cur.back.clone(),
            schedule: self.fresh,
            first_studied_at: None,
        };
        self.replace_item(i, k, it);
        Ok(())
    }

    /// Deletes card `id` of deck `deck` and rebuilds the queue. Fails with
    /// `NotFound` where there is no such card.
    pub fn delete_card(&mut self, deck: String, id: i64) -> (r: Result<(), CardsError>)
        requires
            old(self).wf(),
        ensures
            final(self).wf(),
            final(self).new_cards == old(self).new_cards,
            final(self).now == old(self).now,
            final(self).midnight == old(self).midnight,
            final(self).fresh == old(self).fresh,
            r is Err <==> !has_card(old(self).decks@, deck@, id),
            r is Err ==> r == Err::<(), CardsError>(CardsError::NotFound) && *final(self) == *old(self),
            forall|i: int, k: int|
                first_deck(old(self).decks@, deck@, i) && first_item(old(self).decks@[i].items@, id, k) ==>
                    deck_replaced(
                        old(self).decks@,
                        final(self).decks@,
                        i,
                        old(self).decks@[i].name,
                        old(self).decks@[i].next_id,
                        old(self).decks@[i].items@.remove(k),
                    ),
    {
        let (i, k) = match self.locate(&deck, id) {
            Ok(p) => p,
            Err(e) => {
                return Err(e);
            },
        };
        let ghost before = self.decks@;
        let mut d = self.decks.remove(i);
        d.items.remove(k);
        self.decks.insert(i, d);
        assert(self.decks@ =~= before.update(i as int, d));
        self.refresh();
        Ok(())
    }

    /// The names of the decks, in deck order.
    pub fn get_decks(&self) -> (r: Vec<String>)
        ensures
            r@.len() == self.decks@.len(),
            forall|j: int| 0 <= j < r@.len() ==> r@[j] == self.decks@[j].name,
    {
        let mut r: Vec<String> = Vec::new();
        let mut j: usize = 0;
        while j < self.decks.len()
            invariant
                j <= self.decks@.len(),
                r@.len() == j,
                forall|m: int| 0 <= m < j ==> r@[m] == self.decks@[m].name,
            decreases self.decks@.len() - j,
        {
            r.push(self.decks[j].name.clone());
            j = j + 1;
        }
        r
    }

    /// Adds an empty deck named `deck` after the others and rebuilds the
    /// queue. Fails with `AlreadyExists` where a deck has that name.
    pub fn new_deck(&mut self, deck: String) -> (r: Result<(), CardsError>)
        requires
            old(self).wf(),
        ensures
            final(self).wf(),
            final(self).new_cards == old(self).new_cards,
            final(self).now == old(self).now,
            final(self).midnight == old(self).midnight,
            final(self).fresh == old(self).fresh,
            r is Err <==> has_deck(old(self).decks@, deck@),
            r is Err ==> r == Err::<(), CardsError>(CardsError::AlreadyExists) && *final(self) == *old(self),
            r is Ok ==> {
                &&& final(self).decks@.len() == old(self).decks@.len() + 1
                &&& final(self).decks@.drop_last() == old(self).decks@
                &&& final(self).decks@.last().name == deck
                &&& final(self).decks@.last().next_id == 1
                &&& final(self).decks@.last().items@.len() == 0
            },
    {
        if find_deck(&self.decks, &deck).is_some() {
            return Err(CardsError::AlreadyExists);
        }
        let ghost before = self.decks@;
        self.decks.push(Deck { name: deck, next_id: 1, items: Vec::new() });
        assert(self.decks@.drop_last() =~= before);
        self.refresh();
        Ok(())
    }

    /// Renames the deck `deck` to `name`; its cards and their identifiers stay.
    /// Rebuilds the queue. Fails with `NotFound` where there is no deck named
    /// `deck`, and otherwise with `AlreadyExists` where a deck is named `name`.
    pub fn rename_deck(&mut self, deck: String, name: String) -> (r: Result<(), CardsError>)
        requires
            old(self).wf(),
        ensures
            final(self).wf(),
            final(self).new_cards == old(self).new_cards,
            final(self).now == old(self).now,
            final(self).midnight == old(self).midnight,
            final(self).fresh == old(self).fresh,
            !has_deck(old(self).decks@, deck@) ==> r == Err::<(), CardsError>(CardsError::NotFound),
            has_deck(old(self).decks@, deck@) && has_deck(old(self).decks@, name@) ==> r == Err::<(), CardsError>(CardsError::AlreadyExists),
            r is Ok <==> has_deck(old(self).decks@, deck@) && !has_deck(old(self).decks@, name@),
            r is Err ==> *final(self) == *old(self),
            r is Ok ==> forall|i: int| first_deck(old(self).decks@, deck@, i) ==> deck_replaced(
                old(self).decks@,
                final(self).decks@,
                i,
                name,
                old(self).decks@[i].next_id,
                old(self).decks@[i].items@,
            ),
    {
        let i = match find_deck(&self.decks, &deck) {
            Some(i) => i,
            None => {
                return Err(CardsError::NotFound);
            },
        };
        if find_deck(&self.decks, &name).is_some() {
            return Err(CardsError::AlreadyExists);
        }
        let ghost before = self.decks@;
        let mut d = self.decks.remove(i);
        d.name = name;
        self.decks.insert(i, d);
        assert(self.decks@ =~= before.update(i as int, d));
        self.refresh();
        Ok(())
    }

    /// Deletes the deck `deck` with all its cards and rebuilds the queue.
    /// Fails with `NotFound` where there is no such deck.
    pub fn delete_deck(&mut self, deck: String) -> (r: Result<(), CardsError>)
        requires
            old(self).wf(),
        ensures
            final(self).wf(),
            final(self).new_cards == old(self).new_cards,
            final(self).now == old(self).now,
            final(self).midnight == old(self).midnight,
            final(self).fresh == old(self).fresh,
            r is Err <==> !has_deck(old(self).decks@, deck@),
            r is Err ==> r == Err::<(), CardsError>(CardsError::NotFound) && *final(self) == *old(self),
            r is Ok ==> forall|i: int| first_deck(old(self).decks@, deck@, i) ==> final(self).decks@ == old(self).decks@.remove(i),
    {
        let i = match find_deck(&self.decks, &deck) {
            Some(i) => i,
            None => {
                return Err(CardsError::NotFound);
            },
        };
        self.decks.remove(i);
        self.refresh();
        Ok(())
    }

    /// The cards of deck `deck` in the order of insertion, as entries. Fails
    /// with `NotFound` where there is no such deck.
    pub fn get_deck(&self, deck: String) -> (r: Result<Vec<Entry>, CardsError>)
        ensures
            r is Err <==> !has_deck(self.decks@, deck@),
            r is Err ==> r == Err::<Vec<Entry>, CardsError>(CardsError::NotFound),
            forall|i: int| #![trigger first_deck(self.decks@, deck@, i)] first_deck(self.decks@, deck@, i) ==> match r {
                Ok(v) => v@.len() == self.decks@[i].items@.len() && forall|k: int| 0 <= k < v@.len()
                    ==> v@[k] == entry_of(self.decks@[i].name, self.decks@[i].items@[k]),
                Err(_) => false,
            },
    {
        let i = match find_deck(&self.decks, &deck) {
            Some(i) => i,
            None => {
                return Err(CardsError::NotFound);
            },
        };
        let d = &self.decks[i];
        let mut v: Vec<Entry> = Vec::new();
        let mut k: usize = 0;
        while k < d.items.len()
            invariant
                d == self.decks@[i as int],
                k <= d.items@.len(),
                v@.len() == k,
                forall|m: int| 0 <= m < k ==> v@[m] == entry_of(d.name, d.items@[m]),
            decreases d.items@.len() - k,
        {
            v.push(make_entry(&d.name, &d.items[k]));
            k = k + 1;
        }
        Ok(v)
    }

    /// The faces of the cards of deck `deck` in the order of insertion; the
    /// schedules are left out. Fails with `NotFound` where there is no such
    /// deck.
    pub fn export_deck(&self, deck: String) -> (r: Result<Vec<(String, String)>, CardsError>)
        ensures
            r is Err <==> !has_deck(self.decks@, deck@),
            r is Err ==> r == Err::<Vec<(String, String)>, CardsError>(CardsError::NotFound),
            forall|i: int| #![trigger first_deck(self.decks@, deck@, i)] first_deck(self.decks@, deck@, i) ==> match r {
                Ok(v) => v@.len() == self.decks@[i].items@.len() && forall|k: int| 0 <= k < v@.len()
                    ==> v@[k] == (self.decks@[i].items@[k].front, self.decks@[i].items@[k].back),
                Err(_) => false,
            },
    {
        let i = match find_deck(&self.decks, &deck) {
            Some(i) => i,
            None => {
                return Err(CardsError::NotFound);
            },
        };
        let d = &self.decks[i];
        let mut v: Vec<(String, String)> = Vec::new();
        let mut k: usize = 0;
        while k < d.items.len()
            invariant
                d == self.decks@[i as int],
                k <= d.items@.len(),
                v@.len() == k,
                forall|m: int| 0 <= m < k ==> v@[m] == (d.items@[m].front, d.items@[m].back),
            decreases d.items@.len() - k,
        {
            v.push((d.items[k].front.clone(), d.items[k].back.clone()));
            k = k + 1;
        }
        Ok(v)
    }

    /// Adds a deck named `deck` holding one New card for each pair of faces in
    /// `pairs`, in order, with identifiers from 1 up, and rebuilds the queue.
    /// Fails with `AlreadyExists` where a deck has that name, and otherwise
    /// with `StoreUnavailable` where there are too many pairs for the
    /// identifiers.
    pub fn import_deck(&mut self, deck: String, pairs: Vec<(String, String)>) -> (r: Result<(), CardsError>)
        requires
            old(self).wf(),
        ensures
            final(self).wf(),
            final(self).new_cards == old(self).new_cards,
            final(self).now == old(self).now,
            final(self).midnight == old(self).midnight,
            final(self).fresh == old(self).fresh,
            has_deck(old(self).decks@, deck@) ==> r == Err::<(), CardsError>(CardsError::AlreadyExists),
            !has_deck(old(self).decks@, deck@) && pairs@.len() >= i64::MAX ==> r == Err::<(), CardsError>(CardsError::StoreUnavailable),
            r is Ok <==> !has_deck(old(self).decks@, deck@) && pairs@.len() < i64::MAX,
            r is Err ==> *final(self) == *old(self),
            r is Ok ==> {
                let d = final(self).decks@.last();
                &&& final(self).decks@.len() == old(self).decks@.len() + 1
                &&& final(self).decks@.drop_last() == old(self).decks@
                &&& d.name == deck
                &&& d.next_id == pairs@.len() + 1
                &&& d.items@.len() == pairs@.len()
                &&& forall|k: int| 0 <= k < pairs@.len() ==> d.items@[k] == fresh_item(
                    (k + 1) as i64,
                    pairs@[k].0,
                    pairs@[k].1,
                    old(self).fresh,
                )
            },
    {
        if find_deck(&self.decks, &deck).is_some() {
            return Err(CardsError::AlreadyExists);
        }
        let n = pairs.len();
        if n as u128 >= i64::MAX as u128 {
            return Err(CardsError::StoreUnavailable);
        }
        let mut items: Vec<Item> = Vec::new();
        let mut k: usize = 0;
        while k < n
            invariant
                n == pairs@.len(),
                n < i64::MAX,
                k <= n,
                items@.len() == k,
                forall|m: int| 0 <= m < k ==> items@[m] == fresh_item(
                    (m + 1) as i64,
                    pairs@[m].0,
                    pairs@[m].1,
                    self.fresh,
                ),
            decreases n - k,
        {
            let (front, back) = (pairs[k].0.clone(), pairs[k].1.clone());
            items.push(Item { id: (k + 1) as i64, front, back, schedule: self.fresh, first_studied_at: None });
            k = k + 1;
        }
        let ghost before = self.decks@;
        self.decks.push(Deck { name: deck, next_id: n as i64 + 1, items });
        assert(self.decks@.drop_last() =~= before);
        self.refresh();
        Ok(())
    }
}

/// A recorded review leads to a state that the transition rules allow from
/// the card's state before it, and records that state as the previous one.
pub proof fn lemma_review_closed(it: Item, next: Schedule, now: i64)
    requires
        valid_review(it.schedule, next),
    ensures
        allowed_transition(it.schedule.state, review_item(it, next, now).schedule.state),
        review_item(it, next, now).schedule.previous_state == it.schedule.state,
        review_item(it, next, now).schedule.last_review == now,
        review_item(it, next, now).first_studied_at is Some,
{
}

/// A card after a reset is the card that creation would make with the same
/// identifier and faces.
pub proof fn lemma_reset_is_fresh(it: Item, fresh: Schedule)
    ensures
        reset_item(it, fresh) == fresh_item(it.id, it.front, it.back, fresh),
{
}

/// The first card of the queue depends on the engine's state alone: asked
/// twice with no change between, it is the same.
pub proof fn lemma_current_card_stable(a: Cards, b: Cards)
    requires
        a == b,
    ensures
        head(a.cards@) == head(b.cards@),
{
}

} // verus!
