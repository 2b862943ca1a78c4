use vstd::prelude::*;
use crate::schedule::{MemoryState, Schedule};

verus! {

/// A stored card: its identifier within its deck, its two faces, its
/// schedule, and when it first left the New state (seconds since the Unix
/// epoch), if it has since its last reset.
#[derive(Debug, PartialEq, Eq)]
pub struct Item {
    pub id: i64,
    pub front: String,
    pub back: String,
    pub schedule: Schedule,
    pub first_studied_at: Option<i64>,
}

/// A named deck: its cards in the order of insertion, and the identifier
/// that the next card will get.
#[derive(Debug, PartialEq, Eq)]
pub struct Deck {
    pub name: String,
    pub next_id: i64,
    pub items: Vec<Item>,
}

/// A card as handed out by the queue, with the name of its deck.
#[derive(Debug, PartialEq, Eq)]
pub struct Entry {
    pub deck: String,
    pub id: i64,
    pub front: String,
    pub back: String,
    pub schedule: Schedule,
}

impl Item {
    /// A copy of this card.
    pub fn copy(&self) -> (r: Item)
        ensures
            r == *self,
    {
        Item {
            id: self.id,
            front: self.front.clone(),
            back: self.back.clone(),
            schedule: self.schedule,
            first_studied_at: self.first_studied_at,
        }
    }
}

impl Entry {
    /// A copy of this entry.
    pub fn copy(&self) -> (r: Entry)
        ensures
            r == *self,
    {
        Entry {
            deck: self.deck.clone(),
            id: self.id,
            front: self.front.clone(),
            back: self.back.clone(),
            schedule: self.schedule,
        }
    }
}

/// The entry for card `it` of the deck named `name`.
pub open spec fn entry_of(name: String, it: Item) -> Entry {
    Entry { deck: name, id: it.id, front: it.front, back: it.back, schedule: it.schedule }
}

/// Builds the entry for card `it` of the deck named `name`.
pub fn make_entry(name: &String, it: &Item) -> (r: Entry)
    ensures
        r == entry_of(*name, *it),
{
    Entry {
        deck: name.clone(),
        id: it.id,
        front: it.front.clone(),
        back: it.back.clone(),
        schedule: it.schedule,
    }
}

/// `s` with `x` placed after every card whose due time is not later than
/// its own.
pub open spec fn insert_by_due(s: Seq<Item>, x: Item) -> Seq<Item>
    decreases s.len(),
{
    if s.len() == 0 {
        seq![x]
    } else if s.last().schedule.due <= x.schedule.due {
        s.push(x)
    } else {
        insert_by_due(s.drop_last(), x).push(s.last())
    }
}

/// The cards of `s` in ascending order of due time; cards due at the same
/// time keep their relative order.
pub open spec fn by_due(s: Seq<Item>) -> Seq<Item>
    decreases s.len(),
{
    if s.len() == 0 {
        s
    } else {
        insert_by_due(by_due(s.drop_last()), s.last())
    }
}

/// The number of New cards in `s`.
pub open spec fn new_count(s: Seq<Item>) -> nat
    decreases s.len(),
{
    if s.len() == 0 {
        0
    } else {
        (if s[0].schedule.state == MemoryState::New { 1nat } else { 0nat }) + new_count(s.skip(1))
    }
}

/// The number of cards of `s` that first left the New state after `midnight`.
pub open spec fn introduced_since(s: Seq<Item>, midnight: i64) -> nat
    decreases s.len(),
{
    if s.len() == 0 {
        0
    } else {
        (match s.last().first_studied_at {
            Some(t) => if t > midnight { 1nat } else { 0nat },
            None => 0nat,
        }) + introduced_since(s.drop_last(), midnight)
    }
}

/// Whether card `it` enters the queue when it is scanned with `count` New
/// cards already counted against the cap.
pub open spec fn admitted(it: Item, count: int, cap: int, now: i64) -> bool {
    it.schedule.due <= now && (it.schedule.state != MemoryState::New || count < cap)
}

/// The entries that the scan of `s` (cards of the deck named `name`, in scan
/// order) admits, starting with `count` New cards counted. Every New card
/// scanned adds one to the count, whether it was admitted or not.
pub open spec fn scan(name: String, s: Seq<Item>, count: int, cap: int, now: i64) -> Seq<Entry>
    decreases s.len(),
{
    if s.len() == 0 {
        Seq::empty()
    } else {
        let it = s[0];
        let next = if it.schedule.state == MemoryState::New { count + 1 } else { count };
        let rest = scan(name, s.skip(1), next, cap, now);
        if admitted(it, count, cap, now) {
            seq![entry_of(name, it)] + rest
        } else {
            rest
        }
    }
}

/// The queue entries of deck `d`: its cards scanned in due order, the count
/// starting at the number of cards introduced since `midnight`.
pub open spec fn deck_queue(d: Deck, cap: u64, now: i64, midnight: i64) -> Seq<Entry> {
    scan(d.name, by_due(d.items@), introduced_since(d.items@, midnight) as int, cap as int, now)
}

/// The queue over all decks: each deck's entries in turn, in deck order.
pub open spec fn build(ds: Seq<Deck>, cap: u64, now: i64, midnight: i64) -> Seq<Entry>
    decreases ds.len(),
{
    if ds.len() == 0 {
        Seq::empty()
    } else {
        build(ds.drop_last(), cap, now, midnight) + deck_queue(ds.last(), cap, now, midnight)
    }
}

proof fn lemma_insert_at(s: Seq<Item>, x: Item, k: int)
    requires
        0 <= k <= s.len(),
        forall|j: int| k <= j < s.len() ==> s[j].schedule.due > x.schedule.due,
        k == 0 || s[k - 1].schedule.due <= x.schedule.due,
    ensures
        insert_by_due(s, x) == s.insert(k, x),
    decreases s.len(),
{
    if s.len() == 0 {
        assert(s.insert(k, x) =~= seq![x]);
    } else if s.last().schedule.due <= x.schedule.due {
        assert(s.insert(k, x) =~= s.push(x));
    } else {
        lemma_insert_at(s.drop_last(), x, k);
        assert(s.insert(k, x) =~= s.drop_last().insert(k, x).push(s.last()));
    }
}

/// The cards of `items` in ascending order of due time, ties kept in order.
pub fn sort_by_due(items: &Vec<Item>) -> (r: Vec<Item>)
    ensures
        r@ == by_due(items@),
{
    let mut r: Vec<Item> = Vec::new();
    let mut i: usize = 0;
    assert(items@.take(0) =~= Seq::<Item>::empty());
    while i < items.len()
        invariant
            i <= items.len(),
            r@ == by_due(items@.take(i as int)),
            r@.len() == i,
        decreases items.len() - i,
    {
        let x = items[i].copy();
        let mut k: usize = r.len();
        while k > 0 && r[k - 1].schedule.due > x.schedule.due
            invariant
                k <= r.len(),
                forall|j: int| k <= j < r@.len() ==> r@[j].schedule.due > x.schedule.due,
            decreases k,
        {
            k = k - 1;
        }
        proof {
            lemma_insert_at(r@, x, k as int);
            assert(items@.take(i + 1).drop_last() =~= items@.take(i as int));
            lemma_insert_len(r@, x);
        }
        r.insert(k, x);
        i = i + 1;
    }
    assert(items@.take(items.len() as int) =~= items@);
    r
}

proof fn lemma_insert_len(s: Seq<Item>, x: Item)
    ensures
        insert_by_due(s, x).len() == s.len() + 1,
    decreases s.len(),
{
    if s.len() > 0 && s.last().schedule.due > x.schedule.due {
        lemma_insert_len(s.drop_last(), x);
    }
}

/// The number of cards of `items` that first left the New state after
/// `midnight`.
pub fn count_introduced(items: &Vec<Item>, midnight: i64) -> (r: usize)
    ensures
        r == introduced_since(items@, midnight),
{
    let mut n: usize = 0;
    let mut i: usize = 0;
    assert(items@.take(0) =~= Seq::<Item>::empty());
    while i < items.len()
        invariant
            i <= items.len(),
            n == introduced_since(items@.take(i as int), midnight),
            n <= i,
        decreases items.len() - i,
    {
        assert(items@.take(i + 1).drop_last() =~= items@.take(i as int));
        match items[i].first_studied_at {
            Some(t) => {
                if t > midnight {
                    n = n + 1;
                }
            },
            None => {},
        }
        i = i + 1;
    }
    assert(items@.take(items.len() as int) =~= items@);
    n
}

proof fn lemma_scan_step(name: String, s: Seq<Item>, i: int, count: int, cap: int, now: i64)
    requires
        0 <= i < s.len(),
    ensures
        scan(name, s.skip(i), count, cap, now) == ({
            let it = s[i];
            let next = if it.schedule.state == MemoryState::New { count + 1 } else { count };
            let rest = scan(name, s.skip(i + 1), next, cap, now);
            if admitted(it, count, cap, now) { seq![entry_of(name, it)] + rest } else { rest }
        }),
{
    assert(s.skip(i).skip(1) =~= s.skip(i + 1));
}

/// Appends to `out` the entries that the scan of `s` admits, starting from
/// `count` New cards counted against `cap`.
pub fn scan_into(out: &mut Vec<Entry>, name: &String, s: &Vec<Item>, count: usize, cap: u64, now: i64)
    ensures
        final(out)@ == old(out)@ + scan(*name, s@, count as int, cap as int, now),
{
    let ghost start = out@;
    let mut c: u128 = count as u128;
    let mut i: usize = 0;
    assert(s@.skip(0) =~= s@);
    while i < s.len()
        invariant
            i <= s.len(),
            c <= count + i,
            start + scan(*name, s@, count as int, cap as int, now)
                == out@ + scan(*name, s@.skip(i as int), c as int, cap as int, now),
        decreases s.len() - i,
    {
        proof {
            lemma_scan_step(*name, s@, i as int, c as int, cap as int, now);
        }
        let it = &s[i];
        let is_new = it.schedule.state == MemoryState::New;
        if it.schedule.due <= now && (!is_new || c < cap as u128) {
            let e = make_entry(name, it);
            let ghost before = out@;
            out.push(e);
            assert(before + (seq![entry_of(*name, s@[i as int])] + scan(*name, s@.skip(i + 1), (if is_new { c + 1 } else { c as int }), cap as int, now))
                =~= out@ + scan(*name, s@.skip(i + 1), (if is_new { c + 1 } else { c as int }), cap as int, now));
        }
        if is_new {
            c = c + 1;
        }
        i = i + 1;
    }
    assert(scan(*name, s@.skip(i as int), c as int, cap as int, now) =~= Seq::<Entry>::empty());
    assert(out@ + Seq::<Entry>::empty() =~= out@);
}

/// Builds the review queue over `decks`: for each deck in turn, its cards in
/// ascending order of due time, each admitted when it is due by `now` and is
/// not a New card scanned after `cap` New cards were counted; the count starts
/// at the number of the deck's cards introduced since `midnight`.
pub fn build_queue(decks: &Vec<Deck>, cap: u64, now: i64, midnight: i64) -> (r: Vec<Entry>)
    ensures
        r@ == build(decks@, cap, now, midnight),
{
    let mut out: Vec<Entry> = Vec::new();
    let mut i: usize = 0;
    assert(decks@.take(0) =~= Seq::<Deck>::empty());
    while i < decks.len()
        invariant
            i <= decks.len(),
            out@ == build(decks@.take(i as int), cap, now, midnight),
        decreases decks.len() - i,
    {
        let d = &decks[i];
        let sorted = sort_by_due(&d.items);
        let base = count_introduced(&d.items, midnight);
        scan_into(&mut out, &d.name, &sorted, base, cap, now);
        assert(decks@.take(i + 1).drop_last() =~= decks@.take(i as int));
        i = i + 1;
    }
    assert(decks@.take(decks.len() as int) =~= decks@);
    out
}

proof fn lemma_insert_contains(s: Seq<Item>, x: Item, y: Item)
    ensures
        insert_by_due(s, x).contains(y) <==> (s.contains(y) || y == x),
    decreases s.len(),
{
    if s.len() == 0 {
        assert(seq![x][0] == x);
    } else if s.last().schedule.due <= x.schedule.due {
        if s.contains(y) {
            let j = choose|j: int| 0 <= j < s.len() && s[j] == y;
            assert(s.push(x)[j] == y);
        }
        if y == x {
            assert(s.push(x)[s.len() as int] == y);
        }
    } else {
        let t = s.drop_last();
        lemma_insert_contains(t, x, y);
        let u = insert_by_due(t, x);
        if u.push(s.last()).contains(y) {
            let j = choose|j: int| 0 <= j < u.push(s.last()).len() && u.push(s.last())[j] == y;
            if j < u.len() {
                assert(u[j] == y);
                if t.contains(y) {
                    let m = choose|m: int| 0 <= m < t.len() && t[m] == y;
                    assert(s[m] == y);
                }
            } else {
                assert(s[s.len() - 1] == y);
            }
        }
        if s.contains(y) {
            let j = choose|j: int| 0 <= j < s.len() && s[j] == y;
            if j < s.len() - 1 {
                assert(t[j] == y);
                assert(u.contains(y));
                let m = choose|m: int| 0 <= m < u.len() && u[m] == y;
                assert(u.push(s.last())[m] == y);
            } else {
                assert(u.push(s.last())[u.len() as int] == y);
            }
        }
        if y == x {
            assert(u.contains(y));
            let m = choose|m: int| 0 <= m < u.len() && u[m] == y;
            assert(u.push(s.last())[m] == y);
        }
    }
}

/// Sorting by due time keeps every card.
pub proof fn lemma_by_due_contains(s: Seq<Item>, y: Item)
    ensures
        by_due(s).contains(y) <==> s.contains(y),
    decreases s.len(),
{
    if s.len() > 0 {
        lemma_by_due_contains(s.drop_last(), y);
        lemma_insert_contains(by_due(s.drop_last()), s.last(), y);
        if s.contains(y) {
            let j = choose|j: int| 0 <= j < s.len() && s[j] == y;
            if j < s.len() - 1 {
                assert(s.drop_last()[j] == y);
            }
        }
        if s.drop_last().contains(y) {
            let j = choose|j: int| 0 <= j < s.len() - 1 && s.drop_last()[j] == y;
            assert(s[j] == y);
        }
    }
}

/// A card that is due when it is scanned is admitted, unless it is a New
/// card and the count of New cards scanned before it (from `count` on) has
/// reached the cap.
pub proof fn lemma_scan_due_admitted(name: String, s: Seq<Item>, count: int, cap: int, now: i64, j: int)
    requires
        0 <= j < s.len(),
        s[j].schedule.due <= now,
    ensures
        scan(name, s, count, cap, now).contains(entry_of(name, s[j])) || (s[j].schedule.state
            == MemoryState::New && count + new_count(s.take(j)) >= cap),
    decreases s.len(),
{
    let it = s[0];
    let next = if it.schedule.state == MemoryState::New { count + 1 } else { count };
    let rest = scan(name, s.skip(1), next, cap, now);
    let e = entry_of(name, s[j]);
    if j == 0 {
        assert(s.take(0) =~= Seq::<Item>::empty());
        if admitted(it, count, cap, now) {
            assert((seq![entry_of(name, it)] + rest)[0] == e);
        }
    } else {
        lemma_scan_due_admitted(name, s.skip(1), next, cap, now, j - 1);
        assert(s.take(j).skip(1) =~= s.skip(1).take(j - 1));
        assert(s.take(j)[0] == it);
        if rest.contains(e) {
            let m = choose|m: int| 0 <= m < rest.len() && rest[m] == e;
            if admitted(it, count, cap, now) {
                assert((seq![entry_of(name, it)] + rest)[m + 1] == e);
            }
        }
    }
}

/// Once `count` has reached the cap, the scan admits no New card.
pub proof fn lemma_scan_capped(name: String, s: Seq<Item>, count: int, cap: int, now: i64)
    requires
        count >= cap,
    ensures
        forall|m: int| 0 <= m < scan(name, s, count, cap, now).len()
            ==> #[trigger] scan(name, s, count, cap, now)[m].schedule.state != MemoryState::New,
    decreases s.len(),
{
    if s.len() > 0 {
        let it = s[0];
        let next = if it.schedule.state == MemoryState::New { count + 1 } else { count };
        lemma_scan_capped(name, s.skip(1), next, cap, now);
        let rest = scan(name, s.skip(1), next, cap, now);
        let q = scan(name, s, count, cap, now);
        if admitted(it, count, cap, now) {
            assert(it.schedule.state != MemoryState::New);
            assert(q == seq![entry_of(name, it)] + rest);
            assert forall|m: int| 0 <= m < q.len() implies #[trigger] q[m].schedule.state != MemoryState::New by {
                if m == 0 {
                    assert(q[0] == entry_of(name, it));
                    assert(entry_of(name, it).schedule == it.schedule);
                } else {
                    assert(q[m] == rest[m - 1]);
                    assert(0 <= m - 1 < rest.len());
                    assert(rest[m - 1].schedule.state != MemoryState::New);
                }
            }
        } else {
            assert(q == rest);
            assert forall|m: int| 0 <= m < q.len() implies #[trigger] q[m].schedule.state != MemoryState::New by {
                assert(q[m] == rest[m]);
                assert(0 <= m < rest.len());
                assert(rest[m].schedule.state != MemoryState::New);
            }
        }
    } else {
        assert(scan(name, s, count, cap, now).len() == 0);
    }
}

/// Each deck's entries stand in the queue over all decks.
pub proof fn lemma_build_contains(ds: Seq<Deck>, cap: u64, now: i64, midnight: i64, i: int, e: Entry)
    requires
        0 <= i < ds.len(),
        deck_queue(ds[i], cap, now, midnight).contains(e),
    ensures
        build(ds, cap, now, midnight).contains(e),
    decreases ds.len(),
{
    let front = build(ds.drop_last(), cap, now, midnight);
    let back = deck_queue(ds.last(), cap, now, midnight);
    if i < ds.len() - 1 {
        lemma_build_contains(ds.drop_last(), cap, now, midnight, i, e);
        let m = choose|m: int| 0 <= m < front.len() && front[m] == e;
        assert((front + back)[m] == e);
    } else {
        let m = choose|m: int| 0 <= m < back.len() && back[m] == e;
        assert((front + back)[front.len() + m] == e);
    }
}

/// Every card of every deck that is due by `now` is in the queue built over
/// the decks, unless it is a New card and, at its place in the deck's due
/// order, the deck's count of New cards (those introduced since `midnight`
/// and the New cards scanned before it) has reached the cap.
pub proof fn lemma_due_card_queued(ds: Seq<Deck>, cap: u64, now: i64, midnight: i64, i: int, k: int)
    requires
        0 <= i < ds.len(),
        0 <= k < ds[i].items@.len(),
        ds[i].items@[k].schedule.due <= now,
    ensures
        build(ds, cap, now, midnight).contains(entry_of(ds[i].name, ds[i].items@[k])) || exists|j: int|
            0 <= j < by_due(ds[i].items@).len() && by_due(ds[i].items@)[j] == ds[i].items@[k]
                && ds[i].items@[k].schedule.state == MemoryState::New
                && introduced_since(ds[i].items@, midnight) + new_count(by_due(ds[i].items@).take(j)) >= cap,
{
    let d = ds[i];
    let it = d.items@[k];
    let s = by_due(d.items@);
    assert(d.items@.contains(it));
    lemma_by_due_contains(d.items@, it);
    let j = choose|j: int| 0 <= j < s.len() && s[j] == it;
    lemma_scan_due_admitted(d.name, s, introduced_since(d.items@, midnight) as int, cap as int, now, j);
    if deck_queue(d, cap, now, midnight).contains(entry_of(d.name, it)) {
        lemma_build_contains(ds, cap, now, midnight, i, entry_of(d.name, it));
    }
}

/// Where a deck already holds `cap` or more cards introduced since
/// `midnight`, none of its New cards enters the queue.
pub proof fn lemma_new_cap_reached(d: Deck, cap: u64, now: i64, midnight: i64)
    requires
        introduced_since(d.items@, midnight) >= cap,
    ensures
        forall|m: int| 0 <= m < deck_queue(d, cap, now, midnight).len()
            ==> #[trigger] deck_queue(d, cap, now, midnight)[m].schedule.state != MemoryState::New,
{
    lemma_scan_capped(d.name, by_due(d.items@), introduced_since(d.items@, midnight) as int, cap as int, now);
}

/// Whether the cards of `s` stand in ascending order of due time.
pub open spec fn sorted_by_due(s: Seq<Item>) -> bool {
    forall|a: int, b: int| 0 <= a < b < s.len() ==> s[a].schedule.due <= s[b].schedule.due
}

proof fn lemma_insert_sorted(s: Seq<Item>, x: Item)
    requires
        sorted_by_due(s),
    ensures
        sorted_by_due(insert_by_due(s, x)),
    decreases s.len(),
{
    if s.len() > 0 && s.last().schedule.due > x.schedule.due {
        let t = s.drop_last();
        lemma_insert_sorted(t, x);
        let u = insert_by_due(t, x);
        assert forall|m: int| 0 <= m < u.len() implies u[m].schedule.due <= s.last().schedule.due by {
            lemma_insert_contains(t, x, u[m]);
            assert(u.contains(u[m]));
            if t.contains(u[m]) {
                let j = choose|j: int| 0 <= j < t.len() && t[j] == u[m];
                assert(s[j] == t[j]);
            }
        }
        let v = u.push(s.last());
        assert forall|a: int, b: int| 0 <= a < b < v.len() implies v[a].schedule.due <= v[b].schedule.due by {
            if b == v.len() - 1 {
                assert(v[a] == u[a]);
            } else {
                assert(v[a] == u[a] && v[b] == u[b]);
            }
        }
    }
}

/// The due order of a deck's cards is ascending, and holds every card.
pub proof fn lemma_by_due_sorted(s: Seq<Item>)
    ensures
        sorted_by_due(by_due(s)),
        by_due(s).len() == s.len(),
        forall|y: Item| by_due(s).contains(y) <==> s.contains(y),
    decreases s.len(),
{
    if s.len() > 0 {
        lemma_by_due_sorted(s.drop_last());
        lemma_insert_sorted(by_due(s.drop_last()), s.last());
        lemma_insert_len(by_due(s.drop_last()), s.last());
    }
    assert forall|y: Item| by_due(s).contains(y) <==> s.contains(y) by {
        lemma_by_due_contains(s, y);
    }
}

proof fn lemma_scan_due(name: String, s: Seq<Item>, count: int, cap: int, now: i64)
    ensures
        forall|m: int| 0 <= m < scan(name, s, count, cap, now).len()
            ==> #[trigger] scan(name, s, count, cap, now)[m].schedule.due <= now,
    decreases s.len(),
{
    if s.len() > 0 {
        let it = s[0];
        let next = if it.schedule.state == MemoryState::New { count + 1 } else { count };
        lemma_scan_due(name, s.skip(1), next, cap, now);
        let rest = scan(name, s.skip(1), next, cap, now);
        let q = scan(name, s, count, cap, now);
        assert forall|m: int| 0 <= m < q.len() implies #[trigger] q[m].schedule.due <= now by {
            if admitted(it, count, cap, now) {
                assert(q == seq![entry_of(name, it)] + rest);
                if m == 0 {
                    assert(q[0] == entry_of(name, it));
                } else {
                    assert(q[m] == rest[m - 1]);
                    assert(0 <= m - 1 < rest.len());
                    assert(rest[m - 1].schedule.due <= now);
                }
            } else {
                assert(q == rest);
                assert(q[m] == rest[m]);
                assert(0 <= m < rest.len());
                assert(rest[m].schedule.due <= now);
            }
        }
    } else {
        assert(scan(name, s, count, cap, now).len() == 0);
    }
}

/// Every entry of the queue built over the decks is due by `now`.
pub proof fn lemma_queued_cards_due(ds: Seq<Deck>, cap: u64, now: i64, midnight: i64)
    ensures
        forall|m: int| 0 <= m < build(ds, cap, now, midnight).len()
            ==> #[trigger] build(ds, cap, now, midnight)[m].schedule.due <= now,
    decreases ds.len(),
{
    if ds.len() > 0 {
        lemma_queued_cards_due(ds.drop_last(), cap, now, midnight);
        let d = ds.last();
        lemma_scan_due(d.name, by_due(d.items@), introduced_since(d.items@, midnight) as int, cap as int, now);
        let front = build(ds.drop_last(), cap, now, midnight);
        let back = deck_queue(d, cap, now, midnight);
        let q = build(ds, cap, now, midnight);
        assert(q == front + back);
        assert forall|m: int| 0 <= m < q.len() implies #[trigger] q[m].schedule.due <= now by {
            if m < front.len() {
                assert(q[m] == front[m]);
                assert(front[m].schedule.due <= now);
            } else {
                let b = m - front.len();
                assert(q[m] == back[b]);
                assert(0 <= b < back.len());
                assert(back == scan(d.name, by_due(d.items@), introduced_since(d.items@, midnight) as int, cap as int, now));
                assert(back[b].schedule.due <= now);
            }
        }
    } else {
        assert(build(ds, cap, now, midnight).len() == 0);
    }
}

} // verus!
