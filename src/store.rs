//! The result of a parse: accepted events grouped by UTC day, in order.
use vstd::prelude::*;
use vstd::arithmetic::div_mod::{lemma_fundamental_div_mod, lemma_mod_multiples_vanish};
use crate::date::{MAX_INSTANT, in_range};
use crate::event::{Event, EventV, event_le, event_lt, lemma_event_order};

verus! {

pub const SECONDS_PER_DAY: i64 = 86400;

/// The UTC midnight, in seconds since the epoch, of the day holding `t`.
pub open spec fn day_key(t: int) -> int {
    t - t % 86400
}

/// Where an event goes in a sorted day: after every event it does not precede.
pub open spec fn insert_pos(b: Seq<EventV>, e: EventV) -> int
    decreases b.len(),
{
    if b.len() == 0 {
        0
    } else if event_lt(e, b[0]) {
        0
    } else {
        1 + insert_pos(b.drop_first(), e)
    }
}

/// Where the day with key `k` is, or would go, among the days.
pub open spec fn day_pos(days: Seq<(int, Seq<EventV>)>, k: int) -> int
    decreases days.len(),
{
    if days.len() == 0 {
        0
    } else if days[0].0 >= k {
        0
    } else {
        1 + day_pos(days.drop_first(), k)
    }
}

/// The days after adding one event: into its day, after the events it does not
/// precede, or into a new day of its own.
pub open spec fn store_insert(days: Seq<(int, Seq<EventV>)>, e: EventV) -> Seq<(int, Seq<EventV>)> {
    let k = day_key(e.start);
    let i = day_pos(days, k);
    if i < days.len() && days[i].0 == k {
        days.update(i, (k, days[i].1.insert(insert_pos(days[i].1, e), e)))
    } else {
        days.insert(i, (k, seq![e]))
    }
}

pub open spec fn sorted_events(b: Seq<EventV>) -> bool {
    forall|i: int, j: int| 0 <= i < j < b.len() ==> event_le(#[trigger] b[i], #[trigger] b[j])
}

/// Keys strictly ascending; every day non-empty, sorted, and holding only
/// events that start on it.
pub open spec fn ordered(days: Seq<(int, Seq<EventV>)>) -> bool {
    &&& forall|i: int, j: int| 0 <= i < j < days.len() ==> #[trigger] days[i].0 < #[trigger] days[j].0
    &&& forall|i: int| 0 <= i < days.len() ==> (#[trigger] days[i]).1.len() > 0
    &&& forall|i: int| 0 <= i < days.len() ==> sorted_events(#[trigger] days[i].1)
    &&& forall|i: int, j: int|
        0 <= i < days.len() && 0 <= j < days[i].1.len() ==> day_key(
            #[trigger] days[i].1[j].start,
        ) == days[i].0
}

proof fn lemma_insert_pos(b: Seq<EventV>, e: EventV)
    ensures
        0 <= insert_pos(b, e) <= b.len(),
        forall|j: int| 0 <= j < insert_pos(b, e) ==> !event_lt(e, #[trigger] b[j]),
        insert_pos(b, e) < b.len() ==> event_lt(e, b[insert_pos(b, e)]),
    decreases b.len(),
{
    if b.len() > 0 && !event_lt(e, b[0]) {
        lemma_insert_pos(b.drop_first(), e);
        assert forall|j: int| 0 <= j < insert_pos(b, e) implies !event_lt(e, #[trigger] b[j]) by {
            if j > 0 {
                assert(b[j] == b.drop_first()[j - 1]);
            }
        }
    }
}

proof fn lemma_day_pos(days: Seq<(int, Seq<EventV>)>, k: int)
    ensures
        0 <= day_pos(days, k) <= days.len(),
        forall|j: int| 0 <= j < day_pos(days, k) ==> (#[trigger] days[j]).0 < k,
        day_pos(days, k) < days.len() ==> days[day_pos(days, k)].0 >= k,
    decreases days.len(),
{
    if days.len() > 0 && days[0].0 < k {
        lemma_day_pos(days.drop_first(), k);
        assert forall|j: int| 0 <= j < day_pos(days, k) implies (#[trigger] days[j]).0 < k by {
            if j > 0 {
                assert(days[j] == days.drop_first()[j - 1]);
            }
        }
    }
}

proof fn lemma_sorted_insert(b: Seq<EventV>, e: EventV)
    requires
        sorted_events(b),
    ensures
        sorted_events(b.insert(insert_pos(b, e), e)),
{
    lemma_insert_pos(b, e);
    let p = insert_pos(b, e);
    let c = b.insert(p, e);
    assert forall|i: int, j: int| 0 <= i < j < c.len() implies event_le(
        #[trigger] c[i],
        #[trigger] c[j],
    ) by {
        if j < p {
            assert(c[i] == b[i] && c[j] == b[j]);
        } else if j == p {
            assert(c[i] == b[i] && c[j] == e);
        } else if i < p {
            assert(c[i] == b[i] && c[j] == b[j - 1]);
        } else if i == p {
            assert(c[i] == e && c[j] == b[j - 1]);
            lemma_event_order(e, b[p], b[j - 1]);
            if j - 1 > p {
                assert(event_le(b[p], b[j - 1]));
            }
            lemma_event_order(e, b[j - 1], e);
        } else {
            assert(c[i] == b[i - 1] && c[j] == b[j - 1]);
        }
    }
}

/// Adding an event keeps the days ordered.
pub proof fn lemma_store_insert_ordered(days: Seq<(int, Seq<EventV>)>, e: EventV)
    requires
        ordered(days),
    ensures
        ordered(store_insert(days, e)),
{
    let k = day_key(e.start);
    lemma_day_pos(days, k);
    let i = day_pos(days, k);
    let r = store_insert(days, e);
    if i < days.len() && days[i].0 == k {
        lemma_sorted_insert(days[i].1, e);
        lemma_insert_pos(days[i].1, e);
        let nb = days[i].1.insert(insert_pos(days[i].1, e), e);
        assert forall|a: int, j: int|
            0 <= a < r.len() && 0 <= j < r[a].1.len() implies day_key(
            #[trigger] r[a].1[j].start,
        ) == r[a].0 by {
            if a == i {
                let p = insert_pos(days[i].1, e);
                if j < p {
                    assert(nb[j] == days[i].1[j]);
                } else if j > p {
                    assert(nb[j] == days[i].1[j - 1]);
                }
            }
        }
    } else {
        assert forall|a: int, b: int| 0 <= a < b < r.len() implies #[trigger] r[a].0
            < #[trigger] r[b].0 by {
            if b < i {
            } else if b == i {
            } else if a < i {
                assert(r[b] == days[b - 1]);
            } else if a == i {
                assert(r[b] == days[b - 1]);
                assert(days[i].0 >= k);
                if b - 1 > i {
                    assert(days[i].0 < days[b - 1].0);
                }
            } else {
                assert(r[a] == days[a - 1]);
                assert(r[b] == days[b - 1]);
            }
        }
        assert forall|a: int| 0 <= a < r.len() implies sorted_events(#[trigger] r[a].1) by {
            if a == i {
                assert(r[a].1 =~= seq![e]);
            } else if a > i {
                assert(r[a] == days[a - 1]);
            }
        }
        assert forall|a: int| 0 <= a < r.len() implies (#[trigger] r[a]).1.len() > 0 by {
            if a > i {
                assert(r[a] == days[a - 1]);
            }
        }
        assert forall|a: int, j: int|
            0 <= a < r.len() && 0 <= j < r[a].1.len() implies day_key(
            #[trigger] r[a].1[j].start,
        ) == r[a].0 by {
            if a > i {
                assert(r[a] == days[a - 1]);
            }
        }
    }
}

/// The accepted events of one UTC day, in event order.
pub struct DayBucket {
    /// UTC midnight of the day, in seconds since the Unix epoch.
    pub key: i64,
    pub events: Vec<Event>,
}

pub open spec fn events_view(es: Seq<Event>) -> Seq<EventV> {
    es.map_values(|e: Event| e@)
}

impl View for DayBucket {
    type V = (int, Seq<EventV>);

    open spec fn view(&self) -> (int, Seq<EventV>) {
        (self.key as int, events_view(self.events@))
    }
}

pub open spec fn days_view(ds: Seq<DayBucket>) -> Seq<(int, Seq<EventV>)> {
    ds.map_values(|d: DayBucket| d@)
}

/// Accepted events grouped by the UTC day of their start.
pub struct ICal {
    days: Vec<DayBucket>,
}

impl View for ICal {
    type V = Seq<(int, Seq<EventV>)>;

    closed spec fn view(&self) -> Seq<(int, Seq<EventV>)> {
        days_view(self.days@)
    }
}

/// The day key of an instant, computed without signed division.
fn day_start(t: i64) -> (r: i64)
    requires
        in_range(t as int),
    ensures
        r == day_key(t as int),
{
    let off: i64 = SECONDS_PER_DAY * 4_000_000_000;
    let u: u64 = (t + off) as u64;
    let q: u64 = u / 86400;
    proof {
        lemma_mod_multiples_vanish(4_000_000_000, t as int, 86400);
        assert(86400 * 4_000_000_000 + t == t + off);
        lemma_fundamental_div_mod(u as int, 86400);
        assert(q * 86400 <= u) by (nonlinear_arith)
            requires
                q == u / 86400,
                u >= 0,
        ;
    }
    (q * 86400) as i64 - off
}

impl ICal {
    /// An empty result.
    pub fn new() -> (r: ICal)
        ensures
            r@ == Seq::<(int, Seq<EventV>)>::empty(),
    {
        let days: Vec<DayBucket> = Vec::new();
        assert(days_view(days@) =~= Seq::<(int, Seq<EventV>)>::empty());
        ICal { days }
    }

    /// The days, by ascending key.
    pub fn days(&self) -> (r: &Vec<DayBucket>)
        ensures
            days_view(r@) == self@,
            r@.len() == self@.len(),
    {
        &self.days
    }

    fn find_day(&self, k: i64) -> (r: usize)
        ensures
            r == day_pos(self@, k as int),
            r <= self@.len(),
    {
        proof { lemma_day_pos(self@, k as int); }
        let ghost d0 = self@;
        let mut i: usize = 0;
        assert(d0.subrange(0, d0.len() as int) =~= d0);
        while i < self.days.len() && self.days[i].key < k
            invariant
                i <= self.days.len(),
                self@ == d0,
                day_pos(d0, k as int) == i + day_pos(d0.subrange(i as int, d0.len() as int), k as int),
            decreases self.days.len() - i,
        {
            assert(d0.subrange(i as int, d0.len() as int).drop_first() =~= d0.subrange(
                i as int + 1,
                d0.len() as int,
            ));
            i = i + 1;
        }
        i
    }

    /// Adds an accepted event to its day.
    pub fn insert(&mut self, e: Event)
        requires
            in_range(e.start as int),
        ensures
            final(self)@ == store_insert(old(self)@, e@),
    {
        let ghost d0 = old(self)@;
        let ghost ev = e@;
        let k = day_start(e.start);
        let i = self.find_day(k);
        if i < self.days.len() && self.days[i].key == k {
            let mut bucket = self.days.remove(i);
            let ghost mid = self.days@;
            assert(days_view(mid) =~= d0.remove(i as int));
            let ghost b0 = events_view(bucket.events@);
            assert(b0 == d0[i as int].1);
            let j = find_slot(&bucket.events, &e);
            bucket.events.insert(j, e);
            assert(events_view(bucket.events@) =~= b0.insert(j as int, ev));
            self.days.insert(i, bucket);
            assert(self@ =~= store_insert(d0, ev));
        } else {
            let mut events: Vec<Event> = Vec::new();
            events.push(e);
            assert(events_view(events@) =~= seq![ev]);
            self.days.insert(i, DayBucket { key: k, events });
            assert(self@ =~= store_insert(d0, ev));
        }
    }
}

/// The slot of `e` among sorted events: after every event it does not precede.
fn find_slot(events: &Vec<Event>, e: &Event) -> (r: usize)
    ensures
        r == insert_pos(events_view(events@), e@),
        r <= events@.len(),
{
    proof { lemma_insert_pos(events_view(events@), e@); }
    let ghost b0 = events_view(events@);
    let mut j: usize = 0;
    assert(b0.subrange(0, b0.len() as int) =~= b0);
    while j < events.len() && !e.precedes(&events[j])
        invariant
            j <= events.len(),
            b0 == events_view(events@),
            insert_pos(b0, e@) == j + insert_pos(b0.subrange(j as int, b0.len() as int), e@),
        decreases events.len() - j,
    {
        assert(b0.subrange(j as int, b0.len() as int).drop_first() =~= b0.subrange(
            j as int + 1,
            b0.len() as int,
        ));
        j = j + 1;
    }
    j
}

} // verus!
