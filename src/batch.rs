//! The per-session queue of outbound notifications, flushed as one batch frame.
use vstd::prelude::*;

verus! {

/// A batch is flushed once it holds this many notifications.
pub const BATCH_SIZE: usize = 10;

/// A batch is flushed once its oldest notification has waited this long (100 ms).
pub const BATCH_DELAY_NANOS: u64 = 100_000_000;

/// The queue's contents and the time its oldest entry was queued.
pub type QueueState = (Seq<Seq<char>>, u64);

/// Queuing `msg` at `now`: the new state, and the batch flushed, if any.
/// The delay counts from the oldest pending entry.
pub open spec fn push_step(s: QueueState, msg: Seq<char>, now: u64) -> (QueueState, Option<Seq<Seq<char>>>) {
    let start = if s.0.len() == 0 { now } else { s.1 };
    let q = s.0.push(msg);
    if q.len() >= BATCH_SIZE || now >= start + BATCH_DELAY_NANOS {
        ((Seq::empty(), start), Some(q))
    } else {
        ((q, start), None)
    }
}

/// The timer firing at `now`: flushes a non-empty queue whose oldest entry
/// has waited the full delay.
pub open spec fn tick_step(s: QueueState, now: u64) -> (QueueState, Option<Seq<Seq<char>>>) {
    if s.0.len() > 0 && now >= s.1 + BATCH_DELAY_NANOS {
        ((Seq::empty(), s.1), Some(s.0))
    } else {
        (s, None)
    }
}

/// When the timer should next fire: one delay after the oldest pending entry
/// (or at the clock's end, past it), if anything is pending.
pub open spec fn deadline_of(s: QueueState) -> Option<u64> {
    if s.0.len() == 0 {
        None
    } else if s.1 + BATCH_DELAY_NANOS <= u64::MAX {
        Some((s.1 + BATCH_DELAY_NANOS) as u64)
    } else {
        Some(u64::MAX)
    }
}

/// Something that happens to a queue: a notification queued, or the timer
/// firing, each at a time.
pub enum QueueEvent {
    Push(Seq<char>, u64),
    Tick(u64),
}

pub open spec fn event_time(e: QueueEvent) -> u64 {
    match e {
        QueueEvent::Push(_, t) => t,
        QueueEvent::Tick(t) => t,
    }
}

pub open spec fn queue_step(s: QueueState, e: QueueEvent) -> (QueueState, Option<Seq<Seq<char>>>) {
    match e {
        QueueEvent::Push(m, t) => push_step(s, m, t),
        QueueEvent::Tick(t) => tick_step(s, t),
    }
}

/// Running `evs` from `s`: the final state and the batches flushed, in order.
pub open spec fn run_events(s: QueueState, evs: Seq<QueueEvent>) -> (QueueState, Seq<Seq<Seq<char>>>)
    decreases evs.len(),
{
    if evs.len() == 0 {
        (s, Seq::empty())
    } else {
        let (s0, b0) = run_events(s, evs.drop_last());
        let (s1, r) = queue_step(s0, evs.last());
        (
            s1,
            match r {
                Some(b) => b0.push(b),
                None => b0,
            },
        )
    }
}

/// The notifications queued by `evs`, in order.
pub open spec fn pushed(evs: Seq<QueueEvent>) -> Seq<Seq<char>>
    decreases evs.len(),
{
    if evs.len() == 0 {
        Seq::empty()
    } else {
        match evs.last() {
            QueueEvent::Push(m, _) => pushed(evs.drop_last()).push(m),
            QueueEvent::Tick(_) => pushed(evs.drop_last()),
        }
    }
}

/// The events start with a notification, their times do not decrease, and all
/// fall before the delay after that first notification runs out.
pub open spec fn within_one_delay(evs: Seq<QueueEvent>) -> bool {
    &&& evs.len() > 0
    &&& evs[0] is Push
    &&& forall|i: int, j: int|
        0 <= i <= j < evs.len() ==> event_time(#[trigger] evs[i]) <= event_time(#[trigger] evs[j])
    &&& forall|i: int| 0 <= i < evs.len() ==> #[trigger] event_time(evs[i]) < event_time(evs[0]) + BATCH_DELAY_NANOS
}

proof fn lemma_prefix_stays_queued(o: u64, evs: Seq<QueueEvent>, k: int)
    requires
        within_one_delay(evs),
        1 <= k <= evs.len(),
        pushed(evs.take(k)).len() < BATCH_SIZE,
    ensures
        run_events((Seq::empty(), o), evs.take(k)) == (
            (pushed(evs.take(k)), event_time(evs[0])),
            Seq::<Seq<Seq<char>>>::empty(),
        ),
    decreases k,
{
    let p = evs.take(k);
    assert(p.drop_last() =~= evs.take(k - 1));
    assert(p.last() == evs[k - 1]);
    assert(event_time(evs[k - 1]) < event_time(evs[0]) + BATCH_DELAY_NANOS);
    if k == 1 {
        assert(evs.take(0) =~= Seq::<QueueEvent>::empty());
        assert(Seq::<Seq<char>>::empty().push(pushed(p).last()) =~= pushed(p));
    } else {
        assert(pushed(evs.take(k - 1)).len() <= pushed(p).len());
        lemma_prefix_stays_queued(o, evs, k - 1);
        lemma_first_is_pushed(evs);
        lemma_pushed_grows(evs, 1, k - 1);
    }
}

proof fn lemma_first_is_pushed(evs: Seq<QueueEvent>)
    requires
        evs.len() > 0,
        evs[0] is Push,
    ensures
        pushed(evs.take(1)).len() == 1,
{
    let p = evs.take(1);
    assert(p.drop_last() =~= Seq::<QueueEvent>::empty());
    assert(p.last() == evs[0]);
    assert(pushed(p.drop_last()).len() == 0);
}

proof fn lemma_pushed_grows(evs: Seq<QueueEvent>, a: int, b: int)
    requires
        0 <= a <= b <= evs.len(),
    ensures
        pushed(evs.take(a)).len() <= pushed(evs.take(b)).len(),
    decreases b - a,
{
    if a < b {
        lemma_pushed_grows(evs, a, b - 1);
        assert(evs.take(b).drop_last() =~= evs.take(b - 1));
    }
}

/// A full batch of notifications queued on an empty queue within one delay of
/// the first, whatever timer firings fall between them: the last of them
/// flushes all of them, in queuing order, as the only batch.
pub proof fn lemma_full_batch_flushes_once(o: u64, evs: Seq<QueueEvent>)
    requires
        within_one_delay(evs),
        pushed(evs).len() == BATCH_SIZE,
        evs.last() is Push,
    ensures
        run_events((Seq::empty(), o), evs) == (
            (Seq::<Seq<char>>::empty(), event_time(evs[0])),
            seq![pushed(evs)],
        ),
{
    let n = evs.len() as int;
    assert(evs.drop_last() =~= evs.take(n - 1));
    assert(pushed(evs) == pushed(evs.drop_last()).push(evs.last()->Push_0));
    assert(n >= 2) by {
        if n == 1 {
            assert(evs.drop_last() =~= Seq::<QueueEvent>::empty());
        }
    }
    lemma_prefix_stays_queued(o, evs, n - 1);
    assert(event_time(evs[n - 1]) < event_time(evs[0]) + BATCH_DELAY_NANOS);
    assert(Seq::<Seq<Seq<char>>>::empty().push(pushed(evs)) =~= seq![pushed(evs)]);
}

/// Fewer than a full batch queued on an empty queue within one delay of the
/// first: nothing is flushed until the timer fires, and a firing at least one
/// delay after the first flushes exactly those, in order; an earlier one, none.
pub proof fn lemma_timer_flushes_partial_batch(o: u64, evs: Seq<QueueEvent>, now: u64)
    requires
        within_one_delay(evs),
        pushed(evs).len() < BATCH_SIZE,
    ensures
        run_events((Seq::empty(), o), evs).1.len() == 0,
        tick_step(run_events((Seq::empty(), o), evs).0, now).1 == if now >= event_time(evs[0])
            + BATCH_DELAY_NANOS {
            Some(pushed(evs))
        } else {
            None
        },
{
    let n = evs.len() as int;
    assert(evs.take(n) =~= evs);
    lemma_prefix_stays_queued(o, evs, n);
    lemma_first_is_pushed(evs);
    lemma_pushed_grows(evs, 1, n);
}

/// Pending notifications of one session, in the order they were queued.
pub struct OutboundQueue {
    pending: Vec<String>,
    oldest: u64,
}

impl OutboundQueue {
    /// The pending notifications and the time the oldest was queued.
    pub closed spec fn view(&self) -> QueueState {
        (self.pending@.map_values(|m: String| m@), self.oldest)
    }

    /// An empty queue.
    pub fn new() -> (r: Self)
        ensures
            r@.0.len() == 0,
    {
        let r = OutboundQueue { pending: Vec::new(), oldest: 0 };
        assert(r@.0 =~= Seq::<Seq<char>>::empty());
        r
    }

    /// The number of pending notifications.
    pub fn len(&self) -> (r: usize)
        ensures
            r == self@.0.len(),
    {
        self.pending.len()
    }

    /// When the timer should next fire, if anything is pending.
    pub fn deadline(&self) -> (r: Option<u64>)
        ensures
            r == deadline_of(self@),
    {
        if self.pending.len() == 0 {
            None
        } else if self.oldest <= u64::MAX - BATCH_DELAY_NANOS {
            Some(self.oldest + BATCH_DELAY_NANOS)
        } else {
            Some(u64::MAX)
        }
    }

    fn take_all(&mut self) -> (r: Vec<String>)
        ensures
            r@.map_values(|m: String| m@) == old(self)@.0,
            final(self)@ == (Seq::<Seq<char>>::empty(), old(self)@.1),
    {
        let mut out = Vec::new();
        std::mem::swap(&mut out, &mut self.pending);
        assert(self@.0 =~= Seq::<Seq<char>>::empty());
        out
    }

    /// Queues `msg` at `now` (nanoseconds on a monotonic clock); returns the
    /// batch to send when the queue reaches the batch size or its oldest entry
    /// has waited the full delay.
    pub fn push(&mut self, msg: String, now: u64) -> (r: Option<Vec<String>>)
        ensures
            (final(self)@, match r {
                Some(b) => Some(b@.map_values(|m: String| m@)),
                None => None,
            }) == push_step(old(self)@, msg@, now),
    {
        if self.pending.len() == 0 {
            self.oldest = now;
        }
        let ghost mid = self@;
        self.pending.push(msg);
        assert(self@.0 =~= mid.0.push(msg@));
        let due = now >= self.oldest && now - self.oldest >= BATCH_DELAY_NANOS;
        if self.pending.len() >= BATCH_SIZE || due {
            Some(self.take_all())
        } else {
            None
        }
    }

    /// The timer firing at `now`: returns the pending batch once its oldest
    /// entry has waited the full delay.
    pub fn tick(&mut self, now: u64) -> (r: Option<Vec<String>>)
        ensures
            (final(self)@, match r {
                Some(b) => Some(b@.map_values(|m: String| m@)),
                None => None,
            }) == tick_step(old(self)@, now),
    {
        if self.pending.len() > 0 && now >= self.oldest && now - self.oldest >= BATCH_DELAY_NANOS {
            Some(self.take_all())
        } else {
            None
        }
    }
}

} // verus!
