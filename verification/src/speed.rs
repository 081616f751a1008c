//! Download speed over a window of ten seconds.

use std::collections::VecDeque;
use std::time::{Duration, Instant};

use vstd::prelude::*;

use crate::units;

verus! {

// ---------------------------------------------------------------------------
// The clock
// ---------------------------------------------------------------------------

/// A point of the monotonic clock of the system.
#[verifier::external_type_specification]
#[verifier::external_body]
pub struct ExInstant(Instant);

/// `Instant::now` reads the clock. Nothing is claimed of what it shows.
pub assume_specification[ Instant::now ]() -> Instant;

/// `Instant::elapsed` returns the time since the instant. Nothing is claimed of it.
pub assume_specification[ Instant::elapsed ](instant: &Instant) -> Duration;

/// `Duration::as_nanos` returns the length of a span in nanoseconds. Nothing is
/// claimed of it, as nothing is known of the span.
pub assume_specification[ Duration::as_nanos ](duration: &Duration) -> u128;

// ---------------------------------------------------------------------------
// The model
// ---------------------------------------------------------------------------

/// The window over which the speed is measured, in nanoseconds.
pub const SPEED_WINDOW_NANOS: u128 = 10_000_000_000;

/// Bytes that come within this many nanoseconds of the start of a slot are
/// counted in it.
pub const SLOT_NANOS: u128 = 1_000_000_000;

/// The bytes in all slots.
pub open spec fn slot_bytes(slots: Seq<(u128, u64)>) -> nat
    decreases slots.len(),
{
    if slots.len() == 0 {
        0
    } else {
        slot_bytes(slots.drop_last()) + slots.last().1 as nat
    }
}

/// The slots without the leading ones that started more than a window ago.
pub open spec fn fresh(slots: Seq<(u128, u64)>, now: u128) -> Seq<(u128, u64)>
    decreases slots.len(),
{
    if slots.len() > 0 && now > slots[0].0 + SPEED_WINDOW_NANOS {
        fresh(slots.drop_first(), now)
    } else {
        slots
    }
}

/// The slots after `bytes` came at the time `now`: counted in the last slot
/// while that is young, else in a new one.
pub open spec fn with_bytes(slots: Seq<(u128, u64)>, now: u128, bytes: u64) -> Seq<(u128, u64)> {
    let kept = fresh(slots, now);
    if kept.len() > 0 && now < kept.last().0 + SLOT_NANOS {
        kept.update(kept.len() - 1, (kept.last().0, (kept.last().1 + bytes) as u64))
    } else {
        kept.push((now, bytes))
    }
}

/// The bytes per second that the slots show at the time `now`: their bytes over
/// the milliseconds since the first of them started, at least one.
pub open spec fn slots_speed(slots: Seq<(u128, u64)>, now: u128) -> nat {
    let kept = fresh(slots, now);
    if kept.len() == 0 {
        0
    } else {
        let span = if now > kept[0].0 {
            (now - kept[0].0) / 1_000_000
        } else {
            0
        };
        let millis = if span < 1 {
            1
        } else {
            span
        };
        let thousandths = slot_bytes(kept) * 1000;
        let limited = if thousandths > u64::MAX {
            u64::MAX as nat
        } else {
            thousandths
        };
        limited / (millis as nat)
    }
}

/// Each slot starts no earlier than the one before.
pub open spec fn in_order(slots: Seq<(u128, u64)>) -> bool {
    forall|i: int, j: int| 0 <= i <= j < slots.len() ==> (#[trigger] slots[i]).0 <= (#[trigger] slots[j]).0
}

/// Without the first slot there are as many bytes less.
proof fn lemma_drop_first_bytes(slots: Seq<(u128, u64)>)
    requires
        slots.len() > 0,
    ensures
        slot_bytes(slots) == slots[0].1 + slot_bytes(slots.drop_first()),
    decreases slots.len(),
{
    if slots.len() == 1 {
        assert(slots.drop_last() =~= slots.drop_first());
        assert(slots.drop_first() =~= Seq::<(u128, u64)>::empty());
    } else {
        lemma_drop_first_bytes(slots.drop_last());
        assert(slots.drop_last().drop_first() =~= slots.drop_first().drop_last());
    }
}

/// Dropping old slots never adds bytes.
proof fn lemma_fresh_bytes(slots: Seq<(u128, u64)>, now: u128)
    ensures
        slot_bytes(fresh(slots, now)) <= slot_bytes(slots),
    decreases slots.len(),
{
    if slots.len() > 0 && now > slots[0].0 + SPEED_WINDOW_NANOS {
        lemma_drop_first_bytes(slots);
        lemma_fresh_bytes(slots.drop_first(), now);
    }
}

// ---------------------------------------------------------------------------
// The calculator
// ---------------------------------------------------------------------------

/// Rolling download speed. Times are nanoseconds since the calculator was made.
#[derive(Debug)]
pub struct SpeedCalc {
    origin: Instant,
    time_slots: VecDeque<(u128, u64)>,
    bytes_window: u64,
    accumulated_length: u64,
}

impl Clone for SpeedCalc {
    fn clone(&self) -> (r: Self)
        ensures
            r.slots() == self.slots(),
            r.total() == self.total(),
            self.wf() ==> r.wf(),
    {
        let mut time_slots: VecDeque<(u128, u64)> = VecDeque::new();
        let mut i: usize = 0;
        while i < self.time_slots.len()
            invariant
                i <= self.time_slots@.len(),
                time_slots@ == self.time_slots@.take(i as int),
            decreases self.time_slots@.len() - i,
        {
            time_slots.push_back((self.time_slots[i].0, self.time_slots[i].1));
            i = i + 1;
        }
        assert(time_slots@ =~= self.time_slots@);
        SpeedCalc {
            origin: self.origin,
            time_slots,
            bytes_window: self.bytes_window,
            accumulated_length: self.accumulated_length,
        }
    }
}

impl SpeedCalc {
    /// The slots, each with the time of its start and its bytes.
    pub closed spec fn slots(self) -> Seq<(u128, u64)> {
        self.time_slots@
    }

    /// All bytes of the session.
    pub closed spec fn total(self) -> nat {
        self.accumulated_length as nat
    }

    /// What always holds: the bytes of the window are those of its slots, and
    /// are among the bytes of the session.
    pub closed spec fn wf(self) -> bool {
        &&& self.bytes_window == slot_bytes(self.time_slots@)
        &&& self.bytes_window <= self.accumulated_length
    }

    /// A calculator that has seen nothing.
    pub fn new() -> (r: Self)
        ensures
            r.wf(),
            r.slots() == Seq::<(u128, u64)>::empty(),
            r.total() == 0,
    {
        SpeedCalc {
            origin: Instant::now(),
            time_slots: VecDeque::new(),
            bytes_window: 0,
            accumulated_length: 0,
        }
    }

    /// The nanoseconds since the calculator was made. The clock decides, so
    /// nothing is claimed of them: what follows from them is stated where they are
    /// an argument.
    fn now(&self) -> u128 {
        self.origin.elapsed().as_nanos()
    }

    /// All bytes of the session.
    pub fn accumulated_length(&self) -> (r: u64)
        ensures
            r == self.total(),
    {
        self.accumulated_length
    }

    /// Drops the slots that are too old at the time `now`.
    fn remove_stale(&mut self, now: u128)
        requires
            old(self).wf(),
        ensures
            final(self).wf(),
            final(self).slots() == fresh(old(self).slots(), now),
            final(self).total() == old(self).total(),
    {
        let ghost before = self.time_slots@;
        while self.time_slots.len() > 0 && now > self.time_slots[0].0
            && now - self.time_slots[0].0 > SPEED_WINDOW_NANOS
            invariant
                self.wf(),
                fresh(self.time_slots@, now) == fresh(before, now),
                self.accumulated_length == old(self).accumulated_length,
            decreases self.time_slots@.len(),
        {
            proof {
                lemma_drop_first_bytes(self.time_slots@);
                assert(self.time_slots@.subrange(1, self.time_slots@.len() as int)
                    =~= self.time_slots@.drop_first());
            }
            match self.time_slots.pop_front() {
                Some(slot) => {
                    self.bytes_window = self.bytes_window.saturating_sub(slot.1);
                },
                None => {},
            }
        }
    }

    /// Counts `bytes` that came at the time `now`.
    pub fn update_at(&mut self, now: u128, bytes: u64)
        requires
            old(self).wf(),
            old(self).total() + bytes <= u64::MAX,
        ensures
            final(self).wf(),
            final(self).slots() == with_bytes(old(self).slots(), now, bytes),
            final(self).total() == old(self).total() + bytes,
    {
        self.remove_stale(now);
        let ghost kept = self.time_slots@;
        let n = self.time_slots.len();
        let young = n > 0 && (now <= self.time_slots[n - 1].0 || now - self.time_slots[n - 1].0
            < SLOT_NANOS);
        proof {
            assert(kept.len() > 0 ==> slot_bytes(kept) == slot_bytes(kept.drop_last())
                + kept.last().1);
        }
        if young {
            match self.time_slots.pop_back() {
                Some(slot) => {
                    assert(kept.subrange(0, kept.len() - 1) =~= kept.drop_last());
                    self.time_slots.push_back((slot.0, slot.1 + bytes));
                    assert(self.time_slots@ =~= kept.update(
                        kept.len() - 1,
                        (kept.last().0, (kept.last().1 + bytes) as u64),
                    ));
                    assert(self.time_slots@.drop_last() =~= kept.drop_last());
                },
                None => {},
            }
        } else {
            self.time_slots.push_back((now, bytes));
            assert(self.time_slots@.drop_last() =~= kept);
        }
        self.bytes_window = self.bytes_window + bytes;
        self.accumulated_length = self.accumulated_length + bytes;
    }

    /// Counts `bytes` that came now.
    pub fn update(&mut self, bytes: u64)
        requires
            old(self).wf(),
            old(self).total() + bytes <= u64::MAX,
        ensures
            final(self).wf(),
            exists|now: u128| final(self).slots() == with_bytes(old(self).slots(), now, bytes),
            final(self).total() == old(self).total() + bytes,
    {
        let now = self.now();
        self.update_at(now, bytes);
    }

    /// The speed in bytes per second at the time `now`.
    pub fn speed_bps_at(&mut self, now: u128) -> (r: u64)
        requires
            old(self).wf(),
        ensures
            final(self).wf(),
            final(self).slots() == fresh(old(self).slots(), now),
            final(self).total() == old(self).total(),
            r == slots_speed(old(self).slots(), now),
    {
        let ghost before = self.time_slots@;
        self.remove_stale(now);
        if self.time_slots.len() == 0 {
            return 0;
        }
        let first = self.time_slots[0].0;
        proof {
            lemma_fresh_front(before, now);
        }
        let span: u128 = if now > first {
            (now - first) / 1_000_000
        } else {
            0
        };
        let millis: u64 = if span < 1 {
            1
        } else {
            span as u64
        };
        let thousandths: u64 = if self.bytes_window > u64::MAX / 1000 {
            u64::MAX
        } else {
            self.bytes_window * 1000
        };
        thousandths / millis
    }

    /// The speed in bytes per second now.
    pub fn speed_bps(&mut self) -> (r: u64)
        requires
            old(self).wf(),
        ensures
            final(self).wf(),
            exists|now: u128|
                final(self).slots() == fresh(old(self).slots(), now) && r == slots_speed(
                    old(self).slots(),
                    now,
                ),
            final(self).total() == old(self).total(),
    {
        let now = self.now();
        self.speed_bps_at(now)
    }
}

/// The first slot that is kept is not too old.
proof fn lemma_fresh_front(slots: Seq<(u128, u64)>, now: u128)
    ensures
        fresh(slots, now).len() > 0 ==> now <= fresh(slots, now)[0].0 + SPEED_WINDOW_NANOS,
    decreases slots.len(),
{
    if slots.len() > 0 && now > slots[0].0 + SPEED_WINDOW_NANOS {
        lemma_fresh_front(slots.drop_first(), now);
    }
}

// ---------------------------------------------------------------------------
// Progress of a transfer
// ---------------------------------------------------------------------------

/// What was completed in this session and before it.
pub open spec fn completed_bytes(baseline: nat, session: nat) -> nat {
    if baseline + session > u64::MAX {
        u64::MAX as nat
    } else {
        baseline + session
    }
}

/// Counts a chunk that came at the time `arrival` and returns what to show of
/// the transfer at the time `now`: the completed bytes and the remaining time.
pub fn update_transfer_progress_bar_at(
    speed: &mut SpeedCalc,
    arrival: u128,
    now: u128,
    baseline_completed: u64,
    total: u64,
    session_chunk: u64,
) -> (r: (u64, String))
    requires
        old(speed).wf(),
        old(speed).total() + session_chunk <= u64::MAX,
    ensures
        final(speed).wf(),
        final(speed).total() == old(speed).total() + session_chunk,
        final(speed).slots() == fresh(with_bytes(old(speed).slots(), arrival, session_chunk), now),
        r.0 == completed_bytes(baseline_completed as nat, final(speed).total()),
        r.1@ == units::eta_text(
            total as nat,
            r.0 as nat,
            slots_speed(with_bytes(old(speed).slots(), arrival, session_chunk), now),
        ),
{
    speed.update_at(arrival, session_chunk);
    let completed = baseline_completed.saturating_add(speed.accumulated_length());
    let bps = speed.speed_bps_at(now);
    (completed, units::format_progress_eta_message(total, completed, bps))
}

/// Counts a chunk that came now and returns what to show of the transfer: the
/// completed bytes and the remaining time.
pub fn update_transfer_progress_bar(
    speed: &mut SpeedCalc,
    baseline_completed: u64,
    total: u64,
    session_chunk: u64,
) -> (r: (u64, String))
    requires
        old(speed).wf(),
        old(speed).total() + session_chunk <= u64::MAX,
    ensures
        final(speed).wf(),
        final(speed).total() == old(speed).total() + session_chunk,
        r.0 == completed_bytes(baseline_completed as nat, final(speed).total()),
        exists|arrival: u128, now: u128|
            #![trigger with_bytes(old(speed).slots(), arrival, session_chunk), fresh(final(speed).slots(), now)]
            {
                &&& final(speed).slots() == fresh(
                    with_bytes(old(speed).slots(), arrival, session_chunk),
                    now,
                )
                &&& r.1@ == units::eta_text(
                    total as nat,
                    r.0 as nat,
                    slots_speed(with_bytes(old(speed).slots(), arrival, session_chunk), now),
                )
            },
{
    let arrival = speed.now();
    let now = speed.now();
    let r = update_transfer_progress_bar_at(
        speed,
        arrival,
        now,
        baseline_completed,
        total,
        session_chunk,
    );
    assert(with_bytes(old(speed).slots(), arrival, session_chunk) == with_bytes(
        old(speed).slots(),
        arrival,
        session_chunk,
    ));
    assert(fresh(speed.slots(), now) == fresh(speed.slots(), now));
    r
}

// ---------------------------------------------------------------------------
// Laws
// ---------------------------------------------------------------------------

/// While the clock does not run backwards, the slots stay in order.
pub proof fn law_slots_stay_in_order(slots: Seq<(u128, u64)>, now: u128, bytes: u64)
    requires
        in_order(slots),
        slots.len() > 0 ==> slots.last().0 <= now,
    ensures
        in_order(with_bytes(slots, now, bytes)),
        with_bytes(slots, now, bytes).last().0 <= now,
{
    lemma_fresh_in_order(slots, now);
    let kept = fresh(slots, now);
    let after = with_bytes(slots, now, bytes);
    assert forall|i: int, j: int| 0 <= i <= j < after.len() implies (#[trigger] after[i]).0
        <= (#[trigger] after[j]).0 by {
        if j < kept.len() {
            assert(kept[i].0 <= kept[j].0);
        } else if i < kept.len() {
            assert(kept[i].0 <= kept[kept.len() - 1].0);
        }
    }
}

/// What is kept of slots in order is in order, and ends with the same slot.
proof fn lemma_fresh_in_order(slots: Seq<(u128, u64)>, now: u128)
    requires
        in_order(slots),
    ensures
        in_order(fresh(slots, now)),
        fresh(slots, now).len() > 0 ==> slots.len() > 0 && fresh(slots, now).last()
            == slots.last(),
    decreases slots.len(),
{
    if slots.len() > 0 && now > slots[0].0 + SPEED_WINDOW_NANOS {
        let rest = slots.drop_first();
        assert forall|i: int, j: int| 0 <= i <= j < rest.len() implies (#[trigger] rest[i]).0 <= (
        #[trigger] rest[j]).0 by {
            assert(slots[i + 1].0 <= slots[j + 1].0);
        }
        lemma_fresh_in_order(rest, now);
    }
}

/// The speed counts only bytes of the last ten seconds.
pub proof fn law_window_is_recent(slots: Seq<(u128, u64)>, now: u128)
    requires
        in_order(slots),
    ensures
        forall|i: int|
            0 <= i < fresh(slots, now).len() ==> now <= (#[trigger] fresh(slots, now)[i]).0
                + SPEED_WINDOW_NANOS,
{
    lemma_fresh_in_order(slots, now);
    lemma_fresh_front(slots, now);
    let kept = fresh(slots, now);
    assert forall|i: int| 0 <= i < kept.len() implies now <= (#[trigger] kept[i]).0
        + SPEED_WINDOW_NANOS by {
        assert(kept[0].0 <= kept[i].0);
    }
}

/// The bytes of the window are those that came, less those that were dropped:
/// no more than before and the new ones.
pub proof fn law_window_bytes(slots: Seq<(u128, u64)>, now: u128, bytes: u64)
    requires
        slot_bytes(slots) + bytes <= u64::MAX,
    ensures
        slot_bytes(with_bytes(slots, now, bytes)) == slot_bytes(fresh(slots, now)) + bytes,
        slot_bytes(with_bytes(slots, now, bytes)) <= slot_bytes(slots) + bytes,
{
    lemma_fresh_bytes(slots, now);
    let kept = fresh(slots, now);
    let after = with_bytes(slots, now, bytes);
    if kept.len() > 0 && now < kept.last().0 + SLOT_NANOS {
        assert(after.drop_last() =~= kept.drop_last());
    } else {
        assert(after.drop_last() =~= kept);
    }
}

/// Bytes that come are counted in the slot that started within the last second, and
/// else in a new one. Slots that started more than ten seconds ago are dropped, and
/// no other ones.
pub proof fn law_bytes_are_counted_in_slots(slots: Seq<(u128, u64)>, now: u128, bytes: u64)
    requires
        in_order(slots),
        slots.len() > 0 ==> slots.last().0 <= now,
        slot_bytes(slots) + bytes <= u64::MAX,
    ensures
        ({
            let after = with_bytes(slots, now, bytes);
            if slots.len() > 0 && now - slots.last().0 < 1_000_000_000 {
                after.last() == (slots.last().0, (slots.last().1 + bytes) as u64)
            } else {
                after.last() == (now, bytes)
            }
        }),
        forall|i: int|
            0 <= i < slots.len() && now - (#[trigger] slots[i]).0 <= 10_000_000_000 ==> fresh(
                slots,
                now,
            ).contains(slots[i]),
        forall|slot: (u128, u64)| #[trigger]
            fresh(slots, now).contains(slot) ==> slots.contains(slot) && now - slot.0
                <= 10_000_000_000,
{
    lemma_fresh_in_order(slots, now);
    lemma_fresh_is_the_rest(slots, now);
    law_window_is_recent(slots, now);
    let kept = fresh(slots, now);
    let k = slots.len() - kept.len();
    assert forall|i: int|
        0 <= i < slots.len() && now - (#[trigger] slots[i]).0 <= 10_000_000_000 implies kept.contains(
        slots[i],
    ) by {
        assert(i >= k) by {
            if i < k {
                assert(now - slots[i].0 > 10_000_000_000);
            }
        }
        assert(kept[i - k] == slots[i]);
    }
    assert forall|slot: (u128, u64)| #[trigger] kept.contains(slot) implies slots.contains(slot)
        && now - slot.0 <= 10_000_000_000 by {
        let j = choose|j: int| 0 <= j < kept.len() && kept[j] == slot;
        assert(slots[j + k] == slot);
        assert(now <= kept[j].0 + SPEED_WINDOW_NANOS);
    }
    if slots.len() > 0 && now - slots.last().0 < 1_000_000_000 {
        assert(slots[slots.len() - 1] == slots.last());
        assert(kept.contains(slots.last()));
    }
}

/// What is kept of slots is what follows those that are too old.
proof fn lemma_fresh_is_the_rest(slots: Seq<(u128, u64)>, now: u128)
    ensures
        ({
            let k = slots.len() - fresh(slots, now).len();
            &&& 0 <= k <= slots.len()
            &&& fresh(slots, now) == slots.skip(k)
            &&& forall|i: int| 0 <= i < k ==> now - (#[trigger] slots[i]).0 > 10_000_000_000
        }),
    decreases slots.len(),
{
    if slots.len() > 0 && now > slots[0].0 + SPEED_WINDOW_NANOS {
        let rest = slots.drop_first();
        lemma_fresh_is_the_rest(rest, now);
        let k = slots.len() - fresh(slots, now).len();
        assert(fresh(slots, now) =~= slots.skip(k));
        assert forall|i: int| 0 <= i < k implies now - (#[trigger] slots[i]).0 > 10_000_000_000 by {
            if i > 0 {
                assert(rest[i - 1] == slots[i]);
            }
        }
    } else {
        assert(slots.skip(0) =~= slots);
    }
}

/// The speed is the bytes of the window over the time since its first slot started:
/// in so many milliseconds, at least one, just as many thousandths of bytes come as
/// were counted, up to a remainder.
pub proof fn law_speed_is_bytes_over_time(slots: Seq<(u128, u64)>, now: u128)
    requires
        fresh(slots, now).len() > 0,
        fresh(slots, now)[0].0 <= now,
        slot_bytes(fresh(slots, now)) * 1000 <= u64::MAX,
    ensures
        ({
            let kept = fresh(slots, now);
            let span = ((now - kept[0].0) / 1_000_000) as nat;
            let millis = if span == 0 {
                1
            } else {
                span
            };
            let speed = slots_speed(slots, now);
            speed * millis <= slot_bytes(kept) * 1000 < (speed + 1) * millis
        }),
{
    let kept = fresh(slots, now);
    let span = ((now - kept[0].0) / 1_000_000) as nat;
    let millis = if span == 0 {
        1
    } else {
        span
    };
    let a = slot_bytes(kept) * 1000;
    let q = a / millis;
    assert(q * millis <= a < (q + 1) * millis) by (nonlinear_arith)
        requires
            millis > 0,
            q == a / millis,
    ;
    assert(slots_speed(slots, now) == q);
}

/// Without anything in the window nothing moves.
pub proof fn law_empty_window_stands_still(slots: Seq<(u128, u64)>, now: u128)
    requires
        fresh(slots, now).len() == 0,
    ensures
        slots_speed(slots, now) == 0,
{
}

/// What is complete is what was there and what has come since, as far as it can be
/// counted.
pub proof fn law_completed_bytes_are_all_bytes(baseline: nat, session: nat)
    ensures
        baseline + session <= u64::MAX ==> completed_bytes(baseline, session) == baseline + session,
        baseline + session > u64::MAX ==> completed_bytes(baseline, session) == u64::MAX,
{
}

} // verus!
