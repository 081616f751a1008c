//! A cap on the rate of all downloads together.
//!
//! The limiter is a bucket that holds a budget of bytes: it fills at the given
//! rate, up to one second of it, and every piece is charged its size before it
//! passes. A piece of more than one second of the rate is charged in parts of one
//! second each. All transfers share one bucket. The budget is counted in
//! billionths of a byte, so that no fraction is lost.

use vstd::prelude::*;

verus! {

/// Billionths of a byte in a byte, and nanoseconds in a second.
pub const BILLION: u128 = 1_000_000_000;

// ---------------------------------------------------------------------------
// The model
// ---------------------------------------------------------------------------

/// A bucket: its rate in bytes per second, its budget in billionths of a byte, and
/// when that was counted, in nanoseconds.
pub struct Bucket {
    pub rate: nat,
    pub budget: nat,
    pub counted: nat,
}

/// The smaller of two numbers.
pub open spec fn smaller(a: nat, b: nat) -> nat {
    if a <= b {
        a
    } else {
        b
    }
}

/// `a` divided by `b`, rounded up.
pub open spec fn quotient_up(a: nat, b: nat) -> nat {
    (a + b - 1) as nat / b
}

impl Bucket {
    /// What the bucket can hold: one second of the rate.
    pub open spec fn capacity(self) -> nat {
        self.rate * (BILLION as nat)
    }

    /// Whether there is a rate, and the budget fits into the bucket.
    pub open spec fn wf(self) -> bool {
        self.rate > 0 && self.budget <= self.capacity()
    }

    /// The bucket at the time `now`: what flowed in is added, up to the capacity.
    pub open spec fn filled(self, now: nat) -> Bucket {
        if now > self.counted {
            Bucket {
                rate: self.rate,
                budget: smaller(
                    self.budget + (now - self.counted) as nat * self.rate,
                    self.capacity(),
                ),
                counted: now,
            }
        } else {
            self
        }
    }

    /// What is charged at a time of a piece of which `left` bytes are left to be
    /// charged: all of it, or one second of the rate.
    pub open spec fn part(self, left: nat) -> nat {
        smaller(left, self.rate)
    }

    /// Whether the budget at the time `now` suffices for the next part of a piece.
    pub open spec fn affords(self, now: nat, left: nat) -> bool {
        self.filled(now).budget >= self.part(left) * (BILLION as nat)
    }

    /// The bytes that are charged when a piece is asked for.
    pub open spec fn charged(self, now: nat, left: nat) -> nat {
        if self.affords(now, left) {
            self.part(left)
        } else {
            0
        }
    }

    /// The bucket after a piece was asked for.
    pub open spec fn after(self, now: nat, left: nat) -> Bucket {
        let filled = self.filled(now);
        Bucket {
            budget: (filled.budget - self.charged(now, left) * (BILLION as nat)) as nat,
            ..filled
        }
    }

    /// The time until the budget suffices for the next part of a piece, in whole
    /// nanoseconds.
    pub open spec fn shortage(self, left: nat) -> nat {
        if self.budget >= self.part(left) * (BILLION as nat) {
            0
        } else {
            quotient_up((self.part(left) * (BILLION as nat) - self.budget) as nat, self.rate)
        }
    }

    /// How long a piece has to wait after it was asked for, before it is asked for
    /// again; nothing where it passes.
    pub open spec fn pause(self, now: nat, left: nat) -> nat {
        self.after(now, left).shortage((left - self.charged(now, left)) as nat)
    }
}

// ---------------------------------------------------------------------------
// The limiter
// ---------------------------------------------------------------------------

/// What the limiter says of a piece.
#[derive(Debug, Clone, Copy, PartialEq, Eq, Structural)]
pub enum Grant {
    /// It may pass.
    Pass,
    /// It has to wait for so many nanoseconds and to ask again.
    Wait(u64),
}

/// A piece that asks to pass.
#[derive(Debug, Clone, Copy, PartialEq, Eq, Structural)]
pub struct Claim {
    /// The bytes that are left to be charged.
    pub left: u64,
}

/// The bytes that are charged for a piece; at least one.
pub open spec fn claimed(bytes: nat) -> nat {
    if bytes == 0 {
        1
    } else {
        bytes
    }
}

impl Claim {
    /// A piece of which nothing has been charged.
    pub fn new(bytes: u64) -> (r: Claim)
        ensures
            r.left == claimed(bytes as nat),
    {
        Claim {
            left: if bytes == 0 {
                1
            } else {
                bytes
            },
        }
    }
}

/// A cap on the rate of all downloads together.
#[derive(Debug, Clone, Copy, PartialEq, Eq, Structural)]
pub struct BandwidthLimiter {
    /// The rate, in bytes per second.
    pub max_bytes_per_sec: u64,
    /// The budget, in billionths of a byte.
    pub tokens: u128,
    /// When the budget was last counted, in nanoseconds.
    pub last_refill: u128,
}

impl BandwidthLimiter {
    /// The bucket.
    pub open spec fn view(&self) -> Bucket {
        Bucket {
            rate: self.max_bytes_per_sec as nat,
            budget: self.tokens as nat,
            counted: self.last_refill as nat,
        }
    }

    /// A limiter with a full bucket.
    pub fn new(max_bytes_per_sec: u64, now: u128) -> (r: BandwidthLimiter)
        requires
            max_bytes_per_sec > 0,
        ensures
            r@.wf(),
            r@ == (Bucket {
                rate: max_bytes_per_sec as nat,
                budget: (max_bytes_per_sec * BILLION) as nat,
                counted: now as nat,
            }),
    {
        BandwidthLimiter {
            max_bytes_per_sec,
            tokens: max_bytes_per_sec as u128 * BILLION,
            last_refill: now,
        }
    }

    /// Lets flow in what has come since the budget was last counted.
    fn refill(&mut self, now: u128)
        requires
            old(self)@.wf(),
        ensures
            final(self)@.wf(),
            final(self)@ == old(self)@.filled(now as nat),
    {
        if now > self.last_refill {
            let rate = self.max_bytes_per_sec as u128;
            let full: u128 = rate * BILLION;
            let elapsed: u128 = now - self.last_refill;
            if elapsed >= BILLION {
                assert(elapsed * rate >= rate * BILLION) by (nonlinear_arith)
                    requires
                        elapsed >= BILLION,
                        rate >= 0,
                ;
                self.tokens = full;
            } else {
                assert(elapsed * rate <= rate * BILLION) by (nonlinear_arith)
                    requires
                        elapsed < BILLION,
                        rate >= 0,
                ;
                let sum: u128 = self.tokens + elapsed * rate;
                self.tokens = if sum <= full {
                    sum
                } else {
                    full
                };
            }
            self.last_refill = now;
        }
    }

    /// Asks at the time `now` whether a piece may pass: charges the next part of
    /// it where the budget suffices, and lets it pass once all of it is charged.
    pub fn acquire(&mut self, now: u128, claim: &mut Claim) -> (r: Grant)
        requires
            old(self)@.wf(),
        ensures
            final(self)@.wf(),
            final(self)@ == old(self)@.after(now as nat, old(claim).left as nat),
            final(claim).left == old(claim).left - old(self)@.charged(
                now as nat,
                old(claim).left as nat,
            ),
            match r {
                Grant::Pass => final(claim).left == 0,
                Grant::Wait(nanos) => {
                    &&& final(claim).left > 0
                    &&& nanos == old(self)@.pause(now as nat, old(claim).left as nat)
                    &&& 0 < nanos <= BILLION
                },
            },
    {
        let ghost before = self@;
        let ghost left = claim.left as nat;
        self.refill(now);
        let rate = self.max_bytes_per_sec;
        let part: u64 = if claim.left <= rate {
            claim.left
        } else {
            rate
        };
        let wanted: u128 = part as u128 * BILLION;
        if self.tokens >= wanted {
            self.tokens = self.tokens - wanted;
            claim.left = claim.left - part;
            if claim.left == 0 {
                return Grant::Pass;
            }
        }
        assert(self@ == before.after(now as nat, left));
        proof {
            lemma_pause(before, now as nat, left);
        }
        let next: u64 = if claim.left <= rate {
            claim.left
        } else {
            rate
        };
        let missing: u128 = next as u128 * BILLION - self.tokens;
        let nanos: u128 = (missing + (rate as u128 - 1)) / rate as u128;
        Grant::Wait(nanos as u64)
    }
}

// ---------------------------------------------------------------------------
// One ask
// ---------------------------------------------------------------------------

/// Dividing and rounding up gives the least number that is enough.
proof fn lemma_quotient_up(a: nat, b: nat)
    requires
        b > 0,
    ensures
        quotient_up(a, b) * b >= a,
        a > 0 ==> quotient_up(a, b) > 0,
        forall|c: nat| a <= #[trigger] (c * b) ==> quotient_up(a, b) <= c,
{
    let q = quotient_up(a, b);
    let n = (a + b - 1) as nat;
    let r = n % b;
    assert(n == q * b + r && 0 <= r < b) by (nonlinear_arith)
        requires
            b > 0,
            q == n / b,
            r == n % b,
    ;
    assert forall|c: nat| a <= #[trigger] (c * b) implies q <= c by {
        if q > c {
            assert(q * b >= (c + 1) * b) by (nonlinear_arith)
                requires
                    q >= c + 1,
                    b > 0,
            ;
            assert((c + 1) * b == c * b + b) by (nonlinear_arith);
        }
    }
    if a > 0 && q == 0 {
        assert(0 * b == 0) by (nonlinear_arith);
    }
}

/// What was asked for is charged out of the budget, and a part that has been
/// charged is never more than the bucket holds.
proof fn lemma_after(bucket: Bucket, now: nat, left: nat)
    requires
        bucket.wf(),
    ensures
        bucket.filled(now).wf(),
        bucket.after(now, left).wf(),
        bucket.after(now, left).budget + bucket.charged(now, left) * (BILLION as nat)
            == bucket.filled(now).budget,
        bucket.charged(now, left) <= left,
        bucket.part(left) * (BILLION as nat) <= bucket.capacity(),
        bucket.after(now, left).rate == bucket.rate,
        bucket.after(now, left).counted == bucket.filled(now).counted,
{
    assert(bucket.part(left) * BILLION <= bucket.rate * BILLION) by (nonlinear_arith)
        requires
            bucket.part(left) <= bucket.rate,
    ;
    assert(bucket.part(left) * BILLION >= 0) by (nonlinear_arith);
    assert(0 * (BILLION as nat) == 0);
}

/// A piece that does not pass waits for more than nothing and for at most a
/// second.
proof fn lemma_pause(bucket: Bucket, now: nat, left: nat)
    requires
        bucket.wf(),
        left > bucket.charged(now, left),
    ensures
        ({
            let after = bucket.after(now, left);
            let rest = (left - bucket.charged(now, left)) as nat;
            after.budget < after.part(rest) * (BILLION as nat)
        }),
        0 < bucket.pause(now, left) <= BILLION,
{
    lemma_after(bucket, now, left);
    let after = bucket.after(now, left);
    let rest = (left - bucket.charged(now, left)) as nat;
    lemma_after(after, now, rest);
    if bucket.affords(now, left) {
        // Only a whole second of the rate leaves something to be charged, and it
        // takes all that the bucket can hold.
        assert(bucket.part(left) == bucket.rate);
        assert(after.budget == 0);
        assert(after.part(rest) * (BILLION as nat) > 0) by (nonlinear_arith)
            requires
                after.part(rest) > 0,
        ;
    }
    let missing = (after.part(rest) * (BILLION as nat) - after.budget) as nat;
    lemma_quotient_up(missing, after.rate);
    assert(missing <= BILLION * after.rate) by (nonlinear_arith)
        requires
            missing <= after.rate * BILLION,
    ;
    assert(missing <= (BILLION as nat) * after.rate);
}

/// After the pause that a piece was told to make its next part is charged, if no
/// other piece has come in between.
pub proof fn law_one_pause_is_enough(bucket: Bucket, now: nat, left: nat)
    requires
        bucket.wf(),
        bucket.counted <= now,
    ensures
        bucket.after(now, left).affords(
            now + bucket.pause(now, left),
            (left - bucket.charged(now, left)) as nat,
        ),
{
    lemma_after(bucket, now, left);
    let after = bucket.after(now, left);
    let rest = (left - bucket.charged(now, left)) as nat;
    let pause = bucket.pause(now, left);
    lemma_after(after, now + pause, rest);
    let wanted = after.part(rest) * (BILLION as nat);
    if after.budget < wanted {
        lemma_quotient_up((wanted - after.budget) as nat, after.rate);
        if pause == 0 {
            assert(0 * after.rate == 0) by (nonlinear_arith);
        }
        assert((now + pause - after.counted) as nat == pause);
    }
}

/// No piece is held back without need: before the pause is over that it was told to
/// make, its next part could not be charged.
pub proof fn law_pauses_are_no_longer_than_needed(
    bucket: Bucket,
    now: nat,
    left: nat,
    earlier: nat,
)
    requires
        bucket.wf(),
        bucket.counted <= now,
        earlier < bucket.pause(now, left),
    ensures
        !bucket.after(now, left).affords(
            now + earlier,
            (left - bucket.charged(now, left)) as nat,
        ),
{
    lemma_after(bucket, now, left);
    let after = bucket.after(now, left);
    let rest = (left - bucket.charged(now, left)) as nat;
    lemma_after(after, now + earlier, rest);
    let wanted = after.part(rest) * (BILLION as nat);
    let missing = (wanted - after.budget) as nat;
    lemma_quotient_up(missing, after.rate);
    if after.affords(now + earlier, rest) {
        if earlier == 0 {
            assert(after.filled(now + earlier) == after);
        } else {
            assert((now + earlier - after.counted) as nat == earlier);
            assert(after.budget + earlier * after.rate >= wanted);
            assert(missing <= earlier * after.rate);
        }
    }
}

/// What the budget of a bucket suffices for is charged at once.
proof fn lemma_budget_pays(bucket: Bucket, now: nat, left: nat)
    requires
        bucket.wf(),
        bucket.budget >= left * BILLION,
    ensures
        bucket.charged(now, left) == left,
{
    assert(left <= bucket.rate) by (nonlinear_arith)
        requires
            left * BILLION <= bucket.rate * BILLION,
    ;
    assert(bucket.filled(now).budget >= bucket.budget) by {
        if now > bucket.counted {
            assert((now - bucket.counted) as nat * bucket.rate >= 0) by (nonlinear_arith);
        }
    }
}

/// What the budget suffices for passes at once.
pub proof fn law_paid_pieces_pass_at_once(bucket: Bucket, now: nat, left: nat)
    requires
        bucket.wf(),
        bucket.budget >= left * BILLION,
    ensures
        bucket.charged(now, left) == left,
        bucket.after(now, left).budget + left * BILLION == bucket.filled(now).budget,
{
    lemma_budget_pays(bucket, now, left);
    lemma_after(bucket, now, left);
}

/// The bucket fills at its rate and holds one second of it.
pub proof fn law_bucket_fills_at_its_rate(bucket: Bucket, elapsed: nat)
    requires
        bucket.wf(),
    ensures
        ({
            let later = bucket.filled(bucket.counted + elapsed).budget;
            let flowed = bucket.budget + elapsed * bucket.rate;
            if flowed <= bucket.rate * 1_000_000_000 {
                later == flowed
            } else {
                later == bucket.rate * 1_000_000_000
            }
        }),
{
    if elapsed == 0 {
        assert(0 * bucket.rate == 0) by (nonlinear_arith);
    }
}

/// A piece of at most one second of the rate is charged in one part: as long as it
/// waits, nothing of it has been charged.
pub proof fn law_ordinary_pieces_are_charged_whole(bucket: Bucket, now: nat, left: nat)
    requires
        left <= bucket.rate,
    ensures
        bucket.charged(now, left) == left || bucket.charged(now, left) == 0,
{
}

// ---------------------------------------------------------------------------
// A piece alone
// ---------------------------------------------------------------------------

/// A piece that has been asked for some times: the bucket, the time of the next
/// ask, and the bytes that are left to be charged.
pub struct Asked {
    pub bucket: Bucket,
    pub now: nat,
    pub left: nat,
}

/// A piece that is asked for `n` times, each time after the pause that it was told
/// to make, while no other piece comes.
pub open spec fn asked(bucket: Bucket, now: nat, left: nat, n: nat) -> Asked
    decreases n,
{
    if n == 0 {
        Asked { bucket, now, left }
    } else {
        asked(
            bucket.after(now, left),
            now + bucket.pause(now, left),
            (left - bucket.charged(now, left)) as nat,
            (n - 1) as nat,
        )
    }
}

/// A piece that can pay passes after as many asks as it has seconds of the rate.
proof fn lemma_passes(bucket: Bucket, now: nat, left: nat, n: nat)
    requires
        bucket.wf(),
        bucket.counted <= now,
        bucket.affords(now, left),
        n * bucket.rate >= left,
    ensures
        asked(bucket, now, left, n).left == 0,
    decreases n,
{
    if n == 0 {
        assert(0 * bucket.rate == 0) by (nonlinear_arith);
    } else {
        lemma_after(bucket, now, left);
        law_one_pause_is_enough(bucket, now, left);
        let rest = (left - bucket.charged(now, left)) as nat;
        assert(n * bucket.rate == (n - 1) * bucket.rate + bucket.rate) by (nonlinear_arith);
        assert((n - 1) * bucket.rate >= 0) by (nonlinear_arith)
            requires
                n >= 1,
        ;
        lemma_passes(
            bucket.after(now, left),
            now + bucket.pause(now, left),
            rest,
            (n - 1) as nat,
        );
    }
}

/// Every pause takes at most a second.
proof fn lemma_time(bucket: Bucket, now: nat, left: nat, n: nat)
    requires
        bucket.wf(),
    ensures
        asked(bucket, now, left, n).now <= now + n * BILLION,
    decreases n,
{
    if n > 0 {
        lemma_after(bucket, now, left);
        let rest = (left - bucket.charged(now, left)) as nat;
        if rest > 0 {
            lemma_pause(bucket, now, left);
        } else {
            assert(0 * (BILLION as nat) == 0);
            assert(bucket.after(now, left).part(0) * (BILLION as nat) == 0);
        }
        lemma_time(
            bucket.after(now, left),
            now + bucket.pause(now, left),
            rest,
            (n - 1) as nat,
        );
    }
}

/// Every piece passes, whatever its size and whatever the bucket holds: a piece of
/// at most `n` seconds of the rate passes after at most one more ask than that,
/// with pauses of at most a second each.
pub proof fn law_every_piece_passes(bucket: Bucket, now: nat, left: nat, n: nat)
    requires
        bucket.wf(),
        bucket.counted <= now,
        left <= n * bucket.rate,
    ensures
        asked(bucket, now, left, n + 1).left == 0,
        asked(bucket, now, left, n + 1).now <= now + (n + 1) * BILLION,
{
    lemma_time(bucket, now, left, n + 1);
    lemma_after(bucket, now, left);
    law_one_pause_is_enough(bucket, now, left);
    lemma_passes(
        bucket.after(now, left),
        now + bucket.pause(now, left),
        (left - bucket.charged(now, left)) as nat,
        n,
    );
}

// ---------------------------------------------------------------------------
// Many pieces
// ---------------------------------------------------------------------------

/// All pieces that share a bucket: how many bytes of each are left to be charged.
pub struct Shared {
    pub bucket: Bucket,
    pub left: Seq<nat>,
}

/// The pieces after some asks, each at a time and for the piece with an index.
pub open spec fn shared(start: Shared, asks: Seq<(nat, int)>) -> Shared
    decreases asks.len(),
{
    if asks.len() == 0 {
        start
    } else {
        let before = shared(start, asks.drop_last());
        let (now, i) = asks.last();
        Shared {
            bucket: before.bucket.after(now, before.left[i]),
            left: before.left.update(
                i,
                (before.left[i] - before.bucket.charged(now, before.left[i])) as nat,
            ),
        }
    }
}

/// The bytes that all asks together have charged.
pub open spec fn all_charged(start: Shared, asks: Seq<(nat, int)>) -> nat
    decreases asks.len(),
{
    if asks.len() == 0 {
        0
    } else {
        let before = shared(start, asks.drop_last());
        let (now, i) = asks.last();
        all_charged(start, asks.drop_last()) + before.bucket.charged(now, before.left[i])
    }
}

/// Whether all asks come from pieces that there are, between two times.
pub open spec fn within(asks: Seq<(nat, int)>, pieces: nat, from: nat, to: nat) -> bool {
    forall|k: int|
        0 <= k < asks.len() ==> {
            &&& from <= (#[trigger] asks[k]).0 <= to
            &&& 0 <= asks[k].1 < pieces
        }
}

/// The sum of some numbers.
pub open spec fn sum(s: Seq<nat>) -> nat
    decreases s.len(),
{
    if s.len() == 0 {
        0
    } else {
        sum(s.drop_last()) + s.last()
    }
}

/// The bytes of the pieces of which nothing is left to be charged.
pub open spec fn passed(sizes: Seq<nat>, left: Seq<nat>) -> nat
    decreases sizes.len(),
{
    if sizes.len() == 0 {
        0
    } else {
        passed(sizes.drop_last(), left.drop_last()) + (if left.last() == 0 {
            sizes.last()
        } else {
            0
        })
    }
}

/// The bucket stays in order, and the clock of the bucket never runs backwards.
pub proof fn law_budget_stays_in_the_bucket(start: Shared, asks: Seq<(nat, int)>)
    requires
        start.bucket.wf(),
    ensures
        shared(start, asks).bucket.wf(),
        shared(start, asks).bucket.rate == start.bucket.rate,
        shared(start, asks).bucket.counted >= start.bucket.counted,
    decreases asks.len(),
{
    if asks.len() > 0 {
        law_budget_stays_in_the_bucket(start, asks.drop_last());
        let before = shared(start, asks.drop_last());
        let (now, i) = asks.last();
        lemma_after(before.bucket, now, before.left[i]);
    }
}

/// However many transfers share the limiter, and whatever came before: between any
/// two times they are charged no more than the rate allows in between, and one
/// second of it.
pub proof fn law_rate_is_capped(start: Shared, asks: Seq<(nat, int)>, from: nat, to: nat)
    requires
        start.bucket.wf(),
        start.bucket.counted <= to,
        from <= to,
        within(asks, start.left.len(), from, to),
    ensures
        all_charged(start, asks) * BILLION <= start.bucket.capacity() + start.bucket.rate * (to
            - from),
{
    lemma_rate(start, asks, from, to);
    let counted = shared(start, asks).bucket.counted;
    let since = if counted > from {
        (counted - from) as nat
    } else {
        0
    };
    assert(start.bucket.rate * since <= start.bucket.rate * (to - from)) by (nonlinear_arith)
        requires
            since <= to - from,
    ;
}

/// What has been charged and what is left in the bucket come from what it could
/// hold and what has flowed in.
proof fn lemma_rate(start: Shared, asks: Seq<(nat, int)>, from: nat, to: nat)
    requires
        start.bucket.wf(),
        start.bucket.counted <= to,
        from <= to,
        within(asks, start.left.len(), from, to),
    ensures
        ({
            let end = shared(start, asks).bucket;
            let since = if end.counted > from {
                (end.counted - from) as nat
            } else {
                0
            };
            &&& end.counted <= to
            &&& asks.len() > 0 ==> end.counted >= from
            &&& all_charged(start, asks) * BILLION + end.budget <= start.bucket.capacity()
                + start.bucket.rate * since
        }),
    decreases asks.len(),
{
    law_budget_stays_in_the_bucket(start, asks);
    let rate = start.bucket.rate;
    if asks.len() == 0 {
        assert(0 * BILLION == 0);
        assert(rate * (start.bucket.counted - from) >= 0 || start.bucket.counted <= from)
            by (nonlinear_arith);
        assert(rate * 0 == 0) by (nonlinear_arith);
    } else {
        let head = asks.drop_last();
        assert(within(head, start.left.len(), from, to)) by {
            assert(forall|k: int| 0 <= k < head.len() ==> head[k] == asks[k]);
        }
        lemma_rate(start, head, from, to);
        law_budget_stays_in_the_bucket(start, head);
        let before = shared(start, head);
        let (now, i) = asks.last();
        assert(asks[asks.len() - 1] == asks.last());
        let filled = before.bucket.filled(now);
        let end = before.bucket.after(now, before.left[i]);
        let now_charged = before.bucket.charged(now, before.left[i]);
        lemma_after(before.bucket, now, before.left[i]);
        let c = all_charged(start, head);
        assert((c + now_charged) * BILLION == c * BILLION + now_charged * BILLION)
            by (nonlinear_arith);
        assert(end.counted >= from);
        if head.len() == 0 && before.bucket.counted < from {
            assert(c == 0);
            assert(filled.budget <= start.bucket.capacity());
            assert(rate * (end.counted - from) >= 0) by (nonlinear_arith)
                requires
                    end.counted >= from,
            ;
        } else {
            assert(before.bucket.counted >= from);
            if now > before.bucket.counted {
                let flowed = (now - before.bucket.counted) as nat * rate;
                assert(filled.budget <= before.bucket.budget + flowed);
                assert(rate * (now - from) == rate * (before.bucket.counted - from) + flowed)
                    by (nonlinear_arith)
                    requires
                        flowed == (now - before.bucket.counted) * rate,
                ;
            }
        }
    }
}

/// Changing one of some numbers changes their sum by as much.
proof fn lemma_sum_update(s: Seq<nat>, i: int, x: nat)
    requires
        0 <= i < s.len(),
    ensures
        sum(s.update(i, x)) + s[i] == sum(s) + x,
    decreases s.len(),
{
    let t = s.update(i, x);
    if i == s.len() - 1 {
        assert(t.drop_last() =~= s.drop_last());
    } else {
        assert(t.drop_last() =~= s.drop_last().update(i, x));
        lemma_sum_update(s.drop_last(), i, x);
    }
}

/// What has been charged is what is no longer left.
proof fn lemma_charged(start: Shared, asks: Seq<(nat, int)>, from: nat, to: nat)
    requires
        start.bucket.wf(),
        within(asks, start.left.len(), from, to),
    ensures
        all_charged(start, asks) + sum(shared(start, asks).left) == sum(start.left),
    decreases asks.len(),
{
    if asks.len() > 0 {
        let head = asks.drop_last();
        assert(within(head, start.left.len(), from, to)) by {
            assert(forall|k: int| 0 <= k < head.len() ==> head[k] == asks[k]);
        }
        lemma_charged(start, head, from, to);
        lemma_left_shrinks(start, head, from, to);
        law_budget_stays_in_the_bucket(start, head);
        let before = shared(start, head);
        let (now, i) = asks.last();
        assert(asks[asks.len() - 1] == asks.last());
        lemma_after(before.bucket, now, before.left[i]);
        lemma_sum_update(
            before.left,
            i,
            (before.left[i] - before.bucket.charged(now, before.left[i])) as nat,
        );
    }
}

/// Pieces of which nothing is left were charged in full.
proof fn lemma_passed(sizes: Seq<nat>, left: Seq<nat>)
    requires
        sizes.len() == left.len(),
        forall|i: int| 0 <= i < left.len() ==> #[trigger] left[i] <= claimed(sizes[i]),
    ensures
        passed(sizes, left) + sum(left) <= sum(sizes.map_values(|n: nat| claimed(n))),
    decreases sizes.len(),
{
    let whole = sizes.map_values(|n: nat| claimed(n));
    if sizes.len() > 0 {
        let a = sizes.drop_last();
        let b = left.drop_last();
        assert forall|i: int| 0 <= i < b.len() implies #[trigger] b[i] <= claimed(a[i]) by {
            assert(b[i] == left[i]);
        }
        lemma_passed(a, b);
        assert(whole.drop_last() =~= a.map_values(|n: nat| claimed(n)));
        assert(left[left.len() - 1] <= claimed(sizes[sizes.len() - 1]));
    }
}

/// No more of a piece is left than before.
proof fn lemma_left_shrinks(start: Shared, asks: Seq<(nat, int)>, from: nat, to: nat)
    requires
        start.bucket.wf(),
        within(asks, start.left.len(), from, to),
    ensures
        shared(start, asks).left.len() == start.left.len(),
        forall|i: int|
            0 <= i < start.left.len() ==> #[trigger] shared(start, asks).left[i] <= start.left[i],
    decreases asks.len(),
{
    if asks.len() > 0 {
        let head = asks.drop_last();
        assert(within(head, start.left.len(), from, to)) by {
            assert(forall|k: int| 0 <= k < head.len() ==> head[k] == asks[k]);
        }
        lemma_left_shrinks(start, head, from, to);
        law_budget_stays_in_the_bucket(start, head);
        let before = shared(start, head);
        assert forall|i: int| 0 <= i < start.left.len() implies #[trigger] shared(
            start,
            asks,
        ).left[i] <= start.left[i] by {
            assert(before.left[i] <= start.left[i]);
        }
    }
}

/// However many transfers share the limiter, and in whatever order they ask: of
/// the pieces of the given sizes of which nothing has been charged at one time, the
/// bytes of those that have passed at another time are no more than the rate
/// allows in between, and one second of it.
pub proof fn law_passed_bytes_are_capped(
    bucket: Bucket,
    sizes: Seq<nat>,
    asks: Seq<(nat, int)>,
    from: nat,
    to: nat,
)
    requires
        bucket.wf(),
        bucket.counted <= to,
        from <= to,
        within(asks, sizes.len(), from, to),
    ensures
        ({
            let start = Shared { bucket, left: sizes.map_values(|n: nat| claimed(n)) };
            passed(sizes, shared(start, asks).left) * BILLION <= bucket.capacity() + bucket.rate * (
            to - from)
        }),
{
    let start = Shared { bucket, left: sizes.map_values(|n: nat| claimed(n)) };
    let end = shared(start, asks);
    law_rate_is_capped(start, asks, from, to);
    lemma_charged(start, asks, from, to);
    lemma_left_shrinks(start, asks, from, to);
    assert forall|i: int| 0 <= i < end.left.len() implies #[trigger] end.left[i] <= claimed(
        sizes[i],
    ) by {
        assert(start.left[i] == claimed(sizes[i]));
    }
    lemma_passed(sizes, end.left);
    let p = passed(sizes, end.left);
    let c = all_charged(start, asks);
    assert(p * BILLION <= c * BILLION) by (nonlinear_arith)
        requires
            p <= c,
    ;
}

/// A piece is charged with its bytes, and an empty piece with one.
pub proof fn law_pieces_are_charged_with_their_bytes(bytes: nat)
    ensures
        bytes > 0 ==> claimed(bytes) == bytes,
        claimed(0) == 1,
{
}

} // verus!
