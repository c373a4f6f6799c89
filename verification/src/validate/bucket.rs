//! The token bucket behind the rate limits.
use vstd::prelude::*;

verus! {

/// Minimal token bucket with checked arithmetic. Refill is driven by the
/// caller's clock so the validator stays pure.
#[derive(Debug)]
pub struct TokenBucket {
    /// Tokens available now.
    pub tokens: u32,
    /// Ceiling for `tokens`.
    pub capacity: u32,
    /// Tokens added per second of caller time.
    pub refill_per_s: u32,
    /// Caller time up to which refill has been credited.
    pub last_refill_ms: u64,
}

impl Default for TokenBucket {
    fn default() -> (r: Self)
        ensures
            r.tokens == 60,
            r.capacity == 60,
            r.refill_per_s == 60,
            r.last_refill_ms == 0,
    {
        Self { tokens: 60, capacity: 60, refill_per_s: 60, last_refill_ms: 0 }
    }
}

impl Clone for TokenBucket {
    fn clone(&self) -> (r: Self)
        ensures
            r == *self,
    {
        Self {
            tokens: self.tokens,
            capacity: self.capacity,
            refill_per_s: self.refill_per_s,
            last_refill_ms: self.last_refill_ms,
        }
    }
}

pub open spec fn min_of(a: int, b: int) -> int {
    if a <= b {
        a
    } else {
        b
    }
}

/// Division rounded up.
pub open spec fn ceil_div(a: int, d: int) -> int {
    (a + d - 1) / d
}

impl TokenBucket {
    /// Within the ceiling.
    pub open spec fn wf(self) -> bool {
        self.tokens <= self.capacity
    }

    /// Caller time not credited yet.
    pub open spec fn elapsed(self, now_ms: u64) -> int {
        if now_ms > self.last_refill_ms {
            now_ms - self.last_refill_ms
        } else {
            0
        }
    }

    /// How many tokens are due from time zero up to the time credited. Up to a
    /// thousand per second the last of them may be a fraction of a millisecond
    /// early.
    pub open spec fn due(self) -> int {
        if self.refill_per_s <= 1000 {
            ceil_div(self.last_refill_ms * self.refill_per_s, 1000)
        } else {
            self.last_refill_ms * self.refill_per_s / 1000
        }
    }

    /// Whole tokens that the time not credited yet is worth. Up to a thousand
    /// per second the product stops at the largest `u64`; over a thousand, where
    /// every millisecond brings tokens, what is left of one counts for the next.
    pub open spec fn earned(self, now_ms: u64) -> int {
        if self.refill_per_s <= 1000 {
            min_of(self.elapsed(now_ms) * self.refill_per_s, u64::MAX as int) / 1000
        } else if now_ms > self.last_refill_ms {
            now_ms * self.refill_per_s / 1000 - self.due()
        } else {
            0
        }
    }

    /// The time up to which refill is credited once it is in: exactly the time
    /// those tokens took, so fractions carry. Up to a thousand per second that
    /// is when as many tokens are due as have come in, to the millisecond.
    pub open spec fn credited_to(self, now_ms: u64) -> int {
        if self.refill_per_s <= 1000 {
            min_of(
                now_ms as int,
                (self.due() + self.earned(now_ms)) * 1000 / self.refill_per_s as int,
            )
        } else {
            now_ms as int
        }
    }

    /// The bucket with that refill in it.
    pub open spec fn refilled(self, now_ms: u64) -> TokenBucket {
        let earned = self.earned(now_ms);
        if earned == 0 {
            self
        } else {
            TokenBucket {
                tokens: min_of(self.tokens + earned, self.capacity as int) as u32,
                last_refill_ms: self.credited_to(now_ms) as u64,
                ..self
            }
        }
    }

    /// Whether there is a token to take.
    pub open spec fn grants(self, now_ms: u64) -> bool {
        self.refilled(now_ms).tokens > 0
    }

    /// The bucket after a try to take one token.
    pub open spec fn taken(self, now_ms: u64) -> TokenBucket {
        let full = self.refilled(now_ms);
        if full.tokens > 0 {
            TokenBucket { tokens: (full.tokens - 1) as u32, ..full }
        } else {
            full
        }
    }

    /// Credit refill for elapsed time, then try to take one token.
    pub fn take(&mut self, now_ms: u64) -> (r: bool)
        ensures
            r == old(self).grants(now_ms),
            *final(self) == old(self).taken(now_ms),
    {
        proof {
            lemma_credit(*self, now_ms);
        }
        let earned: u128 = self.earned_by(now_ms);
        if earned > 0 {
            let refill: u32 = if earned > u32::MAX as u128 {
                u32::MAX
            } else {
                earned as u32
            };
            let sum: u32 = self.tokens.saturating_add(refill);
            // Credit exactly the time those tokens took, so fractions carry.
            let to: u64 = self.credit(earned, now_ms);
            self.tokens =
            if sum < self.capacity {
                sum
            } else {
                self.capacity
            };
            self.last_refill_ms = to;
        }
        match self.tokens.checked_sub(1) {
            Some(t) => {
                self.tokens = t;
                true
            },
            None => false,
        }
    }
}

impl TokenBucket {
    fn earned_by(&self, now_ms: u64) -> (r: u128)
        ensures
            r == self.earned(now_ms),
    {
        proof {
            lemma_credit(*self, now_ms);
            lemma_product(self.last_refill_ms, self.refill_per_s);
            lemma_product(now_ms, self.refill_per_s);
        }
        if self.refill_per_s <= 1000 {
            let elapsed_ms: u64 = now_ms.saturating_sub(self.last_refill_ms);
            let product: u64 = match elapsed_ms.checked_mul(self.refill_per_s as u64) {
                Some(p) => p,
                None => u64::MAX,
            };
            (product / 1000) as u128
        } else if now_ms > self.last_refill_ms {
            let per_s: u128 = self.refill_per_s as u128;
            now_ms as u128 * per_s / 1000 - self.last_refill_ms as u128 * per_s / 1000
        } else {
            0
        }
    }

    fn credit(&self, earned: u128, now_ms: u64) -> (r: u64)
        requires
            earned == self.earned(now_ms),
            earned > 0,
        ensures
            r == self.credited_to(now_ms),
    {
        proof {
            lemma_credit(*self, now_ms);
            lemma_product(self.last_refill_ms, self.refill_per_s);
        }
        if self.refill_per_s <= 1000 {
            let per_s: u128 = self.refill_per_s as u128;
            let due: u128 = (self.last_refill_ms as u128 * per_s + 999) / 1000;
            let target: u128 = (due + earned) * 1000 / per_s;
            if target < now_ms as u128 {
                target as u64
            } else {
                now_ms
            }
        } else {
            now_ms
        }
    }
}

proof fn lemma_product(ms: u64, rate: u32)
    ensures
        0 <= ms * rate <= u64::MAX * u32::MAX,
{
    assert(0 <= ms * rate <= u64::MAX * u32::MAX) by (nonlinear_arith)
        requires
            0 <= ms <= u64::MAX,
            0 <= rate <= u32::MAX,
    ;
}

/// Up to a thousand tokens per second: the time credited is between the two
/// clocks, and as many tokens are due by it as were due before and came in.
proof fn lemma_grid(last: int, now: int, rate: int, earned: int)
    requires
        0 < rate <= 1000,
        0 <= last < now,
        0 < earned,
        earned * 1000 <= (now - last) * rate,
    ensures
        ({
            let due = ceil_div(last * rate, 1000);
            let target = (due + earned) * 1000 / rate;
            let to = min_of(now, target);
            &&& 0 <= due
            &&& last <= to <= now
            &&& ceil_div(to * rate, 1000) == due + earned
            &&& (due + earned) * 1000 <= now * rate + 999
        }),
{
    let p = last * rate;
    let y = now * rate;
    let due = ceil_div(p, 1000);
    let n = due + earned;
    let q = n * 1000 / rate;
    assert(p >= 0) by (nonlinear_arith)
        requires
            p == last * rate,
            last >= 0,
            rate > 0,
    ;
    assert((now - last) * rate == y - p) by (nonlinear_arith)
        requires
            p == last * rate,
            y == now * rate,
    ;
    assert(p <= due * 1000 <= p + 999);
    let x = q * rate;
    assert(x <= n * 1000 < x + rate) by (nonlinear_arith)
        requires
            q == n * 1000 / rate,
            x == q * rate,
            rate > 0,
    ;
    assert(q >= last) by (nonlinear_arith)
        requires
            x == q * rate,
            p == last * rate,
            p + 1000 <= n * 1000,
            n * 1000 < x + rate,
            rate > 0,
    ;
    if q > now {
        assert(x >= y + rate) by (nonlinear_arith)
            requires
                x == q * rate,
                y == now * rate,
                q >= now + 1,
                rate > 0,
        ;
    }
}

/// A refill is credited in full, to a time that has passed.
proof fn lemma_credit(b: TokenBucket, now_ms: u64)
    ensures
        b.earned(now_ms) >= 0,
        b.earned(now_ms) > 0 ==> {
            &&& b.refill_per_s > 0
            &&& now_ms > b.last_refill_ms
            &&& b.last_refill_ms <= b.credited_to(now_ms) <= now_ms
            &&& b.refill_per_s <= 1000 ==> b.earned(now_ms) * 1000 <= u64::MAX
            &&& b.refilled(now_ms).due() == b.due() + b.earned(now_ms)
        },
{
    let elapsed = b.elapsed(now_ms);
    let rate = b.refill_per_s as int;
    let earned = b.earned(now_ms);
    assert(elapsed * rate >= 0) by (nonlinear_arith)
        requires
            elapsed >= 0,
            rate >= 0,
    ;
    if now_ms > b.last_refill_ms {
        let last = b.last_refill_ms as int;
        assert(last * rate <= now_ms * rate) by (nonlinear_arith)
            requires
                last <= now_ms,
                rate >= 0,
        ;
    }
    if earned > 0 && rate <= 1000 {
        assert(rate > 0 && elapsed > 0) by (nonlinear_arith)
            requires
                elapsed * rate > 0,
                elapsed >= 0,
                rate >= 0,
        ;
        lemma_grid(b.last_refill_ms as int, now_ms as int, rate, earned);
    }
}

/// A bucket that is within its ceiling stays within it.
pub proof fn law_bucket_never_exceeds_capacity(b: TokenBucket, now_ms: u64)
    requires
        b.wf(),
    ensures
        b.taken(now_ms).wf(),
        b.taken(now_ms).capacity == b.capacity,
        b.taken(now_ms).refill_per_s == b.refill_per_s,
{
    lemma_credit(b, now_ms);
}

/// The clock that a bucket keeps never runs backwards and never passes the
/// caller's.
pub proof fn law_credit_follows_the_clock(b: TokenBucket, now_ms: u64)
    ensures
        b.taken(now_ms).last_refill_ms >= b.last_refill_ms,
        b.taken(now_ms).last_refill_ms <= b.last_refill_ms || b.taken(now_ms).last_refill_ms
            <= now_ms,
{
    lemma_credit(b, now_ms);
}

/// Fractions carry: the tokens that have come in are those that are due, to
/// within the one that is coming, however often the bucket is asked. (The time
/// since the last refill is to be worth no more than a `u64` holds.)
pub proof fn law_fractions_carry(b: TokenBucket, now_ms: u64)
    requires
        0 < b.refill_per_s,
        b.last_refill_ms <= now_ms,
        (now_ms - b.last_refill_ms) * b.refill_per_s <= u64::MAX,
    ensures
        b.taken(now_ms).due() == b.due() + b.earned(now_ms),
        now_ms * b.refill_per_s / 1000 <= b.taken(now_ms).due() <= ceil_div(
            now_ms * b.refill_per_s,
            1000,
        ),
{
    lemma_credit(b, now_ms);
    let rate = b.refill_per_s as int;
    let last = b.last_refill_ms as int;
    let y = now_ms * rate;
    let p = last * rate;
    assert((now_ms - last) * rate == y - p && y >= p) by (nonlinear_arith)
        requires
            y == now_ms * rate,
            p == last * rate,
            now_ms >= last,
            rate > 0,
    ;
    if now_ms == b.last_refill_ms {
        assert(b.elapsed(now_ms) * rate == 0) by (nonlinear_arith)
            requires
                b.elapsed(now_ms) == 0,
        ;
    }
    if b.earned(now_ms) > 0 && rate <= 1000 {
        lemma_grid(last, now_ms as int, rate, b.earned(now_ms));
    }
    if rate > 1000 && now_ms > last {
        assert(y >= p + 1000) by (nonlinear_arith)
            requires
                y == now_ms * rate,
                p == last * rate,
                now_ms >= last + 1,
                rate > 1000,
        ;
    }
}

/// A second is worth the rate: asked a second after the time credited, a
/// bucket brings in exactly that many tokens.
pub proof fn law_a_second_is_worth_the_rate(b: TokenBucket)
    requires
        b.last_refill_ms + 1000 <= u64::MAX,
    ensures
        b.earned((b.last_refill_ms + 1000) as u64) == b.refill_per_s,
{
    let now_ms = (b.last_refill_ms + 1000) as u64;
    let rate = b.refill_per_s as int;
    let last = b.last_refill_ms as int;
    assert(now_ms * rate == last * rate + 1000 * rate) by (nonlinear_arith)
        requires
            now_ms == last + 1000,
    ;
    assert(b.elapsed(now_ms) * rate == 1000 * rate) by (nonlinear_arith)
        requires
            b.elapsed(now_ms) == 1000,
    ;
}

/// No more tokens come in at once than the time since the last refill is
/// worth; over a thousand per second, what was left of the time before may
/// make it one more.
pub proof fn law_refill_is_worth_its_time(b: TokenBucket, now_ms: u64)
    ensures
        b.refill_per_s <= 1000 ==> b.earned(now_ms) * 1000 <= b.elapsed(now_ms) * b.refill_per_s,
        b.earned(now_ms) * 1000 < b.elapsed(now_ms) * b.refill_per_s + 1000,
{
    let elapsed = b.elapsed(now_ms);
    let rate = b.refill_per_s as int;
    let last = b.last_refill_ms as int;
    assert(elapsed * rate >= 0) by (nonlinear_arith)
        requires
            elapsed >= 0,
            rate >= 0,
    ;
    if now_ms > last {
        assert(elapsed * rate == now_ms * rate - last * rate) by (nonlinear_arith)
            requires
                elapsed == now_ms - last,
        ;
    }
}

/// The bucket after tries at each of `times`, in order.
pub open spec fn after_all(b: TokenBucket, times: Seq<u64>) -> TokenBucket
    decreases times.len(),
{
    if times.len() == 0 {
        b
    } else {
        after_all(b, times.drop_last()).taken(times.last())
    }
}

/// How many of those tries got a token.
pub open spec fn granted(b: TokenBucket, times: Seq<u64>) -> nat
    decreases times.len(),
{
    if times.len() == 0 {
        0
    } else {
        granted(b, times.drop_last()) + if after_all(b, times.drop_last()).grants(times.last()) {
            1nat
        } else {
            0nat
        }
    }
}

/// As many tokens are due as the clock is worth, to within one.
pub proof fn lemma_due_by_the_clock(b: TokenBucket)
    ensures
        b.last_refill_ms * b.refill_per_s - 1000 < 1000 * b.due() < b.last_refill_ms
            * b.refill_per_s + 1000,
        b.refill_per_s <= 1000 ==> b.last_refill_ms * b.refill_per_s <= 1000 * b.due(),
        b.refill_per_s > 1000 ==> 1000 * b.due() <= b.last_refill_ms * b.refill_per_s,
{
}

/// Each token that one try brings in was due.
pub proof fn lemma_tokens_are_due(b: TokenBucket, now_ms: u64)
    requires
        b.wf(),
    ensures
        b.taken(now_ms).tokens + (if b.grants(now_ms) {
            1int
        } else {
            0int
        }) + b.due() <= b.tokens + b.taken(now_ms).due(),
{
    lemma_credit(b, now_ms);
}

/// The rate limit: whatever the times of the tries, as long as none is later
/// than `until`, the tokens granted are at most those in the bucket and what
/// the time since its last refill is worth, or less than one more.
pub proof fn law_rate_is_bounded(b: TokenBucket, times: Seq<u64>, until: u64)
    requires
        b.wf(),
        b.last_refill_ms <= until,
        forall|i: int| 0 <= i < times.len() ==> times[i] <= until,
    ensures
        granted(b, times) * 1000 < b.tokens * 1000 + (until - b.last_refill_ms) * b.refill_per_s
            + 1000,
{
    lemma_run_is_due(b, times, until);
    lemma_bound(b, after_all(b, times), until);
}

/// What becomes due between two states of a bucket, the later one not past
/// `until`, is what the time is worth, or less than a token more.
pub proof fn lemma_bound(b: TokenBucket, after: TokenBucket, until: u64)
    requires
        after.refill_per_s == b.refill_per_s,
        b.last_refill_ms <= until,
        after.last_refill_ms <= until,
    ensures
        (after.due() - b.due()) * 1000 < (until - b.last_refill_ms) * b.refill_per_s + 1000,
{
    lemma_due_by_the_clock(b);
    lemma_due_by_the_clock(after);
    let rate = b.refill_per_s as int;
    let last = b.last_refill_ms as int;
    let end = after.last_refill_ms as int;
    assert(end * rate - last * rate <= (until - last) * rate) by (nonlinear_arith)
        requires
            end <= until,
            rate >= 0,
    ;
}

proof fn lemma_run_is_due(b: TokenBucket, times: Seq<u64>, until: u64)
    requires
        b.wf(),
        b.last_refill_ms <= until,
        forall|i: int| 0 <= i < times.len() ==> times[i] <= until,
    ensures
        after_all(b, times).wf(),
        after_all(b, times).refill_per_s == b.refill_per_s,
        after_all(b, times).last_refill_ms <= until,
        granted(b, times) + after_all(b, times).tokens + b.due() <= b.tokens + after_all(
            b,
            times,
        ).due(),
    decreases times.len(),
{
    if times.len() > 0 {
        let init = times.drop_last();
        lemma_run_is_due(b, init, until);
        let before = after_all(b, init);
        law_bucket_never_exceeds_capacity(before, times.last());
        law_credit_follows_the_clock(before, times.last());
        lemma_tokens_are_due(before, times.last());
    }
}

/// A try takes one token of what is there once the refill is in, up to the
/// ceiling, and fails exactly when that is none; ceiling and rate stay.
pub proof fn law_a_try_takes_one_token(b: TokenBucket, now_ms: u64)
    requires
        b.wf(),
    ensures
        ({
            let sum = b.tokens + b.earned(now_ms);
            let there = if sum <= b.capacity {
                sum
            } else {
                b.capacity as int
            };
            let after = b.taken(now_ms);
            &&& b.grants(now_ms) <==> there > 0
            &&& b.grants(now_ms) ==> after.tokens == there - 1
            &&& !b.grants(now_ms) ==> after.tokens == 0
            &&& after.capacity == b.capacity
            &&& after.refill_per_s == b.refill_per_s
        }),
{
    lemma_credit(b, now_ms);
}

/// What the time since the last refill brings in. Up to a thousand tokens per
/// second it is the elapsed milliseconds times the rate, a thousandth of it,
/// rounded down, the product taken no further than a `u64` goes; over a thousand
/// it is what is due by the one clock less what was due by the other.
pub proof fn law_refill_is_the_rate_times_the_time(b: TokenBucket, now_ms: u64)
    ensures
        now_ms <= b.last_refill_ms ==> b.earned(now_ms) == 0,
        now_ms > b.last_refill_ms && b.refill_per_s <= 1000 ==> {
            let product = (now_ms - b.last_refill_ms) * b.refill_per_s;
            &&& product <= u64::MAX ==> b.earned(now_ms) == product / 1000
            &&& product > u64::MAX ==> b.earned(now_ms) == 0x0041_8937_4bc6_a7ef
        },
        now_ms > b.last_refill_ms && b.refill_per_s > 1000 ==> b.earned(now_ms) == now_ms
            * b.refill_per_s / 1000 - b.last_refill_ms * b.refill_per_s / 1000,
{
    if now_ms <= b.last_refill_ms {
        assert(b.elapsed(now_ms) * b.refill_per_s == 0) by (nonlinear_arith)
            requires
                b.elapsed(now_ms) == 0,
        ;
    }
}

/// The time that a refill uses up is worth less than one token more than it
/// brought in, and a refill of nothing uses up none.
pub proof fn law_a_refill_uses_up_its_time(b: TokenBucket, now_ms: u64)
    ensures
        ({
            let after = b.taken(now_ms);
            let earned = b.earned(now_ms);
            &&& earned == 0 ==> after.last_refill_ms == b.last_refill_ms
            &&& after.last_refill_ms * b.refill_per_s < b.last_refill_ms * b.refill_per_s + (earned
                + 1) * 1000
        }),
{
    lemma_credit(b, now_ms);
    lemma_due_by_the_clock(b);
    lemma_due_by_the_clock(b.refilled(now_ms));
}

} // verus!
