//! In-process token-bucket rate limiting for socket events.
//!
//! Token amounts are held in milli-tokens (one token = 1000 milli-tokens) and
//! time in unix milliseconds, so that the refill arithmetic is exact integer
//! arithmetic: on each consume, `tokens = min(capacity, tokens + elapsed *
//! rate / 1000)`, then the requested amount is taken if available, else the
//! wait until it becomes available is returned.

use vstd::prelude::*;
use vstd::arithmetic::div_mod::{
    lemma_div_is_ordered,
    lemma_div_multiples_vanish,
    lemma_fundamental_div_mod,
    lemma_mod_bound,
};

verus! {

/// One whole token, in milli-tokens.
pub const TOKEN: u64 = 1000;

/// Largest admissible capacity, in milli-tokens.
pub const MAX_CAPACITY: u64 = 1000000000;

/// Largest admissible refill rate, in milli-tokens per second.
pub const MAX_RATE: u64 = 1000000;

/// Largest admissible clock value, in unix milliseconds (far future).
pub const MAX_TIME: u64 = 0x4000000000000;

/// The socket event classes that are rate limited separately.
#[derive(Clone, Copy, Debug, PartialEq, Eq, Structural)]
pub enum EventType {
    Message,
    Typing,
    RoomAction,
}

impl EventType {
    /// Bucket capacity for this event class, in milli-tokens
    /// (10 messages, 5 typing events, 20 room actions of burst).
    pub fn capacity(&self) -> (r: u64)
        ensures
            r == self.spec_capacity(),
    {
        match self {
            EventType::Message => 10000,
            EventType::Typing => 5000,
            EventType::RoomAction => 20000,
        }
    }

    pub open spec fn spec_capacity(self) -> u64 {
        match self {
            EventType::Message => 10000u64,
            EventType::Typing => 5000u64,
            EventType::RoomAction => 20000u64,
        }
    }

    /// Refill rate for this event class, in milli-tokens per second
    /// (1 token/s for messages, 0.5 for typing, 0.33 for room actions).
    pub fn refill_rate(&self) -> (r: u64)
        ensures
            r == self.spec_refill_rate(),
    {
        match self {
            EventType::Message => 1000,
            EventType::Typing => 500,
            EventType::RoomAction => 330,
        }
    }

    pub open spec fn spec_refill_rate(self) -> u64 {
        match self {
            EventType::Message => 1000u64,
            EventType::Typing => 500u64,
            EventType::RoomAction => 330u64,
        }
    }

    /// The wire name of the event class.
    pub fn name(&self) -> (r: &'static str)
        ensures
            self is Message ==> r@ == "message"@,
            self is Typing ==> r@ == "typing"@,
            self is RoomAction ==> r@ == "room_action"@,
    {
        match self {
            EventType::Message => "message",
            EventType::Typing => "typing",
            EventType::RoomAction => "room_action",
        }
    }
}

/// A token bucket: `tokens` milli-tokens available as of `last_refill`.
#[derive(Clone, Copy, Debug)]
pub struct TokenBucket {
    pub tokens: u64,
    pub capacity: u64,
    pub refill_rate: u64,
    pub last_refill: u64,
}

/// The refilled token count after `elapsed` milliseconds.
pub open spec fn spec_refill(tokens: int, capacity: int, rate: int, elapsed: int) -> int {
    let grown = tokens + (elapsed * rate) / 1000;
    if grown > capacity {
        capacity
    } else {
        grown
    }
}

impl TokenBucket {
    /// Well-formed: bounded fields and no more tokens than fit.
    pub open spec fn wf(self) -> bool {
        &&& self.tokens <= self.capacity
        &&& self.capacity <= MAX_CAPACITY
        &&& 1 <= self.refill_rate <= MAX_RATE
        &&& self.last_refill <= MAX_TIME
    }

    /// A full bucket created at time `now`.
    pub fn new(capacity: u64, refill_rate: u64, now: u64) -> (r: TokenBucket)
        requires
            capacity <= MAX_CAPACITY,
            1 <= refill_rate <= MAX_RATE,
            now <= MAX_TIME,
        ensures
            r.wf(),
            r.tokens == capacity,
            r.capacity == capacity,
            r.refill_rate == refill_rate,
            r.last_refill == now,
    {
        TokenBucket { tokens: capacity, capacity, refill_rate, last_refill: now }
    }

    /// Credit the bucket for the time elapsed since the last refill.
    pub fn refill(&mut self, now: u64)
        requires
            old(self).wf(),
            old(self).last_refill <= now <= MAX_TIME,
        ensures
            final(self).wf(),
            final(self).tokens == spec_refill(
                old(self).tokens as int,
                old(self).capacity as int,
                old(self).refill_rate as int,
                now - old(self).last_refill,
            ),
            final(self).capacity == old(self).capacity,
            final(self).refill_rate == old(self).refill_rate,
            final(self).last_refill == now,
    {
        let elapsed: u64 = now - self.last_refill;
        proof {
            assert(elapsed * self.refill_rate <= MAX_TIME * MAX_RATE) by (nonlinear_arith)
                requires
                    elapsed <= MAX_TIME,
                    self.refill_rate <= MAX_RATE,
            ;
            lemma_div_is_ordered(
                elapsed * self.refill_rate,
                MAX_TIME as int * MAX_RATE as int,
                1000,
            );
        }
        let grown: u128 = (elapsed as u128) * (self.refill_rate as u128) / 1000;
        let grown64: u64 = grown as u64;
        if grown64 >= self.capacity - self.tokens {
            self.tokens = self.capacity;
        } else {
            self.tokens = self.tokens + grown64;
        }
        self.last_refill = now;
    }

    /// Refill, then take `amount` milli-tokens if available; otherwise
    /// report how many milliseconds must pass before they would be.
    pub fn try_consume(&mut self, amount: u64, now: u64) -> (r: Result<(), u64>)
        requires
            old(self).wf(),
            old(self).last_refill <= now <= MAX_TIME,
            1 <= amount <= old(self).capacity,
        ensures
            final(self).wf(),
            final(self).capacity == old(self).capacity,
            final(self).refill_rate == old(self).refill_rate,
            final(self).last_refill == now,
            ({
                let refilled = spec_refill(
                    old(self).tokens as int,
                    old(self).capacity as int,
                    old(self).refill_rate as int,
                    now - old(self).last_refill,
                );
                &&& (r is Ok <==> refilled >= amount)
                &&& (r is Ok ==> final(self).tokens == refilled - amount)
                &&& (r is Err ==> final(self).tokens == refilled)
                &&& (r is Err ==> r->Err_0 == (((amount - refilled) * 1000 + old(
                    self,
                ).refill_rate - 1) as int) / (old(self).refill_rate as int))
            }),
    {
        self.refill(now);
        if self.tokens >= amount {
            self.tokens = self.tokens - amount;
            Ok(())
        } else {
            Err(self.time_until_available(amount))
        }
    }

    /// Milliseconds until `amount` milli-tokens will be available,
    /// `ceil((amount - tokens) * 1000 / rate)`; zero if already available.
    pub fn time_until_available(&self, amount: u64) -> (r: u64)
        requires
            self.wf(),
            amount <= self.capacity,
        ensures
            self.tokens >= amount ==> r == 0,
            self.tokens < amount ==> r == (((amount - self.tokens) * 1000 + self.refill_rate
                - 1) as int) / (self.refill_rate as int),
    {
        if self.tokens >= amount {
            0
        } else {
            let needed: u64 = amount - self.tokens;
            (needed * 1000 + (self.refill_rate - 1)) / self.refill_rate
        }
    }
}

/// One bucket of the per-user, per-event limiter.
#[derive(Clone, Copy, Debug)]
pub struct LimiterEntry {
    pub user_id: i64,
    pub event: EventType,
    pub bucket: TokenBucket,
}

/// The first entry for `(u, e)`, scanning from the front.
pub open spec fn find_entry(s: Seq<LimiterEntry>, u: i64, e: EventType) -> Option<LimiterEntry>
    decreases s.len(),
{
    if s.len() == 0 {
        None
    } else if s[0].user_id == u && s[0].event == e {
        Some(s[0])
    } else {
        find_entry(s.drop_first(), u, e)
    }
}

/// In-process limiter: one token bucket per (user, event class).
#[derive(Debug)]
pub struct RateLimiter {
    pub entries: Vec<LimiterEntry>,
}

/// How one rate-limit check relates the limiter before and after: the
/// caller's bucket — full and new on first use — is refilled for the
/// elapsed time, a token is taken exactly when one is available, the
/// refusal reports the wait until one would be, and no other key moves.
pub open spec fn check_result_spec(
    before: RateLimiter,
    after: RateLimiter,
    user_id: i64,
    event: EventType,
    now: u64,
    r: Result<(), u64>,
) -> bool {
    let b0 = match find_entry(before.entries@, user_id, event) {
        Some(en) => en.bucket,
        None => (TokenBucket {
            tokens: event.spec_capacity(),
            capacity: event.spec_capacity(),
            refill_rate: event.spec_refill_rate(),
            last_refill: now,
        }),
    };
    let refilled = spec_refill(
        b0.tokens as int,
        b0.capacity as int,
        b0.refill_rate as int,
        now - b0.last_refill,
    );
    let b1 = find_entry(after.entries@, user_id, event);
    &&& (r is Ok <==> refilled >= TOKEN)
    &&& b1 is Some
    &&& b1->0.bucket.last_refill == now
    &&& b1->0.bucket.capacity == b0.capacity
    &&& b1->0.bucket.refill_rate == b0.refill_rate
    &&& (r is Ok ==> b1->0.bucket.tokens == refilled - TOKEN)
    &&& (r is Err ==> b1->0.bucket.tokens == refilled)
    &&& (r is Err ==> r->Err_0 == ((TOKEN - refilled) * 1000 + b0.refill_rate - 1) / (
    b0.refill_rate as int))
    &&& forall|u2: i64, e2: EventType|
        !(u2 == user_id && e2 == event) ==> #[trigger] find_entry(after.entries@, u2, e2)
            == find_entry(before.entries@, u2, e2)
}

impl RateLimiter {
    /// Well-formed: one bucket per key, each bucket well-formed and sized
    /// by its event class.
    pub open spec fn wf(self) -> bool {
        &&& forall|i: int, j: int|
            0 <= i < j < self.entries@.len() ==> !(self.entries@[i].user_id
                == self.entries@[j].user_id && self.entries@[i].event == self.entries@[j].event)
        &&& forall|i: int|
            0 <= i < self.entries@.len() ==> (#[trigger] self.entries@[i]).bucket.wf()
                && self.entries@[i].bucket.capacity == self.entries@[i].event.spec_capacity()
                && self.entries@[i].bucket.refill_rate == self.entries@[i].event.spec_refill_rate()
    }

    /// No bucket has been refilled later than `t`.
    pub open spec fn fresh_until(self, t: u64) -> bool {
        forall|i: int|
            0 <= i < self.entries@.len() ==> (#[trigger] self.entries@[i]).bucket.last_refill <= t
    }

    pub fn new() -> (r: RateLimiter)
        ensures
            r.wf(),
            r.entries@.len() == 0,
            forall|t: u64| r.fresh_until(t),
    {
        RateLimiter { entries: Vec::new() }
    }

    /// Consume one token from the caller's bucket for this event class,
    /// creating a full bucket on first use; on refusal, report the
    /// milliseconds until a token becomes available.
    pub fn check_rate_limit(&mut self, user_id: i64, event: EventType, now: u64) -> (r: Result<
        (),
        u64,
    >)
        requires
            old(self).wf(),
            old(self).fresh_until(now),
            now <= MAX_TIME,
        ensures
            final(self).wf(),
            final(self).fresh_until(now),
            check_result_spec(*old(self), *final(self), user_id, event, now, r),
    {
        let ghost s0 = self.entries@;
        let mut i: usize = 0;
        let n: usize = self.entries.len();
        while i < n
            invariant
                n == self.entries@.len(),
                0 <= i <= n,
                self.entries@ == s0,
                s0 == old(self).entries@,
                old(self).wf(),
                old(self).fresh_until(now),
                now <= MAX_TIME,
                forall|k: int|
                    0 <= k < i ==> !((#[trigger] s0[k]).user_id == user_id && s0[k].event
                        == event),
            decreases n - i,
        {
            let en = self.entries[i];
            if en.user_id == user_id && en.event == event {
                proof {
                    lemma_find_entry_at(s0, user_id, event, i as int);
                }
                let mut b = en.bucket;
                let r = b.try_consume(TOKEN, now);
                self.entries.set(
                    i,
                    LimiterEntry { user_id, event, bucket: b },
                );
                proof {
                    lemma_find_entry_at(self.entries@, user_id, event, i as int);
                    lemma_find_entry_update_other(s0, self.entries@, i as int, user_id, event);
                }
                return r;
            }
            i = i + 1;
        }
        proof {
            lemma_find_entry_absent(s0, user_id, event);
        }
        let capacity = event.capacity();
        let refill_rate = event.refill_rate();
        let mut b = TokenBucket::new(capacity, refill_rate, now);
        let r = b.try_consume(TOKEN, now);
        self.entries.push(LimiterEntry { user_id, event, bucket: b });
        proof {
            lemma_find_entry_at(self.entries@, user_id, event, s0.len() as int);
            lemma_find_entry_update_other(s0, self.entries@, s0.len() as int, user_id, event);
        }
        r
    }

    /// Drop the buckets of users that are no longer connected.
    pub fn cleanup_old_users(&mut self, active_users: &Vec<i64>)
        requires
            old(self).wf(),
        ensures
            final(self).wf(),
            final(self).entries@ == retained(old(self).entries@, active_users@),
            forall|t: u64| old(self).fresh_until(t) ==> final(self).fresh_until(t),
            forall|en: LimiterEntry|
                #[trigger] final(self).entries@.contains(en) <==> (old(self).entries@.contains(en)
                    && active_users@.contains(en.user_id)),
    {
        let ghost s0 = self.entries@;
        let mut kept: Vec<LimiterEntry> = Vec::new();
        let mut i: usize = 0;
        let n: usize = self.entries.len();
        while i < n
            invariant
                n == self.entries@.len(),
                0 <= i <= n,
                self.entries@ == s0,
                kept@ == retained(s0.subrange(0, i as int), active_users@),
            decreases n - i,
        {
            let en = self.entries[i];
            proof {
                assert(s0.subrange(0, i as int + 1).drop_last() =~= s0.subrange(0, i as int));
                assert(s0.subrange(0, i as int + 1).last() == s0[i as int]);
            }
            if contains_i64(active_users, en.user_id) {
                kept.push(en);
            }
            i = i + 1;
        }
        proof {
            assert(s0.subrange(0, n as int) =~= s0);
            lemma_retained_contains(s0, active_users@);
            lemma_retained_unique(s0, active_users@);
            assert forall|k: int| 0 <= k < kept@.len() implies (#[trigger] kept@[k]).bucket.wf()
                && kept@[k].bucket.capacity == kept@[k].event.spec_capacity()
                && kept@[k].bucket.refill_rate == kept@[k].event.spec_refill_rate() by {
                assert(kept@.contains(kept@[k]));
                let m = choose|m: int| 0 <= m < s0.len() && s0[m] == kept@[k];
                assert(s0[m].bucket.wf());
            }
            assert forall|t: u64| old(self).fresh_until(t) implies (RateLimiter {
                entries: kept,
            }).fresh_until(t) by {
                assert forall|k: int| 0 <= k < kept@.len() implies (#[trigger] kept@[k]).bucket.last_refill
                    <= t by {
                    assert(kept@.contains(kept@[k]));
                    let m = choose|m: int| 0 <= m < s0.len() && s0[m] == kept@[k];
                    assert(s0[m].bucket.last_refill <= t);
                }
            }
        }
        self.entries = kept;
    }
}

/// The subsequence of entries whose user is still in `active`.
pub open spec fn retained(s: Seq<LimiterEntry>, active: Seq<i64>) -> Seq<LimiterEntry>
    decreases s.len(),
{
    if s.len() == 0 {
        Seq::empty()
    } else if active.contains(s.last().user_id) {
        retained(s.drop_last(), active).push(s.last())
    } else {
        retained(s.drop_last(), active)
    }
}

/// Membership in a non-empty sequence splits into the front part and the last element.
proof fn lemma_contains_split(s: Seq<LimiterEntry>)
    requires
        s.len() > 0,
    ensures
        forall|en: LimiterEntry|
            #[trigger] s.contains(en) <==> (s.drop_last().contains(en) || en == s.last()),
{
    assert forall|en: LimiterEntry| #[trigger]
        s.contains(en) <==> (s.drop_last().contains(en) || en == s.last()) by {
        if s.contains(en) {
            let k = choose|k: int| 0 <= k < s.len() && s[k] == en;
            if k < s.len() - 1 {
                assert(s.drop_last()[k] == en);
                assert(s.drop_last().contains(en));
            }
        }
        if s.drop_last().contains(en) {
            let k = choose|k: int| 0 <= k < s.drop_last().len() && s.drop_last()[k] == en;
            assert(s[k] == en);
        }
        if en == s.last() {
            assert(s[s.len() - 1] == en);
        }
    }
}

/// What `retained` keeps: exactly the entries of still-active users.
proof fn lemma_retained_contains(s: Seq<LimiterEntry>, active: Seq<i64>)
    ensures
        forall|en: LimiterEntry|
            #[trigger] retained(s, active).contains(en) <==> (s.contains(en) && active.contains(
                en.user_id,
            )),
    decreases s.len(),
{
    if s.len() == 0 {
    } else {
        lemma_retained_contains(s.drop_last(), active);
        lemma_contains_split(s);
        if active.contains(s.last().user_id) {
            let r = retained(s, active);
            assert(r == retained(s.drop_last(), active).push(s.last()));
            assert(r.drop_last() =~= retained(s.drop_last(), active));
            assert(r.last() == s.last());
            lemma_contains_split(r);
        }
    }
}

/// `retained` keeps the keys pairwise distinct.
proof fn lemma_retained_unique(s: Seq<LimiterEntry>, active: Seq<i64>)
    requires
        forall|i: int, j: int|
            0 <= i < j < s.len() ==> !(s[i].user_id == s[j].user_id && s[i].event == s[j].event),
    ensures
        forall|i: int, j: int|
            0 <= i < j < retained(s, active).len() ==> !(retained(s, active)[i].user_id
                == retained(s, active)[j].user_id && retained(s, active)[i].event == retained(
                s,
                active,
            )[j].event),
    decreases s.len(),
{
    if s.len() > 0 {
        let s1 = s.drop_last();
        assert(forall|i: int, j: int|
            0 <= i < j < s1.len() ==> !(s1[i].user_id == s1[j].user_id && s1[i].event
                == s1[j].event));
        lemma_retained_unique(s1, active);
        lemma_retained_contains(s1, active);
        if active.contains(s.last().user_id) {
            let r0 = retained(s1, active);
            let r = retained(s, active);
            assert(r == r0.push(s.last()));
            assert forall|i: int, j: int|
                0 <= i < j < r.len() implies !(r[i].user_id == r[j].user_id && r[i].event
                == r[j].event) by {
                if j < r.len() - 1 {
                    assert(r[i] == r0[i] && r[j] == r0[j]);
                } else {
                    assert(r[j] == s.last());
                    assert(r[i] == r0[i]);
                    assert(r0.contains(r0[i]));
                    assert(s1.contains(r0[i]));
                    let m = choose|m: int| 0 <= m < s1.len() && s1[m] == r0[i];
                    assert(s[m] == r0[i]);
                    assert(s.last() == s[s.len() - 1]);
                    assert(!(s[m].user_id == s[s.len() - 1].user_id && s[m].event == s[s.len()
                        - 1].event));
                }
            }
        }
    }
}

/// A membership scan over a vector of user ids.
pub fn contains_i64(v: &Vec<i64>, x: i64) -> (r: bool)
    ensures
        r == v@.contains(x),
{
    let mut i: usize = 0;
    let n: usize = v.len();
    while i < n
        invariant
            n == v@.len(),
            0 <= i <= n,
            forall|k: int| 0 <= k < i ==> v@[k] != x,
        decreases n - i,
    {
        if v[i] == x {
            return true;
        }
        i = i + 1;
    }
    false
}

/// If position `i` is the first match for `(u, e)`, the scan finds it.
proof fn lemma_find_entry_at(s: Seq<LimiterEntry>, u: i64, e: EventType, i: int)
    requires
        0 <= i < s.len(),
        s[i].user_id == u,
        s[i].event == e,
        forall|k: int| 0 <= k < i ==> !((#[trigger] s[k]).user_id == u && s[k].event == e),
    ensures
        find_entry(s, u, e) == Some(s[i]),
    decreases s.len(),
{
    if i > 0 {
        lemma_find_entry_at(s.drop_first(), u, e, i - 1);
    }
}

/// If no position matches `(u, e)`, the scan finds nothing.
proof fn lemma_find_entry_absent(s: Seq<LimiterEntry>, u: i64, e: EventType)
    requires
        forall|k: int| 0 <= k < s.len() ==> !((#[trigger] s[k]).user_id == u && s[k].event == e),
    ensures
        find_entry(s, u, e) is None,
    decreases s.len(),
{
    if s.len() > 0 {
        lemma_find_entry_absent(s.drop_first(), u, e);
    }
}

/// Two sequences that agree everywhere but at a position keyed `(u, e)`
/// give the same scan result for every other key.
proof fn lemma_find_entry_update_other(
    s0: Seq<LimiterEntry>,
    s1: Seq<LimiterEntry>,
    i: int,
    u: i64,
    e: EventType,
)
    requires
        0 <= i < s1.len(),
        s0.len() == s1.len() || (s0.len() + 1 == s1.len() && i == s0.len()),
        forall|k: int| 0 <= k < s1.len() && k != i && k < s0.len() ==> s0[k] == s1[k],
        s1[i].user_id == u,
        s1[i].event == e,
        i < s0.len() ==> (s0[i].user_id == u && s0[i].event == e),
    ensures
        forall|u2: i64, e2: EventType|
            !(u2 == u && e2 == e) ==> #[trigger] find_entry(s1, u2, e2) == find_entry(s0, u2, e2),
    decreases s1.len(),
{
    assert forall|u2: i64, e2: EventType| !(u2 == u && e2 == e) implies #[trigger] find_entry(
        s1,
        u2,
        e2,
    ) == find_entry(s0, u2, e2) by {
        lemma_find_entry_agree(s0, s1, i, u2, e2);
    }
}

/// Helper for the update lemma, one key at a time.
proof fn lemma_find_entry_agree(
    s0: Seq<LimiterEntry>,
    s1: Seq<LimiterEntry>,
    i: int,
    u2: i64,
    e2: EventType,
)
    requires
        0 <= i < s1.len(),
        s0.len() == s1.len() || (s0.len() + 1 == s1.len() && i == s0.len()),
        forall|k: int| 0 <= k < s1.len() && k != i && k < s0.len() ==> s0[k] == s1[k],
        !(s1[i].user_id == u2 && s1[i].event == e2),
        i < s0.len() ==> !(s0[i].user_id == u2 && s0[i].event == e2),
    ensures
        find_entry(s1, u2, e2) == find_entry(s0, u2, e2),
    decreases s1.len(),
{
    if s0.len() == 0 {
        lemma_find_entry_absent(s1, u2, e2);
    } else if i == 0 {
        assert(s0.drop_first() =~= s1.drop_first());
    } else {
        assert(s0[0] == s1[0]);
        if !(s0[0].user_id == u2 && s0[0].event == e2) {
            lemma_find_entry_agree(s0.drop_first(), s1.drop_first(), i - 1, u2, e2);
        }
    }
}

/// Waiting out the reported retry time always suffices: once `wait`
/// milliseconds have passed after a refusal, the refill credits at least
/// the missing amount, so the next attempt of the same amount succeeds.
pub proof fn lemma_retry_after_suffices(b: TokenBucket, amount: int, wait: int, now: int)
    requires
        b.wf(),
        1 <= amount <= b.capacity,
        b.tokens < amount,
        wait == ((amount - b.tokens) * 1000 + b.refill_rate - 1) / (b.refill_rate as int),
        b.last_refill + wait <= now <= MAX_TIME,
    ensures
        spec_refill(b.tokens as int, b.capacity as int, b.refill_rate as int, now
            - b.last_refill) >= amount,
{
    let needed = amount - b.tokens;
    let rate = b.refill_rate as int;
    lemma_fundamental_div_mod(needed * 1000 + rate - 1, rate);
    assert(wait * rate >= needed * 1000);
    let elapsed = now - b.last_refill;
    assert(elapsed * rate >= wait * rate) by (nonlinear_arith)
        requires
            elapsed >= wait,
            rate >= 1,
    ;
    lemma_div_is_ordered(needed * 1000, elapsed * rate, 1000);
    assert(needed * 1000 / 1000 == needed);
}

/// The trace model of a bucket: submissions at `times`, each refilling the
/// bucket and then consuming `amount` milli-tokens when available, exactly
/// as `TokenBucket::try_consume` does. Yields final tokens, final refill
/// time, and the number of accepted submissions.
pub open spec fn run_consume(
    tokens: int,
    last: int,
    cap: int,
    rate: int,
    times: Seq<int>,
    amount: int,
) -> (int, int, int)
    decreases times.len(),
{
    if times.len() == 0 {
        (tokens, last, 0)
    } else {
        let t = times[0];
        let refilled = spec_refill(tokens, cap, rate, t - last);
        let after = if refilled >= amount {
            refilled - amount
        } else {
            refilled
        };
        let took: int = if refilled >= amount {
            1
        } else {
            0
        };
        let rest = run_consume(after, t, cap, rate, times.drop_first(), amount);
        (rest.0, rest.1, took + rest.2)
    }
}

/// Flooring division loses tokens, never invents them.
proof fn lemma_div_add_floor(a: int, b: int, d: int)
    requires
        a >= 0,
        b >= 0,
        d > 0,
    ensures
        a / d + b / d <= (a + b) / d,
{
    lemma_fundamental_div_mod(a, d);
    lemma_fundamental_div_mod(b, d);
    lemma_mod_bound(a, d);
    lemma_mod_bound(b, d);
    let qa = a / d;
    let qb = b / d;
    let q = qa + qb;
    assert(d * (qa + qb) == d * qa + d * qb) by (nonlinear_arith);
    assert(d * q <= a + b);
    lemma_div_multiples_vanish(q, d);
    lemma_div_is_ordered(d * q, a + b, d);
}

/// Token-bucket fairness, upper bound: over any nondecreasing run of
/// submissions between `last` and `horizon`, the accepted ones consume at
/// most the starting tokens plus what the bucket can refill in that window.
pub proof fn lemma_token_bucket_fairness(
    tokens: int,
    last: int,
    cap: int,
    rate: int,
    times: Seq<int>,
    amount: int,
    horizon: int,
)
    requires
        0 <= tokens <= cap,
        1 <= rate,
        1 <= amount,
        last <= horizon,
        forall|k: int| 0 <= k < times.len() ==> last <= #[trigger] times[k] <= horizon,
        forall|k: int, j: int| 0 <= k < j < times.len() ==> times[k] <= times[j],
    ensures
        run_consume(tokens, last, cap, rate, times, amount).2 * amount <= tokens + ((horizon
            - last) * rate) / 1000,
    decreases times.len(),
{
    if times.len() == 0 {
        assert((horizon - last) * rate >= 0) by (nonlinear_arith)
            requires
                horizon >= last,
                rate >= 1,
        ;
        lemma_div_is_ordered(0, (horizon - last) * rate, 1000);
    } else {
        let t = times[0];
        let refilled = spec_refill(tokens, cap, rate, t - last);
        let after = if refilled >= amount {
            refilled - amount
        } else {
            refilled
        };
        let tail = times.drop_first();
        assert(forall|k: int| 0 <= k < tail.len() ==> t <= #[trigger] tail[k] <= horizon);
        assert(forall|k: int, j: int| 0 <= k < j < tail.len() ==> tail[k] <= tail[j]);
        assert((t - last) * rate >= 0) by (nonlinear_arith)
            requires
                t >= last,
                rate >= 1,
        ;
        lemma_div_is_ordered(0, (t - last) * rate, 1000);
        assert(0 <= after <= cap);
        lemma_token_bucket_fairness(after, t, cap, rate, tail, amount, horizon);
        let rest = run_consume(after, t, cap, rate, tail, amount);
        let d0 = ((t - last) * rate) / 1000;
        let d1 = ((horizon - t) * rate) / 1000;
        assert((horizon - t) * rate >= 0) by (nonlinear_arith)
            requires
                horizon >= t,
                rate >= 1,
        ;
        lemma_div_add_floor((t - last) * rate, (horizon - t) * rate, 1000);
        assert((t - last) * rate + (horizon - t) * rate == (horizon - last) * rate)
            by (nonlinear_arith);
        assert(refilled <= tokens + d0);
        assert(rest.2 * amount <= after + d1);
        let took: int = if refilled >= amount {
            1
        } else {
            0
        };
        assert((took + rest.2) * amount == took * amount + rest.2 * amount) by (nonlinear_arith);
        assert(d0 + d1 <= ((horizon - last) * rate) / 1000);
        assert(took * amount + after <= tokens + d0);
        assert((took + rest.2) * amount <= tokens + d0 + d1);
        assert(run_consume(tokens, last, cap, rate, times, amount).2 == took + rest.2);
    }
}

/// Fairness of the message bucket: from a full bucket at time zero, at
/// most `10 + T` messages are accepted during the first `T` seconds.
pub proof fn lemma_message_fairness(times: Seq<int>, t_secs: int)
    requires
        t_secs >= 0,
        forall|k: int| 0 <= k < times.len() ==> 0 <= #[trigger] times[k] <= t_secs * 1000,
        forall|k: int, j: int| 0 <= k < j < times.len() ==> times[k] <= times[j],
    ensures
        run_consume(10000, 0, 10000, 1000, times, 1000).2 <= 10 + t_secs,
{
    lemma_token_bucket_fairness(10000, 0, 10000, 1000, times, 1000, t_secs * 1000);
    let acc = run_consume(10000, 0, 10000, 1000, times, 1000).2;
    assert((t_secs * 1000) * 1000 / 1000 == t_secs * 1000) by {
        lemma_div_multiples_vanish(t_secs * 1000, 1000);
        assert(1000 * (t_secs * 1000) == (t_secs * 1000) * 1000) by (nonlinear_arith);
    }
    assert(acc * 1000 <= (10 + t_secs) * 1000) by (nonlinear_arith)
        requires
            acc * 1000 <= 10000 + t_secs * 1000,
    ;
    assert(acc <= 10 + t_secs) by (nonlinear_arith)
        requires
            acc * 1000 <= (10 + t_secs) * 1000,
    ;
}

/// The bucket the check will consult: the user's, or a fresh full one.
pub open spec fn check_bucket(before: RateLimiter, user_id: i64, event: EventType, now: u64) -> TokenBucket {
    match find_entry(before.entries@, user_id, event) {
        Some(en) => en.bucket,
        None => TokenBucket {
            tokens: event.spec_capacity(),
            capacity: event.spec_capacity(),
            refill_rate: event.spec_refill_rate(),
            last_refill: now,
        },
    }
}

/// The deterministic outcome of one rate-limit check.
pub open spec fn check_spec_result(
    before: RateLimiter,
    user_id: i64,
    event: EventType,
    now: u64,
) -> Result<(), u64> {
    let b0 = check_bucket(before, user_id, event, now);
    let refilled = spec_refill(
        b0.tokens as int,
        b0.capacity as int,
        b0.refill_rate as int,
        now - b0.last_refill,
    );
    if refilled >= TOKEN {
        Ok(())
    } else {
        Err((((TOKEN - refilled) * 1000 + b0.refill_rate - 1) / (b0.refill_rate as int)) as u64)
    }
}

/// The check relation determines the result: whatever `check_rate_limit`
/// returned is the reconstructed outcome.
pub proof fn lemma_check_result_deterministic(
    before: RateLimiter,
    after: RateLimiter,
    user_id: i64,
    event: EventType,
    now: u64,
    r: Result<(), u64>,
)
    requires
        before.wf(),
        before.fresh_until(now),
        now <= MAX_TIME,
        check_result_spec(before, after, user_id, event, now, r),
    ensures
        r == check_spec_result(before, user_id, event, now),
{
    let b0 = check_bucket(before, user_id, event, now);
    assert(b0.wf() && b0.last_refill <= now) by {
        match find_entry(before.entries@, user_id, event) {
            Some(en) => {
                lemma_find_entry_in(before.entries@, user_id, event);
                let k = choose|k: int|
                    0 <= k < before.entries@.len() && before.entries@[k] == en;
                assert(before.entries@[k].bucket.wf());
                assert(before.entries@[k].bucket.last_refill <= now);
            },
            None => {},
        }
    }
    let refilled = spec_refill(
        b0.tokens as int,
        b0.capacity as int,
        b0.refill_rate as int,
        now - b0.last_refill,
    );
    if r is Err {
        let w = ((TOKEN - refilled) * 1000 + b0.refill_rate - 1) / (b0.refill_rate as int);
        assert(refilled >= 0) by {
            assert((now - b0.last_refill) * b0.refill_rate >= 0) by (nonlinear_arith)
                requires
                    now >= b0.last_refill,
                    b0.refill_rate >= 1,
            ;
            lemma_div_is_ordered(0, (now - b0.last_refill) * b0.refill_rate, 1000);
        }
        let num = (TOKEN - refilled) * 1000 + b0.refill_rate - 1;
        assert(0 <= w) by {
            lemma_div_is_ordered(0, num, b0.refill_rate as int);
        }
        assert(w <= num) by {
            lemma_fundamental_div_mod(num, b0.refill_rate as int);
            lemma_mod_bound(num, b0.refill_rate as int);
            assert(w * b0.refill_rate <= num);
            assert(w <= w * b0.refill_rate) by (nonlinear_arith)
                requires
                    w >= 0,
                    b0.refill_rate >= 1,
            ;
        }
        assert(num <= 1000 * 1000 + MAX_RATE);
        assert(r->Err_0 == w as u64);
        assert(r == check_spec_result(before, user_id, event, now));
    } else {
        assert(refilled >= TOKEN);
        assert(check_spec_result(before, user_id, event, now) == Ok::<(), u64>(()));
        match r {
            Ok(u) => {
                assert(u == ());
                assert(r == Ok::<(), u64>(u));
            },
            Err(_) => {
                assert(false);
            },
        }
    }
}

/// The entry the scan finds is one of the table's entries.
pub proof fn lemma_find_entry_in(s: Seq<LimiterEntry>, u: i64, e: EventType)
    ensures
        find_entry(s, u, e) matches Some(en) ==> s.contains(en) && en.user_id == u && en.event
            == e,
    decreases s.len(),
{
    if s.len() > 0 {
        assert(s.contains(s[0])) by {
            assert(s[0] == s[0]);
        }
        if !(s[0].user_id == u && s[0].event == e) {
            lemma_find_entry_in(s.drop_first(), u, e);
            match find_entry(s.drop_first(), u, e) {
                Some(en) => {
                    let k = choose|k: int|
                        0 <= k < s.drop_first().len() && s.drop_first()[k] == en;
                    assert(s[k + 1] == en);
                },
                None => {},
            }
        }
    }
}

/// One step of the shared-store HTTP limiter: take the bucket read from
/// the store — or a full fresh one when none was stored — refill it,
/// try to take one token, and hand back the state to write back along
/// with the verdict. Store failures never reach this function: the
/// caller fails open on them.
pub fn http_rate_check(stored: Option<TokenBucket>, capacity: u64, refill_rate: u64, now: u64) -> (out: (
    TokenBucket,
    Result<(), u64>,
))
    requires
        1000 <= capacity <= MAX_CAPACITY,
        1 <= refill_rate <= MAX_RATE,
        now <= MAX_TIME,
        stored matches Some(b) ==> b.wf() && b.last_refill <= now && b.capacity == capacity
            && b.refill_rate == refill_rate,
    ensures
        out.0.wf(),
        out.0.last_refill == now,
        out.0.capacity == capacity,
        out.0.refill_rate == refill_rate,
        ({
            let b0 = match stored {
                Some(b) => b,
                None => (TokenBucket {
                    tokens: capacity,
                    capacity,
                    refill_rate,
                    last_refill: now,
                }),
            };
            let refilled = spec_refill(
                b0.tokens as int,
                b0.capacity as int,
                b0.refill_rate as int,
                now - b0.last_refill,
            );
            &&& (out.1 is Ok <==> refilled >= TOKEN)
            &&& (out.1 is Ok ==> out.0.tokens == refilled - TOKEN)
            &&& (out.1 is Err ==> out.0.tokens == refilled)
            &&& (out.1 matches Err(w) ==> w == ((TOKEN - refilled) * 1000 + refill_rate - 1) / (
            refill_rate as int))
        }),
{
    let mut b = match stored {
        Some(b) => b,
        None => TokenBucket::new(capacity, refill_rate, now),
    };
    let r = b.try_consume(TOKEN, now);
    (b, r)
}

/// The shared-store limiter's verdict for one request, fail-open as the
/// service demands: when the bucket could not be read from the store,
/// the request is allowed and nothing is written back; otherwise the
/// stored bucket — a full fresh one when none was stored — is refilled,
/// one token is taken when available, and the updated state is handed
/// back for the write-back. A failing write-back changes nothing: the
/// verdict was already granted.
pub fn http_rate_verdict(
    stored: Result<Option<TokenBucket>, ()>,
    capacity: u64,
    refill_rate: u64,
    now: u64,
) -> (out: (Option<TokenBucket>, Result<(), u64>))
    requires
        1000 <= capacity <= MAX_CAPACITY,
        1 <= refill_rate <= MAX_RATE,
        now <= MAX_TIME,
        stored matches Ok(s) ==> (s matches Some(b) ==> b.wf() && b.last_refill <= now
            && b.capacity == capacity && b.refill_rate == refill_rate),
    ensures
        stored is Err ==> out.0 is None && out.1 is Ok,
        stored matches Ok(s) ==> ({
            let b0 = match s {
                Some(b) => b,
                None => (TokenBucket { tokens: capacity, capacity, refill_rate, last_refill: now }),
            };
            let refilled = spec_refill(
                b0.tokens as int,
                b0.capacity as int,
                b0.refill_rate as int,
                now - b0.last_refill,
            );
            &&& (out.0 matches Some(b1) && b1.wf() && b1.last_refill == now && b1.capacity
                == capacity && b1.refill_rate == refill_rate)
            &&& (out.1 is Ok <==> refilled >= TOKEN)
            &&& (out.1 is Ok ==> out.0->0.tokens == refilled - TOKEN)
            &&& (out.1 is Err ==> out.0->0.tokens == refilled)
            &&& (out.1 matches Err(w) ==> w == ((TOKEN - refilled) * 1000 + refill_rate - 1) / (
            refill_rate as int))
        }),
{
    match stored {
        Err(_) => (None, Ok(())),
        Ok(s) => {
            let (b, r) = http_rate_check(s, capacity, refill_rate, now);
            (Some(b), r)
        },
    }
}

} // verus!
