//! Sliding-window rate limiting: a request is admitted when fewer than
//! `max` admitted requests lie within the window before it.
use vstd::prelude::*;
use crate::backends::elapsed;

verus! {

/// The hits of a window that are still inside it at `now`.
pub open spec fn recent(hits: Seq<u64>, now: u64, window_ms: u64) -> Seq<u64> {
    hits.filter(|t: u64| elapsed(t, now) < window_ms)
}

/// Sliding-window rate limit: forgets hits older than the window, then
/// admits the request (recording `now`) if fewer than `max` remain.
pub fn rate_hit(slot: &mut Vec<u64>, now: u64, max: usize, window_ms: u64) -> (r: bool)
    ensures
        r == (recent(old(slot)@, now, window_ms).len() < max),
        final(slot)@ == if r {
            recent(old(slot)@, now, window_ms).push(now)
        } else {
            recent(old(slot)@, now, window_ms)
        },
{
    let ghost before = slot@;
    let ghost pred = |t: u64| elapsed(t, now) < window_ms;
    let mut kept: Vec<u64> = Vec::new();
    let mut i: usize = 0;
    while i < slot.len()
        invariant
            slot@ == before,
            i <= before.len(),
            pred == (|t: u64| elapsed(t, now) < window_ms),
            kept@ == before.take(i as int).filter(pred),
        decreases before.len() - i,
    {
        proof {
            reveal(Seq::filter);
            assert(before.take(i + 1).drop_last() =~= before.take(i as int));
        }
        let t = slot[i];
        let age = if now >= t {
            now - t
        } else {
            0
        };
        if age < window_ms {
            kept.push(t);
        }
        i = i + 1;
    }
    proof {
        assert(before.take(before.len() as int) =~= before);
    }
    let allowed = kept.len() < max;
    if allowed {
        kept.push(now);
    }
    *slot = kept;
    allowed
}

/// The hits the limiter holds after the requests at `times`, in order,
/// starting from none.
pub open spec fn held_after(times: Seq<u64>, max: nat, window_ms: u64) -> Seq<u64>
    decreases times.len(),
{
    if times.len() == 0 {
        seq![]
    } else {
        let r = recent(held_after(times.drop_last(), max, window_ms), times.last(), window_ms);
        if r.len() < max {
            r.push(times.last())
        } else {
            r
        }
    }
}

/// Whether the `i`-th of the requests at `times` is admitted.
pub open spec fn admitted(times: Seq<u64>, max: nat, window_ms: u64, i: int) -> bool {
    recent(held_after(times.take(i), max, window_ms), times[i], window_ms).len() < max
}

/// How many of the first `k` requests were admitted and lie within the
/// window before `now`.
pub open spec fn admitted_within(times: Seq<u64>, max: nat, window_ms: u64, k: int, now: u64) -> nat
    decreases k,
{
    if k <= 0 {
        0
    } else {
        admitted_within(times, max, window_ms, k - 1, now) + if admitted(
            times,
            max,
            window_ms,
            k - 1,
        ) && elapsed(times[k - 1], now) < window_ms {
            1nat
        } else {
            0nat
        }
    }
}

pub open spec fn nondecreasing(times: Seq<u64>) -> bool {
    forall|i: int, j: int| 0 <= i <= j < times.len() ==> times[i] <= times[j]
}

proof fn lemma_recent_bounded(s: Seq<u64>, now: u64, window_ms: u64, bound: u64)
    requires
        forall|k: int| 0 <= k < s.len() ==> s[k] <= bound,
    ensures
        forall|k: int|
            0 <= k < recent(s, now, window_ms).len() ==> recent(s, now, window_ms)[k] <= bound,
    decreases s.len(),
{
    reveal(Seq::filter);
    if s.len() > 0 {
        let p = s.drop_last();
        lemma_recent_bounded(p, now, window_ms, bound);
        let r = recent(s, now, window_ms);
        let rp = recent(p, now, window_ms);
        assert forall|k: int| 0 <= k < r.len() implies r[k] <= bound by {
            if k < rp.len() {
                assert(r[k] == rp[k]);
            }
        }
    }
}

proof fn lemma_recent_twice(s: Seq<u64>, t: u64, later: u64, window_ms: u64)
    requires
        t <= later,
        forall|k: int| 0 <= k < s.len() ==> s[k] <= t,
    ensures
        recent(recent(s, t, window_ms), later, window_ms) == recent(s, later, window_ms),
    decreases s.len(),
{
    reveal(Seq::filter);
    if s.len() > 0 {
        let p = s.drop_last();
        lemma_recent_twice(p, t, later, window_ms);
        let x = s.last();
        if elapsed(x, t) < window_ms {
            recent(p, t, window_ms).lemma_filter_push(x, |u: u64| elapsed(u, later) < window_ms);
        }
    }
}

proof fn lemma_held(times: Seq<u64>, max: nat, window_ms: u64, k: int, now: u64)
    requires
        nondecreasing(times),
        0 <= k <= times.len(),
        k > 0 ==> times[k - 1] <= now,
    ensures
        held_after(times.take(k), max, window_ms).len() <= max,
        forall|j: int|
            0 <= j < held_after(times.take(k), max, window_ms).len() ==> held_after(
                times.take(k),
                max,
                window_ms,
            )[j] <= now,
        recent(held_after(times.take(k), max, window_ms), now, window_ms).len()
            == admitted_within(times, max, window_ms, k, now),
    decreases k,
{
    reveal(Seq::filter);
    if k > 0 {
        let kp = k - 1;
        let t = times[kp];
        assert(times.take(k).drop_last() =~= times.take(kp));
        let h = held_after(times.take(kp), max, window_ms);
        let r = recent(h, t, window_ms);
        lemma_held(times, max, window_ms, kp, t);
        lemma_held(times, max, window_ms, kp, now);
        lemma_recent_bounded(h, t, window_ms, t);
        lemma_recent_twice(h, t, now, window_ms);
        r.lemma_filter_len(|u: u64| elapsed(u, t) < window_ms);
        h.lemma_filter_len(|u: u64| elapsed(u, t) < window_ms);
        if r.len() < max {
            r.lemma_filter_len_push(|u: u64| elapsed(u, now) < window_ms, t);
        }
    }
}

/// Sliding window: of requests that arrive in time order, one is admitted
/// exactly when fewer than `max` admitted requests lie within the window
/// before it, so that no window ever holds more than `max` admitted
/// requests.
pub proof fn law_rate_limit_window(times: Seq<u64>, max: nat, window_ms: u64, i: int)
    requires
        nondecreasing(times),
        window_ms > 0,
        0 <= i < times.len(),
    ensures
        admitted(times, max, window_ms, i) <==> admitted_within(times, max, window_ms, i, times[i])
            < max,
        admitted_within(times, max, window_ms, i + 1, times[i]) <= max,
{
    lemma_held(times, max, window_ms, i, times[i]);
    lemma_held(times, max, window_ms, i + 1, times[i]);
    let h = held_after(times.take(i + 1), max, window_ms);
    h.lemma_filter_len(|u: u64| elapsed(u, times[i]) < window_ms);
}

/// The limiter's hits after one more request are what `rate_hit` leaves
/// from its hits before it: the state after a run of calls of `rate_hit`,
/// from none, is `held_after` the run.
pub proof fn law_limiter_step(times: Seq<u64>, max: nat, window_ms: u64, i: int)
    requires
        0 <= i < times.len(),
    ensures
        held_after(times.take(i + 1), max, window_ms) == if admitted(times, max, window_ms, i) {
            recent(held_after(times.take(i), max, window_ms), times[i], window_ms).push(times[i])
        } else {
            recent(held_after(times.take(i), max, window_ms), times[i], window_ms)
        },
{
    assert(times.take(i + 1).drop_last() =~= times.take(i));
}

proof fn lemma_recent_keeps_all(s: Seq<u64>, now: u64, window_ms: u64)
    requires
        forall|k: int| 0 <= k < s.len() ==> elapsed(s[k], now) < window_ms,
    ensures
        recent(s, now, window_ms) == s,
    decreases s.len(),
{
    reveal(Seq::filter);
    if s.len() > 0 {
        lemma_recent_keeps_all(s.drop_last(), now, window_ms);
        assert(s.drop_last().push(s.last()) =~= s);
    }
}

proof fn lemma_burst_held(times: Seq<u64>, max: nat, window_ms: u64, k: int)
    requires
        nondecreasing(times),
        times.len() > 0,
        forall|j: int| 0 <= j < times.len() ==> elapsed(times[0], #[trigger] times[j]) < window_ms,
        0 <= k <= times.len(),
    ensures
        held_after(times.take(k), max, window_ms) == times.take(if k <= max { k } else { max as int }),
    decreases k,
{
    if k > 0 {
        let kp = k - 1;
        lemma_burst_held(times, max, window_ms, kp);
        let m = if kp <= max { kp } else { max as int };
        let h = times.take(m);
        let t = times[kp];
        assert(times.take(k).drop_last() =~= times.take(kp));
        assert forall|j: int| 0 <= j < h.len() implies elapsed(h[j], t) < window_ms by {
            assert(h[j] == times[j]);
            assert(times[0] <= times[j] <= t);
            assert(elapsed(times[0], t) < window_ms);
        }
        lemma_recent_keeps_all(h, t, window_ms);
        if m < max {
            assert(h.push(t) =~= times.take(k));
        }
    }
}

/// A burst: when every request comes within the window of the first, the
/// first `max` are admitted and every later one is refused.
pub proof fn law_burst_first_max_pass(times: Seq<u64>, max: nat, window_ms: u64, i: int)
    requires
        nondecreasing(times),
        forall|j: int| 0 <= j < times.len() ==> elapsed(times[0], #[trigger] times[j]) < window_ms,
        0 <= i < times.len(),
    ensures
        admitted(times, max, window_ms, i) <==> i < max,
{
    lemma_burst_held(times, max, window_ms, i);
    let m = if i <= max { i } else { max as int };
    let h = times.take(m);
    assert forall|j: int| 0 <= j < h.len() implies elapsed(h[j], times[i]) < window_ms by {
        assert(h[j] == times[j]);
        assert(times[0] <= times[j] <= times[i]);
        assert(elapsed(times[0], times[i]) < window_ms);
    }
    lemma_recent_keeps_all(h, times[i], window_ms);
}

} // verus!
