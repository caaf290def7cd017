//! The bounded audio sample queue between the emulator and the output
//! stream: interleaved stereo `i16` samples, trimmed from the front in whole
//! frames when a new batch would overfill it.
use vstd::prelude::*;
use std::collections::VecDeque;

verus! {

/// How many queued samples go before `incoming` more are appended: none
/// while the total stays within `cap`; otherwise enough to come down to
/// `target` (never more than what is queued), rounded down to whole stereo
/// frames.
pub open spec fn drop_count(queued: nat, incoming: nat, cap: nat, target: nat) -> nat {
    if queued + incoming > cap {
        let excess: int = if queued + incoming > target { queued + incoming - target } else { 0 };
        let m: int = if excess < queued { excess } else { queued as int };
        (m - m % 2) as nat
    } else {
        0
    }
}

/// The queue after a batch arrives: an empty batch changes nothing; any
/// other is appended after the front `drop_count` samples are dropped.
pub open spec fn queued_after(q: Seq<i16>, batch: Seq<i16>, cap: nat, target: nat) -> Seq<i16> {
    if batch.len() == 0 {
        q
    } else {
        q.skip(drop_count(q.len(), batch.len(), cap, target) as int) + batch
    }
}

/// Append a batch of samples, first dropping the oldest ones in whole frames
/// when the queue would grow past `cap`, down to about `target`.
pub fn queue_capped(buf: &mut VecDeque<i16>, samples: &[i16], cap: usize, target: usize)
    requires
        old(buf)@.len() + samples@.len() <= usize::MAX,
    ensures
        final(buf)@ == queued_after(old(buf)@, samples@, cap as nat, target as nat),
{
    let n = samples.len();
    if n == 0 {
        return;
    }
    let len = buf.len();
    let total = len + n;
    let mut drop: usize = 0;
    if total > cap {
        let excess: usize = if total > target { total - target } else { 0 };
        let m: usize = if excess < len { excess } else { len };
        drop = m - m % 2;
    }
    let ghost q0 = buf@;
    let mut k: usize = 0;
    while k < drop
        invariant
            drop <= q0.len(),
            k <= drop,
            buf@ == q0.skip(k as int),
        decreases drop - k,
    {
        let _ = buf.pop_front();
        proof {
            assert(q0.skip(k + 1) =~= q0.skip(k as int).drop_first());
        }
        k += 1;
    }
    let ghost kept = buf@;
    let mut i: usize = 0;
    while i < n
        invariant
            i <= n,
            n == samples@.len(),
            buf@ == kept + samples@.take(i as int),
        decreases n - i,
    {
        buf.push_back(samples[i]);
        proof {
            assert(samples@.take(i + 1) =~= samples@.take(i as int).push(samples@[i as int]));
        }
        i += 1;
    }
    proof {
        assert(samples@.take(n as int) =~= samples@);
    }
}

/// The queue only ever loses whole stereo frames: a queue of whole frames
/// that receives a batch of whole frames still holds whole frames.
pub proof fn lemma_queue_keeps_whole_frames(q: Seq<i16>, batch: Seq<i16>, cap: nat, target: nat)
    requires
        q.len() % 2 == 0,
        batch.len() % 2 == 0,
    ensures
        queued_after(q, batch, cap, target).len() % 2 == 0,
{
}

/// A batch that overfills a queue of whole frames brings it down to the
/// target: at most `target` samples remain (one more when the cut fell
/// mid-frame), unless the batch alone is larger, in which case only the
/// batch remains.
pub proof fn lemma_overflow_trims_to_target(q: Seq<i16>, batch: Seq<i16>, cap: nat, target: nat)
    requires
        q.len() % 2 == 0,
        batch.len() > 0,
        q.len() + batch.len() > cap,
    ensures
        queued_after(q, batch, cap, target).len() <= target + 1
            || queued_after(q, batch, cap, target) == batch,
{
    let d = drop_count(q.len(), batch.len(), cap, target);
    assert(q.skip(d as int).len() == q.len() - d);
    if d == q.len() {
        assert(q.skip(d as int) =~= Seq::<i16>::empty());
        assert(q.skip(d as int) + batch =~= batch);
    }
}

} // verus!
