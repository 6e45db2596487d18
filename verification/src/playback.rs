//! Preview playback: the states of the playback worker, coalesced seeking,
//! and how the audio preview buffer stays bounded.
use std::collections::VecDeque;
use vstd::prelude::*;

verus! {

/// State of the playback worker as reported to the user interface.
#[derive(Debug, Clone, Copy, PartialEq, Eq, Structural)]
pub enum PlaybackState {
    Idle,
    Playing,
    Paused,
    Seeking,
}

/// Capacity of the audio preview buffer: one second of interleaved samples.
pub open spec fn monitor_capacity(sample_rate: u32, channels: u16) -> int {
    sample_rate * channels
}

/// The last `n` elements of `s` (all of `s` when it is shorter).
pub open spec fn keep_last<T>(s: Seq<T>, n: int) -> Seq<T> {
    if s.len() <= n {
        s
    } else {
        s.subrange(s.len() - n, s.len() as int)
    }
}

/// Append `samples` to `queue`, then drop the oldest elements so that at
/// most `capacity` stay queued; the newest are always kept.
pub fn push_bounded<T: Copy>(queue: &mut VecDeque<T>, samples: &[T], capacity: usize)
    requires
        old(queue)@.len() + samples@.len() <= usize::MAX,
    ensures
        final(queue)@ == keep_last(old(queue)@ + samples@, capacity as int),
{
    let ghost q0 = queue@;
    let qlen = queue.len();
    let n = samples.len();
    let total = qlen + n;
    let excess = if total > capacity {
        total - capacity
    } else {
        0
    };
    let drop = if excess < qlen {
        excess
    } else {
        qlen
    };
    let skip = excess - drop;
    let mut i: usize = 0;
    while i < drop
        invariant
            drop <= qlen,
            qlen == q0.len(),
            i <= drop,
            queue@ == q0.subrange(i as int, qlen as int),
        decreases drop - i,
    {
        let _ = queue.pop_front();
        i = i + 1;
    }
    let mut j: usize = skip;
    while j < n
        invariant
            skip <= n,
            skip <= j <= n,
            n == samples@.len(),
            drop <= qlen,
            qlen == q0.len(),
            queue@ == q0.subrange(drop as int, qlen as int) + samples@.subrange(skip as int, j as int),
        decreases n - j,
    {
        queue.push_back(samples[j]);
        proof {
            assert(samples@.subrange(skip as int, j + 1) =~= samples@.subrange(skip as int, j as int).push(
                samples@[j as int],
            ));
        }
        j = j + 1;
    }
    proof {
        let all = q0 + samples@;
        if total <= capacity {
            assert(queue@ =~= all);
        } else if excess < qlen {
            assert(queue@ =~= all.subrange(all.len() - capacity, all.len() as int));
        } else {
            assert(queue@ =~= all.subrange(all.len() - capacity, all.len() as int));
        }
    }
}

/// Append interleaved preview samples to the audio preview buffer, keeping
/// at most one second (`sample_rate * channels` samples): the oldest are
/// dropped first.
pub fn push_preview_samples<T: Copy>(
    queue: &mut VecDeque<T>,
    samples: &[T],
    sample_rate: u32,
    channels: u16,
)
    requires
        old(queue)@.len() + samples@.len() <= usize::MAX,
    ensures
        final(queue)@ == keep_last(old(queue)@ + samples@, monitor_capacity(sample_rate, channels)),
{
    proof {
        assert((sample_rate as u64) * (channels as u64) <= 0xffff_ffffu64 * 0xffffu64)
            by (nonlinear_arith)
            requires
                sample_rate <= 0xffff_ffffu32,
                channels <= 0xffffu16,
        ;
    }
    let product: u64 = (sample_rate as u64) * (channels as u64);
    let capacity: usize = if product > usize::MAX as u64 {
        usize::MAX
    } else {
        product as usize
    };
    push_bounded(queue, samples, capacity);
    proof {
        let all = old(queue)@ + samples@;
        if product > usize::MAX as u64 {
            assert(all.len() <= capacity);
            assert(keep_last(all, capacity as int) == all);
            assert(keep_last(all, monitor_capacity(sample_rate, channels)) == all);
        }
    }
}

/// Number of seeks at the front of `pending` (a seek is `Some(target)`,
/// any other command `None`).
pub open spec fn leading_seeks<T>(pending: Seq<Option<T>>) -> nat
    decreases pending.len(),
{
    if pending.len() == 0 {
        0
    } else if pending[0] is Some {
        1 + leading_seeks(pending.drop_first())
    } else {
        0
    }
}

/// Coalesced seeking: a seek to `target` followed in the command queue by
/// `pending` becomes one seek to the target of the last seek in the run of
/// seeks that follows it. Returns that target and how many queued commands
/// the run takes; the first other command stays queued.
pub fn coalesce_seeks<T: Copy>(target: T, pending: &[Option<T>]) -> (r: (T, usize))
    ensures
        r.1 == leading_seeks(pending@),
        r.0 == (if r.1 == 0 {
            target
        } else {
            pending@[r.1 - 1]->Some_0
        }),
{
    let mut last = target;
    let mut k: usize = 0;
    while k < pending.len() && pending[k].is_some()
        invariant
            k <= pending@.len(),
            forall|j: int| 0 <= j < k ==> (#[trigger] pending@[j]) is Some,
            last == (if k == 0 {
                target
            } else {
                pending@[k - 1]->Some_0
            }),
        decreases pending@.len() - k,
    {
        match pending[k] {
            Some(t) => {
                last = t;
            },
            None => {},
        }
        k = k + 1;
    }
    proof {
        lemma_leading_seeks(pending@, k as int);
    }
    (last, k)
}

proof fn lemma_leading_seeks<T>(pending: Seq<Option<T>>, k: int)
    requires
        0 <= k <= pending.len(),
        forall|j: int| 0 <= j < k ==> (#[trigger] pending[j]) is Some,
        k == pending.len() || pending[k] is None,
    ensures
        leading_seeks(pending) == k,
    decreases k,
{
    if k > 0 {
        let d = pending.drop_first();
        assert forall|j: int| 0 <= j < k - 1 implies (#[trigger] d[j]) is Some by {
            assert(d[j] == pending[j + 1]);
        }
        if k - 1 < d.len() {
            assert(d[k - 1] == pending[k]);
        }
        lemma_leading_seeks(d, k - 1);
    }
}

} // verus!
