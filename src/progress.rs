//! Sums the per-channel message counts of the progress log.
use vstd::prelude::*;
use crate::addr::same_addr;

verus! {

/// Messages that one operator sent and received on one channel, as logged
/// by one progress event.
#[derive(Clone, Debug)]
pub struct ProgressEvent {
    pub addr: Vec<usize>,
    pub channel: usize,
    pub sent: u64,
    pub received: u64,
}

/// The totals of one `(address, channel)` pair.
#[derive(Clone, Debug)]
pub struct ChannelProgress {
    pub addr: Vec<usize>,
    pub channel: usize,
    pub sent: u128,
    pub received: u128,
}

pub open spec fn key_of(e: ProgressEvent) -> (Seq<usize>, usize) {
    (e.addr@, e.channel)
}

/// The distinct `(address, channel)` pairs of the events, in the order in
/// which each first appears.
pub open spec fn keys_of(evs: Seq<ProgressEvent>) -> Seq<(Seq<usize>, usize)>
    decreases evs.len(),
{
    if evs.len() == 0 {
        seq![]
    } else if keys_of(evs.drop_last()).contains(key_of(evs.last())) {
        keys_of(evs.drop_last())
    } else {
        keys_of(evs.drop_last()).push(key_of(evs.last()))
    }
}

/// The messages sent on `key` over all events.
pub open spec fn sent_on(evs: Seq<ProgressEvent>, key: (Seq<usize>, usize)) -> int
    decreases evs.len(),
{
    if evs.len() == 0 {
        0
    } else {
        sent_on(evs.drop_last(), key) + if key_of(evs.last()) == key {
            evs.last().sent as int
        } else {
            0
        }
    }
}

/// The messages received on `key` over all events.
pub open spec fn received_on(evs: Seq<ProgressEvent>, key: (Seq<usize>, usize)) -> int
    decreases evs.len(),
{
    if evs.len() == 0 {
        0
    } else {
        received_on(evs.drop_last(), key) + if key_of(evs.last()) == key {
            evs.last().received as int
        } else {
            0
        }
    }
}

proof fn lemma_totals_bounded(evs: Seq<ProgressEvent>, key: (Seq<usize>, usize))
    ensures
        0 <= sent_on(evs, key) <= evs.len() * u64::MAX,
        0 <= received_on(evs, key) <= evs.len() * u64::MAX,
    decreases evs.len(),
{
    if evs.len() > 0 {
        lemma_totals_bounded(evs.drop_last(), key);
        let n = evs.len() - 1;
        assert((n + 1) * u64::MAX == n * u64::MAX + u64::MAX) by (nonlinear_arith);
    }
}

/// The model of the totals: one entry per key, in order of first
/// appearance, holding the key's sums.
pub open spec fn totals_match(out: Seq<ChannelProgress>, evs: Seq<ProgressEvent>) -> bool {
    &&& out.len() == keys_of(evs).len()
    &&& forall|k: int|
        0 <= k < out.len() ==> {
            &&& (#[trigger] out[k]).addr@ == keys_of(evs)[k].0
            &&& out[k].channel == keys_of(evs)[k].1
            &&& out[k].sent as int == sent_on(evs, keys_of(evs)[k])
            &&& out[k].received as int == received_on(evs, keys_of(evs)[k])
        }
}

proof fn lemma_sums_of_absent(evs: Seq<ProgressEvent>, key: (Seq<usize>, usize))
    requires
        !keys_of(evs).contains(key),
    ensures
        sent_on(evs, key) == 0,
        received_on(evs, key) == 0,
    decreases evs.len(),
{
    if evs.len() > 0 {
        let prev = keys_of(evs.drop_last());
        if !prev.contains(key_of(evs.last())) {
            assert(keys_of(evs)[keys_of(evs).len() - 1] == key_of(evs.last()));
        }
        assert(!prev.contains(key)) by {
            if prev.contains(key) {
                let j = choose|j: int| 0 <= j < prev.len() && prev[j] == key;
                assert(keys_of(evs)[j] == key);
            }
        }
        lemma_sums_of_absent(evs.drop_last(), key);
    }
}

/// Sums the messages sent and received per `(address, channel)` pair.
pub fn aggregate_channel_messages(events: &Vec<ProgressEvent>) -> (r: Vec<ChannelProgress>)
    ensures
        totals_match(r@, events@),
{
    let ghost s = events@;
    let mut out: Vec<ChannelProgress> = Vec::new();
    let mut i: usize = 0;
    while i < events.len()
        invariant
            i <= s.len(),
            s == events@,
            totals_match(out@, s.take(i as int)),
        decreases s.len() - i,
    {
        let e = &events[i];
        let ghost prev = s.take(i as int);
        let ghost t = s.take(i + 1);
        assert(t.drop_last() =~= prev);
        assert(t.last() == *e);
        proof {
            assert forall|k: int| 0 <= k < out@.len() implies sent_on(prev, keys_of(prev)[k])
                <= i * u64::MAX && received_on(prev, keys_of(prev)[k]) <= i * u64::MAX by {
                lemma_totals_bounded(prev, keys_of(prev)[k]);
            }
            assert(i * u64::MAX + u64::MAX <= u128::MAX) by (nonlinear_arith)
                requires
                    i < usize::MAX,
            ;
        }
        let mut j: usize = 0;
        let mut found = false;
        while j < out.len() && !found
            invariant
                j <= out@.len(),
                !found ==> forall|k: int| 0 <= k < j ==> (#[trigger] out@[k]).addr@ != e.addr@
                    || out@[k].channel != e.channel,
                found ==> j > 0 && out@[j - 1].addr@ == e.addr@ && out@[j - 1].channel
                    == e.channel,
            decreases out@.len() - j, if found {
                0int
            } else {
                1int
            },
        {
            if out[j].channel == e.channel && same_addr(&out[j].addr, &e.addr) {
                found = true;
            }
            j += 1;
        }
        let ghost before = out@;
        if found {
            let at = j - 1;
            assert(keys_of(prev)[at as int] == key_of(*e));
            assert(keys_of(prev).contains(key_of(*e)));
            assert(keys_of(t) == keys_of(prev));
            let sent = out[at].sent + e.sent as u128;
            let received = out[at].received + e.received as u128;
            let addr = out[at].addr.clone();
            assert(addr@ =~= before[at as int].addr@);
            out.set(at, ChannelProgress { addr, channel: e.channel, sent, received });
            assert forall|k: int| 0 <= k < out@.len() implies {
                &&& (#[trigger] out@[k]).addr@ == keys_of(t)[k].0
                &&& out@[k].channel == keys_of(t)[k].1
                &&& out@[k].sent as int == sent_on(t, keys_of(t)[k])
                &&& out@[k].received as int == received_on(t, keys_of(t)[k])
            } by {
                if k != at {
                    assert(out@[k] == before[k]);
                    assert(keys_of(prev)[k] != keys_of(prev)[at as int]) by {
                        lemma_keys_distinct(prev);
                    }
                }
            }
        } else {
            assert(!keys_of(prev).contains(key_of(*e))) by {
                if keys_of(prev).contains(key_of(*e)) {
                    let k = choose|k: int| 0 <= k < keys_of(prev).len() && keys_of(prev)[k] == key_of(*e);
                    assert(out@[k].addr@ == e.addr@ && out@[k].channel == e.channel);
                }
            }
            proof {
                lemma_sums_of_absent(prev, key_of(*e));
            }
            let addr = e.addr.clone();
            assert(addr@ =~= e.addr@);
            out.push(
                ChannelProgress {
                    addr,
                    channel: e.channel,
                    sent: e.sent as u128,
                    received: e.received as u128,
                },
            );
            assert forall|k: int| 0 <= k < out@.len() implies {
                &&& (#[trigger] out@[k]).addr@ == keys_of(t)[k].0
                &&& out@[k].channel == keys_of(t)[k].1
                &&& out@[k].sent as int == sent_on(t, keys_of(t)[k])
                &&& out@[k].received as int == received_on(t, keys_of(t)[k])
            } by {
                if k < before.len() {
                    assert(out@[k] == before[k]);
                    assert(keys_of(prev)[k] != key_of(*e));
                }
            }
        }
        i += 1;
    }
    assert(s.take(s.len() as int) =~= s);
    out
}

proof fn lemma_keys_distinct(evs: Seq<ProgressEvent>)
    ensures
        forall|a: int, b: int|
            0 <= a < b < keys_of(evs).len() ==> #[trigger] keys_of(evs)[a] != #[trigger] keys_of(
                evs,
            )[b],
    decreases evs.len(),
{
    if evs.len() > 0 {
        lemma_keys_distinct(evs.drop_last());
        let prev = keys_of(evs.drop_last());
        if !prev.contains(key_of(evs.last())) {
            assert forall|a: int, b: int|
                0 <= a < b < keys_of(evs).len() implies #[trigger] keys_of(evs)[a]
                != #[trigger] keys_of(evs)[b] by {
                if b == prev.len() {
                    assert(keys_of(evs)[a] == prev[a]);
                } else {
                    assert(keys_of(evs)[a] == prev[a]);
                    assert(keys_of(evs)[b] == prev[b]);
                }
            }
        }
    }
}

} // verus!
