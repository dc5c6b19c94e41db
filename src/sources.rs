//! Which replay sources exist, how they are shared out among the analysis
//! workers, which files of a replay directory are read, and when the main
//! thread stops waiting for the workers.
use vstd::prelude::*;

verus! {

/// The sources of one log, all in one encoding: self-describing frames, or
/// legacy frames that are fixed up in place.
#[derive(Debug)]
pub enum ReplaySource<R, A> {
    Rkyv(Vec<R>),
    Abomonation(Vec<A>),
}

impl<R, A> ReplaySource<R, A> {
    pub open spec fn spec_len(&self) -> nat {
        match self {
            ReplaySource::Rkyv(v) => v@.len(),
            ReplaySource::Abomonation(v) => v@.len(),
        }
    }

    /// The number of sources.
    pub fn len(&self) -> (r: usize)
        ensures
            r == self.spec_len(),
    {
        match self {
            ReplaySource::Rkyv(v) => v.len(),
            ReplaySource::Abomonation(v) => v.len(),
        }
    }

    /// Whether there is no source.
    pub fn is_empty(&self) -> (r: bool)
        ensures
            r == (self.spec_len() == 0),
    {
        self.len() == 0
    }

    /// The name of the encoding.
    pub fn kind(&self) -> (r: &'static str)
        ensures
            self is Rkyv ==> r@ == "Rkyv"@,
            self is Abomonation ==> r@ == "Abomonation"@,
    {
        match self {
            ReplaySource::Rkyv(_) => "Rkyv",
            ReplaySource::Abomonation(_) => "Abomonation",
        }
    }

    /// Whether the sources use the legacy encoding.
    pub fn is_abomonation(&self) -> (r: bool)
        ensures
            r == (self is Abomonation),
    {
        match self {
            ReplaySource::Rkyv(_) => false,
            ReplaySource::Abomonation(_) => true,
        }
    }
}

/// The items of `s` whose index is `worker` modulo `workers`, in order.
pub open spec fn round_robin<T>(s: Seq<T>, workers: nat, worker: nat) -> Seq<T>
    decreases s.len(),
{
    if s.len() == 0 {
        seq![]
    } else if ((s.len() - 1) as nat) % workers == worker {
        round_robin(s.drop_last(), workers, worker).push(s.last())
    } else {
        round_robin(s.drop_last(), workers, worker)
    }
}

/// Shares `items` out among `workers` buckets: item `i` goes to bucket
/// `i % workers`, and each bucket keeps the items' order.
pub fn distribute<T>(items: Vec<T>, workers: usize) -> (r: Vec<Vec<T>>)
    requires
        workers > 0,
    ensures
        r@.len() == workers,
        forall|w: int|
            0 <= w < workers ==> (#[trigger] r@[w])@ == round_robin(items@, workers as nat, w as nat),
{
    let ghost s = items@;
    let mut buckets: Vec<Vec<T>> = Vec::new();
    let mut w: usize = 0;
    while w < workers
        invariant
            w <= workers,
            buckets@.len() == w,
            forall|k: int| 0 <= k < w ==> (#[trigger] buckets@[k])@ == Seq::<T>::empty(),
        decreases workers - w,
    {
        buckets.push(Vec::new());
        w += 1;
    }
    assert(s.take(0) =~= Seq::<T>::empty());
    let total = items.len();
    let mut items = items;
    let mut idx: usize = 0;
    while idx < total
        invariant
            idx + items@.len() == s.len(),
            total == s.len(),
            items@ == s.subrange(idx as int, s.len() as int),
            buckets@.len() == workers,
            workers > 0,
            forall|k: int|
                0 <= k < workers ==> (#[trigger] buckets@[k])@ == round_robin(
                    s.take(idx as int),
                    workers as nat,
                    k as nat,
                ),
        decreases items@.len(),
    {
        let item = items.remove(0);
        let target = idx % workers;
        let ghost t = s.take(idx + 1);
        assert(t.drop_last() =~= s.take(idx as int));
        assert(t.last() == item);
        let ghost before = buckets@;
        buckets[target].push(item);
        idx += 1;
        assert(items@ =~= s.subrange(idx as int, s.len() as int));
        assert forall|k: int| 0 <= k < workers implies (#[trigger] buckets@[k])@ == round_robin(
            s.take(idx as int),
            workers as nat,
            k as nat,
        ) by {
            if k != target {
                assert(buckets@[k] == before[k]);
            }
        }
    }
    assert(s.take(s.len() as int) =~= s);
    buckets
}

fn wrap_rkyv<R, A>(buckets: Vec<Vec<R>>) -> (r: Vec<ReplaySource<R, A>>)
    ensures
        r@.len() == buckets@.len(),
        forall|w: int|
            0 <= w < r@.len() ==> match #[trigger] r@[w] {
                ReplaySource::Rkyv(mine) => mine@ == buckets@[w]@,
                _ => false,
            },
{
    let ghost snapshot = buckets@;
    let mut buckets = buckets;
    let mut out: Vec<ReplaySource<R, A>> = Vec::new();
    while buckets.len() > 0
        invariant
            out@.len() + buckets@.len() == snapshot.len(),
            buckets@ == snapshot.subrange(out@.len() as int, snapshot.len() as int),
            forall|w: int|
                0 <= w < out@.len() ==> match #[trigger] out@[w] {
                    ReplaySource::Rkyv(mine) => mine@ == snapshot[w]@,
                    _ => false,
                },
        decreases buckets@.len(),
    {
        let ghost k = out@.len();
        let bucket = buckets.remove(0);
        assert(bucket == snapshot[k as int]);
        out.push(ReplaySource::Rkyv(bucket));
        assert(buckets@ =~= snapshot.subrange(out@.len() as int, snapshot.len() as int));
    }
    out
}

fn wrap_abomonation<R, A>(buckets: Vec<Vec<A>>) -> (r: Vec<ReplaySource<R, A>>)
    ensures
        r@.len() == buckets@.len(),
        forall|w: int|
            0 <= w < r@.len() ==> match #[trigger] r@[w] {
                ReplaySource::Abomonation(mine) => mine@ == buckets@[w]@,
                _ => false,
            },
{
    let ghost snapshot = buckets@;
    let mut buckets = buckets;
    let mut out: Vec<ReplaySource<R, A>> = Vec::new();
    while buckets.len() > 0
        invariant
            out@.len() + buckets@.len() == snapshot.len(),
            buckets@ == snapshot.subrange(out@.len() as int, snapshot.len() as int),
            forall|w: int|
                0 <= w < out@.len() ==> match #[trigger] out@[w] {
                    ReplaySource::Abomonation(mine) => mine@ == snapshot[w]@,
                    _ => false,
                },
        decreases buckets@.len(),
    {
        let ghost k = out@.len();
        let bucket = buckets.remove(0);
        assert(bucket == snapshot[k as int]);
        out.push(ReplaySource::Abomonation(bucket));
        assert(buckets@ =~= snapshot.subrange(out@.len() as int, snapshot.len() as int));
    }
    out
}

/// Shares the sources of one log out among `num_workers` workers,
/// round-robin, keeping their encoding: one set of sources per worker.
pub fn make_streams<R, A>(num_workers: usize, sources: ReplaySource<R, A>) -> (r: Vec<
    ReplaySource<R, A>,
>)
    requires
        num_workers > 0,
    ensures
        r@.len() == num_workers,
        forall|w: int|
            0 <= w < num_workers ==> match (sources, #[trigger] r@[w]) {
                (ReplaySource::Rkyv(all), ReplaySource::Rkyv(mine)) => mine@ == round_robin(
                    all@,
                    num_workers as nat,
                    w as nat,
                ),
                (ReplaySource::Abomonation(all), ReplaySource::Abomonation(mine)) => mine@
                    == round_robin(all@, num_workers as nat, w as nat),
                _ => false,
            },
{
    match sources {
        ReplaySource::Rkyv(all) => wrap_rkyv(distribute(all, num_workers)),
        ReplaySource::Abomonation(all) => wrap_abomonation(distribute(all, num_workers)),
    }
}

/// The index of the first `.` in `name` at or after `from`, or its length.
pub open spec fn first_dot(name: Seq<u8>, from: int) -> int
    decreases name.len() - from,
{
    if from < 0 || from >= name.len() {
        name.len() as int
    } else if name[from] == 46u8 {
        from
    } else {
        first_dot(name, from + 1)
    }
}

/// The index of the last `.` in `name` before `before`, or -1.
pub open spec fn last_dot(name: Seq<u8>, before: int) -> int
    decreases before,
{
    if before <= 0 || before > name.len() {
        -1
    } else if name[before - 1] == 46u8 {
        before - 1
    } else {
        last_dot(name, before - 1)
    }
}

/// What a file name has in front of its first `.`.
pub open spec fn stem(name: Seq<u8>) -> Seq<u8> {
    name.subrange(0, first_dot(name, 0))
}

/// What a file name has after its last `.`, where that `.` is not its
/// first byte.
pub open spec fn extension(name: Seq<u8>) -> Option<Seq<u8>> {
    let d = last_dot(name, name.len() as int);
    if d <= 0 {
        None
    } else {
        Some(name.subrange(d + 1, name.len() as int))
    }
}

/// The extension of replay files, `ddshow`.
pub open spec fn replay_extension() -> Seq<u8> {
    seq![100u8, 100u8, 115u8, 104u8, 111u8, 119u8]
}

/// A directory entry is read as a replay file of a log when it is a file,
/// its extension is `ddshow` and its name up to the first `.` is the log's
/// prefix.
pub open spec fn is_replay_file_spec(name: Seq<u8>, prefix: Seq<u8>, is_file: bool) -> bool {
    is_file && extension(name) == Some(replay_extension()) && stem(name) == prefix
}

fn find_first_dot(name: &[u8]) -> (r: usize)
    ensures
        r as int == first_dot(name@, 0),
{
    let mut i: usize = 0;
    while i < name.len()
        invariant
            i <= name@.len(),
            first_dot(name@, 0) == first_dot(name@, i as int),
        decreases name@.len() - i,
    {
        if name[i] == 46u8 {
            return i;
        }
        i += 1;
    }
    i
}

fn find_last_dot(name: &[u8]) -> (r: Option<usize>)
    ensures
        match r {
            Some(d) => d as int == last_dot(name@, name@.len() as int) && d < name@.len(),
            None => last_dot(name@, name@.len() as int) == -1,
        },
{
    let mut i: usize = name.len();
    while i > 0
        invariant
            i <= name@.len(),
            last_dot(name@, name@.len() as int) == last_dot(name@, i as int),
        decreases i,
    {
        if name[i - 1] == 46u8 {
            return Some(i - 1);
        }
        i -= 1;
    }
    None
}

fn bytes_equal(a: &[u8], from: usize, to: usize, b: &[u8]) -> (r: bool)
    requires
        from <= to <= a@.len(),
    ensures
        r == (a@.subrange(from as int, to as int) == b@),
{
    if to - from != b.len() {
        return false;
    }
    let mut i: usize = 0;
    while i < b.len()
        invariant
            i <= b@.len(),
            to - from == b@.len(),
            from <= to <= a@.len(),
            forall|j: int| 0 <= j < i ==> a@[from + j] == b@[j],
        decreases b@.len() - i,
    {
        if a[from + i] != b[i] {
            assert(a@.subrange(from as int, to as int)[i as int] != b@[i as int]);
            return false;
        }
        i += 1;
    }
    assert(a@.subrange(from as int, to as int) =~= b@);
    true
}

/// Whether a directory entry named `name` (its bytes) is a replay file of
/// the log whose files start with `prefix`.
pub fn is_replay_file(name: &[u8], prefix: &[u8], is_file: bool) -> (r: bool)
    ensures
        r == is_replay_file_spec(name@, prefix@, is_file),
{
    if !is_file {
        return false;
    }
    let ext: [u8; 6] = [100u8, 100u8, 115u8, 104u8, 111u8, 119u8];
    assert(ext@ =~= replay_extension());
    let length = name.len();
    let extension_matches = match find_last_dot(name) {
        Some(d) => d > 0 && bytes_equal(name, d + 1, length, ext.as_slice()),
        None => false,
    };
    if !extension_matches {
        return false;
    }
    let first = find_first_dot(name);
    assert(first_dot(name@, 0) <= name@.len()) by {
        lemma_first_dot_bound(name@, 0);
    }
    bytes_equal(name, 0, first, prefix)
}

proof fn lemma_first_dot_bound(name: Seq<u8>, from: int)
    ensures
        0 <= first_dot(name, from) <= name.len(),
        from >= 0 ==> from <= first_dot(name, from) || first_dot(name, from) == name.len(),
    decreases name.len() - from,
{
    if from >= 0 && from < name.len() && name[from] != 46u8 {
        lemma_first_dot_bound(name, from + 1);
    }
}

/// Why the main thread stops waiting.
#[derive(Clone, Copy, Debug, PartialEq, Eq, Structural)]
pub enum WaitDecision {
    /// Every worker has finished its computation.
    AllFinished,
    /// The replay was shut down, by a failed source or otherwise.
    Stopped,
    /// The user asked to finish.
    UserRequest,
    /// Keep waiting, and drain some of the output meanwhile.
    Extract,
}

/// One turn of the main thread's wait: in this order, all workers having
/// finished, the replay no longer running, and the user's request each end
/// the wait; otherwise output is drained and the wait goes on.
pub fn wait_step(workers_finished: usize, num_workers: usize, running: bool, user_input: bool) -> (r:
    WaitDecision)
    ensures
        r == (if workers_finished == num_workers {
            WaitDecision::AllFinished
        } else if !running {
            WaitDecision::Stopped
        } else if user_input {
            WaitDecision::UserRequest
        } else {
            WaitDecision::Extract
        }),
{
    if workers_finished == num_workers {
        WaitDecision::AllFinished
    } else if !running {
        WaitDecision::Stopped
    } else if user_input {
        WaitDecision::UserRequest
    } else {
        WaitDecision::Extract
    }
}

} // verus!
