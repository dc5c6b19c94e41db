//! A table from `(worker, operator)` to a start time, for spans that hold at
//! most one open entry per operator.
use vstd::prelude::*;

verus! {

/// One entry of a [`SlotTable`].
#[derive(Clone, Copy, Debug, PartialEq, Eq, Structural)]
pub struct Slot {
    pub worker: usize,
    pub operator: usize,
    pub time: u64,
}

/// The map that a sequence of entries describes: a later entry of a key
/// replaces an earlier one.
pub open spec fn slots_map(s: Seq<Slot>) -> Map<(usize, usize), u64>
    decreases s.len(),
{
    if s.len() == 0 {
        Map::empty()
    } else {
        slots_map(s.drop_last()).insert((s.last().worker, s.last().operator), s.last().time)
    }
}

/// The entries of every key but `key`.
pub open spec fn without_key(s: Seq<Slot>, key: (usize, usize)) -> Seq<Slot>
    decreases s.len(),
{
    if s.len() == 0 {
        seq![]
    } else if (s.last().worker, s.last().operator) == key {
        without_key(s.drop_last(), key)
    } else {
        without_key(s.drop_last(), key).push(s.last())
    }
}

pub proof fn lemma_without_key(s: Seq<Slot>, key: (usize, usize))
    ensures
        slots_map(without_key(s, key)) == slots_map(s).remove(key),
    decreases s.len(),
{
    if s.len() > 0 {
        lemma_without_key(s.drop_last(), key);
        let w = without_key(s.drop_last(), key);
        if (s.last().worker, s.last().operator) != key {
            assert(w.push(s.last()).drop_last() =~= w);
        }
        assert(slots_map(without_key(s, key)) =~= slots_map(s).remove(key));
    }
}

/// Start times keyed by worker and operator.
pub struct SlotTable {
    pub slots: Vec<Slot>,
}

impl View for SlotTable {
    type V = Map<(usize, usize), u64>;

    open spec fn view(&self) -> Map<(usize, usize), u64> {
        slots_map(self.slots@)
    }
}

impl SlotTable {
    /// An empty table.
    pub fn new() -> (r: SlotTable)
        ensures
            r@ == Map::<(usize, usize), u64>::empty(),
    {
        SlotTable { slots: Vec::new() }
    }

    /// Removes the entry of `(worker, operator)` and returns its time.
    pub fn take(&mut self, worker: usize, operator: usize) -> (r: Option<u64>)
        ensures
            final(self)@ == old(self)@.remove((worker, operator)),
            r == (if old(self)@.contains_key((worker, operator)) {
                Some(old(self)@[(worker, operator)])
            } else {
                None
            }),
    {
        let ghost s = self.slots@;
        let ghost key = (worker, operator);
        let mut kept: Vec<Slot> = Vec::new();
        let mut found: Option<u64> = None;
        let mut i: usize = 0;
        while i < self.slots.len()
            invariant
                i <= s.len(),
                s == self.slots@,
                key == (worker, operator),
                kept@ == without_key(s.take(i as int), key),
                found == (if slots_map(s.take(i as int)).contains_key(key) {
                    Some(slots_map(s.take(i as int))[key])
                } else {
                    None
                }),
            decreases s.len() - i,
        {
            let slot = self.slots[i];
            assert(s.take(i + 1).drop_last() =~= s.take(i as int));
            assert(s.take(i + 1).last() == slot);
            let ghost t = s.take(i + 1);
            if slot.worker == worker && slot.operator == operator {
                assert((t.last().worker, t.last().operator) == key);
                found = Some(slot.time);
            } else {
                assert((t.last().worker, t.last().operator) != key);
                kept.push(slot);
            }
            assert(without_key(t, key) == (if (t.last().worker, t.last().operator) == key {
                without_key(t.drop_last(), key)
            } else {
                without_key(t.drop_last(), key).push(t.last())
            }));
            i += 1;
        }
        assert(s.take(s.len() as int) =~= s);
        proof {
            lemma_without_key(s, key);
        }
        self.slots = kept;
        found
    }

    /// Sets the entry of `(worker, operator)` to `time`.
    pub fn insert(&mut self, worker: usize, operator: usize, time: u64)
        ensures
            final(self)@ == old(self)@.insert((worker, operator), time),
    {
        let _previous = self.take(worker, operator);
        let ghost taken = self.slots@;
        self.slots.push(Slot { worker, operator, time });
        assert(self.slots@.drop_last() =~= taken);
        assert(self@ =~= old(self)@.insert((worker, operator), time));
    }
}

} // verus!
