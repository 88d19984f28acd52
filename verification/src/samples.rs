//! CPU tick counts remembered from one sample of the process table to the next.

use vstd::prelude::*;

use std::collections::HashMap;

verus! {

broadcast use vstd::std_specs::hash::group_hash_axioms;

/// Which counter a tick count belongs to.
#[derive(Clone, Copy, PartialEq, Eq, Structural)]
pub enum SampleKey {
    Process(u32),
    Thread(u32, u32),
}

/// The map key of the counter of thread `tid` of process `pid`.
pub open spec fn thread_slot(pid: u32, tid: u32) -> int {
    pid as int * 0x1_0000_0000 + tid as int
}

proof fn lemma_thread_slot_injective(p1: u32, t1: u32, p2: u32, t2: u32)
    requires
        thread_slot(p1, t1) == thread_slot(p2, t2),
    ensures
        p1 == p2 && t1 == t2,
{
    assert(p1 == p2 && t1 == t2) by (nonlinear_arith)
        requires
            p1 as int * 0x1_0000_0000 + t1 as int == p2 as int * 0x1_0000_0000 + t2 as int,
            0 <= t1 < 0x1_0000_0000,
            0 <= t2 < 0x1_0000_0000,
            0 <= p1,
            0 <= p2,
    ;
}

fn thread_slot_of(pid: u32, tid: u32) -> (k: u64)
    ensures
        k == thread_slot(pid, tid),
{
    assert(pid as int * 0x1_0000_0000 + tid as int <= u64::MAX) by (nonlinear_arith)
        requires
            pid <= u32::MAX,
            tid <= u32::MAX,
    ;
    pid as u64 * 0x1_0000_0000 + tid as u64
}

/// The tick count of each counter at one sample.
pub struct TickSamples {
    processes: HashMap<u32, u64>,
    threads: HashMap<u64, u64>,
}

impl View for TickSamples {
    type V = Map<SampleKey, u64>;

    closed spec fn view(&self) -> Map<SampleKey, u64> {
        Map::new(
            |k: SampleKey|
                match k {
                    SampleKey::Process(pid) => self.processes@.contains_key(pid),
                    SampleKey::Thread(pid, tid) => self.threads@.contains_key(
                        thread_slot(pid, tid) as u64,
                    ),
                },
            |k: SampleKey|
                match k {
                    SampleKey::Process(pid) => self.processes@[pid],
                    SampleKey::Thread(pid, tid) => self.threads@[thread_slot(pid, tid) as u64],
                },
        )
    }
}

impl TickSamples {
    /// No counters.
    pub fn new() -> (s: TickSamples)
        ensures
            s@ == Map::<SampleKey, u64>::empty(),
    {
        let s = TickSamples { processes: HashMap::new(), threads: HashMap::new() };
        assert(s@ =~= Map::<SampleKey, u64>::empty());
        s
    }

    /// Remembers `ticks` for `key`, replacing any earlier count.
    pub fn record(&mut self, key: SampleKey, ticks: u64)
        ensures
            final(self)@ == old(self)@.insert(key, ticks),
    {
        match key {
            SampleKey::Process(pid) => {
                self.processes.insert(pid, ticks);
            },
            SampleKey::Thread(pid, tid) => {
                let slot = thread_slot_of(pid, tid);
                self.threads.insert(slot, ticks);
                proof {
                    assert forall|p: u32, t: u32|
                        thread_slot(p, t) as u64 == slot implies p == pid && t == tid by {
                        assert(thread_slot(p, t) <= u64::MAX) by (nonlinear_arith)
                            requires
                                p <= u32::MAX,
                                t <= u32::MAX,
                        ;
                        lemma_thread_slot_injective(p, t, pid, tid);
                    }
                }
            },
        }
        assert(self@ =~= old(self)@.insert(key, ticks));
    }

    /// The count remembered for `key`.
    pub fn get(&self, key: SampleKey) -> (r: Option<u64>)
        ensures
            r == if self@.contains_key(key) {
                Some(self@[key])
            } else {
                None
            },
    {
        match key {
            SampleKey::Process(pid) => match self.processes.get(&pid) {
                Some(v) => Some(*v),
                None => None,
            },
            SampleKey::Thread(pid, tid) => match self.threads.get(&thread_slot_of(pid, tid)) {
                Some(v) => Some(*v),
                None => None,
            },
        }
    }
}

} // verus!
