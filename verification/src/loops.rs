//! The loop guard: how often one lineage may visit one address.

use vstd::prelude::*;

verus! {

/// The visits that one lineage of the traversal has made.
///
/// The first visit of an address is noted in `forward_addr`; from the second
/// visit on the address has an entry in `loop_tracker` with the number of
/// visits so far.
#[derive(Debug)]
pub struct LoopState {
    max_loops: usize,
    forward_addr: Vec<u64>,
    loop_tracker: Vec<(u64, usize)>,
}

/// The mathematical content of a [`LoopState`].
pub struct LoopModel {
    pub max_loops: usize,
    pub forward: Seq<u64>,
    pub tracker: Seq<(u64, usize)>,
}

/// The tracker has an entry for `addr`.
pub open spec fn tracker_has(tracker: Seq<(u64, usize)>, addr: u64) -> bool {
    exists|i: int| 0 <= i < tracker.len() && (#[trigger] tracker[i]).0 == addr
}

/// Position of the tracker's entry for `addr`, where it has one.
pub open spec fn tracker_slot(tracker: Seq<(u64, usize)>, addr: u64) -> int {
    choose|i: int| 0 <= i < tracker.len() && (#[trigger] tracker[i]).0 == addr
}

impl LoopModel {
    /// The tracker has an entry for `addr`.
    pub open spec fn has_entry(self, addr: u64) -> bool {
        tracker_has(self.tracker, addr)
    }

    /// Position of the tracker's entry for `addr`, where it has one.
    pub open spec fn slot(self, addr: u64) -> int {
        tracker_slot(self.tracker, addr)
    }

    /// How often `addr` was visited.
    pub open spec fn count(self, addr: u64) -> nat {
        if self.has_entry(addr) {
            self.tracker[self.slot(addr)].1 as nat
        } else if self.forward.contains(addr) {
            1
        } else {
            0
        }
    }

    /// No address is noted twice, the tracker holds only addresses that were
    /// visited before, and its counts run from 2 to the limit.
    pub open spec fn wf(self) -> bool {
        &&& self.forward.len() > 0 ==> self.max_loops >= 1
        &&& self.forward.no_duplicates()
        &&& forall|i: int, j: int|
            0 <= i < j < self.tracker.len() ==> (#[trigger] self.tracker[i]).0 != (
            #[trigger] self.tracker[j]).0
        &&& forall|i: int|
            0 <= i < self.tracker.len() ==> {
                &&& self.forward.contains((#[trigger] self.tracker[i]).0)
                &&& 2 <= self.tracker[i].1 <= self.max_loops
            }
    }

    /// One more visit of `addr` is within the limit.
    pub open spec fn admits(self, addr: u64) -> bool {
        self.count(addr) < self.max_loops
    }

    /// The state after a visit of `addr` was asked for: counted where it is
    /// within the limit, unchanged where it is not.
    pub open spec fn visit(self, addr: u64) -> LoopModel {
        if !self.admits(addr) {
            self
        } else if !self.forward.contains(addr) {
            LoopModel { forward: self.forward.push(addr), ..self }
        } else if !self.has_entry(addr) {
            LoopModel { tracker: self.tracker.push((addr, 2usize)), ..self }
        } else {
            let i = self.slot(addr);
            LoopModel {
                tracker: self.tracker.update(i, (addr, (self.tracker[i].1 + 1) as usize)),
                ..self
            }
        }
    }

    /// The state after visits of the addresses `addrs` were asked for, in
    /// their order.
    pub open spec fn visit_all(self, addrs: Seq<u64>) -> LoopModel
        decreases addrs.len(),
    {
        if addrs.len() == 0 {
            self
        } else {
            self.visit_all(addrs.drop_last()).visit(addrs.last())
        }
    }

    /// How many of the visits asked for in `addrs` were visits of `addr`
    /// that the guard let pass.
    pub open spec fn admitted(self, addrs: Seq<u64>, addr: u64) -> nat
        decreases addrs.len(),
    {
        if addrs.len() == 0 {
            0
        } else {
            let before = self.visit_all(addrs.drop_last());
            let here: nat = if addrs.last() == addr && before.admits(addr) {
                1
            } else {
                0
            };
            self.admitted(addrs.drop_last(), addr) + here
        }
    }
}

/// In a well-formed state the entry for an address is the only one.
pub proof fn lemma_slot_unique(m: LoopModel, addr: u64, i: int)
    requires
        m.wf(),
        0 <= i < m.tracker.len(),
        m.tracker[i].0 == addr,
    ensures
        m.has_entry(addr),
        m.slot(addr) == i,
        m.count(addr) == m.tracker[i].1,
{
    let s = m.slot(addr);
    if s < i {
        assert(m.tracker[s].0 != m.tracker[i].0);
    }
    if i < s {
        assert(m.tracker[i].0 != m.tracker[s].0);
    }
}

/// No address is ever counted beyond the limit.
pub proof fn lemma_count_bounded(m: LoopModel, addr: u64)
    requires
        m.wf(),
    ensures
        m.count(addr) <= m.max_loops,
{
    if m.has_entry(addr) {
        let s = m.slot(addr);
        assert(2 <= m.tracker[s].1 <= m.max_loops);
    }
}

/// A visit that the guard lets pass counts once for its address, and a
/// request changes no other count. The state stays well-formed.
pub proof fn lemma_visit_counts(m: LoopModel, addr: u64, other: u64)
    requires
        m.wf(),
    ensures
        m.visit(addr).wf(),
        m.visit(addr).max_loops == m.max_loops,
        m.admits(addr) ==> m.visit(addr).count(addr) == m.count(addr) + 1,
        !m.admits(addr) ==> m.visit(addr) == m,
        other != addr ==> m.visit(addr).count(other) == m.count(other),
{
    let after = m.visit(addr);
    if !m.admits(addr) {
    } else if !m.forward.contains(addr) {
        assert(!m.has_entry(addr)) by {
            if m.has_entry(addr) {
                assert(m.forward.contains(m.tracker[m.slot(addr)].0));
            }
        }
        assert(after.forward.no_duplicates()) by {
            assert forall|i: int, j: int|
                0 <= i < after.forward.len() && 0 <= j < after.forward.len() && i
                    != j implies after.forward[i] != after.forward[j] by {
                if i < m.forward.len() {
                    assert(m.forward.contains(m.forward[i]));
                }
                if j < m.forward.len() {
                    assert(m.forward.contains(m.forward[j]));
                }
            }
        }
        assert forall|i: int| 0 <= i < after.tracker.len() implies after.forward.contains(
            (#[trigger] after.tracker[i]).0,
        ) by {
            let a = m.tracker[i].0;
            assert(m.forward.contains(a));
            let k = choose|k: int| 0 <= k < m.forward.len() && m.forward[k] == a;
            assert(after.forward[k] == a);
        }
        assert(after.forward[m.forward.len() as int] == addr);
        assert(after.forward.contains(addr));
        assert(after.has_entry(addr) == m.has_entry(addr));
        assert(after.has_entry(other) == m.has_entry(other));
        if other != addr {
            if m.forward.contains(other) {
                let k = choose|k: int| 0 <= k < m.forward.len() && m.forward[k] == other;
                assert(after.forward[k] == other);
            }
            if after.forward.contains(other) {
                let k = choose|k: int| 0 <= k < after.forward.len() && after.forward[k] == other;
                assert(m.forward[k] == other);
            }
        }
    } else if !m.has_entry(addr) {
        let n = m.tracker.len() as int;
        assert(after.tracker[n] == (addr, 2usize));
        assert(after.wf()) by {
            assert forall|i: int, j: int| 0 <= i < j < after.tracker.len() implies (
            #[trigger] after.tracker[i]).0 != (#[trigger] after.tracker[j]).0 by {
                if j == n {
                    assert(m.tracker[i].0 != addr);
                }
            }
        }
        lemma_slot_unique(after, addr, n);
        if other != addr {
            if m.has_entry(other) {
                let s = m.slot(other);
                assert(after.tracker[s] == m.tracker[s]);
                lemma_slot_unique(after, other, s);
            } else {
                assert(!after.has_entry(other)) by {
                    if after.has_entry(other) {
                        let s = after.slot(other);
                        assert(m.tracker[s].0 == other);
                    }
                }
            }
        }
    } else {
        let i = m.slot(addr);
        assert(after.tracker[i] == (addr, (m.tracker[i].1 + 1) as usize));
        assert(after.wf()) by {
            assert forall|a: int, b: int| 0 <= a < b < after.tracker.len() implies (
            #[trigger] after.tracker[a]).0 != (#[trigger] after.tracker[b]).0 by {
                assert(m.tracker[a].0 != m.tracker[b].0);
            }
            assert forall|a: int| 0 <= a < after.tracker.len() implies {
                &&& after.forward.contains((#[trigger] after.tracker[a]).0)
                &&& 2 <= after.tracker[a].1 <= after.max_loops
            } by {
                assert(m.forward.contains(m.tracker[a].0));
            }
        }
        lemma_slot_unique(after, addr, i);
        if other != addr {
            if m.has_entry(other) {
                let s = m.slot(other);
                assert(after.tracker[s] == m.tracker[s]);
                lemma_slot_unique(after, other, s);
            } else {
                assert(!after.has_entry(other)) by {
                    if after.has_entry(other) {
                        let s = after.slot(other);
                        assert(m.tracker[s].0 == other);
                    }
                }
            }
        }
    }
}

/// Loop safety: whatever visits one lineage asks for, the guard lets each
/// address pass at most `max_loops` times; the count of an address is what
/// it was before plus the visits that passed.
pub proof fn lemma_loop_safety(m: LoopModel, addrs: Seq<u64>, addr: u64)
    requires
        m.wf(),
    ensures
        m.visit_all(addrs).wf(),
        m.visit_all(addrs).max_loops == m.max_loops,
        m.visit_all(addrs).count(addr) == m.count(addr) + m.admitted(addrs, addr),
        m.admitted(addrs, addr) <= m.max_loops,
    decreases addrs.len(),
{
    if addrs.len() > 0 {
        let before = m.visit_all(addrs.drop_last());
        lemma_loop_safety(m, addrs.drop_last(), addr);
        lemma_visit_counts(before, addrs.last(), addr);
        lemma_visit_counts(before, addrs.last(), addrs.last());
        lemma_count_bounded(before, addr);
        lemma_count_bounded(m.visit_all(addrs), addr);
    }
}

impl View for LoopState {
    type V = LoopModel;

    closed spec fn view(&self) -> LoopModel {
        LoopModel {
            max_loops: self.max_loops,
            forward: self.forward_addr@,
            tracker: self.loop_tracker@,
        }
    }
}

impl LoopState {
    /// The invariant of the type.
    pub open spec fn wf(&self) -> bool {
        self@.wf()
    }

    /// A lineage that has visited nothing yet.
    pub fn new(max_loops: usize) -> (state: LoopState)
        ensures
            state.wf(),
            state@ == (LoopModel {
                max_loops,
                forward: Seq::<u64>::empty(),
                tracker: Seq::<(u64, usize)>::empty(),
            }),
    {
        LoopState { max_loops, forward_addr: Vec::new(), loop_tracker: Vec::new() }
    }

    /// The limit on the visits of one address.
    pub fn max_loops(&self) -> (n: usize)
        ensures
            n == self@.max_loops,
    {
        self.max_loops
    }

    /// The addresses visited, in the order of their first visit.
    pub fn forward_addr(&self) -> (v: &Vec<u64>)
        ensures
            v@ == self@.forward,
    {
        &self.forward_addr
    }

    /// The addresses visited more than once, each with its number of visits.
    pub fn loop_tracker(&self) -> (v: &Vec<(u64, usize)>)
        ensures
            v@ == self@.tracker,
    {
        &self.loop_tracker
    }

    /// A copy for a lineage that forks off this one.
    pub fn fork(&self) -> (copy: LoopState)
        ensures
            copy@ == self@,
    {
        let mut forward_addr: Vec<u64> = Vec::new();
        let mut i: usize = 0;
        while i < self.forward_addr.len()
            invariant
                i <= self.forward_addr@.len(),
                forward_addr@ == self.forward_addr@.subrange(0, i as int),
            decreases self.forward_addr@.len() - i,
        {
            forward_addr.push(self.forward_addr[i]);
            assert(forward_addr@ =~= self.forward_addr@.subrange(0, i + 1));
            i += 1;
        }
        assert(forward_addr@ =~= self.forward_addr@);
        let mut loop_tracker: Vec<(u64, usize)> = Vec::new();
        let mut j: usize = 0;
        while j < self.loop_tracker.len()
            invariant
                j <= self.loop_tracker@.len(),
                loop_tracker@ == self.loop_tracker@.subrange(0, j as int),
            decreases self.loop_tracker@.len() - j,
        {
            loop_tracker.push(self.loop_tracker[j]);
            assert(loop_tracker@ =~= self.loop_tracker@.subrange(0, j + 1));
            j += 1;
        }
        assert(loop_tracker@ =~= self.loop_tracker@);
        LoopState { max_loops: self.max_loops, forward_addr, loop_tracker }
    }

    fn find_forward(&self, addr: u64) -> (found: bool)
        ensures
            found == self@.forward.contains(addr),
    {
        let mut i: usize = 0;
        while i < self.forward_addr.len()
            invariant
                i <= self.forward_addr@.len(),
                forall|k: int| 0 <= k < i ==> self.forward_addr@[k] != addr,
            decreases self.forward_addr@.len() - i,
        {
            if self.forward_addr[i] == addr {
                return true;
            }
            i += 1;
        }
        false
    }

    fn find_entry(&self, addr: u64) -> (found: Option<usize>)
        requires
            self.wf(),
        ensures
            match found {
                Some(i) => self@.has_entry(addr) && i == self@.slot(addr) && i
                    < self@.tracker.len(),
                None => !self@.has_entry(addr),
            },
    {
        let mut i: usize = 0;
        while i < self.loop_tracker.len()
            invariant
                self.wf(),
                i <= self.loop_tracker@.len(),
                forall|k: int| 0 <= k < i ==> (#[trigger] self.loop_tracker@[k]).0 != addr,
            decreases self.loop_tracker@.len() - i,
        {
            if self.loop_tracker[i].0 == addr {
                proof {
                    lemma_slot_unique(self@, addr, i as int);
                }
                return Some(i);
            }
            i += 1;
        }
        None
    }

    /// Asks for one more visit of `addr`. Where the address was visited
    /// fewer than `max_loops` times, the visit is counted and the answer is
    /// `true`; else nothing changes and the answer is `false`.
    pub fn should_visit(&mut self, addr: u64) -> (go: bool)
        requires
            old(self).wf(),
        ensures
            final(self).wf(),
            go == old(self)@.admits(addr),
            final(self)@ == old(self)@.visit(addr),
    {
        proof {
            lemma_visit_counts(self@, addr, addr);
        }
        match self.find_entry(addr) {
            Some(i) => {
                let seen = self.loop_tracker[i].1;
                if seen < self.max_loops {
                    self.loop_tracker[i] = (addr, seen + 1);
                    assert(self.loop_tracker@ =~= old(self).loop_tracker@.update(
                        i as int,
                        (addr, (seen + 1) as usize),
                    ));
                    true
                } else {
                    false
                }
            },
            None => {
                if self.find_forward(addr) {
                    if 1 < self.max_loops {
                        self.loop_tracker.push((addr, 2));
                        true
                    } else {
                        false
                    }
                } else {
                    if 0 < self.max_loops {
                        self.forward_addr.push(addr);
                        true
                    } else {
                        false
                    }
                }
            },
        }
    }
}

} // verus!
