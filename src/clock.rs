//! The clock: a round-robin of whitelisted subscribers, each ticked in
//! FIFO order, with a gas ceiling per round.
use vstd::prelude::*;

verus! {

#[derive(Clone, Copy, Debug, PartialEq, Eq, Structural)]
pub enum ClockError {
    Paused,
    NotWhitelisted,
}

#[derive(Debug)]
pub struct Clock {
    /// Subscribers in the order they will be ticked.
    pub queue: Vec<String>,
    /// The addresses that may subscribe, fixed at creation.
    pub whitelist: Vec<String>,
    pub paused: bool,
    pub tick_max_gas: u64,
}

/// The progress of one round of ticks.
#[derive(Debug)]
pub struct TickRound {
    pub ticked: u64,
    pub gas_used: u64,
    /// Subscribers whose tick failed in this round.
    pub failed: Vec<String>,
}

pub open spec fn addrs(s: Seq<String>) -> Seq<Seq<char>> {
    s.map_values(|a: String| a@)
}

fn position(s: &Vec<String>, addr: &String) -> (r: Option<usize>)
    ensures
        match r {
            Some(i) => i < s@.len() && s@[i as int]@ == addr@ && addrs(s@).contains(addr@),
            None => !addrs(s@).contains(addr@),
        },
{
    let mut i: usize = 0;
    while i < s.len()
        invariant
            i <= s@.len(),
            forall|k: int| 0 <= k < i ==> s@[k]@ != addr@,
        decreases s@.len() - i,
    {
        if s[i] == *addr {
            proof {
                assert(addrs(s@)[i as int] == addr@);
            }
            return Some(i);
        }
        i = i + 1;
    }
    proof {
        if addrs(s@).contains(addr@) {
            let k = choose|k: int| 0 <= k < addrs(s@).len() && addrs(s@)[k] == addr@;
            assert(s@[k]@ == addr@);
        }
    }
    None
}

/// `s` with every occurrence of `a` taken out.
pub open spec fn without(s: Seq<Seq<char>>, a: Seq<char>) -> Seq<Seq<char>>
    decreases s.len(),
{
    if s.len() == 0 {
        s
    } else if s.last() == a {
        without(s.drop_last(), a)
    } else {
        without(s.drop_last(), a).push(s.last())
    }
}

impl Clock {
    /// No subscriber is queued twice, and each is whitelisted.
    pub open spec fn wf(&self) -> bool {
        &&& addrs(self.queue@).no_duplicates()
        &&& forall|i: int|
            0 <= i < self.queue@.len() ==> addrs(self.whitelist@).contains(
                (#[trigger] self.queue@[i])@,
            )
    }

    /// A clock with an empty queue.
    pub fn new(whitelist: Vec<String>, tick_max_gas: u64) -> (r: Clock)
        ensures
            r.wf(),
            r.queue@.len() == 0,
            r.whitelist == whitelist,
            !r.paused,
            r.tick_max_gas == tick_max_gas,
    {
        let r = Clock { queue: Vec::new(), whitelist, paused: false, tick_max_gas };
        proof {
            assert(addrs(r.queue@) =~= Seq::<Seq<char>>::empty());
        }
        r
    }

    /// Appends a whitelisted subscriber unless it is already queued.
    pub fn enqueue(&mut self, addr: &String) -> (r: Result<(), ClockError>)
        requires
            old(self).wf(),
        ensures
            final(self).wf(),
            final(self).whitelist == old(self).whitelist,
            final(self).paused == old(self).paused,
            final(self).tick_max_gas == old(self).tick_max_gas,
            match r {
                Err(e) => final(self).queue == old(self).queue && if old(self).paused {
                    e == ClockError::Paused
                } else {
                    !addrs(old(self).whitelist@).contains(addr@) && e == ClockError::NotWhitelisted
                },
                Ok(_) => !old(self).paused && addrs(old(self).whitelist@).contains(addr@) && if addrs(
                    old(self).queue@,
                ).contains(addr@) {
                    final(self).queue == old(self).queue
                } else {
                    final(self).queue@ == old(self).queue@.push(*addr)
                },
            },
    {
        if self.paused {
            return Err(ClockError::Paused);
        }
        if position(&self.whitelist, addr).is_none() {
            return Err(ClockError::NotWhitelisted);
        }
        if position(&self.queue, addr).is_some() {
            proof {
                let i = choose|i: int| 0 <= i < self.queue@.len() && self.queue@[i]@ == addr@;
                assert(addrs(self.queue@)[i] == addr@);
            }
            return Ok(());
        }
        let ghost q0 = self.queue@;
        self.queue.push(addr.clone());
        proof {
            assert(addrs(self.queue@) =~= addrs(q0).push(addr@));
            let w = self.whitelist@;
            assert forall|i: int| 0 <= i < self.queue@.len() implies addrs(w).contains(
                (#[trigger] self.queue@[i])@,
            ) by {
                if i < q0.len() {
                    assert(self.queue@[i] == q0[i]);
                }
            }
        }
        Ok(())
    }

    /// Removes a subscriber from the queue.
    pub fn dequeue(&mut self, addr: &String) -> (r: Result<(), ClockError>)
        requires
            old(self).wf(),
        ensures
            final(self).wf(),
            final(self).whitelist == old(self).whitelist,
            final(self).paused == old(self).paused,
            final(self).tick_max_gas == old(self).tick_max_gas,
            match r {
                Err(e) => final(self).queue == old(self).queue && !addrs(
                    old(self).whitelist@,
                ).contains(addr@) && e == ClockError::NotWhitelisted,
                Ok(_) => addrs(old(self).whitelist@).contains(addr@) && addrs(final(self).queue@)
                    == without(addrs(old(self).queue@), addr@),
            },
    {
        if position(&self.whitelist, addr).is_none() {
            return Err(ClockError::NotWhitelisted);
        }
        let ghost q0 = self.queue@;
        let mut out: Vec<String> = Vec::new();
        let mut i: usize = 0;
        proof {
            assert(addrs(q0).take(0) =~= Seq::<Seq<char>>::empty());
            assert(addrs(out@) =~= Seq::<Seq<char>>::empty());
        }
        while i < self.queue.len()
            invariant
                q0 == self.queue@,
                addrs(q0).no_duplicates(),
                i <= q0.len(),
                addrs(out@) == without(addrs(q0).take(i as int), addr@),
                addrs(out@).no_duplicates(),
                forall|k: int|
                    0 <= k < out@.len() ==> exists|j: int| 0 <= j < i && #[trigger] out@[k] == q0[j],
            decreases q0.len() - i,
        {
            let ghost before = out@;
            proof {
                assert(addrs(q0).take(i as int + 1).drop_last() =~= addrs(q0).take(i as int));
            }
            if self.queue[i] != *addr {
                let item = self.queue[i].clone();
                out.push(item);
                proof {
                    assert(addrs(out@) =~= addrs(before).push(q0[i as int]@));
                    assert forall|k: int| 0 <= k < before.len() implies addrs(before)[k]
                        != q0[i as int]@ by {
                        let j = choose|j: int| 0 <= j < i && before[k] == q0[j];
                        assert(addrs(q0)[j] == q0[j]@);
                        assert(addrs(q0)[i as int] == q0[i as int]@);
                    }
                    let a = addrs(out@);
                    assert forall|x: int, y: int| 0 <= x < a.len() && 0 <= y < a.len() && x != y implies a[x]
                        != a[y] by {
                        if x < before.len() && y < before.len() {
                            assert(a[x] == addrs(before)[x]);
                            assert(a[y] == addrs(before)[y]);
                        } else if x < before.len() {
                            assert(a[x] == addrs(before)[x]);
                        } else if y < before.len() {
                            assert(a[y] == addrs(before)[y]);
                        }
                    }
                    assert forall|k: int| 0 <= k < out@.len() implies exists|j: int|
                        0 <= j < i + 1 && #[trigger] out@[k] == q0[j] by {
                        if k < before.len() {
                            assert(out@[k] == before[k]);
                            let j = choose|j: int| 0 <= j < i && before[k] == q0[j];
                            assert(0 <= j < i + 1 && out@[k] == q0[j]);
                        } else {
                            assert(out@[k] == q0[i as int]);
                        }
                    }
                }
            }
            proof {
                assert(addrs(q0).take(i as int + 1).last() == q0[i as int]@);
            }
            i = i + 1;
        }
        proof {
            assert(addrs(q0).take(i as int) =~= addrs(q0));
        }
        self.queue = out;
        proof {
            let w = self.whitelist@;
            assert forall|k: int| 0 <= k < self.queue@.len() implies addrs(w).contains(
                (#[trigger] self.queue@[k])@,
            ) by {
                let j = choose|j: int| 0 <= j < q0.len() && self.queue@[k] == q0[j];
            }
        }
        Ok(())
    }

    /// The next subscriber to tick, moved from the head of the queue to
    /// its tail; `None` when nobody is queued.
    pub fn next_subscriber(&mut self) -> (r: Result<Option<String>, ClockError>)
        requires
            old(self).wf(),
        ensures
            final(self).wf(),
            final(self).whitelist == old(self).whitelist,
            final(self).paused == old(self).paused,
            final(self).tick_max_gas == old(self).tick_max_gas,
            match r {
                Err(e) => old(self).paused && e == ClockError::Paused && final(self).queue == old(
                    self,
                ).queue,
                Ok(None) => !old(self).paused && old(self).queue@.len() == 0 && final(self).queue
                    == old(self).queue,
                Ok(Some(a)) => !old(self).paused && old(self).queue@.len() > 0 && a
                    == old(self).queue@[0] && final(self).queue@ == old(self).queue@.drop_first().push(
                    old(self).queue@[0],
                ),
            },
    {
        if self.paused {
            return Err(ClockError::Paused);
        }
        if self.queue.len() == 0 {
            return Ok(None);
        }
        let ghost q0 = self.queue@;
        let head = self.queue.remove(0);
        self.queue.push(head.clone());
        proof {
            assert(self.queue@ =~= q0.drop_first().push(q0[0]));
            let a0 = addrs(q0);
            let a1 = addrs(self.queue@);
            assert(a1 =~= a0.drop_first().push(a0[0]));
            assert forall|i: int, j: int| 0 <= i < a1.len() && 0 <= j < a1.len() && i != j implies a1[i]
                != a1[j] by {
                let oi = if i == a1.len() - 1 { 0 } else { i + 1 };
                let oj = if j == a1.len() - 1 { 0 } else { j + 1 };
                assert(a1[i] == a0[oi]);
                assert(a1[j] == a0[oj]);
            }
            assert forall|i: int| 0 <= i < self.queue@.len() implies addrs(self.whitelist@).contains(
                (#[trigger] self.queue@[i])@,
            ) by {
                let oi = if i == self.queue@.len() - 1 { 0 } else { i + 1 };
                assert(self.queue@[i] == q0[oi]);
            }
        }
        Ok(Some(head))
    }

    /// Whether the round goes on: not everyone has been ticked and the gas
    /// used stays within the ceiling.
    pub fn round_continues(&self, round: &TickRound) -> (r: bool)
        ensures
            r == (round.ticked < self.queue@.len() && round.gas_used <= self.tick_max_gas),
    {
        (round.ticked as u128) < (self.queue.len() as u128) && round.gas_used <= self.tick_max_gas
    }
}

impl TickRound {
    pub fn new() -> (r: TickRound)
        ensures
            r.ticked == 0,
            r.gas_used == 0,
            r.failed@.len() == 0,
    {
        TickRound { ticked: 0, gas_used: 0, failed: Vec::new() }
    }

    /// Records one subscriber's tick: its cost and, if it failed, its address.
    pub fn record(&mut self, addr: String, cost: u64, succeeded: bool)
        ensures
            final(self).ticked == if old(self).ticked == u64::MAX {
                u64::MAX
            } else {
                (old(self).ticked + 1) as u64
            },
            final(self).gas_used == if old(self).gas_used + cost > u64::MAX {
                u64::MAX
            } else {
                (old(self).gas_used + cost) as u64
            },
            final(self).failed@ == if succeeded {
                old(self).failed@
            } else {
                old(self).failed@.push(addr)
            },
    {
        self.ticked = self.ticked.saturating_add(1);
        self.gas_used = self.gas_used.saturating_add(cost);
        if !succeeded {
            self.failed.push(addr);
        }
    }
}

} // verus!
