use vstd::prelude::*;

verus! {

/// Where one work item stands.
#[derive(Clone, Copy, PartialEq, Eq, Structural, Debug)]
pub enum ItemState {
    Pending,
    Running,
    Succeeded,
    Failed,
}

impl ItemState {
    pub open spec fn is_terminal(self) -> bool {
        self == ItemState::Succeeded || self == ItemState::Failed
    }
}

/// What the runner of tasks is to do next.
#[derive(Clone, Copy, PartialEq, Eq, Structural, Debug)]
pub enum Action {
    /// Take a permit and start the task of this item.
    Start(usize),
    /// Every permit is held or nothing is left to start: wait for a task to end.
    Wait,
    /// Every item has reached a terminal state.
    Finished,
}

/// How many items hold a permit.
pub open spec fn count_running(s: Seq<ItemState>) -> nat
    decreases s.len(),
{
    if s.len() == 0 {
        0
    } else {
        count_running(s.drop_last()) + if s.last() == ItemState::Running {
            1nat
        } else {
            0nat
        }
    }
}

pub open spec fn all_terminal(s: Seq<ItemState>) -> bool {
    forall|i: int| 0 <= i < s.len() ==> (#[trigger] s[i]).is_terminal()
}

proof fn lemma_count_update(s: Seq<ItemState>, i: int, v: ItemState)
    requires
        0 <= i < s.len(),
    ensures
        count_running(s.update(i, v)) + (if s[i] == ItemState::Running { 1nat } else { 0nat })
            == count_running(s) + (if v == ItemState::Running { 1nat } else { 0nat }),
    decreases s.len(),
{
    let u = s.update(i, v);
    if i == s.len() - 1 {
        assert(u.drop_last() == s.drop_last());
    } else {
        assert(u.drop_last() == s.drop_last().update(i, v));
        lemma_count_update(s.drop_last(), i, v);
    }
}

proof fn lemma_count_zero(s: Seq<ItemState>)
    ensures
        count_running(s) == 0 <==> forall|i: int| 0 <= i < s.len() ==> s[i] != ItemState::Running,
    decreases s.len(),
{
    if s.len() > 0 {
        lemma_count_zero(s.drop_last());
        if count_running(s) == 0 {
            assert forall|i: int| 0 <= i < s.len() implies s[i] != ItemState::Running by {
                if i < s.len() - 1 {
                    assert(s[i] == s.drop_last()[i]);
                }
            }
        }
        if forall|i: int| 0 <= i < s.len() ==> s[i] != ItemState::Running {
            assert forall|i: int| 0 <= i < s.drop_last().len() implies s.drop_last()[i] != ItemState::Running by {
                assert(s[i] == s.drop_last()[i]);
            }
        }
    }
}

/// Admission of one task per item under a fixed pool of permits. Items start
/// in the order given, each once, only while a permit is free; a task's end,
/// success or failure, gives its permit back and touches no other item.
pub struct Scheduler {
    states: Vec<ItemState>,
    next: usize,
    in_flight: usize,
    limit: usize,
}

impl Scheduler {
    pub closed spec fn states(&self) -> Seq<ItemState> {
        self.states@
    }

    /// How many items have been started.
    pub closed spec fn started(&self) -> nat {
        self.next as nat
    }

    /// How many permits are held.
    pub closed spec fn in_flight(&self) -> nat {
        self.in_flight as nat
    }

    /// The size of the permit pool.
    pub closed spec fn limit(&self) -> nat {
        self.limit as nat
    }

    pub closed spec fn wf(&self) -> bool {
        &&& self.limit >= 1
        &&& self.next <= self.states@.len()
        &&& forall|i: int| 0 <= i < self.next ==> self.states@[i] != ItemState::Pending
        &&& forall|i: int| self.next <= i < self.states@.len() ==> self.states@[i] == ItemState::Pending
        &&& self.in_flight == count_running(self.states@)
        &&& self.in_flight <= self.limit
    }

    /// In every state the tasks that hold a permit number at most the limit.
    pub proof fn lemma_in_flight_bounded(&self)
        requires
            self.wf(),
        ensures
            self.in_flight() <= self.limit(),
            self.in_flight() == count_running(self.states()),
    {
    }

    /// A scheduler for `n_items` items, none started, with `limit` permits.
    pub fn new(n_items: usize, limit: usize) -> (r: Scheduler)
        requires
            limit >= 1,
        ensures
            r.wf(),
            r.states() == Seq::new(n_items as nat, |i: int| ItemState::Pending),
            r.started() == 0,
            r.in_flight() == 0,
            r.limit() == limit,
    {
        let mut states: Vec<ItemState> = Vec::new();
        let mut i: usize = 0;
        while i < n_items
            invariant
                i <= n_items,
                states@ == Seq::new(i as nat, |j: int| ItemState::Pending),
                count_running(states@) == 0,
            decreases n_items - i,
        {
            let ghost before = states@;
            states.push(ItemState::Pending);
            assert(states@.drop_last() == before);
            assert(states@ =~= Seq::new((i + 1) as nat, |j: int| ItemState::Pending));
            i += 1;
        }
        Scheduler { states, next: 0, in_flight: 0, limit }
    }

    pub fn len(&self) -> (r: usize)
        ensures
            r == self.states().len(),
    {
        self.states.len()
    }

    pub fn in_flight_now(&self) -> (r: usize)
        requires
            self.wf(),
        ensures
            r == self.in_flight(),
            r <= self.limit(),
    {
        self.in_flight
    }

    pub fn state_of(&self, index: usize) -> (r: ItemState)
        requires
            index < self.states().len(),
        ensures
            r == self.states()[index as int],
    {
        self.states[index]
    }

    /// Decides the next step. With a pending item and a free permit, the first
    /// pending item starts and takes the permit. Otherwise, while a task still
    /// runs, the answer is to wait; with nothing running and nothing pending,
    /// the run is finished and every item is terminal.
    pub fn next_action(&mut self) -> (r: Action)
        requires
            old(self).wf(),
        ensures
            final(self).wf(),
            final(self).limit() == old(self).limit(),
            final(self).in_flight() <= final(self).limit(),
            old(self).started() < old(self).states().len() && old(self).in_flight() < old(self).limit()
                ==> {
                &&& r == Action::Start(old(self).started() as usize)
                &&& final(self).states() == old(self).states().update(
                    old(self).started() as int,
                    ItemState::Running,
                )
                &&& final(self).started() == old(self).started() + 1
                &&& final(self).in_flight() == old(self).in_flight() + 1
            },
            !(old(self).started() < old(self).states().len() && old(self).in_flight() < old(self).limit())
                ==> {
                &&& *final(self) == *old(self)
                &&& r == if old(self).in_flight() > 0 {
                    Action::Wait
                } else {
                    Action::Finished
                }
            },
            r == Action::Finished ==> all_terminal(final(self).states()),
    {
        if self.next < self.states.len() && self.in_flight < self.limit {
            let i = self.next;
            proof {
                lemma_count_update(self.states@, i as int, ItemState::Running);
            }
            self.states.set(i, ItemState::Running);
            self.next = i + 1;
            self.in_flight = self.in_flight + 1;
            Action::Start(i)
        } else if self.in_flight > 0 {
            Action::Wait
        } else {
            proof {
                lemma_count_zero(self.states@);
                assert forall|i: int| 0 <= i < self.states@.len() implies (#[trigger] self.states@[i]).is_terminal() by {
                    assert(self.states@[i] != ItemState::Pending);
                    assert(self.states@[i] != ItemState::Running);
                }
            }
            Action::Finished
        }
    }

    /// Records that the task of `index` has ended, and gives back its permit.
    /// Only that item changes state; a failure is recorded like a success.
    pub fn complete(&mut self, index: usize, succeeded: bool)
        requires
            old(self).wf(),
            index < old(self).states().len(),
            old(self).states()[index as int] == ItemState::Running,
        ensures
            final(self).wf(),
            final(self).states() == old(self).states().update(
                index as int,
                if succeeded {
                    ItemState::Succeeded
                } else {
                    ItemState::Failed
                },
            ),
            final(self).started() == old(self).started(),
            final(self).in_flight() + 1 == old(self).in_flight(),
            final(self).limit() == old(self).limit(),
    {
        let v = if succeeded {
            ItemState::Succeeded
        } else {
            ItemState::Failed
        };
        proof {
            lemma_count_update(self.states@, index as int, v);
        }
        self.states.set(index, v);
        self.in_flight = self.in_flight - 1;
    }
}

proof fn lemma_count_positive(s: Seq<ItemState>) -> (i: int)
    requires
        count_running(s) > 0,
    ensures
        0 <= i < s.len(),
        s[i] == ItemState::Running,
{
    lemma_count_zero(s);
    choose|i: int| 0 <= i < s.len() && s[i] == ItemState::Running
}

/// What a run of every item gave.
pub struct RunReport<E> {
    /// The outcome of each item's worker, by the item's position.
    pub outcomes: Vec<Option<Result<(), E>>>,
    /// How many tasks were started.
    pub started: usize,
    /// The most tasks that held a permit at one time.
    pub peak_in_flight: usize,
}

/// Runs `worker` once on every item under at most `limit` tasks at a time,
/// completing held tasks oldest first. A worker's failure is recorded as that
/// item's outcome and stops nothing else: the run returns only once every item's
/// worker has been called and has returned.
pub fn run_all<T, E, F: Fn(&T) -> Result<(), E>>(items: &Vec<T>, limit: usize, worker: &F) -> (r:
    RunReport<E>)
    requires
        limit >= 1,
        forall|i: int| 0 <= i < items@.len() ==> worker.requires((&items@[i],)),
    ensures
        r.outcomes@.len() == items@.len(),
        forall|i: int|
            0 <= i < items@.len() ==> {
                &&& (#[trigger] r.outcomes@[i]).is_some()
                &&& worker.ensures((&items@[i],), r.outcomes@[i].unwrap())
            },
        r.started == items@.len(),
        r.peak_in_flight <= limit,
        items@.len() == 0 ==> r.peak_in_flight == 0,
{
    let n = items.len();
    let mut sched = Scheduler::new(n, limit);
    let mut outcomes: Vec<Option<Result<(), E>>> = Vec::new();
    let mut k: usize = 0;
    while k < n
        invariant
            k <= n,
            outcomes@.len() == k,
            forall|i: int| 0 <= i < k ==> (#[trigger] outcomes@[i]).is_none(),
        decreases n - k,
    {
        outcomes.push(None);
        k += 1;
    }
    let mut running: Vec<usize> = Vec::new();
    let mut peak: usize = 0;
    loop
        invariant
            sched.wf(),
            n == items@.len(),
            sched.states().len() == n,
            sched.limit() == limit,
            peak <= limit,
            n == 0 ==> peak == 0,
            outcomes@.len() == n,
            running@.no_duplicates(),
            forall|j: int| 0 <= j < running@.len() ==> (#[trigger] running@[j]) < n,
            forall|i: int|
                0 <= i < n ==> (sched.states()[i] == ItemState::Running <==> running@.contains(
                    i as usize,
                )),
            forall|i: int|
                0 <= i < n ==> ((#[trigger] sched.states()[i]).is_terminal() <==> outcomes@[i].is_some()),
            forall|i: int|
                0 <= i < n && outcomes@[i].is_some() ==> worker.ensures(
                    (&items@[i],),
                    (#[trigger] outcomes@[i]).unwrap(),
                ),
            forall|i: int| 0 <= i < items@.len() ==> worker.requires((&items@[i],)),
        decreases 2 * (n - sched.started()) + sched.in_flight(),
    {
        let ghost before = sched.states();
        match sched.next_action() {
            Action::Start(i) => {
                let ghost old_running = running@;
                assert(before[i as int] == ItemState::Pending);
                assert(!old_running.contains(i));
                running.push(i);
                let now = sched.in_flight_now();
                if now > peak {
                    peak = now;
                }
                proof {
                    assert(running@ == old_running.push(i));
                    assert forall|x: int| 0 <= x < n implies (sched.states()[x] == ItemState::Running
                        <==> running@.contains(x as usize)) by {
                        if x != i {
                            assert(sched.states()[x] == before[x]);
                            if old_running.contains(x as usize) {
                                let j = choose|j: int| 0 <= j < old_running.len() && old_running[j] == x as usize;
                                assert(running@[j] == x as usize);
                            }
                            if running@.contains(x as usize) {
                                let j = choose|j: int| 0 <= j < running@.len() && running@[j] == x as usize;
                                assert(old_running[j] == x as usize);
                            }
                        } else {
                            assert(running@[running@.len() - 1] == i);
                        }
                    }
                    assert forall|x: int| 0 <= x < n implies ((#[trigger] sched.states()[x]).is_terminal()
                        <==> outcomes@[x].is_some()) by {
                        if x != i {
                            assert(sched.states()[x] == before[x]);
                        }
                    }
                }
            },
            Action::Wait => {
                proof {
                    let x = lemma_count_positive(sched.states());
                    assert(running@.contains(x as usize));
                }
                let ghost old_running = running@;
                let j = running.remove(0);
                assert(sched.states()[j as int] == ItemState::Running);
                let res = worker(&items[j]);
                let ok = res.is_ok();
                outcomes.set(j, Some(res));
                sched.complete(j, ok);
                proof {
                    assert(running@ == old_running.subrange(1, old_running.len() as int));
                    assert forall|x: int| 0 <= x < n implies (sched.states()[x] == ItemState::Running
                        <==> running@.contains(x as usize)) by {
                        if x != j {
                            assert(sched.states()[x] == before[x]);
                            if old_running.contains(x as usize) {
                                let m = choose|m: int| 0 <= m < old_running.len() && old_running[m] == x as usize;
                                assert(m != 0);
                                assert(running@[m - 1] == x as usize);
                            }
                            if running@.contains(x as usize) {
                                let m = choose|m: int| 0 <= m < running@.len() && running@[m] == x as usize;
                                assert(old_running[m + 1] == x as usize);
                            }
                        } else {
                            if running@.contains(x as usize) {
                                let m = choose|m: int| 0 <= m < running@.len() && running@[m] == x as usize;
                                assert(old_running[m + 1] == old_running[0]);
                            }
                        }
                    }
                    assert forall|x: int| 0 <= x < n implies ((#[trigger] sched.states()[x]).is_terminal()
                        <==> outcomes@[x].is_some()) by {
                        if x != j {
                            assert(sched.states()[x] == before[x]);
                        }
                    }
                }
            },
            Action::Finished => {
                proof {
                    assert forall|i: int| 0 <= i < n implies (#[trigger] outcomes@[i]).is_some() by {
                        assert(sched.states()[i].is_terminal());
                    }
                }
                return RunReport { outcomes, started: n, peak_in_flight: peak };
            },
        }
    }
}

} // verus!
