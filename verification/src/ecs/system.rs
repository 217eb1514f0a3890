//! Information about a registered system, and the order in which a
//! scheduler runs its systems.
//!
//! Systems are identified here by the position at which they were added
//! (their slot); the systems themselves are held by the caller.

use vstd::prelude::*;

verus! {

/// Information about a registered system
#[derive(Clone, Debug)]
pub struct SystemInfo {
    /// System name
    pub name: String,
    /// System priority
    pub priority: i32,
    /// Whether this is a startup system
    pub is_startup: bool,
}

/// Where a system of priority `p` goes among `s`: before the first entry
/// of lower priority, after every entry of at least its priority.
pub open spec fn first_lower(s: Seq<(i32, usize)>, p: i32) -> nat
    decreases s.len(),
{
    if s.len() == 0 {
        0
    } else if s[0].0 < p {
        0
    } else {
        1 + first_lower(s.drop_first(), p)
    }
}

/// The order in which regular systems run, from the systems (priority,
/// slot) in the order they were added: each goes after every earlier one
/// of at least its priority and before those of lower priority.
pub open spec fn run_order(added: Seq<(i32, usize)>) -> Seq<(i32, usize)>
    decreases added.len(),
{
    if added.len() == 0 {
        Seq::empty()
    } else {
        let s = run_order(added.drop_last());
        s.insert(first_lower(s, added.last().0) as int, added.last())
    }
}

/// A step of a scheduler run: the slot of the system to run, and whether
/// it runs as a startup system (with a zero time step).
#[derive(Clone, Copy, Debug, PartialEq, Eq, Structural)]
pub struct RunStep {
    /// The slot of the system
    pub slot: usize,
    /// Whether it runs as a startup system
    pub startup: bool,
}

/// The steps of a run: the pending startup systems (only on the first run
/// since the schedule was made or cleared), in the order they were added,
/// then the regular systems in run order.
pub open spec fn run_steps(startup: Seq<usize>, startup_executed: bool, regular: Seq<(i32, usize)>) -> Seq<RunStep> {
    let first = if startup_executed {
        Seq::<RunStep>::empty()
    } else {
        Seq::new(startup.len(), |i: int| RunStep { slot: startup[i], startup: true })
    };
    first + Seq::new(run_order(regular).len(), |i: int| RunStep { slot: run_order(regular)[i].1, startup: false })
}

/// The run order of a scheduler's systems.
pub struct SystemSchedule {
    ordered: Vec<(i32, usize)>,
    regular: Ghost<Seq<(i32, usize)>>,
    startup: Vec<usize>,
    startup_executed: bool,
    added: usize,
}

impl SystemSchedule {
    /// The regular systems (priority, slot), in the order they were added.
    pub closed spec fn regular(&self) -> Seq<(i32, usize)> {
        self.regular@
    }

    /// The startup systems still to run, in the order they were added.
    pub closed spec fn startup(&self) -> Seq<usize> {
        self.startup@
    }

    /// Whether the startup systems have run.
    pub closed spec fn startup_executed(&self) -> bool {
        self.startup_executed
    }

    /// The number of systems added since the schedule was made or cleared.
    pub closed spec fn added(&self) -> nat {
        self.added as nat
    }

    /// Well-formed: the kept order is the run order of the regular systems,
    /// whose slots increase in the order they were added.
    pub closed spec fn wf(&self) -> bool {
        &&& self.ordered@ == run_order(self.regular@)
        &&& slots_increasing(self.regular@)
        &&& forall|i: int| 0 <= i < self.regular@.len() ==> (#[trigger] self.regular@[i]).1 < self.added
    }

    /// The regular systems of a well-formed schedule were given increasing
    /// slots, so `lemma_run_order_sorted` applies to them.
    pub proof fn lemma_slots_increasing(&self)
        requires
            self.wf(),
        ensures
            slots_increasing(self.regular()),
    {
    }

    /// No systems.
    pub fn new() -> (r: Self)
        ensures
            r.wf(),
            r.regular() == Seq::<(i32, usize)>::empty(),
            r.startup() == Seq::<usize>::empty(),
            !r.startup_executed(),
            r.added() == 0,
    {
        let r = SystemSchedule {
            ordered: Vec::new(),
            regular: Ghost(Seq::empty()),
            startup: Vec::new(),
            startup_executed: false,
            added: 0,
        };
        assert(r.ordered@ =~= run_order(r.regular@));
        r
    }

    /// Adds a system of the given priority, as a startup system or a
    /// regular one; returns its slot, the number of systems added before it.
    pub fn add(&mut self, priority: i32, is_startup: bool) -> (slot: usize)
        requires
            old(self).wf(),
            old(self).added() < usize::MAX,
        ensures
            final(self).wf(),
            slot == old(self).added(),
            final(self).added() == old(self).added() + 1,
            final(self).startup_executed() == old(self).startup_executed(),
            if is_startup {
                &&& final(self).startup() == old(self).startup().push(slot)
                &&& final(self).regular() == old(self).regular()
            } else {
                &&& final(self).startup() == old(self).startup()
                &&& final(self).regular() == old(self).regular().push((priority, slot))
            },
    {
        let slot = self.added;
        if is_startup {
            self.startup.push(slot);
        } else {
            let mut k: usize = 0;
            let ghost s = self.ordered@;
            assert(s.subrange(0, s.len() as int) =~= s);
            while k < self.ordered.len() && self.ordered[k].0 >= priority
                invariant
                    s == self.ordered@,
                    k <= s.len(),
                    first_lower(s, priority) == k + first_lower(s.subrange(k as int, s.len() as int), priority),
                decreases self.ordered.len() - k,
            {
                let ghost rest = s.subrange(k as int, s.len() as int);
                assert(rest.drop_first() =~= s.subrange(k + 1, s.len() as int));
                assert(rest[0] == s[k as int]);
                k += 1;
            }
            proof {
                let rest = s.subrange(k as int, s.len() as int);
                if k == s.len() {
                    assert(rest.len() == 0);
                } else {
                    assert(rest[0] == s[k as int]);
                }
                assert(first_lower(rest, priority) == 0);
                assert(k == first_lower(s, priority));
            }
            self.ordered.insert(k, (priority, slot));
            proof {
                let new_regular = self.regular@.push((priority, slot));
                assert(new_regular.drop_last() =~= self.regular@);
                assert(run_order(new_regular) == s.insert(k as int, (priority, slot)));
                self.regular = Ghost(new_regular);
            }
        }
        self.added = slot + 1;
        slot
    }

    /// The steps of this run (see `run_steps`); the startup systems are
    /// then done with.
    pub fn run(&mut self) -> (r: Vec<RunStep>)
        requires
            old(self).wf(),
        ensures
            final(self).wf(),
            r@ == run_steps(old(self).startup(), old(self).startup_executed(), old(self).regular()),
            final(self).startup_executed(),
            final(self).startup() == if old(self).startup_executed() {
                old(self).startup()
            } else {
                Seq::<usize>::empty()
            },
            final(self).regular() == old(self).regular(),
            final(self).added() == old(self).added(),
    {
        let mut steps: Vec<RunStep> = Vec::new();
        let ghost first = if self.startup_executed {
            Seq::<RunStep>::empty()
        } else {
            Seq::new(self.startup@.len(), |i: int| RunStep { slot: self.startup@[i], startup: true })
        };
        if !self.startup_executed {
            let mut i: usize = 0;
            while i < self.startup.len()
                invariant
                    i <= self.startup.len(),
                    first == Seq::new(self.startup@.len(), |j: int| RunStep { slot: self.startup@[j], startup: true }),
                    steps@ == first.subrange(0, i as int),
                decreases self.startup.len() - i,
            {
                steps.push(RunStep { slot: self.startup[i], startup: true });
                assert(steps@ =~= first.subrange(0, i + 1));
                i += 1;
            }
            assert(steps@ =~= first);
            self.startup_executed = true;
            self.startup.clear();
        } else {
            assert(steps@ =~= first);
        }
        let ghost order = run_order(self.regular@);
        let ghost rest = Seq::new(order.len(), |i: int| RunStep { slot: order[i].1, startup: false });
        let mut i: usize = 0;
        while i < self.ordered.len()
            invariant
                self.ordered@ == order,
                i <= order.len(),
                rest == Seq::new(order.len(), |j: int| RunStep { slot: order[j].1, startup: false }),
                steps@ == first + rest.subrange(0, i as int),
            decreases self.ordered.len() - i,
        {
            steps.push(RunStep { slot: self.ordered[i].1, startup: false });
            assert(steps@ =~= first + rest.subrange(0, i + 1));
            i += 1;
        }
        assert(rest.subrange(0, i as int) =~= rest);
        steps
    }

    /// The number of regular systems.
    pub fn len(&self) -> (r: usize)
        requires
            self.wf(),
        ensures
            r == self.regular().len(),
    {
        proof {
            lemma_run_order_len(self.regular@);
        }
        self.ordered.len()
    }

    /// Whether the startup systems have run.
    pub fn has_run_startup(&self) -> (r: bool)
        ensures
            r == self.startup_executed(),
    {
        self.startup_executed
    }

    /// The number of startup systems still to run.
    pub fn startup_len(&self) -> (r: usize)
        ensures
            r == self.startup().len(),
    {
        self.startup.len()
    }

    /// Whether no system is scheduled.
    pub fn is_empty(&self) -> (r: bool)
        requires
            self.wf(),
        ensures
            r == (self.regular().len() == 0 && self.startup().len() == 0),
    {
        self.len() == 0 && self.startup.len() == 0
    }

    /// Removes every system; the startup systems of systems added later run
    /// again on the next run.
    pub fn clear(&mut self)
        ensures
            final(self).wf(),
            final(self).regular() == Seq::<(i32, usize)>::empty(),
            final(self).startup() == Seq::<usize>::empty(),
            !final(self).startup_executed(),
            final(self).added() == 0,
    {
        self.ordered.clear();
        self.startup.clear();
        self.startup_executed = false;
        self.added = 0;
        self.regular = Ghost(Seq::empty());
        assert(self.ordered@ =~= run_order(self.regular@));
    }
}

impl Default for SystemSchedule {
    fn default() -> (r: Self)
        ensures
            r.wf(),
            r.regular() == Seq::<(i32, usize)>::empty(),
            r.startup() == Seq::<usize>::empty(),
            !r.startup_executed(),
            r.added() == 0,
    {
        SystemSchedule::new()
    }
}


/// Whether the slots increase in the order the systems were added.
pub open spec fn slots_increasing(added: Seq<(i32, usize)>) -> bool {
    forall|i: int, j: int| 0 <= i < j < added.len() ==> (#[trigger] added[i]).1 < (#[trigger] added[j]).1
}

/// Regular systems run by descending priority, systems of equal priority in
/// the order they were added, each exactly once.
pub proof fn lemma_run_order_sorted(added: Seq<(i32, usize)>)
    requires
        slots_increasing(added),
    ensures
        run_order(added).len() == added.len(),
        forall|x: (i32, usize)|
            #![trigger added.contains(x)]
            #![trigger run_order(added).contains(x)]
            added.contains(x) <==> run_order(added).contains(x),
        forall|i: int, j: int|
            0 <= i < j < run_order(added).len() ==> (#[trigger] run_order(added)[i]).0 >= (#[trigger] run_order(added)[j]).0,
        forall|i: int, j: int|
            0 <= i < j < run_order(added).len() && (#[trigger] run_order(added)[i]).0 == (#[trigger] run_order(added)[j]).0
                ==> run_order(added)[i].1 < run_order(added)[j].1,
    decreases added.len(),
{
    lemma_run_order_len(added);
    if added.len() > 0 {
        let d = added.drop_last();
        let x = added.last();
        assert(slots_increasing(d)) by {
            assert forall|i: int, j: int| 0 <= i < j < d.len() implies (#[trigger] d[i]).1 < (#[trigger] d[j]).1 by {
                assert(added[i] == d[i] && added[j] == d[j]);
            }
        }
        lemma_run_order_sorted(d);
        let s = run_order(d);
        let k = first_lower(s, x.0) as int;
        lemma_first_lower_bound(s, x.0);
        let t = s.insert(k, x);
        assert(t == run_order(added));
        assert forall|j: int| k <= j < s.len() implies (#[trigger] s[j]).0 < x.0 by {
            if j > k {
                assert(s[k].0 >= s[j].0);
            }
        }
        assert forall|y: (i32, usize)| #[trigger] s.contains(y) implies y.1 < x.1 by {
            assert(d.contains(y));
            let m = choose|m: int| 0 <= m < d.len() && d[m] == y;
            assert(added[m] == y);
            assert(added[added.len() - 1] == x);
        }
        assert forall|y: (i32, usize)| added.contains(y) <==> t.contains(y) by {
            if added.contains(y) {
                let m = choose|m: int| 0 <= m < added.len() && added[m] == y;
                if m < d.len() {
                    assert(d[m] == y);
                    assert(s.contains(y));
                    let n = choose|n: int| 0 <= n < s.len() && s[n] == y;
                    if n < k {
                        assert(t[n] == y);
                    } else {
                        assert(t[n + 1] == y);
                    }
                } else {
                    assert(t[k] == y);
                }
            }
            if t.contains(y) {
                let n = choose|n: int| 0 <= n < t.len() && t[n] == y;
                if n == k {
                    assert(added[added.len() - 1] == y);
                } else {
                    let m = if n < k { n } else { n - 1 };
                    assert(s[m] == y);
                    assert(s.contains(y));
                    assert(d.contains(y));
                    let q = choose|q: int| 0 <= q < d.len() && d[q] == y;
                    assert(added[q] == y);
                }
            }
        }
        lemma_insert_keeps_order(s, k, x);
    }
}

/// Inserting `x` where `first_lower` puts it keeps the order by
/// descending priority, ties by increasing slot, when `x` has the largest
/// slot.
proof fn lemma_insert_keeps_order(s: Seq<(i32, usize)>, k: int, x: (i32, usize))
    requires
        0 <= k <= s.len(),
        forall|j: int| 0 <= j < k ==> (#[trigger] s[j]).0 >= x.0,
        forall|j: int| k <= j < s.len() ==> (#[trigger] s[j]).0 < x.0,
        forall|y: (i32, usize)| #[trigger] s.contains(y) ==> y.1 < x.1,
        forall|i: int, j: int| 0 <= i < j < s.len() ==> (#[trigger] s[i]).0 >= (#[trigger] s[j]).0,
        forall|i: int, j: int|
            0 <= i < j < s.len() && (#[trigger] s[i]).0 == (#[trigger] s[j]).0 ==> s[i].1 < s[j].1,
    ensures
        forall|i: int, j: int|
            0 <= i < j < s.insert(k, x).len() ==> (#[trigger] s.insert(k, x)[i]).0 >= (#[trigger] s.insert(k, x)[j]).0,
        forall|i: int, j: int|
            0 <= i < j < s.insert(k, x).len() && (#[trigger] s.insert(k, x)[i]).0 == (#[trigger] s.insert(k, x)[j]).0
                ==> s.insert(k, x)[i].1 < s.insert(k, x)[j].1,
{
    let t = s.insert(k, x);
    assert forall|i: int, j: int| 0 <= i < j < t.len() implies (#[trigger] t[i]).0 >= (#[trigger] t[j]).0 by {
        if j < k {
            assert(t[i] == s[i] && t[j] == s[j]);
        } else if j == k {
            assert(t[i] == s[i]);
        } else if i == k {
            assert(t[j] == s[j - 1]);
        } else if i < k {
            assert(t[i] == s[i] && t[j] == s[j - 1]);
        } else {
            assert(t[i] == s[i - 1] && t[j] == s[j - 1]);
        }
    }
    assert forall|i: int, j: int|
        0 <= i < j < t.len() && (#[trigger] t[i]).0 == (#[trigger] t[j]).0 implies t[i].1 < t[j].1 by {
        if j < k {
            assert(t[i] == s[i] && t[j] == s[j]);
        } else if j == k {
            assert(t[i] == s[i]);
            assert(s.contains(s[i]));
        } else if i == k {
            assert(t[j] == s[j - 1]);
        } else if i < k {
            assert(t[i] == s[i] && t[j] == s[j - 1]);
        } else {
            assert(t[i] == s[i - 1] && t[j] == s[j - 1]);
        }
    }
}

/// The startup systems run, first and in the order they were added, on the
/// first run only: a run after them has only regular steps.
pub proof fn lemma_startup_runs_first_and_once(startup: Seq<usize>, regular: Seq<(i32, usize)>)
    ensures
        run_steps(startup, false, regular).subrange(0, startup.len() as int)
            == Seq::new(startup.len(), |i: int| RunStep { slot: startup[i], startup: true }),
        forall|i: int|
            startup.len() <= i < run_steps(startup, false, regular).len() ==> !(#[trigger] run_steps(startup, false, regular)[i]).startup,
        forall|i: int|
            0 <= i < run_steps(Seq::empty(), true, regular).len() ==> !(#[trigger] run_steps(Seq::empty(), true, regular)[i]).startup,
{
    assert(run_steps(startup, false, regular).subrange(0, startup.len() as int)
        =~= Seq::new(startup.len(), |i: int| RunStep { slot: startup[i], startup: true }));
}

proof fn lemma_run_order_len(added: Seq<(i32, usize)>)
    ensures
        run_order(added).len() == added.len(),
        first_lower(run_order(added), 0) <= run_order(added).len(),
    decreases added.len(),
{
    if added.len() > 0 {
        lemma_run_order_len(added.drop_last());
        lemma_first_lower_bound(run_order(added.drop_last()), added.last().0);
    }
    lemma_first_lower_bound(run_order(added), 0);
}

proof fn lemma_first_lower_bound(s: Seq<(i32, usize)>, p: i32)
    ensures
        first_lower(s, p) <= s.len(),
        forall|j: int| 0 <= j < first_lower(s, p) ==> (#[trigger] s[j]).0 >= p,
        first_lower(s, p) < s.len() ==> s[first_lower(s, p) as int].0 < p,
    decreases s.len(),
{
    if s.len() > 0 && s[0].0 >= p {
        lemma_first_lower_bound(s.drop_first(), p);
        assert forall|j: int| 0 <= j < first_lower(s, p) implies (#[trigger] s[j]).0 >= p by {
            if j > 0 {
                assert(s[j] == s.drop_first()[j - 1]);
            }
        }
    }
}

} // verus!
