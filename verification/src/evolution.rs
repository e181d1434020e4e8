//! How traditions evolve over time: timelines of recorded positions, and
//! simulations that advance several traditions step by step.

use vstd::prelude::*;

verus! {

/// A timeline of tradition evolution.
pub struct EvolutionTimeline<P> {
    /// Name of the tradition.
    pub name: String,
    /// Positions at each time step.
    pub positions: Vec<P>,
    /// Time step labels.
    pub steps: Vec<u64>,
}

impl<P> EvolutionTimeline<P> {
    /// A timeline holds at least its initial position, and one step label per
    /// recorded position.
    pub open spec fn wf(&self) -> bool {
        &&& self.positions@.len() == self.steps@.len()
        &&& self.positions@.len() >= 1
    }

    /// The position recorded last.
    pub open spec fn last_position(&self) -> P {
        self.positions@.last()
    }

    /// Create a new timeline that starts at `initial`, at step 0.
    pub fn new(name: &str, initial: P) -> (t: Self)
        ensures
            t.wf(),
            t.name@ == name@,
            t.positions@ == seq![initial],
            t.steps@ == seq![0u64],
    {
        let mut positions: Vec<P> = Vec::new();
        positions.push(initial);
        let mut steps: Vec<u64> = Vec::new();
        steps.push(0);
        EvolutionTimeline { name: name.to_owned(), positions, steps }
    }

    /// Record a new position at a given step.
    pub fn record(&mut self, step: u64, position: P)
        ensures
            final(self).name == old(self).name,
            final(self).steps@ == old(self).steps@.push(step),
            final(self).positions@ == old(self).positions@.push(position),
    {
        self.steps.push(step);
        self.positions.push(position);
    }

    /// Current position: the one recorded last.
    pub fn current(&self) -> (r: &P)
        requires
            self.positions@.len() >= 1,
        ensures
            *r == self.last_position(),
    {
        let n = self.positions.len();
        &self.positions[n - 1]
    }
}

/// Recording a position makes it the current one and keeps the timeline well
/// formed.
pub proof fn lemma_record_then_current<P>(before: EvolutionTimeline<P>, after: EvolutionTimeline<P>, step: u64, position: P)
    requires
        before.wf(),
        after.steps@ == before.steps@.push(step),
        after.positions@ == before.positions@.push(position),
    ensures
        after.wf(),
        after.last_position() == position,
        after.steps@.len() == before.steps@.len() + 1,
{
}

/// The step labels of a simulation of `n` steps: 0, 1, ..., n.
pub open spec fn step_labels(n: nat) -> Seq<u64> {
    Seq::new(n + 1, |k: int| k as u64)
}

/// Timeline `t` records a run of `n` steps of `advance` for tradition `i`,
/// starting at `start`: position `s + 1` is what `advance` gives for
/// tradition `i` at position `s`.
pub open spec fn is_run<P, F: Fn(usize, P) -> P>(t: EvolutionTimeline<P>, i: usize, start: P, n: nat, advance: F) -> bool {
    &&& t.wf()
    &&& t.steps@ == step_labels(n)
    &&& t.positions@.len() == n + 1
    &&& t.positions@[0] == start
    &&& forall|s: int| 0 <= s < n ==> call_ensures(advance, (i, t.positions@[s]), #[trigger] t.positions@[s + 1])
}

/// Simulates `steps` steps of evolution for several traditions at once.
///
/// Timeline `i` is named `names[i]` and starts at `initial[i]` at step 0. At
/// each step `s` from 1 to `steps`, every tradition in turn moves from its
/// current position `p` to `advance(i, p)`, which is recorded at step `s`.
pub fn simulate<P: Copy, F: Fn(usize, P) -> P>(
    names: &Vec<String>,
    initial: &Vec<P>,
    steps: u64,
    advance: F,
) -> (r: Vec<EvolutionTimeline<P>>)
    requires
        names.len() == initial.len(),
        forall|i: usize, p: P| #[trigger] call_requires(advance, (i, p)),
    ensures
        r.len() == initial.len(),
        forall|i: int| 0 <= i < r.len() ==> {
            &&& (#[trigger] r@[i]).name@ == names@[i]@
            &&& is_run(r@[i], i as usize, initial@[i], steps as nat, advance)
        },
{
    let n = initial.len();
    let mut timelines: Vec<EvolutionTimeline<P>> = Vec::new();
    let mut current: Vec<P> = Vec::new();
    let mut i: usize = 0;
    while i < n
        invariant
            i <= n,
            n == initial.len(),
            names.len() == n,
            timelines.len() == i,
            current.len() == i,
            forall|j: int| 0 <= j < i ==> {
                &&& (#[trigger] timelines@[j]).name@ == names@[j]@
                &&& is_run(timelines@[j], j as usize, initial@[j], 0, advance)
                &&& current@[j] == initial@[j]
            },
        decreases n - i,
    {
        let t = EvolutionTimeline::new(names[i].as_str(), initial[i]);
        assert(t.steps@ =~= step_labels(0));
        timelines.push(t);
        current.push(initial[i]);
        i += 1;
    }
    let mut s: u64 = 0;
    while s < steps
        invariant
            s <= steps,
            n == initial.len(),
            names.len() == n,
            timelines.len() == n,
            current.len() == n,
            forall|i: usize, p: P| #[trigger] call_requires(advance, (i, p)),
            forall|j: int| 0 <= j < n ==> {
                &&& (#[trigger] timelines@[j]).name@ == names@[j]@
                &&& is_run(timelines@[j], j as usize, initial@[j], s as nat, advance)
                &&& current@[j] == timelines@[j].last_position()
            },
        decreases steps - s,
    {
        s += 1;
        let mut j: usize = 0;
        while j < n
            invariant
                1 <= s <= steps,
                j <= n,
                n == initial.len(),
                names.len() == n,
                timelines.len() == n,
                current.len() == n,
                forall|i: usize, p: P| #[trigger] call_requires(advance, (i, p)),
                forall|m: int| 0 <= m < j ==> {
                    &&& (#[trigger] timelines@[m]).name@ == names@[m]@
                    &&& is_run(timelines@[m], m as usize, initial@[m], s as nat, advance)
                    &&& current@[m] == timelines@[m].last_position()
                },
                forall|m: int| j <= m < n ==> {
                    &&& (#[trigger] timelines@[m]).name@ == names@[m]@
                    &&& is_run(timelines@[m], m as usize, initial@[m], (s - 1) as nat, advance)
                    &&& current@[m] == timelines@[m].last_position()
                },
            decreases n - j,
        {
            let ghost old_t = timelines@[j as int];
            let next = advance(j, current[j]);
            current.set(j, next);
            timelines[j].record(s, next);
            proof {
                let t = timelines@[j as int];
                assert(t.steps@ =~= step_labels(s as nat));
                assert forall|k: int| 0 <= k < s implies call_ensures(advance, (j, t.positions@[k]), #[trigger] t.positions@[k + 1]) by {
                    if k < s - 1 {
                        assert(t.positions@[k] == old_t.positions@[k]);
                        assert(t.positions@[k + 1] == old_t.positions@[k + 1]);
                    }
                }
            }
            j += 1;
        }
    }
    timelines
}

} // verus!
