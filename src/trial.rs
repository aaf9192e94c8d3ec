//! The trial-sweep controller: counts trials within a pitch group, collects
//! one thrust sample per trial, hands out each completed group, and steps the
//! blade pitch until the terminal pitch is reached.
use vstd::prelude::*;

verus! {

/// Number of trials averaged into one logged row.
pub const TRIALS_PER_PITCH: usize = 8;

/// Blade pitch, in degrees, of the first group of trials.
pub const START_PITCH: u32 = 45;

/// Increase of the blade pitch, in degrees, after each completed group.
pub const PITCH_STEP: u32 = 5;

/// Pitch, in degrees, at which the sweep stops.
pub const TERMINAL_PITCH: u32 = 85;

/// The pitch values the sweep can hold: 45, 50, ..., 85 degrees.
pub open spec fn is_sweep_pitch(p: nat) -> bool {
    START_PITCH <= p <= TERMINAL_PITCH && (p - START_PITCH) % (PITCH_STEP as int) == 0
}

/// The sweep is over once the pitch reaches the terminal value.
pub open spec fn is_terminal(p: nat) -> bool {
    p == TERMINAL_PITCH
}

/// Trial index `t` and pitch `p` are a state the controller can be in.
pub open spec fn counters_ok(t: nat, p: nat) -> bool {
    &&& t < TRIALS_PER_PITCH
    &&& is_sweep_pitch(p)
    &&& is_terminal(p) ==> t == 0
}

/// The trial with index `t` is the last one of its group.
pub open spec fn completes_group(t: nat) -> bool {
    t + 1 == TRIALS_PER_PITCH
}

/// Trial index and pitch after one more trial ends; a finished sweep stays
/// where it is.
pub open spec fn step_counters(c: (nat, nat)) -> (nat, nat) {
    let (t, p) = c;
    if is_terminal(p) {
        (t, p)
    } else if completes_group(t) {
        (0, (p + PITCH_STEP) as nat)
    } else {
        ((t + 1) as nat, p)
    }
}

/// Trial index and pitch after `n` trials have ended, from a fresh controller.
pub open spec fn counters_after(n: nat) -> (nat, nat)
    decreases n,
{
    if n == 0 {
        (0, START_PITCH as nat)
    } else {
        step_counters(counters_after((n - 1) as nat))
    }
}

/// One ended trial keeps the counters valid; the pitch either stays or rises
/// by exactly one step, and it rises exactly when a group is completed, which
/// is also exactly when the trial index goes back to zero. The trial index
/// never reaches the group size.
pub proof fn lemma_step_counters(t: nat, p: nat)
    requires
        counters_ok(t, p),
    ensures
        counters_ok(step_counters((t, p)).0, step_counters((t, p)).1),
        step_counters((t, p)).1 == p || step_counters((t, p)).1 == p + PITCH_STEP,
        step_counters((t, p)).1 >= p,
        !is_terminal(p) ==> (step_counters((t, p)).1 == p + PITCH_STEP <==> completes_group(t)),
        !is_terminal(p) ==> (step_counters((t, p)).0 == 0 <==> completes_group(t)),
        step_counters((t, p)).0 < TRIALS_PER_PITCH,
{
}

/// While the sweep runs, the trial index cycles: after a trial it is the
/// next index modulo the group size, and it is back at zero exactly when the
/// trial completed a group, which is when a row is handed out.
pub proof fn lemma_trial_index_cycles(t: nat, p: nat)
    requires
        counters_ok(t, p),
        !is_terminal(p),
    ensures
        step_counters((t, p)).0 == (t + 1) % (TRIALS_PER_PITCH as nat),
        step_counters((t, p)).0 == 0 <==> completes_group(t),
        step_counters((t, p)).0 < TRIALS_PER_PITCH,
{
}

/// Over a whole run from a fresh controller: after `n` ended trials, with
/// `n` at most 64, the trial index is `n % 8` and the pitch is
/// `45 + 5 * (n / 8)`; the sweep has finished exactly when 64 trials (eight
/// groups, pitches 45 to 80) have ended, and nothing moves after that.
pub proof fn lemma_sweep_schedule(n: nat)
    ensures
        counters_ok(counters_after(n).0, counters_after(n).1),
        n <= 64 ==> counters_after(n) == (n % 8, (45 + 5 * (n / 8)) as nat),
        is_terminal(counters_after(n).1) <==> n >= 64,
        n >= 64 ==> counters_after(n) == (0nat, TERMINAL_PITCH as nat),
    decreases n,
{
    if n > 0 {
        let m = (n - 1) as nat;
        lemma_sweep_schedule(m);
        lemma_step_counters(counters_after(m).0, counters_after(m).1);
        if m < 64 {
            assert(m / 8 < 8);
            if m % 8 == 7 {
                assert(n % 8 == 0 && n / 8 == m / 8 + 1);
            } else {
                assert(n % 8 == m % 8 + 1 && n / 8 == m / 8);
            }
        }
    }
}

/// What the controller decided when a trial ended.
pub enum TrialStep<T> {
    /// The trial's thrust sample was stored; its group is still open.
    Recorded,
    /// The trial completed its group: `samples` are the group's thrust
    /// samples in trial order, the pitch moved up one step, and `finished`
    /// tells whether the sweep has now reached its terminal pitch.
    GroupComplete { samples: Vec<T>, finished: bool },
    /// The sweep had already finished; nothing changed.
    Halted,
}

/// Trial index, blade pitch and the thrust samples of the open group.
pub struct TrialController<T> {
    trial: usize,
    pitch: u32,
    samples: Vec<T>,
}

impl<T> TrialController<T> {
    /// Index of the running trial within its group.
    pub closed spec fn spec_trial(&self) -> nat {
        self.trial as nat
    }

    /// Blade pitch in degrees.
    pub closed spec fn spec_pitch(&self) -> nat {
        self.pitch as nat
    }

    /// Thrust samples of the trials of the open group, in order.
    pub closed spec fn spec_samples(&self) -> Seq<T> {
        self.samples@
    }

    /// One sample is stored for each ended trial of the open group.
    pub open spec fn wf(&self) -> bool {
        &&& counters_ok(self.spec_trial(), self.spec_pitch())
        &&& self.spec_samples().len() == self.spec_trial()
    }

    /// Trial index and pitch, as one state of the sweep.
    pub open spec fn spec_counters(&self) -> (nat, nat) {
        (self.spec_trial(), self.spec_pitch())
    }

    /// A controller at the first trial of the starting pitch.
    pub fn new() -> (c: Self)
        ensures
            c.wf(),
            c.spec_counters() == counters_after(0),
            c.spec_samples() == Seq::<T>::empty(),
    {
        TrialController { trial: 0, pitch: START_PITCH, samples: Vec::new() }
    }

    /// Ends the running trial, whose accumulated thrust is `thrust`.
    pub fn end_trial(&mut self, thrust: T) -> (step: TrialStep<T>)
        requires
            old(self).wf(),
        ensures
            final(self).wf(),
            final(self).spec_counters() == step_counters(old(self).spec_counters()),
            is_terminal(old(self).spec_pitch()) ==> {
                &&& step is Halted
                &&& final(self).spec_samples() == old(self).spec_samples()
            },
            !is_terminal(old(self).spec_pitch()) && !completes_group(old(self).spec_trial()) ==> {
                &&& step is Recorded
                &&& final(self).spec_samples() == old(self).spec_samples().push(thrust)
            },
            !is_terminal(old(self).spec_pitch()) && completes_group(old(self).spec_trial()) ==> {
                &&& step matches TrialStep::GroupComplete { samples, finished }
                    && samples@ == old(self).spec_samples().push(thrust)
                    && samples@.len() == TRIALS_PER_PITCH
                    && finished == is_terminal(final(self).spec_pitch())
                &&& final(self).spec_samples() == Seq::<T>::empty()
            },
    {
        if self.pitch == TERMINAL_PITCH {
            return TrialStep::Halted;
        }
        self.samples.push(thrust);
        self.trial = self.trial + 1;
        if self.trial < TRIALS_PER_PITCH {
            return TrialStep::Recorded;
        }
        let mut samples: Vec<T> = Vec::new();
        std::mem::swap(&mut samples, &mut self.samples);
        self.trial = 0;
        self.pitch = self.pitch + PITCH_STEP;
        let finished = self.pitch == TERMINAL_PITCH;
        TrialStep::GroupComplete { samples, finished }
    }

    /// Index of the running trial within its group.
    pub fn trial_index(&self) -> (r: usize)
        ensures
            r as nat == self.spec_trial(),
    {
        self.trial
    }

    /// Blade pitch in degrees.
    pub fn pitch(&self) -> (r: u32)
        ensures
            r as nat == self.spec_pitch(),
    {
        self.pitch
    }

    /// Whether the sweep has reached its terminal pitch.
    pub fn is_finished(&self) -> (r: bool)
        ensures
            r == is_terminal(self.spec_pitch()),
    {
        self.pitch == TERMINAL_PITCH
    }

    /// Thrust samples of the open group.
    pub fn samples(&self) -> (r: &Vec<T>)
        ensures
            r@ == self.spec_samples(),
    {
        &self.samples
    }
}

} // verus!
