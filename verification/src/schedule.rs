use vstd::prelude::*;

verus! {

/// The loop bounds of a simulation run.
#[derive(Clone, Copy, Debug)]
pub struct ClockParams {
    /// Frames are numbered `0..num_frames`; frame 0 is the initial state.
    pub num_frames: usize,
    /// Substeps per frame.
    pub substeps: usize,
    /// Solver iterations per substep.
    pub num_iterations: usize,
    /// Whether each solver iteration is followed by a Chebyshev acceleration.
    pub use_acceleration: bool,
}

impl Default for ClockParams {
    /// The default run: 300 frames of one substep and 100 solver iterations,
    /// without acceleration.
    fn default() -> (p: Self)
        ensures
            p.num_frames == 300,
            p.substeps == 1,
            p.num_iterations == 100,
            !p.use_acceleration,
    {
        ClockParams { num_frames: 300, substeps: 1, num_iterations: 100, use_acceleration: false }
    }
}

/// What the simulation does next.
#[derive(Debug, PartialEq, Eq, Structural)]
pub enum SimAction {
    /// Write the vertex positions of `frame`.
    SaveOutput { frame: usize },
    /// Start substep `step` of `frame`: gravity, inertia target, warm start.
    ForwardStep { frame: usize, step: usize },
    /// Solver iteration `iteration` of substep `step` of `frame`, followed,
    /// when `accelerator_order` is `Some(order)`, by a Chebyshev acceleration
    /// of that order.
    Solve { frame: usize, step: usize, iteration: usize, accelerator_order: Option<usize> },
    /// End substep `step` of `frame`: velocities from the position change.
    UpdateVelocity { frame: usize, step: usize },
    /// `frame` is finished: report it and write its vertex positions.
    FinishFrame { frame: usize },
    /// The run is over.
    Finished,
}

/// Number of actions of one substep: the forward step, the solver
/// iterations, the velocity update.
pub open spec fn substep_len(p: ClockParams) -> int {
    p.num_iterations + 2
}

/// Number of actions of one frame: its substeps and the frame's end.
pub open spec fn frame_len(p: ClockParams) -> int {
    p.substeps * substep_len(p) + 1
}

/// Number of frames that are simulated (frames `1..num_frames`).
pub open spec fn simulated_frames(p: ClockParams) -> int {
    if p.num_frames >= 1 {
        p.num_frames - 1
    } else {
        0
    }
}

/// Number of actions before the run is finished: the initial save, then
/// every simulated frame.
pub open spec fn run_len(p: ClockParams) -> int {
    1 + simulated_frames(p) * frame_len(p)
}

/// Position in a run of the first action of substep `step` of `frame`.
pub open spec fn substep_start(p: ClockParams, frame: int, step: int) -> int {
    1 + (frame - 1) * frame_len(p) + step * substep_len(p)
}

/// Position in a run of the end of `frame`.
pub open spec fn frame_end(p: ClockParams, frame: int) -> int {
    1 + (frame - 1) * frame_len(p) + p.substeps * substep_len(p)
}

/// The action at position `k` of a run: the initial save; then, for each
/// frame `1..num_frames`, for each substep, a forward step, the solver
/// iterations and a velocity update, and after the substeps the end of the
/// frame; and after that the end of the run.
pub open spec fn planned_action(p: ClockParams, k: int) -> SimAction {
    let sl = substep_len(p);
    let fl = frame_len(p);
    if k == 0 {
        SimAction::SaveOutput { frame: 0 }
    } else if k < 0 || k >= run_len(p) {
        SimAction::Finished
    } else {
        let q = k - 1;
        let frame = (q / fl + 1) as usize;
        let r = q % fl;
        if r == p.substeps * sl {
            SimAction::FinishFrame { frame }
        } else {
            let step = (r / sl) as usize;
            let t = r % sl;
            if t == 0 {
                SimAction::ForwardStep { frame, step }
            } else if t == sl - 1 {
                SimAction::UpdateVelocity { frame, step }
            } else {
                SimAction::Solve {
                    frame,
                    step,
                    iteration: (t - 1) as usize,
                    accelerator_order: if p.use_acceleration {
                        Some(t as usize)
                    } else {
                        None
                    },
                }
            }
        }
    }
}

proof fn lemma_mul_le(a: int, b: int, c: int)
    by (nonlinear_arith)
    requires
        0 <= a <= b,
        0 <= c,
    ensures
        a * c <= b * c,
{
}

/// Within a simulated frame, each substep is a forward step, then solver
/// iterations `0..num_iterations` (each accelerated with order
/// `iteration + 1` when acceleration is on), then a velocity update.
pub proof fn lemma_substep_actions(p: ClockParams, frame: int, step: int, t: int)
    requires
        1 <= frame < p.num_frames,
        0 <= step < p.substeps,
        0 <= t < p.num_iterations + 2,
    ensures
        substep_start(p, frame, step) == 1 + (frame - 1) * (p.substeps * (p.num_iterations + 2)
            + 1) + step * (p.num_iterations + 2),
        0 < substep_start(p, frame, step) + t < run_len(p),
        planned_action(p, substep_start(p, frame, step) + t) == if t == 0 {
            SimAction::ForwardStep { frame: frame as usize, step: step as usize }
        } else if t == p.num_iterations + 1 {
            SimAction::UpdateVelocity { frame: frame as usize, step: step as usize }
        } else {
            SimAction::Solve {
                frame: frame as usize,
                step: step as usize,
                iteration: (t - 1) as usize,
                accelerator_order: if p.use_acceleration {
                    Some(t as usize)
                } else {
                    None
                },
            }
        },
{
    let sl = substep_len(p);
    let fl = frame_len(p);
    let r = step * sl + t;
    lemma_mul_le(step, p.substeps - 1, sl);
    assert((p.substeps - 1) * sl == p.substeps * sl - sl) by (nonlinear_arith);
    assert(0 <= r < p.substeps * sl);
    let k = substep_start(p, frame, step) + t;
    assert(k - 1 == (frame - 1) * fl + r);
    vstd::arithmetic::div_mod::lemma_fundamental_div_mod_converse(k - 1, fl, frame - 1, r);
    vstd::arithmetic::div_mod::lemma_fundamental_div_mod_converse(r, sl, step, t);
    lemma_mul_le(frame, p.num_frames - 1, fl);
    assert(frame * fl == (frame - 1) * fl + fl) by (nonlinear_arith);
    assert(0 <= (frame - 1) * fl) by (nonlinear_arith)
        requires
            frame >= 1,
            fl >= 1,
    ;
}

/// Each simulated frame ends, after its substeps, with the end of the frame,
/// and the next action is the first one of the next frame (or the end of
/// the run after the last frame).
pub proof fn lemma_frame_end_action(p: ClockParams, frame: int)
    requires
        1 <= frame < p.num_frames,
    ensures
        frame_end(p, frame) == frame * (p.substeps * (p.num_iterations + 2) + 1),
        0 < frame_end(p, frame) < run_len(p),
        planned_action(p, frame_end(p, frame)) == (SimAction::FinishFrame { frame: frame as usize }),
        frame_end(p, frame) + 1 == substep_start(p, frame + 1, 0),
        frame + 1 == p.num_frames ==> frame_end(p, frame) + 1 == run_len(p),
{
    let sl = substep_len(p);
    let fl = frame_len(p);
    let r = p.substeps * sl;
    let k = frame_end(p, frame);
    assert(k - 1 == (frame - 1) * fl + r);
    lemma_mul_le(0, p.substeps as int, sl);
    vstd::arithmetic::div_mod::lemma_fundamental_div_mod_converse(k - 1, fl, frame - 1, r);
    lemma_mul_le(frame, p.num_frames - 1, fl);
    assert(frame * fl == (frame - 1) * fl + fl) by (nonlinear_arith);
    assert(0 <= (frame - 1) * fl) by (nonlinear_arith)
        requires
            frame >= 1,
            fl >= 1,
    ;
}

proof fn lemma_first_substep_start(p: ClockParams)
    ensures
        substep_start(p, 1, 0) == 1,
{
    assert((1 - 1) * frame_len(p) == 0) by (nonlinear_arith);
    assert(0 * substep_len(p) == 0) by (nonlinear_arith);
}

/// Number of solver iterations among the first `k` actions of a run.
pub open spec fn solves_before(p: ClockParams, k: int) -> int
    decreases k,
{
    if k <= 0 {
        0
    } else {
        solves_before(p, k - 1) + if planned_action(p, k - 1) is Solve {
            1int
        } else {
            0int
        }
    }
}

proof fn lemma_solves_in_substep(p: ClockParams, frame: int, step: int, t: int)
    requires
        1 <= frame < p.num_frames,
        0 <= step < p.substeps,
        0 <= t <= substep_len(p),
    ensures
        solves_before(p, substep_start(p, frame, step) + t) == solves_before(
            p,
            substep_start(p, frame, step),
        ) + if t == 0 {
            0
        } else if t - 1 <= p.num_iterations {
            t - 1
        } else {
            p.num_iterations as int
        },
    decreases t,
{
    if t > 0 {
        lemma_solves_in_substep(p, frame, step, t - 1);
        lemma_substep_actions(p, frame, step, t - 1);
    }
}

proof fn lemma_solves_in_frame(p: ClockParams, frame: int, step: int)
    requires
        1 <= frame < p.num_frames,
        0 <= step <= p.substeps,
    ensures
        solves_before(p, substep_start(p, frame, step)) == solves_before(
            p,
            substep_start(p, frame, 0),
        ) + step * p.num_iterations,
    decreases step,
{
    if step > 0 {
        lemma_solves_in_frame(p, frame, step - 1);
        lemma_solves_in_substep(p, frame, step - 1, substep_len(p));
        let sl = substep_len(p);
        assert(step * sl == (step - 1) * sl + sl) by (nonlinear_arith);
        assert(substep_start(p, frame, step) == substep_start(p, frame, step - 1) + sl);
        assert(step * p.num_iterations == (step - 1) * p.num_iterations + p.num_iterations)
            by (nonlinear_arith);
    } else {
        assert(0 * p.num_iterations == 0) by (nonlinear_arith);
    }
}

proof fn lemma_solves_before_frame(p: ClockParams, frame: int)
    requires
        1 <= frame <= p.num_frames,
    ensures
        solves_before(p, substep_start(p, frame, 0)) == (frame - 1) * (p.substeps
            * p.num_iterations),
    decreases frame,
{
    if frame == 1 {
        assert(solves_before(p, 0) == 0);
        assert(planned_action(p, 0) is SaveOutput);
        lemma_first_substep_start(p);
    } else {
        let f = frame - 1;
        lemma_solves_before_frame(p, f);
        lemma_solves_in_frame(p, f, p.substeps as int);
        lemma_frame_end_action(p, f);
        assert(substep_start(p, f, p.substeps as int) == frame_end(p, f));
        assert(f * (p.substeps * p.num_iterations) == (f - 1) * (p.substeps * p.num_iterations)
            + p.substeps * p.num_iterations) by (nonlinear_arith);
    }
}

/// A run performs `num_iterations` solver iterations in each substep of each
/// simulated frame, and no other: `(num_frames - 1) * substeps *
/// num_iterations` of them in all (none when there are fewer than two
/// frames).
pub proof fn lemma_total_solves(p: ClockParams)
    ensures
        solves_before(p, run_len(p)) == simulated_frames(p) * (p.substeps * p.num_iterations),
{
    if p.num_frames >= 1 {
        lemma_solves_before_frame(p, p.num_frames as int);
        assert(substep_start(p, p.num_frames as int, 0) == run_len(p));
    } else {
        assert(run_len(p) == 1);
        assert(solves_before(p, 0) == 0);
        assert(planned_action(p, 0) is SaveOutput);
    }
}

/// A run starts by saving the initial state as frame 0, whatever its loop
/// bounds.
pub proof fn lemma_run_starts_with_initial_save(p: ClockParams)
    ensures
        planned_action(p, 0) == (SimAction::SaveOutput { frame: 0 }),
{
}

/// Once the initial save and every frame `1..num_frames` (each of
/// `substeps * (num_iterations + 2) + 1` actions) are done, the run is over:
/// every further action is `Finished`.
pub proof fn lemma_run_ends_finished(p: ClockParams, k: int)
    requires
        k >= 1 + (if p.num_frames >= 1 {
            p.num_frames - 1
        } else {
            0
        }) * (p.substeps * (p.num_iterations + 2) + 1),
    ensures
        planned_action(p, k) == SimAction::Finished,
{
    assert(k >= run_len(p));
    if k == 0 {
        assert((if p.num_frames >= 1 { p.num_frames - 1 } else { 0 }) * (p.substeps * (
        p.num_iterations + 2) + 1) >= 0) by (nonlinear_arith)
            requires
                p.num_frames >= 0,
                p.substeps >= 0,
                p.num_iterations >= 0,
        ;
    }
}

/// Which action a clock emits next.
enum Pending {
    InitialSave,
    Forward,
    Solve,
    Update,
    FinishFrame,
    Done,
}

/// The position of a simulation run: the current frame, substep and solver
/// iteration, and the action that comes next.
pub struct SimClock {
    params: ClockParams,
    frame_id: usize,
    step: usize,
    iter: usize,
    pending: Pending,
}

impl SimClock {
    pub closed spec fn params(&self) -> ClockParams {
        self.params
    }

    /// The clock's position in the run: the number of actions emitted so far
    /// (the run's length once it is finished).
    pub closed spec fn position(&self) -> int {
        let p = self.params;
        match self.pending {
            Pending::InitialSave => 0,
            Pending::Forward => substep_start(p, self.frame_id as int, self.step as int),
            Pending::Solve => substep_start(p, self.frame_id as int, self.step as int) + 1
                + self.iter,
            Pending::Update => substep_start(p, self.frame_id as int, self.step as int)
                + p.num_iterations + 1,
            Pending::FinishFrame => frame_end(p, self.frame_id as int),
            Pending::Done => run_len(p),
        }
    }

    #[verifier::type_invariant]
    spec fn wf(&self) -> bool {
        let p = self.params;
        match self.pending {
            Pending::InitialSave => self.frame_id == 0,
            Pending::Forward => 1 <= self.frame_id < p.num_frames && self.step < p.substeps,
            Pending::Solve => 1 <= self.frame_id < p.num_frames && self.step < p.substeps
                && self.iter < p.num_iterations,
            Pending::Update => 1 <= self.frame_id < p.num_frames && self.step < p.substeps,
            Pending::FinishFrame => 1 <= self.frame_id < p.num_frames,
            Pending::Done => true,
        }
    }

    /// A clock at the start of a run with the given loop bounds.
    pub fn new(params: ClockParams) -> (c: Self)
        ensures
            c.params() == params,
            c.position() == 0,
    {
        SimClock { params, frame_id: 0, step: 0, iter: 0, pending: Pending::InitialSave }
    }

    /// Emits the next action of the run and moves past it.  Called on a
    /// fresh clock over and over, it returns `planned_action(params, 0)`,
    /// `planned_action(params, 1)`, ...: the initial save, then for every
    /// frame `1..num_frames` each substep's forward step, solver iterations
    /// and velocity update followed by the frame's end, and then `Finished`
    /// on every further call.
    pub fn next_action(&mut self) -> (action: SimAction)
        ensures
            final(self).params() == old(self).params(),
            0 <= old(self).position() <= run_len(old(self).params()),
            action == planned_action(old(self).params(), old(self).position()),
            final(self).position() == if old(self).position() < run_len(old(self).params()) {
                old(self).position() + 1
            } else {
                old(self).position()
            },
    {
        proof {
            use_type_invariant(&*self);
        }
        let ghost p = self.params;
        let params = self.params;
        let num_frames = params.num_frames;
        let substeps = params.substeps;
        let num_iterations = params.num_iterations;
        let frame = self.frame_id;
        let step = self.step;
        let iter = self.iter;
        let (action, next) = match self.pending {
            Pending::InitialSave => {
                proof {
                    lemma_mul_le(0, p.substeps as int, substep_len(p));
                    lemma_first_substep_start(p);
                }
                let action = SimAction::SaveOutput { frame };
                let next = if 1 < num_frames {
                    SimClock {
                        params,
                        frame_id: 1,
                        step: 0,
                        iter,
                        pending: if 0 < substeps {
                            Pending::Forward
                        } else {
                            Pending::FinishFrame
                        },
                    }
                } else {
                    SimClock { params, frame_id: frame, step, iter, pending: Pending::Done }
                };
                (action, next)
            },
            Pending::Forward => {
                proof {
                    lemma_substep_actions(p, frame as int, step as int, 0);
                }
                let action = SimAction::ForwardStep { frame, step };
                let next = if 0 < num_iterations {
                    SimClock { params, frame_id: frame, step, iter: 0, pending: Pending::Solve }
                } else {
                    SimClock { params, frame_id: frame, step, iter, pending: Pending::Update }
                };
                (action, next)
            },
            Pending::Solve => {
                proof {
                    lemma_substep_actions(p, frame as int, step as int, iter + 1);
                }
                let order = iter + 1;
                let action = SimAction::Solve {
                    frame,
                    step,
                    iteration: iter,
                    accelerator_order: if params.use_acceleration {
                        Some(order)
                    } else {
                        None
                    },
                };
                let next = if order < num_iterations {
                    SimClock { params, frame_id: frame, step, iter: order, pending: Pending::Solve }
                } else {
                    SimClock { params, frame_id: frame, step, iter, pending: Pending::Update }
                };
                (action, next)
            },
            Pending::Update => {
                proof {
                    lemma_substep_actions(p, frame as int, step as int, num_iterations + 1);
                    let sl = substep_len(p);
                    assert((step + 1) * sl == step * sl + sl) by (nonlinear_arith);
                }
                let action = SimAction::UpdateVelocity { frame, step };
                let next = if step + 1 < substeps {
                    SimClock {
                        params,
                        frame_id: frame,
                        step: step + 1,
                        iter,
                        pending: Pending::Forward,
                    }
                } else {
                    SimClock { params, frame_id: frame, step, iter, pending: Pending::FinishFrame }
                };
                (action, next)
            },
            Pending::FinishFrame => {
                proof {
                    lemma_frame_end_action(p, frame as int);
                    lemma_mul_le(0, p.substeps as int, substep_len(p));
                }
                let action = SimAction::FinishFrame { frame };
                let next = if frame + 1 < num_frames {
                    SimClock {
                        params,
                        frame_id: frame + 1,
                        step: 0,
                        iter,
                        pending: if 0 < substeps {
                            Pending::Forward
                        } else {
                            Pending::FinishFrame
                        },
                    }
                } else {
                    SimClock { params, frame_id: frame, step, iter, pending: Pending::Done }
                };
                (action, next)
            },
            Pending::Done => (
                SimAction::Finished,
                SimClock { params, frame_id: frame, step, iter, pending: Pending::Done },
            ),
        };
        *self = next;
        action
    }
}

} // verus!
