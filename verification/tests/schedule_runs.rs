use vbd_strand::schedule::{ClockParams, SimAction, SimClock};
use vbd_strand::schedule::SimAction::{FinishFrame, Finished, ForwardStep, SaveOutput, Solve, UpdateVelocity};

fn run(params: ClockParams, limit: usize) -> Vec<SimAction> {
    let mut clock = SimClock::new(params);
    let mut out = Vec::new();
    for _ in 0..limit {
        out.push(clock.next_action());
    }
    out
}

#[test]
fn accelerated_run_follows_the_loop_nest() {
    let p = ClockParams { num_frames: 3, substeps: 1, num_iterations: 2, use_acceleration: true };
    let actions = run(p, 14);
    let expected = vec![
        SaveOutput { frame: 0 },
        ForwardStep { frame: 1, step: 0 },
        Solve { frame: 1, step: 0, iteration: 0, accelerator_order: Some(1) },
        Solve { frame: 1, step: 0, iteration: 1, accelerator_order: Some(2) },
        UpdateVelocity { frame: 1, step: 0 },
        FinishFrame { frame: 1 },
        ForwardStep { frame: 2, step: 0 },
        Solve { frame: 2, step: 0, iteration: 0, accelerator_order: Some(1) },
        Solve { frame: 2, step: 0, iteration: 1, accelerator_order: Some(2) },
        UpdateVelocity { frame: 2, step: 0 },
        FinishFrame { frame: 2 },
        Finished,
        Finished,
        Finished,
    ];
    assert_eq!(actions, expected);
}

#[test]
fn substeps_repeat_within_a_frame() {
    let p = ClockParams { num_frames: 2, substeps: 2, num_iterations: 1, use_acceleration: false };
    assert_eq!(
        run(p, 9),
        vec![
            SaveOutput { frame: 0 },
            ForwardStep { frame: 1, step: 0 },
            Solve { frame: 1, step: 0, iteration: 0, accelerator_order: None },
            UpdateVelocity { frame: 1, step: 0 },
            ForwardStep { frame: 1, step: 1 },
            Solve { frame: 1, step: 1, iteration: 0, accelerator_order: None },
            UpdateVelocity { frame: 1, step: 1 },
            FinishFrame { frame: 1 },
            Finished,
        ]
    );
}

#[test]
fn no_frames_only_saves_the_initial_state() {
    let p = ClockParams { num_frames: 0, substeps: 1, num_iterations: 100, use_acceleration: false };
    assert_eq!(run(p, 3), vec![SimAction::SaveOutput { frame: 0 }, SimAction::Finished, SimAction::Finished]);
    let p = ClockParams { num_frames: 1, substeps: 1, num_iterations: 100, use_acceleration: false };
    assert_eq!(run(p, 2), vec![SimAction::SaveOutput { frame: 0 }, SimAction::Finished]);
}

#[test]
fn zero_substeps_only_finishes_frames() {
    let p = ClockParams { num_frames: 3, substeps: 0, num_iterations: 5, use_acceleration: true };
    assert_eq!(
        run(p, 4),
        vec![SaveOutput { frame: 0 }, FinishFrame { frame: 1 }, FinishFrame { frame: 2 }, Finished]
    );
}

#[test]
fn zero_iterations_goes_from_forward_step_to_update() {
    let p = ClockParams { num_frames: 2, substeps: 1, num_iterations: 0, use_acceleration: true };
    assert_eq!(
        run(p, 5),
        vec![
            SaveOutput { frame: 0 },
            ForwardStep { frame: 1, step: 0 },
            UpdateVelocity { frame: 1, step: 0 },
            FinishFrame { frame: 1 },
            Finished,
        ]
    );
}

#[test]
fn default_run_length_and_solver_count() {
    let p = ClockParams { num_frames: 300, substeps: 1, num_iterations: 100, use_acceleration: false };
    let mut clock = SimClock::new(p);
    let mut solves = 0usize;
    let mut saves = Vec::new();
    let mut n = 0usize;
    loop {
        match clock.next_action() {
            SimAction::Finished => break,
            SimAction::Solve { .. } => solves += 1,
            SimAction::SaveOutput { frame } | SimAction::FinishFrame { frame } => saves.push(frame),
            _ => {}
        }
        n += 1;
    }
    assert_eq!(n, 1 + 299 * (102 + 1));
    assert_eq!(solves, 299 * 100);
    assert_eq!(saves, (0..300).collect::<Vec<_>>());
}
