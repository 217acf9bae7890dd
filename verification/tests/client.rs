use nevy_prediction::client::prediction::{
    drain_prediction_updates, queue_prediction_updates, reset_prediction_updates,
    run_prediction_world, step_prediction_world, LastPredictedTick, PredictionAction,
    PredictionUpdates, PredictionWorld, PredictionWorldState,
};
use nevy_prediction::client::simulation_world::SimulationWorld;
use nevy_prediction::client::template_world::{
    receive_time_updates, receive_world_updates, run_template_world, ServerTickSamples,
    TemplateWorld, SERVER_TIME_ESTIMATE_SAMPLES,
};
use nevy_prediction::client::{
    client_frame_order, drive_simulation_time, receive_reset_simulations, reset_simulations,
    ClientSimulationSystems, PredictionBudget, PredictionInterval, PredictionUpdateCreator,
    Received,
};
use nevy_prediction::common::scheme::StepInterval;
use nevy_prediction::common::simulation::update_queue::{
    UpdateExecutionQueue, WorldUpdate, WorldUpdateQueue,
};
use nevy_prediction::common::simulation::{SimulationTick, SimulationTime};
use nevy_prediction::common::{ResetClientSimulation, ServerWorldUpdate, UpdateServerTick};

const MILLI: u64 = 1_000_000;
const SECOND: u64 = 1_000_000_000;

fn fifty() -> StepInterval {
    StepInterval::from_millis(50).unwrap()
}

fn tick(tick: u32) -> SimulationTick {
    SimulationTick(tick)
}

fn clock_at(at: u32) -> SimulationTime {
    SimulationTime::from_tick(tick(at), fifty())
}

fn update(at: u32, name: &'static str) -> WorldUpdate<&'static str> {
    WorldUpdate { tick: tick(at), update: name }
}

fn contents(queue: &WorldUpdateQueue<&'static str>) -> Vec<(u32, &'static str)> {
    (0..queue.len())
        .map(|index| {
            let update = queue.get(index).unwrap();
            (update.tick.0, update.update)
        })
        .collect()
}

fn template_at(at: u32) -> TemplateWorld {
    let mut template = TemplateWorld::build(fifty());
    template.0.run(at);
    template
}

fn budget(template: u32, prediction: u32) -> PredictionBudget {
    PredictionBudget { template, prediction }
}

#[test]
fn samples_start_empty_with_the_default_capacity() {
    let samples = ServerTickSamples::default();
    assert_eq!(samples.len(), 0);
    assert_eq!(samples.latest(), tick(0));
    assert_eq!(samples.estimated_time(fifty(), 5 * SECOND), 0);
    assert_eq!(SERVER_TIME_ESTIMATE_SAMPLES, 32);
}

#[test]
fn push_records_the_latest_tick() {
    let mut samples = ServerTickSamples::default();
    samples.push(100, tick(4));
    samples.push(200, tick(9));
    assert_eq!(samples.latest(), tick(9));
    assert_eq!(samples.len(), 2);
    samples.push(300, tick(7));
    assert_eq!(samples.latest(), tick(7));
}

#[test]
fn the_buffer_never_holds_more_than_32_samples() {
    let mut samples = ServerTickSamples::default();
    for index in 0..100u32 {
        samples.push(index as u64, tick(index));
        assert!(samples.len() <= 32);
    }
    assert_eq!(samples.len(), 32);
    // The samples for ticks 68 to 99 are left; at time 99 each says
    // tick * 50 ms + (99 - tick) ns.
    let mean_tick_times_two = 68 + 99;
    let expected = (mean_tick_times_two as u128) * (50 * MILLI as u128) / 2
        + ((0..32u128).sum::<u128>() / 32);
    assert_eq!(samples.estimated_time(fifty(), 99), expected);
}

#[test]
fn a_full_buffer_drops_its_oldest_sample() {
    let mut samples = ServerTickSamples::with_capacity(2);
    samples.push(0, tick(100));
    samples.push(0, tick(2));
    samples.push(0, tick(4));
    assert_eq!(samples.len(), 2);
    assert_eq!(samples.estimated_time(fifty(), 0), 3 * 50 * MILLI as u128);
}

#[test]
fn a_buffer_without_room_keeps_only_the_latest_tick() {
    let mut samples = ServerTickSamples::with_capacity(0);
    samples.push(10, tick(5));
    assert_eq!(samples.len(), 0);
    assert_eq!(samples.latest(), tick(5));
    assert_eq!(samples.estimated_time(fifty(), 20), 0);
}

#[test]
fn the_estimate_is_the_mean_of_what_the_samples_say() {
    let mut samples = ServerTickSamples::default();
    samples.push(100, tick(2));
    samples.push(400, tick(4));
    // (2 * 50 ms + 900 ns + 4 * 50 ms + 600 ns) / 2
    assert_eq!(samples.estimated_time(fifty(), 1000), 150_000_750);
}

#[test]
fn the_estimate_rounds_down() {
    let mut samples = ServerTickSamples::default();
    let step = StepInterval::from_nanos(1).unwrap();
    samples.push(0, tick(1));
    samples.push(0, tick(2));
    assert_eq!(samples.estimated_time(step, 0), 1);
}

#[test]
fn a_sample_from_the_future_counts_with_nothing_elapsed() {
    let mut samples = ServerTickSamples::default();
    samples.push(500, tick(2));
    assert_eq!(samples.estimated_time(fifty(), 100), 100_000_000);
}

#[test]
fn the_estimate_does_not_overflow_at_the_limits() {
    let mut samples = ServerTickSamples::with_capacity(u16::MAX);
    let step = StepInterval::from_nanos(u64::MAX).unwrap();
    for _ in 0..40 {
        samples.push(0, tick(u32::MAX));
    }
    assert_eq!(
        samples.estimated_time(step, u64::MAX),
        (u32::MAX as u128) * (u64::MAX as u128) + u64::MAX as u128
    );
}

#[test]
fn the_estimate_advances_with_the_local_clock() {
    let mut samples = ServerTickSamples::default();
    samples.push(100, tick(2));
    samples.push(400, tick(4));
    samples.push(450, tick(5));
    let mut last = samples.estimated_time(fifty(), 450);
    for now in [451u64, 460, 1_000, 5 * SECOND] {
        let estimate = samples.estimated_time(fifty(), now);
        assert!(estimate >= last);
        last = estimate;
    }
    let earlier = samples.estimated_time(fifty(), 450);
    assert_eq!(samples.estimated_time(fifty(), 450 + 7 * SECOND), earlier + 7 * SECOND as u128);
}

#[test]
fn server_tick_fan_out() {
    // A link without jitter: tick t arrives at (t * 50 + 20) ms.
    let mut samples = ServerTickSamples::default();
    let mut last = 0u128;
    for t in 0..200u32 {
        let now = (t as u64 * 50 + 20) * MILLI;
        receive_time_updates(&vec![UpdateServerTick { simulation_tick: tick(t) }], &mut samples, now);
        let estimate = samples.estimated_time(fifty(), now);
        assert_eq!(estimate, (t as u128) * 50 * MILLI as u128);
        assert!(estimate >= last);
        last = estimate;
        assert_eq!(samples.latest(), tick(t));
    }
}

#[test]
fn reset_wipes_the_samples_and_seeds_one() {
    let mut samples = ServerTickSamples::default();
    samples.push(100, tick(2));
    samples.push(400, tick(4));
    samples.reset(1000, tick(50));
    assert_eq!(samples.len(), 1);
    assert_eq!(samples.latest(), tick(50));
    assert_eq!(samples.estimated_time(fifty(), 1000), 2_500_000_000);
}

#[test]
fn time_updates_are_recorded_in_order() {
    let mut samples = ServerTickSamples::default();
    receive_time_updates(
        &vec![
            UpdateServerTick { simulation_tick: tick(3) },
            UpdateServerTick { simulation_tick: tick(4) },
        ],
        &mut samples,
        700,
    );
    assert_eq!(samples.len(), 2);
    assert_eq!(samples.latest(), tick(4));
    assert_eq!(samples.estimated_time(fifty(), 700), 175_000_000);
    receive_time_updates(&vec![], &mut samples, 900);
    assert_eq!(samples.len(), 2);
}

#[test]
fn the_main_clock_is_driven_to_the_estimate_plus_the_interval() {
    let mut samples = ServerTickSamples::default();
    samples.push(0, tick(10));
    let mut time = clock_at(10);
    // The server is taken to stand at 500 ms; a second ahead is tick 30.
    let queued = drive_simulation_time(&samples, PredictionInterval(SECOND), &mut time, 0);
    assert_eq!(queued, 20);
    assert_eq!(time.target_tick(), tick(30));
    assert_eq!(time.current_tick(), tick(10));
    // 49 ms later no whole step has passed.
    assert_eq!(drive_simulation_time(&samples, PredictionInterval(SECOND), &mut time, 49 * MILLI), 0);
    assert_eq!(time.target_tick(), tick(30));
    // At 50 ms one has.
    assert_eq!(drive_simulation_time(&samples, PredictionInterval(SECOND), &mut time, 50 * MILLI), 1);
    assert_eq!(time.target_tick(), tick(31));
}

#[test]
fn the_target_of_the_main_clock_never_retreats() {
    let mut samples = ServerTickSamples::default();
    samples.push(0, tick(10));
    let mut time = clock_at(10);
    time.queue_ticks(90);
    assert_eq!(drive_simulation_time(&samples, PredictionInterval(SECOND), &mut time, 0), 0);
    assert_eq!(time.target_tick(), tick(100));
    assert_eq!(
        drive_simulation_time(&ServerTickSamples::default(), PredictionInterval(0), &mut time, 0),
        0
    );
    assert_eq!(time.target_tick(), tick(100));
}

#[test]
fn the_main_clock_stops_at_the_last_tick() {
    let mut samples = ServerTickSamples::default();
    samples.push(0, tick(u32::MAX));
    let mut time = clock_at(u32::MAX - 3);
    let queued = drive_simulation_time(&samples, PredictionInterval(u64::MAX), &mut time, SECOND);
    assert_eq!(queued, 3);
    assert_eq!(time.target_tick(), tick(u32::MAX));
}

#[test]
fn the_last_reset_from_the_server_counts() {
    let reset = |from_server, at| Received {
        from_server,
        message: ResetClientSimulation { simulation_tick: tick(at) },
    };
    assert_eq!(receive_reset_simulations(&vec![]), None);
    assert_eq!(receive_reset_simulations(&vec![reset(false, 5)]), None);
    assert_eq!(receive_reset_simulations(&vec![reset(true, 5)]), Some(tick(5)));
    assert_eq!(
        receive_reset_simulations(&vec![reset(true, 5), reset(true, 9), reset(false, 2)]),
        Some(tick(9))
    );
}

struct Client {
    template: TemplateWorld,
    prediction: PredictionWorld,
    time: SimulationTime,
    last: LastPredictedTick,
    budget: PredictionBudget,
    samples: ServerTickSamples,
}

impl Client {
    fn new() -> Client {
        Client {
            template: TemplateWorld::build(fifty()),
            prediction: PredictionWorld::new(fifty()),
            time: clock_at(0),
            last: LastPredictedTick::default(),
            budget: PredictionBudget::default(),
            samples: ServerTickSamples::default(),
        }
    }

    fn reset(&mut self, reset_tick: Option<SimulationTick>, interval: u64, now: u64) -> bool {
        reset_simulations(
            reset_tick,
            &mut self.template,
            &mut self.prediction,
            &mut self.time,
            PredictionInterval(interval),
            &mut self.budget,
            &mut self.samples,
            now,
        )
    }

    fn predict(&mut self) -> Vec<PredictionAction> {
        run_prediction_world(
            &mut self.prediction,
            &self.template,
            &mut self.time,
            &mut self.last,
            &mut self.budget,
        )
    }

    fn state(&self) -> (u32, u32, u32, PredictionWorldState, u32, u32, u32) {
        (
            self.template.0.time.current_tick().0,
            self.prediction.world.time.current_tick().0,
            self.time.current_tick().0,
            self.prediction.state,
            self.budget.template,
            self.budget.prediction,
            self.samples.latest().0,
        )
    }
}

#[test]
fn no_reset_changes_nothing() {
    let mut client = Client::new();
    client.template.0.run(7);
    client.budget = budget(3, 4);
    client.samples.push(5, tick(7));
    let before = client.state();
    assert!(!client.reset(None, SECOND, 99));
    assert_eq!(client.state(), before);
    assert_eq!(client.samples.len(), 1);
}

#[test]
fn a_reset_puts_the_worlds_at_the_tick_and_the_main_clock_ahead() {
    let mut client = Client::new();
    client.template.0.run(7);
    client.budget = budget(3, 4);
    client.samples.push(5, tick(7));
    client.samples.push(6, tick(8));
    assert!(client.reset(Some(tick(100)), SECOND, 2 * SECOND));
    assert_eq!(client.state(), (100, 100, 120, PredictionWorldState::Idle, 0, 0, 100));
    assert_eq!(client.time.target_tick(), tick(120));
    assert_eq!(client.template.0.time.target_tick(), tick(100));
    assert_eq!(client.prediction.world.time.target_tick(), tick(100));
    assert_eq!(client.samples.len(), 1);
    assert_eq!(client.samples.estimated_time(fifty(), 2 * SECOND), 5 * SECOND as u128);
}

#[test]
fn a_reset_near_the_last_tick_stops_there() {
    let mut client = Client::new();
    assert!(client.reset(Some(tick(u32::MAX - 5)), SECOND, 0));
    assert_eq!(client.time.current_tick(), tick(u32::MAX));
    assert_eq!(client.template.0.time.current_tick(), tick(u32::MAX - 5));
}

#[test]
fn resetting_twice_is_resetting_once() {
    let mut once = Client::new();
    once.template.0.run(7);
    once.budget = budget(3, 4);
    once.samples.push(5, tick(7));
    let mut twice = Client::new();
    twice.template.0.run(9);
    twice.samples.push(1, tick(1));
    once.reset(Some(tick(40)), SECOND, 77);
    twice.reset(Some(tick(40)), SECOND, 77);
    twice.reset(Some(tick(40)), SECOND, 77);
    assert_eq!(once.state(), twice.state());
    assert_eq!(once.samples.len(), twice.samples.len());
    assert_eq!(
        once.samples.estimated_time(fifty(), 100),
        twice.samples.estimated_time(fifty(), 100)
    );
    assert_eq!(once.time, twice.time);
    assert_eq!(once.template, twice.template);
    assert_eq!(once.prediction, twice.prediction);
}

#[test]
fn the_template_runs_to_the_latest_tick_within_its_budget() {
    let mut template = template_at(4);
    let mut samples = ServerTickSamples::default();
    samples.push(0, tick(10));
    let mut left = budget(3, 9);
    let executed = run_template_world(&mut left, &samples, &mut template);
    assert_eq!(executed, vec![tick(4), tick(5), tick(6)]);
    assert_eq!(template.0.time.current_tick(), tick(7));
    assert_eq!(left, budget(0, 9));
    // Without budget nothing runs; the rest is caught up in a later frame.
    assert!(run_template_world(&mut left, &samples, &mut template).is_empty());
    left = budget(10, 9);
    let executed = run_template_world(&mut left, &samples, &mut template);
    assert_eq!(executed, vec![tick(7), tick(8), tick(9)]);
    assert_eq!(template.0.time.current_tick(), tick(10));
    assert_eq!(template.0.time.target_tick(), tick(10));
    assert_eq!(left, budget(7, 9));
}

#[test]
fn the_template_does_not_run_when_it_is_not_behind() {
    let mut template = template_at(12);
    let mut samples = ServerTickSamples::default();
    samples.push(0, tick(10));
    let mut left = budget(5, 5);
    assert!(run_template_world(&mut left, &samples, &mut template).is_empty());
    assert_eq!(template.0.time.current_tick(), tick(12));
    assert_eq!(left, budget(5, 5));
}

#[test]
fn an_idle_prediction_waits_for_the_template_to_move() {
    let mut client = Client::new();
    client.template = template_at(5);
    client.last = LastPredictedTick(tick(5));
    client.time = clock_at(9);
    client.budget = budget(0, 10);
    assert!(client.predict().is_empty());
    assert_eq!(client.prediction.state, PredictionWorldState::Idle);
    assert_eq!(client.prediction.world.time.current_tick(), tick(0));
    assert_eq!(client.budget, budget(0, 10));
}

#[test]
fn a_prediction_starts_from_the_template_and_runs_to_the_main_tick() {
    let mut client = Client::new();
    client.template = template_at(10);
    client.time = clock_at(14);
    client.budget = budget(2, 10);
    assert_eq!(
        client.predict(),
        vec![
            PredictionAction::Start { from: tick(10) },
            PredictionAction::Run { ticks: 4 },
            PredictionAction::Finish,
        ]
    );
    assert_eq!(client.last, LastPredictedTick(tick(10)));
    assert_eq!(client.prediction.state, PredictionWorldState::Idle);
    assert_eq!(client.prediction.world.time.current_tick(), tick(14));
    assert_eq!(client.prediction.world.time.target_tick(), tick(14));
    assert_eq!(client.time.current_tick(), tick(14));
    assert_eq!(client.budget, budget(2, 6));
    assert_eq!(client.template.0.time.current_tick(), tick(10));
    // Nothing is left to do in this frame or the next, while nothing moves.
    assert!(client.predict().is_empty());
}

#[test]
fn a_prediction_without_budget_is_caught_up_in_later_frames() {
    let mut client = Client::new();
    client.template = template_at(10);
    client.time = clock_at(14);
    client.budget = budget(0, 3);
    assert_eq!(
        client.predict(),
        vec![PredictionAction::Start { from: tick(10) }, PredictionAction::Run { ticks: 3 }]
    );
    assert_eq!(client.prediction.state, PredictionWorldState::Running);
    assert_eq!(client.prediction.world.time.current_tick(), tick(13));
    assert_eq!(client.budget, budget(0, 0));
    assert_eq!(client.time.current_tick(), tick(14));
    // A frame without budget does nothing.
    assert!(client.predict().is_empty());
    assert_eq!(client.prediction.state, PredictionWorldState::Running);
    // The template has moved on meanwhile; the next frame finishes the old
    // prediction and runs a new one.
    client.template.0.run(1);
    client.budget = budget(0, 5);
    assert_eq!(
        client.predict(),
        vec![
            PredictionAction::Run { ticks: 1 },
            PredictionAction::Finish,
            PredictionAction::Start { from: tick(11) },
            PredictionAction::Run { ticks: 3 },
            PredictionAction::Finish,
        ]
    );
    assert_eq!(client.prediction.state, PredictionWorldState::Idle);
    assert_eq!(client.budget, budget(0, 1));
    assert_eq!(client.last, LastPredictedTick(tick(11)));
    assert_eq!(client.time.current_tick(), tick(14));
}

#[test]
fn a_prediction_that_is_not_behind_finishes_without_budget() {
    // Running, at the tick of the main world, nothing left in the budget.
    let mut client = Client::new();
    client.template = template_at(10);
    client.time = clock_at(14);
    client.budget = budget(0, 4);
    client.predict();
    assert_eq!(client.prediction.state, PredictionWorldState::Idle);
    client.prediction.state = PredictionWorldState::Running;
    client.budget = budget(0, 0);
    assert_eq!(
        client.predict(),
        vec![PredictionAction::Run { ticks: 0 }, PredictionAction::Finish]
    );
    assert_eq!(client.prediction.state, PredictionWorldState::Idle);
    assert_eq!(client.time.current_tick(), tick(14));
    assert_eq!(client.prediction.world.time.current_tick(), tick(14));
    assert_eq!(client.budget, budget(0, 0));
}

#[test]
fn a_prediction_from_a_template_at_the_main_tick_needs_no_budget() {
    // Idle, the template has moved, the main world is not ahead of it.
    let mut client = Client::new();
    client.template = template_at(10);
    client.time = clock_at(10);
    client.budget = budget(0, 0);
    assert_eq!(
        client.predict(),
        vec![
            PredictionAction::Start { from: tick(10) },
            PredictionAction::Run { ticks: 0 },
            PredictionAction::Finish,
        ]
    );
    assert_eq!(client.prediction.state, PredictionWorldState::Idle);
    assert_eq!(client.last, LastPredictedTick(tick(10)));
    assert_eq!(client.time.current_tick(), tick(10));
}

#[test]
fn a_prediction_that_is_behind_waits_for_budget() {
    let mut client = Client::new();
    client.template = template_at(10);
    client.time = clock_at(11);
    client.budget = budget(0, 0);
    assert_eq!(client.predict(), vec![PredictionAction::Start { from: tick(10) }]);
    assert_eq!(client.prediction.state, PredictionWorldState::Running);
    assert!(client.predict().is_empty());
    client.budget = budget(0, 1);
    assert_eq!(
        client.predict(),
        vec![PredictionAction::Run { ticks: 1 }, PredictionAction::Finish]
    );
    assert_eq!(client.prediction.state, PredictionWorldState::Idle);
}

#[test]
fn a_template_ahead_of_the_main_world_pulls_it_forward() {
    let mut client = Client::new();
    client.template = template_at(20);
    client.time = clock_at(14);
    client.budget = budget(0, 5);
    assert_eq!(
        client.predict(),
        vec![
            PredictionAction::Start { from: tick(20) },
            PredictionAction::Run { ticks: 0 },
            PredictionAction::Finish,
        ]
    );
    assert_eq!(client.time.current_tick(), tick(20));
    assert_eq!(client.time.target_tick(), tick(14));
    assert_eq!(client.budget, budget(0, 5));
}

#[test]
fn each_transition_is_one_step_of_the_machine() {
    let mut client = Client::new();
    client.template = template_at(10);
    client.time = clock_at(12);
    client.budget = budget(0, 1);
    let mut actions = Vec::new();
    let mut step = |client: &mut Client, actions: &mut Vec<PredictionAction>| {
        step_prediction_world(
            &mut client.prediction,
            &client.template,
            &mut client.time,
            &mut client.last,
            &mut client.budget,
            actions,
        )
    };
    assert!(step(&mut client, &mut actions));
    assert_eq!(actions, vec![PredictionAction::Start { from: tick(10) }]);
    assert_eq!(client.prediction.state, PredictionWorldState::Running);
    assert!(step(&mut client, &mut actions));
    assert_eq!(actions.len(), 2);
    assert_eq!(actions[1], PredictionAction::Run { ticks: 1 });
    assert!(!step(&mut client, &mut actions));
    assert_eq!(actions.len(), 2);
    assert_eq!(client.prediction.world.time.current_tick(), tick(11));
}

#[test]
fn the_main_world_stays_within_the_interval_of_the_template() {
    // Frames of 16 ms on a link without jitter with 20 ms of latency; the
    // budgets are generous. The client predicts 200 ms, that is 4 ticks.
    let mut client = Client::new();
    let interval = 200 * MILLI;
    client.reset(Some(tick(0)), interval, 0);
    let mut sent = 0u32;
    for frame in 1..400u64 {
        let now = frame * 16 * MILLI;
        let mut arrived = Vec::new();
        while (sent as u64 * 50 + 20) * MILLI <= now {
            arrived.push(UpdateServerTick { simulation_tick: tick(sent) });
            sent += 1;
        }
        receive_time_updates(&arrived, &mut client.samples, now);
        drive_simulation_time(&client.samples, PredictionInterval(interval), &mut client.time, now);
        nevy_prediction::common::simulation::run_simulation_schedule(&mut client.time);
        client.budget = budget(8, 8);
        run_template_world(&mut client.budget, &client.samples, &mut client.template);
        client.predict();
        let main = client.time.current_tick().0;
        let template = client.template.0.time.current_tick().0;
        assert!(template <= client.samples.latest().0);
        assert!(main >= template);
        assert!(main - template <= 4 + 2);
    }
}

#[test]
fn reset_mid_prediction() {
    let mut client = Client::new();
    client.template = template_at(40);
    client.time = clock_at(45);
    client.budget = budget(0, 2);
    client.predict();
    assert_eq!(client.prediction.state, PredictionWorldState::Running);
    assert_eq!(client.prediction.world.time.current_tick(), tick(42));
    assert_eq!(client.last, LastPredictedTick(tick(40)));
    let mut updates = PredictionUpdates::new();
    updates.0.insert(update(41, "old"));
    updates.0.insert(update(100, "kept"));
    updates.0.insert(update(103, "later"));

    let reset = receive_reset_simulations(&vec![Received {
        from_server: true,
        message: ResetClientSimulation { simulation_tick: tick(100) },
    }]);
    assert!(client.reset(reset, 0, 9 * SECOND));
    assert_eq!(client.template.0.time.current_tick(), tick(100));
    assert_eq!(client.prediction.world.time.current_tick(), tick(100));
    assert_eq!(client.prediction.state, PredictionWorldState::Idle);
    assert_eq!(client.budget, budget(0, 0));

    // What was predicted for ticks before the reset tick is dropped with
    // the reset.
    reset_prediction_updates(&mut updates, reset.unwrap());
    assert_eq!(contents(&updates.0), vec![(100, "kept"), (103, "later")]);

    // The next prediction starts from the reset tick.
    client.budget = budget(0, 5);
    assert_eq!(client.predict()[0], PredictionAction::Start { from: tick(100) });
    drain_prediction_updates(&mut updates, &client.last);
    assert_eq!(contents(&updates.0), vec![(100, "kept"), (103, "later")]);
}

#[test]
fn a_reset_drops_the_prediction_updates_before_its_tick() {
    let mut updates = PredictionUpdates::new();
    for (at, name) in [(3, "c"), (7, "g"), (7, "h"), (9, "i")] {
        updates.0.insert(update(at, name));
    }
    reset_prediction_updates(&mut updates, tick(0));
    assert_eq!(updates.0.len(), 4);
    reset_prediction_updates(&mut updates, tick(7));
    assert_eq!(contents(&updates.0), vec![(7, "g"), (7, "h"), (9, "i")]);
    reset_prediction_updates(&mut updates, tick(7));
    assert_eq!(updates.0.len(), 3);
    reset_prediction_updates(&mut updates, tick(10));
    assert_eq!(updates.0.len(), 0);
}

#[test]
fn the_target_is_at_most_the_interval_past_the_tick_of_the_estimate() {
    // The estimate is 10 ticks and 49 ms; the interval of 101 ms takes three
    // ticks to cover.
    let mut samples = ServerTickSamples::default();
    samples.push(0, tick(10));
    let mut time = clock_at(0);
    let now = 49 * MILLI;
    let queued = drive_simulation_time(&samples, PredictionInterval(101 * MILLI), &mut time, now);
    assert_eq!(queued, 13);
    assert_eq!(time.target_tick(), tick(13));
    assert!(time.target_tick().0 <= 10 + 3);
    assert!(time.target_tick().time(fifty()) <= samples.estimated_time(fifty(), now) + 101_000_000);
    assert_eq!(time.current_tick(), tick(0));
}

#[test]
fn a_created_update_is_recorded_last() {
    let mut queue = UpdateExecutionQueue::new();
    let mut updates = PredictionUpdates::new();
    let mut time = clock_at(3);
    for name in ["a", "b", "c"] {
        PredictionUpdateCreator::create(&time, &mut queue, &mut updates, name);
        time.queue_ticks(1);
        time.step();
    }
    PredictionUpdateCreator::create(&time, &mut queue, &mut updates, "d");
    assert_eq!(contents(&updates.0), vec![(3, "a"), (4, "b"), (5, "c"), (6, "d")]);
    assert_eq!(contents(&queue.0), contents(&updates.0));
}

#[test]
fn a_clock_knows_its_step_interval() {
    let time = SimulationTime::from_tick(tick(3), StepInterval::from_nanos(1).unwrap());
    assert_eq!(time.step_interval().nanos(), 1);
    assert!(clock_at(0).step_interval().nanos() > 0);
}

#[test]
fn reconciled_prediction_updates_are_drained() {
    let mut updates = PredictionUpdates::new();
    for (at, name) in [(1, "a"), (3, "c"), (4, "d"), (4, "e"), (6, "g")] {
        updates.0.insert(update(at, name));
    }
    drain_prediction_updates(&mut updates, &LastPredictedTick(tick(0)));
    assert_eq!(updates.0.len(), 5);
    drain_prediction_updates(&mut updates, &LastPredictedTick(tick(4)));
    assert_eq!(contents(&updates.0), vec![(4, "d"), (4, "e"), (6, "g")]);
    drain_prediction_updates(&mut updates, &LastPredictedTick(tick(4)));
    assert_eq!(updates.0.len(), 3);
    drain_prediction_updates(&mut updates, &LastPredictedTick(tick(u32::MAX)));
    assert_eq!(updates.0.len(), 0);
}

#[test]
fn prediction_updates_of_the_current_tick_are_queued() {
    let mut updates = PredictionUpdates::new();
    for (at, name) in [(3, "a"), (4, "b"), (3, "c"), (5, "d")] {
        updates.0.insert(update(at, name));
    }
    let mut queue = UpdateExecutionQueue::new();
    queue.0.insert(update(3, "q"));
    queue.0.insert(update(5, "z"));
    queue.0.insert(update(1, "p"));
    queue_prediction_updates(&updates, &mut queue, &clock_at(3));
    assert_eq!(
        contents(&queue.0),
        vec![(1, "p"), (3, "q"), (3, "a"), (3, "c"), (5, "z")]
    );
    assert_eq!(updates.0.len(), 4);
    queue_prediction_updates(&updates, &mut queue, &clock_at(9));
    assert_eq!(queue.0.len(), 5);
}

#[test]
fn a_created_update_is_queued_and_recorded_for_the_current_tick() {
    let mut queue = UpdateExecutionQueue::new();
    let mut updates = PredictionUpdates::new();
    queue.0.insert(update(6, "there"));
    queue.0.insert(update(9, "later"));
    let created = PredictionUpdateCreator::create(&clock_at(6), &mut queue, &mut updates, "mine");
    assert_eq!(created, update(6, "mine"));
    assert_eq!(contents(&queue.0), vec![(6, "there"), (6, "mine"), (9, "later")]);
    assert_eq!(contents(&updates.0), vec![(6, "mine")]);
}

fn from_server(
    at: u32,
    name: &'static str,
    include_in_prediction: bool,
) -> Received<ServerWorldUpdate<&'static str>> {
    Received {
        from_server: true,
        message: ServerWorldUpdate { update: update(at, name), include_in_prediction },
    }
}

#[test]
fn world_updates_from_the_server_go_to_the_template() {
    let mut queue = UpdateExecutionQueue::new();
    let mut updates = PredictionUpdates::new();
    queue.0.insert(update(4, "there"));
    let mut stranger = from_server(1, "forged", true);
    stranger.from_server = false;
    receive_world_updates(
        &mut queue,
        &mut updates,
        vec![
            from_server(4, "a", false),
            stranger,
            from_server(2, "b", true),
            from_server(4, "c", true),
        ],
    );
    assert_eq!(contents(&queue.0), vec![(2, "b"), (4, "there"), (4, "a"), (4, "c")]);
    assert_eq!(contents(&updates.0), vec![(2, "b"), (4, "c")]);
}

#[test]
fn the_client_frame_runs_in_its_order() {
    assert_eq!(
        client_frame_order(),
        [
            ClientSimulationSystems::ResetSimulation,
            ClientSimulationSystems::ReceiveTime,
            ClientSimulationSystems::QueueUpdates,
            ClientSimulationSystems::StepSimulation,
            ClientSimulationSystems::RunTemplateWorld,
            ClientSimulationSystems::QueuePredictionUpdates,
            ClientSimulationSystems::RunPredictionWorld,
        ]
    );
}

#[test]
fn a_world_runs_what_it_is_asked_and_is_settled_after() {
    let mut world = SimulationWorld::build(fifty());
    assert_eq!(world.run(3), vec![tick(0), tick(1), tick(2)]);
    assert_eq!(world.time.current_tick(), tick(3));
    assert_eq!(world.time.target_tick(), tick(3));
    assert!(world.run(0).is_empty());
    world.reset(tick(50));
    assert_eq!(world.time.current_tick(), tick(50));
    assert_eq!(world.time.target_tick(), tick(50));
    assert_eq!(world.time.step_interval(), fifty());
    let mut main = clock_at(2);
    main.queue_ticks(5);
    world.extract(&mut main);
    assert_eq!(main.current_tick(), tick(50));
    assert_eq!(main.target_tick(), tick(7));
    assert_eq!(world.time.current_tick(), tick(50));
}

#[test]
fn defaults_are_zero() {
    assert_eq!(PredictionBudget::default(), budget(0, 0));
    assert_eq!(PredictionInterval::default(), PredictionInterval(0));
    assert_eq!(LastPredictedTick::default(), LastPredictedTick(tick(0)));
}
