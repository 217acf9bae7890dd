use nevy_prediction::client::prediction::{
    run_prediction_world, LastPredictedTick, PredictionAction, PredictionUpdates, PredictionWorld,
};
use nevy_prediction::client::template_world::{
    receive_time_updates, receive_world_updates, run_template_world, ServerTickSamples,
    TemplateWorld,
};
use nevy_prediction::client::{
    drive_simulation_time, receive_reset_simulations, reset_simulations, PredictionBudget,
    PredictionInterval, Received,
};
use nevy_prediction::common::scheme::StepInterval;
use nevy_prediction::common::simulation::simulation_entity::{
    extract_simulation_entities, ExtractDespawnPriority, LocalEntity, SimulationEntity,
    SimulationEntityMap, TargetEntity,
};
use nevy_prediction::common::simulation::update_queue::{ReadyUpdates, UpdateExecutionQueue};
use nevy_prediction::common::simulation::{
    run_simulation_schedule, SimulationTick, SimulationTime,
};
use nevy_prediction::example::{spawn_players, SpawnPlayer};
use nevy_prediction::server::{
    send_simulation_resets, send_simulation_time_updates, WorldUpdateSender,
};

const MILLI: u64 = 1_000_000;

/// The simulation entities of one world, with the index that its hooks keep.
struct Entities {
    next_local: u64,
    live: Vec<(SimulationEntity, LocalEntity)>,
    index: SimulationEntityMap,
}

impl Entities {
    fn new(first_local: u64) -> Entities {
        Entities { next_local: first_local, live: Vec::new(), index: SimulationEntityMap::new() }
    }

    fn spawn(&mut self, entity: SimulationEntity) {
        let local = LocalEntity(self.next_local);
        self.next_local += 1;
        self.live.push((entity, local));
        self.index.insert(entity, local);
    }

    fn ids(&self) -> Vec<SimulationEntity> {
        self.live.iter().map(|pair| pair.0).collect()
    }

    /// Extracts `source` into this world.
    fn extract_from(&mut self, source: &Entities) {
        let marked: Vec<TargetEntity> = self
            .live
            .iter()
            .map(|pair| TargetEntity { local: pair.1, priority: ExtractDespawnPriority(0) })
            .collect();
        let extracted = extract_simulation_entities(&source.ids(), &marked, &self.index);
        for gone in extracted.despawn {
            let position = self.live.iter().position(|pair| pair.1 == gone.local).unwrap();
            let (entity, _) = self.live.remove(position);
            self.index.remove(entity);
        }
        for entity in extracted.spawn {
            self.spawn(entity);
        }
    }
}

#[test]
fn single_update_echo() {
    let step = StepInterval::from_millis(50).unwrap();
    let interval = PredictionInterval(200 * MILLI);

    // The server has spawned entity 0 at tick 0 and stands at tick 10 when
    // the client connects.
    let mut server_time = SimulationTime::from_tick(SimulationTick(10), step);
    let client_connection = LocalEntity(77);
    let resets = send_simulation_resets(&vec![client_connection], &server_time);
    assert_eq!(resets.len(), 1);
    assert_eq!(resets[0].message.simulation_tick, SimulationTick(10));
    let sender = WorldUpdateSender { time: server_time };
    let spawn = sender.write_now(
        client_connection,
        true,
        SpawnPlayer { entity: SimulationEntity(0) },
    );
    server_time.queue_ticks(1);
    let mut announced = Vec::new();
    while server_time.pending() {
        server_time.step();
        announced.extend(send_simulation_time_updates(&server_time, &vec![client_connection]));
    }

    // The client, in its next frame at a local time of three seconds.
    let now = 3_000 * MILLI;
    let mut template = TemplateWorld::build(step);
    let mut prediction = PredictionWorld::new(step);
    let mut main_time = SimulationTime::from_tick(SimulationTick(0), step);
    let mut last = LastPredictedTick::default();
    let mut budget = PredictionBudget::default();
    let mut samples = ServerTickSamples::default();
    let mut template_queue: UpdateExecutionQueue<SpawnPlayer> = UpdateExecutionQueue::new();
    let mut predicted: PredictionUpdates<SpawnPlayer> = PredictionUpdates::new();
    let mut template_entities = Entities::new(100);
    let mut prediction_entities = Entities::new(200);
    let mut main_entities = Entities::new(300);

    let reset = receive_reset_simulations(
        &resets
            .into_iter()
            .map(|outgoing| Received { from_server: true, message: outgoing.message })
            .collect(),
    );
    assert_eq!(reset, Some(SimulationTick(10)));
    assert!(reset_simulations(
        reset,
        &mut template,
        &mut prediction,
        &mut main_time,
        interval,
        &mut budget,
        &mut samples,
        now,
    ));
    assert_eq!(main_time.current_tick(), SimulationTick(14));
    receive_world_updates(
        &mut template_queue,
        &mut predicted,
        vec![Received { from_server: true, message: spawn.message }],
    );
    receive_time_updates(
        &announced.iter().map(|outgoing| outgoing.message).collect(),
        &mut samples,
        now,
    );
    assert_eq!(samples.latest(), SimulationTick(11));
    drive_simulation_time(&samples, interval, &mut main_time, now);
    run_simulation_schedule(&mut main_time);
    budget = PredictionBudget { template: 3, prediction: 5 };

    // The template world runs tick 10 and applies the spawn on time.
    let executed = run_template_world(&mut budget, &samples, &mut template);
    assert_eq!(executed, vec![SimulationTick(10)]);
    let at_tick_10 = SimulationTime::from_tick(SimulationTick(10), step);
    let ready = ReadyUpdates::drain(&mut template_queue, &at_tick_10);
    assert_eq!(ready.updates.len(), 1);
    assert_eq!(ready.updates[0].late_by, 0);
    for entity in spawn_players(&ready) {
        template_entities.spawn(entity);
    }
    assert!(template.0.time.current_tick().0 >= 10);

    // Prediction starts from the template, reaches the main tick and is
    // extracted into the main world within the same frame.
    let main_tick = main_time.current_tick();
    let actions =
        run_prediction_world(&mut prediction, &template, &mut main_time, &mut last, &mut budget);
    assert_eq!(
        actions,
        vec![
            PredictionAction::Start { from: SimulationTick(11) },
            PredictionAction::Run { ticks: main_tick.0 - 11 },
            PredictionAction::Finish,
        ]
    );
    for action in actions {
        match action {
            PredictionAction::Start { .. } => prediction_entities.extract_from(&template_entities),
            PredictionAction::Run { .. } => {}
            PredictionAction::Finish => main_entities.extract_from(&prediction_entities),
        }
    }
    assert_eq!(main_entities.ids(), vec![SimulationEntity(0)]);
    assert!(main_entities.index.get(SimulationEntity(0)).is_some());
    assert_eq!(main_time.current_tick(), main_tick);
}
