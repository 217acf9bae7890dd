use nevy_prediction::common::scheme::StepInterval;
use nevy_prediction::common::simulation::simulation_entity::LocalEntity;
use nevy_prediction::common::simulation::update_queue::{UpdateExecutionQueue, WorldUpdate};
use nevy_prediction::common::simulation::{SimulationInstance, SimulationTick, SimulationTime};
use nevy_prediction::common::{
    add_world_update, ResetClientSimulation, ServerWorldUpdate, UpdateRegistration,
    UpdateServerTick,
};
use nevy_prediction::server::new_pairs::NewPairs;
use nevy_prediction::server::{
    drive_simulation_time, reconcile_update, send_simulation_resets,
    send_simulation_time_updates, server_frame_order, Outgoing, ServerSimulationSystems,
    WorldUpdateSender,
};

const MILLI: u64 = 1_000_000;

fn clock_at(at: u32) -> SimulationTime {
    SimulationTime::from_tick(SimulationTick(at), StepInterval::from_millis(50).unwrap())
}

fn locals(bits: &[u64]) -> Vec<LocalEntity> {
    bits.iter().map(|bits| LocalEntity(*bits)).collect()
}

fn pairs(found: Vec<(LocalEntity, LocalEntity)>) -> Vec<(u64, u64)> {
    found.into_iter().map(|pair| (pair.0 .0, pair.1 .0)).collect()
}

#[test]
fn the_server_queues_a_tick_for_every_whole_step() {
    let mut time = clock_at(0);
    let mut overstep = 0u64;
    assert_eq!(drive_simulation_time(&mut time, 16 * MILLI, &mut overstep, u32::MAX), 0);
    assert_eq!(overstep, 16 * MILLI);
    assert_eq!(drive_simulation_time(&mut time, 16 * MILLI, &mut overstep, u32::MAX), 0);
    assert_eq!(drive_simulation_time(&mut time, 16 * MILLI, &mut overstep, u32::MAX), 0);
    assert_eq!(overstep, 48 * MILLI);
    assert_eq!(drive_simulation_time(&mut time, 16 * MILLI, &mut overstep, u32::MAX), 1);
    assert_eq!(overstep, 14 * MILLI);
    assert_eq!(time.target_tick(), SimulationTick(1));
    assert_eq!(time.current_tick(), SimulationTick(0));
    assert_eq!(drive_simulation_time(&mut time, 136 * MILLI, &mut overstep, u32::MAX), 3);
    assert_eq!(overstep, 0);
    assert_eq!(time.target_tick(), SimulationTick(4));
}

#[test]
fn a_step_that_has_just_passed_is_queued() {
    let mut time = clock_at(7);
    let mut overstep = 0u64;
    assert_eq!(drive_simulation_time(&mut time, 50 * MILLI - 1, &mut overstep, u32::MAX), 0);
    assert_eq!(drive_simulation_time(&mut time, 1, &mut overstep, u32::MAX), 1);
    assert_eq!(overstep, 0);
    assert_eq!(time.target_tick(), SimulationTick(8));
}

#[test]
fn a_slow_frame_is_cut_off_at_the_ceiling() {
    let mut time = clock_at(0);
    let mut overstep = 10 * MILLI;
    assert_eq!(drive_simulation_time(&mut time, 5_000 * MILLI, &mut overstep, 8), 8);
    assert_eq!(time.target_tick(), SimulationTick(8));
    assert_eq!(overstep, 10 * MILLI);
    assert_eq!(drive_simulation_time(&mut time, 60 * MILLI, &mut overstep, 0), 0);
    assert_eq!(overstep, 20 * MILLI);
}

#[test]
fn the_server_clock_stops_at_the_last_tick() {
    let mut time = clock_at(u32::MAX - 2);
    let mut overstep = u64::MAX;
    assert_eq!(drive_simulation_time(&mut time, u64::MAX, &mut overstep, u32::MAX), 2);
    assert_eq!(time.target_tick(), SimulationTick(u32::MAX));
    assert_eq!(overstep as u128, (2 * u64::MAX as u128) % (50 * MILLI as u128));
}

#[test]
fn every_client_hears_of_every_tick() {
    let clients = locals(&[11, 12, 13]);
    let mut time = clock_at(5);
    time.queue_ticks(3);
    let mut heard: Vec<Vec<u32>> = vec![Vec::new(); 3];
    while time.pending() {
        let messages = send_simulation_time_updates(&time, &clients);
        assert_eq!(messages.len(), 3);
        for (index, message) in messages.iter().enumerate() {
            assert_eq!(message.client, clients[index]);
            assert!(message.queue);
            heard[index].push(message.message.simulation_tick.0);
        }
        time.step();
    }
    assert_eq!(heard, vec![vec![5, 6, 7]; 3]);
    assert!(send_simulation_time_updates(&time, &vec![]).is_empty());
}

#[test]
fn time_updates_carry_the_current_tick() {
    let messages = send_simulation_time_updates(&clock_at(42), &locals(&[11]));
    assert_eq!(
        messages,
        vec![Outgoing {
            client: LocalEntity(11),
            queue: true,
            message: UpdateServerTick { simulation_tick: SimulationTick(42) },
        }]
    );
}

#[test]
fn a_new_client_is_told_where_the_simulation_stands() {
    let messages = send_simulation_resets(&locals(&[21, 22]), &clock_at(10));
    assert_eq!(
        messages,
        vec![
            Outgoing {
                client: LocalEntity(21),
                queue: true,
                message: ResetClientSimulation { simulation_tick: SimulationTick(10) },
            },
            Outgoing {
                client: LocalEntity(22),
                queue: true,
                message: ResetClientSimulation { simulation_tick: SimulationTick(10) },
            },
        ]
    );
    assert!(send_simulation_resets(&vec![], &clock_at(10)).is_empty());
}

#[test]
fn write_now_stamps_the_current_tick_and_stays_out_of_prediction() {
    let sender = WorldUpdateSender { time: clock_at(33) };
    assert_eq!(
        sender.write_now(LocalEntity(5), false, "spawn"),
        Outgoing {
            client: LocalEntity(5),
            queue: false,
            message: ServerWorldUpdate {
                update: WorldUpdate { tick: SimulationTick(33), update: "spawn" },
                include_in_prediction: false,
            },
        }
    );
}

#[test]
fn write_carries_the_update_as_it_is_given() {
    let sender = WorldUpdateSender { time: clock_at(33) };
    assert_eq!(
        sender.write(
            LocalEntity(5),
            true,
            true,
            WorldUpdate { tick: SimulationTick(7), update: "move" }
        ),
        Outgoing {
            client: LocalEntity(5),
            queue: true,
            message: ServerWorldUpdate {
                update: WorldUpdate { tick: SimulationTick(7), update: "move" },
                include_in_prediction: true,
            },
        }
    );
}

#[test]
fn a_reconciled_update_goes_to_all_and_into_the_prediction_of_the_others() {
    let sender = WorldUpdateSender { time: clock_at(60) };
    let clients = locals(&[1, 2, 3]);
    let mut queue = UpdateExecutionQueue::new();
    queue.0.insert(WorldUpdate { tick: SimulationTick(50), update: String::from("there") });
    let messages = reconcile_update(
        &sender,
        LocalEntity(2),
        &clients,
        WorldUpdate { tick: SimulationTick(50), update: String::from("move") },
        &mut queue,
    );
    let flags: Vec<(u64, bool, bool)> = messages
        .iter()
        .map(|message| (message.client.0, message.queue, message.message.include_in_prediction))
        .collect();
    assert_eq!(flags, vec![(1, true, true), (2, true, false), (3, true, true)]);
    for message in &messages {
        assert_eq!(
            message.message.update,
            WorldUpdate { tick: SimulationTick(50), update: String::from("move") }
        );
    }
    // The update is stamped in the past of the server and is queued all the same.
    assert_eq!(queue.0.len(), 2);
    assert_eq!(queue.0.get(1).unwrap().update, "move");
    assert_eq!(queue.0.get(1).unwrap().tick, SimulationTick(50));
}

#[test]
fn the_server_frame_runs_in_its_order() {
    assert_eq!(
        server_frame_order(),
        [
            ServerSimulationSystems::SendResets,
            ServerSimulationSystems::QueueUpdates,
            ServerSimulationSystems::StepSimulation,
        ]
    );
}

#[test]
fn a_world_update_is_registered_by_the_role_of_the_instance() {
    assert_eq!(
        add_world_update(SimulationInstance::Server),
        UpdateRegistration { client: false, message: true, queue: true, reset: true }
    );
    assert_eq!(
        add_world_update(SimulationInstance::ClientMain),
        UpdateRegistration { client: true, message: true, queue: true, reset: true }
    );
    assert_eq!(
        add_world_update(SimulationInstance::ClientTemplate),
        UpdateRegistration { client: false, message: false, queue: true, reset: true }
    );
    assert_eq!(
        add_world_update(SimulationInstance::ClientPrediction),
        UpdateRegistration { client: false, message: false, queue: true, reset: true }
    );
}

#[test]
fn a_new_a_pairs_with_every_b_that_was_there() {
    let new_pairs = NewPairs {
        added_a: locals(&[1]),
        existing_a: locals(&[1, 2]),
        added_b: vec![],
        existing_b: locals(&[7, 8]),
    };
    assert_eq!(pairs(new_pairs.iter()), vec![(1, 7), (1, 8)]);
}

#[test]
fn a_new_b_pairs_with_every_a() {
    let new_pairs = NewPairs {
        added_a: vec![],
        existing_a: locals(&[1, 2]),
        added_b: locals(&[8]),
        existing_b: locals(&[7, 8]),
    };
    assert_eq!(pairs(new_pairs.iter()), vec![(1, 8), (2, 8)]);
}

#[test]
fn a_pair_of_two_new_entities_is_counted_once() {
    let new_pairs = NewPairs {
        added_a: locals(&[2, 3]),
        existing_a: locals(&[1, 2, 3]),
        added_b: locals(&[8]),
        existing_b: locals(&[7, 8, 9]),
    };
    assert_eq!(
        pairs(new_pairs.iter()),
        vec![(2, 7), (2, 9), (3, 7), (3, 9), (1, 8), (2, 8), (3, 8)]
    );
}

#[test]
fn an_entity_with_both_components_pairs_with_itself() {
    let new_pairs = NewPairs {
        added_a: locals(&[5]),
        existing_a: locals(&[5]),
        added_b: locals(&[5]),
        existing_b: locals(&[5]),
    };
    assert_eq!(pairs(new_pairs.iter()), vec![(5, 5)]);
}

#[test]
fn nothing_new_gives_no_pairs() {
    let new_pairs = NewPairs {
        added_a: vec![],
        existing_a: locals(&[1, 2]),
        added_b: vec![],
        existing_b: locals(&[7, 8]),
    };
    assert!(new_pairs.iter().is_empty());
}
