use nevy_prediction::common::scheme::StepInterval;
use nevy_prediction::common::simulation::update_queue::{
    deliver_pending_updates, Delivery, ReadyUpdate, ReadyUpdates, UpdateExecutionQueue,
    WorldUpdate, WorldUpdateQueue,
};
use nevy_prediction::common::simulation::{
    run_simulation_schedule, SimulationTick, SimulationTime,
};

fn update(tick: u32, name: &'static str) -> WorldUpdate<&'static str> {
    WorldUpdate { tick: SimulationTick(tick), update: name }
}

fn clock_at(tick: u32) -> SimulationTime {
    SimulationTime::from_tick(SimulationTick(tick), StepInterval::default())
}

fn contents(queue: &WorldUpdateQueue<&'static str>) -> Vec<(u32, &'static str)> {
    (0..queue.len())
        .map(|index| {
            let update = queue.get(index).unwrap();
            (update.tick.0, update.update)
        })
        .collect()
}

fn names(ready: &ReadyUpdates<&'static str>) -> Vec<&'static str> {
    ready.updates.iter().map(|ready| ready.update).collect()
}

#[test]
fn insert_keeps_the_queue_in_tick_order() {
    let mut queue = WorldUpdateQueue::new();
    for (tick, name) in [(5, "e"), (1, "a"), (3, "c"), (9, "i"), (2, "b")] {
        queue.insert(update(tick, name));
    }
    assert_eq!(contents(&queue), vec![(1, "a"), (2, "b"), (3, "c"), (5, "e"), (9, "i")]);
}

#[test]
fn insert_puts_the_new_update_behind_its_equals() {
    let mut queue = WorldUpdateQueue::new();
    for (tick, name) in [(4, "first"), (2, "low"), (4, "second"), (6, "high"), (4, "third")] {
        queue.insert(update(tick, name));
    }
    assert_eq!(
        contents(&queue),
        vec![(2, "low"), (4, "first"), (4, "second"), (4, "third"), (6, "high")]
    );
}

#[test]
fn get_past_the_end_is_none() {
    let mut queue = WorldUpdateQueue::new();
    assert!(queue.get(0).is_none());
    queue.insert(update(1, "a"));
    assert_eq!(queue.get(0), Some(&update(1, "a")));
    assert!(queue.get(1).is_none());
}

#[test]
fn next_takes_the_front_only_when_it_is_due() {
    let mut queue = WorldUpdateQueue::new();
    assert_eq!(queue.next(SimulationTick(9)), None);
    queue.insert(update(3, "c"));
    queue.insert(update(5, "e"));
    assert_eq!(queue.next(SimulationTick(2)), None);
    assert_eq!(queue.len(), 2);
    assert_eq!(queue.next(SimulationTick(3)), Some(update(3, "c")));
    assert_eq!(queue.next(SimulationTick(3)), None);
    assert_eq!(queue.next(SimulationTick(7)), Some(update(5, "e")));
    assert_eq!(queue.len(), 0);
}

#[test]
fn clear_empties_the_queue() {
    let mut queue = WorldUpdateQueue::new();
    queue.insert(update(3, "c"));
    queue.clear();
    assert_eq!(queue.len(), 0);
}

#[test]
fn reset_empties_the_execution_queue_and_is_idempotent() {
    let mut queue = UpdateExecutionQueue::new();
    queue.0.insert(update(3, "c"));
    queue.0.insert(update(1, "a"));
    queue.reset();
    assert_eq!(queue.0.len(), 0);
    queue.reset();
    assert_eq!(queue.0.len(), 0);
}

#[test]
fn insertion_order_tie() {
    let mut queue = UpdateExecutionQueue::new();
    queue.0.insert(update(4, "a"));
    queue.0.insert(update(4, "b"));
    let ready = ReadyUpdates::drain(&mut queue, &clock_at(4));
    assert_eq!(names(&ready), vec!["a", "b"]);
    assert_eq!(queue.0.len(), 0);
}

#[test]
fn late_update() {
    // An update for tick 5 is queued while the world stands at tick 8.
    let mut queue = UpdateExecutionQueue::new();
    queue.0.insert(update(5, "vel"));
    let ready = ReadyUpdates::drain(&mut queue, &clock_at(8));
    assert_eq!(ready.updates, vec![ReadyUpdate { update: "vel", late_by: 3 }]);
    assert_eq!(queue.0.len(), 0);
}

#[test]
fn drain_takes_what_is_due_and_leaves_the_rest() {
    let mut queue = UpdateExecutionQueue::new();
    for (tick, name) in [(7, "g"), (3, "c"), (5, "e"), (5, "f"), (6, "later")] {
        queue.0.insert(update(tick, name));
    }
    let ready = ReadyUpdates::drain(&mut queue, &clock_at(5));
    assert_eq!(
        ready.updates,
        vec![
            ReadyUpdate { update: "c", late_by: 2 },
            ReadyUpdate { update: "e", late_by: 0 },
            ReadyUpdate { update: "f", late_by: 0 },
        ]
    );
    assert_eq!(contents(&queue.0), vec![(6, "later"), (7, "g")]);
}

#[test]
fn drain_of_nothing_due_changes_nothing() {
    let mut queue = UpdateExecutionQueue::new();
    queue.0.insert(update(6, "later"));
    let ready = ReadyUpdates::drain(&mut queue, &clock_at(5));
    assert!(ready.updates.is_empty());
    assert_eq!(contents(&queue.0), vec![(6, "later")]);
    let empty: ReadyUpdates<&'static str> =
        ReadyUpdates::drain(&mut UpdateExecutionQueue::new(), &clock_at(5));
    assert!(empty.updates.is_empty());
}

#[test]
fn every_update_is_delivered_exactly_once_at_or_after_its_tick() {
    let mut queue = UpdateExecutionQueue::new();
    let stamps = [4u32, 0, 9, 2, 4, 7, 2, 11];
    for (index, tick) in stamps.iter().enumerate() {
        queue.0.insert(WorldUpdate { tick: SimulationTick(*tick), update: index });
    }
    let mut time = clock_at(2);
    time.queue_ticks(8);
    let mut delivered: Vec<(usize, u32)> = Vec::new();
    while time.pending() {
        let ready = ReadyUpdates::drain(&mut queue, &time);
        for ready in ready.updates {
            delivered.push((ready.update, time.current_tick().0));
        }
        time.step();
    }
    // Ticks 2 to 9 have run: all but the update for tick 11 were handed out.
    assert_eq!(
        delivered,
        vec![(1, 2), (3, 2), (6, 2), (0, 4), (4, 4), (5, 7), (2, 9)]
    );
    for (index, at) in &delivered {
        assert!(*at >= stamps[*index]);
    }
    assert_eq!(queue.0.len(), 1);
    assert_eq!(queue.0.get(0).unwrap().update, 7);
}

#[test]
fn a_run_hands_out_every_update_in_its_tick_or_the_first() {
    let mut queue = UpdateExecutionQueue::new();
    for (index, tick) in [4u32, 0, 9, 2, 4, 7, 2, 11].iter().enumerate() {
        queue.0.insert(WorldUpdate { tick: SimulationTick(*tick), update: index });
    }
    let mut time = clock_at(2);
    time.queue_ticks(8);
    let log = deliver_pending_updates(&mut time, &mut queue);
    let handed = |tick: u32, update: usize, late_by: u32| Delivery {
        tick: SimulationTick(tick),
        update: ReadyUpdate { update, late_by },
    };
    assert_eq!(
        log,
        vec![
            handed(2, 1, 2),
            handed(2, 3, 0),
            handed(2, 6, 0),
            handed(4, 0, 0),
            handed(4, 4, 0),
            handed(7, 5, 0),
            handed(9, 2, 0),
        ]
    );
    assert_eq!(time.current_tick(), SimulationTick(10));
    assert_eq!(queue.0.len(), 1);
    assert_eq!(queue.0.get(0).unwrap().tick, SimulationTick(11));
}

#[test]
fn a_run_without_pending_ticks_hands_out_nothing() {
    let mut queue = UpdateExecutionQueue::new();
    queue.0.insert(update(1, "due"));
    let mut time = clock_at(5);
    assert!(deliver_pending_updates(&mut time, &mut queue).is_empty());
    assert_eq!(queue.0.len(), 1);
    assert_eq!(time.current_tick(), SimulationTick(5));
}

#[test]
fn ticks_deliver_in_turn_what_one_tick_delivers_at_once() {
    let fill = || {
        let mut queue = UpdateExecutionQueue::new();
        for (tick, name) in [(1, "a"), (3, "c"), (3, "d"), (4, "e"), (8, "h")] {
            queue.0.insert(update(tick, name));
        }
        queue
    };
    let mut in_turn = fill();
    let mut seen = names(&ReadyUpdates::drain(&mut in_turn, &clock_at(3)));
    seen.extend(names(&ReadyUpdates::drain(&mut in_turn, &clock_at(5))));
    let mut at_once = fill();
    assert_eq!(seen, names(&ReadyUpdates::drain(&mut at_once, &clock_at(5))));
    assert_eq!(contents(&in_turn.0), contents(&at_once.0));
}

#[test]
fn an_update_inserted_during_a_run_is_late_by_what_has_passed() {
    let mut queue = UpdateExecutionQueue::new();
    let mut time = clock_at(0);
    time.queue_ticks(3);
    let executed = run_simulation_schedule(&mut time);
    assert_eq!(executed.len(), 3);
    queue.0.insert(update(1, "late"));
    let ready = ReadyUpdates::drain(&mut queue, &time);
    assert_eq!(ready.updates, vec![ReadyUpdate { update: "late", late_by: 2 }]);
}

#[test]
fn world_update_clone_keeps_tick_and_payload() {
    let first = WorldUpdate { tick: SimulationTick(5), update: String::from("payload") };
    let copy = first.clone();
    assert_eq!(copy, first);
}
