//! The prediction world: the client's speculative future of the template.
//!
//! Prediction is a machine of two states. Idle, it waits for the template
//! world to move; then it copies the template and runs. Running, it
//! advances under the frame's budget until it has reached the tick of the
//! main world, hands the main world its state and is idle again.

use vstd::prelude::*;
use crate::client::simulation_world::SimulationWorld;
use crate::client::template_world::TemplateWorld;
use crate::client::PredictionBudget;
use crate::common::scheme::StepInterval;
use crate::common::simulation::update_queue::{
    due_count, is_ordered, later_updates, lemma_due_count_is_split, lemma_due_count_splits,
    lemma_tick_splits_queue, UpdateExecutionQueue, WorldUpdate, WorldUpdateQueue,
};
use crate::common::simulation::{SimulationTick, SimulationTime, SimulationTimeView};

verus! {

/// The last tick that the prediction world predicted from.
///
/// When prediction starts, this is the tick of the template world.
#[derive(Clone, Copy, Debug, PartialEq, Eq, Structural)]
pub struct LastPredictedTick(pub SimulationTick);

impl Default for LastPredictedTick {
    fn default() -> (tick: LastPredictedTick)
        ensures
            tick.0.0 == 0,
    {
        LastPredictedTick(SimulationTick(0))
    }
}

#[derive(Clone, Copy, Debug, PartialEq, Eq, Structural)]
pub enum PredictionWorldState {
    Idle,
    Running,
}

/// The world used for prediction, with the state of the prediction.
#[derive(Clone, Copy, Debug, PartialEq, Eq)]
pub struct PredictionWorld {
    pub world: SimulationWorld,
    pub state: PredictionWorldState,
}

/// The work that the prediction machine hands to the host.
#[derive(Clone, Copy, Debug, PartialEq, Eq, Structural)]
pub enum PredictionAction {
    /// Extract the template world into the prediction world: a prediction
    /// starts from tick `from`.
    Start { from: SimulationTick },
    /// Run the prediction world for `ticks` ticks.
    Run { ticks: u32 },
    /// Extract the prediction world into the main world: the prediction has
    /// reached the tick of the main world.
    Finish,
}

/// Everything the prediction machine reads and writes in one frame.
pub struct PredictionFrame {
    pub state: PredictionWorldState,
    /// The clock of the prediction world.
    pub prediction: SimulationTimeView,
    /// The clock of the template world.
    pub template: SimulationTimeView,
    /// The clock of the main world.
    pub main: SimulationTimeView,
    /// The tick that the last prediction started from.
    pub last_predicted: nat,
    /// The ticks that prediction may still execute in this frame.
    pub budget: nat,
    /// The work handed to the host so far.
    pub actions: Seq<PredictionAction>,
}

impl PredictionFrame {
    /// How many ticks the prediction world is behind the main world.
    pub open spec fn desired_ticks(self) -> nat {
        if self.main.current_tick >= self.prediction.current_tick {
            (self.main.current_tick - self.prediction.current_tick) as nat
        } else {
            0
        }
    }

    /// How many ticks the prediction world runs next: what it is behind, as
    /// far as the budget allows.
    pub open spec fn execute_ticks(self) -> nat {
        if self.desired_ticks() <= self.budget {
            self.desired_ticks()
        } else {
            self.budget
        }
    }

    /// Whether ticks are outstanding for the prediction world and the
    /// budget has none left for them.
    pub open spec fn out_of_budget(self) -> bool {
        self.desired_ticks() > 0 && self.budget == 0
    }

    /// One transition of the machine, or none when the frame is over.
    ///
    /// Idle: when the template world stands where the last prediction
    /// started, there is nothing to do. Else a prediction starts: the
    /// template is extracted into the prediction world, whose target is
    /// cleared.
    ///
    /// Running: the prediction world runs what it is behind the main world,
    /// as far as the budget allows. Once it has reached the tick of the main
    /// world it is extracted into the main world and the machine is idle; a
    /// prediction that is not behind needs no budget for that. The frame is
    /// over only where ticks are outstanding and no budget is left for them.
    pub open spec fn step(self) -> Option<PredictionFrame> {
        match self.state {
            PredictionWorldState::Idle => {
                if self.template.current_tick == self.last_predicted {
                    None
                } else {
                    Some(
                        PredictionFrame {
                            state: PredictionWorldState::Running,
                            prediction: self.template.extract_into(self.prediction).clear_target(),
                            last_predicted: self.template.current_tick,
                            actions: self.actions.push(
                                PredictionAction::Start {
                                    from: SimulationTick(self.template.current_tick as u32),
                                },
                            ),
                            ..self
                        },
                    )
                }
            },
            PredictionWorldState::Running => {
                if self.out_of_budget() {
                    None
                } else {
                    let ticks = self.execute_ticks();
                    let ran = self.prediction.queue_ticks(ticks).caught_up();
                    let actions = self.actions.push(PredictionAction::Run { ticks: ticks as u32 });
                    if ran.current_tick >= self.main.current_tick {
                        Some(
                            PredictionFrame {
                                state: PredictionWorldState::Idle,
                                prediction: ran,
                                main: ran.extract_into(self.main),
                                budget: (self.budget - ticks) as nat,
                                actions: actions.push(PredictionAction::Finish),
                                ..self
                            },
                        )
                    } else {
                        Some(
                            PredictionFrame {
                                prediction: ran,
                                budget: (self.budget - ticks) as nat,
                                actions,
                                ..self
                            },
                        )
                    }
                }
            },
        }
    }

    /// The frame after at most `steps` transitions.
    pub open spec fn run(self, steps: nat) -> PredictionFrame
        decreases steps,
    {
        if steps == 0 {
            self
        } else {
            match self.step() {
                None => self,
                Some(next) => next.run((steps - 1) as nat),
            }
        }
    }

    /// An upper bound on the transitions that are left in this frame.
    pub open spec fn steps_left(self) -> nat {
        match self.state {
            PredictionWorldState::Idle => if self.template.current_tick == self.last_predicted {
                0
            } else {
                2
            },
            PredictionWorldState::Running => if self.out_of_budget() {
                0
            } else if self.template.current_tick == self.last_predicted {
                1
            } else {
                3
            },
        }
    }

    /// The prediction world has nothing queued.
    pub open spec fn settled(self) -> bool {
        self.prediction.target_tick == self.prediction.current_tick
    }

    /// The furthest tick at which any of the three worlds stands.
    pub open spec fn furthest_tick(self) -> nat {
        let further = if self.main.current_tick >= self.prediction.current_tick {
            self.main.current_tick
        } else {
            self.prediction.current_tick
        };
        if further >= self.template.current_tick {
            further
        } else {
            self.template.current_tick
        }
    }

    /// The frame when the machine has come to rest.
    pub open spec fn at_rest(self) -> PredictionFrame {
        self.run(3)
    }
}

/// Each transition keeps the prediction world settled, leaves the template
/// world alone, never moves the main world back, moves no world past the
/// furthest of the three, never adds to the budget and brings the frame
/// closer to its end.
pub proof fn lemma_step_makes_progress(frame: PredictionFrame)
    requires
        frame.settled(),
        frame.step().is_some(),
    ensures
        frame.step().unwrap().settled(),
        frame.step().unwrap().template == frame.template,
        frame.step().unwrap().main.current_tick >= frame.main.current_tick,
        frame.step().unwrap().main.target_tick == frame.main.target_tick,
        frame.step().unwrap().furthest_tick() <= frame.furthest_tick(),
        frame.step().unwrap().budget <= frame.budget,
        frame.step().unwrap().steps_left() < frame.steps_left(),
        frame.steps_left() <= 3,
{
}

/// Three transitions bring every frame to rest: after them there is no
/// further transition. The frame leaves the template world alone and moves
/// the main world forward only, and no further than the furthest of the
/// three worlds stood before. It ends running only where ticks are
/// outstanding that the budget does not cover; else it ends idle, with the
/// prediction of the template's tick extracted into the main world.
pub proof fn lemma_frame_comes_to_rest(frame: PredictionFrame)
    requires
        frame.settled(),
    ensures
        frame.at_rest().step().is_none(),
        frame.at_rest().settled(),
        frame.at_rest().template == frame.template,
        frame.at_rest().main.current_tick >= frame.main.current_tick,
        frame.at_rest().main.current_tick <= frame.furthest_tick(),
        frame.at_rest().main.target_tick == frame.main.target_tick,
        frame.at_rest().budget <= frame.budget,
        frame.at_rest().state == PredictionWorldState::Running ==> frame.at_rest().out_of_budget(),
        frame.at_rest().state == PredictionWorldState::Idle ==> frame.at_rest().last_predicted
            == frame.template.current_tick,
{
    lemma_run_comes_to_rest(frame, 3);
}

/// A prediction that is not behind the main world is handed over at once,
/// whatever the budget: it runs no tick, is extracted into the main world
/// and the machine is idle.
pub proof fn lemma_prediction_not_behind_finishes(frame: PredictionFrame)
    requires
        frame.state == PredictionWorldState::Running,
        frame.settled(),
        frame.prediction.current_tick >= frame.main.current_tick,
    ensures
        frame.step() == Some(
            PredictionFrame {
                state: PredictionWorldState::Idle,
                main: frame.prediction.extract_into(frame.main),
                actions: frame.actions.push(PredictionAction::Run { ticks: 0 }).push(
                    PredictionAction::Finish,
                ),
                ..frame
            },
        ),
{
}

/// A prediction whose ticks the budget covers is started, run and handed
/// over within one frame.
///
/// Let the machine be idle, the template world have moved since the last
/// prediction, and the budget cover what the main world is ahead of the
/// template. Then the frame starts a prediction from the template, runs it
/// up to the tick of the main world and extracts it into the main world:
/// the machine is idle again, and the main world shows in this frame what
/// the template held.
pub proof fn lemma_covered_prediction_ends_idle(frame: PredictionFrame)
    requires
        frame.state == PredictionWorldState::Idle,
        frame.template.current_tick != frame.last_predicted,
        frame.main.current_tick <= frame.template.current_tick + frame.budget,
        frame.template.current_tick <= u32::MAX,
        frame.main.current_tick <= u32::MAX,
    ensures
        ({
            let behind = if frame.main.current_tick >= frame.template.current_tick {
                (frame.main.current_tick - frame.template.current_tick) as nat
            } else {
                0
            };
            let reached = frame.template.current_tick + behind;
            &&& frame.at_rest().state == PredictionWorldState::Idle
            &&& frame.at_rest().last_predicted == frame.template.current_tick
            &&& frame.at_rest().prediction.current_tick == reached
            &&& frame.at_rest().main.current_tick == reached
            &&& frame.at_rest().main.target_tick == frame.main.target_tick
            &&& frame.at_rest().budget == frame.budget - behind
            &&& frame.at_rest().actions == frame.actions.push(
                PredictionAction::Start { from: SimulationTick(frame.template.current_tick as u32) },
            ).push(PredictionAction::Run { ticks: behind as u32 }).push(PredictionAction::Finish)
        }),
{
    reveal_with_fuel(PredictionFrame::run, 4);
    let started = frame.step().unwrap();
    assert(started.settled());
    let ran = started.step().unwrap();
    assert(ran.step().is_none());
}

/// As many transitions as are left bring a frame to rest.
proof fn lemma_run_comes_to_rest(frame: PredictionFrame, steps: nat)
    requires
        frame.settled(),
        frame.steps_left() <= steps,
    ensures
        frame.run(steps).step().is_none(),
        frame.run(steps).settled(),
        frame.run(steps).template == frame.template,
        frame.run(steps).main.current_tick >= frame.main.current_tick,
        frame.run(steps).furthest_tick() <= frame.furthest_tick(),
        frame.run(steps).main.target_tick == frame.main.target_tick,
        frame.run(steps).budget <= frame.budget,
    decreases steps,
{
    if steps > 0 && frame.step().is_some() {
        lemma_step_makes_progress(frame);
        lemma_run_comes_to_rest(frame.step().unwrap(), (steps - 1) as nat);
    }
}

impl PredictionWorld {
    /// The prediction world has run whatever it was asked to run.
    pub open spec fn wf(&self) -> bool {
        self.world.settled()
    }

    /// A prediction world at tick zero, idle.
    pub fn new(step: StepInterval) -> (prediction_world: PredictionWorld)
        ensures
            prediction_world.wf(),
            prediction_world.state == PredictionWorldState::Idle,
            prediction_world.world.time@ == (SimulationTimeView {
                current_tick: 0,
                target_tick: 0,
                step: step@,
            }),
    {
        PredictionWorld { world: SimulationWorld::build(step), state: PredictionWorldState::Idle }
    }

    /// Resets the world to `tick`. Whatever prediction was under way is
    /// dropped: the machine is idle.
    pub fn reset(&mut self, tick: SimulationTick)
        ensures
            final(self).wf(),
            final(self).state == PredictionWorldState::Idle,
            final(self).world.time@ == (SimulationTimeView {
                current_tick: tick.0 as nat,
                target_tick: tick.0 as nat,
                step: old(self).world.time@.step,
            }),
    {
        self.world.reset(tick);
        self.state = PredictionWorldState::Idle;
    }
}

/// The frame that the given values make, with `actions` handed out so far.
pub open spec fn prediction_frame(
    prediction_world: PredictionWorld,
    template_world: TemplateWorld,
    time: SimulationTime,
    last_predicted_tick: LastPredictedTick,
    budget: PredictionBudget,
    actions: Seq<PredictionAction>,
) -> PredictionFrame {
    PredictionFrame {
        state: prediction_world.state,
        prediction: prediction_world.world.time@,
        template: template_world.0.time@,
        main: time@,
        last_predicted: last_predicted_tick.0.0 as nat,
        budget: budget.prediction as nat,
        actions,
    }
}

/// Makes one transition of the prediction machine and appends the work it
/// asks of the host to `actions`. Returns whether there was a transition;
/// without one nothing changes and the frame is over.
pub fn step_prediction_world(
    prediction_world: &mut PredictionWorld,
    template_world: &TemplateWorld,
    time: &mut SimulationTime,
    last_predicted_tick: &mut LastPredictedTick,
    budget: &mut PredictionBudget,
    actions: &mut Vec<PredictionAction>,
) -> (stepped: bool)
    requires
        old(prediction_world).wf(),
    ensures
        stepped == prediction_frame(
            *old(prediction_world),
            *template_world,
            *old(time),
            *old(last_predicted_tick),
            *old(budget),
            old(actions)@,
        ).step().is_some(),
        stepped ==> prediction_frame(
            *final(prediction_world),
            *template_world,
            *final(time),
            *final(last_predicted_tick),
            *final(budget),
            final(actions)@,
        ) == prediction_frame(
            *old(prediction_world),
            *template_world,
            *old(time),
            *old(last_predicted_tick),
            *old(budget),
            old(actions)@,
        ).step().unwrap(),
        !stepped ==> *final(prediction_world) == *old(prediction_world) && *final(time) == *old(
            time,
        ) && *final(last_predicted_tick) == *old(last_predicted_tick) && *final(budget) == *old(
            budget,
        ) && final(actions)@ == old(actions)@,
        final(budget).template == old(budget).template,
        final(prediction_world).wf(),
{
    proof {
        prediction_world.world.time.lemma_bounded();
        template_world.0.time.lemma_bounded();
        time.lemma_bounded();
    }
    match prediction_world.state {
        PredictionWorldState::Idle => {
            let current_template_tick = template_world.0.time.current_tick();
            if current_template_tick.0 == last_predicted_tick.0.0 {
                return false;
            }
            *last_predicted_tick = LastPredictedTick(current_template_tick);
            template_world.0.extract(&mut prediction_world.world.time);
            prediction_world.world.time.clear_target();
            prediction_world.state = PredictionWorldState::Running;
            actions.push(PredictionAction::Start { from: current_template_tick });
            true
        },
        PredictionWorldState::Running => {
            let current_tick = prediction_world.world.time.current_tick();
            let desired_tick = time.current_tick();
            let desired_ticks = desired_tick.saturating_since(current_tick);
            if desired_ticks > 0 && budget.prediction == 0 {
                // not enough prediction budget
                return false;
            }
            let execute_ticks = if desired_ticks <= budget.prediction {
                desired_ticks
            } else {
                budget.prediction
            };
            budget.prediction = budget.prediction - execute_ticks;
            let _ = prediction_world.world.run(execute_ticks);
            actions.push(PredictionAction::Run { ticks: execute_ticks });
            if prediction_world.world.time.current_tick().0 >= desired_tick.0 {
                prediction_world.world.extract(time);
                prediction_world.state = PredictionWorldState::Idle;
                actions.push(PredictionAction::Finish);
            }
            true
        },
    }
}

/// Runs the prediction machine for one frame and returns the work it asks
/// of the host, in order.
///
/// The machine makes transitions until none is left: at most a run that
/// finishes the prediction under way, the start of a new prediction from
/// the template world, and a run of that one.
pub fn run_prediction_world(
    prediction_world: &mut PredictionWorld,
    template_world: &TemplateWorld,
    time: &mut SimulationTime,
    last_predicted_tick: &mut LastPredictedTick,
    budget: &mut PredictionBudget,
) -> (actions: Vec<PredictionAction>)
    requires
        old(prediction_world).wf(),
    ensures
        prediction_frame(
            *final(prediction_world),
            *template_world,
            *final(time),
            *final(last_predicted_tick),
            *final(budget),
            actions@,
        ) == prediction_frame(
            *old(prediction_world),
            *template_world,
            *old(time),
            *old(last_predicted_tick),
            *old(budget),
            Seq::empty(),
        ).at_rest(),
        final(budget).template == old(budget).template,
        final(prediction_world).wf(),
{
    let mut actions: Vec<PredictionAction> = Vec::new();
    let ghost start = prediction_frame(
        *prediction_world,
        *template_world,
        *time,
        *last_predicted_tick,
        *budget,
        Seq::empty(),
    );
    let ghost mut left: nat = 3;
    proof {
        assert(start.steps_left() <= 3);
    }
    loop
        invariant
            prediction_world.wf(),
            budget.template == old(budget).template,
            left <= 3,
            prediction_frame(
                *prediction_world,
                *template_world,
                *time,
                *last_predicted_tick,
                *budget,
                actions@,
            ).steps_left() <= left,
            start.at_rest() == prediction_frame(
                *prediction_world,
                *template_world,
                *time,
                *last_predicted_tick,
                *budget,
                actions@,
            ).run(left),
        ensures
            start.at_rest() == prediction_frame(
                *prediction_world,
                *template_world,
                *time,
                *last_predicted_tick,
                *budget,
                actions@,
            ),
        decreases left,
    {
        let ghost frame = prediction_frame(
            *prediction_world,
            *template_world,
            *time,
            *last_predicted_tick,
            *budget,
            actions@,
        );
        let stepped = step_prediction_world(
            prediction_world,
            template_world,
            time,
            last_predicted_tick,
            budget,
            &mut actions,
        );
        if !stepped {
            proof {
                assert(frame.run(left) == frame);
            }
            break ;
        }
        proof {
            lemma_step_makes_progress(frame);
            assert(left > 0);
            assert(frame.run(left) == frame.step().unwrap().run((left - 1) as nat));
            left = (left - 1) as nat;
        }
    }
    actions
}


/// The world updates that the prediction world replays on top of the
/// template: those that the client made for itself and those of others
/// that the server marked for prediction, as long as the template world
/// has not reached them. They are kept in tick order.
pub struct PredictionUpdates<T>(pub WorldUpdateQueue<T>);

/// What is left of `updates` once the template world has reached `tick`:
/// the updates stamped at or after it.
pub open spec fn unreconciled<T>(updates: Seq<WorldUpdate<T>>, tick: SimulationTick) -> Seq<
    WorldUpdate<T>,
> {
    if tick.0 == 0 {
        updates
    } else {
        later_updates(updates, SimulationTick((tick.0 - 1) as u32))
    }
}

/// What is left after reconciliation is stamped at or after the tick, and
/// what is gone was stamped before it.
pub proof fn lemma_unreconciled_are_not_earlier<T>(
    updates: Seq<WorldUpdate<T>>,
    tick: SimulationTick,
)
    requires
        is_ordered(updates),
    ensures
        forall|i: int|
            0 <= i < unreconciled(updates, tick).len() ==> unreconciled(updates, tick)[i].tick.0
                >= tick.0,
        forall|i: int|
            0 <= i < updates.len() - unreconciled(updates, tick).len() ==> updates[i].tick.0
                < tick.0,
        unreconciled(updates, tick).len() <= updates.len(),
        unreconciled(updates, tick) == updates.skip(
            updates.len() - unreconciled(updates, tick).len(),
        ),
{
    if tick.0 > 0 {
        let through = SimulationTick((tick.0 - 1) as u32);
        lemma_due_count_splits(updates, through);
        lemma_tick_splits_queue(updates, through);
    } else {
        assert(updates.skip(0) == updates);
    }
}

impl<T> PredictionUpdates<T> {
    /// No updates.
    pub fn new() -> (updates: PredictionUpdates<T>)
        ensures
            updates.0@ == Seq::<WorldUpdate<T>>::empty(),
            updates.0.wf(),
    {
        PredictionUpdates(WorldUpdateQueue::new())
    }
}

/// Removes the prediction updates that have been reconciled: those stamped
/// before the tick from which prediction last started. The template world
/// has them already.
pub fn drain_prediction_updates<T>(
    prediction_updates: &mut PredictionUpdates<T>,
    prediction_tick: &LastPredictedTick,
)
    requires
        old(prediction_updates).0.wf(),
    ensures
        final(prediction_updates).0.wf(),
        final(prediction_updates).0@ == unreconciled(old(prediction_updates).0@, prediction_tick.0),
{
    if prediction_tick.0.0 > 0 {
        let _ = prediction_updates.0.drain_due(SimulationTick(prediction_tick.0.0 - 1));
    }
}

/// Drops the prediction updates that a reset to `reset_tick` has made
/// moot: those stamped before it. What is stamped at or after it stays and
/// is replayed on the simulation as it stands after the reset. The host
/// calls this for every kind of world update when the client is reset.
pub fn reset_prediction_updates<T>(
    prediction_updates: &mut PredictionUpdates<T>,
    reset_tick: SimulationTick,
)
    requires
        old(prediction_updates).0.wf(),
    ensures
        final(prediction_updates).0.wf(),
        final(prediction_updates).0@ == unreconciled(old(prediction_updates).0@, reset_tick),
        forall|i: int|
            0 <= i < final(prediction_updates).0@.len() ==> final(prediction_updates).0@[i].tick.0
                >= reset_tick.0,
{
    proof {
        lemma_unreconciled_are_not_earlier(prediction_updates.0@, reset_tick);
    }
    drain_prediction_updates(prediction_updates, &LastPredictedTick(reset_tick));
}

/// The updates of `updates` that are stamped `tick`, in their order.
pub open spec fn stamped_at<T>(updates: Seq<WorldUpdate<T>>, tick: SimulationTick) -> Seq<
    WorldUpdate<T>,
>
    decreases updates.len(),
{
    if updates.len() == 0 {
        Seq::empty()
    } else if updates.last().tick == tick {
        stamped_at(updates.drop_last(), tick).push(updates.last())
    } else {
        stamped_at(updates.drop_last(), tick)
    }
}

/// Whether `after` is `before` with copies of `updates`, all stamped
/// `tick`, put in order behind everything stamped at or before `tick`.
pub open spec fn holds_copies<T: Clone>(
    before: Seq<WorldUpdate<T>>,
    after: Seq<WorldUpdate<T>>,
    updates: Seq<WorldUpdate<T>>,
    tick: SimulationTick,
) -> bool {
    let at = due_count(before, tick) as int;
    &&& after.len() == before.len() + updates.len()
    &&& after.take(at) == before.take(at)
    &&& after.skip(at + updates.len()) == before.skip(at)
    &&& forall|i: int|
        0 <= i < updates.len() ==> (#[trigger] after[at + i]).tick == tick && cloned(
            updates[i].update,
            after[at + i].update,
        )
}

/// Queues on the prediction world any prediction updates that should
/// happen in the tick it stands at: a copy of each update stamped with that
/// tick goes into the execution queue.
pub fn queue_prediction_updates<T: Clone>(
    prediction_updates: &PredictionUpdates<T>,
    queue: &mut UpdateExecutionQueue<T>,
    time: &SimulationTime,
)
    requires
        old(queue).0.wf(),
    ensures
        final(queue).0.wf(),
        holds_copies(
            old(queue).0@,
            final(queue).0@,
            stamped_at(prediction_updates.0@, SimulationTick(time@.current_tick as u32)),
            SimulationTick(time@.current_tick as u32),
        ),
{
    let tick = time.current_tick();
    proof {
        time.lemma_bounded();
    }
    assert(tick == SimulationTick(time@.current_tick as u32));
    let ghost before = queue.0@;
    let ghost at = due_count(before, tick) as int;
    proof {
        lemma_due_count_splits(before, tick);
        assert(prediction_updates.0@.take(0) =~= Seq::empty());
    }
    let mut seen: usize = 0;
    let count = prediction_updates.0.len();
    while seen < count
        invariant
            0 <= seen <= prediction_updates.0@.len(),
            count == prediction_updates.0@.len(),
            queue.0.wf(),
            at == due_count(before, tick),
            0 <= at <= before.len(),
            forall|i: int| 0 <= i < at ==> before[i].tick.0 <= tick.0,
            forall|i: int| at <= i < before.len() ==> before[i].tick.0 > tick.0,
            holds_copies(
                before,
                queue.0@,
                stamped_at(prediction_updates.0@.take(seen as int), tick),
                tick,
            ),
        decreases prediction_updates.0@.len() - seen,
    {
        let ghost done = stamped_at(prediction_updates.0@.take(seen as int), tick);
        let ghost next = prediction_updates.0@.take(seen + 1);
        assert(next.drop_last() == prediction_updates.0@.take(seen as int));
        assert(next.last() == prediction_updates.0@[seen as int]);
        let update = prediction_updates.0.get(seen).unwrap();
        if update.tick.0 == tick.0 {
            let copy = update.clone();
            let ghost current = queue.0@;
            proof {
                let split = at + done.len();
                assert forall|i: int| 0 <= i < split implies current[i].tick.0 <= tick.0 by {
                    if i < at {
                        assert(current.take(at)[i] == current[i]);
                        assert(before.take(at)[i] == before[i]);
                    } else {
                        assert(current[at + (i - at)].tick == tick);
                    }
                }
                assert forall|i: int| split <= i < current.len() implies current[i].tick.0
                    > tick.0 by {
                    assert(current.skip(split)[i - split] == current[i]);
                    assert(before.skip(at)[i - split] == before[i - split + at]);
                }
                lemma_due_count_is_split(current, tick, split);
            }
            queue.0.insert(copy);
            proof {
                let split = at + done.len();
                let after = queue.0@;
                let grown = stamped_at(next, tick);
                assert(grown == done.push(prediction_updates.0@[seen as int]));
                assert(after == current.insert(split, copy));
                assert(after.take(at) =~= before.take(at)) by {
                    assert forall|i: int| 0 <= i < at implies after.take(at)[i] == before.take(
                        at,
                    )[i] by {
                        assert(after[i] == current[i]);
                        assert(current.take(at)[i] == current[i]);
                    }
                }
                assert(after.skip(at + grown.len()) =~= before.skip(at)) by {
                    assert forall|i: int| 0 <= i < before.len() - at implies after.skip(
                        at + grown.len(),
                    )[i] == before.skip(at)[i] by {
                        assert(after[at + grown.len() + i] == current[split + i]);
                        assert(current.skip(split)[i] == current[split + i]);
                    }
                }
                assert forall|i: int| 0 <= i < grown.len() implies (#[trigger] after[at
                    + i]).tick == tick && cloned(grown[i].update, after[at + i].update) by {
                    if i < done.len() {
                        assert(after[at + i] == current[at + i]);
                        assert(grown[i] == done[i]);
                    }
                }
            }
        }
        seen += 1;
    }
    assert(prediction_updates.0@.take(seen as int) == prediction_updates.0@);
}

} // verus!
