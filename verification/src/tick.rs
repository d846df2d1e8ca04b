//! One physics tick as a state machine.
//!
//! A tick runs four phases strictly in this order: the balls are moved,
//! the broad phase is built over their boxes, the candidate pairs are
//! resolved, and the food is settled. The arithmetic of each phase is the
//! driver's work; which request comes next is decided here.

use crate::collision::{
    self, footprints, CollisionPass, Contact, PassAction, PassEvent, PassState, GRID_CELL_SIZE,
};
use crate::economy::{self, FoodAction, FoodPass, FoodState};
use crate::grid::{candidates_among, Aabb};
use crate::scheduler::{is_system_call, respawn_time, Identity, RESPAWN_MICROS};
use vstd::prelude::*;

verus! {

/// What the tick asks of the driver next.
#[derive(Clone, Copy, Debug, PartialEq, Eq, Structural)]
pub enum TickAction {
    /// Move every live ball and contain it in the border; then report the
    /// balls' boxes and the number of food items.
    Integrate,
    /// Report the current bounding box of this ball.
    Locate(usize),
    /// Run the narrow phase on this pair, lower index first, and report.
    Resolve(usize, usize),
    /// This ball was eaten: schedule its respawn for the given time, and
    /// report once that was tried. A request that the store refuses is
    /// the driver's to log; the ball stays dead all the same.
    ScheduleRespawn { ball: usize, fire_at: i64 },
    /// Report whether this ball covers this food item; where it does, the
    /// ball takes in the item's mass.
    TestFood { ball: usize, food: usize },
    /// Write the balls back and remove the food that was eaten: the tick
    /// is over.
    Commit,
}

/// What the driver reports to the tick.
pub enum TickEvent {
    /// The balls were moved; these are their boxes, and so many food items
    /// are present.
    Integrated { boxes: Vec<Aabb>, foods: usize },
    /// The bounding box, as of now, of the ball that the tick asked for.
    Located(Aabb),
    /// The outcome of the pair that the tick asked to resolve.
    Resolved(Contact),
    /// The respawn that the tick asked for was put to the task store.
    Scheduled,
    /// Whether the ball under test covers the food item under test.
    Tested(bool),
}

/// The state of a tick, as contracts see it.
pub enum TickState {
    /// The balls have yet to be moved. A ball that dies in this tick
    /// respawns at `respawn_at`.
    Integrating { respawn_at: i64 },
    /// The grid holds `boxes`; the collision pass is under way. Where
    /// `fallen` names a ball, it has just died and its respawn has yet to
    /// be scheduled.
    Colliding { boxes: Seq<Aabb>, pass: PassState, foods: nat, fallen: Option<usize>, respawn_at: i64 },
    /// The collisions are resolved; the food pass is under way.
    Feeding(FoodState),
    /// Every phase is done.
    Committing(FoodState),
}

/// The ball that dies when `contact` is reported for the pair that the
/// pass has put up for resolution, if one does.
pub open spec fn loser(pass: PassState, contact: Contact) -> Option<usize> {
    match (pass.awaiting, contact) {
        (PassAction::Resolve(first, _), Contact::FirstEaten) => Some(first),
        (PassAction::Resolve(_, second), Contact::SecondEaten) => Some(second),
        _ => None,
    }
}

impl TickState {
    /// The request that the driver has yet to answer.
    pub open spec fn action(self) -> TickAction {
        match self {
            TickState::Integrating { .. } => TickAction::Integrate,
            TickState::Colliding { pass, fallen, respawn_at, .. } => match fallen {
                Some(ball) => TickAction::ScheduleRespawn { ball, fire_at: respawn_at },
                None => match pass.awaiting {
                    PassAction::Locate(index) => TickAction::Locate(index),
                    PassAction::Resolve(first, second) => TickAction::Resolve(first, second),
                    PassAction::Finished => TickAction::Commit,
                },
            },
            TickState::Feeding(feeding) => match feeding.awaiting() {
                FoodAction::Test { ball, food } => TickAction::TestFood { ball, food },
                FoodAction::Finished => TickAction::Commit,
            },
            TickState::Committing(_) => TickAction::Commit,
        }
    }

    /// The food phase with the pass in the given state, or the end of the
    /// tick where the pass is finished.
    pub open spec fn feeding(feeding: FoodState) -> TickState {
        if feeding.finished() {
            TickState::Committing(feeding)
        } else {
            TickState::Feeding(feeding)
        }
    }

    /// The collision phase with the pass in the given state and no respawn
    /// to schedule, or what follows it where the pass is finished: the
    /// food phase, which the balls that died in the pass do not enter.
    pub open spec fn colliding(
        boxes: Seq<Aabb>,
        pass: PassState,
        foods: nat,
        respawn_at: i64,
    ) -> TickState {
        if pass.awaiting == PassAction::Finished {
            Self::feeding(economy::first_state(pass.dead, foods))
        } else {
            TickState::Colliding { boxes, pass, foods, fallen: None, respawn_at }
        }
    }

    /// The state after `event`, given the candidates `found` that a query
    /// would return where the event is a location that was asked for. An
    /// event that answers no outstanding request changes nothing.
    pub open spec fn step(self, event: TickEvent, found: Seq<usize>) -> TickState {
        match (self, event) {
            (TickState::Integrating { respawn_at }, TickEvent::Integrated { boxes, foods }) => {
                Self::colliding(
                    boxes@,
                    collision::first_state(boxes@.len()),
                    foods as nat,
                    respawn_at,
                )
            },
            (
                TickState::Colliding { boxes, pass, foods, fallen: None, respawn_at },
                TickEvent::Located(aabb),
            ) => Self::colliding(
                boxes,
                pass.step(PassEvent::Located(aabb), found),
                foods,
                respawn_at,
            ),
            (
                TickState::Colliding { boxes, pass, foods, fallen: None, respawn_at },
                TickEvent::Resolved(contact),
            ) => {
                let next = pass.step(PassEvent::Resolved(contact), found);
                match loser(pass, contact) {
                    Some(ball) => TickState::Colliding {
                        boxes,
                        pass: next,
                        foods,
                        fallen: Some(ball),
                        respawn_at,
                    },
                    None => Self::colliding(boxes, next, foods, respawn_at),
                }
            },
            (
                TickState::Colliding { boxes, pass, foods, fallen: Some(_), respawn_at },
                TickEvent::Scheduled,
            ) => Self::colliding(boxes, pass, foods, respawn_at),
            (TickState::Feeding(feeding), TickEvent::Tested(covered)) => Self::feeding(
                feeding.step(covered),
            ),
            _ => self,
        }
    }

    /// The number of the phase under way, in the order in which the
    /// phases run.
    pub open spec fn phase(self) -> nat {
        match self {
            TickState::Integrating { .. } => 0,
            TickState::Colliding { .. } => 1,
            TickState::Feeding(_) => 2,
            TickState::Committing(_) => 3,
        }
    }

    /// For each ball of the working set, whether it has died in this tick.
    pub open spec fn dead(self) -> Seq<bool> {
        match self {
            TickState::Integrating { .. } => Seq::empty(),
            TickState::Colliding { pass, .. } => pass.dead,
            TickState::Feeding(feeding) => feeding.dead,
            TickState::Committing(feeding) => feeding.dead,
        }
    }

    /// For each food item, whether a ball has claimed it in this tick.
    pub open spec fn eaten(self) -> Seq<bool> {
        match self {
            TickState::Integrating { .. } => Seq::empty(),
            TickState::Colliding { .. } => Seq::empty(),
            TickState::Feeding(feeding) => feeding.eaten,
            TickState::Committing(feeding) => feeding.eaten,
        }
    }

    /// The invariant of a tick: the pass of the phase under way is well
    /// formed, and it is finished only while the respawn of the ball that
    /// died last has yet to be scheduled.
    pub open spec fn wf(self) -> bool {
        match self {
            TickState::Integrating { .. } => true,
            TickState::Colliding { boxes, pass, foods, fallen, .. } => {
                &&& pass.wf()
                &&& boxes.len() == pass.dead.len()
                &&& foods <= usize::MAX
                &&& match fallen {
                    Some(ball) => ball < pass.dead.len() && pass.dead[ball as int],
                    None => pass.awaiting != PassAction::Finished,
                }
            },
            TickState::Feeding(feeding) => feeding.wf() && !feeding.finished(),
            TickState::Committing(feeding) => feeding.wf() && feeding.finished(),
        }
    }
}

/// The invariant of a tick holds in every state: whatever the driver
/// reports, and whatever in-range candidates a query returns, the next
/// state is well formed.
pub proof fn lemma_step_preserves_wf(state: TickState, event: TickEvent, found: Seq<usize>)
    requires
        state.wf(),
        forall|k: int| 0 <= k < found.len() ==> #[trigger] found[k] < state.dead().len(),
    ensures
        state.step(event, found).wf(),
{
    match (state, event) {
        (TickState::Integrating { .. }, TickEvent::Integrated { boxes, foods }) => {
            let pass = collision::first_state(boxes@.len());
            assert(boxes.len() == boxes@.len());
            if pass.awaiting == PassAction::Finished {
                economy::lemma_next_pair(pass.dead, Seq::new(foods as nat, |i: int| false), 0, 0);
            }
        },
        (TickState::Colliding { pass, foods, fallen: None, .. }, TickEvent::Located(aabb)) => {
            let next = pass.step(PassEvent::Located(aabb), found);
            collision::lemma_step_preserves_wf(pass, PassEvent::Located(aabb), found);
            collision::lemma_step_marks_only_the_loser(pass, PassEvent::Located(aabb), found);
            if next.awaiting == PassAction::Finished {
                economy::lemma_next_pair(next.dead, Seq::new(foods, |i: int| false), 0, 0);
            }
        },
        (TickState::Colliding { pass, foods, fallen: None, .. }, TickEvent::Resolved(contact)) => {
            let next = pass.step(PassEvent::Resolved(contact), found);
            collision::lemma_step_preserves_wf(pass, PassEvent::Resolved(contact), found);
            collision::lemma_step_marks_only_the_loser(pass, PassEvent::Resolved(contact), found);
            if next.awaiting == PassAction::Finished {
                economy::lemma_next_pair(next.dead, Seq::new(foods, |i: int| false), 0, 0);
            }
        },
        (TickState::Colliding { pass, foods, fallen: Some(_), .. }, TickEvent::Scheduled) => {
            if pass.awaiting == PassAction::Finished {
                economy::lemma_next_pair(pass.dead, Seq::new(foods, |i: int| false), 0, 0);
            }
        },
        (TickState::Feeding(feeding), TickEvent::Tested(covered)) => {
            economy::lemma_step_preserves_wf(feeding, covered);
        },
        _ => {},
    }
}

/// The phases run strictly in order: no step takes a tick back to an
/// earlier phase.
pub proof fn lemma_step_never_goes_back(state: TickState, event: TickEvent, found: Seq<usize>)
    ensures
        state.phase() <= state.step(event, found).phase(),
{
}

/// What a tick has settled stays settled, across its phases too: a ball
/// that has died is dead in every later state, so it meets no ball and
/// takes no food; and food that was claimed stays claimed.
pub proof fn lemma_step_keeps_the_dead_and_the_eaten(
    state: TickState,
    event: TickEvent,
    found: Seq<usize>,
)
    requires
        state.wf(),
    ensures
        forall|i: int|
            0 <= i < state.dead().len() && state.dead()[i] ==> i < state.step(
                event,
                found,
            ).dead().len() && state.step(event, found).dead()[i],
        forall|f: int|
            0 <= f < state.eaten().len() && state.eaten()[f] ==> f < state.step(
                event,
                found,
            ).eaten().len() && state.step(event, found).eaten()[f],
{
    match (state, event) {
        (TickState::Colliding { pass, fallen: None, .. }, TickEvent::Located(aabb)) => {
            collision::lemma_step_marks_only_the_loser(pass, PassEvent::Located(aabb), found);
        },
        (TickState::Colliding { pass, fallen: None, .. }, TickEvent::Resolved(contact)) => {
            collision::lemma_step_marks_only_the_loser(pass, PassEvent::Resolved(contact), found);
        },
        (TickState::Feeding(feeding), TickEvent::Tested(covered)) => {
            economy::lemma_step_claims_only_the_tested(feeding, covered);
        },
        _ => {},
    }
}

/// Every death is followed at once by the request to schedule the
/// respawn: where a step of the collision phase marks a ball dead, the
/// next request names that ball and the tick's respawn time.
pub proof fn lemma_death_is_followed_by_a_respawn_request(
    state: TickState,
    event: TickEvent,
    found: Seq<usize>,
    ball: int,
)
    requires
        state.wf(),
        state is Colliding,
        0 <= ball < state.dead().len(),
        !state.dead()[ball],
        state.step(event, found).dead().len() == state.dead().len(),
        state.step(event, found).dead()[ball],
    ensures
        state.step(event, found).action() == (TickAction::ScheduleRespawn {
            ball: ball as usize,
            fire_at: state->Colliding_respawn_at,
        }),
{
    match (state, event) {
        (TickState::Colliding { pass, fallen: None, .. }, TickEvent::Located(aabb)) => {
            collision::lemma_step_marks_only_the_loser(pass, PassEvent::Located(aabb), found);
        },
        (TickState::Colliding { pass, fallen: None, .. }, TickEvent::Resolved(contact)) => {
            collision::lemma_step_marks_only_the_loser(pass, PassEvent::Resolved(contact), found);
        },
        _ => {},
    }
}

enum Stage {
    Integrating,
    Colliding { boxes: Vec<Aabb>, pass: CollisionPass, foods: usize, fallen: Option<usize> },
    Feeding(FoodPass),
    Committing(FoodPass),
}

/// One tick under way.
pub struct Tick {
    stage: Stage,
    respawn_at: i64,
}

impl View for Tick {
    type V = TickState;

    closed spec fn view(&self) -> TickState {
        match self.stage {
            Stage::Integrating => TickState::Integrating { respawn_at: self.respawn_at },
            Stage::Colliding { boxes, pass, foods, fallen } => TickState::Colliding {
                boxes: boxes@,
                pass: pass@,
                foods: foods as nat,
                fallen,
                respawn_at: self.respawn_at,
            },
            Stage::Feeding(feeding) => TickState::Feeding(feeding@),
            Stage::Committing(feeding) => TickState::Committing(feeding@),
        }
    }
}

impl Tick {
    /// The tick's invariant: its state is well formed, and during the
    /// collision phase the grid holds the boxes that were reported.
    pub closed spec fn wf(&self) -> bool {
        &&& self@.wf()
        &&& match self.stage {
            Stage::Colliding { boxes, pass, foods, fallen } => {
                &&& pass.wf()
                &&& pass.grid().spec_cell_size() == GRID_CELL_SIZE
                &&& pass.grid()@ == footprints(boxes@, GRID_CELL_SIZE as int)
            },
            _ => true,
        }
    }

    /// Starts, at time `now`, a tick on behalf of `caller`. Only the
    /// system may run a tick: for any other caller there is none.
    pub fn begin(caller: Identity, system: Identity, now: i64) -> (tick: Option<Tick>)
        requires
            now + RESPAWN_MICROS <= i64::MAX,
        ensures
            tick is Some <==> caller == system,
            tick matches Some(started) ==> started.wf() && started@ == (TickState::Integrating {
                respawn_at: (now + RESPAWN_MICROS) as i64,
            }),
    {
        if is_system_call(caller, system) {
            Some(Tick { stage: Stage::Integrating, respawn_at: respawn_time(now) })
        } else {
            None
        }
    }

    /// The request that the driver has yet to answer.
    pub fn action(&self) -> (action: TickAction)
        ensures
            action == self@.action(),
    {
        match &self.stage {
            Stage::Integrating => TickAction::Integrate,
            Stage::Colliding { pass, fallen, .. } => match fallen {
                Some(ball) => TickAction::ScheduleRespawn { ball: *ball, fire_at: self.respawn_at },
                None => match pass.awaiting() {
                    PassAction::Locate(index) => TickAction::Locate(index),
                    PassAction::Resolve(first, second) => TickAction::Resolve(first, second),
                    PassAction::Finished => TickAction::Commit,
                },
            },
            Stage::Feeding(feeding) => match feeding.awaiting() {
                FoodAction::Test { ball, food } => TickAction::TestFood { ball, food },
                FoodAction::Finished => TickAction::Commit,
            },
            Stage::Committing(_) => TickAction::Commit,
        }
    }

    fn enter_feeding(feeding: FoodPass, respawn_at: i64) -> (tick: Tick)
        requires
            feeding@.wf(),
        ensures
            tick.wf(),
            tick@ == TickState::feeding(feeding@),
    {
        match feeding.awaiting() {
            FoodAction::Finished => Tick { stage: Stage::Committing(feeding), respawn_at },
            FoodAction::Test { .. } => Tick { stage: Stage::Feeding(feeding), respawn_at },
        }
    }

    fn enter_colliding(boxes: Vec<Aabb>, pass: CollisionPass, foods: usize, respawn_at: i64) -> (tick:
        Tick)
        requires
            pass.wf(),
            boxes@.len() == pass@.dead.len(),
            pass.grid().spec_cell_size() == GRID_CELL_SIZE,
            pass.grid()@ == footprints(boxes@, GRID_CELL_SIZE as int),
        ensures
            tick.wf(),
            tick@ == TickState::colliding(boxes@, pass@, foods as nat, respawn_at),
    {
        match pass.awaiting() {
            PassAction::Finished => {
                let feeding = FoodPass::begin(pass.into_dead(), foods);
                Self::enter_feeding(feeding, respawn_at)
            },
            _ => Tick { stage: Stage::Colliding { boxes, pass, foods, fallen: None }, respawn_at },
        }
    }

    /// Takes the driver's answer to the outstanding request and returns
    /// the tick in its next state, with the next request. An event that
    /// does not answer the outstanding request changes nothing.
    pub fn advance(self, event: TickEvent) -> (next: (Tick, TickAction))
        requires
            self.wf(),
        ensures
            next.0.wf(),
            next.1 == next.0@.action(),
            match (self@, event) {
                (
                    TickState::Colliding { boxes, pass, fallen: None, .. },
                    TickEvent::Located(aabb),
                ) if pass.awaiting is Locate => exists|found: Seq<usize>|
                    {
                        &&& found.no_duplicates()
                        &&& found.to_set() == candidates_among(
                            footprints(boxes, GRID_CELL_SIZE as int),
                            GRID_CELL_SIZE as int,
                            aabb,
                        )
                        &&& next.0@ == self@.step(event, found)
                    },
                _ => next.0@ == self@.step(event, Seq::empty()),
            },
    {
        let respawn_at = self.respawn_at;
        let tick = match (self.stage, event) {
            (Stage::Integrating, TickEvent::Integrated { boxes, foods }) => {
                let pass = CollisionPass::begin(&boxes);
                Self::enter_colliding(boxes, pass, foods, respawn_at)
            },
            (Stage::Colliding { boxes, pass, foods, fallen: None }, TickEvent::Located(aabb)) => {
                let mut pass = pass;
                let ghost before = pass@;
                pass.advance(PassEvent::Located(aabb));
                let ghost found = pass@.pending;
                let tick = Self::enter_colliding(boxes, pass, foods, respawn_at);
                proof {
                    if before.awaiting is Locate {
                        assert(tick@ == self@.step(event, found));
                    }
                }
                tick
            },
            (
                Stage::Colliding { boxes, pass, foods, fallen: None },
                TickEvent::Resolved(contact),
            ) => {
                let mut pass = pass;
                let fallen = match (pass.awaiting(), contact) {
                    (PassAction::Resolve(first, _), Contact::FirstEaten) => Some(first),
                    (PassAction::Resolve(_, second), Contact::SecondEaten) => Some(second),
                    _ => None,
                };
                pass.advance(PassEvent::Resolved(contact));
                match fallen {
                    Some(ball) => Tick {
                        stage: Stage::Colliding { boxes, pass, foods, fallen: Some(ball) },
                        respawn_at,
                    },
                    None => Self::enter_colliding(boxes, pass, foods, respawn_at),
                }
            },
            (Stage::Colliding { boxes, pass, foods, fallen: Some(_) }, TickEvent::Scheduled) => {
                Self::enter_colliding(boxes, pass, foods, respawn_at)
            },
            (Stage::Feeding(feeding), TickEvent::Tested(covered)) => {
                let mut feeding = feeding;
                feeding.advance(covered);
                Self::enter_feeding(feeding, respawn_at)
            },
            (stage, _) => Tick { stage, respawn_at },
        };
        let action = tick.action();
        (tick, action)
    }

    /// Whether the ball at `index` has died in this tick.
    pub fn is_dead(&self, index: usize) -> (dead: bool)
        ensures
            dead == (index < self@.dead().len() && self@.dead()[index as int]),
    {
        match &self.stage {
            Stage::Integrating => false,
            Stage::Colliding { pass, .. } => pass.is_dead(index),
            Stage::Feeding(feeding) => feeding.is_dead(index),
            Stage::Committing(feeding) => feeding.is_dead(index),
        }
    }

    /// Whether a ball has claimed the food item at `index` in this tick.
    pub fn is_eaten(&self, index: usize) -> (eaten: bool)
        ensures
            eaten == (index < self@.eaten().len() && self@.eaten()[index as int]),
    {
        match &self.stage {
            Stage::Integrating => false,
            Stage::Colliding { .. } => false,
            Stage::Feeding(feeding) => feeding.is_eaten(index),
            Stage::Committing(feeding) => feeding.is_eaten(index),
        }
    }
}

} // verus!
