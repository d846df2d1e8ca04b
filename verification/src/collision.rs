//! The narrow-phase pass of one tick, as a state machine.
//!
//! The pass decides which pairs of balls meet and in what order; the
//! geometry of one meeting is the driver's work. The driver feeds back
//! what it found, and the pass keeps the dead out of every later pair.

use crate::grid::{
    candidates_among, lemma_intersecting_boxes_share_a_cell, Aabb, Membership, SpatialHashGrid,
};
use vstd::prelude::*;

verus! {

/// The cell size of the grid that a pass builds.
pub const GRID_CELL_SIZE: i64 = 10;

/// What the narrow phase found for an ordered pair `(first, second)`.
#[derive(Clone, Copy, Debug, PartialEq, Eq, Structural)]
pub enum Contact {
    /// The two do not overlap.
    Apart,
    /// The two overlapped and bounced off each other; both live on.
    Bounced,
    /// The second ate the first: the first is dead.
    FirstEaten,
    /// The first ate the second: the second is dead.
    SecondEaten,
}

impl Contact {
    /// The outcome for an ordered pair, from what the geometry shows:
    /// whether the two overlap, whether their radii differ by more than the
    /// eating threshold, and whether the second is the heavier. Where one
    /// eats the other the heavier wins, and the first where both weigh the
    /// same.
    pub open spec fn spec_classify(overlapping: bool, eats: bool, second_heavier: bool) -> Contact {
        if !overlapping {
            Contact::Apart
        } else if !eats {
            Contact::Bounced
        } else if second_heavier {
            Contact::FirstEaten
        } else {
            Contact::SecondEaten
        }
    }

    /// Decides the outcome for an ordered pair from what the geometry
    /// shows.
    pub fn classify(overlapping: bool, eats: bool, second_heavier: bool) -> (contact: Contact)
        ensures
            contact == Contact::spec_classify(overlapping, eats, second_heavier),
    {
        if !overlapping {
            Contact::Apart
        } else if !eats {
            Contact::Bounced
        } else if second_heavier {
            Contact::FirstEaten
        } else {
            Contact::SecondEaten
        }
    }

    /// Whether the pair interacted at all.
    pub fn touched(&self) -> (touched: bool)
        ensures
            touched == (*self != Contact::Apart),
    {
        match self {
            Contact::Apart => false,
            _ => true,
        }
    }
}

/// What the driver reports to the pass.
#[derive(Clone, Copy, Debug, PartialEq, Eq, Structural)]
pub enum PassEvent {
    /// The bounding box, as of now, of the ball that the pass asked for.
    Located(Aabb),
    /// The outcome of the pair that the pass asked to resolve.
    Resolved(Contact),
}

/// What the pass asks of the driver next.
#[derive(Clone, Copy, Debug, PartialEq, Eq, Structural)]
pub enum PassAction {
    /// Report the current bounding box of this ball.
    Locate(usize),
    /// Run the narrow phase on this pair, lower index first, and report.
    Resolve(usize, usize),
    /// Every pair has been visited.
    Finished,
}

/// The state of a pass, as contracts see it.
pub struct PassState {
    /// For each ball of the working set, whether it died in this pass.
    pub dead: Seq<bool>,
    /// The ball whose candidates are being visited.
    pub current: int,
    /// The candidates of `current`, in visiting order.
    pub pending: Seq<usize>,
    /// How many of `pending` have been looked at.
    pub cursor: int,
    /// The request that the driver has yet to answer.
    pub awaiting: PassAction,
}

/// The least index at or after `from` whose ball is alive, or the number
/// of balls where there is none.
pub open spec fn next_alive(dead: Seq<bool>, from: int) -> int
    decreases dead.len() - from,
{
    if from < 0 || from >= dead.len() {
        dead.len() as int
    } else if !dead[from] {
        from
    } else {
        next_alive(dead, from + 1)
    }
}

impl PassState {
    /// Candidate `id` can still meet the current ball: it is another ball,
    /// and alive.
    pub open spec fn viable(self, id: usize) -> bool {
        id != self.current && 0 <= id < self.dead.len() && !self.dead[id as int]
    }

    /// The position of the first viable candidate at or after `from`, or
    /// the number of candidates where there is none.
    pub open spec fn first_viable(self, from: int) -> int
        decreases self.pending.len() - from,
    {
        if from < 0 || from >= self.pending.len() {
            self.pending.len() as int
        } else if self.viable(self.pending[from]) {
            from
        } else {
            self.first_viable(from + 1)
        }
    }

    /// Leaves the current ball for the next one alive, if any.
    pub open spec fn move_on(self) -> PassState {
        let next = next_alive(self.dead, self.current + 1);
        PassState {
            current: next,
            awaiting: if next < self.dead.len() {
                PassAction::Locate(next as usize)
            } else {
                PassAction::Finished
            },
            ..self
        }
    }

    /// Asks for the next viable candidate of the current ball, or moves on
    /// where none is left.
    pub open spec fn seek(self) -> PassState {
        let k = self.first_viable(self.cursor);
        if k < self.pending.len() {
            let other = self.pending[k];
            PassState {
                cursor: k + 1,
                awaiting: if other < self.current {
                    PassAction::Resolve(other, self.current as usize)
                } else {
                    PassAction::Resolve(self.current as usize, other)
                },
                ..self
            }
        } else {
            PassState { cursor: k, ..self }.move_on()
        }
    }

    /// The state after the candidates `found` came back for the current ball.
    pub open spec fn located(self, found: Seq<usize>) -> PassState {
        PassState { pending: found, cursor: 0, ..self }.seek()
    }

    /// The dead flags after `contact` was reported for the pair `(first, second)`.
    pub open spec fn deaths_after(self, first: usize, second: usize, contact: Contact) -> Seq<bool> {
        match contact {
            Contact::FirstEaten => self.dead.update(first as int, true),
            Contact::SecondEaten => self.dead.update(second as int, true),
            _ => self.dead,
        }
    }

    /// The state after `contact` was reported for the pair `(first, second)`.
    pub open spec fn resolved(self, first: usize, second: usize, contact: Contact) -> PassState {
        let marked = PassState { dead: self.deaths_after(first, second, contact), ..self };
        if marked.dead[marked.current] {
            marked.move_on()
        } else {
            marked.seek()
        }
    }

    /// The state after `event`, given the candidates `found` that a query
    /// would return where the event is a location that was asked for. An
    /// event that answers no outstanding request changes nothing.
    pub open spec fn step(self, event: PassEvent, found: Seq<usize>) -> PassState {
        match (self.awaiting, event) {
            (PassAction::Locate(_), PassEvent::Located(_)) => self.located(found),
            (PassAction::Resolve(first, second), PassEvent::Resolved(contact)) => self.resolved(
                first,
                second,
                contact,
            ),
            _ => self,
        }
    }

    /// The invariant of a pass: indices are in range, and a pair that is
    /// up for resolution is made of the current ball and another, both
    /// alive, the lower index first.
    pub open spec fn wf(self) -> bool {
        &&& 0 <= self.current <= self.dead.len() <= usize::MAX
        &&& 0 <= self.cursor <= self.pending.len()
        &&& forall|k: int| 0 <= k < self.pending.len() ==> #[trigger] self.pending[k] < self.dead.len()
        &&& match self.awaiting {
            PassAction::Locate(i) => i == self.current && i < self.dead.len() && !self.dead[i as int],
            PassAction::Resolve(first, second) => {
                &&& first < second < self.dead.len()
                &&& first == self.current || second == self.current
                &&& !self.dead[first as int]
                &&& !self.dead[second as int]
            },
            PassAction::Finished => self.current == self.dead.len(),
        }
    }
}

/// Where `next_alive` points: at or after `from`, at a live ball or at the
/// end, with only dead balls in between.
pub proof fn lemma_next_alive(dead: Seq<bool>, from: int)
    requires
        0 <= from <= dead.len(),
    ensures
        from <= next_alive(dead, from) <= dead.len(),
        next_alive(dead, from) < dead.len() ==> !dead[next_alive(dead, from)],
        forall|i: int| from <= i < next_alive(dead, from) ==> dead[i],
    decreases dead.len() - from,
{
    if from < dead.len() && dead[from] {
        lemma_next_alive(dead, from + 1);
    }
}

/// Where `first_viable` points: at or after `from`, at a viable candidate
/// or at the end, with no viable candidate in between.
pub proof fn lemma_first_viable(state: PassState, from: int)
    requires
        0 <= from <= state.pending.len(),
    ensures
        from <= state.first_viable(from) <= state.pending.len(),
        state.first_viable(from) < state.pending.len() ==> state.viable(
            state.pending[state.first_viable(from)],
        ),
        forall|k: int| from <= k < state.first_viable(from) ==> !state.viable(state.pending[k]),
    decreases state.pending.len() - from,
{
    if from < state.pending.len() && !state.viable(state.pending[from]) {
        lemma_first_viable(state, from + 1);
    }
}

/// The pass's invariant holds in every state: whatever the driver reports,
/// and whatever in-range candidates a query returns, the next state is
/// well formed. In particular no pair is ever put up for resolution that
/// holds a dead ball.
pub proof fn lemma_step_preserves_wf(state: PassState, event: PassEvent, found: Seq<usize>)
    requires
        state.wf(),
        forall|k: int| 0 <= k < found.len() ==> #[trigger] found[k] < state.dead.len(),
    ensures
        state.step(event, found).wf(),
{
    match (state.awaiting, event) {
        (PassAction::Locate(_), PassEvent::Located(_)) => {
            let queried = PassState { pending: found, cursor: 0, ..state };
            lemma_first_viable(queried, 0);
            lemma_next_alive(queried.dead, queried.current + 1);
        },
        (PassAction::Resolve(first, second), PassEvent::Resolved(contact)) => {
            let marked = PassState { dead: state.deaths_after(first, second, contact), ..state };
            lemma_first_viable(marked, marked.cursor);
            lemma_next_alive(marked.dead, marked.current + 1);
        },
        _ => {},
    }
}

/// Death is final within a pass, and comes only to the loser of the pair
/// that was just resolved: a step marks no other ball dead and revives
/// none.
pub proof fn lemma_step_marks_only_the_loser(state: PassState, event: PassEvent, found: Seq<usize>)
    requires
        state.wf(),
    ensures
        state.step(event, found).dead.len() == state.dead.len(),
        forall|i: int|
            0 <= i < state.dead.len() && state.dead[i] ==> state.step(event, found).dead[i],
        forall|i: int|
            0 <= i < state.dead.len() && !state.dead[i] && state.step(event, found).dead[i] ==> {
                ||| state.awaiting matches PassAction::Resolve(first, _) && i == first && event
                    == PassEvent::Resolved(Contact::FirstEaten)
                ||| state.awaiting matches PassAction::Resolve(_, second) && i == second && event
                    == PassEvent::Resolved(Contact::SecondEaten)
            },
{
}

/// The bucket entries of a grid into which each box was inserted under its
/// position in `boxes`.
pub open spec fn footprints(boxes: Seq<Aabb>, cell_size: int) -> Set<Membership> {
    Set::new(
        |m: Membership| m.id < boxes.len() && boxes[m.id as int].covers_cell(cell_size, m.cx, m.cy),
    )
}

/// The broad phase of a pass misses no ball: one whose inserted box
/// intersects the box that the driver reports is among the candidates.
pub proof fn lemma_candidates_include_every_intersecting_ball(
    boxes: Seq<Aabb>,
    cell_size: int,
    index: usize,
    aabb: Aabb,
)
    requires
        cell_size > 0,
        index < boxes.len(),
        boxes[index as int].intersects(aabb),
    ensures
        candidates_among(footprints(boxes, cell_size), cell_size, aabb).contains(index),
{
    let (cx, cy) = lemma_intersecting_boxes_share_a_cell(boxes[index as int], aabb, cell_size);
    assert(footprints(boxes, cell_size).contains(Membership { cx, cy, id: index }));
}

/// The state in which a pass over `count` balls begins: every ball alive,
/// the first one to be located.
pub open spec fn first_state(count: nat) -> PassState {
    PassState {
        dead: Seq::new(count, |i: int| false),
        current: 0,
        pending: Seq::empty(),
        cursor: 0,
        awaiting: if count > 0 {
            PassAction::Locate(0)
        } else {
            PassAction::Finished
        },
    }
}

/// One tick's pass over the candidate pairs of a working set of balls.
pub struct CollisionPass {
    grid: SpatialHashGrid,
    dead: Vec<bool>,
    current: usize,
    pending: Vec<usize>,
    cursor: usize,
    awaiting: PassAction,
}

impl View for CollisionPass {
    type V = PassState;

    closed spec fn view(&self) -> PassState {
        PassState {
            dead: self.dead@,
            current: self.current as int,
            pending: self.pending@,
            cursor: self.cursor as int,
            awaiting: self.awaiting,
        }
    }
}

impl CollisionPass {
    /// The grid that the pass queries.
    pub closed spec fn grid(&self) -> SpatialHashGrid {
        self.grid
    }

    /// The pass's invariant: its state is well formed and the grid lists
    /// only balls of the working set.
    pub open spec fn wf(&self) -> bool {
        &&& self@.wf()
        &&& self.grid().wf()
        &&& forall|m: Membership| #[trigger] self.grid()@.contains(m) ==> m.id < self@.dead.len()
    }

    /// Builds the grid over the balls' boxes, each under its index, and
    /// starts the pass at the first ball with every ball alive.
    pub fn begin(boxes: &Vec<Aabb>) -> (pass: Self)
        ensures
            pass.wf(),
            pass.grid().spec_cell_size() == GRID_CELL_SIZE,
            pass.grid()@ == footprints(boxes@, GRID_CELL_SIZE as int),
            pass@ == first_state(boxes@.len()),
    {
        let mut grid = SpatialHashGrid::new(GRID_CELL_SIZE);
        let mut dead: Vec<bool> = Vec::new();
        let mut i: usize = 0;
        assert(grid@ =~= footprints(boxes@.take(0), GRID_CELL_SIZE as int));
        while i < boxes.len()
            invariant
                i <= boxes.len(),
                grid.wf(),
                grid.spec_cell_size() == GRID_CELL_SIZE,
                grid@ == footprints(boxes@.take(i as int), GRID_CELL_SIZE as int),
                dead@ == Seq::new(i as nat, |k: int| false),
            decreases boxes.len() - i,
        {
            grid.insert_with_aabb(i, boxes[i]);
            dead.push(false);
            assert(grid@ =~= footprints(boxes@.take(i + 1), GRID_CELL_SIZE as int));
            assert(dead@ =~= Seq::new((i + 1) as nat, |k: int| false));
            i = i + 1;
        }
        assert(boxes@.take(boxes.len() as int) =~= boxes@);
        let awaiting = if boxes.len() > 0 {
            PassAction::Locate(0)
        } else {
            PassAction::Finished
        };
        CollisionPass { grid, dead, current: 0, pending: Vec::new(), cursor: 0, awaiting }
    }

    /// The request that the driver has yet to answer.
    pub fn awaiting(&self) -> (action: PassAction)
        ensures
            action == self@.awaiting,
    {
        self.awaiting
    }

    /// Whether the ball at `index` died in this pass.
    pub fn is_dead(&self, index: usize) -> (dead: bool)
        ensures
            dead == (index < self@.dead.len() && self@.dead[index as int]),
    {
        index < self.dead.len() && self.dead[index]
    }

    /// Ends the pass and hands out, for each ball, whether it died.
    pub fn into_dead(self) -> (dead: Vec<bool>)
        ensures
            dead@ == self@.dead,
    {
        self.dead
    }

    fn move_on(&mut self) -> (action: PassAction)
        requires
            old(self).current < old(self).dead.len(),
        ensures
            final(self)@ == old(self)@.move_on(),
            final(self).grid == old(self).grid,
            action == final(self)@.awaiting,
            final(self)@.awaiting != PassAction::Finished ==> !final(self)@.dead[final(self)@.current],
            final(self)@.current <= final(self)@.dead.len(),
    {
        let mut i: usize = self.current + 1;
        while i < self.dead.len() && self.dead[i]
            invariant
                self.current < i <= self.dead.len(),
                next_alive(self.dead@, self.current + 1) == next_alive(self.dead@, i as int),
            decreases self.dead.len() - i,
        {
            i = i + 1;
        }
        self.current = i;
        self.awaiting = if i < self.dead.len() {
            PassAction::Locate(i)
        } else {
            PassAction::Finished
        };
        self.awaiting
    }

    fn seek(&mut self) -> (action: PassAction)
        requires
            old(self).current < old(self).dead.len(),
            !old(self).dead[old(self).current as int],
            old(self).cursor <= old(self).pending.len(),
            forall|k: int| 0 <= k < old(self).pending.len() ==> #[trigger] old(self).pending[k] < old(self).dead.len(),
        ensures
            final(self)@ == old(self)@.seek(),
            final(self).grid == old(self).grid,
            action == final(self)@.awaiting,
            final(self)@.wf(),
    {
        let mut k: usize = self.cursor;
        while k < self.pending.len() && (self.pending[k] == self.current || self.dead[self.pending[k]])
            invariant
                self.cursor <= k <= self.pending.len(),
                forall|j: int| 0 <= j < self.pending.len() ==> #[trigger] self.pending[j] < self.dead.len(),
                self@.first_viable(self.cursor as int) == self@.first_viable(k as int),
            decreases self.pending.len() - k,
        {
            k = k + 1;
        }
        if k < self.pending.len() {
            let other: usize = self.pending[k];
            self.cursor = k + 1;
            self.awaiting = if other < self.current {
                PassAction::Resolve(other, self.current)
            } else {
                PassAction::Resolve(self.current, other)
            };
            self.awaiting
        } else {
            self.cursor = k;
            self.move_on()
        }
    }

    /// Takes the driver's answer to the outstanding request and returns the
    /// next request. An event that does not answer the outstanding request
    /// changes nothing, and the request is returned again.
    pub fn advance(&mut self, event: PassEvent) -> (action: PassAction)
        requires
            old(self).wf(),
        ensures
            final(self).wf(),
            final(self).grid() == old(self).grid(),
            action == final(self)@.awaiting,
            final(self)@ == old(self)@.step(event, final(self)@.pending),
            final(self)@.dead.len() == old(self)@.dead.len(),
            forall|i: int|
                0 <= i < old(self)@.dead.len() && old(self)@.dead[i] ==> final(self)@.dead[i],
            match (old(self)@.awaiting, event) {
                (PassAction::Locate(_), PassEvent::Located(aabb)) => {
                    &&& final(self)@.pending.no_duplicates()
                    &&& final(self)@.pending.to_set() == old(self).grid().candidates(aabb)
                },
                _ => final(self)@.pending == old(self)@.pending,
            },
    {
        match (self.awaiting, event) {
            (PassAction::Locate(_), PassEvent::Located(aabb)) => {
                self.pending = self.grid.get_for_aabb(aabb);
                self.cursor = 0;
                proof {
                    assert forall|k: int| 0 <= k < self.pending@.len() implies #[trigger] self.pending@[k] < self.dead@.len() by {
                        let id = self.pending@[k];
                        assert(self.pending@.to_set().contains(id));
                        let (cx, cy) = choose|cx: int, cy: int|
                            aabb.covers_cell(self.grid.spec_cell_size(), cx, cy) && self.grid@.contains(
                                Membership { cx, cy, id },
                            );
                        assert(self.grid()@.contains(Membership { cx, cy, id }));
                    }
                }
                self.seek()
            },
            (PassAction::Resolve(first, second), PassEvent::Resolved(contact)) => {
                match contact {
                    Contact::FirstEaten => {
                        self.dead.set(first, true);
                    },
                    Contact::SecondEaten => {
                        self.dead.set(second, true);
                    },
                    _ => {},
                }
                if self.dead[self.current] {
                    self.move_on()
                } else {
                    self.seek()
                }
            },
            _ => self.awaiting,
        }
    }
}

} // verus!
