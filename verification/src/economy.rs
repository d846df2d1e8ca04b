//! The food economy: the capped spawn rule and the consumption pass.
//!
//! Whether a ball covers a food item is geometry, and the driver's work.
//! The pass decides which ball is tested against which item, in what
//! order, and that an item is claimed at most once.

use vstd::prelude::*;

verus! {

/// The population at or above which no food is spawned.
pub const MAX_FOODS: u64 = 1000;

/// The number of food items that one spawn inserts.
pub const FOOD_BATCH: u64 = 100;

/// The number of food items that a spawn task inserts when `live` items
/// are present: none at or above the cap, a full batch below it.
pub fn spawn_count(live: u64) -> (count: u64)
    ensures
        count == if live >= MAX_FOODS {
            0
        } else {
            FOOD_BATCH
        },
{
    if live >= MAX_FOODS {
        0
    } else {
        FOOD_BATCH
    }
}

/// What the consumption pass asks of the driver next.
#[derive(Clone, Copy, Debug, PartialEq, Eq, Structural)]
pub enum FoodAction {
    /// Report whether this ball covers this food item.
    Test { ball: usize, food: usize },
    /// Every pair has been tested.
    Finished,
}

/// The state of a consumption pass, as contracts see it.
pub struct FoodState {
    /// For each ball, whether it is dead and so takes no food.
    pub dead: Seq<bool>,
    /// For each food item, whether a ball has claimed it.
    pub eaten: Seq<bool>,
    /// The ball of the pair under test, or the number of balls at the end.
    pub ball: int,
    /// The food item of the pair under test.
    pub food: int,
}

/// The first pair at or after `(ball, food)`, balls first, of a live ball
/// and an unclaimed food item; `(dead.len(), 0)` where there is none.
pub open spec fn next_pair(dead: Seq<bool>, eaten: Seq<bool>, ball: int, food: int) -> (int, int)
    decreases dead.len() - ball, eaten.len() - food,
{
    if ball < 0 || ball >= dead.len() {
        (dead.len() as int, 0)
    } else if dead[ball] || food < 0 || food >= eaten.len() {
        next_pair(dead, eaten, ball + 1, 0)
    } else if eaten[food] {
        next_pair(dead, eaten, ball, food + 1)
    } else {
        (ball, food)
    }
}

impl FoodState {
    /// Every pair has been tested.
    pub open spec fn finished(self) -> bool {
        self.ball >= self.dead.len()
    }

    /// The request that the driver has yet to answer.
    pub open spec fn awaiting(self) -> FoodAction {
        if self.finished() {
            FoodAction::Finished
        } else {
            FoodAction::Test { ball: self.ball as usize, food: self.food as usize }
        }
    }

    /// The invariant of a pass: the pair under test is a live ball and an
    /// unclaimed food item.
    pub open spec fn wf(self) -> bool {
        &&& 0 <= self.ball <= self.dead.len()
        &&& !self.finished() ==> {
            &&& 0 <= self.food < self.eaten.len()
            &&& !self.dead[self.ball]
            &&& !self.eaten[self.food]
        }
    }

    /// The state after the driver reported whether the ball under test
    /// covers the food item under test. Once finished, nothing changes.
    pub open spec fn step(self, covered: bool) -> FoodState {
        if self.finished() {
            self
        } else {
            let eaten = if covered {
                self.eaten.update(self.food, true)
            } else {
                self.eaten
            };
            let (ball, food) = next_pair(self.dead, eaten, self.ball, self.food + 1);
            FoodState { eaten, ball, food, ..self }
        }
    }
}

/// Where `next_pair` points: at the end, or at a live ball and an
/// unclaimed food item.
pub proof fn lemma_next_pair(dead: Seq<bool>, eaten: Seq<bool>, ball: int, food: int)
    requires
        0 <= ball <= dead.len(),
        0 <= food <= eaten.len(),
    ensures
        ({
            let (b, f) = next_pair(dead, eaten, ball, food);
            &&& ball <= b <= dead.len()
            &&& b == dead.len() ==> f == 0
            &&& b < dead.len() ==> 0 <= f < eaten.len() && !dead[b] && !eaten[f]
            &&& b == ball && b < dead.len() ==> food <= f
        }),
    decreases dead.len() - ball, eaten.len() - food,
{
    if ball < dead.len() {
        if dead[ball] || food >= eaten.len() {
            lemma_next_pair(dead, eaten, ball + 1, 0);
        } else if eaten[food] {
            lemma_next_pair(dead, eaten, ball, food + 1);
        }
    }
}

/// The pass's invariant holds in every state: whatever the driver
/// answers, the next pair under test is again a live ball and an unclaimed
/// food item. So an item is claimed at most once in a pass.
pub proof fn lemma_step_preserves_wf(state: FoodState, covered: bool)
    requires
        state.wf(),
    ensures
        state.step(covered).wf(),
{
    if !state.finished() {
        let eaten = if covered {
            state.eaten.update(state.food, true)
        } else {
            state.eaten
        };
        lemma_next_pair(state.dead, eaten, state.ball, state.food + 1);
    }
}

/// A step claims the food item under test where the driver reports it
/// covered, and touches no other: what was claimed stays claimed, and
/// nothing else becomes claimed.
pub proof fn lemma_step_claims_only_the_tested(state: FoodState, covered: bool)
    requires
        state.wf(),
    ensures
        state.step(covered).dead == state.dead,
        state.step(covered).eaten.len() == state.eaten.len(),
        forall|f: int|
            0 <= f < state.eaten.len() ==> (state.step(covered).eaten[f] <==> state.eaten[f] || (
            covered && !state.finished() && f == state.food)),
{
}

/// The state in which a pass over the given balls and `foods` unclaimed
/// food items begins.
pub open spec fn first_state(dead: Seq<bool>, foods: nat) -> FoodState {
    let eaten = Seq::new(foods, |i: int| false);
    let (ball, food) = next_pair(dead, eaten, 0, 0);
    FoodState { dead, eaten, ball, food }
}

/// One tick's pass over the pairs of live balls and food items.
pub struct FoodPass {
    dead: Vec<bool>,
    eaten: Vec<bool>,
    ball: usize,
    food: usize,
}

impl View for FoodPass {
    type V = FoodState;

    closed spec fn view(&self) -> FoodState {
        FoodState {
            dead: self.dead@,
            eaten: self.eaten@,
            ball: self.ball as int,
            food: self.food as int,
        }
    }
}

impl FoodPass {
    /// Starts a pass over the balls, of which `dead` marks those that take
    /// no food, and `foods` food items, none of them claimed.
    pub fn begin(dead: Vec<bool>, foods: usize) -> (pass: Self)
        ensures
            pass@.wf(),
            pass@ == first_state(dead@, foods as nat),
    {
        let mut eaten: Vec<bool> = Vec::new();
        let mut i: usize = 0;
        while i < foods
            invariant
                i <= foods,
                eaten@ == Seq::new(i as nat, |k: int| false),
            decreases foods - i,
        {
            eaten.push(false);
            assert(eaten@ =~= Seq::new((i + 1) as nat, |k: int| false));
            i = i + 1;
        }
        let mut pass = FoodPass { dead, eaten, ball: 0, food: 0 };
        pass.settle();
        pass
    }

    /// Moves the position forward to the first pair, at or after it, of a
    /// live ball and an unclaimed food item.
    fn settle(&mut self)
        requires
            old(self).ball <= old(self).dead.len(),
            old(self).food <= old(self).eaten.len(),
        ensures
            final(self).dead == old(self).dead,
            final(self).eaten == old(self).eaten,
            (final(self)@.ball, final(self)@.food) == next_pair(
                old(self)@.dead,
                old(self)@.eaten,
                old(self)@.ball,
                old(self)@.food,
            ),
            final(self)@.wf(),
    {
        let mut ball: usize = self.ball;
        let mut food: usize = self.food;
        while ball < self.dead.len() && (self.dead[ball] || food >= self.eaten.len()
            || self.eaten[food])
            invariant
                ball <= self.dead.len(),
                food <= self.eaten.len(),
                next_pair(self.dead@, self.eaten@, ball as int, food as int) == next_pair(
                    self.dead@,
                    self.eaten@,
                    self.ball as int,
                    self.food as int,
                ),
            decreases self.dead.len() - ball, self.eaten.len() - food,
        {
            if self.dead[ball] || food >= self.eaten.len() {
                ball = ball + 1;
                food = 0;
            } else {
                food = food + 1;
            }
        }
        if ball >= self.dead.len() {
            food = 0;
        }
        self.ball = ball;
        self.food = food;
    }

    /// The request that the driver has yet to answer.
    pub fn awaiting(&self) -> (action: FoodAction)
        ensures
            action == self@.awaiting(),
    {
        if self.ball >= self.dead.len() {
            FoodAction::Finished
        } else {
            FoodAction::Test { ball: self.ball, food: self.food }
        }
    }

    /// Takes the driver's answer for the pair under test, whether the ball
    /// covers the food item, and returns the next request. A covered item
    /// is claimed and never tested again.
    pub fn advance(&mut self, covered: bool) -> (action: FoodAction)
        requires
            old(self)@.wf(),
        ensures
            final(self)@.wf(),
            final(self)@ == old(self)@.step(covered),
            action == final(self)@.awaiting(),
    {
        if self.ball < self.dead.len() {
            assert(self.food < self.eaten.len());
            if covered {
                self.eaten.set(self.food, true);
            }
            self.food = self.food + 1;
            self.settle();
        }
        self.awaiting()
    }

    /// Whether the ball at `index` is dead and so takes no food.
    pub fn is_dead(&self, index: usize) -> (dead: bool)
        ensures
            dead == (index < self@.dead.len() && self@.dead[index as int]),
    {
        index < self.dead.len() && self.dead[index]
    }

    /// Whether a ball claimed the food item at `index` in this pass.
    pub fn is_eaten(&self, index: usize) -> (eaten: bool)
        ensures
            eaten == (index < self@.eaten.len() && self@.eaten[index as int]),
    {
        index < self.eaten.len() && self.eaten[index]
    }
}

} // verus!
