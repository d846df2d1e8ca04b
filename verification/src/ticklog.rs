//! The bounded ledger of executed ticks: one row per tick, kept for one
//! second.

use vstd::prelude::*;

verus! {

/// How long a tick's row is kept, in microseconds.
pub const TICK_RETENTION_MICROS: i64 = 1_000_000;

/// The record of one executed tick.
#[derive(Clone, Copy, Debug, PartialEq, Eq, Structural)]
pub struct PhysicsTick {
    pub tick_id: u64,
    pub ticked_at: i64,
}

/// The tick ran more than the retention window before `now`.
pub open spec fn is_stale(tick: PhysicsTick, now: int) -> bool {
    tick.ticked_at < now - TICK_RETENTION_MICROS
}

/// The predicate that holds of the ticks that are stale at `now`.
pub open spec fn stale_at(now: int) -> spec_fn(PhysicsTick) -> bool {
    |tick: PhysicsTick| is_stale(tick, now)
}

/// The function that gives a tick's id.
pub open spec fn id_of() -> spec_fn(PhysicsTick) -> u64 {
    |tick: PhysicsTick| tick.tick_id
}

/// The ids of the ticks that are stale at `now`, in the order of `ticks`.
pub open spec fn stale_ids(ticks: Seq<PhysicsTick>, now: int) -> Seq<u64> {
    ticks.filter(stale_at(now)).map_values(id_of())
}

/// Returns the ids of the rows to prune at `now`: those of the ticks that
/// ran more than the retention window ago, in the order of `ticks`.
pub fn stale_ticks(ticks: &Vec<PhysicsTick>, now: i64) -> (stale: Vec<u64>)
    ensures
        stale@ == stale_ids(ticks@, now as int),
{
    let horizon: i128 = now as i128 - TICK_RETENTION_MICROS as i128;
    let mut stale: Vec<u64> = Vec::new();
    let mut i: usize = 0;
    assert(ticks@.take(0) =~= Seq::<PhysicsTick>::empty());
    assert(stale@ =~= stale_ids(ticks@.take(0), now as int));
    while i < ticks.len()
        invariant
            i <= ticks.len(),
            horizon == now - TICK_RETENTION_MICROS,
            stale@ == stale_ids(ticks@.take(i as int), now as int),
        decreases ticks.len() - i,
    {
        let tick = ticks[i];
        proof {
            let head = ticks@.take(i as int);
            head.lemma_filter_push(tick, stale_at(now as int));
            head.filter(stale_at(now as int)).lemma_push_map_commute(id_of(), tick);
            assert(ticks@.take(i + 1) =~= head.push(tick));
        }
        if (tick.ticked_at as i128) < horizon {
            stale.push(tick.tick_id);
        }
        i = i + 1;
    }
    assert(ticks@.take(ticks.len() as int) =~= ticks@);
    stale
}

} // verus!
