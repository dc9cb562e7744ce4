//! The stages of a load follow one another.
use crate::domain::load::{
    held64, load_from, ramp_meets_its_ends, ramps_are_half_done_at_half_time, stage_clients,
    stage_ms, total_secs, LoadStage, LoadStageMode,
};
use crate::domain::ramp::ramps_stay_between_their_targets;
use vstd::prelude::*;

verus! {

/// When stage `k` begins, in milliseconds: all stages before it have taken their time.
pub open spec fn begins_at(stages: Seq<LoadStage>, k: int) -> int
    decreases k,
{
    if k <= 0 {
        0
    } else {
        begins_at(stages, k - 1) + 1000 * stages[k - 1].duration_secs
    }
}

/// How many clients there are when stage `k` begins: as many as the stage before it was to reach,
/// and none at the start.
pub open spec fn clients_before(stages: Seq<LoadStage>, k: int) -> int {
    if k <= 0 {
        0
    } else {
        stages[k - 1].target_virtual_clients as int
    }
}

/// A number lies between two others.
pub open spec fn is_between(n: int, a: int, b: int) -> bool {
    a <= n <= b || b <= n <= a
}

proof fn beginnings_grow(stages: Seq<LoadStage>, i: int, k: int)
    requires
        0 <= i <= k <= stages.len(),
    ensures
        0 <= begins_at(stages, i) <= begins_at(stages, k),
    decreases k,
{
    if i < k {
        beginnings_grow(stages, i, k - 1);
    } else if k > 0 {
        beginnings_grow(stages, k - 1, k - 1);
    }
}

/// The stages take the sum of their durations.
pub proof fn durations_add_up(stages: Seq<LoadStage>, k: int)
    requires
        0 <= k <= stages.len(),
    ensures
        1000 * total_secs(stages, k) == begins_at(stages, k),
    decreases k,
{
    if k > 0 {
        durations_add_up(stages, k - 1);
    }
}

/// The load among the stages from `i` on is that of the stage `k` that `elapsed` falls into.
proof fn stage_is_reached(stages: Seq<LoadStage>, i: int, k: int, elapsed: int)
    requires
        0 <= i <= k < stages.len(),
        begins_at(stages, k + 1) <= u64::MAX,
        begins_at(stages, k) <= elapsed,
        k + 1 < stages.len() ==> elapsed < begins_at(stages, k + 1),
    ensures
        load_from(stages, i, begins_at(stages, i), clients_before(stages, i), elapsed) == (
            k,
            stage_clients(
                stages[k],
                clients_before(stages, k),
                elapsed - begins_at(stages, k),
            ),
            stages[k].include_in_results,
        ),
    decreases k - i,
{
    beginnings_grow(stages, 0, i);
    beginnings_grow(stages, i + 1, k + 1);
    assert(begins_at(stages, i + 1) == begins_at(stages, i) + 1000 * stages[i].duration_secs);
    assert(held64(begins_at(stages, i) + stage_ms(stages[i])) == begins_at(stages, i + 1));
    if i < k {
        beginnings_grow(stages, i + 1, k);
        stage_is_reached(stages, i + 1, k, elapsed);
    }
}

/// While a stage lasts, and after its end if it is the last one, the load is its own: a stage that
/// holds its load has its target throughout, and the results count as the stage says.
pub proof fn each_stage_has_its_time(stages: Seq<LoadStage>, k: int, elapsed: int)
    requires
        0 <= k < stages.len(),
        begins_at(stages, k + 1) <= u64::MAX,
        begins_at(stages, k) <= elapsed,
        k + 1 < stages.len() ==> elapsed < begins_at(stages, k + 1),
    ensures
        load_from(stages, 0, 0, 0, elapsed).0 == k,
        load_from(stages, 0, 0, 0, elapsed).2 == stages[k].include_in_results,
        stages[k].mode == LoadStageMode::Hold ==> load_from(stages, 0, 0, 0, elapsed).1
            == stages[k].target_virtual_clients,
{
    stage_is_reached(stages, 0, k, elapsed);
}

/// The load does not jump where a ramp begins: it is still the target of the stage before, or none
/// at the start of the run. While the ramp lasts the load lies between that and its own target.
pub proof fn ramps_go_on_from_the_stage_before(stages: Seq<LoadStage>, k: int, elapsed: int)
    requires
        0 <= k < stages.len(),
        stages[k].mode == LoadStageMode::Ramp,
        stages[k].duration_secs > 0,
        begins_at(stages, k + 1) <= u64::MAX,
        begins_at(stages, k) <= elapsed < begins_at(stages, k + 1),
    ensures
        load_from(stages, 0, 0, 0, begins_at(stages, k)).0 == k,
        load_from(stages, 0, 0, 0, begins_at(stages, k)).1 == clients_before(stages, k),
        is_between(
            load_from(stages, 0, 0, 0, elapsed).1,
            clients_before(stages, k),
            stages[k].target_virtual_clients as int,
        ),
{
    beginnings_grow(stages, 0, k);
    stage_is_reached(stages, 0, k, begins_at(stages, k));
    stage_is_reached(stages, 0, k, elapsed);
    let before = clients_before(stages, k) as u32;
    let stage = stages[k];
    assert(stage_ms(stage) == 1000 * stage.duration_secs);
    ramp_meets_its_ends(before, stage.target_virtual_clients, stage_ms(stage) as u64);
    ramps_stay_between_their_targets(
        before,
        stage.target_virtual_clients,
        elapsed - begins_at(stages, k),
        stage_ms(stage),
    );
}

/// A ramp reaches its target when its time is over, whether another stage follows that begins with
/// a ramp or holds the same load, or none does.
pub proof fn ramps_reach_their_target(stages: Seq<LoadStage>, k: int)
    requires
        0 <= k < stages.len(),
        stages[k].mode == LoadStageMode::Ramp,
        stages[k].duration_secs > 0,
        begins_at(stages, k + 1) <= u64::MAX,
        k + 1 < stages.len() ==> {
            &&& stages[k + 1].mode == LoadStageMode::Ramp || stages[k + 1].target_virtual_clients
                == stages[k].target_virtual_clients
            &&& stages[k + 1].duration_secs > 0
            &&& begins_at(stages, k + 2) <= u64::MAX
        },
    ensures
        load_from(stages, 0, 0, 0, begins_at(stages, k + 1)).1 == stages[k].target_virtual_clients,
{
    let end = begins_at(stages, k + 1);
    beginnings_grow(stages, 0, k);
    let stage = stages[k];
    if k + 1 < stages.len() {
        assert(begins_at(stages, k + 2) == end + 1000 * stages[k + 1].duration_secs);
        if stages[k + 1].mode == LoadStageMode::Ramp {
            ramps_go_on_from_the_stage_before(stages, k + 1, end);
        } else {
            each_stage_has_its_time(stages, k + 1, end);
        }
    } else {
        stage_is_reached(stages, 0, k, end);
        assert(stage_ms(stage) == 1000 * stage.duration_secs);
        ramp_meets_its_ends(
            clients_before(stages, k) as u32,
            stage.target_virtual_clients,
            stage_ms(stage) as u64,
        );
    }
}

/// At half its time a ramp has brought the load half the way from the stage before to its target. A
/// client of which only half is due is there already.
pub proof fn ramps_are_even(stages: Seq<LoadStage>, k: int)
    requires
        0 <= k < stages.len(),
        stages[k].mode == LoadStageMode::Ramp,
        stages[k].duration_secs > 0,
        500 * stages[k].duration_secs < 0x10_0000_0000_0000,
        begins_at(stages, k + 1) <= u64::MAX,
    ensures
        load_from(
            stages,
            0,
            0,
            0,
            begins_at(stages, k) + 500 * stages[k].duration_secs,
        ).1 == (clients_before(stages, k) + stages[k].target_virtual_clients + 1) / 2,
{
    beginnings_grow(stages, 0, k);
    let half = 500 * stages[k].duration_secs;
    stage_is_reached(stages, 0, k, begins_at(stages, k) + half);
    assert(stage_ms(stages[k]) == 2 * half);
    let before = clients_before(stages, k) as u32;
    ramps_are_half_done_at_half_time(before, stages[k].target_virtual_clients, half);
}

} // verus!
