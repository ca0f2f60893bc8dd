//! What a tick does, as a function of the table and the world: the model
//! that the encoder is verified against, and what follows from it.

use crate::bitbuf::{aligned, pack};
use crate::coord::{
    addition_bits, mask_signal_bits, movement_bits, removal_bits, removal_result, skip_bits,
};
use crate::error::PlayerInfoError;
use crate::mask::mask_block;
use crate::record::{table_wf, Record};
use crate::world::World;
use crate::{
    MAX_ADDITIONS_PER_TICK, MAX_LOCAL_PLAYERS, MAX_PLAYERS, UPDATE_GROUP_ACTIVE,
    UPDATE_GROUP_INACTIVE,
};
use vstd::prelude::*;

verus! {

/// Where a pass over the table stands.
pub ghost struct Pass {
    /// The table.
    pub records: Seq<Record>,
    /// The bit stream so far.
    pub bits: Seq<bool>,
    /// The mask bytes so far.
    pub masks: Seq<u8>,
    /// How many records of the group are still to be skipped.
    pub skip: int,
    /// How many records the pass has reported: local players met, or
    /// players added.
    pub count: int,
    /// Whether a buffer has refused a write. Nothing changes after that.
    pub failed: bool,
}

/// A pass that starts on the given table and buffers.
pub open spec fn start_pass(records: Seq<Record>, bits: Seq<bool>, masks: Seq<u8>) -> Pass {
    Pass { records, bits, masks, skip: 0, count: 0, failed: false }
}

/// The pass that follows `s`: the bit stream padded to a byte boundary, no
/// skip run open, nothing counted.
pub open spec fn next_phase(s: Pass) -> Pass {
    Pass { bits: aligned(s.bits), skip: 0, count: 0, ..s }
}

/// Whether a record is tracked as `local` says and in the update group `group`.
pub open spec fn in_group(r: Record, local: bool, group: i32) -> bool {
    r.local == local && (group & 0x1) == r.flags
}

/// Whether something is waiting on a locally tracked record.
pub open spec fn has_update(r: Record) -> bool {
    r.remove || r.masks.len() > 0 || r.steps.len() > 0 || r.displaced
}

/// The record put into the idle group of the next tick.
pub open spec fn skipped(r: Record) -> Record {
    Record { flags: r.flags | 0x2, ..r }
}

/// The mask bytes waiting on a record.
pub open spec fn pending_block(r: Record) -> Seq<u8> {
    if r.masks.len() > 0 {
        mask_block(r.masks)
    } else {
        Seq::empty()
    }
}

/// The record of a player that has just been added to the tracked ones.
pub open spec fn added_record(r: Record, coordinates: i32) -> Record {
    Record { local: true, coordinates, flags: r.flags | 0x2, masks: Seq::empty(), ..r }
}

/// A record at the end of a tick: wiped if its reset is set; else its flags
/// move on by one bit, so that the group chosen for the next tick becomes
/// the current one, and whatever still waited on it is dropped.
pub open spec fn grouped(r: Record) -> Record {
    if r.reset {
        Record::fresh(false, 0)
    } else {
        Record {
            flags: r.flags >> 1,
            remove: false,
            masks: Seq::empty(),
            steps: Seq::empty(),
            displaced: false,
            ..r
        }
    }
}

/// The number of records of the local group `group`, from `from` up to
/// `targets`, that come before the first one on which something is waiting.
pub open spec fn local_skip_count(records: Seq<Record>, group: i32, from: int, targets: int) -> int
    decreases targets - from,
{
    if from < 0 || from >= targets || from >= records.len() {
        0
    } else if !in_group(records[from], true, group) {
        local_skip_count(records, group, from + 1, targets)
    } else if has_update(records[from]) {
        0
    } else {
        1 + local_skip_count(records, group, from + 1, targets)
    }
}

/// A pass over the locally tracked records of `group` after it has dealt
/// with `target`.
pub open spec fn local_step(s: Pass, world: World, group: i32, target: int, targets: int) -> Pass {
    if s.failed || target < 0 || target >= s.records.len() {
        s
    } else {
        let r = s.records[target];
        let new = world.coordinate(target);
        if !in_group(r, true, group) {
            s
        } else if s.skip > 0 {
            Pass { skip: s.skip - 1, records: s.records.update(target, skipped(r)), ..s }
        } else if r.remove {
            Pass {
                count: s.count + 1,
                records: s.records.update(target, Record { reset: true, ..r }),
                bits: s.bits + removal_bits(r.coordinates, new),
                failed: removal_result(r.coordinates, new) is Err,
                ..s
            }
        } else if r.steps.len() > 0 || r.displaced {
            Pass {
                count: s.count + 1,
                records: s.records.update(
                    target,
                    Record { masks: Seq::empty(), steps: Seq::empty(), displaced: false, ..r },
                ),
                bits: s.bits + seq![true] + movement_bits(
                    r.masks.len() > 0,
                    r.steps,
                    r.displaced,
                    r.coordinates,
                    new,
                ),
                masks: s.masks + pending_block(r),
                ..s
            }
        } else if r.masks.len() > 0 {
            Pass {
                count: s.count + 1,
                records: s.records.update(target, Record { masks: Seq::empty(), ..r }),
                bits: s.bits + seq![true] + mask_signal_bits(),
                masks: s.masks + mask_block(r.masks),
                ..s
            }
        } else {
            let records = s.records.update(target, skipped(r));
            let run = local_skip_count(records, group, target + 1, targets);
            Pass { count: s.count + 1, records, bits: s.bits + skip_bits(run), skip: run, ..s }
        }
    }
}

/// A pass over the locally tracked records of `group` after the first
/// `upto` of `targets` targets.
pub open spec fn local_phase(s: Pass, world: World, group: i32, upto: nat, targets: int) -> Pass
    decreases upto,
{
    if upto == 0 {
        s
    } else {
        local_step(
            local_phase(s, world, group, (upto - 1) as nat, targets),
            world,
            group,
            upto - 1,
            targets,
        )
    }
}

/// Whether the tick may still add a player: fewer than
/// `MAX_ADDITIONS_PER_TICK` were added and fewer than `MAX_LOCAL_PLAYERS`
/// are tracked.
pub open spec fn can_add(added: int, previously_added: int, local_count: int) -> bool {
    added + previously_added < MAX_ADDITIONS_PER_TICK && local_count < MAX_LOCAL_PLAYERS
}

/// The number of records of the global group `group`, from `from` up to
/// `targets`, that come before the first one that is to be added: one in
/// view, while the tick may still add players.
pub open spec fn global_skip_count(
    records: Seq<Record>,
    world: World,
    group: i32,
    budget: bool,
    from: int,
    targets: int,
) -> int
    decreases targets - from,
{
    if from < 0 || from >= targets || from >= records.len() {
        0
    } else if !in_group(records[from], false, group) {
        global_skip_count(records, world, group, budget, from + 1, targets)
    } else if budget && world.sees(from) {
        0
    } else {
        1 + global_skip_count(records, world, group, budget, from + 1, targets)
    }
}

/// A pass over the records of `group` that are not tracked, after it has
/// dealt with `target`.
pub open spec fn global_step(
    s: Pass,
    world: World,
    group: i32,
    local_count: int,
    previously_added: int,
    target: int,
    targets: int,
) -> Pass {
    if s.failed || target < 0 || target >= s.records.len() {
        s
    } else {
        let r = s.records[target];
        let new = world.coordinate(target);
        let budget = can_add(s.count, previously_added, local_count);
        if !in_group(r, false, group) {
            s
        } else if s.skip > 0 {
            Pass { skip: s.skip - 1, records: s.records.update(target, skipped(r)), ..s }
        } else if budget && world.sees(target) {
            Pass {
                count: s.count + 1,
                records: s.records.update(target, added_record(r, new)),
                bits: s.bits + addition_bits(new, r.masks.len() > 0),
                masks: s.masks + pending_block(r),
                ..s
            }
        } else {
            let records = s.records.update(target, skipped(r));
            let run = global_skip_count(records, world, group, budget, target + 1, targets);
            Pass { records, bits: s.bits + skip_bits(run), skip: run, ..s }
        }
    }
}

/// A pass over the records of `group` that are not tracked, after the first
/// `upto` of `targets` targets.
pub open spec fn global_phase(
    s: Pass,
    world: World,
    group: i32,
    local_count: int,
    previously_added: int,
    upto: nat,
    targets: int,
) -> Pass
    decreases upto,
{
    if upto == 0 {
        s
    } else {
        global_step(
            global_phase(
                s,
                world,
                group,
                local_count,
                previously_added,
                (upto - 1) as nat,
                targets,
            ),
            world,
            group,
            local_count,
            previously_added,
            upto - 1,
            targets,
        )
    }
}

/// The tick after its first pass: the tracked records of the active group.
pub open spec fn after_local_active(records: Seq<Record>, world: World) -> Pass {
    local_phase(
        start_pass(records, Seq::empty(), Seq::empty()),
        world,
        UPDATE_GROUP_ACTIVE,
        MAX_PLAYERS as nat,
        MAX_PLAYERS as int,
    )
}

/// The tick after its second pass: the tracked records of the idle group.
pub open spec fn after_local_inactive(records: Seq<Record>, world: World) -> Pass {
    local_phase(
        next_phase(after_local_active(records, world)),
        world,
        UPDATE_GROUP_INACTIVE,
        MAX_PLAYERS as nat,
        MAX_PLAYERS as int,
    )
}

/// The number of local players that the first two passes met.
pub open spec fn local_count(records: Seq<Record>, world: World) -> int {
    after_local_active(records, world).count + after_local_inactive(records, world).count
}

/// The tick after its third pass: the other records of the idle group.
pub open spec fn after_global_inactive(records: Seq<Record>, world: World) -> Pass {
    global_phase(
        next_phase(after_local_inactive(records, world)),
        world,
        UPDATE_GROUP_INACTIVE,
        local_count(records, world),
        0,
        MAX_PLAYERS as nat,
        MAX_PLAYERS as int,
    )
}

/// The tick after its fourth pass: the other records of the active group.
pub open spec fn after_global_active(records: Seq<Record>, world: World) -> Pass {
    global_phase(
        next_phase(after_global_inactive(records, world)),
        world,
        UPDATE_GROUP_ACTIVE,
        local_count(records, world),
        after_global_inactive(records, world).count,
        MAX_PLAYERS as nat,
        MAX_PLAYERS as int,
    )
}

/// The tick after its four passes, the bit stream padded.
pub open spec fn emission(records: Seq<Record>, world: World) -> Pass {
    next_phase(after_global_active(records, world))
}

/// A table at the end of a tick: each of the first `targets` records
/// grouped.
pub open spec fn end_of_tick(records: Seq<Record>, targets: int) -> Seq<Record> {
    Seq::new(
        records.len(),
        |i: int|
            if i < targets {
                grouped(records[i])
            } else {
                records[i]
            },
    )
}

/// The sum of the mask bytes waiting on the records of a table.
pub open spec fn pending_total(records: Seq<Record>) -> nat
    decreases records.len(),
{
    if records.len() == 0 {
        0
    } else {
        pending_total(records.drop_last()) + pending_block(records.last()).len()
    }
}

/// What a tick returns: the bytes of the bit stream followed by the mask
/// bytes, unless the table lacks a record, the waiting mask bytes are more
/// than a buffer can hold, or a buffer refuses a write.
pub open spec fn tick_result(records: Seq<Record>, world: World) -> Result<
    Seq<u8>,
    PlayerInfoError,
> {
    let e = emission(records, world);
    if records.len() < MAX_PLAYERS {
        Err(PlayerInfoError::MissingRecord)
    } else if pending_total(records) > isize::MAX || e.failed {
        Err(PlayerInfoError::Io)
    } else {
        Ok(pack(e.bits) + e.masks)
    }
}

/// The table that a tick leaves. A tick that fails on a write leaves the
/// table as it stood at that write; one that fails before leaves it as it
/// was.
pub open spec fn tick_table(records: Seq<Record>, world: World) -> Seq<Record> {
    let e = emission(records, world);
    if records.len() < MAX_PLAYERS || pending_total(records) > isize::MAX {
        records
    } else if e.failed {
        e.records
    } else {
        end_of_tick(e.records, MAX_PLAYERS as int)
    }
}

/// What every pass keeps of a table: its length, the well-formedness of
/// its records, and each reset that is set.
pub open spec fn carried(before: Seq<Record>, after: Seq<Record>) -> bool {
    &&& after.len() == before.len()
    &&& table_wf(before) ==> table_wf(after)
    &&& forall|t: int| 0 <= t < before.len() && (#[trigger] before[t]).reset ==> after[t].reset
}

/// What holds of a table `after` a tick that succeeded on the table
/// `before`: on no target's record anything waits, each holds in its flags
/// only the group of the next tick, and each whose reset was set is wiped.
pub open spec fn settled(before: Seq<Record>, after: Seq<Record>) -> bool {
    forall|target: int|
        0 <= target < MAX_PLAYERS ==> {
            &&& (#[trigger] after[target]).masks.len() == 0
            &&& after[target].steps.len() == 0
            &&& !after[target].displaced
            &&& after[target].flags & !0x1i32 == 0
            &&& before[target].reset ==> after[target] == Record::fresh(false, 0)
        }
}

/// Setting bit 1 keeps flags of two bits within two bits.
proof fn lemma_flag_bit(f: i32)
    requires
        0 <= f <= 3,
    ensures
        0 <= f | 0x2 <= 3,
{
    assert(0 <= f | 0x2 <= 3) by (bit_vector)
        requires
            0 <= f <= 3,
    ;
}

/// Setting the bit of the next tick keeps the flags in range.
pub proof fn lemma_skipped_wf(r: Record)
    requires
        r.wf(),
    ensures
        skipped(r).wf(),
        pending_block(skipped(r)) == pending_block(r),
{
    lemma_flag_bit(r.flags);
}

/// An added record is well formed and has no mask bytes waiting.
pub proof fn lemma_added_wf(r: Record, coordinates: i32)
    requires
        r.wf(),
    ensures
        added_record(r, coordinates).wf(),
        pending_block(added_record(r, coordinates)) == Seq::<u8>::empty(),
{
    lemma_flag_bit(r.flags);
}

/// Grouping keeps a record well formed and leaves its flags in one bit.
pub proof fn lemma_grouped_wf(r: Record)
    requires
        r.wf(),
    ensures
        grouped(r).wf(),
        0 <= grouped(r).flags <= 1,
{
    let f = r.flags;
    assert(0 <= f >> 1 <= 1) by (bit_vector)
        requires
            0 <= f <= 3,
    ;
}

/// Replacing one record changes the waiting mask bytes by the difference
/// between its block and the block it replaces.
pub proof fn lemma_pending_update(records: Seq<Record>, i: int, r: Record)
    requires
        0 <= i < records.len(),
    ensures
        pending_total(records.update(i, r)) + pending_block(records[i]).len() == pending_total(
            records,
        ) + pending_block(r).len(),
    decreases records.len(),
{
    let changed = records.update(i, r);
    if i == records.len() - 1 {
        assert(changed.drop_last() =~= records.drop_last());
    } else {
        assert(changed.drop_last() =~= records.drop_last().update(i, r));
        lemma_pending_update(records.drop_last(), i, r);
    }
}

/// The waiting mask bytes of a part of a table are no more than those of
/// the whole.
pub proof fn lemma_pending_prefix(records: Seq<Record>, j: int)
    requires
        0 <= j <= records.len(),
    ensures
        pending_total(records.take(j)) <= pending_total(records),
    decreases records.len(),
{
    if j == records.len() {
        assert(records.take(j) =~= records);
    } else {
        assert(records.drop_last().take(j) =~= records.take(j));
        lemma_pending_prefix(records.drop_last(), j);
    }
}

/// Once a pass has failed it stays as it is.
pub proof fn lemma_local_failed_stays(
    s: Pass,
    world: World,
    group: i32,
    at: nat,
    upto: nat,
    targets: int,
)
    requires
        at <= upto,
        local_phase(s, world, group, at, targets).failed,
    ensures
        local_phase(s, world, group, upto, targets) == local_phase(s, world, group, at, targets),
    decreases upto,
{
    if at < upto {
        lemma_local_failed_stays(s, world, group, at, (upto - 1) as nat, targets);
    }
}

/// A pass over the other records does nothing once the tick has failed.
pub proof fn lemma_global_failed_stays(
    s: Pass,
    world: World,
    group: i32,
    local_count: int,
    previously_added: int,
    upto: nat,
    targets: int,
)
    requires
        s.failed,
    ensures
        global_phase(s, world, group, local_count, previously_added, upto, targets) == s,
    decreases upto,
{
    if upto > 0 {
        lemma_global_failed_stays(
            s,
            world,
            group,
            local_count,
            previously_added,
            (upto - 1) as nat,
            targets,
        );
    }
}

/// A pass over the other records never fails by itself.
pub proof fn lemma_global_keeps_failed(
    s: Pass,
    world: World,
    group: i32,
    local_count: int,
    previously_added: int,
    upto: nat,
    targets: int,
)
    ensures
        global_phase(s, world, group, local_count, previously_added, upto, targets).failed
            == s.failed,
    decreases upto,
{
    if upto > 0 {
        lemma_global_keeps_failed(
            s,
            world,
            group,
            local_count,
            previously_added,
            (upto - 1) as nat,
            targets,
        );
    }
}

/// A tick that has failed in one pass ends with the table of that pass.
pub proof fn lemma_failed_emission(records: Seq<Record>, world: World)
    ensures
        after_local_active(records, world).failed ==> emission(records, world).failed
            && emission(records, world).records == after_local_active(records, world).records,
        after_local_inactive(records, world).failed ==> emission(records, world).failed
            && emission(records, world).records == after_local_inactive(records, world).records,
        emission(records, world).failed == after_local_inactive(records, world).failed,
{
    let n = MAX_PLAYERS as nat;
    let t = MAX_PLAYERS as int;
    let a = after_local_active(records, world);
    let b = after_local_inactive(records, world);
    let c = after_global_inactive(records, world);
    let lc = local_count(records, world);
    if a.failed {
        lemma_local_failed_stays(next_phase(a), world, UPDATE_GROUP_INACTIVE, 0, n, t);
    }
    lemma_global_keeps_failed(next_phase(b), world, UPDATE_GROUP_INACTIVE, lc, 0, n, t);
    lemma_global_keeps_failed(next_phase(c), world, UPDATE_GROUP_ACTIVE, lc, c.count, n, t);
    if b.failed {
        lemma_global_failed_stays(next_phase(b), world, UPDATE_GROUP_INACTIVE, lc, 0, n, t);
        lemma_global_failed_stays(next_phase(c), world, UPDATE_GROUP_ACTIVE, lc, c.count, n, t);
    }
}

/// A pass over the tracked records carries the table.
pub proof fn lemma_local_phase_carries(
    s: Pass,
    world: World,
    group: i32,
    upto: nat,
    targets: int,
)
    ensures
        carried(s.records, local_phase(s, world, group, upto, targets).records),
    decreases upto,
{
    if upto > 0 {
        let mid = local_phase(s, world, group, (upto - 1) as nat, targets);
        let end = local_step(mid, world, group, upto - 1, targets);
        lemma_local_phase_carries(s, world, group, (upto - 1) as nat, targets);
        if table_wf(mid.records) && 0 <= upto - 1 < mid.records.len() {
            lemma_flag_bit(mid.records[upto - 1].flags);
        }
        assert(carried(mid.records, end.records));
    }
}

/// A pass over the other records carries the table.
pub proof fn lemma_global_phase_carries(
    s: Pass,
    world: World,
    group: i32,
    local_count: int,
    previously_added: int,
    upto: nat,
    targets: int,
)
    ensures
        carried(
            s.records,
            global_phase(s, world, group, local_count, previously_added, upto, targets).records,
        ),
    decreases upto,
{
    if upto > 0 {
        let mid = global_phase(
            s,
            world,
            group,
            local_count,
            previously_added,
            (upto - 1) as nat,
            targets,
        );
        let end = global_step(mid, world, group, local_count, previously_added, upto - 1, targets);
        lemma_global_phase_carries(
            s,
            world,
            group,
            local_count,
            previously_added,
            (upto - 1) as nat,
            targets,
        );
        if table_wf(mid.records) && 0 <= upto - 1 < mid.records.len() {
            lemma_flag_bit(mid.records[upto - 1].flags);
        }
        assert(carried(mid.records, end.records));
    }
}

/// The four passes of a tick carry the table.
pub proof fn lemma_emission_carries(records: Seq<Record>, world: World)
    ensures
        carried(records, emission(records, world).records),
{
    let n = MAX_PLAYERS as nat;
    let t = MAX_PLAYERS as int;
    let a = after_local_active(records, world);
    let b = after_local_inactive(records, world);
    let c = after_global_inactive(records, world);
    let d = after_global_active(records, world);
    let lc = local_count(records, world);
    lemma_local_phase_carries(
        start_pass(records, Seq::empty(), Seq::empty()),
        world,
        UPDATE_GROUP_ACTIVE,
        n,
        t,
    );
    lemma_local_phase_carries(next_phase(a), world, UPDATE_GROUP_INACTIVE, n, t);
    lemma_global_phase_carries(next_phase(b), world, UPDATE_GROUP_INACTIVE, lc, 0, n, t);
    lemma_global_phase_carries(next_phase(c), world, UPDATE_GROUP_ACTIVE, lc, c.count, n, t);
    assert(carried(records, a.records));
    assert(carried(records, b.records));
    assert(carried(records, c.records));
    assert(carried(records, d.records));
}

/// After a tick that succeeds nothing waits on any target's record: it has
/// no masks, no steps and no displacement.
pub proof fn lemma_tick_consumes_pending(records: Seq<Record>, world: World, target: int)
    requires
        tick_result(records, world) is Ok,
        0 <= target < MAX_PLAYERS,
    ensures
        tick_table(records, world)[target].masks.len() == 0,
        tick_table(records, world)[target].steps.len() == 0,
        !tick_table(records, world)[target].displaced,
{
    lemma_emission_carries(records, world);
}

/// After a tick that succeeds the flags of every target's record hold the
/// group of the next tick in bit 0 and nothing else.
pub proof fn lemma_tick_shifts_flags(records: Seq<Record>, world: World, target: int)
    requires
        table_wf(records),
        tick_result(records, world) is Ok,
        0 <= target < MAX_PLAYERS,
    ensures
        tick_table(records, world)[target].flags & !0x1i32 == 0,
{
    lemma_emission_carries(records, world);
    let r = emission(records, world).records[target];
    assert(r.wf());
    lemma_grouped_wf(r);
    let f = grouped(r).flags;
    assert(f & !0x1i32 == 0) by (bit_vector)
        requires
            0 <= f <= 1,
    ;
}

/// A record whose reset is set when a tick starts is wiped by the end of
/// that tick, if the tick succeeds: untracked, at coordinate 0, in the
/// active group, its reset cleared and nothing waiting on it.
pub proof fn lemma_tick_applies_reset(records: Seq<Record>, world: World, target: int)
    requires
        tick_result(records, world) is Ok,
        0 <= target < MAX_PLAYERS,
        records[target].reset,
    ensures
        tick_table(records, world)[target] == Record::fresh(false, 0),
{
    lemma_emission_carries(records, world);
}

/// A tick that succeeds leaves the table settled.
pub proof fn lemma_tick_settles(records: Seq<Record>, world: World)
    requires
        table_wf(records),
        tick_result(records, world) is Ok,
    ensures
        settled(records, tick_table(records, world)),
{
    let after = tick_table(records, world);
    assert forall|target: int| 0 <= target < MAX_PLAYERS implies {
        &&& (#[trigger] after[target]).masks.len() == 0
        &&& after[target].steps.len() == 0
        &&& !after[target].displaced
        &&& after[target].flags & !0x1i32 == 0
        &&& records[target].reset ==> after[target] == Record::fresh(false, 0)
    } by {
        lemma_tick_consumes_pending(records, world, target);
        lemma_tick_shifts_flags(records, world, target);
        if records[target].reset {
            lemma_tick_applies_reset(records, world, target);
        }
    }
}

/// The bit stream of a tick stands on a byte boundary after each of its
/// four passes.
pub proof fn lemma_phase_boundaries_aligned(records: Seq<Record>, world: World)
    ensures
        next_phase(after_local_active(records, world)).bits.len() % 8 == 0,
        next_phase(after_local_inactive(records, world)).bits.len() % 8 == 0,
        next_phase(after_global_inactive(records, world)).bits.len() % 8 == 0,
        emission(records, world).bits.len() % 8 == 0,
{
}

} // verus!
