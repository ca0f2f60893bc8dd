//! One tick for one viewer: the two passes over the locally tracked
//! targets, the two over the others, and the end-of-tick bookkeeping.

use crate::bitbuf::BitBuf;
use crate::bytebuf::ByteWriter;
use crate::coord::{
    remove_local_player, write_local_movement, write_mask_update_signal, write_player_addition,
    write_skip_count,
};
use crate::error::PlayerInfoError;
use crate::mask::{mask_block_len, write_mask_update, PlayerMask};
use crate::model::{
    added_record, after_global_inactive, after_local_active, after_local_inactive, emission,
    end_of_tick, global_phase, global_skip_count, global_step, grouped, lemma_added_wf,
    lemma_failed_emission, lemma_grouped_wf, lemma_local_failed_stays, lemma_pending_prefix,
    lemma_pending_update, lemma_skipped_wf, lemma_tick_settles, local_count, local_phase,
    local_skip_count, local_step, next_phase, pending_total, settled, skipped, start_pass,
    tick_result, tick_table, Pass,
};
use crate::record::{table_wf, PlayerInfoEntry, Record};
use crate::world::WorldView;
use crate::{
    MAX_ADDITIONS_PER_TICK, MAX_LOCAL_PLAYERS, MAX_PLAYERS, UPDATE_GROUP_ACTIVE,
    UPDATE_GROUP_INACTIVE,
};
use vstd::prelude::*;

verus! {

impl PlayerInfoEntry {
    /// Counts the records of the local group `update_group`, from `offset`
    /// on, that can be skipped: those before the first one on which
    /// something is waiting.
    pub fn get_local_skip_count(&self, update_group: i32, offset: usize) -> (count: i32)
        ensures
            count == local_skip_count(self@, update_group, offset as int, MAX_PLAYERS as int),
            0 <= count,
            offset <= MAX_PLAYERS ==> count <= MAX_PLAYERS - offset,
    {
        let mut count: i32 = 0;
        let mut i: usize = offset;
        let mut update_found = false;
        while i < MAX_PLAYERS && i < self.playerinfodata.len() && !update_found
            invariant
                offset <= i,
                0 <= count <= i - offset,
                i <= MAX_PLAYERS || count == 0,
                update_found ==> local_skip_count(
                    self@,
                    update_group,
                    i as int,
                    MAX_PLAYERS as int,
                ) == 0,
                count + local_skip_count(self@, update_group, i as int, MAX_PLAYERS as int)
                    == local_skip_count(self@, update_group, offset as int, MAX_PLAYERS as int),
            decreases MAX_PLAYERS - i + if update_found { 0int } else { 1int },
        {
            let playerinfoentryother = &self.playerinfodata[i];
            if playerinfoentryother.local && (update_group & 0x1) == playerinfoentryother.flags {
                let is_update_required = playerinfoentryother.remove_the_local_player
                    || !playerinfoentryother.masks.is_empty()
                    || !playerinfoentryother.movement_steps.is_empty()
                    || playerinfoentryother.displaced;
                if is_update_required {
                    update_found = true;
                } else {
                    count += 1;
                    i += 1;
                }
            } else {
                i += 1;
            }
        }
        count
    }

    /// One pass over the locally tracked records of `update_group`: each is
    /// skipped, removed, or reported with its masks and movement. Returns
    /// the number of local players met outside skip runs.
    pub fn local_player_info(
        &mut self,
        world: &WorldView,
        bit_buf: &mut BitBuf,
        mask_buf: &mut ByteWriter,
        update_group: i32,
    ) -> (r: Result<i32, PlayerInfoError>)
        requires
            old(self)@.len() >= MAX_PLAYERS,
            table_wf(old(self)@),
            old(mask_buf).wf(),
            old(mask_buf)@.len() + pending_total(old(self)@) <= old(mask_buf).limit(),
        ensures
            ({
                let s = local_phase(
                    start_pass(old(self)@, old(bit_buf)@, old(mask_buf)@),
                    world@,
                    update_group,
                    MAX_PLAYERS as nat,
                    MAX_PLAYERS as int,
                );
                &&& final(self)@ == s.records
                &&& final(bit_buf)@ == s.bits
                &&& final(mask_buf)@ == s.masks
                &&& 0 <= s.count <= MAX_PLAYERS
                &&& r == if s.failed {
                    Err::<i32, PlayerInfoError>(PlayerInfoError::Io)
                } else {
                    Ok::<i32, PlayerInfoError>(s.count as i32)
                }
            }),
            table_wf(final(self)@),
            final(self)@.len() == old(self)@.len(),
            final(mask_buf).wf(),
            final(mask_buf).limit() == old(mask_buf).limit(),
            final(mask_buf)@.len() + pending_total(final(self)@) <= final(mask_buf).limit(),
    {
        let ghost start = start_pass(self@, bit_buf@, mask_buf@);
        let ghost targets = MAX_PLAYERS as int;
        let mut skip_count: i32 = 0;
        let mut local_players: i32 = 0;

        let mut other_player_id: usize = 0;
        while other_player_id < MAX_PLAYERS
            invariant
                other_player_id <= MAX_PLAYERS,
                targets == MAX_PLAYERS,
                start == start_pass(old(self)@, old(bit_buf)@, old(mask_buf)@),
                self@.len() == old(self)@.len(),
                self@.len() >= MAX_PLAYERS,
                table_wf(self@),
                mask_buf.wf(),
                mask_buf.limit() == old(mask_buf).limit(),
                mask_buf@.len() + pending_total(self@) <= mask_buf.limit(),
                0 <= skip_count <= MAX_PLAYERS,
                0 <= local_players <= other_player_id,
                local_phase(start, world@, update_group, other_player_id as nat, targets) == (Pass {
                    records: self@,
                    bits: bit_buf@,
                    masks: mask_buf@,
                    skip: skip_count as int,
                    count: local_players as int,
                    failed: false,
                }),
            decreases MAX_PLAYERS - other_player_id,
        {
            let ghost s = local_phase(start, world@, update_group, other_player_id as nat, targets);
            let ghost before = self@;
            let ghost r = before[other_player_id as int];
            let ghost next = local_step(s, world@, update_group, other_player_id as int, targets);
            assert(local_phase(start, world@, update_group, (other_player_id + 1) as nat, targets)
                == next);
            assert(r.wf());
            proof {
                lemma_skipped_wf(r);
                lemma_pending_update(before, other_player_id as int, skipped(r));
            }
            let new_coordinates: i32 = world.coordinate_of(other_player_id);
            let playerinfoentryother = &mut self.playerinfodata[other_player_id];

            if playerinfoentryother.local && (update_group & 0x1) == playerinfoentryother.flags {
                if skip_count > 0 {
                    skip_count -= 1;
                    playerinfoentryother.flags |= 0x2;
                    assert(self@ =~= before.update(other_player_id as int, skipped(r)));
                } else {
                    local_players += 1;

                    if playerinfoentryother.remove_the_local_player {
                        playerinfoentryother.reset = true;
                        let record_coordinates: i32 = playerinfoentryother.coordinates;
                        proof {
                            let removed = Record { reset: true, ..r };
                            assert(self@ =~= before.update(other_player_id as int, removed));
                            lemma_pending_update(before, other_player_id as int, removed);
                            if next.failed {
                                lemma_local_failed_stays(
                                    start,
                                    world@,
                                    update_group,
                                    (other_player_id + 1) as nat,
                                    MAX_PLAYERS as nat,
                                    targets,
                                );
                            }
                        }
                        remove_local_player(bit_buf, record_coordinates, new_coordinates)?;
                    } else {
                        let mask_update = !playerinfoentryother.masks.is_empty();
                        let move_update = !playerinfoentryother.movement_steps.is_empty()
                            || playerinfoentryother.displaced;

                        if mask_update {
                            proof {
                                lemma_pending_update(
                                    before,
                                    other_player_id as int,
                                    Record { masks: Seq::empty(), ..r },
                                );
                            }
                            write_mask_update(mask_buf, &mut playerinfoentryother.masks);
                        }
                        if mask_update || move_update {
                            bit_buf.write_bit(true);
                        }
                        if move_update {
                            let _ = write_local_movement(
                                bit_buf,
                                mask_update,
                                &mut playerinfoentryother.movement_steps,
                                playerinfoentryother.displaced,
                                playerinfoentryother.coordinates,
                                new_coordinates,
                            );
                            playerinfoentryother.displaced = false;
                            proof {
                                let moved = Record {
                                    masks: Seq::empty(),
                                    steps: Seq::empty(),
                                    displaced: false,
                                    ..r
                                };
                                if !mask_update {
                                    assert(r.masks =~= Seq::<PlayerMask>::empty());
                                }
                                assert(self@ =~= before.update(other_player_id as int, moved));
                                lemma_pending_update(before, other_player_id as int, moved);
                                assert(bit_buf@ =~= next.bits);
                                assert(mask_buf@ =~= next.masks);
                            }
                        } else if mask_update {
                            let _ = write_mask_update_signal(bit_buf);
                            proof {
                                let sent = Record { masks: Seq::empty(), ..r };
                                assert(self@ =~= before.update(other_player_id as int, sent));
                                assert(bit_buf@ =~= next.bits);
                            }
                        } else {
                            playerinfoentryother.flags |= 0x2;
                            assert(self@ =~= before.update(other_player_id as int, skipped(r)));
                            skip_count = self.get_local_skip_count(
                                update_group,
                                other_player_id + 1,
                            );
                            let _ = write_skip_count(bit_buf, skip_count);
                        }
                    }
                }
            } else {
                assert(self@ =~= before);
            }
            other_player_id += 1;
        }

        Ok(local_players)
    }

    /// Counts the records of the global group `update_group`, from `offset`
    /// on, that can be skipped: those before the first one that is to be
    /// added. `budget` says whether the tick may still add players.
    pub fn get_global_skip_count(
        &self,
        world: &WorldView,
        update_group: i32,
        budget: bool,
        offset: usize,
    ) -> (count: i32)
        ensures
            count == global_skip_count(
                self@,
                world@,
                update_group,
                budget,
                offset as int,
                MAX_PLAYERS as int,
            ),
            0 <= count <= MAX_PLAYERS,
    {
        let mut count: i32 = 0;
        let mut i: usize = offset;
        let mut addition_found = false;
        while i < MAX_PLAYERS && i < self.playerinfodata.len() && !addition_found
            invariant
                offset <= i,
                0 <= count <= i - offset,
                i <= MAX_PLAYERS || count == 0,
                addition_found ==> global_skip_count(
                    self@,
                    world@,
                    update_group,
                    budget,
                    i as int,
                    MAX_PLAYERS as int,
                ) == 0,
                count + global_skip_count(
                    self@,
                    world@,
                    update_group,
                    budget,
                    i as int,
                    MAX_PLAYERS as int,
                ) == global_skip_count(
                    self@,
                    world@,
                    update_group,
                    budget,
                    offset as int,
                    MAX_PLAYERS as int,
                ),
            decreases MAX_PLAYERS - i + if addition_found { 0int } else { 1int },
        {
            let playerinfoentryother = &self.playerinfodata[i];
            if !playerinfoentryother.local && (update_group & 0x1) == playerinfoentryother.flags {
                if budget && world.can_view(i) {
                    addition_found = true;
                } else {
                    count += 1;
                    i += 1;
                }
            } else {
                i += 1;
            }
        }
        count
    }

    /// One pass over the records of `update_group` that are not tracked:
    /// each is skipped or, if it is in view and the tick may still add
    /// players, added to the tracked ones. Returns the number added.
    pub fn world_player_info(
        &mut self,
        world: &WorldView,
        bit_buf: &mut BitBuf,
        mask_buf: &mut ByteWriter,
        update_group: i32,
        local_count: i32,
        previously_added: i32,
    ) -> (r: Result<i32, PlayerInfoError>)
        requires
            old(self)@.len() >= MAX_PLAYERS,
            table_wf(old(self)@),
            old(mask_buf).wf(),
            old(mask_buf)@.len() + pending_total(old(self)@) <= old(mask_buf).limit(),
        ensures
            ({
                let s = global_phase(
                    start_pass(old(self)@, old(bit_buf)@, old(mask_buf)@),
                    world@,
                    update_group,
                    local_count as int,
                    previously_added as int,
                    MAX_PLAYERS as nat,
                    MAX_PLAYERS as int,
                );
                &&& final(self)@ == s.records
                &&& final(bit_buf)@ == s.bits
                &&& final(mask_buf)@ == s.masks
                &&& !s.failed
                &&& 0 <= s.count <= MAX_PLAYERS
                &&& r == Ok::<i32, PlayerInfoError>(s.count as i32)
            }),
            table_wf(final(self)@),
            final(self)@.len() == old(self)@.len(),
            final(mask_buf).wf(),
            final(mask_buf).limit() == old(mask_buf).limit(),
            final(mask_buf)@.len() + pending_total(final(self)@) <= final(mask_buf).limit(),
    {
        let ghost start = start_pass(self@, bit_buf@, mask_buf@);
        let ghost targets = MAX_PLAYERS as int;
        let mut added: i32 = 0;
        let mut skip_count: i32 = 0;

        let mut other_player_id: usize = 0;
        while other_player_id < MAX_PLAYERS
            invariant
                other_player_id <= MAX_PLAYERS,
                targets == MAX_PLAYERS,
                start == start_pass(old(self)@, old(bit_buf)@, old(mask_buf)@),
                self@.len() == old(self)@.len(),
                self@.len() >= MAX_PLAYERS,
                table_wf(self@),
                mask_buf.wf(),
                mask_buf.limit() == old(mask_buf).limit(),
                mask_buf@.len() + pending_total(self@) <= mask_buf.limit(),
                0 <= skip_count <= MAX_PLAYERS,
                0 <= added <= other_player_id,
                global_phase(
                    start,
                    world@,
                    update_group,
                    local_count as int,
                    previously_added as int,
                    other_player_id as nat,
                    targets,
                ) == (Pass {
                    records: self@,
                    bits: bit_buf@,
                    masks: mask_buf@,
                    skip: skip_count as int,
                    count: added as int,
                    failed: false,
                }),
            decreases MAX_PLAYERS - other_player_id,
        {
            let ghost s = global_phase(
                start,
                world@,
                update_group,
                local_count as int,
                previously_added as int,
                other_player_id as nat,
                targets,
            );
            let ghost before = self@;
            let ghost r = before[other_player_id as int];
            let ghost next = global_step(
                s,
                world@,
                update_group,
                local_count as int,
                previously_added as int,
                other_player_id as int,
                targets,
            );
            assert(global_phase(
                start,
                world@,
                update_group,
                local_count as int,
                previously_added as int,
                (other_player_id + 1) as nat,
                targets,
            ) == next);
            assert(r.wf());
            let new_coordinates: i32 = world.coordinate_of(other_player_id);
            proof {
                lemma_skipped_wf(r);
                lemma_pending_update(before, other_player_id as int, skipped(r));
                lemma_added_wf(r, new_coordinates);
                lemma_pending_update(
                    before,
                    other_player_id as int,
                    added_record(r, new_coordinates),
                );
            }
            let capacity_reached = added as i64 + previously_added as i64
                >= MAX_ADDITIONS_PER_TICK as i64 || local_count >= MAX_LOCAL_PLAYERS;
            let in_view = world.can_view(other_player_id);
            let playerinfoentryother = &mut self.playerinfodata[other_player_id];

            if !playerinfoentryother.local && (update_group & 0x1) == playerinfoentryother.flags {
                if skip_count > 0 {
                    skip_count -= 1;
                    playerinfoentryother.flags |= 0x2;
                    assert(self@ =~= before.update(other_player_id as int, skipped(r)));
                } else if in_view && !capacity_reached {
                    let mask_update = !playerinfoentryother.masks.is_empty();
                    let _ = write_player_addition(bit_buf, new_coordinates, mask_update);
                    if mask_update {
                        write_mask_update(mask_buf, &mut playerinfoentryother.masks);
                    }
                    playerinfoentryother.flags |= 0x2;
                    playerinfoentryother.local = true;
                    playerinfoentryother.coordinates = new_coordinates;
                    added += 1;
                    proof {
                        if !mask_update {
                            assert(r.masks =~= Seq::<PlayerMask>::empty());
                        }
                        assert(self@ =~= before.update(
                            other_player_id as int,
                            added_record(r, new_coordinates),
                        ));
                        assert(mask_buf@ =~= next.masks);
                    }
                } else {
                    playerinfoentryother.flags |= 0x2;
                    assert(self@ =~= before.update(other_player_id as int, skipped(r)));
                    skip_count = self.get_global_skip_count(
                        world,
                        update_group,
                        !capacity_reached,
                        other_player_id + 1,
                    );
                    let _ = write_skip_count(bit_buf, skip_count);
                }
            } else {
                assert(self@ =~= before);
            }
            other_player_id += 1;
        }

        Ok(added)
    }

    /// The number of mask bytes waiting on the records of the table, if a
    /// `usize` can hold it.
    pub fn pending_mask_len(&self) -> (n: Option<usize>)
        ensures
            match n {
                Some(n) => n == pending_total(self@),
                None => pending_total(self@) > usize::MAX,
            },
    {
        let mut total: usize = 0;
        let mut i: usize = 0;
        while i < self.playerinfodata.len()
            invariant
                i <= self.playerinfodata.len(),
                total == pending_total(self@.take(i as int)),
            decreases self.playerinfodata.len() - i,
        {
            proof {
                assert(self@.take(i + 1).drop_last() =~= self@.take(i as int));
                lemma_pending_prefix(self@, i + 1);
            }
            let masks = &self.playerinfodata[i].masks;
            if !masks.is_empty() {
                let sum: Option<usize> = match mask_block_len(masks) {
                    Some(n) => total.checked_add(n),
                    None => None,
                };
                match sum {
                    Some(sum) => {
                        total = sum;
                    },
                    None => {
                        return None;
                    },
                }
            }
            i += 1;
        }
        assert(self@.take(i as int) =~= self@);
        Some(total)
    }

    /// Ends the tick for one record: shifts its flags by one bit, drops
    /// what still waits on it, and wipes it if its reset is set.
    pub fn group(&mut self, index: usize) -> (r: Result<(), PlayerInfoError>)
        ensures
            index < old(self)@.len() ==> r == Ok::<(), PlayerInfoError>(()) && final(self)@ == old(
                self,
            )@.update(index as int, grouped(old(self)@[index as int])),
            index >= old(self)@.len() ==> r == Err::<(), PlayerInfoError>(
                PlayerInfoError::MissingRecord,
            ) && final(self)@ == old(self)@,
    {
        if index >= self.playerinfodata.len() {
            return Err(PlayerInfoError::MissingRecord);
        }
        let ghost before = self@;
        let playerinfoentryother = &mut self.playerinfodata[index];

        playerinfoentryother.flags >>= 1;
        playerinfoentryother.remove_the_local_player = false;
        playerinfoentryother.masks.clear();
        playerinfoentryother.movement_steps.clear();
        playerinfoentryother.displaced = false;

        if playerinfoentryother.reset {
            playerinfoentryother.flags = 0;
            playerinfoentryother.coordinates = 0;
            playerinfoentryother.local = false;
            playerinfoentryother.reset = false;
        }
        assert(self@ =~= before.update(index as int, grouped(before[index as int])));

        Ok(())
    }

    /// Runs one tick for the viewer of this table: the four passes, then
    /// the end-of-tick bookkeeping. Returns the bytes of the bit stream
    /// followed by the mask bytes.
    pub fn tick(&mut self, world: &WorldView) -> (r: Result<Vec<u8>, PlayerInfoError>)
        requires
            table_wf(old(self)@),
        ensures
            table_wf(final(self)@),
            final(self)@.len() == old(self)@.len(),
            final(self)@ == tick_table(old(self)@, world@),
            match tick_result(old(self)@, world@) {
                Ok(bytes) => r is Ok && r->Ok_0@ == bytes,
                Err(e) => r == Err::<Vec<u8>, PlayerInfoError>(e),
            },
            r is Ok ==> settled(old(self)@, final(self)@),
    {
        proof {
            if tick_result(self@, world@) is Ok {
                lemma_tick_settles(self@, world@);
            }
        }
        if self.playerinfodata.len() < MAX_PLAYERS {
            return Err(PlayerInfoError::MissingRecord);
        }
        let size: usize = match self.pending_mask_len() {
            Some(n) => {
                if n > isize::MAX as usize {
                    return Err(PlayerInfoError::Io);
                }
                n
            },
            None => {
                return Err(PlayerInfoError::Io);
            },
        };
        proof {
            lemma_failed_emission(self@, world@);
        }

        let mut main_buf = BitBuf::new();
        let mut mask_buf = ByteWriter::new(size);
        let ghost a = after_local_active(self@, world@);
        let ghost b = after_local_inactive(self@, world@);
        let ghost c = after_global_inactive(self@, world@);
        let ghost e = emission(self@, world@);

        let mut local: i32 = 0;
        let mut added: i32 = 0;

        local += self.local_player_info(world, &mut main_buf, &mut mask_buf, UPDATE_GROUP_ACTIVE)?;
        main_buf.byte_align();
        assert(start_pass(self@, main_buf@, mask_buf@) == next_phase(a));

        local += self.local_player_info(
            world,
            &mut main_buf,
            &mut mask_buf,
            UPDATE_GROUP_INACTIVE,
        )?;
        main_buf.byte_align();
        assert(start_pass(self@, main_buf@, mask_buf@) == next_phase(b));
        assert(local == local_count(old(self)@, world@));

        added += self.world_player_info(
            world,
            &mut main_buf,
            &mut mask_buf,
            UPDATE_GROUP_INACTIVE,
            local,
            added,
        )?;
        main_buf.byte_align();
        assert(start_pass(self@, main_buf@, mask_buf@) == next_phase(c));

        self.world_player_info(
            world,
            &mut main_buf,
            &mut mask_buf,
            UPDATE_GROUP_ACTIVE,
            local,
            added,
        )?;
        main_buf.byte_align();

        assert(self@ == e.records);
        assert(main_buf@ == e.bits);
        assert(mask_buf@ == e.masks);

        let mut vec = main_buf.into_bytes();
        let mut mask_bytes = mask_buf.to_vec();
        vec.append(&mut mask_bytes);

        let mut i: usize = 0;
        while i < MAX_PLAYERS
            invariant
                i <= MAX_PLAYERS,
                self@.len() == e.records.len(),
                self@.len() >= MAX_PLAYERS,
                table_wf(e.records),
                self@ == end_of_tick(e.records, i as int),
            decreases MAX_PLAYERS - i,
        {
            let _ = self.group(i);
            assert(self@ =~= end_of_tick(e.records, i + 1));
            i += 1;
        }
        proof {
            assert forall|j: int| 0 <= j < self@.len() implies (#[trigger] self@[j]).wf() by {
                lemma_grouped_wf(e.records[j]);
            }
        }

        Ok(vec)
    }
}

} // verus!
