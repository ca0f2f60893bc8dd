use playerinfo::bitbuf::BitBuf;
use playerinfo::bytebuf::ByteWriter;
use playerinfo::error::PlayerInfoError;
use playerinfo::mask::{DirectionMask, PlayerMask};
use playerinfo::record::{add_update_record, PlayerInfoEntry};
use playerinfo::world::WorldView;
use playerinfo::{MAX_PLAYERS, UPDATE_GROUP_ACTIVE, UPDATE_GROUP_INACTIVE};

fn table(local: &[usize]) -> PlayerInfoEntry {
    let mut entry = PlayerInfoEntry::new();
    for target in 0..MAX_PLAYERS {
        add_update_record(&mut entry, local.contains(&target), 0).unwrap();
    }
    entry
}

fn facing(direction: i16) -> PlayerMask {
    PlayerMask::DirectionMask(DirectionMask { direction })
}

fn finish(mut buf: BitBuf) -> Vec<u8> {
    buf.byte_align();
    buf.into_bytes()
}

#[test]
fn an_empty_table() {
    let mut entry = PlayerInfoEntry::new();
    assert_eq!(entry.len(), 0);
    assert!(entry.record(0).is_none());
    assert!(entry.record_mut(0).is_none());
    assert_eq!(entry.pending_mask_len(), Some(0));
    assert_eq!(entry.get_local_skip_count(UPDATE_GROUP_ACTIVE, 0), 0);
    assert_eq!(
        entry.get_global_skip_count(&WorldView::new(), UPDATE_GROUP_ACTIVE, true, 0),
        0
    );
    assert_eq!(entry.group(0), Err(PlayerInfoError::MissingRecord));
    assert_eq!(
        entry.tick(&WorldView::new()),
        Err(PlayerInfoError::MissingRecord)
    );
}

#[test]
fn records_are_appended_in_order() {
    let mut entry = PlayerInfoEntry::new();
    assert_eq!(add_update_record(&mut entry, true, 77), Ok(()));
    assert_eq!(add_update_record(&mut entry, false, 0), Ok(()));
    assert_eq!(entry.len(), 2);
    let first = entry.record(0).unwrap();
    assert!(first.local);
    assert_eq!(first.coordinates, 77);
    assert_eq!(first.flags(), 0);
    assert!(!entry.record(1).unwrap().local);
    assert!(entry.record(2).is_none());
}

#[test]
fn local_skip_count_stops_at_the_first_update() {
    let mut entry = table(&[0, 2, 3, 5, 8, 13]);
    assert_eq!(entry.get_local_skip_count(UPDATE_GROUP_ACTIVE, 0), 6);
    assert_eq!(entry.get_local_skip_count(UPDATE_GROUP_ACTIVE, 1), 5);
    assert_eq!(entry.get_local_skip_count(UPDATE_GROUP_ACTIVE, 3), 4);
    assert_eq!(entry.get_local_skip_count(UPDATE_GROUP_ACTIVE, 14), 0);
    assert_eq!(entry.get_local_skip_count(UPDATE_GROUP_INACTIVE, 0), 0);
    assert_eq!(entry.get_local_skip_count(UPDATE_GROUP_ACTIVE, MAX_PLAYERS), 0);
    assert_eq!(entry.get_local_skip_count(UPDATE_GROUP_ACTIVE, usize::MAX), 0);

    entry.record_mut(5).unwrap().masks.push(facing(1));
    assert_eq!(entry.get_local_skip_count(UPDATE_GROUP_ACTIVE, 0), 3);
    assert_eq!(entry.get_local_skip_count(UPDATE_GROUP_ACTIVE, 5), 0);
    assert_eq!(entry.get_local_skip_count(UPDATE_GROUP_ACTIVE, 6), 2);
    entry.record_mut(5).unwrap().masks.clear();

    entry.record_mut(3).unwrap().movement_steps.push(1);
    assert_eq!(entry.get_local_skip_count(UPDATE_GROUP_ACTIVE, 0), 2);
    entry.record_mut(3).unwrap().movement_steps.clear();

    entry.record_mut(2).unwrap().displaced = true;
    assert_eq!(entry.get_local_skip_count(UPDATE_GROUP_ACTIVE, 0), 1);
    entry.record_mut(2).unwrap().displaced = false;

    entry.record_mut(0).unwrap().remove_the_local_player = true;
    assert_eq!(entry.get_local_skip_count(UPDATE_GROUP_ACTIVE, 0), 0);
    assert_eq!(entry.get_local_skip_count(UPDATE_GROUP_ACTIVE, 1), 5);

    // what waits on a record that is not tracked does not count
    entry.record_mut(4).unwrap().masks.push(facing(1));
    assert_eq!(entry.get_local_skip_count(UPDATE_GROUP_ACTIVE, 1), 5);
}

#[test]
fn global_skip_count_stops_at_the_first_addition() {
    let entry = table(&[0, 4]);
    let mut world = WorldView::new();
    assert_eq!(
        entry.get_global_skip_count(&world, UPDATE_GROUP_ACTIVE, true, 0),
        2045
    );
    assert_eq!(
        entry.get_global_skip_count(&world, UPDATE_GROUP_INACTIVE, true, 0),
        0
    );
    world.visible.resize(10, false);
    world.visible[0] = true;
    world.visible[4] = true;
    world.visible[7] = true;
    // the targets 0 and 4 are tracked: 1, 2, 3, 5 and 6 come before 7
    assert_eq!(
        entry.get_global_skip_count(&world, UPDATE_GROUP_ACTIVE, true, 0),
        5
    );
    assert_eq!(
        entry.get_global_skip_count(&world, UPDATE_GROUP_ACTIVE, true, 6),
        1
    );
    assert_eq!(
        entry.get_global_skip_count(&world, UPDATE_GROUP_ACTIVE, true, 7),
        0
    );
    assert_eq!(
        entry.get_global_skip_count(&world, UPDATE_GROUP_ACTIVE, true, 8),
        2039
    );
    // without room for an addition nothing ends the run
    assert_eq!(
        entry.get_global_skip_count(&world, UPDATE_GROUP_ACTIVE, false, 0),
        2045
    );
    assert_eq!(
        entry.get_global_skip_count(&world, UPDATE_GROUP_ACTIVE, true, MAX_PLAYERS),
        0
    );
}

#[test]
fn pending_mask_len_sums_the_blocks() {
    let mut entry = table(&[0]);
    assert_eq!(entry.pending_mask_len(), Some(0));
    entry.record_mut(0).unwrap().masks.push(facing(1));
    assert_eq!(entry.pending_mask_len(), Some(3));
    entry.record_mut(0).unwrap().masks.push(facing(2));
    assert_eq!(entry.pending_mask_len(), Some(5));
    entry.record_mut(9).unwrap().masks.push(facing(3));
    assert_eq!(entry.pending_mask_len(), Some(8));
}

#[test]
fn group_shifts_the_flags_and_clears_what_waits() {
    let mut entry = table(&[0, 1]);
    let mut bits = BitBuf::new();
    let mut masks = ByteWriter::new(0);
    // an idle pass sets bit 1 on both tracked records
    assert_eq!(
        entry.local_player_info(&WorldView::new(), &mut bits, &mut masks, UPDATE_GROUP_ACTIVE),
        Ok(1)
    );
    assert_eq!(entry.record(0).unwrap().flags(), 2);
    assert_eq!(entry.record(1).unwrap().flags(), 2);

    let r = entry.record_mut(1).unwrap();
    r.masks.push(facing(1));
    r.movement_steps.push(2);
    r.displaced = true;
    r.remove_the_local_player = true;
    r.coordinates = 9;

    assert_eq!(entry.group(1), Ok(()));
    let r = entry.record(1).unwrap();
    assert_eq!(r.flags(), 1);
    assert!(r.local);
    assert_eq!(r.coordinates, 9);
    assert!(r.masks.is_empty());
    assert!(r.movement_steps.is_empty());
    assert!(!r.displaced);
    assert!(!r.remove_the_local_player);
    assert_eq!(entry.record(0).unwrap().flags(), 2);

    assert_eq!(entry.group(1), Ok(()));
    assert_eq!(entry.record(1).unwrap().flags(), 0);
    assert_eq!(entry.group(MAX_PLAYERS), Err(PlayerInfoError::MissingRecord));
}

#[test]
fn group_wipes_a_record_with_reset() {
    let mut entry = table(&[3]);
    let r = entry.record_mut(3).unwrap();
    r.reset = true;
    r.coordinates = 5;
    r.masks.push(facing(1));
    assert_eq!(entry.group(3), Ok(()));
    let r = entry.record(3).unwrap();
    assert!(!r.local);
    assert!(!r.reset);
    assert_eq!(r.coordinates, 0);
    assert_eq!(r.flags(), 0);
    assert!(r.masks.is_empty());
}

#[test]
fn a_local_pass_counts_the_players_it_reports() {
    let mut entry = table(&[1, 2, 3, 4, 5, 6]);
    entry.record_mut(2).unwrap().masks.push(facing(1));
    entry.record_mut(3).unwrap().movement_steps.push(7);
    entry.record_mut(6).unwrap().remove_the_local_player = true;
    let mut bits = BitBuf::new();
    let mut masks = ByteWriter::new(entry.pending_mask_len().unwrap());
    // 1 opens a run of none, 2 and 3 report, 4 opens a run over 5, 6 is removed
    assert_eq!(
        entry.local_player_info(&WorldView::new(), &mut bits, &mut masks, UPDATE_GROUP_ACTIVE),
        Ok(5)
    );
    // 000 | 1 1 00 | 1 0 01 111 | 0 01 00001 | 1 0 00 0
    assert_eq!(
        finish(bits),
        vec![0b0001_1001, 0b0011_1100, 0b1000_0110, 0b0000_0000]
    );
    assert_eq!(masks.to_vec(), vec![0x08, 0x00, 0x81]);
    assert_eq!(entry.record(1).unwrap().flags(), 2);
    assert_eq!(entry.record(2).unwrap().flags(), 0);
    assert_eq!(entry.record(3).unwrap().flags(), 0);
    assert_eq!(entry.record(4).unwrap().flags(), 2);
    assert_eq!(entry.record(5).unwrap().flags(), 2);
    assert_eq!(entry.record(6).unwrap().flags(), 0);
    assert!(entry.record(6).unwrap().reset);
    assert!(entry.record(6).unwrap().local);

    // the same pass again finds only what it left in the active group
    let mut bits = BitBuf::new();
    assert_eq!(
        entry.local_player_info(&WorldView::new(), &mut bits, &mut masks, UPDATE_GROUP_ACTIVE),
        Ok(2)
    );
    // 2 opens a run over 3, 6 is removed again
    assert_eq!(finish(bits), vec![0b0010_0001, 0b1000_0000]);

    // and the pass over the idle group finds nothing: no record has flags 1
    let mut bits = BitBuf::new();
    assert_eq!(
        entry.local_player_info(&WorldView::new(), &mut bits, &mut masks, UPDATE_GROUP_INACTIVE),
        Ok(0)
    );
    assert_eq!(finish(bits), Vec::<u8>::new());
}

#[test]
fn a_global_pass_counts_the_players_it_adds() {
    let mut entry = table(&[0]);
    let mut world = WorldView::new();
    world.visible.resize(MAX_PLAYERS, true);
    world.coordinates.resize(MAX_PLAYERS, 1);
    let mut bits = BitBuf::new();
    let mut masks = ByteWriter::new(0);
    assert_eq!(
        entry.world_player_info(&world, &mut bits, &mut masks, UPDATE_GROUP_ACTIVE, 1, 37),
        Ok(3)
    );
    for target in 1..4 {
        assert!(entry.record(target).unwrap().local);
        assert_eq!(entry.record(target).unwrap().coordinates, 1);
        assert_eq!(entry.record(target).unwrap().flags(), 2);
    }
    assert!(!entry.record(4).unwrap().local);
    assert_eq!(entry.record(4).unwrap().flags(), 2);

    let mut entry = table(&[0]);
    let mut bits = BitBuf::new();
    assert_eq!(
        entry.world_player_info(&world, &mut bits, &mut masks, UPDATE_GROUP_ACTIVE, 255, 0),
        Ok(0)
    );
    assert_eq!(finish(bits), vec![0x7F, 0xF4]);

    let mut entry = table(&[0]);
    let mut bits = BitBuf::new();
    assert_eq!(
        entry.world_player_info(&world, &mut bits, &mut masks, UPDATE_GROUP_ACTIVE, 0, i32::MAX),
        Ok(0)
    );
    assert_eq!(
        entry.world_player_info(&world, &mut bits, &mut masks, UPDATE_GROUP_INACTIVE, 0, 0),
        Ok(0)
    );
}

#[test]
fn a_tick_on_a_table() {
    let mut entry = table(&[0]);
    assert_eq!(entry.tick(&WorldView::new()), Ok(vec![0x00, 0x7F, 0xF4]));
    assert_eq!(entry.record(0).unwrap().flags(), 1);
    assert_eq!(entry.record(MAX_PLAYERS - 1).unwrap().flags(), 1);
}

#[test]
fn a_tick_leaves_records_beyond_the_last_target_alone() {
    let mut entry = table(&[0]);
    add_update_record(&mut entry, true, 4).unwrap();
    entry.record_mut(MAX_PLAYERS).unwrap().masks.push(facing(1));
    entry.record_mut(MAX_PLAYERS).unwrap().reset = true;
    assert_eq!(entry.tick(&WorldView::new()), Ok(vec![0x00, 0x7F, 0xF4]));
    let extra = entry.record(MAX_PLAYERS).unwrap();
    assert!(extra.local);
    assert!(extra.reset);
    assert_eq!(extra.coordinates, 4);
    assert_eq!(extra.flags(), 0);
    assert_eq!(extra.masks.len(), 1);
}
