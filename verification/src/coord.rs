//! Bit-level encoding of skip runs, coordinate changes and movement.

use crate::bitbuf::{bits_of, lemma_bits_of_len, lemma_value_of_bits_of, value_of, BitBuf};
use crate::error::PlayerInfoError;
use crate::MAX_PLAYERS;
use vstd::arithmetic::power2::lemma2_to64;
use vstd::prelude::*;

verus! {

/// The y part of a packed coordinate: its bits 0 to 7.
pub open spec fn coord_y(packed: i32) -> i32 {
    packed & 0xFF
}

/// The x part of a packed coordinate: its bits 8 to 15.
pub open spec fn coord_x(packed: i32) -> i32 {
    (packed >> 8) & 0xFF
}

/// The level of a packed coordinate: its bits 8 and 9, the two low bits of
/// the x part.
pub open spec fn coord_level(packed: i32) -> i32 {
    (packed >> 8) & 0x3
}

/// Change of x from `old` to `new`.
pub open spec fn delta_x(old: i32, new: i32) -> int {
    coord_x(new) - coord_x(old)
}

/// Change of y from `old` to `new`.
pub open spec fn delta_y(old: i32, new: i32) -> int {
    coord_y(new) - coord_y(old)
}

/// Change of level from `old` to `new`.
pub open spec fn delta_level(old: i32, new: i32) -> int {
    coord_level(new) - coord_level(old)
}

/// The code of the direction of a step by `(dx, dy)`:
///
/// | dx \ dy | -1 | 0 | +1 |
/// |---------|----|---|----|
/// | -1      | 0  | 3 | 5  |
/// | 0       | 1  | 6 | 6  |
/// | +1      | 2  | 4 | 7  |
///
/// Outside the table the nearest rule of the chain below applies, and 6 where
/// none does.
pub open spec fn direction_code(dx: int, dy: int) -> int {
    if dx == -1 && dy == -1 {
        0
    } else if dx == 1 && dy == -1 {
        2
    } else if dx == -1 && dy == 1 {
        5
    } else if dx == 1 && dy == 1 {
        7
    } else if dy == -1 {
        1
    } else if dx == -1 {
        3
    } else if dx == 1 {
        4
    } else {
        6
    }
}

/// The bits of a skip run: the marker bit 0, a two-bit size class and the
/// count in 0, 5, 8 or 11 bits. For a count that cannot be written the bits
/// are those that precede the failure.
pub open spec fn skip_bits(count: int) -> Seq<bool> {
    if count == 0 {
        seq![false] + bits_of(0, 2)
    } else if count < 0 {
        seq![false] + bits_of(1, 2)
    } else if count < 32 {
        seq![false] + bits_of(1, 2) + bits_of(count, 5)
    } else if count < 256 {
        seq![false] + bits_of(2, 2) + bits_of(count, 8)
    } else if count <= MAX_PLAYERS {
        seq![false] + bits_of(3, 2) + bits_of(count, 11)
    } else {
        seq![false]
    }
}

/// What writing a skip run of `count` returns.
pub open spec fn skip_result(count: int) -> Result<(), PlayerInfoError> {
    if count < 0 {
        Err(PlayerInfoError::Io)
    } else if count > MAX_PLAYERS {
        Err(PlayerInfoError::SkipOutOfRange)
    } else {
        Ok(())
    }
}

/// Writes the run-length "no update" marker for this record and the `count`
/// records of its group that follow.
pub fn write_skip_count(bit_buf: &mut BitBuf, skip_count: i32) -> (r: Result<(), PlayerInfoError>)
    ensures
        r == skip_result(skip_count as int),
        final(bit_buf)@ == old(bit_buf)@ + skip_bits(skip_count as int),
{
    proof {
        lemma2_to64();
    }
    let ghost start = bit_buf@;
    bit_buf.write_bit(false);
    assert(bit_buf@ =~= start + seq![false]);
    if skip_count == 0 {
        bit_buf.write(2, 0)?;
        assert(bit_buf@ =~= start + skip_bits(0));
        Ok(())
    } else if skip_count < 32 {
        bit_buf.write(2, 1)?;
        proof {
            assert(bit_buf@ =~= start + (seq![false] + bits_of(1, 2)));
            assert(skip_count < 0 ==> (skip_count as u32) >= 32) by (bit_vector);
        }
        bit_buf.write(5, skip_count as u32)?;
        assert(bit_buf@ =~= start + skip_bits(skip_count as int));
        Ok(())
    } else if skip_count < 256 {
        bit_buf.write(2, 2)?;
        bit_buf.write(8, skip_count as u32)?;
        assert(bit_buf@ =~= start + skip_bits(skip_count as int));
        Ok(())
    } else {
        if skip_count > MAX_PLAYERS as i32 {
            return Err(PlayerInfoError::SkipOutOfRange);
        }
        bit_buf.write(2, 3)?;
        bit_buf.write(11, skip_count as u32)?;
        assert(bit_buf@ =~= start + skip_bits(skip_count as int));
        Ok(())
    }
}

/// The bits of a coordinate change from `old` to `new`: a two-bit shape and
/// its payload. A level that goes down cannot be written; the bits are then
/// those that precede the failure.
pub open spec fn multiplier_bits(old: i32, new: i32) -> Seq<bool> {
    let dx = delta_x(old, new);
    let dy = delta_y(old, new);
    let dl = delta_level(old, new);
    if dl != 0 {
        bits_of(1, 2) + if dl > 0 {
            bits_of(dl, 2)
        } else {
            Seq::empty()
        }
    } else if -1 <= dx <= 1 && -1 <= dy <= 1 {
        bits_of(2, 2) + bits_of(0, 2) + bits_of(direction_code(dx, dy), 3)
    } else {
        bits_of(3, 2) + bits_of(0, 2) + bits_of(dx % 256, 8) + bits_of(dy % 256, 8)
    }
}

/// What writing the coordinate change from `old` to `new` returns.
pub open spec fn multiplier_result(old: i32, new: i32) -> Result<(), PlayerInfoError> {
    if delta_level(old, new) < 0 {
        Err(PlayerInfoError::Io)
    } else {
        Ok(())
    }
}

/// The direction code of a step by `(dx, dy)`.
pub fn direction_of(dx: i32, dy: i32) -> (code: u32)
    ensures
        code == direction_code(dx as int, dy as int),
        code < 8,
{
    if dx == -1 && dy == -1 {
        0
    } else if dx == 1 && dy == -1 {
        2
    } else if dx == -1 && dy == 1 {
        5
    } else if dx == 1 && dy == 1 {
        7
    } else if dy == -1 {
        1
    } else if dx == -1 {
        3
    } else if dx == 1 {
        4
    } else {
        6
    }
}

/// The three parts of a packed coordinate are small.
pub proof fn lemma_coord_ranges(packed: i32)
    ensures
        0 <= coord_x(packed) <= 255,
        0 <= coord_y(packed) <= 255,
        0 <= coord_level(packed) <= 3,
        coord_level(packed) == coord_x(packed) % 4,
{
    assert(0 <= (packed >> 8) & 0xFF <= 255) by (bit_vector);
    assert(0 <= packed & 0xFF <= 255) by (bit_vector);
    assert(0 <= (packed >> 8) & 0x3 <= 3) by (bit_vector);
    assert((packed >> 8) & 0x3 == ((packed >> 8) & 0xFF) % 4) by (bit_vector);
}

/// Writes how a coordinate changed from `old_multiplier` to
/// `new_multiplier`: a level change, a step to a neighbour, or a jump.
pub fn write_coordinate_multiplier(
    bit_buf: &mut BitBuf,
    old_multiplier: i32,
    new_multiplier: i32,
) -> (r: Result<(), PlayerInfoError>)
    ensures
        r == multiplier_result(old_multiplier, new_multiplier),
        final(bit_buf)@ == old(bit_buf)@ + multiplier_bits(old_multiplier, new_multiplier),
{
    proof {
        lemma2_to64();
        lemma_coord_ranges(old_multiplier);
        lemma_coord_ranges(new_multiplier);
    }
    let ghost start = bit_buf@;
    let ghost all = multiplier_bits(old_multiplier, new_multiplier);
    let current_multiplier_y: i32 = new_multiplier & 0xFF;
    let current_multiplier_x: i32 = (new_multiplier >> 8) & 0xFF;
    let current_level: i32 = (new_multiplier >> 8) & 0x3;

    let last_multiplier_y: i32 = old_multiplier & 0xFF;
    let last_multiplier_x: i32 = (old_multiplier >> 8) & 0xFF;
    let last_level: i32 = (old_multiplier >> 8) & 0x3;

    let diff_x: i32 = current_multiplier_x - last_multiplier_x;
    let diff_y: i32 = current_multiplier_y - last_multiplier_y;
    let diff_level: i32 = current_level - last_level;

    let level_change = diff_level != 0;
    let small_change = -1 <= diff_x && diff_x <= 1 && -1 <= diff_y && diff_y <= 1;

    if level_change {
        bit_buf.write(2, 1)?;
        proof {
            assert(diff_level < 0 ==> (diff_level as u32) >= 4) by (bit_vector);
        }
        bit_buf.write(2, diff_level as u32)?;
        assert(bit_buf@ =~= start + all);
    } else if small_change {
        let direction: u32 = direction_of(diff_x, diff_y);
        bit_buf.write(2, 2)?;
        bit_buf.write(2, 0)?;
        bit_buf.write(3, direction)?;
        assert(bit_buf@ =~= start + all);
    } else {
        let low_x: u32 = (diff_x as u32) & 0xFF;
        let low_y: u32 = (diff_y as u32) & 0xFF;
        proof {
            assert(low_x == diff_x as int % 256) by (bit_vector)
                requires
                    low_x == (diff_x as u32) & 0xFF,
                    -255 <= diff_x <= 255,
            ;
            assert(low_y == diff_y as int % 256) by (bit_vector)
                requires
                    low_y == (diff_y as u32) & 0xFF,
                    -255 <= diff_y <= 255,
            ;
        }
        bit_buf.write(2, 3)?;
        bit_buf.write(2, 0)?;
        bit_buf.write(8, low_x)?;
        bit_buf.write(8, low_y)?;
        assert(bit_buf@ =~= start + all);
    }
    Ok(())
}

/// The bits that tell the client to stop tracking a player: the update
/// marker 1, the mask bit 0, two bits 00 for no movement, then whether the
/// coordinate changed and, if so, how.
pub open spec fn removal_bits(old: i32, new: i32) -> Seq<bool> {
    seq![true, false] + bits_of(0, 2) + seq![old != new] + if old != new {
        multiplier_bits(old, new)
    } else {
        Seq::empty()
    }
}

/// What writing a removal returns.
pub open spec fn removal_result(old: i32, new: i32) -> Result<(), PlayerInfoError> {
    if old != new {
        multiplier_result(old, new)
    } else {
        Ok(())
    }
}

/// Writes the removal of a locally tracked player whose record holds
/// `record_coordinates` and who now stands at `new_coordinates`.
pub fn remove_local_player(
    bit_buf: &mut BitBuf,
    record_coordinates: i32,
    new_coordinates: i32,
) -> (r: Result<(), PlayerInfoError>)
    ensures
        r == removal_result(record_coordinates, new_coordinates),
        final(bit_buf)@ == old(bit_buf)@ + removal_bits(record_coordinates, new_coordinates),
{
    proof {
        lemma2_to64();
    }
    let ghost start = bit_buf@;
    let coordinate_change = new_coordinates != record_coordinates;

    bit_buf.write_bit(true);
    bit_buf.write_bit(false);
    bit_buf.write(2, 0)?;
    bit_buf.write_bit(coordinate_change);
    assert(bit_buf@ =~= start + (seq![true, false] + bits_of(0, 2) + seq![coordinate_change]));

    if coordinate_change {
        let r = write_coordinate_multiplier(bit_buf, record_coordinates, new_coordinates);
        assert(bit_buf@ =~= start + removal_bits(record_coordinates, new_coordinates));
        r
    } else {
        assert(bit_buf@ =~= start + removal_bits(record_coordinates, new_coordinates));
        Ok(())
    }
}

/// The bits that announce a mask block without movement: the mask bit 1
/// and two bits 00 for no movement.
pub open spec fn mask_signal_bits() -> Seq<bool> {
    bits_of(1, 1) + bits_of(0, 2)
}

/// Writes the announcement of a mask block for a player that did not move.
pub fn write_mask_update_signal(bit_buf: &mut BitBuf) -> (r: Result<(), PlayerInfoError>)
    ensures
        r == Ok::<(), PlayerInfoError>(()),
        final(bit_buf)@ == old(bit_buf)@ + mask_signal_bits(),
{
    proof {
        lemma2_to64();
    }
    let ghost start = bit_buf@;
    bit_buf.write(1, 1)?;
    bit_buf.write(2, 0)?;
    assert(bit_buf@ =~= start + mask_signal_bits());
    Ok(())
}

/// Change of x that a step with the given code makes: the table
/// `[-1, 0, 1, -1, 1, -1, 0, 1]`, and 0 for what is no step code.
pub open spec fn step_dx(code: i32) -> int {
    if code == 0 || code == 3 || code == 5 {
        -1
    } else if code == 2 || code == 4 || code == 7 {
        1
    } else {
        0
    }
}

/// Change of y that a step with the given code makes: the table
/// `[-1, -1, -1, 0, 0, 1, 1, 1]`, and 0 for what is no step code.
pub open spec fn step_dy(code: i32) -> int {
    if 0 <= code <= 2 {
        -1
    } else if 5 <= code <= 7 {
        1
    } else {
        0
    }
}

/// Whether a displacement is too far for five-bit offsets.
pub open spec fn large_change(old: i32, new: i32) -> bool {
    let dx = delta_x(old, new);
    let dy = delta_y(old, new);
    dx < -15 || dx > 15 || dy < -15 || dy > 15
}

/// The bits of a displacement from `old` to `new`: the shape 3 in two bits,
/// whether the change is large, the level change in two bits, and the
/// changes of x and y in 14 bits each if large, else in 5 bits each.
pub open spec fn displacement_bits(old: i32, new: i32) -> Seq<bool> {
    let dx = delta_x(old, new);
    let dy = delta_y(old, new);
    let dl = delta_level(old, new);
    bits_of(3, 2) + seq![large_change(old, new)] + bits_of(dl % 4, 2) + if large_change(
        old,
        new,
    ) {
        bits_of(dx % 0x4000, 14) + bits_of(dy % 0x4000, 14)
    } else {
        bits_of(dx % 32, 5) + bits_of(dy % 32, 5)
    }
}

/// The bits of the steps taken: for two steps or more the shape 2 and, in
/// four bits, the direction code of the first two steps together; for one
/// step the shape 1 and its direction code in three bits; else nothing.
pub open spec fn step_bits(steps: Seq<i32>) -> Seq<bool> {
    if steps.len() >= 2 {
        bits_of(2, 2) + bits_of(
            direction_code(
                step_dx(steps[0]) + step_dx(steps[1]),
                step_dy(steps[0]) + step_dy(steps[1]),
            ),
            4,
        )
    } else if steps.len() == 1 {
        bits_of(1, 2) + bits_of(direction_code(step_dx(steps[0]), step_dy(steps[0])), 3)
    } else {
        Seq::empty()
    }
}

/// The bits of a local player's movement: whether a mask block comes with
/// it, then the displacement if there is one, else the steps.
pub open spec fn movement_bits(
    mask_update: bool,
    steps: Seq<i32>,
    displaced: bool,
    old: i32,
    new: i32,
) -> Seq<bool> {
    seq![mask_update] + if displaced {
        displacement_bits(old, new)
    } else {
        step_bits(steps)
    }
}

/// Change of x of a step code.
pub fn step_delta_x(code: i32) -> (d: i32)
    ensures
        d == step_dx(code),
{
    if code == 0 || code == 3 || code == 5 {
        -1
    } else if code == 2 || code == 4 || code == 7 {
        1
    } else {
        0
    }
}

/// Change of y of a step code.
pub fn step_delta_y(code: i32) -> (d: i32)
    ensures
        d == step_dy(code),
{
    if 0 <= code && code <= 2 {
        -1
    } else if 5 <= code && code <= 7 {
        1
    } else {
        0
    }
}

/// Writes the movement of a locally tracked player and empties its steps.
/// `record_coordinates` is where the record has the player,
/// `new_coordinates` where it stands now; they count for a displacement.
pub fn write_local_movement(
    bit_buf: &mut BitBuf,
    mask_update: bool,
    steps: &mut Vec<i32>,
    displaced: bool,
    record_coordinates: i32,
    new_coordinates: i32,
) -> (r: Result<(), PlayerInfoError>)
    ensures
        r == Ok::<(), PlayerInfoError>(()),
        final(bit_buf)@ == old(bit_buf)@ + movement_bits(
            mask_update,
            old(steps)@,
            displaced,
            record_coordinates,
            new_coordinates,
        ),
        final(steps)@ == Seq::<i32>::empty(),
{
    proof {
        lemma2_to64();
        lemma_coord_ranges(record_coordinates);
        lemma_coord_ranges(new_coordinates);
    }
    let ghost start = bit_buf@;
    let ghost all = movement_bits(
        mask_update,
        steps@,
        displaced,
        record_coordinates,
        new_coordinates,
    );
    bit_buf.write_bit(mask_update);
    if displaced {
        let diff_x: i32 = ((new_coordinates >> 8) & 0xFF) - ((record_coordinates >> 8) & 0xFF);
        let diff_y: i32 = (new_coordinates & 0xFF) - (record_coordinates & 0xFF);
        let diff_level: i32 = ((new_coordinates >> 8) & 0x3) - ((record_coordinates >> 8) & 0x3);
        let large_change = diff_x < -15 || diff_x > 15 || diff_y < -15 || diff_y > 15;
        let level_bits: u32 = (diff_level as u32) & 0x3;
        assert(level_bits == diff_level as int % 4) by (bit_vector)
            requires
                level_bits == (diff_level as u32) & 0x3,
                -3 <= diff_level <= 3,
        ;

        bit_buf.write(2, 3)?;
        bit_buf.write_bit(large_change);
        bit_buf.write(2, level_bits)?;

        if large_change {
            let wide_x: u32 = (diff_x as u32) & 0x3FFF;
            let wide_y: u32 = (diff_y as u32) & 0x3FFF;
            proof {
                assert(wide_x == diff_x as int % 0x4000) by (bit_vector)
                    requires
                        wide_x == (diff_x as u32) & 0x3FFF,
                        -255 <= diff_x <= 255,
                ;
                assert(wide_y == diff_y as int % 0x4000) by (bit_vector)
                    requires
                        wide_y == (diff_y as u32) & 0x3FFF,
                        -255 <= diff_y <= 255,
                ;
            }
            bit_buf.write(14, wide_x)?;
            bit_buf.write(14, wide_y)?;
        } else {
            let near_x: u32 = (diff_x as u32) & 0x1F;
            let near_y: u32 = (diff_y as u32) & 0x1F;
            proof {
                assert(near_x == diff_x as int % 32) by (bit_vector)
                    requires
                        near_x == (diff_x as u32) & 0x1F,
                        -255 <= diff_x <= 255,
                ;
                assert(near_y == diff_y as int % 32) by (bit_vector)
                    requires
                        near_y == (diff_y as u32) & 0x1F,
                        -255 <= diff_y <= 255,
                ;
            }
            bit_buf.write(5, near_x)?;
            bit_buf.write(5, near_y)?;
        }
        assert(bit_buf@ =~= start + all);
    } else if steps.len() >= 2 {
        let dx: i32 = step_delta_x(steps[0]) + step_delta_x(steps[1]);
        let dy: i32 = step_delta_y(steps[0]) + step_delta_y(steps[1]);
        let direction: u32 = direction_of(dx, dy);
        bit_buf.write(2, 2)?;
        bit_buf.write(4, direction)?;
        assert(bit_buf@ =~= start + all);
    } else if steps.len() == 1 {
        let direction: u32 = direction_of(step_delta_x(steps[0]), step_delta_y(steps[0]));
        bit_buf.write(2, 1)?;
        bit_buf.write(3, direction)?;
        assert(bit_buf@ =~= start + all);
    } else {
        assert(bit_buf@ =~= start + all);
    }
    steps.clear();
    Ok(())
}

/// The bits that tell the client to start tracking a player: the update
/// marker 1, two bits 00, the 18 low bits of the player's packed
/// coordinate, and whether a mask block comes with it.
pub open spec fn addition_bits(coordinates: i32, mask_update: bool) -> Seq<bool> {
    seq![true] + bits_of(0, 2) + bits_of((coordinates & 0x3FFFF) as int, 18) + seq![mask_update]
}

/// Writes the addition of a player that stands at `coordinates` to the
/// locally tracked ones.
pub fn write_player_addition(bit_buf: &mut BitBuf, coordinates: i32, mask_update: bool) -> (r:
    Result<(), PlayerInfoError>)
    ensures
        r == Ok::<(), PlayerInfoError>(()),
        final(bit_buf)@ == old(bit_buf)@ + addition_bits(coordinates, mask_update),
{
    proof {
        lemma2_to64();
    }
    let ghost start = bit_buf@;
    let packed: u32 = (coordinates & 0x3FFFF) as u32;
    assert(0 <= coordinates & 0x3FFFF < 0x40000) by (bit_vector);
    bit_buf.write_bit(true);
    bit_buf.write(2, 0)?;
    bit_buf.write(18, packed)?;
    bit_buf.write_bit(mask_update);
    assert(bit_buf@ =~= start + addition_bits(coordinates, mask_update));
    Ok(())
}

/// The number in the `width` bits of a stream that start at `at`.
pub open spec fn read_bits(bits: Seq<bool>, at: int, width: int) -> int {
    value_of(bits.subrange(at, at + width))
}

/// A field of `width` bits that holds `value`, between what was written
/// before it and what comes after it, reads back as `value`.
pub proof fn lemma_read_field(before: Seq<bool>, value: int, width: nat, after: Seq<bool>)
    requires
        0 <= value < vstd::arithmetic::power2::pow2(width),
    ensures
        read_bits(before + bits_of(value, width) + after, before.len() as int, width as int)
            == value,
        (before + bits_of(value, width)).len() == before.len() + width,
{
    lemma_bits_of_len(value, width);
    lemma_value_of_bits_of(value, width);
    vstd::arithmetic::div_mod::lemma_small_mod(
        value as nat,
        vstd::arithmetic::power2::pow2(width),
    );
    let all = before + bits_of(value, width) + after;
    assert(all.subrange(before.len() as int, (before.len() + width) as int) =~= bits_of(
        value,
        width,
    ));
}

/// The length of the skip run that a stream starts with: what a reader
/// makes of the size class in bits 1 and 2 and the count behind them.
pub open spec fn read_skip_count(bits: Seq<bool>) -> int {
    let class = read_bits(bits, 1, 2);
    if class == 0 {
        0
    } else if class == 1 {
        read_bits(bits, 3, 5)
    } else if class == 2 {
        read_bits(bits, 3, 8)
    } else {
        read_bits(bits, 3, 11)
    }
}

/// A skip run of 0 to `MAX_PLAYERS` records, written and read back, gives
/// the same count, whatever follows it in the stream; and its first bit is
/// the marker 0.
pub proof fn lemma_skip_count_round_trip(count: int, rest: Seq<bool>)
    requires
        0 <= count <= MAX_PLAYERS,
    ensures
        skip_result(count) is Ok,
        !(skip_bits(count) + rest)[0],
        read_skip_count(skip_bits(count) + rest) == count,
{
    lemma2_to64();
    let marker = seq![false];
    let all = skip_bits(count) + rest;
    let class: int = if count == 0 {
        0
    } else if count < 32 {
        1
    } else if count < 256 {
        2
    } else {
        3
    };
    let width: nat = if count == 0 {
        0
    } else if count < 32 {
        5
    } else if count < 256 {
        8
    } else {
        11
    };
    let head = marker + bits_of(class, 2);
    lemma_bits_of_len(class, 2);
    if count == 0 {
        lemma_read_field(marker, class, 2, rest);
        assert(all =~= marker + bits_of(class, 2) + rest);
    } else {
        lemma_read_field(marker, class, 2, bits_of(count, width) + rest);
        lemma_read_field(head, count, width, rest);
        assert(all =~= marker + bits_of(class, 2) + (bits_of(count, width) + rest));
        assert(all =~= head + bits_of(count, width) + rest);
    }
}

/// The low 16 bits of the coordinate that a reader who holds `old` makes of
/// a coordinate change at the start of a stream. A level change keeps y and
/// all of x but its two low bits; a step moves by the direction's offsets; a
/// jump adds to x and y modulo 256.
pub open spec fn read_coordinate_multiplier(old: i32, bits: Seq<bool>) -> int {
    let shape = read_bits(bits, 0, 2);
    let x = coord_x(old) as int;
    let y = coord_y(old) as int;
    if shape == 1 {
        (x - x % 4 + (x % 4 + read_bits(bits, 2, 2)) % 4) * 256 + y
    } else if shape == 2 {
        let code = read_bits(bits, 4, 3) as i32;
        (x + step_dx(code)) * 256 + (y + step_dy(code))
    } else {
        ((x + read_bits(bits, 4, 8)) % 256) * 256 + (y + read_bits(bits, 12, 8)) % 256
    }
}

/// Whether a reader can tell `new` from a written change from `old`: the
/// level does not go down; where it goes up, nothing else changes; where it
/// stays, x or y changes.
pub open spec fn multiplier_recoverable(old: i32, new: i32) -> bool {
    let dl = delta_level(old, new);
    if dl == 0 {
        delta_x(old, new) != 0 || delta_y(old, new) != 0
    } else {
        dl > 0 && delta_y(old, new) == 0 && coord_x(new) / 4 == coord_x(old) / 4
    }
}

/// A coordinate change that a reader can recover, written and read back
/// against the old coordinate, gives the low 16 bits of the new one,
/// whatever follows it in the stream.
pub proof fn lemma_coordinate_multiplier_round_trip(old: i32, new: i32, rest: Seq<bool>)
    requires
        multiplier_recoverable(old, new),
    ensures
        multiplier_result(old, new) is Ok,
        read_coordinate_multiplier(old, multiplier_bits(old, new) + rest) == new & 0xFFFF,
{
    lemma2_to64();
    lemma_coord_ranges(old);
    lemma_coord_ranges(new);
    assert(new & 0xFFFF == ((new >> 8) & 0xFF) * 256 + (new & 0xFF)) by (bit_vector);
    let dx = delta_x(old, new);
    let dy = delta_y(old, new);
    let dl = delta_level(old, new);
    let x = coord_x(old) as int;
    let y = coord_y(old) as int;
    let none = Seq::<bool>::empty();
    let all = multiplier_bits(old, new) + rest;
    lemma_bits_of_len(1, 2);
    lemma_bits_of_len(2, 2);
    lemma_bits_of_len(3, 2);
    lemma_bits_of_len(0, 2);
    if dl != 0 {
        lemma_read_field(none, 1, 2, bits_of(dl, 2) + rest);
        lemma_read_field(bits_of(1, 2), dl, 2, rest);
        assert(all =~= none + bits_of(1, 2) + (bits_of(dl, 2) + rest));
        assert(all =~= bits_of(1, 2) + bits_of(dl, 2) + rest);
        assert(coord_x(new) as int == x - x % 4 + (x % 4 + dl) % 4) by (nonlinear_arith)
            requires
                coord_x(new) / 4 == x / 4,
                coord_x(new) % 4 - x % 4 == dl,
                0 <= x,
                0 <= coord_x(new),
        ;
    } else if -1 <= dx <= 1 && -1 <= dy <= 1 {
        let code = direction_code(dx, dy);
        let head = bits_of(2, 2) + bits_of(0, 2);
        lemma_read_field(none, 2, 2, bits_of(0, 2) + bits_of(code, 3) + rest);
        lemma_read_field(head, code, 3, rest);
        assert(all =~= none + bits_of(2, 2) + (bits_of(0, 2) + bits_of(code, 3) + rest));
        assert(all =~= head + bits_of(code, 3) + rest);
        assert(dx == 0) by (nonlinear_arith)
            requires
                -1 <= dx <= 1,
                dx == coord_x(new) - x,
                coord_x(new) % 4 == x % 4,
        ;
    } else {
        let head = bits_of(3, 2) + bits_of(0, 2);
        let first = head + bits_of(dx % 256, 8);
        lemma_read_field(
            none,
            3,
            2,
            bits_of(0, 2) + bits_of(dx % 256, 8) + bits_of(dy % 256, 8) + rest,
        );
        lemma_read_field(head, dx % 256, 8, bits_of(dy % 256, 8) + rest);
        lemma_read_field(first, dy % 256, 8, rest);
        assert(all =~= none + bits_of(3, 2) + (bits_of(0, 2) + bits_of(dx % 256, 8) + bits_of(
            dy % 256,
            8,
        ) + rest));
        assert(all =~= head + bits_of(dx % 256, 8) + (bits_of(dy % 256, 8) + rest));
        assert(all =~= first + bits_of(dy % 256, 8) + rest);
        assert((x + dx % 256) % 256 == coord_x(new)) by (nonlinear_arith)
            requires
                dx == coord_x(new) - x,
                0 <= x <= 255,
                0 <= coord_x(new) <= 255,
        ;
        assert((y + dy % 256) % 256 == coord_y(new)) by (nonlinear_arith)
            requires
                dy == coord_y(new) - y,
                0 <= y <= 255,
                0 <= coord_y(new) <= 255,
        ;
    }
}

} // verus!
