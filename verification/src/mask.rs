//! Update masks and their encoding into the mask buffer.

use crate::bytebuf::{be16, be16_add, c_string, reverse_add, ByteWriter};
use vstd::prelude::*;

verus! {

/// An update that travels in the mask buffer.
pub enum PlayerMask {
    AppearanceMask(AppearanceMask),
    DirectionMask(DirectionMask),
}

/// How a player looks.
pub struct AppearanceMask {
    pub gender: i8,
    pub skull: bool,
    pub overhead_prayer: i8,
    pub head: i16,
    pub cape: i16,
    pub neck: i16,
    pub weapon: i16,
    pub body: i16,
    pub shield: i16,
    pub arms: i16,
    pub is_full_body: bool,
    pub legs: i16,
    pub hair: i16,
    pub covers_hair: bool,
    pub hands: i16,
    pub feet: i16,
    pub covers_face: bool,
    pub beard: i16,
    pub colors_hair: i8,
    pub colors_torso: i8,
    pub colors_legs: i8,
    pub colors_feet: i8,
    pub colors_skin: i8,
    pub weapon_stance_stand: i16,
    pub weapon_stance_turn: i16,
    pub weapon_stance_walk: i16,
    pub weapon_stance_turn180: i16,
    pub weapon_stance_turn90cw: i16,
    pub weapon_stance_turn90ccw: i16,
    pub weapon_stance_run: i16,
    pub username: String,
    pub combat_level: i8,
    pub skill_id_level: i16,
    pub hidden: i8,
}

/// The direction a player faces.
pub struct DirectionMask {
    pub direction: i16,
}

/// The number of ordering slots for masks. Appearance has slot 3 and
/// direction slot 11; the others are kept for masks to come.
pub const MASK_SLOTS: usize = 12;

/// The ordering slot of a mask.
pub open spec fn slot_of(mask: PlayerMask) -> int {
    match mask {
        PlayerMask::AppearanceMask(_) => 3,
        PlayerMask::DirectionMask(_) => 11,
    }
}

/// The bit that a mask sets in the header.
pub open spec fn header_flag(mask: PlayerMask) -> i32 {
    match mask {
        PlayerMask::AppearanceMask(_) => 0x2,
        PlayerMask::DirectionMask(_) => 0x8,
    }
}

/// The header of a list of masks: the header bits of all of them.
pub open spec fn mask_header(masks: Seq<PlayerMask>) -> i32
    decreases masks.len(),
{
    if masks.len() == 0 {
        0
    } else {
        mask_header(masks.drop_last()) | header_flag(masks.last())
    }
}

/// The bytes of a header: one byte, or two where the header is 0xFF or
/// more, the first with the continuation bit 0x40.
pub open spec fn header_bytes(header: i32) -> Seq<u8> {
    if header >= 0xFF {
        seq![((header | 0x40) as i8) as u8, ((header >> 8) as i8) as u8]
    } else {
        seq![(header as i8) as u8]
    }
}

/// `256 + v` in 16 bits, wrapping.
pub open spec fn plus_256(v: i16) -> i16 {
    if v + 256 > i16::MAX {
        (v + 256 - 0x10000) as i16
    } else {
        (v + 256) as i16
    }
}

/// The fields of an appearance in the order of the wire, before they are
/// reversed.
pub open spec fn appearance_payload(a: AppearanceMask) -> Seq<u8> {
    Seq::<u8>::empty() + seq![a.gender as u8] + seq![
        (if a.skull {
            1i8
        } else {
            -1i8
        }) as u8,
    ] + seq![a.overhead_prayer as u8] + seq![0u8] + seq![0u8] + seq![0u8] + seq![0u8] + be16(
        274,
    ) + seq![0u8] + be16(plus_256(a.arms)) + be16(plus_256(a.legs)) + be16(plus_256(a.hair))
        + be16(plus_256(a.hands)) + be16(plus_256(a.feet)) + be16(
        if a.gender == 0 {
            plus_256(a.beard)
        } else {
            0i16
        },
    ) + seq![a.colors_hair as u8] + seq![a.colors_torso as u8] + seq![a.colors_legs as u8]
        + seq![a.colors_feet as u8] + seq![a.colors_skin as u8] + be16(a.weapon_stance_stand)
        + be16(a.weapon_stance_turn) + be16(a.weapon_stance_walk) + be16(a.weapon_stance_turn180)
        + be16(a.weapon_stance_turn90cw) + be16(a.weapon_stance_turn90ccw) + be16(
        a.weapon_stance_run,
    ) + c_string(a.username@) + seq![a.combat_level as u8] + be16(a.skill_id_level) + seq![
        a.hidden as u8,
    ]
}

/// The length of an appearance payload: 46 bytes and the name.
pub open spec fn appearance_len(a: AppearanceMask) -> nat {
    46 + vstd::utf8::encode_utf8(a.username@).len()
}

/// An appearance as it stands in the mask buffer: the low byte of the
/// payload's length, then the payload reversed with 128 added to each byte.
pub open spec fn appearance_block(a: AppearanceMask) -> Seq<u8> {
    seq![((appearance_len(a) as usize) as i8) as u8] + reverse_add(appearance_payload(a))
}

/// The bytes of one mask in the mask buffer.
pub open spec fn payload_of(mask: PlayerMask) -> Seq<u8> {
    match mask {
        PlayerMask::AppearanceMask(a) => appearance_block(a),
        PlayerMask::DirectionMask(d) => be16_add(d.direction),
    }
}

/// The payloads of the masks of one ordering slot, in the order of the list.
pub open spec fn slot_payload(masks: Seq<PlayerMask>, slot: int) -> Seq<u8>
    decreases masks.len(),
{
    if masks.len() == 0 {
        Seq::empty()
    } else {
        slot_payload(masks.drop_last(), slot) + if slot_of(masks.last()) == slot {
            payload_of(masks.last())
        } else {
            Seq::empty()
        }
    }
}

/// The payloads of the first `slots` ordering slots, slot by slot.
pub open spec fn payloads(masks: Seq<PlayerMask>, slots: nat) -> Seq<u8>
    decreases slots,
{
    if slots == 0 {
        Seq::empty()
    } else {
        payloads(masks, (slots - 1) as nat) + slot_payload(masks, slots - 1)
    }
}

/// What a list of masks adds to the mask buffer: the header, then the
/// payloads by ascending slot.
pub open spec fn mask_block(masks: Seq<PlayerMask>) -> Seq<u8> {
    header_bytes(mask_header(masks)) + payloads(masks, MASK_SLOTS as nat)
}

pub proof fn lemma_appearance_payload_len(a: AppearanceMask)
    ensures
        appearance_payload(a).len() == appearance_len(a),
        appearance_block(a).len() == appearance_len(a) + 1,
{
}

/// The payloads of a slot only grow along the list.
pub proof fn lemma_slot_payload_prefix(masks: Seq<PlayerMask>, slot: int, j: int)
    requires
        0 <= j <= masks.len(),
    ensures
        slot_payload(masks.take(j), slot).len() <= slot_payload(masks, slot).len(),
    decreases masks.len(),
{
    if j == masks.len() {
        assert(masks.take(j) =~= masks);
    } else {
        assert(masks.drop_last().take(j) =~= masks.take(j));
        lemma_slot_payload_prefix(masks.drop_last(), slot, j);
    }
}

/// The payloads only grow along the slots.
pub proof fn lemma_payloads_prefix(masks: Seq<PlayerMask>, k: nat, n: nat)
    requires
        k <= n,
    ensures
        payloads(masks, k).len() <= payloads(masks, n).len(),
    decreases n,
{
    if k < n {
        lemma_payloads_prefix(masks, k, (n - 1) as nat);
    }
}

/// Writes a facing direction: 16 bits with 128 added to the low byte.
pub fn write_direction_mask(direction_mask: &DirectionMask, mask_buf: &mut ByteWriter)
    requires
        old(mask_buf).wf(),
        old(mask_buf)@.len() + 2 <= old(mask_buf).limit(),
    ensures
        final(mask_buf).appended(old(mask_buf), be16_add(direction_mask.direction)),
{
    mask_buf.write_i16_add(direction_mask.direction);
}

/// Writes an appearance: its fields go to a buffer of their own, whose
/// length and reversed content are then appended to the mask buffer.
pub fn write_appearance_mask(appearance_mask: &AppearanceMask, mask_buf: &mut ByteWriter)
    requires
        old(mask_buf).wf(),
        old(mask_buf)@.len() + appearance_block(*appearance_mask).len() <= old(mask_buf).limit(),
    ensures
        final(mask_buf).appended(old(mask_buf), appearance_block(*appearance_mask)),
{
    proof {
        lemma_appearance_payload_len(*appearance_mask);
        mask_buf.lemma_len_within_limit();
    }
    let name = appearance_mask.username.as_str();
    let mut temp_buf = ByteWriter::new(46 + name.len());

    temp_buf.write_i8(appearance_mask.gender);
    if appearance_mask.skull {
        temp_buf.write_i8(1)
    } else {
        temp_buf.write_i8(-1)
    }

    temp_buf.write_i8(appearance_mask.overhead_prayer);

    temp_buf.write_i8(0);  // Head
    temp_buf.write_i8(0);  // Cape
    temp_buf.write_i8(0);  // Neck
    temp_buf.write_i8(0);  // Weapon

    temp_buf.write_i16(256 + 18);  // Torso
    temp_buf.write_i8(0);  // Shield
    temp_buf.write_i16(256i16.wrapping_add(appearance_mask.arms));
    temp_buf.write_i16(256i16.wrapping_add(appearance_mask.legs));
    temp_buf.write_i16(256i16.wrapping_add(appearance_mask.hair));
    temp_buf.write_i16(256i16.wrapping_add(appearance_mask.hands));
    temp_buf.write_i16(256i16.wrapping_add(appearance_mask.feet));

    if appearance_mask.gender == 0 {
        temp_buf.write_i16(256i16.wrapping_add(appearance_mask.beard));
    } else {
        temp_buf.write_i16(0);
    }

    temp_buf.write_i8(appearance_mask.colors_hair);
    temp_buf.write_i8(appearance_mask.colors_torso);
    temp_buf.write_i8(appearance_mask.colors_legs);
    temp_buf.write_i8(appearance_mask.colors_feet);
    temp_buf.write_i8(appearance_mask.colors_skin);

    temp_buf.write_i16(appearance_mask.weapon_stance_stand);
    temp_buf.write_i16(appearance_mask.weapon_stance_turn);
    temp_buf.write_i16(appearance_mask.weapon_stance_walk);
    temp_buf.write_i16(appearance_mask.weapon_stance_turn180);
    temp_buf.write_i16(appearance_mask.weapon_stance_turn90cw);
    temp_buf.write_i16(appearance_mask.weapon_stance_turn90ccw);
    temp_buf.write_i16(appearance_mask.weapon_stance_run);

    temp_buf.write_c_string(name);
    temp_buf.write_i8(appearance_mask.combat_level);
    temp_buf.write_i16(appearance_mask.skill_id_level);
    temp_buf.write_i8(appearance_mask.hidden);
    assert(temp_buf@ == appearance_payload(*appearance_mask));

    let ghost start = mask_buf@;
    mask_buf.write_i8(temp_buf.len() as i8);
    mask_buf.reverse_add_copy(&temp_buf);
    assert(mask_buf@ =~= start + appearance_block(*appearance_mask));
}

/// The header of a list of masks.
pub fn header_of(masks: &Vec<PlayerMask>) -> (header: i32)
    ensures
        header == mask_header(masks@),
{
    let mut mask: i32 = 0;
    let mut j: usize = 0;
    while j < masks.len()
        invariant
            j <= masks.len(),
            mask == mask_header(masks@.take(j as int)),
        decreases masks.len() - j,
    {
        assert(masks@.take(j + 1).drop_last() =~= masks@.take(j as int));
        match &masks[j] {
            PlayerMask::AppearanceMask(_) => {
                mask |= 0x2;
            },
            PlayerMask::DirectionMask(_) => {
                mask |= 0x8;
            },
        }
        j += 1;
    }
    assert(masks@.take(j as int) =~= masks@);
    mask
}

/// The number of bytes that one mask takes in the mask buffer, if a `usize`
/// can hold it.
pub fn payload_len(mask: &PlayerMask) -> (n: Option<usize>)
    ensures
        match n {
            Some(n) => n == payload_of(*mask).len(),
            None => payload_of(*mask).len() > usize::MAX,
        },
{
    match mask {
        PlayerMask::AppearanceMask(a) => {
            proof {
                lemma_appearance_payload_len(*a);
            }
            a.username.as_str().as_bytes().len().checked_add(47)
        },
        PlayerMask::DirectionMask(_) => Some(2),
    }
}

/// The number of bytes that a list of masks adds to the mask buffer, if a
/// `usize` can hold it.
pub fn mask_block_len(masks: &Vec<PlayerMask>) -> (n: Option<usize>)
    ensures
        match n {
            Some(n) => n == mask_block(masks@).len(),
            None => mask_block(masks@).len() > usize::MAX,
        },
{
    let mut total: usize = if header_of(masks) >= 0xFF {
        2
    } else {
        1
    };
    let ghost head = header_bytes(mask_header(masks@)).len();
    let mut slot: usize = 0;
    while slot < MASK_SLOTS
        invariant
            slot <= MASK_SLOTS,
            head == header_bytes(mask_header(masks@)).len(),
            total == head + payloads(masks@, slot as nat).len(),
        decreases MASK_SLOTS - slot,
    {
        let mut j: usize = 0;
        while j < masks.len()
            invariant
                slot < MASK_SLOTS,
                j <= masks.len(),
                head == header_bytes(mask_header(masks@)).len(),
                total == head + payloads(masks@, slot as nat).len() + slot_payload(
                    masks@.take(j as int),
                    slot as int,
                ).len(),
            decreases masks.len() - j,
        {
            assert(masks@.take(j + 1).drop_last() =~= masks@.take(j as int));
            let in_slot = match &masks[j] {
                PlayerMask::AppearanceMask(_) => slot == 3,
                PlayerMask::DirectionMask(_) => slot == 11,
            };
            if in_slot {
                let sum: Option<usize> = match payload_len(&masks[j]) {
                    Some(n) => total.checked_add(n),
                    None => None,
                };
                match sum {
                    Some(sum) => {
                        total = sum;
                    },
                    None => {
                        proof {
                            let grown = slot_payload(masks@.take(j + 1), slot as int);
                            lemma_slot_payload_prefix(masks@, slot as int, j + 1);
                            lemma_payloads_prefix(masks@, (slot + 1) as nat, MASK_SLOTS as nat);
                            assert(masks@.take(j + 1).last() == masks@[j as int]);
                            assert(grown.len() == slot_payload(
                                masks@.take(j as int),
                                slot as int,
                            ).len() + payload_of(masks@[j as int]).len());
                        }
                        return None;
                    },
                }
            }
            j += 1;
        }
        assert(masks@.take(j as int) =~= masks@);
        slot += 1;
    }
    Some(total)
}

/// Writes the header of a list of masks and then their payloads by
/// ascending slot, and empties the list.
pub fn write_mask_update(mask_buf: &mut ByteWriter, masks: &mut Vec<PlayerMask>)
    requires
        old(mask_buf).wf(),
        old(mask_buf)@.len() + mask_block(old(masks)@).len() <= old(mask_buf).limit(),
    ensures
        final(mask_buf).appended(old(mask_buf), mask_block(old(masks)@)),
        final(masks)@ == Seq::<PlayerMask>::empty(),
{
    let ghost start = mask_buf@;
    let ghost head = header_bytes(mask_header(masks@));
    let mask: i32 = header_of(masks);

    if mask >= 0xFF {
        mask_buf.write_i8((mask | 0x40) as i8);
        mask_buf.write_i8((mask >> 8) as i8);
    } else {
        mask_buf.write_i8(mask as i8);
    }
    assert(mask_buf@ =~= start + head);

    let mut slot: usize = 0;
    while slot < MASK_SLOTS
        invariant
            slot <= MASK_SLOTS,
            masks@ == old(masks)@,
            mask_buf.wf(),
            mask_buf.limit() == old(mask_buf).limit(),
            start == old(mask_buf)@,
            head == header_bytes(mask_header(masks@)),
            start.len() + mask_block(masks@).len() <= mask_buf.limit(),
            mask_buf@ == start + head + payloads(masks@, slot as nat),
        decreases MASK_SLOTS - slot,
    {
        let mut j: usize = 0;
        while j < masks.len()
            invariant
                slot < MASK_SLOTS,
                j <= masks.len(),
                masks@ == old(masks)@,
                mask_buf.wf(),
                mask_buf.limit() == old(mask_buf).limit(),
                start == old(mask_buf)@,
                head == header_bytes(mask_header(masks@)),
                start.len() + mask_block(masks@).len() <= mask_buf.limit(),
                mask_buf@ == start + head + payloads(masks@, slot as nat) + slot_payload(
                    masks@.take(j as int),
                    slot as int,
                ),
            decreases masks.len() - j,
        {
            proof {
                assert(masks@.take(j + 1).drop_last() =~= masks@.take(j as int));
                lemma_slot_payload_prefix(masks@, slot as int, j + 1);
                lemma_payloads_prefix(masks@, (slot + 1) as nat, MASK_SLOTS as nat);
            }
            let ghost before = mask_buf@;
            match &masks[j] {
                PlayerMask::AppearanceMask(p) => {
                    if slot == 3 {
                        write_appearance_mask(p, mask_buf);
                    }
                },
                PlayerMask::DirectionMask(p) => {
                    if slot == 11 {
                        write_direction_mask(p, mask_buf);
                    }
                },
            }
            assert(mask_buf@ =~= start + head + payloads(masks@, slot as nat) + slot_payload(
                masks@.take(j + 1),
                slot as int,
            ));
            j += 1;
        }
        assert(masks@.take(j as int) =~= masks@);
        assert(mask_buf@ =~= start + head + payloads(masks@, (slot + 1) as nat));
        slot += 1;
    }
    assert(mask_buf@ =~= start + mask_block(masks@));

    masks.clear();
}

} // verus!
