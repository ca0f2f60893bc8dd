use std::collections::hash_map::DefaultHasher;
use std::hash::{Hash, Hasher};

use anyhow::{Context, Result};
use playerinfo::{AppearanceMask, DirectionMask, PlayerInfo, PlayerInfoError, PlayerMask};

fn failure(e: PlayerInfoError) -> anyhow::Error {
    anyhow::Error::msg(e.message())
}

#[test]
fn add_player_test() -> Result<()> {
    let mut playerinfo = PlayerInfo::new();
    playerinfo.add_player(123).map_err(failure)?;

    assert_eq!(playerinfo.len(), 1);

    Ok(())
}

#[test]
fn playerinfo_test() -> Result<()> {
    let mut playerinfo = PlayerInfo::new();
    playerinfo.add_player(131313).map_err(failure)?;

    let playerinfodata = playerinfo
        .get_player_mut(0)
        .context("yes")?
        .record_mut(0)
        .context("yess")?;

    playerinfodata
        .masks
        .push(PlayerMask::AppearanceMask(AppearanceMask {
            gender: 0,
            skull: false,
            overhead_prayer: -1,
            head: 0,
            cape: 0,
            neck: 0,
            weapon: 0,
            body: 0,
            shield: 0,
            is_full_body: false,
            legs: 36,
            covers_hair: false,
            hands: 33,
            feet: 42,
            covers_face: false,
            colors_hair: 0,
            colors_torso: 0,
            colors_legs: 0,
            colors_feet: 0,
            colors_skin: 0,
            weapon_stance_stand: 808,
            weapon_stance_turn: 823,
            weapon_stance_walk: 819,
            weapon_stance_turn180: 820,
            weapon_stance_turn90cw: 821,
            weapon_stance_turn90ccw: 822,
            weapon_stance_run: 824,
            username: "Sage".to_string(),
            combat_level: 125,
            skill_id_level: 0,
            hidden: 0,
            arms: 26,
            hair: 0,
            beard: 10,
        }));

    playerinfodata
        .masks
        .push(PlayerMask::DirectionMask(DirectionMask { direction: 1536 }));

    let vec = playerinfo.process(0).map_err(failure)?;
    println!("Vec with mask: {:?}", vec);

    let mut s = DefaultHasher::new();
    vec.hash(&mut s);
    assert_eq!(s.finish(), 9926834204379934435);

    let vec = playerinfo.process(0).map_err(failure)?;
    println!("Vec with mask: {:?}", vec);

    Ok(())
}

#[test]
fn appearance_and_direction_on_the_viewer() {
    let mut playerinfo = PlayerInfo::new();
    assert_eq!(playerinfo.add_player(131313), Ok(0));
    let masks = &mut playerinfo.record_mut(0, 0).unwrap().masks;
    masks.push(PlayerMask::AppearanceMask(AppearanceMask {
        gender: 0,
        skull: false,
        overhead_prayer: -1,
        head: 0,
        cape: 0,
        neck: 0,
        weapon: 0,
        body: 0,
        shield: 0,
        arms: 26,
        is_full_body: false,
        legs: 36,
        hair: 0,
        covers_hair: false,
        hands: 33,
        feet: 42,
        covers_face: false,
        beard: 10,
        colors_hair: 0,
        colors_torso: 0,
        colors_legs: 0,
        colors_feet: 0,
        colors_skin: 0,
        weapon_stance_stand: 808,
        weapon_stance_turn: 823,
        weapon_stance_walk: 819,
        weapon_stance_turn180: 820,
        weapon_stance_turn90cw: 821,
        weapon_stance_turn90ccw: 822,
        weapon_stance_run: 824,
        username: "Sage".to_string(),
        combat_level: 125,
        skill_id_level: 0,
        hidden: 0,
    }));
    masks.push(PlayerMask::DirectionMask(DirectionMask { direction: 1536 }));

    let first = playerinfo.process(0).unwrap();
    let expected: Vec<u8> = vec![
        // the viewer: update, mask, no movement
        0xC0, // the 2046 others: one run of 2045 behind the first
        0x7F, 0xF4, // mask header: appearance and direction
        0x0A, // appearance: length, then the fields from last to first, each plus 128
        50, 0x80, 0x80, 0x80, 0xFD, 0x80, 0xE5, 0xE7, 0xE1, 0xD3, 0xB8, 0x83, 0xB6, 0x83, 0xB5,
        0x83, 0xB4, 0x83, 0xB3, 0x83, 0xB7, 0x83, 0xA8, 0x83, 0x80, 0x80, 0x80, 0x80, 0x80, 0x8A,
        0x81, 0xAA, 0x81, 0xA1, 0x81, 0x80, 0x81, 0xA4, 0x81, 0x9A, 0x81, 0x80, 0x92, 0x81, 0x80,
        0x80, 0x80, 0x80, 0x7F, 0x7F, 0x80, // direction
        0x06, 0x80,
    ];
    assert_eq!(first, expected);

    // nothing waits any more: the second tick is an idle one
    let second = playerinfo.process(0).unwrap();
    assert_eq!(second, vec![0x00, 0x7F, 0xF4]);
    let idle = {
        let mut other = PlayerInfo::new();
        other.add_player(123).unwrap();
        other.process(0).unwrap()
    };
    assert_eq!(second, idle);
}

#[test]
fn failures_have_a_message() {
    assert_eq!(
        PlayerInfoError::CapacityExceeded.message(),
        "Maximum amount of players processable by PlayerInfo reached"
    );
    assert_eq!(
        PlayerInfoError::SkipOutOfRange.message(),
        "Skip count out of range error"
    );
    assert_eq!(
        PlayerInfoError::MissingRecord.message(),
        "Update record missing from the table"
    );
    assert_eq!(PlayerInfoError::Io.message(), "Buffer refused a write");
}
