//! The update records of one viewer: what is known of each target and what
//! is waiting to be sent.

use crate::error::PlayerInfoError;
use crate::mask::PlayerMask;
use vstd::prelude::*;

verus! {

/// What a viewer's table holds about one target.
pub struct PlayerInfoData {
    /// Bit 0: the update group of this tick. Bit 1: the group of the next
    /// tick. Only the encoder writes them.
    pub(crate) flags: i32,
    /// Whether the viewer's client tracks the target.
    pub local: bool,
    /// The coordinate last reported to the client.
    pub coordinates: i32,
    /// Whether the record is wiped when the tick ends.
    pub reset: bool,
    /// Set by the world when the client must stop tracking the target.
    pub remove_the_local_player: bool,
    /// The masks waiting to be sent.
    pub masks: Vec<PlayerMask>,
    /// The codes, 0 to 7, of the steps taken this tick. Any other number
    /// counts as a step that leads nowhere.
    pub movement_steps: Vec<i32>,
    /// Whether the target moved other than by steps.
    pub displaced: bool,
}

/// A record as a value: the fields of `PlayerInfoData`, its lists as
/// sequences.
pub ghost struct Record {
    pub flags: i32,
    pub local: bool,
    pub coordinates: i32,
    pub reset: bool,
    pub remove: bool,
    pub masks: Seq<PlayerMask>,
    pub steps: Seq<i32>,
    pub displaced: bool,
}

impl View for PlayerInfoData {
    type V = Record;

    open(crate) spec fn view(&self) -> Record {
        Record {
            flags: self.flags,
            local: self.local,
            coordinates: self.coordinates,
            reset: self.reset,
            remove: self.remove_the_local_player,
            masks: self.masks@,
            steps: self.movement_steps@,
            displaced: self.displaced,
        }
    }
}

impl Record {
    /// The record of a target of which nothing is waiting: in the active
    /// group, tracked or not, at the given coordinate.
    pub open spec fn fresh(local: bool, coordinates: i32) -> Record {
        Record {
            flags: 0,
            local,
            coordinates,
            reset: false,
            remove: false,
            masks: Seq::empty(),
            steps: Seq::empty(),
            displaced: false,
        }
    }

    /// The flags hold the group of this tick in bit 0 and that of the next
    /// in bit 1, and nothing else.
    pub open spec fn wf(self) -> bool {
        0 <= self.flags <= 3
    }
}

impl PlayerInfoData {
    /// Bit 0: the update group of this tick. Bit 1: set once the record is
    /// put into the idle group of the next tick.
    pub fn flags(&self) -> (flags: i32)
        ensures
            flags == self@.flags,
    {
        self.flags
    }
}

/// The table of one viewer: a record for each target, by the target's index.
pub struct PlayerInfoEntry {
    pub(crate) playerinfodata: Vec<PlayerInfoData>,
}

impl View for PlayerInfoEntry {
    type V = Seq<Record>;

    open(crate) spec fn view(&self) -> Seq<Record> {
        Seq::new(self.playerinfodata@.len(), |i: int| self.playerinfodata@[i]@)
    }
}

/// Every record of a table is well formed.
pub open spec fn table_wf(records: Seq<Record>) -> bool {
    forall|i: int| 0 <= i < records.len() ==> (#[trigger] records[i]).wf()
}

impl PlayerInfoEntry {
    /// A table without records.
    pub fn new() -> (entry: PlayerInfoEntry)
        ensures
            entry@ == Seq::<Record>::empty(),
    {
        let entry = PlayerInfoEntry { playerinfodata: Vec::new() };
        assert(entry@ =~= Seq::<Record>::empty());
        entry
    }

    /// The number of records.
    pub fn len(&self) -> (n: usize)
        ensures
            n == self@.len(),
    {
        self.playerinfodata.len()
    }

    /// The record of a target, if the table has one.
    pub fn record(&self, target: usize) -> (r: Option<&PlayerInfoData>)
        ensures
            match r {
                Some(r) => target < self@.len() && r@ == self@[target as int],
                None => target >= self@.len(),
            },
    {
        if target < self.playerinfodata.len() {
            Some(&self.playerinfodata[target])
        } else {
            None
        }
    }

    /// The record of a target, to be changed.
    pub fn record_mut(&mut self, target: usize) -> (r: Option<&mut PlayerInfoData>)
        ensures
            match r {
                Some(r) => target < old(self)@.len() && r@ == old(self)@[target as int]
                    && final(self)@ == old(self)@.update(target as int, final(r)@),
                None => target >= old(self)@.len() && final(self)@ == old(self)@,
            },
    {
        if target < self.playerinfodata.len() {
            Some(&mut self.playerinfodata[target])
        } else {
            None
        }
    }
}

/// Appends to a table the record of a target that is tracked or not, at the
/// given coordinate, with nothing waiting.
pub fn add_update_record(
    playerinfo: &mut PlayerInfoEntry,
    local: bool,
    coordinates: i32,
) -> (r: Result<(), PlayerInfoError>)
    ensures
        r == Ok::<(), PlayerInfoError>(()),
        final(playerinfo)@ == old(playerinfo)@.push(Record::fresh(local, coordinates)),
{
    playerinfo.playerinfodata.push(
        PlayerInfoData {
            flags: 0,
            local,
            coordinates,
            reset: false,
            remove_the_local_player: false,
            masks: Vec::new(),
            movement_steps: Vec::new(),
            displaced: false,
        },
    );
    assert(playerinfo@ =~= old(playerinfo)@.push(Record::fresh(local, coordinates)));
    Ok(())
}

} // verus!
