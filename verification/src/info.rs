//! The registry of viewers and the entry point of a tick.

use crate::error::PlayerInfoError;
use crate::model::{settled, tick_result, tick_table};
use crate::record::{add_update_record, table_wf, PlayerInfoData, PlayerInfoEntry, Record};
use crate::world::{World, WorldView};
use crate::MAX_PLAYERS;
use vstd::prelude::*;

verus! {

/// The tables of all registered viewers, by the viewer's index. A viewer's
/// index is handed out at registration and free again after removal.
pub struct PlayerInfo {
    pub(crate) players: Vec<Option<PlayerInfoEntry>>,
}

impl View for PlayerInfo {
    type V = Seq<Option<Seq<Record>>>;

    open(crate) spec fn view(&self) -> Seq<Option<Seq<Record>>> {
        Seq::new(
            self.players@.len(),
            |i: int|
                match self.players@[i] {
                    Some(entry) => Some(entry@),
                    None => None,
                },
        )
    }
}

/// The lowest index from `from` on that no viewer holds; the length of the
/// registry if there is none.
pub open spec fn lowest_free(players: Seq<Option<Seq<Record>>>, from: int) -> int
    decreases players.len() - from,
{
    if from < 0 || from >= players.len() {
        players.len() as int
    } else if players[from] is None {
        from
    } else {
        lowest_free(players, from + 1)
    }
}

/// The number of viewers in a registry.
pub open spec fn viewer_count(players: Seq<Option<Seq<Record>>>) -> nat
    decreases players.len(),
{
    if players.len() == 0 {
        0
    } else {
        viewer_count(players.drop_last()) + if players.last() is Some {
            1nat
        } else {
            0nat
        }
    }
}

/// The table of a viewer that has just registered at `coordinates`: the
/// viewer's own record tracked and at that coordinate, every other record
/// untracked and at 0.
pub open spec fn fresh_table(vid: int, coordinates: i32) -> Seq<Record> {
    Seq::new(
        MAX_PLAYERS as nat,
        |i: int|
            if i == vid {
                Record::fresh(true, coordinates)
            } else {
                Record::fresh(false, 0)
            },
    )
}

/// The registry after one more viewer has registered at `coordinates`: it
/// holds the lowest free index, with a fresh table. A full registry stays
/// as it is.
pub open spec fn registered_at(
    players: Seq<Option<Seq<Record>>>,
    coordinates: i32,
) -> Seq<Option<Seq<Record>>> {
    let vid = lowest_free(players, 0);
    if vid < MAX_PLAYERS {
        players.update(vid, Some(fresh_table(vid, coordinates)))
    } else {
        players
    }
}

/// The registry after viewers have registered, from an empty registry on,
/// at each of `coordinates` in turn.
pub open spec fn registrations(coordinates: Seq<i32>) -> Seq<Option<Seq<Record>>>
    decreases coordinates.len(),
{
    if coordinates.len() == 0 {
        Seq::new(MAX_PLAYERS as nat, |i: int| None)
    } else {
        registered_at(registrations(coordinates.drop_last()), coordinates.last())
    }
}

/// A registry counts as many viewers as it has indices exactly when every
/// index is held.
pub proof fn lemma_viewer_count_full(players: Seq<Option<Seq<Record>>>)
    ensures
        viewer_count(players) <= players.len(),
        viewer_count(players) == players.len() <==> forall|i: int|
            0 <= i < players.len() ==> (#[trigger] players[i]) is Some,
    decreases players.len(),
{
    if players.len() > 0 {
        let front = players.drop_last();
        lemma_viewer_count_full(front);
        if viewer_count(players) == players.len() {
            assert forall|i: int| 0 <= i < players.len() implies (#[trigger] players[i])
                is Some by {
                if i < front.len() {
                    assert(front[i] is Some);
                }
            }
        }
        if forall|i: int| 0 <= i < players.len() ==> (#[trigger] players[i]) is Some {
            assert forall|i: int| 0 <= i < front.len() implies (#[trigger] front[i]) is Some by {
                assert(players[i] is Some);
            }
        }
    }
}

/// From `from` on no index is free exactly when every index from `from` on
/// is held.
pub proof fn lemma_lowest_free_none(players: Seq<Option<Seq<Record>>>, from: int)
    requires
        0 <= from <= players.len(),
    ensures
        from <= lowest_free(players, from) <= players.len(),
        lowest_free(players, from) == players.len() <==> forall|i: int|
            from <= i < players.len() ==> (#[trigger] players[i]) is Some,
    decreases players.len() - from,
{
    if from < players.len() {
        lemma_lowest_free_none(players, from + 1);
    }
}

/// A registry has a free index exactly when it holds fewer viewers than it
/// has indices.
pub proof fn lemma_free_index_iff_room(players: Seq<Option<Seq<Record>>>)
    ensures
        lowest_free(players, 0) < players.len() <==> viewer_count(players) < players.len(),
{
    lemma_viewer_count_full(players);
    lemma_lowest_free_none(players, 0);
}

/// In a registry whose first `taken` indices are held and whose others are
/// free, the lowest free index is `taken`.
pub proof fn lemma_lowest_free_of_prefix(players: Seq<Option<Seq<Record>>>, taken: int, from: int)
    requires
        0 <= from <= taken <= players.len(),
        forall|i: int| 0 <= i < taken ==> (#[trigger] players[i]) is Some,
        forall|i: int| taken <= i < players.len() ==> (#[trigger] players[i]) is None,
    ensures
        lowest_free(players, from) == taken,
    decreases taken - from,
{
    if from < taken {
        lemma_lowest_free_of_prefix(players, taken, from + 1);
    }
}

/// A registry that starts empty takes `MAX_PLAYERS` viewers and no more:
/// the viewers that register get the indices 0, 1, 2 and so on, so after
/// `n` registrations the next index is `n`, and once `n` is `MAX_PLAYERS`
/// the next registration leaves it unchanged.
pub proof fn lemma_registry_capacity(coordinates: Seq<i32>, next: i32)
    requires
        coordinates.len() <= MAX_PLAYERS,
    ensures
        registry_wf(registrations(coordinates)),
        lowest_free(registrations(coordinates), 0) == coordinates.len(),
        forall|i: int|
            0 <= i < coordinates.len() ==> (#[trigger] registrations(coordinates)[i]) is Some,
        forall|i: int|
            coordinates.len() <= i < MAX_PLAYERS ==> (#[trigger] registrations(coordinates)[i])
                is None,
        coordinates.len() == MAX_PLAYERS ==> registered_at(registrations(coordinates), next)
            == registrations(coordinates),
    decreases coordinates.len(),
{
    let now = registrations(coordinates);
    if coordinates.len() > 0 {
        let before = registrations(coordinates.drop_last());
        lemma_registry_capacity(coordinates.drop_last(), coordinates.last());
        let vid = coordinates.len() - 1;
        assert(now == before.update(vid, Some(fresh_table(vid, coordinates.last()))));
        assert(table_wf(fresh_table(vid, coordinates.last())));
    }
    lemma_lowest_free_of_prefix(now, coordinates.len() as int, 0);
}

/// Whether every table of a registry is well formed.
pub open spec fn registry_wf(players: Seq<Option<Seq<Record>>>) -> bool {
    &&& players.len() == MAX_PLAYERS
    &&& forall|vid: int|
        0 <= vid < players.len() && (#[trigger] players[vid]) is Some ==> table_wf(
            players[vid]->0,
        )
}

impl PlayerInfo {
    /// The registry has a slot for each of `MAX_PLAYERS` viewers, and the
    /// records of every table are well formed.
    pub open spec fn wf(&self) -> bool {
        registry_wf(self@)
    }

    /// Whether a viewer with this index is registered.
    pub open spec fn registered(&self, vid: int) -> bool {
        0 <= vid < self@.len() && self@[vid] is Some
    }

    /// A registry without viewers.
    pub fn new() -> (info: PlayerInfo)
        ensures
            info.wf(),
            info@ == registrations(Seq::empty()),
    {
        let mut players: Vec<Option<PlayerInfoEntry>> = Vec::new();
        let mut i: usize = 0;
        while i < MAX_PLAYERS
            invariant
                i <= MAX_PLAYERS,
                players@.len() == i,
                forall|j: int| 0 <= j < i ==> players@[j] is None,
            decreases MAX_PLAYERS - i,
        {
            players.push(None);
            i += 1;
        }
        let info = PlayerInfo { players };
        assert(info@ =~= registrations(Seq::empty()));
        info
    }

    /// The number of registered viewers.
    pub fn len(&self) -> (n: usize)
        ensures
            n == viewer_count(self@),
    {
        let mut n: usize = 0;
        let mut i: usize = 0;
        while i < self.players.len()
            invariant
                i <= self.players.len(),
                n <= i,
                n == viewer_count(self@.take(i as int)),
            decreases self.players.len() - i,
        {
            assert(self@.take(i + 1).drop_last() =~= self@.take(i as int));
            if self.players[i].is_some() {
                n += 1;
            }
            i += 1;
        }
        assert(self@.take(i as int) =~= self@);
        n
    }

    /// The index that the next viewer to register gets: the lowest that is
    /// free, or `MAX_PLAYERS` if none is.
    pub fn vacant_key(&self) -> (vid: usize)
        requires
            self.wf(),
        ensures
            vid == lowest_free(self@, 0),
            vid <= MAX_PLAYERS,
    {
        let mut i: usize = 0;
        while i < self.players.len() && self.players[i].is_some()
            invariant
                i <= self.players.len(),
                lowest_free(self@, i as int) == lowest_free(self@, 0),
            decreases self.players.len() - i,
        {
            i += 1;
        }
        i
    }

    /// Registers a viewer that stands at `coordinates` and returns its
    /// index, the lowest free one. Fails when all `MAX_PLAYERS` indices are
    /// taken.
    pub fn add_player(&mut self, coordinates: i32) -> (r: Result<usize, PlayerInfoError>)
        requires
            old(self).wf(),
        ensures
            final(self).wf(),
            final(self)@ == registered_at(old(self)@, coordinates),
            r == if lowest_free(old(self)@, 0) < MAX_PLAYERS {
                Ok::<usize, PlayerInfoError>(lowest_free(old(self)@, 0) as usize)
            } else {
                Err::<usize, PlayerInfoError>(PlayerInfoError::CapacityExceeded)
            },
            r is Ok <==> viewer_count(old(self)@) < MAX_PLAYERS,
    {
        proof {
            lemma_free_index_iff_room(self@);
        }
        let playerinfo_id: usize = self.vacant_key();
        if playerinfo_id >= MAX_PLAYERS {
            return Err(PlayerInfoError::CapacityExceeded);
        }
        let mut playerinfoentry = PlayerInfoEntry::new();

        let mut playerinfo: usize = 0;
        while playerinfo < MAX_PLAYERS
            invariant
                playerinfo <= MAX_PLAYERS,
                playerinfo_id < MAX_PLAYERS,
                playerinfoentry@ == fresh_table(playerinfo_id as int, coordinates).take(
                    playerinfo as int,
                ),
            decreases MAX_PLAYERS - playerinfo,
        {
            if playerinfo_id == playerinfo {
                let _ = add_update_record(&mut playerinfoentry, true, coordinates);
            } else {
                let _ = add_update_record(&mut playerinfoentry, false, 0);
            }
            assert(playerinfoentry@ =~= fresh_table(playerinfo_id as int, coordinates).take(
                playerinfo + 1,
            ));
            playerinfo += 1;
        }
        assert(playerinfoentry@ =~= fresh_table(playerinfo_id as int, coordinates));

        self.players[playerinfo_id] = Some(playerinfoentry);
        assert(self@ =~= old(self)@.update(
            playerinfo_id as int,
            Some(fresh_table(playerinfo_id as int, coordinates)),
        ));

        Ok(playerinfo_id)
    }

    /// The table of a viewer, if it is registered.
    pub fn get_player(&mut self, key: usize) -> (r: Option<&PlayerInfoEntry>)
        ensures
            final(self)@ == old(self)@,
            match r {
                Some(entry) => old(self).registered(key as int) && Some(entry@) == old(
                    self,
                )@[key as int],
                None => !old(self).registered(key as int),
            },
    {
        if key < self.players.len() {
            self.players[key].as_ref()
        } else {
            None
        }
    }

    /// The table of a viewer, to be changed, if the viewer is registered.
    pub fn get_player_mut(&mut self, key: usize) -> (r: Option<&mut PlayerInfoEntry>)
        ensures
            match r {
                Some(entry) => old(self).registered(key as int) && Some(entry@) == old(
                    self,
                )@[key as int] && final(self)@ == old(self)@.update(
                    key as int,
                    Some(final(entry)@),
                ),
                None => !old(self).registered(key as int) && final(self)@ == old(self)@,
            },
    {
        if key < self.players.len() {
            self.players[key].as_mut()
        } else {
            None
        }
    }

    /// The record that a viewer holds of a target, if there is one.
    pub fn record(&self, vid: usize, target: usize) -> (r: Option<&PlayerInfoData>)
        ensures
            match r {
                Some(r) => self.registered(vid as int) && target < (self@[vid as int]->0).len()
                    && r@ == (self@[vid as int]->0)[target as int],
                None => !self.registered(vid as int) || target >= (self@[vid as int]->0).len(),
            },
    {
        if vid < self.players.len() {
            match &self.players[vid] {
                Some(entry) => entry.record(target),
                None => None,
            }
        } else {
            None
        }
    }

    /// The record that a viewer holds of a target, to be changed: this is
    /// where the world leaves masks, steps, displacement and removal.
    pub fn record_mut(&mut self, vid: usize, target: usize) -> (r: Option<&mut PlayerInfoData>)
        ensures
            match r {
                Some(r) => {
                    let table = old(self)@[vid as int]->0;
                    &&& old(self).registered(vid as int)
                    &&& target < table.len()
                    &&& r@ == table[target as int]
                    &&& final(self)@ == old(self)@.update(
                        vid as int,
                        Some(table.update(target as int, final(r)@)),
                    )
                },
                None => (!old(self).registered(vid as int) || target >= (old(
                    self,
                )@[vid as int]->0).len()) && final(self)@ == old(self)@,
            },
    {
        match self.get_player_mut(vid) {
            Some(entry) => entry.record_mut(target),
            None => None,
        }
    }

    /// Runs one tick for a viewer in a world that reports what `world`
    /// holds, and returns the bytes for its client: the bit stream, then
    /// the mask bytes. For a viewer that is not registered the bytes are
    /// empty and nothing changes.
    pub fn process_in_world(&mut self, player_id: usize, world: &WorldView) -> (r: Result<
        Vec<u8>,
        PlayerInfoError,
    >)
        requires
            old(self).wf(),
        ensures
            final(self).wf(),
            !old(self).registered(player_id as int) ==> r is Ok && r->Ok_0@ == Seq::<u8>::empty()
                && final(self)@ == old(self)@,
            old(self).registered(player_id as int) ==> {
                let table = old(self)@[player_id as int]->0;
                &&& final(self)@ == old(self)@.update(
                    player_id as int,
                    Some(tick_table(table, world@)),
                )
                &&& match tick_result(table, world@) {
                    Ok(bytes) => r is Ok && r->Ok_0@ == bytes,
                    Err(e) => r == Err::<Vec<u8>, PlayerInfoError>(e),
                }
                &&& r is Ok ==> settled(table, final(self)@[player_id as int]->0)
            },
    {
        match self.get_player_mut(player_id) {
            Some(entry) => entry.tick(world),
            None => Ok(Vec::new()),
        }
    }

    /// Runs one tick for a viewer in a world that reports nothing: no
    /// target is in view and every target stands at coordinate 0.
    pub fn process(&mut self, player_id: usize) -> (r: Result<Vec<u8>, PlayerInfoError>)
        requires
            old(self).wf(),
        ensures
            final(self).wf(),
            !old(self).registered(player_id as int) ==> r is Ok && r->Ok_0@ == Seq::<u8>::empty()
                && final(self)@ == old(self)@,
            old(self).registered(player_id as int) ==> {
                let table = old(self)@[player_id as int]->0;
                &&& final(self)@ == old(self)@.update(
                    player_id as int,
                    Some(tick_table(table, World::quiet())),
                )
                &&& match tick_result(table, World::quiet()) {
                    Ok(bytes) => r is Ok && r->Ok_0@ == bytes,
                    Err(e) => r == Err::<Vec<u8>, PlayerInfoError>(e),
                }
                &&& r is Ok ==> settled(table, final(self)@[player_id as int]->0)
            },
    {
        let world = WorldView::new();
        self.process_in_world(player_id, &world)
    }

    /// Removes a viewer and its table, and frees its index. Nothing happens
    /// where no such viewer is registered.
    pub fn remove_player(&mut self, key: usize) -> (r: Result<(), PlayerInfoError>)
        requires
            old(self).wf(),
        ensures
            final(self).wf(),
            r == Ok::<(), PlayerInfoError>(()),
            final(self)@ == if key < MAX_PLAYERS {
                old(self)@.update(key as int, None)
            } else {
                old(self)@
            },
    {
        if key < self.players.len() {
            self.players[key] = None;
            assert(self@ =~= old(self)@.update(key as int, None));
        }
        Ok(())
    }
}

} // verus!
