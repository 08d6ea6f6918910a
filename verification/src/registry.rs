//! The process-wide registry: every active session keyed by its community
//! id, and the role catalogs loaded at startup. The adapter owns one value
//! of this and serializes access to it; the registry itself is plain
//! read-modify-write.

use std::collections::HashMap;

use vstd::prelude::*;

use crate::games::GameType;
use crate::session::BloodGuild;

verus! {

broadcast use vstd::std_specs::hash::group_hash_axioms;

/// All global state: the sessions by community id, and the loaded catalogs.
#[derive(Clone)]
pub struct GlobalBloodState {
    blood_guilds: HashMap<u64, BloodGuild>,
    games: Vec<GameType>,
}

impl GlobalBloodState {
    /// The sessions, as a map from community id to session.
    pub closed spec fn spec_guilds(&self) -> Map<u64, BloodGuild> {
        self.blood_guilds@
    }

    /// The loaded catalogs, in load order.
    pub closed spec fn spec_games(&self) -> Seq<GameType> {
        self.games@
    }

    /// Creates the empty registry: no sessions, no catalogs.
    pub fn new() -> (r: Self)
        ensures
            r.spec_guilds() == Map::<u64, BloodGuild>::empty(),
            r.spec_games() == Seq::<GameType>::empty(),
    {
        GlobalBloodState { blood_guilds: HashMap::new(), games: Vec::new() }
    }

    /// The session of this community, if one is active.
    pub fn get(&self, guild_id: u64) -> (r: Option<&BloodGuild>)
        ensures
            match r {
                Some(g) => {
                    &&& self.spec_guilds().contains_key(guild_id)
                    &&& *g == self.spec_guilds()[guild_id]
                },
                None => !self.spec_guilds().contains_key(guild_id),
            },
    {
        self.blood_guilds.get(&guild_id)
    }

    /// Whether this community has an active session.
    pub fn contains(&self, guild_id: u64) -> (r: bool)
        ensures
            r == self.spec_guilds().contains_key(guild_id),
    {
        self.blood_guilds.contains_key(&guild_id)
    }

    /// Writes a session back, keyed by its own community id; an existing
    /// session of that community is replaced.
    pub fn upsert(&mut self, session: BloodGuild)
        ensures
            final(self).spec_guilds() == old(self).spec_guilds().insert(session.id, session),
            final(self).spec_games() == old(self).spec_games(),
    {
        let id = session.id;
        self.blood_guilds.insert(id, session);
    }

    /// Removes this community's session, if any; how many sessions remain
    /// is returned.
    pub fn remove(&mut self, guild_id: u64) -> (n: usize)
        ensures
            final(self).spec_guilds() == old(self).spec_guilds().remove(guild_id),
            final(self).spec_games() == old(self).spec_games(),
            n == final(self).spec_guilds().len(),
    {
        self.blood_guilds.remove(&guild_id);
        self.blood_guilds.len()
    }

    /// How many sessions are active.
    pub fn session_count(&self) -> (n: usize)
        ensures
            n == self.spec_guilds().len(),
    {
        self.blood_guilds.len()
    }

    /// Adds a catalog at the end of the list.
    pub fn add_game(&mut self, game: GameType)
        ensures
            final(self).spec_games() == old(self).spec_games().push(game),
            final(self).spec_guilds() == old(self).spec_guilds(),
    {
        self.games.push(game);
    }

    /// How many catalogs are loaded.
    pub fn game_count(&self) -> (n: usize)
        ensures
            n == self.spec_games().len(),
    {
        self.games.len()
    }

    /// The catalog at this position of the list.
    pub fn game_at(&self, idx: usize) -> (r: &GameType)
        requires
            idx < self.spec_games().len(),
        ensures
            *r == self.spec_games()[idx as int],
    {
        &self.games[idx]
    }
}

} // verus!
