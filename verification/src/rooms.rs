//! Voice-room allocation. For the night phase, participants are split into
//! isolated rooms drawn from the "night" category: rooms are ordered by
//! their display position, participants who wake take rooms from the front
//! of that order, participants who do not wake take rooms from the back,
//! and nobody shares. For the day phase everyone collapses into the one
//! "town" room.

use vstd::prelude::*;

use crate::night::{is_first_night, sorted_night_pairs, sorted_slot_pairs};
use crate::order::{
    lemma_permutation_membership, lemma_sorted_version_props, sort_pairs, sorted_version,
};
use crate::session::{all_slots_assigned, BloodGuild};
use crate::text::{contains_ci, lower_of, seq_contains_sub};

verus! {

/// What kind of channel the platform reports.
#[derive(Clone, Copy, PartialEq, Eq, Structural, Debug)]
pub enum ChannelKind {
    Voice,
    Category,
    Other,
}

/// One channel of the community, as the adapter hands it to the allocator:
/// its id, name, kind, the category it belongs to, and its display
/// position.
#[derive(Clone)]
pub struct ChannelInfo {
    pub id: u64,
    pub name: String,
    pub kind: ChannelKind,
    pub parent_id: Option<u64>,
    pub position: i64,
}

/// A category channel whose name names the night.
pub open spec fn is_night_category(c: ChannelInfo) -> bool {
    c.kind == ChannelKind::Category && seq_contains_sub(lower_of(c.name@), lower_of("night"@))
}

/// A voice channel whose name names the town.
pub open spec fn is_town_room(c: ChannelInfo) -> bool {
    c.kind == ChannelKind::Voice && seq_contains_sub(lower_of(c.name@), lower_of("town"@))
}

/// The first index at or after `i` satisfying the night-category test.
pub open spec fn first_night_category_from(chs: Seq<ChannelInfo>, i: int) -> Option<int>
    decreases chs.len() - i,
{
    if i < 0 || i >= chs.len() {
        None
    } else if is_night_category(chs[i]) {
        Some(i)
    } else {
        first_night_category_from(chs, i + 1)
    }
}

/// The first channel that is a night category, in the order given.
pub open spec fn spec_find_night_category(chs: Seq<ChannelInfo>) -> Option<int> {
    first_night_category_from(chs, 0)
}

/// The first index at or after `i` satisfying the town-room test.
pub open spec fn first_town_room_from(chs: Seq<ChannelInfo>, i: int) -> Option<int>
    decreases chs.len() - i,
{
    if i < 0 || i >= chs.len() {
        None
    } else if is_town_room(chs[i]) {
        Some(i)
    } else {
        first_town_room_from(chs, i + 1)
    }
}

/// The first channel that is a town room, in the order given.
pub open spec fn spec_find_town_room(chs: Seq<ChannelInfo>) -> Option<int> {
    first_town_room_from(chs, 0)
}

/// Finds the category of night rooms: the first category channel whose
/// lowercased name contains "night".
pub fn find_night_category(channels: &Vec<ChannelInfo>) -> (r: Option<u64>)
    ensures
        match spec_find_night_category(channels@) {
            Some(i) => r == Some(channels@[i].id),
            None => r is None,
        },
{
    let n = channels.len();
    let mut k: usize = 0;
    while k < n
        invariant
            k <= n,
            n == channels@.len(),
            spec_find_night_category(channels@) == first_night_category_from(
                channels@,
                k as int,
            ),
        decreases n - k,
    {
        let c = &channels[k];
        let is_cat = match c.kind {
            ChannelKind::Category => true,
            _ => false,
        };
        if is_cat && contains_ci(c.name.as_str(), "night") {
            return Some(c.id);
        }
        k = k + 1;
    }
    None
}

/// Finds the town room: the first voice channel whose lowercased name
/// contains "town".
pub fn find_town_room(channels: &Vec<ChannelInfo>) -> (r: Option<u64>)
    ensures
        match spec_find_town_room(channels@) {
            Some(i) => r == Some(channels@[i].id),
            None => r is None,
        },
{
    let n = channels.len();
    let mut k: usize = 0;
    while k < n
        invariant
            k <= n,
            n == channels@.len(),
            spec_find_town_room(channels@) == first_town_room_from(channels@, k as int),
        decreases n - k,
    {
        let c = &channels[k];
        let is_voice = match c.kind {
            ChannelKind::Voice => true,
            _ => false,
        };
        if is_voice && contains_ci(c.name.as_str(), "town") {
            return Some(c.id);
        }
        k = k + 1;
    }
    None
}

/// The voice channels of the night category, in the order given: their id
/// and display position.
pub open spec fn night_pool(chs: Seq<ChannelInfo>, category: u64) -> Seq<(u64, i64)>
    decreases chs.len(),
{
    if chs.len() == 0 {
        Seq::<(u64, i64)>::empty()
    } else {
        let tail = night_pool(chs.drop_first(), category);
        if chs[0].kind == ChannelKind::Voice && chs[0].parent_id == Some(category) {
            seq![(chs[0].id, chs[0].position)] + tail
        } else {
            tail
        }
    }
}

/// The pool keyed by display position, tagged with pool order for ties.
pub open spec fn pool_pairs(pool: Seq<(u64, i64)>) -> Seq<(i64, usize)> {
    Seq::new(pool.len(), |j: int| (pool[j].1, j as usize))
}

/// The night rooms in allocation order: the pool's ids sorted by display
/// position, ties in the order the channels were given.
pub open spec fn spec_night_rooms(chs: Seq<ChannelInfo>, category: u64) -> Seq<u64> {
    let pool = night_pool(chs, category);
    let sorted = sorted_version(pool_pairs(pool));
    Seq::new(sorted.len(), |k: int| pool[sorted[k].1 as int].0)
}

proof fn lemma_night_pool_skip(chs: Seq<ChannelInfo>, category: u64, p: int)
    requires
        0 <= p < chs.len(),
    ensures
        night_pool(chs.skip(p), category) == if chs[p].kind == ChannelKind::Voice
            && chs[p].parent_id == Some(category) {
            seq![(chs[p].id, chs[p].position)] + night_pool(chs.skip(p + 1), category)
        } else {
            night_pool(chs.skip(p + 1), category)
        },
{
    assert(chs.skip(p)[0] == chs[p]);
    assert(chs.skip(p).drop_first() =~= chs.skip(p + 1));
}

/// Collects the night rooms: the voice channels under the given category,
/// ordered by display position (ties keep the given order).
pub fn night_room_ids(channels: &Vec<ChannelInfo>, category_id: u64) -> (r: Vec<u64>)
    ensures
        r@ == spec_night_rooms(channels@, category_id),
{
    let n = channels.len();
    let ghost gpool = night_pool(channels@, category_id);
    let mut pool: Vec<(u64, i64)> = Vec::new();
    let mut p: usize = 0;
    proof {
        assert(channels@.skip(0) =~= channels@);
    }
    while p < n
        invariant
            p <= n,
            n == channels@.len(),
            gpool == night_pool(channels@, category_id),
            gpool == pool@ + night_pool(channels@.skip(p as int), category_id),
        decreases n - p,
    {
        let c = &channels[p];
        let is_voice = match c.kind {
            ChannelKind::Voice => true,
            _ => false,
        };
        let in_cat = match &c.parent_id {
            Some(pid) => *pid == category_id,
            None => false,
        };
        proof {
            lemma_night_pool_skip(channels@, category_id, p as int);
        }
        if is_voice && in_cat {
            pool.push((c.id, c.position));
            proof {
                assert(pool@ + night_pool(channels@.skip(p + 1), category_id) =~= gpool);
            }
        }
        p = p + 1;
    }
    proof {
        assert(channels@.skip(n as int) =~= Seq::<ChannelInfo>::empty());
        assert(pool@ =~= gpool);
    }
    let m = pool.len();
    let ghost gpairs = pool_pairs(gpool);
    let mut pairs: Vec<(i64, usize)> = Vec::new();
    let mut j: usize = 0;
    while j < m
        invariant
            j <= m,
            m == gpool.len(),
            pool@ == gpool,
            gpairs == pool_pairs(gpool),
            pairs@ == gpairs.take(j as int),
        decreases m - j,
    {
        pairs.push((pool[j].1, j));
        proof {
            assert(gpairs.take(j as int).push(gpairs[j as int]) =~= gpairs.take(j + 1));
        }
        j = j + 1;
    }
    proof {
        assert(gpairs.take(m as int) =~= gpairs);
    }
    let sorted = sort_pairs(&pairs);
    let ghost gsorted = sorted_version(gpairs);
    proof {
        lemma_sorted_version_props(gpairs);
        lemma_permutation_membership(gsorted, gpairs);
        assert forall|k: int| 0 <= k < gsorted.len() implies (#[trigger] gsorted[k]).1
            < gpool.len() by {
            assert(gpairs.contains(gsorted[k]));
            let i2 = choose|i2: int| 0 <= i2 < gpairs.len() && gpairs[i2] == gsorted[k];
            assert(gpairs[i2].1 == i2 as usize);
        }
    }
    let s = sorted.len();
    let mut r: Vec<u64> = Vec::new();
    let mut k: usize = 0;
    while k < s
        invariant
            k <= s,
            s == gsorted.len(),
            sorted@ == gsorted,
            pool@ == gpool,
            m == gpool.len(),
            forall|k2: int| 0 <= k2 < s ==> (#[trigger] gsorted[k2]).1 < m,
            r@.len() == k,
            forall|k2: int| 0 <= k2 < k ==> #[trigger] r@[k2] == gpool[gsorted[k2].1 as int].0,
        decreases s - k,
    {
        let t = sorted[k];
        r.push(pool[t.1].0);
        k = k + 1;
    }
    proof {
        assert(r@ =~= spec_night_rooms(channels@, category_id));
    }
    r
}

/// Why a room operation failed.
#[derive(Clone, Copy, PartialEq, Eq, Structural, Debug)]
pub enum RoomError {
    /// No category channel names the night.
    NoNightCategory,
    /// Fewer night rooms than participants; nobody is moved.
    NotEnoughRooms,
    /// No voice channel names the town.
    NoTownRoom,
    /// No participants to move.
    NoParticipants,
}

/// How many of the first `k` slots in night order wake this night.
pub open spec fn waking_before(sorted: Seq<(i64, usize)>, k: int) -> int
    decreases k,
{
    if k <= 0 {
        0
    } else {
        waking_before(sorted, k - 1) + if sorted[k - 1].0 != -1 {
            1int
        } else {
            0int
        }
    }
}

/// The room (as an index into the ordered room list) the `k`-th slot in
/// night order takes: waking slots count up from the front, sleeping slots
/// count down from the back.
pub open spec fn room_slot_for(sorted: Seq<(i64, usize)>, nrooms: int, k: int) -> int {
    if sorted[k].0 != -1 {
        waking_before(sorted, k)
    } else {
        nrooms - 1 - (k - waking_before(sorted, k))
    }
}

proof fn lemma_waking_before_bounds(sorted: Seq<(i64, usize)>, k: int)
    requires
        0 <= k,
    ensures
        0 <= waking_before(sorted, k) <= k,
    decreases k,
{
    if k > 0 {
        lemma_waking_before_bounds(sorted, k - 1);
    }
}

proof fn lemma_waking_before_mono(sorted: Seq<(i64, usize)>, k1: int, k2: int)
    requires
        0 <= k1 <= k2,
    ensures
        waking_before(sorted, k1) <= waking_before(sorted, k2),
        waking_before(sorted, k2) - waking_before(sorted, k1) <= k2 - k1,
    decreases k2 - k1,
{
    if k1 < k2 {
        lemma_waking_before_mono(sorted, k1, k2 - 1);
    }
}

/// With rooms for everyone, every slot's room index is in range and no two
/// slots take the same room.
pub proof fn lemma_room_slots_distinct(sorted: Seq<(i64, usize)>, nrooms: int)
    requires
        sorted.len() <= nrooms,
    ensures
        forall|k: int|
            0 <= k < sorted.len() ==> 0 <= #[trigger] room_slot_for(sorted, nrooms, k) < nrooms,
        forall|k1: int, k2: int|
            0 <= k1 < k2 < sorted.len() ==> #[trigger] room_slot_for(sorted, nrooms, k1)
                != #[trigger] room_slot_for(sorted, nrooms, k2),
{
    assert forall|k: int| 0 <= k < sorted.len() implies 0 <= #[trigger] room_slot_for(
        sorted,
        nrooms,
        k,
    ) < nrooms by {
        lemma_waking_before_bounds(sorted, k);
    }
    assert forall|k1: int, k2: int| 0 <= k1 < k2 < sorted.len() implies #[trigger] room_slot_for(
        sorted,
        nrooms,
        k1,
    ) != #[trigger] room_slot_for(sorted, nrooms, k2) by {
        lemma_waking_before_bounds(sorted, k1);
        lemma_waking_before_bounds(sorted, k2);
        lemma_waking_before_mono(sorted, k1 + 1, k2);
        assert(waking_before(sorted, k1 + 1) == waking_before(sorted, k1) + if sorted[k1].0 != -1 {
            1int
        } else {
            0int
        });
        assert(waking_before(sorted, k2 + 1) == waking_before(sorted, k2) + if sorted[k2].0 != -1 {
            1int
        } else {
            0int
        });
    }
}

/// With rooms for everyone and distinct rooms in the list, no two slots are
/// sent to the same room.
pub proof fn lemma_no_shared_rooms(sorted: Seq<(i64, usize)>, rooms: Seq<u64>)
    requires
        sorted.len() <= rooms.len(),
        forall|i: int, j: int| 0 <= i < j < rooms.len() ==> rooms[i] != rooms[j],
    ensures
        forall|k1: int, k2: int|
            0 <= k1 < k2 < sorted.len() ==> rooms[#[trigger] room_slot_for(
                sorted,
                rooms.len() as int,
                k1,
            )] != rooms[#[trigger] room_slot_for(sorted, rooms.len() as int, k2)],
{
    lemma_room_slots_distinct(sorted, rooms.len() as int);
}

/// Assigns each participant a night room, in night order: wakers from the
/// front of the room list, sleepers from the back, never sharing. Fails
/// before any assignment when the participants outnumber the rooms.
pub fn allocate_night_rooms(g: &BloodGuild, rooms: &Vec<u64>) -> (r: Result<
    Vec<(u64, u64)>,
    RoomError,
>)
    requires
        all_slots_assigned(g.roles@),
    ensures
        ({
            let sorted = sorted_night_pairs(g.roles@, is_first_night(*g));
            match r {
                Ok(moves) => {
                    &&& g.roles@.len() <= rooms@.len()
                    &&& moves@.len() == g.roles@.len()
                    &&& forall|k: int|
                        0 <= k < moves@.len() ==> (#[trigger] moves@[k]).0 == g.roles@[sorted[k].1 as int].user_id
                            && moves@[k].1 == rooms@[room_slot_for(
                            sorted,
                            rooms@.len() as int,
                            k,
                        )]
                },
                Err(e) => e == RoomError::NotEnoughRooms && g.roles@.len() > rooms@.len(),
            }
        }),
{
    if rooms.len() < g.roles.len() {
        return Err(RoomError::NotEnoughRooms);
    }
    let sorted = sorted_slot_pairs(g);
    let ghost gsorted = sorted_night_pairs(g.roles@, is_first_night(*g));
    let nrooms = rooms.len();
    let n = sorted.len();
    proof {
        lemma_room_slots_distinct(gsorted, nrooms as int);
    }
    let mut moves: Vec<(u64, u64)> = Vec::new();
    let mut w: usize = 0;
    let mut k: usize = 0;
    while k < n
        invariant
            k <= n,
            w <= k,
            n == gsorted.len(),
            n == g.roles@.len(),
            n <= nrooms,
            nrooms == rooms@.len(),
            sorted@ == gsorted,
            gsorted == sorted_night_pairs(g.roles@, is_first_night(*g)),
            forall|k2: int| 0 <= k2 < n ==> (#[trigger] gsorted[k2]).1 < n,
            forall|k2: int|
                0 <= k2 < n ==> 0 <= #[trigger] room_slot_for(gsorted, nrooms as int, k2) < nrooms,
            w == waking_before(gsorted, k as int),
            moves@.len() == k,
            forall|k2: int|
                0 <= k2 < k ==> (#[trigger] moves@[k2]).0 == g.roles@[gsorted[k2].1 as int].user_id
                    && moves@[k2].1 == rooms@[room_slot_for(gsorted, nrooms as int, k2)],
        decreases n - k,
    {
        let p = sorted[k];
        let idx: usize = if p.0 != -1 {
            w
        } else {
            nrooms - 1 - (k - w)
        };
        proof {
            assert(idx as int == room_slot_for(gsorted, nrooms as int, k as int));
        }
        moves.push((g.roles[p.1].user_id, rooms[idx]));
        if p.0 != -1 {
            w = w + 1;
        }
        proof {
            assert(waking_before(gsorted, k + 1) == waking_before(gsorted, k as int)
                + if gsorted[k as int].0 != -1 {
                1int
            } else {
                0int
            });
        }
        k = k + 1;
    }
    Ok(moves)
}

/// The whole night step for rooms: find the night category, collect and
/// order its voice rooms, and allocate. Each error names what was missing,
/// and no move is handed out on failure.
pub fn night_moves(g: &BloodGuild, channels: &Vec<ChannelInfo>) -> (r: Result<
    Vec<(u64, u64)>,
    RoomError,
>)
    requires
        all_slots_assigned(g.roles@),
    ensures
        ({
            match spec_find_night_category(channels@) {
                None => r == Err::<Vec<(u64, u64)>, RoomError>(RoomError::NoNightCategory),
                Some(ci) => {
                    let rooms = spec_night_rooms(channels@, channels@[ci].id);
                    let sorted = sorted_night_pairs(g.roles@, is_first_night(*g));
                    match r {
                        Ok(moves) => {
                            &&& g.roles@.len() <= rooms.len()
                            &&& moves@.len() == g.roles@.len()
                            &&& forall|k: int|
                                0 <= k < moves@.len() ==> (#[trigger] moves@[k]).0
                                    == g.roles@[sorted[k].1 as int].user_id && moves@[k].1
                                    == rooms[room_slot_for(sorted, rooms.len() as int, k)]
                        },
                        Err(e) => e == RoomError::NotEnoughRooms && g.roles@.len() > rooms.len(),
                    }
                },
            }
        }),
{
    let category_id = match find_night_category(channels) {
        Some(id) => id,
        None => {
            return Err(RoomError::NoNightCategory);
        },
    };
    let rooms = night_room_ids(channels, category_id);
    allocate_night_rooms(g, &rooms)
}

/// The day collapse: every participant is moved into the town room. Fails,
/// moving nobody, with no participants or no town room.
pub fn day_moves(g: &BloodGuild, channels: &Vec<ChannelInfo>) -> (r: Result<
    Vec<(u64, u64)>,
    RoomError,
>)
    ensures
        ({
            if g.roles@.len() == 0 {
                r == Err::<Vec<(u64, u64)>, RoomError>(RoomError::NoParticipants)
            } else {
                match spec_find_town_room(channels@) {
                    None => r == Err::<Vec<(u64, u64)>, RoomError>(RoomError::NoTownRoom),
                    Some(ti) => match r {
                        Ok(moves) => moves@.len() == g.roles@.len() && forall|k: int|
                            0 <= k < moves@.len() ==> (#[trigger] moves@[k]) == (
                            g.roles@[k].user_id,
                            channels@[ti].id,
                        ),
                        Err(e) => false,
                    },
                }
            }
        }),
{
    if g.roles.len() == 0 {
        return Err(RoomError::NoParticipants);
    }
    let town_id = match find_town_room(channels) {
        Some(id) => id,
        None => {
            return Err(RoomError::NoTownRoom);
        },
    };
    let n = g.roles.len();
    let mut moves: Vec<(u64, u64)> = Vec::new();
    let mut k: usize = 0;
    while k < n
        invariant
            k <= n,
            n == g.roles@.len(),
            moves@.len() == k,
            forall|k2: int|
                0 <= k2 < k ==> (#[trigger] moves@[k2]) == (g.roles@[k2].user_id, town_id),
        decreases n - k,
    {
        moves.push((g.roles[k].user_id, town_id));
        k = k + 1;
    }
    Ok(moves)
}

} // verus!
