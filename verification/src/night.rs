//! The night wake order: which participants wake, numbered in the order the
//! storyteller reads aloud. On the first night (day counter one) the order
//! goes by the roles' first-night positions, on every later night by their
//! regular positions; a position of -1 keeps the participant out of the
//! list entirely.

use vstd::prelude::*;

use crate::games::{ActionTime, Character};
use crate::order::{
    lemma_permutation_membership, lemma_sorted_version_props, pair_le, pairs_sorted, sort_pairs,
    sorted_version,
};
use crate::session::{all_slots_assigned, display_of, BloodGuild, ParticipantSlot};

verus! {

/// The wake position the given night goes by.
pub open spec fn wake_key(c: Character, first: bool) -> i64 {
    if first {
        c.first_order_index as i64
    } else {
        c.order_index as i64
    }
}

/// A session's first night is the one the day counter enters at one.
pub open spec fn is_first_night(g: BloodGuild) -> bool {
    g.day_index == 1
}

/// Each slot keyed by its wake position, tagged with its slot index.
pub open spec fn night_pairs(slots: Seq<ParticipantSlot>, first: bool) -> Seq<(i64, usize)> {
    Seq::new(slots.len(), |i: int| (wake_key(slots[i].role->0, first), i as usize))
}

/// The slots in night order: ascending wake position, ties in slot order.
pub open spec fn sorted_night_pairs(slots: Seq<ParticipantSlot>, first: bool) -> Seq<
    (i64, usize),
> {
    sorted_version(night_pairs(slots, first))
}

/// Of the first `k` sorted pairs, those that wake (position not -1), in
/// order.
pub open spec fn kept_from(sorted: Seq<(i64, usize)>, k: int) -> Seq<(i64, usize)>
    decreases k,
{
    if k <= 0 {
        Seq::<(i64, usize)>::empty()
    } else {
        let pre = kept_from(sorted, k - 1);
        if sorted[k - 1].0 != -1 {
            pre.push(sorted[k - 1])
        } else {
            pre
        }
    }
}

/// The waking slots in night order: the visible wake list.
pub open spec fn kept_pairs(slots: Seq<ParticipantSlot>, first: bool) -> Seq<(i64, usize)> {
    let sorted = sorted_night_pairs(slots, first);
    kept_from(sorted, sorted.len() as int)
}

/// Wake frequencies that are only advisory on a regular night: the
/// storyteller cannot know whether they actually trigger.
pub open spec fn wakes_conditionally(t: ActionTime) -> bool {
    t == ActionTime::OnlyFirstNight || t == ActionTime::VariableNight || t
        == ActionTime::DeathNight
}

/// One line of the announced night order.
pub struct OrderEntry {
    pub position: u32,
    pub user_id: u64,
    pub display_name: String,
    pub role_name: String,
    pub conditional: bool,
}

/// The entry correctly renders slot `idx` at list position `pos`.
pub open spec fn entry_matches(
    slots: Seq<ParticipantSlot>,
    first: bool,
    idx: int,
    pos: int,
    e: OrderEntry,
) -> bool {
    let s = slots[idx];
    let c = s.role->0;
    &&& e.position == pos
    &&& e.user_id == s.user_id
    &&& e.display_name@ == display_of(s)
    &&& e.role_name@ == c.name@
    &&& e.conditional == (!first && wakes_conditionally(c.night_action))
}

/// What `kept_from` keeps: only waking pairs, each an element of the first
/// `k` sorted pairs, every waking pair among them, still sorted.
proof fn lemma_kept_from_props(sorted: Seq<(i64, usize)>, k: int)
    requires
        0 <= k <= sorted.len(),
        pairs_sorted(sorted),
    ensures
        ({
            let kept = kept_from(sorted, k);
            &&& kept.len() <= k
            &&& forall|m: int| 0 <= m < kept.len() ==> (#[trigger] kept[m]).0 != -1
            &&& forall|m: int|
                0 <= m < kept.len() ==> exists|i: int| 0 <= i < k && sorted[i] == #[trigger] kept[m]
            &&& forall|i: int|
                0 <= i < k && (#[trigger] sorted[i]).0 != -1 ==> kept.contains(sorted[i])
            &&& pairs_sorted(kept)
        }),
    decreases k,
{
    if k > 0 {
        lemma_kept_from_props(sorted, k - 1);
        let pre = kept_from(sorted, k - 1);
        let kept = kept_from(sorted, k);
        if sorted[k - 1].0 != -1 {
            assert(kept == pre.push(sorted[k - 1]));
            assert forall|m: int| 0 <= m < kept.len() implies exists|i: int|
                0 <= i < k && sorted[i] == #[trigger] kept[m] by {
                if m < pre.len() {
                    assert(kept[m] == pre[m]);
                } else {
                    assert(kept[m] == sorted[k - 1]);
                }
            }
            assert forall|i: int|
                0 <= i < k && (#[trigger] sorted[i]).0 != -1 implies kept.contains(sorted[i]) by {
                if i < k - 1 {
                    assert(pre.contains(sorted[i]));
                    let m = choose|m: int| 0 <= m < pre.len() && pre[m] == sorted[i];
                    assert(kept[m] == sorted[i]);
                } else {
                    assert(kept[kept.len() - 1] == sorted[i]);
                }
            }
            assert(pairs_sorted(kept)) by {
                assert forall|m1: int, m2: int| 0 <= m1 < m2 < kept.len() implies #[trigger]
                    pair_le(kept[m1], kept[m2]) by {
                    if m2 < pre.len() {
                        assert(pair_le(pre[m1], pre[m2]));
                    } else {
                        let i = choose|i: int| 0 <= i < k - 1 && sorted[i] == pre[m1];
                        assert(pair_le(sorted[i], sorted[k - 1]));
                    }
                }
            }
        } else {
            assert(kept == pre);
            assert forall|i: int|
                0 <= i < k && (#[trigger] sorted[i]).0 != -1 implies kept.contains(sorted[i]) by {
                assert(i < k - 1);
            }
        }
    }
}

/// The session's slots in night order: each slot's wake key paired with its
/// slot index, sorted ascending, ties in slot order.
pub fn sorted_slot_pairs(g: &BloodGuild) -> (r: Vec<(i64, usize)>)
    requires
        all_slots_assigned(g.roles@),
    ensures
        r@ == sorted_night_pairs(g.roles@, is_first_night(*g)),
        r@.len() == g.roles@.len(),
        forall|k: int| 0 <= k < r@.len() ==> (#[trigger] r@[k]).1 < g.roles@.len(),
{
    let first = g.day_index == 1;
    let n = g.roles.len();
    let ghost gpairs = night_pairs(g.roles@, first);
    let mut pairs: Vec<(i64, usize)> = Vec::new();
    let mut i: usize = 0;
    while i < n
        invariant
            i <= n,
            n == g.roles@.len(),
            all_slots_assigned(g.roles@),
            first == is_first_night(*g),
            gpairs == night_pairs(g.roles@, first),
            pairs@ == gpairs.take(i as int),
        decreases n - i,
    {
        let key: i64 = match &g.roles[i].role {
            Some(c) => if first {
                c.first_order_index as i64
            } else {
                c.order_index as i64
            },
            None => unreached(),
        };
        pairs.push((key, i));
        proof {
            assert(gpairs.take(i as int).push(gpairs[i as int]) =~= gpairs.take(i + 1));
        }
        i = i + 1;
    }
    proof {
        assert(gpairs.take(n as int) =~= gpairs);
    }
    let sorted = sort_pairs(&pairs);
    let ghost gsorted = sorted_night_pairs(g.roles@, first);
    proof {
        assert(sorted@ == gsorted);
        lemma_sorted_version_props(gpairs);
        lemma_permutation_membership(gsorted, gpairs);
        assert forall|k: int| 0 <= k < gsorted.len() implies (#[trigger] gsorted[k]).1
            < g.roles@.len() by {
            assert(gpairs.contains(gsorted[k]));
            let i2 = choose|i2: int| 0 <= i2 < gpairs.len() && gpairs[i2] == gsorted[k];
            assert(gpairs[i2].1 == i2 as usize);
        }
    }
    sorted
}

/// A `kept_from` list of a duplicate-free sorted list is itself free of
/// duplicates.
proof fn lemma_kept_from_no_dup(sorted: Seq<(i64, usize)>, k: int)
    requires
        0 <= k <= sorted.len(),
        pairs_sorted(sorted),
        sorted.no_duplicates(),
    ensures
        kept_from(sorted, k).no_duplicates(),
    decreases k,
{
    if k > 0 {
        lemma_kept_from_no_dup(sorted, k - 1);
        lemma_kept_from_props(sorted, k - 1);
        let pre = kept_from(sorted, k - 1);
        let kept = kept_from(sorted, k);
        if sorted[k - 1].0 != -1 {
            assert forall|m: int| 0 <= m < pre.len() implies pre[m] != sorted[k - 1] by {
                let i = choose|i: int| 0 <= i < k - 1 && sorted[i] == pre[m];
                assert(sorted[i] != sorted[k - 1]);
            }
            assert forall|m1: int, m2: int|
                0 <= m1 < kept.len() && 0 <= m2 < kept.len() && m1 != m2 implies kept[m1]
                != kept[m2] by {
                if m1 < pre.len() && m2 < pre.len() {
                    assert(pre[m1] != pre[m2]);
                }
            }
        }
    }
}

/// The visible night order of a session, exactly as the storyteller reads
/// it: every slot whose wake position (for this night) is not -1, ascending
/// by that position with ties in slot order, numbered from one; regular
/// nights annotate the conditional wake frequencies.
pub fn night_order(g: &BloodGuild) -> (r: Vec<OrderEntry>)
    requires
        all_slots_assigned(g.roles@),
        g.roles@.len() < 0x1_0000_0000,
    ensures
        ({
            let first = is_first_night(*g);
            let kept = kept_pairs(g.roles@, first);
            &&& r@.len() == kept.len()
            &&& forall|k: int|
                0 <= k < kept.len() ==> entry_matches(
                    g.roles@,
                    first,
                    kept[k].1 as int,
                    k + 1,
                    #[trigger] r@[k],
                )
        }),
{
    let first = g.day_index == 1;
    let n = g.roles.len();
    let sorted = sorted_slot_pairs(g);
    let ghost gsorted = sorted_night_pairs(g.roles@, first);
    proof {
        lemma_sorted_version_props(night_pairs(g.roles@, first));
        lemma_kept_from_props(gsorted, gsorted.len() as int);
        assert(gsorted.len() == n);
    }
    let m = sorted.len();
    let mut r: Vec<OrderEntry> = Vec::new();
    let mut k: usize = 0;
    while k < m
        invariant
            k <= m,
            m == gsorted.len(),
            m == n,
            sorted@ == gsorted,
            n == g.roles@.len(),
            all_slots_assigned(g.roles@),
            n < 0x1_0000_0000,
            first == is_first_night(*g),
            gsorted == sorted_night_pairs(g.roles@, first),
            forall|k2: int| 0 <= k2 < m ==> (#[trigger] gsorted[k2]).1 < n,
            r@.len() == kept_from(gsorted, k as int).len(),
            r@.len() <= k,
            forall|j: int|
                0 <= j < r@.len() ==> entry_matches(
                    g.roles@,
                    first,
                    kept_from(gsorted, k as int)[j].1 as int,
                    j + 1,
                    #[trigger] r@[j],
                ),
        decreases m - k,
    {
        let p = sorted[k];
        if p.0 != -1 {
            let s = &g.roles[p.1];
            let (role_name, conditional) = match &s.role {
                Some(c) => (
                    c.name.clone(),
                    !first && match c.night_action {
                        ActionTime::OnlyFirstNight => true,
                        ActionTime::VariableNight => true,
                        ActionTime::DeathNight => true,
                        _ => false,
                    },
                ),
                None => unreached(),
            };
            let d = {
                match &s.nick {
                    Some(nn) => nn.clone(),
                    None => s.username.clone(),
                }
            };
            let e = OrderEntry {
                position: (r.len() + 1) as u32,
                user_id: s.user_id,
                display_name: d,
                role_name,
                conditional,
            };
            r.push(e);
        }
        proof {
            assert(kept_from(gsorted, k + 1) == if gsorted[k as int].0 != -1 {
                kept_from(gsorted, k as int).push(gsorted[k as int])
            } else {
                kept_from(gsorted, k as int)
            });
        }
        k = k + 1;
    }
    r
}

/// The night order keeps exactly the waking slots, strictly ascending:
/// nothing with position -1 appears, each kept slot appears once, later
/// entries have a strictly larger wake position — or the same position and
/// a strictly later slot —, and every slot whose position is not -1
/// appears.
pub proof fn lemma_night_order_properties(slots: Seq<ParticipantSlot>, first: bool)
    requires
        slots.len() <= usize::MAX,
    ensures
        ({
            let kept = kept_pairs(slots, first);
            &&& forall|m: int|
                0 <= m < kept.len() ==> (#[trigger] kept[m]).0 != -1 && kept[m].1 < slots.len()
                    && kept[m].0 == wake_key(slots[kept[m].1 as int].role->0, first)
            &&& forall|m1: int, m2: int|
                0 <= m1 < m2 < kept.len() ==> (#[trigger] kept[m1]).0 < (#[trigger] kept[m2]).0
                    || (kept[m1].0 == kept[m2].0 && kept[m1].1 < kept[m2].1)
            &&& forall|i: int|
                0 <= i < slots.len() && wake_key((#[trigger] slots[i]).role->0, first) != -1
                    ==> kept.contains((wake_key(slots[i].role->0, first), i as usize))
        }),
{
    let pairs = night_pairs(slots, first);
    let sorted = sorted_night_pairs(slots, first);
    let kept = kept_pairs(slots, first);
    lemma_sorted_version_props(pairs);
    lemma_kept_from_props(sorted, sorted.len() as int);
    lemma_permutation_membership(sorted, pairs);
    lemma_permutation_membership(pairs, sorted);
    assert(pairs.no_duplicates()) by {
        assert forall|i: int, j: int|
            0 <= i < pairs.len() && 0 <= j < pairs.len() && i != j implies pairs[i]
            != pairs[j] by {
            assert(pairs[i].1 == i as usize);
            assert(pairs[j].1 == j as usize);
        }
    }
    assert(sorted.no_duplicates()) by {
        pairs.lemma_multiset_has_no_duplicates();
        sorted.lemma_multiset_has_no_duplicates_conv();
    }
    lemma_kept_from_no_dup(sorted, sorted.len() as int);
    assert forall|m: int|
        0 <= m < kept.len() implies (#[trigger] kept[m]).0 != -1 && kept[m].1 < slots.len()
        && kept[m].0 == wake_key(slots[kept[m].1 as int].role->0, first) by {
        let i = choose|i: int| 0 <= i < sorted.len() && sorted[i] == kept[m];
        assert(pairs.contains(sorted[i]));
        let i2 = choose|i2: int| 0 <= i2 < pairs.len() && pairs[i2] == sorted[i];
        assert(pairs[i2] == (wake_key(slots[i2].role->0, first), i2 as usize));
    }
    assert forall|m1: int, m2: int| 0 <= m1 < m2 < kept.len() implies (#[trigger] kept[m1]).0 < (
    #[trigger] kept[m2]).0 || (kept[m1].0 == kept[m2].0 && kept[m1].1 < kept[m2].1) by {
        assert(pair_le(kept[m1], kept[m2]));
        assert(kept[m1] != kept[m2]);
    }
    assert forall|i: int|
        0 <= i < slots.len() && wake_key((#[trigger] slots[i]).role->0, first) != -1 implies kept
        .contains((wake_key(slots[i].role->0, first), i as usize)) by {
        assert(pairs[i] == (wake_key(slots[i].role->0, first), i as usize));
        assert(sorted.contains(pairs[i]));
        let k = choose|k: int| 0 <= k < sorted.len() && sorted[k] == pairs[i];
        assert(kept.contains(sorted[k]));
    }
}

} // verus!
