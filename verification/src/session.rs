//! One running game session: its state machine, its participant slots, and
//! the sequential role-assignment protocol the storyteller drives.

use vstd::prelude::*;

use crate::games::{
    first_match, CharacterType, Character, DecoyCharacter, GameType,
};
use crate::text::{
    dec_str, spec_parse_u16, spec_split, parse_u16, split_spaces, string_eq, u32_to_string,
};

verus! {

/// Where a session stands: freshly created, collecting roles, or playing.
/// `Nothing` stands for the absence of a session.
#[derive(Clone, Copy, PartialEq, Eq, Structural, Debug)]
pub enum GameState {
    Nothing,
    SettingUp,
    SettingRoles,
    Playing,
}

/// The phase of the day/night cycle.
#[derive(Clone, Copy, PartialEq, Eq, Structural, Debug)]
pub enum Time {
    Day,
    Night,
}

/// The human-readable label of a `Time`.
pub open spec fn time_label(t: Time) -> Seq<char> {
    match t {
        Time::Day => "Day"@,
        Time::Night => "Night"@,
    }
}

impl Time {
    pub fn as_str(&self) -> (r: &str)
        ensures
            r@ == time_label(*self),
    {
        match *self {
            Time::Day => "Day",
            Time::Night => "Night",
        }
    }
}

/// One participant of a session: their platform identity, a snapshot of
/// their names, and the role assigned to them so far, if any.
#[derive(Clone)]
pub struct ParticipantSlot {
    pub user_id: u64,
    pub username: String,
    pub nick: Option<String>,
    pub role: Option<Character>,
}

/// A member of the storyteller's voice room, as the platform reports it to
/// the adapter: identity, name snapshot, and whether they carry the
/// spectator marker.
#[derive(Clone)]
pub struct MemberInfo {
    pub user_id: u64,
    pub username: String,
    pub nick: Option<String>,
    pub is_spectator: bool,
}

/// The name a participant is shown under: the nickname if one is set, the
/// raw username otherwise.
pub open spec fn display_of(s: ParticipantSlot) -> Seq<char> {
    match s.nick {
        Some(n) => n@,
        None => s.username@,
    }
}

/// The slot still needs its base role.
pub open spec fn slot_pending_role(s: ParticipantSlot) -> bool {
    s.role is None
}

/// The slot holds a Decoy role whose nested layer is still missing.
pub open spec fn slot_pending_decoy(s: ParticipantSlot) -> bool {
    match s.role {
        Some(c) => c.char_type == CharacterType::Decoy && c.decoy_character is None,
        None => false,
    }
}

/// The slot still needs an answer, for its base role or its decoy layer.
pub open spec fn slot_pending(s: ParticipantSlot) -> bool {
    slot_pending_role(s) || slot_pending_decoy(s)
}

/// Every slot is complete: a role everywhere, and no Decoy role without its
/// nested layer.
pub open spec fn all_slots_complete(roles: Seq<ParticipantSlot>) -> bool {
    forall|i: int| 0 <= i < roles.len() ==> !slot_pending(#[trigger] roles[i])
}

/// Every slot has at least its base role.
pub open spec fn all_slots_assigned(roles: Seq<ParticipantSlot>) -> bool {
    forall|i: int| 0 <= i < roles.len() ==> (#[trigger] roles[i].role) is Some
}

/// The first slot index at or after `i` that still needs an answer.
pub open spec fn first_pending_from(roles: Seq<ParticipantSlot>, i: int) -> Option<int>
    decreases roles.len() - i,
{
    if i < 0 || i >= roles.len() {
        None
    } else if slot_pending(roles[i]) {
        Some(i)
    } else {
        first_pending_from(roles, i + 1)
    }
}

/// The first slot index that still needs an answer.
pub open spec fn first_pending(roles: Seq<ParticipantSlot>) -> Option<int> {
    first_pending_from(roles, 0)
}

/// One session ("game guild"): the community it belongs to, the channel the
/// storyteller drives it from, the participant slots, the catalog chosen
/// for it, and the day/night cycle position.
#[derive(Clone)]
pub struct BloodGuild {
    pub id: u64,
    pub game_state: GameState,
    pub storyteller_channel: u64,
    pub roles: Vec<ParticipantSlot>,
    pub game_type: GameType,
    pub time: Time,
    pub day_index: u32,
}

impl BloodGuild {
    /// Creates a fresh session bound to the given channel: setting up, no
    /// participants, daytime, day counter at zero.
    pub fn new(id: u64, storyteller_channel: u64, game_type: GameType) -> (r: Self)
        ensures
            r.id == id,
            r.game_state == GameState::SettingUp,
            r.storyteller_channel == storyteller_channel,
            r.roles@ == Seq::<ParticipantSlot>::empty(),
            r.game_type == game_type,
            r.time == Time::Day,
            r.day_index == 0,
    {
        let roles: Vec<ParticipantSlot> = Vec::new();
        BloodGuild {
            id,
            game_state: GameState::SettingUp,
            storyteller_channel,
            roles,
            time: Time::Day,
            day_index: 0,
            game_type,
        }
    }

    /// The day counter and phase, as one status line.
    pub fn get_time_str(&self) -> (r: String)
        ensures
            r@ == "Day: "@ + dec_str(self.day_index as int) + " | Time: "@ + time_label(self.time),
    {
        let mut r = String::from_str("Day: ");
        let d = u32_to_string(self.day_index);
        r.append(d.as_str());
        r.append(" | Time: ");
        r.append(self.time.as_str());
        proof {
            assert(r@ =~= "Day: "@ + dec_str(self.day_index as int) + " | Time: "@ + time_label(
                self.time,
            ));
        }
        r
    }

    /// Enters the night phase: the day counter advances by one when coming
    /// from a day phase, and the time becomes night.
    pub fn advance_to_night(&mut self)
        requires
            old(self).day_index < u32::MAX,
        ensures
            final(self).time == Time::Night,
            final(self).day_index == if old(self).time == Time::Day {
                old(self).day_index + 1
            } else {
                old(self).day_index as int
            },
            *final(self) == (BloodGuild {
                time: Time::Night,
                day_index: final(self).day_index,
                ..*old(self)
            }),
    {
        match self.time {
            Time::Day => {
                self.day_index = self.day_index + 1;
            },
            _ => {},
        }
        self.time = Time::Night;
    }

    /// Enters the day phase; the day counter is kept.
    pub fn advance_to_day(&mut self)
        ensures
            *final(self) == (BloodGuild { time: Time::Day, ..*old(self) }),
    {
        self.time = Time::Day;
    }
}

/// How a "begin role assignment" command is received.
#[derive(Clone, Copy, PartialEq, Eq, Structural, Debug)]
pub enum RolesOutcome {
    /// No session is active.
    NotActive,
    /// Roles cannot be edited while the game is being played.
    InGame,
    /// The literal triggering keyword: discover the participants.
    Discovery,
    /// Any other text while collecting roles: treat it as an answer.
    Continue,
}

/// What applying one answer did.
#[derive(Clone, Copy, PartialEq, Eq, Structural, Debug)]
pub enum AnswerOutcome {
    /// The slot at this index received its base role.
    AssignedRole(usize),
    /// The slot at this index received its nested decoy role.
    AssignedDecoy(usize),
    /// No role name matched; the same participant is asked again.
    NoMatch,
    /// No slot was waiting for an answer.
    NoPending,
}

/// What the protocol asks for next, or the completion summary.
pub enum AskOutcome {
    /// Ask the named participant for their role.
    PromptRole(String),
    /// Ask the named participant for their decoy role.
    PromptDecoy(String),
    /// Everyone is assigned: the (participant, role name) summary.
    Summary(Vec<(String, String)>),
}

/// The fresh slot a discovered member starts with.
pub open spec fn slot_of_member(m: MemberInfo) -> ParticipantSlot {
    ParticipantSlot { user_id: m.user_id, username: m.username, nick: m.nick, role: None }
}

/// Some slot already belongs to this user.
pub open spec fn has_slot_for(roles: Seq<ParticipantSlot>, uid: u64) -> bool {
    exists|i: int| 0 <= i < roles.len() && (#[trigger] roles[i]).user_id == uid
}

/// A discovered member joins the session unless they are the storyteller,
/// carry the spectator marker, or already hold a slot.
pub open spec fn eligible(m: MemberInfo, roles: Seq<ParticipantSlot>, storyteller: u64) -> bool {
    m.user_id != storyteller && !m.is_spectator && !has_slot_for(roles, m.user_id)
}

/// The slots after the discovered members joined, in discovery order.
pub open spec fn spec_register(
    roles: Seq<ParticipantSlot>,
    members: Seq<MemberInfo>,
    storyteller: u64,
) -> Seq<ParticipantSlot>
    decreases members.len(),
{
    if members.len() == 0 {
        roles
    } else {
        let r1 = if eligible(members[0], roles, storyteller) {
            roles.push(slot_of_member(members[0]))
        } else {
            roles
        };
        spec_register(r1, members.drop_first(), storyteller)
    }
}

proof fn lemma_register_push(
    roles: Seq<ParticipantSlot>,
    members: Seq<MemberInfo>,
    m: MemberInfo,
    storyteller: u64,
)
    ensures
        spec_register(roles, members.push(m), storyteller) == {
            let r = spec_register(roles, members, storyteller);
            if eligible(m, r, storyteller) {
                r.push(slot_of_member(m))
            } else {
                r
            }
        },
    decreases members.len(),
{
    let ms1 = members.push(m);
    if members.len() == 0 {
        assert(ms1.len() == 1);
        assert(ms1[0] == m);
        assert(ms1.drop_first() =~= Seq::<MemberInfo>::empty());
        let r1 = if eligible(m, roles, storyteller) {
            roles.push(slot_of_member(m))
        } else {
            roles
        };
        assert(spec_register(roles, ms1, storyteller) == spec_register(
            r1,
            ms1.drop_first(),
            storyteller,
        ));
        assert(spec_register(r1, ms1.drop_first(), storyteller) == r1);
        assert(spec_register(roles, members, storyteller) == roles);
    } else {
        assert(ms1[0] == members[0]);
        assert(ms1.drop_first() =~= members.drop_first().push(m));
        let r1 = if eligible(members[0], roles, storyteller) {
            roles.push(slot_of_member(members[0]))
        } else {
            roles
        };
        assert(spec_register(roles, ms1, storyteller) == spec_register(
            r1,
            members.drop_first().push(m),
            storyteller,
        ));
        assert(spec_register(roles, members, storyteller) == spec_register(
            r1,
            members.drop_first(),
            storyteller,
        ));
        lemma_register_push(r1, members.drop_first(), m, storyteller);
    }
}

/// The nested layer a matched role becomes when it fills a decoy slot.
pub open spec fn decoy_of(c: Character) -> DecoyCharacter {
    DecoyCharacter {
        name: c.name,
        alignment: c.alignment,
        char_type: c.char_type,
        char_type_str: c.char_type_str,
    }
}

/// The slot with its role cleared; the participant is kept.
pub open spec fn cleared_slot(s: ParticipantSlot) -> ParticipantSlot {
    ParticipantSlot { role: None, ..s }
}

/// What a matched role does to the pending slot: it becomes the base role
/// of an empty slot, and the nested decoy layer of a waiting Decoy slot.
pub open spec fn assign_to_slot(s: ParticipantSlot, c: Character) -> ParticipantSlot {
    if slot_pending_role(s) {
        ParticipantSlot { role: Some(c), ..s }
    } else {
        ParticipantSlot {
            role: Some(
                Character { decoy_character: Some(decoy_of(c)), ..s.role->0 },
            ),
            ..s
        }
    }
}

/// One answer applied to the slots: the first pending slot receives the
/// first catalog role the answer matches; with no pending slot or no match
/// nothing changes.
pub open spec fn answer_step(
    roles: Seq<ParticipantSlot>,
    catalog: Seq<Character>,
    q: Seq<char>,
) -> Seq<ParticipantSlot> {
    match first_pending(roles) {
        None => roles,
        Some(i) => match first_match(catalog, q) {
            None => roles,
            Some(j) => roles.update(i, assign_to_slot(roles[i], catalog[j])),
        },
    }
}

/// A slot pending at `n`, with every earlier slot settled, is the first
/// pending slot.
pub proof fn lemma_first_pending_at(roles: Seq<ParticipantSlot>, n: int)
    requires
        0 <= n < roles.len(),
        slot_pending(roles[n]),
        forall|k: int| 0 <= k < n ==> !slot_pending(#[trigger] roles[k]),
    ensures
        first_pending(roles) == Some(n),
{
    lemma_first_pending_at_from(roles, n, 0);
}

proof fn lemma_first_pending_at_from(roles: Seq<ParticipantSlot>, n: int, i: int)
    requires
        0 <= i <= n < roles.len(),
        slot_pending(roles[n]),
        forall|k: int| i <= k < n ==> !slot_pending(#[trigger] roles[k]),
    ensures
        first_pending_from(roles, i) == Some(n),
    decreases n - i,
{
    if i < n {
        lemma_first_pending_at_from(roles, n, i + 1);
    }
}

/// With no slot pending, every slot is complete.
pub proof fn lemma_first_pending_none(roles: Seq<ParticipantSlot>)
    requires
        first_pending(roles) is None,
    ensures
        all_slots_complete(roles),
{
    lemma_first_pending_none_from(roles, 0);
}

proof fn lemma_first_pending_none_from(roles: Seq<ParticipantSlot>, i: int)
    requires
        0 <= i,
        first_pending_from(roles, i) is None,
    ensures
        forall|k: int| i <= k < roles.len() ==> !slot_pending(#[trigger] roles[k]),
    decreases roles.len() - i,
{
    if i < roles.len() {
        lemma_first_pending_none_from(roles, i + 1);
    }
}

fn clone_opt_string(o: &Option<String>) -> (r: Option<String>)
    ensures
        r == *o,
{
    match o {
        Some(s) => Some(s.clone()),
        None => None,
    }
}

/// Whether the slot still waits for an answer.
fn is_pending(s: &ParticipantSlot) -> (b: bool)
    ensures
        b == slot_pending(*s),
{
    match &s.role {
        None => true,
        Some(c) => c.char_type == CharacterType::Decoy && c.decoy_character.is_none(),
    }
}

fn display_name(s: &ParticipantSlot) -> (r: String)
    ensures
        r@ == display_of(*s),
{
    match &s.nick {
        Some(n) => n.clone(),
        None => s.username.clone(),
    }
}

/// The index of the first slot still waiting for an answer, if any.
fn find_pending(roles: &Vec<ParticipantSlot>) -> (r: Option<usize>)
    ensures
        match r {
            Some(t) => t < roles@.len() && first_pending(roles@) == Some(t as int)
                && slot_pending(roles@[t as int]),
            None => first_pending(roles@) is None,
        },
{
    let n = roles.len();
    let mut t: usize = 0;
    while t < n
        invariant
            t <= n,
            n == roles@.len(),
            first_pending(roles@) == first_pending_from(roles@, t as int),
        decreases n - t,
    {
        if is_pending(&roles[t]) {
            return Some(t);
        }
        t = t + 1;
    }
    None
}

impl BloodGuild {
    /// Receives the "begin role assignment" command, or routes a message to
    /// the protocol while roles are being collected. Rejected with no
    /// session or while playing; otherwise the session is collecting roles
    /// from here on, and the literal keyword asks for participant
    /// discovery while anything else is an answer.
    pub fn begin_or_continue(&mut self, content: &str) -> (r: RolesOutcome)
        ensures
            match old(self).game_state {
                GameState::Nothing => r == RolesOutcome::NotActive && *final(self) == *old(self),
                GameState::Playing => r == RolesOutcome::InGame && *final(self) == *old(self),
                _ => {
                    &&& *final(self) == (BloodGuild {
                        game_state: GameState::SettingRoles,
                        ..*old(self)
                    })
                    &&& r == (if content@ == "roles"@ {
                        RolesOutcome::Discovery
                    } else {
                        RolesOutcome::Continue
                    })
                },
            },
    {
        match self.game_state {
            GameState::Nothing => RolesOutcome::NotActive,
            GameState::Playing => RolesOutcome::InGame,
            _ => {
                self.game_state = GameState::SettingRoles;
                let c = String::from_str(content);
                let keyword = String::from_str("roles");
                if string_eq(&c, &keyword) {
                    RolesOutcome::Discovery
                } else {
                    RolesOutcome::Continue
                }
            },
        }
    }

    /// Adds a slot for every discovered member that is not the
    /// storyteller, carries no spectator marker, and has no slot yet.
    pub fn register_participants(&mut self, members: &Vec<MemberInfo>, storyteller_id: u64)
        ensures
            final(self).roles@ == spec_register(old(self).roles@, members@, storyteller_id),
            *final(self) == (BloodGuild { roles: final(self).roles, ..*old(self) }),
    {
        let n = members.len();
        let mut k: usize = 0;
        while k < n
            invariant
                k <= n,
                n == members@.len(),
                self.roles@ == spec_register(
                    old(self).roles@,
                    members@.take(k as int),
                    storyteller_id,
                ),
                *self == (BloodGuild { roles: self.roles, ..*old(self) }),
            decreases n - k,
        {
            let rn = self.roles.len();
            let mut taken = false;
            let mut t: usize = 0;
            while t < rn
                invariant
                    t <= rn,
                    rn == self.roles@.len(),
                    k < n,
                    n == members@.len(),
                    taken == exists|i: int|
                        0 <= i < t && (#[trigger] self.roles@[i]).user_id == members@[k as int].user_id,
                decreases rn - t,
            {
                if self.roles[t].user_id == members[k].user_id {
                    taken = true;
                }
                t = t + 1;
            }
            proof {
                assert(taken == has_slot_for(self.roles@, members@[k as int].user_id));
            }
            let m = &members[k];
            if m.user_id != storyteller_id && !m.is_spectator && !taken {
                let slot = ParticipantSlot {
                    user_id: m.user_id,
                    username: m.username.clone(),
                    nick: clone_opt_string(&m.nick),
                    role: None,
                };
                proof {
                    assert(slot == slot_of_member(members@[k as int]));
                }
                self.roles.push(slot);
            }
            proof {
                lemma_register_push(
                    old(self).roles@,
                    members@.take(k as int),
                    members@[k as int],
                    storyteller_id,
                );
                assert(members@.take(k as int).push(members@[k as int]) =~= members@.take(
                    k + 1,
                ));
            }
            k = k + 1;
        }
        proof {
            assert(members@.take(n as int) =~= members@);
        }
    }

    /// Applies one inbound answer: the first pending slot receives the
    /// first catalog role whose lowercased name contains the lowercased
    /// answer. With no match, or no pending slot, nothing changes.
    pub fn apply_answer(&mut self, answer: &str) -> (r: AnswerOutcome)
        ensures
            final(self).roles@ == answer_step(
                old(self).roles@,
                old(self).game_type.spec_roles(),
                answer@,
            ),
            *final(self) == (BloodGuild { roles: final(self).roles, ..*old(self) }),
            match r {
                AnswerOutcome::NoPending => first_pending(old(self).roles@) is None,
                AnswerOutcome::NoMatch => first_pending(old(self).roles@) is Some && first_match(
                    old(self).game_type.spec_roles(),
                    answer@,
                ) is None,
                AnswerOutcome::AssignedRole(i) => first_pending(old(self).roles@) == Some(i as int)
                    && slot_pending_role(old(self).roles@[i as int]) && first_match(
                    old(self).game_type.spec_roles(),
                    answer@,
                ) is Some,
                AnswerOutcome::AssignedDecoy(i) => first_pending(old(self).roles@) == Some(i as int)
                    && slot_pending_decoy(old(self).roles@[i as int]) && first_match(
                    old(self).game_type.spec_roles(),
                    answer@,
                ) is Some,
            },
    {
        let t = match find_pending(&self.roles) {
            Some(t) => t,
            None => {
                return AnswerOutcome::NoPending;
            },
        };
        let found = self.game_type.find_character(answer);
        match found {
            None => AnswerOutcome::NoMatch,
            Some(c) => {
                let base_pending = self.roles[t].role.is_none();
                let new_slot = {
                    let s = &self.roles[t];
                    if base_pending {
                        ParticipantSlot {
                            user_id: s.user_id,
                            username: s.username.clone(),
                            nick: clone_opt_string(&s.nick),
                            role: Some(c),
                        }
                    } else {
                        let base = match &s.role {
                            Some(b) => b,
                            None => unreached(),
                        };
                        let with_decoy = Character {
                            name: base.name.clone(),
                            alignment: base.alignment,
                            char_type: base.char_type,
                            char_type_str: base.char_type_str.clone(),
                            first_order_index: base.first_order_index,
                            order_index: base.order_index,
                            night_action: base.night_action,
                            decoy_character: Some(
                                DecoyCharacter {
                                    name: c.name,
                                    alignment: c.alignment,
                                    char_type: c.char_type,
                                    char_type_str: c.char_type_str,
                                },
                            ),
                        };
                        ParticipantSlot {
                            user_id: s.user_id,
                            username: s.username.clone(),
                            nick: clone_opt_string(&s.nick),
                            role: Some(with_decoy),
                        }
                    }
                };
                self.roles[t] = new_slot;
                if base_pending {
                    AnswerOutcome::AssignedRole(t)
                } else {
                    AnswerOutcome::AssignedDecoy(t)
                }
            },
        }
    }

    /// Asks for what is still missing: a prompt for the first pending slot,
    /// or, with every slot complete, the assignment summary — and only then
    /// does the session leave role collection, back to setting up.
    pub fn ask_step(&mut self) -> (r: AskOutcome)
        ensures
            match first_pending(old(self).roles@) {
                Some(i) => {
                    &&& *final(self) == *old(self)
                    &&& (slot_pending_role(old(self).roles@[i]) ==> (r matches
                    AskOutcome::PromptRole(d) && d@ == display_of(old(self).roles@[i])))
                    &&& (slot_pending_decoy(old(self).roles@[i]) ==> (r matches
                    AskOutcome::PromptDecoy(d) && d@ == display_of(old(self).roles@[i])))
                },
                None => {
                    &&& *final(self) == (BloodGuild {
                        game_state: GameState::SettingUp,
                        ..*old(self)
                    })
                    &&& r matches AskOutcome::Summary(lines) && lines@.len()
                        == old(self).roles@.len() && forall|k: int|
                        0 <= k < lines@.len() ==> (#[trigger] lines@[k]).0@ == display_of(
                            old(self).roles@[k],
                        ) && lines@[k].1@ == old(self).roles@[k].role->0.name@
                },
            },
            final(self).game_state != old(self).game_state ==> all_slots_complete(
                old(self).roles@,
            ) && final(self).game_state == GameState::SettingUp,
    {
        let n = self.roles.len();
        match find_pending(&self.roles) {
            Some(t) => {
                let d = display_name(&self.roles[t]);
                if self.roles[t].role.is_none() {
                    return AskOutcome::PromptRole(d);
                } else {
                    return AskOutcome::PromptDecoy(d);
                }
            },
            None => {},
        }
        proof {
            lemma_first_pending_none(self.roles@);
        }
        let mut lines: Vec<(String, String)> = Vec::new();
        let mut k: usize = 0;
        while k < n
            invariant
                k <= n,
                n == self.roles@.len(),
                all_slots_complete(self.roles@),
                lines@.len() == k,
                forall|i: int|
                    0 <= i < k ==> (#[trigger] lines@[i]).0@ == display_of(self.roles@[i])
                        && lines@[i].1@ == self.roles@[i].role->0.name@,
            decreases n - k,
        {
            let d = display_name(&self.roles[k]);
            let role_name = match &self.roles[k].role {
                Some(c) => c.name.clone(),
                None => unreached(),
            };
            lines.push((d, role_name));
            k = k + 1;
        }
        self.game_state = GameState::SettingUp;
        AskOutcome::Summary(lines)
    }
}

/// One direct message the adapter is to deliver: whom to, and which role to
/// reveal. A slot with a decoy layer reveals the decoy, not the base role.
pub struct DmPayload {
    pub user_id: u64,
    pub username: String,
    pub role_name: String,
    pub category_label: String,
}

/// What the "distribute roles" command did.
pub enum DmOutcome {
    /// Every slot is complete: the messages to deliver, and the session is
    /// now playing.
    Sendable(Vec<DmPayload>),
    /// The session is not in the setting-up state.
    NotSettingUp,
    /// No roles have been collected at all.
    NoRoles,
    /// Some slot is still missing a role or a decoy layer.
    Incomplete,
}

/// The role name a slot's holder is told: the decoy layer where one exists,
/// the base role otherwise.
pub open spec fn dm_name_of(s: ParticipantSlot) -> Seq<char> {
    match s.role->0.decoy_character {
        Some(d) => d.name@,
        None => s.role->0.name@,
    }
}

/// The category label that goes with `dm_name_of`.
pub open spec fn dm_label_of(s: ParticipantSlot) -> Seq<char> {
    match s.role->0.decoy_character {
        Some(d) => d.char_type_str@,
        None => s.role->0.char_type_str@,
    }
}

impl BloodGuild {
    /// Receives the "distribute roles" command: from setting up with every
    /// slot complete, hands back the messages to deliver and the session
    /// starts playing; otherwise the command fails and nothing changes.
    pub fn distribute(&mut self) -> (r: DmOutcome)
        ensures
            match r {
                DmOutcome::Sendable(ps) => {
                    &&& old(self).game_state == GameState::SettingUp
                    &&& old(self).roles@.len() > 0
                    &&& all_slots_complete(old(self).roles@)
                    &&& *final(self) == (BloodGuild {
                        game_state: GameState::Playing,
                        ..*old(self)
                    })
                    &&& ps@.len() == old(self).roles@.len()
                    &&& forall|k: int|
                        0 <= k < ps@.len() ==> {
                            &&& (#[trigger] ps@[k]).user_id == old(self).roles@[k].user_id
                            &&& ps@[k].username@ == old(self).roles@[k].username@
                            &&& ps@[k].role_name@ == dm_name_of(old(self).roles@[k])
                            &&& ps@[k].category_label@ == dm_label_of(old(self).roles@[k])
                        }
                },
                DmOutcome::NotSettingUp => {
                    &&& old(self).game_state != GameState::SettingUp
                    &&& *final(self) == *old(self)
                },
                DmOutcome::NoRoles => {
                    &&& old(self).game_state == GameState::SettingUp
                    &&& old(self).roles@.len() == 0
                    &&& *final(self) == *old(self)
                },
                DmOutcome::Incomplete => {
                    &&& old(self).game_state == GameState::SettingUp
                    &&& !all_slots_complete(old(self).roles@)
                    &&& *final(self) == *old(self)
                },
            },
    {
        match self.game_state {
            GameState::SettingUp => {},
            _ => {
                return DmOutcome::NotSettingUp;
            },
        }
        if self.roles.len() == 0 {
            return DmOutcome::NoRoles;
        }
        match find_pending(&self.roles) {
            Some(t) => {
                return DmOutcome::Incomplete;
            },
            None => {},
        }
        proof {
            lemma_first_pending_none(self.roles@);
        }
        let n = self.roles.len();
        let mut ps: Vec<DmPayload> = Vec::new();
        let mut k: usize = 0;
        while k < n
            invariant
                k <= n,
                n == self.roles@.len(),
                all_slots_complete(self.roles@),
                ps@.len() == k,
                forall|i: int|
                    0 <= i < k ==> {
                        &&& (#[trigger] ps@[i]).user_id == self.roles@[i].user_id
                        &&& ps@[i].username@ == self.roles@[i].username@
                        &&& ps@[i].role_name@ == dm_name_of(self.roles@[i])
                        &&& ps@[i].category_label@ == dm_label_of(self.roles@[i])
                    },
            decreases n - k,
        {
            let s = &self.roles[k];
            let (role_name, category_label) = match &s.role {
                Some(c) => match &c.decoy_character {
                    Some(d) => (d.name.clone(), d.char_type_str.clone()),
                    None => (c.name.clone(), c.char_type_str.clone()),
                },
                None => unreached(),
            };
            ps.push(
                DmPayload {
                    user_id: s.user_id,
                    username: s.username.clone(),
                    role_name,
                    category_label,
                },
            );
            k = k + 1;
        }
        self.game_state = GameState::Playing;
        DmOutcome::Sendable(ps)
    }
}

/// What an "edit" command did.
#[derive(Clone, Copy, PartialEq, Eq, Structural, Debug)]
pub enum EditOutcome {
    /// The command did not have exactly one argument; it is ignored.
    Ignored,
    /// The argument is not a positive number.
    NoNumber,
    /// The number is past the last slot.
    OutOfRange,
    /// The slot at this index had its role cleared; the session is
    /// collecting roles again.
    Edited(usize),
}

impl BloodGuild {
    /// Receives an "edit n" command: clears the role of slot `n` (counted
    /// from one) and re-enters role collection. A malformed or out-of-range
    /// argument changes nothing.
    pub fn edit_command(&mut self, content: &str) -> (r: EditOutcome)
        ensures
            ({
                let parts = spec_split(content@, ' ');
                let parsed = spec_parse_u16(parts[1]);
                match r {
                    EditOutcome::Ignored => parts.len() != 2 && *final(self) == *old(self),
                    EditOutcome::NoNumber => parts.len() == 2 && (parsed is None || parsed
                        == Some(0u16)) && *final(self) == *old(self),
                    EditOutcome::OutOfRange => parts.len() == 2 && parsed is Some && parsed->0 > 0
                        && parsed->0 as int > old(self).roles@.len() && *final(self) == *old(self),
                    EditOutcome::Edited(idx) => {
                        &&& parts.len() == 2
                        &&& parsed is Some
                        &&& parsed->0 as int == idx + 1
                        &&& 0 <= idx < old(self).roles@.len()
                        &&& final(self).roles@ == old(self).roles@.update(
                            idx as int,
                            cleared_slot(old(self).roles@[idx as int]),
                        )
                        &&& *final(self) == (BloodGuild {
                            game_state: GameState::SettingRoles,
                            roles: final(self).roles,
                            ..*old(self)
                        })
                    },
                }
            }),
    {
        let parts = split_spaces(content);
        if parts.len() != 2 {
            return EditOutcome::Ignored;
        }
        proof {
            assert(parts@[1].deep_view() == parts.deep_view()[1]);
        }
        let parsed = parse_u16(parts[1].as_str());
        let num = match parsed {
            Some(v) => v,
            None => 0,
        };
        if num == 0 {
            return EditOutcome::NoNumber;
        }
        let idx = (num - 1) as usize;
        if idx >= self.roles.len() {
            return EditOutcome::OutOfRange;
        }
        let cleared = {
            let s = &self.roles[idx];
            ParticipantSlot {
                user_id: s.user_id,
                username: s.username.clone(),
                nick: clone_opt_string(&s.nick),
                role: None,
            }
        };
        self.roles[idx] = cleared;
        self.game_state = GameState::SettingRoles;
        EditOutcome::Edited(idx)
    }
}

/// Re-entering a role is idempotent: clearing slot `n` by the edit command
/// and answering with the very name of the role it held restores the slots
/// exactly — provided every slot was complete, the cleared role has no
/// decoy layer to re-collect, and its name resolves to that same role in
/// the catalog.
pub proof fn lemma_edit_then_same_answer(
    roles: Seq<ParticipantSlot>,
    catalog: Seq<Character>,
    n: int,
    j: int,
)
    requires
        0 <= n < roles.len(),
        all_slots_complete(roles),
        roles[n].role is Some,
        roles[n].role->0.decoy_character is None,
        roles[n].role->0.char_type != CharacterType::Decoy,
        0 <= j < catalog.len(),
        first_match(catalog, roles[n].role->0.name@) == Some(j),
        catalog[j] == roles[n].role->0,
    ensures
        answer_step(roles.update(n, cleared_slot(roles[n])), catalog, roles[n].role->0.name@)
            == roles,
{
    let cleared = roles.update(n, cleared_slot(roles[n]));
    assert forall|k: int| 0 <= k < n implies !slot_pending(#[trigger] cleared[k]) by {
        assert(cleared[k] == roles[k]);
    }
    assert(slot_pending(cleared[n]));
    lemma_first_pending_at(cleared, n);
    let restored = cleared.update(n, assign_to_slot(cleared[n], catalog[j]));
    assert(assign_to_slot(cleared[n], catalog[j]) == roles[n]);
    assert(restored =~= roles);
}

} // verus!
