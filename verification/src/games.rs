//! Role catalogs: the immutable role definitions a game variant is played
//! with, and the case-insensitive substring lookup the assignment protocol
//! uses to resolve a typed role name.

use vstd::prelude::*;

use crate::order::{
    lemma_permutation_membership, lemma_sorted_version_props, sort_pairs, sorted_version,
};
use crate::text::{
    contains_ci, lower_of, pad_right, seq_contains_sub, spec_pad_right, string_eq,
};

verus! {

/// Which team a role belongs to. Derived solely from the role's category:
/// Minion and Demon roles are Evil, every other category is Good.
#[derive(Clone, Copy, PartialEq, Eq, Structural, Debug)]
pub enum Alignment {
    Good,
    Evil,
}

/// How often a role wakes at night.
#[derive(Clone, Copy, PartialEq, Eq, Structural, Debug)]
pub enum ActionTime {
    OnlyFirstNight,
    EveryNight,
    EveryNightNotFirst,
    DeathNight,
    VariableNight,
    NoNight,
}

/// The category of a role.
#[derive(Clone, Copy, PartialEq, Eq, Structural, Debug)]
pub enum CharacterType {
    Townsfolk,
    Outsider,
    Minion,
    Demon,
    Traveler,
    Fabled,
    Other,
    Decoy,
}

/// The human-readable label of an `ActionTime`.
pub open spec fn action_time_label(t: ActionTime) -> Seq<char> {
    match t {
        ActionTime::OnlyFirstNight => "Only the first night"@,
        ActionTime::EveryNight => "Every night"@,
        ActionTime::EveryNightNotFirst => "Every night but the first"@,
        ActionTime::DeathNight => "Only their death night"@,
        ActionTime::VariableNight => "Some nights"@,
        ActionTime::NoNight => "Never"@,
    }
}

/// The human-readable label of a `CharacterType`.
pub open spec fn character_type_label(t: CharacterType) -> Seq<char> {
    match t {
        CharacterType::Townsfolk => "Townsfolk"@,
        CharacterType::Outsider => "Outsider"@,
        CharacterType::Minion => "Minion"@,
        CharacterType::Demon => "Demon"@,
        CharacterType::Traveler => "Traveler"@,
        CharacterType::Fabled => "Fabled"@,
        CharacterType::Other => "Other"@,
        CharacterType::Decoy => "Decoy"@,
    }
}

/// The alignment a category implies: Evil for Minion and Demon, Good
/// otherwise.
pub open spec fn alignment_of(t: CharacterType) -> Alignment {
    match t {
        CharacterType::Demon => Alignment::Evil,
        CharacterType::Minion => Alignment::Evil,
        _ => Alignment::Good,
    }
}

impl ActionTime {
    pub fn as_str(&self) -> (r: &str)
        ensures
            r@ == action_time_label(*self),
    {
        match *self {
            ActionTime::OnlyFirstNight => "Only the first night",
            ActionTime::EveryNight => "Every night",
            ActionTime::EveryNightNotFirst => "Every night but the first",
            ActionTime::DeathNight => "Only their death night",
            ActionTime::VariableNight => "Some nights",
            ActionTime::NoNight => "Never",
        }
    }
}

impl CharacterType {
    pub fn as_str(&self) -> (r: &str)
        ensures
            r@ == character_type_label(*self),
    {
        match *self {
            CharacterType::Townsfolk => "Townsfolk",
            CharacterType::Outsider => "Outsider",
            CharacterType::Minion => "Minion",
            CharacterType::Demon => "Demon",
            CharacterType::Traveler => "Traveler",
            CharacterType::Fabled => "Fabled",
            CharacterType::Other => "Other",
            CharacterType::Decoy => "Decoy",
        }
    }
}

/// A role definition: a hidden identity with an alignment, a category, wake
/// positions for the first and the regular nights (-1 means the role does
/// not wake then), a wake-frequency descriptor, and optionally a nested
/// decoy role shown only to its holder.
#[derive(Clone)]
pub struct Character {
    pub name: String,
    pub alignment: Alignment,
    pub char_type: CharacterType,
    pub char_type_str: String,
    pub first_order_index: i32,
    pub order_index: i32,
    pub night_action: ActionTime,
    pub decoy_character: Option<DecoyCharacter>,
}

/// The nested second role layer a Decoy role conceals.
#[derive(Clone)]
pub struct DecoyCharacter {
    pub name: String,
    pub alignment: Alignment,
    pub char_type: CharacterType,
    pub char_type_str: String,
}

impl Character {
    /// Builds a role definition, deriving the alignment from the category
    /// and leaving the decoy layer empty.
    pub fn new(
        name: String,
        char_type: CharacterType,
        first_order_index: i32,
        order_index: i32,
        night_action: ActionTime,
    ) -> (r: Self)
        ensures
            r.name == name,
            r.alignment == alignment_of(char_type),
            r.char_type == char_type,
            r.char_type_str@ == character_type_label(char_type),
            r.first_order_index == first_order_index,
            r.order_index == order_index,
            r.night_action == night_action,
            r.decoy_character is None,
    {
        let alignment: Alignment = match char_type {
            CharacterType::Demon => Alignment::Evil,
            CharacterType::Minion => Alignment::Evil,
            _ => Alignment::Good,
        };

        let char_type_str = String::from_str(char_type.as_str());

        Character {
            name,
            alignment,
            char_type,
            char_type_str,
            first_order_index,
            order_index,
            night_action,
            decoy_character: None,
        }
    }

    /// Returns `character` with `decoy` installed as its nested decoy layer;
    /// every other field is kept.
    pub fn add_decoy(character: Character, decoy: DecoyCharacter) -> (r: Character)
        ensures
            r == (Character { decoy_character: Some(decoy), ..character }),
    {
        Character {
            name: character.name,
            alignment: character.alignment,
            char_type: character.char_type,
            char_type_str: character.char_type_str,
            first_order_index: character.first_order_index,
            order_index: character.order_index,
            night_action: character.night_action,
            decoy_character: Some(decoy),
        }
    }

    /// One line of the catalog table: the name, category and wake condition,
    /// each padded to a fixed column width.
    pub fn get_string(&self) -> (r: String)
        ensures
            r@ == spec_pad_right(self.name@, 18) + "| "@ + spec_pad_right(
                character_type_label(self.char_type),
                15,
            ) + "| "@ + spec_pad_right(action_time_label(self.night_action), 25),
    {
        let mut r = pad_right(self.name.as_str(), 18);
        r.append("| ");
        let t = pad_right(self.char_type.as_str(), 15);
        r.append(t.as_str());
        r.append("| ");
        let a = pad_right(self.night_action.as_str(), 25);
        r.append(a.as_str());
        r
    }
}

/// Copies a role definition field by field.
fn duplicate_character(c: &Character) -> (r: Character)
    ensures
        r == *c,
{
    let decoy = match &c.decoy_character {
        Some(d) => Some(
            DecoyCharacter {
                name: d.name.clone(),
                alignment: d.alignment,
                char_type: d.char_type,
                char_type_str: d.char_type_str.clone(),
            },
        ),
        None => None,
    };
    Character {
        name: c.name.clone(),
        alignment: c.alignment,
        char_type: c.char_type,
        char_type_str: c.char_type_str.clone(),
        first_order_index: c.first_order_index,
        order_index: c.order_index,
        night_action: c.night_action,
        decoy_character: decoy,
    }
}

/// No two roles of the catalog share a name.
pub open spec fn unique_names(roles: Seq<Character>) -> bool {
    forall|i: int, j: int|
        0 <= i < j < roles.len() ==> (#[trigger] roles[i].name@) != (#[trigger] roles[j].name@)
}

/// The role's alignment is the one its category implies.
pub open spec fn alignment_consistent(c: Character) -> bool {
    c.alignment == alignment_of(c.char_type)
}

/// Where a category's label stands in the alphabetical order of the eight
/// labels: the order the catalog table lists categories in.
pub open spec fn category_rank(t: CharacterType) -> int {
    match t {
        CharacterType::Decoy => 0,
        CharacterType::Demon => 1,
        CharacterType::Fabled => 2,
        CharacterType::Minion => 3,
        CharacterType::Other => 4,
        CharacterType::Outsider => 5,
        CharacterType::Townsfolk => 6,
        CharacterType::Traveler => 7,
    }
}

/// Each role keyed by its category rank, tagged with its catalog position.
pub open spec fn rank_pairs(roles: Seq<Character>) -> Seq<(i64, usize)> {
    Seq::new(roles.len(), |i: int| (category_rank(roles[i].char_type) as i64, i as usize))
}

/// The typed query matches a role iff the lowercase form of the role's name
/// contains the lowercase form of the query.
pub open spec fn char_matches(c: Character, query: Seq<char>) -> bool {
    seq_contains_sub(lower_of(c.name@), lower_of(query))
}

/// The first index at or after `i` whose role the query matches.
pub open spec fn first_match_from(roles: Seq<Character>, query: Seq<char>, i: int) -> Option<int>
    decreases roles.len() - i,
{
    if i < 0 || i >= roles.len() {
        None
    } else if char_matches(roles[i], query) {
        Some(i)
    } else {
        first_match_from(roles, query, i + 1)
    }
}

/// The index of the first role in catalog order that the query matches.
pub open spec fn first_match(roles: Seq<Character>, query: Seq<char>) -> Option<int> {
    first_match_from(roles, query, 0)
}

/// A role catalog for one game variant: a name and the list of role
/// definitions, with role names unique. The list order is the catalog's
/// iteration order, which the protocol's first-match rule goes by.
#[derive(Clone)]
pub struct GameType {
    name: String,
    roles: Vec<Character>,
}

impl GameType {
    /// The catalog's name.
    pub closed spec fn spec_name(&self) -> Seq<char> {
        self.name@
    }

    /// The catalog's roles, in catalog iteration order.
    pub closed spec fn spec_roles(&self) -> Seq<Character> {
        self.roles@
    }

    /// A well-formed catalog has no two roles sharing a name.
    pub open spec fn wf(&self) -> bool {
        unique_names(self.spec_roles())
    }

    pub fn new(name: String, roles: Vec<Character>) -> (r: Self)
        requires
            unique_names(roles@),
        ensures
            r.spec_name() == name@,
            r.spec_roles() == roles@,
            r.wf(),
    {
        GameType { name, roles }
    }

    /// Looks a role up by its exact name; the name must be present.
    pub fn get_character(&self, character_name: String) -> (r: Character)
        requires
            exists|i: int|
                0 <= i < self.spec_roles().len() && (#[trigger] self.spec_roles()[i].name@)
                    == character_name@,
        ensures
            exists|i: int|
                0 <= i < self.spec_roles().len() && (#[trigger] self.spec_roles()[i].name@)
                    == character_name@ && r == self.spec_roles()[i],
    {
        let n = self.roles.len();
        let mut k: usize = 0;
        while k < n
            invariant
                k <= n,
                n == self.spec_roles().len(),
                exists|i: int|
                    k <= i < self.spec_roles().len() && (#[trigger] self.spec_roles()[i].name@)
                        == character_name@,
            decreases n - k,
        {
            if string_eq(&self.roles[k].name, &character_name) {
                return duplicate_character(&self.roles[k]);
            }
            k = k + 1;
        }
        // unreachable: the name is present by the precondition
        unreached()
    }

    /// Copies out every role of the catalog, in catalog order.
    pub fn get_all_characters(&self) -> (r: Vec<Character>)
        ensures
            r@ == self.spec_roles(),
    {
        let mut out: Vec<Character> = Vec::new();
        let n = self.roles.len();
        let mut k: usize = 0;
        while k < n
            invariant
                k <= n,
                n == self.spec_roles().len(),
                out@ =~= self.spec_roles().take(k as int),
            decreases n - k,
        {
            out.push(duplicate_character(&self.roles[k]));
            k = k + 1;
        }
        proof {
            assert(self.spec_roles().take(n as int) =~= self.spec_roles());
        }
        out
    }

    pub fn get_name(&self) -> (r: String)
        ensures
            r@ == self.spec_name(),
    {
        self.name.clone()
    }

    /// A copy of the catalog under contract: the same name and the same
    /// roles.
    pub fn duplicate(&self) -> (r: GameType)
        ensures
            r.spec_name() == self.spec_name(),
            r.spec_roles() == self.spec_roles(),
    {
        GameType { name: self.name.clone(), roles: self.get_all_characters() }
    }

    /// The roles ordered for the catalog table: ascending by the
    /// alphabetical rank of their category label, ties in catalog order.
    pub fn characters_by_category(&self) -> (r: Vec<Character>)
        ensures
            ({
                let sorted = sorted_version(rank_pairs(self.spec_roles()));
                &&& r@.len() == self.spec_roles().len()
                &&& forall|k: int|
                    0 <= k < r@.len() ==> #[trigger] r@[k] == self.spec_roles()[sorted[k].1 as int]
            }),
    {
        let n = self.roles.len();
        let ghost gpairs = rank_pairs(self.spec_roles());
        let mut pairs: Vec<(i64, usize)> = Vec::new();
        let mut i: usize = 0;
        while i < n
            invariant
                i <= n,
                n == self.spec_roles().len(),
                gpairs == rank_pairs(self.spec_roles()),
                pairs@ == gpairs.take(i as int),
            decreases n - i,
        {
            let rank: i64 = match self.roles[i].char_type {
                CharacterType::Decoy => 0,
                CharacterType::Demon => 1,
                CharacterType::Fabled => 2,
                CharacterType::Minion => 3,
                CharacterType::Other => 4,
                CharacterType::Outsider => 5,
                CharacterType::Townsfolk => 6,
                CharacterType::Traveler => 7,
            };
            pairs.push((rank, i));
            proof {
                assert(gpairs.take(i as int).push(gpairs[i as int]) =~= gpairs.take(i + 1));
            }
            i = i + 1;
        }
        proof {
            assert(gpairs.take(n as int) =~= gpairs);
        }
        let sorted = sort_pairs(&pairs);
        let ghost gsorted = sorted_version(gpairs);
        proof {
            lemma_sorted_version_props(gpairs);
            lemma_permutation_membership(gsorted, gpairs);
            assert forall|k: int| 0 <= k < gsorted.len() implies (#[trigger] gsorted[k]).1
                < n by {
                assert(gpairs.contains(gsorted[k]));
                let i2 = choose|i2: int| 0 <= i2 < gpairs.len() && gpairs[i2] == gsorted[k];
                assert(gpairs[i2].1 == i2 as usize);
            }
        }
        let m = sorted.len();
        let mut r: Vec<Character> = Vec::new();
        let mut k: usize = 0;
        while k < m
            invariant
                k <= m,
                m == gsorted.len(),
                sorted@ == gsorted,
                n == self.spec_roles().len(),
                forall|k2: int| 0 <= k2 < m ==> (#[trigger] gsorted[k2]).1 < n,
                r@.len() == k,
                forall|k2: int|
                    0 <= k2 < k ==> #[trigger] r@[k2] == self.spec_roles()[gsorted[k2].1 as int],
            decreases m - k,
        {
            let p = sorted[k];
            r.push(duplicate_character(&self.roles[p.1]));
            k = k + 1;
        }
        r
    }

    /// Resolves a typed role name: the first role in catalog order whose
    /// lowercased name contains the lowercased query, if any.
    pub fn find_character(&self, query: &str) -> (r: Option<Character>)
        ensures
            match first_match(self.spec_roles(), query@) {
                Some(i) => r == Some(self.spec_roles()[i]),
                None => r is None,
            },
    {
        let n = self.roles.len();
        let mut k: usize = 0;
        while k < n
            invariant
                k <= n,
                n == self.spec_roles().len(),
                first_match(self.spec_roles(), query@) == first_match_from(
                    self.spec_roles(),
                    query@,
                    k as int,
                ),
            decreases n - k,
        {
            if contains_ci(self.roles[k].name.as_str(), query) {
                return Some(duplicate_character(&self.roles[k]));
            }
            k = k + 1;
        }
        None
    }
}

/// In any catalog whose roles carry the alignment their category implies, a
/// role is Evil exactly when its category is Minion or Demon, and Good for
/// every other category.
pub proof fn lemma_alignment_evil_iff_minion_or_demon(roles: Seq<Character>)
    requires
        forall|i: int| 0 <= i < roles.len() ==> alignment_consistent(#[trigger] roles[i]),
    ensures
        forall|i: int|
            0 <= i < roles.len() ==> ((#[trigger] roles[i].alignment) == Alignment::Evil <==> (
            roles[i].char_type == CharacterType::Minion || roles[i].char_type
                == CharacterType::Demon)),
        forall|i: int|
            0 <= i < roles.len() ==> ((#[trigger] roles[i].alignment) == Alignment::Good <==> !(
            roles[i].char_type == CharacterType::Minion || roles[i].char_type
                == CharacterType::Demon)),
{
}

} // verus!
