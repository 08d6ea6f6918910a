//! Loading a role catalog from tabular text. A record carries five fields:
//! role name, category keyword, first-night wake position, regular-night
//! wake position, wake-frequency keyword. Unknown category or frequency
//! keywords fall back to their defaults; a record with too few fields or an
//! unreadable position is rejected. A later record with an already-present
//! name replaces the earlier one in place.

use vstd::prelude::*;

use crate::games::{
    alignment_consistent, character_type_label, unique_names, ActionTime, Character,
    CharacterType, GameType,
};
use crate::text::{parse_i32, spec_parse_i32, string_eq};

verus! {

/// The records of a tabular text, as the reader of the csv crate parses
/// them with the first line as a header; a function of the text alone.
pub uninterp spec fn csv_records_of(s: Seq<char>) -> Seq<Seq<Seq<char>>>;

/// Whether the reader of the csv crate accepts the whole text; like the
/// records themselves, a function of the text alone.
pub uninterp spec fn csv_ok_of(s: Seq<char>) -> bool;

/// Relies on `csv::Reader::from_reader` and `csv::Reader::records`: parses
/// the comma-separated records of the text, skipping the header line; a
/// record the reader rejects ends the parse with the reader's message.
/// Reading from in-memory bytes, acceptance and records depend on the text
/// alone.
#[verifier::external_body]
fn csv_parse(text: &str) -> (r: Result<Vec<Vec<String>>, String>)
    ensures
        r is Ok <==> csv_ok_of(text@),
        r matches Ok(recs) ==> recs.deep_view() == csv_records_of(text@),
{
    let mut rdr = csv::Reader::from_reader(text.as_bytes());
    let mut out: Vec<Vec<String>> = Vec::new();
    for rec in rdr.records() {
        match rec {
            Ok(row) => out.push(row.iter().map(|f| f.to_string()).collect()),
            Err(e) => return Err(e.to_string()),
        }
    }
    Ok(out)
}

/// The category a keyword names; anything unknown is Other.
pub open spec fn spec_category_of(s: Seq<char>) -> CharacterType {
    if s == "Demon"@ {
        CharacterType::Demon
    } else if s == "Minion"@ {
        CharacterType::Minion
    } else if s == "Outsider"@ {
        CharacterType::Outsider
    } else if s == "Townsfolk"@ {
        CharacterType::Townsfolk
    } else if s == "Traveler"@ {
        CharacterType::Traveler
    } else if s == "Fabled"@ {
        CharacterType::Fabled
    } else if s == "Decoy"@ {
        CharacterType::Decoy
    } else {
        CharacterType::Other
    }
}

fn category_of(s: &String) -> (r: CharacterType)
    ensures
        r == spec_category_of(s@),
{
    if string_eq(s, &String::from_str("Demon")) {
        CharacterType::Demon
    } else if string_eq(s, &String::from_str("Minion")) {
        CharacterType::Minion
    } else if string_eq(s, &String::from_str("Outsider")) {
        CharacterType::Outsider
    } else if string_eq(s, &String::from_str("Townsfolk")) {
        CharacterType::Townsfolk
    } else if string_eq(s, &String::from_str("Traveler")) {
        CharacterType::Traveler
    } else if string_eq(s, &String::from_str("Fabled")) {
        CharacterType::Fabled
    } else if string_eq(s, &String::from_str("Decoy")) {
        CharacterType::Decoy
    } else {
        CharacterType::Other
    }
}

/// The wake frequency a keyword names; anything unknown never wakes.
pub open spec fn spec_action_of(s: Seq<char>) -> ActionTime {
    if s == "EveryNight"@ {
        ActionTime::EveryNight
    } else if s == "NoNight"@ {
        ActionTime::NoNight
    } else if s == "VariableNight"@ {
        ActionTime::VariableNight
    } else if s == "OnlyFirstNight"@ {
        ActionTime::OnlyFirstNight
    } else if s == "EveryNightNotFirst"@ {
        ActionTime::EveryNightNotFirst
    } else if s == "DeathNight"@ {
        ActionTime::DeathNight
    } else {
        ActionTime::NoNight
    }
}

fn action_of(s: &String) -> (r: ActionTime)
    ensures
        r == spec_action_of(s@),
{
    if string_eq(s, &String::from_str("EveryNight")) {
        ActionTime::EveryNight
    } else if string_eq(s, &String::from_str("NoNight")) {
        ActionTime::NoNight
    } else if string_eq(s, &String::from_str("VariableNight")) {
        ActionTime::VariableNight
    } else if string_eq(s, &String::from_str("OnlyFirstNight")) {
        ActionTime::OnlyFirstNight
    } else if string_eq(s, &String::from_str("EveryNightNotFirst")) {
        ActionTime::EveryNightNotFirst
    } else if string_eq(s, &String::from_str("DeathNight")) {
        ActionTime::DeathNight
    } else {
        ActionTime::NoNight
    }
}

/// A record the loader accepts: five fields at least, and both wake
/// positions readable as numbers.
pub open spec fn record_valid(rec: Seq<Seq<char>>) -> bool {
    &&& rec.len() >= 5
    &&& spec_parse_i32(rec[2]) is Some
    &&& spec_parse_i32(rec[3]) is Some
}

/// The role definition a record describes.
pub open spec fn char_matches_record(c: Character, rec: Seq<Seq<char>>) -> bool {
    &&& c.name@ == rec[0]
    &&& c.char_type == spec_category_of(rec[1])
    &&& c.char_type_str@ == character_type_label(c.char_type)
    &&& alignment_consistent(c)
    &&& c.first_order_index == spec_parse_i32(rec[2])->0
    &&& c.order_index == spec_parse_i32(rec[3])->0
    &&& c.night_action == spec_action_of(rec[4])
    &&& c.decoy_character is None
}

/// The first position at or after `i` holding a record of this name.
pub open spec fn first_name_index_from(
    recs: Seq<Seq<Seq<char>>>,
    name: Seq<char>,
    i: int,
) -> Option<int>
    decreases recs.len() - i,
{
    if i < 0 || i >= recs.len() {
        None
    } else if recs[i][0] == name {
        Some(i)
    } else {
        first_name_index_from(recs, name, i + 1)
    }
}

/// The first position holding a record of this name.
pub open spec fn first_name_index(recs: Seq<Seq<Seq<char>>>, name: Seq<char>) -> Option<int> {
    first_name_index_from(recs, name, 0)
}

/// A record joins the catalog: it replaces the record of its name in
/// place, or comes last as a new name.
pub open spec fn upsert_record(acc: Seq<Seq<Seq<char>>>, rec: Seq<Seq<char>>) -> Seq<
    Seq<Seq<char>>,
> {
    match first_name_index(acc, rec[0]) {
        Some(i) => acc.update(i, rec),
        None => acc.push(rec),
    }
}

/// The records folded in order, one catalog entry per name.
pub open spec fn dedup_records(recs: Seq<Seq<Seq<char>>>) -> Seq<Seq<Seq<char>>>
    decreases recs.len(),
{
    if recs.len() == 0 {
        Seq::<Seq<Seq<char>>>::empty()
    } else {
        upsert_record(dedup_records(recs.drop_last()), recs.last())
    }
}

/// Why a catalog could not be loaded.
#[derive(Clone, Debug)]
pub enum LoadError {
    /// The reader of the csv crate rejected the text; its message.
    Csv(String),
    /// The record at this position has too few fields or an unreadable
    /// wake position.
    MalformedRecord(usize),
}

/// Builds a catalog from parsed records: each record becomes a role (the
/// alignment derived from its category), a repeated name replaces the
/// earlier role in place, and the first malformed record is reported
/// instead.
pub fn catalog_from_records(name: String, records: &Vec<Vec<String>>) -> (r: Result<
    GameType,
    LoadError,
>)
    ensures
        ({
            let recs = records.deep_view();
            match r {
                Ok(gt) => {
                    &&& forall|i: int| 0 <= i < recs.len() ==> record_valid(#[trigger] recs[i])
                    &&& gt.spec_name() == name@
                    &&& gt.spec_roles().len() == dedup_records(recs).len()
                    &&& forall|i: int|
                        0 <= i < gt.spec_roles().len() ==> char_matches_record(
                            #[trigger] gt.spec_roles()[i],
                            dedup_records(recs)[i],
                        )
                    &&& gt.wf()
                    &&& forall|i: int|
                        0 <= i < gt.spec_roles().len() ==> alignment_consistent(
                            #[trigger] gt.spec_roles()[i],
                        )
                },
                Err(e) => match e {
                    LoadError::MalformedRecord(i) => {
                        &&& i < recs.len()
                        &&& !record_valid(recs[i as int])
                        &&& forall|j: int| 0 <= j < i ==> record_valid(#[trigger] recs[j])
                    },
                    LoadError::Csv(_) => false,
                },
            }
        }),
{
    let n = records.len();
    let ghost recs = records.deep_view();
    let mut roles: Vec<Character> = Vec::new();
    let mut k: usize = 0;
    while k < n
        invariant
            k <= n,
            n == recs.len(),
            recs == records.deep_view(),
            forall|j: int| 0 <= j < k ==> record_valid(#[trigger] recs[j]),
            roles@.len() == dedup_records(recs.take(k as int)).len(),
            forall|i: int|
                0 <= i < roles@.len() ==> char_matches_record(
                    #[trigger] roles@[i],
                    dedup_records(recs.take(k as int))[i],
                ),
            unique_names(roles@),
        decreases n - k,
    {
        let ghost ded = dedup_records(recs.take(k as int));
        let rec = &records[k];
        proof {
            assert(recs[k as int] == records@[k as int].deep_view());
        }
        if rec.len() < 5 {
            return Err(LoadError::MalformedRecord(k));
        }
        let first_order_index = match parse_i32(rec[2].as_str()) {
            Some(v) => v,
            None => {
                proof {
                    assert(recs[k as int][2] == records@[k as int]@[2]@);
                }
                return Err(LoadError::MalformedRecord(k));
            },
        };
        let order_index = match parse_i32(rec[3].as_str()) {
            Some(v) => v,
            None => {
                proof {
                    assert(recs[k as int][3] == records@[k as int]@[3]@);
                }
                return Err(LoadError::MalformedRecord(k));
            },
        };
        proof {
            assert(recs[k as int][0] == records@[k as int]@[0]@);
            assert(recs[k as int][1] == records@[k as int]@[1]@);
            assert(recs[k as int][2] == records@[k as int]@[2]@);
            assert(recs[k as int][3] == records@[k as int]@[3]@);
            assert(recs[k as int][4] == records@[k as int]@[4]@);
        }
        let character = Character::new(
            rec[0].clone(),
            category_of(&rec[1]),
            first_order_index,
            order_index,
            action_of(&rec[4]),
        );
        proof {
            assert(char_matches_record(character, recs[k as int]));
        }
        // upsert by name: replace the role of this name, or append
        let found = find_role_by_name(&roles, &records[k][0]);
        proof {
            assert(records@[k as int]@[0]@ == recs[k as int][0]);
            assert(recs.take(k + 1).drop_last() =~= recs.take(k as int));
            assert(recs.take(k + 1).last() == recs[k as int]);
            assert(dedup_records(recs.take(k + 1)) == upsert_record(ded, recs[k as int]));
        }
        match found {
            Some(i) => {
                proof {
                    assert forall|j: int| 0 <= j < i implies ded[j][0] != recs[k as int][0] by {
                        assert(roles@[j].name@ == ded[j][0]);
                    }
                    assert(ded[i as int][0] == recs[k as int][0]) by {
                        assert(roles@[i as int].name@ == ded[i as int][0]);
                    }
                    lemma_first_name_at(ded, recs[k as int][0], i as int);
                }
                roles[i] = character;
            },
            None => {
                proof {
                    assert forall|j: int| 0 <= j < ded.len() implies (#[trigger] ded[j])[0]
                        != recs[k as int][0] by {
                        assert(roles@[j].name@ == ded[j][0]);
                    }
                    lemma_first_name_all_differ(ded, recs[k as int][0]);
                }
                roles.push(character);
            },
        }
        k = k + 1;
    }
    proof {
        assert(recs.take(n as int) =~= recs);
    }
    Ok(GameType::new(name, roles))
}

/// The first role of this exact name in the list, if any.
fn find_role_by_name(roles: &Vec<Character>, name: &String) -> (r: Option<usize>)
    ensures
        match r {
            Some(i) => {
                &&& i < roles@.len()
                &&& roles@[i as int].name@ == name@
                &&& forall|j: int| 0 <= j < i ==> (#[trigger] roles@[j]).name@ != name@
            },
            None => forall|j: int| 0 <= j < roles@.len() ==> (#[trigger] roles@[j]).name@ != name@,
        },
{
    let n = roles.len();
    let mut t: usize = 0;
    while t < n
        invariant
            t <= n,
            n == roles@.len(),
            forall|j: int| 0 <= j < t ==> (#[trigger] roles@[j]).name@ != name@,
        decreases n - t,
    {
        if string_eq(&roles[t].name, name) {
            return Some(t);
        }
        t = t + 1;
    }
    None
}

proof fn lemma_first_name_at(recs: Seq<Seq<Seq<char>>>, name: Seq<char>, i: int)
    requires
        0 <= i < recs.len(),
        recs[i][0] == name,
        forall|j: int| 0 <= j < i ==> (#[trigger] recs[j])[0] != name,
    ensures
        first_name_index(recs, name) == Some(i),
{
    lemma_first_name_at_from(recs, name, i, 0);
}

proof fn lemma_first_name_at_from(recs: Seq<Seq<Seq<char>>>, name: Seq<char>, i: int, t: int)
    requires
        0 <= t <= i < recs.len(),
        recs[i][0] == name,
        forall|j: int| t <= j < i ==> (#[trigger] recs[j])[0] != name,
    ensures
        first_name_index_from(recs, name, t) == Some(i),
    decreases i - t,
{
    if t < i {
        lemma_first_name_at_from(recs, name, i, t + 1);
    }
}

proof fn lemma_first_name_all_differ(recs: Seq<Seq<Seq<char>>>, name: Seq<char>)
    requires
        forall|j: int| 0 <= j < recs.len() ==> (#[trigger] recs[j])[0] != name,
    ensures
        first_name_index(recs, name) is None,
{
    lemma_first_name_all_differ_from(recs, name, 0);
}

proof fn lemma_first_name_all_differ_from(recs: Seq<Seq<Seq<char>>>, name: Seq<char>, t: int)
    requires
        0 <= t,
        forall|j: int| t <= j < recs.len() ==> (#[trigger] recs[j])[0] != name,
    ensures
        first_name_index_from(recs, name, t) is None,
    decreases recs.len() - t,
{
    if t < recs.len() {
        lemma_first_name_all_differ_from(recs, name, t + 1);
    }
}

/// Loads a catalog from tabular text: the reader of the csv crate parses
/// the records, and `catalog_from_records` builds the catalog from them.
pub fn load_catalog(name: String, text: &str) -> (r: Result<GameType, LoadError>)
    ensures
        ({
            let recs = csv_records_of(text@);
            match r {
                Ok(gt) => {
                    &&& csv_ok_of(text@)
                    &&& forall|i: int| 0 <= i < recs.len() ==> record_valid(#[trigger] recs[i])
                    &&& gt.spec_name() == name@
                    &&& gt.spec_roles().len() == dedup_records(recs).len()
                    &&& forall|i: int|
                        0 <= i < gt.spec_roles().len() ==> char_matches_record(
                            #[trigger] gt.spec_roles()[i],
                            dedup_records(recs)[i],
                        )
                    &&& gt.wf()
                },
                Err(e) => match e {
                    LoadError::MalformedRecord(i) => {
                        &&& csv_ok_of(text@)
                        &&& i < recs.len()
                        &&& !record_valid(recs[i as int])
                        &&& forall|j: int| 0 <= j < i ==> record_valid(#[trigger] recs[j])
                    },
                    LoadError::Csv(_) => !csv_ok_of(text@),
                },
            }
        }),
{
    let records = match csv_parse(text) {
        Ok(rs) => rs,
        Err(msg) => {
            return Err(LoadError::Csv(msg));
        },
    };
    catalog_from_records(name, &records)
}

} // verus!
