use botc_bot::games::{ActionTime, Alignment, Character, CharacterType, GameType};

fn imp() -> Character {
    Character::new(
        String::from("Imp"),
        CharacterType::Demon,
        1,
        1,
        ActionTime::DeathNight,
    )
}

fn washerwoman() -> Character {
    Character::new(
        String::from("Washerwoman"),
        CharacterType::Townsfolk,
        2,
        -1,
        ActionTime::OnlyFirstNight,
    )
}

#[test]
fn alignment_is_evil_iff_minion_or_demon() {
    let cases = vec![
        (CharacterType::Townsfolk, Alignment::Good),
        (CharacterType::Outsider, Alignment::Good),
        (CharacterType::Minion, Alignment::Evil),
        (CharacterType::Demon, Alignment::Evil),
        (CharacterType::Traveler, Alignment::Good),
        (CharacterType::Fabled, Alignment::Good),
        (CharacterType::Other, Alignment::Good),
        (CharacterType::Decoy, Alignment::Good),
    ];
    for (char_type, expected) in cases {
        let c = Character::new(String::from("X"), char_type, 1, 1, ActionTime::NoNight);
        assert_eq!(c.alignment, expected);
    }
}

#[test]
fn action_time_labels() {
    assert_eq!(ActionTime::OnlyFirstNight.as_str(), "Only the first night");
    assert_eq!(ActionTime::EveryNight.as_str(), "Every night");
    assert_eq!(
        ActionTime::EveryNightNotFirst.as_str(),
        "Every night but the first"
    );
    assert_eq!(ActionTime::DeathNight.as_str(), "Only their death night");
    assert_eq!(ActionTime::VariableNight.as_str(), "Some nights");
    assert_eq!(ActionTime::NoNight.as_str(), "Never");
}

#[test]
fn character_type_labels() {
    assert_eq!(CharacterType::Townsfolk.as_str(), "Townsfolk");
    assert_eq!(CharacterType::Outsider.as_str(), "Outsider");
    assert_eq!(CharacterType::Minion.as_str(), "Minion");
    assert_eq!(CharacterType::Demon.as_str(), "Demon");
    assert_eq!(CharacterType::Traveler.as_str(), "Traveler");
    assert_eq!(CharacterType::Fabled.as_str(), "Fabled");
    assert_eq!(CharacterType::Other.as_str(), "Other");
    assert_eq!(CharacterType::Decoy.as_str(), "Decoy");
}

#[test]
fn new_character_fields() {
    let c = imp();
    assert_eq!(c.name, "Imp");
    assert_eq!(c.char_type, CharacterType::Demon);
    assert_eq!(c.char_type_str, "Demon");
    assert_eq!(c.first_order_index, 1);
    assert_eq!(c.order_index, 1);
    assert_eq!(c.night_action, ActionTime::DeathNight);
    assert!(c.decoy_character.is_none());
}

#[test]
fn add_decoy_keeps_base_fields() {
    let base = Character::new(
        String::from("Drunk"),
        CharacterType::Decoy,
        -1,
        -1,
        ActionTime::NoNight,
    );
    let decoy_src = imp();
    let d = botc_bot::games::DecoyCharacter {
        name: decoy_src.name.clone(),
        alignment: decoy_src.alignment,
        char_type: decoy_src.char_type,
        char_type_str: decoy_src.char_type_str.clone(),
    };
    let combined = Character::add_decoy(base, d);
    assert_eq!(combined.name, "Drunk");
    assert_eq!(combined.char_type, CharacterType::Decoy);
    let inner = combined.decoy_character.expect("decoy layer set");
    assert_eq!(inner.name, "Imp");
    assert_eq!(inner.char_type_str, "Demon");
}

#[test]
fn get_string_matches_padded_format() {
    let c = imp();
    assert_eq!(
        c.get_string(),
        format!(
            "{: <18}| {: <15}| {: <25}",
            "Imp", "Demon", "Only their death night"
        )
    );
    let long = Character::new(
        String::from("An Extremely Long Role Name"),
        CharacterType::Townsfolk,
        3,
        3,
        ActionTime::EveryNight,
    );
    assert_eq!(
        long.get_string(),
        format!(
            "{: <18}| {: <15}| {: <25}",
            "An Extremely Long Role Name", "Townsfolk", "Every night"
        )
    );
}

#[test]
fn catalog_lookup_and_listing() {
    let gt = GameType::new(
        String::from("Trouble Brewing"),
        vec![imp(), washerwoman()],
    );
    assert_eq!(gt.get_name(), "Trouble Brewing");
    let all = gt.get_all_characters();
    assert_eq!(all.len(), 2);
    assert_eq!(all[0].name, "Imp");
    assert_eq!(all[1].name, "Washerwoman");
    let w = gt.get_character(String::from("Washerwoman"));
    assert_eq!(w.name, "Washerwoman");
    assert_eq!(w.first_order_index, 2);
    assert_eq!(w.order_index, -1);
}

#[test]
fn find_character_is_case_insensitive_substring() {
    let gt = GameType::new(
        String::from("Trouble Brewing"),
        vec![imp(), washerwoman()],
    );
    assert_eq!(gt.find_character("imp").expect("match").name, "Imp");
    assert_eq!(gt.find_character("IMP").expect("match").name, "Imp");
    // an uppercase query against a differently-cased name: both sides are
    // lowercased before the substring test
    assert_eq!(
        gt.find_character("ASHERWOMAN").expect("match").name,
        "Washerwoman"
    );
    assert!(gt.find_character("zzz").is_none());
    assert!(gt.find_character("impx").is_none());
}

#[test]
fn duplicate_copies_name_and_roles() {
    let gt = GameType::new(
        String::from("Trouble Brewing"),
        vec![imp(), washerwoman()],
    );
    let copy = gt.duplicate();
    assert_eq!(copy.get_name(), "Trouble Brewing");
    let all = copy.get_all_characters();
    assert_eq!(all.len(), 2);
    assert_eq!(all[0].name, "Imp");
    assert_eq!(all[1].name, "Washerwoman");
}

#[test]
fn characters_by_category_orders_like_the_labels() {
    let chef = Character::new(
        String::from("Chef"),
        CharacterType::Townsfolk,
        3,
        -1,
        ActionTime::OnlyFirstNight,
    );
    let poisoner = Character::new(
        String::from("Poisoner"),
        CharacterType::Minion,
        4,
        4,
        ActionTime::EveryNight,
    );
    let gt = GameType::new(
        String::from("Trouble Brewing"),
        vec![washerwoman(), imp(), chef, poisoner],
    );
    let by_category = gt.characters_by_category();
    let names: Vec<&str> = by_category.iter().map(|c| c.name.as_str()).collect();
    // ascending by category label, ties in catalog order
    assert_eq!(names, vec!["Imp", "Poisoner", "Washerwoman", "Chef"]);
    // the same order an alphabetical sort of the labels gives
    let mut by_label = gt.get_all_characters();
    by_label.sort_by_key(|c| c.char_type_str.clone());
    let label_names: Vec<&str> = by_label.iter().map(|c| c.name.as_str()).collect();
    assert_eq!(names, label_names);
}

#[test]
fn ambiguous_query_resolves_to_first_in_catalog_order() {
    let washer = washerwoman();
    let spiderman = Character::new(
        String::from("Spiderman"),
        CharacterType::Townsfolk,
        5,
        5,
        ActionTime::EveryNight,
    );
    let gt = GameType::new(
        String::from("Custom"),
        vec![washer.clone(), spiderman.clone()],
    );
    // "man" occurs in both names; the first in catalog order wins
    assert_eq!(gt.find_character("man").expect("match").name, "Washerwoman");
    let reversed = GameType::new(String::from("Custom"), vec![spiderman, washer]);
    assert_eq!(
        reversed.find_character("man").expect("match").name,
        "Spiderman"
    );
}
