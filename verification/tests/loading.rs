use botc_bot::games::{ActionTime, Alignment, CharacterType};
use botc_bot::loader::{catalog_from_records, load_catalog, LoadError};

fn record(fields: &[&str]) -> Vec<String> {
    fields.iter().map(|f| String::from(*f)).collect()
}

#[test]
fn loads_a_catalog_from_tabular_text() {
    let text = "Name,Type,First,Other,Action\n\
                Imp,Demon,1,1,DeathNight\n\
                Washerwoman,Townsfolk,2,-1,OnlyFirstNight\n";
    let gt = load_catalog(String::from("Trouble Brewing"), text).expect("well-formed text");
    assert_eq!(gt.get_name(), "Trouble Brewing");
    let all = gt.get_all_characters();
    assert_eq!(all.len(), 2);
    assert_eq!(all[0].name, "Imp");
    assert_eq!(all[0].char_type, CharacterType::Demon);
    assert_eq!(all[0].alignment, Alignment::Evil);
    assert_eq!(all[0].first_order_index, 1);
    assert_eq!(all[0].order_index, 1);
    assert_eq!(all[0].night_action, ActionTime::DeathNight);
    assert_eq!(all[1].name, "Washerwoman");
    assert_eq!(all[1].alignment, Alignment::Good);
    assert_eq!(all[1].first_order_index, 2);
    assert_eq!(all[1].order_index, -1);
    assert_eq!(all[1].night_action, ActionTime::OnlyFirstNight);
}

#[test]
fn unknown_keywords_fall_back_to_defaults() {
    let records = vec![record(&["Oddball", "Wizard", "4", "5", "Sometimes"])];
    let gt = catalog_from_records(String::from("Custom"), &records).expect("valid record");
    let all = gt.get_all_characters();
    assert_eq!(all[0].char_type, CharacterType::Other);
    assert_eq!(all[0].char_type_str, "Other");
    assert_eq!(all[0].night_action, ActionTime::NoNight);
    assert_eq!(all[0].alignment, Alignment::Good);
}

#[test]
fn malformed_records_are_rejected_with_their_position() {
    let short = vec![record(&["Imp", "Demon", "1", "1", "DeathNight"]), record(&["Odd"])];
    match catalog_from_records(String::from("X"), &short) {
        Err(LoadError::MalformedRecord(i)) => assert_eq!(i, 1),
        _ => panic!("expected a malformed record"),
    }
    let bad_number = vec![record(&["Imp", "Demon", "one", "1", "DeathNight"])];
    match catalog_from_records(String::from("X"), &bad_number) {
        Err(LoadError::MalformedRecord(i)) => assert_eq!(i, 0),
        _ => panic!("expected a malformed record"),
    }
}

#[test]
fn malformed_text_reports_the_position_after_the_header() {
    let text = "Name,Type,First,Other,Action\n\
                Imp,Demon,1,one,DeathNight\n";
    match load_catalog(String::from("X"), text) {
        Err(LoadError::MalformedRecord(i)) => assert_eq!(i, 0),
        _ => panic!("expected a malformed record"),
    }
}

#[test]
fn a_repeated_name_replaces_the_earlier_role() {
    let records = vec![
        record(&["Imp", "Demon", "1", "1", "DeathNight"]),
        record(&["Monk", "Townsfolk", "-1", "3", "EveryNightNotFirst"]),
        record(&["Imp", "Demon", "7", "7", "EveryNight"]),
    ];
    let gt = catalog_from_records(String::from("X"), &records).expect("valid records");
    let all = gt.get_all_characters();
    assert_eq!(all.len(), 2);
    // the replacement keeps the earlier entry's place in the catalog
    assert_eq!(all[0].name, "Imp");
    assert_eq!(all[0].first_order_index, 7);
    assert_eq!(all[0].night_action, ActionTime::EveryNight);
    assert_eq!(all[1].name, "Monk");
}

#[test]
fn text_the_reader_rejects_is_a_csv_error() {
    // a record with more fields than the header is rejected by the reader
    // itself, before any record reaches the catalog logic
    let text = "Name,Type\n\
                Imp,Demon,1,1,DeathNight\n";
    match load_catalog(String::from("X"), text) {
        Err(LoadError::Csv(msg)) => assert!(!msg.is_empty()),
        _ => panic!("expected the reader's error"),
    }
}

#[test]
fn quoted_fields_parse_as_csv() {
    let text = "Name,Type,First,Other,Action\n\
                \"Scarlet, Woman\",Minion,3,-1,VariableNight\n";
    let gt = load_catalog(String::from("X"), text).expect("well-formed text");
    let all = gt.get_all_characters();
    assert_eq!(all[0].name, "Scarlet, Woman");
    assert_eq!(all[0].char_type, CharacterType::Minion);
    assert_eq!(all[0].alignment, Alignment::Evil);
}
