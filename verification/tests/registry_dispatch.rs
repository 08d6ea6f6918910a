use botc_bot::dispatch::{any_name_matches, parse_command, route_message, Command, Route};
use botc_bot::games::{ActionTime, Character, CharacterType, GameType};
use botc_bot::registry::GlobalBloodState;
use botc_bot::session::{BloodGuild, GameState};

fn catalog(name: &str) -> GameType {
    GameType::new(
        String::from(name),
        vec![Character::new(
            String::from("Imp"),
            CharacterType::Demon,
            1,
            1,
            ActionTime::DeathNight,
        )],
    )
}

#[test]
fn keywords_map_to_commands() {
    assert_eq!(parse_command("roles"), Command::Roles);
    assert_eq!(parse_command("dm"), Command::Dm);
    assert_eq!(parse_command("night"), Command::Night);
    assert_eq!(parse_command("sleep"), Command::Night);
    assert_eq!(parse_command("day"), Command::Day);
    assert_eq!(parse_command("wake"), Command::Day);
    assert_eq!(parse_command("edit 2"), Command::Edit);
    assert_eq!(parse_command("bogus"), Command::Unknown);
    assert_eq!(parse_command("nightx"), Command::Unknown);
    // only the first word counts
    assert_eq!(parse_command("night anything else"), Command::Night);
}

#[test]
fn routing_by_channel_state_and_content() {
    // wrong channel: ignored
    assert_eq!(
        route_message(GameState::SettingUp, 10, 11, "night"),
        Route::Ignore
    );
    // collecting roles: every text goes to the protocol
    assert_eq!(
        route_message(GameState::SettingRoles, 10, 10, "night"),
        Route::RolesFlow
    );
    // otherwise the first word picks the command
    assert_eq!(
        route_message(GameState::SettingUp, 10, 10, "edit 1"),
        Route::Dispatch(Command::Edit)
    );
    assert_eq!(
        route_message(GameState::Playing, 10, 10, "wake"),
        Route::Dispatch(Command::Day)
    );
    assert_eq!(
        route_message(GameState::SettingUp, 10, 10, ""),
        Route::Ignore
    );
    assert_eq!(
        route_message(GameState::SettingUp, 10, 10, "hello there"),
        Route::Dispatch(Command::Unknown)
    );
}

#[test]
fn role_membership_matching() {
    let roles = vec![String::from("Mods"), String::from("The Storytellers")];
    assert!(any_name_matches(&roles, "storytell"));
    assert!(!any_name_matches(&roles, "spectator"));
    assert!(!any_name_matches(&Vec::new(), "storytell"));
}

#[test]
fn registry_upsert_get_remove() {
    let mut reg = GlobalBloodState::new();
    assert_eq!(reg.session_count(), 0);
    assert!(!reg.contains(1));
    assert!(reg.get(1).is_none());

    reg.upsert(BloodGuild::new(1, 10, catalog("A")));
    reg.upsert(BloodGuild::new(2, 20, catalog("B")));
    assert_eq!(reg.session_count(), 2);
    assert!(reg.contains(1));
    let g1 = reg.get(1).expect("session 1");
    assert_eq!(g1.storyteller_channel, 10);

    // upsert replaces the session of the same community
    let mut replacement = BloodGuild::new(1, 99, catalog("A"));
    replacement.game_state = GameState::Playing;
    reg.upsert(replacement);
    assert_eq!(reg.session_count(), 2);
    assert_eq!(reg.get(1).expect("session 1").storyteller_channel, 99);

    let left = reg.remove(1);
    assert_eq!(left, 1);
    assert!(reg.get(1).is_none());
    // removing an absent session is harmless
    assert_eq!(reg.remove(1), 1);
}

#[test]
fn registry_holds_catalogs_in_load_order() {
    let mut reg = GlobalBloodState::new();
    assert_eq!(reg.game_count(), 0);
    reg.add_game(catalog("A"));
    reg.add_game(catalog("B"));
    assert_eq!(reg.game_count(), 2);
    assert_eq!(reg.game_at(0).get_name(), "A");
    assert_eq!(reg.game_at(1).get_name(), "B");
}
