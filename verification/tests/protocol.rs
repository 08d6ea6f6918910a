use botc_bot::games::{ActionTime, Character, CharacterType, GameType};
use botc_bot::session::{
    AnswerOutcome, AskOutcome, BloodGuild, DmOutcome, EditOutcome, GameState, MemberInfo,
    RolesOutcome, Time,
};

fn trouble_brewing() -> GameType {
    GameType::new(
        String::from("Trouble Brewing"),
        vec![
            Character::new(
                String::from("Imp"),
                CharacterType::Demon,
                1,
                1,
                ActionTime::DeathNight,
            ),
            Character::new(
                String::from("Washerwoman"),
                CharacterType::Townsfolk,
                2,
                -1,
                ActionTime::OnlyFirstNight,
            ),
        ],
    )
}

fn member(id: u64, name: &str) -> MemberInfo {
    MemberInfo {
        user_id: id,
        username: String::from(name),
        nick: None,
        is_spectator: false,
    }
}

fn session_with_two_players() -> BloodGuild {
    let mut g = BloodGuild::new(1, 10, trouble_brewing());
    assert_eq!(g.begin_or_continue("roles"), RolesOutcome::Discovery);
    assert_eq!(g.game_state, GameState::SettingRoles);
    let members = vec![member(100, "alice"), member(101, "bob")];
    g.register_participants(&members, 999);
    assert_eq!(g.roles.len(), 2);
    g
}

#[test]
fn new_session_starts_setting_up_at_day_zero() {
    let g = BloodGuild::new(7, 42, trouble_brewing());
    assert_eq!(g.id, 7);
    assert_eq!(g.storyteller_channel, 42);
    assert_eq!(g.game_state, GameState::SettingUp);
    assert_eq!(g.time, Time::Day);
    assert_eq!(g.day_index, 0);
    assert!(g.roles.is_empty());
}

#[test]
fn time_labels_and_status_line() {
    assert_eq!(Time::Day.as_str(), "Day");
    assert_eq!(Time::Night.as_str(), "Night");
    let mut g = BloodGuild::new(1, 10, trouble_brewing());
    assert_eq!(g.get_time_str(), "Day: 0 | Time: Day");
    g.advance_to_night();
    assert_eq!(g.get_time_str(), "Day: 1 | Time: Night");
    g.advance_to_day();
    assert_eq!(g.get_time_str(), "Day: 1 | Time: Day");
}

#[test]
fn begin_roles_rejected_while_playing() {
    let mut g = BloodGuild::new(1, 10, trouble_brewing());
    g.game_state = GameState::Playing;
    assert_eq!(g.begin_or_continue("roles"), RolesOutcome::InGame);
    assert_eq!(g.game_state, GameState::Playing);
    g.game_state = GameState::Nothing;
    assert_eq!(g.begin_or_continue("roles"), RolesOutcome::NotActive);
}

#[test]
fn continuation_for_any_other_text() {
    let mut g = BloodGuild::new(1, 10, trouble_brewing());
    assert_eq!(g.begin_or_continue("imp"), RolesOutcome::Continue);
    assert_eq!(g.game_state, GameState::SettingRoles);
    assert_eq!(g.begin_or_continue("roles"), RolesOutcome::Discovery);
}

#[test]
fn discovery_skips_storyteller_spectators_and_known_members() {
    let mut g = BloodGuild::new(1, 10, trouble_brewing());
    g.begin_or_continue("roles");
    let mut spectator = member(102, "carol");
    spectator.is_spectator = true;
    let members = vec![
        member(999, "the-storyteller"),
        member(100, "alice"),
        spectator,
        member(100, "alice-again"),
    ];
    g.register_participants(&members, 999);
    assert_eq!(g.roles.len(), 1);
    assert_eq!(g.roles[0].user_id, 100);
    assert_eq!(g.roles[0].username, "alice");
    // a second discovery adds only new members
    g.register_participants(&vec![member(100, "alice"), member(101, "bob")], 999);
    assert_eq!(g.roles.len(), 2);
    assert_eq!(g.roles[1].user_id, 101);
}

#[test]
fn scenario_two_answers_fill_both_slots() {
    let mut g = session_with_two_players();
    match g.ask_step() {
        AskOutcome::PromptRole(name) => assert_eq!(name, "alice"),
        _ => panic!("expected a role prompt"),
    }
    assert_eq!(g.apply_answer("imp"), AnswerOutcome::AssignedRole(0));
    match g.ask_step() {
        AskOutcome::PromptRole(name) => assert_eq!(name, "bob"),
        _ => panic!("expected a role prompt"),
    }
    assert_eq!(g.apply_answer("washerwoman"), AnswerOutcome::AssignedRole(1));
    // every slot is filled: the protocol reports the summary and leaves
    // role collection
    match g.ask_step() {
        AskOutcome::Summary(lines) => {
            assert_eq!(lines.len(), 2);
            assert_eq!(lines[0], (String::from("alice"), String::from("Imp")));
            assert_eq!(
                lines[1],
                (String::from("bob"), String::from("Washerwoman"))
            );
        }
        _ => panic!("expected the summary"),
    }
    assert_eq!(g.game_state, GameState::SettingUp);
}

#[test]
fn empty_catalog_matches_nothing() {
    let empty = GameType::new(String::from("Empty"), Vec::new());
    assert!(empty.find_character("imp").is_none());
    let mut g = BloodGuild::new(1, 10, empty);
    g.begin_or_continue("roles");
    g.register_participants(&vec![member(100, "alice")], 999);
    assert_eq!(g.apply_answer("imp"), AnswerOutcome::NoMatch);
    assert!(g.roles[0].role.is_none());
}

#[test]
fn unmatched_answer_changes_nothing() {
    let mut g = session_with_two_players();
    assert_eq!(g.apply_answer("no such role"), AnswerOutcome::NoMatch);
    assert!(g.roles[0].role.is_none());
    assert_eq!(g.game_state, GameState::SettingRoles);
}

#[test]
fn answer_with_no_pending_slot_changes_nothing() {
    let mut g = session_with_two_players();
    g.apply_answer("imp");
    g.apply_answer("washerwoman");
    assert_eq!(g.apply_answer("imp"), AnswerOutcome::NoPending);
}

#[test]
fn nickname_preferred_in_prompts() {
    let mut g = BloodGuild::new(1, 10, trouble_brewing());
    g.begin_or_continue("roles");
    let mut m = member(100, "alice");
    m.nick = Some(String::from("Allie"));
    g.register_participants(&vec![m], 999);
    match g.ask_step() {
        AskOutcome::PromptRole(name) => assert_eq!(name, "Allie"),
        _ => panic!("expected a role prompt"),
    }
}

#[test]
fn decoy_role_needs_a_second_answer() {
    let catalog = GameType::new(
        String::from("Custom"),
        vec![
            Character::new(
                String::from("Drunk"),
                CharacterType::Decoy,
                -1,
                -1,
                ActionTime::NoNight,
            ),
            Character::new(
                String::from("Imp"),
                CharacterType::Demon,
                1,
                1,
                ActionTime::DeathNight,
            ),
        ],
    );
    let mut g = BloodGuild::new(1, 10, catalog);
    g.begin_or_continue("roles");
    g.register_participants(&vec![member(100, "alice")], 999);
    assert_eq!(g.apply_answer("drunk"), AnswerOutcome::AssignedRole(0));
    // the slot holds a Decoy role without its nested layer: still pending
    match g.ask_step() {
        AskOutcome::PromptDecoy(name) => assert_eq!(name, "alice"),
        _ => panic!("expected a decoy prompt"),
    }
    assert_eq!(g.game_state, GameState::SettingRoles);
    assert_eq!(g.apply_answer("imp"), AnswerOutcome::AssignedDecoy(0));
    match g.ask_step() {
        AskOutcome::Summary(lines) => {
            assert_eq!(lines[0].1, "Drunk");
        }
        _ => panic!("expected the summary"),
    }
    // the storyteller's summary names the base role; the direct message
    // reveals the decoy layer instead
    match g.distribute() {
        DmOutcome::Sendable(ps) => {
            assert_eq!(ps.len(), 1);
            assert_eq!(ps[0].role_name, "Imp");
            assert_eq!(ps[0].category_label, "Demon");
        }
        _ => panic!("expected payloads"),
    }
    assert_eq!(g.game_state, GameState::Playing);
}

#[test]
fn distribute_requires_complete_slots() {
    let mut g = session_with_two_players();
    g.game_state = GameState::SettingUp;
    match g.distribute() {
        DmOutcome::Incomplete => {}
        _ => panic!("expected Incomplete"),
    }
    assert_eq!(g.game_state, GameState::SettingUp);

    let mut empty = BloodGuild::new(1, 10, trouble_brewing());
    match empty.distribute() {
        DmOutcome::NoRoles => {}
        _ => panic!("expected NoRoles"),
    }
    assert_eq!(empty.game_state, GameState::SettingUp);

    let mut playing = BloodGuild::new(1, 10, trouble_brewing());
    playing.game_state = GameState::Playing;
    match playing.distribute() {
        DmOutcome::NotSettingUp => {}
        _ => panic!("expected NotSettingUp"),
    }
    assert_eq!(playing.game_state, GameState::Playing);
}

#[test]
fn distribute_sends_each_assigned_role() {
    let mut g = session_with_two_players();
    g.apply_answer("imp");
    g.apply_answer("washerwoman");
    g.ask_step();
    match g.distribute() {
        DmOutcome::Sendable(ps) => {
            assert_eq!(ps.len(), 2);
            assert_eq!(ps[0].user_id, 100);
            assert_eq!(ps[0].username, "alice");
            assert_eq!(ps[0].role_name, "Imp");
            assert_eq!(ps[0].category_label, "Demon");
            assert_eq!(ps[1].user_id, 101);
            assert_eq!(ps[1].role_name, "Washerwoman");
        }
        _ => panic!("expected payloads"),
    }
    assert_eq!(g.game_state, GameState::Playing);
}

#[test]
fn edit_command_argument_handling() {
    let mut g = session_with_two_players();
    g.apply_answer("imp");
    g.apply_answer("washerwoman");
    g.ask_step();
    assert_eq!(g.edit_command("edit"), EditOutcome::Ignored);
    assert_eq!(g.edit_command("edit two"), EditOutcome::NoNumber);
    assert_eq!(g.edit_command("edit 0"), EditOutcome::NoNumber);
    assert_eq!(g.edit_command("edit 3"), EditOutcome::OutOfRange);
    assert_eq!(g.game_state, GameState::SettingUp);
    assert_eq!(g.edit_command("edit 2"), EditOutcome::Edited(1));
    assert_eq!(g.game_state, GameState::SettingRoles);
    assert!(g.roles[1].role.is_none());
    assert!(g.roles[0].role.is_some());
}

#[test]
fn edit_then_same_answer_restores_assignment() {
    let mut g = session_with_two_players();
    g.apply_answer("imp");
    g.apply_answer("washerwoman");
    g.ask_step();
    assert_eq!(g.edit_command("edit 1"), EditOutcome::Edited(0));
    assert_eq!(g.apply_answer("Imp"), AnswerOutcome::AssignedRole(0));
    let restored = g.roles[0].role.as_ref().expect("role restored");
    assert_eq!(restored.name, "Imp");
    assert_eq!(restored.char_type, CharacterType::Demon);
    assert_eq!(restored.first_order_index, 1);
    assert_eq!(restored.order_index, 1);
    match g.ask_step() {
        AskOutcome::Summary(lines) => {
            assert_eq!(lines[0], (String::from("alice"), String::from("Imp")))
        }
        _ => panic!("expected the summary"),
    }
}

#[test]
fn day_counter_advances_only_from_day() {
    let mut g = BloodGuild::new(1, 10, trouble_brewing());
    g.advance_to_night();
    assert_eq!(g.day_index, 1);
    assert_eq!(g.time, Time::Night);
    // a second "night" while already at night keeps the counter
    g.advance_to_night();
    assert_eq!(g.day_index, 1);
    g.advance_to_day();
    assert_eq!(g.time, Time::Day);
    assert_eq!(g.day_index, 1);
    g.advance_to_night();
    assert_eq!(g.day_index, 2);
}
