//! Command routing: which operation an inbound line of text asks for, and
//! the role-membership test that gates who may drive a session.

use vstd::prelude::*;

use crate::session::GameState;
use crate::text::{
    contains_ci, lemma_split_len, lower_of, seq_contains_sub, spec_split, split_spaces, string_eq,
};

verus! {

/// The operations the dispatcher knows. `night`/`sleep` and `day`/`wake`
/// are synonyms.
#[derive(Clone, Copy, PartialEq, Eq, Structural, Debug)]
pub enum Command {
    Roles,
    Dm,
    Night,
    Day,
    Edit,
    Unknown,
}

/// The command a keyword names.
pub open spec fn spec_command(tok: Seq<char>) -> Command {
    if tok == "roles"@ {
        Command::Roles
    } else if tok == "dm"@ {
        Command::Dm
    } else if tok == "night"@ || tok == "sleep"@ {
        Command::Night
    } else if tok == "day"@ || tok == "wake"@ {
        Command::Day
    } else if tok == "edit"@ {
        Command::Edit
    } else {
        Command::Unknown
    }
}

/// Reads the command of a line: its first space-separated word.
pub fn parse_command(content: &str) -> (r: Command)
    ensures
        r == spec_command(spec_split(content@, ' ')[0]),
{
    let parts = split_spaces(content);
    proof {
        lemma_split_len(content@, ' ');
        assert(parts@[0].deep_view() == parts.deep_view()[0]);
    }
    let t = &parts[0];
    if string_eq(t, &String::from_str("roles")) {
        Command::Roles
    } else if string_eq(t, &String::from_str("dm")) {
        Command::Dm
    } else if string_eq(t, &String::from_str("night")) {
        Command::Night
    } else if string_eq(t, &String::from_str("sleep")) {
        Command::Night
    } else if string_eq(t, &String::from_str("day")) {
        Command::Day
    } else if string_eq(t, &String::from_str("wake")) {
        Command::Day
    } else if string_eq(t, &String::from_str("edit")) {
        Command::Edit
    } else {
        Command::Unknown
    }
}

/// Where an inbound message goes.
#[derive(Clone, Copy, PartialEq, Eq, Structural, Debug)]
pub enum Route {
    /// Wrong channel, or nothing to do.
    Ignore,
    /// Role collection is running: the text belongs to the protocol,
    /// whatever it says.
    RolesFlow,
    /// Dispatch this command.
    Dispatch(Command),
}

/// The routing rule for a message on a session's community: only the bound
/// channel is listened to; while roles are being collected every text goes
/// to the protocol; otherwise the first word picks the command, and an
/// empty line does nothing.
pub open spec fn spec_route(
    state: GameState,
    bound_channel: u64,
    msg_channel: u64,
    content: Seq<char>,
) -> Route {
    if msg_channel != bound_channel {
        Route::Ignore
    } else if state == GameState::SettingRoles {
        Route::RolesFlow
    } else if content.len() == 0 {
        Route::Ignore
    } else {
        Route::Dispatch(spec_command(spec_split(content, ' ')[0]))
    }
}

/// Routes one inbound message by the session's state and bound channel.
pub fn route_message(
    state: GameState,
    bound_channel: u64,
    msg_channel: u64,
    content: &str,
) -> (r: Route)
    ensures
        r == spec_route(state, bound_channel, msg_channel, content@),
{
    if msg_channel != bound_channel {
        return Route::Ignore;
    }
    if state == GameState::SettingRoles {
        return Route::RolesFlow;
    }
    if content.is_empty() {
        return Route::Ignore;
    }
    Route::Dispatch(parse_command(content))
}

/// Some name of the list contains the key, compared in lowercase: the rule
/// by which a member's role memberships grant the storyteller (or mark the
/// spectator).
pub open spec fn spec_any_name_matches(names: Seq<Seq<char>>, key: Seq<char>) -> bool {
    exists|i: int|
        0 <= i < names.len() && seq_contains_sub(lower_of(#[trigger] names[i]), lower_of(key))
}

/// Whether any of the names contains the key, case-insensitively.
pub fn any_name_matches(names: &Vec<String>, key: &str) -> (r: bool)
    ensures
        r == spec_any_name_matches(names.deep_view(), key@),
{
    let n = names.len();
    let mut k: usize = 0;
    while k < n
        invariant
            k <= n,
            n == names@.len(),
            forall|i: int|
                0 <= i < k ==> !seq_contains_sub(
                    lower_of(#[trigger] names.deep_view()[i]),
                    lower_of(key@),
                ),
        decreases n - k,
    {
        if contains_ci(names[k].as_str(), key) {
            proof {
                assert(names.deep_view()[k as int] == names@[k as int]@);
            }
            return true;
        }
        k = k + 1;
    }
    false
}

} // verus!
