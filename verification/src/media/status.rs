//! The names of the playback states.
use vstd::prelude::*;

verus! {

/// What the player is doing.
#[derive(Debug, Clone, Copy, PartialEq, Eq, Structural)]
pub enum PlaybackStatus {
    Playing,
    Paused,
    Stopped,
}

/// The state that `name` stands for, if it stands for one.
pub open spec fn status_named(name: Seq<char>) -> Option<PlaybackStatus> {
    if name == "playing"@ {
        Some(PlaybackStatus::Playing)
    } else if name == "paused"@ {
        Some(PlaybackStatus::Paused)
    } else if name == "stopped"@ {
        Some(PlaybackStatus::Stopped)
    } else {
        None
    }
}

/// Looks the state up by its name.
pub fn parse_status(name: &String) -> (r: Option<PlaybackStatus>)
    ensures
        r == status_named(name@),
{
    if *name == "playing".to_owned() {
        Some(PlaybackStatus::Playing)
    } else if *name == "paused".to_owned() {
        Some(PlaybackStatus::Paused)
    } else if *name == "stopped".to_owned() {
        Some(PlaybackStatus::Stopped)
    } else {
        None
    }
}

/// The three names stand for three different states.
pub proof fn names_are_distinct()
    ensures
        status_named("playing"@) == Some(PlaybackStatus::Playing),
        status_named("paused"@) == Some(PlaybackStatus::Paused),
        status_named("stopped"@) == Some(PlaybackStatus::Stopped),
{
    reveal_strlit("playing");
    reveal_strlit("paused");
    reveal_strlit("stopped");
    assert("paused"@.len() != "playing"@.len());
    assert("stopped"@[0] != "playing"@[0]);
    assert("stopped"@.len() != "paused"@.len());
}

/// No other name stands for a state, and no state has two names.
pub proof fn only_three_names(name: Seq<char>)
    ensures
        match status_named(name) {
            Some(PlaybackStatus::Playing) => name == "playing"@,
            Some(PlaybackStatus::Paused) => name == "paused"@,
            Some(PlaybackStatus::Stopped) => name == "stopped"@,
            None => name != "playing"@ && name != "paused"@ && name != "stopped"@,
        },
{
}

} // verus!
