use orpheus_native::media::nowplaying;
use orpheus_native::media::nowplaying::{Command, InfoEntry, NowPlayingMetadata};
use orpheus_native::media::plan::perform_all;
use orpheus_native::media::smtc;
use orpheus_native::media::smtc::{
    Button, DisplayCall, MediaSessionEvents, SetupCall, SmtcMetadata, TimelineCall,
};
use orpheus_native::media::status::{parse_status, PlaybackStatus};

fn session() -> smtc::MediaSession<&'static str> {
    smtc::MediaSession::new().0
}

#[test]
fn calls_stop_at_the_first_failure() {
    let perform = |made: Vec<u8>, call: &u8| {
        let mut made = made;
        made.push(*call);
        let result = if *call == 3 { Err("three".to_string()) } else { Ok(()) };
        (made, result)
    };
    assert_eq!(
        perform_all(&vec![1, 2, 3, 4], Vec::new(), &perform),
        (vec![1, 2, 3], Err("three".to_string()))
    );
    assert_eq!(perform_all(&vec![4, 5], vec![9], &perform), (vec![9, 4, 5], Ok(())));
    assert_eq!(perform_all(&Vec::new(), vec![9], &perform), (vec![9], Ok(())));
}

#[test]
fn session_is_set_up_in_order() {
    let (session, calls) = smtc::MediaSession::<u8>::new();
    assert_eq!(session.fire_event(MediaSessionEvents::Play), None);
    assert_eq!(
        calls,
        vec![
            SetupCall::CreatePlayer,
            SetupCall::DisableCommandManager,
            SetupCall::TakeControls,
            SetupCall::EnableControls,
            SetupCall::EnablePlay,
            SetupCall::EnablePause,
            SetupCall::EnableNext,
            SetupCall::EnablePrevious,
            SetupCall::WatchButtons,
            SetupCall::WatchPosition,
            SetupCall::WatchRate,
        ]
    );
}

#[test]
fn buttons_become_events() {
    let mut session = session();
    assert_eq!(session.button_pressed(Button::Play), None);
    assert_eq!(session.fire_event(MediaSessionEvents::SetPosition { position: 9 }), None);
    session.set_event_handler(Some("handler"));
    for (button, event) in [
        (Button::Play, MediaSessionEvents::Play),
        (Button::Pause, MediaSessionEvents::Pause),
        (Button::Next, MediaSessionEvents::Next),
        (Button::Previous, MediaSessionEvents::Previous),
        (Button::Stop, MediaSessionEvents::Stop),
    ] {
        assert_eq!(session.button_pressed(button), Some((&"handler", event)));
    }
    assert_eq!(session.button_pressed(Button::Other), None);
    let rate = MediaSessionEvents::SetRate { rate: 1.5f64.to_bits() };
    assert_eq!(session.fire_event(rate), Some((&"handler", rate)));
    session.set_event_handler(None);
    assert_eq!(session.fire_event(rate), None);
}

fn display(metadata: Option<SmtcMetadata>) -> Vec<String> {
    let calls: Vec<DisplayCall> = session().set_metadata(&metadata);
    calls.iter().map(|call| format!("{call:?}")).collect()
}

#[test]
fn a_track_is_displayed_whole() {
    let metadata = SmtcMetadata {
        title: Some("Title".to_string()),
        artist: None,
        album: Some("Album".to_string()),
        album_artist: Some("Band".to_string()),
        art_url: Some("https://host/art".to_string()),
    };
    assert_eq!(
        display(Some(metadata)),
        vec![
            "TakeUpdater",
            "SetMusicType",
            "TakeProperties",
            "SetTitle(\"Title\")",
            "SetArtist(\"\")",
            "SetAlbumTitle(\"Album\")",
            "SetAlbumArtist(\"Band\")",
            "SetThumbnail(\"https://host/art\")",
            "Update",
        ]
    );
}

#[test]
fn no_track_clears_the_display() {
    assert_eq!(
        display(None),
        vec![
            "TakeUpdater",
            "SetMusicType",
            "TakeProperties",
            "SetTitle(\"\")",
            "SetArtist(\"\")",
            "SetAlbumTitle(\"\")",
            "SetAlbumArtist(\"\")",
            "Update",
        ]
    );
}

#[test]
fn status_names_are_known() {
    for (name, status) in [
        ("playing", Some(PlaybackStatus::Playing)),
        ("paused", Some(PlaybackStatus::Paused)),
        ("stopped", Some(PlaybackStatus::Stopped)),
        ("Playing", None),
        ("", None),
    ] {
        assert_eq!(parse_status(&name.to_string()), status);
    }
    let session = session();
    assert_eq!(
        session.set_playback_status(&"paused".to_string()),
        Ok(PlaybackStatus::Paused)
    );
    assert_eq!(
        session.set_playback_status(&"Playing".to_string()),
        Err("Unknown playback status: Playing".to_string())
    );
}

#[test]
fn rate_is_passed_on() {
    let rate = session().set_playback_rate(0.75f64.to_bits());
    assert_eq!(f64::from_bits(rate), 0.75);
}

#[test]
fn timeline_runs_from_zero_to_duration() {
    assert_eq!(
        session().set_timeline_properties(950, 900),
        vec![
            TimelineCall::Create,
            TimelineCall::SetStartTime(0),
            TimelineCall::SetEndTime(900),
            TimelineCall::SetMinSeekTime(0),
            TimelineCall::SetMaxSeekTime(900),
            TimelineCall::SetPosition(950),
            TimelineCall::Update,
        ]
    );
}

#[test]
fn remote_commands_become_events() {
    let (mut session, commands) = nowplaying::MediaSession::<u8>::new();
    assert_eq!(
        commands,
        vec![
            Command::Play,
            Command::Pause,
            Command::TogglePlayPause,
            Command::NextTrack,
            Command::PreviousTrack,
            Command::ChangePlaybackPosition,
        ]
    );
    assert_eq!(session.command_received(Command::Play, 0), None);
    session.set_event_handler(Some(7));
    let position = 12.5f64.to_bits();
    for (command, event) in [
        (Command::Play, nowplaying::MediaSessionEvents::Play),
        (Command::Pause, nowplaying::MediaSessionEvents::Pause),
        (Command::TogglePlayPause, nowplaying::MediaSessionEvents::Toggle),
        (Command::NextTrack, nowplaying::MediaSessionEvents::Next),
        (Command::PreviousTrack, nowplaying::MediaSessionEvents::Previous),
        (
            Command::ChangePlaybackPosition,
            nowplaying::MediaSessionEvents::SetPosition { position },
        ),
    ] {
        assert_eq!(session.command_received(command, position), Some((&7, event)));
    }
    let rate = nowplaying::MediaSessionEvents::SetRate { rate: 0 };
    assert_eq!(session.fire_event(rate), Some((&7, rate)));
}

fn entries(metadata: NowPlayingMetadata) -> Vec<String> {
    let (session, _) = nowplaying::MediaSession::<u8>::new();
    let entries: Vec<InfoEntry> = session.set_metadata(&Some(metadata)).unwrap();
    entries.iter().map(|e| format!("{e:?}")).collect()
}

#[test]
fn info_holds_what_the_track_has() {
    let bits = 2.0f64.to_bits();
    let full = NowPlayingMetadata {
        title: Some("T".to_string()),
        artist: Some("A".to_string()),
        album: Some("L".to_string()),
        duration: Some(bits),
        elapsed: Some(0),
        rate: Some(1),
        art_url: Some("u".to_string()),
    };
    let whole = entries(full.clone());
    assert_eq!(
        whole,
        vec![
            "Title(\"T\")".to_string(),
            "Artist(\"A\")".to_string(),
            "AlbumTitle(\"L\")".to_string(),
            format!("PlaybackDuration({bits})"),
            "ElapsedPlaybackTime(0)".to_string(),
            "PlaybackRate(1)".to_string(),
            "Artwork(\"u\")".to_string(),
        ]
    );
    let sparse = NowPlayingMetadata {
        title: None,
        album: None,
        duration: None,
        rate: None,
        art_url: Some(String::new()),
        ..full
    };
    assert_eq!(entries(sparse), vec!["Artist(\"A\")", "ElapsedPlaybackTime(0)"]);
    let (session, _) = nowplaying::MediaSession::<u8>::new();
    assert!(session.set_metadata(&None).is_none());
}

#[test]
fn playback_states_are_known() {
    let (session, _) = nowplaying::MediaSession::<u8>::new();
    assert_eq!(
        session.set_playback_state(&"stopped".to_string()),
        Ok(PlaybackStatus::Stopped)
    );
    assert_eq!(
        session.set_playback_state(&"off".to_string()),
        Err("Unknown playback state: off".to_string())
    );
}
